//! The infix tokenizer.

use crate::error::Error;
use crate::literal::{is_number, is_plain_number, is_plain_text, Literal};
use crate::operation::operation_of;
use crate::token::{views, Token, TokenView};
use vstd::prelude::*;

verus! {

/// What the tokenizer holds between two characters.
pub struct Scan {
    /// The tokens produced so far.
    pub tokens: Seq<TokenView>,
    /// The characters of a number that is not complete yet.
    pub pending: Seq<char>,
    /// Nothing but signs and blanks came since the start of the text, the
    /// last operator or the last left parenthesis, so that a `-` is a sign.
    pub sign_position: bool,
}

/// The state before the first character.
pub open spec fn scan_start() -> Scan {
    Scan { tokens: Seq::empty(), pending: Seq::empty(), sign_position: true }
}

/// Blanks separate tokens and are otherwise skipped.
pub open spec fn is_blank(c: char) -> bool {
    c == ' ' || c == '\t'
}

/// The tokens once the pending characters, if there are any, have become a
/// number token.
pub open spec fn flush(tokens: Seq<TokenView>, pending: Seq<char>) -> Result<
    Seq<TokenView>,
    Error,
> {
    if pending.len() == 0 {
        Ok(tokens)
    } else if is_number(pending) {
        Ok(tokens.push(TokenView::Number(pending)))
    } else {
        Err(Error::InvalidNumber)
    }
}

/// The state after one more character.
pub open spec fn scan_step(scan: Scan, c: char) -> Result<Scan, Error> {
    if '0' <= c <= '9' || c == '.' {
        Ok(Scan { tokens: scan.tokens, pending: scan.pending.push(c), sign_position: false })
    } else if c == '+' || c == '*' || c == '/' || c == '-' || c == '(' || c == ')' || is_blank(c) {
        match flush(scan.tokens, scan.pending) {
            Err(e) => Err(e),
            Ok(tokens) => Ok(
                if is_blank(c) {
                    Scan { tokens, pending: Seq::empty(), sign_position: scan.sign_position }
                } else if c == '-' && scan.sign_position {
                    Scan { tokens, pending: seq!['-'], sign_position: true }
                } else if c == '(' {
                    Scan {
                        tokens: tokens.push(TokenView::LeftParen),
                        pending: Seq::empty(),
                        sign_position: true,
                    }
                } else if c == ')' {
                    Scan {
                        tokens: tokens.push(TokenView::RightParen),
                        pending: Seq::empty(),
                        sign_position: false,
                    }
                } else {
                    Scan {
                        tokens: tokens.push(TokenView::Operator(c)),
                        pending: Seq::empty(),
                        sign_position: true,
                    }
                },
            ),
        }
    } else {
        Err(Error::UnexpectedCharacter(c))
    }
}

/// The state after all of `text`, read from left to right, or the first
/// error on the way.
pub open spec fn scan_run(scan: Scan, text: Seq<char>) -> Result<Scan, Error>
    decreases text.len(),
{
    if text.len() == 0 {
        Ok(scan)
    } else {
        match scan_run(scan, text.drop_last()) {
            Err(e) => Err(e),
            Ok(before) => scan_step(before, text.last()),
        }
    }
}

/// The tokens of the infix expression `text`.
pub open spec fn tokens_of(text: Seq<char>) -> Result<Seq<TokenView>, Error> {
    match scan_run(scan_start(), text) {
        Err(e) => Err(e),
        Ok(scan) => flush(scan.tokens, scan.pending),
    }
}

/// Turns the pending characters, if there are any, into a number token and
/// clears them. Pending characters that are no number are left in place and
/// reported.
pub fn flush_number_buffer(num_buffer: &mut Vec<char>, tokens: &mut Vec<Token>) -> (result: Result<
    (),
    Error,
>)
    ensures
        match flush(views(old(tokens)@), old(num_buffer)@) {
            Ok(flushed) => {
                &&& result is Ok
                &&& views(final(tokens)@) == flushed
                &&& final(num_buffer)@.len() == 0
            },
            Err(e) => {
                &&& result == Err::<(), Error>(e)
                &&& final(tokens)@ == old(tokens)@
                &&& final(num_buffer)@ == old(num_buffer)@
            },
        },
{
    if num_buffer.len() > 0 {
        match Literal::new(num_buffer.clone()) {
            Ok(literal) => {
                let token = Token::Number(literal);
                proof {
                    assert(views(tokens@.push(token)) =~= views(tokens@).push(token@));
                }
                tokens.push(token);
                num_buffer.clear();
            },
            Err(_) => {
                return Err(Error::InvalidNumber);
            },
        }
    }
    Ok(())
}

/// Splits the infix expression `expr` into tokens.
///
/// Digits and points gather into numbers. A `-` at the start of the text,
/// behind an operator or behind a left parenthesis is the sign of the number
/// that follows; elsewhere it is an operator. Blanks separate tokens. The
/// first run of characters that is no number, or the first character that no
/// token holds, ends the scan with an error, whichever comes first.
pub fn tokenize(expr: &str) -> (result: Result<Vec<Token>, Error>)
    ensures
        match tokens_of(expr@) {
            Ok(expected) => result matches Ok(tokens) && views(tokens@) == expected,
            Err(e) => result matches Err(reported) && reported == e,
        },
{
    let mut tokens: Vec<Token> = Vec::new();
    let mut num_buffer: Vec<char> = Vec::new();
    let mut prev_token_is_operator = true;
    proof {
        assert(expr@.take(0) =~= Seq::empty());
        assert(views(tokens@) =~= Seq::empty());
    }
    for c in it: expr.chars()
        invariant
            it.seq() == expr@,
            scan_run(scan_start(), expr@.take(it.index() as int)) == Ok::<Scan, Error>(
                Scan {
                    tokens: views(tokens@),
                    pending: num_buffer@,
                    sign_position: prev_token_is_operator,
                },
            ),
    {
        proof {
            let seen = expr@.take(it.index() + 1);
            assert(seen.drop_last() =~= expr@.take(it.index() as int));
            assert(seen.last() == c);
            lemma_error_lasts(scan_start(), seen, expr@);
        }
        if ('0' <= c && c <= '9') || c == '.' {
            num_buffer.push(c);
            prev_token_is_operator = false;
        } else if c == '+' || c == '*' || c == '/' || c == '-' || c == '(' || c == ')' || c == ' '
            || c == '\t' {
            match flush_number_buffer(&mut num_buffer, &mut tokens) {
                Err(e) => {
                    return Err(e);
                },
                Ok(_) => {},
            }
            assert(num_buffer@ =~= Seq::<char>::empty());
            if c == ' ' || c == '\t' {
            } else if c == '-' && prev_token_is_operator {
                num_buffer.push('-');
                assert(num_buffer@ =~= seq!['-']);
            } else {
                let token = if c == '(' {
                    Token::LeftParen
                } else if c == ')' {
                    Token::RightParen
                } else {
                    Token::Operator(c)
                };
                proof {
                    assert(views(tokens@.push(token)) =~= views(tokens@).push(token@));
                }
                tokens.push(token);
                prev_token_is_operator = c != ')';
            }
        } else {
            return Err(Error::UnexpectedCharacter(c));
        }
    }
    proof {
        assert(expr@.take(expr@.len() as int) =~= expr@);
    }
    match flush_number_buffer(&mut num_buffer, &mut tokens) {
        Err(e) => Err(e),
        Ok(_) => Ok(tokens),
    }
}

/// An error met in a part of the text is the error of the whole text.
pub proof fn lemma_error_lasts(scan: Scan, prefix: Seq<char>, text: Seq<char>)
    requires
        prefix.len() <= text.len(),
        prefix == text.take(prefix.len() as int),
    ensures
        scan_run(scan, prefix) matches Err(e) ==> scan_run(scan, text) == Err::<Scan, Error>(e),
    decreases text.len() - prefix.len(),
{
    if prefix.len() < text.len() {
        let longer = text.take(prefix.len() as int + 1);
        assert(longer.drop_last() =~= prefix);
        assert(longer.take(longer.len() as int) =~= longer);
        lemma_error_lasts(scan, longer, text);
    } else {
        assert(text.take(text.len() as int) =~= text);
    }
}

/// What holds of every token that the tokenizer makes: a number is a plain
/// number, and an operator is one of the four symbols.
pub open spec fn is_sound(token: TokenView) -> bool {
    match token {
        TokenView::Number(text) => is_plain_number(text),
        TokenView::Operator(symbol) => operation_of(symbol) is Some,
        _ => true,
    }
}

pub open spec fn all_sound(tokens: Seq<TokenView>) -> bool {
    forall|i: int| 0 <= i < tokens.len() ==> is_sound(#[trigger] tokens[i])
}

proof fn lemma_flush_is_sound(tokens: Seq<TokenView>, pending: Seq<char>)
    requires
        all_sound(tokens),
        is_plain_text(pending),
    ensures
        flush(tokens, pending) matches Ok(flushed) ==> all_sound(flushed),
{
}

proof fn lemma_scan_is_sound(scan: Scan, text: Seq<char>)
    requires
        all_sound(scan.tokens),
        is_plain_text(scan.pending),
    ensures
        scan_run(scan, text) matches Ok(after) ==> all_sound(after.tokens) && is_plain_text(
            after.pending,
        ),
    decreases text.len(),
{
    if text.len() > 0 {
        lemma_scan_is_sound(scan, text.drop_last());
        if let Ok(before) = scan_run(scan, text.drop_last()) {
            lemma_flush_is_sound(before.tokens, before.pending);
        }
    }
}

/// Every number among the tokens of a text is a plain number, and every
/// operator is one of the four symbols.
pub proof fn lemma_tokens_are_sound(text: Seq<char>)
    ensures
        tokens_of(text) matches Ok(tokens) ==> all_sound(tokens),
{
    lemma_scan_is_sound(scan_start(), text);
    if let Ok(scan) = scan_run(scan_start(), text) {
        lemma_flush_is_sound(scan.tokens, scan.pending);
    }
}

} // verus!
