//! Evaluation of prefix (Polish) notation.

use crate::error::Error;
use crate::literal::is_number;
use crate::operation::{applied, operation_of, Numerics};
use crate::progress::{advance_prefix, lemma_prefix_outcome, prefix_progress, texts, Progress};
use crate::rpn::sole_value;
use vstd::prelude::*;

verus! {

/// The characters that separate the words of a prefix expression: those with
/// the Unicode property `White_Space`.
pub open spec fn is_whitespace(c: char) -> bool {
    let code = c as u32;
    ||| 0x09 <= code <= 0x0D
    ||| code == 0x20
    ||| code == 0x85
    ||| code == 0xA0
    ||| code == 0x1680
    ||| 0x2000 <= code <= 0x200A
    ||| code == 0x2028
    ||| code == 0x2029
    ||| code == 0x202F
    ||| code == 0x205F
    ||| code == 0x3000
}

/// The words cut so far and the word that is being read.
pub struct Split {
    pub words: Seq<Seq<char>>,
    pub current: Seq<char>,
}

/// The words, with the one being read, if it holds anything, as the last.
pub open spec fn close_word(split: Split) -> Seq<Seq<char>> {
    if split.current.len() > 0 {
        split.words.push(split.current)
    } else {
        split.words
    }
}

/// The state after one more character: whitespace ends the word being
/// read, any other character belongs to it.
pub open spec fn split_step(split: Split, c: char) -> Split {
    if is_whitespace(c) {
        Split { words: close_word(split), current: Seq::empty() }
    } else {
        Split { words: split.words, current: split.current.push(c) }
    }
}

/// The state after all of `text`, read from left to right.
pub open spec fn split_run(split: Split, text: Seq<char>) -> Split
    decreases text.len(),
{
    if text.len() == 0 {
        split
    } else {
        split_step(split_run(split, text.drop_last()), text.last())
    }
}

/// The state before the first character.
pub open spec fn split_start() -> Split {
    Split { words: Seq::empty(), current: Seq::empty() }
}

/// The maximal runs of characters of `text` that hold no whitespace, in order.
pub open spec fn words_of(text: Seq<char>) -> Seq<Seq<char>> {
    close_word(split_run(split_start(), text))
}

/// `word` is one of the four operator symbols and nothing else.
pub open spec fn is_operator_word(word: Seq<char>) -> bool {
    word.len() == 1 && operation_of(word[0]) is Some
}

/// The value stack after one more word. A number is pushed. An operator
/// replaces the two topmost values, the upper one being its left operand, by
/// what it makes of them.
pub open spec fn prefix_step(numerics: Numerics, stack: Seq<u64>, word: Seq<char>) -> Result<
    Seq<u64>,
    Error,
> {
    if is_number(word) {
        Ok(stack.push((numerics.literal)(word)))
    } else if is_operator_word(word) {
        if stack.len() < 2 {
            Err(Error::MalformedExpression)
        } else {
            match applied(numerics, stack[stack.len() - 1], stack[stack.len() - 2], word[0]) {
                Err(e) => Err(e),
                Ok(value) => Ok(stack.take(stack.len() - 2).push(value)),
            }
        }
    } else {
        Err(Error::InvalidSymbol)
    }
}

/// The value of the words `rest`, read from right to left on top of `stack`,
/// or the first error on the way.
pub open spec fn prefix_value_from(numerics: Numerics, stack: Seq<u64>, rest: Seq<Seq<char>>)
    -> Result<u64, Error>
    decreases rest.len(),
{
    if rest.len() == 0 {
        sole_value(stack)
    } else {
        match prefix_step(numerics, stack, rest.last()) {
            Err(e) => Err(e),
            Ok(next) => prefix_value_from(numerics, next, rest.drop_last()),
        }
    }
}

/// The value of the prefix expression `text`.
pub open spec fn prefix_value(numerics: Numerics, text: Seq<char>) -> Result<u64, Error> {
    prefix_value_from(numerics, Seq::empty(), words_of(text))
}

pub fn is_whitespace_char(c: char) -> (white: bool)
    ensures
        white == is_whitespace(c),
{
    let code = c as u32;
    (0x09 <= code && code <= 0x0D) || code == 0x20 || code == 0x85 || code == 0xA0 || code
        == 0x1680 || (0x2000 <= code && code <= 0x200A) || code == 0x2028 || code == 0x2029
        || code == 0x202F || code == 0x205F || code == 0x3000
}

/// Cuts `expr` into its words: the maximal runs of characters that hold no
/// whitespace.
pub fn split_words(expr: &str) -> (words: Vec<Vec<char>>)
    ensures
        texts(words@) == words_of(expr@),
{
    let mut words: Vec<Vec<char>> = Vec::new();
    let mut current: Vec<char> = Vec::new();
    proof {
        assert(expr@.take(0) =~= Seq::empty());
        assert(texts(words@) =~= Seq::empty());
    }
    for c in it: expr.chars()
        invariant
            it.seq() == expr@,
            split_run(split_start(), expr@.take(it.index() as int)) == (Split {
                words: texts(words@),
                current: current@,
            }),
    {
        proof {
            let seen = expr@.take(it.index() + 1);
            assert(seen.drop_last() =~= expr@.take(it.index() as int));
            assert(seen.last() == c);
        }
        if is_whitespace_char(c) {
            if current.len() > 0 {
                proof {
                    assert(texts(words@.push(current)) =~= texts(words@).push(current@));
                }
                words.push(current);
                current = Vec::new();
            }
            assert(current@ =~= Seq::<char>::empty());
        } else {
            current.push(c);
        }
    }
    proof {
        assert(expr@.take(expr@.len() as int) =~= expr@);
    }
    if current.len() > 0 {
        proof {
            assert(texts(words@.push(current)) =~= texts(words@).push(current@));
        }
        words.push(current);
    }
    words
}

/// Starts the evaluation of the prefix expression `expr` and runs it up to
/// its first request or its end.
///
/// The words of `expr` are read from the last to the first. Answered
/// throughout by any one way of computing, the evaluation ends with the
/// value of the expression, in which an operator takes the operand written
/// next to it as its left one. It ends with an invalid-symbol error at a
/// word that is neither a number nor an operator, with a malformed-expression
/// error where an operator finds fewer than two values or the end finds more
/// or less than one, and with a division-by-zero error where the numeric
/// operator refuses.
pub fn evaluate_polish_expression(expr: &str) -> (progress: Progress)
    ensures
        progress@ == prefix_progress(Seq::empty(), words_of(expr@)),
        forall|numerics: Numerics| #[trigger]
            progress@.outcome(numerics) == prefix_value(numerics, expr@),
{
    let words = split_words(expr);
    proof {
        assert forall|numerics: Numerics|
            prefix_progress(Seq::empty(), words_of(expr@)).outcome(numerics) == prefix_value(
                numerics,
                expr@,
            ) by {
            lemma_prefix_outcome(numerics, Seq::empty(), words_of(expr@));
        }
    }
    advance_prefix(Vec::new(), words)
}

} // verus!
