//! Evaluation of a postfix token sequence.

use crate::error::Error;
use crate::operation::{applied, Numerics};
use crate::progress::{advance_postfix, lemma_postfix_outcome, postfix_progress, Progress};
use crate::token::{views, Token, TokenView};
use vstd::prelude::*;

verus! {

/// The only value on `stack`, the result of a well-formed expression.
pub open spec fn sole_value(stack: Seq<u64>) -> Result<u64, Error> {
    if stack.len() == 1 {
        Ok(stack[0])
    } else {
        Err(Error::MalformedExpression)
    }
}

/// The value stack after one more postfix token. A number is pushed. An
/// operator replaces the two topmost values, the upper one being its right
/// operand, by what it makes of them.
pub open spec fn postfix_step(numerics: Numerics, stack: Seq<u64>, token: TokenView) -> Result<
    Seq<u64>,
    Error,
> {
    match token {
        TokenView::Number(text) => Ok(stack.push((numerics.literal)(text))),
        TokenView::Operator(op) => if stack.len() < 2 {
            Err(Error::MalformedExpression)
        } else {
            match applied(numerics, stack[stack.len() - 2], stack[stack.len() - 1], op) {
                Err(e) => Err(e),
                Ok(value) => Ok(stack.take(stack.len() - 2).push(value)),
            }
        },
        _ => Err(Error::InvalidToken),
    }
}

/// The value of the postfix tokens `rest`, read from left to right on top of
/// `stack`, or the first error on the way.
pub open spec fn postfix_value_from(numerics: Numerics, stack: Seq<u64>, rest: Seq<TokenView>)
    -> Result<u64, Error>
    decreases rest.len(),
{
    if rest.len() == 0 {
        sole_value(stack)
    } else {
        match postfix_step(numerics, stack, rest[0]) {
            Err(e) => Err(e),
            Ok(next) => postfix_value_from(numerics, next, rest.drop_first()),
        }
    }
}

/// The value of the postfix expression `tokens`.
pub open spec fn postfix_value(numerics: Numerics, tokens: Seq<TokenView>) -> Result<u64, Error> {
    postfix_value_from(numerics, Seq::empty(), tokens)
}

/// Starts the evaluation of the postfix expression `tokens` and runs it up
/// to its first request or its end.
///
/// Answered throughout by any one way of computing, the evaluation ends with
/// the value of the expression: the only value left on the stack after all
/// tokens. It ends with a malformed-expression error where an operator finds
/// fewer than two values or the end finds more or less than one, with an
/// invalid-token error at a parenthesis, and with the error of the numeric
/// operator where that refuses.
pub fn evaluate_rpn(tokens: Vec<Token>) -> (progress: Progress)
    ensures
        progress@ == postfix_progress(Seq::empty(), views(tokens@)),
        forall|numerics: Numerics| #[trigger]
            progress@.outcome(numerics) == postfix_value(numerics, views(tokens@)),
{
    let ghost given = tokens@;
    let mut tokens = tokens;
    let mut upcoming: Vec<Token> = Vec::new();
    proof {
        assert(views(tokens@) =~= views(upcoming@).reverse() + views(tokens@));
    }
    while tokens.len() > 0
        invariant
            views(given) == views(tokens@) + views(upcoming@).reverse(),
        decreases tokens.len(),
    {
        let ghost left = tokens@;
        let ghost moved = upcoming@;
        let token = tokens.pop().unwrap();
        upcoming.push(token);
        proof {
            assert(left =~= tokens@.push(token));
            assert(views(left) =~= views(tokens@).push(token@));
            assert(views(upcoming@) =~= views(moved).push(token@));
            assert(views(upcoming@).reverse() =~= seq![token@] + views(moved).reverse());
            assert(views(left) + views(moved).reverse() =~= views(tokens@) + views(
                upcoming@,
            ).reverse());
        }
    }
    proof {
        assert(views(tokens@) + views(upcoming@).reverse() =~= views(upcoming@).reverse());
        assert forall|numerics: Numerics|
            postfix_progress(Seq::empty(), views(given)).outcome(numerics) == postfix_value(
                numerics,
                views(given),
            ) by {
            lemma_postfix_outcome(numerics, Seq::empty(), views(given));
        }
    }
    advance_postfix(Vec::new(), upcoming)
}

} // verus!
