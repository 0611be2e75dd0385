//! Evaluation of infix notation.

use crate::error::Error;
use crate::operation::Numerics;
use crate::progress::{postfix_progress, Progress, ProgressView};
use crate::rpn::{evaluate_rpn, postfix_value};
use crate::shunting_yard::{shunting_yard, to_postfix};
use crate::tokenizer::{tokenize, tokens_of};
use vstd::prelude::*;

verus! {

/// The value of the infix expression `text`: that of its tokens in postfix
/// order, or the error of the tokenizer.
pub open spec fn infix_value(numerics: Numerics, text: Seq<char>) -> Result<u64, Error> {
    match tokens_of(text) {
        Err(e) => Err(e),
        Ok(tokens) => postfix_value(numerics, to_postfix(tokens)),
    }
}

/// Where the evaluation of the infix expression `text` stands at its first
/// request or its end.
pub open spec fn infix_progress(text: Seq<char>) -> ProgressView {
    match tokens_of(text) {
        Err(e) => ProgressView::Finished(Err(e)),
        Ok(tokens) => postfix_progress(Seq::empty(), to_postfix(tokens)),
    }
}

/// Starts the evaluation of the infix expression `expr` and runs it up to
/// its first request or its end: the text is split into tokens, the tokens
/// are brought into postfix order, and the postfix evaluation begins.
///
/// An error of the tokenizer ends the evaluation at once. Otherwise,
/// answered throughout by any one way of computing, the evaluation ends as
/// the postfix evaluation of the reordered tokens does.
pub fn evaluate_infix_expression(expr: &str) -> (progress: Progress)
    ensures
        progress@ == infix_progress(expr@),
        forall|numerics: Numerics| #[trigger]
            progress@.outcome(numerics) == infix_value(numerics, expr@),
{
    let tokens = match tokenize(expr) {
        Err(e) => {
            return Progress::Finished(Err(e));
        },
        Ok(tokens) => tokens,
    };
    let rpn = match shunting_yard(tokens) {
        Err(e) => {
            return Progress::Finished(Err(e));
        },
        Ok(rpn) => rpn,
    };
    evaluate_rpn(rpn)
}

} // verus!
