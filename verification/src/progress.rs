//! An evaluation as a sequence of requests.
//!
//! Evaluating an expression needs arithmetic on doubles, which this crate
//! leaves to its caller. An evaluation therefore runs until it needs a
//! number, hands out a [`Request`], and goes on when the answer comes back:
//!
//! ```text
//! let mut progress = evaluate_expression(line, &mode);
//! loop {
//!     match progress {
//!         Progress::Finished(result) => return result,
//!         Progress::Suspended(pending) => {
//!             let answer = compute(pending.request());
//!             progress = pending.resume(answer);
//!         }
//!     }
//! }
//! ```

use crate::error::Error;
use crate::literal::is_number;
use crate::literal::Literal;
use crate::operation::{
    apply_operation, is_proper, requested, Numerics, Request, RequestView,
};
use crate::polish::{is_operator_word, prefix_step, prefix_value_from};
use crate::rpn::{postfix_step, postfix_value_from, sole_value};
use crate::token::{views, Token, TokenView};
use vstd::prelude::*;

verus! {

/// The input that an evaluation has not read yet.
pub enum RestView {
    /// Postfix tokens, the next one first.
    Postfix(Seq<TokenView>),
    /// Words of a prefix expression, the next one last.
    Prefix(Seq<Seq<char>>),
}

impl RestView {
    pub open spec fn len(self) -> nat {
        match self {
            RestView::Postfix(tokens) => tokens.len(),
            RestView::Prefix(words) => words.len(),
        }
    }
}

/// An evaluation that waits for the answer to a request.
pub struct PendingView {
    /// What has to be computed.
    pub request: RequestView,
    /// The value stack, the top last, without the operands of the request.
    pub stack: Seq<u64>,
    /// What is left to read once the answer is on the stack.
    pub rest: RestView,
}

/// Where an evaluation stands.
pub enum ProgressView {
    Suspended(PendingView),
    Finished(Result<u64, Error>),
}

/// A postfix evaluation with `stack` and `rest`, run up to its next request
/// or its end.
pub open spec fn postfix_progress(stack: Seq<u64>, rest: Seq<TokenView>) -> ProgressView {
    if rest.len() == 0 {
        ProgressView::Finished(sole_value(stack))
    } else {
        match rest[0] {
            TokenView::Number(text) => ProgressView::Suspended(
                PendingView {
                    request: RequestView::Literal(text),
                    stack,
                    rest: RestView::Postfix(rest.drop_first()),
                },
            ),
            TokenView::Operator(op) => if stack.len() < 2 {
                ProgressView::Finished(Err(Error::MalformedExpression))
            } else {
                match requested(stack[stack.len() - 2], stack[stack.len() - 1], op) {
                    Err(e) => ProgressView::Finished(Err(e)),
                    Ok(request) => ProgressView::Suspended(
                        PendingView {
                            request,
                            stack: stack.take(stack.len() - 2),
                            rest: RestView::Postfix(rest.drop_first()),
                        },
                    ),
                }
            },
            _ => ProgressView::Finished(Err(Error::InvalidToken)),
        }
    }
}

/// A prefix evaluation with `stack` and `rest`, run up to its next request
/// or its end.
pub open spec fn prefix_progress(stack: Seq<u64>, rest: Seq<Seq<char>>) -> ProgressView {
    if rest.len() == 0 {
        ProgressView::Finished(sole_value(stack))
    } else if is_number(rest.last()) {
        ProgressView::Suspended(
            PendingView {
                request: RequestView::Literal(rest.last()),
                stack,
                rest: RestView::Prefix(rest.drop_last()),
            },
        )
    } else if is_operator_word(rest.last()) {
        if stack.len() < 2 {
            ProgressView::Finished(Err(Error::MalformedExpression))
        } else {
            match requested(stack[stack.len() - 1], stack[stack.len() - 2], rest.last()[0]) {
                Err(e) => ProgressView::Finished(Err(e)),
                Ok(request) => ProgressView::Suspended(
                    PendingView {
                        request,
                        stack: stack.take(stack.len() - 2),
                        rest: RestView::Prefix(rest.drop_last()),
                    },
                ),
            }
        }
    } else {
        ProgressView::Finished(Err(Error::InvalidSymbol))
    }
}

/// Where `pending` stands once `answer` has come in: the answer is pushed and
/// the evaluation runs up to its next request or its end.
pub open spec fn resumed(pending: PendingView, answer: u64) -> ProgressView {
    match pending.rest {
        RestView::Postfix(rest) => postfix_progress(pending.stack.push(answer), rest),
        RestView::Prefix(rest) => prefix_progress(pending.stack.push(answer), rest),
    }
}

impl ProgressView {
    /// A bound on the number of requests still to come.
    pub open spec fn requests_left(self) -> nat {
        match self {
            ProgressView::Finished(_) => 0,
            ProgressView::Suspended(pending) => pending.rest.len() + 1,
        }
    }

    /// The result that the evaluation ends with when each of its requests
    /// is answered by `numerics`.
    pub open spec fn outcome(self, numerics: Numerics) -> Result<u64, Error>
        decreases self.requests_left(),
    {
        match self {
            ProgressView::Finished(result) => result,
            ProgressView::Suspended(pending) => resumed(
                pending,
                numerics.answer(pending.request),
            ).outcome(numerics),
        }
    }
}

/// The texts of a sequence of words, in order.
pub open spec fn texts(words: Seq<Vec<char>>) -> Seq<Seq<char>> {
    words.map_values(|word: Vec<char>| word@)
}

/// The input that an evaluation has not read yet. Either way the next item
/// is the last of the vector.
#[derive(Debug)]
enum Rest {
    Postfix(Vec<Token>),
    Prefix(Vec<Vec<char>>),
}

impl View for Rest {
    type V = RestView;

    closed spec fn view(&self) -> RestView {
        match self {
            Rest::Postfix(upcoming) => RestView::Postfix(views(upcoming@).reverse()),
            Rest::Prefix(words) => RestView::Prefix(texts(words@)),
        }
    }
}

/// An evaluation that waits for the answer to a request.
#[derive(Debug)]
pub struct Pending {
    request: Request,
    stack: Vec<u64>,
    rest: Rest,
}

impl View for Pending {
    type V = PendingView;

    closed spec fn view(&self) -> PendingView {
        PendingView { request: self.request@, stack: self.stack@, rest: self.rest@ }
    }
}

impl Pending {
    #[verifier::type_invariant]
    spec fn asks_properly(self) -> bool {
        is_proper(self.request@)
    }
}

/// Where an evaluation stands: it waits for an answer, or it has ended with
/// a value or an error.
#[derive(Debug)]
pub enum Progress {
    Suspended(Pending),
    Finished(Result<u64, Error>),
}

impl View for Progress {
    type V = ProgressView;

    open spec fn view(&self) -> ProgressView {
        match self {
            Progress::Suspended(pending) => ProgressView::Suspended(pending@),
            Progress::Finished(result) => ProgressView::Finished(*result),
        }
    }
}

/// The only value on `stack`, or the report that the expression is malformed.
fn finish(stack: Vec<u64>) -> (result: Result<u64, Error>)
    ensures
        result == sole_value(stack@),
{
    if stack.len() == 1 {
        Ok(stack[0])
    } else {
        Err(Error::MalformedExpression)
    }
}

/// Runs a postfix evaluation up to its next request or its end. The tokens
/// still to be read are `upcoming` from its last to its first.
pub(crate) fn advance_postfix(stack: Vec<u64>, upcoming: Vec<Token>) -> (progress: Progress)
    ensures
        progress@ == postfix_progress(stack@, views(upcoming@).reverse()),
{
    let mut stack = stack;
    let mut upcoming = upcoming;
    let ghost given = upcoming@;
    let ghost rest = views(given).reverse();
    match upcoming.pop() {
        None => Progress::Finished(finish(stack)),
        Some(token) => {
            proof {
                assert(given =~= upcoming@.push(token));
                assert(views(given) =~= views(upcoming@).push(token@));
                assert(rest.drop_first() =~= views(upcoming@).reverse());
                assert(rest[0] == token@);
            }
            match token {
                Token::Number(literal) => {
                    proof {
                        use_type_invariant(&literal);
                        literal.lemma_holds_number();
                    }
                    Progress::Suspended(
                        Pending {
                            request: Request::Literal(literal),
                            stack,
                            rest: Rest::Postfix(upcoming),
                        },
                    )
                },
                Token::Operator(op) => {
                    if stack.len() < 2 {
                        return Progress::Finished(Err(Error::MalformedExpression));
                    }
                    let ghost held = stack@;
                    let right = stack.pop().unwrap();
                    let left = stack.pop().unwrap();
                    assert(stack@ =~= held.take(held.len() - 2));
                    match apply_operation(left, right, op) {
                        Err(e) => Progress::Finished(Err(e)),
                        Ok(request) => Progress::Suspended(
                            Pending { request, stack, rest: Rest::Postfix(upcoming) },
                        ),
                    }
                },
                _ => Progress::Finished(Err(Error::InvalidToken)),
            }
        },
    }
}

/// The operator that `word` consists of, if it is one of the four symbols
/// and nothing else.
fn operator_of_word(word: &Vec<char>) -> (operator: Option<char>)
    ensures
        match operator {
            Some(symbol) => is_operator_word(word@) && symbol == word@[0],
            None => !is_operator_word(word@),
        },
{
    if word.len() == 1 && (word[0] == '+' || word[0] == '-' || word[0] == '*' || word[0] == '/') {
        Some(word[0])
    } else {
        None
    }
}

/// Runs a prefix evaluation up to its next request or its end. The words
/// still to be read are `words` from its last to its first.
pub(crate) fn advance_prefix(stack: Vec<u64>, words: Vec<Vec<char>>) -> (progress: Progress)
    ensures
        progress@ == prefix_progress(stack@, texts(words@)),
{
    let mut stack = stack;
    let mut words = words;
    let ghost given = words@;
    let ghost rest = texts(given);
    match words.pop() {
        None => Progress::Finished(finish(stack)),
        Some(word) => {
            proof {
                assert(given =~= words@.push(word));
                assert(rest.drop_last() =~= texts(words@));
                assert(rest.last() == word@);
            }
            let word = match Literal::new(word) {
                Ok(literal) => {
                    return Progress::Suspended(
                        Pending {
                            request: Request::Literal(literal),
                            stack,
                            rest: Rest::Prefix(words),
                        },
                    );
                },
                Err(word) => word,
            };
            match operator_of_word(&word) {
                None => Progress::Finished(Err(Error::InvalidSymbol)),
                Some(op) => {
                    if stack.len() < 2 {
                        return Progress::Finished(Err(Error::MalformedExpression));
                    }
                    let ghost held = stack@;
                    let left = stack.pop().unwrap();
                    let right = stack.pop().unwrap();
                    assert(stack@ =~= held.take(held.len() - 2));
                    match apply_operation(left, right, op) {
                        Err(e) => Progress::Finished(Err(e)),
                        Ok(request) => Progress::Suspended(
                            Pending { request, stack, rest: Rest::Prefix(words) },
                        ),
                    }
                },
            }
        },
    }
}

impl Pending {
    /// What has to be computed before the evaluation can go on: the value
    /// of a number, or an operation that is not a division by zero.
    pub fn request(&self) -> (request: &Request)
        ensures
            request@ == self@.request,
            is_proper(request@),
    {
        proof {
            use_type_invariant(self);
        }
        &self.request
    }

    /// Goes on with `answer` as the result of the request: the answer is
    /// pushed on the value stack and the evaluation runs up to its next
    /// request or its end.
    pub fn resume(self, answer: u64) -> (progress: Progress)
        ensures
            progress@ == resumed(self@, answer),
            progress@.requests_left() < ProgressView::Suspended(self@).requests_left(),
            forall|numerics: Numerics|
                numerics.answer(self@.request) == answer ==> #[trigger] progress@.outcome(numerics)
                    == ProgressView::Suspended(self@).outcome(numerics),
    {
        let mut stack = self.stack;
        stack.push(answer);
        match self.rest {
            Rest::Postfix(upcoming) => advance_postfix(stack, upcoming),
            Rest::Prefix(words) => advance_prefix(stack, words),
        }
    }
}

/// Answering every request of a postfix evaluation by `numerics` ends with
/// the value of the tokens under `numerics`.
pub proof fn lemma_postfix_outcome(numerics: Numerics, stack: Seq<u64>, rest: Seq<TokenView>)
    ensures
        postfix_progress(stack, rest).outcome(numerics) == postfix_value_from(numerics, stack, rest),
    decreases rest.len(),
{
    if rest.len() > 0 {
        match postfix_step(numerics, stack, rest[0]) {
            Err(_) => {},
            Ok(next) => {
                lemma_postfix_outcome(numerics, next, rest.drop_first());
            },
        }
    }
}

/// Answering every request of a prefix evaluation by `numerics` ends with
/// the value of the words under `numerics`.
pub proof fn lemma_prefix_outcome(numerics: Numerics, stack: Seq<u64>, rest: Seq<Seq<char>>)
    ensures
        prefix_progress(stack, rest).outcome(numerics) == prefix_value_from(numerics, stack, rest),
    decreases rest.len(),
{
    if rest.len() > 0 {
        match prefix_step(numerics, stack, rest.last()) {
            Err(_) => {},
            Ok(next) => {
                lemma_prefix_outcome(numerics, next, rest.drop_last());
            },
        }
    }
}

} // verus!
