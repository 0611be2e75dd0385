//! Conversion of infix token order to postfix order.

use crate::error::Error;
use crate::token::{views, Token, TokenView};
use vstd::prelude::*;

verus! {

/// How tightly an operator binds: `*` and `/` bind tighter than `+` and `-`,
/// and every other symbol binds loosest.
pub open spec fn precedence_of(op: char) -> nat {
    if op == '+' || op == '-' {
        1
    } else if op == '*' || op == '/' {
        2
    } else {
        0
    }
}

pub fn precedence(op: char) -> (rank: u8)
    ensures
        rank == precedence_of(op),
{
    match op {
        '+' | '-' => 1,
        '*' | '/' => 2,
        _ => 0,
    }
}

/// The two sequences that the conversion works on.
pub struct Yard {
    /// The tokens emitted so far, in postfix order.
    pub output: Seq<TokenView>,
    /// The operators and left parentheses that wait, the latest last.
    pub waiting: Seq<TokenView>,
}

/// Moves to the output every operator on top of the waiting stack that binds
/// at least as tightly as `op`.
pub open spec fn yield_to(yard: Yard, op: char) -> Yard
    decreases yard.waiting.len(),
{
    if yard.waiting.len() > 0 {
        match yard.waiting.last() {
            TokenView::Operator(top) => if precedence_of(top) >= precedence_of(op) {
                yield_to(
                    Yard {
                        output: yard.output.push(yard.waiting.last()),
                        waiting: yard.waiting.drop_last(),
                    },
                    op,
                )
            } else {
                yard
            },
            _ => yard,
        }
    } else {
        yard
    }
}

/// Moves waiting tokens to the output down to the nearest left parenthesis,
/// which is dropped; without one the waiting stack is emptied.
pub open spec fn close_group(yard: Yard) -> Yard
    decreases yard.waiting.len(),
{
    if yard.waiting.len() == 0 {
        yard
    } else if yard.waiting.last() is LeftParen {
        Yard { output: yard.output, waiting: yard.waiting.drop_last() }
    } else {
        close_group(
            Yard {
                output: yard.output.push(yard.waiting.last()),
                waiting: yard.waiting.drop_last(),
            },
        )
    }
}

/// The yard after one more token.
pub open spec fn yard_step(yard: Yard, token: TokenView) -> Yard {
    match token {
        TokenView::Number(_) => Yard { output: yard.output.push(token), waiting: yard.waiting },
        TokenView::Operator(op) => {
            let settled = yield_to(yard, op);
            Yard { output: settled.output, waiting: settled.waiting.push(token) }
        },
        TokenView::LeftParen => Yard { output: yard.output, waiting: yard.waiting.push(token) },
        TokenView::RightParen => close_group(yard),
    }
}

/// The yard after all of `tokens`, taken from left to right.
pub open spec fn yard_run(yard: Yard, tokens: Seq<TokenView>) -> Yard
    decreases tokens.len(),
{
    if tokens.len() == 0 {
        yard
    } else {
        yard_step(yard_run(yard, tokens.drop_last()), tokens.last())
    }
}

/// The output followed by what still waits, the latest first.
pub open spec fn drain(yard: Yard) -> Seq<TokenView> {
    yard.output + yard.waiting.reverse()
}

/// The postfix order of the infix sequence `tokens`.
pub open spec fn to_postfix(tokens: Seq<TokenView>) -> Seq<TokenView> {
    drain(yard_run(Yard { output: Seq::empty(), waiting: Seq::empty() }, tokens))
}

/// The yard that holds what two stacks of tokens hold.
pub open spec fn yard_of(output: Seq<Token>, waiting: Seq<Token>) -> Yard {
    Yard { output: views(output), waiting: views(waiting) }
}

/// Converts `tokens` from infix order to postfix order.
///
/// Numbers keep their order. An operator follows its operands, after every
/// waiting operator that binds at least as tightly. A right parenthesis
/// releases the operators back to its left parenthesis. Parentheses that do
/// not pair up are not reported: a right parenthesis without a left one
/// releases every waiting operator, and a left parenthesis that is never
/// closed is emitted behind them at the end.
pub fn shunting_yard(tokens: Vec<Token>) -> (result: Result<Vec<Token>, Error>)
    ensures
        result matches Ok(postfix) && views(postfix@) == to_postfix(views(tokens@)),
{
    let mut output: Vec<Token> = Vec::new();
    let mut operators: Vec<Token> = Vec::new();
    let ghost all = tokens@;
    let ghost start = Yard { output: Seq::empty(), waiting: Seq::empty() };
    proof {
        assert(views(output@) =~= start.output);
        assert(views(operators@) =~= start.waiting);
        assert(all.take(0) =~= Seq::empty());
        assert(views(all.take(0)) =~= Seq::empty());
    }
    for token in it: tokens
        invariant
            it.seq() == all,
            yard_of(output@, operators@) == yard_run(start, views(all.take(it.index() as int))),
    {
        let ghost before = yard_of(output@, operators@);
        proof {
            let seen = all.take(it.index() + 1);
            assert(seen.drop_last() =~= all.take(it.index() as int));
            assert(views(seen).drop_last() =~= views(seen.drop_last()));
            assert(views(seen).last() == token@);
        }
        match token {
            Token::Number(_) => {
                proof {
                    lemma_views_push(output@, token);
                }
                output.push(token);
            },
            Token::Operator(op) => {
                while operators.len() > 0 && binds_before(&operators[operators.len() - 1], op)
                    invariant
                        yield_to(yard_of(output@, operators@), op) == yield_to(before, op),
                    decreases operators.len(),
                {
                    proof {
                        lemma_views_pop(operators@);
                        lemma_views_push(output@, operators@.last());
                    }
                    let top = operators.pop().unwrap();
                    output.push(top);
                }
                proof {
                    lemma_views_last(operators@);
                    lemma_views_push(operators@, token);
                }
                operators.push(token);
            },
            Token::LeftParen => {
                proof {
                    lemma_views_push(operators@, token);
                }
                operators.push(token);
            },
            Token::RightParen => {
                let mut open = false;
                while !open && operators.len() > 0
                    invariant
                        !open ==> close_group(yard_of(output@, operators@)) == close_group(before),
                        open ==> yard_of(output@, operators@) == close_group(before),
                    decreases operators.len() + if open { 0int } else { 1int },
                {
                    proof {
                        lemma_views_pop(operators@);
                        lemma_views_push(output@, operators@.last());
                    }
                    let top = operators.pop().unwrap();
                    match top {
                        Token::LeftParen => {
                            open = true;
                        },
                        _ => {
                            output.push(top);
                        },
                    }
                }
                proof {
                    lemma_views_last(operators@);
                }
            },
        }
    }
    proof {
        assert(all.take(all.len() as int) =~= all);
    }
    let ghost settled = yard_of(output@, operators@);
    while operators.len() > 0
        invariant
            drain(yard_of(output@, operators@)) == drain(settled),
        decreases operators.len(),
    {
        proof {
            lemma_views_pop(operators@);
            lemma_views_push(output@, operators@.last());
            lemma_drain_one(yard_of(output@, operators@));
        }
        let top = operators.pop().unwrap();
        output.push(top);
    }
    proof {
        assert(views(operators@) =~= Seq::empty());
        assert(views(operators@).reverse() =~= Seq::empty());
        assert(drain(yard_of(output@, operators@)) =~= views(output@));
    }
    Ok(output)
}

/// Whether the waiting token `top` is an operator that leaves before `op` enters.
fn binds_before(top: &Token, op: char) -> (leaves: bool)
    ensures
        leaves == (top@ matches TokenView::Operator(waiting) && precedence_of(waiting)
            >= precedence_of(op)),
{
    match top {
        Token::Operator(waiting) => precedence(*waiting) >= precedence(op),
        _ => false,
    }
}

proof fn lemma_views_push(tokens: Seq<Token>, token: Token)
    ensures
        views(tokens.push(token)) == views(tokens).push(token@),
{
    assert(views(tokens.push(token)) =~= views(tokens).push(token@));
}

proof fn lemma_views_pop(tokens: Seq<Token>)
    requires
        tokens.len() > 0,
    ensures
        views(tokens.drop_last()) == views(tokens).drop_last(),
        views(tokens).last() == tokens.last()@,
{
    assert(views(tokens.drop_last()) =~= views(tokens).drop_last());
}

proof fn lemma_views_last(tokens: Seq<Token>)
    ensures
        views(tokens).len() == tokens.len(),
        tokens.len() > 0 ==> views(tokens).last() == tokens.last()@,
{
}

proof fn lemma_drain_one(yard: Yard)
    requires
        yard.waiting.len() > 0,
    ensures
        drain(yard) == drain(
            Yard {
                output: yard.output.push(yard.waiting.last()),
                waiting: yard.waiting.drop_last(),
            },
        ),
{
    let rest = yard.waiting.drop_last();
    assert(yard.waiting.reverse() =~= seq![yard.waiting.last()] + rest.reverse());
    assert(yard.output + yard.waiting.reverse() =~= yard.output.push(yard.waiting.last())
        + rest.reverse());
}

/// Only operators and left parentheses wait.
pub open spec fn waits_in_order(waiting: Seq<TokenView>) -> bool {
    forall|i: int|
        0 <= i < waiting.len() ==> (#[trigger] waiting[i]) is Operator || waiting[i] is LeftParen
}

proof fn lemma_yield_keeps_order(yard: Yard, op: char)
    requires
        waits_in_order(yard.waiting),
    ensures
        waits_in_order(yield_to(yard, op).waiting),
    decreases yard.waiting.len(),
{
    if yard.waiting.len() > 0 {
        let next = Yard {
            output: yard.output.push(yard.waiting.last()),
            waiting: yard.waiting.drop_last(),
        };
        lemma_yield_keeps_order(next, op);
    }
}

proof fn lemma_close_keeps_order(yard: Yard)
    requires
        waits_in_order(yard.waiting),
    ensures
        waits_in_order(close_group(yard).waiting),
    decreases yard.waiting.len(),
{
    if yard.waiting.len() > 0 {
        let next = Yard {
            output: yard.output.push(yard.waiting.last()),
            waiting: yard.waiting.drop_last(),
        };
        lemma_close_keeps_order(next);
    }
}

/// No number and no right parenthesis ever waits among the operators.
pub proof fn lemma_only_operators_wait(yard: Yard, tokens: Seq<TokenView>)
    requires
        waits_in_order(yard.waiting),
    ensures
        waits_in_order(yard_run(yard, tokens).waiting),
    decreases tokens.len(),
{
    if tokens.len() > 0 {
        lemma_only_operators_wait(yard, tokens.drop_last());
        let before = yard_run(yard, tokens.drop_last());
        match tokens.last() {
            TokenView::Operator(op) => {
                lemma_yield_keeps_order(before, op);
            },
            TokenView::RightParen => {
                lemma_close_keeps_order(before);
            },
            _ => {},
        }
    }
}

} // verus!
