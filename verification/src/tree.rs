//! Syntax trees, their two renderings, and the proof that both notations
//! give a rendered tree the value of the tree.

use crate::error::Error;
use crate::infix::infix_value;
use crate::literal::{digits_end, is_number, is_plain_number};
use crate::operation::{applied, operation_of, Numerics};
use crate::polish::{
    close_word, is_whitespace, prefix_step, prefix_value, prefix_value_from, split_run,
    split_start, split_step, words_of, Split,
};
use crate::rpn::{postfix_step, postfix_value_from};
use crate::shunting_yard::{
    close_group, precedence_of, to_postfix, yard_run, yard_step, yield_to, Yard,
};
use crate::token::TokenView;
use crate::tokenizer::{flush, scan_run, scan_start, scan_step, tokens_of, Scan};
use vstd::prelude::*;

verus! {

/// An expression as a tree: a number literal, an operator with its left and
/// right operand, or an expression in parentheses.
pub enum Tree {
    Leaf(Seq<char>),
    Node(char, Box<Tree>, Box<Tree>),
    Group(Box<Tree>),
}

impl Tree {
    /// The tree can stand without parentheses as the left operand of `op`:
    /// it is no bare operation, or one that binds at least as tightly.
    pub open spec fn stands_left_of(self, op: char) -> bool {
        self matches Tree::Node(inner, _, _) ==> precedence_of(inner) >= precedence_of(op)
    }

    /// The tree can stand without parentheses as the right operand of `op`:
    /// it is no bare operation, or one that binds more tightly.
    pub open spec fn stands_right_of(self, op: char) -> bool {
        self matches Tree::Node(inner, _, _) ==> precedence_of(inner) > precedence_of(op)
    }

    /// Every leaf is a plain number, every node holds one of the four
    /// operators, and an operand that needs parentheses to keep its place
    /// has them.
    pub open spec fn well_formed(self) -> bool
        decreases self,
    {
        match self {
            Tree::Leaf(text) => is_plain_number(text),
            Tree::Node(op, left, right) => {
                &&& operation_of(op) is Some
                &&& left.well_formed()
                &&& right.well_formed()
                &&& left.stands_left_of(op)
                &&& right.stands_right_of(op)
            },
            Tree::Group(inner) => inner.well_formed(),
        }
    }

    /// The value of the tree: that of a leaf is the value of its literal,
    /// that of a node is what its operator makes of the values of its
    /// operands. A division by zero anywhere in the tree is the error of
    /// the whole tree.
    pub open spec fn value(self, numerics: Numerics) -> Result<u64, Error>
        decreases self,
    {
        match self {
            Tree::Leaf(text) => Ok((numerics.literal)(text)),
            Tree::Node(op, left, right) => match (left.value(numerics), right.value(numerics)) {
                (Ok(a), Ok(b)) => applied(numerics, a, b, op),
                _ => Err(Error::DivisionByZero),
            },
            Tree::Group(inner) => inner.value(numerics),
        }
    }

    /// The tree in infix notation: `left op right`, and `(inner)` for a
    /// group.
    pub open spec fn infix_text(self) -> Seq<char>
        decreases self,
    {
        match self {
            Tree::Leaf(text) => text,
            Tree::Node(op, left, right) => left.infix_text() + seq![' ', op, ' ']
                + right.infix_text(),
            Tree::Group(inner) => seq!['('] + inner.infix_text() + seq![')'],
        }
    }

    /// The tree in prefix notation: `op left right`. Groups leave no trace.
    pub open spec fn prefix_text(self) -> Seq<char>
        decreases self,
    {
        match self {
            Tree::Leaf(text) => text,
            Tree::Node(op, left, right) => seq![op, ' '] + left.prefix_text() + seq![' ']
                + right.prefix_text(),
            Tree::Group(inner) => inner.prefix_text(),
        }
    }

    /// The tokens of the infix rendering.
    pub open spec fn infix_tokens(self) -> Seq<TokenView>
        decreases self,
    {
        match self {
            Tree::Leaf(text) => seq![TokenView::Number(text)],
            Tree::Node(op, left, right) => left.infix_tokens() + seq![TokenView::Operator(op)]
                + right.infix_tokens(),
            Tree::Group(inner) => seq![TokenView::LeftParen] + inner.infix_tokens() + seq![
                TokenView::RightParen,
            ],
        }
    }

    /// The tokens of the tree in postfix order.
    pub open spec fn postfix_tokens(self) -> Seq<TokenView>
        decreases self,
    {
        match self {
            Tree::Leaf(text) => seq![TokenView::Number(text)],
            Tree::Node(op, left, right) => left.postfix_tokens() + right.postfix_tokens() + seq![
                TokenView::Operator(op),
            ],
            Tree::Group(inner) => inner.postfix_tokens(),
        }
    }

    /// The operators that still wait when the infix tokens of the tree have
    /// been converted: those down the right edge of the tree, as far as no
    /// parentheses enclose them.
    pub open spec fn waiting_operators(self) -> Seq<TokenView>
        decreases self,
    {
        match self {
            Tree::Node(op, _, right) => seq![TokenView::Operator(op)]
                + right.waiting_operators(),
            _ => Seq::empty(),
        }
    }

    /// The tokens that have left the conversion when the infix tokens of the
    /// tree have been converted.
    pub open spec fn settled_tokens(self) -> Seq<TokenView>
        decreases self,
    {
        match self {
            Tree::Node(_, left, right) => left.postfix_tokens() + right.settled_tokens(),
            _ => self.postfix_tokens(),
        }
    }

    /// The words of the prefix rendering.
    pub open spec fn prefix_words(self) -> Seq<Seq<char>>
        decreases self,
    {
        match self {
            Tree::Leaf(text) => seq![text],
            Tree::Node(op, left, right) => seq![seq![op]] + left.prefix_words()
                + right.prefix_words(),
            Tree::Group(inner) => inner.prefix_words(),
        }
    }
}

/// Reading two texts one after the other is reading their concatenation.
pub proof fn lemma_scan_concat(scan: Scan, first: Seq<char>, second: Seq<char>)
    ensures
        scan_run(scan, first + second) == match scan_run(scan, first) {
            Err(e) => Err(e),
            Ok(middle) => scan_run(middle, second),
        },
    decreases second.len(),
{
    if second.len() == 0 {
        assert(first + second =~= first);
    } else {
        assert((first + second).drop_last() =~= first + second.drop_last());
        lemma_scan_concat(scan, first, second.drop_last());
    }
}

proof fn lemma_scan_one(scan: Scan, c: char)
    ensures
        scan_run(scan, seq![c]) == scan_step(scan, c),
{
    assert(seq![c].drop_last() =~= Seq::<char>::empty());
    assert(scan_run(scan, seq![c].drop_last()) == Ok::<Scan, Error>(scan));
}

/// The characters of a plain number gather in the pending buffer.
proof fn lemma_scan_number(scan: Scan, text: Seq<char>, n: int)
    requires
        is_plain_number(text),
        scan.pending.len() == 0,
        scan.sign_position,
        0 <= n <= text.len(),
    ensures
        scan_run(scan, text.take(n)) == Ok::<Scan, Error>(
            Scan {
                tokens: scan.tokens,
                pending: text.take(n),
                sign_position: n == 0 || (n == 1 && text[0] == '-'),
            },
        ),
    decreases n,
{
    if n == 0 {
        assert(text.take(0) =~= scan.pending);
    } else {
        lemma_scan_number(scan, text, n - 1);
        assert(text.take(n).drop_last() =~= text.take(n - 1));
        assert(text.take(n).last() == text[n - 1]);
        assert(text.take(n - 1).push(text[n - 1]) =~= text.take(n));
        if n == 1 && text[0] == '-' {
            assert(text.take(0) =~= Seq::<char>::empty());
            assert(seq!['-'] =~= text.take(1));
        }
    }
}

/// A number needs a character besides its sign.
proof fn lemma_number_is_longer_than_its_sign(text: Seq<char>)
    requires
        is_number(text),
    ensures
        text.len() > 0,
        text[0] == '-' || text[0] == '+' ==> text.len() > 1,
{
}

/// Reading the infix rendering of a tree adds the tokens of the tree. The
/// last number stays pending until the next character, or the end, flushes
/// it.
pub proof fn lemma_scan_tree(scan: Scan, tree: Tree)
    requires
        tree.well_formed(),
        scan.pending.len() == 0,
        scan.sign_position,
    ensures
        scan_run(scan, tree.infix_text()) matches Ok(after) && !after.sign_position && flush(
            after.tokens,
            after.pending,
        ) == Ok::<Seq<TokenView>, Error>(scan.tokens + tree.infix_tokens()),
    decreases tree,
{
    match tree {
        Tree::Leaf(text) => {
            lemma_number_is_longer_than_its_sign(text);
            lemma_scan_number(scan, text, text.len() as int);
            assert(text.take(text.len() as int) =~= text);
            assert(scan.tokens.push(TokenView::Number(text)) =~= scan.tokens
                + tree.infix_tokens());
        },
        Tree::Node(op, left, right) => {
            let l = left.infix_text();
            let r = right.infix_text();
            // left
            lemma_scan_tree(scan, *left);
            let a1 = scan_run(scan, l)->Ok_0;
            // blank, operator, blank
            let t1 = scan.tokens + left.infix_tokens();
            let s2 = Scan { tokens: t1, pending: Seq::empty(), sign_position: false };
            let s3 = Scan {
                tokens: t1.push(TokenView::Operator(op)),
                pending: Seq::empty(),
                sign_position: true,
            };
            lemma_scan_one(a1, ' ');
            assert(scan_run(a1, seq![' ']) == Ok::<Scan, Error>(s2));
            lemma_scan_one(s2, op);
            assert(scan_run(s2, seq![op]) == Ok::<Scan, Error>(s3));
            lemma_scan_one(s3, ' ');
            assert(scan_run(s3, seq![' ']) == Ok::<Scan, Error>(s3));
            lemma_scan_concat(a1, seq![' '], seq![op]);
            lemma_scan_concat(a1, seq![' '] + seq![op], seq![' ']);
            assert(seq![' '] + seq![op] + seq![' '] =~= seq![' ', op, ' ']);
            assert(scan_run(a1, seq![' ', op, ' ']) == Ok::<Scan, Error>(s3));
            lemma_scan_concat(scan, l, seq![' ', op, ' ']);
            // right
            lemma_scan_tree(s3, *right);
            lemma_scan_concat(scan, l + seq![' ', op, ' '], r);
            assert(s3.tokens + right.infix_tokens() =~= scan.tokens + tree.infix_tokens());
        },
        Tree::Group(inner) => {
            let i = inner.infix_text();
            assert(scan.pending =~= Seq::<char>::empty());
            // (
            lemma_scan_one(scan, '(');
            let s1 = Scan {
                tokens: scan.tokens.push(TokenView::LeftParen),
                pending: Seq::empty(),
                sign_position: true,
            };
            assert(scan_run(scan, seq!['(']) == Ok::<Scan, Error>(s1));
            // inner
            lemma_scan_tree(s1, *inner);
            let a1 = scan_run(s1, i)->Ok_0;
            lemma_scan_concat(scan, seq!['('], i);
            // )
            lemma_scan_one(a1, ')');
            lemma_scan_concat(scan, seq!['('] + i, seq![')']);
            let t1 = s1.tokens + inner.infix_tokens();
            assert(t1.push(TokenView::RightParen) =~= scan.tokens + tree.infix_tokens());
        },
    }
}

/// The tokenizer reads the infix rendering of a tree as the tokens of the
/// tree.
pub proof fn lemma_tokens_of_tree(tree: Tree)
    requires
        tree.well_formed(),
    ensures
        tokens_of(tree.infix_text()) == Ok::<Seq<TokenView>, Error>(tree.infix_tokens()),
{
    lemma_scan_tree(scan_start(), tree);
    assert(scan_start().tokens + tree.infix_tokens() =~= tree.infix_tokens());
}

/// Converting two token sequences one after the other is converting their
/// concatenation.
pub proof fn lemma_yard_concat(yard: Yard, first: Seq<TokenView>, second: Seq<TokenView>)
    ensures
        yard_run(yard, first + second) == yard_run(yard_run(yard, first), second),
    decreases second.len(),
{
    if second.len() == 0 {
        assert(first + second =~= first);
    } else {
        assert((first + second).drop_last() =~= first + second.drop_last());
        lemma_yard_concat(yard, first, second.drop_last());
    }
}

proof fn lemma_yard_one(yard: Yard, token: TokenView)
    ensures
        yard_run(yard, seq![token]) == yard_step(yard, token),
{
    assert(seq![token].drop_last() =~= Seq::<TokenView>::empty());
    assert(yard_run(yard, seq![token].drop_last()) == yard);
}

/// Every token of `waiting` is an operator that binds at least as tightly
/// as rank `rank`.
pub open spec fn all_bind(waiting: Seq<TokenView>, rank: nat) -> bool {
    forall|i: int|
        0 <= i < waiting.len() ==> (#[trigger] waiting[i] matches TokenView::Operator(op)
            && precedence_of(op) >= rank)
}

/// No operator on top of `waiting` leaves for an operator of rank `rank`.
pub open spec fn shielded(waiting: Seq<TokenView>, rank: nat) -> bool {
    waiting.len() > 0 ==> !(waiting.last() matches TokenView::Operator(op) && precedence_of(op)
        >= rank)
}

/// The postfix tokens of a tree are those that have left the conversion,
/// followed by the waiting operators, the latest first.
pub proof fn lemma_settled_and_waiting(tree: Tree)
    ensures
        tree.postfix_tokens() == tree.settled_tokens() + tree.waiting_operators().reverse(),
    decreases tree,
{
    match tree {
        Tree::Node(op, left, right) => {
            lemma_settled_and_waiting(*right);
            let sign = seq![TokenView::Operator(op)];
            assert((sign + right.waiting_operators()).reverse()
                =~= right.waiting_operators().reverse() + sign);
            assert(tree.postfix_tokens() =~= tree.settled_tokens()
                + tree.waiting_operators().reverse());
        },
        _ => {
            assert(tree.waiting_operators().reverse() =~= Seq::<TokenView>::empty());
            assert(tree.postfix_tokens() =~= tree.settled_tokens()
                + tree.waiting_operators().reverse());
        },
    }
}

/// The operators that wait behind a tree bind at least as tightly as the
/// operator at its root.
proof fn lemma_waiting_binds(tree: Tree, rank: nat)
    requires
        tree.well_formed(),
        tree matches Tree::Node(op, _, _) ==> precedence_of(op) >= rank,
    ensures
        all_bind(tree.waiting_operators(), rank),
    decreases tree,
{
    match tree {
        Tree::Node(op, _, right) => {
            lemma_waiting_binds(*right, rank);
        },
        _ => {},
    }
}

/// An operator sends to the output every waiting operator that binds at
/// least as tightly, down to the first that does not.
proof fn lemma_yield(output: Seq<TokenView>, below: Seq<TokenView>, top: Seq<TokenView>, op: char)
    requires
        all_bind(top, precedence_of(op)),
        shielded(below, precedence_of(op)),
    ensures
        yield_to(Yard { output, waiting: below + top }, op) == (Yard {
            output: output + top.reverse(),
            waiting: below,
        }),
    decreases top.len(),
{
    if top.len() == 0 {
        assert(below + top =~= below);
        assert(output + top.reverse() =~= output);
    } else {
        let last = top.last();
        assert((below + top).last() == last);
        assert((below + top).drop_last() =~= below + top.drop_last());
        lemma_yield(output.push(last), below, top.drop_last(), op);
        assert(top.reverse() =~= seq![last] + top.drop_last().reverse());
        assert(output.push(last) + top.drop_last().reverse() =~= output + top.reverse());
    }
}

/// A right parenthesis sends to the output every operator that waits above
/// its left parenthesis, and drops that parenthesis.
proof fn lemma_close(output: Seq<TokenView>, below: Seq<TokenView>, top: Seq<TokenView>)
    requires
        all_bind(top, 0),
    ensures
        close_group(Yard { output, waiting: below.push(TokenView::LeftParen) + top }) == (Yard {
            output: output + top.reverse(),
            waiting: below,
        }),
    decreases top.len(),
{
    let opened = below.push(TokenView::LeftParen);
    if top.len() == 0 {
        assert(opened + top =~= opened);
        assert(opened.drop_last() =~= below);
        assert(output + top.reverse() =~= output);
    } else {
        let last = top.last();
        assert((opened + top).last() == last);
        assert((opened + top).drop_last() =~= opened + top.drop_last());
        lemma_close(output.push(last), below, top.drop_last());
        assert(top.reverse() =~= seq![last] + top.drop_last().reverse());
        assert(output.push(last) + top.drop_last().reverse() =~= output + top.reverse());
    }
}

/// The tokens of a tree leave the conversion in postfix order, but for the
/// operators down its right edge, which wait on top of what waited before.
pub proof fn lemma_yard_tree(yard: Yard, tree: Tree)
    requires
        tree.well_formed(),
        tree matches Tree::Node(op, _, _) ==> shielded(yard.waiting, precedence_of(op)),
    ensures
        yard_run(yard, tree.infix_tokens()) == (Yard {
            output: yard.output + tree.settled_tokens(),
            waiting: yard.waiting + tree.waiting_operators(),
        }),
    decreases tree,
{
    match tree {
        Tree::Leaf(text) => {
            lemma_yard_one(yard, TokenView::Number(text));
            assert(yard.output.push(TokenView::Number(text)) =~= yard.output
                + tree.settled_tokens());
            assert(yard.waiting =~= yard.waiting + tree.waiting_operators());
        },
        Tree::Node(op, left, right) => {
            let sign = seq![TokenView::Operator(op)];
            let l = left.infix_tokens();
            let r = right.infix_tokens();
            // left
            lemma_yard_tree(yard, *left);
            let y1 = Yard {
                output: yard.output + left.settled_tokens(),
                waiting: yard.waiting + left.waiting_operators(),
            };
            // operator: what waits behind the left operand leaves
            lemma_yard_one(y1, TokenView::Operator(op));
            lemma_waiting_binds(*left, precedence_of(op));
            lemma_yield(y1.output, yard.waiting, left.waiting_operators(), op);
            lemma_settled_and_waiting(*left);
            let y2 = Yard {
                output: yard.output + left.postfix_tokens(),
                waiting: yard.waiting.push(TokenView::Operator(op)),
            };
            assert(y1.output + left.waiting_operators().reverse() =~= y2.output);
            assert(yard_run(y1, sign) == y2);
            lemma_yard_concat(yard, l, sign);
            // right
            lemma_yard_tree(y2, *right);
            lemma_yard_concat(yard, l + sign, r);
            assert(y2.output + right.settled_tokens() =~= yard.output + tree.settled_tokens());
            assert(y2.waiting + right.waiting_operators() =~= yard.waiting
                + tree.waiting_operators());
        },
        Tree::Group(inner) => {
            let open = seq![TokenView::LeftParen];
            let close = seq![TokenView::RightParen];
            let i = inner.infix_tokens();
            // (
            lemma_yard_one(yard, TokenView::LeftParen);
            let y1 = Yard { output: yard.output, waiting: yard.waiting.push(TokenView::LeftParen) };
            // inner
            lemma_yard_tree(y1, *inner);
            let y2 = Yard {
                output: y1.output + inner.settled_tokens(),
                waiting: y1.waiting + inner.waiting_operators(),
            };
            lemma_yard_concat(yard, open, i);
            // ): what waits behind the inner tree leaves
            lemma_yard_one(y2, TokenView::RightParen);
            lemma_waiting_binds(*inner, 0);
            lemma_close(y2.output, yard.waiting, inner.waiting_operators());
            lemma_settled_and_waiting(*inner);
            lemma_yard_concat(yard, open + i, close);
            assert(y2.output + inner.waiting_operators().reverse() =~= yard.output
                + tree.settled_tokens());
            assert(yard.waiting =~= yard.waiting + tree.waiting_operators());
        },
    }
}

/// The conversion brings the tokens of a tree into postfix order.
pub proof fn lemma_postfix_of_tree(tree: Tree)
    requires
        tree.well_formed(),
    ensures
        to_postfix(tree.infix_tokens()) == tree.postfix_tokens(),
{
    let start = Yard { output: Seq::empty(), waiting: Seq::empty() };
    lemma_yard_tree(start, tree);
    lemma_settled_and_waiting(tree);
    assert(start.output + tree.settled_tokens() =~= tree.settled_tokens());
    assert(start.waiting + tree.waiting_operators() =~= tree.waiting_operators());
}

/// The only error in the value of a well-formed tree is a division by zero.
pub proof fn lemma_tree_error(numerics: Numerics, tree: Tree)
    requires
        tree.well_formed(),
    ensures
        tree.value(numerics) matches Err(e) ==> e == Error::DivisionByZero,
    decreases tree,
{
    match tree {
        Tree::Leaf(_) => {},
        Tree::Node(_, left, right) => {
            lemma_tree_error(numerics, *left);
            lemma_tree_error(numerics, *right);
        },
        Tree::Group(inner) => {
            lemma_tree_error(numerics, *inner);
        },
    }
}

/// Reading the postfix tokens of a tree pushes the value of the tree, or
/// ends with its error.
pub proof fn lemma_postfix_tree(
    numerics: Numerics,
    stack: Seq<u64>,
    tree: Tree,
    rest: Seq<TokenView>,
)
    requires
        tree.well_formed(),
    ensures
        postfix_value_from(numerics, stack, tree.postfix_tokens() + rest) == match tree.value(
            numerics,
        ) {
            Ok(value) => postfix_value_from(numerics, stack.push(value), rest),
            Err(e) => Err(e),
        },
    decreases tree,
{
    match tree {
        Tree::Leaf(text) => {
            let all = tree.postfix_tokens() + rest;
            assert(all[0] == TokenView::Number(text));
            assert(all.drop_first() =~= rest);
        },
        Tree::Node(op, left, right) => {
            let sign = seq![TokenView::Operator(op)];
            let after_left = right.postfix_tokens() + (sign + rest);
            assert(tree.postfix_tokens() + rest =~= left.postfix_tokens() + after_left);
            lemma_postfix_tree(numerics, stack, *left, after_left);
            lemma_tree_error(numerics, *left);
            lemma_tree_error(numerics, *right);
            if let Ok(a) = left.value(numerics) {
                lemma_postfix_tree(numerics, stack.push(a), *right, sign + rest);
                if let Ok(b) = right.value(numerics) {
                    let full = stack.push(a).push(b);
                    assert((sign + rest)[0] == TokenView::Operator(op));
                    assert((sign + rest).drop_first() =~= rest);
                    assert(full.take(full.len() - 2) =~= stack);
                    assert(postfix_value_from(numerics, full, sign + rest) == match postfix_step(
                        numerics,
                        full,
                        TokenView::Operator(op),
                    ) {
                        Err(e) => Err(e),
                        Ok(next) => postfix_value_from(numerics, next, rest),
                    });
                }
            }
        },
        Tree::Group(inner) => {
            lemma_postfix_tree(numerics, stack, *inner, rest);
        },
    }
}

/// Splitting two texts one after the other is splitting their
/// concatenation.
pub proof fn lemma_split_concat(split: Split, first: Seq<char>, second: Seq<char>)
    ensures
        split_run(split, first + second) == split_run(split_run(split, first), second),
    decreases second.len(),
{
    if second.len() == 0 {
        assert(first + second =~= first);
    } else {
        assert((first + second).drop_last() =~= first + second.drop_last());
        lemma_split_concat(split, first, second.drop_last());
    }
}

proof fn lemma_split_one(split: Split, c: char)
    ensures
        split_run(split, seq![c]) == split_step(split, c),
{
    assert(seq![c].drop_last() =~= Seq::<char>::empty());
    assert(split_run(split, seq![c].drop_last()) == split);
}

/// The characters of a plain number gather in the word being read.
proof fn lemma_split_number(split: Split, text: Seq<char>, n: int)
    requires
        is_plain_number(text),
        split.current.len() == 0,
        0 <= n <= text.len(),
    ensures
        split_run(split, text.take(n)) == (Split { words: split.words, current: text.take(n) }),
    decreases n,
{
    if n == 0 {
        assert(text.take(0) =~= split.current);
    } else {
        lemma_split_number(split, text, n - 1);
        assert(text.take(n).drop_last() =~= text.take(n - 1));
        assert(text.take(n).last() == text[n - 1]);
        assert(!is_whitespace(text[n - 1]));
        assert(text.take(n - 1).push(text[n - 1]) =~= text.take(n));
    }
}

/// Splitting the prefix rendering of a tree adds the words of the tree. The
/// last word stays open until whitespace, or the end, closes it.
pub proof fn lemma_split_tree(split: Split, tree: Tree)
    requires
        tree.well_formed(),
        split.current.len() == 0,
    ensures
        split_run(split, tree.prefix_text()).current.len() > 0,
        close_word(split_run(split, tree.prefix_text())) == split.words + tree.prefix_words(),
    decreases tree,
{
    match tree {
        Tree::Leaf(text) => {
            lemma_number_is_longer_than_its_sign(text);
            lemma_split_number(split, text, text.len() as int);
            assert(text.take(text.len() as int) =~= text);
            assert(split.words.push(text) =~= split.words + tree.prefix_words());
        },
        Tree::Node(op, left, right) => {
            let l = left.prefix_text();
            let r = right.prefix_text();
            assert(split.current =~= Seq::<char>::empty());
            // the operator and the blank behind it
            lemma_split_one(split, op);
            let s1 = Split { words: split.words, current: seq![op] };
            assert(split.current.push(op) =~= seq![op]);
            assert(!is_whitespace(op));
            lemma_split_one(s1, ' ');
            let s2 = Split { words: split.words.push(seq![op]), current: Seq::empty() };
            lemma_split_concat(split, seq![op], seq![' ']);
            assert(seq![op] + seq![' '] =~= seq![op, ' ']);
            assert(split_run(split, seq![op, ' ']) == s2);
            // left
            lemma_split_tree(s2, *left);
            let a1 = split_run(s2, l);
            lemma_split_concat(split, seq![op, ' '], l);
            // blank
            lemma_split_one(a1, ' ');
            let s3 = Split { words: s2.words + left.prefix_words(), current: Seq::empty() };
            lemma_split_concat(split, seq![op, ' '] + l, seq![' ']);
            // right
            lemma_split_tree(s3, *right);
            lemma_split_concat(split, seq![op, ' '] + l + seq![' '], r);
            assert(s3.words + right.prefix_words() =~= split.words + tree.prefix_words());
        },
        Tree::Group(inner) => {
            lemma_split_tree(split, *inner);
        },
    }
}

/// The words of the prefix rendering of a tree are the words of the tree.
pub proof fn lemma_words_of_tree(tree: Tree)
    requires
        tree.well_formed(),
    ensures
        words_of(tree.prefix_text()) == tree.prefix_words(),
{
    lemma_split_tree(split_start(), tree);
    assert(split_start().words + tree.prefix_words() =~= tree.prefix_words());
}

/// An operator symbol is no number.
proof fn lemma_operator_is_no_number(op: char)
    requires
        operation_of(op) is Some,
    ensures
        !is_number(seq![op]),
{
    let word = seq![op];
    assert(word[0] == op);
    if op == '*' || op == '/' {
        assert(digits_end(word, 0) == 0);
    }
}

/// Reading the words of a tree from the right pushes the value of the tree,
/// or ends with its error.
pub proof fn lemma_prefix_tree(
    numerics: Numerics,
    stack: Seq<u64>,
    front: Seq<Seq<char>>,
    tree: Tree,
)
    requires
        tree.well_formed(),
    ensures
        prefix_value_from(numerics, stack, front + tree.prefix_words()) == match tree.value(
            numerics,
        ) {
            Ok(value) => prefix_value_from(numerics, stack.push(value), front),
            Err(e) => Err(e),
        },
    decreases tree,
{
    match tree {
        Tree::Leaf(text) => {
            let all = front + tree.prefix_words();
            assert(all.last() == text);
            assert(all.drop_last() =~= front);
        },
        Tree::Node(op, left, right) => {
            let sign = seq![seq![op]];
            let before_right = front + sign + left.prefix_words();
            assert(front + tree.prefix_words() =~= before_right + right.prefix_words());
            lemma_prefix_tree(numerics, stack, before_right, *right);
            lemma_tree_error(numerics, *left);
            lemma_tree_error(numerics, *right);
            if let Ok(b) = right.value(numerics) {
                lemma_prefix_tree(numerics, stack.push(b), front + sign, *left);
                if let Ok(a) = left.value(numerics) {
                    let full = stack.push(b).push(a);
                    lemma_operator_is_no_number(op);
                    assert((front + sign).last() == seq![op]);
                    assert((front + sign).drop_last() =~= front);
                    assert(full.take(full.len() - 2) =~= stack);
                    assert(prefix_value_from(numerics, full, front + sign) == match prefix_step(
                        numerics,
                        full,
                        seq![op],
                    ) {
                        Err(e) => Err(e),
                        Ok(next) => prefix_value_from(numerics, next, front),
                    });
                }
            }
        },
        Tree::Group(inner) => {
            lemma_prefix_tree(numerics, stack, front, *inner);
        },
    }
}

/// Both notations give a rendered tree the value of the tree.
///
/// For every well-formed tree and every way of computing, the evaluation of
/// the infix rendering and the evaluation of the prefix rendering end alike:
/// with the value of the tree, or, where the tree divides by zero, with that
/// error.
pub proof fn lemma_renderings_agree(numerics: Numerics, tree: Tree)
    requires
        tree.well_formed(),
    ensures
        infix_value(numerics, tree.infix_text()) == tree.value(numerics),
        prefix_value(numerics, tree.prefix_text()) == tree.value(numerics),
        infix_value(numerics, tree.infix_text()) == prefix_value(numerics, tree.prefix_text()),
{
    lemma_tokens_of_tree(tree);
    lemma_postfix_of_tree(tree);
    lemma_postfix_tree(numerics, Seq::empty(), tree, Seq::empty());
    assert(tree.postfix_tokens() + Seq::<TokenView>::empty() =~= tree.postfix_tokens());
    lemma_words_of_tree(tree);
    lemma_prefix_tree(numerics, Seq::empty(), Seq::empty(), tree);
    assert(Seq::<Seq<char>>::empty() + tree.prefix_words() =~= tree.prefix_words());
}

} // verus!
