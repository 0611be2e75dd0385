use crate::literal::Literal;
use vstd::prelude::*;

verus! {

/// One lexical unit of an expression.
#[derive(Debug)]
pub enum Token {
    /// A number, held as the text of its literal.
    Number(Literal),
    /// An operator symbol.
    Operator(char),
    LeftParen,
    RightParen,
}

/// The mathematical value of a [`Token`].
pub enum TokenView {
    Number(Seq<char>),
    Operator(char),
    LeftParen,
    RightParen,
}

impl View for Token {
    type V = TokenView;

    open spec fn view(&self) -> TokenView {
        match self {
            Token::Number(literal) => TokenView::Number(literal@),
            Token::Operator(symbol) => TokenView::Operator(*symbol),
            Token::LeftParen => TokenView::LeftParen,
            Token::RightParen => TokenView::RightParen,
        }
    }
}

/// The values of a sequence of tokens, in order.
pub open spec fn views(tokens: Seq<Token>) -> Seq<TokenView> {
    tokens.map_values(|token: Token| token@)
}

} // verus!
