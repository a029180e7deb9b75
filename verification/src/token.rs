//! Tokens: the atoms that a text is split into.

use crate::decimal::{Decimal, DecimalView};
use vstd::prelude::*;

verus! {

/// One lexical unit of an expression.
#[derive(Debug)]
pub enum Token {
    Number(Decimal),
    Variable(String),
    ParenStart,
    ParenClose,
    Assignment,
    Plus,
    Minus,
    Mul,
    Div,
}

/// The content of a [`Token`].
pub enum TokenView {
    Number(DecimalView),
    Variable(Seq<char>),
    ParenStart,
    ParenClose,
    Assignment,
    Plus,
    Minus,
    Mul,
    Div,
}

impl View for Token {
    type V = TokenView;

    open spec fn view(&self) -> TokenView {
        match self {
            Token::Number(n) => TokenView::Number(n@),
            Token::Variable(name) => TokenView::Variable(name@),
            Token::ParenStart => TokenView::ParenStart,
            Token::ParenClose => TokenView::ParenClose,
            Token::Assignment => TokenView::Assignment,
            Token::Plus => TokenView::Plus,
            Token::Minus => TokenView::Minus,
            Token::Mul => TokenView::Mul,
            Token::Div => TokenView::Div,
        }
    }
}

impl TokenView {
    /// How tightly a binary operator binds; `None` for a token that is no
    /// binary operator. Assignment binds loosest, then addition and
    /// subtraction, then multiplication and division.
    pub open spec fn precedence(self) -> Option<usize> {
        match self {
            TokenView::Assignment => Some(0),
            TokenView::Plus | TokenView::Minus => Some(1),
            TokenView::Mul | TokenView::Div => Some(2),
            _ => None,
        }
    }
}

impl Token {
    /// How tightly the token binds as a binary operator, if it is one.
    pub fn op_precedence(&self) -> (r: Option<usize>)
        ensures
            r == self@.precedence(),
    {
        match self {
            Token::Assignment => Some(0),
            Token::Plus | Token::Minus => Some(1),
            Token::Mul | Token::Div => Some(2),
            _ => None,
        }
    }
}

/// The contents of a sequence of tokens, in order.
pub open spec fn token_views(tokens: Seq<Token>) -> Seq<TokenView> {
    tokens.map_values(|t: Token| t@)
}

} // verus!
