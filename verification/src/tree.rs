//! Expression trees.

use crate::decimal::{Decimal, DecimalView};
use crate::error::ParseError;
use crate::token::{Token, TokenView};
use vstd::prelude::*;

verus! {

/// An expression, each node owning its operands.
#[derive(Debug)]
pub enum ParseTree {
    Number(Decimal),
    Variable(String),
    Neg(Box<ParseTree>),
    Assignment(String, Box<ParseTree>),
    Plus(Box<ParseTree>, Box<ParseTree>),
    Sub(Box<ParseTree>, Box<ParseTree>),
    Mul(Box<ParseTree>, Box<ParseTree>),
    Div(Box<ParseTree>, Box<ParseTree>),
}

/// The content of a [`ParseTree`].
pub enum Expr {
    Number(DecimalView),
    Variable(Seq<char>),
    Neg(Box<Expr>),
    Assignment(Seq<char>, Box<Expr>),
    Plus(Box<Expr>, Box<Expr>),
    Sub(Box<Expr>, Box<Expr>),
    Mul(Box<Expr>, Box<Expr>),
    Div(Box<Expr>, Box<Expr>),
}

impl ParseTree {
    /// The content of the tree, node by node.
    pub open spec fn expr(self) -> Expr
        decreases self,
    {
        match self {
            ParseTree::Number(n) => Expr::Number(n@),
            ParseTree::Variable(name) => Expr::Variable(name@),
            ParseTree::Neg(t) => Expr::Neg(Box::new(t.expr())),
            ParseTree::Assignment(name, t) => Expr::Assignment(name@, Box::new(t.expr())),
            ParseTree::Plus(l, r) => Expr::Plus(Box::new(l.expr()), Box::new(r.expr())),
            ParseTree::Sub(l, r) => Expr::Sub(Box::new(l.expr()), Box::new(r.expr())),
            ParseTree::Mul(l, r) => Expr::Mul(Box::new(l.expr()), Box::new(r.expr())),
            ParseTree::Div(l, r) => Expr::Div(Box::new(l.expr()), Box::new(r.expr())),
        }
    }
}

impl View for ParseTree {
    type V = Expr;

    open spec fn view(&self) -> Expr {
        self.expr()
    }
}

impl Expr {
    /// The expression that the binary operator `op` makes of `self` on its
    /// left and `other` on its right. An assignment needs a bare variable on
    /// its left.
    pub open spec fn apply(self, op: TokenView, other: Expr) -> Result<Expr, ParseError> {
        match op {
            TokenView::Plus => Ok(Expr::Plus(Box::new(self), Box::new(other))),
            TokenView::Minus => Ok(Expr::Sub(Box::new(self), Box::new(other))),
            TokenView::Mul => Ok(Expr::Mul(Box::new(self), Box::new(other))),
            TokenView::Div => Ok(Expr::Div(Box::new(self), Box::new(other))),
            TokenView::Assignment => match self {
                Expr::Variable(name) => Ok(Expr::Assignment(name, Box::new(other))),
                _ => Err(ParseError::ExpectedVariable),
            },
            _ => Err(ParseError::ExpectedBinaryOperator),
        }
    }
}

/// Only a bare variable can be assigned to: with anything else on its left
/// side an assignment is no expression.
pub proof fn lemma_assignment_needs_variable(target: Expr, value: Expr)
    requires
        !(target is Variable),
    ensures
        target.apply(TokenView::Assignment, value) == Err::<Expr, ParseError>(
            ParseError::ExpectedVariable,
        ),
{
}

/// The content of a parse result.
pub open spec fn parsed_view(r: Result<Box<ParseTree>, ParseError>) -> Result<Expr, ParseError> {
    match r {
        Ok(t) => Ok(t@),
        Err(e) => Err(e),
    }
}

impl ParseTree {
    /// Joins two trees by a binary operator.
    pub fn apply(self: Box<Self>, op: Token, other: Box<Self>) -> (r: Result<
        Box<ParseTree>,
        ParseError,
    >)
        ensures
            parsed_view(r) == self@.apply(op@, other@),
    {
        let applied = match op {
            Token::Plus => ParseTree::Plus(self, other),
            Token::Minus => ParseTree::Sub(self, other),
            Token::Mul => ParseTree::Mul(self, other),
            Token::Div => ParseTree::Div(self, other),
            Token::Assignment => {
                if let ParseTree::Variable(name) = *self {
                    ParseTree::Assignment(name, other)
                } else {
                    return Err(ParseError::ExpectedVariable);
                }
            },
            _ => return Err(ParseError::ExpectedBinaryOperator),
        };
        Ok(Box::new(applied))
    }
}

} // verus!
