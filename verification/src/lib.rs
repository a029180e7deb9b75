//! An arithmetic expression evaluator over arbitrary-precision decimals.
//!
//! Text is split into tokens ([`lexer`]), the tokens are parsed into an
//! expression tree by precedence climbing ([`parser`]), and the tree is
//! evaluated ([`eval`](mod@eval)) against a store of named values
//! ([`context`]) that persists from one evaluation to the next. The decimal
//! arithmetic itself is that of the `bigdecimal` crate ([`decimal`]).
//!
//! Every function states what it returns over a mathematical model of its
//! arguments, and is proved to meet that statement; only the calls into
//! `bigdecimal` are taken on trust, each with its statement in [`decimal`].
//! [`grammar`] proves what the parser's trees have to do with the tokens
//! they were read from.

pub mod context;
pub mod decimal;
pub mod error;
pub mod eval;
pub mod grammar;
pub mod lexer;
pub mod parser;
pub mod token;
pub mod tree;

pub use crate::context::EvalContext;
pub use crate::decimal::Decimal;
pub use crate::error::{EvalError, LexError, ParseError};
pub use crate::eval::{compute, eval, eval_tree, parse_text, Operation};
pub use crate::lexer::{lex, parse_number, parse_variable};
pub use crate::parser::{parse, parse_expr, parse_expr_rec, parse_primary};
pub use crate::token::Token;
pub use crate::tree::ParseTree;
