//! The evaluator: from an expression tree and a store of variables to a
//! decimal, and from a text to its value through all the stages.

use crate::context::EvalContext;
use crate::decimal::{
    decimal_difference, decimal_negation, decimal_product, decimal_quotient, decimal_sum,
    within_limits, Decimal, DecimalView,
};
use crate::error::{EvalError, EvalErrorView, LexErrorView, ParseError};
use crate::lexer::{lemma_lex_parenthesized, lex, lex_spec, parenthesized_text};
use crate::parser::{lemma_redundant_parentheses, parse, parse_spec};
use crate::token::TokenView;
use crate::tree::{Expr, ParseTree};
use vstd::prelude::*;
use vstd::utf8::is_ascii_chars;

verus! {

/// The four arithmetic operations of two operands.
#[derive(Debug, Clone, Copy)]
pub enum Operation {
    Add,
    Sub,
    Mul,
    Div,
}

/// What an evaluation gives: the value or the failure, and the store as the
/// evaluation leaves it. A failure keeps what was assigned before it.
pub struct Evaluated {
    pub value: Result<DecimalView, EvalErrorView>,
    pub store: Map<Seq<char>, DecimalView>,
}

/// `v` if it is small enough to be held.
pub open spec fn held(v: DecimalView) -> Result<DecimalView, EvalErrorView> {
    if within_limits(v) {
        Ok(v)
    } else {
        Err(EvalErrorView::OutOfRange)
    }
}

/// The result of one arithmetic operation on two decimals. Division by zero
/// is a failure of its own.
pub open spec fn arithmetic(op: Operation, a: DecimalView, b: DecimalView) -> Result<
    DecimalView,
    EvalErrorView,
> {
    match op {
        Operation::Add => held(decimal_sum(a, b)),
        Operation::Sub => held(decimal_difference(a, b)),
        Operation::Mul => held(decimal_product(a, b)),
        Operation::Div => if b.unscaled == 0 {
            Err(EvalErrorView::DivisionByZero)
        } else {
            held(decimal_quotient(a, b))
        },
    }
}

/// The result of an operation whose left operand evaluated to `left` and
/// whose right operand, evaluated after it, to `right`. Where the left
/// operand failed, the right one was not evaluated.
pub open spec fn combined(op: Operation, left: Evaluated, right: Evaluated) -> Evaluated {
    match left.value {
        Err(_) => left,
        Ok(a) => match right.value {
            Err(_) => right,
            Ok(b) => Evaluated { value: arithmetic(op, a, b), store: right.store },
        },
    }
}

/// The value of the expression `tree` in the store `store`, and the store
/// after it: operands are evaluated from left to right, and an assignment
/// stores the value of its right side under the name on its left.
pub open spec fn eval_spec(tree: Expr, store: Map<Seq<char>, DecimalView>) -> Evaluated
    decreases tree,
{
    match tree {
        Expr::Number(n) => Evaluated { value: Ok(n), store },
        Expr::Variable(name) => if store.contains_key(name) {
            Evaluated { value: Ok(store[name]), store }
        } else {
            Evaluated { value: Err(EvalErrorView::UnassignedVariable(name)), store }
        },
        Expr::Assignment(name, right) => {
            let inner = eval_spec(*right, store);
            match inner.value {
                Ok(v) => Evaluated { value: Ok(v), store: inner.store.insert(name, v) },
                Err(_) => inner,
            }
        },
        Expr::Neg(operand) => {
            let inner = eval_spec(*operand, store);
            match inner.value {
                Ok(v) => Evaluated { value: Ok(decimal_negation(v)), store: inner.store },
                Err(_) => inner,
            }
        },
        Expr::Plus(l, r) => {
            let left = eval_spec(*l, store);
            combined(Operation::Add, left, eval_spec(*r, left.store))
        },
        Expr::Sub(l, r) => {
            let left = eval_spec(*l, store);
            combined(Operation::Sub, left, eval_spec(*r, left.store))
        },
        Expr::Mul(l, r) => {
            let left = eval_spec(*l, store);
            combined(Operation::Mul, left, eval_spec(*r, left.store))
        },
        Expr::Div(l, r) => {
            let left = eval_spec(*l, store);
            combined(Operation::Div, left, eval_spec(*r, left.store))
        },
    }
}

/// The expression that the text `input` is, or the failure of the lexer or
/// of the parser.
pub open spec fn tree_spec(input: Seq<char>) -> Result<Expr, EvalErrorView> {
    match lex_spec(input) {
        Err(e) => Err(EvalErrorView::LexError(e)),
        Ok(tokens) => match parse_spec(tokens) {
            Err(e) => Err(EvalErrorView::ParseError(e)),
            Ok(tree) => Ok(tree),
        },
    }
}

/// The value of the text `input` in the store `store`, and the store after
/// it. A text that is no expression leaves the store as it is.
pub open spec fn evaluate_spec(input: Seq<char>, store: Map<Seq<char>, DecimalView>)
    -> Evaluated {
    match tree_spec(input) {
        Err(e) => Evaluated { value: Err(e), store },
        Ok(tree) => eval_spec(tree, store),
    }
}

/// The content of the result of reading a text as a tree.
pub open spec fn tree_view(r: Result<Box<ParseTree>, EvalError>) -> Result<Expr, EvalErrorView> {
    match r {
        Ok(tree) => Ok(tree@),
        Err(e) => Err(e@),
    }
}

/// Reading a variable that no value was assigned to fails, with the
/// variable's name, and leaves the store as it is.
pub proof fn lemma_unassigned_variable(name: Seq<char>, store: Map<Seq<char>, DecimalView>)
    requires
        !store.contains_key(name),
    ensures
        eval_spec(Expr::Variable(name), store) == (Evaluated {
            value: Err(EvalErrorView::UnassignedVariable(name)),
            store,
        }),
{
}

/// A text that is the name of a variable that no value was assigned to
/// fails with that name, and leaves the store as it is.
pub proof fn lemma_unassigned_name(
    input: Seq<char>,
    name: Seq<char>,
    store: Map<Seq<char>, DecimalView>,
)
    requires
        lex_spec(input) == Ok::<Seq<TokenView>, LexErrorView>(seq![TokenView::Variable(name)]),
        !store.contains_key(name),
    ensures
        evaluate_spec(input, store) == (Evaluated {
            value: Err(EvalErrorView::UnassignedVariable(name)),
            store,
        }),
{
    let tokens = seq![TokenView::Variable(name)];
    assert(tokens.drop_first().len() == 0);
}

/// What an assignment stores is read back by the next evaluation of the
/// variable in the store that the assignment left.
pub proof fn lemma_assignment_persists(
    name: Seq<char>,
    right: Expr,
    store: Map<Seq<char>, DecimalView>,
)
    requires
        eval_spec(right, store).value is Ok,
    ensures
        ({
            let assigned = eval_spec(Expr::Assignment(name, Box::new(right)), store);
            eval_spec(Expr::Variable(name), assigned.store).value == assigned.value
        }),
{
}

/// A text with a character outside ASCII fails as such, whatever else it
/// holds, and leaves the store as it is.
pub proof fn lemma_non_ascii_fails(input: Seq<char>, store: Map<Seq<char>, DecimalView>)
    requires
        !is_ascii_chars(input),
    ensures
        lex_spec(input) == Err::<Seq<TokenView>, LexErrorView>(LexErrorView::NonAsciiInput),
        evaluate_spec(input, store) == (Evaluated {
            value: Err(EvalErrorView::LexError(LexErrorView::NonAsciiInput)),
            store,
        }),
{
}

/// The empty text fails in the parser, as an empty input.
pub proof fn lemma_empty_text_fails(store: Map<Seq<char>, DecimalView>)
    ensures
        evaluate_spec(Seq::empty(), store) == (Evaluated {
            value: Err(EvalErrorView::ParseError(ParseError::EmptyInput)),
            store,
        }),
{
    assert(is_ascii_chars(Seq::<char>::empty()));
}

/// Parentheses around a whole expression change nothing: a text that is an
/// expression evaluates, between an opening and a closing parenthesis, to
/// the same value and leaves the same store.
pub proof fn lemma_redundant_parentheses_text(
    input: Seq<char>,
    store: Map<Seq<char>, DecimalView>,
)
    requires
        tree_spec(input) is Ok,
    ensures
        tree_spec(parenthesized_text(input)) == tree_spec(input),
        evaluate_spec(parenthesized_text(input), store) == evaluate_spec(input, store),
{
    lemma_lex_parenthesized(input);
    lemma_redundant_parentheses(lex_spec(input)->Ok_0);
}

/// The content of an evaluation's result.
pub open spec fn evaluated_view(r: Result<Decimal, EvalError>) -> Result<
    DecimalView,
    EvalErrorView,
> {
    match r {
        Ok(v) => Ok(v@),
        Err(e) => Err(e@),
    }
}

/// Applies one arithmetic operation to two decimals.
pub fn compute(op: Operation, a: &Decimal, b: &Decimal) -> (r: Result<Decimal, EvalError>)
    ensures
        evaluated_view(r) == arithmetic(op, a@, b@),
{
    let result = match op {
        Operation::Add => a.checked_add(b),
        Operation::Sub => a.checked_sub(b),
        Operation::Mul => a.checked_mul(b),
        Operation::Div => {
            if b.is_zero() {
                return Err(EvalError::DivisionByZero);
            }
            a.checked_div(b)
        },
    };
    match result {
        Some(v) => Ok(v),
        None => Err(EvalError::OutOfRange),
    }
}

/// Evaluates an expression tree in a store of variables.
pub fn eval_tree(parse_tree: &ParseTree, context: &mut EvalContext) -> (r: Result<
    Decimal,
    EvalError,
>)
    ensures
        evaluated_view(r) == eval_spec(parse_tree@, old(context)@).value,
        final(context)@ == eval_spec(parse_tree@, old(context)@).store,
    decreases parse_tree,
{
    let (op, left, right) = match parse_tree {
        ParseTree::Number(num) => {
            return Ok(num.clone());
        },
        ParseTree::Variable(name) => {
            return match context.get(name) {
                Some(value) => Ok(value.clone()),
                None => Err(EvalError::UnassignedVariable(name.clone())),
            };
        },
        ParseTree::Assignment(name, tree) => {
            return match eval_tree(tree, context) {
                Ok(result) => {
                    context.insert(name.clone(), result.clone());
                    Ok(result)
                },
                Err(e) => Err(e),
            };
        },
        ParseTree::Neg(tree) => {
            return match eval_tree(tree, context) {
                Ok(result) => Ok(result.negated()),
                Err(e) => Err(e),
            };
        },
        ParseTree::Plus(left, right) => (Operation::Add, left, right),
        ParseTree::Sub(left, right) => (Operation::Sub, left, right),
        ParseTree::Mul(left, right) => (Operation::Mul, left, right),
        ParseTree::Div(left, right) => (Operation::Div, left, right),
    };
    let a = match eval_tree(left, context) {
        Ok(v) => v,
        Err(e) => {
            return Err(e);
        },
    };
    let b = match eval_tree(right, context) {
        Ok(v) => v,
        Err(e) => {
            return Err(e);
        },
    };
    compute(op, &a, &b)
}

/// Reads a text as an expression tree: splits it into tokens and parses
/// them.
pub fn parse_text(input: &str) -> (r: Result<Box<ParseTree>, EvalError>)
    ensures
        tree_view(r) == tree_spec(input@),
{
    let tokens = match lex(input) {
        Ok(tokens) => tokens,
        Err(e) => {
            return Err(EvalError::LexError(e));
        },
    };
    match parse(tokens) {
        Ok(tree) => Ok(tree),
        Err(e) => Err(EvalError::ParseError(e)),
    }
}

/// Evaluates a text: splits it into tokens, parses them and evaluates the
/// tree in the store, which keeps what the text assigns.
pub fn eval(input: &str, context: &mut EvalContext) -> (r: Result<Decimal, EvalError>)
    ensures
        evaluated_view(r) == evaluate_spec(input@, old(context)@).value,
        final(context)@ == evaluate_spec(input@, old(context)@).store,
{
    match parse_text(input) {
        Ok(parse_tree) => eval_tree(&parse_tree, context),
        Err(e) => Err(e),
    }
}

} // verus!
