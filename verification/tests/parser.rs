use my_calculator::{
    lex, parse, parse_expr, parse_expr_rec, parse_primary, Decimal, ParseError, ParseTree, Token,
};
use std::collections::VecDeque;

fn show(tree: &ParseTree) -> String {
    match tree {
        ParseTree::Number(n) => format!("{}e-{}", n.unscaled_text(), n.scale()),
        ParseTree::Variable(name) => name.clone(),
        ParseTree::Neg(t) => format!("(-{})", show(t)),
        ParseTree::Assignment(name, t) => format!("({} = {})", name, show(t)),
        ParseTree::Plus(l, r) => format!("({} + {})", show(l), show(r)),
        ParseTree::Sub(l, r) => format!("({} - {})", show(l), show(r)),
        ParseTree::Mul(l, r) => format!("({} * {})", show(l), show(r)),
        ParseTree::Div(l, r) => format!("({} / {})", show(l), show(r)),
    }
}

fn parsed(input: &str) -> String {
    show(&parse(lex(input).unwrap()).unwrap())
}

fn failure(input: &str) -> ParseError {
    parse(lex(input).unwrap()).unwrap_err()
}

fn stream(input: &str) -> VecDeque<Token> {
    lex(input).unwrap().into_iter().collect()
}

fn number(text: &str) -> Box<ParseTree> {
    Box::new(ParseTree::Number(Decimal::from_literal(text).unwrap()))
}

#[test]
fn multiplication_binds_tighter_than_addition() {
    assert_eq!(parsed("5 + 10 * 2"), "(5e-0 + (10e-0 * 2e-0))");
    assert_eq!(parsed("5 * 10 + 2"), "((5e-0 * 10e-0) + 2e-0)");
    assert_eq!(parsed("1 + 2 * 3 - 4 / 5"), "((1e-0 + (2e-0 * 3e-0)) - (4e-0 / 5e-0))");
}

#[test]
fn equal_operators_group_to_the_left() {
    assert_eq!(parsed("5 - 5 + 5"), "((5e-0 - 5e-0) + 5e-0)");
    assert_eq!(parsed("8 / 4 / 2"), "((8e-0 / 4e-0) / 2e-0)");
    assert_eq!(parsed("8 / 4 * 2"), "((8e-0 / 4e-0) * 2e-0)");
}

#[test]
fn negation_binds_tighter_than_any_operator() {
    assert_eq!(parsed("-2 * 3"), "((-2e-0) * 3e-0)");
    assert_eq!(parsed("2 - -3"), "(2e-0 - (-3e-0))");
    assert_eq!(parsed("--a"), "(-(-a))");
}

#[test]
fn assignment_binds_loosest() {
    assert_eq!(parsed("a = 1 + 2 * 3"), "(a = (1e-0 + (2e-0 * 3e-0)))");
}

#[test]
fn parentheses_at_the_end_group() {
    assert_eq!(parsed("2 * (10 + 11)"), "(2e-0 * (10e-0 + 11e-0))");
    assert_eq!(parsed("2 * (3 + (4 - 5))"), "(2e-0 * (3e-0 + (4e-0 - 5e-0)))");
    assert_eq!(parsed("((1))"), "1e-0");
}

#[test]
fn parentheses_around_the_whole_change_nothing() {
    assert_eq!(parsed("(5 + 10 * 2)"), parsed("5 + 10 * 2"));
    assert_eq!(parsed("(a = -b / 2)"), parsed("a = -b / 2"));
    assert_eq!(parsed("((2 * (10 + 11)))"), parsed("2 * (10 + 11)"));
}

#[test]
fn opening_parenthesis_is_matched_by_the_last_token() {
    assert_eq!(failure("(1 + 2) * 3"), ParseError::UnmatchedParens);
}

#[test]
fn unmatched_parenthesis_fails() {
    assert_eq!(failure("(1 + 2"), ParseError::UnmatchedParens);
    assert_eq!(failure("("), ParseError::UnmatchedParens);
    assert_eq!(failure("2 * (3"), ParseError::UnmatchedParens);
}

#[test]
fn tokens_left_over_fail() {
    assert_eq!(failure("1 2"), ParseError::UnmatchedToken);
    assert_eq!(failure("1 + 2)"), ParseError::UnmatchedToken);
    assert_eq!(failure("(1 2)"), ParseError::UnmatchedToken);
    assert_eq!(failure("a b = 1"), ParseError::UnmatchedToken);
}

#[test]
fn operator_in_place_of_an_operand_fails() {
    assert_eq!(failure("* 2"), ParseError::UnmatchedToken);
    assert_eq!(failure(")"), ParseError::UnmatchedToken);
    assert_eq!(failure("1 + * 2"), ParseError::UnmatchedToken);
    assert_eq!(failure("= 1"), ParseError::UnmatchedToken);
}

#[test]
fn missing_operand_fails_as_empty_input() {
    assert_eq!(failure(""), ParseError::EmptyInput);
    assert_eq!(failure("   "), ParseError::EmptyInput);
    assert_eq!(failure("1 +"), ParseError::EmptyInput);
    assert_eq!(failure("-"), ParseError::EmptyInput);
    assert_eq!(failure("()"), ParseError::EmptyInput);
}

#[test]
fn assignment_needs_a_variable_on_its_left() {
    assert_eq!(failure("1 = 2"), ParseError::ExpectedVariable);
    assert_eq!(failure("-a = 2"), ParseError::ExpectedVariable);
    assert_eq!(failure("a = b = 3"), ParseError::ExpectedVariable);
    assert_eq!(failure("a + b = 3"), ParseError::ExpectedVariable);
}

#[test]
fn failure_of_the_right_side_comes_before_that_of_the_assignment() {
    assert_eq!(failure("1 = (2 3)"), ParseError::ExpectedVariable);
    assert_eq!(failure("1 = )"), ParseError::UnmatchedToken);
    assert_eq!(failure("1 = (2"), ParseError::UnmatchedParens);
}

#[test]
fn apply_joins_two_trees() {
    let tree = number("1").apply(Token::Minus, number("2")).unwrap();
    assert_eq!(show(&tree), "(1e-0 - 2e-0)");
    let target = Box::new(ParseTree::Variable("a".to_string()));
    let tree = target.apply(Token::Assignment, number("2")).unwrap();
    assert_eq!(show(&tree), "(a = 2e-0)");
}

#[test]
fn apply_refuses_what_is_no_operator() {
    assert_eq!(
        number("1").apply(Token::ParenStart, number("2")).unwrap_err(),
        ParseError::ExpectedBinaryOperator
    );
    assert_eq!(
        number("1")
            .apply(Token::Variable("a".to_string()), number("2"))
            .unwrap_err(),
        ParseError::ExpectedBinaryOperator
    );
    assert_eq!(
        number("1").apply(Token::Assignment, number("2")).unwrap_err(),
        ParseError::ExpectedVariable
    );
}

#[test]
fn precedence_of_each_token() {
    assert_eq!(Token::Assignment.op_precedence(), Some(0));
    assert_eq!(Token::Plus.op_precedence(), Some(1));
    assert_eq!(Token::Minus.op_precedence(), Some(1));
    assert_eq!(Token::Mul.op_precedence(), Some(2));
    assert_eq!(Token::Div.op_precedence(), Some(2));
    assert_eq!(Token::ParenStart.op_precedence(), None);
    assert_eq!(Token::ParenClose.op_precedence(), None);
    assert_eq!(Token::Variable("a".to_string()).op_precedence(), None);
}

#[test]
fn parse_primary_takes_one_operand() {
    let mut input = stream("- 3 + 4");
    assert_eq!(show(&parse_primary(&mut input).unwrap()), "(-3e-0)");
    assert_eq!(input.len(), 2);
}

#[test]
fn parse_expr_leaves_what_follows_the_expression() {
    let mut input = stream("1 + 2 3 4");
    assert_eq!(show(&parse_expr(&mut input).unwrap()), "(1e-0 + 2e-0)");
    assert_eq!(input.len(), 2);
}

#[test]
fn parse_expr_rec_stops_at_a_looser_operator() {
    let mut input = stream("* 2 + 3");
    let tree = parse_expr_rec(number("1"), &mut input, 2).unwrap();
    assert_eq!(show(&tree), "(1e-0 * 2e-0)");
    assert_eq!(input.len(), 2);
    let mut input = stream("+ 2 * 3");
    let tree = parse_expr_rec(number("1"), &mut input, 2).unwrap();
    assert_eq!(show(&tree), "1e-0");
    assert_eq!(input.len(), 4);
}
