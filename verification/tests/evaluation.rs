use my_calculator::{
    compute, eval, eval_tree, parse_text, Decimal, EvalContext, EvalError, LexError, Operation,
    ParseError, ParseTree,
};

fn value(input: &str, context: &mut EvalContext) -> (String, i64) {
    let result = eval(input, context).unwrap();
    (result.unscaled_text().to_string(), result.scale())
}

fn fresh(input: &str) -> (String, i64) {
    value(input, &mut EvalContext::default())
}

fn number(text: &str) -> Box<ParseTree> {
    Box::new(ParseTree::Number(Decimal::from_literal(text).unwrap()))
}

fn variable(name: &str) -> Box<ParseTree> {
    Box::new(ParseTree::Variable(name.to_string()))
}

#[test]
fn decimal_fractions_add_exactly() {
    assert_eq!(fresh("0.1 + 0.2"), ("3".to_string(), 1));
}

#[test]
fn arithmetic_keeps_every_digit() {
    assert_eq!(
        fresh("123456789012345678901234567890 * 1000000000000000000000000000001"),
        (
            "123456789012345678901234567890123456789012345678901234567890".to_string(),
            0
        )
    );
    assert_eq!(fresh("0.5 * 0.5"), ("25".to_string(), 2));
    assert_eq!(fresh("1 - 0.001"), ("999".to_string(), 3));
}

#[test]
fn precedence_and_grouping_decide_the_value() {
    assert_eq!(fresh("5 + 10 * 2"), ("25".to_string(), 0));
    assert_eq!(fresh("2 * (10 + 11)"), ("42".to_string(), 0));
    assert_eq!(fresh("5 - 5 + 5"), ("5".to_string(), 0));
    assert_eq!(fresh("-2 * (10 + 11)"), ("-42".to_string(), 0));
    assert_eq!(fresh("100 / 10 / 5"), ("2".to_string(), 0));
}

#[test]
fn parentheses_around_the_whole_keep_the_value() {
    assert_eq!(fresh("(5 + 10 * 2)"), fresh("5 + 10 * 2"));
    assert_eq!(fresh("((1 / 3))"), fresh("1 / 3"));
    let mut with = EvalContext::default();
    let mut without = EvalContext::default();
    assert_eq!(value("(a = 4 * 0.5)", &mut with), value("a = 4 * 0.5", &mut without));
    assert_eq!(value("a", &mut with), value("a", &mut without));
}

#[test]
fn text_may_end_with_a_line_feed() {
    assert_eq!(fresh("1 + 1\n"), ("2".to_string(), 0));
    assert_eq!(fresh("  7 \r\n"), ("7".to_string(), 0));
}

#[test]
fn assignment_gives_the_value_and_keeps_it() {
    let mut context = EvalContext::default();
    assert_eq!(value("devil = 666", &mut context), ("666".to_string(), 0));
    assert_eq!(value("devil - 666", &mut context), ("0".to_string(), 0));
    assert_eq!(value("devil", &mut context), ("666".to_string(), 0));
}

#[test]
fn assignment_replaces_the_value() {
    let mut context = EvalContext::default();
    value("a = 1", &mut context);
    value("b = 2", &mut context);
    assert_eq!(value("a = a + b", &mut context), ("3".to_string(), 0));
    assert_eq!(value("a", &mut context), ("3".to_string(), 0));
    assert_eq!(value("b", &mut context), ("2".to_string(), 0));
}

#[test]
fn stores_are_independent() {
    let mut first = EvalContext::default();
    let mut second = EvalContext::new();
    value("a = 1", &mut first);
    assert!(matches!(
        eval("a", &mut second),
        Err(EvalError::UnassignedVariable(name)) if name == "a"
    ));
}

#[test]
fn unassigned_variable_fails_with_its_name() {
    assert!(matches!(
        eval("x", &mut EvalContext::default()),
        Err(EvalError::UnassignedVariable(name)) if name == "x"
    ));
    assert!(matches!(
        eval("1 + some-name * 2", &mut EvalContext::default()),
        Err(EvalError::UnassignedVariable(name)) if name == "some-name"
    ));
}

#[test]
fn failed_right_side_assigns_nothing() {
    let mut context = EvalContext::default();
    assert!(matches!(
        eval("a = b", &mut context),
        Err(EvalError::UnassignedVariable(name)) if name == "b"
    ));
    assert!(matches!(
        eval("a", &mut context),
        Err(EvalError::UnassignedVariable(name)) if name == "a"
    ));
}

#[test]
fn division_by_zero_fails() {
    assert!(matches!(
        eval("1 / 0", &mut EvalContext::default()),
        Err(EvalError::DivisionByZero)
    ));
    assert!(matches!(
        eval("1 / 0.00", &mut EvalContext::default()),
        Err(EvalError::DivisionByZero)
    ));
    assert!(matches!(
        eval("0 / (2 - 2)", &mut EvalContext::default()),
        Err(EvalError::DivisionByZero)
    ));
}

#[test]
fn zero_divided_is_zero() {
    assert_eq!(fresh("0 / 5"), ("0".to_string(), 0));
}

#[test]
fn result_beyond_the_limits_fails() {
    let mut context = EvalContext::default();
    value("x = .1", &mut context);
    for _ in 0..30 {
        eval("x = x * x", &mut context).unwrap();
    }
    assert_eq!(value("x", &mut context), ("1".to_string(), 1_073_741_824));
    assert!(matches!(
        eval("x = x * x", &mut context),
        Err(EvalError::OutOfRange)
    ));
    assert_eq!(value("x", &mut context), ("1".to_string(), 1_073_741_824));
}

#[test]
fn lexer_failure_is_passed_on() {
    assert!(matches!(
        eval("1 + é", &mut EvalContext::default()),
        Err(EvalError::LexError(LexError::NonAsciiInput))
    ));
    assert!(matches!(
        eval("1 + $", &mut EvalContext::default()),
        Err(EvalError::LexError(LexError::IllegalToken(t))) if t == "$"
    ));
    assert!(matches!(
        eval("1.2.3", &mut EvalContext::default()),
        Err(EvalError::LexError(LexError::IllegalNumber(t))) if t == "1.2.3"
    ));
}

#[test]
fn parser_failure_is_passed_on() {
    assert!(matches!(
        eval("", &mut EvalContext::default()),
        Err(EvalError::ParseError(ParseError::EmptyInput))
    ));
    assert!(matches!(
        eval("(1 + 2", &mut EvalContext::default()),
        Err(EvalError::ParseError(ParseError::UnmatchedParens))
    ));
    assert!(matches!(
        eval("1 = 2", &mut EvalContext::default()),
        Err(EvalError::ParseError(ParseError::ExpectedVariable))
    ));
    assert!(matches!(
        eval("1 2", &mut EvalContext::default()),
        Err(EvalError::ParseError(ParseError::UnmatchedToken))
    ));
}

#[test]
fn failure_before_evaluation_leaves_the_store() {
    let mut context = EvalContext::default();
    value("a = 1", &mut context);
    assert!(eval("a = 2 +", &mut context).is_err());
    assert!(eval("a = 2 $", &mut context).is_err());
    assert_eq!(value("a", &mut context), ("1".to_string(), 0));
}

#[test]
fn operands_are_evaluated_from_left_to_right() {
    let assign = Box::new(ParseTree::Assignment("a".to_string(), number("2")));
    let tree = ParseTree::Mul(assign, variable("a"));
    let mut context = EvalContext::default();
    let result = eval_tree(&tree, &mut context).unwrap();
    assert_eq!((result.unscaled_text(), result.scale()), ("4", 0));
}

#[test]
fn failure_on_the_right_keeps_what_the_left_assigned() {
    let assign = Box::new(ParseTree::Assignment("a".to_string(), number("2")));
    let tree = ParseTree::Plus(assign, variable("b"));
    let mut context = EvalContext::default();
    assert!(matches!(
        eval_tree(&tree, &mut context),
        Err(EvalError::UnassignedVariable(name)) if name == "b"
    ));
    assert_eq!(value("a", &mut context), ("2".to_string(), 0));
}

#[test]
fn failure_on_the_left_skips_the_right() {
    let assign = Box::new(ParseTree::Assignment("a".to_string(), number("2")));
    let tree = ParseTree::Div(variable("b"), assign);
    let mut context = EvalContext::default();
    assert!(matches!(
        eval_tree(&tree, &mut context),
        Err(EvalError::UnassignedVariable(name)) if name == "b"
    ));
    assert!(context.get(&"a".to_string()).is_none());
}

#[test]
fn store_gives_back_what_was_put_in() {
    let mut context = EvalContext::new();
    assert!(context.get(&"a".to_string()).is_none());
    context.insert("a".to_string(), Decimal::from_literal("1.5").unwrap());
    context.insert("b".to_string(), Decimal::from_literal("2").unwrap());
    context.insert("a".to_string(), Decimal::from_literal("3").unwrap());
    let a = context.get(&"a".to_string()).unwrap();
    assert_eq!((a.unscaled_text(), a.scale()), ("3", 0));
    let b = context.get(&"b".to_string()).unwrap();
    assert_eq!((b.unscaled_text(), b.scale()), ("2", 0));
    assert!(context.get(&"c".to_string()).is_none());
}

#[test]
fn compute_applies_one_operation() {
    let a = Decimal::from_literal("7.5").unwrap();
    let b = Decimal::from_literal("2.5").unwrap();
    let shown = |op: Operation| {
        let r = compute(op, &a, &b).unwrap();
        (r.unscaled_text().to_string(), r.scale())
    };
    assert_eq!(shown(Operation::Add), ("100".to_string(), 1));
    assert_eq!(shown(Operation::Sub), ("50".to_string(), 1));
    assert_eq!(shown(Operation::Mul), ("1875".to_string(), 2));
    assert_eq!(shown(Operation::Div), ("3".to_string(), 0));
}

#[test]
fn compute_refuses_a_zero_divisor() {
    let a = Decimal::from_literal("7.5").unwrap();
    let zero = Decimal::from_literal("0.0").unwrap();
    assert!(matches!(
        compute(Operation::Div, &a, &zero),
        Err(EvalError::DivisionByZero)
    ));
    assert!(compute(Operation::Mul, &a, &zero).is_ok());
}

#[test]
fn parse_text_gives_the_tree_or_the_failure() {
    assert!(matches!(
        parse_text("a = 1").as_deref(),
        Ok(ParseTree::Assignment(name, _)) if name == "a"
    ));
    assert!(matches!(
        parse_text("1 +"),
        Err(EvalError::ParseError(ParseError::EmptyInput))
    ));
    assert!(matches!(
        parse_text("#"),
        Err(EvalError::LexError(LexError::IllegalToken(t))) if t == "#"
    ));
}
