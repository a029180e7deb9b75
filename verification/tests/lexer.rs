use my_calculator::{lex, parse_number, parse_variable, LexError, Token};

fn kinds(input: &str) -> String {
    let mut shown = String::new();
    for token in lex(input).unwrap() {
        let piece = match token {
            Token::Number(n) => format!("[{}e-{}]", n.unscaled_text(), n.scale()),
            Token::Variable(name) => format!("<{}>", name),
            Token::ParenStart => "(".to_string(),
            Token::ParenClose => ")".to_string(),
            Token::Assignment => "=".to_string(),
            Token::Plus => "+".to_string(),
            Token::Minus => "-".to_string(),
            Token::Mul => "*".to_string(),
            Token::Div => "/".to_string(),
        };
        shown.push_str(&piece);
    }
    shown
}

#[test]
fn single_characters_are_tokens() {
    assert_eq!(kinds("()+-*/="), "()+-*/=");
}

#[test]
fn white_space_is_dropped() {
    assert_eq!(kinds(" 1\t+\n2\r \x0c"), "[1e-0]+[2e-0]");
    assert_eq!(kinds(""), "");
    assert_eq!(kinds("  \n"), "");
}

#[test]
fn vertical_tab_is_no_white_space() {
    assert!(matches!(lex("1 \x0b 2"), Err(LexError::IllegalToken(t)) if t == "\x0b"));
}

#[test]
fn number_is_the_longest_run() {
    assert_eq!(kinds("12.5+3"), "[125e-1]+[3e-0]");
    assert_eq!(kinds(".125"), "[125e-3]");
    assert_eq!(kinds("12abc"), "[12e-0]<abc>");
}

#[test]
fn number_with_two_points_is_illegal() {
    assert!(matches!(lex("1 + 1.2.3 + 4"), Err(LexError::IllegalNumber(t)) if t == "1.2.3"));
    assert!(matches!(lex("1..2"), Err(LexError::IllegalNumber(t)) if t == "1..2"));
}

#[test]
fn point_alone_is_illegal() {
    assert!(matches!(lex("."), Err(LexError::IllegalNumber(t)) if t == "."));
}

#[test]
fn name_is_the_longest_run_of_letters_and_hyphens() {
    assert_eq!(kinds("ab-c"), "<ab-c>");
    assert_eq!(kinds("a - b"), "<a>-<b>");
    assert_eq!(kinds("a-"), "<a->");
    assert_eq!(kinds("x1"), "<x>[1e-0]");
}

#[test]
fn underscore_begins_a_name_and_ends_one() {
    assert_eq!(kinds("_x"), "<_x>");
    assert_eq!(kinds("a_b"), "<a><_b>");
    assert_eq!(kinds("__"), "<_><_>");
}

#[test]
fn first_illegal_character_fails_the_text() {
    assert!(matches!(lex("1 + A"), Err(LexError::IllegalToken(t)) if t == "A"));
    assert!(matches!(lex("$ 1.2.3"), Err(LexError::IllegalToken(t)) if t == "$"));
    assert!(matches!(lex("1.2.3 $"), Err(LexError::IllegalNumber(t)) if t == "1.2.3"));
}

#[test]
fn text_outside_ascii_fails_before_any_token() {
    assert!(matches!(lex("é"), Err(LexError::NonAsciiInput)));
    assert!(matches!(lex("1 + 1 é"), Err(LexError::NonAsciiInput)));
    assert!(matches!(lex("$ é"), Err(LexError::NonAsciiInput)));
}

#[test]
fn parse_variable_ends_behind_the_run() {
    assert_eq!(parse_variable("ab-c+1", 0), ("ab-c".to_string(), 4));
    assert_eq!(parse_variable("1+_ab", 2), ("_ab".to_string(), 5));
    assert_eq!(parse_variable("a", 0), ("a".to_string(), 1));
}

#[test]
fn parse_number_ends_behind_the_run() {
    let (number, end) = parse_number("1+2.50*3", 2).unwrap();
    assert_eq!((number.unscaled_text(), number.scale(), end), ("250", 2, 6));
}

#[test]
fn parse_number_fails_with_the_run() {
    assert!(matches!(parse_number("1+2.5.0*3", 2), Err(LexError::IllegalNumber(t)) if t == "2.5.0"));
}
