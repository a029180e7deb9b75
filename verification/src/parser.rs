//! The parser: from tokens to an expression tree, by recursive descent with
//! precedence climbing.
//!
//! An opening parenthesis is matched by the last token that is left, which
//! is taken off the far end of the tokens before the inside is parsed.
//!
//! The definitions go on with what a step has left only where that is
//! shorter than what the step met. It always is
//! ([`lemma_reading_consumes`]), so the other branch is never taken; it is
//! there to make the definitions well-founded.

use crate::error::ParseError;
use crate::token::{token_views, Token, TokenView};
use crate::tree::{parsed_view, Expr, ParseTree};
use std::collections::VecDeque;
use vstd::prelude::*;

verus! {

/// An expression that was read off the front of some tokens, and the tokens
/// that are left.
pub struct Parsed {
    pub tree: Expr,
    pub rest: Seq<TokenView>,
}

/// The precedence of the first of the tokens `s` as a binary operator, if
/// there is a token and it is one.
pub open spec fn front_precedence(s: Seq<TokenView>) -> Option<usize> {
    if s.len() > 0 {
        s[0].precedence()
    } else {
        None
    }
}

/// Whether the first of the tokens `s` is a binary operator that binds at
/// least as tightly as `min`.
pub open spec fn continues(s: Seq<TokenView>, min: usize) -> bool {
    front_precedence(s) matches Some(p) && p >= min
}

/// Whether the first of the tokens `s` is a binary operator that binds more
/// tightly than `above`.
pub open spec fn binds_tighter(s: Seq<TokenView>, above: usize) -> bool {
    front_precedence(s) matches Some(p) && p > above
}

/// Reads one operand off the front of `s`: a number, a variable, a negated
/// operand, or a whole expression between an opening parenthesis and the
/// last token, which must be a closing one.
pub open spec fn primary(s: Seq<TokenView>) -> Result<Parsed, ParseError>
    decreases s.len(), 0nat,
{
    if s.len() == 0 {
        Err(ParseError::EmptyInput)
    } else {
        match s[0] {
            TokenView::ParenStart => {
                if s.len() >= 2 && s.last() == TokenView::ParenClose {
                    expression(s.subrange(1, s.len() - 1))
                } else {
                    Err(ParseError::UnmatchedParens)
                }
            },
            TokenView::Number(n) => Ok(Parsed { tree: Expr::Number(n), rest: s.drop_first() }),
            TokenView::Minus => match primary(s.drop_first()) {
                Ok(p) => Ok(Parsed { tree: Expr::Neg(Box::new(p.tree)), rest: p.rest }),
                Err(e) => Err(e),
            },
            TokenView::Variable(name) => Ok(
                Parsed { tree: Expr::Variable(name), rest: s.drop_first() },
            ),
            _ => Err(ParseError::UnmatchedToken),
        }
    }
}

/// Reads an expression off the front of `s`: an operand, and then every
/// binary operator that follows with its right side.
pub open spec fn expression(s: Seq<TokenView>) -> Result<Parsed, ParseError>
    decreases s.len(), 1nat,
{
    match primary(s) {
        Ok(p) => if p.rest.len() < s.len() {
            climb(p.tree, p.rest, 0)
        } else {
            Err(ParseError::EmptyInput)
        },
        Err(e) => Err(e),
    }
}

/// Extends the left side `lhs` by the operators at the front of `s` that
/// bind at least as tightly as `min`, one after the other, so that equal
/// operators group to the left. The right side of each is an operand,
/// extended by the operators behind it that bind more tightly.
pub open spec fn climb(lhs: Expr, s: Seq<TokenView>, min: usize) -> Result<Parsed, ParseError>
    decreases s.len(), 2nat,
{
    if continues(s, min) {
        match primary(s.drop_first()) {
            Ok(operand) => if operand.rest.len() < s.len() {
                match absorb(operand.tree, operand.rest, s[0].precedence()->0) {
                    Ok(rhs) => match lhs.apply(s[0], rhs.tree) {
                        Ok(tree) => if rhs.rest.len() < s.len() {
                            climb(tree, rhs.rest, min)
                        } else {
                            Err(ParseError::EmptyInput)
                        },
                        Err(e) => Err(e),
                    },
                    Err(e) => Err(e),
                }
            } else {
                Err(ParseError::EmptyInput)
            },
            Err(e) => Err(e),
        }
    } else {
        Ok(Parsed { tree: lhs, rest: s })
    }
}

/// Extends the right side `rhs` of an operator of precedence `above` by the
/// operators at the front of `s` that bind more tightly than it.
pub open spec fn absorb(rhs: Expr, s: Seq<TokenView>, above: usize) -> Result<Parsed, ParseError>
    decreases s.len(), 3nat,
{
    if binds_tighter(s, above) {
        match climb(rhs, s, s[0].precedence()->0) {
            Ok(p) => if p.rest.len() < s.len() {
                absorb(p.tree, p.rest, above)
            } else {
                Err(ParseError::EmptyInput)
            },
            Err(e) => Err(e),
        }
    } else {
        Ok(Parsed { tree: rhs, rest: s })
    }
}

/// The expression that the tokens `s` are, all of them: tokens that are
/// left behind an expression make the whole no expression.
pub open spec fn parse_spec(s: Seq<TokenView>) -> Result<Expr, ParseError> {
    match expression(s) {
        Ok(p) => if p.rest.len() == 0 {
            Ok(p.tree)
        } else {
            Err(ParseError::UnmatchedToken)
        },
        Err(e) => Err(e),
    }
}

/// The tokens `s` between an opening and a closing parenthesis.
pub open spec fn parenthesized(s: Seq<TokenView>) -> Seq<TokenView> {
    seq![TokenView::ParenStart] + s + seq![TokenView::ParenClose]
}

/// Reading takes tokens away: an operand takes at least one, and so does
/// every operator that is applied; none is ever added.
pub proof fn lemma_reading_consumes(lhs: Expr, s: Seq<TokenView>, level: usize)
    ensures
        primary(s) matches Ok(p) ==> p.rest.len() < s.len(),
        expression(s) matches Ok(p) ==> p.rest.len() < s.len(),
        climb(lhs, s, level) matches Ok(p) ==> p.rest.len() <= s.len() && (continues(s, level)
            ==> p.rest.len() < s.len()),
        absorb(lhs, s, level) matches Ok(p) ==> p.rest.len() <= s.len(),
    decreases s.len(), 1nat,
{
    if s.len() > 0 {
        match s[0] {
            TokenView::ParenStart => {
                if s.len() >= 2 && s.last() == TokenView::ParenClose {
                    lemma_reading_consumes(lhs, s.subrange(1, s.len() - 1), level);
                }
            },
            TokenView::Minus => {
                lemma_reading_consumes(lhs, s.drop_first(), level);
            },
            _ => {},
        }
    }
    if let Ok(p) = primary(s) {
        if p.rest.len() < s.len() {
            lemma_reading_consumes(p.tree, p.rest, 0);
        }
    }
    if continues(s, level) {
        lemma_reading_consumes(lhs, s.drop_first(), level);
        if let Ok(operand) = primary(s.drop_first()) {
            let above = s[0].precedence()->0;
            lemma_reading_consumes(operand.tree, operand.rest, above);
            if let Ok(rhs) = absorb(operand.tree, operand.rest, above) {
                if let Ok(tree) = lhs.apply(s[0], rhs.tree) {
                    lemma_reading_consumes(tree, rhs.rest, level);
                }
            }
        }
    }
    if binds_tighter(s, level) {
        let q = s[0].precedence()->0;
        lemma_climb_consumes(lhs, s, q);
        if let Ok(p) = climb(lhs, s, q) {
            lemma_reading_consumes(p.tree, p.rest, level);
        }
    }
}

/// What a climb leaves is shorter than what it met, where it met an
/// operator to apply.
proof fn lemma_climb_consumes(lhs: Expr, s: Seq<TokenView>, level: usize)
    requires
        continues(s, level),
    ensures
        climb(lhs, s, level) matches Ok(p) ==> p.rest.len() < s.len(),
    decreases s.len(), 0nat,
{
    lemma_reading_consumes(lhs, s.drop_first(), level);
    if let Ok(operand) = primary(s.drop_first()) {
        let above = s[0].precedence()->0;
        lemma_reading_consumes(operand.tree, operand.rest, above);
        if let Ok(rhs) = absorb(operand.tree, operand.rest, above) {
            if let Ok(tree) = lhs.apply(s[0], rhs.tree) {
                lemma_reading_consumes(tree, rhs.rest, level);
            }
        }
    }
}

/// Parentheses around a whole expression change nothing: where the tokens
/// `s` are an expression, the same tokens between an opening and a closing
/// parenthesis are the same expression.
pub proof fn lemma_redundant_parentheses(s: Seq<TokenView>)
    requires
        parse_spec(s) is Ok,
    ensures
        parse_spec(parenthesized(s)) == parse_spec(s),
{
    let w = parenthesized(s);
    assert(w.subrange(1, w.len() - 1) =~= s);
    assert(w[0] == TokenView::ParenStart);
    assert(w.last() == TokenView::ParenClose);
    let p = expression(s)->Ok_0;
    assert(primary(w) == expression(s));
    assert(!continues(p.rest, 0));
}

/// An opening parenthesis at the front is matched by the last token only:
/// where that is no closing parenthesis, the tokens are no expression, and
/// the failure is that of an unmatched parenthesis.
pub proof fn lemma_unmatched_parenthesis(s: Seq<TokenView>)
    requires
        s.len() > 0,
        s[0] == TokenView::ParenStart,
        s.last() != TokenView::ParenClose,
    ensures
        parse_spec(s) == Err::<Expr, ParseError>(ParseError::UnmatchedParens),
{
}

/// No tokens are no expression: the failure is that of an empty input.
pub proof fn lemma_empty_input()
    ensures
        parse_spec(Seq::empty()) == Err::<Expr, ParseError>(ParseError::EmptyInput),
{
}

/// Whether the result `r` and the tokens `left` are what reading was to
/// give: on success the tree and the tokens left over, on failure the
/// error.
pub open spec fn reads(
    r: Result<Box<ParseTree>, ParseError>,
    left: Seq<Token>,
    expected: Result<Parsed, ParseError>,
) -> bool {
    match expected {
        Ok(p) => r matches Ok(t) && t@ == p.tree && token_views(left) == p.rest,
        Err(e) => r matches Err(x) && x == e,
    }
}

proof fn lemma_views_of_front(tokens: Seq<Token>)
    requires
        tokens.len() > 0,
    ensures
        token_views(tokens.subrange(1, tokens.len() as int)) == token_views(tokens).drop_first(),
        token_views(tokens)[0] == tokens[0]@,
{
    assert(token_views(tokens.subrange(1, tokens.len() as int)) =~= token_views(
        tokens,
    ).drop_first());
}

/// The precedence of the first token as a binary operator, if there is a
/// token and it is one.
fn peek_precedence(input: &VecDeque<Token>) -> (r: Option<usize>)
    ensures
        r == front_precedence(token_views(input@)),
{
    if input.len() > 0 {
        input[0].op_precedence()
    } else {
        None
    }
}

/// Reads one operand off the front of the tokens.
pub fn parse_primary(input: &mut VecDeque<Token>) -> (r: Result<Box<ParseTree>, ParseError>)
    ensures
        reads(r, final(input)@, primary(token_views(old(input)@))),
        final(input)@.len() <= old(input)@.len(),
        r is Ok ==> final(input)@.len() < old(input)@.len(),
    decreases old(input)@.len(), 0nat,
{
    let ghost s = token_views(input@);
    proof {
        if input@.len() > 0 {
            lemma_views_of_front(input@);
        }
    }
    match input.pop_front() {
        Some(Token::ParenStart) => {
            match input.pop_back() {
                Some(Token::ParenClose) => {
                    assert(token_views(input@) =~= s.subrange(1, s.len() - 1));
                    parse_expr(input)
                },
                _ => Err(ParseError::UnmatchedParens),
            }
        },
        Some(Token::Number(num)) => Ok(Box::new(ParseTree::Number(num))),
        Some(Token::Minus) => match parse_primary(input) {
            Ok(operand) => Ok(Box::new(ParseTree::Neg(operand))),
            Err(e) => Err(e),
        },
        Some(Token::Variable(name)) => Ok(Box::new(ParseTree::Variable(name))),
        Some(_) => Err(ParseError::UnmatchedToken),
        None => Err(ParseError::EmptyInput),
    }
}

/// Reads an expression off the front of the tokens, and leaves what follows
/// it.
pub fn parse_expr(input: &mut VecDeque<Token>) -> (r: Result<Box<ParseTree>, ParseError>)
    ensures
        reads(r, final(input)@, expression(token_views(old(input)@))),
        final(input)@.len() <= old(input)@.len(),
        r is Ok ==> final(input)@.len() < old(input)@.len(),
    decreases old(input)@.len(), 1nat,
{
    match parse_primary(input) {
        Ok(operand) => parse_expr_rec(operand, input, 0),
        Err(e) => Err(e),
    }
}

/// Extends the left side `lhs` by the binary operators at the front of the
/// tokens that bind at least as tightly as `min_precedence`.
pub fn parse_expr_rec(
    lhs: Box<ParseTree>,
    input: &mut VecDeque<Token>,
    min_precedence: usize,
) -> (r: Result<Box<ParseTree>, ParseError>)
    ensures
        reads(r, final(input)@, climb(lhs@, token_views(old(input)@), min_precedence)),
        final(input)@.len() <= old(input)@.len(),
        r is Ok && continues(token_views(old(input)@), min_precedence) ==> final(input)@.len()
            < old(input)@.len(),
    decreases old(input)@.len(), 2nat,
{
    let ghost goal = climb(lhs@, token_views(input@), min_precedence);
    let mut left_side = lhs;
    let mut lookahead = peek_precedence(input);
    while lookahead.is_some() && lookahead.unwrap() >= min_precedence
        invariant
            input@.len() <= old(input)@.len(),
            continues(token_views(old(input)@), min_precedence) ==> continues(
                token_views(input@),
                min_precedence,
            ) || input@.len() < old(input)@.len(),
            goal == climb(lhs@, token_views(old(input)@), min_precedence),
            goal == climb(left_side@, token_views(input@), min_precedence),
            lookahead == front_precedence(token_views(input@)),
        decreases input@.len(),
    {
        let ghost s = token_views(input@);
        let precedence = lookahead.unwrap();
        proof {
            lemma_views_of_front(input@);
        }
        let op = input.pop_front().unwrap();
        let mut rhs = match parse_primary(input) {
            Ok(operand) => operand,
            Err(e) => {
                return Err(e);
            },
        };
        let ghost inner_goal = absorb(rhs@, token_views(input@), precedence);
        lookahead = peek_precedence(input);
        while lookahead.is_some() && lookahead.unwrap() > precedence
            invariant
                input@.len() < s.len() <= old(input)@.len(),
                goal == climb(lhs@, token_views(old(input)@), min_precedence),
                goal == climb(left_side@, s, min_precedence),
                front_precedence(s) == Some(precedence),
                precedence >= min_precedence,
                s[0] == op@,
                primary(s.drop_first()) matches Ok(operand) && operand.rest.len() < s.len()
                    && absorb(operand.tree, operand.rest, precedence) == inner_goal,
                inner_goal == absorb(rhs@, token_views(input@), precedence),
                lookahead == front_precedence(token_views(input@)),
            decreases input@.len(),
        {
            let tighter = lookahead.unwrap();
            rhs = match parse_expr_rec(rhs, input, tighter) {
                Ok(extended) => extended,
                Err(e) => {
                    return Err(e);
                },
            };
            lookahead = peek_precedence(input);
        }
        left_side = match left_side.apply(op, rhs) {
            Ok(tree) => tree,
            Err(e) => {
                return Err(e);
            },
        };
    }
    Ok(left_side)
}

/// Parses all the tokens as one expression. Tokens that are left behind the
/// expression fail the parse.
pub fn parse(tokens: Vec<Token>) -> (r: Result<Box<ParseTree>, ParseError>)
    ensures
        parsed_view(r) == parse_spec(token_views(tokens@)),
{
    let ghost all = tokens@;
    let mut pending = tokens;
    let mut input: VecDeque<Token> = VecDeque::new();
    while pending.len() > 0
        invariant
            pending@ + input@ =~= all,
        decreases pending.len(),
    {
        let token = pending.pop().unwrap();
        input.push_front(token);
    }
    assert(input@ =~= all);
    match parse_expr(&mut input) {
        Ok(tree) => if input.len() == 0 {
            Ok(tree)
        } else {
            Err(ParseError::UnmatchedToken)
        },
        Err(e) => Err(e),
    }
}

} // verus!
