//! What the parser's trees have to do with the tokens they were read from.
//!
//! A tree, written out in order, gives back the tokens without their
//! parentheses. Where no parenthesis was there to group, every operator in
//! the tree binds no tighter than what stands under it. And every tree of
//! that shape is the one that is read from what it is written with.

use crate::error::ParseError;
use crate::parser::{
    absorb, binds_tighter, climb, continues, expression, front_precedence,
    lemma_reading_consumes, parse_spec, primary, Parsed,
};
use crate::token::TokenView;
use crate::tree::Expr;
use vstd::prelude::*;

verus! {

/// The tokens that an expression is written with, operands and operators in
/// their order, without any parenthesis.
pub open spec fn written(tree: Expr) -> Seq<TokenView>
    decreases tree,
{
    match tree {
        Expr::Number(n) => seq![TokenView::Number(n)],
        Expr::Variable(name) => seq![TokenView::Variable(name)],
        Expr::Neg(operand) => seq![TokenView::Minus] + written(*operand),
        Expr::Assignment(name, right) => seq![TokenView::Variable(name), TokenView::Assignment]
            + written(*right),
        Expr::Plus(l, r) => written(*l) + seq![TokenView::Plus] + written(*r),
        Expr::Sub(l, r) => written(*l) + seq![TokenView::Minus] + written(*r),
        Expr::Mul(l, r) => written(*l) + seq![TokenView::Mul] + written(*r),
        Expr::Div(l, r) => written(*l) + seq![TokenView::Div] + written(*r),
    }
}

/// Whether the token is an opening or a closing parenthesis.
pub open spec fn is_parenthesis(token: TokenView) -> bool {
    token == TokenView::ParenStart || token == TokenView::ParenClose
}

/// The tokens `s` without the parentheses among them.
pub open spec fn unparenthesized(s: Seq<TokenView>) -> Seq<TokenView>
    decreases s.len(),
{
    if s.len() == 0 {
        s
    } else if is_parenthesis(s[0]) {
        unparenthesized(s.drop_first())
    } else {
        seq![s[0]] + unparenthesized(s.drop_first())
    }
}

/// How tightly the operator at the top of an expression binds: as the
/// tokens' precedence says for a binary operator, and tighter than all of
/// them for a number, a variable and a negation.
pub open spec fn strength(tree: Expr) -> usize {
    match tree {
        Expr::Assignment(_, _) => 0,
        Expr::Plus(_, _) | Expr::Sub(_, _) => 1,
        Expr::Mul(_, _) | Expr::Div(_, _) => 2,
        _ => 3,
    }
}

/// Whether the expression is grouped as precedence alone asks: the left
/// side of a binary operator binds at least as tightly as the operator, its
/// right side binds more tightly, and a negation negates a single operand.
pub open spec fn grouped_by_precedence(tree: Expr) -> bool
    decreases tree,
{
    match tree {
        Expr::Number(_) => true,
        Expr::Variable(_) => true,
        Expr::Neg(operand) => strength(*operand) == 3 && grouped_by_precedence(*operand),
        Expr::Assignment(_, right) => strength(*right) > 0 && grouped_by_precedence(*right),
        Expr::Plus(l, r) | Expr::Sub(l, r) => {
            &&& strength(*l) >= 1
            &&& strength(*r) > 1
            &&& grouped_by_precedence(*l)
            &&& grouped_by_precedence(*r)
        },
        Expr::Mul(l, r) | Expr::Div(l, r) => {
            &&& strength(*l) >= 2
            &&& strength(*r) > 2
            &&& grouped_by_precedence(*l)
            &&& grouped_by_precedence(*r)
        },
    }
}

/// Taking the parentheses out of two runs of tokens one after the other is
/// taking them out of each.
pub proof fn lemma_unparenthesized_concat(a: Seq<TokenView>, b: Seq<TokenView>)
    ensures
        unparenthesized(a + b) == unparenthesized(a) + unparenthesized(b),
    decreases a.len(),
{
    if a.len() == 0 {
        assert(a + b =~= b);
        assert(unparenthesized(a) + unparenthesized(b) =~= unparenthesized(b));
    } else {
        assert((a + b).drop_first() =~= a.drop_first() + b);
        lemma_unparenthesized_concat(a.drop_first(), b);
        assert(seq![a[0]] + (unparenthesized(a.drop_first()) + unparenthesized(b)) =~= (seq![a[0]]
            + unparenthesized(a.drop_first())) + unparenthesized(b));
    }
}

/// What applying an operator writes: the left side, the operator, the
/// right side.
proof fn lemma_written_apply(lhs: Expr, op: TokenView, rhs: Expr)
    requires
        lhs.apply(op, rhs) is Ok,
    ensures
        written(lhs.apply(op, rhs)->Ok_0) == written(lhs) + seq![op] + written(rhs),
        !is_parenthesis(op),
{
    if op == TokenView::Assignment {
        let name = lhs->Variable_0;
        assert(seq![TokenView::Variable(name), TokenView::Assignment] + written(rhs) =~= seq![
            TokenView::Variable(name),
        ] + seq![op] + written(rhs));
    }
}

/// The tree that was read and the tokens that were left give back, in
/// order, what was met: for an operand and an expression the tokens, for
/// the steps of the climb the left side and the tokens.
pub proof fn lemma_reading_keeps_order(lhs: Expr, s: Seq<TokenView>, level: usize)
    ensures
        primary(s) matches Ok(p) ==> written(p.tree) + unparenthesized(p.rest)
            == unparenthesized(s),
        expression(s) matches Ok(p) ==> written(p.tree) + unparenthesized(p.rest)
            == unparenthesized(s),
        climb(lhs, s, level) matches Ok(p) ==> written(p.tree) + unparenthesized(p.rest)
            == written(lhs) + unparenthesized(s),
        absorb(lhs, s, level) matches Ok(p) ==> written(p.tree) + unparenthesized(p.rest)
            == written(lhs) + unparenthesized(s),
    decreases s.len(), 1nat,
{
    lemma_reading_consumes(lhs, s, level);
    if s.len() > 0 {
        let tail = s.drop_first();
        match s[0] {
            TokenView::ParenStart => {
                if s.len() >= 2 && s.last() == TokenView::ParenClose {
                    let inner = s.subrange(1, s.len() - 1);
                    lemma_reading_keeps_order(lhs, inner, level);
                    assert(tail =~= inner + seq![TokenView::ParenClose]);
                    lemma_unparenthesized_concat(inner, seq![TokenView::ParenClose]);
                    assert(unparenthesized(seq![TokenView::ParenClose]) =~= Seq::<
                        TokenView,
                    >::empty()) by {
                        reveal_with_fuel(unparenthesized, 2);
                    }
                    assert(unparenthesized(inner) + Seq::<TokenView>::empty() =~= unparenthesized(
                        inner,
                    ));
                }
            },
            TokenView::Minus => {
                lemma_reading_keeps_order(lhs, tail, level);
                if let Ok(p) = primary(tail) {
                    assert(seq![TokenView::Minus] + written(p.tree) + unparenthesized(p.rest)
                        =~= seq![TokenView::Minus] + (written(p.tree) + unparenthesized(p.rest)));
                }
            },
            _ => {},
        }
    }
    if let Ok(p) = primary(s) {
        lemma_reading_keeps_order(p.tree, p.rest, 0);
    }
    if continues(s, level) {
        lemma_climb_keeps_order(lhs, s, level);
    }
    if binds_tighter(s, level) {
        let q = s[0].precedence()->0;
        lemma_reading_consumes(lhs, s, q);
        lemma_climb_keeps_order(lhs, s, q);
        if let Ok(p) = climb(lhs, s, q) {
            lemma_reading_keeps_order(p.tree, p.rest, level);
        }
    }
}

/// The same for a climb that meets an operator to apply.
proof fn lemma_climb_keeps_order(lhs: Expr, s: Seq<TokenView>, level: usize)
    requires
        continues(s, level),
    ensures
        climb(lhs, s, level) matches Ok(p) ==> written(p.tree) + unparenthesized(p.rest)
            == written(lhs) + unparenthesized(s),
    decreases s.len(), 0nat,
{
    let tail = s.drop_first();
    let op = s[0];
    lemma_reading_consumes(lhs, tail, level);
    lemma_reading_keeps_order(lhs, tail, level);
    if let Ok(operand) = primary(tail) {
        let above = op.precedence()->0;
        lemma_reading_consumes(operand.tree, operand.rest, above);
        lemma_reading_keeps_order(operand.tree, operand.rest, above);
        if let Ok(rhs) = absorb(operand.tree, operand.rest, above) {
            if let Ok(tree) = lhs.apply(op, rhs.tree) {
                lemma_written_apply(lhs, op, rhs.tree);
                lemma_reading_keeps_order(tree, rhs.rest, level);
                if let Ok(p) = climb(tree, rhs.rest, level) {
                    assert(written(p.tree) + unparenthesized(p.rest) == written(tree)
                        + unparenthesized(rhs.rest));
                    assert(written(rhs.tree) + unparenthesized(rhs.rest) == unparenthesized(
                        tail,
                    ));
                    assert(written(lhs) + seq![op] + written(rhs.tree) + unparenthesized(rhs.rest)
                        =~= written(lhs) + (seq![op] + (written(rhs.tree) + unparenthesized(
                        rhs.rest,
                    ))));
                    assert(written(lhs) + (seq![op] + unparenthesized(tail)) =~= written(lhs)
                        + unparenthesized(s));
                }
            }
        }
    }
}

/// A tree reads back as its tokens: the expression that the tokens `s`
/// are, written out, is `s` without its parentheses. Nothing is lost,
/// added or moved.
pub proof fn lemma_tree_reads_back(s: Seq<TokenView>)
    requires
        parse_spec(s) is Ok,
    ensures
        written(parse_spec(s)->Ok_0) == unparenthesized(s),
{
    let p = expression(s)->Ok_0;
    lemma_reading_keeps_order(p.tree, s, 0);
    assert(written(p.tree) + unparenthesized(p.rest) =~= written(p.tree));
}

/// Whether no opening parenthesis is among the tokens `s`, so that nothing
/// but precedence groups them.
pub open spec fn without_groups(s: Seq<TokenView>) -> bool {
    forall|i: int| 0 <= i < s.len() ==> s[i] != TokenView::ParenStart
}

/// Whether the first of the tokens `s`, if it is a binary operator, binds no
/// tighter than the top of `tree`.
pub open spec fn may_follow(tree: Expr, s: Seq<TokenView>) -> bool {
    front_precedence(s) matches Some(q) ==> q <= strength(tree)
}

/// Among tokens without an opening parenthesis, every step of reading
/// gives a tree that is grouped by precedence, and stops only in front of
/// an operator that binds too loosely to go on.
pub proof fn lemma_reading_groups(lhs: Expr, s: Seq<TokenView>, level: usize)
    requires
        without_groups(s),
    ensures
        primary(s) matches Ok(p) ==> strength(p.tree) == 3 && grouped_by_precedence(p.tree)
            && without_groups(p.rest),
        expression(s) matches Ok(p) ==> grouped_by_precedence(p.tree) && without_groups(p.rest),
        grouped_by_precedence(lhs) && strength(lhs) >= level && may_follow(lhs, s) ==> (climb(
            lhs,
            s,
            level,
        ) matches Ok(p) ==> grouped_by_precedence(p.tree) && strength(p.tree) >= level
            && !continues(p.rest, level) && without_groups(p.rest)),
        grouped_by_precedence(lhs) && strength(lhs) > level && may_follow(lhs, s) ==> (absorb(
            lhs,
            s,
            level,
        ) matches Ok(p) ==> grouped_by_precedence(p.tree) && strength(p.tree) > level
            && !binds_tighter(p.rest, level) && without_groups(p.rest)),
    decreases s.len(), 1nat,
{
    lemma_reading_consumes(lhs, s, level);
    if s.len() > 0 {
        let tail = s.drop_first();
        assert(without_groups(tail)) by {
            assert forall|i: int| 0 <= i < tail.len() implies tail[i]
                != TokenView::ParenStart by {
                assert(tail[i] == s[i + 1]);
            }
        }
        if s[0] == TokenView::Minus {
            lemma_reading_groups(lhs, tail, level);
        }
    }
    if let Ok(p) = primary(s) {
        lemma_reading_groups(p.tree, p.rest, 0);
    }
    if continues(s, level) && grouped_by_precedence(lhs) && strength(lhs) >= level && may_follow(
        lhs,
        s,
    ) {
        lemma_climb_groups(lhs, s, level);
    }
    if binds_tighter(s, level) && grouped_by_precedence(lhs) && strength(lhs) > level
        && may_follow(lhs, s) {
        let q = s[0].precedence()->0;
        lemma_reading_consumes(lhs, s, q);
        lemma_climb_groups(lhs, s, q);
        if let Ok(p) = climb(lhs, s, q) {
            lemma_reading_groups(p.tree, p.rest, level);
        }
    }
}

/// The same for a climb that meets an operator to apply.
proof fn lemma_climb_groups(lhs: Expr, s: Seq<TokenView>, level: usize)
    requires
        without_groups(s),
        continues(s, level),
        grouped_by_precedence(lhs),
        strength(lhs) >= level,
        may_follow(lhs, s),
    ensures
        climb(lhs, s, level) matches Ok(p) ==> grouped_by_precedence(p.tree) && strength(p.tree)
            >= level && !continues(p.rest, level) && without_groups(p.rest),
    decreases s.len(), 0nat,
{
    let tail = s.drop_first();
    let op = s[0];
    assert(without_groups(tail)) by {
        assert forall|i: int| 0 <= i < tail.len() implies tail[i] != TokenView::ParenStart by {
            assert(tail[i] == s[i + 1]);
        }
    }
    lemma_reading_consumes(lhs, tail, level);
    lemma_reading_groups(lhs, tail, level);
    if let Ok(operand) = primary(tail) {
        let above = op.precedence()->0;
        lemma_reading_consumes(operand.tree, operand.rest, above);
        lemma_reading_groups(operand.tree, operand.rest, above);
        if let Ok(rhs) = absorb(operand.tree, operand.rest, above) {
            if let Ok(tree) = lhs.apply(op, rhs.tree) {
                assert(strength(tree) == above);
                assert(grouped_by_precedence(tree));
                lemma_reading_groups(tree, rhs.rest, level);
            }
        }
    }
}

/// Precedence alone groups what no parenthesis groups: the expression that
/// tokens without an opening parenthesis are has, under every operator, a
/// left side that binds at least as tightly and a right side that binds
/// more tightly. So multiplication and division are applied before
/// addition and subtraction, equal operators from left to right, a negation
/// to the operand behind it, and an assignment last.
pub proof fn lemma_tree_is_grouped_by_precedence(s: Seq<TokenView>)
    requires
        without_groups(s),
        parse_spec(s) is Ok,
    ensures
        grouped_by_precedence(parse_spec(s)->Ok_0),
{
    lemma_reading_groups(Expr::Variable(Seq::empty()), s, 0);
}

/// The number of nodes of an expression, a name counted as one.
spec fn size(tree: Expr) -> nat
    decreases tree,
{
    match tree {
        Expr::Number(_) => 1,
        Expr::Variable(_) => 1,
        Expr::Neg(operand) => 1 + size(*operand),
        Expr::Assignment(_, right) => 2 + size(*right),
        Expr::Plus(l, r) | Expr::Sub(l, r) | Expr::Mul(l, r) | Expr::Div(l, r) => 1 + size(*l)
            + size(*r),
    }
}

/// The token of the binary operator at the top of an expression that has
/// one.
spec fn operator(tree: Expr) -> TokenView {
    match tree {
        Expr::Assignment(_, _) => TokenView::Assignment,
        Expr::Sub(_, _) => TokenView::Minus,
        Expr::Mul(_, _) => TokenView::Mul,
        Expr::Div(_, _) => TokenView::Div,
        _ => TokenView::Plus,
    }
}

/// The left side of the binary operator at the top of an expression; the
/// expression itself where it has none.
spec fn left_side(tree: Expr) -> Expr {
    match tree {
        Expr::Assignment(name, _) => Expr::Variable(name),
        Expr::Plus(l, _) | Expr::Sub(l, _) | Expr::Mul(l, _) | Expr::Div(l, _) => *l,
        _ => tree,
    }
}

/// The right side of the binary operator at the top of an expression; the
/// expression itself where it has none.
spec fn right_side(tree: Expr) -> Expr {
    match tree {
        Expr::Assignment(_, r) | Expr::Plus(_, r) | Expr::Sub(_, r) | Expr::Mul(_, r) | Expr::Div(
            _,
            r,
        ) => *r,
        _ => tree,
    }
}

/// What is left of an expression when the operators at its top that bind
/// less tightly than `level` are taken away with their right sides.
spec fn cut(tree: Expr, level: usize) -> Expr
    decreases size(tree),
{
    if strength(tree) >= level || strength(tree) == 3 {
        tree
    } else {
        cut(left_side(tree), level)
    }
}

/// The tokens of the operators that [`cut`] takes away, with their right
/// sides, in the order in which they are written.
spec fn beyond(tree: Expr, level: usize) -> Seq<TokenView>
    decreases size(tree),
{
    if strength(tree) >= level || strength(tree) == 3 {
        Seq::empty()
    } else {
        beyond(left_side(tree), level) + seq![operator(tree)] + written(right_side(tree))
    }
}

/// An operation is its left side, its operator and its right side.
proof fn lemma_operation(tree: Expr)
    requires
        strength(tree) < 3,
    ensures
        written(tree) == written(left_side(tree)) + seq![operator(tree)] + written(
            right_side(tree),
        ),
        left_side(tree).apply(operator(tree), right_side(tree)) == Ok::<Expr, ParseError>(tree),
        operator(tree).precedence() == Some(strength(tree)),
        size(left_side(tree)) < size(tree),
        size(right_side(tree)) < size(tree),
        grouped_by_precedence(tree) ==> grouped_by_precedence(left_side(tree))
            && grouped_by_precedence(right_side(tree)) && strength(left_side(tree)) >= strength(
            tree,
        ) && strength(right_side(tree)) > strength(tree),
{
    if let Expr::Assignment(name, right) = tree {
        assert(seq![TokenView::Variable(name), TokenView::Assignment] + written(*right) =~= seq![
            TokenView::Variable(name),
        ] + seq![TokenView::Assignment] + written(*right));
    }
}

/// An expression is written as what [`cut`] leaves of it and what it takes
/// away.
proof fn lemma_written_cut(tree: Expr, level: usize)
    ensures
        written(tree) == written(cut(tree, level)) + beyond(tree, level),
        strength(cut(tree, level)) >= level || strength(cut(tree, level)) == 3,
        size(cut(tree, level)) <= size(tree),
        grouped_by_precedence(tree) ==> grouped_by_precedence(cut(tree, level)),
        strength(cut(tree, level)) >= strength(tree),
    decreases size(tree),
{
    if strength(tree) >= level || strength(tree) == 3 {
        assert(written(tree) + Seq::<TokenView>::empty() =~= written(tree));
    } else {
        lemma_operation(tree);
        let l = left_side(tree);
        lemma_written_cut(l, level);
        assert(written(cut(l, level)) + beyond(l, level) + seq![operator(tree)] + written(
            right_side(tree),
        ) =~= written(cut(l, level)) + (beyond(l, level) + seq![operator(tree)] + written(
            right_side(tree),
        )));
    }
}

/// An operand that stands alone is read back from what it is written with.
proof fn lemma_operand_parses_back(operand: Expr, rest: Seq<TokenView>)
    requires
        strength(operand) == 3,
        grouped_by_precedence(operand),
    ensures
        primary(written(operand) + rest) == Ok::<Parsed, ParseError>(
            Parsed { tree: operand, rest },
        ),
    decreases size(operand),
{
    let s = written(operand) + rest;
    match operand {
        Expr::Neg(inner) => {
            lemma_operand_parses_back(*inner, rest);
            assert(s.drop_first() =~= written(*inner) + rest);
        },
        _ => {
            assert(s.drop_first() =~= rest);
        },
    }
}

/// The operand at the front of a written expression is read off it.
proof fn lemma_front_parses_back(tree: Expr, rest: Seq<TokenView>)
    requires
        grouped_by_precedence(tree),
    ensures
        primary(written(tree) + rest) == Ok::<Parsed, ParseError>(
            Parsed { tree: cut(tree, 4), rest: beyond(tree, 4) + rest },
        ),
{
    lemma_written_cut(tree, 4);
    lemma_operand_parses_back(cut(tree, 4), beyond(tree, 4) + rest);
    assert(written(cut(tree, 4)) + (beyond(tree, 4) + rest) =~= written(tree) + rest);
}

/// Whether [`cut`] at `level` takes nothing away from the expression.
spec fn whole(tree: Expr, level: usize) -> bool {
    strength(tree) >= level || strength(tree) == 3
}

/// What [`cut`] takes away begins with an operator that binds less tightly
/// than the level of the cut, and at least as tightly as the top of the
/// expression.
proof fn lemma_front_of_beyond(tree: Expr, level: usize, rest: Seq<TokenView>)
    requires
        grouped_by_precedence(tree),
        !whole(tree, level),
    ensures
        front_precedence(beyond(tree, level) + rest) matches Some(q) && strength(tree) <= q
            < level,
    decreases size(tree),
{
    lemma_operation(tree);
    let l = left_side(tree);
    let after = seq![operator(tree)] + written(right_side(tree)) + rest;
    assert(beyond(tree, level) + rest =~= beyond(l, level) + after);
    if whole(l, level) {
        assert(beyond(l, level) + after =~= after);
    } else {
        lemma_front_of_beyond(l, level, after);
    }
}

/// A climb from a lower cut of a written expression goes on as the climb
/// from the cut at its own level.
proof fn lemma_climb_parses_back(tree: Expr, upper: usize, level: usize, rest: Seq<TokenView>)
    requires
        grouped_by_precedence(tree),
        may_follow(tree, rest),
        level <= upper,
    ensures
        climb(cut(tree, upper), beyond(tree, upper) + rest, level) == climb(
            cut(tree, level),
            beyond(tree, level) + rest,
            level,
        ),
    decreases size(tree), 0nat, 0nat,
{
    if !whole(tree, upper) {
        lemma_operation(tree);
        let l = left_side(tree);
        let r = right_side(tree);
        let op = operator(tree);
        let after = seq![op] + written(r) + rest;
        assert(beyond(tree, upper) + rest =~= beyond(l, upper) + after);
        lemma_climb_parses_back(l, upper, level, after);
        if strength(tree) < level {
            assert(beyond(tree, level) + rest =~= beyond(l, level) + after);
        } else {
            assert(beyond(l, level) + after =~= after);
            assert(beyond(tree, level) + rest =~= rest);
            assert(after.drop_first() =~= written(r) + rest);
            lemma_front_parses_back(r, rest);
            lemma_reading_consumes(l, after.drop_first(), level);
            lemma_absorb_parses_back(r, 4, strength(tree), rest);
            lemma_reading_consumes(cut(r, 4), beyond(r, 4) + rest, strength(tree));
        }
    }
}

/// The right side of an operator is read back from what it is written
/// with, from any cut of it on.
proof fn lemma_absorb_parses_back(tree: Expr, upper: usize, above: usize, rest: Seq<TokenView>)
    requires
        grouped_by_precedence(tree),
        strength(tree) > above,
        !binds_tighter(rest, above),
    ensures
        absorb(cut(tree, upper), beyond(tree, upper) + rest, above) == Ok::<Parsed, ParseError>(
            Parsed { tree, rest },
        ),
    decreases size(tree), 1nat, upper,
{
    let s = beyond(tree, upper) + rest;
    if whole(tree, upper) {
        assert(s =~= rest);
    } else {
        lemma_front_of_beyond(tree, upper, rest);
        let q = front_precedence(s)->0;
        lemma_climb_parses_back(tree, upper, q, rest);
        let next = beyond(tree, q) + rest;
        if whole(tree, q) {
            assert(next =~= rest);
        } else {
            lemma_front_of_beyond(tree, q, rest);
        }
        assert(!continues(next, q));
        lemma_reading_consumes(cut(tree, upper), s, q);
        lemma_absorb_parses_back(tree, q, above, rest);
    }
}

/// A tree is read back from what it is written with: an expression that is
/// grouped as precedence alone asks is the expression that its own tokens
/// are. With [`lemma_tree_reads_back`] and
/// [`lemma_tree_is_grouped_by_precedence`] this makes the parser, on tokens
/// without parentheses, the inverse of writing such an expression out.
pub proof fn lemma_written_tree_parses_back(tree: Expr)
    requires
        grouped_by_precedence(tree),
    ensures
        parse_spec(written(tree)) == Ok::<Expr, ParseError>(tree),
{
    let s = written(tree);
    let none = Seq::<TokenView>::empty();
    assert(s + none =~= s);
    lemma_front_parses_back(tree, none);
    lemma_reading_consumes(tree, s, 0);
    lemma_climb_parses_back(tree, 4, 0, none);
    assert(beyond(tree, 4) + none =~= beyond(tree, 4));
    assert(beyond(tree, 0) + none =~= none);
}

/// Only a bare variable can be assigned to: an assignment sign between two
/// written expressions, the left one not a bare variable, is no expression,
/// and the failure is that of a missing variable.
pub proof fn lemma_assignment_to_expression_fails(target: Expr, value: Expr)
    requires
        grouped_by_precedence(target),
        grouped_by_precedence(value),
        strength(value) > 0,
        !(target is Variable),
    ensures
        parse_spec(written(target) + seq![TokenView::Assignment] + written(value)) == Err::<
            Expr,
            ParseError,
        >(ParseError::ExpectedVariable),
{
    let none = Seq::<TokenView>::empty();
    let after = seq![TokenView::Assignment] + written(value);
    let s = written(target) + after;
    assert(written(target) + seq![TokenView::Assignment] + written(value) =~= s);
    lemma_front_parses_back(target, after);
    lemma_reading_consumes(target, s, 0);
    lemma_climb_parses_back(target, 4, 0, after);
    assert(beyond(target, 0) + after =~= after);
    assert(after.drop_first() =~= written(value) + none);
    lemma_front_parses_back(value, none);
    lemma_reading_consumes(target, after.drop_first(), 0);
    lemma_absorb_parses_back(value, 4, 0, none);
}

} // verus!
