//! Arbitrary-precision decimal values.
//!
//! A decimal is an unscaled integer together with a scale: the pair
//! `(unscaled, scale)` stands for the number `unscaled / 10^scale`.

use bigdecimal::num_bigint::BigInt;
use bigdecimal::BigDecimal;
use std::str::FromStr;
use vstd::prelude::*;
use vstd::string::*;
use vstd::utf8::is_ascii_chars;

verus! {

/// Scales are kept between `-MAX_SCALE` and `MAX_SCALE`.
pub const MAX_SCALE: i64 = 2_147_483_647;

/// An unscaled integer has at most this many decimal digits.
pub const MAX_DIGITS: usize = 2_147_483_647;

/// The mathematical content of a [`Decimal`]: it stands for
/// `unscaled / 10^scale`.
pub struct DecimalView {
    pub unscaled: int,
    pub scale: int,
}

/// Ten to the power `e`.
pub open spec fn pow10(e: nat) -> int
    decreases e,
{
    if e == 0 {
        1
    } else {
        10 * pow10((e - 1) as nat)
    }
}

/// Whether `c` is one of the characters `0` to `9`.
pub open spec fn is_digit(c: char) -> bool {
    '0' <= c <= '9'
}

/// The number that the digit character `c` stands for.
pub open spec fn digit_value(c: char) -> nat {
    (c as int - '0' as int) as nat
}

/// The character that stands for the digit `d`.
pub open spec fn digit_char(d: nat) -> char {
    (d + 48) as char
}

/// The decimal digits of `n`, most significant first, without leading zeros.
pub open spec fn nat_text(n: nat) -> Seq<char>
    decreases n,
{
    if n < 10 {
        seq![digit_char(n)]
    } else {
        nat_text(n / 10).push(digit_char(n % 10))
    }
}

/// The canonical decimal rendering of the integer `n`.
pub open spec fn int_text(n: int) -> Seq<char> {
    if n < 0 {
        seq!['-'] + nat_text((-n) as nat)
    } else {
        nat_text(n as nat)
    }
}

/// The number that a run of digit characters stands for.
pub open spec fn text_nat(s: Seq<char>) -> nat
    decreases s.len(),
{
    if s.len() == 0 {
        0
    } else {
        text_nat(s.drop_last()) * 10 + digit_value(s.last())
    }
}

/// The integer that an optionally signed run of digit characters stands for.
pub open spec fn text_int(s: Seq<char>) -> int {
    if s.len() > 0 && s[0] == '-' {
        -(text_nat(s.skip(1)) as int)
    } else {
        text_nat(s) as int
    }
}

proof fn lemma_digit_char(d: nat)
    requires
        d < 10,
    ensures
        is_digit(digit_char(d)),
        digit_value(digit_char(d)) == d,
{
}

/// Every character of a rendered natural number is a digit, and reading the
/// rendering back gives the number.
pub proof fn lemma_nat_text(n: nat)
    ensures
        nat_text(n).len() >= 1,
        forall|i: int| 0 <= i < nat_text(n).len() ==> is_digit(#[trigger] nat_text(n)[i]),
        text_nat(nat_text(n)) == n,
    decreases n,
{
    if n < 10 {
        lemma_digit_char(n);
        let s = nat_text(n);
        assert(s.drop_last() =~= Seq::<char>::empty());
        assert(text_nat(s.drop_last()) == 0);
    } else {
        lemma_nat_text(n / 10);
        lemma_digit_char(n % 10);
        let s = nat_text(n);
        assert(s.drop_last() =~= nat_text(n / 10));
    }
}

/// Reading a rendered integer back gives the integer: the rendering is
/// canonical, so two integers with the same rendering are equal.
pub proof fn lemma_int_text(n: int)
    ensures
        int_text(n).len() >= 1,
        text_int(int_text(n)) == n,
        forall|i: int|
            0 <= i < int_text(n).len() ==> '\0' <= #[trigger] int_text(n)[i] <= '\u{7f}',
        n < 0 ==> int_text(n).len() == nat_text((-n) as nat).len() + 1 && int_text(n)[0] == '-',
        n >= 0 ==> int_text(n).len() == nat_text(n as nat).len() && int_text(n)[0] != '-',
{
    if n < 0 {
        let m = (-n) as nat;
        lemma_nat_text(m);
        assert(int_text(n).skip(1) =~= nat_text(m));
    } else {
        lemma_nat_text(n as nat);
    }
}

/// The number of decimal digits of `n`, its sign left aside.
pub open spec fn digit_count(n: int) -> nat {
    nat_text((if n < 0 { -n } else { n }) as nat).len()
}

/// Whether a decimal is small enough to be held: its scale and the length of
/// its unscaled integer are bounded.
pub open spec fn within_limits(v: DecimalView) -> bool {
    &&& -MAX_SCALE <= v.scale <= MAX_SCALE
    &&& digit_count(v.unscaled) <= MAX_DIGITS
}

/// The unscaled integer of `v` once it is brought to the scale `scale`, which
/// is not smaller than its own.
pub open spec fn rescaled(v: DecimalView, scale: int) -> int
    recommends
        scale >= v.scale,
{
    v.unscaled * pow10((scale - v.scale) as nat)
}

/// The sum of two decimals, at the larger of their scales.
pub open spec fn decimal_sum(a: DecimalView, b: DecimalView) -> DecimalView {
    let scale = if a.scale >= b.scale { a.scale } else { b.scale };
    DecimalView { unscaled: rescaled(a, scale) + rescaled(b, scale), scale }
}

/// The difference of two decimals, at the larger of their scales.
pub open spec fn decimal_difference(a: DecimalView, b: DecimalView) -> DecimalView {
    let scale = if a.scale >= b.scale { a.scale } else { b.scale };
    DecimalView { unscaled: rescaled(a, scale) - rescaled(b, scale), scale }
}

/// The negation of a decimal, at the same scale.
pub open spec fn decimal_negation(a: DecimalView) -> DecimalView {
    DecimalView { unscaled: -a.unscaled, scale: a.scale }
}

/// The product of two decimals, at the sum of their scales.
pub open spec fn decimal_product(a: DecimalView, b: DecimalView) -> DecimalView {
    DecimalView { unscaled: a.unscaled * b.unscaled, scale: a.scale + b.scale }
}

/// The quotient of two decimals as the decimal arithmetic rounds and
/// represents it.
pub uninterp spec fn decimal_quotient(a: DecimalView, b: DecimalView) -> DecimalView;

/// Whether `c` may stand in a number literal: a digit or the decimal point.
pub open spec fn is_literal_char(c: char) -> bool {
    is_digit(c) || c == '.'
}

/// Whether `s` is a non-empty run of digits and decimal points.
pub open spec fn is_literal_run(s: Seq<char>) -> bool {
    &&& s.len() > 0
    &&& forall|i: int| 0 <= i < s.len() ==> is_literal_char(#[trigger] s[i])
}

/// The decimal that a run of digits and decimal points denotes, if any: it
/// must hold at least one digit and at most one point. Its unscaled integer
/// is made of the digits in their order, its scale is the number of digits
/// behind the point.
pub open spec fn literal_value(s: Seq<char>) -> Option<DecimalView> {
    let digits = s.filter(|c: char| is_digit(c));
    let points = s.filter(|c: char| c == '.').len();
    if points > 1 || digits.len() == 0 {
        None
    } else if points == 0 {
        Some(DecimalView { unscaled: text_nat(digits) as int, scale: 0 })
    } else {
        Some(
            DecimalView {
                unscaled: text_nat(digits) as int,
                scale: s.len() - 1 - s.index_of('.'),
            },
        )
    }
}

/// `v` if it is within the limits.
pub open spec fn limited(v: DecimalView) -> Option<DecimalView> {
    if within_limits(v) {
        Some(v)
    } else {
        None
    }
}

/// The decimal that the text `s` denotes as a number literal, if it is one
/// and within the limits.
pub open spec fn literal_decimal(s: Seq<char>) -> Option<DecimalView> {
    if !is_literal_run(s) {
        None
    } else {
        match literal_value(s) {
            Some(v) => limited(v),
            None => None,
        }
    }
}

/// The content of a decimal that may be missing.
pub open spec fn optional_view(d: Option<Decimal>) -> Option<DecimalView> {
    match d {
        Some(d) => Some(d@),
        None => None,
    }
}

/// An arbitrary-precision decimal number.
///
/// The unscaled integer is held as its canonical decimal text, so that it
/// has no fixed width.
#[derive(Debug)]
pub struct Decimal {
    text: String,
    scale: i64,
}

impl View for Decimal {
    type V = DecimalView;

    closed spec fn view(&self) -> DecimalView {
        DecimalView { unscaled: text_int(self.text@), scale: self.scale as int }
    }
}

/// Calls `BigDecimal::from_str` on a run of digits and decimal points and
/// takes the result apart with `into_bigint_and_exponent`. The contract
/// claims that the parse succeeds exactly on the runs that
/// [`literal_value`] accepts, with that unscaled integer, rendered by the
/// big integer's `to_string`, and that scale.
#[verifier::external_body]
fn literal_parts(s: &str) -> (r: Option<(String, i64)>)
    requires
        is_literal_run(s@),
    ensures
        match literal_value(s@) {
            Some(v) => r matches Some(p) && p.0@ == int_text(v.unscaled) && p.1 == v.scale,
            None => r is None,
        },
{
    match BigDecimal::from_str(s) {
        Ok(d) => {
            let (n, e) = d.into_bigint_and_exponent();
            Some((n.to_string(), e))
        },
        Err(_) => None,
    }
}

/// Adds two decimals with `BigDecimal`'s `+`. The contract claims that
/// the result has the larger of the two scales and the exact sum at that
/// scale. Both decimals are within the limits, so that the difference of
/// their scales does not overflow in the call.
#[verifier::external_body]
fn sum_parts(a: &Decimal, b: &Decimal) -> (r: (String, i64))
    requires
        a.well_formed(),
        b.well_formed(),
    ensures
        r.0@ == int_text(decimal_sum(a@, b@).unscaled),
        r.1 == decimal_sum(a@, b@).scale,
{
    let x = BigDecimal::new(BigInt::from_str(&a.text).unwrap(), a.scale);
    let y = BigDecimal::new(BigInt::from_str(&b.text).unwrap(), b.scale);
    let (n, e) = (x + y).into_bigint_and_exponent();
    (n.to_string(), e)
}

/// Subtracts two decimals with `BigDecimal`'s `-`. The contract claims
/// that the result has the larger of the two scales and the exact
/// difference at that scale. Both decimals are within the limits, so that
/// the difference of their scales does not overflow in the call.
#[verifier::external_body]
fn difference_parts(a: &Decimal, b: &Decimal) -> (r: (String, i64))
    requires
        a.well_formed(),
        b.well_formed(),
    ensures
        r.0@ == int_text(decimal_difference(a@, b@).unscaled),
        r.1 == decimal_difference(a@, b@).scale,
{
    let x = BigDecimal::new(BigInt::from_str(&a.text).unwrap(), a.scale);
    let y = BigDecimal::new(BigInt::from_str(&b.text).unwrap(), b.scale);
    let (n, e) = (x - y).into_bigint_and_exponent();
    (n.to_string(), e)
}

/// Multiplies two decimals with `BigDecimal`'s `*`. The contract claims
/// that the result has the sum of the two scales and the product of the two
/// unscaled integers. Both decimals are within the limits, so that the sum
/// of their scales does not overflow in the call.
#[verifier::external_body]
fn product_parts(a: &Decimal, b: &Decimal) -> (r: (String, i64))
    requires
        a.well_formed(),
        b.well_formed(),
    ensures
        r.0@ == int_text(decimal_product(a@, b@).unscaled),
        r.1 == decimal_product(a@, b@).scale,
{
    let x = BigDecimal::new(BigInt::from_str(&a.text).unwrap(), a.scale);
    let y = BigDecimal::new(BigInt::from_str(&b.text).unwrap(), b.scale);
    let (n, e) = (x * y).into_bigint_and_exponent();
    (n.to_string(), e)
}

/// Divides two decimals with `BigDecimal`'s `/`, which panics on a zero
/// divisor. The contract names the result and claims nothing more of it.
/// Both decimals are within the limits, so that the scale, which the call
/// counts up from the difference of the two by a step for each digit that
/// it shifts or adds, does not overflow.
#[verifier::external_body]
fn quotient_parts(a: &Decimal, b: &Decimal) -> (r: (String, i64))
    requires
        a.well_formed(),
        b.well_formed(),
        b@.unscaled != 0,
    ensures
        r.0@ == int_text(decimal_quotient(a@, b@).unscaled),
        r.1 == decimal_quotient(a@, b@).scale,
{
    let x = BigDecimal::new(BigInt::from_str(&a.text).unwrap(), a.scale);
    let y = BigDecimal::new(BigInt::from_str(&b.text).unwrap(), b.scale);
    let (n, e) = (x / y).into_bigint_and_exponent();
    (n.to_string(), e)
}

/// Negates a decimal with `BigDecimal`'s unary `-`. The contract claims
/// that the unscaled integer changes its sign and the scale stays.
#[verifier::external_body]
fn negation_parts(a: &Decimal) -> (r: (String, i64))
    requires
        a.well_formed(),
    ensures
        r.0@ == int_text(decimal_negation(a@).unscaled),
        r.1 == decimal_negation(a@).scale,
{
    let x = BigDecimal::new(BigInt::from_str(&a.text).unwrap(), a.scale);
    let (n, e) = (-x).into_bigint_and_exponent();
    (n.to_string(), e)
}

impl Decimal {
    /// The text is the canonical rendering of an integer, and the decimal is
    /// within the limits.
    #[verifier::type_invariant]
    spec fn well_formed(self) -> bool {
        &&& self.text@ == int_text(text_int(self.text@))
        &&& within_limits(self@)
    }

    /// Makes a decimal of a rendered unscaled integer and a scale, if it is
    /// within the limits.
    fn from_parts(text: String, scale: i64, Ghost(n): Ghost<int>) -> (r: Option<Decimal>)
        requires
            text@ == int_text(n),
        ensures
            match r {
                Some(d) => d@ == (DecimalView { unscaled: n, scale: scale as int })
                    && within_limits(d@),
                None => !within_limits(DecimalView { unscaled: n, scale: scale as int }),
            },
    {
        let rendered = text.as_str();
        proof {
            lemma_int_text(n);
            assert(is_ascii_chars(rendered@));
            is_ascii_spec_bytes(rendered);
        }
        let bytes = rendered.as_bytes();
        let len = bytes.len();
        let signed = bytes[0] as char == '-';
        let digits = if signed { len - 1 } else { len };
        assert(signed == (n < 0));
        assert(digits == digit_count(n));
        if digits <= MAX_DIGITS && -MAX_SCALE <= scale && scale <= MAX_SCALE {
            Some(Decimal { text, scale })
        } else {
            None
        }
    }

    /// Reads a run of digits and decimal points as a decimal.
    fn from_literal_run(s: &str) -> (r: Option<Decimal>)
        requires
            is_literal_run(s@),
        ensures
            optional_view(r) == literal_decimal(s@),
    {
        match literal_parts(s) {
            Some((text, scale)) => Decimal::from_parts(
                text,
                scale,
                Ghost(literal_value(s@).unwrap().unscaled),
            ),
            None => None,
        }
    }

    /// Reads a number literal: digits with at most one decimal point among
    /// them. Any other text is no literal.
    pub fn from_literal(s: &str) -> (r: Option<Decimal>)
        ensures
            optional_view(r) == literal_decimal(s@),
    {
        if !s.is_ascii() {
            proof {
                if is_literal_run(s@) {
                    assert forall|i: int| 0 <= i < s@.len() implies '\0' <= #[trigger] s@[i]
                        <= '\u{7f}' by {
                        assert(is_literal_char(s@[i]));
                    }
                }
            }
            return None;
        }
        let bytes = s.as_bytes();
        proof {
            is_ascii_spec_bytes(s);
        }
        let len = bytes.len();
        if len == 0 {
            return None;
        }
        let mut i: usize = 0;
        while i < len
            invariant
                i <= len,
                len == s@.len(),
                is_ascii_chars(s@),
                bytes@ == Seq::new(s@.len(), |k: int| s@[k] as u8),
                forall|k: int| 0 <= k < i ==> is_literal_char(#[trigger] s@[k]),
            decreases len - i,
        {
            let c = bytes[i] as char;
            if !matches!(c, '0'..='9' | '.') {
                assert(!is_literal_char(s@[i as int]));
                return None;
            }
            i += 1;
        }
        Decimal::from_literal_run(s)
    }

    /// The scale: the number of digits behind the decimal point.
    pub fn scale(&self) -> (r: i64)
        ensures
            r == self@.scale,
    {
        self.scale
    }

    /// The unscaled integer as decimal text, with a leading `-` if it is
    /// negative.
    pub fn unscaled_text(&self) -> (r: &str)
        ensures
            r@ == int_text(self@.unscaled),
    {
        proof {
            use_type_invariant(self);
        }
        self.text.as_str()
    }

    /// Whether the decimal is zero.
    pub fn is_zero(&self) -> (r: bool)
        ensures
            r == (self@.unscaled == 0),
    {
        let rendered = self.text.as_str();
        proof {
            use_type_invariant(self);
            lemma_int_text(self@.unscaled);
            assert(is_ascii_chars(rendered@));
            is_ascii_spec_bytes(rendered);
            assert(int_text(0) =~= seq!['0']);
        }
        let bytes = rendered.as_bytes();
        let r = bytes.len() == 1 && bytes[0] as char == '0';
        proof {
            if r {
                assert(rendered@ =~= seq!['0']);
                assert(rendered@.drop_last() =~= Seq::<char>::empty());
                assert(text_nat(rendered@.drop_last()) == 0);
                assert(text_nat(rendered@) == 0);
            } else if self@.unscaled == 0 {
                assert(rendered@ == seq!['0']);
                assert(bytes@[0] as char == '0');
            }
        }
        r
    }

    /// The sum, if it is within the limits.
    pub fn checked_add(&self, other: &Decimal) -> (r: Option<Decimal>)
        ensures
            optional_view(r) == limited(decimal_sum(self@, other@)),
    {
        proof {
            use_type_invariant(self);
            use_type_invariant(other);
        }
        let (text, scale) = sum_parts(self, other);
        Decimal::from_parts(text, scale, Ghost(decimal_sum(self@, other@).unscaled))
    }

    /// The difference, if it is within the limits.
    pub fn checked_sub(&self, other: &Decimal) -> (r: Option<Decimal>)
        ensures
            optional_view(r) == limited(decimal_difference(self@, other@)),
    {
        proof {
            use_type_invariant(self);
            use_type_invariant(other);
        }
        let (text, scale) = difference_parts(self, other);
        Decimal::from_parts(text, scale, Ghost(decimal_difference(self@, other@).unscaled))
    }

    /// The product, if it is within the limits.
    pub fn checked_mul(&self, other: &Decimal) -> (r: Option<Decimal>)
        ensures
            optional_view(r) == limited(decimal_product(self@, other@)),
    {
        proof {
            use_type_invariant(self);
            use_type_invariant(other);
        }
        let (text, scale) = product_parts(self, other);
        Decimal::from_parts(text, scale, Ghost(decimal_product(self@, other@).unscaled))
    }

    /// The quotient, if the divisor is not zero and the quotient is within
    /// the limits.
    pub fn checked_div(&self, other: &Decimal) -> (r: Option<Decimal>)
        ensures
            optional_view(r) == (if other@.unscaled == 0 {
                None
            } else {
                limited(decimal_quotient(self@, other@))
            }),
    {
        if other.is_zero() {
            return None;
        }
        proof {
            use_type_invariant(self);
            use_type_invariant(other);
        }
        let (text, scale) = quotient_parts(self, other);
        Decimal::from_parts(text, scale, Ghost(decimal_quotient(self@, other@).unscaled))
    }

    /// The negation.
    pub fn negated(&self) -> (r: Decimal)
        ensures
            r@ == decimal_negation(self@),
    {
        proof {
            use_type_invariant(self);
        }
        let (text, scale) = negation_parts(self);
        let r = Decimal::from_parts(text, scale, Ghost(decimal_negation(self@).unscaled));
        assert(r is Some) by {
            let n = self@.unscaled;
            assert(digit_count(-n) == digit_count(n));
        }
        r.unwrap()
    }
}

impl Clone for Decimal {
    fn clone(&self) -> (r: Self)
        ensures
            r@ == self@,
    {
        proof {
            use_type_invariant(self);
        }
        Decimal { text: self.text.clone(), scale: self.scale }
    }
}

} // verus!
