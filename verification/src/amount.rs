//! Decimal amounts: a signed 96-bit mantissa and a scale of at most 28.
//!
//! The arithmetic, comparison, printing and parsing are done by
//! `rust_decimal`; this module states what those calls return.

use vstd::prelude::*;
use rust_decimal::Decimal;
use std::cmp::Ordering;
use crate::text::{digits, repeat_char, zero_pad_left};

verus! {

/// Largest mantissa magnitude that a decimal can hold: 2^96 - 1.
pub const MAX_MANTISSA: i128 = 0xFFFF_FFFF_FFFF_FFFF_FFFF_FFFFi128;

/// Largest number of digits after the decimal point.
pub const MAX_SCALE: u32 = 28;

/// 10 to the power `n`.
pub open spec fn pow10(n: nat) -> nat
    decreases n,
{
    if n == 0 {
        1
    } else {
        10 * pow10((n - 1) as nat)
    }
}

/// A decimal number `mantissa / 10^scale`.
#[derive(Clone, Copy)]
pub struct Amount {
    mantissa: i128,
    scale: u32,
}

/// Whether a mantissa and a scale make a decimal that `rust_decimal` can hold.
pub open spec fn valid_parts(mantissa: int, scale: int) -> bool {
    -MAX_MANTISSA <= mantissa <= MAX_MANTISSA && 0 <= scale <= MAX_SCALE
}

impl Amount {
    #[verifier::type_invariant]
    closed spec fn inv(self) -> bool {
        valid_parts(self.mantissa as int, self.scale as int)
    }

    /// The mantissa, as a mathematical integer.
    pub closed spec fn m(self) -> int {
        self.mantissa as int
    }

    /// The scale, as a mathematical integer.
    pub closed spec fn s(self) -> int {
        self.scale as int
    }

    /// The (mantissa, scale) pair.
    pub open spec fn pair(self) -> (int, int) {
        (self.m(), self.s())
    }

    /// The value in units of 10^-28.
    pub open spec fn units(self) -> int {
        units_of(self.pair())
    }

    /// The amount zero with scale zero (`Decimal::ZERO`).
    pub fn zero() -> (r: Amount)
        ensures
            r.pair() == (0int, 0int),
    {
        Amount { mantissa: 0, scale: 0 }
    }

    /// One hundred (`dec!(100)`): mantissa 100, scale 0.
    pub fn hundred() -> (r: Amount)
        ensures
            r.pair() == (100int, 0int),
    {
        Amount { mantissa: 100, scale: 0 }
    }

    /// Builds `mantissa / 10^scale`; `None` where the parts are out of range.
    pub fn new(mantissa: i128, scale: u32) -> (r: Option<Amount>)
        ensures
            r is Some <==> valid_parts(mantissa as int, scale as int),
            r matches Some(a) ==> a.pair() == (mantissa as int, scale as int),
    {
        if scale <= MAX_SCALE && -MAX_MANTISSA <= mantissa && mantissa <= MAX_MANTISSA {
            Some(Amount { mantissa, scale })
        } else {
            None
        }
    }

    /// The mantissa.
    pub fn mantissa(&self) -> (r: i128)
        ensures
            r as int == self.m(),
            -MAX_MANTISSA <= r <= MAX_MANTISSA,
    {
        proof {
            use_type_invariant(self);
        }
        self.mantissa
    }

    /// The scale.
    pub fn scale(&self) -> (r: u32)
        ensures
            r as int == self.s(),
            r <= MAX_SCALE,
    {
        proof {
            use_type_invariant(self);
        }
        self.scale
    }

    /// Whether the amount is zero (`Decimal::is_zero`).
    pub fn is_zero(&self) -> (r: bool)
        ensures
            r <==> self.m() == 0,
    {
        self.mantissa == 0
    }
}

/// A scale is never negative.
pub proof fn lemma_scale_nonnegative(a: Amount)
    ensures
        0 <= a.s(),
{
}

/// The value of a (mantissa, scale) pair in units of 10^-28.
pub open spec fn units_of(d: (int, int)) -> int {
    d.0 * pow10((28 - d.1) as nat)
}

/// A mathematical integer's absolute value.
pub open spec fn abs(x: int) -> int {
    if x < 0 {
        -x
    } else {
        x
    }
}

/// The larger of two integers.
pub open spec fn max(x: int, y: int) -> int {
    if x < y {
        y
    } else {
        x
    }
}

/// The mantissa of `d` written at the (larger or equal) scale `scale`.
pub open spec fn aligned(d: (int, int), scale: int) -> int {
    d.0 * pow10((scale - d.1) as nat)
}

/// The exact sum of two decimals as `rust_decimal` writes it: a zero operand
/// gives back the other operand unchanged, otherwise the sum is taken at the
/// larger of the two scales.
pub open spec fn exact_sum(a: (int, int), b: (int, int)) -> (int, int) {
    if a.0 == 0 {
        b
    } else if b.0 == 0 {
        a
    } else {
        let s = max(a.1, b.1);
        (aligned(a, s) + aligned(b, s), s)
    }
}

/// The exact difference of two decimals as `rust_decimal` writes it.
pub open spec fn exact_difference(a: (int, int), b: (int, int)) -> (int, int) {
    if a.0 == 0 {
        (-b.0, b.1)
    } else if b.0 == 0 {
        a
    } else {
        let s = max(a.1, b.1);
        (aligned(a, s) - aligned(b, s), s)
    }
}

/// Whether the sum needs no rounding: its exact mantissa fits in 96 bits.
pub open spec fn sum_is_exact(a: (int, int), b: (int, int)) -> bool {
    abs(exact_sum(a, b).0) <= MAX_MANTISSA
}

/// Whether the difference needs no rounding.
pub open spec fn difference_is_exact(a: (int, int), b: (int, int)) -> bool {
    abs(exact_difference(a, b).0) <= MAX_MANTISSA
}

/// What `Decimal::checked_add` returns, as (mantissa, scale), where the sum
/// needs rounding or overflows.
pub uninterp spec fn decimal_checked_add(am: int, ascale: int, bm: int, bscale: int) -> Option<(int, int)>;

/// What `Decimal::checked_sub` returns, as (mantissa, scale), where the
/// difference needs rounding or overflows.
pub uninterp spec fn decimal_checked_sub(am: int, ascale: int, bm: int, bscale: int) -> Option<(int, int)>;

/// The result of adding two decimals (`None`: the addition overflows).
pub open spec fn add_parts(a: (int, int), b: (int, int)) -> Option<(int, int)> {
    if sum_is_exact(a, b) {
        Some(exact_sum(a, b))
    } else {
        decimal_checked_add(a.0, a.1, b.0, b.1)
    }
}

/// The result of subtracting two decimals (`None`: the subtraction overflows).
pub open spec fn sub_parts(a: (int, int), b: (int, int)) -> Option<(int, int)> {
    if difference_is_exact(a, b) {
        Some(exact_difference(a, b))
    } else {
        decimal_checked_sub(a.0, a.1, b.0, b.1)
    }
}

/// The (mantissa, scale) pair of an optional amount.
pub open spec fn opt_pair(a: Option<Amount>) -> Option<(int, int)> {
    match a {
        Some(x) => Some(x.pair()),
        None => None,
    }
}

/// `Decimal::checked_add`. Claims: where one operand is zero the result is the
/// other operand; where the exact sum at the larger scale fits in 96 bits the
/// result is that sum; otherwise the result is `decimal_checked_add` of the
/// operands (rounded to a smaller scale, or `None` on overflow), which is not
/// described further.
#[verifier::external_body]
pub(crate) fn checked_add(a: &Amount, b: &Amount) -> (r: Option<Amount>)
    ensures
        opt_pair(r) == (if sum_is_exact(a.pair(), b.pair()) {
            Some(exact_sum(a.pair(), b.pair()))
        } else {
            decimal_checked_add(a.m(), a.s(), b.m(), b.s())
        }),
{
    let x = Decimal::from_i128_with_scale(a.mantissa, a.scale);
    let y = Decimal::from_i128_with_scale(b.mantissa, b.scale);
    match x.checked_add(y) {
        Some(d) => Some(Amount { mantissa: d.mantissa(), scale: d.scale() }),
        None => None,
    }
}

/// `Decimal::checked_sub`. Claims: `0 - b` is `b` negated, `a - 0` is `a`;
/// where the exact difference at the larger scale fits in 96 bits the result is
/// that difference; otherwise the result is `decimal_checked_sub` of the
/// operands, which is not described further.
#[verifier::external_body]
pub(crate) fn checked_sub(a: &Amount, b: &Amount) -> (r: Option<Amount>)
    ensures
        opt_pair(r) == (if difference_is_exact(a.pair(), b.pair()) {
            Some(exact_difference(a.pair(), b.pair()))
        } else {
            decimal_checked_sub(a.m(), a.s(), b.m(), b.s())
        }),
{
    let x = Decimal::from_i128_with_scale(a.mantissa, a.scale);
    let y = Decimal::from_i128_with_scale(b.mantissa, b.scale);
    match x.checked_sub(y) {
        Some(d) => Some(Amount { mantissa: d.mantissa(), scale: d.scale() }),
        None => None,
    }
}

/// What `Decimal::checked_div` returns, as (mantissa, scale).
pub uninterp spec fn decimal_checked_div(am: int, ascale: int, bm: int, bscale: int) -> Option<(int, int)>;

/// What `Decimal::checked_mul` returns, as (mantissa, scale).
pub uninterp spec fn decimal_checked_mul(am: int, ascale: int, bm: int, bscale: int) -> Option<(int, int)>;

/// `Decimal::checked_div`. Claims: the result is `decimal_checked_div` of the
/// operands; dividing by zero gives `None`, and zero divided by another
/// number gives zero with scale zero; a number divided by one at least as
/// large in magnitude gives a result, of magnitude at most one (the
/// quotient is then at most one, so the working scale never goes below
/// zero, and rounding it keeps it at most one).
#[verifier::external_body]
pub(crate) fn checked_div(a: &Amount, b: &Amount) -> (r: Option<Amount>)
    ensures
        opt_pair(r) == decimal_checked_div(a.m(), a.s(), b.m(), b.s()),
        b.m() == 0 ==> r is None,
        b.m() != 0 && a.m() == 0 ==> opt_pair(r) == Some((0int, 0int)),
        b.m() != 0 && abs(a.units()) <= abs(b.units()) ==> r is Some && abs(r.unwrap().units()) <= pow10(28),
{
    let x = Decimal::from_i128_with_scale(a.mantissa, a.scale);
    let y = Decimal::from_i128_with_scale(b.mantissa, b.scale);
    match x.checked_div(y) {
        Some(d) => Some(Amount { mantissa: d.mantissa(), scale: d.scale() }),
        None => None,
    }
}

/// `Decimal::checked_mul`. Claims: the result is `decimal_checked_mul` of the
/// operands; a zero operand gives zero with scale zero; where neither is
/// zero, the scales add up to at most 28 and the product of the mantissas
/// fits in 96 bits, the result is that product at that scale; and where the
/// product's value is below 10^27 (its integer part then fits in 96 bits
/// after any rounding), there is a result.
#[verifier::external_body]
pub(crate) fn checked_mul(a: &Amount, b: &Amount) -> (r: Option<Amount>)
    ensures
        opt_pair(r) == decimal_checked_mul(a.m(), a.s(), b.m(), b.s()),
        a.m() == 0 || b.m() == 0 ==> opt_pair(r) == Some((0int, 0int)),
        a.m() != 0 && b.m() != 0 && a.s() + b.s() <= MAX_SCALE && abs(a.m() * b.m()) <= MAX_MANTISSA ==> opt_pair(
            r,
        ) == Some((a.m() * b.m(), a.s() + b.s())),
        abs(a.units() * b.units()) < pow10(83) ==> r is Some,
{
    let x = Decimal::from_i128_with_scale(a.mantissa, a.scale);
    let y = Decimal::from_i128_with_scale(b.mantissa, b.scale);
    match x.checked_mul(y) {
        Some(d) => Some(Amount { mantissa: d.mantissa(), scale: d.scale() }),
        None => None,
    }
}

/// `Ord::cmp` on `Decimal`. Claims: it orders two decimals by their values.
#[verifier::external_body]
pub(crate) fn compare_amounts(a: &Amount, b: &Amount) -> (r: Ordering)
    ensures
        (r == Ordering::Less) <==> a.units() < b.units(),
        (r == Ordering::Equal) <==> a.units() == b.units(),
        (r == Ordering::Greater) <==> a.units() > b.units(),
{
    let x = Decimal::from_i128_with_scale(a.mantissa, a.scale);
    let y = Decimal::from_i128_with_scale(b.mantissa, b.scale);
    x.cmp(&y)
}

/// The text that `Decimal`'s `Display` writes for mantissa `m` and scale
/// `scale`: the digits of the mantissa, padded with zeros to at least
/// `scale` digits, with a point before the last `scale` of them (and a `0`
/// before the point when nothing stands there); with a precision, the digits
/// after the point are cut to, or padded with zeros to, that many; a `-` for a
/// negative value, a `+` for another one when `plus` is asked.
pub open spec fn decimal_display(m: int, scale: int, precision: Option<nat>, plus: bool) -> Seq<char> {
    let d = zero_pad_left(digits(abs(m) as nat), scale as nat);
    let whole = d.len() - scale;
    let prec: nat = match precision {
        Some(p) => p,
        None => scale as nat,
    };
    let frac = d.subrange(whole, d.len() as int);
    let frac_shown = if prec <= frac.len() {
        frac.take(prec as int)
    } else {
        frac + repeat_char('0', (prec - frac.len()) as nat)
    };
    let body = if whole + prec == 0 {
        seq!['0']
    } else {
        (if whole == 0 {
            seq!['0']
        } else {
            d.take(whole)
        }) + (if prec > 0 {
            seq!['.'] + frac_shown
        } else {
            Seq::empty()
        })
    };
    let sign = if m < 0 {
        seq!['-']
    } else if plus {
        seq!['+']
    } else {
        Seq::empty()
    };
    sign + body
}

/// `Display` of `Decimal` (`to_string`). Claims: the text is
/// `decimal_display` with no precision.
#[verifier::external_body]
pub(crate) fn amount_text(a: &Amount) -> (r: String)
    ensures
        r@ == decimal_display(a.m(), a.s(), None, false),
{
    Decimal::from_i128_with_scale(a.mantissa, a.scale).to_string()
}

/// `Display` of `Decimal` with two digits after the point (`{:.2}`).
/// Claims: the text is `decimal_display` with precision 2.
#[verifier::external_body]
pub(crate) fn amount_text_2dp(a: &Amount) -> (r: String)
    ensures
        r@ == decimal_display(a.m(), a.s(), Some(2), false),
{
    format!("{:.2}", Decimal::from_i128_with_scale(a.mantissa, a.scale))
}

/// `Display` of `Decimal` with a sign and two digits after the point
/// (`{:+.2}`). Claims: the text is `decimal_display` with precision 2 and an
/// explicit `+`.
#[verifier::external_body]
pub(crate) fn amount_text_signed_2dp(a: &Amount) -> (r: String)
    ensures
        r@ == decimal_display(a.m(), a.s(), Some(2), true),
{
    format!("{:+.2}", Decimal::from_i128_with_scale(a.mantissa, a.scale))
}

/// What `Decimal::from_str` returns: (mantissa, scale), or the text of the
/// error.
pub uninterp spec fn decimal_from_str(s: Seq<char>) -> Result<(int, int), Seq<char>>;

/// The (mantissa, scale) of a parse result.
pub open spec fn parsed_amount_view(r: Result<Amount, String>) -> Result<(int, int), Seq<char>> {
    match r {
        Ok(a) => Ok(a.pair()),
        Err(e) => Err(e@),
    }
}

/// A successful parse of (m, scale).
pub open spec fn parsed_parts(m: int, scale: int) -> Result<(int, int), Seq<char>> {
    Ok((m, scale))
}

/// `Decimal::from_str`, with the error turned into its text. Claims: the
/// result is `decimal_from_str(s)`, and the text that `Display` writes for a
/// decimal parses back to that decimal.
#[verifier::external_body]
pub(crate) fn parse_amount(s: &str) -> (r: Result<Amount, String>)
    ensures
        parsed_amount_view(r) == decimal_from_str(s@),
        forall|m: int, scale: int|
            valid_parts(m, scale) && s@ == #[trigger] decimal_display(m, scale, None, false)
                ==> parsed_amount_view(r) == parsed_parts(m, scale),
{
    match <Decimal as std::str::FromStr>::from_str(s) {
        Ok(d) => Ok(Amount { mantissa: d.mantissa(), scale: d.scale() }),
        Err(e) => Err(e.to_string()),
    }
}

/// How one amount compares with another by value.
#[derive(Clone, Copy, PartialEq, Eq, Structural, Debug)]
pub enum AmountOrder {
    Less,
    Equal,
    Greater,
}

/// Compares two amounts by value (`Decimal::cmp`).
pub fn order_amounts(a: &Amount, b: &Amount) -> (r: AmountOrder)
    ensures
        (r == AmountOrder::Less) <==> a.units() < b.units(),
        (r == AmountOrder::Equal) <==> a.units() == b.units(),
        (r == AmountOrder::Greater) <==> a.units() > b.units(),
{
    match compare_amounts(a, b) {
        Ordering::Less => AmountOrder::Less,
        Ordering::Equal => AmountOrder::Equal,
        Ordering::Greater => AmountOrder::Greater,
    }
}

} // verus!
