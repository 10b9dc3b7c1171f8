//! Arbitrary-precision decimal scalars.
//!
//! A [`Decimal`] is a signed decimal significand, a power-of-ten exponent and
//! a precision (the number of significant digits that arithmetic keeps, `0`
//! meaning "unlimited"). The digits are held as plain data so that contracts
//! can speak about them; the arithmetic itself is performed by `dashu-float`,
//! reached through the private `raw_*` functions of this module, whose
//! contracts are trusted rather than proved.
//!
//! Arithmetic never panics: an operation whose result cannot be held (an
//! exponent or digit count beyond the limits below, a division by zero, a
//! root of a negative number) returns `None`.

use vstd::prelude::*;
use vstd::arithmetic::power::pow;
use vstd::string::StringSliceAdditionalSpecFns;
use dashu_base::Sign;
use dashu_float::round::mode::HalfAway;
use dashu_float::{Context, FBig, Repr};
use dashu_int::{IBig, UBig};

verus! {

/// Largest magnitude of an exponent that a [`Decimal`] may carry.
pub const EXPONENT_LIMIT: isize = 1_000_000;

/// Largest precision, and largest number of stored digits, of a [`Decimal`].
pub const PRECISION_LIMIT: usize = 1_000_000;

/// The number `significand * 10^exponent`.
///
/// A zero significand with exponent `-1` denotes negative zero; it compares
/// equal to zero.
pub struct Scaled {
    pub significand: int,
    pub exponent: int,
}

/// Mathematical model of a [`Decimal`]: a scaled integer and the precision
/// that arithmetic on it keeps.
pub struct DecimalModel {
    pub significand: int,
    pub exponent: int,
    pub precision: nat,
}

/// Value of a most-significant-first sequence of decimal digits.
pub open spec fn digits_value(d: Seq<u64>) -> nat
    decreases d.len(),
{
    if d.len() == 0 {
        0
    } else {
        digits_value(d.drop_last()) * 10 + d.last() as nat
    }
}

/// Number of decimal digits of `n`; zero has one digit.
pub open spec fn digit_count(n: nat) -> nat
    decreases n,
{
    if n < 10 {
        1
    } else {
        1 + digit_count(n / 10)
    }
}

/// `n` without its trailing zeros.
pub open spec fn stripped(n: nat) -> nat
    decreases n,
{
    if n != 0 && n % 10 == 0 {
        stripped(n / 10)
    } else {
        n
    }
}

/// Number of trailing zeros of `n`; zero has none.
pub open spec fn trailing_zeros(n: nat) -> nat
    decreases n,
{
    if n != 0 && n % 10 == 0 {
        1 + trailing_zeros(n / 10)
    } else {
        0
    }
}

/// Whether `p` is one of 1, 10, 100 and so on.
pub open spec fn power_of_ten(p: nat) -> bool
    decreases p,
{
    p == 1 || (p >= 10 && p % 10 == 0 && power_of_ten(p / 10))
}

/// A non-empty digit sequence without a leading zero.
pub open spec fn leading_digits(d: Seq<u64>) -> bool {
    &&& d.len() >= 1
    &&& forall|i: int| 0 <= i < d.len() ==> d[i] <= 9
    &&& (d.len() > 1 ==> d[0] != 0)
}

/// The digit sequences of significands: no leading zero and, the significand
/// being normalized, no trailing zero, except for the single digit `0`.
pub open spec fn canonical_digits(d: Seq<u64>) -> bool {
    &&& leading_digits(d)
    &&& (d.len() > 1 ==> d.last() != 0)
}

/// Signed value of a sign flag and a digit sequence.
pub open spec fn signed_value(negative: bool, d: Seq<u64>) -> int {
    if negative {
        -(digits_value(d) as int)
    } else {
        digits_value(d) as int
    }
}

/// Whether a scaled integer, kept at `precision`, lies within what a
/// [`Decimal`] holds.
pub open spec fn within_limits(s: Scaled, precision: nat) -> bool {
    let count = digit_count(vstd::math::abs(s.significand));
    &&& count <= PRECISION_LIMIT
    &&& precision <= PRECISION_LIMIT
    &&& (precision > 0 ==> count <= precision + 1)
    &&& -EXPONENT_LIMIT <= s.exponent <= EXPONENT_LIMIT
    &&& (s.significand == 0 ==> s.exponent == 0 || s.exponent == -1)
}

/// Whether plain parts make up a [`Decimal`]: canonical digits, no negative
/// sign on zero, and all of it within the limits.
pub open spec fn valid_parts(negative: bool, digits: Seq<u64>, exponent: int, precision: nat) -> bool {
    let zero = digits.len() == 1 && digits[0] == 0;
    &&& canonical_digits(digits)
    &&& !(negative && zero)
    &&& digits.len() <= PRECISION_LIMIT
    &&& precision <= PRECISION_LIMIT
    &&& (precision > 0 ==> digits.len() <= precision + 1)
    &&& -EXPONENT_LIMIT <= exponent <= EXPONENT_LIMIT
    &&& (zero ==> exponent == 0 || exponent == -1)
}

impl Scaled {
    /// The model of `self` kept at `precision`, if it is within limits.
    pub open spec fn accepted(self, precision: nat) -> Option<DecimalModel> {
        if within_limits(self, precision) {
            Some(
                DecimalModel {
                    significand: self.significand,
                    exponent: self.exponent,
                    precision,
                },
            )
        } else {
            None
        }
    }

    /// Whether `self` is zero, of either sign.
    pub open spec fn is_zero(self) -> bool {
        self.significand == 0 && (self.exponent == 0 || self.exponent == -1)
    }

    /// Whether `self` has no more digits than `precision` allows, so that
    /// rounding to that precision leaves it as it is.
    pub open spec fn fits(self, precision: nat) -> bool {
        precision == 0 || digit_count(vstd::math::abs(self.significand)) <= precision
    }

    /// Strict order of the numbers denoted, both brought to the smaller
    /// exponent.
    pub open spec fn less_than(self, rhs: Scaled) -> bool {
        let low = vstd::math::min(self.exponent, rhs.exponent);
        self.significand * pow(10, (self.exponent - low) as nat) < rhs.significand * pow(
            10,
            (rhs.exponent - low) as nat,
        )
    }
}

/// What `Context::add` of `dashu-float` returns for `a + b` at `precision`
/// (base 10, ties away from zero); `None` where it reports an error.
pub uninterp spec fn decimal_sum(a: Scaled, b: Scaled, precision: nat) -> Option<Scaled>;

/// What `Context::sub` returns for `a - b` at `precision`.
pub uninterp spec fn decimal_difference(a: Scaled, b: Scaled, precision: nat) -> Option<Scaled>;

/// What `Context::mul` returns for `a * b` at `precision`.
pub uninterp spec fn decimal_product(a: Scaled, b: Scaled, precision: nat) -> Option<Scaled>;

/// What `Context::div` returns for `a / b` at `precision`.
pub uninterp spec fn decimal_quotient(a: Scaled, b: Scaled, precision: nat) -> Option<Scaled>;

/// What `Context::sqrt` returns for the square root of `a` at `precision`.
pub uninterp spec fn decimal_root(a: Scaled, precision: nat) -> Option<Scaled>;

/// What `FBig::fract` returns for the fractional part of `a`, together with
/// the precision it gives the result.
pub uninterp spec fn decimal_fraction(a: DecimalModel) -> DecimalModel;

/// What `FBig::from_str` returns for a decimal text; `None` where it rejects
/// the text.
pub uninterp spec fn decimal_parsed(text: Seq<char>) -> Option<DecimalModel>;

/// The text that `Repr`'s `Display` writes for a number.
pub uninterp spec fn decimal_text(a: Scaled) -> Seq<char>;

/// Whether a result is there and is zero, of either sign.
pub open spec fn is_zero_result(r: Option<Scaled>) -> bool {
    match r {
        Some(s) => s.is_zero(),
        None => false,
    }
}

/// What the sum is where an operand is zero: zero for two zeros, else the
/// other operand, if that needs no rounding.
pub open spec fn sum_with_zero(a: Scaled, b: Scaled, precision: nat, r: Option<Scaled>) -> bool {
    &&& a.significand == 0 && b.significand == 0 ==> is_zero_result(r)
    &&& a.significand == 0 && b.significand != 0 && b.fits(precision) ==> r == Some(b)
    &&& b.significand == 0 && a.significand != 0 && a.fits(precision) ==> r == Some(a)
}

/// What the difference is where the operands are the same (zero), or the
/// second is zero (the first, if that needs no rounding).
pub open spec fn difference_with_zero(a: Scaled, b: Scaled, precision: nat, r: Option<Scaled>)
    -> bool {
    &&& a == b ==> is_zero_result(r)
    &&& a.significand == 0 && b.significand == 0 ==> is_zero_result(r)
    &&& b.significand == 0 && a.significand != 0 && a.fits(precision) ==> r == Some(a)
}

/// The product is zero where an operand is zero, and only there.
pub open spec fn product_with_zero(a: Scaled, b: Scaled, r: Option<Scaled>) -> bool {
    &&& a.significand == 0 || b.significand == 0 ==> is_zero_result(r)
    &&& r matches Some(s) ==> (s.significand == 0 ==> a.significand == 0 || b.significand == 0)
}

/// Zero divided by another number than zero is zero.
pub open spec fn quotient_of_zero(a: Scaled, b: Scaled, r: Option<Scaled>) -> bool {
    a.significand == 0 && b.significand != 0 ==> is_zero_result(r)
}

/// The same facts about a result that has been taken in as a `Decimal`: it
/// is there, and zero or the same number as the operand `same`.
pub open spec fn kept(r: Option<DecimalModel>, same: Scaled) -> bool {
    match r {
        Some(v) => v.scaled() == same,
        None => false,
    }
}

pub open spec fn kept_zero(r: Option<DecimalModel>) -> bool {
    match r {
        Some(v) => v.significand == 0,
        None => false,
    }
}

impl DecimalModel {
    /// Zero, of unlimited precision.
    pub open spec fn zero() -> DecimalModel {
        DecimalModel { significand: 0, exponent: 0, precision: 0 }
    }

    /// One, of unlimited precision.
    pub open spec fn one() -> DecimalModel {
        DecimalModel { significand: 1, exponent: 0, precision: 0 }
    }

    /// The integer `n`, normalized and of unlimited precision.
    pub open spec fn integer(n: nat) -> DecimalModel {
        DecimalModel {
            significand: stripped(n) as int,
            exponent: trailing_zeros(n) as int,
            precision: 0,
        }
    }

    pub open spec fn scaled(self) -> Scaled {
        Scaled { significand: self.significand, exponent: self.exponent }
    }

    /// Precision of a binary operation: the larger of the operands'.
    pub open spec fn joint_precision(self, rhs: DecimalModel) -> nat {
        if self.precision >= rhs.precision {
            self.precision
        } else {
            rhs.precision
        }
    }

    pub open spec fn is_zero(self) -> bool {
        self.significand == 0
    }

    pub open spec fn less_than(self, rhs: DecimalModel) -> bool {
        self.scaled().less_than(rhs.scaled())
    }

    pub open spec fn negated(self) -> DecimalModel {
        if self.significand == 0 {
            DecimalModel { exponent: if self.exponent == 0 { -1 } else { 0 }, ..self }
        } else {
            DecimalModel { significand: -self.significand, ..self }
        }
    }

    pub open spec fn plus(self, rhs: DecimalModel) -> Option<DecimalModel> {
        let p = self.joint_precision(rhs);
        match decimal_sum(self.scaled(), rhs.scaled(), p) {
            Some(s) => s.accepted(p),
            None => None,
        }
    }

    pub open spec fn minus(self, rhs: DecimalModel) -> Option<DecimalModel> {
        let p = self.joint_precision(rhs);
        match decimal_difference(self.scaled(), rhs.scaled(), p) {
            Some(s) => s.accepted(p),
            None => None,
        }
    }

    pub open spec fn times(self, rhs: DecimalModel) -> Option<DecimalModel> {
        let p = self.joint_precision(rhs);
        match decimal_product(self.scaled(), rhs.scaled(), p) {
            Some(s) => s.accepted(p),
            None => None,
        }
    }

    /// Division needs a limited precision: with both operands unlimited
    /// there is no quotient.
    pub open spec fn over(self, rhs: DecimalModel) -> Option<DecimalModel> {
        let p = self.joint_precision(rhs);
        if p == 0 {
            None
        } else {
            match decimal_quotient(self.scaled(), rhs.scaled(), p) {
                Some(s) => s.accepted(p),
                None => None,
            }
        }
    }

    /// The square root: of zero that zero, else the root rounded to the
    /// precision, which must be limited.
    pub open spec fn root(self) -> Option<DecimalModel> {
        if self.significand == 0 {
            Some(self)
        } else if self.precision == 0 {
            None
        } else {
            match decimal_root(self.scaled(), self.precision) {
                Some(s) => s.accepted(self.precision),
                None => None,
            }
        }
    }

    pub open spec fn fraction(self) -> Option<DecimalModel> {
        let f = decimal_fraction(self);
        f.scaled().accepted(f.precision)
    }
}

/// Lifts of the operations to operands that may already be missing.
pub open spec fn opt_plus(a: Option<DecimalModel>, b: Option<DecimalModel>) -> Option<DecimalModel> {
    match (a, b) {
        (Some(x), Some(y)) => x.plus(y),
        _ => None,
    }
}

pub open spec fn opt_minus(a: Option<DecimalModel>, b: Option<DecimalModel>) -> Option<DecimalModel> {
    match (a, b) {
        (Some(x), Some(y)) => x.minus(y),
        _ => None,
    }
}

pub open spec fn opt_times(a: Option<DecimalModel>, b: Option<DecimalModel>) -> Option<DecimalModel> {
    match (a, b) {
        (Some(x), Some(y)) => x.times(y),
        _ => None,
    }
}

pub open spec fn opt_over(a: Option<DecimalModel>, b: Option<DecimalModel>) -> Option<DecimalModel> {
    match (a, b) {
        (Some(x), Some(y)) => x.over(y),
        _ => None,
    }
}

pub open spec fn opt_root(a: Option<DecimalModel>) -> Option<DecimalModel> {
    match a {
        Some(x) => x.root(),
        None => None,
    }
}

/// Longest exponent part, sign included, that a text to be read may have.
pub const EXPONENT_TEXT_LIMIT: usize = 8;

/// Whether a byte is one of the marks `e`, `E` and `@` that set off the
/// exponent in a decimal text.
pub open spec fn is_exponent_mark(b: u8) -> bool {
    b == 101 || b == 69 || b == 64
}

/// Index of the last exponent mark among the bytes of a text.
pub open spec fn last_mark(bytes: Seq<u8>) -> Option<int>
    decreases bytes.len(),
{
    if bytes.len() == 0 {
        None
    } else if is_exponent_mark(bytes.last()) {
        Some(bytes.len() - 1)
    } else {
        last_mark(bytes.drop_last())
    }
}

/// Whether what follows the last exponent mark is longer than any exponent
/// within the limits needs to be.
pub open spec fn overlong_exponent(bytes: Seq<u8>) -> bool {
    match last_mark(bytes) {
        Some(i) => bytes.len() - 1 - i > EXPONENT_TEXT_LIMIT,
        None => false,
    }
}

/// The text parsed, where its exponent part is not overlong and it denotes a
/// number within limits.
pub open spec fn parsed(text: &str) -> Option<DecimalModel> {
    if overlong_exponent(text.spec_bytes()) {
        None
    } else {
        match decimal_parsed(text@) {
            Some(m) => m.scaled().accepted(m.precision),
            None => None,
        }
    }
}

/// A digit sequence without a leading zero has as many digits as its value,
/// and is zero only as the single digit `0`.
pub proof fn lemma_digit_count(d: Seq<u64>)
    requires
        leading_digits(d),
    ensures
        digit_count(digits_value(d)) == d.len(),
        digits_value(d) == 0 <==> (d.len() == 1 && d[0] == 0),
    decreases d.len(),
{
    let front = d.drop_last();
    if d.len() == 1 {
        assert(front.len() == 0);
        assert(digits_value(front) == 0);
        assert(digits_value(d) == d[0] as nat);
    } else {
        assert(leading_digits(front)) by {
            assert(forall|i: int| 0 <= i < front.len() ==> front[i] == d[i]);
        }
        lemma_digit_count(front);
        assert(front[0] == d[0]);
        let v = digits_value(front);
        assert(v >= 1);
        let w = digits_value(d);
        assert(w == v * 10 + d.last() as nat);
        assert(w / 10 == v);
    }
}

/// A number of 64 bits has at most twenty digits.
pub proof fn lemma_digit_count_u64(n: u64)
    ensures
        digit_count(n as nat) <= 20,
{
    reveal_with_fuel(digit_count, 21);
}

/// On canonical digits the limits on the parts are the limits on the value.
pub proof fn lemma_valid_parts(negative: bool, digits: Seq<u64>, exponent: int, precision: nat)
    requires
        canonical_digits(digits),
        !(negative && digits.len() == 1 && digits[0] == 0),
    ensures
        valid_parts(negative, digits, exponent, precision) <==> within_limits(
            Scaled { significand: signed_value(negative, digits), exponent },
            precision,
        ),
{
    lemma_digit_count(digits);
}

/// Plain parts of a number handed back by the arithmetic back end, before
/// they are accepted as a [`Decimal`].
struct Parts {
    negative: bool,
    digits: Vec<u64>,
    exponent: isize,
}

impl Parts {
    /// What every significand of the back end looks like once written out in
    /// digits.
    spec fn canonical(&self) -> bool {
        &&& canonical_digits(self.digits@)
        &&& !(self.negative && self.digits@.len() == 1 && self.digits@[0] == 0)
    }

    spec fn scaled(&self) -> Scaled {
        Scaled {
            significand: signed_value(self.negative, self.digits@),
            exponent: self.exponent as int,
        }
    }
}

spec fn parts_scaled(p: Option<Parts>) -> Option<Scaled> {
    match p {
        Some(p) => Some(p.scaled()),
        None => None,
    }
}

spec fn parts_model(p: Option<(Parts, usize)>) -> Option<DecimalModel> {
    match p {
        Some((p, precision)) => Some(
            DecimalModel {
                significand: p.scaled().significand,
                exponent: p.scaled().exponent,
                precision: precision as nat,
            },
        ),
        None => None,
    }
}

/// An arbitrary-precision decimal number.
#[derive(Debug)]
pub struct Decimal {
    negative: bool,
    digits: Vec<u64>,
    exponent: isize,
    precision: usize,
}

impl View for Decimal {
    type V = DecimalModel;

    closed spec fn view(&self) -> DecimalModel {
        DecimalModel {
            significand: signed_value(self.negative, self.digits@),
            exponent: self.exponent as int,
            precision: self.precision as nat,
        }
    }
}

/// Calls `Context::add` of `dashu-float` (base 10, rounding mode `HalfAway`)
/// on the two operands under a context of the given precision. The operands
/// are finite and within the limits of this module by the invariant of
/// [`Decimal`], which keeps the exponents that `dashu-float` computes with far
/// from the ends of `isize`. The digits
/// pass through `UBig::from_digits` and `UBig::to_digits`, which are inverse
/// to each other and write zero as the single digit `0`; a `Repr` is always
/// normalized. So the parts returned are canonical and denote the named sum
/// of the operands' values. Where an operand is zero, `Context::add` returns
/// the other operand rounded to the precision, which leaves it as it is if
/// it has no more digits than that; two zeros give a zero.
#[verifier::external_body]
fn raw_add(a: &Decimal, b: &Decimal, precision: usize) -> (r: Option<Parts>)
    ensures
        parts_scaled(r) == decimal_sum(a@.scaled(), b@.scaled(), precision as nat),
        sum_with_zero(a@.scaled(), b@.scaled(), precision as nat, parts_scaled(r)),
        r matches Some(p) ==> p.canonical(),
{
    let x = Repr::<10>::new(IBig::from_parts(Sign::from(a.negative), UBig::from_digits(10, &a.digits).unwrap()), a.exponent);
    let y = Repr::<10>::new(IBig::from_parts(Sign::from(b.negative), UBig::from_digits(10, &b.digits).unwrap()), b.exponent);
    match Context::<HalfAway>::new(precision).add(&x, &y) {
        Ok(v) => {
            let (i, e) = v.value().into_repr().into_parts();
            let (s, m) = i.into_parts();
            Some(Parts { negative: s.into(), digits: m.to_digits(10), exponent: e })
        },
        Err(_) => None,
    }
}

/// Calls `Context::sub` in the same way; the result is the named difference.
/// Equal operands cancel to a zero; a zero as second operand gives the
/// first operand rounded to the precision.
#[verifier::external_body]
fn raw_sub(a: &Decimal, b: &Decimal, precision: usize) -> (r: Option<Parts>)
    ensures
        parts_scaled(r) == decimal_difference(a@.scaled(), b@.scaled(), precision as nat),
        difference_with_zero(a@.scaled(), b@.scaled(), precision as nat, parts_scaled(r)),
        r matches Some(p) ==> p.canonical(),
{
    let x = Repr::<10>::new(IBig::from_parts(Sign::from(a.negative), UBig::from_digits(10, &a.digits).unwrap()), a.exponent);
    let y = Repr::<10>::new(IBig::from_parts(Sign::from(b.negative), UBig::from_digits(10, &b.digits).unwrap()), b.exponent);
    match Context::<HalfAway>::new(precision).sub(&x, &y) {
        Ok(v) => {
            let (i, e) = v.value().into_repr().into_parts();
            let (s, m) = i.into_parts();
            Some(Parts { negative: s.into(), digits: m.to_digits(10), exponent: e })
        },
        Err(_) => None,
    }
}

/// Calls `Context::mul` in the same way; the result is the named product.
/// `Context::mul` multiplies the significands, adds the exponents and rounds
/// the product, none of which depends on the order of the operands; the
/// product of the significands is zero where one of them is, and rounding
/// makes no other number zero.
#[verifier::external_body]
fn raw_mul(a: &Decimal, b: &Decimal, precision: usize) -> (r: Option<Parts>)
    ensures
        parts_scaled(r) == decimal_product(a@.scaled(), b@.scaled(), precision as nat),
        parts_scaled(r) == decimal_product(b@.scaled(), a@.scaled(), precision as nat),
        product_with_zero(a@.scaled(), b@.scaled(), parts_scaled(r)),
        r matches Some(p) ==> p.canonical(),
{
    let x = Repr::<10>::new(IBig::from_parts(Sign::from(a.negative), UBig::from_digits(10, &a.digits).unwrap()), a.exponent);
    let y = Repr::<10>::new(IBig::from_parts(Sign::from(b.negative), UBig::from_digits(10, &b.digits).unwrap()), b.exponent);
    match Context::<HalfAway>::new(precision).mul(&x, &y) {
        Ok(v) => {
            let (i, e) = v.value().into_repr().into_parts();
            let (s, m) = i.into_parts();
            Some(Parts { negative: s.into(), digits: m.to_digits(10), exponent: e })
        },
        Err(_) => None,
    }
}

/// Calls `Context::div` in the same way; the result is the named quotient.
/// `Context::div` panics under an unlimited precision, which the
/// precondition leaves out. A nonzero number divided by zero comes back as an
/// infinity, written as the digit `0` with an extreme exponent; zero divided
/// by a nonzero number is the exact quotient zero.
#[verifier::external_body]
fn raw_div(a: &Decimal, b: &Decimal, precision: usize) -> (r: Option<Parts>)
    requires
        precision > 0,
    ensures
        parts_scaled(r) == decimal_quotient(a@.scaled(), b@.scaled(), precision as nat),
        quotient_of_zero(a@.scaled(), b@.scaled(), parts_scaled(r)),
        r matches Some(p) ==> p.canonical(),
{
    let x = Repr::<10>::new(IBig::from_parts(Sign::from(a.negative), UBig::from_digits(10, &a.digits).unwrap()), a.exponent);
    let y = Repr::<10>::new(IBig::from_parts(Sign::from(b.negative), UBig::from_digits(10, &b.digits).unwrap()), b.exponent);
    match Context::<HalfAway>::new(precision).div(&x, &y) {
        Ok(v) => {
            let (i, e) = v.value().into_repr().into_parts();
            let (s, m) = i.into_parts();
            Some(Parts { negative: s.into(), digits: m.to_digits(10), exponent: e })
        },
        Err(_) => None,
    }
}

/// Calls `Context::sqrt` in the same way; the result is the named root.
/// `Context::sqrt` panics under an unlimited precision, which the
/// precondition leaves out; a negative operand is an error.
#[verifier::external_body]
fn raw_sqrt(a: &Decimal, precision: usize) -> (r: Option<Parts>)
    requires
        precision > 0,
    ensures
        parts_scaled(r) == decimal_root(a@.scaled(), precision as nat),
        r matches Some(p) ==> p.canonical(),
{
    let x = Repr::<10>::new(IBig::from_parts(Sign::from(a.negative), UBig::from_digits(10, &a.digits).unwrap()), a.exponent);
    match Context::<HalfAway>::new(precision).sqrt(&x) {
        Ok(v) => {
            let (i, e) = v.value().into_repr().into_parts();
            let (s, m) = i.into_parts();
            Some(Parts { negative: s.into(), digits: m.to_digits(10), exponent: e })
        },
        Err(_) => None,
    }
}

/// Calls `FBig::fract` on the operand, built by `FBig::from_repr` with its
/// own precision. The result is the named fractional part, with the precision
/// that `fract` chose for it.
#[verifier::external_body]
fn raw_fract(a: &Decimal) -> (r: (Parts, usize))
    ensures
        parts_model(Some(r)) == Some(decimal_fraction(a@)),
        r.0.canonical(),
{
    let x = Repr::<10>::new(IBig::from_parts(Sign::from(a.negative), UBig::from_digits(10, &a.digits).unwrap()), a.exponent);
    let v = FBig::<HalfAway, 10>::from_repr(x, Context::new(a.precision)).fract();
    let p = v.precision();
    let (i, e) = v.into_repr().into_parts();
    let (s, m) = i.into_parts();
    (Parts { negative: s.into(), digits: m.to_digits(10), exponent: e }, p)
}

/// Compares the two operands as `Repr`s with `<`, which `dashu-float`
/// documents as the order of the exact values, the two zeros being equal.
#[verifier::external_body]
fn raw_less(a: &Decimal, b: &Decimal) -> (r: bool)
    ensures
        r == a@.scaled().less_than(b@.scaled()),
{
    let x = Repr::<10>::new(IBig::from_parts(Sign::from(a.negative), UBig::from_digits(10, &a.digits).unwrap()), a.exponent);
    let y = Repr::<10>::new(IBig::from_parts(Sign::from(b.negative), UBig::from_digits(10, &b.digits).unwrap()), b.exponent);
    x < y
}

/// Calls `FBig::from_str` (base 10) on the text. The result is the named
/// parse: the number read and, as precision, the count of digits in the text.
/// `FBig::from_str` takes the digits after the decimal point off the exponent
/// that it has read, which could leave the range of `isize`; the precondition
/// keeps the exponent read to eight characters.
#[verifier::external_body]
fn raw_parse(text: &str) -> (r: Option<(Parts, usize)>)
    requires
        !overlong_exponent(text.spec_bytes()),
    ensures
        parts_model(r) == decimal_parsed(text@),
        r matches Some(p) ==> p.0.canonical(),
{
    match text.parse::<FBig<HalfAway, 10>>() {
        Ok(v) => {
            let p = v.precision();
            let (i, e) = v.into_repr().into_parts();
            let (s, m) = i.into_parts();
            Some((Parts { negative: s.into(), digits: m.to_digits(10), exponent: e }, p))
        },
        Err(_) => None,
    }
}

/// Writes the operand with `Repr`'s `Display`, in positional notation.
#[verifier::external_body]
fn raw_render(a: &Decimal) -> (r: String)
    ensures
        r@ == decimal_text(a@.scaled()),
{
    Repr::<10>::new(IBig::from_parts(Sign::from(a.negative), UBig::from_digits(10, &a.digits).unwrap()), a.exponent).to_string()
}

impl Decimal {
    #[verifier::type_invariant]
    closed spec fn admissible(&self) -> bool {
        valid_parts(
            self.negative,
            self.digits@,
            self.exponent as int,
            self.precision as nat,
        )
    }

    /// Accepts the parts handed back by the back end, if they are within
    /// limits.
    fn accept(parts: Parts, precision: usize) -> (r: Option<Decimal>)
        requires
            parts.canonical(),
        ensures
            r is Some <==> within_limits(parts.scaled(), precision as nat),
            r matches Some(d) ==> d@ == (DecimalModel {
                significand: parts.scaled().significand,
                exponent: parts.scaled().exponent,
                precision: precision as nat,
            }),
    {
        proof {
            lemma_digit_count(parts.digits@);
            lemma_valid_parts(
                parts.negative,
                parts.digits@,
                parts.exponent as int,
                precision as nat,
            );
        }
        let count = parts.digits.len();
        let zero = count == 1 && parts.digits[0] == 0;
        if count <= PRECISION_LIMIT && precision <= PRECISION_LIMIT && (precision == 0 || count
            <= precision + 1) && -EXPONENT_LIMIT <= parts.exponent && parts.exponent
            <= EXPONENT_LIMIT && (!zero || parts.exponent == 0 || parts.exponent == -1) {
            Some(
                Decimal {
                    negative: parts.negative,
                    digits: parts.digits,
                    exponent: parts.exponent,
                    precision,
                },
            )
        } else {
            None
        }
    }

    /// Builds a number from plain parts: a sign, the decimal digits of the
    /// significand (most significant first, each below ten, without leading
    /// or trailing zeros; zero is the single digit `0`), an exponent and a
    /// precision. Returns `None` where the parts are not of that form or
    /// exceed the limits.
    pub fn from_digits(negative: bool, digits: Vec<u64>, exponent: isize, precision: usize) -> (r:
        Option<Decimal>)
        ensures
            r is Some <==> valid_parts(negative, digits@, exponent as int, precision as nat),
            r matches Some(d) ==> d@ == (DecimalModel {
                significand: signed_value(negative, digits@),
                exponent: exponent as int,
                precision: precision as nat,
            }),
    {
        let n = digits.len();
        if n == 0 {
            return None;
        }
        let mut i: usize = 0;
        while i < n
            invariant
                n == digits.len(),
                0 <= i <= n,
                forall|j: int| 0 <= j < i ==> digits[j] <= 9,
            decreases n - i,
        {
            if digits[i] > 9 {
                return None;
            }
            i += 1;
        }
        if n > 1 && (digits[0] == 0 || digits[n - 1] == 0) {
            return None;
        }
        if negative && n == 1 && digits[0] == 0 {
            return None;
        }
        proof {
            lemma_valid_parts(negative, digits@, exponent as int, precision as nat);
        }
        Decimal::accept(Parts { negative, digits, exponent }, precision)
    }

    /// Zero, of unlimited precision.
    pub fn zero() -> (r: Decimal)
        ensures
            r@ == DecimalModel::zero(),
    {
        let digits = vec![0u64];
        proof {
            lemma_digit_count(digits@);
        }
        Decimal { negative: false, digits, exponent: 0, precision: 0 }
    }

    /// One, of unlimited precision.
    pub fn one() -> (r: Decimal)
        ensures
            r@ == DecimalModel::one(),
    {
        let digits = vec![1u64];
        proof {
            lemma_digit_count(digits@);
            assert(digits_value(digits@.drop_last()) == 0);
            assert(digits_value(digits@) == 1);
        }
        Decimal { negative: false, digits, exponent: 0, precision: 0 }
    }

    /// The integer `n`, of unlimited precision.
    pub fn from_u64(n: u64) -> (r: Decimal)
        ensures
            r@ == DecimalModel::integer(n as nat),
    {
        if n == 0 {
            let digits = vec![0u64];
            proof {
                lemma_digit_count(digits@);
            }
            return Decimal { negative: false, digits, exponent: 0, precision: 0 };
        }
        proof {
            lemma_digit_count_u64(n);
        }
        let mut m: u64 = n;
        let mut exponent: isize = 0;
        while m % 10 == 0
            invariant
                1 <= m <= n,
                0 <= exponent,
                stripped(n as nat) == stripped(m as nat),
                trailing_zeros(n as nat) == exponent + trailing_zeros(m as nat),
                digit_count(n as nat) == exponent + digit_count(m as nat),
                digit_count(n as nat) <= 20,
            decreases m,
        {
            m = m / 10;
            exponent = exponent + 1;
        }
        let mut power: u64 = 1;
        while m / power >= 10
            invariant
                1 <= power <= m,
                power_of_ten(power as nat),
            decreases m - power,
        {
            assert(power * 10 <= m) by (nonlinear_arith)
                requires
                    m / power >= 10,
                    power >= 1,
            ;
            power = power * 10;
        }
        assert(m < power * 10) by (nonlinear_arith)
            requires
                m / power < 10,
                power >= 1,
        ;
        let mut digits: Vec<u64> = Vec::new();
        let mut rest: u64 = m;
        let ghost mut scale: int = power * 10;
        assert(digits_value(digits@) == 0);
        assert(digits_value(digits@) * scale == 0) by (nonlinear_arith)
            requires
                digits_value(digits@) == 0,
        ;
        loop
            invariant_except_break
                scale == power * 10,
                rest < scale,
                digits_value(digits@) * scale + rest == m,
                digits.len() == 0 ==> rest == m && power <= m,
            invariant
                1 <= power,
                power_of_ten(power as nat),
                forall|i: int| 0 <= i < digits.len() ==> digits[i] <= 9,
                digits.len() > 0 ==> digits[0] != 0,
            ensures
                digits_value(digits@) == m,
                digits.len() >= 1,
                forall|i: int| 0 <= i < digits.len() ==> digits[i] <= 9,
                digits@[0] != 0,
            decreases power,
        {
            let digit = rest / power;
            let ghost before = digits@;
            assert(digit <= 9 && digit * power + rest % power == rest && (digits.len() == 0
                ==> digit >= 1)) by (nonlinear_arith)
                requires
                    digit == rest / power,
                    1 <= power,
                    rest < power * 10,
                    digits.len() == 0 ==> power <= rest,
            ;
            digits.push(digit);
            assert(digits@.drop_last() =~= before);
            assert(digits_value(digits@) == digits_value(before) * 10 + digit);
            assert(digits_value(digits@) * power + rest % power == m) by (nonlinear_arith)
                requires
                    digits_value(digits@) == digits_value(before) * 10 + digit,
                    digits_value(before) * (power * 10) + rest == m,
                    digit * power + rest % power == rest,
            ;
            rest = rest % power;
            if power == 1 {
                assert(rest == 0);
                assert(digits_value(digits@) == m) by (nonlinear_arith)
                    requires
                        digits_value(digits@) * power + rest == m,
                        power == 1,
                        rest == 0,
                ;
                break ;
            }
            power = power / 10;
            proof {
                scale = power * 10;
            }
        }
        proof {
            lemma_digit_count(digits@);
            assert(digits@.last() != 0) by {
                let front = digits@.drop_last();
                assert(digits_value(digits@) == digits_value(front) * 10 + digits@.last());
            }
        }
        Decimal { negative: false, digits, exponent, precision: 0 }
    }

    /// Whether what follows the last exponent mark of the text is longer
    /// than eight bytes.
    fn has_overlong_exponent(text: &str) -> (r: bool)
        ensures
            r == overlong_exponent(text.spec_bytes()),
    {
        let bytes = text.as_bytes();
        let mut i: usize = bytes.len();
        assert(bytes@.subrange(0, i as int) =~= bytes@);
        while i > 0
            invariant
                0 <= i <= bytes.len(),
                bytes@ == text.spec_bytes(),
                last_mark(bytes@) == last_mark(bytes@.subrange(0, i as int)),
            decreases i,
        {
            let b = bytes[i - 1];
            proof {
                let front = bytes@.subrange(0, i as int);
                assert(front.last() == bytes[i - 1]);
                assert(front.drop_last() =~= bytes@.subrange(0, i - 1));
            }
            if b == 101 || b == 69 || b == 64 {
                return bytes.len() - i > EXPONENT_TEXT_LIMIT;
            }
            i -= 1;
        }
        assert(bytes@.subrange(0, 0).len() == 0);
        false
    }

    /// Reads a number from decimal text such as `-12.5` or `6.02e23`. The
    /// precision of the result is the number of digits written. Returns
    /// `None` for text that is no number, or a number beyond the limits, and
    /// for text whose exponent part is longer than eight characters.
    pub fn from_str(text: &str) -> (r: Option<Decimal>)
        ensures
            decimal_view(r) == parsed(text),
    {
        if Decimal::has_overlong_exponent(text) {
            return None;
        }
        match raw_parse(text) {
            Some((parts, precision)) => Decimal::accept(parts, precision),
            None => None,
        }
    }

    /// The number in positional decimal notation.
    pub fn to_string(&self) -> (r: String)
        ensures
            r@ == decimal_text(self@.scaled()),
    {
        raw_render(self)
    }

    pub fn precision(&self) -> (r: usize)
        ensures
            r == self@.precision,
    {
        self.precision
    }

    pub fn is_zero(&self) -> (r: bool)
        ensures
            r == self@.is_zero(),
    {
        proof {
            use_type_invariant(self);
            lemma_digit_count(self.digits@);
        }
        self.digits.len() == 1 && self.digits[0] == 0
    }

    /// Whether `self` is strictly below `rhs`.
    pub fn lt(&self, rhs: &Decimal) -> (r: bool)
        ensures
            r == self@.less_than(rhs@),
    {
        raw_less(self, rhs)
    }

    /// Whether `self` is strictly above `rhs`.
    pub fn gt(&self, rhs: &Decimal) -> (r: bool)
        ensures
            r == rhs@.less_than(self@),
    {
        raw_less(rhs, self)
    }

    /// The number with its sign changed; zero becomes the zero of the other
    /// sign.
    pub fn neg(&self) -> (r: Decimal)
        ensures
            r@ == self@.negated(),
    {
        proof {
            use_type_invariant(self);
            lemma_digit_count(self.digits@);
        }
        let digits = self.digits.clone();
        assert(digits@ =~= self.digits@);
        if self.is_zero() {
            Decimal {
                negative: false,
                digits,
                exponent: if self.exponent == 0 {
                    -1
                } else {
                    0
                },
                precision: self.precision,
            }
        } else {
            Decimal {
                negative: !self.negative,
                digits,
                exponent: self.exponent,
                precision: self.precision,
            }
        }
    }

    fn joint_precision(&self, rhs: &Decimal) -> (r: usize)
        ensures
            r == self@.joint_precision(rhs@),
    {
        if self.precision >= rhs.precision {
            self.precision
        } else {
            rhs.precision
        }
    }

    /// `self + rhs`, rounded to the larger of the two precisions. Zero is
    /// neutral: added to a number that needs no rounding, it yields that
    /// number.
    pub fn add(&self, rhs: &Decimal) -> (r: Option<Decimal>)
        ensures
            decimal_view(r) == self@.plus(rhs@),
            self@.is_zero() && rhs@.is_zero() ==> kept_zero(decimal_view(r)),
            self@.is_zero() && !rhs@.is_zero() && rhs@.scaled().fits(self@.joint_precision(rhs@))
                ==> kept(decimal_view(r), rhs@.scaled()),
            rhs@.is_zero() && !self@.is_zero() && self@.scaled().fits(self@.joint_precision(rhs@))
                ==> kept(decimal_view(r), self@.scaled()),
    {
        proof {
            use_type_invariant(self);
            use_type_invariant(rhs);
            lemma_valid_parts(
                self.negative,
                self.digits@,
                self.exponent as int,
                self.precision as nat,
            );
            lemma_valid_parts(rhs.negative, rhs.digits@, rhs.exponent as int, rhs.precision as nat);
        }
        let p = self.joint_precision(rhs);
        match raw_add(self, rhs, p) {
            Some(parts) => Decimal::accept(parts, p),
            None => None,
        }
    }

    /// `self - rhs`, rounded to the larger of the two precisions. A number
    /// less itself is zero, and less zero it is itself, if it needs no
    /// rounding.
    pub fn sub(&self, rhs: &Decimal) -> (r: Option<Decimal>)
        ensures
            decimal_view(r) == self@.minus(rhs@),
            self@.scaled() == rhs@.scaled() ==> kept_zero(decimal_view(r)),
            self@.is_zero() && rhs@.is_zero() ==> kept_zero(decimal_view(r)),
            rhs@.is_zero() && !self@.is_zero() && self@.scaled().fits(self@.joint_precision(rhs@))
                ==> kept(decimal_view(r), self@.scaled()),
    {
        proof {
            use_type_invariant(self);
            use_type_invariant(rhs);
            lemma_valid_parts(
                self.negative,
                self.digits@,
                self.exponent as int,
                self.precision as nat,
            );
            lemma_valid_parts(rhs.negative, rhs.digits@, rhs.exponent as int, rhs.precision as nat);
        }
        let p = self.joint_precision(rhs);
        match raw_sub(self, rhs, p) {
            Some(parts) => Decimal::accept(parts, p),
            None => None,
        }
    }

    /// `self * rhs`, rounded to the larger of the two precisions. The order
    /// of the operands does not matter, and the product is zero where an
    /// operand is zero, and only there.
    pub fn mul(&self, rhs: &Decimal) -> (r: Option<Decimal>)
        ensures
            decimal_view(r) == self@.times(rhs@),
            self@.times(rhs@) == rhs@.times(self@),
            self@.is_zero() || rhs@.is_zero() ==> kept_zero(decimal_view(r)),
            r matches Some(v) ==> (v@.is_zero() ==> self@.is_zero() || rhs@.is_zero()),
    {
        proof {
            use_type_invariant(self);
            use_type_invariant(rhs);
            lemma_valid_parts(
                self.negative,
                self.digits@,
                self.exponent as int,
                self.precision as nat,
            );
            lemma_valid_parts(rhs.negative, rhs.digits@, rhs.exponent as int, rhs.precision as nat);
        }
        let p = self.joint_precision(rhs);
        match raw_mul(self, rhs, p) {
            Some(parts) => Decimal::accept(parts, p),
            None => None,
        }
    }

    /// `self / rhs`, rounded to the larger of the two precisions, which must
    /// not both be unlimited. Zero divided by another number is zero.
    pub fn div(&self, rhs: &Decimal) -> (r: Option<Decimal>)
        ensures
            decimal_view(r) == self@.over(rhs@),
            self@.is_zero() && !rhs@.is_zero() && self@.joint_precision(rhs@) > 0 ==> kept_zero(
                decimal_view(r),
            ),
    {
        proof {
            use_type_invariant(self);
            use_type_invariant(rhs);
            lemma_valid_parts(
                self.negative,
                self.digits@,
                self.exponent as int,
                self.precision as nat,
            );
            lemma_valid_parts(rhs.negative, rhs.digits@, rhs.exponent as int, rhs.precision as nat);
        }
        let p = self.joint_precision(rhs);
        if p == 0 {
            return None;
        }
        match raw_div(self, rhs, p) {
            Some(parts) => Decimal::accept(parts, p),
            None => None,
        }
    }

    /// The square root of `self`, rounded to its precision. The root of
    /// zero is that zero, whatever its precision.
    pub fn sqrt(&self) -> (r: Option<Decimal>)
        ensures
            decimal_view(r) == self@.root(),
    {
        if self.is_zero() {
            return Some(self.clone());
        }
        if self.precision == 0 {
            return None;
        }
        match raw_sqrt(self, self.precision) {
            Some(parts) => Decimal::accept(parts, self.precision),
            None => None,
        }
    }

    /// The fractional part of `self`: what is left of it after the digits
    /// before the decimal point are removed.
    pub fn fract(&self) -> (r: Option<Decimal>)
        ensures
            decimal_view(r) == self@.fraction(),
    {
        let (parts, precision) = raw_fract(self);
        Decimal::accept(parts, precision)
    }
}

impl Clone for Decimal {
    fn clone(&self) -> (r: Decimal)
        ensures
            r@ == self@,
    {
        proof {
            use_type_invariant(self);
        }
        let digits = self.digits.clone();
        assert(digits@ =~= self.digits@);
        Decimal {
            negative: self.negative,
            digits,
            exponent: self.exponent,
            precision: self.precision,
        }
    }
}

/// The model of a result that may be missing.
pub open spec fn decimal_view(r: Option<Decimal>) -> Option<DecimalModel> {
    match r {
        Some(d) => Some(d@),
        None => None,
    }
}

} // verus!
