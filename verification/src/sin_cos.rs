//! Sine and cosine by truncated power series, and the constant 2π.

use vstd::prelude::*;
use crate::decimal::{
    decimal_view, digits_value, opt_minus, opt_over, opt_plus, valid_parts, Decimal, DecimalModel,
};

verus! {

/// The first fifty digits of 2π.
pub open spec fn two_pi_digits() -> Seq<u64> {
    seq![
        6, 2, 8, 3, 1, 8, 5, 3, 0, 7, 1, 7, 9, 5, 8, 6, 4, 7, 6, 9, 2, 5, 2, 8, 6, 7, 6, 6, 5, 5,
        9, 0, 0, 5, 7, 6, 8, 3, 9, 4, 3, 3, 8, 7, 9, 8, 7, 5, 0, 2,
    ]
}

/// 2π to fifty significant digits.
pub open spec fn two_pi() -> DecimalModel {
    DecimalModel {
        significand: digits_value(two_pi_digits()) as int,
        exponent: -49,
        precision: 50,
    }
}

/// The constant 2π, kept to fifty significant digits.
pub fn pimul2() -> (r: Decimal)
    ensures
        r@ == two_pi(),
{
    let digits: Vec<u64> = vec![
        6, 2, 8, 3, 1, 8, 5, 3, 0, 7, 1, 7, 9, 5, 8, 6, 4, 7, 6, 9, 2, 5, 2, 8, 6, 7, 6, 6, 5, 5,
        9, 0, 0, 5, 7, 6, 8, 3, 9, 4, 3, 3, 8, 7, 9, 8, 7, 5, 0, 2,
    ];
    assert(digits@ =~= two_pi_digits());
    assert(valid_parts(false, digits@, -49, 50));
    match Decimal::from_digits(false, digits, -49, 50) {
        Some(r) => r,
        None => Decimal::zero(),
    }
}

/// State of a power series under summation: the last integer that went into
/// a divisor, the last term, the sum so far and the direction in which the
/// next term goes in.
pub struct SeriesModel {
    pub index: nat,
    pub term: DecimalModel,
    pub sum: DecimalModel,
    pub subtract: bool,
}

/// One more term: with `n` the index, the next term is the last one times
/// `x2`, divided by `(n + 1) * (n + 2)`; it is subtracted from the sum or
/// added to it, in turn.
pub open spec fn series_step(x2: DecimalModel, s: SeriesModel) -> Option<SeriesModel> {
    let divisor = DecimalModel::integer(s.index + 1).times(DecimalModel::integer(s.index + 2));
    let term = opt_over(s.term.times(x2), divisor);
    let sum = if s.subtract {
        opt_minus(Some(s.sum), term)
    } else {
        opt_plus(Some(s.sum), term)
    };
    match (term, sum) {
        (Some(term), Some(sum)) => Some(
            SeriesModel { index: s.index + 2, term, sum, subtract: !s.subtract },
        ),
        _ => None,
    }
}

/// The state after `steps` more terms.
pub open spec fn series(x2: DecimalModel, s: SeriesModel, steps: nat) -> Option<SeriesModel>
    decreases steps,
{
    if steps == 0 {
        Some(s)
    } else {
        match series_step(x2, s) {
            Some(next) => series(x2, next, (steps - 1) as nat),
            None => None,
        }
    }
}

/// The sum of the first `terms` terms of a series that starts with `first`
/// after the integer `index`; no terms sum to zero. Where the square of `x`
/// is zero, every term after the first is zero, and the sum is the first
/// term as it stands.
pub open spec fn series_sum(x: DecimalModel, index: nat, first: DecimalModel, terms: nat) -> Option<
    DecimalModel,
> {
    match x.times(x) {
        None => None,
        Some(x2) => if terms == 0 {
            Some(DecimalModel::zero())
        } else if x2.is_zero() {
            Some(first)
        } else {
            match series(
                x2,
                SeriesModel { index, term: first, sum: first, subtract: true },
                (terms - 1) as nat,
            ) {
                Some(s) => Some(s.sum),
                None => None,
            }
        },
    }
}

/// `1 - x^2/2! + x^4/4! - ..`, cut off after `terms` terms.
pub open spec fn cos_series(x: DecimalModel, terms: nat) -> Option<DecimalModel> {
    series_sum(x, 0, DecimalModel::one(), terms)
}

/// `x - x^3/3! + x^5/5! - ..`, cut off after `terms` terms.
pub open spec fn sin_series(x: DecimalModel, terms: nat) -> Option<DecimalModel> {
    series_sum(x, 1, x, terms)
}

/// Sums the first `terms` terms of the series that starts with `first` after
/// the integer `index`. At zero the sum is the first term.
fn sum_series(x: &Decimal, index: u8, first: Decimal, terms: u32) -> (r: Option<Decimal>)
    requires
        index <= 1,
    ensures
        decimal_view(r) == series_sum(x@, index as nat, first@, terms as nat),
        x@.is_zero() && terms >= 1 ==> decimal_view(r) == Some(first@),
        x@.is_zero() && terms == 0 ==> decimal_view(r) == Some(DecimalModel::zero()),
{
    let x2 = x.mul(x)?;
    if terms == 0 {
        return Some(Decimal::zero());
    }
    if x2.is_zero() {
        return Some(first);
    }
    let ghost start = SeriesModel { index: index as nat, term: first@, sum: first@, subtract: true };
    let mut last: u64 = index as u64;
    let mut sum = first.clone();
    let mut term = first;
    let mut subtract = true;
    let mut i: u32 = 1;
    while i < terms
        invariant
            1 <= i <= terms,
            index <= 1,
            last == index + 2 * (i - 1),
            x@.times(x@) == Some(x2@),
            !x@.is_zero(),
            !x2@.is_zero(),
            start == (SeriesModel {
                index: index as nat,
                term: first@,
                sum: first@,
                subtract: true,
            }),
            series(x2@, start, (terms - 1) as nat) == series(
                x2@,
                SeriesModel { index: last as nat, term: term@, sum: sum@, subtract },
                (terms - i) as nat,
            ),
        decreases terms - i,
    {
        let divisor = Decimal::from_u64(last + 1).mul(&Decimal::from_u64(last + 2))?;
        let next = term.mul(&x2)?.div(&divisor)?;
        sum = if subtract {
            sum.sub(&next)?
        } else {
            sum.add(&next)?
        };
        last = last + 2;
        term = next;
        subtract = !subtract;
        i += 1;
    }
    Some(sum)
}

/// The cosine of `angle` (in radians) as the sum of the first `terms` terms
/// of its power series; `None` where a step of the sum has no result. The
/// cosine of zero is one.
pub fn cos(angle: Decimal, terms: u32) -> (r: Option<Decimal>)
    ensures
        decimal_view(r) == cos_series(angle@, terms as nat),
        angle@.is_zero() && terms >= 1 ==> decimal_view(r) == Some(DecimalModel::one()),
        angle@.is_zero() && terms == 0 ==> decimal_view(r) == Some(DecimalModel::zero()),
{
    sum_series(&angle, 0, Decimal::one(), terms)
}

/// The sine of `angle` (in radians) as the sum of the first `terms` terms of
/// its power series; `None` where a step of the sum has no result. The sine
/// of zero is that zero.
pub fn sin(angle: Decimal, terms: u32) -> (r: Option<Decimal>)
    ensures
        decimal_view(r) == sin_series(angle@, terms as nat),
        angle@.is_zero() && terms >= 1 ==> decimal_view(r) == Some(angle@),
        angle@.is_zero() && terms == 0 ==> decimal_view(r) == Some(DecimalModel::zero()),
{
    let first = angle.clone();
    sum_series(&angle, 1, first, terms)
}

} // verus!
