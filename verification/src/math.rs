//! Fixed-point arithmetic of the reward index.
//!
//! A decimal is held by its atomics: the value times 10^18.
use vstd::arithmetic::div_mod::*;
use vstd::arithmetic::mul::*;
use vstd::prelude::*;

use cosmwasm_std::{Decimal, Uint128};

verus! {

/// The number of atomics in one whole unit of a decimal.
pub open spec fn fractional() -> int {
    1_000_000_000_000_000_000
}

/// The atomics of the decimal `numerator / denominator`, rounded down.
pub open spec fn ratio(numerator: int, denominator: int) -> int {
    numerator * fractional() / denominator
}

/// An integer amount times a decimal, rounded down.
pub open spec fn scale(amount: int, decimal: int) -> int {
    amount * decimal / fractional()
}

/// `cosmwasm_std::Decimal::from_ratio`, read back by its atomics.
///
/// The crate computes `numerator * 10^18 / denominator` in 256 bits, rounds
/// down, and panics when the denominator is zero or the quotient does not fit
/// in 128 bits; those inputs are left out.
#[verifier::external_body]
pub(crate) fn decimal_from_ratio(numerator: u128, denominator: u128) -> (atomics: u128)
    requires
        denominator > 0,
        ratio(numerator as int, denominator as int) <= u128::MAX,
    ensures
        atomics == ratio(numerator as int, denominator as int),
{
    Decimal::from_ratio(Uint128::new(numerator), Uint128::new(denominator)).atomics().u128()
}

/// `Uint128 * Decimal` of `cosmwasm_std` (`Uint128::multiply_ratio` by the
/// decimal's atomics over 10^18).
///
/// The crate computes the product in 256 bits, rounds down, and panics when
/// the result does not fit in 128 bits; those inputs are left out.
#[verifier::external_body]
pub(crate) fn uint_times_decimal(amount: u128, decimal: u128) -> (product: u128)
    requires
        scale(amount as int, decimal as int) <= u128::MAX,
    ensures
        product == scale(amount as int, decimal as int),
{
    (Uint128::new(amount) * Decimal::raw(decimal)).u128()
}

/// `cosmwasm_std::Decimal::checked_from_ratio`, read back by its atomics.
///
/// The crate gives `numerator * 10^18 / denominator`, computed in 256 bits and
/// rounded down, and an error when the denominator is zero or the quotient
/// does not fit in 128 bits; the error becomes `None`.
#[verifier::external_body]
pub(crate) fn checked_decimal_from_ratio(numerator: u128, denominator: u128)
    -> (atomics: Option<u128>)
    ensures
        atomics == (if denominator > 0 && ratio(numerator as int, denominator as int)
            <= u128::MAX {
            Some(ratio(numerator as int, denominator as int) as u128)
        } else {
            None::<u128>
        }),
{
    match Decimal::checked_from_ratio(Uint128::new(numerator), Uint128::new(denominator)) {
        Ok(decimal) => Some(decimal.atomics().u128()),
        Err(_) => None,
    }
}

/// `cosmwasm_std::Uint128::checked_mul_floor` by a decimal given by its
/// atomics: the product with the decimal's atomics over 10^18, computed in 256
/// bits and rounded down, or an error when it does not fit in 128 bits; the
/// error becomes `None`.
#[verifier::external_body]
pub(crate) fn checked_uint_times_decimal(amount: u128, decimal: u128) -> (product: Option<u128>)
    ensures
        product == (if scale(amount as int, decimal as int) <= u128::MAX {
            Some(scale(amount as int, decimal as int) as u128)
        } else {
            None::<u128>
        }),
{
    match Uint128::new(amount).checked_mul_floor(Decimal::raw(decimal)) {
        Ok(product) => Some(product.u128()),
        Err(_) => None,
    }
}

/// Ratios and scaled amounts of non-negative numbers are non-negative.
pub proof fn lemma_ratio_scale_nonneg(n: int, d: int, a: int, x: int)
    requires
        n >= 0,
        d > 0,
        a >= 0,
        x >= 0,
    ensures
        ratio(n, d) >= 0,
        scale(a, x) >= 0,
{
    lemma_mul_nonnegative(n, fractional());
    lemma_div_pos_is_pos(n * fractional(), d);
    lemma_mul_nonnegative(a, x);
    lemma_div_pos_is_pos(a * x, fractional());
}

/// Scaling by a larger decimal never gives less.
pub proof fn lemma_scale_monotone(a: int, x: int, y: int)
    requires
        a >= 0,
        x <= y,
    ensures
        scale(a, x) <= scale(a, y),
{
    lemma_mul_inequality(x, y, a);
    lemma_mul_is_commutative(x, a);
    lemma_mul_is_commutative(y, a);
    lemma_div_is_ordered(a * x, a * y, fractional());
}

/// Scaling nothing, or by nothing, gives nothing.
pub proof fn lemma_scale_zero(a: int, x: int)
    ensures
        scale(0, x) == 0,
        scale(a, 0) == 0,
{
    assert(0 * x == 0) by (nonlinear_arith);
    assert(a * 0 == 0) by (nonlinear_arith);
}

/// Paying a rate of `amount / whole` per unit for at most `whole` units pays
/// at most `amount`: both roundings go down.
pub proof fn lemma_scale_of_ratio_bounded(passed: int, amount: int, whole: int)
    requires
        0 <= passed <= whole,
        whole > 0,
        amount >= 0,
    ensures
        scale(passed, ratio(amount, whole)) <= amount,
{
    let r = ratio(amount, whole);
    lemma_ratio_scale_nonneg(amount, whole, passed, 0);
    lemma_fundamental_div_mod(amount * fractional(), whole);
    lemma_mod_pos_bound(amount * fractional(), whole);
    assert(whole * r <= amount * fractional());
    lemma_mul_inequality(passed, whole, r);
    lemma_mul_is_commutative(whole, r);
    assert(passed * r <= amount * fractional());
    lemma_div_is_ordered(passed * r, amount * fractional(), fractional());
    lemma_div_by_multiple(amount, fractional());
}

/// When a decimal grows by `ratio(amount, total)`, an amount of at most
/// `total` scaled by it grows by at most `amount`: the roundings never create
/// value.
pub proof fn lemma_scaled_growth_bounded(bond: int, total: int, index: int, amount: int)
    requires
        0 <= bond <= total,
        total > 0,
        index >= 0,
        amount >= 0,
    ensures
        scale(bond, index + ratio(amount, total)) - scale(bond, index) <= amount,
{
    let r = ratio(amount, total);
    lemma_ratio_scale_nonneg(amount, total, 0, 0);
    lemma_fundamental_div_mod(amount * fractional(), total);
    lemma_mod_pos_bound(amount * fractional(), total);
    assert(total * r <= amount * fractional());
    lemma_mul_inequality(bond, total, r);
    lemma_mul_is_commutative(total, r);
    lemma_mul_is_commutative(bond, r);
    lemma_mul_is_distributive_add(bond, index, r);
    assert(bond * (index + r) <= bond * index + amount * fractional());
    lemma_div_is_ordered(bond * (index + r), bond * index + amount * fractional(), fractional());
    lemma_hoist_over_denominator(bond * index, amount, fractional() as nat);
}

} // verus!
