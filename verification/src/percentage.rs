//! A percentage of the maximum brightness, in binary64 arithmetic.
//!
//! The conversion is the product of two binary64 numbers, the quotient of the
//! percentage by 100 and the maximum, cut down to a whole number. Each of the
//! three operations behind it (the division by 100, the conversion of the
//! maximum and the multiplication) rounds its exact result to 53 significant
//! bits, so the outcome can differ from the exact quotient `percentage * max /
//! 100`: 29 percent of 100 is 28.
//!
//! A percentage that is not zero is at least a hundredth, and a hundredth
//! times two to the power 59 exceeds two to the power 52. So the quotient is
//! held as a whole number of units of two to the power -59, and from there on
//! rounding a binary64 result is rounding a quotient of integers to 53
//! significant bits.
use vstd::prelude::*;
use vstd::arithmetic::mul::{lemma_mul_inequality, lemma_mul_upper_bound};
use vstd::arithmetic::power2::{lemma2_to64, lemma2_to64_rest, lemma_pow2_unfold, pow2};
use crate::rounding::{
    fits_53_bits,
    lemma_fits_53_bits_doubled,
    lemma_round_to_53_bits_exact,
    lemma_round_to_53_bits_monotone,
    lemma_round_to_53_bits_scaled,
    lemma_round_to_53_bits_upper_bound,
    lemma_rounded_fits_53_bits,
    round_ratio,
    round_to_53_bits,
    SIGNIFICAND_LIMIT,
};

verus! {

/// Two to the power 59: how many units the fraction 1 is made of.
pub const FRACTION_SCALE: u128 = 0x800_0000_0000_0000;

/// The binary64 quotient of `percentage` by 100, in units of two to the
/// power -59.
pub open spec fn hundredths(percentage: nat) -> nat {
    round_to_53_bits((percentage * FRACTION_SCALE) as nat, 100)
}

/// The maximum as a binary64 number: exact up to two to the power 53, rounded
/// to 53 significant bits above.
pub open spec fn as_binary64(max: nat) -> nat {
    round_to_53_bits(max, 1)
}

/// The binary64 product of `hundredths(percentage)` and `as_binary64(max)`,
/// cut down to a whole number and held to what a `u64` can take.
pub open spec fn percent_of(percentage: nat, max: nat) -> nat {
    let product = round_to_53_bits(hundredths(percentage) * as_binary64(max), 1);
    let whole = product / (FRACTION_SCALE as nat);
    if whole > u64::MAX {
        u64::MAX as nat
    } else {
        whole
    }
}

/// Whether the binary64 number nearest to `max` is not above `max`: the
/// condition under which no percentage of `max` exceeds `max`.
pub open spec fn rounds_within(max: nat) -> bool {
    as_binary64(max) <= max || max == u64::MAX
}

proof fn lemma_fits_53_bits_times_power(v: nat, k: nat)
    requires
        fits_53_bits(v),
    ensures
        fits_53_bits(pow2(k) * v),
    decreases k,
{
    if k == 0 {
        lemma2_to64();
    } else {
        let lower = pow2((k - 1) as nat);
        lemma_fits_53_bits_times_power(v, (k - 1) as nat);
        lemma_fits_53_bits_doubled(lower * v);
        lemma_pow2_unfold(k);
        assert(pow2(k) * v == 2 * (lower * v)) by (nonlinear_arith)
            requires
                pow2(k) == 2 * lower,
        ;
    }
}

/// A number of at most 53 significant bits, taken in units of two to the
/// power -59, still has at most 53 significant bits.
pub proof fn lemma_fits_53_bits_in_units(v: nat)
    requires
        fits_53_bits(v),
    ensures
        fits_53_bits((FRACTION_SCALE * v) as nat),
{
    lemma_fits_53_bits_times_power(v, 59);
    lemma2_to64_rest();
}

/// No percentage up to 100 has a quotient above 1.
pub proof fn lemma_hundredths_at_most_one(percentage: nat)
    requires
        percentage <= 100,
    ensures
        hundredths(percentage) <= FRACTION_SCALE,
{
    lemma_fits_53_bits_in_units(1);
    lemma_round_to_53_bits_upper_bound(
        (percentage * FRACTION_SCALE) as nat,
        100,
        FRACTION_SCALE as nat,
    );
}

/// The maximum as a binary64 number is at most two to the power 64.
pub proof fn lemma_as_binary64_bound(max: nat)
    requires
        max <= u64::MAX,
    ensures
        as_binary64(max) <= 0x1_0000_0000_0000_0000,
{
    lemma_fits_53_bits_times_power(1, 64);
    lemma2_to64();
    lemma_round_to_53_bits_upper_bound(max, 1, 0x1_0000_0000_0000_0000);
}

/// The given percentage of `max`.
pub fn percent_of_max(percentage: u64, max: u64) -> (value: u64)
    requires
        percentage <= 100,
    ensures
        value == percent_of(percentage as nat, max as nat),
{
    let fraction: u128 = round_ratio(percentage as u128 * FRACTION_SCALE, 100);
    let whole_max: u128 = round_ratio(max as u128, 1);
    proof {
        lemma_hundredths_at_most_one(percentage as nat);
        lemma_as_binary64_bound(max as nat);
        lemma_mul_upper_bound(
            fraction as int,
            FRACTION_SCALE as int,
            whole_max as int,
            0x1_0000_0000_0000_0000,
        );
    }
    let product: u128 = round_ratio(fraction * whole_max, 1);
    let whole: u128 = product / FRACTION_SCALE;
    if whole > u64::MAX as u128 {
        u64::MAX
    } else {
        whole as u64
    }
}

/// A maximum up to two to the power 53 is a binary64 number as it stands.
pub proof fn lemma_small_maximum_rounds_within(max: nat)
    requires
        max <= SIGNIFICAND_LIMIT,
    ensures
        as_binary64(max) == max,
        rounds_within(max),
{
    if max == SIGNIFICAND_LIMIT {
        assert(fits_53_bits(max / 2));
    }
    lemma_round_to_53_bits_exact(max);
}

/// A larger percentage of the same maximum is never a smaller brightness.
pub proof fn lemma_percent_of_monotone(lower: nat, upper: nat, max: nat)
    requires
        lower <= upper,
    ensures
        percent_of(lower, max) <= percent_of(upper, max),
{
    let scale = FRACTION_SCALE as nat;
    let weight = as_binary64(max);
    lemma_mul_inequality(lower as int, upper as int, scale as int);
    lemma_round_to_53_bits_monotone(lower * scale, upper * scale, 100);
    lemma_mul_inequality(hundredths(lower) as int, hundredths(upper) as int, weight as int);
    lemma_round_to_53_bits_monotone(hundredths(lower) * weight, hundredths(upper) * weight, 1);
}

/// No percentage up to 100 of a maximum exceeds it, provided that the
/// maximum, taken as a binary64 number, is not rounded upward.
pub proof fn lemma_percent_of_within_max(percentage: nat, max: nat)
    requires
        percentage <= 100,
        max <= u64::MAX,
        rounds_within(max),
    ensures
        percent_of(percentage, max) <= max,
{
    let scale = FRACTION_SCALE as nat;
    let weight = as_binary64(max);
    lemma_hundredths_at_most_one(percentage);
    lemma_mul_inequality(hundredths(percentage) as int, scale as int, weight as int);
    lemma_rounded_fits_53_bits(max, 1);
    lemma_fits_53_bits_in_units(weight);
    lemma_round_to_53_bits_upper_bound(hundredths(percentage) * weight, 1, scale * weight);
}

/// Where the maximum, taken as a binary64 number, is rounded upward, the
/// whole of it exceeds it.
pub proof fn lemma_percent_of_above_max(max: nat)
    requires
        max <= u64::MAX,
        !rounds_within(max),
    ensures
        percent_of(100, max) > max,
{
    let scale = FRACTION_SCALE as nat;
    let weight = as_binary64(max);
    lemma_hundredths_of_whole();
    lemma_rounded_fits_53_bits(max, 1);
    lemma_fits_53_bits_in_units(weight);
    lemma_round_to_53_bits_exact(scale * weight);
}

/// The quotient of 100 by 100 is 1.
pub proof fn lemma_hundredths_of_whole()
    ensures
        hundredths(100) == FRACTION_SCALE,
{
    let scale = FRACTION_SCALE as nat;
    lemma_round_to_53_bits_scaled(100, scale, 1);
    lemma_fits_53_bits_in_units(1);
    lemma_round_to_53_bits_exact(scale);
}

/// The whole of a maximum below two to the power 53 is that maximum, and
/// nothing of it is zero.
pub proof fn lemma_percent_of_ends(max: nat)
    requires
        max < SIGNIFICAND_LIMIT,
    ensures
        percent_of(0, max) == 0,
        percent_of(100, max) == max,
{
    let scale = FRACTION_SCALE as nat;
    lemma_hundredths_of_whole();
    lemma_round_to_53_bits_exact(max);
    lemma_fits_53_bits_in_units(max);
    lemma_round_to_53_bits_exact(scale * max);
    assert(0 * as_binary64(max) == 0);
}

} // verus!
