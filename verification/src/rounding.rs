//! Rounding of exact quotients to 53 significant bits.
//!
//! An IEEE 754 binary64 number carries a significand of 53 bits. At or above
//! two to the power 52 the binary64 numbers are exactly the integers with at
//! most 53 significant bits, so the binary64 arithmetic that the percentage
//! conversion calls for can be stated, and carried out, over integers scaled
//! by a power of two.
use vstd::prelude::*;
use vstd::arithmetic::div_mod::{
    lemma_div_is_ordered,
    lemma_div_multiples_vanish,
    lemma_div_multiples_vanish_quotient,
    lemma_fundamental_div_mod,
    lemma_mod_pos_bound,
    lemma_multiply_divide_lt,
    lemma_truncate_middle,
};
use vstd::arithmetic::mul::{lemma_mul_inequality, lemma_mul_is_commutative, lemma_mul_upper_bound};

verus! {

/// Two to the power 53. Every integer below it has at most 53 significant
/// bits.
pub const SIGNIFICAND_LIMIT: u128 = 0x20_0000_0000_0000;

/// The largest numerator that `round_ratio` takes: two to the power 124.
pub const RATIO_LIMIT: u128 = 0x1000_0000_0000_0000_0000_0000_0000_0000;

/// `a / b` rounded to the nearest integer; halfway between two integers the
/// even one is taken.
pub open spec fn round_half_even(a: nat, b: nat) -> nat {
    let q = a / b;
    let r = a % b;
    if 2 * r < b || (2 * r == b && q % 2 == 0) {
        q
    } else {
        q + 1
    }
}

/// `a / b` rounded to the nearest integer that has at most 53 significant
/// bits; halfway between two of them the one with the even significand is
/// taken.
///
/// Below two to the power 53 every integer qualifies, so the quotient is
/// rounded to the nearest integer. From there on the quotient is halved, by
/// doubling the divisor, until it is below that power, rounded, and doubled
/// back.
pub open spec fn round_to_53_bits(a: nat, b: nat) -> nat
    decreases a - b,
{
    if b == 0 {
        0
    } else if a < b * SIGNIFICAND_LIMIT {
        round_half_even(a, b)
    } else {
        2 * round_to_53_bits(a, 2 * b)
    }
}

/// Whether `v` has at most 53 significant bits: it is below two to the
/// power 53, or it is even and its half has at most 53 significant bits.
pub open spec fn fits_53_bits(v: nat) -> bool
    decreases v,
{
    v < SIGNIFICAND_LIMIT || (v % 2 == 0 && fits_53_bits(v / 2))
}

/// Rounds `a / b` to 53 significant bits.
pub fn round_ratio(a: u128, b: u128) -> (rounded: u128)
    requires
        0 < b,
        a < RATIO_LIMIT,
    ensures
        rounded == round_to_53_bits(a as nat, b as nat),
{
    let mut divisor: u128 = b;
    let mut scale: u128 = 1;
    while a / SIGNIFICAND_LIMIT >= divisor
        invariant
            0 < divisor,
            1 <= scale <= divisor,
            scale == 1 || scale * 0x10_0000_0000_0000 <= a,
            a < RATIO_LIMIT,
            scale * round_to_53_bits(a as nat, divisor as nat) == round_to_53_bits(
                a as nat,
                b as nat,
            ),
        decreases a - divisor,
    {
        proof {
            let inner = round_to_53_bits(a as nat, 2 * divisor as nat);
            assert((2 * scale) * inner == scale * (2 * inner)) by (nonlinear_arith);
        }
        divisor = divisor * 2;
        scale = scale * 2;
    }
    let quotient: u128 = a / divisor;
    let remainder: u128 = a % divisor;
    proof {
        lemma_multiply_divide_lt(a as int, divisor as int, SIGNIFICAND_LIMIT as int);
    }
    let nearest: u128 = if remainder < divisor - remainder || (remainder == divisor - remainder
        && quotient % 2 == 0) {
        quotient
    } else {
        quotient + 1
    };
    proof {
        lemma_mul_upper_bound(
            nearest as int,
            0x20_0000_0000_0000,
            scale as int,
            0x100_0000_0000_0000_0000,
        );
        lemma_mul_is_commutative(nearest as int, scale as int);
    }
    nearest * scale
}

/// Rounding to the nearest integer keeps the order of the numerators.
pub proof fn lemma_round_half_even_monotone(a1: nat, a2: nat, b: nat)
    requires
        a1 <= a2,
        0 < b,
    ensures
        round_half_even(a1, b) <= round_half_even(a2, b),
{
    lemma_div_is_ordered(a1 as int, a2 as int, b as int);
    lemma_fundamental_div_mod(a1 as int, b as int);
    lemma_fundamental_div_mod(a2 as int, b as int);
    lemma_mod_pos_bound(a1 as int, b as int);
    lemma_mod_pos_bound(a2 as int, b as int);
}

/// Rounding to the nearest integer is unchanged when numerator and divisor
/// are multiplied by the same positive factor.
pub proof fn lemma_round_half_even_scaled(c: nat, a: nat, b: nat)
    requires
        0 < c,
        0 < b,
    ensures
        round_half_even(c * a, c * b) == round_half_even(a, b),
{
    lemma_div_multiples_vanish_quotient(c as int, a as int, b as int);
    lemma_truncate_middle(a as int, c as int, b as int);
    let r = a % b;
    assert(2 * (c * r) < c * b <==> 2 * r < b) by (nonlinear_arith)
        requires
            0 < c,
    ;
    assert(2 * (c * r) == c * b <==> 2 * r == b) by (nonlinear_arith)
        requires
            0 < c,
    ;
}

/// A quotient of at least two to the power 53 rounds to at least that power.
pub proof fn lemma_round_to_53_bits_lower_bound(a: nat, b: nat)
    requires
        0 < b,
        b * SIGNIFICAND_LIMIT <= a,
    ensures
        SIGNIFICAND_LIMIT <= round_to_53_bits(a, b),
    decreases a - b,
{
    if a < (2 * b) * SIGNIFICAND_LIMIT {
        let half: int = 0x10_0000_0000_0000;
        let divisor: int = (2 * b) as int;
        assert(divisor * half == b * SIGNIFICAND_LIMIT) by (nonlinear_arith)
            requires
                divisor == 2 * b,
                half == 0x10_0000_0000_0000,
        ;
        lemma_div_multiples_vanish(half, divisor);
        lemma_div_is_ordered(divisor * half, a as int, divisor);
        assert(round_to_53_bits(a, 2 * b) == round_half_even(a, 2 * b));
    } else {
        lemma_round_to_53_bits_lower_bound(a, 2 * b);
    }
}

/// Rounding to 53 significant bits keeps the order of the numerators.
pub proof fn lemma_round_to_53_bits_monotone(a1: nat, a2: nat, b: nat)
    requires
        a1 <= a2,
        0 < b,
    ensures
        round_to_53_bits(a1, b) <= round_to_53_bits(a2, b),
    decreases a2 - b,
{
    if a2 < b * SIGNIFICAND_LIMIT {
        lemma_round_half_even_monotone(a1, a2, b);
    } else if a1 < b * SIGNIFICAND_LIMIT {
        lemma_multiply_divide_lt(a1 as int, b as int, SIGNIFICAND_LIMIT as int);
        lemma_round_to_53_bits_lower_bound(a2, b);
    } else {
        lemma_round_to_53_bits_monotone(a1, a2, 2 * b);
    }
}

/// Rounding to 53 significant bits is unchanged when numerator and divisor
/// are multiplied by the same positive factor.
pub proof fn lemma_round_to_53_bits_scaled(c: nat, a: nat, b: nat)
    requires
        0 < c,
        0 < b,
    ensures
        round_to_53_bits(c * a, c * b) == round_to_53_bits(a, b),
    decreases a - b,
{
    assert(0 < c * b) by (nonlinear_arith)
        requires
            0 < c,
            0 < b,
    ;
    assert(c * a < (c * b) * SIGNIFICAND_LIMIT <==> a < b * SIGNIFICAND_LIMIT)
        by (nonlinear_arith)
        requires
            0 < c,
    ;
    if a < b * SIGNIFICAND_LIMIT {
        lemma_round_half_even_scaled(c, a, b);
    } else {
        lemma_round_to_53_bits_scaled(c, a, 2 * b);
        assert(c * (2 * b) == 2 * (c * b)) by (nonlinear_arith);
    }
}

/// The double of a number of at most 53 significant bits has at most 53
/// significant bits.
pub proof fn lemma_fits_53_bits_doubled(v: nat)
    requires
        fits_53_bits(v),
    ensures
        fits_53_bits(2 * v),
{
}

/// What rounding to 53 significant bits gives has at most 53 significant
/// bits.
pub proof fn lemma_rounded_fits_53_bits(a: nat, b: nat)
    ensures
        fits_53_bits(round_to_53_bits(a, b)),
    decreases a - b,
{
    if b == 0 {
    } else if a < b * SIGNIFICAND_LIMIT {
        lemma_multiply_divide_lt(a as int, b as int, SIGNIFICAND_LIMIT as int);
        let rounded = round_half_even(a, b);
        if rounded == SIGNIFICAND_LIMIT {
            assert(fits_53_bits(rounded / 2));
        }
    } else {
        lemma_rounded_fits_53_bits(a, 2 * b);
        lemma_fits_53_bits_doubled(round_to_53_bits(a, 2 * b));
    }
}

/// A number of at most 53 significant bits is its own rounding.
pub proof fn lemma_round_to_53_bits_exact(v: nat)
    requires
        fits_53_bits(v),
    ensures
        round_to_53_bits(v, 1) == v,
    decreases v,
{
    if v < SIGNIFICAND_LIMIT {
    } else {
        let half = v / 2;
        lemma_round_to_53_bits_exact(half);
        lemma_round_to_53_bits_scaled(2, half, 1);
    }
}

/// A quotient that does not exceed a number of at most 53 significant bits
/// does not round above that number.
pub proof fn lemma_round_to_53_bits_upper_bound(a: nat, b: nat, v: nat)
    requires
        0 < b,
        a <= v * b,
        fits_53_bits(v),
    ensures
        round_to_53_bits(a, b) <= v,
{
    lemma_round_to_53_bits_monotone(a, v * b, b);
    lemma_round_to_53_bits_scaled(b, v, 1);
    lemma_round_to_53_bits_exact(v);
    assert(b * v == v * b && b * 1 == b) by (nonlinear_arith);
}

/// How far the integer `v` is from the quotient `a / b`, in units of `1 / b`.
pub open spec fn gap(v: nat, a: nat, b: nat) -> nat {
    if v * b >= a {
        (v * b - a) as nat
    } else {
        (a - v * b) as nat
    }
}

/// No integer is nearer to a quotient than the integer it is rounded to.
pub proof fn lemma_round_half_even_nearest(a: nat, b: nat, v: nat)
    requires
        0 < b,
    ensures
        gap(round_half_even(a, b), a, b) <= gap(v, a, b),
{
    let q = a / b;
    let r = a % b;
    lemma_fundamental_div_mod(a as int, b as int);
    lemma_mod_pos_bound(a as int, b as int);
    lemma_mul_is_commutative(q as int, b as int);
    assert((q + 1) * b == q * b + b) by (nonlinear_arith);
    if v <= q {
        lemma_mul_inequality(v as int, q as int, b as int);
    } else {
        lemma_mul_inequality((q + 1) as int, v as int, b as int);
    }
}

/// No integer of at most 53 significant bits is nearer to a quotient than
/// what the quotient is rounded to.
pub proof fn lemma_round_to_53_bits_nearest(a: nat, b: nat, v: nat)
    requires
        0 < b,
        fits_53_bits(v),
    ensures
        gap(round_to_53_bits(a, b), a, b) <= gap(v, a, b),
    decreases a - b,
{
    if a < b * SIGNIFICAND_LIMIT {
        lemma_round_half_even_nearest(a, b, v);
    } else {
        let half = round_to_53_bits(a, 2 * b);
        assert((2 * half) * b == half * (2 * b)) by (nonlinear_arith);
        if v % 2 == 0 {
            let w = v / 2;
            lemma_round_to_53_bits_nearest(a, 2 * b, w);
            assert(v * b == w * (2 * b)) by (nonlinear_arith)
                requires
                    v == 2 * w,
            ;
        } else {
            let limit = SIGNIFICAND_LIMIT as nat;
            lemma_round_to_53_bits_nearest(a, 2 * b, limit / 2);
            assert((limit / 2) * (2 * b) == b * limit) by (nonlinear_arith)
                requires
                    limit == 0x20_0000_0000_0000,
            ;
            lemma_mul_inequality(v as int, limit as int, b as int);
            lemma_mul_is_commutative(limit as int, b as int);
        }
    }
}

/// How far apart two integers are.
pub open spec fn spacing(v: nat, w: nat) -> nat {
    if v >= w {
        (v - w) as nat
    } else {
        (w - v) as nat
    }
}

/// Where another integer is as near to a quotient as the integer it is
/// rounded to, the two are neighbours and the one taken is even.
pub proof fn lemma_round_half_even_tie(a: nat, b: nat, v: nat)
    requires
        0 < b,
        v != round_half_even(a, b),
        gap(v, a, b) == gap(round_half_even(a, b), a, b),
    ensures
        round_half_even(a, b) % 2 == 0,
        spacing(v, round_half_even(a, b)) == 1,
{
    let q = a / b;
    lemma_fundamental_div_mod(a as int, b as int);
    lemma_mod_pos_bound(a as int, b as int);
    lemma_mul_is_commutative(q as int, b as int);
    assert((q + 1) * b == q * b + b) by (nonlinear_arith);
    assert((q + 2) * b == q * b + 2 * b) by (nonlinear_arith);
    if v + 1 <= q {
        lemma_mul_inequality((v + 1) as int, q as int, b as int);
        assert((v + 1) * b == v * b + b) by (nonlinear_arith);
    } else if v >= q + 2 {
        lemma_mul_inequality((q + 2) as int, v as int, b as int);
    }
}

/// Where another integer of at most 53 significant bits is as near to a
/// quotient as what the quotient is rounded to, the one taken is an even
/// multiple of their distance: of two neighbours the one with the even
/// significand is taken.
pub proof fn lemma_round_to_53_bits_tie(a: nat, b: nat, v: nat)
    requires
        0 < b,
        fits_53_bits(v),
        v != round_to_53_bits(a, b),
        gap(v, a, b) == gap(round_to_53_bits(a, b), a, b),
    ensures
        round_to_53_bits(a, b) % spacing(v, round_to_53_bits(a, b)) == 0,
        (round_to_53_bits(a, b) / spacing(v, round_to_53_bits(a, b))) % 2 == 0,
    decreases a - b,
{
    if a < b * SIGNIFICAND_LIMIT {
        lemma_round_half_even_tie(a, b, v);
    } else {
        let half = round_to_53_bits(a, 2 * b);
        assert((2 * half) * b == half * (2 * b)) by (nonlinear_arith);
        if v % 2 == 0 {
            let w = v / 2;
            assert(v * b == w * (2 * b)) by (nonlinear_arith)
                requires
                    v == 2 * w,
            ;
            lemma_round_to_53_bits_tie(a, 2 * b, w);
            let apart = spacing(w, half);
            lemma_truncate_middle(half as int, 2, apart as int);
            lemma_div_multiples_vanish_quotient(2, half as int, apart as int);
        } else {
            let limit = SIGNIFICAND_LIMIT as nat;
            assert(fits_53_bits(limit / 2));
            lemma_round_to_53_bits_nearest(a, b, limit);
            lemma_mul_inequality((v + 1) as int, limit as int, b as int);
            lemma_mul_is_commutative(limit as int, b as int);
            assert((v + 1) * b == v * b + b) by (nonlinear_arith);
        }
    }
}

} // verus!
