//! Half, single and double precision numbers, held as their bit patterns.
//!
//! The bits of a positive number, read as an integer, are its place in the
//! order of all representable magnitudes; that integer is called its ordinal
//! here. Conversions are stated over the exact value a pattern stands for:
//! widening keeps it, narrowing takes the nearest representable one, and the
//! one with the even ordinal where two are equally near.

use vstd::arithmetic::div_mod::lemma_fundamental_div_mod;
use vstd::arithmetic::mul::lemma_mul_is_commutative;
use vstd::arithmetic::power2::{
    lemma2_to64, lemma2_to64_rest, lemma_pow2_adds, lemma_pow2_pos, lemma_pow2_strictly_increases,
    pow2,
};
use vstd::prelude::*;

verus! {

/// The ordinal of single-precision infinity.
pub const SINGLE_INFINITY: u32 = 0x7F80_0000;

/// The pattern of the quiet single-precision NaN that invalid operations give.
pub const SINGLE_NAN: u32 = 0x7FC0_0000;

/// Whether a half is negative.
pub open spec fn half_sign(bits: u16) -> nat {
    (bits / 0x8000) as nat
}

/// The exponent field of a half.
pub open spec fn half_exponent(bits: u16) -> nat {
    ((bits / 0x400) % 32) as nat
}

/// The mantissa field of a half.
pub open spec fn half_mantissa(bits: u16) -> nat {
    (bits % 0x400) as nat
}

/// Whether a half is a number, neither an infinity nor a NaN.
pub open spec fn half_is_finite(bits: u16) -> bool {
    half_exponent(bits) != 31
}

/// The magnitude of a finite half, in units of its smallest subnormal,
/// two to the power -24.
pub open spec fn half_value(bits: u16) -> nat {
    if half_exponent(bits) == 0 {
        half_mantissa(bits)
    } else {
        (0x400 + half_mantissa(bits)) * pow2((half_exponent(bits) - 1) as nat)
    }
}

/// The sign bit of a single.
pub open spec fn single_sign(bits: u32) -> nat {
    (bits / 0x8000_0000) as nat
}

/// The exponent field of a single.
pub open spec fn single_exponent(bits: u32) -> nat {
    ((bits / 0x80_0000) % 256) as nat
}

/// The mantissa field of a single.
pub open spec fn single_mantissa(bits: u32) -> nat {
    (bits % 0x80_0000) as nat
}

/// The magnitude at an ordinal, in units of the smallest subnormal single,
/// two to the power -149. At the ordinal of infinity it is the first power of
/// two past the largest number, from where rounding overflows.
pub open spec fn single_value(ordinal: nat) -> nat {
    let exponent = ordinal / 0x80_0000;
    let mantissa = ordinal % 0x80_0000;
    if exponent == 0 {
        mantissa
    } else {
        (0x80_0000 + mantissa) * pow2((exponent - 1) as nat)
    }
}

/// The sign bit of a double.
pub open spec fn double_sign(bits: u64) -> nat {
    (bits / 0x8000_0000_0000_0000) as nat
}

/// The exponent field of a double.
pub open spec fn double_exponent(bits: u64) -> nat {
    ((bits / 0x10_0000_0000_0000) % 2048) as nat
}

/// The mantissa field of a double.
pub open spec fn double_mantissa(bits: u64) -> nat {
    (bits % 0x10_0000_0000_0000) as nat
}

/// Whether a double is a number, neither an infinity nor a NaN.
pub open spec fn double_is_finite(bits: u64) -> bool {
    double_exponent(bits) != 2047
}

/// The magnitude of a finite double, in units of its smallest subnormal, two to
/// the power -1074.
pub open spec fn double_value(bits: u64) -> nat {
    if double_exponent(bits) == 0 {
        double_mantissa(bits)
    } else {
        (0x10_0000_0000_0000 + double_mantissa(bits)) * pow2((double_exponent(bits) - 1) as nat)
    }
}

/// How far the single at `ordinal` is from the magnitude `n / d` (in units of the
/// smallest subnormal single), times `d`.
pub open spec fn single_distance(n: nat, d: nat, ordinal: nat) -> nat {
    if single_value(ordinal) * d <= n {
        (n - single_value(ordinal) * d) as nat
    } else {
        (single_value(ordinal) * d - n) as nat
    }
}

/// Whether the magnitude `n / d` rounds to the single at `ordinal`: no other is
/// nearer, and where another is as near, this one is even.
pub open spec fn rounds_to(n: nat, d: nat, ordinal: nat) -> bool {
    &&& ordinal <= SINGLE_INFINITY
    &&& forall|other: nat|
        other <= SINGLE_INFINITY && other != ordinal ==> {
            ||| single_distance(n, d, ordinal) < #[trigger] single_distance(n, d, other)
            ||| single_distance(n, d, ordinal) == single_distance(n, d, other) && ordinal % 2 == 0
        }
}

/// The ordinal of the single nearest to the magnitude `n / d`.
pub open spec fn nearest_single(n: nat, d: nat) -> nat {
    choose|ordinal: nat| rounds_to(n, d, ordinal)
}

/// Neighbouring ordinals: the next magnitude is larger.
proof fn lemma_single_value_step(ordinal: nat)
    ensures
        single_value(ordinal) < single_value(ordinal + 1),
{
    let exponent = ordinal / 0x80_0000;
    let mantissa = ordinal % 0x80_0000;
    lemma2_to64();
    if mantissa == 0x7F_FFFF {
        assert((ordinal + 1) / 0x80_0000 == exponent + 1 && (ordinal + 1) % 0x80_0000 == 0);
        if exponent > 0 {
            let unit = pow2((exponent - 1) as nat);
            lemma_pow2_pos((exponent - 1) as nat);
            lemma_pow2_adds((exponent - 1) as nat, 1);
            assert(pow2(exponent) == unit * 2);
            assert((0x80_0000 + mantissa) * unit < 0x80_0000 * (unit * 2)) by (nonlinear_arith)
                requires
                    mantissa == 0x7F_FFFF,
                    unit > 0,
            ;
        } else {
            assert(0x80_0000 * pow2(0) == 0x80_0000) by (nonlinear_arith)
                requires
                    pow2(0) == 1,
            ;
        }
    } else {
        assert((ordinal + 1) / 0x80_0000 == exponent && (ordinal + 1) % 0x80_0000 == mantissa + 1);
        if exponent > 0 {
            let unit = pow2((exponent - 1) as nat);
            lemma_pow2_pos((exponent - 1) as nat);
            assert((0x80_0000 + mantissa) * unit < (0x80_0000 + (mantissa + 1)) * unit)
                by (nonlinear_arith)
                requires
                    unit > 0,
            ;
        }
    }
}

/// Ordinals order magnitudes: a larger ordinal is a larger magnitude.
pub proof fn ordinals_order_singles(lower: nat, higher: nat)
    requires
        lower < higher,
    ensures
        single_value(lower) < single_value(higher),
    decreases higher - lower,
{
    lemma_single_value_step(lower);
    if lower + 1 < higher {
        ordinals_order_singles(lower + 1, higher);
    }
}

/// A magnitude between two neighbours rounds to one of them.
proof fn lemma_rounds_between(n: nat, d: nat, ordinal: nat)
    requires
        d > 0,
        ordinal < SINGLE_INFINITY,
        single_value(ordinal) * d <= n < single_value(ordinal + 1) * d,
    ensures
        single_distance(n, d, ordinal) < single_distance(n, d, ordinal + 1) ==> rounds_to(
            n,
            d,
            ordinal,
        ),
        single_distance(n, d, ordinal) > single_distance(n, d, ordinal + 1) ==> rounds_to(
            n,
            d,
            ordinal + 1,
        ),
        single_distance(n, d, ordinal) == single_distance(n, d, ordinal + 1) ==> rounds_to(
            n,
            d,
            if ordinal % 2 == 0 {
                ordinal
            } else {
                ordinal + 1
            },
        ),
{
    assert forall|other: nat| other < ordinal implies single_distance(n, d, ordinal)
        < #[trigger] single_distance(n, d, other) by {
        ordinals_order_singles(other, ordinal);
        assert(single_value(other) * d < single_value(ordinal) * d) by (nonlinear_arith)
            requires
                single_value(other) < single_value(ordinal),
                d > 0,
        ;
    }
    assert forall|other: nat| other > ordinal + 1 implies single_distance(n, d, ordinal + 1)
        < #[trigger] single_distance(n, d, other) by {
        ordinals_order_singles(ordinal + 1, other);
        assert(single_value(ordinal + 1) * d < single_value(other) * d) by (nonlinear_arith)
            requires
                single_value(ordinal + 1) < single_value(other),
                d > 0,
        ;
    }
}

/// A magnitude past the largest single rounds to infinity.
proof fn lemma_rounds_beyond(n: nat, d: nat)
    requires
        d > 0,
        single_value(SINGLE_INFINITY as nat) * d <= n,
    ensures
        rounds_to(n, d, SINGLE_INFINITY as nat),
{
    assert forall|other: nat| other < SINGLE_INFINITY implies single_distance(
        n,
        d,
        SINGLE_INFINITY as nat,
    ) < #[trigger] single_distance(n, d, other) by {
        ordinals_order_singles(other, SINGLE_INFINITY as nat);
        assert(single_value(other) * d < single_value(SINGLE_INFINITY as nat) * d)
            by (nonlinear_arith)
            requires
                single_value(other) < single_value(SINGLE_INFINITY as nat),
                d > 0,
        ;
    }
}

/// Rounding has one result.
pub proof fn rounding_is_unique(n: nat, d: nat, first: nat, second: nat)
    requires
        d > 0,
        rounds_to(n, d, first),
        rounds_to(n, d, second),
    ensures
        first == second,
{
    if first <= second {
        lemma_rounding_is_unique(n, d, first, second);
    } else {
        lemma_rounding_is_unique(n, d, second, first);
    }
}

proof fn lemma_rounding_is_unique(n: nat, d: nat, lower: nat, higher: nat)
    requires
        d > 0,
        lower <= higher,
        rounds_to(n, d, lower),
        rounds_to(n, d, higher),
    ensures
        lower == higher,
{
    if lower < higher {
        let middle = lower + 1;
        assert(single_distance(n, d, lower) == single_distance(n, d, higher));
        assert(lower % 2 == 0 && higher % 2 == 0);
        ordinals_order_singles(lower, middle);
        ordinals_order_singles(middle, higher);
        assert(single_value(lower) * d < single_value(middle) * d < single_value(higher) * d)
            by (nonlinear_arith)
            requires
                single_value(lower) < single_value(middle) < single_value(higher),
                d > 0,
        ;
        assert(single_distance(n, d, lower) <= single_distance(n, d, middle));
        assert(single_distance(n, d, higher) <= single_distance(n, d, middle));
    }
}

/// What rounds to an ordinal is nearest to it.
proof fn lemma_nearest(n: nat, d: nat, ordinal: nat)
    requires
        d > 0,
        rounds_to(n, d, ordinal),
    ensures
        nearest_single(n, d) == ordinal,
{
    rounding_is_unique(n, d, ordinal, nearest_single(n, d));
}

/// Scaling numerator and denominator alike leaves the rounding as it is.
proof fn lemma_rounding_scales(n: nat, d: nat, factor: nat, ordinal: nat)
    requires
        factor > 0,
        rounds_to(n * factor, d * factor, ordinal),
    ensures
        rounds_to(n, d, ordinal),
{
    assert forall|other: nat| #[trigger]
        single_distance(n, d, other) * factor == single_distance(n * factor, d * factor, other) by {
        let value = single_value(other);
        assert(value * (d * factor) == (value * d) * factor) by (nonlinear_arith);
        if value * d <= n {
            assert(value * d * factor <= n * factor && (n - value * d) * factor == n * factor
                - value * d * factor) by (nonlinear_arith)
                requires
                    value * d <= n,
                    factor > 0,
            ;
        } else {
            assert(value * d * factor > n * factor && (value * d - n) * factor == value * d * factor
                - n * factor) by (nonlinear_arith)
                requires
                    value * d > n,
                    factor > 0,
            ;
        }
    }
    let mine = single_distance(n, d, ordinal);
    assert(mine * factor == single_distance(n * factor, d * factor, ordinal));
    assert forall|other: nat| other <= SINGLE_INFINITY && other != ordinal implies {
        ||| mine < #[trigger] single_distance(n, d, other)
        ||| mine == single_distance(n, d, other) && ordinal % 2 == 0
    } by {
        let theirs = single_distance(n, d, other);
        assert(theirs * factor == single_distance(n * factor, d * factor, other));
        assert(mine * factor < theirs * factor ==> mine < theirs) by (nonlinear_arith)
            requires
                factor > 0,
        ;
        assert(mine * factor == theirs * factor ==> mine == theirs) by (nonlinear_arith)
            requires
                factor > 0,
        ;
    }
}

/// Every magnitude lies at an ordinal, between two neighbours, or past them all.
proof fn lemma_place(n: nat, d: nat, bound: nat) -> (ordinal: nat)
    requires
        d > 0,
        n < single_value(bound) * d,
    ensures
        ordinal < bound,
        single_value(ordinal) * d <= n < single_value(ordinal + 1) * d,
    decreases bound,
{
    if bound == 0 {
        assert(single_value(0) * d == 0) by (nonlinear_arith)
            requires
                single_value(0) == 0,
        ;
        0
    } else if single_value((bound - 1) as nat) * d <= n {
        (bound - 1) as nat
    } else {
        lemma_place(n, d, (bound - 1) as nat)
    }
}

/// Rounding always has a result.
pub proof fn rounding_is_total(n: nat, d: nat)
    requires
        d > 0,
    ensures
        rounds_to(n, d, nearest_single(n, d)),
        nearest_single(n, d) <= SINGLE_INFINITY,
{
    let top = SINGLE_INFINITY as nat;
    if n < single_value(top) * d {
        let ordinal = lemma_place(n, d, top);
        lemma_rounds_between(n, d, ordinal);
    } else {
        lemma_rounds_beyond(n, d);
    }
}

/// The ordinal of the single nearest to a number whose significand, 53 bits
/// long, has its first bit at the weight of exponent field `exponent`.
fn round_significand(significand: u64, exponent: u32) -> (ordinal: u32)
    requires
        0x10_0000_0000_0000 <= significand < 0x20_0000_0000_0000,
        1 <= exponent <= 254,
    ensures
        ordinal == nearest_single(significand as nat * pow2((exponent - 1) as nat), pow2(29)),
        ordinal <= SINGLE_INFINITY,
{
    let kept: u64 = significand / 0x2000_0000;
    let dropped: u64 = significand % 0x2000_0000;
    let below: u32 = exponent * 0x80_0000 + (kept as u32 - 0x80_0000);
    proof {
        lemma2_to64();
        let unit = pow2((exponent - 1) as nat);
        lemma_pow2_pos((exponent - 1) as nat);
        let n = significand as nat * unit;
        let d = pow2(29);
        assert(below as nat / 0x80_0000 == exponent && below as nat % 0x80_0000 == kept - 0x80_0000);
        assert(single_value(below as nat) == kept * unit);
        if kept == 0xFF_FFFF {
            assert((below + 1) as nat / 0x80_0000 == exponent + 1 && (below + 1) as nat % 0x80_0000
                == 0);
            lemma_pow2_adds((exponent - 1) as nat, 1);
            assert(0x80_0000 * (unit * 2) == (kept + 1) * unit) by (nonlinear_arith)
                requires
                    kept == 0xFF_FFFF,
            ;
        } else {
            assert((below + 1) as nat / 0x80_0000 == exponent && (below + 1) as nat % 0x80_0000
                == kept + 1 - 0x80_0000);
        }
        assert(single_value((below + 1) as nat) == (kept + 1) * unit);
        assert(significand == kept * 0x2000_0000 + dropped);
        assert(n == (kept * unit) * 0x2000_0000 + dropped * unit) by (nonlinear_arith)
            requires
                n == significand as nat * unit,
                significand == kept * 0x2000_0000 + dropped,
        ;
        assert(((kept + 1) * unit) * 0x2000_0000 == n + (0x2000_0000 - dropped) * unit)
            by (nonlinear_arith)
            requires
                n == (kept * unit) * 0x2000_0000 + dropped * unit,
        ;
        assert(0 <= dropped * unit && 0 < (0x2000_0000 - dropped) * unit) by (nonlinear_arith)
            requires
                dropped < 0x2000_0000,
                unit > 0,
        ;
        assert((dropped < 0x1000_0000 <==> dropped * unit < (0x2000_0000 - dropped) * unit) && (
        dropped == 0x1000_0000 <==> dropped * unit == (0x2000_0000 - dropped) * unit))
            by (nonlinear_arith)
            requires
                unit > 0,
        ;
        lemma_rounds_between(n, d, below as nat);
        let rounded: nat = if dropped < 0x1000_0000 || (dropped == 0x1000_0000 && below % 2 == 0) {
            below as nat
        } else {
            (below + 1) as nat
        };
        assert(rounds_to(n, d, rounded));
        lemma_nearest(n, d, rounded);
    }
    if dropped > 0x1000_0000 || (dropped == 0x1000_0000 && below % 2 == 1) {
        below + 1
    } else {
        below
    }
}

/// The ordinal of the single nearest to `units` times two to the power -24.
pub fn round_units(units: u64) -> (ordinal: u32)
    requires
        units < 0x20_0000_0000_0000,
    ensures
        ordinal == nearest_single(units as nat * pow2(125), 1),
        ordinal <= SINGLE_INFINITY,
{
    if units == 0 {
        proof {
            lemma2_to64();
            assert(0 * pow2(125) == 0) by (nonlinear_arith);
            lemma_single_value_step(0);
            lemma_rounds_between(0, 1, 0);
            lemma_nearest(0, 1, 0);
        }
        return 0;
    }
    let mut significand: u64 = units;
    let mut shift: u32 = 0;
    proof {
        lemma2_to64();
    }
    while significand < 0x10_0000_0000_0000
        invariant
            0 < units,
            0 < significand < 0x20_0000_0000_0000,
            significand == units * pow2(shift as nat),
            shift <= 52,
            significand >= pow2(shift as nat),
        decreases 0x20_0000_0000_0000 - significand,
    {
        proof {
            lemma2_to64();
            lemma2_to64_rest();
            lemma_pow2_adds(shift as nat, 1);
            assert(units * (pow2(shift as nat) * 2) == (units * pow2(shift as nat)) * 2)
                by (nonlinear_arith);
            assert(shift < 52);
        }
        significand = significand * 2;
        shift = shift + 1;
    }
    let ordinal: u32 = round_significand(significand, 155 - shift);
    proof {
        lemma2_to64();
        let n = units as nat * pow2(125);
        lemma_pow2_adds(shift as nat, (154 - shift) as nat);
        lemma_pow2_adds(125, 29);
        assert(units * pow2(shift as nat) * pow2((154 - shift) as nat) == units * (pow2(
            shift as nat,
        ) * pow2((154 - shift) as nat))) by (nonlinear_arith);
        assert(units * pow2(125) * pow2(29) == units * (pow2(125) * pow2(29))) by (nonlinear_arith);
        assert(significand as nat * pow2((154 - shift) as nat) == n * pow2(29));
        assert(1 * pow2(29) == pow2(29));
        rounding_is_total(n * pow2(29), 1 * pow2(29));
        lemma_rounding_scales(n, 1, pow2(29), ordinal as nat);
        lemma_nearest(n, 1, ordinal as nat);
    }
    ordinal
}

/// How often a subnormal mantissa must double to reach its implicit bit.
pub open spec fn normalizing_shift(mantissa: nat, implicit: nat) -> nat
    decreases 2 * implicit - mantissa,
{
    if mantissa == 0 || mantissa >= implicit {
        0
    } else {
        1 + normalizing_shift(2 * mantissa, implicit)
    }
}

/// The exponent and mantissa fields of the single equal to a half.
pub open spec fn widened_half_magnitude(bits: u16) -> nat {
    let exponent = half_exponent(bits);
    let mantissa = half_mantissa(bits);
    if exponent == 31 {
        255 * 0x80_0000 + mantissa * 0x2000
    } else if exponent != 0 {
        (exponent + 112) as nat * 0x80_0000 + mantissa * 0x2000
    } else if mantissa == 0 {
        0
    } else {
        let shift = normalizing_shift(mantissa, 0x400);
        ((113 - shift) * 0x80_0000 + (mantissa * pow2(shift) - 0x400) * 0x2000) as nat
    }
}

/// The bit pattern of the single equal to a half: same sign, same value, and
/// for an infinity or a NaN the same class and payload.
pub open spec fn widened_half(bits: u16) -> u32 {
    (half_sign(bits) * 0x8000_0000 + widened_half_magnitude(bits)) as u32
}

/// The exponent and mantissa fields of the double equal to a single.
pub open spec fn widened_single_magnitude(bits: u32) -> nat {
    let exponent = single_exponent(bits);
    let mantissa = single_mantissa(bits);
    if exponent == 255 {
        2047 * 0x10_0000_0000_0000 + mantissa * 0x2000_0000
    } else if exponent != 0 {
        (exponent + 896) as nat * 0x10_0000_0000_0000 + mantissa * 0x2000_0000
    } else if mantissa == 0 {
        0
    } else {
        let shift = normalizing_shift(mantissa, 0x80_0000);
        ((897 - shift) * 0x10_0000_0000_0000 + (mantissa * pow2(shift) - 0x80_0000)
            * 0x2000_0000) as nat
    }
}

/// The bit pattern of the double equal to a single: same sign, same value, and
/// for an infinity or a NaN the same class and payload.
pub open spec fn widened_single(bits: u32) -> u64 {
    (single_sign(bits) * 0x8000_0000_0000_0000 + widened_single_magnitude(bits)) as u64
}

/// The exponent and mantissa fields of a double narrowed to a single: the
/// nearest one; an infinity stays one; a NaN becomes quiet and keeps the front
/// of its payload.
pub open spec fn narrowed_magnitude(bits: u64) -> nat {
    if double_is_finite(bits) {
        nearest_single(double_value(bits), pow2(925))
    } else if double_mantissa(bits) == 0 {
        SINGLE_INFINITY as nat
    } else {
        SINGLE_NAN as nat + (double_mantissa(bits) / 0x2000_0000) % 0x40_0000
    }
}

/// The bit pattern of a double narrowed to a single, its sign kept.
pub open spec fn narrowed(bits: u64) -> u32 {
    (double_sign(bits) * 0x8000_0000 + narrowed_magnitude(bits)) as u32
}

/// Whether a double is a number, or an infinity, that is at most zero.
pub open spec fn at_most_zero(bits: u64) -> bool {
    &&& double_exponent(bits) == 2047 ==> double_mantissa(bits) == 0
    &&& double_sign(bits) == 1 || (double_exponent(bits) == 0 && double_mantissa(bits) == 0)
}

/// The shift of a subnormal mantissa brings it to its implicit bit, not past it.
proof fn lemma_normalizing_shift(mantissa: nat, bits: nat)
    requires
        0 < mantissa < pow2(bits),
    ensures
        1 <= normalizing_shift(mantissa, pow2(bits)) <= bits,
        pow2(bits) <= mantissa * pow2(normalizing_shift(mantissa, pow2(bits))) < 2 * pow2(bits),
    decreases pow2(bits) - mantissa,
{
    let implicit = pow2(bits);
    lemma2_to64();
    let rest = normalizing_shift(2 * mantissa, implicit);
    assert(normalizing_shift(mantissa, implicit) == 1 + rest);
    lemma_pow2_adds(1, rest);
    assert(mantissa * (2 * pow2(rest)) == (2 * mantissa) * pow2(rest)) by (nonlinear_arith);
    if 2 * mantissa < implicit {
        lemma_normalizing_shift(2 * mantissa, bits);
        if rest == bits {
            assert((2 * mantissa) * pow2(rest) >= 2 * pow2(rest)) by (nonlinear_arith)
                requires
                    mantissa >= 1,
            ;
        }
    } else {
        assert((2 * mantissa) * pow2(rest) == 2 * mantissa) by (nonlinear_arith)
            requires
                pow2(rest) == 1,
        ;
        assert(bits >= 1);
    }
}

/// Converts a half-precision bit pattern into the single-precision one of the
/// same value.
pub fn f16_to_f32(bits: u16) -> (single: u32)
    ensures
        single == widened_half(bits),
        single == half_sign(bits) * 0x8000_0000 + widened_half_magnitude(bits),
{
    let sign: u32 = bits as u32 / 0x8000;
    let exponent: u32 = (bits as u32 / 0x400) % 32;
    let mantissa: u32 = bits as u32 % 0x400;
    let magnitude: u32 = if exponent == 31 {
        0x7F80_0000 + mantissa * 0x2000
    } else if exponent != 0 {
        (exponent + 112) * 0x80_0000 + mantissa * 0x2000
    } else if mantissa == 0 {
        0
    } else {
        let mut normalized: u32 = mantissa;
        let mut shift: u32 = 0;
        proof {
            lemma2_to64();
            lemma_normalizing_shift(mantissa as nat, 10);
        }
        while normalized < 0x400
            invariant
                0 < normalized < 0x800,
                1 <= normalizing_shift(mantissa as nat, 0x400) <= 10,
                shift + normalizing_shift(normalized as nat, 0x400) == normalizing_shift(
                    mantissa as nat,
                    0x400,
                ),
                normalized == mantissa * pow2(shift as nat),
            decreases 0x800 - normalized,
        {
            proof {
                lemma2_to64();
                lemma_pow2_adds(shift as nat, 1);
                assert(mantissa * (pow2(shift as nat) * 2) == (mantissa * pow2(shift as nat)) * 2)
                    by (nonlinear_arith);
            }
            normalized = normalized * 2;
            shift = shift + 1;
        }
        assert(normalizing_shift(normalized as nat, 0x400) == 0);
        (113 - shift) * 0x80_0000 + (normalized - 0x400) * 0x2000
    };
    sign * 0x8000_0000 + magnitude
}

/// Converts a single-precision bit pattern into the double-precision one of the
/// same value.
pub fn widen(bits: u32) -> (double: u64)
    ensures
        double == widened_single(bits),
        double == single_sign(bits) * 0x8000_0000_0000_0000 + widened_single_magnitude(bits),
{
    let sign: u64 = bits as u64 / 0x8000_0000;
    let exponent: u64 = (bits as u64 / 0x80_0000) % 256;
    let mantissa: u64 = bits as u64 % 0x80_0000;
    let magnitude: u64 = if exponent == 255 {
        0x7FF0_0000_0000_0000 + mantissa * 0x2000_0000
    } else if exponent != 0 {
        (exponent + 896) * 0x10_0000_0000_0000 + mantissa * 0x2000_0000
    } else if mantissa == 0 {
        0
    } else {
        let mut normalized: u64 = mantissa;
        let mut shift: u64 = 0;
        proof {
            lemma2_to64();
            lemma_normalizing_shift(mantissa as nat, 23);
        }
        while normalized < 0x80_0000
            invariant
                0 < normalized < 0x100_0000,
                1 <= normalizing_shift(mantissa as nat, 0x80_0000) <= 23,
                shift + normalizing_shift(normalized as nat, 0x80_0000) == normalizing_shift(
                    mantissa as nat,
                    0x80_0000,
                ),
                normalized == mantissa * pow2(shift as nat),
            decreases 0x100_0000 - normalized,
        {
            proof {
                lemma2_to64();
                lemma_pow2_adds(shift as nat, 1);
                assert(mantissa * (pow2(shift as nat) * 2) == (mantissa * pow2(shift as nat)) * 2)
                    by (nonlinear_arith);
            }
            normalized = normalized * 2;
            shift = shift + 1;
        }
        assert(normalizing_shift(normalized as nat, 0x80_0000) == 0);
        (897 - shift) * 0x10_0000_0000_0000 + (normalized - 0x80_0000) * 0x2000_0000
    };
    sign * 0x8000_0000_0000_0000 + magnitude
}

/// Whether a double-precision bit pattern is at most zero; a NaN is not.
pub fn is_at_most_zero(bits: u64) -> (answer: bool)
    ensures
        answer == at_most_zero(bits),
{
    let negative: bool = bits / 0x8000_0000_0000_0000 == 1;
    let exponent: u64 = (bits / 0x10_0000_0000_0000) % 2048;
    let mantissa: u64 = bits % 0x10_0000_0000_0000;
    (exponent != 2047 || mantissa == 0) && (negative || (exponent == 0 && mantissa == 0))
}

/// Widening a half is exact: the single has the same sign; a number keeps its
/// value (a unit of the half's is two to the power 125 units of the single's),
/// an infinity stays an infinity and a NaN a NaN.
pub proof fn widening_a_half_is_exact(bits: u16)
    ensures
        widened_half(bits) == half_sign(bits) * 0x8000_0000 + widened_half_magnitude(bits),
        single_sign(widened_half(bits)) == half_sign(bits),
        half_is_finite(bits) <==> single_exponent(widened_half(bits)) != 255,
        half_is_finite(bits) ==> single_value(widened_half_magnitude(bits)) == half_value(bits)
            * pow2(125),
        !half_is_finite(bits) ==> (single_mantissa(widened_half(bits)) == 0 <==> half_mantissa(bits)
            == 0),
{
    let exponent = half_exponent(bits);
    let mantissa = half_mantissa(bits);
    lemma2_to64();
    if exponent == 31 {
    } else if exponent != 0 {
        let ordinal = widened_half_magnitude(bits);
        assert(ordinal / 0x80_0000 == exponent + 112);
        assert(ordinal % 0x80_0000 == mantissa * 0x2000);
        let unit = pow2((exponent - 1) as nat);
        lemma_pow2_adds((exponent - 1) as nat, 125);
        lemma_pow2_adds(13, (exponent + 111) as nat);
        let high = pow2((exponent + 111) as nat);
        assert((0x80_0000 + mantissa * 0x2000) * high == (0x400 + mantissa) * (0x2000 * high))
            by (nonlinear_arith);
        assert((0x400 + mantissa) * (unit * pow2(125)) == (0x400 + mantissa) * unit * pow2(125))
            by (nonlinear_arith);
    } else if mantissa == 0 {
        assert(0 * pow2(125) == 0) by (nonlinear_arith);
    } else {
        let shift = normalizing_shift(mantissa, 0x400);
        lemma_normalizing_shift(mantissa, 10);
        let ordinal = widened_half_magnitude(bits);
        let raised = mantissa * pow2(shift);
        assert(ordinal / 0x80_0000 == 113 - shift);
        assert(ordinal % 0x80_0000 == (raised - 0x400) * 0x2000);
        let high = pow2((112 - shift) as nat);
        lemma_pow2_adds(13, (112 - shift) as nat);
        lemma_pow2_adds(shift, (125 - shift) as nat);
        assert((0x80_0000 + (raised - 0x400) * 0x2000) * high == raised * (0x2000 * high))
            by (nonlinear_arith);
        assert(mantissa * pow2(shift) * pow2((125 - shift) as nat) == mantissa * (pow2(shift)
            * pow2((125 - shift) as nat))) by (nonlinear_arith);
    }
}

/// Widening a single is exact: the double has the same sign; a number keeps its
/// value (a unit of the single's is two to the power 925 units of the double's),
/// an infinity stays an infinity and a NaN a NaN.
pub proof fn widening_a_single_is_exact(bits: u32)
    ensures
        widened_single(bits) == single_sign(bits) * 0x8000_0000_0000_0000
            + widened_single_magnitude(bits),
        double_sign(widened_single(bits)) == single_sign(bits),
        single_exponent(bits) != 255 <==> double_is_finite(widened_single(bits)),
        single_exponent(bits) != 255 ==> double_value(widened_single(bits)) == single_value(
            bits as nat % 0x8000_0000,
        ) * pow2(925),
        single_exponent(bits) == 255 ==> (double_mantissa(widened_single(bits)) == 0
            <==> single_mantissa(bits) == 0),
{
    let exponent = single_exponent(bits);
    let mantissa = single_mantissa(bits);
    let ordinal = bits as nat % 0x8000_0000;
    assert(ordinal / 0x80_0000 == exponent && ordinal % 0x80_0000 == mantissa);
    lemma2_to64();
    lemma2_to64_rest();
    let wide = widened_single(bits);
    if exponent == 255 {
    } else if exponent != 0 {
        assert(double_exponent(wide) == exponent + 896);
        assert(double_mantissa(wide) == mantissa * 0x2000_0000);
        let unit = pow2((exponent - 1) as nat);
        lemma_pow2_adds((exponent - 1) as nat, 925);
        lemma_pow2_adds(29, (exponent + 895) as nat);
        let high = pow2((exponent + 895) as nat);
        assert((0x10_0000_0000_0000 + mantissa * 0x2000_0000) * high == (0x80_0000 + mantissa) * (
        0x2000_0000 * high)) by (nonlinear_arith);
        assert((0x80_0000 + mantissa) * (unit * pow2(925)) == (0x80_0000 + mantissa) * unit * pow2(
            925,
        )) by (nonlinear_arith);
    } else if mantissa == 0 {
        assert(0 * pow2(925) == 0) by (nonlinear_arith);
    } else {
        let shift = normalizing_shift(mantissa, 0x80_0000);
        lemma_normalizing_shift(mantissa, 23);
        let raised = mantissa * pow2(shift);
        assert(double_exponent(wide) == 897 - shift);
        assert(double_mantissa(wide) == (raised - 0x80_0000) * 0x2000_0000);
        let high = pow2((896 - shift) as nat);
        lemma_pow2_adds(29, (896 - shift) as nat);
        lemma_pow2_adds(shift, (925 - shift) as nat);
        assert((0x10_0000_0000_0000 + (raised - 0x80_0000) * 0x2000_0000) * high == raised * (
        0x2000_0000 * high)) by (nonlinear_arith);
        assert(mantissa * pow2(shift) * pow2((925 - shift) as nat) == mantissa * (pow2(shift)
            * pow2((925 - shift) as nat))) by (nonlinear_arith);
    }
}

/// Converts a double-precision bit pattern into the single-precision one nearest
/// to it.
pub fn narrow(bits: u64) -> (single: u32)
    ensures
        single == narrowed(bits),
        single == double_sign(bits) * 0x8000_0000 + narrowed_magnitude(bits),
{
    let sign: u32 = (bits / 0x8000_0000_0000_0000) as u32;
    let exponent: u32 = ((bits / 0x10_0000_0000_0000) % 2048) as u32;
    let mantissa: u64 = bits % 0x10_0000_0000_0000;
    proof {
        lemma_pow2_pos(925);
        rounding_is_total(double_value(bits), pow2(925));
    }
    let magnitude: u32 = if exponent == 2047 {
        if mantissa == 0 {
            SINGLE_INFINITY
        } else {
            SINGLE_NAN + ((mantissa / 0x2000_0000) % 0x40_0000) as u32
        }
    } else if exponent >= 1151 {
        proof {
            lemma_narrowing_overflows(bits);
        }
        SINGLE_INFINITY
    } else if exponent >= 897 {
        let ordinal: u32 = round_significand(0x10_0000_0000_0000 + mantissa, exponent - 896);
        proof {
            lemma_narrowing_to_normal(bits, ordinal as nat);
        }
        ordinal
    } else if exponent <= 872 {
        proof {
            lemma_narrowing_vanishes(bits);
        }
        0
    } else {
        let significand: u64 = 0x10_0000_0000_0000 + mantissa;
        let mut unit: u64 = 1;
        let mut shift: u32 = 0;
        proof {
            lemma2_to64();
        }
        while shift < 926 - exponent
            invariant
                873 <= exponent < 897,
                shift <= 926 - exponent,
                unit == pow2(shift as nat),
            decreases 926 - exponent - shift,
        {
            proof {
                lemma2_to64();
                lemma2_to64_rest();
                lemma_pow2_adds(shift as nat, 1);
            }
            unit = unit * 2;
            shift = shift + 1;
        }
        proof {
            lemma2_to64();
            lemma2_to64_rest();
        }
        let below: u64 = significand / unit;
        let dropped: u64 = significand % unit;
        proof {
            lemma_fundamental_div_mod(significand as int, unit as int);
            lemma_mul_is_commutative(unit as int, below as int);
            lemma_narrowing_to_subnormal(bits, unit as nat, below as nat, dropped as nat);
        }
        if dropped > unit - dropped || (dropped == unit - dropped && below % 2 == 1) {
            (below + 1) as u32
        } else {
            below as u32
        }
    };
    sign * 0x8000_0000 + magnitude
}

proof fn lemma_narrowing_overflows(bits: u64)
    requires
        double_is_finite(bits),
        double_exponent(bits) >= 1151,
    ensures
        nearest_single(double_value(bits), pow2(925)) == SINGLE_INFINITY,
{
    let significand = 0x10_0000_0000_0000 + double_mantissa(bits);
    let high = pow2((double_exponent(bits) - 1) as nat);
    lemma2_to64();
    lemma2_to64_rest();
    lemma_pow2_pos(925);
    assert(single_value(SINGLE_INFINITY as nat) == 0x80_0000 * pow2(254));
    lemma_pow2_adds(23, 254);
    lemma_pow2_adds(277, 925);
    lemma_pow2_adds(52, 1150);
    assert(single_value(SINGLE_INFINITY as nat) * pow2(925) == 0x10_0000_0000_0000 * pow2(1150));
    if double_exponent(bits) > 1151 {
        lemma_pow2_strictly_increases(1150, (double_exponent(bits) - 1) as nat);
    }
    assert(0x10_0000_0000_0000 * pow2(1150) <= significand * high) by (nonlinear_arith)
        requires
            pow2(1150) <= high,
            0x10_0000_0000_0000 <= significand,
    ;
    lemma_rounds_beyond(double_value(bits), pow2(925));
    lemma_nearest(double_value(bits), pow2(925), SINGLE_INFINITY as nat);
}

proof fn lemma_narrowing_to_normal(bits: u64, ordinal: nat)
    requires
        897 <= double_exponent(bits) <= 1150,
        ordinal == nearest_single(
            (0x10_0000_0000_0000 + double_mantissa(bits)) as nat * pow2(
                (double_exponent(bits) - 897) as nat,
            ),
            pow2(29),
        ),
    ensures
        nearest_single(double_value(bits), pow2(925)) == ordinal,
{
    let significand = (0x10_0000_0000_0000 + double_mantissa(bits)) as nat;
    let low = pow2((double_exponent(bits) - 897) as nat);
    lemma_pow2_pos(29);
    lemma_pow2_pos(896);
    lemma_pow2_pos(925);
    lemma_pow2_adds((double_exponent(bits) - 897) as nat, 896);
    lemma_pow2_adds(29, 896);
    assert(significand * low * pow2(896) == significand * (low * pow2(896))) by (nonlinear_arith);
    let n = significand * low;
    rounding_is_total(n, pow2(29));
    rounding_is_total(n * pow2(896), pow2(29) * pow2(896));
    let scaled = nearest_single(n * pow2(896), pow2(29) * pow2(896));
    lemma_rounding_scales(n, pow2(29), pow2(896), scaled);
    rounding_is_unique(n, pow2(29), scaled, ordinal);
}

proof fn lemma_narrowing_vanishes(bits: u64)
    requires
        double_exponent(bits) <= 872,
    ensures
        nearest_single(double_value(bits), pow2(925)) == 0,
{
    let n = double_value(bits);
    let d = pow2(925);
    lemma2_to64();
    lemma2_to64_rest();
    lemma_pow2_pos(925);
    assert(2 * n < d) by {
        if double_exponent(bits) == 0 {
            lemma_pow2_strictly_increases(54, 925);
        } else {
            let high = pow2((double_exponent(bits) - 1) as nat);
            let significand = 0x10_0000_0000_0000 + double_mantissa(bits);
            lemma_pow2_adds(53, (double_exponent(bits) - 1) as nat);
            lemma_pow2_adds(1, (double_exponent(bits) + 52) as nat);
            lemma_pow2_pos((double_exponent(bits) - 1) as nat);
            if double_exponent(bits) < 872 {
                lemma_pow2_strictly_increases((double_exponent(bits) + 53) as nat, 925);
            }
            assert(significand * high < 0x20_0000_0000_0000 * high) by (nonlinear_arith)
                requires
                    significand < 0x20_0000_0000_0000,
                    high > 0,
            ;
        }
    }
    lemma_single_value_step(0);
    assert(single_value(0) == 0 && single_value(1) == 1);
    assert(0 * d == 0 && 1 * d == d);
    lemma_rounds_between(n, d, 0);
    lemma_nearest(n, d, 0);
}

proof fn lemma_narrowing_to_subnormal(bits: u64, unit: nat, below: nat, dropped: nat)
    requires
        873 <= double_exponent(bits) < 897,
        unit == pow2((926 - double_exponent(bits)) as nat),
        0x10_0000_0000_0000 + double_mantissa(bits) == below * unit + dropped,
        dropped < unit,
        unit >= 0x4000_0000,
    ensures
        below < 0x80_0000,
        nearest_single(double_value(bits), pow2(925)) == if dropped > unit - dropped || (dropped
            == unit - dropped && below % 2 == 1) {
            below + 1
        } else {
            below
        },
{
    let significand = 0x10_0000_0000_0000 + double_mantissa(bits);
    let high = pow2((double_exponent(bits) - 1) as nat);
    let n = double_value(bits);
    let d = pow2(925);
    lemma2_to64();
    lemma_pow2_pos((double_exponent(bits) - 1) as nat);
    lemma_pow2_pos(925);
    lemma_pow2_adds((926 - double_exponent(bits)) as nat, (double_exponent(bits) - 1) as nat);
    assert(unit * high == d);
    assert(below < 0x80_0000) by {
        assert(below >= 0x80_0000 ==> below * unit >= 0x80_0000 * 0x4000_0000)
            by (nonlinear_arith)
            requires
                unit >= 0x4000_0000,
        ;
    }
    assert(single_value(below) == below);
    assert(single_value(below + 1) == below + 1) by {
        if below + 1 == 0x80_0000 {
            assert(0x80_0000 * pow2(0) == 0x80_0000);
        }
    }
    assert(n == below * d + dropped * high) by (nonlinear_arith)
        requires
            n == significand * high,
            significand == below * unit + dropped,
            unit * high == d,
    ;
    assert((below + 1) * d == n + (unit - dropped) * high) by (nonlinear_arith)
        requires
            n == below * d + dropped * high,
            unit * high == d,
    ;
    assert(0 <= dropped * high && 0 < (unit - dropped) * high) by (nonlinear_arith)
        requires
            dropped < unit,
            high > 0,
    ;
    assert((dropped < unit - dropped <==> dropped * high < (unit - dropped) * high) && (dropped
        == unit - dropped <==> dropped * high == (unit - dropped) * high)) by (nonlinear_arith)
        requires
            high > 0,
    ;
    lemma_rounds_between(n, d, below);
    let rounded: nat = if dropped > unit - dropped || (dropped == unit - dropped && below % 2
        == 1) {
        below + 1
    } else {
        below
    };
    assert(rounds_to(n, d, rounded));
    lemma_nearest(n, d, rounded);
}

/// A representable magnitude rounds to itself.
pub proof fn representable_rounds_to_itself(ordinal: nat, d: nat)
    requires
        d > 0,
        ordinal <= SINGLE_INFINITY,
    ensures
        nearest_single(single_value(ordinal) * d, d) == ordinal,
{
    let n = single_value(ordinal) * d;
    if ordinal == SINGLE_INFINITY {
        lemma_rounds_beyond(n, d);
    } else {
        lemma_single_value_step(ordinal);
        assert(n < single_value(ordinal + 1) * d) by (nonlinear_arith)
            requires
                n == single_value(ordinal) * d,
                single_value(ordinal) < single_value(ordinal + 1),
                d > 0,
        ;
        lemma_rounds_between(n, d, ordinal);
    }
    lemma_nearest(n, d, ordinal);
}

/// Narrowing undoes widening, for every single that is not a NaN.
pub proof fn narrowing_undoes_widening(bits: u32)
    requires
        single_exponent(bits) == 255 ==> single_mantissa(bits) == 0,
    ensures
        narrowed(widened_single(bits)) == bits,
{
    widening_a_single_is_exact(bits);
    let ordinal = bits as nat % 0x8000_0000;
    assert(ordinal / 0x80_0000 == single_exponent(bits) && ordinal % 0x80_0000 == single_mantissa(
        bits,
    ));
    lemma_pow2_pos(925);
    if single_exponent(bits) != 255 {
        representable_rounds_to_itself(ordinal, pow2(925));
    }
}

} // verus!
