//! What bit patterns stand for, and what conversions keep of it.
//!
//! A pattern without its sign counts through the numbers of its format: first the subnormal
//! ones, evenly spaced, then one octave after another with twice the spacing of the one before.

use vstd::arithmetic::power2::{lemma_pow2_adds, lemma_pow2_pos, pow2};
use vstd::prelude::*;

use crate::float::{at_most_zero, double_value, half_value, narrowed, nearest_single};
use crate::float::{ordinals_order_singles, rounding_is_total, single_distance};
use crate::float::{single_value, widened_half, widened_single, widening_a_half_is_exact};
use crate::float::{widening_a_single_is_exact, SINGLE_INFINITY};

verus! {

/// The number at a place, where an octave has `octave` numbers, in units of the smallest.
pub open spec fn number_at(place: nat, octave: nat) -> nat {
    if place < octave {
        place
    } else {
        (octave + place % octave) * pow2((place / octave - 1) as nat)
    }
}

/// The number that a half stands for, in units of two to the power -24.
pub open spec fn half_number(bits: u16) -> int {
    if bits < 0x8000 {
        number_at(bits as nat, 0x400) as int
    } else {
        -(number_at((bits - 0x8000) as nat, 0x400) as int)
    }
}

/// The number that a single stands for, in units of two to the power -149.
pub open spec fn single_number(bits: u32) -> int {
    if bits < 0x8000_0000 {
        number_at(bits as nat, 0x80_0000) as int
    } else {
        -(number_at((bits - 0x8000_0000) as nat, 0x80_0000) as int)
    }
}

/// The number that a double stands for, in units of two to the power -1074.
pub open spec fn double_number(bits: u64) -> int {
    if bits < 0x8000_0000_0000_0000 {
        number_at(bits as nat, 0x10_0000_0000_0000) as int
    } else {
        -(number_at((bits - 0x8000_0000_0000_0000) as nat, 0x10_0000_0000_0000) as int)
    }
}

/// Whether a half is a number: infinities and what is no number come after all of them.
pub open spec fn is_half_number(bits: u16) -> bool {
    bits % 0x8000 < 0x7C00
}

/// Whether a single is a number.
pub open spec fn is_single_number(bits: u32) -> bool {
    bits % 0x8000_0000 < 0x7F80_0000
}

/// Whether a double is a number.
pub open spec fn is_double_number(bits: u64) -> bool {
    bits % 0x8000_0000_0000_0000 < 0x7FF0_0000_0000_0000
}

/// How far a number is from another.
pub open spec fn gap(a: int, b: int) -> int {
    if a < b {
        b - a
    } else {
        a - b
    }
}

/// Whether a single is the one that `n / d` rounds to, in units of two to the power -149: a
/// number than which none is nearer, and the one with an even pattern where two are equally
/// near.
pub open spec fn is_nearest(single: u32, n: int, d: nat) -> bool {
    &&& is_single_number(single)
    &&& forall|other: u32|
        is_single_number(other) ==> {
            &&& gap(single_number(single) * d, n) <= gap(#[trigger] single_number(other) * d, n)
            &&& single_number(other) != single_number(single) && gap(
                single_number(single) * d,
                n,
            ) == gap(single_number(other) * d, n) ==> single % 2 == 0
        }
}

/// Widening a half keeps its sign and its number; an infinity stays one, and what is no number
/// stays none.
pub proof fn widened_halves_keep_their_number(bits: u16)
    ensures
        is_half_number(bits) ==> is_single_number(widened_half(bits)) && single_number(
            widened_half(bits),
        ) == half_number(bits) * pow2(125),
        widened_half(bits) >= 0x8000_0000 <==> bits >= 0x8000,
        bits % 0x8000 == 0x7C00 ==> widened_half(bits) % 0x8000_0000 == 0x7F80_0000,
        bits % 0x8000 > 0x7C00 ==> widened_half(bits) % 0x8000_0000 > 0x7F80_0000,
{
    widening_a_half_is_exact(bits);
    let wide = widened_half(bits);
    let place = bits as nat % 0x8000;
    assert(half_value(bits) == number_at(place, 0x400)) by {
        assert(place / 0x400 == (bits / 0x400) % 32);
        assert(place % 0x400 == bits % 0x400);
    }
    let ordinal = wide as nat % 0x8000_0000;
    assert(single_value(ordinal) == number_at(ordinal, 0x80_0000));
    if is_half_number(bits) {
        let v = half_value(bits) as int;
        assert((-v) * pow2(125) == -(v * pow2(125))) by (nonlinear_arith);
    }
}

/// Widening a single keeps its sign and its number; an infinity stays one, and what is no
/// number stays none.
pub proof fn widened_singles_keep_their_number(bits: u32)
    ensures
        is_single_number(bits) ==> is_double_number(widened_single(bits)) && double_number(
            widened_single(bits),
        ) == single_number(bits) * pow2(925),
        widened_single(bits) >= 0x8000_0000_0000_0000 <==> bits >= 0x8000_0000,
        bits % 0x8000_0000 == 0x7F80_0000 ==> widened_single(bits) % 0x8000_0000_0000_0000
            == 0x7FF0_0000_0000_0000,
        bits % 0x8000_0000 > 0x7F80_0000 ==> widened_single(bits) % 0x8000_0000_0000_0000
            > 0x7FF0_0000_0000_0000,
{
    widening_a_single_is_exact(bits);
    let wide = widened_single(bits);
    let place = bits as nat % 0x8000_0000;
    let ordinal = wide as nat % 0x8000_0000_0000_0000;
    lemma_double_value(wide);
    if is_single_number(bits) {
        let v = single_value(place) as int;
        assert((-v) * pow2(925) == -(v * pow2(925))) by (nonlinear_arith);
    }
}

proof fn lemma_double_value(bits: u64)
    ensures
        double_value(bits) == number_at(
            bits as nat % 0x8000_0000_0000_0000,
            0x10_0000_0000_0000,
        ),
{
    let place = bits as nat % 0x8000_0000_0000_0000;
    assert(place / 0x10_0000_0000_0000 == (bits / 0x10_0000_0000_0000) % 2048);
    assert(place % 0x10_0000_0000_0000 == bits % 0x10_0000_0000_0000);
}

/// The magnitude of a single, by its ordinal.
proof fn lemma_single_number(bits: u32)
    ensures
        bits < 0x8000_0000 ==> single_number(bits) == single_value(bits as nat),
        bits >= 0x8000_0000 ==> single_number(bits) == -(single_value(
            (bits - 0x8000_0000) as nat,
        ) as int),
{
}

/// The largest single, and where rounding overflows.
proof fn lemma_top()
    ensures
        single_value(0x7F7F_FFFF) == 0xFF_FFFF * pow2(253),
        single_value(SINGLE_INFINITY as nat) == 0x100_0000 * pow2(253),
        pow2(253) > 0,
{
    assert(0x7F7F_FFFFnat / 0x80_0000 == 254 && 0x7F7F_FFFFnat % 0x80_0000 == 0x7F_FFFF);
    assert(0x7F80_0000nat / 0x80_0000 == 255 && 0x7F80_0000nat % 0x80_0000 == 0);
    lemma_pow2_pos(253);
    lemma_pow2_adds(253, 1);
    vstd::arithmetic::power2::lemma2_to64();
    assert(0x80_0000 * (pow2(253) * 2) == 0x100_0000 * pow2(253)) by (nonlinear_arith);
}

/// The nearest ordinal is no infinity exactly up to half a step past the largest number.
proof fn lemma_overflow(n: nat, d: nat)
    requires
        d > 0,
    ensures
        nearest_single(n, d) == SINGLE_INFINITY <==> 2 * n >= 0x1FF_FFFF * pow2(253) * d,
{
    rounding_is_total(n, d);
    lemma_top();
    let top: nat = 0x7F7F_FFFF;
    let past = SINGLE_INFINITY as nat;
    let ordinal = nearest_single(n, d);
    let unit = pow2(253);
    let a = 0xFF_FFFF * unit * d;
    let b = 0x100_0000 * unit * d;
    assert(single_value(top) * d == a && single_value(past) * d == b);
    assert(0x1FF_FFFF * unit * d == a + b) by (nonlinear_arith)
        requires
            a == 0xFF_FFFF * unit * d,
            b == 0x100_0000 * unit * d,
    ;
    assert(a < b) by (nonlinear_arith)
        requires
            a == 0xFF_FFFF * unit * d,
            b == 0x100_0000 * unit * d,
            unit > 0,
            d > 0,
    ;
    if ordinal == past {
        assert(single_distance(n, d, past) <= single_distance(n, d, top));
    } else {
        if 2 * n >= a + b {
            assert(single_distance(n, d, past) <= single_distance(n, d, top));
            if ordinal != top {
                assert(ordinal < top);
                ordinals_order_singles(ordinal, top);
                let v = single_value(ordinal);
                assert(v * d < single_value(top) * d) by (nonlinear_arith)
                    requires
                        v < single_value(top),
                        d > 0,
                ;
                assert(single_distance(n, d, ordinal) > single_distance(n, d, past));
            } else {
                assert(single_distance(n, d, top) <= single_distance(n, d, past));
                assert(top % 2 == 1);
                assert(single_distance(n, d, ordinal) < single_distance(n, d, past));
            }
        }
    }
}

/// Rounding a magnitude and giving it a sign gives the nearest single of that sign, unless it
/// overflows.
pub proof fn rounded_magnitudes_are_nearest(n: nat, d: nat, negative: bool, single: u32)
    requires
        d > 0,
        single == nearest_single(n, d) + (if negative {
            0x8000_0000int
        } else {
            0int
        }),
    ensures
        2 * n < 0x1FF_FFFF * pow2(253) * d ==> is_nearest(
            single,
            if negative {
                -(n as int)
            } else {
                n as int
            },
            d,
        ),
        2 * n >= 0x1FF_FFFF * pow2(253) * d ==> single % 0x8000_0000 == 0x7F80_0000,
        single >= 0x8000_0000 <==> negative,
{
    rounding_is_total(n, d);
    lemma_overflow(n, d);
    let ordinal = nearest_single(n, d);
    let exact: int = if negative {
        -(n as int)
    } else {
        n as int
    };
    if ordinal < SINGLE_INFINITY {
        lemma_single_number(single);
        let v = single_value(ordinal) as int;
        assert((-v) * d == -(v * d)) by (nonlinear_arith);
        assert(gap(single_number(single) * d, exact) == single_distance(n, d, ordinal));
        assert forall|other: u32| is_single_number(other) implies {
            &&& gap(single_number(single) * d, exact) <= gap(
                #[trigger] single_number(other) * d,
                exact,
            )
            &&& single_number(other) != single_number(single) && gap(
                single_number(single) * d,
                exact,
            ) == gap(single_number(other) * d, exact) ==> single % 2 == 0
        } by {
            lemma_single_number(other);
            let place = (other % 0x8000_0000) as nat;
            let w = single_value(place) as int;
            assert((-w) * d == -(w * d)) by (nonlinear_arith);
            assert(w * d >= 0) by (nonlinear_arith)
                requires
                    w >= 0,
                    d > 0,
            ;
            let same_side = (other >= 0x8000_0000) == negative;
            assert(single_distance(n, d, ordinal) <= single_distance(n, d, place));
            assert(single_distance(n, d, ordinal) <= single_distance(n, d, 0)) by {
                assert(0 * d == 0);
            }
            if same_side {
                assert(gap(single_number(other) * d, exact) == single_distance(n, d, place));
            } else {
                assert(gap(single_number(other) * d, exact) == w * d + n);
                if w == 0 {
                    assert(single_distance(n, d, 0) == n) by {
                        assert(0 * d == 0);
                    }
                    if ordinal != 0 {
                        assert(single_distance(n, d, ordinal) < single_distance(n, d, 0)
                            || ordinal % 2 == 0);
                    }
                } else {
                    assert(w * d > 0) by (nonlinear_arith)
                        requires
                            w > 0,
                            d > 0,
                    ;
                    assert(single_distance(n, d, 0) == n) by {
                        assert(0 * d == 0);
                    }
                }
            }
        }
    }
}

/// Narrowing a double takes the nearest single, and infinity from half a step past the largest
/// on; the sign stays, an infinity stays one, and what is no number stays none.
pub proof fn narrowed_doubles_are_nearest(bits: u64)
    ensures
        narrowed(bits) >= 0x8000_0000 <==> bits >= 0x8000_0000_0000_0000,
        is_double_number(bits) && 2 * gap(double_number(bits), 0) < 0x1FF_FFFF * pow2(253) * pow2(
            925,
        ) ==> is_nearest(narrowed(bits), double_number(bits), pow2(925)),
        is_double_number(bits) && 2 * gap(double_number(bits), 0) >= 0x1FF_FFFF * pow2(253) * pow2(
            925,
        ) ==> narrowed(bits) % 0x8000_0000 == 0x7F80_0000,
        bits % 0x8000_0000_0000_0000 == 0x7FF0_0000_0000_0000 ==> narrowed(bits) % 0x8000_0000
            == 0x7F80_0000,
        bits % 0x8000_0000_0000_0000 > 0x7FF0_0000_0000_0000 ==> narrowed(bits) % 0x8000_0000
            > 0x7F80_0000,
{
    lemma_pow2_pos(925);
    lemma_double_value(bits);
    let n = double_value(bits);
    rounding_is_total(n, pow2(925));
    if is_double_number(bits) {
        rounded_magnitudes_are_nearest(
            n,
            pow2(925),
            bits >= 0x8000_0000_0000_0000,
            narrowed(bits),
        );
    }
}

/// A double is at most zero exactly where its number is; an infinity is where it is negative,
/// and what is no number never is.
pub proof fn comparing_with_zero(bits: u64)
    ensures
        is_double_number(bits) ==> (at_most_zero(bits) <==> double_number(bits) <= 0),
        bits == 0x7FF0_0000_0000_0000 ==> !at_most_zero(bits),
        bits == 0xFFF0_0000_0000_0000 ==> at_most_zero(bits),
        bits % 0x8000_0000_0000_0000 > 0x7FF0_0000_0000_0000 ==> !at_most_zero(bits),
{
    let place = bits as nat % 0x8000_0000_0000_0000;
    if place >= 0x10_0000_0000_0000 {
        let power = (place / 0x10_0000_0000_0000 - 1) as nat;
        lemma_pow2_pos(power);
        assert((0x10_0000_0000_0000 + place % 0x10_0000_0000_0000) * pow2(power) > 0)
            by (nonlinear_arith)
            requires
                pow2(power) > 0,
        ;
    }
}

} // verus!
