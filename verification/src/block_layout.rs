//! How blocks are laid out, seen from the side that packs them.
//!
//! Packing is stated here as the formats describe it, and nowhere run: what was packed is what
//! unpacking gives back.

use vstd::arithmetic::power2::{lemma2_to64, lemma_pow2_adds, lemma_pow2_pos, pow2};
use vstd::prelude::*;

use crate::dequantize::{byte_bit, half_at, k_value, low_quant, packed_scale_min};
use crate::dequantize::{lemma_half_value_bound, products_are_exact};
use crate::dequantize::{q4_k_value, q4_k_values, q5_k_value, q5_k_values, q8_0_value, q8_0_values};
use crate::float::{half_value, nearest_single, rounding_is_total, single_value};
use crate::numbers::{half_number, is_half_number, is_nearest, is_single_number, number_at};
use crate::numbers::{rounded_magnitudes_are_nearest, single_number};

verus! {

/// Eight six-bit scales and eight six-bit minimums in twelve bytes. The first four bytes hold a
/// scale of the first half, the next four a minimum of the first half, and above each stand the
/// top two bits of its counterpart in the second half; the last four hold what is left of the
/// second half, the scale's low nibble below the minimum's.
pub open spec fn pack_scales(scales: Seq<u8>, minimums: Seq<u8>) -> Seq<u8> {
    Seq::new(
        12,
        |at: int|
            if at < 4 {
                (scales[at] + 64 * (scales[at + 4] / 16)) as u8
            } else if at < 8 {
                (minimums[at - 4] + 64 * (minimums[at] / 16)) as u8
            } else {
                (scales[at - 4] % 16 + 16 * (minimums[at - 4] % 16)) as u8
            },
    )
}

/// Whether a list holds as many six-bit numbers as a super-block has sub-blocks.
pub open spec fn are_six_bit(numbers: Seq<u8>) -> bool {
    numbers.len() == 8 && forall|at: int| 0 <= at < 8 ==> (#[trigger] numbers[at]) < 64
}

/// Unpacking gives back every scale and every minimum that was packed, wherever the twelve
/// bytes stand.
pub proof fn packed_scales_are_given_back(
    scales: Seq<u8>,
    minimums: Seq<u8>,
    raw: Seq<u8>,
    start: int,
    sub: int,
)
    requires
        are_six_bit(scales),
        are_six_bit(minimums),
        0 <= start,
        start + 12 <= raw.len(),
        raw.subrange(start, start + 12) == pack_scales(scales, minimums),
        0 <= sub < 8,
    ensures
        packed_scale_min(raw, start, sub) == (scales[sub], minimums[sub]),
{
    let packed = pack_scales(scales, minimums);
    let part = raw.subrange(start, start + 12);
    assert(scales[sub] < 64 && minimums[sub] < 64);
    if sub < 4 {
        assert(scales[sub + 4] < 64 && minimums[sub + 4] < 64);
        lemma_two_parts(scales[sub] as int, (scales[sub + 4] / 16) as int);
        lemma_two_parts(minimums[sub] as int, (minimums[sub + 4] / 16) as int);
        assert(part[sub] == raw[start + sub] && part[sub + 4] == raw[start + sub + 4]);
        assert(packed[sub] == scales[sub] + 64 * (scales[sub + 4] / 16));
        assert(packed[sub + 4] == minimums[sub] + 64 * (minimums[sub + 4] / 16));
    } else {
        assert(scales[sub - 4] < 64 && minimums[sub - 4] < 64);
        lemma_two_parts(scales[sub - 4] as int, (scales[sub] / 16) as int);
        lemma_two_parts(minimums[sub - 4] as int, (minimums[sub] / 16) as int);
        lemma_two_nibbles((scales[sub] % 16) as int, (minimums[sub] % 16) as int);
        assert(part[sub - 4] == raw[start + sub - 4] && part[sub] == raw[start + sub]);
        assert(part[sub + 4] == raw[start + sub + 4]);
        assert(packed[sub - 4] == scales[sub - 4] + 64 * (scales[sub] / 16));
        assert(packed[sub] == minimums[sub - 4] + 64 * (minimums[sub] / 16));
        assert(packed[sub + 4] == scales[sub] % 16 + 16 * (minimums[sub] % 16));
    }
}

/// Six bits below two more.
proof fn lemma_two_parts(low: int, high: int)
    requires
        0 <= low < 64,
        0 <= high < 4,
    ensures
        0 <= low + 64 * high < 256,
        (low + 64 * high) % 64 == low,
        (low + 64 * high) / 64 == high,
{
}

/// One nibble below another.
proof fn lemma_two_nibbles(low: int, high: int)
    requires
        0 <= low < 16,
        0 <= high < 16,
    ensures
        0 <= low + 16 * high < 256,
        (low + 16 * high) % 16 == low,
        (low + 16 * high) / 16 == high,
{
}

/// Eight bits, one above the other.
proof fn lemma_eight_bits(
    b0: int,
    b1: int,
    b2: int,
    b3: int,
    b4: int,
    b5: int,
    b6: int,
    b7: int,
)
    requires
        0 <= b0 < 2,
        0 <= b1 < 2,
        0 <= b2 < 2,
        0 <= b3 < 2,
        0 <= b4 < 2,
        0 <= b5 < 2,
        0 <= b6 < 2,
        0 <= b7 < 2,
    ensures
        ({
            let byte = b0 + 2 * b1 + 4 * b2 + 8 * b3 + 16 * b4 + 32 * b5 + 64 * b6 + 128 * b7;
            &&& 0 <= byte < 256
            &&& byte / 1 % 2 == b0
            &&& byte / 2 % 2 == b1
            &&& byte / 4 % 2 == b2
            &&& byte / 8 % 2 == b3
            &&& byte / 16 % 2 == b4
            &&& byte / 32 % 2 == b5
            &&& byte / 64 % 2 == b6
            &&& byte / 128 % 2 == b7
        }),
{
    let r7 = b7;
    let r6 = b6 + 2 * r7;
    let r5 = b5 + 2 * r6;
    let r4 = b4 + 2 * r5;
    let r3 = b3 + 2 * r4;
    let r2 = b2 + 2 * r3;
    let r1 = b1 + 2 * r2;
    let byte = b0 + 2 * r1;
    assert(byte / 2 == r1);
    assert(byte / 4 == r2);
    assert(byte / 8 == r3);
    assert(byte / 16 == r4);
    assert(byte / 32 == r5);
    assert(byte / 64 == r6);
    assert(byte / 128 == r7);
}

/// The low four bits of the 256 quants of a super-block in 128 bytes: every 64 quants share 32
/// bytes, the first half in the low nibbles, the second in the high ones.
pub open spec fn pack_low_quants(quants: Seq<u8>) -> Seq<u8> {
    Seq::new(
        128,
        |at: int|
            (quants[64 * (at / 32) + at % 32] % 16 + 16 * (quants[64 * (at / 32) + 32 + at % 32]
                % 16)) as u8,
    )
}

/// Unpacking gives back the low four bits of every quant that was packed.
pub proof fn packed_quants_are_given_back(quants: Seq<u8>, raw: Seq<u8>, start: int, index: int)
    requires
        quants.len() == 256,
        0 <= start,
        start + 128 <= raw.len(),
        raw.subrange(start, start + 128) == pack_low_quants(quants),
        0 <= index < 256,
    ensures
        low_quant(raw, start, index) == quants[index] % 16,
{
    let packed = pack_low_quants(quants);
    let group = index / 64;
    let place = index % 32;
    let at = 32 * group + place;
    assert(0 <= at < 128 && at / 32 == group && at % 32 == place);
    assert(raw.subrange(start, start + 128)[at] == raw[start + at]);
    let first = quants[64 * group + place];
    let second = quants[64 * group + 32 + place];
    assert(packed[at] == first % 16 + 16 * (second % 16));
    assert(start + index / 64 * 32 + index % 32 == start + at);
    if (index / 32) % 2 == 0 {
        assert(index == 64 * group + place);
    } else {
        assert(index == 64 * group + 32 + place);
    }
}

/// The fifth bits of the 256 quants of a super-block in 32 bytes: the quants at one place of
/// their sub-blocks share a byte, the first sub-block has its lowest bit.
pub open spec fn pack_high_bits(quants: Seq<u8>) -> Seq<u8> {
    Seq::new(
        32,
        |at: int|
            (quants[at] / 16 + 2 * (quants[32 + at] / 16) + 4 * (quants[64 + at] / 16) + 8 * (
            quants[96 + at] / 16) + 16 * (quants[128 + at] / 16) + 32 * (quants[160 + at] / 16) + 64
                * (quants[192 + at] / 16) + 128 * (quants[224 + at] / 16)) as u8,
    )
}

/// Unpacking gives back the fifth bit of every quant that was packed.
pub proof fn packed_bits_are_given_back(quants: Seq<u8>, raw: Seq<u8>, start: int, index: int)
    requires
        quants.len() == 256,
        forall|at: int| 0 <= at < 256 ==> (#[trigger] quants[at]) < 32,
        0 <= start,
        start + 32 <= raw.len(),
        raw.subrange(start, start + 32) == pack_high_bits(quants),
        0 <= index < 256,
    ensures
        byte_bit(raw[start + index % 32], index / 32) == quants[index] / 16,
{
    let at = index % 32;
    let sub = index / 32;
    assert(raw.subrange(start, start + 32)[at] == raw[start + at]);
    assert(quants[at] < 32 && quants[32 + at] < 32 && quants[64 + at] < 32);
    assert(quants[96 + at] < 32 && quants[128 + at] < 32 && quants[160 + at] < 32);
    assert(quants[192 + at] < 32 && quants[224 + at] < 32);
    lemma_eight_bits(
        (quants[at] / 16) as int,
        (quants[32 + at] / 16) as int,
        (quants[64 + at] / 16) as int,
        (quants[96 + at] / 16) as int,
        (quants[128 + at] / 16) as int,
        (quants[160 + at] / 16) as int,
        (quants[192 + at] / 16) as int,
        (quants[224 + at] / 16) as int,
    );
    lemma2_to64();
    assert(index == 32 * sub + at);
    assert(sub == 0 || sub == 1 || sub == 2 || sub == 3 || sub == 4 || sub == 5 || sub == 6 || sub
        == 7);
}

/// A half in two bytes, the low one first.
pub open spec fn half_bytes(bits: u16) -> Seq<u8> {
    seq![(bits % 256) as u8, (bits / 256) as u8]
}

/// A signed byte as it is stored.
pub open spec fn stored_signed(number: i8) -> u8 {
    if number < 0 {
        (number + 256) as u8
    } else {
        number as u8
    }
}

/// A `Q8_0` block: its scale, then its 32 quants.
pub open spec fn q8_0_block(scale: u16, quants: Seq<i8>) -> Seq<u8> {
    half_bytes(scale) + Seq::new(32, |at: int| stored_signed(quants[at]))
}

/// A `Q4_K` block: the scale of the scales, the scale of the minimums, the eight scales and
/// minimums, then the 256 quants.
pub open spec fn q4_k_block(
    scale: u16,
    min_scale: u16,
    scales: Seq<u8>,
    minimums: Seq<u8>,
    quants: Seq<u8>,
) -> Seq<u8> {
    half_bytes(scale) + half_bytes(min_scale) + pack_scales(scales, minimums) + pack_low_quants(
        quants,
    )
}

/// A `Q5_K` block: as a `Q4_K` block, with the fifth bits before the others.
pub open spec fn q5_k_block(
    scale: u16,
    min_scale: u16,
    scales: Seq<u8>,
    minimums: Seq<u8>,
    quants: Seq<u8>,
) -> Seq<u8> {
    half_bytes(scale) + half_bytes(min_scale) + pack_scales(scales, minimums) + pack_high_bits(
        quants,
    ) + pack_low_quants(quants)
}

/// Whether a half is an infinity.
pub open spec fn is_half_infinity(bits: u16) -> bool {
    bits % 0x8000 == 0x7C00
}

/// Whether a half is neither a number nor an infinity.
pub open spec fn is_no_half(bits: u16) -> bool {
    bits % 0x8000 > 0x7C00
}

/// Whether a single is what one half times a number, less another half times a number, amounts
/// to: the nearest single to the exact difference, with the sign of it; where a half is no
/// number, what arithmetic with infinities gives.
pub open spec fn is_scaled(single: u32, d: u16, factor: int, m: u16, min: int) -> bool {
    let exact = half_number(d) * factor - half_number(m) * min;
    let d_is_lost = is_no_half(d) || (is_half_infinity(d) && factor == 0);
    let m_is_lost = is_no_half(m) || (is_half_infinity(m) && min == 0);
    let infinite_both = is_half_infinity(d) && is_half_infinity(m);
    if d_is_lost || m_is_lost || (infinite_both && (d >= 0x8000) == (m >= 0x8000)) {
        single == 0x7FC0_0000
    } else if is_half_infinity(d) {
        single == (if d >= 0x8000 {
            0xFF80_0000int
        } else {
            0x7F80_0000int
        })
    } else if is_half_infinity(m) {
        single == (if m >= 0x8000 {
            0x7F80_0000int
        } else {
            0xFF80_0000int
        })
    } else {
        &&& is_nearest(single, exact * pow2(125), 1)
        &&& exact > 0 ==> single < 0x8000_0000
        &&& exact < 0 ==> single >= 0x8000_0000
        &&& exact == 0 ==> (single >= 0x8000_0000 <==> d >= 0x8000 && m < 0x8000)
    }
}

/// The number of a half by its sign and its magnitude.
proof fn lemma_half_number(bits: u16)
    ensures
        bits < 0x8000 ==> half_number(bits) == half_value(bits),
        bits >= 0x8000 ==> half_number(bits) == -(half_value(bits) as int),
        is_half_number(bits) ==> half_value(bits) < 0x100_0000_0000,
{
    let place = bits as nat % 0x8000;
    assert(half_value(bits) == number_at(place, 0x400)) by {
        assert(place / 0x400 == (bits / 0x400) % 32);
        assert(place % 0x400 == bits % 0x400);
    }
    if is_half_number(bits) {
        lemma_half_value_bound(bits);
    }
}

/// No product of a half and a few bits comes near the largest single.
proof fn lemma_far_from_overflow(units: nat)
    requires
        units < 0x80_0000_0000_0000,
    ensures
        2 * (units * pow2(125)) < 0x1FF_FFFF * pow2(253) * 1,
{
    lemma_pow2_pos(125);
    lemma_pow2_adds(125, 128);
    lemma_pow2_adds(64, 64);
    lemma2_to64();
    vstd::arithmetic::power2::lemma2_to64_rest();
    let low = pow2(125);
    assert(pow2(128) == 0x1_0000_0000_0000_0000 * 0x1_0000_0000_0000_0000);
    assert(2 * (units * low) < 0x1FF_FFFF * (low * pow2(128)) * 1) by (nonlinear_arith)
        requires
            units < 0x80_0000_0000_0000,
            low > 0,
            pow2(128) == 0x1_0000_0000_0000_0000 * 0x1_0000_0000_0000_0000,
    ;
}

/// An element of a super-block is its scale times its quant less its minimum.
proof fn lemma_k_value(raw: Seq<u8>, start: int, sub: int, level: int, scale: u8, min: u8)
    requires
        0 <= level < 32,
        scale < 64,
        min < 64,
        packed_scale_min(raw, start + 4, sub) == (scale, min),
    ensures
        is_scaled(
            k_value(raw, start, sub, level),
            half_at(raw, start),
            scale * level,
            half_at(raw, start + 2),
            min as int,
        ),
{
    let d = half_at(raw, start);
    let m = half_at(raw, start + 2);
    let factor = scale * level;
    let single = k_value(raw, start, sub, level);
    assert(0 <= factor <= 63 * 31) by (nonlinear_arith)
        requires
            factor == scale * level,
            0 <= scale < 64,
            0 <= level < 32,
    ;
    lemma_half_number(d);
    lemma_half_number(m);
    assert(is_half_number(d) <==> (d / 0x400) % 32 != 31);
    assert(is_half_number(m) <==> (m / 0x400) % 32 != 31);
    assert(is_half_infinity(d) <==> (d / 0x400) % 32 == 31 && d % 0x400 == 0);
    assert(is_half_infinity(m) <==> (m / 0x400) % 32 == 31 && m % 0x400 == 0);
    if is_half_number(d) && is_half_number(m) {
        let a = half_value(d) * factor;
        let b = half_value(m) * min;
        assert(0 <= a < 0x40_0000_0000_0000) by (nonlinear_arith)
            requires
                a == half_value(d) * factor,
                0 <= half_value(d) < 0x100_0000_0000,
                0 <= factor <= 63 * 31,
        ;
        assert(0 <= b < 0x40_0000_0000_0000) by (nonlinear_arith)
            requires
                b == half_value(m) * min,
                0 <= half_value(m) < 0x100_0000_0000,
                0 <= min < 64,
        ;
        let exact = half_number(d) * factor - half_number(m) * min;
        assert(half_number(d) * factor == if d >= 0x8000 {
            -a
        } else {
            a
        }) by (nonlinear_arith)
            requires
                a == half_value(d) * factor,
                half_number(d) == (if d >= 0x8000 {
                    -(half_value(d) as int)
                } else {
                    half_value(d) as int
                }),
        ;
        assert(half_number(m) * min == if m >= 0x8000 {
            -b
        } else {
            b
        }) by (nonlinear_arith)
            requires
                b == half_value(m) * min,
                half_number(m) == (if m >= 0x8000 {
                    -(half_value(m) as int)
                } else {
                    half_value(m) as int
                }),
        ;
        let units: nat = if exact < 0 {
            (-exact) as nat
        } else {
            exact as nat
        };
        let negative = exact < 0 || (exact == 0 && d >= 0x8000 && m < 0x8000);
        lemma_far_from_overflow(units);
        let n = units * pow2(125);
        rounding_is_total(n, 1);
        rounded_magnitudes_are_nearest(n, 1, negative, single);
        assert((-exact) * pow2(125) == -(exact * pow2(125))) by (nonlinear_arith);
        if exact == 0 {
            assert(0 * pow2(125) == 0);
        }
    }
}

/// Every element of a `Q8_0` block is exactly the scale times its quant. A scale that is no
/// number gives none, and an infinite one an infinity, or none for a quant of zero.
pub proof fn q8_0_blocks_unpack(
    scale: u16,
    quants: Seq<i8>,
    raw: Seq<u8>,
    start: int,
    index: int,
)
    requires
        quants.len() == 32,
        0 <= start,
        start + 34 <= raw.len(),
        raw.subrange(start, start + 34) == q8_0_block(scale, quants),
        0 <= index < 32,
    ensures
        ({
            let single = q8_0_value(raw, start, index);
            &&& is_half_number(scale) ==> is_single_number(single) && single_number(single)
                == half_number(scale) * quants[index] * pow2(125)
            &&& is_no_half(scale) || (is_half_infinity(scale) && quants[index] == 0) ==> single
                == 0x7FC0_0000
            &&& is_half_infinity(scale) && quants[index] != 0 ==> single % 0x8000_0000
                == 0x7F80_0000
            &&& !is_no_half(scale) && !(is_half_infinity(scale) && quants[index] == 0) ==> (single
                >= 0x8000_0000 <==> (scale >= 0x8000) != (quants[index] < 0))
        }),
{
    let part = raw.subrange(start, start + 34);
    let block = q8_0_block(scale, quants);
    assert(part[0] == raw[start] && part[1] == raw[start + 1]);
    assert(part[2 + index] == raw[start + 2 + index]);
    assert(block[0] == half_bytes(scale)[0] && block[1] == half_bytes(scale)[1]);
    assert(block[2 + index] == stored_signed(quants[index]));
    assert(half_at(raw, start) == scale);
    let quant = quants[index];
    let single = q8_0_value(raw, start, index);
    assert(crate::dequantize::signed_byte(raw[start + 2 + index]) == quant);
    assert(is_half_number(scale) <==> (scale / 0x400) % 32 != 31);
    assert(is_half_infinity(scale) <==> (scale / 0x400) % 32 == 31 && scale % 0x400 == 0);
    if is_half_number(scale) {
        lemma_half_number(scale);
        let size: nat = if quant < 0 {
            (-quant) as nat
        } else {
            quant as nat
        };
        let negative = (scale >= 0x8000) != (quant < 0);
        let v = half_value(scale);
        products_are_exact(scale, size);
        let units = v * size;
        assert(0 <= units < 0x80_0000_0000_0000) by (nonlinear_arith)
            requires
                units == v * size,
                0 <= v < 0x100_0000_0000,
                0 <= size <= 128,
        ;
        lemma_far_from_overflow(units);
        let n = units * pow2(125);
        rounding_is_total(n, 1);
        let ordinal = nearest_single(n, 1);
        assert(single_value(ordinal) == n);
        rounded_magnitudes_are_nearest(n, 1, negative, single);
        assert(ordinal < 0x7F80_0000);
        assert(single_number(single) == if negative {
            -(n as int)
        } else {
            n as int
        });
        assert(half_number(scale) * quant == if negative {
            -(units as int)
        } else {
            units as int
        } || units == 0) by (nonlinear_arith)
            requires
                units == v * size,
                negative == ((scale >= 0x8000) != (quant < 0)),
                size == (if quant < 0 {
                    -(quant as int)
                } else {
                    quant as int
                }),
                half_number(scale) == (if scale >= 0x8000 {
                    -(v as int)
                } else {
                    v as int
                }),
        ;
        assert(units == 0 ==> half_number(scale) * quant == 0) by (nonlinear_arith)
            requires
                units == v * size,
                size == (if quant < 0 {
                    -(quant as int)
                } else {
                    quant as int
                }),
                half_number(scale) == (if scale >= 0x8000 {
                    -(v as int)
                } else {
                    v as int
                }),
        ;
        assert((-(units as int)) * pow2(125) == -(units * pow2(125))) by (nonlinear_arith);
    }
}

/// Every element of a `Q4_K` block is its sub-block's scale times its quant, less its
/// sub-block's minimum, both scaled, in one rounding.
pub proof fn q4_k_blocks_unpack(
    scale: u16,
    min_scale: u16,
    scales: Seq<u8>,
    minimums: Seq<u8>,
    quants: Seq<u8>,
    raw: Seq<u8>,
    start: int,
    index: int,
)
    requires
        are_six_bit(scales),
        are_six_bit(minimums),
        quants.len() == 256,
        forall|at: int| 0 <= at < 256 ==> (#[trigger] quants[at]) < 16,
        0 <= start,
        start + 144 <= raw.len(),
        raw.subrange(start, start + 144) == q4_k_block(scale, min_scale, scales, minimums, quants),
        0 <= index < 256,
    ensures
        is_scaled(
            q4_k_value(raw, start, index),
            scale,
            scales[index / 32] * quants[index],
            min_scale,
            minimums[index / 32] as int,
        ),
{
    let part = raw.subrange(start, start + 144);
    let sub = index / 32;
    assert(part[0] == raw[start] && part[1] == raw[start + 1]);
    assert(part[2] == raw[start + 2] && part[3] == raw[start + 3]);
    assert(half_at(raw, start) == scale && half_at(raw, start + 2) == min_scale);
    assert(raw.subrange(start + 4, start + 16) =~= part.subrange(4, 16));
    assert(part.subrange(4, 16) =~= pack_scales(scales, minimums));
    assert(raw.subrange(start + 16, start + 144) =~= part.subrange(16, 144));
    assert(part.subrange(16, 144) =~= pack_low_quants(quants));
    packed_scales_are_given_back(scales, minimums, raw, start + 4, sub);
    packed_quants_are_given_back(quants, raw, start + 16, index);
    assert(quants[index] < 16 && scales[sub] < 64 && minimums[sub] < 64);
    lemma_k_value(raw, start, sub, quants[index] as int, scales[sub], minimums[sub]);
}

/// Every element of a `Q5_K` block is its sub-block's scale times its quant of five bits, less
/// its sub-block's minimum, both scaled, in one rounding.
pub proof fn q5_k_blocks_unpack(
    scale: u16,
    min_scale: u16,
    scales: Seq<u8>,
    minimums: Seq<u8>,
    quants: Seq<u8>,
    raw: Seq<u8>,
    start: int,
    index: int,
)
    requires
        are_six_bit(scales),
        are_six_bit(minimums),
        quants.len() == 256,
        forall|at: int| 0 <= at < 256 ==> (#[trigger] quants[at]) < 32,
        0 <= start,
        start + 176 <= raw.len(),
        raw.subrange(start, start + 176) == q5_k_block(scale, min_scale, scales, minimums, quants),
        0 <= index < 256,
    ensures
        is_scaled(
            q5_k_value(raw, start, index),
            scale,
            scales[index / 32] * quants[index],
            min_scale,
            minimums[index / 32] as int,
        ),
{
    let part = raw.subrange(start, start + 176);
    let sub = index / 32;
    assert(part[0] == raw[start] && part[1] == raw[start + 1]);
    assert(part[2] == raw[start + 2] && part[3] == raw[start + 3]);
    assert(half_at(raw, start) == scale && half_at(raw, start + 2) == min_scale);
    assert(raw.subrange(start + 4, start + 16) =~= part.subrange(4, 16));
    assert(part.subrange(4, 16) =~= pack_scales(scales, minimums));
    assert(raw.subrange(start + 16, start + 48) =~= part.subrange(16, 48));
    assert(part.subrange(16, 48) =~= pack_high_bits(quants));
    assert(raw.subrange(start + 48, start + 176) =~= part.subrange(48, 176));
    assert(part.subrange(48, 176) =~= pack_low_quants(quants));
    packed_scales_are_given_back(scales, minimums, raw, start + 4, sub);
    packed_bits_are_given_back(quants, raw, start + 16, index);
    packed_quants_are_given_back(quants, raw, start + 48, index);
    assert(quants[index] < 32 && scales[sub] < 64 && minimums[sub] < 64);
    lemma_k_value(raw, start, sub, quants[index] as int, scales[sub], minimums[sub]);
}

/// `Q8_0` blocks are unpacked one after another, each by itself: an element is that of the block
/// it falls in, and what is left after the last whole block counts for nothing.
pub proof fn q8_0_blocks_unpack_in_order(raw: Seq<u8>, index: int)
    ensures
        q8_0_values(raw).len() == raw.len() / 34 * 32,
        0 <= index < raw.len() / 34 * 32 ==> q8_0_values(raw)[index] == q8_0_value(
            raw.subrange(index / 32 * 34, index / 32 * 34 + 34),
            0,
            index % 32,
        ),
{
    if 0 <= index < raw.len() / 34 * 32 {
        let start = index / 32 * 34;
        let place = index % 32;
        assert(0 <= start && start + 34 <= raw.len());
        let block = raw.subrange(start, start + 34);
        assert(block[0] == raw[start] && block[1] == raw[start + 1]);
        assert(block[2 + place] == raw[start + 2 + place]);
    }
}

/// `Q4_K` blocks are unpacked one after another, each by itself: an element is that of the block
/// it falls in, and what is left after the last whole block counts for nothing.
pub proof fn q4_k_blocks_unpack_in_order(raw: Seq<u8>, index: int)
    ensures
        q4_k_values(raw).len() == raw.len() / 144 * 256,
        0 <= index < raw.len() / 144 * 256 ==> q4_k_values(raw)[index] == q4_k_value(
            raw.subrange(index / 256 * 144, index / 256 * 144 + 144),
            0,
            index % 256,
        ),
{
    if 0 <= index < raw.len() / 144 * 256 {
        let start = index / 256 * 144;
        let place = index % 256;
        assert(0 <= start && start + 144 <= raw.len());
        let block = raw.subrange(start, start + 144);
        lemma_k_block(raw, block, start, place, 16);
    }
}

/// `Q5_K` blocks are unpacked one after another, each by itself: an element is that of the block
/// it falls in, and what is left after the last whole block counts for nothing.
pub proof fn q5_k_blocks_unpack_in_order(raw: Seq<u8>, index: int)
    ensures
        q5_k_values(raw).len() == raw.len() / 176 * 256,
        0 <= index < raw.len() / 176 * 256 ==> q5_k_values(raw)[index] == q5_k_value(
            raw.subrange(index / 256 * 176, index / 256 * 176 + 176),
            0,
            index % 256,
        ),
{
    if 0 <= index < raw.len() / 176 * 256 {
        let start = index / 256 * 176;
        let place = index % 256;
        assert(0 <= start && start + 176 <= raw.len());
        let block = raw.subrange(start, start + 176);
        lemma_k_block(raw, block, start, place, 48);
        assert(block[16 + place % 32] == raw[start + 16 + place % 32]);
    }
}

/// What a super-block unpacks to is all in the super-block.
proof fn lemma_k_block(raw: Seq<u8>, block: Seq<u8>, start: int, place: int, quants: int)
    requires
        0 <= start,
        block.len() == quants + 128,
        start + block.len() <= raw.len(),
        block == raw.subrange(start, start + block.len()),
        0 <= place < 256,
        16 <= quants,
    ensures
        half_at(block, 0) == half_at(raw, start),
        half_at(block, 2) == half_at(raw, start + 2),
        packed_scale_min(block, 4, place / 32) == packed_scale_min(raw, start + 4, place / 32),
        low_quant(block, quants, place) == low_quant(raw, start + quants, place),
        forall|level: int|
            k_value(block, 0, place / 32, level) == #[trigger] k_value(
                raw,
                start,
                place / 32,
                level,
            ),
{
    let sub = place / 32;
    assert forall|at: int| 0 <= at < block.len() implies #[trigger] block[at] == raw[start + at] by {}
    assert(block[0] == raw[start] && block[1] == raw[start + 1]);
    assert(block[2] == raw[start + 2] && block[3] == raw[start + 3]);
    if sub < 4 {
        assert(block[4 + sub] == raw[start + 4 + sub]);
        assert(block[4 + sub + 4] == raw[start + 4 + sub + 4]);
    } else {
        assert(block[4 + sub] == raw[start + 4 + sub]);
        assert(block[4 + sub + 4] == raw[start + 4 + sub + 4]);
        assert(block[4 + sub - 4] == raw[start + 4 + sub - 4]);
    }
    let at = place / 64 * 32 + place % 32;
    assert(block[quants + at] == raw[start + quants + at]);
    assert(quants + place / 64 * 32 + place % 32 == quants + at);
    assert(start + quants + place / 64 * 32 + place % 32 == start + quants + at);
}

} // verus!
