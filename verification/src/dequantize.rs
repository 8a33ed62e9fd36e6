//! The block formats `Q8_0`, `Q4_K` and `Q5_K`.
//!
//! A block packs small integers under shared half-precision scales. Unpacking
//! one gives a single-precision number, held as its bit pattern, for every
//! element. A scale times its integers is always exact in single precision, so
//! the one operation that rounds is the subtraction of a minimum.

use crate::float::{
    half_exponent, half_is_finite, half_mantissa, half_sign, half_value, nearest_single,
    representable_rounds_to_itself, round_units, single_value, widened_half,
    widened_half_magnitude, widening_a_half_is_exact, SINGLE_INFINITY, SINGLE_NAN,
};
use vstd::arithmetic::div_mod::lemma_div_denominator;
use vstd::arithmetic::power2::{
    lemma2_to64, lemma_pow2_adds, lemma_pow2_pos, lemma_pow2_strictly_increases, pow2,
};
use vstd::bits::lemma_u64_shl_is_mul;
use vstd::prelude::*;

verus! {

/// Elements in a `Q8_0` block: one half-precision scale, then 32 signed bytes.
pub const Q8_0_BLOCK_ELEMENTS: u64 = 32;

/// Bytes in a `Q8_0` block.
pub const Q8_0_BLOCK_BYTES: u64 = 34;

/// Elements in a `Q4_K` or `Q5_K` block: 8 sub-blocks of 32.
pub const QK_BLOCK_ELEMENTS: u64 = 256;

/// Bytes in a `Q4_K` block: two half-precision scales, 12 bytes of packed
/// sub-block scales, 128 bytes of low quants.
pub const Q4_K_BLOCK_BYTES: u64 = 144;

/// Bytes in a `Q5_K` block: a `Q4_K` block with 32 bytes of high bits before
/// the quants.
pub const Q5_K_BLOCK_BYTES: u64 = 176;

/// What multiplying or subtracting gives, before it is rounded.
#[derive(Clone, Copy, Debug, PartialEq, Eq, Structural)]
pub enum Exact {
    /// No number. Arithmetic may leave any of several bit patterns for it; here it is
    /// always the quiet one without payload.
    Undefined,
    /// An infinity.
    Infinite { negative: bool },
    /// A number, as its magnitude in units of two to the power -24. Zero has a
    /// sign too.
    Number { negative: bool, units: u64 },
}

/// A half times an integer.
pub open spec fn product(bits: u16, factor: int) -> Exact {
    let negative = (half_sign(bits) == 1) != (factor < 0);
    if half_is_finite(bits) {
        Exact::Number {
            negative,
            units: (half_value(bits) * (if factor < 0 {
                -factor
            } else {
                factor
            })) as u64,
        }
    } else if half_mantissa(bits) != 0 || factor == 0 {
        Exact::Undefined
    } else {
        Exact::Infinite { negative }
    }
}

/// A magnitude under its sign.
pub open spec fn signed(negative: bool, units: u64) -> int {
    if negative {
        -(units as int)
    } else {
        units as int
    }
}

/// One number less another. Equal numbers leave positive zero, except that
/// negative zero less positive zero stays negative.
pub open spec fn difference(minuend: Exact, subtrahend: Exact) -> Exact {
    match (minuend, subtrahend) {
        (Exact::Undefined, _) => Exact::Undefined,
        (_, Exact::Undefined) => Exact::Undefined,
        (Exact::Infinite { negative: first }, Exact::Infinite { negative: second }) => if first
            == second {
            Exact::Undefined
        } else {
            minuend
        },
        (Exact::Infinite { .. }, _) => minuend,
        (_, Exact::Infinite { negative }) => Exact::Infinite { negative: !negative },
        (
            Exact::Number { negative: first, units: large },
            Exact::Number { negative: second, units: small },
        ) => {
            let value = signed(first, large) - signed(second, small);
            Exact::Number {
                negative: value < 0 || (value == 0 && first && !second),
                units: (if value < 0 {
                    -value
                } else {
                    value
                }) as u64,
            }
        },
    }
}

/// The bit pattern of the single nearest to an exact result.
pub open spec fn rounded(exact: Exact) -> u32 {
    match exact {
        Exact::Undefined => SINGLE_NAN,
        Exact::Infinite { negative } => (if negative {
            0x8000_0000 + SINGLE_INFINITY
        } else {
            SINGLE_INFINITY as int
        }) as u32,
        Exact::Number { negative, units } => {
            let magnitude = nearest_single(units as nat * pow2(125), 1);
            (if negative {
                0x8000_0000 + magnitude
            } else {
                magnitude
            }) as u32
        },
    }
}

/// A half-precision bit pattern, stored little-endian.
pub open spec fn half_at(raw: Seq<u8>, at: int) -> u16 {
    (raw[at] + 256 * raw[at + 1]) as u16
}

/// The signed number that a byte holds.
pub open spec fn signed_byte(byte: u8) -> i8 {
    (if byte < 128 {
        byte as int
    } else {
        byte - 256
    }) as i8
}

/// Element `index` of the `Q8_0` block at `start`.
pub open spec fn q8_0_value(raw: Seq<u8>, start: int, index: int) -> u32 {
    rounded(product(half_at(raw, start), signed_byte(raw[start + 2 + index]) as int))
}

/// The scale and the minimum of sub-block `sub`, six bits each, in the twelve
/// packed bytes at `start`: the first four sub-blocks keep theirs in the low
/// bits of one byte, the last four put theirs together from two.
pub open spec fn packed_scale_min(raw: Seq<u8>, start: int, sub: int) -> (u8, u8) {
    if sub < 4 {
        ((raw[start + sub] % 64) as u8, (raw[start + sub + 4] % 64) as u8)
    } else {
        (
            (raw[start + sub + 4] % 16 + raw[start + sub - 4] / 64 * 16) as u8,
            (raw[start + sub + 4] / 16 + raw[start + sub] / 64 * 16) as u8,
        )
    }
}

/// The low four bits of element `index` of a super-block, in the 128 bytes at
/// `start`: two neighbouring sub-blocks share their bytes, the first has the low
/// nibbles, the second the high ones.
pub open spec fn low_quant(raw: Seq<u8>, start: int, index: int) -> u8 {
    let byte = raw[start + index / 64 * 32 + index % 32];
    if (index / 32) % 2 == 0 {
        (byte % 16) as u8
    } else {
        (byte / 16) as u8
    }
}

/// Bit `bit` of a byte.
pub open spec fn byte_bit(byte: u8, bit: int) -> u8 {
    ((byte as nat / pow2(bit as nat)) % 2) as u8
}

/// The element with quant `level` in sub-block `sub` of the super-block at
/// `start`: its scale times the quant, less its minimum.
pub open spec fn k_value(raw: Seq<u8>, start: int, sub: int, level: int) -> u32 {
    let (scale, min) = packed_scale_min(raw, start + 4, sub);
    rounded(
        difference(
            product(half_at(raw, start), scale * level),
            product(half_at(raw, start + 2), min as int),
        ),
    )
}

/// Element `index` of the `Q4_K` block at `start`.
pub open spec fn q4_k_value(raw: Seq<u8>, start: int, index: int) -> u32 {
    k_value(raw, start, index / 32, low_quant(raw, start + 16, index) as int)
}

/// Element `index` of the `Q5_K` block at `start`: its fifth bit stands in the
/// byte of high bits that all elements at the same place in their sub-block
/// share, at the position of the sub-block.
pub open spec fn q5_k_value(raw: Seq<u8>, start: int, index: int) -> u32 {
    k_value(
        raw,
        start,
        index / 32,
        low_quant(raw, start + 48, index) + 16 * byte_bit(
            raw[start + 16 + index % 32],
            index / 32,
        ),
    )
}

/// The elements of all whole `Q8_0` blocks, in order.
pub open spec fn q8_0_values(raw: Seq<u8>) -> Seq<u32> {
    Seq::new(
        (raw.len() / 34 * 32) as nat,
        |at: int| q8_0_value(raw, at / 32 * 34, at % 32),
    )
}

/// The elements of all whole `Q4_K` blocks, in order.
pub open spec fn q4_k_values(raw: Seq<u8>) -> Seq<u32> {
    Seq::new(
        (raw.len() / 144 * 256) as nat,
        |at: int| q4_k_value(raw, at / 256 * 144, at % 256),
    )
}

/// The elements of all whole `Q5_K` blocks, in order.
pub open spec fn q5_k_values(raw: Seq<u8>) -> Seq<u32> {
    Seq::new(
        (raw.len() / 176 * 256) as nat,
        |at: int| q5_k_value(raw, at / 256 * 176, at % 256),
    )
}

fn read_half(raw: &[u8], at: usize) -> (bits: u16)
    requires
        at + 1 < raw@.len(),
    ensures
        bits == half_at(raw@, at as int),
{
    raw[at] as u16 + 256 * raw[at + 1] as u16
}

fn read_signed(byte: u8) -> (value: i8)
    ensures
        value == signed_byte(byte),
        value == (if byte < 128 {
            byte as int
        } else {
            byte - 256
        }),
{
    if byte < 128 {
        byte as i8
    } else {
        (byte as i16 - 256) as i8
    }
}

/// Unpacks the six-bit scale and the six-bit minimum of sub-block `j`.
pub fn get_scale_min_k4(j: usize, scales: &[u8; 12]) -> (scale_min: (u8, u8))
    requires
        j < 8,
    ensures
        scale_min == packed_scale_min(scales@, 0, j as int),
        scale_min.0 < 64,
        scale_min.1 < 64,
{
    if j < 4 {
        (scales[j] % 64, scales[j + 4] % 64)
    } else {
        (
            scales[j + 4] % 16 + scales[j - 4] / 64 * 16,
            scales[j + 4] / 16 + scales[j] / 64 * 16,
        )
    }
}

/// The twelve packed bytes of sub-block scales at `start`.
fn packed_scales(raw: &[u8], start: usize) -> (scales: [u8; 12])
    requires
        start + 12 <= raw@.len(),
    ensures
        scales@ == raw@.subrange(start as int, start + 12),
{
    let scales: [u8; 12] = [
        raw[start],
        raw[start + 1],
        raw[start + 2],
        raw[start + 3],
        raw[start + 4],
        raw[start + 5],
        raw[start + 6],
        raw[start + 7],
        raw[start + 8],
        raw[start + 9],
        raw[start + 10],
        raw[start + 11],
    ];
    assert(scales@ =~= raw@.subrange(start as int, start + 12));
    scales
}

fn read_low_quant(raw: &[u8], start: usize, index: usize) -> (quant: u8)
    requires
        index < 256,
        start + 128 <= raw@.len(),
    ensures
        quant == low_quant(raw@, start as int, index as int),
        quant < 16,
{
    let length: usize = raw.len();
    assert(start + 128 <= length);
    let byte: u8 = raw[start + index / 64 * 32 + index % 32];
    if (index / 32) % 2 == 0 {
        byte % 16
    } else {
        byte / 16
    }
}

fn read_byte_bit(byte: u8, bit: usize) -> (value: u8)
    requires
        bit < 8,
    ensures
        value == byte_bit(byte, bit as int),
        value < 2,
{
    let mut rest: u8 = byte;
    let mut at: usize = 0;
    proof {
        lemma2_to64();
    }
    while at < bit
        invariant
            at <= bit < 8,
            rest as nat == byte as nat / pow2(at as nat),
        decreases bit - at,
    {
        proof {
            lemma2_to64();
            lemma_pow2_adds(at as nat, 1);
            lemma_pow2_pos(at as nat);
            lemma_div_denominator(byte as int, pow2(at as nat) as int, 2);
        }
        rest = rest / 2;
        at += 1;
    }
    rest % 2
}

/// The magnitude of a finite half in units of two to the power -24.
fn half_units(bits: u16) -> (units: u64)
    requires
        half_is_finite(bits),
    ensures
        units == half_value(bits),
        units < 0x100_0000_0000,
{
    let exponent: u64 = (bits as u64 / 0x400) % 32;
    let mantissa: u64 = bits as u64 % 0x400;
    if exponent == 0 {
        mantissa
    } else {
        let shift: u64 = exponent - 1;
        proof {
            lemma2_to64();
            lemma_pow2_pos(shift as nat);
            if shift < 29 {
                lemma_pow2_strictly_increases(shift as nat, 29);
            }
            assert((0x400 + mantissa) * pow2(shift as nat) < 0x800 * 0x2000_0000)
                by (nonlinear_arith)
                requires
                    0 <= mantissa < 0x400,
                    0 < pow2(shift as nat) <= 0x2000_0000,
            ;
            lemma_u64_shl_is_mul((0x400 + mantissa) as u64, shift);
        }
        (0x400 + mantissa) << shift
    }
}

/// Multiplies a half by a small integer.
fn multiply(bits: u16, factor: i64) -> (exact: Exact)
    requires
        -0x800 <= factor <= 0x800,
    ensures
        exact == product(bits, factor as int),
        exact matches Exact::Number { units, .. } ==> units < 0x10_0000_0000_0000,
{
    let negative: bool = (bits / 0x8000 == 1) != (factor < 0);
    let exponent: u16 = (bits / 0x400) % 32;
    let mantissa: u16 = bits % 0x400;
    if exponent != 31 {
        let times: u64 = if factor < 0 {
            (-factor) as u64
        } else {
            factor as u64
        };
        let units: u64 = half_units(bits);
        assert(0 <= units * times <= 0x100_0000_0000 * 0x800 - 0x800) by (nonlinear_arith)
            requires
                0 <= units < 0x100_0000_0000,
                0 <= times <= 0x800,
        ;
        Exact::Number { negative, units: units * times }
    } else if mantissa != 0 || factor == 0 {
        Exact::Undefined
    } else {
        Exact::Infinite { negative }
    }
}

/// Subtracts one exact number from another.
fn subtract(minuend: Exact, subtrahend: Exact) -> (exact: Exact)
    requires
        minuend matches Exact::Number { units, .. } ==> units < 0x10_0000_0000_0000,
        subtrahend matches Exact::Number { units, .. } ==> units < 0x10_0000_0000_0000,
    ensures
        exact == difference(minuend, subtrahend),
        exact matches Exact::Number { units, .. } ==> units < 0x20_0000_0000_0000,
{
    match (minuend, subtrahend) {
        (Exact::Undefined, _) => Exact::Undefined,
        (_, Exact::Undefined) => Exact::Undefined,
        (Exact::Infinite { negative: first }, Exact::Infinite { negative: second }) => {
            if first == second {
                Exact::Undefined
            } else {
                minuend
            }
        },
        (Exact::Infinite { .. }, _) => minuend,
        (_, Exact::Infinite { negative }) => Exact::Infinite { negative: !negative },
        (
            Exact::Number { negative: first, units: large },
            Exact::Number { negative: second, units: small },
        ) => {
            if first != second {
                Exact::Number { negative: first, units: large + small }
            } else if large > small {
                Exact::Number { negative: first, units: large - small }
            } else if large < small {
                Exact::Number { negative: !first, units: small - large }
            } else {
                Exact::Number { negative: false, units: 0 }
            }
        },
    }
}

/// Rounds an exact number to its single.
fn round(exact: Exact) -> (bits: u32)
    requires
        exact matches Exact::Number { units, .. } ==> units < 0x20_0000_0000_0000,
    ensures
        bits == rounded(exact),
{
    match exact {
        Exact::Undefined => SINGLE_NAN,
        Exact::Infinite { negative } => {
            if negative {
                0xFF80_0000
            } else {
                SINGLE_INFINITY
            }
        },
        Exact::Number { negative, units } => {
            let magnitude: u32 = round_units(units);
            if negative {
                0x8000_0000 + magnitude
            } else {
                magnitude
            }
        },
    }
}

/// The element with quant `level` under the given scales.
fn scale_level(scale: u16, factor: u8, level: u8, min_scale: u16, min_factor: u8) -> (bits: u32)
    requires
        factor < 64,
        min_factor < 64,
        level < 32,
    ensures
        bits == rounded(
            difference(product(scale, factor * level), product(min_scale, min_factor as int)),
        ),
{
    assert(0 <= factor * level <= 63 * 31) by (nonlinear_arith)
        requires
            0 <= factor < 64,
            0 <= level < 32,
    ;
    let scaled: Exact = multiply(scale, factor as i64 * level as i64);
    let minimum: Exact = multiply(min_scale, min_factor as i64);
    round(subtract(scaled, minimum))
}

/// Unpacks `Q8_0` blocks; bytes after the last whole block are left alone.
pub fn dequantize_q8_0(raw: &[u8]) -> (values: Vec<u32>)
    ensures
        values@ == q8_0_values(raw@),
{
    let length: usize = raw.len();
    let blocks: usize = length / 34;
    let mut values: Vec<u32> = Vec::new();
    let mut block: usize = 0;
    while block < blocks
        invariant
            length == raw@.len(),
            blocks == length / 34,
            block <= blocks,
            values@ == q8_0_values(raw@).take(block * 32),
        decreases blocks - block,
    {
        let start: usize = block * 34;
        let scale: u16 = read_half(raw, start);
        let mut index: usize = 0;
        while index < 32
            invariant
                length == raw@.len(),
            blocks == length / 34,
                block < blocks,
                start == block * 34,
                index <= 32,
                scale == half_at(raw@, start as int),
                values@ == q8_0_values(raw@).take(block * 32 + index),
            decreases 32 - index,
        {
            let quant: i8 = read_signed(raw[start + 2 + index]);
            proof {
                let at = block * 32 + index;
                assert(at / 32 == block && at % 32 == index);
                assert(q8_0_values(raw@).take(at + 1) =~= q8_0_values(raw@).take(at).push(
                    q8_0_value(raw@, start as int, index as int),
                ));
            }
            values.push(round(multiply(scale, quant as i64)));
            index += 1;
        }
        block += 1;
    }
    assert(values@ =~= q8_0_values(raw@));
    values
}

/// Unpacks `Q4_K` blocks; bytes after the last whole block are left alone.
pub fn dequantize_q4_k(raw: &[u8]) -> (values: Vec<u32>)
    ensures
        values@ == q4_k_values(raw@),
{
    let length: usize = raw.len();
    let blocks: usize = length / 144;
    let mut values: Vec<u32> = Vec::new();
    let mut block: usize = 0;
    while block < blocks
        invariant
            length == raw@.len(),
            blocks == length / 144,
            block <= blocks,
            values@ == q4_k_values(raw@).take(block * 256),
        decreases blocks - block,
    {
        let start: usize = block * 144;
        let scale: u16 = read_half(raw, start);
        let min_scale: u16 = read_half(raw, start + 2);
        let scales: [u8; 12] = packed_scales(raw, start + 4);
        let mut index: usize = 0;
        while index < 256
            invariant
                length == raw@.len(),
            blocks == length / 144,
                block < blocks,
                start == block * 144,
                index <= 256,
                scale == half_at(raw@, start as int),
                min_scale == half_at(raw@, start + 2),
                scales@ == raw@.subrange(start + 4, start + 16),
                values@ == q4_k_values(raw@).take(block * 256 + index),
            decreases 256 - index,
        {
            let (factor, min_factor) = get_scale_min_k4(index / 32, &scales);
            let level: u8 = read_low_quant(raw, start + 16, index);
            proof {
                let at = block * 256 + index;
                assert(at / 256 == block && at % 256 == index);
                assert(q4_k_values(raw@).take(at + 1) =~= q4_k_values(raw@).take(at).push(
                    q4_k_value(raw@, start as int, index as int),
                ));
            }
            values.push(scale_level(scale, factor, level, min_scale, min_factor));
            index += 1;
        }
        block += 1;
    }
    assert(values@ =~= q4_k_values(raw@));
    values
}

/// Unpacks `Q5_K` blocks; bytes after the last whole block are left alone.
pub fn dequantize_q5_k(raw: &[u8]) -> (values: Vec<u32>)
    ensures
        values@ == q5_k_values(raw@),
{
    let length: usize = raw.len();
    let blocks: usize = length / 176;
    let mut values: Vec<u32> = Vec::new();
    let mut block: usize = 0;
    while block < blocks
        invariant
            length == raw@.len(),
            blocks == length / 176,
            block <= blocks,
            values@ == q5_k_values(raw@).take(block * 256),
        decreases blocks - block,
    {
        let start: usize = block * 176;
        let scale: u16 = read_half(raw, start);
        let min_scale: u16 = read_half(raw, start + 2);
        let scales: [u8; 12] = packed_scales(raw, start + 4);
        let mut index: usize = 0;
        while index < 256
            invariant
                length == raw@.len(),
            blocks == length / 176,
                block < blocks,
                start == block * 176,
                index <= 256,
                scale == half_at(raw@, start as int),
                min_scale == half_at(raw@, start + 2),
                scales@ == raw@.subrange(start + 4, start + 16),
                values@ == q5_k_values(raw@).take(block * 256 + index),
            decreases 256 - index,
        {
            let (factor, min_factor) = get_scale_min_k4(index / 32, &scales);
            let low: u8 = read_low_quant(raw, start + 48, index);
            let high: u8 = read_byte_bit(raw[start + 16 + index % 32], index / 32);
            let level: u8 = low + 16 * high;
            proof {
                let at = block * 256 + index;
                assert(at / 256 == block && at % 256 == index);
                assert(q5_k_values(raw@).take(at + 1) =~= q5_k_values(raw@).take(at).push(
                    q5_k_value(raw@, start as int, index as int),
                ));
            }
            values.push(scale_level(scale, factor, level, min_scale, min_factor));
            index += 1;
        }
        block += 1;
    }
    assert(values@ =~= q5_k_values(raw@));
    values
}

/// A significand of at most 24 bits is exact in single precision, at every weight
/// that singles reach.
proof fn lemma_short_significand_is_exact(significand: nat, weight: nat) -> (ordinal: nat)
    requires
        significand < 0x100_0000,
        weight <= 253,
    ensures
        ordinal <= SINGLE_INFINITY,
        single_value(ordinal) == significand * pow2(weight),
    decreases weight,
{
    lemma2_to64();
    if significand >= 0x80_0000 {
        let ordinal: nat = ((weight + 1) * 0x80_0000 + (significand - 0x80_0000)) as nat;
        assert(ordinal / 0x80_0000 == weight + 1 && ordinal % 0x80_0000 == significand
            - 0x80_0000);
        ordinal
    } else if weight == 0 {
        assert(significand * pow2(0) == significand) by (nonlinear_arith)
            requires
                pow2(0) == 1,
        ;
        significand
    } else {
        lemma_pow2_adds(1, (weight - 1) as nat);
        assert(significand * (2 * pow2((weight - 1) as nat)) == (2 * significand) * pow2(
            (weight - 1) as nat,
        )) by (nonlinear_arith);
        lemma_short_significand_is_exact(2 * significand, (weight - 1) as nat)
    }
}

/// A half times an integer of up to 13 bits is exact in single precision: taking
/// the nearest single changes nothing.
pub proof fn products_are_exact(bits: u16, factor: nat)
    requires
        half_is_finite(bits),
        factor < 0x2000,
    ensures
        single_value(nearest_single(half_value(bits) * factor * pow2(125), 1)) == half_value(bits)
            * factor * pow2(125),
{
    let exponent = half_exponent(bits);
    let weight: nat = if exponent == 0 {
        0
    } else {
        (exponent - 1) as nat
    };
    let short: nat = if exponent == 0 {
        half_mantissa(bits)
    } else {
        0x400 + half_mantissa(bits)
    };
    lemma2_to64();
    assert(half_value(bits) == short * pow2(weight)) by {
        assert(short * 1 == short);
    }
    lemma_pow2_adds(weight, 125);
    assert(short * pow2(weight) * factor * pow2(125) == (short * factor) * (pow2(weight) * pow2(
        125,
    ))) by (nonlinear_arith);
    assert(0 <= short * factor < 0x100_0000) by (nonlinear_arith)
        requires
            0 <= short < 0x800,
            0 <= factor < 0x2000,
    ;
    let ordinal = lemma_short_significand_is_exact((short * factor) as nat, (weight + 125) as nat);
    let n = half_value(bits) * factor * pow2(125);
    assert(single_value(ordinal) * 1 == n);
    representable_rounds_to_itself(ordinal, 1);
}

/// Scaling a quant of one gives the scale itself, widened.
pub proof fn scaling_one_widens(bits: u16)
    requires
        half_is_finite(bits),
    ensures
        rounded(product(bits, 1)) == widened_half(bits),
{
    widening_a_half_is_exact(bits);
    let ordinal = widened_half_magnitude(bits);
    assert(half_value(bits) * 1 == half_value(bits));
    assert(single_value(ordinal) * 1 == half_value(bits) * pow2(125));
    lemma_half_value_bound(bits);
    assert(ordinal <= SINGLE_INFINITY);
    representable_rounds_to_itself(ordinal, 1);
}

/// Every half that is a number is below two to the power 40 of its units.
pub(crate) proof fn lemma_half_value_bound(bits: u16)
    requires
        half_is_finite(bits),
    ensures
        half_value(bits) < 0x100_0000_0000,
{
    lemma2_to64();
    let exponent = half_exponent(bits);
    if exponent != 0 {
        let unit = pow2((exponent - 1) as nat);
        if exponent < 30 {
            lemma_pow2_strictly_increases((exponent - 1) as nat, 29);
        }
        assert((0x400 + half_mantissa(bits)) * unit < 0x800 * 0x2000_0000) by (nonlinear_arith)
            requires
                half_mantissa(bits) < 0x400,
                0 <= unit <= 0x2000_0000,
        ;
    }
}

/// The blocks that hold a given number of elements unpack to exactly that many.
pub proof fn whole_blocks_keep_their_elements(raw: Seq<u8>, elements: nat)
    ensures
        elements % Q8_0_BLOCK_ELEMENTS as nat == 0 && raw.len() == elements
            / Q8_0_BLOCK_ELEMENTS as nat * Q8_0_BLOCK_BYTES ==> q8_0_values(raw).len() == elements,
        elements % QK_BLOCK_ELEMENTS as nat == 0 && raw.len() == elements / QK_BLOCK_ELEMENTS as nat
            * Q4_K_BLOCK_BYTES ==> q4_k_values(raw).len() == elements,
        elements % QK_BLOCK_ELEMENTS as nat == 0 && raw.len() == elements / QK_BLOCK_ELEMENTS as nat
            * Q5_K_BLOCK_BYTES ==> q5_k_values(raw).len() == elements,
{
}

} // verus!
