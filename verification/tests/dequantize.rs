use gguf_loader::dequantize::{
    dequantize_q4_k, dequantize_q5_k, dequantize_q8_0, get_scale_min_k4,
};
use gguf_loader::float::{f16_to_f32, is_at_most_zero, narrow, widen};

fn half(bits: u16) -> f32 {
    f32::from_bits(f16_to_f32(bits))
}

fn numbers(bits: Vec<u32>) -> Vec<f32> {
    bits.into_iter().map(f32::from_bits).collect()
}

#[test]
fn f16_to_f32_handles_every_numeric_class_exactly() {
    assert_eq!(half(0x0000).to_bits(), 0f32.to_bits());
    assert_eq!(half(0x8000).to_bits(), (-0f32).to_bits());
    assert_eq!(half(0x0001), 2f32.powi(-24));
    assert_eq!(half(0x03FF), 2f32.powi(-14) * (1023.0 / 1024.0));
    assert_eq!(half(0x7BFF), 65504.0f32);
    assert_eq!(half(0xFBFF), -65504.0f32);
    assert!(half(0x7C00).is_infinite() && half(0x7C00) > 0.0);
    assert!(half(0xFC00).is_infinite() && half(0xFC00) < 0.0);
    let nan = half(0x7E00);
    assert!(nan.is_nan());
    assert_eq!(nan.to_bits() >> 31, 0);
}

#[test]
fn dequantizes_q8_0() {
    let mut block = Vec::with_capacity(34);
    block.extend_from_slice(&0x4000u16.to_le_bytes()); // d = 2.0
    let qs: Vec<i8> = (-16..16).collect();
    block.extend(qs.iter().map(|&value| value as u8));
    let expected: Vec<f32> = qs.iter().map(|&value| 2.0 * f32::from(value)).collect();
    assert_eq!(numbers(dequantize_q8_0(&block)), expected);
}

#[test]
fn dequantizes_q4_k_both_scale_packing_branches() {
    let mut block = Vec::with_capacity(144);
    block.extend_from_slice(&0x3C00u16.to_le_bytes()); // d = 1.0
    block.extend_from_slice(&0x3C00u16.to_le_bytes()); // dmin = 1.0
    let scales: [u8; 12] = [1, 2, 0, 0, 0, 3, 0, 0, 0x25, 0x37, 0, 0];
    block.extend_from_slice(&scales);
    block.extend(std::iter::repeat_n(0x21u8, 32));
    block.extend(std::iter::repeat_n(0x00u8, 32));
    block.extend(std::iter::repeat_n(0x21u8, 32));
    block.extend(std::iter::repeat_n(0x00u8, 32));

    let mut expected = Vec::with_capacity(256);
    expected.extend(std::iter::repeat_n(1.0f32 * 1.0 - 0.0, 32));
    expected.extend(std::iter::repeat_n(2.0f32 * 2.0 - 3.0, 32));
    expected.extend(std::iter::repeat_n(0.0f32, 64));
    expected.extend(std::iter::repeat_n(5.0f32 * 1.0 - 2.0, 32));
    expected.extend(std::iter::repeat_n(7.0f32 * 2.0 - 3.0, 32));
    expected.extend(std::iter::repeat_n(0.0f32, 64));
    assert_eq!(numbers(dequantize_q4_k(&block)), expected);
}

#[test]
fn dequantizes_q5_k_high_bit_plane() {
    let mut block = Vec::with_capacity(176);
    block.extend_from_slice(&0x3C00u16.to_le_bytes());
    block.extend_from_slice(&0x3C00u16.to_le_bytes());
    let scales: [u8; 12] = [1, 0, 0, 0, 0, 0, 0, 0, 0, 0, 0, 0];
    block.extend_from_slice(&scales);
    let mut qh = [0u8; 32];
    qh[0] = 0x01;
    block.extend_from_slice(&qh);
    let mut qs = [0u8; 128];
    qs[0] = 0x01;
    block.extend_from_slice(&qs);

    let mut expected = vec![0.0f32; 256];
    expected[0] = 17.0;
    assert_eq!(numbers(dequantize_q5_k(&block)), expected);
}

/// A sequence of pseudo-random bytes.
fn noise(length: usize, seed: u32) -> Vec<u8> {
    let mut state = seed;
    (0..length)
        .map(|_| {
            state = state.wrapping_mul(1_664_525).wrapping_add(1_013_904_223);
            (state >> 24) as u8
        })
        .collect()
}

fn same_number(left: u32, right: f32) -> bool {
    left == right.to_bits() || (f32::from_bits(left).is_nan() && right.is_nan())
}

#[test]
fn q8_0_agrees_with_single_precision_arithmetic() {
    let raw = noise(34 * 200, 7);
    let values = dequantize_q8_0(&raw);
    assert_eq!(values.len(), 32 * 200);
    for (at, bits) in values.iter().enumerate() {
        let block = &raw[at / 32 * 34..];
        let d = half(u16::from_le_bytes([block[0], block[1]]));
        let expected = d * f32::from(block[2 + at % 32] as i8);
        assert!(same_number(*bits, expected), "{at}: {bits:x} {expected}");
    }
}

#[test]
fn k_quants_agree_with_single_precision_arithmetic() {
    let raw4 = noise(144 * 60, 11);
    let values4 = dequantize_q4_k(&raw4);
    assert_eq!(values4.len(), 256 * 60);
    for (at, bits) in values4.iter().enumerate() {
        let block = &raw4[at / 256 * 144..at / 256 * 144 + 144];
        let index = at % 256;
        let d = half(u16::from_le_bytes([block[0], block[1]]));
        let dmin = half(u16::from_le_bytes([block[2], block[3]]));
        let scales: [u8; 12] = block[4..16].try_into().unwrap();
        let (scale, min) = get_scale_min_k4(index / 32, &scales);
        let byte = block[16 + index / 64 * 32 + index % 32];
        let quant = if index / 32 % 2 == 0 { byte & 0xF } else { byte >> 4 };
        let expected = (d * f32::from(scale)) * f32::from(quant) - dmin * f32::from(min);
        assert!(same_number(*bits, expected), "{at}: {bits:x} {expected}");
    }

    let raw5 = noise(176 * 60, 13);
    let values5 = dequantize_q5_k(&raw5);
    assert_eq!(values5.len(), 256 * 60);
    for (at, bits) in values5.iter().enumerate() {
        let block = &raw5[at / 256 * 176..at / 256 * 176 + 176];
        let index = at % 256;
        let d = half(u16::from_le_bytes([block[0], block[1]]));
        let dmin = half(u16::from_le_bytes([block[2], block[3]]));
        let scales: [u8; 12] = block[4..16].try_into().unwrap();
        let (scale, min) = get_scale_min_k4(index / 32, &scales);
        let byte = block[48 + index / 64 * 32 + index % 32];
        let low = if index / 32 % 2 == 0 { byte & 0xF } else { byte >> 4 };
        let high = (block[16 + index % 32] >> (index / 32)) & 1;
        let quant = low | (high << 4);
        let expected = (d * f32::from(scale)) * f32::from(quant) - dmin * f32::from(min);
        assert!(same_number(*bits, expected), "{at}: {bits:x} {expected}");
    }
}

#[test]
fn incomplete_blocks_are_left_alone() {
    assert!(dequantize_q8_0(&[0; 33]).is_empty());
    assert_eq!(dequantize_q8_0(&[0; 67]).len(), 32);
    assert!(dequantize_q4_k(&[0; 143]).is_empty());
    assert!(dequantize_q5_k(&[0; 175]).is_empty());
}

#[test]
fn scales_and_minimums_are_six_bits() {
    let scales: [u8; 12] = [
        0xC1, 0x42, 0x83, 0x04, 0x45, 0x86, 0xC7, 0x08, 0x9A, 0xBC, 0xDE, 0xF1,
    ];
    assert_eq!(get_scale_min_k4(0, &scales), (0x01, 0x05));
    assert_eq!(get_scale_min_k4(3, &scales), (0x04, 0x08));
    assert_eq!(get_scale_min_k4(4, &scales), (0x0A | 0x30, 0x09 | 0x10));
    assert_eq!(get_scale_min_k4(6, &scales), (0x0E | 0x20, 0x0D | 0x30));
    for j in 0..8 {
        let (scale, min) = get_scale_min_k4(j, &scales);
        assert!(scale < 64 && min < 64);
    }
}

#[test]
fn widening_and_narrowing_agree_with_the_machine() {
    for bits in [
        0u32,
        1,
        0x8000_0000,
        0x007F_FFFF,
        0x0080_0000,
        0x3F80_0001,
        0x7F7F_FFFF,
        0x7F80_0000,
        0xFF80_0000,
        0xC2F7_0001,
    ] {
        let wide = f64::from(f32::from_bits(bits));
        assert_eq!(widen(bits), wide.to_bits());
        assert_eq!(narrow(widen(bits)), bits);
    }
    for value in [
        0.1f64,
        -0.1,
        1e-6,
        1e300,
        -1e300,
        1e-300,
        1e-40,
        3.0e-45,
        0.7e-45,
        f64::from(f32::MAX),
        f64::from(f32::MAX) * (1.0 + 1e-9),
        1.0 + 2f64.powi(-24),
        1.0 + 3.0 * 2f64.powi(-24),
        2f64.powi(-150),
        2f64.powi(-150) * 1.5,
        f64::INFINITY,
        f64::MIN_POSITIVE,
    ] {
        assert_eq!(narrow(value.to_bits()), (value as f32).to_bits(), "{value}");
    }
    assert!(f32::from_bits(narrow(f64::NAN.to_bits())).is_nan());
    let mut state = 5u64;
    for _ in 0..20_000 {
        state = state
            .wrapping_mul(6_364_136_223_846_793_005)
            .wrapping_add(1_442_695_040_888_963_407);
        let exponent = 860 + (state >> 33) % 300;
        let bits = (exponent << 52) | (state >> 12);
        let value = f64::from_bits(bits);
        assert_eq!(narrow(bits), (value as f32).to_bits(), "{value}");
    }
}

#[test]
fn signs_of_doubles_are_told_apart() {
    assert!(is_at_most_zero(0.0f64.to_bits()));
    assert!(is_at_most_zero((-0.0f64).to_bits()));
    assert!(is_at_most_zero((-5e-324f64).to_bits()));
    assert!(!is_at_most_zero(5e-324f64.to_bits()));
    assert!(!is_at_most_zero(f64::NAN.to_bits()));
    assert!(!is_at_most_zero((-f64::NAN).to_bits()));
}
