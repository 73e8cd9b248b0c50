//! Half precision and block quantization.

use lumen::float_ops::{f32_div, f32_mul, f64_to_f32_bits};
use lumen::runtime::quant::{q4_from_bytes, q8_from_bytes, q8_to_bytes};
use lumen::runtime::{
    dequantize_q4_0, dequantize_q8_0, f16_bits_to_f32, f32_to_f16_bits, quantize_q8_0, BlockQ4_0,
    BlockQ8_0,
};

fn f(bits: u32) -> f32 {
    f32::from_bits(bits)
}

#[test]
fn f16_zero_one_inf() {
    assert_eq!(f(f16_bits_to_f32(0x0000)), 0.0);
    // f16 1.0 = 0x3C00
    assert_eq!(f(f16_bits_to_f32(0x3C00)), 1.0);
    // f16 -1.0 = 0xBC00
    assert_eq!(f(f16_bits_to_f32(0xBC00)), -1.0);
    // f16 +inf = 0x7C00
    assert!(f(f16_bits_to_f32(0x7C00)).is_infinite());
}

#[test]
fn f32_to_f16_roundtrips() {
    for v in [0.0f32, 1.0, -1.0, 0.5, -0.5, 65504.0, -65504.0] {
        let bits = f32_to_f16_bits(v.to_bits());
        let back = f(f16_bits_to_f32(bits));
        assert!(
            (v - back).abs() < (v.abs() + 1.0) * 1e-3,
            "v={} back={}",
            v,
            back
        );
    }
}

#[test]
fn dequantize_q4_0_known_block() {
    // d = 1.0 (f16 0x3C00). qs[0] = 0x07: low nibble 7-8 = -1, high nibble 0-8 = -8.
    // qs[1..16] all 0x88: low 8-8=0, high 8-8=0.
    let mut block = BlockQ4_0 { d: 0x3C00, qs: [0x88; 16] };
    block.qs[0] = 0x07;
    let mut out = vec![0u32; 32];
    dequantize_q4_0(std::slice::from_ref(&block), &mut out);
    assert_eq!(f(out[0]), -1.0); // low nibble of qs[0]
    assert_eq!(f(out[16]), -8.0); // high nibble of qs[0]
    for j in 1..16 {
        assert_eq!(f(out[j]), 0.0);
        assert_eq!(f(out[j + 16]), 0.0);
    }
}

#[test]
fn dequantize_q8_0_known_block() {
    // d = 0.5, qs all 4: output 2.0 in all 32 slots.
    let mut qs = [0i8; 32];
    for q in qs.iter_mut() {
        *q = 4;
    }
    let block = BlockQ8_0 { d: f32_to_f16_bits(0.5f32.to_bits()), qs };
    let mut out = vec![0u32; 32];
    dequantize_q8_0(std::slice::from_ref(&block), &mut out);
    for &v in &out {
        assert!((f(v) - 2.0).abs() < 1e-3, "got {}", f(v));
    }
}

#[test]
fn quantize_then_dequantize_q8_round_trips_within_tolerance() {
    // 32 floats in [-1, 1]. Quantize and dequantize should reproduce within
    // (range/254), about 0.008.
    let input: Vec<f32> = (0..32).map(|i| ((i as f32) / 16.0) - 1.0).collect();
    let bits: Vec<u32> = input.iter().map(|x| x.to_bits()).collect();
    let mut blocks = vec![BlockQ8_0 { d: 0, qs: [0; 32] }; 1];
    quantize_q8_0(&bits, &mut blocks);
    let mut out = vec![0u32; 32];
    dequantize_q8_0(&blocks, &mut out);
    for (i, (g, w)) in out.iter().zip(input.iter()).enumerate() {
        assert!((f(*g) - w).abs() < 0.01, "i={}: got {} expected {}", i, f(*g), w);
    }
}

#[test]
fn every_half_survives_widening_and_narrowing() {
    for h in 0..=u16::MAX {
        let wide = f16_bits_to_f32(h);
        if f(wide).is_nan() {
            assert_eq!(f32_to_f16_bits(wide) & 0x7FFF, 0x7E00);
        } else {
            assert_eq!(f32_to_f16_bits(wide), h);
        }
    }
}

#[test]
fn halves_have_their_exact_values() {
    // The least subnormal, the largest subnormal and the least normal.
    assert_eq!(f(f16_bits_to_f32(0x0001)), 2f32.powi(-24));
    assert_eq!(f(f16_bits_to_f32(0x03FF)), 1023.0 * 2f32.powi(-24));
    assert_eq!(f(f16_bits_to_f32(0x0400)), 2f32.powi(-14));
    assert_eq!(f(f16_bits_to_f32(0x8001)), -(2f32.powi(-24)));
}

#[test]
fn narrowing_rounds_ties_to_even() {
    // 1 + 2^-11 lies halfway between 1 and 1 + 2^-10.
    assert_eq!(f32_to_f16_bits((1.0f32 + 2f32.powi(-11)).to_bits()), 0x3C00);
    assert_eq!(f32_to_f16_bits((1.0f32 + 3.0 * 2f32.powi(-11)).to_bits()), 0x3C02);
    // Halfway between the largest half and what would be the next one.
    assert_eq!(f32_to_f16_bits(65520.0f32.to_bits()), 0x7C00);
    assert_eq!(f32_to_f16_bits(65519.0f32.to_bits()), 0x7BFF);
    // Half of the least subnormal goes to zero, a bit more does not.
    assert_eq!(f32_to_f16_bits(2f32.powi(-25).to_bits()), 0x0000);
    assert_eq!(f32_to_f16_bits((1.5 * 2f32.powi(-25)).to_bits()), 0x0001);
}

#[test]
fn products_and_quotients_are_those_of_the_processor() {
    let mut s: u32 = 12345;
    let mut next = || {
        s ^= s << 13;
        s ^= s >> 17;
        s ^= s << 5;
        s
    };
    let edges = [
        0u32,
        0x8000_0000,
        1,
        0x007F_FFFF,
        0x0080_0000,
        0x3F80_0000,
        0x7F7F_FFFF,
        0x7F80_0000,
        0xFF80_0000,
        0x7FC0_0000,
    ];
    let mut cases: Vec<(u32, u32)> = Vec::new();
    for a in edges {
        for b in edges {
            cases.push((a, b));
        }
    }
    for _ in 0..2000 {
        cases.push((next(), next()));
    }
    for (a, b) in cases {
        let product = f(a) * f(b);
        let quotient = f(a) / f(b);
        if product.is_nan() {
            assert!(f(f32_mul(a, b)).is_nan());
        } else {
            assert_eq!(f32_mul(a, b), product.to_bits(), "{:x} * {:x}", a, b);
        }
        if quotient.is_nan() {
            assert!(f(f32_div(a, b)).is_nan());
        } else {
            assert_eq!(f32_div(a, b), quotient.to_bits(), "{:x} / {:x}", a, b);
        }
    }
}

#[test]
fn doubles_narrow_as_the_processor_does() {
    for v in [0.0f64, -0.0, 1.0, 0.1, -1e-45, 1e39, 3.4028235677973366e38, 1e-40, 1e300] {
        assert_eq!(f64_to_f32_bits(v.to_bits()), (v as f32).to_bits(), "{}", v);
    }
    assert!(f(f64_to_f32_bits(f64::NAN.to_bits())).is_nan());
}

#[test]
fn quantization_rounds_to_the_nearest_step() {
    // The greatest magnitude is 127, so the scale is 1 and the quants are the
    // numbers rounded, halves away from zero.
    let mut x = [0.0f32; 32];
    x[0] = 127.0;
    x[1] = -127.0;
    x[2] = 2.5;
    x[3] = -2.5;
    x[4] = 0.49;
    let bits: Vec<u32> = x.iter().map(|v| v.to_bits()).collect();
    let mut blocks = vec![BlockQ8_0 { d: 9, qs: [7; 32] }];
    quantize_q8_0(&bits, &mut blocks);
    assert_eq!(blocks[0].d, 0x3C00);
    assert_eq!(blocks[0].qs[..6], [127, -127, 3, -3, 0, 0]);
}

#[test]
fn a_quant_times_its_scale_is_close() {
    let x: Vec<f32> = (0..32).map(|i| ((i * 37 % 64) as f32 - 31.5) * 0.37).collect();
    let bits: Vec<u32> = x.iter().map(|v| v.to_bits()).collect();
    let mut blocks = vec![BlockQ8_0 { d: 0, qs: [0; 32] }];
    quantize_q8_0(&bits, &mut blocks);
    let largest = x.iter().fold(0.0f32, |m, v| m.max(v.abs()));
    let scale = (largest / 127.0) as f64;
    for (v, q) in x.iter().zip(blocks[0].qs.iter()) {
        assert!((*v as f64 - *q as f64 * scale).abs() <= scale * (0.5 + 1.0 / 16384.0), "{}", v);
        assert!(*q == 0 || (*q < 0) == (*v < 0.0));
        assert!(-127 <= *q);
    }
}

#[test]
fn tiny_numbers_saturate() {
    // The scale is the least positive number; one over it is infinite.
    let mut x = [0u32; 32];
    x[0] = 100;
    x[1] = 0x8000_0000 | 50;
    let mut blocks = vec![BlockQ8_0 { d: 0, qs: [0; 32] }];
    quantize_q8_0(&x, &mut blocks);
    assert_eq!(blocks[0].qs[..2], [127, -128]);
}

#[test]
fn a_block_of_zeros_is_quantized_to_zeros() {
    let mut blocks = vec![BlockQ8_0 { d: 9, qs: [7; 32] }];
    quantize_q8_0(&[0u32; 32], &mut blocks);
    assert_eq!(blocks[0].d, 0);
    assert_eq!(blocks[0].qs, [0i8; 32]);
}

#[test]
fn block_bytes_round_trip() {
    let mut qs = [0i8; 32];
    for (i, q) in qs.iter_mut().enumerate() {
        *q = (i as i32 * 9 - 128) as i8;
    }
    let blocks = vec![BlockQ8_0 { d: 0x1234, qs }, BlockQ8_0 { d: 0xFFFE, qs: [-1; 32] }];
    let bytes = q8_to_bytes(&blocks);
    assert_eq!(bytes.len(), 68);
    assert_eq!(bytes[..4], [0x34, 0x12, 0x80, 0x89]);
    let back = q8_from_bytes(&bytes);
    assert_eq!(back.len(), 2);
    assert_eq!(back[0].d, 0x1234);
    assert_eq!(back[0].qs, blocks[0].qs);
    assert_eq!(back[1].qs, [-1i8; 32]);

    let mut q4 = vec![0x00u8, 0x3C];
    q4.extend_from_slice(&[0x21; 16]);
    let four = q4_from_bytes(&q4);
    assert_eq!(four.len(), 1);
    assert_eq!((four[0].d, four[0].qs), (0x3C00, [0x21; 16]));
}
