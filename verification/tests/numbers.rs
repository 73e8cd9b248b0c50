//! Numbers in decimal, and numbers of any size.

use lumen::float_text::{push_f32, push_f32_debug, push_f64};
use lumen::natural::Natural;

fn shown(bits: u32) -> String {
    let mut s = String::new();
    push_f32(&mut s, bits);
    s
}

fn diagnosed(bits: u32) -> String {
    let mut s = String::new();
    push_f32_debug(&mut s, bits);
    s
}

fn shown_wide(bits: u64) -> String {
    let mut s = String::new();
    push_f64(&mut s, bits);
    s
}

/// The next number of a fixed sequence.
fn next(state: &mut u64) -> u64 {
    *state = state.wrapping_mul(6364136223846793005).wrapping_add(1442695040888963407);
    *state ^ (*state >> 31)
}

#[test]
fn numbers_are_shown_in_decimal() {
    assert_eq!(shown(1e-5f32.to_bits()), "0.00001");
    assert_eq!(shown(10000.0f32.to_bits()), "10000");
    assert_eq!(shown((-1.5f32).to_bits()), "-1.5");
    assert_eq!(shown(0.1f32.to_bits()), "0.1");
    assert_eq!(shown(f32::MAX.to_bits()), "340282350000000000000000000000000000000");
    assert_eq!(shown(0), "0");
    assert_eq!(shown(0x8000_0000), "-0");
    assert_eq!(shown(0x7F80_0000), "inf");
    assert_eq!(shown(0xFF80_0000), "-inf");
    assert_eq!(shown(0x7FC0_0000), "NaN");
    assert_eq!(shown(0xFFC0_0000), "NaN");
}

#[test]
fn diagnostics_show_an_exponent_or_a_fraction() {
    assert_eq!(diagnosed(10000.0f32.to_bits()), "10000.0");
    assert_eq!(diagnosed(1e-5f32.to_bits()), "1e-5");
    assert_eq!(diagnosed(1e-4f32.to_bits()), "0.0001");
    assert_eq!(diagnosed(1e16f32.to_bits()), "1e16");
    assert_eq!(diagnosed(f32::MAX.to_bits()), "3.4028235e38");
    assert_eq!(diagnosed(0), "0.0");
    assert_eq!(diagnosed(0x8000_0000), "-0.0");
    assert_eq!(diagnosed(0xFF80_0000), "-inf");
    assert_eq!(diagnosed(0x7F80_0001), "NaN");
}

#[test]
fn fp32_texts_are_those_of_the_standard_library() {
    let mut patterns: Vec<u32> = Vec::new();
    for field in 0u32..=255 {
        for low in [0, 1, 2, 0x40_0000, 0x7F_FFFE, 0x7F_FFFF] {
            patterns.push((field << 23) | low);
            patterns.push(0x8000_0000 | (field << 23) | low);
        }
    }
    for near in [1e16f32, 1e-4, 1e23, 9e9, 8388608.0, 16777216.0, 2097152.25, 4194304.5, 1e-45] {
        for step in 0..40u32 {
            patterns.push((near.to_bits() + step).wrapping_sub(20));
        }
    }
    let mut state = 1u64;
    for _ in 0..3000 {
        patterns.push(next(&mut state) as u32);
    }
    for b in patterns {
        let v = f32::from_bits(b);
        assert_eq!(shown(b), format!("{}", v), "{:#x}", b);
        assert_eq!(diagnosed(b), format!("{:?}", v), "{:#x}", b);
    }
}

#[test]
fn fp64_texts_are_those_of_the_standard_library() {
    let mut patterns: Vec<u64> = vec![0, 1, 2, 3, 1 << 63, 0x7FF0_0000_0000_0000, 0x7FF8_0000_0000_0000];
    for field in [0u64, 1, 2, 1000, 1022, 1023, 1024, 1075, 1076, 1077, 2000, 2045, 2046] {
        for low in [0, 1, 0x8_0000_0000_0000, 0xF_FFFF_FFFF_FFFF] {
            patterns.push((field << 52) | low);
            patterns.push((1 << 63) | (field << 52) | low);
        }
    }
    for v in [1e23, 9007199254740993.0, 5e-324, 0.1, 0.3, 2.0 / 3.0, 1e-7, 1e300, 123456.789] {
        for step in 0..6u64 {
            patterns.push((f64::to_bits(v) + step).wrapping_sub(3));
        }
    }
    let mut state = 2u64;
    for _ in 0..300 {
        patterns.push(next(&mut state));
    }
    for b in patterns {
        assert_eq!(shown_wide(b), format!("{}", f64::from_bits(b)), "{:#x}", b);
    }
}

#[test]
fn the_shortest_text_reads_back() {
    let mut state = 3u64;
    for _ in 0..500 {
        let b = next(&mut state) as u32;
        if !f32::from_bits(b).is_nan() {
            assert_eq!(shown(b).parse::<f32>().unwrap().to_bits(), b);
            assert_eq!(diagnosed(b).parse::<f32>().unwrap().to_bits(), b);
        }
    }
}

#[test]
fn naturals_carry_and_borrow() {
    let top = Natural::from_u64(u64::MAX);
    let one = Natural::from_u64(1);
    let over = top.plus(&one);
    assert!(top.less(&over) && !over.less(&top) && !over.less(&over));
    let back = over.minus(&one);
    assert!(!back.less(&top) && !top.less(&back));
    // 2^64 = 2^32 * 2^32.
    let square = Natural::from_u64(1 << 32).times(0x8000_0000).times(2);
    assert!(!square.less(&over) && !over.less(&square));
    assert!(Natural::from_u64(0).times(7).less(&one));
}
