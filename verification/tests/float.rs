//! The texts of floats given by their bits.
use d3dasm::float::{debug_double, debug_single, display_single, fixed_single};

fn samples() -> Vec<u32> {
    let mut out = vec![
        0,
        0x8000_0000,
        0x3F80_0000,
        0x3DCC_CCCD,
        0x7F80_0000,
        0xFF80_0000,
        0x7FC0_0000,
        1,
        0x007F_FFFF,
        0x0080_0000,
        0x7F7F_FFFF,
        0x4B80_0000,
        0x5A0E_1BCA,
        0x3727_C5AC,
        0x4049_0FDB,
    ];
    let mut seed = 12345u32;
    for _ in 0..400 {
        seed = seed.wrapping_mul(1_664_525).wrapping_add(1_013_904_223);
        out.push(seed);
    }
    out
}

#[test]
fn known_values() {
    assert_eq!(debug_single(0x3F80_0000), "1.0");
    assert_eq!(debug_single(0x3DCC_CCCD), "0.1");
    assert_eq!(debug_single(0x7F7F_FFFF), "3.4028235e38");
    assert_eq!(debug_single(1), "1e-45");
    assert_eq!(debug_double(0x3FF0_0000_0000_0000), "1.0");
    assert_eq!(debug_double(0x3FB9_9999_9999_999A), "0.1");
}

#[test]
fn singles_read_as_they_print() {
    for bits in samples() {
        let value = f32::from_bits(bits);
        assert_eq!(debug_single(bits), format!("{value:?}"), "{bits:#x}");
        assert_eq!(display_single(bits), format!("{value}"), "{bits:#x}");
    }
}

#[test]
fn singles_keep_six_digits() {
    for bits in samples() {
        let value = f32::from_bits(bits);
        if value.is_finite() {
            assert_eq!(fixed_single(bits), format!("{value:.6}"), "{bits:#x}");
        }
    }
}

#[test]
fn doubles_read_as_they_print() {
    for bits in samples() {
        let wide = (bits as u64) << 32 | bits.wrapping_mul(2_654_435_761) as u64;
        let value = f64::from_bits(wide);
        assert_eq!(debug_double(wide), format!("{value:?}"), "{wide:#x}");
    }
}
