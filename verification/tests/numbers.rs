use easel::binary64::Binary64;
use easel::commands::{default_canvas_name, default_font_size, default_position, default_size};

fn half(x: f64) -> f64 {
    f64::from_bits(Binary64::from_bits(x.to_bits()).halved().to_bits())
}

#[test]
fn halving_matches_division_by_two() {
    for x in [40.0f64, 20.0, 1.0, 3.0, 0.1, 1e300, -7.5, 123456.789, 2.2250738585072014e-308] {
        assert_eq!(half(x).to_bits(), (x / 2.0).to_bits());
    }
}

#[test]
fn halving_zero_keeps_its_sign() {
    assert_eq!(half(0.0).to_bits(), 0.0f64.to_bits());
    assert_eq!(half(-0.0).to_bits(), (-0.0f64).to_bits());
}

#[test]
fn halving_rounds_the_smallest_numbers_to_even() {
    for bits in [1u64, 2, 3, 4, 5, 6, 7, 0x000f_ffff_ffff_ffff, 0x0010_0000_0000_0000,
        0x0010_0000_0000_0001, 0x0010_0000_0000_0003, 0x001f_ffff_ffff_ffff,
        0x0020_0000_0000_0000, 0x0020_0000_0000_0001]
    {
        let x = f64::from_bits(bits);
        assert_eq!(half(x).to_bits(), (x / 2.0).to_bits());
        assert_eq!(half(-x).to_bits(), (-x / 2.0).to_bits());
    }
}

#[test]
fn halving_infinity_gives_infinity() {
    assert_eq!(half(f64::INFINITY), f64::INFINITY);
    assert_eq!(half(f64::NEG_INFINITY), f64::NEG_INFINITY);
    assert_eq!(half(f64::MAX).to_bits(), (f64::MAX / 2.0).to_bits());
}

#[test]
fn halving_what_is_not_a_number_stays_so() {
    assert!(half(f64::NAN).is_nan());
    let signalling = Binary64::from_bits(0x7ff0_0000_0000_0001).halved();
    assert_eq!(signalling.to_bits(), 0x7ff8_0000_0000_0001);
}

#[test]
fn defaults_are_the_documented_numbers() {
    assert_eq!(f64::from_bits(default_position().to_bits()), 100.0);
    assert_eq!(f64::from_bits(default_size().to_bits()), 200.0);
    assert_eq!(f64::from_bits(default_font_size().to_bits()), 16.0);
    assert_eq!(default_canvas_name(), "Untitled");
}
