use mandelbrot::viewport::{bits_are_finite, Viewport, NON_FINITE_EXPONENT};

#[test]
fn ordinary_numbers_are_finite() {
    for v in [0.0f64, -0.0, 1.0, -1.0, 0.5, -0.75, 3.25, 1e300, -1e300, 1e-300] {
        assert!(bits_are_finite(v.to_bits()), "{}", v);
    }
}

#[test]
fn extreme_finite_numbers_are_finite() {
    assert!(bits_are_finite(f64::MAX.to_bits()));
    assert!(bits_are_finite(f64::MIN.to_bits()));
    assert!(bits_are_finite(f64::MIN_POSITIVE.to_bits()));
    assert!(bits_are_finite(f64::EPSILON.to_bits()));
    // The smallest subnormal number.
    assert!(bits_are_finite(1));
    assert!(bits_are_finite(0x7fef_ffff_ffff_ffff));
    assert!(bits_are_finite(0xffef_ffff_ffff_ffff));
}

#[test]
fn infinities_are_not_finite() {
    assert!(!bits_are_finite(f64::INFINITY.to_bits()));
    assert!(!bits_are_finite(f64::NEG_INFINITY.to_bits()));
    assert!(!bits_are_finite(0x7ff0_0000_0000_0000));
    assert!(!bits_are_finite(0xfff0_0000_0000_0000));
}

#[test]
fn nans_are_not_finite() {
    assert!(!bits_are_finite(f64::NAN.to_bits()));
    assert!(!bits_are_finite((-f64::NAN).to_bits()));
    assert!(!bits_are_finite(0x7ff0_0000_0000_0001));
    assert!(!bits_are_finite(0x7ff8_0000_0000_0000));
    assert!(!bits_are_finite(0xffff_ffff_ffff_ffff));
}

#[test]
fn finiteness_of_bits_agrees_with_the_numbers() {
    let patterns = [
        0u64,
        1,
        0x000f_ffff_ffff_ffff,
        0x0010_0000_0000_0000,
        0x3ff0_0000_0000_0000,
        0x7fe0_0000_0000_0000,
        0x7fef_ffff_ffff_ffff,
        0x7ff0_0000_0000_0000,
        0x7ff0_0000_0000_0001,
        0x7fff_ffff_ffff_ffff,
        0x8000_0000_0000_0000,
        0xbff0_0000_0000_0000,
        0xffef_ffff_ffff_ffff,
        0xfff0_0000_0000_0000,
        0xfff8_0000_0000_0000,
        0xffff_ffff_ffff_ffff,
    ];
    for bits in patterns {
        assert_eq!(bits_are_finite(bits), f64::from_bits(bits).is_finite(), "{:#x}", bits);
    }
}

#[test]
fn non_finite_exponent_is_all_ones() {
    assert_eq!(NON_FINITE_EXPONENT, 2047);
}

#[test]
fn viewport_keeps_its_numbers() {
    let viewport = Viewport::from_bits(1, 2, 3);
    assert_eq!(viewport.center_re, 1);
    assert_eq!(viewport.center_im, 2);
    assert_eq!(viewport.scale, 3);
    assert_eq!(viewport, Viewport { center_re: 1, center_im: 2, scale: 3 });
}

#[test]
fn viewport_of_finite_numbers_is_finite() {
    let viewport = Viewport::from_bits((-0.75f64).to_bits(), 0.1f64.to_bits(), 2.0f64.to_bits());
    assert!(viewport.is_finite());
}

#[test]
fn viewport_with_one_non_finite_number_is_not_finite() {
    let one = 1.0f64.to_bits();
    for bad in [f64::NAN, f64::INFINITY, f64::NEG_INFINITY] {
        let bad = bad.to_bits();
        assert!(!Viewport::from_bits(bad, one, one).is_finite());
        assert!(!Viewport::from_bits(one, bad, one).is_finite());
        assert!(!Viewport::from_bits(one, one, bad).is_finite());
    }
}
