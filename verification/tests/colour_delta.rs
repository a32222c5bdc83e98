use riff::colour_delta::{
    blend, blend_semi_transparent_colour, calculate_pixel_colour_delta, rgb2i, rgb2q, rgb2y,
    rgba_to_f64, Pixel,
};

fn px(r: u8, g: u8, b: u8, a: u8) -> Pixel {
    Pixel { r, g, b, a }
}

/// A component counted in units of 10^-8, as a fraction.
fn component(units: i128) -> f64 {
    units as f64 / 1e8
}

/// A distance counted in units of 10^-20, as a fraction.
fn distance(units: u128) -> f64 {
    units as f64 / 1e20
}

#[test]
fn blends() {
    assert_eq!(blend(200, 1), 200);
}

#[test]
fn blend_semi_transparent() {
    assert_eq!(blend_semi_transparent_colour(200, 0, 0, 255), [200, 0, 0, 255]);
}

#[test]
fn rgb_to_i() {
    assert_eq!(rgb2i(255, 100, 50), 10_846_668_295);
    assert_eq!(component(rgb2i(255, 100, 50)), 108.46668295);
}

#[test]
fn rgb_to_q() {
    assert_eq!(rgb2q(255, 100, 50), 1_722_052_935);
    assert!((component(rgb2q(255, 100, 50)) - 17.220529350000007).abs() < 1e-13);
}

#[test]
fn rgb_to_y() {
    assert_eq!(rgb2y(255, 100, 50), 14_060_466_255);
    assert_eq!(component(rgb2y(255, 100, 50)), 140.60466255);
}

#[test]
fn calculates_colour_delta() {
    let pixel_a = px(255, 0, 0, 255);
    let pixel_b = px(0, 255, 0, 255);

    assert_eq!(
        calculate_pixel_colour_delta(&pixel_a, &pixel_b),
        2_429_887_551_873_440_415_681_150
    );
    assert!(
        (distance(calculate_pixel_colour_delta(&pixel_a, &pixel_b)) - 24298.8755187344).abs()
            < 1e-10
    );
    assert_eq!(calculate_pixel_colour_delta(&pixel_a, &pixel_a), 0);
}

#[test]
fn blend_moves_towards_white() {
    assert_eq!(blend(200, 0), 255);
    assert_eq!(blend(200, 2), 145);
    assert_eq!(blend(0, 254), -64515);
    assert_eq!(blend(255, 128), 255);
    assert_eq!(blend(-3, -7), 2061);
}

#[test]
fn blend_holds_the_widest_inputs() {
    assert_eq!(blend(i32::MIN, i32::MIN), 255 + (i32::MIN as i64 - 255) * i32::MIN as i64);
    assert_eq!(blend(i32::MAX, i32::MIN), 255 + (i32::MAX as i64 - 255) * i32::MIN as i64);
    assert_eq!(blend(i32::MIN, i32::MAX), 255 + (i32::MIN as i64 - 255) * i32::MAX as i64);
}

#[test]
fn semi_transparent_colours_are_composited_with_the_raw_alpha() {
    assert_eq!(blend_semi_transparent_colour(200, 0, 0, 0), [255, 255, 255, 0]);
    assert_eq!(blend_semi_transparent_colour(200, 0, 255, 128), [-6785, -32385, 255, 128]);
    assert_eq!(blend_semi_transparent_colour(200, 0, 255, 254), [-13715, -64515, 255, 254]);
    assert_eq!(blend_semi_transparent_colour(200, 0, 255, 255), [200, 0, 255, 255]);
    assert_eq!(blend_semi_transparent_colour(1, 2, 3, 300), [1, 2, 3, 300]);
}

#[test]
fn channels_are_widened_in_order() {
    assert_eq!(rgba_to_f64(1, 2, 3, 4), [1, 2, 3, 4]);
    assert_eq!(rgba_to_f64(255, 0, 128, 255), [255, 0, 128, 255]);
}

#[test]
fn components_use_the_exact_weights() {
    assert_eq!(rgb2y(1, 0, 0), 29_889_531);
    assert_eq!(rgb2y(0, 1, 0), 58_662_247);
    assert_eq!(rgb2y(0, 0, 1), 11_448_223);
    assert_eq!(rgb2i(1, 0, 0), 59_597_799);
    assert_eq!(rgb2i(0, 1, 0), -27_417_610);
    assert_eq!(rgb2i(0, 0, 1), -32_180_189);
    assert_eq!(rgb2q(1, 0, 0), 21_147_017);
    assert_eq!(rgb2q(0, 1, 0), -52_261_711);
    assert_eq!(rgb2q(0, 0, 1), 31_114_694);
}

#[test]
fn components_hold_the_widest_inputs() {
    let top = i64::MAX as i128;
    let bottom = i64::MIN as i128;
    assert_eq!(
        rgb2y(i64::MAX, i64::MAX, i64::MAX),
        29_889_531 * top + 58_662_247 * top + 11_448_223 * top
    );
    assert_eq!(
        rgb2i(i64::MAX, i64::MIN, i64::MIN),
        59_597_799 * top - 27_417_610 * bottom - 32_180_189 * bottom
    );
    assert_eq!(
        rgb2q(i64::MIN, i64::MAX, i64::MIN),
        21_147_017 * bottom - 52_261_711 * top + 31_114_694 * bottom
    );
}

#[test]
fn delta_of_a_pixel_with_itself_is_zero() {
    for pixel in [px(0, 0, 0, 0), px(12, 200, 7, 255), px(255, 255, 255, 128), px(9, 8, 7, 1)] {
        assert_eq!(calculate_pixel_colour_delta(&pixel, &pixel), 0);
    }
}

#[test]
fn delta_is_symmetric() {
    let samples = [
        px(0, 0, 0, 255),
        px(255, 255, 255, 255),
        px(12, 200, 7, 255),
        px(12, 200, 7, 128),
        px(90, 3, 250, 0),
        px(1, 2, 3, 254),
    ];
    for a in samples.iter() {
        for b in samples.iter() {
            assert_eq!(calculate_pixel_colour_delta(a, b), calculate_pixel_colour_delta(b, a));
        }
    }
}

#[test]
fn delta_between_black_and_white() {
    let black = px(0, 0, 0, 255);
    let white = px(255, 255, 255, 255);
    assert_eq!(calculate_pixel_colour_delta(&white, &black), 3_285_713_315_714_265_328_571_325);
}

#[test]
fn delta_composites_against_white_at_each_alpha() {
    // Alpha 0 turns any colour into white.
    assert_eq!(calculate_pixel_colour_delta(&px(0, 0, 0, 0), &px(255, 255, 255, 255)), 0);
    assert_eq!(calculate_pixel_colour_delta(&px(7, 99, 180, 0), &px(200, 1, 30, 0)), 0);
    assert_eq!(
        calculate_pixel_colour_delta(&px(0, 0, 0, 0), &px(0, 0, 0, 255)),
        3_285_713_315_714_265_328_571_325
    );
    // Alpha 128 is the blend factor as it stands, not a fraction.
    assert_eq!(
        calculate_pixel_colour_delta(&px(10, 20, 30, 128), &px(10, 20, 30, 255)),
        45_758_385_525_018_803_168_664_884_025
    );
    // Alpha 255 leaves the colour alone.
    assert_eq!(
        calculate_pixel_colour_delta(&px(255, 0, 0, 255), &px(0, 255, 0, 255)),
        2_429_887_551_873_440_415_681_150
    );
}

#[test]
fn delta_agrees_with_the_formula_in_floating_point() {
    let weigh = |rgb: [f64; 3]| {
        (
            rgb[0] * 0.29889531 + rgb[1] * 0.58662247 + rgb[2] * 0.11448223,
            rgb[0] * 0.59597799 - rgb[1] * 0.27417610 - rgb[2] * 0.32180189,
            rgb[0] * 0.21147017 - rgb[1] * 0.52261711 + rgb[2] * 0.31114694,
        )
    };
    let levels = [0u8, 1, 37, 128, 200, 255];
    for &r in levels.iter() {
        for &g in levels.iter() {
            for &b in levels.iter() {
                let a = px(r, g, b, 255);
                let other = px(b, r, 255 - g, 255);
                let (ya, ia, qa) = weigh([r as f64, g as f64, b as f64]);
                let (yb, ib, qb) = weigh([b as f64, r as f64, (255 - g) as f64]);
                let (y, i, q) = (ya - yb, ia - ib, qa - qb);
                let expected = 0.5053 * y * y + 0.299 * i * i + 0.1957 * q * q;
                let found = distance(calculate_pixel_colour_delta(&a, &other));
                assert!((found - expected).abs() <= 1e-9 * expected.max(1.0));
            }
        }
    }
}
