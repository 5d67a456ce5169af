use vibe_dither::arith::ceil_sqrt;
use vibe_dither::order::sorted;
use vibe_dither::spline::{
    correct_pair, curve_tangents, expand_curve_lut, interpolate_spline, quantize_ratio,
    secant_slope, ControlPoint,
};

fn pt(x: u16, y: u16) -> ControlPoint {
    ControlPoint { x, y }
}

/// 16-bit normalised form of a number between 0 and 1.
fn unorm(v: f64) -> u16 {
    (v * 65535.0).round() as u16
}

#[test]
fn identity_curve_maps_every_level_to_itself() {
    let lut = interpolate_spline(&[pt(0, 0), pt(65535, 65535)]);
    for i in 0..256 {
        assert_eq!(lut[i] as usize, i);
    }
}

#[test]
fn single_point_gives_constant_table() {
    let lut = interpolate_spline(&[pt(unorm(0.5), unorm(0.8))]);
    for i in 0..256 {
        assert_eq!(lut[i], 204);
    }
}

#[test]
fn no_points_gives_identity_table() {
    let lut = interpolate_spline(&[]);
    for i in 0..256 {
        assert_eq!(lut[i] as usize, i);
    }
}

#[test]
fn rising_points_give_rising_table() {
    let sets: [&[ControlPoint]; 4] = [
        &[pt(0, 0), pt(100, 60000), pt(200, 60001), pt(65535, 65535)],
        &[pt(0, 0), pt(30000, 100), pt(30100, 65000), pt(65535, 65535)],
        &[pt(5000, 1000), pt(20000, 1001), pt(20001, 50000), pt(60000, 50001)],
        &[pt(0, 0), pt(16384, 40000), pt(32768, 40000), pt(32768, 50000), pt(65535, 65535)],
    ];
    for points in sets {
        let lut = interpolate_spline(points);
        for i in 1..256 {
            assert!(lut[i - 1] <= lut[i]);
        }
    }
}

#[test]
fn table_passes_through_points_on_levels() {
    // x = 128 * 257 = 32896 is level 128; y = 200 * 257 = 51400 is entry 200
    let lut = interpolate_spline(&[pt(0, 0), pt(32896, 51400), pt(65535, 65535)]);
    assert_eq!(lut[0], 0);
    assert_eq!(lut[128], 200);
    assert_eq!(lut[255], 255);
}

#[test]
fn table_ramps_outside_the_points() {
    // first point at level 100 with entry 50, last point at level 200 with entry 150
    let lut = interpolate_spline(&[pt(25700, 12850), pt(51400, 38550)]);
    // left of the first point: the line from (0, 0), entry i * 50 / 100
    assert_eq!(lut[0], 0);
    assert_eq!(lut[50], 25);
    assert_eq!(lut[100], 50);
    // right of the last point: the line to (1, 1)
    // at level 227: 38550 + (58339 - 51400) * 26985 / 14135 = 51797.1.., and 51797 / 257 = 201
    assert_eq!(lut[200], 150);
    assert_eq!(lut[227], 201);
    assert_eq!(lut[255], 255);
}

#[test]
fn order_of_the_points_does_not_matter() {
    let a = interpolate_spline(&[pt(0, 0), pt(20000, 30000), pt(40000, 35000), pt(65535, 65535)]);
    let b = interpolate_spline(&[pt(40000, 35000), pt(65535, 65535), pt(0, 0), pt(20000, 30000)]);
    assert_eq!(a, b);
}

#[test]
fn curve_table_is_the_same_every_time() {
    let points = [pt(0, 3000), pt(12000, 9000), pt(33000, 60000), pt(65535, 61000)];
    assert_eq!(interpolate_spline(&points), interpolate_spline(&points));
}

#[test]
fn sorted_points_keep_the_order_of_equals() {
    let out = sorted(&[pt(9, 1), pt(3, 2), pt(9, 3), pt(3, 4), pt(0, 5)]);
    assert_eq!(out, vec![pt(0, 5), pt(3, 2), pt(3, 4), pt(9, 1), pt(9, 3)]);
}

#[test]
fn secant_slope_is_in_units_of_one_65536th() {
    assert_eq!(secant_slope(pt(0, 0), pt(65535, 65535)), 65536);
    assert_eq!(secant_slope(pt(0, 65535), pt(65535, 0)), -65536);
    // 65536 * 1 / 3 = 21845.33.., toward zero on both sides
    assert_eq!(secant_slope(pt(0, 0), pt(3, 1)), 21845);
    assert_eq!(secant_slope(pt(0, 1), pt(3, 0)), -21845);
    // no width, no slope
    assert_eq!(secant_slope(pt(7, 0), pt(7, 900)), 0);
}

#[test]
fn level_segment_gets_zero_tangents() {
    let m = curve_tangents(&vec![pt(0, 0), pt(100, 500), pt(200, 500), pt(300, 900)]);
    assert_eq!(m[1], 0);
    assert_eq!(m[2], 0);
}

#[test]
fn overshooting_tangents_are_scaled_back_onto_the_circle() {
    // slope 1, tangents 4 and 3: length 5, scaled by 3 / 5
    let one = 65536i64;
    let c = correct_pair(pt(0, 0), pt(1000, 1000), 4 * one, 3 * one);
    assert_eq!(c, (157286, 117964));
    // inside the circle nothing changes
    let d = correct_pair(pt(0, 0), pt(1000, 1000), 2 * one, 2 * one);
    assert_eq!(d, (2 * one, 2 * one));
    // a falling segment keeps the signs
    let e = correct_pair(pt(0, 1000), pt(1000, 0), -4 * one, -3 * one);
    assert_eq!(e, (-157286, -117964));
}

#[test]
fn ceil_sqrt_is_the_least_root() {
    assert_eq!(ceil_sqrt(0), 0);
    assert_eq!(ceil_sqrt(1), 1);
    assert_eq!(ceil_sqrt(2), 2);
    assert_eq!(ceil_sqrt(16), 4);
    assert_eq!(ceil_sqrt(17), 5);
    assert_eq!(ceil_sqrt(1 << 66), 1 << 33);
}

#[test]
fn quantize_ratio_clamps_and_rounds_down() {
    assert_eq!(quantize_ratio(-5, 1), 0);
    assert_eq!(quantize_ratio(256, 1), 0);
    assert_eq!(quantize_ratio(257, 1), 1);
    assert_eq!(quantize_ratio(65535, 1), 255);
    assert_eq!(quantize_ratio(70000, 1), 255);
    assert_eq!(quantize_ratio(52428 * 3, 3), 204);
}

#[test]
fn expand_curve_lut_repeats_grey_with_full_alpha() {
    let lut = interpolate_spline(&[pt(0, 0), pt(65535, 65535)]);
    let data = expand_curve_lut(&lut);
    for i in 0..256 {
        assert_eq!(&data[4 * i..4 * i + 4], &[i as u8, i as u8, i as u8, 255]);
    }
}
