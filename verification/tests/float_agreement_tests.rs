//! The tables against the same curves worked out in single precision: the
//! two may differ by the rounding of one level, and no more.

use vibe_dither::gradient::{generate_gradient_data, GradientStop, Rgb};
use vibe_dither::spline::{interpolate_spline, ControlPoint};

fn unorm(v: f32) -> u16 {
    (v * 65535.0).round() as u16
}

/// The monotone cubic through `pts` (ordered, no two at one x) in single
/// precision, sampled at 256 levels.
fn curve_in_floats(pts: &[(f32, f32)]) -> Vec<f32> {
    let n = pts.len();
    let slope: Vec<f32> = (0..n - 1).map(|i| (pts[i + 1].1 - pts[i].1) / (pts[i + 1].0 - pts[i].0)).collect();
    let mut m = vec![0.0f32; n];
    m[0] = slope[0];
    m[n - 1] = slope[n - 2];
    for i in 1..n - 1 {
        m[i] = (slope[i - 1] + slope[i]) / 2.0;
    }
    for i in 0..n - 1 {
        if slope[i] == 0.0 {
            m[i] = 0.0;
            m[i + 1] = 0.0;
        } else {
            let a = m[i] / slope[i];
            let b = m[i + 1] / slope[i];
            let len = (a * a + b * b).sqrt();
            if len > 3.0 {
                m[i] = 3.0 / len * a * slope[i];
                m[i + 1] = 3.0 / len * b * slope[i];
            }
        }
    }
    (0..256)
        .map(|level| {
            let x = level as f32 / 255.0;
            let (x0, y0) = pts[0];
            let (xn, yn) = pts[n - 1];
            let y = if x <= x0 {
                if x0 > 0.0 { x / x0 * y0 } else { y0 }
            } else if x >= xn {
                if xn < 1.0 { yn + (x - xn) / (1.0 - xn) * (1.0 - yn) } else { yn }
            } else {
                let mut i = 0;
                while i < n - 2 && x > pts[i + 1].0 {
                    i += 1;
                }
                let h = pts[i + 1].0 - pts[i].0;
                let t = (x - pts[i].0) / h;
                let (t2, t3) = (t * t, t * t * t);
                (2.0 * t3 - 3.0 * t2 + 1.0) * pts[i].1
                    + (t3 - 2.0 * t2 + t) * h * m[i]
                    + (-2.0 * t3 + 3.0 * t2) * pts[i + 1].1
                    + (t3 - t2) * h * m[i + 1]
            };
            y.clamp(0.0, 1.0) * 255.0
        })
        .collect()
}

fn assert_curve_agrees(pts: &[(f32, f32)]) {
    let points: Vec<ControlPoint> =
        pts.iter().map(|&(x, y)| ControlPoint { x: unorm(x), y: unorm(y) }).collect();
    // the same points as the library sees them, so that both work on one input
    let seen: Vec<(f32, f32)> =
        points.iter().map(|p| (p.x as f32 / 65535.0, p.y as f32 / 65535.0)).collect();
    let lut = interpolate_spline(&points);
    let floats = curve_in_floats(&seen);
    for i in 0..256 {
        let diff = (lut[i] as f32 - floats[i].floor()).abs();
        assert!(diff <= 1.0, "level {}: {} against {}", i, lut[i], floats[i]);
        assert!((lut[i] as f32 - floats[i]).abs() < 1.01, "level {}: {} against {}", i, lut[i], floats[i]);
    }
}

#[test]
fn smooth_curves_agree_with_single_precision() {
    assert_curve_agrees(&[(0.0, 0.0), (1.0, 1.0)]);
    assert_curve_agrees(&[(0.0, 0.0), (0.25, 0.4), (0.75, 0.6), (1.0, 1.0)]);
    assert_curve_agrees(&[(0.0, 0.1), (0.5, 0.5), (1.0, 0.9)]);
    assert_curve_agrees(&[(0.0, 1.0), (1.0, 0.0)]);
    assert_curve_agrees(&[(0.1, 0.2), (0.4, 0.3), (0.6, 0.8), (0.9, 0.85)]);
}

#[test]
fn steep_curves_agree_with_single_precision() {
    // tangents that overshoot and are scaled back
    assert_curve_agrees(&[(0.0, 0.0), (0.45, 0.05), (0.55, 0.95), (1.0, 1.0)]);
    assert_curve_agrees(&[(0.0, 0.0), (0.3, 0.02), (0.32, 0.9), (1.0, 1.0)]);
    assert_curve_agrees(&[(0.0, 0.0), (0.1, 0.8), (0.9, 0.82), (1.0, 1.0)]);
}

#[test]
fn curves_with_turns_agree_with_single_precision() {
    assert_curve_agrees(&[(0.0, 0.0), (0.3, 0.7), (0.6, 0.2), (1.0, 1.0)]);
    assert_curve_agrees(&[(0.0, 0.5), (0.2, 0.5), (0.5, 0.1), (0.8, 0.9), (1.0, 0.3)]);
    assert_curve_agrees(&[(0.0, 1.0), (0.5, 0.0), (1.0, 1.0)]);
}

/// The ramp through `stops` (ordered) in single precision.
fn gradient_in_floats(stops: &[(f32, [f32; 3])]) -> Vec<[f32; 3]> {
    (0..256)
        .map(|level| {
            let t = level as f32 / 255.0;
            let mut lower = stops[0];
            let mut upper = stops[stops.len() - 1];
            for s in stops {
                if s.0 <= t && s.0 >= lower.0 {
                    lower = *s;
                }
                if s.0 >= t && s.0 <= upper.0 {
                    upper = *s;
                }
            }
            if (upper.0 - lower.0).abs() < 0.0001 {
                lower.1
            } else {
                let f = (t - lower.0) / (upper.0 - lower.0);
                [
                    lower.1[0] * (1.0 - f) + upper.1[0] * f,
                    lower.1[1] * (1.0 - f) + upper.1[1] * f,
                    lower.1[2] * (1.0 - f) + upper.1[2] * f,
                ]
            }
        })
        .collect()
}

fn assert_gradient_agrees(stops: &[(f32, [u8; 3])]) {
    let lib: Vec<GradientStop> = stops
        .iter()
        .enumerate()
        .map(|(i, &(pos, c))| GradientStop {
            id: i as u64,
            pos: unorm(pos),
            color: Rgb { r: c[0], g: c[1], b: c[2] },
        })
        .collect();
    let seen: Vec<(f32, [f32; 3])> = lib
        .iter()
        .map(|s| (s.pos as f32 / 65535.0, [s.color.r as f32, s.color.g as f32, s.color.b as f32]))
        .collect();
    let mut data = [0u8; 1024];
    generate_gradient_data(&lib, &mut data);
    let floats = gradient_in_floats(&seen);
    for i in 0..256 {
        for c in 0..3 {
            let diff = (data[4 * i + c] as f32 - floats[i][c]).abs();
            assert!(diff < 1.01, "level {} channel {}: {} against {}", i, c, data[4 * i + c], floats[i][c]);
        }
        assert_eq!(data[4 * i + 3], 255);
    }
}

#[test]
fn ramps_agree_with_single_precision() {
    assert_gradient_agrees(&[(0.0, [0, 0, 0]), (1.0, [255, 255, 255])]);
    assert_gradient_agrees(&[(0.0, [255, 0, 10]), (0.5, [160, 160, 160]), (1.0, [3, 250, 90])]);
    assert_gradient_agrees(&[(0.2, [9, 99, 199]), (0.21, [250, 0, 0]), (0.7, [0, 0, 0]), (0.9, [1, 2, 3])]);
    assert_gradient_agrees(&[(0.3, [10, 20, 30]), (0.3, [200, 100, 0]), (0.8, [50, 60, 70])]);
}
