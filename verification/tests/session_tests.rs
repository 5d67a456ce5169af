use vibe_dither::gradient::Rgb;
use vibe_dither::pipeline::ColorSettings;
use vibe_dither::session::EditSession;

#[test]
fn a_fresh_edit_changes_nothing() {
    let s = EditSession::new();
    assert_eq!(s.settings, ColorSettings::default());
    let curve = s.curves_data();
    let gradient = s.gradient_data();
    for i in 0..256 {
        assert_eq!(&curve[4 * i..4 * i + 4], &[i as u8, i as u8, i as u8, 255]);
        assert_eq!(&gradient[4 * i..4 * i + 4], &[i as u8, i as u8, i as u8, 255]);
    }
}

#[test]
fn tables_follow_every_edit() {
    let mut s = EditSession::new();
    s.curve.begin_drag(65535);
    s.curve.drag_to(65535, 0);
    assert_eq!(s.curves_data(), {
        let mut flat = [0u8; 1024];
        for i in 0..256 {
            flat[4 * i + 3] = 255;
        }
        flat
    });
    s.gradient.recolor(0, Rgb { r: 255, g: 255, b: 255 });
    assert_eq!(s.gradient_data(), [255u8; 1024]);
}

#[test]
fn reset_adjustments_starts_over() {
    let mut s = EditSession::new();
    s.settings.exposure = 2.0f32.to_bits();
    s.curve.add_point(30000, 100);
    s.gradient.add_stop();
    s.reset_adjustments();
    let fresh = EditSession::new();
    assert_eq!(s.settings, fresh.settings);
    assert_eq!(s.curve.points(), fresh.curve.points());
    assert_eq!(s.gradient.stops(), fresh.gradient.stops());
    assert_eq!(s.gradient.selected(), Some(0));
    assert_eq!(s.curves_data(), fresh.curves_data());
    assert_eq!(s.gradient_data(), fresh.gradient_data());
}
