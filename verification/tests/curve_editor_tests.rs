use vibe_dither::curve_editor::CurveEditor;
use vibe_dither::spline::{interpolate_spline, ControlPoint};

fn pt(x: u16, y: u16) -> ControlPoint {
    ControlPoint { x, y }
}

#[test]
fn a_new_curve_is_the_straight_line() {
    let e = CurveEditor::new();
    assert_eq!(e.points(), &vec![pt(0, 0), pt(65535, 65535)]);
    assert_eq!(e.dragging(), None);
}

#[test]
fn a_click_adds_a_point_in_order() {
    let mut e = CurveEditor::new();
    assert!(e.add_point(40000, 100));
    assert!(e.add_point(20000, 200));
    assert_eq!(e.points(), &vec![pt(0, 0), pt(20000, 200), pt(40000, 100), pt(65535, 65535)]);
}

#[test]
fn a_click_next_to_a_point_adds_nothing() {
    let mut e = CurveEditor::new();
    assert!(e.add_point(30000, 5));
    // closer than 0.02: 1310 * 50 = 65500 < 65535
    assert!(!e.add_point(31310, 9));
    assert!(!e.add_point(28690, 9));
    // next to an end point
    assert!(!e.add_point(1310, 9));
    assert!(!e.add_point(65535 - 1310, 9));
    // 1311 * 50 = 65550 is no longer closer than 0.02
    assert!(e.add_point(31311, 9));
    assert_eq!(e.points().len(), 4);
}

#[test]
fn the_pointer_grabs_the_nearest_point_in_reach() {
    let mut e = CurveEditor::new();
    e.add_point(30000, 1);
    e.add_point(34000, 2);
    e.begin_drag(31000);
    assert_eq!(e.dragging(), Some(1));
    e.begin_drag(33000);
    assert_eq!(e.dragging(), Some(2));
    // equally near: the first one
    e.begin_drag(32000);
    assert_eq!(e.dragging(), Some(1));
    // reach is 0.05: 3276 * 20 = 65520 < 65535 <= 3277 * 20
    e.begin_drag(30000 - 3276);
    assert_eq!(e.dragging(), Some(1));
    e.begin_drag(30000 - 3277);
    assert_eq!(e.dragging(), None);
    e.begin_drag(30000);
    e.end_drag();
    assert_eq!(e.dragging(), None);
}

#[test]
fn end_points_move_up_and_down_only() {
    let mut e = CurveEditor::new();
    e.begin_drag(0);
    assert!(e.drag_to(9000, 1234));
    assert_eq!(e.points()[0], pt(0, 1234));
    e.begin_drag(65535);
    assert!(e.drag_to(9000, 4321));
    assert_eq!(e.points()[1], pt(65535, 4321));
}

#[test]
fn inner_points_stay_between_their_neighbours() {
    let mut e = CurveEditor::new();
    e.add_point(20000, 1);
    e.add_point(40000, 2);
    e.begin_drag(20000);
    assert!(e.drag_to(50000, 7));
    assert_eq!(e.points()[1], pt(40000 - 66, 7));
    assert!(e.drag_to(0, 8));
    assert_eq!(e.points()[1], pt(66, 8));
    assert!(e.drag_to(12345, 9));
    assert_eq!(e.points()[1], pt(12345, 9));
}

#[test]
fn without_a_point_held_a_drag_changes_nothing() {
    let mut e = CurveEditor::new();
    assert!(!e.drag_to(100, 100));
    assert_eq!(e.points(), &vec![pt(0, 0), pt(65535, 65535)]);
}

#[test]
fn a_secondary_click_removes_the_first_inner_point_in_reach() {
    let mut e = CurveEditor::new();
    e.add_point(30000, 1);
    e.add_point(32000, 2);
    // reach is 0.03: 1966 * 100 = 196600 < 196605 <= 1967 * 100
    assert!(!e.remove_near(30000 - 1967));
    assert!(e.remove_near(31500));
    assert_eq!(e.points(), &vec![pt(0, 0), pt(32000, 2), pt(65535, 65535)]);
    assert!(e.remove_near(32000 + 1966));
    assert_eq!(e.points(), &vec![pt(0, 0), pt(65535, 65535)]);
}

#[test]
fn end_points_are_never_removed() {
    let mut e = CurveEditor::new();
    assert!(!e.remove_near(0));
    assert!(!e.remove_near(65535));
    e.add_point(1500, 3);
    assert!(e.remove_near(0));
    assert_eq!(e.points(), &vec![pt(0, 0), pt(65535, 65535)]);
}

#[test]
fn removing_a_point_lets_go_of_the_held_one() {
    let mut e = CurveEditor::new();
    e.add_point(30000, 1);
    e.begin_drag(65535);
    assert_eq!(e.dragging(), Some(2));
    assert!(e.remove_near(30000));
    assert_eq!(e.dragging(), None);
}

#[test]
fn reset_brings_the_straight_line_back() {
    let mut e = CurveEditor::new();
    e.add_point(30000, 1);
    e.begin_drag(30000);
    e.reset();
    assert_eq!(e.points(), &vec![pt(0, 0), pt(65535, 65535)]);
    assert_eq!(e.dragging(), None);
}

#[test]
fn edited_points_are_fit_for_the_evaluator() {
    let mut e = CurveEditor::new();
    e.add_point(10000, 30000);
    e.add_point(50000, 40000);
    e.begin_drag(50000);
    e.drag_to(0, 40000);
    let p = e.points();
    for w in p.windows(2) {
        assert!(w[0].x + 66 <= w[1].x);
    }
    let lut = interpolate_spline(p);
    for i in 1..256 {
        assert!(lut[i - 1] <= lut[i]);
    }
}
