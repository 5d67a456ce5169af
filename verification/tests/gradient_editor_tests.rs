use vibe_dither::gradient::{GradientStop, Rgb};
use vibe_dither::gradient_editor::GradientEditor;
use vibe_dither::order::sorted;

const BLACK: Rgb = Rgb { r: 0, g: 0, b: 0 };
const WHITE: Rgb = Rgb { r: 255, g: 255, b: 255 };
const GREY: Rgb = Rgb { r: 160, g: 160, b: 160 };

fn stop(id: u64, pos: u16, color: Rgb) -> GradientStop {
    GradientStop { id, pos, color }
}

#[test]
fn a_new_gradient_runs_from_black_to_white() {
    let e = GradientEditor::new();
    assert_eq!(e.stops(), &vec![stop(0, 0, BLACK), stop(1, 65535, WHITE)]);
    assert_eq!(e.selected(), Some(0));
}

#[test]
fn a_new_stop_is_grey_in_the_middle_and_selected() {
    let mut e = GradientEditor::new();
    assert_eq!(e.add_stop(), Some(2));
    assert_eq!(e.stops(), &vec![stop(0, 0, BLACK), stop(2, 32768, GREY), stop(1, 65535, WHITE)]);
    assert_eq!(e.selected(), Some(2));
    // names are never given twice
    assert_eq!(e.add_stop(), Some(3));
    assert!(e.remove_selected());
    assert_eq!(e.add_stop(), Some(4));
}

#[test]
fn a_moved_stop_finds_its_place() {
    let mut e = GradientEditor::new();
    e.add_stop();
    assert!(e.move_stop(0, 40000));
    assert_eq!(e.stops(), &vec![stop(2, 32768, GREY), stop(0, 40000, BLACK), stop(1, 65535, WHITE)]);
    assert_eq!(e.selected(), Some(0));
    // onto the position of another stop: it keeps its place in front of it
    assert!(e.move_stop(2, 40000));
    assert_eq!(e.stops(), &vec![stop(2, 40000, GREY), stop(0, 40000, BLACK), stop(1, 65535, WHITE)]);
    assert!(e.move_stop(1, 40000));
    assert_eq!(e.stops(), &vec![stop(2, 40000, GREY), stop(0, 40000, BLACK), stop(1, 40000, WHITE)]);
}

#[test]
fn an_unknown_stop_changes_nothing() {
    let mut e = GradientEditor::new();
    assert!(!e.move_stop(9, 100));
    assert!(!e.recolor(9, GREY));
    assert!(!e.select(9));
    assert_eq!(e.stops(), &vec![stop(0, 0, BLACK), stop(1, 65535, WHITE)]);
    assert_eq!(e.selected(), Some(0));
}

#[test]
fn a_stop_is_recoloured_in_place() {
    let mut e = GradientEditor::new();
    let red = Rgb { r: 255, g: 0, b: 0 };
    assert!(e.recolor(1, red));
    assert_eq!(e.stops(), &vec![stop(0, 0, BLACK), stop(1, 65535, red)]);
    assert_eq!(e.selected(), Some(0));
}

#[test]
fn two_stops_always_stay() {
    let mut e = GradientEditor::new();
    assert!(!e.remove_selected());
    assert_eq!(e.stops().len(), 2);
    e.add_stop();
    assert!(e.select(1));
    assert!(e.remove_selected());
    assert_eq!(e.stops(), &vec![stop(0, 0, BLACK), stop(2, 32768, GREY)]);
    // the first of those that stay is selected
    assert_eq!(e.selected(), Some(0));
    assert!(!e.remove_selected());
}

#[test]
fn reset_brings_black_to_white_back() {
    let mut e = GradientEditor::new();
    e.add_stop();
    e.move_stop(1, 5);
    e.reset();
    assert_eq!(e.stops(), &vec![stop(0, 0, BLACK), stop(1, 65535, WHITE)]);
    assert_eq!(e.selected(), Some(0));
    assert_eq!(e.add_stop(), Some(2));
}

#[test]
fn sorted_stops_keep_the_order_of_equals() {
    let out = sorted(&[
        stop(0, 9, BLACK),
        stop(1, 3, WHITE),
        stop(2, 9, GREY),
        stop(3, 3, BLACK),
        stop(4, 0, WHITE),
    ]);
    let ids: Vec<u64> = out.iter().map(|s| s.id).collect();
    assert_eq!(ids, vec![4, 1, 3, 0, 2]);
}
