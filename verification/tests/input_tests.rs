use rustbrush::input::{MouseButton, Pointer, Stroke};
use rustbrush::{Brush, BrushError, Canvas};

#[test]
fn a_new_pointer_holds_nothing() {
    let mut pointer = Pointer::default();
    assert_eq!(pointer.cursor_position, (0, 0));
    assert_eq!(pointer.last_cursor_position, (0, 0));
    assert!(!pointer.holding_mouse_left);
    assert!(!pointer.holding_mouse_right);
    assert_eq!(pointer.redraw(), Stroke::Idle);
}

#[test]
fn left_button_paints_from_the_last_redraw_to_the_cursor() {
    let mut pointer = Pointer::default();
    pointer.cursor_moved((3, 4));
    pointer.mouse_input(MouseButton::Left, true);
    assert_eq!(pointer.redraw(), Stroke::Paint { cursor: (3, 4), last_cursor: (0, 0) });
    assert_eq!(pointer.last_cursor_position, (3, 4));
    pointer.cursor_moved((10, -2));
    pointer.cursor_moved((12, -3));
    assert_eq!(pointer.redraw(), Stroke::Paint { cursor: (12, -3), last_cursor: (3, 4) });
    assert_eq!(pointer.redraw(), Stroke::Paint { cursor: (12, -3), last_cursor: (12, -3) });
    pointer.mouse_input(MouseButton::Left, false);
    assert_eq!(pointer.redraw(), Stroke::Idle);
}

#[test]
fn right_button_erases_unless_the_left_is_held_too() {
    let mut pointer = Pointer::default();
    pointer.mouse_input(MouseButton::Right, true);
    pointer.cursor_moved((5, 5));
    assert_eq!(pointer.redraw(), Stroke::Erase { cursor: (5, 5), last_cursor: (0, 0) });
    pointer.mouse_input(MouseButton::Left, true);
    assert_eq!(pointer.redraw(), Stroke::Paint { cursor: (5, 5), last_cursor: (5, 5) });
    pointer.mouse_input(MouseButton::Left, false);
    assert_eq!(pointer.redraw(), Stroke::Erase { cursor: (5, 5), last_cursor: (5, 5) });
    pointer.mouse_input(MouseButton::Right, false);
    assert_eq!(pointer.redraw(), Stroke::Idle);
}

#[test]
fn other_buttons_change_nothing() {
    let mut pointer = Pointer::default();
    pointer.cursor_moved((1, 2));
    let before = pointer;
    pointer.mouse_input(MouseButton::Other, true);
    assert_eq!(pointer, before);
    pointer.mouse_input(MouseButton::Other, false);
    assert_eq!(pointer, before);
}

#[test]
fn canvas_applies_what_the_pointer_asks() {
    let mut applied = Canvas::new(12, 12);
    let mut direct = Canvas::new(12, 12);
    applied.dirty = false;
    applied.apply(Stroke::Idle);
    assert!(!applied.dirty);
    assert_eq!(applied.layers[0], vec![0u8; 12 * 12 * 4]);
    applied.apply(Stroke::Paint { cursor: (6, 6), last_cursor: (2, 3) });
    direct.paint((6, 6), (2, 3));
    assert!(applied.dirty);
    assert_eq!(applied.layers, direct.layers);
    assert_ne!(applied.layers[0], vec![0u8; 12 * 12 * 4]);
    applied.apply(Stroke::Erase { cursor: (2, 3), last_cursor: (6, 6) });
    direct.erase((2, 3), (6, 6));
    assert_eq!(applied.layers, direct.layers);
}

#[test]
fn checked_hands_back_a_brush_that_can_draw() {
    let brush = Brush::default().with_radius(300).checked();
    assert!(matches!(&brush, Ok(b) if b.radius() == 300 && b.spacing() == 26));
    assert!(matches!(
        Brush::default().with_radius(0).checked(),
        Err(BrushError::InvalidRadius)
    ));
    assert!(matches!(
        Brush::default().with_spacing(0).checked(),
        Err(BrushError::InvalidSpacing)
    ));
}
