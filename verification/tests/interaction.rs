use pastel::canvas::Canvas;
use pastel::color::Rgba;
use pastel::interact::{apply_click, Pending, Tool, ToolSettings};

fn white() -> Rgba {
    Rgba { r: 255, g: 255, b: 255, a: 255 }
}

fn black() -> Rgba {
    Rgba { r: 0, g: 0, b: 0, a: 255 }
}

fn settings() -> ToolSettings {
    ToolSettings { size: 1, alpha: 255, filled: false, sides: 6, shape: 0, antialias: false }
}

fn snapshot(cv: &Canvas) -> Vec<Rgba> {
    let mut out = Vec::new();
    for y in 0..cv.height() {
        for x in 0..cv.width() {
            out.push(cv.get_pixel(x, y));
        }
    }
    out
}

#[test]
fn pen_draws_on_every_click() {
    let mut cv = Canvas::new(10, 10, white());
    apply_click(&mut cv, Tool::Pen, settings(), 2, 3, black());
    apply_click(&mut cv, Tool::Pen, settings(), 4, 5, black());
    assert_eq!(cv.get_pixel(2, 3), black());
    assert_eq!(cv.get_pixel(4, 5), black());
}

#[test]
fn line_tool_needs_a_previous_point() {
    let mut cv = Canvas::new(10, 10, white());
    let blank = snapshot(&cv);
    apply_click(&mut cv, Tool::Line, settings(), 1, 1, black());
    assert_eq!(snapshot(&cv), blank);
    apply_click(&mut cv, Tool::Line, settings(), 8, 1, black());
    for x in 1..=8usize {
        assert_eq!(cv.get_pixel(x, 1), black(), "at {}", x);
    }
}

#[test]
fn first_line_click_takes_undo_snapshot() {
    let mut cv = Canvas::new(10, 10, white());
    let blank = snapshot(&cv);
    apply_click(&mut cv, Tool::Line, settings(), 1, 1, black());
    apply_click(&mut cv, Tool::Line, settings(), 8, 1, black());
    assert!(cv.undo());
    assert_eq!(snapshot(&cv), blank);
}

#[test]
fn circle_gesture_anchors_then_commits() {
    let mut cv = Canvas::new(40, 40, white());
    let blank = snapshot(&cv);
    let s = ToolSettings { filled: true, ..settings() };
    apply_click(&mut cv, Tool::Circle, s, 20, 20, black());
    assert!(matches!(cv.gesture.pending, Some(Pending::Circle { ax: 20, ay: 20 })));
    assert_eq!(snapshot(&cv), blank);
    apply_click(&mut cv, Tool::Circle, s, 25, 20, black());
    assert!(cv.gesture.pending.is_none());
    // radius 5 disk around the anchor
    assert_eq!(cv.get_pixel(20, 20), black());
    assert_eq!(cv.get_pixel(25, 20), black());
    assert_eq!(cv.get_pixel(26, 20), white());
    // undo returns to the blank canvas
    assert!(cv.undo());
    assert_eq!(snapshot(&cv), blank);
}

#[test]
fn cancel_discards_pending_anchor() {
    let mut cv = Canvas::new(20, 20, white());
    let blank = snapshot(&cv);
    apply_click(&mut cv, Tool::Circle, settings(), 5, 5, black());
    assert!(cv.gesture.pending.is_some());
    cv.gesture.cancel();
    assert!(cv.gesture.pending.is_none());
    assert!(cv.gesture.prev.is_none());
    assert_eq!(snapshot(&cv), blank);
}

#[test]
fn marquee_two_clicks_select_a_rectangle() {
    let mut cv = Canvas::new(30, 30, white());
    apply_click(&mut cv, Tool::Marquee, settings(), 4, 6, black());
    apply_click(&mut cv, Tool::Marquee, settings(), 14, 11, black());
    let s = cv.selection.expect("selection set");
    assert_eq!((s.x, s.y, s.w, s.h), (4, 6, 10, 5));
}

#[test]
fn marquee_clamps_to_canvas() {
    let mut cv = Canvas::new(10, 10, white());
    apply_click(&mut cv, Tool::Marquee, settings(), -5, -5, black());
    apply_click(&mut cv, Tool::Marquee, settings(), 99, 4, black());
    let s = cv.selection.expect("selection set");
    assert_eq!((s.x, s.y, s.w, s.h), (0, 0, 10, 4));
}

#[test]
fn rectangle_tool_draws_nested_outline() {
    let mut cv = Canvas::new(20, 20, white());
    apply_click(&mut cv, Tool::Rectangle, settings(), 3, 3, black());
    apply_click(&mut cv, Tool::Rectangle, settings(), 10, 9, black());
    // a one-outline rectangle spanning (3,3) to exclusive (10,9)
    assert_eq!(cv.get_pixel(3, 3), black());
    assert_eq!(cv.get_pixel(9, 3), black());
    assert_eq!(cv.get_pixel(3, 8), black());
    assert_eq!(cv.get_pixel(5, 5), white());
}

#[test]
fn paste_gesture_commits_on_second_click() {
    let mut cv = Canvas::new(20, 20, white());
    cv.pixel(0, 0, black());
    assert!(cv.set_selection(0, 0, 1, 1));
    cv.copy();
    apply_click(&mut cv, Tool::Paste, settings(), 5, 5, black());
    assert!(matches!(cv.gesture.pending, Some(Pending::Paste)));
    assert_eq!(cv.get_pixel(9, 9), white());
    apply_click(&mut cv, Tool::Paste, settings(), 9, 9, black());
    assert_eq!(cv.get_pixel(9, 9), black());
}

#[test]
fn copy_tool_with_selection_fills_copy_buffer() {
    let mut cv = Canvas::new(10, 10, white());
    cv.pixel(2, 2, black());
    assert!(cv.set_selection(2, 2, 3, 3));
    apply_click(&mut cv, Tool::Copy, settings(), 0, 0, black());
    assert_eq!(cv.copy_buffer.width, 3);
    assert_eq!(cv.copy_buffer.height, 3);
}

#[test]
fn fill_tool_fills_region() {
    let mut cv = Canvas::new(10, 10, white());
    cv.rect(1, 1, 5, 5, black());
    apply_click(&mut cv, Tool::Fill, settings(), 3, 3, Rgba { r: 9, g: 9, b: 9, a: 255 });
    assert_eq!(cv.get_pixel(3, 3), Rgba { r: 9, g: 9, b: 9, a: 255 });
    assert_eq!(cv.get_pixel(0, 0), white());
}

#[test]
fn brush_tool_sweeps_between_samples() {
    let mut cv = Canvas::new(30, 30, white());
    let s = ToolSettings { size: 2, ..settings() };
    apply_click(&mut cv, Tool::Brush, s, 5, 5, black());
    apply_click(&mut cv, Tool::Brush, s, 15, 5, black());
    for x in 5..=15usize {
        assert_eq!(cv.get_pixel(x, 5), black(), "at {}", x);
    }
}
