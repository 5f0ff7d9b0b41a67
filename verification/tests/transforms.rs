use pastel::canvas::Canvas;
use pastel::color::Rgba;
use pastel::transform::TransformOp;

fn white() -> Rgba {
    Rgba { r: 255, g: 255, b: 255, a: 255 }
}

fn px(r: u8, g: u8, b: u8) -> Rgba {
    Rgba { r, g, b, a: 255 }
}

fn snapshot(cv: &Canvas) -> Vec<Rgba> {
    let mut out = Vec::new();
    for y in 0..cv.height() {
        for x in 0..cv.width() {
            out.push(cv.get_pixel(x, y));
        }
    }
    out
}

#[test]
fn invert_complements_channels() {
    let mut cv = Canvas::new(3, 3, px(10, 200, 255));
    cv.transformation(&TransformOp::Invert);
    assert_eq!(cv.get_pixel(1, 1), px(245, 55, 0));
}

#[test]
fn grayscale_uses_luminance_weights() {
    let mut cv = Canvas::new(2, 2, px(100, 50, 200));
    // (100*299 + 50*587 + 200*114) / 1000 = (29900 + 29350 + 22800) / 1000 = 82
    cv.transformation(&TransformOp::Grayscale);
    assert_eq!(cv.get_pixel(0, 0), px(82, 82, 82));
}

#[test]
fn brighten_and_darken_saturate() {
    let mut cv = Canvas::new(2, 2, px(250, 100, 3));
    cv.transformation(&TransformOp::Brighten { v: 10 });
    assert_eq!(cv.get_pixel(0, 0), px(255, 110, 13));
    cv.transformation(&TransformOp::Darken { v: 20 });
    assert_eq!(cv.get_pixel(0, 0), px(235, 90, 0));
}

#[test]
fn flip_horizontal_mirrors_rows() {
    let mut cv = Canvas::new(3, 2, white());
    cv.pixel(0, 0, px(1, 2, 3));
    cv.transformation(&TransformOp::FlipHorizontal);
    assert_eq!(cv.get_pixel(2, 0), px(1, 2, 3));
    assert_eq!(cv.get_pixel(0, 0), white());
}

#[test]
fn flip_vertical_mirrors_columns() {
    let mut cv = Canvas::new(2, 3, white());
    cv.pixel(0, 0, px(1, 2, 3));
    cv.transformation(&TransformOp::FlipVertical);
    assert_eq!(cv.get_pixel(0, 2), px(1, 2, 3));
    assert_eq!(cv.get_pixel(0, 0), white());
}

#[test]
fn blur_averages_neighbors() {
    let mut cv = Canvas::new(3, 3, white());
    cv.pixel(1, 1, px(0, 0, 0));
    cv.transformation(&TransformOp::Blur);
    // center: 8 white + 1 black over 9 = 2040/9 = 226
    assert_eq!(cv.get_pixel(1, 1), px(226, 226, 226));
    // corner (0,0): neighborhood inside canvas is 4 cells, one black:
    // 3*255/4 = 191
    assert_eq!(cv.get_pixel(0, 0), px(191, 191, 191));
}

#[test]
fn unsharpen_pushes_away_from_blur() {
    // uniform area stays unchanged: 2*c - blur(c) = c
    let mut cv = Canvas::new(4, 4, px(100, 100, 100));
    cv.transformation(&TransformOp::Unsharpen);
    assert_eq!(cv.get_pixel(2, 2), px(100, 100, 100));
}

#[test]
fn trans_selection_touches_only_the_rectangle() {
    let mut cv = Canvas::new(6, 6, px(10, 10, 10));
    assert!(cv.trans_selection(1, 1, 2, 2, &TransformOp::Invert));
    for y in 0..6usize {
        for x in 0..6usize {
            let inside = (1..3).contains(&x) && (1..3).contains(&y);
            let expect = if inside { px(245, 245, 245) } else { px(10, 10, 10) };
            assert_eq!(cv.get_pixel(x, y), expect, "at {} {}", x, y);
        }
    }
}

#[test]
fn trans_selection_rejects_bad_rectangles() {
    let mut cv = Canvas::new(6, 6, white());
    let before = snapshot(&cv);
    assert!(!cv.trans_selection(4, 4, 5, 5, &TransformOp::Invert));
    assert!(!cv.trans_selection(0, 0, 0, 3, &TransformOp::Invert));
    assert_eq!(snapshot(&cv), before);
}

#[test]
fn rotate90_swaps_selection_dimensions() {
    let mut cv = Canvas::new(100, 100, white());
    assert!(cv.set_selection(10, 20, 30, 40));
    cv.rotate90();
    let s = cv.selection.expect("selection kept");
    assert_eq!((s.x, s.y, s.w, s.h), (10, 20, 40, 30));
}

#[test]
fn rotate90_moves_pixels_quarter_turn() {
    let mut cv = Canvas::new(4, 4, white());
    cv.pixel(0, 0, px(9, 9, 9));
    cv.rotate90();
    // a quarter turn clockwise sends the top-left corner to the top-right
    assert_eq!(cv.get_pixel(3, 0), px(9, 9, 9));
    assert_eq!(cv.get_pixel(0, 0), white());
}

#[test]
fn resize_reallocates_buffer_and_mask() {
    let mut cv = Canvas::new(40, 30, px(5, 6, 7));
    assert!(cv.resize(20, 60));
    assert_eq!(cv.width(), 20);
    assert_eq!(cv.height(), 60);
    assert_eq!(cv.mask.width, 20);
    assert_eq!(cv.mask.height, 60);
    assert_eq!(cv.get_pixel(10, 30), px(5, 6, 7));
}

#[test]
fn resize_rejects_zero_dimensions() {
    let mut cv = Canvas::new(8, 8, white());
    assert!(!cv.resize(0, 10));
    assert!(!cv.resize(10, 0));
    assert_eq!(cv.width(), 8);
    assert_eq!(cv.height(), 8);
}

#[test]
fn resize_then_undo_restores_old_dimensions() {
    let mut cv = Canvas::new(8, 6, px(1, 2, 3));
    cv.undo_save();
    assert!(cv.resize(3, 3));
    assert_eq!(cv.width(), 3);
    assert!(cv.undo());
    assert_eq!(cv.width(), 8);
    assert_eq!(cv.height(), 6);
    assert_eq!(cv.mask.width, 8);
    assert_eq!(cv.mask.height, 6);
    assert_eq!(cv.get_pixel(4, 3), px(1, 2, 3));
}
