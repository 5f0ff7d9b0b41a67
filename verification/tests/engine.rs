use pastel::canvas::Canvas;
use pastel::color::Rgba;

fn white() -> Rgba {
    Rgba { r: 255, g: 255, b: 255, a: 255 }
}

fn black() -> Rgba {
    Rgba { r: 0, g: 0, b: 0, a: 255 }
}

fn red() -> Rgba {
    Rgba { r: 255, g: 0, b: 0, a: 255 }
}

fn snapshot(cv: &Canvas) -> Vec<Rgba> {
    let mut out = Vec::new();
    for y in 0..cv.height() {
        for x in 0..cv.width() {
            out.push(cv.get_pixel(x, y));
        }
    }
    out
}

#[test]
fn blank_canvas_is_uniform() {
    let cv = Canvas::new(8, 5, red());
    assert_eq!(cv.width(), 8);
    assert_eq!(cv.height(), 5);
    for y in 0..5 {
        for x in 0..8 {
            assert_eq!(cv.get_pixel(x, y), red());
        }
    }
}

#[test]
fn pixel_blends_opaque_overwrite() {
    let mut cv = Canvas::new(4, 4, white());
    cv.pixel(1, 2, black());
    assert_eq!(cv.get_pixel(1, 2), black());
    assert_eq!(cv.get_pixel(2, 1), white());
}

#[test]
fn pixel_out_of_bounds_is_clipped() {
    let mut cv = Canvas::new(4, 4, white());
    let before = snapshot(&cv);
    cv.pixel(-1, 0, black());
    cv.pixel(0, -1, black());
    cv.pixel(4, 0, black());
    cv.pixel(0, 4, black());
    assert_eq!(snapshot(&cv), before);
}

#[test]
fn pixel_half_opacity_mixes_channels() {
    // alpha 128 over white with a black source: each channel becomes
    // (0 * 128 + 255 * 127) / 255 = 127.
    let mut cv = Canvas::new(2, 2, white());
    cv.pixel(0, 0, Rgba { r: 0, g: 0, b: 0, a: 128 });
    let c = cv.get_pixel(0, 0);
    assert_eq!((c.r, c.g, c.b, c.a), (127, 127, 127, 255));
}

#[test]
fn line_endpoint_invariance() {
    let mut a = Canvas::new(20, 20, white());
    let mut b = Canvas::new(20, 20, white());
    a.line(2, 3, 17, 11, black());
    b.line(17, 11, 2, 3, black());
    assert_eq!(snapshot(&a), snapshot(&b));
}

#[test]
fn line_endpoints_are_painted() {
    let mut cv = Canvas::new(20, 20, white());
    cv.line(2, 3, 17, 11, black());
    assert_eq!(cv.get_pixel(2, 3), black());
    assert_eq!(cv.get_pixel(17, 11), black());
}

#[test]
fn horizontal_line_is_exact() {
    let mut cv = Canvas::new(10, 5, white());
    cv.line(1, 2, 7, 2, black());
    for x in 0..10usize {
        for y in 0..5usize {
            let expect = y == 2 && (1..=7).contains(&x);
            assert_eq!(cv.get_pixel(x, y) == black(), expect, "at {} {}", x, y);
        }
    }
}

#[test]
fn wu_line_endpoints_match_plain_line() {
    let mut aa = Canvas::new(20, 20, white());
    aa.wu_line(2, 3, 15, 9, black());
    assert_eq!(aa.get_pixel(2, 3), black());
    assert_eq!(aa.get_pixel(15, 9), black());
}

#[test]
fn filled_circle_covers_disk() {
    let mut cv = Canvas::new(100, 100, white());
    cv.circle(50, 50, 20, true, black());
    assert_eq!(cv.get_pixel(50, 50), black());
    assert_eq!(cv.get_pixel(70, 50), black());
    assert_eq!(cv.get_pixel(71, 50), white());
    assert_eq!(cv.get_pixel(64, 64), black()); // 14*14+14*14 = 392 <= 400
    assert_eq!(cv.get_pixel(65, 65), white());
}

#[test]
fn circle_outline_leaves_interior() {
    let mut cv = Canvas::new(100, 100, white());
    cv.circle(50, 50, 20, false, black());
    assert_eq!(cv.get_pixel(70, 50), black());
    assert_eq!(cv.get_pixel(30, 50), black());
    assert_eq!(cv.get_pixel(50, 70), black());
    assert_eq!(cv.get_pixel(50, 30), black());
    assert_eq!(cv.get_pixel(50, 50), white());
}

#[test]
fn rect_outline_is_exact() {
    let mut cv = Canvas::new(10, 10, white());
    cv.rect(2, 3, 4, 3, black());
    for x in 0..10usize {
        for y in 0..10usize {
            let inside = (2..6).contains(&x) && (3..6).contains(&y);
            let border = inside && (x == 2 || x == 5 || y == 3 || y == 5);
            assert_eq!(cv.get_pixel(x, y) == black(), border, "at {} {}", x, y);
        }
    }
}

#[test]
fn brush_line_leaves_no_gaps() {
    let mut cv = Canvas::new(40, 40, white());
    cv.brush_line(5, 5, 30, 25, 3, black());
    // every pixel of the scan-converted center line is within the stroke
    let mut probe = Canvas::new(40, 40, white());
    probe.line(5, 5, 30, 25, black());
    for y in 0..40usize {
        for x in 0..40usize {
            if probe.get_pixel(x, y) == black() {
                assert_eq!(cv.get_pixel(x, y), black(), "gap at {} {}", x, y);
            }
        }
    }
}

#[test]
fn flood_fill_containment() {
    let mut cv = Canvas::new(12, 12, white());
    cv.rect(2, 2, 8, 8, black());
    cv.fill(5, 5, red());
    for x in 0..12usize {
        for y in 0..12usize {
            let interior = (3..9).contains(&x) && (3..9).contains(&y);
            let border = (2..10).contains(&x) && (2..10).contains(&y) && !interior;
            if interior {
                assert_eq!(cv.get_pixel(x, y), red(), "interior {} {}", x, y);
            } else if border {
                assert_eq!(cv.get_pixel(x, y), black(), "border {} {}", x, y);
            } else {
                assert_eq!(cv.get_pixel(x, y), white(), "outside {} {}", x, y);
            }
        }
    }
}

#[test]
fn flood_fill_out_of_bounds_seed_is_noop() {
    let mut cv = Canvas::new(6, 6, white());
    let before = snapshot(&cv);
    cv.fill(-3, 2, black());
    cv.fill(2, 99, black());
    assert_eq!(snapshot(&cv), before);
}

#[test]
fn undo_round_trip_restores_previous_snapshot() {
    let mut cv = Canvas::new(30, 30, white());
    cv.undo_save();
    let before = snapshot(&cv);
    cv.circle(15, 15, 8, true, black());
    assert_ne!(snapshot(&cv), before);
    assert!(cv.undo());
    assert_eq!(snapshot(&cv), before);
}

#[test]
fn undo_on_empty_history_reports_noop() {
    let mut cv = Canvas::new(10, 10, white());
    cv.pixel(3, 3, black());
    let before = snapshot(&cv);
    assert!(!cv.undo());
    assert_eq!(snapshot(&cv), before);
}

#[test]
fn undo_bound_evicts_eleventh_oldest() {
    let mut cv = Canvas::new(4, 4, white());
    // state 0 is all white; save it, then eleven mutations each saved.
    let mut states = Vec::new();
    for i in 0..11 {
        cv.undo_save();
        states.push(snapshot(&cv));
        cv.pixel(i % 4, i / 4, Rgba { r: i as u8, g: 0, b: 0, a: 255 });
    }
    // eleven saves happened; the first is evicted, ten remain.
    for k in (1..11).rev() {
        assert!(cv.undo());
        assert_eq!(snapshot(&cv), states[k], "undo to state {}", k);
    }
    // the very first saved state (all white) is gone
    assert!(!cv.undo());
    assert_ne!(snapshot(&cv), states[0]);
}

#[test]
fn example_scenario_circle_then_undo() {
    let mut cv = Canvas::new(100, 100, white());
    cv.undo_save();
    cv.circle(50, 50, 20, true, black());
    assert_eq!(cv.get_pixel(50, 50), black());
    assert!(cv.undo());
    for y in 0..100usize {
        for x in 0..100usize {
            assert_eq!(cv.get_pixel(x, y), white(), "at {} {}", x, y);
        }
    }
}

#[test]
fn copy_paste_full_opacity_is_exact() {
    let mut cv = Canvas::new(20, 20, white());
    cv.circle(5, 5, 3, true, black());
    cv.pixel(4, 6, red());
    assert!(cv.set_selection(2, 2, 8, 8));
    cv.copy();
    let mut expected = Vec::new();
    for j in 0..8usize {
        for i in 0..8usize {
            expected.push(cv.get_pixel(2 + i, 2 + j));
        }
    }
    cv.paste(10, 10, 255);
    for j in 0..8usize {
        for i in 0..8usize {
            let got = cv.get_pixel(10 + i, 10 + j);
            let want = expected[j * 8 + i];
            assert_eq!((got.r, got.g, got.b), (want.r, want.g, want.b), "at {} {}", i, j);
        }
    }
}

#[test]
fn paste_half_opacity_interpolates() {
    let mut cv = Canvas::new(10, 10, white());
    cv.pixel(0, 0, black());
    assert!(cv.set_selection(0, 0, 1, 1));
    cv.copy();
    // alpha 128 gives weight 128*256/255 = 128, effective alpha
    // 255*128/256 = 127, and (0*127 + 255*128)/255 = 128 per channel.
    cv.paste(5, 5, 128);
    let c = cv.get_pixel(5, 5);
    assert_eq!((c.r, c.g, c.b), (128, 128, 128));
}

#[test]
fn paste_clips_at_edges() {
    let mut cv = Canvas::new(10, 10, white());
    cv.pixel(0, 0, black());
    assert!(cv.set_selection(0, 0, 2, 2));
    cv.copy();
    cv.paste(9, 9, 255);
    assert_eq!(cv.get_pixel(9, 9), black());
}

#[test]
fn copy_without_selection_takes_whole_canvas() {
    let mut cv = Canvas::new(5, 4, red());
    cv.copy();
    assert_eq!(cv.copy_buffer.width, 5);
    assert_eq!(cv.copy_buffer.height, 4);
}

#[test]
fn mask_editing_targets_overlay() {
    let mut cv = Canvas::new(10, 10, white());
    assert!(!cv.mask_flag());
    cv.paint_on_mask();
    assert!(cv.mask_flag());
    let before = snapshot(&cv);
    cv.pixel(3, 3, black());
    // the image is untouched, the overlay took the paint
    assert_eq!(snapshot(&cv), before);
    cv.paint_on_mask();
    assert!(!cv.mask_flag());
}

#[test]
fn enabled_mask_stencils_drawing() {
    let mut cv = Canvas::new(10, 10, white());
    // close the whole mask (paint it black), then open one pixel
    cv.paint_on_mask();
    cv.fill(0, 0, black());
    cv.pixel(4, 4, white());
    cv.paint_on_mask();
    cv.enable_mask(true);
    cv.line(0, 4, 9, 4, red());
    for x in 0..10usize {
        let expect = x == 4;
        assert_eq!(cv.get_pixel(x, 4) == red(), expect, "at {}", x);
    }
    // clearing the mask reopens everything
    cv.clear_mask();
    cv.line(0, 6, 9, 6, red());
    for x in 0..10usize {
        assert_eq!(cv.get_pixel(x, 6), red());
    }
}

#[test]
fn selection_rejects_degenerate_rectangles() {
    let mut cv = Canvas::new(10, 10, white());
    assert!(!cv.set_selection(0, 0, 0, 5));
    assert!(!cv.set_selection(8, 8, 5, 5));
    assert!(cv.set_selection(1, 1, 5, 5));
    cv.clear_selection();
    assert!(cv.selection.is_none());
}

#[test]
fn clear_resets_content_and_selection() {
    let mut cv = Canvas::new(6, 6, red());
    assert!(cv.set_selection(1, 1, 2, 2));
    cv.clear();
    assert!(cv.selection.is_none());
    for y in 0..6usize {
        for x in 0..6usize {
            assert_eq!(cv.get_pixel(x, y), white());
        }
    }
}

#[test]
fn polygon_paints_vertices_of_square() {
    let mut cv = Canvas::new(60, 60, white());
    // a 4-gon starting at angle 0: first vertex at (30 + 20, 30)
    cv.polygon(30, 30, 20, 4, 0, black(), false);
    assert_eq!(cv.get_pixel(50, 30), black());
    assert_ne!(snapshot(&cv), snapshot(&Canvas::new(60, 60, white())));
}

#[test]
fn smooth_circle_has_full_core_and_soft_rim() {
    let mut cv = Canvas::new(20, 20, white());
    cv.smooth_circle(10, 10, 5, black());
    assert_eq!(cv.get_pixel(10, 10), black());
    // the rim pixel at distance 5 is blended halfway: weight 128 gives
    // effective alpha 127 and channel (0*127 + 255*128)/255 = 128
    let rim = cv.get_pixel(15, 10);
    assert_eq!((rim.r, rim.g, rim.b), (128, 128, 128));
    assert_eq!(cv.get_pixel(16, 10), white());
}
