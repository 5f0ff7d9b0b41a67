use pastel::color::{blend_px, opacity_to_alpha, Rgba};
use pastel::geom::{atan2_mdeg_exec, isqrt_u64, sin_mdeg_q14_exec, cos_mdeg_q14_exec};
use pastel::toolbar::{toggle_toolbar, visible_toolbar, ToolbarIcon};
use pastel::tools::{property_get, property_set, PropKey, Property};

#[test]
fn isqrt_exact_values() {
    assert_eq!(isqrt_u64(0), 0);
    assert_eq!(isqrt_u64(1), 1);
    assert_eq!(isqrt_u64(15), 3);
    assert_eq!(isqrt_u64(16), 4);
    assert_eq!(isqrt_u64(u64::MAX), 0xffff_ffff);
}

#[test]
fn sine_hits_exact_anchor_points() {
    assert_eq!(sin_mdeg_q14_exec(0), 0);
    // Bhaskara's approximation is exact at 30, 90 and 150 degrees
    assert_eq!(sin_mdeg_q14_exec(30_000), 8192);
    assert_eq!(sin_mdeg_q14_exec(90_000), 16384);
    assert_eq!(sin_mdeg_q14_exec(150_000), 8192);
    assert_eq!(sin_mdeg_q14_exec(180_000), 0);
    assert_eq!(sin_mdeg_q14_exec(270_000), -16384);
    assert_eq!(cos_mdeg_q14_exec(0), 16384);
    assert_eq!(cos_mdeg_q14_exec(60_000), 8192);
}

#[test]
fn atan2_hits_the_axes_and_diagonal() {
    assert_eq!(atan2_mdeg_exec(0, 10), 0);
    assert_eq!(atan2_mdeg_exec(10, 10), 45_000);
    assert_eq!(atan2_mdeg_exec(10, 0), 90_000);
    assert_eq!(atan2_mdeg_exec(0, -10), 180_000);
    assert_eq!(atan2_mdeg_exec(-10, 0), 270_000);
    assert_eq!(atan2_mdeg_exec(0, 0), 0);
}

#[test]
fn opacity_rounds_to_alpha() {
    assert_eq!(opacity_to_alpha(0), 0);
    assert_eq!(opacity_to_alpha(50), 128);
    assert_eq!(opacity_to_alpha(100), 255);
}

#[test]
fn blending_formula_exact_values() {
    let white = Rgba { r: 255, g: 255, b: 255, a: 255 };
    let black = Rgba { r: 0, g: 0, b: 0, a: 255 };
    // full weight replaces outright
    let full = blend_px(white, black, 256);
    assert_eq!((full.r, full.g, full.b, full.a), (0, 0, 0, 255));
    // zero weight leaves the destination
    let zero = blend_px(white, black, 0);
    assert_eq!((zero.r, zero.g, zero.b, zero.a), (255, 255, 255, 255));
    // half weight interpolates: ea = 255*128/256 = 127, (255*128)/255 = 128
    let half = blend_px(white, black, 128);
    assert_eq!((half.r, half.g, half.b), (128, 128, 128));
}

#[test]
fn property_get_returns_first_match() {
    let props = vec![
        Property::new(PropKey::Size, 4),
        Property::new(PropKey::Opacity, 100),
        Property::new(PropKey::Size, 9),
    ];
    assert_eq!(property_get(&props, PropKey::Size), Some(4));
    assert_eq!(property_get(&props, PropKey::Opacity), Some(100));
    assert_eq!(property_get(&props, PropKey::Sides), None);
}

#[test]
fn property_set_updates_matches_only() {
    let mut props = vec![
        Property::new(PropKey::Size, 4),
        Property::new(PropKey::Opacity, 100),
    ];
    property_set(&mut props, PropKey::Size, 7);
    assert_eq!(property_get(&props, PropKey::Size), Some(7));
    assert_eq!(property_get(&props, PropKey::Opacity), Some(100));
    property_set(&mut props, PropKey::Shape, 1);
    assert_eq!(property_get(&props, PropKey::Shape), None);
}

#[test]
fn property_setters_rename_and_revalue() {
    let mut p = Property::new(PropKey::Size, 1);
    p.value(12);
    assert_eq!(p.value, 12);
    p.name(PropKey::Sides);
    assert_eq!(p.key, PropKey::Sides);
    assert_eq!(p.value, 12);
}

#[test]
fn toggle_toolbar_unselects_everything() {
    let mut bar = vec![
        ToolbarIcon { selected: true, visible: true },
        ToolbarIcon { selected: false, visible: false },
        ToolbarIcon { selected: true, visible: false },
    ];
    toggle_toolbar(&mut bar);
    assert!(bar.iter().all(|t| !t.selected));
    assert_eq!(bar[0].visible, true);
    assert_eq!(bar[1].visible, false);
}

#[test]
fn visible_toolbar_sets_visibility_everywhere() {
    let mut bar = vec![
        ToolbarIcon { selected: true, visible: false },
        ToolbarIcon { selected: false, visible: true },
    ];
    visible_toolbar(&mut bar, true);
    assert!(bar.iter().all(|t| t.visible));
    assert_eq!(bar[0].selected, true);
    visible_toolbar(&mut bar, false);
    assert!(bar.iter().all(|t| !t.visible));
}
