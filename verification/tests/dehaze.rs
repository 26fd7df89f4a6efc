use photo2video::dehaze::{Region, SmokeParams, MAX_PROTECT};
use photo2video::scalar::Scalar;

fn sc(v: f32) -> Scalar {
    Scalar { bits: v.to_bits() }
}

fn region(x0: f32, y0: f32, x1: f32, y1: f32) -> Region {
    Region { x0: sc(x0), y0: sc(y0), x1: sc(x1), y1: sc(y1) }
}

#[test]
fn params_are_clamped_into_range() {
    let p = SmokeParams {
        strength: 500,
        detail: -20,
        black: 999,
        feather: -5,
        tolerance: 400,
        ..Default::default()
    }
    .clamped();
    assert_eq!(
        (p.strength, p.detail, p.black, p.feather, p.tolerance),
        (100, 0, 100, 0, 100)
    );
}

#[test]
fn defaults_are_in_range() {
    let p = SmokeParams::default();
    assert_eq!(
        (p.strength, p.detail, p.black, p.feather, p.tolerance),
        (80, 60, 30, 25, 30)
    );
    assert_eq!(p.region, None);
    assert!(!p.is_neutral());
    assert!(SmokeParams { strength: 0, ..p }.is_neutral());
    assert!(SmokeParams { strength: -3, ..p }.is_neutral());
}

#[test]
fn region_is_normalized_whichever_way_it_is_dragged() {
    let forward = region(0.2, 0.3, 0.8, 0.9);
    let backward = region(0.8, 0.9, 0.2, 0.3);
    assert_eq!(forward.normalized(), backward.normalized());
}

#[test]
fn region_is_moved_into_the_photo() {
    assert_eq!(region(1.5, -0.5, 0.25, 0.75).normalized(), region(0.25, 0.0, 1.0, 0.75));
}

#[test]
fn degenerate_region_falls_back_to_whole_image() {
    let p = SmokeParams {
        region: Some(region(0.5, 0.2, 0.5005, 0.9)),
        ..Default::default()
    }
    .clamped();
    assert!(p.region.is_none());
}

#[test]
fn usable_region_is_kept() {
    let p = SmokeParams {
        region: Some(region(0.9, 0.2, 0.5, 0.9)),
        ..Default::default()
    }
    .clamped();
    assert_eq!(p.region, Some(region(0.5, 0.2, 0.9, 0.9)));
}

#[test]
fn width_is_measured_as_floating_point_does() {
    let mut seed: u64 = 1;
    let mut next = || {
        seed = seed.wrapping_mul(6364136223846793005).wrapping_add(1442695040888963407);
        (seed >> 33) as u32
    };
    for i in 0..200000u32 {
        let a = (next() & 0xFF_FFFF) as f32 / 16777216.0;
        let b = match i % 4 {
            0 => (next() & 0xFF_FFFF) as f32 / 16777216.0,
            1 => a + 0.01,
            2 => f32::from_bits((a + 0.01).to_bits().wrapping_add(next() % 5).wrapping_sub(2)),
            _ => a * 0.001 + 0.01,
        };
        let a = if i % 4 == 3 { a * 0.001 } else { a };
        let (a, b) = (a.clamp(0.0, 1.0), b.clamp(0.0, 1.0));
        let r = region(a, 0.0, b, 1.0);
        assert_eq!(r.is_usable(), b - a > 0.01, "{a} {b}");
        assert_eq!(region(0.0, a, 1.0, b).is_usable(), b - a > 0.01, "{a} {b}");
    }
}

#[test]
fn width_at_the_edge() {
    let c = 0.01f32;
    let up = f32::from_bits(c.to_bits() + 1);
    assert!(!region(0.0, 0.0, c, 1.0).is_usable());
    assert!(region(0.0, 0.0, up, 1.0).is_usable());
    assert!(!region(-0.0, 0.0, c, 1.0).is_usable());
    assert!(!region(1e-40, 0.0, c, 1.0).is_usable());
    assert_eq!(region(1e-40, 0.0, up, 1.0).is_usable(), up - 1e-40 > 0.01);
    assert!(!region(f32::NAN, 0.0, 1.0, 1.0).is_usable());
}

#[test]
fn protect_list_rejects_duplicates_and_overflow() {
    let mut p = SmokeParams::default();
    assert!(p.add_protect([10, 20, 30]));
    assert!(!p.add_protect([10, 20, 30]), "同色不該重複加入");
    for i in 1..MAX_PROTECT {
        assert!(p.add_protect([i as u8, 0, 0]));
    }
    assert!(!p.add_protect([9, 9, 9]), "滿了還能再加");
    assert_eq!(p.protect_colors().iter().count(), MAX_PROTECT);
    p.remove_protect(0);
    assert_eq!(p.protect_colors().iter().count(), MAX_PROTECT - 1);
    assert!(p.add_protect([9, 9, 9]), "移除後空出來的位置沒被用到");
    p.clear_protect();
    assert!(!p.has_protect());
}

#[test]
fn protected_colours_come_in_the_order_of_addition() {
    let mut p = SmokeParams::default();
    p.add_protect([1, 0, 0]);
    p.add_protect([2, 0, 0]);
    p.remove_protect(0);
    p.remove_protect(99);
    assert!(p.add_protect([3, 0, 0]));
    assert_eq!(p.protect_colors(), vec![(0, [2, 0, 0]), (1, [3, 0, 0])]);
    p.add_protect([4, 0, 0]);
    p.remove_protect(1);
    p.remove_protect(5);
    assert_eq!(p.protect_colors(), vec![(0, [2, 0, 0]), (1, [4, 0, 0])]);
    assert!(p.has_protect());
}
