use photo2video::canvas::preview_canvas;
use photo2video::options::Resolution;

fn by_float(w: u32, h: u32) -> (u32, u32) {
    let s = (960.0 / w as f64).min(960.0 / h as f64);
    let pw = ((w as f64 * s / 2.0).round() as u32 * 2).max(2);
    let ph = ((h as f64 * s / 2.0).round() as u32 * 2).max(2);
    (pw, ph)
}

#[test]
fn usual_sizes() {
    let size = |w, h| preview_canvas(Resolution { w, h });
    assert_eq!(size(1920, 1080), (960, 540));
    assert_eq!(size(1080, 1920), (540, 960));
    assert_eq!(size(3840, 2160), (960, 540));
    assert_eq!(size(100, 1), (960, 10));
    assert_eq!(size(10000, 1), (960, 2));
    assert_eq!(size(1, 1), (960, 960));
    assert_eq!(size(0, 1080), (2, 960));
    assert_eq!(size(1080, 0), (960, 2));
    assert_eq!(size(0, 0), (2, 2));
}

#[test]
fn rounding_is_that_of_double_precision() {
    assert_eq!(preview_canvas(Resolution { w: 1408, h: 22 }), by_float(1408, 22));
    for w in 1..1500 {
        for h in [1, 2, 3, 7, 22, 121, 333, 719, 720, 1081, 1440] {
            assert_eq!(preview_canvas(Resolution { w, h }), by_float(w, h), "{w}x{h}");
            assert_eq!(preview_canvas(Resolution { w: h, h: w }), by_float(h, w), "{h}x{w}");
        }
    }
    for (w, h) in [(0, 0), (0, 7), (7, 0), (u32::MAX, u32::MAX), (u32::MAX, 1), (1, u32::MAX), (65536, 65535)] {
        assert_eq!(preview_canvas(Resolution { w, h }), by_float(w, h), "{w}x{h}");
    }
}
