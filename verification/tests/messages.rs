use photo2video::cli::{found_message, no_folder_message, no_photos_message, parse_cli, CliError};
use photo2video::fonts::{detect_fonts, font_candidates, window_fonts};
use photo2video::labels::{
    adjust_hint, adjust_title, caption_title, drop_hint, failure_banner, newer_notice,
    photo_position, photo_summary, recent_label, shown_recent, signed_text,
};
use photo2video::scalar::Scalar;
use photo2video::temp::{
    adjusted_name, caption_name, copy_name, is_own, is_stale, list_name, own_prefix, temp_name,
    STALE_AGE,
};
use photo2video::text::{blank, join, lower_char, parse_number, push_fixed, push_int, trim};
use photo2video::timers::{fps_timer, saved_timer, Timer};

fn args(v: &[&str]) -> Vec<String> {
    v.iter().map(|s| s.to_string()).collect()
}

#[test]
fn command_line_is_read() {
    match parse_cli(&args(&["/p", "24", "o.mp4"])) {
        Ok(job) => assert_eq!((job.dir.as_str(), job.fps, job.output.as_str()), ("/p", 24, "o.mp4")),
        Err(_) => panic!("refused"),
    }
    assert!(matches!(parse_cli(&args(&["/p", "+5", "o"])), Ok(job) if job.fps == 5));
    assert!(matches!(parse_cli(&args(&["/p", "24"])), Err(CliError::Usage)));
    assert!(matches!(parse_cli(&args(&["/p", "x", "o"])), Err(CliError::NoNumber)));
    assert!(matches!(parse_cli(&args(&["/p", "-1", "o"])), Err(CliError::NoNumber)));
    assert!(matches!(parse_cli(&args(&["/p", "4294967296", "o"])), Err(CliError::NoNumber)));
    assert!(matches!(parse_cli(&args(&["/p", "0", "o"])), Err(CliError::OutOfRange)));
    assert!(matches!(parse_cli(&args(&["/p", "61", "o"])), Err(CliError::OutOfRange)));
    assert_eq!(CliError::Usage.message(), "用法：photo2video --cli <照片資料夾> <fps> <輸出檔>");
    assert_eq!(CliError::NoNumber.message(), "fps 必須是正整數");
    assert_eq!(CliError::OutOfRange.message(), "fps 必須介於 1 到 60");
    assert_eq!(no_folder_message("/x"), "找不到資料夾（或指定的不是資料夾）：/x");
    assert_eq!(no_photos_message("/x"), "資料夾內沒有圖片：/x");
    assert_eq!(found_message(3, 24), "共 3 張照片，fps=24");
}

#[test]
fn window_texts() {
    assert_eq!((signed_text(5), signed_text(0), signed_text(-5)), ("+5".into(), "0".into(), "-5".into()));
    assert_eq!(adjust_title(0), "調色");
    assert_eq!(adjust_title(3), "調色（選取 3 張）");
    assert!(adjust_hint(true).starts_with("只套用到選取的照片"));
    assert!(adjust_hint(false).starts_with("套用到每一張照片"));
    assert_eq!(caption_title(0), "文字 1");
    assert_eq!(photo_position(1, 9, "a.jpg"), "2 / 9　a.jpg");
    assert_eq!(photo_summary(12, "1.2"), "12 張照片 · 約 1.2 秒");
    assert_eq!(failure_banner("x"), "✖ 轉換失敗：x");
    assert_eq!(newer_notice("v2"), "⬆ 有新版本 v2 可以下載");
    assert_eq!(drop_hint(true), "轉換中，暫時無法加入檔案");
    assert_eq!(drop_hint(false), "放開滑鼠加入照片");
    assert_eq!(recent_label(Some("trip.p2v"), "/x/trip.p2v"), "🕘  trip");
    assert_eq!(recent_label(None, "/"), "🕘  /");
    assert_eq!(shown_recent(&args(&["1", "2", "3", "4", "5", "6"])), 5);
    assert_eq!(shown_recent(&args(&["1"])), 1);
}

#[test]
fn temporary_files_are_told_apart() {
    let name = temp_name(42, "x.bmp");
    assert_eq!(name, "photo2video_42_x.bmp");
    assert_eq!(own_prefix(42), "photo2video_42_");
    assert!(is_own(&name, 42) && !is_own(&name, 4));
    assert!(!is_own(&temp_name(421, "x"), 42) && !is_own(&temp_name(4, "2_x"), 42));
    assert_eq!(adjusted_name(12), "adj_12.png");
    assert_ne!(adjusted_name(1), adjusted_name(11));
    assert_eq!(caption_name(0), "cap_0.txt");
    assert_eq!(copy_name(7), "prev_base_7.bmp");
    assert_eq!(list_name(), "list.txt");
    assert!(!is_stale(&name, 42, Some(u128::MAX)));
    assert!(is_stale(&name, 4, Some(STALE_AGE + 1)));
    assert!(!is_stale(&name, 4, Some(STALE_AGE)));
    assert!(!is_stale(&name, 4, None));
    assert!(!is_stale("other_42_x", 4, Some(u128::MAX)));
}

#[test]
fn timers_wait() {
    assert_eq!(fps_timer(800), Timer::Over);
    assert_eq!(fps_timer(0), Timer::Wait(820));
    assert_eq!(fps_timer(799), Timer::Wait(21));
    assert_eq!(saved_timer(2500), Timer::Over);
    assert_eq!(saved_timer(100), Timer::Wait(2450));
}

#[test]
fn best_font_comes_first() {
    assert_eq!(font_candidates()[0], ("微軟正黑體", "msjh.ttc"));
    assert_eq!(font_candidates()[11], ("Segoe UI", "segoeui.ttf"));
    let (names, files) = detect_fonts(&[("A", "a"), ("B", "b"), ("C", "c")], &vec![true, false, true]);
    assert_eq!((names, files), (args(&["A", "C"]), args(&["a", "c"])));
    assert_eq!(window_fonts()[3], "msyh.ttc");
}

#[test]
fn texts_are_trimmed_and_read() {
    assert_eq!(trim("\u{3000} a b\t\n"), "a b");
    assert!(blank("\u{2003}\u{a0}\r"));
    assert!(!blank(" x"));
    assert_eq!(join(&args(&["a", "b", "c"]), ", "), "a, b, c");
    assert_eq!(lower_char('Q'), 'q');
    assert_eq!(parse_number("+007", 9), Some(7));
    assert_eq!(parse_number("", 9), None);
    assert_eq!(parse_number("+", 9), None);
    assert_eq!(parse_number("10", 9), None);
    let mut s = String::new();
    push_fixed(&mut s, -1234, 3);
    s.push(' ');
    push_int(&mut s, i64::MIN);
    assert_eq!(s, "-1.234 -9223372036854775808");
}

#[test]
fn white_space_is_that_of_the_standard_library() {
    for c in (0..0x11_0000u32).filter_map(char::from_u32) {
        assert_eq!(photo2video::text::space(c), c.is_whitespace(), "{c:?}");
    }
}

#[test]
fn scalars_are_ordered_as_floating_point_numbers() {
    let v = [f32::NAN, f32::NEG_INFINITY, -1.5, -0.0, 0.0, 1e-40, 0.3, 2.0, f32::INFINITY];
    let sc = |x: f32| Scalar { bits: x.to_bits() };
    for a in v {
        assert_eq!(sc(a).not_a_number(), a.is_nan());
        for b in v {
            assert_eq!(sc(a).less(sc(b)), a < b, "{a} {b}");
        }
        if !a.is_nan() {
            let c = a.clamp(-1.0, 1.0);
            assert_eq!(f32::from_bits(sc(a).clamped(sc(-1.0), sc(1.0)).bits), c);
            assert_eq!(f32::from_bits(sc(a).lesser(sc(0.5)).bits), a.min(0.5));
            assert_eq!(f32::from_bits(sc(a).greater(sc(0.5)).bits), a.max(0.5));
        }
    }
    assert!(sc(f32::NAN).clamped(sc(-1.0), sc(1.0)).not_a_number());
}
