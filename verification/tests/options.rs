use photo2video::options::{H264Encoder, OutputFormat, Resolution, Transition};

#[test]
fn formats_have_labels_and_extensions() {
    let labels: Vec<&str> = OutputFormat::all().iter().map(|f| f.label()).collect();
    assert_eq!(
        labels,
        ["MP4 (H.264)", "MKV (H.264)", "MOV (H.264)", "AVI (H.264)", "WebM (VP9)"]
    );
    let exts: Vec<&str> = OutputFormat::all().iter().map(|f| f.ext()).collect();
    assert_eq!(exts, ["mp4", "mkv", "mov", "avi", "webm"]);
}

#[test]
fn formats_are_found_by_extension() {
    for f in OutputFormat::all() {
        assert_eq!(OutputFormat::from_ext(f.ext()), Some(f));
    }
    assert_eq!(OutputFormat::from_ext("MP4"), None);
    assert_eq!(OutputFormat::from_ext(""), None);
}

#[test]
fn resolutions_have_labels() {
    assert_eq!(Resolution { w: 1280, h: 720 }.label(), "HD 1280 × 720");
    assert_eq!(Resolution { w: 1920, h: 1080 }.label(), "Full HD 1920 × 1080");
    assert_eq!(Resolution { w: 2560, h: 1440 }.label(), "2K 2560 × 1440");
    assert_eq!(Resolution { w: 3840, h: 2160 }.label(), "4K 3840 × 2160");
    assert_eq!(Resolution { w: 0, h: 0 }.label(), "原始像素（依最大照片）");
    assert_eq!(Resolution { w: 800, h: 600 }.label(), "800 × 600");
    assert!(Resolution { w: 0, h: 0 }.is_native());
    assert!(!Resolution { w: 800, h: 600 }.is_native());
}

#[test]
fn only_menu_resolutions_are_restored() {
    for r in Resolution::all() {
        assert_eq!(Resolution::from_menu(r.w, r.h), r);
    }
    assert_eq!(Resolution::from_menu(123, 456), Resolution { w: 1920, h: 1080 });
}

#[test]
fn transitions_are_found_by_id() {
    for t in Transition::all() {
        assert_eq!(Transition::from_id(t.id()), Some(t));
    }
    assert_eq!(Transition::Cut.id(), "none");
    assert_eq!(Transition::FadeBlack.id(), "fade_black");
    assert_eq!(Transition::FadeBlack.label(), "淡入淡出");
    assert_eq!(Transition::Cut.label(), "無（直接切換）");
    assert_eq!(Transition::from_id("wipe"), None);
}

#[test]
fn best_working_encoder_is_picked() {
    assert_eq!(H264Encoder::pick(true, true, true), H264Encoder::Nvenc);
    assert_eq!(H264Encoder::pick(false, true, true), H264Encoder::Qsv);
    assert_eq!(H264Encoder::pick(false, false, true), H264Encoder::Amf);
    assert_eq!(H264Encoder::pick(false, false, false), H264Encoder::Software);
    assert_eq!(H264Encoder::candidates()[1].0, "h264_qsv");
    assert_eq!(
        H264Encoder::Software.codec_args(),
        ["-c:v", "libx264", "-preset", "veryfast", "-crf", "18"]
    );
    assert_eq!(H264Encoder::Qsv.display_name(), "Intel Quick Sync（硬體加速）");
}
