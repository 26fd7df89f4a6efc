use photo2video::adjust::Adjustments;
use photo2video::command::{
    adjust_error, adjusting_status, check_inputs, conversion_error, encoder_test_args,
    encoding_status, has_per_photo, list_sources, photos_to_adjust, preview_error, still_args, video_codec,
    CommandParts,
};
use photo2video::graph::VideoFilter;
use photo2video::options::{H264Encoder, OutputFormat};
use photo2video::project::FileFact;

fn fact(name: &str, is_file: bool) -> FileFact {
    FileFact { name: name.to_string(), is_file }
}

fn parts(music: bool, graph: bool, format: OutputFormat) -> CommandParts {
    let text = "F".to_string();
    CommandParts {
        threads: "4".to_string(),
        list: "list.txt".to_string(),
        music: if music { Some(("m.mp3".to_string(), "A".to_string())) } else { None },
        filter: if graph { VideoFilter::Graph(text) } else { VideoFilter::Chain(text) },
        out_fps: 30,
        secs: "2.000".to_string(),
        format,
        encoder: H264Encoder::Software,
        output: "o.mp4".to_string(),
    }
}

#[test]
fn missing_inputs_are_told() {
    let none = Vec::new();
    assert_eq!(check_inputs(&none, None).as_deref(), Some("沒有照片可轉換"));
    let photos = vec![fact("1.jpg", true), fact("2.jpg", false), fact("3.jpg", false)];
    assert_eq!(
        check_inputs(&photos, None).as_deref(),
        Some("找不到照片檔案「2.jpg」，可能已被移除或所在磁碟未連接")
    );
    let good = vec![fact("1.jpg", true)];
    assert_eq!(
        check_inputs(&good, Some(&fact("m.mp3", false))).as_deref(),
        Some("找不到背景音樂檔案「m.mp3」，可能已被移除或所在磁碟未連接")
    );
    assert_eq!(check_inputs(&good, Some(&fact("m.mp3", true))), None);
    assert_eq!(check_inputs(&good, None), None);
}

#[test]
fn photos_that_differ_are_adjusted_beforehand() {
    let none = Adjustments::default();
    let dark = Adjustments { brightness: -9, ..none };
    let warm = Adjustments { temp: 9, ..none };
    assert!(!has_per_photo(&vec![dark, dark], dark));
    assert!(photos_to_adjust(&vec![dark, dark], dark).is_empty());
    assert!(has_per_photo(&vec![dark, warm], dark));
    assert_eq!(photos_to_adjust(&vec![dark, none, warm], dark), [0, 2]);
    assert_eq!(adjusting_status(0, 7), "套用照片調色…（1/7）");
}

#[test]
fn command_of_a_plain_video() {
    let args = parts(false, false, OutputFormat::Mp4).args();
    let head = [
        "-y", "-filter_threads", "4", "-f", "concat", "-safe", "0", "-i", "list.txt", "-vf", "F",
        "-r", "30", "-t", "2.000",
    ];
    assert_eq!(args[..15], head);
    let codec: Vec<&str> = H264Encoder::Software.codec_args();
    assert_eq!(args[15..args.len() - 1], codec);
    assert_eq!(args[args.len() - 1], "o.mp4");
}

#[test]
fn command_of_a_video_with_music() {
    let args = parts(true, true, OutputFormat::Webm).args();
    let want = [
        "-y", "-filter_threads", "4", "-f", "concat", "-safe", "0", "-i", "list.txt",
        "-stream_loop", "-1", "-i", "m.mp3", "-filter_complex", "F", "-map", "[vout]", "-r", "30",
        "-t", "2.000", "-map", "1:a", "-af", "A", "-c:a", "libopus", "-b:a", "128k", "-c:v",
        "libvpx-vp9", "-b:v", "0", "-crf", "30", "-cpu-used", "5", "-row-mt", "1", "o.mp4",
    ];
    assert_eq!(args, want);
    let args = parts(true, false, OutputFormat::Mp4).args();
    let want = ["-map", "0:v", "-map", "1:a", "-af", "A", "-c:a", "aac", "-b:a", "192k"];
    assert_eq!(args[19..29], want);
}

#[test]
fn encoders_are_named() {
    assert_eq!(encoding_status(OutputFormat::Webm, H264Encoder::Nvenc), "轉換中…（編碼器：VP9）");
    assert_eq!(
        encoding_status(OutputFormat::Mp4, H264Encoder::Nvenc),
        format!("轉換中…（編碼器：{}）", H264Encoder::Nvenc.display_name())
    );
    assert_eq!(video_codec(OutputFormat::Webm, H264Encoder::Qsv)[1], "libvpx-vp9");
    assert_eq!(encoder_test_args("h264_qsv")[8], "h264_qsv");
    assert_eq!(
        still_args("i", "f", "o"),
        ["-y", "-i", "i", "-vf", "f", "-frames:v", "1", "o"]
    );
}

#[test]
fn failures_quote_the_log() {
    let none = Vec::new();
    let log = vec!["a".to_string(), "b".to_string()];
    assert_eq!(conversion_error(&none), "FFmpeg 轉換失敗");
    assert_eq!(conversion_error(&log), "FFmpeg 轉換失敗：a\nb");
    assert_eq!(adjust_error("1.jpg", &none), "照片「1.jpg」調色失敗");
    assert_eq!(adjust_error("1.jpg", &log), "照片「1.jpg」調色失敗：a\nb");
    assert_eq!(preview_error(&none), "預覽渲染失敗");
    assert_eq!(preview_error(&log), "a\nb");
}

#[test]
fn adjusted_photos_take_the_places_of_theirs() {
    let text = |v: &[&str]| v.iter().map(|s| s.to_string()).collect::<Vec<String>>();
    assert_eq!(
        list_sources(&text(&["a", "b", "c"]), &vec![0, 2], &text(&["x", "y"])),
        ["x", "b", "y"]
    );
    assert_eq!(list_sources(&text(&["a"]), &Vec::new(), &Vec::new()), ["a"]);
}
