use photo2video::caption::SubtitleEntry;
use photo2video::editor::{Editor, PickedFile};
use photo2video::job::texts_to_draw;
use photo2video::options::{H264Encoder, OutputFormat};
use photo2video::run::{Action, Run, Stage};

#[test]
fn conversion_goes_through_its_stages() {
    let mut r = Run::new(vec![4], 1, OutputFormat::Mp4);
    assert!(matches!(r.begin(false), Action::Adjust(0, 4)));
    assert!(matches!(r.after(Ok(()), false), Action::WriteList));
    assert!(matches!(r.after(Ok(()), false), Action::WriteCaption(0)));
    assert!(matches!(r.after(Ok(()), false), Action::Detect));
    assert!(matches!(
        r.found(H264Encoder::Qsv, false),
        Action::Encode(H264Encoder::Qsv)
    ));
    assert!(matches!(r.after(Err("busy".to_string()), false), Action::EncodeAgain));
    assert_eq!(r.stage, Stage::Encode(H264Encoder::Software));
    match r.after(Ok(()), false) {
        Action::Finish(end) => {
            assert_eq!(end.error, None);
            assert_eq!((end.adjusted, end.captions), (1, 1));
            assert!(end.list && !end.output);
        }
        _ => panic!("not over"),
    }
    assert_eq!(r.stage, Stage::Over);
}

#[test]
fn software_is_not_tried_twice() {
    let mut r = Run::new(Vec::new(), 0, OutputFormat::Mp4);
    assert!(matches!(r.begin(false), Action::WriteList));
    assert!(matches!(r.after(Ok(()), false), Action::Detect));
    r.found(H264Encoder::Software, false);
    match r.after(Err("bad".to_string()), false) {
        Action::Finish(end) => {
            assert_eq!(end.error.as_deref(), Some("bad"));
            assert!(end.output && end.list);
        }
        _ => panic!("not over"),
    }
}

#[test]
fn webm_needs_no_search() {
    let mut r = Run::new(Vec::new(), 0, OutputFormat::Webm);
    r.begin(false);
    assert!(matches!(r.after(Ok(()), false), Action::Encode(_)));
    assert!(matches!(r.after(Err("x".to_string()), false), Action::Finish(_)));
}

#[test]
fn failures_before_encoding_end_the_conversion() {
    let mut r = Run::new(vec![0, 1], 1, OutputFormat::Mp4);
    r.begin(false);
    r.after(Ok(()), false);
    match r.after(Err("no".to_string()), false) {
        Action::Finish(end) => {
            assert_eq!((end.error.as_deref(), end.adjusted), (Some("no"), 1))
        }
        _ => panic!("not over"),
    }
    let mut r = Run::new(Vec::new(), 1, OutputFormat::Mp4);
    r.begin(false);
    match r.after(Err("full".to_string()), false) {
        Action::Finish(end) => {
            assert_eq!(end.error.as_deref(), Some("無法寫入暫存清單：full"))
        }
        _ => panic!("not over"),
    }
    let mut r = Run::new(Vec::new(), 1, OutputFormat::Mp4);
    r.begin(false);
    r.after(Ok(()), false);
    match r.after(Err("full".to_string()), false) {
        Action::Finish(end) => {
            assert_eq!(end.error.as_deref(), Some("無法寫入字幕暫存檔：full"))
        }
        _ => panic!("not over"),
    }
}

#[test]
fn cancelled_conversion_goes_no_further() {
    let mut r = Run::new(vec![0], 0, OutputFormat::Mp4);
    match r.begin(true) {
        Action::Finish(end) => assert_eq!(end.error.as_deref(), Some("已取消")),
        _ => panic!("not over"),
    }
    let mut r = Run::new(Vec::new(), 0, OutputFormat::Mp4);
    r.begin(false);
    r.after(Ok(()), false);
    r.found(H264Encoder::Nvenc, false);
    match r.after(Err("killed".to_string()), true) {
        Action::Finish(end) => assert!(end.output && end.error.as_deref() == Some("killed")),
        _ => panic!("not over"),
    }
}

#[test]
fn captions_of_the_video_are_those_of_the_editor() {
    let mut e = Editor::new(None, Vec::new(), Vec::new());
    let files: Vec<PickedFile> = (1..4)
        .map(|i| PickedFile { path: format!("/{i}.jpg"), name: format!("{i}.jpg") })
        .collect();
    e.add_photos(&files);
    for (start, end, text) in [(0, 2, "a \n"), (3, 99, "b"), (4, 9, "late"), (1, 1, "  ")] {
        e.captions.entries.push(SubtitleEntry {
            text: text.to_string(),
            ..SubtitleEntry::new(start, end)
        });
    }
    let jobs = e.text_jobs();
    let ranges: Vec<(usize, usize)> = jobs.iter().map(|j| (j.s, j.e)).collect();
    assert_eq!(ranges, [(0, 1), (2, 2)]);
    assert_eq!(texts_to_draw(&jobs), [(0, "a".to_string()), (1, "b".to_string())]);
    assert_eq!(e.photo_looks().len(), 3);
}
