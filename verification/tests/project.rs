use photo2video::adjust::Adjustments;
use photo2video::caption::SubtitleEntry;
use photo2video::editor::{Editor, PickedFile};
use photo2video::options::{OutputFormat, Resolution, Transition};
use photo2video::project::{
    missing_notice, offered_project_name, offered_video_name, window_title, FileFact, ProjectFile,
};
use photo2video::scalar::Scalar;

fn editor(names: &[&str]) -> Editor {
    let mut e = Editor::new(None, vec!["A".to_string(), "B".to_string()], Vec::new());
    let files: Vec<PickedFile> = names
        .iter()
        .map(|n| PickedFile { path: format!("/p/{n}"), name: n.to_string() })
        .collect();
    e.add_photos(&files);
    e
}

fn facts(list: &[(&str, bool)]) -> Vec<FileFact> {
    list.iter().map(|(n, there)| FileFact { name: n.to_string(), is_file: *there }).collect()
}

#[test]
fn saved_project_is_restored() {
    let mut e = editor(&["1.jpg", "2.jpg"]);
    e.set_output(24, OutputFormat::Webm, Resolution { w: 1280, h: 720 });
    e.settings.transition = Transition::FadeBlack;
    e.settings.ken_burns = true;
    e.settings.music_path = Some("/m.mp3".to_string());
    e.settings.music_volume = 40;
    e.settings.music_fade = false;
    e.apply_adjustments(Adjustments { contrast: 8, ..Default::default() }, false);
    e.toggle_photo(1);
    e.apply_adjustments(Adjustments { contrast: 9, ..Default::default() }, false);
    e.captions.style.font_idx = 1;
    e.add_text();
    e.captions.entries[0].text = "hello".to_string();
    let saved = e.project_data("1.2.3");
    assert_eq!((saved.version, saved.app_version.as_str()), (1, "1.2.3"));
    assert_eq!((saved.format.as_str(), saved.transition.as_str()), ("webm", "fade_black"));
    assert_eq!((saved.sub_font.as_str(), saved.adj_overrides.len()), ("B", 1));
    let mut other = editor(&["x.png"]);
    let mut jobs = vec!["/p/x.png".to_string()];
    let missing = other.load_project(
        "/a.p2v",
        &saved,
        &facts(&[("1.jpg", true), ("2.jpg", true)]),
        true,
        &mut jobs,
    );
    assert_eq!(missing, 0);
    assert!(jobs.is_empty());
    assert_eq!(other.photos, e.photos);
    assert_eq!(other.settings.fps, 24);
    assert_eq!(other.settings.format, OutputFormat::Webm);
    assert_eq!(other.settings.resolution, Resolution { w: 1280, h: 720 });
    assert_eq!(other.settings.transition, Transition::FadeBlack);
    assert!(other.settings.ken_burns && !other.settings.music_fade);
    assert_eq!(other.settings.music_path.as_deref(), Some("/m.mp3"));
    assert_eq!(other.settings.music_volume, 40);
    assert_eq!(other.looks.effective_adj("/p/1.jpg").contrast, 8);
    assert_eq!(other.looks.effective_adj("/p/2.jpg").contrast, 9);
    assert_eq!(other.captions.style.font_idx, 1);
    assert_eq!(other.captions.entries[0].text, "hello");
    assert_eq!(other.preview.selected, Some(0));
    assert_eq!(other.projects.current.as_deref(), Some("/a.p2v"));
    assert_eq!(other.projects.recent, ["/a.p2v"]);
}

#[test]
fn missing_photos_are_left_out_and_captions_follow() {
    let caption = |start, end| SubtitleEntry {
        text: format!("{start}-{end}"),
        ..SubtitleEntry::new(start, end)
    };
    let p = ProjectFile {
        photos: ["/p/1.jpg", "/p/2.jpg", "/p/3.jpg", "/p/n.txt"].map(String::from).to_vec(),
        adj_overrides: vec![
            ("/p/2.jpg".to_string(), Adjustments::default()),
            ("/p/3.jpg".to_string(), Adjustments { contrast: 500, ..Default::default() }),
        ],
        sub_entries: vec![caption(1, 3), caption(2, 2), caption(3, 3), caption(0, 99)],
        music_path: Some("/gone.mp3".to_string()),
        ..Default::default()
    };
    let mut e = editor(&[]);
    let missing = e.load_project(
        "/a.p2v",
        &p,
        &facts(&[("1.jpg", true), ("2.jpg", false), ("3.jpg", true), ("n.txt", true)]),
        false,
        &mut Vec::new(),
    );
    assert_eq!(missing, 2);
    assert_eq!(e.photos, ["/p/1.jpg", "/p/3.jpg"]);
    assert_eq!(e.settings.music_path, None);
    assert!(e.looks.overrides.get("/p/2.jpg").is_none());
    assert_eq!(e.looks.effective_adj("/p/3.jpg").contrast, 100);
    let ranges: Vec<(usize, usize)> =
        e.captions.entries.iter().map(|c| (c.start, c.end)).collect();
    assert_eq!(ranges, [(1, 2), (2, 2), (1, 2)]);
}

#[test]
fn strange_values_are_mended() {
    let p = ProjectFile {
        photos: vec!["/p/1.jpg".to_string()],
        fps: 999,
        format: "exe".to_string(),
        resolution: (7, 9),
        transition: "spin".to_string(),
        music_volume: 5000,
        sub_outline_w: -4,
        sub_font: "missing".to_string(),
        sub_entries: vec![SubtitleEntry {
            text: "x".to_string(),
            x: Scalar { bits: 5.0f32.to_bits() },
            size: 1,
            ..SubtitleEntry::new(1, 1)
        }],
        ..Default::default()
    };
    let mut e = editor(&[]);
    e.load_project("/a.p2v", &p, &facts(&[("1.jpg", true)]), false, &mut Vec::new());
    assert_eq!(e.settings.fps, 60);
    assert_eq!(e.settings.format, OutputFormat::Mp4);
    assert_eq!(e.settings.resolution, Resolution { w: 1920, h: 1080 });
    assert_eq!(e.settings.transition, Transition::Cut);
    assert_eq!(e.settings.music_volume, 200);
    assert_eq!(e.captions.style.outline_w, 0);
    assert_eq!(e.captions.style.font_idx, 0);
    assert_eq!(e.captions.entries[0].x, Scalar { bits: 1.0f32.to_bits() });
    assert_eq!(e.captions.entries[0].size, 8);
}

#[test]
fn recent_projects_follow() {
    let mut e = editor(&["1.jpg"]);
    e.name_project("/a.p2v");
    e.name_project("/b.p2v");
    e.name_project("/a.p2v");
    assert_eq!(e.projects.recent, ["/a.p2v", "/b.p2v"]);
    e.forget_project("/a.p2v");
    assert_eq!(e.projects.recent, ["/b.p2v"]);
}

#[test]
fn missing_files_are_told() {
    assert_eq!(missing_notice(0, false), None);
    assert_eq!(
        missing_notice(2, true).as_deref(),
        Some("有 2 張照片已不在原路徑（或不是支援的圖片檔），已從清單移除。\n背景音樂檔已不在原路徑，已清除音樂設定。")
    );
    assert_eq!(
        missing_notice(0, true).as_deref(),
        Some("背景音樂檔已不在原路徑，已清除音樂設定。")
    );
}

#[test]
fn names_come_from_the_project() {
    assert_eq!(window_title(Some("trip.p2v")), "trip — Photo2Video");
    assert_eq!(window_title(None), "Photo2Video — 照片轉影片");
    assert_eq!(offered_video_name(Some("trip.p2v"), OutputFormat::Mkv), "trip.mkv");
    assert_eq!(offered_video_name(None, OutputFormat::Mp4), "output.mp4");
    assert_eq!(offered_project_name(Some("trip.p2v")), "trip.p2v");
    assert_eq!(offered_project_name(None), "我的專案.p2v");
}

#[test]
fn opened_project_is_saved_as_it_was_opened() {
    let mut e = editor(&[]);
    let p = ProjectFile {
        photos: ["/p/1.jpg", "/p/2.jpg"].map(String::from).to_vec(),
        fps: 0,
        adj: Adjustments { exposure: -700, ..Default::default() },
        adj_overrides: vec![(
            "/p/2.jpg".to_string(),
            Adjustments { whites: 101, ..Default::default() },
        )],
        sub_entries: vec![SubtitleEntry {
            text: "x".to_string(),
            rot: Scalar { bits: (-999.0f32).to_bits() },
            ..SubtitleEntry::new(7, 3)
        }],
        sub_outline_w: 99,
        music_volume: -1,
        ..Default::default()
    };
    let there = facts(&[("1.jpg", true), ("2.jpg", true)]);
    e.load_project("/a.p2v", &p, &there, false, &mut Vec::new());
    let once = e.project_data("1");
    assert_eq!((once.fps, once.adj.exposure, once.music_volume), (1, -100, 0));
    assert_eq!((once.adj_overrides[0].1.whites, once.sub_outline_w), (100, 8));
    assert_eq!((once.sub_entries[0].start, once.sub_entries[0].end), (2, 2));
    e.load_project("/a.p2v", &once, &there, false, &mut Vec::new());
    let twice = e.project_data("1");
    assert_eq!(once.photos, twice.photos);
    assert_eq!(once.fps, twice.fps);
    assert_eq!(once.adj, twice.adj);
    assert_eq!(once.adj_overrides, twice.adj_overrides);
    assert_eq!(once.sub_entries[0].rot, twice.sub_entries[0].rot);
    assert_eq!(once.sub_entries[0].start, twice.sub_entries[0].start);
    assert_eq!(once.sub_outline_w, twice.sub_outline_w);
    assert_eq!(once.sub_font, twice.sub_font);
}

#[test]
fn opening_equals_removing_the_missing_photos() {
    let caption = |start, end| SubtitleEntry {
        text: format!("{start}-{end}"),
        ..SubtitleEntry::new(start, end)
    };
    let names = ["1.jpg", "2.jpg", "3.jpg", "4.jpg", "5.jpg"];
    let p = ProjectFile {
        photos: names.iter().map(|n| format!("/p/{n}")).collect(),
        sub_entries: (1..=5).flat_map(|s| (s..=5).map(move |e| caption(s, e))).collect(),
        ..Default::default()
    };
    for missing in 0..32usize {
        let there = |i: usize| missing >> i & 1 == 0;
        let all: Vec<(&str, bool)> = names.iter().map(|n| (*n, true)).collect();
        let some: Vec<(&str, bool)> =
            names.iter().enumerate().map(|(i, n)| (*n, there(i))).collect();
        let mut opened = editor(&[]);
        opened.load_project("/a.p2v", &p, &facts(&some), false, &mut Vec::new());
        let mut one_by_one = editor(&[]);
        one_by_one.load_project("/a.p2v", &p, &facts(&all), false, &mut Vec::new());
        for i in (0..5).rev().filter(|i| !there(*i)) {
            one_by_one.remove_photo(i);
        }
        assert_eq!(opened.photos, one_by_one.photos);
        let ranges = |e: &Editor| -> Vec<(usize, usize, String)> {
            e.captions.entries.iter().map(|c| (c.start, c.end, c.text.clone())).collect()
        };
        assert_eq!(ranges(&opened), ranges(&one_by_one));
    }
}
