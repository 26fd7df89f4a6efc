use photo2video::actions::{collect_images, find_project, DroppedItem, FolderItem};
use photo2video::adjust::Adjustments;
use photo2video::conversion::ConvertState;
use photo2video::editor::{Editor, PickedFile, Thumb};
use photo2video::options::{OutputFormat, Resolution};

fn file(path: &str) -> PickedFile {
    PickedFile {
        path: path.to_string(),
        name: path.rsplit('/').next().unwrap_or("").to_string(),
    }
}

fn files(paths: &[&str]) -> Vec<PickedFile> {
    paths.iter().map(|p| file(p)).collect()
}

fn editor(paths: &[&str]) -> Editor {
    let mut e = Editor::new(None, vec!["F".to_string()], Vec::new());
    e.add_photos(&files(paths));
    e
}

#[test]
fn photos_come_once_and_in_natural_order() {
    let mut e = editor(&["/p/10.jpg", "/p/2.png", "/p/x.txt"]);
    e.add_photos(&files(&["/P/2.PNG", "/p/1.webp"]));
    assert_eq!(e.photos, ["/p/1.webp", "/p/2.png", "/p/10.jpg"]);
    assert_eq!(e.preview.selected, Some(1), "the shown photo stays shown");
    assert!(e.preview.dirty);
    assert_eq!(e.settings.fps, 10);
}

#[test]
fn capital_letters_beyond_ascii_are_lowered() {
    let mut e = editor(&["/p/Ä.jpg"]);
    e.add_photos(&files(&["/p/ä.jpg"]));
    assert_eq!(e.photos, ["/p/Ä.jpg"]);
}

#[test]
fn captions_stay_on_their_photos_when_photos_come() {
    let mut e = editor(&["/p/5.jpg", "/p/6.jpg"]);
    e.preview.select(Some(1));
    e.add_text();
    assert_eq!((e.captions.entries[0].start, e.captions.entries[0].end), (2, 2));
    e.add_photos(&files(&["/p/1.jpg"]));
    assert_eq!((e.captions.entries[0].start, e.captions.entries[0].end), (3, 3));
    assert_eq!(e.preview.selected, Some(2));
}

#[test]
fn removed_photo_leaves_nothing_behind() {
    let mut e = editor(&["/p/1.jpg", "/p/2.jpg", "/p/3.jpg"]);
    e.thumbs.insert("/p/2.jpg".to_string(), Thumb::Ready);
    e.toggle_photo(1);
    e.apply_adjustments(Adjustments { brightness: 9, ..Default::default() }, false);
    e.sizes.record("/p/2.jpg", Some((10, 10)));
    e.remove_photo(1);
    assert_eq!(e.photos, ["/p/1.jpg", "/p/3.jpg"]);
    assert_eq!(e.preview.selected, Some(1));
    assert!(!e.looks.chosen.contains("/p/2.jpg"));
    assert!(e.looks.overrides.get("/p/2.jpg").is_none());
    assert!(e.sizes.known.get("/p/2.jpg").is_none());
    assert!(e.thumbs.get("/p/2.jpg").is_none());
    e.remove_photo(1);
    e.remove_photo(0);
    assert_eq!(e.preview.selected, None);
}

#[test]
fn clearing_takes_everything_away() {
    let mut e = editor(&["/p/1.jpg"]);
    e.add_text();
    e.job.state = ConvertState::Done("x".to_string());
    let mut jobs = vec!["/p/1.jpg".to_string()];
    e.clear_photos(&mut jobs);
    assert!(jobs.is_empty() && e.photos.is_empty() && e.captions.entries.is_empty());
    assert_eq!(e.preview.selected, None);
    assert!(matches!(e.job.state, ConvertState::Idle));
    e.settings.fps = 24;
    e.settings.ken_burns = true;
    e.projects.current = Some("/a.p2v".to_string());
    e.new_project(&mut jobs);
    assert_eq!(e.settings.fps, 24);
    assert!(!e.settings.ken_burns);
    assert_eq!(e.projects.current, None);
}

#[test]
fn only_the_newest_picture_is_rendered() {
    let mut e = editor(&["/p/1.jpg", "/p/2.jpg", "/p/3.jpg"]);
    assert!(e.next_prefetch().is_empty(), "the shown photo comes first");
    let job = e.next_render().unwrap();
    assert_eq!(job.photo, "/p/1.jpg");
    assert!(e.next_render().is_none(), "one at a time");
    e.step_on();
    assert!(!e.on_rendered("/p/1.jpg", None), "another photo is shown now");
    let job = e.next_render().unwrap();
    assert_eq!(job.photo, "/p/2.jpg");
    assert!(e.on_rendered("/p/2.jpg", None));
    assert!(e.preview.ready);
    assert_eq!(e.next_prefetch(), ["/p/1.jpg", "/p/3.jpg"]);
    assert!(e.next_prefetch().is_empty(), "once for each photo");
    e.preview.mark_dirty();
    e.next_render();
    assert!(!e.on_rendered("/p/2.jpg", Some("bad".to_string())));
    assert_eq!(e.preview.error.as_deref(), Some("bad"));
    e.preview.on_render_lost();
    assert_eq!(e.preview.error.as_deref(), Some("預覽渲染異常中斷"));
}

#[test]
fn keys_step_through_the_photos() {
    let mut e = editor(&["/p/1.jpg", "/p/2.jpg"]);
    e.step_back();
    assert_eq!(e.preview.selected, Some(0));
    assert!(!e.preview.scroll);
    e.arrow_keys(false, true);
    assert_eq!(e.preview.selected, Some(1));
    assert!(e.preview.scroll);
    e.step_on();
    assert_eq!(e.preview.selected, Some(1));
    e.step_back();
    assert_eq!(e.preview.selected, Some(0), "a step back undoes a step on");
    assert_eq!(e.preview.current_index(), 0);
}

#[test]
fn clicks_select_photos() {
    let mut e = editor(&["/p/1.jpg", "/p/2.jpg", "/p/3.jpg", "/p/4.jpg"]);
    e.thumb_clicked(1, false, false);
    e.thumb_clicked(3, false, true);
    assert_eq!(e.looks.chosen.len(), 3);
    assert!(!e.looks.chosen.contains("/p/1.jpg"));
    e.thumb_clicked(2, true, false);
    assert!(!e.looks.chosen.contains("/p/3.jpg"));
    e.thumb_clicked(2, true, false);
    assert!(e.looks.chosen.contains("/p/3.jpg"), "twice changes nothing");
    e.thumb_clicked(0, false, false);
    assert!(e.looks.chosen.is_empty());
}

#[test]
fn adjustments_reach_the_selected_photos_only() {
    let mut e = editor(&["/p/1.jpg", "/p/2.jpg", "/p/3.jpg"]);
    e.apply_adjustments(Adjustments { brightness: 10, ..Default::default() }, false);
    e.toggle_photo(0);
    assert_eq!(e.looks.slider_values().brightness, 10);
    let work = Adjustments { brightness: 10, contrast: 7, ..Default::default() };
    e.apply_adjustments(work, false);
    assert_eq!(e.looks.effective_adj("/p/1.jpg"), work);
    assert_eq!(e.looks.effective_adj("/p/2.jpg").contrast, 0);
    e.toggle_photo(1);
    let all_warm = Adjustments { saturation: 5, ..e.looks.slider_values() };
    e.apply_adjustments(all_warm, false);
    assert_eq!(e.looks.effective_adj("/p/1.jpg").saturation, 5);
    assert_eq!(e.looks.effective_adj("/p/1.jpg").contrast, 7);
    assert_eq!(e.looks.effective_adj("/p/2.jpg").saturation, 5);
    assert_eq!(e.looks.effective_adj("/p/2.jpg").contrast, 0, "its own values stay");
    assert_eq!(e.looks.effective_adj("/p/3.jpg").saturation, 0);
    e.unpin_adjustments();
    assert_eq!(e.looks.effective_adj("/p/1.jpg"), e.looks.adj);
    e.apply_adjustments(Adjustments::default(), true);
    assert_eq!(e.looks.effective_adj("/p/2.jpg"), Adjustments::default());
    assert_eq!(e.looks.effective_adj("/p/3.jpg").brightness, 10);
}

#[test]
fn settings_of_the_video_are_noted() {
    let mut e = editor(&["/p/1.jpg"]);
    e.next_render();
    e.set_output(10, OutputFormat::Webm, e.settings.resolution);
    assert!(!e.panels.fps_unsaved && !e.preview.dirty);
    e.set_output(12, OutputFormat::Webm, Resolution { w: 1280, h: 720 });
    assert!(e.panels.fps_unsaved && e.preview.dirty);
    assert!(e.can_convert() && e.can_save());
    e.job.begin("o.webm");
    assert!(!e.can_convert() && !e.can_save());
}

#[test]
fn imports_tell_when_nothing_was_found() {
    let mut e = editor(&[]);
    e.pick_files(&files(&["/p/a.txt"]));
    assert!(e.panels.import_found_nothing);
    e.pick_files(&files(&["/p/a.jpg"]));
    assert!(!e.panels.import_found_nothing);
    e.pick_folder(&files(&[]));
    assert!(e.panels.import_found_nothing);
}

#[test]
fn folders_give_their_images() {
    let items: Vec<FolderItem> = [("/d/b.jpg", true), ("/d/sub.jpg", false), ("/d/c.txt", true)]
        .iter()
        .map(|(p, is_file)| FolderItem { file: file(p), is_file: *is_file })
        .collect();
    let found = collect_images(&items);
    assert_eq!(found.len(), 1);
    assert_eq!(found[0].path, "/d/b.jpg");
    assert_eq!(find_project(&files(&["/a.jpg", "/b.P2V", "/c.p2v"])).as_deref(), Some("/b.P2V"));
}

#[test]
fn dropped_things_are_sorted_out() {
    let mut e = editor(&[]);
    let dropped = |p: &str, inside: Option<&[&str]>| DroppedItem {
        file: file(p),
        is_dir: inside.is_some(),
        inside: files(inside.unwrap_or(&[])),
    };
    e.panels.fx_open = false;
    let r = e.drop_items(&vec![
        dropped("/m.mp3", None),
        dropped("/d", Some(&["/d/2.jpg"])),
        dropped("/1.jpg", None),
    ]);
    assert_eq!(r, None);
    assert_eq!(e.photos, ["/1.jpg", "/d/2.jpg"]);
    assert_eq!(e.settings.music_path.as_deref(), Some("/m.mp3"));
    assert!(e.panels.fx_open && !e.panels.import_found_nothing);
    let r = e.drop_items(&vec![dropped("/3.jpg", None), dropped("/x.p2v", None)]);
    assert_eq!(r.as_deref(), Some("/x.p2v"));
    assert_eq!(e.photos.len(), 2, "a project is opened instead");
    e.drop_items(&vec![dropped("/m.mp3", None)]);
    assert!(!e.panels.import_found_nothing);
    e.drop_items(&vec![dropped("/x.doc", None)]);
    assert!(e.panels.import_found_nothing);
    assert_eq!(e.open_initial(&files(&["/x.jpg"])), None);
    assert_eq!(e.photos.len(), 3);
}

#[test]
fn menu_does_nothing_while_converting() {
    let mut e = editor(&["/p/1.jpg", "/p/2.jpg"]);
    let mut jobs = Vec::new();
    e.job.begin("o");
    e.remove_from_menu(true, None, &mut jobs);
    assert_eq!(e.photos.len(), 2);
    e.job.state = ConvertState::Idle;
    e.remove_from_menu(false, Some(0), &mut jobs);
    assert_eq!(e.photos, ["/p/2.jpg"]);
    e.remove_from_menu(true, None, &mut jobs);
    assert!(e.photos.is_empty());
}

#[test]
fn video_takes_the_size_of_the_photos() {
    let mut e = editor(&["/p/1.jpg", "/p/2.jpg", "/p/3.jpg"]);
    assert_eq!(e.resolved_resolution(), e.settings.resolution);
    e.settings.resolution = Resolution { w: 0, h: 0 };
    assert_eq!(e.sizes.unknown(e.settings.resolution, &e.photos).len(), 3);
    e.sizes.record("/p/1.jpg", Some((101, 50)));
    e.sizes.record("/p/2.jpg", Some((80, 77)));
    e.sizes.record("/p/3.jpg", None);
    assert!(e.sizes.unknown(e.settings.resolution, &e.photos).is_empty());
    assert_eq!(e.resolved_resolution(), Resolution { w: 100, h: 76 });
    e.remove_photo(0);
    assert_eq!(e.resolved_resolution(), Resolution { w: 80, h: 76 });
    e.remove_photo(0);
    assert_eq!(e.resolved_resolution(), Resolution { w: 1920, h: 1080 });
    assert_eq!(photo2video::sizes::upright_size(6, 4, 3), (3, 4));
    assert_eq!(photo2video::sizes::upright_size(3, 4, 3), (4, 3));
}
