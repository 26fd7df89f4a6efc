use photo2video::editor::{Editor, PickedFile, Thumb};
use photo2video::thumbs::{manage_thumbs, on_thumb};

fn editor(n: usize) -> Editor {
    let mut e = Editor::new(None, Vec::new(), Vec::new());
    let files: Vec<PickedFile> = (0..n)
        .map(|i| PickedFile { path: format!("/p/{i}.jpg"), name: format!("{i}.jpg") })
        .collect();
    e.add_photos(&files);
    e
}

#[test]
fn visible_thumbnails_come_first() {
    let mut e = editor(300);
    let mut jobs = vec!["/old.jpg".to_string()];
    manage_thumbs(&e.photos, &mut e.thumbs, &mut jobs, 100, 104);
    assert_eq!(jobs[0], "/p/100.jpg");
    assert_eq!(jobs[3], "/p/103.jpg");
    assert_eq!(jobs[4], "/p/104.jpg");
    assert_eq!(jobs[67], "/p/167.jpg");
    assert_eq!(jobs[68], "/p/36.jpg");
    assert_eq!(jobs[131], "/p/99.jpg");
    assert_eq!(jobs.len(), 132, "the far one was given up");
    assert_eq!(e.thumbs.get("/p/100.jpg"), Some(&Thumb::Loading));
    assert_eq!(e.thumbs.get("/p/200.jpg"), None);
}

#[test]
fn nothing_is_asked_for_twice() {
    let mut e = editor(10);
    let mut jobs = Vec::new();
    manage_thumbs(&e.photos, &mut e.thumbs, &mut jobs, 0, 3);
    assert_eq!(jobs.len(), 10);
    let before = jobs.clone();
    manage_thumbs(&e.photos, &mut e.thumbs, &mut jobs, 0, 3);
    assert_eq!(jobs, before);
}

#[test]
fn far_thumbnails_are_evicted() {
    let mut e = editor(1000);
    let mut jobs = Vec::new();
    for p in e.photos.clone() {
        e.thumbs.insert(p, Thumb::Ready);
    }
    manage_thumbs(&e.photos, &mut e.thumbs, &mut jobs, 500, 510);
    assert_eq!(e.thumbs.get("/p/243.jpg"), None);
    assert_eq!(e.thumbs.get("/p/244.jpg"), Some(&Thumb::Ready));
    assert_eq!(e.thumbs.get("/p/765.jpg"), Some(&Thumb::Ready));
    assert_eq!(e.thumbs.get("/p/766.jpg"), None);
    assert_eq!(e.thumbs.len(), 522);
}

#[test]
fn late_thumbnails_do_not_count() {
    let mut e = editor(3);
    let mut jobs = Vec::new();
    manage_thumbs(&e.photos, &mut e.thumbs, &mut jobs, 0, 3);
    assert!(on_thumb(&mut e.thumbs, "/p/0.jpg", true));
    assert!(!on_thumb(&mut e.thumbs, "/p/0.jpg", true));
    assert!(!on_thumb(&mut e.thumbs, "/p/1.jpg", false));
    assert_eq!(e.thumbs.get("/p/1.jpg"), Some(&Thumb::Failed));
    e.remove_photo(2);
    assert!(!on_thumb(&mut e.thumbs, "/p/2.jpg", true));
    assert_eq!(e.thumbs.get("/p/2.jpg"), None);
}

#[test]
fn finished_thumbnails_do_not_pile_up() {
    let mut e = editor(2000);
    let mut jobs = Vec::new();
    for first in (0..1990).step_by(10) {
        manage_thumbs(&e.photos, &mut e.thumbs, &mut jobs, first, first + 10);
        for photo in std::mem::take(&mut jobs) {
            on_thumb(&mut e.thumbs, &photo, true);
        }
        let ready = e.photos.iter().filter(|p| e.thumbs.get(p) == Some(&Thumb::Ready)).count();
        assert!(ready <= 10 + 2 * 256 + 192 + 138, "{ready}");
    }
}
