use photo2video::caption::{has_caption, remove_photo_number, shift_selection, SubtitleEntry};
use photo2video::captions::Captions;
use photo2video::scalar::Scalar;

fn entry(start: usize, end: usize, text: &str) -> SubtitleEntry {
    SubtitleEntry { text: text.to_string(), ..SubtitleEntry::new(start, end) }
}

fn sc(v: f32) -> Scalar {
    Scalar { bits: v.to_bits() }
}

fn names(v: &[&str]) -> Vec<String> {
    v.iter().map(|s| s.to_string()).collect()
}

#[test]
fn new_captions_stand_in_the_lower_middle() {
    let e = SubtitleEntry::new(2, 5);
    assert_eq!((e.start, e.end, e.text.as_str(), e.size), (2, 5, "", 48));
    assert_eq!((e.x, e.y, e.rot), (sc(0.5), sc(0.85), sc(0.0)));
    let d = SubtitleEntry::default();
    assert_eq!((d.start, d.end), (1, 1));
}

#[test]
fn captions_are_seen_on_their_photos() {
    let e = entry(2, 4, "hi");
    assert!(!e.visible_on(1));
    assert!(e.visible_on(2) && e.visible_on(4));
    assert!(!e.visible_on(5));
    assert!(!entry(2, 4, " \n").visible_on(3));
    let list = vec![entry(1, 1, " "), entry(3, 3, "x")];
    assert!(!has_caption(&list, 1));
    assert!(has_caption(&list, 3));
}

#[test]
fn captions_move_up_with_their_photos() {
    let mut e = entry(2, 4, "x");
    assert!(e.shift(1));
    assert_eq!((e.start, e.end), (1, 3));
    assert!(e.shift(3));
    assert_eq!((e.start, e.end), (1, 2));
    assert!(e.shift(9));
    assert_eq!((e.start, e.end), (1, 2));
    assert!(e.shift(1));
    assert!(!e.shift(1), "it covers nothing any more");
}

#[test]
fn selection_follows_removed_captions() {
    assert_eq!(shift_selection(Some(2), 1), Some(1));
    assert_eq!(shift_selection(Some(1), 1), None);
    assert_eq!(shift_selection(Some(0), 1), Some(0));
    assert_eq!(shift_selection(None, 1), None);
    let mut list = vec![entry(2, 2, "gone"), entry(1, 3, "shorter"), entry(3, 3, "moved")];
    let sel = remove_photo_number(&mut list, Some(2), 2);
    assert_eq!(sel, Some(1));
    assert_eq!(list.len(), 2);
    assert_eq!((list[0].start, list[0].end), (1, 2));
    assert_eq!((list[1].start, list[1].end, list[1].text.as_str()), (2, 2, "moved"));
}

#[test]
fn values_are_moved_into_their_ranges() {
    let mut e = entry(4, 2, "x");
    e.x = sc(-3.0);
    e.y = sc(2.0);
    e.size = 999;
    e.rot = sc(-270.0);
    e.clamp_values();
    assert_eq!((e.x, e.y, e.size, e.rot), (sc(0.0), sc(1.0), 300, sc(-180.0)));
    e.mend_range();
    assert!(e.start <= e.end);
}

#[test]
fn captions_follow_reordered_photos() {
    let mut c = Captions::new(Vec::new());
    c.entries.push(entry(2, 2, "b"));
    c.entries.push(entry(1, 9, "a to nothing"));
    c.follow_photos(&names(&["a", "b"]), &names(&["0", "a", "aa", "b"]));
    assert_eq!((c.entries[0].start, c.entries[0].end), (4, 4));
    assert_eq!((c.entries[1].start, c.entries[1].end), (2, 9));
}

#[test]
fn removing_a_new_caption_leaves_the_others() {
    let mut c = Captions::new(Vec::new());
    c.add_text(1, 3);
    c.entries[0].text = "one".to_string();
    c.add_text(2, 2);
    assert_eq!(c.selected, Some(1));
    c.remove_text(1);
    assert_eq!(c.selected, None);
    assert_eq!(c.entries.len(), 1);
    assert_eq!(c.visible_on(2), vec![0]);
    c.selected = Some(0);
    c.follow_removal(0);
    assert_eq!((c.entries[0].start, c.entries[0].end, c.selected), (1, 2, Some(0)));
    c.follow_removal(0);
    c.follow_removal(0);
    assert!(c.entries.is_empty());
    assert_eq!(c.selected, None);
}
