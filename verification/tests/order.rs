use photo2video::order::natural_sort;

fn sorted(names: &[&str]) -> Vec<String> {
    let mut v: Vec<String> = names.iter().map(|s| s.to_string()).collect();
    natural_sort(&mut v);
    v
}

#[test]
fn numbers_are_ordered_by_value() {
    assert_eq!(sorted(&["img10.jpg", "img2.jpg", "img1.jpg"]), ["img1.jpg", "img2.jpg", "img10.jpg"]);
}

#[test]
fn case_does_not_matter_and_equal_keys_keep_their_order() {
    assert_eq!(sorted(&["B2", "a10", "A9", "b2"]), ["A9", "a10", "B2", "b2"]);
    assert_eq!(sorted(&["x01", "x1", "x001"]), ["x01", "x1", "x001"]);
}

#[test]
fn numbers_come_before_text() {
    assert_eq!(sorted(&["a", "1", "", "2a"]), ["", "1", "2a", "a"]);
}

#[test]
fn sorting_again_changes_nothing() {
    let once = sorted(&["p12", "p3", "q1", "p100", "Ä5"]);
    let mut twice = once.clone();
    natural_sort(&mut twice);
    assert_eq!(once, twice);
}

#[test]
fn numbers_too_large_for_the_key_count_as_zero() {
    let huge = "9".repeat(60);
    assert_eq!(sorted(&[&format!("a{huge}"), "a1", "a0"]), [format!("a{huge}"), "a0".to_string(), "a1".to_string()]);
}
