use photo2video::config::{
    checked_fps, forget_recent_project, load_recent_projects, remember_recent_project, saved_fps,
    with_fps, with_recent_projects,
};

fn list(names: &[&str]) -> Vec<String> {
    names.iter().map(|s| s.to_string()).collect()
}

#[test]
fn frame_rate_is_read_from_the_settings() {
    assert_eq!(saved_fps("{\"fps\": 24}"), Some(24));
    assert_eq!(saved_fps("{\"fps\": 0}"), None);
    assert_eq!(saved_fps("{\"fps\": 61}"), None);
    assert_eq!(saved_fps("{\"fps\": \"24\"}"), None);
    assert_eq!(saved_fps("{\"fps\": 2.5}"), None);
    assert_eq!(saved_fps("{}"), None);
    assert_eq!(saved_fps("[24]"), None);
    assert_eq!(saved_fps("not json"), None);
    assert_eq!(checked_fps(60), Some(60));
    assert_eq!(checked_fps(1), Some(1));
    assert_eq!(checked_fps(61), None);
    assert_eq!(checked_fps(4294967306), None);
    assert_eq!(saved_fps("{\"fps\":4294967306}"), None);
}

#[test]
fn recent_projects_are_read_from_the_settings() {
    assert_eq!(
        load_recent_projects("{\"recent_projects\": [\"a\", 7, null, \"b\"]}"),
        list(&["a", "b"])
    );
    assert_eq!(load_recent_projects("{\"recent_projects\": \"a\"}"), list(&[]));
    assert_eq!(load_recent_projects("broken"), list(&[]));
}

#[test]
fn written_settings_read_back_and_leave_the_rest() {
    let txt = with_fps("{\"recent_projects\": [\"a\"], \"other\": 1}", 12);
    assert_eq!(saved_fps(&txt), Some(12));
    assert_eq!(load_recent_projects(&txt), list(&["a"]));
    assert!(txt.contains("\"other\":1"));
    let txt = with_recent_projects(&txt, &list(&["x", "y"]));
    assert_eq!(load_recent_projects(&txt), list(&["x", "y"]));
    assert_eq!(saved_fps(&txt), Some(12));
}

#[test]
fn broken_settings_are_replaced() {
    for bad in ["", "[1,2]", "3", "{\"fps\":"] {
        let txt = with_fps(bad, 30);
        assert_eq!(txt, "{\"fps\":30}");
    }
}

#[test]
fn recent_list_is_short_and_distinct() {
    let mut l = list(&["b", "A", "c"]);
    remember_recent_project(&mut l, "a");
    assert_eq!(l, list(&["a", "b", "c"]));
    for i in 0..12 {
        remember_recent_project(&mut l, &format!("p{i}"));
    }
    assert_eq!(l.len(), 8);
    assert_eq!(l[0], "p11");
    assert_eq!(l[7], "p4");
    forget_recent_project(&mut l, "P11");
    assert_eq!(l[0], "p10");
    assert_eq!(l.len(), 7);
}

#[test]
fn other_settings_are_kept() {
    let txt = "{\"note\":\"a\\u00e9\\n\",\"n\":7,\"list\":[\"x\"]}";
    let with = with_recent_projects(&with_fps(txt, 24), &list(&["/a.p2v"]));
    let value: serde_json::Value = serde_json::from_str(&with).unwrap();
    assert_eq!(value["note"].as_str(), Some("a\u{e9}\n"));
    assert_eq!(value["n"].as_u64(), Some(7));
    assert_eq!(value["list"][0].as_str(), Some("x"));
    assert_eq!(saved_fps(&with), Some(24));
}
