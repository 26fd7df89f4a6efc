use photo2video::adjust::Adjustments;
use photo2video::base_cache::{attempts, BaseCache, BaseKey, BaseRole, CAPACITY};
use photo2video::graph::preview_filter;

fn key(photo: &str) -> BaseKey {
    BaseKey { photo: photo.to_string(), changed: Some(5), w: 960, h: 540 }
}

#[test]
fn copies_are_begun_stored_and_found() {
    let mut c = BaseCache::new();
    assert!(matches!(c.lookup(&key("a")), BaseRole::Absent));
    let job = c.reserve(key("a")).unwrap();
    assert_eq!(job.serial, 0);
    assert_eq!(job.remove, None);
    assert!(matches!(c.lookup(&key("a")), BaseRole::Pending));
    assert!(c.reserve(key("a")).is_none());
    assert!(!c.store(&key("a"), 7, "x.bmp"));
    assert!(c.store(&key("a"), 0, "a.bmp"));
    assert!(matches!(c.lookup(&key("a")), BaseRole::Cached(f) if f == "a.bmp"));
    assert!(matches!(
        c.lookup(&BaseKey { changed: None, ..key("a") }),
        BaseRole::Absent
    ));
    assert!(matches!(c.lookup(&BaseKey { h: 541, ..key("a") }), BaseRole::Absent));
}

#[test]
fn least_recently_used_copy_goes() {
    let mut c = BaseCache::new();
    for p in ["a", "b", "c", "d"] {
        let job = c.reserve(key(p)).unwrap();
        c.store(&key(p), job.serial, &format!("{p}.bmp"));
    }
    c.lookup(&key("a"));
    let job = c.reserve(key("e")).unwrap();
    assert_eq!(job.remove.as_deref(), Some("b.bmp"));
    assert_eq!(job.serial, 4);
    assert_eq!(c.items.len(), CAPACITY);
    assert!(matches!(c.lookup(&key("b")), BaseRole::Absent));
    assert!(matches!(c.lookup(&key("a")), BaseRole::Cached(_)));
}

#[test]
fn discarded_copies_are_gone() {
    let mut c = BaseCache::new();
    let job = c.reserve(key("a")).unwrap();
    c.store(&key("a"), job.serial, "a.bmp");
    assert_eq!(c.discard(&key("a")).as_deref(), Some("a.bmp"));
    assert_eq!(c.discard(&key("a")), None);
    assert!(!c.store(&key("a"), job.serial, "a.bmp"));
}

#[test]
fn photo_is_rendered_where_its_copy_fails() {
    let adj = Adjustments { clarity: 10, ..Default::default() };
    let ways = attempts(&BaseRole::Cached("c.bmp".to_string()), "p.jpg", &adj, 7, 960, 540);
    assert_eq!(ways.len(), 2);
    assert_eq!(ways[0].input, "c.bmp");
    assert_eq!(ways[0].filter, preview_filter(&adj, 7, 960, 540, true));
    assert_eq!(ways[1].input, "p.jpg");
    assert_eq!(ways[1].filter, preview_filter(&adj, 7, 960, 540, false));
    assert_eq!(attempts(&BaseRole::Pending, "p.jpg", &adj, 7, 960, 540).len(), 1);
    assert_eq!(attempts(&BaseRole::Absent, "p.jpg", &adj, 7, 960, 540)[0].input, "p.jpg");
}
