use photo2video::install::{Found, Install, InstallStage};
use photo2video::saving::{SaveStep, Saving};

#[test]
fn release_takes_the_place_of_the_program() {
    let mut i = Install::new();
    assert_eq!(i.stage, InstallStage::Inspect);
    i.inspected(Found::Head(b"MZ".to_vec()));
    assert_eq!(i.stage, InstallStage::SetAside);
    i.after(None);
    assert_eq!(i.stage, InstallStage::PutInPlace);
    i.after(None);
    assert_eq!(i.stage, InstallStage::Over);
    assert_eq!(i.error, None);
}

#[test]
fn other_files_are_not_installed() {
    let mut i = Install::new();
    i.inspected(Found::Head(b"<h".to_vec()));
    assert_eq!(i.stage, InstallStage::Over);
    assert_eq!(i.error.as_deref(), Some("下載的檔案不是有效的執行檔"));
    assert!(i.discard);
    let mut i = Install::new();
    i.inspected(Found::Unreadable("x".to_string()));
    assert_eq!(i.error.as_deref(), Some("暫存檔讀取失敗：x"));
    assert!(!i.discard);
}

#[test]
fn old_program_is_restored() {
    let mut i = Install::new();
    i.inspected(Found::Head(b"MZ".to_vec()));
    i.after(Some("locked".to_string()));
    assert_eq!(i.stage, InstallStage::Over);
    assert_eq!(i.error.as_deref(), Some("無法替換舊版程式：locked"));
    let mut i = Install::new();
    i.inspected(Found::Head(b"MZ".to_vec()));
    i.after(None);
    i.after(Some("gone".to_string()));
    assert_eq!(i.stage, InstallStage::Restore);
    i.after(None);
    assert_eq!(i.stage, InstallStage::Over);
    assert_eq!(i.error.as_deref(), Some("無法安裝新版程式：gone"));
}

#[test]
fn files_are_saved_by_way_of_a_draft() {
    let mut s = Saving::new(true);
    assert_eq!(s.step, SaveStep::Write);
    s.after(None);
    assert_eq!(s.step, SaveStep::Replace);
    s.after(None);
    assert_eq!((s.step, s.error), (SaveStep::Done, None));
    let mut s = Saving::new(true);
    s.after(Some("full".to_string()));
    assert_eq!(s.step, SaveStep::Discard);
    s.after(None);
    assert_eq!(s.step, SaveStep::Done);
    assert_eq!(s.error.as_deref(), Some("full"));
    let mut s = Saving::new(false);
    s.after(Some("full".to_string()));
    assert_eq!(s.step, SaveStep::Done);
    let mut s = Saving::new(false);
    s.after(None);
    s.after(Some("locked".to_string()));
    assert_eq!(s.step, SaveStep::Discard);
}
