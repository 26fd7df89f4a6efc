use photo2video::scalar::Scalar;
use photo2video::update::{UpdateMsg, UpdateStatus, Updater};

#[test]
fn newer_release_is_announced_until_dismissed() {
    let mut u = Updater::new();
    assert!(!u.is_busy());
    assert!(u.begin_check());
    assert!(!u.begin_check(), "one check at a time");
    assert!(!u.poll(&vec![UpdateMsg::Newer(Some("v9".to_string()))], true, false));
    assert_eq!(u.banner().as_deref(), Some("v9"));
    assert!(!u.listening);
    u.dismissed = true;
    assert_eq!(u.banner(), None);
}

#[test]
fn failed_check_is_silent_and_can_be_repeated() {
    let mut u = Updater::new();
    u.begin_check();
    u.poll(&vec![UpdateMsg::CheckFailed("offline".to_string())], true, false);
    assert!(matches!(&u.status, UpdateStatus::Failed(e) if e == "offline"));
    assert_eq!(u.banner(), None);
    assert_eq!(u.download_error, None);
    assert!(u.check_again());
    u.poll(&vec![UpdateMsg::Newer(None)], false, false);
    assert!(matches!(u.status, UpdateStatus::UpToDate));
}

#[test]
fn fetched_release_waits_for_the_conversion() {
    let mut u = Updater::new();
    assert!(u.begin_download());
    assert!(!u.begin_download());
    let half = Scalar { bits: 0.5f32.to_bits() };
    assert!(!u.poll(&vec![UpdateMsg::Progress(half)], false, false));
    assert!(matches!(u.status, UpdateStatus::Downloading(p) if p == half));
    assert!(!u.poll(&vec![UpdateMsg::Ready], false, true));
    assert!(matches!(u.status, UpdateStatus::ReadyToRestart));
    assert!(u.is_busy() && !u.begin_check(), "the restart is not forgotten");
    let mut u = Updater::new();
    u.begin_download();
    assert!(u.poll(&vec![UpdateMsg::Ready], false, false));
}

#[test]
fn failed_download_is_told() {
    let mut u = Updater::new();
    u.begin_download();
    u.poll(&vec![UpdateMsg::Failed("disk".to_string())], true, false);
    assert_eq!(u.download_error.as_deref(), Some("disk"));
    assert!(matches!(&u.status, UpdateStatus::Failed(e) if e == "disk"));
}

#[test]
fn lost_update_is_noticed() {
    let mut u = Updater::new();
    u.begin_check();
    u.poll(&Vec::new(), true, false);
    assert!(matches!(&u.status, UpdateStatus::Failed(e) if e == "更新程序異常中斷"));
    assert!(!u.listening && !u.is_busy());
}

#[test]
fn state_is_told_in_the_about_window() {
    let mut u = Updater::new();
    assert_eq!(u.about_line(""), None);
    u.status = UpdateStatus::Checking;
    assert_eq!(u.about_line("").as_deref(), Some("檢查更新中…"));
    u.status = UpdateStatus::UpToDate;
    assert_eq!(u.about_line("").as_deref(), Some("✔ 目前已是最新版本"));
    u.status = UpdateStatus::Available("v2".to_string());
    assert_eq!(u.about_line("").as_deref(), Some("⬆ 有新版本 v2 可以下載"));
    u.status = UpdateStatus::Downloading(Scalar { bits: 0 });
    assert_eq!(u.about_line("37").as_deref(), Some("正在下載更新… 37%"));
    u.status = UpdateStatus::ReadyToRestart;
    assert_eq!(u.about_line("").as_deref(), Some("✔ 新版已下載完成"));
    u.status = UpdateStatus::Failed("x".to_string());
    assert_eq!(u.about_line("").as_deref(), Some("✖ 更新失敗"));
}
