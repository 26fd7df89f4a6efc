//! What the user reads in the window.

use crate::files::{stem, stem_of};
use crate::text::{dec, dec_int, push_dec, push_int, text_view};
use crate::update::{StatusView, UpdateStatus, Updater};
use vstd::prelude::*;

verus! {

/// A number beside its slider: with a sign unless it is zero.
pub open spec fn signed(n: int) -> Seq<char> {
    if n > 0 {
        "+"@ + dec_int(n)
    } else {
        dec_int(n)
    }
}

/// A number beside its slider: with a sign unless it is zero.
pub fn signed_text(n: i32) -> (r: String)
    ensures
        r@ == signed(n as int),
{
    let mut r: String = String::new();
    if n > 0 {
        r = "+".to_owned();
    }
    push_int(&mut r, n as i64);
    assert(n <= 0 ==> r@ =~= dec_int(n as int));
    r
}

/// The title of the section on adjustments: how many photos are selected, if any.
pub fn adjust_title(selected: usize) -> (r: String)
    ensures
        r@ == (if selected > 0 {
            "調色（選取 "@ + dec(selected as nat) + " 張）"@
        } else {
            "調色"@
        }),
{
    if selected > 0 {
        let mut r: String = "調色（選取 ".to_owned();
        push_dec(&mut r, selected as u128);
        r.append(" 張）");
        r
    } else {
        "調色".to_owned()
    }
}

/// What is said of whom the adjustments reach.
pub fn adjust_hint(selected: bool) -> (r: &'static str)
    ensures
        r@ == (if selected {
            "只套用到選取的照片；Ctrl+點縮圖增減選取，直接點縮圖離開多選"@
        } else {
            "套用到每一張照片，滑桿連點兩下可歸零；Ctrl+點縮圖可只調特定照片"@
        }),
{
    if selected {
        "只套用到選取的照片；Ctrl+點縮圖增減選取，直接點縮圖離開多選"
    } else {
        "套用到每一張照片，滑桿連點兩下可歸零；Ctrl+點縮圖可只調特定照片"
    }
}

/// The title of caption `k`.
pub fn caption_title(k: usize) -> (r: String)
    requires
        k < usize::MAX,
    ensures
        r@ == "文字 "@ + dec((k + 1) as nat),
{
    let mut r: String = "文字 ".to_owned();
    push_dec(&mut r, (k + 1) as u128);
    r
}

/// Which photo is shown: its number of `n`, and its name.
pub fn photo_position(i: usize, n: usize, name: &str) -> (r: String)
    requires
        i < usize::MAX,
    ensures
        r@ == dec((i + 1) as nat) + " / "@ + dec(n as nat) + "　"@ + name@,
{
    let mut r: String = String::new();
    push_dec(&mut r, (i + 1) as u128);
    assert(r@ =~= dec((i + 1) as nat));
    r.append(" / ");
    push_dec(&mut r, n as u128);
    r.append("　");
    r.append(name);
    r
}

/// How many photos there are and how long the video is; `secs` is in decimal notation.
pub fn photo_summary(n: usize, secs: &str) -> (r: String)
    ensures
        r@ == dec(n as nat) + " 張照片 · 約 "@ + secs@ + " 秒"@,
{
    let mut r: String = String::new();
    push_dec(&mut r, n as u128);
    assert(r@ =~= dec(n as nat));
    r.append(" 張照片 · 約 ");
    r.append(secs);
    r.append(" 秒");
    r
}

/// What is told of a failed conversion.
pub fn failure_banner(error: &str) -> (r: String)
    ensures
        r@ == "✖ 轉換失敗："@ + error@,
{
    let mut r: String = "✖ 轉換失敗：".to_owned();
    r.append(error);
    r
}

/// What is told of a newer release.
pub open spec fn newer_text(tag: Seq<char>) -> Seq<char> {
    "⬆ 有新版本 "@ + tag + " 可以下載"@
}

/// What is told of a newer release.
pub fn newer_notice(tag: &str) -> (r: String)
    ensures
        r@ == newer_text(tag@),
{
    let mut r: String = "⬆ 有新版本 ".to_owned();
    r.append(tag);
    r.append(" 可以下載");
    r
}

/// What is told of an update; `percent` is what was fetched of it, in decimal notation.
pub open spec fn update_text(status: StatusView, percent: Seq<char>) -> Option<Seq<char>> {
    match status {
        StatusView::Idle => None,
        StatusView::Checking => Some("檢查更新中…"@),
        StatusView::UpToDate => Some("✔ 目前已是最新版本"@),
        StatusView::Available(tag) => Some(newer_text(tag)),
        StatusView::Downloading(_) => Some("正在下載更新… "@ + percent + "%"@),
        StatusView::ReadyToRestart => Some("✔ 新版已下載完成"@),
        StatusView::Failed(_) => Some("✖ 更新失敗"@),
    }
}

impl Updater {
    /// What is told of an update; `percent` is what was fetched of it, in decimal
    /// notation.
    pub fn about_line(&self, percent: &str) -> (r: Option<String>)
        ensures
            text_view(r) == update_text(self@.status, percent@),
    {
        match &self.status {
            UpdateStatus::Idle => None,
            UpdateStatus::Checking => Some("檢查更新中…".to_owned()),
            UpdateStatus::UpToDate => Some("✔ 目前已是最新版本".to_owned()),
            UpdateStatus::Available(tag) => Some(newer_notice(tag.as_str())),
            UpdateStatus::Downloading(_) => {
                let mut r: String = "正在下載更新… ".to_owned();
                r.append(percent);
                r.append("%");
                Some(r)
            },
            UpdateStatus::ReadyToRestart => Some("✔ 新版已下載完成".to_owned()),
            UpdateStatus::Failed(_) => Some("✖ 更新失敗".to_owned()),
        }
    }
}

/// What is said while files are held over the window.
pub fn drop_hint(working: bool) -> (r: &'static str)
    ensures
        r@ == (if working {
            "轉換中，暫時無法加入檔案"@
        } else {
            "放開滑鼠加入照片"@
        }),
{
    if working {
        "轉換中，暫時無法加入檔案"
    } else {
        "放開滑鼠加入照片"
    }
}

/// The label of a recent project: its name without the extension, or its path where it
/// has no name.
pub fn recent_label(name: Option<&str>, path: &str) -> (r: String)
    ensures
        r@ == "🕘  "@ + (match name {
            Some(n) => stem_of(n@),
            None => path@,
        }),
{
    let mut r: String = "🕘  ".to_owned();
    match name {
        Some(n) => r.append(stem(n).as_str()),
        None => r.append(path),
    }
    r
}

/// How many of the recent projects are shown.
pub fn shown_recent(recent: &Vec<String>) -> (r: usize)
    ensures
        r == (if recent.len() < 5 {
            recent.len() as int
        } else {
            5
        }),
{
    if recent.len() < 5 {
        recent.len()
    } else {
        5
    }
}

} // verus!
