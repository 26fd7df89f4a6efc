//! Putting a fetched release in the place of the running program.

use crate::release::is_windows_program;
use crate::text::text_view;
use vstd::prelude::*;

verus! {

/// How far the installation is.
#[derive(Clone, Copy, PartialEq, Eq, Structural, Debug)]
pub enum InstallStage {
    /// The first bytes of the fetched file are to be read.
    Inspect,
    /// The running program is to be renamed.
    SetAside,
    /// The fetched file is to get the name of the program.
    PutInPlace,
    /// The old program is to get its name back.
    Restore,
    Over,
}

/// The installation of a release: how far it is, and why it failed, if it did.
pub struct Install {
    pub stage: InstallStage,
    pub error: Option<String>,
    /// Whether the fetched file is to be removed, because it is no program.
    pub discard: bool,
}

/// What an installation stands for.
pub struct InstallView {
    pub stage: InstallStage,
    pub error: Option<Seq<char>>,
    pub discard: bool,
}

impl View for Install {
    type V = InstallView;

    open spec fn view(&self) -> InstallView {
        InstallView { stage: self.stage, error: text_view(self.error), discard: self.discard }
    }
}

/// What was found at the beginning of the fetched file.
pub enum Found {
    Head(Vec<u8>),
    Unreadable(String),
}

/// What was found at the beginning of the fetched file.
pub enum FoundView {
    Head(Seq<u8>),
    Unreadable(Seq<char>),
}

impl View for Found {
    type V = FoundView;

    open spec fn view(&self) -> FoundView {
        match *self {
            Found::Head(b) => FoundView::Head(b@),
            Found::Unreadable(e) => FoundView::Unreadable(e@),
        }
    }
}

/// Whether a file begins like a Windows program.
pub open spec fn begins_like_a_program(head: Seq<u8>) -> bool {
    head.len() >= 2 && head[0] == 77 && head[1] == 90
}

impl InstallView {
    /// The installation has failed.
    pub open spec fn failed(self, error: Seq<char>) -> InstallView {
        InstallView { stage: InstallStage::Over, error: Some(error), ..self }
    }

    /// After the fetched file was looked at: only a program is installed.
    pub open spec fn looked_at(self, found: FoundView) -> InstallView {
        match found {
            FoundView::Head(head) => if begins_like_a_program(head) {
                InstallView { stage: InstallStage::SetAside, ..self }
            } else {
                InstallView { discard: true, ..self.failed("下載的檔案不是有效的執行檔"@) }
            },
            FoundView::Unreadable(e) => self.failed("暫存檔讀取失敗："@ + e),
        }
    }

    /// After files were renamed, or could not be: where the new program cannot get its
    /// name, the old one gets it back.
    pub open spec fn following(self, error: Option<Seq<char>>) -> InstallView {
        match self.stage {
            InstallStage::SetAside => match error {
                Some(e) => self.failed("無法替換舊版程式："@ + e),
                None => InstallView { stage: InstallStage::PutInPlace, ..self },
            },
            InstallStage::PutInPlace => match error {
                Some(e) => InstallView {
                    stage: InstallStage::Restore,
                    error: Some("無法安裝新版程式："@ + e),
                    ..self
                },
                None => InstallView { stage: InstallStage::Over, ..self },
            },
            InstallStage::Restore => InstallView { stage: InstallStage::Over, ..self },
            _ => self,
        }
    }
}

impl Install {
    /// An installation of a file that was fetched.
    pub fn new() -> (r: Self)
        ensures
            r@ == (InstallView { stage: InstallStage::Inspect, error: None, discard: false }),
    {
        Install { stage: InstallStage::Inspect, error: None, discard: false }
    }

    fn fail(&mut self, what: &str, why: &str)
        ensures
            final(self)@ == old(self)@.failed(what@ + why@),
    {
        let mut e = what.to_owned();
        e.append(why);
        self.error = Some(e);
        self.stage = InstallStage::Over;
    }

    /// The fetched file was looked at: only a program is installed.
    pub fn inspected(&mut self, found: Found)
        ensures
            final(self)@ == old(self)@.looked_at(found@),
    {
        match found {
            Found::Head(head) => {
                if is_windows_program(head.as_slice()) {
                    self.stage = InstallStage::SetAside;
                } else {
                    self.error = Some("下載的檔案不是有效的執行檔".to_owned());
                    self.stage = InstallStage::Over;
                    self.discard = true;
                }
            },
            Found::Unreadable(e) => {
                self.fail("暫存檔讀取失敗：", e.as_str());
            },
        }
    }

    /// Files were renamed as the stage asks for, or could not be.
    pub fn after(&mut self, error: Option<String>)
        ensures
            final(self)@ == old(self)@.following(text_view(error)),
    {
        match self.stage {
            InstallStage::SetAside => match error {
                Some(e) => {
                    self.fail("無法替換舊版程式：", e.as_str());
                },
                None => {
                    self.stage = InstallStage::PutInPlace;
                },
            },
            InstallStage::PutInPlace => match error {
                Some(e) => {
                    self.fail("無法安裝新版程式：", e.as_str());
                    self.stage = InstallStage::Restore;
                },
                None => {
                    self.stage = InstallStage::Over;
                },
            },
            InstallStage::Restore => {
                self.stage = InstallStage::Over;
            },
            _ => {},
        }
    }
}

/// The files of an installation: the program, the old program under its other name, and
/// the fetched file.
pub struct Disk {
    pub program: Option<Seq<u8>>,
    pub aside: Option<Seq<u8>>,
    pub fetched: Option<Seq<u8>>,
}

/// Whether the files can be `after` when those that the stage asks for were renamed, or,
/// if not `done`, could not be. What was set aside before is removed first.
pub open spec fn renamed(before: Disk, stage: InstallStage, done: bool, after: Disk) -> bool {
    match stage {
        InstallStage::SetAside => if done {
            after == (Disk { program: None, aside: before.program, ..before })
        } else {
            after.program == before.program && after.fetched == before.fetched
        },
        InstallStage::PutInPlace => if done {
            after == (Disk { program: before.fetched, fetched: None, ..before })
        } else {
            after == before
        },
        InstallStage::Restore => if done {
            after == (Disk { program: before.aside, aside: None, ..before })
        } else {
            after == before
        },
        _ => after == before,
    }
}

/// What the files are at each stage when `new` is to take the place of `old_one`.
pub open spec fn in_step(i: InstallView, disk: Disk, old_one: Seq<u8>, new: Seq<u8>) -> bool {
    match i.stage {
        InstallStage::Inspect => i.error is None && disk.program == Some(old_one)
            && disk.fetched == Some(new),
        InstallStage::SetAside => i.error is None && disk.program == Some(old_one)
            && disk.fetched == Some(new) && begins_like_a_program(new),
        InstallStage::PutInPlace => i.error is None && disk.aside == Some(old_one)
            && disk.fetched == Some(new) && begins_like_a_program(new),
        InstallStage::Restore => i.error is Some && disk.aside == Some(old_one),
        InstallStage::Over => if i.error is None {
            disk.program == Some(new) && begins_like_a_program(new)
        } else {
            disk.program == Some(old_one)
        },
    }
}

/// The fetched file is the program in the end if the installation succeeds, and only if
/// it is one; if the installation fails, the old program is. It gets lost only where it
/// cannot be renamed back.
pub proof fn update_keeps_a_program(
    i: InstallView,
    before: Disk,
    error: Option<Seq<char>>,
    after: Disk,
    old_one: Seq<u8>,
    new: Seq<u8>,
)
    requires
        in_step(i, before, old_one, new),
        renamed(before, i.stage, error is None, after),
        i.stage == InstallStage::Restore ==> error is None,
    ensures
        in_step(i.following(error), after, old_one, new),
        i.stage == InstallStage::Inspect ==> {
            &&& in_step(i.looked_at(FoundView::Head(new)), before, old_one, new)
            &&& forall|e: Seq<char>| #[trigger]
                in_step(i.looked_at(FoundView::Unreadable(e)), before, old_one, new)
        },
{
}

} // verus!
