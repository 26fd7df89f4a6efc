//! Updates of the program: looking for a newer release and fetching it.

use crate::scalar::{zero, Scalar};
use crate::text::text_view;
use vstd::prelude::*;

verus! {

/// How far an update is.
pub enum UpdateStatus {
    Idle,
    Checking,
    UpToDate,
    /// The tag of a newer release.
    Available(String),
    /// The part that was fetched, from zero to one.
    Downloading(Scalar),
    ReadyToRestart,
    Failed(String),
}

/// What the state of an update stands for.
pub enum StatusView {
    Idle,
    Checking,
    UpToDate,
    Available(Seq<char>),
    Downloading(Scalar),
    ReadyToRestart,
    Failed(Seq<char>),
}

impl View for UpdateStatus {
    type V = StatusView;

    open spec fn view(&self) -> StatusView {
        match *self {
            UpdateStatus::Idle => StatusView::Idle,
            UpdateStatus::Checking => StatusView::Checking,
            UpdateStatus::UpToDate => StatusView::UpToDate,
            UpdateStatus::Available(t) => StatusView::Available(t@),
            UpdateStatus::Downloading(p) => StatusView::Downloading(p),
            UpdateStatus::ReadyToRestart => StatusView::ReadyToRestart,
            UpdateStatus::Failed(e) => StatusView::Failed(e@),
        }
    }
}

impl StatusView {
    /// Whether something is going on, or a restart is due.
    pub open spec fn busy(self) -> bool {
        self is Checking || self is Downloading || self is ReadyToRestart
    }
}

/// What the background reports of an update.
pub enum UpdateMsg {
    /// A newer release, if there is one.
    Newer(Option<String>),
    CheckFailed(String),
    Progress(Scalar),
    Ready,
    Failed(String),
}

/// What a report stands for.
pub enum UpdateMsgView {
    Newer(Option<Seq<char>>),
    CheckFailed(Seq<char>),
    Progress(Scalar),
    Ready,
    Failed(Seq<char>),
}

impl View for UpdateMsg {
    type V = UpdateMsgView;

    open spec fn view(&self) -> UpdateMsgView {
        match *self {
            UpdateMsg::Newer(t) => UpdateMsgView::Newer(text_view(t)),
            UpdateMsg::CheckFailed(e) => UpdateMsgView::CheckFailed(e@),
            UpdateMsg::Progress(p) => UpdateMsgView::Progress(p),
            UpdateMsg::Ready => UpdateMsgView::Ready,
            UpdateMsg::Failed(e) => UpdateMsgView::Failed(e@),
        }
    }
}

/// What a list of reports stands for.
pub open spec fn msg_views(v: Seq<UpdateMsg>) -> Seq<UpdateMsgView> {
    v.map_values(|m: UpdateMsg| m@)
}

/// Updates of the program.
pub struct Updater {
    pub status: UpdateStatus,
    /// Whether the background is being listened to.
    pub listening: bool,
    /// Whether the user has put the notice of a newer release away.
    pub dismissed: bool,
    /// Why fetching a release failed, until the user puts it away.
    pub download_error: Option<String>,
}

/// What the updates stand for.
pub struct UpdaterView {
    pub status: StatusView,
    pub listening: bool,
    pub dismissed: bool,
    pub download_error: Option<Seq<char>>,
}

impl View for Updater {
    type V = UpdaterView;

    open spec fn view(&self) -> UpdaterView {
        UpdaterView {
            status: self.status@,
            listening: self.listening,
            dismissed: self.dismissed,
            download_error: text_view(self.download_error),
        }
    }
}

/// Whether nothing more follows after a report.
pub open spec fn ends(m: UpdateMsgView) -> bool {
    !(m is Progress)
}

/// Whether one of the reports is the last one.
pub open spec fn any_ends(msgs: Seq<UpdateMsgView>) -> bool {
    exists|k: int| 0 <= k < msgs.len() && ends(#[trigger] msgs[k])
}

/// Whether one of the reports is that a release is ready.
pub open spec fn any_ready(msgs: Seq<UpdateMsgView>) -> bool {
    exists|k: int| 0 <= k < msgs.len() && #[trigger] msgs[k] is Ready
}

impl UpdaterView {
    /// After one report.
    pub open spec fn told(self, m: UpdateMsgView) -> UpdaterView {
        match m {
            UpdateMsgView::Newer(Some(tag)) => UpdaterView {
                status: StatusView::Available(tag),
                ..self
            },
            UpdateMsgView::Newer(None) => UpdaterView { status: StatusView::UpToDate, ..self },
            UpdateMsgView::CheckFailed(e) => UpdaterView { status: StatusView::Failed(e), ..self },
            UpdateMsgView::Progress(p) => UpdaterView {
                status: StatusView::Downloading(p),
                ..self
            },
            UpdateMsgView::Ready => self,
            UpdateMsgView::Failed(e) => UpdaterView {
                status: StatusView::Failed(e),
                download_error: Some(e),
                ..self
            },
        }
    }

    /// After all reports.
    pub open spec fn all_told(self, msgs: Seq<UpdateMsgView>) -> UpdaterView
        decreases msgs.len(),
    {
        if msgs.len() == 0 {
            self
        } else {
            self.all_told(msgs.drop_last()).told(msgs.last())
        }
    }

    /// After all reports that have come; `lost` says that no more can come, `working`
    /// that a conversion is running, for which a restart has to wait.
    pub open spec fn polled(
        self,
        msgs: Seq<UpdateMsgView>,
        lost: bool,
        working: bool,
    ) -> UpdaterView {
        let heard = self.all_told(msgs);
        let mended = if lost && !any_ends(msgs) && (heard.status is Checking
            || heard.status is Downloading) {
            UpdaterView { status: StatusView::Failed("更新程序異常中斷"@), ..heard }
        } else {
            heard
        };
        UpdaterView {
            listening: self.listening && !lost && !any_ends(msgs),
            status: if any_ready(msgs) && working {
                StatusView::ReadyToRestart
            } else {
                mended.status
            },
            ..mended
        }
    }

    /// A check was asked for: nothing is done while something is going on or a restart
    /// is due.
    pub open spec fn checking(self) -> UpdaterView {
        if self.status.busy() {
            self
        } else {
            UpdaterView {
                status: StatusView::Checking,
                listening: true,
                download_error: None,
                ..self
            }
        }
    }

    /// A release is to be fetched: nothing is done while one is being fetched.
    pub open spec fn fetching(self) -> UpdaterView {
        if self.status is Downloading {
            self
        } else {
            UpdaterView {
                status: StatusView::Downloading(zero()),
                listening: true,
                download_error: None,
                ..self
            }
        }
    }

    /// The newer release that the user is to be told of.
    pub open spec fn notice(self) -> Option<Seq<char>> {
        match self.status {
            StatusView::Available(tag) => if self.dismissed {
                None
            } else {
                Some(tag)
            },
            _ => None,
        }
    }
}

impl Updater {
    /// Nothing is going on.
    pub fn new() -> (r: Self)
        ensures
            r@ == (UpdaterView {
                status: StatusView::Idle,
                listening: false,
                dismissed: false,
                download_error: None,
            }),
    {
        Updater {
            status: UpdateStatus::Idle,
            listening: false,
            dismissed: false,
            download_error: None,
        }
    }

    /// Whether something is going on, or a restart is due.
    pub fn is_busy(&self) -> (r: bool)
        ensures
            r == self@.status.busy(),
    {
        match &self.status {
            UpdateStatus::Checking => true,
            UpdateStatus::Downloading(_) => true,
            UpdateStatus::ReadyToRestart => true,
            _ => false,
        }
    }

    /// Begins to look for a newer release; says whether the background is to do so.
    pub fn begin_check(&mut self) -> (r: bool)
        ensures
            final(self)@ == old(self)@.checking(),
            r == !old(self)@.status.busy(),
    {
        if self.is_busy() {
            return false;
        }
        self.download_error = None;
        self.status = UpdateStatus::Checking;
        self.listening = true;
        true
    }

    /// The user looks for a newer release: a notice of it may come again.
    pub fn check_again(&mut self) -> (r: bool)
        ensures
            final(self)@ == (UpdaterView { dismissed: false, ..old(self)@ }).checking(),
            r == !old(self)@.status.busy(),
    {
        self.dismissed = false;
        self.begin_check()
    }

    /// Begins to fetch a release; says whether the background is to do so.
    pub fn begin_download(&mut self) -> (r: bool)
        ensures
            final(self)@ == old(self)@.fetching(),
            r == !(old(self)@.status is Downloading),
    {
        match &self.status {
            UpdateStatus::Downloading(_) => {
                return false;
            },
            _ => {},
        }
        self.status = UpdateStatus::Downloading(Scalar { bits: 0 });
        self.listening = true;
        self.download_error = None;
        true
    }

    /// The newer release that the user is to be told of.
    pub fn banner(&self) -> (r: Option<String>)
        ensures
            text_view(r) == self@.notice(),
    {
        match &self.status {
            UpdateStatus::Available(tag) => {
                if self.dismissed {
                    None
                } else {
                    Some(tag.clone())
                }
            },
            _ => None,
        }
    }

    fn hear(&mut self, m: &UpdateMsg)
        ensures
            final(self)@ == old(self)@.told(m@),
    {
        match m {
            UpdateMsg::Newer(t) => match t {
                Some(tag) => {
                    self.status = UpdateStatus::Available(tag.clone());
                },
                None => {
                    self.status = UpdateStatus::UpToDate;
                },
            },
            UpdateMsg::CheckFailed(e) => {
                self.status = UpdateStatus::Failed(e.clone());
            },
            UpdateMsg::Progress(p) => {
                self.status = UpdateStatus::Downloading(*p);
            },
            UpdateMsg::Ready => {},
            UpdateMsg::Failed(e) => {
                self.download_error = Some(e.clone());
                self.status = UpdateStatus::Failed(e.clone());
            },
        }
    }

    /// Takes the reports that have come. `lost` says that no more can come, `working`
    /// that a conversion is running. The result says whether to restart now.
    pub fn poll(&mut self, msgs: &Vec<UpdateMsg>, lost: bool, working: bool) -> (r: bool)
        ensures
            final(self)@ == old(self)@.polled(msg_views(msgs@), lost, working),
            r == (any_ready(msg_views(msgs@)) && !working),
    {
        let ghost start = self@;
        let ghost v = msg_views(msgs@);
        let mut ended: bool = false;
        let mut ready: bool = false;
        let mut i: usize = 0;
        assert(v.take(0) =~= seq![]);
        while i < msgs.len()
            invariant
                i <= msgs.len(),
                v == msg_views(msgs@),
                self@ == start.all_told(v.take(i as int)),
                self@.listening == start.listening,
                ended == (exists|k: int| 0 <= k < i && ends(#[trigger] v[k])),
                ready == (exists|k: int| 0 <= k < i && #[trigger] v[k] is Ready),
            decreases msgs.len() - i,
        {
            assert(v[i as int] == msgs[i as int]@);
            assert(v.take(i + 1).drop_last() =~= v.take(i as int));
            assert(v.take(i + 1).last() == v[i as int]);
            self.hear(&msgs[i]);
            match &msgs[i] {
                UpdateMsg::Progress(_) => {},
                UpdateMsg::Ready => {
                    ended = true;
                    ready = true;
                },
                _ => {
                    ended = true;
                },
            }
            i += 1;
        }
        assert(v.take(v.len() as int) =~= v);
        if lost && !ended {
            let waiting: bool = match &self.status {
                UpdateStatus::Checking => true,
                UpdateStatus::Downloading(_) => true,
                _ => false,
            };
            if waiting {
                self.status = UpdateStatus::Failed("更新程序異常中斷".to_owned());
            }
        }
        if lost || ended {
            self.listening = false;
        }
        if ready && working {
            self.status = UpdateStatus::ReadyToRestart;
        }
        ready && !working
    }
}

/// While a restart is due, no check takes that away.
pub proof fn due_restart_is_not_forgotten(v: UpdaterView)
    requires
        v.status is ReadyToRestart,
    ensures
        v.checking() == v,
{
}

/// When the background is gone, nothing is left that the user would wait for in vain.
pub proof fn lost_update_does_not_hang(
    v: UpdaterView,
    msgs: Seq<UpdateMsgView>,
    working: bool,
)
    requires
        !any_ends(msgs),
    ensures
        !v.polled(msgs, true, working).listening,
        !(v.polled(msgs, true, working).status is Checking),
        !(v.polled(msgs, true, working).status is Downloading),
{
    assert(!any_ready(msgs)) by {
        if any_ready(msgs) {
            let k = choose|k: int| 0 <= k < msgs.len() && #[trigger] msgs[k] is Ready;
            assert(ends(msgs[k]));
        }
    }
}

/// Only a failed download, which the user has asked for, is reported to the user.
pub proof fn failed_checks_are_silent(v: UpdaterView, m: UpdateMsgView)
    requires
        !(m is Failed),
    ensures
        v.told(m).download_error == v.download_error,
{
}

} // verus!
