//! How far the conversion to a video is.

use crate::scalar::{zero, Scalar};
use crate::text::text_view;
use vstd::prelude::*;

verus! {

/// How far the conversion to a video is.
pub enum ConvertState {
    Idle,
    Working { progress: Scalar, status: String },
    /// The video file.
    Done(String),
    Error(String),
}

/// What a state of the conversion stands for.
pub enum StateView {
    Idle,
    Working { progress: Scalar, status: Seq<char> },
    Done(Seq<char>),
    Error(Seq<char>),
}

impl View for ConvertState {
    type V = StateView;

    open spec fn view(&self) -> StateView {
        match *self {
            ConvertState::Idle => StateView::Idle,
            ConvertState::Working { progress, status } => StateView::Working {
                progress,
                status: status@,
            },
            ConvertState::Done(p) => StateView::Done(p@),
            ConvertState::Error(e) => StateView::Error(e@),
        }
    }
}

/// The conversion: its state, and the video file that it is writing.
pub struct Conversion {
    pub state: ConvertState,
    pub output: Option<String>,
}

/// What a conversion stands for.
pub struct ConversionView {
    pub state: StateView,
    pub output: Option<Seq<char>>,
}

impl View for Conversion {
    type V = ConversionView;

    open spec fn view(&self) -> ConversionView {
        ConversionView { state: self.state@, output: text_view(self.output) }
    }
}

/// What the conversion reports.
pub enum WorkerMsg {
    Status(String),
    /// The part that is done, from zero to one.
    Progress(Scalar),
    /// The video file.
    Done(String),
    Error(String),
}

/// What a report of the conversion stands for.
pub enum WorkerView {
    Status(Seq<char>),
    Progress(Scalar),
    Done(Seq<char>),
    Error(Seq<char>),
}

impl View for WorkerMsg {
    type V = WorkerView;

    open spec fn view(&self) -> WorkerView {
        match *self {
            WorkerMsg::Status(s) => WorkerView::Status(s@),
            WorkerMsg::Progress(p) => WorkerView::Progress(p),
            WorkerMsg::Done(p) => WorkerView::Done(p@),
            WorkerMsg::Error(e) => WorkerView::Error(e@),
        }
    }
}

impl WorkerView {
    /// Whether nothing follows the report.
    pub open spec fn is_last(self) -> bool {
        self is Done || self is Error
    }
}

/// What the user reads when the conversion was lost.
pub open spec fn lost_message() -> Seq<char> {
    "轉換程序異常中斷（可能為程式錯誤），請重試或回報問題"@
}

/// No conversion has been started.
pub open spec fn no_conversion() -> ConversionView {
    ConversionView { state: StateView::Idle, output: None }
}

impl ConversionView {
    pub open spec fn working(self) -> bool {
        self.state is Working
    }

    /// A conversion has started that writes `output`.
    pub open spec fn begun(self, output: Seq<char>) -> ConversionView {
        ConversionView {
            output: Some(output),
            state: StateView::Working { progress: zero(), status: "準備中…"@ },
        }
    }

    /// The conversion has reported. An error of a conversion that was called off is none.
    pub open spec fn reported(self, msg: WorkerView, cancelled: bool) -> ConversionView {
        match msg {
            WorkerView::Status(status) => match self.state {
                StateView::Working { progress, .. } => ConversionView {
                    state: StateView::Working { progress, status },
                    ..self
                },
                _ => self,
            },
            WorkerView::Progress(progress) => match self.state {
                StateView::Working { status, .. } => ConversionView {
                    state: StateView::Working { progress, status },
                    ..self
                },
                _ => self,
            },
            WorkerView::Done(path) => ConversionView { state: StateView::Done(path), output: None },
            WorkerView::Error(e) => ConversionView {
                state: if cancelled {
                    StateView::Idle
                } else {
                    StateView::Error(e)
                },
                output: None,
            },
        }
    }

    /// The conversion is gone without a last report.
    pub open spec fn lost(self) -> ConversionView {
        if self.working() {
            ConversionView { state: StateView::Error(lost_message()), output: None }
        } else {
            self
        }
    }

    /// The user has called the conversion off.
    pub open spec fn cancelled(self) -> ConversionView {
        match self.state {
            StateView::Working { progress, .. } => ConversionView {
                state: StateView::Working { progress, status: "正在取消…"@ },
                ..self
            },
            _ => self,
        }
    }

    /// Results of an earlier conversion no longer count.
    pub open spec fn banner_cleared(self) -> ConversionView {
        match self.state {
            StateView::Done(_) => ConversionView { state: StateView::Idle, ..self },
            StateView::Error(_) => ConversionView { state: StateView::Idle, ..self },
            _ => self,
        }
    }
}

/// What is left to do after the conversion was lost.
pub struct LostWorker {
    /// Whether ffmpeg is to be stopped.
    pub stop: bool,
    /// The unfinished video file that is to be removed.
    pub remove: Option<String>,
}

impl Conversion {
    /// No conversion has been started.
    pub fn new() -> (r: Self)
        ensures
            r@ == no_conversion(),
    {
        Conversion { state: ConvertState::Idle, output: None }
    }

    /// Whether a conversion is running.
    pub fn is_working(&self) -> (r: bool)
        ensures
            r == self@.working(),
    {
        match &self.state {
            ConvertState::Working { .. } => true,
            _ => false,
        }
    }

    /// A conversion has started that writes `output`.
    pub fn begin(&mut self, output: &str)
        ensures
            final(self)@ == old(self)@.begun(output@),
    {
        self.output = Some(output.to_owned());
        self.state = ConvertState::Working {
            progress: Scalar { bits: 0 },
            status: "準備中…".to_owned(),
        };
    }

    /// The conversion has reported; says whether this was its last report.
    pub fn on_report(&mut self, msg: WorkerMsg, cancelled: bool) -> (r: bool)
        ensures
            final(self)@ == old(self)@.reported(msg@, cancelled),
            r == msg@.is_last(),
    {
        match msg {
            WorkerMsg::Status(s) => {
                match &self.state {
                    ConvertState::Working { progress, .. } => {
                        let progress = *progress;
                        self.state = ConvertState::Working { progress, status: s };
                    },
                    _ => {},
                }
                false
            },
            WorkerMsg::Progress(p) => {
                match &self.state {
                    ConvertState::Working { status, .. } => {
                        let status = status.clone();
                        self.state = ConvertState::Working { progress: p, status };
                    },
                    _ => {},
                }
                false
            },
            WorkerMsg::Done(path) => {
                self.state = ConvertState::Done(path);
                self.output = None;
                true
            },
            WorkerMsg::Error(e) => {
                self.state = if cancelled {
                    ConvertState::Idle
                } else {
                    ConvertState::Error(e)
                };
                self.output = None;
                true
            },
        }
    }

    /// The conversion is gone without a last report: the user is told, and what is left
    /// to do is handed back.
    pub fn on_lost(&mut self) -> (r: LostWorker)
        ensures
            final(self)@ == old(self)@.lost(),
            r.stop == old(self)@.working(),
            text_view(r.remove) == (if old(self)@.working() {
                old(self)@.output
            } else {
                None
            }),
    {
        if !self.is_working() {
            return LostWorker { stop: false, remove: None };
        }
        let remove = match &self.output {
            Some(p) => Some(p.clone()),
            None => None,
        };
        self.output = None;
        self.state = ConvertState::Error(
            "轉換程序異常中斷（可能為程式錯誤），請重試或回報問題".to_owned(),
        );
        LostWorker { stop: true, remove }
    }

    /// The user calls the conversion off; says whether there is one.
    pub fn cancel(&mut self) -> (r: bool)
        ensures
            final(self)@ == old(self)@.cancelled(),
            r == old(self)@.working(),
    {
        match &self.state {
            ConvertState::Working { progress, .. } => {
                let progress = *progress;
                self.state = ConvertState::Working { progress, status: "正在取消…".to_owned() };
                true
            },
            _ => false,
        }
    }

    /// Results of an earlier conversion no longer count.
    pub fn clear_result_banner(&mut self)
        ensures
            final(self)@ == old(self)@.banner_cleared(),
    {
        let over: bool = match &self.state {
            ConvertState::Done(_) => true,
            ConvertState::Error(_) => true,
            _ => false,
        };
        if over {
            self.state = ConvertState::Idle;
        }
    }
}

/// A conversion that was called off ends in no error: neither the report of its failure
/// nor any other report of it leaves one.
pub proof fn cancelled_conversion_leaves_no_error(v: ConversionView, msg: WorkerView)
    requires
        v.working(),
    ensures
        v.cancelled().working(),
        !(v.cancelled().reported(msg, true).state is Error),
        msg is Error ==> v.cancelled().reported(msg, true).state is Idle,
{
}

/// Which file is being written is known exactly as long as a conversion runs.
pub proof fn output_is_known_while_converting(
    v: ConversionView,
    output: Seq<char>,
    msg: WorkerView,
    cancelled: bool,
)
    requires
        v.working() <==> v.output is Some,
    ensures
        v.begun(output).working() && v.begun(output).output == Some(output),
        v.reported(msg, cancelled).working() <==> v.reported(msg, cancelled).output is Some,
        v.lost().working() <==> v.lost().output is Some,
        v.cancelled().working() <==> v.cancelled().output is Some,
        v.banner_cleared().working() <==> v.banner_cleared().output is Some,
{
}

} // verus!
