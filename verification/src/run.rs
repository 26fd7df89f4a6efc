//! The course of a conversion: what is to be done next, and what is left behind.

use crate::options::{H264Encoder, OutputFormat};
use vstd::prelude::*;

verus! {

/// What a conversion is at.
#[derive(Clone, Copy, PartialEq, Eq, Structural, Debug)]
pub enum Stage {
    /// Photo `k` of those that are adjusted beforehand.
    Adjust(usize),
    /// The list of photos.
    List,
    /// The text of caption `k`.
    Caption(usize),
    /// The search for an encoder.
    Detect,
    Encode(H264Encoder),
    Over,
}

/// A conversion: the places of the photos that are adjusted beforehand, the number of
/// captions, the format of the video, and what it is at.
pub struct Run {
    pub to_adjust: Vec<usize>,
    pub captions: usize,
    pub format: OutputFormat,
    pub stage: Stage,
}

/// What is to be done when a conversion is over.
pub struct Ending {
    /// Why it failed, if it did.
    pub error: Option<String>,
    /// How many of the adjusted photos are to be removed.
    pub adjusted: usize,
    /// Whether the list of photos is to be removed.
    pub list: bool,
    /// How many of the texts of captions are to be removed.
    pub captions: usize,
    /// Whether the video is to be removed.
    pub output: bool,
}

/// What an ending stands for.
pub struct EndingView {
    pub error: Option<Seq<char>>,
    pub adjusted: int,
    pub list: bool,
    pub captions: int,
    pub output: bool,
}

impl View for Ending {
    type V = EndingView;

    open spec fn view(&self) -> EndingView {
        EndingView {
            error: crate::text::text_view(self.error),
            adjusted: self.adjusted as int,
            list: self.list,
            captions: self.captions as int,
            output: self.output,
        }
    }
}

/// What is to be done next.
pub enum Action {
    /// Adjust photo `k` of those that are adjusted beforehand, which is at this place.
    Adjust(usize, usize),
    WriteList,
    WriteCaption(usize),
    Detect,
    Encode(H264Encoder),
    /// Encode again, in software, after an encoder has failed.
    EncodeAgain,
    Finish(Ending),
}

/// What is to be done next.
pub enum ActionView {
    Adjust(int, int),
    WriteList,
    WriteCaption(int),
    Detect,
    Encode(H264Encoder),
    EncodeAgain,
    Finish(EndingView),
}

impl View for Action {
    type V = ActionView;

    open spec fn view(&self) -> ActionView {
        match *self {
            Action::Adjust(k, i) => ActionView::Adjust(k as int, i as int),
            Action::WriteList => ActionView::WriteList,
            Action::WriteCaption(k) => ActionView::WriteCaption(k as int),
            Action::Detect => ActionView::Detect,
            Action::Encode(e) => ActionView::Encode(e),
            Action::EncodeAgain => ActionView::EncodeAgain,
            Action::Finish(f) => ActionView::Finish(f@),
        }
    }
}

/// What the conversion does next, and what it is at then.
pub struct Next {
    pub stage: Stage,
    pub action: ActionView,
}

/// What an outcome stands for.
pub open spec fn outcome_view(r: Result<(), String>) -> Option<Seq<char>> {
    match r {
        Ok(_) => None,
        Err(e) => Some(e@),
    }
}

impl Run {
    /// The stage that follows when `k` photos were adjusted.
    pub open spec fn adjust_from(self, k: int) -> Stage {
        if k < self.to_adjust.len() {
            Stage::Adjust(k as usize)
        } else {
            Stage::List
        }
    }

    /// The stage that follows when `k` texts of captions were written.
    pub open spec fn caption_from(self, k: int) -> Stage {
        if k < self.captions {
            Stage::Caption(k as usize)
        } else if self.format == OutputFormat::Webm {
            Stage::Encode(H264Encoder::Software)
        } else {
            Stage::Detect
        }
    }

    /// Over before anything was encoded; `adjusted` photos are removed.
    pub open spec fn given_up(self, error: Seq<char>, adjusted: int) -> Next {
        Next {
            stage: Stage::Over,
            action: ActionView::Finish(
                EndingView {
                    error: Some(error),
                    adjusted,
                    list: false,
                    captions: 0,
                    output: false,
                },
            ),
        }
    }

    /// Over after encoding: nothing is left behind but the video, and that only if it is
    /// complete.
    pub open spec fn completed(self, error: Option<Seq<char>>) -> Next {
        Next {
            stage: Stage::Over,
            action: ActionView::Finish(
                EndingView {
                    error,
                    adjusted: self.to_adjust.len() as int,
                    list: true,
                    captions: self.captions as int,
                    output: error is Some,
                },
            ),
        }
    }

    /// What is done at a stage. A conversion that was called off goes no further where a
    /// photo would be adjusted or the video encoded.
    pub open spec fn entering(self, stage: Stage, cancelled: bool) -> Next {
        match stage {
            Stage::Adjust(k) => if cancelled {
                self.given_up("已取消"@, k as int)
            } else {
                Next {
                    stage,
                    action: ActionView::Adjust(k as int, self.to_adjust[k as int] as int),
                }
            },
            Stage::List => Next { stage, action: ActionView::WriteList },
            Stage::Caption(k) => Next { stage, action: ActionView::WriteCaption(k as int) },
            Stage::Detect => Next { stage, action: ActionView::Detect },
            Stage::Encode(e) => if cancelled {
                self.completed(Some("已取消"@))
            } else {
                Next { stage, action: ActionView::Encode(e) }
            },
            Stage::Over => self.completed(None),
        }
    }

    /// What follows the outcome of the last action.
    pub open spec fn following(self, error: Option<Seq<char>>, cancelled: bool) -> Next {
        match self.stage {
            Stage::Adjust(k) => match error {
                Some(e) => self.given_up(e, k as int),
                None => self.entering(self.adjust_from(k + 1), cancelled),
            },
            Stage::List => match error {
                Some(e) => self.given_up("無法寫入暫存清單："@ + e, 0),
                None => self.entering(self.caption_from(0), cancelled),
            },
            Stage::Caption(k) => match error {
                Some(e) => self.given_up("無法寫入字幕暫存檔："@ + e, 0),
                None => self.entering(self.caption_from(k + 1), cancelled),
            },
            Stage::Encode(enc) => match error {
                Some(e) => if self.format != OutputFormat::Webm && enc != H264Encoder::Software
                    && !cancelled {
                    Next {
                        stage: Stage::Encode(H264Encoder::Software),
                        action: ActionView::EncodeAgain,
                    }
                } else {
                    self.completed(Some(e))
                },
                None => self.completed(None),
            },
            Stage::Detect => self.entering(Stage::Encode(H264Encoder::Software), cancelled),
            Stage::Over => self.completed(error),
        }
    }

    /// The stage is one that there is.
    pub open spec fn wf(self) -> bool {
        match self.stage {
            Stage::Adjust(k) => k < self.to_adjust.len(),
            Stage::Caption(k) => k < self.captions,
            _ => true,
        }
    }

    /// Nothing but the stage has changed.
    pub open spec fn moved(self, to: Run, stage: Stage) -> bool {
        &&& to.to_adjust@ == self.to_adjust@
        &&& to.captions == self.captions
        &&& to.format == self.format
        &&& to.stage == stage
    }

    /// A conversion that has not begun.
    pub fn new(to_adjust: Vec<usize>, captions: usize, format: OutputFormat) -> (r: Self)
        ensures
            r.to_adjust@ == to_adjust@,
            r.captions == captions,
            r.format == format,
            r.stage == Stage::Over,
            r.wf(),
    {
        Run { to_adjust, captions, format, stage: Stage::Over }
    }

    fn adjust_stage(&self, k: usize) -> (r: Stage)
        ensures
            r == self.adjust_from(k as int),
    {
        if k < self.to_adjust.len() {
            Stage::Adjust(k)
        } else {
            Stage::List
        }
    }

    fn caption_stage(&self, k: usize) -> (r: Stage)
        ensures
            r == self.caption_from(k as int),
    {
        if k < self.captions {
            Stage::Caption(k)
        } else if self.format == OutputFormat::Webm {
            Stage::Encode(H264Encoder::Software)
        } else {
            Stage::Detect
        }
    }

    fn give_up(&mut self, error: String, adjusted: usize) -> (r: Action)
        ensures
            ({
                let next = old(self).given_up(error@, adjusted as int);
                r@ == next.action && old(self).moved(*final(self), next.stage)
            }),
    {
        self.stage = Stage::Over;
        Action::Finish(
            Ending { error: Some(error), adjusted, list: false, captions: 0, output: false },
        )
    }

    fn complete(&mut self, error: Option<String>) -> (r: Action)
        ensures
            ({
                let next = old(self).completed(crate::text::text_view(error));
                r@ == next.action && old(self).moved(*final(self), next.stage)
            }),
    {
        self.stage = Stage::Over;
        let output: bool = error.is_some();
        Action::Finish(
            Ending {
                error,
                adjusted: self.to_adjust.len(),
                list: true,
                captions: self.captions,
                output,
            },
        )
    }

    fn enter(&mut self, stage: Stage, cancelled: bool) -> (r: Action)
        requires
            stage matches Stage::Adjust(k) ==> k < old(self).to_adjust.len(),
        ensures
            ({
                let next = old(self).entering(stage, cancelled);
                r@ == next.action && old(self).moved(*final(self), next.stage)
            }),
    {
        match stage {
            Stage::Adjust(k) => {
                if cancelled {
                    return self.give_up("已取消".to_owned(), k);
                }
                self.stage = stage;
                Action::Adjust(k, self.to_adjust[k])
            },
            Stage::List => {
                self.stage = stage;
                Action::WriteList
            },
            Stage::Caption(k) => {
                self.stage = stage;
                Action::WriteCaption(k)
            },
            Stage::Detect => {
                self.stage = stage;
                Action::Detect
            },
            Stage::Encode(e) => {
                if cancelled {
                    return self.complete(Some("已取消".to_owned()));
                }
                self.stage = stage;
                Action::Encode(e)
            },
            Stage::Over => self.complete(None),
        }
    }

    /// The first thing to be done.
    pub fn begin(&mut self, cancelled: bool) -> (r: Action)
        ensures
            ({
                let next = old(self).entering(old(self).adjust_from(0), cancelled);
                r@ == next.action && old(self).moved(*final(self), next.stage)
            }),
            final(self).wf(),
    {
        let stage = self.adjust_stage(0);
        self.enter(stage, cancelled)
    }

    /// What is to be done after the outcome of the last action.
    pub fn after(&mut self, outcome: Result<(), String>, cancelled: bool) -> (r: Action)
        requires
            old(self).wf(),
        ensures
            ({
                let next = old(self).following(outcome_view(outcome), cancelled);
                r@ == next.action && old(self).moved(*final(self), next.stage)
            }),
            final(self).wf(),
    {
        let error: Option<String> = match outcome {
            Ok(_) => None,
            Err(e) => Some(e),
        };
        match self.stage {
            Stage::Adjust(k) => match error {
                Some(e) => self.give_up(e, k),
                None => {
                    let stage = self.adjust_stage(k + 1);
                    self.enter(stage, cancelled)
                },
            },
            Stage::List => match error {
                Some(e) => {
                    let mut m: String = "無法寫入暫存清單：".to_owned();
                    m.append(e.as_str());
                    self.give_up(m, 0)
                },
                None => {
                    let stage = self.caption_stage(0);
                    self.enter(stage, cancelled)
                },
            },
            Stage::Caption(k) => match error {
                Some(e) => {
                    let mut m: String = "無法寫入字幕暫存檔：".to_owned();
                    m.append(e.as_str());
                    self.give_up(m, 0)
                },
                None => {
                    let stage = self.caption_stage(k + 1);
                    self.enter(stage, cancelled)
                },
            },
            Stage::Encode(enc) => match error {
                Some(e) => {
                    if self.format != OutputFormat::Webm && enc != H264Encoder::Software
                        && !cancelled {
                        self.stage = Stage::Encode(H264Encoder::Software);
                        Action::EncodeAgain
                    } else {
                        self.complete(Some(e))
                    }
                },
                None => self.complete(None),
            },
            Stage::Detect => self.enter(Stage::Encode(H264Encoder::Software), cancelled),
            Stage::Over => self.complete(error),
        }
    }

    /// What is to be done after an encoder was found.
    pub fn found(&mut self, encoder: H264Encoder, cancelled: bool) -> (r: Action)
        ensures
            ({
                let next = old(self).entering(Stage::Encode(encoder), cancelled);
                r@ == next.action && old(self).moved(*final(self), next.stage)
            }),
            final(self).wf(),
    {
        self.enter(Stage::Encode(encoder), cancelled)
    }
}

/// How much is left to be done at most.
pub open spec fn steps_left(r: Run) -> int {
    let captions = r.captions as int;
    match r.stage {
        Stage::Adjust(k) => r.to_adjust.len() - k + captions + 6,
        Stage::List => captions + 5,
        Stage::Caption(k) => captions - k + 4,
        Stage::Detect => 3,
        Stage::Encode(e) => if e == H264Encoder::Software {
            1
        } else {
            2
        },
        Stage::Over => 0,
    }
}

/// A conversion comes to an end: each outcome leaves less to be done.
pub proof fn conversion_ends(r: Run, to: Run, error: Option<Seq<char>>, cancelled: bool)
    requires
        r.wf(),
        r.stage != Stage::Over,
        r.moved(to, r.following(error, cancelled).stage),
    ensures
        steps_left(to) < steps_left(r),
        0 <= steps_left(to),
{
}

/// A video that was encoded leaves no temporary file behind, and a video that is not
/// complete is removed.
pub proof fn encoding_leaves_nothing_behind(r: Run, error: Option<Seq<char>>, cancelled: bool)
    requires
        r.stage is Encode,
        r.following(error, cancelled).action is Finish,
    ensures
        ({
            let end = r.following(error, cancelled).action->Finish_0;
            &&& end.adjusted == r.to_adjust.len()
            &&& end.list
            &&& end.captions == r.captions
            &&& end.output <==> end.error is Some
            &&& end.error == error
        }),
{
}

/// The video is encoded at most twice, the second time in software, and not again after
/// it was called off.
pub proof fn encoding_is_tried_again_once(r: Run, error: Option<Seq<char>>, cancelled: bool)
    requires
        r.stage is Encode,
    ensures
        r.following(error, cancelled).stage is Encode ==> {
            &&& r.following(error, cancelled).stage == Stage::Encode(H264Encoder::Software)
            &&& r.following(error, cancelled).action is EncodeAgain
            &&& r.stage != Stage::Encode(H264Encoder::Software)
            &&& !cancelled
            &&& error is Some
        },
{
}

/// A conversion that was called off adjusts and encodes nothing any more, and fails.
pub proof fn cancelled_conversion_stops(r: Run, error: Option<Seq<char>>)
    requires
        r.wf(),
    ensures
        !(r.following(error, true).action is Adjust),
        !(r.following(error, true).action is Encode),
        !(r.following(error, true).action is EncodeAgain),
        !(r.entering(r.adjust_from(0), true).action is Adjust),
{
}

} // verus!
