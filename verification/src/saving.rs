//! Saving a file so that it is never half written: first under another name, then under
//! its own.

use crate::text::text_view;
use vstd::prelude::*;

verus! {

/// What is to be done next.
#[derive(Clone, Copy, PartialEq, Eq, Structural, Debug)]
pub enum SaveStep {
    /// Write the contents to the draft, a file of another name beside the file.
    Write,
    /// Give the draft the name of the file.
    Replace,
    /// Remove the draft.
    Discard,
    Done,
}

/// The saving of a file: what is to be done next, and why it failed, if it did.
pub struct Saving {
    pub step: SaveStep,
    pub error: Option<String>,
    /// Whether a draft that could not be written is removed too.
    pub tidy: bool,
}

/// What the saving of a file stands for.
pub struct SavingView {
    pub step: SaveStep,
    pub error: Option<Seq<char>>,
    pub tidy: bool,
}

impl View for Saving {
    type V = SavingView;

    open spec fn view(&self) -> SavingView {
        SavingView { step: self.step, error: text_view(self.error), tidy: self.tidy }
    }
}

impl SavingView {
    /// After a step was done, or could not be.
    pub open spec fn following(self, error: Option<Seq<char>>) -> SavingView {
        match self.step {
            SaveStep::Write => match error {
                Some(e) => SavingView {
                    step: if self.tidy {
                        SaveStep::Discard
                    } else {
                        SaveStep::Done
                    },
                    error,
                    ..self
                },
                None => SavingView { step: SaveStep::Replace, ..self },
            },
            SaveStep::Replace => match error {
                Some(e) => SavingView { step: SaveStep::Discard, error, ..self },
                None => SavingView { step: SaveStep::Done, ..self },
            },
            _ => SavingView { step: SaveStep::Done, ..self },
        }
    }
}

impl Saving {
    /// A file that is to be saved.
    pub fn new(tidy: bool) -> (r: Self)
        ensures
            r@ == (SavingView { step: SaveStep::Write, error: None, tidy }),
    {
        Saving { step: SaveStep::Write, error: None, tidy }
    }

    /// The step was done, or could not be.
    pub fn after(&mut self, error: Option<String>)
        ensures
            final(self)@ == old(self)@.following(text_view(error)),
    {
        match self.step {
            SaveStep::Write => {
                if error.is_some() {
                    self.error = error;
                    self.step = if self.tidy {
                        SaveStep::Discard
                    } else {
                        SaveStep::Done
                    };
                } else {
                    self.step = SaveStep::Replace;
                }
            },
            SaveStep::Replace => {
                if error.is_some() {
                    self.error = error;
                    self.step = SaveStep::Discard;
                } else {
                    self.step = SaveStep::Done;
                }
            },
            _ => {
                self.step = SaveStep::Done;
            },
        }
    }
}

/// A file and its draft.
pub struct Files {
    pub file: Option<Seq<u8>>,
    pub draft: Option<Seq<u8>>,
}

/// Whether the files can be `after` when a step was done with `contents`, or, if not
/// `done`, could not be. A draft that could not be written may hold anything.
pub open spec fn stepped(
    before: Files,
    step: SaveStep,
    contents: Seq<u8>,
    done: bool,
    after: Files,
) -> bool {
    match step {
        SaveStep::Write => after.file == before.file && (done ==> after.draft == Some(contents)),
        SaveStep::Replace => if done {
            after == (Files { file: before.draft, draft: None })
        } else {
            after == before
        },
        SaveStep::Discard => after.file == before.file,
        SaveStep::Done => after == before,
    }
}

/// What the file is at each step when `contents` are to take the place of `earlier`.
pub open spec fn whole(
    s: SavingView,
    files: Files,
    earlier: Option<Seq<u8>>,
    contents: Seq<u8>,
) -> bool {
    match s.step {
        SaveStep::Write => s.error is None && files.file == earlier,
        SaveStep::Replace => s.error is None && files.file == earlier && files.draft == Some(
            contents,
        ),
        SaveStep::Discard => s.error is Some && files.file == earlier,
        SaveStep::Done => files.file == (if s.error is None {
            Some(contents)
        } else {
            earlier
        }),
    }
}

/// At every moment the file holds what it held before or what was to be saved, and in
/// the end the latter exactly if saving succeeded.
pub proof fn saving_never_breaks_the_file(
    s: SavingView,
    before: Files,
    error: Option<Seq<char>>,
    after: Files,
    earlier: Option<Seq<u8>>,
    contents: Seq<u8>,
)
    requires
        whole(s, before, earlier, contents),
        stepped(before, s.step, contents, error is None, after),
    ensures
        whole(s.following(error), after, earlier, contents),
        after.file == earlier || after.file == Some(contents),
{
}

} // verus!
