//! The preview: which photo it shows, and whether it has to be rendered.

use crate::caption::index_view;
use crate::text::text_view;
use vstd::prelude::*;

verus! {

/// The preview of one photo.
pub struct Preview {
    /// The photo that is shown.
    pub selected: Option<usize>,
    /// Whether the picture has to be rendered.
    pub dirty: bool,
    /// Whether a picture is being rendered.
    pub rendering: bool,
    /// Whether there is a rendered picture.
    pub ready: bool,
    pub error: Option<String>,
    /// The photo whose neighbours were prepared.
    pub prefetched: Option<usize>,
    /// Whether the strip of photos is to scroll to the shown one.
    pub scroll: bool,
}

/// What a preview stands for.
pub struct PreviewView {
    pub selected: Option<int>,
    pub dirty: bool,
    pub rendering: bool,
    pub ready: bool,
    pub error: Option<Seq<char>>,
    pub prefetched: Option<int>,
    pub scroll: bool,
}

impl View for Preview {
    type V = PreviewView;

    open spec fn view(&self) -> PreviewView {
        PreviewView {
            selected: index_view(self.selected),
            dirty: self.dirty,
            rendering: self.rendering,
            ready: self.ready,
            error: text_view(self.error),
            prefetched: index_view(self.prefetched),
            scroll: self.scroll,
        }
    }
}

/// Nothing is shown.
pub open spec fn no_preview() -> PreviewView {
    PreviewView {
        selected: None,
        dirty: false,
        rendering: false,
        ready: false,
        error: None,
        prefetched: None,
        scroll: false,
    }
}

impl PreviewView {
    /// The preview shows one of `n` photos if there is one, and nothing otherwise.
    pub open spec fn fits(self, n: int) -> bool {
        match self.selected {
            Some(i) => 0 <= i < n,
            None => n == 0,
        }
    }

    /// The picture has to be rendered anew.
    pub open spec fn dirtied(self) -> PreviewView {
        PreviewView { dirty: true, error: None, prefetched: None, ..self }
    }

    /// Another photo is shown, or none.
    pub open spec fn selecting(self, idx: Option<int>) -> PreviewView {
        if self.selected == idx {
            self
        } else if idx is Some {
            (PreviewView { selected: idx, ready: false, ..self }).dirtied()
        } else {
            PreviewView { selected: idx, ready: false, ..self }
        }
    }

    /// Another photo is shown, and the strip scrolls to it.
    pub open spec fn going_to(self, i: int) -> PreviewView {
        PreviewView { scroll: true, ..self.selecting(Some(i)) }
    }

    /// The photo that the keys start from.
    pub open spec fn current(self) -> int {
        match self.selected {
            Some(i) => i,
            None => 0,
        }
    }

    /// The photo in front of the shown one, if there is one.
    pub open spec fn stepping_back(self) -> PreviewView {
        if self.current() > 0 {
            self.going_to(self.current() - 1)
        } else {
            self
        }
    }

    /// The photo behind the shown one, if there is one among `n`.
    pub open spec fn stepping_on(self, n: int) -> PreviewView {
        if self.current() + 1 < n {
            self.going_to(self.current() + 1)
        } else {
            self
        }
    }

    /// Photo `i` was removed and `left` photos are left: its neighbour takes its place.
    pub open spec fn after_removal(self, i: int, left: int) -> PreviewView {
        match self.selected {
            Some(s) => if s == i {
                (PreviewView { selected: None, ..self }).selecting(
                    if left == 0 {
                        None
                    } else if s < left {
                        Some(s)
                    } else {
                        Some(left - 1)
                    },
                )
            } else if s > i {
                PreviewView { selected: Some(s - 1), ..self }
            } else {
                self
            },
            None => self,
        }
    }

    /// The photos are gone.
    pub open spec fn emptied(self) -> PreviewView {
        PreviewView { selected: None, ready: false, error: None, ..self }
    }

    /// A picture was rendered, or failed. It counts only if its photo is still shown.
    pub open spec fn rendered(self, shown: bool, error: Option<Seq<char>>) -> PreviewView {
        let free = PreviewView { rendering: false, ..self };
        if !shown {
            free
        } else if error is Some {
            PreviewView { error, ..free }
        } else {
            PreviewView { ready: true, ..free }
        }
    }

    /// The rendering is gone without a result.
    pub open spec fn render_lost(self) -> PreviewView {
        PreviewView { rendering: false, error: Some("預覽渲染異常中斷"@), ..self }
    }

    /// A picture is being rendered with the newest settings.
    pub open spec fn render_begun(self) -> PreviewView {
        PreviewView { rendering: true, dirty: false, ..self }
    }
}

impl Preview {
    /// Nothing is shown.
    pub fn new() -> (r: Self)
        ensures
            r@ == no_preview(),
    {
        Preview {
            selected: None,
            dirty: false,
            rendering: false,
            ready: false,
            error: None,
            prefetched: None,
            scroll: false,
        }
    }

    /// The picture has to be rendered anew.
    pub fn mark_dirty(&mut self)
        ensures
            final(self)@ == old(self)@.dirtied(),
    {
        self.dirty = true;
        self.error = None;
        self.prefetched = None;
    }

    /// Shows another photo, or none.
    pub fn select(&mut self, idx: Option<usize>)
        ensures
            final(self)@ == old(self)@.selecting(index_view(idx)),
    {
        if self.selected != idx {
            assert(self@.selected != index_view(idx));
            self.selected = idx;
            self.ready = false;
            if idx.is_some() {
                self.mark_dirty();
            }
        }
    }

    /// Shows another photo, and the strip scrolls to it.
    pub fn go_to(&mut self, i: usize)
        ensures
            final(self)@ == old(self)@.going_to(i as int),
    {
        self.select(Some(i));
        self.scroll = true;
    }

    /// The photo that the keys start from.
    pub fn current_index(&self) -> (r: usize)
        ensures
            r == self@.current(),
    {
        match self.selected {
            Some(i) => i,
            None => 0,
        }
    }

    /// Shows the photo in front of the shown one, if there is one.
    pub fn step_back(&mut self)
        ensures
            final(self)@ == old(self)@.stepping_back(),
    {
        let cur: usize = self.current_index();
        if cur > 0 {
            self.go_to(cur - 1);
        }
    }

    /// Shows the photo behind the shown one, if there is one among `n`.
    pub fn step_on(&mut self, n: usize)
        ensures
            final(self)@ == old(self)@.stepping_on(n as int),
    {
        let cur: usize = self.current_index();
        if cur < n && cur + 1 < n {
            self.go_to(cur + 1);
        }
    }

    /// The arrow keys show a neighbour of the photo that is shown among `n`.
    pub fn arrow_keys(&mut self, left: bool, right: bool, n: usize)
        ensures
            final(self)@ == old(self)@.arrows(left, right, n as int),
    {
        let cur: usize = self.current_index();
        if right {
            self.step_on(n);
        }
        if left && cur > 0 {
            self.go_to(cur - 1);
        }
    }

    /// Photo `i` was removed and `left` photos are left: its neighbour takes its place.
    pub fn follow_removal(&mut self, i: usize, left: usize)
        ensures
            final(self)@ == old(self)@.after_removal(i as int, left as int),
    {
        match self.selected {
            Some(s) => {
                if s == i {
                    let next: Option<usize> = if left == 0 {
                        None
                    } else if s < left {
                        Some(s)
                    } else {
                        Some(left - 1)
                    };
                    self.selected = None;
                    self.select(next);
                } else if s > i {
                    self.selected = Some(s - 1);
                }
            },
            None => {},
        }
    }

    /// The photos are gone.
    pub fn clear(&mut self)
        ensures
            final(self)@ == old(self)@.emptied(),
    {
        self.selected = None;
        self.ready = false;
        self.error = None;
    }

    /// A picture was rendered, or failed; `shown` says whether its photo is still shown.
    /// The result says whether the picture is to be shown.
    pub fn on_rendered(&mut self, shown: bool, error: Option<String>) -> (r: bool)
        ensures
            final(self)@ == old(self)@.rendered(shown, text_view(error)),
            r == (shown && error is None),
    {
        self.rendering = false;
        if !shown {
            false
        } else if error.is_some() {
            self.error = error;
            false
        } else {
            self.ready = true;
            true
        }
    }

    /// The rendering is gone without a result.
    pub fn on_render_lost(&mut self)
        ensures
            final(self)@ == old(self)@.render_lost(),
    {
        self.rendering = false;
        self.error = Some("預覽渲染異常中斷".to_owned());
    }

    /// A picture is being rendered with the newest settings.
    pub fn begin_render(&mut self)
        ensures
            final(self)@ == old(self)@.render_begun(),
    {
        self.rendering = true;
        self.dirty = false;
    }
}

impl PreviewView {
    /// The arrow keys show a neighbour of the photo that is shown among `n`; with both at
    /// once the one to the left counts.
    pub open spec fn arrows(self, left: bool, right: bool, n: int) -> PreviewView {
        let moved = if right {
            self.stepping_on(n)
        } else {
            self
        };
        if left && self.current() > 0 {
            moved.going_to(self.current() - 1)
        } else {
            moved
        }
    }
}

/// Steps stay among the photos.
pub proof fn steps_stay_among_the_photos(v: PreviewView, left: bool, right: bool, n: int)
    requires
        v.fits(n),
    ensures
        v.stepping_back().fits(n),
        v.stepping_on(n).fits(n),
        v.arrows(left, right, n).fits(n),
{
}

/// A step on is undone by a step back.
pub proof fn step_back_undoes_step_on(v: PreviewView, n: int)
    requires
        v.fits(n),
        v.current() + 1 < n,
    ensures
        v.stepping_on(n).stepping_back().selected == v.selected,
{
}

/// After a photo was removed the preview shows one of those that are left, if there is
/// one.
pub proof fn preview_survives_a_removal(v: PreviewView, i: int, n: int)
    requires
        v.fits(n),
        0 <= i < n,
    ensures
        v.after_removal(i, n - 1).fits(n - 1),
{
}

/// A picture of a photo that is no longer shown changes nothing but that another one can
/// be rendered.
pub proof fn late_pictures_do_not_count(v: PreviewView, error: Option<Seq<char>>)
    ensures
        v.rendered(false, error) == (PreviewView { rendering: false, ..v }),
{
}

} // verus!
