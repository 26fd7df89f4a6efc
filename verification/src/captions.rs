//! All captions: their look, and which one is selected.

use crate::caption::{
    after_removal, entry_views, index_view, lemma_selection_after, new_entry,
    remove_photo_number, selection_after, selection_without, shift_selection, EntryView,
    SubtitleEntry,
};
use crate::style::{plain_style, SubtitleStyle};
use crate::text::texts;
use vstd::prelude::*;

verus! {

/// The captions, the look that they share, and which one is selected.
pub struct Captions {
    pub entries: Vec<SubtitleEntry>,
    pub style: SubtitleStyle,
    pub selected: Option<usize>,
    /// The names of the fonts.
    pub fonts: Vec<String>,
}

/// What captions stand for.
pub struct CaptionsView {
    pub entries: Seq<EntryView>,
    pub style: SubtitleStyle,
    pub selected: Option<int>,
    pub fonts: Seq<Seq<char>>,
}

impl View for Captions {
    type V = CaptionsView;

    open spec fn view(&self) -> CaptionsView {
        CaptionsView {
            entries: entry_views(self.entries@),
            style: self.style,
            selected: index_view(self.selected),
            fonts: texts(self.fonts@),
        }
    }
}

/// No captions.
pub open spec fn no_captions(fonts: Seq<Seq<char>>) -> CaptionsView {
    CaptionsView { entries: seq![], style: plain_style(), selected: None, fonts }
}

/// The last place of `p` before `n`.
pub open spec fn last_place(photos: Seq<Seq<char>>, p: Seq<char>, n: int) -> Option<int>
    decreases n,
{
    if n <= 0 || n > photos.len() {
        None
    } else if photos[n - 1] == p {
        Some(n - 1)
    } else {
        last_place(photos, p, n - 1)
    }
}

/// The number that a photo has in the new list; a number that stood for no photo stays.
pub open spec fn renumbered(before: Seq<Seq<char>>, after: Seq<Seq<char>>, n: int) -> int {
    if 1 <= n <= before.len() {
        match last_place(after, before[n - 1], after.len() as int) {
            Some(i) => i + 1,
            None => n,
        }
    } else {
        n
    }
}

/// The captions with the numbers that their photos have in the new list.
pub open spec fn renumbered_entries(
    entries: Seq<EntryView>,
    before: Seq<Seq<char>>,
    after: Seq<Seq<char>>,
) -> Seq<EntryView> {
    entries.map_values(
        |e: EntryView|
            EntryView {
                start: renumbered(before, after, e.start),
                end: renumbered(before, after, e.end),
                ..e
            },
    )
}

impl CaptionsView {
    /// The selected caption is one of the list.
    pub open spec fn wf(self) -> bool {
        self.selected matches Some(k) ==> 0 <= k < self.entries.len()
    }

    /// The captions follow their photos into the new list.
    pub open spec fn renumbering(
        self,
        before: Seq<Seq<char>>,
        after: Seq<Seq<char>>,
    ) -> CaptionsView {
        CaptionsView { entries: renumbered_entries(self.entries, before, after), ..self }
    }

    /// Photo `i` has gone: captions move up, and those that covered nothing else go.
    pub open spec fn after_removal(self, i: int) -> CaptionsView {
        CaptionsView {
            entries: after_removal(self.entries, i + 1),
            selected: selection_after(self.entries, i + 1, self.selected),
            ..self
        }
    }

    /// No captions are left; the look stays.
    pub open spec fn emptied(self) -> CaptionsView {
        CaptionsView { entries: seq![], selected: None, ..self }
    }

    /// A new caption from photo number `start` to photo number `end`, which is selected.
    pub open spec fn with_new(self, start: int, end: int) -> CaptionsView {
        CaptionsView {
            entries: self.entries.push(new_entry(start, end)),
            selected: Some(self.entries.len() as int),
            ..self
        }
    }

    /// Caption `k` is removed.
    pub open spec fn removing(self, k: int) -> CaptionsView {
        CaptionsView {
            entries: self.entries.remove(k),
            selected: selection_without(self.selected, k),
            ..self
        }
    }
}

/// The places of the captions that are seen on photo number `n`, in order.
pub open spec fn seen_on(entries: Seq<EntryView>, n: int) -> Seq<int>
    decreases entries.len(),
{
    if entries.len() == 0 {
        seq![]
    } else if entries.last().shows_on(n) {
        seen_on(entries.drop_last(), n).push(entries.len() - 1)
    } else {
        seen_on(entries.drop_last(), n)
    }
}

/// The last place of `p`.
fn find_last(photos: &Vec<String>, p: &String) -> (r: Option<usize>)
    ensures
        index_view(r) == last_place(texts(photos@), p@, photos.len() as int),
        r matches Some(i) ==> i < photos.len(),
{
    let ghost v = texts(photos@);
    let mut n: usize = photos.len();
    while n > 0
        invariant
            n <= photos.len(),
            v == texts(photos@),
            last_place(v, p@, v.len() as int) == last_place(v, p@, n as int),
        decreases n,
    {
        assert(v[n - 1] == photos[n - 1]@);
        if photos[n - 1] == *p {
            return Some(n - 1);
        }
        n -= 1;
    }
    None
}

fn renumber(before: &Vec<String>, after: &Vec<String>, n: usize) -> (r: usize)
    ensures
        r == renumbered(texts(before@), texts(after@), n as int),
{
    if n >= 1 && n <= before.len() {
        assert(texts(before@)[n - 1] == before[n - 1]@);
        match find_last(after, &before[n - 1]) {
            Some(i) => i + 1,
            None => n,
        }
    } else {
        n
    }
}

impl Captions {
    /// No captions.
    pub fn new(fonts: Vec<String>) -> (r: Self)
        ensures
            r@ == no_captions(texts(fonts@)),
    {
        let r = Captions {
            entries: Vec::new(),
            style: SubtitleStyle::default(),
            selected: None,
            fonts,
        };
        assert(r@.entries =~= seq![]);
        r
    }

    /// The captions follow their photos into the new list.
    pub fn follow_photos(&mut self, before: &Vec<String>, after: &Vec<String>)
        ensures
            final(self)@ == old(self)@.renumbering(texts(before@), texts(after@)),
    {
        let ghost v = self@.entries;
        let ghost goal = renumbered_entries(v, texts(before@), texts(after@));
        let mut out: Vec<SubtitleEntry> = Vec::new();
        let mut k: usize = 0;
        while k < self.entries.len()
            invariant
                k <= self.entries.len(),
                *self == *old(self),
                v == entry_views(self.entries@),
                goal == renumbered_entries(v, texts(before@), texts(after@)),
                out.len() == k,
                forall|j: int| 0 <= j < k ==> (#[trigger] out[j])@ == goal[j],
            decreases self.entries.len() - k,
        {
            assert(v[k as int] == self.entries[k as int]@);
            let mut e = self.entries[k].clone();
            e.start = renumber(before, after, e.start);
            e.end = renumber(before, after, e.end);
            out.push(e);
            k += 1;
        }
        assert(entry_views(out@) =~= goal);
        self.entries = out;
    }

    /// Photo `i` has gone: captions move up, and those that covered nothing else go.
    pub fn follow_removal(&mut self, i: usize)
        requires
            i < usize::MAX,
            old(self)@.wf(),
        ensures
            final(self)@ == old(self)@.after_removal(i as int),
            final(self)@.wf(),
    {
        proof {
            lemma_selection_after(self@.entries, i + 1, self@.selected);
        }
        self.selected = remove_photo_number(&mut self.entries, self.selected, i + 1);
    }

    /// No captions are left; the look stays.
    pub fn clear(&mut self)
        ensures
            final(self)@ == old(self)@.emptied(),
    {
        self.entries = Vec::new();
        assert(entry_views(self.entries@) =~= seq![]);
        self.selected = None;
    }

    /// Adds a caption from photo number `start` to photo number `end` and selects it.
    pub fn add_text(&mut self, start: usize, end: usize)
        ensures
            final(self)@ == old(self)@.with_new(start as int, end as int),
            final(self)@.wf(),
    {
        let ghost v = self@;
        let place: usize = self.entries.len();
        let entry = SubtitleEntry::new(start, end);
        self.entries.push(entry);
        assert(entry_views(self.entries@) =~= v.entries.push(entry@));
        self.selected = Some(place);
    }

    /// The places of the captions that are seen on photo number `n`, in order.
    pub fn visible_on(&self, n: usize) -> (r: Vec<usize>)
        ensures
            r@.map_values(|k: usize| k as int) == seen_on(self@.entries, n as int),
    {
        let ghost v = self@.entries;
        let mut r: Vec<usize> = Vec::new();
        let mut k: usize = 0;
        assert(v.take(0) =~= seq![]);
        assert(r@.map_values(|k: usize| k as int) =~= seq![]);
        while k < self.entries.len()
            invariant
                k <= self.entries.len(),
                v == self@.entries,
                r@.map_values(|k: usize| k as int) == seen_on(v.take(k as int), n as int),
            decreases self.entries.len() - k,
        {
            assert(v[k as int] == self.entries[k as int]@);
            assert(v.take(k + 1).drop_last() =~= v.take(k as int));
            assert(v.take(k + 1).last() == v[k as int]);
            let ghost before = r@.map_values(|k: usize| k as int);
            if self.entries[k].visible_on(n) {
                r.push(k);
                assert(r@.map_values(|k: usize| k as int) =~= before.push(k as int));
            }
            k += 1;
        }
        assert(v.take(v.len() as int) =~= v);
        r
    }

    /// Removes caption `k`.
    pub fn remove_text(&mut self, k: usize)
        requires
            old(self)@.wf(),
            k < old(self)@.entries.len(),
        ensures
            final(self)@ == old(self)@.removing(k as int),
            final(self)@.wf(),
    {
        let ghost v = self@;
        let _ = self.entries.remove(k);
        assert(entry_views(self.entries@) =~= v.entries.remove(k as int));
        self.selected = shift_selection(self.selected, k);
    }
}

pub(crate) proof fn lemma_last_place(photos: Seq<Seq<char>>, p: Seq<char>, n: int)
    requires
        0 <= n <= photos.len(),
    ensures
        last_place(photos, p, n) matches Some(i) ==> 0 <= i < n && photos[i] == p,
        last_place(photos, p, n) is None ==> forall|i: int| 0 <= i < n ==> photos[i] != p,
    decreases n,
{
    if n > 0 {
        lemma_last_place(photos, p, n - 1);
    }
}

/// A caption stays on its photo when the photo is found in the new list.
pub proof fn renumbered_photo_is_the_same(
    before: Seq<Seq<char>>,
    after: Seq<Seq<char>>,
    n: int,
)
    requires
        1 <= n <= before.len(),
        after.contains(before[n - 1]),
    ensures
        1 <= renumbered(before, after, n) <= after.len(),
        after[renumbered(before, after, n) - 1] == before[n - 1],
{
    lemma_last_place(after, before[n - 1], after.len() as int);
}

/// To remove a caption that was just added brings back the captions that there were.
pub proof fn removing_undoes_adding(v: CaptionsView, start: int, end: int)
    ensures
        v.with_new(start, end).removing(v.entries.len() as int).entries == v.entries,
{
    assert(v.entries.push(new_entry(start, end)).remove(v.entries.len() as int) =~= v.entries);
}

} // verus!
