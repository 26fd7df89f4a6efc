//! The looks of the photos: adjustments of all photos and of single ones.

use crate::adjust::{neutral, Adjustments};
use crate::text::texts;
use vstd::hash_map::StringHashMap;
use vstd::hash_set::StringHashSet;
use vstd::prelude::*;

verus! {

/// The adjustments of all photos and of single ones. Photos are named by their paths.
pub struct Looks {
    /// The adjustments of all photos that have none of their own.
    pub adj: Adjustments,
    /// The adjustments that belong to one photo.
    pub overrides: StringHashMap<Adjustments>,
    /// The photos that are selected for adjustments of their own.
    pub chosen: StringHashSet,
    /// What the sliders show while photos are selected.
    pub shown: Adjustments,
}

/// What looks stand for.
pub struct LooksView {
    pub adj: Adjustments,
    pub overrides: Map<Seq<char>, Adjustments>,
    pub chosen: Set<Seq<char>>,
    pub shown: Adjustments,
}

impl View for Looks {
    type V = LooksView;

    open spec fn view(&self) -> LooksView {
        LooksView {
            adj: self.adj,
            overrides: self.overrides@,
            chosen: self.chosen@,
            shown: self.shown,
        }
    }
}

/// Photos as they are.
pub open spec fn plain_looks() -> LooksView {
    LooksView {
        adj: neutral(),
        overrides: Map::empty(),
        chosen: Set::empty(),
        shown: neutral(),
    }
}

/// The first place from `i` on whose photo is in `s`.
pub open spec fn first_from(photos: Seq<Seq<char>>, s: Set<Seq<char>>, i: int) -> Option<int>
    decreases photos.len() - i,
{
    if i < 0 || i >= photos.len() {
        None
    } else if s.contains(photos[i]) {
        Some(i)
    } else {
        first_from(photos, s, i + 1)
    }
}

/// The photos from place `lo` to place `hi`.
pub open spec fn photos_between(photos: Seq<Seq<char>>, lo: int, hi: int) -> Set<Seq<char>> {
    Set::new(|p: Seq<char>| exists|k: int| lo <= k <= hi && #[trigger] photos[k] == p)
}

impl LooksView {
    /// Only photos of the list are selected or have adjustments of their own.
    pub open spec fn fits(self, photos: Seq<Seq<char>>) -> bool {
        &&& forall|p: Seq<char>| #[trigger] self.chosen.contains(p) ==> photos.contains(p)
        &&& forall|p: Seq<char>| #[trigger]
            self.overrides.contains_key(p) ==> photos.contains(p)
    }

    /// The adjustments that a photo gets: its own, or those of all.
    pub open spec fn effective(self, p: Seq<char>) -> Adjustments {
        if self.overrides.contains_key(p) {
            self.overrides[p]
        } else {
            self.adj
        }
    }

    /// The sliders show what the first selected photo gets.
    pub open spec fn synced(self, photos: Seq<Seq<char>>) -> LooksView {
        match first_from(photos, self.chosen, 0) {
            Some(i) => LooksView { shown: self.effective(photos[i]), ..self },
            None => self,
        }
    }

    /// No photo is selected.
    pub open spec fn unselected(self) -> LooksView {
        LooksView { chosen: Set::empty(), ..self }
    }

    /// A photo joins or leaves the selection.
    pub open spec fn toggled(self, p: Seq<char>) -> LooksView {
        LooksView {
            chosen: if self.chosen.contains(p) {
                self.chosen.remove(p)
            } else {
                self.chosen.insert(p)
            },
            ..self
        }
    }

    /// The photos from place `lo` to place `hi` join the selection.
    pub open spec fn selecting_between(
        self,
        photos: Seq<Seq<char>>,
        lo: int,
        hi: int,
    ) -> LooksView {
        LooksView { chosen: self.chosen.union(photos_between(photos, lo, hi)), ..self }
    }

    /// Nothing is kept of a photo.
    pub open spec fn forgetting(self, p: Seq<char>) -> LooksView {
        LooksView { overrides: self.overrides.remove(p), chosen: self.chosen.remove(p), ..self }
    }

    /// Photo `p` has gone, and `rest` is left. If it was selected, the sliders show the
    /// first of those that still are.
    pub open spec fn after_removal(self, p: Seq<char>, rest: Seq<Seq<char>>) -> LooksView {
        if self.chosen.contains(p) {
            self.forgetting(p).synced(rest)
        } else {
            self.forgetting(p)
        }
    }

    /// The photos are gone.
    pub open spec fn emptied(self) -> LooksView {
        LooksView { overrides: Map::empty(), chosen: Set::empty(), ..self }
    }

    /// What the sliders show.
    pub open spec fn on_sliders(self) -> Adjustments {
        if self.chosen.is_empty() {
            self.adj
        } else {
            self.shown
        }
    }

    /// What a selected photo gets when the sliders go to `work`: zero after a reset, and
    /// otherwise only what was changed.
    pub open spec fn new_adj(self, p: Seq<char>, work: Adjustments, reset: bool) -> Adjustments {
        if reset {
            neutral()
        } else {
            self.effective(p).with_changes_spec(self.shown, work)
        }
    }

    /// The adjustments of single photos after the sliders went to `work`.
    pub open spec fn overridden(self, work: Adjustments, reset: bool) -> Map<
        Seq<char>,
        Adjustments,
    > {
        Map::new(
            |p: Seq<char>| self.overrides.contains_key(p) || self.chosen.contains(p),
            |p: Seq<char>|
                if self.chosen.contains(p) {
                    self.new_adj(p, work, reset)
                } else {
                    self.overrides[p]
                },
        )
    }

    /// The sliders went to `work`: all photos follow, or the selected ones only.
    pub open spec fn adjusted(self, work: Adjustments, reset: bool) -> LooksView {
        if self.chosen.is_empty() {
            LooksView { adj: work, ..self }
        } else {
            LooksView { shown: work, overrides: self.overridden(work, reset), ..self }
        }
    }

    /// The selected photos follow the adjustments of all photos again.
    pub open spec fn unpinned(self, photos: Seq<Seq<char>>) -> LooksView {
        (LooksView { overrides: self.overrides.remove_keys(self.chosen), ..self }).synced(photos)
    }
}

impl Looks {
    /// Photos as they are.
    pub fn new() -> (r: Self)
        ensures
            r@ == plain_looks(),
    {
        Looks {
            adj: Adjustments::default(),
            overrides: StringHashMap::new(),
            chosen: StringHashSet::new(),
            shown: Adjustments::default(),
        }
    }

    /// The adjustments that a photo gets: its own, or those of all.
    pub fn effective_adj(&self, photo: &str) -> (r: Adjustments)
        ensures
            r == self@.effective(photo@),
    {
        match self.overrides.get(photo) {
            Some(a) => *a,
            None => self.adj,
        }
    }

    /// The sliders show what the first selected photo gets.
    pub fn sync_sel_adj(&mut self, photos: &Vec<String>)
        ensures
            final(self)@ == old(self)@.synced(texts(photos@)),
    {
        let ghost v = self@;
        let ghost list = texts(photos@);
        let mut i: usize = 0;
        while i < photos.len()
            invariant
                i <= photos.len(),
                list == texts(photos@),
                self@ == v,
                v == old(self)@,
                first_from(list, v.chosen, 0) == first_from(list, v.chosen, i as int),
            decreases photos.len() - i,
        {
            assert(list[i as int] == photos[i as int]@);
            if self.chosen.contains(photos[i].as_str()) {
                self.shown = self.effective_adj(photos[i].as_str());
                return;
            }
            i += 1;
        }
    }

    /// No photo is selected.
    pub fn unselect(&mut self)
        ensures
            final(self)@ == old(self)@.unselected(),
    {
        self.chosen.clear();
    }

    /// A photo joins or leaves the selection.
    pub fn toggle(&mut self, photo: &str)
        ensures
            final(self)@ == old(self)@.toggled(photo@),
    {
        let ghost v = self@;
        if !self.chosen.remove(photo) {
            assert(v.chosen.remove(photo@) =~= v.chosen);
            let _ = self.chosen.insert(photo.to_owned());
        }
    }

    /// The photos from place `lo` to place `hi` join the selection.
    pub fn select_between(&mut self, photos: &Vec<String>, lo: usize, hi: usize)
        requires
            lo <= hi < photos.len(),
        ensures
            final(self)@ == old(self)@.selecting_between(texts(photos@), lo as int, hi as int),
    {
        let ghost v = self@;
        let ghost list = texts(photos@);
        let mut k: usize = lo;
        assert(v.chosen.union(photos_between(list, lo as int, lo - 1)) =~= v.chosen);
        while k <= hi
            invariant
                lo <= k <= hi + 1 <= photos.len(),
                list == texts(photos@),
                self@ == v.selecting_between(list, lo as int, k - 1),
            decreases hi + 1 - k,
        {
            assert(list[k as int] == photos[k as int]@);
            let _ = self.chosen.insert(photos[k].clone());
            let ghost fewer = photos_between(list, lo as int, k - 1);
            let ghost more = photos_between(list, lo as int, k as int);
            assert(self@.chosen =~= v.chosen.union(more)) by {
                assert forall|p: Seq<char>|
                    self@.chosen.contains(p) == v.chosen.union(more).contains(p) by {
                    if more.contains(p) {
                        let j = choose|j: int| lo <= j <= k && #[trigger] list[j] == p;
                        if j < k {
                            assert(fewer.contains(p));
                        }
                    }
                    if fewer.contains(p) {
                        let j = choose|j: int| lo <= j <= k - 1 && #[trigger] list[j] == p;
                        assert(list[j] == p);
                    }
                }
            }
            k += 1;
        }
    }

    /// Photo `p` has gone, and `rest` is left. If it was selected, the sliders show the
    /// first of those that still are.
    pub fn follow_removal(&mut self, p: &str, rest: &Vec<String>)
        ensures
            final(self)@ == old(self)@.after_removal(p@, texts(rest@)),
    {
        self.overrides.remove(p);
        let was_chosen: bool = self.chosen.remove(p);
        if was_chosen {
            self.sync_sel_adj(rest);
        }
    }

    /// The photos are gone.
    pub fn clear(&mut self)
        ensures
            final(self)@ == old(self)@.emptied(),
    {
        self.overrides.clear();
        self.chosen.clear();
    }

    /// What the sliders show.
    pub fn slider_values(&self) -> (r: Adjustments)
        ensures
            r == self@.on_sliders(),
    {
        if self.chosen.is_empty() {
            self.adj
        } else {
            self.shown
        }
    }

    /// The sliders went to `work`: all photos follow, or the selected ones only. A photo
    /// with adjustments of its own keeps what was not changed, except after a reset.
    pub fn apply(&mut self, photos: &Vec<String>, work: Adjustments, reset: bool)
        requires
            old(self)@.fits(texts(photos@)),
        ensures
            final(self)@ == old(self)@.adjusted(work, reset),
            final(self)@.fits(texts(photos@)),
    {
        if self.chosen.is_empty() {
            self.adj = work;
        } else {
            self.override_chosen(photos, work, reset);
            self.shown = work;
        }
    }

    fn override_chosen(&mut self, photos: &Vec<String>, work: Adjustments, reset: bool)
        requires
            old(self)@.fits(texts(photos@)),
        ensures
            final(self)@ == (LooksView {
                overrides: old(self)@.overridden(work, reset),
                ..old(self)@
            }),
    {
        let ghost v = self@;
        let ghost list = texts(photos@);
        let from = self.shown;
        let mut i: usize = 0;
        while i < photos.len()
            invariant
                i <= photos.len(),
                list == texts(photos@),
                from == v.shown,
                self@ == (LooksView { overrides: self@.overrides, ..v }),
                forall|p: Seq<char>| #[trigger]
                    self@.overrides.contains_key(p) <==> v.overrides.contains_key(p) || (
                    v.chosen.contains(p) && list.take(i as int).contains(p)),
                forall|p: Seq<char>|
                    self@.overrides.contains_key(p) ==> #[trigger] self@.overrides[p] == (
                    if v.chosen.contains(p) && list.take(i as int).contains(p) {
                        v.new_adj(p, work, reset)
                    } else {
                        v.overrides[p]
                    }),
            decreases photos.len() - i,
        {
            let ghost q = list[i as int];
            assert(q == photos[i as int]@);
            proof {
                lemma_one_more(list, i as int);
            }
            if self.chosen.contains(photos[i].as_str()) {
                let a = if reset {
                    Adjustments::default()
                } else {
                    self.effective_adj(photos[i].as_str()).with_changes(from, work)
                };
                assert(a == v.new_adj(q, work, reset));
                self.overrides.insert(photos[i].clone(), a);
            }
            i += 1;
        }
        assert(list.take(list.len() as int) =~= list);
        assert(self@.overrides =~= v.overridden(work, reset));
    }

    /// The selected photos follow the adjustments of all photos again.
    pub fn unpin(&mut self, photos: &Vec<String>)
        requires
            old(self)@.fits(texts(photos@)),
        ensures
            final(self)@ == old(self)@.unpinned(texts(photos@)),
            final(self)@.fits(texts(photos@)),
    {
        self.drop_overrides(photos);
        self.sync_sel_adj(photos);
    }

    fn drop_overrides(&mut self, photos: &Vec<String>)
        requires
            old(self)@.fits(texts(photos@)),
        ensures
            final(self)@ == (LooksView {
                overrides: old(self)@.overrides.remove_keys(old(self)@.chosen),
                ..old(self)@
            }),
    {
        let ghost v = self@;
        let ghost list = texts(photos@);
        let mut i: usize = 0;
        while i < photos.len()
            invariant
                i <= photos.len(),
                list == texts(photos@),
                self@ == (LooksView { overrides: self@.overrides, ..v }),
                forall|p: Seq<char>| #[trigger]
                    self@.overrides.contains_key(p) <==> v.overrides.contains_key(p) && !(
                    v.chosen.contains(p) && list.take(i as int).contains(p)),
                forall|p: Seq<char>|
                    self@.overrides.contains_key(p) ==> #[trigger] self@.overrides[p]
                        == v.overrides[p],
            decreases photos.len() - i,
        {
            assert(list[i as int] == photos[i as int]@);
            proof {
                lemma_one_more(list, i as int);
            }
            if self.chosen.contains(photos[i].as_str()) {
                self.overrides.remove(photos[i].as_str());
            }
            i += 1;
        }
        assert(list.take(list.len() as int) =~= list);
        assert(self@.overrides =~= v.overrides.remove_keys(v.chosen));
    }
}

proof fn lemma_one_more(list: Seq<Seq<char>>, i: int)
    requires
        0 <= i < list.len(),
    ensures
        forall|p: Seq<char>| #[trigger]
            list.take(i + 1).contains(p) <==> list.take(i).contains(p) || p == list[i],
{
    let head = list.take(i);
    let more = list.take(i + 1);
    assert forall|p: Seq<char>| #[trigger] more.contains(p) <==> head.contains(p) || p
        == list[i] by {
        if head.contains(p) {
            let k = choose|k: int| 0 <= k < head.len() && head[k] == p;
            assert(more[k] == p);
        }
        assert(more[i] == list[i]);
        if more.contains(p) {
            let k = choose|k: int| 0 <= k < more.len() && more[k] == p;
            if k < i {
                assert(head[k] == p);
            }
        }
    }
}

/// Selecting photos of the list keeps to the list.
pub proof fn selecting_keeps_to_the_list(
    v: LooksView,
    photos: Seq<Seq<char>>,
    i: int,
    lo: int,
    hi: int,
)
    requires
        v.fits(photos),
        0 <= i < photos.len(),
        0 <= lo <= hi < photos.len(),
    ensures
        v.unselected().fits(photos),
        v.toggled(photos[i]).synced(photos).fits(photos),
        v.selecting_between(photos, lo, hi).synced(photos).fits(photos),
{
    let w = v.selecting_between(photos, lo, hi);
    assert forall|p: Seq<char>| #[trigger] w.chosen.contains(p) implies photos.contains(p) by {
        if photos_between(photos, lo, hi).contains(p) {
            let k = choose|k: int| lo <= k <= hi && #[trigger] photos[k] == p;
            assert(photos[k] == p);
        }
    }
}

/// Only selected photos change their adjustments, and of theirs only what was changed on
/// the sliders.
pub proof fn adjusting_leaves_the_rest(v: LooksView, work: Adjustments, p: Seq<char>)
    requires
        !v.chosen.is_empty(),
    ensures
        !v.chosen.contains(p) ==> v.adjusted(work, false).effective(p) == v.effective(p),
        v.chosen.contains(p) ==> v.adjusted(work, false).effective(p) == v.effective(
            p,
        ).with_changes_spec(v.shown, work),
        v.chosen.contains(p) ==> v.adjusted(work, true).effective(p) == neutral(),
{
}

/// Unpinned photos get the adjustments of all photos.
pub proof fn unpinned_photos_follow_the_rest(v: LooksView, photos: Seq<Seq<char>>, p: Seq<char>)
    requires
        v.chosen.contains(p),
    ensures
        v.unpinned(photos).effective(p) == v.adj,
{
}

/// To toggle a photo twice leaves the selection as it was.
pub proof fn toggling_twice_changes_nothing(v: LooksView, p: Seq<char>)
    ensures
        v.toggled(p).toggled(p) == v,
{
    if v.chosen.contains(p) {
        assert(v.chosen.remove(p).insert(p) =~= v.chosen);
    } else {
        assert(v.chosen.insert(p).remove(p) =~= v.chosen);
    }
}

} // verus!
