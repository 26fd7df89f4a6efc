//! Captions: pieces of text that are shown over a run of photos.

use crate::adjust::{clamp, clamp_int};
use crate::scalar::{one, zero, Scalar};
use crate::text::{blank, is_blank};
use vstd::prelude::*;

verus! {

broadcast use vstd::seq_lib::group_seq_properties;

/// A caption: shown from photo `start` to photo `end`, counted from one, both included.
/// `x` and `y` give the centre as a part of the picture, `size` is for a picture of 1080
/// lines, and `rot` is in degrees, clockwise.
pub struct SubtitleEntry {
    pub start: usize,
    pub end: usize,
    pub text: String,
    pub x: Scalar,
    pub y: Scalar,
    pub size: i32,
    pub rot: Scalar,
}

/// What a caption stands for.
pub struct EntryView {
    pub start: int,
    pub end: int,
    pub text: Seq<char>,
    pub x: Scalar,
    pub y: Scalar,
    pub size: i32,
    pub rot: Scalar,
}

impl View for SubtitleEntry {
    type V = EntryView;

    open spec fn view(&self) -> EntryView {
        EntryView {
            start: self.start as int,
            end: self.end as int,
            text: self.text@,
            x: self.x,
            y: self.y,
            size: self.size,
            rot: self.rot,
        }
    }
}

/// What a list of captions stands for.
pub open spec fn entry_views(v: Seq<SubtitleEntry>) -> Seq<EntryView> {
    v.map_values(|e: SubtitleEntry| e@)
}

/// A half turn to the right.
pub open spec fn half_turn() -> Scalar {
    Scalar { bits: 0x4334_0000 }
}

/// A half turn to the left.
pub open spec fn half_turn_left() -> Scalar {
    Scalar { bits: 0xC334_0000 }
}

/// A new caption: no text yet, in the middle of the lower part, upright.
pub open spec fn new_entry(start: int, end: int) -> EntryView {
    EntryView {
        start,
        end,
        text: seq![],
        x: Scalar { bits: 0x3F00_0000 },
        y: Scalar { bits: 0x3F59_999A },
        size: 48,
        rot: zero(),
    }
}

impl EntryView {
    /// The caption after photo number `n` has gone: what stood behind it moves up.
    pub open spec fn shifted(self, n: int) -> EntryView {
        EntryView {
            start: if self.start > n {
                self.start - 1
            } else {
                self.start
            },
            end: if self.end >= n {
                self.end - 1
            } else {
                self.end
            },
            ..self
        }
    }

    /// Whether the caption still covers a photo after photo number `n` has gone.
    pub open spec fn survives(self, n: int) -> bool {
        self.shifted(n).start <= self.shifted(n).end
    }

    /// Whether the caption is seen on photo number `n`.
    pub open spec fn shows_on(self, n: int) -> bool {
        self.start <= n <= self.end && !is_blank(self.text)
    }

    /// The caption with its values moved into the ranges of their controls.
    pub open spec fn in_range(self) -> EntryView {
        EntryView {
            x: self.x.clamped_spec(zero(), one()),
            y: self.y.clamped_spec(zero(), one()),
            size: clamp_int(self.size as int, 8, 300) as i32,
            rot: self.rot.clamped_spec(half_turn_left(), half_turn()),
            ..self
        }
    }

    /// The caption after the photos that are not `kept` have gone, if any of the photos
    /// that it covers is left.
    pub open spec fn remapped(self, kept: Seq<bool>) -> Option<EntryView> {
        let n = kept.len() as int;
        let start = clamp_int(self.start, 1, n);
        let end = clamp_int(self.end, start, n);
        let moved = EntryView {
            start: count_kept(kept, start - 1) + 1,
            end: count_kept(kept, end),
            ..self
        };
        if n == 0 || moved.end < moved.start {
            None
        } else {
            Some(moved)
        }
    }
}

/// How many of the first `n` photos are kept.
pub open spec fn count_kept(kept: Seq<bool>, n: int) -> int
    decreases n,
{
    if n <= 0 {
        0
    } else {
        count_kept(kept, n - 1) + if kept[n - 1] {
            1int
        } else {
            0
        }
    }
}

impl Clone for SubtitleEntry {
    fn clone(&self) -> (r: Self)
        ensures
            r@ == self@,
    {
        SubtitleEntry {
            start: self.start,
            end: self.end,
            text: self.text.clone(),
            x: self.x,
            y: self.y,
            size: self.size,
            rot: self.rot,
        }
    }
}

impl Default for SubtitleEntry {
    fn default() -> (r: Self)
        ensures
            r@ == new_entry(1, 1),
    {
        SubtitleEntry::new(1, 1)
    }
}

impl SubtitleEntry {
    /// A new caption: no text yet, in the middle of the lower part, upright.
    pub fn new(start: usize, end: usize) -> (r: Self)
        ensures
            r@ == new_entry(start as int, end as int),
    {
        let r = SubtitleEntry {
            start,
            end,
            text: String::new(),
            x: Scalar { bits: 0x3F00_0000 },
            y: Scalar { bits: 0x3F59_999A },
            size: 48,
            rot: Scalar { bits: 0 },
        };
        assert(r@.text =~= seq![]);
        r
    }

    /// Whether the caption is seen on photo number `n`.
    pub fn visible_on(&self, n: usize) -> (r: bool)
        ensures
            r == self@.shows_on(n as int),
    {
        self.start <= n && n <= self.end && !blank(self.text.as_str())
    }

    /// Follows the removal of photo number `n`; says whether a photo is left.
    pub fn shift(&mut self, n: usize) -> (r: bool)
        requires
            n >= 1,
        ensures
            final(self)@ == old(self)@.shifted(n as int),
            r == old(self)@.survives(n as int),
    {
        if self.start > n {
            self.start = self.start - 1;
        }
        if self.end >= n {
            self.end = self.end - 1;
        }
        self.start <= self.end
    }

    /// Keeps the run of photos in order after one of its ends was moved.
    pub fn mend_range(&mut self)
        ensures
            final(self)@ == (EntryView {
                end: if old(self)@.end < old(self)@.start {
                    old(self)@.start
                } else {
                    old(self)@.end
                },
                ..old(self)@
            }),
    {
        if self.end < self.start {
            self.end = self.start;
        }
    }

    /// Moves the values into the ranges of their controls.
    pub fn clamp_values(&mut self)
        ensures
            final(self)@ == old(self)@.in_range(),
    {
        let lo = Scalar { bits: 0 };
        let hi = Scalar { bits: 0x3F80_0000 };
        self.x = self.x.clamped(lo, hi);
        self.y = self.y.clamped(lo, hi);
        self.size = clamp(self.size, 8, 300);
        self.rot = self.rot.clamped(Scalar { bits: 0xC334_0000 }, Scalar { bits: 0x4334_0000 });
    }
}

/// Whether any caption is seen on photo number `n`.
pub open spec fn captioned(entries: Seq<EntryView>, n: int) -> bool {
    exists|k: int| 0 <= k < entries.len() && (#[trigger] entries[k]).shows_on(n)
}

/// Whether any caption is seen on photo number `n`.
pub fn has_caption(entries: &Vec<SubtitleEntry>, n: usize) -> (r: bool)
    ensures
        r == captioned(entry_views(entries@), n as int),
{
    let ghost v = entry_views(entries@);
    let mut k: usize = 0;
    while k < entries.len()
        invariant
            k <= entries.len(),
            v == entry_views(entries@),
            forall|j: int| 0 <= j < k ==> !(#[trigger] v[j]).shows_on(n as int),
        decreases entries.len() - k,
    {
        assert(v[k as int] == entries[k as int]@);
        if entries[k].visible_on(n) {
            return true;
        }
        k += 1;
    }
    false
}

/// The captions that are left after photo number `n` has gone, in order.
pub open spec fn after_removal(entries: Seq<EntryView>, n: int) -> Seq<EntryView>
    decreases entries.len(),
{
    if entries.len() == 0 {
        seq![]
    } else if entries.last().survives(n) {
        after_removal(entries.drop_last(), n).push(entries.last().shifted(n))
    } else {
        after_removal(entries.drop_last(), n)
    }
}

/// How many of the first `k` captions go with photo number `n`.
pub open spec fn gone_before(entries: Seq<EntryView>, n: int, k: int) -> int
    decreases k,
{
    if k <= 0 {
        0
    } else {
        gone_before(entries, n, k - 1) + if entries[k - 1].survives(n) {
            0int
        } else {
            1
        }
    }
}

/// The place of the selected caption after photo number `n` has gone.
pub open spec fn selection_after(entries: Seq<EntryView>, n: int, sel: Option<int>) -> Option<
    int,
> {
    match sel {
        Some(s) => if s < entries.len() && !entries[s].survives(n) {
            None
        } else if s < entries.len() {
            Some(s - gone_before(entries, n, s))
        } else {
            Some(s - gone_before(entries, n, entries.len() as int))
        },
        None => None,
    }
}

/// The place of a selected item after item `k` was taken out of its list.
pub open spec fn selection_without(sel: Option<int>, k: int) -> Option<int> {
    match sel {
        Some(s) => if s == k {
            None
        } else if s > k {
            Some(s - 1)
        } else {
            Some(s)
        },
        None => None,
    }
}

pub open spec fn index_view(i: Option<usize>) -> Option<int> {
    match i {
        Some(k) => Some(k as int),
        None => None,
    }
}

/// The place of a selected item after item `k` was taken out of its list.
pub fn shift_selection(sel: Option<usize>, k: usize) -> (r: Option<usize>)
    ensures
        index_view(r) == selection_without(index_view(sel), k as int),
{
    match sel {
        Some(s) => if s == k {
            None
        } else if s > k {
            Some(s - 1)
        } else {
            Some(s)
        },
        None => None,
    }
}

proof fn lemma_gone_before(entries: Seq<EntryView>, n: int, k: int)
    requires
        0 <= k <= entries.len(),
    ensures
        0 <= gone_before(entries, n, k) <= k,
        after_removal(entries.take(k), n).len() == k - gone_before(entries, n, k),
    decreases k,
{
    if k > 0 {
        lemma_gone_before(entries, n, k - 1);
        assert(entries.take(k).drop_last() =~= entries.take(k - 1));
    } else {
        assert(entries.take(0).len() == 0);
    }
}

/// A selected caption is still in the list after photo number `n` has gone.
pub(crate) proof fn lemma_selection_after(entries: Seq<EntryView>, n: int, sel: Option<int>)
    requires
        sel matches Some(s) ==> 0 <= s < entries.len(),
    ensures
        selection_after(entries, n, sel) matches Some(s) ==> {
            &&& 0 <= s < after_removal(entries, n).len()
            &&& after_removal(entries, n)[s] == entries[sel.unwrap()].shifted(n)
        },
    decreases entries.len(),
{
    if let Some(s) = sel {
        if entries[s].survives(n) {
            lemma_gone_before(entries, n, s);
            let m = entries.len() as int;
            let head = entries.drop_last();
            if s < m - 1 {
                lemma_selection_after(head, n, sel);
                lemma_gone_prefix(entries, n, s);
            } else {
                lemma_gone_before(entries, n, m - 1);
                assert(entries.take(m - 1) =~= head);
            }
        }
    }
}

proof fn lemma_gone_prefix(entries: Seq<EntryView>, n: int, k: int)
    requires
        k < entries.len(),
    ensures
        gone_before(entries.drop_last(), n, k) == gone_before(entries, n, k),
    decreases k,
{
    if k > 0 {
        lemma_gone_prefix(entries, n, k - 1);
    }
}

/// Follows the removal of photo number `n`: captions move up, and those that covered
/// nothing else go.
pub fn remove_photo_number(entries: &mut Vec<SubtitleEntry>, sel: Option<usize>, n: usize) -> (r:
    Option<usize>)
    requires
        n >= 1,
        sel matches Some(s) ==> s < old(entries).len(),
    ensures
        entry_views(final(entries)@) == after_removal(entry_views(old(entries)@), n as int),
        index_view(r) == selection_after(
            entry_views(old(entries)@),
            n as int,
            index_view(sel),
        ),
{
    let ghost v = entry_views(entries@);
    let mut out: Vec<SubtitleEntry> = Vec::new();
    let mut place: Option<usize> = None;
    let mut k: usize = 0;
    assert(v.take(0) =~= seq![]);
    assert(entry_views(out@) =~= seq![]);
    while k < entries.len()
        invariant
            k <= entries.len(),
            n >= 1,
            v == entry_views(entries@),
            entry_views(out@) == after_removal(v.take(k as int), n as int),
            out.len() == k - gone_before(v, n as int, k as int),
            sel matches Some(s) ==> if k <= s {
                place is None
            } else {
                index_view(place) == selection_after(v, n as int, Some(s as int))
            },
            sel is None ==> place is None,
        decreases entries.len() - k,
    {
        assert(v.take(k + 1).drop_last() =~= v.take(k as int));
        assert(v.take(k + 1).last() == v[k as int]);
        proof {
            lemma_gone_before(v, n as int, k + 1);
        }
        let mut e = entries[k].clone();
        assert(e@ == v[k as int]);
        let ghost before = out@;
        let lives: bool = e.shift(n);
        if lives {
            match sel {
                Some(s) => if s == k {
                    place = Some(out.len());
                },
                None => {},
            }
            out.push(e);
            assert(entry_views(out@) =~= entry_views(before).push(e@));
        }
        k += 1;
    }
    assert(v.take(v.len() as int) =~= v);
    *entries = out;
    place
}

/// Captions stay on their photos when another photo goes: photo number `m` shows a
/// caption after photo number `n` has gone exactly when it showed one before.
pub proof fn removal_leaves_other_captions(entries: Seq<EntryView>, n: int, m: int)
    requires
        m != n,
    ensures
        captioned(
            after_removal(entries, n),
            if m > n {
                m - 1
            } else {
                m
            },
        ) == captioned(entries, m),
    decreases entries.len(),
{
    let to = if m > n {
        m - 1
    } else {
        m
    };
    if entries.len() > 0 {
        let head = entries.drop_last();
        let e = entries.last();
        removal_leaves_other_captions(head, n, m);
        let rest = after_removal(head, n);
        let all = after_removal(entries, n);
        assert(captioned(entries, m) == (captioned(head, m) || e.shows_on(m))) by {
            if captioned(head, m) {
                let k = choose|k: int| 0 <= k < head.len() && (#[trigger] head[k]).shows_on(m);
                assert(entries[k].shows_on(m));
            }
            if e.shows_on(m) {
                assert(entries[entries.len() - 1].shows_on(m));
            }
            if captioned(entries, m) {
                let k = choose|k: int|
                    0 <= k < entries.len() && (#[trigger] entries[k]).shows_on(m);
                if k < head.len() {
                    assert(head[k].shows_on(m));
                }
            }
        }
        if e.survives(n) {
            assert(captioned(all, to) == (captioned(rest, to) || e.shifted(n).shows_on(to))) by {
                if captioned(rest, to) {
                    let k = choose|k: int| 0 <= k < rest.len() && (#[trigger] rest[k]).shows_on(to);
                    assert(all[k].shows_on(to));
                }
                if e.shifted(n).shows_on(to) {
                    assert(all[all.len() - 1].shows_on(to));
                }
                if captioned(all, to) {
                    let k = choose|k: int| 0 <= k < all.len() && (#[trigger] all[k]).shows_on(to);
                    if k < rest.len() {
                        assert(rest[k].shows_on(to));
                    }
                }
            }
        }
    }
}

/// The caption after photo number `n` has gone, if it still covers a photo.
pub open spec fn without_number(e: Option<EntryView>, n: int) -> Option<EntryView> {
    match e {
        Some(v) => if v.survives(n) {
            Some(v.shifted(n))
        } else {
            None
        },
        None => None,
    }
}

/// The caption after the photos that are not kept were removed one by one, the last one
/// first.
pub open spec fn removed_in_turn(e: Option<EntryView>, kept: Seq<bool>) -> Option<EntryView>
    decreases kept.len(),
{
    if kept.len() == 0 {
        e
    } else if kept.last() {
        removed_in_turn(e, kept.drop_last())
    } else {
        removed_in_turn(without_number(e, kept.len() as int), kept.drop_last())
    }
}

proof fn lemma_count_prefix(kept: Seq<bool>, n: int)
    requires
        n < kept.len(),
    ensures
        count_kept(kept.drop_last(), n) == count_kept(kept, n),
    decreases n,
{
    if n > 0 {
        lemma_count_prefix(kept, n - 1);
    }
}

pub(crate) proof fn lemma_count_grows(kept: Seq<bool>, a: int, b: int)
    requires
        0 <= a <= b,
    ensures
        count_kept(kept, a) <= count_kept(kept, b),
    decreases b,
{
    if a < b {
        lemma_count_grows(kept, a, b - 1);
    }
}

/// Where photo number `n` stands among the kept ones; numbers behind the list move along.
spec fn kept_place(kept: Seq<bool>, n: int) -> int {
    if n <= kept.len() {
        count_kept(kept, n)
    } else {
        count_kept(kept, kept.len() as int) + (n - kept.len())
    }
}

proof fn lemma_removed_in_turn(e: Option<EntryView>, kept: Seq<bool>)
    requires
        e matches Some(v) ==> 1 <= v.start <= v.end,
    ensures
        removed_in_turn(e, kept) == (match e {
            Some(v) => if kept_place(kept, v.end) < kept_place(kept, v.start - 1) + 1 {
                None
            } else {
                Some(
                    EntryView {
                        start: kept_place(kept, v.start - 1) + 1,
                        end: kept_place(kept, v.end),
                        ..v
                    },
                )
            },
            None => None,
        }),
    decreases kept.len(),
{
    if kept.len() > 0 {
        let n = kept.len() as int;
        let head = kept.drop_last();
        match e {
            Some(v) => {
                if v.end < n {
                    lemma_count_prefix(kept, v.end);
                }
                if v.start - 1 < n {
                    lemma_count_prefix(kept, v.start - 1);
                }
                lemma_count_prefix(kept, n - 1);
                if kept.last() {
                    lemma_removed_in_turn(e, head);
                } else {
                    lemma_removed_in_turn(without_number(e, n), head);
                }
            },
            None => {
                lemma_removed_in_turn(None, head);
            },
        }
    }
}

/// Restoring a caption among the photos that are still there gives what removing the
/// others one by one gives.
pub proof fn restoring_is_removing_in_turn(e: EntryView, kept: Seq<bool>)
    requires
        1 <= e.start <= e.end <= kept.len(),
    ensures
        e.remapped(kept) == removed_in_turn(Some(e), kept),
{
    lemma_removed_in_turn(Some(e), kept);
}

/// Restoring a caption keeps it on the same photos: it is seen on the place of a photo
/// that is still there exactly when it was seen on that photo.
pub proof fn restored_caption_keeps_its_photos(e: EntryView, kept: Seq<bool>, n: int)
    requires
        1 <= e.start <= e.end <= kept.len(),
        1 <= n <= kept.len(),
        kept[n - 1],
    ensures
        e.shows_on(n) <==> (e.remapped(kept) matches Some(r) && r.shows_on(count_kept(kept, n))),
{
    lemma_count_grows(kept, 0, e.start - 1);
    assert(count_kept(kept, n) == count_kept(kept, n - 1) + 1);
    if e.start <= n <= e.end {
        lemma_count_grows(kept, e.start - 1, n - 1);
        lemma_count_grows(kept, n, e.end);
    } else if n < e.start {
        lemma_count_grows(kept, n, e.start - 1);
    } else {
        lemma_count_grows(kept, e.end, n - 1);
    }
}

proof fn lemma_photo_with_count(kept: Seq<bool>, lo: int, hi: int, m: int) -> (n: int)
    requires
        0 <= lo <= hi <= kept.len(),
        count_kept(kept, lo) < m <= count_kept(kept, hi),
    ensures
        lo < n <= hi,
        kept[n - 1],
        count_kept(kept, n) == m,
    decreases hi,
{
    if kept[hi - 1] && count_kept(kept, hi) == m {
        hi
    } else {
        lemma_photo_with_count(kept, lo, hi - 1, m)
    }
}

/// Photo number `n` is one that the caption covers, and is still there.
pub open spec fn still_covered(e: EntryView, kept: Seq<bool>, n: int) -> bool {
    e.start <= n <= e.end && kept[n - 1]
}

/// `m` is the number that one of the photos that the caption covers has now.
pub open spec fn is_new_number(e: EntryView, kept: Seq<bool>, m: int) -> bool {
    exists|n: int| #[trigger] still_covered(e, kept, n) && count_kept(kept, n) == m
}

/// A restored caption covers exactly those of its photos that are still there: it is
/// left if there is one, and its numbers are those that these photos have now.
pub proof fn restored_caption_covers_what_is_left(e: EntryView, kept: Seq<bool>)
    requires
        1 <= e.start <= e.end <= kept.len(),
    ensures
        e.remapped(kept) is Some <==> exists|n: int| still_covered(e, kept, n),
        e.remapped(kept) matches Some(r) ==> forall|m: int|
            r.start <= m <= r.end <==> #[trigger] is_new_number(e, kept, m),
{
    let lo = e.start - 1;
    assert forall|n: int| #[trigger] still_covered(e, kept, n) implies count_kept(kept, lo)
        < count_kept(kept, n) <= count_kept(kept, e.end) by {
        lemma_count_grows(kept, lo, n - 1);
        lemma_count_grows(kept, n, e.end);
    }
    match e.remapped(kept) {
        Some(r) => {
            let n = lemma_photo_with_count(kept, lo, e.end, r.end);
            assert(still_covered(e, kept, n));
            assert forall|m: int| r.start <= m <= r.end implies #[trigger] is_new_number(
                e,
                kept,
                m,
            ) by {
                let n = lemma_photo_with_count(kept, lo, e.end, m);
                assert(still_covered(e, kept, n));
            }
        },
        None => {},
    }
}

} // verus!
