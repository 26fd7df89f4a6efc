//! What the looks of photos, captions and the preview keep through every change.

use crate::adjust::Adjustments;
use crate::caption::{
    after_removal, captioned, lemma_selection_after, EntryView,
};
use crate::captions::{seen_on, CaptionsView};
use crate::looks::{first_from, LooksView};
use crate::preview::PreviewView;
use crate::scalar::{one, zero, Scalar};
use crate::text::is_blank;
use vstd::prelude::*;

verus! {

/// After the sliders were moved they show where they were moved to. Without a selection
/// the adjustments of all photos are what the sliders show, and photos with adjustments
/// of their own keep them; with one the adjustments of all photos stay.
pub proof fn sliders_show_where_they_were_moved(
    v: LooksView,
    work: Adjustments,
    reset: bool,
    p: Seq<char>,
)
    ensures
        v.adjusted(work, reset).on_sliders() == work,
        v.adjusted(work, reset).chosen == v.chosen,
        v.chosen.is_empty() ==> {
            &&& v.adjusted(work, reset).adj == work
            &&& v.adjusted(work, reset).overrides == v.overrides
            &&& !v.overrides.contains_key(p) ==> v.adjusted(work, reset).effective(p) == work
            &&& v.overrides.contains_key(p) ==> v.adjusted(work, reset).effective(p)
                == v.effective(p)
        },
        !v.chosen.is_empty() ==> {
            &&& v.adjusted(work, reset).adj == v.adj
            &&& v.adjusted(work, reset).overrides.contains_key(p) <==> v.overrides.contains_key(p)
                || v.chosen.contains(p)
        },
{
}

/// A photo gets its own adjustments if it has any, and otherwise those of all photos.
pub proof fn own_adjustments_come_first(v: LooksView, p: Seq<char>, a: Adjustments)
    ensures
        (LooksView { overrides: v.overrides.insert(p, a), ..v }).effective(p) == a,
        (LooksView { overrides: v.overrides.remove(p), adj: a, ..v }).effective(p) == a,
        v.emptied().effective(p) == v.adj,
{
}

/// Selecting changes no look: every photo keeps its adjustments whatever is selected.
pub proof fn selecting_changes_no_look(
    v: LooksView,
    photos: Seq<Seq<char>>,
    q: Seq<char>,
    lo: int,
    hi: int,
    p: Seq<char>,
)
    ensures
        v.unselected().effective(p) == v.effective(p),
        v.toggled(q).effective(p) == v.effective(p),
        v.selecting_between(photos, lo, hi).effective(p) == v.effective(p),
        v.synced(photos).effective(p) == v.effective(p),
        v.unselected().adj == v.adj,
        v.toggled(q).adj == v.adj,
        v.selecting_between(photos, lo, hi).adj == v.adj,
        v.synced(photos).adj == v.adj && v.synced(photos).overrides == v.overrides,
        v.unselected().chosen == Set::<Seq<char>>::empty(),
        v.synced(photos).chosen == v.chosen,
        v.toggled(q).chosen.contains(q) != v.chosen.contains(q),
        p != q ==> v.toggled(q).chosen.contains(p) == v.chosen.contains(p),
        v.selecting_between(photos, lo, hi).chosen.contains(p) <==> v.chosen.contains(p) || (
        exists|k: int| lo <= k <= hi && #[trigger] photos[k] == p),
{
}

proof fn lemma_first_from(photos: Seq<Seq<char>>, s: Set<Seq<char>>, i: int, k: int)
    requires
        0 <= i <= k < photos.len(),
        s.contains(photos[k]),
        forall|j: int| i <= j < k ==> !s.contains(#[trigger] photos[j]),
    ensures
        first_from(photos, s, i) == Some(k),
    decreases k - i,
{
    if i < k {
        assert(!s.contains(photos[i]));
        lemma_first_from(photos, s, i + 1, k);
    }
}

/// While photos are selected the sliders show what the first of them in the list gets.
pub proof fn sliders_show_the_first_selected_photo(
    v: LooksView,
    photos: Seq<Seq<char>>,
    k: int,
)
    requires
        0 <= k < photos.len(),
        v.chosen.contains(photos[k]),
        forall|j: int| 0 <= j < k ==> !v.chosen.contains(#[trigger] photos[j]),
    ensures
        v.synced(photos).on_sliders() == v.effective(photos[k]),
{
    lemma_first_from(photos, v.chosen, 0, k);
    assert(!v.chosen.is_empty()) by {
        assert(v.chosen.contains(photos[k]));
    }
}

/// Taking back the adjustments of the selected photos leaves those of the others and the
/// selection.
pub proof fn unpinning_leaves_the_rest(v: LooksView, photos: Seq<Seq<char>>, p: Seq<char>)
    ensures
        !v.chosen.contains(p) ==> v.unpinned(photos).effective(p) == v.effective(p),
        v.chosen.contains(p) ==> !v.unpinned(photos).overrides.contains_key(p),
        v.unpinned(photos).chosen == v.chosen,
        v.unpinned(photos).adj == v.adj,
{
}

/// Nothing is kept of a photo that has gone, and all of the others.
pub proof fn removal_forgets_one_photo(
    v: LooksView,
    gone: Seq<char>,
    rest: Seq<Seq<char>>,
    p: Seq<char>,
)
    ensures
        !v.after_removal(gone, rest).chosen.contains(gone),
        !v.after_removal(gone, rest).overrides.contains_key(gone),
        v.after_removal(gone, rest).adj == v.adj,
        p != gone ==> v.after_removal(gone, rest).chosen.contains(p) == v.chosen.contains(p),
        p != gone ==> v.after_removal(gone, rest).effective(p) == v.effective(p),
        !v.chosen.contains(gone) ==> v.after_removal(gone, rest).shown == v.shown,
{
}

/// A new caption has no text, stands upright in the middle of the lower part, covers the
/// photos that it was made for, and is the selected one; the others stay.
pub proof fn new_caption_is_selected(v: CaptionsView, start: int, end: int, k: int)
    ensures
        ({
            let w = v.with_new(start, end);
            &&& w.entries.len() == v.entries.len() + 1
            &&& 0 <= k < v.entries.len() ==> w.entries[k] == v.entries[k]
            &&& w.selected == Some(v.entries.len() as int)
            &&& w.entries.last().start == start && w.entries.last().end == end
            &&& w.entries.last().text.len() == 0
            &&& w.entries.last().rot == zero()
            &&& w.entries.last().x == (Scalar { bits: 0x3F00_0000 })
            &&& zero().below(w.entries.last().x) && w.entries.last().x.below(w.entries.last().y)
                && w.entries.last().y.below(one())
            &&& w.entries.last().in_range() == w.entries.last()
            &&& w.style == v.style && w.fonts == v.fonts
        }),
{
}

/// Removing a caption leaves the others in order, and the selected one stays selected
/// unless it is the one that goes.
pub proof fn removed_caption_leaves_the_others(v: CaptionsView, k: int, j: int)
    requires
        0 <= k < v.entries.len(),
    ensures
        ({
            let w = v.removing(k);
            &&& w.entries.len() == v.entries.len() - 1
            &&& 0 <= j < k ==> w.entries[j] == v.entries[j]
            &&& k < j < v.entries.len() ==> w.entries[j - 1] == v.entries[j]
            &&& v.selected == Some(k) ==> w.selected is None
            &&& v.selected is None ==> w.selected is None
            &&& v.wf() && v.selected != Some(k) && v.selected is Some ==> w.selected is Some
                && w.wf() && w.entries[w.selected->0] == v.entries[v.selected->0]
            &&& w.style == v.style && w.fonts == v.fonts
        }),
{
}

/// A caption follows the removal of photo number `n` and keeps all but its numbers. It is
/// left exactly if it covers another photo, and then covers the same photos as before but
/// for the one that went.
pub proof fn caption_follows_a_removal(e: EntryView, n: int, m: int)
    requires
        1 <= e.start <= e.end,
    ensures
        e.shifted(n).text == e.text && e.shifted(n).x == e.x && e.shifted(n).y == e.y && e.shifted(
            n,
        ).size == e.size && e.shifted(n).rot == e.rot,
        e.survives(n) <==> !(e.start == n && e.end == n),
        m < n ==> (e.start <= m <= e.end <==> e.shifted(n).start <= m <= e.shifted(n).end),
        m > n ==> (e.start <= m <= e.end <==> e.shifted(n).start <= m - 1 <= e.shifted(n).end),
        e.survives(n) ==> e.shifted(n).end - e.shifted(n).start == e.end - e.start - (if e.start
            <= n <= e.end {
            1int
        } else {
            0
        }),
{
}

/// The selected caption stays selected when a photo goes, unless it goes with it.
pub proof fn selection_follows_a_removal(v: CaptionsView, i: int)
    requires
        v.wf(),
    ensures
        ({
            let w = v.after_removal(i);
            &&& w.wf()
            &&& v.selected is None ==> w.selected is None
            &&& v.selected matches Some(s) ==> (w.selected is Some <==> v.entries[s].survives(
                i + 1,
            ))
            &&& w.selected matches Some(t) ==> w.entries[t] == v.entries[v.selected->0].shifted(
                i + 1,
            )
            &&& w.style == v.style && w.fonts == v.fonts
        }),
{
    lemma_selection_after(v.entries, i + 1, v.selected);
}

proof fn lemma_after_removal(a: Seq<EntryView>, b: Seq<EntryView>, n: int)
    ensures
        after_removal(a + b, n) == after_removal(a, n) + after_removal(b, n),
    decreases b.len(),
{
    if b.len() == 0 {
        assert(a + b =~= a);
        assert(after_removal(a, n) + after_removal(b, n) =~= after_removal(a, n));
    } else {
        assert((a + b).drop_last() =~= a + b.drop_last());
        assert((a + b).last() == b.last());
        lemma_after_removal(a, b.drop_last(), n);
        assert(after_removal(a + b, n) =~= after_removal(a, n) + after_removal(b, n));
    }
}

/// The captions keep their order when a photo goes: each stands behind what is left of
/// those before it.
pub proof fn captions_keep_their_order_through_a_removal(entries: Seq<EntryView>, n: int, k: int)
    requires
        0 <= k < entries.len(),
    ensures
        after_removal(entries, n) == after_removal(entries.take(k), n) + (if entries[k].survives(
            n,
        ) {
            seq![entries[k].shifted(n)]
        } else {
            seq![]
        }) + after_removal(entries.skip(k + 1), n),
{
    let one = seq![entries[k]];
    assert(entries =~= entries.take(k) + one + entries.skip(k + 1));
    lemma_after_removal(entries.take(k) + one, entries.skip(k + 1), n);
    lemma_after_removal(entries.take(k), one, n);
    assert(one.drop_last() =~= seq![]);
    assert(after_removal(one.drop_last(), n) =~= seq![]);
    assert(after_removal(one, n) =~= if entries[k].survives(n) {
        seq![entries[k].shifted(n)]
    } else {
        seq![]
    });
}

/// A new order of the photos changes nothing of the captions but their numbers.
pub proof fn renumbering_changes_numbers_only(
    v: CaptionsView,
    before: Seq<Seq<char>>,
    after: Seq<Seq<char>>,
    k: int,
)
    requires
        0 <= k < v.entries.len(),
    ensures
        ({
            let w = v.renumbering(before, after);
            &&& w.entries.len() == v.entries.len()
            &&& w.entries[k] == (EntryView {
                start: w.entries[k].start,
                end: w.entries[k].end,
                ..v.entries[k]
            })
            &&& w.selected == v.selected && w.style == v.style && w.fonts == v.fonts
        }),
        !(1 <= v.entries[k].start <= before.len()) ==> v.renumbering(
            before,
            after,
        ).entries[k].start == v.entries[k].start,
        !(1 <= v.entries[k].end <= before.len()) ==> v.renumbering(before, after).entries[k].end
            == v.entries[k].end,
{
}

/// The captions that are seen on a photo are found by their places, in order: exactly
/// those that cover it and have a text.
pub proof fn seen_captions_are_found(entries: Seq<EntryView>, n: int)
    ensures
        forall|k: int| #[trigger]
            seen_on(entries, n).contains(k) <==> 0 <= k < entries.len() && entries[k].start <= n
                <= entries[k].end && !is_blank(entries[k].text),
        forall|i: int, j: int|
            0 <= i < j < seen_on(entries, n).len() ==> #[trigger] seen_on(entries, n)[i]
                < #[trigger] seen_on(entries, n)[j],
        seen_on(entries, n).len() > 0 <==> captioned(entries, n),
    decreases entries.len(),
{
    let all = seen_on(entries, n);
    if entries.len() > 0 {
        let head = entries.drop_last();
        let before = seen_on(head, n);
        seen_captions_are_found(head, n);
        assert forall|k: int| #[trigger] all.contains(k) <==> 0 <= k < entries.len()
            && entries[k].start <= n <= entries[k].end && !is_blank(entries[k].text) by {
            if all.contains(k) {
                let i = choose|i: int| 0 <= i < all.len() && all[i] == k;
                if i < before.len() {
                    assert(before[i] == k);
                    assert(before.contains(k));
                    assert(head[k] == entries[k]);
                }
            }
            if 0 <= k < entries.len() && entries[k].shows_on(n) {
                if k < head.len() {
                    assert(head[k] == entries[k]);
                    assert(before.contains(k));
                    let i = choose|i: int| 0 <= i < before.len() && before[i] == k;
                    assert(all[i] == k);
                } else {
                    assert(all[all.len() - 1] == k);
                }
            }
        }
        assert forall|i: int, j: int| 0 <= i < j < all.len() implies #[trigger] all[i]
            < #[trigger] all[j] by {
            assert(all[i] == before[i]);
            assert(before.contains(before[i]));
            if j < before.len() {
                assert(all[j] == before[j]);
            }
        }
    }
    if all.len() > 0 {
        assert(all.contains(all[0]));
        assert(entries[all[0]].shows_on(n));
    }
    if captioned(entries, n) {
        let k = choose|k: int| 0 <= k < entries.len() && (#[trigger] entries[k]).shows_on(n);
        assert(all.contains(k));
    }
}

/// Moving the values of a caption into the ranges of their controls leaves its text and
/// its photos, and every value that is in its range.
pub proof fn ranges_leave_what_is_in_them(e: EntryView)
    ensures
        e.in_range().text == e.text && e.in_range().start == e.start && e.in_range().end == e.end,
        8 <= e.in_range().size <= 300,
        8 <= e.size <= 300 ==> e.in_range().size == e.size,
        e.size < 8 ==> e.in_range().size == 8,
        e.size > 300 ==> e.in_range().size == 300,
        e.x.within(zero(), one()) ==> e.in_range().x == e.x,
        e.y.within(zero(), one()) ==> e.in_range().y == e.y,
        e.in_range().x.within(zero(), one()) && e.in_range().y.within(zero(), one()),
        e.x.below(zero()) ==> e.in_range().x == zero(),
        one().below(e.x) ==> e.in_range().x == one(),
        e.y.below(zero()) ==> e.in_range().y == zero(),
        one().below(e.y) ==> e.in_range().y == one(),
        e.rot.within(crate::caption::half_turn_left(), crate::caption::half_turn())
            ==> e.in_range().rot == e.rot,
        e.in_range().rot.within(crate::caption::half_turn_left(), crate::caption::half_turn()),
        crate::caption::half_turn_left().rank() == -crate::caption::half_turn().rank(),
{
}

/// Choosing a photo shows it: what was shown before no longer counts, and the new one is
/// to be rendered. To choose the shown one again changes nothing.
pub proof fn chosen_photo_is_rendered(v: PreviewView, i: int)
    ensures
        v.selecting(Some(i)).selected == Some(i),
        v.selecting(Some(i)).selecting(Some(i)) == v.selecting(Some(i)),
        v.selected == Some(i) ==> v.selecting(Some(i)) == v,
        v.selected != Some(i) ==> v.selecting(Some(i)).dirty && !v.selecting(Some(i)).ready
            && v.selecting(Some(i)).error is None,
        v.selecting(Some(i)).rendering == v.rendering,
        v.selecting(Some(i)).scroll == v.scroll,
        v.selecting(None).selected is None,
        v.going_to(i) == (PreviewView { scroll: true, ..v.selecting(Some(i)) }),
        v.dirtied().dirty && v.dirtied().error is None && v.dirtied().prefetched is None,
        v.dirtied().selected == v.selected && v.dirtied().ready == v.ready && v.dirtied().rendering
            == v.rendering && v.dirtied().scroll == v.scroll,
{
}

/// A step goes to the next photo or to the one before, and stops at the ends; the arrow
/// keys make such steps, and the left one goes first if both are pressed.
pub proof fn arrows_go_one_step(v: PreviewView, n: int)
    requires
        v.fits(n),
    ensures
        v.selected matches Some(i) ==> {
            &&& i + 1 < n ==> v.stepping_on(n).selected == Some(i + 1) && v.stepping_on(n).scroll
            &&& i + 1 == n ==> v.stepping_on(n) == v
            &&& i > 0 ==> v.stepping_back().selected == Some(i - 1) && v.stepping_back().scroll
            &&& i == 0 ==> v.stepping_back() == v
            &&& i > 0 ==> v.arrows(true, true, n).selected == Some(i - 1)
        },
        v.arrows(false, true, n) == v.stepping_on(n),
        v.arrows(true, false, n) == v.stepping_back(),
        v.arrows(false, false, n) == v,
{
}

/// A rendering ends either way: with a picture, with an error, or without counting. What
/// was asked for meanwhile stays asked for.
pub proof fn rendering_ends(v: PreviewView, error: Option<Seq<char>>, shown: bool)
    ensures
        !v.rendered(shown, error).rendering && !v.render_lost().rendering,
        v.render_lost().error is Some,
        shown && error is None ==> v.rendered(shown, error).ready,
        shown && error is Some ==> v.rendered(shown, error).error == error,
        !shown ==> v.rendered(shown, error) == (PreviewView { rendering: false, ..v }),
        v.rendered(shown, error).dirty == v.dirty && v.rendered(shown, error).selected
            == v.selected,
        v.render_lost().dirty == v.dirty && v.render_lost().selected == v.selected,
        v.render_begun().rendering && !v.render_begun().dirty,
        v.render_begun() == (PreviewView { rendering: true, dirty: false, ..v }),
{
}

/// When the shown photo goes the next one is shown, or the one before if there is none.
pub proof fn next_photo_takes_the_place(v: PreviewView, i: int, left: int)
    requires
        v.selected == Some(i),
        0 <= i <= left,
    ensures
        i < left ==> v.after_removal(i, left).selected == Some(i),
        i == left && left > 0 ==> v.after_removal(i, left).selected == Some(i - 1),
        left == 0 ==> v.after_removal(i, left).selected is None,
        left > 0 ==> v.after_removal(i, left).dirty && !v.after_removal(i, left).ready,
{
}

} // verus!
