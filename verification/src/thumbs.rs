//! Thumbnails: which ones are made, in which order, and which ones are dropped.

use crate::editor::Thumb;
use crate::looks::photos_between;
use crate::text::texts;
use vstd::hash_map::StringHashMap;
use vstd::hash_set::StringHashSet;
use vstd::prelude::*;

verus! {

/// How many photos on each side of the visible ones get their thumbnails beforehand.
pub const PREFETCH: usize = 64;

/// How many photos on each side of the visible ones keep their thumbnails.
pub const KEEP: usize = 256;

/// How many thumbnails there may be beyond those kept before any is dropped.
pub const SLACK: usize = 192;

/// How many thumbnails may wait before those that are far away are given up.
pub const LONG_QUEUE: usize = 64;

/// `a` less `b`, and at least zero.
pub open spec fn minus(a: int, b: int) -> int {
    if a < b {
        0
    } else {
        a - b
    }
}

/// The lesser of two numbers.
pub open spec fn least(a: int, b: int) -> int {
    if a < b {
        a
    } else {
        b
    }
}

/// The photos from place `a` up to place `b` that have no thumbnail yet, in order.
pub open spec fn missing(
    photos: Seq<Seq<char>>,
    thumbs: Map<Seq<char>, Thumb>,
    a: int,
    b: int,
) -> Seq<Seq<char>>
    decreases b - a,
{
    if a >= b {
        seq![]
    } else if thumbs.contains_key(photos[b - 1]) {
        missing(photos, thumbs, a, b - 1)
    } else {
        missing(photos, thumbs, a, b - 1).push(photos[b - 1])
    }
}

/// The thumbnails that are wanted while the photos from `first` up to `last` are visible:
/// first the visible ones, then those to the right, then those to the left.
pub open spec fn wanted(
    photos: Seq<Seq<char>>,
    thumbs: Map<Seq<char>, Thumb>,
    first: int,
    last: int,
) -> Seq<Seq<char>> {
    missing(photos, thumbs, first, last) + missing(
        photos,
        thumbs,
        last,
        least(last + PREFETCH, photos.len() as int),
    ) + missing(photos, thumbs, minus(first, PREFETCH as int), first)
}

/// The thumbnails with those of the list being made.
pub open spec fn marked(thumbs: Map<Seq<char>, Thumb>, list: Seq<Seq<char>>) -> Map<
    Seq<char>,
    Thumb,
>
    decreases list.len(),
{
    if list.len() == 0 {
        thumbs
    } else {
        marked(thumbs, list.drop_last()).insert(list.last(), Thumb::Loading)
    }
}

/// The first place whose photo keeps its thumbnail.
pub open spec fn keep_from(first: int) -> int {
    minus(first, KEEP as int)
}

/// The place behind the last photo that keeps its thumbnail.
pub open spec fn keep_to(last: int, n: int) -> int {
    least(last + KEEP, n)
}

/// The waiting thumbnails of the photos in `near`, in order.
pub open spec fn near_jobs(jobs: Seq<Seq<char>>, near: Set<Seq<char>>) -> Seq<Seq<char>>
    decreases jobs.len(),
{
    if jobs.len() == 0 {
        seq![]
    } else if near.contains(jobs.last()) {
        near_jobs(jobs.drop_last(), near).push(jobs.last())
    } else {
        near_jobs(jobs.drop_last(), near)
    }
}

/// The thumbnails without the waiting ones of photos that are not in `near`.
pub open spec fn given_up(
    thumbs: Map<Seq<char>, Thumb>,
    jobs: Seq<Seq<char>>,
    near: Set<Seq<char>>,
) -> Map<Seq<char>, Thumb>
    decreases jobs.len(),
{
    if jobs.len() == 0 {
        thumbs
    } else if near.contains(jobs.last()) {
        given_up(thumbs, jobs.drop_last(), near)
    } else {
        given_up(thumbs, jobs.drop_last(), near).remove(jobs.last())
    }
}

/// The thumbnails without the finished ones of the first `n` photos outside the places
/// from `lo` up to `hi`.
pub open spec fn evicted(
    thumbs: Map<Seq<char>, Thumb>,
    photos: Seq<Seq<char>>,
    lo: int,
    hi: int,
    n: int,
) -> Map<Seq<char>, Thumb>
    decreases n,
{
    if n <= 0 {
        thumbs
    } else {
        let rest = evicted(thumbs, photos, lo, hi, n - 1);
        let p = photos[n - 1];
        if (n - 1 < lo || n - 1 >= hi) && rest.contains_key(p) && rest[p] == Thumb::Ready {
            rest.remove(p)
        } else {
            rest
        }
    }
}

/// What is known of thumbnails, and which ones wait to be made.
pub struct ThumbsView {
    pub thumbs: Map<Seq<char>, Thumb>,
    pub jobs: Seq<Seq<char>>,
}

impl ThumbsView {
    /// The wanted thumbnails wait in front of the others. If that makes too many, those
    /// far from the visible photos are given up.
    pub open spec fn requested(
        self,
        photos: Seq<Seq<char>>,
        first: int,
        last: int,
    ) -> ThumbsView {
        let list = wanted(photos, self.thumbs, first, last);
        let asked = ThumbsView { thumbs: marked(self.thumbs, list), jobs: list + self.jobs };
        let near = photos_between(
            photos,
            keep_from(first),
            keep_to(last, photos.len() as int) - 1,
        );
        if list.len() == 0 {
            self
        } else if asked.jobs.len() > LONG_QUEUE {
            ThumbsView {
                thumbs: given_up(asked.thumbs, asked.jobs, near),
                jobs: near_jobs(asked.jobs, near),
            }
        } else {
            asked
        }
    }

    /// If there are far too many thumbnails, the finished ones far from the visible
    /// photos are dropped.
    pub open spec fn trimmed(self, photos: Seq<Seq<char>>, first: int, last: int) -> ThumbsView {
        let lo = keep_from(first);
        let hi = keep_to(last, photos.len() as int);
        if self.thumbs.len() > hi - lo + SLACK {
            ThumbsView {
                thumbs: evicted(self.thumbs, photos, lo, hi, photos.len() as int),
                ..self
            }
        } else {
            self
        }
    }
}

/// Puts the photos from place `a` up to place `b` that have no thumbnail yet behind the
/// list.
fn push_missing(
    list: &mut Vec<String>,
    photos: &Vec<String>,
    thumbs: &StringHashMap<Thumb>,
    a: usize,
    b: usize,
)
    requires
        a <= b <= photos.len(),
    ensures
        texts(final(list)@) == texts(old(list)@) + missing(
            texts(photos@),
            thumbs@,
            a as int,
            b as int,
        ),
{
    let ghost start = texts(list@);
    let ghost v = texts(photos@);
    let mut i: usize = a;
    assert(start + missing(v, thumbs@, a as int, a as int) =~= start);
    while i < b
        invariant
            a <= i <= b <= photos.len(),
            v == texts(photos@),
            texts(list@) == start + missing(v, thumbs@, a as int, i as int),
        decreases b - i,
    {
        assert(v[i as int] == photos[i as int]@);
        let ghost before = list@;
        if !thumbs.contains_key(photos[i].as_str()) {
            list.push(photos[i].clone());
            assert(texts(list@) =~= texts(before).push(v[i as int]));
            assert(texts(list@) =~= start + missing(v, thumbs@, a as int, i + 1));
        }
        i += 1;
    }
}

/// The thumbnails that are wanted while the photos from `first` up to `last` are visible.
fn list_wanted(
    photos: &Vec<String>,
    thumbs: &StringHashMap<Thumb>,
    first: usize,
    last: usize,
) -> (r: Vec<String>)
    requires
        first <= last <= photos.len(),
    ensures
        texts(r@) == wanted(texts(photos@), thumbs@, first as int, last as int),
{
    let n: usize = photos.len();
    let lo: usize = if first < PREFETCH {
        0
    } else {
        first - PREFETCH
    };
    let hi: usize = if n - last < PREFETCH {
        n
    } else {
        last + PREFETCH
    };
    let mut list: Vec<String> = Vec::new();
    assert(texts(list@) =~= seq![]);
    push_missing(&mut list, photos, thumbs, first, last);
    push_missing(&mut list, photos, thumbs, last, hi);
    push_missing(&mut list, photos, thumbs, lo, first);
    assert(texts(list@) =~= wanted(texts(photos@), thumbs@, first as int, last as int));
    list
}

/// Marks the thumbnails of the list as being made.
fn mark(thumbs: &mut StringHashMap<Thumb>, list: &Vec<String>)
    ensures
        final(thumbs)@ == marked(old(thumbs)@, texts(list@)),
{
    let ghost v = texts(list@);
    let ghost start = thumbs@;
    let mut i: usize = 0;
    assert(v.take(0) =~= seq![]);
    while i < list.len()
        invariant
            i <= list.len(),
            v == texts(list@),
            thumbs@ == marked(start, v.take(i as int)),
        decreases list.len() - i,
    {
        assert(v[i as int] == list[i as int]@);
        assert(v.take(i + 1).drop_last() =~= v.take(i as int));
        assert(v.take(i + 1).last() == v[i as int]);
        thumbs.insert(list[i].clone(), Thumb::Loading);
        i += 1;
    }
    assert(v.take(v.len() as int) =~= v);
}

/// The photos from place `lo` up to place `hi`.
fn window(photos: &Vec<String>, lo: usize, hi: usize) -> (r: StringHashSet)
    requires
        lo <= hi <= photos.len(),
    ensures
        r@ == photos_between(texts(photos@), lo as int, hi - 1),
{
    let ghost v = texts(photos@);
    let mut r = StringHashSet::new();
    let mut i: usize = lo;
    assert(photos_between(v, lo as int, lo - 1) =~= Set::empty());
    while i < hi
        invariant
            lo <= i <= hi <= photos.len(),
            v == texts(photos@),
            r@ == photos_between(v, lo as int, i - 1),
        decreases hi - i,
    {
        assert(v[i as int] == photos[i as int]@);
        let _ = r.insert(photos[i].clone());
        let ghost fewer = photos_between(v, lo as int, i - 1);
        let ghost more = photos_between(v, lo as int, i as int);
        assert(r@ =~= more) by {
            assert forall|p: Seq<char>| r@.contains(p) == more.contains(p) by {
                if more.contains(p) {
                    let j = choose|j: int| lo <= j <= i && #[trigger] v[j] == p;
                    if j < i {
                        assert(fewer.contains(p));
                    }
                }
                if fewer.contains(p) {
                    let j = choose|j: int| lo <= j <= i - 1 && #[trigger] v[j] == p;
                    assert(v[j] == p);
                }
            }
        }
        i += 1;
    }
    r
}

/// Gives up the waiting thumbnails of photos that are not in `near`.
fn give_up(thumbs: &mut StringHashMap<Thumb>, jobs: &mut Vec<String>, near: &StringHashSet)
    ensures
        final(thumbs)@ == given_up(old(thumbs)@, texts(old(jobs)@), near@),
        texts(final(jobs)@) == near_jobs(texts(old(jobs)@), near@),
{
    let ghost start = thumbs@;
    let ghost v = texts(jobs@);
    let mut out: Vec<String> = Vec::new();
    let mut i: usize = 0;
    assert(v.take(0) =~= seq![]);
    assert(texts(out@) =~= seq![]);
    while i < jobs.len()
        invariant
            i <= jobs.len(),
            *jobs == *old(jobs),
            v == texts(jobs@),
            thumbs@ == given_up(start, v.take(i as int), near@),
            texts(out@) == near_jobs(v.take(i as int), near@),
        decreases jobs.len() - i,
    {
        assert(v[i as int] == jobs[i as int]@);
        assert(v.take(i + 1).drop_last() =~= v.take(i as int));
        assert(v.take(i + 1).last() == v[i as int]);
        let ghost before = out@;
        if near.contains(jobs[i].as_str()) {
            out.push(jobs[i].clone());
            assert(texts(out@) =~= texts(before).push(v[i as int]));
        } else {
            thumbs.remove(jobs[i].as_str());
        }
        i += 1;
    }
    assert(v.take(v.len() as int) =~= v);
    *jobs = out;
}

/// Puts the list in front of the waiting thumbnails.
fn queue_first(jobs: &mut Vec<String>, list: Vec<String>)
    ensures
        texts(final(jobs)@) == texts(list@) + texts(old(jobs)@),
{
    let ghost head = texts(list@);
    let ghost tail = texts(jobs@);
    let mut all = list;
    let mut i: usize = 0;
    assert(tail.take(0) =~= seq![]);
    assert(head + tail.take(0) =~= head);
    while i < jobs.len()
        invariant
            i <= jobs.len(),
            *jobs == *old(jobs),
            tail == texts(jobs@),
            texts(all@) == head + tail.take(i as int),
        decreases jobs.len() - i,
    {
        let ghost before = all@;
        all.push(jobs[i].clone());
        assert(texts(all@) =~= texts(before).push(tail[i as int]));
        assert(head + tail.take(i + 1) =~= (head + tail.take(i as int)).push(tail[i as int]));
        i += 1;
    }
    assert(tail.take(tail.len() as int) =~= tail);
    *jobs = all;
}

/// The photos from `first` up to `last` are visible: their thumbnails and those around
/// them are asked for, and those far away are dropped if there are too many.
pub fn manage_thumbs(
    photos: &Vec<String>,
    thumbs: &mut StringHashMap<Thumb>,
    jobs: &mut Vec<String>,
    first: usize,
    last: usize,
)
    requires
        first <= last <= photos.len(),
    ensures
        (ThumbsView { thumbs: final(thumbs)@, jobs: texts(final(jobs)@) }) == (ThumbsView {
            thumbs: old(thumbs)@,
            jobs: texts(old(jobs)@),
        }).requested(texts(photos@), first as int, last as int).trimmed(
            texts(photos@),
            first as int,
            last as int,
        ),
{
    let n: usize = photos.len();
    let lo: usize = if first < KEEP {
        0
    } else {
        first - KEEP
    };
    let hi: usize = if n - last < KEEP {
        n
    } else {
        last + KEEP
    };
    assert(lo == keep_from(first as int));
    assert(hi == keep_to(last as int, n as int));
    let list = list_wanted(photos, thumbs, first, last);
    if list.len() > 0 {
        mark(thumbs, &list);
        queue_first(jobs, list);
        if jobs.len() > LONG_QUEUE {
            let near = window(photos, lo, hi);
            give_up(thumbs, jobs, &near);
        }
    }
    let far: bool = thumbs.len() > SLACK && thumbs.len() - SLACK > hi - lo;
    if far {
        evict(photos, thumbs, lo, hi);
    }
}

/// Drops the finished thumbnails outside the places from `lo` up to `hi`.
fn evict(photos: &Vec<String>, thumbs: &mut StringHashMap<Thumb>, lo: usize, hi: usize)
    ensures
        final(thumbs)@ == evicted(
            old(thumbs)@,
            texts(photos@),
            lo as int,
            hi as int,
            photos.len() as int,
        ),
{
    let ghost start = thumbs@;
    let ghost v = texts(photos@);
    let mut i: usize = 0;
    while i < photos.len()
        invariant
            i <= photos.len(),
            v == texts(photos@),
            thumbs@ == evicted(start, v, lo as int, hi as int, i as int),
        decreases photos.len() - i,
    {
        assert(v[i as int] == photos[i as int]@);
        let done: bool = match thumbs.get(photos[i].as_str()) {
            Some(t) => *t == Thumb::Ready,
            None => false,
        };
        if (i < lo || i >= hi) && done {
            thumbs.remove(photos[i].as_str());
        }
        i += 1;
    }
}

/// A thumbnail was made, or cannot be made. It counts only if it is still waited for;
/// says whether its picture is to be kept.
pub fn on_thumb(thumbs: &mut StringHashMap<Thumb>, photo: &str, made: bool) -> (r: bool)
    ensures
        ({
            let awaited = old(thumbs)@.contains_key(photo@) && old(thumbs)@[photo@]
                == Thumb::Loading;
            &&& r == (awaited && made)
            &&& final(thumbs)@ == (if !awaited {
                old(thumbs)@
            } else if made {
                old(thumbs)@.insert(photo@, Thumb::Ready)
            } else {
                old(thumbs)@.insert(photo@, Thumb::Failed)
            })
        }),
{
    let awaited: bool = match thumbs.get(photo) {
        Some(t) => *t == Thumb::Loading,
        None => false,
    };
    if !awaited {
        return false;
    }
    thumbs.insert(
        photo.to_owned(),
        if made {
            Thumb::Ready
        } else {
            Thumb::Failed
        },
    );
    made
}

proof fn lemma_missing(
    photos: Seq<Seq<char>>,
    thumbs: Map<Seq<char>, Thumb>,
    a: int,
    b: int,
    i: int,
)
    requires
        a <= i < b,
        !thumbs.contains_key(photos[i]),
    ensures
        missing(photos, thumbs, a, b).contains(photos[i]),
    decreases b - a,
{
    let all = missing(photos, thumbs, a, b);
    if i == b - 1 {
        assert(all[all.len() - 1] == photos[i]);
    } else {
        lemma_missing(photos, thumbs, a, b - 1, i);
        let head = missing(photos, thumbs, a, b - 1);
        let k = choose|k: int| 0 <= k < head.len() && head[k] == photos[i];
        assert(all[k] == photos[i]);
    }
}

proof fn lemma_marked(thumbs: Map<Seq<char>, Thumb>, list: Seq<Seq<char>>, p: Seq<char>)
    requires
        thumbs.contains_key(p) || list.contains(p),
    ensures
        marked(thumbs, list).contains_key(p),
    decreases list.len(),
{
    if list.len() > 0 && p != list.last() {
        if !thumbs.contains_key(p) {
            let k = choose|k: int| 0 <= k < list.len() && list[k] == p;
            assert(list.drop_last()[k] == p);
        }
        lemma_marked(thumbs, list.drop_last(), p);
    }
}

proof fn lemma_given_up(
    thumbs: Map<Seq<char>, Thumb>,
    jobs: Seq<Seq<char>>,
    near: Set<Seq<char>>,
    p: Seq<char>,
)
    requires
        near.contains(p),
    ensures
        given_up(thumbs, jobs, near).contains_key(p) == thumbs.contains_key(p),
    decreases jobs.len(),
{
    if jobs.len() > 0 {
        lemma_given_up(thumbs, jobs.drop_last(), near, p);
    }
}

proof fn lemma_evicted_keeps(
    thumbs: Map<Seq<char>, Thumb>,
    photos: Seq<Seq<char>>,
    lo: int,
    hi: int,
    n: int,
    i: int,
)
    requires
        photos.no_duplicates(),
        0 <= n <= photos.len(),
        0 <= i < photos.len(),
        lo <= i < hi,
    ensures
        evicted(thumbs, photos, lo, hi, n).contains_key(photos[i]) == thumbs.contains_key(
            photos[i],
        ),
    decreases n,
{
    if n > 0 {
        lemma_evicted_keeps(thumbs, photos, lo, hi, n - 1, i);
    }
}

/// The thumbnails of all visible photos are there or asked for, in a list that names no
/// photo twice.
pub proof fn visible_thumbnails_are_asked_for(
    v: ThumbsView,
    photos: Seq<Seq<char>>,
    first: int,
    last: int,
    i: int,
)
    requires
        photos.no_duplicates(),
        0 <= first <= i < last <= photos.len(),
    ensures
        v.requested(photos, first, last).trimmed(photos, first, last).thumbs.contains_key(
            photos[i],
        ),
{
    let list = wanted(photos, v.thumbs, first, last);
    let p = photos[i];
    let lo = keep_from(first);
    let hi = keep_to(last, photos.len() as int);
    if !v.thumbs.contains_key(p) {
        lemma_missing(photos, v.thumbs, first, last, i);
        let visible = missing(photos, v.thumbs, first, last);
        let k = choose|k: int| 0 <= k < visible.len() && visible[k] == p;
        assert(list[k] == p);
    }
    lemma_marked(v.thumbs, list, p);
    assert(photos_between(photos, lo, hi - 1).contains(p)) by {
        assert(photos[i] == p);
    }
    lemma_given_up(
        marked(v.thumbs, list),
        list + v.jobs,
        photos_between(photos, lo, hi - 1),
        p,
    );
    let asked = v.requested(photos, first, last);
    assert(asked.thumbs.contains_key(p));
    lemma_evicted_keeps(asked.thumbs, photos, lo, hi, photos.len() as int, i);
}

proof fn lemma_evicted_smaller(
    thumbs: Map<Seq<char>, Thumb>,
    photos: Seq<Seq<char>>,
    lo: int,
    hi: int,
    n: int,
    i: int,
)
    requires
        0 <= i < n <= photos.len(),
        i < lo || i >= hi,
    ensures
        ({
            let rest = evicted(thumbs, photos, lo, hi, n);
            !(rest.contains_key(photos[i]) && rest[photos[i]] == Thumb::Ready)
        }),
    decreases n,
{
    if i < n - 1 {
        lemma_evicted_smaller(thumbs, photos, lo, hi, n - 1, i);
    }
}

/// When there are far too many thumbnails, no photo far from the visible ones keeps a
/// finished one.
pub proof fn far_thumbnails_are_dropped(
    v: ThumbsView,
    photos: Seq<Seq<char>>,
    first: int,
    last: int,
    i: int,
)
    requires
        0 <= i < photos.len(),
        i < keep_from(first) || i >= keep_to(last, photos.len() as int),
        v.thumbs.len() > keep_to(last, photos.len() as int) - keep_from(first) + SLACK,
    ensures
        ({
            let rest = v.trimmed(photos, first, last).thumbs;
            !(rest.contains_key(photos[i]) && rest[photos[i]] == Thumb::Ready)
        }),
{
    lemma_evicted_smaller(
        v.thumbs,
        photos,
        keep_from(first),
        keep_to(last, photos.len() as int),
        photos.len() as int,
        i,
    );
}

/// Only photos of the list have thumbnails.
pub open spec fn only_of(thumbs: Map<Seq<char>, Thumb>, photos: Seq<Seq<char>>) -> bool {
    forall|p: Seq<char>| #[trigger] thumbs.contains_key(p) ==> photos.contains(p)
}

/// The photos whose thumbnails are finished, and so take up memory.
pub open spec fn finished(thumbs: Map<Seq<char>, Thumb>) -> Set<Seq<char>> {
    thumbs.dom().filter(|p: Seq<char>| thumbs[p] == Thumb::Ready)
}

proof fn lemma_missing_are_photos(
    photos: Seq<Seq<char>>,
    thumbs: Map<Seq<char>, Thumb>,
    a: int,
    b: int,
    k: int,
)
    requires
        0 <= a <= b <= photos.len(),
        0 <= k < missing(photos, thumbs, a, b).len(),
    ensures
        photos.contains(missing(photos, thumbs, a, b)[k]),
    decreases b - a,
{
    if a < b {
        let head = missing(photos, thumbs, a, b - 1);
        if k < head.len() {
            lemma_missing_are_photos(photos, thumbs, a, b - 1, k);
        } else {
            assert(photos[b - 1] == missing(photos, thumbs, a, b)[k]);
        }
    }
}

proof fn lemma_marked_only_of(
    thumbs: Map<Seq<char>, Thumb>,
    list: Seq<Seq<char>>,
    photos: Seq<Seq<char>>,
)
    requires
        only_of(thumbs, photos),
        thumbs.dom().finite(),
        forall|k: int| 0 <= k < list.len() ==> photos.contains(#[trigger] list[k]),
    ensures
        only_of(marked(thumbs, list), photos),
        marked(thumbs, list).dom().finite(),
    decreases list.len(),
{
    if list.len() > 0 {
        assert forall|k: int| 0 <= k < list.drop_last().len() implies photos.contains(
            #[trigger] list.drop_last()[k],
        ) by {
            assert(list.drop_last()[k] == list[k]);
        }
        lemma_marked_only_of(thumbs, list.drop_last(), photos);
        assert(photos.contains(list[list.len() - 1]));
    }
}

proof fn lemma_given_up_only_of(
    thumbs: Map<Seq<char>, Thumb>,
    jobs: Seq<Seq<char>>,
    near: Set<Seq<char>>,
    photos: Seq<Seq<char>>,
)
    requires
        only_of(thumbs, photos),
        thumbs.dom().finite(),
    ensures
        only_of(given_up(thumbs, jobs, near), photos),
        given_up(thumbs, jobs, near).dom().finite(),
    decreases jobs.len(),
{
    if jobs.len() > 0 {
        lemma_given_up_only_of(thumbs, jobs.drop_last(), near, photos);
    }
}

proof fn lemma_evicted_only_of(
    thumbs: Map<Seq<char>, Thumb>,
    photos: Seq<Seq<char>>,
    lo: int,
    hi: int,
    n: int,
)
    requires
        only_of(thumbs, photos),
        thumbs.dom().finite(),
    ensures
        only_of(evicted(thumbs, photos, lo, hi, n), photos),
        evicted(thumbs, photos, lo, hi, n).dom().finite(),
    decreases n,
{
    if n > 0 {
        lemma_evicted_only_of(thumbs, photos, lo, hi, n - 1);
    }
}

/// However many photos there are, the finished thumbnails stay few: no more than there
/// are photos near the visible ones, and some to spare.
pub proof fn finished_thumbnails_stay_few(
    v: ThumbsView,
    photos: Seq<Seq<char>>,
    first: int,
    last: int,
)
    requires
        0 <= first <= last <= photos.len(),
        only_of(v.thumbs, photos),
        v.thumbs.dom().finite(),
    ensures
        ({
            let after = v.requested(photos, first, last).trimmed(photos, first, last).thumbs;
            &&& only_of(after, photos)
            &&& finished(after).len() <= (last - first) + 2 * KEEP + SLACK
        }),
{
    let n = photos.len() as int;
    let list = wanted(photos, v.thumbs, first, last);
    let lo = keep_from(first);
    let hi = keep_to(last, n);
    assert forall|k: int| 0 <= k < list.len() implies photos.contains(#[trigger] list[k]) by {
        let a = missing(photos, v.thumbs, first, last);
        let b = missing(photos, v.thumbs, last, least(last + PREFETCH, n));
        if k < a.len() {
            lemma_missing_are_photos(photos, v.thumbs, first, last, k);
        } else if k < a.len() + b.len() {
            lemma_missing_are_photos(
                photos,
                v.thumbs,
                last,
                least(last + PREFETCH, n),
                k - a.len(),
            );
        } else {
            lemma_missing_are_photos(
                photos,
                v.thumbs,
                minus(first, PREFETCH as int),
                first,
                k - a.len() - b.len(),
            );
        }
    }
    lemma_marked_only_of(v.thumbs, list, photos);
    lemma_given_up_only_of(
        marked(v.thumbs, list),
        list + v.jobs,
        photos_between(photos, lo, hi - 1),
        photos,
    );
    let asked = v.requested(photos, first, last);
    assert(only_of(asked.thumbs, photos) && asked.thumbs.dom().finite());
    lemma_evicted_only_of(asked.thumbs, photos, lo, hi, n);
    let after = asked.trimmed(photos, first, last).thumbs;
    let ready = finished(after);
    if asked.thumbs.len() > hi - lo + SLACK {
        let near = photos.subrange(lo, hi);
        assert forall|p: Seq<char>| #[trigger] ready.contains(p) implies near.to_set().contains(
            p,
        ) by {
            assert(after.contains_key(p) && photos.contains(p));
            let i = choose|i: int| 0 <= i < photos.len() && photos[i] == p;
            if i < lo || i >= hi {
                lemma_evicted_smaller(asked.thumbs, photos, lo, hi, n, i);
            }
            assert(near[i - lo] == p);
        }
        near.lemma_cardinality_of_set();
        vstd::seq_lib::seq_to_set_is_finite(near);
        vstd::set_lib::lemma_len_subset(ready, near.to_set());
    } else {
        vstd::set_lib::lemma_len_subset(ready, after.dom());
    }
}

proof fn lemma_evicted_keeps_values(
    thumbs: Map<Seq<char>, Thumb>,
    photos: Seq<Seq<char>>,
    lo: int,
    hi: int,
    n: int,
    p: Seq<char>,
)
    requires
        0 <= n <= photos.len(),
    ensures
        evicted(thumbs, photos, lo, hi, n).contains_key(p) ==> thumbs.contains_key(p) && evicted(
            thumbs,
            photos,
            lo,
            hi,
            n,
        )[p] == thumbs[p],
        thumbs.contains_key(p) && thumbs[p] != Thumb::Ready ==> evicted(
            thumbs,
            photos,
            lo,
            hi,
            n,
        ).contains_key(p),
    decreases n,
{
    if n > 0 {
        lemma_evicted_keeps_values(thumbs, photos, lo, hi, n - 1, p);
    }
}

/// Dropping thumbnails changes none that stays, and drops none of a near photo and none
/// that is not finished; while there are few, none at all.
pub proof fn near_thumbnails_stay(
    v: ThumbsView,
    photos: Seq<Seq<char>>,
    first: int,
    last: int,
    i: int,
    p: Seq<char>,
)
    requires
        photos.no_duplicates(),
        0 <= i < photos.len(),
    ensures
        ({
            let w = v.trimmed(photos, first, last);
            &&& w.jobs == v.jobs
            &&& first - KEEP <= i < last + KEEP ==> w.thumbs.contains_key(photos[i])
                == v.thumbs.contains_key(photos[i])
            &&& w.thumbs.contains_key(p) ==> v.thumbs.contains_key(p) && w.thumbs[p] == v.thumbs[p]
            &&& v.thumbs.contains_key(p) && v.thumbs[p] != Thumb::Ready ==> w.thumbs.contains_key(p)
            &&& v.thumbs.len() <= SLACK ==> first <= last <= photos.len() && 0 <= first ==> w == v
        }),
{
    let lo = keep_from(first);
    let hi = keep_to(last, photos.len() as int);
    if lo <= i < hi {
        lemma_evicted_keeps(v.thumbs, photos, lo, hi, photos.len() as int, i);
    }
    lemma_evicted_keeps_values(v.thumbs, photos, lo, hi, photos.len() as int, p);
}

} // verus!
