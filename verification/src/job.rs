//! What a conversion takes out of the editor.

use crate::adjust::Adjustments;
use crate::caption::{EntryView, SubtitleEntry};
use crate::editor::Editor;
use crate::looks::LooksView;
use crate::scalar::Scalar;
use crate::text::{
    blank, is_blank, trim_end, trimmed_end, trimming_takes_white_space_only,
};
use vstd::prelude::*;

verus! {

/// A caption of a video: shown from photo `s` to photo `e`, counted from zero, both
/// included.
pub struct TextJob {
    pub s: usize,
    pub e: usize,
    pub text: String,
    pub x: Scalar,
    pub y: Scalar,
    pub size: i32,
    pub rot: Scalar,
}

/// What a caption of a video stands for.
pub struct TextJobView {
    pub s: int,
    pub e: int,
    pub text: Seq<char>,
    pub x: Scalar,
    pub y: Scalar,
    pub size: i32,
    pub rot: Scalar,
}

impl View for TextJob {
    type V = TextJobView;

    open spec fn view(&self) -> TextJobView {
        TextJobView {
            s: self.s as int,
            e: self.e as int,
            text: self.text@,
            x: self.x,
            y: self.y,
            size: self.size,
            rot: self.rot,
        }
    }
}

/// What a list of captions of a video stands for.
pub open spec fn text_job_views(v: Seq<TextJob>) -> Seq<TextJobView> {
    v.map_values(|t: TextJob| t@)
}

/// What a caption becomes in a video of `total` photos: nothing if it has no text or
/// covers none of them.
pub open spec fn text_job(e: EntryView, total: int) -> Option<TextJobView> {
    let s = if e.start < 1 {
        0
    } else {
        e.start - 1
    };
    let end = if e.end < total {
        e.end
    } else {
        total
    };
    if is_blank(e.text) || s >= end {
        None
    } else {
        Some(
            TextJobView {
                s,
                e: end - 1,
                text: e.text,
                x: e.x,
                y: e.y,
                size: e.size,
                rot: e.rot,
            },
        )
    }
}

/// What the captions become in a video of `total` photos, in order.
pub open spec fn text_jobs(entries: Seq<EntryView>, total: int) -> Seq<TextJobView>
    decreases entries.len(),
{
    if entries.len() == 0 {
        seq![]
    } else {
        let head = text_jobs(entries.drop_last(), total);
        match text_job(entries.last(), total) {
            Some(t) => head.push(t),
            None => head,
        }
    }
}

/// How each photo is to look.
pub open spec fn each_look(looks: LooksView, photos: Seq<Seq<char>>) -> Seq<Adjustments> {
    photos.map_values(|p: Seq<char>| looks.effective(p))
}

fn make_job(e: &SubtitleEntry, total: usize) -> (r: Option<TextJob>)
    ensures
        match r {
            Some(t) => text_job(e@, total as int) == Some(t@),
            None => text_job(e@, total as int) is None,
        },
{
    let s: usize = if e.start < 1 {
        0
    } else {
        e.start - 1
    };
    let end: usize = if e.end < total {
        e.end
    } else {
        total
    };
    if blank(e.text.as_str()) || s >= end {
        return None;
    }
    Some(
        TextJob {
            s,
            e: end - 1,
            text: e.text.clone(),
            x: e.x,
            y: e.y,
            size: e.size,
            rot: e.rot,
        },
    )
}

impl Editor {
    /// The captions of the video.
    pub fn text_jobs(&self) -> (r: Vec<TextJob>)
        ensures
            text_job_views(r@) == text_jobs(self@.captions.entries, self@.photos.len() as int),
    {
        let ghost v = self@.captions.entries;
        let total: usize = self.photos.len();
        let mut r: Vec<TextJob> = Vec::new();
        let mut i: usize = 0;
        assert(v.take(0) =~= seq![]);
        assert(text_job_views(r@) =~= seq![]);
        while i < self.captions.entries.len()
            invariant
                i <= self.captions.entries.len(),
                v == self@.captions.entries,
                total == self.photos.len(),
                text_job_views(r@) == text_jobs(v.take(i as int), total as int),
            decreases self.captions.entries.len() - i,
        {
            assert(v[i as int] == self.captions.entries[i as int]@);
            assert(v.take(i + 1).drop_last() =~= v.take(i as int));
            assert(v.take(i + 1).last() == v[i as int]);
            let ghost before = r@;
            match make_job(&self.captions.entries[i], total) {
                Some(t) => {
                    r.push(t);
                    assert(text_job_views(r@) =~= text_job_views(before).push(t@));
                },
                None => {},
            }
            i += 1;
        }
        assert(v.take(v.len() as int) =~= v);
        r
    }

    /// How each photo is to look.
    pub fn photo_looks(&self) -> (r: Vec<Adjustments>)
        ensures
            r@ == each_look(self@.looks, self@.photos),
    {
        let ghost v = self@.photos;
        let mut r: Vec<Adjustments> = Vec::new();
        let mut i: usize = 0;
        while i < self.photos.len()
            invariant
                i <= self.photos.len(),
                v == self@.photos,
                r.len() == i,
                forall|k: int| 0 <= k < i ==> r[k] == self@.looks.effective(#[trigger] v[k]),
            decreases self.photos.len() - i,
        {
            assert(v[i as int] == self.photos[i as int]@);
            r.push(self.looks.effective_adj(self.photos[i].as_str()));
            i += 1;
        }
        assert(r@ =~= each_look(self@.looks, v));
        r
    }
}

/// The texts that are drawn, without white space at the end: for each caption that has
/// any, its place in the list and its text.
pub open spec fn drawn_texts(jobs: Seq<TextJobView>) -> Seq<(int, Seq<char>)>
    decreases jobs.len(),
{
    if jobs.len() == 0 {
        seq![]
    } else {
        let head = drawn_texts(jobs.drop_last());
        let text = trimmed_end(jobs.last().text);
        if text.len() == 0 {
            head
        } else {
            head.push((jobs.len() - 1, text))
        }
    }
}

/// What a list of numbered texts stands for.
pub open spec fn numbered_views(v: Seq<(usize, String)>) -> Seq<(int, Seq<char>)> {
    v.map_values(|p: (usize, String)| (p.0 as int, p.1@))
}

/// The texts that are drawn: for each caption that has any, its place in the list and
/// its text without white space at the end.
pub fn texts_to_draw(jobs: &Vec<TextJob>) -> (r: Vec<(usize, String)>)
    ensures
        numbered_views(r@) == drawn_texts(text_job_views(jobs@)),
{
    let ghost v = text_job_views(jobs@);
    let mut r: Vec<(usize, String)> = Vec::new();
    let mut i: usize = 0;
    assert(v.take(0) =~= seq![]);
    assert(numbered_views(r@) =~= seq![]);
    while i < jobs.len()
        invariant
            i <= jobs.len(),
            v == text_job_views(jobs@),
            numbered_views(r@) == drawn_texts(v.take(i as int)),
        decreases jobs.len() - i,
    {
        assert(v[i as int] == jobs[i as int]@);
        assert(v.take(i + 1).drop_last() =~= v.take(i as int));
        assert(v.take(i + 1).last() == v[i as int]);
        let ghost before = r@;
        let text = trim_end(jobs[i].text.as_str());
        if !text.as_str().is_empty() {
            let ghost t = text@;
            r.push((i, text));
            assert(numbered_views(r@) =~= numbered_views(before).push((i as int, t)));
        }
        i += 1;
    }
    assert(v.take(v.len() as int) =~= v);
    r
}

/// A caption of the editor is shown in the video on exactly the photos on which the
/// editor shows it.
pub proof fn video_shows_the_captions_of_the_editor(e: EntryView, total: int, n: int)
    requires
        1 <= n <= total,
    ensures
        e.shows_on(n) <==> (text_job(e, total) matches Some(t) && t.s <= n - 1 <= t.e),
{
}

/// A caption is drawn with the text, the place, the size and the turn that it has in the
/// editor, over the photos that it covers there: the photo before its first one and the
/// one behind its last one do not show it.
pub proof fn drawn_caption_is_that_of_the_editor(e: EntryView, total: int)
    ensures
        text_job(e, total) matches Some(t) ==> {
            &&& t.text == e.text && t.x == e.x && t.y == e.y && t.size == e.size && t.rot == e.rot
            &&& t.s + 1 == e.start || (e.start < 1 && t.s == 0)
            &&& 0 <= t.s <= t.e < total
            &&& t.e + 1 <= e.end
            &&& t.e + 1 == e.end || t.e + 1 == total
        },
        1 <= e.start ==> (text_job(e, total) is None <==> is_blank(e.text) || e.end < e.start
            || e.start > total),
{
}

proof fn lemma_text_jobs(a: Seq<EntryView>, b: Seq<EntryView>, total: int)
    ensures
        text_jobs(a + b, total) == text_jobs(a, total) + text_jobs(b, total),
    decreases b.len(),
{
    if b.len() == 0 {
        assert(a + b =~= a);
        assert(text_jobs(a, total) + text_jobs(b, total) =~= text_jobs(a, total));
    } else {
        assert((a + b).drop_last() =~= a + b.drop_last());
        assert((a + b).last() == b.last());
        lemma_text_jobs(a, b.drop_last(), total);
        assert(text_jobs(a + b, total) =~= text_jobs(a, total) + text_jobs(b, total));
    }
}

/// The captions of the video are those of the editor in the same order, without those
/// that are not seen: each stands behind the captions before it and in front of those
/// behind it.
pub proof fn captions_keep_their_order(entries: Seq<EntryView>, total: int, k: int)
    requires
        0 <= k < entries.len(),
    ensures
        text_jobs(entries, total) == text_jobs(entries.take(k), total) + (match text_job(
            entries[k],
            total,
        ) {
            Some(t) => seq![t],
            None => seq![],
        }) + text_jobs(entries.skip(k + 1), total),
        text_jobs(entries.take(0), total) == Seq::<TextJobView>::empty(),
{
    let one = seq![entries[k]];
    assert(entries =~= entries.take(k) + one + entries.skip(k + 1));
    lemma_text_jobs(entries.take(k) + one, entries.skip(k + 1), total);
    lemma_text_jobs(entries.take(k), one, total);
    assert(one.drop_last() =~= seq![]);
    assert(text_jobs(one.drop_last(), total) =~= seq![]);
    assert(text_jobs(one, total) =~= match text_job(entries[k], total) {
        Some(t) => seq![t],
        None => seq![],
    });
}

/// Each photo looks as the editor shows it.
pub proof fn each_photo_looks_as_in_the_editor(
    looks: LooksView,
    photos: Seq<Seq<char>>,
    i: int,
)
    requires
        0 <= i < photos.len(),
    ensures
        each_look(looks, photos).len() == photos.len(),
        each_look(looks, photos)[i] == looks.effective(photos[i]),
{
}

/// The texts that are drawn go by the places of their captions, in order and without
/// white space at the end; a text of nothing but white space is not drawn, and every
/// other one is.
pub proof fn texts_are_drawn_in_order(jobs: Seq<TextJobView>)
    ensures
        forall|i: int|
            0 <= i < drawn_texts(jobs).len() ==> {
                let d = #[trigger] drawn_texts(jobs)[i];
                0 <= d.0 < jobs.len() && d.1 == trimmed_end(jobs[d.0].text) && d.1.len() > 0
            },
        forall|i: int, j: int|
            0 <= i < j < drawn_texts(jobs).len() ==> (#[trigger] drawn_texts(jobs)[i]).0 < (
            #[trigger] drawn_texts(jobs)[j]).0,
        forall|k: int|
            0 <= k < jobs.len() && trimmed_end((#[trigger] jobs[k]).text).len() > 0
                ==> drawn_texts(jobs).contains((k, trimmed_end(jobs[k].text))),
    decreases jobs.len(),
{
    if jobs.len() > 0 {
        let head = jobs.drop_last();
        texts_are_drawn_in_order(head);
        let before = drawn_texts(head);
        let all = drawn_texts(jobs);
        assert forall|k: int|
            0 <= k < jobs.len() && trimmed_end((#[trigger] jobs[k]).text).len()
                > 0 implies all.contains((k, trimmed_end(jobs[k].text))) by {
            if k < head.len() {
                assert(head[k] == jobs[k]);
                let v = (k, trimmed_end(jobs[k].text));
                assert(before.contains(v));
                let i = choose|i: int| 0 <= i < before.len() && before[i] == v;
                assert(all[i] == v);
            } else {
                assert(all[all.len() - 1] == (k, trimmed_end(jobs[k].text)));
            }
        }
        assert forall|i: int| 0 <= i < all.len() implies {
            let d = #[trigger] all[i];
            0 <= d.0 < jobs.len() && d.1 == trimmed_end(jobs[d.0].text) && d.1.len() > 0
        } by {
            if i < before.len() {
                assert(all[i] == before[i]);
                assert(head[before[i].0] == jobs[before[i].0]);
            }
        }
        assert forall|i: int, j: int| 0 <= i < j < all.len() implies (#[trigger] all[i]).0 < (
        #[trigger] all[j]).0 by {
            assert(all[i] == before[i]);
            if j < before.len() {
                assert(all[j] == before[j]);
            }
        }
    }
}

/// Every caption of the video is drawn.
pub proof fn every_caption_is_drawn(e: EntryView, total: int)
    ensures
        text_job(e, total) matches Some(t) ==> trimmed_end(t.text).len() > 0,
{
    trimming_takes_white_space_only(e.text);
    if trimmed_end(e.text).len() == 0 {
        assert(e.text.skip(0) =~= e.text);
    }
}

} // verus!
