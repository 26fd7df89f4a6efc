//! What sorting, remembering and reading lists of names keeps.

use crate::config::{present, remembered, usable_fps, without};
use crate::editor::Thumb;
use crate::fonts::names_there;
use crate::labels::{newer_text, signed, update_text};
use crate::order::{
    goes_before, key_of, natural_order, natural_order_exists, naturally_sorted, part_of, path_key,
    rank_key, rank_part, rank_text, runs, PartView, Rank,
};
use crate::release::{is_after, joined_texts_split_again};
use crate::smoke_tool::{
    arg_at, bytes_among, color_in, jpg_at, layered, number_or, signed_number,
};
use crate::text::{
    dec, dec_int, has_part, is_digit, is_space, joined, lowercase, number, parsed, trimmed_end,
    trimmed_start, written_number_is_parsed, written_number_reads_back,
};
use crate::thumbs::{missing, near_jobs, wanted, PREFETCH};
use crate::update::StatusView;
use vstd::prelude::*;

verus! {

/// Texts are ranked by the first character in which they differ, and a text stands behind
/// its own beginnings.
pub proof fn first_difference_decides(a: Seq<char>, b: Seq<char>, k: int)
    requires
        0 <= k <= a.len(),
        k <= b.len(),
        a.take(k) == b.take(k),
    ensures
        k < a.len() && k < b.len() && (a[k] as int) < (b[k] as int) ==> rank_text(a, b)
            == Rank::Before && rank_text(b, a) == Rank::After,
        k == a.len() && k < b.len() ==> rank_text(a, b) == Rank::Before && rank_text(b, a)
            == Rank::After,
        k == a.len() && k == b.len() ==> rank_text(a, b) == Rank::Same,
    decreases k,
{
    if k > 0 {
        assert(a.take(k)[0] == a[0] && b.take(k)[0] == b[0]);
        let x = a.drop_first();
        let y = b.drop_first();
        assert(x.take(k - 1) =~= a.take(k).drop_first());
        assert(y.take(k - 1) =~= b.take(k).drop_first());
        first_difference_decides(x, y, k - 1);
    }
}

/// Keys are ranked by the first piece in which they differ, numbers by their size and
/// before texts, and a key stands behind its own beginnings.
pub proof fn first_differing_piece_decides(a: Seq<PartView>, b: Seq<PartView>, k: int, m: nat, n: nat, s: Seq<char>)
    requires
        0 <= k <= a.len(),
        k <= b.len(),
        forall|i: int| 0 <= i < k ==> rank_part(#[trigger] a[i], b[i]) == Rank::Same,
    ensures
        k < a.len() && k < b.len() && rank_part(a[k], b[k]) != Rank::Same ==> rank_key(a, b)
            == rank_part(a[k], b[k]),
        k == a.len() && k < b.len() ==> rank_key(a, b) == Rank::Before,
        k == b.len() && k < a.len() ==> rank_key(a, b) == Rank::After,
        k == a.len() && k == b.len() ==> rank_key(a, b) == Rank::Same,
        m < n ==> rank_part(PartView::Num(m), PartView::Num(n)) == Rank::Before,
        m > n ==> rank_part(PartView::Num(m), PartView::Num(n)) == Rank::After,
        rank_part(PartView::Num(m), PartView::Text(s)) == Rank::Before,
        rank_part(PartView::Text(s), PartView::Num(m)) == Rank::After,
    decreases k,
{
    if k > 0 {
        assert(rank_part(a[0], b[0]) == Rank::Same);
        let x = a.drop_first();
        let y = b.drop_first();
        assert forall|i: int| 0 <= i < k - 1 implies rank_part(#[trigger] x[i], y[i])
            == Rank::Same by {
            assert(rank_part(a[i + 1], b[i + 1]) == Rank::Same);
        }
        first_differing_piece_decides(x, y, k - 1, m, n, s);
    }
}

/// The pieces of a name follow one another: together they are the name, none is empty,
/// each is all digits or none, and the two kinds alternate.
pub proof fn pieces_make_the_name(s: Seq<char>)
    ensures
        joined(runs(s), Seq::empty()) == s,
        forall|i: int| 0 <= i < runs(s).len() ==> (#[trigger] runs(s)[i]).len() > 0,
        forall|i: int, k: int|
            0 <= i < runs(s).len() && 0 <= k < runs(s)[i].len() ==> is_digit(
                #[trigger] runs(s)[i][k],
            ) == is_digit(runs(s)[i].last()),
        forall|i: int, j: int|
            0 <= i && j == i + 1 && j < runs(s).len() ==> is_digit((#[trigger] runs(s)[i]).last())
                != is_digit((#[trigger] runs(s)[j]).last()),
    decreases s.len(),
{
    let all = runs(s);
    let none = Seq::<char>::empty();
    if s.len() == 0 {
        assert(joined(all, none) =~= s);
    } else {
        let front = s.drop_last();
        let head = runs(front);
        let c = s.last();
        pieces_make_the_name(front);
        assert(s =~= front.push(c));
        if head.len() > 0 && is_digit(head.last().last()) == is_digit(c) {
            let last = head.last();
            assert(head[head.len() - 1] == last);
            assert(all.drop_last() =~= head.drop_last());
            assert(all.last() == last.push(c));
            assert(all.len() == head.len());
            assert forall|i: int| 0 <= i < all.len() - 1 implies #[trigger] all[i] == head[i] by {}
            if all.len() == 1 {
                assert(joined(all, none) =~= joined(head, none).push(c));
            } else {
                assert(joined(all, none) =~= joined(head, none).push(c));
            }
            assert forall|i: int, k: int| 0 <= i < all.len() && 0 <= k < all[i].len() implies is_digit(
                #[trigger] all[i][k],
            ) == is_digit(all[i].last()) by {
                if i < all.len() - 1 {
                    assert(is_digit(head[i][k]) == is_digit(head[i].last()));
                } else if k < last.len() {
                    assert(is_digit(head[i][k]) == is_digit(head[i].last()));
                }
            }
        } else {
            assert(all == head.push(seq![c]));
            assert(all.drop_last() =~= head);
            assert forall|i: int| 0 <= i < head.len() implies #[trigger] all[i] == head[i] by {}
            if head.len() == 0 {
                assert(joined(head, none) =~= none);
                assert(front =~= none);
                assert(joined(all, none) =~= s);
            } else {
                assert(joined(all, none) =~= joined(head, none).push(c));
            }
            assert forall|i: int, k: int| 0 <= i < all.len() && 0 <= k < all[i].len() implies is_digit(
                #[trigger] all[i][k],
            ) == is_digit(all[i].last()) by {
                if i < head.len() {
                    assert(is_digit(head[i][k]) == is_digit(head[i].last()));
                }
            }
        }
    }
}

/// A piece of digits counts as the number that it writes down, and any other piece as
/// itself.
pub proof fn pieces_count_as_numbers(n: u128, text: Seq<char>)
    ensures
        part_of(dec(n as nat), true) == PartView::Num(n as nat),
        part_of(seq!['0'] + dec(n as nat), true) == PartView::Num(n as nat),
        part_of(text, false) == PartView::Text(text),
        key_of(text).len() == runs(text).len(),
{
    written_number_reads_back(n as nat);
    let d = dec(n as nat);
    lemma_leading_zero(d);
    let z = seq!['0'] + d;
    assert forall|i: int| 0 <= i < z.len() implies is_digit(#[trigger] z[i]) by {
        if i > 0 {
            assert(is_digit(d[i - 1]));
        }
    }
}

proof fn lemma_leading_zero(d: Seq<char>)
    ensures
        number(seq!['0'] + d) == number(d),
    decreases d.len(),
{
    let z = seq!['0'] + d;
    if d.len() == 0 {
        assert(z.drop_last() =~= seq![]);
        assert(number(z.drop_last()) == 0);
        assert(z.last() == '0');
    } else {
        assert(z.drop_last() =~= seq!['0'] + d.drop_last());
        assert(z.last() == d.last());
        lemma_leading_zero(d.drop_last());
    }
}

/// Versions are ordered by their first number, then by the second, then by the third.
pub proof fn earlier_numbers_decide(a: (u64, u64, u64), b: (u64, u64, u64))
    ensures
        a.0 > b.0 ==> is_after(a, b),
        a.0 < b.0 ==> !is_after(a, b),
        a.0 == b.0 && a.1 > b.1 ==> is_after(a, b),
        a.0 == b.0 && a.1 < b.1 ==> !is_after(a, b),
        a.0 == b.0 && a.1 == b.1 ==> (is_after(a, b) <==> a.2 > b.2),
{
}

proof fn lemma_without(list: Seq<Seq<char>>, path: Seq<char>, p: Seq<char>)
    ensures
        without(list, path).contains(p) <==> list.contains(p) && lowercase(p) != lowercase(path),
    decreases list.len(),
{
    let all = without(list, path);
    if list.len() > 0 {
        let head = list.drop_last();
        let before = without(head, path);
        lemma_without(head, path, p);
        if all.contains(p) {
            let i = choose|i: int| 0 <= i < all.len() && all[i] == p;
            if i < before.len() {
                assert(before[i] == p);
                let k = choose|k: int| 0 <= k < head.len() && head[k] == p;
                assert(list[k] == p);
            } else {
                assert(list[list.len() - 1] == p);
            }
        }
        if list.contains(p) && lowercase(p) != lowercase(path) {
            let k = choose|k: int| 0 <= k < list.len() && list[k] == p;
            if k < head.len() {
                assert(head[k] == p);
                let i = choose|i: int| 0 <= i < before.len() && before[i] == p;
                assert(all[i] == p);
            } else {
                assert(all[all.len() - 1] == p);
            }
        }
    }
}

/// Forgetting a project takes it out of the list, in any case of its letters, and leaves
/// the others. Remembering one puts it in front of the others, of which only those that
/// are there too often or do not fit go.
pub proof fn remembered_project_comes_first(list: Seq<Seq<char>>, path: Seq<char>, p: Seq<char>)
    ensures
        without(list, path).contains(p) <==> list.contains(p) && lowercase(p) != lowercase(path),
        remembered(list, path)[0] == path,
        1 <= remembered(list, path).len() <= 8,
        forall|i: int|
            1 <= i < remembered(list, path).len() ==> #[trigger] remembered(list, path)[i]
                == without(list, path)[i - 1],
        remembered(list, path).len() < 8 ==> remembered(list, path).len() == without(
            list,
            path,
        ).len() + 1,
{
    lemma_without(list, path, p);
}

proof fn lemma_present(v: Seq<Option<Seq<char>>>, w: Seq<Option<Seq<char>>>)
    ensures
        present(v + w) == present(v) + present(w),
    decreases w.len(),
{
    if w.len() == 0 {
        assert(v + w =~= v);
        assert(present(v) + present(w) =~= present(v));
    } else {
        assert((v + w).drop_last() =~= v + w.drop_last());
        assert((v + w).last() == w.last());
        lemma_present(v, w.drop_last());
        assert(present(v + w) =~= present(v) + present(w));
    }
}

/// Of a list in the settings the texts are taken in order, and what is no text is left
/// out.
pub proof fn texts_of_the_settings_are_taken(v: Seq<Option<Seq<char>>>, k: int)
    requires
        0 <= k < v.len(),
    ensures
        present(v) == present(v.take(k)) + (match v[k] {
            Some(s) => seq![s],
            None => seq![],
        }) + present(v.skip(k + 1)),
        present(v.take(0)) == Seq::<Seq<char>>::empty(),
{
    let one = seq![v[k]];
    assert(v =~= v.take(k) + one + v.skip(k + 1));
    lemma_present(v.take(k) + one, v.skip(k + 1));
    lemma_present(v.take(k), one);
    assert(one.drop_last() =~= seq![]);
    assert(present(one.drop_last()) =~= seq![]);
    assert(present(one) =~= match v[k] {
        Some(s) => seq![s],
        None => seq![],
    });
}

/// A frame rate of the settings is used as it is from one to sixty, and not at all
/// otherwise.
pub proof fn usable_rates_are_used(n: u64)
    ensures
        usable_fps(n) is Some <==> 1 <= n <= 60,
        usable_fps(n) matches Some(f) ==> f == n,
{
}

/// The fonts that are there are offered in their order.
pub proof fn fonts_keep_their_order(all: Seq<Seq<char>>, there: Seq<bool>, n: int, p: Seq<char>)
    requires
        0 <= n <= all.len(),
        there.len() == all.len(),
    ensures
        names_there(all, there, n).contains(p) <==> exists|k: int|
            0 <= k < n && there[k] && #[trigger] all[k] == p,
        n > 0 && there[n - 1] ==> names_there(all, there, n).last() == all[n - 1],
        n > 0 ==> names_there(all, there, n).len() == names_there(all, there, n - 1).len() + (
        if there[n - 1] {
            1int
        } else {
            0
        }),
        n > 0 ==> forall|i: int|
            0 <= i < names_there(all, there, n - 1).len() ==> #[trigger] names_there(
                all,
                there,
                n,
            )[i] == names_there(all, there, n - 1)[i],
    decreases n,
{
    if n > 0 {
        fonts_keep_their_order(all, there, n - 1, p);
        let now = names_there(all, there, n);
        let before = names_there(all, there, n - 1);
        if now.contains(p) {
            let i = choose|i: int| 0 <= i < now.len() && now[i] == p;
            if i < before.len() {
                assert(before[i] == p);
                assert(before.contains(p));
            } else {
                assert(all[n - 1] == p);
            }
        }
        if exists|k: int| 0 <= k < n && there[k] && #[trigger] all[k] == p {
            let k = choose|k: int| 0 <= k < n && there[k] && #[trigger] all[k] == p;
            if k < n - 1 {
                assert(before.contains(p));
                let i = choose|i: int| 0 <= i < before.len() && before[i] == p;
                assert(now[i] == p);
            } else {
                assert(now[now.len() - 1] == p);
            }
        }
    }
}

/// Numbers of sliders are shown with their sign, and zero without one; the text reads
/// back as the number.
pub proof fn slider_numbers_have_a_sign(n: int)
    ensures
        n > 0 ==> signed(n) == seq!['+'] + dec(n as nat),
        n == 0 ==> signed(n) == seq!['0'],
        n < 0 ==> signed(n) == seq!['-'] + dec((-n) as nat),
        -0x8000_0000 <= n <= 0x7FFF_FFFF ==> signed_number(signed(n)) == Some(n),
        -0x8000_0000 <= n <= 0x7FFF_FFFF ==> signed_number(dec_int(n)) == Some(n),
{
    reveal_strlit("+");
    assert("+"@ =~= seq!['+']);
    if n < 0 {
        let d = dec((-n) as nat);
        written_number_reads_back((-n) as nat);
        assert((seq!['-'] + d).drop_first() =~= d);
    } else {
        written_number_is_parsed(n as nat, 0x7FFF_FFFF);
        written_number_reads_back(n as nat);
        assert(is_digit(dec(n as nat)[0]));
    }
}

/// A number that is missing or none is the default.
pub proof fn missing_number_is_the_default(n: int, default: int)
    requires
        -0x8000_0000 <= n <= 0x7FFF_FFFF,
    ensures
        number_or(None, default) == default,
        number_or(Some(dec_int(n)), default) == n,
        number_or(Some(Seq::empty()), default) == default,
{
    slider_numbers_have_a_sign(n);
}

/// An argument is found by its place, and is missing behind the last one.
pub proof fn arguments_are_found_by_place(args: Seq<Seq<char>>, i: int)
    requires
        0 <= i,
    ensures
        i < args.len() ==> arg_at(args, i) == Some(args[i]),
        i >= args.len() ==> arg_at(args, i) is None,
{
}

proof fn lemma_byte(b: u8)
    ensures
        parsed(trimmed_end(trimmed_start(dec(b as nat))), 255) == Some(b as nat),
        !dec(b as nat).contains(','),
{
    let d = dec(b as nat);
    written_number_reads_back(b as nat);
    written_number_is_parsed(b as nat, 255);
    assert(is_digit(d[0]) && is_digit(d[d.len() - 1]));
    assert(!is_space(d[0]) && !is_space(d.last()));
    if d.contains(',') {
        let i = choose|i: int| 0 <= i < d.len() && d[i] == ',';
        assert(is_digit(d[i]));
    }
}

/// A colour that is written as red, green and blue with commas between them is read as
/// these, in this order.
pub proof fn written_colour_reads_back(r: u8, g: u8, b: u8)
    ensures
        color_in(joined(seq![dec(r as nat), dec(g as nat), dec(b as nat)], seq![','])) == Some(
            seq![r, g, b],
        ),
{
    lemma_byte(r);
    lemma_byte(g);
    lemma_byte(b);
    let parts = seq![dec(r as nat), dec(g as nat), dec(b as nat)];
    joined_texts_split_again(parts, ',');
    let two = seq![dec(r as nat), dec(g as nat)];
    let one = seq![dec(r as nat)];
    assert(parts.drop_last() =~= two);
    assert(two.drop_last() =~= one);
    assert(one.drop_last() =~= seq![]);
    assert(bytes_among(one.drop_last()) =~= seq![]);
    assert(bytes_among(one) =~= seq![r]);
    assert(bytes_among(two) =~= seq![r, g]);
    assert(bytes_among(parts) =~= seq![r, g, b]);
}

/// A notice names the release that is newer, and the progress of its download.
pub proof fn notices_name_their_release(tag: Seq<char>, percent: Seq<char>, status: StatusView)
    ensures
        has_part(newer_text(tag), tag),
        update_text(StatusView::Available(tag), percent) == Some(newer_text(tag)),
        update_text(status, percent) is None <==> status is Idle,
        status is Downloading ==> (update_text(status, percent) matches Some(t) && has_part(
            t,
            percent + "%"@,
        )),
{
    assert(newer_text(tag) =~= "⬆ 有新版本 "@ + tag + " 可以下載"@);
    let none = Seq::<char>::empty();
    assert("正在下載更新… "@ + percent + "%"@ =~= "正在下載更新… "@ + (percent + "%"@) + none);
}

proof fn lemma_missing(
    photos: Seq<Seq<char>>,
    thumbs: Map<Seq<char>, Thumb>,
    a: int,
    b: int,
    p: Seq<char>,
)
    requires
        0 <= a,
        b <= photos.len(),
    ensures
        missing(photos, thumbs, a, b).contains(p) <==> !thumbs.contains_key(p) && exists|k: int|
            a <= k < b && #[trigger] photos[k] == p,
    decreases b - a,
{
    let all = missing(photos, thumbs, a, b);
    if a < b {
        lemma_missing(photos, thumbs, a, b - 1, p);
        let before = missing(photos, thumbs, a, b - 1);
        if all.contains(p) {
            let i = choose|i: int| 0 <= i < all.len() && all[i] == p;
            if i < before.len() {
                assert(before[i] == p);
                assert(before.contains(p));
            } else {
                assert(photos[b - 1] == p);
            }
        }
        if !thumbs.contains_key(p) && exists|k: int| a <= k < b && #[trigger] photos[k] == p {
            let k = choose|k: int| a <= k < b && #[trigger] photos[k] == p;
            if k < b - 1 {
                assert(before.contains(p));
                let i = choose|i: int| 0 <= i < before.len() && before[i] == p;
                assert(all[i] == p);
            } else {
                assert(all[all.len() - 1] == p);
            }
        }
    }
}

/// Exactly the photos in sight and near to it that have no thumbnail are asked for, and
/// those in sight come first.
pub proof fn near_thumbnails_are_asked_for(
    photos: Seq<Seq<char>>,
    thumbs: Map<Seq<char>, Thumb>,
    first: int,
    last: int,
    p: Seq<char>,
)
    requires
        0 <= first <= last <= photos.len(),
    ensures
        wanted(photos, thumbs, first, last).contains(p) <==> !thumbs.contains_key(p) && exists|
            k: int,
        |
            0 <= k < photos.len() && first - PREFETCH <= k < last + PREFETCH && #[trigger] photos[k]
                == p,
        wanted(photos, thumbs, first, last).take(
            missing(photos, thumbs, first, last).len() as int,
        ) == missing(photos, thumbs, first, last),
{
    let a = missing(photos, thumbs, first, last);
    let hi = if last + PREFETCH < photos.len() {
        last + PREFETCH
    } else {
        photos.len() as int
    };
    let lo = if first < PREFETCH {
        0
    } else {
        first - PREFETCH
    };
    let b = missing(photos, thumbs, last, hi);
    let c = missing(photos, thumbs, lo, first);
    lemma_missing(photos, thumbs, first, last, p);
    lemma_missing(photos, thumbs, last, hi, p);
    lemma_missing(photos, thumbs, lo, first, p);
    let all = wanted(photos, thumbs, first, last);
    assert(all == a + b + c);
    assert(all.take(a.len() as int) =~= a);
    assert(all.contains(p) <==> a.contains(p) || b.contains(p) || c.contains(p)) by {
        if a.contains(p) {
            let i = choose|i: int| 0 <= i < a.len() && a[i] == p;
            assert(all[i] == p);
        }
        if b.contains(p) {
            let i = choose|i: int| 0 <= i < b.len() && b[i] == p;
            assert(all[a.len() + i] == p);
        }
        if c.contains(p) {
            let i = choose|i: int| 0 <= i < c.len() && c[i] == p;
            assert(all[a.len() + b.len() + i] == p);
        }
        if all.contains(p) {
            let i = choose|i: int| 0 <= i < all.len() && all[i] == p;
            if i < a.len() {
                assert(a[i] == p);
            } else if i < a.len() + b.len() {
                assert(b[i - a.len()] == p);
            } else {
                assert(c[i - a.len() - b.len()] == p);
            }
        }
    }
}

/// Of a queue that is too long exactly the jobs near to the photos in sight stay.
pub proof fn near_jobs_stay(jobs: Seq<Seq<char>>, near: Set<Seq<char>>, p: Seq<char>)
    ensures
        near_jobs(jobs, near).contains(p) <==> jobs.contains(p) && near.contains(p),
    decreases jobs.len(),
{
    let all = near_jobs(jobs, near);
    if jobs.len() > 0 {
        let head = jobs.drop_last();
        let before = near_jobs(head, near);
        near_jobs_stay(head, near, p);
        if all.contains(p) {
            let i = choose|i: int| 0 <= i < all.len() && all[i] == p;
            if i < before.len() {
                assert(before[i] == p);
                let k = choose|k: int| 0 <= k < head.len() && head[k] == p;
                assert(jobs[k] == p);
            } else {
                assert(jobs[jobs.len() - 1] == p);
            }
        }
        if jobs.contains(p) && near.contains(p) {
            let k = choose|k: int| 0 <= k < jobs.len() && jobs[k] == p;
            if k < head.len() {
                assert(head[k] == p);
                let i = choose|i: int| 0 <= i < before.len() && before[i] == p;
                assert(all[i] == p);
            } else {
                assert(all[all.len() - 1] == p);
            }
        }
    }
}

/// The case of letters does not count for the order of paths, and paths that count the
/// same keep their order.
pub proof fn order_goes_by_the_key(paths: Seq<Seq<char>>, i: int, j: int)
    ensures
        lowercase(paths[i]) == lowercase(paths[j]) ==> path_key(paths[i]) == path_key(paths[j]),
        rank_key(path_key(paths[i]), path_key(paths[j])) == Rank::Before ==> goes_before(
            paths,
            i,
            j,
        ),
        rank_key(path_key(paths[i]), path_key(paths[j])) == Rank::After ==> !goes_before(
            paths,
            i,
            j,
        ),
        rank_key(path_key(paths[i]), path_key(paths[j])) == Rank::Same ==> (goes_before(
            paths,
            i,
            j,
        ) <==> i < j),
{
}

/// A sorted list holds the paths of the list, each as often as before, and none stands
/// before one that goes before it.
pub proof fn sorted_paths_are_in_order(paths: Seq<Seq<char>>, a: int, b: int)
    requires
        0 <= a < b < paths.len(),
    ensures
        naturally_sorted(paths).len() == paths.len(),
        rank_key(path_key(naturally_sorted(paths)[a]), path_key(naturally_sorted(paths)[b]))
            != Rank::After,
        natural_order(paths)[a] != natural_order(paths)[b],
        naturally_sorted(paths)[a] == paths[natural_order(paths)[a]],
        0 <= natural_order(paths)[a] < paths.len(),
{
    natural_order_exists(paths);
    let perm = natural_order(paths);
    assert(goes_before(paths, perm[a], perm[b]));
    assert(perm[a] != perm[b]);
}

/// The name of the layer has its mark in front of each extension of a JPEG file, and is
/// the name itself everywhere else.
pub proof fn layer_is_marked_before_the_extension(s: Seq<char>, i: int)
    requires
        0 <= i <= s.len(),
    ensures
        jpg_at(s, i) ==> layered(s, i) == "_layer.jpg"@ + layered(s, i + 4),
        i < s.len() && !jpg_at(s, i) ==> layered(s, i) == seq![s[i]] + layered(s, i + 1),
        (forall|k: int| i <= k < s.len() ==> !#[trigger] jpg_at(s, k)) ==> layered(s, i) == s.skip(
            i,
        ),
        jpg_at(s, i) <==> i + 4 <= s.len() && s.subrange(i, i + 4) == ".jpg"@,
    decreases s.len() - i,
{
    reveal_strlit(".jpg");
    if i + 4 <= s.len() {
        let sub = s.subrange(i, i + 4);
        if jpg_at(s, i) {
            assert(sub =~= ".jpg"@);
        } else if sub == ".jpg"@ {
            assert(sub[0] == s[i] && sub[1] == s[i + 1] && sub[2] == s[i + 2] && sub[3] == s[i
                + 3]);
        }
    }
    if i < s.len() {
        layer_is_marked_before_the_extension(s, i + 1);
        if forall|k: int| i <= k < s.len() ==> !#[trigger] jpg_at(s, k) {
            assert(!jpg_at(s, i));
            assert(layered(s, i) =~= s.skip(i));
        }
    } else {
        assert(layered(s, i) =~= s.skip(i));
    }
}

} // verus!
