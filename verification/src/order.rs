//! Natural order of file paths: runs of digits count as numbers, so that `img2.jpg`
//! stands before `img10.jpg`.

use crate::text::{all_digits, digits_value, is_digit, lower, lowercase, number, texts, to_chars};
use vstd::prelude::*;

verus! {

/// One piece of a path: a run of digits, or a run of other characters.
#[derive(PartialEq, Eq, PartialOrd, Ord)]
pub enum NatPart {
    Num(u128),
    Text(String),
}

/// What a piece of a path stands for.
pub enum PartView {
    Num(nat),
    Text(Seq<char>),
}

impl View for NatPart {
    type V = PartView;

    open spec fn view(&self) -> PartView {
        match self {
            NatPart::Num(n) => PartView::Num(*n as nat),
            NatPart::Text(t) => PartView::Text(t@),
        }
    }
}

/// How two values stand to each other.
#[derive(Clone, Copy, PartialEq, Eq, Structural, Debug)]
pub enum Rank {
    Before,
    Same,
    After,
}

/// Characters are ranked by code point, texts by their first difference; a text stands
/// behind its own beginnings.
pub open spec fn rank_text(a: Seq<char>, b: Seq<char>) -> Rank
    decreases a.len(),
{
    if a.len() == 0 && b.len() == 0 {
        Rank::Same
    } else if a.len() == 0 {
        Rank::Before
    } else if b.len() == 0 {
        Rank::After
    } else if (a[0] as int) < (b[0] as int) {
        Rank::Before
    } else if (a[0] as int) > (b[0] as int) {
        Rank::After
    } else {
        rank_text(a.drop_first(), b.drop_first())
    }
}

/// Numbers stand before texts, and each kind among itself in its own order.
pub open spec fn rank_part(a: PartView, b: PartView) -> Rank {
    match (a, b) {
        (PartView::Num(m), PartView::Num(n)) => if m < n {
            Rank::Before
        } else if m == n {
            Rank::Same
        } else {
            Rank::After
        },
        (PartView::Num(_), PartView::Text(_)) => Rank::Before,
        (PartView::Text(_), PartView::Num(_)) => Rank::After,
        (PartView::Text(s), PartView::Text(t)) => rank_text(s, t),
    }
}

/// Keys are ranked by their first differing piece; a key stands behind its own
/// beginnings.
pub open spec fn rank_key(a: Seq<PartView>, b: Seq<PartView>) -> Rank
    decreases a.len(),
{
    if a.len() == 0 && b.len() == 0 {
        Rank::Same
    } else if a.len() == 0 {
        Rank::Before
    } else if b.len() == 0 {
        Rank::After
    } else if rank_part(a[0], b[0]) != Rank::Same {
        rank_part(a[0], b[0])
    } else {
        rank_key(a.drop_first(), b.drop_first())
    }
}

/// The maximal runs of digits and of other characters, from left to right.
pub open spec fn runs(s: Seq<char>) -> Seq<Seq<char>>
    decreases s.len(),
{
    if s.len() == 0 {
        seq![]
    } else {
        let head = runs(s.drop_last());
        if head.len() > 0 && is_digit(head.last().last()) == is_digit(s.last()) {
            head.drop_last().push(head.last().push(s.last()))
        } else {
            head.push(seq![s.last()])
        }
    }
}

/// A run of digits is the number that it writes down, or zero where that is above 128
/// bits; any other run is itself.
pub open spec fn part_of(run: Seq<char>, is_num: bool) -> PartView {
    if !is_num {
        PartView::Text(run)
    } else if all_digits(run) && number(run) <= u128::MAX {
        PartView::Num(number(run))
    } else {
        PartView::Num(0)
    }
}

/// The key by which a text is sorted.
pub open spec fn key_of(s: Seq<char>) -> Seq<PartView> {
    Seq::new(runs(s).len(), |i: int| part_of(runs(s)[i], is_digit(runs(s)[i].last())))
}

pub open spec fn parts_view(v: Seq<NatPart>) -> Seq<PartView> {
    Seq::new(v.len(), |i: int| v[i]@)
}

/// The key of one run.
pub fn flush_part(buf: &str, is_num: bool) -> (r: NatPart)
    ensures
        r@ == part_of(buf@, is_num),
{
    if is_num {
        let v = to_chars(buf);
        assert(v@.skip(0) =~= buf@);
        match digits_value(&v, 0, u128::MAX) {
            Some(n) => NatPart::Num(n),
            None => NatPart::Num(0),
        }
    } else {
        NatPart::Text(buf.to_owned())
    }
}

/// The key by which a text is sorted.
pub fn natural_key(s: &str) -> (r: Vec<NatPart>)
    ensures
        parts_view(r@) == key_of(s@),
{
    let v = to_chars(s);
    let mut parts: Vec<NatPart> = Vec::new();
    let mut buf: String = String::new();
    let mut is_num: bool = false;
    let mut i: usize = 0;
    let ghost mut done: Seq<Seq<char>> = seq![];
    assert(v@.take(0) =~= seq![]);
    assert(buf@ =~= seq![]);
    while i < v.len()
        invariant
            i <= v.len(),
            v@ == s@,
            runs(v@.take(i as int)) == (if buf@.len() > 0 { done.push(buf@) } else { done }),
            buf@.len() > 0 ==> is_digit(buf@.last()) == is_num,
            buf@.len() == 0 ==> i == 0,
            parts.len() == done.len(),
            forall|k: int|
                0 <= k < done.len() ==> (#[trigger] parts[k])@ == part_of(
                    done[k],
                    is_digit(done[k].last()),
                ),
        decreases v.len() - i,
    {
        let c: char = v[i];
        let d: bool = '0' <= c && c <= '9';
        let ghost head = runs(v@.take(i as int));
        let ghost before = buf@;
        assert(v@.take(i + 1).drop_last() =~= v@.take(i as int));
        if !buf.as_str().is_empty() && d != is_num {
            parts.push(flush_part(buf.as_str(), is_num));
            proof {
                done = done.push(buf@);
            }
            buf = String::new();
        }
        is_num = d;
        buf.push(c);
        i += 1;
        proof {
            if before.len() > 0 && is_digit(before.last()) == d {
                assert(head.drop_last() =~= done);
                assert(runs(v@.take(i as int)) =~= done.push(buf@));
            } else {
                assert(buf@ =~= seq![c]);
                assert(runs(v@.take(i as int)) =~= done.push(buf@));
            }
        }
    }
    assert(v@.take(v.len() as int) =~= s@);
    if !buf.as_str().is_empty() {
        parts.push(flush_part(buf.as_str(), is_num));
        proof {
            done = done.push(buf@);
        }
    }
    assert(parts_view(parts@) =~= key_of(s@));
    parts
}

/// How two texts rank.
pub fn compare_text(a: &str, b: &str) -> (r: Rank)
    ensures
        r == rank_text(a@, b@),
{
    let v = to_chars(a);
    let w = to_chars(b);
    let mut i: usize = 0;
    assert(v@.skip(0) =~= a@);
    assert(w@.skip(0) =~= b@);
    loop
        invariant
            i <= v.len(),
            i <= w.len(),
            v@ == a@,
            w@ == b@,
            rank_text(a@, b@) == rank_text(v@.skip(i as int), w@.skip(i as int)),
        decreases v.len() - i,
    {
        if i == v.len() {
            return if i == w.len() {
                Rank::Same
            } else {
                Rank::Before
            };
        }
        if i == w.len() {
            return Rank::After;
        }
        if v[i] < w[i] {
            return Rank::Before;
        }
        if w[i] < v[i] {
            return Rank::After;
        }
        assert(v@.skip(i as int).drop_first() =~= v@.skip(i + 1));
        assert(w@.skip(i as int).drop_first() =~= w@.skip(i + 1));
        i += 1;
    }
}

/// How two pieces rank.
pub fn compare_part(a: &NatPart, b: &NatPart) -> (r: Rank)
    ensures
        r == rank_part(a@, b@),
{
    match a {
        NatPart::Num(m) => match b {
            NatPart::Num(n) => if *m < *n {
                Rank::Before
            } else if *m == *n {
                Rank::Same
            } else {
                Rank::After
            },
            NatPart::Text(_) => Rank::Before,
        },
        NatPart::Text(s) => match b {
            NatPart::Num(_) => Rank::After,
            NatPart::Text(t) => compare_text(s.as_str(), t.as_str()),
        },
    }
}

/// How two keys rank.
pub fn compare_key(a: &Vec<NatPart>, b: &Vec<NatPart>) -> (r: Rank)
    ensures
        r == rank_key(parts_view(a@), parts_view(b@)),
{
    let mut i: usize = 0;
    let ghost x = parts_view(a@);
    let ghost y = parts_view(b@);
    assert(x.skip(0) =~= x);
    assert(y.skip(0) =~= y);
    loop
        invariant
            i <= a.len(),
            i <= b.len(),
            x == parts_view(a@),
            y == parts_view(b@),
            rank_key(x, y) == rank_key(x.skip(i as int), y.skip(i as int)),
        decreases a.len() - i,
    {
        if i == a.len() {
            return if i == b.len() {
                Rank::Same
            } else {
                Rank::Before
            };
        }
        if i == b.len() {
            return Rank::After;
        }
        let r = compare_part(&a[i], &b[i]);
        assert(x.skip(i as int)[0] == a[i as int]@);
        assert(y.skip(i as int)[0] == b[i as int]@);
        if r != Rank::Same {
            return r;
        }
        assert(x.skip(i as int).drop_first() =~= x.skip(i + 1));
        assert(y.skip(i as int).drop_first() =~= y.skip(i + 1));
        i += 1;
    }
}

/// The rank seen from the other side.
pub open spec fn flipped(r: Rank) -> Rank {
    match r {
        Rank::Before => Rank::After,
        Rank::Same => Rank::Same,
        Rank::After => Rank::Before,
    }
}

proof fn lemma_rank_text(a: Seq<char>, b: Seq<char>, c: Seq<char>)
    ensures
        rank_text(b, a) == flipped(rank_text(a, b)),
        rank_text(a, b) == Rank::Same <==> a == b,
        rank_text(a, b) != Rank::After && rank_text(b, c) != Rank::After ==> rank_text(a, c)
            != Rank::After,
    decreases a.len(),
{
    if a.len() > 0 && b.len() > 0 && a[0] == b[0] {
        let x = a.drop_first();
        let y = b.drop_first();
        lemma_rank_text(x, y, if c.len() > 0 { c.drop_first() } else { c });
        assert(a == b <==> x == y) by {
            assert(a =~= seq![a[0]] + x);
            assert(b =~= seq![b[0]] + y);
        }
    } else if a.len() == 0 && b.len() == 0 {
        assert(a =~= b);
    }
}

proof fn lemma_rank_part(a: PartView, b: PartView, c: PartView)
    ensures
        rank_part(b, a) == flipped(rank_part(a, b)),
        rank_part(a, b) == Rank::Same <==> a == b,
        rank_part(a, b) != Rank::After && rank_part(b, c) != Rank::After ==> rank_part(a, c)
            != Rank::After,
{
    match (a, b) {
        (PartView::Text(s), PartView::Text(t)) => {
            lemma_rank_text(s, t, match c {
                PartView::Text(u) => u,
                PartView::Num(_) => s,
            });
        },
        _ => {},
    }
}

/// Keys are totally ordered: the rank flips with its arguments, equal rank means equal
/// keys, and what stands before or level stays so along a chain.
pub proof fn key_order_is_total(a: Seq<PartView>, b: Seq<PartView>, c: Seq<PartView>)
    ensures
        rank_key(b, a) == flipped(rank_key(a, b)),
        rank_key(a, b) == Rank::Same <==> a == b,
        rank_key(a, b) != Rank::After && rank_key(b, c) != Rank::After ==> rank_key(a, c)
            != Rank::After,
    decreases a.len(),
{
    if a.len() > 0 && b.len() > 0 {
        lemma_rank_part(a[0], b[0], if c.len() > 0 { c[0] } else { a[0] });
        if c.len() > 0 {
            lemma_rank_part(b[0], c[0], a[0]);
            lemma_rank_part(a[0], c[0], b[0]);
            lemma_rank_part(c[0], b[0], a[0]);
            lemma_rank_part(c[0], a[0], b[0]);
        }
        let x = a.drop_first();
        let y = b.drop_first();
        key_order_is_total(x, y, if c.len() > 0 { c.drop_first() } else { c });
        assert(a == b <==> a[0] == b[0] && x == y) by {
            assert(a =~= seq![a[0]] + x);
            assert(b =~= seq![b[0]] + y);
        }
    } else if a.len() == 0 && b.len() == 0 {
        assert(a =~= b);
    }
}

/// The key of a path; the case of letters does not count.
pub open spec fn path_key(p: Seq<char>) -> Seq<PartView> {
    key_of(lowercase(p))
}

/// Whether the path at `i` belongs before the path at `j`: by key, and among equal keys
/// by the place where it stood.
pub open spec fn goes_before(paths: Seq<Seq<char>>, i: int, j: int) -> bool {
    match rank_key(path_key(paths[i]), path_key(paths[j])) {
        Rank::Before => true,
        Rank::Same => i < j,
        Rank::After => false,
    }
}

/// `perm` lists each place of a list of length `n` once.
pub open spec fn is_permutation(perm: Seq<int>, n: nat) -> bool {
    &&& perm.len() == n
    &&& forall|k: int| 0 <= k < n ==> 0 <= #[trigger] perm[k] < n
    &&& forall|a: int, b: int| 0 <= a < b < n ==> perm[a] != perm[b]
}

/// `perm` lists the places of `paths` in natural order.
pub open spec fn is_natural_order(paths: Seq<Seq<char>>, perm: Seq<int>) -> bool {
    &&& is_permutation(perm, paths.len())
    &&& forall|a: int, b: int|
        0 <= a < b < perm.len() ==> goes_before(paths, #[trigger] perm[a], #[trigger] perm[b])
}

/// The places of `paths` in natural order.
pub open spec fn natural_order(paths: Seq<Seq<char>>) -> Seq<int> {
    choose|perm: Seq<int>| is_natural_order(paths, perm)
}

/// `paths` in natural order.
pub open spec fn naturally_sorted(paths: Seq<Seq<char>>) -> Seq<Seq<char>> {
    Seq::new(paths.len(), |k: int| paths[natural_order(paths)[k]])
}

/// Every place occurs in a permutation.
pub(crate) proof fn permutation_hits(perm: Seq<int>, n: nat, x: int) -> (k: int)
    requires
        is_permutation(perm, n),
        0 <= x < n,
    ensures
        0 <= k < n,
        perm[k] == x,
{
    let s = perm.to_set();
    let full = vstd::set_lib::set_int_range(0, n as int);
    vstd::set_lib::lemma_int_range(0, n as int);
    assert(perm.no_duplicates());
    perm.unique_seq_to_set();
    assert(s.subset_of(full));
    vstd::set_lib::lemma_subset_equality(s, full);
    assert(s.contains(x));
    choose|k: int| 0 <= k < n && perm[k] == x
}

/// There is no second natural order of the same paths.
pub proof fn natural_order_is_unique(paths: Seq<Seq<char>>, p: Seq<int>, q: Seq<int>)
    requires
        is_natural_order(paths, p),
        is_natural_order(paths, q),
    ensures
        p == q,
{
    assert forall|k: int| 0 <= k < p.len() implies p[k] == q[k] by {
        lemma_same_prefix(paths, p, q, k + 1);
    }
    assert(p =~= q);
}

proof fn lemma_same_prefix(paths: Seq<Seq<char>>, p: Seq<int>, q: Seq<int>, k: int)
    requires
        is_natural_order(paths, p),
        is_natural_order(paths, q),
        0 <= k <= p.len(),
    ensures
        forall|i: int| 0 <= i < k ==> p[i] == q[i],
    decreases k,
{
    if k > 0 {
        lemma_same_prefix(paths, p, q, k - 1);
        let x = p[k - 1];
        let y = q[k - 1];
        if x != y {
            let m = permutation_hits(q, paths.len(), x);
            let l = permutation_hits(p, paths.len(), y);
            assert(m >= k) by {
                if m < k - 1 {
                    assert(p[m] == q[m]);
                    assert(p[m] != p[k - 1]);
                }
            }
            assert(l >= k) by {
                if l < k - 1 {
                    assert(q[l] == p[l]);
                    assert(q[l] != q[k - 1]);
                }
            }
            assert(goes_before(paths, p[k - 1], p[l]));
            assert(goes_before(paths, q[k - 1], q[m]));
            key_order_is_total(path_key(paths[x]), path_key(paths[y]), path_key(paths[x]));
        }
    }
}

/// Every list of paths has a natural order.
pub proof fn natural_order_exists(paths: Seq<Seq<char>>)
    ensures
        is_natural_order(paths, natural_order(paths)),
{
    broadcast use vstd::multiset::group_multiset_axioms;
    let leq = |i: int, j: int| i == j || goes_before(paths, i, j);
    assert forall|i: int, j: int| #[trigger] leq(i, j) && #[trigger] leq(j, i) implies i == j by {
        if i != j {
            lemma_goes_before_chain(paths, i, j, i);
        }
    }
    assert forall|i: int, j: int, k: int| #[trigger] leq(i, j) && #[trigger] leq(j, k) implies leq(
        i,
        k,
    ) by {
        if i != j && j != k {
            lemma_goes_before_chain(paths, i, j, k);
        }
    }
    assert forall|i: int, j: int| #[trigger] leq(i, j) || #[trigger] leq(j, i) by {
        key_order_is_total(path_key(paths[i]), path_key(paths[j]), path_key(paths[i]));
    }
    let id = Seq::new(paths.len(), |k: int| k);
    let perm = id.sort_by(leq);
    id.lemma_sort_by_ensures(leq);
    id.lemma_multiset_has_no_duplicates();
    perm.lemma_multiset_has_no_duplicates_conv();
    id.to_multiset_ensures();
    perm.to_multiset_ensures();
    assert forall|k: int| 0 <= k < perm.len() implies 0 <= #[trigger] perm[k] < paths.len() by {
        assert(perm.contains(perm[k]));
        assert(id.contains(perm[k]));
    }
    assert forall|a: int, b: int| 0 <= a < b < perm.len() implies goes_before(
        paths,
        #[trigger] perm[a],
        #[trigger] perm[b],
    ) by {
        assert(leq(perm[a], perm[b]));
    }
    assert(is_natural_order(paths, perm));
}

/// A list that is already in natural order stays as it is.
pub proof fn sorting_twice_changes_nothing(paths: Seq<Seq<char>>)
    ensures
        naturally_sorted(naturally_sorted(paths)) == naturally_sorted(paths),
{
    natural_order_exists(paths);
    let s = naturally_sorted(paths);
    let perm = natural_order(paths);
    let id = Seq::new(paths.len(), |k: int| k);
    assert forall|a: int, b: int| 0 <= a < b < id.len() implies goes_before(
        s,
        #[trigger] id[a],
        #[trigger] id[b],
    ) by {
        assert(goes_before(paths, perm[a], perm[b]));
    }
    assert(is_natural_order(s, id));
    natural_order_is_unique(s, id, natural_order(s));
    assert(naturally_sorted(s) =~= s);
}

/// `order` lists each place from `lo` up to `hi` once, in natural order.
spec fn orders_range(paths: Seq<Seq<char>>, order: Seq<usize>, lo: int, hi: int) -> bool {
    &&& order.len() == hi - lo
    &&& forall|k: int| 0 <= k < order.len() ==> lo <= #[trigger] order[k] < hi
    &&& forall|a: int, b: int|
        0 <= a < b < order.len() ==> goes_before(
            paths,
            #[trigger] order[a] as int,
            #[trigger] order[b] as int,
        )
}

/// `keys` holds the key of each path.
spec fn keys_of(paths: Seq<Seq<char>>, keys: Seq<Vec<NatPart>>) -> bool {
    &&& keys.len() == paths.len()
    &&& forall|i: int|
        0 <= i < paths.len() ==> parts_view((#[trigger] keys[i])@) == path_key(paths[i])
}

proof fn lemma_goes_before_chain(paths: Seq<Seq<char>>, i: int, j: int, k: int)
    requires
        goes_before(paths, i, j),
        goes_before(paths, j, k),
    ensures
        goes_before(paths, i, k),
        !goes_before(paths, j, i),
{
    let (a, b, c) = (path_key(paths[i]), path_key(paths[j]), path_key(paths[k]));
    key_order_is_total(a, b, c);
    key_order_is_total(c, b, a);
    key_order_is_total(b, c, a);
    key_order_is_total(a, c, b);
}

/// The places from `lo` up to `hi` in natural order.
fn order_range(
    keys: &Vec<Vec<NatPart>>,
    Ghost(paths): Ghost<Seq<Seq<char>>>,
    lo: usize,
    hi: usize,
) -> (r: Vec<usize>)
    requires
        lo <= hi <= keys.len(),
        keys_of(paths, keys@),
    ensures
        orders_range(paths, r@, lo as int, hi as int),
    decreases hi - lo,
{
    let mut r: Vec<usize> = Vec::new();
    if hi - lo == 0 {
        return r;
    }
    if hi - lo == 1 {
        r.push(lo);
        return r;
    }
    let mid: usize = lo + (hi - lo) / 2;
    let left = order_range(keys, Ghost(paths), lo, mid);
    let right = order_range(keys, Ghost(paths), mid, hi);
    let mut i: usize = 0;
    let mut j: usize = 0;
    while i < left.len() || j < right.len()
        invariant
            i <= left.len(),
            j <= right.len(),
            lo <= mid <= hi <= keys.len(),
            keys_of(paths, keys@),
            orders_range(paths, left@, lo as int, mid as int),
            orders_range(paths, right@, mid as int, hi as int),
            r.len() == i + j,
            forall|k: int| 0 <= k < r.len() ==> lo <= #[trigger] r[k] < hi,
            forall|a: int, b: int|
                0 <= a < b < r.len() ==> goes_before(
                    paths,
                    #[trigger] r[a] as int,
                    #[trigger] r[b] as int,
                ),
            forall|a: int, b: int|
                0 <= a < r.len() && i <= b < left.len() ==> goes_before(
                    paths,
                    #[trigger] r[a] as int,
                    #[trigger] left[b] as int,
                ),
            forall|a: int, b: int|
                0 <= a < r.len() && j <= b < right.len() ==> goes_before(
                    paths,
                    #[trigger] r[a] as int,
                    #[trigger] right[b] as int,
                ),
        decreases left.len() - i + right.len() - j,
    {
        let take_left: bool = if j == right.len() {
            true
        } else if i == left.len() {
            false
        } else {
            compare_key(&keys[left[i]], &keys[right[j]]) != Rank::After
        };
        let ghost before = r@;
        if take_left {
            let x = left[i];
            proof {
                if j < right.len() {
                    assert(goes_before(paths, x as int, right[j as int] as int));
                }
                assert forall|b: int| j <= b < right.len() implies goes_before(
                    paths,
                    x as int,
                    #[trigger] right[b] as int,
                ) by {
                    if b > j {
                        assert(goes_before(paths, right[j as int] as int, right[b] as int));
                        lemma_goes_before_chain(
                            paths,
                            x as int,
                            right[j as int] as int,
                            right[b] as int,
                        );
                    }
                }
            }
            r.push(x);
            i += 1;
        } else {
            let x = right[j];
            proof {
                if i < left.len() {
                    key_order_is_total(
                        path_key(paths[left[i as int] as int]),
                        path_key(paths[x as int]),
                        path_key(paths[x as int]),
                    );
                    assert(goes_before(paths, x as int, left[i as int] as int));
                }
                assert forall|b: int| i <= b < left.len() implies goes_before(
                    paths,
                    x as int,
                    #[trigger] left[b] as int,
                ) by {
                    if b > i {
                        assert(goes_before(paths, left[i as int] as int, left[b] as int));
                        lemma_goes_before_chain(
                            paths,
                            x as int,
                            left[i as int] as int,
                            left[b] as int,
                        );
                    }
                }
            }
            r.push(x);
            j += 1;
        }
        assert(forall|k: int| 0 <= k < before.len() ==> #[trigger] r[k] == before[k]);
    }
    r
}

/// The places of `paths` in natural order.
pub fn order_naturally(paths: &Vec<String>) -> (r: Vec<usize>)
    ensures
        r.len() == paths.len(),
        forall|k: int| 0 <= k < r.len() ==> #[trigger] r[k] == natural_order(texts(paths@))[k],
{
    let ghost t = texts(paths@);
    let mut keys: Vec<Vec<NatPart>> = Vec::new();
    let mut i: usize = 0;
    while i < paths.len()
        invariant
            i <= paths.len(),
            keys.len() == i,
            t == texts(paths@),
            forall|k: int| 0 <= k < i ==> parts_view((#[trigger] keys[k])@) == path_key(t[k]),
        decreases paths.len() - i,
    {
        let low = lower(paths[i].as_str());
        keys.push(natural_key(low.as_str()));
        i += 1;
    }
    let r = order_range(&keys, Ghost(t), 0, paths.len());
    proof {
        let perm = Seq::new(r.len() as nat, |k: int| r[k] as int);
        assert forall|a: int, b: int| 0 <= a < b < perm.len() implies goes_before(
            t,
            #[trigger] perm[a],
            #[trigger] perm[b],
        ) && perm[a] != perm[b] by {
            assert(goes_before(t, r[a] as int, r[b] as int));
            key_order_is_total(path_key(t[r[a] as int]), path_key(t[r[a] as int]), path_key(t[r[a] as int]));
        }
        assert forall|k: int| 0 <= k < perm.len() implies 0 <= #[trigger] perm[k] < t.len() by {
            assert(r[k] < t.len());
        }
        assert(is_natural_order(t, perm));
        natural_order_is_unique(t, perm, natural_order(t));
    }
    r
}

/// Puts paths in natural order. Paths with equal keys keep their order.
pub fn natural_sort(paths: &mut Vec<String>)
    ensures
        texts(final(paths)@) == naturally_sorted(texts(old(paths)@)),
{
    let r = order_naturally(paths);
    let ghost t = texts(paths@);
    proof {
        natural_order_exists(t);
    }
    let mut out: Vec<String> = Vec::new();
    let mut i: usize = 0;
    while i < r.len()
        invariant
            i <= r.len() == paths.len(),
            t == texts(paths@),
            out.len() == i,
            is_natural_order(t, natural_order(t)),
            forall|k: int| 0 <= k < r.len() ==> #[trigger] r[k] == natural_order(t)[k],
            forall|k: int| 0 <= k < i ==> (#[trigger] out[k])@ == naturally_sorted(t)[k],
        decreases r.len() - i,
    {
        assert(r[i as int] == natural_order(t)[i as int]);
        out.push(paths[r[i]].clone());
        i += 1;
    }
    assert(texts(out@) =~= naturally_sorted(t));
    *paths = out;
}

proof fn lemma_runs_end(s: Seq<char>)
    requires
        s.len() > 0,
    ensures
        runs(s).len() > 0,
        runs(s).last().len() > 0,
        runs(s).last().last() == s.last(),
{
}

/// The runs of two texts beside each other, where no run goes across.
proof fn lemma_runs_of_both(a: Seq<char>, b: Seq<char>)
    requires
        a.len() > 0 && b.len() > 0 ==> is_digit(a.last()) != is_digit(b[0]),
    ensures
        runs(a + b) == runs(a) + runs(b),
    decreases b.len(),
{
    if b.len() == 0 {
        assert(a + b =~= a);
        assert(runs(a) + runs(b) =~= runs(a));
    } else if a.len() == 0 {
        assert(a + b =~= b);
        assert(runs(a) + runs(b) =~= runs(b));
    } else {
        let rest = b.drop_last();
        assert((a + b).drop_last() =~= a + rest);
        assert((a + b).last() == b.last());
        lemma_runs_of_both(a, rest);
        lemma_runs_end(a);
        let head = runs(a + rest);
        if rest.len() == 0 {
            assert(runs(rest) =~= seq![]);
            assert(head =~= runs(a));
            assert(b.last() == b[0]);
            assert(runs(b) =~= seq![seq![b.last()]]);
        } else {
            lemma_runs_end(rest);
            assert(head.last() == runs(rest).last());
            assert(head.drop_last() =~= runs(a) + runs(rest).drop_last());
        }
        assert(runs(a + b) =~= runs(a) + runs(b));
    }
}

proof fn lemma_runs_of_digits(s: Seq<char>)
    requires
        all_digits(s),
    ensures
        runs(s) == seq![s],
    decreases s.len(),
{
    let head = s.drop_last();
    assert(is_digit(s[s.len() - 1]));
    if head.len() == 0 {
        assert(runs(head) =~= seq![]);
        assert(s =~= seq![s.last()]);
        assert(runs(s) =~= seq![s]);
    } else {
        assert forall|i: int| 0 <= i < head.len() implies is_digit(#[trigger] head[i]) by {
            assert(head[i] == s[i]);
        }
        lemma_runs_of_digits(head);
        assert(is_digit(head[head.len() - 1]));
        assert(head.push(s.last()) =~= s);
        assert(runs(s) =~= seq![s]);
    }
}

proof fn lemma_common_start(p: Seq<PartView>, x: Seq<PartView>, y: Seq<PartView>)
    ensures
        rank_key(p + x, p + y) == rank_key(x, y),
    decreases p.len(),
{
    if p.len() == 0 {
        assert(p + x =~= x);
        assert(p + y =~= y);
    } else {
        assert((p + x).drop_first() =~= p.drop_first() + x);
        assert((p + y).drop_first() =~= p.drop_first() + y);
        lemma_common_start(p.drop_first(), x, y);
        match p[0] {
            PartView::Text(t) => {
                lemma_rank_text(t, t, t);
            },
            PartView::Num(_) => {},
        }
    }
}

proof fn lemma_key_with_number(front: Seq<char>, digits: Seq<char>, back: Seq<char>)
    requires
        all_digits(digits),
        number(digits) <= u128::MAX,
        front.len() > 0 ==> !is_digit(front.last()),
        back.len() > 0 ==> !is_digit(back[0]),
    ensures
        key_of(front + digits + back) == key_of(front) + (seq![PartView::Num(number(digits))]
            + key_of(back)),
{
    assert(is_digit(digits[0]) && is_digit(digits[digits.len() - 1]));
    lemma_runs_of_digits(digits);
    lemma_runs_of_both(front, digits);
    assert((front + digits).last() == digits.last());
    lemma_runs_of_both(front + digits, back);
    assert(runs(front + digits + back) =~= runs(front) + (seq![digits] + runs(back)));
    assert(key_of(front + digits + back) =~= key_of(front) + (seq![
        PartView::Num(number(digits)),
    ] + key_of(back)));
}

/// Of two texts that begin alike and go on with different numbers, the one with the
/// smaller number stands first, however many digits the numbers have and whatever
/// follows.
pub proof fn smaller_number_stands_first(
    front: Seq<char>,
    a: Seq<char>,
    b: Seq<char>,
    back_a: Seq<char>,
    back_b: Seq<char>,
)
    requires
        all_digits(a),
        all_digits(b),
        number(a) < number(b) <= u128::MAX,
        front.len() > 0 ==> !is_digit(front.last()),
        back_a.len() > 0 ==> !is_digit(back_a[0]),
        back_b.len() > 0 ==> !is_digit(back_b[0]),
    ensures
        rank_key(key_of(front + a + back_a), key_of(front + b + back_b)) == Rank::Before,
{
    lemma_key_with_number(front, a, back_a);
    lemma_key_with_number(front, b, back_b);
    let x = seq![PartView::Num(number(a))] + key_of(back_a);
    let y = seq![PartView::Num(number(b))] + key_of(back_b);
    lemma_common_start(key_of(front), x, y);
    assert(rank_part(x[0], y[0]) == Rank::Before);
}

} // verus!
