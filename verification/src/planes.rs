//! Pictures of one channel, and the least and greatest values around each pixel.

use std::collections::VecDeque;
use vstd::prelude::*;

verus! {

/// A picture of one channel, line by line. The values are ordered as the brightnesses
/// that they stand for.
pub struct Plane {
    pub w: usize,
    pub h: usize,
    pub d: Vec<i32>,
}

/// `a` is as good as `b`: at least as great, or at least as small.
pub open spec fn beats(a: i32, b: i32, max: bool) -> bool {
    if max {
        a >= b
    } else {
        a <= b
    }
}

/// The first place of a window of radius `r` around `x`.
pub open spec fn window_from(x: int, r: int) -> int {
    if x < r {
        0
    } else {
        x - r
    }
}

/// The last place of a window of radius `r` around `x`, of `n` places in all.
pub open spec fn window_to(x: int, r: int, n: int) -> int {
    if x + r < n {
        x + r
    } else {
        n - 1
    }
}

/// `v` is the best of the values from place `lo` to place `hi`.
pub open spec fn is_best(row: Seq<i32>, lo: int, hi: int, v: i32, max: bool) -> bool {
    &&& exists|i: int| lo <= i <= hi && #[trigger] row[i] == v
    &&& forall|i: int| lo <= i <= hi ==> beats(v, #[trigger] row[i], max)
}

impl Plane {
    /// There is a value for each pixel.
    pub open spec fn wf(self) -> bool {
        self.d.len() == self.w * self.h
    }

    /// The value in column `x` of line `y`.
    pub open spec fn at(self, x: int, y: int) -> i32 {
        self.d[y * self.w + x]
    }

    /// Line `y`.
    pub open spec fn line(self, y: int) -> Seq<i32> {
        self.d@.subrange(y * self.w, y * self.w + self.w)
    }

    /// `v` is the best of the values in the columns from `x0` to `x1` of the lines from
    /// `y0` to `y1`.
    pub open spec fn best_in(
        self,
        x0: int,
        x1: int,
        y0: int,
        y1: int,
        v: i32,
        max: bool,
    ) -> bool {
        &&& exists|x: int, y: int| x0 <= x <= x1 && y0 <= y <= y1 && #[trigger] self.at(x, y) == v
        &&& forall|x: int, y: int|
            x0 <= x <= x1 && y0 <= y <= y1 ==> beats(v, #[trigger] self.at(x, y), max)
    }

    /// `out` holds, for each pixel, the best of the values around it up to a distance of
    /// `r` in each direction.
    pub open spec fn extremes(self, out: Plane, r: int, max: bool) -> bool {
        &&& out.w == self.w
        &&& out.h == self.h
        &&& out.wf()
        &&& forall|x: int, y: int|
            0 <= x < self.w && 0 <= y < self.h ==> self.best_in(
                window_from(x, r),
                window_to(x, r, self.w as int),
                window_from(y, r),
                window_to(y, r, self.h as int),
                #[trigger] out.at(x, y),
                max,
            )
    }
}

proof fn lemma_place(x: int, y: int, w: int, h: int)
    requires
        0 <= x < w,
        0 <= y < h,
    ensures
        0 <= y * w,
        y * w + w <= w * h,
        0 <= y * w + x < w * h,
{
    assert(0 <= y * w && y * w + w <= w * h) by (nonlinear_arith)
        requires
            0 <= x < w,
            0 <= y < h,
    ;
}

/// One of the places of the queue is not in front of place `i` and its value is as good.
pub open spec fn covered(row: Seq<i32>, queue: Seq<usize>, i: int, max: bool) -> bool {
    exists|k: int|
        0 <= k < queue.len() && (#[trigger] queue[k]) >= i && beats(
            row[queue[k] as int],
            row[i],
            max,
        )
}

/// The queue holds those of the places before `n` that can still be best for windows
/// that begin at `lo` or later: in order, each better than those behind it.
pub open spec fn is_queue(
    row: Seq<i32>,
    queue: Seq<usize>,
    lo: int,
    n: int,
    max: bool,
) -> bool {
    &&& forall|k: int| 0 <= k < queue.len() ==> (#[trigger] queue[k]) < n
    &&& forall|a: int, b: int|
        0 <= a < b < queue.len() ==> (#[trigger] queue[a]) < (#[trigger] queue[b]) && !beats(
            row[queue[b] as int],
            row[queue[a] as int],
            max,
        )
    &&& forall|i: int| lo <= i < n ==> #[trigger] covered(row, queue, i, max)
}

/// Takes place `n` into the queue: those at its end that are no better can no longer be
/// best.
fn push_place(row: &Vec<i32>, queue: &mut VecDeque<usize>, n: usize, max: bool, lo: Ghost<int>)
    requires
        n < row.len(),
        0 <= lo@,
        is_queue(row@, old(queue)@, lo@, n as int, max),
    ensures
        is_queue(row@, final(queue)@, lo@, n + 1, max),
{
    let v: i32 = row[n];
    loop
        invariant
            n < row.len(),
            0 <= lo@,
            v == row[n as int],
            forall|k: int| 0 <= k < queue@.len() ==> (#[trigger] queue@[k]) < n,
            forall|a: int, b: int|
                0 <= a < b < queue@.len() ==> (#[trigger] queue@[a]) < (#[trigger] queue@[b])
                    && !beats(row[queue@[b] as int], row[queue@[a] as int], max),
            forall|i: int|
                lo@ <= i < n ==> (#[trigger] covered(row@, queue@, i, max)) || beats(
                    v,
                    row[i],
                    max,
                ),
        ensures
            forall|k: int|
                0 <= k < queue@.len() ==> !beats(v, row[(#[trigger] queue@[k]) as int], max),
        decreases queue@.len(),
    {
        let len: usize = queue.len();
        if len == 0 {
            break;
        }
        let last: usize = queue[len - 1];
        let worse: bool = if max {
            row[last] <= v
        } else {
            row[last] >= v
        };
        if !worse {
            assert forall|k: int| 0 <= k < queue@.len() implies !beats(
                v,
                row[(#[trigger] queue@[k]) as int],
                max,
            ) by {
                if k < len - 1 {
                    assert(!beats(row[queue@[len - 1] as int], row[queue@[k] as int], max));
                }
            }
            break;
        }
        let ghost before = queue@;
        let _ = queue.pop_back();
        assert forall|i: int| lo@ <= i < n implies (#[trigger] covered(row@, queue@, i, max))
            || beats(v, row[i], max) by {
            if covered(row@, before, i, max) {
                let k = choose|k: int|
                    0 <= k < before.len() && (#[trigger] before[k]) >= i && beats(
                        row[before[k] as int],
                        row[i],
                        max,
                    );
                if k < queue@.len() {
                    assert(queue@[k] == before[k]);
                }
            } else {
                assert(covered(row@, before, i, max) || beats(v, row[i], max));
            }
        }
    }
    let ghost before = queue@;
    queue.push_back(n);
    assert forall|i: int| lo@ <= i < n + 1 implies #[trigger] covered(
        row@,
        queue@,
        i,
        max,
    ) by {
        if i < n && covered(row@, before, i, max) {
            let k = choose|k: int|
                0 <= k < before.len() && (#[trigger] before[k]) >= i && beats(
                    row[before[k] as int],
                    row[i],
                    max,
                );
            assert(queue@[k] == before[k]);
        } else {
            assert(queue@[before.len() as int] == n);
            if i < n {
                assert(covered(row@, before, i, max) || beats(v, row[i], max));
            }
        }
    }
}

/// Takes the places before `lo` out of the queue; what is in front is then the best from
/// `lo` on.
fn drop_places(row: &Vec<i32>, queue: &mut VecDeque<usize>, lo: usize, n: usize, max: bool) -> (r:
    i32)
    requires
        lo < n <= row.len(),
        is_queue(row@, old(queue)@, lo as int, n as int, max),
    ensures
        is_queue(row@, final(queue)@, lo as int, n as int, max),
        is_best(row@, lo as int, n - 1, r, max),
{
    loop
        invariant
            lo < n <= row.len(),
            is_queue(row@, queue@, lo as int, n as int, max),
        ensures
            is_queue(row@, queue@, lo as int, n as int, max),
            queue@.len() > 0,
            queue@[0] >= lo,
        decreases queue@.len(),
    {
        assert(covered(row@, queue@, lo as int, max));
        assert(queue@.len() > 0);
        let first: usize = queue[0];
        if first >= lo {
            break;
        }
        let ghost before = queue@;
        let _ = queue.pop_front();
        assert forall|k: int| 0 <= k < queue@.len() implies #[trigger] queue@[k] == before[k
            + 1] by {}
        assert forall|a: int, b: int| 0 <= a < b < queue@.len() implies (#[trigger] queue@[a]) < (
        #[trigger] queue@[b]) && !beats(
            row[queue@[b] as int],
            row[queue@[a] as int],
            max,
        ) by {
            assert(before[a + 1] < before[b + 1]);
        }
        assert forall|i: int| lo <= i < n implies #[trigger] covered(row@, queue@, i, max) by {
            assert(covered(row@, before, i, max));
            let k = choose|k: int|
                0 <= k < before.len() && (#[trigger] before[k]) >= i && beats(
                    row[before[k] as int],
                    row[i],
                    max,
                );
            assert(queue@[k - 1] == before[k]);
        }
    }
    let first: usize = queue[0];
    let r: i32 = row[first];
    assert(row@[first as int] == r);
    assert forall|i: int| lo <= i <= n - 1 implies beats(r, #[trigger] row@[i], max) by {
        assert(covered(row@, queue@, i, max));
        let k = choose|k: int|
            0 <= k < queue@.len() && (#[trigger] queue@[k]) >= i && beats(
                row[queue@[k] as int],
                row[i],
                max,
            );
        if k > 0 {
            assert(!beats(row[queue@[k] as int], row[queue@[0] as int], max));
        }
    }
    r
}

/// The best of the values around each place of a line.
fn extreme_row(row: &Vec<i32>, r: usize, max: bool) -> (out: Vec<i32>)
    ensures
        out.len() == row.len(),
        forall|x: int|
            0 <= x < row.len() ==> is_best(
                row@,
                window_from(x, r as int),
                window_to(x, r as int, row.len() as int),
                #[trigger] out[x],
                max,
            ),
{
    let w: usize = row.len();
    let mut out: Vec<i32> = Vec::new();
    let mut queue: VecDeque<usize> = VecDeque::new();
    let mut taken: usize = 0;
    let mut x: usize = 0;
    while x < w
        invariant
            x <= w,
            w == row.len(),
            out.len() == x,
            taken <= w,
            taken == if x == 0 {
                0
            } else {
                window_to(x - 1, r as int, w as int) + 1
            },
            is_queue(row@, queue@, window_from(x as int, r as int), taken as int, max),
            forall|k: int|
                0 <= k < x ==> is_best(
                    row@,
                    window_from(k, r as int),
                    window_to(k, r as int, w as int),
                    #[trigger] out[k],
                    max,
                ),
        decreases w - x,
    {
        let lo: usize = if x < r {
            0
        } else {
            x - r
        };
        let hi: usize = if r < w - x {
            x + r
        } else {
            w - 1
        };
        while taken <= hi
            invariant
                taken <= hi + 1,
                hi < w,
                w == row.len(),
                is_queue(row@, queue@, lo as int, taken as int, max),
            decreases hi + 1 - taken,
        {
            push_place(row, &mut queue, taken, max, Ghost(lo as int));
            taken += 1;
        }
        let best: i32 = drop_places(row, &mut queue, lo, taken, max);
        out.push(best);
        x += 1;
    }
    out
}

/// The best of the values around each pixel of each line.
fn extreme_1d_rows(p: &Plane, r: usize, max: bool) -> (out: Plane)
    requires
        p.wf(),
    ensures
        out.w == p.w,
        out.h == p.h,
        out.wf(),
        forall|x: int, y: int|
            0 <= x < p.w && 0 <= y < p.h ==> p.best_in(
                window_from(x, r as int),
                window_to(x, r as int, p.w as int),
                y,
                y,
                #[trigger] out.at(x, y),
                max,
            ),
{
    let mut d: Vec<i32> = Vec::new();
    let mut y: usize = 0;
    assert(0 * p.w == 0) by (nonlinear_arith);
    while y < p.h
        invariant
            y <= p.h,
            p.wf(),
            d.len() == y * p.w,
            forall|xx: int, yy: int|
                #![trigger d[yy * p.w + xx]]
                0 <= xx < p.w && 0 <= yy < y ==> p.best_in(
                    window_from(xx, r as int),
                    window_to(xx, r as int, p.w as int),
                    yy,
                    yy,
                    d[yy * p.w + xx],
                    max,
                ),
        decreases p.h - y,
    {
        let row = take_line(p, y);
        let best = extreme_row(&row, r, max);
        let ghost before = d@;
        push_all(&mut d, &best);
        assert((y + 1) * p.w == y * p.w + p.w) by (nonlinear_arith);
        assert forall|xx: int, yy: int|
            #![trigger d[yy * p.w + xx]]
            0 <= xx < p.w && 0 <= yy < y + 1 implies p.best_in(
            window_from(xx, r as int),
            window_to(xx, r as int, p.w as int),
            yy,
            yy,
            d[yy * p.w + xx],
            max,
        ) by {
            if yy < y {
                lemma_place(xx, yy, p.w as int, y as int);
                assert(p.w * y == y * p.w) by (nonlinear_arith);
                assert(d[yy * p.w + xx] == before[yy * p.w + xx]);
            } else {
                assert(d[yy * p.w + xx] == best[xx]);
                lemma_line_best(
                    *p,
                    row@,
                    y as int,
                    window_from(xx, r as int),
                    window_to(xx, r as int, p.w as int),
                    best[xx],
                    max,
                );
            }
        }
        y += 1;
    }
    assert(p.h * p.w == p.w * p.h) by (nonlinear_arith);
    let out = Plane { w: p.w, h: p.h, d };
    out
}

proof fn lemma_line_best(
    p: Plane,
    row: Seq<i32>,
    y: int,
    x0: int,
    x1: int,
    v: i32,
    max: bool,
)
    requires
        p.wf(),
        0 <= y < p.h,
        row == p.line(y),
        0 <= x0,
        x1 < p.w,
        is_best(row, x0, x1, v, max),
    ensures
        p.best_in(x0, x1, y, y, v, max),
{
    if p.w > 0 {
        lemma_place(0, y, p.w as int, p.h as int);
    }
    let i = choose|i: int| x0 <= i <= x1 && #[trigger] row[i] == v;
    assert(p.at(i, y) == row[i]);
    assert forall|x: int, yy: int| x0 <= x <= x1 && y <= yy <= y implies beats(
        v,
        #[trigger] p.at(x, yy),
        max,
    ) by {
        assert(p.at(x, yy) == row[x]);
    }
}

/// Line `y`.
fn take_line(p: &Plane, y: usize) -> (r: Vec<i32>)
    requires
        p.wf(),
        y < p.h,
    ensures
        r@ == p.line(y as int),
        r.len() == p.w,
{
    let mut r: Vec<i32> = Vec::new();
    let mut x: usize = 0;
    if p.w > 0 {
        proof {
            lemma_place(0, y as int, p.w as int, p.h as int);
        }
        let base: usize = y * p.w;
        while x < p.w
            invariant
                x <= p.w,
                y < p.h,
                p.wf(),
                base == y * p.w,
                base + p.w <= p.d.len(),
                r.len() == x,
                forall|k: int| 0 <= k < x ==> #[trigger] r[k] == p.d[base + k],
            decreases p.w - x,
        {
            r.push(p.d[base + x]);
            x += 1;
        }
        assert(r@ =~= p.line(y as int));
    } else {
        assert(y * p.w == 0) by (nonlinear_arith)
            requires
                p.w == 0,
        ;
        assert(r@ =~= p.line(y as int));
    }
    r
}

fn push_all(to: &mut Vec<i32>, from: &Vec<i32>)
    ensures
        final(to)@ == old(to)@ + from@,
{
    let ghost start = to@;
    let mut i: usize = 0;
    assert(start + from@.take(0) =~= start);
    while i < from.len()
        invariant
            i <= from.len(),
            to@ == start + from@.take(i as int),
        decreases from.len() - i,
    {
        to.push(from[i]);
        assert(start + from@.take(i + 1) =~= (start + from@.take(i as int)).push(from[i as int]));
        i += 1;
    }
    assert(from@.take(from.len() as int) =~= from@);
}

/// The picture with lines and columns exchanged.
fn transpose(p: &Plane) -> (out: Plane)
    requires
        p.wf(),
    ensures
        out.w == p.h,
        out.h == p.w,
        out.wf(),
        forall|x: int, y: int|
            0 <= x < p.h && 0 <= y < p.w ==> #[trigger] out.at(x, y) == p.at(y, x),
{
    let mut d: Vec<i32> = Vec::new();
    let mut y: usize = 0;
    assert(0 * p.h == 0) by (nonlinear_arith);
    while y < p.w
        invariant
            y <= p.w,
            p.wf(),
            d.len() == y * p.h,
            forall|xx: int, yy: int|
                #![trigger d[yy * p.h + xx]]
                0 <= xx < p.h && 0 <= yy < y ==> d[yy * p.h + xx] == p.at(yy, xx),
        decreases p.w - y,
    {
        let column = take_column(p, y);
        let ghost before = d@;
        push_all(&mut d, &column);
        assert((y + 1) * p.h == y * p.h + p.h) by (nonlinear_arith);
        assert forall|xx: int, yy: int|
            #![trigger d[yy * p.h + xx]]
            0 <= xx < p.h && 0 <= yy < y + 1 implies d[yy * p.h + xx] == p.at(yy, xx) by {
            if yy < y {
                lemma_place(xx, yy, p.h as int, y as int);
                assert(p.h * y == y * p.h) by (nonlinear_arith);
                assert(d[yy * p.h + xx] == before[yy * p.h + xx]);
            } else {
                assert(d[yy * p.h + xx] == column[xx]);
            }
        }
        y += 1;
    }
    assert(p.h * p.w == p.w * p.h) by (nonlinear_arith);
    Plane { w: p.h, h: p.w, d }
}

/// Column `x`.
fn take_column(p: &Plane, x: usize) -> (r: Vec<i32>)
    requires
        p.wf(),
        x < p.w,
    ensures
        r.len() == p.h,
        forall|y: int| 0 <= y < p.h ==> #[trigger] r[y] == p.at(x as int, y),
{
    let mut r: Vec<i32> = Vec::new();
    let mut y: usize = 0;
    while y < p.h
        invariant
            y <= p.h,
            p.wf(),
            x < p.w,
            r.len() == y,
            forall|k: int| 0 <= k < y ==> #[trigger] r[k] == p.at(x as int, k),
        decreases p.h - y,
    {
        proof {
            lemma_place(x as int, y as int, p.w as int, p.h as int);
        }
        r.push(p.d[y * p.w + x]);
        y += 1;
    }
    r
}

/// The best of the values around each pixel: first along the lines, then along the
/// columns.
fn extreme_filter(p: &Plane, r: usize, max: bool) -> (out: Plane)
    requires
        p.wf(),
    ensures
        p.extremes(out, r as int, max),
{
    let lines = extreme_1d_rows(p, r, max);
    let turned = transpose(&lines);
    let both = extreme_1d_rows(&turned, r, max);
    let out = transpose(&both);
    assert forall|x: int, y: int| 0 <= x < p.w && 0 <= y < p.h implies p.best_in(
        window_from(x, r as int),
        window_to(x, r as int, p.w as int),
        window_from(y, r as int),
        window_to(y, r as int, p.h as int),
        #[trigger] out.at(x, y),
        max,
    ) by {
        let v = out.at(x, y);
        assert(v == both.at(y, x));
        lemma_two_passes(*p, lines, turned, x, y, r as int, v, max);
    }
    out
}

proof fn lemma_two_passes(
    p: Plane,
    lines: Plane,
    turned: Plane,
    x: int,
    y: int,
    r: int,
    v: i32,
    max: bool,
)
    requires
        0 <= r,
        0 <= x < p.w,
        0 <= y < p.h,
        turned.w == p.h,
        turned.h == p.w,
        forall|a: int, b: int|
            0 <= a < p.w && 0 <= b < p.h ==> p.best_in(
                window_from(a, r),
                window_to(a, r, p.w as int),
                b,
                b,
                #[trigger] lines.at(a, b),
                max,
            ),
        forall|a: int, b: int|
            0 <= a < p.h && 0 <= b < p.w ==> #[trigger] turned.at(a, b) == lines.at(b, a),
        turned.best_in(
            window_from(y, r),
            window_to(y, r, p.h as int),
            x,
            x,
            v,
            max,
        ),
    ensures
        p.best_in(
            window_from(x, r),
            window_to(x, r, p.w as int),
            window_from(y, r),
            window_to(y, r, p.h as int),
            v,
            max,
        ),
{
    let x0 = window_from(x, r);
    let x1 = window_to(x, r, p.w as int);
    let y0 = window_from(y, r);
    let y1 = window_to(y, r, p.h as int);
    let (a, b) = choose|a: int, b: int|
        y0 <= a <= y1 && x <= b <= x && #[trigger] turned.at(a, b) == v;
    assert(turned.at(a, x) == lines.at(x, a));
    assert(p.best_in(x0, x1, a, a, lines.at(x, a), max));
    let (c, e) = choose|c: int, e: int|
        x0 <= c <= x1 && a <= e <= a && #[trigger] p.at(c, e) == lines.at(x, a);
    assert(p.at(c, a) == v);
    assert forall|xx: int, yy: int| x0 <= xx <= x1 && y0 <= yy <= y1 implies beats(
        v,
        #[trigger] p.at(xx, yy),
        max,
    ) by {
        assert(beats(v, turned.at(yy, x), max));
        assert(turned.at(yy, x) == lines.at(x, yy));
        assert(p.best_in(x0, x1, yy, yy, lines.at(x, yy), max));
        assert(beats(lines.at(x, yy), p.at(xx, yy), max));
    }
}

/// The least of the values around each pixel, up to a distance of `r`.
pub fn min_filter(p: &Plane, r: usize) -> (out: Plane)
    requires
        p.wf(),
    ensures
        p.extremes(out, r as int, false),
{
    extreme_filter(p, r, false)
}

/// The greatest of the values around each pixel, up to a distance of `r`.
pub fn max_filter(p: &Plane, r: usize) -> (out: Plane)
    requires
        p.wf(),
    ensures
        p.extremes(out, r as int, true),
{
    extreme_filter(p, r, true)
}

/// What the extremes around the pixels are is determined by the picture.
pub proof fn extremes_are_unique(p: Plane, a: Plane, b: Plane, r: int, max: bool, x: int, y: int)
    requires
        p.extremes(a, r, max),
        p.extremes(b, r, max),
        0 <= x < p.w,
        0 <= y < p.h,
    ensures
        a.at(x, y) == b.at(x, y),
{
    let x0 = window_from(x, r);
    let x1 = window_to(x, r, p.w as int);
    let y0 = window_from(y, r);
    let y1 = window_to(y, r, p.h as int);
    let va = a.at(x, y);
    let vb = b.at(x, y);
    assert(p.best_in(x0, x1, y0, y1, va, max));
    assert(p.best_in(x0, x1, y0, y1, vb, max));
    let (c, d) = choose|c: int, d: int|
        x0 <= c <= x1 && y0 <= d <= y1 && #[trigger] p.at(c, d) == va;
    let (e, f) = choose|e: int, f: int|
        x0 <= e <= x1 && y0 <= f <= y1 && #[trigger] p.at(e, f) == vb;
    assert(beats(va, p.at(e, f), max));
    assert(beats(vb, p.at(c, d), max));
}

/// The greatest values around the pixels are the least values of the picture with all
/// values negated, negated again; and each value lies between the least and the greatest
/// around it.
pub proof fn greatest_is_least_of_negated(
    p: Plane,
    negated: Plane,
    greatest: Plane,
    least: Plane,
    least_negated: Plane,
    r: int,
    x: int,
    y: int,
)
    requires
        0 <= r,
        negated.w == p.w,
        negated.h == p.h,
        forall|a: int, b: int|
            0 <= a < p.w && 0 <= b < p.h ==> #[trigger] negated.at(a, b) == -p.at(a, b),
        p.extremes(greatest, r, true),
        p.extremes(least, r, false),
        negated.extremes(least_negated, r, false),
        0 <= x < p.w,
        0 <= y < p.h,
    ensures
        greatest.at(x, y) == -least_negated.at(x, y),
        least.at(x, y) <= p.at(x, y) <= greatest.at(x, y),
{
    let x0 = window_from(x, r);
    let x1 = window_to(x, r, p.w as int);
    let y0 = window_from(y, r);
    let y1 = window_to(y, r, p.h as int);
    let high = greatest.at(x, y);
    let low = least_negated.at(x, y);
    assert(p.best_in(x0, x1, y0, y1, high, true));
    assert(p.best_in(x0, x1, y0, y1, least.at(x, y), false));
    assert(negated.best_in(x0, x1, y0, y1, low, false));
    assert(beats(high, p.at(x, y), true));
    assert(beats(least.at(x, y), p.at(x, y), false));
    let (c, d) = choose|c: int, d: int|
        x0 <= c <= x1 && y0 <= d <= y1 && #[trigger] p.at(c, d) == high;
    let (e, f) = choose|e: int, f: int|
        x0 <= e <= x1 && y0 <= f <= y1 && #[trigger] negated.at(e, f) == low;
    assert(beats(low, negated.at(c, d), false));
    assert(beats(high, p.at(e, f), true));
}

/// The opening of a picture, its least values and then the greatest of those, is nowhere
/// brighter than the picture.
pub proof fn opening_is_not_brighter(p: Plane, low: Plane, out: Plane, r: int, x: int, y: int)
    requires
        0 <= r,
        p.extremes(low, r, false),
        low.extremes(out, r, true),
        0 <= x < p.w,
        0 <= y < p.h,
    ensures
        out.at(x, y) <= p.at(x, y),
{
    let v = out.at(x, y);
    let x0 = window_from(x, r);
    let x1 = window_to(x, r, p.w as int);
    let y0 = window_from(y, r);
    let y1 = window_to(y, r, p.h as int);
    assert(low.best_in(x0, x1, y0, y1, v, true));
    let (a, b) = choose|a: int, b: int|
        x0 <= a <= x1 && y0 <= b <= y1 && #[trigger] low.at(a, b) == v;
    assert(p.best_in(
        window_from(a, r),
        window_to(a, r, p.w as int),
        window_from(b, r),
        window_to(b, r, p.h as int),
        low.at(a, b),
        false,
    ));
    assert(beats(low.at(a, b), p.at(x, y), false));
}

/// The block that place `x` of `n` belongs to, of `blocks` blocks in all.
pub open spec fn block_of(x: int, n: int, blocks: int) -> int {
    if x * blocks / n < blocks - 1 {
        x * blocks / n
    } else {
        blocks - 1
    }
}

/// A picture of one channel that is made smaller.
pub struct Shrinking {
    pub w: int,
    pub h: int,
    pub to_w: int,
    pub to_h: int,
}

impl Shrinking {
    /// The pixel in column `x` of line `y` belongs to the block in column `bx` of line
    /// `by`.
    pub open spec fn in_block(self, x: int, y: int, bx: int, by: int) -> bool {
        &&& 0 <= x < self.w
        &&& 0 <= y < self.h
        &&& block_of(x, self.w, self.to_w) == bx
        &&& block_of(y, self.h, self.to_h) == by
    }

    /// `v` is the least value of the pixels of the block that come before the one in
    /// column `nx` of line `ny`; 255 where there is none.
    pub open spec fn is_least(
        self,
        px: Seq<u8>,
        nx: int,
        ny: int,
        bx: int,
        by: int,
        v: u8,
    ) -> bool {
        &&& forall|x: int, y: int|
            #![trigger px[y * self.w + x]]
            self.in_block(x, y, bx, by) && (y < ny || (y == ny && x < nx)) ==> v <= px[y * self.w
                + x]
        &&& v == 255 || exists|x: int, y: int|
            #![trigger px[y * self.w + x]]
            self.in_block(x, y, bx, by) && (y < ny || (y == ny && x < nx)) && px[y * self.w + x]
                == v
    }
}

proof fn lemma_distinct_places(x: int, y: int, xx: int, yy: int, w: int)
    requires
        0 <= x < w,
        0 <= xx < w,
        y * w + x == yy * w + xx,
    ensures
        x == xx && y == yy,
{
    assert(y == yy) by (nonlinear_arith)
        requires
            0 <= x < w,
            0 <= xx < w,
            y * w + x == yy * w + xx,
    ;
}

fn block(x: usize, n: usize, blocks: usize) -> (r: usize)
    requires
        x < n,
        1 <= blocks,
        n * blocks <= usize::MAX,
    ensures
        r == block_of(x as int, n as int, blocks as int),
        r < blocks,
{
    assert(0 <= x * blocks <= n * blocks) by (nonlinear_arith)
        requires
            x < n,
            1 <= blocks,
    ;
    let b: usize = x * blocks / n;
    if b < blocks - 1 {
        b
    } else {
        blocks - 1
    }
}

/// Makes one channel of a picture of `w` by `h` pixels smaller, to `to_w` by `to_h`: each
/// block becomes its least value, so that thin bright lines vanish.
pub fn min_downsample(px: &Vec<u8>, w: usize, h: usize, to_w: usize, to_h: usize) -> (out: Vec<u8>)
    requires
        px.len() == w * h,
        1 <= to_w,
        1 <= to_h,
        w * to_w <= usize::MAX,
        h * to_h <= usize::MAX,
        to_w * to_h <= usize::MAX,
    ensures
        out.len() == to_w * to_h,
        forall|bx: int, by: int|
            #![trigger out[by * to_w + bx]]
            0 <= bx < to_w && 0 <= by < to_h ==> (Shrinking {
                w: w as int,
                h: h as int,
                to_w: to_w as int,
                to_h: to_h as int,
            }).is_least(px@, 0, h as int, bx, by, out[by * to_w + bx]),
{
    let ghost s = Shrinking {
        w: w as int,
        h: h as int,
        to_w: to_w as int,
        to_h: to_h as int,
    };
    assert(0 <= to_w * to_h) by (nonlinear_arith);
    let n: usize = to_w * to_h;
    let mut out: Vec<u8> = Vec::new();
    while out.len() < n
        invariant
            out.len() <= n,
            forall|k: int| 0 <= k < out.len() ==> out[k] == 255,
        decreases n - out.len(),
    {
        out.push(255);
    }
    assert forall|bx: int, by: int|
        #![trigger out[by * to_w + bx]]
        0 <= bx < to_w && 0 <= by < to_h implies s.is_least(
        px@,
        0,
        0,
        bx,
        by,
        out[by * to_w + bx],
    ) by {
        lemma_place(bx, by, to_w as int, to_h as int);
    }
    let mut y: usize = 0;
    while y < h
        invariant
            y <= h,
            n == to_w * to_h,
            out.len() == n,
            px.len() == w * h,
            1 <= to_w,
            1 <= to_h,
            w * to_w <= usize::MAX,
            h * to_h <= usize::MAX,
            s == (Shrinking {
                w: w as int,
                h: h as int,
                to_w: to_w as int,
                to_h: to_h as int,
            }),
            forall|bx: int, by: int|
                #![trigger out[by * to_w + bx]]
                0 <= bx < to_w && 0 <= by < to_h ==> s.is_least(
                    px@,
                    0,
                    y as int,
                    bx,
                    by,
                    out[by * to_w + bx],
                ),
        decreases h - y,
    {
        let by: usize = block(y, h, to_h);
        let mut x: usize = 0;
        while x < w
            invariant
                x <= w,
                y < h,
                n == to_w * to_h,
                out.len() == n,
                px.len() == w * h,
                1 <= to_w,
                1 <= to_h,
                w * to_w <= usize::MAX,
                by == block_of(y as int, h as int, to_h as int),
                by < to_h,
                s == (Shrinking {
                    w: w as int,
                    h: h as int,
                    to_w: to_w as int,
                    to_h: to_h as int,
                }),
                forall|bx: int, by: int|
                    #![trigger out[by * to_w + bx]]
                    0 <= bx < to_w && 0 <= by < to_h ==> s.is_least(
                        px@,
                        x as int,
                        y as int,
                        bx,
                        by,
                        out[by * to_w + bx],
                    ),
            decreases w - x,
        {
            let bx: usize = block(x, w, to_w);
            proof {
                lemma_place(x as int, y as int, w as int, h as int);
                lemma_place(bx as int, by as int, to_w as int, to_h as int);
            }
            let v: u8 = px[y * w + x];
            let k: usize = by * to_w + bx;
            let ghost before = out@;
            if v < out[k] {
                out.set(k, v);
            }
            assert forall|cx: int, cy: int|
                #![trigger out[cy * to_w + cx]]
                0 <= cx < to_w && 0 <= cy < to_h implies s.is_least(
                px@,
                x + 1,
                y as int,
                cx,
                cy,
                out[cy * to_w + cx],
            ) by {
                lemma_place(cx, cy, to_w as int, to_h as int);
                if cy * to_w + cx == k {
                    lemma_distinct_places(cx, cy, bx as int, by as int, to_w as int);
                }
                lemma_one_more_pixel(
                    s,
                    px@,
                    x as int,
                    y as int,
                    cx,
                    cy,
                    before[cy * to_w + cx],
                    out[cy * to_w + cx],
                );
            }
            x += 1;
        }
        assert forall|cx: int, cy: int|
            #![trigger out[cy * to_w + cx]]
            0 <= cx < to_w && 0 <= cy < to_h implies s.is_least(
            px@,
            0,
            y + 1,
            cx,
            cy,
            out[cy * to_w + cx],
        ) by {
            let v = out[cy * to_w + cx];
            assert(s.is_least(px@, w as int, y as int, cx, cy, v));
            if v != 255 {
                let (ax, ay) = choose|ax: int, ay: int|
                    #![trigger px@[ay * s.w + ax]]
                    s.in_block(ax, ay, cx, cy) && (ay < y || (ay == y && ax < w)) && px@[ay * s.w
                        + ax] == v;
                assert(px@[ay * s.w + ax] == v);
            }
        }
        y += 1;
    }
    out
}

proof fn lemma_one_more_pixel(
    s: Shrinking,
    px: Seq<u8>,
    x: int,
    y: int,
    bx: int,
    by: int,
    before: u8,
    after: u8,
)
    requires
        0 <= x < s.w,
        0 <= y < s.h,
        s.is_least(px, x, y, bx, by, before),
        s.in_block(x, y, bx, by) ==> after == (if px[y * s.w + x] < before {
            px[y * s.w + x]
        } else {
            before
        }),
        !s.in_block(x, y, bx, by) ==> after == before,
    ensures
        s.is_least(px, x + 1, y, bx, by, after),
{
    assert forall|ax: int, ay: int|
        #![trigger px[ay * s.w + ax]]
        s.in_block(ax, ay, bx, by) && (ay < y || (ay == y && ax < x + 1)) implies after <= px[ay
        * s.w + ax] by {
        if ay == y && ax == x {
        } else {
            assert(before <= px[ay * s.w + ax]);
        }
    }
    if after != 255 {
        if after == before {
            let (ax, ay) = choose|ax: int, ay: int|
                #![trigger px[ay * s.w + ax]]
                s.in_block(ax, ay, bx, by) && (ay < y || (ay == y && ax < x)) && px[ay * s.w + ax]
                    == before;
            assert(px[ay * s.w + ax] == after);
        } else {
            assert(px[y * s.w + x] == after);
        }
    }
}

} // verus!
