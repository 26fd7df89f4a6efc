//! The size of the preview.

use crate::options::Resolution;
use vstd::prelude::*;

verus! {

/// The longer side of the preview.
pub const LONG_SIDE: u64 = 960;

/// `n / d` as a whole number: the nearest one, and of two the even one.
pub open spec fn nearest_even(n: nat, d: nat) -> nat {
    let q = n / d;
    let r = n % d;
    if 2 * r < d || (2 * r == d && q % 2 == 0) {
        q
    } else {
        q + 1
    }
}

/// The least power of two, times `k`, that makes `n` at least as large as the digits of
/// double precision ask for when it is divided by `d`.
pub open spec fn grown(n: nat, d: nat, k: nat) -> nat
    decreases 0x20_0000_0000_0000 * d - n,
{
    if n == 0 || n >= 0x10_0000_0000_0000 * d {
        k
    } else {
        grown(2 * n, d, 2 * k)
    }
}

/// The least power of two, times `j`, that leaves of `n` no more digits than double
/// precision has when `n` is divided by it.
pub open spec fn shrunk(n: nat, j: nat) -> nat
    decreases n - j,
{
    if j == 0 || n < 0x20_0000_0000_0000 * j {
        j
    } else {
        shrunk(n, 2 * j)
    }
}

/// The digits of `960 / m` in double precision; they count `k` to one.
pub open spec fn ratio_digits(m: nat, k: nat) -> nat {
    nearest_even(LONG_SIDE as nat * k, m)
}

/// The product of `a` and a number with these digits, in double precision, counted as
/// they are.
pub open spec fn product(a: nat, digits: nat) -> nat {
    let j = shrunk(a * digits, 1);
    nearest_even(a * digits, j) * j
}

/// A side of `a` when the longer side of `m` becomes 960, in double precision: the
/// nearest even number, and at least 2.
pub open spec fn side(a: nat, m: nat) -> nat {
    let k = grown(LONG_SIDE as nat, m, 1);
    let half = (product(a, ratio_digits(m, k)) + k) / (2 * k);
    if half == 0 {
        2
    } else {
        2 * half
    }
}

/// The size of the preview of a video; of one without any size it is 2 by 2.
pub open spec fn canvas(res: Resolution) -> (nat, nat) {
    let m = if res.w < res.h {
        res.h as nat
    } else {
        res.w as nat
    };
    if m == 0 {
        (2, 2)
    } else {
        (side(res.w as nat, m), side(res.h as nat, m))
    }
}

fn nearest(n: u128, d: u128) -> (r: u128)
    requires
        0 < d < 0x8000_0000_0000_0000_0000_0000_0000_0000,
        n < 0x8000_0000_0000_0000_0000_0000_0000_0000,
    ensures
        r == nearest_even(n as nat, d as nat),
{
    let q: u128 = n / d;
    let rest: u128 = n % d;
    assert(q <= n) by (nonlinear_arith)
        requires
            d > 0,
            q == n / d,
    ;
    if 2 * rest < d || (2 * rest == d && q % 2 == 0) {
        q
    } else {
        q + 1
    }
}

/// `k` and the digits of `960 / m`.
fn ratio(m: u64) -> (r: (u128, u128))
    requires
        1 <= m <= 0xFFFF_FFFF,
    ensures
        r.0 == grown(LONG_SIDE as nat, m as nat, 1),
        r.1 == ratio_digits(m as nat, r.0 as nat),
        is_scale(m as int, r.0 as int),
{
    let goal: u128 = 0x10_0000_0000_0000 * (m as u128);
    let mut n: u128 = 960;
    let mut k: u128 = 1;
    while n < goal
        invariant
            1 <= m <= 0xFFFF_FFFF,
            goal == 0x10_0000_0000_0000 * m,
            n == 960 * k,
            1 <= k,
            k == 1 || n < 2 * goal,
            grown(960, m as nat, 1) == grown(n as nat, m as nat, k as nat),
        decreases 2 * goal - n,
    {
        n = 2 * n;
        k = 2 * k;
    }
    (k, nearest(n, m as u128))
}

/// `k` is the scale of the digits of `960 / m`.
spec fn is_scale(m: int, k: int) -> bool {
    &&& 1 <= k
    &&& 0x10_0000_0000_0000 * m <= 960 * k < 0x20_0000_0000_0000 * m
}

proof fn lemma_nearest(n: nat, d: nat)
    requires
        d > 0,
    ensures
        2 * n - d <= 2 * (nearest_even(n, d) * d) <= 2 * n + d,
{
    let q = n / d;
    let r = n % d;
    assert(n == q * d + r && 0 <= r < d) by (nonlinear_arith)
        requires
            d > 0,
            q == n / d,
            r == n % d,
    ;
    assert((q + 1) * d == q * d + d) by (nonlinear_arith);
}

proof fn lemma_shrunk(n: nat, j: nat)
    requires
        1 <= j,
        j == 1 || n >= 0x10_0000_0000_0000 * j,
    ensures
        1 <= shrunk(n, j),
        n < 0x20_0000_0000_0000 * shrunk(n, j),
        shrunk(n, j) == 1 || n >= 0x10_0000_0000_0000 * shrunk(n, j),
    decreases n - j,
{
    if n >= 0x20_0000_0000_0000 * j {
        lemma_shrunk(n, 2 * j);
    }
}

/// The half of a side is within bounds, and that of the longer side is 480.
proof fn lemma_half(a: nat, m: nat, k: nat)
    requires
        a <= m <= 0xFFFF_FFFF,
        1 <= m,
        is_scale(m as int, k as int),
    ensures
        ({
            let s = ratio_digits(m, k);
            &&& a * s < 0x100_0000_0000_0000_0000_0000
            &&& product(a, s) < 961 * k
            &&& (product(a, s) + k) / (2 * k) <= 480
            &&& a == m ==> (product(a, s) + k) / (2 * k) == 480
        }),
{
    let s = ratio_digits(m, k);
    lemma_nearest(960 * k, m);
    assert(m * s == s * m) by (nonlinear_arith);
    assert(a * s <= m * s) by (nonlinear_arith)
        requires
            a <= m,
    ;
    let n = a * s;
    let j = shrunk(n, 1);
    lemma_shrunk(n, 1);
    lemma_nearest(n, j);
    let p = product(a, s);
    assert(2 * n - j <= 2 * p <= 2 * n + j);
    assert(p < 961 * k);
    assert((p + k) / (2 * k) <= 480) by (nonlinear_arith)
        requires
            p < 961 * k - k / 1000000,
            1 <= k,
    ;
    if a == m {
        assert((p + k) / (2 * k) >= 480) by (nonlinear_arith)
            requires
                p + k >= 960 * k,
                1 <= k,
        ;
    }
}

fn exec_side(a: u64, k: u128, digits: u128, m: Ghost<nat>) -> (r: u32)
    requires
        a <= m@ <= 0xFFFF_FFFF,
        1 <= m@,
        is_scale(m@ as int, k as int),
        k == grown(LONG_SIDE as nat, m@, 1),
        digits == ratio_digits(m@, k as nat),
    ensures
        r == side(a as nat, m@),
{
    proof {
        lemma_half(a as nat, m@, k as nat);
    }
    let n: u128 = (a as u128) * digits;
    let mut j: u128 = 1;
    while n >= 0x20_0000_0000_0000 * j
        invariant
            1 <= j,
            n < 0x100_0000_0000_0000_0000_0000,
            j <= 0x10_0000_0000,
            shrunk(n as nat, 1) == shrunk(n as nat, j as nat),
        decreases n - j,
    {
        j = 2 * j;
    }
    let p: u128 = nearest(n, j) * j;
    let half: u128 = (p + k) / (2 * k);
    if half == 0 {
        2
    } else {
        2 * (half as u32)
    }
}

/// The size of the preview of a video: as large as fits into 960 by 960, with even
/// sides of at least 2. A side of 0 becomes 2.
pub fn preview_canvas(res: Resolution) -> (r: (u32, u32))
    ensures
        (r.0 as nat, r.1 as nat) == canvas(res),
{
    let m: u64 = if res.w < res.h {
        res.h as u64
    } else {
        res.w as u64
    };
    if m == 0 {
        return (2, 2);
    }
    let (k, digits) = ratio(m);
    let w: u32 = exec_side(res.w as u64, k, digits, Ghost(m as nat));
    let h: u32 = exec_side(res.h as u64, k, digits, Ghost(m as nat));
    (w, h)
}

/// The sides of the preview are even and from 2 to 960, and the longer one is 960 unless
/// there is no size at all.
pub proof fn preview_is_even_and_fits(res: Resolution)
    ensures
        canvas(res).0 % 2 == 0 && canvas(res).1 % 2 == 0,
        2 <= canvas(res).0 <= LONG_SIDE && 2 <= canvas(res).1 <= LONG_SIDE,
        res.w >= res.h && res.w > 0 ==> canvas(res).0 == LONG_SIDE,
        res.h >= res.w && res.h > 0 ==> canvas(res).1 == LONG_SIDE,
{
    let m = if res.w < res.h {
        res.h as nat
    } else {
        res.w as nat
    };
    if m > 0 {
        let k = grown(LONG_SIDE as nat, m, 1);
        lemma_grown(m, 960, 1);
        lemma_half(res.w as nat, m, k);
        lemma_half(res.h as nat, m, k);
    }
}

proof fn lemma_grown(m: nat, n: nat, k: nat)
    requires
        1 <= m,
        1 <= k,
        n == 960 * k,
        n < 0x20_0000_0000_0000 * m,
    ensures
        is_scale(m as int, grown(n, m, k) as int),
    decreases 0x20_0000_0000_0000 * m - n,
{
    if n < 0x10_0000_0000_0000 * m {
        lemma_grown(m, 2 * n, 2 * k);
    }
}

/// Rounding of the double precision is less than four of the units that count.
proof fn lemma_rounding(a: nat, m: nat, k: nat, s: nat, j: nat)
    requires
        a <= m <= 0xFFFF_FFFF,
        1 <= m,
        is_scale(m as int, k as int),
        2 * (s * m) <= 1920 * k + m,
        j == 1 || a * s >= 0x10_0000_0000_0000 * j,
    ensures
        a * m + m * j <= 4 * k,
{
    assert(a * m <= 0xFFFF_FFFF * m) by (nonlinear_arith)
        requires
            a <= 0xFFFF_FFFF,
    ;
    assert(a * m <= k);
    if j == 1 {
        assert(m * j == m) by (nonlinear_arith)
            requires
                j == 1,
        ;
    } else {
        assert(a * s <= s * m) by (nonlinear_arith)
            requires
                a <= m,
        ;
        assert(0x10_0000_0000_0000 * j <= 961 * k);
        assert(m * j <= 0xFFFF_FFFF * j) by (nonlinear_arith)
            requires
                m <= 0xFFFF_FFFF,
        ;
        assert(m * j <= k);
    }
}

/// A side keeps its part of the longer one to within the rounding to an even number.
proof fn lemma_side_close(a: nat, m: nat)
    requires
        a <= m <= 0xFFFF_FFFF,
        1 <= m,
    ensures
        (side(a, m) == 2 && 960 * a < m + 2) || -(m + 2) <= m * side(a, m) - 960 * a <= m + 2,
{
    let k = grown(LONG_SIDE as nat, m, 1);
    lemma_grown(m, 960, 1);
    let s = ratio_digits(m, k);
    lemma_nearest(960 * k, m);
    let n = a * s;
    let j = shrunk(n, 1);
    lemma_shrunk(n, 1);
    lemma_nearest(n, j);
    let p = product(a, s);
    lemma_rounding(a, m, k, s, j);
    let half = (p + k) / (2 * k);
    assert(2 * k * half <= p + k && p + k < 2 * k * half + 2 * k) by (nonlinear_arith)
        requires
            k >= 1,
            half == (p + k) / (2 * k),
    ;
    let x = m * n;
    assert(x == a * (s * m)) by (nonlinear_arith)
        requires
            x == m * n,
            n == a * s,
    ;
    assert(a * (1920 * k - m) <= 2 * x <= a * (1920 * k + m)) by (nonlinear_arith)
        requires
            x == a * (s * m),
            1920 * k - m <= 2 * (s * m) <= 1920 * k + m,
    ;
    assert(2 * x - m * j <= 2 * (m * p) <= 2 * x + m * j) by (nonlinear_arith)
        requires
            x == m * n,
            2 * n - j <= 2 * p <= 2 * n + j,
    ;
    assert(a * (1920 * k + m) == 1920 * (a * k) + a * m && a * (1920 * k - m) == 1920 * (a * k) - a
        * m) by (nonlinear_arith);
    if half == 0 {
        assert(m * p < m * k) by (nonlinear_arith)
            requires
                p < k,
                m >= 1,
        ;
        assert(1920 * (a * k) < 2 * (m * k) + 4 * k);
        assert(960 * a < m + 2) by (nonlinear_arith)
            requires
                k >= 1,
                1920 * (a * k) < 2 * (m * k) + 4 * k,
        ;
    } else {
        let t = 2 * half;
        assert(side(a, m) == t);
        assert(2 * k * half == k * t) by (nonlinear_arith)
            requires
                t == 2 * half,
        ;
        assert(m * p - m * k <= m * (k * t) <= m * p + m * k) by (nonlinear_arith)
            requires
                k * t <= p + k,
                p + k < k * t + 2 * k,
        ;
        assert(m * (k * t) == k * (m * t)) by (nonlinear_arith);
        let y = m * t;
        assert(2 * (k * y) <= 1920 * (a * k) + 2 * (m * k) + 4 * k);
        assert(2 * (k * y) >= 1920 * (a * k) - 2 * (m * k) - 4 * k);
        assert(-(m + 2) <= y - 960 * a <= m + 2) by (nonlinear_arith)
            requires
                k >= 1,
                2 * (k * y) <= 1920 * (a * k) + 2 * (m * k) + 4 * k,
                2 * (k * y) >= 1920 * (a * k) - 2 * (m * k) - 4 * k,
        ;
    }
}

/// The preview has the shape of the video: each side is to the longer one of the preview
/// as it is in the video, to within the rounding to an even number of pixels, unless it
/// would be less than two.
pub proof fn preview_keeps_the_shape(res: Resolution)
    ensures
        res.w >= res.h && res.w > 0 ==> (canvas(res).1 == 2 && 960 * res.h < res.w + 2) || -(res.w
            + 2) <= res.w * canvas(res).1 - 960 * res.h <= res.w + 2,
        res.h >= res.w && res.h > 0 ==> (canvas(res).0 == 2 && 960 * res.w < res.h + 2) || -(res.h
            + 2) <= res.h * canvas(res).0 - 960 * res.w <= res.h + 2,
{
    if res.w >= res.h && res.w > 0 {
        lemma_side_close(res.h as nat, res.w as nat);
    }
    if res.h >= res.w && res.h > 0 {
        lemma_side_close(res.w as nat, res.h as nat);
    }
}

} // verus!
