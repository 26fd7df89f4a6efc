//! What is to be done about smoke in a photo, and where.

use crate::adjust::{clamp, clamp_int};
use crate::scalar::{one, zero, Scalar};
use vstd::arithmetic::power2::{lemma2_to64, pow2};
use vstd::prelude::*;

verus! {

/// A part of a photo, as parts of its width and height.
#[derive(Clone, Copy, PartialEq, Eq, Structural, Debug)]
pub struct Region {
    pub x0: Scalar,
    pub y0: Scalar,
    pub x1: Scalar,
    pub y1: Scalar,
}

/// The number of parts, of which 2 to the power of 31 make one, that a distance has to
/// exceed. The difference of two single-precision numbers from zero to one is above 0.01
/// exactly when it exceeds this many parts.
pub const NARROW: u64 = 21_474_837;

/// `n` halved `k` times, rounded down.
pub open spec fn halved(n: int, k: nat) -> int
    decreases k,
{
    if k == 0 {
        n
    } else {
        halved(n / 2, (k - 1) as nat)
    }
}

/// The digits of a number, with the one that is not written down.
pub open spec fn digits_of(s: Scalar) -> int {
    if s.magnitude() / 0x80_0000 == 0 {
        s.magnitude()
    } else {
        s.magnitude() % 0x80_0000 + 0x80_0000
    }
}

/// A number from zero to one in parts, of which 2 to the power of 31 make one, rounded
/// down.
pub open spec fn in_parts(s: Scalar) -> int {
    let e = s.magnitude() / 0x80_0000;
    if e >= 119 {
        digits_of(s) * pow2((e - 119) as nat)
    } else {
        halved(digits_of(s), (119 - e) as nat)
    }
}

/// Whether a number is from zero to one.
pub open spec fn is_part(s: Scalar) -> bool {
    s.within(zero(), one()) && !s.is_nan()
}

/// Whether the distance from `a` to `b`, both from zero to one, is above 0.01 in
/// single-precision arithmetic; nothing is above it where one of them is no number.
pub open spec fn wide(a: Scalar, b: Scalar) -> bool {
    !a.is_nan() && !b.is_nan() && in_parts(a) < in_parts(b) - NARROW
}

impl Region {
    /// The region with its corners in order and within the photo.
    pub open spec fn normal(self) -> Region {
        Region {
            x0: self.x0.min_spec(self.x1).clamped_spec(zero(), one()),
            y0: self.y0.min_spec(self.y1).clamped_spec(zero(), one()),
            x1: self.x0.max_spec(self.x1).clamped_spec(zero(), one()),
            y1: self.y0.max_spec(self.y1).clamped_spec(zero(), one()),
        }
    }

    /// Whether the region is more than a line.
    pub open spec fn usable(self) -> bool {
        wide(self.x0, self.x1) && wide(self.y0, self.y1)
    }

    /// The region with its corners in order and within the photo, whichever way it was
    /// drawn.
    pub fn normalized(self) -> (r: Self)
        ensures
            r == self.normal(),
    {
        let lo = Scalar { bits: 0 };
        let hi = Scalar { bits: 0x3F80_0000 };
        Region {
            x0: self.x0.lesser(self.x1).clamped(lo, hi),
            y0: self.y0.lesser(self.y1).clamped(lo, hi),
            x1: self.x0.greater(self.x1).clamped(lo, hi),
            y1: self.y0.greater(self.y1).clamped(lo, hi),
        }
    }

    /// Whether a region within the photo is more than a line.
    pub fn is_usable(&self) -> (r: bool)
        requires
            self.x0.within(zero(), one()),
            self.y0.within(zero(), one()),
            self.x1.within(zero(), one()),
            self.y1.within(zero(), one()),
        ensures
            r == self.usable(),
    {
        is_wide(self.x0, self.x1) && is_wide(self.y0, self.y1)
    }
}

fn is_wide(a: Scalar, b: Scalar) -> (r: bool)
    requires
        a.within(zero(), one()),
        b.within(zero(), one()),
    ensures
        r == wide(a, b),
{
    if a.not_a_number() || b.not_a_number() {
        return false;
    }
    let from: u64 = parts(a);
    let to: u64 = parts(b);
    to > NARROW && from < to - NARROW
}

fn parts(s: Scalar) -> (r: u64)
    requires
        is_part(s),
    ensures
        r == in_parts(s),
{
    let mag: u32 = s.bits % 0x8000_0000;
    let e: u32 = mag / 0x80_0000;
    assert(mag <= 0x3F80_0000);
    let digits: u32 = if e == 0 {
        mag
    } else {
        mag % 0x80_0000 + 0x80_0000
    };
    if e >= 119 {
        let k: u32 = e - 119;
        let mut r: u64 = digits as u64;
        let mut i: u32 = 0;
        proof {
            lemma2_to64();
        }
        while i < k
            invariant
                i <= k <= 8,
                digits < 0x100_0000,
                r == digits * pow2(i as nat),
                pow2(0) == 1,
                pow2(1) == 2,
                pow2(2) == 4,
                pow2(3) == 8,
                pow2(4) == 16,
                pow2(5) == 32,
                pow2(6) == 64,
                pow2(7) == 128,
                pow2(8) == 256,
            decreases k - i,
        {
            assert(pow2((i + 1) as nat) == 2 * pow2(i as nat) && pow2(i as nat) <= 128);
            assert(digits * pow2((i + 1) as nat) == 2 * (digits * pow2(i as nat))) by (
                nonlinear_arith)
                requires
                    pow2((i + 1) as nat) == 2 * pow2(i as nat),
            ;
            assert(digits * pow2(i as nat) <= 0x100_0000 * 128) by (nonlinear_arith)
                requires
                    digits < 0x100_0000,
                    pow2(i as nat) <= 128,
            ;
            r = 2 * r;
            i += 1;
        }
        r
    } else {
        let k: u32 = 119 - e;
        let mut r: u32 = digits;
        let mut i: u32 = k;
        while i > 0
            invariant
                i <= k,
                halved(digits as int, k as nat) == halved(r as int, i as nat),
            decreases i,
        {
            r = r / 2;
            i -= 1;
        }
        r as u64
    }
}

/// How many colours can be protected.
pub const MAX_PROTECT: usize = 6;

/// What is to be done about smoke.
#[derive(Clone, Copy, PartialEq, Debug)]
pub struct SmokeParams {
    /// How much of it goes, from 0 to 100.
    pub strength: i32,
    /// How closely the estimate follows the photo, from 0 to 100.
    pub detail: i32,
    /// How much what is left in the dark is pressed down, from 0 to 100.
    pub black: i32,
    /// Only this part of the photo; all of it where there is none.
    pub region: Option<Region>,
    /// How wide the edge of the region is, from 0 to 100.
    pub feather: i32,
    /// Colours that stay, in the order in which they were added, before the free slots.
    pub protect: [Option<[u8; 3]>; MAX_PROTECT],
    /// How far from them a colour may be and stay too, from 0 to 100.
    pub tolerance: i32,
}

/// A region that can be used, in order and within the photo.
pub open spec fn settled_region(region: Option<Region>) -> Option<Region> {
    match region {
        Some(r) => if r.normal().usable() {
            Some(r.normal())
        } else {
            None
        },
        None => None,
    }
}

/// The place of the first free slot from `i` on.
pub open spec fn free_slot(slots: Seq<Option<[u8; 3]>>, i: int) -> Option<int>
    decreases slots.len() - i,
{
    if i < 0 || i >= slots.len() {
        None
    } else if slots[i] is None {
        Some(i)
    } else {
        free_slot(slots, i + 1)
    }
}

/// The protected colours with their slots, in order.
pub open spec fn colors_in(slots: Seq<Option<[u8; 3]>>, n: int) -> Seq<(usize, [u8; 3])>
    decreases n,
{
    if n <= 0 {
        seq![]
    } else {
        match slots[n - 1] {
            Some(c) => colors_in(slots, n - 1).push(((n - 1) as usize, c)),
            None => colors_in(slots, n - 1),
        }
    }
}

/// The protected colours, in order.
pub open spec fn protected_in(slots: Seq<Option<[u8; 3]>>) -> Seq<[u8; 3]> {
    colors_in(slots, slots.len() as int).map_values(|p: (usize, [u8; 3])| p.1)
}

/// The free slots are behind the others.
pub open spec fn is_packed(slots: Seq<Option<[u8; 3]>>) -> bool {
    forall|a: int, b: int|
        0 <= a < b < slots.len() && #[trigger] slots[b] is Some ==> #[trigger] slots[a] is Some
}

/// The slots after the colour in slot `i` has gone: those behind it move up.
pub open spec fn without_slot(slots: Seq<Option<[u8; 3]>>, i: int) -> Seq<Option<[u8; 3]>> {
    slots.remove(i).push(None)
}

/// Whether a colour is protected.
pub open spec fn is_protected(slots: Seq<Option<[u8; 3]>>, c: [u8; 3]) -> bool {
    exists|i: int| 0 <= i < slots.len() && (#[trigger] slots[i] matches Some(x) && x@ == c@)
}

fn same_color(a: [u8; 3], b: [u8; 3]) -> (r: bool)
    ensures
        r == (a@ == b@),
{
    let r: bool = a[0] == b[0] && a[1] == b[1] && a[2] == b[2];
    assert(r ==> a@ =~= b@);
    r
}

impl Default for SmokeParams {
    fn default() -> (r: Self)
        ensures
            r.strength == 80,
            r.detail == 60,
            r.black == 30,
            r.region is None,
            r.feather == 25,
            forall|i: int| 0 <= i < MAX_PROTECT ==> r.protect[i] is None,
            is_packed(r.protect@),
            r.tolerance == 30,
    {
        SmokeParams {
            strength: 80,
            detail: 60,
            black: 30,
            region: None,
            feather: 25,
            protect: [None, None, None, None, None, None],
            tolerance: 30,
        }
    }
}

impl SmokeParams {
    /// The parameters, each in its range; a region that is no more than a line is none.
    pub fn clamped(self) -> (r: Self)
        ensures
            r.strength == clamp_int(self.strength as int, 0, 100),
            r.detail == clamp_int(self.detail as int, 0, 100),
            r.black == clamp_int(self.black as int, 0, 100),
            r.feather == clamp_int(self.feather as int, 0, 100),
            r.tolerance == clamp_int(self.tolerance as int, 0, 100),
            r.region == settled_region(self.region),
            r.protect == self.protect,
    {
        let region: Option<Region> = match self.region {
            Some(x) => {
                let n = x.normalized();
                if n.is_usable() {
                    Some(n)
                } else {
                    None
                }
            },
            None => None,
        };
        SmokeParams {
            strength: clamp(self.strength, 0, 100),
            detail: clamp(self.detail, 0, 100),
            black: clamp(self.black, 0, 100),
            region,
            feather: clamp(self.feather, 0, 100),
            protect: self.protect,
            tolerance: clamp(self.tolerance, 0, 100),
        }
    }

    /// Whether nothing is to be done.
    pub fn is_neutral(&self) -> (r: bool)
        ensures
            r == (self.strength <= 0),
    {
        self.strength <= 0
    }

    /// The protected colours with their slots, in order.
    pub fn protect_colors(&self) -> (r: Vec<(usize, [u8; 3])>)
        ensures
            r@ == colors_in(self.protect@, MAX_PROTECT as int),
    {
        let mut r: Vec<(usize, [u8; 3])> = Vec::new();
        let mut i: usize = 0;
        while i < MAX_PROTECT
            invariant
                i <= MAX_PROTECT,
                r@ == colors_in(self.protect@, i as int),
            decreases MAX_PROTECT - i,
        {
            match self.protect[i] {
                Some(c) => {
                    r.push((i, c));
                },
                None => {},
            }
            i += 1;
        }
        r
    }

    /// Whether any colour is protected.
    pub fn has_protect(&self) -> (r: bool)
        ensures
            r == (exists|i: int| 0 <= i < MAX_PROTECT && #[trigger] self.protect[i] is Some),
    {
        let mut i: usize = 0;
        while i < MAX_PROTECT
            invariant
                i <= MAX_PROTECT,
                forall|k: int| 0 <= k < i ==> #[trigger] self.protect[k] is None,
            decreases MAX_PROTECT - i,
        {
            if self.protect[i].is_some() {
                return true;
            }
            i += 1;
        }
        false
    }

    /// Protects a colour in the first free slot; refused where the colour is protected
    /// already or no slot is free.
    pub fn add_protect(&mut self, c: [u8; 3]) -> (r: bool)
        ensures
            r == (!is_protected(old(self).protect@, c) && free_slot(
                old(self).protect@,
                0,
            ) is Some),
            r ==> final(self).protect@ == old(self).protect@.update(
                free_slot(old(self).protect@, 0).unwrap(),
                Some(c),
            ),
            !r ==> *final(self) == *old(self),
            is_packed(old(self).protect@) ==> is_packed(final(self).protect@),
            final(self).strength == old(self).strength,
            final(self).detail == old(self).detail,
            final(self).black == old(self).black,
            final(self).region == old(self).region,
            final(self).feather == old(self).feather,
            final(self).tolerance == old(self).tolerance,
    {
        let mut i: usize = 0;
        while i < MAX_PROTECT
            invariant
                i <= MAX_PROTECT,
                *self == *old(self),
                forall|k: int|
                    0 <= k < i ==> !(#[trigger] self.protect@[k] matches Some(x) && x@ == c@),
            decreases MAX_PROTECT - i,
        {
            match self.protect[i] {
                Some(x) => {
                    if same_color(x, c) {
                        assert(self.protect@[i as int] matches Some(y) && y@ == c@);
                        return false;
                    }
                },
                None => {},
            }
            i += 1;
        }
        let mut k: usize = 0;
        while k < MAX_PROTECT
            invariant
                k <= MAX_PROTECT,
                *self == *old(self),
                !is_protected(self.protect@, c),
                free_slot(self.protect@, 0) == free_slot(self.protect@, k as int),
            decreases MAX_PROTECT - k,
        {
            if self.protect[k].is_none() {
                proof {
                    lemma_free_slot(self.protect@, 0);
                }
                self.protect[k] = Some(c);
                return true;
            }
            k += 1;
        }
        false
    }

    /// The colour in slot `i` is protected no longer; those behind it move up.
    pub fn remove_protect(&mut self, i: usize)
        ensures
            final(self).protect@ == (if i < MAX_PROTECT {
                without_slot(old(self).protect@, i as int)
            } else {
                old(self).protect@
            }),
            is_packed(old(self).protect@) ==> is_packed(final(self).protect@),
            final(self).strength == old(self).strength,
            final(self).detail == old(self).detail,
            final(self).black == old(self).black,
            final(self).region == old(self).region,
            final(self).feather == old(self).feather,
            final(self).tolerance == old(self).tolerance,
    {
        if i >= MAX_PROTECT {
            return;
        }
        let ghost before = self.protect@;
        let mut k: usize = i;
        while k + 1 < MAX_PROTECT
            invariant
                i <= k < MAX_PROTECT,
                before == old(self).protect@,
                forall|a: int| 0 <= a < k ==> #[trigger] self.protect@[a] == before.remove(i as int)[a],
                forall|a: int| k < a < MAX_PROTECT ==> #[trigger] self.protect@[a] == before[a],
                self.strength == old(self).strength,
                self.detail == old(self).detail,
                self.black == old(self).black,
                self.region == old(self).region,
                self.feather == old(self).feather,
                self.tolerance == old(self).tolerance,
            decreases MAX_PROTECT - k,
        {
            self.protect[k] = self.protect[k + 1];
            k += 1;
        }
        self.protect[k] = None;
        assert(self.protect@ =~= without_slot(before, i as int));
    }

    /// Frees all slots.
    pub fn clear_protect(&mut self)
        ensures
            forall|i: int| 0 <= i < MAX_PROTECT ==> final(self).protect[i] is None,
            is_packed(final(self).protect@),
            final(self).strength == old(self).strength,
            final(self).detail == old(self).detail,
            final(self).black == old(self).black,
            final(self).region == old(self).region,
            final(self).feather == old(self).feather,
            final(self).tolerance == old(self).tolerance,
    {
        self.protect = [None, None, None, None, None, None];
    }
}

/// No colour is protected twice.
pub open spec fn no_color_twice(slots: Seq<Option<[u8; 3]>>) -> bool {
    forall|a: int, b: int|
        0 <= a < b < slots.len() && slots[a] is Some && slots[b] is Some ==> (
        #[trigger] slots[a]).unwrap()@ != (#[trigger] slots[b]).unwrap()@
}

proof fn lemma_free_slot(slots: Seq<Option<[u8; 3]>>, from: int)
    requires
        0 <= from <= slots.len(),
    ensures
        free_slot(slots, from) matches Some(i) ==> from <= i < slots.len() && slots[i] is None
            && forall|a: int| from <= a < i ==> #[trigger] slots[a] is Some,
        free_slot(slots, from) is None ==> forall|a: int|
            from <= a < slots.len() ==> #[trigger] slots[a] is Some,
    decreases slots.len() - from,
{
    if from < slots.len() {
        lemma_free_slot(slots, from + 1);
    }
}

/// Protecting a colour that is not protected yet protects no colour twice, and when it
/// goes again, what there was is left.
pub proof fn protecting_keeps_colors_apart(slots: Seq<Option<[u8; 3]>>, c: [u8; 3])
    requires
        no_color_twice(slots),
        is_packed(slots),
        !is_protected(slots, c),
        free_slot(slots, 0) is Some,
    ensures
        ({
            let k = free_slot(slots, 0).unwrap();
            let more = slots.update(k, Some(c));
            &&& no_color_twice(more)
            &&& without_slot(more, k) == slots
        }),
{
    let k = free_slot(slots, 0).unwrap();
    lemma_free_slot(slots, 0);
    let more = slots.update(k, Some(c));
    assert forall|a: int| k <= a < slots.len() implies #[trigger] slots[a] is None by {
        assert(slots[k] is None);
    }
    assert(without_slot(more, k) =~= slots);
    assert forall|a: int, b: int|
        0 <= a < b < more.len() && more[a] is Some && more[b] is Some implies (
    #[trigger] more[a]).unwrap()@ != (#[trigger] more[b]).unwrap()@ by {
        if a == k {
            assert(!(slots[b] matches Some(x) && x@ == c@));
        } else if b == k {
            assert(!(slots[a] matches Some(x) && x@ == c@));
        } else {
            assert(slots[a].unwrap()@ != slots[b].unwrap()@);
        }
    }
}

/// The first `m` slots hold colours and the others none: the colours are those of the
/// first `m` slots.
proof fn lemma_colors(slots: Seq<Option<[u8; 3]>>, m: int, n: int)
    requires
        0 <= m <= slots.len(),
        0 <= n <= slots.len() <= MAX_PROTECT,
        forall|a: int| 0 <= a < m ==> #[trigger] slots[a] is Some,
        forall|a: int| m <= a < slots.len() ==> #[trigger] slots[a] is None,
    ensures
        colors_in(slots, n).len() == (if n < m {
            n
        } else {
            m
        }),
        forall|j: int|
            0 <= j < colors_in(slots, n).len() ==> #[trigger] colors_in(slots, n)[j] == (
                j as usize,
                slots[j].unwrap(),
            ),
    decreases n,
{
    if n > 0 {
        lemma_colors(slots, m, n - 1);
        assert(slots[n - 1] is Some <==> n - 1 < m);
    }
}

/// The protected colours come in the order in which they were added: one that is added
/// comes last, and when one goes, the others keep their order.
pub proof fn protected_colors_come_as_added(slots: Seq<Option<[u8; 3]>>, c: [u8; 3], i: int)
    requires
        slots.len() == MAX_PROTECT,
        is_packed(slots),
        0 <= i < MAX_PROTECT,
    ensures
        free_slot(slots, 0) matches Some(k) ==> is_packed(slots.update(k, Some(c)))
            && protected_in(slots.update(k, Some(c))) == protected_in(slots).push(c),
        is_packed(without_slot(slots, i)),
        protected_in(without_slot(slots, i)) == (if i < protected_in(slots).len() {
            protected_in(slots).remove(i)
        } else {
            protected_in(slots)
        }),
        forall|j: int|
            0 <= j < protected_in(slots).len() ==> (#[trigger] colors_in(
                slots,
                MAX_PROTECT as int,
            )[j]).0 == j,
{
    let n = MAX_PROTECT as int;
    lemma_free_slot(slots, 0);
    let m = match free_slot(slots, 0) {
        Some(k) => k,
        None => n,
    };
    assert forall|a: int| m <= a < n implies #[trigger] slots[a] is None by {
        assert(slots[m] is None);
    }
    lemma_colors(slots, m, n);
    if m < n {
        let more = slots.update(m, Some(c));
        lemma_colors(more, m + 1, n);
        assert(protected_in(more) =~= protected_in(slots).push(c));
    }
    let fewer = without_slot(slots, i);
    if i < m {
        assert forall|a: int| 0 <= a < m - 1 implies #[trigger] fewer[a] is Some by {
            assert(fewer[a] == slots[a] || fewer[a] == slots[a + 1]);
        }
        lemma_colors(fewer, m - 1, n);
        assert(protected_in(fewer) =~= protected_in(slots).remove(i));
    } else {
        assert(fewer =~= slots);
    }
}

/// A region lies within the photo after it was put in order.
pub proof fn normal_region_is_within_the_photo(r: Region)
    ensures
        r.normal().x0.within(zero(), one()),
        r.normal().y0.within(zero(), one()),
        r.normal().x1.within(zero(), one()),
        r.normal().y1.within(zero(), one()),
{
}

/// Whichever way a region is drawn, its corners come out at the same places.
pub proof fn drawing_backwards_gives_the_same_region(r: Region)
    requires
        !r.x0.is_nan() && !r.x1.is_nan() && !r.y0.is_nan() && !r.y1.is_nan(),
    ensures
        ({
            let b = Region { x0: r.x1, y0: r.y1, x1: r.x0, y1: r.y0 };
            &&& b.normal().x0.rank() == r.normal().x0.rank()
            &&& b.normal().y0.rank() == r.normal().y0.rank()
            &&& b.normal().x1.rank() == r.normal().x1.rank()
            &&& b.normal().y1.rank() == r.normal().y1.rank()
            &&& r.normal().x0.rank() <= r.normal().x1.rank()
            &&& r.normal().y0.rank() <= r.normal().y1.rank()
        }),
{
}

/// A number with these digits and this exponent, in parts.
spec fn part_value(e: int, d: int) -> int {
    if e >= 119 {
        d * pow2((e - 119) as nat)
    } else {
        halved(d, (119 - e) as nat)
    }
}

proof fn lemma_halved_grows(a: int, b: int, k: nat)
    requires
        0 <= a <= b,
    ensures
        halved(a, k) <= halved(b, k),
    decreases k,
{
    if k > 0 {
        lemma_halved_grows(a / 2, b / 2, (k - 1) as nat);
    }
}

proof fn lemma_next_exponent(e: int, d: int)
    requires
        0 <= e,
        0 <= d <= 0x100_0000,
    ensures
        part_value(e, d) <= part_value(e + 1, 0x80_0000),
{
    if e < 119 {
        lemma_halved_grows(d, 0x100_0000, (119 - e) as nat);
        assert(halved(0x100_0000, (119 - e) as nat) == halved(0x80_0000, (118 - e) as nat));
        if e == 118 {
            lemma2_to64();
            assert(halved(0x80_0000, 0) == 0x80_0000);
        }
    } else {
        let p = pow2((e - 119) as nat);
        vstd::arithmetic::power2::lemma_pow2_unfold((e - 118) as nat);
        vstd::arithmetic::power2::lemma_pow2_pos((e - 119) as nat);
        assert(d * p <= 0x80_0000 * (2 * p)) by (nonlinear_arith)
            requires
                0 <= d <= 0x100_0000,
                p > 0,
        ;
    }
}

proof fn lemma_later_exponent(e: int, d: int, to: int)
    requires
        0 <= e < to,
        0 <= d <= 0x100_0000,
    ensures
        part_value(e, d) <= part_value(to, 0x80_0000),
    decreases to - e,
{
    lemma_next_exponent(e, d);
    if e + 1 < to {
        lemma_later_exponent(e + 1, 0x80_0000, to);
    }
}

/// Places within a photo are counted in parts in their order, from none at one edge to
/// all of them at the other; a region is wide only if its edges are in order and apart.
pub proof fn parts_follow_the_order(a: Scalar, b: Scalar)
    requires
        is_part(a),
        is_part(b),
    ensures
        a.rank() <= b.rank() ==> in_parts(a) <= in_parts(b),
        in_parts(zero()) == 0,
        in_parts(one()) == 0x8000_0000,
        wide(a, b) ==> a.below(b) && 100 * (in_parts(b) - in_parts(a)) > 0x8000_0000,
        100 * (in_parts(b) - in_parts(a)) > 0x8000_0000 + 100 ==> wide(a, b),
{
    lemma_parts_grow(a, b);
    lemma_parts_grow(b, a);
    lemma2_to64();
    assert(in_parts(one()) == 0x80_0000 * pow2(8));
    lemma_halved_zero(119);
}

proof fn lemma_halved_zero(k: nat)
    ensures
        halved(0, k) == 0,
    decreases k,
{
    if k > 0 {
        lemma_halved_zero((k - 1) as nat);
    }
}

proof fn lemma_parts_grow(a: Scalar, b: Scalar)
    requires
        is_part(a),
        is_part(b),
    ensures
        a.rank() <= b.rank() ==> in_parts(a) <= in_parts(b),
{
    let x = a.magnitude() / 0x80_0000;
    let y = b.magnitude() / 0x80_0000;
    let d = digits_of(a);
    let f = digits_of(b);
    if a.rank() <= b.rank() {
        assert(a.magnitude() <= b.magnitude());
        if x == y {
            assert(d <= f);
            if x >= 119 {
                let p = pow2((x - 119) as nat);
                vstd::arithmetic::power2::lemma_pow2_pos((x - 119) as nat);
                assert(d * p <= f * p) by (nonlinear_arith)
                    requires
                        d <= f,
                        p > 0,
                ;
            } else {
                lemma_halved_grows(d, f, (119 - x) as nat);
            }
        } else {
            lemma_later_exponent(x, d, y);
            assert(f >= 0x80_0000);
            if y >= 119 {
                let p = pow2((y - 119) as nat);
                vstd::arithmetic::power2::lemma_pow2_pos((y - 119) as nat);
                assert(0x80_0000 * p <= f * p) by (nonlinear_arith)
                    requires
                        0x80_0000 <= f,
                        p > 0,
                ;
            } else {
                lemma_halved_grows(0x80_0000, f, (119 - y) as nat);
            }
        }
    }
}

} // verus!
