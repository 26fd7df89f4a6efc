//! Colour adjustments of photos and the ffmpeg filters that carry them out.

use crate::text::{dec, fixed, join, joined, push_fixed, push_int, texts};
use vstd::prelude::*;

verus! {

broadcast use vstd::seq_lib::group_seq_properties;

/// Colour adjustments, each from -100 to 100; zero changes nothing.
#[derive(Clone, Copy, PartialEq, Eq, Structural, Debug)]
pub struct Adjustments {
    /// Warm (+) or cold (-).
    pub temp: i32,
    /// Magenta (+) or green (-).
    pub tint: i32,
    pub exposure: i32,
    pub contrast: i32,
    pub brightness: i32,
    pub shadows: i32,
    pub whites: i32,
    pub blacks: i32,
    pub clarity: i32,
    pub vibrance: i32,
    pub saturation: i32,
}

/// `v` moved into the range from `lo` to `hi`.
pub open spec fn clamp_int(v: int, lo: int, hi: int) -> int {
    if v < lo {
        lo
    } else if v > hi {
        hi
    } else {
        v
    }
}

/// `v` moved into the range from `lo` to `hi`.
pub fn clamp(v: i32, lo: i32, hi: i32) -> (r: i32)
    requires
        lo <= hi,
    ensures
        r == clamp_int(v as int, lo as int, hi as int),
{
    if v < lo {
        lo
    } else if v > hi {
        hi
    } else {
        v
    }
}

pub open spec fn neutral() -> Adjustments {
    Adjustments {
        temp: 0,
        tint: 0,
        exposure: 0,
        contrast: 0,
        brightness: 0,
        shadows: 0,
        whites: 0,
        blacks: 0,
        clarity: 0,
        vibrance: 0,
        saturation: 0,
    }
}

impl Default for Adjustments {
    fn default() -> (r: Self)
        ensures
            r == neutral(),
    {
        Adjustments {
            temp: 0,
            tint: 0,
            exposure: 0,
            contrast: 0,
            brightness: 0,
            shadows: 0,
            whites: 0,
            blacks: 0,
            clarity: 0,
            vibrance: 0,
            saturation: 0,
        }
    }
}

/// One filter, if there is a reason for it.
pub open spec fn only_if(reason: bool, filter: Seq<char>) -> Seq<Seq<char>> {
    if reason {
        seq![filter]
    } else {
        seq![]
    }
}

/// A point of a tone curve, both coordinates in ten-thousandths.
pub open spec fn curve_point(x: int, y: int) -> Seq<char> {
    fixed(x, 4) + seq!['/'] + fixed(y, 4)
}

/// The smallest odd number that is not below `n`.
pub open spec fn odd_up(n: int) -> int {
    if n % 2 == 0 {
        n + 1
    } else {
        n
    }
}

/// The size of an unsharp mask of about `px` pixels: odd, and from 3 to 23.
pub open spec fn mask_size(px: int) -> int {
    odd_up(clamp_int(px, 3, 23))
}

/// Puts a filter behind `filters` if there is a reason for it.
fn add_if(filters: &mut Vec<String>, reason: bool, filter: String)
    ensures
        texts(final(filters)@) == texts(old(filters)@) + only_if(reason, filter@),
{
    if reason {
        filters.push(filter);
    }
    assert(texts(filters@) =~= texts(old(filters)@) + only_if(reason, filter@));
}

fn curve_text(x: i64, y: i64) -> (r: String)
    ensures
        r@ == curve_point(x as int, y as int),
{
    let mut r: String = String::new();
    push_fixed(&mut r, x, 4);
    r.push('/');
    push_fixed(&mut r, y, 4);
    assert(r@ =~= curve_point(x as int, y as int));
    r
}

impl Adjustments {
    /// Whether the adjustments change nothing.
    pub fn is_neutral(&self) -> (r: bool)
        ensures
            r == (*self == neutral()),
    {
        *self == Adjustments::default()
    }

    /// The adjustments in a fixed order.
    pub open spec fn values_spec(self) -> Seq<i32> {
        seq![
            self.temp,
            self.tint,
            self.exposure,
            self.contrast,
            self.brightness,
            self.shadows,
            self.whites,
            self.blacks,
            self.clarity,
            self.vibrance,
            self.saturation,
        ]
    }

    /// The adjustments in a fixed order.
    pub fn values(&self) -> (r: [i32; 11])
        ensures
            r@ == self.values_spec(),
    {
        [
            self.temp,
            self.tint,
            self.exposure,
            self.contrast,
            self.brightness,
            self.shadows,
            self.whites,
            self.blacks,
            self.clarity,
            self.vibrance,
            self.saturation,
        ]
    }

    /// The adjustments in the order of `values`, to be written to.
    pub fn values_mut(&mut self) -> (r: [&mut i32; 11])
        ensures
            forall|i: int| 0 <= i < 11 ==> *(#[trigger] r[i]) == old(self).values_spec()[i],
            forall|i: int|
                0 <= i < 11 ==> *final(#[trigger] r[i]) == final(self).values_spec()[i],
    {
        [
            &mut self.temp,
            &mut self.tint,
            &mut self.exposure,
            &mut self.contrast,
            &mut self.brightness,
            &mut self.shadows,
            &mut self.whites,
            &mut self.blacks,
            &mut self.clarity,
            &mut self.vibrance,
            &mut self.saturation,
        ]
    }

    /// Each adjustment moved into the range from -100 to 100.
    pub open spec fn clamped_spec(self) -> Adjustments {
        Adjustments {
            temp: clamp_int(self.temp as int, -100, 100) as i32,
            tint: clamp_int(self.tint as int, -100, 100) as i32,
            exposure: clamp_int(self.exposure as int, -100, 100) as i32,
            contrast: clamp_int(self.contrast as int, -100, 100) as i32,
            brightness: clamp_int(self.brightness as int, -100, 100) as i32,
            shadows: clamp_int(self.shadows as int, -100, 100) as i32,
            whites: clamp_int(self.whites as int, -100, 100) as i32,
            blacks: clamp_int(self.blacks as int, -100, 100) as i32,
            clarity: clamp_int(self.clarity as int, -100, 100) as i32,
            vibrance: clamp_int(self.vibrance as int, -100, 100) as i32,
            saturation: clamp_int(self.saturation as int, -100, 100) as i32,
        }
    }

    /// Each adjustment moved into the range from -100 to 100.
    pub fn clamped(self) -> (r: Self)
        ensures
            r == self.clamped_spec(),
    {
        Adjustments {
            temp: clamp(self.temp, -100, 100),
            tint: clamp(self.tint, -100, 100),
            exposure: clamp(self.exposure, -100, 100),
            contrast: clamp(self.contrast, -100, 100),
            brightness: clamp(self.brightness, -100, 100),
            shadows: clamp(self.shadows, -100, 100),
            whites: clamp(self.whites, -100, 100),
            blacks: clamp(self.blacks, -100, 100),
            clarity: clamp(self.clarity, -100, 100),
            vibrance: clamp(self.vibrance, -100, 100),
            saturation: clamp(self.saturation, -100, 100),
        }
    }

    /// These adjustments with the changes from `from` to `to`: where the two differ, the
    /// value of `to`, and where they agree, the value that was there.
    pub open spec fn with_changes_spec(self, from: Adjustments, to: Adjustments) -> Adjustments {
        Adjustments {
            temp: if to.temp != from.temp { to.temp } else { self.temp },
            tint: if to.tint != from.tint { to.tint } else { self.tint },
            exposure: if to.exposure != from.exposure { to.exposure } else { self.exposure },
            contrast: if to.contrast != from.contrast { to.contrast } else { self.contrast },
            brightness: if to.brightness != from.brightness {
                to.brightness
            } else {
                self.brightness
            },
            shadows: if to.shadows != from.shadows { to.shadows } else { self.shadows },
            whites: if to.whites != from.whites { to.whites } else { self.whites },
            blacks: if to.blacks != from.blacks { to.blacks } else { self.blacks },
            clarity: if to.clarity != from.clarity { to.clarity } else { self.clarity },
            vibrance: if to.vibrance != from.vibrance { to.vibrance } else { self.vibrance },
            saturation: if to.saturation != from.saturation {
                to.saturation
            } else {
                self.saturation
            },
        }
    }

    /// These adjustments with the changes from `from` to `to`.
    pub fn with_changes(self, from: Adjustments, to: Adjustments) -> (r: Self)
        ensures
            r == self.with_changes_spec(from, to),
    {
        Adjustments {
            temp: if to.temp != from.temp { to.temp } else { self.temp },
            tint: if to.tint != from.tint { to.tint } else { self.tint },
            exposure: if to.exposure != from.exposure { to.exposure } else { self.exposure },
            contrast: if to.contrast != from.contrast { to.contrast } else { self.contrast },
            brightness: if to.brightness != from.brightness {
                to.brightness
            } else {
                self.brightness
            },
            shadows: if to.shadows != from.shadows { to.shadows } else { self.shadows },
            whites: if to.whites != from.whites { to.whites } else { self.whites },
            blacks: if to.blacks != from.blacks { to.blacks } else { self.blacks },
            clarity: if to.clarity != from.clarity { to.clarity } else { self.clarity },
            vibrance: if to.vibrance != from.vibrance { to.vibrance } else { self.vibrance },
            saturation: if to.saturation != from.saturation {
                to.saturation
            } else {
                self.saturation
            },
        }
    }

    /// White balance: 6500 K less 35 K for each step.
    pub open spec fn kelvin(self) -> int {
        clamp_int(6500 - 35 * self.temp, 1000, 40000)
    }

    pub open spec fn temp_filter(self) -> Seq<char> {
        "colortemperature=temperature="@ + dec(self.kelvin() as nat)
    }

    /// Green to magenta: the green of the midtones in ten-thousandths, 0.003 for each
    /// step.
    pub open spec fn green(self) -> int {
        -30 * self.tint
    }

    pub open spec fn tint_filter(self) -> Seq<char> {
        "colorbalance=gm="@ + fixed(self.green(), 4)
    }

    /// Exposure in thousandths of a stop: three stops for 100 steps.
    pub open spec fn stops(self) -> int {
        30 * self.exposure
    }

    pub open spec fn exposure_filter(self) -> Seq<char> {
        "exposure=exposure="@ + fixed(self.stops(), 3)
    }

    /// Contrast in ten-thousandths: 0.008 for each step.
    pub open spec fn contrast_units(self) -> int {
        10000 + 80 * self.contrast
    }

    /// Brightness in ten-thousandths: 0.004 for each step.
    pub open spec fn brightness_units(self) -> int {
        40 * self.brightness
    }

    /// Saturation in ten-thousandths: 0.01 for each step, and not below zero.
    pub open spec fn saturation_units(self) -> int {
        if 10000 + 100 * self.saturation < 0 {
            0
        } else {
            10000 + 100 * self.saturation
        }
    }

    pub open spec fn eq_filter(self) -> Seq<char> {
        "eq=contrast="@ + fixed(self.contrast_units(), 4) + ":brightness="@ + fixed(
            self.brightness_units(),
            4,
        ) + ":saturation="@ + fixed(self.saturation_units(), 4)
    }

    /// The points of the tone curve from dark to bright, in ten-thousandths.
    pub open spec fn curve(self) -> Seq<(int, int)> {
        (if self.blacks < 0 {
            seq![(0int, 0int), (-12 * self.blacks, 0int)]
        } else {
            seq![(0int, 15 * self.blacks)]
        }) + (if self.shadows != 0 {
            seq![(2500int, clamp_int(2500 + 15 * self.shadows, 0, 10000))]
        } else {
            seq![]
        }) + (if self.whites > 0 {
            seq![(10000 - 15 * self.whites, 10000int), (10000int, 10000int)]
        } else {
            seq![(10000int, 10000 + 15 * self.whites)]
        })
    }

    pub open spec fn curves_filter(self) -> Seq<char> {
        let points = self.curve().map_values(|p: (int, int)| curve_point(p.0, p.1));
        "curves=all='"@ + joined(points, " "@) + "'"@
    }

    /// Vibrance in ten-thousandths: 0.02 for each step.
    pub open spec fn vibrance_units(self) -> int {
        200 * self.vibrance
    }

    pub open spec fn vibrance_filter(self) -> Seq<char> {
        "vibrance=intensity="@ + fixed(self.vibrance_units(), 4)
    }

    /// The amount of local contrast in ten-thousandths: 0.015 for each step.
    pub open spec fn clarity_units(self) -> int {
        150 * self.clarity
    }

    /// Local contrast by an unsharp mask of about `px` pixels.
    pub open spec fn clarity_filter(self, px: int) -> Seq<char> {
        let size = dec(mask_size(px) as nat);
        "unsharp=luma_msize_x="@ + size + ":luma_msize_y="@ + size + ":luma_amount="@ + fixed(
            self.clarity_units(),
            4,
        )
    }

    /// The filters that carry out the adjustments, in order; one for each kind of
    /// adjustment that is not zero.
    pub open spec fn filters(self, px: int) -> Seq<Seq<char>> {
        only_if(self.temp != 0, self.temp_filter()) + only_if(
            self.tint != 0,
            self.tint_filter(),
        ) + only_if(self.exposure != 0, self.exposure_filter()) + only_if(
            self.contrast != 0 || self.brightness != 0 || self.saturation != 0,
            self.eq_filter(),
        ) + only_if(
            self.shadows != 0 || self.whites != 0 || self.blacks != 0,
            self.curves_filter(),
        ) + only_if(self.vibrance != 0, self.vibrance_filter()) + only_if(
            self.clarity != 0,
            self.clarity_filter(px),
        )
    }

    /// The adjustments as a chain of ffmpeg filters; none if they change nothing.
    pub open spec fn chain(self, px: int) -> Option<Seq<char>> {
        if self == neutral() {
            None
        } else {
            Some(joined(self.filters(px), ","@))
        }
    }

    fn eq_text(&self) -> (r: String)
        ensures
            r@ == self.eq_filter(),
    {
        let mut r: String = "eq=contrast=".to_owned();
        push_fixed(&mut r, 10000 + 80 * (self.contrast as i64), 4);
        r.append(":brightness=");
        push_fixed(&mut r, 40 * (self.brightness as i64), 4);
        r.append(":saturation=");
        let s: i64 = 10000 + 100 * (self.saturation as i64);
        push_fixed(&mut r, if s < 0 { 0 } else { s }, 4);
        assert(r@ =~= self.eq_filter());
        r
    }

    fn curves_text(&self) -> (r: String)
        ensures
            r@ == self.curves_filter(),
    {
        let mut pts: Vec<String> = Vec::new();
        if self.blacks < 0 {
            pts.push(curve_text(0, 0));
            pts.push(curve_text(-12 * (self.blacks as i64), 0));
        } else {
            pts.push(curve_text(0, 15 * (self.blacks as i64)));
        }
        if self.shadows != 0 {
            let y: i64 = 2500 + 15 * (self.shadows as i64);
            pts.push(
                curve_text(
                    2500,
                    if y < 0 {
                        0
                    } else if y > 10000 {
                        10000
                    } else {
                        y
                    },
                ),
            );
        }
        if self.whites > 0 {
            pts.push(curve_text(10000 - 15 * (self.whites as i64), 10000));
            pts.push(curve_text(10000, 10000));
        } else {
            pts.push(curve_text(10000, 10000 + 15 * (self.whites as i64)));
        }
        assert(texts(pts@) =~= self.curve().map_values(|p: (int, int)| curve_point(p.0, p.1)));
        let mut r: String = "curves=all='".to_owned();
        r.append(join(&pts, " ").as_str());
        r.append("'");
        r
    }

    fn clarity_text(&self, unsharp_px: i32) -> (r: String)
        ensures
            r@ == self.clarity_filter(unsharp_px as int),
    {
        let n: i32 = clamp(unsharp_px, 3, 23);
        let size: i32 = n | 1;
        assert(n | 1 == odd_up(n as int)) by {
            assert(3 <= n <= 23 ==> (n | 1) == (if n % 2 == 0 { n + 1 } else { n as int })) by (bit_vector);
        }
        let mut r: String = "unsharp=luma_msize_x=".to_owned();
        push_int(&mut r, size as i64);
        r.append(":luma_msize_y=");
        push_int(&mut r, size as i64);
        r.append(":luma_amount=");
        push_fixed(&mut r, 150 * (self.clarity as i64), 4);
        assert(r@ =~= self.clarity_filter(unsharp_px as int));
        r
    }

    /// The adjustments as a chain of ffmpeg filters; none if they change nothing.
    /// `unsharp_px` is the size of the unsharp mask: 13 for the output, and 13 scaled by
    /// the ratio of the widths for a preview.
    pub fn filter_chain(&self, unsharp_px: i32) -> (r: Option<String>)
        ensures
            match r {
                Some(c) => self.chain(unsharp_px as int) == Some(c@),
                None => self.chain(unsharp_px as int) is None,
            },
    {
        if self.is_neutral() {
            return None;
        }
        let mut filters: Vec<String> = Vec::new();
        let mut temp: String = "colortemperature=temperature=".to_owned();
        let k: i64 = 6500 - 35 * (self.temp as i64);
        push_int(
            &mut temp,
            if k < 1000 {
                1000
            } else if k > 40000 {
                40000
            } else {
                k
            },
        );
        assert(texts(filters@) =~= seq![]);
        add_if(&mut filters, self.temp != 0, temp);
        let mut tint: String = "colorbalance=gm=".to_owned();
        push_fixed(&mut tint, -30 * (self.tint as i64), 4);
        add_if(&mut filters, self.tint != 0, tint);
        let mut exposure: String = "exposure=exposure=".to_owned();
        push_fixed(&mut exposure, 30 * (self.exposure as i64), 3);
        add_if(&mut filters, self.exposure != 0, exposure);
        add_if(
            &mut filters,
            self.contrast != 0 || self.brightness != 0 || self.saturation != 0,
            self.eq_text(),
        );
        add_if(
            &mut filters,
            self.shadows != 0 || self.whites != 0 || self.blacks != 0,
            self.curves_text(),
        );
        let mut vibrance: String = "vibrance=intensity=".to_owned();
        push_fixed(&mut vibrance, 200 * (self.vibrance as i64), 4);
        add_if(&mut filters, self.vibrance != 0, vibrance);
        add_if(&mut filters, self.clarity != 0, self.clarity_text(unsharp_px));
        assert(texts(filters@) =~= self.filters(unsharp_px as int));
        Some(join(&filters, ","))
    }
}

/// Clamped adjustments are in range, and adjustments in range are not changed by
/// clamping.
pub proof fn clamping_settles(a: Adjustments)
    ensures
        in_range(a.clamped_spec()),
        in_range(a) ==> a.clamped_spec() == a,
{
    let c = a.clamped_spec().values_spec();
    assert forall|i: int| 0 <= i < 11 implies -100 <= #[trigger] c[i] <= 100 by {
        assert(c[i] == clamp_int(a.values_spec()[i] as int, -100, 100));
    }
    if in_range(a) {
        let v = a.values_spec();
        assert(-100 <= v[0] <= 100 && -100 <= v[1] <= 100 && -100 <= v[2] <= 100 && -100 <= v[3]
            <= 100 && -100 <= v[4] <= 100 && -100 <= v[5] <= 100 && -100 <= v[6] <= 100 && -100
            <= v[7] <= 100 && -100 <= v[8] <= 100 && -100 <= v[9] <= 100 && -100 <= v[10] <= 100);
    }
}

/// All adjustments are from -100 to 100.
pub open spec fn in_range(a: Adjustments) -> bool {
    forall|i: int| 0 <= i < 11 ==> -100 <= #[trigger] a.values_spec()[i] <= 100
}

/// Adjustments in range give the filters nothing that they refuse: each number is within
/// the limits of its filter, the mask is odd and neither too small nor too large, and the
/// points of the tone curve lie within its square, each to the right of the one before,
/// from the left edge to the right one.
pub proof fn adjustments_in_range_suit_the_filters(a: Adjustments, px: int)
    requires
        in_range(a),
    ensures
        1000 < a.kelvin() < 40000,
        -10000 <= a.green() <= 10000,
        -3000 <= a.stops() <= 3000,
        0 < a.contrast_units() <= 20000,
        -10000 <= a.brightness_units() <= 10000,
        0 <= a.saturation_units() <= 30000,
        -20000 <= a.vibrance_units() <= 20000,
        -20000 <= a.clarity_units() <= 50000,
        3 <= mask_size(px) <= 23 && mask_size(px) % 2 == 1,
        a.curve().first().0 == 0 && a.curve().last().0 == 10000,
        forall|i: int|
            0 <= i < a.curve().len() ==> 0 <= (#[trigger] a.curve()[i]).0 <= 10000 && 0
                <= a.curve()[i].1 <= 10000,
        forall|i: int, j: int|
            0 <= i < j < a.curve().len() ==> (#[trigger] a.curve()[i]).0 < (
            #[trigger] a.curve()[j]).0,
{
    let v = a.values_spec();
    assert(-100 <= v[0] <= 100 && -100 <= v[1] <= 100 && -100 <= v[2] <= 100 && -100 <= v[3]
        <= 100 && -100 <= v[4] <= 100 && -100 <= v[5] <= 100 && -100 <= v[6] <= 100 && -100
        <= v[7] <= 100 && -100 <= v[8] <= 100 && -100 <= v[9] <= 100 && -100 <= v[10] <= 100);
}

/// A change reaches exactly the adjustments that differ between the two settings, so an
/// unchanged setting changes nothing, and a change seen from its own start arrives at
/// its end.
pub proof fn changes_reach_what_differs(a: Adjustments, from: Adjustments, to: Adjustments)
    ensures
        a.with_changes_spec(from, from) == a,
        from.with_changes_spec(from, to) == to,
        forall|i: int|
            0 <= i < 11 ==> #[trigger] a.with_changes_spec(from, to).values_spec()[i] == (
            if from.values_spec()[i] != to.values_spec()[i] {
                to.values_spec()[i]
            } else {
                a.values_spec()[i]
            }),
{
}

} // verus!
