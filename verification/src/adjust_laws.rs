//! What the filters of the colour adjustments do with each of them.

use crate::adjust::{curve_point, in_range, mask_size, neutral, only_if, Adjustments};
use crate::text::{dec, fixed, has_part, joined};
use vstd::prelude::*;

verus! {

/// Each adjustment that is not zero has its filter in the list: the three of brightness,
/// contrast and saturation share one, and shadows, whites and blacks, each on its own,
/// bring in the tone curve.
pub proof fn each_adjustment_has_its_filter(a: Adjustments, px: int)
    ensures
        a.temp != 0 ==> a.filters(px).contains(a.temp_filter()),
        a.tint != 0 ==> a.filters(px).contains(a.tint_filter()),
        a.exposure != 0 ==> a.filters(px).contains(a.exposure_filter()),
        a.contrast != 0 ==> a.filters(px).contains(a.eq_filter()),
        a.brightness != 0 ==> a.filters(px).contains(a.eq_filter()),
        a.saturation != 0 ==> a.filters(px).contains(a.eq_filter()),
        a.shadows != 0 ==> a.filters(px).contains(a.curves_filter()),
        a.whites != 0 ==> a.filters(px).contains(a.curves_filter()),
        a.blacks != 0 ==> a.filters(px).contains(a.curves_filter()),
        a.vibrance != 0 ==> a.filters(px).contains(a.vibrance_filter()),
        a.clarity != 0 ==> a.filters(px).contains(a.clarity_filter(px)),
{
    let c1 = only_if(a.temp != 0, a.temp_filter());
    let p2 = only_if(a.tint != 0, a.tint_filter());
    let c2 = c1 + p2;
    let p3 = only_if(a.exposure != 0, a.exposure_filter());
    let c3 = c2 + p3;
    let p4 = only_if(
        a.contrast != 0 || a.brightness != 0 || a.saturation != 0,
        a.eq_filter(),
    );
    let c4 = c3 + p4;
    let p5 = only_if(a.shadows != 0 || a.whites != 0 || a.blacks != 0, a.curves_filter());
    let c5 = c4 + p5;
    let p6 = only_if(a.vibrance != 0, a.vibrance_filter());
    let c6 = c5 + p6;
    let p7 = only_if(a.clarity != 0, a.clarity_filter(px));
    assert(a.filters(px) == c6 + p7);
    lemma_only_if(a.temp != 0, a.temp_filter());
    lemma_only_if(a.tint != 0, a.tint_filter());
    lemma_only_if(a.exposure != 0, a.exposure_filter());
    lemma_only_if(a.contrast != 0 || a.brightness != 0 || a.saturation != 0, a.eq_filter());
    lemma_only_if(a.shadows != 0 || a.whites != 0 || a.blacks != 0, a.curves_filter());
    lemma_only_if(a.vibrance != 0, a.vibrance_filter());
    lemma_only_if(a.clarity != 0, a.clarity_filter(px));
    lemma_in_sum(c1, p2);
    lemma_in_sum(c2, p3);
    lemma_in_sum(c3, p4);
    lemma_in_sum(c4, p5);
    lemma_in_sum(c5, p6);
    lemma_in_sum(c6, p7);
}

proof fn lemma_only_if(reason: bool, filter: Seq<char>)
    ensures
        reason ==> only_if(reason, filter).contains(filter),
        only_if(reason, filter).len() == count_if(reason),
        forall|v: Seq<char>| #[trigger]
            only_if(reason, filter).contains(v) ==> v == filter && reason,
{
    if reason {
        assert(only_if(reason, filter)[0] == filter);
    }
}

proof fn lemma_in_sum(x: Seq<Seq<char>>, y: Seq<Seq<char>>)
    ensures
        forall|v: Seq<char>|
            #![trigger (x + y).contains(v)]
            #![trigger x.contains(v)]
            #![trigger y.contains(v)]
            x.contains(v) || y.contains(v) ==> (x + y).contains(v),
{
    assert forall|v: Seq<char>| x.contains(v) || y.contains(v) implies #[trigger] (x + y).contains(
        v,
    ) by {
        if x.contains(v) {
            let i = choose|i: int| 0 <= i < x.len() && x[i] == v;
            assert((x + y)[i] == v);
        } else {
            let i = choose|i: int| 0 <= i < y.len() && y[i] == v;
            assert((x + y)[x.len() + i] == v);
        }
    }
}

/// One if there is a reason, and otherwise zero.
pub open spec fn count_if(reason: bool) -> int {
    if reason {
        1
    } else {
        0
    }
}

/// A filter whose adjustments are all zero is not in the list: what is in the list is the
/// filter of an adjustment that is not zero, and there are as many filters as kinds of
/// adjustments that are not zero.
pub proof fn no_filter_without_an_adjustment(a: Adjustments, px: int)
    ensures
        forall|i: int|
            0 <= i < a.filters(px).len() ==> {
                let f = #[trigger] a.filters(px)[i];
                ||| f == a.temp_filter() && a.temp != 0
                ||| f == a.tint_filter() && a.tint != 0
                ||| f == a.exposure_filter() && a.exposure != 0
                ||| f == a.eq_filter() && (a.contrast != 0 || a.brightness != 0 || a.saturation
                    != 0)
                ||| f == a.curves_filter() && (a.shadows != 0 || a.whites != 0 || a.blacks != 0)
                ||| f == a.vibrance_filter() && a.vibrance != 0
                ||| f == a.clarity_filter(px) && a.clarity != 0
            },
        a.filters(px).len() == count_if(a.temp != 0) + count_if(a.tint != 0) + count_if(
            a.exposure != 0,
        ) + count_if(a.contrast != 0 || a.brightness != 0 || a.saturation != 0) + count_if(
            a.shadows != 0 || a.whites != 0 || a.blacks != 0,
        ) + count_if(a.vibrance != 0) + count_if(a.clarity != 0),
{
    let c1 = only_if(a.temp != 0, a.temp_filter());
    let p2 = only_if(a.tint != 0, a.tint_filter());
    let p3 = only_if(a.exposure != 0, a.exposure_filter());
    let eq = a.contrast != 0 || a.brightness != 0 || a.saturation != 0;
    let p4 = only_if(eq, a.eq_filter());
    let tone = a.shadows != 0 || a.whites != 0 || a.blacks != 0;
    let p5 = only_if(tone, a.curves_filter());
    let p6 = only_if(a.vibrance != 0, a.vibrance_filter());
    let p7 = only_if(a.clarity != 0, a.clarity_filter(px));
    let all = a.filters(px);
    assert(all == c1 + p2 + p3 + p4 + p5 + p6 + p7);
    lemma_only_if(a.temp != 0, a.temp_filter());
    lemma_only_if(a.tint != 0, a.tint_filter());
    lemma_only_if(a.exposure != 0, a.exposure_filter());
    lemma_only_if(eq, a.eq_filter());
    lemma_only_if(tone, a.curves_filter());
    lemma_only_if(a.vibrance != 0, a.vibrance_filter());
    lemma_only_if(a.clarity != 0, a.clarity_filter(px));
    assert forall|i: int| 0 <= i < all.len() implies {
        let f = #[trigger] all[i];
        c1.contains(f) || p2.contains(f) || p3.contains(f) || p4.contains(f) || p5.contains(f)
            || p6.contains(f) || p7.contains(f)
    } by {
        let f = all[i];
        assert(all.contains(f));
        lemma_from_sum(c1 + p2 + p3 + p4 + p5 + p6, p7, f);
        lemma_from_sum(c1 + p2 + p3 + p4 + p5, p6, f);
        lemma_from_sum(c1 + p2 + p3 + p4, p5, f);
        lemma_from_sum(c1 + p2 + p3, p4, f);
        lemma_from_sum(c1 + p2, p3, f);
        lemma_from_sum(c1, p2, f);
    }
}

proof fn lemma_from_sum(x: Seq<Seq<char>>, y: Seq<Seq<char>>, v: Seq<char>)
    ensures
        (x + y).contains(v) ==> x.contains(v) || y.contains(v),
{
    if (x + y).contains(v) {
        let i = choose|i: int| 0 <= i < (x + y).len() && (x + y)[i] == v;
        if i < x.len() {
            assert(x[i] == v);
        } else {
            assert(y[i - x.len()] == v);
        }
    }
}

/// Whether a filter has a name, with the sign of equality behind it.
pub open spec fn is_named(filter: Seq<char>, name: Seq<char>) -> bool {
    exists|rest: Seq<char>| filter == #[trigger] (name + seq!['='] + rest)
}

/// The white balance is set by the filter for colour temperatures, to the number of
/// kelvin.
pub proof fn white_balance_is_a_colour_temperature(a: Adjustments)
    ensures
        is_named(a.temp_filter(), "colortemperature"@),
        has_part(a.temp_filter(), "=temperature="@ + dec(a.kelvin() as nat)),
{
    reveal_strlit("colortemperature");
    reveal_strlit("colortemperature=temperature=");
    reveal_strlit("=temperature=");
    reveal_strlit("temperature=");
    let n = dec(a.kelvin() as nat);
    assert(a.temp_filter() =~= "colortemperature"@ + seq!['='] + ("temperature="@ + n));
    assert(a.temp_filter() =~= "colortemperature"@ + ("=temperature="@ + n) + seq![]);
}

/// The tint is a colour balance of the midtones' green.
pub proof fn tint_balances_green(a: Adjustments)
    ensures
        is_named(a.tint_filter(), "colorbalance"@),
        has_part(a.tint_filter(), "=gm="@ + fixed(a.green(), 4)),
{
    reveal_strlit("colorbalance");
    reveal_strlit("colorbalance=gm=");
    reveal_strlit("=gm=");
    reveal_strlit("gm=");
    let n = fixed(a.green(), 4);
    assert(a.tint_filter() =~= "colorbalance"@ + seq!['='] + ("gm="@ + n));
    assert(a.tint_filter() =~= "colorbalance"@ + ("=gm="@ + n) + seq![]);
}

/// The exposure is given in stops.
pub proof fn exposure_is_in_stops(a: Adjustments)
    ensures
        is_named(a.exposure_filter(), "exposure"@),
        has_part(a.exposure_filter(), "=exposure="@ + fixed(a.stops(), 3)),
{
    reveal_strlit("exposure");
    reveal_strlit("exposure=exposure=");
    reveal_strlit("=exposure=");
    reveal_strlit("exposure=");
    let n = fixed(a.stops(), 3);
    assert(a.exposure_filter() =~= "exposure"@ + seq!['='] + ("exposure="@ + n));
    assert(a.exposure_filter() =~= "exposure"@ + ("=exposure="@ + n) + seq![]);
}

/// Contrast, brightness and saturation stand in one filter, each with its own number.
pub proof fn equaliser_has_three_numbers(a: Adjustments)
    ensures
        is_named(a.eq_filter(), "eq"@),
        has_part(a.eq_filter(), "=contrast="@ + fixed(a.contrast_units(), 4) + seq![':']),
        has_part(a.eq_filter(), ":brightness="@ + fixed(a.brightness_units(), 4) + seq![':']),
        has_part(a.eq_filter(), ":saturation="@ + fixed(a.saturation_units(), 4)),
{
    let c = fixed(a.contrast_units(), 4);
    let b = fixed(a.brightness_units(), 4);
    let s = fixed(a.saturation_units(), 4);
    let f = a.eq_filter();
    assert("eq=contrast="@ =~= "eq"@ + seq!['='] + "contrast="@) by {
        reveal_strlit("eq=contrast=");
        reveal_strlit("eq");
        reveal_strlit("contrast=");
    }
    assert("eq=contrast="@ =~= "eq"@ + "=contrast="@) by {
        reveal_strlit("eq=contrast=");
        reveal_strlit("eq");
        reveal_strlit("=contrast=");
    }
    assert(":brightness="@ =~= seq![':'] + "brightness="@) by {
        reveal_strlit(":brightness=");
        reveal_strlit("brightness=");
    }
    assert(":saturation="@ =~= seq![':'] + "saturation="@) by {
        reveal_strlit(":saturation=");
        reveal_strlit("saturation=");
    }
    assert(f =~= "eq"@ + seq!['='] + ("contrast="@ + c + ":brightness="@ + b + ":saturation="@
        + s));
    assert(f =~= "eq"@ + ("=contrast="@ + c + seq![':']) + ("brightness="@ + b + ":saturation="@
        + s));
    assert(f =~= ("eq=contrast="@ + c) + (":brightness="@ + b + seq![':']) + ("saturation="@ + s));
    assert(f =~= ("eq=contrast="@ + c + ":brightness="@ + b) + (":saturation="@ + s) + seq![]);
}

/// Vibrance has an intensity.
pub proof fn vibrance_has_an_intensity(a: Adjustments)
    ensures
        is_named(a.vibrance_filter(), "vibrance"@),
        has_part(a.vibrance_filter(), "=intensity="@ + fixed(a.vibrance_units(), 4)),
{
    reveal_strlit("vibrance");
    reveal_strlit("vibrance=intensity=");
    reveal_strlit("=intensity=");
    reveal_strlit("intensity=");
    let n = fixed(a.vibrance_units(), 4);
    assert(a.vibrance_filter() =~= "vibrance"@ + seq!['='] + ("intensity="@ + n));
    assert(a.vibrance_filter() =~= "vibrance"@ + ("=intensity="@ + n) + seq![]);
}

/// Clarity is an unsharp mask of the brightness, as wide as it is high.
pub proof fn clarity_is_a_square_mask(a: Adjustments, px: int)
    ensures
        is_named(a.clarity_filter(px), "unsharp"@),
        has_part(
            a.clarity_filter(px),
            "=luma_msize_x="@ + dec(mask_size(px) as nat) + seq![':'],
        ),
        has_part(
            a.clarity_filter(px),
            ":luma_msize_y="@ + dec(mask_size(px) as nat) + seq![':'],
        ),
        has_part(a.clarity_filter(px), ":luma_amount="@ + fixed(a.clarity_units(), 4)),
        px <= 3 ==> mask_size(px) == 3,
        px >= 23 ==> mask_size(px) == 23,
        3 <= px <= 23 ==> px <= mask_size(px) <= px + 1,
        mask_size(px) % 2 == 1,
{
    let m = dec(mask_size(px) as nat);
    let u = fixed(a.clarity_units(), 4);
    let f = a.clarity_filter(px);
    assert("unsharp=luma_msize_x="@ =~= "unsharp"@ + seq!['='] + "luma_msize_x="@) by {
        reveal_strlit("unsharp=luma_msize_x=");
        reveal_strlit("unsharp");
        reveal_strlit("luma_msize_x=");
    }
    assert("unsharp=luma_msize_x="@ =~= "unsharp"@ + "=luma_msize_x="@) by {
        reveal_strlit("unsharp=luma_msize_x=");
        reveal_strlit("unsharp");
        reveal_strlit("=luma_msize_x=");
    }
    assert(":luma_msize_y="@ =~= seq![':'] + "luma_msize_y="@) by {
        reveal_strlit(":luma_msize_y=");
        reveal_strlit("luma_msize_y=");
    }
    assert(":luma_amount="@ =~= seq![':'] + "luma_amount="@) by {
        reveal_strlit(":luma_amount=");
        reveal_strlit("luma_amount=");
    }
    assert(f =~= "unsharp"@ + seq!['='] + ("luma_msize_x="@ + m + ":luma_msize_y="@ + m
        + ":luma_amount="@ + u));
    assert(f =~= "unsharp"@ + ("=luma_msize_x="@ + m + seq![':']) + ("luma_msize_y="@ + m
        + ":luma_amount="@ + u));
    assert(f =~= ("unsharp=luma_msize_x="@ + m) + (":luma_msize_y="@ + m + seq![':']) + (
    "luma_amount="@ + u));
    assert(f =~= ("unsharp=luma_msize_x="@ + m + ":luma_msize_y="@ + m) + (":luma_amount="@ + u)
        + seq![]);
}

/// The tone curve is given for all colours, by its points from dark to bright with
/// spaces between them; each point is the brightness that goes in, a slash and the one
/// that comes out.
pub proof fn tone_curve_lists_its_points(a: Adjustments)
    ensures
        is_named(a.curves_filter(), "curves"@),
        exists|points: Seq<Seq<char>>|
            {
                &&& #[trigger] points.len() == a.curve().len()
                &&& forall|i: int|
                    0 <= i < points.len() ==> #[trigger] points[i] == fixed(a.curve()[i].0, 4)
                        + seq!['/'] + fixed(a.curve()[i].1, 4)
                &&& a.curves_filter() == "curves=all='"@ + joined(points, " "@) + "'"@
            },
{
    let points = a.curve().map_values(|p: (int, int)| curve_point(p.0, p.1));
    assert(points.len() == a.curve().len());
    assert("curves=all='"@ =~= "curves"@ + seq!['='] + "all='"@) by {
        reveal_strlit("curves=all='");
        reveal_strlit("curves");
        reveal_strlit("all='");
    }
    assert(a.curves_filter() =~= "curves"@ + seq!['='] + ("all='"@ + joined(points, " "@) + "'"@));
}

/// Whether a slider moves a number by equal steps: the number at zero is `rest`, and each
/// step of the slider moves it by `step`.
pub open spec fn moves_by(slider: int, number: int, rest: int, step: int) -> bool {
    number - rest == step * slider
}

/// The sliders move the numbers of their filters by equal steps, each from the number
/// that changes nothing: towards cold (more kelvin) or warm, towards green or magenta,
/// darker or brighter, flatter or fuller.
pub proof fn sliders_move_by_equal_steps(a: Adjustments)
    ensures
        in_range(a) ==> moves_by(a.temp as int, a.kelvin(), 6500, -35),
        moves_by(a.tint as int, a.green(), 0, -30),
        moves_by(a.exposure as int, a.stops(), 0, 30),
        moves_by(a.contrast as int, a.contrast_units(), 10000, 80),
        moves_by(a.brightness as int, a.brightness_units(), 0, 40),
        in_range(a) ==> moves_by(a.saturation as int, a.saturation_units(), 10000, 100),
        moves_by(a.vibrance as int, a.vibrance_units(), 0, 200),
        moves_by(a.clarity as int, a.clarity_units(), 0, 150),
{
    let v = a.values_spec();
    if in_range(a) {
        assert(-100 <= v[0] <= 100);
        assert(-100 <= v[10] <= 100);
    }
}

/// Between two settings a number moves with its own slider and with no other: more
/// temperature is less kelvin, more tint less green, and more of anything else more of
/// it.
pub proof fn numbers_follow_their_own_sliders(a: Adjustments, b: Adjustments)
    requires
        in_range(a),
        in_range(b),
    ensures
        a.temp < b.temp <==> a.kelvin() > b.kelvin(),
        a.tint < b.tint <==> a.green() > b.green(),
        a.exposure < b.exposure <==> a.stops() < b.stops(),
        a.contrast < b.contrast <==> a.contrast_units() < b.contrast_units(),
        a.brightness < b.brightness <==> a.brightness_units() < b.brightness_units(),
        a.saturation < b.saturation <==> a.saturation_units() < b.saturation_units(),
        a.vibrance < b.vibrance <==> a.vibrance_units() < b.vibrance_units(),
        a.clarity < b.clarity <==> a.clarity_units() < b.clarity_units(),
{
    sliders_move_by_equal_steps(a);
    sliders_move_by_equal_steps(b);
}

/// Numbers far out of range stop where the filters stop: the white balance between 1000
/// and 40000 kelvin, and the saturation at zero.
pub proof fn numbers_out_of_range_stop(a: Adjustments)
    ensures
        1000 <= a.kelvin() <= 40000,
        1000 < a.kelvin() < 40000 ==> moves_by(a.temp as int, a.kelvin(), 6500, -35),
        a.kelvin() == 1000 ==> 35 * a.temp >= 5500,
        a.kelvin() == 40000 ==> 35 * a.temp <= -33500,
        0 <= a.saturation_units(),
        0 < a.saturation_units() ==> moves_by(
            a.saturation as int,
            a.saturation_units(),
            10000,
            100,
        ),
        a.saturation_units() == 0 ==> a.saturation <= -100,
{
}

/// The tone curve has only the points that its sliders ask for: black and white stand at
/// its ends, lifted blacks raise the dark end and lowered blacks cut off what is dark,
/// shadows bend the curve at a quarter of the brightness but not out of the square, raised
/// whites cut off what is bright and lowered whites lower the bright end.
pub proof fn tone_curve_bends_where_its_sliders_say(a: Adjustments, y: int)
    requires
        0 <= y <= 10000,
        0 <= 2500 + 15 * a.shadows <= 10000 ==> y == 2500 + 15 * a.shadows,
        2500 + 15 * a.shadows < 0 ==> y == 0,
        2500 + 15 * a.shadows > 10000 ==> y == 10000,
    ensures
        a.curve()[0] == (0int, if a.blacks > 0 {
            15 * a.blacks
        } else {
            0
        }),
        a.blacks < 0 ==> a.curve()[1] == (-12 * a.blacks, 0int),
        a.shadows != 0 ==> a.curve().contains((2500int, y)),
        a.whites > 0 ==> a.curve()[a.curve().len() - 2] == (10000 - 15 * a.whites, 10000int),
        a.curve().last() == (10000int, if a.whites < 0 {
            10000 + 15 * a.whites
        } else {
            10000
        }),
        a.curve().len() == 2 + count_if(a.blacks < 0) + count_if(a.shadows != 0) + count_if(
            a.whites > 0,
        ),
{
    let c = a.curve();
    assert(c[0] == (0int, if a.blacks > 0 {
        15 * a.blacks
    } else {
        0
    }));
    if a.blacks < 0 {
        assert(c[1] == (-12 * a.blacks, 0int));
    }
    let n = 1 + count_if(a.blacks < 0);
    if a.shadows != 0 {
        assert(c[n] == (2500int, y));
    }
    if a.whites > 0 {
        assert(c[c.len() - 2] == (10000 - 15 * a.whites, 10000int));
    }
    assert(c[c.len() - 1] == (10000int, if a.whites < 0 {
        10000 + 15 * a.whites
    } else {
        10000
    }));
}

/// The filters stand in a fixed order, from the white balance to the local contrast:
/// the filter of each kind stands behind those of the kinds before it.
pub proof fn filters_stand_in_order(a: Adjustments, px: int)
    ensures
        a.filters(px) == (Adjustments { clarity: 0, ..a }).filters(px) + only_if(
            a.clarity != 0,
            a.clarity_filter(px),
        ),
        a.clarity == 0 ==> a.filters(px) == (Adjustments { vibrance: 0, ..a }).filters(px)
            + only_if(a.vibrance != 0, a.vibrance_filter()),
        a.clarity == 0 && a.vibrance == 0 ==> a.filters(px) == (Adjustments { shadows: 0,
            whites: 0, blacks: 0, ..a }).filters(px) + only_if(
            a.shadows != 0 || a.whites != 0 || a.blacks != 0,
            a.curves_filter(),
        ),
        a.clarity == 0 && a.vibrance == 0 && a.shadows == 0 && a.whites == 0 && a.blacks == 0
            ==> a.filters(px) == (Adjustments { contrast: 0, brightness: 0, saturation: 0, ..a
        }).filters(px) + only_if(
            a.contrast != 0 || a.brightness != 0 || a.saturation != 0,
            a.eq_filter(),
        ),
        a.clarity == 0 && a.vibrance == 0 && a.shadows == 0 && a.whites == 0 && a.blacks == 0
            && a.contrast == 0 && a.brightness == 0 && a.saturation == 0 ==> a.filters(px)
            == only_if(a.temp != 0, a.temp_filter()) + only_if(a.tint != 0, a.tint_filter())
            + only_if(a.exposure != 0, a.exposure_filter()),
{
    let none = Seq::<Seq<char>>::empty();
    let x3 = only_if(a.temp != 0, a.temp_filter()) + only_if(a.tint != 0, a.tint_filter())
        + only_if(a.exposure != 0, a.exposure_filter());
    let x4 = x3 + only_if(
        a.contrast != 0 || a.brightness != 0 || a.saturation != 0,
        a.eq_filter(),
    );
    let x5 = x4 + only_if(a.shadows != 0 || a.whites != 0 || a.blacks != 0, a.curves_filter());
    let x6 = x5 + only_if(a.vibrance != 0, a.vibrance_filter());
    assert(x3 + none =~= x3);
    assert(x4 + none =~= x4);
    assert(x5 + none =~= x5);
    assert(x6 + none =~= x6);
    assert((Adjustments { clarity: 0, ..a }).filters(px) == x6 + none);
    if a.clarity == 0 {
        assert((Adjustments { vibrance: 0, ..a }).filters(px) == x5 + none + none);
    }
    if a.clarity == 0 && a.vibrance == 0 {
        let b = Adjustments { shadows: 0, whites: 0, blacks: 0, ..a };
        assert(b.filters(px) == x4 + none + none + none);
        if a.shadows == 0 && a.whites == 0 && a.blacks == 0 {
            let c = Adjustments { contrast: 0, brightness: 0, saturation: 0, ..a };
            assert(c.filters(px) == x3 + none + none + none + none);
        }
    }
}

proof fn lemma_joined_is_not_empty(parts: Seq<Seq<char>>, sep: Seq<char>)
    requires
        parts.len() > 0,
        parts.last().len() > 0,
    ensures
        joined(parts, sep).len() > 0,
{
}

/// Adjustments that change something give a chain that is not empty, and it is made of
/// the filters with commas between them; neutral adjustments give none.
pub proof fn only_neutral_adjustments_have_no_chain(a: Adjustments, px: int)
    ensures
        a.chain(px) is None <==> a == neutral(),
        a.chain(px) matches Some(c) ==> c.len() > 0 && a.filters(px).len() > 0 && c == joined(
            a.filters(px),
            ","@,
        ),
{
    if a != neutral() {
        no_filter_without_an_adjustment(a, px);
        let f = a.filters(px);
        let last = f[f.len() - 1];
        white_balance_is_a_colour_temperature(a);
        tint_balances_green(a);
        exposure_is_in_stops(a);
        equaliser_has_three_numbers(a);
        tone_curve_lists_its_points(a);
        vibrance_has_an_intensity(a);
        clarity_is_a_square_mask(a, px);
        lemma_joined_is_not_empty(f, ","@);
    }
}

/// Neutral adjustments are those whose every value is zero.
pub proof fn neutral_means_zero(a: Adjustments)
    ensures
        a == neutral() <==> (forall|i: int| 0 <= i < 11 ==> #[trigger] a.values_spec()[i] == 0),
        a.values_spec().len() == 11,
{
    let v = a.values_spec();
    assert(v[0] == a.temp && v[1] == a.tint && v[2] == a.exposure && v[3] == a.contrast && v[4]
        == a.brightness && v[5] == a.shadows && v[6] == a.whites && v[7] == a.blacks && v[8]
        == a.clarity && v[9] == a.vibrance && v[10] == a.saturation);
}

/// Clamping moves each value to the nearest one in range.
pub proof fn clamping_moves_to_the_nearest(a: Adjustments, i: int, other: int)
    requires
        0 <= i < 11,
        -100 <= other <= 100,
    ensures
        ({
            let v = a.values_spec()[i] as int;
            let c = a.clamped_spec().values_spec()[i] as int;
            &&& -100 <= c <= 100
            &&& (v <= c <= other || v >= c >= other || v == c)
        }),
{
    assert(a.clamped_spec().values_spec()[i] == crate::adjust::clamp_int(
        a.values_spec()[i] as int,
        -100,
        100,
    ));
}

/// The values stand in the order of the sliders, and are written back to where they were
/// read from.
pub proof fn values_stand_in_the_order_of_the_sliders(a: &Adjustments, r: [i32; 11])
    requires
        call_ensures(Adjustments::values, (a,), r),
    ensures
        r@[0] == a.temp && r@[1] == a.tint && r@[2] == a.exposure && r@[3] == a.contrast && r@[4]
            == a.brightness && r@[5] == a.shadows && r@[6] == a.whites && r@[7] == a.blacks && r@[8]
            == a.clarity && r@[9] == a.vibrance && r@[10] == a.saturation,
        r@ == a.values_spec(),
{
}

} // verus!
