//! What windows, blocks, previews and regions of pictures have in common.

use crate::canvas::canvas;
use crate::dehaze::{colors_in, free_slot, settled_region, without_slot, Region};
use crate::graph_laws::begins;
use crate::options::{menu_resolutions, H264Encoder, Resolution};
use crate::planes::{
    beats, block_of, max_filter, min_downsample, min_filter, window_from, window_to, Plane,
    Shrinking,
};
use crate::scalar::{one, zero};
use crate::text::{dec, has_part};
use vstd::prelude::*;

verus! {

/// The window around a place holds exactly the places of the line that are no farther
/// away than the radius.
pub proof fn window_reaches_as_far_as_the_radius(x: int, r: int, n: int, i: int)
    requires
        0 <= x < n,
        0 <= r,
    ensures
        window_from(x, r) <= i <= window_to(x, r, n) <==> 0 <= i < n && -r <= i - x <= r,
        window_from(x, r) <= x <= window_to(x, r, n),
{
}

/// Of two values the greater one, or the lesser one, is the better; an equal one is as
/// good.
pub proof fn better_values_are_ordered(a: i32, b: i32, c: i32, max: bool)
    ensures
        beats(a, a, max),
        beats(a, b, max) || beats(b, a, max),
        beats(a, b, max) && beats(b, a, max) ==> a == b,
        beats(a, b, max) && beats(b, c, max) ==> beats(a, c, max),
        a > b ==> beats(a, b, true) && !beats(a, b, false),
{
}

/// The blocks divide a line evenly and from left to right: each place is in the block
/// that its part of the line falls into.
pub proof fn blocks_divide_evenly(x: int, y: int, n: int, blocks: int)
    requires
        0 <= x <= y < n,
        1 <= blocks,
    ensures
        0 <= block_of(x, n, blocks) < blocks,
        block_of(x, n, blocks) <= block_of(y, n, blocks),
        block_of(0, n, blocks) == 0,
        block_of(x, n, blocks) * n <= x * blocks < (block_of(x, n, blocks) + 1) * n,
{
    assert(0 <= x * blocks / n && x * blocks / n < blocks && x * blocks / n * n <= x * blocks
        && x * blocks < (x * blocks / n + 1) * n) by (nonlinear_arith)
        requires
            0 <= x < n,
            1 <= blocks,
    ;
    assert(x * blocks / n <= y * blocks / n) by (nonlinear_arith)
        requires
            0 <= x <= y < n,
            1 <= blocks,
    ;
    assert(0 * blocks / n == 0) by (nonlinear_arith)
        requires
            n > 0,
    ;
}

/// A video that is turned on its side has a preview that is turned on its side.
pub proof fn preview_turns_with_the_video(w: u32, h: u32)
    ensures
        canvas(Resolution { w: h, h: w }) == (canvas(Resolution { w, h }).1, canvas(
            Resolution { w, h },
        ).0),
{
}

/// The label of a size names its width and its height.
pub proof fn labels_name_their_size(r: Resolution)
    requires
        r.w != 0 || r.h != 0,
    ensures
        has_part(r.label_spec(), dec(r.w as nat) + " × "@ + dec(r.h as nat)),
{
    let none = Seq::<char>::empty();
    let x = " × "@;
    let l = r.label_spec();
    reveal_strlit(" × ");
    reveal_with_fuel(dec, 5);
    if r.w == 1280 && r.h == 720 {
        reveal_strlit("HD 1280 × 720");
        assert(l =~= l.take(3) + (dec(1280) + x + dec(720)) + none);
    } else if r.w == 1920 && r.h == 1080 {
        reveal_strlit("Full HD 1920 × 1080");
        assert(l =~= l.take(8) + (dec(1920) + x + dec(1080)) + none);
    } else if r.w == 2560 && r.h == 1440 {
        reveal_strlit("2K 2560 × 1440");
        assert(l =~= l.take(3) + (dec(2560) + x + dec(1440)) + none);
    } else if r.w == 3840 && r.h == 2160 {
        reveal_strlit("4K 3840 × 2160");
        assert(l =~= l.take(3) + (dec(3840) + x + dec(2160)) + none);
    } else {
        assert(l =~= none + (dec(r.w as nat) + x + dec(r.h as nat)) + none);
    }
}

/// A size of the menu is found there, and any other becomes full HD.
pub proof fn menu_sizes_are_found(i: int, w: u32, h: u32)
    ensures
        0 <= i < menu_resolutions().len() ==> Resolution::from_menu_spec(
            menu_resolutions()[i].w,
            menu_resolutions()[i].h,
        ) == menu_resolutions()[i],
        menu_resolutions().contains(Resolution::from_menu_spec(w, h)),
        !menu_resolutions().contains(Resolution { w, h }) ==> Resolution::from_menu_spec(w, h)
            == (Resolution { w: 1920, h: 1080 }),
{
    assert(menu_resolutions()[1] == (Resolution { w: 1920, h: 1080 }));
}

/// Each encoder makes ffmpeg use the one that it is named for, and hardware is told
/// apart from software.
pub proof fn encoders_are_named(e: H264Encoder)
    ensures
        e.codec_args_spec()[0] == "-c:v"@,
        begins(e.codec_args_spec()[1], if e == H264Encoder::Software {
            "libx264"@
        } else {
            "h264_"@
        }),
        e.codec_args_spec().len() % 2 == 0,
        e == H264Encoder::Software <==> begins(e.display_name_spec(), "libx264"@),
{
    let none = Seq::<char>::empty();
    reveal_strlit("libx264");
    reveal_strlit("h264_");
    reveal_strlit("h264_nvenc");
    reveal_strlit("h264_qsv");
    reveal_strlit("h264_amf");
    reveal_strlit("libx264（軟體）");
    reveal_strlit("NVIDIA NVENC（硬體加速）");
    reveal_strlit("Intel Quick Sync（硬體加速）");
    reveal_strlit("AMD AMF（硬體加速）");
    let a = e.codec_args_spec()[1];
    let d = e.display_name_spec();
    match e {
        H264Encoder::Software => {
            assert(a =~= "libx264"@ + none);
            assert(d =~= "libx264"@ + d.skip(7));
        },
        _ => {
            assert(a =~= "h264_"@ + a.skip(5));
            if begins(d, "libx264"@) {
                let rest = choose|rest: Seq<char>| d == #[trigger] ("libx264"@ + rest);
                assert(d[0] == "libx264"@[0]);
                assert("libx264"@[0] == 'l');
            }
        },
    }
}

/// A region counts with its corners in order, exactly if it is more than a line.
pub proof fn regions_count_in_order(r: Region)
    ensures
        settled_region(None) is None,
        r.normal().usable() ==> settled_region(Some(r)) == Some(r.normal()),
        !r.normal().usable() ==> settled_region(Some(r)) is None,
{
}

/// The first free place is taken: all places before it are taken, and without one there
/// is none.
pub proof fn first_free_place_is_taken(slots: Seq<Option<[u8; 3]>>, i: int, k: int)
    requires
        0 <= i <= slots.len(),
    ensures
        i <= k < slots.len() && slots[k] is None && (forall|j: int|
            i <= j < k ==> #[trigger] slots[j] is Some) ==> free_slot(slots, i) == Some(k),
        (forall|j: int| i <= j < slots.len() ==> #[trigger] slots[j] is Some) ==> free_slot(
            slots,
            i,
        ) is None,
    decreases slots.len() - i,
{
    if i < slots.len() && slots[i] is Some {
        first_free_place_is_taken(slots, i + 1, k);
    }
}

/// The protected colours are listed with their places, in order.
pub proof fn protected_colours_keep_their_places(slots: Seq<Option<[u8; 3]>>, n: int)
    requires
        0 <= n <= slots.len() <= usize::MAX,
    ensures
        forall|i: int|
            0 <= i < colors_in(slots, n).len() ==> {
                let c = #[trigger] colors_in(slots, n)[i];
                c.0 < n && slots[c.0 as int] == Some(c.1)
            },
        forall|k: int|
            0 <= k < n && #[trigger] slots[k] is Some ==> colors_in(slots, n).contains(
                (k as usize, slots[k]->0),
            ),
        forall|i: int, j: int|
            0 <= i < j < colors_in(slots, n).len() ==> (#[trigger] colors_in(slots, n)[i]).0 < (
            #[trigger] colors_in(slots, n)[j]).0,
    decreases n,
{
    if n > 0 {
        protected_colours_keep_their_places(slots, n - 1);
        let before = colors_in(slots, n - 1);
        let all = colors_in(slots, n);
        assert forall|k: int| 0 <= k < n && #[trigger] slots[k] is Some implies all.contains(
            (k as usize, slots[k]->0),
        ) by {
            let v = (k as usize, slots[k]->0);
            if k < n - 1 {
                assert(before.contains(v));
                let i = choose|i: int| 0 <= i < before.len() && before[i] == v;
                assert(all[i] == v);
            } else {
                assert(all[all.len() - 1] == v);
            }
        }
        assert forall|i: int, j: int| 0 <= i < j < all.len() implies (#[trigger] all[i]).0 < (
        #[trigger] all[j]).0 by {
            assert(all[i] == before[i]);
            if j < before.len() {
                assert(all[j] == before[j]);
            }
        }
    }
}

/// Taking a colour away moves those behind it up and frees the last place.
pub proof fn removed_colour_closes_the_gap(slots: Seq<Option<[u8; 3]>>, i: int, k: int)
    requires
        0 <= i < slots.len(),
    ensures
        without_slot(slots, i).len() == slots.len(),
        without_slot(slots, i).last() is None,
        0 <= k < i ==> without_slot(slots, i)[k] == slots[k],
        i <= k < slots.len() - 1 ==> without_slot(slots, i)[k] == slots[k + 1],
{
}

/// A region that is drawn from its upper left corner to its lower right one within the
/// photo stays as it is.
pub proof fn region_in_order_stays(r: Region)
    requires
        r.x0.within(zero(), one()) && r.y0.within(zero(), one()),
        r.x1.within(zero(), one()) && r.y1.within(zero(), one()),
        r.x0.below(r.x1) && r.y0.below(r.y1),
    ensures
        r.normal() == r,
{
}

/// The least filter gives each pixel the least of the values no farther away than the
/// radius in either direction, and the greatest filter the greatest.
pub proof fn filters_give_the_extremes(
    p: &Plane,
    r: usize,
    low: Plane,
    high: Plane,
    x: int,
    y: int,
    i: int,
    j: int,
)
    requires
        p.wf(),
        call_ensures(min_filter, (p, r), low),
        call_ensures(max_filter, (p, r), high),
        0 <= x < p.w && 0 <= y < p.h,
        0 <= i < p.w && 0 <= j < p.h,
        -r <= i - x <= r && -r <= j - y <= r,
    ensures
        low.w == p.w && low.h == p.h && high.w == p.w && high.h == p.h,
        low.at(x, y) <= p.at(i, j) <= high.at(x, y),
        exists|a: int, b: int|
            0 <= a < p.w && 0 <= b < p.h && -r <= a - x <= r && -r <= b - y <= r && #[trigger] p.at(
                a,
                b,
            ) == low.at(x, y),
        exists|a: int, b: int|
            0 <= a < p.w && 0 <= b < p.h && -r <= a - x <= r && -r <= b - y <= r && #[trigger] p.at(
                a,
                b,
            ) == high.at(x, y),
{
    let x0 = window_from(x, r as int);
    let x1 = window_to(x, r as int, p.w as int);
    let y0 = window_from(y, r as int);
    let y1 = window_to(y, r as int, p.h as int);
    assert(p.best_in(x0, x1, y0, y1, low.at(x, y), false));
    assert(p.best_in(x0, x1, y0, y1, high.at(x, y), true));
    assert(beats(low.at(x, y), p.at(i, j), false));
    assert(beats(high.at(x, y), p.at(i, j), true));
}

/// A picture that is made smaller by the least value holds, for each block, no value
/// above any pixel of the block.
pub proof fn smaller_picture_holds_the_least(
    px: &Vec<u8>,
    w: usize,
    h: usize,
    to_w: usize,
    to_h: usize,
    out: Vec<u8>,
    x: int,
    y: int,
)
    requires
        px@.len() == w * h,
        1 <= to_w,
        1 <= to_h,
        call_ensures(min_downsample, (px, w, h, to_w, to_h), out),
        0 <= x < w && 0 <= y < h,
    ensures
        ({
            let bx = block_of(x, w as int, to_w as int);
            let by = block_of(y, h as int, to_h as int);
            out@[by * to_w + bx] <= px@[y * w + x]
        }),
{
    let bx = block_of(x, w as int, to_w as int);
    let by = block_of(y, h as int, to_h as int);
    blocks_divide_evenly(x, x, w as int, to_w as int);
    blocks_divide_evenly(y, y, h as int, to_h as int);
    let s = Shrinking { w: w as int, h: h as int, to_w: to_w as int, to_h: to_h as int };
    assert(s.is_least(px@, 0, h as int, bx, by, out[by * to_w + bx]));
    assert(s.in_block(x, y, bx, by));
    assert(out[by * to_w + bx] <= px@[y * s.w + x]);
}

} // verus!
