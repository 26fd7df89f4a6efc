//! What the filters of a video and of its preview have in common.

use crate::adjust::{neutral, Adjustments};
use crate::drawtext::{between, LookView};
use crate::graph::{
    any_turned, centred_layer, chain_of, ending, file_line, graph_of, graph_step, graph_steps, is_turned,
    is_upright, leading, music, pad, pair, photo_list, picture, plain_layer, plain_layers,
    preview_chain, scale, single_photo, timed_files, zoom, CanvasView, LayerView, Motion,
};
use crate::options::{Resolution, Transition};
use crate::scalar::Scalar;
use crate::text::{dec, fixed, has_part};
use crate::timing::{frames_for, Duration};
use vstd::prelude::*;

verus! {

/// Whether a text begins with another one.
pub open spec fn begins(s: Seq<char>, t: Seq<char>) -> bool {
    exists|rest: Seq<char>| s == #[trigger] (t + rest)
}

/// Whether a text ends with another one.
pub open spec fn ends(s: Seq<char>, t: Seq<char>) -> bool {
    exists|before: Seq<char>| s == #[trigger] (before + t)
}

/// A video in which nothing moves: one photo after the other.
pub open spec fn at_rest() -> Motion {
    Motion { transition: Transition::Cut, ken_burns: false, avi_music: false }
}

/// The adjustments that all photos get stand between the scaling and the black bars:
/// they reach every pixel of the photo, and the bars stay black.
pub proof fn adjustments_stand_between_scaling_and_bars(
    a: Adjustments,
    res: Resolution,
    motion: Motion,
    fps: u32,
)
    ensures
        a != neutral() ==> (a.chain(13) matches Some(c) && begins(
            picture(Some(a), res, motion, fps),
            scale(res.w, res.h) + seq![','] + c + seq![','] + pad(res.w, res.h),
        )),
        a != neutral() && !motion.animated() ==> (a.chain(13) matches Some(c) && picture(
            Some(a),
            res,
            motion,
            fps,
        ) == scale(res.w, res.h) + seq![','] + c + seq![','] + pad(res.w, res.h)),
        picture(Some(neutral()), res, motion, fps) == picture(None, res, motion, fps),
        begins(picture(None, res, motion, fps), scale(res.w, res.h) + seq![','] + pad(res.w, res.h)),
        !motion.animated() ==> picture(None, res, motion, fps) == scale(res.w, res.h) + seq![',']
            + pad(res.w, res.h),
{
    reveal_strlit(",");
    assert(","@ =~= seq![',']);
    let s = scale(res.w, res.h);
    let p = pad(res.w, res.h);
    let tail = if motion.ken_burns {
        zoom(frames_for(fps as int), res.w, res.h)
    } else if motion.animated() {
        ",fps=30"@
    } else {
        seq![]
    };
    assert(leading(None) + p =~= p);
    assert(s + seq![','] + p + Seq::<char>::empty() =~= s + seq![','] + p);
    assert(picture(None, res, motion, fps) =~= (s + seq![','] + p) + tail);
    assert(picture(Some(neutral()), res, motion, fps) == picture(None, res, motion, fps));
    if a != neutral() {
        let c = a.chain(13)->0;
        assert(picture(Some(a), res, motion, fps) =~= (s + seq![','] + c + seq![','] + p) + tail);
    }
}

/// What moves is added behind the pictures at rest: the slow movement over each photo if
/// it is wanted, or else more frames if anything changes within the time of a photo.
pub proof fn movement_is_added_behind(
    adj: Option<Adjustments>,
    res: Resolution,
    motion: Motion,
    fps: u32,
)
    ensures
        motion.animated() <==> motion.ken_burns || motion.avi_music || motion.transition
            != Transition::Cut,
        motion.ken_burns ==> picture(adj, res, motion, fps) == picture(adj, res, at_rest(), fps)
            + zoom(frames_for(fps as int), res.w, res.h),
        motion.animated() && !motion.ken_burns ==> picture(adj, res, motion, fps) == picture(
            adj,
            res,
            at_rest(),
            fps,
        ) + ",fps=30"@,
        !motion.animated() ==> picture(adj, res, motion, fps) == picture(adj, res, at_rest(), fps),
        motion.out_fps(fps) == (if motion.animated() {
            30
        } else {
            fps
        }),
{
    let still = picture(adj, res, at_rest(), fps);
    assert(still + Seq::<char>::empty() =~= still);
    let chain = match adj {
        Some(a) => a.chain(13),
        None => None,
    };
    let s = scale(res.w, res.h) + ","@ + (leading(chain) + pad(res.w, res.h));
    assert(s + Seq::<char>::empty() =~= s);
}

/// The preview of a photo at the size of the video has the filters of the video. A photo
/// that was scaled down before needs all of them but the scaling.
pub proof fn preview_shows_what_the_video_shows(a: Adjustments, px: int, res: Resolution, fps: u32)
    ensures
        preview_chain(a, 13, res.w, res.h, false) == picture(Some(a), res, at_rest(), fps),
        preview_chain(a, px, res.w, res.h, false) == scale(res.w, res.h) + seq![',']
            + preview_chain(a, px, res.w, res.h, true),
        a == neutral() ==> preview_chain(a, px, res.w, res.h, true) == pad(res.w, res.h),
        a != neutral() ==> (a.chain(px) matches Some(c) && preview_chain(
            a,
            px,
            res.w,
            res.h,
            true,
        ) == c + seq![','] + pad(res.w, res.h)),
{
    reveal_strlit(",");
    assert(","@ =~= seq![',']);
    assert(leading(None) + pad(res.w, res.h) =~= pad(res.w, res.h));
    let p = picture(Some(a), res, at_rest(), fps);
    assert(p =~= preview_chain(a, 13, res.w, res.h, false));
    if a != neutral() {
        let c = a.chain(px)->0;
        assert(c + ","@ + pad(res.w, res.h) == c + seq![','] + pad(res.w, res.h));
    }
}

/// A photo that is adjusted on its own beforehand looks as if it were adjusted in the
/// video: its filters and the black bars together are those of the video.
pub proof fn adjusting_beforehand_changes_nothing(a: Adjustments, res: Resolution, fps: u32)
    ensures
        single_photo(a, res.w, res.h) + seq![','] + pad(res.w, res.h) == picture(
            Some(a),
            res,
            at_rest(),
            fps,
        ),
        begins(single_photo(a, res.w, res.h), scale(res.w, res.h)),
{
    reveal_strlit(",");
    assert(","@ =~= seq![',']);
    let s = scale(res.w, res.h);
    let p = pad(res.w, res.h);
    assert(leading(None) + p =~= p);
    let pic = picture(Some(a), res, at_rest(), fps);
    if a == neutral() {
        assert(single_photo(a, res.w, res.h) =~= s + Seq::<char>::empty());
        assert(pic =~= single_photo(a, res.w, res.h) + seq![','] + p);
    } else {
        let c = a.chain(13)->0;
        assert(single_photo(a, res.w, res.h) =~= s + (","@ + c));
        assert(pic =~= single_photo(a, res.w, res.h) + seq![','] + p);
    }
}

/// Scaling gives the width first and keeps the shape of the photo; the bars fill up to
/// the same size, are black, and are as wide on one side as on the other.
pub proof fn scaling_keeps_the_shape(w: u32, h: u32)
    ensures
        scale(w, h) == "scale="@ + dec(w as nat) + seq![':'] + dec(h as nat)
            + ":force_original_aspect_ratio=decrease"@,
        pad(w, h) == "pad="@ + dec(w as nat) + seq![':'] + dec(h as nat)
            + ":(ow-iw)/2:(oh-ih)/2:color=black"@,
{
    reveal_strlit(":");
    assert(":"@ =~= seq![':']);
    assert(scale(w, h) =~= "scale="@ + dec(w as nat) + seq![':'] + dec(h as nat)
        + ":force_original_aspect_ratio=decrease"@);
    assert(pad(w, h) =~= "pad="@ + dec(w as nat) + seq![':'] + dec(h as nat)
        + ":(ow-iw)/2:(oh-ih)/2:color=black"@);
}

/// The movement over a photo takes as many frames as the photo is shown, keeps the size
/// of the video, and goes out from the middle: nearer over one photo, farther over the
/// next, from edge to edge of its frames.
pub proof fn movement_lasts_as_long_as_the_photo(d: int, w: u32, h: u32)
    requires
        d >= 1,
    ensures
        begins(zoom(d, w, h), ",zoompan=z='if(mod(floor(on/"@ + dec(d as nat) + "),2),"@),
        has_part(
            zoom(d, w, h),
            ",1.081-0.08*min(mod(on,"@ + dec(d as nat) + ")/"@ + dec(
                if d == 1 {
                    1
                } else {
                    (d - 1) as nat
                },
            ) + ",1),1.001+0.08*min(mod(on,"@ + dec(d as nat) + ")/"@ + dec(
                if d == 1 {
                    1
                } else {
                    (d - 1) as nat
                },
            ) + ",1))'"@,
        ),
        ends(
            zoom(d, w, h),
            ":x='iw/2-(iw/zoom/2)':y='ih/2-(ih/zoom/2)':d="@ + dec(d as nat) + ":s="@ + dec(
                w as nat,
            ) + seq!['x'] + dec(h as nat) + ":fps=30"@,
        ),
{
    broadcast use crate::text::following_texts_go_together;

    let n = dec(d as nat);
    let m = dec(if d == 1 {
        1
    } else {
        (d - 1) as nat
    });
    let lead = ",zoompan=z='if(mod(floor(on/"@;
    let mid = "),2),1.081-0.08*min(mod(on,"@;
    let turn = ",1),1.001+0.08*min(mod(on,"@;
    let last = ",1))':x='iw/2-(iw/zoom/2)':y='ih/2-(ih/zoom/2)':d="@;
    let size = pair(w, "x"@, h);
    assert(mid =~= "),2),"@ + "1.081-0.08*min(mod(on,"@) by {
        reveal_strlit("),2),1.081-0.08*min(mod(on,");
        reveal_strlit("),2),");
        reveal_strlit("1.081-0.08*min(mod(on,");
    }
    assert(mid =~= "),2)"@ + ",1.081-0.08*min(mod(on,"@) by {
        reveal_strlit("),2),1.081-0.08*min(mod(on,");
        reveal_strlit("),2)");
        reveal_strlit(",1.081-0.08*min(mod(on,");
    }
    assert(last =~= ",1))'"@ + ":x='iw/2-(iw/zoom/2)':y='ih/2-(ih/zoom/2)':d="@) by {
        reveal_strlit(",1))':x='iw/2-(iw/zoom/2)':y='ih/2-(ih/zoom/2)':d=");
        reveal_strlit(",1))'");
        reveal_strlit(":x='iw/2-(iw/zoom/2)':y='ih/2-(ih/zoom/2)':d=");
    }
    assert("x"@ =~= seq!['x']) by {
        reveal_strlit("x");
    }
    let z = zoom(d, w, h);
    assert(z == lead + n + mid + n + ")/"@ + m + turn + n + ")/"@ + m + last + n + ":s="@ + size
        + ":fps=30"@);
    assert(z == (lead + n + "),2),"@) + ("1.081-0.08*min(mod(on,"@ + n + ")/"@ + m + turn + n
        + ")/"@ + m + last + n + ":s="@ + size + ":fps=30"@));
    assert(z == (lead + n + "),2)"@) + (",1.081-0.08*min(mod(on,"@ + n + ")/"@ + m + turn + n
        + ")/"@ + m + ",1))'"@) + (":x='iw/2-(iw/zoom/2)':y='ih/2-(ih/zoom/2)':d="@ + n + ":s="@
        + size + ":fps=30"@));
    assert(z == (lead + n + mid + n + ")/"@ + m + turn + n + ")/"@ + m + ",1))'"@) + (
    ":x='iw/2-(iw/zoom/2)':y='ih/2-(ih/zoom/2)':d="@ + n + ":s="@ + dec(w as nat) + seq!['x'] + dec(
        h as nat,
    ) + ":fps=30"@));
}

/// Every video ends with an even size and the colours that encoders want; fading to
/// black darkens and greys the picture before that by as much as the formula of the
/// photo's duration says, and other transitions do not.
pub proof fn only_fading_darkens(motion: Motion, d: Duration)
    ensures
        ends(ending(motion, d), "crop=trunc(iw/2)*2:trunc(ih/2)*2,setsar=1,format=yuv420p"@),
        motion.transition != Transition::FadeBlack ==> ending(motion, d)
            == "crop=trunc(iw/2)*2:trunc(ih/2)*2,setsar=1,format=yuv420p"@,
        motion.transition == Transition::FadeBlack ==> begins(
            ending(motion, d),
            "eq=eval=frame:brightness='-"@ + d.dip() + "':saturation='max(0,1-"@ + d.dip() + ")',"@,
        ),
{
    let even = "crop=trunc(iw/2)*2:trunc(ih/2)*2,setsar=1,format=yuv420p"@;
    assert(Seq::<char>::empty() + even =~= even);
}

proof fn lemma_plain_layers(look: LookView, a: Seq<LayerView>, b: Seq<LayerView>)
    ensures
        plain_layers(look, a + b) == plain_layers(look, a) + plain_layers(look, b),
    decreases b.len(),
{
    if b.len() == 0 {
        assert(a + b =~= a);
        assert(plain_layers(look, a) + Seq::<char>::empty() =~= plain_layers(look, a));
    } else {
        assert((a + b).drop_last() =~= a + b.drop_last());
        lemma_plain_layers(look, a, b.drop_last());
        assert(plain_layers(look, a + b) =~= plain_layers(look, a) + plain_layers(look, b));
    }
}

/// In a plain chain the captions follow the picture in order, so that later ones lie on
/// top: each is drawn over the picture with those before it.
pub proof fn captions_are_drawn_in_order(
    pic: Seq<char>,
    look: LookView,
    layers: Seq<LayerView>,
    end: Seq<char>,
    k: int,
)
    requires
        0 <= k < layers.len(),
    ensures
        chain_of(pic, look, layers, end) == chain_of(
            pic + plain_layers(look, layers.take(k)) + seq![','] + plain_layer(look, layers[k]),
            look,
            layers.skip(k + 1),
            end,
        ),
        chain_of(pic, look, layers.take(0), end) == pic + seq![','] + end,
        has_part(
            chain_of(pic, look, layers, end),
            seq![','] + plain_layer(look, layers[k]) + seq![','],
        ),
        begins(chain_of(pic, look, layers, end), pic),
        ends(chain_of(pic, look, layers, end), seq![','] + end),
{
    lemma_split_layers(look, layers, k);
    let a = plain_layers(look, layers.take(k));
    let b = plain_layers(look, layers.skip(k + 1));
    lemma_starts_with_comma(look, layers.skip(k + 1), end);
    let rest = b + seq![','] + end;
    assert(rest =~= seq![','] + rest.skip(1));
    assert(","@ =~= seq![',']) by {
        reveal_strlit(",");
    }
    assert(plain_layers(look, layers.take(0)) =~= seq![]);
    assert(pic + Seq::<char>::empty() =~= pic);
    assert(chain_of(pic, look, layers.take(0), end) == pic + seq![','] + end);
    lemma_chain_texts(pic, a, plain_layer(look, layers[k]), b, end, rest.skip(1));
}

proof fn lemma_chain_texts(
    pic: Seq<char>,
    a: Seq<char>,
    l: Seq<char>,
    b: Seq<char>,
    end: Seq<char>,
    more: Seq<char>,
)
    requires
        b + seq![','] + end == seq![','] + more,
    ensures
        ({
            let whole = pic + (a + seq![','] + l + b) + seq![','] + end;
            &&& whole == (pic + a + seq![','] + l) + b + seq![','] + end
            &&& has_part(whole, seq![','] + l + seq![','])
            &&& begins(whole, pic)
            &&& ends(whole, seq![','] + end)
        }),
{
    let whole = pic + (a + seq![','] + l + b) + seq![','] + end;
    let first = pic + a + seq![','] + l;
    assert(whole == first + b + seq![','] + end && whole == pic + (a + seq![','] + l + b
        + seq![','] + end) && whole == (pic + (a + seq![','] + l + b)) + (seq![','] + end)
        && first + b + seq![','] + end == first + (b + seq![','] + end) && first + (seq![',']
        + more) == (pic + a) + (seq![','] + l + seq![',']) + more) by {
        broadcast use crate::text::following_texts_go_together;

    }
}

proof fn lemma_split_layers(look: LookView, layers: Seq<LayerView>, k: int)
    requires
        0 <= k < layers.len(),
    ensures
        plain_layers(look, layers) == plain_layers(look, layers.take(k)) + seq![','] + plain_layer(
            look,
            layers[k],
        ) + plain_layers(look, layers.skip(k + 1)),
{
    let one = seq![layers[k]];
    let l = plain_layer(look, layers[k]);
    assert(layers =~= layers.take(k) + (one + layers.skip(k + 1)));
    lemma_plain_layers(look, layers.take(k), one + layers.skip(k + 1));
    lemma_plain_layers(look, one, layers.skip(k + 1));
    assert(","@ =~= seq![',']) by {
        reveal_strlit(",");
    }
    assert(one.drop_last() =~= seq![]);
    assert(plain_layers(look, one.drop_last()) =~= seq![]);
    assert(Seq::<char>::empty() + ","@ =~= seq![',']);
    assert(plain_layers(look, one) == seq![','] + l);
    broadcast use crate::text::following_texts_go_together;

}

proof fn lemma_starts_with_comma(look: LookView, layers: Seq<LayerView>, end: Seq<char>)
    ensures
        (plain_layers(look, layers) + seq![','] + end)[0] == ',',
        layers.len() > 0 ==> plain_layers(look, layers).len() > 0 && plain_layers(look, layers)[0]
            == ',',
    decreases layers.len(),
{
    reveal_strlit(",");
    if layers.len() == 0 {
        assert(plain_layers(look, layers) =~= seq![]);
    } else {
        lemma_starts_with_comma(look, layers.drop_last(), end);
        if layers.len() == 1 {
            assert(plain_layers(look, layers.drop_last()) =~= seq![]);
        }
    }
}

/// The name of the picture with the first `i` captions, in a filter graph.
pub open spec fn pad_name(i: nat) -> Seq<char> {
    "[v"@ + dec(i) + "]"@
}

/// In a filter graph caption `i` is put over the picture with the first `i` captions and
/// gives the picture with one more. An upright one is drawn as in a plain chain, while a
/// turned one is drawn in the middle of a clear canvas of the size, frame rate and length
/// of the video, turned there, and laid over the picture at its place and in its time.
pub proof fn each_step_adds_one_caption(look: LookView, c: CanvasView, l: LayerView, i: nat)
    ensures
        is_upright(l.rot) ==> graph_step(look, c, l, i) == pad_name(i) + plain_layer(look, l)
            + pad_name(i + 1) + ";"@,
        !is_upright(l.rot) ==> {
            let s = graph_step(look, c, l, i);
            &&& begins(
                s,
                "color=c=black@0.0:s="@ + dec(c.res.w as nat) + seq!['x'] + dec(c.res.h as nat)
                    + ":r="@ + dec(c.out_fps as nat) + ":d="@ + c.secs + ",format=rgba,"@
                    + centred_layer(look, l) + ",rotate="@ + l.turn + ":ow=iw:oh=ih:c=none[t"@
                    + dec(i) + "];"@,
            )
            &&& ends(
                s,
                pad_name(i) + "[t"@ + dec(i) + "]overlay=x="@ + l.dx + ":y="@ + l.dy
                    + ":enable='"@ + between(l.from, l.to) + "'"@ + pad_name(i + 1) + ";"@,
            )
        },
{
    broadcast use crate::text::following_texts_go_together;

    assert("];"@ =~= "]"@ + ";"@) by {
        reveal_strlit("];");
        reveal_strlit("]");
        reveal_strlit(";");
    }
    assert("];[v"@ =~= "];"@ + "[v"@) by {
        reveal_strlit("];[v");
        reveal_strlit("];");
        reveal_strlit("[v");
    }
    assert("][t"@ =~= "]"@ + "[t"@) by {
        reveal_strlit("][t");
        reveal_strlit("]");
        reveal_strlit("[t");
    }
    assert("'[v"@ =~= "'"@ + "[v"@) by {
        reveal_strlit("'[v");
        reveal_strlit("'");
        reveal_strlit("[v");
    }
    assert("x"@ =~= seq!['x']) by {
        reveal_strlit("x");
    }
    let s = graph_step(look, c, l, i);
    let n = dec(i);
    let m = dec(i + 1);
    if is_upright(l.rot) {
        assert(s == pad_name(i) + plain_layer(look, l) + pad_name(i + 1) + ";"@);
    } else {
        let first = "color=c=black@0.0:s="@ + dec(c.res.w as nat) + seq!['x'] + dec(c.res.h as nat)
            + ":r="@ + dec(c.out_fps as nat) + ":d="@ + c.secs + ",format=rgba,"@ + centred_layer(
            look,
            l,
        ) + ",rotate="@ + l.turn + ":ow=iw:oh=ih:c=none[t"@ + n + "];"@;
        let second = pad_name(i) + "[t"@ + n + "]overlay=x="@ + l.dx + ":y="@ + l.dy
            + ":enable='"@ + between(l.from, l.to) + "'"@ + pad_name(i + 1) + ";"@;
        assert("color=c=black@0.0:s="@ + pair(c.res.w, "x"@, c.res.h) =~= "color=c=black@0.0:s="@
            + dec(c.res.w as nat) + seq!['x'] + dec(c.res.h as nat));
        assert(s == first + second);
    }
}

proof fn lemma_graph_steps(look: LookView, c: CanvasView, layers: Seq<LayerView>, k: int)
    requires
        0 <= k < layers.len(),
    ensures
        begins(
            graph_steps(look, c, layers),
            graph_steps(look, c, layers.take(k)) + graph_step(look, c, layers[k], k as nat),
        ),
    decreases layers.len(),
{
    if k == layers.len() - 1 {
        assert(layers.drop_last() =~= layers.take(k));
        let s = graph_steps(look, c, layers);
        assert(s =~= s + Seq::<char>::empty());
    } else {
        let head = layers.drop_last();
        lemma_graph_steps(look, c, head, k);
        assert(head.take(k) =~= layers.take(k));
        let first = graph_steps(look, c, layers.take(k)) + graph_step(look, c, layers[k], k as nat);
        let rest = choose|rest: Seq<char>|
            graph_steps(look, c, head) == #[trigger] (first + rest);
        let last = graph_step(look, c, layers.last(), (layers.len() - 1) as nat);
        assert(graph_steps(look, c, layers) =~= first + (rest + last));
    }
}

/// A filter graph begins with the picture, puts the captions over it one after the other
/// and in order, and ends with the filters at the end on the picture with all captions.
pub proof fn graph_goes_through_all_captions(
    pic: Seq<char>,
    look: LookView,
    c: CanvasView,
    layers: Seq<LayerView>,
    end: Seq<char>,
    k: int,
)
    requires
        0 <= k < layers.len(),
    ensures
        begins(
            graph_of(pic, look, c, layers, end),
            "[0:v]"@ + pic + pad_name(0) + ";"@ + graph_steps(look, c, layers.take(k)) + graph_step(
                look,
                c,
                layers[k],
                k as nat,
            ),
        ),
        graph_steps(look, c, layers.take(0)) == Seq::<char>::empty(),
        graph_steps(look, c, layers.take(k + 1)) == graph_steps(look, c, layers.take(k))
            + graph_step(look, c, layers[k], k as nat),
        ends(graph_of(pic, look, c, layers, end), pad_name(layers.len()) + end + "[vout]"@),
{
    lemma_graph_steps(look, c, layers, k);
    assert(dec(0) =~= seq!['0']) by {
        crate::text::written_number_reads_back(0);
    }
    assert("[v0];"@ =~= pad_name(0) + ";"@) by {
        reveal_strlit("[v0];");
        reveal_strlit("[v");
        reveal_strlit("]");
        reveal_strlit(";");
    }
    let a = graph_steps(look, c, layers.take(k));
    let b = graph_step(look, c, layers[k], k as nat);
    let rest = choose|rest: Seq<char>| graph_steps(look, c, layers) == #[trigger] (a + b + rest);
    lemma_graph_texts(pic, a, b, rest, dec(layers.len()), end);
    assert(layers.take(k + 1).drop_last() =~= layers.take(k));
    assert(layers.take(k + 1).last() == layers[k]);
}

proof fn lemma_graph_texts(
    pic: Seq<char>,
    a: Seq<char>,
    b: Seq<char>,
    rest: Seq<char>,
    n: Seq<char>,
    end: Seq<char>,
)
    requires
        "[v0];"@ == pad_name(0) + ";"@,
    ensures
        ({
            let whole = "[0:v]"@ + pic + "[v0];"@ + (a + b + rest) + "[v"@ + n + "]"@ + end
                + "[vout]"@;
            &&& begins(whole, "[0:v]"@ + pic + pad_name(0) + ";"@ + a + b)
            &&& ends(whole, "[v"@ + n + "]"@ + end + "[vout]"@)
        }),
{
    let whole = "[0:v]"@ + pic + "[v0];"@ + (a + b + rest) + "[v"@ + n + "]"@ + end + "[vout]"@;
    let o = pad_name(0);
    assert(whole == ("[0:v]"@ + pic + o + ";"@ + a + b) + (rest + "[v"@ + n + "]"@ + end
        + "[vout]"@) && whole == ("[0:v]"@ + pic + "[v0];"@ + (a + b + rest)) + ("[v"@ + n + "]"@
        + end + "[vout]"@)) by {
        broadcast use crate::text::following_texts_go_together;

    }
}

/// A caption is turned or upright by its angle alone, whichever way it is turned, and is
/// turned from half a degree on; one whose angle is no number is neither.
pub proof fn turning_goes_both_ways(a: Scalar, b: Scalar)
    ensures
        is_turned(a) || is_upright(a) <==> !a.is_nan(),
        !(is_turned(a) && is_upright(a)),
        !a.is_nan() && !b.is_nan() && a.magnitude() == b.magnitude() ==> is_turned(a) == is_turned(
            b,
        ),
        !a.is_nan() && !b.is_nan() && a.magnitude() <= b.magnitude() && is_turned(a) ==> is_turned(
            b,
        ),
        is_turned(Scalar { bits: 0x3F00_0000 }) && is_upright(Scalar { bits: 0x3EFF_FFFF }),
{
}

/// The volume of the music is a hundredth of the percentage, and silence is the least. A
/// fade at the end is added behind and changes nothing else.
pub proof fn music_has_a_volume(volume: i32, start: Seq<char>, len: Seq<char>)
    ensures
        volume >= 0 ==> music(volume, None) == "volume="@ + fixed(10 * volume, 3),
        volume < 0 ==> music(volume, None) == music(0, None),
        music(volume, Some((start, len))) == music(volume, None) + ",afade=t=out:st="@ + start
            + ":d="@ + len,
{
}

proof fn lemma_timed_files(a: Seq<Seq<char>>, b: Seq<Seq<char>>, duration: Seq<char>)
    ensures
        timed_files(a + b, duration) == timed_files(a, duration) + timed_files(b, duration),
    decreases b.len(),
{
    if b.len() == 0 {
        assert(a + b =~= a);
        assert(timed_files(a, duration) + Seq::<char>::empty() =~= timed_files(a, duration));
    } else {
        assert((a + b).drop_last() =~= a + b.drop_last());
        lemma_timed_files(a, b.drop_last(), duration);
        assert(timed_files(a + b, duration) =~= timed_files(a, duration) + timed_files(
            b,
            duration,
        ));
    }
}

/// The list names the photos in order, each with its duration in the line behind it, and
/// the last one once more.
pub proof fn list_names_the_photos_in_order(
    photos: Seq<Seq<char>>,
    duration: Seq<char>,
    k: int,
)
    requires
        0 <= k < photos.len(),
    ensures
        photo_list(photos, duration) == timed_files(photos.take(k), duration) + file_line(photos[k])
            + "duration "@ + duration + "\n"@ + timed_files(photos.skip(k + 1), duration)
            + file_line(photos.last()),
        timed_files(photos.take(0), duration) == Seq::<char>::empty(),
        photo_list(photos.take(0), duration) == Seq::<char>::empty(),
{
    let one = seq![photos[k]];
    assert(photos =~= photos.take(k) + (one + photos.skip(k + 1)));
    lemma_timed_files(photos.take(k), one + photos.skip(k + 1), duration);
    lemma_timed_files(one, photos.skip(k + 1), duration);
    assert(one.drop_last() =~= seq![]);
    assert(timed_files(one.drop_last(), duration) =~= seq![]);
    assert(timed_files(one, duration) =~= file_line(photos[k]) + "duration "@ + duration + "\n"@);
    assert(photo_list(photos, duration) =~= timed_files(photos.take(k), duration) + file_line(
        photos[k],
    ) + "duration "@ + duration + "\n"@ + timed_files(photos.skip(k + 1), duration) + file_line(
        photos.last(),
    ));
}

/// A list of captions has a turned one exactly if one of its parts has.
pub proof fn one_turned_caption_is_enough(a: Seq<LayerView>, b: Seq<LayerView>, l: LayerView)
    ensures
        any_turned(a + b) <==> any_turned(a) || any_turned(b),
        any_turned(seq![l]) <==> is_turned(l.rot),
        !any_turned(Seq::<LayerView>::empty()),
{
    let s = a + b;
    if any_turned(a) {
        let k = choose|k: int| 0 <= k < a.len() && is_turned((#[trigger] a[k]).rot);
        assert(is_turned(s[k].rot));
    }
    if any_turned(b) {
        let k = choose|k: int| 0 <= k < b.len() && is_turned((#[trigger] b[k]).rot);
        assert(is_turned(s[a.len() + k].rot));
    }
    if any_turned(s) {
        let k = choose|k: int| 0 <= k < s.len() && is_turned((#[trigger] s[k]).rot);
        if k < a.len() {
            assert(is_turned(a[k].rot));
        } else {
            assert(is_turned(b[k - a.len()].rot));
        }
    }
    assert(seq![l][0] == l);
}

/// A filter graph holds all that its steps hold.
pub proof fn graph_holds_its_steps(
    pic: Seq<char>,
    look: LookView,
    c: CanvasView,
    layers: Seq<LayerView>,
    end: Seq<char>,
    k: int,
    part: Seq<char>,
)
    requires
        0 <= k < layers.len(),
        has_part(graph_step(look, c, layers[k], k as nat), part),
    ensures
        has_part(graph_of(pic, look, c, layers, end), part),
{
    graph_goes_through_all_captions(pic, look, c, layers, end, k);
    let first = "[0:v]"@ + pic + pad_name(0) + ";"@ + graph_steps(look, c, layers.take(k));
    lemma_part_in_beginning(
        graph_of(pic, look, c, layers, end),
        first,
        graph_step(look, c, layers[k], k as nat),
        part,
    );
}

proof fn lemma_part_in_beginning(
    s: Seq<char>,
    first: Seq<char>,
    step: Seq<char>,
    part: Seq<char>,
)
    requires
        begins(s, first + step),
        has_part(step, part),
    ensures
        has_part(s, part),
{
    let rest = choose|rest: Seq<char>| s == #[trigger] ((first + step) + rest);
    let (a, b) = choose|a: Seq<char>, b: Seq<char>| step == #[trigger] (a + part + b);
    assert(s =~= (first + a) + part + (b + rest));
}

/// A step of a filter graph draws its caption: an upright one between the picture without
/// it and the picture with it; a turned one by its turn, laid over the picture at its
/// place and in its time.
pub proof fn steps_draw_their_captions(look: LookView, c: CanvasView, l: LayerView, i: nat)
    ensures
        is_upright(l.rot) ==> has_part(
            graph_step(look, c, l, i),
            pad_name(i) + plain_layer(look, l) + pad_name(i + 1),
        ),
        !is_upright(l.rot) ==> has_part(
            graph_step(look, c, l, i),
            pad_name(i) + "[t"@ + dec(i) + "]overlay=x="@ + l.dx + ":y="@ + l.dy + ":enable='"@
                + between(l.from, l.to) + "'"@ + pad_name(i + 1),
        ),
        !is_upright(l.rot) ==> has_part(graph_step(look, c, l, i), ",rotate="@ + l.turn + ":"@),
{
    each_step_adds_one_caption(look, c, l, i);
    let s = graph_step(look, c, l, i);
    let none = Seq::<char>::empty();
    if is_upright(l.rot) {
        let part = pad_name(i) + plain_layer(look, l) + pad_name(i + 1);
        assert(s =~= none + part + ";"@);
    } else {
        let over = pad_name(i) + "[t"@ + dec(i) + "]overlay=x="@ + l.dx + ":y="@ + l.dy
            + ":enable='"@ + between(l.from, l.to) + "'"@ + pad_name(i + 1);
        let before = choose|before: Seq<char>| s == #[trigger] (before + (over + ";"@));
        assert(s =~= before + over + ";"@);
        assert(":ow=iw:oh=ih:c=none[t"@ =~= ":"@ + "ow=iw:oh=ih:c=none[t"@) by {
            reveal_strlit(":ow=iw:oh=ih:c=none[t");
            reveal_strlit(":");
            reveal_strlit("ow=iw:oh=ih:c=none[t");
        }
        let head = "color=c=black@0.0:s="@ + dec(c.res.w as nat) + seq!['x'] + dec(c.res.h as nat)
            + ":r="@ + dec(c.out_fps as nat) + ":d="@ + c.secs + ",format=rgba,"@ + centred_layer(
            look,
            l,
        );
        let rest = choose|rest: Seq<char>|
            s == #[trigger] ((head + ",rotate="@ + l.turn + ":ow=iw:oh=ih:c=none[t"@ + dec(i)
                + "];"@) + rest);
        lemma_turn(s, head, l.turn, dec(i), rest);
    }
}

proof fn lemma_turn(
    s: Seq<char>,
    head: Seq<char>,
    turn: Seq<char>,
    n: Seq<char>,
    rest: Seq<char>,
)
    requires
        ":ow=iw:oh=ih:c=none[t"@ == ":"@ + "ow=iw:oh=ih:c=none[t"@,
        s == (head + ",rotate="@ + turn + ":ow=iw:oh=ih:c=none[t"@ + n + "];"@) + rest,
    ensures
        has_part(s, ",rotate="@ + turn + ":"@),
{
    broadcast use crate::text::following_texts_go_together;

    assert(s == head + (",rotate="@ + turn + ":"@) + ("ow=iw:oh=ih:c=none[t"@ + n + "];"@ + rest));
}

} // verus!
