//! The ffmpeg filters that make a video out of photos.

use crate::adjust::Adjustments;
use crate::drawtext::{
    between, between_text, drawtext, drawtext_filter, CaptionLook, LookView, Placement,
    PlacementView,
};
use crate::files::{concat_escape, quoted};
use crate::options::{OutputFormat, Resolution, Transition};
use crate::scalar::Scalar;
use crate::text::{dec, fixed, push_dec, push_fixed, texts};
use crate::timing::{frames_for, kb_frames, photo_duration, shown_for, Duration, OUT_FPS};
use vstd::prelude::*;

verus! {

/// The list of photos for ffmpeg: each with its duration, and the last one once more so
/// that its duration counts.
pub open spec fn photo_list(photos: Seq<Seq<char>>, duration: Seq<char>) -> Seq<char> {
    if photos.len() == 0 {
        seq![]
    } else {
        timed_files(photos, duration) + file_line(photos.last())
    }
}

/// A line that names a file.
pub open spec fn file_line(path: Seq<char>) -> Seq<char> {
    "file '"@ + quoted(path, false) + "'\n"@
}

/// The lines that name the files, each with its duration.
pub open spec fn timed_files(photos: Seq<Seq<char>>, duration: Seq<char>) -> Seq<char>
    decreases photos.len(),
{
    if photos.len() == 0 {
        seq![]
    } else {
        timed_files(photos.drop_last(), duration) + file_line(photos.last()) + "duration "@
            + duration + "\n"@
    }
}

fn file_line_text(path: &str) -> (r: String)
    ensures
        r@ == file_line(path@),
{
    let mut r: String = "file '".to_owned();
    r.append(concat_escape(path).as_str());
    r.append("'\n");
    r
}

/// The list of photos for ffmpeg. `duration` is the time that each is shown, in seconds.
pub fn photo_list_text(photos: &Vec<String>, duration: &str) -> (r: String)
    ensures
        r@ == photo_list(texts(photos@), duration@),
{
    let ghost v = texts(photos@);
    let mut r: String = String::new();
    let mut i: usize = 0;
    assert(v.take(0) =~= seq![]);
    assert(r@ =~= seq![]);
    while i < photos.len()
        invariant
            i <= photos.len(),
            v == texts(photos@),
            r@ == timed_files(v.take(i as int), duration@),
        decreases photos.len() - i,
    {
        assert(v[i as int] == photos[i as int]@);
        assert(v.take(i + 1).drop_last() =~= v.take(i as int));
        assert(v.take(i + 1).last() == v[i as int]);
        r.append(file_line_text(photos[i].as_str()).as_str());
        r.append("duration ");
        r.append(duration);
        r.append("\n");
        i += 1;
    }
    assert(v.take(v.len() as int) =~= v);
    if photos.len() > 0 {
        assert(v.last() == photos[photos.len() - 1]@);
        r.append(file_line_text(photos[photos.len() - 1].as_str()).as_str());
    }
    r
}

/// `{w}{sep}{h}`.
pub open spec fn pair(w: u32, sep: Seq<char>, h: u32) -> Seq<char> {
    dec(w as nat) + sep + dec(h as nat)
}

fn pair_text(w: u32, sep: &str, h: u32) -> (r: String)
    ensures
        r@ == pair(w, sep@, h),
{
    let mut r: String = String::new();
    push_dec(&mut r, w as u128);
    assert(r@ =~= dec(w as nat));
    r.append(sep);
    push_dec(&mut r, h as u128);
    r
}

/// The filter that makes a picture fit into `w` by `h`.
pub open spec fn scale(w: u32, h: u32) -> Seq<char> {
    "scale="@ + pair(w, ":"@, h) + ":force_original_aspect_ratio=decrease"@
}

/// The filter that puts black bars around a picture up to `w` by `h`.
pub open spec fn pad(w: u32, h: u32) -> Seq<char> {
    "pad="@ + pair(w, ":"@, h) + ":(ow-iw)/2:(oh-ih)/2:color=black"@
}

/// The filters of the adjustments in front of others.
pub open spec fn leading(chain: Option<Seq<char>>) -> Seq<char> {
    match chain {
        Some(c) => c + ","@,
        None => seq![],
    }
}

/// The filter that makes a picture fit into `w` by `h`.
pub fn scale_filter(w: u32, h: u32) -> (r: String)
    ensures
        r@ == scale(w, h),
{
    let mut r: String = "scale=".to_owned();
    r.append(pair_text(w, ":", h).as_str());
    r.append(":force_original_aspect_ratio=decrease");
    r
}

fn pad_filter(w: u32, h: u32) -> (r: String)
    ensures
        r@ == pad(w, h),
{
    let mut r: String = "pad=".to_owned();
    r.append(pair_text(w, ":", h).as_str());
    r.append(":(ow-iw)/2:(oh-ih)/2:color=black");
    r
}

/// The filters behind the scaling of a photo: adjustments, then black bars, so that the
/// bars stay black. `px` is the radius of the clarity filter.
pub open spec fn adjusted_and_padded(adj: Adjustments, px: int, w: u32, h: u32) -> Seq<char> {
    leading(adj.chain(px)) + pad(w, h)
}

/// The filters behind the scaling of a photo: adjustments, then black bars. `px` is the
/// radius of the clarity filter.
pub fn adjust_and_pad(adj: &Adjustments, px: i32, w: u32, h: u32) -> (r: String)
    ensures
        r@ == adjusted_and_padded(*adj, px as int, w, h),
{
    let mut r: String = String::new();
    assert(r@ =~= seq![]);
    match adj.filter_chain(px) {
        Some(c) => {
            r = c;
            r.append(",");
        },
        None => {},
    }
    r.append(pad_filter(w, h).as_str());
    r
}

/// The filters of a preview of `w` by `h`. A photo that was scaled down before needs no
/// scaling any more.
pub open spec fn preview_chain(adj: Adjustments, px: int, w: u32, h: u32, scaled: bool) -> Seq<
    char,
> {
    if scaled {
        adjusted_and_padded(adj, px, w, h)
    } else {
        scale(w, h) + ","@ + adjusted_and_padded(adj, px, w, h)
    }
}

/// The filters of a preview of `w` by `h`. `px` is the radius of the clarity filter,
/// `scaled` says whether the photo was scaled down before.
pub fn preview_filter(adj: &Adjustments, px: i32, w: u32, h: u32, scaled: bool) -> (r: String)
    ensures
        r@ == preview_chain(*adj, px as int, w, h, scaled),
{
    if scaled {
        adjust_and_pad(adj, px, w, h)
    } else {
        let mut r = scale_filter(w, h);
        r.append(",");
        r.append(adjust_and_pad(adj, px, w, h).as_str());
        r
    }
}

/// The radius of the clarity filter in a video.
pub const CLARITY_PX: i32 = 13;

/// The filters that adjust one photo and make it fit into `w` by `h`.
pub open spec fn single_photo(adj: Adjustments, w: u32, h: u32) -> Seq<char> {
    match adj.chain(CLARITY_PX as int) {
        Some(c) => scale(w, h) + ","@ + c,
        None => scale(w, h),
    }
}

/// The filters that adjust one photo and make it fit into `w` by `h`.
pub fn single_photo_filter(adj: &Adjustments, w: u32, h: u32) -> (r: String)
    ensures
        r@ == single_photo(*adj, w, h),
{
    let mut r = scale_filter(w, h);
    match adj.filter_chain(CLARITY_PX) {
        Some(c) => {
            r.append(",");
            r.append(c.as_str());
        },
        None => {},
    }
    r
}

/// What the video is to look like.
#[derive(Clone, Copy, PartialEq, Eq, Structural, Debug)]
pub struct Motion {
    pub transition: Transition,
    pub ken_burns: bool,
    /// Whether there is music in an AVI file, whose frames must be short.
    pub avi_music: bool,
}

impl Motion {
    /// Whether something moves, so that there are more frames than photos.
    pub open spec fn animated(self) -> bool {
        self.ken_burns || self.transition != Transition::Cut || self.avi_music
    }

    /// Frames per second of the video.
    pub open spec fn out_fps(self, fps: u32) -> u32 {
        if self.animated() {
            OUT_FPS
        } else {
            fps
        }
    }

    /// What moves in a video of this format.
    pub fn new(transition: Transition, ken_burns: bool, format: OutputFormat, music: bool) -> (r:
        Self)
        ensures
            r == (Motion {
                transition,
                ken_burns,
                avi_music: format == OutputFormat::Avi && music,
            }),
    {
        Motion { transition, ken_burns, avi_music: format == OutputFormat::Avi && music }
    }

    /// Whether something moves, so that there are more frames than photos.
    pub fn is_animated(&self) -> (r: bool)
        ensures
            r == self.animated(),
    {
        self.ken_burns || self.transition != Transition::Cut || self.avi_music
    }

    /// Frames per second of the video.
    pub fn frame_rate(&self, fps: u32) -> (r: u32)
        ensures
            r == self.out_fps(fps),
    {
        if self.is_animated() {
            OUT_FPS
        } else {
            fps
        }
    }
}

/// The filter that moves the picture slowly over each photo, `d` frames long: nearer and
/// farther in turn.
pub open spec fn zoom(d: int, w: u32, h: u32) -> Seq<char> {
    let dm = if d - 1 < 1 {
        1
    } else {
        d - 1
    };
    ",zoompan=z='if(mod(floor(on/"@ + dec(d as nat) + "),2),1.081-0.08*min(mod(on,"@ + dec(
        d as nat,
    ) + ")/"@ + dec(dm as nat) + ",1),1.001+0.08*min(mod(on,"@ + dec(d as nat) + ")/"@ + dec(
        dm as nat,
    ) + ",1))':x='iw/2-(iw/zoom/2)':y='ih/2-(ih/zoom/2)':d="@ + dec(d as nat) + ":s="@ + pair(
        w,
        "x"@,
        h,
    ) + ":fps=30"@
}

fn zoom_filter(d: u32, w: u32, h: u32) -> (r: String)
    requires
        d >= 1,
    ensures
        r@ == zoom(d as int, w, h),
{
    let dm: u32 = if d - 1 < 1 {
        1
    } else {
        d - 1
    };
    let mut r: String = ",zoompan=z='if(mod(floor(on/".to_owned();
    push_dec(&mut r, d as u128);
    r.append("),2),1.081-0.08*min(mod(on,");
    push_dec(&mut r, d as u128);
    r.append(")/");
    push_dec(&mut r, dm as u128);
    r.append(",1),1.001+0.08*min(mod(on,");
    push_dec(&mut r, d as u128);
    r.append(")/");
    push_dec(&mut r, dm as u128);
    r.append(",1))':x='iw/2-(iw/zoom/2)':y='ih/2-(ih/zoom/2)':d=");
    push_dec(&mut r, d as u128);
    r.append(":s=");
    r.append(pair_text(w, "x", h).as_str());
    r.append(":fps=30");
    r
}

/// The filters of the pictures, without captions. `adj` is what all photos get, if they
/// all get the same.
pub open spec fn picture(
    adj: Option<Adjustments>,
    res: Resolution,
    motion: Motion,
    fps: u32,
) -> Seq<char> {
    let chain = match adj {
        Some(a) => a.chain(CLARITY_PX as int),
        None => None,
    };
    scale(res.w, res.h) + ","@ + (leading(chain) + pad(res.w, res.h)) + (if motion.ken_burns {
        zoom(frames_for(fps as int), res.w, res.h)
    } else if motion.animated() {
        ",fps=30"@
    } else {
        seq![]
    })
}

/// The filters of the pictures, without captions.
pub fn picture_filter(
    adj: Option<Adjustments>,
    res: Resolution,
    motion: Motion,
    fps: u32,
) -> (r: String)
    requires
        1 <= fps <= 60,
    ensures
        r@ == picture(adj, res, motion, fps),
{
    let mut r = scale_filter(res.w, res.h);
    r.append(",");
    let tail = match adj {
        Some(a) => adjust_and_pad(&a, CLARITY_PX, res.w, res.h),
        None => {
            let p = pad_filter(res.w, res.h);
            assert(leading(None) + pad(res.w, res.h) =~= pad(res.w, res.h));
            p
        },
    };
    r.append(tail.as_str());
    let ghost before = r@;
    if motion.ken_burns {
        r.append(zoom_filter(kb_frames(fps), res.w, res.h).as_str());
    } else if motion.is_animated() {
        r.append(",fps=30");
    } else {
        assert(before + Seq::<char>::empty() =~= before);
    }
    r
}

/// The filters at the end: fading between photos, an even size, and the colours that
/// encoders want.
pub open spec fn ending(motion: Motion, d: Duration) -> Seq<char> {
    let even = "crop=trunc(iw/2)*2:trunc(ih/2)*2,setsar=1,format=yuv420p"@;
    if motion.transition == Transition::FadeBlack {
        "eq=eval=frame:brightness='-"@ + d.dip() + "':saturation='max(0,1-"@ + d.dip() + ")',"@
            + even
    } else {
        even
    }
}

fn ending_filter(motion: Motion, d: Duration) -> (r: String)
    requires
        d.is_usable(),
    ensures
        r@ == ending(motion, d),
{
    if motion.transition == Transition::FadeBlack {
        let dip = d.dip_text();
        let mut r: String = "eq=eval=frame:brightness='-".to_owned();
        r.append(dip.as_str());
        r.append("':saturation='max(0,1-");
        r.append(dip.as_str());
        r.append(")',");
        r.append("crop=trunc(iw/2)*2:trunc(ih/2)*2,setsar=1,format=yuv420p");
        r
    } else {
        "crop=trunc(iw/2)*2:trunc(ih/2)*2,setsar=1,format=yuv420p".to_owned()
    }
}

/// A caption of a video, with all numbers in decimal notation.
pub struct Layer {
    /// The file that holds the text.
    pub file: String,
    pub at: Placement,
    /// From when to when it is shown, in seconds.
    pub from: String,
    pub to: String,
    /// The turn in degrees.
    pub rot: Scalar,
    /// The turn in radians.
    pub turn: String,
    /// How far its centre is from that of the picture, in pixels.
    pub dx: String,
    pub dy: String,
}

/// What a layer stands for.
pub struct LayerView {
    pub file: Seq<char>,
    pub at: PlacementView,
    pub from: Seq<char>,
    pub to: Seq<char>,
    pub rot: Scalar,
    pub turn: Seq<char>,
    pub dx: Seq<char>,
    pub dy: Seq<char>,
}

impl View for Layer {
    type V = LayerView;

    open spec fn view(&self) -> LayerView {
        LayerView {
            file: self.file@,
            at: self.at@,
            from: self.from@,
            to: self.to@,
            rot: self.rot,
            turn: self.turn@,
            dx: self.dx@,
            dy: self.dy@,
        }
    }
}

/// What a list of layers stands for.
pub open spec fn layer_views(v: Seq<Layer>) -> Seq<LayerView> {
    v.map_values(|l: Layer| l@)
}

/// Whether a caption is turned by half a degree or more.
pub open spec fn is_turned(rot: Scalar) -> bool {
    !rot.is_nan() && rot.magnitude() >= 0x3F00_0000
}

/// Whether a caption is turned by less than half a degree.
pub open spec fn is_upright(rot: Scalar) -> bool {
    !rot.is_nan() && rot.magnitude() < 0x3F00_0000
}

/// Whether a caption is turned by half a degree or more.
pub fn turned(rot: Scalar) -> (r: bool)
    ensures
        r == is_turned(rot),
{
    !rot.not_a_number() && rot.bits % 0x8000_0000 >= 0x3F00_0000
}

fn upright(rot: Scalar) -> (r: bool)
    ensures
        r == is_upright(rot),
{
    !rot.not_a_number() && rot.bits % 0x8000_0000 < 0x3F00_0000
}

/// Whether one of the captions is turned.
pub open spec fn any_turned(layers: Seq<LayerView>) -> bool {
    exists|k: int| 0 <= k < layers.len() && is_turned((#[trigger] layers[k]).rot)
}

/// The filter that draws a caption where it belongs, while it is shown.
pub open spec fn plain_layer(look: LookView, l: LayerView) -> Seq<char> {
    drawtext(look, l.file, l.at, Some((l.from, l.to)))
}

/// The filter that draws a caption in the middle of a canvas of its own.
pub open spec fn centred_layer(look: LookView, l: LayerView) -> Seq<char> {
    drawtext(
        look,
        l.file,
        PlacementView { x: "0.5000"@, y: "0.5000"@, ..l.at },
        None,
    )
}

/// The filters of the captions behind one another.
pub open spec fn plain_layers(look: LookView, layers: Seq<LayerView>) -> Seq<char>
    decreases layers.len(),
{
    if layers.len() == 0 {
        seq![]
    } else {
        plain_layers(look, layers.drop_last()) + ","@ + plain_layer(look, layers.last())
    }
}

/// What turned captions need to know of the video.
pub struct Canvas {
    pub res: Resolution,
    pub out_fps: u32,
    /// The length of the video in seconds, in decimal notation.
    pub secs: String,
}

/// What a canvas stands for.
pub struct CanvasView {
    pub res: Resolution,
    pub out_fps: u32,
    pub secs: Seq<char>,
}

impl View for Canvas {
    type V = CanvasView;

    open spec fn view(&self) -> CanvasView {
        CanvasView { res: self.res, out_fps: self.out_fps, secs: self.secs@ }
    }
}

/// The step of a filter graph that puts caption `i` over the picture. A turned one is
/// drawn on a canvas of its own, which is turned and laid over the picture.
pub open spec fn graph_step(look: LookView, c: CanvasView, l: LayerView, i: nat) -> Seq<char> {
    if is_upright(l.rot) {
        "[v"@ + dec(i) + "]"@ + plain_layer(look, l) + "[v"@ + dec(i + 1) + "];"@
    } else {
        "color=c=black@0.0:s="@ + pair(c.res.w, "x"@, c.res.h) + ":r="@ + dec(c.out_fps as nat)
            + ":d="@ + c.secs + ",format=rgba,"@ + centred_layer(look, l) + ",rotate="@ + l.turn
            + ":ow=iw:oh=ih:c=none[t"@ + dec(i) + "];[v"@ + dec(i) + "][t"@ + dec(i)
            + "]overlay=x="@ + l.dx + ":y="@ + l.dy + ":enable='"@ + between(l.from, l.to)
            + "'[v"@ + dec(i + 1) + "];"@
    }
}

/// The steps of a filter graph that put the captions over the picture in order.
pub open spec fn graph_steps(look: LookView, c: CanvasView, layers: Seq<LayerView>) -> Seq<char>
    decreases layers.len(),
{
    if layers.len() == 0 {
        seq![]
    } else {
        graph_steps(look, c, layers.drop_last()) + graph_step(
            look,
            c,
            layers.last(),
            (layers.len() - 1) as nat,
        )
    }
}

/// The filters of the video: a plain chain, or a graph if a caption is turned.
pub enum VideoFilter {
    Chain(String),
    Graph(String),
}

/// The filters of the video as a plain chain.
pub open spec fn chain_of(
    picture: Seq<char>,
    look: LookView,
    layers: Seq<LayerView>,
    end: Seq<char>,
) -> Seq<char> {
    picture + plain_layers(look, layers) + ","@ + end
}

/// The filters of the video as a graph.
pub open spec fn graph_of(
    picture: Seq<char>,
    look: LookView,
    c: CanvasView,
    layers: Seq<LayerView>,
    end: Seq<char>,
) -> Seq<char> {
    "[0:v]"@ + picture + "[v0];"@ + graph_steps(look, c, layers) + "[v"@ + dec(layers.len())
        + "]"@ + end + "[vout]"@
}

fn some_turned(layers: &Vec<Layer>) -> (r: bool)
    ensures
        r == any_turned(layer_views(layers@)),
{
    let ghost v = layer_views(layers@);
    let mut i: usize = 0;
    while i < layers.len()
        invariant
            i <= layers.len(),
            v == layer_views(layers@),
            forall|k: int| 0 <= k < i ==> !is_turned((#[trigger] v[k]).rot),
        decreases layers.len() - i,
    {
        assert(v[i as int] == layers[i as int]@);
        if turned(layers[i].rot) {
            return true;
        }
        i += 1;
    }
    false
}

fn plain_layer_filter(look: &CaptionLook, l: &Layer) -> (r: String)
    ensures
        r@ == plain_layer(look@, l@),
{
    drawtext_filter(look, l.file.as_str(), &l.at, Some((l.from.as_str(), l.to.as_str())))
}

fn centred_layer_filter(look: &CaptionLook, l: &Layer) -> (r: String)
    ensures
        r@ == centred_layer(look@, l@),
{
    let at = Placement {
        size: l.at.size.clone(),
        pad: l.at.pad.clone(),
        x: "0.5000".to_owned(),
        y: "0.5000".to_owned(),
    };
    drawtext_filter(look, l.file.as_str(), &at, None)
}

fn step_text(look: &CaptionLook, c: &Canvas, l: &Layer, i: usize) -> (r: String)
    requires
        i < usize::MAX,
    ensures
        r@ == graph_step(look@, c@, l@, i as nat),
{
    if upright(l.rot) {
        let mut r: String = "[v".to_owned();
        push_dec(&mut r, i as u128);
        r.append("]");
        r.append(plain_layer_filter(look, l).as_str());
        r.append("[v");
        push_dec(&mut r, (i + 1) as u128);
        r.append("];");
        r
    } else {
        let mut r: String = "color=c=black@0.0:s=".to_owned();
        r.append(pair_text(c.res.w, "x", c.res.h).as_str());
        r.append(":r=");
        push_dec(&mut r, c.out_fps as u128);
        r.append(":d=");
        r.append(c.secs.as_str());
        r.append(",format=rgba,");
        r.append(centred_layer_filter(look, l).as_str());
        r.append(",rotate=");
        r.append(l.turn.as_str());
        r.append(":ow=iw:oh=ih:c=none[t");
        push_dec(&mut r, i as u128);
        r.append("];[v");
        push_dec(&mut r, i as u128);
        r.append("][t");
        push_dec(&mut r, i as u128);
        r.append("]overlay=x=");
        r.append(l.dx.as_str());
        r.append(":y=");
        r.append(l.dy.as_str());
        r.append(":enable='");
        r.append(between_text(l.from.as_str(), l.to.as_str()).as_str());
        r.append("'[v");
        push_dec(&mut r, (i + 1) as u128);
        r.append("];");
        r
    }
}

fn steps_text(look: &CaptionLook, c: &Canvas, layers: &Vec<Layer>) -> (r: String)
    requires
        layers.len() < usize::MAX,
    ensures
        r@ == graph_steps(look@, c@, layer_views(layers@)),
{
    let ghost v = layer_views(layers@);
    let mut r: String = String::new();
    let mut i: usize = 0;
    assert(v.take(0) =~= seq![]);
    assert(r@ =~= seq![]);
    while i < layers.len()
        invariant
            i <= layers.len() < usize::MAX,
            v == layer_views(layers@),
            r@ == graph_steps(look@, c@, v.take(i as int)),
        decreases layers.len() - i,
    {
        assert(v[i as int] == layers[i as int]@);
        assert(v.take(i + 1).drop_last() =~= v.take(i as int));
        assert(v.take(i + 1).last() == v[i as int]);
        r.append(step_text(look, c, &layers[i], i).as_str());
        i += 1;
    }
    assert(v.take(v.len() as int) =~= v);
    r
}

fn plain_text(look: &CaptionLook, layers: &Vec<Layer>) -> (r: String)
    ensures
        r@ == plain_layers(look@, layer_views(layers@)),
{
    let ghost v = layer_views(layers@);
    let mut r: String = String::new();
    let mut i: usize = 0;
    assert(v.take(0) =~= seq![]);
    assert(r@ =~= seq![]);
    while i < layers.len()
        invariant
            i <= layers.len(),
            v == layer_views(layers@),
            r@ == plain_layers(look@, v.take(i as int)),
        decreases layers.len() - i,
    {
        assert(v[i as int] == layers[i as int]@);
        assert(v.take(i + 1).drop_last() =~= v.take(i as int));
        assert(v.take(i + 1).last() == v[i as int]);
        r.append(",");
        r.append(plain_layer_filter(look, &layers[i]).as_str());
        i += 1;
    }
    assert(v.take(v.len() as int) =~= v);
    r
}

/// The filters of the video. `picture` are those of the pictures without captions, `end`
/// those at the end. Captions are drawn in order, so that later ones lie on top. A graph
/// is made only if one of them is turned.
pub fn video_filter(
    picture: &str,
    look: &CaptionLook,
    canvas: &Canvas,
    layers: &Vec<Layer>,
    end: &str,
) -> (r: VideoFilter)
    requires
        layers.len() < usize::MAX,
    ensures
        match r {
            VideoFilter::Chain(s) => !any_turned(layer_views(layers@)) && s@ == chain_of(
                picture@,
                look@,
                layer_views(layers@),
                end@,
            ),
            VideoFilter::Graph(s) => any_turned(layer_views(layers@)) && s@ == graph_of(
                picture@,
                look@,
                canvas@,
                layer_views(layers@),
                end@,
            ),
        },
{
    if some_turned(layers) {
        let mut r: String = "[0:v]".to_owned();
        r.append(picture);
        r.append("[v0];");
        r.append(steps_text(look, canvas, layers).as_str());
        r.append("[v");
        push_dec(&mut r, layers.len() as u128);
        r.append("]");
        r.append(end);
        r.append("[vout]");
        VideoFilter::Graph(r)
    } else {
        let mut r: String = picture.to_owned();
        r.append(plain_text(look, layers).as_str());
        r.append(",");
        r.append(end);
        VideoFilter::Chain(r)
    }
}

/// The filters at the end of the video.
pub fn video_ending(motion: Motion, fps: u32) -> (r: String)
    requires
        1 <= fps <= 60,
    ensures
        r@ == ending(motion, shown_for(fps, motion.ken_burns)),
{
    ending_filter(motion, photo_duration(fps, motion.ken_burns))
}

/// The filters of the music. `fade` is the beginning and the length of the fade at the
/// end, if there is one.
pub open spec fn music(volume: i32, fade: Option<(Seq<char>, Seq<char>)>) -> Seq<char> {
    let loud = "volume="@ + fixed(
        if volume < 0 {
            0
        } else {
            10 * volume
        },
        3,
    );
    match fade {
        Some((start, len)) => loud + ",afade=t=out:st="@ + start + ":d="@ + len,
        None => loud,
    }
}

/// The filters of the music: its volume in percent and, if it is wanted and the video of
/// `photos` photos takes more than a second, a fade at the end. `start` and `len` are the
/// beginning and the length of that fade in seconds.
pub fn audio_filter(
    volume: i32,
    fade_out: bool,
    photos: usize,
    each: Duration,
    start: &str,
    len: &str,
) -> (r: String)
    ensures
        r@ == music(
            volume,
            if fade_out && each.over_a_second(photos as int) {
                Some((start@, len@))
            } else {
                None
            },
        ),
{
    let units: i64 = if volume < 0 {
        0
    } else {
        10 * (volume as i64)
    };
    let mut r: String = "volume=".to_owned();
    push_fixed(&mut r, units, 3);
    if fade_out && each.is_over_a_second(photos) {
        r.append(",afade=t=out:st=");
        r.append(start);
        r.append(":d=");
        r.append(len);
    }
    r
}

/// Without captions the video is made by a plain chain of filters.
pub proof fn no_captions_need_no_graph(
    picture: Seq<char>,
    look: LookView,
    layers: Seq<LayerView>,
    end: Seq<char>,
)
    requires
        layers.len() == 0,
    ensures
        !any_turned(layers),
        chain_of(picture, look, layers, end) == picture + ","@ + end,
{
    assert(picture + plain_layers(look, layers) =~= picture);
}

} // verus!
