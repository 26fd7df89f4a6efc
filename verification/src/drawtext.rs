//! Captions as ffmpeg filters.

use crate::files::{ff_path_escape, quoted};
use crate::report::{hex_digit, push_hex};
use crate::style::{Rgba, SubtitleStyle};
use crate::text::{dec_int, fixed, push_fixed, push_int};
use vstd::arithmetic::power::pow;
use vstd::prelude::*;

verus! {

/// Whether a channel with the value `v` surely gets brighter when it is no longer
/// multiplied by alpha: where alpha is not too near to its greatest value, and the
/// brighter the channel is, the nearer alpha may be.
pub open spec fn brightens(v: u8, a: u8) -> bool {
    1 <= v <= 254 && 1 <= a && (a <= 127 || (a <= 230 && 5 <= v) || (a <= 250 && 64 <= v))
}

/// How much light a channel with the value `v` stands for in sRGB, to the power of five
/// and in units that make it a whole number: `v / 3294.6` where it is dark, and otherwise
/// `(v + 14.025) / 269.025` to the power of 2.4.
pub open spec fn light(v: int) -> int {
    if v <= 10 {
        pow(5 * v, 5) * pow(10761, 12)
    } else {
        pow(40 * v + 561, 12) * pow(16473, 5)
    }
}

/// Whether `s` can be the channel `v` that is no longer multiplied by alpha. Its light is
/// that of `v` divided by alpha, within one step of `s`, and as much as can be where it
/// would be more than that. It is not darker than `v`, and brighter where it surely is.
pub open spec fn is_straight_channel(s: u8, v: u8, a: u8) -> bool {
    &&& v <= s
    &&& v == 0 ==> s == 0
    &&& brightens(v, a) ==> v < s
    &&& 1 <= s && 1 <= a ==> light(s - 1) * pow(a as int, 5) <= light(v as int) * pow(255, 5)
    &&& s <= 254 && 1 <= a ==> light(v as int) * pow(255, 5) <= light(s + 1) * pow(a as int, 5)
}

/// Whether `s` can be the colour `c` with its channels no longer multiplied by alpha.
pub open spec fn is_straight(s: Rgba, c: Rgba) -> bool {
    &&& s.a == c.a
    &&& c.a == 255 || c.a == 0 ==> s == c
    &&& is_straight_channel(s.r, c.r, c.a)
    &&& is_straight_channel(s.g, c.g, c.a)
    &&& is_straight_channel(s.b, c.b, c.a)
}

/// Calls egui's `Color32::from_rgba_premultiplied` and
/// `Color32::to_srgba_unmultiplied`: the colour with red, green and blue no longer
/// multiplied by alpha. Alpha stays, and a colour that is opaque or quite transparent
/// stays as it is. The light of each channel is divided by alpha, to within one step of
/// the result, which is cut off at its greatest value; a channel that is zero stays zero,
/// no channel gets darker, and it gets brighter where alpha is well below its greatest
/// value. Which of the neighbouring values the result is goes through powers of
/// floating-point numbers, whose precision differs between machines, and is left unsaid.
#[verifier::external_body]
fn unmultiplied(c: Rgba) -> (r: Rgba)
    ensures
        is_straight(r, c),
{
    let s = egui::Color32::from_rgba_premultiplied(c.r, c.g, c.b, c.a).to_srgba_unmultiplied();
    Rgba { r: s[0], g: s[1], b: s[2], a: s[3] }
}

/// A byte as two hexadecimal digits.
pub open spec fn hex_byte(b: u8) -> Seq<char> {
    seq![hex_digit(b / 16), hex_digit(b % 16)]
}

/// Alpha in thousandths, the nearest whole number.
pub open spec fn alpha_units(a: u8) -> int {
    (400 * a + 51) / 102
}

/// A colour for ffmpeg, such as `0xFF8000@0.502`.
pub open spec fn color_code(c: Rgba) -> Seq<char> {
    "0x"@ + hex_byte(c.r) + hex_byte(c.g) + hex_byte(c.b) + "@"@ + fixed(alpha_units(c.a), 3)
}

fn push_byte(out: &mut String, b: u8)
    ensures
        final(out)@ == old(out)@ + hex_byte(b),
{
    let ghost before = out@;
    push_hex(out, b / 16);
    push_hex(out, b % 16);
    assert(out@ =~= before + hex_byte(b));
}

/// A colour for ffmpeg, whose red, green and blue are not multiplied by alpha.
pub fn color_text(c: Rgba) -> (r: String)
    ensures
        r@ == color_code(c),
{
    let mut r: String = "0x".to_owned();
    push_byte(&mut r, c.r);
    push_byte(&mut r, c.g);
    push_byte(&mut r, c.b);
    r.append("@");
    let units: i64 = (400 * (c.a as i64) + 51) / 102;
    push_fixed(&mut r, units, 3);
    r
}

/// Whether `s` can be what ffmpeg is to read for the colour `c`, whose channels are
/// multiplied by alpha.
pub open spec fn is_color_text(s: Seq<char>, c: Rgba) -> bool {
    exists|straight: Rgba| is_straight(straight, c) && s == #[trigger] color_code(straight)
}

/// A colour of the colour buttons for ffmpeg.
pub fn ff_color(c: Rgba) -> (r: String)
    ensures
        is_color_text(r@, c),
        c.a == 255 ==> r@ == color_code(c),
{
    let straight = unmultiplied(c);
    color_text(straight)
}

/// The look of the captions as ffmpeg is to read it.
pub struct CaptionLook {
    /// The font file.
    pub font: String,
    pub color: String,
    pub outline_w: i32,
    pub outline_color: String,
    pub boxed: bool,
}

/// What a look stands for.
pub struct LookView {
    pub font: Seq<char>,
    pub color: Seq<char>,
    pub outline_w: i32,
    pub outline_color: Seq<char>,
    pub boxed: bool,
}

impl View for CaptionLook {
    type V = LookView;

    open spec fn view(&self) -> LookView {
        LookView {
            font: self.font@,
            color: self.color@,
            outline_w: self.outline_w,
            outline_color: self.outline_color@,
            boxed: self.boxed,
        }
    }
}

impl CaptionLook {
    /// The look of the captions in this font, as ffmpeg is to read it.
    pub fn new(style: &SubtitleStyle, font: &str) -> (r: Self)
        ensures
            r.font@ == font@,
            is_color_text(r.color@, style.color),
            style.color.a == 255 ==> r.color@ == color_code(style.color),
            r.outline_w == style.outline_w,
            is_color_text(r.outline_color@, style.outline_color),
            style.outline_color.a == 255 ==> r.outline_color@ == color_code(style.outline_color),
            r.boxed == style.boxed,
    {
        CaptionLook {
            font: font.to_owned(),
            color: ff_color(style.color),
            outline_w: style.outline_w,
            outline_color: ff_color(style.outline_color),
            boxed: style.boxed,
        }
    }
}

/// Where a caption is drawn and how large, in decimal notation: the size of the letters
/// in pixels, the margin of the box in pixels, and the centre as a part of the picture.
pub struct Placement {
    pub size: String,
    pub pad: String,
    pub x: String,
    pub y: String,
}

/// What a placement stands for.
pub struct PlacementView {
    pub size: Seq<char>,
    pub pad: Seq<char>,
    pub x: Seq<char>,
    pub y: Seq<char>,
}

impl View for Placement {
    type V = PlacementView;

    open spec fn view(&self) -> PlacementView {
        PlacementView { size: self.size@, pad: self.pad@, x: self.x@, y: self.y@ }
    }
}

/// The filter that draws the text in `file`.
pub open spec fn drawtext(
    look: LookView,
    file: Seq<char>,
    at: PlacementView,
    during: Option<(Seq<char>, Seq<char>)>,
) -> Seq<char> {
    let letters = "drawtext=expansion=none:fontfile='"@ + quoted(look.font, true)
        + "':textfile='"@ + quoted(file, true) + "':fontsize="@ + at.size + ":fontcolor="@
        + look.color + ":borderw="@ + dec_int(look.outline_w as int) + ":bordercolor="@
        + look.outline_color + ":x=(w*"@ + at.x + "-text_w/2):y=(h*"@ + at.y + "-text_h/2)"@;
    let boxed = if look.boxed {
        letters + ":box=1:boxcolor=black@0.4:boxborderw="@ + at.pad
    } else {
        letters
    };
    match during {
        Some((from, to)) => boxed + ":enable='"@ + between(from, to) + "'"@,
        None => boxed,
    }
}

/// The formula that is true from one time to another.
pub open spec fn between(from: Seq<char>, to: Seq<char>) -> Seq<char> {
    "between(t,"@ + from + ","@ + to + ")"@
}

/// The formula that is true from one time to another.
pub fn between_text(from: &str, to: &str) -> (r: String)
    ensures
        r@ == between(from@, to@),
{
    let mut r: String = "between(t,".to_owned();
    r.append(from);
    r.append(",");
    r.append(to);
    r.append(")");
    r
}

/// The filter that draws the text in `file`.
pub fn drawtext_filter(
    look: &CaptionLook,
    file: &str,
    at: &Placement,
    during: Option<(&str, &str)>,
) -> (r: String)
    ensures
        r@ == drawtext(
            look@,
            file@,
            at@,
            match during {
                Some((from, to)) => Some((from@, to@)),
                None => None,
            },
        ),
{
    let mut r: String = "drawtext=expansion=none:fontfile='".to_owned();
    r.append(ff_path_escape(look.font.as_str()).as_str());
    r.append("':textfile='");
    r.append(ff_path_escape(file).as_str());
    r.append("':fontsize=");
    r.append(at.size.as_str());
    r.append(":fontcolor=");
    r.append(look.color.as_str());
    r.append(":borderw=");
    push_int(&mut r, look.outline_w as i64);
    r.append(":bordercolor=");
    r.append(look.outline_color.as_str());
    r.append(":x=(w*");
    r.append(at.x.as_str());
    r.append("-text_w/2):y=(h*");
    r.append(at.y.as_str());
    r.append("-text_h/2)");
    if look.boxed {
        r.append(":box=1:boxcolor=black@0.4:boxborderw=");
        r.append(at.pad.as_str());
    }
    match during {
        Some((from, to)) => {
            r.append(":enable='");
            r.append(between_text(from, to).as_str());
            r.append("'");
        },
        None => {},
    }
    r
}

} // verus!
