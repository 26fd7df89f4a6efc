//! What file names, colours, captions and durations become for ffmpeg.

use crate::drawtext::{alpha_units, between, color_code, drawtext, LookView, PlacementView};
use crate::files::{
    audio_exts, extension_of, format_for, has_ext, image_exts, last_dot, project_ext, project_name,
    quoted, quoted_char, stem_and_extension_make_the_name, stem_of, video_name,
};
use crate::graph::{centred_layer, file_line, plain_layer, LayerView};
use crate::graph_laws::{begins, ends};
use crate::options::{format_is_found_by_its_extension, OutputFormat};
use crate::report::{hex_digit, hex_value};
use crate::style::Rgba;
use crate::text::{ascii_lowered, dec_int, fixed, has_part, small_letters_stand_for_capitals};
use crate::timing::{frames_for, shown_for, Duration};
use vstd::prelude::*;

verus! {

proof fn lemma_last_dot(front: Seq<char>, ext: Seq<char>)
    requires
        !ext.contains('.'),
    ensures
        last_dot(front + seq!['.'] + ext) == front.len(),
    decreases ext.len(),
{
    let name = front + seq!['.'] + ext;
    if ext.len() == 0 {
        assert(name.last() == '.');
    } else {
        let head = ext.drop_last();
        assert(!head.contains('.')) by {
            if head.contains('.') {
                let i = choose|i: int| 0 <= i < head.len() && head[i] == '.';
                assert(ext[i] == '.');
            }
        }
        assert(name.last() == ext[ext.len() - 1]);
        assert(ext[ext.len() - 1] != '.');
        assert(name.drop_last() =~= front + seq!['.'] + head);
        lemma_last_dot(front, head);
    }
}

proof fn lemma_no_dot(name: Seq<char>)
    requires
        !name.contains('.'),
    ensures
        last_dot(name) == -1,
    decreases name.len(),
{
    if name.len() > 0 {
        assert(name[name.len() - 1] != '.');
        let head = name.drop_last();
        if head.contains('.') {
            let i = choose|i: int| 0 <= i < head.len() && head[i] == '.';
            assert(name[i] == '.');
        }
        lemma_no_dot(head);
    }
}

/// The extension is what follows the last dot, and the stem what stands before it. A name
/// without a dot, or with its only one in front, has none.
pub proof fn extension_follows_the_last_dot(front: Seq<char>, ext: Seq<char>)
    requires
        !ext.contains('.'),
    ensures
        front.len() > 0 && ext.len() > 0 ==> extension_of(front + seq!['.'] + ext) == Some(ext)
            && stem_of(front + seq!['.'] + ext) == front,
        extension_of(ext) is None && stem_of(ext) == ext,
        extension_of(seq!['.'] + ext) is None && stem_of(seq!['.'] + ext) == seq!['.'] + ext,
{
    let name = front + seq!['.'] + ext;
    lemma_last_dot(front, ext);
    lemma_no_dot(ext);
    if front.len() > 0 && ext.len() > 0 {
        assert(name.skip(front.len() as int + 1) =~= ext);
        assert(name.take(front.len() as int) =~= front);
        if name =~= seq!['.', '.'] {
            assert(name.len() == 2);
        }
        assert(name != seq!['.', '.']);
    }
    lemma_last_dot(seq![], ext);
    assert(Seq::<char>::empty() + seq!['.'] + ext =~= seq!['.'] + ext);
}

/// Whether a file is of a kind goes by its extension alone, in any case of its letters.
pub proof fn kind_goes_by_the_extension(
    front: Seq<char>,
    other: Seq<char>,
    ext: Seq<char>,
    same: Seq<char>,
    exts: Seq<Seq<char>>,
    k: int,
)
    requires
        front.len() > 0,
        other.len() > 0,
        ext.len() > 0,
        same.len() > 0,
        !ext.contains('.'),
        !same.contains('.'),
        ascii_lowered(ext) == ascii_lowered(same),
    ensures
        has_ext(front + seq!['.'] + ext, exts) == has_ext(other + seq!['.'] + same, exts),
        0 <= k < exts.len() && exts[k] == ext ==> has_ext(front + seq!['.'] + same, exts),
        !has_ext(ext, exts),
{
    extension_follows_the_last_dot(front, ext);
    extension_follows_the_last_dot(front, same);
    extension_follows_the_last_dot(other, same);
}

pub(crate) proof fn formats_have_plain_extensions(f: OutputFormat)
    ensures
        f.ext_spec().len() > 0,
        !f.ext_spec().contains('.'),
        ascii_lowered(f.ext_spec()) == f.ext_spec(),
{
    reveal_strlit("mp4");
    reveal_strlit("mkv");
    reveal_strlit("mov");
    reveal_strlit("avi");
    reveal_strlit("webm");
    let e = f.ext_spec();
    assert(forall|i: int| 0 <= i < e.len() ==> #[trigger] e[i] != '.' && !('A' <= e[i] <= 'Z'));
    assert(ascii_lowered(e) =~= e) by {
        assert forall|i: int| 0 <= i < e.len() implies #[trigger] ascii_lowered(e)[i] == e[i] by {
            small_letters_stand_for_capitals(e[i]);
        }
    }
}

/// The name of a video has the extension of its format, whatever it had before: a name
/// that has it stays as it is, the extension of another format is replaced, and any other
/// name is kept whole in front.
pub proof fn video_is_named_for_its_format(name: Seq<char>, f: OutputFormat)
    requires
        name.len() > 0,
    ensures
        format_for(video_name(name, f)) == f,
        video_name(video_name(name, f), f) == video_name(name, f),
        extension_of(name) matches Some(e) ==> ascii_lowered(e) == f.ext_spec() ==> video_name(
            name,
            f,
        ) == name,
        extension_of(name) matches Some(e) ==> ascii_lowered(e) != f.ext_spec()
            && OutputFormat::from_ext_spec(ascii_lowered(e)) is Some ==> stem_of(
            video_name(name, f),
        ) == stem_of(name) && extension_of(video_name(name, f)) == Some(f.ext_spec()),
        extension_of(name) matches Some(e) ==> OutputFormat::from_ext_spec(ascii_lowered(e))
            is None ==> stem_of(video_name(name, f)) == name,
        extension_of(name) is None ==> stem_of(video_name(name, f)) == name && extension_of(
            video_name(name, f),
        ) == Some(f.ext_spec()),
{
    formats_have_plain_extensions(f);
    format_is_found_by_its_extension(f, f.ext_spec());
    extension_follows_the_last_dot(name, f.ext_spec());
    stem_and_extension_make_the_name(name);
    if extension_of(name) is Some {
        crate::files::lemma_last_dot(name);
        extension_follows_the_last_dot(stem_of(name), f.ext_spec());
    }
}

/// The format of a video goes by its extension, in any case of its letters; it is MP4 for
/// any other one.
pub proof fn format_goes_by_the_extension(front: Seq<char>, ext: Seq<char>, f: OutputFormat)
    requires
        front.len() > 0,
        ext.len() > 0,
        !ext.contains('.'),
    ensures
        ascii_lowered(ext) == f.ext_spec() ==> format_for(front + seq!['.'] + ext) == f,
        OutputFormat::from_ext_spec(ascii_lowered(ext)) is None ==> format_for(
            front + seq!['.'] + ext,
        ) == OutputFormat::Mp4,
        format_for(ext) == OutputFormat::Mp4,
{
    extension_follows_the_last_dot(front, ext);
    format_is_found_by_its_extension(f, f.ext_spec());
}

/// The name of a project has the extension of projects: a name that has it stays as it
/// is, and any other is kept whole in front.
pub proof fn project_has_its_extension(name: Seq<char>)
    requires
        name.len() > 0,
    ensures
        has_ext(project_name(name), seq![project_ext()]),
        project_name(project_name(name)) == project_name(name),
        has_ext(name, seq![project_ext()]) ==> project_name(name) == name,
        !has_ext(name, seq![project_ext()]) ==> project_name(name) == name + seq!['.']
            + project_ext(),
{
    reveal_strlit("p2v");
    let e = project_ext();
    assert(forall|i: int| 0 <= i < e.len() ==> #[trigger] e[i] != '.');
    extension_follows_the_last_dot(name, e);
    assert(seq![project_ext()][0] == e);
}

proof fn lemma_quoted(a: Seq<char>, b: Seq<char>, colons: bool)
    ensures
        quoted(a + b, colons) == quoted(a, colons) + quoted(b, colons),
    decreases b.len(),
{
    if b.len() == 0 {
        assert(a + b =~= a);
        assert(quoted(a, colons) + quoted(b, colons) =~= quoted(a, colons));
    } else {
        assert((a + b).drop_last() =~= a + b.drop_last());
        lemma_quoted(a, b.drop_last(), colons);
        assert(quoted(a + b, colons) =~= quoted(a, colons) + quoted(b, colons));
    }
}

/// A path is quoted character by character: backslashes become slashes, a quote closes
/// the quotation, stands behind a backslash and opens it again, and in filters a colon
/// stands behind a backslash. Every other character stays.
pub proof fn paths_are_quoted_by_character(p: Seq<char>, colons: bool, k: int)
    requires
        0 <= k < p.len(),
    ensures
        quoted(p, colons) == quoted(p.take(k), colons) + quoted_char(p[k], colons) + quoted(
            p.skip(k + 1),
            colons,
        ),
        quoted(p.take(0), colons) == Seq::<char>::empty(),
        p[k] != '\\' && p[k] != '\'' && p[k] != ':' ==> quoted_char(p[k], colons) == seq![p[k]],
        quoted_char('\\', colons) == seq!['/'],
        quoted_char('\'', colons) == seq!['\'', '\\', '\'', '\''],
        quoted_char(':', true) == seq!['\\', ':'],
        quoted_char(':', false) == seq![':'],
{
    let one = seq![p[k]];
    assert(p =~= p.take(k) + one + p.skip(k + 1));
    lemma_quoted(p.take(k) + one, p.skip(k + 1), colons);
    lemma_quoted(p.take(k), one, colons);
    assert(one.drop_last() =~= seq![]);
    assert(quoted(one.drop_last(), colons) =~= seq![]);
    assert(quoted(one, colons) =~= quoted_char(p[k], colons));
}

/// A line of the list names its file within quotes.
pub proof fn list_line_names_its_file(path: Seq<char>)
    ensures
        file_line(path) == "file "@ + seq!['\''] + quoted(path, false) + seq!['\'', '\n'],
{
    assert("file '"@ =~= "file "@ + seq!['\'']) by {
        reveal_strlit("file '");
        reveal_strlit("file ");
    }
    assert("'\n"@ =~= seq!['\'', '\n']) by {
        reveal_strlit("'\n");
    }
}

/// A caption is drawn from its file, in the font, the size and the colours of its look,
/// with its middle at its place.
pub proof fn caption_is_drawn_as_it_looks(
    look: LookView,
    file: Seq<char>,
    at: PlacementView,
    plain: LookView,
)
    requires
        plain == (LookView { boxed: false, ..look }),
    ensures
        ({
            let d = drawtext(plain, file, at, None);
            &&& begins(
                d,
                "drawtext=expansion=none:fontfile='"@ + quoted(look.font, true) + "':textfile='"@
                    + quoted(file, true) + "':"@,
            )
            &&& has_part(d, ":fontsize="@ + at.size + ":"@)
            &&& has_part(d, ":fontcolor="@ + look.color + ":"@)
            &&& has_part(d, ":borderw="@ + dec_int(look.outline_w as int) + ":"@)
            &&& has_part(d, ":bordercolor="@ + look.outline_color + ":"@)
            &&& ends(d, ":x=(w*"@ + at.x + "-text_w/2):y=(h*"@ + at.y + "-text_h/2)"@)
        }),
{
    let d = drawtext(plain, file, at, None);
    let q = quoted(look.font, true);
    let f = quoted(file, true);
    let w = dec_int(look.outline_w as int);
    assert("':fontsize="@ =~= "':"@ + "fontsize="@) by {
        reveal_strlit("':fontsize=");
        reveal_strlit("':");
        reveal_strlit("fontsize=");
    }
    assert("':fontsize="@ =~= "'"@ + ":fontsize="@) by {
        reveal_strlit("':fontsize=");
        reveal_strlit("'");
        reveal_strlit(":fontsize=");
    }
    assert(":fontcolor="@ =~= ":"@ + "fontcolor="@) by {
        reveal_strlit(":fontcolor=");
        reveal_strlit(":");
        reveal_strlit("fontcolor=");
    }
    assert(":borderw="@ =~= ":"@ + "borderw="@) by {
        reveal_strlit(":borderw=");
        reveal_strlit(":");
        reveal_strlit("borderw=");
    }
    assert(":bordercolor="@ =~= ":"@ + "bordercolor="@) by {
        reveal_strlit(":bordercolor=");
        reveal_strlit(":");
        reveal_strlit("bordercolor=");
    }
    assert(":x=(w*"@ =~= ":"@ + "x=(w*"@) by {
        reveal_strlit(":x=(w*");
        reveal_strlit(":");
        reveal_strlit("x=(w*");
    }
    lemma_drawtext(d, q, f, w, look.color, look.outline_color, at);
}

proof fn lemma_drawtext(
    d: Seq<char>,
    q: Seq<char>,
    f: Seq<char>,
    w: Seq<char>,
    color: Seq<char>,
    outline: Seq<char>,
    at: PlacementView,
)
    requires
        d == "drawtext=expansion=none:fontfile='"@ + q + "':textfile='"@ + f + "':fontsize="@
            + at.size + ":fontcolor="@ + color + ":borderw="@ + w + ":bordercolor="@ + outline
            + ":x=(w*"@ + at.x + "-text_w/2):y=(h*"@ + at.y + "-text_h/2)"@,
        "':fontsize="@ == "':"@ + "fontsize="@,
        "':fontsize="@ == "'"@ + ":fontsize="@,
        ":fontcolor="@ == ":"@ + "fontcolor="@,
        ":borderw="@ == ":"@ + "borderw="@,
        ":bordercolor="@ == ":"@ + "bordercolor="@,
        ":x=(w*"@ == ":"@ + "x=(w*"@,
    ensures
        begins(d, "drawtext=expansion=none:fontfile='"@ + q + "':textfile='"@ + f + "':"@),
        has_part(d, ":fontsize="@ + at.size + ":"@),
        has_part(d, ":fontcolor="@ + color + ":"@),
        has_part(d, ":borderw="@ + w + ":"@),
        has_part(d, ":bordercolor="@ + outline + ":"@),
        ends(d, ":x=(w*"@ + at.x + "-text_w/2):y=(h*"@ + at.y + "-text_h/2)"@),
{
    broadcast use crate::text::following_texts_go_together;

    let lead = "drawtext=expansion=none:fontfile='"@ + q + "':textfile='"@ + f;
    let tail = at.x + "-text_w/2):y=(h*"@ + at.y + "-text_h/2)"@;
    assert(d == (lead + "':"@) + ("fontsize="@ + at.size + ":fontcolor="@ + color + ":borderw="@ + w
        + ":bordercolor="@ + outline + ":x=(w*"@ + tail));
    assert(d == (lead + "'"@) + (":fontsize="@ + at.size + ":"@) + ("fontcolor="@ + color
        + ":borderw="@ + w + ":bordercolor="@ + outline + ":x=(w*"@ + tail));
    assert(d == (lead + "':fontsize="@ + at.size) + (":fontcolor="@ + color + ":"@) + ("borderw="@
        + w + ":bordercolor="@ + outline + ":x=(w*"@ + tail));
    assert(d == (lead + "':fontsize="@ + at.size + ":fontcolor="@ + color) + (":borderw="@ + w
        + ":"@) + ("bordercolor="@ + outline + ":x=(w*"@ + tail));
    assert(d == (lead + "':fontsize="@ + at.size + ":fontcolor="@ + color + ":borderw="@ + w) + (
    ":bordercolor="@ + outline + ":"@) + ("x=(w*"@ + tail));
    assert(d == (lead + "':fontsize="@ + at.size + ":fontcolor="@ + color + ":borderw="@ + w
        + ":bordercolor="@ + outline) + (":x=(w*"@ + at.x + "-text_w/2):y=(h*"@ + at.y
        + "-text_h/2)"@));
}

/// A box is added behind the letters exactly if the look has one, and the time behind
/// that exactly if the caption is not always shown.
pub proof fn box_and_time_are_added_behind(
    look: LookView,
    file: Seq<char>,
    at: PlacementView,
    from: Seq<char>,
    to: Seq<char>,
)
    ensures
        drawtext(LookView { boxed: true, ..look }, file, at, None) == drawtext(
            LookView { boxed: false, ..look },
            file,
            at,
            None,
        ) + ":box=1:boxcolor=black@0.4:boxborderw="@ + at.pad,
        drawtext(look, file, at, Some((from, to))) == drawtext(look, file, at, None) + ":enable='"@
            + between(from, to) + "'"@,
        between(from, to) == "between(t,"@ + from + seq![','] + to + seq![')'],
{
    assert(","@ =~= seq![',']) by {
        reveal_strlit(",");
    }
    assert(")"@ =~= seq![')']) by {
        reveal_strlit(")");
    }
}

/// A caption of the video is drawn from its file, at its place and in its time; on a
/// canvas of its own it is drawn in the middle and always.
pub proof fn layers_are_drawn_in_place_and_time(look: LookView, l: LayerView)
    ensures
        plain_layer(look, l) == drawtext(look, l.file, l.at, Some((l.from, l.to))),
        centred_layer(look, l) + ":enable='"@ + between(l.from, l.to) + "'"@ == plain_layer(
            look,
            LayerView { at: PlacementView { x: "0.5000"@, y: "0.5000"@, ..l.at }, ..l },
        ),
{
}

/// A colour is written as red, green and blue, each with two hexadecimal digits that read
/// back as its value, then an at sign and alpha in thousandths.
pub proof fn colour_reads_back(c: Rgba)
    ensures
        ({
            let s = color_code(c);
            &&& s.len() > 9 && s[0] == '0' && s[1] == 'x' && s[8] == '@'
            &&& 16 * hex_value(s[2]) + hex_value(s[3]) == c.r
            &&& 16 * hex_value(s[4]) + hex_value(s[5]) == c.g
            &&& 16 * hex_value(s[6]) + hex_value(s[7]) == c.b
            &&& forall|i: int|
                2 <= i < 8 ==> '0' <= #[trigger] s[i] <= '9' || 'A' <= s[i] <= 'F'
            &&& s.skip(9) == fixed(alpha_units(c.a), 3)
        }),
{
    reveal_strlit("0x");
    reveal_strlit("@");
    let s = color_code(c);
    let tail = fixed(alpha_units(c.a), 3);
    lemma_hex(c.r / 16);
    lemma_hex(c.r % 16);
    lemma_hex(c.g / 16);
    lemma_hex(c.g % 16);
    lemma_hex(c.b / 16);
    lemma_hex(c.b % 16);
    assert(s.skip(9) =~= tail);
    lemma_fixed_is_not_empty(alpha_units(c.a));
}

proof fn lemma_fixed_is_not_empty(n: int)
    ensures
        fixed(n, 3).len() > 0,
{
    crate::text::fixed_number_reads_back(n, 3);
}

proof fn lemma_hex(n: u8)
    requires
        n < 16,
    ensures
        hex_value(hex_digit(n)) == n,
        '0' <= hex_digit(n) <= '9' || 'A' <= hex_digit(n) <= 'F',
{
    if n < 10 {
        assert((48 + n) as char as int == 48 + n);
    } else {
        assert((55 + n) as char as int == 55 + n);
    }
}

/// Alpha in thousandths is the nearest whole number to its part of 255.
pub proof fn alpha_is_rounded(a: u8)
    ensures
        -255 <= 2 * (255 * alpha_units(a) - 1000 * a) <= 255,
        alpha_units(0) == 0,
        alpha_units(255) == 1000,
{
}

/// A photo is shown for its part of a second, or for a whole number of frames: the number
/// that is nearest to it, and of two the greater one.
pub proof fn photos_take_their_part_of_a_second(fps: u32)
    requires
        1 <= fps <= 60,
    ensures
        shown_for(fps, false).num * fps == shown_for(fps, false).den,
        shown_for(fps, true).den == 30 && shown_for(fps, true).num == frames_for(fps as int),
        frames_for(fps as int) >= 1,
        -fps < 2 * (frames_for(fps as int) * fps - 30) <= fps,
{
    let f = fps as int;
    let q = (60 + f) / (2 * f);
    assert(-f < 2 * (q * f - 30) <= f) by (nonlinear_arith)
        requires
            1 <= f <= 60,
            q == (60 + f) / (2 * f),
    ;
    assert(1 <= q <= 30) by (nonlinear_arith)
        requires
            1 <= f <= 60,
            q == (60 + f) / (2 * f),
    ;
}

/// A video takes more than a second exactly if it has more photos than are shown in one.
pub proof fn long_videos_have_many_photos(fps: u32, photos: int, d: Duration)
    ensures
        shown_for(fps, false).over_a_second(photos) <==> photos > fps,
        d.over_a_second(photos) <==> photos * d.num > d.den,
{
}

/// Durations are rounded to the nearest millionth of a second.
pub proof fn durations_are_rounded(d: Duration)
    requires
        d.is_usable(),
    ensures
        -d.den <= 2 * (d.micros() * d.den - 1_000_000 * d.num) <= d.den,
        -20 * d.den <= 2 * (d.fade_micros() * (20 * d.den) - 1_000_000 * d.fade_num()) <= 20
            * d.den,
{
    lemma_nearest_micro(d.num as int, d.den as int);
    lemma_nearest_micro(d.fade_num(), 20 * d.den);
}

proof fn lemma_nearest_micro(num: int, den: int)
    requires
        den > 0,
    ensures
        -den <= 2 * (crate::timing::nearest_micro(num, den) * den - 1_000_000 * num) <= den,
{
    let q = crate::timing::nearest_micro(num, den);
    assert(-den <= 2 * (q * den - 1_000_000 * num) <= den) by (nonlinear_arith)
        requires
            den > 0,
            q == (2_000_000 * num + den) / (2 * den),
    ;
}

/// A fade takes two fifths of the time of a photo where that lies between a twentieth and
/// half of a second, and otherwise the nearest of these, but no more than half the time
/// of the photo.
pub proof fn fade_takes_two_fifths(d: Duration)
    requires
        d.is_usable(),
    ensures
        d.den <= 8 * d.num <= 10 * d.den ==> d.fade_num() == 8 * d.num,
        8 * d.num > 10 * d.den ==> d.fade_num() == 10 * d.den,
        8 * d.num < d.den && d.den <= 10 * d.num ==> d.fade_num() == d.den,
        8 * d.num < d.den && d.den > 10 * d.num ==> d.fade_num() == 10 * d.num,
{
}

/// The darkness of a fade goes by the time since the last change of photos or until the
/// next one, whichever is less, as a part of the time of the fade.
pub proof fn darkness_goes_by_the_nearest_change(d: Duration)
    ensures
        ({
            let each = fixed(d.micros(), 6);
            let since = "mod(t,"@ + each + ")"@;
            d.dip() == "max(0,1-min("@ + since + ","@ + (each + "-"@ + since) + ")/"@ + fixed(
                d.fade_micros(),
                6,
            ) + ")"@
        }),
{
    let each = fixed(d.micros(), 6);
    let fade = fixed(d.fade_micros(), 6);
    assert("max(0,1-min(mod(t,"@ =~= "max(0,1-min("@ + "mod(t,"@) by {
        reveal_strlit("max(0,1-min(mod(t,");
        reveal_strlit("max(0,1-min(");
        reveal_strlit("mod(t,");
    }
    assert("),"@ =~= ")"@ + ","@) by {
        reveal_strlit("),");
        reveal_strlit(")");
        reveal_strlit(",");
    }
    assert("-mod(t,"@ =~= "-"@ + "mod(t,"@) by {
        reveal_strlit("-mod(t,");
        reveal_strlit("-");
        reveal_strlit("mod(t,");
    }
    assert("))/"@ =~= ")"@ + ")/"@) by {
        reveal_strlit("))/");
        reveal_strlit(")");
        reveal_strlit(")/");
    }
    lemma_dip(each, fade);
}

proof fn lemma_dip(each: Seq<char>, fade: Seq<char>)
    requires
        "max(0,1-min(mod(t,"@ == "max(0,1-min("@ + "mod(t,"@,
        "),"@ == ")"@ + ","@,
        "-mod(t,"@ == "-"@ + "mod(t,"@,
        "))/"@ == ")"@ + ")/"@,
    ensures
        ({
            let since = "mod(t,"@ + each + ")"@;
            "max(0,1-min(mod(t,"@ + each + "),"@ + each + "-mod(t,"@ + each + "))/"@ + fade + ")"@
                == "max(0,1-min("@ + since + ","@ + (each + "-"@ + since) + ")/"@ + fade + ")"@
        }),
{
    broadcast use crate::text::following_texts_go_together;

}

/// The kinds of photos and of music are told by their extensions.
pub proof fn photos_and_music_are_told_by_extension(front: Seq<char>)
    requires
        front.len() > 0,
    ensures
        has_ext(front + ".jpg"@, image_exts()),
        has_ext(front + ".jpeg"@, image_exts()),
        has_ext(front + ".png"@, image_exts()),
        has_ext(front + ".bmp"@, image_exts()),
        has_ext(front + ".webp"@, image_exts()),
        has_ext(front + ".tif"@, image_exts()),
        has_ext(front + ".tiff"@, image_exts()),
        has_ext(front + ".mp3"@, audio_exts()),
        has_ext(front + ".wav"@, audio_exts()),
        has_ext(front + ".m4a"@, audio_exts()),
        has_ext(front + ".aac"@, audio_exts()),
        has_ext(front + ".flac"@, audio_exts()),
        has_ext(front + ".ogg"@, audio_exts()),
        has_ext(front + ".opus"@, audio_exts()),
        has_ext(front + ".wma"@, audio_exts()),
        image_exts().len() == 7,
        audio_exts().len() == 8,
{
    reveal_strlit(".jpg");
    reveal_strlit(".jpeg");
    reveal_strlit(".png");
    reveal_strlit(".bmp");
    reveal_strlit(".webp");
    reveal_strlit(".tif");
    reveal_strlit(".tiff");
    reveal_strlit("jpg");
    reveal_strlit("jpeg");
    reveal_strlit("png");
    reveal_strlit("bmp");
    reveal_strlit("webp");
    reveal_strlit("tif");
    reveal_strlit("tiff");
    lemma_kind(front, "jpg"@, ".jpg"@, image_exts(), 0);
    lemma_kind(front, "jpeg"@, ".jpeg"@, image_exts(), 1);
    lemma_kind(front, "png"@, ".png"@, image_exts(), 2);
    lemma_kind(front, "bmp"@, ".bmp"@, image_exts(), 3);
    lemma_kind(front, "webp"@, ".webp"@, image_exts(), 4);
    lemma_kind(front, "tif"@, ".tif"@, image_exts(), 5);
    lemma_kind(front, "tiff"@, ".tiff"@, image_exts(), 6);
    lemma_music(front);
}

proof fn lemma_music(front: Seq<char>)
    requires
        front.len() > 0,
    ensures
        has_ext(front + ".mp3"@, audio_exts()),
        has_ext(front + ".wav"@, audio_exts()),
        has_ext(front + ".m4a"@, audio_exts()),
        has_ext(front + ".aac"@, audio_exts()),
        has_ext(front + ".flac"@, audio_exts()),
        has_ext(front + ".ogg"@, audio_exts()),
        has_ext(front + ".opus"@, audio_exts()),
        has_ext(front + ".wma"@, audio_exts()),
{
    reveal_strlit(".mp3");
    reveal_strlit(".wav");
    reveal_strlit(".m4a");
    reveal_strlit(".aac");
    reveal_strlit(".flac");
    reveal_strlit(".ogg");
    reveal_strlit(".opus");
    reveal_strlit(".wma");
    reveal_strlit("mp3");
    reveal_strlit("wav");
    reveal_strlit("m4a");
    reveal_strlit("aac");
    reveal_strlit("flac");
    reveal_strlit("ogg");
    reveal_strlit("opus");
    reveal_strlit("wma");
    lemma_kind(front, "mp3"@, ".mp3"@, audio_exts(), 0);
    lemma_kind(front, "wav"@, ".wav"@, audio_exts(), 1);
    lemma_kind(front, "m4a"@, ".m4a"@, audio_exts(), 2);
    lemma_kind(front, "aac"@, ".aac"@, audio_exts(), 3);
    lemma_kind(front, "flac"@, ".flac"@, audio_exts(), 4);
    lemma_kind(front, "ogg"@, ".ogg"@, audio_exts(), 5);
    lemma_kind(front, "opus"@, ".opus"@, audio_exts(), 6);
    lemma_kind(front, "wma"@, ".wma"@, audio_exts(), 7);
}

proof fn lemma_kind(
    front: Seq<char>,
    ext: Seq<char>,
    dotted: Seq<char>,
    exts: Seq<Seq<char>>,
    k: int,
)
    requires
        front.len() > 0,
        ext.len() > 0,
        forall|i: int| 0 <= i < ext.len() ==> #[trigger] ext[i] != '.',
        dotted.len() == ext.len() + 1,
        dotted[0] == '.',
        forall|i: int| 0 <= i < ext.len() ==> dotted[i + 1] == #[trigger] ext[i],
        0 <= k < exts.len(),
        exts[k] == ext,
    ensures
        has_ext(front + dotted, exts),
{
    assert(dotted =~= seq!['.'] + ext);
    assert(front + dotted =~= front + seq!['.'] + ext);
    kind_goes_by_the_extension(front, front, ext, ext, exts, k);
}

} // verus!
