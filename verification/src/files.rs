//! File names and path texts: kinds of files, names of outputs, quoting for ffmpeg.

use crate::options::{str_views, OutputFormat};
use crate::text::{
    ascii_lowercase, ascii_lowered, eq_ignore_ascii_case, from_chars, lower, lowercase, same,
    to_chars,
};
use vstd::prelude::*;

verus! {

broadcast use vstd::seq_lib::group_seq_properties;

/// The place of the last dot of a name, or -1.
pub open spec fn last_dot(name: Seq<char>) -> int
    decreases name.len(),
{
    if name.len() == 0 {
        -1
    } else if name.last() == '.' {
        name.len() - 1
    } else {
        last_dot(name.drop_last())
    }
}

/// What stands behind the last dot of a file name. A name without a dot, or with its
/// only dot in front, has no extension.
pub open spec fn extension_of(name: Seq<char>) -> Option<Seq<char>> {
    if name == seq!['.', '.'] || last_dot(name) <= 0 {
        None
    } else {
        Some(name.skip(last_dot(name) + 1))
    }
}

/// A file name without its extension and the dot before it.
pub open spec fn stem_of(name: Seq<char>) -> Seq<char> {
    if name == seq!['.', '.'] || last_dot(name) <= 0 {
        name
    } else {
        name.take(last_dot(name))
    }
}

pub(crate) proof fn lemma_last_dot(name: Seq<char>)
    ensures
        -1 <= last_dot(name) < name.len(),
        last_dot(name) >= 0 ==> name[last_dot(name)] == '.',
    decreases name.len(),
{
    if name.len() > 0 && name.last() != '.' {
        lemma_last_dot(name.drop_last());
    }
}

/// Stem, dot and extension make up the name again.
pub proof fn stem_and_extension_make_the_name(name: Seq<char>)
    ensures
        match extension_of(name) {
            Some(e) => name == stem_of(name) + seq!['.'] + e,
            None => name == stem_of(name),
        },
{
    lemma_last_dot(name);
    if extension_of(name) is Some {
        let k = last_dot(name);
        assert(name =~= name.take(k) + seq!['.'] + name.skip(k + 1));
    }
}

/// The place of the dot before the extension.
fn dot_place(v: &Vec<char>) -> (r: Option<usize>)
    ensures
        match r {
            Some(k) => 0 < k < v.len() && k == last_dot(v@) && v@ != seq!['.', '.'],
            None => last_dot(v@) <= 0 || v@ == seq!['.', '.'],
        },
{
    if v.len() == 2 && v[0] == '.' && v[1] == '.' {
        assert(v@ =~= seq!['.', '.']);
        return None;
    }
    let mut n: usize = v.len();
    assert(v@.take(n as int) =~= v@);
    while n > 0
        invariant
            n <= v.len(),
            last_dot(v@) == last_dot(v@.take(n as int)),
            v@ != seq!['.', '.'],
        decreases n,
    {
        assert(v@.take(n as int).drop_last() =~= v@.take(n - 1));
        if v[n - 1] == '.' {
            return if n > 1 {
                Some(n - 1)
            } else {
                None
            };
        }
        n -= 1;
    }
    None
}

/// The extension of a file name.
pub fn extension(name: &str) -> (r: Option<String>)
    ensures
        match r {
            Some(e) => extension_of(name@) == Some(e@),
            None => extension_of(name@) is None,
        },
{
    let v = to_chars(name);
    match dot_place(&v) {
        Some(k) => {
            let e = from_chars(&v, k + 1, v.len());
            assert(e@ =~= v@.skip(k + 1));
            Some(e)
        },
        None => None,
    }
}

/// A file name without its extension and the dot before it.
pub fn stem(name: &str) -> (r: String)
    ensures
        r@ == stem_of(name@),
{
    let v = to_chars(name);
    match dot_place(&v) {
        Some(k) => {
            let e = from_chars(&v, 0, k);
            assert(e@ =~= v@.take(k as int));
            e
        },
        None => name.to_owned(),
    }
}

/// Whether the extension of a file name is one of `exts`; the case of ASCII letters does
/// not count.
pub open spec fn has_ext(name: Seq<char>, exts: Seq<Seq<char>>) -> bool {
    match extension_of(name) {
        Some(e) => exists|i: int|
            0 <= i < exts.len() && ascii_lowered(e) == ascii_lowered(#[trigger] exts[i]),
        None => false,
    }
}

/// Whether the extension of a file name is one of `exts`; the case of ASCII letters does
/// not count.
pub fn ext_in(name: &str, exts: &[&str]) -> (r: bool)
    ensures
        r == has_ext(name@, str_views(exts@)),
{
    let e = match extension(name) {
        Some(e) => e,
        None => {
            return false;
        },
    };
    let ghost views = str_views(exts@);
    let mut i: usize = 0;
    while i < exts.len()
        invariant
            i <= exts.len(),
            views == str_views(exts@),
            extension_of(name@) == Some(e@),
            forall|k: int| 0 <= k < i ==> ascii_lowered(e@) != ascii_lowered(#[trigger] views[k]),
        decreases exts.len() - i,
    {
        if eq_ignore_ascii_case(e.as_str(), exts[i]) {
            assert(ascii_lowered(e@) == ascii_lowered(views[i as int]));
            return true;
        }
        assert(views[i as int] == exts[i as int]@);
        i += 1;
    }
    false
}

/// The kinds of image files that can be shown.
pub open spec fn image_exts() -> Seq<Seq<char>> {
    seq!["jpg"@, "jpeg"@, "png"@, "bmp"@, "webp"@, "tif"@, "tiff"@]
}

/// The kinds of audio files that can be played.
pub open spec fn audio_exts() -> Seq<Seq<char>> {
    seq!["mp3"@, "wav"@, "m4a"@, "aac"@, "flac"@, "ogg"@, "opus"@, "wma"@]
}

/// The extension of project files.
pub open spec fn project_ext() -> Seq<char> {
    "p2v"@
}

/// The kinds of image files that can be shown.
pub fn image_ext_list() -> (r: Vec<&'static str>)
    ensures
        str_views(r@) == image_exts(),
{
    let r = vec!["jpg", "jpeg", "png", "bmp", "webp", "tif", "tiff"];
    assert(str_views(r@) =~= image_exts());
    r
}

/// The kinds of audio files that can be played.
pub fn audio_ext_list() -> (r: Vec<&'static str>)
    ensures
        str_views(r@) == audio_exts(),
{
    let r = vec!["mp3", "wav", "m4a", "aac", "flac", "ogg", "opus", "wma"];
    assert(str_views(r@) =~= audio_exts());
    r
}

/// Whether a file name is that of an image.
pub fn is_image(name: &str) -> (r: bool)
    ensures
        r == has_ext(name@, image_exts()),
{
    let exts = image_ext_list();
    ext_in(name, exts.as_slice())
}

/// Whether a file name is that of an audio file.
pub fn is_audio(name: &str) -> (r: bool)
    ensures
        r == has_ext(name@, audio_exts()),
{
    let exts = audio_ext_list();
    ext_in(name, exts.as_slice())
}

/// Whether a file name is that of a project.
pub fn is_project_file(name: &str) -> (r: bool)
    ensures
        r == has_ext(name@, seq![project_ext()]),
{
    let exts = vec!["p2v"];
    assert(str_views(exts@) =~= seq![project_ext()]);
    ext_in(name, exts.as_slice())
}

/// Whether two paths are equal but for the case of letters.
pub fn same_path_ci(a: &str, b: &str) -> (r: bool)
    ensures
        r == (lowercase(a@) == lowercase(b@)),
{
    lower(a) == lower(b)
}

/// The file name for a video in format `f` where the user asked for `name`: right as it
/// is if the extension fits, with the extension exchanged if it is that of another
/// format, and with the extension put behind otherwise.
pub open spec fn video_name(name: Seq<char>, f: OutputFormat) -> Seq<char> {
    match extension_of(name) {
        Some(e) => if ascii_lowered(e) == f.ext_spec() {
            name
        } else if OutputFormat::from_ext_spec(ascii_lowered(e)) is Some {
            stem_of(name) + seq!['.'] + f.ext_spec()
        } else {
            name + seq!['.'] + f.ext_spec()
        },
        None => name + seq!['.'] + f.ext_spec(),
    }
}

/// The file name for a video in format `f` where the user asked for `name`.
pub fn output_name(name: &str, f: OutputFormat) -> (r: String)
    ensures
        r@ == video_name(name@, f),
{
    let known: Option<bool> = match extension(name) {
        Some(e) => {
            let low = ascii_lowercase(e.as_str());
            if same(low.as_str(), f.ext()) {
                return name.to_owned();
            }
            Some(OutputFormat::from_ext(low.as_str()).is_some())
        },
        None => None,
    };
    let mut r = match known {
        Some(true) => stem(name),
        _ => name.to_owned(),
    };
    r.push('.');
    r.append(f.ext());
    assert(r@ =~= video_name(name@, f));
    r
}

/// The format that the extension of a file name asks for; MP4 where it asks for none.
pub open spec fn format_for(name: Seq<char>) -> OutputFormat {
    match extension_of(name) {
        Some(e) => match OutputFormat::from_ext_spec(ascii_lowered(e)) {
            Some(f) => f,
            None => OutputFormat::Mp4,
        },
        None => OutputFormat::Mp4,
    }
}

/// The format that the extension of a file name asks for; MP4 where it asks for none.
pub fn format_by_name(name: &str) -> (r: OutputFormat)
    ensures
        r == format_for(name@),
{
    match extension(name) {
        Some(e) => {
            let low = ascii_lowercase(e.as_str());
            match OutputFormat::from_ext(low.as_str()) {
                Some(f) => f,
                None => OutputFormat::Mp4,
            }
        },
        None => OutputFormat::Mp4,
    }
}

/// The file name for a project where the user asked for `name`.
pub open spec fn project_name(name: Seq<char>) -> Seq<char> {
    if has_ext(name, seq![project_ext()]) {
        name
    } else {
        name + seq!['.'] + project_ext()
    }
}

/// The file name for a project where the user asked for `name`.
pub fn project_file_name(name: &str) -> (r: String)
    ensures
        r@ == project_name(name@),
{
    if is_project_file(name) {
        name.to_owned()
    } else {
        let mut r = name.to_owned();
        r.push('.');
        r.append("p2v");
        assert(r@ =~= project_name(name@));
        r
    }
}

/// What a character of a path becomes in a quoted ffmpeg argument. Colons need a
/// backslash in filter graphs only.
pub open spec fn quoted_char(c: char, colons: bool) -> Seq<char> {
    if c == '\\' {
        seq!['/']
    } else if c == ':' && colons {
        seq!['\\', ':']
    } else if c == '\'' {
        seq!['\'', '\\', '\'', '\'']
    } else {
        seq![c]
    }
}

/// A path for use between single quotes in ffmpeg arguments.
pub open spec fn quoted(p: Seq<char>, colons: bool) -> Seq<char>
    decreases p.len(),
{
    if p.len() == 0 {
        seq![]
    } else {
        quoted(p.drop_last(), colons) + quoted_char(p.last(), colons)
    }
}

fn quote(p: &str, colons: bool) -> (r: String)
    ensures
        r@ == quoted(p@, colons),
{
    let v = to_chars(p);
    let mut r: String = String::new();
    let mut i: usize = 0;
    assert(v@.take(0) =~= seq![]);
    while i < v.len()
        invariant
            i <= v.len(),
            v@ == p@,
            r@ == quoted(v@.take(i as int), colons),
        decreases v.len() - i,
    {
        let c: char = v[i];
        assert(v@.take(i + 1).drop_last() =~= v@.take(i as int));
        let ghost before = r@;
        if c == '\\' {
            r.push('/');
        } else if c == ':' && colons {
            r.push('\\');
            r.push(':');
        } else if c == '\'' {
            r.push('\'');
            r.push('\\');
            r.push('\'');
            r.push('\'');
        } else {
            r.push(c);
        }
        assert(r@ =~= before + quoted_char(c, colons));
        i += 1;
    }
    assert(v@.take(v.len() as int) =~= p@);
    r
}

/// A path for use between single quotes in a filter graph.
pub fn ff_path_escape(p: &str) -> (r: String)
    ensures
        r@ == quoted(p@, true),
{
    quote(p, true)
}

/// An absolute path for use between single quotes in a list of files.
pub fn concat_escape(p: &str) -> (r: String)
    ensures
        r@ == quoted(p@, false),
{
    quote(p, false)
}

/// How ffmpeg reads a text with quotes: inside single quotes every character stands for
/// itself; outside, a backslash makes the next character stand for itself.
pub open spec fn unquoted(s: Seq<char>, inside: bool) -> Seq<char>
    decreases s.len(),
{
    if s.len() == 0 {
        seq![]
    } else if s[0] == '\'' {
        unquoted(s.drop_first(), !inside)
    } else if s[0] == '\\' && !inside && s.len() > 1 {
        seq![s[1]] + unquoted(s.skip(2), inside)
    } else {
        seq![s[0]] + unquoted(s.drop_first(), inside)
    }
}

/// The path with forward slashes for backslashes.
pub open spec fn slashed(p: Seq<char>) -> Seq<char> {
    Seq::new(p.len(), |i: int| if p[i] == '\\' { '/' } else { p[i] })
}

proof fn lemma_quoted_front(p: Seq<char>, colons: bool)
    requires
        p.len() > 0,
    ensures
        quoted(p, colons) == quoted_char(p[0], colons) + quoted(p.drop_first(), colons),
    decreases p.len(),
{
    if p.len() == 1 {
        assert(p.drop_last() =~= seq![]);
        assert(p.drop_first() =~= seq![]);
        assert(quoted(p.drop_last(), colons) =~= seq![]);
        assert(quoted(p.drop_first(), colons) =~= seq![]);
        assert(p.last() == p[0]);
        assert(quoted(p, colons) =~= quoted_char(p[0], colons));
    } else {
        lemma_quoted_front(p.drop_last(), colons);
        assert(p.drop_last().drop_first() =~= p.drop_first().drop_last());
        assert(quoted(p, colons) =~= quoted_char(p[0], colons) + quoted(p.drop_first(), colons));
    }
}

proof fn lemma_unquoted_tail(p: Seq<char>)
    ensures
        unquoted(quoted(p, false) + seq!['\''], true) == slashed(p),
    decreases p.len(),
{
    let q = quoted(p, false) + seq!['\''];
    if p.len() == 0 {
        assert(q =~= seq!['\'']);
        assert(unquoted(q.drop_first(), false) =~= seq![]);
        assert(slashed(p) =~= seq![]);
    } else {
        let rest = quoted(p.drop_first(), false) + seq!['\''];
        lemma_quoted_front(p, false);
        lemma_unquoted_tail(p.drop_first());
        let head = quoted_char(p[0], false);
        assert(q =~= head + rest);
        assert(slashed(p) =~= slashed(seq![p[0]]) + slashed(p.drop_first()));
        if p[0] == '\'' {
            let q1 = seq!['\\', '\'', '\''] + rest;
            let q3 = seq!['\''] + rest;
            assert(q.drop_first() =~= q1);
            assert(q1.skip(2) =~= q3);
            assert(q3.drop_first() =~= rest);
            assert(unquoted(q3, false) == unquoted(rest, true));
            assert(unquoted(q1, false) =~= seq!['\''] + unquoted(q3, false));
            assert(slashed(seq![p[0]]) =~= seq!['\'']);
        } else {
            assert(q.drop_first() =~= rest);
            assert(q[0] == head[0]);
            assert(unquoted(q, true) =~= seq![head[0]] + unquoted(rest, true));
            assert(slashed(seq![p[0]]) =~= seq![head[0]]);
        }
    }
}

/// A path in a list of files, read back by ffmpeg, is the path with forward slashes,
/// whatever quotes it holds.
pub proof fn listed_path_reads_back(p: Seq<char>)
    ensures
        unquoted(seq!['\''] + quoted(p, false) + seq!['\''], false) == slashed(p),
{
    lemma_unquoted_tail(p);
    assert((seq!['\''] + quoted(p, false) + seq!['\'']).drop_first() =~= quoted(p, false)
        + seq!['\'']);
}

} // verus!
