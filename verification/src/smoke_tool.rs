//! The command line of the tool that takes smoke out of one photo.

use crate::dehaze::{Region, SmokeParams, MAX_PROTECT};
use crate::release::{fields, split};
use crate::scalar::Scalar;
use crate::text::{
    all_digits, digits_value, number, parse_number, parsed, text_view, texts, to_chars, trim,
    trimmed_end, trimmed_start,
};
use vstd::prelude::*;

verus! {

/// The number that an optional sign and decimal digits write down, if it is one of 32
/// bits.
pub open spec fn signed_number(s: Seq<char>) -> Option<int> {
    if s.len() > 0 && s[0] == '-' {
        let body = s.drop_first();
        if all_digits(body) && number(body) <= 0x8000_0000 {
            Some(-(number(body) as int))
        } else {
            None
        }
    } else {
        match parsed(s, 0x7FFF_FFFF) {
            Some(n) => Some(n as int),
            None => None,
        }
    }
}

/// The number that a text writes down, if it does.
pub fn parse_signed(s: &str) -> (r: Option<i32>)
    ensures
        match r {
            Some(n) => signed_number(s@) == Some(n as int),
            None => signed_number(s@) is None,
        },
{
    let v = to_chars(s);
    if v.len() > 0 && v[0] == '-' {
        assert(v@.skip(1) =~= s@.drop_first());
        match digits_value(&v, 1, 0x8000_0000) {
            Some(n) => Some((0 - n as i64) as i32),
            None => None,
        }
    } else {
        match parse_number(s, 0x7FFF_FFFF) {
            Some(n) => Some(n as i32),
            None => None,
        }
    }
}

/// The number that a text writes down; `default` where there is no text or it writes
/// down none.
pub open spec fn number_or(s: Option<Seq<char>>, default: int) -> int {
    match s {
        Some(t) => match signed_number(t) {
            Some(n) => n,
            None => default,
        },
        None => default,
    }
}

fn read_number(s: Option<&str>, default: i32) -> (r: i32)
    ensures
        r == number_or(
            match s {
                Some(t) => Some(t@),
                None => None,
            },
            default as int,
        ),
{
    match s {
        Some(t) => match parse_signed(t) {
            Some(n) => n,
            None => default,
        },
        None => default,
    }
}

/// The numbers from 0 to 255 among some texts, in order; white space around them does
/// not count, and other texts are passed over.
pub open spec fn bytes_among(parts: Seq<Seq<char>>) -> Seq<u8>
    decreases parts.len(),
{
    if parts.len() == 0 {
        seq![]
    } else {
        let head = bytes_among(parts.drop_last());
        match parsed(trimmed_end(trimmed_start(parts.last())), 255) {
            Some(n) => head.push(n as u8),
            None => head,
        }
    }
}

/// The colour that a text such as `255,128,0` writes down: three numbers between commas.
pub open spec fn color_in(s: Seq<char>) -> Option<Seq<u8>> {
    let v = bytes_among(fields(s, ','));
    if v.len() == 3 {
        Some(v)
    } else {
        None
    }
}

/// The colour that a text such as `255,128,0` writes down, if it does.
pub fn parse_color(s: &str) -> (r: Option<[u8; 3]>)
    ensures
        match r {
            Some(c) => color_in(s@) == Some(c@),
            None => color_in(s@) is None,
        },
{
    let parts = split(s, ',');
    let ghost p = texts(parts@);
    let mut v: Vec<u8> = Vec::new();
    let mut i: usize = 0;
    assert(p.take(0) =~= seq![]);
    while i < parts.len()
        invariant
            i <= parts.len(),
            p == texts(parts@),
            v@ == bytes_among(p.take(i as int)),
        decreases parts.len() - i,
    {
        assert(p[i as int] == parts[i as int]@);
        assert(p.take(i + 1).drop_last() =~= p.take(i as int));
        assert(p.take(i + 1).last() == p[i as int]);
        match parse_number(trim(parts[i].as_str()).as_str(), 255) {
            Some(n) => {
                v.push(n as u8);
            },
            None => {},
        }
        i += 1;
    }
    assert(p.take(p.len() as int) =~= p);
    if v.len() == 3 {
        let c: [u8; 3] = [v[0], v[1], v[2]];
        assert(c@ =~= v@);
        Some(c)
    } else {
        None
    }
}

/// The region whose edges are given: left, top, right and bottom. Fewer or more numbers
/// are none.
pub fn region_of(edges: &Vec<Scalar>) -> (r: Option<Region>)
    ensures
        r == (if edges.len() == 4 {
            Some(Region { x0: edges[0], y0: edges[1], x1: edges[2], y1: edges[3] })
        } else {
            None
        }),
{
    if edges.len() == 4 {
        Some(Region { x0: edges[0], y0: edges[1], x1: edges[2], y1: edges[3] })
    } else {
        None
    }
}

/// The argument at a place of the command line, if there is one.
pub open spec fn arg_at(args: Seq<Seq<char>>, i: int) -> Option<Seq<char>> {
    if i < args.len() {
        Some(args[i])
    } else {
        None
    }
}

fn arg<'a>(args: &'a Vec<String>, i: usize) -> (r: Option<&'a str>)
    ensures
        arg_at(texts(args@), i as int) == (match r {
            Some(t) => Some(t@),
            None => None,
        }),
{
    if i < args.len() {
        Some(args[i].as_str())
    } else {
        None
    }
}

/// What the command line and the environment ask for: the program, the photo, the
/// result, then strength, detail and black in this order where they are given. `protect`
/// is a colour that stays, `tolerance` how far from it a colour may be.
pub fn tool_params(
    args: &Vec<String>,
    region: Option<Region>,
    protect: Option<&str>,
    tolerance: Option<&str>,
) -> (r: SmokeParams)
    ensures
        r.strength == number_or(arg_at(texts(args@), 3), 80),
        r.detail == number_or(arg_at(texts(args@), 4), 60),
        r.black == number_or(arg_at(texts(args@), 5), 30),
        r.region == region,
        r.feather == 25,
        r.tolerance == number_or(
            match tolerance {
                Some(t) => Some(t@),
                None => None,
            },
            30,
        ),
        forall|i: int| 1 <= i < MAX_PROTECT ==> r.protect[i] is None,
        match protect {
            Some(s) => match color_in(s@) {
                Some(c) => r.protect[0] matches Some(x) && x@ == c,
                None => r.protect[0] is None,
            },
            None => r.protect[0] is None,
        },
{
    let mut p = SmokeParams::default();
    p.strength = read_number(arg(args, 3), 80);
    p.detail = read_number(arg(args, 4), 60);
    p.black = read_number(arg(args, 5), 30);
    p.region = region;
    p.tolerance = read_number(tolerance, 30);
    match protect {
        Some(s) => match parse_color(s) {
            Some(c) => {
                p.protect[0] = Some(c);
            },
            None => {},
        },
        None => {},
    }
    p
}

/// What the tool says where the photo or the result is not named.
pub fn tool_usage(args: &Vec<String>) -> (r: Option<String>)
    ensures
        text_view(r) == (if args.len() < 3 {
            Some("用法：smoke_cli <輸入> <輸出> [strength] [detail] [black]"@)
        } else {
            None
        }),
{
    if args.len() < 3 {
        Some("用法：smoke_cli <輸入> <輸出> [strength] [detail] [black]".to_owned())
    } else {
        None
    }
}

/// Whether `.jpg` stands at place `i`.
pub open spec fn jpg_at(s: Seq<char>, i: int) -> bool {
    i + 4 <= s.len() && s[i] == '.' && s[i + 1] == 'j' && s[i + 2] == 'p' && s[i + 3] == 'g'
}

/// The rest of a name from place `i` on with `_layer` in front of each `.jpg`.
pub open spec fn layered(s: Seq<char>, i: int) -> Seq<char>
    decreases s.len() - i,
{
    if i < 0 || i >= s.len() {
        seq![]
    } else if jpg_at(s, i) {
        "_layer.jpg"@ + layered(s, i + 4)
    } else {
        seq![s[i]] + layered(s, i + 1)
    }
}

/// The file for the smoke itself, beside the result.
pub fn layer_name(out: &str) -> (r: String)
    ensures
        r@ == layered(out@, 0),
{
    let v = to_chars(out);
    let mut r: String = String::new();
    let mut i: usize = 0;
    assert(r@ + layered(out@, 0) =~= layered(out@, 0));
    while i < v.len()
        invariant
            i <= v.len(),
            v@ == out@,
            r@ + layered(out@, i as int) == layered(out@, 0),
        decreases v.len() - i,
    {
        let ghost before = r@;
        if v.len() - i >= 4 && v[i] == '.' && v[i + 1] == 'j' && v[i + 2] == 'p' && v[i + 3]
            == 'g' {
            r.append("_layer.jpg");
            assert(r@ + layered(out@, i + 4) =~= before + ("_layer.jpg"@ + layered(
                out@,
                i + 4,
            )));
            i += 4;
        } else {
            r.push(v[i]);
            assert(r@ + layered(out@, i + 1) =~= before + (seq![v[i as int]] + layered(
                out@,
                i + 1,
            )));
            i += 1;
        }
    }
    assert(r@ + layered(out@, i as int) =~= r@);
    r
}

} // verus!
