//! Version numbers and the question whether there is a newer release.

use crate::text::{
    dec, from_chars, is_blank, is_digit, is_space, joined, parse_number, parsed, texts, to_chars,
    trim, trimmed_end, trimmed_start, white_space_around_is_taken_away, written_number_is_parsed,
    written_number_reads_back,
};
use vstd::prelude::*;

verus! {

broadcast use vstd::seq_lib::group_seq_properties;

/// The fields of a text between the separators.
pub open spec fn fields(s: Seq<char>, sep: char) -> Seq<Seq<char>>
    decreases s.len(),
{
    if s.len() == 0 {
        seq![seq![]]
    } else {
        let head = fields(s.drop_last(), sep);
        if s.last() == sep {
            head.push(seq![])
        } else {
            head.drop_last().push(head.last().push(s.last()))
        }
    }
}

/// The text without any `v` and `V` in front.
pub open spec fn without_v(s: Seq<char>) -> Seq<char>
    decreases s.len(),
{
    if s.len() > 0 && (s[0] == 'v' || s[0] == 'V') {
        without_v(s.drop_first())
    } else {
        s
    }
}

/// The version number that a tag such as `v1.2.3` names: two or three numbers with dots
/// between them, the third being zero where it is missing. What follows a third dot does
/// not count.
pub open spec fn version_of(s: Seq<char>) -> Option<(u64, u64, u64)> {
    let f = fields(without_v(trimmed_end(trimmed_start(s))), '.');
    let number = |i: int| parsed(f[i], u64::MAX as nat);
    if f.len() < 2 || number(0) is None || number(1) is None || (f.len() > 2 && number(2) is None) {
        None
    } else {
        Some(
            (
                number(0).unwrap() as u64,
                number(1).unwrap() as u64,
                if f.len() > 2 {
                    number(2).unwrap() as u64
                } else {
                    0
                },
            ),
        )
    }
}

/// The fields of a text between the separators.
pub fn split(s: &str, sep: char) -> (r: Vec<String>)
    ensures
        texts(r@) == fields(s@, sep),
{
    let v = to_chars(s);
    let mut r: Vec<String> = Vec::new();
    let mut field: String = String::new();
    let mut i: usize = 0;
    assert(v@.take(0) =~= seq![]);
    assert(texts(r@).push(field@) =~= seq![seq![]]);
    while i < v.len()
        invariant
            i <= v.len(),
            v@ == s@,
            texts(r@).push(field@) == fields(v@.take(i as int), sep),
        decreases v.len() - i,
    {
        let c: char = v[i];
        assert(v@.take(i + 1).drop_last() =~= v@.take(i as int));
        let ghost head = fields(v@.take(i as int), sep);
        assert(head.last() == field@);
        assert(head.drop_last() =~= texts(r@));
        if c == sep {
            r.push(field);
            assert(texts(r@) =~= head);
            field = String::new();
            assert(field@ =~= seq![]);
        } else {
            field.push(c);
        }
        i += 1;
    }
    assert(v@.take(v.len() as int) =~= s@);
    let ghost head = texts(r@);
    r.push(field);
    assert(texts(r@) =~= head.push(field@));
    r
}

/// The version number that a tag such as `v1.2.3` names.
pub fn parse_version(s: &str) -> (r: Option<(u64, u64, u64)>)
    ensures
        r == version_of(s@),
{
    let t = trim(s);
    let v = to_chars(t.as_str());
    let mut k: usize = 0;
    assert(v@.skip(0) =~= t@);
    while k < v.len() && (v[k] == 'v' || v[k] == 'V')
        invariant
            k <= v.len(),
            v@ == t@,
            without_v(t@) == without_v(v@.skip(k as int)),
        decreases v.len() - k,
    {
        assert(v@.skip(k as int).drop_first() =~= v@.skip(k + 1));
        k += 1;
    }
    let body = from_chars(&v, k, v.len());
    assert(body@ =~= v@.skip(k as int));
    let f = split(body.as_str(), '.');
    assert(texts(f@).len() == f.len());
    if f.len() < 2 {
        return None;
    }
    assert(texts(f@)[0] == f[0]@ && texts(f@)[1] == f[1]@);
    let major = match parse_number(f[0].as_str(), u64::MAX) {
        Some(n) => n,
        None => {
            return None;
        },
    };
    let minor = match parse_number(f[1].as_str(), u64::MAX) {
        Some(n) => n,
        None => {
            return None;
        },
    };
    if f.len() == 2 {
        return Some((major, minor, 0));
    }
    assert(texts(f@)[2] == f[2]@);
    match parse_number(f[2].as_str(), u64::MAX) {
        Some(n) => Some((major, minor, n)),
        None => None,
    }
}

/// Whether version `a` came out after version `b`.
pub open spec fn is_after(a: (u64, u64, u64), b: (u64, u64, u64)) -> bool {
    a.0 > b.0 || (a.0 == b.0 && (a.1 > b.1 || (a.1 == b.1 && a.2 > b.2)))
}

/// The text under a key of a JSON object, as serde_json reads it, or the message of its
/// error where the text is no JSON.
pub uninterp spec fn json_text(txt: Seq<char>, key: Seq<char>) -> Result<
    Option<Seq<char>>,
    Seq<char>,
>;

/// Calls `serde_json::from_str`, then `Value::get` and `Value::as_str`; an error is
/// turned into its message. The result is what `json_text` names.
#[verifier::external_body]
fn read_text(txt: &str, key: &str) -> (r: Result<Option<String>, String>)
    ensures
        match r {
            Ok(Some(s)) => json_text(txt@, key@) == Ok::<Option<Seq<char>>, Seq<char>>(Some(s@)),
            Ok(None) => json_text(txt@, key@) == Ok::<Option<Seq<char>>, Seq<char>>(None),
            Err(e) => json_text(txt@, key@) == Err::<Option<Seq<char>>, Seq<char>>(e@),
        },
{
    match serde_json::from_str::<serde_json::Value>(txt) {
        Ok(v) => Ok(v.get(key).and_then(|t| t.as_str()).map(|s| s.to_owned())),
        Err(e) => Err(e.to_string()),
    }
}

/// The answer to the question for the latest release.
pub enum Answer {
    /// What the server sent.
    Body(String),
    /// The server refused, with this status and a message.
    Refused(u16, String),
    /// There was no answer, with a message.
    Silent(String),
    /// The answer broke off: whether because time ran out, and a message.
    Broken(bool, String),
}

/// Why it cannot be said whether there is a newer release.
pub enum ReleaseError {
    /// There was no answer.
    Connection(String),
    /// The answer broke off, or is no JSON.
    Response(String),
    /// The answer names no tag.
    NoTag,
    /// The tag is no version number.
    BadTag,
    /// The number of this version is no version number.
    BadCurrent,
}

impl ReleaseError {
    /// The message that the user sees.
    pub fn message(&self) -> (r: String)
        ensures
            r@ == (match *self {
                ReleaseError::Connection(e) => "連線失敗："@ + e@,
                ReleaseError::Response(e) => "回應解析失敗："@ + e@,
                ReleaseError::NoTag => "回應中沒有版本資訊"@,
                ReleaseError::BadTag => "無法解析最新版本號"@,
                ReleaseError::BadCurrent => "無法解析目前版本號"@,
            }),
    {
        match self {
            ReleaseError::Connection(e) => {
                let mut r: String = "連線失敗：".to_owned();
                r.append(e.as_str());
                r
            },
            ReleaseError::Response(e) => {
                let mut r: String = "回應解析失敗：".to_owned();
                r.append(e.as_str());
                r
            },
            ReleaseError::NoTag => "回應中沒有版本資訊".to_owned(),
            ReleaseError::BadTag => "無法解析最新版本號".to_owned(),
            ReleaseError::BadCurrent => "無法解析目前版本號".to_owned(),
        }
    }
}

/// The tag, if it names a newer version than `current`.
pub fn newer_than(tag: &str, current: &str) -> (r: Result<Option<String>, ReleaseError>)
    ensures
        match r {
            Ok(newer) => {
                &&& version_of(tag@) is Some
                &&& version_of(current@) is Some
                &&& newer is Some <==> is_after(
                    version_of(tag@).unwrap(),
                    version_of(current@).unwrap(),
                )
                &&& newer matches Some(t) ==> t@ == tag@
            },
            Err(ReleaseError::BadTag) => version_of(tag@) is None,
            Err(ReleaseError::BadCurrent) => version_of(tag@) is Some && version_of(
                current@,
            ) is None,
            Err(_) => false,
        },
{
    let latest = match parse_version(tag) {
        Some(v) => v,
        None => {
            return Err(ReleaseError::BadTag);
        },
    };
    let own = match parse_version(current) {
        Some(v) => v,
        None => {
            return Err(ReleaseError::BadCurrent);
        },
    };
    let newer: bool = latest.0 > own.0 || (latest.0 == own.0 && (latest.1 > own.1 || (latest.1
        == own.1 && latest.2 > own.2)));
    Ok(
        if newer {
            Some(tag.to_owned())
        } else {
            None
        },
    )
}

/// What is told of an answer that cannot be read as JSON.
pub open spec fn unreadable(why: Seq<char>) -> Seq<char> {
    "Failed to read JSON: "@ + why
}

fn unreadable_text(why: &str) -> (r: String)
    ensures
        r@ == unreadable(why@),
{
    let mut r: String = "Failed to read JSON: ".to_owned();
    r.append(why);
    r
}

/// Reads the answer to the question for the latest release: the tag, if it names a newer
/// version than `current`.
pub fn check_response(body: &str, current: &str) -> (r: Result<Option<String>, ReleaseError>)
    ensures
        match json_text(body@, "tag_name"@) {
            Err(e) => r matches Err(ReleaseError::Response(m)) && m@ == unreadable(e),
            Ok(None) => r matches Err(ReleaseError::NoTag),
            Ok(Some(tag)) => match r {
                Ok(newer) => {
                    &&& version_of(tag) is Some
                    &&& version_of(current@) is Some
                    &&& newer is Some <==> is_after(
                        version_of(tag).unwrap(),
                        version_of(current@).unwrap(),
                    )
                    &&& newer matches Some(t) ==> t@ == tag
                },
                Err(ReleaseError::BadTag) => version_of(tag) is None,
                Err(ReleaseError::BadCurrent) => version_of(tag) is Some && version_of(
                    current@,
                ) is None,
                Err(_) => false,
            },
        },
{
    match read_text(body, "tag_name") {
        Ok(Some(tag)) => newer_than(tag.as_str(), current),
        Ok(None) => Err(ReleaseError::NoTag),
        Err(e) => Err(ReleaseError::Response(unreadable_text(e.as_str()))),
    }
}

/// Reads the answer to the question for the latest release: the tag, if it names a newer
/// version than `current`. Where there is no release yet the server refuses with status
/// 404, and nothing is newer.
pub fn check_latest_release(answer: &Answer, current: &str) -> (r: Result<
    Option<String>,
    ReleaseError,
>)
    ensures
        match *answer {
            Answer::Refused(status, m) => if status == 404 {
                r matches Ok(None)
            } else {
                r matches Err(ReleaseError::Connection(e)) && e@ == m@
            },
            Answer::Silent(m) => r matches Err(ReleaseError::Connection(e)) && e@ == m@,
            Answer::Broken(late, m) => r matches Err(ReleaseError::Response(e)) && e@ == (if late {
                m@
            } else {
                unreadable(m@)
            }),
            Answer::Body(body) => match json_text(body@, "tag_name"@) {
                Err(e) => r matches Err(ReleaseError::Response(m)) && m@ == unreadable(e),
                Ok(None) => r matches Err(ReleaseError::NoTag),
                Ok(Some(tag)) => match r {
                    Ok(newer) => {
                        &&& version_of(tag) is Some
                        &&& version_of(current@) is Some
                        &&& newer is Some <==> is_after(
                            version_of(tag).unwrap(),
                            version_of(current@).unwrap(),
                        )
                        &&& newer matches Some(t) ==> t@ == tag
                    },
                    Err(ReleaseError::BadTag) => version_of(tag) is None,
                    Err(ReleaseError::BadCurrent) => version_of(tag) is Some && version_of(
                        current@,
                    ) is None,
                    Err(_) => false,
                },
            },
        },
{
    match answer {
        Answer::Body(body) => check_response(body.as_str(), current),
        Answer::Refused(status, m) => {
            if *status == 404 {
                Ok(None)
            } else {
                Err(ReleaseError::Connection(m.clone()))
            }
        },
        Answer::Silent(m) => Err(ReleaseError::Connection(m.clone())),
        Answer::Broken(late, m) => Err(
            ReleaseError::Response(
                if *late {
                    m.clone()
                } else {
                    unreadable_text(m.as_str())
                },
            ),
        ),
    }
}

/// A version is not newer than itself, and of two different versions exactly one is
/// newer.
pub proof fn versions_are_totally_ordered(a: (u64, u64, u64), b: (u64, u64, u64))
    ensures
        !is_after(a, a),
        a != b ==> (is_after(a, b) <==> !is_after(b, a)),
{
}

/// Whether a downloaded file begins like a Windows program.
pub fn is_windows_program(head: &[u8]) -> (r: bool)
    ensures
        r == (head.len() >= 2 && head[0] == 77 && head[1] == 90),
{
    head.len() >= 2 && head[0] == 77 && head[1] == 90
}

proof fn lemma_fields_of_part(s: Seq<char>, part: Seq<char>, sep: char)
    requires
        !part.contains(sep),
    ensures
        fields(s + seq![sep] + part, sep) == fields(s, sep).push(part),
        fields(part, sep) == seq![part],
    decreases part.len(),
{
    if part.len() == 0 {
        let t = s + seq![sep] + part;
        assert(t.drop_last() =~= s);
        assert(part =~= seq![]);
        assert(fields(t, sep) =~= fields(s, sep).push(part));
    } else {
        let head = part.drop_last();
        let t = s + seq![sep] + part;
        assert(!head.contains(sep)) by {
            if head.contains(sep) {
                let i = choose|i: int| 0 <= i < head.len() && head[i] == sep;
                assert(part[i] == sep);
            }
        }
        lemma_fields_of_part(s, head, sep);
        assert(t.drop_last() =~= s + seq![sep] + head);
        assert(part[part.len() - 1] == part.last());
        assert(part.last() != sep);
        assert(head.push(part.last()) =~= part);
        assert(fields(t, sep) =~= fields(s, sep).push(part));
        assert(fields(part, sep) =~= seq![part]);
    }
}

/// Texts that are joined with a separator that none of them holds are split into the
/// same texts again.
pub proof fn joined_texts_split_again(parts: Seq<Seq<char>>, sep: char)
    requires
        parts.len() > 0,
        forall|i: int| 0 <= i < parts.len() ==> !(#[trigger] parts[i]).contains(sep),
    ensures
        fields(joined(parts, seq![sep]), sep) == parts,
    decreases parts.len(),
{
    let last = parts.last();
    assert(!parts[parts.len() - 1].contains(sep));
    if parts.len() == 1 {
        lemma_fields_of_part(seq![], last, sep);
        assert(parts =~= seq![last]);
    } else {
        let head = parts.drop_last();
        assert forall|i: int| 0 <= i < head.len() implies !(#[trigger] head[i]).contains(sep) by {
            assert(head[i] == parts[i]);
        }
        joined_texts_split_again(head, sep);
        lemma_fields_of_part(joined(head, seq![sep]), last, sep);
        assert(head.push(last) =~= parts);
    }
}

proof fn lemma_no_dot(n: nat)
    ensures
        !dec(n).contains('.'),
        dec(n).len() > 0,
        !is_space(dec(n)[0]) && dec(n)[0] != 'v' && dec(n)[0] != 'V',
        !is_space(dec(n).last()),
{
    written_number_reads_back(n);
    let d = dec(n);
    assert(is_digit(d[0]) && is_digit(d[d.len() - 1]));
    if d.contains('.') {
        let i = choose|i: int| 0 <= i < d.len() && d[i] == '.';
        assert(is_digit(d[i]));
    }
}

/// A tag made of three numbers with dots between them, with or without a letter `v` in
/// front, names the version with these numbers; two numbers name the one whose third is
/// zero.
pub proof fn written_version_reads_back(a: u64, b: u64, c: u64)
    ensures
        ({
            let two = dec(a as nat) + seq!['.'] + dec(b as nat);
            let three = two + seq!['.'] + dec(c as nat);
            &&& version_of(three) == Some((a, b, c))
            &&& version_of(seq!['v'] + three) == Some((a, b, c))
            &&& version_of(two) == Some((a, b, 0u64))
        }),
{
    let two = dec(a as nat) + seq!['.'] + dec(b as nat);
    let three = two + seq!['.'] + dec(c as nat);
    let tagged = seq!['v'] + three;
    lemma_no_dot(a as nat);
    lemma_no_dot(b as nat);
    lemma_no_dot(c as nat);
    written_number_is_parsed(a as nat, u64::MAX as nat);
    written_number_is_parsed(b as nat, u64::MAX as nat);
    written_number_is_parsed(c as nat, u64::MAX as nat);
    lemma_fields_of_part(seq![], dec(a as nat), '.');
    lemma_fields_of_part(dec(a as nat), dec(b as nat), '.');
    lemma_fields_of_part(two, dec(c as nat), '.');
    assert(three[0] == dec(a as nat)[0] && three.last() == dec(c as nat).last());
    assert(two[0] == dec(a as nat)[0] && two.last() == dec(b as nat).last());
    assert(tagged.drop_first() =~= three);
    assert(tagged.last() == three.last() && tagged[0] == 'v');
    assert(without_v(three) == three && without_v(two) == two);
    assert(without_v(tagged) == without_v(three));
    assert(trimmed_end(trimmed_start(three)) == three);
    assert(trimmed_end(trimmed_start(two)) == two);
    assert(trimmed_end(trimmed_start(tagged)) == tagged);
    let f = fields(two, '.');
    let g = fields(three, '.');
    assert(f =~= seq![dec(a as nat), dec(b as nat)]);
    assert(g =~= seq![dec(a as nat), dec(b as nat), dec(c as nat)]);
}

/// White space around a version does not count.
pub proof fn white_space_around_a_version_does_not_count(a: Seq<char>, t: Seq<char>, b: Seq<char>)
    requires
        is_blank(a),
        is_blank(b),
        t.len() > 0,
        !is_space(t[0]),
        !is_space(t.last()),
    ensures
        version_of(a + t + b) == version_of(t),
{
    white_space_around_is_taken_away(a, t, b);
}

} // verus!
