//! The settings file: remembered frame rate and recent projects.

use crate::files::same_path_ci;
use crate::release::json_text;
use crate::text::{lowercase, texts};
use vstd::prelude::*;

verus! {

broadcast use vstd::seq_lib::group_seq_properties;

/// The number under a key of a JSON object, as serde_json reads it.
pub uninterp spec fn json_number(txt: Seq<char>, key: Seq<char>) -> Option<u64>;

/// The array under a key of a JSON object, as serde_json reads it: for each element the
/// text that it is, or nothing where it is no text.
pub uninterp spec fn json_texts(txt: Seq<char>, key: Seq<char>) -> Option<
    Seq<Option<Seq<char>>>,
>;

/// Whether a text is a JSON object, as serde_json reads it.
pub uninterp spec fn json_object(txt: Seq<char>) -> bool;

/// What a list of optional texts stands for.
pub open spec fn option_texts(v: Seq<Option<String>>) -> Seq<Option<Seq<char>>> {
    Seq::new(
        v.len(),
        |i: int|
            match v[i] {
                Some(s) => Some(s@),
                None => None,
            },
    )
}

/// Calls `serde_json::from_str`, then `Value::get` and `Value::as_u64`: the unsigned
/// number under `key`, nothing where the text is no JSON, holds no such key, or holds
/// something else there. The result is what `json_number` names.
#[verifier::external_body]
fn read_number(txt: &str, key: &str) -> (r: Option<u64>)
    ensures
        r == json_number(txt@, key@),
{
    let v: serde_json::Value = serde_json::from_str(txt).ok()?;
    v.get(key)?.as_u64()
}

/// Calls `serde_json::from_str`, then `Value::get`, `Value::as_array` and, on each
/// element, `Value::as_str`. The result is what `json_texts` names.
#[verifier::external_body]
fn read_texts(txt: &str, key: &str) -> (r: Option<Vec<Option<String>>>)
    ensures
        match r {
            Some(v) => json_texts(txt@, key@) == Some(option_texts(v@)),
            None => json_texts(txt@, key@) is None,
        },
{
    let v: serde_json::Value = serde_json::from_str(txt).ok()?;
    let list = v.get(key)?.as_array()?;
    Some(list.iter().map(|e| e.as_str().map(|s| s.to_owned())).collect())
}

/// Under every key but one, the same numbers, texts and arrays of texts are read.
pub open spec fn other_keys_kept(before: Seq<char>, after: Seq<char>, key: Seq<char>) -> bool {
    &&& forall|k: Seq<char>| k != key ==> #[trigger] json_number(after, k) == json_number(before, k)
    &&& forall|k: Seq<char>| k != key ==> #[trigger] json_texts(after, k) == json_texts(before, k)
    &&& forall|k: Seq<char>| k != key ==> #[trigger] json_text(after, k) == json_text(before, k)
}

/// Calls `serde_json::from_str`, `Map::insert` and `Value::to_string`: where the text is
/// a JSON object, the text of the same object with the number `n` under `key`, and
/// nothing otherwise. The number is read back from the new text, which is a JSON object
/// again, and numbers, texts and arrays of texts under other keys are read from it as
/// before. `{}` is an object.
#[verifier::external_body]
fn put_number(txt: &str, key: &str, n: u64) -> (r: Option<String>)
    ensures
        r is Some <==> json_object(txt@),
        r matches Some(t) ==> json_object(t@) && json_number(t@, key@) == Some(n)
            && other_keys_kept(txt@, t@, key@),
        txt@ == "{}"@ ==> r is Some,
{
    match serde_json::from_str(txt) {
        Ok(serde_json::Value::Object(mut m)) => {
            m.insert(key.to_owned(), serde_json::Value::from(n));
            Some(serde_json::Value::Object(m).to_string())
        },
        _ => None,
    }
}

/// Calls `serde_json::from_str`, `Map::insert` and `Value::to_string`: where the text is
/// a JSON object, the text of the same object with the array of texts `list` under
/// `key`, and nothing otherwise. The texts are read back from the new text, which is a
/// JSON object again, and numbers, texts and arrays of texts under other keys are read
/// from it as before. `{}` is an object.
#[verifier::external_body]
fn put_texts(txt: &str, key: &str, list: &Vec<String>) -> (r: Option<String>)
    ensures
        r is Some <==> json_object(txt@),
        r matches Some(t) ==> json_object(t@) && json_texts(t@, key@) == Some(
            all_present(texts(list@)),
        ) && other_keys_kept(txt@, t@, key@),
        txt@ == "{}"@ ==> r is Some,
{
    match serde_json::from_str(txt) {
        Ok(serde_json::Value::Object(mut m)) => {
            m.insert(key.to_owned(), serde_json::Value::from(list.clone()));
            Some(serde_json::Value::Object(m).to_string())
        },
        _ => None,
    }
}

/// Each text as one that is there.
pub open spec fn all_present(v: Seq<Seq<char>>) -> Seq<Option<Seq<char>>> {
    Seq::new(v.len(), |i: int| Some(v[i]))
}

/// The texts that are there, in order.
pub open spec fn present(v: Seq<Option<Seq<char>>>) -> Seq<Seq<char>>
    decreases v.len(),
{
    if v.len() == 0 {
        seq![]
    } else {
        match v.last() {
            Some(s) => present(v.drop_last()).push(s),
            None => present(v.drop_last()),
        }
    }
}

proof fn lemma_all_present(v: Seq<Seq<char>>)
    ensures
        present(all_present(v)) == v,
    decreases v.len(),
{
    if v.len() > 0 {
        lemma_all_present(v.drop_last());
        assert(all_present(v).drop_last() =~= all_present(v.drop_last()));
        assert(v.drop_last().push(v.last()) =~= v);
    } else {
        assert(present(all_present(v)) =~= v);
    }
}

/// A frame rate out of the settings file: the number, if it is from 1 to 60.
pub open spec fn usable_fps(n: u64) -> Option<u32> {
    if 1 <= n <= 60 {
        Some(n as u32)
    } else {
        None
    }
}

/// A frame rate out of the settings file.
pub fn checked_fps(n: u64) -> (r: Option<u32>)
    ensures
        r == usable_fps(n),
{
    if 1 <= n && n <= 60 {
        Some(n as u32)
    } else {
        None
    }
}

/// The remembered frame rate, from the text of the settings file.
pub open spec fn fps_in(txt: Seq<char>) -> Option<u32> {
    match json_number(txt, "fps"@) {
        Some(n) => usable_fps(n),
        None => None,
    }
}

/// The remembered frame rate, from the text of the settings file.
pub fn saved_fps(txt: &str) -> (r: Option<u32>)
    ensures
        r == fps_in(txt@),
{
    match read_number(txt, "fps") {
        Some(n) => checked_fps(n),
        None => None,
    }
}

/// The recent projects, from the text of the settings file; newest first.
pub open spec fn recent_in(txt: Seq<char>) -> Seq<Seq<char>> {
    match json_texts(txt, "recent_projects"@) {
        Some(v) => present(v),
        None => seq![],
    }
}

/// The texts that are there, in order.
pub fn only_present(list: &Vec<Option<String>>) -> (r: Vec<String>)
    ensures
        texts(r@) == present(option_texts(list@)),
{
    let mut r: Vec<String> = Vec::new();
    let mut i: usize = 0;
    let ghost v = option_texts(list@);
    assert(v.take(0) =~= seq![]);
    assert(texts(r@) =~= seq![]);
    while i < list.len()
        invariant
            i <= list.len(),
            v == option_texts(list@),
            texts(r@) == present(v.take(i as int)),
        decreases list.len() - i,
    {
        assert(v.take(i + 1).drop_last() =~= v.take(i as int));
        assert(v.take(i + 1).last() == v[i as int]);
        let ghost before = r@;
        match &list[i] {
            Some(s) => {
                r.push(s.clone());
                assert(texts(r@) =~= texts(before).push(s@));
            },
            None => {},
        }
        i += 1;
    }
    assert(v.take(v.len() as int) =~= v);
    r
}

/// The recent projects, from the text of the settings file; newest first.
pub fn load_recent_projects(txt: &str) -> (r: Vec<String>)
    ensures
        texts(r@) == recent_in(txt@),
{
    match read_texts(txt, "recent_projects") {
        Some(v) => only_present(&v),
        None => {
            let r: Vec<String> = Vec::new();
            assert(texts(r@) =~= seq![]);
            r
        },
    }
}

/// The settings that a new text starts from: the old ones, or none where the old text is
/// no JSON object.
pub open spec fn settings(txt: Seq<char>) -> Seq<char> {
    if json_object(txt) {
        txt
    } else {
        "{}"@
    }
}

/// The text of the settings file with another frame rate. Where the old text is no JSON
/// object, the new one holds nothing else.
pub fn with_fps(txt: &str, fps: u32) -> (r: String)
    ensures
        json_object(r@),
        json_number(r@, "fps"@) == Some(fps as u64),
        other_keys_kept(settings(txt@), r@, "fps"@),
{
    match put_number(txt, "fps", fps as u64) {
        Some(t) => t,
        None => match put_number("{}", "fps", fps as u64) {
            Some(t) => t,
            None => String::new(),
        },
    }
}

/// The text of the settings file with another list of recent projects. Where the old
/// text is no JSON object, the new one holds nothing else.
pub fn with_recent_projects(txt: &str, list: &Vec<String>) -> (r: String)
    ensures
        json_object(r@),
        json_texts(r@, "recent_projects"@) == Some(all_present(texts(list@))),
        other_keys_kept(settings(txt@), r@, "recent_projects"@),
{
    match put_texts(txt, "recent_projects", list) {
        Some(t) => t,
        None => match put_texts("{}", "recent_projects", list) {
            Some(t) => t,
            None => String::new(),
        },
    }
}

/// A frame rate from 1 to 60 that was written is read back, and the recent projects stay
/// as they were.
pub proof fn written_fps_reads_back(before: Seq<char>, after: Seq<char>, fps: u32)
    requires
        1 <= fps <= 60,
        json_number(after, "fps"@) == Some(fps as u64),
        other_keys_kept(before, after, "fps"@),
    ensures
        fps_in(after) == Some(fps),
        recent_in(after) == recent_in(before),
{
    reveal_strlit("fps");
    reveal_strlit("recent_projects");
    assert("fps"@.len() != "recent_projects"@.len());
}

/// Recent projects that were written are read back, and the frame rate stays as it was.
pub proof fn written_recent_projects_read_back(
    before: Seq<char>,
    after: Seq<char>,
    list: Seq<Seq<char>>,
)
    requires
        json_texts(after, "recent_projects"@) == Some(all_present(list)),
        other_keys_kept(before, after, "recent_projects"@),
    ensures
        recent_in(after) == list,
        fps_in(after) == fps_in(before),
{
    lemma_all_present(list);
    reveal_strlit("fps");
    reveal_strlit("recent_projects");
    assert("fps"@.len() != "recent_projects"@.len());
}

/// The list without the paths that are equal to `path` but for the case of letters.
pub open spec fn without(list: Seq<Seq<char>>, path: Seq<char>) -> Seq<Seq<char>>
    decreases list.len(),
{
    if list.len() == 0 {
        seq![]
    } else if lowercase(list.last()) == lowercase(path) {
        without(list.drop_last(), path)
    } else {
        without(list.drop_last(), path).push(list.last())
    }
}

/// The list with `path` in front and nowhere else, cut to eight.
pub open spec fn remembered(list: Seq<Seq<char>>, path: Seq<char>) -> Seq<Seq<char>> {
    let all = seq![path] + without(list, path);
    if all.len() > 8 {
        all.take(8)
    } else {
        all
    }
}

/// Takes a project off the list.
pub fn forget_recent_project(list: &mut Vec<String>, path: &str)
    ensures
        texts(final(list)@) == without(texts(old(list)@), path@),
{
    let mut r: Vec<String> = Vec::new();
    let mut i: usize = 0;
    let ghost v = texts(list@);
    assert(v.take(0) =~= seq![]);
    assert(texts(r@) =~= seq![]);
    while i < list.len()
        invariant
            i <= list.len(),
            v == texts(list@),
            texts(r@) == without(v.take(i as int), path@),
        decreases list.len() - i,
    {
        assert(v.take(i + 1).drop_last() =~= v.take(i as int));
        assert(v.take(i + 1).last() == v[i as int]);
        let ghost before = r@;
        if !same_path_ci(list[i].as_str(), path) {
            r.push(list[i].clone());
            assert(texts(r@) =~= texts(before).push(v[i as int]));
        }
        i += 1;
    }
    assert(v.take(v.len() as int) =~= v);
    *list = r;
}

/// Puts a project in front of the list, once, and keeps the first eight.
pub fn remember_recent_project(list: &mut Vec<String>, path: &str)
    ensures
        texts(final(list)@) == remembered(texts(old(list)@), path@),
{
    forget_recent_project(list, path);
    let mut r: Vec<String> = Vec::new();
    r.push(path.to_owned());
    let ghost all = seq![path@] + texts(list@);
    let mut i: usize = 0;
    while i < list.len() && i < 7
        invariant
            i <= list.len(),
            i <= 7,
            all == seq![path@] + texts(list@),
            r.len() == i + 1,
            forall|k: int| 0 <= k <= i ==> (#[trigger] r[k])@ == all[k],
        decreases list.len() - i,
    {
        r.push(list[i].clone());
        i += 1;
    }
    assert(texts(r@) =~= (if all.len() > 8 { all.take(8) } else { all }));
    *list = r;
}

/// No two paths of the list are equal but for the case of letters.
pub open spec fn all_distinct(list: Seq<Seq<char>>) -> bool {
    forall|a: int, b: int|
        0 <= a < b < list.len() ==> lowercase(#[trigger] list[a]) != lowercase(#[trigger] list[b])
}

proof fn lemma_without(list: Seq<Seq<char>>, path: Seq<char>)
    ensures
        without(list, path).len() <= list.len(),
        forall|k: int|
            0 <= k < without(list, path).len() ==> lowercase(#[trigger] without(list, path)[k])
                != lowercase(path) && list.contains(without(list, path)[k]),
        all_distinct(list) ==> all_distinct(without(list, path)),
    decreases list.len(),
{
    if list.len() > 0 {
        let head = list.drop_last();
        lemma_without(head, path);
        let w = without(list, path);
        assert forall|k: int| 0 <= k < w.len() implies lowercase(#[trigger] w[k]) != lowercase(path)
            && list.contains(w[k]) by {
            if k < without(head, path).len() {
                assert(head.contains(without(head, path)[k]));
                let i = choose|i: int| 0 <= i < head.len() && head[i] == w[k];
                assert(list[i] == w[k]);
            } else {
                assert(list[list.len() - 1] == w[k]);
            }
        }
        if all_distinct(list) {
            assert(all_distinct(head)) by {
                assert forall|a: int, b: int| 0 <= a < b < head.len() implies lowercase(
                    #[trigger] head[a],
                ) != lowercase(#[trigger] head[b]) by {
                    assert(lowercase(list[a]) != lowercase(list[b]));
                }
            }
            assert forall|a: int, b: int| 0 <= a < b < w.len() implies lowercase(#[trigger] w[a])
                != lowercase(#[trigger] w[b]) by {
                if b == without(head, path).len() {
                    assert(head.contains(without(head, path)[a]));
                    let i = choose|i: int| 0 <= i < head.len() && head[i] == w[a];
                    assert(lowercase(list[i]) != lowercase(list[list.len() - 1]));
                }
            }
        }
    }
}

/// A remembered project stands in front; the list holds at most eight, and no project
/// twice if it held none twice before.
pub proof fn recent_list_stays_short_and_distinct(list: Seq<Seq<char>>, path: Seq<char>)
    ensures
        remembered(list, path)[0] == path,
        1 <= remembered(list, path).len() <= 8,
        all_distinct(list) ==> all_distinct(remembered(list, path)),
{
    lemma_without(list, path);
    let r = remembered(list, path);
    if all_distinct(list) {
        let w = without(list, path);
        assert forall|a: int, b: int| 0 <= a < b < r.len() implies lowercase(#[trigger] r[a])
            != lowercase(#[trigger] r[b]) by {
            assert(r[b] == w[b - 1]);
            if a > 0 {
                assert(r[a] == w[a - 1]);
            }
        }
    }
}

} // verus!
