//! Temporary files: their names, and which of them can go.

use crate::text::{dec, digit, push_dec, to_chars};
use vstd::prelude::*;

verus! {

/// What the names of the temporary files of all runs begin with.
pub open spec fn common_prefix() -> Seq<char> {
    "photo2video_"@
}

/// What the names of the temporary files of one run begin with.
pub open spec fn run_prefix(pid: u32) -> Seq<char> {
    common_prefix() + dec(pid as nat) + "_"@
}

/// Whether a name begins with the prefix.
pub open spec fn begins_with(name: Seq<char>, prefix: Seq<char>) -> bool {
    prefix.len() <= name.len() && name.take(prefix.len() as int) == prefix
}

/// How old a temporary file may be that no run uses any more: 48 hours, in nanoseconds.
pub const STALE_AGE: u128 = 172_800_000_000_000;

/// The name of a temporary file of a run.
pub fn temp_name(pid: u32, name: &str) -> (r: String)
    ensures
        r@ == run_prefix(pid) + name@,
{
    let mut r = own_prefix(pid);
    r.append(name);
    r
}

/// A name with a number in it.
pub open spec fn numbered(front: Seq<char>, n: nat, back: Seq<char>) -> Seq<char> {
    front + dec(n) + back
}

fn numbered_text(front: &str, n: u64, back: &str) -> (r: String)
    ensures
        r@ == numbered(front@, n as nat, back@),
{
    let mut r = front.to_owned();
    push_dec(&mut r, n as u128);
    r.append(back);
    r
}

/// The name for photo `i` once it is adjusted.
pub fn adjusted_name(i: usize) -> (r: String)
    ensures
        r@ == numbered("adj_"@, i as nat, ".png"@),
{
    numbered_text("adj_", i as u64, ".png")
}

/// The name for the text of caption `k`.
pub fn caption_name(k: usize) -> (r: String)
    ensures
        r@ == numbered("cap_"@, k as nat, ".txt"@),
{
    numbered_text("cap_", k as u64, ".txt")
}

/// The name for the scaled-down copy with this serial number.
pub fn copy_name(serial: u64) -> (r: String)
    ensures
        r@ == numbered("prev_base_"@, serial as nat, ".bmp"@),
{
    numbered_text("prev_base_", serial, ".bmp")
}

/// The name for the list of photos.
pub fn list_name() -> (r: &'static str)
    ensures
        r@ == "list.txt"@,
{
    "list.txt"
}

/// What the names of the temporary files of one run begin with.
pub fn own_prefix(pid: u32) -> (r: String)
    ensures
        r@ == run_prefix(pid),
{
    let mut r: String = "photo2video_".to_owned();
    push_dec(&mut r, pid as u128);
    r.append("_");
    r
}

fn starts_with(name: &str, prefix: &str) -> (r: bool)
    ensures
        r == begins_with(name@, prefix@),
{
    let n = to_chars(name);
    let p = to_chars(prefix);
    if p.len() > n.len() {
        return false;
    }
    let mut i: usize = 0;
    while i < p.len()
        invariant
            i <= p.len() <= n.len(),
            n@ == name@,
            p@ == prefix@,
            forall|k: int| 0 <= k < i ==> n[k] == p[k],
        decreases p.len() - i,
    {
        if n[i] != p[i] {
            assert(name@.take(prefix@.len() as int)[i as int] != prefix@[i as int]);
            return false;
        }
        i += 1;
    }
    assert(name@.take(prefix@.len() as int) =~= prefix@);
    true
}

/// Whether a temporary file belongs to this run.
pub fn is_own(name: &str, pid: u32) -> (r: bool)
    ensures
        r == begins_with(name@, run_prefix(pid)),
{
    starts_with(name, own_prefix(pid).as_str())
}

/// Whether a file is a temporary file that an earlier run has left behind: one of ours,
/// not of this run, and more than 48 hours old. `age` is in nanoseconds, if it is known.
pub open spec fn left_behind(name: Seq<char>, pid: u32, age: Option<u128>) -> bool {
    &&& begins_with(name, common_prefix())
    &&& !begins_with(name, run_prefix(pid))
    &&& age matches Some(a) && a > STALE_AGE
}

/// Whether a file is a temporary file that an earlier run has left behind.
pub fn is_stale(name: &str, pid: u32, age: Option<u128>) -> (r: bool)
    ensures
        r == left_behind(name@, pid, age),
{
    if !starts_with(name, "photo2video_") || is_own(name, pid) {
        return false;
    }
    match age {
        Some(a) => a > STALE_AGE,
        None => false,
    }
}

proof fn lemma_dec_len(n: nat)
    ensures
        dec(n).len() >= 1,
    decreases n,
{
    if n >= 10 {
        lemma_dec_len(n / 10);
    }
}

proof fn lemma_dec_apart(m: nat, n: nat)
    requires
        dec(m) == dec(n),
    ensures
        m == n,
    decreases m,
{
    if m >= 10 {
        lemma_dec_len(m / 10);
    }
    if n >= 10 {
        lemma_dec_len(n / 10);
    }
    assert(dec(m).last() == digit(m % 10) && dec(n).last() == digit(n % 10));
    assert(m % 10 == n % 10) by {
        assert((48 + m % 10) as char as int == 48 + m % 10);
        assert((48 + n % 10) as char as int == 48 + n % 10);
    }
    if m >= 10 && n >= 10 {
        assert(dec(m).drop_last() =~= dec(m / 10));
        assert(dec(n).drop_last() =~= dec(n / 10));
        lemma_dec_apart(m / 10, n / 10);
    }
}

/// Files of one run with different numbers have different names.
pub proof fn numbered_files_do_not_clash(
    pid: u32,
    front: Seq<char>,
    back: Seq<char>,
    m: nat,
    n: nat,
)
    requires
        run_prefix(pid) + numbered(front, m, back) == run_prefix(pid) + numbered(front, n, back),
    ensures
        m == n,
{
    let a = numbered(front, m, back);
    let b = numbered(front, n, back);
    let p = run_prefix(pid);
    assert((p + a).skip(p.len() as int) =~= a);
    assert((p + b).skip(p.len() as int) =~= b);
    assert(a.subrange(front.len() as int, a.len() - back.len()) =~= dec(m));
    assert(b.subrange(front.len() as int, b.len() - back.len()) =~= dec(n));
    lemma_dec_apart(m, n);
}

proof fn lemma_dec_digits(n: nat, k: int)
    requires
        0 <= k < dec(n).len(),
    ensures
        dec(n)[k] != '_',
    decreases n,
{
    let d: int = if n < 10 {
        n as int
    } else {
        (n % 10) as int
    };
    assert((48 + d) as char as int == 48 + d);
    if n >= 10 && k < dec(n).len() - 1 {
        lemma_dec_digits(n / 10, k);
    }
}

/// A run never takes a temporary file of another run for its own.
pub proof fn other_runs_are_left_alone(pid: u32, other: u32, name: Seq<char>)
    requires
        pid != other,
    ensures
        !begins_with(run_prefix(other) + name, run_prefix(pid)),
{
    let own = dec(pid as nat);
    let theirs = dec(other as nat);
    let c = common_prefix();
    let full = run_prefix(other) + name;
    let p = run_prefix(pid);
    reveal_strlit("_");
    if begins_with(full, p) {
        let m = if own.len() < theirs.len() {
            own.len() as int
        } else {
            theirs.len() as int
        };
        assert forall|i: int| 0 <= i < p.len() implies #[trigger] full[i] == p[i] by {
            assert(full.take(p.len() as int)[i] == full[i]);
        }
        if own.len() == theirs.len() {
            assert forall|i: int| 0 <= i < m implies own[i] == theirs[i] by {
                assert(full[c.len() + i] == p[c.len() + i]);
            }
            assert(own =~= theirs);
            lemma_dec_apart(pid as nat, other as nat);
        } else {
            assert(full[c.len() + m] == p[c.len() + m]);
            if own.len() < theirs.len() {
                lemma_dec_digits(other as nat, m);
            } else {
                lemma_dec_digits(pid as nat, m);
            }
        }
    }
}

/// A temporary file of a run is recognised by it, and is never taken for one that was
/// left behind.
pub proof fn own_files_are_recognised(pid: u32, name: Seq<char>, age: Option<u128>)
    ensures
        begins_with(run_prefix(pid) + name, run_prefix(pid)),
        !left_behind(run_prefix(pid) + name, pid, age),
{
    let full = run_prefix(pid) + name;
    assert(full.take(run_prefix(pid).len() as int) =~= run_prefix(pid));
}

} // verus!
