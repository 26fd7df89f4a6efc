//! Text building blocks: decimal numbers, joining, trimming, case folding.

use vstd::prelude::*;

verus! {

broadcast use vstd::seq_lib::group_seq_properties;

/// `String::push` of std puts one character behind the text.
pub assume_specification[ String::push ](s: &mut String, c: char)
    ensures
        final(s)@ == old(s)@.push(c),
;

/// The lower-case form of a text, as std's `str::to_lowercase` maps it.
pub uninterp spec fn lowercase(s: Seq<char>) -> Seq<char>;

/// Calls `str::to_lowercase` of std, whose result depends on the text alone: it is
/// what `lowercase` names. Which characters it maps to which is left to std.
#[verifier::external_body]
pub(crate) fn lower(s: &str) -> (r: String)
    ensures
        r@ == lowercase(s@),
{
    s.to_lowercase()
}

/// What an optional text stands for.
pub open spec fn text_view(s: Option<String>) -> Option<Seq<char>> {
    match s {
        Some(t) => Some(t@),
        None => None,
    }
}

/// The views of a list of texts.
pub open spec fn texts(v: Seq<String>) -> Seq<Seq<char>> {
    Seq::new(v.len(), |i: int| v[i]@)
}

/// Whether `part` stands somewhere in a text.
pub open spec fn has_part(s: Seq<char>, part: Seq<char>) -> bool {
    exists|before: Seq<char>, after: Seq<char>| s == #[trigger] (before + part + after)
}

/// Texts that follow one another may be taken together in any way.
pub broadcast proof fn following_texts_go_together(a: Seq<char>, b: Seq<char>, c: Seq<char>)
    ensures
        #[trigger] (a + (b + c)) == a + b + c,
{
    assert(a + (b + c) =~= a + b + c);
}

/// The decimal digit that stands for `d`.
pub open spec fn digit(d: nat) -> char {
    (48 + d) as char
}

/// Decimal notation without leading zeros.
pub open spec fn dec(n: nat) -> Seq<char>
    decreases n,
{
    if n < 10 {
        seq![digit(n)]
    } else {
        dec(n / 10).push(digit(n % 10))
    }
}

/// Decimal notation of a number that may be negative.
pub open spec fn dec_int(n: int) -> Seq<char> {
    if n < 0 {
        seq!['-'] + dec((-n) as nat)
    } else {
        dec(n as nat)
    }
}

/// The last `places` decimal digits of `n`, zeros included.
pub open spec fn padded(n: nat, places: nat) -> Seq<char>
    decreases places,
{
    if places == 0 {
        seq![]
    } else {
        padded(n / 10, (places - 1) as nat).push(digit(n % 10))
    }
}

/// Ten to the power `places`.
pub open spec fn pow10(places: nat) -> nat
    decreases places,
{
    if places == 0 {
        1
    } else {
        10 * pow10((places - 1) as nat)
    }
}

/// `units / 10^places` in decimal notation with exactly `places` digits behind the point.
pub open spec fn fixed(units: int, places: nat) -> Seq<char> {
    let size: nat = if units < 0 { (-units) as nat } else { units as nat };
    let sign: Seq<char> = if units < 0 { seq!['-'] } else { seq![] };
    sign + dec(size / pow10(places)) + (if places == 0 {
        seq![]
    } else {
        seq!['.'] + padded(size % pow10(places), places)
    })
}

/// The texts of `parts` in a row with `sep` between neighbours.
pub open spec fn joined(parts: Seq<Seq<char>>, sep: Seq<char>) -> Seq<char>
    decreases parts.len(),
{
    if parts.len() == 0 {
        seq![]
    } else if parts.len() == 1 {
        parts[0]
    } else {
        joined(parts.drop_last(), sep) + sep + parts.last()
    }
}

/// The characters with the Unicode property White_Space.
pub open spec fn is_space(c: char) -> bool {
    ||| '\u{9}' <= c <= '\u{d}'
    ||| c == ' '
    ||| c == '\u{85}'
    ||| c == '\u{a0}'
    ||| c == '\u{1680}'
    ||| '\u{2000}' <= c <= '\u{200a}'
    ||| c == '\u{2028}'
    ||| c == '\u{2029}'
    ||| c == '\u{202f}'
    ||| c == '\u{205f}'
    ||| c == '\u{3000}'
}

/// Nothing but white space.
pub open spec fn is_blank(s: Seq<char>) -> bool {
    forall|i: int| 0 <= i < s.len() ==> is_space(#[trigger] s[i])
}

/// The text without the white space at its end.
pub open spec fn trimmed_end(s: Seq<char>) -> Seq<char>
    decreases s.len(),
{
    if s.len() > 0 && is_space(s.last()) {
        trimmed_end(s.drop_last())
    } else {
        s
    }
}

/// The text without the white space at its start.
pub open spec fn trimmed_start(s: Seq<char>) -> Seq<char>
    decreases s.len(),
{
    if s.len() > 0 && is_space(s[0]) {
        trimmed_start(s.drop_first())
    } else {
        s
    }
}

pub open spec fn is_digit(c: char) -> bool {
    '0' <= c <= '9'
}

/// One or more decimal digits and nothing else.
pub open spec fn all_digits(s: Seq<char>) -> bool {
    &&& s.len() > 0
    &&& forall|i: int| 0 <= i < s.len() ==> is_digit(#[trigger] s[i])
}

/// The number that a row of decimal digits writes down.
pub open spec fn number(s: Seq<char>) -> nat
    decreases s.len(),
{
    if s.len() == 0 {
        0
    } else {
        10 * number(s.drop_last()) + (s.last() as int - 48) as nat
    }
}

/// The lower-case form of an ASCII capital; every other character as it is.
pub open spec fn ascii_lower(c: char) -> char {
    if 'A' <= c <= 'Z' {
        (c as int + 32) as char
    } else {
        c
    }
}

pub open spec fn ascii_lowered(s: Seq<char>) -> Seq<char> {
    Seq::new(s.len(), |i: int| ascii_lower(s[i]))
}

/// The number that an optional plus sign and decimal digits write down, if it is at
/// most `max`.
pub open spec fn parsed(s: Seq<char>, max: nat) -> Option<nat> {
    let body = if s.len() > 0 && s[0] == '+' { s.drop_first() } else { s };
    if all_digits(body) && number(body) <= max {
        Some(number(body))
    } else {
        None
    }
}

/// The characters of a text, one by one.
pub fn to_chars(s: &str) -> (v: Vec<char>)
    ensures
        v@ == s@,
{
    let mut v: Vec<char> = Vec::new();
    for c in it: s.chars()
        invariant
            v@ == s@.take(it.index()),
            it.seq() == s@,
    {
        v.push(c);
        assert(s@.take(it.index() + 1) =~= s@.take(it.index()).push(c));
    }
    assert(s@.take(s@.len() as int) =~= s@);
    v
}

/// The text made of the characters from `lo` up to `hi`.
pub fn from_chars(v: &Vec<char>, lo: usize, hi: usize) -> (s: String)
    requires
        lo <= hi <= v.len(),
    ensures
        s@ == v@.subrange(lo as int, hi as int),
{
    let mut s: String = String::new();
    let mut i: usize = lo;
    while i < hi
        invariant
            lo <= i <= hi <= v.len(),
            s@ == v@.subrange(lo as int, i as int),
        decreases hi - i,
    {
        s.push(v[i]);
        i += 1;
        assert(v@.subrange(lo as int, i as int) =~= v@.subrange(lo as int, i - 1).push(v[i - 1]));
    }
    s
}

/// Whether two texts hold the same characters.
pub fn same(a: &str, b: &str) -> (r: bool)
    ensures
        r == (a@ == b@),
{
    a.to_owned() == b.to_owned()
}

/// Puts `n` in decimal notation behind `out`.
pub fn push_dec(out: &mut String, n: u128)
    ensures
        final(out)@ == old(out)@ + dec(n as nat),
    decreases n,
{
    if n >= 10 {
        push_dec(out, n / 10);
    }
    let d: u8 = (n % 10) as u8;
    let c: char = (48u8 + d) as char;
    assert(c == digit(n as nat % 10));
    out.push(c);
    proof {
        if n >= 10 {
            assert(old(out)@ + dec(n as nat / 10).push(c) =~= (old(out)@ + dec(n as nat / 10)).push(c));
        } else {
            assert(old(out)@ + seq![c] =~= old(out)@.push(c));
        }
    }
}

/// Puts `n` in decimal notation behind `out`.
pub fn push_int(out: &mut String, n: i64)
    ensures
        final(out)@ == old(out)@ + dec_int(n as int),
{
    if n < 0 {
        out.push('-');
        push_dec(out, (-(n as i128)) as u128);
        assert(old(out)@.push('-') + dec((-n) as nat) =~= old(out)@ + (seq!['-'] + dec((-n) as nat)));
    } else {
        push_dec(out, n as u128);
    }
}

proof fn lemma_padded_high(n: nat, places: nat)
    ensures
        padded(n % pow10(places), places) == padded(n, places),
        pow10(places) > 0,
    decreases places,
{
    if places > 0 {
        let p = pow10((places - 1) as nat);
        lemma_padded_high(n / 10, (places - 1) as nat);
        lemma_padded_high((n % (10 * p)) / 10, (places - 1) as nat);
        assert((n % (10 * p)) % 10 == n % 10 && ((n % (10 * p)) / 10) % p == (n / 10) % p)
            by (nonlinear_arith)
            requires
                p > 0,
        {
            let q = n / (10 * p);
            let r = n % (10 * p);
            assert(n == 10 * p * q + r);
            assert(n == 10 * (p * q) + r);
            assert(n / 10 == p * q + r / 10);
            assert((p * q + r / 10) % p == (r / 10) % p) by {
                vstd::arithmetic::div_mod::lemma_mod_multiples_vanish(q as int, (r / 10) as int, p as int);
            }
        }
    }
}

/// Puts the last `places` decimal digits of `n` behind `out`.
pub fn push_padded(out: &mut String, n: u64, places: usize)
    ensures
        final(out)@ == old(out)@ + padded(n as nat, places as nat),
    decreases places,
{
    if places > 0 {
        push_padded(out, n / 10, places - 1);
        let d: u8 = (n % 10) as u8;
        let c: char = (48u8 + d) as char;
        assert(c == digit(n as nat % 10));
        out.push(c);
        assert((old(out)@ + padded(n as nat / 10, (places - 1) as nat)).push(c)
            =~= old(out)@ + padded(n as nat / 10, (places - 1) as nat).push(c));
    }
}

/// Puts `units / 10^places` behind `out`, with exactly `places` digits behind the point.
pub fn push_fixed(out: &mut String, units: i64, places: usize)
    requires
        places <= 6,
    ensures
        final(out)@ == old(out)@ + fixed(units as int, places as nat),
{
    let size: u64 = if units < 0 {
        out.push('-');
        (-(units as i128)) as u64
    } else {
        units as u64
    };
    let ghost sign: Seq<char> = if units < 0 { seq!['-'] } else { seq![] };
    assert(out@ =~= old(out)@ + sign);
    let mut unit: u64 = 1;
    let mut i: usize = 0;
    while i < places
        invariant
            i <= places <= 6,
            unit == pow10(i as nat),
            1 <= unit <= 1_000_000,
            i == 0 ==> unit == 1,
            i == 1 ==> unit == 10,
            i == 2 ==> unit == 100,
            i == 3 ==> unit == 1_000,
            i == 4 ==> unit == 10_000,
            i == 5 ==> unit == 100_000,
        decreases places - i,
    {
        unit = unit * 10;
        i += 1;
    }
    push_dec(out, (size / unit) as u128);
    if places > 0 {
        out.push('.');
        push_padded(out, size, places);
        proof {
            lemma_padded_high(size as nat, places as nat);
        }
    }
    proof {
        let tail: Seq<char> = if places == 0 {
            seq![]
        } else {
            seq!['.'] + padded(size as nat % pow10(places as nat), places as nat)
        };
        let whole = dec(size as nat / pow10(places as nat));
        assert(out@ =~= old(out)@ + sign + whole + tail);
        assert(old(out)@ + sign + whole + tail =~= old(out)@ + (sign + whole + tail));
    }
}

/// Joins texts with `sep` between neighbours.
pub fn join(parts: &Vec<String>, sep: &str) -> (r: String)
    ensures
        r@ == joined(texts(parts@), sep@),
{
    let mut r: String = String::new();
    let mut i: usize = 0;
    assert(texts(parts@).take(0) =~= seq![]);
    while i < parts.len()
        invariant
            i <= parts.len(),
            r@ == joined(texts(parts@).take(i as int), sep@),
        decreases parts.len() - i,
    {
        let ghost t = texts(parts@).take(i + 1);
        assert(t.drop_last() =~= texts(parts@).take(i as int));
        assert(t.last() == parts[i as int]@);
        if i > 0 {
            r.append(sep);
        }
        r.append(parts[i].as_str());
        i += 1;
        proof {
            if i == 1 {
                assert(r@ =~= t[0]);
            }
        }
    }
    assert(texts(parts@).take(parts.len() as int) =~= texts(parts@));
    r
}

/// Whether a character has the Unicode property White_Space.
pub fn space(c: char) -> (r: bool)
    ensures
        r == is_space(c),
{
    ('\u{9}' <= c && c <= '\u{d}') || c == ' ' || c == '\u{85}' || c == '\u{a0}' || c == '\u{1680}'
        || ('\u{2000}' <= c && c <= '\u{200a}') || c == '\u{2028}' || c == '\u{2029}'
        || c == '\u{202f}' || c == '\u{205f}' || c == '\u{3000}'
}

/// The text without the white space at its end.
pub fn trim_end(s: &str) -> (r: String)
    ensures
        r@ == trimmed_end(s@),
{
    let v = to_chars(s);
    let mut n: usize = v.len();
    assert(v@.take(n as int) =~= s@);
    while n > 0 && space(v[n - 1])
        invariant
            n <= v.len(),
            v@ == s@,
            trimmed_end(s@) == trimmed_end(v@.take(n as int)),
        decreases n,
    {
        assert(v@.take(n as int).drop_last() =~= v@.take(n - 1));
        n -= 1;
    }
    assert(v@.subrange(0, n as int) =~= v@.take(n as int));
    from_chars(&v, 0, n)
}

/// The text without the white space at its start and at its end.
pub fn trim(s: &str) -> (r: String)
    ensures
        r@ == trimmed_end(trimmed_start(s@)),
{
    let v = to_chars(s);
    let mut k: usize = 0;
    assert(v@.skip(0) =~= s@);
    while k < v.len() && space(v[k])
        invariant
            k <= v.len(),
            v@ == s@,
            trimmed_start(s@) == trimmed_start(v@.skip(k as int)),
        decreases v.len() - k,
    {
        assert(v@.skip(k as int).drop_first() =~= v@.skip(k + 1));
        k += 1;
    }
    let rest = from_chars(&v, k, v.len());
    assert(rest@ =~= v@.skip(k as int));
    trim_end(rest.as_str())
}

/// Whether a text holds nothing but white space.
pub fn blank(s: &str) -> (r: bool)
    ensures
        r == is_blank(s@),
{
    let v = to_chars(s);
    let mut i: usize = 0;
    while i < v.len()
        invariant
            i <= v.len(),
            v@ == s@,
            forall|k: int| 0 <= k < i ==> is_space(#[trigger] s@[k]),
        decreases v.len() - i,
    {
        if !space(v[i]) {
            assert(!is_space(s@[i as int]));
            return false;
        }
        i += 1;
    }
    true
}

/// A text is blank exactly when nothing is left of it after trimming.
pub proof fn blank_is_trimmed_empty(s: Seq<char>)
    ensures
        is_blank(s) <==> trimmed_end(s).len() == 0,
    decreases s.len(),
{
    if s.len() > 0 {
        blank_is_trimmed_empty(s.drop_last());
        if is_space(s.last()) {
            assert(is_blank(s.drop_last()) ==> is_blank(s)) by {
                if is_blank(s.drop_last()) {
                    assert forall|i: int| 0 <= i < s.len() implies is_space(#[trigger] s[i]) by {
                        if i < s.len() - 1 {
                            assert(s.drop_last()[i] == s[i]);
                        }
                    }
                }
            }
            assert(is_blank(s) ==> is_blank(s.drop_last())) by {
                if is_blank(s) {
                    assert forall|i: int| 0 <= i < s.len() - 1 implies is_space(
                        #[trigger] s.drop_last()[i],
                    ) by {
                        assert(s.drop_last()[i] == s[i]);
                    }
                }
            }
        }
    }
}

/// Whether two texts are equal but for the case of ASCII letters.
pub fn eq_ignore_ascii_case(a: &str, b: &str) -> (r: bool)
    ensures
        r == (ascii_lowered(a@) == ascii_lowered(b@)),
{
    let v = to_chars(a);
    let w = to_chars(b);
    if v.len() != w.len() {
        assert(ascii_lowered(a@).len() != ascii_lowered(b@).len());
        return false;
    }
    let mut i: usize = 0;
    while i < v.len()
        invariant
            i <= v.len() == w.len(),
            v@ == a@,
            w@ == b@,
            forall|k: int| 0 <= k < i ==> ascii_lower(#[trigger] a@[k]) == ascii_lower(b@[k]),
        decreases v.len() - i,
    {
        if lower_char(v[i]) != lower_char(w[i]) {
            assert(ascii_lowered(a@)[i as int] != ascii_lowered(b@)[i as int]);
            return false;
        }
        i += 1;
    }
    assert(ascii_lowered(a@) =~= ascii_lowered(b@));
    true
}

/// The lower-case form of an ASCII capital; every other character as it is.
pub fn lower_char(c: char) -> (r: char)
    ensures
        r == ascii_lower(c),
{
    if 'A' <= c && c <= 'Z' {
        let b: u8 = c as u8;
        (b + 32) as char
    } else {
        c
    }
}

/// The text with every ASCII capital in its lower-case form.
pub fn ascii_lowercase(s: &str) -> (r: String)
    ensures
        r@ == ascii_lowered(s@),
{
    let v = to_chars(s);
    let mut r: String = String::new();
    let mut i: usize = 0;
    while i < v.len()
        invariant
            i <= v.len(),
            v@ == s@,
            r@ == ascii_lowered(s@).take(i as int),
        decreases v.len() - i,
    {
        r.push(lower_char(v[i]));
        i += 1;
        assert(ascii_lowered(s@).take(i as int) =~= ascii_lowered(s@).take(i - 1).push(
            ascii_lower(s@[i - 1]),
        ));
    }
    assert(ascii_lowered(s@).take(v.len() as int) =~= ascii_lowered(s@));
    r
}

proof fn lemma_number_grows(s: Seq<char>, k: int)
    requires
        0 <= k <= s.len(),
        forall|i: int| 0 <= i < s.len() ==> is_digit(#[trigger] s[i]),
    ensures
        number(s.take(k)) <= number(s),
    decreases s.len(),
{
    if k < s.len() {
        assert(s.drop_last().take(k) =~= s.take(k));
        assert forall|i: int| 0 <= i < s.len() - 1 implies is_digit(#[trigger] s.drop_last()[i]) by {
            assert(s.drop_last()[i] == s[i]);
        }
        lemma_number_grows(s.drop_last(), k);
    } else {
        assert(s.take(k) =~= s);
    }
}

/// The number that the digits of `v` from `lo` on write down; nothing if one of them is
/// no digit, if there is none, or if the number is above `max`.
pub fn digits_value(v: &Vec<char>, lo: usize, max: u128) -> (r: Option<u128>)
    requires
        lo <= v.len(),
    ensures
        r == (if all_digits(v@.skip(lo as int)) && number(v@.skip(lo as int)) <= max {
            Some(number(v@.skip(lo as int)) as u128)
        } else {
            None
        }),
{
    let ghost s = v@.skip(lo as int);
    if lo == v.len() {
        return None;
    }
    let mut n: u128 = 0;
    let mut small: bool = true;
    let mut i: usize = lo;
    assert(s.take(0) =~= seq![]);
    while i < v.len()
        invariant
            lo <= i <= v.len(),
            s == v@.skip(lo as int),
            forall|k: int| 0 <= k < i - lo ==> is_digit(#[trigger] s[k]),
            small ==> n == number(s.take(i - lo)) && n <= max,
            !small ==> number(s.take(i - lo)) > max,
        decreases v.len() - i,
    {
        let c: char = v[i];
        assert(c == s[i - lo]);
        if !('0' <= c && c <= '9') {
            assert(!is_digit(s[i - lo]));
            return None;
        }
        let d: u128 = (c as u8 - 48) as u128;
        let ghost t = s.take(i + 1 - lo);
        assert(t.drop_last() =~= s.take(i - lo));
        assert(number(t) == 10 * number(s.take(i - lo)) + d);
        if small {
            if n <= max / 10 && d <= max - 10 * n {
                n = 10 * n + d;
            } else {
                small = false;
            }
        }
        i += 1;
    }
    assert(s.take(s.len() as int) =~= s);
    if small {
        Some(n)
    } else {
        None
    }
}

/// The number that an optional plus sign and decimal digits write down, if it is at
/// most `max`.
pub fn parse_number(s: &str, max: u64) -> (r: Option<u64>)
    ensures
        r == (match parsed(s@, max as nat) {
            Some(n) => Some(n as u64),
            None => None,
        }),
{
    let v = to_chars(s);
    let lo: usize = if v.len() > 0 && v[0] == '+' { 1 } else { 0 };
    assert(v@.skip(0) =~= s@);
    assert(v.len() > 0 ==> v@.skip(1) =~= s@.drop_first());
    match digits_value(&v, lo, max as u128) {
        Some(n) => Some(n as u64),
        None => None,
    }
}

proof fn lemma_digit(d: nat)
    requires
        d < 10,
    ensures
        is_digit(digit(d)),
        digit(d) as int - 48 == d,
        digit(d) == '0' <==> d == 0,
{
    assert((48 + d) as char as int == 48 + d);
}

/// Decimal notation consists of digits, has no zero in front unless it is zero, and
/// reads back as the number.
pub proof fn written_number_reads_back(n: nat)
    ensures
        all_digits(dec(n)),
        number(dec(n)) == n,
        n > 0 ==> dec(n)[0] != '0',
        n == 0 ==> dec(n) == seq!['0'],
    decreases n,
{
    if n < 10 {
        lemma_digit(n);
        assert(dec(n).drop_last() =~= seq![]);
        assert(number(dec(n).drop_last()) == 0);
        if n == 0 {
            assert(dec(n) =~= seq!['0']);
        }
    } else {
        lemma_digit(n % 10);
        written_number_reads_back(n / 10);
        let head = dec(n / 10);
        assert(dec(n).drop_last() =~= head);
        assert forall|i: int| 0 <= i < dec(n).len() implies is_digit(#[trigger] dec(n)[i]) by {
            if i < head.len() {
                assert(dec(n)[i] == head[i]);
            }
        }
        assert(dec(n)[0] == head[0]);
    }
}

/// A number that was written is read, with or without a plus sign, exactly if it is not
/// above the greatest one allowed.
pub proof fn written_number_is_parsed(n: nat, max: nat)
    ensures
        parsed(dec(n), max) == (if n <= max {
            Some(n)
        } else {
            None
        }),
        parsed(seq!['+'] + dec(n), max) == parsed(dec(n), max),
{
    written_number_reads_back(n);
    assert(is_digit(dec(n)[0]));
    assert((seq!['+'] + dec(n)).drop_first() =~= dec(n));
}

proof fn lemma_padded(n: nat, places: nat)
    requires
        n < pow10(places),
    ensures
        padded(n, places).len() == places,
        forall|i: int| 0 <= i < places ==> is_digit(#[trigger] padded(n, places)[i]),
        number(padded(n, places)) == n,
    decreases places,
{
    if places > 0 {
        lemma_digit(n % 10);
        lemma_padded(n / 10, (places - 1) as nat);
        let head = padded(n / 10, (places - 1) as nat);
        assert(padded(n, places).drop_last() =~= head);
        assert forall|i: int| 0 <= i < places implies is_digit(#[trigger] padded(n, places)[i]) by {
            if i < head.len() {
                assert(padded(n, places)[i] == head[i]);
            }
        }
    } else {
        assert(padded(n, places) =~= seq![]);
    }
}

proof fn lemma_pow10(places: nat)
    ensures
        pow10(places) == vstd::arithmetic::power::pow(10, places),
        pow10(places) >= 1,
    decreases places,
{
    reveal(vstd::arithmetic::power::pow);
    if places > 0 {
        lemma_pow10((places - 1) as nat);
    }
}

/// A number with a fixed number of decimal places reads back: a minus sign exactly if it
/// is negative, the whole part, a point, and as many digits as there are places.
pub proof fn fixed_number_reads_back(units: int, places: nat)
    requires
        places > 0,
    ensures
        exists|whole: Seq<char>, part: Seq<char>|
            {
                &&& fixed(units, places) == (if units < 0 {
                    seq!['-']
                } else {
                    seq![]
                }) + whole + seq!['.'] + part
                &&& all_digits(whole) && all_digits(part) && part.len() == places
                &&& #[trigger] number(whole) * vstd::arithmetic::power::pow(10, places)
                    + #[trigger] number(part) == (if units < 0 {
                    -units
                } else {
                    units
                })
            },
{
    let size: nat = if units < 0 {
        (-units) as nat
    } else {
        units as nat
    };
    lemma_pow10(places);
    let p = pow10(places);
    let whole = dec(size / p);
    let part = padded(size % p, places);
    written_number_reads_back(size / p);
    lemma_padded(size % p, places);
    assert(size == (size / p) * p + size % p) by (nonlinear_arith)
        requires
            p >= 1,
    ;
    assert(fixed(units, places) =~= (if units < 0 {
        seq!['-']
    } else {
        seq![]
    }) + whole + seq!['.'] + part);
    assert(number(whole) * p + number(part) == size);
}

proof fn lemma_trimmed_end(s: Seq<char>)
    ensures
        trimmed_end(s) == s.take(trimmed_end(s).len() as int),
        trimmed_end(s).len() <= s.len(),
        trimmed_end(s).len() > 0 ==> !is_space(trimmed_end(s).last()),
        is_blank(s.skip(trimmed_end(s).len() as int)),
    decreases s.len(),
{
    if s.len() > 0 && is_space(s.last()) {
        let t = s.drop_last();
        lemma_trimmed_end(t);
        let n = trimmed_end(t).len() as int;
        assert(t.take(n) =~= s.take(n));
        let cut = s.skip(n);
        assert forall|i: int| 0 <= i < cut.len() implies is_space(#[trigger] cut[i]) by {
            if n + i < t.len() {
                assert(t.skip(n)[i] == cut[i]);
            }
        }
    } else {
        assert(s.take(s.len() as int) =~= s);
    }
}

proof fn lemma_trimmed_start(s: Seq<char>)
    ensures
        trimmed_start(s) == s.skip(s.len() - trimmed_start(s).len()),
        trimmed_start(s).len() <= s.len(),
        trimmed_start(s).len() > 0 ==> !is_space(trimmed_start(s)[0]),
        is_blank(s.take(s.len() - trimmed_start(s).len())),
    decreases s.len(),
{
    if s.len() > 0 && is_space(s[0]) {
        let t = s.drop_first();
        lemma_trimmed_start(t);
        let k = t.len() - trimmed_start(t).len();
        assert(s.skip(k + 1) =~= t.skip(k));
        let cut = s.take(k + 1);
        assert forall|i: int| 0 <= i < cut.len() implies is_space(#[trigger] cut[i]) by {
            if i > 0 {
                assert(t.take(k)[i - 1] == cut[i]);
            }
        }
    } else {
        assert(s.skip(0) =~= s);
    }
}

/// Trimming takes away white space at the ends and nothing else: what is left neither
/// begins nor ends with any, and what was taken away is nothing but white space.
pub proof fn trimming_takes_white_space_only(s: Seq<char>)
    ensures
        trimmed_end(s) == s.take(trimmed_end(s).len() as int),
        trimmed_end(s).len() <= s.len(),
        trimmed_end(s).len() > 0 ==> !is_space(trimmed_end(s).last()),
        is_blank(s.skip(trimmed_end(s).len() as int)),
        trimmed_start(s) == s.skip(s.len() - trimmed_start(s).len()),
        trimmed_start(s).len() <= s.len(),
        trimmed_start(s).len() > 0 ==> !is_space(trimmed_start(s)[0]),
        is_blank(s.take(s.len() - trimmed_start(s).len())),
{
    lemma_trimmed_end(s);
    lemma_trimmed_start(s);
}

/// Lower case moves the capitals of ASCII to the small letters at the same places of the
/// alphabet and leaves every other character.
pub proof fn small_letters_stand_for_capitals(c: char)
    ensures
        'A' <= c <= 'Z' ==> 'a' <= ascii_lower(c) <= 'z' && ascii_lower(c) as int - 'a' as int
            == c as int - 'A' as int,
        !('A' <= c <= 'Z') ==> ascii_lower(c) == c,
{
    if 'A' <= c <= 'Z' {
        assert((c as int + 32) as char as int == c as int + 32);
    }
}

/// Joining loses none of the texts.
pub proof fn joining_keeps_each_text(parts: Seq<Seq<char>>, sep: Seq<char>, i: int)
    requires
        0 <= i < parts.len(),
    ensures
        has_part(joined(parts, sep), parts[i]),
    decreases parts.len(),
{
    let head = parts.drop_last();
    let none = Seq::<char>::empty();
    if parts.len() == 1 {
        assert(joined(parts, sep) =~= none + parts[i] + none);
    } else if i == parts.len() - 1 {
        assert(joined(parts, sep) =~= (joined(head, sep) + sep) + parts[i] + none);
    } else {
        joining_keeps_each_text(head, sep, i);
        let (a, b) = choose|a: Seq<char>, b: Seq<char>|
            joined(head, sep) == #[trigger] (a + parts[i] + b);
        assert(joined(parts, sep) =~= a + parts[i] + (b + sep + parts.last()));
    }
}

/// A text is read as a number exactly if it is made of digits, with or without a plus sign
/// in front, and the number is not above the greatest one allowed.
pub proof fn only_digits_are_parsed(s: Seq<char>, max: nat)
    ensures
        all_digits(s) && number(s) <= max ==> parsed(s, max) == Some(number(s)),
        all_digits(s) && number(s) > max ==> parsed(s, max) is None,
        s.len() == 0 ==> parsed(s, max) is None,
        parsed(s, max) matches Some(n) ==> n <= max && forall|i: int|
            0 <= i < s.len() ==> is_digit(#[trigger] s[i]) || (i == 0 && s[0] == '+' && s.len() > 1),
{
    if all_digits(s) {
        assert(is_digit(s[0]));
    }
    if parsed(s, max) is Some && s[0] == '+' {
        let body = s.drop_first();
        assert forall|i: int| 0 <= i < s.len() implies is_digit(#[trigger] s[i]) || (i == 0 && s[0]
            == '+' && s.len() > 1) by {
            if i > 0 {
                assert(is_digit(body[i - 1]));
            }
        }
    }
}

/// A digit behind a number makes it ten times as great and adds its own value.
pub proof fn digits_count_by_place(s: Seq<char>, d: nat)
    requires
        d < 10,
    ensures
        number(s.push(digit(d))) == 10 * number(s) + d,
        is_digit(digit(d)),
{
    lemma_digit(d);
    assert(s.push(digit(d)).drop_last() =~= s);
}

proof fn lemma_blank_in_front(a: Seq<char>, x: Seq<char>)
    requires
        is_blank(a),
    ensures
        trimmed_start(a + x) == trimmed_start(x),
    decreases a.len(),
{
    if a.len() == 0 {
        assert(a + x =~= x);
    } else {
        let rest = a.drop_first();
        assert((a + x).drop_first() =~= rest + x);
        assert(is_space(a[0]));
        assert forall|i: int| 0 <= i < rest.len() implies is_space(#[trigger] rest[i]) by {
            assert(is_space(a[i + 1]));
        }
        lemma_blank_in_front(rest, x);
    }
}

proof fn lemma_blank_behind(x: Seq<char>, b: Seq<char>)
    requires
        is_blank(b),
    ensures
        trimmed_end(x + b) == trimmed_end(x),
    decreases b.len(),
{
    if b.len() == 0 {
        assert(x + b =~= x);
    } else {
        let rest = b.drop_last();
        assert((x + b).drop_last() =~= x + rest);
        assert(is_space(b[b.len() - 1]));
        assert forall|i: int| 0 <= i < rest.len() implies is_space(#[trigger] rest[i]) by {
            assert(is_space(b[i]));
        }
        lemma_blank_behind(x, rest);
    }
}

/// White space around a text that neither begins nor ends with any is taken away whole.
pub proof fn white_space_around_is_taken_away(a: Seq<char>, t: Seq<char>, b: Seq<char>)
    requires
        is_blank(a),
        is_blank(b),
        t.len() > 0,
        !is_space(t[0]),
        !is_space(t.last()),
    ensures
        trimmed_end(trimmed_start(a + t + b)) == t,
        trimmed_end(t + b) == t,
{
    assert(a + t + b =~= a + (t + b));
    lemma_blank_in_front(a, t + b);
    assert((t + b)[0] == t[0]);
    lemma_blank_behind(t, b);
}

} // verus!
