//! Links that open a filled-in bug report.

use crate::text::to_chars;
use vstd::prelude::*;
use vstd::string::StringSliceAdditionalSpecFns;
use vstd::utf8::{encode_scalar, encode_utf8};

verus! {

broadcast use vstd::seq_lib::group_seq_properties;

/// Where releases and bug reports are.
pub open spec fn repo() -> Seq<char> {
    "kevin191211/photo2video"@
}

/// The bytes that stand for themselves in a link.
pub open spec fn is_unreserved(b: u8) -> bool {
    ||| 65 <= b <= 90
    ||| 97 <= b <= 122
    ||| 48 <= b <= 57
    ||| b == 45
    ||| b == 95
    ||| b == 46
    ||| b == 126
}

/// A hexadecimal digit, with capitals.
pub open spec fn hex_digit(n: u8) -> char {
    if n < 10 {
        (48 + n) as char
    } else {
        (55 + n) as char
    }
}

/// What a byte becomes in a link.
pub open spec fn url_byte(b: u8) -> Seq<char> {
    if is_unreserved(b) {
        seq![b as char]
    } else {
        seq!['%', hex_digit(b / 16), hex_digit(b % 16)]
    }
}

/// Bytes in percent encoding.
pub open spec fn url_bytes(b: Seq<u8>) -> Seq<char>
    decreases b.len(),
{
    if b.len() == 0 {
        seq![]
    } else {
        url_bytes(b.drop_last()) + url_byte(b.last())
    }
}

/// A text in percent encoding, by its UTF-8 bytes.
pub open spec fn url_text(s: Seq<char>) -> Seq<char> {
    url_bytes(encode_utf8(s))
}

pub(crate) fn push_hex(out: &mut String, n: u8)
    requires
        n < 16,
    ensures
        final(out)@ == old(out)@.push(hex_digit(n)),
{
    let c: char = if n < 10 {
        (48 + n) as char
    } else {
        (55 + n) as char
    };
    out.push(c);
}

/// Percent encoding: every byte of the UTF-8 form that is not unreserved is written as
/// `%` and two hexadecimal digits.
pub fn urlencode(s: &str) -> (r: String)
    ensures
        r@ == url_text(s@),
{
    let bytes = s.as_bytes();
    let mut out: String = String::new();
    let mut i: usize = 0;
    assert(bytes@.take(0) =~= seq![]);
    while i < bytes.len()
        invariant
            i <= bytes.len(),
            out@ == url_bytes(bytes@.take(i as int)),
        decreases bytes.len() - i,
    {
        let b: u8 = bytes[i];
        let ghost before = out@;
        assert(bytes@.take(i + 1).drop_last() =~= bytes@.take(i as int));
        if (65 <= b && b <= 90) || (97 <= b && b <= 122) || (48 <= b && b <= 57) || b == 45 || b
            == 95 || b == 46 || b == 126 {
            out.push(b as char);
        } else {
            out.push('%');
            push_hex(&mut out, b / 16);
            push_hex(&mut out, b % 16);
        }
        assert(out@ =~= before + url_byte(b));
        i += 1;
    }
    assert(bytes@.take(bytes.len() as int) =~= bytes@);
    out
}

/// The value of a hexadecimal digit with capitals.
pub open spec fn hex_value(c: char) -> int {
    if '0' <= c <= '9' {
        c as int - 48
    } else {
        c as int - 55
    }
}

/// How a receiver reads percent encoding.
pub open spec fn url_decoded(s: Seq<char>) -> Seq<u8>
    decreases s.len(),
{
    if s.len() == 0 {
        seq![]
    } else if s[0] == '%' && s.len() >= 3 {
        seq![(16 * hex_value(s[1]) + hex_value(s[2])) as u8] + url_decoded(s.skip(3))
    } else {
        seq![s[0] as u8] + url_decoded(s.drop_first())
    }
}

proof fn lemma_url_front(b: Seq<u8>)
    requires
        b.len() > 0,
    ensures
        url_bytes(b) == url_byte(b[0]) + url_bytes(b.drop_first()),
    decreases b.len(),
{
    if b.len() == 1 {
        assert(url_bytes(b.drop_last()) =~= seq![]);
        assert(url_bytes(b.drop_first()) =~= seq![]);
        assert(url_bytes(b) =~= url_byte(b[0]));
    } else {
        lemma_url_front(b.drop_last());
        assert(b.drop_last().drop_first() =~= b.drop_first().drop_last());
        assert(url_bytes(b) =~= url_byte(b[0]) + url_bytes(b.drop_first()));
    }
}

/// What was encoded is read back byte for byte.
pub proof fn encoded_link_reads_back(b: Seq<u8>)
    ensures
        url_decoded(url_bytes(b)) == b,
    decreases b.len(),
{
    if b.len() == 0 {
        assert(url_decoded(url_bytes(b)) =~= b);
    } else {
        let rest = b.drop_first();
        lemma_url_front(b);
        encoded_link_reads_back(rest);
        let u = url_bytes(b);
        let x = b[0];
        assert(b =~= seq![x] + rest);
        if is_unreserved(x) {
            assert(u.drop_first() =~= url_bytes(rest));
            assert(u[0] as u8 == x);
        } else {
            assert(u.skip(3) =~= url_bytes(rest));
            assert(16 * (x / 16) + x % 16 == x);
        }
    }
}

/// The encoded form is at most three times as long.
pub proof fn encoding_triples_at_most(b: Seq<u8>)
    ensures
        url_bytes(b).len() <= 3 * b.len(),
    decreases b.len(),
{
    if b.len() > 0 {
        encoding_triples_at_most(b.drop_last());
    }
}

/// The number of bytes of a character in UTF-8.
pub open spec fn utf8_len(c: char) -> nat {
    encode_scalar(c as u32).len()
}

fn char_bytes(c: char) -> (r: usize)
    ensures
        r == utf8_len(c),
        1 <= r <= 4,
{
    let n: u32 = c as u32;
    if n < 0x80 {
        1
    } else if n < 0x800 {
        2
    } else if n < 0x10000 {
        3
    } else {
        4
    }
}

/// The longest beginning of a text for which three times its number of UTF-8 bytes stays
/// within `budget`, character by character.
pub open spec fn kept_within(s: Seq<char>, budget: int) -> Seq<char>
    decreases s.len(),
{
    if s.len() == 0 || 3 * utf8_len(s[0]) > budget {
        seq![]
    } else {
        seq![s[0]] + kept_within(s.drop_first(), budget - 3 * utf8_len(s[0]))
    }
}

/// A text cut to what fits the budget, with a remark where something was cut off.
pub open spec fn truncated(s: Seq<char>, budget: int) -> Seq<char> {
    let kept = kept_within(s, budget);
    if kept.len() == s.len() {
        s
    } else {
        kept + "\n…（內容過長已截斷）"@
    }
}

proof fn lemma_kept(s: Seq<char>, budget: int)
    ensures
        kept_within(s, budget) == s.take(kept_within(s, budget).len() as int),
        kept_within(s, budget).len() <= s.len(),
        budget >= 0 ==> 3 * encode_utf8(kept_within(s, budget)).len() <= budget,
    decreases s.len(),
{
    if s.len() == 0 || 3 * utf8_len(s[0]) > budget {
        assert(s.take(0) =~= seq![]);
    } else {
        let rest = s.drop_first();
        let b = budget - 3 * utf8_len(s[0]);
        lemma_kept(rest, b);
        let k = kept_within(s, budget);
        assert(k.drop_first() =~= kept_within(rest, b));
        assert(k =~= s.take(k.len() as int));
    }
}

/// What is kept of a text fits the budget after percent encoding.
pub proof fn kept_text_fits_the_budget(s: Seq<char>, budget: nat)
    ensures
        url_text(kept_within(s, budget as int)).len() <= budget,
{
    lemma_kept(s, budget as int);
    encoding_triples_at_most(encode_utf8(kept_within(s, budget as int)));
}

/// Cuts a text so that what is kept fits the budget after percent encoding.
pub fn truncate_for_url(s: &str, budget: usize) -> (r: String)
    ensures
        r@ == truncated(s@, budget as int),
{
    let v = to_chars(s);
    let mut out: String = String::new();
    let mut left: usize = budget;
    let mut i: usize = 0;
    assert(v@.skip(0) =~= s@);
    assert(v@.take(0) =~= out@);
    while i < v.len()
        invariant
            i <= v.len(),
            v@ == s@,
            out@ == v@.take(i as int),
            kept_within(s@, budget as int) == v@.take(i as int) + kept_within(
                v@.skip(i as int),
                left as int,
            ),
        decreases v.len() - i,
    {
        let c: char = v[i];
        let l: usize = char_bytes(c) * 3;
        assert(v@.skip(i as int)[0] == c);
        if l > left {
            assert(kept_within(s@, budget as int) =~= v@.take(i as int));
            out.append("\n…（內容過長已截斷）");
            return out;
        }
        proof {
            assert(v@.skip(i as int).drop_first() =~= v@.skip(i + 1));
            assert(v@.take(i as int) + (seq![c] + kept_within(v@.skip(i + 1), left - l))
                =~= v@.take(i + 1) + kept_within(v@.skip(i + 1), left - l));
            assert(v@.take(i + 1) =~= v@.take(i as int).push(c));
        }
        left -= l;
        out.push(c);
        i += 1;
    }
    assert(v@.take(v.len() as int) =~= s@);
    assert(kept_within(s@, budget as int) =~= s@);
    out
}

/// The link to a new bug report with title and body filled in.
pub open spec fn issue_link(title: Seq<char>, body: Seq<char>) -> Seq<char> {
    "https://github.com/"@ + repo() + "/issues/new?title="@ + url_text(title) + "&body="@
        + url_text(body)
}

/// The link to a new bug report with title and body filled in.
pub fn issue_url(title: &str, body: &str) -> (r: String)
    ensures
        r@ == issue_link(title@, body@),
{
    let mut r: String = "https://github.com/".to_owned();
    r.append("kevin191211/photo2video");
    r.append("/issues/new?title=");
    r.append(urlencode(title).as_str());
    r.append("&body=");
    r.append(urlencode(body).as_str());
    r
}

/// The body of a report on a crash of the program.
pub open spec fn crash_body(report: Seq<char>, version: Seq<char>) -> Seq<char> {
    "版本：v"@ + version + "\n作業系統：Windows\n\n閃退紀錄：\n"@ + truncated(report, 1500)
        + "\n\n（發生了什麼、當時在做哪個操作，可補充於此）"@
}

/// The link that reports a crash of the program.
pub fn crash_report_url(report: &str, version: &str) -> (r: String)
    ensures
        r@ == issue_link("程式閃退回報"@, crash_body(report@, version@)),
{
    let mut body: String = "版本：v".to_owned();
    body.append(version);
    body.append("\n作業系統：Windows\n\n閃退紀錄：\n");
    body.append(truncate_for_url(report, 1500).as_str());
    body.append("\n\n（發生了什麼、當時在做哪個操作，可補充於此）");
    issue_url("程式閃退回報", body.as_str())
}

/// The body of a report on a failed conversion.
pub open spec fn failure_body(error: Seq<char>, version: Seq<char>) -> Seq<char> {
    "版本：v"@ + version + "\n作業系統：Windows\n\n錯誤訊息：\n"@ + truncated(error, 1500)
        + "\n\n（發生了什麼、用了哪些設定，可補充於此）"@
}

/// The link that reports a failed conversion.
pub fn failure_report_url(error: &str, version: &str) -> (r: String)
    ensures
        r@ == issue_link("轉換失敗回報"@, failure_body(error@, version@)),
{
    let mut body: String = "版本：v".to_owned();
    body.append(version);
    body.append("\n作業系統：Windows\n\n錯誤訊息：\n");
    body.append(truncate_for_url(error, 1500).as_str());
    body.append("\n\n（發生了什麼、用了哪些設定，可補充於此）");
    issue_url("轉換失敗回報", body.as_str())
}

/// What is written down of a crash.
pub fn crash_text(version: &str, message: Option<&str>, place: Option<&str>, trace: &str) -> (r:
    String)
    ensures
        r@ == "Photo2Video v"@ + version@ + "\npanic："@ + (match message {
            Some(m) => m@,
            None => "（無法取得錯誤內容）"@,
        }) + "\n位置："@ + (match place {
            Some(p) => p@,
            None => "未知位置"@,
        }) + "\n\nbacktrace：\n"@ + trace@,
{
    let mut r: String = "Photo2Video v".to_owned();
    r.append(version);
    r.append("\npanic：");
    match message {
        Some(m) => r.append(m),
        None => r.append("（無法取得錯誤內容）"),
    }
    r.append("\n位置：");
    match place {
        Some(p) => r.append(p),
        None => r.append("未知位置"),
    }
    r.append("\n\nbacktrace：\n");
    r.append(trace);
    r
}

/// Where the latest release can be asked for.
pub fn release_api_url() -> (r: String)
    ensures
        r@ == "https://api.github.com/repos/"@ + repo() + "/releases/latest"@,
{
    let mut r: String = "https://api.github.com/repos/".to_owned();
    r.append("kevin191211/photo2video");
    r.append("/releases/latest");
    r
}

/// The page of the latest release.
pub fn release_page_url() -> (r: String)
    ensures
        r@ == "https://github.com/"@ + repo() + "/releases/latest"@,
{
    let mut r: String = "https://github.com/".to_owned();
    r.append("kevin191211/photo2video");
    r.append("/releases/latest");
    r
}

/// Where the program of a release can be fetched.
pub fn download_url(tag: &str) -> (r: String)
    ensures
        r@ == "https://github.com/"@ + repo() + "/releases/download/"@ + tag@
            + "/photo2video.exe"@,
{
    let mut r: String = "https://github.com/".to_owned();
    r.append("kevin191211/photo2video");
    r.append("/releases/download/");
    r.append(tag);
    r.append("/photo2video.exe");
    r
}

proof fn lemma_bytes_of_both(a: Seq<char>, b: Seq<char>)
    ensures
        encode_utf8(a + b).len() == encode_utf8(a).len() + encode_utf8(b).len(),
    decreases a.len(),
{
    if a.len() == 0 {
        assert(a + b =~= b);
    } else {
        assert((a + b).drop_first() =~= a.drop_first() + b);
        lemma_bytes_of_both(a.drop_first(), b);
    }
}

proof fn lemma_four_bytes_at_most(s: Seq<char>)
    ensures
        encode_utf8(s).len() <= 4 * s.len(),
    decreases s.len(),
{
    if s.len() > 0 {
        lemma_four_bytes_at_most(s.drop_first());
    }
}

/// The body of a report has few bytes, however long the text is that it quotes.
proof fn lemma_short_body(
    start: Seq<char>,
    version: Seq<char>,
    middle: Seq<char>,
    quoted: Seq<char>,
    end: Seq<char>,
)
    ensures
        3 * encode_utf8(start + version + middle + truncated(quoted, 1500) + end).len() <= 1500
            + 12 * (start.len() + version.len() + middle.len() + end.len() + 12),
{
    reveal_strlit("\n…（內容過長已截斷）");
    let remark = "\n…（內容過長已截斷）"@;
    let kept = kept_within(quoted, 1500);
    let t = truncated(quoted, 1500);
    lemma_kept(quoted, 1500);
    lemma_bytes_of_both(kept, remark);
    lemma_four_bytes_at_most(remark);
    if kept.len() == quoted.len() {
        assert(kept =~= quoted);
    }
    lemma_bytes_of_both(start, version);
    lemma_bytes_of_both(start + version, middle);
    lemma_bytes_of_both(start + version + middle, t);
    lemma_bytes_of_both(start + version + middle + t, end);
    lemma_four_bytes_at_most(start);
    lemma_four_bytes_at_most(version);
    lemma_four_bytes_at_most(middle);
    lemma_four_bytes_at_most(end);
}

proof fn lemma_link_len(title: Seq<char>, body: Seq<char>)
    ensures
        issue_link(title, body).len() <= 66 + 12 * title.len() + 3 * encode_utf8(body).len(),
{
    reveal_strlit("https://github.com/");
    reveal_strlit("kevin191211/photo2video");
    reveal_strlit("/issues/new?title=");
    reveal_strlit("&body=");
    encoding_triples_at_most(encode_utf8(title));
    lemma_four_bytes_at_most(title);
    encoding_triples_at_most(encode_utf8(body));
}

/// However long a crash report or an error message is, the link stays short: beside the
/// version, which may take twelve characters for each of its own, it has fewer than 2400
/// characters.
pub proof fn report_links_stay_short(text: Seq<char>, version: Seq<char>)
    ensures
        issue_link("程式閃退回報"@, crash_body(text, version)).len() < 2400 + 12
            * version.len(),
        issue_link("轉換失敗回報"@, failure_body(text, version)).len() < 2400 + 12
            * version.len(),
{
    reveal_strlit("程式閃退回報");
    reveal_strlit("轉換失敗回報");
    reveal_strlit("版本：v");
    reveal_strlit("\n作業系統：Windows\n\n閃退紀錄：\n");
    reveal_strlit("\n\n（發生了什麼、當時在做哪個操作，可補充於此）");
    reveal_strlit("\n作業系統：Windows\n\n錯誤訊息：\n");
    reveal_strlit("\n\n（發生了什麼、用了哪些設定，可補充於此）");
    lemma_short_body(
        "版本：v"@,
        version,
        "\n作業系統：Windows\n\n閃退紀錄：\n"@,
        text,
        "\n\n（發生了什麼、當時在做哪個操作，可補充於此）"@,
    );
    lemma_short_body(
        "版本：v"@,
        version,
        "\n作業系統：Windows\n\n錯誤訊息：\n"@,
        text,
        "\n\n（發生了什麼、用了哪些設定，可補充於此）"@,
    );
    lemma_link_len("程式閃退回報"@, crash_body(text, version));
    lemma_link_len("轉換失敗回報"@, failure_body(text, version));
}

} // verus!
