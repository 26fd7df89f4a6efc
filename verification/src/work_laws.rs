//! What holds of conversions, updates and copies while they are under way.

use crate::adjust::Adjustments;
use crate::base_cache::{
    ways, BaseCache, BaseKey, BaseRole, BaseView, CacheView, KeyView, CAPACITY,
};
use crate::conversion::{ConversionView, StateView, WorkerView};
use crate::editor::Thumb;
use crate::graph::preview_chain;
use crate::graph_laws::begins;
use crate::install::{FoundView, InstallView};
use crate::options::{H264Encoder, OutputFormat};
use crate::report::{
    crash_body, failure_body, issue_link, kept_within, truncated, url_byte, url_bytes, url_text,
};
use crate::run::{Action, ActionView, Run, Stage};
use crate::scalar::{zero, Scalar};
use crate::temp::{left_behind, run_prefix};
use crate::text::has_part;
use crate::thumbs::{marked, wanted, ThumbsView, LONG_QUEUE};
use crate::update::{StatusView, UpdateMsgView, UpdaterView};
use vstd::prelude::*;

verus! {

/// A conversion that has begun is under way at the start and knows what it writes.
/// Calling it off keeps it under way until it ends, with the progress that it made.
pub proof fn begun_conversion_is_under_way(v: ConversionView, output: Seq<char>)
    ensures
        v.begun(output).working(),
        v.begun(output).output == Some(output),
        v.begun(output).state->progress == zero(),
        v.working() ==> v.cancelled().working() && v.cancelled().output == v.output
            && v.cancelled().state->progress == v.state->progress,
        !v.working() ==> v.cancelled() == v,
{
}

/// A report changes only what it tells: the status, the progress, or the end with its
/// result. Reports after the end change nothing.
pub proof fn reports_change_what_they_tell(
    v: ConversionView,
    status: Seq<char>,
    progress: Scalar,
    cancelled: bool,
)
    ensures
        v.working() ==> v.reported(WorkerView::Status(status), cancelled) == (ConversionView {
            state: StateView::Working { progress: v.state->progress, status },
            ..v
        }),
        v.working() ==> v.reported(WorkerView::Progress(progress), cancelled) == (ConversionView {
            state: StateView::Working { progress, status: v.state->status },
            ..v
        }),
        !v.working() ==> v.reported(WorkerView::Status(status), cancelled) == v && v.reported(
            WorkerView::Progress(progress),
            cancelled,
        ) == v,
        v.reported(WorkerView::Done(status), cancelled).state == StateView::Done(status),
        v.reported(WorkerView::Error(status), false).state == StateView::Error(status),
        v.reported(WorkerView::Error(status), true).state == StateView::Idle,
        v.reported(WorkerView::Done(status), cancelled).output is None,
        v.reported(WorkerView::Error(status), cancelled).output is None,
{
}

/// A conversion that is gone without a last report has failed, and one that had ended is
/// left as it was. Clearing the results of an earlier conversion leaves one that is under
/// way.
pub proof fn lost_conversion_has_failed(v: ConversionView)
    ensures
        v.working() ==> v.lost().state is Error && v.lost().output is None,
        !v.working() ==> v.lost() == v,
        v.working() ==> v.banner_cleared() == v,
        !v.working() ==> v.banner_cleared().state is Idle,
        v.banner_cleared().output == v.output,
        v.banner_cleared().banner_cleared() == v.banner_cleared(),
{
}

/// Without errors a conversion goes through all its stages in order: every photo that is
/// to be adjusted, the list, every caption, the choice of an encoder unless the format
/// leaves none, and the encoding.
pub proof fn conversion_goes_through_its_stages(r: Run)
    requires
        r.wf(),
        r.captions < usize::MAX,
    ensures
        r.stage matches Stage::Adjust(k) ==> {
            let n = r.following(None, false);
            &&& k + 1 < r.to_adjust@.len() ==> n.stage == Stage::Adjust((k + 1) as usize)
                && n.action == ActionView::Adjust(k + 1, r.to_adjust@[k + 1] as int)
            &&& k + 1 == r.to_adjust@.len() ==> n.stage == Stage::List && n.action
                == ActionView::WriteList
        },
        r.stage == Stage::List && r.captions > 0 ==> r.following(None, false).stage
            == Stage::Caption(0) && r.following(None, false).action == ActionView::WriteCaption(0),
        r.stage matches Stage::Caption(k) ==> (k + 1 < r.captions ==> r.following(
            None,
            false,
        ).stage == Stage::Caption((k + 1) as usize) && r.following(None, false).action
            == ActionView::WriteCaption(k + 1)),
        (r.stage == Stage::List && r.captions == 0) || (r.stage matches Stage::Caption(k) && k + 1
            == r.captions) ==> {
            let n = r.following(None, false);
            &&& r.format == OutputFormat::Webm ==> n.action == ActionView::Encode(
                H264Encoder::Software,
            ) && n.stage == Stage::Encode(H264Encoder::Software)
            &&& r.format != OutputFormat::Webm ==> n.action == ActionView::Detect && n.stage
                == Stage::Detect
        },
        r.stage is Encode ==> (r.following(None, false).action matches ActionView::Finish(e)
            && e.error is None && !e.output && e.list && e.adjusted == r.to_adjust@.len()
            && e.captions == r.captions),
{
}

/// An error before the encoding ends the conversion and is told, and so is that of an
/// encoding that is not tried again.
pub proof fn errors_are_told(r: Run, e: Seq<char>, cancelled: bool)
    ensures
        r.stage is Adjust || r.stage is List || r.stage is Caption || (r.stage matches Stage::Encode(
            enc,
        ) && (enc == H264Encoder::Software || cancelled || r.format == OutputFormat::Webm)) ==> {
            let n = r.following(Some(e), cancelled);
            &&& n.stage == Stage::Over
            &&& n.action matches ActionView::Finish(end) && end.error matches Some(t) && has_part(t, e)
        },
        r.stage matches Stage::Adjust(k) ==> (r.following(
            Some(e),
            cancelled,
        ).action matches ActionView::Finish(end) && end.adjusted == k && !end.list && end.captions
            == 0 && !end.output),
        r.stage is List || r.stage is Caption ==> (r.following(
            Some(e),
            cancelled,
        ).action matches ActionView::Finish(end) && end.adjusted == 0 && !end.list && end.captions
            == 0 && !end.output),
{
    let none = Seq::<char>::empty();
    assert(e =~= none + e + none);
    assert("無法寫入暫存清單："@ + e =~= "無法寫入暫存清單："@ + e + none);
    assert("無法寫入字幕暫存檔："@ + e =~= "無法寫入字幕暫存檔："@ + e + none);
}

/// A report names the repository, and holds its title and its text in a form that a link
/// can carry.
pub proof fn report_link_holds_the_report(title: Seq<char>, body: Seq<char>)
    ensures
        begins(issue_link(title, body), "https://github.com/kevin191211/photo2video/issues/new?"@),
        crate::graph_laws::ends(
            issue_link(title, body),
            "?title="@ + url_text(title) + "&body="@ + url_text(body),
        ),
{
    let base = "https://github.com/"@ + crate::report::repo() + "/issues/new?title="@;
    assert(base =~= "https://github.com/kevin191211/photo2video/issues/new?"@ + "title="@) by {
        reveal_strlit("https://github.com/");
        reveal_strlit("kevin191211/photo2video");
        reveal_strlit("/issues/new?title=");
        reveal_strlit("https://github.com/kevin191211/photo2video/issues/new?");
        reveal_strlit("title=");
    }
    assert("/issues/new?title="@ =~= "/issues/new"@ + "?title="@) by {
        reveal_strlit("/issues/new?title=");
        reveal_strlit("/issues/new");
        reveal_strlit("?title=");
    }
    lemma_link(url_text(title), url_text(body));
}

proof fn lemma_link(title: Seq<char>, body: Seq<char>)
    requires
        "https://github.com/"@ + crate::report::repo() + "/issues/new?title="@
            == "https://github.com/kevin191211/photo2video/issues/new?"@ + "title="@,
        "/issues/new?title="@ == "/issues/new"@ + "?title="@,
    ensures
        ({
            let link = "https://github.com/"@ + crate::report::repo() + "/issues/new?title="@
                + title + "&body="@ + body;
            &&& begins(link, "https://github.com/kevin191211/photo2video/issues/new?"@)
            &&& crate::graph_laws::ends(link, "?title="@ + title + "&body="@ + body)
        }),
{
    broadcast use crate::text::following_texts_go_together;

    let repo = crate::report::repo();
    let link = "https://github.com/"@ + repo + "/issues/new?title="@ + title + "&body="@ + body;
    let a = "https://github.com/kevin191211/photo2video/issues/new?"@;
    assert(link == a + ("title="@ + title + "&body="@ + body));
    assert(link == ("https://github.com/"@ + repo + "/issues/new"@) + ("?title="@ + title
        + "&body="@ + body));
}

/// A report tells the version and what happened; of a text that is too long it tells the
/// beginning, and of any other all of it.
pub proof fn report_tells_what_happened(text: Seq<char>, version: Seq<char>, budget: int)
    ensures
        has_part(crash_body(text, version), "v"@ + version),
        has_part(crash_body(text, version), truncated(text, 1500)),
        has_part(failure_body(text, version), "v"@ + version),
        has_part(failure_body(text, version), truncated(text, 1500)),
        begins(text, kept_within(text, budget)),
        begins(truncated(text, budget), kept_within(text, budget)),
        12 * text.len() <= budget ==> truncated(text, budget) == text,
{
    let t = truncated(text, 1500);
    assert("版本：v"@ =~= "版本："@ + "v"@) by {
        reveal_strlit("版本：v");
        reveal_strlit("版本：");
        reveal_strlit("v");
    }
    let a = "\n作業系統：Windows\n\n閃退紀錄：\n"@;
    let b = "\n\n（發生了什麼、當時在做哪個操作，可補充於此）"@;
    let c = "\n作業系統：Windows\n\n錯誤訊息：\n"@;
    let d = "\n\n（發生了什麼、用了哪些設定，可補充於此）"@;
    assert(crash_body(text, version) =~= "版本："@ + ("v"@ + version) + (a + t + b));
    assert(crash_body(text, version) =~= ("版本：v"@ + version + a) + t + b);
    assert(failure_body(text, version) =~= "版本："@ + ("v"@ + version) + (c + t + d));
    assert(failure_body(text, version) =~= ("版本：v"@ + version + c) + t + d);
    lemma_kept(text, budget);
    let kept = kept_within(text, budget);
    assert(truncated(text, budget) =~= if kept.len() == text.len() {
        kept + seq![]
    } else {
        kept + "\n…（內容過長已截斷）"@
    });
}

proof fn lemma_kept(s: Seq<char>, budget: int)
    ensures
        begins(s, kept_within(s, budget)),
        kept_within(s, budget).len() == s.len() ==> kept_within(s, budget) == s,
        12 * s.len() <= budget ==> kept_within(s, budget) == s,
    decreases s.len(),
{
    let kept = kept_within(s, budget);
    if s.len() == 0 {
        assert(s =~= kept + s);
        assert(kept =~= s);
    } else if 3 * crate::report::utf8_len(s[0]) > budget {
        assert(s =~= kept + s);
    } else {
        let rest = s.drop_first();
        let left = budget - 3 * crate::report::utf8_len(s[0]);
        lemma_kept(rest, left);
        let more = choose|more: Seq<char>| rest == #[trigger] (kept_within(rest, left) + more);
        assert(kept == seq![s[0]] + kept_within(rest, left));
        assert(s =~= seq![s[0]] + rest);
        assert(s =~= kept + more);
        if kept.len() == s.len() {
            assert(kept =~= s);
        }
        if 12 * rest.len() <= left {
            assert(kept =~= s);
        }
    }
}

/// Files of earlier runs are removed only when they are old, and the older the surer;
/// files of this run never.
pub proof fn only_old_files_are_removed(name: Seq<char>, pid: u32, age: u128, older: u128)
    ensures
        !left_behind(name, pid, None),
        left_behind(name, pid, Some(age)) && age <= older ==> left_behind(name, pid, Some(older)),
        left_behind(name, pid, Some(age)) ==> age > 2 * 24 * 3600 * 1_000_000_000,
        begins(name, run_prefix(pid)) ==> !left_behind(name, pid, Some(age)),
        left_behind(name, pid, Some(age)) ==> begins(name, "photo2video_"@),
{
    if begins(name, run_prefix(pid)) {
        let rest = choose|rest: Seq<char>| name == #[trigger] (run_prefix(pid) + rest);
        assert(name.take(run_prefix(pid).len() as int) =~= run_prefix(pid));
    }
    if left_behind(name, pid, Some(age)) {
        let n = "photo2video_"@.len() as int;
        assert(name =~= "photo2video_"@ + name.skip(n));
    }
}

/// A preview is rendered from the copy of its photo if there is one, without scaling it
/// again, and otherwise or if that fails from the photo itself.
pub proof fn photo_is_the_last_resort(
    copy: Option<Seq<char>>,
    photo: Seq<char>,
    adj: Adjustments,
    px: int,
    w: u32,
    h: u32,
)
    ensures
        ({
            let list = ways(copy, photo, adj, px, w, h);
            &&& list.last().input == photo
            &&& list.last().filter == preview_chain(adj, px, w, h, false)
            &&& copy is None ==> list.len() == 1
            &&& copy matches Some(f) ==> list.len() == 2 && list[0].input == f && list[0].filter
                == preview_chain(adj, px, w, h, true)
        }),
{
}

/// A copy that is used becomes the one that goes last, and the others keep their order; a
/// new one takes the place of the one that has not been used for longest, if there is no
/// room.
pub proof fn copies_go_by_their_use(v: CacheView, i: int, key: KeyView)
    requires
        0 <= i < v.items.len(),
    ensures
        v.used(i).items.last() == v.items[i],
        v.used(i).items.drop_last() == v.items.remove(i),
        v.used(i).next == v.next,
        v.reserved(key).items.last() == (BaseView { key, file: None, serial: v.next }),
        v.items.len() < CAPACITY ==> v.reserved(key).items.drop_last() == v.items,
        v.items.len() >= CAPACITY ==> v.reserved(key).items.drop_last() == v.items.drop_first(),
        v.reserved(key).next != v.next,
        v.next < u64::MAX ==> v.reserved(key).next == v.next + 1,
{
    assert(v.used(i).items.drop_last() =~= v.items.remove(i));
    assert(v.reserved(key).items.drop_last() =~= v.with_room());
    assert(v.items.remove(0) =~= v.items.drop_first());
}

/// What is told of an update becomes its status; that a release is ready changes nothing
/// by itself.
pub proof fn update_status_is_what_was_told(v: UpdaterView, text: Seq<char>, p: Scalar)
    ensures
        v.told(UpdateMsgView::Newer(Some(text))).status == StatusView::Available(text),
        v.told(UpdateMsgView::Newer(None)).status is UpToDate,
        v.told(UpdateMsgView::CheckFailed(text)).status == StatusView::Failed(text),
        v.told(UpdateMsgView::CheckFailed(text)).download_error == v.download_error,
        v.told(UpdateMsgView::Progress(p)).status == StatusView::Downloading(p),
        v.told(UpdateMsgView::Failed(text)).status == StatusView::Failed(text),
        v.told(UpdateMsgView::Failed(text)).download_error == Some(text),
        v.told(UpdateMsgView::Ready) == v,
        v.told(UpdateMsgView::Newer(Some(text))).dismissed == v.dismissed,
{
}

/// A check or a download begins only when nothing is in its way: no check during another
/// one, during a download or before a restart, and no download during another one.
pub proof fn updates_do_not_overlap(v: UpdaterView)
    ensures
        v.status is Checking || v.status is Downloading || v.status is ReadyToRestart
            ==> v.checking() == v,
        v.status is Idle || v.status is UpToDate || v.status is Available || v.status is Failed
            ==> v.checking().status is Checking && v.checking().listening
            && v.checking().download_error is None,
        v.status is Downloading ==> v.fetching() == v,
        !(v.status is Downloading) ==> v.fetching().status == StatusView::Downloading(zero())
            && v.fetching().listening && v.fetching().download_error is None,
        v.checking().dismissed == v.dismissed && v.fetching().dismissed == v.dismissed,
{
}

/// A newer release is told of exactly if there is one and the user has not put the notice
/// away.
pub proof fn newer_release_is_told_of(v: UpdaterView, tag: Seq<char>)
    ensures
        v.status == StatusView::Available(tag) && !v.dismissed ==> v.notice() == Some(tag),
        v.dismissed ==> v.notice() is None,
        !(v.status is Available) ==> v.notice() is None,
{
}

/// After reports came, the last one that tells anything counts. Once one has ended the
/// work, or no more can come, no more is listened to; and a release that is ready while a
/// conversion runs waits for the restart.
pub proof fn reports_are_heard_in_order(
    v: UpdaterView,
    msgs: Seq<UpdateMsgView>,
    m: UpdateMsgView,
    lost: bool,
    working: bool,
)
    ensures
        v.all_told(msgs.push(m)) == v.all_told(msgs).told(m),
        v.all_told(Seq::empty()) == v,
        v.polled(Seq::empty(), false, working) == v,
        lost ==> !v.polled(msgs, lost, working).listening,
        !(m is Progress) ==> !v.polled(msgs.push(m), lost, working).listening,
        m is Ready && working ==> v.polled(msgs.push(m), lost, working).status is ReadyToRestart,
        m is Newer ==> v.polled(seq![m], lost, working).status == v.told(m).status,
        m is Failed ==> v.polled(seq![m], lost, working).status == v.told(m).status,
        m is Progress && !lost ==> v.polled(seq![m], lost, working).status == v.told(m).status,
{
    let all = msgs.push(m);
    assert(all.drop_last() =~= msgs);
    assert(all[all.len() - 1] == m);
    let one = seq![m];
    assert(one.drop_last() =~= Seq::<UpdateMsgView>::empty());
    assert(v.all_told(one.drop_last()) == v);
    assert(one[0] == m);
}

/// Whether a character may stand in a link as it is: a letter or digit of ASCII, or one of
/// four marks.
pub open spec fn is_plain(c: char) -> bool {
    ||| 'A' <= c <= 'Z'
    ||| 'a' <= c <= 'z'
    ||| '0' <= c <= '9'
    ||| c == '-' || c == '_' || c == '.' || c == '~'
}

/// In a link letters, digits and four marks stand as they are, and every other byte is
/// written as a percent sign and two digits; nothing else is in it.
pub proof fn links_hold_plain_characters_only(b: Seq<u8>)
    ensures
        forall|i: int|
            0 <= i < url_bytes(b).len() ==> is_plain(#[trigger] url_bytes(b)[i]) || url_bytes(b)[i]
                == '%',
        b.len() == 1 && is_plain(b[0] as char) && b[0] < 128 ==> url_bytes(b) == seq![b[0] as char],
        b.len() == 1 && !(is_plain(b[0] as char) && b[0] < 128) ==> url_bytes(b).len() == 3
            && url_bytes(b)[0] == '%',
    decreases b.len(),
{
    if b.len() > 0 {
        let head = b.drop_last();
        links_hold_plain_characters_only(head);
        let n = b.last();
        let front = url_bytes(head);
        let last = url_byte(n);
        lemma_hex(n / 16);
        lemma_hex(n % 16);
        assert((n as char) as int == n);
        assert forall|i: int| 0 <= i < url_bytes(b).len() implies is_plain(
            #[trigger] url_bytes(b)[i],
        ) || url_bytes(b)[i] == '%' by {
            if i < front.len() {
                assert(url_bytes(b)[i] == front[i]);
            } else {
                assert(url_bytes(b)[i] == last[i - front.len()]);
            }
        }
        if b.len() == 1 {
            assert(front =~= seq![]);
            assert(url_bytes(b) =~= last);
        }
    }
}

proof fn lemma_hex(n: u8)
    requires
        n < 16,
    ensures
        is_plain(crate::report::hex_digit(n)),
{
    if n < 10 {
        assert((48 + n) as char as int == 48 + n);
    } else {
        assert((55 + n) as char as int == 55 + n);
    }
}

/// A conversion begins with the first photo that is to be adjusted, or with the list if
/// there is none, unless it was called off; an encoder that was found is used.
pub proof fn conversion_begins_with_the_first_photo(
    r: &mut Run,
    encoder: H264Encoder,
    first: Action,
)
    requires
        call_ensures(Run::begin, (r, false), first),
    ensures
        old(r).to_adjust@.len() > 0 ==> first@ == ActionView::Adjust(
            0,
            old(r).to_adjust@[0] as int,
        ) && final(r).stage == Stage::Adjust(0),
        old(r).to_adjust@.len() == 0 ==> first@ == ActionView::WriteList && final(r).stage
            == Stage::List,
        final(r).to_adjust@ == old(r).to_adjust@ && final(r).captions == old(r).captions && final(
            r).format == old(r).format,
{
}

/// The encoder that was found is the one that encodes.
pub proof fn found_encoder_encodes(r: &mut Run, encoder: H264Encoder, next: Action)
    requires
        call_ensures(Run::found, (r, encoder, false), next),
    ensures
        next@ == ActionView::Encode(encoder),
        final(r).stage == Stage::Encode(encoder),
{
}

/// A copy that was stored under its number is found by its key, and one that was stored
/// under another number is not taken.
pub proof fn stored_copy_is_found(
    c: &mut BaseCache,
    key: &BaseKey,
    serial: u64,
    file: &str,
    stored: bool,
    k: int,
)
    requires
        old(c)@.wf(),
        call_ensures(BaseCache::store, (c, key, serial, file), stored),
        0 <= k < old(c)@.items.len(),
    ensures
        stored <==> exists|i: int|
            0 <= i < old(c)@.items.len() && (#[trigger] old(c)@.items[i]).key == key@
                && old(c)@.items[i].serial == serial,
        old(c)@.items[k].key == key@ && old(c)@.items[k].serial == serial ==> final(c)@.items[k]
            == (BaseView { file: Some(file@), ..old(c)@.items[k] }),
        old(c)@.items[k].key != key@ ==> final(c)@.items[k] == old(c)@.items[k],
        final(c)@.items.len() == old(c)@.items.len(),
        final(c)@.next == old(c)@.next,
{
    lemma_place_of_serial(old(c)@.items, key@, serial, 0);
}

proof fn lemma_place_of_serial(items: Seq<BaseView>, key: KeyView, serial: u64, i: int)
    requires
        0 <= i <= items.len(),
    ensures
        match crate::base_cache::place_of_serial(items, key, serial, i) {
            Some(k) => i <= k < items.len() && items[k].key == key && items[k].serial == serial,
            None => forall|k: int|
                i <= k < items.len() ==> !((#[trigger] items[k]).key == key && items[k].serial
                    == serial),
        },
    decreases items.len() - i,
{
    if i < items.len() && !(items[i].key == key && items[i].serial == serial) {
        lemma_place_of_serial(items, key, serial, i + 1);
    }
}

/// A copy is looked up by its key: its file if it is made, that it is being made, or that
/// there is none.
pub proof fn copy_is_looked_up(c: &mut BaseCache, key: &BaseKey, role: BaseRole, k: int)
    requires
        old(c)@.wf(),
        0 <= k < old(c)@.items.len(),
        old(c)@.items[k].key == key@,
        call_ensures(BaseCache::lookup, (c, key), role),
    ensures
        old(c)@.items[k].file matches Some(f) ==> (role matches BaseRole::Cached(g) && g@ == f),
        old(c)@.items[k].file is None ==> role is Pending,
        final(c)@.items.last() == old(c)@.items[k],
        final(c)@.items.len() == old(c)@.items.len(),
{
    lemma_place_of(old(c)@.items, key@, 0);
    let i = crate::base_cache::place_of(old(c)@.items, key@, 0)->0;
    if i < k {
        assert(old(c)@.items[i].key != old(c)@.items[k].key);
    } else if k < i {
        assert(old(c)@.items[k].key != old(c)@.items[i].key);
    }
}

pub(crate) proof fn lemma_place_of(items: Seq<BaseView>, key: KeyView, i: int)
    requires
        0 <= i <= items.len(),
    ensures
        match crate::base_cache::place_of(items, key, i) {
            Some(k) => i <= k < items.len() && items[k].key == key,
            None => forall|k: int| i <= k < items.len() ==> (#[trigger] items[k]).key != key,
        },
    decreases items.len() - i,
{
    if i < items.len() && items[i].key != key {
        lemma_place_of(items, key, i + 1);
    }
}

/// What is asked for is being loaded and stands at the front of the queue, which keeps
/// what it held.
pub proof fn asked_thumbnails_stand_in_front(
    v: ThumbsView,
    photos: Seq<Seq<char>>,
    first: int,
    last: int,
    p: Seq<char>,
)
    ensures
        ({
            let list = wanted(photos, v.thumbs, first, last);
            let w = v.requested(photos, first, last);
            list.len() + v.jobs.len() <= LONG_QUEUE ==> {
                &&& w.jobs == list + v.jobs
                &&& list.contains(p) ==> w.thumbs.contains_key(p) && w.thumbs[p] == Thumb::Loading
                &&& !list.contains(p) ==> w.thumbs.contains_key(p) == v.thumbs.contains_key(p)
                &&& !list.contains(p) && v.thumbs.contains_key(p) ==> w.thumbs[p] == v.thumbs[p]
            }
        }),
{
    let list = wanted(photos, v.thumbs, first, last);
    lemma_marked(v.thumbs, list, p);
    if list.len() == 0 {
        assert(list + v.jobs =~= v.jobs);
    }
}

proof fn lemma_marked(thumbs: Map<Seq<char>, Thumb>, list: Seq<Seq<char>>, p: Seq<char>)
    ensures
        list.contains(p) ==> marked(thumbs, list).contains_key(p) && marked(thumbs, list)[p]
            == Thumb::Loading,
        !list.contains(p) ==> marked(thumbs, list).contains_key(p) == thumbs.contains_key(p),
        !list.contains(p) && thumbs.contains_key(p) ==> marked(thumbs, list)[p] == thumbs[p],
    decreases list.len(),
{
    if list.len() > 0 {
        let head = list.drop_last();
        lemma_marked(thumbs, head, p);
        if list.contains(p) && p != list.last() {
            let i = choose|i: int| 0 <= i < list.len() && list[i] == p;
            assert(head[i] == p);
        }
        if head.contains(p) {
            let i = choose|i: int| 0 <= i < head.len() && head[i] == p;
            assert(list[i] == p);
        }
        if !list.contains(p) {
            assert(list[list.len() - 1] != p);
        }
    }
}

/// An update that cannot be installed says why; what is no program is thrown away and
/// never installed.
pub proof fn failed_update_says_why(v: InstallView, e: Seq<char>, head: Seq<u8>)
    ensures
        v.stage is SetAside || v.stage is PutInPlace ==> (v.following(Some(e)).error matches Some(t)
            && has_part(t, e)),
        v.looked_at(FoundView::Unreadable(e)).error matches Some(t) && has_part(t, e),
        v.looked_at(FoundView::Unreadable(e)).stage is Over,
        head.len() >= 2 && head[0] == 'M' as u8 && head[1] == 'Z' as u8 ==> v.looked_at(
            FoundView::Head(head),
        ).stage is SetAside,
        head.len() < 2 || head[0] != 'M' as u8 || head[1] != 'Z' as u8 ==> v.looked_at(
            FoundView::Head(head),
        ).stage is Over && v.looked_at(FoundView::Head(head)).discard && v.looked_at(
            FoundView::Head(head),
        ).error is Some,
        v.stage is SetAside ==> v.following(None).stage is PutInPlace,
        v.stage is PutInPlace ==> v.following(None).stage is Over && v.following(None).error
            == v.error,
        v.stage is PutInPlace ==> v.following(Some(e)).stage is Restore,
        v.stage is SetAside ==> v.following(Some(e)).stage is Over,
{
    let none = Seq::<char>::empty();
    assert("無法替換舊版程式："@ + e =~= "無法替換舊版程式："@ + e + none);
    assert("無法安裝新版程式："@ + e =~= "無法安裝新版程式："@ + e + none);
    assert("暫存檔讀取失敗："@ + e =~= "暫存檔讀取失敗："@ + e + none);
}

/// Progress alone keeps an update going: it is listened to as long as it was, unless no
/// more can come.
pub proof fn progress_keeps_an_update_going(v: UpdaterView, p: Scalar, working: bool)
    ensures
        v.polled(seq![UpdateMsgView::Progress(p)], false, working).listening == v.listening,
        v.polled(seq![UpdateMsgView::Progress(p)], false, working).status
            == StatusView::Downloading(p),
        v.polled(seq![UpdateMsgView::Progress(p)], true, working).status is Failed,
{
    let one = seq![UpdateMsgView::Progress(p)];
    assert(one.drop_last() =~= Seq::<UpdateMsgView>::empty());
    assert(v.all_told(one.drop_last()) == v);
    assert(!crate::update::any_ends(one));
    assert(!crate::update::any_ready(one));
}

/// Of a text that is too long as much is kept as fits: the next character would not.
pub proof fn as_much_is_kept_as_fits(s: Seq<char>, budget: nat)
    ensures
        ({
            let kept = kept_within(s, budget as int);
            kept.len() < s.len() ==> 3 * (vstd::utf8::encode_utf8(kept).len()
                + crate::report::utf8_len(s[kept.len() as int])) > budget
        }),
    decreases s.len(),
{
    let kept = kept_within(s, budget as int);
    if s.len() > 0 && 3 * crate::report::utf8_len(s[0]) <= budget {
        let rest = s.drop_first();
        let left = (budget - 3 * crate::report::utf8_len(s[0])) as nat;
        as_much_is_kept_as_fits(rest, left);
        assert(kept.drop_first() =~= kept_within(rest, left as int));
    }
}

} // verus!
