//! What answers to questions and events promise.

use crate::base_cache::{BaseCache, BaseKey};
use crate::command::{adjusting_status, encoding_status, preview_error};
use crate::conversion::{Conversion, ConvertState, LostWorker};
use crate::dehaze::SmokeParams;
use crate::editor::{Editor, RenderJob, Thumb};
use crate::files::{format_by_name, stem_of};
use crate::fonts::detect_fonts;
use crate::options::{H264Encoder, OutputFormat, Resolution, Transition};
use crate::project::{offered_project_name, offered_video_name};
use crate::release::{check_latest_release, Answer, ReleaseError};
use crate::text::{dec, has_part, joining_keeps_each_text, texts};
use crate::thumbs::on_thumb;
use crate::update::{UpdateMsg, Updater};
use crate::work_laws::lemma_place_of;
use vstd::hash_map::StringHashMap;
use vstd::prelude::*;

verus! {

/// A thumbnail that comes is taken only if it was asked for; then it is finished or has
/// failed. The others stay as they are.
pub proof fn asked_thumbnails_are_taken(
    thumbs: &mut StringHashMap<Thumb>,
    photo: &str,
    made: bool,
    taken: bool,
    p: Seq<char>,
)
    requires
        call_ensures(on_thumb, (thumbs, photo, made), taken),
    ensures
        taken <==> made && old(thumbs)@.contains_key(photo@) && old(thumbs)@[photo@]
            == Thumb::Loading,
        taken ==> final(thumbs)@.contains_key(photo@) && final(thumbs)@[photo@] == Thumb::Ready,
        !made && old(thumbs)@.contains_key(photo@) && old(thumbs)@[photo@] == Thumb::Loading
            ==> final(thumbs)@.contains_key(photo@) && final(thumbs)@[photo@] == Thumb::Failed,
        !(old(thumbs)@.contains_key(photo@) && old(thumbs)@[photo@] == Thumb::Loading) ==> final(
            thumbs)@ == old(thumbs)@,
        p != photo@ ==> final(thumbs)@.contains_key(p) == old(thumbs)@.contains_key(p),
        p != photo@ && old(thumbs)@.contains_key(p) ==> final(thumbs)@[p] == old(thumbs)@[p],
{
}

/// What is rendered is the photo in the preview, as it is to look; meanwhile nothing else
/// is rendered.
pub proof fn shown_photo_is_rendered(ed: &mut Editor, r: Option<RenderJob>, i: usize)
    requires
        old(ed)@.wf(),
        old(ed).preview.selected == Some(i),
        call_ensures(Editor::next_render, (ed,), r),
    ensures
        r is Some <==> old(ed).preview.dirty && !old(ed).preview.rendering,
        r matches Some(job) ==> {
            &&& job.photo@ == old(ed).photos@[i as int]@
            &&& job.adj == old(ed)@.looks.effective(job.photo@)
            &&& final(ed).preview.rendering && !final(ed).preview.dirty
        },
        final(ed).preview.selected == Some(i),
        texts(final(ed).photos@) == texts(old(ed).photos@),
{
    assert(old(ed)@.preview.selected == Some(i as int));
    assert(texts(old(ed).photos@)[i as int] == old(ed).photos@[i as int]@);
}

/// A picture that comes is shown only if it is of the photo in the preview and there was
/// no error.
pub proof fn only_the_shown_photo_counts(
    ed: &mut Editor,
    photo: &str,
    error: Option<String>,
    shown: bool,
)
    requires
        call_ensures(Editor::on_rendered, (ed, photo, error), shown),
    ensures
        shown <==> old(ed)@.shown_photo() == Some(photo@) && error is None,
        shown ==> final(ed).preview.ready,
        old(ed)@.shown_photo() != Some(photo@) ==> final(ed).preview.ready == old(ed).preview.ready
            && final(ed)@.preview.error == old(ed)@.preview.error,
        !final(ed).preview.rendering,
        final(ed).preview.dirty == old(ed).preview.dirty,
        old(ed)@.shown_photo() == Some(photo@) ==> (error matches Some(e) ==> (
        final(ed).preview.error matches Some(f) && f@ == e@)),
{
    assert(final(ed)@.preview.error == crate::text::text_view(final(ed).preview.error));
}

/// The size of the video is found once and kept, unless one was chosen.
pub proof fn size_is_found_once(ed: &mut Editor, r: Resolution)
    requires
        call_ensures(Editor::resolved_resolution, (ed,), r),
    ensures
        old(ed).settings.resolution.w != 0 ==> r == old(ed).settings.resolution && final(ed)@
            == old(ed)@,
        old(ed).settings.resolution.w == 0 ==> final(ed).sizes.native == Some(r),
        old(ed).settings.resolution.w == 0 ==> (old(ed).sizes.native matches Some(n) ==> r == n),
        final(ed)@.output_size() == r,
        final(ed)@.settings == old(ed)@.settings,
{
}

/// A conversion can start, and a project be saved, if there are photos and no conversion
/// is running.
pub proof fn idle_editor_with_photos_can_work(ed: &Editor, a: bool, b: bool)
    requires
        call_ensures(Editor::can_convert, (ed,), a),
        call_ensures(Editor::can_save, (ed,), b),
    ensures
        a <==> ed.photos@.len() > 0 && !(ed.job.state is Working),
        b <==> a,
{
    assert(ed@.job.state == ed.job.state@);
}

/// That there is no release yet is no error; any other refusal is one.
pub proof fn missing_release_is_no_error(
    status: u16,
    m: String,
    current: &str,
    r: Result<Option<String>, ReleaseError>,
)
    requires
        call_ensures(check_latest_release, (&Answer::Refused(status, m), current), r),
    ensures
        status == 404 ==> (r matches Ok(newer) && newer is None),
        status != 404 ==> (r matches Err(ReleaseError::Connection(e)) && e@ == m@),
{
}

/// A conversion that is lost is stopped and its unfinished video removed; one that had
/// ended leaves its video.
pub proof fn lost_conversion_leaves_no_video(c: &mut Conversion, r: LostWorker)
    requires
        call_ensures(Conversion::on_lost, (c,), r),
    ensures
        r.stop <==> old(c).state is Working,
        old(c).state is Working ==> final(c).state is Error,
        old(c).state is Working ==> (old(c).output matches Some(o) ==> (r.remove matches Some(p)
            && p@ == o@)),
        !(old(c).state is Working) ==> r.remove is None && final(c)@ == old(c)@,
{
    assert(old(c)@.state == old(c).state@);
    assert(final(c)@.state == final(c).state@);
    assert(crate::text::text_view(r.remove) == if old(c)@.working() {
        old(c)@.output
    } else {
        None
    });
}

/// A conversion is called off only while it runs, and keeps its progress.
pub proof fn running_conversion_is_called_off(c: &mut Conversion, r: bool)
    requires
        call_ensures(Conversion::cancel, (c,), r),
    ensures
        r <==> old(c).state is Working,
        old(c).state matches ConvertState::Working { progress, .. } ==> (
        final(c).state matches ConvertState::Working { progress: q, .. } && q == progress),
        !r ==> final(c)@ == old(c)@,
{
    assert(old(c)@.state == old(c).state@);
    assert(final(c)@.state == final(c).state@);
}

/// A copy that is discarded is no longer in the cache, and its file is told.
pub proof fn discarded_copy_is_gone(c: &mut BaseCache, key: &BaseKey, r: Option<String>, k: int)
    requires
        old(c)@.wf(),
        0 <= k < old(c)@.items.len(),
        call_ensures(BaseCache::discard, (c, key), r),
    ensures
        old(c)@.items[k].key == key@ ==> crate::text::text_view(r) == old(c)@.items[k].file && final(
            c)@.items == old(c)@.items.remove(k),
        (forall|i: int| 0 <= i < old(c)@.items.len() ==> (#[trigger] old(c)@.items[i]).key != key@)
            ==> r is None && final(c)@ == old(c)@,
{
    lemma_place_of(old(c)@.items, key@, 0);
    match crate::base_cache::place_of(old(c)@.items, key@, 0) {
        Some(i) => {
            if i < k {
                assert(old(c)@.items[i].key != old(c)@.items[k].key);
            } else if k < i {
                assert(old(c)@.items[k].key != old(c)@.items[i].key);
            }
        },
        None => {},
    }
}

/// A colour is protected once, in the first free place; without one it is not.
pub proof fn colour_is_protected_once(p: &mut SmokeParams, c: [u8; 3], r: bool, k: int)
    requires
        0 <= k < old(p).protect@.len(),
        call_ensures(SmokeParams::add_protect, (p, c), r),
    ensures
        (old(p).protect@[k] matches Some(x) && x@ == c@) ==> !r,
        !r ==> *final(p) == *old(p),
        r && old(p).protect@[k] is None && (forall|j: int|
            0 <= j < k ==> #[trigger] old(p).protect@[j] is Some) ==> final(p).protect@[k] == Some(
            c,
        ),
        r && old(p).protect@[k] is Some ==> final(p).protect@[k] == old(p).protect@[k],
{
    crate::picture_laws::first_free_place_is_taken(old(p).protect@, 0, k);
    lemma_free(old(p).protect@, 0);
}

proof fn lemma_free(slots: Seq<Option<[u8; 3]>>, i: int)
    requires
        0 <= i <= slots.len(),
    ensures
        crate::dehaze::free_slot(slots, i) matches Some(k) ==> i <= k < slots.len() && slots[k]
            is None,
    decreases slots.len() - i,
{
    if i < slots.len() && slots[i] is Some {
        lemma_free(slots, i + 1);
    }
}

/// The name that is offered for a video is that of its project and of its format.
pub proof fn offered_name_is_of_the_format(
    project: &str,
    format: OutputFormat,
    r: String,
    again: &str,
    found: OutputFormat,
)
    requires
        stem_of(project@).len() > 0,
        call_ensures(offered_video_name, (Some(project), format), r),
        again@ == r@,
        call_ensures(format_by_name, (again,), found),
    ensures
        found == format,
        stem_of(r@) == stem_of(project@),
{
    assert("."@ =~= seq!['.']) by {
        reveal_strlit(".");
    }
    crate::file_laws::formats_have_plain_extensions(format);
    crate::file_laws::extension_follows_the_last_dot(stem_of(project@), format.ext_spec());
    crate::file_laws::format_goes_by_the_extension(
        stem_of(project@),
        format.ext_spec(),
        format,
    );
}

/// A project keeps the name that it has.
pub proof fn project_keeps_its_name(project: &str, r: String)
    requires
        call_ensures(offered_project_name, (Some(project),), r),
    ensures
        r@ == project@,
{
}

/// The status of a conversion names its encoder, and how far the adjusting has come.
pub proof fn status_names_encoder_and_photo(
    format: OutputFormat,
    encoder: H264Encoder,
    k: usize,
    n: usize,
    a: String,
    b: String,
)
    requires
        k < usize::MAX,
        call_ensures(encoding_status, (format, encoder), a),
        call_ensures(adjusting_status, (k, n), b),
    ensures
        format == OutputFormat::Webm ==> has_part(a@, "VP9"@),
        format != OutputFormat::Webm ==> has_part(a@, encoder.display_name_spec()),
        has_part(b@, dec((k + 1) as nat) + "/"@ + dec(n as nat)),
{
    let x = dec((k + 1) as nat) + "/"@ + dec(n as nat);
    assert(b@ =~= "套用照片調色…（"@ + x + "）"@);
}

/// What a preview logged is told, line by line.
pub proof fn preview_error_tells_the_log(log: &Vec<String>, r: String, i: int)
    requires
        0 <= i < log@.len(),
        call_ensures(preview_error, (log,), r),
    ensures
        has_part(r@, log@[i]@),
{
    joining_keeps_each_text(texts(log@), "\n"@, i);
}

/// The encoders that are tried are known to ffmpeg by the names that their commands use.
pub proof fn tried_encoders_are_those_of_the_command(
    r: [(&'static str, H264Encoder); 3],
    i: int,
)
    requires
        call_ensures(H264Encoder::candidates, (), r),
        0 <= i < 3,
    ensures
        r@[i].0@ == r@[i].1.codec_args_spec()[1],
        r@[i].1 != H264Encoder::Software,
        r@[0].1 == H264Encoder::Nvenc && r@[1].1 == H264Encoder::Qsv && r@[2].1 == H264Encoder::Amf,
{
    assert(r[0] == r@[0] && r[1] == r@[1] && r[2] == r@[2]);
}

/// The menus offer every format, every transition and every size of the menu.
pub proof fn menus_offer_everything(
    f: OutputFormat,
    t: Transition,
    formats: [OutputFormat; 5],
    transitions: [Transition; 2],
    sizes: [Resolution; 5],
    i: int,
)
    requires
        call_ensures(OutputFormat::all, (), formats),
        call_ensures(Transition::all, (), transitions),
        call_ensures(Resolution::all, (), sizes),
        0 <= i < 5,
    ensures
        formats@.contains(f),
        transitions@.contains(t),
        crate::options::menu_resolutions().contains(sizes@[i]),
        Resolution::from_menu_spec(sizes@[i].w, sizes@[i].h) == sizes@[i],
{
    assert(formats@[0] == OutputFormat::Mp4 && formats@[1] == OutputFormat::Mkv && formats@[2]
        == OutputFormat::Mov && formats@[3] == OutputFormat::Avi && formats@[4]
        == OutputFormat::Webm);
    assert(transitions@[0] == Transition::Cut && transitions@[1] == Transition::FadeBlack);
    assert(crate::options::menu_resolutions()[i] == sizes@[i]);
}

proof fn lemma_same_places(
    a: Seq<Seq<char>>,
    b: Seq<Seq<char>>,
    there: Seq<bool>,
    n: int,
    i: int,
)
    requires
        0 <= n <= there.len(),
        a.len() == there.len(),
        b.len() == there.len(),
        0 <= i < crate::fonts::names_there(a, there, n).len(),
    ensures
        crate::fonts::names_there(a, there, n).len() == crate::fonts::names_there(
            b,
            there,
            n,
        ).len(),
        exists|k: int|
            0 <= k < n && there[k] && #[trigger] a[k] == crate::fonts::names_there(a, there, n)[i]
                && b[k] == crate::fonts::names_there(b, there, n)[i],
    decreases n,
{
    lemma_same_count(a, b, there, n);
    if n > 0 {
        lemma_same_count(a, b, there, n - 1);
        let x = crate::fonts::names_there(a, there, n - 1);
        if i < x.len() {
            lemma_same_places(a, b, there, n - 1, i);
        } else {
            assert(a[n - 1] == crate::fonts::names_there(a, there, n)[i]);
        }
    }
}

proof fn lemma_same_count(a: Seq<Seq<char>>, b: Seq<Seq<char>>, there: Seq<bool>, n: int)
    ensures
        crate::fonts::names_there(a, there, n).len() == crate::fonts::names_there(
            b,
            there,
            n,
        ).len(),
    decreases n,
{
    if n > 0 {
        lemma_same_count(a, b, there, n - 1);
    }
}

/// Each font that is offered stands at the same place as its file, and both are those of
/// one font that is there.
pub proof fn fonts_stand_beside_their_files(
    candidates: &[(&'static str, &'static str)],
    there: &Vec<bool>,
    r: (Vec<String>, Vec<String>),
    i: int,
)
    requires
        there@.len() == candidates@.len(),
        call_ensures(detect_fonts, (candidates, there), r),
        0 <= i < r.0@.len(),
    ensures
        r.1@.len() == r.0@.len(),
        exists|k: int|
            0 <= k < there@.len() && there@[k] && (#[trigger] candidates@[k]).0@ == r.0@[i]@
                && candidates@[k].1@ == r.1@[i]@,
{
    let a = crate::fonts::column(candidates@, false);
    let b = crate::fonts::column(candidates@, true);
    let n = there@.len() as int;
    assert(texts(r.0@).len() == r.0@.len() && texts(r.1@).len() == r.1@.len());
    lemma_same_places(a, b, there@, n, i);
    let x = crate::fonts::names_there(a, there@, n);
    let y = crate::fonts::names_there(b, there@, n);
    assert(x[i] == r.0@[i]@ && y[i] == r.1@[i]@);
    let k = choose|k: int| 0 <= k < n && there@[k] && #[trigger] a[k] == x[i] && b[k] == y[i];
    assert(a[k] == candidates@[k].0@ && b[k] == candidates@[k].1@);
}

/// A release that is ready is started at once unless a conversion runs.
pub proof fn ready_release_waits_for_the_conversion(
    u: &mut Updater,
    msgs: &Vec<UpdateMsg>,
    lost: bool,
    working: bool,
    restart: bool,
)
    requires
        call_ensures(Updater::poll, (u, msgs, lost, working), restart),
    ensures
        restart <==> !working && (exists|k: int|
            0 <= k < msgs@.len() && #[trigger] msgs@[k] is Ready),
        lost ==> !final(u).listening,
        final(u).dismissed == old(u).dismissed,
{
    let v = crate::update::msg_views(msgs@);
    assert(forall|k: int|
        0 <= k < msgs@.len() ==> (v[k] is Ready <==> #[trigger] msgs@[k] is Ready));
    if exists|k: int| 0 <= k < msgs@.len() && #[trigger] msgs@[k] is Ready {
        let k = choose|k: int| 0 <= k < msgs@.len() && #[trigger] msgs@[k] is Ready;
        assert(v[k] is Ready);
    }
    if crate::update::any_ready(v) {
        let k = choose|k: int| 0 <= k < v.len() && #[trigger] v[k] is Ready;
        assert(msgs@[k] is Ready);
    }
    lemma_dismissed(old(u)@, v);
}

proof fn lemma_dismissed(v: crate::update::UpdaterView, msgs: Seq<crate::update::UpdateMsgView>)
    ensures
        v.all_told(msgs).dismissed == v.dismissed,
    decreases msgs.len(),
{
    if msgs.len() > 0 {
        lemma_dismissed(v, msgs.drop_last());
    }
}

} // verus!
