//! What the functions of the library promise of what they are given and give back.

use crate::adjust::{in_range, neutral, Adjustments};
use crate::adjust_laws::{each_adjustment_has_its_filter, only_neutral_adjustments_have_no_chain};
use crate::caption::{EntryView, SubtitleEntry};
use crate::command::{encoder_test_args, still_args, CommandParts};
use crate::command_laws::{
    command_says_what_is_asked_for, given, music_encoder_goes_by_the_container,
};
use crate::editor::Editor;
use crate::files::{format_by_name, output_name};
use crate::file_laws::video_is_named_for_its_format;
use crate::graph::{
    audio_filter, music, pad, picture_filter, preview_filter, scale, single_photo_filter, Motion,
    VideoFilter,
};
use crate::graph_laws::{
    adjusting_beforehand_changes_nothing, adjustments_stand_between_scaling_and_bars, at_rest,
    begins, preview_shows_what_the_video_shows,
};
use crate::job::{text_job, text_jobs, texts_to_draw, TextJob};
use crate::options::{H264Encoder, OutputFormat, Resolution, Transition};
use crate::project::{FileFact, ProjectFile};
use crate::text::{dec, has_part, is_blank, joining_keeps_each_text, texts, trimmed_end};
use crate::timing::Duration;
use vstd::prelude::*;

verus! {

proof fn lemma_in_chain(a: Adjustments, px: int, filter: Seq<char>)
    requires
        a != neutral(),
        a.filters(px).contains(filter),
    ensures
        a.chain(px) matches Some(c) && has_part(c, filter),
{
    let f = a.filters(px);
    let i = choose|i: int| 0 <= i < f.len() && f[i] == filter;
    joining_keeps_each_text(f, ","@, i);
}

/// Adjustments become a chain of filters that holds one for each of the eleven that is
/// not zero; only neutral ones become none.
pub proof fn filter_chain_carries_out_each_adjustment(a: &Adjustments, px: i32, r: Option<String>)
    requires
        call_ensures(Adjustments::filter_chain, (a, px), r),
    ensures
        r is None <==> a.temp == 0 && a.tint == 0 && a.exposure == 0 && a.contrast == 0
            && a.brightness == 0 && a.shadows == 0 && a.whites == 0 && a.blacks == 0 && a.clarity
            == 0 && a.vibrance == 0 && a.saturation == 0,
        r matches Some(c) ==> {
            &&& c@.len() > 0
            &&& a.temp != 0 ==> has_part(c@, a.temp_filter())
            &&& a.tint != 0 ==> has_part(c@, a.tint_filter())
            &&& a.exposure != 0 ==> has_part(c@, a.exposure_filter())
            &&& a.contrast != 0 || a.brightness != 0 || a.saturation != 0 ==> has_part(
                c@,
                a.eq_filter(),
            )
            &&& a.shadows != 0 ==> has_part(c@, a.curves_filter())
            &&& a.whites != 0 ==> has_part(c@, a.curves_filter())
            &&& a.blacks != 0 ==> has_part(c@, a.curves_filter())
            &&& a.vibrance != 0 ==> has_part(c@, a.vibrance_filter())
            &&& a.clarity != 0 ==> has_part(c@, a.clarity_filter(px as int))
        },
{
    let p = px as int;
    only_neutral_adjustments_have_no_chain(*a, p);
    each_adjustment_has_its_filter(*a, p);
    if a.temp != 0 {
        lemma_in_chain(*a, p, a.temp_filter());
    }
    if a.tint != 0 {
        lemma_in_chain(*a, p, a.tint_filter());
    }
    if a.exposure != 0 {
        lemma_in_chain(*a, p, a.exposure_filter());
    }
    if a.contrast != 0 || a.brightness != 0 || a.saturation != 0 {
        lemma_in_chain(*a, p, a.eq_filter());
    }
    if a.shadows != 0 || a.whites != 0 || a.blacks != 0 {
        lemma_in_chain(*a, p, a.curves_filter());
    }
    if a.vibrance != 0 {
        lemma_in_chain(*a, p, a.vibrance_filter());
    }
    if a.clarity != 0 {
        lemma_in_chain(*a, p, a.clarity_filter(p));
    }
}

/// The filters of the pictures hold what the adjustments become, between scaling and
/// black bars; neutral adjustments leave the scaling and the bars.
pub proof fn picture_filters_hold_the_adjustments(
    a: Adjustments,
    res: Resolution,
    motion: Motion,
    fps: u32,
    chain: Option<String>,
    r: String,
)
    requires
        call_ensures(Adjustments::filter_chain, (&a, 13i32), chain),
        call_ensures(picture_filter, (Some(a), res, motion, fps), r),
    ensures
        a != neutral() ==> (chain matches Some(c) && begins(
            r@,
            scale(res.w, res.h) + seq![','] + c@ + seq![','] + pad(res.w, res.h),
        )),
        a == neutral() ==> begins(r@, scale(res.w, res.h) + seq![','] + pad(res.w, res.h)),
{
    adjustments_stand_between_scaling_and_bars(a, res, motion, fps);
    only_neutral_adjustments_have_no_chain(a, 13);
}

/// What the preview shows of a photo at the size of the video, and what a photo that is
/// adjusted beforehand looks like with its black bars, is what the video shows of it.
pub proof fn preview_copies_and_video_agree(
    a: &Adjustments,
    res: Resolution,
    fps: u32,
    video: String,
    shown: String,
    single: String,
)
    requires
        call_ensures(picture_filter, (Some(*a), res, at_rest(), fps), video),
        call_ensures(preview_filter, (a, 13i32, res.w, res.h, false), shown),
        call_ensures(single_photo_filter, (a, res.w, res.h), single),
    ensures
        shown@ == video@,
        single@ + seq![','] + pad(res.w, res.h) == video@,
{
    preview_shows_what_the_video_shows(*a, 13, res, fps);
    adjusting_beforehand_changes_nothing(*a, res, fps);
}

/// The command of a conversion names the encoder of the music by the container alone, and
/// everything else by what is asked for.
pub proof fn command_holds_its_parts(c: &CommandParts, r: Vec<String>)
    requires
        call_ensures(CommandParts::args, (c,), r),
    ensures
        given(texts(r@), "-c:a"@, "libopus"@) <==> c.music is Some && c.format
            == OutputFormat::Webm,
        given(texts(r@), "-c:a"@, "aac"@) <==> c.music is Some && c.format != OutputFormat::Webm,
        r@.len() > 0 && r@.last()@ == c.output@,
        given(texts(r@), "-i"@, c.list@),
        given(texts(r@), "-filter_threads"@, c.threads@),
        c.music matches Some((path, filter)) ==> given(texts(r@), "-i"@, path@) && given(
            texts(r@),
            "-af"@,
            filter@,
        ),
        c.filter matches VideoFilter::Chain(f) ==> given(texts(r@), "-vf"@, f@),
        c.filter matches VideoFilter::Graph(f) ==> given(texts(r@), "-filter_complex"@, f@),
        given(texts(r@), "-r"@, dec(c.out_fps as nat)),
        given(texts(r@), "-t"@, c.secs@),
{
    let v = c@;
    music_encoder_goes_by_the_container(v);
    command_says_what_is_asked_for(v);
    let args = texts(r@);
    assert(args == v.args());
    assert(args[7] == "-i"@ && args[8] == v.list);
    assert(args.len() == r@.len());
    assert(args.last() == r@.last()@);
    match c.music {
        Some((path, filter)) => {
            assert(args[11] == "-i"@ && args[12] == path@);
        },
        None => {},
    }
}

proof fn lemma_jobs(entries: Seq<EntryView>, total: int)
    ensures
        forall|i: int|
            0 <= i < entries.len() && text_job(#[trigger] entries[i], total) is Some ==> text_jobs(
                entries,
                total,
            ).contains(text_job(entries[i], total)->0),
        forall|j: int|
            0 <= j < text_jobs(entries, total).len() ==> exists|i: int|
                0 <= i < entries.len() && text_job(#[trigger] entries[i], total) == Some(
                    #[trigger] text_jobs(entries, total)[j],
                ),
    decreases entries.len(),
{
    if entries.len() > 0 {
        let head = entries.drop_last();
        let n = entries.len() - 1;
        lemma_jobs(head, total);
        let before = text_jobs(head, total);
        let all = text_jobs(entries, total);
        assert forall|i: int|
            0 <= i < entries.len() && text_job(#[trigger] entries[i], total)
                is Some implies all.contains(text_job(entries[i], total)->0) by {
            let t = text_job(entries[i], total)->0;
            if i < n {
                assert(head[i] == entries[i]);
                assert(before.contains(t));
                let k = choose|k: int| 0 <= k < before.len() && before[k] == t;
                assert(all[k] == t);
            } else {
                assert(all[all.len() - 1] == t);
            }
        }
        assert forall|j: int| 0 <= j < all.len() implies exists|i: int|
            0 <= i < entries.len() && text_job(#[trigger] entries[i], total) == Some(
                #[trigger] all[j],
            ) by {
            if j < before.len() {
                assert(all[j] == before[j]);
                let i = choose|i: int|
                    0 <= i < head.len() && text_job(#[trigger] head[i], total) == Some(before[j]);
                assert(text_job(entries[i], total) == Some(all[j]));
            } else {
                assert(text_job(entries[n], total) == Some(all[j]));
            }
        }
    }
}

/// Whether a caption of the video is that caption of the editor: its text, place, size
/// and turn, over the photos of the list that it covers.
pub open spec fn is_caption(t: TextJob, e: SubtitleEntry, photos: int) -> bool {
    &&& t.text@ == e.text@ && t.x == e.x && t.y == e.y && t.size == e.size && t.rot == e.rot
    &&& t.s + 1 == e.start || (e.start == 0 && t.s == 0)
    &&& t.e + 1 == e.end || (e.end > photos && t.e + 1 == photos)
}

/// Every caption that covers a photo and has a text is in the video, with its text,
/// place, size and turn, and every caption of the video is one of the editor.
pub proof fn captions_of_the_editor_are_in_the_video(ed: &Editor, r: Vec<TextJob>)
    requires
        call_ensures(Editor::text_jobs, (ed,), r),
    ensures
        forall|i: int|
            0 <= i < ed.captions.entries@.len() && 1 <= (
            #[trigger] ed.captions.entries@[i]).start <= ed.captions.entries@[i].end
                && ed.captions.entries@[i].start <= ed.photos@.len() && !is_blank(
                ed.captions.entries@[i].text@,
            ) ==> exists|j: int|
                0 <= j < r@.len() && is_caption(
                    #[trigger] r@[j],
                    ed.captions.entries@[i],
                    ed.photos@.len() as int,
                ),
        forall|j: int|
            0 <= j < r@.len() ==> exists|i: int|
                0 <= i < ed.captions.entries@.len() && is_caption(
                    #[trigger] r@[j],
                    #[trigger] ed.captions.entries@[i],
                    ed.photos@.len() as int,
                ),
{
    let total = ed.photos@.len() as int;
    let entries = ed@.captions.entries;
    let jobs = text_jobs(entries, total);
    lemma_jobs(entries, total);
    assert(crate::job::text_job_views(r@) == jobs);
    assert forall|i: int|
        0 <= i < ed.captions.entries@.len() && 1 <= (#[trigger] ed.captions.entries@[i]).start
            <= ed.captions.entries@[i].end && ed.captions.entries@[i].start <= ed.photos@.len()
            && !is_blank(ed.captions.entries@[i].text@) implies exists|j: int|
        0 <= j < r@.len() && is_caption(#[trigger] r@[j], ed.captions.entries@[i], total) by {
        assert(entries[i] == ed.captions.entries@[i]@);
        let t = text_job(entries[i], total)->0;
        assert(jobs.contains(t));
        let j = choose|j: int| 0 <= j < jobs.len() && jobs[j] == t;
        assert(jobs[j] == r@[j]@);
        assert(is_caption(r@[j], ed.captions.entries@[i], total));
    }
    assert forall|j: int| 0 <= j < r@.len() implies exists|i: int|
        0 <= i < ed.captions.entries@.len() && is_caption(
            #[trigger] r@[j],
            #[trigger] ed.captions.entries@[i],
            total,
        ) by {
        assert(jobs[j] == r@[j]@);
        let i = choose|i: int|
            0 <= i < entries.len() && text_job(#[trigger] entries[i], total) == Some(jobs[j]);
        assert(entries[i] == ed.captions.entries@[i]@);
        assert(is_caption(r@[j], ed.captions.entries@[i], total));
    }
}

/// Opening a project takes over its adjustments, its settings and the look of its
/// captions, whichever of its files are missing; of missing music only the path goes.
pub proof fn opening_takes_over_the_project(
    ed: &mut Editor,
    path: &str,
    p: &ProjectFile,
    facts: &Vec<FileFact>,
    music_there: bool,
    jobs: &mut Vec<String>,
    r: usize,
)
    requires
        call_ensures(Editor::load_project, (ed, path, p, facts, music_there, jobs), r),
    ensures
        in_range(p.adj) ==> final(ed).looks.adj == p.adj,
        final(ed).looks.adj == p.adj.clamped_spec(),
        1 <= p.fps <= 60 ==> final(ed).settings.fps == p.fps,
        final(ed).settings.ken_burns == p.ken_burns,
        final(ed).settings.music_fade == p.music_fade,
        0 <= p.music_volume <= 200 ==> final(ed).settings.music_volume == p.music_volume,
        final(ed).captions.style.color == p.sub_color,
        final(ed).captions.style.outline_color == p.sub_outline_color,
        final(ed).captions.style.boxed == p.sub_boxed,
        0 <= p.sub_outline_w <= 8 ==> final(ed).captions.style.outline_w == p.sub_outline_w,
        music_there ==> (p.music_path matches Some(m) ==> (
        final(ed).settings.music_path matches Some(n) && n@ == m@)),
        !music_there ==> final(ed).settings.music_path is None,
{
    if in_range(p.adj) {
        crate::adjust::clamping_settles(p.adj);
    }
}

/// A saved project holds what the editor holds, part for part.
pub proof fn saving_keeps_each_part(ed: &Editor, version: &str, r: ProjectFile)
    requires
        call_ensures(Editor::project_data, (ed, version), r),
    ensures
        r.app_version@ == version@,
        texts(r.photos@) == texts(ed.photos@),
        r.fps == ed.settings.fps,
        r.format@ == ed.settings.format.ext_spec(),
        r.transition@ == ed.settings.transition.id_spec(),
        ed.captions.style.font_idx < ed.captions.fonts@.len() ==> r.sub_font@
            == ed.captions.fonts@[ed.captions.style.font_idx as int]@,
        r.resolution == (ed.settings.resolution.w, ed.settings.resolution.h),
        r.adj == ed.looks.adj,
        r.sub_entries@.len() == ed.captions.entries@.len(),
        forall|k: int|
            0 <= k < r.sub_entries@.len() ==> {
                let a = #[trigger] r.sub_entries@[k];
                let b = ed.captions.entries@[k];
                &&& a.start == b.start && a.end == b.end && a.text@ == b.text@
                &&& a.x == b.x && a.y == b.y && a.size == b.size && a.rot == b.rot
            },
        r.sub_color == ed.captions.style.color,
        r.sub_outline_w == ed.captions.style.outline_w,
        r.sub_outline_color == ed.captions.style.outline_color,
        r.sub_boxed == ed.captions.style.boxed,
        r.ken_burns == ed.settings.ken_burns,
        r.music_volume == ed.settings.music_volume,
        r.music_fade == ed.settings.music_fade,
        r.music_path is Some <==> ed.settings.music_path is Some,
        r.music_path matches Some(m) ==> (ed.settings.music_path matches Some(n) && n@ == m@),
{
    assert(crate::caption::entry_views(r.sub_entries@) == crate::caption::entry_views(
        ed.captions.entries@,
    ));
    assert forall|k: int| 0 <= k < r.sub_entries@.len() implies {
        let a = #[trigger] r.sub_entries@[k];
        let b = ed.captions.entries@[k];
        &&& a.start == b.start && a.end == b.end && a.text@ == b.text@
        &&& a.x == b.x && a.y == b.y && a.size == b.size && a.rot == b.rot
    } by {
        assert(crate::caption::entry_views(r.sub_entries@)[k] == r.sub_entries@[k]@);
        assert(crate::caption::entry_views(ed.captions.entries@)[k] == ed.captions.entries@[k]@);
    }
}

/// The first encoder that works is taken, and software if none of the hardware does.
pub proof fn first_encoder_that_works_is_taken(nvenc: bool, qsv: bool, amf: bool, r: H264Encoder)
    requires
        call_ensures(H264Encoder::pick, (nvenc, qsv, amf), r),
    ensures
        r == H264Encoder::Nvenc <==> nvenc,
        r == H264Encoder::Qsv <==> !nvenc && qsv,
        r == H264Encoder::Amf <==> !nvenc && !qsv && amf,
        r == H264Encoder::Software <==> !nvenc && !qsv && !amf,
{
}

/// Something moves in a video exactly if the pictures do, if photos fade, or if an AVI
/// file has music; it then has thirty frames a second, and otherwise one for each photo.
pub proof fn frames_go_by_what_moves(
    transition: Transition,
    ken_burns: bool,
    format: OutputFormat,
    music: bool,
    fps: u32,
    m: Motion,
    animated: bool,
    rate: u32,
)
    requires
        call_ensures(Motion::new, (transition, ken_burns, format, music), m),
        call_ensures(Motion::is_animated, (&m,), animated),
        call_ensures(Motion::frame_rate, (&m, fps), rate),
    ensures
        animated <==> ken_burns || transition != Transition::Cut || (music && format
            == OutputFormat::Avi),
        animated ==> rate == 30,
        !animated ==> rate == fps,
        m.transition == transition && m.ken_burns == ken_burns,
{
}

/// Music is faded at the end exactly if that is wanted and the video takes more than a
/// second; its volume is the same either way.
pub proof fn music_fades_in_long_videos(
    volume: i32,
    fade_out: bool,
    photos: usize,
    each: Duration,
    start: &str,
    len: &str,
    r: String,
)
    requires
        call_ensures(audio_filter, (volume, fade_out, photos, each, start, len), r),
    ensures
        begins(r@, music(volume, None)),
        fade_out && photos * each.num > each.den ==> r@ == music(volume, None)
            + ",afade=t=out:st="@ + start@ + ":d="@ + len@,
        !fade_out || photos * each.num <= each.den ==> r@ == music(volume, None),
{
    let m = music(volume, None);
    assert(m =~= m + Seq::<char>::empty());
    let tail = ",afade=t=out:st="@ + start@ + ":d="@ + len@;
    assert(m + ",afade=t=out:st="@ + start@ + ":d="@ + len@ =~= m + tail);
}

/// A video that is named for a format is taken for that format, and a project that is
/// named is taken for one.
pub proof fn names_are_taken_for_what_they_are(
    name: &str,
    f: OutputFormat,
    named: String,
    again: &str,
    found: OutputFormat,
)
    requires
        name@.len() > 0,
        call_ensures(output_name, (name, f), named),
        again@ == named@,
        call_ensures(format_by_name, (again,), found),
    ensures
        found == f,
{
    video_is_named_for_its_format(name@, f);
}

/// A single picture is made of its input by its filters, and written to its output.
pub proof fn still_is_made_of_its_input(input: &str, filter: &str, output: &str, r: Vec<String>)
    requires
        call_ensures(still_args, (input, filter, output), r),
    ensures
        given(texts(r@), "-i"@, input@),
        given(texts(r@), "-vf"@, filter@),
        given(texts(r@), "-frames:v"@, "1"@),
        r@.len() > 0 && r@.last()@ == output@,
{
    let a = texts(r@);
    assert(a[1] == "-i"@ && a[2] == input@);
    assert(a[3] == "-vf"@ && a[4] == filter@);
    assert(a[5] == "-frames:v"@ && a[6] == "1"@);
    assert(a.last() == r@.last()@);
}

/// An encoder is tried by encoding a little with it and writing nothing.
pub proof fn encoder_is_tried(encoder: &str, r: Vec<String>)
    requires
        call_ensures(encoder_test_args, (encoder,), r),
    ensures
        given(texts(r@), "-c:v"@, encoder@),
        given(texts(r@), "-f"@, "null"@),
        given(texts(r@), "-pix_fmt"@, "yuv420p"@),
{
    let a = texts(r@);
    assert(a[7] == "-c:v"@ && a[8] == encoder@);
    assert(a[9] == "-f"@ && a[10] == "null"@);
    assert(a[5] == "-pix_fmt"@ && a[6] == "yuv420p"@);
}

/// A text that is drawn is that of the caption at its place, without white space at the
/// end.
pub proof fn drawn_texts_belong_to_their_captions(
    jobs: &Vec<TextJob>,
    r: Vec<(usize, String)>,
    i: int,
)
    requires
        call_ensures(texts_to_draw, (jobs,), r),
        0 <= i < r@.len(),
    ensures
        r@[i].0 < jobs@.len(),
        r@[i].1@ == trimmed_end(jobs@[r@[i].0 as int].text@),
        r@[i].1@.len() > 0,
{
    let v = crate::job::text_job_views(jobs@);
    crate::job::texts_are_drawn_in_order(v);
    let d = crate::job::drawn_texts(v);
    assert(crate::job::numbered_views(r@) == d);
    assert(d[i] == (r@[i].0 as int, r@[i].1@));
    assert(v[d[i].0] == jobs@[d[i].0]@);
}

} // verus!
