//! What single actions and answers promise of what they are given and give back.

use crate::adjust::{neutral, Adjustments};
use crate::base_cache::{attempts, Attempt, BaseRole};
use crate::canvas::{preview_canvas, preview_is_even_and_fits};
use crate::caption::SubtitleEntry;
use crate::cli::{parse_cli, CliError, CliJob};
use crate::command::{check_inputs, conversion_filter, photos_to_adjust};
use crate::command_laws::{conversion_starts_if_all_is_there, filters_go_from_picture_to_ending};
use crate::conversion::{Conversion, ConvertState, WorkerMsg};
use crate::dehaze::{Region, SmokeParams};
use crate::drawtext::{between, color_code, drawtext_filter, CaptionLook, Placement};
use crate::editor::Editor;
use crate::file_laws::{box_and_time_are_added_behind, caption_is_drawn_as_it_looks};
use crate::files::quoted;
use crate::graph::{
    is_turned, is_upright, layer_views, video_filter, Canvas, Layer, Motion, VideoFilter,
};
use crate::graph_laws::{
    begins, captions_are_drawn_in_order, ends, graph_holds_its_steps, pad_name,
    steps_draw_their_captions,
};
use crate::labels::{adjust_title, caption_title, photo_position, photo_summary, shown_recent};
use crate::options::{OutputFormat, Resolution};
use crate::project::FileFact;
use crate::release::{newer_than, version_of, written_version_reads_back, ReleaseError};
use crate::report::crash_text;
use crate::scalar::Scalar;
use crate::sizes::upright_size;
use crate::smoke_tool::{region_of, tool_params};
use crate::style::SubtitleStyle;
use crate::text::{dec, dec_int, has_part, is_blank, texts, written_number_is_parsed};
use crate::timers::{fps_timer, saved_timer, Timer};
use vstd::prelude::*;

verus! {

/// A click on a thumbnail shows its photo, whatever keys are held; without any it ends
/// the selection, with control it changes only that photo's part in it, and with shift it
/// takes nothing away. No photo changes its adjustments.
pub proof fn thumbnail_click_shows_its_photo(
    ed: &mut Editor,
    i: usize,
    ctrl: bool,
    shift: bool,
    p: Seq<char>,
    k: int,
)
    requires
        old(ed)@.wf(),
        i < old(ed)@.photos.len(),
        call_ensures(Editor::thumb_clicked, (ed, i, ctrl, shift), ()),
    ensures
        final(ed).preview.selected == Some(i),
        texts(final(ed).photos@) == texts(old(ed).photos@),
        final(ed)@.looks.effective(p) == old(ed)@.looks.effective(p),
        final(ed)@.settings == old(ed)@.settings,
        final(ed)@.captions == old(ed)@.captions,
        !ctrl && !shift ==> !final(ed)@.looks.chosen.contains(p),
        ctrl ==> final(ed)@.looks.chosen.contains(old(ed)@.photos[i as int])
            != old(ed)@.looks.chosen.contains(old(ed)@.photos[i as int]),
        ctrl && p != old(ed)@.photos[i as int] ==> final(ed)@.looks.chosen.contains(p)
            == old(ed)@.looks.chosen.contains(p),
        !ctrl && shift && old(ed)@.looks.chosen.contains(p) ==> final(ed)@.looks.chosen.contains(p),
        !ctrl && shift && 0 <= k < old(ed)@.photos.len() && (old(ed)@.preview.selected matches Some(
            s,
        ) && (s <= k <= i || i <= k <= s)) ==> final(ed)@.looks.chosen.contains(
            old(ed)@.photos[k],
        ),
{
    let v = old(ed)@;
    crate::editor_laws::click_shows_its_photo(v, i as int, p);
    if 0 <= k < v.photos.len() {
        crate::editor_laws::range_goes_from_the_shown_photo(v, i as int, k);
    }
    assert(final(ed)@.preview.selected == Some(i as int));
}

/// While a conversion runs no photo is removed. Otherwise the one that was asked for goes
/// or all of them do, and the settings stay.
pub proof fn running_conversion_keeps_its_photos(
    ed: &mut Editor,
    all: bool,
    i: Option<usize>,
    jobs: &mut Vec<String>,
)
    requires
        i matches Some(k) ==> k < old(ed)@.photos.len(),
        call_ensures(Editor::remove_from_menu, (ed, all, i, jobs), ()),
    ensures
        old(ed).job.state is Working ==> final(ed)@ == old(ed)@,
        !(old(ed).job.state is Working) && all ==> final(ed).photos@.len() == 0,
        !(old(ed).job.state is Working) && !all ==> (i matches Some(k) ==> texts(final(ed).photos@)
            == texts(old(ed).photos@).remove(k as int)),
        !all && i is None ==> final(ed)@ == old(ed)@,
        final(ed)@.settings == old(ed)@.settings,
        final(ed).looks.adj == old(ed).looks.adj,
        final(ed).captions.style == old(ed).captions.style,
{
    assert(texts(final(ed).photos@).len() == final(ed).photos@.len());
}

/// The settings of the video that are set are those that were given.
pub proof fn given_settings_are_set(
    ed: &mut Editor,
    fps: u32,
    format: OutputFormat,
    resolution: Resolution,
)
    requires
        call_ensures(Editor::set_output, (ed, fps, format, resolution), ()),
    ensures
        final(ed).settings.fps == fps,
        final(ed).settings.format == format,
        final(ed).settings.resolution == resolution,
        final(ed).settings.transition == old(ed).settings.transition,
        final(ed).settings.ken_burns == old(ed).settings.ken_burns,
        final(ed).settings.music_volume == old(ed).settings.music_volume,
        final(ed).settings.music_fade == old(ed).settings.music_fade,
        final(ed).looks.adj == old(ed).looks.adj,
        resolution != old(ed).settings.resolution ==> final(ed).preview.dirty,
        fps != old(ed).settings.fps ==> final(ed).panels.fps_unsaved,
{
}

/// Moving the sliders without a selection adjusts all photos, and with one only the
/// selected ones; either way the preview is to be rendered.
pub proof fn sliders_adjust_what_is_selected(
    ed: &mut Editor,
    work: Adjustments,
    reset: bool,
    p: Seq<char>,
)
    requires
        call_ensures(Editor::apply_adjustments, (ed, work, reset), ()),
    ensures
        old(ed)@.looks.chosen.is_empty() ==> final(ed).looks.adj == work,
        !old(ed)@.looks.chosen.is_empty() ==> final(ed).looks.adj == old(ed).looks.adj,
        !old(ed)@.looks.chosen.is_empty() && old(ed)@.looks.chosen.contains(p) && reset
            ==> final(ed)@.looks.effective(p) == neutral(),
        !old(ed)@.looks.chosen.is_empty() && !old(ed)@.looks.chosen.contains(p) ==> final(ed)@.looks.effective(p) == old(ed)@.looks.effective(p),
        final(ed).preview.dirty,
        final(ed)@.settings == old(ed)@.settings,
        final(ed)@.captions == old(ed)@.captions,
{
}

/// A caption follows a photo that goes: its numbers stay in front of it and move up
/// behind it, and everything else of it stays.
pub proof fn caption_numbers_move_up(e: &mut SubtitleEntry, n: usize, left: bool)
    requires
        1 <= old(e).start <= old(e).end,
        1 <= n,
        call_ensures(SubtitleEntry::shift, (e, n), left),
    ensures
        final(e).start == (if old(e).start > n {
            old(e).start - 1
        } else {
            old(e).start as int
        }),
        final(e).end == (if old(e).end >= n {
            old(e).end - 1
        } else {
            old(e).end as int
        }),
        left <==> !(old(e).start == n && old(e).end == n),
        final(e).text@ == old(e).text@ && final(e).x == old(e).x && final(e).y == old(e).y && final(e).size == old(e).size && final(e).rot == old(e).rot,
{
}

/// The controls keep the text and the photos of a caption, and each value that is in its
/// range.
pub proof fn controls_keep_what_is_in_range(e: &mut SubtitleEntry)
    requires
        call_ensures(SubtitleEntry::clamp_values, (e,), ()),
    ensures
        final(e).text@ == old(e).text@ && final(e).start == old(e).start && final(e).end == old(e).end,
        8 <= final(e).size <= 300,
        8 <= old(e).size <= 300 ==> final(e).size == old(e).size,
        old(e).x.within(crate::scalar::zero(), crate::scalar::one()) ==> final(e).x == old(e).x,
        old(e).y.within(crate::scalar::zero(), crate::scalar::one()) ==> final(e).y == old(e).y,
        final(e).x.within(crate::scalar::zero(), crate::scalar::one()),
        final(e).y.within(crate::scalar::zero(), crate::scalar::one()),
{
    crate::looks_laws::ranges_leave_what_is_in_them(old(e)@);
}

/// A run of photos whose end was moved before its start ends at its start; any other stays.
pub proof fn mended_range_is_in_order(e: &mut SubtitleEntry)
    requires
        call_ensures(SubtitleEntry::mend_range, (e,), ()),
    ensures
        final(e).start == old(e).start,
        final(e).start <= final(e).end,
        old(e).start <= old(e).end ==> final(e).end == old(e).end,
        old(e).start > old(e).end ==> final(e).end == old(e).start,
        final(e).text@ == old(e).text@ && final(e).x == old(e).x && final(e).y == old(e).y && final(e).size == old(e).size && final(e).rot == old(e).rot,
{
}

/// A caption is seen on the photos from its first to its last number, if it has a text.
pub proof fn caption_is_seen_on_its_photos(e: &SubtitleEntry, n: usize, r: bool)
    requires
        call_ensures(SubtitleEntry::visible_on, (e, n), r),
    ensures
        r <==> e.start <= n && n <= e.end && !is_blank(e.text@),
{
}

/// The command line takes a folder, a number of photos a second from one to sixty and an
/// output, in this order, and refuses everything else for its reason.
pub proof fn command_line_is_read(args: &Vec<String>, n: u32, r: Result<CliJob, CliError>)
    requires
        call_ensures(parse_cli, (args,), r),
    ensures
        args@.len() != 3 <==> r == Err::<CliJob, CliError>(CliError::Usage),
        args@.len() == 3 && args@[1]@ == dec(n as nat) && 1 <= n <= 60 ==> (r matches Ok(job)
            && job.dir@ == args@[0]@ && job.fps == n && job.output@ == args@[2]@),
        args@.len() == 3 && args@[1]@ == dec(n as nat) && !(1 <= n <= 60) ==> r == Err::<
            CliJob,
            CliError,
        >(CliError::OutOfRange),
        args@.len() == 3 && args@[1]@.len() == 0 ==> r == Err::<CliJob, CliError>(
            CliError::NoNumber,
        ),
{
    written_number_is_parsed(n as nat, u32::MAX as nat);
}

/// A release is newer exactly if its version comes after the present one, by the first
/// number that differs; the tag is what is told.
pub proof fn later_version_is_newer(
    tag: &str,
    current: &str,
    a: (u64, u64, u64),
    b: (u64, u64, u64),
    r: Result<Option<String>, ReleaseError>,
)
    requires
        tag@ == seq!['v'] + (dec(a.0 as nat) + seq!['.'] + dec(a.1 as nat) + seq!['.'] + dec(
            a.2 as nat,
        )),
        current@ == dec(b.0 as nat) + seq!['.'] + dec(b.1 as nat) + seq!['.'] + dec(b.2 as nat),
        call_ensures(newer_than, (tag, current), r),
    ensures
        r is Ok,
        r matches Ok(newer) ==> {
            &&& newer is Some <==> a.0 > b.0 || (a.0 == b.0 && (a.1 > b.1 || (a.1 == b.1 && a.2
                > b.2)))
            &&& newer matches Some(t) ==> t@ == tag@
        },
{
    written_version_reads_back(a.0, a.1, a.2);
    written_version_reads_back(b.0, b.1, b.2);
    assert(version_of(tag@) == Some(a));
    assert(version_of(current@) == Some(b));
}

/// A photo that lies on its side stands upright with its sides exchanged; any other keeps
/// its sides.
pub proof fn sideways_photos_exchange_their_sides(orientation: u8, w: u32, h: u32, r: (u32, u32))
    requires
        call_ensures(upright_size, (orientation, w, h), r),
    ensures
        5 <= orientation <= 8 ==> r.0 == h && r.1 == w,
        !(5 <= orientation <= 8) ==> r.0 == w && r.1 == h,
{
}

/// A timer is over when its time has passed, and until then waits for the rest of it and
/// a little longer.
pub proof fn timers_wait_for_the_rest(elapsed: u64, a: Timer, b: Timer)
    requires
        call_ensures(fps_timer, (elapsed,), a),
        call_ensures(saved_timer, (elapsed,), b),
    ensures
        a is Over <==> elapsed >= 800,
        a matches Timer::Wait(t) ==> 800 < elapsed + t <= 850,
        b is Over <==> elapsed >= 2500,
        b matches Timer::Wait(t) ==> 2500 < elapsed + t <= 2550,
{
}

/// At most five recent projects are shown, and all of them if there are no more.
pub proof fn few_recent_projects_are_shown(recent: &Vec<String>, r: usize)
    requires
        call_ensures(shown_recent, (recent,), r),
    ensures
        r <= 5 && r <= recent@.len(),
        r == 5 || r == recent@.len(),
{
}

/// A region is given by its left, upper, right and lower edge.
pub proof fn region_is_given_by_its_edges(edges: &Vec<Scalar>, r: Option<Region>)
    requires
        call_ensures(region_of, (edges,), r),
    ensures
        r is Some <==> edges@.len() == 4,
        r matches Some(g) ==> g.x0 == edges@[0] && g.y0 == edges@[1] && g.x1 == edges@[2] && g.y1
            == edges@[3],
{
}

/// The numbers of the tool stand in order behind its input and output, and have defaults.
pub proof fn tool_has_defaults(
    args: &Vec<String>,
    region: Option<Region>,
    r: SmokeParams,
    n: i32,
    k: i32,
    b: i32,
)
    requires
        call_ensures(tool_params, (args, region, None::<&str>, None::<&str>), r),
    ensures
        args@.len() <= 3 ==> r.strength == 80 && r.detail == 60 && r.black == 30,
        args@.len() > 3 && args@[3]@ == dec_int(n as int) ==> r.strength == n,
        args@.len() > 4 && args@[4]@ == dec_int(k as int) ==> r.detail == k,
        args@.len() > 5 && args@[5]@ == dec_int(b as int) ==> r.black == b,
        r.region == region,
        r.feather == 25 && r.tolerance == 30,
        forall|i: int| 0 <= i < r.protect@.len() ==> #[trigger] r.protect@[i] is None,
{
    crate::list_laws::missing_number_is_the_default(n as int, 80);
    crate::list_laws::missing_number_is_the_default(k as int, 60);
    crate::list_laws::missing_number_is_the_default(b as int, 30);
}

/// The parameters of the haze are moved into their ranges, each by itself.
pub proof fn haze_parameters_are_in_range(p: SmokeParams, r: SmokeParams)
    requires
        call_ensures(SmokeParams::clamped, (p,), r),
    ensures
        0 <= r.strength <= 100 && 0 <= r.detail <= 100 && 0 <= r.black <= 100 && 0 <= r.feather
            <= 100 && 0 <= r.tolerance <= 100,
        0 <= p.strength <= 100 ==> r.strength == p.strength,
        0 <= p.detail <= 100 ==> r.detail == p.detail,
        0 <= p.black <= 100 ==> r.black == p.black,
        0 <= p.feather <= 100 ==> r.feather == p.feather,
        0 <= p.tolerance <= 100 ==> r.tolerance == p.tolerance,
        r.protect == p.protect,
        p.region is None ==> r.region is None,
{
}

/// A caption is drawn with the font, the size, the colours and at the place that are
/// given, in its time, and with a box if it has one.
pub proof fn drawn_caption_has_its_look(
    look: &CaptionLook,
    file: &str,
    at: &Placement,
    from: &str,
    to: &str,
    r: String,
    always: String,
)
    requires
        call_ensures(drawtext_filter, (look, file, at, Some((from, to))), r),
        call_ensures(drawtext_filter, (look, file, at, None::<(&str, &str)>), always),
    ensures
        r@ == always@ + ":enable='between(t,"@ + from@ + seq![','] + to@ + seq![')', '\''],
        !look.boxed ==> {
            &&& begins(
                always@,
                "drawtext=expansion=none:fontfile='"@ + quoted(look.font@, true) + "':textfile='"@
                    + quoted(file@, true) + "':"@,
            )
            &&& has_part(always@, ":fontsize="@ + at.size@ + ":"@)
            &&& has_part(always@, ":fontcolor="@ + look.color@ + ":"@)
            &&& has_part(always@, ":borderw="@ + dec_int(look.outline_w as int) + ":"@)
            &&& has_part(always@, ":bordercolor="@ + look.outline_color@ + ":"@)
            &&& ends(always@, ":x=(w*"@ + at.x@ + "-text_w/2):y=(h*"@ + at.y@ + "-text_h/2)"@)
        },
        look.boxed ==> ends(always@, ":box=1:boxcolor=black@0.4:boxborderw="@ + at.pad@),
{
    box_and_time_are_added_behind(look@, file@, at@, from@, to@);
    let plain = crate::drawtext::LookView { boxed: false, ..look@ };
    caption_is_drawn_as_it_looks(look@, file@, at@, plain);
    assert(":enable='between(t,"@ =~= ":enable='"@ + "between(t,"@) by {
        reveal_strlit(":enable='between(t,");
        reveal_strlit(":enable='");
        reveal_strlit("between(t,");
    }
    assert("'"@ =~= seq!['\'']) by {
        reveal_strlit("'");
    }
    assert(seq![')', '\''] =~= seq![')'] + seq!['\'']);
    let base = crate::drawtext::drawtext(plain, file@, at@, None);
    assert(look.boxed ==> always@ == base + (":box=1:boxcolor=black@0.4:boxborderw="@ + at.pad@))
        by {
        broadcast use crate::text::following_texts_go_together;

    }
    assert(r@ == always@ + ":enable='between(t,"@ + from@ + seq![','] + to@ + seq![')', '\''])
        by {
        broadcast use crate::text::following_texts_go_together;

    }
    if !look.boxed {
        assert(plain == look@);
    }
}

/// The look of the captions is that of the style, in the font that is given.
pub proof fn look_is_that_of_the_style(style: &SubtitleStyle, font: &str, r: CaptionLook)
    requires
        call_ensures(CaptionLook::new, (style, font), r),
    ensures
        r.font@ == font@,
        r.outline_w == style.outline_w,
        r.boxed == style.boxed,
        style.color.a == 255 ==> r.color@ == color_code(style.color),
        style.outline_color.a == 255 ==> r.outline_color@ == color_code(style.outline_color),
{
}

/// A conversion is allowed exactly if there are photos, all of them are files, and so is
/// the music if there is any.
pub proof fn conversion_is_allowed_if_all_is_there(
    photos: &Vec<FileFact>,
    music: Option<&FileFact>,
    r: Option<String>,
)
    requires
        call_ensures(check_inputs, (photos, music), r),
    ensures
        r is None <==> photos@.len() > 0 && (forall|k: int|
            0 <= k < photos@.len() ==> (#[trigger] photos@[k]).is_file) && (music matches Some(m)
            ==> m.is_file),
{
    let v = crate::project::fact_views(photos@);
    let m = match music {
        Some(f) => Some(f@),
        None => None,
    };
    conversion_starts_if_all_is_there(v, m);
    assert(forall|k: int| 0 <= k < photos@.len() ==> v[k] == (#[trigger] photos@[k])@);
    if forall|k: int| 0 <= k < v.len() ==> (#[trigger] v[k]).is_file {
        assert forall|k: int| 0 <= k < photos@.len() implies (#[trigger] photos@[k]).is_file by {
            assert(v[k].is_file);
        }
    }
    if forall|k: int| 0 <= k < photos@.len() ==> (#[trigger] photos@[k]).is_file {
        assert forall|k: int| 0 <= k < v.len() implies (#[trigger] v[k]).is_file by {
            assert(photos@[k].is_file);
        }
    }
}

/// Exactly the photos whose adjustments are not neutral are adjusted beforehand, and only
/// if not all photos have the same; they come in order.
pub proof fn differing_photos_are_adjusted_beforehand(
    each: &Vec<Adjustments>,
    all: Adjustments,
    r: Vec<usize>,
    i: usize,
)
    requires
        call_ensures(photos_to_adjust, (each, all), r),
        i < each@.len(),
    ensures
        r@.contains(i) <==> each@[i as int] != neutral() && (exists|k: int|
            0 <= k < each@.len() && #[trigger] each@[k] != all),
{
    crate::command::each_photo_is_adjusted_once(each@, all, i as int);
    let m = r@.map_values(|k: usize| k as int);
    let first = crate::command::beforehand(each@, all, each@.len() as int);
    assert(m == first);
    if r@.contains(i) {
        let k = choose|k: int| 0 <= k < r@.len() && r@[k] == i;
        assert(m[k] == i as int);
        assert(first.contains(i as int));
    }
    if first.contains(i as int) {
        let k = choose|k: int| 0 <= k < first.len() && first[k] == i as int;
        assert(m[k] == r@[k] as int);
        assert(r@[k] == i);
    }
}

/// The filters of a conversion are a graph exactly if there are captions of which one is
/// turned.
pub proof fn turned_captions_make_a_graph(
    adj: Option<Adjustments>,
    motion: Motion,
    fps: u32,
    look: Option<&CaptionLook>,
    canvas: &Canvas,
    layers: &Vec<Layer>,
    r: VideoFilter,
)
    requires
        call_ensures(conversion_filter, (adj, motion, fps, look, canvas, layers), r),
    ensures
        r is Graph <==> look is Some && (exists|k: int|
            0 <= k < layers@.len() && is_turned((#[trigger] layers@[k]).rot)),
{
    let v = crate::graph::layer_views(layers@);
    let l = match look {
        Some(x) => Some(x@),
        None => None,
    };
    filters_go_from_picture_to_ending(adj, motion, fps, l, canvas@, v);
    assert(forall|k: int| 0 <= k < layers@.len() ==> v[k].rot == (#[trigger] layers@[k]).rot);
    if exists|k: int| 0 <= k < v.len() && is_turned((#[trigger] v[k]).rot) {
        let k = choose|k: int| 0 <= k < v.len() && is_turned((#[trigger] v[k]).rot);
        assert(is_turned(layers@[k].rot));
    }
    if exists|k: int| 0 <= k < layers@.len() && is_turned((#[trigger] layers@[k]).rot) {
        let k = choose|k: int| 0 <= k < layers@.len() && is_turned((#[trigger] layers@[k]).rot);
        assert(is_turned(v[k].rot));
    }
}

/// The photo itself is the last way to a preview, and its copy the first if there is one.
pub proof fn copy_is_tried_before_the_photo(
    role: &BaseRole,
    photo: &str,
    adj: &Adjustments,
    px: i32,
    w: u32,
    h: u32,
    r: Vec<Attempt>,
)
    requires
        call_ensures(attempts, (role, photo, adj, px, w, h), r),
    ensures
        1 <= r@.len() <= 2,
        r@.last().input@ == photo@,
        *role matches BaseRole::Cached(f) ==> r@.len() == 2 && r@[0].input@ == f@,
        !(*role is Cached) ==> r@.len() == 1,
{
    let v = crate::base_cache::attempt_views(r@);
    assert(v.len() == r@.len());
    assert(v.last() == r@.last()@);
    assert(r@.len() == 2 ==> v[0] == r@[0]@);
}

/// The preview is even, fits, and is as wide or as high as it can be.
pub proof fn preview_is_as_large_as_can_be(res: Resolution, r: (u32, u32))
    requires
        call_ensures(preview_canvas, (res,), r),
    ensures
        r.0 % 2 == 0 && r.1 % 2 == 0,
        2 <= r.0 <= 960 && 2 <= r.1 <= 960,
        res.w >= res.h && res.w > 0 ==> r.0 == 960,
        res.h >= res.w && res.h > 0 ==> r.1 == 960,
{
    preview_is_even_and_fits(res);
}

/// The last report of a conversion ends it with its result; the others leave it under way.
pub proof fn last_report_ends_the_conversion(
    c: &mut Conversion,
    msg: WorkerMsg,
    cancelled: bool,
    last: bool,
)
    requires
        call_ensures(Conversion::on_report, (c, msg, cancelled), last),
    ensures
        last <==> msg is Done || msg is Error,
        msg matches WorkerMsg::Done(p) ==> (final(c).state matches ConvertState::Done(q) && q@
            == p@),
        msg matches WorkerMsg::Error(e) ==> !cancelled ==> (
        final(c).state matches ConvertState::Error(f) && f@ == e@),
        msg is Error && cancelled ==> final(c).state is Idle,
        !last ==> (old(c).state is Working <==> final(c).state is Working),
        msg matches WorkerMsg::Progress(x) ==> (old(c).state matches ConvertState::Working {
            status,
            ..
        } ==> (final(c).state matches ConvertState::Working { progress, status: s } && progress == x
            && s@ == status@)),
        msg matches WorkerMsg::Status(x) ==> (old(c).state matches ConvertState::Working {
            progress,
            ..
        } ==> (final(c).state matches ConvertState::Working { progress: y, status } && y == progress
            && status@ == x@)),
{
    match msg {
        WorkerMsg::Done(p) => {
            assert(final(c)@.state == crate::conversion::StateView::Done(p@));
        },
        WorkerMsg::Error(e) => {
            assert(final(c)@.state is Idle || final(c)@.state == crate::conversion::StateView::Error(
                e@,
            ));
        },
        _ => {},
    }
    assert(final(c)@.state == final(c).state@);
    assert(old(c)@.state == old(c).state@);
}

/// A crash is told with its version, its message, its place and its trace.
pub proof fn crash_is_told(
    version: &str,
    message: &str,
    place: &str,
    trace: &str,
    r: String,
)
    requires
        call_ensures(crash_text, (version, Some(message), Some(place), trace), r),
    ensures
        has_part(r@, version@),
        has_part(r@, message@),
        has_part(r@, place@),
        ends(r@, trace@),
{
    lemma_crash(r@, version@, message@, place@, trace@);
}

proof fn lemma_crash(
    r: Seq<char>,
    version: Seq<char>,
    message: Seq<char>,
    place: Seq<char>,
    trace: Seq<char>,
)
    requires
        r == "Photo2Video v"@ + version + "\npanic："@ + message + "\n位置："@ + place
            + "\n\nbacktrace：\n"@ + trace,
    ensures
        has_part(r, version),
        has_part(r, message),
        has_part(r, place),
        ends(r, trace),
{
    broadcast use crate::text::following_texts_go_together;

    let a = "Photo2Video v"@;
    let b = "\npanic："@;
    let c = "\n位置："@;
    let d = "\n\nbacktrace：\n"@;
    assert(r == a + version + (b + message + c + place + d + trace));
    assert(r == (a + version + b) + message + (c + place + d + trace));
    assert(r == (a + version + b + message + c) + place + (d + trace));
    assert(r == (a + version + b + message + c + place + d) + trace);
}

/// Labels name what they are about: how many photos are selected, which caption, which
/// photo of how many, how many photos for how long.
pub proof fn labels_name_what_they_are_about(
    n: usize,
    i: usize,
    name: &str,
    a: String,
    b: String,
    c: String,
    d: String,
)
    requires
        n > 0,
        i < usize::MAX,
        call_ensures(adjust_title, (n,), a),
        call_ensures(caption_title, (i,), b),
        call_ensures(photo_position, (i, n, name), c),
        call_ensures(photo_summary, (n, name), d),
    ensures
        has_part(a@, dec(n as nat)),
        ends(b@, dec((i + 1) as nat)),
        begins(c@, dec((i + 1) as nat) + " / "@ + dec(n as nat)),
        ends(c@, name@),
        begins(d@, dec(n as nat)),
        has_part(d@, name@),
{
    let x = dec((i + 1) as nat);
    let y = dec(n as nat);
    assert(a@ == "調色（選取 "@ + y + " 張）"@);
    assert(c@ =~= (x + " / "@ + y) + ("　"@ + name@));
    assert(d@ =~= y + (" 張照片 · 約 "@ + name@ + " 秒"@));
    assert(d@ == (y + " 張照片 · 約 "@) + name@ + " 秒"@);
}

/// Each caption of a video is drawn as the filter for its file, place and time draws it:
/// in a plain chain between commas, and in a graph, if it is upright, between the picture
/// without it and the picture with it.
pub proof fn each_caption_of_the_video_is_drawn(
    pic: &str,
    look: &CaptionLook,
    canvas: &Canvas,
    layers: &Vec<Layer>,
    end: &str,
    k: int,
    file: &str,
    from: &str,
    to: &str,
    drawn: String,
    r: VideoFilter,
)
    requires
        0 <= k < layers@.len(),
        file@ == layers@[k].file@ && from@ == layers@[k].from@ && to@ == layers@[k].to@,
        call_ensures(drawtext_filter, (look, file, &layers@[k].at, Some((from, to))), drawn),
        call_ensures(video_filter, (pic, look, canvas, layers, end), r),
    ensures
        r matches VideoFilter::Chain(s) ==> has_part(s@, seq![','] + drawn@ + seq![',']) && begins(
            s@,
            pic@,
        ) && ends(s@, seq![','] + end@),
        r matches VideoFilter::Graph(s) ==> {
            &&& is_upright(layers@[k].rot) ==> has_part(
                s@,
                pad_name(k as nat) + drawn@ + pad_name((k + 1) as nat),
            )
            &&& !is_upright(layers@[k].rot) ==> has_part(
                s@,
                pad_name(k as nat) + "[t"@ + dec(k as nat) + "]overlay=x="@ + layers@[k].dx@
                    + ":y="@ + layers@[k].dy@ + ":enable='"@ + between(from@, to@) + "'"@
                    + pad_name((k + 1) as nat),
            ) && has_part(s@, ",rotate="@ + layers@[k].turn@ + ":"@)
        },
{
    let v = layer_views(layers@);
    let l = layers@[k]@;
    assert(v[k] == l);
    assert(drawn@ == crate::graph::plain_layer(look@, l));
    match r {
        VideoFilter::Chain(s) => {
            captions_are_drawn_in_order(pic@, look@, v, end@, k);
        },
        VideoFilter::Graph(s) => {
            steps_draw_their_captions(look@, canvas@, l, k as nat);
            if is_upright(l.rot) {
                let part = pad_name(k as nat) + drawn@ + pad_name((k + 1) as nat);
                graph_holds_its_steps(pic@, look@, canvas@, v, end@, k, part);
            } else {
                let over = pad_name(k as nat) + "[t"@ + dec(k as nat) + "]overlay=x="@ + l.dx
                    + ":y="@ + l.dy + ":enable='"@ + between(l.from, l.to) + "'"@ + pad_name(
                    (k + 1) as nat,
                );
                graph_holds_its_steps(pic@, look@, canvas@, v, end@, k, over);
                let turn = ",rotate="@ + l.turn + ":"@;
                graph_holds_its_steps(pic@, look@, canvas@, v, end@, k, turn);
            }
        },
    }
}

} // verus!
