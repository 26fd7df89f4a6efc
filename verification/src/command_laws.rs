//! What holds of every conversion, whatever is asked for.

use crate::adjust::{neutral, Adjustments};
use crate::command::{
    beforehand, codec_for, conversion_failure, differs, each_photo_is_adjusted_once, failure_text,
    first_absent, left_to_adjust, obstacle, whole_filter, CommandView,
};
use crate::drawtext::LookView;
use crate::graph::{
    any_turned, ending, graph_steps, is_turned, pad, picture, plain_layers, scale, CanvasView,
    LayerView, Motion,
};
use crate::graph_laws::{adjustments_stand_between_scaling_and_bars, begins, ends};
use crate::options::{H264Encoder, OutputFormat, Resolution};
use crate::project::FactView;
use crate::text::{dec, has_part, joined, joining_keeps_each_text};
use crate::timing::shown_for;
use vstd::prelude::*;

verus! {

/// Whether an option is given this value: the two stand next to one another.
pub open spec fn given(args: Seq<Seq<char>>, option: Seq<char>, value: Seq<char>) -> bool {
    exists|i: int| 0 <= i < args.len() - 1 && #[trigger] args[i] == option && args[i + 1] == value
}

proof fn lemma_given_in_sum(
    a: Seq<Seq<char>>,
    b: Seq<Seq<char>>,
    option: Seq<char>,
    value: Seq<char>,
)
    ensures
        given(a, option, value) || given(b, option, value) ==> given(a + b, option, value),
        given(a + b, option, value) ==> given(a, option, value) || given(b, option, value) || (
        a.len() > 0 && b.len() > 0 && a.last() == option && b[0] == value),
{
    if given(a, option, value) {
        let i = choose|i: int|
            0 <= i < a.len() - 1 && #[trigger] a[i] == option && a[i + 1] == value;
        assert((a + b)[i] == option);
    } else if given(b, option, value) {
        let i = choose|i: int|
            0 <= i < b.len() - 1 && #[trigger] b[i] == option && b[i + 1] == value;
        assert((a + b)[a.len() + i] == option);
    }
    if given(a + b, option, value) {
        let s = a + b;
        let i = choose|i: int|
            0 <= i < s.len() - 1 && #[trigger] s[i] == option && s[i + 1] == value;
        if i + 1 < a.len() {
            assert(a[i] == option);
        } else if i >= a.len() {
            assert(b[i - a.len()] == option);
        }
    }
}

/// What stands in any of the parts of a command stands in the command, and nothing is
/// given but in one of them.
proof fn lemma_given(c: CommandView, option: Seq<char>, value: Seq<char>)
    ensures
        given(c.inputs(), option, value) ==> given(c.args(), option, value),
        given(c.video(), option, value) ==> given(c.args(), option, value),
        given(c.audio(), option, value) ==> given(c.args(), option, value),
        given(codec_for(c.format, c.encoder), option, value) ==> given(c.args(), option, value),
        given(c.args(), option, value) ==> {
            ||| given(c.inputs(), option, value)
            ||| given(c.video(), option, value)
            ||| given(c.audio(), option, value)
            ||| given(codec_for(c.format, c.encoder), option, value)
            ||| c.inputs().last() == option && c.video()[0] == value
            ||| c.video().last() == option && c.audio().len() == 0 && codec_for(
                c.format,
                c.encoder,
            )[0] == value
            ||| c.video().last() == option && c.audio().len() > 0 && c.audio()[0] == value
            ||| c.audio().len() > 0 && c.audio().last() == option
            ||| codec_for(c.format, c.encoder).last() == option
        },
{
    let k = codec_for(c.format, c.encoder);
    assert(k.len() >= 4);
    let a = c.inputs() + c.video();
    let b = a + c.audio();
    let d = b + k;
    lemma_given_in_sum(c.inputs(), c.video(), option, value);
    lemma_given_in_sum(a, c.audio(), option, value);
    lemma_given_in_sum(b, k, option, value);
    lemma_given_in_sum(d, seq![c.output], option, value);
    assert(!given(seq![c.output], option, value));
    assert(a.last() == c.video().last());
    if c.audio().len() > 0 {
        assert(b.last() == c.audio().last());
    } else {
        assert(b =~= a);
    }
    assert(d.last() == k.last());
}

/// The words of four letters that are options are all different.
proof fn lemma_options()
    ensures
        "-c:a"@.len() == 4,
        "-map"@.len() == 4 && "-map"@ != "-c:a"@,
        "-b:a"@.len() == 4 && "-b:a"@ != "-c:a"@ && "-b:a"@ != "-map"@,
        "-c:v"@.len() == 4 && "-c:v"@ != "-c:a"@ && "-c:v"@ != "-map"@,
        "-b:v"@.len() == 4 && "-b:v"@ != "-c:a"@ && "-b:v"@ != "-map"@,
        "-crf"@.len() == 4 && "-crf"@ != "-c:a"@ && "-crf"@ != "-map"@,
        "128k"@.len() == 4 && "128k"@ != "-c:a"@ && "128k"@ != "-map"@,
        "192k"@.len() == 4 && "192k"@ != "-c:a"@ && "192k"@ != "-map"@,
{
    reveal_strlit("-c:a");
    reveal_strlit("-map");
    reveal_strlit("-b:a");
    reveal_strlit("-c:v");
    reveal_strlit("-b:v");
    reveal_strlit("-crf");
    reveal_strlit("128k");
    reveal_strlit("192k");
    assert("-map"@[1] == 'm' && "-c:a"@[1] == 'c' && "-b:a"@[1] == 'b' && "-c:v"@[1] == 'c');
    assert("-c:v"@[3] == 'v' && "-c:a"@[3] == 'a');
    assert("-b:v"@[1] == 'b' && "-crf"@[2] == 'r' && "-c:a"@[2] == ':' && "-crf"@[1] == 'c');
    assert("128k"@[0] == '1' && "192k"@[0] == '1' && "-c:a"@[0] == '-' && "-map"@[0] == '-');
}

/// Whether the value is none that follows a file name or a number in a command.
spec fn is_own_value(value: Seq<char>) -> bool {
    (value.len() == 3 || value.len() == 6 || value.len() == 7) && value != "-vf"@
}

proof fn lemma_values()
    ensures
        is_own_value("libopus"@) && is_own_value("aac"@) && is_own_value("1:a"@) && is_own_value(
            "0:v"@,
        ) && is_own_value("[vout]"@),
        "libopus"@.len() == 7 && "[vout]"@.len() == 6 && "aac"@.len() == 3 && "1:a"@.len() == 3
            && "0:v"@.len() == 3,
        "1:a"@ != "0:v"@,
{
    reveal_strlit("libopus");
    reveal_strlit("aac");
    reveal_strlit("1:a");
    reveal_strlit("0:v");
    reveal_strlit("[vout]");
    reveal_strlit("-vf");
    assert("aac"@[0] == 'a' && "1:a"@[0] == '1' && "0:v"@[0] == '0' && "-vf"@[0] == '-');
}

proof fn lemma_inputs(c: CommandView, option: Seq<char>, value: Seq<char>)
    requires
        option == "-c:a"@ || option == "-map"@,
        is_own_value(value),
    ensures
        !given(c.inputs(), option, value),
        c.video()[0] != value,
{
    lemma_options();
    reveal_strlit("-y");
    reveal_strlit("-filter_threads");
    reveal_strlit("-f");
    reveal_strlit("concat");
    reveal_strlit("-safe");
    reveal_strlit("0");
    reveal_strlit("-i");
    reveal_strlit("-stream_loop");
    reveal_strlit("-1");
    reveal_strlit("-filter_complex");
    reveal_strlit("-vf");
}

proof fn lemma_video(c: CommandView, option: Seq<char>, value: Seq<char>)
    requires
        option == "-c:a"@ || option == "-map"@,
        is_own_value(value),
    ensures
        given(c.video(), option, value) <==> c.filter.is_graph && option == "-map"@ && value
            == "[vout]"@,
{
    lemma_options();
    lemma_values();
    reveal_strlit("-filter_complex");
    reveal_strlit("-vf");
    reveal_strlit("-r");
    reveal_strlit("-t");
    if c.filter.is_graph {
        assert(c.video()[2] == "-map"@ && c.video()[3] == "[vout]"@);
    }
}

proof fn lemma_audio(c: CommandView, option: Seq<char>, value: Seq<char>)
    requires
        option == "-c:a"@ || option == "-map"@,
        is_own_value(value),
    ensures
        given(c.audio(), option, value) <==> c.music is Some && {
            ||| option == "-c:a"@ && value == "libopus"@ && c.format == OutputFormat::Webm
            ||| option == "-c:a"@ && value == "aac"@ && c.format != OutputFormat::Webm
            ||| option == "-map"@ && value == "1:a"@
            ||| option == "-map"@ && value == "0:v"@ && !c.filter.is_graph
        },
        c.audio().len() > 0 ==> c.audio().last() != option && c.audio()[0] != value,
        c.audio().len() == 0 <==> c.music is None,
{
    lemma_options();
    lemma_values();
    reveal_strlit("-af");
    let a = c.audio();
    if c.music is Some {
        let n = a.len();
        assert(a[n - 4] == "-c:a"@);
        assert(a[n - 3] == if c.format == OutputFormat::Webm {
            "libopus"@
        } else {
            "aac"@
        });
        assert(a[n - 8] == "-map"@ && a[n - 7] == "1:a"@);
        if !c.filter.is_graph {
            assert(a[0] == "-map"@ && a[1] == "0:v"@);
        }
    }
}

proof fn lemma_codec(format: OutputFormat, encoder: H264Encoder, option: Seq<char>, value: Seq<char>)
    requires
        option == "-c:a"@ || option == "-map"@,
        is_own_value(value),
    ensures
        !given(codec_for(format, encoder), option, value),
        codec_for(format, encoder).last() != option,
        codec_for(format, encoder)[0] != value,
{
    lemma_options();
    reveal_strlit("libvpx-vp9");
    reveal_strlit("0");
    reveal_strlit("30");
    reveal_strlit("-cpu-used");
    reveal_strlit("5");
    reveal_strlit("-row-mt");
    reveal_strlit("1");
    reveal_strlit("h264_nvenc");
    reveal_strlit("-preset");
    reveal_strlit("p4");
    reveal_strlit("-rc");
    reveal_strlit("vbr");
    reveal_strlit("-cq");
    reveal_strlit("23");
    reveal_strlit("h264_qsv");
    reveal_strlit("-global_quality");
    reveal_strlit("h264_amf");
    reveal_strlit("-quality");
    reveal_strlit("balanced");
    reveal_strlit("cqp");
    reveal_strlit("-qp_i");
    reveal_strlit("22");
    reveal_strlit("-qp_p");
    reveal_strlit("libx264");
    reveal_strlit("veryfast");
    reveal_strlit("18");
}

/// The encoder of the music goes by the container alone: Opus in WebM and AAC in every
/// other one, whether the filters are a chain or a graph and whichever encoder the video
/// has. A command without music has none.
pub proof fn music_encoder_goes_by_the_container(c: CommandView)
    ensures
        given(c.args(), "-c:a"@, "libopus"@) <==> c.music is Some && c.format
            == OutputFormat::Webm,
        given(c.args(), "-c:a"@, "aac"@) <==> c.music is Some && c.format != OutputFormat::Webm,
{
    lemma_values();
    lemma_given(c, "-c:a"@, "libopus"@);
    lemma_inputs(c, "-c:a"@, "libopus"@);
    lemma_video(c, "-c:a"@, "libopus"@);
    lemma_audio(c, "-c:a"@, "libopus"@);
    lemma_codec(c.format, c.encoder, "-c:a"@, "libopus"@);
    lemma_given(c, "-c:a"@, "aac"@);
    lemma_inputs(c, "-c:a"@, "aac"@);
    lemma_video(c, "-c:a"@, "aac"@);
    lemma_audio(c, "-c:a"@, "aac"@);
    lemma_codec(c.format, c.encoder, "-c:a"@, "aac"@);
    lemma_options();
}

/// The sound of the video is that of the second input, exactly if there is music. The
/// picture is the end of the graph if there is one, and otherwise that of the first
/// input, which needs to be said only beside music.
pub proof fn streams_come_from_their_inputs(c: CommandView)
    ensures
        given(c.args(), "-map"@, "1:a"@) <==> c.music is Some,
        given(c.args(), "-map"@, "[vout]"@) <==> c.filter.is_graph,
        given(c.args(), "-map"@, "0:v"@) <==> c.music is Some && !c.filter.is_graph,
{
    lemma_values();
    lemma_options();
    lemma_given(c, "-map"@, "1:a"@);
    lemma_inputs(c, "-map"@, "1:a"@);
    lemma_video(c, "-map"@, "1:a"@);
    lemma_audio(c, "-map"@, "1:a"@);
    lemma_codec(c.format, c.encoder, "-map"@, "1:a"@);
    lemma_given(c, "-map"@, "0:v"@);
    lemma_inputs(c, "-map"@, "0:v"@);
    lemma_video(c, "-map"@, "0:v"@);
    lemma_audio(c, "-map"@, "0:v"@);
    lemma_codec(c.format, c.encoder, "-map"@, "0:v"@);
    lemma_given(c, "-map"@, "[vout]"@);
    lemma_inputs(c, "-map"@, "[vout]"@);
    lemma_video(c, "-map"@, "[vout]"@);
    lemma_audio(c, "-map"@, "[vout]"@);
    lemma_codec(c.format, c.encoder, "-map"@, "[vout]"@);
}

/// Every part of the request reaches ffmpeg: the list of photos as the first input, the
/// music over and over as the second, the filters of both, the frame rate, the length,
/// the encoder of the video, and the file to write as the last argument.
pub proof fn command_says_what_is_asked_for(c: CommandView)
    ensures
        c.args()[0] == "-y"@,
        given(c.args(), "-filter_threads"@, c.threads),
        c.args()[3] == "-f"@ && c.args()[4] == "concat"@ && c.args()[5] == "-safe"@ && c.args()[6]
            == "0"@ && c.args()[7] == "-i"@ && c.args()[8] == c.list,
        c.music matches Some((path, filter)) ==> {
            &&& c.args()[9] == "-stream_loop"@ && c.args()[10] == "-1"@
            &&& c.args()[11] == "-i"@ && c.args()[12] == path
            &&& given(c.args(), "-af"@, filter)
            &&& given(c.args(), "-b:a"@, if c.format == OutputFormat::Webm {
                "128k"@
            } else {
                "192k"@
            })
        },
        given(c.args(), if c.filter.is_graph {
            "-filter_complex"@
        } else {
            "-vf"@
        }, c.filter.text),
        given(c.args(), "-r"@, dec(c.out_fps as nat)),
        given(c.args(), "-t"@, c.secs),
        c.format == OutputFormat::Webm ==> given(c.args(), "-c:v"@, "libvpx-vp9"@),
        c.format != OutputFormat::Webm ==> given(c.args(), "-c:v"@, match c.encoder {
            H264Encoder::Nvenc => "h264_nvenc"@,
            H264Encoder::Qsv => "h264_qsv"@,
            H264Encoder::Amf => "h264_amf"@,
            H264Encoder::Software => "libx264"@,
        }),
        c.args().last() == c.output,
        c.music is None ==> c.args().len() == c.video().len() + codec_for(
            c.format,
            c.encoder,
        ).len() + 10,
{
    let i = c.inputs();
    let v = c.video();
    let a = c.audio();
    let k = codec_for(c.format, c.encoder);
    lemma_given(c, "-filter_threads"@, c.threads);
    assert(i[1] == "-filter_threads"@ && i[2] == c.threads);
    assert(forall|n: int| 0 <= n < i.len() ==> c.args()[n] == #[trigger] i[n]);
    lemma_given(c, "-r"@, dec(c.out_fps as nat));
    lemma_given(c, "-t"@, c.secs);
    let n = v.len();
    assert(v[n - 4] == "-r"@ && v[n - 3] == dec(c.out_fps as nat));
    assert(v[n - 2] == "-t"@ && v[n - 1] == c.secs);
    assert(v[0] == (if c.filter.is_graph {
        "-filter_complex"@
    } else {
        "-vf"@
    }) && v[1] == c.filter.text);
    lemma_given(c, v[0], c.filter.text);
    match c.music {
        Some((path, filter)) => {
            let m = a.len();
            lemma_given(c, "-af"@, filter);
            assert(a[m - 6] == "-af"@ && a[m - 5] == filter);
            assert(a[m - 2] == "-b:a"@);
            lemma_given(c, "-b:a"@, a[m - 1]);
        },
        None => {},
    }
    assert(k[0] == "-c:v"@);
    lemma_given(c, "-c:v"@, k[1]);
}

proof fn lemma_first_absent(facts: Seq<FactView>, i: int)
    requires
        0 <= i <= facts.len(),
    ensures
        first_absent(facts, i) is None <==> (forall|k: int|
            i <= k < facts.len() ==> (#[trigger] facts[k]).is_file),
        first_absent(facts, i) matches Some(name) ==> exists|k: int|
            i <= k < facts.len() && !(#[trigger] facts[k]).is_file && facts[k].name == name && (
            forall|j: int| i <= j < k ==> (#[trigger] facts[j]).is_file),
    decreases facts.len() - i,
{
    if i < facts.len() && facts[i].is_file {
        lemma_first_absent(facts, i + 1);
    }
}

/// A conversion starts exactly if there are photos, all of them are there, and so is the
/// music if there is any.
pub proof fn conversion_starts_if_all_is_there(photos: Seq<FactView>, music: Option<FactView>)
    ensures
        obstacle(photos, music) is None <==> photos.len() > 0 && (forall|k: int|
            0 <= k < photos.len() ==> (#[trigger] photos[k]).is_file) && (music matches Some(m)
            ==> m.is_file),
{
    lemma_first_absent(photos, 0);
}

/// What is missing is named: the first photo that is not there, or the music if all
/// photos are.
pub proof fn what_is_missing_is_named(photos: Seq<FactView>, music: Option<FactView>, k: int)
    ensures
        0 <= k < photos.len() && !photos[k].is_file && (forall|j: int|
            0 <= j < k ==> (#[trigger] photos[j]).is_file) ==> (obstacle(photos, music) matches Some(
            t,
        ) && has_part(t, photos[k].name) && begins(t, "找不到照片檔案「"@)),
        photos.len() > 0 && (forall|j: int|
            0 <= j < photos.len() ==> (#[trigger] photos[j]).is_file) ==> (music matches Some(m)
            ==> !m.is_file ==> (obstacle(photos, music) matches Some(t) && has_part(t, m.name)
            && begins(t, "找不到背景音樂檔案「"@))),
{
    lemma_first_absent(photos, 0);
    let a = "找不到照片檔案「"@;
    let b = "找不到背景音樂檔案「"@;
    let z = "」，可能已被移除或所在磁碟未連接"@;
    if 0 <= k < photos.len() && !photos[k].is_file && (forall|j: int|
        0 <= j < k ==> (#[trigger] photos[j]).is_file) {
        let t = obstacle(photos, music)->0;
        assert(t == a + photos[k].name + z);
        assert(t =~= a + (photos[k].name + z));
    }
    if photos.len() > 0 && (forall|j: int|
        0 <= j < photos.len() ==> (#[trigger] photos[j]).is_file) {
        match music {
            Some(m) => {
                if !m.is_file {
                    let t = obstacle(photos, music)->0;
                    assert(t == b + m.name + z);
                    assert(t =~= b + (m.name + z));
                }
            },
            None => {},
        }
    }
}

/// Each photo of a video gets the adjustments that it is to have. Either all photos have
/// the same ones: then they stand in the filters of the video between scaling and black
/// bars. Or they differ: then the filters of the video hold none, and exactly the photos
/// with adjustments are adjusted beforehand.
pub proof fn each_photo_of_the_video_is_adjusted(
    each: Seq<Adjustments>,
    all: Adjustments,
    i: int,
    res: Resolution,
    motion: Motion,
    fps: u32,
)
    requires
        0 <= i < each.len(),
    ensures
        ({
            let filters = picture(left_to_adjust(each, all), res, motion, fps);
            let first = beforehand(each, all, each.len() as int);
            ||| first.contains(i) && each[i] != neutral() && begins(
                filters,
                scale(res.w, res.h) + seq![','] + pad(res.w, res.h),
            )
            ||| !first.contains(i) && each[i] == neutral() && begins(
                filters,
                scale(res.w, res.h) + seq![','] + pad(res.w, res.h),
            )
            ||| !first.contains(i) && each[i] != neutral() && (each[i].chain(13) matches Some(c)
                && begins(
                filters,
                scale(res.w, res.h) + seq![','] + c + seq![','] + pad(res.w, res.h),
            ))
        }),
        left_to_adjust(each, all) is None <==> differs(each, all),
        each[i] != all ==> left_to_adjust(each, all) is None,
{
    each_photo_is_adjusted_once(each, all, i);
    adjustments_stand_between_scaling_and_bars(each[i], res, motion, fps);
}

proof fn lemma_graph_ends(pic: Seq<char>, steps: Seq<char>, n: Seq<char>, end: Seq<char>)
    ensures
        ({
            let whole = "[0:v]"@ + pic + "[v0];"@ + steps + "[v"@ + n + "]"@ + end + "[vout]"@;
            begins(whole, "[0:v]"@ + pic) && ends(whole, end + "[vout]"@)
        }),
{
    broadcast use crate::text::following_texts_go_together;

    let whole = "[0:v]"@ + pic + "[v0];"@ + steps + "[v"@ + n + "]"@ + end + "[vout]"@;
    assert(whole == ("[0:v]"@ + pic) + ("[v0];"@ + steps + "[v"@ + n + "]"@ + end + "[vout]"@));
    assert(whole == ("[0:v]"@ + pic + "[v0];"@ + steps + "[v"@ + n + "]"@) + (end + "[vout]"@));
}

proof fn lemma_chain_ends(pic: Seq<char>, drawn: Seq<char>, end: Seq<char>)
    ensures
        begins(pic + drawn + seq![','] + end, pic),
        ends(pic + drawn + seq![','] + end, seq![','] + end),
{
    assert(pic + drawn + seq![','] + end =~= pic + (drawn + seq![','] + end));
    assert(pic + drawn + seq![','] + end =~= (pic + drawn) + (seq![','] + end));
}

/// The filters of a video are those of its pictures, then the captions if there are any,
/// then those at the end. A graph is made exactly for captions of which one is turned.
pub proof fn filters_go_from_picture_to_ending(
    adj: Option<Adjustments>,
    motion: Motion,
    fps: u32,
    look: Option<LookView>,
    canvas: CanvasView,
    layers: Seq<LayerView>,
)
    ensures
        ({
            let f = whole_filter(adj, motion, fps, look, canvas, layers);
            let end = ending(motion, shown_for(fps, motion.ken_burns));
            let pic = picture(adj, canvas.res, motion, fps);
            &&& f.is_graph <==> look is Some && (exists|k: int|
                0 <= k < layers.len() && is_turned((#[trigger] layers[k]).rot))
            &&& f.is_graph ==> begins(f.text, "[0:v]"@ + pic) && ends(f.text, end + "[vout]"@)
            &&& !f.is_graph ==> begins(f.text, pic) && ends(f.text, seq![','] + end)
            &&& look is None ==> f.text == pic + seq![','] + end
        }),
{
    let f = whole_filter(adj, motion, fps, look, canvas, layers);
    let end = ending(motion, shown_for(fps, motion.ken_burns));
    let pic = picture(adj, canvas.res, motion, fps);
    assert(","@ =~= seq![',']) by {
        reveal_strlit(",");
    }
    match look {
        Some(l) => {
            if any_turned(layers) {
                lemma_graph_ends(pic, graph_steps(l, canvas, layers), dec(layers.len()), end);
            } else {
                lemma_chain_ends(pic, plain_layers(l, layers), end);
            }
        },
        None => {
            lemma_chain_ends(pic, seq![], end);
            assert(pic + Seq::<char>::empty() =~= pic);
        },
    }
}

/// A failure says what failed and all that was logged, one line after the other; without
/// a log it says only what failed.
pub proof fn failure_tells_what_was_logged(what: Seq<char>, log: Seq<Seq<char>>, i: int)
    requires
        0 <= i < log.len(),
    ensures
        begins(failure_text(what, log), what),
        has_part(failure_text(what, log), log[i]),
        failure_text(what, log.take(0)) == what,
        begins(conversion_failure(log), "FFmpeg 轉換失敗"@),
        has_part(conversion_failure(log), log[i]),
        conversion_failure(log.take(0)) == "FFmpeg 轉換失敗"@,
{
    let t = joined(log, "\n"@);
    joining_keeps_each_text(log, "\n"@, i);
    let (a, b) = choose|a: Seq<char>, b: Seq<char>| t == #[trigger] (a + log[i] + b);
    assert(failure_text(what, log) =~= what + ("："@ + t));
    assert(failure_text(what, log) =~= (what + "："@ + a) + log[i] + b);
    let c = "FFmpeg 轉換失敗"@;
    let d = "FFmpeg 轉換失敗："@;
    assert(d =~= c + "："@) by {
        reveal_strlit("FFmpeg 轉換失敗");
        reveal_strlit("FFmpeg 轉換失敗：");
        reveal_strlit("：");
    }
    if t.len() == 0 {
        assert(a.len() + log[i].len() + b.len() == 0);
        assert(c =~= c + Seq::<char>::empty());
        assert(c =~= c + log[i] + Seq::<char>::empty());
    } else {
        assert(conversion_failure(log) =~= c + ("："@ + t));
        assert(conversion_failure(log) =~= (d + a) + log[i] + b);
    }
    assert(joined(log.take(0), "\n"@) =~= seq![]);
}

/// Each encoder of the video gets its own quality and speed.
pub proof fn encoders_get_their_quality(c: CommandView)
    ensures
        c.format == OutputFormat::Webm ==> given(c.args(), "-b:v"@, "0"@) && given(
            c.args(),
            "-crf"@,
            "30"@,
        ) && given(c.args(), "-cpu-used"@, "5"@) && given(c.args(), "-row-mt"@, "1"@),
        c.format != OutputFormat::Webm && c.encoder == H264Encoder::Software ==> given(
            c.args(),
            "-preset"@,
            "veryfast"@,
        ) && given(c.args(), "-crf"@, "18"@),
        c.format != OutputFormat::Webm && c.encoder == H264Encoder::Nvenc ==> given(
            c.args(),
            "-preset"@,
            "p4"@,
        ) && given(c.args(), "-rc"@, "vbr"@) && given(c.args(), "-cq"@, "23"@) && given(
            c.args(),
            "-b:v"@,
            "0"@,
        ),
        c.format != OutputFormat::Webm && c.encoder == H264Encoder::Qsv ==> given(
            c.args(),
            "-global_quality"@,
            "23"@,
        ),
        c.format != OutputFormat::Webm && c.encoder == H264Encoder::Amf ==> given(
            c.args(),
            "-quality"@,
            "balanced"@,
        ) && given(c.args(), "-rc"@, "cqp"@) && given(c.args(), "-qp_i"@, "22"@) && given(
            c.args(),
            "-qp_p"@,
            "22"@,
        ),
{
    let k = codec_for(c.format, c.encoder);
    assert forall|i: int| 0 <= i < k.len() - 1 implies given(c.args(), #[trigger] k[i], k[i + 1]) by {
        lemma_given(c, k[i], k[i + 1]);
    }
    assert(given(c.args(), k[2], k[3]));
    if k.len() > 4 {
        assert(given(c.args(), k[4], k[5]));
    }
    if k.len() > 6 {
        assert(given(c.args(), k[6], k[7]));
    }
    if k.len() > 8 {
        assert(given(c.args(), k[8], k[9]));
    }
}

} // verus!
