//! The conversion as a whole: what is checked before it, the ffmpeg command, and what is
//! done when it fails.

use crate::adjust::{neutral, Adjustments};
use crate::drawtext::{CaptionLook, LookView};
use crate::editor::clone_texts;
use crate::graph::{
    any_turned, chain_of, ending, graph_of, layer_views, picture, picture_filter, video_ending,
    video_filter, Canvas, CanvasView, Layer, LayerView, Motion, VideoFilter,
};
use crate::options::{str_views, H264Encoder, OutputFormat};
use crate::project::{fact_views, FactView, FileFact};
use crate::text::{dec, join, joined, push_dec, text_view, texts};
use crate::timing::shown_for;
use vstd::prelude::*;

verus! {

/// The first file from place `i` on that is not there.
pub open spec fn first_absent(facts: Seq<FactView>, i: int) -> Option<Seq<char>>
    decreases facts.len() - i,
{
    if i < 0 || i >= facts.len() {
        None
    } else if !facts[i].is_file {
        Some(facts[i].name)
    } else {
        first_absent(facts, i + 1)
    }
}

/// Why a conversion cannot start: there are no photos, or one of them or the music is
/// not there.
pub open spec fn obstacle(photos: Seq<FactView>, music: Option<FactView>) -> Option<Seq<char>> {
    if photos.len() == 0 {
        Some("沒有照片可轉換"@)
    } else {
        match first_absent(photos, 0) {
            Some(name) => Some(
                "找不到照片檔案「"@ + name + "」，可能已被移除或所在磁碟未連接"@,
            ),
            None => match music {
                Some(m) => if m.is_file {
                    None
                } else {
                    Some(
                        "找不到背景音樂檔案「"@ + m.name
                            + "」，可能已被移除或所在磁碟未連接"@,
                    )
                },
                None => None,
            },
        }
    }
}

/// Why a conversion cannot start, if it cannot.
pub fn check_inputs(photos: &Vec<FileFact>, music: Option<&FileFact>) -> (r: Option<String>)
    ensures
        text_view(r) == obstacle(
            fact_views(photos@),
            match music {
                Some(m) => Some(m@),
                None => None,
            },
        ),
{
    if photos.len() == 0 {
        return Some("沒有照片可轉換".to_owned());
    }
    let ghost v = fact_views(photos@);
    let mut i: usize = 0;
    while i < photos.len()
        invariant
            i <= photos.len(),
            v == fact_views(photos@),
            photos.len() > 0,
            first_absent(v, 0) == first_absent(v, i as int),
        decreases photos.len() - i,
    {
        assert(v[i as int] == photos[i as int]@);
        if !photos[i].is_file {
            let mut r: String = "找不到照片檔案「".to_owned();
            r.append(photos[i].name.as_str());
            r.append("」，可能已被移除或所在磁碟未連接");
            return Some(r);
        }
        i += 1;
    }
    match music {
        Some(m) => {
            if m.is_file {
                None
            } else {
                let mut r: String = "找不到背景音樂檔案「".to_owned();
                r.append(m.name.as_str());
                r.append("」，可能已被移除或所在磁碟未連接");
                Some(r)
            }
        },
        None => None,
    }
}

/// Whether one of the photos looks different from `all`.
pub open spec fn differs(each: Seq<Adjustments>, all: Adjustments) -> bool {
    exists|i: int| 0 <= i < each.len() && #[trigger] each[i] != all
}

/// The places of the photos that are adjusted beforehand, one by one: those that are
/// adjusted at all, if not all photos look the same.
pub open spec fn beforehand(each: Seq<Adjustments>, all: Adjustments, n: int) -> Seq<int>
    decreases n,
{
    if n <= 0 || !differs(each, all) {
        seq![]
    } else if each[n - 1] == neutral() {
        beforehand(each, all, n - 1)
    } else {
        beforehand(each, all, n - 1).push(n - 1)
    }
}

/// What is left for the filters of the video to adjust.
pub open spec fn left_to_adjust(each: Seq<Adjustments>, all: Adjustments) -> Option<Adjustments> {
    if differs(each, all) {
        None
    } else {
        Some(all)
    }
}

/// Whether one of the photos looks different from `all`.
pub fn has_per_photo(each: &Vec<Adjustments>, all: Adjustments) -> (r: bool)
    ensures
        r == differs(each@, all),
{
    let mut i: usize = 0;
    while i < each.len()
        invariant
            i <= each.len(),
            forall|k: int| 0 <= k < i ==> each[k] == all,
        decreases each.len() - i,
    {
        if each[i] != all {
            return true;
        }
        i += 1;
    }
    false
}

/// The places of the photos that are adjusted beforehand, one by one.
pub fn photos_to_adjust(each: &Vec<Adjustments>, all: Adjustments) -> (r: Vec<usize>)
    ensures
        r@.map_values(|i: usize| i as int) == beforehand(each@, all, each.len() as int),
{
    let mut r: Vec<usize> = Vec::new();
    assert(r@.map_values(|i: usize| i as int) =~= seq![]);
    if !has_per_photo(each, all) {
        return r;
    }
    let mut i: usize = 0;
    while i < each.len()
        invariant
            i <= each.len(),
            differs(each@, all),
            r@.map_values(|i: usize| i as int) == beforehand(each@, all, i as int),
        decreases each.len() - i,
    {
        let ghost before = r@.map_values(|i: usize| i as int);
        if !each[i].is_neutral() {
            r.push(i);
            assert(r@.map_values(|i: usize| i as int) =~= before.push(i as int));
        }
        i += 1;
    }
    r
}

/// The files that the video is made of: the photos, but the first `n` of those at the
/// places `at` by what they became when they were adjusted beforehand.
pub open spec fn sources_for(
    photos: Seq<Seq<char>>,
    at: Seq<int>,
    adjusted: Seq<Seq<char>>,
    n: int,
) -> Seq<Seq<char>>
    decreases n,
{
    if n <= 0 {
        photos
    } else {
        sources_for(photos, at, adjusted, n - 1).update(at[n - 1], adjusted[n - 1])
    }
}

/// The files that the video is made of: the photos, but those at the places `at` by what
/// they became when they were adjusted beforehand.
pub fn list_sources(photos: &Vec<String>, at: &Vec<usize>, adjusted: &Vec<String>) -> (r: Vec<
    String,
>)
    requires
        at.len() == adjusted.len(),
        forall|k: int| 0 <= k < at.len() ==> #[trigger] at[k] < photos.len(),
    ensures
        texts(r@) == sources_for(
            texts(photos@),
            at@.map_values(|i: usize| i as int),
            texts(adjusted@),
            at.len() as int,
        ),
{
    let ghost p = texts(photos@);
    let ghost a = at@.map_values(|i: usize| i as int);
    let ghost t = texts(adjusted@);
    let mut r = clone_texts(photos);
    assert(texts(r@).len() == p.len());
    let mut k: usize = 0;
    while k < at.len()
        invariant
            k <= at.len(),
            at.len() == adjusted.len(),
            forall|k: int| 0 <= k < at.len() ==> #[trigger] at[k] < photos.len(),
            r.len() == photos.len(),
            a == at@.map_values(|i: usize| i as int),
            t == texts(adjusted@),
            texts(r@) == sources_for(p, a, t, k as int),
        decreases at.len() - k,
    {
        let ghost before = texts(r@);
        assert(a[k as int] == at[k as int]);
        assert(t[k as int] == adjusted[k as int]@);
        r.set(at[k], adjusted[k].clone());
        assert(texts(r@) =~= before.update(a[k as int], t[k as int]));
        k += 1;
    }
    r
}

/// What is told while photo `k` of `n` is being adjusted.
pub fn adjusting_status(k: usize, n: usize) -> (r: String)
    requires
        k < usize::MAX,
    ensures
        r@ == "套用照片調色…（"@ + dec((k + 1) as nat) + "/"@ + dec(n as nat) + "）"@,
{
    let mut r: String = "套用照片調色…（".to_owned();
    push_dec(&mut r, (k + 1) as u128);
    r.append("/");
    push_dec(&mut r, n as u128);
    r.append("）");
    r
}

/// The filters of a whole video.
pub struct FilterView {
    pub is_graph: bool,
    pub text: Seq<char>,
}

impl View for VideoFilter {
    type V = FilterView;

    open spec fn view(&self) -> FilterView {
        match *self {
            VideoFilter::Chain(s) => FilterView { is_graph: false, text: s@ },
            VideoFilter::Graph(s) => FilterView { is_graph: true, text: s@ },
        }
    }
}

/// The filters of a whole video; without a font there are no captions.
pub open spec fn whole_filter(
    adj: Option<Adjustments>,
    motion: Motion,
    fps: u32,
    look: Option<LookView>,
    canvas: CanvasView,
    layers: Seq<LayerView>,
) -> FilterView {
    let pictures = picture(adj, canvas.res, motion, fps);
    let end = ending(motion, shown_for(fps, motion.ken_burns));
    match look {
        Some(l) => if any_turned(layers) {
            FilterView { is_graph: true, text: graph_of(pictures, l, canvas, layers, end) }
        } else {
            FilterView { is_graph: false, text: chain_of(pictures, l, layers, end) }
        },
        None => FilterView { is_graph: false, text: pictures + ","@ + end },
    }
}

/// The filters of a whole video; without a font there are no captions.
pub fn conversion_filter(
    adj: Option<Adjustments>,
    motion: Motion,
    fps: u32,
    look: Option<&CaptionLook>,
    canvas: &Canvas,
    layers: &Vec<Layer>,
) -> (r: VideoFilter)
    requires
        1 <= fps <= 60,
        layers.len() < usize::MAX,
    ensures
        r@ == whole_filter(
            adj,
            motion,
            fps,
            match look {
                Some(l) => Some(l@),
                None => None,
            },
            canvas@,
            layer_views(layers@),
        ),
{
    let pictures = picture_filter(adj, canvas.res, motion, fps);
    let end = video_ending(motion, fps);
    match look {
        Some(l) => video_filter(pictures.as_str(), l, canvas, layers, end.as_str()),
        None => {
            let mut r = pictures;
            r.append(",");
            r.append(end.as_str());
            VideoFilter::Chain(r)
        },
    }
}

/// The arguments that make ffmpeg encode the video.
pub open spec fn codec_for(format: OutputFormat, encoder: H264Encoder) -> Seq<Seq<char>> {
    if format == OutputFormat::Webm {
        seq![
            "-c:v"@,
            "libvpx-vp9"@,
            "-b:v"@,
            "0"@,
            "-crf"@,
            "30"@,
            "-cpu-used"@,
            "5"@,
            "-row-mt"@,
            "1"@,
        ]
    } else {
        encoder.codec_args_spec()
    }
}

/// The arguments that make ffmpeg encode the video.
pub fn video_codec(format: OutputFormat, encoder: H264Encoder) -> (r: Vec<&'static str>)
    ensures
        str_views(r@) == codec_for(format, encoder),
{
    if format == OutputFormat::Webm {
        let r = vec![
            "-c:v", "libvpx-vp9", "-b:v", "0", "-crf", "30", "-cpu-used", "5", "-row-mt", "1",
        ];
        assert(str_views(r@) =~= codec_for(format, encoder));
        r
    } else {
        encoder.codec_args()
    }
}

/// What is told while the video is being encoded.
pub fn encoding_status(format: OutputFormat, encoder: H264Encoder) -> (r: String)
    ensures
        r@ == "轉換中…（編碼器："@ + (if format == OutputFormat::Webm {
            "VP9"@
        } else {
            encoder.display_name_spec()
        }) + "）"@,
{
    let mut r: String = "轉換中…（編碼器：".to_owned();
    if format == OutputFormat::Webm {
        r.append("VP9");
    } else {
        r.append(encoder.display_name());
    }
    r.append("）");
    r
}

/// The parts of the ffmpeg command.
pub struct CommandParts {
    /// How many threads the filters use, in decimal notation.
    pub threads: String,
    /// The file with the list of photos.
    pub list: String,
    /// The music file and its filters.
    pub music: Option<(String, String)>,
    pub filter: VideoFilter,
    pub out_fps: u32,
    /// The length of the video in seconds, in decimal notation.
    pub secs: String,
    pub format: OutputFormat,
    pub encoder: H264Encoder,
    pub output: String,
}

/// What the parts of the command stand for.
pub struct CommandView {
    pub threads: Seq<char>,
    pub list: Seq<char>,
    pub music: Option<(Seq<char>, Seq<char>)>,
    pub filter: FilterView,
    pub out_fps: u32,
    pub secs: Seq<char>,
    pub format: OutputFormat,
    pub encoder: H264Encoder,
    pub output: Seq<char>,
}

impl View for CommandParts {
    type V = CommandView;

    open spec fn view(&self) -> CommandView {
        CommandView {
            threads: self.threads@,
            list: self.list@,
            music: match self.music {
                Some((path, filter)) => Some((path@, filter@)),
                None => None,
            },
            filter: self.filter@,
            out_fps: self.out_fps,
            secs: self.secs@,
            format: self.format,
            encoder: self.encoder,
            output: self.output@,
        }
    }
}

impl CommandView {
    /// The inputs: the photos, and the music over and over.
    pub open spec fn inputs(self) -> Seq<Seq<char>> {
        let photos = seq![
            "-y"@,
            "-filter_threads"@,
            self.threads,
            "-f"@,
            "concat"@,
            "-safe"@,
            "0"@,
            "-i"@,
            self.list,
        ];
        match self.music {
            Some((path, _)) => photos + seq!["-stream_loop"@, "-1"@, "-i"@, path],
            None => photos,
        }
    }

    /// The filters of the video, its frame rate and its length.
    pub open spec fn video(self) -> Seq<Seq<char>> {
        (if self.filter.is_graph {
            seq!["-filter_complex"@, self.filter.text, "-map"@, "[vout]"@]
        } else {
            seq!["-vf"@, self.filter.text]
        }) + seq!["-r"@, dec(self.out_fps as nat), "-t"@, self.secs]
    }

    /// The music: where it comes from, its filters and its encoder.
    pub open spec fn audio(self) -> Seq<Seq<char>> {
        match self.music {
            Some((_, filter)) => (if self.filter.is_graph {
                seq!["-map"@, "1:a"@]
            } else {
                seq!["-map"@, "0:v"@, "-map"@, "1:a"@]
            }) + seq!["-af"@, filter] + (if self.format == OutputFormat::Webm {
                seq!["-c:a"@, "libopus"@, "-b:a"@, "128k"@]
            } else {
                seq!["-c:a"@, "aac"@, "-b:a"@, "192k"@]
            }),
            None => seq![],
        }
    }

    /// All arguments of ffmpeg.
    pub open spec fn args(self) -> Seq<Seq<char>> {
        self.inputs() + self.video() + self.audio() + codec_for(self.format, self.encoder)
            + seq![self.output]
    }
}

fn push_all(to: &mut Vec<String>, from: Vec<&str>)
    ensures
        texts(final(to)@) == texts(old(to)@) + str_views(from@),
{
    let ghost start = texts(to@);
    let ghost v = str_views(from@);
    let mut i: usize = 0;
    assert(start + v.take(0) =~= start);
    while i < from.len()
        invariant
            i <= from.len(),
            v == str_views(from@),
            texts(to@) == start + v.take(i as int),
        decreases from.len() - i,
    {
        let ghost before = to@;
        to.push(from[i].to_owned());
        assert(texts(to@) =~= texts(before).push(v[i as int]));
        assert(start + v.take(i + 1) =~= (start + v.take(i as int)).push(v[i as int]));
        i += 1;
    }
    assert(v.take(v.len() as int) =~= v);
}

impl CommandParts {
    fn input_args(&self) -> (r: Vec<String>)
        ensures
            texts(r@) == self@.inputs(),
    {
        let mut r: Vec<String> = Vec::new();
        let first = vec![
            "-y",
            "-filter_threads",
            self.threads.as_str(),
            "-f",
            "concat",
            "-safe",
            "0",
            "-i",
            self.list.as_str(),
        ];
        push_all(&mut r, first);
        match &self.music {
            Some(m) => {
                push_all(&mut r, vec!["-stream_loop", "-1", "-i", m.0.as_str()]);
            },
            None => {},
        }
        assert(texts(r@) =~= self@.inputs());
        r
    }

    fn push_video(&self, to: &mut Vec<String>)
        ensures
            texts(final(to)@) == texts(old(to)@) + self@.video(),
    {
        let ghost start = texts(to@);
        match &self.filter {
            VideoFilter::Graph(s) => {
                push_all(to, vec!["-filter_complex", s.as_str(), "-map", "[vout]"]);
            },
            VideoFilter::Chain(s) => {
                push_all(to, vec!["-vf", s.as_str()]);
            },
        }
        let mut rate: String = String::new();
        push_dec(&mut rate, self.out_fps as u128);
        assert(rate@ =~= dec(self.out_fps as nat));
        push_all(to, vec!["-r", rate.as_str(), "-t", self.secs.as_str()]);
        assert(texts(to@) =~= start + self@.video());
    }

    fn push_audio(&self, to: &mut Vec<String>)
        ensures
            texts(final(to)@) == texts(old(to)@) + self@.audio(),
    {
        let ghost start = texts(to@);
        match &self.music {
            Some(m) => {
                match &self.filter {
                    VideoFilter::Graph(_) => push_all(to, vec!["-map", "1:a"]),
                    VideoFilter::Chain(_) => push_all(to, vec!["-map", "0:v", "-map", "1:a"]),
                }
                push_all(to, vec!["-af", m.1.as_str()]);
                if self.format == OutputFormat::Webm {
                    push_all(to, vec!["-c:a", "libopus", "-b:a", "128k"]);
                } else {
                    push_all(to, vec!["-c:a", "aac", "-b:a", "192k"]);
                }
            },
            None => {},
        }
        assert(texts(to@) =~= start + self@.audio());
    }

    /// All arguments of ffmpeg.
    pub fn args(&self) -> (r: Vec<String>)
        ensures
            texts(r@) == self@.args(),
    {
        let mut r = self.input_args();
        self.push_video(&mut r);
        self.push_audio(&mut r);
        push_all(&mut r, video_codec(self.format, self.encoder));
        push_all(&mut r, vec![self.output.as_str()]);
        assert(texts(r@) =~= self@.args());
        r
    }
}

/// The arguments that make ffmpeg write one picture, with filters, to a file.
pub fn still_args(input: &str, filter: &str, output: &str) -> (r: Vec<String>)
    ensures
        texts(r@) == seq![
            "-y"@,
            "-i"@,
            input@,
            "-vf"@,
            filter@,
            "-frames:v"@,
            "1"@,
            output@,
        ],
{
    let mut r: Vec<String> = Vec::new();
    push_all(&mut r, vec!["-y", "-i", input, "-vf", filter, "-frames:v", "1", output]);
    assert(texts(r@) =~= seq![
        "-y"@,
        "-i"@,
        input@,
        "-vf"@,
        filter@,
        "-frames:v"@,
        "1"@,
        output@,
    ]);
    r
}

/// The arguments that make ffmpeg try an encoder on a short black film.
pub fn encoder_test_args(encoder: &str) -> (r: Vec<String>)
    ensures
        texts(r@) == seq![
            "-hide_banner"@,
            "-f"@,
            "lavfi"@,
            "-i"@,
            "color=black:s=640x360:d=0.2"@,
            "-pix_fmt"@,
            "yuv420p"@,
            "-c:v"@,
            encoder@,
            "-f"@,
            "null"@,
            "-"@,
        ],
{
    let mut r: Vec<String> = Vec::new();
    push_all(
        &mut r,
        vec![
            "-hide_banner",
            "-f",
            "lavfi",
            "-i",
            "color=black:s=640x360:d=0.2",
            "-pix_fmt",
            "yuv420p",
            "-c:v",
            encoder,
            "-f",
            "null",
            "-",
        ],
    );
    assert(texts(r@) =~= seq![
        "-hide_banner"@,
        "-f"@,
        "lavfi"@,
        "-i"@,
        "color=black:s=640x360:d=0.2"@,
        "-pix_fmt"@,
        "yuv420p"@,
        "-c:v"@,
        encoder@,
        "-f"@,
        "null"@,
        "-"@,
    ]);
    r
}

/// A failure and, if there is a log, what it says.
pub open spec fn failure_text(what: Seq<char>, log: Seq<Seq<char>>) -> Seq<char> {
    if log.len() == 0 {
        what
    } else {
        what + "："@ + joined(log, "\n"@)
    }
}

/// What is told when ffmpeg failed to make the video.
pub open spec fn conversion_failure(log: Seq<Seq<char>>) -> Seq<char> {
    if joined(log, "\n"@).len() == 0 {
        "FFmpeg 轉換失敗"@
    } else {
        "FFmpeg 轉換失敗："@ + joined(log, "\n"@)
    }
}

/// What is told when ffmpeg failed to make the video.
pub fn conversion_error(log: &Vec<String>) -> (r: String)
    ensures
        r@ == conversion_failure(texts(log@)),
{
    let detail = join(log, "\n");
    if detail.as_str().is_empty() {
        "FFmpeg 轉換失敗".to_owned()
    } else {
        let mut r: String = "FFmpeg 轉換失敗：".to_owned();
        r.append(detail.as_str());
        r
    }
}

/// What is told when a photo could not be adjusted.
pub fn adjust_error(name: &str, log: &Vec<String>) -> (r: String)
    ensures
        r@ == failure_text("照片「"@ + name@ + "」調色失敗"@, texts(log@)),
{
    let mut r: String = "照片「".to_owned();
    r.append(name);
    r.append("」調色失敗");
    if log.len() > 0 {
        r.append("：");
        r.append(join(log, "\n").as_str());
    }
    r
}

/// What is told when a preview could not be rendered.
pub fn preview_error(log: &Vec<String>) -> (r: String)
    ensures
        r@ == (if log.len() == 0 {
            "預覽渲染失敗"@
        } else {
            joined(texts(log@), "\n"@)
        }),
{
    if log.len() == 0 {
        "預覽渲染失敗".to_owned()
    } else {
        join(log, "\n")
    }
}

proof fn lemma_beforehand(each: Seq<Adjustments>, all: Adjustments, n: int, i: int)
    requires
        differs(each, all),
        0 <= n <= each.len(),
    ensures
        beforehand(each, all, n).contains(i) <==> 0 <= i < n && each[i] != neutral(),
    decreases n,
{
    if n > 0 {
        lemma_beforehand(each, all, n - 1, i);
        let head = beforehand(each, all, n - 1);
        let whole = beforehand(each, all, n);
        if each[n - 1] != neutral() {
            assert(whole[whole.len() - 1] == n - 1);
            if head.contains(i) {
                let k = choose|k: int| 0 <= k < head.len() && head[k] == i;
                assert(whole[k] == i);
            }
            if whole.contains(i) {
                let k = choose|k: int| 0 <= k < whole.len() && whole[k] == i;
                if k < head.len() {
                    assert(head[k] == i);
                }
            }
        }
    }
}

proof fn lemma_beforehand_in_order(each: Seq<Adjustments>, all: Adjustments, n: int)
    requires
        0 <= n <= each.len(),
    ensures
        forall|k: int|
            0 <= k < beforehand(each, all, n).len() ==> 0 <= #[trigger] beforehand(
                each,
                all,
                n,
            )[k] < n,
        forall|j: int, k: int|
            0 <= j < k < beforehand(each, all, n).len() ==> #[trigger] beforehand(each, all, n)[j]
                < #[trigger] beforehand(each, all, n)[k],
    decreases n,
{
    if n > 0 && differs(each, all) {
        lemma_beforehand_in_order(each, all, n - 1);
        let head = beforehand(each, all, n - 1);
        let list = beforehand(each, all, n);
        assert forall|k: int| 0 <= k < list.len() implies 0 <= #[trigger] list[k] < n by {
            if k < head.len() {
                assert(list[k] == head[k]);
            }
        }
        assert forall|j: int, k: int| 0 <= j < k < list.len() implies #[trigger] list[j]
            < #[trigger] list[k] by {
            assert(list[j] == head[j]);
            if k < head.len() {
                assert(list[k] == head[k]);
            }
        }
    }
}

proof fn lemma_sources(
    photos: Seq<Seq<char>>,
    at: Seq<int>,
    adjusted: Seq<Seq<char>>,
    n: int,
    i: int,
)
    requires
        0 <= n <= at.len(),
        at.len() == adjusted.len(),
        0 <= i < photos.len(),
        forall|k: int| 0 <= k < at.len() ==> 0 <= #[trigger] at[k] < photos.len(),
        forall|j: int, k: int| 0 <= j < k < at.len() ==> #[trigger] at[j] < #[trigger] at[k],
    ensures
        sources_for(photos, at, adjusted, n).len() == photos.len(),
        (forall|k: int| 0 <= k < n ==> #[trigger] at[k] != i) ==> sources_for(
            photos,
            at,
            adjusted,
            n,
        )[i] == photos[i],
        forall|k: int|
            0 <= k < n && #[trigger] at[k] == i ==> sources_for(photos, at, adjusted, n)[i]
                == adjusted[k],
    decreases n,
{
    if n > 0 {
        lemma_sources(photos, at, adjusted, n - 1, i);
        assert(at[n - 1] == at[n - 1]);
    }
}

/// The video is made of each photo in its place, or of what it became: photo `i` itself
/// if it was not adjusted beforehand, and otherwise what was made of it.
pub proof fn video_is_made_of_its_photos(
    photos: Seq<Seq<char>>,
    each: Seq<Adjustments>,
    all: Adjustments,
    adjusted: Seq<Seq<char>>,
    i: int,
)
    requires
        photos.len() == each.len(),
        adjusted.len() == beforehand(each, all, each.len() as int).len(),
        0 <= i < photos.len(),
    ensures
        ({
            let at = beforehand(each, all, each.len() as int);
            let sources = sources_for(photos, at, adjusted, at.len() as int);
            &&& sources.len() == photos.len()
            &&& !at.contains(i) ==> sources[i] == photos[i]
            &&& forall|k: int|
                0 <= k < at.len() && #[trigger] at[k] == i ==> sources[i] == adjusted[k]
        }),
{
    let at = beforehand(each, all, each.len() as int);
    lemma_beforehand_in_order(each, all, each.len() as int);
    lemma_sources(photos, at, adjusted, at.len() as int, i);
    if !at.contains(i) {
        assert forall|k: int| 0 <= k < at.len() implies #[trigger] at[k] != i by {
            assert(at.contains(at[k]));
        }
    }
}

/// Each photo is adjusted exactly once, and as it is to look: beforehand, or by the
/// filters of the video.
pub proof fn each_photo_is_adjusted_once(each: Seq<Adjustments>, all: Adjustments, i: int)
    requires
        0 <= i < each.len(),
    ensures
        left_to_adjust(each, all) is None ==> (beforehand(each, all, each.len() as int).contains(i)
            <==> each[i] != neutral()),
        left_to_adjust(each, all) matches Some(a) ==> a == each[i] && !beforehand(
            each,
            all,
            each.len() as int,
        ).contains(i),
{
    if differs(each, all) {
        lemma_beforehand(each, all, each.len() as int, i);
    }
}

} // verus!
