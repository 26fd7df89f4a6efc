//! What the user chooses for the output: container, resolution, transition, encoder.

use crate::text::{push_dec, same};
use vstd::prelude::*;

verus! {

/// The views of a list of string slices.
pub open spec fn str_views(v: Seq<&str>) -> Seq<Seq<char>> {
    Seq::new(v.len(), |i: int| v[i]@)
}

/// Container and codec of the video.
#[derive(Clone, Copy, PartialEq, Eq, Structural, Debug)]
pub enum OutputFormat {
    Mp4,
    Mkv,
    Mov,
    Avi,
    Webm,
}

impl OutputFormat {
    /// The file extension that stands for the format.
    pub open spec fn ext_spec(self) -> Seq<char> {
        match self {
            OutputFormat::Mp4 => "mp4"@,
            OutputFormat::Mkv => "mkv"@,
            OutputFormat::Mov => "mov"@,
            OutputFormat::Avi => "avi"@,
            OutputFormat::Webm => "webm"@,
        }
    }

    /// The name that the user sees.
    pub fn label(&self) -> (r: &'static str)
        ensures
            r@ == (match *self {
                OutputFormat::Mp4 => "MP4 (H.264)"@,
                OutputFormat::Mkv => "MKV (H.264)"@,
                OutputFormat::Mov => "MOV (H.264)"@,
                OutputFormat::Avi => "AVI (H.264)"@,
                OutputFormat::Webm => "WebM (VP9)"@,
            }),
    {
        match self {
            OutputFormat::Mp4 => "MP4 (H.264)",
            OutputFormat::Mkv => "MKV (H.264)",
            OutputFormat::Mov => "MOV (H.264)",
            OutputFormat::Avi => "AVI (H.264)",
            OutputFormat::Webm => "WebM (VP9)",
        }
    }

    /// The file extension that stands for the format.
    pub fn ext(&self) -> (r: &'static str)
        ensures
            r@ == self.ext_spec(),
    {
        match self {
            OutputFormat::Mp4 => "mp4",
            OutputFormat::Mkv => "mkv",
            OutputFormat::Mov => "mov",
            OutputFormat::Avi => "avi",
            OutputFormat::Webm => "webm",
        }
    }

    /// All formats, in the order of the menu.
    pub fn all() -> (r: [OutputFormat; 5])
        ensures
            r@ == seq![
                OutputFormat::Mp4,
                OutputFormat::Mkv,
                OutputFormat::Mov,
                OutputFormat::Avi,
                OutputFormat::Webm,
            ],
    {
        [
            OutputFormat::Mp4,
            OutputFormat::Mkv,
            OutputFormat::Mov,
            OutputFormat::Avi,
            OutputFormat::Webm,
        ]
    }

    /// The format that `s` is the extension of.
    pub open spec fn from_ext_spec(s: Seq<char>) -> Option<OutputFormat> {
        if s == "mp4"@ {
            Some(OutputFormat::Mp4)
        } else if s == "mkv"@ {
            Some(OutputFormat::Mkv)
        } else if s == "mov"@ {
            Some(OutputFormat::Mov)
        } else if s == "avi"@ {
            Some(OutputFormat::Avi)
        } else if s == "webm"@ {
            Some(OutputFormat::Webm)
        } else {
            None
        }
    }

    /// Finds a format by its extension, letter for letter.
    pub fn from_ext(s: &str) -> (r: Option<Self>)
        ensures
            r == Self::from_ext_spec(s@),
    {
        if same(s, "mp4") {
            Some(OutputFormat::Mp4)
        } else if same(s, "mkv") {
            Some(OutputFormat::Mkv)
        } else if same(s, "mov") {
            Some(OutputFormat::Mov)
        } else if same(s, "avi") {
            Some(OutputFormat::Avi)
        } else if same(s, "webm") {
            Some(OutputFormat::Webm)
        } else {
            None
        }
    }
}

proof fn reveal_format_names()
    ensures
        "mp4"@ =~= seq!['m', 'p', '4'],
        "mkv"@ =~= seq!['m', 'k', 'v'],
        "mov"@ =~= seq!['m', 'o', 'v'],
        "avi"@ =~= seq!['a', 'v', 'i'],
        "webm"@ =~= seq!['w', 'e', 'b', 'm'],
{
    reveal_strlit("mp4");
    reveal_strlit("mkv");
    reveal_strlit("mov");
    reveal_strlit("avi");
    reveal_strlit("webm");
}

/// A format is found again by its own extension, and by no other text.
pub proof fn format_is_found_by_its_extension(f: OutputFormat, s: Seq<char>)
    ensures
        OutputFormat::from_ext_spec(s) == Some(f) <==> s == f.ext_spec(),
{
    reveal_format_names();
    assert("mp4"@[1] == 'p' && "mkv"@[1] == 'k' && "mov"@[1] == 'o' && "avi"@[1] == 'v');
    assert("mov"@[0] == 'm' && "avi"@[0] == 'a');
    assert("webm"@.len() == 4 && "mp4"@.len() == 3 && "mkv"@.len() == 3 && "mov"@.len() == 3
        && "avi"@.len() == 3);
}

/// Width and height of the video in pixels. The pair of zeros stands for the size of the
/// largest photo.
#[derive(Clone, Copy, PartialEq, Eq, Structural, Debug)]
pub struct Resolution {
    pub w: u32,
    pub h: u32,
}

/// The resolution that is set when nothing else is.
pub open spec fn full_hd() -> Resolution {
    Resolution { w: 1920, h: 1080 }
}

/// The resolutions of the menu.
pub open spec fn menu_resolutions() -> Seq<Resolution> {
    seq![
        Resolution { w: 1280, h: 720 },
        Resolution { w: 1920, h: 1080 },
        Resolution { w: 2560, h: 1440 },
        Resolution { w: 3840, h: 2160 },
        Resolution { w: 0, h: 0 },
    ]
}

impl Resolution {
    /// Whether the size is still to be taken from the photos.
    pub fn is_native(&self) -> (r: bool)
        ensures
            r == (self.w == 0),
    {
        self.w == 0
    }

    /// The name that the user sees.
    pub open spec fn label_spec(self) -> Seq<char> {
        if self.w == 0 && self.h == 0 {
            "原始像素（依最大照片）"@
        } else if self.w == 1280 && self.h == 720 {
            "HD 1280 × 720"@
        } else if self.w == 1920 && self.h == 1080 {
            "Full HD 1920 × 1080"@
        } else if self.w == 2560 && self.h == 1440 {
            "2K 2560 × 1440"@
        } else if self.w == 3840 && self.h == 2160 {
            "4K 3840 × 2160"@
        } else {
            crate::text::dec(self.w as nat) + " × "@ + crate::text::dec(self.h as nat)
        }
    }

    /// The name that the user sees.
    pub fn label(&self) -> (r: String)
        ensures
            r@ == self.label_spec(),
    {
        if self.w == 0 && self.h == 0 {
            "原始像素（依最大照片）".to_owned()
        } else if self.w == 1280 && self.h == 720 {
            "HD 1280 × 720".to_owned()
        } else if self.w == 1920 && self.h == 1080 {
            "Full HD 1920 × 1080".to_owned()
        } else if self.w == 2560 && self.h == 1440 {
            "2K 2560 × 1440".to_owned()
        } else if self.w == 3840 && self.h == 2160 {
            "4K 3840 × 2160".to_owned()
        } else {
            let mut r: String = String::new();
            push_dec(&mut r, self.w as u128);
            r.append(" × ");
            push_dec(&mut r, self.h as u128);
            assert(r@ =~= self.label_spec());
            r
        }
    }

    /// All resolutions, in the order of the menu.
    pub fn all() -> (r: [Resolution; 5])
        ensures
            r@ == menu_resolutions(),
    {
        [
            Resolution { w: 1280, h: 720 },
            Resolution { w: 1920, h: 1080 },
            Resolution { w: 2560, h: 1440 },
            Resolution { w: 3840, h: 2160 },
            Resolution { w: 0, h: 0 },
        ]
    }

    /// The resolution of the menu with this width and height; Full HD if there is none.
    pub open spec fn from_menu_spec(w: u32, h: u32) -> Resolution {
        if menu_resolutions().contains(Resolution { w, h }) {
            Resolution { w, h }
        } else {
            full_hd()
        }
    }

    /// The resolution of the menu with this width and height; Full HD if there is none.
    pub fn from_menu(w: u32, h: u32) -> (r: Resolution)
        ensures
            r == Self::from_menu_spec(w, h),
    {
        let wanted = Resolution { w, h };
        let menu = Resolution::all();
        let mut i: usize = 0;
        while i < 5
            invariant
                i <= 5,
                wanted == (Resolution { w, h }),
                menu@ == menu_resolutions(),
                forall|k: int| 0 <= k < i ==> menu_resolutions()[k] != wanted,
            decreases 5 - i,
        {
            if menu[i] == wanted {
                assert(menu_resolutions()[i as int] == wanted);
                return wanted;
            }
            i += 1;
        }
        Resolution { w: 1920, h: 1080 }
    }
}

/// What happens between two photos.
#[derive(Clone, Copy, PartialEq, Eq, Structural, Debug)]
pub enum Transition {
    Cut,
    FadeBlack,
}

impl Transition {
    /// The name that the user sees.
    pub fn label(&self) -> (r: &'static str)
        ensures
            r@ == (match *self {
                Transition::Cut => "無（直接切換）"@,
                Transition::FadeBlack => "淡入淡出"@,
            }),
    {
        match self {
            Transition::Cut => "無（直接切換）",
            Transition::FadeBlack => "淡入淡出",
        }
    }

    /// All transitions, in the order of the menu.
    pub fn all() -> (r: [Transition; 2])
        ensures
            r@ == seq![Transition::Cut, Transition::FadeBlack],
    {
        [Transition::Cut, Transition::FadeBlack]
    }

    /// The name in project files.
    pub open spec fn id_spec(self) -> Seq<char> {
        match self {
            Transition::Cut => "none"@,
            Transition::FadeBlack => "fade_black"@,
        }
    }

    /// The name in project files.
    pub fn id(&self) -> (r: &'static str)
        ensures
            r@ == self.id_spec(),
    {
        match self {
            Transition::Cut => "none",
            Transition::FadeBlack => "fade_black",
        }
    }

    /// The transition with this name in project files.
    pub open spec fn from_id_spec(s: Seq<char>) -> Option<Transition> {
        if s == "none"@ {
            Some(Transition::Cut)
        } else if s == "fade_black"@ {
            Some(Transition::FadeBlack)
        } else {
            None
        }
    }

    /// Finds a transition by its name in project files.
    pub fn from_id(s: &str) -> (r: Option<Self>)
        ensures
            r == Self::from_id_spec(s@),
    {
        if same(s, "none") {
            Some(Transition::Cut)
        } else if same(s, "fade_black") {
            Some(Transition::FadeBlack)
        } else {
            None
        }
    }
}

/// A transition is found again by its own name, and by no other text.
pub proof fn transition_is_found_by_its_id(t: Transition, s: Seq<char>)
    ensures
        Transition::from_id_spec(s) == Some(t) <==> s == t.id_spec(),
{
    reveal_strlit("none");
    reveal_strlit("fade_black");
    assert("none"@.len() == 4 && "fade_black"@.len() == 10);
}

/// An H.264 encoder of ffmpeg.
#[derive(Clone, Copy, PartialEq, Eq, Structural, Debug)]
pub enum H264Encoder {
    Nvenc,
    Qsv,
    Amf,
    Software,
}

impl H264Encoder {
    /// The name that the user sees.
    pub open spec fn display_name_spec(self) -> Seq<char> {
        match self {
            H264Encoder::Nvenc => "NVIDIA NVENC（硬體加速）"@,
            H264Encoder::Qsv => "Intel Quick Sync（硬體加速）"@,
            H264Encoder::Amf => "AMD AMF（硬體加速）"@,
            H264Encoder::Software => "libx264（軟體）"@,
        }
    }

    /// The name that the user sees.
    pub fn display_name(&self) -> (r: &'static str)
        ensures
            r@ == self.display_name_spec(),
    {
        match self {
            H264Encoder::Nvenc => "NVIDIA NVENC（硬體加速）",
            H264Encoder::Qsv => "Intel Quick Sync（硬體加速）",
            H264Encoder::Amf => "AMD AMF（硬體加速）",
            H264Encoder::Software => "libx264（軟體）",
        }
    }

    /// The arguments that make ffmpeg use the encoder.
    pub open spec fn codec_args_spec(self) -> Seq<Seq<char>> {
        match self {
            H264Encoder::Nvenc => seq![
                "-c:v"@,
                "h264_nvenc"@,
                "-preset"@,
                "p4"@,
                "-rc"@,
                "vbr"@,
                "-cq"@,
                "23"@,
                "-b:v"@,
                "0"@,
            ],
            H264Encoder::Qsv => seq!["-c:v"@, "h264_qsv"@, "-global_quality"@, "23"@],
            H264Encoder::Amf => seq![
                "-c:v"@,
                "h264_amf"@,
                "-quality"@,
                "balanced"@,
                "-rc"@,
                "cqp"@,
                "-qp_i"@,
                "22"@,
                "-qp_p"@,
                "22"@,
            ],
            H264Encoder::Software => seq![
                "-c:v"@,
                "libx264"@,
                "-preset"@,
                "veryfast"@,
                "-crf"@,
                "18"@,
            ],
        }
    }

    /// The arguments that make ffmpeg use the encoder.
    pub fn codec_args(&self) -> (r: Vec<&'static str>)
        ensures
            str_views(r@) == self.codec_args_spec(),
    {
        let r = match self {
            H264Encoder::Nvenc => vec![
                "-c:v", "h264_nvenc", "-preset", "p4", "-rc", "vbr", "-cq", "23", "-b:v", "0",
            ],
            H264Encoder::Qsv => vec!["-c:v", "h264_qsv", "-global_quality", "23"],
            H264Encoder::Amf => vec![
                "-c:v", "h264_amf", "-quality", "balanced", "-rc", "cqp", "-qp_i", "22", "-qp_p",
                "22",
            ],
            H264Encoder::Software => vec!["-c:v", "libx264", "-preset", "veryfast", "-crf", "18"],
        };
        assert(str_views(r@) =~= self.codec_args_spec());
        r
    }

    /// The hardware encoders to try, best first: the name that ffmpeg knows, and the
    /// encoder.
    pub fn candidates() -> (r: [(&'static str, H264Encoder); 3])
        ensures
            r[0].0@ == "h264_nvenc"@ && r[0].1 == H264Encoder::Nvenc,
            r[1].0@ == "h264_qsv"@ && r[1].1 == H264Encoder::Qsv,
            r[2].0@ == "h264_amf"@ && r[2].1 == H264Encoder::Amf,
    {
        [
            ("h264_nvenc", H264Encoder::Nvenc),
            ("h264_qsv", H264Encoder::Qsv),
            ("h264_amf", H264Encoder::Amf),
        ]
    }

    /// The encoder to use, given which of the hardware encoders work: the first of
    /// NVENC, Quick Sync and AMF that does, and the software encoder if none does.
    pub fn pick(nvenc: bool, qsv: bool, amf: bool) -> (r: H264Encoder)
        ensures
            r == (if nvenc {
                H264Encoder::Nvenc
            } else if qsv {
                H264Encoder::Qsv
            } else if amf {
                H264Encoder::Amf
            } else {
                H264Encoder::Software
            }),
    {
        if nvenc {
            H264Encoder::Nvenc
        } else if qsv {
            H264Encoder::Qsv
        } else if amf {
            H264Encoder::Amf
        } else {
            H264Encoder::Software
        }
    }
}

} // verus!
