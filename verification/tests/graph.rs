use photo2video::adjust::Adjustments;
use photo2video::command::conversion_filter;
use photo2video::drawtext::{
    between_text, color_text, drawtext_filter, ff_color, CaptionLook, Placement,
};
use photo2video::graph::{
    audio_filter, photo_list_text, picture_filter, preview_filter, single_photo_filter, turned,
    video_ending, Canvas, Layer, Motion, VideoFilter, CLARITY_PX,
};
use photo2video::options::{OutputFormat, Resolution, Transition};
use photo2video::scalar::Scalar;
use photo2video::style::{Rgba, SubtitleStyle};
use photo2video::timing::photo_duration;

const EVEN: &str = "crop=trunc(iw/2)*2:trunc(ih/2)*2,setsar=1,format=yuv420p";
const FIT: &str = "scale=640:480:force_original_aspect_ratio=decrease";
const PAD: &str = "pad=640:480:(ow-iw)/2:(oh-ih)/2:color=black";

fn still() -> Motion {
    Motion::new(Transition::Cut, false, OutputFormat::Mp4, false)
}

fn look() -> CaptionLook {
    CaptionLook::new(&SubtitleStyle { boxed: true, ..Default::default() }, "C:\\f.ttc")
}

fn layer(rot: f32) -> Layer {
    Layer {
        file: "/t/1.txt".to_string(),
        at: Placement {
            size: "24.0".to_string(),
            pad: "5".to_string(),
            x: "0.2500".to_string(),
            y: "0.8500".to_string(),
        },
        from: "0.000".to_string(),
        to: "1.000".to_string(),
        rot: Scalar { bits: rot.to_bits() },
        turn: "0.785398".to_string(),
        dx: "-3.00".to_string(),
        dy: "7.00".to_string(),
    }
}

fn canvas() -> Canvas {
    Canvas { res: Resolution { w: 640, h: 480 }, out_fps: 10, secs: "2.500".to_string() }
}

#[test]
fn photos_are_listed_with_their_durations() {
    let photos = vec!["/a/1.jpg".to_string(), "/a/it's.jpg".to_string()];
    assert_eq!(
        photo_list_text(&photos, "0.1"),
        "file '/a/1.jpg'\nduration 0.1\nfile '/a/it'\\''s.jpg'\nduration 0.1\nfile '/a/it'\\''s.jpg'\n"
    );
    assert_eq!(photo_list_text(&Vec::new(), "1"), "");
}

#[test]
fn colours_are_unmultiplied() {
    assert_eq!(ff_color(Rgba { r: 255, g: 128, b: 0, a: 255 }), "0xFF8000@1.000");
    assert_eq!(ff_color(Rgba { r: 0, g: 0, b: 0, a: 0 }), "0x000000@0.000");
    let half = Rgba { r: 64, g: 0, b: 0, a: 128 };
    assert_ne!(ff_color(half), color_text(half));
    assert!(ff_color(half).ends_with("0000@0.502"));
    for a in 0..=255u8 {
        let want = format!("0x0A0B0C@{:.3}", a as f32 / 255.0);
        assert_eq!(color_text(Rgba { r: 10, g: 11, b: 12, a }), want);
    }
}

#[test]
fn captions_are_drawn_in_place() {
    let l = layer(0.0);
    assert_eq!(between_text("1", "2"), "between(t,1,2)");
    assert_eq!(
        drawtext_filter(&look(), "/t/1.txt", &l.at, Some(("0.000", "1.000"))),
        "drawtext=expansion=none:fontfile='C\\:/f.ttc':textfile='/t/1.txt':fontsize=24.0:fontcolor=0xFFFFFF@1.000:borderw=2:bordercolor=0x000000@1.000:x=(w*0.2500-text_w/2):y=(h*0.8500-text_h/2):box=1:boxcolor=black@0.4:boxborderw=5:enable='between(t,0.000,1.000)'"
    );
    let plain = CaptionLook { boxed: false, ..look() };
    assert!(drawtext_filter(&plain, "/t/1.txt", &l.at, None).ends_with("-text_h/2)"));
}

#[test]
fn previews_are_scaled_once() {
    let none = Adjustments::default();
    assert_eq!(preview_filter(&none, 5, 640, 480, false), format!("{FIT},{PAD}"));
    assert_eq!(preview_filter(&none, 5, 640, 480, true), PAD);
    let adj = Adjustments { brightness: 20, ..none };
    let chain = adj.filter_chain(CLARITY_PX).unwrap();
    assert_eq!(single_photo_filter(&adj, 640, 480), format!("{FIT},{chain}"));
    assert_eq!(single_photo_filter(&none, 640, 480), FIT);
    assert_eq!(preview_filter(&adj, CLARITY_PX, 640, 480, true), format!("{chain},{PAD}"));
}

#[test]
fn pictures_move() {
    let res = canvas().res;
    assert_eq!(picture_filter(None, res, still(), 10), format!("{FIT},{PAD}"));
    let fade = Motion::new(Transition::FadeBlack, false, OutputFormat::Mp4, false);
    assert_eq!(picture_filter(None, res, fade, 10), format!("{FIT},{PAD},fps=30"));
    let kb = Motion::new(Transition::Cut, true, OutputFormat::Mp4, false);
    assert_eq!(
        picture_filter(None, res, kb, 10),
        format!("{FIT},{PAD},zoompan=z='if(mod(floor(on/3),2),1.081-0.08*min(mod(on,3)/2,1),1.001+0.08*min(mod(on,3)/2,1))':x='iw/2-(iw/zoom/2)':y='ih/2-(ih/zoom/2)':d=3:s=640x480:fps=30")
    );
    assert_eq!((still().frame_rate(10), kb.frame_rate(10)), (10, 30));
    assert!(Motion::new(Transition::Cut, false, OutputFormat::Avi, true).is_animated());
    assert!(!Motion::new(Transition::Cut, false, OutputFormat::Avi, false).is_animated());
    assert_eq!(video_ending(still(), 10), EVEN);
    let dip = photo_duration(10, false).dip_text();
    assert_eq!(
        video_ending(fade, 10),
        format!("eq=eval=frame:brightness='-{dip}':saturation='max(0,1-{dip})',{EVEN}")
    );
}

#[test]
fn music_fades_out() {
    let each = photo_duration(10, false);
    assert_eq!(audio_filter(100, true, 10, each, "0", "1"), "volume=1.000");
    assert_eq!(
        audio_filter(55, true, 11, each, "0.100", "1.000"),
        "volume=0.550,afade=t=out:st=0.100:d=1.000"
    );
    assert_eq!(audio_filter(55, false, 11, each, "0", "1"), "volume=0.550");
    assert_eq!(audio_filter(-5, false, 11, each, "0", "1"), "volume=0.000");
}

#[test]
fn turned_captions_need_a_graph() {
    assert!(turned(Scalar { bits: 0.5f32.to_bits() }));
    assert!(turned(Scalar { bits: (-3.0f32).to_bits() }));
    assert!(!turned(Scalar { bits: 0.49f32.to_bits() }));
    let text = |l: &Layer| drawtext_filter(&look(), &l.file, &l.at, Some((&l.from, &l.to)));
    let upright = layer(0.0);
    match conversion_filter(None, still(), 10, Some(&look()), &canvas(), &vec![layer(0.0)]) {
        VideoFilter::Chain(s) => {
            assert_eq!(s, format!("{FIT},{PAD},{},{EVEN}", text(&upright)))
        }
        VideoFilter::Graph(_) => panic!("no graph needed"),
    }
    let both = vec![layer(0.0), layer(45.0)];
    match conversion_filter(None, still(), 10, Some(&look()), &canvas(), &both) {
        VideoFilter::Graph(s) => {
            let centred = Placement {
                x: "0.5000".to_string(),
                y: "0.5000".to_string(),
                size: "24.0".to_string(),
                pad: "5".to_string(),
            };
            let inner = drawtext_filter(&look(), "/t/1.txt", &centred, None);
            assert_eq!(
                s,
                format!("[0:v]{FIT},{PAD}[v0];[v0]{}[v1];color=c=black@0.0:s=640x480:r=10:d=2.500,format=rgba,{inner},rotate=0.785398:ow=iw:oh=ih:c=none[t1];[v1][t1]overlay=x=-3.00:y=7.00:enable='between(t,0.000,1.000)'[v2];[v2]{EVEN}[vout]", text(&upright))
            );
        }
        VideoFilter::Chain(_) => panic!("a graph is needed"),
    }
    match conversion_filter(None, still(), 10, None, &canvas(), &both) {
        VideoFilter::Chain(s) => assert_eq!(s, format!("{FIT},{PAD},{EVEN}")),
        VideoFilter::Graph(_) => panic!("no font, no captions"),
    }
    match conversion_filter(None, still(), 10, Some(&look()), &canvas(), &Vec::new()) {
        VideoFilter::Chain(s) => assert_eq!(s, format!("{FIT},{PAD},{EVEN}")),
        VideoFilter::Graph(_) => panic!("no captions, no graph"),
    }
}

/// A channel whose light is divided by alpha, by the curve of sRGB.
fn straight(v: u8, a: u8) -> f64 {
    let v = v as f64;
    let light = if v <= 10.0 { v / 3294.6 } else { ((v + 14.025) / 269.025).powf(2.4) };
    let l = light * 255.0 / a as f64;
    if l <= 0.0031308 {
        3294.6 * l
    } else if l <= 1.0 {
        269.025 * l.powf(1.0 / 2.4) - 14.025
    } else {
        255.0
    }
}

#[test]
fn light_is_divided_by_alpha() {
    let channel = |v: u8, a: u8| {
        let text = ff_color(Rgba { r: v, g: v, b: v, a });
        u8::from_str_radix(&text[2..4], 16).unwrap()
    };
    assert!((137..=139).contains(&channel(100, 128)));
    assert!((45..=47).contains(&channel(20, 64)));
    assert!((1..=3).contains(&channel(1, 127)));
    assert_eq!(channel(200, 64), 255);
    assert_eq!(channel(100, 255), 100);
    for a in 0..=255u8 {
        for v in 0..=a.max(200) {
            let text = ff_color(Rgba { r: v, g: 0, b: v, a });
            let s = u8::from_str_radix(&text[2..4], 16).unwrap();
            assert_eq!(&text[4..6], "00");
            assert_eq!(&text[6..8], &text[2..4]);
            assert!(s >= v, "{v} {a} {s}");
            if a > 0 {
                assert!((s as f64 - straight(v, a)).abs() < 1.0, "{v} {a} {s}");
            }
            let brighter = (1..=127).contains(&a) && v >= 1
                || (1..=230).contains(&a) && v >= 5
                || (1..=250).contains(&a) && v >= 64;
            if brighter && v <= 254 {
                assert!(s > v, "{v} {a} {s}");
            }
            if a == 0 || a == 255 {
                assert_eq!(s, v);
            }
        }
    }
}
