use photo2video::timing::{kb_frames, photo_duration, Duration};

#[test]
fn photos_take_a_whole_number_of_frames_when_they_move() {
    assert_eq!(kb_frames(10), 3);
    assert_eq!(kb_frames(60), 1);
    for fps in 1..=60u32 {
        assert_eq!(kb_frames(fps), ((30.0 / fps as f64).round() as u32).max(1), "{fps}");
    }
    assert_eq!(photo_duration(7, true), Duration { num: 4, den: 30 });
    assert_eq!(photo_duration(7, false), Duration { num: 1, den: 7 });
}

#[test]
fn fades_are_written_with_six_places() {
    for fps in 1..=60u32 {
        for ken_burns in [false, true] {
            let d = photo_duration(fps, ken_burns);
            let dur = if ken_burns { kb_frames(fps) as f64 / 30.0 } else { 1.0 / fps as f64 };
            let tr = (dur * 0.4).clamp(0.05, 0.5).min(dur * 0.5);
            let want =
                format!("max(0,1-min(mod(t,{dur:.6}),{dur:.6}-mod(t,{dur:.6}))/{tr:.6})");
            assert_eq!(d.dip_text(), want, "{fps}");
            for n in [1usize, 2, 9, 10, 11, 30, 59, 60, 61, 1000] {
                assert_eq!(d.is_over_a_second(n), n as f64 * dur > 1.0, "{fps} {n}");
            }
        }
    }
}
