//! How long each photo is shown.

use crate::text::{fixed, push_fixed};
use vstd::prelude::*;

verus! {

/// Frames per second of videos in which something moves.
pub const OUT_FPS: u32 = 30;

/// How long each photo is shown: `num / den` seconds.
#[derive(Clone, Copy, PartialEq, Eq, Structural, Debug)]
pub struct Duration {
    pub num: u32,
    pub den: u32,
}

/// How many frames a photo takes when the picture moves over it: the nearest whole
/// number, and at least one.
pub open spec fn frames_for(fps: int) -> int {
    if (2 * OUT_FPS + fps) / (2 * fps) < 1 {
        1
    } else {
        (2 * OUT_FPS + fps) / (2 * fps)
    }
}

/// How many frames a photo takes when the picture moves over it.
pub fn kb_frames(fps: u32) -> (r: u32)
    requires
        1 <= fps <= 60,
    ensures
        r == frames_for(fps as int),
        1 <= r <= 30,
{
    let r: u32 = (2 * OUT_FPS + fps) / (2 * fps);
    assert(r <= 30) by (nonlinear_arith)
        requires
            1 <= fps <= 60,
            r == (60 + fps) / (2 * fps as int),
    ;
    if r < 1 {
        1
    } else {
        r
    }
}

/// How long each photo is shown: a whole number of frames when the picture moves over
/// it.
pub open spec fn shown_for(fps: u32, ken_burns: bool) -> Duration {
    if ken_burns {
        Duration { num: frames_for(fps as int) as u32, den: OUT_FPS }
    } else {
        Duration { num: 1, den: fps }
    }
}

/// How long each photo is shown.
pub fn photo_duration(fps: u32, ken_burns: bool) -> (r: Duration)
    requires
        1 <= fps <= 60,
    ensures
        r == shown_for(fps, ken_burns),
        r.is_usable(),
{
    if ken_burns {
        Duration { num: kb_frames(fps), den: OUT_FPS }
    } else {
        Duration { num: 1, den: fps }
    }
}

/// `num / den` seconds in millionths of a second, the nearest whole number.
pub open spec fn nearest_micro(num: int, den: int) -> int {
    (2_000_000 * num + den) / (2 * den)
}

impl Duration {
    /// The durations that there are: from 1/60 s to 1 s.
    pub open spec fn is_usable(self) -> bool {
        1 <= self.num <= 30 && 1 <= self.den <= 60
    }

    /// In millionths of a second.
    pub open spec fn micros(self) -> int {
        nearest_micro(self.num as int, self.den as int)
    }

    /// The time that a fade takes, in parts of which `20 * den` make a second: 0.4 of the
    /// duration, but from 0.05 s to 0.5 s, and at most half the duration.
    pub open spec fn fade_num(self) -> int {
        let n = self.num as int;
        let d = self.den as int;
        let wished = if 8 * n < d {
            d
        } else if 8 * n > 10 * d {
            10 * d
        } else {
            8 * n
        };
        if wished < 10 * n {
            wished
        } else {
            10 * n
        }
    }

    /// The time that a fade takes, in millionths of a second.
    pub open spec fn fade_micros(self) -> int {
        nearest_micro(self.fade_num(), 20 * self.den)
    }

    /// How dark the picture is at the time `t`, as a formula for ffmpeg: one at each
    /// change of photos, falling to zero within the time of a fade.
    pub open spec fn dip(self) -> Seq<char> {
        "max(0,1-min(mod(t,"@ + fixed(self.micros(), 6) + "),"@ + fixed(self.micros(), 6)
            + "-mod(t,"@ + fixed(self.micros(), 6) + "))/"@ + fixed(self.fade_micros(), 6) + ")"@
    }

    /// Whether `photos` photos take more than a second.
    pub open spec fn over_a_second(self, photos: int) -> bool {
        photos * self.num > self.den
    }

    fn micros_exec(self) -> (r: i64)
        requires
            self.is_usable(),
        ensures
            r == self.micros(),
    {
        let n: i64 = self.num as i64;
        let d: i64 = self.den as i64;
        (2_000_000 * n + d) / (2 * d)
    }

    fn fade_exec(self) -> (r: i64)
        requires
            self.is_usable(),
        ensures
            r == self.fade_micros(),
    {
        let n: i64 = self.num as i64;
        let d: i64 = self.den as i64;
        let wished: i64 = if 8 * n < d {
            d
        } else if 8 * n > 10 * d {
            10 * d
        } else {
            8 * n
        };
        let f: i64 = if wished < 10 * n {
            wished
        } else {
            10 * n
        };
        (2_000_000 * f + 20 * d) / (2 * (20 * d))
    }

    /// How dark the picture is at the time `t`, as a formula for ffmpeg.
    pub fn dip_text(self) -> (r: String)
        requires
            self.is_usable(),
        ensures
            r@ == self.dip(),
    {
        let d: i64 = self.micros_exec();
        let f: i64 = self.fade_exec();
        let mut r: String = "max(0,1-min(mod(t,".to_owned();
        push_fixed(&mut r, d, 6);
        r.append("),");
        push_fixed(&mut r, d, 6);
        r.append("-mod(t,");
        push_fixed(&mut r, d, 6);
        r.append("))/");
        push_fixed(&mut r, f, 6);
        r.append(")");
        r
    }

    /// Whether `photos` photos take more than a second.
    pub fn is_over_a_second(self, photos: usize) -> (r: bool)
        ensures
            r == self.over_a_second(photos as int),
    {
        let p: u128 = photos as u128;
        let n: u128 = self.num as u128;
        assert(p * n <= 0xFFFF_FFFF_FFFF_FFFF * 0xFFFF_FFFF) by (nonlinear_arith)
            requires
                p <= 0xFFFF_FFFF_FFFF_FFFF,
                n <= 0xFFFF_FFFF,
        ;
        p * n > self.den as u128
    }
}

/// A fade never takes more than half the time that a photo is shown, so that the photo
/// is seen in full brightness, and at most half a second.
pub proof fn fade_leaves_the_photo_bright(d: Duration)
    requires
        d.is_usable(),
    ensures
        2 * d.fade_num() <= 20 * d.num,
        2 * d.fade_num() <= 20 * d.den,
        d.fade_num() > 0,
{
}

/// With a picture that moves, a photo is shown within a sixtieth of a second as long as
/// without, or for one frame.
pub proof fn moving_picture_keeps_the_pace(fps: int)
    requires
        1 <= fps <= 60,
    ensures
        frames_for(fps) == 1 || -fps <= 2 * (frames_for(fps) * fps - OUT_FPS) <= fps,
{
    let q = (2 * OUT_FPS + fps) / (2 * fps);
    assert(-fps <= 2 * (q * fps - 30) <= fps) by (nonlinear_arith)
        requires
            1 <= fps <= 60,
            q == (60 + fps) / (2 * fps),
    ;
}

} // verus!
