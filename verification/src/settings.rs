//! The settings of the video.

use crate::options::{full_hd, OutputFormat, Resolution, Transition};
use crate::text::text_view;
use vstd::prelude::*;

verus! {

/// The settings of the video.
pub struct Settings {
    /// Photos per second.
    pub fps: u32,
    pub format: OutputFormat,
    pub resolution: Resolution,
    pub transition: Transition,
    /// Whether the picture moves slowly over each photo.
    pub ken_burns: bool,
    pub music_path: Option<String>,
    /// In percent.
    pub music_volume: i32,
    pub music_fade: bool,
}

/// What settings stand for.
pub struct SettingsView {
    pub fps: u32,
    pub format: OutputFormat,
    pub resolution: Resolution,
    pub transition: Transition,
    pub ken_burns: bool,
    pub music_path: Option<Seq<char>>,
    pub music_volume: i32,
    pub music_fade: bool,
}

impl View for Settings {
    type V = SettingsView;

    open spec fn view(&self) -> SettingsView {
        SettingsView {
            fps: self.fps,
            format: self.format,
            resolution: self.resolution,
            transition: self.transition,
            ken_burns: self.ken_burns,
            music_path: text_view(self.music_path),
            music_volume: self.music_volume,
            music_fade: self.music_fade,
        }
    }
}

/// The first settings, with this frame rate.
pub open spec fn first_settings(fps: u32) -> SettingsView {
    SettingsView {
        fps,
        format: OutputFormat::Mp4,
        resolution: full_hd(),
        transition: Transition::Cut,
        ken_burns: false,
        music_path: None,
        music_volume: 100,
        music_fade: true,
    }
}

impl Settings {
    /// The first settings, with this frame rate.
    pub fn new(fps: u32) -> (r: Self)
        ensures
            r@ == first_settings(fps),
    {
        Settings {
            fps,
            format: OutputFormat::Mp4,
            resolution: Resolution { w: 1920, h: 1080 },
            transition: Transition::Cut,
            ken_burns: false,
            music_path: None,
            music_volume: 100,
            music_fade: true,
        }
    }
}

} // verus!
