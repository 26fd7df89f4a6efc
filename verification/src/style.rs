//! The look that all captions share.

use vstd::prelude::*;

verus! {

/// A colour as the colour buttons hold it: red, green and blue multiplied by alpha.
#[derive(Clone, Copy, PartialEq, Eq, Structural, Debug)]
pub struct Rgba {
    pub r: u8,
    pub g: u8,
    pub b: u8,
    pub a: u8,
}

/// The look that all captions share; size and place belong to each caption.
#[derive(Clone, Copy, PartialEq, Eq, Structural, Debug)]
pub struct SubtitleStyle {
    pub font_idx: usize,
    pub color: Rgba,
    pub outline_w: i32,
    pub outline_color: Rgba,
    pub boxed: bool,
}

/// White letters with a thin black outline, without a box, in the first font.
pub open spec fn plain_style() -> SubtitleStyle {
    SubtitleStyle {
        font_idx: 0,
        color: Rgba { r: 255, g: 255, b: 255, a: 255 },
        outline_w: 2,
        outline_color: Rgba { r: 0, g: 0, b: 0, a: 255 },
        boxed: false,
    }
}

impl Default for SubtitleStyle {
    fn default() -> (r: Self)
        ensures
            r == plain_style(),
    {
        SubtitleStyle {
            font_idx: 0,
            color: Rgba { r: 255, g: 255, b: 255, a: 255 },
            outline_w: 2,
            outline_color: Rgba { r: 0, g: 0, b: 0, a: 255 },
            boxed: false,
        }
    }
}

} // verus!
