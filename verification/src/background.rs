//! The background fill: a flat sky above the horizon row and flat ground
//! below it.  The horizon row is the same fixed fraction of the screen
//! height that the projection's vertical mapping uses, so background and
//! road meet without a seam.

use vstd::prelude::*;
use crate::camera::MAX_SCREEN_DIM;
use crate::camera::horizon_row_s;
use crate::framebuffer::Color;
use crate::framebuffer::channel_s;
use crate::framebuffer::col_of;
use crate::framebuffer::row_of;
use crate::framebuffer::pixel_in_frame;
use crate::framebuffer::fill_row_solid;

verus! {

/// The flat sky color.
pub open spec fn sky_color_s() -> Color {
    Color { r: 100, g: 180, b: 255, a: 255 }
}

/// The flat ground color.
pub open spec fn ground_color_s() -> Color {
    Color { r: 50, g: 180, b: 50, a: 255 }
}

/// The background color of a screen row: sky above the horizon row,
/// ground on it and below.
pub open spec fn background_color_s(y: int, height: int) -> Color {
    if y < horizon_row_s(height) {
        sky_color_s()
    } else {
        ground_color_s()
    }
}

/// Fills every pixel of the first `height` rows with the background color
/// of its row; every write is bounds-checked, and bytes outside those
/// pixels keep their value.
pub fn fill_background(frame: &mut Vec<u8>, width: usize, height: usize)
    requires
        width <= MAX_SCREEN_DIM,
        height <= MAX_SCREEN_DIM,
    ensures
        final(frame).len() == old(frame).len(),
        forall|i: int|
            0 <= i < old(frame).len() ==> final(frame)@[i] == (if pixel_in_frame(
                old(frame).len() as int,
                width as int,
                col_of(i, width as int),
                row_of(i, width as int),
            ) && row_of(i, width as int) < height {
                channel_s(background_color_s(row_of(i, width as int), height as int), i % 4)
            } else {
                old(frame)@[i]
            }),
{
    let len: usize = frame.len();
    let horizon: usize = 3 * height / 5;
    let mut y: usize = 0;
    while y < height
        invariant
            y <= height,
            horizon == horizon_row_s(height as int),
            frame.len() == len,
            len == old(frame).len(),
            forall|i: int|
                0 <= i < len ==> frame@[i] == (if pixel_in_frame(
                    len as int,
                    width as int,
                    col_of(i, width as int),
                    row_of(i, width as int),
                ) && row_of(i, width as int) < y {
                    channel_s(background_color_s(row_of(i, width as int), height as int), i % 4)
                } else {
                    old(frame)@[i]
                }),
        decreases height - y,
    {
        let color: Color = if y < horizon {
            Color { r: 100, g: 180, b: 255, a: 255 }
        } else {
            Color { r: 50, g: 180, b: 50, a: 255 }
        };
        fill_row_solid(frame, width, y, 0, width, color);
        y = y + 1;
    }
}

} // verus!
