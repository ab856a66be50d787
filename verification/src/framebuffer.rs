//! The pixel sink: an RGBA byte buffer with a logical width, written one
//! bounds-checked pixel at a time.
//!
//! A pixel `(x, y)` occupies the four bytes starting at `4 * (y * width +
//! x)`; a write whose four bytes do not all fit in the buffer is silently
//! dropped.  Every byte index determines its pixel: `col_of` and `row_of`
//! invert the addressing, which lets contracts speak pointwise about every
//! byte of the buffer.

use vstd::prelude::*;
use vstd::pervasive::VecAdditionalExecFns;
use vstd::arithmetic::div_mod::lemma_fundamental_div_mod;
use vstd::arithmetic::div_mod::lemma_fundamental_div_mod_converse;

verus! {

/// One RGBA color, eight bits per channel.
#[derive(Clone, Copy, PartialEq, Eq, Structural, Debug)]
pub struct Color {
    pub r: u8,
    pub g: u8,
    pub b: u8,
    pub a: u8,
}

/// The byte a channel index selects from a color: red, green, blue, alpha
/// in that order.
pub open spec fn channel_s(c: Color, k: int) -> u8 {
    if k == 0 {
        c.r
    } else if k == 1 {
        c.g
    } else if k == 2 {
        c.b
    } else {
        c.a
    }
}

/// The byte offset of pixel `(x, y)` in a buffer of the given width.
pub open spec fn pixel_base(width: int, x: int, y: int) -> int {
    4 * (y * width + x)
}

/// Whether all four bytes of pixel `(x, y)` lie inside a buffer of length
/// `len`.
pub open spec fn pixel_in_frame(len: int, width: int, x: int, y: int) -> bool {
    &&& 0 <= x < width
    &&& 0 <= y
    &&& pixel_base(width, x, y) + 3 < len
}

/// The pixel column a byte index belongs to.
pub open spec fn col_of(i: int, width: int) -> int {
    (i / 4) % width
}

/// The pixel row a byte index belongs to.
pub open spec fn row_of(i: int, width: int) -> int {
    (i / 4) / width
}

/// Whether byte index `i` belongs to the pixel at `(x, y)`.
pub open spec fn byte_is_pixel(width: int, x: int, y: int, i: int) -> bool {
    row_of(i, width) == y && col_of(i, width) == x
}

/// A byte index addresses pixel `(x, y)` exactly when it lies among that
/// pixel's four bytes.
pub proof fn lemma_byte_addressing(i: int, width: int, x: int, y: int)
    requires
        0 <= i,
        0 <= x < width,
        0 <= y,
    ensures
        (row_of(i, width) == y && col_of(i, width) == x) <==> (pixel_base(width, x, y) <= i
            < pixel_base(width, x, y) + 4),
{
    let q = i / 4;
    lemma_fundamental_div_mod(i, 4);
    lemma_fundamental_div_mod(q, width);
    assert(width * (q / width) == (q / width) * width) by (nonlinear_arith);
    if row_of(i, width) == y && col_of(i, width) == x {
        assert(q == y * width + x);
    }
    if pixel_base(width, x, y) <= i < pixel_base(width, x, y) + 4 {
        lemma_fundamental_div_mod_converse(i, 4, y * width + x, i - 4 * (y * width + x));
        lemma_fundamental_div_mod_converse(y * width + x, width, y, x);
    }
}

/// Writes one pixel into the buffer, dropping the write silently when the
/// pixel does not fit; exactly the four bytes of an in-range pixel change,
/// each to the matching channel of the color.
pub fn set_pixel(frame: &mut Vec<u8>, width: usize, x: usize, y: usize, color: Color)
    ensures
        final(frame).len() == old(frame).len(),
        forall|i: int|
            0 <= i < old(frame).len() ==> final(frame)@[i] == (if pixel_in_frame(
                old(frame).len() as int,
                width as int,
                x as int,
                y as int,
            ) && byte_is_pixel(width as int, x as int, y as int, i) {
                channel_s(color, i % 4)
            } else {
                old(frame)@[i]
            }),
{
    let len: usize = frame.len();
    if x >= width {
        return ;
    }
    proof {
        assert(0 <= (y as int) * (width as int) <= 0xffff_ffff_ffff_ffff * 0xffff_ffff_ffff_ffff)
            by (nonlinear_arith)
            requires
                0 <= y as int <= 0xffff_ffff_ffff_ffff,
                0 <= width as int <= 0xffff_ffff_ffff_ffff,
        ;
        lemma_fundamental_div_mod(len as int, 4);
    }
    let q128: u128 = (y as u128) * (width as u128) + (x as u128);
    if q128 < (len / 4) as u128 {
        let q: usize = q128 as usize;
        let idx: usize = 4 * q;
        proof {
            assert(idx + 3 < len);
        }
        frame.set(idx, color.r);
        frame.set(idx + 1, color.g);
        frame.set(idx + 2, color.b);
        frame.set(idx + 3, color.a);
        proof {
            assert forall|i: int| 0 <= i < len implies final(frame)@[i] == (if pixel_in_frame(
                len as int,
                width as int,
                x as int,
                y as int,
            ) && byte_is_pixel(width as int, x as int, y as int, i) {
                channel_s(color, i % 4)
            } else {
                old(frame)@[i]
            }) by {
                lemma_byte_addressing(i, width as int, x as int, y as int);
                lemma_fundamental_div_mod(i, 4);
            }
        }
    } else {
        proof {
            assert(4 * (q128 as int) >= 4 * ((len as int) / 4));
            assert(!pixel_in_frame(len as int, width as int, x as int, y as int));
        }
    }
}

/// Fills the pixels of row `y` with columns in `[x0, x1)` with one color;
/// every write is bounds-checked as in `set_pixel`.
pub fn fill_row_solid(frame: &mut Vec<u8>, width: usize, y: usize, x0: usize, x1: usize, color: Color)
    ensures
        final(frame).len() == old(frame).len(),
        forall|i: int|
            0 <= i < old(frame).len() ==> final(frame)@[i] == (if pixel_in_frame(
                old(frame).len() as int,
                width as int,
                col_of(i, width as int),
                row_of(i, width as int),
            ) && row_of(i, width as int) == y && x0 <= col_of(i, width as int) < x1 {
                channel_s(color, i % 4)
            } else {
                old(frame)@[i]
            }),
{
    let len: usize = frame.len();
    let mut x: usize = x0;
    while x < x1
        invariant
            x0 <= x,
            x <= x1 || x == x0,
            frame.len() == len,
            len == old(frame).len(),
            forall|i: int|
                0 <= i < len ==> frame@[i] == (if pixel_in_frame(
                    len as int,
                    width as int,
                    col_of(i, width as int),
                    row_of(i, width as int),
                ) && row_of(i, width as int) == y && x0 <= col_of(i, width as int) < x {
                    channel_s(color, i % 4)
                } else {
                    old(frame)@[i]
                }),
        decreases x1 - x,
    {
        set_pixel(frame, width, x, y, color);
        x = x + 1;
    }
}

} // verus!
