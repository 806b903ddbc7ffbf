//! Shading: from the two buffers and the peak luminance to the characters of
//! a frame.

use vstd::prelude::*;
use crate::raster::{SCREEN_HEIGHT, SCREEN_WIDTH};
use crate::torus::luminance_fits;

verus! {

/// Whether the luminance `lum` is more than `percent` hundredths of `peak`.
pub open spec fn brighter_than(lum: int, peak: int, percent: int) -> bool {
    100 * lum > percent * peak
}

/// The glyph of a luminance measured against a positive peak: the first of
/// the ramp `@ $ # * ! = ; ~ : ,` whose threshold it exceeds, and `.` below
/// them all.
pub open spec fn ramp_glyph(lum: int, peak: int) -> char {
    if brighter_than(lum, peak, 95) {
        '@'
    } else if brighter_than(lum, peak, 90) {
        '$'
    } else if brighter_than(lum, peak, 80) {
        '#'
    } else if brighter_than(lum, peak, 70) {
        '*'
    } else if brighter_than(lum, peak, 60) {
        '!'
    } else if brighter_than(lum, peak, 50) {
        '='
    } else if brighter_than(lum, peak, 40) {
        ';'
    } else if brighter_than(lum, peak, 30) {
        '~'
    } else if brighter_than(lum, peak, 20) {
        ':'
    } else if brighter_than(lum, peak, 10) {
        ','
    } else {
        '.'
    }
}

/// The character of one cell: a space where nothing is drawn, which is where
/// the closeness is nought, and in a frame without a positive peak, where no
/// brightness can be measured; else the glyph of the cell's luminance.
pub open spec fn cell_glyph(near: int, lum: int, peak: int) -> char {
    if near == 0 || peak <= 0 {
        ' '
    } else {
        ramp_glyph(lum, peak)
    }
}

/// The number of characters in a frame: each row and the line feed that ends it.
pub open spec fn frame_len() -> nat {
    (SCREEN_HEIGHT * (SCREEN_WIDTH + 1)) as nat
}

/// The text of a frame: the rows from the top, each the glyphs of its cells
/// from the left and then a line feed.
pub open spec fn frame_text(near: Seq<Seq<i128>>, lum: Seq<Seq<i128>>, peak: int) -> Seq<char> {
    Seq::new(
        frame_len(),
        |i: int|
            {
                let row = i / (SCREEN_WIDTH + 1);
                let col = i % (SCREEN_WIDTH + 1);
                if col == SCREEN_WIDTH {
                    '\n'
                } else {
                    cell_glyph(near[row][col] as int, lum[row][col] as int, peak)
                }
            },
    )
}

/// Whether `lum` is more than `percent` hundredths of `peak`.
fn exceeds(lum: i128, peak: i128, percent: i128) -> (b: bool)
    requires
        luminance_fits(lum as int),
        peak > 0,
        0 < percent < 100,
    ensures
        b == brighter_than(lum as int, peak as int, percent as int),
{
    match peak.checked_mul(percent) {
        Some(threshold) => 100 * lum > threshold,
        None => {
            assert(percent * peak >= 0) by (nonlinear_arith)
                requires
                    peak > 0,
                    percent > 0,
            ;
            false
        },
    }
}

/// The character of a cell that holds the closeness `near` and the luminance
/// `lum`, in a frame whose peak luminance is `peak`.
pub fn shade(near: i128, lum: i128, peak: i128) -> (c: char)
    requires
        luminance_fits(lum as int),
    ensures
        c == cell_glyph(near as int, lum as int, peak as int),
{
    if near == 0 || peak <= 0 {
        ' '
    } else if exceeds(lum, peak, 95) {
        '@'
    } else if exceeds(lum, peak, 90) {
        '$'
    } else if exceeds(lum, peak, 80) {
        '#'
    } else if exceeds(lum, peak, 70) {
        '*'
    } else if exceeds(lum, peak, 60) {
        '!'
    } else if exceeds(lum, peak, 50) {
        '='
    } else if exceeds(lum, peak, 40) {
        ';'
    } else if exceeds(lum, peak, 30) {
        '~'
    } else if exceeds(lum, peak, 20) {
        ':'
    } else if exceeds(lum, peak, 10) {
        ','
    } else {
        '.'
    }
}

/// Whether a character is one that a frame draws a cell with: a space or a
/// glyph of the ramp.
pub open spec fn is_glyph(c: char) -> bool {
    c == ' ' || c == '.' || c == ',' || c == ':' || c == '~' || c == ';' || c == '=' || c == '!'
        || c == '*' || c == '#' || c == '$' || c == '@'
}

/// Whatever the buffers hold, a frame is as many lines as the screen has
/// rows: each line is as many glyphs as the screen has columns, and a line
/// feed behind them.
pub proof fn lemma_frame_shape(near: Seq<Seq<i128>>, lum: Seq<Seq<i128>>, peak: int)
    ensures
        frame_text(near, lum, peak).len() == SCREEN_HEIGHT * (SCREEN_WIDTH + 1),
        forall|row: int, col: int|
            0 <= row < SCREEN_HEIGHT && 0 <= col < SCREEN_WIDTH ==> is_glyph(
                #[trigger] frame_text(near, lum, peak)[row * (SCREEN_WIDTH + 1) + col],
            ),
        forall|row: int|
            0 <= row < SCREEN_HEIGHT ==> #[trigger] frame_text(near, lum, peak)[row * (SCREEN_WIDTH
                + 1) + SCREEN_WIDTH] == '\n',
{
    let text = frame_text(near, lum, peak);
    assert forall|row: int, col: int|
        0 <= row < SCREEN_HEIGHT && 0 <= col < SCREEN_WIDTH implies is_glyph(
        #[trigger] text[row * (SCREEN_WIDTH + 1) + col],
    ) by {
        let i = row * 81 + col;
        assert(i / 81 == row && i % 81 == col);
    }
    assert forall|row: int| 0 <= row < SCREEN_HEIGHT implies #[trigger] text[row * (SCREEN_WIDTH
        + 1) + SCREEN_WIDTH] == '\n' by {
        let i = row * 81 + 80;
        assert(i / 81 == row && i % 81 == 80);
    }
}

} // verus!
