//! The 5x7 bitmap font of the window system. Each glyph is seven rows; bit 4
//! of a row is its leftmost pixel.

use vstd::prelude::*;

verus! {

/// Glyphs of `A`..`Z` (lowercase letters share them).
pub const GLYPH_LETTERS: [[u8; 7]; 26] = [
    [0b01110, 0b10001, 0b10001, 0b11111, 0b10001, 0b10001, 0b10001],
    [0b11110, 0b10001, 0b11110, 0b10001, 0b10001, 0b10001, 0b11110],
    [0b01110, 0b10001, 0b10000, 0b10000, 0b10000, 0b10001, 0b01110],
    [0b11110, 0b10001, 0b10001, 0b10001, 0b10001, 0b10001, 0b11110],
    [0b11111, 0b10000, 0b11110, 0b10000, 0b10000, 0b10000, 0b11111],
    [0b11111, 0b10000, 0b11110, 0b10000, 0b10000, 0b10000, 0b10000],
    [0b01110, 0b10001, 0b10000, 0b10111, 0b10001, 0b10001, 0b01110],
    [0b10001, 0b10001, 0b10001, 0b11111, 0b10001, 0b10001, 0b10001],
    [0b01110, 0b00100, 0b00100, 0b00100, 0b00100, 0b00100, 0b01110],
    [0b00111, 0b00010, 0b00010, 0b00010, 0b10010, 0b10010, 0b01100],
    [0b10001, 0b10010, 0b10100, 0b11000, 0b10100, 0b10010, 0b10001],
    [0b10000, 0b10000, 0b10000, 0b10000, 0b10000, 0b10000, 0b11111],
    [0b10001, 0b11011, 0b10101, 0b10101, 0b10001, 0b10001, 0b10001],
    [0b10001, 0b11001, 0b10101, 0b10011, 0b10001, 0b10001, 0b10001],
    [0b01110, 0b10001, 0b10001, 0b10001, 0b10001, 0b10001, 0b01110],
    [0b11110, 0b10001, 0b10001, 0b11110, 0b10000, 0b10000, 0b10000],
    [0b01110, 0b10001, 0b10001, 0b10001, 0b10101, 0b10010, 0b01101],
    [0b11110, 0b10001, 0b10001, 0b11110, 0b10100, 0b10010, 0b10001],
    [0b01110, 0b10001, 0b10000, 0b01110, 0b00001, 0b10001, 0b01110],
    [0b11111, 0b00100, 0b00100, 0b00100, 0b00100, 0b00100, 0b00100],
    [0b10001, 0b10001, 0b10001, 0b10001, 0b10001, 0b10001, 0b01110],
    [0b10001, 0b10001, 0b10001, 0b10001, 0b01010, 0b01010, 0b00100],
    [0b10001, 0b10001, 0b10001, 0b10101, 0b10101, 0b11011, 0b10001],
    [0b10001, 0b10001, 0b01010, 0b00100, 0b01010, 0b10001, 0b10001],
    [0b10001, 0b10001, 0b01010, 0b00100, 0b00100, 0b00100, 0b00100],
    [0b11111, 0b00001, 0b00010, 0b00100, 0b01000, 0b10000, 0b11111],
];

/// Glyphs of `0`..`9`.
pub const GLYPH_DIGITS: [[u8; 7]; 10] = [
    [0b01110, 0b10001, 0b10011, 0b10101, 0b11001, 0b10001, 0b01110],
    [0b00100, 0b01100, 0b00100, 0b00100, 0b00100, 0b00100, 0b01110],
    [0b01110, 0b10001, 0b00001, 0b00010, 0b00100, 0b01000, 0b11111],
    [0b01110, 0b10001, 0b00001, 0b00110, 0b00001, 0b10001, 0b01110],
    [0b00010, 0b00110, 0b01010, 0b10010, 0b11111, 0b00010, 0b00010],
    [0b11111, 0b10000, 0b11110, 0b00001, 0b00001, 0b10001, 0b01110],
    [0b01110, 0b10000, 0b11110, 0b10001, 0b10001, 0b10001, 0b01110],
    [0b11111, 0b00001, 0b00010, 0b00100, 0b01000, 0b01000, 0b01000],
    [0b01110, 0b10001, 0b10001, 0b01110, 0b10001, 0b10001, 0b01110],
    [0b01110, 0b10001, 0b10001, 0b01111, 0b00001, 0b00001, 0b01110],
];

pub const GLYPH_SPACE: [u8; 7] = [0, 0, 0, 0, 0, 0, 0];
pub const GLYPH_DOT: [u8; 7] = [0b00000, 0b00000, 0b00000, 0b00000, 0b00000, 0b00100, 0b00100];
pub const GLYPH_COLON: [u8; 7] = [0b00000, 0b00100, 0b00100, 0b00000, 0b00100, 0b00100, 0b00000];
pub const GLYPH_DASH: [u8; 7] = [0b00000, 0b00000, 0b00000, 0b11111, 0b00000, 0b00000, 0b00000];
pub const GLYPH_TILDE: [u8; 7] = [0b00000, 0b00000, 0b01000, 0b10101, 0b00010, 0b00000, 0b00000];
pub const GLYPH_DOLLAR: [u8; 7] = [0b00100, 0b01111, 0b10100, 0b01110, 0b00101, 0b11110, 0b00100];
/// Drawn for characters the font lacks.
pub const GLYPH_BOX: [u8; 7] = [0b11111, 0b10001, 0b10001, 0b10001, 0b10001, 0b10001, 0b11111];
pub const GLYPH_GREATER: [u8; 7] = [0b10000, 0b01000, 0b00100, 0b00010, 0b00100, 0b01000, 0b10000];
pub const GLYPH_AT: [u8; 7] = [0b01110, 0b10001, 0b10101, 0b10111, 0b10000, 0b10000, 0b01110];
pub const GLYPH_BANG: [u8; 7] = [0b00100, 0b00100, 0b00100, 0b00100, 0b00000, 0b00000, 0b00100];

/// The glyph the window system draws for `ch`.
pub open spec fn mini_glyph(ch: u8) -> [u8; 7] {
    if 65 <= ch <= 90 {
        GLYPH_LETTERS@[ch - 65]
    } else if 97 <= ch <= 122 {
        GLYPH_LETTERS@[ch - 97]
    } else if 48 <= ch <= 57 {
        GLYPH_DIGITS@[ch - 48]
    } else if ch == 32 {
        GLYPH_SPACE
    } else if ch == 46 {
        GLYPH_DOT
    } else if ch == 58 {
        GLYPH_COLON
    } else if ch == 45 {
        GLYPH_DASH
    } else if ch == 126 {
        GLYPH_TILDE
    } else if ch == 36 {
        GLYPH_DOLLAR
    } else {
        GLYPH_BOX
    }
}

/// The terminal's glyph for `ch`: the window system's, plus `>`, `@` and `!`.
pub open spec fn terminal_glyph(ch: u8) -> [u8; 7] {
    if ch == 62 {
        GLYPH_GREATER
    } else if ch == 64 {
        GLYPH_AT
    } else if ch == 33 {
        GLYPH_BANG
    } else {
        mini_glyph(ch)
    }
}

/// Pixel `(col, row)` of glyph `g` is lit.
pub open spec fn glyph_lit(g: [u8; 7], row: int, col: int) -> bool {
    0 <= row < 7 && 0 <= col < 5 && (g@[row] >> ((4 - col) as u8)) & 1 != 0
}

/// The window system's glyph for `ch`.
pub fn get_mini_glyph(ch: u8) -> (r: [u8; 7])
    ensures
        r == mini_glyph(ch),
    decreases ch,
{
    if 65 <= ch && ch <= 90 {
        GLYPH_LETTERS[(ch - 65) as usize]
    } else if 97 <= ch && ch <= 122 {
        get_mini_glyph(ch - 32)
    } else if 48 <= ch && ch <= 57 {
        GLYPH_DIGITS[(ch - 48) as usize]
    } else if ch == 32 {
        GLYPH_SPACE
    } else if ch == 46 {
        GLYPH_DOT
    } else if ch == 58 {
        GLYPH_COLON
    } else if ch == 45 {
        GLYPH_DASH
    } else if ch == 126 {
        GLYPH_TILDE
    } else if ch == 36 {
        GLYPH_DOLLAR
    } else {
        GLYPH_BOX
    }
}

/// The terminal's glyph for `ch`.
pub fn get_terminal_glyph(ch: u8) -> (r: [u8; 7])
    ensures
        r == terminal_glyph(ch),
{
    if ch == 62 {
        GLYPH_GREATER
    } else if ch == 64 {
        GLYPH_AT
    } else if ch == 33 {
        GLYPH_BANG
    } else {
        get_mini_glyph(ch)
    }
}

/// Whether pixel `(col, row)` of glyph `g` is lit.
pub fn glyph_bit(g: &[u8; 7], row: usize, col: usize) -> (r: bool)
    requires
        row < 7,
        col < 5,
    ensures
        r == glyph_lit(*g, row as int, col as int),
{
    (g[row] >> ((4 - col) as u8)) & 1 != 0
}

} // verus!
