//! The user-space console driver: prints the characters other processes
//! send it on the framebuffer, in 8 by 16 cells.

use vstd::prelude::*;
use crate::console::{screen_fits, TextState};
use crate::framebuffer::{
    char_spec, clear_spec, scroll_spec, FrameBuffer, Geometry, FONT_HEIGHT, FONT_WIDTH,
};

verus! {

pub const COLOR_BLACK: u32 = 0x000000;
pub const COLOR_WHITE: u32 = 0xFFFFFF;
pub const TAB_SIZE: usize = 4;
/// Where the driver maps the framebuffer.
pub const FB_VIRT: u64 = 0x8000_0000;

/// The driver's console: framebuffer, cursor, colours and font.
pub struct Console {
    pub fb: FrameBuffer,
    pub x_pos: usize,
    pub y_pos: usize,
    pub fg_color: u32,
    pub bg_color: u32,
    pub font: Vec<[u8; 16]>,
}

/// Scroll one line when the cursor's line is off the bottom.
pub open spec fn fit_spec(st: TextState, g: Geometry) -> TextState {
    if st.2 + FONT_HEIGHT > g.height {
        (scroll_spec(st.0, g), st.1, st.2 - FONT_HEIGHT)
    } else {
        st
    }
}

/// One byte received: newline, backspace (which blanks the cell it steps
/// back to), tab (four cells right), or a character drawn at the cursor
/// after wrapping and scrolling as needed; then the cursor's line is kept
/// on screen.
pub open spec fn driver_write_spec(st: TextState, g: Geometry, font: Seq<[u8; 16]>, fg: u32, bg: u32, c: u8) -> TextState {
    let (b, x, y) = st;
    if c == 10 {
        fit_spec((b, 0, y + FONT_HEIGHT), g)
    } else if c == 8 {
        let (x1, y1) = if x >= FONT_WIDTH {
            (x - FONT_WIDTH, y)
        } else if y >= FONT_HEIGHT {
            (g.width - FONT_WIDTH, y - FONT_HEIGHT)
        } else {
            (x, y)
        };
        fit_spec((char_spec(b, g, font[32], x1, y1, fg, bg), x1, y1), g)
    } else if c == 9 {
        fit_spec((b, x + FONT_WIDTH * TAB_SIZE, y), g)
    } else {
        let (x1, y1) = if x + FONT_WIDTH > g.width { (0, y + FONT_HEIGHT) } else { (x, y) };
        let s2 = fit_spec((b, x1, y1), g);
        fit_spec((char_spec(s2.0, g, font[c as int], s2.1, s2.2, fg, bg), s2.1 + FONT_WIDTH, s2.2), g)
    }
}

impl Console {
    pub open spec fn state(&self) -> TextState {
        (self.fb.bytes@, self.x_pos as int, self.y_pos as int)
    }

    pub open spec fn geometry(&self) -> Geometry {
        self.fb.geometry()
    }

    /// A framebuffer with room for a cell, a full font, and the cursor's
    /// line on screen.
    pub open spec fn wf(&self) -> bool {
        &&& self.fb.wf()
        &&& screen_fits(self.geometry())
        &&& self.font@.len() == 256
        &&& self.y_pos + FONT_HEIGHT <= self.fb.height
    }

    /// A console without a framebuffer yet, white on black.
    pub fn new() -> (r: Console)
        ensures
            r.x_pos == 0 && r.y_pos == 0,
            r.fg_color == COLOR_WHITE && r.bg_color == COLOR_BLACK,
            r.fb.bytes@.len() == 0,
    {
        Console {
            fb: FrameBuffer { bytes: Vec::new(), width: 0, height: 0, pitch: 0, bpp: 0 },
            x_pos: 0,
            y_pos: 0,
            fg_color: COLOR_WHITE,
            bg_color: COLOR_BLACK,
            font: Vec::new(),
        }
    }

    /// Take the mapped framebuffer `fb` and the font, and clear the screen.
    pub fn init(&mut self, fb: FrameBuffer, font: Vec<[u8; 16]>)
        requires
            fb.wf(),
            screen_fits(fb.geometry()),
            font@.len() == 256,
        ensures
            final(self).wf(),
            final(self).geometry() == fb.geometry(),
            final(self).font@ == font@,
            final(self).state() == (clear_spec(fb.bytes@, fb.geometry(), old(self).bg_color), 0int, 0int),
            final(self).fg_color == old(self).fg_color && final(self).bg_color == old(self).bg_color,
    {
        self.fb = fb;
        self.font = font;
        self.y_pos = 0;
        self.clear();
    }

    /// Paint the screen the background colour and home the cursor.
    pub fn clear(&mut self)
        requires
            old(self).wf(),
        ensures
            final(self).wf(),
            final(self).state() == (clear_spec(old(self).fb.bytes@, old(self).geometry(), old(self).bg_color), 0int, 0int),
            final(self).geometry() == old(self).geometry(),
            final(self).font@ == old(self).font@,
            final(self).fg_color == old(self).fg_color && final(self).bg_color == old(self).bg_color,
    {
        let bg = self.bg_color;
        self.fb.fill(bg);
        self.x_pos = 0;
        self.y_pos = 0;
    }

    fn draw_char(&mut self, c: u8, x: usize, y: usize)
        requires
            old(self).wf(),
            x + FONT_WIDTH <= usize::MAX,
            y + FONT_HEIGHT <= usize::MAX,
        ensures
            final(self).fb.bytes@ == char_spec(
                old(self).fb.bytes@,
                old(self).geometry(),
                old(self).font@[c as int],
                x as int,
                y as int,
                old(self).fg_color,
                old(self).bg_color,
            ),
            final(self).wf(),
            final(self).geometry() == old(self).geometry(),
            final(self).font@ == old(self).font@,
            final(self).fg_color == old(self).fg_color && final(self).bg_color == old(self).bg_color,
            final(self).x_pos == old(self).x_pos && final(self).y_pos == old(self).y_pos,
    {
        let glyph = self.font[c as usize];
        let (fg, bg) = (self.fg_color, self.bg_color);
        self.fb.draw_glyph(&glyph, x, y, fg, bg);
    }

    fn fit(&mut self)
        requires
            old(self).fb.wf(),
            screen_fits(old(self).geometry()),
            old(self).font@.len() == 256,
            old(self).y_pos <= old(self).fb.height,
            old(self).y_pos + FONT_HEIGHT > old(self).fb.height ==> old(self).y_pos >= FONT_HEIGHT,
        ensures
            final(self).wf(),
            final(self).state() == fit_spec(old(self).state(), old(self).geometry()),
            final(self).geometry() == old(self).geometry(),
            final(self).font@ == old(self).font@,
            final(self).fg_color == old(self).fg_color && final(self).bg_color == old(self).bg_color,
    {
        if self.y_pos + FONT_HEIGHT > self.fb.height {
            self.fb.scroll_up();
            self.y_pos = self.y_pos - FONT_HEIGHT;
        }
    }

    /// Handle one received byte; see `driver_write_spec`.
    pub fn write_char(&mut self, c: u8)
        requires
            old(self).wf(),
            old(self).x_pos + FONT_WIDTH * TAB_SIZE <= usize::MAX,
        ensures
            final(self).wf(),
            final(self).state() == driver_write_spec(
                old(self).state(),
                old(self).geometry(),
                old(self).font@,
                old(self).fg_color,
                old(self).bg_color,
                c,
            ),
            final(self).geometry() == old(self).geometry(),
            final(self).font@ == old(self).font@,
            final(self).fg_color == old(self).fg_color && final(self).bg_color == old(self).bg_color,
    {
        if c == 10u8 {
            self.x_pos = 0;
            self.y_pos = self.y_pos + FONT_HEIGHT;
        } else if c == 8u8 {
            if self.x_pos >= FONT_WIDTH {
                self.x_pos = self.x_pos - FONT_WIDTH;
            } else if self.y_pos >= FONT_HEIGHT {
                self.y_pos = self.y_pos - FONT_HEIGHT;
                self.x_pos = self.fb.width - FONT_WIDTH;
            }
            let (x, y) = (self.x_pos, self.y_pos);
            self.draw_char(32u8, x, y);
        } else if c == 9u8 {
            self.x_pos = self.x_pos + FONT_WIDTH * TAB_SIZE;
        } else {
            if self.x_pos + FONT_WIDTH > self.fb.width {
                self.x_pos = 0;
                self.y_pos = self.y_pos + FONT_HEIGHT;
            }
            self.fit();
            let (x, y) = (self.x_pos, self.y_pos);
            self.draw_char(c, x, y);
            self.x_pos = self.x_pos + FONT_WIDTH;
        }
        self.fit();
    }
}

} // verus!
