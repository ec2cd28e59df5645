//! The kernel's text console on the boot framebuffer: 8 by 16 character
//! cells, newline, carriage return, tab stops every four cells, backspace
//! and scrolling.

use vstd::prelude::*;
use vstd::string::StringSliceAdditionalSpecFns;
use crate::framebuffer::{
    char_spec, clear_spec, scroll_spec, FrameBuffer, Geometry, FONT_HEIGHT, FONT_WIDTH,
};

verus! {

pub const COLOR_BLACK: u32 = 0x000000;
pub const COLOR_WHITE: u32 = 0xFFFFFF;
pub const COLOR_GRAY: u32 = 0xAAAAAA;
pub const COLOR_RED: u32 = 0xFF5555;
pub const COLOR_GREEN: u32 = 0x55FF55;
pub const COLOR_BLUE: u32 = 0x5555FF;
pub const TAB_SIZE: usize = 4;

/// The console: its framebuffer, once attached, the cursor, the colours and
/// the 256-glyph font.
pub struct Console {
    pub fb: FrameBuffer,
    /// Until a framebuffer is attached every drawing operation does nothing.
    pub attached: bool,
    pub x_pos: usize,
    pub y_pos: usize,
    pub fg_color: u32,
    pub bg_color: u32,
    pub font: Vec<[u8; 16]>,
}

/// The framebuffer bytes and the cursor `(x, y)`.
pub type TextState = (Seq<u8>, int, int);

/// Next line; at the bottom the screen scrolls and the cursor stays on the
/// last line.
pub open spec fn newline_spec(st: TextState, g: Geometry) -> TextState {
    let y = st.2 + FONT_HEIGHT;
    if y + FONT_HEIGHT > g.height {
        (scroll_spec(st.0, g), 0, g.height - FONT_HEIGHT)
    } else {
        (st.0, 0, y)
    }
}

/// An ordinary character: wrap first if it would reach the right edge,
/// then draw it and advance.
pub open spec fn plain_spec(st: TextState, g: Geometry, glyph: [u8; 16], fg: u32, bg: u32) -> TextState {
    let s1 = if st.1 + FONT_WIDTH >= g.width { newline_spec(st, g) } else { st };
    (char_spec(s1.0, g, glyph, s1.1, s1.2, fg, bg), s1.1 + FONT_WIDTH, s1.2)
}

/// `n` ordinary characters with the same glyph.
pub open spec fn repeat_spec(st: TextState, g: Geometry, glyph: [u8; 16], fg: u32, bg: u32, n: nat) -> TextState
    decreases n,
{
    if n == 0 {
        st
    } else {
        plain_spec(repeat_spec(st, g, glyph, fg, bg, (n - 1) as nat), g, glyph, fg, bg)
    }
}

/// Backspace: step back one cell, to the end of the previous line at the
/// start of a line, and blank that cell; nothing at the top-left corner.
pub open spec fn backspace_spec(st: TextState, g: Geometry, space: [u8; 16], fg: u32, bg: u32) -> TextState {
    if st.1 >= FONT_WIDTH {
        let x = st.1 - FONT_WIDTH;
        (char_spec(st.0, g, space, x, st.2, fg, bg), x, st.2)
    } else if st.2 >= FONT_HEIGHT {
        let x = g.width - FONT_WIDTH;
        let y = st.2 - FONT_HEIGHT;
        (char_spec(st.0, g, space, x, y, fg, bg), x, y)
    } else {
        st
    }
}

/// Spaces a tab writes: up to the next multiple of four cells.
pub open spec fn tab_spaces(x: int) -> nat {
    (TAB_SIZE - ((x / FONT_WIDTH as int) % TAB_SIZE as int)) as nat
}

/// One byte written to the console.
pub open spec fn write_spec(st: TextState, g: Geometry, font: Seq<[u8; 16]>, fg: u32, bg: u32, c: u8) -> TextState {
    if c == 10 {
        newline_spec(st, g)
    } else if c == 13 {
        (st.0, 0, st.2)
    } else if c == 9 {
        repeat_spec(st, g, font[32], fg, bg, tab_spaces(st.1))
    } else if c == 8 {
        backspace_spec(st, g, font[32], fg, bg)
    } else {
        plain_spec(st, g, font[c as int], fg, bg)
    }
}

/// A string written byte by byte.
pub open spec fn write_str_spec(st: TextState, g: Geometry, font: Seq<[u8; 16]>, fg: u32, bg: u32, s: Seq<u8>) -> TextState
    decreases s.len(),
{
    if s.len() == 0 {
        st
    } else {
        write_spec(write_str_spec(st, g, font, fg, bg, s.drop_last()), g, font, fg, bg, s.last())
    }
}

/// The cursor stays on screen: a whole cell fits below it and it is at
/// most at the right edge.
pub open spec fn cursor_ok(st: TextState, g: Geometry) -> bool {
    0 <= st.1 <= g.width && 0 <= st.2 && st.2 + FONT_HEIGHT <= g.height
}

/// The screen has room for at least one character cell.
pub open spec fn screen_fits(g: Geometry) -> bool {
    &&& g.width >= FONT_WIDTH && g.height >= FONT_HEIGHT
    &&& g.width <= usize::MAX / 4 && g.height <= usize::MAX / 4
}

impl Console {
    pub open spec fn state(&self) -> TextState {
        (self.fb.bytes@, self.x_pos as int, self.y_pos as int)
    }

    pub open spec fn geometry(&self) -> Geometry {
        self.fb.geometry()
    }

    /// An attached console has a well-formed framebuffer with room for a
    /// cell, a full font, and its cursor on screen.
    pub open spec fn wf(&self) -> bool {
        self.attached ==> {
            &&& self.fb.wf()
            &&& screen_fits(self.geometry())
            &&& self.font@.len() == 256
            &&& cursor_ok(self.state(), self.geometry())
        }
    }

    /// A console with no framebuffer yet, white on black.
    pub fn new() -> (r: Console)
        ensures
            r.wf(),
            !r.attached,
            r.x_pos == 0 && r.y_pos == 0,
            r.fg_color == COLOR_WHITE && r.bg_color == COLOR_BLACK,
    {
        Console {
            fb: FrameBuffer { bytes: Vec::new(), width: 0, height: 0, pitch: 0, bpp: 0 },
            attached: false,
            x_pos: 0,
            y_pos: 0,
            fg_color: COLOR_WHITE,
            bg_color: COLOR_BLACK,
            font: Vec::new(),
        }
    }

    /// Attach the framebuffer `fb` with the font `font`, then clear it.
    pub fn init(&mut self, fb: FrameBuffer, font: Vec<[u8; 16]>)
        requires
            fb.wf(),
            screen_fits(fb.geometry()),
            font@.len() == 256,
        ensures
            final(self).wf(),
            final(self).attached,
            final(self).geometry() == fb.geometry(),
            final(self).font@ == font@,
            final(self).fb.bytes@ == clear_spec(fb.bytes@, fb.geometry(), old(self).bg_color),
            final(self).x_pos == 0 && final(self).y_pos == 0,
            final(self).fg_color == old(self).fg_color && final(self).bg_color == old(self).bg_color,
    {
        self.fb = fb;
        self.font = font;
        self.attached = true;
        self.x_pos = 0;
        self.y_pos = 0;
        self.clear();
    }

    /// Set the foreground and background colours.
    pub fn set_colors(&mut self, fg: u32, bg: u32)
        requires
            old(self).wf(),
        ensures
            final(self).wf(),
            final(self).fg_color == fg && final(self).bg_color == bg,
            final(self).state() == old(self).state(),
            final(self).attached == old(self).attached,
            final(self).geometry() == old(self).geometry(),
            final(self).font@ == old(self).font@,
    {
        self.fg_color = fg;
        self.bg_color = bg;
    }

    /// Paint the screen the background colour and home the cursor; nothing
    /// while no framebuffer is attached.
    pub fn clear(&mut self)
        requires
            old(self).wf(),
        ensures
            final(self).wf(),
            final(self).attached == old(self).attached,
            final(self).geometry() == old(self).geometry(),
            final(self).font@ == old(self).font@,
            final(self).fg_color == old(self).fg_color && final(self).bg_color == old(self).bg_color,
            old(self).attached ==> final(self).state() == (
                clear_spec(old(self).fb.bytes@, old(self).geometry(), old(self).bg_color),
                0int,
                0int,
            ),
            !old(self).attached ==> final(self).state() == old(self).state(),
    {
        if !self.attached {
            return;
        }
        let bg = self.bg_color;
        self.fb.fill(bg);
        self.x_pos = 0;
        self.y_pos = 0;
    }

    fn draw_char(&mut self, c: u8, x: usize, y: usize)
        requires
            old(self).attached,
            old(self).fb.wf(),
            old(self).font@.len() == 256,
            x + FONT_WIDTH <= usize::MAX,
            y + FONT_HEIGHT <= usize::MAX,
        ensures
            final(self).fb.bytes@ == char_spec(
                old(self).fb.bytes@,
                old(self).geometry(),
                old(self).font@[c as int],
                x as int,
                y as int,
                old(self).fg_color,
                old(self).bg_color,
            ),
            final(self).fb.wf(),
            final(self).geometry() == old(self).geometry(),
            final(self).attached && final(self).font@ == old(self).font@,
            final(self).fg_color == old(self).fg_color && final(self).bg_color == old(self).bg_color,
            final(self).x_pos == old(self).x_pos && final(self).y_pos == old(self).y_pos,
    {
        let glyph = self.font[c as usize];
        let (fg, bg) = (self.fg_color, self.bg_color);
        self.fb.draw_glyph(&glyph, x, y, fg, bg);
    }

    fn newline(&mut self)
        requires
            old(self).attached,
            old(self).wf(),
        ensures
            final(self).wf(),
            final(self).state() == newline_spec(old(self).state(), old(self).geometry()),
            final(self).geometry() == old(self).geometry(),
            final(self).attached && final(self).font@ == old(self).font@,
            final(self).fg_color == old(self).fg_color && final(self).bg_color == old(self).bg_color,
    {
        self.x_pos = 0;
        self.y_pos = self.y_pos + FONT_HEIGHT;
        if self.y_pos + FONT_HEIGHT > self.fb.height {
            self.fb.scroll_up();
            self.y_pos = self.fb.height - FONT_HEIGHT;
        }
    }

    fn put_plain(&mut self, c: u8)
        requires
            old(self).attached,
            old(self).wf(),
        ensures
            final(self).wf(),
            final(self).state() == plain_spec(
                old(self).state(),
                old(self).geometry(),
                old(self).font@[c as int],
                old(self).fg_color,
                old(self).bg_color,
            ),
            final(self).geometry() == old(self).geometry(),
            final(self).attached && final(self).font@ == old(self).font@,
            final(self).fg_color == old(self).fg_color && final(self).bg_color == old(self).bg_color,
    {
        if self.x_pos + FONT_WIDTH >= self.fb.width {
            self.newline();
        }
        let (x, y) = (self.x_pos, self.y_pos);
        self.draw_char(c, x, y);
        self.x_pos = self.x_pos + FONT_WIDTH;
    }

    fn backspace(&mut self)
        requires
            old(self).attached,
            old(self).wf(),
        ensures
            final(self).wf(),
            final(self).state() == backspace_spec(
                old(self).state(),
                old(self).geometry(),
                old(self).font@[32],
                old(self).fg_color,
                old(self).bg_color,
            ),
            final(self).geometry() == old(self).geometry(),
            final(self).attached && final(self).font@ == old(self).font@,
            final(self).fg_color == old(self).fg_color && final(self).bg_color == old(self).bg_color,
    {
        if self.x_pos >= FONT_WIDTH {
            self.x_pos = self.x_pos - FONT_WIDTH;
            let (x, y) = (self.x_pos, self.y_pos);
            self.draw_char(32u8, x, y);
        } else if self.y_pos >= FONT_HEIGHT {
            self.y_pos = self.y_pos - FONT_HEIGHT;
            self.x_pos = self.fb.width - FONT_WIDTH;
            let (x, y) = (self.x_pos, self.y_pos);
            self.draw_char(32u8, x, y);
        }
    }

    /// Write one byte: newline, carriage return, tab, backspace, or a
    /// character drawn at the cursor; nothing while no framebuffer is
    /// attached.
    pub fn write_char(&mut self, c: u8)
        requires
            old(self).wf(),
        ensures
            final(self).wf(),
            final(self).geometry() == old(self).geometry(),
            final(self).attached == old(self).attached,
            final(self).font@ == old(self).font@,
            final(self).fg_color == old(self).fg_color && final(self).bg_color == old(self).bg_color,
            old(self).attached ==> final(self).state() == write_spec(
                old(self).state(),
                old(self).geometry(),
                old(self).font@,
                old(self).fg_color,
                old(self).bg_color,
                c,
            ),
            !old(self).attached ==> final(self).state() == old(self).state(),
            old(self).attached && old(self).geometry().width > FONT_WIDTH && cell_on_screen(
                old(self).state(),
                old(self).geometry(),
            ) ==> cell_on_screen(final(self).state(), final(self).geometry()),
    {
        proof {
            if old(self).attached && old(self).geometry().width > FONT_WIDTH && cell_on_screen(
                old(self).state(),
                old(self).geometry(),
            ) {
                write_keeps_cell_on_screen(
                    old(self).state(),
                    old(self).geometry(),
                    old(self).font@,
                    old(self).fg_color,
                    old(self).bg_color,
                    c,
                );
            }
        }
        if !self.attached {
            return;
        }
        if c == 10u8 {
            self.newline();
        } else if c == 13u8 {
            self.x_pos = 0;
        } else if c == 9u8 {
            let spaces = TAB_SIZE - ((self.x_pos / FONT_WIDTH) % TAB_SIZE);
            let ghost st0 = self.state();
            let mut k: usize = 0;
            while k < spaces
                invariant
                    k <= spaces,
                    spaces == tab_spaces(st0.1),
                    self.attached,
                    self.wf(),
                    self.geometry() == old(self).geometry(),
                    self.font@ == old(self).font@,
                    self.fg_color == old(self).fg_color && self.bg_color == old(self).bg_color,
                    st0 == old(self).state(),
                    self.state() == repeat_spec(
                        st0,
                        old(self).geometry(),
                        old(self).font@[32],
                        old(self).fg_color,
                        old(self).bg_color,
                        k as nat,
                    ),
                decreases spaces - k,
            {
                self.put_plain(32u8);
                k = k + 1;
            }
        } else if c == 8u8 {
            self.backspace();
        } else {
            self.put_plain(c);
        }
    }

    /// Write every byte of `s`.
    pub fn write_str(&mut self, s: &str)
        requires
            old(self).wf(),
        ensures
            final(self).wf(),
            final(self).geometry() == old(self).geometry(),
            final(self).attached == old(self).attached,
            final(self).font@ == old(self).font@,
            final(self).fg_color == old(self).fg_color && final(self).bg_color == old(self).bg_color,
            old(self).attached ==> final(self).state() == write_str_spec(
                old(self).state(),
                old(self).geometry(),
                old(self).font@,
                old(self).fg_color,
                old(self).bg_color,
                s.spec_bytes(),
            ),
            !old(self).attached ==> final(self).state() == old(self).state(),
    {
        let bytes = s.as_bytes();
        let ghost st0 = self.state();
        let mut k: usize = 0;
        while k < bytes.len()
            invariant
                k <= bytes@.len(),
                self.wf(),
                self.geometry() == old(self).geometry(),
                self.attached == old(self).attached,
                self.font@ == old(self).font@,
                self.fg_color == old(self).fg_color && self.bg_color == old(self).bg_color,
                st0 == old(self).state(),
                old(self).attached ==> self.state() == write_str_spec(
                    st0,
                    old(self).geometry(),
                    old(self).font@,
                    old(self).fg_color,
                    old(self).bg_color,
                    bytes@.subrange(0, k as int),
                ),
                !old(self).attached ==> self.state() == st0,
            decreases bytes@.len() - k,
        {
            self.write_char(bytes[k]);
            proof {
                assert(bytes@.subrange(0, k + 1).drop_last() =~= bytes@.subrange(0, k as int));
            }
            k = k + 1;
        }
        proof {
            assert(bytes@.subrange(0, k as int) =~= bytes@);
        }
    }
}

/// The cursor's cell lies wholly on screen: its column below the width and
/// a whole character row below it.
pub open spec fn cell_on_screen(st: TextState, g: Geometry) -> bool {
    0 <= st.1 < g.width && 0 <= st.2 && st.2 + FONT_HEIGHT <= g.height
}

proof fn lemma_plain_on_screen(st: TextState, g: Geometry, glyph: [u8; 16], fg: u32, bg: u32)
    requires
        g.width > FONT_WIDTH,
        cell_on_screen(st, g),
    ensures
        cell_on_screen(plain_spec(st, g, glyph, fg, bg), g),
{
}

proof fn lemma_repeat_on_screen(st: TextState, g: Geometry, glyph: [u8; 16], fg: u32, bg: u32, n: nat)
    requires
        g.width > FONT_WIDTH,
        cell_on_screen(st, g),
    ensures
        cell_on_screen(repeat_spec(st, g, glyph, fg, bg, n), g),
    decreases n,
{
    if n > 0 {
        lemma_repeat_on_screen(st, g, glyph, fg, bg, (n - 1) as nat);
        lemma_plain_on_screen(repeat_spec(st, g, glyph, fg, bg, (n - 1) as nat), g, glyph, fg, bg);
    }
}

/// On a screen wider than one cell, writing any byte keeps the cursor's
/// cell on screen: its column stays below the width and a whole row fits
/// below it.
pub proof fn write_keeps_cell_on_screen(
    st: TextState,
    g: Geometry,
    font: Seq<[u8; 16]>,
    fg: u32,
    bg: u32,
    c: u8,
)
    requires
        g.width > FONT_WIDTH,
        cell_on_screen(st, g),
    ensures
        cell_on_screen(write_spec(st, g, font, fg, bg, c), g),
{
    if c == 9 {
        lemma_repeat_on_screen(st, g, font[32], fg, bg, tab_spaces(st.1));
    } else if c != 10 && c != 13 && c != 8 {
        lemma_plain_on_screen(st, g, font[c as int], fg, bg);
    }
}

/// The same for a whole string written byte by byte.
pub proof fn write_str_keeps_cell_on_screen(
    st: TextState,
    g: Geometry,
    font: Seq<[u8; 16]>,
    fg: u32,
    bg: u32,
    s: Seq<u8>,
)
    requires
        g.width > FONT_WIDTH,
        cell_on_screen(st, g),
    ensures
        cell_on_screen(write_str_spec(st, g, font, fg, bg, s), g),
    decreases s.len(),
{
    if s.len() > 0 {
        write_str_keeps_cell_on_screen(st, g, font, fg, bg, s.drop_last());
        write_keeps_cell_on_screen(
            write_str_spec(st, g, font, fg, bg, s.drop_last()),
            g,
            font,
            fg,
            bg,
            s.last(),
        );
    }
}

proof fn lemma_repeat_no_wrap(st: TextState, g: Geometry, glyph: [u8; 16], fg: u32, bg: u32, n: nat)
    requires
        0 <= st.1,
        st.1 + FONT_WIDTH * n < g.width,
    ensures
        repeat_spec(st, g, glyph, fg, bg, n).1 == st.1 + FONT_WIDTH * n,
        repeat_spec(st, g, glyph, fg, bg, n).2 == st.2,
    decreases n,
{
    if n > 0 {
        lemma_repeat_no_wrap(st, g, glyph, fg, bg, (n - 1) as nat);
    }
}

/// A tab moves the cursor to the next tab stop (one every four cells,
/// every 32 pixels) strictly after it, on the same row, when that stop lies
/// before the right edge: it writes between one and four spaces, never none.
pub proof fn tab_moves_to_next_stop(st: TextState, g: Geometry, font: Seq<[u8; 16]>, fg: u32, bg: u32)
    requires
        0 <= st.1,
        st.1 % 8 == 0,
        (st.1 / 32 + 1) * 32 < g.width,
    ensures
        write_spec(st, g, font, fg, bg, 9).1 == (st.1 / 32 + 1) * 32,
        write_spec(st, g, font, fg, bg, 9).2 == st.2,
        st.1 < write_spec(st, g, font, fg, bg, 9).1 <= st.1 + 32,
{
    let x = st.1;
    let a = x / 8;
    assert(x / 32 == a / 4 && a == 4 * (a / 4) + a % 4 && x == 8 * a) by (nonlinear_arith)
        requires
            x >= 0,
            x % 8 == 0,
            a == x / 8,
    ;
    assert(x + FONT_WIDTH * tab_spaces(x) == (x / 32 + 1) * 32);
    lemma_repeat_no_wrap(st, g, font[32], fg, bg, tab_spaces(x));
}

/// A carriage return moves the cursor to the start of its row and draws
/// nothing.
pub proof fn carriage_return_goes_to_row_start(st: TextState, g: Geometry, font: Seq<[u8; 16]>, fg: u32, bg: u32)
    ensures
        write_spec(st, g, font, fg, bg, 13) == (st.0, 0int, st.2),
{
}

/// A newline moves the cursor to the start of the next row; on the last row
/// the screen scrolls and the cursor stays on that row.
pub proof fn newline_goes_to_next_row(st: TextState, g: Geometry, font: Seq<[u8; 16]>, fg: u32, bg: u32)
    ensures
        write_spec(st, g, font, fg, bg, 10).1 == 0,
        st.2 + 32 <= g.height ==> write_spec(st, g, font, fg, bg, 10) == (st.0, 0int, st.2 + 16),
        st.2 + 32 > g.height ==> write_spec(st, g, font, fg, bg, 10).2 == g.height - 16,
{
}

/// A printable character before the right edge is drawn at the cursor,
/// which moves one cell right on the same row; at the edge it goes to the
/// start of the next row first.
pub proof fn character_advances_one_cell(st: TextState, g: Geometry, font: Seq<[u8; 16]>, fg: u32, bg: u32, c: u8)
    requires
        c != 8 && c != 9 && c != 10 && c != 13,
    ensures
        st.1 + 8 < g.width ==> write_spec(st, g, font, fg, bg, c) == (
            char_spec(st.0, g, font[c as int], st.1, st.2, fg, bg),
            st.1 + 8,
            st.2,
        ),
        st.1 + 8 >= g.width ==> write_spec(st, g, font, fg, bg, c).1 == 8,
{
}

/// A backspace moves the cursor one cell left and blanks that cell; at the
/// start of a row it goes to the last cell of the row above.
pub proof fn backspace_steps_back(st: TextState, g: Geometry, font: Seq<[u8; 16]>, fg: u32, bg: u32)
    ensures
        st.1 >= 8 ==> write_spec(st, g, font, fg, bg, 8) == (
            char_spec(st.0, g, font[32], st.1 - 8, st.2, fg, bg),
            st.1 - 8,
            st.2,
        ),
        st.1 < 8 && st.2 >= 16 ==> write_spec(st, g, font, fg, bg, 8).1 == g.width - 8 && write_spec(
            st,
            g,
            font,
            fg,
            bg,
            8,
        ).2 == st.2 - 16,
        st.1 < 8 && st.2 < 16 ==> write_spec(st, g, font, fg, bg, 8) == st,
{
}

/// Writing two strings one after the other is writing them joined.
pub proof fn write_str_joins(st: TextState, g: Geometry, font: Seq<[u8; 16]>, fg: u32, bg: u32, a: Seq<u8>, b: Seq<u8>)
    ensures
        write_str_spec(st, g, font, fg, bg, a + b) == write_str_spec(
            write_str_spec(st, g, font, fg, bg, a),
            g,
            font,
            fg,
            bg,
            b,
        ),
    decreases b.len(),
{
    if b.len() > 0 {
        write_str_joins(st, g, font, fg, bg, a, b.drop_last());
        assert((a + b).drop_last() =~= a + b.drop_last());
    } else {
        assert(a + b =~= a);
    }
}

/// Writing a one-byte string is writing that byte.
pub proof fn write_str_one_byte(st: TextState, g: Geometry, font: Seq<[u8; 16]>, fg: u32, bg: u32, c: u8)
    ensures
        write_str_spec(st, g, font, fg, bg, seq![c]) == write_spec(st, g, font, fg, bg, c),
{
    let one = seq![c];
    assert(one.drop_last() =~= Seq::<u8>::empty());
    assert(one.last() == c);
    assert(write_str_spec(st, g, font, fg, bg, Seq::<u8>::empty()) == st);
    assert(write_str_spec(st, g, font, fg, bg, one) == write_spec(
        write_str_spec(st, g, font, fg, bg, one.drop_last()),
        g,
        font,
        fg,
        bg,
        one.last(),
    ));
}

} // verus!
