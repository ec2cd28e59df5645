//! The GUI terminal: a 400 by 300 pixel client window that echoes keys with
//! a prompt, wrapping lines at the right edge.

use vstd::prelude::*;
use vstd::string::StringSliceAdditionalSpecFns;
use crate::font::{get_terminal_glyph, terminal_glyph};
use crate::libhuseyn::{Message, MSG_WINDOW_CREATE, MSG_WINDOW_DAMAGE};
use crate::raster;
use crate::raster::{fill_spec, glyph_spec, sized};

verus! {

pub const WIDTH: usize = 400;
pub const HEIGHT: usize = 300;
/// Where the terminal maps its shared pixel buffer.
pub const SHM_VADDR: u64 = 0xC000_0000;
/// PID of the compositor.
pub const COMPOSITOR_PID: usize = 5;
pub const BG_COLOR: u32 = 0xFF1E1E1E;
pub const TEXT_COLOR: u32 = 0xFFD4D4D4;
/// Columns left of this are the prompt, which backspace does not erase.
pub const PROMPT_END: usize = 124;

/// The terminal's window: its pixels (shared with the compositor) and the
/// text cursor.
pub struct Terminal {
    pub buffer: Vec<u32>,
    pub shm_id: u32,
    pub cursor_x: usize,
    pub cursor_y: usize,
    pub text_buffer: Vec<u8>,
}

/// `buf` with `text` drawn at `(x, y)` in the terminal's font, 7 pixels per
/// character.
pub open spec fn term_text_spec(buf: Seq<u32>, x: int, y: int, text: Seq<u8>, c: u32) -> Seq<u32>
    decreases text.len(),
{
    if text.len() == 0 {
        buf
    } else {
        glyph_spec(
            term_text_spec(buf, x, y, text.drop_last(), c),
            WIDTH as int,
            x + 7 * (text.len() - 1),
            y,
            terminal_glyph(text.last()),
            c,
        )
    }
}

/// The pixels and cursor after one character is printed: a newline moves
/// to the start of the next line; any other character is drawn at the
/// cursor, which advances and wraps when the next character would not fit.
pub open spec fn print_step(st: (Seq<u32>, int, int), ch: u8) -> (Seq<u32>, int, int) {
    let (px, cx, cy) = st;
    if ch == 10 {
        (px, 5, cy + 10)
    } else {
        let drawn = glyph_spec(px, WIDTH as int, cx, cy, terminal_glyph(ch), TEXT_COLOR);
        if cx + 14 >= WIDTH {
            (drawn, 5, cy + 10)
        } else {
            (drawn, cx + 7, cy)
        }
    }
}

/// The pixels and cursor after printing `s` from state `st`.
pub open spec fn print_spec(st: (Seq<u32>, int, int), s: Seq<u8>) -> (Seq<u32>, int, int)
    decreases s.len(),
{
    if s.len() == 0 {
        st
    } else {
        print_step(print_spec(st, s.drop_last()), s.last())
    }
}

/// The prompt printed after each entered line.
pub open spec fn prompt_line() -> Seq<u8> {
    seq![10u8, 114u8, 111u8, 111u8, 116u8, 64u8, 104u8, 117u8, 115u8, 101u8, 121u8, 110u8, 111u8,
        115u8, 58u8, 126u8, 36u8, 32u8]
}

proof fn lemma_print_bounds(st: (Seq<u32>, int, int), s: Seq<u8>)
    requires
        5 <= st.1,
        st.1 + 7 < WIDTH,
    ensures
        print_spec(st, s).0.len() == st.0.len(),
        5 <= print_spec(st, s).1,
        print_spec(st, s).1 + 7 < WIDTH,
        st.2 <= print_spec(st, s).2 <= st.2 + 10 * s.len(),
    decreases s.len(),
{
    if s.len() > 0 {
        lemma_print_bounds(st, s.drop_last());
    }
}

impl Terminal {
    /// The pixel buffer is the window's size and the cursor leaves room for
    /// one character on its line.
    pub open spec fn wf(&self) -> bool {
        &&& sized(self.buffer@, WIDTH as int, HEIGHT as int)
        &&& 5 <= self.cursor_x
        &&& self.cursor_x + 7 < WIDTH
    }

    /// The terminal's pixels and cursor as one value.
    pub open spec fn state(&self) -> (Seq<u32>, int, int) {
        (self.buffer@, self.cursor_x as int, self.cursor_y as int)
    }

    /// A terminal with no window yet and the cursor at (5, 5).
    pub fn new() -> (r: Terminal)
        ensures
            r.buffer@.len() == 0,
            r.shm_id == 0,
            r.cursor_x == 5 && r.cursor_y == 5,
            r.text_buffer@.len() == 0,
    {
        Terminal { buffer: Vec::new(), shm_id: 0, cursor_x: 5, cursor_y: 5, text_buffer: Vec::new() }
    }

    /// Take the shared buffer `shm_id` as the window and clear it.
    pub fn init(&mut self, shm_id: u32)
        requires
            5 <= old(self).cursor_x,
            old(self).cursor_x + 7 < WIDTH,
        ensures
            final(self).wf(),
            final(self).shm_id == shm_id,
            final(self).buffer@ == Seq::new((WIDTH * HEIGHT) as nat, |i: int| BG_COLOR),
            final(self).cursor_x == old(self).cursor_x,
            final(self).cursor_y == old(self).cursor_y,
    {
        self.shm_id = shm_id;
        self.buffer = vec![0u32; WIDTH * HEIGHT];
        self.clear();
        proof {
            assert forall|i: int| 0 <= i < self.buffer@.len() implies self.buffer@[i] == BG_COLOR by {
                raster::lemma_pixel_of(WIDTH as int, HEIGHT as int, i);
            }
            assert(self.buffer@ =~= Seq::new((WIDTH * HEIGHT) as nat, |i: int| BG_COLOR));
        }
    }

    /// The request that asks the compositor for this terminal's window.
    pub fn window_request(&self) -> (m: Message)
        ensures
            m.msg_type == MSG_WINDOW_CREATE,
            m.arg1 == WIDTH && m.arg2 == HEIGHT && m.arg3 == self.shm_id,
            m.sender == 0 && m.arg4 == 0 && m.arg5 == 0 && m.arg6 == 0,
    {
        let mut m = Message::empty();
        m.msg_type = MSG_WINDOW_CREATE;
        m.arg1 = WIDTH as u64;
        m.arg2 = HEIGHT as u64;
        m.arg3 = self.shm_id as u64;
        m
    }

    /// The message that tells the compositor the window changed.
    pub fn damage_message() -> (m: Message)
        ensures
            m.msg_type == MSG_WINDOW_DAMAGE,
            m.sender == 0 && m.arg1 == 0 && m.arg2 == 0 && m.arg3 == 0,
            m.arg4 == 0 && m.arg5 == 0 && m.arg6 == 0,
    {
        let mut m = Message::empty();
        m.msg_type = MSG_WINDOW_DAMAGE;
        m
    }

    /// Paint one pixel, if inside the window.
    pub fn set_pixel(&mut self, x: usize, y: usize, color: u32)
        requires
            old(self).wf(),
        ensures
            final(self).wf(),
            final(self).buffer@ == fill_spec(old(self).buffer@, WIDTH as int, x as int, y as int, 1, 1, color),
            final(self).cursor_x == old(self).cursor_x && final(self).cursor_y == old(self).cursor_y,
            final(self).shm_id == old(self).shm_id,
    {
        raster::set_pixel(&mut self.buffer, WIDTH, HEIGHT, x, y, color);
    }

    /// Paint a rectangle, clipped to the window.
    pub fn fill_rect(&mut self, x: usize, y: usize, w: usize, h: usize, color: u32)
        requires
            sized(old(self).buffer@, WIDTH as int, HEIGHT as int),
        ensures
            sized(final(self).buffer@, WIDTH as int, HEIGHT as int),
            final(self).buffer@ == fill_spec(old(self).buffer@, WIDTH as int, x as int, y as int, w as int, h as int, color),
            final(self).cursor_x == old(self).cursor_x && final(self).cursor_y == old(self).cursor_y,
            final(self).shm_id == old(self).shm_id,
    {
        raster::fill_rect(&mut self.buffer, WIDTH, HEIGHT, x, y, w, h, color);
    }

    /// Paint the whole window the background colour.
    pub fn clear(&mut self)
        requires
            sized(old(self).buffer@, WIDTH as int, HEIGHT as int),
        ensures
            sized(final(self).buffer@, WIDTH as int, HEIGHT as int),
            final(self).buffer@ == fill_spec(old(self).buffer@, WIDTH as int, 0, 0, WIDTH as int, HEIGHT as int, BG_COLOR),
            final(self).cursor_x == old(self).cursor_x && final(self).cursor_y == old(self).cursor_y,
            final(self).shm_id == old(self).shm_id,
    {
        self.fill_rect(0, 0, WIDTH, HEIGHT, BG_COLOR);
    }

    /// Draw one character of the terminal's font at `(x, y)`.
    pub fn draw_char(&mut self, ch: u8, x: usize, y: usize, color: u32)
        requires
            sized(old(self).buffer@, WIDTH as int, HEIGHT as int),
            x + 4 <= usize::MAX,
            y + 6 <= usize::MAX,
        ensures
            sized(final(self).buffer@, WIDTH as int, HEIGHT as int),
            final(self).buffer@ == glyph_spec(old(self).buffer@, WIDTH as int, x as int, y as int, terminal_glyph(ch), color),
            final(self).cursor_x == old(self).cursor_x && final(self).cursor_y == old(self).cursor_y,
            final(self).shm_id == old(self).shm_id,
    {
        let g = get_terminal_glyph(ch);
        raster::draw_glyph(&mut self.buffer, WIDTH, HEIGHT, x, y, &g, color);
    }

    /// Draw `text` at `(x, y)`, 7 pixels per character.
    pub fn draw_string(&mut self, x: usize, y: usize, text: &str, color: u32)
        requires
            sized(old(self).buffer@, WIDTH as int, HEIGHT as int),
            x + 7 * text.spec_bytes().len() + 4 <= usize::MAX,
            y + 6 <= usize::MAX,
        ensures
            sized(final(self).buffer@, WIDTH as int, HEIGHT as int),
            final(self).buffer@ == term_text_spec(old(self).buffer@, x as int, y as int, text.spec_bytes(), color),
            final(self).cursor_x == old(self).cursor_x && final(self).cursor_y == old(self).cursor_y,
            final(self).shm_id == old(self).shm_id,
    {
        let bytes = text.as_bytes();
        let ghost b0 = self.buffer@;
        let mut k: usize = 0;
        let mut cx = x;
        while k < bytes.len()
            invariant
                k <= bytes@.len(),
                bytes@ == text.spec_bytes(),
                cx == x + 7 * k,
                x + 7 * bytes@.len() + 4 <= usize::MAX,
                y + 6 <= usize::MAX,
                sized(self.buffer@, WIDTH as int, HEIGHT as int),
                self.buffer@ == term_text_spec(b0, x as int, y as int, bytes@.subrange(0, k as int), color),
                self.cursor_x == old(self).cursor_x && self.cursor_y == old(self).cursor_y,
                self.shm_id == old(self).shm_id,
            decreases bytes@.len() - k,
        {
            self.draw_char(bytes[k], cx, y, color);
            proof {
                let t = bytes@.subrange(0, k + 1);
                assert(t.drop_last() =~= bytes@.subrange(0, k as int));
            }
            cx = cx + 7;
            k = k + 1;
        }
        proof {
            assert(bytes@.subrange(0, k as int) =~= bytes@);
        }
    }

    fn print_bytes(&mut self, s: &[u8])
        requires
            old(self).wf(),
            old(self).cursor_y + 10 * s@.len() + 6 <= usize::MAX,
        ensures
            final(self).wf(),
            final(self).state() == print_spec(old(self).state(), s@),
            final(self).shm_id == old(self).shm_id,
    {
        let ghost st0 = self.state();
        let mut k: usize = 0;
        while k < s.len()
            invariant
                k <= s@.len(),
                self.wf(),
                st0.2 + 10 * s@.len() + 6 <= usize::MAX,
                5 <= st0.1,
                st0.1 + 7 < WIDTH,
                self.state() == print_spec(st0, s@.subrange(0, k as int)),
                self.shm_id == old(self).shm_id,
            decreases s@.len() - k,
        {
            proof {
                lemma_print_bounds(st0, s@.subrange(0, k as int));
                assert(s@.subrange(0, k + 1).drop_last() =~= s@.subrange(0, k as int));
            }
            let ch = s[k];
            if ch == 10u8 {
                self.cursor_x = 5;
                self.cursor_y = self.cursor_y + 10;
            } else {
                let (cx, cy) = (self.cursor_x, self.cursor_y);
                self.draw_char(ch, cx, cy, TEXT_COLOR);
                self.cursor_x = self.cursor_x + 7;
                if self.cursor_x + 7 >= WIDTH {
                    self.cursor_x = 5;
                    self.cursor_y = self.cursor_y + 10;
                }
            }
            k = k + 1;
        }
        proof {
            assert(s@.subrange(0, k as int) =~= s@);
        }
    }

    /// Print `s` at the cursor; the caller then tells the compositor the
    /// window changed.
    pub fn print(&mut self, s: &str)
        requires
            old(self).wf(),
            old(self).cursor_y + 10 * s.spec_bytes().len() + 6 <= usize::MAX,
        ensures
            final(self).wf(),
            final(self).state() == print_spec(old(self).state(), s.spec_bytes()),
            final(self).shm_id == old(self).shm_id,
    {
        self.print_bytes(s.as_bytes());
    }

    /// Handle a key from the keyboard: Enter prints a new prompt, backspace
    /// erases the last character typed (never the prompt), a printable
    /// character is echoed. Returns whether the window changed, in which
    /// case the caller tells the compositor.
    pub fn handle_key(&mut self, key: u8) -> (changed: bool)
        requires
            old(self).wf(),
            old(self).cursor_y + 200 <= usize::MAX,
        ensures
            final(self).wf(),
            final(self).shm_id == old(self).shm_id,
            key == 10 ==> changed && final(self).state() == print_spec(old(self).state(), prompt_line()),
            key == 8 ==> {
                &&& changed == (old(self).cursor_x > PROMPT_END)
                &&& changed ==> final(self).state() == (
                    fill_spec(old(self).buffer@, WIDTH as int, old(self).cursor_x - 7, old(self).cursor_y as int, 7, 8, BG_COLOR),
                    old(self).cursor_x - 7,
                    old(self).cursor_y as int,
                )
                &&& !changed ==> final(self).state() == old(self).state()
            },
            32 <= key <= 126 ==> changed && final(self).state() == print_spec(old(self).state(), seq![key]),
            key != 10 && key != 8 && !(32 <= key <= 126) ==> !changed && final(self).state() == old(self).state(),
    {
        if key == 10u8 {
            let p: [u8; 18] = [10u8, 114u8, 111u8, 111u8, 116u8, 64u8, 104u8, 117u8, 115u8, 101u8,
                121u8, 110u8, 111u8, 115u8, 58u8, 126u8, 36u8, 32u8];
            assert(p@ =~= prompt_line());
            self.print_bytes(&p);
            true
        } else if key == 8u8 {
            if self.cursor_x > PROMPT_END {
                self.cursor_x = self.cursor_x - 7;
                let (cx, cy) = (self.cursor_x, self.cursor_y);
                self.fill_rect(cx, cy, 7, 8, BG_COLOR);
                true
            } else {
                false
            }
        } else if key >= 32 && key <= 126 {
            let one: [u8; 1] = [key];
            assert(one@ =~= seq![key]);
            self.print_bytes(&one);
            true
        } else {
            false
        }
    }
}

/// Typing a printable character and then erasing it with backspace (past
/// the prompt, on the same line) puts the cursor back where it was and
/// leaves the window as if that character cell had just been blanked.
pub proof fn type_then_backspace(st: (Seq<u32>, int, int), key: u8)
    requires
        32 <= key <= 126,
        st.1 + 14 < WIDTH,
        st.1 + 7 > PROMPT_END,
    ensures
        print_spec(st, seq![key]).1 == st.1 + 7,
        print_spec(st, seq![key]).2 == st.2,
        fill_spec(print_spec(st, seq![key]).0, WIDTH as int, st.1, st.2, 7, 8, BG_COLOR) == fill_spec(
            st.0,
            WIDTH as int,
            st.1,
            st.2,
            7,
            8,
            BG_COLOR,
        ),
{
    assert(seq![key].drop_last() =~= Seq::<u8>::empty());
    assert(print_spec(st, seq![key].drop_last()) == st);
    assert(seq![key].last() == key);
    let g = terminal_glyph(key);
    let drawn = glyph_spec(st.0, WIDTH as int, st.1, st.2, g, TEXT_COLOR);
    assert(fill_spec(drawn, WIDTH as int, st.1, st.2, 7, 8, BG_COLOR) =~= fill_spec(
        st.0,
        WIDTH as int,
        st.1,
        st.2,
        7,
        8,
        BG_COLOR,
    ));
}

} // verus!
