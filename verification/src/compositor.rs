//! The window compositor: window geometry and hit testing, the scene drawn
//! into the back buffer, and the handling of input and window messages.

use vstd::prelude::*;
use vstd::string::StringSliceAdditionalSpecFns;
use crate::font::{get_mini_glyph, mini_glyph};
use crate::libhuseyn::{
    Message, MSG_MOUSE_CLICK, MSG_MOUSE_MOVE, MSG_QUIT, MSG_WINDOW_CREATE, MSG_WINDOW_DAMAGE,
};
use crate::raster;
use crate::raster::{fill_spec, glyph_spec, sized, text_spec, col_of, row_of, lemma_pixel_of, lemma_index};

verus! {

pub const CURSOR_SIZE: usize = 16;
pub const TASKBAR_HEIGHT: usize = 32;
pub const TITLE_BAR_HEIGHT: usize = 24;
pub const BORDER_WIDTH: usize = 1;
pub const CLOSE_BTN_SIZE: usize = 16;
pub const CLOSE_BTN_MARGIN: usize = 4;

pub const WALL_TOP_R: u32 = 10;
pub const WALL_TOP_G: u32 = 10;
pub const WALL_TOP_B: u32 = 30;
pub const WALL_BOT_R: u32 = 40;
pub const WALL_BOT_G: u32 = 20;
pub const WALL_BOT_B: u32 = 80;

pub const COLOR_TASKBAR_TOP: u32 = 0xFF1A1A2E;
pub const COLOR_TASKBAR_BOTTOM: u32 = 0xFF222240;
pub const COLOR_TASKBAR_LINE: u32 = 0xFF4A4A6A;
pub const COLOR_POWER_BG: u32 = 0xFF8B0000;
pub const COLOR_TITLE_ACTIVE_TOP: u32 = 0xFF2D5A8A;
pub const COLOR_TITLE_ACTIVE_BOT: u32 = 0xFF1A3A5C;
pub const COLOR_TITLE_TEXT_ACTIVE: u32 = 0xFFFFFFFF;
pub const COLOR_BORDER_ACTIVE: u32 = 0xFF4A90D9;
pub const COLOR_TITLE_INACTIVE_TOP: u32 = 0xFF3A3A3A;
pub const COLOR_TITLE_INACTIVE_BOT: u32 = 0xFF2A2A2A;
pub const COLOR_TITLE_TEXT_INACTIVE: u32 = 0xFF888888;
pub const COLOR_BORDER_INACTIVE: u32 = 0xFF555555;
pub const COLOR_CLOSE_BG: u32 = 0xFFCC3333;
pub const COLOR_CLOSE_X: u32 = 0xFFFFFFFF;
pub const COLOR_CURSOR: u32 = 0xFFFFFFFF;
pub const COLOR_CURSOR_BORDER: u32 = 0xFF000000;
pub const COLOR_CLOCK: u32 = 0xFFE0E0FF;
pub const COLOR_POWER_TEXT: u32 = 0xFFFFFFFF;

/// The mouse cursor: 1 = fill, 2 = outline, 0 = transparent.
pub const CURSOR_BITMAP: [[u8; 16]; 16] = [
    [2, 0, 0, 0, 0, 0, 0, 0, 0, 0, 0, 0, 0, 0, 0, 0],
    [2, 2, 0, 0, 0, 0, 0, 0, 0, 0, 0, 0, 0, 0, 0, 0],
    [2, 1, 2, 0, 0, 0, 0, 0, 0, 0, 0, 0, 0, 0, 0, 0],
    [2, 1, 1, 2, 0, 0, 0, 0, 0, 0, 0, 0, 0, 0, 0, 0],
    [2, 1, 1, 1, 2, 0, 0, 0, 0, 0, 0, 0, 0, 0, 0, 0],
    [2, 1, 1, 1, 1, 2, 0, 0, 0, 0, 0, 0, 0, 0, 0, 0],
    [2, 1, 1, 1, 1, 1, 2, 0, 0, 0, 0, 0, 0, 0, 0, 0],
    [2, 1, 1, 1, 1, 1, 1, 2, 0, 0, 0, 0, 0, 0, 0, 0],
    [2, 1, 1, 1, 1, 1, 1, 1, 2, 0, 0, 0, 0, 0, 0, 0],
    [2, 1, 1, 1, 1, 1, 1, 1, 1, 2, 0, 0, 0, 0, 0, 0],
    [2, 1, 1, 1, 1, 1, 2, 2, 2, 2, 2, 0, 0, 0, 0, 0],
    [2, 1, 1, 2, 1, 1, 2, 0, 0, 0, 0, 0, 0, 0, 0, 0],
    [2, 1, 2, 0, 2, 1, 1, 2, 0, 0, 0, 0, 0, 0, 0, 0],
    [2, 2, 0, 0, 2, 1, 1, 2, 0, 0, 0, 0, 0, 0, 0, 0],
    [2, 0, 0, 0, 0, 2, 1, 1, 2, 0, 0, 0, 0, 0, 0, 0],
    [0, 0, 0, 0, 0, 2, 2, 2, 2, 0, 0, 0, 0, 0, 0, 0],
];

/// A client window: its client area is `width` by `height`, drawn below a
/// title bar and inside a one-pixel border.
pub struct Window {
    pub id: u64,
    /// PID of the process that created the window.
    pub owner_pid: usize,
    pub x: usize,
    pub y: usize,
    pub width: usize,
    pub height: usize,
    pub shm_id: u32,
    /// Where the window's shared pixel buffer is mapped.
    pub buffer: u64,
    pub title: [u8; 32],
    pub title_len: usize,
}

/// The window's geometry stays within `usize` arithmetic.
pub open spec fn window_fits(w: Window) -> bool {
    w.x + w.width + 2 <= usize::MAX && w.y + w.height + 26 <= usize::MAX
}

pub open spec fn total_width_of(w: Window) -> int {
    w.width + 2 * BORDER_WIDTH
}

pub open spec fn total_height_of(w: Window) -> int {
    w.height + TITLE_BAR_HEIGHT + 2 * BORDER_WIDTH
}

/// Left edge of the close button.
pub open spec fn close_x(w: Window) -> int {
    w.x + total_width_of(w) - BORDER_WIDTH - CLOSE_BTN_MARGIN - CLOSE_BTN_SIZE
}

/// Top edge of the close button.
pub open spec fn close_y(w: Window) -> int {
    w.y + BORDER_WIDTH + (TITLE_BAR_HEIGHT - CLOSE_BTN_SIZE) / 2
}

pub open spec fn hits_title_bar(w: Window, mx: int, my: int) -> bool {
    w.x <= mx < w.x + total_width_of(w) && w.y + BORDER_WIDTH <= my < w.y + BORDER_WIDTH
        + TITLE_BAR_HEIGHT
}

pub open spec fn hits_close(w: Window, mx: int, my: int) -> bool {
    close_x(w) <= mx < close_x(w) + CLOSE_BTN_SIZE && close_y(w) <= my < close_y(w) + CLOSE_BTN_SIZE
}

pub open spec fn hits_window(w: Window, mx: int, my: int) -> bool {
    w.x <= mx < w.x + total_width_of(w) && w.y <= my < w.y + total_height_of(w)
}

impl Window {
    /// Width including the border.
    pub fn total_width(&self) -> (r: usize)
        requires
            window_fits(*self),
        ensures
            r == total_width_of(*self),
    {
        self.width + 2 * BORDER_WIDTH
    }

    /// Height including the title bar and the border.
    pub fn total_height(&self) -> (r: usize)
        requires
            window_fits(*self),
        ensures
            r == total_height_of(*self),
    {
        self.height + TITLE_BAR_HEIGHT + 2 * BORDER_WIDTH
    }

    /// Screen column of the client area.
    pub fn client_x(&self) -> (r: usize)
        requires
            window_fits(*self),
        ensures
            r == self.x + BORDER_WIDTH,
    {
        self.x + BORDER_WIDTH
    }

    /// Screen row of the client area.
    pub fn client_y(&self) -> (r: usize)
        requires
            window_fits(*self),
        ensures
            r == self.y + TITLE_BAR_HEIGHT + BORDER_WIDTH,
    {
        self.y + TITLE_BAR_HEIGHT + BORDER_WIDTH
    }

    /// The point lies in the title bar (full width, below the top border).
    pub fn hit_title_bar(&self, mx: usize, my: usize) -> (r: bool)
        requires
            window_fits(*self),
        ensures
            r == hits_title_bar(*self, mx as int, my as int),
    {
        mx >= self.x && mx < self.x + self.total_width() && my >= self.y + BORDER_WIDTH && my
            < self.y + BORDER_WIDTH + TITLE_BAR_HEIGHT
    }

    /// The point lies on the close button.
    pub fn hit_close_button(&self, mx: usize, my: usize) -> (r: bool)
        requires
            window_fits(*self),
            close_x(*self) >= 0,
        ensures
            r == hits_close(*self, mx as int, my as int),
    {
        let btn_x = self.x + self.total_width() - BORDER_WIDTH - CLOSE_BTN_MARGIN - CLOSE_BTN_SIZE;
        let btn_y = self.y + BORDER_WIDTH + (TITLE_BAR_HEIGHT - CLOSE_BTN_SIZE) / 2;
        mx >= btn_x && mx < btn_x + CLOSE_BTN_SIZE && my >= btn_y && my < btn_y + CLOSE_BTN_SIZE
    }

    /// The point lies anywhere in the window, decorations included.
    pub fn hit_anywhere(&self, mx: usize, my: usize) -> (r: bool)
        requires
            window_fits(*self),
        ensures
            r == hits_window(*self, mx as int, my as int),
    {
        mx >= self.x && mx < self.x + self.total_width() && my >= self.y && my < self.y
            + self.total_height()
    }

    /// Whether the window can be hit-tested; see `window_clickable`.
    fn clickable(&self) -> (r: bool)
        ensures
            r == window_clickable(*self),
    {
        let x = self.x as u128;
        let y = self.y as u128;
        let max = usize::MAX as u128;
        x + (self.width as u128) + 2 <= max && y + (self.height as u128) + 26 <= max && x + (
        self.width as u128) >= 19
    }

    /// Whether the window can be drawn; see `window_drawable`.
    pub fn drawable(&self) -> (r: bool)
        ensures
            r == window_drawable(*self),
    {
        let x = self.x as u128;
        let y = self.y as u128;
        let max = usize::MAX as u128;
        x + (self.width as u128) + 2 <= max && y + (self.height as u128) + 26 <= max && x + (
        self.width as u128) >= 19 && self.title_len <= 32 && x + 240 <= max
    }
}

/// One 8-bit colour channel at bit offset `s`.
pub open spec fn chan(c: u32, s: u32) -> int {
    ((c >> s) & 0xFF) as int
}

pub open spec fn abs(v: int) -> int {
    if v < 0 { -v } else { v }
}

/// Division rounding toward zero, as Rust's integer division does.
pub open spec fn tdiv(a: int, b: int) -> int {
    let q = abs(a) / abs(b);
    if (a < 0) == (b < 0) { q } else { -q }
}

pub open spec fn clamp255(v: int) -> int {
    if v < 0 { 0 } else if v > 255 { 255 } else { v }
}

/// Channel `a` moved `t / m` of the way to `b`, rounded toward `a`, clamped.
pub open spec fn lerp_chan(a: int, b: int, t: int, m: int) -> int {
    clamp255(a + tdiv((b - a) * t, m))
}

/// The step and the scale as the interpolation reads them: its `u32`
/// arguments reinterpreted as `i32`.
pub open spec fn signed(v: u32) -> int {
    (v as i32) as int
}

/// An opaque colour from three channels.
pub open spec fn rgb(r: int, g: int, b: int) -> u32 {
    0xFF000000u32 | ((r as u32) << 16u32) | ((g as u32) << 8u32) | (b as u32)
}

/// `c1` moved `t / max` of the way to `c2`, per channel, with `t` and `max`
/// read as signed; `c1` when `max` is 0.
pub open spec fn lerp_spec(c1: u32, c2: u32, t: u32, max: u32) -> u32 {
    if max == 0 {
        c1
    } else {
        rgb(
            lerp_chan(chan(c1, 16), chan(c2, 16), signed(t), signed(max)),
            lerp_chan(chan(c1, 8), chan(c2, 8), signed(t), signed(max)),
            lerp_chan(chan(c1, 0), chan(c2, 0), signed(t), signed(max)),
        )
    }
}

/// One channel's product, quotient and sum fit the signed 32-bit
/// arithmetic the interpolation uses.
pub open spec fn lerp_chan_ok(a: int, b: int, t: int, m: int) -> bool {
    &&& i32::MIN <= (b - a) * t <= i32::MAX
    &&& !((b - a) * t == i32::MIN && m == -1)
    &&& i32::MIN <= a + tdiv((b - a) * t, m) <= i32::MAX
}

/// The interpolation stays within the signed 32-bit arithmetic it uses.
pub open spec fn lerp_ok(c1: u32, c2: u32, t: u32, max: u32) -> bool {
    max != 0 ==> {
        &&& lerp_chan_ok(chan(c1, 16), chan(c2, 16), signed(t), signed(max))
        &&& lerp_chan_ok(chan(c1, 8), chan(c2, 8), signed(t), signed(max))
        &&& lerp_chan_ok(chan(c1, 0), chan(c2, 0), signed(t), signed(max))
    }
}

fn channel(c: u32, s: u32) -> (r: u64)
    requires
        s < 32,
    ensures
        r == chan(c, s),
        r <= 255,
{
    let v = (c >> s) & 0xFF;
    assert(v <= 255) by (bit_vector)
        requires v == (c >> s) & 0xFF;
    v as u64
}

fn lerp_channel(a: u64, b: u64, t: u32, max: u32) -> (r: u32)
    requires
        a <= 255,
        b <= 255,
        max > 0,
    ensures
        r == lerp_chan(a as int, b as int, signed(t), signed(max)),
        r <= 255,
{
    let ti = t as i32;
    let mi = max as i32;
    assert(mi != 0) by (bit_vector)
        requires mi == max as i32, max > 0;
    let d: i64 = b as i64 - a as i64;
    let tl = ti as i64;
    assert(-255 * 0x8000_0000 <= d * tl <= 255 * 0x8000_0000) by (nonlinear_arith)
        requires -255 <= d <= 255, -0x8000_0000 <= tl <= 0x7FFF_FFFF;
    let p: i64 = d * tl;
    let pa: u64 = if p < 0 { (0 - p) as u64 } else { p as u64 };
    let ma: u64 = if mi < 0 { (0 - mi as i64) as u64 } else { mi as u64 };
    let qa = pa / ma;
    assert(qa <= pa) by (nonlinear_arith)
        requires qa == pa / ma, ma >= 1;
    let q: i64 = if (p < 0) == (mi < 0) { qa as i64 } else { 0 - qa as i64 };
    assert(q == tdiv(p as int, mi as int));
    let v: i64 = a as i64 + q;
    if v < 0 {
        0
    } else if v > 255 {
        255
    } else {
        v as u32
    }
}

fn pack_rgb(r: u32, g: u32, b: u32) -> (c: u32)
    requires
        r <= 255,
        g <= 255,
        b <= 255,
    ensures
        c == rgb(r as int, g as int, b as int),
{
    0xFF000000u32 | (r << 16u32) | (g << 8u32) | b
}

/// Interpolate between two colours; see `lerp_spec`.
pub fn lerp_color(c1: u32, c2: u32, t: u32, max: u32) -> (r: u32)
    requires
        lerp_ok(c1, c2, t, max),
    ensures
        r == lerp_spec(c1, c2, t, max),
{
    if max == 0 {
        return c1;
    }
    let r = lerp_channel(channel(c1, 16), channel(c2, 16), t, max);
    let g = lerp_channel(channel(c1, 8), channel(c2, 8), t, max);
    let b = lerp_channel(channel(c1, 0), channel(c2, 0), t, max);
    pack_rgb(r, g, b)
}

proof fn lemma_chan_range(c: u32, s: u32)
    ensures
        0 <= chan(c, s) <= 255,
{
    assert((c >> s) & 0xFF <= 0xFF) by (bit_vector);
}

proof fn lemma_lerp_chan_ok(a: int, b: int, t: int, m: int)
    requires
        0 <= a <= 255,
        0 <= b <= 255,
        0 <= t <= 8_000_000,
        1 <= m,
    ensures
        lerp_chan_ok(a, b, t, m),
{
    let p = (b - a) * t;
    assert(-2_040_000_000 <= p <= 2_040_000_000) by (nonlinear_arith)
        requires 0 <= a <= 255, 0 <= b <= 255, 0 <= t <= 8_000_000, p == (b - a) * t;
    assert(abs(p) / m <= abs(p)) by (nonlinear_arith)
        requires m >= 1, abs(p) >= 0;
}

/// Interpolation steps of up to a few million stay within its arithmetic.
proof fn lemma_lerp_ok(c1: u32, c2: u32, t: u32, max: u32)
    requires
        t <= 8_000_000,
        max <= i32::MAX,
    ensures
        lerp_ok(c1, c2, t, max),
{
    lemma_chan_range(c1, 16);
    lemma_chan_range(c1, 8);
    lemma_chan_range(c1, 0);
    lemma_chan_range(c2, 16);
    lemma_chan_range(c2, 8);
    lemma_chan_range(c2, 0);
    if max != 0 {
        assert(signed(t) == t && signed(max) == max);
        lemma_lerp_chan_ok(chan(c1, 16), chan(c2, 16), t as int, max as int);
        lemma_lerp_chan_ok(chan(c1, 8), chan(c2, 8), t as int, max as int);
        lemma_lerp_chan_ok(chan(c1, 0), chan(c2, 0), t as int, max as int);
    }
}

/// A window being dragged by its title bar.
pub struct DragState {
    pub active: bool,
    pub window_id: u64,
    pub offset_x: i32,
    pub offset_y: i32,
}

/// The compositor: screen geometry, back buffer, cached background, mouse,
/// and the windows in stacking order (last is on top and active).
pub struct Compositor {
    pub backbuf: Vec<u32>,
    /// Pre-rendered wallpaper and taskbar.
    pub bg_cache: Vec<u32>,
    pub width: usize,
    pub height: usize,
    pub pitch: usize,
    pub bpp: usize,
    pub mouse_x: i32,
    pub mouse_y: i32,
    pub mouse_buttons: u8,
    pub dirty: bool,
    pub windows: Vec<Window>,
    pub next_window_id: u64,
    /// Next free virtual address for mapping window buffers.
    pub alloc_vaddr: u64,
    pub drag: DragState,
    pub frame_count: u32,
}

/// First row of the taskbar.
pub open spec fn taskbar_top(h: int) -> int {
    if h >= TASKBAR_HEIGHT { h - TASKBAR_HEIGHT } else { 0 }
}

/// Wallpaper colour of row `y` of a wallpaper `hh` rows tall: a vertical
/// gradient from (10, 10, 30) to (40, 20, 80).
pub open spec fn wall_color(y: int, hh: int) -> u32 {
    let t = (y * 255) / hh;
    rgb(10 + (30 * t) / 255, 10 + (10 * t) / 255, 30 + (50 * t) / 255)
}

/// The label drawn on the taskbar.
pub open spec fn label_bytes() -> Seq<u8> {
    seq![72u8, 117u8, 115u8, 101u8, 121u8, 110u8, 79u8, 83u8]
}

/// Colour of row `py` of the background under the label: the wallpaper
/// above the taskbar, the taskbar's accent line on its first row, and the
/// taskbar's gradient below that.
pub open spec fn row_color(h: int, py: int) -> u32 {
    let tb = taskbar_top(h);
    if py == tb {
        COLOR_TASKBAR_LINE
    } else if py < tb {
        wall_color(py, tb)
    } else {
        lerp_spec(COLOR_TASKBAR_TOP, COLOR_TASKBAR_BOTTOM, (py - tb) as u32, TASKBAR_HEIGHT as u32)
    }
}

/// The whole cached background of a `w` by `h` screen: the row colours with
/// the label drawn on the taskbar.
pub open spec fn background(w: int, h: int) -> Seq<u32> {
    text_spec(
        Seq::new((w * h) as nat, |i: int| row_color(h, row_of(i, w))),
        w,
        10,
        taskbar_top(h) + 10,
        label_bytes(),
        COLOR_CLOCK,
    )
}

/// The clock text for `hour:minute`: two digits each, as the digit bytes
/// `'0' + n / 10` and `'0' + n % 10`.
pub open spec fn clock_bytes(hour: u8, minute: u8) -> Seq<u8> {
    seq![
        (48 + hour / 10) as u8,
        (48 + hour % 10) as u8,
        58u8,
        (48 + minute / 10) as u8,
        (48 + minute % 10) as u8,
    ]
}

/// The back buffer after the taskbar's changing parts are drawn: the clock,
/// then the power button (a dark red box with an `X`).
pub open spec fn taskbar_spec(buf: Seq<u32>, w: int, h: int, hour: u8, minute: u8) -> Seq<u32> {
    let tb = taskbar_top(h);
    let s1 = text_spec(buf, w, w - 100, tb + 10, clock_bytes(hour, minute), COLOR_CLOCK);
    let s2 = fill_spec(s1, w, w - 35, tb + 6, 24, 20, COLOR_POWER_BG);
    text_spec(s2, w, w - 35 + 7, tb + 6 + 6, seq![88u8], COLOR_POWER_TEXT)
}

/// The cursor's pixel colour for bitmap cell `(dx, dy)` among the first
/// `n` cells in row-major order, if that cell is painted.
pub open spec fn cursor_paints(dx: int, dy: int, n: int) -> bool {
    0 <= dx < CURSOR_SIZE && 0 <= dy < CURSOR_SIZE && dy * 16 + dx < n
        && CURSOR_BITMAP@[dy]@[dx] != 0
}

pub open spec fn cursor_color(cell: u8) -> u32 {
    if cell == 1 { COLOR_CURSOR } else { COLOR_CURSOR_BORDER }
}

/// The buffer with the first `n` cells of the cursor bitmap drawn with its
/// top-left corner at `(cx, cy)`; transparent cells keep the buffer.
pub open spec fn cursor_upto(buf: Seq<u32>, w: int, cx: int, cy: int, n: int) -> Seq<u32> {
    Seq::new(
        buf.len(),
        |i: int|
            {
                let dx = col_of(i, w) - cx;
                let dy = row_of(i, w) - cy;
                if cursor_paints(dx, dy, n) {
                    cursor_color(CURSOR_BITMAP@[dy]@[dx])
                } else {
                    buf[i]
                }
            },
    )
}

/// The buffer with the whole cursor drawn at `(cx, cy)`.
pub open spec fn cursor_spec(buf: Seq<u32>, w: int, cx: int, cy: int) -> Seq<u32> {
    cursor_upto(buf, w, cx, cy, 256)
}

/// The power button's rectangle contains the point.
pub open spec fn hits_power(w: int, h: int, mx: int, my: int) -> bool {
    let tb = taskbar_top(h);
    w - 35 <= mx < w - 35 + 24 && tb + 6 <= my < tb + 6 + 20
}

/// The screen is small enough for the background gradient's arithmetic.
pub open spec fn screen_ok(w: int, h: int) -> bool {
    w * h <= usize::MAX && h <= 8421537
}

/// A window that can be drawn: its geometry, its close button and its
/// title stay within `usize` arithmetic and the title buffer.
pub open spec fn window_drawable(win: Window) -> bool {
    &&& window_fits(win)
    &&& close_x(win) >= 0
    &&& win.title_len <= 32
    &&& win.x + 240 <= usize::MAX
}

/// The title drawn in a window's title bar: its title, or `Window` when it
/// has none.
pub open spec fn title_text(win: Window) -> Seq<u8> {
    if win.title_len > 0 {
        win.title@.subrange(0, win.title_len as int)
    } else {
        seq![87u8, 105u8, 110u8, 100u8, 111u8, 119u8]
    }
}

/// `buf` with the title-bar gradient, `gw` pixels wide at `(x, y)`, drawn
/// on the rows before `ry` and on row `ry` left of column `rx`: row `dy`
/// has colour `top` moved `dy / 24` of the way to `bot`.
pub open spec fn gradient_upto(
    buf: Seq<u32>,
    w: int,
    x: int,
    y: int,
    gw: int,
    top: u32,
    bot: u32,
    ry: int,
    rx: int,
) -> Seq<u32> {
    Seq::new(
        buf.len(),
        |i: int|
            {
                let dx = col_of(i, w) - x;
                let dy = row_of(i, w) - y;
                if 0 <= dx < gw && 0 <= dy < TITLE_BAR_HEIGHT && (dy < ry || (dy == ry && dx < rx)) {
                    lerp_spec(top, bot, dy as u32, TITLE_BAR_HEIGHT as u32)
                } else {
                    buf[i]
                }
            },
    )
}

/// `buf` with the close button's cross drawn on its first `n` rows.
pub open spec fn close_mark_upto(buf: Seq<u32>, w: int, bx: int, by: int, n: int) -> Seq<u32> {
    Seq::new(
        buf.len(),
        |i: int|
            {
                let dx = col_of(i, w) - bx;
                let dy = row_of(i, w) - by;
                if 0 <= dy < n && dy < CLOSE_BTN_SIZE && (dx == dy || dx == CLOSE_BTN_SIZE - 1 - dy) {
                    COLOR_CLOSE_X
                } else {
                    buf[i]
                }
            },
    )
}

pub open spec fn border_color(active: bool) -> u32 {
    if active { COLOR_BORDER_ACTIVE } else { COLOR_BORDER_INACTIVE }
}

pub open spec fn title_top(active: bool) -> u32 {
    if active { COLOR_TITLE_ACTIVE_TOP } else { COLOR_TITLE_INACTIVE_TOP }
}

pub open spec fn title_bot(active: bool) -> u32 {
    if active { COLOR_TITLE_ACTIVE_BOT } else { COLOR_TITLE_INACTIVE_BOT }
}

pub open spec fn title_color(active: bool) -> u32 {
    if active { COLOR_TITLE_TEXT_ACTIVE } else { COLOR_TITLE_TEXT_INACTIVE }
}

/// The four border lines of a window, in the order they are drawn.
pub open spec fn borders_spec(buf: Seq<u32>, w: int, win: Window, active: bool) -> Seq<u32> {
    let tw = total_width_of(win);
    let th = total_height_of(win);
    let c = border_color(active);
    let s1 = fill_spec(buf, w, win.x as int, win.y as int, tw, 1, c);
    let s2 = fill_spec(s1, w, win.x as int, win.y + th - 1, tw, 1, c);
    let s3 = fill_spec(s2, w, win.x as int, win.y as int, 1, th, c);
    fill_spec(s3, w, win.x + tw - 1, win.y as int, 1, th, c)
}

/// A window's decorations drawn over `buf`: the border, the title bar's
/// gradient, the title, and the close button with its cross. The top window
/// is drawn in the active colours.
pub open spec fn decorations_spec(buf: Seq<u32>, w: int, win: Window, active: bool) -> Seq<u32> {
    let s4 = borders_spec(buf, w, win, active);
    let s5 = gradient_upto(
        s4,
        w,
        win.x + 1,
        win.y + 1,
        win.width as int,
        title_top(active),
        title_bot(active),
        TITLE_BAR_HEIGHT as int,
        0,
    );
    let s6 = text_spec(s5, w, win.x + 9, win.y + 9, title_text(win), title_color(active));
    let s7 = fill_spec(s6, w, close_x(win), close_y(win), 16, 16, COLOR_CLOSE_BG);
    close_mark_upto(s7, w, close_x(win), close_y(win), CLOSE_BTN_SIZE as int)
}

/// `buf` with a client's pixels `px` (row-major, `cw` wide) copied to the
/// client area at `(cx, cy)` on the rows before `ry` and on row `ry` left of
/// column `rx`; pixels whose alpha byte is zero are skipped.
pub open spec fn client_upto(
    buf: Seq<u32>,
    w: int,
    cx: int,
    cy: int,
    cw: int,
    ch: int,
    px: Seq<u32>,
    ry: int,
    rx: int,
) -> Seq<u32> {
    Seq::new(
        buf.len(),
        |i: int|
            {
                let dx = col_of(i, w) - cx;
                let dy = row_of(i, w) - cy;
                if 0 <= dx < cw && 0 <= dy < ch && (dy < ry || (dy == ry && dx < rx)) && (px[dy
                    * cw + dx] >> 24u32) != 0 {
                    px[dy * cw + dx]
                } else {
                    buf[i]
                }
            },
    )
}

/// A window's client pixels copied over `buf`.
pub open spec fn client_spec(buf: Seq<u32>, w: int, win: Window, px: Seq<u32>) -> Seq<u32> {
    client_upto(
        buf,
        w,
        win.x + 1,
        win.y + 25,
        win.width as int,
        win.height as int,
        px,
        win.height as int,
        0,
    )
}

/// The first `n` windows drawn bottom to top over `buf`, each with its
/// decorations and then its client pixels from `clients`.
pub open spec fn windows_spec(buf: Seq<u32>, w: int, wins: Seq<Window>, clients: Seq<Vec<u32>>, n: nat) -> Seq<u32>
    decreases n,
{
    if n == 0 {
        buf
    } else {
        let k = n - 1;
        let below = windows_spec(buf, w, wins, clients, (n - 1) as nat);
        client_spec(
            decorations_spec(below, w, wins[k], k == wins.len() - 1),
            w,
            wins[k],
            clients[k]@,
        )
    }
}

/// What the caller must do after a message is handled.
#[derive(Debug, Clone, Copy, PartialEq, Eq, Structural)]
pub enum CompositorAction {
    /// Nothing beyond the state change.
    Nothing,
    /// The power button was pressed: shut the machine down.
    Shutdown,
    /// A window was closed: send a quit message to its owner.
    SendQuit { pid: usize },
    /// A window was requested: map shared buffer `shm_id` at `vaddr` and, if
    /// that succeeds, call `create_window` with the same message.
    MapWindowBuffer { shm_id: u32, vaddr: u64 },
}

pub open spec fn sat_sub(a: int, b: int) -> int {
    if a >= b { a - b } else { 0 }
}

/// A dragged window's new coordinate: the pointer minus the grab offset,
/// at least 0 and at most `hi`.
pub open spec fn clamp_pos(v: int, hi: int) -> int {
    if v < 0 { 0 } else if v <= hi { v } else { hi }
}

/// Index of the first window, from `i` on, whose id is `id`; -1 if none.
pub open spec fn find_id(wins: Seq<Window>, id: u64, i: int) -> int
    decreases wins.len() - i,
{
    if i >= wins.len() || i < 0 {
        -1
    } else if wins[i].id == id {
        i
    } else {
        find_id(wins, id, i + 1)
    }
}

/// The windows after the pointer moved to `(nx, ny)` while dragging: the
/// dragged window, if it still exists, follows the pointer.
pub open spec fn dragged(wins: Seq<Window>, d: DragState, nx: i32, ny: i32, w: int, h: int) -> Seq<Window> {
    let k = find_id(wins, d.window_id, 0);
    if k < 0 {
        wins
    } else {
        wins.update(
            k,
            Window {
                x: clamp_pos(nx - d.offset_x, sat_sub(w, 50)) as usize,
                y: clamp_pos(ny - d.offset_y, sat_sub(h, TASKBAR_HEIGHT + 10)) as usize,
                ..wins[k]
            },
        )
    }
}

/// The point hits the window: its close button, its title bar or its area.
pub open spec fn hits_any(w: Window, mx: int, my: int) -> bool {
    hits_close(w, mx, my) || hits_title_bar(w, mx, my) || hits_window(w, mx, my)
}

/// Index of the topmost of the first `n` windows that the point hits; -1 if
/// none.
pub open spec fn hit_index(wins: Seq<Window>, mx: int, my: int, n: nat) -> int
    decreases n,
{
    if n == 0 {
        -1
    } else if hits_any(wins[n - 1], mx, my) {
        n - 1
    } else {
        hit_index(wins, mx, my, (n - 1) as nat)
    }
}

proof fn lemma_hit_index_below(wins: Seq<Window>, mx: int, my: int, n: nat)
    ensures
        -1 <= hit_index(wins, mx, my, n) < n,
    decreases n,
{
    if n > 0 {
        lemma_hit_index_below(wins, mx, my, (n - 1) as nat);
    }
}

/// The windows with window `k` raised to the top.
pub open spec fn move_to_top(wins: Seq<Window>, k: int) -> Seq<Window> {
    wins.remove(k).push(wins[k])
}

/// Fields that no message changes.
pub open spec fn keeps(a: Compositor, b: Compositor) -> bool {
    &&& a.width == b.width
    &&& a.height == b.height
    &&& a.pitch == b.pitch
    &&& a.bpp == b.bpp
    &&& a.backbuf@ == b.backbuf@
    &&& a.bg_cache@ == b.bg_cache@
    &&& a.frame_count == b.frame_count
}

/// A left-button press that was not pressed before.
pub open spec fn click_pressed(c: Compositor, msg: Message) -> bool {
    (msg.arg3 as u8) & 1 != 0 && c.mouse_buttons & 1 == 0
}

/// The pointer position as unsigned screen coordinates.
pub open spec fn pointer_x(c: Compositor) -> int {
    (c.mouse_x as usize) as int
}

pub open spec fn pointer_y(c: Compositor) -> int {
    (c.mouse_y as usize) as int
}

/// The window a pressed click lands on, -1 if none.
pub open spec fn click_target(c: Compositor) -> int {
    hit_index(c.windows@, pointer_x(c), pointer_y(c), c.windows@.len())
}

/// A window whose hit tests stay within `usize` arithmetic.
pub open spec fn window_clickable(w: Window) -> bool {
    window_fits(w) && close_x(w) >= 0
}

/// The windows a pressed click tests, from the top down to the one it lands
/// on (all of them when it lands on none), can be hit-tested.
pub open spec fn examined_clickable(c: Compositor) -> bool {
    forall|k: int|
        0 <= k && click_target(c) <= k < c.windows@.len() ==> #[trigger] window_clickable(c.windows@[k])
}

/// A pressed click that lands on a window's title bar (and not its close
/// button) starts a drag.
pub open spec fn click_drags(c: Compositor, msg: Message) -> bool {
    let k = click_target(c);
    &&& click_pressed(c, msg)
    &&& !hits_power(c.width as int, c.height as int, pointer_x(c), pointer_y(c))
    &&& k >= 0
    &&& !hits_close(c.windows@[k], pointer_x(c), pointer_y(c))
    &&& hits_title_bar(c.windows@[k], pointer_x(c), pointer_y(c))
}

/// Bytes of the shared buffer a window request asks for, and the next free
/// mapping address after it, rounded up to a page.
pub open spec fn request_bytes(msg: Message) -> int {
    (msg.arg1 as usize) * (msg.arg2 as usize) * 4
}

pub open spec fn next_map_addr(c: Compositor, msg: Message) -> u64 {
    ((c.alloc_vaddr + request_bytes(msg) + 0xFFF) as u64) & !0xFFFu64
}

/// The inputs on which handling `msg` stays within the arithmetic the
/// compositor uses.
pub open spec fn message_ok(c: Compositor, msg: Message) -> bool {
    &&& msg.msg_type == MSG_MOUSE_MOVE && c.drag.active && (msg.arg3 as u8) & 1 != 0 ==> {
        &&& i32::MIN <= (msg.arg1 as i32) - c.drag.offset_x <= i32::MAX
        &&& i32::MIN <= (msg.arg2 as i32) - c.drag.offset_y <= i32::MAX
    }
    &&& msg.msg_type == MSG_MOUSE_CLICK && click_pressed(c, msg) ==> {
        &&& c.width >= 35
        &&& c.height <= usize::MAX - 26
        &&& !hits_power(c.width as int, c.height as int, pointer_x(c), pointer_y(c))
            ==> examined_clickable(c)
    }
    &&& msg.msg_type == MSG_MOUSE_CLICK && click_drags(c, msg) ==> {
        &&& i32::MIN <= c.mouse_x - (c.windows@[click_target(c)].x as i32) <= i32::MAX
        &&& i32::MIN <= c.mouse_y - (c.windows@[click_target(c)].y as i32) <= i32::MAX
    }
    &&& msg.msg_type == MSG_WINDOW_CREATE ==> create_ok(c, msg)
}

/// A window request whose sizes and buffer address stay within the
/// arithmetic that placing the window uses.
pub open spec fn create_ok(c: Compositor, msg: Message) -> bool {
    &&& request_bytes(msg) <= usize::MAX
    &&& c.alloc_vaddr + request_bytes(msg) + 0xFFF <= u64::MAX
    &&& (msg.arg1 as usize) + 2 <= usize::MAX
    &&& (msg.arg2 as usize) + TITLE_BAR_HEIGHT + 2 <= usize::MAX
}

/// The state after `msg` and the action returned, for each kind of message.
pub open spec fn handled(c: Compositor, msg: Message, n: Compositor, act: CompositorAction) -> bool {
    &&& keeps(c, n)
    &&& if msg.msg_type == MSG_MOUSE_MOVE {
        let nx = msg.arg1 as i32;
        let ny = msg.arg2 as i32;
        let btn = msg.arg3 as u8;
        let dragging = c.drag.active && btn & 1 != 0;
        &&& act is Nothing
        &&& n.mouse_x == nx && n.mouse_y == ny && n.mouse_buttons == btn && n.dirty
        &&& n.windows@ == (if dragging {
            dragged(c.windows@, c.drag, nx, ny, c.width as int, c.height as int)
        } else {
            c.windows@
        })
        &&& n.drag == (if c.drag.active && !dragging {
            DragState { active: false, ..c.drag }
        } else {
            c.drag
        })
        &&& n.next_window_id == c.next_window_id && n.alloc_vaddr == c.alloc_vaddr
    } else if msg.msg_type == MSG_MOUSE_CLICK {
        let mx = pointer_x(c);
        let my = pointer_y(c);
        let k = click_target(c);
        &&& n.mouse_x == c.mouse_x && n.mouse_y == c.mouse_y
        &&& n.mouse_buttons == msg.arg3 as u8 && n.dirty
        &&& n.next_window_id == c.next_window_id && n.alloc_vaddr == c.alloc_vaddr
        &&& if !click_pressed(c, msg) {
            act is Nothing && n.windows@ == c.windows@ && n.drag == c.drag
        } else if hits_power(c.width as int, c.height as int, mx, my) {
            act is Shutdown && n.windows@ == c.windows@ && n.drag == c.drag
        } else if k < 0 {
            act is Nothing && n.windows@ == c.windows@ && n.drag == c.drag
        } else if hits_close(c.windows@[k], mx, my) {
            &&& act == CompositorAction::SendQuit { pid: c.windows@[k].owner_pid }
            &&& n.windows@ == c.windows@.remove(k)
            &&& n.drag == c.drag
        } else if hits_title_bar(c.windows@[k], mx, my) {
            &&& act is Nothing
            &&& n.windows@ == move_to_top(c.windows@, k)
            &&& n.drag == (DragState {
                active: true,
                window_id: c.windows@[k].id,
                offset_x: (c.mouse_x - (c.windows@[k].x as i32)) as i32,
                offset_y: (c.mouse_y - (c.windows@[k].y as i32)) as i32,
            })
        } else {
            act is Nothing && n.windows@ == move_to_top(c.windows@, k) && n.drag == c.drag
        }
    } else {
        &&& n.mouse_x == c.mouse_x && n.mouse_y == c.mouse_y && n.mouse_buttons == c.mouse_buttons
        &&& n.windows@ == c.windows@ && n.drag == c.drag
        &&& n.next_window_id == c.next_window_id && n.alloc_vaddr == c.alloc_vaddr
        &&& n.dirty == (c.dirty || msg.msg_type == MSG_WINDOW_DAMAGE)
        &&& act == (if msg.msg_type == MSG_WINDOW_CREATE {
            CompositorAction::MapWindowBuffer { shm_id: msg.arg3 as u32, vaddr: c.alloc_vaddr }
        } else {
            CompositorAction::Nothing
        })
    }
}

/// The title given to new windows.
pub open spec fn default_title() -> Seq<u8> {
    seq![84u8, 101u8, 114u8, 109u8, 105u8, 110u8, 97u8, 108u8]
}

/// `win` is the window that request `msg` creates in compositor `c`: its
/// client area as asked, centred above the taskbar and cascaded 20 pixels
/// per existing window, with the default title.
pub open spec fn is_new_window(win: Window, c: Compositor, msg: Message) -> bool {
    let ww = msg.arg1 as usize;
    let wh = msg.arg2 as usize;
    let n = c.windows@.len();
    &&& win.id == c.next_window_id
    &&& win.owner_pid == msg.sender
    &&& win.x == sat_sub(c.width as int, ww + 2) / 2 + n * 20
    &&& win.y == sat_sub(sat_sub(c.height as int, TASKBAR_HEIGHT as int), wh + TITLE_BAR_HEIGHT + 2) / 2 + n * 20
    &&& win.width == ww
    &&& win.height == wh
    &&& win.shm_id == msg.arg3 as u32
    &&& win.buffer == c.alloc_vaddr
    &&& win.title_len == 8
    &&& win.title@.subrange(0, 8) == default_title()
    &&& forall|i: int| 8 <= i < 32 ==> win.title@[i] == 0
}

/// Two compositors agree on everything but their pixel buffers.
pub open spec fn same_state(a: Compositor, b: Compositor) -> bool {
    &&& a.width == b.width
    &&& a.height == b.height
    &&& a.pitch == b.pitch
    &&& a.bpp == b.bpp
    &&& a.mouse_x == b.mouse_x
    &&& a.mouse_y == b.mouse_y
    &&& a.mouse_buttons == b.mouse_buttons
    &&& a.dirty == b.dirty
    &&& a.windows@ == b.windows@
    &&& a.next_window_id == b.next_window_id
    &&& a.alloc_vaddr == b.alloc_vaddr
    &&& a.drag == b.drag
    &&& a.frame_count == b.frame_count
}

fn wall_row_color(y: usize, hh: usize) -> (c: u32)
    requires
        y < hh,
        hh <= 8421537,
    ensures
        c == wall_color(y as int, hh as int),
{
    let t: u64 = (y as u64) * 255 / (hh as u64);
    assert(t <= 255) by (nonlinear_arith)
        requires t == (y as int) * 255 / (hh as int), y < hh;
    let r = 10 + 30 * t / 255;
    let g = 10 + 10 * t / 255;
    let b = 30 + 50 * t / 255;
    assert(30 * t / 255 <= 30 && 10 * t / 255 <= 10 && 50 * t / 255 <= 50) by (nonlinear_arith)
        requires t <= 255;
    pack_rgb(r as u32, g as u32, b as u32)
}

fn row_color_of(h: usize, y: usize) -> (c: u32)
    requires
        y < h,
        h <= 8421537,
    ensures
        c == row_color(h as int, y as int),
{
    let tb = h.saturating_sub(TASKBAR_HEIGHT);
    if y == tb {
        COLOR_TASKBAR_LINE
    } else if y < tb {
        wall_row_color(y, tb)
    } else {
        let t = (y - tb) as u32;
        proof {
            lemma_lerp_ok(COLOR_TASKBAR_TOP, COLOR_TASKBAR_BOTTOM, t, TASKBAR_HEIGHT as u32);
        }
        lerp_color(COLOR_TASKBAR_TOP, COLOR_TASKBAR_BOTTOM, t, TASKBAR_HEIGHT as u32)
    }
}

impl Compositor {
    /// The buffers match the screen size.
    pub open spec fn wf(&self) -> bool {
        &&& sized(self.backbuf@, self.width as int, self.height as int)
        &&& sized(self.bg_cache@, self.width as int, self.height as int)
    }

    /// A compositor with no screen yet, the mouse at (512, 384), no windows,
    /// window ids from 1, window buffers mapped from 0xB000_0000.
    pub fn new() -> (r: Compositor)
        ensures
            r.wf(),
            r.width == 0 && r.height == 0 && r.pitch == 0 && r.bpp == 0,
            r.mouse_x == 512 && r.mouse_y == 384 && r.mouse_buttons == 0,
            r.dirty,
            r.windows@.len() == 0,
            r.next_window_id == 1,
            r.alloc_vaddr == 0xB000_0000,
            !r.drag.active && r.drag.window_id == 0 && r.drag.offset_x == 0 && r.drag.offset_y == 0,
            r.frame_count == 0,
    {
        Compositor {
            backbuf: Vec::new(),
            bg_cache: Vec::new(),
            width: 0,
            height: 0,
            pitch: 0,
            bpp: 0,
            mouse_x: 512,
            mouse_y: 384,
            mouse_buttons: 0,
            dirty: true,
            windows: Vec::new(),
            next_window_id: 1,
            alloc_vaddr: 0xB000_0000,
            drag: DragState { active: false, window_id: 0, offset_x: 0, offset_y: 0 },
            frame_count: 0,
        }
    }

    /// Paint one back-buffer pixel, if on screen.
    pub fn set_pixel(&mut self, x: usize, y: usize, color: u32)
        requires
            old(self).wf(),
        ensures
            final(self).wf(),
            final(self).backbuf@ == fill_spec(
                old(self).backbuf@,
                old(self).width as int,
                x as int,
                y as int,
                1,
                1,
                color,
            ),
            same_state(*final(self), *old(self)),
            final(self).bg_cache == old(self).bg_cache,
    {
        let (w, h) = (self.width, self.height);
        raster::set_pixel(&mut self.backbuf, w, h, x, y, color);
    }

    /// Paint a back-buffer rectangle, clipped to the screen.
    pub fn fill_rect(&mut self, x: usize, y: usize, w: usize, h: usize, color: u32)
        requires
            old(self).wf(),
        ensures
            final(self).wf(),
            final(self).backbuf@ == fill_spec(
                old(self).backbuf@,
                old(self).width as int,
                x as int,
                y as int,
                w as int,
                h as int,
                color,
            ),
            same_state(*final(self), *old(self)),
            final(self).bg_cache == old(self).bg_cache,
    {
        let (sw, sh) = (self.width, self.height);
        raster::fill_rect(&mut self.backbuf, sw, sh, x, y, w, h, color);
    }

    /// Draw one character of the 5x7 font into the back buffer.
    pub fn draw_mini_char(&mut self, x: usize, y: usize, ch: u8, color: u32)
        requires
            old(self).wf(),
            x + 4 <= usize::MAX,
            y + 6 <= usize::MAX,
        ensures
            final(self).wf(),
            final(self).backbuf@ == glyph_spec(
                old(self).backbuf@,
                old(self).width as int,
                x as int,
                y as int,
                mini_glyph(ch),
                color,
            ),
            same_state(*final(self), *old(self)),
            final(self).bg_cache == old(self).bg_cache,
    {
        let g = get_mini_glyph(ch);
        let (w, h) = (self.width, self.height);
        raster::draw_glyph(&mut self.backbuf, w, h, x, y, &g, color);
    }

    /// Draw text into the back buffer, 7 pixels per character.
    pub fn draw_text(&mut self, x: usize, y: usize, text: &str, color: u32)
        requires
            old(self).wf(),
            x + 7 * text.spec_bytes().len() + 4 <= usize::MAX,
            y + 6 <= usize::MAX,
        ensures
            final(self).wf(),
            final(self).backbuf@ == text_spec(
                old(self).backbuf@,
                old(self).width as int,
                x as int,
                y as int,
                text.spec_bytes(),
                color,
            ),
            same_state(*final(self), *old(self)),
            final(self).bg_cache == old(self).bg_cache,
    {
        let (w, h) = (self.width, self.height);
        raster::draw_text(&mut self.backbuf, w, h, x, y, text.as_bytes(), color);
    }

    /// Draw text into `buf`, a buffer of the screen's size.
    pub fn draw_text_into(&self, buf: &mut Vec<u32>, x: usize, y: usize, text: &str, color: u32)
        requires
            sized(old(buf)@, self.width as int, self.height as int),
            x + 7 * text.spec_bytes().len() + 4 <= usize::MAX,
            y + 6 <= usize::MAX,
        ensures
            final(buf)@ == text_spec(
                old(buf)@,
                self.width as int,
                x as int,
                y as int,
                text.spec_bytes(),
                color,
            ),
    {
        raster::draw_text(buf, self.width, self.height, x, y, text.as_bytes(), color);
    }

    /// The point is on the taskbar's power button.
    pub fn hit_power_button(&self, mx: usize, my: usize) -> (r: bool)
        requires
            self.width >= 35,
            self.height <= usize::MAX - 26,
        ensures
            r == hits_power(self.width as int, self.height as int, mx as int, my as int),
    {
        let tb_y = self.height.saturating_sub(TASKBAR_HEIGHT);
        let pw_x = self.width - 35;
        let pw_y = tb_y + 6;
        mx >= pw_x && mx < pw_x + 24 && my >= pw_y && my < pw_y + 20
    }

    /// Render the wallpaper, the taskbar and its label into the background
    /// cache.
    pub fn prerender_background(&mut self)
        requires
            old(self).wf(),
            screen_ok(old(self).width as int, old(self).height as int),
        ensures
            final(self).wf(),
            final(self).bg_cache@ == background(old(self).width as int, old(self).height as int),
            final(self).backbuf@ == old(self).backbuf@,
            same_state(*final(self), *old(self)),
    {
        let w = self.width;
        let h = self.height;
        let mut cache: Vec<u32> = Vec::new();
        let mut y: usize = 0;
        while y < h
            invariant
                y <= h,
                h <= 8421537,
                cache@.len() == y * w,
                forall|i: int| 0 <= i < cache@.len() ==> cache@[i] == row_color(h as int, row_of(i, w as int)),
            decreases h - y,
        {
            let c = row_color_of(h, y);
            let mut x: usize = 0;
            while x < w
                invariant
                    x <= w,
                    y < h,
                    cache@.len() == y * w + x,
                    c == row_color(h as int, y as int),
                    forall|i: int| 0 <= i < cache@.len() ==> cache@[i] == row_color(h as int, row_of(i, w as int)),
                decreases w - x,
            {
                proof {
                    lemma_index(w as int, h as int, x as int, y as int);
                }
                cache.push(c);
                x = x + 1;
            }
            assert(y * w + w == (y + 1) * w) by (nonlinear_arith);
            y = y + 1;
        }
        assert(h * w == w * h) by (nonlinear_arith);
        let ghost base = cache@;
        assert(base =~= Seq::new((w * h) as nat, |i: int| row_color(h as int, row_of(i, w as int))));
        let tb = h.saturating_sub(TASKBAR_HEIGHT);
        let label: [u8; 8] = [72u8, 117u8, 115u8, 101u8, 121u8, 110u8, 79u8, 83u8];
        assert(label@ =~= label_bytes());
        raster::draw_text(&mut cache, w, h, 10, tb + 10, &label, COLOR_CLOCK);
        self.bg_cache = cache;
    }

    /// Copy the cached background into the back buffer.
    pub fn restore_background(&mut self)
        requires
            old(self).wf(),
        ensures
            final(self).wf(),
            final(self).backbuf@ == old(self).bg_cache@,
            final(self).bg_cache@ == old(self).bg_cache@,
            same_state(*final(self), *old(self)),
    {
        let n = self.bg_cache.len();
        let mut i: usize = 0;
        while i < n
            invariant
                n == self.bg_cache@.len(),
                self.backbuf@.len() == n,
                i <= n,
                self.bg_cache@ == old(self).bg_cache@,
                same_state(*self, *old(self)),
                forall|j: int| 0 <= j < i ==> self.backbuf@[j] == self.bg_cache@[j],
            decreases n - i,
        {
            let v = self.bg_cache[i];
            self.backbuf.set(i, v);
            i = i + 1;
        }
        assert(self.backbuf@ =~= self.bg_cache@);
    }

    /// Draw the taskbar's changing parts for the time `hour:minute`: the
    /// clock and the power button.
    pub fn draw_taskbar_dynamic(&mut self, hour: u8, minute: u8)
        requires
            old(self).wf(),
            old(self).width >= 100,
        ensures
            final(self).wf(),
            final(self).backbuf@ == taskbar_spec(
                old(self).backbuf@,
                old(self).width as int,
                old(self).height as int,
                hour,
                minute,
            ),
            final(self).bg_cache@ == old(self).bg_cache@,
            same_state(*final(self), *old(self)),
    {
        let w = self.width;
        let h = self.height;
        let n = self.backbuf.len();
        assert(h <= usize::MAX / 100) by (nonlinear_arith)
            requires w >= 100, w * h == n, n <= usize::MAX;
        let tb = h.saturating_sub(TASKBAR_HEIGHT);
        let clock: [u8; 5] = [
            48 + hour / 10,
            48 + hour % 10,
            58u8,
            48 + minute / 10,
            48 + minute % 10,
        ];
        assert(clock@ =~= clock_bytes(hour, minute));
        raster::draw_text(&mut self.backbuf, w, h, w - 100, tb + 10, &clock, COLOR_CLOCK);
        let pw_x = w - 35;
        let pw_y = tb + 6;
        raster::fill_rect(&mut self.backbuf, w, h, pw_x, pw_y, 24, 20, COLOR_POWER_BG);
        let mark: [u8; 1] = [88u8];
        assert(mark@ =~= seq![88u8]);
        raster::draw_text(&mut self.backbuf, w, h, pw_x + 7, pw_y + 6, &mark, COLOR_POWER_TEXT);
    }

    /// Draw the mouse cursor at the mouse position.
    pub fn draw_cursor(&mut self)
        requires
            old(self).wf(),
            old(self).mouse_x >= 0,
            old(self).mouse_y >= 0,
        ensures
            final(self).wf(),
            final(self).backbuf@ == cursor_spec(
                old(self).backbuf@,
                old(self).width as int,
                old(self).mouse_x as int,
                old(self).mouse_y as int,
            ),
            final(self).bg_cache@ == old(self).bg_cache@,
            same_state(*final(self), *old(self)),
    {
        let cx = self.mouse_x as usize;
        let cy = self.mouse_y as usize;
        let ghost b0 = self.backbuf@;
        let ghost w = self.width as int;
        proof {
            assert(cursor_upto(b0, w, cx as int, cy as int, 0) =~= b0);
        }
        let mut dy: usize = 0;
        while dy < CURSOR_SIZE
            invariant
                dy <= CURSOR_SIZE,
                cx < 0x8000_0000,
                cy < 0x8000_0000,
                w == self.width,
                self.wf(),
                self.bg_cache@ == old(self).bg_cache@,
                same_state(*self, *old(self)),
                self.backbuf@ == cursor_upto(b0, w, cx as int, cy as int, dy * 16),
            decreases CURSOR_SIZE - dy,
        {
            let mut dx: usize = 0;
            while dx < CURSOR_SIZE
                invariant
                    dx <= CURSOR_SIZE,
                    dy < CURSOR_SIZE,
                    cx < 0x8000_0000,
                    cy < 0x8000_0000,
                    w == self.width,
                    self.wf(),
                    self.bg_cache@ == old(self).bg_cache@,
                    same_state(*self, *old(self)),
                    self.backbuf@ == cursor_upto(b0, w, cx as int, cy as int, dy * 16 + dx),
                decreases CURSOR_SIZE - dx,
            {
                let row = CURSOR_BITMAP[dy];
                let cell = row[dx];
                let ghost before = self.backbuf@;
                let ghost n = dy * 16 + dx;
                if cell == 1 {
                    self.set_pixel(cx + dx, cy + dy, COLOR_CURSOR);
                } else if cell == 2 {
                    self.set_pixel(cx + dx, cy + dy, COLOR_CURSOR_BORDER);
                }
                proof {
                    let next = cursor_upto(b0, w, cx as int, cy as int, n + 1);
                    assert forall|i: int| 0 <= i < next.len() implies self.backbuf@[i] == next[i] by {
                        let px = col_of(i, w);
                        let py = row_of(i, w);
                        if px == cx + dx && py == cy + dy {
                            assert(CURSOR_BITMAP@[dy as int]@[dx as int] == cell);
                        }
                    }
                    assert(self.backbuf@ =~= next);
                }
                dx = dx + 1;
            }
            dy = dy + 1;
        }
    }

    fn draw_title_gradient(&mut self, x: usize, y: usize, gw: usize, top: u32, bot: u32)
        requires
            old(self).wf(),
            x + gw <= usize::MAX,
            y + TITLE_BAR_HEIGHT <= usize::MAX,
        ensures
            final(self).wf(),
            final(self).backbuf@ == gradient_upto(
                old(self).backbuf@,
                old(self).width as int,
                x as int,
                y as int,
                gw as int,
                top,
                bot,
                TITLE_BAR_HEIGHT as int,
                0,
            ),
            final(self).bg_cache@ == old(self).bg_cache@,
            same_state(*final(self), *old(self)),
    {
        let ghost b0 = self.backbuf@;
        let ghost w = self.width as int;
        proof {
            assert(gradient_upto(b0, w, x as int, y as int, gw as int, top, bot, 0, 0) =~= b0);
        }
        let mut dy: usize = 0;
        while dy < TITLE_BAR_HEIGHT
            invariant
                dy <= TITLE_BAR_HEIGHT,
                x + gw <= usize::MAX,
                y + TITLE_BAR_HEIGHT <= usize::MAX,
                w == self.width,
                self.wf(),
                self.bg_cache@ == old(self).bg_cache@,
                same_state(*self, *old(self)),
                self.backbuf@ == gradient_upto(b0, w, x as int, y as int, gw as int, top, bot, dy as int, 0),
            decreases TITLE_BAR_HEIGHT - dy,
        {
            proof {
                lemma_lerp_ok(top, bot, dy as u32, TITLE_BAR_HEIGHT as u32);
            }
            let color = lerp_color(top, bot, dy as u32, TITLE_BAR_HEIGHT as u32);
            let mut dx: usize = 0;
            while dx < gw
                invariant
                    dx <= gw,
                    dy < TITLE_BAR_HEIGHT,
                    x + gw <= usize::MAX,
                    y + TITLE_BAR_HEIGHT <= usize::MAX,
                    color == lerp_spec(top, bot, dy as u32, TITLE_BAR_HEIGHT as u32),
                    w == self.width,
                    self.wf(),
                    self.bg_cache@ == old(self).bg_cache@,
                    same_state(*self, *old(self)),
                    self.backbuf@ == gradient_upto(b0, w, x as int, y as int, gw as int, top, bot, dy as int, dx as int),
                decreases gw - dx,
            {
                self.set_pixel(x + dx, y + dy, color);
                proof {
                    let next = gradient_upto(b0, w, x as int, y as int, gw as int, top, bot, dy as int, dx + 1);
                    assert(self.backbuf@ =~= next);
                }
                dx = dx + 1;
            }
            proof {
                assert(gradient_upto(b0, w, x as int, y as int, gw as int, top, bot, dy as int, gw as int)
                    =~= gradient_upto(b0, w, x as int, y as int, gw as int, top, bot, dy + 1, 0));
            }
            dy = dy + 1;
        }
    }

    fn draw_close_mark(&mut self, bx: usize, by: usize)
        requires
            old(self).wf(),
            bx + CLOSE_BTN_SIZE <= usize::MAX,
            by + CLOSE_BTN_SIZE <= usize::MAX,
        ensures
            final(self).wf(),
            final(self).backbuf@ == close_mark_upto(
                old(self).backbuf@,
                old(self).width as int,
                bx as int,
                by as int,
                CLOSE_BTN_SIZE as int,
            ),
            final(self).bg_cache@ == old(self).bg_cache@,
            same_state(*final(self), *old(self)),
    {
        let ghost b0 = self.backbuf@;
        let ghost w = self.width as int;
        proof {
            assert(close_mark_upto(b0, w, bx as int, by as int, 0) =~= b0);
        }
        let mut i: usize = 0;
        while i < CLOSE_BTN_SIZE
            invariant
                i <= CLOSE_BTN_SIZE,
                bx + CLOSE_BTN_SIZE <= usize::MAX,
                by + CLOSE_BTN_SIZE <= usize::MAX,
                w == self.width,
                self.wf(),
                self.bg_cache@ == old(self).bg_cache@,
                same_state(*self, *old(self)),
                self.backbuf@ == close_mark_upto(b0, w, bx as int, by as int, i as int),
            decreases CLOSE_BTN_SIZE - i,
        {
            self.set_pixel(bx + i, by + i, COLOR_CLOSE_X);
            self.set_pixel(bx + CLOSE_BTN_SIZE - 1 - i, by + i, COLOR_CLOSE_X);
            proof {
                assert(self.backbuf@ =~= close_mark_upto(b0, w, bx as int, by as int, i + 1));
            }
            i = i + 1;
        }
    }

    /// Draw the border, title bar, title and close button of window
    /// `win_idx`, in the active colours if it is the top window.
    pub fn draw_window_decorations(&mut self, win_idx: usize)
        requires
            old(self).wf(),
            win_idx < old(self).windows@.len(),
            window_drawable(old(self).windows@[win_idx as int]),
        ensures
            final(self).wf(),
            final(self).backbuf@ == decorations_spec(
                old(self).backbuf@,
                old(self).width as int,
                old(self).windows@[win_idx as int],
                win_idx == old(self).windows@.len() - 1,
            ),
            final(self).bg_cache@ == old(self).bg_cache@,
            same_state(*final(self), *old(self)),
    {
        let is_active = win_idx == self.windows.len() - 1;
        let win_x = self.windows[win_idx].x;
        let win_y = self.windows[win_idx].y;
        let win_width = self.windows[win_idx].width;
        let total_w = self.windows[win_idx].total_width();
        let total_h = self.windows[win_idx].total_height();
        let title_len = self.windows[win_idx].title_len;
        let ghost win = self.windows@[win_idx as int];
        let mut title: Vec<u8> = Vec::new();
        if title_len > 0 {
            let mut k: usize = 0;
            while k < title_len
                invariant
                    k <= title_len,
                    title_len <= 32,
                    win_idx < self.windows@.len(),
                    win == self.windows@[win_idx as int],
                    title_len == win.title_len,
                    title@ == win.title@.subrange(0, k as int),
                decreases title_len - k,
            {
                let b = self.windows[win_idx].title[k];
                title.push(b);
                proof {
                    assert(title@ =~= win.title@.subrange(0, k + 1));
                }
                k = k + 1;
            }
        } else {
            title = vec![87u8, 105u8, 110u8, 100u8, 111u8, 119u8];
            assert(title@ =~= seq![87u8, 105u8, 110u8, 100u8, 111u8, 119u8]);
        }
        let border = if is_active { COLOR_BORDER_ACTIVE } else { COLOR_BORDER_INACTIVE };
        let top = if is_active { COLOR_TITLE_ACTIVE_TOP } else { COLOR_TITLE_INACTIVE_TOP };
        let bot = if is_active { COLOR_TITLE_ACTIVE_BOT } else { COLOR_TITLE_INACTIVE_BOT };
        let text_color = if is_active { COLOR_TITLE_TEXT_ACTIVE } else { COLOR_TITLE_TEXT_INACTIVE };
        self.fill_rect(win_x, win_y, total_w, BORDER_WIDTH, border);
        self.fill_rect(win_x, win_y + total_h - BORDER_WIDTH, total_w, BORDER_WIDTH, border);
        self.fill_rect(win_x, win_y, BORDER_WIDTH, total_h, border);
        self.fill_rect(win_x + total_w - BORDER_WIDTH, win_y, BORDER_WIDTH, total_h, border);
        let tb_x = win_x + BORDER_WIDTH;
        let tb_y = win_y + BORDER_WIDTH;
        self.draw_title_gradient(tb_x, tb_y, win_width, top, bot);
        let (w, h) = (self.width, self.height);
        raster::draw_text(&mut self.backbuf, w, h, tb_x + 8, tb_y + 8, title.as_slice(), text_color);
        let btn_x = win_x + total_w - BORDER_WIDTH - CLOSE_BTN_MARGIN - CLOSE_BTN_SIZE;
        let btn_y = win_y + BORDER_WIDTH + (TITLE_BAR_HEIGHT - CLOSE_BTN_SIZE) / 2;
        self.fill_rect(btn_x, btn_y, CLOSE_BTN_SIZE, CLOSE_BTN_SIZE, COLOR_CLOSE_BG);
        self.draw_close_mark(btn_x, btn_y);
    }

    fn draw_client(&mut self, cx: usize, cy: usize, cw: usize, ch: usize, px: &Vec<u32>)
        requires
            old(self).wf(),
            cx + cw <= usize::MAX,
            cy + ch <= usize::MAX,
            cw * ch <= px@.len(),
        ensures
            final(self).wf(),
            final(self).backbuf@ == client_upto(
                old(self).backbuf@,
                old(self).width as int,
                cx as int,
                cy as int,
                cw as int,
                ch as int,
                px@,
                ch as int,
                0,
            ),
            final(self).bg_cache@ == old(self).bg_cache@,
            same_state(*final(self), *old(self)),
    {
        let ghost b0 = self.backbuf@;
        let ghost w = self.width as int;
        let plen = px.len();
        proof {
            assert(client_upto(b0, w, cx as int, cy as int, cw as int, ch as int, px@, 0, 0) =~= b0);
        }
        let mut y: usize = 0;
        while y < ch
            invariant
                y <= ch,
                cx + cw <= usize::MAX,
                cy + ch <= usize::MAX,
                cw * ch <= px@.len(),
                cw * ch <= usize::MAX,
                w == self.width,
                self.wf(),
                self.bg_cache@ == old(self).bg_cache@,
                same_state(*self, *old(self)),
                self.backbuf@ == client_upto(b0, w, cx as int, cy as int, cw as int, ch as int, px@, y as int, 0),
            decreases ch - y,
        {
            let mut x: usize = 0;
            while x < cw
                invariant
                    x <= cw,
                    y < ch,
                    cx + cw <= usize::MAX,
                    cy + ch <= usize::MAX,
                    cw * ch <= px@.len(),
                    cw * ch <= usize::MAX,
                    w == self.width,
                    self.wf(),
                    self.bg_cache@ == old(self).bg_cache@,
                    same_state(*self, *old(self)),
                    self.backbuf@ == client_upto(b0, w, cx as int, cy as int, cw as int, ch as int, px@, y as int, x as int),
                decreases cw - x,
            {
                proof {
                    lemma_index(cw as int, ch as int, x as int, y as int);
                }
                let pixel = px[y * cw + x];
                if (pixel >> 24u32) != 0 {
                    self.set_pixel(cx + x, cy + y, pixel);
                }
                proof {
                    let next = client_upto(b0, w, cx as int, cy as int, cw as int, ch as int, px@, y as int, x + 1);
                    assert forall|i: int| 0 <= i < next.len() implies self.backbuf@[i] == next[i] by {
                        if col_of(i, w) == cx + x && row_of(i, w) == cy + y {
                            assert(px@[y * cw + x] == pixel);
                        }
                    }
                    assert(self.backbuf@ =~= next);
                }
                x = x + 1;
            }
            proof {
                assert(client_upto(b0, w, cx as int, cy as int, cw as int, ch as int, px@, y as int, cw as int)
                    =~= client_upto(b0, w, cx as int, cy as int, cw as int, ch as int, px@, y + 1, 0));
            }
            y = y + 1;
        }
    }

    /// Draw every window bottom to top: its decorations, then the pixels of
    /// its shared buffer, `clients[k]` for window `k`.
    pub fn draw_windows(&mut self, clients: &Vec<Vec<u32>>)
        requires
            old(self).wf(),
            clients@.len() == old(self).windows@.len(),
            forall|k: int| 0 <= k < clients@.len() ==> #[trigger] window_drawable(old(self).windows@[k]),
            forall|k: int|
                0 <= k < clients@.len() ==> old(self).windows@[k].width * old(self).windows@[k].height
                    <= #[trigger] clients@[k]@.len(),
        ensures
            final(self).wf(),
            final(self).backbuf@ == windows_spec(
                old(self).backbuf@,
                old(self).width as int,
                old(self).windows@,
                clients@,
                clients@.len(),
            ),
            final(self).bg_cache@ == old(self).bg_cache@,
            same_state(*final(self), *old(self)),
    {
        let ghost b0 = self.backbuf@;
        let n = self.windows.len();
        let mut idx: usize = 0;
        while idx < n
            invariant
                idx <= n,
                n == self.windows@.len(),
                clients@.len() == n,
                self.windows@ == old(self).windows@,
                forall|k: int| 0 <= k < clients@.len() ==> #[trigger] window_drawable(old(self).windows@[k]),
                forall|k: int|
                    0 <= k < clients@.len() ==> old(self).windows@[k].width * old(self).windows@[k].height
                        <= #[trigger] clients@[k]@.len(),
                self.wf(),
                self.width == old(self).width,
                self.bg_cache@ == old(self).bg_cache@,
                same_state(*self, *old(self)),
                self.backbuf@ == windows_spec(b0, self.width as int, self.windows@, clients@, idx as nat),
            decreases n - idx,
        {
            self.draw_window_decorations(idx);
            let cx = self.windows[idx].client_x();
            let cy = self.windows[idx].client_y();
            let cw = self.windows[idx].width;
            let ch = self.windows[idx].height;
            assert(window_drawable(old(self).windows@[idx as int]));
            assert(cw * ch <= clients@[idx as int]@.len());
            self.draw_client(cx, cy, cw, ch, &clients[idx]);
            idx = idx + 1;
        }
    }

    fn find_window(&self, id: u64) -> (r: Option<usize>)
        ensures
            match r {
                Some(k) => k == find_id(self.windows@, id, 0) && k < self.windows@.len(),
                None => find_id(self.windows@, id, 0) < 0,
            },
    {
        let n = self.windows.len();
        let mut i: usize = 0;
        while i < n
            invariant
                i <= n,
                n == self.windows@.len(),
                find_id(self.windows@, id, 0) == find_id(self.windows@, id, i as int),
            decreases n - i,
        {
            if self.windows[i].id == id {
                return Some(i);
            }
            i = i + 1;
        }
        None
    }

    fn topmost_hit(&self, mx: usize, my: usize) -> (r: Option<usize>)
        requires
            forall|k: int|
                0 <= k && hit_index(self.windows@, mx as int, my as int, self.windows@.len()) <= k
                    < self.windows@.len() ==> #[trigger] window_clickable(self.windows@[k]),
        ensures
            match r {
                Some(k) => k == hit_index(self.windows@, mx as int, my as int, self.windows@.len())
                    && k < self.windows@.len(),
                None => hit_index(self.windows@, mx as int, my as int, self.windows@.len()) < 0,
            },
    {
        let n = self.windows.len();
        let mut i: usize = n;
        while i > 0
            invariant
                i <= n,
                n == self.windows@.len(),
                forall|k: int|
                    0 <= k && hit_index(self.windows@, mx as int, my as int, n as nat) <= k < n
                        ==> #[trigger] window_clickable(self.windows@[k]),
                hit_index(self.windows@, mx as int, my as int, n as nat) == hit_index(
                    self.windows@,
                    mx as int,
                    my as int,
                    i as nat,
                ),
            decreases i,
        {
            proof {
                lemma_hit_index_below(self.windows@, mx as int, my as int, i as nat);
            }
            i = i - 1;
            assert(window_clickable(self.windows@[i as int]));
            let win = &self.windows[i];
            if win.hit_close_button(mx, my) || win.hit_title_bar(mx, my) || win.hit_anywhere(mx, my) {
                return Some(i);
            }
        }
        None
    }

    /// Whether the windows that a click at `(mx, my)` tests, from the top
    /// down to the one it lands on, can all be hit-tested.
    fn hit_tests_fit(&self, mx: usize, my: usize) -> (r: bool)
        ensures
            r == forall|k: int|
                0 <= k && hit_index(self.windows@, mx as int, my as int, self.windows@.len()) <= k
                    < self.windows@.len() ==> #[trigger] window_clickable(self.windows@[k]),
    {
        let n = self.windows.len();
        let mut i: usize = n;
        while i > 0
            invariant
                i <= n,
                n == self.windows@.len(),
                forall|k: int| i <= k < n ==> #[trigger] window_clickable(self.windows@[k]),
                hit_index(self.windows@, mx as int, my as int, n as nat) == hit_index(
                    self.windows@,
                    mx as int,
                    my as int,
                    i as nat,
                ),
            decreases i,
        {
            proof {
                lemma_hit_index_below(self.windows@, mx as int, my as int, i as nat);
            }
            i = i - 1;
            if !self.windows[i].clickable() {
                return false;
            }
            let win = &self.windows[i];
            if win.hit_close_button(mx, my) || win.hit_title_bar(mx, my) || win.hit_anywhere(mx, my) {
                return true;
            }
        }
        assert(hit_index(self.windows@, mx as int, my as int, 0) == -1);
        true
    }

    fn raise(&mut self, idx: usize)
        requires
            idx < old(self).windows@.len(),
        ensures
            final(self).windows@ == move_to_top(old(self).windows@, idx as int),
            keeps(*old(self), *final(self)),
            final(self).mouse_x == old(self).mouse_x && final(self).mouse_y == old(self).mouse_y,
            final(self).mouse_buttons == old(self).mouse_buttons && final(self).dirty == old(self).dirty,
            final(self).next_window_id == old(self).next_window_id,
            final(self).alloc_vaddr == old(self).alloc_vaddr,
            final(self).drag == old(self).drag,
    {
        if idx < self.windows.len() - 1 {
            let win = self.windows.remove(idx);
            self.windows.push(win);
        } else {
            assert(move_to_top(self.windows@, idx as int) =~= self.windows@);
        }
    }

    /// Whether every window can be drawn.
    pub fn windows_drawable(&self) -> (r: bool)
        ensures
            r == forall|k: int| 0 <= k < self.windows@.len() ==> #[trigger] window_drawable(self.windows@[k]),
    {
        let mut k: usize = 0;
        while k < self.windows.len()
            invariant
                k <= self.windows@.len(),
                forall|j: int| 0 <= j < k ==> #[trigger] window_drawable(self.windows@[j]),
            decreases self.windows@.len() - k,
        {
            if !self.windows[k].drawable() {
                return false;
            }
            k = k + 1;
        }
        true
    }

    /// Whether `msg` stays within the arithmetic that handling it uses; see
    /// `message_ok`.
    pub fn accepts(&self, msg: &Message) -> (r: bool)
        ensures
            r == message_ok(*self, *msg),
    {
        let pressed = (msg.arg3 as u8) & 1 != 0;
        let lo = i32::MIN as i64;
        let hi = i32::MAX as i64;
        if msg.msg_type == MSG_MOUSE_MOVE && self.drag.active && pressed {
            let dx = (msg.arg1 as i32) as i64 - self.drag.offset_x as i64;
            let dy = (msg.arg2 as i32) as i64 - self.drag.offset_y as i64;
            if dx < lo || dx > hi || dy < lo || dy > hi {
                return false;
            }
        }
        if msg.msg_type == MSG_MOUSE_CLICK && pressed && self.mouse_buttons & 1 == 0 {
            if self.width < 35 || self.height > usize::MAX - 26 {
                return false;
            }
            let mx = self.mouse_x as usize;
            let my = self.mouse_y as usize;
            if !self.hit_power_button(mx, my) {
                if !self.hit_tests_fit(mx, my) {
                    return false;
                }
                match self.topmost_hit(mx, my) {
                    Some(k) => {
                        assert(window_clickable(self.windows@[k as int]));
                        let w = &self.windows[k];
                        if !w.hit_close_button(mx, my) && w.hit_title_bar(mx, my) {
                            let dx = self.mouse_x as i64 - (w.x as i32) as i64;
                            let dy = self.mouse_y as i64 - (w.y as i32) as i64;
                            if dx < lo || dx > hi || dy < lo || dy > hi {
                                return false;
                            }
                        }
                    },
                    None => {},
                }
            }
        }
        if msg.msg_type == MSG_WINDOW_CREATE {
            let w = msg.arg1 as usize as u128;
            let h = msg.arg2 as usize as u128;
            let max = usize::MAX as u128;
            assert(w * h <= 0xFFFF_FFFF_FFFF_FFFFu128 * 0xFFFF_FFFF_FFFF_FFFFu128) by (nonlinear_arith)
                requires
                    w <= 0xFFFF_FFFF_FFFF_FFFFu128,
                    h <= 0xFFFF_FFFF_FFFF_FFFFu128,
            ;
            if w * h > max || w * h * 4 > max || (self.alloc_vaddr as u128) + w * h * 4 + 0xFFF
                > u64::MAX as u128 || w + 2 > max || h + (TITLE_BAR_HEIGHT as u128) + 2 > max {
                return false;
            }
        }
        true
    }

    /// Update the state for one message from the mouse driver or a client,
    /// and say what the caller must do: see `handled`.
    pub fn handle_message(&mut self, msg: &Message) -> (act: CompositorAction)
        requires
            message_ok(*old(self), *msg),
        ensures
            handled(*old(self), *msg, *final(self), act),
    {
        if msg.msg_type == MSG_MOUSE_MOVE {
            let new_x = msg.arg1 as i32;
            let new_y = msg.arg2 as i32;
            self.mouse_buttons = msg.arg3 as u8;
            if self.drag.active && (self.mouse_buttons & 1 != 0) {
                match self.find_window(self.drag.window_id) {
                    Some(k) => {
                        let new_win_x = new_x - self.drag.offset_x;
                        let new_win_y = new_y - self.drag.offset_y;
                        let max_x = self.width.saturating_sub(50);
                        let max_y = self.height.saturating_sub(TASKBAR_HEIGHT + 10);
                        let nx: usize = if new_win_x < 0 {
                            0
                        } else if (new_win_x as usize) <= max_x {
                            new_win_x as usize
                        } else {
                            max_x
                        };
                        let ny: usize = if new_win_y < 0 {
                            0
                        } else if (new_win_y as usize) <= max_y {
                            new_win_y as usize
                        } else {
                            max_y
                        };
                        let mut win = self.windows.remove(k);
                        win.x = nx;
                        win.y = ny;
                        self.windows.insert(k, win);
                        proof {
                            let d = dragged(old(self).windows@, old(self).drag, new_x, new_y, old(self).width as int, old(self).height as int);
                            assert(self.windows@ =~= d);
                        }
                    },
                    None => {},
                }
            } else if self.drag.active {
                self.drag.active = false;
            }
            self.mouse_x = new_x;
            self.mouse_y = new_y;
            self.dirty = true;
            CompositorAction::Nothing
        } else if msg.msg_type == MSG_MOUSE_CLICK {
            let prev = self.mouse_buttons;
            self.mouse_buttons = msg.arg3 as u8;
            let just_pressed = (self.mouse_buttons & 1 != 0) && (prev & 1 == 0);
            self.dirty = true;
            if !just_pressed {
                return CompositorAction::Nothing;
            }
            let mx = self.mouse_x as usize;
            let my = self.mouse_y as usize;
            if self.hit_power_button(mx, my) {
                return CompositorAction::Shutdown;
            }
            match self.topmost_hit(mx, my) {
                None => CompositorAction::Nothing,
                Some(idx) => {
                    assert(window_clickable(self.windows@[idx as int]));
                    if self.windows[idx].hit_close_button(mx, my) {
                        let owner = self.windows[idx].owner_pid;
                        self.windows.remove(idx);
                        CompositorAction::SendQuit { pid: owner }
                    } else if self.windows[idx].hit_title_bar(mx, my) {
                        self.raise(idx);
                        let last = self.windows.len() - 1;
                        let wx = self.windows[last].x;
                        let wy = self.windows[last].y;
                        let wid = self.windows[last].id;
                        let m_x = self.mouse_x;
                        let m_y = self.mouse_y;
                        proof {
                            assert((m_x as usize) as i32 == m_x) by (bit_vector);
                            assert((m_y as usize) as i32 == m_y) by (bit_vector);
                        }
                        self.drag = DragState {
                            active: true,
                            window_id: wid,
                            offset_x: (mx as i32) - (wx as i32),
                            offset_y: (my as i32) - (wy as i32),
                        };
                        CompositorAction::Nothing
                    } else {
                        self.raise(idx);
                        CompositorAction::Nothing
                    }
                },
            }
        } else if msg.msg_type == MSG_WINDOW_CREATE {
            CompositorAction::MapWindowBuffer { shm_id: msg.arg3 as u32, vaddr: self.alloc_vaddr }
        } else if msg.msg_type == MSG_WINDOW_DAMAGE {
            self.dirty = true;
            CompositorAction::Nothing
        } else {
            CompositorAction::Nothing
        }
    }

    /// Add the window that request `msg` asks for, once its shared buffer
    /// is mapped at the address `handle_message` returned.
    pub fn create_window(&mut self, msg: &Message)
        requires
            msg.msg_type == MSG_WINDOW_CREATE,
            create_ok(*old(self), *msg),
            old(self).windows@.len() <= usize::MAX / 40,
            old(self).next_window_id < u64::MAX,
        ensures
            final(self).windows@.len() == old(self).windows@.len() + 1,
            final(self).windows@.subrange(0, old(self).windows@.len() as int) == old(self).windows@,
            is_new_window(final(self).windows@.last(), *old(self), *msg),
            final(self).next_window_id == old(self).next_window_id + 1,
            final(self).alloc_vaddr == next_map_addr(*old(self), *msg),
            final(self).dirty,
            keeps(*old(self), *final(self)),
            final(self).mouse_x == old(self).mouse_x && final(self).mouse_y == old(self).mouse_y,
            final(self).mouse_buttons == old(self).mouse_buttons,
            final(self).drag == old(self).drag,
    {
        let width = msg.arg1 as usize;
        let height = msg.arg2 as usize;
        let shm_id = msg.arg3 as u32;
        let owner_pid = msg.sender;
        let vaddr = self.alloc_vaddr;
        let bytes = (width * height * 4) as u64;
        let next_vaddr = (vaddr + bytes + 0xFFF) & !0xFFFu64;
        let total_w = width + 2 * BORDER_WIDTH;
        let total_h = height + TITLE_BAR_HEIGHT + 2 * BORDER_WIDTH;
        let center_x = self.width.saturating_sub(total_w) / 2;
        let center_y = self.height.saturating_sub(TASKBAR_HEIGHT).saturating_sub(total_h) / 2;
        let mut title = [0u8; 32];
        title[0] = 84u8;
        title[1] = 101u8;
        title[2] = 114u8;
        title[3] = 109u8;
        title[4] = 105u8;
        title[5] = 110u8;
        title[6] = 97u8;
        title[7] = 108u8;
        let n = self.windows.len();
        let win = Window {
            id: self.next_window_id,
            owner_pid,
            x: center_x + n * 20,
            y: center_y + n * 20,
            width,
            height,
            shm_id,
            buffer: vaddr,
            title,
            title_len: 8,
        };
        self.windows.push(win);
        assert(self.windows@.last().title@.subrange(0, 8) =~= default_title());
        self.next_window_id = self.next_window_id + 1;
        self.alloc_vaddr = next_vaddr;
        self.dirty = true;
    }

    /// Set up the screen of the given geometry: clear the back buffer and
    /// render the background cache.
    pub fn init(&mut self, width: usize, height: usize, pitch: usize, bpp: usize)
        requires
            screen_ok(width as int, height as int),
        ensures
            final(self).wf(),
            final(self).width == width && final(self).height == height,
            final(self).pitch == pitch && final(self).bpp == bpp,
            final(self).backbuf@ == Seq::new((width * height) as nat, |i: int| 0u32),
            final(self).bg_cache@ == background(width as int, height as int),
            final(self).mouse_x == old(self).mouse_x && final(self).mouse_y == old(self).mouse_y,
            final(self).mouse_buttons == old(self).mouse_buttons,
            final(self).dirty == old(self).dirty,
            final(self).windows@ == old(self).windows@,
            final(self).next_window_id == old(self).next_window_id,
            final(self).alloc_vaddr == old(self).alloc_vaddr,
            final(self).drag == old(self).drag,
            final(self).frame_count == old(self).frame_count,
    {
        self.width = width;
        self.height = height;
        self.pitch = pitch;
        self.bpp = bpp;
        let pixel_count = width * height;
        self.backbuf = vec![0u32; pixel_count];
        self.bg_cache = vec![0u32; pixel_count];
        assert(self.backbuf@ =~= Seq::new((width * height) as nat, |i: int| 0u32));
        self.prerender_background();
    }

    /// Compose a frame for the time `hour:minute`: the background, the
    /// taskbar's clock and power button, the windows with the pixels of
    /// their shared buffers (`clients[k]` for window `k`), and the cursor.
    pub fn render(&mut self, hour: u8, minute: u8, clients: &Vec<Vec<u32>>)
        requires
            old(self).wf(),
            old(self).width >= 100,
            old(self).mouse_x >= 0,
            old(self).mouse_y >= 0,
            clients@.len() == old(self).windows@.len(),
            forall|k: int| 0 <= k < clients@.len() ==> #[trigger] window_drawable(old(self).windows@[k]),
            forall|k: int|
                0 <= k < clients@.len() ==> old(self).windows@[k].width * old(self).windows@[k].height
                    <= #[trigger] clients@[k]@.len(),
        ensures
            final(self).wf(),
            final(self).backbuf@ == cursor_spec(
                windows_spec(
                    taskbar_spec(
                        old(self).bg_cache@,
                        old(self).width as int,
                        old(self).height as int,
                        hour,
                        minute,
                    ),
                    old(self).width as int,
                    old(self).windows@,
                    clients@,
                    clients@.len(),
                ),
                old(self).width as int,
                old(self).mouse_x as int,
                old(self).mouse_y as int,
            ),
            final(self).bg_cache@ == old(self).bg_cache@,
            !final(self).dirty,
            final(self).frame_count == (if old(self).frame_count == u32::MAX {
                0
            } else {
                old(self).frame_count + 1
            }),
            final(self).width == old(self).width && final(self).height == old(self).height,
            final(self).pitch == old(self).pitch && final(self).bpp == old(self).bpp,
            final(self).mouse_x == old(self).mouse_x && final(self).mouse_y == old(self).mouse_y,
            final(self).mouse_buttons == old(self).mouse_buttons,
            final(self).windows@ == old(self).windows@,
            final(self).next_window_id == old(self).next_window_id,
            final(self).alloc_vaddr == old(self).alloc_vaddr,
            final(self).drag == old(self).drag,
    {
        self.restore_background();
        self.draw_taskbar_dynamic(hour, minute);
        self.draw_windows(clients);
        self.draw_cursor();
        self.dirty = false;
        self.frame_count = self.frame_count.wrapping_add(1);
    }
}

/// A window's close button lies in its title bar, and its title bar in the
/// window, for windows at least as wide as the button and its margins.
pub proof fn close_in_title_in_window(w: Window, mx: int, my: int)
    requires
        w.width >= 19,
    ensures
        hits_close(w, mx, my) ==> hits_title_bar(w, mx, my),
        hits_title_bar(w, mx, my) ==> hits_window(w, mx, my),
{
}

/// Raising a window keeps the same windows, puts that window on top and
/// keeps the others in their order.
pub proof fn raise_keeps_windows(wins: Seq<Window>, k: int)
    requires
        0 <= k < wins.len(),
    ensures
        move_to_top(wins, k).len() == wins.len(),
        move_to_top(wins, k).last() == wins[k],
        move_to_top(wins, k).to_multiset() == wins.to_multiset(),
        move_to_top(wins, k).drop_last() == wins.remove(k),
{
    let m = move_to_top(wins, k);
    assert(m.drop_last() =~= wins.remove(k));
    vstd::seq_lib::lemma_multiset_commutative(wins.remove(k), seq![wins[k]]);
    assert(wins.remove(k) + seq![wins[k]] =~= m);
    assert(wins =~= wins.subrange(0, k) + (seq![wins[k]] + wins.subrange(k + 1, wins.len() as int)));
    assert(wins.remove(k) =~= wins.subrange(0, k) + wins.subrange(k + 1, wins.len() as int));
    vstd::seq_lib::lemma_multiset_commutative(wins.subrange(0, k), seq![wins[k]] + wins.subrange(k + 1, wins.len() as int));
    vstd::seq_lib::lemma_multiset_commutative(seq![wins[k]], wins.subrange(k + 1, wins.len() as int));
    vstd::seq_lib::lemma_multiset_commutative(wins.subrange(0, k), wins.subrange(k + 1, wins.len() as int));
}

/// Dragging keeps the dragged window's corner on the screen: at least 50
/// pixels of it stay left of the right edge and it stays above the taskbar.
pub proof fn drag_stays_on_screen(wins: Seq<Window>, d: DragState, nx: i32, ny: i32, w: int, h: int)
    requires
        find_id(wins, d.window_id, 0) >= 0,
        0 <= w <= usize::MAX,
        0 <= h <= usize::MAX,
    ensures
        ({
            let k = find_id(wins, d.window_id, 0);
            let moved = dragged(wins, d, nx, ny, w, h)[k];
            &&& moved.x <= sat_sub(w, 50)
            &&& moved.y <= sat_sub(h, TASKBAR_HEIGHT + 10)
            &&& moved.id == d.window_id
        }),
{
    lemma_find_id(wins, d.window_id, 0);
}

proof fn lemma_hit_index_topmost(wins: Seq<Window>, mx: int, my: int, n: nat)
    requires
        n <= wins.len(),
    ensures
        hit_index(wins, mx, my, n) >= 0 ==> hit_index(wins, mx, my, n) < n && hits_any(
            wins[hit_index(wins, mx, my, n)],
            mx,
            my,
        ) && forall|j: int| hit_index(wins, mx, my, n) < j < n ==> !#[trigger] hits_any(wins[j], mx, my),
        hit_index(wins, mx, my, n) < 0 ==> forall|j: int| 0 <= j < n ==> !#[trigger] hits_any(wins[j], mx, my),
    decreases n,
{
    if n > 0 {
        lemma_hit_index_topmost(wins, mx, my, (n - 1) as nat);
    }
}

/// A click lands on the topmost window under the pointer: the window it
/// lands on contains the pointer (in its close button, title bar or area)
/// and no window above it does; when it lands on none, no window contains
/// the pointer.
pub proof fn click_lands_on_topmost(c: Compositor)
    ensures
        click_target(c) >= 0 ==> {
            let k = click_target(c);
            &&& k < c.windows@.len()
            &&& hits_any(c.windows@[k], pointer_x(c), pointer_y(c))
            &&& forall|j: int|
                k < j < c.windows@.len() ==> !#[trigger] hits_any(c.windows@[j], pointer_x(c), pointer_y(c))
        },
        click_target(c) < 0 ==> forall|j: int|
            0 <= j < c.windows@.len() ==> !#[trigger] hits_any(c.windows@[j], pointer_x(c), pointer_y(c)),
{
    lemma_hit_index_topmost(c.windows@, pointer_x(c), pointer_y(c), c.windows@.len());
}

/// A pressed click that lands on a window, away from its close button and
/// the power button, raises that window: it becomes the topmost, the others
/// keep their order below it, nothing is sent; on its title bar the click
/// also starts dragging that window.
pub proof fn click_raises_window(c: Compositor, msg: Message, n: Compositor, act: CompositorAction)
    requires
        handled(c, msg, n, act),
        msg.msg_type == MSG_MOUSE_CLICK,
        click_pressed(c, msg),
        !hits_power(c.width as int, c.height as int, pointer_x(c), pointer_y(c)),
        click_target(c) >= 0,
        !hits_close(c.windows@[click_target(c)], pointer_x(c), pointer_y(c)),
    ensures
        n.windows@.len() == c.windows@.len(),
        n.windows@.last() == c.windows@[click_target(c)],
        n.windows@.drop_last() == c.windows@.remove(click_target(c)),
        act is Nothing,
        hits_title_bar(c.windows@[click_target(c)], pointer_x(c), pointer_y(c)) ==> n.drag.active
            && n.drag.window_id == c.windows@[click_target(c)].id,
{
    lemma_hit_index_topmost(c.windows@, pointer_x(c), pointer_y(c), c.windows@.len());
    let k = click_target(c);
    assert(move_to_top(c.windows@, k).drop_last() =~= c.windows@.remove(k));
}

/// A pressed click on a window's close button (away from the power button)
/// removes that window, keeps the others in order, and asks the window's
/// owner to quit.
pub proof fn click_closes_window(c: Compositor, msg: Message, n: Compositor, act: CompositorAction)
    requires
        handled(c, msg, n, act),
        msg.msg_type == MSG_MOUSE_CLICK,
        click_pressed(c, msg),
        !hits_power(c.width as int, c.height as int, pointer_x(c), pointer_y(c)),
        click_target(c) >= 0,
        hits_close(c.windows@[click_target(c)], pointer_x(c), pointer_y(c)),
    ensures
        n.windows@.len() == c.windows@.len() - 1,
        forall|j: int|
            0 <= j < click_target(c) ==> #[trigger] n.windows@[j] == c.windows@[j],
        forall|j: int|
            click_target(c) <= j < n.windows@.len() ==> #[trigger] n.windows@[j] == c.windows@[j + 1],
        act == (CompositorAction::SendQuit { pid: c.windows@[click_target(c)].owner_pid }),
        n.drag == c.drag,
{
    lemma_hit_index_topmost(c.windows@, pointer_x(c), pointer_y(c), c.windows@.len());
}

proof fn lemma_find_id(wins: Seq<Window>, id: u64, i: int)
    requires
        0 <= i,
    ensures
        find_id(wins, id, i) >= 0 ==> i <= find_id(wins, id, i) < wins.len() && wins[find_id(
            wins,
            id,
            i,
        )].id == id && forall|j: int| i <= j < find_id(wins, id, i) ==> #[trigger] wins[j].id != id,
        find_id(wins, id, i) < 0 ==> forall|j: int| i <= j < wins.len() ==> #[trigger] wins[j].id != id,
    decreases wins.len() - i,
{
    if i < wins.len() && wins[i].id != id {
        lemma_find_id(wins, id, i + 1);
    }
}

/// While a window is dragged with the button held, moving the pointer to
/// `(nx, ny)` puts the first window with the dragged id at the pointer less
/// the grab offset (when that stays on screen: left of `width - 50` and
/// above the taskbar's reach), leaves every other window as it was, and
/// keeps dragging; releasing the button ends the drag and moves nothing.
pub proof fn drag_follows_pointer(c: Compositor, msg: Message, n: Compositor, act: CompositorAction)
    requires
        handled(c, msg, n, act),
        msg.msg_type == MSG_MOUSE_MOVE,
        c.drag.active,
    ensures
        act is Nothing,
        (msg.arg3 as u8) & 1 == 0 ==> !n.drag.active && n.windows@ == c.windows@,
        (msg.arg3 as u8) & 1 != 0 ==> {
            &&& n.drag == c.drag
            &&& n.windows@.len() == c.windows@.len()
            &&& forall|j: int|
                0 <= j < c.windows@.len() && c.windows@[j].id != c.drag.window_id ==> #[trigger] n.windows@[j]
                    == c.windows@[j]
            &&& forall|k: int|
                0 <= k < c.windows@.len() && c.windows@[k].id == c.drag.window_id && (forall|j: int|
                    0 <= j < k ==> c.windows@[j].id != c.drag.window_id) ==> {
                    let x = (msg.arg1 as i32) - c.drag.offset_x;
                    let y = (msg.arg2 as i32) - c.drag.offset_y;
                    &&& 0 <= x <= c.width - 50 ==> n.windows@[k].x == x
                    &&& 0 <= y <= c.height - TASKBAR_HEIGHT - 10 ==> n.windows@[k].y == y
                    &&& x < 0 ==> n.windows@[k].x == 0
                    &&& y < 0 ==> n.windows@[k].y == 0
                    &&& n.windows@[k].id == c.windows@[k].id && n.windows@[k].width
                        == c.windows@[k].width && n.windows@[k].height == c.windows@[k].height
                }
        },
{
    lemma_find_id(c.windows@, c.drag.window_id, 0);
    let k0 = find_id(c.windows@, c.drag.window_id, 0);
    if k0 >= 0 && (msg.arg3 as u8) & 1 != 0 {
        assert forall|k: int|
            0 <= k < c.windows@.len() && c.windows@[k].id == c.drag.window_id && (forall|j: int|
                0 <= j < k ==> c.windows@[j].id != c.drag.window_id) implies k == k0 by {
            if k < k0 {
                assert(c.windows@[k].id != c.drag.window_id);
            }
            if k > k0 {
                assert(c.windows@[k0].id != c.drag.window_id);
            }
        }
    }
}

} // verus!
