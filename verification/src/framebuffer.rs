//! A linear framebuffer of bytes with 32-bit pixels, as the text consoles
//! draw on it: pixel `(x, y)` starts at byte `y * pitch + x * bpp`.

use vstd::prelude::*;

verus! {

/// The framebuffer's memory and geometry.
pub struct FrameBuffer {
    pub bytes: Vec<u8>,
    pub width: usize,
    pub height: usize,
    /// Bytes per row.
    pub pitch: usize,
    /// Bytes per pixel.
    pub bpp: usize,
}

/// The geometry alone.
#[derive(Clone, Copy)]
pub struct Geometry {
    pub width: usize,
    pub height: usize,
    pub pitch: usize,
    pub bpp: usize,
}

pub const FONT_WIDTH: usize = 8;
pub const FONT_HEIGHT: usize = 16;

/// Every pixel of the screen lies inside the memory: rows of `pitch` bytes
/// hold `width` pixels of at least four bytes.
pub open spec fn geometry_ok(bytes: Seq<u8>, g: Geometry) -> bool {
    &&& bytes.len() == g.pitch * g.height
    &&& g.bpp >= 4
    &&& g.width > 0 ==> (g.width - 1) * g.bpp + 4 <= g.pitch
}

/// The little-endian bytes of `c` written at `off`.
pub open spec fn put_u32(b: Seq<u8>, off: int, c: u32) -> Seq<u8> {
    b.update(off, (c & 0xFF) as u8).update(off + 1, ((c >> 8u32) & 0xFF) as u8).update(
        off + 2,
        ((c >> 16u32) & 0xFF) as u8,
    ).update(off + 3, ((c >> 24u32) & 0xFF) as u8)
}

/// `b` with pixel `(x, y)` set to `c`, if it is on screen.
pub open spec fn plot(b: Seq<u8>, g: Geometry, x: int, y: int, c: u32) -> Seq<u8> {
    if 0 <= x < g.width && 0 <= y < g.height {
        put_u32(b, y * g.pitch + x * g.bpp, c)
    } else {
        b
    }
}

/// Pixel `(row, col)` of an 8 by 16 glyph is lit (most significant bit is
/// the leftmost column).
pub open spec fn glyph_on(glyph: [u8; 16], row: int, col: int) -> bool {
    (glyph@[row] >> ((7 - col) as u8)) & 1u8 != 0
}

/// `b` after the first `n` pixels of a character cell at `(x, y)`, in
/// row-major order, are painted `fg` where the glyph is lit and `bg`
/// elsewhere.
pub open spec fn char_upto(b: Seq<u8>, g: Geometry, glyph: [u8; 16], x: int, y: int, fg: u32, bg: u32, n: nat) -> Seq<u8>
    decreases n,
{
    if n == 0 {
        b
    } else {
        let k = n - 1;
        let row = k / 8;
        let col = k % 8;
        plot(
            char_upto(b, g, glyph, x, y, fg, bg, (n - 1) as nat),
            g,
            x + col,
            y + row,
            if glyph_on(glyph, row, col) { fg } else { bg },
        )
    }
}

/// `b` with a whole character cell drawn at `(x, y)`.
pub open spec fn char_spec(b: Seq<u8>, g: Geometry, glyph: [u8; 16], x: int, y: int, fg: u32, bg: u32) -> Seq<u8> {
    char_upto(b, g, glyph, x, y, fg, bg, 128)
}

/// `b` after the first `n` pixels of the screen, in row-major order, are
/// painted `c`.
pub open spec fn clear_upto(b: Seq<u8>, g: Geometry, c: u32, n: nat) -> Seq<u8>
    decreases n,
{
    if n == 0 {
        b
    } else {
        let k = n - 1;
        plot(clear_upto(b, g, c, (n - 1) as nat), g, k % (g.width as int), k / (g.width as int), c)
    }
}

/// `b` with every pixel painted `c`.
pub open spec fn clear_spec(b: Seq<u8>, g: Geometry, c: u32) -> Seq<u8> {
    clear_upto(b, g, c, (g.width * g.height) as nat)
}

/// The screen moved up one text line: each byte takes the value
/// `pitch * 16` bytes further on, and the last text line is zeroed.
pub open spec fn scroll_spec(b: Seq<u8>, g: Geometry) -> Seq<u8> {
    let line = g.pitch * FONT_HEIGHT;
    Seq::new(b.len(), |i: int| if i + line < b.len() { b[i + line] } else { 0u8 })
}

proof fn lemma_pixel_in(g: Geometry, x: int, y: int)
    requires
        g.bpp >= 4,
        g.width > 0 ==> (g.width - 1) * g.bpp + 4 <= g.pitch,
        0 <= x < g.width,
        0 <= y < g.height,
    ensures
        0 <= y * g.pitch,
        0 <= x * g.bpp,
        y * g.pitch + x * g.bpp + 4 <= g.pitch * g.height,
{
    let (w, h, p, b) = (g.width as int, g.height as int, g.pitch as int, g.bpp as int);
    assert(x * b <= (w - 1) * b) by (nonlinear_arith)
        requires 0 <= x <= w - 1, b >= 0;
    assert(y * p + p <= p * h) by (nonlinear_arith)
        requires 0 <= y < h, p >= 0;
    assert(0 <= y * p) by (nonlinear_arith)
        requires 0 <= y, p >= 0;
    assert(0 <= x * b) by (nonlinear_arith)
        requires 0 <= x, b >= 0;
}

impl FrameBuffer {
    pub open spec fn geometry(&self) -> Geometry {
        Geometry { width: self.width, height: self.height, pitch: self.pitch, bpp: self.bpp }
    }

    pub open spec fn wf(&self) -> bool {
        geometry_ok(self.bytes@, self.geometry())
    }

    /// A framebuffer of the given geometry, all zero.
    pub fn new(width: usize, height: usize, pitch: usize, bpp: usize) -> (r: FrameBuffer)
        requires
            pitch * height <= usize::MAX,
            bpp >= 4,
            width > 0 ==> (width - 1) * bpp + 4 <= pitch,
        ensures
            r.wf(),
            r.width == width && r.height == height && r.pitch == pitch && r.bpp == bpp,
            r.bytes@ == Seq::new((pitch * height) as nat, |i: int| 0u8),
    {
        let bytes = vec![0u8; pitch * height];
        let r = FrameBuffer { bytes, width, height, pitch, bpp };
        assert(r.bytes@ =~= Seq::new((pitch * height) as nat, |i: int| 0u8));
        r
    }

    /// Write pixel `(x, y)`, if on screen.
    pub fn plot_pixel(&mut self, x: usize, y: usize, color: u32)
        requires
            old(self).wf(),
        ensures
            final(self).wf(),
            final(self).geometry() == old(self).geometry(),
            final(self).bytes@ == plot(old(self).bytes@, old(self).geometry(), x as int, y as int, color),
    {
        let n = self.bytes.len();
        if x >= self.width || y >= self.height {
            return;
        }
        proof {
            lemma_pixel_in(self.geometry(), x as int, y as int);
        }
        let offset = y * self.pitch + x * self.bpp;
        self.bytes.set(offset, (color & 0xFF) as u8);
        self.bytes.set(offset + 1, ((color >> 8u32) & 0xFF) as u8);
        self.bytes.set(offset + 2, ((color >> 16u32) & 0xFF) as u8);
        self.bytes.set(offset + 3, ((color >> 24u32) & 0xFF) as u8);
    }

    /// Draw an 8 by 16 glyph at `(x, y)`: `fg` where lit, `bg` elsewhere.
    pub fn draw_glyph(&mut self, glyph: &[u8; 16], x: usize, y: usize, fg: u32, bg: u32)
        requires
            old(self).wf(),
            x + FONT_WIDTH <= usize::MAX,
            y + FONT_HEIGHT <= usize::MAX,
        ensures
            final(self).wf(),
            final(self).geometry() == old(self).geometry(),
            final(self).bytes@ == char_spec(old(self).bytes@, old(self).geometry(), *glyph, x as int, y as int, fg, bg),
    {
        let ghost b0 = self.bytes@;
        let ghost g = self.geometry();
        let mut row: usize = 0;
        while row < FONT_HEIGHT
            invariant
                row <= FONT_HEIGHT,
                x + FONT_WIDTH <= usize::MAX,
                y + FONT_HEIGHT <= usize::MAX,
                self.wf(),
                self.geometry() == g,
                self.bytes@ == char_upto(b0, g, *glyph, x as int, y as int, fg, bg, (row * 8) as nat),
            decreases FONT_HEIGHT - row,
        {
            let mask = glyph[row];
            let mut col: usize = 0;
            while col < FONT_WIDTH
                invariant
                    col <= FONT_WIDTH,
                    row < FONT_HEIGHT,
                    mask == glyph@[row as int],
                    x + FONT_WIDTH <= usize::MAX,
                    y + FONT_HEIGHT <= usize::MAX,
                    self.wf(),
                    self.geometry() == g,
                    self.bytes@ == char_upto(b0, g, *glyph, x as int, y as int, fg, bg, (row * 8 + col) as nat),
                decreases FONT_WIDTH - col,
            {
                let lit = (mask >> ((7 - col) as u8)) & 1u8 != 0;
                let c = if lit { fg } else { bg };
                self.plot_pixel(x + col, y + row, c);
                proof {
                    let k = row * 8 + col;
                    assert(k / 8 == row && k % 8 == col);
                }
                col = col + 1;
            }
            row = row + 1;
        }
    }

    /// Paint every pixel `color`, row by row.
    pub fn fill(&mut self, color: u32)
        requires
            old(self).wf(),
        ensures
            final(self).wf(),
            final(self).geometry() == old(self).geometry(),
            final(self).bytes@ == clear_spec(old(self).bytes@, old(self).geometry(), color),
    {
        let ghost b0 = self.bytes@;
        let ghost g = self.geometry();
        let w = self.width;
        let h = self.height;
        let mut y: usize = 0;
        while y < h
            invariant
                y <= h,
                w == g.width && h == g.height,
                self.wf(),
                self.geometry() == g,
                self.bytes@ == clear_upto(b0, g, color, (y * w) as nat),
            decreases h - y,
        {
            let mut x: usize = 0;
            while x < w
                invariant
                    x <= w,
                    y < h,
                    w == g.width && h == g.height,
                    self.wf(),
                    self.geometry() == g,
                    self.bytes@ == clear_upto(b0, g, color, (y * w + x) as nat),
                decreases w - x,
            {
                self.plot_pixel(x, y, color);
                proof {
                    crate::raster::lemma_index(w as int, h as int, x as int, y as int);
                }
                x = x + 1;
            }
            assert(y * w + w == (y + 1) * w) by (nonlinear_arith);
            y = y + 1;
        }
        assert(h * w == w * h) by (nonlinear_arith);
    }

    /// Move the picture up one text line and zero the last line.
    pub fn scroll_up(&mut self)
        requires
            old(self).wf(),
            old(self).height >= FONT_HEIGHT,
        ensures
            final(self).wf(),
            final(self).geometry() == old(self).geometry(),
            final(self).bytes@ == scroll_spec(old(self).bytes@, old(self).geometry()),
    {
        let ghost b0 = self.bytes@;
        let total = self.bytes.len();
        assert(self.pitch * FONT_HEIGHT <= total) by (nonlinear_arith)
            requires total == self.pitch * self.height, self.height >= 16;
        let line = self.pitch * FONT_HEIGHT;
        let keep = total - line;
        let mut i: usize = 0;
        while i < keep
            invariant
                i <= keep,
                keep + line == total,
                total == b0.len(),
                self.bytes@.len() == total,
                self.wf(),
                self.geometry() == old(self).geometry(),
                line == self.pitch * FONT_HEIGHT,
                forall|j: int| 0 <= j < i ==> self.bytes@[j] == b0[j + line],
                forall|j: int| i <= j < total ==> self.bytes@[j] == b0[j],
            decreases keep - i,
        {
            let v = self.bytes[i + line];
            self.bytes.set(i, v);
            i = i + 1;
        }
        let mut j: usize = keep;
        while j < total
            invariant
                keep <= j <= total,
                keep + line == total,
                total == b0.len(),
                self.bytes@.len() == total,
                self.wf(),
                self.geometry() == old(self).geometry(),
                line == self.pitch * FONT_HEIGHT,
                forall|k: int| 0 <= k < keep ==> self.bytes@[k] == b0[k + line],
                forall|k: int| keep <= k < j ==> self.bytes@[k] == 0u8,
            decreases total - j,
        {
            self.bytes.set(j, 0u8);
            j = j + 1;
        }
        assert(self.bytes@ =~= scroll_spec(b0, old(self).geometry()));
    }
}

} // verus!
