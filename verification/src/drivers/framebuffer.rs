//! In-memory model of the linear framebuffer and the text console drawn
//! on it. Obtaining the real buffer from firmware is hardware work done
//! outside this crate; here the pixel store is owned plain memory, and
//! every drawing operation is bounds-checked against the geometry.

use vstd::prelude::*;

verus! {

/// Glyph cell width in pixels.
pub const FONT_WIDTH: usize = 8;

/// Glyph cell height in pixels (glyph rows are doubled vertically).
pub const FONT_HEIGHT: usize = 16;

/// Placeholder glyph: a framed repetition of the code point's bit
/// pattern. A real font table can replace this without touching the
/// renderer.
pub fn glyph(c: u8) -> (r: [u8; 8])
    ensures
        r@ =~= seq![0u8, 0x7Eu8, c, c, c, c, 0x7Eu8, 0u8],
{
    [0u8, 0x7Eu8, c, c, c, c, 0x7Eu8, 0u8]
}

/// Why framebuffer setup failed.
#[derive(Clone, Copy, Debug, Eq, PartialEq, Structural)]
pub enum InitError {
    MailboxCallFailed,
    NoFramebuffer,
    NoPitch,
}

/// A readable name for a framebuffer setup failure.
pub fn fb_err_str(err: InitError) -> &'static str {
    match err {
        InitError::MailboxCallFailed => "mailbox call failed",
        InitError::NoFramebuffer => "no framebuffer address",
        InitError::NoPitch => "no pitch returned",
    }
}

/// The pixel store: `width * height` 32-bit pixels, row-major, with the
/// row stride `pitch` fixed at four bytes per pixel.
pub struct Framebuffer {
    pub buf: Vec<u32>,
    pub width: u32,
    pub height: u32,
    pub pitch: u32,
}

impl Framebuffer {
    pub open spec fn wf(&self) -> bool {
        &&& 1 <= self.width <= 8192
        &&& 1 <= self.height <= 8192
        &&& self.pitch == self.width * 4
        &&& self.buf@.len() == self.width * self.height
    }

    /// Allocates a framebuffer of the given mode, all pixels dark;
    /// refuses degenerate or oversized modes.
    pub fn init(width: u32, height: u32) -> (r: Option<Framebuffer>)
        ensures
            match r {
                Some(fb) => {
                    &&& fb.wf()
                    &&& fb.width == width
                    &&& fb.height == height
                    &&& 1 <= width <= 8192 && 1 <= height <= 8192
                },
                None => width == 0 || height == 0 || width > 8192 || height > 8192,
            },
    {
        if width == 0 || height == 0 || width > 8192 || height > 8192 {
            return None;
        }
        proof {
            assert(width as int * height as int <= 0x4000000) by (nonlinear_arith)
                requires
                    width <= 8192,
                    height <= 8192,
            ;
        }
        let pixels: usize = (width as usize) * (height as usize);
        let buf: Vec<u32> = vec![0u32; pixels];
        Some(Framebuffer { buf, width, height, pitch: width * 4 })
    }

    /// Writes one pixel.
    pub fn put_pixel(&mut self, x: u32, y: u32, color: u32)
        requires
            old(self).wf(),
            x < old(self).width,
            y < old(self).height,
        ensures
            final(self).wf(),
            final(self).width == old(self).width,
            final(self).height == old(self).height,
            final(self).buf@ == old(self).buf@.update(
                y as int * old(self).width as int + x as int,
                color,
            ),
    {
        proof {
            lemma_pixel_index(x as int, y as int, self.width as int, self.height as int);
        }
        let idx: usize = (y as usize) * (self.width as usize) + (x as usize);
        self.buf[idx] = color;
    }

    /// Fills the whole buffer with one color.
    pub fn clear(&mut self, color: u32)
        requires
            old(self).wf(),
        ensures
            final(self).wf(),
            final(self).width == old(self).width,
            final(self).height == old(self).height,
            forall|i: int| 0 <= i < final(self).buf@.len() ==> final(self).buf@[i] == color,
    {
        let mut y: u32 = 0;
        while y < self.height
            invariant
                self.wf(),
                self.width == old(self).width,
                self.height == old(self).height,
                y <= self.height,
                forall|i: int| 0 <= i < y as int * self.width as int ==> self.buf@[i] == color,
            decreases self.height - y,
        {
            let mut x: u32 = 0;
            while x < self.width
                invariant
                    self.wf(),
                    self.width == old(self).width,
                    self.height == old(self).height,
                    y < self.height,
                    x <= self.width,
                    forall|i: int|
                        0 <= i < y as int * self.width as int + x as int ==> self.buf@[i] == color,
                decreases self.width - x,
            {
                let ghost pre = self.buf@;
                self.put_pixel(x, y, color);
                proof {
                    lemma_pixel_index(x as int, y as int, self.width as int, self.height as int);
                    assert forall|i: int|
                        0 <= i < y as int * self.width as int + x as int + 1 implies self.buf@[i]
                        == color by {
                        if i < y as int * self.width as int + x as int {
                            assert(self.buf@[i] == pre[i]);
                        }
                    }
                }
                x += 1;
            }
            proof {
                assert((y + 1) as int * self.width as int == y as int * self.width as int
                    + self.width as int) by (nonlinear_arith);
            }
            y += 1;
        }
        proof {
            assert(self.height as int * self.width as int == self.buf@.len()) by (nonlinear_arith)
                requires
                    self.buf@.len() == self.width as int * self.height as int,
            ;
        }
    }

    /// Scrolls the image up by `rows` pixel rows, filling the exposed
    /// bottom rows with the background color.
    pub fn scroll_rows(&mut self, rows: usize, bg: u32)
        requires
            old(self).wf(),
        ensures
            final(self).wf(),
            final(self).width == old(self).width,
            final(self).height == old(self).height,
    {
        if rows == 0 {
            return ;
        }
        let height = self.height as usize;
        if rows >= height {
            self.clear(bg);
            return ;
        }
        let width = self.width as usize;
        let mut y: usize = 0;
        while y < height - rows
            invariant
                self.wf(),
                self.width == old(self).width,
                self.height == old(self).height,
                0 < rows < height,
                height == self.height,
                width == self.width,
                y <= height - rows,
            decreases height - rows - y,
        {
            let mut x: usize = 0;
            while x < width
                invariant
                    self.wf(),
                    self.width == old(self).width,
                    self.height == old(self).height,
                    0 < rows < height,
                    height == self.height,
                    width == self.width,
                    y < height - rows,
                    x <= width,
                decreases width - x,
            {
                proof {
                    lemma_pixel_index(
                        x as int,
                        (y + rows) as int,
                        self.width as int,
                        self.height as int,
                    );
                }
                let src: usize = (y + rows) * width + x;
                let color = self.buf[src];
                self.put_pixel(x as u32, y as u32, color);
                x += 1;
            }
            y += 1;
        }
        let mut y: usize = height - rows;
        while y < height
            invariant
                self.wf(),
                self.width == old(self).width,
                self.height == old(self).height,
                height == self.height,
                width == self.width,
                y <= height,
            decreases height - y,
        {
            let mut x: usize = 0;
            while x < width
                invariant
                    self.wf(),
                    self.width == old(self).width,
                    self.height == old(self).height,
                    height == self.height,
                    width == self.width,
                    y < height,
                    x <= width,
                decreases width - x,
            {
                self.put_pixel(x as u32, y as u32, bg);
                x += 1;
            }
            y += 1;
        }
    }

    /// Draws one character cell at pixel position `(x, y)`, doubling
    /// each glyph row; pixels outside the buffer are skipped.
    pub fn draw_char(&mut self, x: usize, y: usize, c: u8, fg: u32, bg: u32)
        requires
            old(self).wf(),
            x <= 0x1_0000,
            y <= 0x1_0000,
        ensures
            final(self).wf(),
            final(self).width == old(self).width,
            final(self).height == old(self).height,
    {
        let rows = glyph(c);
        let mut row: usize = 0;
        while row < 8
            invariant
                self.wf(),
                self.width == old(self).width,
                self.height == old(self).height,
                row <= 8,
                x <= 0x1_0000,
                y <= 0x1_0000,
            decreases 8 - row,
        {
            let bits = rows[row];
            let y0 = y + row * 2;
            let mut dy: usize = 0;
            while dy < 2
                invariant
                    self.wf(),
                    self.width == old(self).width,
                    self.height == old(self).height,
                    dy <= 2,
                    x <= 0x1_0000,
                    y0 <= 0x1_0010,
                decreases 2 - dy,
            {
                let py = y0 + dy;
                if py < self.height as usize {
                    let mut col: usize = 0;
                    while col < 8
                        invariant
                            self.wf(),
                            self.width == old(self).width,
                            self.height == old(self).height,
                            col <= 8,
                            x <= 0x1_0000,
                            py < self.height,
                        decreases 8 - col,
                    {
                        let px = x + col;
                        if px < self.width as usize {
                            let on = (bits >> ((7 - col) as u8)) & 1 != 0;
                            self.put_pixel(
                                px as u32,
                                py as u32,
                                if on {
                                    fg
                                } else {
                                    bg
                                },
                            );
                        }
                        col += 1;
                    }
                }
                dy += 1;
            }
            row += 1;
        }
    }

    /// Renders a byte string starting at pixel position `(x, y)`,
    /// wrapping to the left margin on a newline byte.
    pub fn write_str(&mut self, x: usize, y: usize, s: &[u8], fg: u32, bg: u32)
        requires
            old(self).wf(),
            x <= 0x1_0000,
            y <= 0x1_0000,
            s@.len() <= 4096,
        ensures
            final(self).wf(),
            final(self).width == old(self).width,
            final(self).height == old(self).height,
    {
        let mut cx = x;
        let mut cy = y;
        let mut i: usize = 0;
        while i < s.len()
            invariant
                self.wf(),
                self.width == old(self).width,
                self.height == old(self).height,
                i <= s@.len(),
                s@.len() <= 4096,
                cx <= 0x1_0000 + 8 * i,
                cy <= 0x1_0000 + 16 * i,
            decreases s@.len() - i,
        {
            let b = s[i];
            if b == 10 {
                cy = cy + FONT_HEIGHT;
                cx = 0;
            } else {
                if cx <= 0x1_0000 && cy <= 0x1_0000 {
                    self.draw_char(cx, cy, b, fg, bg);
                }
                cx = cx + FONT_WIDTH;
            }
            i += 1;
        }
    }
}

proof fn lemma_pixel_index(x: int, y: int, w: int, h: int)
    requires
        0 <= x < w,
        0 <= y < h,
        w <= 8192,
        h <= 8192,
    ensures
        0 <= y * w + x < w * h,
        y * w + x <= 0x4000000,
{
    assert(y * w + x < w * h && y * w >= 0) by (nonlinear_arith)
        requires
            0 <= x < w,
            0 <= y < h,
    ;
    assert(y * w + x <= 0x4000000) by (nonlinear_arith)
        requires
            0 <= x < w,
            0 <= y < h,
            w <= 8192,
            h <= 8192,
    ;
}

/// The text console drawn on the framebuffer.
pub struct Console {
    pub fb: Framebuffer,
    pub col: usize,
    pub row: usize,
    pub cols: usize,
    pub rows: usize,
    pub fg: u32,
    pub bg: u32,
}

impl Console {
    pub open spec fn wf(&self) -> bool {
        &&& self.fb.wf()
        &&& 1 <= self.cols <= 1024
        &&& 1 <= self.rows <= 512
        &&& self.col < self.cols
        &&& self.row < self.rows
    }

    /// A console over the whole framebuffer, cursor at the top left.
    pub fn new(fb: Framebuffer, fg: u32, bg: u32) -> (r: Console)
        requires
            fb.wf(),
        ensures
            r.wf(),
            r.col == 0 && r.row == 0,
            r.fg == fg && r.bg == bg,
    {
        let cols = (fb.width as usize) / FONT_WIDTH;
        let rows = (fb.height as usize) / FONT_HEIGHT;
        let cols = if cols < 1 {
            1
        } else {
            cols
        };
        let rows = if rows < 1 {
            1
        } else {
            rows
        };
        Console { fb, col: 0, row: 0, cols, rows, fg, bg }
    }

    /// Moves the cursor to the start of the next line, scrolling the
    /// image when the bottom is reached.
    pub fn newline(&mut self)
        requires
            old(self).wf(),
        ensures
            final(self).wf(),
            final(self).col == 0,
    {
        self.col = 0;
        if self.row + 1 >= self.rows {
            self.fb.scroll_rows(FONT_HEIGHT, self.bg);
            self.row = self.rows - 1;
        } else {
            self.row = self.row + 1;
        }
    }

    /// Draws one character at the cursor and advances it, wrapping and
    /// scrolling as needed; a newline byte only moves the cursor.
    pub fn put_char(&mut self, c: u8)
        requires
            old(self).wf(),
        ensures
            final(self).wf(),
    {
        if c == 10 {
            self.newline();
            return ;
        }
        let x = self.col * FONT_WIDTH;
        let y = self.row * FONT_HEIGHT;
        self.fb.draw_char(x, y, c, self.fg, self.bg);
        if self.col + 1 >= self.cols {
            self.newline();
        } else {
            self.col = self.col + 1;
        }
    }

    /// Writes one byte to the console.
    pub fn write_byte(&mut self, b: u8)
        requires
            old(self).wf(),
        ensures
            final(self).wf(),
    {
        self.put_char(b);
    }
}

/// The optional global console: absent until a framebuffer mode has
/// been set up.
pub struct ConsoleState {
    pub console: Option<Console>,
}

impl ConsoleState {
    pub open spec fn wf(&self) -> bool {
        match self.console {
            Some(c) => c.wf(),
            None => true,
        }
    }

    /// No console yet.
    pub fn new() -> (r: ConsoleState)
        ensures
            r.wf(),
            r.console is None,
    {
        ConsoleState { console: None }
    }

    /// Sets up a console over a fresh framebuffer of the given mode and
    /// returns the mode that took effect.
    pub fn init_console_with_mode(&mut self, width: u32, height: u32, fg: u32, bg: u32) -> (r:
        Result<(u32, u32), InitError>)
        requires
            old(self).wf(),
        ensures
            final(self).wf(),
            match r {
                Ok(dims) => final(self).console is Some && dims == (width, height),
                Err(e) => *final(self) == *old(self) && e == InitError::NoFramebuffer,
            },
    {
        let fb = Framebuffer::init(width, height);
        match fb {
            None => Err(InitError::NoFramebuffer),
            Some(mut fb) => {
                fb.clear(bg);
                let out = (fb.width, fb.height);
                self.console = Some(Console::new(fb, fg, bg));
                Ok(out)
            },
        }
    }

    /// Like `init_console_with_mode`, reporting only success.
    pub fn init_console(&mut self, width: u32, height: u32, fg: u32, bg: u32) -> (r: bool)
        requires
            old(self).wf(),
        ensures
            final(self).wf(),
            r ==> final(self).console is Some,
    {
        self.init_console_with_mode(width, height, fg, bg).is_ok()
    }

    /// Writes bytes to the console if one exists; reports whether it
    /// does.
    pub fn write_bytes(&mut self, buf: &[u8]) -> (r: bool)
        requires
            old(self).wf(),
        ensures
            final(self).wf(),
            r == old(self).console is Some,
            final(self).console is Some <==> old(self).console is Some,
    {
        match &mut self.console {
            None => false,
            Some(console) => {
                let mut i: usize = 0;
                while i < buf.len()
                    invariant
                        console.wf(),
                        i <= buf@.len(),
                    decreases buf@.len() - i,
                {
                    console.write_byte(buf[i]);
                    i += 1;
                }
                true
            },
        }
    }
}

} // verus!
