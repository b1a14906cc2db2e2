use crate::font::{
    art_at, art_part, code_point, glyph_at, glyph_part, lemma_text_grows, lemma_text_tail_is_right,
    row_bit, text_at, Font, GLYPH_HEIGHT, GLYPH_WIDTH,
};
use crate::framebuffer::{FrameBuffer, PixelFormat};
use crate::paint::{
    either, lemma_offset_in_bounds, lemma_paint_invisible, lemma_paint_pixel, lemma_paint_same_visible,
    lemma_paint_twice, paint, pixel_at, rect_at, Region,
};
use vstd::prelude::*;
use vstd::std_specs::iter::IteratorSpec;

verus! {

/// The part of a rectangle drawn so far when it is filled column by column:
/// the `cols` leftmost columns, and the `rows` topmost pixels of the next one.
pub open spec fn rect_part(x: int, y: int, h: int, cols: int, rows: int) -> Region {
    either(rect_at(x, y, cols, h), rect_at(x + cols, y, 1, rows))
}

/// A surface that can be drawn on: a window of bytes holding four bytes per
/// pixel, row after row. Every drawing operation goes through
/// [`Renderable::write_pixel`], which alone knows the channel order and which
/// ignores pixels that are not visible.
pub trait Renderable {
    /// The descriptor of the framebuffer the surface stands for. No drawing
    /// operation changes it.
    spec fn descriptor(&self) -> FrameBuffer;

    /// The bytes of the surface.
    spec fn content(&self) -> Seq<u8>;

    /// The bytes of the surface.
    fn bytes(&self) -> (window: &[u8])
        ensures
            window@ == self.content(),
    ;

    /// The bytes of the surface, to be written to. What is written becomes the
    /// content; the descriptor stays.
    fn bytes_mut(&mut self) -> (window: &mut [u8])
        ensures
            window@ == old(self).content(),
            final(self).content() == final(window)@,
            final(self).descriptor() == old(self).descriptor(),
    ;

    /// Visible pixels per row.
    fn width(&self) -> (width: u32)
        ensures
            width == self.descriptor().layout().width,
    ;

    /// Number of rows.
    fn height(&self) -> (height: u32)
        ensures
            height == self.descriptor().layout().height,
    ;

    /// Pixels per row of memory.
    fn stride(&self) -> (stride: usize)
        ensures
            stride == self.descriptor().layout().stride,
    ;

    /// Channel order of every pixel.
    fn format(&self) -> (format: PixelFormat)
        ensures
            format == self.descriptor().layout().format,
    ;

    /// Index of the first byte of the visible pixel `(x, y)`:
    /// `(stride * y + x) * 4`.
    fn to_offset(&self, x: u32, y: u32) -> (offset: usize)
        requires
            self.descriptor().layout().fits(self.content()),
            self.descriptor().layout().shows(x as int, y as int),
        ensures
            offset == self.descriptor().layout().offset(x as int, y as int),
            offset + 4 <= self.content().len(),
    {
        proof {
            lemma_offset_in_bounds(self.descriptor().layout(), x as int, y as int);
        }
        // The window is no longer than a `usize` can count, which bounds the
        // offset.
        let window_len: usize = self.bytes().len();
        let stride: usize = self.stride();
        assert(0 <= stride * y <= window_len) by (nonlinear_arith)
            requires
                0 <= stride,
                0 <= y,
                0 <= x,
                (stride * y + x) * 4 + 4 <= window_len,
        ;
        (stride * (y as usize) + (x as usize)) * 4
    }

    /// Sets the pixel `(x, y)` to `color`, given as red, green, blue. The three
    /// bytes are written in the surface's channel order. A pixel that is not
    /// visible is ignored: nothing is written.
    fn write_pixel(&mut self, x: u32, y: u32, color: [u8; 3])
        requires
            old(self).descriptor().layout().fits(old(self).content()),
        ensures
            final(self).descriptor() == old(self).descriptor(),
            final(self).descriptor().layout().fits(final(self).content()),
            final(self).content() == paint(
                old(self).content(),
                old(self).descriptor().layout(),
                pixel_at(x as int, y as int),
                color,
            ),
            !old(self).descriptor().layout().shows(x as int, y as int) ==> final(self).content() == old(
                self,
            ).content(),
    {
        let ghost before = self.content();
        let ghost descriptor = self.descriptor();
        let ghost layout = self.descriptor().layout();
        if x < self.width() && y < self.height() {
            let format = self.format();
            let b = self.to_offset(x, y);
            proof {
                lemma_paint_pixel(before, layout, x as int, y as int, color);
            }
            let fb = self.bytes_mut();
            if format == PixelFormat::Rgb {
                fb[b] = color[0];
                fb[b + 1] = color[1];
                fb[b + 2] = color[2];
            } else {
                fb[b] = color[2];
                fb[b + 1] = color[1];
                fb[b + 2] = color[0];
            }
        } else {
            proof {
                lemma_paint_invisible(before, layout, pixel_at(x as int, y as int), color);
            }
        }
    }

    /// Fills the rectangle of `w` by `h` pixels whose top left corner is
    /// `(x, y)`. The part of it that is not visible is ignored.
    fn write_rect(&mut self, x: u32, y: u32, w: u32, h: u32, color: [u8; 3])
        requires
            old(self).descriptor().layout().fits(old(self).content()),
        ensures
            final(self).descriptor() == old(self).descriptor(),
            final(self).descriptor().layout().fits(final(self).content()),
            final(self).content() == paint(
                old(self).content(),
                old(self).descriptor().layout(),
                rect_at(x as int, y as int, w as int, h as int),
                color,
            ),
    {
        let ghost before = self.content();
        let ghost descriptor = self.descriptor();
        let ghost layout = self.descriptor().layout();
        let width: u64 = self.width() as u64;
        let height: u64 = self.height() as u64;
        let x_end: u64 = if x as u64 + w as u64 <= width {
            x as u64 + w as u64
        } else {
            width
        };
        let y_end: u64 = if y as u64 + h as u64 <= height {
            y as u64 + h as u64
        } else {
            height
        };
        let mut xp: u64 = x as u64;
        proof {
            lemma_paint_invisible(before, layout, rect_at(x as int, y as int, 0, h as int), color);
        }
        while xp < x_end
            invariant
                x <= xp,
                xp <= x_end || xp == x,
                x_end <= width == layout.width,
                y_end <= height == layout.height,
                x_end == if x + w <= width {
                    (x + w) as u64
                } else {
                    width
                },
                y_end == if y + h <= height {
                    (y + h) as u64
                } else {
                    height
                },
                self.descriptor() == descriptor,
                self.descriptor().layout() == layout,
                layout.fits(self.content()),
                self.content() == paint(
                    before,
                    layout,
                    rect_at(x as int, y as int, xp - x, h as int),
                    color,
                ),
            decreases x_end - xp,
        {
            let mut yp: u64 = y as u64;
            proof {
                lemma_paint_same_visible(
                    before,
                    layout,
                    rect_at(x as int, y as int, xp - x, h as int),
                    rect_part(x as int, y as int, h as int, xp - x, 0),
                    color,
                );
            }
            while yp < y_end
                invariant
                    x <= xp < x_end,
                    y <= yp,
                    yp <= y_end || yp == y,
                    x_end <= width == layout.width,
                    y_end <= height == layout.height,
                    self.descriptor() == descriptor,
                self.descriptor().layout() == layout,
                    layout.fits(self.content()),
                    self.content() == paint(
                        before,
                        layout,
                        rect_part(x as int, y as int, h as int, xp - x, yp - y),
                        color,
                    ),
                decreases y_end - yp,
            {
                let ghost drawn = rect_part(x as int, y as int, h as int, xp - x, yp - y);
                self.write_pixel(xp as u32, yp as u32, color);
                proof {
                    lemma_paint_twice(before, layout, drawn, pixel_at(xp as int, yp as int), color);
                    lemma_paint_same_visible(
                        before,
                        layout,
                        either(drawn, pixel_at(xp as int, yp as int)),
                        rect_part(x as int, y as int, h as int, xp - x, yp - y + 1),
                        color,
                    );
                }
                yp += 1;
            }
            proof {
                lemma_paint_same_visible(
                    before,
                    layout,
                    rect_part(x as int, y as int, h as int, xp - x, yp - y),
                    rect_at(x as int, y as int, xp - x + 1, h as int),
                    color,
                );
            }
            xp += 1;
        }
        proof {
            lemma_paint_same_visible(
                before,
                layout,
                rect_at(x as int, y as int, xp - x, h as int),
                rect_at(x as int, y as int, w as int, h as int),
                color,
            );
        }
    }

    /// Fills every visible pixel with `color`.
    fn clear(&mut self, color: [u8; 3])
        requires
            old(self).descriptor().layout().fits(old(self).content()),
        ensures
            final(self).descriptor() == old(self).descriptor(),
            final(self).descriptor().layout().fits(final(self).content()),
            final(self).content() == paint(
                old(self).content(),
                old(self).descriptor().layout(),
                rect_at(0, 0, old(self).descriptor().layout().width as int, old(self).descriptor().layout().height as int),
                color,
            ),
    {
        let width = self.width();
        let height = self.height();
        self.write_rect(0, 0, width, height, color);
    }

    /// Draws the glyph that `font` has for `c` with its top left corner at
    /// `(x, y)`: each set pixel of the glyph is given `color`, the others are
    /// left alone. A character the font has no glyph for draws nothing.
    fn write_char(&mut self, font: &Font, x: u32, y: u32, c: char, color: [u8; 3])
        requires
            old(self).descriptor().layout().fits(old(self).content()),
        ensures
            final(self).descriptor() == old(self).descriptor(),
            final(self).descriptor().layout().fits(final(self).content()),
            final(self).content() == paint(
                old(self).content(),
                old(self).descriptor().layout(),
                glyph_at(font@, x as int, y as int, c as int),
                color,
            ),
    {
        let ghost before = self.content();
        let ghost descriptor = self.descriptor();
        let ghost layout = self.descriptor().layout();
        let ghost table = font@;
        let code: u32 = code_point(c);
        proof {
            lemma_paint_invisible(
                before,
                layout,
                glyph_part(table, x as int, y as int, code as int, 0, 0),
                color,
            );
        }
        let mut xp: u32 = 0;
        while xp < GLYPH_WIDTH
            invariant
                xp <= 8,
                code == c as int,
                table == font@,
                self.descriptor() == descriptor,
                self.descriptor().layout() == layout,
                layout.fits(self.content()),
                self.content() == paint(
                    before,
                    layout,
                    glyph_part(table, x as int, y as int, code as int, xp as int, 0),
                    color,
                ),
            decreases 8 - xp,
        {
            let mut yp: u32 = 0;
            while yp < GLYPH_HEIGHT
                invariant
                    xp < 8,
                    yp <= 16,
                    code == c as int,
                    table == font@,
                    self.descriptor() == descriptor,
                self.descriptor().layout() == layout,
                    layout.fits(self.content()),
                    self.content() == paint(
                        before,
                        layout,
                        glyph_part(table, x as int, y as int, code as int, xp as int, yp as int),
                        color,
                    ),
                decreases 16 - yp,
            {
                let ghost drawn = glyph_part(table, x as int, y as int, code as int, xp as int, yp as int);
                let ghost next = glyph_part(
                    table,
                    x as int,
                    y as int,
                    code as int,
                    xp as int,
                    yp as int + 1,
                );
                let lit = match font.glyph_row(code, yp) {
                    Some(bits) => row_bit(bits, xp),
                    None => false,
                };
                if lit && xp <= u32::MAX - x && yp <= u32::MAX - y {
                    self.write_pixel(x + xp, y + yp, color);
                    proof {
                        lemma_paint_twice(before, layout, drawn, pixel_at(x + xp, y + yp), color);
                        lemma_paint_same_visible(
                            before,
                            layout,
                            either(drawn, pixel_at(x + xp, y + yp)),
                            next,
                            color,
                        );
                    }
                } else {
                    proof {
                        lemma_paint_same_visible(before, layout, drawn, next, color);
                    }
                }
                yp += 1;
            }
            proof {
                lemma_paint_same_visible(
                    before,
                    layout,
                    glyph_part(table, x as int, y as int, code as int, xp as int, 16),
                    glyph_part(table, x as int, y as int, code as int, xp as int + 1, 0),
                    color,
                );
            }
            xp += 1;
        }
        proof {
            lemma_paint_same_visible(
                before,
                layout,
                glyph_part(table, x as int, y as int, code as int, 8, 0),
                glyph_at(table, x as int, y as int, c as int),
                color,
            );
        }
    }

    /// Draws `s` as one line of glyphs starting at `(x, y)`: each character
    /// stands eight pixels right of the one before it. The line does not wrap.
    fn write_string(&mut self, font: &Font, x: u32, y: u32, s: &str, color: [u8; 3])
        requires
            old(self).descriptor().layout().fits(old(self).content()),
        ensures
            final(self).descriptor() == old(self).descriptor(),
            final(self).descriptor().layout().fits(final(self).content()),
            final(self).content() == paint(
                old(self).content(),
                old(self).descriptor().layout(),
                text_at(font@, x as int, y as int, s@),
                color,
            ),
    {
        broadcast use vstd::string::group_string_axioms;

        let ghost before = self.content();
        let ghost descriptor = self.descriptor();
        let ghost layout = self.descriptor().layout();
        let ghost table = font@;
        let mut chars = s.chars();
        let mut done = false;
        let mut at: u64 = x as u64;
        let ghost mut i: int = 0;
        proof {
            lemma_paint_invisible(before, layout, text_at(table, x as int, y as int, s@.take(0)), color);
        }
        while !done && at <= u32::MAX as u64
            invariant
                0 <= i <= s@.len(),
                chars.remaining() == s@.skip(i),
                chars.obeys_prophetic_iter_laws(),
                done ==> i == s@.len(),
                at == x + 8 * i,
                at <= u32::MAX + 8,
                table == font@,
                self.descriptor() == descriptor,
                self.descriptor().layout() == layout,
                layout.fits(self.content()),
                self.content() == paint(
                    before,
                    layout,
                    text_at(table, x as int, y as int, s@.take(i)),
                    color,
                ),
            decreases s@.len() - i + if done { 0int } else { 1int },
        {
            match chars.next() {
                Some(c) => {
                    self.write_char(font, at as u32, y, c, color);
                    proof {
                        let shorter = text_at(table, x as int, y as int, s@.take(i));
                        let glyph = glyph_at(table, at as int, y as int, c as int);
                        assert(s@.skip(i).drop_first() =~= s@.skip(i + 1));
                        lemma_paint_twice(before, layout, shorter, glyph, color);
                        lemma_text_grows(table, x as int, y as int, s@, i);
                        lemma_paint_same_visible(
                            before,
                            layout,
                            either(shorter, glyph),
                            text_at(table, x as int, y as int, s@.take(i + 1)),
                            color,
                        );
                        i = i + 1;
                    }
                    at += GLYPH_WIDTH as u64;
                },
                None => {
                    done = true;
                },
            }
        }
        proof {
            lemma_text_tail_is_right(table, x as int, y as int, s@, i);
            if done {
                assert(s@.take(i) =~= s@);
            }
            lemma_paint_same_visible(
                before,
                layout,
                text_at(table, x as int, y as int, s@.take(i)),
                text_at(table, x as int, y as int, s@),
                color,
            );
        }
    }

    /// Draws a textual bitmap with its top left corner at `(x, y)`. The
    /// characters of `art` are its cells, row after row, `art_width` to a row
    /// and `art_height` rows; a cell is set where its character is `@`, and
    /// each set cell is given `color`. Cells that `art` is too short for are
    /// not set.
    fn write_bitmap_art(
        &mut self,
        x: u32,
        y: u32,
        art: &str,
        art_width: u32,
        art_height: u32,
        color: [u8; 3],
    )
        requires
            old(self).descriptor().layout().fits(old(self).content()),
        ensures
            final(self).descriptor() == old(self).descriptor(),
            final(self).descriptor().layout().fits(final(self).content()),
            final(self).content() == paint(
                old(self).content(),
                old(self).descriptor().layout(),
                art_at(art@, art_width as int, art_height as int, x as int, y as int),
                color,
            ),
    {
        broadcast use vstd::string::group_string_axioms;

        let ghost before = self.content();
        let ghost descriptor = self.descriptor();
        let ghost layout = self.descriptor().layout();
        let ghost w = art_width as int;
        let ghost h = art_height as int;
        let mut cells = art.chars();
        let mut done = false;
        let mut row: u32 = 0;
        let mut col: u32 = 0;
        let ghost mut i: int = 0;
        proof {
            lemma_paint_invisible(before, layout, art_part(art@, w, h, x as int, y as int, 0, 0), color);
        }
        while !done && row < art_height && art_width > 0
            invariant
                0 <= i <= art@.len(),
                cells.remaining() == art@.skip(i),
                cells.obeys_prophetic_iter_laws(),
                done ==> i == art@.len(),
                w == art_width,
                h == art_height,
                row <= art_height,
                col < art_width || art_width == 0,
                i == row * w + col,
                self.descriptor() == descriptor,
                self.descriptor().layout() == layout,
                layout.fits(self.content()),
                self.content() == paint(
                    before,
                    layout,
                    art_part(art@, w, h, x as int, y as int, row as int, col as int),
                    color,
                ),
            decreases art@.len() - i + if done { 0int } else { 1int },
        {
            match cells.next() {
                Some(c) => {
                    let ghost drawn = art_part(art@, w, h, x as int, y as int, row as int, col as int);
                    let ghost next = art_part(art@, w, h, x as int, y as int, row as int, col as int + 1);
                    proof {
                        assert(art@.skip(i).drop_first() =~= art@.skip(i + 1));
                        assert(art@[i] == c);
                    }
                    if c == '@' && col <= u32::MAX - x && row <= u32::MAX - y {
                        self.write_pixel(x + col, y + row, color);
                        proof {
                            lemma_paint_twice(before, layout, drawn, pixel_at(x + col, y + row), color);
                            lemma_paint_same_visible(
                                before,
                                layout,
                                either(drawn, pixel_at(x + col, y + row)),
                                next,
                                color,
                            );
                        }
                    } else {
                        proof {
                            lemma_paint_same_visible(before, layout, drawn, next, color);
                        }
                    }
                    proof {
                        i = i + 1;
                    }
                    if col + 1 == art_width {
                        proof {
                            assert((row + 1) * w == row * w + w) by (nonlinear_arith);
                            lemma_paint_same_visible(
                                before,
                                layout,
                                next,
                                art_part(art@, w, h, x as int, y as int, row as int + 1, 0),
                                color,
                            );
                        }
                        col = 0;
                        row += 1;
                    } else {
                        col += 1;
                    }
                },
                None => {
                    done = true;
                },
            }
        }
        proof {
            let drawn = art_part(art@, w, h, x as int, y as int, row as int, col as int);
            let whole = art_at(art@, w, h, x as int, y as int);
            assert forall|px: int, py: int| #[trigger] drawn(px, py) <==> #[trigger] whole(px, py) by {
                let c = px - x;
                let r = py - y;
                if whole(px, py) && r > row {
                    assert(r * w >= (row + 1) * w) by (nonlinear_arith)
                        requires
                            r >= row + 1,
                            w >= 0,
                    ;
                    assert((row + 1) * w == row * w + w) by (nonlinear_arith);
                }
            }
            lemma_paint_same_visible(before, layout, drawn, whole, color);
        }
    }
}

/// The screen shown to the user: the descriptor of a linear framebuffer
/// together with the one window onto its memory.
pub struct Screen<'a> {
    target: FrameBuffer,
    window: &'a mut [u8],
}

impl<'a> Screen<'a> {
    /// Makes the screen of a framebuffer. `window` is the framebuffer's
    /// memory: `stride * height * 4` bytes, of which each row shows its first
    /// `width` pixels.
    pub fn new(fb: FrameBuffer, window: &'a mut [u8]) -> (screen: Self)
        requires
            fb.layout().fits(old(window)@),
        ensures
            screen.descriptor() == fb,
            screen.content() == old(window)@,
            screen.descriptor().layout().fits(screen.content()),
    {
        Screen { target: fb, window }
    }

    /// Makes the screen of a framebuffer if `window` is its memory: `None`
    /// where the stride is less than the width or the window is not
    /// `stride * height * 4` bytes long.
    pub fn try_new(fb: FrameBuffer, window: &'a mut [u8]) -> (screen: Option<Self>)
        ensures
            screen is Some <==> fb.layout().fits(old(window)@),
            screen matches Some(s) ==> {
                &&& s.descriptor() == fb
                &&& s.content() == old(window)@
            },
            screen is None ==> final(window)@ == old(window)@,
    {
        let window_len: usize = window.len();
        let fitting = match fb.size_in_bytes() {
            Some(len) => fb.resolution.0 <= fb.stride && window_len == len,
            None => false,
        };
        if fitting {
            Some(Screen::new(fb, window))
        } else {
            None
        }
    }

    /// The descriptor the screen was made from. Drawing does not change it.
    pub fn frame_buffer(&self) -> (fb: FrameBuffer)
        ensures
            fb == self.descriptor(),
            fb.layout() == self.descriptor().layout(),
    {
        self.target
    }
}

impl<'a> Renderable for Screen<'a> {
    closed spec fn descriptor(&self) -> FrameBuffer {
        self.target
    }

    closed spec fn content(&self) -> Seq<u8> {
        self.window@
    }

    fn bytes(&self) -> (window: &[u8]) {
        &*self.window
    }

    fn bytes_mut(&mut self) -> (window: &mut [u8]) {
        &mut *self.window
    }

    fn width(&self) -> (width: u32) {
        self.target.resolution.0
    }

    fn height(&self) -> (height: u32) {
        self.target.resolution.1
    }

    fn stride(&self) -> (stride: usize) {
        self.target.stride as usize
    }

    fn format(&self) -> (format: PixelFormat) {
        self.target.format
    }
}

} // verus!
