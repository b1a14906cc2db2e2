//! The mathematical model of drawing: what the bytes of a surface are after a
//! set of pixels has been given one color.

use crate::framebuffer::{FrameBuffer, PixelFormat};
use vstd::arithmetic::div_mod::{lemma_fundamental_div_mod, lemma_fundamental_div_mod_converse};
use vstd::prelude::*;

verus! {

/// A set of pixel coordinates, given by its membership test.
pub type Region = spec_fn(int, int) -> bool;

/// How the pixels of a surface lie in its bytes.
pub struct Layout {
    /// Pixels per row of memory.
    pub stride: u32,
    /// Visible pixels per row.
    pub width: u32,
    /// Number of rows.
    pub height: u32,
    /// Channel order of every pixel.
    pub format: PixelFormat,
}

impl Layout {
    /// Number of bytes of a surface with this layout.
    pub open spec fn byte_len(self) -> int {
        self.stride * self.height * 4
    }

    /// The layout is sound and `content` is a surface of this layout: rows are
    /// at least as long as they are wide, and the bytes are as many as the
    /// rows take.
    pub open spec fn fits(self, content: Seq<u8>) -> bool {
        self.width <= self.stride && content.len() == self.byte_len()
    }

    /// Whether `(x, y)` is a visible pixel.
    pub open spec fn shows(self, x: int, y: int) -> bool {
        0 <= x < self.width && 0 <= y < self.height
    }

    /// Index of the first byte of pixel `(x, y)`.
    pub open spec fn offset(self, x: int, y: int) -> int {
        (self.stride * y + x) * 4
    }

    /// Column of the pixel that byte `i` belongs to.
    pub open spec fn column_of(self, i: int) -> int {
        (i / 4) % (self.stride as int)
    }

    /// Row of the pixel that byte `i` belongs to.
    pub open spec fn row_of(self, i: int) -> int {
        (i / 4) / (self.stride as int)
    }
}

impl FrameBuffer {
    /// The layout of the framebuffer's pixels.
    pub open spec fn layout(self) -> Layout {
        Layout {
            stride: self.stride,
            width: self.resolution.0,
            height: self.resolution.1,
            format: self.format,
        }
    }
}

/// The three bytes that stand for `color`, given as red, green, blue, in a
/// pixel of the given channel order.
pub open spec fn encode(format: PixelFormat, color: [u8; 3]) -> Seq<u8> {
    match format {
        PixelFormat::Rgb => seq![color[0], color[1], color[2]],
        PixelFormat::Bgr => seq![color[2], color[1], color[0]],
    }
}

/// The surface `before` with every visible pixel of `region` set to `color`.
/// The fourth byte of each pixel, the pixels outside the region, and the
/// bytes of a row beyond its visible width stay as they were.
pub open spec fn paint(before: Seq<u8>, layout: Layout, region: Region, color: [u8; 3]) -> Seq<u8> {
    Seq::new(
        before.len(),
        |i: int|
            if i % 4 < 3 && layout.shows(layout.column_of(i), layout.row_of(i)) && region(
                layout.column_of(i),
                layout.row_of(i),
            ) {
                encode(layout.format, color)[i % 4]
            } else {
                before[i]
            },
    )
}

/// The region that holds no pixel.
pub open spec fn nothing() -> Region {
    |x: int, y: int| false
}

/// The region that holds the one pixel `(x, y)`.
pub open spec fn pixel_at(x: int, y: int) -> Region {
    |px: int, py: int| px == x && py == y
}

/// The pixels of either region.
pub open spec fn either(a: Region, b: Region) -> Region {
    |x: int, y: int| a(x, y) || b(x, y)
}

/// The rectangle of `w` by `h` pixels whose top left corner is `(x, y)`:
/// columns `x` up to but excluding `x + w`, rows `y` up to but excluding
/// `y + h`.
pub open spec fn rect_at(x: int, y: int, w: int, h: int) -> Region {
    |px: int, py: int| x <= px < x + w && y <= py < y + h
}

/// Two regions hold the same visible pixels.
pub open spec fn same_visible(layout: Layout, a: Region, b: Region) -> bool {
    forall|x: int, y: int| layout.shows(x, y) ==> (#[trigger] a(x, y) <==> #[trigger] b(x, y))
}

/// The bytes of a visible pixel lie inside the surface.
pub proof fn lemma_offset_in_bounds(layout: Layout, x: int, y: int)
    requires
        layout.width <= layout.stride,
        layout.shows(x, y),
    ensures
        0 <= layout.offset(x, y),
        layout.offset(x, y) + 4 <= layout.byte_len(),
        layout.byte_len() == layout.stride as int * layout.height as int * 4,
{
    let stride = layout.stride as int;
    let height = layout.height as int;
    assert(stride * y + x + 1 <= stride * height) by (nonlinear_arith)
        requires
            0 <= x < stride,
            0 <= y < height,
    ;
    assert(0 <= stride * y) by (nonlinear_arith)
        requires
            0 <= stride,
            0 <= y,
    ;
}

/// Byte `c` of pixel `(x, y)` belongs to column `x` and row `y`.
pub proof fn lemma_offset_decomposes(layout: Layout, x: int, y: int, c: int)
    requires
        0 <= x < layout.stride,
        0 <= y,
        0 <= c < 4,
    ensures
        (layout.offset(x, y) + c) % 4 == c,
        layout.column_of(layout.offset(x, y) + c) == x,
        layout.row_of(layout.offset(x, y) + c) == y,
{
    let stride = layout.stride as int;
    let pixel = stride * y + x;
    let i = layout.offset(x, y) + c;
    assert(i == pixel * 4 + c);
    lemma_fundamental_div_mod_converse(i, 4, pixel, c);
    assert(pixel == y * stride + x) by (nonlinear_arith)
        requires
            pixel == stride * y + x,
    ;
    lemma_fundamental_div_mod_converse(pixel, stride, y, x);
}

/// Every byte is byte `i % 4` of the pixel in its column and row.
pub proof fn lemma_byte_of_pixel(layout: Layout, i: int)
    requires
        layout.stride > 0,
        0 <= i,
    ensures
        i == layout.offset(layout.column_of(i), layout.row_of(i)) + i % 4,
        0 <= i % 4 < 4,
{
    let stride = layout.stride as int;
    lemma_fundamental_div_mod(i, 4);
    lemma_fundamental_div_mod(i / 4, stride);
    assert(stride * ((i / 4) / stride) + (i / 4) % stride == i / 4);
}

/// Writing the encoded color into the first three bytes of a visible pixel
/// paints exactly that pixel.
pub proof fn lemma_paint_pixel(before: Seq<u8>, layout: Layout, x: int, y: int, color: [u8; 3])
    requires
        layout.fits(before),
        layout.shows(x, y),
    ensures
        0 <= layout.offset(x, y),
        layout.offset(x, y) + 4 <= before.len(),
        before.update(layout.offset(x, y), encode(layout.format, color)[0]).update(
            layout.offset(x, y) + 1,
            encode(layout.format, color)[1],
        ).update(layout.offset(x, y) + 2, encode(layout.format, color)[2]) == paint(
            before,
            layout,
            pixel_at(x, y),
            color,
        ),
{
    lemma_offset_in_bounds(layout, x, y);
    let o = layout.offset(x, y);
    let code = encode(layout.format, color);
    let written = before.update(o, code[0]).update(o + 1, code[1]).update(o + 2, code[2]);
    let painted = paint(before, layout, pixel_at(x, y), color);
    assert forall|i: int| 0 <= i < before.len() implies written[i] == painted[i] by {
        if o <= i < o + 3 {
            lemma_offset_decomposes(layout, x, y, i - o);
        } else {
            lemma_byte_of_pixel(layout, i);
        }
    }
    assert(written =~= painted);
}

/// Painting a region none of whose pixels is visible changes nothing.
pub proof fn lemma_paint_invisible(before: Seq<u8>, layout: Layout, region: Region, color: [u8; 3])
    requires
        same_visible(layout, region, nothing()),
    ensures
        paint(before, layout, region, color) == before,
{
    assert forall|i: int| 0 <= i < before.len() implies paint(before, layout, region, color)[i]
        == before[i] by {
        let x = layout.column_of(i);
        let y = layout.row_of(i);
        if layout.shows(x, y) {
            assert(region(x, y) <==> nothing()(x, y));
        }
    }
    assert(paint(before, layout, region, color) =~= before);
}

/// Painting only depends on the visible pixels of the region.
pub proof fn lemma_paint_same_visible(
    before: Seq<u8>,
    layout: Layout,
    a: Region,
    b: Region,
    color: [u8; 3],
)
    requires
        same_visible(layout, a, b),
    ensures
        paint(before, layout, a, color) == paint(before, layout, b, color),
{
    assert forall|i: int| 0 <= i < before.len() implies paint(before, layout, a, color)[i] == paint(
        before,
        layout,
        b,
        color,
    )[i] by {
        let x = layout.column_of(i);
        let y = layout.row_of(i);
        if layout.shows(x, y) {
            assert(a(x, y) <==> b(x, y));
        }
    }
    assert(paint(before, layout, a, color) =~= paint(before, layout, b, color));
}

/// Painting one region and then another with the same color paints the
/// pixels of either.
pub proof fn lemma_paint_twice(before: Seq<u8>, layout: Layout, a: Region, b: Region, color: [u8; 3])
    ensures
        paint(paint(before, layout, a, color), layout, b, color) == paint(
            before,
            layout,
            either(a, b),
            color,
        ),
{
    assert(paint(paint(before, layout, a, color), layout, b, color) =~= paint(
        before,
        layout,
        either(a, b),
        color,
    ));
}

/// Reading back a painted, visible pixel gives the color in the surface's
/// channel order: red, green, blue for RGB and blue, green, red for BGR.
pub proof fn lemma_painted_pixel_reads_back(
    before: Seq<u8>,
    layout: Layout,
    region: Region,
    color: [u8; 3],
    x: int,
    y: int,
)
    requires
        layout.fits(before),
        layout.shows(x, y),
        region(x, y),
    ensures
        0 <= layout.offset(x, y),
        layout.offset(x, y) + 4 <= before.len(),
        paint(before, layout, region, color).subrange(layout.offset(x, y), layout.offset(x, y) + 3)
            == encode(layout.format, color),
        paint(before, layout, region, color)[layout.offset(x, y) + 3] == before[layout.offset(x, y)
            + 3],
        forall|c: int|
            0 <= c < 3 ==> #[trigger] paint(before, layout, region, color)[layout.offset(x, y) + c]
                == encode(layout.format, color)[c],
{
    lemma_offset_in_bounds(layout, x, y);
    let o = layout.offset(x, y);
    let after = paint(before, layout, region, color);
    let code = encode(layout.format, color);
    assert forall|c: int| 0 <= c < 4 implies #[trigger] after[o + c] == if c < 3 {
        code[c]
    } else {
        before[o + c]
    } by {
        lemma_offset_decomposes(layout, x, y, c);
    }
    assert(code.len() == 3);
    assert forall|c: int| 0 <= c < 3 implies after.subrange(o, o + 3)[c] == code[c] by {
        assert(after.subrange(o, o + 3)[c] == after[o + c]);
    }
    assert(after.subrange(o, o + 3) =~= code);
}

/// A byte that belongs to no painted, visible pixel keeps its value.
pub proof fn lemma_unpainted_byte_stays(
    before: Seq<u8>,
    layout: Layout,
    region: Region,
    color: [u8; 3],
    i: int,
)
    requires
        0 <= i < before.len(),
        !(layout.shows(layout.column_of(i), layout.row_of(i)) && region(
            layout.column_of(i),
            layout.row_of(i),
        )),
    ensures
        paint(before, layout, region, color)[i] == before[i],
        paint(before, layout, region, color).len() == before.len(),
{
}

/// Reading back a visible pixel of a filled rectangle gives the fill color in
/// the surface's channel order: red, green, blue for RGB and blue, green, red
/// for BGR.
pub proof fn lemma_rect_reads_back(
    before: Seq<u8>,
    layout: Layout,
    x: int,
    y: int,
    w: int,
    h: int,
    color: [u8; 3],
    px: int,
    py: int,
)
    requires
        layout.fits(before),
        layout.shows(px, py),
        x <= px < x + w,
        y <= py < y + h,
    ensures
        0 <= layout.offset(px, py),
        layout.offset(px, py) + 4 <= before.len(),
        ({
            let after = paint(before, layout, rect_at(x, y, w, h), color);
            let o = layout.offset(px, py);
            match layout.format {
                PixelFormat::Rgb => after[o] == color[0] && after[o + 1] == color[1] && after[o + 2]
                    == color[2],
                PixelFormat::Bgr => after[o] == color[2] && after[o + 1] == color[1] && after[o + 2]
                    == color[0],
            }
        }),
{
    let region = rect_at(x, y, w, h);
    assert(region(px, py));
    lemma_painted_pixel_reads_back(before, layout, region, color, px, py);
    let after = paint(before, layout, region, color);
    let o = layout.offset(px, py);
    let code = encode(layout.format, color);
    assert(after[o + 0] == code[0]);
    assert(after[o + 1] == code[1]);
    assert(after[o + 2] == code[2]);
}

} // verus!
