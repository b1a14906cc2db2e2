use crate::paint::Region;
use vstd::prelude::*;

verus! {

/// Width of a glyph in pixels.
pub const GLYPH_WIDTH: u32 = 8;

/// Height of a glyph in pixels, and number of bytes per glyph in a font table.
pub const GLYPH_HEIGHT: u32 = 16;

/// Whether the bit for column `col` is set in a glyph row. Columns count from
/// the left, and the leftmost column is the most significant bit.
pub open spec fn bit_set(row: u8, col: int) -> bool {
    0 <= col < 8 && row & (0x80u8 >> (col as u8)) != 0
}

/// Whether the glyph for code point `code` has the pixel at column `col`, row
/// `row` set. `table` holds sixteen bytes per code point, one per row from the
/// top. A code point beyond the table has no pixel set.
pub open spec fn glyph_lit(table: Seq<u8>, code: int, col: int, row: int) -> bool {
    &&& 0 <= code
    &&& (code + 1) * GLYPH_HEIGHT <= table.len()
    &&& 0 <= row < GLYPH_HEIGHT
    &&& bit_set(table[code * GLYPH_HEIGHT + row], col)
}

/// The pixels of the glyph for `code` when its top left corner is at `(x, y)`.
pub open spec fn glyph_at(table: Seq<u8>, x: int, y: int, code: int) -> Region {
    |px: int, py: int| glyph_lit(table, code, px - x, py - y)
}

/// The pixels of a line of text whose first glyph has its top left corner at
/// `(x, y)`: glyph `k` stands `8 * k` pixels further right.
pub open spec fn text_at(table: Seq<u8>, x: int, y: int, text: Seq<char>) -> Region {
    |px: int, py: int|
        exists|k: int|
            0 <= k < text.len() && glyph_lit(
                table,
                #[trigger] text[k] as int,
                px - x - GLYPH_WIDTH * k,
                py - y,
            )
}

/// Whether the cell at column `col`, row `row` of a textual bitmap is set. The
/// cells are the characters of `art`, row after row, `width` to a row; a cell
/// is set where its character is `@`.
pub open spec fn art_lit(art: Seq<char>, width: int, height: int, col: int, row: int) -> bool {
    &&& 0 <= col < width
    &&& 0 <= row < height
    &&& row * width + col < art.len()
    &&& art[row * width + col] == '@'
}

/// The pixels of a textual bitmap whose top left corner is at `(x, y)`.
pub open spec fn art_at(art: Seq<char>, width: int, height: int, x: int, y: int) -> Region {
    |px: int, py: int| art_lit(art, width, height, px - x, py - y)
}

/// The part of a glyph drawn so far when it is drawn column by column: its set
/// pixels in the `cols` leftmost columns, and in the `rows` topmost rows of
/// the next one.
pub open spec fn glyph_part(table: Seq<u8>, x: int, y: int, code: int, cols: int, rows: int) -> Region {
    |px: int, py: int|
        glyph_lit(table, code, px - x, py - y) && (px - x < cols || (px - x == cols && py - y < rows))
}

/// The part of a textual bitmap drawn so far when it is drawn row by row: its
/// set cells in the `rows` topmost rows, and in the `cols` leftmost cells of
/// the next one.
pub open spec fn art_part(
    art: Seq<char>,
    width: int,
    height: int,
    x: int,
    y: int,
    rows: int,
    cols: int,
) -> Region {
    |px: int, py: int|
        art_lit(art, width, height, px - x, py - y) && (py - y < rows || (py - y == rows && px - x
            < cols))
}

/// A line of text one glyph longer has the pixels of the shorter line and of
/// the added glyph, which stands eight pixels right of the one before it.
pub proof fn lemma_text_grows(table: Seq<u8>, x: int, y: int, text: Seq<char>, n: int)
    requires
        0 <= n < text.len(),
    ensures
        forall|px: int, py: int|
            #[trigger] text_at(table, x, y, text.take(n + 1))(px, py) <==> (text_at(
                table,
                x,
                y,
                text.take(n),
            )(px, py) || glyph_at(table, x + 8 * n, y, text[n] as int)(px, py)),
{
    let longer = text.take(n + 1);
    let shorter = text.take(n);
    assert forall|px: int, py: int|
        #[trigger] text_at(table, x, y, longer)(px, py) <==> (text_at(table, x, y, shorter)(px, py)
            || glyph_at(table, x + 8 * n, y, text[n] as int)(px, py)) by {
        if text_at(table, x, y, longer)(px, py) {
            let k = choose|k: int|
                0 <= k < longer.len() && glyph_lit(
                    table,
                    #[trigger] longer[k] as int,
                    px - x - 8 * k,
                    py - y,
                );
            if k < n {
                assert(shorter[k] == longer[k]);
            }
        }
        if text_at(table, x, y, shorter)(px, py) {
            let k = choose|k: int|
                0 <= k < shorter.len() && glyph_lit(
                    table,
                    #[trigger] shorter[k] as int,
                    px - x - 8 * k,
                    py - y,
                );
            assert(longer[k] == shorter[k]);
        }
        if glyph_at(table, x + 8 * n, y, text[n] as int)(px, py) {
            assert(longer[n] == text[n]);
        }
    }
}

/// The glyphs of a line of text from the `n`-th on lie at column `x + 8 * n`
/// or further right: left of that column the line looks like its first `n`
/// glyphs.
pub proof fn lemma_text_tail_is_right(table: Seq<u8>, x: int, y: int, text: Seq<char>, n: int)
    requires
        0 <= n <= text.len(),
    ensures
        forall|px: int, py: int|
            px < x + 8 * n ==> (#[trigger] text_at(table, x, y, text)(px, py) <==> text_at(
                table,
                x,
                y,
                text.take(n),
            )(px, py)),
{
    let shorter = text.take(n);
    assert forall|px: int, py: int| px < x + 8 * n implies (#[trigger] text_at(table, x, y, text)(
        px,
        py,
    ) <==> text_at(table, x, y, shorter)(px, py)) by {
        if text_at(table, x, y, text)(px, py) {
            let k = choose|k: int|
                0 <= k < text.len() && glyph_lit(table, #[trigger] text[k] as int, px - x - 8 * k, py - y);
            assert(k < n);
            assert(shorter[k] == text[k]);
        }
        if text_at(table, x, y, shorter)(px, py) {
            let k = choose|k: int|
                0 <= k < shorter.len() && glyph_lit(
                    table,
                    #[trigger] shorter[k] as int,
                    px - x - 8 * k,
                    py - y,
                );
            assert(text[k] == shorter[k]);
        }
    }
}

/// A monochrome bitmap font of 8 by 16 pixel glyphs, indexed by code point.
pub struct Font {
    table: Vec<u8>,
}

impl View for Font {
    type V = Seq<u8>;

    closed spec fn view(&self) -> Seq<u8> {
        self.table@
    }
}

impl Font {
    /// Wraps a font table: sixteen bytes per code point, starting with code
    /// point 0. Bytes after the last whole glyph are never read.
    pub fn new(table: Vec<u8>) -> (font: Font)
        ensures
            font@ == table@,
    {
        Font { table }
    }

    /// Number of code points the font has a glyph for.
    pub fn glyph_count(&self) -> (count: usize)
        ensures
            count == self@.len() as int / GLYPH_HEIGHT as int,
    {
        let rows: usize = GLYPH_HEIGHT as usize;
        self.table.len() / rows
    }

    /// Row `row` of the glyph for `code`, or `None` where the font has no
    /// such glyph or a glyph has no such row.
    pub fn glyph_row(&self, code: u32, row: u32) -> (bits: Option<u8>)
        ensures
            bits == if (code + 1) * GLYPH_HEIGHT <= self@.len() && row < GLYPH_HEIGHT {
                Some(self@[code * GLYPH_HEIGHT + row])
            } else {
                None
            },
    {
        let rows: usize = GLYPH_HEIGHT as usize;
        let count: usize = self.table.len() / rows;
        if row < GLYPH_HEIGHT && (code as usize) < count {
            Some(self.table[code as usize * rows + row as usize])
        } else {
            None
        }
    }
}

/// The code point of a character, by which a font finds its glyph.
pub fn code_point(c: char) -> (code: u32)
    ensures
        code == c as int,
{
    proof {
        vstd::utf8::char_is_scalar(c);
    }
    c as u32
}

/// Whether the bit for column `col`, counted from the left, is set in a glyph
/// row.
pub fn row_bit(row: u8, col: u32) -> (set: bool)
    ensures
        set == bit_set(row, col as int),
{
    if col < 8 {
        let mask: u8 = 0x80u8 >> (col as u8);
        row & mask != 0
    } else {
        false
    }
}

} // verus!
