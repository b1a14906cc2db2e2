use crate::font::{glyph_at, Font};
use crate::paint::{lemma_paint_invisible, paint, Layout};
use crate::screen::Renderable;
use vstd::prelude::*;
use vstd::std_specs::iter::IteratorSpec;

verus! {

/// Horizontal distance in pixels between two characters of a line.
pub const CELL_WIDTH: u32 = 8;

/// Vertical distance in pixels between two lines.
pub const LINE_HEIGHT: u32 = 20;

/// The cell that a character other than a line break is put in when the
/// cursor stands at `cursor`: the cursor's own cell while the line has room,
/// and the first cell of the next line once the line is full.
pub open spec fn cell_for(columns: int, cursor: (int, int)) -> (int, int) {
    if cursor.0 < columns {
        cursor
    } else {
        (0, cursor.1 + 1)
    }
}

/// Where the cursor stands after one more character: a line break moves it to
/// the start of the next line, and any other character moves it to the cell
/// after the one the character is put in. A full line wraps: no character is
/// lost.
pub open spec fn advance(columns: int, cursor: (int, int), c: char) -> (int, int) {
    if c == '\n' {
        (0, cursor.1 + 1)
    } else {
        (cell_for(columns, cursor).0 + 1, cell_for(columns, cursor).1)
    }
}

/// Where the cursor stands after a text.
pub open spec fn cursor_after(columns: int, cursor: (int, int), text: Seq<char>) -> (int, int)
    decreases text.len(),
{
    if text.len() == 0 {
        cursor
    } else {
        advance(columns, cursor_after(columns, cursor, text.drop_last()), text.last())
    }
}

/// The surface after a text has been put on it by a console of `columns`
/// cells per line whose cursor stood at `cursor`: each character that is no
/// line break is drawn in its cell, 8 pixels per column and 20 per line.
pub open spec fn shown_after(
    content: Seq<u8>,
    layout: Layout,
    table: Seq<u8>,
    columns: int,
    cursor: (int, int),
    color: [u8; 3],
    text: Seq<char>,
) -> Seq<u8>
    decreases text.len(),
{
    if text.len() == 0 {
        content
    } else {
        let earlier = shown_after(content, layout, table, columns, cursor, color, text.drop_last());
        let cell = cell_for(columns, cursor_after(columns, cursor, text.drop_last()));
        if text.last() != '\n' {
            paint(
                earlier,
                layout,
                glyph_at(table, cell.0 * CELL_WIDTH, cell.1 * LINE_HEIGHT, text.last() as int),
                color,
            )
        } else {
            earlier
        }
    }
}

/// On a console with at least one cell per line, a text never moves the
/// cursor up, left of column 0 or right of the cell after the last, and moves
/// it down by at most one line per character.
pub proof fn lemma_cursor_bounds(columns: int, cursor: (int, int), text: Seq<char>)
    requires
        1 <= columns,
        0 <= cursor.0 <= columns,
    ensures
        0 <= cursor_after(columns, cursor, text).0 <= columns,
        cursor.1 <= cursor_after(columns, cursor, text).1 <= cursor.1 + text.len(),
    decreases text.len(),
{
    if text.len() > 0 {
        lemma_cursor_bounds(columns, cursor, text.drop_last());
    }
}

/// After a prefix of a text the cursor is no further down than after the
/// whole text.
pub proof fn lemma_cursor_line_grows(columns: int, cursor: (int, int), text: Seq<char>, n: int)
    requires
        1 <= columns,
        0 <= cursor.0 <= columns,
        0 <= n <= text.len(),
    ensures
        cursor_after(columns, cursor, text.take(n)).1 <= cursor_after(columns, cursor, text).1,
    decreases text.len(),
{
    if n < text.len() {
        let shorter = text.drop_last();
        lemma_cursor_line_grows(columns, cursor, shorter, n);
        lemma_cursor_bounds(columns, cursor, shorter);
        assert(shorter.take(n) =~= text.take(n));
    } else {
        assert(text.take(n) =~= text);
    }
}

/// A full line wraps: after one character more than a line holds, put on an
/// empty line, the cursor stands behind the first cell of the next line.
pub proof fn lemma_full_line_wraps(columns: int, line: int, c: char)
    requires
        1 <= columns,
        c != '\n',
    ensures
        advance(columns, (columns, line), c) == (1int, line + 1),
        cell_for(columns, (columns, line)) == (0int, line + 1),
{
}

/// The mathematical value of a [`Console`].
pub struct ConsoleView {
    /// Cells per line and number of lines.
    pub size: (u32, u32),
    /// Column and line of the next character.
    pub cursor: (u32, u32),
    /// Color of the text, as red, green, blue.
    pub color: [u8; 3],
}

/// A line-oriented text console that draws on a surface it is handed.
pub struct Console {
    size: (u32, u32),
    cursor: (u32, u32),
    color: [u8; 3],
}

impl View for Console {
    type V = ConsoleView;

    closed spec fn view(&self) -> ConsoleView {
        ConsoleView { size: self.size, cursor: self.cursor, color: self.color }
    }
}

impl Console {
    /// A line has at least one cell, and the cursor is never right of the
    /// cell after the last of a line.
    #[verifier::type_invariant]
    spec fn cursor_on_line(self) -> bool {
        1 <= self.size.0 && self.cursor.0 <= self.size.0
    }

    /// A console of 80 by 25 cells that writes black text, with the cursor in
    /// the top left cell.
    pub fn new() -> (console: Self)
        ensures
            console@.size == (80u32, 25u32),
            console@.cursor == (0u32, 0u32),
            console@.color@ == seq![0u8, 0u8, 0u8],
    {
        let color: [u8; 3] = [0, 0, 0];
        assert(color@ =~= seq![0u8, 0u8, 0u8]);
        Self { size: (80, 25), cursor: (0, 0), color }
    }

    /// Cells per line and number of lines.
    pub fn size(&self) -> (size: (u32, u32))
        ensures
            size == self@.size,
    {
        self.size
    }

    /// Column and line of the next character.
    pub fn cursor(&self) -> (cursor: (u32, u32))
        ensures
            cursor == self@.cursor,
    {
        self.cursor
    }

    /// Color of the text, as red, green, blue.
    pub fn color(&self) -> (color: [u8; 3])
        ensures
            color == self@.color,
    {
        self.color
    }

    /// Moves the cursor to the given column and line. The column may be at
    /// most the number of cells per line, which is where the cursor stands
    /// when a line is full; for a column beyond that the cursor stays where it
    /// is and `false` is returned.
    pub fn set_cursor(&mut self, column: u32, line: u32) -> (moved: bool)
        ensures
            moved == (column <= old(self)@.size.0),
            final(self)@.size == old(self)@.size,
            final(self)@.color == old(self)@.color,
            final(self)@.cursor == if moved {
                (column, line)
            } else {
                old(self)@.cursor
            },
    {
        proof {
            use_type_invariant(&*self);
        }
        if column <= self.size.0 {
            self.cursor = (column, line);
            true
        } else {
            false
        }
    }

    /// Draws `c` in the console's color with its top left corner at the pixel
    /// `(x, y)`.
    fn put_char_direct<R: Renderable>(&self, screen: &mut R, font: &Font, x: u32, y: u32, c: char)
        requires
            old(screen).descriptor().layout().fits(old(screen).content()),
        ensures
            final(screen).descriptor() == old(screen).descriptor(),
            final(screen).descriptor().layout().fits(final(screen).content()),
            final(screen).content() == paint(
                old(screen).content(),
                old(screen).descriptor().layout(),
                glyph_at(font@, x as int, y as int, c as int),
                self@.color,
            ),
    {
        screen.write_char(font, x, y, c, self.color)
    }

    /// Where the cursor would stand after `s` was put, or `None` where the
    /// line it would end on is beyond the last that can be counted.
    pub fn cursor_past(&self, s: &str) -> (end: Option<(u32, u32)>)
        ensures
            match end {
                Some(cursor) => (cursor.0 as int, cursor.1 as int) == cursor_after(
                    self@.size.0 as int,
                    (self@.cursor.0 as int, self@.cursor.1 as int),
                    s@,
                ),
                None => cursor_after(
                    self@.size.0 as int,
                    (self@.cursor.0 as int, self@.cursor.1 as int),
                    s@,
                ).1 > u32::MAX,
            },
    {
        broadcast use vstd::string::group_string_axioms;

        proof {
            use_type_invariant(self);
        }
        let ghost columns = self.size.0 as int;
        let ghost start = (self.cursor.0 as int, self.cursor.1 as int);
        let mut column: u32 = self.cursor.0;
        let mut line: u32 = self.cursor.1;
        let mut chars = s.chars();
        let mut done = false;
        let ghost mut i: int = 0;
        while !done
            invariant
                0 <= i <= s@.len(),
                chars.remaining() == s@.skip(i),
                chars.obeys_prophetic_iter_laws(),
                done ==> i == s@.len(),
                1 <= columns == self.size.0,
                start == (self.cursor.0 as int, self.cursor.1 as int),
                0 <= start.0 <= columns,
                column <= self.size.0,
                (column as int, line as int) == cursor_after(columns, start, s@.take(i)),
            decreases s@.len() - i + if done { 0int } else { 1int },
        {
            match chars.next() {
                Some(c) => {
                    proof {
                        assert(s@.take(i + 1).drop_last() =~= s@.take(i));
                        assert(s@.take(i + 1).last() == c);
                        assert(s@.skip(i).drop_first() =~= s@.skip(i + 1));
                        lemma_cursor_line_grows(columns, start, s@, i + 1);
                        i = i + 1;
                    }
                    if c == '\n' || column >= self.size.0 {
                        if line == u32::MAX {
                            assert(cursor_after(columns, start, s@.take(i)).1 == line + 1);
                            return None;
                        }
                        line += 1;
                        column = 0;
                    }
                    if c != '\n' {
                        column += 1;
                    }
                },
                None => {
                    done = true;
                },
            }
        }
        proof {
            assert(s@.take(i) =~= s@);
        }
        Some((column, line))
    }

    /// Puts `s` on the screen at the cursor and moves the cursor past it. A
    /// line break moves the cursor to the start of the next line, and so does
    /// a character that finds its line full: lines wrap, and no character is
    /// lost.
    ///
    /// The line the cursor ends on must be one that can be counted;
    /// [`Console::cursor_past`] tells.
    pub fn put_str<R: Renderable>(&mut self, screen: &mut R, font: &Font, s: &str)
        requires
            old(screen).descriptor().layout().fits(old(screen).content()),
            cursor_after(
                old(self)@.size.0 as int,
                (old(self)@.cursor.0 as int, old(self)@.cursor.1 as int),
                s@,
            ).1 <= u32::MAX,
        ensures
            final(self)@.size == old(self)@.size,
            final(self)@.color == old(self)@.color,
            (final(self)@.cursor.0 as int, final(self)@.cursor.1 as int) == cursor_after(
                old(self)@.size.0 as int,
                (old(self)@.cursor.0 as int, old(self)@.cursor.1 as int),
                s@,
            ),
            final(screen).descriptor() == old(screen).descriptor(),
            final(screen).descriptor().layout().fits(final(screen).content()),
            final(screen).content() == shown_after(
                old(screen).content(),
                old(screen).descriptor().layout(),
                font@,
                old(self)@.size.0 as int,
                (old(self)@.cursor.0 as int, old(self)@.cursor.1 as int),
                old(self)@.color,
                s@,
            ),
    {
        broadcast use vstd::string::group_string_axioms;

        proof {
            use_type_invariant(&*self);
        }
        let ghost before = screen.content();
        let ghost descriptor = screen.descriptor();
        let ghost layout = screen.descriptor().layout();
        let ghost table = font@;
        let ghost columns = self.size.0 as int;
        let ghost start = (self.cursor.0 as int, self.cursor.1 as int);
        let ghost color = self.color;
        let mut chars = s.chars();
        let mut done = false;
        let ghost mut i: int = 0;
        while !done
            invariant
                0 <= i <= s@.len(),
                chars.remaining() == s@.skip(i),
                chars.obeys_prophetic_iter_laws(),
                done ==> i == s@.len(),
                table == font@,
                self.size == old(self).size,
                self.color == color,
                1 <= columns == self.size.0,
                self.cursor.0 <= self.size.0,
                0 <= start.0 <= columns,
                cursor_after(columns, start, s@).1 <= u32::MAX,
                (self.cursor.0 as int, self.cursor.1 as int) == cursor_after(columns, start, s@.take(i)),
                screen.descriptor() == descriptor,
                screen.descriptor().layout() == layout,
                layout.fits(screen.content()),
                screen.content() == shown_after(before, layout, table, columns, start, color, s@.take(i)),
            decreases s@.len() - i + if done { 0int } else { 1int },
        {
            match chars.next() {
                Some(c) => {
                    proof {
                        assert(s@.take(i + 1).drop_last() =~= s@.take(i));
                        assert(s@.take(i + 1).last() == c);
                        assert(s@.skip(i).drop_first() =~= s@.skip(i + 1));
                        lemma_cursor_line_grows(columns, start, s@, i + 1);
                        i = i + 1;
                    }
                    if c == '\n' {
                        let line: u32 = self.cursor.1;
                        self.cursor = (0, line + 1);
                    } else {
                        let wrapped = self.cursor.0 >= self.size.0;
                        let column: u32 = if wrapped {
                            0
                        } else {
                            self.cursor.0
                        };
                        let line: u32 = if wrapped {
                            self.cursor.1 + 1
                        } else {
                            self.cursor.1
                        };
                        assert(column * CELL_WIDTH <= u32::MAX * 8 && line * LINE_HEIGHT <= u32::MAX * 20)
                            by (nonlinear_arith)
                            requires
                                column <= u32::MAX,
                                line <= u32::MAX,
                                CELL_WIDTH == 8,
                                LINE_HEIGHT == 20,
                        ;
                        let x: u64 = column as u64 * CELL_WIDTH as u64;
                        let y: u64 = line as u64 * LINE_HEIGHT as u64;
                        if x <= u32::MAX as u64 && y <= u32::MAX as u64 {
                            self.put_char_direct(screen, font, x as u32, y as u32, c);
                        } else {
                            proof {
                                lemma_paint_invisible(
                                    screen.content(),
                                    layout,
                                    glyph_at(table, x as int, y as int, c as int),
                                    color,
                                );
                            }
                        }
                        self.cursor = (column + 1, line);
                    }
                },
                None => {
                    done = true;
                },
            }
        }
        proof {
            assert(s@.take(i) =~= s@);
        }
    }
}

/// `core::fmt::Error`, the error of formatted writing. It carries nothing.
#[verifier::external_type_specification]
#[verifier::external_body]
pub struct ExFmtError(core::fmt::Error);

/// Makes the one value of `core::fmt::Error`, which says that writing failed
/// and nothing more.
#[verifier::external_body]
fn write_failed() -> core::fmt::Error {
    core::fmt::Error
}

/// A console bound to the screen and the font it writes with, so that text can
/// be written to it with nothing else at hand.
pub struct ConsoleWrite<'a, R: Renderable> {
    pub console: Console,
    pub screen: &'a mut R,
    pub font: &'a Font,
}

impl<'a, R: Renderable> ConsoleWrite<'a, R> {
    /// Writes `s` to the console as [`Console::put_str`] does.
    ///
    /// Fails, writing nothing, exactly when the text, with its line breaks
    /// and the lines it wraps, would end on a line beyond the last that can
    /// be counted.
    pub fn write_str(&mut self, s: &str) -> (written: Result<(), core::fmt::Error>)
        requires
            old(self).screen.descriptor().layout().fits(old(self).screen.content()),
        ensures
            written is Ok <==> cursor_after(
                old(self).console@.size.0 as int,
                (old(self).console@.cursor.0 as int, old(self).console@.cursor.1 as int),
                s@,
            ).1 <= u32::MAX,
            final(self).font == old(self).font,
            final(self).screen.descriptor() == old(self).screen.descriptor(),
            final(self).screen.descriptor().layout().fits(final(self).screen.content()),
            final(self).console@.size == old(self).console@.size,
            final(self).console@.color == old(self).console@.color,
            written is Err ==> {
                &&& final(self).console@.cursor == old(self).console@.cursor
                &&& final(self).screen.content() == old(self).screen.content()
            },
            written is Ok ==> {
                &&& (final(self).console@.cursor.0 as int, final(self).console@.cursor.1 as int)
                    == cursor_after(
                    old(self).console@.size.0 as int,
                    (old(self).console@.cursor.0 as int, old(self).console@.cursor.1 as int),
                    s@,
                )
                &&& final(self).screen.content() == shown_after(
                    old(self).screen.content(),
                    old(self).screen.descriptor().layout(),
                    old(self).font@,
                    old(self).console@.size.0 as int,
                    (old(self).console@.cursor.0 as int, old(self).console@.cursor.1 as int),
                    old(self).console@.color,
                    s@,
                )
            },
    {
        if self.console.cursor_past(s).is_none() {
            return Err(write_failed());
        }
        self.console.put_str(self.screen, self.font, s);
        Ok(())
    }
}

} // verus!
