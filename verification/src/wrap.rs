//! Laying a stream of characters out in lines: without wrapping, wrapping at
//! any character, and wrapping between words.
//!
//! Each wrapper keeps a cursor and is fed one character at a time. It answers
//! with the cells to write, each with its position relative to the start of
//! the text, and moves its cursor.

use crate::coord::Coord;
use vstd::prelude::*;

verus! {

/// What a cell shows: a character, and a style that the layout hands through
/// as it is.
#[derive(Debug, Clone, Copy, PartialEq, Eq)]
pub struct ViewCell<S> {
    pub character: Option<char>,
    pub style: S,
}

/// A cell to write, with its position.
#[derive(Debug, Clone, Copy, PartialEq, Eq)]
pub struct Placement<S> {
    pub coord: Coord,
    pub cell: ViewCell<S>,
}

/// The placement of `character` with `style` at `coord`.
pub open spec fn placed<S>(coord: Coord, character: char, style: S) -> Placement<S> {
    Placement { coord, cell: ViewCell { character: Some(character), style } }
}

/// The start of the line after the one that `cursor` is in.
pub open spec fn next_line(cursor: Coord) -> Coord {
    Coord { x: 0, y: (cursor.y + 1) as i32 }
}

/// The start of the line that `cursor` is in.
pub open spec fn line_start(cursor: Coord) -> Coord {
    Coord { x: 0, y: cursor.y }
}

/// `cursor` moved `by` columns to the right.
pub open spec fn advanced(cursor: Coord, by: int) -> Coord {
    Coord { x: (cursor.x + by) as i32, y: cursor.y }
}

/// Whether `character` is one that moves the cursor without being written.
pub open spec fn is_line_control(character: char) -> bool {
    character == '\n' || character == '\r'
}

/// Where a cursor without wrapping stands after `character`.
pub open spec fn unwrapped_cursor(cursor: Coord, character: char) -> Coord {
    if character == '\n' {
        next_line(cursor)
    } else if character == '\r' {
        line_start(cursor)
    } else {
        advanced(cursor, 1)
    }
}

/// Where a cursor that wraps at any character stands after `character`, in
/// lines of `width` columns.
pub open spec fn char_wrapped_cursor(cursor: Coord, character: char, width: i32) -> Coord {
    if character == '\n' {
        next_line(cursor)
    } else if character == '\r' {
        line_start(cursor)
    } else if cursor.x + 1 >= width {
        next_line(cursor)
    } else {
        advanced(cursor, 1)
    }
}

/// The number of lines that a cursor has reached.
pub open spec fn lines_reached(cursor: Coord) -> int {
    cursor.y + 1
}

/// Lays characters out in one line each, however long, broken only where the
/// text has a line feed.
#[derive(Debug)]
pub struct NoWrap {
    cursor: Coord,
}

impl Clone for NoWrap {
    fn clone(&self) -> (copy: Self)
        ensures
            copy.cursor() == self.cursor(),
    {
        proof {
            use_type_invariant(self);
        }
        NoWrap { cursor: self.cursor }
    }
}

impl NoWrap {
    #[verifier::type_invariant]
    spec fn well_formed(self) -> bool {
        self.cursor.x >= 0 && self.cursor.y >= 0
    }

    /// Where the next character goes.
    pub closed spec fn cursor(&self) -> Coord {
        self.cursor
    }

    pub fn new() -> (wrap: Self)
        ensures
            wrap.cursor() == (Coord { x: 0, y: 0 }),
    {
        NoWrap { cursor: Coord::new(0, 0) }
    }

    /// Puts the cursor back to the start of the text.
    pub fn clear(&mut self)
        ensures
            final(self).cursor() == (Coord { x: 0, y: 0 }),
    {
        self.cursor = Coord::new(0, 0);
    }

    /// Takes the next character of the text. A line feed and a carriage
    /// return move the cursor and write nothing; any other character is
    /// written where the cursor stands, and the cursor moves one column on.
    pub fn process_character<S>(&mut self, character: char, style: S) -> (write: Option<
        Placement<S>,
    >)
        requires
            character == '\n' ==> old(self).cursor().y < i32::MAX,
            !is_line_control(character) ==> old(self).cursor().x < i32::MAX,
        ensures
            final(self).cursor() == unwrapped_cursor(old(self).cursor(), character),
            write == if is_line_control(character) {
                None
            } else {
                Some(placed(old(self).cursor(), character, style))
            },
    {
        proof {
            use_type_invariant(&*self);
        }
        let at = self.cursor;
        if character == '\n' {
            self.cursor = Coord::new(0, at.y + 1);
            None
        } else if character == '\r' {
            self.cursor = Coord::new(0, at.y);
            None
        } else {
            self.cursor = Coord::new(at.x + 1, at.y);
            Some(Placement { coord: at, cell: ViewCell { character: Some(character), style } })
        }
    }

    /// The number of lines that the text has reached so far.
    pub fn num_lines(&self) -> (lines: usize)
        ensures
            lines == lines_reached(self.cursor()),
    {
        proof {
            use_type_invariant(self);
        }
        self.cursor.y as usize + 1
    }
}

/// Lays characters out in lines of a given width, going on in the next line
/// as soon as a line is full.
#[derive(Debug)]
pub struct Char {
    cursor: Coord,
}

impl Clone for Char {
    fn clone(&self) -> (copy: Self)
        ensures
            copy.cursor() == self.cursor(),
    {
        proof {
            use_type_invariant(self);
        }
        Char { cursor: self.cursor }
    }
}

impl Char {
    #[verifier::type_invariant]
    spec fn well_formed(self) -> bool {
        self.cursor.x >= 0 && self.cursor.y >= 0
    }

    /// Where the next character goes.
    pub closed spec fn cursor(&self) -> Coord {
        self.cursor
    }

    pub fn new() -> (wrap: Self)
        ensures
            wrap.cursor() == (Coord { x: 0, y: 0 }),
    {
        Char { cursor: Coord::new(0, 0) }
    }

    /// Puts the cursor back to the start of the text.
    pub fn clear(&mut self)
        ensures
            final(self).cursor() == (Coord { x: 0, y: 0 }),
    {
        self.cursor = Coord::new(0, 0);
    }

    /// Takes the next character of the text, for lines of `width` columns. A
    /// line feed and a carriage return move the cursor and write nothing; any
    /// other character is written where the cursor stands, and the cursor
    /// moves one column on, or to the next line where that column is past the
    /// line's end.
    pub fn process_character<S>(&mut self, character: char, style: S, width: i32) -> (write:
        Option<Placement<S>>)
        requires
            !is_line_control(character) ==> old(self).cursor().x < i32::MAX,
            character == '\n' || (character != '\r' && old(self).cursor().x + 1 >= width) ==> old(
                self,
            ).cursor().y < i32::MAX,
        ensures
            final(self).cursor() == char_wrapped_cursor(old(self).cursor(), character, width),
            write == if is_line_control(character) {
                None
            } else {
                Some(placed(old(self).cursor(), character, style))
            },
    {
        proof {
            use_type_invariant(&*self);
        }
        let at = self.cursor;
        if character == '\n' {
            self.cursor = Coord::new(0, at.y + 1);
            None
        } else if character == '\r' {
            self.cursor = Coord::new(0, at.y);
            None
        } else {
            if at.x + 1 >= width {
                self.cursor = Coord::new(0, at.y + 1);
            } else {
                self.cursor = Coord::new(at.x + 1, at.y);
            }
            Some(Placement { coord: at, cell: ViewCell { character: Some(character), style } })
        }
    }

    /// The number of lines that the text has reached so far.
    pub fn num_lines(&self) -> (lines: usize)
        ensures
            lines == lines_reached(self.cursor()),
    {
        proof {
            use_type_invariant(self);
        }
        self.cursor.y as usize + 1
    }
}

/// Where the cursor stands once `held` buffered cells are written from
/// `cursor` on, in lines of `width` columns: at the start of the next line
/// where they fill the line, else behind them.
pub open spec fn flushed_cursor(cursor: Coord, held: int, width: i32) -> Coord {
    if cursor.x + held == width {
        next_line(cursor)
    } else {
        advanced(cursor, held)
    }
}

/// The buffered cells, placed side by side from `cursor` on.
pub open spec fn flushed_cells<S>(cursor: Coord, pending: Seq<ViewCell<S>>) -> Seq<Placement<S>> {
    Seq::new(
        pending.len(),
        |i: int| Placement { coord: advanced(cursor, i), cell: pending[i] },
    )
}

/// Where the cursor stands after a blank is written at `cursor`.
pub open spec fn spaced_cursor(cursor: Coord, width: i32) -> Coord {
    if cursor.x == 0 {
        cursor
    } else if cursor.x + 1 == width {
        next_line(cursor)
    } else {
        advanced(cursor, 1)
    }
}

/// Whether the word wrapper, with `held` cells in its buffer, takes
/// `character`: the buffer with what is added to it has to fit in what is
/// left of the line, and the cursor must not run out of lines.
pub open spec fn word_takes(cursor: Coord, held: int, character: char, width: i32) -> bool {
    let flushed = flushed_cursor(cursor, held, width);
    if character == '\n' {
        cursor.x + held <= width && flushed.y < i32::MAX && (cursor.x + held == width ==> cursor.y
            < i32::MAX)
    } else if character == '\r' {
        cursor.x + held <= width && (cursor.x + held == width ==> cursor.y < i32::MAX)
    } else if character == ' ' {
        &&& cursor.x + held <= width
        &&& cursor.x + held == width ==> cursor.y < i32::MAX
        &&& flushed.x != 0 ==> flushed.x + 1 <= width
        &&& flushed.x != 0 && flushed.x + 1 == width ==> flushed.y < i32::MAX
    } else {
        &&& cursor.x + held + 1 <= width
        &&& cursor.x + held + 1 == width ==> cursor.y < i32::MAX
    }
}

/// Where the word wrapper's cursor stands after `character`.
pub open spec fn word_cursor(cursor: Coord, held: int, character: char, width: i32) -> Coord {
    let flushed = flushed_cursor(cursor, held, width);
    if character == '\n' {
        next_line(flushed)
    } else if character == '\r' {
        line_start(flushed)
    } else if character == ' ' {
        spaced_cursor(flushed, width)
    } else if cursor.x + held + 1 == width {
        next_line(cursor)
    } else {
        cursor
    }
}

/// What the word wrapper holds in its buffer after `character`: a character
/// of a word joins the buffer, which is emptied once it fills a whole line;
/// anything else ends the word and empties the buffer.
pub open spec fn word_pending<S>(
    cursor: Coord,
    pending: Seq<ViewCell<S>>,
    character: char,
    style: S,
    width: i32,
) -> Seq<ViewCell<S>> {
    if is_line_control(character) || character == ' ' {
        Seq::empty()
    } else if cursor.x == 0 && pending.len() + 1 == width {
        Seq::empty()
    } else {
        pending.push(ViewCell { character: Some(character), style })
    }
}

/// The cells that the word wrapper writes on `character`.
pub open spec fn word_writes<S>(
    cursor: Coord,
    pending: Seq<ViewCell<S>>,
    character: char,
    style: S,
    width: i32,
) -> Seq<Placement<S>> {
    let flushed = flushed_cursor(cursor, pending.len() as int, width);
    if is_line_control(character) {
        flushed_cells(cursor, pending)
    } else if character == ' ' {
        if flushed.x != 0 {
            flushed_cells(cursor, pending).push(placed(flushed, ' ', style))
        } else {
            flushed_cells(cursor, pending)
        }
    } else if cursor.x == 0 && pending.len() + 1 == width {
        flushed_cells(cursor, pending.push(ViewCell { character: Some(character), style }))
    } else {
        Seq::empty()
    }
}

/// Lays characters out in lines of a given width without breaking a word
/// that fits in a line: the characters of a word are held back until the
/// word ends, and a word that does not fit in what is left of the line
/// starts the next line.
#[derive(Debug)]
pub struct Word<S> {
    cursor: Coord,
    current_word_buffer: Vec<ViewCell<S>>,
}

impl<S: Clone> Clone for Word<S> {
    /// A wrapper at the same position that holds back a clone of each cell.
    fn clone(&self) -> (copy: Self)
        ensures
            copy.cursor() == self.cursor(),
            copy.pending().len() == self.pending().len(),
            forall|i: int|
                0 <= i < self.pending().len() ==> cloned(
                    self.pending()[i],
                    #[trigger] copy.pending()[i],
                ),
    {
        proof {
            use_type_invariant(self);
        }
        Word { cursor: self.cursor, current_word_buffer: self.current_word_buffer.clone() }
    }
}

impl<S> Word<S> {
    #[verifier::type_invariant]
    spec fn well_formed(self) -> bool {
        self.cursor.x >= 0 && self.cursor.y >= 0
    }

    /// Where the next cell is written.
    pub closed spec fn cursor(&self) -> Coord {
        self.cursor
    }

    /// The cells of the word that is not written yet.
    pub closed spec fn pending(&self) -> Seq<ViewCell<S>> {
        self.current_word_buffer@
    }

    pub fn new() -> (wrap: Self)
        ensures
            wrap.cursor() == (Coord { x: 0, y: 0 }),
            wrap.pending() == Seq::<ViewCell<S>>::empty(),
    {
        Word { cursor: Coord::new(0, 0), current_word_buffer: Vec::new() }
    }

    /// Puts the cursor back to the start of the text and drops the word that
    /// is held back.
    pub fn clear(&mut self)
        ensures
            final(self).cursor() == (Coord { x: 0, y: 0 }),
            final(self).pending() == Seq::<ViewCell<S>>::empty(),
    {
        self.cursor = Coord::new(0, 0);
        self.current_word_buffer = Vec::new();
    }

    /// Adds a cell to the word that is held back.
    fn hold(&mut self, cell: ViewCell<S>)
        ensures
            final(self).cursor() == old(self).cursor(),
            final(self).pending() == old(self).pending().push(cell),
    {
        proof {
            use_type_invariant(&*self);
        }
        let mut buffer: Vec<ViewCell<S>> = Vec::new();
        std::mem::swap(&mut buffer, &mut self.current_word_buffer);
        buffer.push(cell);
        self.current_word_buffer = buffer;
    }

    /// Writes the word that is held back, for lines of `width` columns, and
    /// moves the cursor behind it, or to the next line where the word ends at
    /// the line's end.
    pub fn flush(&mut self, width: i32) -> (writes: Vec<Placement<S>>)
        requires
            old(self).cursor().x + old(self).pending().len() <= width,
            old(self).cursor().x + old(self).pending().len() == width ==> old(self).cursor().y
                < i32::MAX,
        ensures
            final(self).cursor() == flushed_cursor(
                old(self).cursor(),
                old(self).pending().len() as int,
                width,
            ),
            final(self).pending() == Seq::<ViewCell<S>>::empty(),
            writes@ == flushed_cells(old(self).cursor(), old(self).pending()),
    {
        proof {
            use_type_invariant(&*self);
        }
        let start = self.cursor;
        let mut buffer: Vec<ViewCell<S>> = Vec::new();
        std::mem::swap(&mut buffer, &mut self.current_word_buffer);
        let ghost pending = buffer@;
        let mut writes: Vec<Placement<S>> = Vec::new();
        let mut x: i32 = start.x;
        for cell in cells: buffer.into_iter()
            invariant
                cells.seq() == pending,
                start.x + pending.len() <= width,
                x == start.x + cells.index(),
                writes@ == flushed_cells(start, pending.take(cells.index() as int)),
        {
            let ghost done = cells.index() as int;
            writes.push(Placement { coord: Coord::new(x, start.y), cell });
            x += 1;
            proof {
                assert(writes@ =~= flushed_cells(start, pending.take(done + 1)));
            }
        }
        proof {
            assert(pending.take(pending.len() as int) =~= pending);
        }
        if x == width {
            self.cursor = Coord::new(0, start.y + 1);
        } else {
            self.cursor = Coord::new(x, start.y);
        }
        writes
    }

    /// Takes the next character of the text, for lines of `width` columns,
    /// and returns the cells to write. A line feed, a carriage return and a
    /// blank end the word that is held back, which is then written; the
    /// blank is written after it unless it would start a line. Any other
    /// character joins the word that is held back. A word that has filled a
    /// whole line is written at once; a word that has reached the line's end
    /// from a later column moves whole to the next line.
    pub fn process_character(&mut self, character: char, style: S, width: i32) -> (writes: Vec<
        Placement<S>,
    >)
        requires
            word_takes(
                old(self).cursor(),
                old(self).pending().len() as int,
                character,
                width,
            ),
        ensures
            final(self).cursor() == word_cursor(
                old(self).cursor(),
                old(self).pending().len() as int,
                character,
                width,
            ),
            final(self).pending() == word_pending(
                old(self).cursor(),
                old(self).pending(),
                character,
                style,
                width,
            ),
            writes@ == word_writes(
                old(self).cursor(),
                old(self).pending(),
                character,
                style,
                width,
            ),
    {
        proof {
            use_type_invariant(&*self);
        }
        if character == '\n' {
            let writes = self.flush(width);
            self.cursor = Coord::new(0, self.cursor.y + 1);
            writes
        } else if character == '\r' {
            let writes = self.flush(width);
            self.cursor = Coord::new(0, self.cursor.y);
            writes
        } else if character == ' ' {
            let mut writes = self.flush(width);
            let at = self.cursor;
            if at.x != 0 {
                writes.push(Placement { coord: at, cell: ViewCell { character: Some(' '), style } });
                if at.x + 1 == width {
                    self.cursor = Coord::new(0, at.y + 1);
                } else {
                    self.cursor = Coord::new(at.x + 1, at.y);
                }
            }
            writes
        } else {
            let at = self.cursor;
            let held = self.current_word_buffer.len();
            self.hold(ViewCell { character: Some(character), style });
            if at.x + (held as i32) + 1 == width {
                if at.x == 0 {
                    self.flush(width)
                } else {
                    self.cursor = Coord::new(0, at.y + 1);
                    Vec::new()
                }
            } else {
                Vec::new()
            }
        }
    }

    /// The number of lines that the text has reached so far.
    pub fn num_lines(&self) -> (lines: usize)
        ensures
            lines == lines_reached(self.cursor()),
    {
        proof {
            use_type_invariant(self);
        }
        self.cursor.y as usize + 1
    }
}

/// While the cursor of the character wrapper stands inside a line, it stays
/// inside one: after any character it stands in a column of the line again.
pub proof fn char_wrap_stays_in_line(cursor: Coord, character: char, width: i32)
    requires
        0 <= cursor.x < width,
        cursor.y < i32::MAX,
    ensures
        0 <= char_wrapped_cursor(cursor, character, width).x < width,
        cursor.y <= char_wrapped_cursor(cursor, character, width).y <= cursor.y + 1,
{
}

/// While the word wrapper has room in the line for one more cell than it
/// holds back, it takes any character; every cell it then writes lies in the
/// cursor's row and in a column of the line; and afterwards it has such room
/// again, in the same line or the next.
pub proof fn word_wrap_keeps_room<S>(
    cursor: Coord,
    pending: Seq<ViewCell<S>>,
    character: char,
    style: S,
    width: i32,
)
    requires
        0 <= cursor.x,
        cursor.x + pending.len() < width,
        0 <= cursor.y < i32::MAX,
    ensures
        word_takes(cursor, pending.len() as int, character, width),
        0 <= word_cursor(cursor, pending.len() as int, character, width).x,
        word_cursor(cursor, pending.len() as int, character, width).x + word_pending(
            cursor,
            pending,
            character,
            style,
            width,
        ).len() < width,
        cursor.y <= word_cursor(cursor, pending.len() as int, character, width).y <= cursor.y + 1,
        forall|i: int|
            #![trigger word_writes(cursor, pending, character, style, width)[i]]
            0 <= i < word_writes(cursor, pending, character, style, width).len() ==> {
                let write = word_writes(cursor, pending, character, style, width)[i];
                0 <= write.coord.x < width && write.coord.y == cursor.y
            },
{
}

} // verus!
