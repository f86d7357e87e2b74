//! A plain text element and its layout in a box of cells.

use crate::coord::Vector2;
use vstd::prelude::*;
use vstd::std_specs::iter::IteratorSpec;

verus! {

broadcast use vstd::string::next_postcondition;

/// A character to write, with the cell it goes to.
#[derive(Debug, Clone, Copy, PartialEq, Eq)]
pub struct Glyph {
    pub coord: Vector2<i16>,
    pub character: char,
}

/// A string laid out in a box of `size` cells.
#[derive(Debug, Clone)]
pub struct Text {
    size: Vector2<u16>,
    string: String,
}

/// The character `character` in the cell at `coord`.
pub open spec fn glyph(coord: Vector2<i16>, character: char) -> Glyph {
    Glyph { coord, character }
}

/// The cells that `text` is written into from position `at` on, in a box
/// whose left column is `left` and whose first column and row outside are at
/// `end`. A line feed goes to the start of the next row, a carriage return to
/// the start of the row, and a character written into the last column is
/// followed by the start of the next row. The layout ends where it reaches
/// the row below the box.
pub open spec fn glyphs(left: i16, end: Vector2<i16>, at: Vector2<i16>, text: Seq<char>) -> Seq<
    Glyph,
>
    decreases text.len(),
{
    if text.len() == 0 {
        Seq::empty()
    } else {
        let character = text[0];
        let below = Vector2 { x: left, y: (at.y + 1) as i16 };
        if character == '\n' {
            if at.y + 1 == end.y {
                Seq::empty()
            } else {
                glyphs(left, end, below, text.drop_first())
            }
        } else if character == '\r' {
            glyphs(left, end, Vector2 { x: left, y: at.y }, text.drop_first())
        } else {
            let here = seq![glyph(at, character)];
            if at.x + 1 != end.x {
                here + glyphs(
                    left,
                    end,
                    Vector2 { x: (at.x + 1) as i16, y: at.y },
                    text.drop_first(),
                )
            } else if at.y + 1 == end.y {
                here
            } else {
                here + glyphs(left, end, below, text.drop_first())
            }
        }
    }
}

impl Text {
    /// The string that is laid out.
    pub closed spec fn string(&self) -> Seq<char> {
        self.string@
    }

    /// The extent of the box.
    pub closed spec fn size(&self) -> Vector2<u16> {
        self.size
    }

    /// The cells that the text is written into when its box has its top left
    /// corner at `offset`.
    pub open spec fn layout(&self, offset: Vector2<i16>) -> Seq<Glyph> {
        glyphs(
            offset.x,
            Vector2 {
                x: (offset.x + self.size().x) as i16,
                y: (offset.y + self.size().y) as i16,
            },
            offset,
            self.string(),
        )
    }

    /// Whether the layout at `offset` stays within the range of coordinates:
    /// the box does, and either it holds a cell, or the offset moved by the
    /// number of characters does.
    pub open spec fn fits_at(&self, offset: Vector2<i16>) -> bool {
        &&& self.size().x <= i16::MAX
        &&& self.size().y <= i16::MAX
        &&& offset.x + self.size().x <= i16::MAX
        &&& offset.y + self.size().y <= i16::MAX
        &&& (self.size().x >= 1 && self.size().y >= 1) || (offset.x + self.string().len()
            <= i16::MAX && offset.y + self.string().len() <= i16::MAX)
    }

    pub fn new(string: String, size: Vector2<u16>) -> (text: Self)
        ensures
            text.string() == string@,
            text.size() == size,
    {
        Self { size, string }
    }

    pub fn set_size(&mut self, size: Vector2<u16>)
        ensures
            final(self).size() == size,
            final(self).string() == old(self).string(),
    {
        self.size = size;
    }

    /// Puts `new` in place of the string and returns the string that was
    /// there.
    pub fn set(&mut self, new: String) -> (previous: String)
        ensures
            previous@ == old(self).string(),
            final(self).string() == new@,
            final(self).size() == old(self).size(),
    {
        let mut string = new;
        std::mem::swap(&mut string, &mut self.string);
        string
    }

    pub fn get(&self) -> (string: &String)
        ensures
            string@ == self.string(),
    {
        &self.string
    }

    /// The cells that the text is written into when its box has its top left
    /// corner at `offset`, in the order of the text.
    pub fn render(&self, offset: Vector2<i16>) -> (cells: Vec<Glyph>)
        requires
            self.fits_at(offset),
        ensures
            cells@ == self.layout(offset),
    {
        let left = offset.x;
        let end = Vector2 { x: offset.x + (self.size.x as i16), y: offset.y + (self.size.y as i16) };
        let boxed = self.size.x >= 1 && self.size.y >= 1;
        let ghost whole = self.layout(offset);
        let ghost total = self.string@.len() as int;
        let mut coord = offset;
        let mut cells: Vec<Glyph> = Vec::new();
        let mut chars = self.string.as_str().chars();
        loop
            invariant_except_break
                whole == cells@ + glyphs(left, end, coord, chars.remaining()),
                boxed ==> coord.x < end.x && coord.y < end.y,
            invariant
                chars.decrease() is Some,
                left == offset.x,
                offset.x <= coord.x,
                offset.y <= coord.y,
                !boxed ==> coord.x + chars.remaining().len() <= offset.x + total && coord.y
                    + chars.remaining().len() <= offset.y + total,
                !boxed ==> offset.x + total <= i16::MAX && offset.y + total <= i16::MAX,
            ensures
                whole == cells@,
            decreases chars.decrease()->0,
        {
            let ghost before = cells@;
            let ghost text = chars.remaining();
            let ghost at = coord;
            let taken = chars.next();
            proof {
                assert(text.len() == 0 ==> taken is None);
                assert(text.len() > 0 ==> taken == Some(text[0]) && chars.remaining()
                    == text.drop_first());
                assert(before + Seq::<Glyph>::empty() =~= before);
            }
            match taken {
                None => {
                    break ;
                },
                Some(ch) => {
                    let ghost here = seq![glyph(at, ch)];
                    if ch == '\n' {
                        coord = Vector2 { x: offset.x, y: coord.y + 1 };
                        if coord.y == end.y {
                            break ;
                        }
                    } else if ch == '\r' {
                        coord = Vector2 { x: offset.x, y: coord.y };
                    } else {
                        cells.push(Glyph { coord, character: ch });
                        proof {
                            assert(cells@ =~= before + here);
                        }
                        coord = Vector2 { x: coord.x + 1, y: coord.y };
                        proof {
                            assert(before + (here + glyphs(left, end, coord, text.drop_first()))
                                =~= (before + here) + glyphs(
                                left,
                                end,
                                coord,
                                text.drop_first(),
                            ));
                            let below = Vector2 { x: left, y: (at.y + 1) as i16 };
                            assert(before + (here + glyphs(left, end, below, text.drop_first()))
                                =~= (before + here) + glyphs(
                                left,
                                end,
                                below,
                                text.drop_first(),
                            ));
                        }
                        if coord.x == end.x {
                            coord = Vector2 { x: offset.x, y: coord.y + 1 };
                            if coord.y == end.y {
                                break ;
                            }
                        }
                    }
                },
            }
        }
        cells
    }
}

} // verus!
