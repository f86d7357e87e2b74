//! Text in parts, each part with a style of its own, and its layout in a box
//! of cells.

use crate::coord::{Coord, Size};
use crate::wrap::{placed, Placement, ViewCell};
use vstd::prelude::*;
use vstd::std_specs::iter::IteratorSpec;
use vstd::utf8::encode_utf8;

verus! {

broadcast use vstd::string::next_postcondition;

/// A section of text that has one style.
#[derive(Debug, Clone)]
pub struct RichTextPart<I> {
    pub string: String,
    pub info: I,
}

impl<I> From<(String, I)> for RichTextPart<I> {
    fn from(pair: (String, I)) -> (part: Self) {
        RichTextPart { string: pair.0, info: pair.1 }
    }
}

impl<I> vstd::std_specs::convert::FromSpecImpl<(String, I)> for RichTextPart<I> {
    open spec fn obeys_from_spec() -> bool {
        true
    }

    open spec fn from_spec(pair: (String, I)) -> Self {
        RichTextPart { string: pair.0, info: pair.1 }
    }
}

/// A text element of several parts, each styled differently, laid out in a
/// box of `size`.
#[derive(Debug, Clone)]
pub struct RichText<I> {
    pub parts: Vec<RichTextPart<I>>,
    pub size: Size,
}

/// How the layout goes on after a character.
pub enum Flow {
    /// With the next character.
    Go,
    /// With the next part: the rest of this part is dropped.
    NextPart,
    /// Not at all: the box is full.
    Stop,
}

/// Whether `character` is written into a cell: a line feed and a carriage
/// return only move the position.
pub open spec fn is_written(character: char) -> bool {
    character != '\n' && character != '\r'
}

/// The position after `character` was handled at `at`, in a box whose left
/// column is `left` and whose first column and row outside are at `end`.
pub open spec fn position_after(left: i32, end: Coord, at: Coord, character: char) -> Coord {
    if character == '\n' {
        Coord { x: left, y: (at.y + 1) as i32 }
    } else if character == '\r' {
        Coord { x: left, y: at.y }
    } else if at.x + 1 == end.x {
        Coord { x: left, y: (at.y + 1) as i32 }
    } else {
        Coord { x: (at.x + 1) as i32, y: at.y }
    }
}

/// How the layout goes on after `character` was handled at `at`: a line feed
/// that reaches the row below the box ends the part, a written character
/// that does so ends the layout.
pub open spec fn flow_after(end: Coord, at: Coord, character: char) -> Flow {
    if character == '\n' {
        if at.y + 1 == end.y {
            Flow::NextPart
        } else {
            Flow::Go
        }
    } else if character != '\r' && at.x + 1 == end.x && at.y + 1 == end.y {
        Flow::Stop
    } else {
        Flow::Go
    }
}

/// The layout of one part from position `at` on.
pub struct PartLayout<I> {
    /// The cells written, in the order of the text.
    pub cells: Seq<Placement<I>>,
    /// The position for the next part.
    pub at: Coord,
    /// Whether the layout ends with this part.
    pub stopped: bool,
}

/// The layout of the characters `text` of one part, styled by `info`, from
/// position `at` on.
pub open spec fn part_layout<I>(left: i32, end: Coord, at: Coord, text: Seq<char>, info: I)
    -> PartLayout<I>
    decreases text.len(),
{
    if text.len() == 0 {
        PartLayout { cells: Seq::empty(), at, stopped: false }
    } else {
        let character = text[0];
        let here = if is_written(character) {
            seq![placed(at, character, info)]
        } else {
            Seq::empty()
        };
        let next = position_after(left, end, at, character);
        match flow_after(end, at, character) {
            Flow::Go => {
                let rest = part_layout(left, end, next, text.drop_first(), info);
                PartLayout { cells: here + rest.cells, at: rest.at, stopped: rest.stopped }
            },
            Flow::NextPart => PartLayout { cells: here, at: next, stopped: false },
            Flow::Stop => PartLayout { cells: here, at: next, stopped: true },
        }
    }
}

/// The cells that the parts `parts` are written into, from position `at`
/// on, in the order of the text.
pub open spec fn parts_layout<I>(left: i32, end: Coord, at: Coord, parts: Seq<RichTextPart<I>>)
    -> Seq<Placement<I>>
    decreases parts.len(),
{
    if parts.len() == 0 {
        Seq::empty()
    } else {
        let first = part_layout(left, end, at, parts[0].string@, parts[0].info);
        if first.stopped {
            first.cells
        } else {
            first.cells + parts_layout(left, end, first.at, parts.drop_first())
        }
    }
}

/// The number of characters in all the parts.
pub open spec fn total_chars<I>(parts: Seq<RichTextPart<I>>) -> nat
    decreases parts.len(),
{
    if parts.len() == 0 {
        0
    } else {
        parts[0].string@.len() + total_chars(parts.drop_first())
    }
}

/// The number of bytes in the strings of all the parts.
pub open spec fn total_bytes<I>(parts: Seq<RichTextPart<I>>) -> nat
    decreases parts.len(),
{
    if parts.len() == 0 {
        0
    } else {
        total_bytes(parts.drop_last()) + encode_utf8(parts.last().string@).len()
    }
}

/// The cells that a text is written into when its box has its top left
/// corner at `offset`.
pub open spec fn text_layout<I>(text: RichText<I>, offset: Coord) -> Seq<Placement<I>> {
    parts_layout(
        offset.x,
        Coord { x: (offset.x + text.size.x) as i32, y: (offset.y + text.size.y) as i32 },
        offset,
        text.parts@,
    )
}

/// The cells of the whole text, given the layout `part` of one part and the
/// parts `rest` after it.
pub open spec fn continued<I>(left: i32, end: Coord, part: PartLayout<I>, rest: Seq<RichTextPart<I>>)
    -> Seq<Placement<I>> {
    if part.stopped {
        part.cells
    } else {
        part.cells + parts_layout(left, end, part.at, rest)
    }
}

/// The parts that pairs of a string and a style stand for.
pub open spec fn parts_of<I>(pairs: Seq<(String, I)>) -> Seq<RichTextPart<I>> {
    Seq::new(pairs.len(), |i: int| RichTextPart { string: pairs[i].0, info: pairs[i].1 })
}

/// The strings of the first parts hold no more bytes than those of all.
proof fn lemma_total_bytes_of_prefix<I>(parts: Seq<RichTextPart<I>>, n: int)
    requires
        0 <= n <= parts.len(),
    ensures
        total_bytes(parts.take(n)) <= total_bytes(parts),
    decreases parts.len(),
{
    if n == parts.len() {
        assert(parts.take(n) =~= parts);
    } else {
        assert(parts.drop_last().take(n) =~= parts.take(n));
        lemma_total_bytes_of_prefix(parts.drop_last(), n);
    }
}

/// Turns pairs of a string and a style into parts, in their order.
fn into_parts<I>(pairs: Vec<(String, I)>) -> (parts: Vec<RichTextPart<I>>)
    ensures
        parts@ == parts_of(pairs@),
{
    let mut parts: Vec<RichTextPart<I>> = Vec::new();
    let ghost all = pairs@;
    for pair in items: pairs.into_iter()
        invariant
            items.seq() == all,
            parts@ == parts_of(all.take(items.index() as int)),
    {
        let ghost done = items.index() as int;
        parts.push(RichTextPart::from(pair));
        proof {
            assert(parts@ =~= parts_of(all.take(done + 1)));
        }
    }
    proof {
        assert(all.take(all.len() as int) =~= all);
    }
    parts
}

impl<I> RichText<I> {
    /// A text of the given parts, in a box of `size`.
    pub fn new(parts: Vec<(String, I)>, size: Size) -> (text: Self)
        ensures
            text.parts@ == parts_of(parts@),
            text.size == size,
    {
        RichText { parts: into_parts(parts), size }
    }

    /// A text of the given parts in a box of one row, with a column for each
    /// byte of the parts' strings.
    pub fn one_line(parts: Vec<(String, I)>) -> (text: Self)
        requires
            total_bytes(parts_of(parts@)) <= usize::MAX,
        ensures
            text.parts@ == parts_of(parts@),
            text.size == (Size { x: total_bytes(parts_of(parts@)) as u32, y: 1 }),
    {
        let parts = into_parts(parts);
        let mut length: usize = 0;
        let mut i: usize = 0;
        while i < parts.len()
            invariant
                i <= parts@.len(),
                total_bytes(parts@) <= usize::MAX,
                length == total_bytes(parts@.take(i as int)),
            decreases parts@.len() - i,
        {
            proof {
                lemma_total_bytes_of_prefix(parts@, i + 1);
                assert(parts@.take(i + 1).drop_last() =~= parts@.take(i as int));
            }
            length = length + parts[i].string.as_str().len();
            i += 1;
        }
        proof {
            assert(parts@.take(parts@.len() as int) =~= parts@);
        }
        RichText { parts, size: Size::new(#[verifier::truncate] (length as u32), 1) }
    }
}

/// The plain layout of a text in parts: character after character from the
/// top left corner of the box, line after line.
pub struct DefaultRichTextView;

impl DefaultRichTextView {
    /// The cells that `data` is written into when its box has its top left
    /// corner at `offset`, in the order of the text. A line feed goes to the
    /// start of the next row, a carriage return to the start of the row, and
    /// a character written into the last column is followed by the start of
    /// the next row. The layout ends where a written character fills the
    /// box; a line feed that leaves the box ends its part only.
    ///
    /// The box and the text have to fit into the range of coordinates:
    /// neither the box's far corner nor the offset moved by the number of
    /// characters may pass `i32::MAX`.
    pub fn view<I: Copy>(&mut self, data: &RichText<I>, offset: Coord) -> (cells: Vec<
        Placement<I>,
    >)
        requires
            offset.x + data.size.x <= i32::MAX,
            offset.y + data.size.y <= i32::MAX,
            data.size.x <= i32::MAX,
            data.size.y <= i32::MAX,
            offset.x + total_chars(data.parts@) <= i32::MAX,
            offset.y + total_chars(data.parts@) <= i32::MAX,
        ensures
            cells@ == text_layout(*data, offset),
    {
        let left = offset.x;
        let end = Coord::new(offset.x + (data.size.x as i32), offset.y + (data.size.y as i32));
        let ghost whole = text_layout(*data, offset);
        let ghost total = total_chars(data.parts@) as int;
        let mut coord = offset;
        let mut cells: Vec<Placement<I>> = Vec::new();
        let mut stopped = false;
        let mut p: usize = 0;
        proof {
            assert(data.parts@.skip(0) =~= data.parts@);
        }
        while p < data.parts.len() && !stopped
            invariant
                p <= data.parts@.len(),
                left == offset.x,
                total == total_chars(data.parts@),
                offset.x + total <= i32::MAX,
                offset.y + total <= i32::MAX,
                offset.x <= coord.x,
                offset.y <= coord.y,
                coord.x + total_chars(data.parts@.skip(p as int)) <= offset.x + total,
                coord.y + total_chars(data.parts@.skip(p as int)) <= offset.y + total,
                whole == if stopped {
                    cells@
                } else {
                    cells@ + parts_layout(left, end, coord, data.parts@.skip(p as int))
                },
            decreases data.parts@.len() - p,
        {
            let part = &data.parts[p];
            let info = part.info;
            let ghost rest = data.parts@.skip(p + 1);
            let mut chars = part.string.as_str().chars();
            proof {
                assert(data.parts@.skip(p as int)[0] == data.parts@[p as int]);
                assert(data.parts@.skip(p as int).drop_first() =~= rest);
            }
            loop
                invariant_except_break
                    !stopped,
                    coord.x + chars.remaining().len() + total_chars(rest) <= offset.x + total,
                    coord.y + chars.remaining().len() + total_chars(rest) <= offset.y + total,
                    whole == cells@ + continued(
                        left,
                        end,
                        part_layout(left, end, coord, chars.remaining(), info),
                        rest,
                    ),
                invariant
                    chars.decrease() is Some,
                    left == offset.x,
                    offset.x + total <= i32::MAX,
                    offset.y + total <= i32::MAX,
                    offset.x <= coord.x,
                    offset.y <= coord.y,
                ensures
                    coord.x + total_chars(rest) <= offset.x + total,
                    coord.y + total_chars(rest) <= offset.y + total,
                    whole == if stopped {
                        cells@
                    } else {
                        cells@ + parts_layout(left, end, coord, rest)
                    },
                decreases chars.decrease()->0,
            {
                let ghost before = cells@;
                let ghost text = chars.remaining();
                let ghost at = coord;
                let taken = chars.next();
                proof {
                    assert(text.len() == 0 ==> taken is None);
                    assert(text.len() > 0 ==> taken == Some(text[0]) && chars.remaining()
                        == text.drop_first());
                }
                match taken {
                    None => {
                        proof {
                            assert(before + Seq::<Placement<I>>::empty() =~= before);
                            assert(Seq::<Placement<I>>::empty() + parts_layout(
                                left,
                                end,
                                coord,
                                rest,
                            ) =~= parts_layout(left, end, coord, rest));
                        }
                        break ;
                    },
                    Some(ch) => {
                        let ghost next = position_after(left, end, at, ch);
                        let ghost here = if is_written(ch) {
                            seq![placed(at, ch, info)]
                        } else {
                            Seq::empty()
                        };
                        let ghost after = part_layout(left, end, next, text.drop_first(), info);
                        let ghost part_here = part_layout(left, end, at, text, info);
                        proof {
                            assert(part_here == match flow_after(end, at, ch) {
                                Flow::Go => PartLayout {
                                    cells: here + after.cells,
                                    at: after.at,
                                    stopped: after.stopped,
                                },
                                Flow::NextPart => PartLayout {
                                    cells: here,
                                    at: next,
                                    stopped: false,
                                },
                                Flow::Stop => PartLayout { cells: here, at: next, stopped: true },
                            });
                        }
                        if ch == '\n' {
                            coord = Coord::new(offset.x, coord.y + 1);
                            if coord.y == end.y {
                                proof {
                                    assert(flow_after(end, at, ch) is NextPart);
                                    assert(coord == next);
                                    assert(here + parts_layout(left, end, next, rest)
                                        =~= parts_layout(left, end, next, rest));
                                }
                                break ;
                            }
                        } else if ch == '\r' {
                            coord = Coord::new(offset.x, coord.y);
                        } else {
                            cells.push(
                                Placement {
                                    coord,
                                    cell: ViewCell { character: Some(ch), style: info },
                                },
                            );
                            coord = Coord::new(coord.x + 1, coord.y);
                            proof {
                                assert(cells@ =~= before + here);
                            }
                            if coord.x == end.x {
                                coord = Coord::new(offset.x, coord.y + 1);
                                if coord.y == end.y {
                                    stopped = true;
                                    proof {
                                        assert(flow_after(end, at, ch) is Stop);
                                        assert(continued(left, end, part_here, rest) == here);
                                    }
                                    break ;
                                }
                            }
                        }
                        proof {
                            assert(flow_after(end, at, ch) is Go);
                            assert(coord == next);
                            assert(cells@ =~= before + here);
                            assert(before + continued(
                                left,
                                end,
                                PartLayout {
                                    cells: here + after.cells,
                                    at: after.at,
                                    stopped: after.stopped,
                                },
                                rest,
                            ) =~= (before + here) + continued(left, end, after, rest));
                        }
                    },
                }
            }
            p += 1;
        }
        proof {
            if !stopped {
                assert(cells@ + Seq::<Placement<I>>::empty() =~= cells@);
            }
        }
        cells
    }

    /// The size of the box that `data` is laid out in.
    pub fn size<I>(&mut self, data: &RichText<I>) -> (size: Size)
        ensures
            size == data.size,
    {
        data.size
    }
}

} // verus!
