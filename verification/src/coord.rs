//! Positions on a grid of cells.

use vstd::prelude::*;

verus! {

/// A position on the grid of cells: `x` counts columns, `y` counts rows.
#[derive(Debug, Clone, Copy, PartialEq, Eq)]
pub struct Coord {
    pub x: i32,
    pub y: i32,
}

impl Coord {
    pub fn new(x: i32, y: i32) -> (coord: Self)
        ensures
            coord == (Coord { x, y }),
    {
        Coord { x, y }
    }
}

/// The extent of a box of cells: `x` columns by `y` rows.
#[derive(Debug, Clone, Copy, PartialEq, Eq)]
pub struct Size {
    pub x: u32,
    pub y: u32,
}

impl Size {
    pub fn new(x: u32, y: u32) -> (size: Self)
        ensures
            size == (Size { x, y }),
    {
        Size { x, y }
    }
}

/// A pair of a horizontal and a vertical component.
#[derive(Debug, Clone, Copy, PartialEq, Eq)]
pub struct Vector2<T> {
    pub x: T,
    pub y: T,
}

} // verus!
