//! What one square of the board shows.

use vstd::prelude::*;

verus! {

/// What stands on a square.
#[derive(Debug, Clone, Copy, PartialEq, Eq, Structural)]
pub enum CellKind {
    Empty,
    Red,
    Blk,
}

impl Default for CellKind {
    fn default() -> (r: CellKind)
        ensures
            r == CellKind::Empty,
    {
        CellKind::Empty
    }
}

/// A square as it is to be shown: what stands on it, whether that is a
/// king, whether the square is the one selected, and whether a click on it
/// would do anything.
#[derive(Debug, Clone, Copy, PartialEq, Eq, Structural)]
pub struct Cell {
    pub kind: CellKind,
    pub king: bool,
    pub selected: bool,
    pub selectable: bool,
}

impl Cell {
    pub fn new(kind: CellKind, king: bool, selected: bool, selectable: bool) -> (r: Cell)
        ensures
            r == (Cell { kind, king, selected, selectable }),
    {
        Cell { kind, king, selected, selectable }
    }
}

} // verus!
