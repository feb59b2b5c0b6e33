//! The two kinds of piece.

use vstd::prelude::*;
use vstd::std_specs::ops::NotSpecImpl;

pub use self::Piece::{KING, PONE};

verus! {

/// The kind of a piece: a pone moves only toward the opponent's back rank,
/// a king in all four directions.
#[derive(Debug, PartialEq, Eq, Structural)]
pub enum Piece {
    PONE,
    KING,
}

impl Piece {
    /// The other kind.
    pub open spec fn other(self) -> Piece {
        match self {
            Piece::PONE => Piece::KING,
            Piece::KING => Piece::PONE,
        }
    }
}

impl core::ops::Not for Piece {
    type Output = Piece;

    /// The other kind.
    fn not(self) -> (r: Piece)
        ensures
            r == self.other(),
    {
        match self {
            Piece::PONE => Piece::KING,
            Piece::KING => Piece::PONE,
        }
    }
}

impl NotSpecImpl for Piece {
    open spec fn obeys_not_spec() -> bool {
        true
    }

    open spec fn not_req(self) -> bool {
        true
    }

    open spec fn not_spec(self) -> Piece {
        self.other()
    }
}

} // verus!
