//! Squares of the board: the packed index and the two coordinate systems.
//!
//! Only the 32 dark squares of the 8x8 board are playable. A square is
//! addressed by its packed index `4 * y + x`, with row `y` in `0..8` and
//! column `x` in `0..4`. On the displayed grid the same square has the
//! coordinates `(gx, gy)`, both in `0..8`; a grid cell is playable exactly
//! when `gx + gy` is odd.

use vstd::prelude::*;
use crate::bits::lemma_bit_single;
use crate::board::{lemma_empty_iff_zero, Board};

verus! {

/// A playable square, held as its packed index. The index stays below 32.
#[derive(Debug, Clone, Copy, Hash, PartialEq, Eq, PartialOrd, Ord, Structural)]
pub struct Pos(pub(crate) u8);

impl Pos {
    /// The packed index of the square.
    pub open(crate) spec fn index(self) -> int {
        self.0 as int
    }

    /// The square with packed index `i`, for `i` in `0..256`.
    pub open(crate) spec fn at(i: int) -> Pos {
        Pos(i as u8)
    }

    /// Whether the square lies on the board.
    #[verifier::type_invariant]
    pub open(crate) spec fn wf(self) -> bool {
        self.0 < 32
    }

    /// Column of the square within its row, in `0..4`.
    pub open spec fn spec_x(self) -> int {
        self.index() % 4
    }

    /// Row of the square, in `0..8`.
    pub open spec fn spec_y(self) -> int {
        self.index() / 4
    }

    /// Horizontal coordinate of the square on the displayed grid.
    pub open spec fn spec_gx(self) -> int {
        7 - (2 * self.spec_x() + (1 - self.spec_y() % 2))
    }

    /// Vertical coordinate of the square on the displayed grid.
    pub open spec fn spec_gy(self) -> int {
        7 - self.spec_y()
    }

    /// The playable square at the grid cell `(gx, gy)`, if the cell is on
    /// the grid and playable.
    pub open spec fn spec_graphical(gx: int, gy: int) -> Option<Pos> {
        if 0 <= gx < 8 && 0 <= gy < 8 && (gx + gy) % 2 == 1 {
            Some(Pos::at(4 * (7 - gy) + (7 - gx) / 2))
        } else {
            None
        }
    }

    /// The square with the packed index `v`.
    pub fn raw(v: u8) -> (r: Pos)
        requires
            v < 32,
        ensures
            r.wf(),
            r.index() == v,
    {
        Pos(v)
    }

    /// The square in column `x` of row `y`.
    pub fn new(x: u8, y: u8) -> (r: Pos)
        requires
            x < 4,
            y < 8,
        ensures
            r.wf(),
            r.index() == 4 * y + x,
            r.spec_x() == x,
            r.spec_y() == y,
    {
        assert((y << 2) == 4 * y) by (bit_vector)
            requires
                y < 8,
        ;
        Pos((y << 2) + x)
    }

    /// The playable square at the grid cell `(x, y)`; `None` exactly when
    /// `x + y` is even, that is when the cell is not playable.
    pub fn graphical(x: u8, y: u8) -> (r: Option<Pos>)
        requires
            x < 8,
            y < 8,
        ensures
            r == Pos::spec_graphical(x as int, y as int),
            r is None <==> (x + y) % 2 == 0,
            r matches Some(p) ==> p.wf() && p.spec_gx() == x && p.spec_gy() == y,
    {
        if (x + y) % 2 == 0 {
            return None;
        }
        proof {
            lemma_graphical_round_trip(x as int, y as int);
        }
        let ix: u8 = (7 - x) / 2;
        let iy: u8 = 7 - y;
        Some(Pos::new(ix, iy))
    }

    /// Column of the square within its row.
    pub fn x(self) -> (r: u8)
        ensures
            r == self.spec_x(),
            r < 4,
    {
        let v: u8 = self.0;
        assert(v & 0x3 == v % 4) by (bit_vector);
        self.0 & 0x3
    }

    /// Row of the square.
    pub fn y(self) -> (r: u8)
        ensures
            r == self.spec_y(),
            r < 8,
    {
        proof {
            use_type_invariant(self);
        }
        let v: u8 = self.0;
        assert(v >> 2 == v / 4) by (bit_vector);
        self.0 >> 2
    }

    /// Horizontal coordinate of the square on the displayed grid.
    pub fn gx(self) -> (r: u8)
        ensures
            r == self.spec_gx(),
            r < 8,
    {
        let x: u8 = self.x();
        assert(x << 1 == 2 * x) by (bit_vector)
            requires
                x < 4,
        ;
        7 - ((self.x() << 1) + (1 - (self.y() % 2)))
    }

    /// Vertical coordinate of the square on the displayed grid.
    pub fn gy(self) -> (r: u8)
        ensures
            r == self.spec_gy(),
            r < 8,
    {
        7 - self.y()
    }

    /// The bitboard whose only member is this square.
    pub fn board(self) -> (r: Board)
        ensures
            r@ == set![self],
    {
        proof {
            use_type_invariant(self);
            lemma_bit_single(self.0 as u32);
            assert(Board(1u32 << self.0)@ =~= set![self]);
        }
        Board::new(1 << self.0)
    }

    /// Whether this square is a member of `props`.
    pub fn is(self, props: Board) -> (r: bool)
        ensures
            r == props@.contains(self),
    {
        let one = props & self.board();
        proof {
            lemma_empty_iff_zero(one);
            if props@.contains(self) {
                assert(one@.contains(self));
            } else {
                assert(one@ =~= Set::<Pos>::empty());
            }
        }
        one != Board::empty()
    }
}

/// A playable grid cell converted to a square and back is the same cell.
pub proof fn lemma_graphical_round_trip(gx: int, gy: int)
    requires
        0 <= gx < 8,
        0 <= gy < 8,
        (gx + gy) % 2 == 1,
    ensures
        Pos::spec_graphical(gx, gy) matches Some(p) && p.wf() && p.spec_gx() == gx && p.spec_gy()
            == gy,
{
    let y = 7 - gy;
    let x = (7 - gx) / 2;
    let p = Pos::at(4 * y + x);
    assert(0 <= x < 4);
    assert(p.index() == 4 * y + x);
    assert(p.spec_y() == y && p.spec_x() == x);
    if gy % 2 == 0 {
        assert(gx % 2 == 1);
        assert(y % 2 == 1);
        assert(7 - gx == 2 * x);
    } else {
        assert(gx % 2 == 0);
        assert(y % 2 == 0);
        assert(7 - gx == 2 * x + 1);
    }
}

/// A square converted to its grid cell and back is the same square, and its
/// grid cell is playable.
pub proof fn lemma_packed_round_trip(p: Pos)
    requires
        p.wf(),
    ensures
        0 <= p.spec_x() < 4,
        0 <= p.spec_y() < 8,
        0 <= p.spec_gx() < 8,
        0 <= p.spec_gy() < 8,
        (p.spec_gx() + p.spec_gy()) % 2 == 1,
        Pos::spec_graphical(p.spec_gx(), p.spec_gy()) == Some(p),
{
    let i = p.index();
    let y = i / 4;
    let x = i % 4;
    assert(i == 4 * y + x);
    assert(0 <= x < 4 && 0 <= y < 8);
    let gx = p.spec_gx();
    let gy = p.spec_gy();
    if y % 2 == 0 {
        assert(gx == 6 - 2 * x);
        assert((7 - gx) / 2 == x);
        assert((gx + gy) % 2 == 1);
    } else {
        assert(gx == 7 - 2 * x);
        assert((7 - gx) / 2 == x);
        assert((gx + gy) % 2 == 1);
    }
    assert(Pos::at(4 * (7 - gy) + (7 - gx) / 2) == p);
}

} // verus!
