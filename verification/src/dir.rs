//! The four diagonal directions and how they move squares and bitboards.
//!
//! A direction is defined by what it does on the displayed grid: one cell
//! to the left or right and one cell up or down. "Forward" is toward
//! increasing packed rows, which is up the grid. On a bitboard the same step
//! is a mask followed by a shift, and since the squares of even and odd rows
//! sit half a cell apart, each direction needs one mask and shift per row
//! parity: its two latent directions.

use vstd::prelude::*;
use crate::bits::bit;
use crate::board::{shifted, Board};
use crate::player::Player;
use crate::pos::{lemma_graphical_round_trip, lemma_packed_round_trip, Pos};

verus! {

/// A diagonal direction of movement.
#[derive(Debug, Clone, Copy, PartialEq, Eq, PartialOrd, Ord, Structural)]
pub enum Dir {
    ForwardRight,
    ForwardLeft,
    BackwardLeft,
    BackwardRight,
}

impl Dir {
    /// Change of the horizontal grid coordinate in one step.
    pub open spec fn dx(self) -> int {
        match self {
            Dir::ForwardRight | Dir::BackwardRight => 1,
            Dir::ForwardLeft | Dir::BackwardLeft => -1,
        }
    }

    /// Change of the vertical grid coordinate in one step.
    pub open spec fn dy(self) -> int {
        match self {
            Dir::ForwardRight | Dir::ForwardLeft => -1,
            Dir::BackwardLeft | Dir::BackwardRight => 1,
        }
    }

    /// The direction that undoes this one.
    pub open spec fn opposite(self) -> Dir {
        match self {
            Dir::ForwardRight => Dir::BackwardLeft,
            Dir::ForwardLeft => Dir::BackwardRight,
            Dir::BackwardLeft => Dir::ForwardRight,
            Dir::BackwardRight => Dir::ForwardLeft,
        }
    }

    /// The square one step from `p` in this direction, or `None` where the
    /// step would leave the board.
    pub open spec fn step(self, p: Pos) -> Option<Pos> {
        Pos::spec_graphical(p.spec_gx() + self.dx(), p.spec_gy() + self.dy())
    }

    /// The squares reached by one step in this direction from a member of
    /// `s`; members whose step would leave the board reach nothing.
    pub open spec fn image(self, s: Set<Pos>) -> Set<Pos> {
        Set::new(|t: Pos| exists|p: Pos| s.contains(p) && p.wf() && #[trigger] self.step(p) == Some(t))
    }

    /// Whether an unpromoted piece of `side` advances in this direction.
    pub open spec fn advances(self, side: Player) -> bool {
        match self {
            Dir::ForwardRight | Dir::ForwardLeft => side == Player::BLK,
            Dir::BackwardLeft | Dir::BackwardRight => side == Player::RED,
        }
    }

    /// Whether a piece of `side` may move in this direction: a king in any,
    /// another piece only where it advances.
    pub open spec fn allowed(self, side: Player, king: bool) -> bool {
        king || self.advances(side)
    }

    /// Whether a piece of `p` may move in this direction from `pos`: the
    /// piece is a king or advances this way, and the step stays on the board.
    pub fn valid(self, p: Player, king: bool, pos: Pos) -> (r: bool)
        ensures
            r == (self.allowed(p, king) && self.step(pos) is Some),
    {
        self.valid_piece(p, king) && self.valid_pos(pos)
    }

    /// Moves every member of `target` one step in this direction; members
    /// whose step would leave the board are dropped.
    pub fn apply(self, target: Board) -> (r: Board)
        ensures
            r@ == self.image(target@),
    {
        let ls = self.latent();
        let r = ls[0].apply(target) | ls[1].apply(target);
        proof {
            assert(r@ =~= self.image(target@));
        }
        r
    }

    /// Whether a piece of `p` may move in this direction.
    pub fn valid_piece(self, p: Player, king: bool) -> (r: bool)
        ensures
            r == self.allowed(p, king),
    {
        match (self, p, king) {
            (_, _, true) => true,
            (Dir::ForwardRight, Player::BLK, _) => true,
            (Dir::ForwardLeft, Player::BLK, _) => true,
            (Dir::BackwardLeft, Player::RED, _) => true,
            (Dir::BackwardRight, Player::RED, _) => true,
            (_, _, _) => false,
        }
    }

    /// Whether one step from `target` in this direction stays on the board.
    pub fn valid_pos(self, target: Pos) -> (r: bool)
        ensures
            r == (self.step(target) is Some),
    {
        proof {
            use_type_invariant(target);
            lemma_step_packed(self, target);
        }
        let pad = target.y() % 2 == 0;
        let diff: (i8, i8) = match (self, pad) {
            (Dir::ForwardRight, true) => (0, 1),
            (Dir::ForwardRight, false) => (-1, 1),
            (Dir::ForwardLeft, true) => (1, 1),
            (Dir::ForwardLeft, false) => (0, 1),
            (Dir::BackwardLeft, true) => (1, -1),
            (Dir::BackwardLeft, false) => (0, -1),
            (Dir::BackwardRight, true) => (0, -1),
            (Dir::BackwardRight, false) => (-1, -1),
        };
        let mx: i8 = target.x() as i8 + diff.0;
        let my: i8 = target.y() as i8 + diff.1;
        (0 <= mx && mx < 4) && (0 <= my && my < 8)
    }

    /// The two latent directions that make up this one: first the one for
    /// the rows it shifts by four, then the other.
    fn latent(self) -> (r: [Latent; 2])
        ensures
            r[0].dir() == self,
            r[1].dir() == self,
            r[0].even() != r[1].even(),
    {
        match self {
            Dir::ForwardRight => [Latent::FA, Latent::FC],
            Dir::ForwardLeft => [Latent::FB, Latent::FD],
            Dir::BackwardLeft => [Latent::BA, Latent::BC],
            Dir::BackwardRight => [Latent::BB, Latent::BD],
        }
    }

    /// Place of the direction in the fixed order in which moves are
    /// generated.
    pub open spec fn rank(self) -> int {
        match self {
            Dir::ForwardRight => 0,
            Dir::ForwardLeft => 1,
            Dir::BackwardLeft => 2,
            Dir::BackwardRight => 3,
        }
    }

    /// Change of the packed index in one step from a row of the given parity.
    pub open spec fn delta(self, even: bool) -> int {
        match self {
            Dir::ForwardRight => if even { 4 } else { 3 },
            Dir::ForwardLeft => if even { 5 } else { 4 },
            Dir::BackwardLeft => if even { -3 } else { -4 },
            Dir::BackwardRight => if even { -4 } else { -5 },
        }
    }

    /// Whether a step from column `x` of row `y` stays on the board.
    pub open spec fn fits(self, x: int, y: int) -> bool {
        let even = y % 2 == 0;
        match self {
            Dir::ForwardRight => y < 7 && (even || x >= 1),
            Dir::ForwardLeft => y < 7 && (!even || x < 3),
            Dir::BackwardLeft => y >= 1 && (!even || x < 3),
            Dir::BackwardRight => y >= 1 && (even || x >= 1),
        }
    }
}

/// A direction restricted to the source squares of one row parity: on these
/// a step is one mask and one shift.
#[derive(Debug, Clone, Copy, PartialEq, Eq, Structural)]
pub enum Latent {
    FA,
    FB,
    FC,
    FD,
    BA,
    BB,
    BC,
    BD,
}

const MASK_FA: u32 = 0b0000_1111_0000_1111_0000_1111_0000_1111;

const MASK_BA: u32 = 0b1111_0000_1111_0000_1111_0000_1111_0000;

const MASK_FB: u32 = 0b0000_0000_1111_0000_1111_0000_1111_0000;

const MASK_BB: u32 = 0b0000_1111_0000_1111_0000_1111_0000_0000;

const MASK_FC: u32 = 0b0000_0000_1110_0000_1110_0000_1110_0000;

const MASK_BC: u32 = 0b0000_0111_0000_0111_0000_0111_0000_0000;

const MASK_FD: u32 = 0b0000_0111_0000_0111_0000_0111_0000_0111;

const MASK_BD: u32 = 0b1110_0000_1110_0000_1110_0000_1110_0000;

impl Latent {
    /// The direction that this is a part of.
    pub open spec fn dir(self) -> Dir {
        match self {
            Latent::FA | Latent::FC => Dir::ForwardRight,
            Latent::FB | Latent::FD => Dir::ForwardLeft,
            Latent::BA | Latent::BC => Dir::BackwardLeft,
            Latent::BB | Latent::BD => Dir::BackwardRight,
        }
    }

    /// Whether the source squares lie in the even rows (else in the odd).
    pub open spec fn even(self) -> bool {
        match self {
            Latent::FA | Latent::FD | Latent::BB | Latent::BC => true,
            Latent::FB | Latent::FC | Latent::BA | Latent::BD => false,
        }
    }

    /// The squares of the right row parity from which a step stays on the
    /// board.
    pub open spec fn sources(self) -> Set<Pos> {
        Set::new(|p: Pos| p.wf() && (p.spec_y() % 2 == 0) == self.even() && self.dir().step(p) is Some)
    }

    /// The squares reached by one step from a member of `s` in a row of the
    /// right parity.
    pub open spec fn image(self, s: Set<Pos>) -> Set<Pos> {
        self.dir().image(s.intersect(self.sources()))
    }

    /// Change of the packed index in one step.
    pub open spec fn spec_diff(self) -> int {
        self.dir().delta(self.even())
    }

    /// Moves every member of `target` in a row of the right parity one step;
    /// what would leave the board, and the members in the other rows, are
    /// dropped.
    pub fn apply(self, target: Board) -> (r: Board)
        ensures
            r@ == self.image(target@),
    {
        let masked = target & self.mask();
        let diff = self.diff();
        let r = if 0 <= diff {
            masked << diff
        } else {
            masked >> -diff
        };
        proof {
            let from = target@.intersect(self.sources());
            assert(masked@ =~= from);
            assert(r@ == shifted(from, self.spec_diff()));
            assert forall|t: Pos| r@.contains(t) == self.image(target@).contains(t) by {
                if r@.contains(t) {
                    let p = Pos::at(t.index() - self.spec_diff());
                    lemma_step_packed(self.dir(), p);
                    assert(from.contains(p) && p.wf() && self.dir().step(p) == Some(t));
                }
                if self.image(target@).contains(t) {
                    let p = choose|p: Pos| from.contains(p) && p.wf() && #[trigger] self.dir().step(p) == Some(t);
                    lemma_step_packed(self.dir(), p);
                    assert(Pos::at(t.index() - self.spec_diff()) == p);
                }
            }
            assert(r@ =~= self.image(target@));
        }
        r
    }

    /// The bitboard of the source squares.
    fn mask(self) -> (r: Board)
        ensures
            r@ == self.sources(),
    {
        let r = match self {
            Latent::FA => Board::new(MASK_FA),
            Latent::BA => Board::new(MASK_BA),
            Latent::FB => Board::new(MASK_FB),
            Latent::BB => Board::new(MASK_BB),
            Latent::FC => Board::new(MASK_FC),
            Latent::BC => Board::new(MASK_BC),
            Latent::FD => Board::new(MASK_FD),
            Latent::BD => Board::new(MASK_BD),
        };
        proof {
            assert forall|p: Pos| r@.contains(p) == self.sources().contains(p) by {
                if p.wf() {
                    lemma_mask_bits(self, p.index() as u32);
                    lemma_step_packed(self.dir(), p);
                }
            }
            assert(r@ =~= self.sources());
        }
        r
    }

    /// Change of the packed index in one step.
    fn diff(self) -> (r: i8)
        ensures
            r == self.spec_diff(),
    {
        match self {
            Latent::FA => 4,
            Latent::BA => -4,
            Latent::FB => 4,
            Latent::BB => -4,
            Latent::FC => 3,
            Latent::BC => -3,
            Latent::FD => 5,
            Latent::BD => -5,
        }
    }

    /// The mask of the source squares.
    spec fn spec_mask(self) -> u32 {
        match self {
            Latent::FA => MASK_FA,
            Latent::BA => MASK_BA,
            Latent::FB => MASK_FB,
            Latent::BB => MASK_BB,
            Latent::FC => MASK_FC,
            Latent::BC => MASK_BC,
            Latent::FD => MASK_FD,
            Latent::BD => MASK_BD,
        }
    }
}

/// Bit `j` of a latent direction's mask is set exactly when square `j` lies
/// in a row of the right parity and its step fits on the board.
proof fn lemma_mask_bits(l: Latent, j: u32)
    requires
        j < 32,
    ensures
        bit(l.spec_mask(), j as int) == (((j / 4) % 2 == 0) == l.even() && l.dir().fits(
            (j % 4) as int,
            (j / 4) as int,
        )),
{
    match l {
        Latent::FA => {
            assert(((MASK_FA >> j) & 1 == 1) == ((j / 4) % 2 == 0 && j / 4 < 7)) by (bit_vector)
                requires
                    j < 32,
            ;
        },
        Latent::BA => {
            assert(((MASK_BA >> j) & 1 == 1) == ((j / 4) % 2 == 1)) by (bit_vector)
                requires
                    j < 32,
            ;
        },
        Latent::FB => {
            assert(((MASK_FB >> j) & 1 == 1) == ((j / 4) % 2 == 1 && j / 4 < 7)) by (bit_vector)
                requires
                    j < 32,
            ;
        },
        Latent::BB => {
            assert(((MASK_BB >> j) & 1 == 1) == ((j / 4) % 2 == 0 && j / 4 >= 1)) by (bit_vector)
                requires
                    j < 32,
            ;
        },
        Latent::FC => {
            assert(((MASK_FC >> j) & 1 == 1) == ((j / 4) % 2 == 1 && j / 4 < 7 && j % 4 >= 1))
                by (bit_vector)
                requires
                    j < 32,
            ;
        },
        Latent::BC => {
            assert(((MASK_BC >> j) & 1 == 1) == ((j / 4) % 2 == 0 && j / 4 >= 1 && j % 4 < 3))
                by (bit_vector)
                requires
                    j < 32,
            ;
        },
        Latent::FD => {
            assert(((MASK_FD >> j) & 1 == 1) == ((j / 4) % 2 == 0 && j % 4 < 3)) by (bit_vector)
                requires
                    j < 32,
            ;
        },
        Latent::BD => {
            assert(((MASK_BD >> j) & 1 == 1) == ((j / 4) % 2 == 1 && j % 4 >= 1)) by (bit_vector)
                requires
                    j < 32,
            ;
        },
    }
}

/// One step in packed terms: from a square whose step fits on the board the
/// packed index changes by the direction's delta for the parity of the row,
/// and the row parity flips; from any other square there is no step.
pub proof fn lemma_step_packed(d: Dir, p: Pos)
    requires
        p.wf(),
    ensures
        d.fits(p.spec_x(), p.spec_y()) ==> {
            &&& 0 <= p.index() + d.delta(p.spec_y() % 2 == 0) < 32
            &&& d.step(p) == Some(Pos::at(p.index() + d.delta(p.spec_y() % 2 == 0)))
            &&& Pos::at(p.index() + d.delta(p.spec_y() % 2 == 0)).spec_y() == p.spec_y() - d.dy()
        },
        !d.fits(p.spec_x(), p.spec_y()) ==> d.step(p) is None,
{
    lemma_packed_round_trip(p);
    let x = p.spec_x();
    let y = p.spec_y();
    let gx = p.spec_gx();
    let gy = p.spec_gy();
    assert(p.index() == 4 * y + x);
    if y % 2 == 0 {
        assert(gx == 6 - 2 * x);
    } else {
        assert(gx == 7 - 2 * x);
    }
    if d.fits(x, y) {
        let tx = gx + d.dx();
        let ty = gy + d.dy();
        assert(0 <= tx < 8 && 0 <= ty < 8);
        assert((tx + ty) % 2 == 1);
        lemma_graphical_round_trip(tx, ty);
        let t = Pos::at(4 * (7 - ty) + (7 - tx) / 2);
        assert(d.step(p) == Some(t));
        assert(7 - ty == y - d.dy());
        if y % 2 == 0 {
            assert(7 - tx == 2 * x + 1 - d.dx());
        } else {
            assert(7 - tx == 2 * x - d.dx());
        }
        assert(4 * (7 - ty) + (7 - tx) / 2 == p.index() + d.delta(y % 2 == 0));
    } else {
        let tx = gx + d.dx();
        let ty = gy + d.dy();
        assert(!(0 <= tx < 8 && 0 <= ty < 8));
    }
}

/// Stepping in a direction and then in its opposite leads back to where the
/// step began.
pub proof fn lemma_step_reversal(d: Dir, p: Pos)
    requires
        p.wf(),
        d.step(p) is Some,
    ensures
        d.step(p).unwrap().wf(),
        d.opposite().step(d.step(p).unwrap()) == Some(p),
{
    lemma_packed_round_trip(p);
    let tx = p.spec_gx() + d.dx();
    let ty = p.spec_gy() + d.dy();
    lemma_graphical_round_trip(tx, ty);
    let t = d.step(p).unwrap();
    assert(t.spec_gx() + d.opposite().dx() == p.spec_gx());
    assert(t.spec_gy() + d.opposite().dy() == p.spec_gy());
}

/// A square is reached by a step from a member of `s` exactly when its step
/// in the opposite direction leads to a member of `s`.
pub proof fn lemma_image_contains(d: Dir, s: Set<Pos>, t: Pos)
    ensures
        d.image(s).contains(t) <==> t.wf() && d.opposite().step(t) is Some && s.contains(
            d.opposite().step(t).unwrap(),
        ),
{
    if d.image(s).contains(t) {
        let p = choose|p: Pos| s.contains(p) && p.wf() && #[trigger] d.step(p) == Some(t);
        lemma_step_reversal(d, p);
    }
    if t.wf() && d.opposite().step(t) is Some && s.contains(d.opposite().step(t).unwrap()) {
        let p = d.opposite().step(t).unwrap();
        lemma_step_reversal(d.opposite(), t);
        assert(s.contains(p) && p.wf() && d.step(p) == Some(t));
    }
}

/// Direction reversal on sets: a step and then a step in the opposite
/// direction lead every member back to itself, and lose the members whose
/// first step would leave the board.
pub proof fn lemma_image_reversal(d: Dir, s: Set<Pos>)
    ensures
        d.opposite().image(d.image(s)) == Set::new(
            |p: Pos| s.contains(p) && p.wf() && d.step(p) is Some,
        ),
{
    let back = d.opposite().image(d.image(s));
    let kept = Set::new(|p: Pos| s.contains(p) && p.wf() && d.step(p) is Some);
    assert(d.opposite().opposite() == d);
    assert forall|p: Pos| back.contains(p) == kept.contains(p) by {
        lemma_image_contains(d.opposite(), d.image(s), p);
        if p.wf() && d.step(p) is Some {
            let t = d.step(p).unwrap();
            lemma_step_reversal(d, p);
            lemma_image_contains(d, s, t);
        }
    }
    assert(back =~= kept);
}

/// From a single square a step reaches the one square that the direction
/// leads to, or nothing where the step would leave the board.
pub proof fn lemma_image_single(d: Dir, p: Pos)
    requires
        p.wf(),
    ensures
        d.image(set![p]) == match d.step(p) {
            Some(t) => set![t],
            None => Set::<Pos>::empty(),
        },
{
    let r = match d.step(p) {
        Some(t) => set![t],
        None => Set::<Pos>::empty(),
    };
    assert forall|t: Pos| d.image(set![p]).contains(t) == r.contains(t) by {
        if r.contains(t) {
            assert(set![p].contains(p) && p.wf() && d.step(p) == Some(t));
        }
    }
    assert(d.image(set![p]) =~= r);
}

} // verus!
