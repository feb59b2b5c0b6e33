//! The rules of the game, stated over sets of squares.
//!
//! A position is abstracted to three sets of squares and two flags. What a
//! legal move is and which position follows a move are defined here without
//! any reference to bitboards; the executable engine is proved against these
//! definitions.

use vstd::prelude::*;
use crate::board::squares;
use crate::dir::{lemma_step_reversal, Dir};
use crate::mv::Move;
use crate::player::Player;
use crate::pos::{lemma_graphical_round_trip, Pos};

verus! {

/// A position as sets of squares.
#[verifier::ext_equal]
pub struct GameView {
    /// The side to move.
    pub side: Player,
    /// The piece that is in the middle of a chain of jumps, if any.
    pub jumping: Option<Pos>,
    /// The squares that hold a red piece.
    pub red: Set<Pos>,
    /// The squares that hold a black piece.
    pub blk: Set<Pos>,
    /// The squares that hold a king of either side.
    pub king: Set<Pos>,
}

/// Whether a square lies in the first or the last row, where a piece that
/// arrives is promoted.
pub open spec fn back_rank(p: Pos) -> bool {
    p.spec_y() == 0 || p.spec_y() == 7
}

impl GameView {
    /// The squares that hold a piece of `side`.
    pub open spec fn of(self, side: Player) -> Set<Pos> {
        match side {
            Player::BLK => self.blk,
            Player::RED => self.red,
        }
    }

    /// The squares of the board that hold no piece.
    pub open spec fn gap(self) -> Set<Pos> {
        squares().difference(self.blk.union(self.red))
    }

    /// The position with the pieces of `side` replaced by `own` and those of
    /// the other side by `opp`.
    pub open spec fn with_pieces(self, side: Player, own: Set<Pos>, opp: Set<Pos>) -> GameView {
        match side {
            Player::BLK => GameView { blk: own, red: opp, ..self },
            Player::RED => GameView { red: own, blk: opp, ..self },
        }
    }

    /// Whether the squares around the source of `m` admit the move for a
    /// piece of `side`: the piece on the source may move in that direction;
    /// for a simple move the next square is empty; for a jump the next
    /// square holds a piece of the other side and the square behind it is
    /// empty. Who owns the piece on the source is not looked at.
    pub open spec fn admits(self, side: Player, m: Move) -> bool {
        &&& m.dir.allowed(side, self.king.contains(m.src))
        &&& match m.dir.step(m.src) {
            Some(a) => if m.jump {
                self.of(side.other()).contains(a) && match m.dir.step(a) {
                    Some(b) => self.gap().contains(b),
                    None => false,
                }
            } else {
                self.gap().contains(a)
            },
            None => false,
        }
    }

    /// Whether a piece of `side` stands on `p` and can move from there in
    /// direction `d`, by a jump or by a simple move.
    pub open spec fn can(self, side: Player, p: Pos, d: Dir, jump: bool) -> bool {
        self.of(side).contains(p) && self.admits(side, Move { src: p, dir: d, jump })
    }

    /// The squares from which a piece of `side` has a simple move.
    pub open spec fn movables(self, side: Player) -> Set<Pos> {
        Set::new(
            |p: Pos|
                self.can(side, p, Dir::ForwardRight, false) || self.can(side, p, Dir::ForwardLeft, false)
                    || self.can(side, p, Dir::BackwardLeft, false) || self.can(
                    side,
                    p,
                    Dir::BackwardRight,
                    false,
                ),
        )
    }

    /// The squares from which a piece of `side` has a jump.
    pub open spec fn jumpables(self, side: Player) -> Set<Pos> {
        Set::new(
            |p: Pos|
                self.can(side, p, Dir::ForwardRight, true) || self.can(side, p, Dir::ForwardLeft, true)
                    || self.can(side, p, Dir::BackwardLeft, true) || self.can(
                    side,
                    p,
                    Dir::BackwardRight,
                    true,
                ),
        )
    }

    /// Whether the side to move has a jump, and so must jump.
    pub open spec fn must_jump(self) -> bool {
        exists|p: Pos| self.jumpables(self.side).contains(p)
    }

    /// Whether `m` is a legal move in this position. Where the side to move
    /// has a jump, only jumps are legal, and in the middle of a chain of
    /// jumps only those of the jumping piece. Where it has none, simple
    /// moves are legal, unless a chain of jumps is under way: then nothing
    /// is.
    pub open spec fn legal(self, m: Move) -> bool {
        &&& self.can(self.side, m.src, m.dir, m.jump)
        &&& m.jump == self.must_jump()
        &&& self.jumping matches Some(p) ==> m.jump && m.src == p
    }

    /// The squares from which the side to move may move at all: those with a
    /// jump where it must jump (only the jumping piece's, in the middle of a
    /// chain of jumps), else those with a simple move, and none where a
    /// chain of jumps is under way and no jump is left.
    pub open spec fn eligible(self) -> Set<Pos> {
        if self.must_jump() {
            match self.jumping {
                Some(p) => self.jumpables(self.side).intersect(set![p]),
                None => self.jumpables(self.side),
            }
        } else {
            match self.jumping {
                Some(_) => Set::<Pos>::empty(),
                None => self.movables(self.side),
            }
        }
    }

    /// Whether the side to move has no legal move.
    pub open spec fn stalled(self) -> bool {
        forall|m: Move| !self.legal(m)
    }

    /// The position after the piece on the source of `m` has moved, before
    /// it is asked whether the side then to move has a move. The piece
    /// leaves its square and lands on the destination; it is a king there if
    /// it was one or if the destination lies in the first or last row. A
    /// jump removes what stands on the square jumped over, keeps the turn
    /// and marks the piece as jumping; a simple move hands the turn over.
    pub open spec fn moved(self, m: Move) -> GameView {
        let dst = m.spec_dst().unwrap();
        let crowned = self.king.contains(m.src) || back_rank(dst);
        let own = self.of(self.side).remove(m.src).insert(dst);
        let king = if crowned {
            self.king.remove(m.src).insert(dst)
        } else {
            self.king.remove(m.src)
        };
        if m.jump {
            let mid = m.spec_mid().unwrap();
            let opp = self.of(self.side.other()).remove(mid);
            GameView { jumping: Some(dst), king: king.remove(mid), ..self }.with_pieces(
                self.side,
                own,
                opp,
            )
        } else {
            GameView { side: self.side.other(), jumping: None, king, ..self }.with_pieces(
                self.side,
                own,
                self.of(self.side.other()),
            )
        }
    }

    /// The position with the turn handed to the other side and no chain of
    /// jumps under way.
    pub open spec fn passed(self) -> GameView {
        GameView { side: self.side.other(), jumping: None, ..self }
    }

    /// The position that follows `m`: the position after the piece has
    /// moved, with the turn handed on once more where the side then to move
    /// has no legal move.
    pub open spec fn next(self, m: Move) -> GameView {
        let g = self.moved(m);
        if g.stalled() {
            g.passed()
        } else {
            g
        }
    }

    /// The side that has won: the one whose opponent has no piece left.
    /// With no black piece on the board red has won, whatever red has.
    pub open spec fn winner(self) -> Option<Player> {
        if self.blk =~= Set::<Pos>::empty() {
            Some(Player::RED)
        } else if self.red =~= Set::<Pos>::empty() {
            Some(Player::BLK)
        } else {
            None
        }
    }

    /// Whether the position is one of a game: all pieces stand on the
    /// board, no square holds two pieces, and only pieces are kings.
    pub open spec fn wf(self) -> bool {
        &&& self.blk.subset_of(squares())
        &&& self.red.subset_of(squares())
        &&& self.blk.disjoint(self.red)
        &&& self.king.subset_of(self.blk.union(self.red))
    }
}

/// A legal move starts on an eligible square and is a jump exactly where
/// the side must jump; and from an eligible square such a move is legal
/// exactly when the squares around it admit it.
pub proof fn lemma_legal_eligible(v: GameView, m: Move)
    ensures
        v.legal(m) ==> v.eligible().contains(m.src) && m.jump == v.must_jump(),
        v.eligible().contains(m.src) && m.jump == v.must_jump() ==> (v.legal(m) <==> v.admits(
            v.side,
            m,
        )),
{
    if v.legal(m) {
        let d = m.dir;
        assert(m == Move { src: m.src, dir: d, jump: m.jump });
        if m.jump {
            assert(v.jumpables(v.side).contains(m.src));
        } else {
            assert(v.movables(v.side).contains(m.src));
        }
    }
}

/// A legal move lands on the board.
pub proof fn lemma_legal_lands(v: GameView, m: Move)
    requires
        v.legal(m),
    ensures
        m.spec_dst() is Some,
        m.jump ==> m.spec_mid() is Some,
{
}

/// Mandatory capture: where the side to move has a jump, every legal move
/// is a jump.
pub proof fn lemma_mandatory_capture(v: GameView, m: Move)
    requires
        v.jumpables(v.side) != Set::<Pos>::empty(),
        v.legal(m),
    ensures
        m.jump,
{
    if forall|p: Pos| !v.jumpables(v.side).contains(p) {
        assert(v.jumpables(v.side) =~= Set::<Pos>::empty());
    }
}

/// In the middle of a chain of jumps every legal move is a jump of the
/// jumping piece.
pub proof fn lemma_chain_restriction(v: GameView, m: Move, p: Pos)
    requires
        v.jumping == Some(p),
        v.legal(m),
    ensures
        m.src == p,
        m.jump,
{
}

/// Promotion: a piece that lands in the first or the last row is a king in
/// the position that follows, and a king stays a king.
pub proof fn lemma_promotion(v: GameView, m: Move)
    requires
        m.spec_dst() is Some,
        back_rank(m.spec_dst().unwrap()) || v.king.contains(m.src),
    ensures
        v.next(m).king.contains(m.spec_dst().unwrap()),
{
    let dst = m.spec_dst().unwrap();
    if m.jump {
        let mid = m.spec_mid().unwrap();
        lemma_graphical_round_trip(m.src.spec_gx() + m.dir.dx(), m.src.spec_gy() + m.dir.dy());
        lemma_graphical_round_trip(mid.spec_gx() + m.dir.dx(), mid.spec_gy() + m.dir.dy());
        assert(dst.spec_gy() != mid.spec_gy());
    }
    assert(v.moved(m).king.contains(dst));
}

/// A legal move in a position of a game leads to a position of a game: no
/// square holds two pieces, and only pieces are kings.
pub proof fn lemma_next_wf(v: GameView, m: Move)
    requires
        v.wf(),
        v.legal(m),
    ensures
        v.moved(m).wf(),
        v.next(m).wf(),
{
    let src = m.src;
    assert(src.wf());
    let a = m.dir.step(src).unwrap();
    lemma_step_reversal(m.dir, src);
    if m.jump {
        lemma_step_reversal(m.dir, a);
    }
    let g = v.moved(m);
    assert(g.blk.subset_of(squares()));
    assert(g.red.subset_of(squares()));
    assert(g.blk.disjoint(g.red));
    assert(g.king.subset_of(g.blk.union(g.red)));
}

/// After a simple move the turn is with the other side, unless that side
/// has no legal move; after a jump the same side moves on with the piece
/// that jumped, unless nothing is left for it to do.
pub proof fn lemma_next_turn(v: GameView, m: Move)
    ensures
        v.moved(m).side == if m.jump {
            v.side
        } else {
            v.side.other()
        },
        v.moved(m).jumping == if m.jump {
            Some(m.spec_dst().unwrap())
        } else {
            None
        },
        v.moved(m).stalled() ==> v.next(m).side == v.moved(m).side.other() && v.next(m).jumping is None,
        !v.moved(m).stalled() ==> v.next(m) == v.moved(m),
{
}

} // verus!
