//! Candidate moves: a source square, a direction, and whether the move is a
//! capturing jump.

use vstd::prelude::*;
use crate::dir::{lemma_image_single, lemma_step_packed, lemma_step_reversal, Dir};
use crate::pos::Pos;

verus! {

/// A candidate transition of one piece. Nothing in the value says that a
/// position admits it.
#[derive(Debug, PartialEq, Eq, PartialOrd, Ord, Structural)]
pub struct Move {
    pub src: Pos,
    pub dir: Dir,
    pub jump: bool,
}

impl Clone for Move {
    /// The same move.
    fn clone(&self) -> (r: Move)
        ensures
            r == *self,
    {
        Move { src: self.src, dir: self.dir, jump: self.jump }
    }
}

impl Move {
    /// The square next to the source in the move's direction: the square
    /// that a jump captures on.
    pub open spec fn spec_mid(self) -> Option<Pos> {
        self.dir.step(self.src)
    }

    /// The square where the piece lands: one step from the source, or two
    /// for a jump. `None` where that square is not on the board.
    pub open spec fn spec_dst(self) -> Option<Pos> {
        match self.dir.step(self.src) {
            Some(mid) => if self.jump {
                self.dir.step(mid)
            } else {
                Some(mid)
            },
            None => None,
        }
    }

    /// Place of the move in the order of generation: by source square, then
    /// by direction.
    pub open spec fn key(self) -> int {
        4 * self.src.index() + self.dir.rank()
    }

    /// The four candidates from `src`, one per direction.
    pub fn cands(src: Pos, jump: bool) -> (r: [Move; 4])
        ensures
            r[0] == (Move { src, jump, dir: Dir::ForwardRight }),
            r[1] == (Move { src, jump, dir: Dir::ForwardLeft }),
            r[2] == (Move { src, jump, dir: Dir::BackwardLeft }),
            r[3] == (Move { src, jump, dir: Dir::BackwardRight }),
    {
        [
            Move { src, jump, dir: Dir::ForwardRight },
            Move { src, jump, dir: Dir::ForwardLeft },
            Move { src, jump, dir: Dir::BackwardLeft },
            Move { src, jump, dir: Dir::BackwardRight },
        ]
    }

    /// Whether the move stays on the board, so that it has a destination.
    pub fn lands(&self) -> (r: bool)
        ensures
            r == (self.spec_dst() is Some),
    {
        if !self.dir.valid_pos(self.src) {
            return false;
        }
        if self.jump {
            self.dir.valid_pos(self.mid())
        } else {
            true
        }
    }

    /// The square where the piece lands.
    pub fn dst(&self) -> (r: Pos)
        requires
            self.spec_dst() is Some,
        ensures
            self.spec_dst() == Some(r),
            r.wf(),
    {
        proof {
            use_type_invariant(self.src);
            lemma_image_single(self.dir, self.src);
            lemma_step_reversal(self.dir, self.src);
        }
        let mut moved = self.dir.apply(self.src.board());
        if self.jump {
            proof {
                let mid = self.dir.step(self.src).unwrap();
                lemma_image_single(self.dir, mid);
                lemma_step_reversal(self.dir, mid);
            }
            moved = self.dir.apply(moved);
        }
        let v = moved.actives();
        proof {
            let t = self.spec_dst().unwrap();
            assert(moved@ == set![t]);
            assert(v@.contains(t));
            assert(moved@.contains(v@[0])) by {
                assert(v@.contains(v@[0]));
            }
        }
        v[0]
    }

    /// The square that a jump captures on.
    pub fn mid(&self) -> (r: Pos)
        requires
            self.spec_mid() is Some,
        ensures
            self.spec_mid() == Some(r),
            r.wf(),
    {
        proof {
            use_type_invariant(self.src);
            lemma_image_single(self.dir, self.src);
            lemma_step_reversal(self.dir, self.src);
        }
        let v = self.dir.apply(self.src.board()).actives();
        proof {
            let t = self.spec_mid().unwrap();
            assert(v@.contains(t));
            assert(set![t].contains(v@[0])) by {
                assert(v@.contains(v@[0]));
            }
        }
        v[0]
    }
}

/// Direction reversal: one step in the opposite direction from where a
/// simple move lands leads back to its source.
pub proof fn lemma_simple_move_reversal(m: Move)
    requires
        m.src.wf(),
        !m.jump,
        m.spec_dst() is Some,
    ensures
        m.dir.opposite().step(m.spec_dst().unwrap()) == Some(m.src),
{
    lemma_step_reversal(m.dir, m.src);
}

/// A jump lands two steps from its source, and from there two steps in the
/// opposite direction lead back over the square jumped.
pub proof fn lemma_jump_reversal(m: Move)
    requires
        m.src.wf(),
        m.jump,
        m.spec_dst() is Some,
    ensures
        m.dir.opposite().step(m.spec_dst().unwrap()) == m.spec_mid(),
        m.dir.opposite().step(m.spec_mid().unwrap()) == Some(m.src),
        m.spec_dst().unwrap() != m.src,
        m.spec_dst().unwrap() != m.spec_mid().unwrap(),
{
    lemma_step_reversal(m.dir, m.src);
    let mid = m.spec_mid().unwrap();
    lemma_step_reversal(m.dir, mid);
    lemma_step_packed(m.dir, m.src);
    lemma_step_packed(m.dir, mid);
}

} // verus!
