//! The position and its transitions: legal moves, the position after a
//! move, and the winner.

use vstd::prelude::*;
use core::ops::Not;
use crate::bits::bit;
use crate::board::{lemma_empty_iff_zero, lemma_view_injective, squares, Board};
use crate::dir::{
    lemma_image_contains, lemma_image_single, lemma_step_packed, lemma_step_reversal, Dir,
};
use crate::mv::Move;
use crate::player::Player;
use crate::pos::Pos;
use crate::rules::{back_rank, lemma_legal_eligible, lemma_next_wf, GameView};

verus! {

/// A position: the side to move, the piece in the middle of a chain of
/// jumps if there is one, and the bitboards of the red pieces, of the black
/// pieces and of the kings.
#[derive(Debug, Hash, PartialEq, Eq, Structural)]
pub struct Game {
    pub side: Player,
    pub jumping: Option<Pos>,
    pub red: Board,
    pub blk: Board,
    pub king: Board,
}

const PROMOTION_MASK: u32 = 0b1111_0000_0000_0000_0000_0000_0000_1111;

/// Bit `j` of the promotion mask is set exactly when square `j` lies in the
/// first or the last row.
proof fn lemma_promotion_mask(j: u32)
    requires
        j < 32,
    ensures
        bit(PROMOTION_MASK, j as int) == (j / 4 == 0 || j / 4 == 7),
{
    assert(((PROMOTION_MASK >> j) & 1 == 1) == (j / 4 == 0 || j / 4 == 7)) by (bit_vector)
        requires
            j < 32,
    ;
}

impl View for Game {
    type V = GameView;

    open spec fn view(&self) -> GameView {
        GameView {
            side: self.side,
            jumping: self.jumping,
            red: self.red@,
            blk: self.blk@,
            king: self.king@,
        }
    }
}

impl Clone for Game {
    /// The same position.
    fn clone(&self) -> (g: Game)
        ensures
            g == *self,
    {
        Game {
            side: self.side,
            jumping: self.jumping,
            red: self.red,
            blk: self.blk,
            king: self.king,
        }
    }
}

impl Default for Game {
    /// The empty board with red to move.
    fn default() -> (g: Game)
        ensures
            g.side == Player::RED,
            g.jumping is None,
            g.red@ == Set::<Pos>::empty(),
            g.blk@ == Set::<Pos>::empty(),
            g.king@ == Set::<Pos>::empty(),
    {
        Game {
            side: Player::RED,
            jumping: None,
            red: Board::empty(),
            blk: Board::empty(),
            king: Board::empty(),
        }
    }
}

impl Game {
    /// The legal moves of the side to move, each once, by ascending source
    /// square and, from one square, in the order of the directions.
    ///
    /// Where the side has a jump every move is a jump, and in the middle of
    /// a chain of jumps every move is one of the jumping piece.
    pub fn moves(&self) -> (r: Vec<Move>)
        ensures
            forall|m: Move| r@.contains(m) <==> self@.legal(m),
            forall|i: int, j: int| 0 <= i < j < r.len() ==> r[i].key() < r[j].key(),
            self@.jumpables(self.side) != Set::<Pos>::empty() ==> forall|i: int|
                0 <= i < r.len() ==> r[i].jump,
            forall|i: int|
                0 <= i < r.len() ==> (self.jumping matches Some(p) ==> (#[trigger] r[i]).src == p),
            forall|i: int| 0 <= i < r.len() ==> (#[trigger] r[i]).spec_dst() is Some,
            r@.no_duplicates(),
            r.len() == 0 <==> self@.stalled(),
    {
        let jumpables = self.jumpables();
        let jumped = jumpables != Board::empty();
        let movables = match (self.jumping, jumped) {
            (Some(pos), true) => jumpables & pos.board(),
            (Some(_), false) => Board::empty(),
            (None, true) => jumpables,
            (None, false) => self.movables(),
        };
        proof {
            lemma_empty_iff_zero(jumpables);
            if jumped {
                assert(exists|p: Pos| jumpables@.contains(p)) by {
                    if forall|p: Pos| !jumpables@.contains(p) {
                        assert(jumpables@ =~= Set::<Pos>::empty());
                    }
                }
            }
            assert(jumped == self@.must_jump());
            assert(movables@ == self@.eligible());
        }
        let sources = movables.actives();
        let mut out: Vec<Move> = Vec::new();
        let ghost mut lo: int = 0;
        let mut i: usize = 0;
        while i < sources.len()
            invariant
                0 <= i <= sources.len(),
                0 <= lo <= 32,
                jumped == self@.must_jump(),
                movables@ == self@.eligible(),
                forall|p: Pos| sources@.contains(p) <==> movables@.contains(p),
                forall|a: int, b: int| 0 <= a < b < sources.len() ==> sources[a].index() < sources[b].index(),
                forall|a: int| 0 <= a < i ==> sources[a].index() < lo,
                i < sources.len() ==> lo <= sources[i as int].index(),
                forall|j: int| 0 <= j < out.len() ==> self@.legal(#[trigger] out[j]),
                forall|j: int| 0 <= j < out.len() ==> (#[trigger] out[j]).key() < 4 * lo,
                forall|a: int, b: int| 0 <= a < b < out.len() ==> out[a].key() < out[b].key(),
                forall|m: Move|
                    self@.legal(m) && m.key() < 4 * lo ==> exists|j: int|
                        0 <= j < out.len() && #[trigger] out[j] == m,
            decreases sources.len() - i,
        {
            let p = sources[i];
            let cands = Move::cands(p, jumped);
            proof {
                use_type_invariant(p);
                assert(sources@.contains(p));
                assert forall|m: Move| self@.legal(m) && m.key() < 4 * p.index() implies exists|j: int|
                    0 <= j < out.len() && #[trigger] out[j] == m by {
                    if m.key() >= 4 * lo {
                        lemma_legal_eligible(self@, m);
                        assert(sources@.contains(m.src));
                        let a = choose|a: int| 0 <= a < sources.len() && sources@[a] == m.src;
                        if a < i {
                        } else if a > i {
                            assert(sources[i as int].index() < sources[a].index());
                        }
                        assert(false);
                    }
                }
            }
            let mut k: usize = 0;
            while k < 4
                invariant
                    0 <= k <= 4,
                    p.wf(),
                    jumped == self@.must_jump(),
                    self@.eligible().contains(p),
                    cands[0] == (Move { src: p, jump: jumped, dir: Dir::ForwardRight }),
                    cands[1] == (Move { src: p, jump: jumped, dir: Dir::ForwardLeft }),
                    cands[2] == (Move { src: p, jump: jumped, dir: Dir::BackwardLeft }),
                    cands[3] == (Move { src: p, jump: jumped, dir: Dir::BackwardRight }),
                    forall|j: int| 0 <= j < out.len() ==> self@.legal(#[trigger] out[j]),
                    forall|j: int| 0 <= j < out.len() ==> (#[trigger] out[j]).key() < 4 * p.index() + k,
                    forall|a: int, b: int| 0 <= a < b < out.len() ==> out[a].key() < out[b].key(),
                    forall|m: Move|
                        self@.legal(m) && m.key() < 4 * p.index() + k ==> exists|j: int|
                            0 <= j < out.len() && #[trigger] out[j] == m,
                decreases 4 - k,
            {
                let c = cands[k].clone();
                assert(c.key() == 4 * p.index() + k);
                let ok = self.valid(&c);
                proof {
                    lemma_legal_eligible(self@, c);
                    assert forall|m: Move| self@.legal(m) && m.key() == 4 * p.index() + k implies m
                        == c by {
                        lemma_legal_eligible(self@, m);
                        assert(m.src.index() == p.index());
                        assert(m.dir.rank() == k);
                    }
                }
                if ok {
                    let ghost before = out@;
                    out.push(c);
                    proof {
                        assert forall|m: Move|
                            self@.legal(m) && m.key() < 4 * p.index() + k + 1 implies exists|j: int|
                            0 <= j < out.len() && #[trigger] out[j] == m by {
                            if m.key() < 4 * p.index() + k {
                                let j = choose|j: int| 0 <= j < before.len() && #[trigger] before[j] == m;
                                assert(out[j] == m);
                            } else {
                                assert(out[before.len() as int] == m);
                            }
                        }
                    }
                }
                k = k + 1;
            }
            proof {
                lo = p.index() + 1;
            }
            i = i + 1;
        }
        proof {
            assert forall|m: Move| self@.legal(m) implies out@.contains(m) by {
                lemma_legal_eligible(self@, m);
                assert(sources@.contains(m.src));
                let a = choose|a: int| 0 <= a < sources.len() && sources@[a] == m.src;
                assert(m.key() < 4 * lo);
                let j = choose|j: int| 0 <= j < out.len() && #[trigger] out[j] == m;
                assert(out@[j] == m);
            }
            assert forall|m: Move| out@.contains(m) implies self@.legal(m) by {
                let j = choose|j: int| 0 <= j < out.len() && out@[j] == m;
                assert(self@.legal(out[j]));
            }
            assert forall|j: int| 0 <= j < out.len() implies (self.jumping matches Some(q) ==> (
            #[trigger] out[j]).src == q) by {
                assert(self@.legal(out[j]));
            }
            if self@.jumpables(self.side) != Set::<Pos>::empty() {
                assert forall|j: int| 0 <= j < out.len() implies out[j].jump by {
                    assert(self@.legal(out[j]));
                }
            }
            if out.len() > 0 {
                assert(self@.legal(out[0]));
            }
            assert forall|j: int| 0 <= j < out.len() implies (#[trigger] out[j]).spec_dst() is Some by {
                assert(self@.legal(out[j]));
            }
            assert forall|a: int, b: int| 0 <= a < out.len() && 0 <= b < out.len() && a != b implies out@[a]
                != out@[b] by {
                if a < b {
                    assert(out[a].key() < out[b].key());
                } else {
                    assert(out[b].key() < out[a].key());
                }
            }
        }
        out
    }

    /// The position that follows `m`.
    ///
    /// The piece moves as `m` says, whether or not `m` is legal here; `m`
    /// only has to stay on the board. A piece that lands in the first or
    /// the last row is a king from then on. Where the side that would move
    /// next has no legal move, the turn goes to the other side straight
    /// away. A legal move keeps the two sides on different squares and the
    /// kings among the pieces.
    pub fn apply(&self, m: &Move) -> (g: Game)
        requires
            m.spec_dst() is Some,
        ensures
            g@ == self@.next(*m),
            back_rank(m.spec_dst().unwrap()) ==> g.king@.contains(m.spec_dst().unwrap()),
            self.king@.contains(m.src) ==> g.king@.contains(m.spec_dst().unwrap()),
            self@.moved(*m).stalled() ==> g.side == self@.moved(*m).side.other() && g.jumping is None,
            !self@.moved(*m).stalled() ==> !g@.stalled(),
            self@.wf() && self@.legal(*m) ==> g@.wf(),
    {
        let (own, other) = match self.side {
            Player::BLK => (self.blk, self.red),
            Player::RED => (self.red, self.blk),
        };
        let mut slf = own;
        let mut opp = other;
        let mut king = self.king;

        let is_king = m.src.is(king);

        let src_mask = m.src.board().not();
        slf = slf & src_mask;
        king = king & src_mask;

        let dst = m.dst();
        let dst_mask = dst.board();
        let crown = dst_mask & Board::new(PROMOTION_MASK);
        proof {
            lemma_empty_iff_zero(crown);
            lemma_promotion_mask(dst.index() as u32);
            if back_rank(dst) {
                assert(crown@.contains(dst));
            } else {
                assert(crown@ =~= Set::<Pos>::empty());
            }
        }
        let is_promotion = crown != Board::empty();

        slf = slf | dst_mask;
        if is_king || is_promotion {
            king = king | dst_mask;
        }
        let side;
        let jumping;
        if m.jump {
            let mid = m.mid();
            proof {
                use_type_invariant(mid);
                lemma_step_packed(m.dir, mid);
            }
            let mid_mask = mid.board().not();
            opp = opp & mid_mask;
            king = king & mid_mask;
            side = self.side;
            jumping = Some(dst);
        } else {
            side = self.side.not();
            jumping = None;
        }
        let (blk, red) = match self.side {
            Player::BLK => (slf, opp),
            Player::RED => (opp, slf),
        };
        let mut g = Game { side, jumping, red, blk, king };
        proof {
            let v = self@.moved(*m);
            if self@.wf() && self@.legal(*m) {
                lemma_next_wf(self@, *m);
            }
            assert(g@.blk =~= v.blk);
            assert(g@.red =~= v.red);
            assert(g@.king =~= v.king);
            assert(g@ == v);
        }
        if g.moves().len() == 0 {
            g.side = g.side.not();
            g.jumping = None;
        }
        g
    }

    /// The side that has won, if any: the side whose opponent has no piece
    /// left. A side that has pieces but no move has not lost by this.
    pub fn winner(&self) -> (r: Option<Player>)
        ensures
            r == self@.winner(),
            r == Some(Player::RED) <==> self.blk@ == Set::<Pos>::empty(),
            r == Some(Player::BLK) <==> self.blk@ != Set::<Pos>::empty() && self.red@ == Set::<
                Pos,
            >::empty(),
    {
        proof {
            lemma_empty_iff_zero(self.blk);
            lemma_empty_iff_zero(self.red);
        }
        if self.blk == Board::empty() {
            Some(Player::RED)
        } else if self.red == Board::empty() {
            Some(Player::BLK)
        } else {
            None
        }
    }

    /// The squares that hold no piece.
    pub fn gap(&self) -> (r: Board)
        ensures
            r@ == self@.gap(),
    {
        (self.blk | self.red).not()
    }

    /// The squares from which the side to move has a simple move.
    pub fn movables(&self) -> (r: Board)
        ensures
            r@ == self@.movables(self.side),
    {
        match self.side {
            Player::BLK => self.blk_movables(),
            Player::RED => self.red_movables(),
        }
    }

    /// The squares from which black has a simple move.
    fn blk_movables(&self) -> (r: Board)
        ensures
            r@ == self@.movables(Player::BLK),
    {
        let gap = self.gap();
        let b = self.blk;
        let bk = self.blk & self.king;
        let mut movables = Board::empty();
        movables = movables | ((Dir::BackwardLeft.apply(gap) | Dir::BackwardRight.apply(gap)) & b);
        movables = movables | ((Dir::ForwardLeft.apply(gap) | Dir::ForwardRight.apply(gap)) & bk);
        proof {
            assert forall|p: Pos| movables@.contains(p) == self@.movables(Player::BLK).contains(p) by {
                lemma_image_contains(Dir::BackwardLeft, gap@, p);
                lemma_image_contains(Dir::BackwardRight, gap@, p);
                lemma_image_contains(Dir::ForwardLeft, gap@, p);
                lemma_image_contains(Dir::ForwardRight, gap@, p);
            }
            assert(movables@ =~= self@.movables(Player::BLK));
        }
        movables
    }

    /// The squares from which red has a simple move.
    fn red_movables(&self) -> (r: Board)
        ensures
            r@ == self@.movables(Player::RED),
    {
        let gap = self.gap();
        let r = self.red;
        let rk = self.red & self.king;
        let mut movables = Board::empty();
        movables = movables | ((Dir::ForwardLeft.apply(gap) | Dir::ForwardRight.apply(gap)) & r);
        movables = movables | ((Dir::BackwardLeft.apply(gap) | Dir::BackwardRight.apply(gap)) & rk);
        proof {
            assert forall|p: Pos| movables@.contains(p) == self@.movables(Player::RED).contains(p) by {
                lemma_image_contains(Dir::BackwardLeft, gap@, p);
                lemma_image_contains(Dir::BackwardRight, gap@, p);
                lemma_image_contains(Dir::ForwardLeft, gap@, p);
                lemma_image_contains(Dir::ForwardRight, gap@, p);
            }
            assert(movables@ =~= self@.movables(Player::RED));
        }
        movables
    }

    /// The squares from which the side to move has a jump.
    pub fn jumpables(&self) -> (r: Board)
        ensures
            r@ == self@.jumpables(self.side),
    {
        match self.side {
            Player::BLK => self.blk_jumpables(),
            Player::RED => self.red_jumpables(),
        }
    }

    /// The squares from which black has a jump.
    fn blk_jumpables(&self) -> (r: Board)
        ensures
            r@ == self@.jumpables(Player::BLK),
    {
        let gap = self.gap();
        let b = self.blk;
        let bk = self.blk & self.king;
        let mut movables = Board::empty();

        let t1 = Dir::BackwardLeft.apply(gap) & self.red;
        movables = movables | (Dir::BackwardLeft.apply(t1) & b);

        let t2 = Dir::BackwardRight.apply(gap) & self.red;
        movables = movables | (Dir::BackwardRight.apply(t2) & b);

        let t3 = Dir::ForwardLeft.apply(gap) & self.red;
        movables = movables | (Dir::ForwardLeft.apply(t3) & bk);

        let t4 = Dir::ForwardRight.apply(gap) & self.red;
        movables = movables | (Dir::ForwardRight.apply(t4) & bk);

        proof {
            assert forall|p: Pos| movables@.contains(p) == self@.jumpables(Player::BLK).contains(p) by {
                lemma_jump_image(Dir::BackwardLeft, gap@, self.red@, p);
                lemma_jump_image(Dir::BackwardRight, gap@, self.red@, p);
                lemma_jump_image(Dir::ForwardLeft, gap@, self.red@, p);
                lemma_jump_image(Dir::ForwardRight, gap@, self.red@, p);
            }
            assert(movables@ =~= self@.jumpables(Player::BLK));
        }
        movables
    }

    /// The squares from which red has a jump.
    fn red_jumpables(&self) -> (r: Board)
        ensures
            r@ == self@.jumpables(Player::RED),
    {
        let gap = self.gap();
        let r = self.red;
        let rk = self.red & self.king;
        let mut movables = Board::empty();

        let t1 = Dir::ForwardLeft.apply(gap) & self.blk;
        movables = movables | (Dir::ForwardLeft.apply(t1) & r);

        let t2 = Dir::ForwardRight.apply(gap) & self.blk;
        movables = movables | (Dir::ForwardRight.apply(t2) & r);

        let t3 = Dir::BackwardLeft.apply(gap) & self.blk;
        movables = movables | (Dir::BackwardLeft.apply(t3) & rk);

        let t4 = Dir::BackwardRight.apply(gap) & self.blk;
        movables = movables | (Dir::BackwardRight.apply(t4) & rk);

        proof {
            assert forall|p: Pos| movables@.contains(p) == self@.jumpables(Player::RED).contains(p) by {
                lemma_jump_image(Dir::BackwardLeft, gap@, self.blk@, p);
                lemma_jump_image(Dir::BackwardRight, gap@, self.blk@, p);
                lemma_jump_image(Dir::ForwardLeft, gap@, self.blk@, p);
                lemma_jump_image(Dir::ForwardRight, gap@, self.blk@, p);
            }
            assert(movables@ =~= self@.jumpables(Player::RED));
        }
        movables
    }

    /// Whether the squares around the source of `m` admit the move for the
    /// side to move. Who owns the piece on the source is not looked at.
    pub fn valid(&self, m: &Move) -> (r: bool)
        ensures
            r == self@.admits(self.side, *m),
    {
        let king = m.src.is(self.king);
        let dir_ok = m.dir.valid(self.side, king, m.src);

        let board = m.src.board();

        let gap = self.gap();
        let op = if self.side == Player::BLK {
            self.red
        } else {
            self.blk
        };
        proof {
            use_type_invariant(m.src);
            lemma_image_single(m.dir, m.src);
            if m.dir.step(m.src) is Some {
                lemma_step_reversal(m.dir, m.src);
                lemma_image_single(m.dir, m.dir.step(m.src).unwrap());
            }
        }
        let gap_ok = if m.jump {
            let first = m.dir.apply(board);
            let second = m.dir.apply(first);
            let x = first & op;
            let y = second & gap;
            proof {
                lemma_empty_iff_zero(x);
                lemma_empty_iff_zero(y);
                lemma_single_meets(first@, op@);
                lemma_single_meets(second@, gap@);
            }
            let has_op = x != Board::empty();
            let has_gap = y != Board::empty();
            has_op && has_gap
        } else {
            let first = m.dir.apply(board);
            let x = first & gap;
            proof {
                lemma_empty_iff_zero(x);
                lemma_single_meets(first@, gap@);
            }
            x != Board::empty()
        };

        dir_ok && gap_ok
    }
}

/// A position is determined by its view: by the side to move, the jumping
/// piece and the three sets of squares.
pub proof fn lemma_game_view_injective(a: Game, b: Game)
    requires
        a@ == b@,
    ensures
        a == b,
{
    lemma_view_injective(a.red, b.red);
    lemma_view_injective(a.blk, b.blk);
    lemma_view_injective(a.king, b.king);
}

/// The view of a position is a position of a game as far as the board goes:
/// every piece and every king stands on one of the 32 squares.
pub proof fn lemma_game_view_on_board(g: Game)
    ensures
        g@.blk.subset_of(squares()),
        g@.red.subset_of(squares()),
        g@.king.subset_of(squares()),
{
}

/// A square has a jump in direction `d` over a member of `over` onto a
/// member of `gap` exactly when two steps against `d` from `gap`, the first
/// of them onto `over`, lead to it.
proof fn lemma_jump_image(d: Dir, gap: Set<Pos>, over: Set<Pos>, p: Pos)
    ensures
        d.image(d.image(gap).intersect(over)).contains(p) <==> {
            &&& p.wf()
            &&& d.opposite().step(p) matches Some(a)
            &&& over.contains(a)
            &&& d.opposite().step(a) matches Some(b)
            &&& gap.contains(b)
        },
{
    lemma_image_contains(d, d.image(gap).intersect(over), p);
    if p.wf() && d.opposite().step(p) is Some {
        let a = d.opposite().step(p).unwrap();
        lemma_step_reversal(d.opposite(), p);
        lemma_image_contains(d, gap, a);
    }
}

/// A set of at most one square meets another set exactly when it has a
/// member and the other set holds it.
proof fn lemma_single_meets(one: Set<Pos>, other: Set<Pos>)
    ensures
        one == Set::<Pos>::empty() ==> one.intersect(other) == Set::<Pos>::empty(),
        forall|t: Pos| one == set![t] ==> (one.intersect(other) == Set::<Pos>::empty()) == !other.contains(t),
{
    if one == Set::<Pos>::empty() {
        assert(one.intersect(other) =~= Set::<Pos>::empty());
    }
    assert forall|t: Pos| one == set![t] implies (one.intersect(other) == Set::<Pos>::empty())
        == !other.contains(t) by {
        if other.contains(t) {
            assert(one.intersect(other).contains(t));
        } else {
            assert(one.intersect(other) =~= Set::<Pos>::empty());
        }
    }
}

} // verus!
