//! A game played by clicks: first on the piece to move, then on the square
//! where it is to go.
//!
//! The session decides what each square shows and what a click does; how a
//! square is drawn and where clicks come from is left to the caller.

use vstd::prelude::*;
use crate::bits::bit;
use crate::board::Board;
use crate::cell::{Cell, CellKind};
use crate::game::Game;
use crate::mv::Move;
use crate::player::Player;
use crate::pos::Pos;
use crate::rules::GameView;

verus! {

/// What the next click selects.
#[derive(Debug, Clone, Copy, PartialEq, Eq, Structural)]
pub enum Mode {
    /// The piece to move.
    SelectingMovePiece,
    /// The destination of the piece on `src`.
    SelectingDestCell { src: Pos },
}

impl Default for Mode {
    fn default() -> (r: Mode)
        ensures
            r == Mode::SelectingMovePiece,
    {
        Mode::SelectingMovePiece
    }
}

/// A game in play together with what the next click selects.
pub struct Checkers {
    pub mode: Mode,
    pub game: Game,
}

const OPENING_BLK: u32 = 0b0000_0000_0000_0000_0000_1111_1111_1111;

const OPENING_RED: u32 = 0b1111_1111_1111_0000_0000_0000_0000_0000;

/// Bit `j` of black's opening mask is set exactly when square `j` lies in
/// one of the first three rows, and bit `j` of red's exactly when it lies
/// in one of the last three.
proof fn lemma_opening_masks(j: u32)
    requires
        j < 32,
    ensures
        bit(OPENING_BLK, j as int) == (j / 4 < 3),
        bit(OPENING_RED, j as int) == (j / 4 >= 5),
{
    assert(((OPENING_BLK >> j) & 1 == 1) == (j / 4 < 3) && ((OPENING_RED >> j) & 1 == 1) == (j / 4
        >= 5)) by (bit_vector)
        requires
            j < 32,
    ;
}

/// Whether every move of the list stays on the board.
pub open spec fn all_land(moves: Seq<Move>) -> bool {
    forall|i: int| 0 <= i < moves.len() ==> (#[trigger] moves[i]).spec_dst() is Some
}

/// Whether the list holds a move from `pos`.
pub open spec fn starts_at(moves: Seq<Move>, pos: Pos) -> bool {
    exists|i: int| 0 <= i < moves.len() && (#[trigger] moves[i]).src == pos
}

/// Whether the move at index `i` of the list leads from `src` to `pos`.
pub open spec fn leads_at(moves: Seq<Move>, i: int, src: Pos, pos: Pos) -> bool {
    0 <= i < moves.len() && moves[i].src == src && moves[i].spec_dst() == Some(pos)
}

/// Whether the list holds a move that leads from `src` to `pos`.
pub open spec fn leads(moves: Seq<Move>, src: Pos, pos: Pos) -> bool {
    exists|i: int| leads_at(moves, i, src, pos)
}

/// Whether index `i` is that of the first move of the list that leads from
/// `src` to `pos`.
pub open spec fn first_leading(moves: Seq<Move>, i: int, src: Pos, pos: Pos) -> bool {
    leads_at(moves, i, src, pos) && forall|j: int| 0 <= j < i ==> !leads_at(moves, j, src, pos)
}

/// Whether a click on `pos` does anything: in the first mode where a listed
/// move starts there, in the second where a listed move of the selected
/// piece lands there.
pub open spec fn selectable(mode: Mode, moves: Seq<Move>, pos: Pos) -> bool {
    match mode {
        Mode::SelectingMovePiece => starts_at(moves, pos),
        Mode::SelectingDestCell { src } => leads(moves, src, pos),
    }
}

/// What stands on `pos`. A square that both sides claim shows as empty.
pub open spec fn kind_at(g: GameView, pos: Pos) -> CellKind {
    if g.blk.contains(pos) && !g.red.contains(pos) {
        CellKind::Blk
    } else if !g.blk.contains(pos) && g.red.contains(pos) {
        CellKind::Red
    } else {
        CellKind::Empty
    }
}

/// Index of the first move of the list that leads from `src` to `pos`, if
/// there is one.
fn find(moves: &Vec<Move>, src: Pos, pos: Pos) -> (r: Option<usize>)
    requires
        all_land(moves@),
    ensures
        r is None <==> !leads(moves@, src, pos),
        r matches Some(i) ==> first_leading(moves@, i as int, src, pos),
{
    let mut i: usize = 0;
    while i < moves.len()
        invariant
            0 <= i <= moves.len(),
            all_land(moves@),
            forall|j: int| 0 <= j < i ==> !leads_at(moves@, j, src, pos),
        decreases moves.len() - i,
    {
        if moves[i].src == src && moves[i].dst() == pos {
            assert(leads_at(moves@, i as int, src, pos));
            return Some(i);
        }
        i = i + 1;
    }
    None
}

/// Whether the list holds a move from `pos`.
fn any_from(moves: &Vec<Move>, pos: Pos) -> (r: bool)
    ensures
        r == starts_at(moves@, pos),
{
    let mut i: usize = 0;
    while i < moves.len()
        invariant
            0 <= i <= moves.len(),
            forall|j: int| 0 <= j < i ==> (#[trigger] moves[j]).src != pos,
        decreases moves.len() - i,
    {
        if moves[i].src == pos {
            return true;
        }
        i = i + 1;
    }
    false
}

impl Checkers {
    /// The session at its start: the standard opening with black to move
    /// and no piece selected. Black holds the twelve squares of the first
    /// three rows, red those of the last three, and there is no king.
    pub fn new() -> (r: Checkers)
        ensures
            r.mode == Mode::SelectingMovePiece,
            r.game.side == Player::BLK,
            r.game.jumping is None,
            r.game.blk.bits() == 0x0000_0fff,
            r.game.red.bits() == 0xfff0_0000,
            r.game.king.bits() == 0,
            forall|p: Pos| r.game.blk@.contains(p) <==> p.wf() && p.spec_y() < 3,
            forall|p: Pos| r.game.red@.contains(p) <==> p.wf() && p.spec_y() >= 5,
            r.game.king@ == Set::<Pos>::empty(),
            r.game@.wf(),
    {
        let r = Checkers {
            mode: Mode::SelectingMovePiece,
            game: Game {
                side: Player::BLK,
                jumping: None,
                blk: Board::new(OPENING_BLK),
                red: Board::new(OPENING_RED),
                king: Board::empty(),
            },
        };
        proof {
            assert forall|p: Pos| r.game.blk@.contains(p) <==> p.wf() && p.spec_y() < 3 by {
                if p.wf() {
                    lemma_opening_masks(p.index() as u32);
                }
            }
            assert forall|p: Pos| r.game.red@.contains(p) <==> p.wf() && p.spec_y() >= 5 by {
                if p.wf() {
                    lemma_opening_masks(p.index() as u32);
                }
            }
        }
        r
    }

    /// What the square `pos` shows, given the moves on offer.
    ///
    /// While a piece is to be selected any list of moves will do, since
    /// only the sources are looked at; while a destination is to be
    /// selected the listed moves have to stay on the board.
    pub fn cell(&self, pos: Pos, moves: &Vec<Move>) -> (r: Cell)
        requires
            self.mode is SelectingDestCell ==> all_land(moves@),
        ensures
            r.kind == kind_at(self.game@, pos),
            r.king == self.game.king@.contains(pos),
            r.selected == (self.mode == Mode::SelectingDestCell { src: pos }),
            r.selectable == selectable(self.mode, moves@, pos),
    {
        let kind = match (pos.is(self.game.blk), pos.is(self.game.red)) {
            (true, false) => CellKind::Blk,
            (false, true) => CellKind::Red,
            (_, _) => CellKind::Empty,
        };
        let selected = match self.mode {
            Mode::SelectingMovePiece => false,
            Mode::SelectingDestCell { src } => src == pos,
        };
        let selectable = match self.mode {
            Mode::SelectingMovePiece => any_from(moves, pos),
            Mode::SelectingDestCell { src } => find(moves, src, pos).is_some(),
        };
        Cell::new(kind, pos.is(self.game.king), selected, selectable)
    }

    /// A click on the square `pos`, given the moves on offer.
    ///
    /// On a square that is not selectable nothing happens. In the first
    /// mode the piece on `pos` becomes the selected one. In the second the
    /// first listed move that leads the selected piece to `pos` is made,
    /// and the next click selects a piece again. Only in the second mode
    /// do the listed moves have to stay on the board.
    pub fn click(&mut self, pos: Pos, moves: &Vec<Move>)
        requires
            old(self).mode is SelectingDestCell ==> all_land(moves@),
        ensures
            !selectable(old(self).mode, moves@, pos) ==> *final(self) == *old(self),
            selectable(old(self).mode, moves@, pos) ==> match old(self).mode {
                Mode::SelectingMovePiece => {
                    &&& final(self).mode == Mode::SelectingDestCell { src: pos }
                    &&& final(self).game == old(self).game
                },
                Mode::SelectingDestCell { src } => {
                    &&& final(self).mode == Mode::SelectingMovePiece
                    &&& exists|i: int|
                        first_leading(moves@, i, src, pos) && final(self).game@ == old(self).game@.next(
                            #[trigger] moves@[i],
                        )
                },
            },
    {
        match self.mode {
            Mode::SelectingMovePiece => {
                if any_from(moves, pos) {
                    self.mode = Mode::SelectingDestCell { src: pos };
                }
            },
            Mode::SelectingDestCell { src } => {
                match find(moves, src, pos) {
                    Some(i) => {
                        self.game = self.game.apply(&moves[i]);
                        self.mode = Mode::SelectingMovePiece;
                    },
                    None => (),
                }
            },
        }
    }

    /// Drops the selection: the next click selects a piece.
    pub fn cancel(&mut self)
        ensures
            final(self).mode == Mode::SelectingMovePiece,
            final(self).game == old(self).game,
    {
        self.mode = Mode::SelectingMovePiece;
    }
}

} // verus!
