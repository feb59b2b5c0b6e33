//! The two sides of the game.

use vstd::prelude::*;
use vstd::std_specs::ops::NotSpecImpl;

verus! {

/// One of the two sides. Black advances toward increasing rows, red toward
/// decreasing rows.
#[derive(Debug, Clone, Copy, Hash, PartialEq, Eq, Structural)]
pub enum Player {
    RED,
    BLK,
}

impl Player {
    /// The other side.
    pub open spec fn other(self) -> Player {
        match self {
            Player::RED => Player::BLK,
            Player::BLK => Player::RED,
        }
    }
}

impl Default for Player {
    fn default() -> (r: Player)
        ensures
            r == Player::RED,
    {
        Player::RED
    }
}

impl core::ops::Not for Player {
    type Output = Player;

    /// The other side.
    fn not(self) -> (r: Player)
        ensures
            r == self.other(),
    {
        match self {
            Player::RED => Player::BLK,
            Player::BLK => Player::RED,
        }
    }
}

impl NotSpecImpl for Player {
    open spec fn obeys_not_spec() -> bool {
        true
    }

    open spec fn not_req(self) -> bool {
        true
    }

    open spec fn not_spec(self) -> Player {
        self.other()
    }
}

/// Flipping the side twice gives the side back.
pub proof fn lemma_other_involutive(p: Player)
    ensures
        p.other().other() == p,
        p.other() != p,
{
}

} // verus!
