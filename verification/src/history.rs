//! The positions that a game has gone through: a stack of them, and the set
//! of those seen, for undo and for asking whether a position came up before.

use vstd::prelude::*;
use std::collections::HashSet;
use crate::game::Game;
use crate::player::Player;

verus! {

broadcast use vstd::std_specs::hash::group_hash_axioms;

/// A stack of positions together with a set of positions.
///
/// The set is kept as the set of the positions' codes, one number per
/// position, so that two positions are the same member exactly when all
/// their fields are equal. A set of numbers is used because the hash-set
/// specifications of vstd hold for keys of the primitive integer types,
/// and say nothing of a set keyed by a struct.
pub struct History {
    seq: Vec<Game>,
    set: HashSet<u128>,
}

/// What a history holds: the positions pushed and not yet popped, oldest
/// first, and the positions that count as seen.
#[verifier::ext_equal]
pub struct HistoryView {
    pub seq: Seq<Game>,
    pub set: Set<Game>,
}

/// The number that stands for a position in the set: the side in the lowest
/// bit, then 9 bits for the jumping piece, then the three bitboards.
spec fn code(g: Game) -> int {
    let s: int = match g.side {
        Player::RED => 0,
        Player::BLK => 1,
    };
    let j: int = match g.jumping {
        None => 0,
        Some(p) => p.0 + 1,
    };
    s + 2 * j + 0x400 * g.red.0 + 0x400_0000_0000 * g.blk.0 + 0x400_0000_0000_0000_0000 * g.king.0
}

/// Positions with the same code are the same position.
proof fn lemma_code_injective(a: Game, b: Game)
    requires
        code(a) == code(b),
    ensures
        a == b,
{
}

/// The code of a position.
fn key(g: &Game) -> (k: u128)
    ensures
        k == code(*g),
{
    let s: u128 = match g.side {
        Player::RED => 0,
        Player::BLK => 1,
    };
    let j: u128 = match g.jumping {
        None => 0,
        Some(p) => p.0 as u128 + 1,
    };
    s + 2 * j + 0x400 * (g.red.0 as u128) + 0x400_0000_0000 * (g.blk.0 as u128)
        + 0x400_0000_0000_0000_0000 * (g.king.0 as u128)
}

impl View for History {
    type V = HistoryView;

    closed spec fn view(&self) -> HistoryView {
        HistoryView {
            seq: self.seq@,
            set: Set::new(|g: Game| self.set@.contains(code(g) as u128)),
        }
    }
}

impl Default for History {
    /// The history that holds nothing.
    fn default() -> (h: History)
        ensures
            h@.seq == Seq::<Game>::empty(),
            h@.set == Set::<Game>::empty(),
    {
        let h = History { seq: Vec::new(), set: HashSet::new() };
        proof {
            assert(h@.set =~= Set::<Game>::empty());
        }
        h
    }
}

impl History {
    /// Puts `g` on top of the stack and counts it as seen.
    pub fn push(&mut self, g: Game)
        ensures
            final(self)@.seq == old(self)@.seq.push(g),
            final(self)@.set == old(self)@.set.insert(g),
    {
        let k = key(&g);
        self.seq.push(g);
        self.set.insert(k);
        proof {
            assert forall|x: Game| final(self)@.set.contains(x) == old(self)@.set.insert(g).contains(x) by {
                if code(x) == code(g) {
                    lemma_code_injective(x, g);
                }
            }
            assert(final(self)@.set =~= old(self)@.set.insert(g));
        }
    }

    /// The position on top of the stack, if there is one.
    pub fn last(&self) -> (r: Option<&Game>)
        ensures
            self@.seq.len() == 0 ==> r is None,
            self@.seq.len() > 0 ==> r == Some(&self@.seq.last()),
    {
        self.seq.last()
    }

    /// Takes the top position off the stack and returns it; the position
    /// then no longer counts as seen, even where the stack holds it a
    /// second time further down. On an empty stack nothing changes.
    pub fn pop(&mut self) -> (r: Option<Game>)
        ensures
            old(self)@.seq.len() == 0 ==> r is None && final(self)@ == old(self)@,
            old(self)@.seq.len() > 0 ==> {
                &&& r == Some(old(self)@.seq.last())
                &&& final(self)@.seq == old(self)@.seq.drop_last()
                &&& final(self)@.set == old(self)@.set.remove(old(self)@.seq.last())
            },
    {
        match self.seq.pop() {
            Some(g) => {
                let k = key(&g);
                self.set.remove(&k);
                proof {
                    assert forall|x: Game| final(self)@.set.contains(x) == old(self)@.set.remove(g).contains(
                        x,
                    ) by {
                        if code(x) == code(g) {
                            lemma_code_injective(x, g);
                        }
                    }
                    assert(final(self)@.set =~= old(self)@.set.remove(g));
                }
                Some(g)
            },
            None => None,
        }
    }

    /// Whether `g` counts as seen.
    pub fn contains(&self, g: &Game) -> (r: bool)
        ensures
            r == self@.set.contains(*g),
    {
        let k = key(g);
        self.set.contains(&k)
    }
}

} // verus!
