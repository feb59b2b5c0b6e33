//! Bitboards: sets of playable squares packed into 32 bits.
//!
//! A bitboard is viewed as the mathematical set of its member squares, and
//! every operation states what it does to that set.

use vstd::prelude::*;
use vstd::std_specs::bits::u32_trailing_zeros;
use vstd::std_specs::ops::{
    BitAndSpecImpl, BitOrSpecImpl, BitXorSpecImpl, NotSpecImpl, ShlSpecImpl, ShrSpecImpl,
};
use crate::bits::{
    bit, lemma_bit_and, lemma_bit_ext, lemma_bit_not, lemma_bit_or, lemma_bit_shl, lemma_bit_shr,
    lemma_bit_xor, lemma_bit_zero,
};
use crate::pos::Pos;

verus! {

/// A set of playable squares; bit `i` is set exactly when the square with
/// packed index `i` is a member.
#[derive(Debug, Clone, Copy, Hash, PartialEq, Eq, Structural)]
pub struct Board(pub(crate) u32);

impl View for Board {
    type V = Set<Pos>;

    /// The squares that are members of the bitboard.
    open(crate) spec fn view(&self) -> Set<Pos> {
        Set::new(|p: Pos| bit(self.0, p.index()))
    }
}

/// All 32 squares of the board.
pub open spec fn squares() -> Set<Pos> {
    Set::new(|p: Pos| p.wf())
}

/// The squares of `s` with every packed index raised by `k` (lowered, for a
/// negative `k`); squares that would leave the board are dropped.
pub open spec fn shifted(s: Set<Pos>, k: int) -> Set<Pos> {
    Set::new(|p: Pos| p.wf() && 0 <= p.index() - k < 32 && s.contains(Pos::at(p.index() - k)))
}

impl Board {
    /// The 32-bit mask that holds the set.
    pub open(crate) spec fn bits(self) -> u32 {
        self.0
    }

    /// The bitboard with the given mask.
    pub fn new(bits: u32) -> (r: Board)
        ensures
            r.bits() == bits,
            forall|p: Pos| r@.contains(p) == bit(bits, p.index()),
    {
        Board(bits)
    }

    /// The bitboard without members.
    pub fn empty() -> (r: Board)
        ensures
            r.bits() == 0,
            r@ == Set::<Pos>::empty(),
    {
        proof {
            lemma_bit_zero(0);
            assert(Board(0)@ =~= Set::<Pos>::empty());
        }
        Board(0)
    }

    /// The member squares in ascending order of their packed index, each
    /// once: as many as the bitboard has bits set.
    pub fn actives(self) -> (r: Vec<Pos>)
        ensures
            forall|p: Pos| r@.contains(p) <==> self@.contains(p),
            forall|i: int, j: int| 0 <= i < j < r.len() ==> r[i].index() < r[j].index(),
            r@.no_duplicates(),
            self@.finite(),
            r.len() == self@.len(),
    {
        let mut bits: u32 = self.0;
        let mut shifted: u8 = 0;
        let mut out: Vec<Pos> = Vec::new();
        let ghost done: int = 0;
        while bits != 0
            invariant
                0 <= shifted < 32,
                shifted <= done <= shifted + 1,
                out.len() == 0 ==> done == 0,
                forall|i: int| #[trigger] bit(bits, i) == (bit(self.0, i + shifted) && i + shifted >= done),
                forall|k: int| 0 <= k < out.len() ==> #[trigger] out[k].index() < done,
                forall|k: int| 0 <= k < out.len() ==> bit(self.0, #[trigger] out[k].index()),
                forall|i: int|
                    0 <= i < done && #[trigger] bit(self.0, i) ==> exists|k: int|
                        0 <= k < out.len() && #[trigger] out[k].index() == i,
                forall|i: int, j: int|
                    0 <= i < j < out.len() ==> #[trigger] out[i].index() < #[trigger] out[j].index(),
            decreases 32 - done,
        {
            let shift: u8 = bits.trailing_zeros() as u8;
            proof {
                lemma_bit_zero(bits);
                assert(bit(bits, shift as int));
                lemma_bit_shr(bits, shift as u32);
                lemma_bit_clear_lowest(bits >> shift);
            }
            let ghost before = bits;
            let ghost prev = shifted;
            bits = bits >> shift;
            bits = bits & !1u32;
            shifted = shifted + shift;
            proof {
                assert forall|i: int| #[trigger]
                    bit(bits, i) == (bit(self.0, i + shifted) && i + shifted >= shifted + 1) by {
                    assert(bit(bits, i) == (bit(before >> shift, i) && i != 0));
                    assert(bit(before >> shift, i) == (0 <= i && bit(before, i + shift)));
                }
                assert forall|i: int| 0 <= i < shifted + 1 && #[trigger] bit(self.0, i) implies exists|
                    k: int,
                | 0 <= k < out.len() + 1 && #[trigger] out@.push(Pos(shifted))[k].index() == i by {
                    if i < done {
                        let k = choose|k: int| 0 <= k < out.len() && #[trigger] out[k].index() == i;
                        assert(out@.push(Pos(shifted))[k].index() == i);
                    } else if i < shifted {
                        assert(bit(before, i - prev));
                        assert(false);
                    } else {
                        assert(out@.push(Pos(shifted))[out.len() as int].index() == i);
                    }
                }
                done = shifted + 1;
            }
            out.push(Pos::raw(shifted));
        }
        proof {
            lemma_bit_zero(bits);
            assert forall|p: Pos| out@.contains(p) <==> self@.contains(p) by {
                if self@.contains(p) {
                    let i = p.index();
                    assert(bit(self.0, i));
                    if i >= done {
                        assert(bit(bits, i - shifted));
                    }
                    let k = choose|k: int| 0 <= k < out.len() && #[trigger] out[k].index() == i;
                    assert(out@[k] == p);
                }
            }
            assert forall|i: int, j: int| 0 <= i < out.len() && 0 <= j < out.len() && i != j implies out@[i]
                != out@[j] by {
                if i < j {
                    assert(out[i].index() < out[j].index());
                } else {
                    assert(out[j].index() < out[i].index());
                }
            }
            assert(out@.to_set() =~= self@);
            out@.unique_seq_to_set();
            vstd::seq_lib::seq_to_set_is_finite(out@);
        }
        out
    }
}

impl core::ops::BitAnd for Board {
    type Output = Board;

    /// The squares that are members of both bitboards.
    fn bitand(self, rhs: Board) -> (r: Board)
        ensures
            r@ == self@.intersect(rhs@),
    {
        proof {
            lemma_bit_and(self.0, rhs.0);
            assert(Board(self.0 & rhs.0)@ =~= self@.intersect(rhs@));
        }
        Board(self.0 & rhs.0)
    }
}

impl BitAndSpecImpl for Board {
    open spec fn obeys_bitand_spec() -> bool {
        true
    }

    open spec fn bitand_req(self, rhs: Board) -> bool {
        true
    }

    open(crate) spec fn bitand_spec(self, rhs: Board) -> Board {
        Board(self.0 & rhs.0)
    }
}

impl core::ops::BitOr for Board {
    type Output = Board;

    /// The squares that are members of either bitboard.
    fn bitor(self, rhs: Board) -> (r: Board)
        ensures
            r@ == self@.union(rhs@),
    {
        proof {
            lemma_bit_or(self.0, rhs.0);
            assert(Board(self.0 | rhs.0)@ =~= self@.union(rhs@));
        }
        Board(self.0 | rhs.0)
    }
}

impl BitOrSpecImpl for Board {
    open spec fn obeys_bitor_spec() -> bool {
        true
    }

    open spec fn bitor_req(self, rhs: Board) -> bool {
        true
    }

    open(crate) spec fn bitor_spec(self, rhs: Board) -> Board {
        Board(self.0 | rhs.0)
    }
}

impl core::ops::BitXor for Board {
    type Output = Board;

    /// The squares that are members of exactly one of the bitboards.
    fn bitxor(self, rhs: Board) -> (r: Board)
        ensures
            r@ == self@.difference(rhs@).union(rhs@.difference(self@)),
    {
        proof {
            lemma_bit_xor(self.0, rhs.0);
            assert(Board(self.0 ^ rhs.0)@ =~= self@.difference(rhs@).union(rhs@.difference(self@)));
        }
        Board(self.0 ^ rhs.0)
    }
}

impl BitXorSpecImpl for Board {
    open spec fn obeys_bitxor_spec() -> bool {
        true
    }

    open spec fn bitxor_req(self, rhs: Board) -> bool {
        true
    }

    open(crate) spec fn bitxor_spec(self, rhs: Board) -> Board {
        Board(self.0 ^ rhs.0)
    }
}

impl core::ops::Not for Board {
    type Output = Board;

    /// The squares of the board that are not members.
    fn not(self) -> (r: Board)
        ensures
            r@ == squares().difference(self@),
    {
        proof {
            lemma_bit_not(self.0);
            assert(Board(!self.0)@ =~= squares().difference(self@));
        }
        Board(!self.0)
    }
}

impl NotSpecImpl for Board {
    open spec fn obeys_not_spec() -> bool {
        true
    }

    open spec fn not_req(self) -> bool {
        true
    }

    open(crate) spec fn not_spec(self) -> Board {
        Board(!self.0)
    }
}

impl core::ops::Shl<i8> for Board {
    type Output = Board;

    /// Every member moved up by `rhs` packed indices.
    fn shl(self, rhs: i8) -> (r: Board)
        ensures
            r@ == shifted(self@, rhs as int),
    {
        proof {
            lemma_bit_shl(self.0, rhs as u32);
            assert(Board(self.0 << (rhs as u32))@ =~= shifted(self@, rhs as int));
        }
        Board(self.0 << (rhs as u32))
    }
}

impl ShlSpecImpl<i8> for Board {
    open spec fn obeys_shl_spec() -> bool {
        true
    }

    open spec fn shl_req(self, rhs: i8) -> bool {
        0 <= rhs < 32
    }

    open(crate) spec fn shl_spec(self, rhs: i8) -> Board {
        Board(self.0 << (rhs as u32))
    }
}

impl core::ops::Shr<i8> for Board {
    type Output = Board;

    /// Every member moved down by `rhs` packed indices.
    fn shr(self, rhs: i8) -> (r: Board)
        ensures
            r@ == shifted(self@, -(rhs as int)),
    {
        proof {
            lemma_bit_shr(self.0, rhs as u32);
            assert(Board(self.0 >> (rhs as u32))@ =~= shifted(self@, -(rhs as int)));
        }
        Board(self.0 >> (rhs as u32))
    }
}

impl ShrSpecImpl<i8> for Board {
    open spec fn obeys_shr_spec() -> bool {
        true
    }

    open spec fn shr_req(self, rhs: i8) -> bool {
        0 <= rhs < 32
    }

    open(crate) spec fn shr_spec(self, rhs: i8) -> Board {
        Board(self.0 >> (rhs as u32))
    }
}

impl core::ops::BitAndAssign for Board {
    /// Keeps the members that are also members of `rhs`.
    fn bitand_assign(&mut self, rhs: Board)
        ensures
            final(self)@ == old(self)@.intersect(rhs@),
    {
        *self = *self & rhs;
    }
}

impl core::ops::BitOrAssign for Board {
    /// Adds the members of `rhs`.
    fn bitor_assign(&mut self, rhs: Board)
        ensures
            final(self)@ == old(self)@.union(rhs@),
    {
        *self = *self | rhs;
    }
}

impl core::ops::BitXorAssign for Board {
    /// Keeps the squares that are members of exactly one of the two.
    fn bitxor_assign(&mut self, rhs: Board)
        ensures
            final(self)@ == old(self)@.difference(rhs@).union(rhs@.difference(old(self)@)),
    {
        *self = *self ^ rhs;
    }
}

impl core::ops::ShlAssign<i8> for Board {
    /// Moves every member up by `rhs` packed indices.
    fn shl_assign(&mut self, rhs: i8)
        requires
            0 <= rhs < 32,
        ensures
            final(self)@ == shifted(old(self)@, rhs as int),
    {
        *self = *self << rhs;
    }
}

impl core::ops::ShrAssign<i8> for Board {
    /// Moves every member down by `rhs` packed indices.
    fn shr_assign(&mut self, rhs: i8)
        requires
            0 <= rhs < 32,
        ensures
            final(self)@ == shifted(old(self)@, -(rhs as int)),
    {
        *self = *self >> rhs;
    }
}

impl Default for Board {
    /// The bitboard without members.
    fn default() -> (r: Board)
        ensures
            r.bits() == 0,
            r@ == Set::<Pos>::empty(),
    {
        Board::empty()
    }
}

/// A bitboard is determined by its member squares.
pub proof fn lemma_view_injective(a: Board, b: Board)
    requires
        a@ == b@,
    ensures
        a == b,
{
    assert forall|i: int| 0 <= i < 32 implies bit(a.0, i) == bit(b.0, i) by {
        let p = Pos::at(i);
        assert(p.index() == i);
        assert(a@.contains(p) == bit(a.0, i));
        assert(b@.contains(p) == bit(b.0, i));
    }
    lemma_bit_ext(a.0, b.0);
}

/// A bitboard has no member exactly when its mask is zero.
pub proof fn lemma_empty_iff_zero(b: Board)
    ensures
        b.bits() == 0 <==> b@ == Set::<Pos>::empty(),
{
    lemma_bit_zero(b.0);
    if b.0 == 0 {
        assert(b@ =~= Set::<Pos>::empty());
    } else {
        let p = Pos::at(u32_trailing_zeros(b.0) as int);
        assert(b@.contains(p));
    }
}

/// Clearing bit 0 of a word leaves every other bit as it was.
proof fn lemma_bit_clear_lowest(a: u32)
    ensures
        forall|i: int| #[trigger] bit(a & !1u32, i) == (bit(a, i) && i != 0),
{
    assert forall|i: int| #[trigger] bit(a & !1u32, i) == (bit(a, i) && i != 0) by {
        if 0 <= i < 32 {
            let j = i as u32;
            assert((((a & !1u32) >> j) & 1 == 1) == ((a >> j) & 1 == 1 && j != 0)) by (bit_vector)
                requires
                    j < 32,
            ;
        }
    }
}

} // verus!
