//! BitBoard utilities.

use vstd::prelude::*;
use vstd::string::StringExecFns;
use crate::bits::{bit, squares, count, lowest, popcount};
use crate::bits::{lemma_and, lemma_or, lemma_single, lemma_lowest, lemma_clear, lemma_put, lemma_count, lemma_zero, lemma_nonzero};
use crate::square::Square;

pub mod constants;

verus! {

/// Represents the 8x8 grid as a bitboard: bit `i` stands for the square with index `i`.
#[derive(Debug, Clone, Copy, PartialEq, Eq, Hash, Structural)]
pub struct BitBoard(pub u64);

impl View for BitBoard {
    type V = Set<int>;

    /// The indices of the squares that are set.
    open spec fn view(&self) -> Set<int> {
        squares(self.0)
    }
}

impl Default for BitBoard {
    fn default() -> (r: BitBoard)
        ensures
            r == BitBoard(0),
    {
        BitBoard(0)
    }
}

impl PartialEq<u64> for BitBoard {
    /// Whether the board is the given mask.
    #[inline]
    fn eq(&self, other: &u64) -> (r: bool) {
        self.0 == *other
    }
}

impl vstd::std_specs::cmp::PartialEqSpecImpl<u64> for BitBoard {
    open spec fn obeys_eq_spec() -> bool {
        true
    }

    open spec fn eq_spec(&self, other: &u64) -> bool {
        self.0 == *other
    }
}

impl core::ops::Not for BitBoard {
    type Output = BitBoard;

    /// The squares that are not set.
    #[inline]
    fn not(self) -> (r: BitBoard) {
        BitBoard(!self.0)
    }
}

impl vstd::std_specs::ops::NotSpecImpl for BitBoard {
    open spec fn obeys_not_spec() -> bool {
        true
    }

    open spec fn not_req(self) -> bool {
        true
    }

    open spec fn not_spec(self) -> BitBoard {
        BitBoard(!self.0)
    }
}

impl core::ops::BitAnd for BitBoard {
    type Output = BitBoard;

    /// The squares set in both.
    #[inline]
    fn bitand(self, rhs: BitBoard) -> (r: BitBoard) {
        BitBoard(self.0 & rhs.0)
    }
}

impl vstd::std_specs::ops::BitAndSpecImpl for BitBoard {
    open spec fn obeys_bitand_spec() -> bool {
        true
    }

    open spec fn bitand_req(self, rhs: BitBoard) -> bool {
        true
    }

    open spec fn bitand_spec(self, rhs: BitBoard) -> BitBoard {
        BitBoard(self.0 & rhs.0)
    }
}

impl core::ops::BitOr for BitBoard {
    type Output = BitBoard;

    /// The squares set in either.
    #[inline]
    fn bitor(self, rhs: BitBoard) -> (r: BitBoard) {
        BitBoard(self.0 | rhs.0)
    }
}

impl vstd::std_specs::ops::BitOrSpecImpl for BitBoard {
    open spec fn obeys_bitor_spec() -> bool {
        true
    }

    open spec fn bitor_req(self, rhs: BitBoard) -> bool {
        true
    }

    open spec fn bitor_spec(self, rhs: BitBoard) -> BitBoard {
        BitBoard(self.0 | rhs.0)
    }
}

impl core::ops::BitXor for BitBoard {
    type Output = BitBoard;

    /// The squares set in one of the two only.
    #[inline]
    fn bitxor(self, rhs: BitBoard) -> (r: BitBoard) {
        BitBoard(self.0 ^ rhs.0)
    }
}

impl vstd::std_specs::ops::BitXorSpecImpl for BitBoard {
    open spec fn obeys_bitxor_spec() -> bool {
        true
    }

    open spec fn bitxor_req(self, rhs: BitBoard) -> bool {
        true
    }

    open spec fn bitxor_spec(self, rhs: BitBoard) -> BitBoard {
        BitBoard(self.0 ^ rhs.0)
    }
}

impl core::ops::Shl<u32> for BitBoard {
    type Output = BitBoard;

    /// Every square moved up by `rhs` indices; what passes the last square is lost.
    #[inline]
    fn shl(self, rhs: u32) -> (r: BitBoard) {
        BitBoard(self.0 << rhs)
    }
}

impl vstd::std_specs::ops::ShlSpecImpl<u32> for BitBoard {
    open spec fn obeys_shl_spec() -> bool {
        true
    }

    open spec fn shl_req(self, rhs: u32) -> bool {
        rhs < 64
    }

    open spec fn shl_spec(self, rhs: u32) -> BitBoard {
        BitBoard(self.0 << rhs)
    }
}

impl core::ops::Shr<u32> for BitBoard {
    type Output = BitBoard;

    /// Every square moved down by `rhs` indices; what passes the first square is lost.
    #[inline]
    fn shr(self, rhs: u32) -> (r: BitBoard) {
        BitBoard(self.0 >> rhs)
    }
}

impl vstd::std_specs::ops::ShrSpecImpl<u32> for BitBoard {
    open spec fn obeys_shr_spec() -> bool {
        true
    }

    open spec fn shr_req(self, rhs: u32) -> bool {
        rhs < 64
    }

    open spec fn shr_spec(self, rhs: u32) -> BitBoard {
        BitBoard(self.0 >> rhs)
    }
}

impl BitBoard {
    /// The board with no square set.
    #[inline]
    pub fn zero() -> (r: BitBoard)
        ensures
            r == BitBoard(0),
            r@ == Set::<int>::empty(),
    {
        proof {
            lemma_zero();
            assert(squares(0) =~= Set::<int>::empty());
        }
        BitBoard(0)
    }

    /// Get the value at this position.
    #[inline]
    pub fn get(&self, square: Square) -> (r: bool)
        requires
            square.wf(),
        ensures
            r == self@.contains(square.idx()),
    {
        proof {
            let x = self.0 & (1u64 << square.0);
            lemma_single(square.0 as u64);
            lemma_and(self.0, 1u64 << square.0);
            lemma_nonzero(x);
            if bit(self.0, square.idx()) {
                assert(bit(x, square.idx()));
            }
            if x != 0 {
                let i = choose|i: int| bit(x, i);
                assert(i == square.idx());
            }
        }
        self.0 & (1u64 << square.0) != 0
    }

    /// Set the value at this position.
    #[inline]
    pub fn set(&mut self, square: Square, value: bool)
        requires
            square.wf(),
        ensures
            value ==> final(self)@ == old(self)@.insert(square.idx()),
            !value ==> final(self)@ == old(self)@.remove(square.idx()),
    {
        let reset: u64 = !(1u64 << square.0);
        let mask: u64 = if value {
            1u64 << square.0
        } else {
            0
        };
        proof {
            let k = square.0 as u64;
            lemma_clear(self.0, k);
            lemma_put(self.0 & reset, k);
            lemma_zero();
            lemma_or(self.0 & reset, 0);
            if value {
                assert(squares((self.0 & reset) | mask) =~= squares(self.0).insert(k as int));
            } else {
                assert(squares((self.0 & reset) | mask) =~= squares(self.0).remove(k as int));
            }
        }
        self.0 = (self.0 & reset) | mask;
    }

    /// Check if all bits are set to 0.
    #[inline]
    pub fn is_empty(&self) -> (r: bool)
        ensures
            r == (self.0 == 0),
            r == (self@ == Set::<int>::empty()),
    {
        proof {
            lemma_count(self.0);
            if self@ == Set::<int>::empty() {
                assert(count(self.0) == 0);
            }
            if self.0 == 0 {
                lemma_zero();
                assert(self@ =~= Set::<int>::empty());
            }
        }
        self.0 == 0
    }

    /// A bitboard with one square set to 1.
    #[inline]
    pub fn from_square(square: Square) -> (r: BitBoard)
        requires
            square.wf(),
        ensures
            r.0 == 1u64 << square.0,
            r@ == set![square.idx()],
    {
        proof {
            lemma_single(square.0 as u64);
            assert(squares(1u64 << square.0) =~= set![square.idx()]);
        }
        BitBoard(1u64 << square.raw_index())
    }

    /// The lowest square that is set.
    #[inline]
    pub fn to_square_unchecked(&self) -> (r: Square)
        requires
            self.0 != 0,
        ensures
            r.wf(),
            r.idx() == lowest(self.0),
            self@.contains(r.idx()),
            forall|i: int| self@.contains(i) ==> r.idx() <= i,
    {
        proof {
            lemma_lowest(self.0);
        }
        Square::from_index_unchecked(self.0.trailing_zeros() as u8)
    }

    /// Number of squares that are set.
    #[inline]
    pub fn popcount(&self) -> (n: u32)
        ensures
            n == self@.len(),
            n <= 64,
    {
        popcount(self.0)
    }

    /// An iterator over all `set` squares on the board.
    #[inline]
    pub fn set_iter(&self) -> (r: SetIter)
        ensures
            r.inner == *self,
            r@ == self@,
    {
        SetIter { inner: *self }
    }
}

/// The text of one square of a board: `1` where it is set, `0` where not, and a space.
pub open spec fn cell_text(b: u64, i: int) -> Seq<char> {
    if bit(b, i) {
        seq!['1', ' ']
    } else {
        seq!['0', ' ']
    }
}

/// The text of the first `n` squares of a rank.
pub open spec fn row_text(b: u64, rank: int, n: int) -> Seq<char>
    decreases n,
{
    if n <= 0 {
        Seq::empty()
    } else {
        row_text(b, rank, n - 1) + cell_text(b, rank * 8 + n - 1)
    }
}

/// The text of the top `n` ranks of a board, the eighth rank first, each on a line.
pub open spec fn grid_text(b: u64, n: int) -> Seq<char>
    decreases n,
{
    if n <= 0 {
        Seq::empty()
    } else {
        grid_text(b, n - 1) + row_text(b, 8 - n, 8) + seq!['\n']
    }
}

impl BitBoard {
    /// The board as text: eight lines from the eighth rank down, on each the squares
    /// from the a-file on as `0` or `1`.
    pub fn to_string(&self) -> (r: String)
        ensures
            r@ == grid_text(self.0, 8),
    {
        let mut out = String::new();
        let mut line: u8 = 0;
        proof {
            reveal_strlit("0 ");
            reveal_strlit("1 ");
            reveal_strlit("\n");
        }
        while line < 8
            invariant
                line <= 8,
                out@ == grid_text(self.0, line as int),
                "0 "@ == seq!['0', ' '],
                "1 "@ == seq!['1', ' '],
                "\n"@ == seq!['\n'],
            decreases 8 - line,
        {
            let rank: u8 = 7 - line;
            let mut file: u8 = 0;
            let ghost before = out@;
            while file < 8
                invariant
                    file <= 8,
                    rank < 8,
                    out@ == before + row_text(self.0, rank as int, file as int),
                    "0 "@ == seq!['0', ' '],
                    "1 "@ == seq!['1', ' '],
                decreases 8 - file,
            {
                let ghost row = row_text(self.0, rank as int, file as int);
                if self.get(Square(rank * 8 + file)) {
                    out.append("1 ");
                } else {
                    out.append("0 ");
                }
                proof {
                    assert(out@ =~= before + (row + cell_text(self.0, rank * 8 + file)));
                }
                file = file + 1;
            }
            out.append("\n");
            proof {
                assert(out@ =~= grid_text(self.0, line as int) + row_text(self.0, rank as int, 8)
                    + seq!['\n']);
            }
            line = line + 1;
        }
        out
    }
}

/// Walks the squares that are set in a board, lowest index first.
#[derive(Debug, Clone, Copy)]
pub struct SetIter {
    pub inner: BitBoard,
}

impl View for SetIter {
    type V = Set<int>;

    /// The squares still to come.
    open spec fn view(&self) -> Set<int> {
        self.inner@
    }
}

impl SetIter {
    /// The next square, if any is left: the lowest that remains. It is taken from what remains.
    pub fn next(&mut self) -> (r: Option<Square>)
        ensures
            match r {
                Some(sq) => {
                    &&& sq.wf()
                    &&& old(self)@.contains(sq.idx())
                    &&& forall|i: int| old(self)@.contains(i) ==> sq.idx() <= i
                    &&& final(self)@ == old(self)@.remove(sq.idx())
                    &&& final(self)@.len() + 1 == old(self)@.len()
                    &&& bit(old(self).inner.0, sq.idx())
                    &&& forall|i: int| #[trigger] bit(old(self).inner.0, i) ==> sq.idx() <= i
                    &&& forall|i: int|
                        #![trigger bit(final(self).inner.0, i)]
                        #![trigger bit(old(self).inner.0, i)]
                        bit(final(self).inner.0, i) <==> bit(old(self).inner.0, i) && i
                            != sq.idx()
                },
                None => old(self)@ == Set::<int>::empty() && *final(self) == *old(self)
                    && old(self).inner.0 == 0,
            },
    {
        let trailing: u8 = self.inner.0.trailing_zeros() as u8;
        proof {
            lemma_lowest(self.inner.0);
            lemma_count(self.inner.0);
        }
        if trailing < 64 {
            let sq = Square::from_index_unchecked(trailing);
            let sq_bb = BitBoard::from_square(sq);
            proof {
                lemma_clear(self.inner.0, trailing as u64);
            }
            self.inner = BitBoard(self.inner.0 & !sq_bb.0);
            return Some(sq);
        }
        proof {
            lemma_zero();
            assert(self@ =~= Set::<int>::empty());
        }
        None
    }

    /// Bounds on the number of squares still to come: both are that number.
    #[inline]
    pub fn size_hint(&self) -> (r: (usize, Option<usize>))
        ensures
            r.0 == self@.len(),
            r.1 == Some(r.0),
    {
        let count = self.len();
        (count, Some(count))
    }

    /// Number of squares still to come.
    #[inline]
    pub fn len(&self) -> (r: usize)
        ensures
            r == self@.len(),
            r <= 64,
    {
        popcount(self.inner.0) as usize
    }
}

} // verus!
