//! Chessboard representation.
//!
//! Only the placement of the pieces: no rule of the game is known here.

use vstd::prelude::*;
use vstd::string::StringExecFns;
use crate::bitboard::BitBoard;
use crate::bits::{bit, lowest, squares};
use crate::bits::{lemma_and, lemma_clear, lemma_equal, lemma_lowest, lemma_or, lemma_put, lemma_single, lemma_zero};
use crate::piece::{Color, Piece, PieceKind};
use crate::square::Square;

verus! {

/// Represents the board and all the pieces on it: one mask per color, one per piece kind.
#[derive(Debug, Clone, Copy, PartialEq, Eq, Hash, Structural)]
pub struct Board {
    pub white: BitBoard,
    pub black: BitBoard,
    pub pawns: BitBoard,
    pub knights: BitBoard,
    pub bishops: BitBoard,
    pub rooks: BitBoard,
    pub queens: BitBoard,
    pub kings: BitBoard,
}

impl Board {
    /// The mask of a color.
    pub open spec fn color_bits(self, c: Color) -> u64 {
        match c {
            Color::White => self.white.0,
            Color::Black => self.black.0,
        }
    }

    /// The mask of a piece kind.
    pub open spec fn kind_bits(self, k: PieceKind) -> u64 {
        match k {
            PieceKind::Pawn => self.pawns.0,
            PieceKind::Knight => self.knights.0,
            PieceKind::Bishop => self.bishops.0,
            PieceKind::Rook => self.rooks.0,
            PieceKind::Queen => self.queens.0,
            PieceKind::King => self.kings.0,
        }
    }

    /// The mask of all pieces.
    pub open spec fn occupied(self) -> u64 {
        self.white.0 | self.black.0
    }

    /// The color that holds square `i`, white first.
    pub open spec fn color_at(self, i: int) -> Option<Color> {
        if bit(self.white.0, i) {
            Some(Color::White)
        } else if bit(self.black.0, i) {
            Some(Color::Black)
        } else {
            None
        }
    }

    /// The kind of piece on square `i`, in the order pawn to king.
    pub open spec fn kind_at(self, i: int) -> Option<PieceKind> {
        if bit(self.pawns.0, i) {
            Some(PieceKind::Pawn)
        } else if bit(self.knights.0, i) {
            Some(PieceKind::Knight)
        } else if bit(self.bishops.0, i) {
            Some(PieceKind::Bishop)
        } else if bit(self.rooks.0, i) {
            Some(PieceKind::Rook)
        } else if bit(self.queens.0, i) {
            Some(PieceKind::Queen)
        } else if bit(self.kings.0, i) {
            Some(PieceKind::King)
        } else {
            None
        }
    }

    /// The piece on square `i`: there is one where a color and a kind are both marked.
    pub open spec fn piece_at(self, i: int) -> Option<Piece> {
        match (self.color_at(i), self.kind_at(i)) {
            (Some(color), Some(kind)) => Some(Piece { color, kind }),
            _ => None,
        }
    }

    /// Number of kind masks that mark square `i`.
    pub open spec fn kinds_on(self, i: int) -> int {
        (if bit(self.pawns.0, i) { 1int } else { 0 })
        + (if bit(self.knights.0, i) { 1int } else { 0 })
        + (if bit(self.bishops.0, i) { 1int } else { 0 })
        + (if bit(self.rooks.0, i) { 1int } else { 0 })
        + (if bit(self.queens.0, i) { 1int } else { 0 })
        + (if bit(self.kings.0, i) { 1int } else { 0 })
    }

    /// Square `i` is marked by at most one color, by at most one kind, and by a color
    /// exactly when by a kind.
    pub open spec fn square_ok(self, i: int) -> bool {
        &&& !(bit(self.white.0, i) && bit(self.black.0, i))
        &&& self.kinds_on(i) <= 1
        &&& (bit(self.white.0, i) || bit(self.black.0, i)) <==> self.kinds_on(i) == 1
    }

    /// The masks agree with each other: the colors are disjoint, the kinds are pairwise
    /// disjoint, and the colors together cover what the kinds together cover.
    pub open spec fn consistent(self) -> bool {
        &&& self.white.0 & self.black.0 == 0
        &&& self.pawns.0 & self.knights.0 == 0
        &&& self.pawns.0 & self.bishops.0 == 0
        &&& self.pawns.0 & self.rooks.0 == 0
        &&& self.pawns.0 & self.queens.0 == 0
        &&& self.pawns.0 & self.kings.0 == 0
        &&& self.knights.0 & self.bishops.0 == 0
        &&& self.knights.0 & self.rooks.0 == 0
        &&& self.knights.0 & self.queens.0 == 0
        &&& self.knights.0 & self.kings.0 == 0
        &&& self.bishops.0 & self.rooks.0 == 0
        &&& self.bishops.0 & self.queens.0 == 0
        &&& self.bishops.0 & self.kings.0 == 0
        &&& self.rooks.0 & self.queens.0 == 0
        &&& self.rooks.0 & self.kings.0 == 0
        &&& self.queens.0 & self.kings.0 == 0
        &&& self.white.0 | self.black.0 == self.all_kinds()
    }

    /// The squares marked by any kind mask.
    pub open spec fn all_kinds(self) -> u64 {
        self.pawns.0 | self.knights.0 | self.bishops.0 | self.rooks.0 | self.queens.0
            | self.kings.0
    }

    /// The mask of the king of a color.
    pub open spec fn king_bits(self, c: Color) -> u64 {
        self.kings.0 & self.color_bits(c)
    }

    /// The square of the king of a color, where it has exactly one.
    pub open spec fn king_sq(self, c: Color) -> int {
        lowest(self.king_bits(c))
    }

    /// The color has exactly one king.
    pub open spec fn one_king(self, c: Color) -> bool {
        self.king_bits(c) != 0 && self.king_bits(c) == 1u64 << (lowest(self.king_bits(c)) as u64)
    }

    /// A board of the game: consistent masks and one king of each color.
    pub open spec fn wf(self) -> bool {
        &&& self.consistent()
        &&& self.one_king(Color::White)
        &&& self.one_king(Color::Black)
    }

    /// On a board whose masks agree, a square has a piece exactly where it has a color,
    /// and a kind mask marks it exactly where that is the kind of its piece.
    pub proof fn lemma_piece_at(self, i: int)
        requires
            self.consistent(),
            0 <= i < 64,
        ensures
            self.piece_at(i).is_some() <==> self.color_at(i).is_some(),
            self.piece_at(i).is_some() <==> self.kind_at(i).is_some(),
            self.piece_at(i).is_some() <==> bit(self.occupied(), i),
            forall|k: PieceKind| #[trigger]
                bit(self.kind_bits(k), i) <==> self.kind_at(i) == Some(k),
            forall|c: Color| #[trigger] bit(self.color_bits(c), i) <==> self.color_at(i) == Some(c),
    {
        self.lemma_consistent();
        assert(self.square_ok(i));
        lemma_or(self.white.0, self.black.0);
    }

    /// On a board whose masks agree, a piece stands where its color and its kind are
    /// both marked.
    pub proof fn lemma_has(self, i: int, c: Color, k: PieceKind)
        requires
            self.consistent(),
            0 <= i < 64,
        ensures
            self.piece_at(i) == Some(Piece { color: c, kind: k }) <==> bit(self.color_bits(c), i)
                && bit(self.kind_bits(k), i),
    {
        self.lemma_piece_at(i);
        assert(bit(self.kind_bits(k), i) <==> self.kind_at(i) == Some(k));
        assert(bit(self.color_bits(c), i) <==> self.color_at(i) == Some(c));
    }

    /// With exactly one king, the king's mask marks the king's square and no other.
    pub proof fn lemma_king(self, c: Color)
        requires
            self.one_king(c),
        ensures
            0 <= self.king_sq(c) < 64,
            forall|i: int| #[trigger] bit(self.king_bits(c), i) <==> i == self.king_sq(c),
            bit(self.kings.0, self.king_sq(c)),
            bit(self.color_bits(c), self.king_sq(c)),
    {
        lemma_lowest(self.king_bits(c));
        lemma_single(self.king_sq(c) as u64);
        lemma_and(self.kings.0, self.color_bits(c));
    }

    /// On a board of the game, the king of a color stands on its king square and nowhere else.
    pub proof fn lemma_king_where(self, c: Color, i: int)
        requires
            self.wf(),
            0 <= i < 64,
        ensures
            self.piece_at(i) == Some(Piece { color: c, kind: PieceKind::King }) <==> i
                == self.king_sq(c),
    {
        self.lemma_king(c);
        self.lemma_piece_at(i);
        lemma_and(self.kings.0, self.color_bits(c));
        assert(bit(self.king_bits(c), i) <==> i == self.king_sq(c));
        assert(bit(self.kind_bits(PieceKind::King), i) <==> self.kind_at(i) == Some(
            PieceKind::King,
        ));
        assert(bit(self.color_bits(c), i) <==> self.color_at(i) == Some(c));
    }

    /// A color whose king mask marks one square and no other has exactly one king.
    pub proof fn lemma_one_king(self, c: Color, k: int)
        requires
            0 <= k < 64,
            forall|i: int| 0 <= i < 64 ==> (bit(self.king_bits(c), i) <==> i == k),
        ensures
            self.one_king(c),
            self.king_sq(c) == k,
    {
        let m = self.king_bits(c);
        assert(bit(m, k));
        lemma_zero();
        lemma_lowest(m);
        assert(lowest(m) == k) by {
            if lowest(m) < k {
                assert(bit(m, lowest(m)));
            }
        }
        lemma_single(k as u64);
        lemma_equal(m, 1u64 << (k as u64));
    }

    /// Get the color at a certain square.
    pub fn get_color(&self, square: Square) -> (r: Option<Color>)
        requires
            square.wf(),
        ensures
            r == self.color_at(square.idx()),
    {
        if self.white.get(square) {
            Some(Color::White)
        } else if self.black.get(square) {
            Some(Color::Black)
        } else {
            None
        }
    }

    /// Get the piece type at a certain square.
    pub fn get_piece_kind(&self, square: Square) -> (r: Option<PieceKind>)
        requires
            square.wf(),
        ensures
            r == self.kind_at(square.idx()),
    {
        if self.pawns.get(square) {
            Some(PieceKind::Pawn)
        } else if self.knights.get(square) {
            Some(PieceKind::Knight)
        } else if self.bishops.get(square) {
            Some(PieceKind::Bishop)
        } else if self.rooks.get(square) {
            Some(PieceKind::Rook)
        } else if self.queens.get(square) {
            Some(PieceKind::Queen)
        } else if self.kings.get(square) {
            Some(PieceKind::King)
        } else {
            None
        }
    }

    /// Get the piece at a certain square.
    pub fn get(&self, square: Square) -> (r: Option<Piece>)
        requires
            square.wf(),
        ensures
            r == self.piece_at(square.idx()),
    {
        match self.get_color(square) {
            Some(color) => match self.get_piece_kind(square) {
                Some(kind) => Some(Piece { color, kind }),
                None => None,
            },
            None => None,
        }
    }

    /// Get the bitboard associated with a certain piece.
    #[inline]
    pub fn get_piece_bb(&self, piece: Piece) -> (r: BitBoard)
        ensures
            r.0 == self.kind_bits(piece.kind) & self.color_bits(piece.color),
            r@ == squares(self.kind_bits(piece.kind)).intersect(
                squares(self.color_bits(piece.color)),
            ),
    {
        let k = self.get_piece_kind_bb(piece.kind);
        let c = self.get_color_bb(piece.color);
        proof {
            lemma_and(k.0, c.0);
            assert(squares(k.0 & c.0) =~= squares(k.0).intersect(squares(c.0)));
        }
        BitBoard(k.0 & c.0)
    }

    /// This board with the mask of one kind replaced.
    pub open spec fn with_kind(self, k: PieceKind, b: BitBoard) -> Board {
        match k {
            PieceKind::Pawn => Board { pawns: b, ..self },
            PieceKind::Knight => Board { knights: b, ..self },
            PieceKind::Bishop => Board { bishops: b, ..self },
            PieceKind::Rook => Board { rooks: b, ..self },
            PieceKind::Queen => Board { queens: b, ..self },
            PieceKind::King => Board { kings: b, ..self },
        }
    }

    /// This board with square `i` marked for the color and the kind of a piece.
    pub open spec fn placed(self, i: int, p: Piece) -> Board {
        self.with_color(
            p.color,
            BitBoard(self.color_bits(p.color) | (1u64 << (i as u64))),
        ).with_kind(p.kind, BitBoard(self.kind_bits(p.kind) | (1u64 << (i as u64))))
    }

    /// This board with the mask of one color replaced.
    pub open spec fn with_color(self, c: Color, b: BitBoard) -> Board {
        match c {
            Color::White => Board { white: b, ..self },
            Color::Black => Board { black: b, ..self },
        }
    }

    /// Get the bitboard associated with a certain piece kind.
    #[inline]
    pub fn get_piece_kind_bb(&self, piece: PieceKind) -> (r: BitBoard)
        ensures
            r == BitBoard(self.kind_bits(piece)),
    {
        match piece {
            PieceKind::Pawn => self.pawns,
            PieceKind::Knight => self.knights,
            PieceKind::Bishop => self.bishops,
            PieceKind::Rook => self.rooks,
            PieceKind::Queen => self.queens,
            PieceKind::King => self.kings,
        }
    }

    /// Get an exclusive reference to the bitboard associated with a certain piece kind.
    #[inline]
    pub fn get_piece_kind_bb_mut(&mut self, piece: PieceKind) -> (r: &mut BitBoard)
        ensures
            *r == BitBoard(old(self).kind_bits(piece)),
            *final(self) == old(self).with_kind(piece, *final(r)),
    {
        match piece {
            PieceKind::Pawn => &mut self.pawns,
            PieceKind::Knight => &mut self.knights,
            PieceKind::Bishop => &mut self.bishops,
            PieceKind::Rook => &mut self.rooks,
            PieceKind::Queen => &mut self.queens,
            PieceKind::King => &mut self.kings,
        }
    }

    /// Get the bitboard associated with a certain color.
    #[inline]
    pub fn get_color_bb(&self, color: Color) -> (r: BitBoard)
        ensures
            r == BitBoard(self.color_bits(color)),
    {
        match color {
            Color::White => self.white,
            Color::Black => self.black,
        }
    }

    /// Get an exclusive reference to the bitboard associated with a certain color.
    #[inline]
    pub fn get_color_bb_mut(&mut self, color: Color) -> (r: &mut BitBoard)
        ensures
            *r == BitBoard(old(self).color_bits(color)),
            *final(self) == old(self).with_color(color, *final(r)),
    {
        match color {
            Color::White => &mut self.white,
            Color::Black => &mut self.black,
        }
    }

    /// Get the full board.
    #[inline]
    pub fn get_full_bb(&self) -> (r: BitBoard)
        ensures
            r.0 == self.occupied(),
            r@ == self.white@.union(self.black@),
    {
        proof {
            lemma_or(self.white.0, self.black.0);
            assert(squares(self.white.0 | self.black.0) =~= squares(self.white.0).union(
                squares(self.black.0),
            ));
        }
        BitBoard(self.white.0 | self.black.0)
    }

    /// What `all_kinds` marks.
    pub proof fn lemma_all_kinds(self)
        ensures
            forall|i: int| #[trigger]
                bit(self.all_kinds(), i) <==> (0 <= i < 64 && self.kinds_on(i) >= 1),
    {
        let u1 = self.pawns.0 | self.knights.0;
        let u2 = u1 | self.bishops.0;
        let u3 = u2 | self.rooks.0;
        let u4 = u3 | self.queens.0;
        lemma_or(self.pawns.0, self.knights.0);
        lemma_or(u1, self.bishops.0);
        lemma_or(u2, self.rooks.0);
        lemma_or(u3, self.queens.0);
        lemma_or(u4, self.kings.0);
    }

    /// The agreement of the masks, square by square.
    pub proof fn lemma_consistent(self)
        ensures
            self.consistent() <==> forall|i: int| 0 <= i < 64 ==> #[trigger] self.square_ok(i),
    {
        self.lemma_all_kinds();
        lemma_or(self.white.0, self.black.0);
        lemma_zero();
        lemma_and(self.white.0, self.black.0);
        lemma_and(self.pawns.0, self.knights.0);
        lemma_and(self.pawns.0, self.bishops.0);
        lemma_and(self.pawns.0, self.rooks.0);
        lemma_and(self.pawns.0, self.queens.0);
        lemma_and(self.pawns.0, self.kings.0);
        lemma_and(self.knights.0, self.bishops.0);
        lemma_and(self.knights.0, self.rooks.0);
        lemma_and(self.knights.0, self.queens.0);
        lemma_and(self.knights.0, self.kings.0);
        lemma_and(self.bishops.0, self.rooks.0);
        lemma_and(self.bishops.0, self.queens.0);
        lemma_and(self.bishops.0, self.kings.0);
        lemma_and(self.rooks.0, self.queens.0);
        lemma_and(self.rooks.0, self.kings.0);
        lemma_and(self.queens.0, self.kings.0);
        if self.consistent() {
            assert forall|i: int| 0 <= i < 64 implies #[trigger] self.square_ok(i) by {
                assert(bit(self.white.0 | self.black.0, i) == bit(self.all_kinds(), i));
                assert(!bit(self.white.0 & self.black.0, i));
                assert(!bit(self.pawns.0 & self.knights.0, i));
                assert(!bit(self.pawns.0 & self.bishops.0, i));
                assert(!bit(self.pawns.0 & self.rooks.0, i));
                assert(!bit(self.pawns.0 & self.queens.0, i));
                assert(!bit(self.pawns.0 & self.kings.0, i));
                assert(!bit(self.knights.0 & self.bishops.0, i));
                assert(!bit(self.knights.0 & self.rooks.0, i));
                assert(!bit(self.knights.0 & self.queens.0, i));
                assert(!bit(self.knights.0 & self.kings.0, i));
                assert(!bit(self.bishops.0 & self.rooks.0, i));
                assert(!bit(self.bishops.0 & self.queens.0, i));
                assert(!bit(self.bishops.0 & self.kings.0, i));
                assert(!bit(self.rooks.0 & self.queens.0, i));
                assert(!bit(self.rooks.0 & self.kings.0, i));
                assert(!bit(self.queens.0 & self.kings.0, i));
            }
        }
        if forall|i: int| 0 <= i < 64 ==> #[trigger] self.square_ok(i) {
            assert forall|i: int| 0 <= i < 64 implies bit(self.white.0 | self.black.0, i) == bit(
                self.all_kinds(),
                i,
            ) by {
                assert(self.square_ok(i));
            }
            lemma_equal(self.white.0 | self.black.0, self.all_kinds());
            assert forall|i: int| 0 <= i < 64 implies !bit(self.white.0 & self.black.0, i) by {
                assert(self.square_ok(i));
            }
            lemma_equal(self.white.0 & self.black.0, 0);
            assert forall|i: int| 0 <= i < 64 implies !bit(self.pawns.0 & self.knights.0, i) by {
                assert(self.square_ok(i));
            }
            lemma_equal(self.pawns.0 & self.knights.0, 0);
            assert forall|i: int| 0 <= i < 64 implies !bit(self.pawns.0 & self.bishops.0, i) by {
                assert(self.square_ok(i));
            }
            lemma_equal(self.pawns.0 & self.bishops.0, 0);
            assert forall|i: int| 0 <= i < 64 implies !bit(self.pawns.0 & self.rooks.0, i) by {
                assert(self.square_ok(i));
            }
            lemma_equal(self.pawns.0 & self.rooks.0, 0);
            assert forall|i: int| 0 <= i < 64 implies !bit(self.pawns.0 & self.queens.0, i) by {
                assert(self.square_ok(i));
            }
            lemma_equal(self.pawns.0 & self.queens.0, 0);
            assert forall|i: int| 0 <= i < 64 implies !bit(self.pawns.0 & self.kings.0, i) by {
                assert(self.square_ok(i));
            }
            lemma_equal(self.pawns.0 & self.kings.0, 0);
            assert forall|i: int| 0 <= i < 64 implies !bit(self.knights.0 & self.bishops.0, i) by {
                assert(self.square_ok(i));
            }
            lemma_equal(self.knights.0 & self.bishops.0, 0);
            assert forall|i: int| 0 <= i < 64 implies !bit(self.knights.0 & self.rooks.0, i) by {
                assert(self.square_ok(i));
            }
            lemma_equal(self.knights.0 & self.rooks.0, 0);
            assert forall|i: int| 0 <= i < 64 implies !bit(self.knights.0 & self.queens.0, i) by {
                assert(self.square_ok(i));
            }
            lemma_equal(self.knights.0 & self.queens.0, 0);
            assert forall|i: int| 0 <= i < 64 implies !bit(self.knights.0 & self.kings.0, i) by {
                assert(self.square_ok(i));
            }
            lemma_equal(self.knights.0 & self.kings.0, 0);
            assert forall|i: int| 0 <= i < 64 implies !bit(self.bishops.0 & self.rooks.0, i) by {
                assert(self.square_ok(i));
            }
            lemma_equal(self.bishops.0 & self.rooks.0, 0);
            assert forall|i: int| 0 <= i < 64 implies !bit(self.bishops.0 & self.queens.0, i) by {
                assert(self.square_ok(i));
            }
            lemma_equal(self.bishops.0 & self.queens.0, 0);
            assert forall|i: int| 0 <= i < 64 implies !bit(self.bishops.0 & self.kings.0, i) by {
                assert(self.square_ok(i));
            }
            lemma_equal(self.bishops.0 & self.kings.0, 0);
            assert forall|i: int| 0 <= i < 64 implies !bit(self.rooks.0 & self.queens.0, i) by {
                assert(self.square_ok(i));
            }
            lemma_equal(self.rooks.0 & self.queens.0, 0);
            assert forall|i: int| 0 <= i < 64 implies !bit(self.rooks.0 & self.kings.0, i) by {
                assert(self.square_ok(i));
            }
            lemma_equal(self.rooks.0 & self.kings.0, 0);
            assert forall|i: int| 0 <= i < 64 implies !bit(self.queens.0 & self.kings.0, i) by {
                assert(self.square_ok(i));
            }
            lemma_equal(self.queens.0 & self.kings.0, 0);
        }
    }

    /// Whether this is a board of the game.
    pub fn is_valid(&self) -> (r: bool)
        ensures
            r == self.wf(),
    {
        let agree = self.white.0 & self.black.0 == 0 && self.pawns.0 & self.knights.0 == 0
            && self.pawns.0 & self.bishops.0 == 0 && self.pawns.0 & self.rooks.0 == 0
            && self.pawns.0 & self.queens.0 == 0 && self.pawns.0 & self.kings.0 == 0
            && self.knights.0 & self.bishops.0 == 0 && self.knights.0 & self.rooks.0 == 0
            && self.knights.0 & self.queens.0 == 0 && self.knights.0 & self.kings.0 == 0
            && self.bishops.0 & self.rooks.0 == 0 && self.bishops.0 & self.queens.0 == 0
            && self.bishops.0 & self.kings.0 == 0 && self.rooks.0 & self.queens.0 == 0
            && self.rooks.0 & self.kings.0 == 0 && self.queens.0 & self.kings.0 == 0
            && self.white.0 | self.black.0 == self.pawns.0 | self.knights.0 | self.bishops.0
            | self.rooks.0 | self.queens.0 | self.kings.0;
        if !agree {
            return false;
        }
        let wk: u64 = self.kings.0 & self.white.0;
        let bk: u64 = self.kings.0 & self.black.0;
        if wk == 0 || bk == 0 {
            return false;
        }
        proof {
            lemma_lowest(wk);
            lemma_lowest(bk);
        }
        wk == 1u64 << wk.trailing_zeros() && bk == 1u64 << bk.trailing_zeros()
    }

    /// This board with square `i` unmarked in every mask.
    pub open spec fn cleared(self, i: int) -> Board {
        let keep = !(1u64 << (i as u64));
        Board {
            white: BitBoard(self.white.0 & keep),
            black: BitBoard(self.black.0 & keep),
            pawns: BitBoard(self.pawns.0 & keep),
            knights: BitBoard(self.knights.0 & keep),
            bishops: BitBoard(self.bishops.0 & keep),
            rooks: BitBoard(self.rooks.0 & keep),
            queens: BitBoard(self.queens.0 & keep),
            kings: BitBoard(self.kings.0 & keep),
        }
    }

    /// Unmarking a square takes the piece from it and leaves the other squares as they
    /// are.
    pub proof fn lemma_cleared(self, i: int)
        requires
            0 <= i < 64,
        ensures
            self.cleared(i).piece_at(i).is_none(),
            forall|j: int| j != i ==> #[trigger] self.cleared(i).piece_at(j) == self.piece_at(j),
            forall|j: int|
                j != i ==> (#[trigger] bit(self.cleared(i).occupied(), j) <==> bit(
                    self.occupied(),
                    j,
                )),
            self.consistent() ==> self.cleared(i).consistent(),
    {
        let k = i as u64;
        let after = self.cleared(i);
        lemma_clear(self.white.0, k);
        lemma_clear(self.black.0, k);
        lemma_clear(self.pawns.0, k);
        lemma_clear(self.knights.0, k);
        lemma_clear(self.bishops.0, k);
        lemma_clear(self.rooks.0, k);
        lemma_clear(self.queens.0, k);
        lemma_clear(self.kings.0, k);
        lemma_or(self.white.0, self.black.0);
        lemma_or(after.white.0, after.black.0);
        if self.consistent() {
            self.lemma_consistent();
            assert forall|j: int| 0 <= j < 64 implies #[trigger] after.square_ok(j) by {
                assert(self.square_ok(j));
            }
            after.lemma_consistent();
        }
    }

    /// Marking a square for a piece changes no other square; on a free square of a
    /// consistent board it places the piece.
    pub proof fn lemma_placed(self, i: int, p: Piece)
        requires
            0 <= i < 64,
        ensures
            forall|j: int| j != i ==> #[trigger] self.placed(i, p).piece_at(j) == self.piece_at(j),
            forall|j: int|
                j != i ==> (#[trigger] bit(self.placed(i, p).occupied(), j) <==> bit(
                    self.occupied(),
                    j,
                )),
            self.consistent() && self.piece_at(i).is_none() ==> self.placed(i, p).consistent()
                && self.placed(i, p).piece_at(i) == Some(p),
    {
        let k = i as u64;
        let after = self.placed(i, p);
        lemma_put(self.white.0, k);
        lemma_put(self.black.0, k);
        lemma_put(self.pawns.0, k);
        lemma_put(self.knights.0, k);
        lemma_put(self.bishops.0, k);
        lemma_put(self.rooks.0, k);
        lemma_put(self.queens.0, k);
        lemma_put(self.kings.0, k);
        lemma_or(self.white.0, self.black.0);
        lemma_or(after.white.0, after.black.0);
        if self.consistent() && self.piece_at(i).is_none() {
            self.lemma_piece_at(i);
            self.lemma_consistent();
            assert forall|j: int| 0 <= j < 64 implies #[trigger] after.square_ok(j) by {
                assert(self.square_ok(j));
            }
            after.lemma_consistent();
        }
    }

    /// Set a piece on the board, or clear a square.
    ///
    /// With a piece, the square is marked for the piece's color and kind and nothing is
    /// unmarked: on an empty square of a consistent board this places the piece. Without
    /// one, the square is unmarked everywhere.
    #[inline]
    pub fn set(&mut self, square: Square, piece: Option<Piece>)
        requires
            square.wf(),
        ensures
            match piece {
                Some(p) => {
                    &&& *final(self) == old(self).placed(square.idx(), p)
                    &&& old(self).consistent() && old(self).piece_at(square.idx()).is_none()
                        ==> final(self).consistent() && final(self).piece_at(square.idx())
                        == Some(p)
                },
                None => {
                    &&& *final(self) == old(self).cleared(square.idx())
                    &&& old(self).consistent() ==> final(self).consistent()
                    &&& final(self).piece_at(square.idx()).is_none()
                },
            },
            forall|i: int|
                0 <= i < 64 && i != square.idx() ==> #[trigger] final(self).piece_at(i) == old(
                    self,
                ).piece_at(i),
            forall|i: int|
                0 <= i < 64 && i != square.idx() ==> (#[trigger] bit(final(self).occupied(), i)
                    <==> bit(old(self).occupied(), i)),
    {
        match piece {
            Some(piece) => {
                proof {
                    self.lemma_placed(square.idx(), piece);
                }
                let c = self.get_color_bb_mut(piece.color);
                c.0 = c.0 | (1u64 << square.0);
                let b = self.get_piece_kind_bb_mut(piece.kind);
                b.0 = b.0 | (1u64 << square.0);
            },
            None => {
                proof {
                    self.lemma_cleared(square.idx());
                }
                let reset: u64 = !(1u64 << square.0);
                self.white.0 = self.white.0 & reset;
                self.black.0 = self.black.0 & reset;
                self.pawns.0 = self.pawns.0 & reset;
                self.knights.0 = self.knights.0 & reset;
                self.bishops.0 = self.bishops.0 & reset;
                self.rooks.0 = self.rooks.0 & reset;
                self.queens.0 = self.queens.0 & reset;
                self.kings.0 = self.kings.0 & reset;
            },
        }
    }

    /// Generate the starting board position.
    pub fn starting_position() -> (r: Board)
        ensures
            r == Board::start(),
            r.wf(),
    {
        proof {
            Board::lemma_start();
        }
        Board {
            white: BitBoard(0x00_00_00_00_00_00_FF_FF),
            black: BitBoard(0xFF_FF_00_00_00_00_00_00),
            pawns: BitBoard(0x00_FF_00_00_00_00_FF_00),
            knights: BitBoard(0x42_00_00_00_00_00_00_42),
            bishops: BitBoard(0x24_00_00_00_00_00_00_24),
            rooks: BitBoard(0x81_00_00_00_00_00_00_81),
            queens: BitBoard(0x08_00_00_00_00_00_00_08),
            kings: BitBoard(0x10_00_00_00_00_00_00_10),
        }
    }

    /// The board at the start of a game.
    pub open spec fn start() -> Board {
        Board {
            white: BitBoard(0x00_00_00_00_00_00_FF_FF),
            black: BitBoard(0xFF_FF_00_00_00_00_00_00),
            pawns: BitBoard(0x00_FF_00_00_00_00_FF_00),
            knights: BitBoard(0x42_00_00_00_00_00_00_42),
            bishops: BitBoard(0x24_00_00_00_00_00_00_24),
            rooks: BitBoard(0x81_00_00_00_00_00_00_81),
            queens: BitBoard(0x08_00_00_00_00_00_00_08),
            kings: BitBoard(0x10_00_00_00_00_00_00_10),
        }
    }

    /// The starting board is a board of the game, with the kings on e1 and e8.
    pub proof fn lemma_start()
        ensures
            Board::start().wf(),
            Board::start().king_sq(Color::White) == 4,
            Board::start().king_sq(Color::Black) == 60,
    {
        let b = Board::start();
        let w = b.white.0;
        let bl = b.black.0;
        let p = b.pawns.0;
        let n = b.knights.0;
        let bi = b.bishops.0;
        let r = b.rooks.0;
        let q = b.queens.0;
        let k = b.kings.0;
        assert(w & bl == 0 && p & n == 0 && p & bi == 0 && p & r == 0 && p & q == 0 && p & k == 0
            && n & bi == 0 && n & r == 0 && n & q == 0 && n & k == 0 && bi & r == 0 && bi & q == 0
            && bi & k == 0 && r & q == 0 && r & k == 0 && q & k == 0 && w | bl == p | n | bi | r | q
            | k && k & w == 1u64 << 4u64 && k & bl == 1u64 << 60u64) by (bit_vector)
            requires
                w == 0x00_00_00_00_00_00_FF_FFu64,
                bl == 0xFF_FF_00_00_00_00_00_00u64,
                p == 0x00_FF_00_00_00_00_FF_00u64,
                n == 0x42_00_00_00_00_00_00_42u64,
                bi == 0x24_00_00_00_00_00_00_24u64,
                r == 0x81_00_00_00_00_00_00_81u64,
                q == 0x08_00_00_00_00_00_00_08u64,
                k == 0x10_00_00_00_00_00_00_10u64,
        ;
        lemma_single(4);
        lemma_single(60);
        b.lemma_one_king(Color::White, 4);
        b.lemma_one_king(Color::Black, 60);
    }
}

impl Default for Board {
    /// The empty board.
    fn default() -> (r: Board)
        ensures
            r == Board::empty(),
    {
        Board {
            white: BitBoard(0),
            black: BitBoard(0),
            pawns: BitBoard(0),
            knights: BitBoard(0),
            bishops: BitBoard(0),
            rooks: BitBoard(0),
            queens: BitBoard(0),
            kings: BitBoard(0),
        }
    }
}

impl Board {
    /// The board without pieces.
    pub open spec fn empty() -> Board {
        Board {
            white: BitBoard(0),
            black: BitBoard(0),
            pawns: BitBoard(0),
            knights: BitBoard(0),
            bishops: BitBoard(0),
            rooks: BitBoard(0),
            queens: BitBoard(0),
            kings: BitBoard(0),
        }
    }
}

/// The text of one square of a board: the letter of its piece, or `_`, between spaces.
pub open spec fn cell_text(piece: Option<Piece>) -> Seq<char> {
    match piece {
        Some(p) => seq![' ', p.letter(), ' '],
        None => seq![' ', '_', ' '],
    }
}

/// The text of one square.
fn cell(piece: Option<Piece>) -> (r: &'static str)
    ensures
        r@ == cell_text(piece),
{
    proof {
        reveal_strlit(" P ");
        reveal_strlit(" N ");
        reveal_strlit(" B ");
        reveal_strlit(" R ");
        reveal_strlit(" Q ");
        reveal_strlit(" K ");
        reveal_strlit(" p ");
        reveal_strlit(" n ");
        reveal_strlit(" b ");
        reveal_strlit(" r ");
        reveal_strlit(" q ");
        reveal_strlit(" k ");
        reveal_strlit(" _ ");
    }
    match piece {
        Some(p) => match p.color {
            Color::White => match p.kind {
                PieceKind::Pawn => " P ",
                PieceKind::Knight => " N ",
                PieceKind::Bishop => " B ",
                PieceKind::Rook => " R ",
                PieceKind::Queen => " Q ",
                PieceKind::King => " K ",
            },
            Color::Black => match p.kind {
                PieceKind::Pawn => " p ",
                PieceKind::Knight => " n ",
                PieceKind::Bishop => " b ",
                PieceKind::Rook => " r ",
                PieceKind::Queen => " q ",
                PieceKind::King => " k ",
            },
        },
        None => " _ ",
    }
}

impl Board {
    /// The text of the first `n` squares of a rank.
    pub open spec fn row_text(self, rank: int, n: int) -> Seq<char>
        decreases n,
    {
        if n <= 0 {
            Seq::empty()
        } else {
            self.row_text(rank, n - 1) + cell_text(self.piece_at(rank * 8 + n - 1))
        }
    }

    /// The text of the top `n` ranks, the eighth rank first, each on a line, under a line
    /// that names the files.
    pub open spec fn grid_text(self, n: int) -> Seq<char>
        decreases n,
    {
        if n <= 0 {
            " a  b  c  d  e  f  g  h\n"@
        } else {
            self.grid_text(n - 1) + self.row_text(8 - n, 8) + seq!['\n']
        }
    }

    /// The board as text: a line that names the files, then eight lines from the eighth
    /// rank down, on each the pieces from the a-file on by their letters, `_` for a
    /// free square.
    pub fn to_string(&self) -> (r: String)
        ensures
            r@ == self.grid_text(8),
    {
        let mut out = String::new();
        out.append(" a  b  c  d  e  f  g  h\n");
        let mut line: u8 = 0;
        proof {
            reveal_strlit("\n");
            assert(out@ =~= self.grid_text(0));
        }
        while line < 8
            invariant
                line <= 8,
                out@ == self.grid_text(line as int),
                "\n"@ == seq!['\n'],
            decreases 8 - line,
        {
            let rank: u8 = 7 - line;
            let mut file: u8 = 0;
            let ghost before = out@;
            while file < 8
                invariant
                    file <= 8,
                    rank < 8,
                    out@ == before + self.row_text(rank as int, file as int),
                decreases 8 - file,
            {
                let ghost row = self.row_text(rank as int, file as int);
                let piece = self.get(Square(rank * 8 + file));
                out.append(cell(piece));
                proof {
                    assert(out@ =~= before + (row + cell_text(self.piece_at(rank * 8 + file))));
                }
                file = file + 1;
            }
            out.append("\n");
            proof {
                assert(out@ =~= self.grid_text(line as int) + self.row_text(rank as int, 8)
                    + seq!['\n']);
            }
            line = line + 1;
        }
        out
    }
}

} // verus!
