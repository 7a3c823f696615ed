//! The full game position, and the step from a position to the next.

use vstd::prelude::*;
use crate::bitboard::constants::{A_FILE, H_FILE};
use crate::bitboard::BitBoard;
use crate::bits::bit;
use crate::board::Board;
use crate::moves::{Capture, MoveExt};
use crate::piece::{Color, Piece, PieceKind};
use crate::square::Square;

verus! {

/// Player castling availability: a set of four flags.
#[derive(Debug, Clone, Copy, PartialEq, Eq, Hash, Structural)]
pub struct CastlingRights {
    pub bits: u8,
}

/// What taking a flag out of a set of flags, or putting one in, does to each flag.
pub proof fn lemma_flags(x: u8, f: u8, g: u8)
    by (bit_vector)
    requires
        f == 1 || f == 2 || f == 4 || f == 8,
        g == 1 || g == 2 || g == 4 || g == 8,
    ensures
        ((x & !f) & g == g) <==> (g != f && x & g == g),
        ((x | f) & g == g) <==> (g == f || x & g == g),
        x < 16 ==> (x & !f) < 16 && (x | f) < 16,
        0u8 & g != g,
        0x0fu8 & g == g,
{
}

impl CastlingRights {
    /// White kingside.
    pub const WHITE_OO: u8 = 0x01;

    /// White queenside.
    pub const WHITE_OOO: u8 = 0x02;

    /// Black kingside.
    pub const BLACK_OO: u8 = 0x04;

    /// Black queenside.
    pub const BLACK_OOO: u8 = 0x08;

    /// The kingside flag of a color.
    pub open spec fn oo_flag(c: Color) -> u8 {
        match c {
            Color::White => 0x01,
            Color::Black => 0x04,
        }
    }

    /// The queenside flag of a color.
    pub open spec fn ooo_flag(c: Color) -> u8 {
        match c {
            Color::White => 0x02,
            Color::Black => 0x08,
        }
    }

    /// Whether a flag is in the set.
    pub open spec fn has(self, flag: u8) -> bool {
        self.bits & flag == flag
    }

    /// Whether the color may still castle kingside.
    pub open spec fn oo(self, c: Color) -> bool {
        self.has(Self::oo_flag(c))
    }

    /// Whether the color may still castle queenside.
    pub open spec fn ooo(self, c: Color) -> bool {
        self.has(Self::ooo_flag(c))
    }

    /// The set without a flag.
    pub open spec fn without(self, flag: u8) -> CastlingRights {
        CastlingRights { bits: self.bits & !flag }
    }

    /// No flag beyond the four.
    pub open spec fn wf(self) -> bool {
        self.bits < 16
    }

    /// What is left of each flag when one flag is taken out.
    pub proof fn lemma_without(r: CastlingRights, f: u8)
        requires
            f == 1 || f == 2 || f == 4 || f == 8,
        ensures
            r.without(f).has(1) <==> f != 1 && r.has(1),
            r.without(f).has(2) <==> f != 2 && r.has(2),
            r.without(f).has(4) <==> f != 4 && r.has(4),
            r.without(f).has(8) <==> f != 8 && r.has(8),
            r.wf() ==> r.without(f).wf(),
    {
        lemma_flags(r.bits, f, 1);
        lemma_flags(r.bits, f, 2);
        lemma_flags(r.bits, f, 4);
        lemma_flags(r.bits, f, 8);
    }

    /// No rights at all.
    #[inline]
    pub fn empty() -> (r: CastlingRights)
        ensures
            r.bits == 0,
            forall|c: Color| !r.oo(c) && !r.ooo(c),
    {
        proof {
            lemma_flags(0, 1, 1);
            lemma_flags(0, 1, 2);
            lemma_flags(0, 1, 4);
            lemma_flags(0, 1, 8);
        }
        CastlingRights { bits: 0 }
    }

    /// All four rights.
    #[inline]
    pub fn all() -> (r: CastlingRights)
        ensures
            r.bits == 0x0f,
            forall|c: Color| r.oo(c) && r.ooo(c),
    {
        proof {
            lemma_flags(0, 1, 1);
            lemma_flags(0, 1, 2);
            lemma_flags(0, 1, 4);
            lemma_flags(0, 1, 8);
        }
        CastlingRights { bits: 0x0f }
    }

    /// The flags as a number.
    #[inline]
    pub fn bits(&self) -> (r: u8)
        ensures
            r == self.bits,
    {
        self.bits
    }

    /// Whether all of the given flags are in the set.
    #[inline]
    pub fn contains(&self, flag: u8) -> (r: bool)
        ensures
            r == self.has(flag),
    {
        self.bits & flag == flag
    }

    /// Puts the given flags into the set.
    #[inline]
    pub fn insert(&mut self, flag: u8)
        ensures
            final(self).bits == old(self).bits | flag,
    {
        self.bits = self.bits | flag;
    }

    /// The rights without the kingside right of a color.
    #[inline]
    pub fn unset_oo(self, color: Color) -> (r: CastlingRights)
        ensures
            r == self.without(Self::oo_flag(color)),
            !r.oo(color),
            r.oo(color.other()) == self.oo(color.other()),
            forall|c: Color| r.ooo(c) == self.ooo(c),
            self.wf() ==> r.wf(),
    {
        proof {
            lemma_flags(self.bits, Self::oo_flag(color), 1);
            lemma_flags(self.bits, Self::oo_flag(color), 2);
            lemma_flags(self.bits, Self::oo_flag(color), 4);
            lemma_flags(self.bits, Self::oo_flag(color), 8);
        }
        match color {
            Color::White => CastlingRights { bits: self.bits & !0x01u8 },
            Color::Black => CastlingRights { bits: self.bits & !0x04u8 },
        }
    }

    /// The rights without the queenside right of a color.
    #[inline]
    pub fn unset_ooo(self, color: Color) -> (r: CastlingRights)
        ensures
            r == self.without(Self::ooo_flag(color)),
            !r.ooo(color),
            r.ooo(color.other()) == self.ooo(color.other()),
            forall|c: Color| r.oo(c) == self.oo(c),
            self.wf() ==> r.wf(),
    {
        proof {
            lemma_flags(self.bits, Self::ooo_flag(color), 1);
            lemma_flags(self.bits, Self::ooo_flag(color), 2);
            lemma_flags(self.bits, Self::ooo_flag(color), 4);
            lemma_flags(self.bits, Self::ooo_flag(color), 8);
        }
        match color {
            Color::White => CastlingRights { bits: self.bits & !0x02u8 },
            Color::Black => CastlingRights { bits: self.bits & !0x08u8 },
        }
    }
}

/// The square on which the king of a color starts.
pub open spec fn king_home(c: Color) -> int {
    match c {
        Color::White => 4,
        Color::Black => 60,
    }
}

/// The corner on which the kingside rook of a color starts.
pub open spec fn rook_home_oo(c: Color) -> int {
    match c {
        Color::White => 7,
        Color::Black => 63,
    }
}

/// The corner on which the queenside rook of a color starts.
pub open spec fn rook_home_ooo(c: Color) -> int {
    match c {
        Color::White => 0,
        Color::Black => 56,
    }
}

/// Full chessboard state.
#[derive(Debug, Clone, Copy, PartialEq, Eq, Hash, Structural)]
pub struct Position {
    /// Piece positions.
    pub board: Board,
    /// Whose turn it is to move.
    pub active_color: Color,
    /// Castling rights flags.
    pub castling: CastlingRights,
    /// En passant target square.
    pub ep_target: Option<Square>,
    /// Number of plies since the last capture or pawn move. It stops at 255.
    pub halfmove_clock: u8,
    /// Number of the move: it starts at 1 and goes up after black's move. It stops at 65535.
    pub fullmove_counter: u16,
}

impl Position {
    /// Whether the piece of that color and kind stands on square `i`.
    pub open spec fn has(self, i: int, color: Color, kind: PieceKind) -> bool {
        self.board.piece_at(i) == Some(Piece { color, kind })
    }

    /// A right of a color to castle is held only while its king and rook stand where
    /// they started.
    pub open spec fn side_ok(self, c: Color) -> bool {
        &&& self.castling.oo(c) ==> self.has(king_home(c), c, PieceKind::King) && self.has(
            rook_home_oo(c),
            c,
            PieceKind::Rook,
        )
        &&& self.castling.ooo(c) ==> self.has(king_home(c), c, PieceKind::King) && self.has(
            rook_home_ooo(c),
            c,
            PieceKind::Rook,
        )
    }

    /// The rights to castle agree with the board.
    pub open spec fn castling_ok(self) -> bool {
        self.side_ok(Color::White) && self.side_ok(Color::Black)
    }

    /// The square of the pawn that an en passant capture onto `target` takes.
    pub open spec fn ep_victim(self, target: int) -> int {
        match self.active_color {
            Color::White => target - 8,
            Color::Black => target + 8,
        }
    }

    /// The en passant target, when there is one, is the empty square behind a pawn of
    /// the side that has just moved, on that side's third rank.
    pub open spec fn ep_ok(self) -> bool {
        match self.ep_target {
            None => true,
            Some(s) => {
                &&& match self.active_color {
                    Color::White => 40 <= s.idx() < 48,
                    Color::Black => 16 <= s.idx() < 24,
                }
                &&& self.board.piece_at(s.idx()).is_none()
                &&& self.has(
                    self.ep_victim(s.idx()),
                    self.active_color.other(),
                    PieceKind::Pawn,
                )
            },
        }
    }

    /// A position of the game.
    pub open spec fn wf(self) -> bool {
        &&& self.board.wf()
        &&& self.castling.wf()
        &&& self.castling_ok()
        &&& self.ep_ok()
    }

    /// Whether the piece of that color and kind stands on the square with that index.
    fn holds(&self, index: u8, color: Color, kind: PieceKind) -> (r: bool)
        requires
            index < 64,
            self.board.consistent(),
        ensures
            r == self.has(index as int, color, kind),
    {
        proof {
            self.board.lemma_has(index as int, color, kind);
        }
        self.board.get_color_bb(color).get(Square(index)) && self.board.get_piece_kind_bb(
            kind,
        ).get(Square(index))
    }

    /// Whether the rights of a color to castle agree with the board.
    fn side_valid(&self, color: Color) -> (r: bool)
        requires
            self.board.consistent(),
        ensures
            r == self.side_ok(color),
    {
        let (home, corner_oo, corner_ooo, oo, ooo): (u8, u8, u8, u8, u8) = match color {
            Color::White => (4, 7, 0, CastlingRights::WHITE_OO, CastlingRights::WHITE_OOO),
            Color::Black => (60, 63, 56, CastlingRights::BLACK_OO, CastlingRights::BLACK_OOO),
        };
        let king = self.holds(home, color, PieceKind::King);
        (!self.castling.contains(oo) || (king && self.holds(corner_oo, color, PieceKind::Rook)))
            && (!self.castling.contains(ooo) || (king && self.holds(
            corner_ooo,
            color,
            PieceKind::Rook,
        )))
    }

    /// Whether this is a position of the game.
    pub fn is_valid(&self) -> (r: bool)
        ensures
            r == self.wf(),
    {
        if !self.board.is_valid() || self.castling.bits >= 16 {
            return false;
        }
        if !self.side_valid(Color::White) || !self.side_valid(Color::Black) {
            return false;
        }
        match self.ep_target {
            None => true,
            Some(s) => {
                let on_rank = match self.active_color {
                    Color::White => 40 <= s.0 && s.0 < 48,
                    Color::Black => 16 <= s.0 && s.0 < 24,
                };
                if !on_rank {
                    return false;
                }
                let victim: u8 = match self.active_color {
                    Color::White => s.0 - 8,
                    Color::Black => s.0 + 8,
                };
                proof {
                    self.board.lemma_piece_at(s.idx());
                }
                !self.board.get_full_bb().get(s) && self.holds(
                    victim,
                    self.active_color.opposite(),
                    PieceKind::Pawn,
                )
            },
        }
    }

    /// The position at the start of a game.
    pub open spec fn start() -> Position {
        Position {
            board: Board::start(),
            active_color: Color::White,
            castling: CastlingRights { bits: 0x0f },
            ep_target: None,
            halfmove_clock: 0,
            fullmove_counter: 1,
        }
    }

    /// The starting position.
    pub fn starting() -> (r: Position)
        ensures
            r == Position::start(),
            r.wf(),
    {
        proof {
            Position::lemma_start();
        }
        Position {
            board: Board::starting_position(),
            active_color: Color::White,
            castling: CastlingRights::all(),
            ep_target: None,
            halfmove_clock: 0,
            fullmove_counter: 1,
        }
    }

    /// The starting position is a position of the game.
    pub proof fn lemma_start()
        ensures
            Position::start().wf(),
    {
        let p = Position::start();
        Board::lemma_start();
        p.board.lemma_king_where(Color::White, 4);
        p.board.lemma_king_where(Color::Black, 60);
        p.board.lemma_piece_at(0);
        p.board.lemma_piece_at(7);
        p.board.lemma_piece_at(56);
        p.board.lemma_piece_at(63);
        let r = p.board.rooks.0;
        let w = p.board.white.0;
        let b = p.board.black.0;
        assert((r >> 0u64) & 1u64 == 1u64 && (r >> 7u64) & 1u64 == 1u64 && (r >> 56u64) & 1u64
            == 1u64 && (r >> 63u64) & 1u64 == 1u64 && (w >> 0u64) & 1u64 == 1u64 && (w >> 7u64)
            & 1u64 == 1u64 && (b >> 56u64) & 1u64 == 1u64 && (b >> 63u64) & 1u64 == 1u64)
            by (bit_vector)
            requires
                r == 0x81_00_00_00_00_00_00_81u64,
                w == 0x00_00_00_00_00_00_FF_FFu64,
                b == 0xFF_FF_00_00_00_00_00_00u64,
        ;
        assert(bit(r, 0) && bit(r, 7) && bit(r, 56) && bit(r, 63));
        assert(bit(w, 0) && bit(w, 7) && bit(b, 56) && bit(b, 63));
        assert(p.board.kind_bits(PieceKind::Rook) == r);
        assert(p.board.color_bits(Color::White) == w);
        assert(p.board.color_bits(Color::Black) == b);
    }

    /// Number of squares, by index, between the two ends of a move.
    pub open spec fn span(m: MoveExt) -> int {
        if m.to.0 > m.from.0 {
            m.to.0 - m.from.0
        } else {
            m.from.0 - m.to.0
        }
    }

    /// A king that goes two squares along its rank castles.
    pub open spec fn is_castle(m: MoveExt) -> bool {
        m.piece_kind == PieceKind::King && Self::span(m) == 2
    }

    /// A pawn that goes two ranks makes a double step.
    pub open spec fn is_double_step(m: MoveExt) -> bool {
        m.piece_kind == PieceKind::Pawn && Self::span(m) == 16
    }

    /// The corner from which the rook comes in a castling move.
    pub open spec fn rook_from(m: MoveExt) -> int {
        if m.to.0 > m.from.0 {
            m.from.0 + 3
        } else {
            m.from.0 - 4
        }
    }

    /// The square next to the king's start on which the rook lands in a castling move.
    pub open spec fn rook_to(m: MoveExt) -> int {
        if m.to.0 > m.from.0 {
            m.from.0 + 1
        } else {
            m.from.0 - 1
        }
    }

    /// The kind of the piece that stands on the destination after the move.
    pub open spec fn placed(m: MoveExt) -> PieceKind {
        match m.promotion {
            Some(k) => k,
            None => m.piece_kind,
        }
    }

    /// The move can be applied to this position: what it says of the board is true.
    ///
    /// The moving piece stands on the origin; the destination holds what the move says
    /// it takes, never a king, and else nothing; only a pawn promotes, on the last rank;
    /// a castling king starts at home with its rook in the corner and a free square
    /// beside it; a double step starts on the pawn's first rank and passes a free square.
    pub open spec fn fits(self, m: MoveExt) -> bool {
        let us = self.active_color;
        let from = m.from.idx();
        let to = m.to.idx();
        &&& m.from.wf() && m.to.wf() && from != to
        &&& self.has(from, us, m.piece_kind)
        &&& match m.capture {
            Some(Capture::Regular(k)) => self.has(to, us.other(), k) && k != PieceKind::King,
            Some(Capture::EnPassant) => m.piece_kind == PieceKind::Pawn && self.ep_target == Some(
                m.to,
            ),
            None => self.board.piece_at(to).is_none(),
        }
        &&& match m.promotion {
            Some(k) => m.piece_kind == PieceKind::Pawn && k.promotable() && to / 8 == match us {
                Color::White => 7int,
                Color::Black => 0int,
            },
            None => true,
        }
        &&& Self::is_castle(m) ==> {
            &&& from == king_home(us)
            &&& m.capture.is_none()
            &&& self.has(Self::rook_from(m), us, PieceKind::Rook)
            &&& self.board.piece_at(Self::rook_to(m)).is_none()
        }
        &&& Self::is_double_step(m) ==> match us {
            Color::White => 8 <= from < 16 && to == from + 16 && self.board.piece_at(
                from + 8,
            ).is_none(),
            Color::Black => 48 <= from < 56 && to == from - 16 && self.board.piece_at(
                from - 8,
            ).is_none(),
        }
    }

    /// What stands on square `i` after the move.
    pub open spec fn piece_after(self, m: MoveExt, i: int) -> Option<Piece> {
        let us = self.active_color;
        if i == m.to.idx() {
            Some(Piece { color: us, kind: Self::placed(m) })
        } else if i == m.from.idx() {
            None
        } else if m.capture == Some(Capture::EnPassant) && i == self.ep_victim(m.to.idx()) {
            None
        } else if Self::is_castle(m) && i == Self::rook_from(m) {
            None
        } else if Self::is_castle(m) && i == Self::rook_to(m) {
            Some(Piece { color: us, kind: PieceKind::Rook })
        } else {
            self.board.piece_at(i)
        }
    }

    /// The castling rights after the move.
    ///
    /// A king's move takes both rights of its side. A rook's move from the a-file takes
    /// the queenside right of its side, from the h-file the kingside right. The capture
    /// of a rook in a corner of the other side's first rank takes that side's right there.
    pub open spec fn rights_after(self, m: MoveExt) -> CastlingRights {
        let us = self.active_color;
        let kept = self.rights_kept(m);
        if m.piece_kind == PieceKind::King {
            kept.without(CastlingRights::oo_flag(us)).without(CastlingRights::ooo_flag(us))
        } else if m.piece_kind == PieceKind::Rook && m.from.0 % 8 == 0 {
            kept.without(CastlingRights::ooo_flag(us))
        } else if m.piece_kind == PieceKind::Rook && m.from.0 % 8 == 7 {
            kept.without(CastlingRights::oo_flag(us))
        } else {
            kept
        }
    }

    /// The castling rights that the capture of the move leaves.
    pub open spec fn rights_kept(self, m: MoveExt) -> CastlingRights {
        let them = self.active_color.other();
        if m.capture == Some(Capture::Regular(PieceKind::Rook)) && m.to.idx() == rook_home_ooo(
            them,
        ) {
            self.castling.without(CastlingRights::ooo_flag(them))
        } else if m.capture == Some(Capture::Regular(PieceKind::Rook)) && m.to.idx()
            == rook_home_oo(them) {
            self.castling.without(CastlingRights::oo_flag(them))
        } else {
            self.castling
        }
    }

    /// The en passant target after the move: the square a double step has passed.
    pub open spec fn ep_after(self, m: MoveExt) -> Option<Square> {
        if Self::is_double_step(m) {
            match self.active_color {
                Color::White => Some(Square((m.from.0 + 8) as u8)),
                Color::Black => Some(Square((m.from.0 - 8) as u8)),
            }
        } else {
            None
        }
    }

    /// The halfmove clock after the move: zero after a pawn move or a capture, else
    /// one more, up to 255.
    pub open spec fn clock_after(self, m: MoveExt) -> int {
        if m.piece_kind == PieceKind::Pawn || m.capture.is_some() {
            0
        } else if self.halfmove_clock < 255 {
            self.halfmove_clock + 1
        } else {
            255
        }
    }

    /// The fullmove counter after the move: one more after black's move, up to 65535.
    pub open spec fn counter_after(self) -> int {
        if self.active_color == Color::Black && self.fullmove_counter < 65535 {
            self.fullmove_counter + 1
        } else {
            self.fullmove_counter as int
        }
    }

    /// The board after the move: what is taken leaves the board, the piece leaves its
    /// origin and stands on the destination, and a castling king takes its rook along.
    pub open spec fn board_after(self, m: MoveExt) -> Board {
        let us = self.active_color;
        let to = m.to.idx();
        let taken = match m.capture {
            Some(Capture::Regular(_)) => self.board.cleared(to),
            Some(Capture::EnPassant) => self.board.cleared(self.ep_victim(to)),
            None => self.board,
        };
        let moved = taken.cleared(m.from.idx()).placed(
            to,
            Piece { color: us, kind: Self::placed(m) },
        );
        if Self::is_castle(m) {
            moved.cleared(Self::rook_from(m)).placed(
                Self::rook_to(m),
                Piece { color: us, kind: PieceKind::Rook },
            )
        } else {
            moved
        }
    }

    /// The position after the move.
    pub open spec fn after(self, m: MoveExt) -> Position {
        Position {
            board: self.board_after(m),
            active_color: self.active_color.other(),
            castling: self.rights_after(m),
            ep_target: self.ep_after(m),
            halfmove_clock: self.clock_after(m) as u8,
            fullmove_counter: self.counter_after() as u16,
        }
    }

    /// After a move that fits, the board holds on every square what the move leaves
    /// there.
    pub proof fn lemma_after(self, m: MoveExt)
        requires
            self.wf(),
            self.fits(m),
        ensures
            self.steps_to(m, self.after(m)),
            self.after(m).wf(),
    {
        let us = self.active_color;
        let to = m.to.idx();
        let from = m.from.idx();
        let taken = match m.capture {
            Some(Capture::Regular(_)) => self.board.cleared(to),
            Some(Capture::EnPassant) => self.board.cleared(self.ep_victim(to)),
            None => self.board,
        };
        match m.capture {
            Some(Capture::Regular(_)) => {
                self.board.lemma_cleared(to);
            },
            Some(Capture::EnPassant) => {
                self.board.lemma_cleared(self.ep_victim(to));
            },
            None => {},
        }
        let lifted = taken.cleared(from);
        taken.lemma_cleared(from);
        let piece = Piece { color: us, kind: Self::placed(m) };
        let moved = lifted.placed(to, piece);
        lifted.lemma_placed(to, piece);
        if Self::is_castle(m) {
            let rook = Piece { color: us, kind: PieceKind::Rook };
            moved.lemma_cleared(Self::rook_from(m));
            moved.cleared(Self::rook_from(m)).lemma_placed(Self::rook_to(m), rook);
        }
        let next = self.after(m);
        assert forall|i: int| 0 <= i < 64 implies #[trigger] next.board.piece_at(i)
            == self.piece_after(m, i) by {}
        self.lemma_step_wf(m, next);
    }

    /// `next` is this position after the move.
    pub open spec fn steps_to(self, m: MoveExt, next: Position) -> bool {
        &&& next.board.consistent()
        &&& forall|i: int|
            0 <= i < 64 ==> #[trigger] next.board.piece_at(i) == self.piece_after(m, i)
        &&& next.active_color == self.active_color.other()
        &&& next.castling == self.rights_after(m)
        &&& next.ep_target == self.ep_after(m)
        &&& next.halfmove_clock == self.clock_after(m)
        &&& next.fullmove_counter == self.counter_after()
    }

    /// After a move that fits, each color still has its king, on the square where the
    /// move left it.
    pub proof fn lemma_kings_after(self, m: MoveExt, next: Position, c: Color)
        requires
            self.wf(),
            self.fits(m),
            self.steps_to(m, next),
        ensures
            next.board.one_king(c),
            next.board.king_sq(c) == (if c == self.active_color && m.piece_kind
                == PieceKind::King {
                m.to.idx()
            } else {
                self.board.king_sq(c)
            }),
    {
        let k = if c == self.active_color && m.piece_kind == PieceKind::King {
            m.to.idx()
        } else {
            self.board.king_sq(c)
        };
        self.board.lemma_king(c);
        assert forall|i: int| 0 <= i < 64 implies (bit(next.board.king_bits(c), i) <==> i == k) by {
            next.board.lemma_piece_at(i);
            crate::bits::lemma_and(next.board.kings.0, next.board.color_bits(c));
            assert(bit(next.board.kind_bits(PieceKind::King), i) <==> next.board.kind_at(i)
                == Some(PieceKind::King));
            assert(bit(next.board.color_bits(c), i) <==> next.board.color_at(i) == Some(c));
            assert(next.board.piece_at(i) == self.piece_after(m, i));
            self.board.lemma_king_where(c, i);
            self.board.lemma_king_where(c, m.to.idx());
            self.board.lemma_king_where(c, m.from.idx());
        }
        next.board.lemma_one_king(c, k);
    }

    /// A move that fits leads from a position of the game to a position of the game.
    pub proof fn lemma_step_wf(self, m: MoveExt, next: Position)
        requires
            self.wf(),
            self.fits(m),
            self.steps_to(m, next),
        ensures
            next.wf(),
    {
        let us = self.active_color;
        let them = us.other();
        self.lemma_kings_after(m, next, Color::White);
        self.lemma_kings_after(m, next, Color::Black);
        let kept = self.rights_kept(m);
        let half = kept.without(CastlingRights::oo_flag(us));
        CastlingRights::lemma_without(self.castling, 1);
        CastlingRights::lemma_without(self.castling, 2);
        CastlingRights::lemma_without(self.castling, 4);
        CastlingRights::lemma_without(self.castling, 8);
        CastlingRights::lemma_without(kept, 1);
        CastlingRights::lemma_without(kept, 2);
        CastlingRights::lemma_without(kept, 4);
        CastlingRights::lemma_without(kept, 8);
        CastlingRights::lemma_without(half, 2);
        CastlingRights::lemma_without(half, 8);
        assert(next.castling.wf());
        assert(next.board.piece_at(0) == self.piece_after(m, 0));
        assert(next.board.piece_at(4) == self.piece_after(m, 4));
        assert(next.board.piece_at(7) == self.piece_after(m, 7));
        assert(next.board.piece_at(56) == self.piece_after(m, 56));
        assert(next.board.piece_at(60) == self.piece_after(m, 60));
        assert(next.board.piece_at(63) == self.piece_after(m, 63));
        assert(self.side_ok(Color::White) && self.side_ok(Color::Black));
        assert(next.side_ok(Color::White));
        assert(next.side_ok(Color::Black));
        assert(next.ep_ok()) by {
            if Self::is_double_step(m) {
                let s = next.ep_target.unwrap().idx();
                assert(next.board.piece_at(s) == self.piece_after(m, s));
                assert(next.board.piece_at(m.to.idx()) == self.piece_after(m, m.to.idx()));
            }
        }
    }

    /// Takes the right to castle with the rook that has left `square` from the given
    /// color: the queenside right for a square on the a-file, the kingside right for one
    /// on the h-file.
    #[inline]
    fn reset_rook_castling(&mut self, square: Square, color: Color)
        requires
            square.wf(),
        ensures
            *final(self) == (Position {
                castling: if square.0 % 8 == 0 {
                    old(self).castling.without(CastlingRights::ooo_flag(color))
                } else if square.0 % 8 == 7 {
                    old(self).castling.without(CastlingRights::oo_flag(color))
                } else {
                    old(self).castling
                },
                ..*old(self)
            }),
    {
        let square_bb = BitBoard::from_square(square);
        proof {
            crate::bitboard::constants::lemma_files();
            crate::bits::lemma_test(A_FILE, square.0 as u64);
            crate::bits::lemma_test(H_FILE, square.0 as u64);
            let s = square_bb.0;
            assert(s & A_FILE == A_FILE & s && s & H_FILE == H_FILE & s) by (bit_vector);
        }
        if square_bb.0 & A_FILE != 0 {
            self.castling = self.castling.unset_ooo(color);
        } else if square_bb.0 & H_FILE != 0 {
            self.castling = self.castling.unset_oo(color);
        }
    }

    /// Apply a move without preliminary checks: the move must fit the position.
    ///
    /// The piece leaves its origin and stands on the destination, as the kind it promotes
    /// to if it promotes; what it captures leaves the board; a castling king takes its
    /// rook along; rights, en passant target, clocks and the side to move follow.
    pub fn apply_move_unchecked(&mut self, p_move: MoveExt)
        requires
            old(self).wf(),
            old(self).fits(p_move),
        ensures
            *final(self) == old(self).after(p_move),
            old(self).steps_to(p_move, *final(self)),
            final(self).wf(),
    {
        let ghost before = *self;
        let us = self.active_color;
        let them = us.opposite();
        let from = p_move.from;
        let to = p_move.to;
        let kind = p_move.piece_kind;
        let span: u8 = if to.0 > from.0 {
            to.0 - from.0
        } else {
            from.0 - to.0
        };

        // what is taken leaves the board
        match p_move.capture {
            Some(Capture::Regular(cap)) => {
                self.board.set(to, None);
                if cap == PieceKind::Rook {
                    let (corner_ooo, corner_oo): (u8, u8) = match them {
                        Color::White => (0, 7),
                        Color::Black => (56, 63),
                    };
                    if to.0 == corner_ooo {
                        self.castling = self.castling.unset_ooo(them);
                    } else if to.0 == corner_oo {
                        self.castling = self.castling.unset_oo(them);
                    }
                }
            },
            Some(Capture::EnPassant) => {
                let victim = match us {
                    Color::White => Square(to.0 - 8),
                    Color::Black => Square(to.0 + 8),
                };
                self.board.set(victim, None);
            },
            None => {},
        }

        // the piece moves
        let placed = match p_move.promotion {
            Some(k) => k,
            None => kind,
        };
        self.board.set(from, None);
        self.board.set(to, Some(Piece { color: us, kind: placed }));

        // rights of the side that moved
        let ghost taken = self.castling;
        if kind == PieceKind::King {
            self.castling = self.castling.unset_oo(us);
            self.castling = self.castling.unset_ooo(us);
            if span == 2 {
                let (rook_from, rook_to) = if to.0 > from.0 {
                    (Square(from.0 + 3), Square(from.0 + 1))
                } else {
                    (Square(from.0 - 4), Square(from.0 - 1))
                };
                self.board.set(rook_from, None);
                self.board.set(rook_to, Some(Piece { color: us, kind: PieceKind::Rook }));
            }
        } else if kind == PieceKind::Rook {
            self.reset_rook_castling(from, us);
        }
        proof {
            assert(taken == before.rights_kept(p_move));
            assert(self.castling == before.rights_after(p_move));
        }

        // en passant target
        self.ep_target = None;
        if kind == PieceKind::Pawn && span == 16 {
            let passed = match us {
                Color::White => Square(from.0 + 8),
                Color::Black => Square(from.0 - 8),
            };
            self.ep_target = Some(passed);
        }

        // clocks
        if kind == PieceKind::Pawn || p_move.capture.is_some() {
            self.halfmove_clock = 0;
        } else if self.halfmove_clock < 255 {
            self.halfmove_clock = self.halfmove_clock + 1;
        }
        if us == Color::Black && self.fullmove_counter < 65535 {
            self.fullmove_counter = self.fullmove_counter + 1;
        }
        self.active_color = them;

        proof {
            assert forall|i: int| 0 <= i < 64 implies #[trigger] self.board.piece_at(i)
                == before.piece_after(p_move, i) by {}
            before.lemma_step_wf(p_move, *self);
        }
    }

    /// The position after a move that fits, leaving this one as it is: a caller that
    /// keeps this position has it back unchanged whatever is done with the result.
    pub fn after_move(&self, p_move: MoveExt) -> (next: Position)
        requires
            self.wf(),
            self.fits(p_move),
        ensures
            next == self.after(p_move),
            self.steps_to(p_move, next),
            next.wf(),
    {
        let mut next = self.clone();
        next.apply_move_unchecked(p_move);
        next
    }
}

} // verus!
