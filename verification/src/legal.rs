//! The legal moves of a position, stated over the board.

use vstd::prelude::*;
use crate::bits::bit;
use crate::geometry::{both, family_sees, forward, king_step, knight_jump, pawn_attack};
use crate::moves::{Capture, MoveExt};
use crate::piece::{Color, PieceKind};
use crate::position::{king_home, Position};

verus! {

/// All squares of the board.
pub open spec fn board_squares() -> Set<int> {
    Set::new(|i: int| 0 <= i < 64)
}

/// The first of the lines, from position `j` on, that holds `s`; all squares where none
/// does.
pub open spec fn first_with(lines: Seq<Set<int>>, s: int, j: int) -> Set<int>
    decreases lines.len() - j,
{
    if j < 0 || j >= lines.len() {
        board_squares()
    } else if lines[j].contains(s) {
        lines[j]
    } else {
        first_with(lines, s, j + 1)
    }
}

/// Lines that do not hold `s` are passed over.
pub proof fn lemma_first_with(lines: Seq<Set<int>>, s: int, j: int)
    requires
        0 <= j <= lines.len(),
        forall|e: int| 0 <= e < j ==> !(#[trigger] lines[e]).contains(s),
    ensures
        first_with(lines, s, 0) == first_with(lines, s, j),
    decreases j,
{
    if j > 0 {
        lemma_first_with(lines, s, j - 1);
    }
}

/// Where some line from position `i` on holds `s`, the first that does is a line of the
/// list that holds `s`: its position is given.
pub proof fn lemma_first_with_found(lines: Seq<Set<int>>, s: int, i: int, j0: int) -> (j: int)
    requires
        0 <= i <= j0 < lines.len(),
        lines[j0].contains(s),
    ensures
        i <= j <= j0,
        lines[j].contains(s),
        first_with(lines, s, i) == lines[j],
    decreases j0 - i,
{
    if lines[i].contains(s) {
        i
    } else {
        lemma_first_with_found(lines, s, i + 1, j0)
    }
}

/// The rank on which the pawns of a color start.
pub open spec fn start_rank(c: Color) -> int {
    match c {
        Color::White => 1,
        Color::Black => 6,
    }
}

/// The rank from which the pawns of a color promote with their next step.
pub open spec fn last_step_rank(c: Color) -> int {
    match c {
        Color::White => 6,
        Color::Black => 1,
    }
}

/// The square on which the king of a color lands when it castles.
pub open spec fn castle_to(c: Color, kingside: bool) -> int {
    if kingside {
        king_home(c) + 2
    } else {
        king_home(c) - 2
    }
}

impl Position {
    /// A piece of the side to move stands on `i`.
    pub open spec fn friendly(self, i: int) -> bool {
        bit(self.board.color_bits(self.active_color), i)
    }

    /// A piece of the side not to move stands on `i`.
    pub open spec fn hostile(self, i: int) -> bool {
        bit(self.board.color_bits(self.them()), i)
    }

    /// No piece stands on `i`.
    pub open spec fn vacant(self, i: int) -> bool {
        !bit(self.board.occupied(), i)
    }

    /// `i` is the en passant target.
    pub open spec fn ep_is(self, i: int) -> bool {
        match self.ep_target {
            Some(s) => s.idx() == i,
            None => false,
        }
    }

    /// A pawn of the side to move on `from` can go to `to` by the way pawns move: it
    /// captures diagonally ahead, what stands there or en passant, steps ahead onto a
    /// free square, and from its first rank two steps ahead over free squares.
    pub open spec fn pawn_reach(self, from: int, to: int) -> bool {
        let us = self.active_color;
        let step = 8 * forward(us);
        ||| pawn_attack(us, from, to) && (self.hostile(to) || self.ep_is(to))
        ||| both(from, to) && to == from + step && self.vacant(to)
        ||| both(from, to) && from / 8 == start_rank(us) && to == from + 2 * step && self.vacant(
            from + step,
        ) && self.vacant(to)
    }

    /// A piece of that kind of the side to move on `from` can go to `to` by the way it
    /// moves, whatever that means for its king.
    pub open spec fn reach(self, kind: PieceKind, from: int, to: int) -> bool {
        let occ = self.board.occupied();
        match kind {
            PieceKind::Pawn => self.pawn_reach(from, to),
            PieceKind::Knight => knight_jump(from, to) && !self.friendly(to),
            PieceKind::Bishop => family_sees(occ, 0, from, to) && !self.friendly(to),
            PieceKind::Rook => family_sees(occ, 1, from, to) && !self.friendly(to),
            PieceKind::Queen => (family_sees(occ, 0, from, to) || family_sees(occ, 1, from, to))
                && !self.friendly(to),
            PieceKind::King => king_step(from, to) && !self.friendly(to),
        }
    }

    /// Number of pieces that give check.
    pub open spec fn checkers(self) -> nat {
        self.melee().len() + self.checks().len()
    }

    /// Where a piece other than the king has to go while its king is in check by one
    /// piece: onto the checking knight or pawn, or onto the line of the checking slider.
    /// All squares where there is no check.
    pub open spec fn check_mask(self) -> Set<int> {
        if self.checks().len() > 0 {
            self.checks()[0]
        } else if self.melee().len() > 0 {
            self.melee()[0]
        } else {
            board_squares()
        }
    }

    /// Where the piece on `s` may go as far as pins go: along the line of the slider that
    /// pins it. All squares where it is not pinned.
    pub open spec fn pin_mask(self, s: int) -> Set<int> {
        first_with(self.pins(), s, 0)
    }

    /// The pawn that a capture en passant onto `to` takes is the one piece that gives
    /// check.
    pub open spec fn ep_takes_checker(self, to: int) -> bool {
        &&& self.ep_is(to)
        &&& self.checks().len() == 0
        &&& self.melee().len() == 1
        &&& self.melee()[0] == set![self.ep_victim(to)]
    }

    /// What stands in the way of sliders after a capture en passant from `from` onto `to`.
    pub open spec fn blockers_after_ep(self, from: int, to: int) -> u64 {
        (self.board.occupied() & !(1u64 << (from as u64)) & !(1u64 << (self.ep_victim(to) as u64)))
            | (1u64 << (to as u64))
    }

    /// After a capture en passant from `from` onto `to`, the king of the side to move
    /// sees no slider of the other side along a line on which that slider moves.
    pub open spec fn ep_safe(self, from: int, to: int) -> bool {
        let after = self.blockers_after_ep(from, to);
        forall|q: int|
            #![trigger self.board.piece_at(q)]
            0 <= q < 64 ==> {
                &&& family_sees(after, 1, self.king(), q) ==> !(self.has(
                    q,
                    self.them(),
                    PieceKind::Rook,
                ) || self.has(q, self.them(), PieceKind::Queen))
                &&& family_sees(after, 0, self.king(), q) ==> !(self.has(
                    q,
                    self.them(),
                    PieceKind::Bishop,
                ) || self.has(q, self.them(), PieceKind::Queen))
            }
    }

    /// A piece of that kind, not a king, of the side to move on `from` may go to `to`.
    ///
    /// There is no double check; the piece can go there by the way it moves; it stays on
    /// the line of its pin; it answers the check, if there is one, by capture or by
    /// stepping into the line; it does not take the king; and a capture en passant
    /// does not open a line onto its own king.
    pub open spec fn may_go(self, kind: PieceKind, from: int, to: int) -> bool {
        &&& kind != PieceKind::King
        &&& self.checkers() < 2
        &&& self.reach(kind, from, to)
        &&& self.pin_mask(from).contains(to)
        &&& self.check_mask().contains(to) || (kind == PieceKind::Pawn && self.ep_takes_checker(
            to,
        ))
        &&& !self.has(to, self.them(), PieceKind::King)
        &&& kind == PieceKind::Pawn && self.ep_is(to) ==> self.ep_safe(from, to)
    }

    /// The king of the side to move may step to `to`: a neighbour square without a piece
    /// of its side, that the other side does not attack, and not onto the other king.
    pub open spec fn king_may_go(self, to: int) -> bool {
        &&& king_step(self.king(), to)
        &&& !self.friendly(to)
        &&& !self.threatened(to)
        &&& !self.has(to, self.them(), PieceKind::King)
    }

    /// The side to move may castle on that side: it holds the right, the squares between
    /// king and rook are free, and the king's square and the two it crosses are not
    /// attacked.
    pub open spec fn may_castle(self, kingside: bool) -> bool {
        let us = self.active_color;
        let h = king_home(us);
        if kingside {
            &&& self.castling.oo(us)
            &&& self.vacant(h + 1) && self.vacant(h + 2)
            &&& !self.threatened(h) && !self.threatened(h + 1) && !self.threatened(h + 2)
        } else {
            &&& self.castling.ooo(us)
            &&& self.vacant(h - 1) && self.vacant(h - 2) && self.vacant(h - 3)
            &&& !self.threatened(h) && !self.threatened(h - 1) && !self.threatened(h - 2)
        }
    }

    /// The king of the side to move may go to `to`, by a step or by castling.
    pub open spec fn king_goes(self, to: int) -> bool {
        ||| self.king_may_go(to)
        ||| to == castle_to(self.active_color, true) && self.may_castle(true)
        ||| to == castle_to(self.active_color, false) && self.may_castle(false)
    }

    /// What a piece of that kind takes when it goes to `to`: the piece there, or the pawn
    /// that has passed `to` if a pawn goes onto the en passant target.
    pub open spec fn capture_of(self, kind: PieceKind, to: int) -> Option<Capture> {
        match self.board.piece_at(to) {
            Some(p) => Some(Capture::Regular(p.kind)),
            None => if kind == PieceKind::Pawn && self.ep_is(to) {
                Some(Capture::EnPassant)
            } else {
                None
            },
        }
    }

    /// A piece of that kind on `from` promotes with its next move.
    pub open spec fn promotes(self, kind: PieceKind, from: int) -> bool {
        kind == PieceKind::Pawn && from / 8 == last_step_rank(self.active_color)
    }

    /// The promotion suits the move: a pawn that reaches the last rank promotes to
    /// knight, bishop, rook or queen, and nothing else promotes.
    pub open spec fn promotion_ok(self, kind: PieceKind, from: int, promotion: Option<PieceKind>) -> bool {
        if self.promotes(kind, from) {
            match promotion {
                Some(k) => k.promotable(),
                None => false,
            }
        } else {
            promotion.is_none()
        }
    }

    /// The move is made by the rules of the game, the safety of the mover's king left
    /// aside: the right piece stands on the origin, it goes as pieces of its kind go (the
    /// king also by castling, where the side may castle), not onto a piece of its side and
    /// not onto the other king, and what it takes and how it promotes is as the board
    /// has it.
    pub open spec fn by_the_rules(self, m: MoveExt) -> bool {
        let from = m.from.idx();
        let to = m.to.idx();
        &&& m.from.wf() && m.to.wf()
        &&& self.has(from, self.active_color, m.piece_kind)
        &&& m.capture == self.capture_of(m.piece_kind, to)
        &&& self.promotion_ok(m.piece_kind, from, m.promotion)
        &&& !self.has(to, self.them(), PieceKind::King)
        &&& if m.piece_kind == PieceKind::King {
            ||| self.reach(PieceKind::King, from, to)
            ||| to == castle_to(self.active_color, true) && self.may_castle(true)
            ||| to == castle_to(self.active_color, false) && self.may_castle(false)
        } else {
            self.reach(m.piece_kind, from, to)
        }
    }

    /// The move is a legal move of this position, as the generator understands it.
    pub open spec fn legal(self, m: MoveExt) -> bool {
        let from = m.from.idx();
        let to = m.to.idx();
        &&& m.from.wf() && m.to.wf()
        &&& self.has(from, self.active_color, m.piece_kind)
        &&& m.capture == self.capture_of(m.piece_kind, to)
        &&& self.promotion_ok(m.piece_kind, from, m.promotion)
        &&& if m.piece_kind == PieceKind::King {
            self.king_goes(to)
        } else {
            self.may_go(m.piece_kind, from, to)
        }
    }
}

} // verus!
