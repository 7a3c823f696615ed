//! Piece move information.

use vstd::prelude::*;
use vstd::string::StringExecFns;
use crate::piece::PieceKind;
use crate::square::Square;

verus! {

/// Minimal information required to represent a move in long algebraic notation.
#[derive(Debug, Clone, Copy, PartialEq, Eq, Structural)]
pub struct Move {
    pub from: Square,
    pub to: Square,
    pub promotion: Option<PieceKind>,
}

/// The lower-case letter of a piece kind, as text.
fn lower_letter(kind: PieceKind) -> (r: &'static str)
    ensures
        r@ == seq![kind.lower_letter()],
{
    proof {
        reveal_strlit("p");
        reveal_strlit("n");
        reveal_strlit("b");
        reveal_strlit("r");
        reveal_strlit("q");
        reveal_strlit("k");
    }
    match kind {
        PieceKind::Pawn => "p",
        PieceKind::Knight => "n",
        PieceKind::Bishop => "b",
        PieceKind::Rook => "r",
        PieceKind::Queen => "q",
        PieceKind::King => "k",
    }
}

/// The upper-case letter of a piece kind, as text.
fn upper_letter(kind: PieceKind) -> (r: &'static str)
    ensures
        r@ == seq![kind.letter()],
{
    proof {
        reveal_strlit("P");
        reveal_strlit("N");
        reveal_strlit("B");
        reveal_strlit("R");
        reveal_strlit("Q");
        reveal_strlit("K");
    }
    match kind {
        PieceKind::Pawn => "P",
        PieceKind::Knight => "N",
        PieceKind::Bishop => "B",
        PieceKind::Rook => "R",
        PieceKind::Queen => "Q",
        PieceKind::King => "K",
    }
}

impl Move {
    /// The move in long algebraic notation: origin, destination, and the lower-case
    /// letter of the piece that a pawn promotes to.
    pub open spec fn lan(self) -> Seq<char> {
        self.from.name() + self.to.name() + match self.promotion {
            Some(k) => seq![k.lower_letter()],
            None => Seq::empty(),
        }
    }

    /// Format the move in long algebraic notation.
    pub fn to_string(&self) -> (r: String)
        requires
            self.from.wf(),
            self.to.wf(),
        ensures
            r@ == self.lan(),
    {
        let mut out = self.from.to_string();
        let to = self.to.to_string();
        out.append(to.as_str());
        match self.promotion {
            Some(promotion) => {
                out.append(lower_letter(promotion));
            },
            None => {
                assert(out@ =~= self.lan());
            },
        }
        out
    }
}

/// What a move takes off the board.
#[derive(Debug, Clone, Copy, PartialEq, Eq, Structural)]
pub enum Capture {
    /// The piece of this kind that stands on the destination.
    Regular(PieceKind),
    /// The pawn that has just passed the destination in a double step.
    EnPassant,
}

/// A move with what is needed to apply it without looking at the board again.
#[derive(Debug, Clone, Copy, PartialEq, Eq, Structural)]
pub struct MoveExt {
    pub piece_kind: PieceKind,
    pub from: Square,
    pub to: Square,
    pub promotion: Option<PieceKind>,
    pub capture: Option<Capture>,
}

impl MoveExt {
    /// A quiet move of a piece of the given kind, without promotion.
    #[inline]
    pub fn from_move(p_move: Move, piece_kind: PieceKind) -> (r: MoveExt)
        ensures
            r == (MoveExt {
                piece_kind,
                from: p_move.from,
                to: p_move.to,
                promotion: None,
                capture: None,
            }),
    {
        MoveExt { piece_kind, from: p_move.from, to: p_move.to, promotion: None, capture: None }
    }

    /// The move as text: the letter of the piece unless it is a pawn, the origin, `x` for
    /// a capture, the destination, and the lower-case letter of the piece that a pawn
    /// promotes to.
    pub open spec fn text(self) -> Seq<char> {
        (if self.piece_kind != PieceKind::Pawn {
            seq![self.piece_kind.letter()]
        } else {
            Seq::empty()
        }) + self.from.name() + (if self.capture.is_some() {
            seq!['x']
        } else {
            Seq::empty()
        }) + self.to.name() + match self.promotion {
            Some(k) => seq![k.lower_letter()],
            None => Seq::empty(),
        }
    }

    /// Format the move as text.
    pub fn to_string(&self) -> (r: String)
        requires
            self.from.wf(),
            self.to.wf(),
        ensures
            r@ == self.text(),
    {
        let mut out = String::new();
        if self.piece_kind != PieceKind::Pawn {
            out.append(upper_letter(self.piece_kind));
        }
        let from = self.from.to_string();
        out.append(from.as_str());
        if self.capture.is_some() {
            proof {
                reveal_strlit("x");
            }
            out.append("x");
        }
        let to = self.to.to_string();
        out.append(to.as_str());
        match self.promotion {
            Some(promotion) => {
                out.append(lower_letter(promotion));
            },
            None => {},
        }
        proof {
            assert(out@ =~= self.text());
        }
        out
    }

    /// The move without what only serves to apply it.
    #[inline]
    pub fn to_move(&self) -> (r: Move)
        ensures
            r == (Move { from: self.from, to: self.to, promotion: self.promotion }),
    {
        Move { from: self.from, to: self.to, promotion: self.promotion }
    }
}

} // verus!
