//! Colors, piece kinds and pieces.

use vstd::prelude::*;

verus! {

/// A player, or the color of a piece.
#[derive(Debug, Clone, Copy, PartialEq, Eq, Hash, Structural)]
pub enum Color {
    White,
    Black,
}

impl Color {
    /// Number of colors.
    pub const COUNT: usize = 2;

    /// The other color.
    pub open spec fn other(self) -> Color {
        match self {
            Color::White => Color::Black,
            Color::Black => Color::White,
        }
    }

    /// Position of this color in a per-color table.
    pub open spec fn ord(self) -> int {
        match self {
            Color::White => 0,
            Color::Black => 1,
        }
    }

    /// Get the opposite color for this player.
    #[inline]
    pub fn opposite(&self) -> (r: Color)
        ensures
            r == self.other(),
            r != *self,
            r.other() == *self,
    {
        match self {
            Color::White => Color::Black,
            Color::Black => Color::White,
        }
    }

    /// Position of this color in a per-color table.
    #[inline]
    pub fn index(&self) -> (r: usize)
        ensures
            r == self.ord(),
            r < 2,
    {
        match self {
            Color::White => 0,
            Color::Black => 1,
        }
    }
}

impl core::ops::Not for Color {
    type Output = Color;

    /// The other color.
    #[inline]
    fn not(self) -> (r: Color) {
        self.opposite()
    }
}

impl vstd::std_specs::ops::NotSpecImpl for Color {
    open spec fn obeys_not_spec() -> bool {
        true
    }

    open spec fn not_req(self) -> bool {
        true
    }

    open spec fn not_spec(self) -> Color {
        self.other()
    }
}

/// All possible piece types.
#[derive(Debug, Clone, Copy, PartialEq, Eq, Hash, Structural)]
pub enum PieceKind {
    Pawn,
    Knight,
    Bishop,
    Rook,
    Queen,
    King,
}

impl PieceKind {
    /// Number of piece kinds.
    pub const COUNT: usize = 6;

    /// Position of this kind in a per-kind table.
    pub open spec fn ord(self) -> int {
        match self {
            PieceKind::Pawn => 0,
            PieceKind::Knight => 1,
            PieceKind::Bishop => 2,
            PieceKind::Rook => 3,
            PieceKind::Queen => 4,
            PieceKind::King => 5,
        }
    }

    /// The kind at a position of a per-kind table.
    pub open spec fn of_ord(i: int) -> PieceKind {
        if i == 0 {
            PieceKind::Pawn
        } else if i == 1 {
            PieceKind::Knight
        } else if i == 2 {
            PieceKind::Bishop
        } else if i == 3 {
            PieceKind::Rook
        } else if i == 4 {
            PieceKind::Queen
        } else {
            PieceKind::King
        }
    }

    /// The upper-case letter of this kind.
    pub open spec fn letter(self) -> char {
        match self {
            PieceKind::Pawn => 'P',
            PieceKind::Knight => 'N',
            PieceKind::Bishop => 'B',
            PieceKind::Rook => 'R',
            PieceKind::Queen => 'Q',
            PieceKind::King => 'K',
        }
    }

    /// The lower-case letter of this kind.
    pub open spec fn lower_letter(self) -> char {
        match self {
            PieceKind::Pawn => 'p',
            PieceKind::Knight => 'n',
            PieceKind::Bishop => 'b',
            PieceKind::Rook => 'r',
            PieceKind::Queen => 'q',
            PieceKind::King => 'k',
        }
    }

    /// The value of this kind in centipawns.
    pub open spec fn value(self) -> int {
        match self {
            PieceKind::Pawn => 100,
            PieceKind::Knight => 300,
            PieceKind::Bishop => 325,
            PieceKind::Rook => 500,
            PieceKind::Queen => 900,
            PieceKind::King => 10_000,
        }
    }

    /// Whether a pawn may promote to this kind.
    pub open spec fn promotable(self) -> bool {
        self == PieceKind::Knight || self == PieceKind::Bishop || self == PieceKind::Rook || self
            == PieceKind::Queen
    }

    /// The kinds a pawn may promote to.
    #[inline]
    pub fn promotions() -> (r: [PieceKind; 4])
        ensures
            r@ == seq![PieceKind::Knight, PieceKind::Bishop, PieceKind::Rook, PieceKind::Queen],
            forall|k: PieceKind| k.promotable() <==> r@.contains(k),
    {
        let r = [PieceKind::Knight, PieceKind::Bishop, PieceKind::Rook, PieceKind::Queen];
        proof {
            let s = seq![PieceKind::Knight, PieceKind::Bishop, PieceKind::Rook, PieceKind::Queen];
            assert(r@ =~= s);
            assert(s[0] == PieceKind::Knight && s[1] == PieceKind::Bishop && s[2]
                == PieceKind::Rook && s[3] == PieceKind::Queen);
        }
        r
    }

    /// Position of this kind in a per-kind table.
    #[inline]
    pub fn index(&self) -> (r: usize)
        ensures
            r == self.ord(),
            r < 6,
            PieceKind::of_ord(r as int) == *self,
    {
        match self {
            PieceKind::Pawn => 0,
            PieceKind::Knight => 1,
            PieceKind::Bishop => 2,
            PieceKind::Rook => 3,
            PieceKind::Queen => 4,
            PieceKind::King => 5,
        }
    }

    /// Standard notation for this piece kind.
    #[inline]
    pub fn as_char(&self) -> (c: char)
        ensures
            c == self.letter(),
    {
        match self {
            PieceKind::Pawn => 'P',
            PieceKind::Knight => 'N',
            PieceKind::Bishop => 'B',
            PieceKind::Rook => 'R',
            PieceKind::Queen => 'Q',
            PieceKind::King => 'K',
        }
    }

    /// Piece valuation in centipawns.
    #[inline]
    pub fn score(&self) -> (s: i16)
        ensures
            s == self.value(),
    {
        match self {
            PieceKind::Pawn => 100,
            PieceKind::Knight => 300,
            PieceKind::Bishop => 325,
            PieceKind::Rook => 500,
            PieceKind::Queen => 900,
            PieceKind::King => 10_000,
        }
    }

    /// Check if this piece performs "ray" attacks.
    #[inline]
    pub fn is_slider(&self) -> (r: bool)
        ensures
            r <==> *self == PieceKind::Bishop || *self == PieceKind::Rook || *self
                == PieceKind::Queen,
    {
        matches!(self, PieceKind::Bishop | PieceKind::Rook | PieceKind::Queen)
    }
}

/// Piece belonging to a side.
#[derive(Debug, Clone, Copy, PartialEq, Eq, Hash, Structural)]
pub struct Piece {
    pub color: Color,
    pub kind: PieceKind,
}

impl Piece {
    /// The letter of this piece: upper case for white, lower case for black.
    pub open spec fn letter(self) -> char {
        match self.color {
            Color::White => self.kind.letter(),
            Color::Black => self.kind.lower_letter(),
        }
    }

    /// Standard representation for this piece.
    #[inline]
    pub fn as_char(&self) -> (c: char)
        ensures
            c == self.letter(),
    {
        match self.color {
            Color::White => match self.kind {
                PieceKind::Pawn => 'P',
                PieceKind::Knight => 'N',
                PieceKind::Bishop => 'B',
                PieceKind::Rook => 'R',
                PieceKind::Queen => 'Q',
                PieceKind::King => 'K',
            },
            Color::Black => match self.kind {
                PieceKind::Pawn => 'p',
                PieceKind::Knight => 'n',
                PieceKind::Bishop => 'b',
                PieceKind::Rook => 'r',
                PieceKind::Queen => 'q',
                PieceKind::King => 'k',
            },
        }
    }

    /// The piece that a letter stands for, if any.
    #[inline]
    pub fn from_char(c: char) -> (r: Option<Piece>)
        ensures
            match r {
                Some(p) => p.letter() == c,
                None => forall|p: Piece| p.letter() != c,
            },
    {
        let (color, kind) = match c {
            'P' => (Color::White, PieceKind::Pawn),
            'N' => (Color::White, PieceKind::Knight),
            'B' => (Color::White, PieceKind::Bishop),
            'R' => (Color::White, PieceKind::Rook),
            'Q' => (Color::White, PieceKind::Queen),
            'K' => (Color::White, PieceKind::King),
            'p' => (Color::Black, PieceKind::Pawn),
            'n' => (Color::Black, PieceKind::Knight),
            'b' => (Color::Black, PieceKind::Bishop),
            'r' => (Color::Black, PieceKind::Rook),
            'q' => (Color::Black, PieceKind::Queen),
            'k' => (Color::Black, PieceKind::King),
            _ => {
                return None;
            },
        };
        Some(Piece { color, kind })
    }
}

} // verus!
