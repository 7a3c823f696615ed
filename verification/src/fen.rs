//! Positions in Forsyth-Edwards notation.
//!
//! A record has six fields between runs of spaces or tabs: the placement of the pieces,
//! the side to move, the castling rights, the en passant target, the halfmove clock and
//! the fullmove counter. What follows the sixth field is not read.

use vstd::prelude::*;
use vstd::string::StringSliceAdditionalSpecFns;
use crate::board::Board;
use crate::piece::{Color, Piece, PieceKind};
use crate::position::{CastlingRights, Position};
use crate::square::{square_of_bytes, Square};

verus! {

/// The field of a record that could not be read.
#[derive(Debug, Clone, Copy, PartialEq, Eq, Structural)]
pub enum FenError {
    /// The placement is missing, names an unknown piece, or does not fill eight ranks of
    /// eight squares.
    Placement,
    /// The side to move is not `w` or `b`.
    ActiveColor,
    /// The castling rights are missing or hold a letter other than `K`, `Q`, `k`, `q`, `-`.
    Castling,
    /// The en passant target is missing.
    EnPassant,
    /// The halfmove clock is missing, is no number, or is above 255.
    HalfmoveClock,
    /// The fullmove counter is missing, is no number, or is above 65535.
    FullmoveCounter,
}

/// A byte that separates fields: space or tab.
pub open spec fn is_space(b: u8) -> bool {
    b == 0x20 || b == 0x09
}

/// The first position from `i` on that holds no separator.
pub open spec fn skip_spaces(s: Seq<u8>, i: int) -> int
    decreases s.len() - i,
{
    if 0 <= i < s.len() && is_space(s[i]) {
        skip_spaces(s, i + 1)
    } else {
        i
    }
}

/// The first position from `i` on that holds a separator, or the end.
pub open spec fn word_end(s: Seq<u8>, i: int) -> int
    decreases s.len() - i,
{
    if 0 <= i < s.len() && !is_space(s[i]) {
        word_end(s, i + 1)
    } else {
        i
    }
}

/// Where field `n` starts.
pub open spec fn field_start(s: Seq<u8>, n: nat) -> int
    decreases n, 1int,
{
    if n == 0 {
        skip_spaces(s, 0)
    } else {
        skip_spaces(s, field_end(s, (n - 1) as nat))
    }
}

/// Where field `n` ends.
pub open spec fn field_end(s: Seq<u8>, n: nat) -> int
    decreases n, 2int,
{
    word_end(s, field_start(s, n))
}

/// The piece that a letter names: upper case for white, lower case for black.
pub open spec fn piece_of_byte(b: u8) -> Option<Piece> {
    if b == 0x50 {
        Some(Piece { color: Color::White, kind: PieceKind::Pawn })
    } else if b == 0x4e {
        Some(Piece { color: Color::White, kind: PieceKind::Knight })
    } else if b == 0x42 {
        Some(Piece { color: Color::White, kind: PieceKind::Bishop })
    } else if b == 0x52 {
        Some(Piece { color: Color::White, kind: PieceKind::Rook })
    } else if b == 0x51 {
        Some(Piece { color: Color::White, kind: PieceKind::Queen })
    } else if b == 0x4b {
        Some(Piece { color: Color::White, kind: PieceKind::King })
    } else if b == 0x70 {
        Some(Piece { color: Color::Black, kind: PieceKind::Pawn })
    } else if b == 0x6e {
        Some(Piece { color: Color::Black, kind: PieceKind::Knight })
    } else if b == 0x62 {
        Some(Piece { color: Color::Black, kind: PieceKind::Bishop })
    } else if b == 0x72 {
        Some(Piece { color: Color::Black, kind: PieceKind::Rook })
    } else if b == 0x71 {
        Some(Piece { color: Color::Black, kind: PieceKind::Queen })
    } else if b == 0x6b {
        Some(Piece { color: Color::Black, kind: PieceKind::King })
    } else {
        None
    }
}

/// The board that the placement from position `i` of `s` up to `end` describes, when
/// `board` holds what was read before and the next square is on `rank` and `file`.
///
/// Ranks come from the eighth down, separated by `/`; in a rank, a letter puts a piece on
/// the next square and a digit `1` to `8` leaves that many squares free. Each rank fills
/// eight squares exactly.
pub open spec fn placement(s: Seq<u8>, i: int, end: int, board: Board, rank: int, file: int) -> Option<
    Board,
>
    decreases end - i,
{
    if i < 0 || i >= end || end > s.len() {
        if rank == 0 && file == 8 {
            Some(board)
        } else {
            None
        }
    } else if s[i] == 0x2f {
        if file == 8 && rank > 0 {
            placement(s, i + 1, end, board, rank - 1, 0)
        } else {
            None
        }
    } else if 0x31 <= s[i] <= 0x38 {
        if file + (s[i] - 0x30) <= 8 {
            placement(s, i + 1, end, board, rank, file + (s[i] - 0x30))
        } else {
            None
        }
    } else {
        match piece_of_byte(s[i]) {
            Some(p) => if file < 8 {
                placement(s, i + 1, end, board.placed(rank * 8 + file, p), rank, file + 1)
            } else {
                None
            },
            None => None,
        }
    }
}

/// The side to move that a field names.
pub open spec fn color_of(s: Seq<u8>, a: int, b: int) -> Option<Color> {
    if b - a == 1 && (s[a] == 0x77 || s[a] == 0x57) {
        Some(Color::White)
    } else if b - a == 1 && (s[a] == 0x62 || s[a] == 0x42) {
        Some(Color::Black)
    } else {
        None
    }
}

/// The flag that a letter of the castling field names; zero for `-`.
pub open spec fn flag_of_byte(b: u8) -> Option<u8> {
    if b == 0x4b {
        Some(0x01u8)
    } else if b == 0x51 {
        Some(0x02u8)
    } else if b == 0x6b {
        Some(0x04u8)
    } else if b == 0x71 {
        Some(0x08u8)
    } else if b == 0x2d {
        Some(0x00u8)
    } else {
        None
    }
}

/// The castling rights that the letters from position `i` of `s` up to `end` add to
/// `bits`.
pub open spec fn rights(s: Seq<u8>, i: int, end: int, bits: u8) -> Option<u8>
    decreases end - i,
{
    if i < 0 || i >= end || end > s.len() {
        Some(bits)
    } else {
        match flag_of_byte(s[i]) {
            Some(f) => rights(s, i + 1, end, bits | f),
            None => None,
        }
    }
}

/// The number that the digits from position `i` of `s` up to `end` make of `acc`, where
/// it is at most `max`.
pub open spec fn number(s: Seq<u8>, i: int, end: int, acc: int, max: int) -> Option<int>
    decreases end - i,
{
    if i < 0 || i >= end || end > s.len() {
        Some(acc)
    } else if 0x30 <= s[i] <= 0x39 && acc * 10 + (s[i] - 0x30) <= max {
        number(s, i + 1, end, acc * 10 + (s[i] - 0x30), max)
    } else {
        None
    }
}

/// The position that a record describes, or the first field that cannot be read.
pub open spec fn position_of(s: Seq<u8>) -> Result<Position, FenError> {
    let a = |n: nat| field_start(s, n);
    let b = |n: nat| field_end(s, n);
    match placement(s, a(0), b(0), Board::empty(), 7, 0) {
        None => Err(FenError::Placement),
        Some(board) => match color_of(s, a(1), b(1)) {
            None => Err(FenError::ActiveColor),
            Some(active_color) => if a(2) == b(2) {
                Err(FenError::Castling)
            } else {
                match rights(s, a(2), b(2), 0) {
                    None => Err(FenError::Castling),
                    Some(bits) => if a(3) == b(3) {
                        Err(FenError::EnPassant)
                    } else if a(4) == b(4) {
                        Err(FenError::HalfmoveClock)
                    } else {
                        match number(s, a(4), b(4), 0, 255) {
                            None => Err(FenError::HalfmoveClock),
                            Some(clock) => if a(5) == b(5) {
                                Err(FenError::FullmoveCounter)
                            } else {
                                match number(s, a(5), b(5), 0, 65535) {
                                    None => Err(FenError::FullmoveCounter),
                                    Some(counter) => Ok(
                                        Position {
                                            board,
                                            active_color,
                                            castling: CastlingRights { bits },
                                            ep_target: square_of_bytes(s.subrange(a(3), b(3))),
                                            halfmove_clock: clock as u8,
                                            fullmove_counter: counter as u16,
                                        },
                                    ),
                                }
                            },
                        }
                    },
                }
            },
        },
    }
}

/// The next field from position `from` on: where it starts and where it ends.
fn next_word(s: &[u8], from: usize) -> (r: (usize, usize))
    requires
        from <= s.len(),
    ensures
        r.0 == skip_spaces(s@, from as int),
        r.1 == word_end(s@, r.0 as int),
        from <= r.0 <= r.1 <= s.len(),
{
    let mut a = from;
    while a < s.len() && (s[a] == 0x20 || s[a] == 0x09)
        invariant
            from <= a <= s.len(),
            skip_spaces(s@, from as int) == skip_spaces(s@, a as int),
        decreases s.len() - a,
    {
        a = a + 1;
    }
    let mut b = a;
    while b < s.len() && !(s[b] == 0x20 || s[b] == 0x09)
        invariant
            a <= b <= s.len(),
            word_end(s@, a as int) == word_end(s@, b as int),
        decreases s.len() - b,
    {
        b = b + 1;
    }
    (a, b)
}

/// The piece that a letter names.
fn piece_from_byte(b: u8) -> (r: Option<Piece>)
    ensures
        r == piece_of_byte(b),
{
    if b == 0x50 {
        Some(Piece { color: Color::White, kind: PieceKind::Pawn })
    } else if b == 0x4e {
        Some(Piece { color: Color::White, kind: PieceKind::Knight })
    } else if b == 0x42 {
        Some(Piece { color: Color::White, kind: PieceKind::Bishop })
    } else if b == 0x52 {
        Some(Piece { color: Color::White, kind: PieceKind::Rook })
    } else if b == 0x51 {
        Some(Piece { color: Color::White, kind: PieceKind::Queen })
    } else if b == 0x4b {
        Some(Piece { color: Color::White, kind: PieceKind::King })
    } else if b == 0x70 {
        Some(Piece { color: Color::Black, kind: PieceKind::Pawn })
    } else if b == 0x6e {
        Some(Piece { color: Color::Black, kind: PieceKind::Knight })
    } else if b == 0x62 {
        Some(Piece { color: Color::Black, kind: PieceKind::Bishop })
    } else if b == 0x72 {
        Some(Piece { color: Color::Black, kind: PieceKind::Rook })
    } else if b == 0x71 {
        Some(Piece { color: Color::Black, kind: PieceKind::Queen })
    } else if b == 0x6b {
        Some(Piece { color: Color::Black, kind: PieceKind::King })
    } else {
        None
    }
}

/// Reads the placement of the pieces.
fn parse_board(s: &[u8], a: usize, b: usize) -> (r: Option<Board>)
    requires
        a <= b <= s.len(),
    ensures
        r == placement(s@, a as int, b as int, Board::empty(), 7, 0),
{
    let mut board = Board::default();
    let mut rank: u8 = 7;
    let mut file: u8 = 0;
    let mut i = a;
    while i < b
        invariant
            a <= i <= b <= s.len(),
            rank <= 7,
            file <= 8,
            placement(s@, a as int, b as int, Board::empty(), 7, 0) == placement(
                s@,
                i as int,
                b as int,
                board,
                rank as int,
                file as int,
            ),
        decreases b - i,
    {
        let c = s[i];
        if c == 0x2f {
            if file != 8 || rank == 0 {
                return None;
            }
            rank = rank - 1;
            file = 0;
        } else if 0x31 <= c && c <= 0x38 {
            if file + (c - 0x30) > 8 {
                return None;
            }
            file = file + (c - 0x30);
        } else {
            match piece_from_byte(c) {
                Some(piece) => {
                    if file >= 8 {
                        return None;
                    }
                    board.set(Square(rank * 8 + file), Some(piece));
                    file = file + 1;
                },
                None => {
                    return None;
                },
            }
        }
        i = i + 1;
    }
    if rank == 0 && file == 8 {
        Some(board)
    } else {
        None
    }
}

/// Reads the side to move.
fn parse_active_color(s: &[u8], a: usize, b: usize) -> (r: Option<Color>)
    requires
        a <= b <= s.len(),
    ensures
        r == color_of(s@, a as int, b as int),
{
    if b - a != 1 {
        return None;
    }
    let c = s[a];
    if c == 0x77 || c == 0x57 {
        Some(Color::White)
    } else if c == 0x62 || c == 0x42 {
        Some(Color::Black)
    } else {
        None
    }
}

/// Reads the castling rights.
fn parse_castling_rights(s: &[u8], a: usize, b: usize) -> (r: Option<CastlingRights>)
    requires
        a <= b <= s.len(),
    ensures
        match rights(s@, a as int, b as int, 0) {
            Some(bits) => r == Some(CastlingRights { bits }),
            None => r.is_none(),
        },
{
    let mut castling_rights = CastlingRights::empty();
    let mut i = a;
    while i < b
        invariant
            a <= i <= b <= s.len(),
            rights(s@, a as int, b as int, 0) == rights(
                s@,
                i as int,
                b as int,
                castling_rights.bits,
            ),
        decreases b - i,
    {
        let c = s[i];
        if c == 0x4b {
            castling_rights.insert(CastlingRights::WHITE_OO);
        } else if c == 0x51 {
            castling_rights.insert(CastlingRights::WHITE_OOO);
        } else if c == 0x6b {
            castling_rights.insert(CastlingRights::BLACK_OO);
        } else if c == 0x71 {
            castling_rights.insert(CastlingRights::BLACK_OOO);
        } else if c == 0x2d {
            proof {
                let x = castling_rights.bits;
                assert(x | 0u8 == x) by (bit_vector);
            }
        } else {
            return None;
        }
        i = i + 1;
    }
    Some(castling_rights)
}

/// Reads the en passant target: the square that the field names, if it names one.
fn parse_ep_target(s: &[u8], a: usize, b: usize) -> (r: Option<Square>)
    requires
        a <= b <= s.len(),
    ensures
        r == square_of_bytes(s@.subrange(a as int, b as int)),
{
    let ghost w = s@.subrange(a as int, b as int);
    if b - a != 2 {
        return None;
    }
    proof {
        assert(w[0] == s@[a as int]);
        assert(w[1] == s@[a + 1]);
    }
    let file = s[a];
    let file = if 0x61 <= file && file <= 0x68 {
        file - 0x61
    } else if 0x41 <= file && file <= 0x48 {
        file - 0x41
    } else {
        return None;
    };
    let rank = s[a + 1];
    if rank < 0x31 || rank > 0x38 {
        return None;
    }
    Square::at(rank - 0x31, file)
}

/// Reads a number of at most `max`.
fn parse_number(s: &[u8], a: usize, b: usize, max: u16) -> (r: Option<u16>)
    requires
        a <= b <= s.len(),
    ensures
        match number(s@, a as int, b as int, 0, max as int) {
            Some(n) => r == Some(n as u16) && 0 <= n <= max,
            None => r.is_none(),
        },
{
    let mut acc: u32 = 0;
    let mut i = a;
    while i < b
        invariant
            a <= i <= b <= s.len(),
            acc <= max,
            number(s@, a as int, b as int, 0, max as int) == number(
                s@,
                i as int,
                b as int,
                acc as int,
                max as int,
            ),
        decreases b - i,
    {
        let c = s[i];
        if c < 0x30 || c > 0x39 {
            return None;
        }
        let next: u32 = acc * 10 + (c - 0x30) as u32;
        if next > max as u32 {
            return None;
        }
        acc = next;
        i = i + 1;
    }
    Some(acc as u16)
}

/// Parse a chessboard state from the provided record. With the position comes the place
/// in the input where the sixth field ends.
pub fn parse(input: &str) -> (r: Result<(usize, Position), FenError>)
    ensures
        match position_of(input.spec_bytes()) {
            Ok(p) => r == Ok::<(usize, Position), FenError>(
                (field_end(input.spec_bytes(), 5) as usize, p),
            ),
            Err(e) => r == Err::<(usize, Position), FenError>(e),
        },
{
    let s = input.as_bytes();
    let ghost bytes = input.spec_bytes();
    proof {
        assert(field_start(bytes, 0) == skip_spaces(bytes, 0));
        assert(field_start(bytes, 1) == skip_spaces(bytes, field_end(bytes, 0)));
        assert(field_start(bytes, 2) == skip_spaces(bytes, field_end(bytes, 1)));
        assert(field_start(bytes, 3) == skip_spaces(bytes, field_end(bytes, 2)));
        assert(field_start(bytes, 4) == skip_spaces(bytes, field_end(bytes, 3)));
        assert(field_start(bytes, 5) == skip_spaces(bytes, field_end(bytes, 4)));
    }
    let (a0, b0) = next_word(s, 0);
    let board = match parse_board(s, a0, b0) {
        Some(board) => board,
        None => {
            return Err(FenError::Placement);
        },
    };
    let (a1, b1) = next_word(s, b0);
    let active_color = match parse_active_color(s, a1, b1) {
        Some(color) => color,
        None => {
            return Err(FenError::ActiveColor);
        },
    };
    let (a2, b2) = next_word(s, b1);
    if a2 == b2 {
        return Err(FenError::Castling);
    }
    let castling = match parse_castling_rights(s, a2, b2) {
        Some(rights) => rights,
        None => {
            return Err(FenError::Castling);
        },
    };
    let (a3, b3) = next_word(s, b2);
    if a3 == b3 {
        return Err(FenError::EnPassant);
    }
    let ep_target = parse_ep_target(s, a3, b3);
    let (a4, b4) = next_word(s, b3);
    if a4 == b4 {
        return Err(FenError::HalfmoveClock);
    }
    let halfmove_clock = match parse_number(s, a4, b4, 255) {
        Some(n) => n as u8,
        None => {
            return Err(FenError::HalfmoveClock);
        },
    };
    let (a5, b5) = next_word(s, b4);
    if a5 == b5 {
        return Err(FenError::FullmoveCounter);
    }
    let fullmove_counter = match parse_number(s, a5, b5, 65535) {
        Some(n) => n,
        None => {
            return Err(FenError::FullmoveCounter);
        },
    };
    Ok((b5, Position { board, active_color, castling, ep_target, halfmove_clock, fullmove_counter }))
}

/// Parse a position from the given record.
#[inline]
pub fn from_str(s: &str) -> (r: Result<Position, FenError>)
    ensures
        r == position_of(s.spec_bytes()),
{
    match parse(s) {
        Ok((_, position)) => Ok(position),
        Err(e) => Err(e),
    }
}

} // verus!
