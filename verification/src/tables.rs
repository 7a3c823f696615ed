//! The attack sets of knight, king and pawn, by square.

use vstd::prelude::*;
use crate::bitboard::BitBoard;
use crate::bits::{bit, lemma_put, lemma_zero};
use crate::geometry::{king_step, knight_jump, pawn_attack};
use crate::piece::Color;
use crate::square::Square;

verus! {

/// Marks `target` in `acc` where `on` holds.
fn mark(acc: u64, on: bool, target: u8) -> (r: u64)
    requires
        on ==> target < 64,
    ensures
        forall|b: int| #[trigger] bit(r, b) <==> bit(acc, b) || (on && b == target),
{
    if on {
        proof {
            lemma_put(acc, target as u64);
        }
        acc | (1u64 << target)
    } else {
        acc
    }
}

/// The squares that a knight on `square` attacks: its L-jumps that stay on the board.
pub(crate) fn knight_attacks(square: Square) -> (r: BitBoard)
    requires
        square.wf(),
    ensures
        forall|b: int| r@.contains(b) <==> knight_jump(square.idx(), b),
        forall|b: int| #[trigger] bit(r.0, b) <==> knight_jump(square.idx(), b),
{
    let i: u8 = square.0;
    let rank: u8 = i / 8;
    let file: u8 = i % 8;
    proof {
        lemma_zero();
    }
    let mut moves: u64 = 0;
    // north-west
    moves = mark(moves, file >= 2 && rank < 7, if file >= 2 && rank < 7 { i + 6 } else { 0 });
    moves = mark(moves, file >= 1 && rank < 6, if file >= 1 && rank < 6 { i + 15 } else { 0 });
    // north-east
    moves = mark(moves, file <= 5 && rank < 7, if file <= 5 && rank < 7 { i + 10 } else { 0 });
    moves = mark(moves, file <= 6 && rank < 6, if file <= 6 && rank < 6 { i + 17 } else { 0 });
    // south-west
    moves = mark(moves, file >= 2 && rank >= 1, if file >= 2 && rank >= 1 { i - 10 } else { 0 });
    moves = mark(moves, file >= 1 && rank >= 2, if file >= 1 && rank >= 2 { i - 17 } else { 0 });
    // south-east
    moves = mark(moves, file <= 5 && rank >= 1, if file <= 5 && rank >= 1 { i - 6 } else { 0 });
    moves = mark(moves, file <= 6 && rank >= 2, if file <= 6 && rank >= 2 { i - 15 } else { 0 });
    proof {
        assert forall|b: int| bit(moves, b) <==> knight_jump(square.idx(), b) by {}
    }
    BitBoard(moves)
}

/// The squares that a king on `square` attacks: its neighbours on the board.
pub(crate) fn king_attacks(square: Square) -> (r: BitBoard)
    requires
        square.wf(),
    ensures
        forall|b: int| r@.contains(b) <==> king_step(square.idx(), b),
        forall|b: int| #[trigger] bit(r.0, b) <==> king_step(square.idx(), b),
{
    let i: u8 = square.0;
    let rank: u8 = i / 8;
    let file: u8 = i % 8;
    proof {
        lemma_zero();
    }
    let mut moves: u64 = 0;
    // west
    moves = mark(moves, file > 0 && rank > 0, if file > 0 && rank > 0 { i - 9 } else { 0 });
    moves = mark(moves, file > 0, if file > 0 { i - 1 } else { 0 });
    moves = mark(moves, file > 0 && rank < 7, if file > 0 && rank < 7 { i + 7 } else { 0 });
    // east
    moves = mark(moves, file < 7 && rank > 0, if file < 7 && rank > 0 { i - 7 } else { 0 });
    moves = mark(moves, file < 7, if file < 7 { i + 1 } else { 0 });
    moves = mark(moves, file < 7 && rank < 7, if file < 7 && rank < 7 { i + 9 } else { 0 });
    // north and south
    moves = mark(moves, rank < 7, if rank < 7 { i + 8 } else { 0 });
    moves = mark(moves, rank > 0, if rank > 0 { i - 8 } else { 0 });
    proof {
        assert forall|b: int| bit(moves, b) <==> king_step(square.idx(), b) by {}
    }
    BitBoard(moves)
}

/// The squares that a pawn of `color` on `square` attacks: the one or two squares
/// diagonally ahead of it.
pub(crate) fn pawn_attacks(square: Square, color: Color) -> (r: BitBoard)
    requires
        square.wf(),
    ensures
        forall|b: int| r@.contains(b) <==> pawn_attack(color, square.idx(), b),
        forall|b: int| #[trigger] bit(r.0, b) <==> pawn_attack(color, square.idx(), b),
{
    let i: u8 = square.0;
    let rank: u8 = i / 8;
    let file: u8 = i % 8;
    proof {
        lemma_zero();
    }
    let mut moves: u64 = 0;
    match color {
        Color::White => {
            moves = mark(moves, rank < 7 && file > 0, if rank < 7 && file > 0 { i + 7 } else { 0 });
            moves = mark(moves, rank < 7 && file < 7, if rank < 7 && file < 7 { i + 9 } else { 0 });
        },
        Color::Black => {
            moves = mark(moves, rank > 0 && file > 0, if rank > 0 && file > 0 { i - 9 } else { 0 });
            moves = mark(moves, rank > 0 && file < 7, if rank > 0 && file < 7 { i - 7 } else { 0 });
        },
    }
    proof {
        assert forall|b: int| bit(moves, b) <==> pawn_attack(color, square.idx(), b) by {}
    }
    BitBoard(moves)
}

} // verus!
