//! What holds of every position of a game: from the starting position on, through legal
//! moves, the board stays a board of the game.

use vstd::prelude::*;
use crate::bits::{bit, count, squares};
use crate::bits::{lemma_count, lemma_equal};
use crate::board::Board;
use crate::geometry::{dir_f, dir_r, lemma_toward, seen};
use crate::moves::MoveExt;
use crate::piece::{Color, PieceKind};
use crate::position::{king_home, Position};

verus! {

/// A legal move is made by the rules of the game.
pub proof fn lemma_legal_rules(p: Position, m: MoveExt)
    requires
        p.wf(),
        p.legal(m),
    ensures
        p.by_the_rules(m),
{
    let us = p.active_color;
    p.board.lemma_king_where(us, m.from.idx());
    p.board.lemma_king_where(us, king_home(us));
    p.board.lemma_has(m.to.idx(), p.them(), PieceKind::King);
    p.board.lemma_piece_at(m.to.idx());
    assert(p.side_ok(us));
}

/// A legal move fits its position: it can be applied.
pub proof fn lemma_legal_fits(p: Position, m: MoveExt)
    requires
        p.wf(),
        p.legal(m),
    ensures
        p.fits(m),
{
    lemma_legal_rules(p, m);
    lemma_rules_fit(p, m);
}

/// A move made by the rules of the game fits its position: it can be applied.
pub proof fn lemma_rules_fit(p: Position, m: MoveExt)
    requires
        p.wf(),
        p.by_the_rules(m),
    ensures
        p.fits(m),
{
    let us = p.active_color;
    let from = m.from.idx();
    let to = m.to.idx();
    let occ = p.board.occupied();
    p.board.lemma_piece_at(from);
    p.board.lemma_piece_at(to);
    p.board.lemma_king_where(us, from);
    p.board.lemma_king_where(us, king_home(us));
    p.board.lemma_has(to, p.them(), PieceKind::King);
    assert(p.side_ok(us));
    if m.piece_kind == PieceKind::King {
        p.board.lemma_piece_at(king_home(us) + 1);
        p.board.lemma_piece_at(king_home(us) - 1);
    } else {
        if crate::geometry::family_sees(occ, 0, from, to) {
            lemma_sees_apart(occ, 0, from, to);
        }
        if crate::geometry::family_sees(occ, 1, from, to) {
            lemma_sees_apart(occ, 1, from, to);
        }
        if m.piece_kind == PieceKind::Pawn {
            if 0 <= from + 8 < 64 {
                p.board.lemma_piece_at(from + 8);
            }
            if 0 <= from - 8 < 64 {
                p.board.lemma_piece_at(from - 8);
            }
        }
    }
}

/// A slider does not see its own square.
pub proof fn lemma_sees_apart(blockers: u64, family: int, a: int, b: int)
    requires
        family == 0 || family == 1,
        crate::geometry::family_sees(blockers, family, a, b),
    ensures
        a != b,
        0 <= a < 64,
        0 <= b < 64,
{
    if seen(blockers, a, b, dir_r(family, 0), dir_f(family, 0)) {
        lemma_toward(a, b, dir_r(family, 0), dir_f(family, 0));
    } else if seen(blockers, a, b, dir_r(family, 1), dir_f(family, 1)) {
        lemma_toward(a, b, dir_r(family, 1), dir_f(family, 1));
    } else if seen(blockers, a, b, dir_r(family, 2), dir_f(family, 2)) {
        lemma_toward(a, b, dir_r(family, 2), dir_f(family, 2));
    } else {
        lemma_toward(a, b, dir_r(family, 3), dir_f(family, 3));
    }
}

/// Two consistent boards with the same piece on every square are the same board.
pub proof fn lemma_board_equal(a: Board, b: Board)
    requires
        a.consistent(),
        b.consistent(),
        forall|i: int| 0 <= i < 64 ==> a.piece_at(i) == b.piece_at(i),
    ensures
        a == b,
{
    assert forall|i: int| 0 <= i < 64 implies {
        &&& bit(a.white.0, i) == bit(b.white.0, i)
        &&& bit(a.black.0, i) == bit(b.black.0, i)
        &&& bit(a.pawns.0, i) == bit(b.pawns.0, i)
        &&& bit(a.knights.0, i) == bit(b.knights.0, i)
        &&& bit(a.bishops.0, i) == bit(b.bishops.0, i)
        &&& bit(a.rooks.0, i) == bit(b.rooks.0, i)
        &&& bit(a.queens.0, i) == bit(b.queens.0, i)
        &&& bit(a.kings.0, i) == bit(b.kings.0, i)
    } by {
        a.lemma_piece_at(i);
        b.lemma_piece_at(i);
        a.lemma_consistent();
        b.lemma_consistent();
        assert(a.square_ok(i) && b.square_ok(i));
        assert(a.piece_at(i) == b.piece_at(i));
    }
    lemma_equal(a.white.0, b.white.0);
    lemma_equal(a.black.0, b.black.0);
    lemma_equal(a.pawns.0, b.pawns.0);
    lemma_equal(a.knights.0, b.knights.0);
    lemma_equal(a.bishops.0, b.bishops.0);
    lemma_equal(a.rooks.0, b.rooks.0);
    lemma_equal(a.queens.0, b.queens.0);
    lemma_equal(a.kings.0, b.kings.0);
}

/// A move leads from a position to one position only.
pub proof fn lemma_step_unique(p: Position, m: MoveExt, a: Position, b: Position)
    requires
        p.steps_to(m, a),
        p.steps_to(m, b),
    ensures
        a == b,
{
    assert forall|i: int| 0 <= i < 64 implies a.board.piece_at(i) == b.board.piece_at(i) by {
        assert(a.board.piece_at(i) == p.piece_after(m, i));
        assert(b.board.piece_at(i) == p.piece_after(m, i));
    }
    lemma_board_equal(a.board, b.board);
}

/// A move that fits never adds a piece to the board.
pub proof fn lemma_count_after(p: Position, m: MoveExt, next: Position)
    requires
        p.wf(),
        p.fits(m),
        p.steps_to(m, next),
    ensures
        count(next.board.occupied()) <= count(p.board.occupied()),
{
    let s = squares(p.board.occupied());
    let t = squares(next.board.occupied());
    let from = m.from.idx();
    let to = m.to.idx();
    lemma_count(p.board.occupied());
    lemma_count(next.board.occupied());
    p.board.lemma_piece_at(from);
    let bound = if Position::is_castle(m) {
        s.remove(from).remove(Position::rook_from(m)).insert(to).insert(Position::rook_to(m))
    } else {
        s.remove(from).insert(to)
    };
    if Position::is_castle(m) {
        p.board.lemma_piece_at(Position::rook_from(m));
    }
    assert forall|i: int| t.contains(i) implies bound.contains(i) by {
        next.board.lemma_piece_at(i);
        p.board.lemma_piece_at(i);
        assert(next.board.piece_at(i) == p.piece_after(m, i));
    }
    vstd::set_lib::lemma_len_subset(t, bound);
}

/// Where the pieces stand at the start: white on the first two ranks, black on the last
/// two.
pub proof fn lemma_start_squares()
    ensures
        forall|i: int| #[trigger] bit(Position::start().board.white.0, i) <==> 0 <= i < 16,
        forall|i: int| #[trigger] bit(Position::start().board.black.0, i) <==> 48 <= i < 64,
        forall|i: int| #[trigger]
            bit(Position::start().board.occupied(), i) <==> 0 <= i < 16 || 48 <= i < 64,
{
    let w = Position::start().board.white.0;
    let b = Position::start().board.black.0;
    crate::bits::lemma_or(w, b);
    assert forall|i: int| 0 <= i < 64 implies (bit(w, i) <==> i < 16) && (bit(b, i) <==> i
        >= 48) by {
        let k = i as u64;
        assert(k < 64 ==> ((0xFFFFu64 >> k) & 1u64 == 1u64 <==> k < 16) && ((
        0xFFFF_0000_0000_0000u64 >> k) & 1u64 == 1u64 <==> k >= 48)) by (bit_vector);
    }
}

/// The starting position has 32 pieces.
pub proof fn lemma_start_count()
    ensures
        count(Position::start().board.occupied()) == 32,
{
    let occ = Position::start().board.occupied();
    lemma_start_squares();
    let low = vstd::set_lib::set_int_range(0, 16);
    let high = vstd::set_lib::set_int_range(48, 64);
    vstd::set_lib::lemma_int_range(0, 16);
    vstd::set_lib::lemma_int_range(48, 64);
    assert(squares(occ) =~= low.union(high));
    assert(low.disjoint(high));
    vstd::set_lib::lemma_set_disjoint_lens(low, high);
}

/// At the start, the side that is not to move is not in check.
pub proof fn lemma_start_sound()
    ensures
        Position::start().sound(),
{
    let p = Position::start();
    let occ = p.board.occupied();
    Position::lemma_start();
    Board::lemma_start();
    lemma_start_squares();
    assert(p.board.king_sq(Color::Black) == 60);
    assert forall|q: int| !#[trigger] crate::threats::attacker(
        p.board,
        occ,
        Color::White,
        q,
        60,
    ) by {
        if crate::threats::attacker(p.board, occ, Color::White, q, 60) {
            p.board.lemma_piece_at(q);
            assert(q < 16);
            let piece = p.board.piece_at(q).unwrap();
            if piece.kind == PieceKind::Bishop || piece.kind == PieceKind::Rook || piece.kind
                == PieceKind::Queen {
                lemma_slider_stopped(occ, 0, q);
                lemma_slider_stopped(occ, 1, q);
            }
        }
    }
}

/// From the first two ranks no slider sees e8 while the seventh rank is full.
proof fn lemma_slider_stopped(occ: u64, family: int, q: int)
    requires
        family == 0 || family == 1,
        0 <= q < 16,
        forall|i: int| 48 <= i < 56 ==> bit(occ, i),
    ensures
        !crate::geometry::family_sees(occ, family, q, 60),
{
    assert forall|d: int| 0 <= d < 4 implies !seen(
        occ,
        q,
        60,
        dir_r(family, d),
        dir_f(family, d),
    ) by {
        let r = dir_r(family, d);
        let f = dir_f(family, d);
        if seen(occ, q, 60, r, f) {
            crate::geometry::lemma_directions(family, d);
            lemma_far(q, r, f);
            crate::geometry::lemma_last_step(q, 60, r, f);
            let c = 60 - (8 * r + f);
            assert(bit(occ, c));
        }
    }
}

/// From the first two ranks e8 is far, and it lies up the board.
proof fn lemma_far(q: int, r: int, f: int)
    requires
        0 <= q < 16,
        crate::geometry::direction(r, f),
        crate::geometry::toward(q, 60, r, f),
    ensures
        crate::geometry::gap(q, 60) >= 2,
        r == 1,
{
    reveal(crate::geometry::toward);
    reveal(crate::geometry::gap);
}

/// `p` is reached from the starting position by `n` legal moves.
pub open spec fn reachable(p: Position, n: nat) -> bool
    decreases n,
{
    if n == 0 {
        p == Position::start()
    } else {
        exists|q: Position, m: MoveExt|
            #![trigger q.after(m)]
            reachable(q, (n - 1) as nat) && q.legal(m) && p == q.after(m)
    }
}

/// Every position reached from the starting position by legal moves is a position of
/// the game: no square holds a piece of both colors, each color has exactly one king,
/// there are at most 32 pieces, and the side that has just moved is not in check.
pub proof fn lemma_reachable(p: Position, n: nat)
    requires
        reachable(p, n),
    ensures
        p.wf(),
        p.board.white.0 & p.board.black.0 == 0,
        count(p.board.kings.0 & p.board.white.0) == 1,
        count(p.board.kings.0 & p.board.black.0) == 1,
        count(p.board.occupied()) <= 32,
        p.sound(),
    decreases n,
{
    if n == 0 {
        Position::lemma_start();
        lemma_start_count();
        lemma_start_sound();
    } else {
        let (q, m) = choose|q: Position, m: MoveExt|
            #![trigger q.after(m)]
            reachable(q, (n - 1) as nat) && q.legal(m) && p == q.after(m);
        lemma_reachable(q, (n - 1) as nat);
        lemma_legal_fits(q, m);
        q.lemma_after(m);
        lemma_count_after(q, m, p);
        crate::safety::lemma_king_safe(q, m, p);
    }
    p.board.lemma_king(Color::White);
    p.board.lemma_king(Color::Black);
    lemma_one(p.board.king_bits(Color::White), p.board.king_sq(Color::White));
    lemma_one(p.board.king_bits(Color::Black), p.board.king_sq(Color::Black));
}

/// A mask that marks one square and no other holds one square.
pub proof fn lemma_one(x: u64, k: int)
    requires
        0 <= k < 64,
        forall|i: int| #[trigger] bit(x, i) <==> i == k,
    ensures
        count(x) == 1,
{
    assert(squares(x) =~= set![k]);
}

} // verus!
