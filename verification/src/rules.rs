//! The legal moves are the moves of the game: what the generator lists is what the rules
//! allow and what leaves the mover's king out of check, and nothing else.

use vstd::prelude::*;
use crate::bits::bit;
use crate::geometry::{between, dir_f, dir_r, seen, toward};
use crate::geometry::{lemma_between_nested, lemma_directions, lemma_line_order, lemma_one_direction, lemma_reverse, lemma_toward};
use crate::laws::lemma_rules_fit;
use crate::legal::{lemma_first_with, lemma_first_with_found};
use crate::moves::{Capture, MoveExt};
use crate::piece::PieceKind;
use crate::position::Position;
use crate::movegen::MoveList;
use crate::safety::{lemma_king_safe, lemma_squares_after};
use crate::threats::{attacked, attacker, piece_attacks};

verus! {

/// No square lies from another in a direction a knight's jump away.
proof fn lemma_off_lines(a: int, b: int, r: int, f: int)
    requires
        crate::geometry::abs(crate::geometry::dr(a, b)) == 2,
        crate::geometry::abs(crate::geometry::df(a, b)) == 1,
    ensures
        !toward(a, b, r, f),
{
    reveal(toward);
}

/// A piece of the side not to move that a move leaves where it is stands there after
/// the move.
proof fn lemma_stays(p: Position, m: MoveExt, next: Position, q: int)
    requires
        p.wf(),
        p.fits(m),
        p.steps_to(m, next),
        0 <= q < 64,
        p.hostile(q),
        q != m.to.idx(),
        !(m.capture == Some(Capture::EnPassant) && q == p.ep_victim(m.to.idx())),
    ensures
        next.board.piece_at(q) == p.board.piece_at(q),
        p.board.piece_at(q).is_some(),
        p.board.piece_at(q).unwrap().color == p.them(),
{
    p.lemma_blockers();
    p.board.lemma_piece_at(q);
    p.board.lemma_piece_at(m.from.idx());
    if Position::is_castle(m) {
        p.board.lemma_piece_at(Position::rook_from(m));
        p.board.lemma_piece_at(Position::rook_to(m));
    }
    assert(next.board.piece_at(q) == p.piece_after(m, q));
}

/// A king that steps onto an attacked square is in check there.
proof fn lemma_king_complete(p: Position, m: MoveExt, next: Position)
    requires
        p.wf(),
        p.by_the_rules(m),
        p.fits(m),
        p.steps_to(m, next),
        next.sound(),
        m.piece_kind == PieceKind::King,
        p.reach(PieceKind::King, m.from.idx(), m.to.idx()),
    ensures
        p.king_may_go(m.to.idx()),
{
    let us = p.active_color;
    let to = m.to.idx();
    let from = m.from.idx();
    let soft = p.soft_blockers();
    let occ2 = next.board.occupied();
    p.lemma_blockers();
    lemma_squares_after(p, m, next);
    p.board.lemma_king_where(us, from);
    p.lemma_kings_after(m, next, us);
    if p.threatened(to) {
        let q = choose|q: int| q < 64 && #[trigger] attacker(p.board, soft, p.them(), q, to);
        let piece = p.board.piece_at(q).unwrap();
        p.board.lemma_piece_at(q);
        assert(q != to) by {
            if crate::geometry::family_sees(soft, 0, q, to) {
                crate::laws::lemma_sees_apart(soft, 0, q, to);
            }
            if crate::geometry::family_sees(soft, 1, q, to) {
                crate::laws::lemma_sees_apart(soft, 1, q, to);
            }
        }
        lemma_stays(p, m, next, q);
        assert(piece_attacks(piece, occ2, q, to)) by {
            assert forall|family: int, d: int|
                (family == 0 || family == 1) && 0 <= d < 4 && seen(
                    soft,
                    q,
                    to,
                    dir_r(family, d),
                    dir_f(family, d),
                ) implies seen(occ2, q, to, dir_r(family, d), dir_f(family, d)) by {
                let r = dir_r(family, d);
                let f = dir_f(family, d);
                assert forall|c: int| between(q, c, to, r, f) implies !#[trigger] bit(
                    occ2,
                    c,
                ) by {
                    lemma_toward(c, to, r, f);
                    lemma_toward(q, c, r, f);
                    assert(!bit(soft, c));
                    assert(p.piece_after(m, c).is_none());
                }
            }
        }
        assert(attacker(next.board, occ2, p.them(), q, to));
    }
}

/// A knight or pawn that gives check is taken by every move of another piece than the
/// king that leaves the king out of check.
proof fn lemma_melee_answer(p: Position, m: MoveExt, next: Position, q: int)
    requires
        p.wf(),
        p.fits(m),
        p.steps_to(m, next),
        next.sound(),
        m.piece_kind != PieceKind::King,
        0 <= q < 64,
        p.melee_at(q),
    ensures
        q == m.to.idx() || (m.capture == Some(Capture::EnPassant) && q == p.ep_victim(
            m.to.idx(),
        )),
{
    let us = p.active_color;
    p.lemma_blockers();
    p.board.lemma_piece_at(q);
    p.lemma_kings_after(m, next, us);
    if !(q == m.to.idx() || (m.capture == Some(Capture::EnPassant) && q == p.ep_victim(
        m.to.idx(),
    ))) {
        lemma_stays(p, m, next, q);
        assert(attacker(next.board, next.board.occupied(), p.them(), q, p.king()));
    }
}

/// The line of a slider that gives check holds the destination of every move of another
/// piece than the king that leaves the king out of check.
proof fn lemma_line_answer(p: Position, m: MoveExt, next: Position, q: int, family: int)
    requires
        p.wf(),
        p.fits(m),
        p.steps_to(m, next),
        next.sound(),
        m.piece_kind != PieceKind::King,
        0 <= q < 64,
        family == 0 || family == 1,
        p.reaches_king(q, family, 1),
    ensures
        p.line(q, family).contains(m.to.idx()),
        m.to.idx() == q || between(
            q,
            m.to.idx(),
            p.king(),
            dir_r(family, p.probe_dir(q, family)),
            dir_f(family, p.probe_dir(q, family)),
        ),
{
    let us = p.active_color;
    let to = m.to.idx();
    let k = p.king();
    let d = p.probe_dir(q, family);
    let r = dir_r(family, d);
    let f = dir_f(family, d);
    let occ2 = next.board.occupied();
    p.lemma_blockers();
    lemma_squares_after(p, m, next);
    p.lemma_kings_after(m, next, us);
    p.lemma_line_shape(q, family, 1);
    p.board.lemma_piece_at(q);
    if to != q && !between(q, to, k, r, f) {
        if m.capture == Some(Capture::EnPassant) {
            p.board.lemma_piece_at(p.ep_victim(to));
        }
        lemma_stays(p, m, next, q);
        let piece = p.board.piece_at(q).unwrap();
        assert(seen(occ2, q, k, r, f)) by {
            assert forall|c: int| between(q, c, k, r, f) implies !#[trigger] bit(occ2, c) by {
                assert(p.line(q, family).contains(c));
                lemma_toward(q, c, r, f);
                assert(p.piece_after(m, c).is_none());
            }
        }
        assert(crate::geometry::family_sees(occ2, family, q, k));
        assert(piece_attacks(piece, occ2, q, k));
        assert(attacker(next.board, occ2, p.them(), q, k));
    }
}

/// A pinned piece that leaves the line of its pin leaves its king in check.
proof fn lemma_pin_complete(p: Position, m: MoveExt, next: Position)
    requires
        p.wf(),
        p.fits(m),
        p.steps_to(m, next),
        next.sound(),
        m.piece_kind != PieceKind::King,
    ensures
        p.pin_mask(m.from.idx()).contains(m.to.idx()),
{
    let us = p.active_color;
    let to = m.to.idx();
    let from = m.from.idx();
    let k = p.king();
    let pins = p.pins();
    let occ2 = next.board.occupied();
    p.lemma_blockers();
    lemma_squares_after(p, m, next);
    p.lemma_kings_after(m, next, us);
    p.board.lemma_piece_at(from);
    p.board.lemma_king_where(us, from);
    if exists|j: int| 0 <= j < pins.len() && (#[trigger] pins[j]).contains(from) {
        let j0 = choose|j: int| 0 <= j < pins.len() && (#[trigger] pins[j]).contains(from);
        let j = lemma_first_with_found(pins, from, 0, j0);
        let w = p.lemma_lines_elem(64, 2, j);
        let q = w.0;
        let family = w.1;
        let d = p.probe_dir(q, family);
        let r = dir_r(family, d);
        let f = dir_f(family, d);
        let s = p.lemma_line_shape(q, family, 2);
        p.board.lemma_piece_at(q);
        assert(from == s);
        if !p.line(q, family).contains(to) {
            if m.capture == Some(Capture::EnPassant) {
                p.board.lemma_piece_at(p.ep_victim(to));
            }
            lemma_stays(p, m, next, q);
            let piece = p.board.piece_at(q).unwrap();
            assert(seen(occ2, q, k, r, f)) by {
                assert forall|c: int| between(q, c, k, r, f) implies !#[trigger] bit(
                    occ2,
                    c,
                ) by {
                    assert(p.line(q, family).contains(c));
                    lemma_toward(q, c, r, f);
                    assert(p.piece_after(m, c).is_none());
                }
            }
            assert(crate::geometry::family_sees(occ2, family, q, k));
            assert(piece_attacks(piece, occ2, q, k));
            assert(attacker(next.board, occ2, p.them(), q, k));
        }
    } else {
        lemma_first_with(pins, from, pins.len() as int);
    }
}

/// Two sliders that give check at once are not both answered by one move of another
/// piece than the king.
proof fn lemma_two_lines(p: Position, to: int, q1: int, f1: int, q2: int, f2: int)
    requires
        p.wf(),
        0 <= q1 < 64,
        0 <= q2 < 64,
        f1 == 0 || f1 == 1,
        f2 == 0 || f2 == 1,
        p.reaches_king(q1, f1, 1),
        p.reaches_king(q2, f2, 1),
        to == q1 || between(
            q1,
            to,
            p.king(),
            dir_r(f1, p.probe_dir(q1, f1)),
            dir_f(f1, p.probe_dir(q1, f1)),
        ),
        to == q2 || between(
            q2,
            to,
            p.king(),
            dir_r(f2, p.probe_dir(q2, f2)),
            dir_f(f2, p.probe_dir(q2, f2)),
        ),
    ensures
        q1 == q2,
        f1 == f2,
{
    let k = p.king();
    let d1 = p.probe_dir(q1, f1);
    let d2 = p.probe_dir(q2, f2);
    let r1 = dir_r(f1, d1);
    let c1 = dir_f(f1, d1);
    let r2 = dir_r(f2, d2);
    let c2 = dir_f(f2, d2);
    p.lemma_blockers();
    p.lemma_line_shape(q1, f1, 1);
    p.lemma_line_shape(q2, f2, 1);
    lemma_directions(f1, d1);
    lemma_directions(f2, d2);
    p.board.lemma_piece_at(q1);
    p.board.lemma_piece_at(q2);
    if q1 == q2 {
        lemma_one_direction(q1, k, r1, c1, r2, c2);
    } else if to == q1 {
        assert(p.line(q2, f2).contains(to));
        assert(bit(p.board.occupied(), q1));
    } else if to == q2 {
        assert(p.line(q1, f1).contains(to));
        assert(bit(p.board.occupied(), q2));
    } else {
        lemma_one_direction(to, k, r1, c1, r2, c2);
        lemma_reverse(q1, to, r1, c1);
        lemma_reverse(q2, to, r1, c1);
        lemma_line_order(to, q1, q2, -r1, -c1);
        if between(to, q1, q2, -r1, -c1) {
            assert(between(q2, q1, to, r1, c1));
            lemma_between_nested(q2, q1, to, k, r1, c1);
            assert(p.line(q2, f2).contains(q1));
            assert(bit(p.board.occupied(), q1));
        } else {
            assert(between(q1, q2, to, r1, c1));
            lemma_between_nested(q1, q2, to, k, r1, c1);
            assert(p.line(q1, f1).contains(q2));
            assert(bit(p.board.occupied(), q2));
        }
    }
}

/// A move of another piece than the king that leaves the king out of check answers the
/// check: there is no double check, and the move goes where the one check asks it to.
proof fn lemma_check_complete(p: Position, m: MoveExt, next: Position)
    requires
        p.wf(),
        p.by_the_rules(m),
        p.fits(m),
        p.steps_to(m, next),
        next.sound(),
        m.piece_kind != PieceKind::King,
    ensures
        p.checkers() < 2,
        p.check_mask().contains(m.to.idx()) || (m.piece_kind == PieceKind::Pawn
            && p.ep_takes_checker(m.to.idx())),
{
    let to = m.to.idx();
    let k = p.king();
    let melee = p.melee();
    let checks = p.checks();
    p.lemma_blockers();
    p.board.lemma_piece_at(to);
    let taken_passing = m.capture == Some(Capture::EnPassant);
    if melee.len() >= 2 {
        let w = p.lemma_melee_pair(64, 0, 1);
        lemma_melee_answer(p, m, next, w.0);
        lemma_melee_answer(p, m, next, w.1);
        p.board.lemma_piece_at(w.0);
        p.board.lemma_piece_at(w.1);
    }
    if checks.len() >= 2 {
        let w = p.lemma_lines_pair(64, 1, 0, 1);
        lemma_line_answer(p, m, next, w.0, w.1);
        lemma_line_answer(p, m, next, w.2, w.3);
        lemma_two_lines(p, to, w.0, w.1, w.2, w.3);
    }
    if melee.len() >= 1 && checks.len() >= 1 {
        let a = p.lemma_melee_pair(64, 0, 0);
        let b = p.lemma_lines_elem(64, 1, 0);
        lemma_melee_answer(p, m, next, a.0);
        lemma_line_answer(p, m, next, b.0, b.1);
        p.lemma_line_shape(b.0, b.1, 1);
        p.board.lemma_piece_at(a.0);
        p.board.lemma_piece_at(b.0);
        let d = p.probe_dir(b.0, b.1);
        if a.0 == to {
            assert(p.line(b.0, b.1).contains(to));
            assert(bit(p.board.occupied(), to));
        } else {
            lemma_directions(b.1, d);
            lemma_off_lines(to, k, dir_r(b.1, d), dir_f(b.1, d));
        }
    }
    assert(p.checkers() < 2);
    if melee.len() == 1 {
        let a = p.lemma_melee_pair(64, 0, 0);
        lemma_melee_answer(p, m, next, a.0);
        assert(set![a.0].contains(a.0));
    } else if checks.len() == 1 {
        let b = p.lemma_lines_elem(64, 1, 0);
        lemma_line_answer(p, m, next, b.0, b.1);
    }
}

/// A capture en passant that leaves the king out of check opens no line onto it.
proof fn lemma_passing_complete(p: Position, m: MoveExt, next: Position)
    requires
        p.wf(),
        p.by_the_rules(m),
        p.fits(m),
        p.steps_to(m, next),
        next.sound(),
        m.piece_kind == PieceKind::Pawn,
        p.ep_is(m.to.idx()),
    ensures
        p.ep_safe(m.from.idx(), m.to.idx()),
{
    let us = p.active_color;
    let to = m.to.idx();
    let from = m.from.idx();
    let k = p.king();
    let occ = p.board.occupied();
    let victim = p.ep_victim(to);
    let after = p.blockers_after_ep(from, to);
    let occ2 = next.board.occupied();
    p.lemma_blockers();
    lemma_squares_after(p, m, next);
    p.lemma_kings_after(m, next, us);
    p.board.lemma_piece_at(to);
    p.board.lemma_piece_at(victim);
    assert(m.capture == Some(Capture::EnPassant));
    crate::bits::lemma_clear(occ, from as u64);
    crate::bits::lemma_clear(occ & !(1u64 << (from as u64)), victim as u64);
    crate::bits::lemma_put(
        occ & !(1u64 << (from as u64)) & !(1u64 << (victim as u64)),
        to as u64,
    );
    assert forall|c: int| 0 <= c < 64 implies bit(occ2, c) == bit(after, c) by {
        assert(bit(occ2, c) <==> p.piece_after(m, c).is_some());
        assert(bit(occ, c) <==> p.board.piece_at(c).is_some());
    }
    crate::bits::lemma_equal(occ2, after);
    assert forall|q: int| #![trigger p.board.piece_at(q)] 0 <= q < 64 implies {
        &&& crate::geometry::family_sees(after, 1, k, q) ==> !(p.has(
            q,
            p.them(),
            PieceKind::Rook,
        ) || p.has(q, p.them(), PieceKind::Queen))
        &&& crate::geometry::family_sees(after, 0, k, q) ==> !(p.has(
            q,
            p.them(),
            PieceKind::Bishop,
        ) || p.has(q, p.them(), PieceKind::Queen))
    } by {
        p.board.lemma_piece_at(q);
        match p.board.piece_at(q) {
            Some(piece) => {
                if piece.color == p.them() && (piece.kind == PieceKind::Rook || piece.kind
                    == PieceKind::Bishop || piece.kind == PieceKind::Queen) {
                    lemma_stays(p, m, next, q);
                    if crate::geometry::family_sees(after, 1, k, q) {
                        crate::geometry::lemma_sees_back(after, 1, k, q);
                    }
                    if crate::geometry::family_sees(after, 0, k, q) {
                        crate::geometry::lemma_sees_back(after, 0, k, q);
                    }
                    if Position::slides(piece.kind, 1) && crate::geometry::family_sees(
                        after,
                        1,
                        k,
                        q,
                    ) {
                        assert(piece_attacks(piece, occ2, q, k));
                        assert(attacker(next.board, occ2, p.them(), q, k));
                    }
                    if Position::slides(piece.kind, 0) && crate::geometry::family_sees(
                        after,
                        0,
                        k,
                        q,
                    ) {
                        assert(piece_attacks(piece, occ2, q, k));
                        assert(attacker(next.board, occ2, p.them(), q, k));
                    }
                }
            },
            None => {},
        }
    }
}

/// A move that is made by the rules of the game and leaves the mover's king out of check
/// is a legal move.
pub proof fn lemma_complete(p: Position, m: MoveExt, next: Position)
    requires
        p.wf(),
        p.by_the_rules(m),
        p.steps_to(m, next),
        next.sound(),
    ensures
        p.legal(m),
{
    lemma_rules_fit(p, m);
    if m.piece_kind == PieceKind::King {
        if p.reach(PieceKind::King, m.from.idx(), m.to.idx()) {
            lemma_king_complete(p, m, next);
        }
    } else {
        lemma_check_complete(p, m, next);
        lemma_pin_complete(p, m, next);
        if m.piece_kind == PieceKind::Pawn && p.ep_is(m.to.idx()) {
            lemma_passing_complete(p, m, next);
        }
    }
}

/// The legal moves are the moves of the game.
///
/// In a position of the game in which the side not to move is not in check, a move is
/// legal exactly when it is made by the rules of the game and, once it is applied, the
/// mover's king is not in check.
pub proof fn lemma_lawful(p: Position, m: MoveExt)
    requires
        p.wf(),
        p.sound(),
    ensures
        p.legal(m) <==> p.by_the_rules(m) && p.after(m).sound(),
        p.legal(m) ==> p.fits(m) && p.after(m).wf(),
{
    if p.legal(m) {
        crate::laws::lemma_legal_rules(p, m);
        lemma_rules_fit(p, m);
        p.lemma_after(m);
        lemma_king_safe(p, m, p.after(m));
    }
    if p.by_the_rules(m) && p.after(m).sound() {
        lemma_rules_fit(p, m);
        p.lemma_after(m);
        lemma_complete(p, m, p.after(m));
    }
}

/// What the generator answers, by the rules of the game.
///
/// In a position of the game in which the side not to move is not in check, the list
/// holds exactly the moves that are made by the rules and leave the mover's king out of
/// check; it is not empty; and where there is no such move the answer is checkmate if the
/// king is in check and stalemate if it is not. So the answer is a list of moves exactly
/// when the game has not come to its end.
pub proof fn lemma_verdict(p: Position, list: MoveList)
    requires
        p.wf(),
        p.sound(),
        list.describes(p),
    ensures
        match list {
            MoveList::Moves(l) => {
                &&& l@.len() > 0
                &&& forall|m: MoveExt|
                    l@.contains(m) <==> p.by_the_rules(m) && p.after(m).sound()
            },
            MoveList::Checkmate => p.in_check() && forall|m: MoveExt|
                !(p.by_the_rules(m) && #[trigger] p.after(m).sound()),
            MoveList::Stalemate => !p.in_check() && forall|m: MoveExt|
                !(p.by_the_rules(m) && #[trigger] p.after(m).sound()),
        },
        list is Moves <==> exists|m: MoveExt| p.by_the_rules(m) && #[trigger] p.after(m).sound(),
{
    assert forall|m: MoveExt| p.legal(m) <==> p.by_the_rules(m) && #[trigger] p.after(
        m,
    ).sound() by {
        lemma_lawful(p, m);
    }
    match list {
        MoveList::Moves(l) => {
            let m = l@[0];
            assert(l@.contains(m));
            lemma_lawful(p, m);
            assert(p.by_the_rules(m) && p.after(m).sound());
            assert forall|m: MoveExt|
                l@.contains(m) <==> p.by_the_rules(m) && p.after(m).sound() by {
                lemma_lawful(p, m);
            }
        },
        _ => {},
    }
}

} // verus!
