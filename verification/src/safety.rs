//! King safety: a legal move never leaves the mover's king in check.

use vstd::prelude::*;
use crate::bits::{bit, squares};
use crate::bits::{lemma_and, lemma_or, lemma_xor};
use crate::geometry::{between, dir_f, dir_r, direction, seen, toward};
use crate::geometry::{lemma_between, lemma_between_nested, lemma_directions, lemma_line_order, lemma_one_direction, lemma_reverse, lemma_seen_more, lemma_toward};
use crate::moves::{Capture, MoveExt};
use crate::piece::{Piece, PieceKind};
use crate::position::Position;

verus! {

impl Position {
    /// A slider of the side not to move stands on `q`, and direction `d` of `family` is
    /// one in which it slides.
    pub open spec fn slider_at(self, q: int, family: int, d: int) -> bool {
        &&& 0 <= q < 64
        &&& family == 0 || family == 1
        &&& 0 <= d < 4
        &&& match self.board.piece_at(q) {
            Some(p) => p.color == self.them() && Self::slides(p.kind, family),
            None => false,
        }
    }

    /// What the two sets of blockers hold: a probe is stopped by the pieces of the side
    /// not to move and by the king of the side to move; the soft blockers are all pieces
    /// but that king.
    pub proof fn lemma_blockers(self)
        requires
            self.wf(),
        ensures
            forall|c: int| #[trigger]
                bit(self.probe_blockers(), c) <==> self.hostile(c) || c == self.king(),
            forall|c: int| #[trigger]
                bit(self.soft_blockers(), c) <==> bit(self.board.occupied(), c) && c
                    != self.king(),
            forall|c: int| #[trigger]
                bit(self.board.occupied(), c) <==> self.hostile(c) || self.friendly(c),
            forall|c: int| !(self.hostile(c) && self.friendly(c)),
            self.friendly(self.king()),
            0 <= self.king() < 64,
    {
        let us = self.active_color;
        self.board.lemma_king(us);
        lemma_or(self.board.color_bits(self.them()), self.board.king_bits(us));
        lemma_xor(self.board.occupied(), self.board.king_bits(us));
        lemma_or(self.board.white.0, self.board.black.0);
        lemma_and(self.board.kings.0, self.board.color_bits(us));
        self.board.lemma_consistent();
        assert forall|c: int| !(self.hostile(c) && self.friendly(c)) by {
            if 0 <= c < 64 {
                assert(self.board.square_ok(c));
            }
        }
    }

    /// The king is in check exactly when its square is among the squares that the other
    /// side threatens: on the way to the king's square the king itself is no blocker.
    pub proof fn lemma_in_check(self)
        requires
            self.wf(),
        ensures
            self.in_check() <==> self.threatened(self.king()),
    {
        let k = self.king();
        let occ = self.board.occupied();
        let soft = self.soft_blockers();
        self.lemma_blockers();
        assert forall|q: int|
            crate::threats::attacker(self.board, occ, self.them(), q, k)
                <==> crate::threats::attacker(self.board, soft, self.them(), q, k) by {
            assert forall|family: int, d: int|
                (family == 0 || family == 1) && 0 <= d < 4 implies (seen(
                    occ,
                    q,
                    k,
                    dir_r(family, d),
                    dir_f(family, d),
                ) <==> seen(soft, q, k, dir_r(family, d), dir_f(family, d))) by {
                let r = dir_r(family, d);
                let f = dir_f(family, d);
                lemma_directions(family, d);
                assert forall|c: int| between(q, c, k, r, f) implies (#[trigger] bit(occ, c)
                    <==> bit(soft, c)) by {
                    lemma_toward(c, k, r, f);
                }
                if seen(occ, q, k, r, f) {
                    assert forall|c: int| between(q, c, k, r, f) implies !#[trigger] bit(
                        soft,
                        c,
                    ) by {
                        assert(!bit(occ, c));
                    }
                }
                if seen(soft, q, k, r, f) {
                    assert forall|c: int| between(q, c, k, r, f) implies !#[trigger] bit(
                        occ,
                        c,
                    ) by {
                        assert(!bit(soft, c));
                    }
                }
            }
        }
        if self.in_check() {
            let q = choose|q: int|
                q < 64 && #[trigger] crate::threats::attacker(
                    self.board,
                    occ,
                    self.them(),
                    q,
                    k,
                );
            assert(crate::threats::attacker(self.board, soft, self.them(), q, k));
        }
        if self.threatened(k) {
            let q = choose|q: int|
                q < 64 && #[trigger] crate::threats::attacker(
                    self.board,
                    soft,
                    self.them(),
                    q,
                    k,
                );
            assert(crate::threats::attacker(self.board, occ, self.them(), q, k));
        }
    }

    /// A probe that reaches the king in a direction is the probe of its family that
    /// reaches the king, and it holds nothing beyond the king.
    pub proof fn lemma_probe(self, q: int, family: int, d: int)
        requires
            self.wf(),
            family == 0 || family == 1,
            0 <= d < 4,
            seen(self.probe_blockers(), q, self.king(), dir_r(family, d), dir_f(family, d)),
        ensures
            self.probe_dir(q, family) == d,
            forall|c: int| #[trigger]
                self.probe_ray(q, family, d).contains(c) ==> c == self.king() || between(
                    q,
                    c,
                    self.king(),
                    dir_r(family, d),
                    dir_f(family, d),
                ),
    {
        let k = self.king();
        let probe = self.probe_blockers();
        self.lemma_blockers();
        lemma_directions(family, d);
        assert forall|e: int| 0 <= e < 4 && e != d implies !self.probe_ray(q, family, e).contains(
            k,
        ) by {
            lemma_directions(family, e);
            if self.probe_ray(q, family, e).contains(k) {
                lemma_one_direction(
                    q,
                    k,
                    dir_r(family, e),
                    dir_f(family, e),
                    dir_r(family, d),
                    dir_f(family, d),
                );
            }
        }
        assert(self.probe_ray(q, family, d).contains(k));
        assert forall|c: int| #[trigger] self.probe_ray(q, family, d).contains(c) implies c == k
            || between(q, c, k, dir_r(family, d), dir_f(family, d)) by {
            lemma_line_order(q, c, k, dir_r(family, d), dir_f(family, d));
            if between(q, k, c, dir_r(family, d), dir_f(family, d)) {
                assert(bit(probe, k));
            }
        }
    }

    /// A slider that sees the king gives check: its line is in the list of checks, and
    /// the line holds the slider's square, the king's square and what lies between.
    pub proof fn lemma_check_line(self, q: int, family: int, d: int)
        requires
            self.wf(),
            self.slider_at(q, family, d),
            seen(self.board.occupied(), q, self.king(), dir_r(family, d), dir_f(family, d)),
        ensures
            self.checks().contains(self.line(q, family)),
            forall|t: int| #[trigger]
                self.line(q, family).contains(t) ==> t == q || t == self.king() || between(
                    q,
                    t,
                    self.king(),
                    dir_r(family, d),
                    dir_f(family, d),
                ),
    {
        let k = self.king();
        let r = dir_r(family, d);
        let f = dir_f(family, d);
        let occ = self.board.occupied();
        self.lemma_blockers();
        lemma_seen_more(occ, self.probe_blockers(), q, k, r, f);
        self.lemma_probe(q, family, d);
        let ray = self.probe_ray(q, family, d);
        let friends = squares(self.board.color_bits(self.active_color));
        assert(ray.intersect(friends) =~= set![k]) by {
            assert forall|c: int| ray.intersect(friends).contains(c) implies c == k by {
                assert(ray.contains(c));
                if between(q, c, k, r, f) {
                    assert(bit(occ, c));
                }
            }
            assert(ray.contains(k));
        }
        assert(self.friends_on_line(q, family) == 1);
        assert(self.reaches_king(q, family, 1));
        self.lemma_lines_has(q, family, 1, 64);
    }

    /// A slider with one piece of the side to move between it and the king, and nothing
    /// else, pins that piece: its line is in the list of pins, and the line holds the
    /// slider's square, the king's square and what lies between.
    pub proof fn lemma_pin_line(self, q: int, family: int, d: int, s: int)
        requires
            self.wf(),
            self.slider_at(q, family, d),
            between(q, s, self.king(), dir_r(family, d), dir_f(family, d)),
            self.friendly(s),
            forall|c: int|
                between(q, c, self.king(), dir_r(family, d), dir_f(family, d)) && c != s ==> !bit(
                    self.board.occupied(),
                    c,
                ),
        ensures
            self.reaches_king(q, family, 2),
            self.pins().contains(self.line(q, family)),
            self.line(q, family).contains(s),
            self.probe_dir(q, family) == d,
            forall|t: int| #[trigger]
                self.line(q, family).contains(t) ==> t == q || t == self.king() || between(
                    q,
                    t,
                    self.king(),
                    dir_r(family, d),
                    dir_f(family, d),
                ),
    {
        let k = self.king();
        let r = dir_r(family, d);
        let f = dir_f(family, d);
        let occ = self.board.occupied();
        let probe = self.probe_blockers();
        self.lemma_blockers();
        lemma_directions(family, d);
        lemma_between(q, s, k, r, f);
        assert(s != k) by {
            lemma_toward(s, k, r, f);
        }
        assert(seen(probe, q, k, r, f)) by {
            assert forall|c: int| between(q, c, k, r, f) implies !#[trigger] bit(probe, c) by {
                lemma_toward(c, k, r, f);
                if c != s {
                    assert(!bit(occ, c));
                }
            }
        }
        self.lemma_probe(q, family, d);
        let ray = self.probe_ray(q, family, d);
        let friends = squares(self.board.color_bits(self.active_color));
        assert(seen(probe, q, s, r, f)) by {
            assert forall|c: int| between(q, c, s, r, f) implies !#[trigger] bit(probe, c) by {
                lemma_between_nested(q, c, s, k, r, f);
                lemma_toward(c, s, r, f);
            }
        }
        assert(ray.contains(s));
        assert(ray.intersect(friends) =~= set![s, k]) by {
            assert forall|c: int| ray.intersect(friends).contains(c) implies c == k || c == s by {
                assert(ray.contains(c));
                if between(q, c, k, r, f) {
                    assert(bit(occ, c));
                }
            }
            assert(ray.contains(k));
        }
        assert(set![s, k].len() == 2) by {
            assert(set![s, k] =~= set![s].insert(k));
        }
        assert(self.friends_on_line(q, family) == 2);
        self.lemma_lines_has(q, family, 2, 64);
    }

    /// The shape of a line in the list of checks or of pins: the slider reaches the king
    /// along it; what lies between slider and king is on the line and holds no piece of
    /// the slider's side; the line holds nothing but the slider's square, the king's
    /// square and what lies between; on a check line nothing stands between, and on a pin
    /// line one piece of the king's side does, whose square is given.
    pub proof fn lemma_line_shape(self, q: int, family: int, friends: nat) -> (s: int)
        requires
            self.wf(),
            0 <= q < 64,
            family == 0 || family == 1,
            friends == 1 || friends == 2,
            self.reaches_king(q, family, friends),
        ensures
            self.slider_at(q, family, self.probe_dir(q, family)),
            toward(
                q,
                self.king(),
                dir_r(family, self.probe_dir(q, family)),
                dir_f(family, self.probe_dir(q, family)),
            ),
            forall|c: int|
                between(
                    q,
                    c,
                    self.king(),
                    dir_r(family, self.probe_dir(q, family)),
                    dir_f(family, self.probe_dir(q, family)),
                ) ==> #[trigger] self.line(q, family).contains(c) && !self.hostile(c) && (c == s
                    || !bit(self.board.occupied(), c)),
            forall|t: int| #[trigger]
                self.line(q, family).contains(t) ==> t == q || t == self.king() || between(
                    q,
                    t,
                    self.king(),
                    dir_r(family, self.probe_dir(q, family)),
                    dir_f(family, self.probe_dir(q, family)),
                ),
            self.line(q, family).contains(q),
            friends == 1 ==> s == -1,
            friends == 2 ==> self.friendly(s) && between(
                q,
                s,
                self.king(),
                dir_r(family, self.probe_dir(q, family)),
                dir_f(family, self.probe_dir(q, family)),
            ),
    {
        let k = self.king();
        let d = self.probe_dir(q, family);
        let r = dir_r(family, d);
        let f = dir_f(family, d);
        let probe = self.probe_blockers();
        let occ = self.board.occupied();
        self.lemma_blockers();
        assert(0 <= d < 4);
        lemma_directions(family, d);
        let ray = self.probe_ray(q, family, d);
        assert(ray.contains(k));
        assert(seen(probe, q, k, r, f));
        self.lemma_probe(q, family, d);
        let friends_set = squares(self.board.color_bits(self.active_color));
        let on = ray.intersect(friends_set);
        crate::bits::lemma_count(self.board.color_bits(self.active_color));
        vstd::set_lib::lemma_len_subset(on, friends_set);
        assert(on.contains(k));
        assert forall|c: int| between(q, c, k, r, f) implies ray.contains(c) && !self.hostile(
            c,
        ) by {
            lemma_between(q, c, k, r, f);
            assert(!bit(probe, c));
            assert forall|e: int| between(q, e, c, r, f) implies !#[trigger] bit(probe, e) by {
                lemma_between_nested(q, e, c, k, r, f);
            }
        }
        let rest = on.remove(k);
        if friends == 1 {
            rest.lemma_len0_is_empty();
            assert forall|c: int| between(q, c, k, r, f) implies !bit(occ, c) by {
                lemma_toward(c, k, r, f);
                if self.friendly(c) {
                    assert(on.contains(c));
                    assert(rest.contains(c));
                }
            }
            -1
        } else {
            assert(rest.len() == 1);
            let s = rest.choose();
            assert(rest.contains(s));
            assert(ray.contains(s) && self.friendly(s) && s != k);
            let last = rest.remove(s);
            last.lemma_len0_is_empty();
            assert forall|c: int| between(q, c, k, r, f) && c != s implies !bit(occ, c) by {
                lemma_toward(c, k, r, f);
                if self.friendly(c) {
                    assert(on.contains(c));
                    assert(last.contains(c));
                }
            }
            s
        }
    }

    /// A pinned piece lies on the line of one slider only: every line in the list of
    /// pins that holds the piece is the line of the slider that pins it.
    pub proof fn lemma_pin_unique(self, q: int, family: int, d: int, s: int, q2: int, family2: int)
        requires
            self.wf(),
            self.slider_at(q, family, d),
            between(q, s, self.king(), dir_r(family, d), dir_f(family, d)),
            self.friendly(s),
            forall|c: int|
                between(q, c, self.king(), dir_r(family, d), dir_f(family, d)) && c != s ==> !bit(
                    self.board.occupied(),
                    c,
                ),
            0 <= q2 < 64,
            family2 == 0 || family2 == 1,
            self.reaches_king(q2, family2, 2),
            self.line(q2, family2).contains(s),
        ensures
            self.line(q2, family2) == self.line(q, family),
    {
        let k = self.king();
        let r = dir_r(family, d);
        let f = dir_f(family, d);
        let d2 = self.probe_dir(q2, family2);
        let r2 = dir_r(family2, d2);
        let f2 = dir_f(family2, d2);
        let probe = self.probe_blockers();
        self.lemma_blockers();
        self.board.lemma_piece_at(q2);
        self.board.lemma_piece_at(q);
        lemma_directions(family, d);
        assert(0 <= d2 < 4);
        lemma_directions(family2, d2);
        lemma_between(q, s, k, r, f);
        lemma_toward(s, k, r, f);
        assert(self.hostile(q2) && self.hostile(q));
        assert(seen(probe, q2, k, r2, f2)) by {
            assert(self.probe_ray(q2, family2, d2).contains(k));
        }
        assert(seen(probe, q2, s, r2, f2)) by {
            assert(self.probe_ray(q2, family2, d2).contains(s));
        }
        lemma_line_order(q2, s, k, r2, f2);
        if between(q2, k, s, r2, f2) {
            assert(bit(probe, k));
        }
        assert(between(q2, s, k, r2, f2));
        lemma_one_direction(s, k, r, f, r2, f2);
        lemma_reverse(q, s, r, f);
        lemma_reverse(q2, s, r, f);
        lemma_line_order(s, q, q2, -r, -f);
        if q != q2 {
            if between(s, q, q2, -r, -f) {
                lemma_reverse(q2, s, r, f);
                assert(between(q2, q, s, r, f));
                assert(bit(probe, q));
            } else {
                assert(between(s, q2, q, -r, -f));
                lemma_reverse(q, s, r, f);
                assert(between(q, q2, s, r, f));
                lemma_between_nested(q, q2, s, k, r, f);
                lemma_toward(q2, s, r, f);
                assert(bit(self.board.occupied(), q2));
            }
        }
        assert(q == q2);
        assert(family == family2);
    }

    /// Where a piece other than the king may go, no piece of its side stands.
    pub proof fn lemma_goes_off_friends(self, kind: PieceKind, from: int, to: int)
        requires
            self.wf(),
            self.may_go(kind, from, to),
        ensures
            !self.friendly(to),
            0 <= to < 64,
            0 <= from < 64,
            from != to,
    {
        self.lemma_blockers();
        let occ = self.board.occupied();
        if crate::geometry::family_sees(occ, 0, from, to) {
            crate::laws::lemma_sees_apart(occ, 0, from, to);
        }
        if crate::geometry::family_sees(occ, 1, from, to) {
            crate::laws::lemma_sees_apart(occ, 1, from, to);
        }
        if kind == PieceKind::Pawn && self.ep_is(to) {
            self.board.lemma_piece_at(to);
        }
    }

    /// The side that is not to move is not in check: the legal input of a generator.
    pub open spec fn sound(self) -> bool {
        !crate::threats::attacked(
            self.board,
            self.board.occupied(),
            self.active_color,
            self.board.king_sq(self.them()),
        )
    }
}

/// A corner square does not lie between two squares of its rank.
pub proof fn lemma_corner(q: int, c: int, t: int, r: int, f: int)
    requires
        direction(r, f),
        c / 8 == t / 8,
        c % 8 == 0 || c % 8 == 7,
    ensures
        !between(q, c, t, r, f),
{
    reveal(toward);
}

/// What stands on the board after a move that fits: the squares that hold a piece are
/// those on which the move leaves one.
pub proof fn lemma_squares_after(p: Position, m: MoveExt, next: Position)
    requires
        p.wf(),
        p.fits(m),
        p.steps_to(m, next),
    ensures
        forall|c: int|
            0 <= c < 64 ==> (#[trigger] bit(next.board.occupied(), c) <==> p.piece_after(
                m,
                c,
            ).is_some()),
        forall|c: int| 0 <= c < 64 ==> #[trigger] next.board.piece_at(c) == p.piece_after(m, c),
        forall|c: int|
            0 <= c < 64 ==> (#[trigger] bit(p.board.occupied(), c) <==> p.board.piece_at(
                c,
            ).is_some()),
{
    assert forall|c: int| 0 <= c < 64 implies (#[trigger] bit(next.board.occupied(), c)
        <==> p.piece_after(m, c).is_some()) by {
        next.board.lemma_piece_at(c);
        assert(next.board.piece_at(c) == p.piece_after(m, c));
    }
    assert forall|c: int| 0 <= c < 64 implies (#[trigger] bit(p.board.occupied(), c)
        <==> p.board.piece_at(c).is_some()) by {
        p.board.lemma_piece_at(c);
    }
}

/// After a legal move of the king, no slider sees the king.
proof fn lemma_king_off_lines(p: Position, m: MoveExt, next: Position, q: int, family: int, d: int)
    requires
        p.wf(),
        p.legal(m),
        p.fits(m),
        p.steps_to(m, next),
        m.piece_kind == PieceKind::King,
        p.slider_at(q, family, d),
        q != m.to.idx(),
    ensures
        !seen(next.board.occupied(), q, m.to.idx(), dir_r(family, d), dir_f(family, d)),
{
    if seen(next.board.occupied(), q, m.to.idx(), dir_r(family, d), dir_f(family, d)) {
    let us = p.active_color;
    let r = dir_r(family, d);
    let f = dir_f(family, d);
    let to = m.to.idx();
    let from = m.from.idx();
    let soft = p.soft_blockers();
    let piece = p.board.piece_at(q).unwrap();
    p.lemma_blockers();
    lemma_squares_after(p, m, next);
    lemma_directions(family, d);
    p.board.lemma_king_where(us, from);
    assert(from == p.king());
    assert forall|c: int| between(q, c, to, r, f) && #[trigger] bit(soft, c) implies bit(
        next.board.occupied(),
        c,
    ) by {
        lemma_toward(c, to, r, f);
        if Position::is_castle(m) && c == Position::rook_from(m) {
            lemma_corner(q, c, to, r, f);
        }
        assert(p.board.piece_at(c).is_some());
        assert(p.piece_after(m, c).is_some());
    }
    lemma_seen_more(next.board.occupied(), soft, q, to, r, f);
    assert(crate::geometry::family_sees(soft, family, q, to));
    assert(crate::threats::piece_attacks(piece, soft, q, to));
    assert(crate::threats::attacker(p.board, soft, p.them(), q, to));
    assert(p.threatened(to));
    p.board.lemma_king_where(us, crate::position::king_home(us));
    assert(p.side_ok(us));
    }
}

/// After a legal move of a piece other than the king that is no capture en passant, no
/// slider sees the king.
proof fn lemma_piece_off_lines(p: Position, m: MoveExt, next: Position, q: int, family: int, d: int)
    requires
        p.wf(),
        p.legal(m),
        p.fits(m),
        p.steps_to(m, next),
        m.piece_kind != PieceKind::King,
        m.capture != Some(Capture::EnPassant),
        p.slider_at(q, family, d),
        q != m.to.idx(),
    ensures
        !seen(next.board.occupied(), q, p.king(), dir_r(family, d), dir_f(family, d)),
{
    if seen(next.board.occupied(), q, p.king(), dir_r(family, d), dir_f(family, d)) {
    let us = p.active_color;
    let r = dir_r(family, d);
    let f = dir_f(family, d);
    let to = m.to.idx();
    let from = m.from.idx();
    let k = p.king();
    let occ = p.board.occupied();
    p.lemma_blockers();
    lemma_squares_after(p, m, next);
    lemma_directions(family, d);
    p.lemma_goes_off_friends(m.piece_kind, from, to);
    p.board.lemma_piece_at(from);
    assert(p.friendly(from));
    assert(!between(q, to, k, r, f)) by {
        assert(p.piece_after(m, to).is_some());
        assert(bit(next.board.occupied(), to));
    }
    assert forall|c: int| between(q, c, k, r, f) && c != from implies !bit(occ, c) by {
        lemma_toward(q, c, r, f);
        if bit(occ, c) {
            assert(p.board.piece_at(c).is_some());
            assert(p.piece_after(m, c).is_some());
            assert(bit(next.board.occupied(), c));
        }
    }
    if between(q, from, k, r, f) {
        p.lemma_pin_line(q, family, d, from);
        let pins = p.pins();
        let j0 = choose|j: int| 0 <= j < pins.len() && pins[j] == p.line(q, family);
        let j = crate::legal::lemma_first_with_found(pins, from, 0, j0);
        let w = p.lemma_lines_elem(64, 2, j);
        p.lemma_pin_unique(q, family, d, from, w.0, w.1);
        assert(p.pin_mask(from) == p.line(q, family));
        assert(p.line(q, family).contains(to));
    } else {
        assert(seen(occ, q, k, r, f)) by {
            lemma_toward(q, k, r, f);
        }
        p.lemma_check_line(q, family, d);
        let checks = p.checks();
        let j0 = choose|j: int| 0 <= j < checks.len() && checks[j] == p.line(q, family);
        assert(checks.len() == 1 && p.melee().len() == 0);
        assert(p.check_mask() == p.line(q, family));
        assert(p.line(q, family).contains(to));
    }
    assert(to == q || to == k || between(q, to, k, r, f));
    }
}

/// After a legal capture en passant, no slider sees the king.
proof fn lemma_passing_off_lines(p: Position, m: MoveExt, next: Position, q: int, family: int, d: int)
    requires
        p.wf(),
        p.legal(m),
        p.fits(m),
        p.steps_to(m, next),
        m.capture == Some(Capture::EnPassant),
        p.slider_at(q, family, d),
    ensures
        !seen(next.board.occupied(), q, p.king(), dir_r(family, d), dir_f(family, d)),
{
    if seen(next.board.occupied(), q, p.king(), dir_r(family, d), dir_f(family, d)) {
    let to = m.to.idx();
    let from = m.from.idx();
    let k = p.king();
    let occ = p.board.occupied();
    let victim = p.ep_victim(to);
    let after = p.blockers_after_ep(from, to);
    p.lemma_blockers();
    lemma_squares_after(p, m, next);
    crate::bits::lemma_clear(occ, from as u64);
    crate::bits::lemma_clear(occ & !(1u64 << (from as u64)), victim as u64);
    crate::bits::lemma_put(
        occ & !(1u64 << (from as u64)) & !(1u64 << (victim as u64)),
        to as u64,
    );
    assert forall|c: int| 0 <= c < 64 implies bit(next.board.occupied(), c) == bit(after, c) by {
        assert(bit(next.board.occupied(), c) <==> p.piece_after(m, c).is_some());
        assert(bit(occ, c) <==> p.board.piece_at(c).is_some());
    }
    crate::bits::lemma_equal(next.board.occupied(), after);
    assert(crate::geometry::family_sees(after, family, q, k));
    crate::geometry::lemma_sees_back(after, family, q, k);
    assert(p.board.piece_at(q).is_some());
    assert(p.ep_safe(from, to));
    }
}

/// The king-safety law: a legal move leaves the mover's king out of check.
///
/// From a position of the game in which the side not to move is not in check, a legal
/// move leads to a position in which again the side not to move, now the mover, is not
/// in check.
pub proof fn lemma_king_safe(p: Position, m: MoveExt, next: Position)
    requires
        p.wf(),
        p.sound(),
        p.legal(m),
        p.steps_to(m, next),
    ensures
        next.wf(),
        next.sound(),
{
    let us = p.active_color;
    let them = p.them();
    let to = m.to.idx();
    let from = m.from.idx();
    let k = p.king();
    crate::laws::lemma_legal_fits(p, m);
    p.lemma_step_wf(m, next);
    p.lemma_kings_after(m, next, us);
    let k2 = next.board.king_sq(us);
    let occ2 = next.board.occupied();
    lemma_squares_after(p, m, next);
    p.lemma_blockers();
    p.board.lemma_king_where(us, from);
    assert forall|q: int| !#[trigger] crate::threats::attacker(next.board, occ2, them, q, k2) by {
        if crate::threats::attacker(next.board, occ2, them, q, k2) {
            let piece = next.board.piece_at(q).unwrap();
            assert(next.board.piece_at(q) == p.piece_after(m, q));
            assert(p.board.piece_at(q) == Some(piece));
            assert(q != to);
            if piece.kind == PieceKind::Bishop || piece.kind == PieceKind::Rook || piece.kind
                == PieceKind::Queen {
                let family: int = if piece.kind == PieceKind::Bishop {
                    0
                } else if piece.kind == PieceKind::Rook {
                    1
                } else if crate::geometry::family_sees(occ2, 0, q, k2) {
                    0
                } else {
                    1
                };
                assert(crate::geometry::family_sees(occ2, family, q, k2));
                let d: int = if seen(occ2, q, k2, dir_r(family, 0), dir_f(family, 0)) {
                    0
                } else if seen(occ2, q, k2, dir_r(family, 1), dir_f(family, 1)) {
                    1
                } else if seen(occ2, q, k2, dir_r(family, 2), dir_f(family, 2)) {
                    2
                } else {
                    3
                };
                assert(p.slider_at(q, family, d));
                if m.piece_kind == PieceKind::King {
                    lemma_king_off_lines(p, m, next, q, family, d);
                } else if m.capture == Some(Capture::EnPassant) {
                    lemma_passing_off_lines(p, m, next, q, family, d);
                } else {
                    lemma_piece_off_lines(p, m, next, q, family, d);
                }
            } else {
                lemma_melee_off(p, m, next, q);
            }
        }
    }
}

/// After a legal move, no knight, pawn or king attacks the mover's king.
proof fn lemma_melee_off(p: Position, m: MoveExt, next: Position, q: int)
    requires
        p.wf(),
        p.sound(),
        p.legal(m),
        p.fits(m),
        p.steps_to(m, next),
        0 <= q < 64,
        q != m.to.idx(),
        match p.board.piece_at(q) {
            Some(x) => x.color == p.them() && x.kind != PieceKind::Bishop && x.kind
                != PieceKind::Rook && x.kind != PieceKind::Queen && next.board.piece_at(q)
                == Some(x),
            None => false,
        },
    ensures
        !crate::threats::piece_attacks(
            p.board.piece_at(q).unwrap(),
            0,
            q,
            if m.piece_kind == PieceKind::King {
                m.to.idx()
            } else {
                p.king()
            },
        ),
{
    if crate::threats::piece_attacks(
        p.board.piece_at(q).unwrap(),
        0,
        q,
        if m.piece_kind == PieceKind::King {
            m.to.idx()
        } else {
            p.king()
        },
    ) {
    let us = p.active_color;
    let them = p.them();
    let to = m.to.idx();
    let from = m.from.idx();
    let k = p.king();
    let piece = p.board.piece_at(q).unwrap();
    p.lemma_blockers();
    lemma_squares_after(p, m, next);
    p.board.lemma_king_where(us, from);
    p.board.lemma_king_where(us, k);
    if m.piece_kind == PieceKind::King {
        assert(crate::threats::piece_attacks(piece, p.soft_blockers(), q, to));
        assert(crate::threats::attacker(p.board, p.soft_blockers(), them, q, to));
        assert(p.threatened(to));
        p.board.lemma_king_where(us, crate::position::king_home(us));
        assert(p.side_ok(us));
    } else if piece.kind == PieceKind::King {
        p.board.lemma_king_where(them, q);
        assert(crate::threats::piece_attacks(
            Piece { color: us, kind: PieceKind::King },
            p.board.occupied(),
            k,
            q,
        ));
        assert(crate::threats::attacker(p.board, p.board.occupied(), us, k, q));
    } else {
        assert(p.melee_at(q));
        p.lemma_melee_has(q, 64);
        let melee = p.melee();
        let j0 = choose|j: int| 0 <= j < melee.len() && melee[j] == set![q];
        assert(melee.len() == 1 && p.checks().len() == 0);
        assert(p.check_mask() == set![q]);
        assert(set![q].contains(q));
        if m.piece_kind == PieceKind::Pawn && p.ep_takes_checker(to) {
            assert(set![p.ep_victim(to)].contains(p.ep_victim(to)));
            assert(q == p.ep_victim(to));
            p.board.lemma_piece_at(to);
            assert(m.capture == Some(Capture::EnPassant));
            assert(p.piece_after(m, q).is_none());
        } else {
            assert(set![q].contains(to));
        }
    }
    }
}

} // verus!
