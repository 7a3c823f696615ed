//! Move generator implementation.

use vstd::prelude::*;
use crate::bitboard::BitBoard;
use crate::bits::{bit, squares};
use crate::bits::{lemma_and, lemma_clear, lemma_equal, lemma_not, lemma_or, lemma_put, lemma_single, lemma_test, lemma_zero};
use crate::geometry::{dir_f, dir_r, seen};
use crate::legal::{first_with, lemma_first_with};
use crate::lists::{list_slice, masks};
use crate::moves::MoveExt;
use crate::piece::{Color, Piece, PieceKind};
use crate::position::{CastlingRights, Position};
use crate::rays;
use crate::square::Square;
use crate::state::PositionState;
use crate::tables;

verus! {

/// Move generator re-usable data.
#[derive(Debug)]
pub struct Generator<'a> {
    /// The state of the position we are generating moves for.
    pub state: &'a PositionState<'a>,
}

impl<'a> Generator<'a> {
    /// The position that moves are generated for.
    pub open spec fn pos(self) -> Position {
        *self.state.position
    }

    /// A generator for the position of a state.
    #[inline]
    pub fn new(state: &'a PositionState<'a>) -> (r: Generator<'a>)
        ensures
            r.state == state,
    {
        Generator { state }
    }

    /// The squares to which a piece of that kind of the side to move could go from
    /// `square` by the way it moves.
    pub fn pseudo_moves(&self, square: Square, kind: PieceKind) -> (r: BitBoard)
        requires
            square.wf(),
            self.pos().wf(),
        ensures
            forall|to: int| #[trigger] bit(r.0, to) <==> self.pos().reach(kind, square.idx(), to),
    {
        match kind {
            PieceKind::Pawn => self.pseudo_pawn_moves(square),
            PieceKind::Knight => self.pseudo_knight_moves(square),
            PieceKind::Bishop => self.pseudo_bishop_moves(square),
            PieceKind::Rook => self.pseudo_rook_moves(square),
            PieceKind::Queen => {
                let b = self.pseudo_bishop_moves(square);
                let r = self.pseudo_rook_moves(square);
                proof {
                    lemma_or(b.0, r.0);
                }
                BitBoard(b.0 | r.0)
            },
            PieceKind::King => self.pseudo_king_moves(square),
        }
    }

    /// The squares to which a bishop of the side to move could go from `square`.
    #[inline]
    pub fn pseudo_bishop_moves(&self, square: Square) -> (r: BitBoard)
        requires
            square.wf(),
        ensures
            forall|to: int| #[trigger]
                bit(r.0, to) <==> self.pos().reach(PieceKind::Bishop, square.idx(), to),
    {
        self.sliding_moves::<0>(square)
    }

    /// The squares to which a rook of the side to move could go from `square`.
    #[inline]
    pub fn pseudo_rook_moves(&self, square: Square) -> (r: BitBoard)
        requires
            square.wf(),
        ensures
            forall|to: int| #[trigger]
                bit(r.0, to) <==> self.pos().reach(PieceKind::Rook, square.idx(), to),
    {
        self.sliding_moves::<1>(square)
    }

    /// The squares that a slider of a family sees from `square`, without those that hold
    /// a piece of the side to move.
    #[inline]
    fn sliding_moves<const DIR: u8>(&self, square: Square) -> (r: BitBoard)
        requires
            square.wf(),
            DIR < 2,
        ensures
            forall|to: int| #[trigger]
                bit(r.0, to) <==> crate::geometry::family_sees(
                    self.pos().board.occupied(),
                    DIR as int,
                    square.idx(),
                    to,
                ) && !self.pos().friendly(to),
    {
        let friendly = self.state.position.board.get_color_bb(self.state.position.active_color);
        let blockers = self.state.position.board.get_full_bb();
        let attacks = rays::sliding_reach::<DIR>(square, blockers);
        proof {
            lemma_not(friendly.0);
            lemma_and(attacks.0, !friendly.0);
            assert forall|to: int| #[trigger] bit(attacks.0 & !friendly.0, to) <==> bit(
                attacks.0,
                to,
            ) && !bit(friendly.0, to) by {}
        }
        BitBoard(attacks.0 & !friendly.0)
    }

    /// The four rays of a family from `square`, each up to its first blocker.
    pub fn sliding_attacks<const DIR: u8>(square: Square, blockers: BitBoard) -> (r: [BitBoard; 4])
        requires
            square.wf(),
            DIR < 2,
        ensures
            forall|d: int, b: int|
                0 <= d < 4 ==> (#[trigger] r[d]@.contains(b) <==> seen(
                    blockers.0,
                    square.idx(),
                    b,
                    dir_r(DIR as int, d),
                    dir_f(DIR as int, d),
                )),
    {
        rays::sliding_attacks::<DIR>(square, blockers)
    }

    /// The squares that a knight on `square` attacks.
    pub fn knight_attacks(square: Square) -> (r: BitBoard)
        requires
            square.wf(),
        ensures
            forall|b: int| r@.contains(b) <==> crate::geometry::knight_jump(square.idx(), b),
    {
        tables::knight_attacks(square)
    }

    /// The squares to which a knight of the side to move could go from `square`.
    #[inline]
    pub fn pseudo_knight_moves(&self, square: Square) -> (r: BitBoard)
        requires
            square.wf(),
        ensures
            forall|to: int| #[trigger]
                bit(r.0, to) <==> self.pos().reach(PieceKind::Knight, square.idx(), to),
    {
        let friendly = self.state.position.board.get_color_bb(self.state.position.active_color);
        let attacks = tables::knight_attacks(square);
        proof {
            lemma_not(friendly.0);
            lemma_and(attacks.0, !friendly.0);
            assert forall|to: int| #[trigger] bit(attacks.0 & !friendly.0, to) <==> bit(
                attacks.0,
                to,
            ) && !bit(friendly.0, to) by {}
        }
        BitBoard(attacks.0 & !friendly.0)
    }

    /// The squares that a pawn of `color` on `square` attacks.
    pub fn pawn_attacks(square: Square, color: Color) -> (r: BitBoard)
        requires
            square.wf(),
        ensures
            forall|b: int| r@.contains(b) <==> crate::geometry::pawn_attack(color, square.idx(), b),
    {
        tables::pawn_attacks(square, color)
    }

    /// The squares to which a pawn of the side to move could go from `square`.
    pub fn pseudo_pawn_moves(&self, square: Square) -> (r: BitBoard)
        requires
            square.wf(),
            self.pos().wf(),
        ensures
            forall|to: int| #[trigger]
                bit(r.0, to) <==> self.pos().reach(PieceKind::Pawn, square.idx(), to),
    {
        let position = self.state.position;
        let us = position.active_color;
        let mut unfriendly: u64 = position.board.get_color_bb(us.opposite()).0;
        let blockers: u64 = position.board.get_full_bb().0;
        let ghost p = *position;
        let ghost from = square.idx();

        // the en passant target counts as a piece to take
        match position.ep_target {
            Some(ep_target) => {
                proof {
                    lemma_put(unfriendly, ep_target.0 as u64);
                }
                unfriendly = unfriendly | (1u64 << ep_target.0);
            },
            None => {},
        }
        assert(forall|to: int| #[trigger] bit(unfriendly, to) <==> p.hostile(to) || p.ep_is(to));

        let attacks = tables::pawn_attacks(square, us);
        let mut moves: u64 = attacks.0 & unfriendly;
        proof {
            lemma_and(attacks.0, unfriendly);
        }
        let rank = square.rank();
        match us {
            Color::White => {
                if rank < 7 {
                    let next: u64 = 1u64 << (square.0 + 8);
                    proof {
                        lemma_test(blockers, (square.0 + 8) as u64);
                        lemma_put(moves, (square.0 + 8) as u64);
                    }
                    if blockers & next == 0 {
                        // single push
                        moves = moves | next;
                        if rank == 1 {
                            // double push
                            let next_2: u64 = 1u64 << (square.0 + 16);
                            proof {
                                lemma_test(blockers, (square.0 + 16) as u64);
                                lemma_put(moves, (square.0 + 16) as u64);
                            }
                            if blockers & next_2 == 0 {
                                moves = moves | next_2;
                            }
                        }
                    }
                }
            },
            Color::Black => {
                if rank > 0 {
                    let next: u64 = 1u64 << (square.0 - 8);
                    proof {
                        lemma_test(blockers, (square.0 - 8) as u64);
                        lemma_put(moves, (square.0 - 8) as u64);
                    }
                    if blockers & next == 0 {
                        // single push
                        moves = moves | next;
                        if rank == 6 {
                            // double push
                            let next_2: u64 = 1u64 << (square.0 - 16);
                            proof {
                                lemma_test(blockers, (square.0 - 16) as u64);
                                lemma_put(moves, (square.0 - 16) as u64);
                            }
                            if blockers & next_2 == 0 {
                                moves = moves | next_2;
                            }
                        }
                    }
                }
            },
        }
        proof {
            assert forall|to: int| #[trigger] bit(moves, to) <==> p.reach(
                PieceKind::Pawn,
                from,
                to,
            ) by {}
        }
        BitBoard(moves)
    }

    /// The squares that a king on `square` attacks.
    pub fn king_attacks(square: Square) -> (r: BitBoard)
        requires
            square.wf(),
        ensures
            forall|b: int| r@.contains(b) <==> crate::geometry::king_step(square.idx(), b),
    {
        tables::king_attacks(square)
    }

    /// The squares to which a king of the side to move could go from `square`.
    #[inline]
    pub fn pseudo_king_moves(&self, square: Square) -> (r: BitBoard)
        requires
            square.wf(),
        ensures
            forall|to: int| #[trigger]
                bit(r.0, to) <==> self.pos().reach(PieceKind::King, square.idx(), to),
    {
        let friendly = self.state.position.board.get_color_bb(self.state.position.active_color);
        let attacks = tables::king_attacks(square);
        proof {
            lemma_not(friendly.0);
            lemma_and(attacks.0, !friendly.0);
            assert forall|to: int| #[trigger] bit(attacks.0 & !friendly.0, to) <==> bit(
                attacks.0,
                to,
            ) && !bit(friendly.0, to) by {}
        }
        BitBoard(attacks.0 & !friendly.0)
    }

    /// Where a piece other than the king has to go to answer the check, as a mask.
    fn check_mask(&self) -> (r: u64)
        requires
            self.state.wf(),
        ensures
            forall|to: int|
                0 <= to < 64 ==> (#[trigger] bit(r, to) <==> self.pos().check_mask().contains(to)),
    {
        let sliders = list_slice(&self.state.attacks.checkers.sliders);
        let melee = list_slice(&self.state.attacks.checkers.melee);
        proof {
            lemma_zero();
        }
        if sliders.len() > 0 {
            sliders[0]
        } else if melee.len() > 0 {
            melee[0]
        } else {
            u64::MAX
        }
    }

    /// Number of pieces that give check.
    fn count_checkers(&self) -> (r: usize)
        requires
            self.state.wf(),
        ensures
            r == self.pos().checkers(),
    {
        let sliders = list_slice(&self.state.attacks.checkers.sliders);
        let melee = list_slice(&self.state.attacks.checkers.melee);
        proof {
            self.pos().lemma_upto_len(64, 1);
        }
        melee.len() + sliders.len()
    }

    /// Where the piece on `square` may go as far as pins go, as a mask.
    fn pin_mask(&self, square: Square) -> (r: u64)
        requires
            self.state.wf(),
            square.wf(),
        ensures
            forall|to: int|
                0 <= to < 64 ==> (#[trigger] bit(r, to) <==> self.pos().pin_mask(
                    square.idx(),
                ).contains(to)),
    {
        let pins = list_slice(&self.state.attacks.pinners);
        let ghost lines = self.pos().pins();
        let ghost s = square.idx();
        let mut j: usize = 0;
        while j < pins.len()
            invariant
                j <= pins.len(),
                square.wf(),
                s == square.idx(),
                lines == self.pos().pins(),
                crate::threats::same_sets(pins@, lines),
                forall|e: int| 0 <= e < j ==> !(#[trigger] lines[e]).contains(s),
            decreases pins.len() - j,
        {
            proof {
                lemma_test(pins[j as int], square.0 as u64);
                assert(squares(pins@[j as int]) == lines[j as int]);
            }
            if pins[j] & (1u64 << square.0) != 0 {
                proof {
                    lemma_first_with(lines, s, j as int);
                    assert(first_with(lines, s, j as int) == lines[j as int]);
                    assert forall|to: int| 0 <= to < 64 implies (#[trigger] bit(
                        pins@[j as int],
                        to,
                    ) <==> lines[j as int].contains(to)) by {
                        assert(squares(pins@[j as int]).contains(to) == bit(pins@[j as int], to));
                    }
                }
                return pins[j];
            }
            j = j + 1;
        }
        proof {
            lemma_first_with(lines, s, j as int);
            lemma_zero();
        }
        u64::MAX
    }

    /// Whether the pawn that a capture en passant takes is the one piece that gives check.
    fn ep_takes_checker(&self, target: Square) -> (r: bool)
        requires
            self.state.wf(),
            self.pos().ep_target == Some(target),
        ensures
            r == self.pos().ep_takes_checker(target.idx()),
    {
        let sliders = list_slice(&self.state.attacks.checkers.sliders);
        let melee = list_slice(&self.state.attacks.checkers.melee);
        if sliders.len() != 0 || melee.len() != 1 {
            return false;
        }
        let victim: u8 = match self.state.position.active_color {
            Color::White => target.0 - 8,
            Color::Black => target.0 + 8,
        };
        proof {
            lemma_single(victim as u64);
            assert(squares(melee@[0]) == self.pos().melee()[0]);
            if melee@[0] == 1u64 << victim {
                assert(squares(1u64 << victim) =~= set![victim as int]);
            }
            if squares(melee@[0]) == set![victim as int] {
                assert forall|i: int| 0 <= i < 64 implies bit(melee@[0], i) == bit(
                    1u64 << victim,
                    i,
                ) by {
                    assert(squares(melee@[0]).contains(i) == bit(melee@[0], i));
                }
                lemma_equal(melee@[0], 1u64 << victim);
            }
        }
        melee[0] == 1u64 << victim
    }

    /// Whether a capture en passant from `from` leaves the king out of the sight of the
    /// other side's sliders.
    fn ep_safe(&self, from: Square, target: Square) -> (r: bool)
        requires
            self.state.wf(),
            from.wf(),
            self.pos().ep_target == Some(target),
        ensures
            r == self.pos().ep_safe(from.idx(), target.idx()),
    {
        let board = &self.state.position.board;
        let them = self.state.position.active_color.opposite();
        let ghost p = self.pos();
        let victim: u8 = match self.state.position.active_color {
            Color::White => target.0 - 8,
            Color::Black => target.0 + 8,
        };
        let after = BitBoard(
            (board.get_full_bb().0 & !(1u64 << from.0) & !(1u64 << victim)) | (1u64 << target.0),
        );
        proof {
            p.board.lemma_king(p.active_color);
        }
        let king_sq = self.state.board_ext.king_bb.to_square_unchecked();
        let straight = rays::sliding_reach::<1>(king_sq, after);
        let diagonal = rays::sliding_reach::<0>(king_sq, after);
        let theirs: u64 = board.get_color_bb(them).0;
        let rq: u64 = (board.rooks.0 | board.queens.0) & theirs;
        let bq: u64 = (board.bishops.0 | board.queens.0) & theirs;
        proof {
            lemma_or(board.rooks.0, board.queens.0);
            lemma_or(board.bishops.0, board.queens.0);
            lemma_and(board.rooks.0 | board.queens.0, theirs);
            lemma_and(board.bishops.0 | board.queens.0, theirs);
            lemma_and(straight.0, rq);
            lemma_and(diagonal.0, bq);
            crate::bits::lemma_nonzero(straight.0 & rq);
            crate::bits::lemma_nonzero(diagonal.0 & bq);
            assert forall|q: int| 0 <= q < 64 implies (bit(rq, q) <==> p.has(
                q,
                p.them(),
                PieceKind::Rook,
            ) || p.has(q, p.them(), PieceKind::Queen)) && (bit(bq, q) <==> p.has(
                q,
                p.them(),
                PieceKind::Bishop,
            ) || p.has(q, p.them(), PieceKind::Queen)) by {
                p.board.lemma_has(q, p.them(), PieceKind::Rook);
                p.board.lemma_has(q, p.them(), PieceKind::Queen);
                p.board.lemma_has(q, p.them(), PieceKind::Bishop);
            }
            if straight.0 & rq != 0 {
                let w = choose|w: int| bit(straight.0 & rq, w);
                assert(p.board.piece_at(w).is_some());
            }
            if diagonal.0 & bq != 0 {
                let w = choose|w: int| bit(diagonal.0 & bq, w);
                assert(p.board.piece_at(w).is_some());
            }
            if straight.0 & rq == 0 && diagonal.0 & bq == 0 {
                assert forall|q: int| #![trigger p.board.piece_at(q)] 0 <= q < 64 implies {
                    &&& crate::geometry::family_sees(after.0, 1, p.king(), q) ==> !(p.has(
                        q,
                        p.them(),
                        PieceKind::Rook,
                    ) || p.has(q, p.them(), PieceKind::Queen))
                    &&& crate::geometry::family_sees(after.0, 0, p.king(), q) ==> !(p.has(
                        q,
                        p.them(),
                        PieceKind::Bishop,
                    ) || p.has(q, p.them(), PieceKind::Queen))
                } by {
                    assert(!bit(straight.0 & rq, q));
                    assert(!bit(diagonal.0 & bq, q));
                }
            }
        }
        (straight.0 & rq == 0) && (diagonal.0 & bq == 0)
    }

    /// The squares to which the piece of that kind on `square`, not a king, may go.
    fn destinations(&self, square: Square, kind: PieceKind, restricted: u64) -> (r: BitBoard)
        requires
            self.state.wf(),
            square.wf(),
            kind != PieceKind::King,
            self.pos().checkers() < 2,
            forall|to: int|
                0 <= to < 64 ==> (#[trigger] bit(restricted, to) <==> self.pos().check_mask().contains(
                    to,
                )),
        ensures
            forall|to: int| #[trigger]
                bit(r.0, to) <==> self.pos().may_go(kind, square.idx(), to),
    {
        let ghost p = self.pos();
        let ghost from = square.idx();
        let position = self.state.position;
        let pseudo: u64 = self.pseudo_moves(square, kind).0;
        let pin: u64 = self.pin_mask(square);
        let their_king: u64 = position.board.get_piece_bb(
            Piece { color: position.active_color.opposite(), kind: PieceKind::King },
        ).0;
        let mut allowed: u64 = restricted;
        let mut target: Option<Square> = None;
        if kind == PieceKind::Pawn {
            match position.ep_target {
                Some(t) => {
                    proof {
                        lemma_put(allowed, t.0 as u64);
                    }
                    if self.ep_takes_checker(t) {
                        // the pawn that gives check can be taken en passant
                        allowed = allowed | (1u64 << t.0);
                    }
                    target = Some(t);
                },
                None => {},
            }
        }
        let mut dests: u64 = pseudo & pin & allowed & !their_king;
        proof {
            lemma_and(pseudo, pin);
            lemma_and(pseudo & pin, allowed);
            lemma_not(their_king);
            lemma_and(pseudo & pin & allowed, !their_king);
            lemma_and(p.board.kings.0, p.board.color_bits(p.them()));
            assert forall|to: int| 0 <= to < 64 implies (bit(their_king, to) <==> p.has(
                to,
                p.them(),
                PieceKind::King,
            )) by {
                p.board.lemma_has(to, p.them(), PieceKind::King);
            }
            assert forall|to: int| #[trigger] bit(dests, to) <==> {
                &&& 0 <= to < 64
                &&& p.reach(kind, from, to)
                &&& p.pin_mask(from).contains(to)
                &&& p.check_mask().contains(to) || (kind == PieceKind::Pawn && p.ep_takes_checker(
                    to,
                ))
                &&& !p.has(to, p.them(), PieceKind::King)
            } by {
                if 0 <= to < 64 {
                    assert(bit(pseudo, to) <==> p.reach(kind, from, to));
                    assert(bit(pin, to) <==> p.pin_mask(from).contains(to));
                    assert(bit(restricted, to) <==> p.check_mask().contains(to));
                }
            }
        }
        match target {
            Some(t) => {
                proof {
                    lemma_test(dests, t.0 as u64);
                    lemma_clear(dests, t.0 as u64);
                }
                if dests & (1u64 << t.0) != 0 {
                    if !self.ep_safe(square, t) {
                        dests = dests & !(1u64 << t.0);
                    }
                }
            },
            None => {},
        }
        BitBoard(dests)
    }

    /// `m` is a move of the piece of that kind on `from` to one of `dests`, with what it
    /// takes and how it promotes.
    pub open spec fn emitted(
        self,
        from: Square,
        kind: PieceKind,
        dests: BitBoard,
        m: MoveExt,
    ) -> bool {
        &&& m.from == from
        &&& m.piece_kind == kind
        &&& m.to.wf()
        &&& bit(dests.0, m.to.idx())
        &&& m.capture == self.pos().capture_of(kind, m.to.idx())
        &&& self.pos().promotion_ok(kind, from.idx(), m.promotion)
    }

    /// Adds the moves of the piece of that kind on `from` to each of `dests`: one move for
    /// each square, or four where a pawn promotes.
    fn emit(&self, moves: &mut Vec<MoveExt>, from: Square, kind: PieceKind, dests: BitBoard)
        requires
            self.state.wf(),
            from.wf(),
            old(moves)@.no_duplicates(),
            forall|m: MoveExt| #[trigger]
                old(moves)@.contains(m) ==> !(m.from == from && bit(dests.0, m.to.idx())),
        ensures
            final(moves)@.no_duplicates(),
            forall|m: MoveExt| #[trigger]
                final(moves)@.contains(m) <==> old(moves)@.contains(m) || self.emitted(
                    from,
                    kind,
                    dests,
                    m,
                ),
    {
        let ghost p = self.pos();
        let ghost start = moves@;
        let promote = kind == PieceKind::Pawn && from.rank() == match self.state.position.active_color {
            Color::White => 6u8,
            Color::Black => 1u8,
        };
        let mut iter = dests.set_iter();
        let ghost mut n: int = 0;
        proof {
            lemma_zero();
        }
        let mut next = iter.next();
        while next.is_some()
            invariant
                self.state.wf(),
                p == self.pos(),
                from.wf(),
                promote == p.promotes(kind, from.idx()),
                0 <= n <= 64,
                start.no_duplicates(),
                forall|m: MoveExt| #[trigger]
                    start.contains(m) ==> !(m.from == from && bit(dests.0, m.to.idx())),
                moves@.no_duplicates(),
                forall|m: MoveExt| #[trigger]
                    moves@.contains(m) <==> start.contains(m) || (self.emitted(from, kind, dests, m)
                        && m.to.idx() < n),
                match next {
                    Some(sq) => {
                        &&& sq.wf()
                        &&& n <= sq.idx()
                        &&& bit(dests.0, sq.idx())
                        &&& forall|i: int| n <= i < sq.idx() ==> !bit(dests.0, i)
                        &&& forall|i: int|
                            #![trigger bit(iter.inner.0, i)]
                            #![trigger bit(dests.0, i)]
                            bit(iter.inner.0, i) <==> bit(dests.0, i) && i > sq.idx()
                    },
                    None => forall|i: int| n <= i < 64 ==> !bit(dests.0, i),
                },
            decreases 64 - n,
        {
            let to = next.unwrap();
            let capture = if kind == PieceKind::Pawn {
                self.state.resolve_capture(to)
            } else {
                self.state.resolve_capture_only(to)
            };
            let ghost before = moves@;
            if promote {
                let m1 = MoveExt {
                    piece_kind: kind,
                    from,
                    to,
                    promotion: Some(PieceKind::Knight),
                    capture,
                };
                let m2 = MoveExt {
                    piece_kind: kind,
                    from,
                    to,
                    promotion: Some(PieceKind::Bishop),
                    capture,
                };
                let m3 = MoveExt {
                    piece_kind: kind,
                    from,
                    to,
                    promotion: Some(PieceKind::Rook),
                    capture,
                };
                let m4 = MoveExt {
                    piece_kind: kind,
                    from,
                    to,
                    promotion: Some(PieceKind::Queen),
                    capture,
                };
                proof {
                    assert(!before.contains(m1) && !before.contains(m2) && !before.contains(m3)
                        && !before.contains(m4)) by {
                        assert(!start.contains(m1) && !start.contains(m2) && !start.contains(m3)
                            && !start.contains(m4));
                    }
                    lemma_push_fresh(before, m1);
                    lemma_push_fresh(before.push(m1), m2);
                    lemma_push_fresh(before.push(m1).push(m2), m3);
                    lemma_push_fresh(before.push(m1).push(m2).push(m3), m4);
                }
                moves.push(m1);
                moves.push(m2);
                moves.push(m3);
                moves.push(m4);
                proof {
                    assert forall|m: MoveExt| #[trigger]
                        moves@.contains(m) <==> start.contains(m) || (self.emitted(
                            from,
                            kind,
                            dests,
                            m,
                        ) && m.to.idx() < to.idx() + 1) by {
                        assert(moves@.contains(m) <==> before.contains(m) || m == m1 || m == m2
                            || m == m3 || m == m4);
                        assert(self.emitted(from, kind, dests, m1));
                        assert(self.emitted(from, kind, dests, m2));
                        assert(self.emitted(from, kind, dests, m3));
                        assert(self.emitted(from, kind, dests, m4));
                        if self.emitted(from, kind, dests, m) && m.to.idx() == to.idx() {
                            assert(m.to == to);
                            assert(m == m1 || m == m2 || m == m3 || m == m4);
                        }
                    }
                }
            } else {
                let m1 = MoveExt { piece_kind: kind, from, to, promotion: None, capture };
                proof {
                    assert(!before.contains(m1)) by {
                        assert(!start.contains(m1));
                    }
                    lemma_push_fresh(before, m1);
                }
                moves.push(m1);
                proof {
                    assert forall|m: MoveExt| #[trigger]
                        moves@.contains(m) <==> start.contains(m) || (self.emitted(
                            from,
                            kind,
                            dests,
                            m,
                        ) && m.to.idx() < to.idx() + 1) by {
                        assert(moves@.contains(m) <==> before.contains(m) || m == m1);
                        assert(self.emitted(from, kind, dests, m1));
                        if self.emitted(from, kind, dests, m) && m.to.idx() == to.idx() {
                            assert(m.to == to);
                            assert(m == m1);
                        }
                    }
                }
            }
            proof {
                n = to.idx() + 1;
                lemma_zero();
            }
            next = iter.next();
        }
    }

    /// The castling moves of the side to move.
    fn castling_moves(&self, moves: &mut Vec<MoveExt>)
        requires
            self.state.wf(),
            old(moves)@.no_duplicates(),
            forall|m: MoveExt| #[trigger]
                old(moves)@.contains(m) ==> !(self.castles(true, m) || self.castles(false, m)),
        ensures
            final(moves)@.no_duplicates(),
            forall|m: MoveExt| #[trigger]
                final(moves)@.contains(m) <==> old(moves)@.contains(m) || self.castles(true, m)
                    || self.castles(false, m),
    {
        let ghost p = self.pos();
        let position = self.state.position;
        let us = position.active_color;
        let blockers: u64 = position.board.get_full_bb().0;
        let attacks: u64 = self.state.attacks.bb.0;
        let (has_oo, has_ooo): (bool, bool) = match us {
            Color::White => (
                position.castling.contains(CastlingRights::WHITE_OO),
                position.castling.contains(CastlingRights::WHITE_OOO),
            ),
            Color::Black => (
                position.castling.contains(CastlingRights::BLACK_OO),
                position.castling.contains(CastlingRights::BLACK_OOO),
            ),
        };
        let ghost shift: u64 = match us {
            Color::White => 0,
            Color::Black => 56,
        };
        proof {
            p.board.lemma_king(us);
            lemma_castle_masks(shift, blockers);
            lemma_castle_masks(shift, attacks);
            assert(p.side_ok(us));
            p.board.lemma_king_where(us, crate::position::king_home(us));
            assert forall|i: int| 0 <= i < 64 implies (bit(attacks, i) <==> p.threatened(i)) by {}
        }
        let from = self.state.board_ext.king_bb.to_square_unchecked();
        let oo = CastlingChecks::of(us, true);
        if has_oo && oo.clear.0 & blockers == 0 && oo.safe.0 & attacks == 0 {
            let m = MoveExt {
                piece_kind: PieceKind::King,
                from,
                to: oo.to_sq,
                promotion: None,
                capture: None,
            };
            proof {
                p.board.lemma_piece_at(6 + shift);
                assert(p.may_castle(true));
                assert(self.castles(true, m));
                assert(!old(moves)@.contains(m));
                lemma_push_fresh(moves@, m);
            }
            moves.push(m);
        }
        let ooo = CastlingChecks::of(us, false);
        if has_ooo && ooo.clear.0 & blockers == 0 && ooo.safe.0 & attacks == 0 {
            let m = MoveExt {
                piece_kind: PieceKind::King,
                from,
                to: ooo.to_sq,
                promotion: None,
                capture: None,
            };
            proof {
                p.board.lemma_piece_at(2 + shift);
                assert(p.may_castle(false));
                assert(self.castles(false, m));
                assert(!old(moves)@.contains(m));
                lemma_push_fresh(moves@, m);
            }
            moves.push(m);
        }
    }

    /// `m` is the castling move to that side, and the side to move may castle there.
    pub open spec fn castles(self, kingside: bool, m: MoveExt) -> bool {
        &&& self.pos().may_castle(kingside)
        &&& m == (MoveExt {
            piece_kind: PieceKind::King,
            from: Square(self.pos().king() as u8),
            to: Square(crate::legal::castle_to(self.pos().active_color, kingside) as u8),
            promotion: None,
            capture: None,
        })
    }

    /// `m` is a legal move that the generator has listed when it has gone through the
    /// king's steps and through the pieces on squares below `n`, and through castling if
    /// `castles` is set.
    pub open spec fn listed(self, m: MoveExt, n: int, castles: bool) -> bool {
        &&& self.pos().legal(m)
        &&& if m.piece_kind == PieceKind::King {
            castles || self.pos().king_may_go(m.to.idx())
        } else {
            m.from.idx() < n
        }
    }

    /// All legal moves of the position, each once.
    fn generate_impl(&self) -> (moves: Vec<MoveExt>)
        requires
            self.state.wf(),
        ensures
            moves@.no_duplicates(),
            forall|m: MoveExt| moves@.contains(m) <==> self.pos().legal(m),
    {
        let ghost p = self.pos();
        let state = self.state;
        let position = state.position;
        let us = position.active_color;
        let mut moves: Vec<MoveExt> = Vec::with_capacity(256);
        proof {
            p.board.lemma_king(us);
        }

        // initial king move generation
        let king_sq = state.board_ext.king_bb.to_square_unchecked();
        let their_king: u64 = position.board.get_piece_bb(
            Piece { color: us.opposite(), kind: PieceKind::King },
        ).0;
        let king_steps: u64 = self.pseudo_king_moves(king_sq).0;
        let king_moves = BitBoard(king_steps & !state.attacks.bb.0 & !their_king);
        proof {
            lemma_not(state.attacks.bb.0);
            lemma_not(their_king);
            lemma_and(king_steps, !state.attacks.bb.0);
            lemma_and(king_steps & !state.attacks.bb.0, !their_king);
            lemma_and(p.board.kings.0, p.board.color_bits(p.them()));
            assert forall|to: int| #[trigger] bit(king_moves.0, to) <==> p.king_may_go(to) by {
                if 0 <= to < 64 {
                    p.board.lemma_has(to, p.them(), PieceKind::King);
                    assert(bit(king_steps, to) <==> p.reach(PieceKind::King, king_sq.idx(), to));
                    assert(bit(state.attacks.bb.0, to) <==> p.threatened(to));
                }
            }
        }
        self.emit(&mut moves, king_sq, PieceKind::King, king_moves);
        proof {
            assert forall|m: MoveExt| #[trigger] moves@.contains(m) <==> self.listed(
                m,
                0,
                false,
            ) by {
                if m.from.wf() {
                    p.board.lemma_king_where(us, m.from.idx());
                }
            }
        }

        // in double check only the king moves
        if self.count_checkers() < 2 {
            let restricted = self.check_mask();
            let friendly = position.board.get_color_bb(us);
            let mut iter = friendly.set_iter();
            let ghost mut n: int = 0;
            proof {
                lemma_zero();
            }
            let mut next = iter.next();
            while next.is_some()
                invariant
                    self.state.wf(),
                    state == self.state,
                    position == state.position,
                    p == self.pos(),
                    us == p.active_color,
                    p.checkers() < 2,
                    friendly.0 == p.board.color_bits(us),
                    forall|to: int|
                        0 <= to < 64 ==> (#[trigger] bit(restricted, to)
                            <==> p.check_mask().contains(to)),
                    0 <= n <= 64,
                    moves@.no_duplicates(),
                    forall|m: MoveExt| #[trigger] moves@.contains(m) <==> self.listed(m, n, false),
                    match next {
                        Some(sq) => {
                            &&& sq.wf()
                            &&& n <= sq.idx()
                            &&& bit(friendly.0, sq.idx())
                            &&& forall|i: int| n <= i < sq.idx() ==> !bit(friendly.0, i)
                            &&& forall|i: int|
                                #![trigger bit(iter.inner.0, i)]
                                #![trigger bit(friendly.0, i)]
                                bit(iter.inner.0, i) <==> bit(friendly.0, i) && i > sq.idx()
                        },
                        None => forall|i: int| n <= i < 64 ==> !bit(friendly.0, i),
                    },
                decreases 64 - n,
            {
                let square = next.unwrap();
                proof {
                    p.board.lemma_piece_at(square.idx());
                }
                let kind = state.board_ext.get(square).unwrap().kind;
                let ghost before = moves@;
                if kind != PieceKind::King {
                    let dests = self.destinations(square, kind, restricted);
                    self.emit(&mut moves, square, kind, dests);
                }
                proof {
                    assert forall|m: MoveExt| #[trigger]
                        moves@.contains(m) <==> self.listed(m, square.idx() + 1, false) by {
                        assert(before.contains(m) <==> self.listed(m, n, false));
                        if p.legal(m) {
                            p.board.lemma_piece_at(m.from.idx());
                        }
                    }
                    n = square.idx() + 1;
                    lemma_zero();
                }
                next = iter.next();
            }
            proof {
                assert forall|m: MoveExt| #[trigger]
                    moves@.contains(m) <==> self.listed(m, 64, false) by {
                    if p.legal(m) {
                        p.board.lemma_piece_at(m.from.idx());
                    }
                }
            }
        }
        proof {
            assert forall|m: MoveExt| #[trigger] moves@.contains(m) <==> self.listed(
                m,
                64,
                false,
            ) by {}
            assert(p.side_ok(us));
            assert forall|m: MoveExt| #[trigger] moves@.contains(m) implies !(self.castles(true, m)
                || self.castles(false, m)) by {
                assert(self.listed(m, 64, false));
                if self.castles(true, m) || self.castles(false, m) {
                    p.board.lemma_king_where(us, crate::position::king_home(us));
                    assert(p.king() == crate::position::king_home(us));
                    assert(!crate::geometry::king_step(p.king(), m.to.idx()));
                }
            }
        }

        // castling moves
        self.castling_moves(&mut moves);
        proof {
            assert forall|m: MoveExt| moves@.contains(m) <==> p.legal(m) by {
                if m.from.wf() && m.to.wf() {
                    p.board.lemma_king_where(us, m.from.idx());
                    p.board.lemma_king_where(us, crate::position::king_home(us));
                    p.board.lemma_piece_at(m.to.idx());
                }
            }
        }
        moves
    }

    /// The legal moves of the position, or the verdict where there is none.
    pub fn generate(&self) -> (r: MoveList)
        requires
            self.state.wf(),
        ensures
            r.describes(self.pos()),
    {
        let move_list = self.generate_impl();
        let ghost p = self.pos();
        if move_list.len() == 0 {
            proof {
                p.board.lemma_king(p.active_color);
                p.lemma_in_check();
                lemma_test(self.state.attacks.bb.0, p.king() as u64);
                assert forall|m: MoveExt| !p.legal(m) by {
                    assert(!move_list@.contains(m));
                }
            }
            if self.state.attacks.bb.0 & self.state.board_ext.king_bb.0 != 0 {
                return MoveList::Checkmate;
            }
            return MoveList::Stalemate;
        }
        MoveList::Moves(move_list)
    }
}

/// What has to hold, beside the right, for one way of castling.
#[derive(Debug, Clone, Copy, PartialEq, Eq, Structural)]
pub struct CastlingChecks {
    /// The squares between king and rook, which must not be occupied.
    pub clear: BitBoard,
    /// The king's square and the two it crosses, which must not be under attack.
    pub safe: BitBoard,
    /// The square on which the king lands.
    pub to_sq: Square,
}

impl CastlingChecks {
    /// Nothing to hold, and the king on a1.
    #[inline]
    pub fn zero() -> (r: CastlingChecks)
        ensures
            r == (CastlingChecks { clear: BitBoard(0), safe: BitBoard(0), to_sq: Square(0) }),
    {
        CastlingChecks { clear: BitBoard(0), safe: BitBoard(0), to_sq: Square(0) }
    }

    /// The first index of the rank on which a color castles.
    pub open spec fn rank_start(color: Color) -> u64 {
        match color {
            Color::White => 0,
            Color::Black => 56,
        }
    }

    /// The checks for a color and a side: on the kingside the f- and g-file must be
    /// free, the e-, f- and g-file safe, and the king lands on the g-file; on the
    /// queenside the b-, c- and d-file must be free, the c-, d- and e-file safe, and
    /// the king lands on the c-file.
    pub fn of(color: Color, kingside: bool) -> (r: CastlingChecks)
        ensures
            r.clear.0 == (if kingside {
                0x60u64
            } else {
                0x0eu64
            }) << Self::rank_start(color),
            r.safe.0 == (if kingside {
                0x70u64
            } else {
                0x1cu64
            }) << Self::rank_start(color),
            r.to_sq.idx() == crate::legal::castle_to(color, kingside),
            r.to_sq.wf(),
    {
        let mut checks = CastlingChecks::zero();
        let start: u8 = match color {
            Color::White => 0,
            Color::Black => 56,
        };
        if kingside {
            checks.clear = BitBoard(0x60u64 << start);
            checks.safe = BitBoard(0x70u64 << start);
            checks.to_sq = Square(start + 6);
        } else {
            checks.clear = BitBoard(0x0eu64 << start);
            checks.safe = BitBoard(0x1cu64 << start);
            checks.to_sq = Square(start + 2);
        }
        checks
    }
}

/// The legal moves of a position, or why there is none.
#[derive(Debug, Clone)]
pub enum MoveList {
    /// The legal moves, each once.
    Moves(Vec<MoveExt>),
    /// No legal move, and the king is in check.
    Checkmate,
    /// No legal move, and the king is not in check.
    Stalemate,
}

impl MoveList {
    /// This is the answer for position `p`: its legal moves, each once, where it has any,
    /// and else checkmate where its king is in check, stalemate where not.
    pub open spec fn describes(self, p: Position) -> bool {
        match self {
            MoveList::Moves(l) => {
                &&& l@.len() > 0
                &&& l@.no_duplicates()
                &&& forall|m: MoveExt| l@.contains(m) <==> p.legal(m)
            },
            MoveList::Checkmate => p.in_check() && forall|m: MoveExt| !p.legal(m),
            MoveList::Stalemate => !p.in_check() && forall|m: MoveExt| !p.legal(m),
        }
    }

    /// Generate the full [`MoveList`] without going through an intermediate generator.
    #[inline]
    pub fn generate(position: &PositionState) -> (r: MoveList)
        requires
            position.wf(),
        ensures
            r.describes(*position.position),
    {
        let generator = Generator::new(position);
        generator.generate()
    }
}

/// A new element at the end of a list without repetition leaves it without repetition,
/// and the list then holds what it held and the new element.
pub proof fn lemma_push_fresh<A>(s: Seq<A>, x: A)
    requires
        s.no_duplicates(),
        !s.contains(x),
    ensures
        s.push(x).no_duplicates(),
        forall|y: A| s.push(x).contains(y) <==> s.contains(y) || y == x,
{
    assert forall|y: A| s.push(x).contains(y) <==> s.contains(y) || y == x by {
        if s.contains(y) {
            let i = choose|i: int| 0 <= i < s.len() && s[i] == y;
            assert(s.push(x)[i] == y);
        }
        if y == x {
            assert(s.push(x)[s.len() as int] == x);
        }
        if s.push(x).contains(y) {
            let i = choose|i: int| 0 <= i < s.push(x).len() && s.push(x)[i] == y;
            if i < s.len() {
                assert(s[i] == y);
            }
        }
    }
    assert forall|i: int, j: int|
        0 <= i < s.push(x).len() && 0 <= j < s.push(x).len() && i != j implies s.push(x)[i]
        != s.push(x)[j] by {
        if i < s.len() && j < s.len() {
        } else if i < s.len() {
            assert(s.contains(s[i]));
        } else {
            assert(s.contains(s[j]));
        }
    }
}

/// The squares of the castling masks: on the first rank for white (`shift` 0), on the
/// eighth for black (`shift` 56). A mask meets another exactly where they share a square.
pub proof fn lemma_castle_masks(shift: u64, other: u64)
    requires
        shift == 0 || shift == 56,
    ensures
        (0x60u64 << shift) & other == 0 <==> !bit(other, 5 + shift) && !bit(other, 6 + shift),
        (0x70u64 << shift) & other == 0 <==> !bit(other, 4 + shift) && !bit(other, 5 + shift)
            && !bit(other, 6 + shift),
        (0x0eu64 << shift) & other == 0 <==> !bit(other, 1 + shift) && !bit(other, 2 + shift)
            && !bit(other, 3 + shift),
        (0x1cu64 << shift) & other == 0 <==> !bit(other, 2 + shift) && !bit(other, 3 + shift)
            && !bit(other, 4 + shift),
{
    let a = 1 + shift;
    let b = 2 + shift;
    let c = 3 + shift;
    let d = 4 + shift;
    let e = 5 + shift;
    let f = 6 + shift;
    assert((shift == 0 || shift == 56) ==> {
        &&& ((0x60u64 << shift) & other == 0 <==> !((other >> ((5 + shift) as u64)) & 1 == 1)
            && !((other >> ((6 + shift) as u64)) & 1 == 1))
        &&& ((0x70u64 << shift) & other == 0 <==> !((other >> ((4 + shift) as u64)) & 1 == 1)
            && !((other >> ((5 + shift) as u64)) & 1 == 1) && !((other >> ((6 + shift) as u64))
            & 1 == 1))
        &&& ((0x0eu64 << shift) & other == 0 <==> !((other >> ((1 + shift) as u64)) & 1 == 1)
            && !((other >> ((2 + shift) as u64)) & 1 == 1) && !((other >> ((3 + shift) as u64))
            & 1 == 1))
        &&& ((0x1cu64 << shift) & other == 0 <==> !((other >> ((2 + shift) as u64)) & 1 == 1)
            && !((other >> ((3 + shift) as u64)) & 1 == 1) && !((other >> ((4 + shift) as u64))
            & 1 == 1))
    }) by (bit_vector);
}

} // verus!
