//! Extended board state: what is worked out once per position before moves are generated.

use vstd::prelude::*;
use crate::bitboard::BitBoard;
use crate::bits::{bit, popcount, squares};
use crate::bits::{lemma_and, lemma_or, lemma_single, lemma_test};
use crate::geometry::{dir_f, dir_r, family_sees, seen};
use crate::lists::{list_new, list_push, list_slice, masks, MaskList};
use crate::moves::Capture;
use crate::piece::{Piece, PieceKind};
use crate::position::Position;
use crate::rays::{sliding_attacks, sliding_reach};
use crate::square::Square;
use crate::tables::{king_attacks, knight_attacks, pawn_attacks};
use crate::threats::{attacked_below, attacker, piece_attacks, same_sets};

verus! {

/// The pieces by square, and the king of the side to move.
#[derive(Debug, Clone)]
pub struct BoardExt {
    pub pieces: [Option<Piece>; 64],
    pub king_bb: BitBoard,
}

impl BoardExt {
    /// The piece noted for a square.
    #[inline]
    pub fn get(&self, square: Square) -> (r: Option<Piece>)
        requires
            square.wf(),
        ensures
            r == self.pieces[square.idx()],
    {
        self.pieces[square.0 as usize]
    }
}

impl Default for BoardExt {
    /// No piece noted, no king.
    #[inline]
    fn default() -> (r: BoardExt)
        ensures
            r.king_bb == BitBoard(0),
            forall|i: int| 0 <= i < 64 ==> r.pieces[i].is_none(),
    {
        BoardExt { pieces: [None;64], king_bb: BitBoard(0) }
    }
}

/// Pseudo evaluation after an initial run through of the position.
#[derive(Debug, Clone, Copy, PartialEq, Eq, Structural)]
pub struct PseudoScore {
    pub pieces: i16,
    pub position: i16,
    pub attacked: i16,
    pub attack: i16,
}

impl PseudoScore {
    /// The score that is zero in every part.
    pub open spec fn default_spec() -> PseudoScore {
        PseudoScore { pieces: 0, position: 0, attacked: 0, attack: 0 }
    }
}

impl Default for PseudoScore {
    /// All zero.
    fn default() -> (r: PseudoScore)
        ensures
            r == PseudoScore::default_spec(),
    {
        PseudoScore { pieces: 0, position: 0, attacked: 0, attack: 0 }
    }
}

/// The pieces that give check.
#[derive(Debug)]
pub struct Checkers {
    /// Nearby attackers, each as the mask of its square.
    ///
    /// Have to be captured or evaded by king.
    pub melee: MaskList,
    /// Faraway attacker rays, each from the attacker to the king.
    ///
    /// Have to be captured, evaded or blocked.
    pub sliders: MaskList,
}

impl Checkers {
    /// The squares of the nearby attackers, in the order in which they were found.
    pub fn melee_squares(&self) -> (r: Vec<Square>)
        ensures
            r@.len() == masks(self.melee).len(),
            forall|j: int|
                0 <= j < r@.len() ==> (#[trigger] r@[j]).idx() == crate::bits::lowest(
                    masks(self.melee)[j],
                ),
    {
        let list = list_slice(&self.melee);
        let mut out: Vec<Square> = Vec::new();
        let mut j: usize = 0;
        while j < list.len()
            invariant
                j <= list.len(),
                list@ == masks(self.melee),
                out@.len() == j,
                forall|e: int|
                    0 <= e < j ==> (#[trigger] out@[e]).idx() == crate::bits::lowest(list@[e]),
            decreases list.len() - j,
        {
            proof {
                crate::bits::lemma_lowest(list@[j as int]);
            }
            out.push(Square(list[j].trailing_zeros() as u8));
            j = j + 1;
        }
        out
    }

    /// The rays of the faraway attackers, in the order in which they were found.
    pub fn slider_rays(&self) -> (r: Vec<BitBoard>)
        ensures
            r@.len() == masks(self.sliders).len(),
            forall|j: int| 0 <= j < r@.len() ==> (#[trigger] r@[j]).0 == masks(self.sliders)[j],
    {
        boards_of(&self.sliders)
    }
}

impl Attacks {
    /// The rays of the pinning sliders, in the order in which they were found.
    pub fn pinner_rays(&self) -> (r: Vec<BitBoard>)
        ensures
            r@.len() == masks(self.pinners).len(),
            forall|j: int| 0 <= j < r@.len() ==> (#[trigger] r@[j]).0 == masks(self.pinners)[j],
    {
        boards_of(&self.pinners)
    }
}

/// The masks of a list as boards.
fn boards_of(list: &MaskList) -> (r: Vec<BitBoard>)
    ensures
        r@.len() == masks(*list).len(),
        forall|j: int| 0 <= j < r@.len() ==> (#[trigger] r@[j]).0 == masks(*list)[j],
{
    let list = list_slice(list);
    let mut out: Vec<BitBoard> = Vec::new();
    let mut j: usize = 0;
    while j < list.len()
        invariant
            j <= list.len(),
            out@.len() == j,
            forall|e: int| 0 <= e < j ==> (#[trigger] out@[e]).0 == list@[e],
        decreases list.len() - j,
    {
        out.push(BitBoard(list[j]));
        j = j + 1;
    }
    out
}

/// Opponent attacking information.
#[derive(Debug)]
pub struct Attacks {
    /// Attacked squares to restrict king movement.
    pub bb: BitBoard,
    /// Attackers on our king.
    pub checkers: Checkers,
    /// Sliders pinning pieces to the king, each as the ray from the slider to the king.
    ///
    /// Restrict movement for those pieces only along the pinning ray.
    pub pinners: MaskList,
}

/// Extended position information.
#[derive(Debug)]
pub struct PositionState<'a> {
    pub position: &'a Position,
    pub board_ext: BoardExt,
    pub score: PseudoScore,
    pub attacks: Attacks,
}

impl<'a> PositionState<'a> {
    /// The pieces on squares below `n` are noted, and no others.
    pub open spec fn cache_upto(self, n: int) -> bool {
        forall|i: int|
            0 <= i < 64 ==> #[trigger] self.board_ext.pieces[i] == (if i < n {
                self.position.board.piece_at(i)
            } else {
                None
            })
    }

    /// The threats of the pieces on squares below `n` are noted, and no others.
    pub open spec fn threats_upto(self, n: int) -> bool {
        let p = *self.position;
        &&& p.wf()
        &&& self.board_ext.king_bb.0 == p.board.king_bits(p.active_color)
        &&& forall|b: int| #[trigger]
            bit(self.attacks.bb.0, b) <==> attacked_below(
                p.board,
                p.soft_blockers(),
                p.them(),
                n,
                b,
            )
        &&& same_sets(masks(self.attacks.checkers.melee), p.melee_upto(n))
        &&& same_sets(masks(self.attacks.checkers.sliders), p.lines_upto(n, 1))
        &&& same_sets(masks(self.attacks.pinners), p.lines_upto(n, 2))
    }

    /// The state describes its position: the pieces by square, the king of the side to
    /// move, the squares that the other side attacks, and the checks and pins.
    pub open spec fn wf(self) -> bool {
        self.cache_upto(64) && self.threats_upto(64)
    }

    /// The score of a position: the material balance in `pieces`, held within the range
    /// of the field; the other parts are zero.
    pub open spec fn score_of(p: Position) -> PseudoScore {
        PseudoScore {
            pieces: if p.material() > 32767 {
                32767i16
            } else if p.material() < -32768 {
                -32768i16
            } else {
                p.material() as i16
            },
            position: 0,
            attacked: 0,
            attack: 0,
        }
    }

    /// Works out the state of a position.
    pub fn generate(position: &'a Position) -> (this: PositionState<'a>)
        requires
            position.wf(),
        ensures
            this.position == position,
            this.wf(),
            this.score == Self::score_of(*position),
    {
        let mut this = PositionState {
            position,
            board_ext: BoardExt::default(),
            score: PseudoScore::default(),
            attacks: Attacks {
                bb: BitBoard(0),
                checkers: Checkers { melee: list_new(), sliders: list_new() },
                pinners: list_new(),
            },
        };
        this.board_ext.king_bb = position.board.get_piece_bb(
            Piece { color: position.active_color, kind: PieceKind::King },
        );
        let ghost occ = position.board.occupied();
        let mut iter = position.board.get_full_bb().set_iter();
        let mut balance: i32 = 0;
        let ghost mut n: int = 0;
        proof {
            crate::bits::lemma_zero();
        }
        let mut next = iter.next();
        while next.is_some()
            invariant
                this.position == position,
                position.wf(),
                occ == position.board.occupied(),
                0 <= n <= 64,
                this.cache_upto(n),
                this.threats_upto(n),
                this.score == PseudoScore::default_spec(),
                balance == position.material_upto(n),
                -10000 * n <= balance <= 10000 * n,
                match next {
                    Some(sq) => {
                        &&& sq.wf()
                        &&& n <= sq.idx()
                        &&& bit(occ, sq.idx())
                        &&& forall|i: int| n <= i < sq.idx() ==> !bit(occ, i)
                        &&& forall|i: int|
                            #![trigger bit(iter.inner.0, i)]
                            #![trigger bit(occ, i)]
                            bit(iter.inner.0, i) <==> bit(occ, i) && i > sq.idx()
                    },
                    None => forall|i: int| n <= i < 64 ==> !bit(occ, i),
                },
            decreases 64 - n,
        {
            let square = next.unwrap();
            proof {
                this.lemma_skip(n, square.idx());
                position.board.lemma_piece_at(square.idx());
                assert forall|i: int| n <= i < square.idx() implies position.board.piece_at(
                    i,
                ).is_none() by {
                    position.board.lemma_piece_at(i);
                }
                position.lemma_material(n, square.idx());
                position.lemma_material(square.idx() + 1, square.idx() + 1);
            }
            let piece = position.board.get(square).unwrap();
            this.board_ext.pieces[square.0 as usize] = Some(piece);
            if piece.color == position.active_color {
                balance = balance + piece.kind.score() as i32;
                proof {
                    this.lemma_quiet(square.idx());
                }
            } else {
                balance = balance - piece.kind.score() as i32;
                this.generate_attacks(square, piece.kind);
            }
            proof {
                n = square.idx() + 1;
                crate::bits::lemma_zero();
            }
            next = iter.next();
        }
        proof {
            this.lemma_skip(n, 64);
            assert forall|i: int| n <= i < 64 implies position.board.piece_at(i).is_none() by {
                position.board.lemma_piece_at(i);
            }
            position.lemma_material(n, 64);
        }
        this.score.pieces = if balance > 32767 {
            32767
        } else if balance < -32768 {
            -32768
        } else {
            balance as i16
        };
        this
    }

    /// Squares without a piece change nothing.
    proof fn lemma_skip(self, n: int, m: int)
        requires
            0 <= n <= m <= 64,
            self.position.wf(),
            self.cache_upto(n),
            self.threats_upto(n),
            forall|i: int| n <= i < m ==> !bit(self.position.board.occupied(), i),
        ensures
            self.cache_upto(m),
            self.threats_upto(m),
    {
        let p = *self.position;
        assert forall|i: int| n <= i < m implies p.board.piece_at(i).is_none()
            && p.board.color_at(i).is_none() by {
            p.board.lemma_piece_at(i);
        }
        p.lemma_upto_skip(n, m, 1);
        p.lemma_upto_skip(n, m, 2);
        assert forall|b: int|
            attacked_below(p.board, p.soft_blockers(), p.them(), n, b) <==> attacked_below(
                p.board,
                p.soft_blockers(),
                p.them(),
                m,
                b,
            ) by {
            if attacked_below(p.board, p.soft_blockers(), p.them(), m, b) {
                let q = choose|q: int|
                    q < m && #[trigger] attacker(p.board, p.soft_blockers(), p.them(), q, b);
                assert(q < n);
            }
            if attacked_below(p.board, p.soft_blockers(), p.them(), n, b) {
                let q = choose|q: int|
                    q < n && #[trigger] attacker(p.board, p.soft_blockers(), p.them(), q, b);
                assert(q < m);
            }
        }
    }

    /// A piece of the side to move on square `n` adds no threat.
    proof fn lemma_quiet(self, n: int)
        requires
            0 <= n < 64,
            self.position.wf(),
            self.threats_upto(n),
            self.position.board.color_at(n) == Some(self.position.active_color),
        ensures
            self.threats_upto(n + 1),
    {
        let p = *self.position;
        p.lemma_upto_skip(n, n + 1, 1);
        p.lemma_upto_skip(n, n + 1, 2);
        assert forall|b: int|
            attacked_below(p.board, p.soft_blockers(), p.them(), n, b) <==> attacked_below(
                p.board,
                p.soft_blockers(),
                p.them(),
                n + 1,
                b,
            ) by {
            if attacked_below(p.board, p.soft_blockers(), p.them(), n + 1, b) {
                let q = choose|q: int|
                    q < n + 1 && #[trigger] attacker(p.board, p.soft_blockers(), p.them(), q, b);
                assert(q < n);
            }
            if attacked_below(p.board, p.soft_blockers(), p.them(), n, b) {
                let q = choose|q: int|
                    q < n && #[trigger] attacker(p.board, p.soft_blockers(), p.them(), q, b);
                assert(q < n + 1);
            }
        }
    }

    /// Notes the threats of the piece of the side not to move on `square`.
    fn generate_attacks(&mut self, square: Square, kind: PieceKind)
        requires
            square.wf(),
            old(self).threats_upto(square.idx()),
            old(self).position.has(square.idx(), old(self).position.them(), kind),
        ensures
            final(self).threats_upto(square.idx() + 1),
            final(self).position == old(self).position,
            final(self).board_ext == old(self).board_ext,
            final(self).score == old(self).score,
    {
        let ghost p = *self.position;
        let ghost q = square.idx();
        let ghost before = self.attacks.bb.0;
        let them = self.position.active_color.opposite();
        let king = self.board_ext.king_bb;
        proof {
            p.lemma_upto_len(q, 1);
            p.lemma_upto_len(q, 2);
            p.board.lemma_king(p.active_color);
            lemma_test(0, p.king() as u64);
        }
        match kind {
            PieceKind::Bishop => {
                self.slider_family::<0>(square);
                proof {
                    assert(p.lines_at(q, 1) =~= if p.friends_on_line(q, 0) == 1 {
                        seq![p.line(q, 0)]
                    } else {
                        Seq::empty()
                    });
                    assert(p.lines_at(q, 2) =~= if p.friends_on_line(q, 0) == 2 {
                        seq![p.line(q, 0)]
                    } else {
                        Seq::empty()
                    });
                }
            },
            PieceKind::Rook => {
                self.slider_family::<1>(square);
                proof {
                    assert(p.lines_at(q, 1) =~= if p.friends_on_line(q, 1) == 1 {
                        seq![p.line(q, 1)]
                    } else {
                        Seq::empty()
                    });
                    assert(p.lines_at(q, 2) =~= if p.friends_on_line(q, 1) == 2 {
                        seq![p.line(q, 1)]
                    } else {
                        Seq::empty()
                    });
                }
            },
            PieceKind::Queen => {
                self.slider_family::<0>(square);
                self.slider_family::<1>(square);
            },
            PieceKind::Knight => {
                let attack = knight_attacks(square);
                proof {
                    lemma_test(attack.0, p.king() as u64);
                    lemma_single(q as u64);
                    lemma_or(self.attacks.bb.0, attack.0);
                    assert(p.lines_at(q, 1) =~= Seq::empty());
                    assert(p.lines_at(q, 2) =~= Seq::empty());
                }
                if attack.0 & king.0 != 0 {
                    list_push(&mut self.attacks.checkers.melee, 1u64 << square.0);
                    proof {
                        assert(squares(1u64 << square.0) =~= set![q]);
                    }
                }
                self.attacks.bb = BitBoard(self.attacks.bb.0 | attack.0);
            },
            PieceKind::Pawn => {
                let attack = pawn_attacks(square, them);
                proof {
                    lemma_test(attack.0, p.king() as u64);
                    lemma_single(q as u64);
                    lemma_or(self.attacks.bb.0, attack.0);
                    assert(p.lines_at(q, 1) =~= Seq::empty());
                    assert(p.lines_at(q, 2) =~= Seq::empty());
                }
                if attack.0 & king.0 != 0 {
                    list_push(&mut self.attacks.checkers.melee, 1u64 << square.0);
                    proof {
                        assert(squares(1u64 << square.0) =~= set![q]);
                    }
                }
                self.attacks.bb = BitBoard(self.attacks.bb.0 | attack.0);
            },
            PieceKind::King => {
                let attack = king_attacks(square);
                proof {
                    lemma_or(self.attacks.bb.0, attack.0);
                    assert(p.lines_at(q, 1) =~= Seq::empty());
                    assert(p.lines_at(q, 2) =~= Seq::empty());
                }
                // a king gives no check
                self.attacks.bb = BitBoard(self.attacks.bb.0 | attack.0);
            },
        }
        proof {
            let piece = Piece { color: p.them(), kind };
            assert(p.board.piece_at(q) == Some(piece));
            assert forall|b: int| #[trigger]
                bit(self.attacks.bb.0, b) <==> attacked_below(
                    p.board,
                    p.soft_blockers(),
                    p.them(),
                    q + 1,
                    b,
                ) by {
                assert(bit(self.attacks.bb.0, b) <==> bit(before, b) || piece_attacks(
                    piece,
                    p.soft_blockers(),
                    q,
                    b,
                ));
                if attacked_below(p.board, p.soft_blockers(), p.them(), q + 1, b) {
                    let w = choose|w: int|
                        w < q + 1 && #[trigger] attacker(
                            p.board,
                            p.soft_blockers(),
                            p.them(),
                            w,
                            b,
                        );
                    if w < q {
                        assert(attacked_below(p.board, p.soft_blockers(), p.them(), q, b));
                    }
                }
                if bit(before, b) {
                    let w = choose|w: int|
                        w < q && #[trigger] attacker(p.board, p.soft_blockers(), p.them(), w, b);
                    assert(w < q + 1);
                }
                if piece_attacks(piece, p.soft_blockers(), q, b) {
                    assert(attacker(p.board, p.soft_blockers(), p.them(), q, b));
                }
            }
        }
    }

    /// Notes what a slider on `square` does along the lines of one family: the check or
    /// the pin, if its probe reaches the king, and the squares that it attacks.
    fn slider_family<const DIR: u8>(&mut self, square: Square)
        requires
            DIR < 2,
            square.wf(),
            old(self).position.wf(),
            old(self).board_ext.king_bb.0 == old(self).position.board.king_bits(
                old(self).position.active_color,
            ),
            masks(old(self).attacks.checkers.sliders).len() < 1000,
            masks(old(self).attacks.pinners).len() < 1000,
        ensures
            final(self).position == old(self).position,
            final(self).board_ext == old(self).board_ext,
            final(self).score == old(self).score,
            final(self).attacks.checkers.melee == old(self).attacks.checkers.melee,
            forall|b: int| #[trigger]
                bit(final(self).attacks.bb.0, b) <==> bit(old(self).attacks.bb.0, b)
                    || family_sees(
                    old(self).position.soft_blockers(),
                    DIR as int,
                    square.idx(),
                    b,
                ),
            old(self).position.friends_on_line(square.idx(), DIR as int) == 1 ==> exists|m: u64|
                squares(m) == old(self).position.line(square.idx(), DIR as int) && #[trigger] masks(
                    final(self).attacks.checkers.sliders,
                ) == masks(old(self).attacks.checkers.sliders).push(m),
            old(self).position.friends_on_line(square.idx(), DIR as int) != 1 ==> masks(
                final(self).attacks.checkers.sliders,
            ) == masks(old(self).attacks.checkers.sliders),
            old(self).position.friends_on_line(square.idx(), DIR as int) == 2 ==> exists|m: u64|
                squares(m) == old(self).position.line(square.idx(), DIR as int) && #[trigger] masks(
                    final(self).attacks.pinners,
                ) == masks(old(self).attacks.pinners).push(m),
            old(self).position.friends_on_line(square.idx(), DIR as int) != 2 ==> masks(
                final(self).attacks.pinners,
            ) == masks(old(self).attacks.pinners),
    {
        let ghost p = *self.position;
        let ghost q = square.idx();
        let ghost k = p.king();
        let us = self.position.active_color;
        let them = us.opposite();
        let friendly = self.position.board.get_color_bb(us);
        let unfriendly = self.position.board.get_color_bb(them);
        let king = self.board_ext.king_bb;
        let probe = BitBoard(unfriendly.0 | king.0);
        let soft = BitBoard(self.position.board.get_full_bb().0 ^ king.0);
        let square_bb = BitBoard::from_square(square);

        // the squares that the slider attacks: the king of the side to move does not
        // stop it
        let attack = sliding_reach::<DIR>(square, soft);
        proof {
            lemma_or(self.attacks.bb.0, attack.0);
            lemma_single(square.0 as u64);
        }
        self.attacks.bb = BitBoard(self.attacks.bb.0 | attack.0);

        // check or pin: the probe stops on the slider's own side and on the king only
        let rays = sliding_attacks::<DIR>(square, probe);
        proof {
            p.board.lemma_king(us);
            assert forall|d: int| 0 <= d < 4 implies #[trigger] rays[d]@ =~= p.probe_ray(
                q,
                DIR as int,
                d,
            ) by {
                assert forall|b: int| rays[d]@.contains(b) <==> p.probe_ray(
                    q,
                    DIR as int,
                    d,
                ).contains(b) by {
                    assert(rays[d]@.contains(b) <==> seen(
                        probe.0,
                        q,
                        b,
                        dir_r(DIR as int, d),
                        dir_f(DIR as int, d),
                    ));
                }
            }
        }
        let mut d: usize = 0;
        while d < 4
            invariant
                d <= 4,
                0 <= k < 64,
                king.0 == 1u64 << (k as u64),
                k == p.king(),
                p == *self.position,
                q == square.idx(),
                square_bb.0 == 1u64 << square.0,
                square.wf(),
                friendly.0 == p.board.color_bits(p.active_color),
                forall|e: int| 0 <= e < 4 ==> #[trigger] rays[e]@ == p.probe_ray(q, DIR as int, e),
                forall|e: int|
                    0 <= e < d ==> !(#[trigger] p.probe_ray(q, DIR as int, e)).contains(k),
                self.position == old(self).position,
                self.board_ext == old(self).board_ext,
                self.score == old(self).score,
                self.attacks.checkers == old(self).attacks.checkers,
                self.attacks.pinners == old(self).attacks.pinners,
                self.attacks.bb.0 == old(self).attacks.bb.0 | attack.0,
                forall|b: int| #[trigger]
                    bit(self.attacks.bb.0, b) <==> bit(old(self).attacks.bb.0, b) || family_sees(
                        p.soft_blockers(),
                        DIR as int,
                        q,
                        b,
                    ),
                masks(old(self).attacks.checkers.sliders).len() < 1000,
                masks(old(self).attacks.pinners).len() < 1000,
            decreases 4 - d,
        {
            let ray = rays[d];
            proof {
                lemma_test(ray.0, k as u64);
                assert(rays[d as int]@ == p.probe_ray(q, DIR as int, d as int));
            }
            if ray.0 & king.0 != 0 {
                let n = popcount(ray.0 & friendly.0);
                let mask: u64 = square_bb.0 | ray.0;
                proof {
                    assert(p.probe_dir(q, DIR as int) == d);
                    lemma_and(ray.0, friendly.0);
                    assert(squares(ray.0 & friendly.0) =~= p.probe_ray(
                        q,
                        DIR as int,
                        d as int,
                    ).intersect(squares(friendly.0)));
                    assert(n == p.friends_on_line(q, DIR as int));
                    lemma_single(square.0 as u64);
                    lemma_or(square_bb.0, ray.0);
                    assert(squares(mask) =~= p.line(q, DIR as int));
                }
                if n == 1 {
                    // only the king meets the probe: check
                    list_push(&mut self.attacks.checkers.sliders, mask);
                } else if n == 2 {
                    // the king and one more piece meet the probe: pin
                    list_push(&mut self.attacks.pinners, mask);
                }
                return ;
            }
            d = d + 1;
        }
        proof {
            assert(p.probe_dir(q, DIR as int) == 4);
        }
    }

    /// What a piece takes that goes to `to_sq`, en passant left aside: the piece that
    /// stands there.
    #[inline]
    pub fn resolve_capture_only(&self, to_sq: Square) -> (r: Option<Capture>)
        requires
            to_sq.wf(),
            self.cache_upto(64),
        ensures
            r == match self.position.board.piece_at(to_sq.idx()) {
                Some(p) => Some(Capture::Regular(p.kind)),
                None => None,
            },
    {
        match self.board_ext.pieces[to_sq.0 as usize] {
            Some(piece) => Some(Capture::Regular(piece.kind)),
            None => None,
        }
    }

    /// The capture en passant, if `to_sq` is the en passant target.
    #[inline]
    pub fn resolve_ep(&self, to_sq: Square) -> (r: Option<Capture>)
        ensures
            r == if self.position.ep_target == Some(to_sq) {
                Some(Capture::EnPassant)
            } else {
                None
            },
    {
        match self.position.ep_target {
            Some(target) => {
                if target.0 == to_sq.0 {
                    Some(Capture::EnPassant)
                } else {
                    None
                }
            },
            None => None,
        }
    }

    /// What a pawn takes that goes to `to_sq`: the piece that stands there, or else the
    /// pawn that has passed the en passant target.
    #[inline]
    pub fn resolve_capture(&self, to_sq: Square) -> (r: Option<Capture>)
        requires
            to_sq.wf(),
            self.cache_upto(64),
        ensures
            r == self.position.capture_of(PieceKind::Pawn, to_sq.idx()),
    {
        match self.resolve_capture_only(to_sq) {
            Some(c) => Some(c),
            None => self.resolve_ep(to_sq),
        }
    }
}

} // verus!
