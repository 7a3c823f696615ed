//! Sliding attacks: the rays of bishop, rook and queen.

use vstd::prelude::*;
use crate::bitboard::BitBoard;
use crate::bits::{bit, lemma_and, lemma_nonzero, lemma_or, lemma_put, lemma_shift_single, lemma_single, lemma_zero};
use crate::geometry::{between, dir_f, dir_r, direction, edge_gap, family_sees, gap, seen, toward};
use crate::geometry::{lemma_between, lemma_first_step, lemma_next_step, lemma_same_gap, lemma_toward};
use crate::square::Square;

verus! {

/// Walks from `square` in one direction, at most `max` steps, and returns the squares
/// passed: each step shifts the square's bit left by `left`, then right by `right`. The
/// walk ends on the first blocker, which is part of the result.
fn slide(
    square: Square,
    blockers: u64,
    max: u8,
    left: u8,
    right: u8,
    Ghost(r): Ghost<int>,
    Ghost(f): Ghost<int>,
) -> (ray: u64)
    requires
        square.wf(),
        direction(r, f),
        max == edge_gap(square.idx(), r, f),
        left < 16 && right < 16,
        left == 0 || right == 0,
        left - right == 8 * r + f,
    ensures
        forall|b: int| #[trigger] bit(ray, b) <==> seen(blockers, square.idx(), b, r, f),
{
    let ghost a = square.idx();
    let ghost mut cur: int = a;
    let mut cur_bb: u64 = 1u64 << square.0;
    let mut ray: u64 = 0;
    let mut i: u8 = 0;
    let mut stopped = false;
    proof {
        lemma_zero();
        assert forall|b: int| toward(a, b, r, f) implies gap(a, b) > 0 by {
            lemma_toward(a, b, r, f);
        }
    }
    while i < max && !stopped
        invariant
            0 <= a < 64,
            direction(r, f),
            max == edge_gap(a, r, f),
            left < 16 && right < 16,
            left == 0 || right == 0,
            left - right == 8 * r + f,
            i <= max,
            0 <= cur < 64,
            cur_bb == 1u64 << (cur as u64),
            i == 0 ==> cur == a,
            i > 0 ==> toward(a, cur, r, f) && gap(a, cur) == i,
            forall|b: int| #[trigger] bit(ray, b) <==> toward(a, b, r, f) && gap(a, b) <= i,
            forall|c: int| toward(a, c, r, f) && gap(a, c) < i ==> !#[trigger] bit(blockers, c),
            stopped ==> i > 0 && bit(blockers, cur),
            !stopped && i > 0 ==> !bit(blockers, cur),
        decreases max - i + (if stopped { 0int } else { 1int }),
    {
        let ghost prev = cur;
        let ghost old_ray = ray;
        proof {
            cur = prev + 8 * r + f;
            if i == 0 {
                lemma_first_step(a, r, f);
            } else {
                lemma_next_step(a, prev, r, f);
            }
            lemma_shift_single(prev as u64, left as u64);
            lemma_shift_single((prev + left) as u64, right as u64);
        }
        cur_bb = (cur_bb << left) >> right;
        proof {
            lemma_put(ray, cur as u64);
            lemma_single(cur as u64);
            lemma_and(cur_bb, blockers);
            lemma_nonzero(cur_bb & blockers);
            if bit(blockers, cur) {
                assert(bit(cur_bb & blockers, cur));
            }
            if cur_bb & blockers != 0 {
                let w = choose|w: int| bit(cur_bb & blockers, w);
                assert(w == cur);
            }
        }
        ray = ray | cur_bb;
        proof {
            assert forall|b: int| #[trigger] bit(ray, b) <==> toward(a, b, r, f) && gap(a, b) <= i
                + 1 by {
                assert(bit(ray, b) <==> bit(old_ray, b) || b == cur);
                if toward(a, b, r, f) && gap(a, b) == i + 1 {
                    lemma_same_gap(a, b, cur, r, f);
                }
            }
            assert forall|c: int| toward(a, c, r, f) && gap(a, c) < i + 1 implies !#[trigger] bit(
                blockers,
                c,
            ) by {
                if gap(a, c) == i {
                    lemma_toward(a, c, r, f);
                    lemma_same_gap(a, c, prev, r, f);
                }
            }
        }
        i = i + 1;
        if cur_bb & blockers != 0 {
            stopped = true;
        }
    }
    proof {
        assert forall|b: int| #[trigger] bit(ray, b) <==> seen(blockers, a, b, r, f) by {
            if bit(ray, b) {
                assert forall|c: int| between(a, c, b, r, f) implies !#[trigger] bit(
                    blockers,
                    c,
                ) by {
                    lemma_between(a, c, b, r, f);
                }
            }
            if seen(blockers, a, b, r, f) && !bit(ray, b) {
                lemma_toward(a, b, r, f);
                assert(gap(a, b) > i);
                assert(stopped);
                lemma_between(a, cur, b, r, f);
                assert(between(a, cur, b, r, f));
                assert(!bit(blockers, cur));
            }
        }
    }
    ray
}

/// The four rays of a family from `square`: family 0 holds the diagonals north-east,
/// north-west, south-east, south-west, family 1 holds north, south, east, west. Each
/// ray ends on its first blocker, which is part of it.
pub(crate) fn sliding_attacks<const DIR: u8>(square: Square, blockers: BitBoard) -> (rays: [BitBoard; 4])
    requires
        square.wf(),
        DIR < 2,
    ensures
        forall|d: int, b: int|
            0 <= d < 4 ==> (#[trigger] rays[d]@.contains(b) <==> seen(
                blockers.0,
                square.idx(),
                b,
                dir_r(DIR as int, d),
                dir_f(DIR as int, d),
            )),
{
    let rank: u8 = square.rank();
    let file: u8 = square.file();
    let up: u8 = 7 - rank;
    let east: u8 = 7 - file;
    if DIR == 0 {
        let ne = slide(
            square,
            blockers.0,
            if up <= east { up } else { east },
            9,
            0,
            Ghost(1),
            Ghost(1),
        );
        let nw = slide(
            square,
            blockers.0,
            if up <= file { up } else { file },
            7,
            0,
            Ghost(1),
            Ghost(-1),
        );
        let se = slide(
            square,
            blockers.0,
            if rank <= east { rank } else { east },
            0,
            7,
            Ghost(-1),
            Ghost(1),
        );
        let sw = slide(
            square,
            blockers.0,
            if rank <= file { rank } else { file },
            0,
            9,
            Ghost(-1),
            Ghost(-1),
        );
        [BitBoard(ne), BitBoard(nw), BitBoard(se), BitBoard(sw)]
    } else {
        let n = slide(square, blockers.0, up, 8, 0, Ghost(1), Ghost(0));
        let s = slide(square, blockers.0, rank, 0, 8, Ghost(-1), Ghost(0));
        let e = slide(square, blockers.0, east, 1, 0, Ghost(0), Ghost(1));
        let w = slide(square, blockers.0, file, 0, 1, Ghost(0), Ghost(-1));
        [BitBoard(n), BitBoard(s), BitBoard(e), BitBoard(w)]
    }
}

/// The union of four boards.
#[inline]
pub fn merge_bb(boards: [BitBoard; 4]) -> (r: BitBoard)
    ensures
        r.0 == boards[0].0 | boards[1].0 | boards[2].0 | boards[3].0,
        forall|b: int|
            r@.contains(b) <==> boards[0]@.contains(b) || boards[1]@.contains(b)
                || boards[2]@.contains(b) || boards[3]@.contains(b),
{
    proof {
        lemma_or(boards[0].0, boards[1].0);
        lemma_or(boards[0].0 | boards[1].0, boards[2].0);
        lemma_or(boards[0].0 | boards[1].0 | boards[2].0, boards[3].0);
    }
    BitBoard(boards[0].0 | boards[1].0 | boards[2].0 | boards[3].0)
}

/// All squares that a slider of a family on `square` sees.
pub(crate) fn sliding_reach<const DIR: u8>(square: Square, blockers: BitBoard) -> (r: BitBoard)
    requires
        square.wf(),
        DIR < 2,
    ensures
        forall|b: int| r@.contains(b) <==> family_sees(blockers.0, DIR as int, square.idx(), b),
        forall|b: int| #[trigger]
            bit(r.0, b) <==> family_sees(blockers.0, DIR as int, square.idx(), b),
{
    let rays = sliding_attacks::<DIR>(square, blockers);
    let r = merge_bb(rays);
    proof {
        assert forall|b: int| #[trigger] bit(r.0, b) <==> family_sees(
            blockers.0,
            DIR as int,
            square.idx(),
            b,
        ) by {
            assert(bit(r.0, b) == r@.contains(b));
            assert(rays[0]@.contains(b) <==> seen(
                blockers.0,
                square.idx(),
                b,
                dir_r(DIR as int, 0),
                dir_f(DIR as int, 0),
            ));
            assert(rays[1]@.contains(b) <==> seen(
                blockers.0,
                square.idx(),
                b,
                dir_r(DIR as int, 1),
                dir_f(DIR as int, 1),
            ));
            assert(rays[2]@.contains(b) <==> seen(
                blockers.0,
                square.idx(),
                b,
                dir_r(DIR as int, 2),
                dir_f(DIR as int, 2),
            ));
            assert(rays[3]@.contains(b) <==> seen(
                blockers.0,
                square.idx(),
                b,
                dir_r(DIR as int, 3),
                dir_f(DIR as int, 3),
            ));
        }
    }
    r
}

} // verus!
