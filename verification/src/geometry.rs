//! The geometry of the board: how the pieces move across ranks and files.
//!
//! Squares are indices `0..64`, `rank = index / 8`, `file = index % 8`.

use vstd::prelude::*;
use crate::bits::bit;
use crate::piece::Color;

verus! {

/// The absolute value.
pub open spec fn abs(x: int) -> int {
    if x < 0 {
        -x
    } else {
        x
    }
}

/// Ranks from `a` up to `b`.
pub open spec fn dr(a: int, b: int) -> int {
    b / 8 - a / 8
}

/// Files from `a` right to `b`.
pub open spec fn df(a: int, b: int) -> int {
    b % 8 - a % 8
}

/// Both are squares of the board.
pub open spec fn both(a: int, b: int) -> bool {
    0 <= a < 64 && 0 <= b < 64
}

/// A knight on `a` attacks `b`.
pub open spec fn knight_jump(a: int, b: int) -> bool {
    both(a, b) && ((abs(dr(a, b)) == 1 && abs(df(a, b)) == 2) || (abs(dr(a, b)) == 2 && abs(
        df(a, b),
    ) == 1))
}

/// A king on `a` attacks `b`.
pub open spec fn king_step(a: int, b: int) -> bool {
    both(a, b) && a != b && abs(dr(a, b)) <= 1 && abs(df(a, b)) <= 1
}

/// The rank direction in which the pawns of a color advance.
pub open spec fn forward(c: Color) -> int {
    match c {
        Color::White => 1,
        Color::Black => -1,
    }
}

/// A pawn of color `c` on `a` attacks `b`.
pub open spec fn pawn_attack(c: Color, a: int, b: int) -> bool {
    both(a, b) && dr(a, b) == forward(c) && abs(df(a, b)) == 1
}

/// `x` has the sign of `s`.
pub open spec fn signed(x: int, s: int) -> bool {
    if s > 0 {
        x > 0
    } else if s < 0 {
        x < 0
    } else {
        x == 0
    }
}

/// `(r, f)` is one of the eight directions of the board.
pub open spec fn direction(r: int, f: int) -> bool {
    -1 <= r <= 1 && -1 <= f <= 1 && (r != 0 || f != 0)
}

/// `b` lies from `a` in direction `(r, f)`, one step away or more.
#[verifier::opaque]
pub open spec fn toward(a: int, b: int, r: int, f: int) -> bool {
    &&& both(a, b)
    &&& signed(dr(a, b), r)
    &&& signed(df(a, b), f)
    &&& r != 0 && f != 0 ==> abs(dr(a, b)) == abs(df(a, b))
}

/// Number of king steps between two squares.
#[verifier::opaque]
pub open spec fn gap(a: int, b: int) -> int {
    if abs(dr(a, b)) >= abs(df(a, b)) {
        abs(dr(a, b))
    } else {
        abs(df(a, b))
    }
}

/// `c` lies strictly between `a` and `b`, which lies from `a` in direction `(r, f)`.
pub open spec fn between(a: int, c: int, b: int, r: int, f: int) -> bool {
    toward(a, c, r, f) && toward(c, b, r, f)
}

/// A slider on `a` sees `b` in direction `(r, f)`: no blocker stands strictly between.
/// The square `b` itself may hold a blocker.
pub open spec fn seen(blockers: u64, a: int, b: int, r: int, f: int) -> bool {
    &&& toward(a, b, r, f)
    &&& forall|c: int| between(a, c, b, r, f) ==> !#[trigger] bit(blockers, c)
}

/// Number of steps from `a` to the edge of the board in direction `(r, f)`.
pub open spec fn edge_gap(a: int, r: int, f: int) -> int {
    let by_rank = if r > 0 {
        7 - a / 8
    } else if r < 0 {
        a / 8
    } else {
        7
    };
    let by_file = if f > 0 {
        7 - a % 8
    } else if f < 0 {
        a % 8
    } else {
        7
    };
    if by_rank <= by_file {
        by_rank
    } else {
        by_file
    }
}

/// The rank step of direction `d` of a family: family 0 holds the diagonals north-east,
/// north-west, south-east, south-west; family 1 holds north, south, east, west.
pub open spec fn dir_r(family: int, d: int) -> int {
    if family == 0 {
        if d == 0 || d == 1 {
            1
        } else {
            -1
        }
    } else {
        if d == 0 {
            1
        } else if d == 1 {
            -1
        } else {
            0
        }
    }
}

/// The file step of direction `d` of a family.
pub open spec fn dir_f(family: int, d: int) -> int {
    if family == 0 {
        if d == 0 || d == 2 {
            1
        } else {
            -1
        }
    } else {
        if d == 2 {
            1
        } else if d == 3 {
            -1
        } else {
            0
        }
    }
}

/// A slider of a family on `a` sees `b`.
pub open spec fn family_sees(blockers: u64, family: int, a: int, b: int) -> bool {
    ||| seen(blockers, a, b, dir_r(family, 0), dir_f(family, 0))
    ||| seen(blockers, a, b, dir_r(family, 1), dir_f(family, 1))
    ||| seen(blockers, a, b, dir_r(family, 2), dir_f(family, 2))
    ||| seen(blockers, a, b, dir_r(family, 3), dir_f(family, 3))
}

/// A square that lies from `a` in a direction is on the board, at least one step and
/// at most the distance to the edge away.
pub proof fn lemma_toward(a: int, b: int, r: int, f: int)
    requires
        direction(r, f),
        toward(a, b, r, f),
    ensures
        both(a, b),
        a != b,
        1 <= gap(a, b) <= edge_gap(a, r, f),
        gap(a, b) <= 7,
{
    reveal(toward);
    reveal(gap);
}

/// The first step from `a` in a direction, where the edge is not reached yet.
pub proof fn lemma_first_step(a: int, r: int, f: int)
    requires
        0 <= a < 64,
        direction(r, f),
        edge_gap(a, r, f) >= 1,
    ensures
        0 <= a + 8 * r + f < 64,
        toward(a, a + 8 * r + f, r, f),
        gap(a, a + 8 * r + f) == 1,
{
    reveal(toward);
    reveal(gap);
}

/// One more step from `cur` in the direction in which it lies from `a`, where the edge
/// is not reached yet.
pub proof fn lemma_next_step(a: int, cur: int, r: int, f: int)
    requires
        direction(r, f),
        toward(a, cur, r, f),
        gap(a, cur) < edge_gap(a, r, f),
    ensures
        0 <= cur + 8 * r + f < 64,
        toward(a, cur + 8 * r + f, r, f),
        gap(a, cur + 8 * r + f) == gap(a, cur) + 1,
        toward(cur, cur + 8 * r + f, r, f),
{
    reveal(toward);
    reveal(gap);
}

/// In one direction from `a` there is one square at each distance.
pub proof fn lemma_same_gap(a: int, b: int, c: int, r: int, f: int)
    requires
        direction(r, f),
        toward(a, b, r, f),
        toward(a, c, r, f),
        gap(a, b) == gap(a, c),
    ensures
        b == c,
{
    reveal(toward);
    reveal(gap);
}

/// What lies strictly between `a` and `b` is what lies in the same direction from `a`,
/// nearer than `b`.
pub proof fn lemma_between(a: int, c: int, b: int, r: int, f: int)
    requires
        direction(r, f),
    ensures
        between(a, c, b, r, f) <==> toward(a, c, r, f) && toward(a, b, r, f) && gap(a, c) < gap(
            a,
            b,
        ),
        between(a, c, b, r, f) ==> gap(a, c) + gap(c, b) == gap(a, b),
{
    reveal(toward);
    reveal(gap);
}

/// A square lies from another in one direction only.
pub proof fn lemma_one_direction(a: int, b: int, r1: int, f1: int, r2: int, f2: int)
    requires
        direction(r1, f1),
        direction(r2, f2),
        toward(a, b, r1, f1),
        toward(a, b, r2, f2),
    ensures
        r1 == r2,
        f1 == f2,
{
    reveal(toward);
}

/// Of two squares in one direction from `a`, one lies between `a` and the other, unless
/// they are the same square.
pub proof fn lemma_line_order(a: int, b: int, c: int, r: int, f: int)
    requires
        direction(r, f),
        toward(a, b, r, f),
        toward(a, c, r, f),
    ensures
        b == c || between(a, b, c, r, f) || between(a, c, b, r, f),
{
    reveal(toward);
    reveal(gap);
}

/// What lies between `a` and a square between `a` and `b` lies between `a` and `b`, and
/// so does what lies between that square and `b`.
pub proof fn lemma_between_nested(a: int, e: int, c: int, b: int, r: int, f: int)
    requires
        direction(r, f),
        between(a, c, b, r, f),
    ensures
        between(a, e, c, r, f) ==> between(a, e, b, r, f),
        between(c, e, b, r, f) ==> between(a, e, b, r, f),
        between(a, e, b, r, f) ==> e == c || between(a, e, c, r, f) || between(c, e, b, r, f),
{
    reveal(toward);
    reveal(gap);
}

/// Seen from the other end, a direction is reversed.
pub proof fn lemma_reverse(a: int, b: int, r: int, f: int)
    ensures
        toward(a, b, r, f) <==> toward(b, a, -r, -f),
        forall|c: int| between(a, c, b, r, f) <==> between(b, c, a, -r, -f),
{
    reveal(toward);
}

/// A slider sees along a line whatever sees it along that line.
pub proof fn lemma_seen_back(blockers: u64, a: int, b: int, r: int, f: int)
    requires
        seen(blockers, a, b, r, f),
    ensures
        seen(blockers, b, a, -r, -f),
{
    lemma_reverse(a, b, r, f);
}

/// A slider of a family sees whatever could see it as a slider of that family.
pub proof fn lemma_sees_back(blockers: u64, family: int, a: int, b: int)
    requires
        family == 0 || family == 1,
        family_sees(blockers, family, a, b),
    ensures
        family_sees(blockers, family, b, a),
{
    if seen(blockers, a, b, dir_r(family, 0), dir_f(family, 0)) {
        lemma_seen_back(blockers, a, b, dir_r(family, 0), dir_f(family, 0));
    } else if seen(blockers, a, b, dir_r(family, 1), dir_f(family, 1)) {
        lemma_seen_back(blockers, a, b, dir_r(family, 1), dir_f(family, 1));
    } else if seen(blockers, a, b, dir_r(family, 2), dir_f(family, 2)) {
        lemma_seen_back(blockers, a, b, dir_r(family, 2), dir_f(family, 2));
    } else {
        lemma_seen_back(blockers, a, b, dir_r(family, 3), dir_f(family, 3));
    }
}

/// With fewer blockers a slider sees at least as much.
pub proof fn lemma_seen_more(more: u64, fewer: u64, a: int, b: int, r: int, f: int)
    requires
        seen(more, a, b, r, f),
        forall|c: int| between(a, c, b, r, f) && #[trigger] bit(fewer, c) ==> bit(more, c),
    ensures
        seen(fewer, a, b, r, f),
{
}

/// The directions of the two families.
pub proof fn lemma_directions(family: int, d: int)
    requires
        family == 0 || family == 1,
        0 <= d < 4,
    ensures
        direction(dir_r(family, d), dir_f(family, d)),
        (family == 0) == (dir_r(family, d) != 0 && dir_f(family, d) != 0),
        forall|e: int|
            0 <= e < 4 && dir_r(family, e) == dir_r(family, d) && dir_f(family, e) == dir_f(
                family,
                d,
            ) ==> e == d,
{
}

/// The last square before `b` on the way from `a` lies between them, where they are
/// more than one step apart.
pub proof fn lemma_last_step(a: int, b: int, r: int, f: int)
    requires
        direction(r, f),
        toward(a, b, r, f),
        gap(a, b) >= 2,
    ensures
        between(a, b - (8 * r + f), b, r, f),
        (b - (8 * r + f)) / 8 == b / 8 - r,
{
    reveal(toward);
    reveal(gap);
}

} // verus!
