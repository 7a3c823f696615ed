//! What the side that is not to move threatens: attacked squares, checks and pins.

use vstd::prelude::*;
use crate::bits::squares;
use crate::board::Board;
use crate::geometry::{dir_f, dir_r, family_sees, king_step, knight_jump, pawn_attack, seen};
use crate::piece::{Color, Piece, PieceKind};
use crate::position::Position;

verus! {

/// A piece on `q` attacks `b`, where sliders are stopped by `blockers`.
pub open spec fn piece_attacks(piece: Piece, blockers: u64, q: int, b: int) -> bool {
    match piece.kind {
        PieceKind::Pawn => pawn_attack(piece.color, q, b),
        PieceKind::Knight => knight_jump(q, b),
        PieceKind::King => king_step(q, b),
        PieceKind::Bishop => family_sees(blockers, 0, q, b),
        PieceKind::Rook => family_sees(blockers, 1, q, b),
        PieceKind::Queen => family_sees(blockers, 0, q, b) || family_sees(blockers, 1, q, b),
    }
}

/// A piece of color `c` stands on `q` and attacks `b`.
pub open spec fn attacker(board: Board, blockers: u64, c: Color, q: int, b: int) -> bool {
    0 <= q < 64 && match board.piece_at(q) {
        Some(p) => p.color == c && piece_attacks(p, blockers, q, b),
        None => false,
    }
}

/// Some piece of color `c` on a square below `n` attacks `b`.
pub open spec fn attacked_below(board: Board, blockers: u64, c: Color, n: int, b: int) -> bool {
    exists|q: int| q < n && #[trigger] attacker(board, blockers, c, q, b)
}

/// Some piece of color `c` attacks `b`.
pub open spec fn attacked(board: Board, blockers: u64, c: Color, b: int) -> bool {
    attacked_below(board, blockers, c, 64, b)
}

impl Position {
    /// The side that is not to move.
    pub open spec fn them(self) -> Color {
        self.active_color.other()
    }

    /// The square of the king of the side to move.
    pub open spec fn king(self) -> int {
        self.board.king_sq(self.active_color)
    }

    /// All pieces but the king of the side to move: a slider's attack goes on through
    /// that king, so that the king cannot step back along the line of a check.
    pub open spec fn soft_blockers(self) -> u64 {
        self.board.occupied() ^ self.board.king_bits(self.active_color)
    }

    /// What stops a probe for checks and pins: the pieces of the side not to move, and
    /// the king of the side to move.
    pub open spec fn probe_blockers(self) -> u64 {
        self.board.color_bits(self.them()) | self.board.king_bits(self.active_color)
    }

    /// The side not to move attacks `b`, as the king of the side to move has to see it.
    pub open spec fn threatened(self, b: int) -> bool {
        attacked(self.board, self.soft_blockers(), self.them(), b)
    }

    /// The side to move is in check: a piece of the other side attacks its king.
    pub open spec fn in_check(self) -> bool {
        attacked(self.board, self.board.occupied(), self.them(), self.king())
    }

    /// A knight or pawn of the side not to move on `q` gives check.
    pub open spec fn melee_at(self, q: int) -> bool {
        ||| self.has(q, self.them(), PieceKind::Knight) && knight_jump(q, self.king())
        ||| self.has(q, self.them(), PieceKind::Pawn) && pawn_attack(self.them(), q, self.king())
    }

    /// The knights and pawns that give check from squares below `n`, by square: each as
    /// the set that holds its square.
    pub open spec fn melee_upto(self, n: int) -> Seq<Set<int>>
        decreases n,
    {
        if n <= 0 {
            Seq::empty()
        } else if self.melee_at(n - 1) {
            self.melee_upto(n - 1).push(set![n - 1])
        } else {
            self.melee_upto(n - 1)
        }
    }

    /// The squares that a probe from `q` passes in direction `d` of a family.
    pub open spec fn probe_ray(self, q: int, family: int, d: int) -> Set<int> {
        Set::new(
            |b: int| seen(self.probe_blockers(), q, b, dir_r(family, d), dir_f(family, d)),
        )
    }

    /// The direction of a family in which a probe from `q` reaches the king of the side
    /// to move; 4 where none does.
    pub open spec fn probe_dir(self, q: int, family: int) -> int {
        if self.probe_ray(q, family, 0).contains(self.king()) {
            0
        } else if self.probe_ray(q, family, 1).contains(self.king()) {
            1
        } else if self.probe_ray(q, family, 2).contains(self.king()) {
            2
        } else if self.probe_ray(q, family, 3).contains(self.king()) {
            3
        } else {
            4
        }
    }

    /// Number of pieces of the side to move on the probe from `q` that reaches their king,
    /// the king counted; 0 where no probe of the family reaches it.
    pub open spec fn friends_on_line(self, q: int, family: int) -> nat {
        if self.probe_dir(q, family) < 4 {
            self.probe_ray(q, family, self.probe_dir(q, family)).intersect(
                squares(self.board.color_bits(self.active_color)),
            ).len()
        } else {
            0
        }
    }

    /// The line from `q` to the king: the probe that reaches the king, and `q` itself.
    pub open spec fn line(self, q: int, family: int) -> Set<int> {
        self.probe_ray(q, family, self.probe_dir(q, family)).insert(q)
    }

    /// A piece of this kind slides along the lines of this family.
    pub open spec fn slides(kind: PieceKind, family: int) -> bool {
        match kind {
            PieceKind::Bishop => family == 0,
            PieceKind::Rook => family == 1,
            PieceKind::Queen => family == 0 || family == 1,
            _ => false,
        }
    }

    /// A slider of the side not to move stands on `q` and reaches the king along a line
    /// of the family with `friends` pieces of the side to move on it, the king counted.
    pub open spec fn reaches_king(self, q: int, family: int, friends: nat) -> bool {
        match self.board.piece_at(q) {
            Some(p) => p.color == self.them() && Self::slides(p.kind, family)
                && self.friends_on_line(q, family) == friends,
            None => false,
        }
    }

    /// The lines of the sliders on `q` with that many pieces of the side to move on
    /// them: diagonal before straight.
    pub open spec fn lines_at(self, q: int, friends: nat) -> Seq<Set<int>> {
        (if self.reaches_king(q, 0, friends) {
            seq![self.line(q, 0)]
        } else {
            Seq::empty()
        }) + (if self.reaches_king(q, 1, friends) {
            seq![self.line(q, 1)]
        } else {
            Seq::empty()
        })
    }

    /// The lines of the sliders on squares below `n` with that many pieces of the side to
    /// move on them, by square.
    pub open spec fn lines_upto(self, n: int, friends: nat) -> Seq<Set<int>>
        decreases n,
    {
        if n <= 0 {
            Seq::empty()
        } else {
            self.lines_upto(n - 1, friends) + self.lines_at(n - 1, friends)
        }
    }

    /// What the piece on square `i` counts for the side to move: its value, negative for
    /// a piece of the other side, zero for a free square.
    pub open spec fn worth(self, i: int) -> int {
        match self.board.piece_at(i) {
            Some(p) => if p.color == self.active_color {
                p.kind.value()
            } else {
                -p.kind.value()
            },
            None => 0,
        }
    }

    /// The material on squares below `n`, as the side to move counts it.
    pub open spec fn material_upto(self, n: int) -> int
        decreases n,
    {
        if n <= 0 {
            0
        } else {
            self.material_upto(n - 1) + self.worth(n - 1)
        }
    }

    /// The material balance: the values of the pieces of the side to move, less those of
    /// the other side.
    pub open spec fn material(self) -> int {
        self.material_upto(64)
    }

    /// Free squares add nothing to the material, and the material stays small.
    pub proof fn lemma_material(self, n: int, m: int)
        requires
            0 <= n <= m,
            forall|q: int| n <= q < m ==> self.board.piece_at(q).is_none(),
        ensures
            self.material_upto(m) == self.material_upto(n),
            -10000 * n <= self.material_upto(n) <= 10000 * n,
        decreases m,
    {
        if n < m {
            self.lemma_material(n, m - 1);
        } else if n > 0 {
            self.lemma_material(n - 1, n - 1);
        }
    }

    /// The knights and pawns that give check.
    pub open spec fn melee(self) -> Seq<Set<int>> {
        self.melee_upto(64)
    }

    /// The lines of the sliders that give check: nothing but the king stands on them.
    pub open spec fn checks(self) -> Seq<Set<int>> {
        self.lines_upto(64, 1)
    }

    /// The lines of the sliders that pin a piece: one piece stands between them and the
    /// king.
    pub open spec fn pins(self) -> Seq<Set<int>> {
        self.lines_upto(64, 2)
    }

    /// The lists below `n` are short.
    pub proof fn lemma_upto_len(self, n: int, friends: nat)
        requires
            0 <= n,
        ensures
            self.melee_upto(n).len() <= n,
            self.lines_upto(n, friends).len() <= 2 * n,
        decreases n,
    {
        if n > 0 {
            self.lemma_upto_len(n - 1, friends);
        }
    }

    /// A knight or pawn that gives check from a square below `n` is in the list.
    pub proof fn lemma_melee_has(self, q: int, n: int)
        requires
            0 <= q < n,
            self.melee_at(q),
        ensures
            self.melee_upto(n).contains(set![q]),
        decreases n,
    {
        let rest = self.melee_upto(n - 1);
        if q == n - 1 {
            assert(rest.push(set![q])[rest.len() as int] == set![q]);
        } else {
            self.lemma_melee_has(q, n - 1);
            let i = choose|i: int| 0 <= i < rest.len() && rest[i] == set![q];
            if self.melee_at(n - 1) {
                assert(rest.push(set![n - 1])[i] == set![q]);
            }
        }
    }

    /// Every entry of the list of knights and pawns that give check is the square of one
    /// that does, and the squares go up along the list: the squares of two entries are
    /// given.
    pub proof fn lemma_melee_pair(self, n: int, i: int, j: int) -> (w: (int, int))
        requires
            0 <= i <= j < self.melee_upto(n).len(),
        ensures
            0 <= w.0 <= w.1 < n,
            i < j ==> w.0 < w.1,
            self.melee_at(w.0),
            self.melee_at(w.1),
            self.melee_upto(n)[i] == set![w.0],
            self.melee_upto(n)[j] == set![w.1],
        decreases n,
    {
        let rest = self.melee_upto(n - 1);
        if j < rest.len() {
            self.lemma_melee_pair(n - 1, i, j)
        } else if i < j {
            let w = self.lemma_melee_pair(n - 1, i, i);
            (w.0, n - 1)
        } else {
            (n - 1, n - 1)
        }
    }

    /// Every entry of a list of lines is the line of a slider that reaches the king, and
    /// the squares of the sliders go up along the list, a diagonal line before a straight
    /// one: the squares and families of two entries are given.
    pub proof fn lemma_lines_pair(self, n: int, friends: nat, i: int, j: int) -> (w: (
        int,
        int,
        int,
        int,
    ))
        requires
            0 <= i <= j < self.lines_upto(n, friends).len(),
        ensures
            0 <= w.0 <= w.2 < n,
            w.1 == 0 || w.1 == 1,
            w.3 == 0 || w.3 == 1,
            i < j ==> w.0 < w.2 || (w.0 == w.2 && w.1 < w.3),
            self.reaches_king(w.0, w.1, friends),
            self.reaches_king(w.2, w.3, friends),
            self.lines_upto(n, friends)[i] == self.line(w.0, w.1),
            self.lines_upto(n, friends)[j] == self.line(w.2, w.3),
        decreases n,
    {
        let rest = self.lines_upto(n - 1, friends);
        let here = self.lines_at(n - 1, friends);
        if j < rest.len() {
            self.lemma_lines_pair(n - 1, friends, i, j)
        } else {
            let b = self.lemma_lines_elem(n, friends, j);
            assert((rest + here)[j] == here[j - rest.len()]);
            if i < rest.len() {
                let a = self.lemma_lines_elem(n - 1, friends, i);
                assert((rest + here)[i] == rest[i]);
                (a.0, a.1, b.0, b.1)
            } else {
                let a = self.lemma_lines_elem(n, friends, i);
                assert((rest + here)[i] == here[i - rest.len()]);
                (a.0, a.1, b.0, b.1)
            }
        }
    }

    /// The line of a slider on a square below `n` that reaches the king is in the list
    /// for the number of pieces on it.
    pub proof fn lemma_lines_has(self, q: int, family: int, friends: nat, n: int)
        requires
            0 <= q < n,
            family == 0 || family == 1,
            self.reaches_king(q, family, friends),
        ensures
            self.lines_upto(n, friends).contains(self.line(q, family)),
        decreases n,
    {
        let rest = self.lines_upto(n - 1, friends);
        let here = self.lines_at(n - 1, friends);
        if q == n - 1 {
            if family == 0 {
                assert(here[0] == self.line(q, 0));
                assert((rest + here)[rest.len() as int] == self.line(q, 0));
            } else {
                let i = here.len() - 1;
                assert(here[i] == self.line(q, 1));
                assert((rest + here)[rest.len() + i] == self.line(q, 1));
            }
        } else {
            self.lemma_lines_has(q, family, friends, n - 1);
            let i = choose|i: int| 0 <= i < rest.len() && rest[i] == self.line(q, family);
            assert((rest + here)[i] == self.line(q, family));
        }
    }

    /// Every line in a list is the line of a slider that reaches the king with that
    /// number of pieces on it: the square and the family of one such slider are given.
    pub proof fn lemma_lines_elem(self, n: int, friends: nat, j: int) -> (w: (int, int))
        requires
            0 <= j < self.lines_upto(n, friends).len(),
        ensures
            0 <= w.0 < n,
            w.1 == 0 || w.1 == 1,
            self.reaches_king(w.0, w.1, friends),
            self.lines_upto(n, friends)[j] == self.line(w.0, w.1),
            j >= self.lines_upto(n - 1, friends).len() ==> w.0 == n - 1 && (w.1 == 0 <==> j
                == self.lines_upto(n - 1, friends).len() && self.reaches_king(
                n - 1,
                0,
                friends,
            )),
            j < self.lines_upto(n - 1, friends).len() ==> w.0 < n - 1,
        decreases n,
    {
        let rest = self.lines_upto(n - 1, friends);
        let here = self.lines_at(n - 1, friends);
        if j < rest.len() {
            self.lemma_lines_elem(n - 1, friends, j)
        } else {
            let i = j - rest.len();
            assert((rest + here)[j] == here[i]);
            if self.reaches_king(n - 1, 0, friends) && i == 0 {
                (n - 1, 0)
            } else {
                (n - 1, 1)
            }
        }
    }

    /// Squares without a piece of the side not to move add nothing to the lists.
    pub proof fn lemma_upto_skip(self, n: int, m: int, friends: nat)
        requires
            0 <= n <= m,
            forall|q: int| n <= q < m ==> self.board.color_at(q) != Some(self.them()),
        ensures
            self.melee_upto(m) == self.melee_upto(n),
            self.lines_upto(m, friends) == self.lines_upto(n, friends),
        decreases m - n,
    {
        if n < m {
            self.lemma_upto_skip(n, m - 1, friends);
            assert(self.board.color_at(m - 1) != Some(self.them()));
            assert(self.lines_at(m - 1, friends) =~= Seq::empty());
            assert(self.lines_upto(m, friends) =~= self.lines_upto(m - 1, friends));
        }
    }
}

/// The masks mark the given sets, one by one.
pub open spec fn same_sets(masks: Seq<u64>, sets: Seq<Set<int>>) -> bool {
    &&& masks.len() == sets.len()
    &&& forall|j: int| 0 <= j < masks.len() ==> squares(#[trigger] masks[j]) == sets[j]
}

} // verus!
