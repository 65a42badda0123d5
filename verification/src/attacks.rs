use vstd::prelude::*;
use crate::bitboard::BitBoard;
use crate::coord::{file_of, rank_of, shift, shifted, step, Direction, Square};
use crate::pieces::{Piece, Team};
use crate::position::Position;
use crate::rules::{
    attacked, attacker, attacks, bishop_line, distance, in_check, king_attacked_on, king_step,
    knight_jump, occupied, pawn_attack, ray_clear, ray_on_board, ray_square, rook_line,
    scale, slides,
};

verus! {

/// A square on a ray lies on the board, as far from the origin as steps were
/// taken, and at most seven steps away.
pub proof fn lemma_ray_square(o: int, dir: Direction, k: int)
    requires
        0 <= o < 64,
        0 <= k,
        ray_on_board(o, dir, k),
    ensures
        k <= 7,
        0 <= ray_square(o, dir, k) < 64,
        rank_of(ray_square(o, dir, k)) == rank_of(o) + scale(dir.dr(), k),
        file_of(ray_square(o, dir, k)) == file_of(o) + scale(dir.df(), k),
        distance(o, ray_square(o, dir, k)) == k,
{
}

/// A ray that is on the board after `m` steps was on it after any fewer.
pub proof fn lemma_ray_convex(o: int, dir: Direction, k: int, m: int)
    requires
        0 <= o < 64,
        0 <= k <= m,
        ray_on_board(o, dir, m),
    ensures
        ray_on_board(o, dir, k),
{
}

/// The squares that a piece sliding from `origin` in direction `dir` reaches
/// when the squares of `occ` are occupied: each free square of the ray up to
/// the first occupied one, and that one too.
pub fn ray_attacks(occ: BitBoard, origin: Square, dir: Direction) -> (r: BitBoard)
    ensures
        forall|d: int| r@.contains(d) <==> origin.valid() && slides(occ@, origin.index(), dir, d),
{
    let mut r = BitBoard::new();
    if !origin.is_valid() {
        return r;
    }
    let ghost o = origin.index();
    let mut cur = origin;
    let mut n: usize = 0;
    let mut done = false;
    while !done
        invariant
            origin.valid(),
            o == origin.index(),
            n <= 7,
            cur.valid(),
            cur.rank == rank_of(o) + scale(dir.dr(), n as int),
            cur.file == file_of(o) + scale(dir.df(), n as int),
            !done ==> forall|k: int|
                1 <= k <= n ==> !occ@.contains(#[trigger] ray_square(o, dir, k)),
            !done ==> forall|d: int|
                r@.contains(d) <==> (1 <= distance(o, d) <= n && ray_on_board(
                    o,
                    dir,
                    distance(o, d),
                ) && ray_square(o, dir, distance(o, d)) == d),
            done ==> forall|d: int| r@.contains(d) <==> slides(occ@, o, dir, d),
        decreases
                (if done {
                    0int
                } else {
                    8 - n
                }),
    {
        let ghost before = r;
        match step(cur, dir) {
            None => {
                proof {
                    assert(!ray_on_board(o, dir, n + 1));
                    assert forall|d: int| r@.contains(d) <==> slides(occ@, o, dir, d) by {
                        let m = distance(o, d);
                        if slides(occ@, o, dir, d) {
                            if m > n {
                                lemma_ray_convex(o, dir, n + 1, m);
                            }
                        }
                        if r@.contains(d) {
                            assert(ray_clear(occ@, o, dir, m));
                        }
                    }
                }
                done = true;
            },
            Some(next) => {
                let idx = next.rank * 8 + next.file;
                proof {
                    assert(ray_on_board(o, dir, n + 1));
                    assert(idx == ray_square(o, dir, n + 1));
                    lemma_ray_square(o, dir, n + 1);
                }
                r = r.with(idx);
                if occ.holds(idx) {
                    proof {
                        assert forall|d: int| r@.contains(d) <==> slides(occ@, o, dir, d) by {
                            let m = distance(o, d);
                            if slides(occ@, o, dir, d) {
                                if m > n + 1 {
                                    assert(!occ@.contains(ray_square(o, dir, n + 1)));
                                }
                            }
                            if before@.contains(d) {
                                assert(ray_clear(occ@, o, dir, m));
                            }
                            if d == idx {
                                assert(ray_clear(occ@, o, dir, n + 1));
                            }
                        }
                    }
                    done = true;
                } else {
                    cur = next;
                    n = n + 1;
                }
            },
        }
    }
    r
}

/// `r` with the square `dr` ranks and `df` files from `origin` added, where
/// that square lies on the board.
fn with_shift(r: BitBoard, origin: Square, dr: i8, df: i8) -> (out: BitBoard)
    ensures
        out@ == match shifted(origin, dr as int, df as int) {
            Some(s) => r@.insert(s.index()),
            None => r@,
        },
{
    match shift(origin, dr, df) {
        Some(s) => r.with(s.rank * 8 + s.file),
        None => r,
    }
}

/// The square `dr` ranks and `df` files from `origin` is `d` exactly when
/// the coordinates of `d` differ from those of `origin` by `dr` and `df`.
proof fn lemma_shift_target(origin: Square, dr: int, df: int, d: int)
    requires
        origin.valid(),
        0 <= d < 64,
    ensures
        (shifted(origin, dr, df) matches Some(s) && s.index() == d) <==> (rank_of(d)
            == origin.rank + dr && file_of(d) == origin.file + df),
        rank_of(origin.index()) == origin.rank,
        file_of(origin.index()) == origin.file,
{
}

/// The squares a knight's jump away from `origin`.
pub fn knight_attacks(origin: Square) -> (r: BitBoard)
    ensures
        forall|d: int|
            r@.contains(d) <==> origin.valid() && 0 <= d < 64 && knight_jump(origin.index(), d),
{
    let r = BitBoard::new();
    let r = with_shift(r, origin, 2, 1);
    let r = with_shift(r, origin, 2, -1);
    let r = with_shift(r, origin, -2, 1);
    let r = with_shift(r, origin, -2, -1);
    let r = with_shift(r, origin, 1, 2);
    let r = with_shift(r, origin, 1, -2);
    let r = with_shift(r, origin, -1, 2);
    let r = with_shift(r, origin, -1, -2);
    proof {
        assert forall|d: int|
            r@.contains(d) <==> origin.valid() && 0 <= d < 64 && knight_jump(
                origin.index(),
                d,
            ) by {
            if origin.valid() && 0 <= d < 64 {
                lemma_shift_target(origin, 2, 1, d);
                lemma_shift_target(origin, 2, -1, d);
                lemma_shift_target(origin, -2, 1, d);
                lemma_shift_target(origin, -2, -1, d);
                lemma_shift_target(origin, 1, 2, d);
                lemma_shift_target(origin, 1, -2, d);
                lemma_shift_target(origin, -1, 2, d);
                lemma_shift_target(origin, -1, -2, d);
            }
        }
    }
    r
}

/// The squares next to `origin`.
pub fn king_attacks(origin: Square) -> (r: BitBoard)
    ensures
        forall|d: int|
            r@.contains(d) <==> origin.valid() && 0 <= d < 64 && king_step(origin.index(), d),
{
    let r = BitBoard::new();
    let r = with_shift(r, origin, 1, 0);
    let r = with_shift(r, origin, -1, 0);
    let r = with_shift(r, origin, 0, 1);
    let r = with_shift(r, origin, 0, -1);
    let r = with_shift(r, origin, 1, 1);
    let r = with_shift(r, origin, 1, -1);
    let r = with_shift(r, origin, -1, 1);
    let r = with_shift(r, origin, -1, -1);
    proof {
        assert forall|d: int|
            r@.contains(d) <==> origin.valid() && 0 <= d < 64 && king_step(origin.index(), d) by {
            if origin.valid() && 0 <= d < 64 {
                lemma_shift_target(origin, 1, 0, d);
                lemma_shift_target(origin, -1, 0, d);
                lemma_shift_target(origin, 0, 1, d);
                lemma_shift_target(origin, 0, -1, d);
                lemma_shift_target(origin, 1, 1, d);
                lemma_shift_target(origin, 1, -1, d);
                lemma_shift_target(origin, -1, 1, d);
                lemma_shift_target(origin, -1, -1, d);
            }
        }
    }
    r
}

/// The squares that a pawn of `team` on `origin` attacks.
pub fn pawn_attacks(team: Team, origin: Square) -> (r: BitBoard)
    ensures
        forall|d: int|
            r@.contains(d) <==> origin.valid() && 0 <= d < 64 && pawn_attack(
                team,
                origin.index(),
                d,
            ),
{
    let r = BitBoard::new();
    let r = with_shift(r, origin, team.advance(), 1);
    let r = with_shift(r, origin, team.advance(), -1);
    r
}

/// The squares that a rook on `origin` attacks when the squares of `occ` are occupied.
pub fn rook_attacks(occ: BitBoard, origin: Square) -> (r: BitBoard)
    ensures
        forall|d: int| r@.contains(d) <==> origin.valid() && rook_line(occ@, origin.index(), d),
{
    let n = ray_attacks(occ, origin, Direction::North);
    let s = ray_attacks(occ, origin, Direction::South);
    let e = ray_attacks(occ, origin, Direction::East);
    let w = ray_attacks(occ, origin, Direction::West);
    n.or(s).or(e.or(w))
}

/// The squares that a bishop on `origin` attacks when the squares of `occ` are occupied.
pub fn bishop_attacks(occ: BitBoard, origin: Square) -> (r: BitBoard)
    ensures
        forall|d: int| r@.contains(d) <==> origin.valid() && bishop_line(occ@, origin.index(), d),
{
    let ne = ray_attacks(occ, origin, Direction::NorthEast);
    let nw = ray_attacks(occ, origin, Direction::NorthWest);
    let se = ray_attacks(occ, origin, Direction::SouthEast);
    let sw = ray_attacks(occ, origin, Direction::SouthWest);
    ne.or(nw).or(se.or(sw))
}

/// The squares that a piece of side `team` and kind `piece` on `origin`
/// attacks when the squares of `occ` are occupied. Nothing is attacked from a
/// square off the board.
pub fn attacks_from(occ: BitBoard, team: Team, piece: Piece, origin: Square) -> (r: BitBoard)
    ensures
        forall|d: int|
            r@.contains(d) <==> origin.valid() && attacks(occ@, team, piece, origin.index(), d),
{
    let r = match piece {
        Piece::Rook => rook_attacks(occ, origin),
        Piece::Bishop => bishop_attacks(occ, origin),
        Piece::Queen => rook_attacks(occ, origin).or(bishop_attacks(occ, origin)),
        Piece::Knight => knight_attacks(origin),
        Piece::King => king_attacks(origin),
        Piece::Pawn => pawn_attacks(team, origin),
    };
    proof {
        assert forall|d: int| r@.contains(d) implies 0 <= d < 64 by {}
    }
    r
}

impl Position {
    /// Whether some piece of side `by` attacks `square`, on masks that agree.
    pub(crate) fn attacked_by(&self, square: Square, by: Team) -> (r: bool)
        requires
            self.masks_agree(),
        ensures
            r == (square.valid() && attacked(self@.board, square.index(), by)),
    {
        if !square.is_valid() {
            return false;
        }
        let target = square.rank * 8 + square.file;
        let occ = self.all_mask();
        let mut o: usize = 0;
        while o < 64
            invariant
                o <= 64,
                self.masks_agree(),
                square.valid(),
                target == square.index(),
                occ@ == occupied(self@.board),
                forall|k: int| 0 <= k < o ==> !attacker(self@.board, by, k, target as int),
            decreases 64 - o,
        {
            match self.kind_on(by, o) {
                Some(p) => {
                    let from = Square::new(o / 8, o % 8);
                    if attacks_from(occ, by, p, from).holds(target) {
                        proof {
                            assert(attacker(self@.board, by, o as int, target as int));
                        }
                        return true;
                    }
                },
                None => {},
            }
            o = o + 1;
        }
        false
    }

    /// Whether a king of side `team` is attacked, on masks that agree.
    pub(crate) fn king_attacked(&self, team: Team) -> (r: bool)
        requires
            self.masks_agree(),
        ensures
            r == in_check(self@.board, team),
    {
        let kings = self.kind_mask(team, Piece::King);
        let mut k: usize = 0;
        while k < 64
            invariant
                k <= 64,
                self.masks_agree(),
                kings@ == crate::rules::stands(self@.board, team, Piece::King),
                forall|j: int| 0 <= j < k ==> !king_attacked_on(self@.board, team, j),
            decreases 64 - k,
        {
            if kings.holds(k) {
                if self.attacked_by(Square::new(k / 8, k % 8), team.opponent()) {
                    proof {
                        assert(king_attacked_on(self@.board, team, k as int));
                    }
                    return true;
                }
            }
            k = k + 1;
        }
        false
    }

    /// Whether some piece of side `by` attacks `square`. No square off the
    /// board is attacked.
    pub fn is_square_attacked(&self, square: Square, by: Team) -> (r: bool)
        requires
            self.wf(),
        ensures
            r == (square.valid() && attacked(self@.board, square.index(), by)),
    {
        proof {
            self.lemma_wf();
        }
        self.attacked_by(square, by)
    }

    /// Whether a king of side `team` is attacked.
    pub fn in_check(&self, team: Team) -> (r: bool)
        requires
            self.wf(),
        ensures
            r == in_check(self@.board, team),
    {
        proof {
            self.lemma_wf();
        }
        self.king_attacked(team)
    }
}

} // verus!
