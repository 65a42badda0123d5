//! The rules of the game, stated over a plain model of the position: a
//! sequence of 64 cells and a few fields beside it. Nothing here runs; the
//! functions of the library are held to these definitions.

use vstd::prelude::*;
use crate::coord::{file_of, index_of, on_board, rank_of, Direction};
use crate::pieces::{Move, Piece, Special, Team};

verus! {

/// The castling rights of both sides.
#[derive(PartialEq, Eq, Structural, Clone, Copy, Debug, Hash)]
pub struct Rights {
    pub white_kingside: bool,
    pub white_queenside: bool,
    pub black_kingside: bool,
    pub black_queenside: bool,
}

impl Rights {
    /// Whether `t` may still castle with the rook on file 7.
    pub open spec fn kingside(self, t: Team) -> bool {
        match t {
            Team::White => self.white_kingside,
            Team::Black => self.black_kingside,
        }
    }

    /// Whether `t` may still castle with the rook on file 0.
    pub open spec fn queenside(self, t: Team) -> bool {
        match t {
            Team::White => self.white_queenside,
            Team::Black => self.black_queenside,
        }
    }

    /// Whether `t` may still castle with the rook on file 7.
    pub fn has_kingside(&self, t: Team) -> (b: bool)
        ensures
            b == self.kingside(t),
    {
        match t {
            Team::White => self.white_kingside,
            Team::Black => self.black_kingside,
        }
    }

    /// Whether `t` may still castle with the rook on file 0.
    pub fn has_queenside(&self, t: Team) -> (b: bool)
        ensures
            b == self.queenside(t),
    {
        match t {
            Team::White => self.white_queenside,
            Team::Black => self.black_queenside,
        }
    }
}

/// A position as the rules see it.
pub struct State {
    /// What stands on each of the 64 squares.
    pub board: Seq<Option<(Team, Piece)>>,
    /// The side to move.
    pub turn: Team,
    /// Who may still castle, and on which side.
    pub rights: Rights,
    /// The square a pawn has just passed over in a double push.
    pub en_passant: Option<int>,
    /// Plies since the last pawn move or capture.
    pub halfmove_clock: u32,
    /// The number of the move being played, counted from 1.
    pub fullmove_number: u32,
}

/// The squares on which something stands.
pub open spec fn occupied(board: Seq<Option<(Team, Piece)>>) -> Set<int> {
    Set::new(|i: int| 0 <= i < 64 && board[i] is Some)
}

/// The squares on which a piece of `t` stands.
pub open spec fn held_by(board: Seq<Option<(Team, Piece)>>, t: Team) -> Set<int> {
    Set::new(|i: int| 0 <= i < 64 && board[i] is Some && board[i].unwrap().0 == t)
}

/// The squares on which a piece of kind `p` of side `t` stands.
pub open spec fn stands(board: Seq<Option<(Team, Piece)>>, t: Team, p: Piece) -> Set<int> {
    Set::new(|i: int| 0 <= i < 64 && board[i] == Some((t, p)))
}

/// The distance between two coordinates.
pub open spec fn gap(a: int, b: int) -> int {
    if a >= b {
        a - b
    } else {
        b - a
    }
}

/// `n` steps of a unit `u`, which is 1, 0 or -1.
pub open spec fn scale(u: int, n: int) -> int {
    if u > 0 {
        n
    } else if u < 0 {
        -n
    } else {
        0
    }
}

/// Whether `n` steps from `o` in direction `dir` stay on the board.
pub open spec fn ray_on_board(o: int, dir: Direction, n: int) -> bool {
    on_board(rank_of(o) + scale(dir.dr(), n), file_of(o) + scale(dir.df(), n))
}

/// The square `n` steps from `o` in direction `dir`.
pub open spec fn ray_square(o: int, dir: Direction, n: int) -> int {
    index_of(rank_of(o) + scale(dir.dr(), n), file_of(o) + scale(dir.df(), n))
}

/// Whether the squares less than `n` steps from `o` in direction `dir` are free.
pub open spec fn ray_clear(occ: Set<int>, o: int, dir: Direction, n: int) -> bool {
    forall|k: int| 1 <= k < n ==> !occ.contains(#[trigger] ray_square(o, dir, k))
}

/// Whether `d` lies `n` steps from `o` in direction `dir`, with nothing between.
pub open spec fn ray_hit(occ: Set<int>, o: int, dir: Direction, n: int, d: int) -> bool {
    &&& 1 <= n < 8
    &&& ray_on_board(o, dir, n)
    &&& ray_square(o, dir, n) == d
    &&& ray_clear(occ, o, dir, n)
}

/// How many king steps lie between `o` and `d`.
pub open spec fn distance(o: int, d: int) -> int {
    let a = gap(rank_of(o), rank_of(d));
    let b = gap(file_of(o), file_of(d));
    if a >= b {
        a
    } else {
        b
    }
}

/// Whether a piece sliding from `o` in direction `dir` reaches `d`: `d` lies
/// on that ray, and the squares before it are free.
pub open spec fn slides(occ: Set<int>, o: int, dir: Direction, d: int) -> bool {
    ray_hit(occ, o, dir, distance(o, d), d)
}

/// Whether a rook on `o` reaches `d`.
pub open spec fn rook_line(occ: Set<int>, o: int, d: int) -> bool {
    ||| slides(occ, o, Direction::North, d)
    ||| slides(occ, o, Direction::South, d)
    ||| slides(occ, o, Direction::East, d)
    ||| slides(occ, o, Direction::West, d)
}

/// Whether a bishop on `o` reaches `d`.
pub open spec fn bishop_line(occ: Set<int>, o: int, d: int) -> bool {
    ||| slides(occ, o, Direction::NorthEast, d)
    ||| slides(occ, o, Direction::NorthWest, d)
    ||| slides(occ, o, Direction::SouthEast, d)
    ||| slides(occ, o, Direction::SouthWest, d)
}

/// Whether `d` is a knight's jump from `o`.
pub open spec fn knight_jump(o: int, d: int) -> bool {
    let dr = gap(rank_of(o), rank_of(d));
    let df = gap(file_of(o), file_of(d));
    (dr == 1 && df == 2) || (dr == 2 && df == 1)
}

/// Whether `d` is next to `o`.
pub open spec fn king_step(o: int, d: int) -> bool {
    o != d && gap(rank_of(o), rank_of(d)) <= 1 && gap(file_of(o), file_of(d)) <= 1
}

/// Whether a pawn of `t` on `o` attacks `d`: one rank ahead, one file aside.
pub open spec fn pawn_attack(t: Team, o: int, d: int) -> bool {
    rank_of(d) == rank_of(o) + t.forward() && gap(file_of(o), file_of(d)) == 1
}

/// Whether a piece of kind `p` and side `t` on `o` attacks `d`, when the
/// squares in `occ` are occupied.
pub open spec fn attacks(occ: Set<int>, t: Team, p: Piece, o: int, d: int) -> bool {
    &&& 0 <= o < 64
    &&& 0 <= d < 64
    &&& match p {
        Piece::Rook => rook_line(occ, o, d),
        Piece::Bishop => bishop_line(occ, o, d),
        Piece::Queen => rook_line(occ, o, d) || bishop_line(occ, o, d),
        Piece::Knight => knight_jump(o, d),
        Piece::King => king_step(o, d),
        Piece::Pawn => pawn_attack(t, o, d),
    }
}

/// Whether a piece of `by` stands on `o` and attacks `d`.
pub open spec fn attacker(board: Seq<Option<(Team, Piece)>>, by: Team, o: int, d: int) -> bool {
    &&& 0 <= o < 64
    &&& board[o] matches Some(cell)
    &&& cell.0 == by
    &&& attacks(occupied(board), by, cell.1, o, d)
}

/// Whether some piece of `by` attacks `d`.
pub open spec fn attacked(board: Seq<Option<(Team, Piece)>>, d: int, by: Team) -> bool {
    exists|o: int| attacker(board, by, o, d)
}

/// Whether a king of `t` stands on `k` and is attacked.
pub open spec fn king_attacked_on(board: Seq<Option<(Team, Piece)>>, t: Team, k: int) -> bool {
    0 <= k < 64 && board[k] == Some((t, Piece::King)) && attacked(board, k, t.other())
}

/// Whether a king of `t` is attacked.
pub open spec fn in_check(board: Seq<Option<(Team, Piece)>>, t: Team) -> bool {
    exists|k: int| king_attacked_on(board, t, k)
}

/// Whether a piece of kind `p` and side `t` may go from `o` to `d`: it attacks
/// `d`, and no piece of its own side stands there.
pub open spec fn piece_move(
    board: Seq<Option<(Team, Piece)>>,
    t: Team,
    p: Piece,
    o: int,
    d: int,
) -> bool {
    attacks(occupied(board), t, p, o, d) && !held_by(board, t).contains(d)
}

/// Whether `special` is the right tag for a pawn of `t` that arrives on `d` by
/// a single push or a capture: a promotion on the last rank, nothing elsewhere.
pub open spec fn pawn_arrival(t: Team, d: int, special: Special) -> bool {
    if rank_of(d) == t.last_rank() {
        special matches Special::Promotion(k) && k.promotable()
    } else {
        special is Normal
    }
}

/// A pawn advances one rank onto a free square.
pub open spec fn pawn_push(s: State, m: Move) -> bool {
    &&& m.to() == m.from() + 8 * s.turn.forward()
    &&& 0 <= m.to() < 64
    &&& s.board[m.to()] is None
    &&& pawn_arrival(s.turn, m.to(), m.special)
}

/// A pawn advances two ranks from its starting rank over free squares.
pub open spec fn pawn_double_push(s: State, m: Move) -> bool {
    &&& m.special is DoublePawnPush
    &&& rank_of(m.from()) == s.turn.pawn_rank()
    &&& m.to() == m.from() + 16 * s.turn.forward()
    &&& s.board[m.from() + 8 * s.turn.forward()] is None
    &&& s.board[m.to()] is None
}

/// A pawn takes an enemy piece on a square it attacks.
pub open spec fn pawn_capture(s: State, m: Move) -> bool {
    &&& pawn_attack(s.turn, m.from(), m.to())
    &&& held_by(s.board, s.turn.other()).contains(m.to())
    &&& pawn_arrival(s.turn, m.to(), m.special)
}

/// The square of the pawn that an en-passant capture `m` removes: on the
/// rank the capturing pawn leaves, on the file it arrives on.
pub open spec fn passed_pawn_square(m: Move) -> int {
    index_of(rank_of(m.from()), file_of(m.to()))
}

/// A pawn takes, on the en-passant target, the enemy pawn that has just passed it.
pub open spec fn pawn_en_passant(s: State, m: Move) -> bool {
    &&& m.special is EnPassantCapture
    &&& pawn_attack(s.turn, m.from(), m.to())
    &&& s.en_passant == Some(m.to())
    &&& s.board[m.to()] is None
    &&& s.board[passed_pawn_square(m)] == Some((s.turn.other(), Piece::Pawn))
}

/// Whether `m` is a move of the pawn on its origin.
pub open spec fn pawn_move(s: State, m: Move) -> bool {
    ||| pawn_push(s, m)
    ||| pawn_double_push(s, m)
    ||| pawn_capture(s, m)
    ||| pawn_en_passant(s, m)
}

/// Castling with the rook on file 7: the right is there, the two squares
/// between king and rook are free, and the king neither stands on, passes
/// over nor arrives on an attacked square.
pub open spec fn castle_kingside(s: State, m: Move) -> bool {
    let h = s.turn.home_rank();
    &&& m.special is CastleKingside
    &&& m.from() == index_of(h, 4)
    &&& m.to() == index_of(h, 6)
    &&& s.rights.kingside(s.turn)
    &&& s.board[index_of(h, 5)] is None
    &&& s.board[index_of(h, 6)] is None
    &&& !attacked(s.board, index_of(h, 4), s.turn.other())
    &&& !attacked(s.board, index_of(h, 5), s.turn.other())
    &&& !attacked(s.board, index_of(h, 6), s.turn.other())
}

/// Castling with the rook on file 0: the right is there, the three squares
/// between king and rook are free, and the king neither stands on, passes
/// over nor arrives on an attacked square.
pub open spec fn castle_queenside(s: State, m: Move) -> bool {
    let h = s.turn.home_rank();
    &&& m.special is CastleQueenside
    &&& m.from() == index_of(h, 4)
    &&& m.to() == index_of(h, 2)
    &&& s.rights.queenside(s.turn)
    &&& s.board[index_of(h, 1)] is None
    &&& s.board[index_of(h, 2)] is None
    &&& s.board[index_of(h, 3)] is None
    &&& !attacked(s.board, index_of(h, 4), s.turn.other())
    &&& !attacked(s.board, index_of(h, 3), s.turn.other())
    &&& !attacked(s.board, index_of(h, 2), s.turn.other())
}

/// Whether `m` is a move of the king on its origin.
pub open spec fn king_move(s: State, m: Move) -> bool {
    ||| m.special is Normal && piece_move(s.board, s.turn, Piece::King, m.from(), m.to())
    ||| castle_kingside(s, m)
    ||| castle_queenside(s, m)
}

/// Whether `m` is pseudo-legal in `s`: a piece of the side to move stands on
/// its origin and may move as `m` says, whatever becomes of its king.
pub open spec fn pseudo_legal(s: State, m: Move) -> bool {
    &&& m.valid()
    &&& s.board[m.from()] matches Some(cell)
    &&& cell.0 == s.turn
    &&& match cell.1 {
        Piece::Pawn => pawn_move(s, m),
        Piece::King => king_move(s, m),
        p => m.special is Normal && piece_move(s.board, s.turn, p, m.from(), m.to()),
    }
}

/// A counter one higher, unless it already holds the largest value it can.
pub open spec fn bump(n: u32) -> u32 {
    if n < u32::MAX {
        (n + 1) as u32
    } else {
        n
    }
}

/// What `m` stands on its destination when side `t` plays it: the promoted
/// kind in a promotion, else whatever stood on the origin.
pub open spec fn placed(board: Seq<Option<(Team, Piece)>>, t: Team, m: Move) -> Option<
    (Team, Piece),
> {
    match m.special {
        Special::Promotion(k) => Some((t, k)),
        _ => board[m.from()],
    }
}

/// The board once the origin of `m` is cleared and its destination holds
/// what `m` stands there, in place of what stood there.
pub open spec fn relocated(board: Seq<Option<(Team, Piece)>>, t: Team, m: Move) -> Seq<
    Option<(Team, Piece)>,
> {
    board.update(m.from(), None).update(m.to(), placed(board, t, m))
}

/// The board after `m`, for the side `t` to move. The piece on the origin goes
/// to the destination (as the promoted kind, in a promotion) and replaces what
/// stood there; an en-passant capture also removes the passed pawn, and
/// castling also brings the rook to the king's other side.
pub open spec fn board_after(board: Seq<Option<(Team, Piece)>>, t: Team, m: Move) -> Seq<
    Option<(Team, Piece)>,
> {
    let moved = relocated(board, t, m);
    let h = rank_of(m.from());
    match m.special {
        Special::EnPassantCapture => moved.update(passed_pawn_square(m), None),
        Special::CastleKingside => moved.update(index_of(h, 7), None).update(
            index_of(h, 5),
            Some((t, Piece::Rook)),
        ),
        Special::CastleQueenside => moved.update(index_of(h, 0), None).update(
            index_of(h, 3),
            Some((t, Piece::Rook)),
        ),
        _ => moved,
    }
}

/// Whether king and rook of `t` stand where castling needs them: the king on
/// file 4 of the home rank, the rook on file `rook_file`.
pub open spec fn home_intact(board: Seq<Option<(Team, Piece)>>, t: Team, rook_file: int) -> bool {
    &&& board[index_of(t.home_rank(), 4)] == Some((t, Piece::King))
    &&& board[index_of(t.home_rank(), rook_file)] == Some((t, Piece::Rook))
}

/// The rights that are left on `board`: each right of `rights` whose king and
/// rook still stand on their first squares.
pub open spec fn rights_left(rights: Rights, board: Seq<Option<(Team, Piece)>>) -> Rights {
    Rights {
        white_kingside: rights.white_kingside && home_intact(board, Team::White, 7),
        white_queenside: rights.white_queenside && home_intact(board, Team::White, 0),
        black_kingside: rights.black_kingside && home_intact(board, Team::Black, 7),
        black_queenside: rights.black_queenside && home_intact(board, Team::Black, 0),
    }
}

/// Whether `m` moves a pawn or takes something, which restarts the halfmove clock.
pub open spec fn resets_clock(s: State, m: Move) -> bool {
    ||| s.board[m.from()] matches Some(cell) && cell.1 is Pawn
    ||| s.board[m.to()] is Some
    ||| m.special is EnPassantCapture
}

/// The position after `m` is played in `s`.
pub open spec fn after(s: State, m: Move) -> State {
    let board = board_after(s.board, s.turn, m);
    State {
        board,
        turn: s.turn.other(),
        rights: rights_left(s.rights, board),
        en_passant: if m.special is DoublePawnPush {
            Some((m.from() + m.to()) / 2)
        } else {
            None
        },
        halfmove_clock: if resets_clock(s, m) {
            0
        } else {
            bump(s.halfmove_clock)
        },
        fullmove_number: if s.turn is Black {
            bump(s.fullmove_number)
        } else {
            s.fullmove_number
        },
    }
}

/// Whether the side to move in `s` has no king attacked once `m` is played.
pub open spec fn king_safe(s: State, m: Move) -> bool {
    !in_check(board_after(s.board, s.turn, m), s.turn)
}

/// Whether `m` is legal in `s`: pseudo-legal, and it leaves the mover's king unattacked.
pub open spec fn legal(s: State, m: Move) -> bool {
    pseudo_legal(s, m) && king_safe(s, m)
}

/// Whether `target` is an en-passant target that the board bears out when
/// side `t` is to move: a free square on the third rank of the other side,
/// with a pawn of that side just beyond it.
pub open spec fn passed_over(board: Seq<Option<(Team, Piece)>>, t: Team, target: int) -> bool {
    let pusher = t.other();
    &&& rank_of(target) == pusher.pawn_rank() + pusher.forward()
    &&& 0 <= target < 64
    &&& board[target] is None
    &&& board[target + 8 * pusher.forward()] == Some((pusher, Piece::Pawn))
}

impl State {
    /// What every position satisfies: 64 cells, an en-passant target only
    /// behind a pawn that may just have made a double push, and no castling
    /// right without king and rook on their first squares.
    pub open spec fn wf(self) -> bool {
        &&& self.board.len() == 64
        &&& self.en_passant matches Some(i) ==> passed_over(self.board, self.turn, i)
        &&& rights_left(self.rights, self.board) == self.rights
    }
}

/// The kind of piece that starts on file `f` of a back rank.
pub open spec fn back_rank_piece(f: int) -> Piece {
    if f == 0 || f == 7 {
        Piece::Rook
    } else if f == 1 || f == 6 {
        Piece::Knight
    } else if f == 2 || f == 5 {
        Piece::Bishop
    } else if f == 3 {
        Piece::Queen
    } else {
        Piece::King
    }
}

/// What stands on square `i` when the game starts: Black on ranks 0 and 1,
/// White on ranks 6 and 7, each king on file 4 and each queen on file 3.
pub open spec fn initial_cell(i: int) -> Option<(Team, Piece)> {
    let r = rank_of(i);
    if r == 0 {
        Some((Team::Black, back_rank_piece(file_of(i))))
    } else if r == 1 {
        Some((Team::Black, Piece::Pawn))
    } else if r == 6 {
        Some((Team::White, Piece::Pawn))
    } else if r == 7 {
        Some((Team::White, back_rank_piece(file_of(i))))
    } else {
        None
    }
}

/// The position from which a game starts.
pub open spec fn initial_state() -> State {
    State {
        board: Seq::new(64, |i: int| initial_cell(i)),
        turn: Team::White,
        rights: Rights {
            white_kingside: true,
            white_queenside: true,
            black_kingside: true,
            black_queenside: true,
        },
        en_passant: None,
        halfmove_clock: 0,
        fullmove_number: 1,
    }
}

/// The starting position is well formed.
pub proof fn lemma_initial_state_wf()
    ensures
        initial_state().wf(),
{
    let s = initial_state();
    assert(s.board[0] == initial_cell(0));
    assert(s.board[4] == initial_cell(4));
    assert(s.board[7] == initial_cell(7));
    assert(s.board[56] == initial_cell(56));
    assert(s.board[60] == initial_cell(60));
    assert(s.board[63] == initial_cell(63));
}

} // verus!
