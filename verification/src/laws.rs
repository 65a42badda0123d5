//! What holds of the rules and of the functions that follow them, stated
//! over the model and proved.

use vstd::prelude::*;
use crate::coord::{
    index_of, lemma_index_round_trip, lemma_square_round_trip, rank_of, square_of, Square,
};
use crate::error::CoreError;
use crate::legality::{legal_moves_outcome, lemma_double_push_is_pawn};
use crate::movegen::{
    in_order, lemma_in_order_no_duplicates, listing_key, pseudo_legal_moves_outcome,
};
use crate::pieces::{Move, Piece, Special, Team};
use crate::rules::{
    after, attacked, gap, held_by, in_check, king_safe, legal, occupied, passed_pawn_square,
    pseudo_legal, stands, Rights, State,
};

verus! {

/// Once a legal move is played, no king of the side that played it is attacked.
pub proof fn lemma_legal_move_keeps_king_safe(s: State, m: Move)
    requires
        legal(s, m),
    ensures
        !in_check(after(s, m).board, s.turn),
{
}

/// The square half way between the two squares of `m`: the square that a
/// double push passes over.
pub open spec fn midway(m: Move) -> int {
    (m.from() + m.to()) / 2
}

/// The en-passant capture that answers the double push `m` from square `x`.
pub open spec fn en_passant_reply(m: Move, x: Square) -> Move {
    Move { original_pos: x, to_pos: square_of(midway(m)), special: Special::EnPassantCapture }
}

/// After a double push that ends beside an enemy pawn, on the same rank, that
/// pawn may take en passant onto the square passed over. The capture is
/// pseudo-legal; it is legal where it leaves its own king unattacked.
pub proof fn lemma_double_push_offers_en_passant(s: State, m: Move, x: Square)
    requires
        s.wf(),
        pseudo_legal(s, m),
        m.special is DoublePawnPush,
        x.valid(),
        x.rank == m.to_pos.rank,
        gap(x.file as int, m.to_pos.file as int) == 1,
        after(s, m).board[x.index()] == Some((s.turn.other(), Piece::Pawn)),
    ensures
        pseudo_legal(after(s, m), en_passant_reply(m, x)),
        king_safe(after(s, m), en_passant_reply(m, x)) ==> legal(
            after(s, m),
            en_passant_reply(m, x),
        ),
{
    lemma_double_push_is_pawn(s, m);
    lemma_square_round_trip(m.original_pos);
    lemma_square_round_trip(m.to_pos);
    lemma_square_round_trip(x);
    lemma_index_round_trip(midway(m));
}

/// An en-passant capture is pseudo-legal right after a move only if that
/// move was a double push, and only onto the square that it passed over: the
/// chance comes with the double push and goes with the next move.
pub proof fn lemma_en_passant_needs_double_push(s: State, m: Move, e: Move)
    requires
        pseudo_legal(after(s, m), e),
        e.special is EnPassantCapture,
    ensures
        m.special is DoublePawnPush,
        e.to() == midway(m),
{
}

/// A move that is not a double push leaves no en-passant capture to the reply.
pub proof fn lemma_en_passant_chance_passes(s: State, m: Move, e: Move)
    requires
        !(m.special is DoublePawnPush),
        e.special is EnPassantCapture,
    ensures
        !pseudo_legal(after(s, m), e),
{
}

/// The chance does not come back: two plies after a double push that was not
/// answered en passant, no en-passant capture onto the square it passed over
/// is pseudo-legal, whatever the two moves between were.
pub proof fn lemma_en_passant_only_at_once(s: State, m: Move, reply: Move, next: Move, e: Move)
    requires
        s.wf(),
        pseudo_legal(s, m),
        m.special is DoublePawnPush,
        pseudo_legal(after(s, m), reply),
        pseudo_legal(after(after(s, m), reply), next),
        e.special is EnPassantCapture,
        e.to() == midway(m),
    ensures
        !pseudo_legal(after(after(after(s, m), reply), next), e),
{
    let s2 = after(s, m);
    let s3 = after(s2, reply);
    let s4 = after(s3, next);
    lemma_double_push_is_pawn(s, m);
    lemma_square_round_trip(m.original_pos);
    lemma_square_round_trip(m.to_pos);
    lemma_square_round_trip(reply.original_pos);
    lemma_square_round_trip(reply.to_pos);
    assert(s2.board[m.from()] is None);
    assert(s3.board[m.from()] != Some((s.turn, Piece::Pawn)));
    if pseudo_legal(s4, e) {
        lemma_en_passant_needs_double_push(s3, next, e);
        lemma_double_push_is_pawn(s3, next);
        lemma_square_round_trip(next.original_pos);
        lemma_square_round_trip(next.to_pos);
        assert(next.from() == m.from());
    }
}

/// An en-passant capture removes the pawn that passed, which stands beside
/// the capturing pawn and not on the destination. The destination was free;
/// the capturing pawn now stands there; every other square is as it was.
pub proof fn lemma_en_passant_removes_passed_pawn(s: State, e: Move)
    requires
        s.wf(),
        pseudo_legal(s, e),
        e.special is EnPassantCapture,
    ensures
        s.board[e.to()] is None,
        passed_pawn_square(e) != e.to(),
        s.board[passed_pawn_square(e)] == Some((s.turn.other(), Piece::Pawn)),
        after(s, e).board[passed_pawn_square(e)] is None,
        after(s, e).board[e.to()] == Some((s.turn, Piece::Pawn)),
        after(s, e).board[e.from()] is None,
        forall|i: int|
            0 <= i < 64 && i != e.from() && i != e.to() && i != passed_pawn_square(e) ==> after(
                s,
                e,
            ).board[i] == s.board[i],
{
    lemma_square_round_trip(e.original_pos);
    lemma_square_round_trip(e.to_pos);
}

/// A pawn move that ends on the last rank is a promotion, and it comes in
/// four: between its two squares, the pseudo-legal moves are the promotions
/// to queen, rook, bishop and knight and no other.
pub proof fn lemma_promotion_comes_in_four(s: State, m: Move)
    requires
        s.wf(),
        pseudo_legal(s, m),
        s.board[m.from()] == Some((s.turn, Piece::Pawn)),
        rank_of(m.to()) == s.turn.last_rank(),
    ensures
        forall|special: Special| #[trigger]
            pseudo_legal(s, Move { original_pos: m.original_pos, to_pos: m.to_pos, special })
                <==> (special matches Special::Promotion(k) && k.promotable()),
        pseudo_legal(
            s,
            Move {
                original_pos: m.original_pos,
                to_pos: m.to_pos,
                special: Special::Promotion(Piece::Queen),
            },
        ),
        pseudo_legal(
            s,
            Move {
                original_pos: m.original_pos,
                to_pos: m.to_pos,
                special: Special::Promotion(Piece::Rook),
            },
        ),
        pseudo_legal(
            s,
            Move {
                original_pos: m.original_pos,
                to_pos: m.to_pos,
                special: Special::Promotion(Piece::Bishop),
            },
        ),
        pseudo_legal(
            s,
            Move {
                original_pos: m.original_pos,
                to_pos: m.to_pos,
                special: Special::Promotion(Piece::Knight),
            },
        ),
        !pseudo_legal(
            s,
            Move { original_pos: m.original_pos, to_pos: m.to_pos, special: Special::Normal },
        ),
{
    lemma_square_round_trip(m.original_pos);
    lemma_square_round_trip(m.to_pos);
}

/// The move by which the king of side `t` castles with the rook on file 7.
pub open spec fn kingside_castle(t: Team) -> Move {
    Move {
        original_pos: Square { rank: t.home_rank() as usize, file: 4 },
        to_pos: Square { rank: t.home_rank() as usize, file: 6 },
        special: Special::CastleKingside,
    }
}

/// The move by which the king of side `t` castles with the rook on file 0.
pub open spec fn queenside_castle(t: Team) -> Move {
    Move {
        original_pos: Square { rank: t.home_rank() as usize, file: 4 },
        to_pos: Square { rank: t.home_rank() as usize, file: 2 },
        special: Special::CastleQueenside,
    }
}

/// With the king of the side to move on its first square, castling on the
/// king's side is a candidate exactly when the right is there, both squares
/// between king and rook are free, and none of the three squares of the
/// king's way is attacked. Where any one of these fails, the candidate is gone.
pub proof fn lemma_kingside_castle_candidate(s: State)
    requires
        s.wf(),
        s.board[index_of(s.turn.home_rank(), 4)] == Some((s.turn, Piece::King)),
    ensures
        pseudo_legal(s, kingside_castle(s.turn)) <==> {
            let h = s.turn.home_rank();
            &&& s.rights.kingside(s.turn)
            &&& s.board[index_of(h, 5)] is None
            &&& s.board[index_of(h, 6)] is None
            &&& !attacked(s.board, index_of(h, 4), s.turn.other())
            &&& !attacked(s.board, index_of(h, 5), s.turn.other())
            &&& !attacked(s.board, index_of(h, 6), s.turn.other())
        },
{
}

/// With the king of the side to move on its first square, castling on the
/// queen's side is a candidate exactly when the right is there, the three
/// squares between king and rook are free, and none of the three squares of
/// the king's way is attacked. Where any one of these fails, the candidate is gone.
pub proof fn lemma_queenside_castle_candidate(s: State)
    requires
        s.wf(),
        s.board[index_of(s.turn.home_rank(), 4)] == Some((s.turn, Piece::King)),
    ensures
        pseudo_legal(s, queenside_castle(s.turn)) <==> {
            let h = s.turn.home_rank();
            &&& s.rights.queenside(s.turn)
            &&& s.board[index_of(h, 1)] is None
            &&& s.board[index_of(h, 2)] is None
            &&& s.board[index_of(h, 3)] is None
            &&& !attacked(s.board, index_of(h, 4), s.turn.other())
            &&& !attacked(s.board, index_of(h, 3), s.turn.other())
            &&& !attacked(s.board, index_of(h, 2), s.turn.other())
        },
{
}

/// A castling move is a candidate only from the king's first square to the
/// square two files away, so each side has at most one candidate on each wing.
pub proof fn lemma_castle_candidates_are_fixed(s: State, m: Move)
    requires
        pseudo_legal(s, m),
        m.special is CastleKingside || m.special is CastleQueenside,
    ensures
        m.special is CastleKingside ==> m == kingside_castle(s.turn),
        m.special is CastleQueenside ==> m == queenside_castle(s.turn),
{
    lemma_square_round_trip(m.original_pos);
    lemma_square_round_trip(m.to_pos);
}

/// The castling rights matter to the castling moves and to no other: two
/// states that differ in their rights alone have the same candidates among
/// the moves that are not castling, and the same candidate on a wing where
/// the side to move has the same right in both.
pub proof fn lemma_rights_touch_castling_only(s: State, rights: Rights, m: Move)
    ensures
        !(m.special is CastleKingside) && !(m.special is CastleQueenside) ==> pseudo_legal(
            State { rights, ..s },
            m,
        ) == pseudo_legal(s, m),
        m.special is CastleKingside && rights.kingside(s.turn) == s.rights.kingside(s.turn)
            ==> pseudo_legal(State { rights, ..s }, m) == pseudo_legal(s, m),
        m.special is CastleQueenside && rights.queenside(s.turn) == s.rights.queenside(s.turn)
            ==> pseudo_legal(State { rights, ..s }, m) == pseudo_legal(s, m),
{
}

/// No square holds two pieces: the masks of the twelve kinds share no
/// square, the two sides share none, each side's squares are those of its
/// six kinds, and the occupied squares are those of the two sides.
pub proof fn lemma_masks_part_the_board(board: Seq<Option<(Team, Piece)>>)
    ensures
        held_by(board, Team::White).disjoint(held_by(board, Team::Black)),
        occupied(board) == held_by(board, Team::White).union(held_by(board, Team::Black)),
        forall|t: Team, p: Piece, u: Team, q: Piece|
            (t != u || p != q) ==> #[trigger] stands(board, t, p).disjoint(
                #[trigger] stands(board, u, q),
            ),
        forall|t: Team, i: int|
            #[trigger] held_by(board, t).contains(i) <==> exists|p: Piece| #[trigger]
                stands(board, t, p).contains(i),
{
    assert(occupied(board) =~= held_by(board, Team::White).union(held_by(board, Team::Black)));
    assert forall|t: Team, i: int| #[trigger] held_by(board, t).contains(i) implies exists|
        p: Piece,
    | #[trigger] stands(board, t, p).contains(i) by {
        let p = board[i].unwrap().1;
        assert(stands(board, t, p).contains(i));
    }
}

/// Moves from one square with squares on the board have different places
/// in a list unless they are the same move.
pub proof fn lemma_listing_key_decides(x: Move, y: Move)
    requires
        x.original_pos == y.original_pos,
        x.to_pos.valid(),
        y.to_pos.valid(),
        listing_key(x) == listing_key(y),
    ensures
        x == y,
{
    lemma_square_round_trip(x.to_pos);
    lemma_square_round_trip(y.to_pos);
}

/// Two lists in listing order that hold the same moves, all from one square
/// and to squares of the board, are the same list.
pub proof fn lemma_listing_is_unique(a: Seq<Move>, b: Seq<Move>, origin: Square)
    requires
        in_order(a),
        in_order(b),
        forall|m: Move| #[trigger] a.contains(m) <==> b.contains(m),
        forall|m: Move| #[trigger] a.contains(m) ==> m.original_pos == origin && m.to_pos.valid(),
    ensures
        a == b,
    decreases a.len(),
{
    lemma_in_order_no_duplicates(a);
    lemma_in_order_no_duplicates(b);
    assert(a.to_set() =~= b.to_set());
    a.unique_seq_to_set();
    b.unique_seq_to_set();
    if a.len() > 0 {
        let x = a.last();
        let y = b.last();
        assert(a.contains(x));
        assert(b.contains(y));
        assert(b.contains(x));
        assert(a.contains(y));
        let i = choose|i: int| 0 <= i < a.len() && a[i] == y;
        let j = choose|j: int| 0 <= j < b.len() && b[j] == x;
        assert(listing_key(y) <= listing_key(x)) by {
            if i < a.len() - 1 {
                assert(listing_key(a[i]) < listing_key(a[a.len() - 1]));
            }
        }
        assert(listing_key(x) <= listing_key(y)) by {
            if j < b.len() - 1 {
                assert(listing_key(b[j]) < listing_key(b[b.len() - 1]));
            }
        }
        lemma_listing_key_decides(x, y);
        let fa = a.drop_last();
        let fb = b.drop_last();
        assert forall|m: Move| #[trigger] fa.contains(m) <==> fb.contains(m) by {
            if fa.contains(m) {
                let k = choose|k: int| 0 <= k < fa.len() && fa[k] == m;
                assert(a[k] == m);
                assert(a.contains(m));
                assert(b.contains(m));
                assert(m != x);
                let n = choose|n: int| 0 <= n < b.len() && b[n] == m;
                assert(fb[n] == m);
            }
            if fb.contains(m) {
                let k = choose|k: int| 0 <= k < fb.len() && fb[k] == m;
                assert(b[k] == m);
                assert(b.contains(m));
                assert(a.contains(m));
                assert(m != y);
                let n = choose|n: int| 0 <= n < a.len() && a[n] == m;
                assert(fa[n] == m);
            }
        }
        assert forall|m: Move| #[trigger] fa.contains(m) implies m.original_pos == origin
            && m.to_pos.valid() by {
            let k = choose|k: int| 0 <= k < fa.len() && fa[k] == m;
            assert(a[k] == m);
            assert(a.contains(m));
        }
        assert(in_order(fa)) by {
            assert forall|p: int, q: int| 0 <= p < q < fa.len() implies listing_key(fa[p])
                < listing_key(fa[q]) by {
                assert(fa[p] == a[p] && fa[q] == a[q]);
            }
        }
        assert(in_order(fb)) by {
            assert forall|p: int, q: int| 0 <= p < q < fb.len() implies listing_key(fb[p])
                < listing_key(fb[q]) by {
                assert(fb[p] == b[p] && fb[q] == b[q]);
            }
        }
        lemma_listing_is_unique(fa, fb, origin);
        assert(a =~= fa.push(x));
        assert(b =~= fb.push(y));
    } else {
        assert(a =~= b);
    }
}

/// Asking twice for the legal moves from a square of one position gives the
/// same outcome: the same error, or the same list of moves.
pub proof fn lemma_legal_moves_repeatable(
    s: State,
    square: Square,
    first: Result<Vec<Move>, CoreError>,
    second: Result<Vec<Move>, CoreError>,
)
    requires
        legal_moves_outcome(s, square, first),
        legal_moves_outcome(s, square, second),
    ensures
        match (first, second) {
            (Ok(a), Ok(b)) => a@ == b@ && a@.to_set() == b@.to_set(),
            (Err(e), Err(f)) => e == f,
            _ => false,
        },
{
    if first is Ok {
        let a = first->Ok_0;
        let b = second->Ok_0;
        lemma_listing_is_unique(a@, b@, square);
    }
}

/// Asking twice for the pseudo-legal moves from a square of one position
/// gives the same outcome: the same error, or the same list of moves.
pub proof fn lemma_pseudo_legal_moves_repeatable(
    s: State,
    square: Square,
    first: Result<Vec<Move>, CoreError>,
    second: Result<Vec<Move>, CoreError>,
)
    requires
        pseudo_legal_moves_outcome(s, square, first),
        pseudo_legal_moves_outcome(s, square, second),
    ensures
        match (first, second) {
            (Ok(a), Ok(b)) => a@ == b@,
            (Err(e), Err(f)) => e == f,
            _ => false,
        },
{
    if first is Ok {
        let a = first->Ok_0;
        let b = second->Ok_0;
        lemma_listing_is_unique(a@, b@, square);
    }
}

} // verus!
