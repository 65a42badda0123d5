use vstd::prelude::*;
use vstd::seq_lib::lemma_seq_contains_after_push;
use crate::coord::{lemma_index_round_trip, lemma_square_round_trip, Square};
use crate::error::CoreError;
use crate::pieces::{Move, Piece, Special, Team};
use crate::movegen::{in_order, listing_key};
use crate::position::Position;
use crate::rules::{
    after, board_after, bump, held_by, home_intact, in_check, king_safe, legal,
    pawn_double_push, pseudo_legal, relocated, resets_clock, rights_left, Rights, State,
};

verus! {

/// The test that the legality filter applies to a candidate in `s`: its
/// squares lie on the board, and playing it leaves no king of the mover attacked.
pub open spec fn keeps_king_safe(s: State) -> spec_fn(Move) -> bool {
    |m: Move| m.valid() && king_safe(s, m)
}

/// What a request for the legal moves from `square` gives in `s`. A square
/// off the board is an error, and so is one that the side not to move holds.
/// Any other square gives the legal moves that start from it, each once, in
/// listing order.
pub open spec fn legal_moves_outcome(
    s: State,
    square: Square,
    r: Result<Vec<Move>, CoreError>,
) -> bool {
    if !square.valid() {
        r == Err::<Vec<Move>, CoreError>(CoreError::IndexOutOfRange)
    } else if held_by(s.board, s.turn.other()).contains(square.index()) {
        r == Err::<Vec<Move>, CoreError>(CoreError::NotYourPiece)
    } else {
        &&& r matches Ok(v)
        &&& in_order(v@)
        &&& v@.no_duplicates()
        &&& forall|m: Move| #[trigger] v@.contains(m) <==> (m.original_pos == square && legal(s, m))
    }
}

/// Whether the side to move in `s` has a legal move.
pub open spec fn can_move(s: State) -> bool {
    exists|m: Move| legal(s, m)
}

/// What stays of a list under a filter: the members that pass, each once if
/// the list held each once, and in listing order if the list was.
pub proof fn lemma_filter_members(list: Seq<Move>, pred: spec_fn(Move) -> bool)
    ensures
        forall|m: Move| #[trigger] list.filter(pred).contains(m) <==> (list.contains(m) && pred(m)),
        list.no_duplicates() ==> list.filter(pred).no_duplicates(),
        in_order(list) ==> in_order(list.filter(pred)),
    decreases list.len(),
{
    if list.len() == 0 {
        list.lemma_filter_len(pred);
        assert(list.filter(pred).len() == 0);
    } else {
        let front = list.drop_last();
        let last = list.last();
        lemma_filter_members(front, pred);
        assert(list =~= front.push(last));
        front.lemma_filter_push(last, pred);
        assert forall|m: Move| #[trigger]
            list.filter(pred).contains(m) <==> (list.contains(m) && pred(m)) by {
            lemma_seq_contains_after_push(front, last, m);
            lemma_seq_contains_after_push(front.filter(pred), last, m);
        }
        if in_order(list) {
            assert(in_order(front)) by {
                assert forall|a: int, b: int| 0 <= a < b < front.len() implies listing_key(
                    front[a],
                ) < listing_key(front[b]) by {
                    assert(front[a] == list[a] && front[b] == list[b]);
                }
            }
            let kept = front.filter(pred);
            if pred(last) {
                let all = kept.push(last);
                assert forall|a: int, b: int| 0 <= a < b < all.len() implies listing_key(all[a])
                    < listing_key(all[b]) by {
                    if b == kept.len() {
                        assert(kept.contains(kept[a]));
                        assert(front.contains(kept[a]));
                        let k = choose|k: int| 0 <= k < front.len() && front[k] == kept[a];
                        assert(list[k] == kept[a]);
                        assert(listing_key(list[k]) < listing_key(list[list.len() - 1]));
                    }
                }
            }
        }
        if list.no_duplicates() {
            assert(front.no_duplicates());
            assert(!front.contains(last)) by {
                if front.contains(last) {
                    let k = choose|k: int| 0 <= k < front.len() && front[k] == last;
                    assert(list[k] == list[list.len() - 1]);
                }
            }
            let kept = front.filter(pred);
            assert(!kept.contains(last));
            if pred(last) {
                assert forall|i: int, j: int|
                    0 <= i < j < kept.push(last).len() implies kept.push(last)[i] != kept.push(
                    last,
                )[j] by {
                    if j == kept.len() {
                        assert(kept.contains(kept[i]));
                    }
                }
            }
        }
    }
}

/// A double push is pseudo-legal only as the double push of a pawn.
pub proof fn lemma_double_push_is_pawn(s: State, m: Move)
    requires
        pseudo_legal(s, m),
        m.special is DoublePawnPush,
    ensures
        s.board[m.from()] == Some((s.turn, Piece::Pawn)),
        pawn_double_push(s, m),
{
}

/// Playing a pseudo-legal move in a well-formed state gives a well-formed state.
pub proof fn lemma_after_wf(s: State, m: Move)
    requires
        s.wf(),
        pseudo_legal(s, m),
    ensures
        after(s, m).wf(),
{
    lemma_square_round_trip(m.original_pos);
    lemma_square_round_trip(m.to_pos);
    if m.special is DoublePawnPush {
        lemma_double_push_is_pawn(s, m);
    }
}

/// A counter one higher, unless it already holds the largest value it can.
fn step_counter(n: u32) -> (r: u32)
    ensures
        r == bump(n),
{
    if n < u32::MAX {
        n + 1
    } else {
        n
    }
}

/// Whether `list` holds `m`.
fn holds_move(list: &Vec<Move>, m: Move) -> (found: bool)
    ensures
        found == list@.contains(m),
{
    let mut i: usize = 0;
    while i < list.len()
        invariant
            i <= list.len(),
            forall|k: int| 0 <= k < i ==> list@[k] != m,
        decreases list.len() - i,
    {
        if list[i] == m {
            return true;
        }
        i = i + 1;
    }
    false
}

impl Position {
    /// Whether king and rook of `t` stand where castling needs them.
    fn home_is_intact(&self, t: Team, rook_file: usize) -> (r: bool)
        requires
            self.masks_agree(),
            rook_file < 8,
        ensures
            r == home_intact(self@.board, t, rook_file as int),
    {
        let h = t.back_rank();
        let king = match self.cell_on(h * 8 + 4) {
            Some((kt, kp)) => kt == t && kp == Piece::King,
            None => false,
        };
        let rook = match self.cell_on(h * 8 + rook_file) {
            Some((rt, rp)) => rt == t && rp == Piece::Rook,
            None => false,
        };
        king && rook
    }

    /// Clears the origin of `m` and stands on its destination what `m` puts there.
    fn relocate(&mut self, m: Move, t: Team)
        requires
            old(self).masks_agree(),
            m.valid(),
        ensures
            final(self).masks_agree(),
            final(self)@ == (State { board: relocated(old(self)@.board, t, m), ..old(self)@ }),
    {
        proof {
            lemma_square_round_trip(m.original_pos);
            lemma_square_round_trip(m.to_pos);
        }
        let o = m.original_pos.rank * 8 + m.original_pos.file;
        let d = m.to_pos.rank * 8 + m.to_pos.file;
        let what = match m.special {
            Special::Promotion(k) => Some((t, k)),
            _ => self.cell_on(o),
        };
        self.lift(o);
        match what {
            Some((pt, pk)) => {
                self.put(d, pt, pk);
            },
            None => {
                self.lift(d);
            },
        }
    }

    /// Moves the pieces as `m` says, for the side `t`.
    fn move_pieces(&mut self, m: Move, t: Team)
        requires
            old(self).masks_agree(),
            m.valid(),
        ensures
            final(self).masks_agree(),
            final(self)@ == (State { board: board_after(old(self)@.board, t, m), ..old(self)@ }),
    {
        proof {
            lemma_square_round_trip(m.original_pos);
            lemma_square_round_trip(m.to_pos);
        }
        let h = m.original_pos.rank;
        self.relocate(m, t);
        match m.special {
            Special::EnPassantCapture => {
                self.lift(h * 8 + m.to_pos.file);
            },
            Special::CastleKingside => {
                self.lift(h * 8 + 7);
                self.put(h * 8 + 5, t, Piece::Rook);
            },
            Special::CastleQueenside => {
                self.lift(h * 8);
                self.put(h * 8 + 3, t, Piece::Rook);
            },
            _ => {},
        }
    }

    /// The castling rights of `rights` that the board still bears out.
    fn rights_still_left(&self, rights: Rights) -> (r: Rights)
        requires
            self.masks_agree(),
        ensures
            r == rights_left(rights, self@.board),
    {
        Rights {
            white_kingside: rights.white_kingside && self.home_is_intact(Team::White, 7),
            white_queenside: rights.white_queenside && self.home_is_intact(Team::White, 0),
            black_kingside: rights.black_kingside && self.home_is_intact(Team::Black, 7),
            black_queenside: rights.black_queenside && self.home_is_intact(Team::Black, 0),
        }
    }

    /// Whether `m` moves a pawn or takes something.
    fn restarts_clock(&self, m: Move) -> (r: bool)
        requires
            self.masks_agree(),
            m.valid(),
        ensures
            r == resets_clock(self@, m),
    {
        proof {
            lemma_square_round_trip(m.original_pos);
            lemma_square_round_trip(m.to_pos);
        }
        let pawn = match self.cell_on(m.original_pos.rank * 8 + m.original_pos.file) {
            Some((_, Piece::Pawn)) => true,
            _ => false,
        };
        let taken = self.cell_on(m.to_pos.rank * 8 + m.to_pos.file).is_some();
        let passing = match m.special {
            Special::EnPassantCapture => true,
            _ => false,
        };
        pawn || taken || passing
    }

    /// Plays `m`, legal or not: the position becomes what `after` says.
    pub(crate) fn make_move(&mut self, m: Move)
        requires
            old(self).masks_agree(),
            m.valid(),
        ensures
            final(self).masks_agree(),
            final(self)@ == after(old(self)@, m),
    {
        proof {
            lemma_square_round_trip(m.original_pos);
            lemma_square_round_trip(m.to_pos);
        }
        let t = self.side_to_move();
        let old_rights = self.castling_rights();
        let reset = self.restarts_clock(m);
        let halfmove = if reset {
            0
        } else {
            step_counter(self.halfmove_clock())
        };
        let fullmove = match t {
            Team::Black => step_counter(self.fullmove_number()),
            Team::White => self.fullmove_number(),
        };
        let en_passant = match m.special {
            Special::DoublePawnPush => {
                let mid = (m.original_pos.rank * 8 + m.original_pos.file + m.to_pos.rank * 8
                    + m.to_pos.file) / 2;
                proof {
                    lemma_index_round_trip(mid as int);
                }
                Some(Square::new(mid / 8, mid % 8))
            },
            _ => None,
        };
        self.move_pieces(m, t);
        let rights = self.rights_still_left(old_rights);
        self.set_status(t.opponent(), rights, en_passant, halfmove, fullmove);
        proof {
            assert(self@ == after(old(self)@, m));
        }
    }

    /// The legality filter: the moves of `moves`, in their order, whose
    /// squares lie on the board and that leave no king of the side to move
    /// attacked once they are played.
    pub fn prune_invalid_moves(&self, moves: &Vec<Move>) -> (out: Vec<Move>)
        requires
            self.wf(),
        ensures
            out@ == moves@.filter(keeps_king_safe(self@)),
    {
        proof {
            self.lemma_wf();
        }
        let mover = self.side_to_move();
        let mut out: Vec<Move> = Vec::new();
        let ghost pred = keeps_king_safe(self@);
        let mut i: usize = 0;
        proof {
            moves@.take(0).lemma_filter_len(pred);
            assert(moves@.take(0).filter(pred) =~= out@);
        }
        while i < moves.len()
            invariant
                i <= moves.len(),
                self.masks_agree(),
                mover == self@.turn,
                pred == keeps_king_safe(self@),
                out@ == moves@.take(i as int).filter(pred),
            decreases moves.len() - i,
        {
            let m = moves[i];
            proof {
                assert(moves@.take(i + 1) =~= moves@.take(i as int).push(m));
                moves@.take(i as int).lemma_filter_push(m, pred);
            }
            if m.original_pos.is_valid() && m.to_pos.is_valid() {
                let mut scratch = *self;
                scratch.make_move(m);
                if !scratch.king_attacked(mover) {
                    out.push(m);
                }
            }
            i = i + 1;
        }
        proof {
            assert(moves@.take(moves.len() as int) =~= moves@);
        }
        out
    }

    /// The legal moves from `square`: the pseudo-legal moves of the piece
    /// that the side to move has there, but for those that leave its king
    /// attacked. The list is empty for a free square.
    pub fn legal_moves(&self, square: Square) -> (r: Result<Vec<Move>, CoreError>)
        requires
            self.wf(),
        ensures
            legal_moves_outcome(self@, square, r),
    {
        match self.pseudo_legal_moves(square) {
            Ok(candidates) => {
                let v = self.prune_invalid_moves(&candidates);
                proof {
                    lemma_filter_members(candidates@, keeps_king_safe(self@));
                }
                Ok(v)
            },
            Err(e) => Err(e),
        }
    }

    /// Whether the side to move has a legal move.
    pub fn has_legal_move(&self) -> (r: bool)
        requires
            self.wf(),
        ensures
            r == can_move(self@),
    {
        let mut i: usize = 0;
        while i < 64
            invariant
                i <= 64,
                self.wf(),
                forall|m: Move| #[trigger] legal(self@, m) ==> m.from() >= i,
            decreases 64 - i,
        {
            let square = Square::new(i / 8, i % 8);
            proof {
                lemma_index_round_trip(i as int);
            }
            match self.legal_moves(square) {
                Ok(list) => {
                    if list.len() > 0 {
                        proof {
                            assert(list@.contains(list@[0]));
                            assert(legal(self@, list@[0]));
                        }
                        return true;
                    }
                    proof {
                        assert forall|m: Move| #[trigger] legal(self@, m) implies m.from() >= i
                            + 1 by {
                            lemma_square_round_trip(m.original_pos);
                            if m.from() == i {
                                assert(list@.contains(m));
                            }
                        }
                    }
                },
                Err(_) => {
                    proof {
                        assert forall|m: Move| #[trigger] legal(self@, m) implies m.from() >= i
                            + 1 by {
                            lemma_square_round_trip(m.original_pos);
                        }
                    }
                },
            }
            i = i + 1;
        }
        proof {
            assert forall|m: Move| !#[trigger] legal(self@, m) by {
                if legal(self@, m) {
                    lemma_square_round_trip(m.original_pos);
                }
            }
        }
        false
    }

    /// Whether the side to move is checkmated: its king is attacked and it
    /// has no legal move.
    pub fn is_checkmate(&self) -> (r: bool)
        requires
            self.wf(),
        ensures
            r == (in_check(self@.board, self@.turn) && !can_move(self@)),
    {
        self.in_check(self.side_to_move()) && !self.has_legal_move()
    }

    /// Whether the side to move is stalemated: its king is not attacked, yet
    /// it has no legal move.
    pub fn is_stalemate(&self) -> (r: bool)
        requires
            self.wf(),
        ensures
            r == (!in_check(self@.board, self@.turn) && !can_move(self@)),
    {
        !self.in_check(self.side_to_move()) && !self.has_legal_move()
    }

    /// Plays `m` if it is legal, and leaves the position as it was if not.
    pub fn apply(&mut self, m: Move) -> (r: Result<(), CoreError>)
        requires
            old(self).wf(),
        ensures
            final(self).wf(),
            legal(old(self)@, m) ==> r is Ok && final(self)@ == after(old(self)@, m),
            !legal(old(self)@, m) ==> r == Err::<(), CoreError>(CoreError::IllegalMove)
                && *final(self) == *old(self),
            r is Ok ==> !in_check(final(self)@.board, old(self)@.turn),
    {
        let found = match self.legal_moves(m.original_pos) {
            Ok(list) => holds_move(&list, m),
            Err(_) => false,
        };
        proof {
            assert(found == legal(self@, m));
        }
        if found {
            proof {
                self.lemma_wf();
                lemma_after_wf(self@, m);
            }
            self.make_move(m);
            proof {
                self.lemma_wf_from_parts();
            }
            Ok(())
        } else {
            Err(CoreError::IllegalMove)
        }
    }
}

} // verus!
