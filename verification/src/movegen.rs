use vstd::prelude::*;
use vstd::seq_lib::lemma_seq_contains_after_push;
use crate::attacks::{attacks_from, pawn_attacks};
use crate::bitboard::BitBoard;
use crate::coord::{
    lemma_index_round_trip, lemma_square_round_trip, rank_of, shift, square_of, Square,
};
use crate::error::CoreError;
use crate::pieces::{Move, Piece, Special, Team};
use crate::position::Position;
use crate::rules::{
    castle_kingside, castle_queenside, held_by, king_move, pawn_arrival, pawn_capture,
    pawn_double_push, pawn_en_passant, pawn_move, pawn_push, piece_move, pseudo_legal, State,
};

verus! {

/// The position `s` as it would be with side `t` to move.
pub open spec fn with_turn(s: State, t: Team) -> State {
    State { turn: t, ..s }
}

/// Where a tag stands among the moves that end on one square.
pub open spec fn tag_order(special: Special) -> int {
    match special {
        Special::Normal => 0,
        Special::Promotion(Piece::Queen) => 1,
        Special::Promotion(Piece::Rook) => 2,
        Special::Promotion(Piece::Bishop) => 3,
        Special::Promotion(Piece::Knight) => 4,
        Special::Promotion(Piece::King) => 5,
        Special::Promotion(Piece::Pawn) => 6,
        Special::DoublePawnPush => 7,
        Special::EnPassantCapture => 8,
        Special::CastleKingside => 9,
        Special::CastleQueenside => 10,
    }
}

/// Where a move stands in a list: moves are listed by their destination,
/// lowest index first, and those that end on one square by their tag.
pub open spec fn listing_key(m: Move) -> int {
    16 * m.to() + tag_order(m.special)
}

/// Whether a list of moves is in listing order, which leaves no move twice.
pub open spec fn in_order(v: Seq<Move>) -> bool {
    forall|a: int, b: int| 0 <= a < b < v.len() ==> listing_key(v[a]) < listing_key(v[b])
}

/// A list in listing order holds no move twice.
pub proof fn lemma_in_order_no_duplicates(v: Seq<Move>)
    requires
        in_order(v),
    ensures
        v.no_duplicates(),
{
    assert forall|i: int, j: int| 0 <= i < v.len() && 0 <= j < v.len() && i != j implies v[i]
        != v[j] by {
        if i < j {
            assert(listing_key(v[i]) < listing_key(v[j]));
        } else {
            assert(listing_key(v[j]) < listing_key(v[i]));
        }
    }
}

/// What a request for the pseudo-legal moves from `square` gives in `s`. A
/// square off the board is an error, and so is one that the side not to move
/// holds. Any other square gives the pseudo-legal moves that start from it,
/// each once, in listing order.
pub open spec fn pseudo_legal_moves_outcome(
    s: State,
    square: Square,
    r: Result<Vec<Move>, CoreError>,
) -> bool {
    if !square.valid() {
        r == Err::<Vec<Move>, CoreError>(CoreError::IndexOutOfRange)
    } else if held_by(s.board, s.turn.other()).contains(square.index()) {
        r == Err::<Vec<Move>, CoreError>(CoreError::NotYourPiece)
    } else {
        &&& r matches Ok(v)
        &&& in_order(v@)
        &&& v@.no_duplicates()
        &&& forall|m: Move|
            #[trigger] v@.contains(m) <==> (m.original_pos == square && pseudo_legal(s, m))
    }
}

/// The destinations of the moves from one square: a mask for each tag.
#[derive(Clone, Copy, Debug)]
pub struct Targets {
    pub plain: BitBoard,
    pub promotion: BitBoard,
    pub double_push: BitBoard,
    pub en_passant: BitBoard,
    pub castle_kingside: BitBoard,
    pub castle_queenside: BitBoard,
}

impl Targets {
    /// Whether the masks hold the destination of `m` under its tag. A
    /// promotion counts for the four kinds that a pawn may promote to.
    pub open spec fn holds(self, m: Move) -> bool {
        match m.special {
            Special::Normal => self.plain@.contains(m.to()),
            Special::Promotion(k) => k.promotable() && self.promotion@.contains(m.to()),
            Special::DoublePawnPush => self.double_push@.contains(m.to()),
            Special::EnPassantCapture => self.en_passant@.contains(m.to()),
            Special::CastleKingside => self.castle_kingside@.contains(m.to()),
            Special::CastleQueenside => self.castle_queenside@.contains(m.to()),
        }
    }

    /// No destinations at all.
    pub fn none() -> (t: Targets)
        ensures
            forall|m: Move| !#[trigger] t.holds(m),
            t.plain@ == Set::<int>::empty(),
            t.promotion@ == Set::<int>::empty(),
            t.double_push@ == Set::<int>::empty(),
            t.en_passant@ == Set::<int>::empty(),
            t.castle_kingside@ == Set::<int>::empty(),
            t.castle_queenside@ == Set::<int>::empty(),
    {
        Targets {
            plain: BitBoard::new(),
            promotion: BitBoard::new(),
            double_push: BitBoard::new(),
            en_passant: BitBoard::new(),
            castle_kingside: BitBoard::new(),
            castle_queenside: BitBoard::new(),
        }
    }
}

/// Appends `m`, which comes after all the moves of the list, if it is wanted.
fn push_when(out: &mut Vec<Move>, wanted: bool, m: Move)
    requires
        in_order(old(out)@),
        forall|k: int|
            0 <= k < old(out)@.len() ==> listing_key(#[trigger] old(out)@[k]) < listing_key(m),
    ensures
        in_order(final(out)@),
        forall|x: Move|
            #[trigger] final(out)@.contains(x) <==> (old(out)@.contains(x) || (wanted && x == m)),
        forall|k: int|
            0 <= k < final(out)@.len() ==> listing_key(#[trigger] final(out)@[k]) <= listing_key(m),
{
    if wanted {
        out.push(m);
        proof {
            assert forall|x: Move| #[trigger]
                out@.contains(x) <==> (old(out)@.contains(x) || x == m) by {
                lemma_seq_contains_after_push(old(out)@, m, x);
            }
        }
    }
}

/// Appends the moves from `origin` to square `d` that `targets` holds, in
/// the order of their tags.
fn list_moves_to(out: &mut Vec<Move>, origin: Square, targets: Targets, d: usize)
    requires
        d < 64,
        in_order(old(out)@),
        forall|k: int| 0 <= k < old(out)@.len() ==> listing_key(#[trigger] old(out)@[k]) < 16 * d,
    ensures
        in_order(final(out)@),
        forall|k: int|
            0 <= k < final(out)@.len() ==> listing_key(#[trigger] final(out)@[k]) < 16 * (d + 1),
        forall|x: Move|
            #[trigger] final(out)@.contains(x) <==> (old(out)@.contains(x) || (x.original_pos
                == origin && x.to_pos == square_of(d as int) && targets.holds(x))),
{
    let dest = Square::new(d / 8, d % 8);
    proof {
        lemma_index_round_trip(d as int);
    }
    let promotion = targets.promotion.holds(d);
    push_when(out, targets.plain.holds(d), Move::new(origin, dest, Special::Normal));
    let ghost s1 = out@;
    push_when(out, promotion, Move::new(origin, dest, Special::Promotion(Piece::Queen)));
    push_when(out, promotion, Move::new(origin, dest, Special::Promotion(Piece::Rook)));
    push_when(out, promotion, Move::new(origin, dest, Special::Promotion(Piece::Bishop)));
    push_when(out, promotion, Move::new(origin, dest, Special::Promotion(Piece::Knight)));
    let ghost s2 = out@;
    proof {
        assert forall|x: Move| #[trigger]
            s2.contains(x) <==> (s1.contains(x) || (x.original_pos == origin && x.to_pos == dest
                && x.special is Promotion && targets.holds(x))) by {}
    }
    push_when(
        out,
        targets.double_push.holds(d),
        Move::new(origin, dest, Special::DoublePawnPush),
    );
    push_when(
        out,
        targets.en_passant.holds(d),
        Move::new(origin, dest, Special::EnPassantCapture),
    );
    let ghost s3 = out@;
    proof {
        assert forall|x: Move| #[trigger]
            s3.contains(x) <==> (s2.contains(x) || (x.original_pos == origin && x.to_pos == dest
                && (x.special is DoublePawnPush || x.special is EnPassantCapture)
                && targets.holds(x))) by {}
    }
    push_when(
        out,
        targets.castle_kingside.holds(d),
        Move::new(origin, dest, Special::CastleKingside),
    );
    push_when(
        out,
        targets.castle_queenside.holds(d),
        Move::new(origin, dest, Special::CastleQueenside),
    );
    proof {
        assert forall|x: Move| #[trigger]
            out@.contains(x) <==> (s3.contains(x) || (x.original_pos == origin && x.to_pos == dest
                && (x.special is CastleKingside || x.special is CastleQueenside)
                && targets.holds(x))) by {}
        assert forall|x: Move| #[trigger]
            s1.contains(x) <==> (old(out)@.contains(x) || (x.original_pos == origin && x.to_pos
                == dest && x.special is Normal && targets.holds(x))) by {}
    }
}

/// The moves from `origin` to the destinations of `targets`, in listing order.
pub fn list_moves(origin: Square, targets: Targets) -> (out: Vec<Move>)
    ensures
        in_order(out@),
        forall|m: Move|
            #[trigger] out@.contains(m) <==> (m.original_pos == origin && m.to_pos.valid()
                && targets.holds(m)),
{
    let mut out: Vec<Move> = Vec::new();
    let mut d: usize = 0;
    while d < 64
        invariant
            d <= 64,
            in_order(out@),
            forall|k: int| 0 <= k < out@.len() ==> listing_key(#[trigger] out@[k]) < 16 * d,
            forall|x: Move|
                #[trigger] out@.contains(x) <==> (x.original_pos == origin && x.to_pos.valid()
                    && targets.holds(x) && x.to() < d),
        decreases 64 - d,
    {
        list_moves_to(&mut out, origin, targets, d);
        proof {
            lemma_index_round_trip(d as int);
            assert forall|x: Move|
                #[trigger] out@.contains(x) <==> (x.original_pos == origin && x.to_pos.valid()
                    && targets.holds(x) && x.to() < d + 1) by {
                if x.to_pos.valid() {
                    lemma_square_round_trip(x.to_pos);
                }
            }
        }
        d = d + 1;
    }
    out
}

impl Position {
    /// The moves of a pawn of `team` from `origin`, as the pawn rules give
    /// them with `team` to move: single and double push, capture, en-passant
    /// capture, each push or capture onto the last rank as four promotions.
    pub(crate) fn pawn_moves_from(&self, team: Team, origin: Square) -> (out: Vec<Move>)
        requires
            self.wf(),
            origin.valid(),
        ensures
            in_order(out@),
            forall|m: Move|
                #[trigger] out@.contains(m) <==> (m.original_pos == origin && m.to_pos.valid()
                    && pawn_move(with_turn(self@, team), m)),
    {
        proof {
            self.lemma_wf();
            lemma_square_round_trip(origin);
        }
        let ghost s = with_turn(self@, team);
        let fwd = team.advance();
        let enemy = team.opponent();
        let attacks = pawn_attacks(team, origin);
        let mut arrive = attacks.and(self.occupancy(enemy));
        let mut targets = Targets::none();
        let mut promotes = false;
        match shift(origin, fwd, 0) {
            Some(d1) => {
                let i1 = d1.rank * 8 + d1.file;
                promotes = d1.rank == team.far_rank();
                if self.cell_on(i1).is_none() {
                    arrive = arrive.with(i1);
                    if origin.rank == team.start_rank() {
                        match shift(origin, fwd + fwd, 0) {
                            Some(d2) => {
                                let i2 = d2.rank * 8 + d2.file;
                                if self.cell_on(i2).is_none() {
                                    targets.double_push = targets.double_push.with(i2);
                                }
                            },
                            None => {},
                        }
                    }
                }
            },
            None => {},
        }
        if promotes {
            targets.promotion = arrive;
        } else {
            targets.plain = arrive;
        }
        match self.en_passant_target() {
            Some(t) => {
                let ti = t.rank * 8 + t.file;
                if attacks.holds(ti) && self.cell_on(ti).is_none() {
                    let pi = origin.rank * 8 + t.file;
                    match self.cell_on(pi) {
                        Some((pt, pk)) => {
                            if pt == enemy && pk == Piece::Pawn {
                                targets.en_passant = targets.en_passant.with(ti);
                                proof {
                                    lemma_square_round_trip(t);
                                }
                            }
                        },
                        None => {},
                    }
                }
            },
            None => {},
        }
        let out = list_moves(origin, targets);
        proof {
            assert forall|m: Move|
                #[trigger] out@.contains(m) <==> (m.original_pos == origin && m.to_pos.valid()
                    && pawn_move(s, m)) by {
                if m.to_pos.valid() {
                    lemma_square_round_trip(m.to_pos);
                }
                if m.original_pos == origin && m.to_pos.valid() {
                    assert((pawn_push(s, m) || pawn_capture(s, m)) <==> (arrive@.contains(m.to())
                        && pawn_arrival(team, m.to(), m.special)));
                    assert(pawn_double_push(s, m) <==> (m.special is DoublePawnPush
                        && targets.double_push@.contains(m.to())));
                    assert(pawn_en_passant(s, m) <==> (m.special is EnPassantCapture
                        && targets.en_passant@.contains(m.to())));
                    assert(arrive@.contains(m.to()) ==> (promotes <==> rank_of(m.to())
                        == team.last_rank()));
                    assert(targets.holds(m) <==> pawn_move(s, m));
                }
            }
        }
        out
    }

    /// The moves of a piece of side `team` and kind `piece` from `origin` to
    /// the squares it attacks, but for those that its own side holds.
    pub(crate) fn piece_moves_from(&self, team: Team, piece: Piece, origin: Square) -> (out: Vec<
        Move,
    >)
        requires
            self.wf(),
            origin.valid(),
        ensures
            in_order(out@),
            forall|m: Move|
                #[trigger] out@.contains(m) <==> (m.original_pos == origin && m.special is Normal
                    && m.to_pos.valid() && piece_move(
                    self@.board,
                    team,
                    piece,
                    origin.index(),
                    m.to(),
                )),
    {
        let occ = self.occupied();
        let own = self.occupancy(team);
        let mut targets = Targets::none();
        targets.plain = attacks_from(occ, team, piece, origin).and(own.not());
        let out = list_moves(origin, targets);
        proof {
            assert forall|m: Move|
                #[trigger] out@.contains(m) <==> (m.original_pos == origin && m.special is Normal
                    && m.to_pos.valid() && piece_move(
                    self@.board,
                    team,
                    piece,
                    origin.index(),
                    m.to(),
                )) by {
                if m.to_pos.valid() {
                    lemma_square_round_trip(m.to_pos);
                }
            }
        }
        out
    }

    /// The moves of the king of the side to move from `origin`: a step to
    /// each neighbour that its own side does not hold, and each way of
    /// castling that the rules allow.
    pub(crate) fn king_moves_from(&self, origin: Square) -> (out: Vec<Move>)
        requires
            self.wf(),
            origin.valid(),
        ensures
            in_order(out@),
            forall|m: Move|
                #[trigger] out@.contains(m) <==> (m.original_pos == origin && m.to_pos.valid()
                    && king_move(self@, m)),
    {
        proof {
            self.lemma_wf();
            lemma_square_round_trip(origin);
        }
        let t = self.side_to_move();
        let enemy = t.opponent();
        let h = t.back_rank();
        let occ = self.occupied();
        let own = self.occupancy(t);
        let mut targets = Targets::none();
        targets.plain = attacks_from(occ, t, Piece::King, origin).and(own.not());
        if origin.rank == h && origin.file == 4 {
            let rights = self.castling_rights();
            if rights.has_kingside(t) && self.cell_on(h * 8 + 5).is_none() && self.cell_on(
                h * 8 + 6,
            ).is_none() && !self.is_square_attacked(Square::new(h, 4), enemy)
                && !self.is_square_attacked(Square::new(h, 5), enemy) && !self.is_square_attacked(
                Square::new(h, 6),
                enemy,
            ) {
                targets.castle_kingside = targets.castle_kingside.with(h * 8 + 6);
            }
            if rights.has_queenside(t) && self.cell_on(h * 8 + 1).is_none() && self.cell_on(
                h * 8 + 2,
            ).is_none() && self.cell_on(h * 8 + 3).is_none() && !self.is_square_attacked(
                Square::new(h, 4),
                enemy,
            ) && !self.is_square_attacked(Square::new(h, 3), enemy) && !self.is_square_attacked(
                Square::new(h, 2),
                enemy,
            ) {
                targets.castle_queenside = targets.castle_queenside.with(h * 8 + 2);
            }
        }
        let out = list_moves(origin, targets);
        proof {
            assert forall|m: Move|
                #[trigger] out@.contains(m) <==> (m.original_pos == origin && m.to_pos.valid()
                    && king_move(self@, m)) by {
                if m.to_pos.valid() {
                    lemma_square_round_trip(m.to_pos);
                }
                if m.original_pos == origin && m.to_pos.valid() {
                    assert(castle_kingside(self@, m) <==> (m.special is CastleKingside
                        && targets.castle_kingside@.contains(m.to())));
                    assert(castle_queenside(self@, m) <==> (m.special is CastleQueenside
                        && targets.castle_queenside@.contains(m.to())));
                    assert(targets.holds(m) <==> king_move(self@, m));
                }
            }
        }
        out
    }

    /// The pseudo-legal moves from `square`: what the piece of the side to
    /// move that stands there may play, whatever becomes of its king. A square
    /// off the board is an error, and so is one that the side not to move
    /// holds. The list is empty for a free square.
    pub fn pseudo_legal_moves(&self, square: Square) -> (r: Result<Vec<Move>, CoreError>)
        requires
            self.wf(),
        ensures
            pseudo_legal_moves_outcome(self@, square, r),
    {
        if !square.is_valid() {
            return Err(CoreError::IndexOutOfRange);
        }
        proof {
            self.lemma_wf();
            lemma_square_round_trip(square);
            assert(with_turn(self@, self@.turn) == self@);
        }
        let t = self.side_to_move();
        let i = square.rank * 8 + square.file;
        match self.kind_on(t.opponent(), i) {
            Some(_) => {
                return Err(CoreError::NotYourPiece);
            },
            None => {},
        }
        let out = match self.kind_on(t, i) {
            Some(Piece::Pawn) => self.pawn_moves_from(t, square),
            Some(Piece::King) => self.king_moves_from(square),
            Some(Piece::Rook) => self.piece_moves_from(t, Piece::Rook, square),
            Some(Piece::Bishop) => self.piece_moves_from(t, Piece::Bishop, square),
            Some(Piece::Knight) => self.piece_moves_from(t, Piece::Knight, square),
            Some(Piece::Queen) => self.piece_moves_from(t, Piece::Queen, square),
            None => Vec::new(),
        };
        proof {
            lemma_in_order_no_duplicates(out@);
        }
        Ok(out)
    }

    /// The moves of the pawn that `team` has on square `location`, as the
    /// pawn rules give them with `team` to move; none where `team` has no
    /// pawn there. A location of 64 or more is an error, and so is a square
    /// that the other side holds.
    pub fn get_pawn_moves(&self, team: Team, location: usize) -> (r: Result<Vec<Move>, CoreError>)
        requires
            self.wf(),
        ensures
            location >= 64 ==> r == Err::<Vec<Move>, CoreError>(CoreError::IndexOutOfRange),
            location < 64 && held_by(self@.board, team.other()).contains(location as int) ==> r
                == Err::<Vec<Move>, CoreError>(CoreError::NotYourPiece),
            location < 64 && !held_by(self@.board, team.other()).contains(location as int) ==> (
            r matches Ok(v) && in_order(v@) && v@.no_duplicates() && forall|m: Move|
                #[trigger] v@.contains(m) <==> (m.original_pos == square_of(location as int)
                    && m.to_pos.valid() && self@.board[location as int] == Some(
                    (team, Piece::Pawn),
                ) && pawn_move(with_turn(self@, team), m))),
    {
        if location >= 64 {
            return Err(CoreError::IndexOutOfRange);
        }
        proof {
            self.lemma_wf();
        }
        match self.kind_on(team.opponent(), location) {
            Some(_) => {
                return Err(CoreError::NotYourPiece);
            },
            None => {},
        }
        let origin = Square::new(location / 8, location % 8);
        let out = match self.kind_on(team, location) {
            Some(Piece::Pawn) => self.pawn_moves_from(team, origin),
            _ => Vec::new(),
        };
        proof {
            lemma_in_order_no_duplicates(out@);
        }
        Ok(out)
    }
}

} // verus!
