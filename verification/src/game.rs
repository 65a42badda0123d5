use vstd::prelude::*;
use crate::bitboard::BitBoard;
use crate::coord::{lemma_index_round_trip, lemma_square_round_trip, square_of, Square};
use crate::error::CoreError;
use crate::pieces::{Move, Special, Team};
use crate::position::Position;
use crate::rules::{after, held_by, in_check, initial_state, legal, State};

verus! {

/// Whether the piece on `o` has, in `s`, a legal move that ends on `d`.
pub open spec fn reaches(s: State, o: Square, d: Square) -> bool {
    exists|special: Special| #[trigger]
        legal(s, Move { original_pos: o, to_pos: d, special })
}

/// Whether `v` lists the squares that the piece on `o` may legally go to in
/// `s`: each such square once, lowest index first, and no other.
pub open spec fn lists_destinations(s: State, o: Square, v: Seq<Square>) -> bool {
    &&& v.no_duplicates()
    &&& forall|a: int, b: int| 0 <= a < b < v.len() ==> v[a].index() < v[b].index()
    &&& forall|d: Square| #[trigger] v.contains(d) <==> reaches(s, o, d)
}

/// Whether one of the first `n` moves of `moves` ends on square `d`.
pub open spec fn lands(moves: Seq<Move>, n: int, d: int) -> bool {
    exists|k: int| 0 <= k < n && (#[trigger] moves[k]).to() == d
}

/// The squares on which the moves of `moves` end.
fn destinations(moves: &Vec<Move>) -> (r: BitBoard)
    requires
        forall|k: int| 0 <= k < moves.len() ==> (#[trigger] moves[k]).to_pos.valid(),
    ensures
        forall|d: int| r@.contains(d) <==> lands(moves@, moves.len() as int, d),
{
    let mut r = BitBoard::new();
    let mut i: usize = 0;
    while i < moves.len()
        invariant
            i <= moves.len(),
            forall|k: int| 0 <= k < moves.len() ==> (#[trigger] moves[k]).to_pos.valid(),
            forall|d: int| r@.contains(d) <==> lands(moves@, i as int, d),
        decreases moves.len() - i,
    {
        let to = moves[i].to_pos;
        let ghost before = r;
        proof {
            assert(moves[i as int].to_pos.valid());
        }
        r = r.with(to.rank * 8 + to.file);
        proof {
            assert forall|d: int| r@.contains(d) <==> lands(moves@, i + 1, d) by {
                if lands(moves@, i + 1, d) {
                    let k = choose|k: int| 0 <= k < i + 1 && (#[trigger] moves@[k]).to() == d;
                    if k < i {
                        assert(lands(moves@, i as int, d));
                    }
                }
                if before@.contains(d) {
                    let k = choose|k: int| 0 <= k < i && (#[trigger] moves@[k]).to() == d;
                    assert(moves@[k].to() == d);
                }
                if d == to.index() {
                    assert(moves@[i as int].to() == d);
                }
            }
        }
        i = i + 1;
    }
    r
}

/// A game in progress: the current position, which knows whose turn it is.
#[derive(Clone, Copy, Debug)]
pub struct Chess {
    current_state: Position,
}

impl View for Chess {
    type V = State;

    /// The current position as the rules see it.
    closed spec fn view(&self) -> State {
        self.current_state@
    }
}

impl Chess {
    /// Whether the game's position is well formed.
    pub closed spec fn wf(&self) -> bool {
        self.current_state.wf()
    }

    /// A game at its start, with White to move.
    pub fn new() -> (r: Chess)
        ensures
            r.wf(),
            r@ == initial_state(),
    {
        Chess { current_state: Position::new() }
    }

    /// The current position.
    pub fn position(&self) -> (p: &Position)
        requires
            self.wf(),
        ensures
            p.wf(),
            p@ == self@,
    {
        &self.current_state
    }

    /// The side to move.
    pub fn current_turn(&self) -> (t: Team)
        ensures
            t == self@.turn,
    {
        self.current_state.side_to_move()
    }

    /// Where the piece on square `location` may legally go. A square off the
    /// board and a piece of the side not to move are errors; a free square
    /// gives an empty list; a piece of the side to move gives each square on
    /// which one of its legal moves ends, once, lowest index first. The
    /// answer is never `Ok(None)`.
    pub fn get_possible_moves_piece(&self, location: usize) -> (r: Result<
        Option<Vec<Square>>,
        CoreError,
    >)
        requires
            self.wf(),
        ensures
            location >= 64 ==> r == Err::<Option<Vec<Square>>, CoreError>(
                CoreError::IndexOutOfRange,
            ),
            location < 64 && held_by(self@.board, self@.turn.other()).contains(location as int)
                ==> r == Err::<Option<Vec<Square>>, CoreError>(CoreError::NotYourPiece),
            location < 64 && self@.board[location as int] is None ==> (r matches Ok(Some(v))
                && v@.len() == 0),
            location < 64 && !held_by(self@.board, self@.turn.other()).contains(location as int)
                ==> (r matches Ok(Some(v)) && lists_destinations(
                self@,
                square_of(location as int),
                v@,
            )),
    {
        if location >= 64 {
            return Err(CoreError::IndexOutOfRange);
        }
        let origin = Square::new(location / 8, location % 8);
        proof {
            lemma_index_round_trip(location as int);
            self.current_state.lemma_wf();
        }
        let moves = match self.current_state.legal_moves(origin) {
            Ok(v) => v,
            Err(e) => {
                return Err(e);
            },
        };
        proof {
            assert forall|k: int| 0 <= k < moves.len() implies (#[trigger] moves[k]).to_pos.valid(
            ) by {
                assert(moves@.contains(moves[k]));
            }
        }
        let dests = destinations(&moves);
        let indices = dests.iterate();
        let mut v: Vec<Square> = Vec::new();
        let mut k: usize = 0;
        while k < indices.len()
            invariant
                k <= indices.len(),
                v.len() == k,
                forall|j: int|
                    0 <= j < indices.len() ==> dests@.contains(#[trigger] indices[j] as int),
                forall|j: int| 0 <= j < k ==> #[trigger] v[j] == square_of(indices[j] as int),
            decreases indices.len() - k,
        {
            let i = indices[k];
            proof {
                assert(dests@.contains(indices[k as int] as int));
            }
            v.push(Square::new(i / 8, i % 8));
            k = k + 1;
        }
        proof {
            let s = self@;
            assert forall|j: int| 0 <= j < v.len() implies (#[trigger] v[j]).valid() && v[j].index()
                == indices[j] by {
                assert(dests@.contains(indices[j] as int));
                lemma_index_round_trip(indices[j] as int);
            }
            assert forall|d: Square| #[trigger] v@.contains(d) <==> reaches(s, origin, d) by {
                if v@.contains(d) {
                    let j = choose|j: int| 0 <= j < v.len() && v@[j] == d;
                    assert(v[j].valid());
                    assert(dests@.contains(indices[j] as int));
                    let n = choose|n: int|
                        0 <= n < moves.len() && (#[trigger] moves@[n]).to() == indices[j] as int;
                    let m = moves@[n];
                    assert(moves@.contains(m));
                    lemma_square_round_trip(m.to_pos);
                    lemma_square_round_trip(d);
                    assert(m == Move { original_pos: origin, to_pos: d, special: m.special });
                    assert(legal(s, Move { original_pos: origin, to_pos: d, special: m.special }));
                }
                if reaches(s, origin, d) {
                    let special = choose|special: Special| #[trigger]
                        legal(s, Move { original_pos: origin, to_pos: d, special });
                    let m = Move { original_pos: origin, to_pos: d, special };
                    assert(moves@.contains(m));
                    let n = choose|n: int| 0 <= n < moves.len() && moves@[n] == m;
                    assert(moves@[n].to() == d.index());
                    assert(lands(moves@, moves.len() as int, d.index()));
                    assert(dests@.contains(d.index()));
                    assert(indices@.contains(d.index() as usize));
                    let j = choose|j: int|
                        0 <= j < indices.len() && indices@[j] == d.index() as usize;
                    lemma_square_round_trip(d);
                    assert(v@[j] == d);
                }
            }
            assert forall|a: int, b: int| 0 <= a < b < v.len() implies v[a].index()
                < v[b].index() by {
                assert(v[a].valid());
                assert(v[b].valid());
            }
            assert(v@.no_duplicates());
            if s.board[location as int] is None && v.len() > 0 {
                assert(v@.contains(v@[0]));
                assert(reaches(s, origin, v@[0]));
            }
        }
        Ok(Some(v))
    }

    /// Plays `m` if it is legal, and leaves the game as it was if not.
    pub fn apply(&mut self, m: Move) -> (r: Result<(), CoreError>)
        requires
            old(self).wf(),
        ensures
            final(self).wf(),
            legal(old(self)@, m) ==> r is Ok && final(self)@ == after(old(self)@, m),
            !legal(old(self)@, m) ==> r == Err::<(), CoreError>(CoreError::IllegalMove)
                && *final(self) == *old(self),
            r is Ok ==> !in_check(final(self)@.board, old(self)@.turn),
    {
        self.current_state.apply(m)
    }
}

} // verus!
