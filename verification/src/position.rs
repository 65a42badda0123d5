use vstd::prelude::*;
use crate::bitboard::{bit, BitBoard};
use crate::coord::{index_of, on_board, Square};
use crate::error::CoreError;
use crate::pieces::{Piece, Team};
use crate::rules::{held_by, initial_cell, initial_state, occupied, stands, Rights, State};

verus! {

/// The board and what goes with it: where the pieces of both sides stand, as
/// one mask per side and kind, with the side to move, the castling rights,
/// the en-passant target and the two move counters.
#[derive(Clone, Copy, Debug)]
pub struct Position {
    bb_sides: [BitBoard; 2],
    bb_pieces: [[BitBoard; 6]; 2],
    side_to_move: Team,
    castling_rights: Rights,
    en_passant_target: Option<Square>,
    halfmove_clock: u32,
    fullmove_number: u32,
}

/// The bits of the masks from which a game starts.
proof fn lemma_initial_masks(j: u64)
    by (bit_vector)
    requires
        j < 64,
    ensures
        bit(0x81, j) == (j == 0 || j == 7),
        bit(0x42, j) == (j == 1 || j == 6),
        bit(0x24, j) == (j == 2 || j == 5),
        bit(0x08, j) == (j == 3),
        bit(0x10, j) == (j == 4),
        bit(0xff00, j) == (8 <= j && j < 16),
        bit(0xffff, j) == (j < 16),
        bit(0x8100_0000_0000_0000, j) == (j == 56 || j == 63),
        bit(0x4200_0000_0000_0000, j) == (j == 57 || j == 62),
        bit(0x2400_0000_0000_0000, j) == (j == 58 || j == 61),
        bit(0x0800_0000_0000_0000, j) == (j == 59),
        bit(0x1000_0000_0000_0000, j) == (j == 60),
        bit(0x00ff_0000_0000_0000, j) == (48 <= j && j < 56),
        bit(0xffff_0000_0000_0000, j) == (48 <= j),
{
}

impl View for Position {
    type V = State;

    /// The position as the rules see it.
    closed spec fn view(&self) -> State {
        State {
            board: Seq::new(64, |i: int| self.cell(i)),
            turn: self.side_to_move,
            rights: self.castling_rights,
            en_passant: match self.en_passant_target {
                Some(sq) => Some(sq.index()),
                None => None,
            },
            halfmove_clock: self.halfmove_clock,
            fullmove_number: self.fullmove_number,
        }
    }
}

impl Position {
    /// Whether the mask of side `t` and kind `p` holds square `i`.
    pub closed spec fn has(&self, t: Team, p: Piece, i: int) -> bool {
        self.bb_pieces[t.slot()][p.slot()]@.contains(i)
    }

    /// Whether the mask of side `t` holds square `i`.
    pub closed spec fn side_has(&self, t: Team, i: int) -> bool {
        self.bb_sides[t.slot()]@.contains(i)
    }

    /// The kind whose mask, of those of side `t`, claims square `i`.
    pub closed spec fn kind(&self, t: Team, i: int) -> Piece {
        if self.has(t, Piece::Rook, i) {
            Piece::Rook
        } else if self.has(t, Piece::Bishop, i) {
            Piece::Bishop
        } else if self.has(t, Piece::Queen, i) {
            Piece::Queen
        } else if self.has(t, Piece::King, i) {
            Piece::King
        } else if self.has(t, Piece::Knight, i) {
            Piece::Knight
        } else {
            Piece::Pawn
        }
    }

    /// What the masks say stands on square `i`.
    pub closed spec fn cell(&self, i: int) -> Option<(Team, Piece)> {
        if self.side_has(Team::White, i) {
            Some((Team::White, self.kind(Team::White, i)))
        } else if self.side_has(Team::Black, i) {
            Some((Team::Black, self.kind(Team::Black, i)))
        } else {
            None
        }
    }

    /// Whether the masks agree with each other: no square is claimed by two
    /// masks of the kinds, each side's mask is the union of its six, and the
    /// en-passant target lies on the board.
    pub closed spec fn masks_agree(&self) -> bool {
        &&& forall|t: Team, p: Piece, i: int|
            0 <= i < 64 && #[trigger] self.has(t, p, i) ==> self.side_has(t, i) && self.kind(t, i)
                == p
        &&& forall|t: Team, i: int|
            0 <= i < 64 && #[trigger] self.side_has(t, i) ==> self.has(t, self.kind(t, i), i)
        &&& forall|i: int|
            0 <= i < 64 ==> !(#[trigger] self.side_has(Team::White, i) && self.side_has(
                Team::Black,
                i,
            ))
        &&& self.en_passant_target matches Some(sq) ==> sq.valid()
    }

    /// Whether the position is well formed: its masks agree, and what they
    /// show satisfies `State::wf`.
    pub closed spec fn wf(&self) -> bool {
        self.masks_agree() && self@.wf()
    }

    /// A well-formed position shows a well-formed state.
    pub proof fn lemma_wf(&self)
        requires
            self.wf(),
        ensures
            self@.wf(),
            self.masks_agree(),
    {
    }

    /// Masks that agree show, on each square, the piece whose mask claims it.
    pub proof fn lemma_cells(&self)
        requires
            self.masks_agree(),
        ensures
            self@.board.len() == 64,
            forall|t: Team, p: Piece, i: int|
                0 <= i < 64 ==> (#[trigger] self.has(t, p, i) <==> self@.board[i] == Some((t, p))),
            forall|t: Team, i: int|
                0 <= i < 64 ==> (#[trigger] self.side_has(t, i) <==> held_by(
                    self@.board,
                    t,
                ).contains(i)),
    {
        assert forall|t: Team, p: Piece, i: int| 0 <= i < 64 implies (#[trigger] self.has(t, p, i)
            <==> self@.board[i] == Some((t, p))) by {
            if self.has(t, p, i) {
                assert(self.side_has(t, i));
            }
            if self.side_has(Team::White, i) {
                assert(self.has(Team::White, self.kind(Team::White, i), i));
            }
            if self.side_has(Team::Black, i) {
                assert(self.has(Team::Black, self.kind(Team::Black, i), i));
            }
        }
        assert forall|t: Team, i: int| 0 <= i < 64 implies (#[trigger] self.side_has(t, i)
            <==> held_by(self@.board, t).contains(i)) by {
            assert(!(self.side_has(Team::White, i) && self.side_has(Team::Black, i)));
        }
    }

    /// The position from which a game starts.
    pub fn initial() -> (r: Position)
        ensures
            r.wf(),
            r@ == initial_state(),
    {
        let r = Position {
            bb_sides: [BitBoard(0xffff_0000_0000_0000), BitBoard(0xffff)],
            bb_pieces: [
                [
                    BitBoard(0x8100_0000_0000_0000),
                    BitBoard(0x2400_0000_0000_0000),
                    BitBoard(0x4200_0000_0000_0000),
                    BitBoard(0x1000_0000_0000_0000),
                    BitBoard(0x0800_0000_0000_0000),
                    BitBoard(0x00ff_0000_0000_0000),
                ],
                [
                    BitBoard(0x81),
                    BitBoard(0x24),
                    BitBoard(0x42),
                    BitBoard(0x10),
                    BitBoard(0x08),
                    BitBoard(0xff00),
                ],
            ],
            side_to_move: Team::White,
            castling_rights: Rights {
                white_kingside: true,
                white_queenside: true,
                black_kingside: true,
                black_queenside: true,
            },
            en_passant_target: None,
            halfmove_clock: 0,
            fullmove_number: 1,
        };
        proof {
            assert forall|t: Team, p: Piece, i: int|
                0 <= i < 64 && #[trigger] r.has(t, p, i) implies r.side_has(t, i) && r.kind(t, i)
                == p by {
                lemma_initial_masks(i as u64);
            }
            assert forall|t: Team, i: int| 0 <= i < 64 && #[trigger] r.side_has(t, i) implies r.has(
                t,
                r.kind(t, i),
                i,
            ) by {
                lemma_initial_masks(i as u64);
            }
            assert forall|i: int| 0 <= i < 64 implies !(#[trigger] r.side_has(Team::White, i)
                && r.side_has(Team::Black, i)) by {
                lemma_initial_masks(i as u64);
            }
            assert(r.masks_agree());
            assert forall|i: int| 0 <= i < 64 implies r.cell(i) == initial_cell(i) by {
                lemma_initial_masks(i as u64);
            }
            assert(r@.board =~= initial_state().board);
            assert(r@ == initial_state());
            crate::rules::lemma_initial_state_wf();
        }
        r
    }

    /// The position from which a game starts.
    pub fn new() -> (r: Position)
        ensures
            r.wf(),
            r@ == initial_state(),
    {
        Position::initial()
    }

    /// The side to move.
    pub fn side_to_move(&self) -> (t: Team)
        ensures
            t == self@.turn,
    {
        self.side_to_move
    }

    /// The castling rights that are left.
    pub fn castling_rights(&self) -> (r: Rights)
        ensures
            r == self@.rights,
    {
        self.castling_rights
    }

    /// The square that a pawn has just passed over in a double push, if the
    /// last move was one.
    pub fn en_passant_target(&self) -> (r: Option<Square>)
        requires
            self.wf(),
        ensures
            match r {
                Some(sq) => sq.valid() && self@.en_passant == Some(sq.index()),
                None => self@.en_passant is None,
            },
    {
        self.en_passant_target
    }

    /// Plies since the last pawn move or capture.
    pub fn halfmove_clock(&self) -> (n: u32)
        ensures
            n == self@.halfmove_clock,
    {
        self.halfmove_clock
    }

    /// The number of the move being played.
    pub fn fullmove_number(&self) -> (n: u32)
        ensures
            n == self@.fullmove_number,
    {
        self.fullmove_number
    }

    /// The squares on which side `team` has a piece.
    pub(crate) fn side_mask(&self, team: Team) -> (r: BitBoard)
        requires
            self.masks_agree(),
        ensures
            r@ == held_by(self@.board, team),
    {
        let r = self.bb_sides[team.place()];
        proof {
            self.lemma_cells();
            assert forall|i: int| r@.contains(i) == held_by(self@.board, team).contains(i) by {
                if 0 <= i < 64 {
                    assert(self.side_has(team, i) == r@.contains(i));
                }
            }
            assert(r@ =~= held_by(self@.board, team));
        }
        r
    }

    /// The squares on which side `team` has a piece of kind `piece`.
    pub(crate) fn kind_mask(&self, team: Team, piece: Piece) -> (r: BitBoard)
        requires
            self.masks_agree(),
        ensures
            r@ == stands(self@.board, team, piece),
    {
        let r = self.bb_pieces[team.place()][piece.place()];
        proof {
            self.lemma_cells();
            assert forall|i: int| r@.contains(i) == stands(self@.board, team, piece).contains(
                i,
            ) by {
                if 0 <= i < 64 {
                    assert(self.has(team, piece, i) == r@.contains(i));
                }
            }
            assert(r@ =~= stands(self@.board, team, piece));
        }
        r
    }

    /// The squares on which anything stands.
    pub(crate) fn all_mask(&self) -> (r: BitBoard)
        requires
            self.masks_agree(),
        ensures
            r@ == occupied(self@.board),
    {
        let w = self.side_mask(Team::White);
        let b = self.side_mask(Team::Black);
        let r = w.or(b);
        proof {
            self.lemma_cells();
            assert(r@ =~= occupied(self@.board));
        }
        r
    }

    /// The squares on which side `team` has a piece.
    pub fn occupancy(&self, team: Team) -> (r: BitBoard)
        requires
            self.wf(),
        ensures
            r@ == held_by(self@.board, team),
    {
        self.side_mask(team)
    }

    /// The squares on which side `team` has a piece of kind `piece`.
    pub fn pieces(&self, team: Team, piece: Piece) -> (r: BitBoard)
        requires
            self.wf(),
        ensures
            r@ == stands(self@.board, team, piece),
    {
        self.kind_mask(team, piece)
    }

    /// The squares on which anything stands.
    pub fn occupied(&self) -> (r: BitBoard)
        requires
            self.wf(),
        ensures
            r@ == occupied(self@.board),
    {
        self.all_mask()
    }

    /// The kind of the piece that `team` has on square `i`, if it has one there.
    pub(crate) fn kind_on(&self, team: Team, i: usize) -> (r: Option<Piece>)
        requires
            self.masks_agree(),
            i < 64,
        ensures
            r == match self@.board[i as int] {
                Some(cell) => if cell.0 == team {
                    Some(cell.1)
                } else {
                    None
                },
                None => None,
            },
    {
        proof {
            self.lemma_cells();
            assert(self.has(team, Piece::Rook, i as int) <==> self@.board[i as int] == Some(
                (team, Piece::Rook),
            ));
            assert(self.has(team, Piece::Bishop, i as int) <==> self@.board[i as int] == Some(
                (team, Piece::Bishop),
            ));
            assert(self.has(team, Piece::Queen, i as int) <==> self@.board[i as int] == Some(
                (team, Piece::Queen),
            ));
            assert(self.has(team, Piece::King, i as int) <==> self@.board[i as int] == Some(
                (team, Piece::King),
            ));
            assert(self.has(team, Piece::Knight, i as int) <==> self@.board[i as int] == Some(
                (team, Piece::Knight),
            ));
            assert(self.has(team, Piece::Pawn, i as int) <==> self@.board[i as int] == Some(
                (team, Piece::Pawn),
            ));
        }
        let row = &self.bb_pieces[team.place()];
        if row[Piece::Rook.place()].holds(i) {
            Some(Piece::Rook)
        } else if row[Piece::Bishop.place()].holds(i) {
            Some(Piece::Bishop)
        } else if row[Piece::Queen.place()].holds(i) {
            Some(Piece::Queen)
        } else if row[Piece::King.place()].holds(i) {
            Some(Piece::King)
        } else if row[Piece::Knight.place()].holds(i) {
            Some(Piece::Knight)
        } else if row[Piece::Pawn.place()].holds(i) {
            Some(Piece::Pawn)
        } else {
            None
        }
    }

    /// What stands on square `i`.
    pub(crate) fn cell_on(&self, i: usize) -> (r: Option<(Team, Piece)>)
        requires
            self.masks_agree(),
            i < 64,
        ensures
            r == self@.board[i as int],
    {
        match self.kind_on(Team::White, i) {
            Some(p) => Some((Team::White, p)),
            None => match self.kind_on(Team::Black, i) {
                Some(p) => Some((Team::Black, p)),
                None => None,
            },
        }
    }

    /// Whether `team` has a piece on square `location`.
    pub fn exists_piece_at_location(&self, team: Team, location: usize) -> (r: Result<
        bool,
        CoreError,
    >)
        requires
            self.wf(),
        ensures
            location < 64 ==> r == Ok::<bool, CoreError>(
                held_by(self@.board, team).contains(location as int),
            ),
            location >= 64 ==> r == Err::<bool, CoreError>(CoreError::IndexOutOfRange),
    {
        if location >= 64 {
            return Err(CoreError::IndexOutOfRange);
        }
        proof {
            self.lemma_cells();
            assert(self.side_has(team, location as int) <==> held_by(self@.board, team).contains(
                location as int,
            ));
        }
        Ok(self.bb_sides[team.place()].holds(location))
    }

    /// The kind of the piece that `team` has on square `location`, if it has
    /// one there.
    pub fn get_piece_at_location(&self, team: Team, location: usize) -> (r: Result<
        Option<Piece>,
        CoreError,
    >)
        requires
            self.wf(),
        ensures
            location < 64 ==> r == Ok::<Option<Piece>, CoreError>(
                match self@.board[location as int] {
                    Some(cell) => if cell.0 == team {
                        Some(cell.1)
                    } else {
                        None
                    },
                    None => None,
                },
            ),
            location >= 64 ==> r == Err::<Option<Piece>, CoreError>(CoreError::IndexOutOfRange),
    {
        if location >= 64 {
            return Err(CoreError::IndexOutOfRange);
        }
        Ok(self.kind_on(team, location))
    }

    /// What stands on `square`: a side and a kind, or nothing. Nothing stands
    /// on a square off the board.
    pub fn piece_at(&self, square: Square) -> (r: Option<(Team, Piece)>)
        requires
            self.wf(),
        ensures
            square.valid() ==> r == self@.board[square.index()],
            !square.valid() ==> r is None,
    {
        if square.rank >= 8 || square.file >= 8 {
            return None;
        }
        self.cell_on(square.rank * 8 + square.file)
    }

    /// The board as eight ranks of eight cells: `grid[rank][file]` is what
    /// stands on that square.
    pub fn render(&self) -> (grid: Vec<Vec<Option<(Team, Piece)>>>)
        requires
            self.wf(),
        ensures
            grid.len() == 8,
            forall|r: int| 0 <= r < 8 ==> (#[trigger] grid[r]).len() == 8,
            forall|r: int, f: int|
                on_board(r, f) ==> grid[r][f] == self@.board[#[trigger] index_of(r, f)],
    {
        let mut grid: Vec<Vec<Option<(Team, Piece)>>> = Vec::new();
        let mut rank: usize = 0;
        while rank < 8
            invariant
                rank <= 8,
                self.masks_agree(),
                grid.len() == rank,
                forall|r: int| 0 <= r < rank ==> (#[trigger] grid[r]).len() == 8,
                forall|r: int, f: int|
                    0 <= r < rank && 0 <= f < 8 ==> grid[r][f] == self@.board[#[trigger] index_of(
                        r,
                        f,
                    )],
            decreases 8 - rank,
        {
            let mut row: Vec<Option<(Team, Piece)>> = Vec::new();
            let mut file: usize = 0;
            while file < 8
                invariant
                    rank < 8,
                    file <= 8,
                    self.masks_agree(),
                    row.len() == file,
                    forall|f: int|
                        0 <= f < file ==> row[f] == self@.board[#[trigger] index_of(
                            rank as int,
                            f,
                        )],
                decreases 8 - file,
            {
                row.push(self.cell_on(rank * 8 + file));
                file = file + 1;
            }
            grid.push(row);
            rank = rank + 1;
        }
        grid
    }

    /// Masks that agree and show a well-formed state make a well-formed position.
    pub proof fn lemma_wf_from_parts(&self)
        requires
            self.masks_agree(),
            self@.wf(),
        ensures
            self.wf(),
    {
    }

    /// Takes whatever stands on square `i` off the board.
    pub(crate) fn lift(&mut self, i: usize)
        requires
            old(self).masks_agree(),
            i < 64,
        ensures
            final(self).masks_agree(),
            final(self)@ == (State {
                board: old(self)@.board.update(i as int, None),
                ..old(self)@
            }),
    {
        proof {
            self.lemma_cells();
        }
        match self.cell_on(i) {
            Some((t, p)) => {
                let a = t.place();
                let b = p.place();
                let mask = self.bb_pieces[a][b].without(i);
                let side = self.bb_sides[a].without(i);
                self.bb_pieces[a][b] = mask;
                self.bb_sides[a] = side;
            },
            None => {},
        }
        proof {
            let here = old(self)@.board[i as int];
            assert forall|u: Team, q: Piece, j: int| 0 <= j < 64 implies (#[trigger] self.has(
                u,
                q,
                j,
            ) <==> (old(self).has(u, q, j) && j != i)) by {
                if j == i {
                    assert(old(self).has(u, q, j) <==> here == Some((u, q)));
                }
            }
            assert forall|u: Team, j: int| 0 <= j < 64 implies (#[trigger] self.side_has(u, j)
                <==> (old(self).side_has(u, j) && j != i)) by {
                if j == i {
                    assert(old(self).side_has(u, j) <==> held_by(old(self)@.board, u).contains(j));
                }
            }
            assert forall|u: Team, j: int| 0 <= j < 64 && j != i implies #[trigger] self.kind(
                u,
                j,
            ) == old(self).kind(u, j) by {
                assert(self.has(u, Piece::Rook, j) == old(self).has(u, Piece::Rook, j));
                assert(self.has(u, Piece::Bishop, j) == old(self).has(u, Piece::Bishop, j));
                assert(self.has(u, Piece::Queen, j) == old(self).has(u, Piece::Queen, j));
                assert(self.has(u, Piece::King, j) == old(self).has(u, Piece::King, j));
                assert(self.has(u, Piece::Knight, j) == old(self).has(u, Piece::Knight, j));
            }
            assert(self.masks_agree()) by {
                assert forall|u: Team, q: Piece, j: int|
                    0 <= j < 64 && #[trigger] self.has(u, q, j) implies self.side_has(u, j)
                    && self.kind(u, j) == q by {
                    assert(old(self).has(u, q, j));
                    assert(self.kind(u, j) == old(self).kind(u, j));
                }
                assert forall|u: Team, j: int|
                    0 <= j < 64 && #[trigger] self.side_has(u, j) implies self.has(
                    u,
                    self.kind(u, j),
                    j,
                ) by {
                    assert(old(self).side_has(u, j));
                    assert(self.kind(u, j) == old(self).kind(u, j));
                    assert(old(self).has(u, old(self).kind(u, j), j));
                }
                assert forall|j: int| 0 <= j < 64 implies !(#[trigger] self.side_has(
                    Team::White,
                    j,
                ) && self.side_has(Team::Black, j)) by {
                    assert(!(old(self).side_has(Team::White, j) && old(self).side_has(
                        Team::Black,
                        j,
                    )));
                }
            }
            assert forall|j: int| 0 <= j < 64 implies self.cell(j) == old(self)@.board.update(
                i as int,
                None,
            )[j] by {
                assert(self.side_has(Team::White, j) == (old(self).side_has(Team::White, j) && j
                    != i));
                assert(self.side_has(Team::Black, j) == (old(self).side_has(Team::Black, j) && j
                    != i));
                if j != i {
                    assert(self.kind(Team::White, j) == old(self).kind(Team::White, j));
                    assert(self.kind(Team::Black, j) == old(self).kind(Team::Black, j));
                }
            }
            assert(self@.board =~= old(self)@.board.update(i as int, None));
        }
    }

    /// Stands a piece of side `team` and kind `piece` on square `i`, in place
    /// of whatever stood there.
    pub(crate) fn put(&mut self, i: usize, team: Team, piece: Piece)
        requires
            old(self).masks_agree(),
            i < 64,
        ensures
            final(self).masks_agree(),
            final(self)@ == (State {
                board: old(self)@.board.update(i as int, Some((team, piece))),
                ..old(self)@
            }),
    {
        self.lift(i);
        let ghost mid = *self;
        proof {
            mid.lemma_cells();
            assert(mid@.board[i as int] is None);
            assert(!mid.side_has(Team::White, i as int));
            assert(!mid.side_has(Team::Black, i as int));
            assert forall|u: Team, q: Piece| !#[trigger] mid.has(u, q, i as int) by {}
        }
        let a = team.place();
        let b = piece.place();
        let mask = self.bb_pieces[a][b].with(i);
        let side = self.bb_sides[a].with(i);
        self.bb_pieces[a][b] = mask;
        self.bb_sides[a] = side;
        proof {
            assert forall|u: Team, q: Piece, j: int| 0 <= j < 64 implies (#[trigger] self.has(
                u,
                q,
                j,
            ) <==> (mid.has(u, q, j) || (j == i && u == team && q == piece))) by {}
            assert forall|u: Team, j: int| 0 <= j < 64 implies (#[trigger] self.side_has(u, j)
                <==> (mid.side_has(u, j) || (j == i && u == team))) by {}
            assert forall|u: Team, j: int| 0 <= j < 64 && j != i implies #[trigger] self.kind(
                u,
                j,
            ) == mid.kind(u, j) by {
                assert(self.has(u, Piece::Rook, j) == mid.has(u, Piece::Rook, j));
                assert(self.has(u, Piece::Bishop, j) == mid.has(u, Piece::Bishop, j));
                assert(self.has(u, Piece::Queen, j) == mid.has(u, Piece::Queen, j));
                assert(self.has(u, Piece::King, j) == mid.has(u, Piece::King, j));
                assert(self.has(u, Piece::Knight, j) == mid.has(u, Piece::Knight, j));
            }
            assert(self.kind(team, i as int) == piece) by {
                assert(self.has(team, piece, i as int));
                assert(self.has(team, Piece::Rook, i as int) == (piece == Piece::Rook));
                assert(self.has(team, Piece::Bishop, i as int) == (piece == Piece::Bishop));
                assert(self.has(team, Piece::Queen, i as int) == (piece == Piece::Queen));
                assert(self.has(team, Piece::King, i as int) == (piece == Piece::King));
                assert(self.has(team, Piece::Knight, i as int) == (piece == Piece::Knight));
            }
            assert(self.masks_agree()) by {
                assert forall|u: Team, q: Piece, j: int|
                    0 <= j < 64 && #[trigger] self.has(u, q, j) implies self.side_has(u, j)
                    && self.kind(u, j) == q by {
                    if j != i {
                        assert(mid.has(u, q, j));
                        assert(self.kind(u, j) == mid.kind(u, j));
                    }
                }
                assert forall|u: Team, j: int|
                    0 <= j < 64 && #[trigger] self.side_has(u, j) implies self.has(
                    u,
                    self.kind(u, j),
                    j,
                ) by {
                    if j != i {
                        assert(mid.side_has(u, j));
                        assert(self.kind(u, j) == mid.kind(u, j));
                        assert(mid.has(u, mid.kind(u, j), j));
                    }
                }
                assert forall|j: int| 0 <= j < 64 implies !(#[trigger] self.side_has(
                    Team::White,
                    j,
                ) && self.side_has(Team::Black, j)) by {
                    assert(!(mid.side_has(Team::White, j) && mid.side_has(Team::Black, j)));
                }
            }
            assert forall|j: int| 0 <= j < 64 implies self.cell(j) == old(self)@.board.update(
                i as int,
                Some((team, piece)),
            )[j] by {
                assert(self.side_has(Team::White, j) == (mid.side_has(Team::White, j) || (j == i
                    && team == Team::White)));
                assert(self.side_has(Team::Black, j) == (mid.side_has(Team::Black, j) || (j == i
                    && team == Team::Black)));
                if j != i {
                    assert(self.kind(Team::White, j) == mid.kind(Team::White, j));
                    assert(self.kind(Team::Black, j) == mid.kind(Team::Black, j));
                    assert(mid@.board[j] == mid.cell(j));
                }
            }
            assert(self@.board =~= old(self)@.board.update(i as int, Some((team, piece))));
        }
    }

    /// Sets what a position holds beside its board.
    pub(crate) fn set_status(
        &mut self,
        turn: Team,
        rights: Rights,
        en_passant: Option<Square>,
        halfmove_clock: u32,
        fullmove_number: u32,
    )
        requires
            old(self).masks_agree(),
            en_passant matches Some(sq) ==> sq.valid(),
        ensures
            final(self).masks_agree(),
            final(self)@ == (State {
                board: old(self)@.board,
                turn,
                rights,
                en_passant: match en_passant {
                    Some(sq) => Some(sq.index()),
                    None => None,
                },
                halfmove_clock,
                fullmove_number,
            }),
    {
        self.side_to_move = turn;
        self.castling_rights = rights;
        self.en_passant_target = en_passant;
        self.halfmove_clock = halfmove_clock;
        self.fullmove_number = fullmove_number;
        proof {
            assert forall|u: Team, q: Piece, j: int| #[trigger]
                self.has(u, q, j) == old(self).has(u, q, j) by {}
            assert forall|u: Team, j: int| #[trigger]
                self.side_has(u, j) == old(self).side_has(u, j) by {}
            assert forall|u: Team, j: int| #[trigger]
                self.kind(u, j) == old(self).kind(u, j) by {}
            assert forall|j: int| #[trigger] self.cell(j) == old(self).cell(j) by {}
            assert(self@.board =~= old(self)@.board);
        }
    }
}

} // verus!
