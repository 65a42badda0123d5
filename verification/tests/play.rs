use chess::attacks::{attacks_from, ray_attacks};
use chess::movegen::{list_moves, Targets};
use chess::{
    BitBoard, Chess, CoreError, Direction, Move, Piece, Position, Rights, Special, Square, Team,
};

fn sq(name: &str) -> Square {
    let b = name.as_bytes();
    Square::new((b'8' - b[1]) as usize, (b[0] - b'a') as usize)
}

fn mv(from: &str, to: &str, special: Special) -> Move {
    Move::new(sq(from), sq(to), special)
}

fn play(pos: &mut Position, from: &str, to: &str) {
    assert_eq!(pos.apply(mv(from, to, Special::Normal)), Ok(()), "{} {}", from, to);
}

fn play_as(pos: &mut Position, from: &str, to: &str, special: Special) {
    assert_eq!(pos.apply(mv(from, to, special)), Ok(()), "{} {}", from, to);
}

fn all_legal(pos: &Position) -> Vec<Move> {
    let mut all = Vec::new();
    for rank in 0..8usize {
        for file in 0..8usize {
            if let Ok(list) = pos.legal_moves(Square::new(rank, file)) {
                all.extend(list);
            }
        }
    }
    all
}

fn same_set(a: &Vec<Move>, b: &Vec<Move>) -> bool {
    a.len() == b.len() && a.iter().all(|m| b.contains(m)) && b.iter().all(|m| a.contains(m))
}

fn king_square(pos: &Position, team: Team) -> Square {
    let i = pos.pieces(team, Piece::King).lowest_set_index().unwrap();
    Square::new(i / 8, i % 8)
}

#[test]
fn initial_position_has_the_standard_material() {
    let pos = Position::initial();
    for team in [Team::White, Team::Black] {
        assert_eq!(pos.pieces(team, Piece::Pawn).count_set(), 8);
        assert_eq!(pos.pieces(team, Piece::Rook).count_set(), 2);
        assert_eq!(pos.pieces(team, Piece::Knight).count_set(), 2);
        assert_eq!(pos.pieces(team, Piece::Bishop).count_set(), 2);
        assert_eq!(pos.pieces(team, Piece::Queen).count_set(), 1);
        assert_eq!(pos.pieces(team, Piece::King).count_set(), 1);
        assert_eq!(pos.occupancy(team).count_set(), 16);
    }
    assert_eq!(pos.occupied().count_set(), 32);
    assert_eq!(pos.occupancy(Team::White).and(pos.occupancy(Team::Black)), BitBoard::new());
    assert_eq!(pos.occupancy(Team::White), BitBoard(0xffff_0000_0000_0000));
    assert_eq!(pos.occupancy(Team::Black), BitBoard(0xffff));
    assert_eq!(pos.pieces(Team::White, Piece::King), BitBoard(1 << 60));
    assert_eq!(pos.pieces(Team::White, Piece::Queen), BitBoard(1 << 59));
    assert_eq!(pos.pieces(Team::Black, Piece::King), BitBoard(1 << 4));
    assert_eq!(pos.pieces(Team::Black, Piece::Queen), BitBoard(1 << 3));
}

#[test]
fn initial_position_is_the_standard_layout() {
    let pos = Position::new();
    let back = [
        Piece::Rook,
        Piece::Knight,
        Piece::Bishop,
        Piece::Queen,
        Piece::King,
        Piece::Bishop,
        Piece::Knight,
        Piece::Rook,
    ];
    for file in 0..8usize {
        assert_eq!(pos.piece_at(Square::new(0, file)), Some((Team::Black, back[file])));
        assert_eq!(pos.piece_at(Square::new(1, file)), Some((Team::Black, Piece::Pawn)));
        assert_eq!(pos.piece_at(Square::new(6, file)), Some((Team::White, Piece::Pawn)));
        assert_eq!(pos.piece_at(Square::new(7, file)), Some((Team::White, back[file])));
        for rank in 2..6usize {
            assert_eq!(pos.piece_at(Square::new(rank, file)), None);
        }
    }
    assert_eq!(pos.side_to_move(), Team::White);
    assert_eq!(
        pos.castling_rights(),
        Rights {
            white_kingside: true,
            white_queenside: true,
            black_kingside: true,
            black_queenside: true
        }
    );
    assert_eq!(pos.en_passant_target(), None);
    assert_eq!(pos.halfmove_clock(), 0);
    assert_eq!(pos.fullmove_number(), 1);
    assert_eq!(pos.piece_at(Square::new(8, 0)), None);
}

#[test]
fn initial_position_has_twenty_legal_moves() {
    let pos = Position::initial();
    let all = all_legal(&pos);
    assert_eq!(all.len(), 20);
    let pawn_moves = all.iter().filter(|m| m.origin().rank() == 6).count();
    let knight_moves = all.iter().filter(|m| m.origin().rank() == 7).count();
    assert_eq!(pawn_moves, 16);
    assert_eq!(knight_moves, 4);
    assert_eq!(all.iter().filter(|m| m.special() == Special::DoublePawnPush).count(), 8);
    assert_eq!(all.iter().filter(|m| m.special() == Special::Normal).count(), 12);
    let e2 = pos.legal_moves(sq("e2")).unwrap();
    assert!(same_set(
        &e2,
        &vec![mv("e2", "e3", Special::Normal), mv("e2", "e4", Special::DoublePawnPush)]
    ));
    let g1 = pos.legal_moves(sq("g1")).unwrap();
    assert!(same_set(&g1, &vec![mv("g1", "f3", Special::Normal), mv("g1", "h3", Special::Normal)]));
    assert_eq!(pos.legal_moves(sq("e1")), Ok(vec![]));
    assert_eq!(pos.legal_moves(sq("a1")), Ok(vec![]));
}

fn count_games(pos: &Position, plies: u32) -> u64 {
    if plies == 0 {
        return 1;
    }
    let mut n = 0;
    for m in all_legal(pos) {
        let mut next = *pos;
        assert_eq!(next.apply(m), Ok(()));
        n += count_games(&next, plies - 1);
    }
    n
}

#[test]
fn the_number_of_games_of_one_two_and_three_plies() {
    let pos = Position::initial();
    assert_eq!(count_games(&pos, 1), 20);
    assert_eq!(count_games(&pos, 2), 400);
    assert_eq!(count_games(&pos, 3), 8902);
}

#[test]
fn the_number_of_games_of_four_plies() {
    let pos = Position::initial();
    assert_eq!(count_games(&pos, 4), 197281);
}

#[test]
fn moves_are_listed_by_destination_and_then_by_tag() {
    let pos = Position::initial();
    assert_eq!(
        pos.legal_moves(sq("e2")),
        Ok(vec![mv("e2", "e4", Special::DoublePawnPush), mv("e2", "e3", Special::Normal)])
    );
    assert_eq!(
        pos.legal_moves(sq("b1")),
        Ok(vec![mv("b1", "a3", Special::Normal), mv("b1", "c3", Special::Normal)])
    );
    let promotion = before_promotion().legal_moves(sq("a7")).unwrap();
    assert_eq!(
        promotion,
        vec![
            mv("a7", "a8", Special::Promotion(Piece::Queen)),
            mv("a7", "a8", Special::Promotion(Piece::Rook)),
            mv("a7", "a8", Special::Promotion(Piece::Bishop)),
            mv("a7", "a8", Special::Promotion(Piece::Knight)),
            mv("a7", "b8", Special::Promotion(Piece::Queen)),
            mv("a7", "b8", Special::Promotion(Piece::Rook)),
            mv("a7", "b8", Special::Promotion(Piece::Bishop)),
            mv("a7", "b8", Special::Promotion(Piece::Knight)),
        ]
    );
    assert_eq!(
        ready_to_castle().legal_moves(sq("e1")),
        Ok(vec![
            mv("e1", "e2", Special::Normal),
            mv("e1", "f1", Special::Normal),
            mv("e1", "g1", Special::CastleKingside)
        ])
    );
}

#[test]
fn list_moves_gives_one_move_for_each_target() {
    let from = Square::new(1, 4);
    let to = |rank: usize, file: usize, special: Special| {
        Move::new(from, Square::new(rank, file), special)
    };
    let mut targets = Targets::none();
    assert_eq!(list_moves(from, targets), vec![]);
    targets.plain = BitBoard(1 << 20);
    targets.double_push = BitBoard(1 << 28);
    targets.en_passant = BitBoard(1 << 20);
    targets.promotion = BitBoard(1 << 5);
    targets.castle_kingside = BitBoard(1 << 6);
    targets.castle_queenside = BitBoard(1 << 2);
    assert_eq!(
        list_moves(from, targets),
        vec![
            to(0, 2, Special::CastleQueenside),
            to(0, 5, Special::Promotion(Piece::Queen)),
            to(0, 5, Special::Promotion(Piece::Rook)),
            to(0, 5, Special::Promotion(Piece::Bishop)),
            to(0, 5, Special::Promotion(Piece::Knight)),
            to(0, 6, Special::CastleKingside),
            to(2, 4, Special::Normal),
            to(2, 4, Special::EnPassantCapture),
            to(3, 4, Special::DoublePawnPush),
        ]
    );
}

#[test]
fn legal_moves_of_a_free_square_are_none() {
    let pos = Position::initial();
    assert_eq!(pos.legal_moves(sq("e4")), Ok(vec![]));
    assert_eq!(pos.pseudo_legal_moves(sq("e4")), Ok(vec![]));
    assert_eq!(pos.get_pawn_moves(Team::White, 28), Ok(vec![]));
}

#[test]
fn legal_moves_rejects_a_square_off_the_board() {
    let pos = Position::initial();
    assert_eq!(pos.pseudo_legal_moves(Square::new(8, 8)), Err(CoreError::IndexOutOfRange));
    assert_eq!(pos.legal_moves(Square::new(8, 0)), Err(CoreError::IndexOutOfRange));
    assert_eq!(pos.legal_moves(Square::new(0, 8)), Err(CoreError::IndexOutOfRange));
}

#[test]
fn legal_moves_rejects_the_other_sides_piece() {
    let mut pos = Position::initial();
    assert_eq!(pos.pseudo_legal_moves(sq("e7")), Err(CoreError::NotYourPiece));
    assert_eq!(pos.legal_moves(sq("e7")), Err(CoreError::NotYourPiece));
    assert_eq!(pos.legal_moves(sq("g8")), Err(CoreError::NotYourPiece));
    play_as(&mut pos, "e2", "e4", Special::DoublePawnPush);
    assert_eq!(pos.legal_moves(sq("d2")), Err(CoreError::NotYourPiece));
    assert!(pos.legal_moves(sq("e7")).is_ok());
}

#[test]
fn legal_moves_twice_gives_the_same_moves() {
    let mut pos = Position::initial();
    play_as(&mut pos, "e2", "e4", Special::DoublePawnPush);
    play_as(&mut pos, "e7", "e5", Special::DoublePawnPush);
    for rank in 0..8usize {
        for file in 0..8usize {
            let s = Square::new(rank, file);
            let first = pos.legal_moves(s);
            let second = pos.legal_moves(s);
            assert_eq!(first, second);
        }
    }
}

#[test]
fn apply_moves_the_piece_and_passes_the_turn() {
    let mut pos = Position::initial();
    play_as(&mut pos, "e2", "e4", Special::DoublePawnPush);
    assert_eq!(pos.piece_at(sq("e2")), None);
    assert_eq!(pos.piece_at(sq("e4")), Some((Team::White, Piece::Pawn)));
    assert_eq!(pos.side_to_move(), Team::Black);
    assert_eq!(pos.en_passant_target(), Some(sq("e3")));
    assert_eq!(pos.halfmove_clock(), 0);
    assert_eq!(pos.fullmove_number(), 1);
    assert_eq!(pos.occupied().count_set(), 32);
    play(&mut pos, "g8", "f6");
    assert_eq!(pos.side_to_move(), Team::White);
    assert_eq!(pos.en_passant_target(), None);
    assert_eq!(pos.halfmove_clock(), 1);
    assert_eq!(pos.fullmove_number(), 2);
    play(&mut pos, "b1", "c3");
    assert_eq!(pos.halfmove_clock(), 2);
    assert_eq!(pos.fullmove_number(), 2);
    play(&mut pos, "f6", "e4");
    assert_eq!(pos.piece_at(sq("e4")), Some((Team::Black, Piece::Knight)));
    assert_eq!(pos.halfmove_clock(), 0);
    assert_eq!(pos.fullmove_number(), 3);
    assert_eq!(pos.occupied().count_set(), 31);
    assert_eq!(pos.pieces(Team::White, Piece::Pawn).count_set(), 7);
    assert_eq!(pos.occupancy(Team::White).and(pos.occupancy(Team::Black)), BitBoard::new());
}

#[test]
fn apply_rejects_what_is_not_legal_and_changes_nothing() {
    let mut pos = Position::initial();
    let before = pos.render();
    assert_eq!(pos.apply(mv("e2", "e5", Special::Normal)), Err(CoreError::IllegalMove));
    assert_eq!(pos.apply(mv("e2", "e4", Special::Normal)), Err(CoreError::IllegalMove));
    assert_eq!(pos.apply(mv("e2", "e3", Special::DoublePawnPush)), Err(CoreError::IllegalMove));
    assert_eq!(pos.apply(mv("e7", "e5", Special::DoublePawnPush)), Err(CoreError::IllegalMove));
    assert_eq!(pos.apply(mv("e4", "e5", Special::Normal)), Err(CoreError::IllegalMove));
    assert_eq!(pos.apply(mv("a1", "a3", Special::Normal)), Err(CoreError::IllegalMove));
    assert_eq!(pos.apply(mv("e1", "g1", Special::CastleKingside)), Err(CoreError::IllegalMove));
    assert_eq!(
        pos.apply(Move::new(Square::new(9, 9), sq("e4"), Special::Normal)),
        Err(CoreError::IllegalMove)
    );
    assert_eq!(
        pos.apply(Move::new(sq("e2"), Square::new(3, 12), Special::Normal)),
        Err(CoreError::IllegalMove)
    );
    assert_eq!(pos.render(), before);
    assert_eq!(pos.side_to_move(), Team::White);
    assert_eq!(pos.fullmove_number(), 1);
    assert_eq!(pos.en_passant_target(), None);
}

#[test]
fn apply_rejects_a_move_from_an_earlier_position() {
    let mut pos = Position::initial();
    let stale = pos.legal_moves(sq("e2")).unwrap();
    play(&mut pos, "e2", "e3");
    play(&mut pos, "a7", "a6");
    for m in stale {
        assert_eq!(pos.apply(m), Err(CoreError::IllegalMove));
    }
}

#[test]
fn a_legal_move_never_leaves_the_movers_king_attacked() {
    let mut pos = Position::initial();
    play_as(&mut pos, "e2", "e4", Special::DoublePawnPush);
    play_as(&mut pos, "e7", "e5", Special::DoublePawnPush);
    play(&mut pos, "d1", "h5");
    play(&mut pos, "b8", "c6");
    play(&mut pos, "h5", "f7");
    assert!(pos.in_check(Team::Black));
    let mover = pos.side_to_move();
    let moves = all_legal(&pos);
    assert_eq!(moves, vec![mv("e8", "f7", Special::Normal)]);
    for m in moves {
        let mut next = pos;
        assert_eq!(next.apply(m), Ok(()));
        assert!(!next.is_square_attacked(king_square(&next, mover), mover.opponent()));
        assert!(!next.in_check(mover));
    }
    let start = Position::initial();
    for m in all_legal(&start) {
        let mut next = start;
        assert_eq!(next.apply(m), Ok(()));
        assert!(!next.is_square_attacked(king_square(&next, Team::White), Team::Black));
    }
}

#[test]
fn a_pinned_piece_may_not_leave_the_line() {
    let mut pos = Position::initial();
    play_as(&mut pos, "e2", "e4", Special::DoublePawnPush);
    play_as(&mut pos, "e7", "e5", Special::DoublePawnPush);
    play_as(&mut pos, "d2", "d4", Special::DoublePawnPush);
    play(&mut pos, "e5", "d4");
    play(&mut pos, "g1", "f3");
    play(&mut pos, "f8", "b4");
    assert!(pos.in_check(Team::White));
    play(&mut pos, "b1", "c3");
    play(&mut pos, "a7", "a6");
    let pinned = pos.pseudo_legal_moves(sq("c3")).unwrap();
    assert_eq!(pinned.len(), 5);
    assert_eq!(pos.legal_moves(sq("c3")), Ok(vec![]));
    let kept = pos.prune_invalid_moves(&pinned);
    assert_eq!(kept, vec![]);
    let knight = pos.pseudo_legal_moves(sq("f3")).unwrap();
    assert_eq!(pos.prune_invalid_moves(&knight), knight);
}

#[test]
fn prune_invalid_moves_keeps_the_order_and_drops_squares_off_the_board() {
    let pos = Position::initial();
    let list = vec![
        mv("g1", "h3", Special::Normal),
        Move::new(Square::new(0, 8), sq("e4"), Special::Normal),
        mv("e2", "e4", Special::DoublePawnPush),
        mv("g1", "f3", Special::Normal),
    ];
    assert_eq!(
        pos.prune_invalid_moves(&list),
        vec![
            mv("g1", "h3", Special::Normal),
            mv("e2", "e4", Special::DoublePawnPush),
            mv("g1", "f3", Special::Normal)
        ]
    );
    assert_eq!(pos.prune_invalid_moves(&vec![]), vec![]);
}

#[test]
fn fools_mate_leaves_no_legal_move() {
    let mut pos = Position::initial();
    play(&mut pos, "f2", "f3");
    play_as(&mut pos, "e7", "e5", Special::DoublePawnPush);
    play_as(&mut pos, "g2", "g4", Special::DoublePawnPush);
    play(&mut pos, "d8", "h4");
    assert!(pos.in_check(Team::White));
    assert!(!pos.in_check(Team::Black));
    assert_eq!(all_legal(&pos).len(), 0);
    assert!(!pos.has_legal_move());
    assert!(pos.is_checkmate());
    assert!(!pos.is_stalemate());
}

#[test]
fn the_start_is_neither_mate_nor_stalemate() {
    let pos = Position::initial();
    assert!(pos.has_legal_move());
    assert!(!pos.is_checkmate());
    assert!(!pos.is_stalemate());
}

#[test]
fn a_side_with_no_move_and_no_check_is_stalemated() {
    let mut pos = Position::initial();
    play(&mut pos, "e2", "e3");
    play_as(&mut pos, "a7", "a5", Special::DoublePawnPush);
    play(&mut pos, "d1", "h5");
    play(&mut pos, "a8", "a6");
    play(&mut pos, "h5", "a5");
    play_as(&mut pos, "h7", "h5", Special::DoublePawnPush);
    play_as(&mut pos, "h2", "h4", Special::DoublePawnPush);
    play(&mut pos, "a6", "h6");
    play(&mut pos, "a5", "c7");
    play(&mut pos, "f7", "f6");
    play(&mut pos, "c7", "d7");
    assert!(pos.in_check(Team::Black));
    play(&mut pos, "e8", "f7");
    play(&mut pos, "d7", "b7");
    play(&mut pos, "d8", "d3");
    play(&mut pos, "b7", "b8");
    play(&mut pos, "d3", "h7");
    play(&mut pos, "b8", "c8");
    play(&mut pos, "f7", "g6");
    play(&mut pos, "c8", "e6");
    assert_eq!(pos.side_to_move(), Team::Black);
    assert!(!pos.in_check(Team::Black));
    assert_eq!(all_legal(&pos).len(), 0);
    assert!(!pos.has_legal_move());
    assert!(pos.is_stalemate());
    assert!(!pos.is_checkmate());
    assert_eq!(pos.fullmove_number(), 10);
}

#[test]
fn en_passant_is_offered_once_and_takes_the_passed_pawn() {
    let mut pos = Position::initial();
    play_as(&mut pos, "e2", "e4", Special::DoublePawnPush);
    play(&mut pos, "a7", "a6");
    play(&mut pos, "e4", "e5");
    play_as(&mut pos, "d7", "d5", Special::DoublePawnPush);
    assert_eq!(pos.en_passant_target(), Some(sq("d6")));
    let capture = mv("e5", "d6", Special::EnPassantCapture);
    let moves = pos.legal_moves(sq("e5")).unwrap();
    assert!(same_set(&moves, &vec![capture, mv("e5", "e6", Special::Normal)]));

    let mut taken = pos;
    assert_eq!(taken.apply(capture), Ok(()));
    assert_eq!(taken.piece_at(sq("d5")), None);
    assert_eq!(taken.piece_at(sq("e5")), None);
    assert_eq!(taken.piece_at(sq("d6")), Some((Team::White, Piece::Pawn)));
    assert_eq!(taken.pieces(Team::Black, Piece::Pawn).count_set(), 7);
    assert_eq!(taken.occupied().count_set(), 31);
    assert_eq!(taken.halfmove_clock(), 0);
    assert_eq!(taken.en_passant_target(), None);

    let mut later = pos;
    play(&mut later, "a2", "a3");
    play(&mut later, "a6", "a5");
    assert_eq!(later.en_passant_target(), None);
    assert_eq!(later.legal_moves(sq("e5")), Ok(vec![mv("e5", "e6", Special::Normal)]));
    assert_eq!(later.apply(capture), Err(CoreError::IllegalMove));
    assert_eq!(later.piece_at(sq("d5")), Some((Team::Black, Piece::Pawn)));
}

#[test]
fn en_passant_works_for_the_second_player_too() {
    let mut pos = Position::initial();
    play(&mut pos, "a2", "a3");
    play_as(&mut pos, "c7", "c5", Special::DoublePawnPush);
    play(&mut pos, "a3", "a4");
    play(&mut pos, "c5", "c4");
    play_as(&mut pos, "b2", "b4", Special::DoublePawnPush);
    assert_eq!(pos.en_passant_target(), Some(sq("b3")));
    play_as(&mut pos, "c4", "b3", Special::EnPassantCapture);
    assert_eq!(pos.piece_at(sq("b4")), None);
    assert_eq!(pos.piece_at(sq("b3")), Some((Team::Black, Piece::Pawn)));
    assert_eq!(pos.pieces(Team::White, Piece::Pawn).count_set(), 7);
}

fn before_promotion() -> Position {
    let mut pos = Position::initial();
    play_as(&mut pos, "a2", "a4", Special::DoublePawnPush);
    play_as(&mut pos, "b7", "b5", Special::DoublePawnPush);
    play(&mut pos, "a4", "b5");
    play(&mut pos, "a7", "a6");
    play(&mut pos, "b5", "a6");
    play(&mut pos, "b8", "c6");
    play(&mut pos, "a6", "a7");
    play(&mut pos, "a8", "b8");
    pos
}

#[test]
fn a_pawn_reaching_the_last_rank_has_four_moves_for_each_square() {
    let pos = before_promotion();
    let moves = pos.legal_moves(sq("a7")).unwrap();
    assert_eq!(moves.len(), 8);
    let kinds = [Piece::Queen, Piece::Rook, Piece::Bishop, Piece::Knight];
    for to in ["a8", "b8"] {
        let there: Vec<&Move> = moves.iter().filter(|m| m.destination() == sq(to)).collect();
        assert_eq!(there.len(), 4);
        for kind in kinds {
            assert!(moves.contains(&mv("a7", to, Special::Promotion(kind))));
        }
    }
    assert!(!moves.contains(&mv("a7", "a8", Special::Normal)));
    assert!(!moves.contains(&mv("a7", "a8", Special::Promotion(Piece::King))));
    assert!(!moves.contains(&mv("a7", "a8", Special::Promotion(Piece::Pawn))));
    let mut plain = pos;
    assert_eq!(plain.apply(mv("a7", "a8", Special::Normal)), Err(CoreError::IllegalMove));
    assert_eq!(
        plain.apply(mv("a7", "a8", Special::Promotion(Piece::King))),
        Err(CoreError::IllegalMove)
    );
}

#[test]
fn promotion_stands_the_chosen_kind_on_the_last_rank() {
    let mut pushed = before_promotion();
    play_as(&mut pushed, "a7", "a8", Special::Promotion(Piece::Knight));
    assert_eq!(pushed.piece_at(sq("a8")), Some((Team::White, Piece::Knight)));
    assert_eq!(pushed.piece_at(sq("a7")), None);
    assert_eq!(pushed.pieces(Team::White, Piece::Pawn).count_set(), 7);
    assert_eq!(pushed.pieces(Team::White, Piece::Knight).count_set(), 3);

    let mut took = before_promotion();
    play_as(&mut took, "a7", "b8", Special::Promotion(Piece::Queen));
    assert_eq!(took.piece_at(sq("b8")), Some((Team::White, Piece::Queen)));
    assert_eq!(took.pieces(Team::Black, Piece::Rook).count_set(), 1);
    assert_eq!(took.pieces(Team::White, Piece::Queen).count_set(), 2);
    assert_eq!(took.castling_rights().black_queenside, false);
    assert_eq!(took.castling_rights().black_kingside, true);
}

fn ready_to_castle() -> Position {
    let mut pos = Position::initial();
    play_as(&mut pos, "e2", "e4", Special::DoublePawnPush);
    play_as(&mut pos, "e7", "e5", Special::DoublePawnPush);
    play(&mut pos, "g1", "f3");
    play(&mut pos, "b8", "c6");
    play(&mut pos, "f1", "c4");
    play(&mut pos, "f8", "c5");
    pos
}

#[test]
fn castling_is_a_candidate_when_its_conditions_hold() {
    let mut pos = ready_to_castle();
    let castle = mv("e1", "g1", Special::CastleKingside);
    let moves = pos.legal_moves(sq("e1")).unwrap();
    assert!(same_set(
        &moves,
        &vec![castle, mv("e1", "e2", Special::Normal), mv("e1", "f1", Special::Normal)]
    ));
    assert_eq!(pos.apply(castle), Ok(()));
    assert_eq!(pos.piece_at(sq("g1")), Some((Team::White, Piece::King)));
    assert_eq!(pos.piece_at(sq("f1")), Some((Team::White, Piece::Rook)));
    assert_eq!(pos.piece_at(sq("e1")), None);
    assert_eq!(pos.piece_at(sq("h1")), None);
    assert_eq!(pos.castling_rights().white_kingside, false);
    assert_eq!(pos.castling_rights().white_queenside, false);
    assert_eq!(pos.castling_rights().black_kingside, true);
    assert_eq!(pos.castling_rights().black_queenside, true);
    assert_eq!(pos.halfmove_clock(), 5);
}

#[test]
fn castling_needs_a_free_path() {
    let mut pos = Position::initial();
    play_as(&mut pos, "e2", "e4", Special::DoublePawnPush);
    play_as(&mut pos, "e7", "e5", Special::DoublePawnPush);
    play(&mut pos, "g1", "f3");
    play(&mut pos, "b8", "c6");
    let moves = pos.legal_moves(sq("e1")).unwrap();
    assert_eq!(moves, vec![mv("e1", "e2", Special::Normal)]);
    assert_eq!(
        pos.apply(mv("e1", "g1", Special::CastleKingside)),
        Err(CoreError::IllegalMove)
    );
}

#[test]
fn castling_needs_the_right() {
    let mut pos = ready_to_castle();
    play(&mut pos, "e1", "e2");
    play(&mut pos, "a7", "a6");
    play(&mut pos, "e2", "e1");
    play(&mut pos, "a6", "a5");
    assert_eq!(pos.castling_rights().white_kingside, false);
    assert_eq!(pos.castling_rights().white_queenside, false);
    let moves = pos.legal_moves(sq("e1")).unwrap();
    assert!(same_set(
        &moves,
        &vec![mv("e1", "e2", Special::Normal), mv("e1", "f1", Special::Normal)]
    ));

    let mut rook = ready_to_castle();
    play(&mut rook, "h1", "g1");
    play(&mut rook, "a7", "a6");
    play(&mut rook, "g1", "h1");
    play(&mut rook, "a6", "a5");
    assert_eq!(rook.castling_rights().white_kingside, false);
    assert_eq!(rook.castling_rights().white_queenside, true);
    assert!(!rook
        .legal_moves(sq("e1"))
        .unwrap()
        .contains(&mv("e1", "g1", Special::CastleKingside)));
}

#[test]
fn castling_may_not_pass_over_an_attacked_square() {
    let mut pos = Position::initial();
    play_as(&mut pos, "e2", "e4", Special::DoublePawnPush);
    play(&mut pos, "b7", "b6");
    play(&mut pos, "g1", "f3");
    play(&mut pos, "c8", "a6");
    play(&mut pos, "g2", "g3");
    play(&mut pos, "b8", "c6");
    play(&mut pos, "f1", "g2");
    play(&mut pos, "c6", "b8");
    assert_eq!(pos.piece_at(sq("f1")), None);
    assert_eq!(pos.piece_at(sq("g1")), None);
    assert!(pos.castling_rights().white_kingside);
    assert!(pos.is_square_attacked(sq("f1"), Team::Black));
    assert!(!pos.is_square_attacked(sq("g1"), Team::Black));
    assert!(!pos.is_square_attacked(sq("e1"), Team::Black));
    let moves = pos.legal_moves(sq("e1")).unwrap();
    assert_eq!(moves, vec![]);
    let candidates = pos.pseudo_legal_moves(sq("e1")).unwrap();
    assert!(same_set(
        &candidates,
        &vec![mv("e1", "f1", Special::Normal), mv("e1", "e2", Special::Normal)]
    ));
    play(&mut pos, "d2", "d3");
    play(&mut pos, "b8", "c6");
    assert!(!pos.is_square_attacked(sq("f1"), Team::Black));
    assert!(pos.legal_moves(sq("e1")).unwrap().contains(&mv("e1", "g1", Special::CastleKingside)));
}

#[test]
fn castling_on_the_queens_side_brings_the_rook_to_file_three() {
    let mut pos = Position::initial();
    play_as(&mut pos, "d2", "d4", Special::DoublePawnPush);
    play_as(&mut pos, "d7", "d5", Special::DoublePawnPush);
    play(&mut pos, "b1", "c3");
    play(&mut pos, "b8", "c6");
    play(&mut pos, "c1", "f4");
    play(&mut pos, "c8", "f5");
    play(&mut pos, "d1", "d2");
    play(&mut pos, "d8", "d7");
    play_as(&mut pos, "e1", "c1", Special::CastleQueenside);
    assert_eq!(pos.piece_at(sq("c1")), Some((Team::White, Piece::King)));
    assert_eq!(pos.piece_at(sq("d1")), Some((Team::White, Piece::Rook)));
    assert_eq!(pos.piece_at(sq("a1")), None);
    assert_eq!(pos.piece_at(sq("e1")), None);
    play_as(&mut pos, "e8", "c8", Special::CastleQueenside);
    assert_eq!(pos.piece_at(sq("c8")), Some((Team::Black, Piece::King)));
    assert_eq!(pos.piece_at(sq("d8")), Some((Team::Black, Piece::Rook)));
    assert_eq!(
        pos.castling_rights(),
        Rights {
            white_kingside: false,
            white_queenside: false,
            black_kingside: false,
            black_queenside: false
        }
    );
}

#[test]
fn is_square_attacked_follows_the_attack_patterns() {
    let pos = Position::initial();
    assert!(pos.is_square_attacked(sq("e3"), Team::White));
    assert!(pos.is_square_attacked(sq("a3"), Team::White));
    assert!(pos.is_square_attacked(sq("f3"), Team::White));
    assert!(!pos.is_square_attacked(sq("e4"), Team::White));
    assert!(!pos.is_square_attacked(sq("e3"), Team::Black));
    assert!(pos.is_square_attacked(sq("e6"), Team::Black));
    assert!(pos.is_square_attacked(sq("d1"), Team::White));
    assert!(pos.is_square_attacked(sq("b1"), Team::White));
    assert!(!pos.is_square_attacked(Square::new(8, 0), Team::White));
    assert!(!pos.in_check(Team::White));
    assert!(!pos.in_check(Team::Black));
}

#[test]
fn sliders_stop_at_the_first_piece() {
    let at = Square::new;
    let occ = BitBoard(0).with_squares(&[at(3, 0), at(6, 3), at(3, 6)]);
    let rook = attacks_from(occ, Team::White, Piece::Rook, at(3, 3));
    let want = BitBoard(0).with_squares(&[
        at(4, 3),
        at(5, 3),
        at(6, 3),
        at(2, 3),
        at(1, 3),
        at(0, 3),
        at(3, 4),
        at(3, 5),
        at(3, 6),
        at(3, 2),
        at(3, 1),
        at(3, 0),
    ]);
    assert_eq!(rook, want);
    let east = ray_attacks(occ, at(3, 3), Direction::East);
    assert_eq!(east.iterate(), vec![28, 29, 30]);
    let north = ray_attacks(occ, at(3, 3), Direction::North);
    assert_eq!(north.iterate(), vec![35, 43, 51]);
    let edge = ray_attacks(BitBoard(0), at(3, 7), Direction::East);
    assert_eq!(edge, BitBoard(0));
    let diagonal = ray_attacks(BitBoard(0), at(0, 5), Direction::NorthEast);
    assert_eq!(diagonal.iterate(), vec![14, 23]);
    let bishop = attacks_from(BitBoard(0), Team::White, Piece::Bishop, at(0, 0));
    assert_eq!(bishop.iterate(), vec![9, 18, 27, 36, 45, 54, 63]);
    let queen = attacks_from(BitBoard(0), Team::Black, Piece::Queen, at(3, 3));
    assert_eq!(queen.count_set(), 27);
}

trait WithSquares {
    fn with_squares(self, squares: &[Square]) -> Self;
}

impl WithSquares for BitBoard {
    fn with_squares(mut self, squares: &[Square]) -> Self {
        for s in squares {
            self.set_bit(s.rank() * 8 + s.file()).unwrap();
        }
        self
    }
}

#[test]
fn leapers_jump_and_stay_on_the_board() {
    let at = Square::new;
    let knight = attacks_from(BitBoard(u64::MAX), Team::White, Piece::Knight, at(0, 6));
    assert_eq!(knight.iterate(), vec![12, 21, 23]);
    let center = attacks_from(BitBoard(0), Team::White, Piece::Knight, at(3, 3));
    assert_eq!(center.count_set(), 8);
    let king = attacks_from(BitBoard(0), Team::Black, Piece::King, at(0, 0));
    assert_eq!(king.iterate(), vec![1, 8, 9]);
    let white_pawn = attacks_from(BitBoard(0), Team::White, Piece::Pawn, at(6, 0));
    assert_eq!(white_pawn.iterate(), vec![41]);
    let black_pawn = attacks_from(BitBoard(0), Team::Black, Piece::Pawn, at(3, 4));
    assert_eq!(black_pawn.iterate(), vec![35, 37]);
    let last = attacks_from(BitBoard(0), Team::White, Piece::Pawn, at(0, 3));
    assert_eq!(last, BitBoard(0));
    let off = attacks_from(BitBoard(0), Team::White, Piece::Queen, at(8, 1));
    assert_eq!(off, BitBoard(0));
}

#[test]
fn location_queries_answer_for_one_side() {
    let pos = Position::initial();
    assert_eq!(pos.exists_piece_at_location(Team::White, 52), Ok(true));
    assert_eq!(pos.exists_piece_at_location(Team::Black, 52), Ok(false));
    assert_eq!(pos.exists_piece_at_location(Team::White, 12), Ok(false));
    assert_eq!(pos.exists_piece_at_location(Team::Black, 12), Ok(true));
    assert_eq!(pos.exists_piece_at_location(Team::White, 27), Ok(false));
    assert_eq!(pos.exists_piece_at_location(Team::Black, 27), Ok(false));
    assert_eq!(pos.exists_piece_at_location(Team::White, 64), Err(CoreError::IndexOutOfRange));
    assert_eq!(pos.get_piece_at_location(Team::White, 60), Ok(Some(Piece::King)));
    assert_eq!(pos.get_piece_at_location(Team::White, 59), Ok(Some(Piece::Queen)));
    assert_eq!(pos.get_piece_at_location(Team::Black, 4), Ok(Some(Piece::King)));
    assert_eq!(pos.get_piece_at_location(Team::Black, 3), Ok(Some(Piece::Queen)));
    assert_eq!(pos.get_piece_at_location(Team::Black, 60), Ok(None));
    assert_eq!(pos.get_piece_at_location(Team::White, 4), Ok(None));
    assert_eq!(pos.get_piece_at_location(Team::White, 57), Ok(Some(Piece::Knight)));
    assert_eq!(pos.get_piece_at_location(Team::White, 56), Ok(Some(Piece::Rook)));
    assert_eq!(pos.get_piece_at_location(Team::Black, 2), Ok(Some(Piece::Bishop)));
    assert_eq!(pos.get_piece_at_location(Team::Black, 10), Ok(Some(Piece::Pawn)));
    assert_eq!(pos.get_piece_at_location(Team::White, 30), Ok(None));
    assert_eq!(pos.get_piece_at_location(Team::White, 64), Err(CoreError::IndexOutOfRange));
}

#[test]
fn get_pawn_moves_lists_pushes_and_captures() {
    let mut pos = Position::initial();
    let start = pos.get_pawn_moves(Team::White, 52).unwrap();
    assert!(same_set(
        &start,
        &vec![mv("e2", "e3", Special::Normal), mv("e2", "e4", Special::DoublePawnPush)]
    ));
    let black = pos.get_pawn_moves(Team::Black, 12).unwrap();
    assert!(same_set(
        &black,
        &vec![mv("e7", "e6", Special::Normal), mv("e7", "e5", Special::DoublePawnPush)]
    ));
    assert_eq!(pos.get_pawn_moves(Team::White, 60), Ok(vec![]));
    assert_eq!(pos.get_pawn_moves(Team::White, 30), Ok(vec![]));
    assert_eq!(pos.get_pawn_moves(Team::Black, 52), Err(CoreError::NotYourPiece));
    assert_eq!(pos.get_pawn_moves(Team::White, 12), Err(CoreError::NotYourPiece));
    assert_eq!(pos.get_pawn_moves(Team::White, 64), Err(CoreError::IndexOutOfRange));
    play_as(&mut pos, "e2", "e4", Special::DoublePawnPush);
    play_as(&mut pos, "d7", "d5", Special::DoublePawnPush);
    let e4 = pos.get_pawn_moves(Team::White, 36).unwrap();
    assert!(same_set(
        &e4,
        &vec![mv("e4", "e5", Special::Normal), mv("e4", "d5", Special::Normal)]
    ));
    play(&mut pos, "e4", "e5");
    play_as(&mut pos, "f7", "f5", Special::DoublePawnPush);
    let e5 = pos.get_pawn_moves(Team::White, 28).unwrap();
    assert!(same_set(
        &e5,
        &vec![mv("e5", "e6", Special::Normal), mv("e5", "f6", Special::EnPassantCapture)]
    ));
    play(&mut pos, "a2", "a3");
    play(&mut pos, "d5", "d4");
    play(&mut pos, "a3", "a4");
    play(&mut pos, "d4", "d3");
    let blocked = pos.get_pawn_moves(Team::White, 51).unwrap();
    assert_eq!(blocked, vec![]);
}

#[test]
fn render_gives_the_board_rank_by_rank() {
    let mut pos = Position::initial();
    let grid = pos.render();
    assert_eq!(grid.len(), 8);
    for row in &grid {
        assert_eq!(row.len(), 8);
    }
    let back = [
        Piece::Rook,
        Piece::Knight,
        Piece::Bishop,
        Piece::Queen,
        Piece::King,
        Piece::Bishop,
        Piece::Knight,
        Piece::Rook,
    ];
    for file in 0..8usize {
        assert_eq!(grid[0][file], Some((Team::Black, back[file])));
        assert_eq!(grid[1][file], Some((Team::Black, Piece::Pawn)));
        assert_eq!(grid[6][file], Some((Team::White, Piece::Pawn)));
        assert_eq!(grid[7][file], Some((Team::White, back[file])));
        for rank in 2..6usize {
            assert_eq!(grid[rank][file], None);
        }
    }
    play_as(&mut pos, "e2", "e4", Special::DoublePawnPush);
    let grid = pos.render();
    assert_eq!(grid[4][4], Some((Team::White, Piece::Pawn)));
    assert_eq!(grid[6][4], None);
    for rank in 0..8usize {
        for file in 0..8usize {
            assert_eq!(grid[rank][file], pos.piece_at(Square::new(rank, file)));
        }
    }
}

#[test]
fn piece_letters() {
    assert_eq!(Piece::Rook.letter(), 'R');
    assert_eq!(Piece::Bishop.letter(), 'B');
    assert_eq!(Piece::Knight.letter(), 'N');
    assert_eq!(Piece::King.letter(), 'K');
    assert_eq!(Piece::Queen.letter(), 'Q');
    assert_eq!(Piece::Pawn.letter(), 'P');
}

#[test]
fn sides_and_their_ranks() {
    assert_eq!(Team::White.opponent(), Team::Black);
    assert_eq!(Team::Black.opponent(), Team::White);
    assert_eq!(Team::White.advance(), -1);
    assert_eq!(Team::Black.advance(), 1);
    assert_eq!(Team::White.back_rank(), 7);
    assert_eq!(Team::Black.back_rank(), 0);
    assert_eq!(Team::White.start_rank(), 6);
    assert_eq!(Team::Black.start_rank(), 1);
    assert_eq!(Team::White.far_rank(), 0);
    assert_eq!(Team::Black.far_rank(), 7);
    let rights = Position::initial().castling_rights();
    assert!(rights.has_kingside(Team::White));
    assert!(rights.has_queenside(Team::Black));
}

#[test]
fn a_game_offers_the_destinations_of_the_piece_on_a_square() {
    let mut game = Chess::new();
    assert_eq!(game.current_turn(), Team::White);
    assert_eq!(game.get_possible_moves_piece(52), Ok(Some(vec![sq("e4"), sq("e3")])));
    assert_eq!(game.get_possible_moves_piece(57), Ok(Some(vec![sq("a3"), sq("c3")])));
    assert_eq!(game.get_possible_moves_piece(60), Ok(Some(vec![])));
    assert_eq!(game.get_possible_moves_piece(27), Ok(Some(vec![])));
    assert_eq!(game.get_possible_moves_piece(30), Ok(Some(vec![])));
    assert_eq!(game.get_possible_moves_piece(12), Err(CoreError::NotYourPiece));
    assert_eq!(game.get_possible_moves_piece(64), Err(CoreError::IndexOutOfRange));
    assert_eq!(game.apply(mv("e2", "e5", Special::Normal)), Err(CoreError::IllegalMove));
    assert_eq!(game.apply(mv("e2", "e4", Special::DoublePawnPush)), Ok(()));
    assert_eq!(game.current_turn(), Team::Black);
    assert_eq!(game.get_possible_moves_piece(52), Ok(Some(vec![])));
    assert_eq!(game.get_possible_moves_piece(36), Err(CoreError::NotYourPiece));
    assert_eq!(game.get_possible_moves_piece(12), Ok(Some(vec![sq("e6"), sq("e5")])));
    assert_eq!(game.position().piece_at(sq("e4")), Some((Team::White, Piece::Pawn)));
}

#[test]
fn a_game_lists_a_promotion_square_once() {
    let pos = before_promotion();
    let moves = pos.legal_moves(sq("a7")).unwrap();
    assert_eq!(moves.len(), 8);
    let mut game = Chess::new();
    for (from, to, special) in [
        ("a2", "a4", Special::DoublePawnPush),
        ("b7", "b5", Special::DoublePawnPush),
        ("a4", "b5", Special::Normal),
        ("a7", "a6", Special::Normal),
        ("b5", "a6", Special::Normal),
        ("b8", "c6", Special::Normal),
        ("a6", "a7", Special::Normal),
        ("a8", "b8", Special::Normal),
    ] {
        assert_eq!(game.apply(mv(from, to, special)), Ok(()));
    }
    assert_eq!(game.get_possible_moves_piece(8), Ok(Some(vec![sq("a8"), sq("b8")])));
}

#[test]
fn a_move_holds_its_squares_and_its_tag() {
    let m = Move::new(sq("e7"), sq("e8"), Special::Promotion(Piece::Rook));
    assert_eq!(m.origin(), Square::new(1, 4));
    assert_eq!(m.destination(), Square::new(0, 4));
    assert_eq!(m.special(), Special::Promotion(Piece::Rook));
    assert_ne!(m, Move::new(sq("e7"), sq("e8"), Special::Promotion(Piece::Queen)));
}
