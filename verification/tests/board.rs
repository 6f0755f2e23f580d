use tty_mate::board::{Board, MoveList, PieceColor};

fn play(board: &mut Board, moves: &[(usize, usize)]) {
    for &(from, to) in moves {
        assert_eq!(board.move_piece(from, to), Ok(()), "move {} -> {}", from, to);
    }
}

fn listed(list: &MoveList) -> Vec<usize> {
    list.moves[0..list.count].to_vec()
}

#[test]
fn initial_position() {
    let board = Board::new();
    let back: Vec<Option<char>> = (0..8).map(|i| board.get_piece_char(i)).collect();
    assert_eq!(back, "RNBQKBNR".chars().map(Some).collect::<Vec<_>>());
    let black_back: Vec<Option<char>> = (56..64).map(|i| board.get_piece_char(i)).collect();
    assert_eq!(black_back, "rnbqkbnr".chars().map(Some).collect::<Vec<_>>());
    for i in 8..16 {
        assert_eq!(board.get_piece_char(i), Some('P'));
    }
    for i in 48..56 {
        assert_eq!(board.get_piece_char(i), Some('p'));
    }
    for i in 16..48 {
        assert_eq!(board.get_piece_char(i), None);
        assert_eq!(board.get_piece_color(i), None);
    }
    assert_eq!(board.get_current_turn(), PieceColor::White);
    assert_eq!(board.is_game_over(), (false, None));
    assert_eq!(board.get_checked_index(), None);
}

#[test]
fn index_to_coordinates_splits_row_and_column() {
    assert_eq!(Board::index_to_coordinates(0), (0, 0));
    assert_eq!(Board::index_to_coordinates(12), (1, 4));
    assert_eq!(Board::index_to_coordinates(63), (7, 7));
}

#[test]
fn knight_moves_from_start() {
    let board = Board::new();
    let moves = board.get_possible_moves(1).unwrap();
    assert_eq!(listed(&moves), vec![18, 16]);
}

#[test]
fn pawn_moves_from_start() {
    let board = Board::new();
    assert_eq!(listed(&board.get_possible_moves(12).unwrap()), vec![20, 28]);
    assert_eq!(listed(&board.get_possible_moves(52).unwrap()), vec![44, 36]);
}

#[test]
fn empty_square_has_no_moves() {
    let mut board = Board::new();
    assert_eq!(board.get_possible_moves(30).err(), Some("No piece at the given index"));
    assert_eq!(board.get_valid_moves(30).err(), Some("No piece at the given index"));
    assert_eq!(board.move_piece(30, 38), Err("No piece at the given index"));
}

#[test]
fn turns_alternate() {
    let mut board = Board::new();
    assert_eq!(board.move_piece(52, 36), Err("It's not your turn"));
    assert_eq!(board.move_piece(12, 28), Ok(()));
    assert_eq!(board.get_current_turn(), PieceColor::Black);
    assert_eq!(board.get_piece_char(28), Some('P'));
    assert_eq!(board.get_piece_char(12), None);
    assert_eq!(board.move_piece(11, 27), Err("It's not your turn"));
    assert_eq!(board.move_piece(52, 36), Ok(()));
    assert_eq!(board.get_current_turn(), PieceColor::White);
}

#[test]
fn invalid_target_is_refused() {
    let mut board = Board::new();
    assert_eq!(board.move_piece(12, 36), Err("Invalid move!"));
    assert_eq!(board.move_piece(0, 8), Err("Invalid move!"));
    assert_eq!(board.get_current_turn(), PieceColor::White);
    assert_eq!(board.get_piece_char(12), Some('P'));
}

#[test]
fn fools_mate_ends_the_game() {
    let mut board = Board::new();
    play(&mut board, &[(13, 21), (52, 36), (14, 30), (59, 31)]);
    assert_eq!(board.is_game_over(), (true, Some(PieceColor::Black)));
    assert_eq!(board.get_checked_index(), Some(4));
    assert_eq!(board.move_piece(12, 20), Err("Game is already over"));
}

#[test]
fn check_restricts_the_defence() {
    let mut board = Board::new();
    // 1. e4 f5 2. Qh5+
    play(&mut board, &[(12, 28), (53, 37), (3, 39)]);
    assert_eq!(board.get_checked_index(), Some(60));
    assert_eq!(board.is_game_over(), (false, None));
    // a pawn far away cannot move while the king is in check
    assert_eq!(listed(&board.get_valid_moves(48).unwrap()), Vec::<usize>::new());
    assert_eq!(board.move_piece(48, 40), Err("Invalid move!"));
    // g7-g6 blocks the check
    assert_eq!(listed(&board.get_valid_moves(54).unwrap()), vec![46]);
    assert_eq!(board.move_piece(54, 46), Ok(()));
    assert_eq!(board.get_checked_index(), None);
}

#[test]
fn valid_moves_leave_the_board_unchanged() {
    let mut board = Board::new();
    play(&mut board, &[(12, 28), (53, 37), (3, 39)]);
    let before: Vec<Option<char>> = (0..64).map(|i| board.get_piece_char(i)).collect();
    for idx in 0..64 {
        let _ = board.get_valid_moves(idx);
    }
    let after: Vec<Option<char>> = (0..64).map(|i| board.get_piece_char(i)).collect();
    assert_eq!(before, after);
    assert_eq!(board.get_current_turn(), PieceColor::Black);
}

#[test]
fn kingside_castling_moves_the_rook() {
    let mut board = Board::new();
    play(&mut board, &[(12, 28), (52, 36), (6, 21), (57, 42), (5, 26), (62, 45)]);
    assert!(listed(&board.get_valid_moves(4).unwrap()).contains(&6));
    assert_eq!(board.move_piece(4, 6), Ok(()));
    assert_eq!(board.get_piece_char(6), Some('K'));
    assert_eq!(board.get_piece_char(5), Some('R'));
    assert_eq!(board.get_piece_char(7), None);
    assert_eq!(board.get_piece_char(4), None);
}

#[test]
fn castling_through_an_attacked_square_is_refused() {
    let mut board = Board::new();
    // 1. e4 b6 2. Nf3 Ba6 3. g3 e6 4. Bg2 h6: f1 and g1 are empty, but the
    // bishop on a6 eyes f1 along a6-b5-c4-d3-e2-f1.
    play(&mut board, &[(12, 28), (49, 41), (6, 21), (58, 40), (14, 22), (52, 44), (5, 14), (55, 47)]);
    assert_eq!(board.get_piece_char(40), Some('b'));
    assert_eq!(board.get_checked_index(), None);
    assert!(!listed(&board.get_valid_moves(4).unwrap()).contains(&6));
}

#[test]
fn en_passant_capture() {
    let mut board = Board::new();
    play(&mut board, &[(12, 28), (48, 40), (28, 36), (51, 35)]);
    assert!(listed(&board.get_valid_moves(36).unwrap()).contains(&43));
    assert_eq!(board.move_piece(36, 43), Ok(()));
    assert_eq!(board.get_piece_char(43), Some('P'));
    assert_eq!(board.get_piece_char(35), None);
}

#[test]
fn en_passant_expires_after_one_move() {
    let mut board = Board::new();
    play(&mut board, &[(12, 28), (48, 40), (28, 36), (51, 35), (8, 16), (40, 32)]);
    assert!(!listed(&board.get_valid_moves(36).unwrap()).contains(&43));
}

#[test]
fn pawn_promotes_to_queen() {
    let mut board = Board::new();
    play(&mut board, &[(15, 31), (54, 38), (31, 38), (55, 47), (38, 47), (48, 40), (47, 55), (40, 32), (55, 62)]);
    assert_eq!(board.get_piece_char(62), Some('Q'));
}

#[test]
fn stalemate_has_no_winner() {
    // The shortest known stalemate (Sam Loyd, 10 moves).
    let mut board = Board::new();
    play(
        &mut board,
        &[
            (12, 20), (48, 32), // e3 a5
            (3, 39), (56, 40),  // Qh5 Ra6
            (39, 32), (55, 39), // Qxa5 h5
            (15, 31), (40, 47), // h4 Rah6
            (32, 50), (53, 45), // Qxc7 f6
            (50, 51), (60, 53), // Qxd7+ Kf7
            (51, 49), (59, 19), // Qxb7 Qd3
            (49, 57), (19, 55), // Qxb8 Qh7
            (57, 58), (53, 46), // Qxc8 Kg6
            (58, 44),           // Qe6 stalemate
        ],
    );
    assert_eq!(board.is_game_over(), (true, None));
    assert_eq!(board.get_checked_index(), None);
}

#[test]
fn move_list_push_appends() {
    let mut list = MoveList::new();
    assert_eq!(list.count, 0);
    list.push(5);
    list.push(9);
    assert_eq!(list.count, 2);
    assert_eq!(&list.moves[0..2], &[5, 9]);
    assert!(list.contains(9));
    assert!(!list.contains(0));
}

#[test]
fn pinned_piece_cannot_expose_the_king() {
    let mut board = Board::new();
    // 1. d4 e6 2. Nc3 Bb4: the knight on c3 shields the king on e1
    play(&mut board, &[(11, 27), (52, 44), (1, 18), (61, 25)]);
    assert_eq!(board.get_checked_index(), None);
    assert_eq!(listed(&board.get_valid_moves(18).unwrap()), Vec::<usize>::new());
    assert_eq!(board.move_piece(18, 35), Err("Invalid move!"));
    // other pieces still move
    assert_eq!(board.move_piece(6, 21), Ok(()));
}

#[test]
fn board_diagram_lists_rows_from_white_side() {
    let mut board = Board::new();
    let empty = "o o o o o o o o \n";
    let start = format!(
        "R N B Q K B N R \nP P P P P P P P \n{}{}{}{}p p p p p p p p \nr n b q k b n r \n",
        empty, empty, empty, empty
    );
    assert_eq!(board.to_string(), start);
    assert_eq!(board.move_piece(12, 28), Ok(()));
    let after = format!(
        "R N B Q K B N R \nP P P P o P P P \n{}o o o o P o o o \n{}{}p p p p p p p p \nr n b q k b n r \n",
        empty, empty, empty
    );
    assert_eq!(board.to_string(), after);
}

#[test]
fn king_cannot_step_into_check() {
    let mut board = Board::new();
    // 1. e4 e5 2. Ke2 Qg5: the queen watches e3 along g5-f4-e3
    play(&mut board, &[(12, 28), (52, 36), (4, 12), (59, 38)]);
    assert!(!listed(&board.get_valid_moves(12).unwrap()).contains(&20));
    assert_eq!(board.move_piece(12, 20), Err("Invalid move!"));
    assert_eq!(board.move_piece(12, 21), Ok(()));
}

#[test]
fn capturing_a_rook_on_its_corner_ends_that_castling() {
    let mut board = Board::new();
    // 1. g4 b6 2. Nh3 Bb7 3. e3 Bxh1 4. Bd3 e6: f1 and g1 are empty, but the
    // rook on h1 was taken there
    play(&mut board, &[(14, 30), (49, 41), (6, 23), (58, 49), (12, 20), (49, 7), (5, 19), (52, 44)]);
    assert_eq!(board.get_piece_char(7), Some('b'));
    assert!(!listed(&board.get_valid_moves(4).unwrap()).contains(&6));
    assert_eq!(board.move_piece(4, 6), Err("Invalid move!"));
}
