use tty_mate::{Board, MoveList};

fn listed(list: &MoveList) -> Vec<usize> {
    list.moves[0..list.count].to_vec()
}

#[test]
fn simple_board_pawn_moves_forward_first() {
    let board = Board::new();
    assert_eq!(listed(&board.get_possible_moves(12).unwrap()), vec![20, 28]);
    assert_eq!(listed(&board.get_possible_moves(6).unwrap()), vec![23, 21]);
}

#[test]
fn simple_board_checks_turn_before_moves() {
    let board = Board::new();
    assert_eq!(board.get_possible_moves(52).err(), Some("It's not the current player's turn"));
    assert_eq!(board.get_possible_moves(30).err(), Some("No piece at the given index"));
}

#[test]
fn simple_board_moves_and_passes_turn() {
    let mut board = Board::new();
    assert_eq!(board.move_piece(12, 36), Err("Invalid move!"));
    assert_eq!(board.move_piece(12, 28), Ok(()));
    assert_eq!(board.move_piece(11, 27), Err("It's not the current player's turn"));
    assert_eq!(listed(&board.get_possible_moves(52).unwrap()), vec![44, 36]);
    assert_eq!(board.move_piece(52, 36), Ok(()));
    // the white pawn on e4 is blocked by the black pawn on e5
    assert_eq!(listed(&board.get_possible_moves(28).unwrap()), Vec::<usize>::new());
}

#[test]
fn simple_board_king_has_no_castling() {
    let mut board = Board::new();
    for &(from, to) in &[(12, 28), (52, 36), (6, 21), (62, 45), (5, 26), (61, 34)] {
        assert_eq!(board.move_piece(from, to), Ok(()));
    }
    assert_eq!(listed(&board.get_possible_moves(4).unwrap()), vec![12, 5]);
}

#[test]
fn simple_board_diagram_lists_rows_from_black_side() {
    let board = Board::new();
    let empty = "o o o o o o o o \n";
    let start = format!(
        "r n b q k b n r \np p p p p p p p \n{}{}{}{}P P P P P P P P \nR N B Q K B N R \n",
        empty, empty, empty, empty
    );
    assert_eq!(board.to_string(), start);
}
