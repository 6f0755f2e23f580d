use tty_mate::board::{Board, PieceColor, PieceType};
use tty_mate::server::{
    classify_line, game_start_line, invalid_command_reply, no_game_reply, play_request, Log, Server, NewGame, Pairing,
    Request,
};

#[test]
fn server_pairs_players_in_arrival_order() {
    let mut server = Server::new();
    assert_eq!(server.join(), Pairing { player_id: 0, game: None });
    assert_eq!(server.waiting().iter().copied().collect::<Vec<usize>>(), vec![0]);
    assert_eq!(server.join(), Pairing { player_id: 1, game: Some(NewGame { game_id: 0, white: 0 }) });
    assert!(server.waiting().is_empty());
    assert_eq!(server.join(), Pairing { player_id: 2, game: None });
    assert_eq!(server.join(), Pairing { player_id: 3, game: Some(NewGame { game_id: 1, white: 2 }) });
    assert_eq!(server.join(), Pairing { player_id: 4, game: None });
}

#[test]
fn game_start_lines_name_game_and_colour() {
    assert_eq!(game_start_line(0, PieceColor::White), "s:0:w\n");
    assert_eq!(game_start_line(0, PieceColor::Black), "s:0:b\n");
    assert_eq!(game_start_line(105, PieceColor::White), "s:105:w\n");
}

#[test]
fn lines_are_classified() {
    assert_eq!(classify_line("m:12:28", true), Request::Play { from: 12, to: 28, piece_type: None });
    assert_eq!(classify_line("m:12:28", false), Request::NoGame);
    assert_eq!(classify_line("m:55:63:q", true), Request::Play { from: 55, to: 63, piece_type: Some(PieceType::Queen) });
    assert_eq!(classify_line("m:55:63:N", true), Request::Play { from: 55, to: 63, piece_type: Some(PieceType::Knight) });
    assert_eq!(classify_line("m:55:63:b", true), Request::Play { from: 55, to: 63, piece_type: Some(PieceType::Bishop) });
    assert_eq!(classify_line("m:55:63:R", true), Request::Play { from: 55, to: 63, piece_type: Some(PieceType::Rook) });
    assert_eq!(classify_line("m:55:63:x", true), Request::Invalid);
    assert_eq!(classify_line("m:12", true), Request::Invalid);
    assert_eq!(classify_line("m:abc:28", true), Request::Invalid);
    assert_eq!(classify_line("m:12:-1", true), Request::Invalid);
    assert_eq!(classify_line("x:12:28", true), Request::Invalid);
    assert_eq!(classify_line("", true), Request::Invalid);
    assert_eq!(classify_line("m:55:63:q:extra", true), Request::Play { from: 55, to: 63, piece_type: Some(PieceType::Queen) });
}

#[test]
fn refused_moves_are_answered() {
    let mut board = Board::new();
    // black's move out of turn is refused with the wire form of the error
    assert_eq!(play_request(&mut board, 51, 35, None), Err("e:m\n".to_string()));
    assert_eq!(board.get_piece_char(51), Some('p'));
    // an accepted move gives the line relayed to the opponent
    assert_eq!(play_request(&mut board, 12, 28, None), Ok("m:12:28\n".to_string()));
    assert_eq!(board.get_piece_char(28), Some('P'));
    assert_eq!(play_request(&mut board, 12, 28, None), Err("e:m\n".to_string()));
    assert_eq!(invalid_command_reply(), "e:i\n");
    assert_eq!(no_game_reply(), "e:n\n");
}

#[test]
fn relayed_moves_carry_the_promotion_piece() {
    let mut board = Board::new();
    assert_eq!(play_request(&mut board, 12, 28, Some(PieceType::Queen)), Ok("m:12:28:q\n".to_string()));
}

#[test]
fn log_lines_carry_their_level() {
    assert_eq!(Log::info("Server started"), "[INFO] Server started");
    assert_eq!(Log::error("Bind failed"), "[ERROR] Bind failed");
}
