use tty_mate::api::{ClientMessage, GameError, ServerMessage};
use tty_mate::board::PieceColor;
use tty_mate::game::Shade;
use tty_mate::menu::{AppAction, Key};
use tty_mate::multiplayer::MultiplayerGame;

fn started(color: PieceColor) -> MultiplayerGame {
    let mut game = MultiplayerGame::new();
    game.handle_network_event(ServerMessage::GameStart { game_id: 7, color });
    game
}

fn press(game: &mut MultiplayerGame, keys: &[Key]) -> Vec<ClientMessage> {
    let mut sent = Vec::new();
    for &k in keys {
        let (action, message) = game.handle_key_event(k);
        assert_eq!(action, AppAction::Idle);
        sent.extend(message);
    }
    sent
}

#[test]
fn waits_for_a_game_before_playing() {
    let mut game = MultiplayerGame::new();
    assert!(!game.running());
    assert_eq!(game.hover(), 11);
    assert_eq!(game.message(), "Welcome to TTY-Mate!");
    assert_eq!(game.player_color(), None);
    assert_eq!(press(&mut game, &[Key::Enter, Key::Up]), vec![]);
    assert_eq!(game.hover(), 11);
    assert_eq!(game.selected(), None);
}

#[test]
fn quitting_tells_the_server() {
    let mut game = MultiplayerGame::new();
    assert_eq!(game.handle_key_event(Key::Char('q')), (AppAction::QuitToMenu, Some(ClientMessage::Quit)));
    let mut game = started(PieceColor::White);
    assert_eq!(game.handle_key_event(Key::Char('q')), (AppAction::QuitToMenu, Some(ClientMessage::Quit)));
}

#[test]
fn game_start_sets_colour_and_cursor() {
    let game = started(PieceColor::White);
    assert!(game.running());
    assert_eq!(game.player_color(), Some(PieceColor::White));
    assert_eq!(game.hover(), 11);
    assert_eq!(game.message(), "Game started! You are playing as White.");
    let game = started(PieceColor::Black);
    assert_eq!(game.player_color(), Some(PieceColor::Black));
    assert_eq!(game.hover(), 52);
    assert_eq!(game.message(), "Game started! You are playing as Black.");
}

#[test]
fn own_move_is_played_and_handed_out() {
    let mut game = started(PieceColor::White);
    assert_eq!(press(&mut game, &[Key::Enter]), vec![]);
    assert_eq!(game.selected(), Some(11));
    assert!(game.is_highlighted(19));
    assert!(game.is_highlighted(27));
    let sent = press(&mut game, &[Key::Up, Key::Up, Key::Enter]);
    assert_eq!(sent, vec![ClientMessage::Move { from: 11, to: 27, piece_type: None }]);
    assert_eq!(game.history(), &vec!["White: d2 to d4".to_string()]);
    assert_eq!(game.board().get_current_turn(), PieceColor::Black);
    // now it is the opponent's turn
    assert_eq!(press(&mut game, &[Key::Enter]), vec![]);
    assert_eq!(game.message(), "Please wait for your opponent to move.");
}

#[test]
fn only_own_pieces_can_be_selected() {
    let mut game = started(PieceColor::White);
    // d2 up to d7, a black pawn
    press(&mut game, &[Key::Up, Key::Up, Key::Up, Key::Up, Key::Up, Key::Enter]);
    assert_eq!(game.hover(), 51);
    assert_eq!(game.selected(), None);
    assert_eq!(game.message(), "You can only select your own pieces!");
}

#[test]
fn black_sees_the_board_turned() {
    let mut game = started(PieceColor::Black);
    // for black, Up moves towards rank 1
    press(&mut game, &[Key::Up]);
    assert_eq!(game.hover(), 44);
    press(&mut game, &[Key::Char('j')]);
    assert_eq!(game.hover(), 52);
    // black's cursor on e7 is drawn at row 6, column 4
    assert_eq!(game.cell_shade(6, 4), Shade::Hover);
    assert_eq!(game.cell_shade(0, 0), Shade::Light);
}

#[test]
fn opponent_move_is_played_and_recorded() {
    let mut game = started(PieceColor::Black);
    game.handle_network_event(ServerMessage::Move { from: 12, to: 28, piece_type: None });
    assert_eq!(game.board().get_piece_char(28), Some('P'));
    assert_eq!(game.history(), &vec!["White: e2 to e4".to_string()]);
    assert_eq!(game.board().get_current_turn(), PieceColor::Black);
    let sent = press(&mut game, &[Key::Enter, Key::Up, Key::Up, Key::Enter]);
    assert_eq!(sent, vec![ClientMessage::Move { from: 52, to: 36, piece_type: None }]);
    assert_eq!(game.history()[1], "Black: e7 to e5");
}

#[test]
fn refused_opponent_move_is_still_recorded() {
    let mut game = started(PieceColor::Black);
    game.handle_network_event(ServerMessage::Move { from: 12, to: 44, piece_type: None });
    assert_eq!(game.board().get_piece_char(12), Some('P'));
    assert_eq!(game.board().get_current_turn(), PieceColor::White);
    assert_eq!(game.history(), &vec!["White: e2 to e6".to_string()]);
}

#[test]
fn losing_to_fools_mate() {
    let mut game = started(PieceColor::White);
    game.handle_network_event(ServerMessage::Move { from: 13, to: 21, piece_type: None });
    game.handle_network_event(ServerMessage::Move { from: 52, to: 36, piece_type: None });
    game.handle_network_event(ServerMessage::Move { from: 14, to: 30, piece_type: None });
    game.handle_network_event(ServerMessage::Move { from: 59, to: 31, piece_type: None });
    assert_eq!(game.message(), "CHECKMATE! You lose!");
    assert!(!game.running());
    assert_eq!(game.status_line(), "CHECKMATE! You lose!");
    // an abort after the end keeps the outcome
    game.handle_network_event(ServerMessage::GameAborted);
    assert_eq!(game.message(), "CHECKMATE! You lose!");
}

#[test]
fn winning_by_fools_mate() {
    let mut game = started(PieceColor::Black);
    for &(from, to) in &[(13, 21), (52, 36), (14, 30), (59, 31)] {
        game.handle_network_event(ServerMessage::Move { from, to, piece_type: None });
    }
    assert_eq!(game.message(), "CHECKMATE! You win!");
}

#[test]
fn abort_stops_the_game() {
    let mut game = started(PieceColor::White);
    game.handle_network_event(ServerMessage::GameAborted);
    assert!(!game.running());
    assert_eq!(game.message(), "Game aborted by opponent!");
    assert_eq!(press(&mut game, &[Key::Enter]), vec![]);
    assert_eq!(game.selected(), None);
}

#[test]
fn server_errors_are_shown() {
    let mut game = started(PieceColor::White);
    game.handle_network_error(GameError::InvalidMove);
    assert_eq!(game.message(), "Invalid move!");
    game.handle_network_error(GameError::NoGameFound);
    assert_eq!(game.message(), "Keep patience!, still finding game for you!");
    game.handle_network_error(GameError::InvalidMessage);
    assert_eq!(game.message(), "Invalid message.");
}
