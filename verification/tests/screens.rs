use tty_mate::board::PieceColor;
use tty_mate::game::{cell_square, history_entry, Game, Shade};
use tty_mate::menu::{AppAction, AppState, Key, Menu};

fn press(game: &mut Game, keys: &[Key]) {
    for &k in keys {
        assert_eq!(game.handle_key_event(k), AppAction::Idle);
    }
}

#[test]
fn menu_moves_between_two_entries() {
    let mut menu = Menu::default();
    assert_eq!(menu.hover(), 0);
    assert_eq!(menu.handle_key_event(Key::Up), AppAction::Idle);
    assert_eq!(menu.hover(), 0);
    assert_eq!(menu.handle_key_event(Key::Char('j')), AppAction::Idle);
    assert_eq!(menu.hover(), 1);
    assert_eq!(menu.handle_key_event(Key::Down), AppAction::Idle);
    assert_eq!(menu.hover(), 1);
    assert_eq!(menu.handle_key_event(Key::Enter), AppAction::Exit);
    assert_eq!(menu.handle_key_event(Key::Char('k')), AppAction::Idle);
    assert_eq!(menu.hover(), 0);
    assert_eq!(menu.handle_key_event(Key::Enter), AppAction::StartGame);
    assert_eq!(menu.handle_key_event(Key::Char('x')), AppAction::Idle);
    assert_eq!(menu.handle_key_event(Key::Char('q')), AppAction::Exit);
}

#[test]
fn app_state_follows_actions() {
    assert_eq!(AppState::Menu.after(AppAction::StartGame), AppState::Game);
    assert_eq!(AppState::Menu.after(AppAction::StartMultiplayer), AppState::Multiplayer);
    assert_eq!(AppState::Game.after(AppAction::QuitToMenu), AppState::Menu);
    assert_eq!(AppState::Game.after(AppAction::Idle), AppState::Game);
    assert_eq!(AppState::Menu.after(AppAction::Exit), AppState::Menu);
}

#[test]
fn game_starts_on_d4_with_a_welcome() {
    let game = Game::default();
    assert_eq!(game.hover(), 27);
    assert_eq!(game.selected(), None);
    assert_eq!(game.message(), "Welcome to TTY-Mate!");
    assert!(game.white_turn());
    assert!(game.history().is_empty());
    assert_eq!(game.status_line(), "White's Turn");
}

#[test]
fn game_cursor_wraps_around_the_board() {
    let mut game = Game::default();
    press(&mut game, &[Key::Char('h'), Key::Left, Key::Left, Key::Left]);
    assert_eq!(game.hover(), 31);
    press(&mut game, &[Key::Right]);
    assert_eq!(game.hover(), 24);
    press(&mut game, &[Key::Char('j'), Key::Down, Key::Down, Key::Down]);
    assert_eq!(game.hover(), 56);
    press(&mut game, &[Key::Up, Key::Char('k')]);
    assert_eq!(game.hover(), 8);
}

#[test]
fn game_selecting_an_empty_square_reports_an_error() {
    let mut game = Game::default();
    press(&mut game, &[Key::Enter]);
    assert_eq!(game.selected(), None);
    assert_eq!(game.message(), "Error: No piece at the given index");
}

#[test]
fn game_plays_a_move_and_records_it() {
    let mut game = Game::default();
    // from d4 to e2
    press(&mut game, &[Key::Down, Key::Down, Key::Right, Key::Enter]);
    assert_eq!(game.selected(), Some(12));
    assert!(game.is_highlighted(20));
    assert!(game.is_highlighted(28));
    assert!(!game.is_highlighted(36));
    press(&mut game, &[Key::Up, Key::Up, Key::Enter]);
    assert_eq!(game.selected(), None);
    assert!(!game.white_turn());
    assert_eq!(game.board().get_current_turn(), PieceColor::Black);
    assert_eq!(game.history(), &vec!["White: e2 to e4".to_string()]);
    assert_eq!(game.board().get_piece_char(28), Some('P'));
    assert_eq!(game.status_line(), "Black's Turn");
    assert_eq!(game.handle_key_event(Key::Char('q')), AppAction::QuitToMenu);
}

#[test]
fn game_escape_clears_the_selection() {
    let mut game = Game::default();
    press(&mut game, &[Key::Down, Key::Down, Key::Enter]);
    assert_eq!(game.selected(), Some(11));
    press(&mut game, &[Key::Esc]);
    assert_eq!(game.selected(), None);
    assert!(!game.is_highlighted(19));
}

#[test]
fn game_enter_on_a_non_target_reselects() {
    let mut game = Game::default();
    press(&mut game, &[Key::Down, Key::Down, Key::Enter, Key::Right, Key::Enter]);
    assert_eq!(game.selected(), Some(12));
    assert_eq!(game.history().len(), 0);
}

#[test]
fn game_moving_an_opponent_piece_reports_the_turn() {
    let mut game = Game::default();
    press(&mut game, &[Key::Up, Key::Up, Key::Up, Key::Enter]);
    assert_eq!(game.hover(), 51);
    assert_eq!(game.selected(), Some(51));
    assert!(game.is_highlighted(43));
    press(&mut game, &[Key::Down, Key::Enter]);
    assert_eq!(game.selected(), None);
    assert_eq!(game.message(), "Error: It's not your turn");
    assert!(game.history().is_empty());
}

#[test]
fn game_fools_mate_shows_the_winner() {
    let mut game = Game::default();
    // f2-f3 (13 -> 21)
    press(&mut game, &[Key::Down, Key::Down, Key::Right, Key::Right, Key::Enter, Key::Up, Key::Enter]);
    // e7-e5 (52 -> 36)
    press(&mut game, &[Key::Up, Key::Up, Key::Up, Key::Up, Key::Left, Key::Enter, Key::Down, Key::Down, Key::Enter]);
    // g2-g4 (14 -> 30)
    press(&mut game, &[Key::Down, Key::Down, Key::Down, Key::Right, Key::Right, Key::Enter, Key::Up, Key::Up, Key::Enter]);
    // Qd8-h4 (59 -> 31)
    press(&mut game, &[Key::Up, Key::Up, Key::Up, Key::Up, Key::Left, Key::Left, Key::Left, Key::Enter]);
    assert_eq!(game.selected(), Some(59));
    press(&mut game, &[Key::Down, Key::Down, Key::Down, Key::Down, Key::Right, Key::Right, Key::Right, Key::Right, Key::Enter]);
    assert_eq!(game.history().len(), 4);
    assert_eq!(game.history()[3], "Black: d8 to h4");
    assert_eq!(game.message(), "CHECKMATE! Black wins!");
    assert_eq!(game.status_line(), "CHECKMATE! Black wins!");
    assert_eq!(game.board().is_game_over(), (true, Some(PieceColor::Black)));
    // the king in check is shaded: e1 is drawn at row 7, column 4
    assert_eq!(game.cell_shade(7, 4), Shade::Checked);
    // nothing more happens once the game is over
    press(&mut game, &[Key::Enter]);
    assert_eq!(game.selected(), None);
}

#[test]
fn game_cells_are_shaded_by_role() {
    let mut game = Game::default();
    // the cursor on d4 is drawn at row 4, column 3
    assert_eq!(game.cell_shade(4, 3), Shade::Hover);
    assert_eq!(game.cell_shade(0, 0), Shade::Light);
    assert_eq!(game.cell_shade(0, 1), Shade::Dark);
    press(&mut game, &[Key::Down, Key::Down, Key::Enter]);
    // d2 selected, d3 and d4 highlighted
    assert_eq!(game.cell_shade(6, 3), Shade::Selected);
    assert_eq!(game.cell_shade(5, 3), Shade::Target);
    assert_eq!(game.cell_shade(4, 3), Shade::Target);
}

#[test]
fn cells_map_to_squares_from_either_side() {
    assert_eq!(cell_square(0, 0, true), 56);
    assert_eq!(cell_square(7, 4, true), 4);
    assert_eq!(cell_square(0, 0, false), 0);
    assert_eq!(cell_square(7, 4, false), 60);
}

#[test]
fn history_entries_name_the_squares() {
    assert_eq!(history_entry("White:", 12, 28), "White: e2 to e4");
    assert_eq!(history_entry("Black:", 63, 0), "Black: h8 to a1");
}

#[test]
fn menu_entries_show_the_highlight() {
    let mut menu = Menu::default();
    assert_eq!(menu.entry(0), ("Start Local Game", true));
    assert_eq!(menu.entry(1), ("Quit", false));
    menu.handle_key_event(Key::Down);
    assert_eq!(menu.entry(0), ("Start Local Game", false));
    assert_eq!(menu.entry(1), ("Quit", true));
}
