//! The networked game screen: the player plays one colour, moves of the
//! opponent arrive from the server, own moves are handed out to be sent.
use vstd::prelude::*;

use crate::api::{ClientMessage, GameError, ServerMessage};
use crate::board::{Board, MoveList, PieceColor};
use crate::game::{
    cell_square, shade, shade_of, Shade, error_message, history_entry, move_record, square_down, square_left, square_right, square_up,
    text_of,
};
use crate::menu::{AppAction, Key};
use crate::model::{after_move, move_refusal, valid_moves, wf, BoardView};

verus! {

/// The state of the networked game screen as a mathematical value.
pub struct MultiplayerView {
    pub running: bool,
    pub hover: usize,
    pub selected: Option<usize>,
    pub moves: Seq<usize>,
    pub message: Seq<char>,
    pub board: BoardView,
    pub history: Seq<Seq<char>>,
    pub player_color: Option<PieceColor>,
}

pub struct MultiplayerGame {
    running: bool,
    hover: usize,
    selected: Option<usize>,
    current_move_list: MoveList,
    message: String,
    board: Board,
    move_history: Vec<String>,
    player_color: Option<PieceColor>,
}

impl View for MultiplayerGame {
    type V = MultiplayerView;

    closed spec fn view(&self) -> MultiplayerView {
        MultiplayerView {
            running: self.running,
            hover: self.hover,
            selected: self.selected,
            moves: self.current_move_list@,
            message: self.message@,
            board: self.board@,
            history: self.move_history@.map_values(|s: String| s@),
            player_color: self.player_color,
        }
    }
}

/// The colour the board is seen from.
pub open spec fn view_color(m: MultiplayerView) -> PieceColor {
    match m.player_color {
        Some(c) => c,
        None => PieceColor::White,
    }
}

/// The name of a colour.
pub open spec fn color_name(c: PieceColor) -> Seq<char> {
    match c {
        PieceColor::White => "White"@,
        PieceColor::Black => "Black"@,
    }
}

/// The message on a finished game, told from the player's side.
pub open spec fn outcome_message(m: MultiplayerView, winner: Option<PieceColor>) -> Seq<char> {
    match winner {
        Some(w) => if w == view_color(m) {
            "CHECKMATE! You win!"@
        } else {
            "CHECKMATE! You lose!"@
        },
        None => "STALEMATE! It's a draw!"@,
    }
}

/// After a move: when the game ended, its outcome is shown and play stops.
pub open spec fn settle(m: MultiplayerView) -> MultiplayerView {
    if m.board.game_over {
        MultiplayerView { message: outcome_message(m, m.board.winner), running: false, ..m }
    } else {
        m
    }
}

pub open spec fn mp_deselected(m: MultiplayerView) -> MultiplayerView {
    MultiplayerView { selected: None, moves: Seq::empty(), ..m }
}

/// The screen after a message from the server. A move of the opponent is
/// played on the board as far as the board accepts it and recorded either way.
pub open spec fn after_server_message(m: MultiplayerView, msg: ServerMessage) -> MultiplayerView {
    match msg {
        ServerMessage::GameStart { game_id, color } => MultiplayerView {
            running: true,
            player_color: Some(color),
            hover: if color == PieceColor::White {
                11
            } else {
                52
            },
            message: "Game started! You are playing as "@ + color_name(color) + "."@,
            ..m
        },
        ServerMessage::Move { from, to, piece_type } => {
            let b = if move_refusal(m.board, from, to) is None {
                after_move(m.board, from, to)
            } else {
                m.board
            };
            let entry = (if m.player_color != Some(PieceColor::White) {
                "White:"@
            } else {
                "Black:"@
            }) + " "@ + move_record(from, to);
            settle(MultiplayerView { board: b, history: m.history.push(entry), ..m })
        },
        ServerMessage::GameAborted => if m.board.game_over {
            MultiplayerView { running: false, ..m }
        } else {
            MultiplayerView { running: false, message: "Game aborted by opponent!"@, ..m }
        },
    }
}

/// The message shown for an error reported by the server.
pub open spec fn error_text(e: GameError) -> Seq<char> {
    match e {
        GameError::InvalidMove => "Invalid move!"@,
        GameError::NoGameFound => "Keep patience!, still finding game for you!"@,
        GameError::InvalidMessage => "Invalid message."@,
    }
}

/// Selecting the piece under the cursor: only the player's own pieces.
pub open spec fn mp_select(m: MultiplayerView) -> MultiplayerView {
    let sq = m.board.squares[m.hover as int];
    let mine = match m.player_color {
        Some(c) => sq is Some && sq.unwrap().piece_color == c,
        None => false,
    };
    if !mine {
        MultiplayerView { message: "You can only select your own pieces!"@, ..m }
    } else {
        MultiplayerView { selected: Some(m.hover), moves: valid_moves(m.board, m.hover as int), ..m }
    }
}

/// The effect of Enter, and the move to send to the server if one was played.
pub open spec fn mp_enter(m: MultiplayerView) -> (MultiplayerView, Option<ClientMessage>) {
    if m.board.game_over || !m.running {
        (m, None)
    } else if Some(m.board.current_turn) != m.player_color {
        (MultiplayerView { message: "Please wait for your opponent to move."@, ..m }, None)
    } else if m.selected is Some && m.moves.contains(m.hover) {
        let from = m.selected.unwrap();
        match move_refusal(m.board, from, m.hover) {
            Some(e) => (MultiplayerView { message: "Error: "@ + e, ..mp_deselected(m) }, None),
            None => {
                let entry = (if m.player_color == Some(PieceColor::White) {
                    "White:"@
                } else {
                    "Black:"@
                }) + " "@ + move_record(from, m.hover);
                (
                    settle(
                        MultiplayerView {
                            board: after_move(m.board, from, m.hover),
                            history: m.history.push(entry),
                            ..mp_deselected(m)
                        },
                    ),
                    Some(ClientMessage::Move { from, to: m.hover, piece_type: None }),
                )
            },
        }
    } else {
        (mp_select(m), None)
    }
}

/// The cursor one row up as the player sees the board.
pub open spec fn mp_up(m: MultiplayerView) -> usize {
    if view_color(m) == PieceColor::White {
        square_up(m.hover)
    } else {
        square_down(m.hover)
    }
}

/// The cursor one row down as the player sees the board.
pub open spec fn mp_down(m: MultiplayerView) -> usize {
    if view_color(m) == PieceColor::White {
        square_down(m.hover)
    } else {
        square_up(m.hover)
    }
}

/// The screen after a key other than `q` while the game runs, and the
/// move to send if one was played.
pub open spec fn mp_after_key(m: MultiplayerView, key: Key) -> (MultiplayerView, Option<ClientMessage>) {
    match key {
        Key::Esc => (mp_deselected(m), None),
        Key::Enter => mp_enter(m),
        Key::Char('h') | Key::Left => (MultiplayerView { hover: square_left(m.hover), ..m }, None),
        Key::Char('l') | Key::Right => (MultiplayerView { hover: square_right(m.hover), ..m }, None),
        Key::Char('j') | Key::Down => (MultiplayerView { hover: mp_down(m), ..m }, None),
        Key::Char('k') | Key::Up => (MultiplayerView { hover: mp_up(m), ..m }, None),
        _ => (m, None),
    }
}

/// A move is handed out to be sent only while the game runs and it is the
/// player's turn, and only one the board accepted and played: a legal move
/// of one of the player's own pieces.
pub proof fn lemma_sent_moves_are_own_legal_moves(m: MultiplayerView, key: Key)
    requires
        mp_wf(m),
    ensures
        mp_after_key(m, key).1 matches Some(msg) ==> {
            &&& m.running
            &&& m.player_color == Some(m.board.current_turn)
            &&& msg matches ClientMessage::Move { from, to, piece_type } && piece_type is None
                && move_refusal(m.board, from, to) is None
                && m.board.squares[from as int].unwrap().piece_color == m.board.current_turn
                && mp_after_key(m, key).0.board == after_move(m.board, from, to)
        },
{
}

pub open spec fn mp_wf(m: MultiplayerView) -> bool {
    &&& wf(m.board)
    &&& m.hover < 64
    &&& m.selected matches Some(s) ==> s < 64
}

impl MultiplayerGame {
    /// The invariant of the screen.
    pub closed spec fn well_formed(&self) -> bool {
        mp_wf(self@) && self.current_move_list.count <= 27
    }

    pub fn new() -> (g: Self)
        ensures
            g.well_formed(),
            !g@.running,
            g@.hover == 11,
            g@.selected is None,
            g@.moves == Seq::<usize>::empty(),
            g@.message == "Welcome to TTY-Mate!"@,
            g@.history == Seq::<Seq<char>>::empty(),
            g@.player_color is None,
            crate::board::start_position(g@.board),
    {
        let g = MultiplayerGame {
            running: false,
            hover: 11,  // Start with white's hover
            selected: None,
            current_move_list: MoveList::new(),
            message: text_of("Welcome to TTY-Mate!"),
            board: Board::new(),
            move_history: Vec::new(),
            player_color: None,
        };
        assert(g@.history =~= Seq::<Seq<char>>::empty());
        g
    }

    /// Applies a message from the server. A move's origin must lie on the
    /// board unless the game is over (the board cannot look at any other
    /// square).
    pub fn handle_network_event(&mut self, message: ServerMessage)
        requires
            old(self).well_formed(),
            message matches ServerMessage::Move { from, .. } ==> from < 64 || old(self)@.board.game_over,
        ensures
            final(self).well_formed(),
            final(self)@ == after_server_message(old(self)@, message),
    {
        let ghost m = self@;
        match message {
            ServerMessage::GameStart { game_id: _, color } => {
                self.running = true;
                self.player_color = Some(color);
                match color {
                    PieceColor::White => self.hover = 11,  // Start with white's hover
                    PieceColor::Black => self.hover = 52,  // Start with black's hover
                }
                let mut text = text_of("Game started! You are playing as ");
                match color {
                    PieceColor::White => crate::text::push_str(&mut text, "White"),
                    PieceColor::Black => crate::text::push_str(&mut text, "Black"),
                }
                crate::text::push_str(&mut text, ".");
                self.message = text;
            },
            ServerMessage::Move { from, to, piece_type: _ } => {
                let _ = self.board.move_piece(from, to);
                let color_prefix = if self.player_color != Some(PieceColor::White) {
                    "White:"
                } else {
                    "Black:"
                };
                let entry = history_entry(color_prefix, from, to);
                self.move_history.push(entry);
                assert(self@.history =~= m.history.push(entry@));
                self.settle();
            },
            ServerMessage::GameAborted => {
                self.running = false;
                let (is_game_over, _) = self.board.is_game_over();
                if is_game_over {
                    return;
                }
                self.message = text_of("Game aborted by opponent!");
            },
        }
    }

    /// Shows the outcome and stops play once the game is over.
    fn settle(&mut self)
        ensures
            final(self)@ == settle(old(self)@),
            final(self).current_move_list == old(self).current_move_list,
    {
        let (is_game_over, winner) = self.board.is_game_over();
        if is_game_over {
            if let Some(winner) = winner {
                let mine = match self.player_color {
                    Some(c) => c,
                    None => PieceColor::White,
                };
                self.message = if winner == mine {
                    text_of("CHECKMATE! You win!")
                } else {
                    text_of("CHECKMATE! You lose!")
                };
            } else {
                self.message = text_of("STALEMATE! It's a draw!");
            }
            self.running = false;
        }
    }

    /// Shows an error reported by the server.
    pub fn handle_network_error(&mut self, error: GameError)
        requires
            old(self).well_formed(),
        ensures
            final(self).well_formed(),
            final(self)@ == (MultiplayerView { message: error_text(error), ..old(self)@ }),
    {
        match error {
            GameError::InvalidMove => {
                self.message = text_of("Invalid move!");
            },
            GameError::NoGameFound => {
                self.message = text_of("Keep patience!, still finding game for you!");
            },
            GameError::InvalidMessage => {
                self.message = text_of("Invalid message.");
            },
        }
    }

    /// Handles a key: `q` quits to the menu and tells the server; while the
    /// game runs, Esc clears the selection, Enter selects or moves (the move
    /// is returned to be sent), `h`/`j`/`k`/`l` and the arrows move the cursor.
    pub fn handle_key_event(&mut self, key: Key) -> (r: (AppAction, Option<ClientMessage>))
        requires
            old(self).well_formed(),
        ensures
            final(self).well_formed(),
            key == Key::Char('q') ==> r == (AppAction::QuitToMenu, Some(ClientMessage::Quit))
                && final(self)@ == old(self)@,
            key != Key::Char('q') && !old(self)@.running ==> r == (AppAction::Idle, None::<ClientMessage>)
                && final(self)@ == old(self)@,
            key != Key::Char('q') && old(self)@.running ==> r.0 == AppAction::Idle && (final(self)@, r.1)
                == mp_after_key(old(self)@, key),
    {
        if key == Key::Char('q') {
            return (AppAction::QuitToMenu, Some(ClientMessage::Quit));
        }
        if !self.running {
            return (AppAction::Idle, None);
        }
        let mut sent = None;
        match key {
            Key::Esc => self.reset_moves(),
            Key::Enter => {
                sent = self.handle_enter();
            },
            Key::Char('h') | Key::Left => self.hover_left(),
            Key::Char('l') | Key::Right => self.hover_right(),
            Key::Char('j') | Key::Down => self.hover_down(),
            Key::Char('k') | Key::Up => self.hover_up(),
            _ => {},
        }
        (AppAction::Idle, sent)
    }

    fn handle_enter(&mut self) -> (sent: Option<ClientMessage>)
        requires
            old(self).well_formed(),
        ensures
            final(self).well_formed(),
            (final(self)@, sent) == mp_enter(old(self)@),
    {
        let ghost m = self@;
        let (is_game_over, _) = self.board.is_game_over();
        if is_game_over || !self.running {
            return None;
        }
        if Some(self.board.get_current_turn()) != self.player_color {
            self.message = text_of("Please wait for your opponent to move.");
            return None;
        }
        if let Some(selected) = self.selected {
            if self.current_move_list.contains(self.hover) {
                match self.board.move_piece(selected, self.hover) {
                    Err(e) => {
                        self.message = error_message(e);
                        self.reset_moves();
                        return None;
                    },
                    Ok(()) => {},
                }
                let color_prefix = if self.player_color == Some(PieceColor::White) {
                    "White:"
                } else {
                    "Black:"
                };
                let entry = history_entry(color_prefix, selected, self.hover);
                self.move_history.push(entry);
                assert(self@.history =~= m.history.push(entry@));
                self.reset_moves();
                let sent = ClientMessage::Move { from: selected, to: self.hover, piece_type: None };
                self.settle();
                return Some(sent);
            }
        }
        self.select();
        None
    }

    fn select(&mut self)
        requires
            old(self).well_formed(),
        ensures
            final(self).well_formed(),
            final(self)@ == mp_select(old(self)@),
    {
        let color = self.board.get_piece_color(self.hover);
        let is_white_piece = color == Some(PieceColor::White);
        let is_black_piece = color == Some(PieceColor::Black);
        let piece_belongs_to_me = match self.player_color {
            Some(PieceColor::White) => is_white_piece,
            Some(PieceColor::Black) => is_black_piece,
            None => false,
        };
        if !piece_belongs_to_me {
            self.message = text_of("You can only select your own pieces!");
            return;
        }
        match self.board.get_valid_moves(self.hover) {
            Ok(move_list) => {
                self.selected = Some(self.hover);
                self.current_move_list = move_list;
            },
            Err(e) => {
                self.message = error_message(e);
                self.reset_moves();
            },
        }
    }

    fn reset_moves(&mut self)
        ensures
            final(self)@ == mp_deselected(old(self)@),
            final(self).current_move_list.count == 0,
    {
        self.selected = None;
        self.current_move_list = MoveList::new();
    }

    fn hover_up(&mut self)
        requires
            old(self)@.hover < 64,
        ensures
            final(self)@ == (MultiplayerView { hover: mp_up(old(self)@), ..old(self)@ }),
            final(self)@.hover < 64,
            final(self).current_move_list == old(self).current_move_list,
    {
        let (row, col) = Board::index_to_coordinates(self.hover);
        let view_color = match self.player_color {
            Some(c) => c,
            None => PieceColor::White,
        };
        let row = if view_color == PieceColor::White {
            if row == 7 {
                0
            } else {
                row + 1
            }
        } else {
            if row == 0 {
                7
            } else {
                row - 1
            }
        };
        self.hover = 8 * row + col;
    }

    fn hover_down(&mut self)
        requires
            old(self)@.hover < 64,
        ensures
            final(self)@ == (MultiplayerView { hover: mp_down(old(self)@), ..old(self)@ }),
            final(self)@.hover < 64,
            final(self).current_move_list == old(self).current_move_list,
    {
        let (row, col) = Board::index_to_coordinates(self.hover);
        let view_color = match self.player_color {
            Some(c) => c,
            None => PieceColor::White,
        };
        let row = if view_color == PieceColor::White {
            if row == 0 {
                7
            } else {
                row - 1
            }
        } else {
            if row == 7 {
                0
            } else {
                row + 1
            }
        };
        self.hover = 8 * row + col;
    }

    fn hover_right(&mut self)
        requires
            old(self)@.hover < 64,
        ensures
            final(self)@ == (MultiplayerView { hover: square_right(old(self)@.hover), ..old(self)@ }),
            final(self)@.hover < 64,
            final(self).current_move_list == old(self).current_move_list,
    {
        let (row, col) = Board::index_to_coordinates(self.hover);
        let col = if col == 7 {
            0
        } else {
            col + 1
        };
        self.hover = 8 * row + col;
    }

    fn hover_left(&mut self)
        requires
            old(self)@.hover < 64,
        ensures
            final(self)@ == (MultiplayerView { hover: square_left(old(self)@.hover), ..old(self)@ }),
            final(self)@.hover < 64,
            final(self).current_move_list == old(self).current_move_list,
    {
        let (row, col) = Board::index_to_coordinates(self.hover);
        let col = if col == 0 {
            7
        } else {
            col - 1
        };
        self.hover = 8 * row + col;
    }

    /// The shade of the square drawn at display row `r`, column `c`, the
    /// board seen from the player's side; moves are highlighted only on the
    /// player's turn.
    pub fn cell_shade(&self, r: usize, c: usize) -> (s: Shade)
        requires
            self.well_formed(),
            r < 8,
            c < 8,
        ensures
            ({
                let idx = (if view_color(self@) == PieceColor::White {
                    8 * (7 - r) + c
                } else {
                    8 * r + c
                }) as usize;
                let our_turn = self@.running && self@.player_color == Some(self@.board.current_turn);
                s == shade_of(
                    idx,
                    r,
                    c,
                    self@.hover,
                    our_turn && self@.moves.contains(idx),
                    self@.selected,
                    if self@.board.checked {
                        Some(crate::model::king_square(self@.board, self@.board.current_turn) as usize)
                    } else {
                        None
                    },
                )
            }),
    {
        let from_white = match self.player_color {
            Some(PieceColor::Black) => false,
            _ => true,
        };
        let idx = cell_square(r, c, from_white);
        let is_our_turn = self.running && self.player_color == Some(self.board.get_current_turn());
        let highlighted = is_our_turn && self.current_move_list.contains(idx);
        shade(idx, r, c, self.hover, highlighted, self.selected, self.board.get_checked_index())
    }

    /// The line shown under the board: the message while the game is not
    /// under way or before the first move, otherwise whose turn it is.
    pub fn status_line(&self) -> (t: &str)
        ensures
            t@ == (if !self@.running || self@.board.game_over || self@.history.len() == 0 {
                self@.message
            } else if Some(self@.board.current_turn) == self@.player_color {
                "Your Turn"@
            } else {
                "Waiting for opponent..."@
            }),
    {
        let (is_game_over, _) = self.board.is_game_over();
        if !self.running || is_game_over || self.move_history.len() == 0 {
            self.message.as_str()
        } else if Some(self.board.get_current_turn()) == self.player_color {
            "Your Turn"
        } else {
            "Waiting for opponent..."
        }
    }

    /// Whether the game is being played.
    pub fn running(&self) -> (b: bool)
        ensures
            b == self@.running,
    {
        self.running
    }

    /// The square under the cursor.
    pub fn hover(&self) -> (h: usize)
        ensures
            h == self@.hover,
    {
        self.hover
    }

    /// The selected square, if any.
    pub fn selected(&self) -> (s: Option<usize>)
        ensures
            s == self@.selected,
    {
        self.selected
    }

    /// Whether `idx` is among the moves shown for the selected piece.
    pub fn is_highlighted(&self, idx: usize) -> (b: bool)
        requires
            self.well_formed(),
        ensures
            b == self@.moves.contains(idx),
    {
        self.current_move_list.contains(idx)
    }

    /// The message shown under the board.
    pub fn message(&self) -> (m: &str)
        ensures
            m@ == self@.message,
    {
        self.message.as_str()
    }

    /// The recorded moves, oldest first.
    pub fn history(&self) -> (h: &Vec<String>)
        ensures
            h@.map_values(|s: String| s@) == self@.history,
    {
        &self.move_history
    }

    /// The colour the player plays, once the game has started.
    pub fn player_color(&self) -> (c: Option<PieceColor>)
        ensures
            c == self@.player_color,
    {
        self.player_color
    }

    /// The board being played.
    pub fn board(&self) -> (b: &Board)
        ensures
            b@ == self@.board,
    {
        &self.board
    }
}

} // verus!
