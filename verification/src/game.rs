//! The local two-player game screen: a cursor on the board, selecting a
//! piece shows its legal moves, a second Enter plays one of them.
use vstd::prelude::*;

use crate::board::{Board, MoveList, PieceColor};
use crate::menu::{AppAction, Key};
use crate::model::{after_move, move_refusal, valid_moves, wf, BoardView};
use crate::text::{decimal, push_char, push_decimal, push_str};

verus! {

/// The state of the game screen as a mathematical value.
pub struct GameView {
    pub hover: usize,
    pub selected: Option<usize>,
    pub moves: Seq<usize>,
    pub message: Seq<char>,
    pub board: BoardView,
    pub history: Seq<Seq<char>>,
    pub white_turn: bool,
}

pub struct Game {
    hover: usize,
    selected: Option<usize>,
    current_move_list: MoveList,
    message: String,
    board: Board,
    move_history: Vec<String>,
    white_turn: bool,
}

impl View for Game {
    type V = GameView;

    closed spec fn view(&self) -> GameView {
        GameView {
            hover: self.hover,
            selected: self.selected,
            moves: self.current_move_list@,
            message: self.message@,
            board: self.board@,
            history: self.move_history@.map_values(|s: String| s@),
            white_turn: self.white_turn,
        }
    }
}

/// The cursor one row up, wrapping from the top row to the bottom one.
pub open spec fn square_up(h: usize) -> usize {
    let row = h / 8;
    let col = h % 8;
    ((if row == 7 {
        0
    } else {
        row + 1
    }) * 8 + col) as usize
}

/// The cursor one row down, wrapping from the bottom row to the top one.
pub open spec fn square_down(h: usize) -> usize {
    let row = h / 8;
    let col = h % 8;
    ((if row == 0 {
        7
    } else {
        row - 1
    }) * 8 + col) as usize
}

/// The cursor one column right, wrapping.
pub open spec fn square_right(h: usize) -> usize {
    let row = h / 8;
    let col = h % 8;
    (row * 8 + if col == 7 {
        0
    } else {
        col + 1
    }) as usize
}

/// The cursor one column left, wrapping.
pub open spec fn square_left(h: usize) -> usize {
    let row = h / 8;
    let col = h % 8;
    (row * 8 + if col == 0 {
        7
    } else {
        col - 1
    }) as usize
}

/// The name of a square: its file letter and rank number, as `e4`.
pub open spec fn square_name(i: usize) -> Seq<char> {
    seq![(97 + i % 8) as char] + decimal((i / 8 + 1) as nat)
}

/// A square is named by its file, a to h from left to right, then its rank,
/// 1 to 8 from white's side.
pub proof fn lemma_square_names(i: usize)
    requires
        i < 64,
    ensures
        square_name(i)[0] == "abcdefgh"@[i as int % 8],
        square_name(i).len() == 2,
        square_name(i)[1] == "12345678"@[i as int / 8],
{
    reveal_strlit("abcdefgh");
    reveal_strlit("12345678");
    assert(decimal((i / 8 + 1) as nat) == seq![crate::text::digit_char((i / 8 + 1) as nat)]);
}

/// How a move is recorded: `e2 to e4`.
pub open spec fn move_record(from: usize, to: usize) -> Seq<char> {
    square_name(from) + " to "@ + square_name(to)
}

/// The message naming the result of a finished game.
pub open spec fn result_message(winner: Option<PieceColor>) -> Seq<char> {
    match winner {
        Some(PieceColor::White) => "CHECKMATE! White wins!"@,
        Some(PieceColor::Black) => "CHECKMATE! Black wins!"@,
        None => "STALEMATE! It's a draw!"@,
    }
}

/// The screen with no piece selected.
pub open spec fn deselected(g: GameView) -> GameView {
    GameView { selected: None, moves: Seq::empty(), ..g }
}

/// Selecting the piece under the cursor: its legal moves are shown, or the
/// error is reported when the square is empty.
pub open spec fn select_hovered(g: GameView) -> GameView {
    if g.board.squares[g.hover as int] is None {
        GameView { message: "Error: "@ + "No piece at the given index"@, ..deselected(g) }
    } else {
        GameView { selected: Some(g.hover), moves: valid_moves(g.board, g.hover as int), ..g }
    }
}

/// The effect of Enter: nothing once the game is over; with a piece selected
/// and the cursor on one of its moves, the move is played (or its refusal
/// reported); otherwise the piece under the cursor is selected.
pub open spec fn enter_pressed(g: GameView) -> GameView {
    if g.board.game_over {
        g
    } else if g.selected is Some && g.moves.contains(g.hover) {
        let from = g.selected.unwrap();
        match move_refusal(g.board, from, g.hover) {
            Some(e) => GameView { message: "Error: "@ + e, ..deselected(g) },
            None => {
                let b = after_move(g.board, from, g.hover);
                let entry = (if g.white_turn {
                    "White:"@
                } else {
                    "Black:"@
                }) + " "@ + move_record(from, g.hover);
                GameView {
                    board: b,
                    history: g.history.push(entry),
                    white_turn: !g.white_turn,
                    message: if b.game_over {
                        result_message(b.winner)
                    } else {
                        g.message
                    },
                    ..deselected(g)
                }
            },
        }
    } else {
        select_hovered(g)
    }
}

/// The screen after `key`.
pub open spec fn game_after_key(g: GameView, key: Key) -> GameView {
    match key {
        Key::Esc => deselected(g),
        Key::Enter => enter_pressed(g),
        Key::Char('h') | Key::Left => GameView { hover: square_left(g.hover), ..g },
        Key::Char('l') | Key::Right => GameView { hover: square_right(g.hover), ..g },
        Key::Char('j') | Key::Down => GameView { hover: square_down(g.hover), ..g },
        Key::Char('k') | Key::Up => GameView { hover: square_up(g.hover), ..g },
        _ => g,
    }
}

/// The turn shown on screen follows the board: once it names the side to
/// move, it does after every key.
pub proof fn lemma_turn_shown_follows_board(g: GameView, key: Key)
    requires
        game_wf(g),
        g.white_turn == (g.board.current_turn == PieceColor::White),
    ensures
        game_after_key(g, key).white_turn == (game_after_key(g, key).board.current_turn == PieceColor::White),
{
}

/// The invariant of the game screen.
pub open spec fn game_wf(g: GameView) -> bool {
    &&& wf(g.board)
    &&& g.hover < 64
    &&& g.selected matches Some(s) ==> s < 64
}

/// How a square of the board is shaded on screen.
#[derive(Debug, Copy, Clone, PartialEq, Eq, Structural)]
pub enum Shade {
    Hover,
    Target,
    Light,
    Dark,
    Selected,
    Checked,
}

/// The square drawn at display row `r` (0 at the top) and column `c`, the
/// board seen from white's side or from black's.
pub fn cell_square(r: usize, c: usize, from_white: bool) -> (i: usize)
    requires
        r < 8,
        c < 8,
    ensures
        i < 64,
        i == (if from_white {
            8 * (7 - r) + c
        } else {
            8 * r + c
        }),
{
    if from_white {
        8 * (7 - r) + c
    } else {
        8 * r + c
    }
}

/// The shade of square `idx` drawn at display row `r` and column `c`: the
/// king in check first, then the selected square, the cursor, a highlighted
/// move, and otherwise the square's own colour.
pub open spec fn shade_of(
    idx: usize,
    r: usize,
    c: usize,
    hover: usize,
    highlighted: bool,
    selected: Option<usize>,
    checked: Option<usize>,
) -> Shade {
    if checked == Some(idx) {
        Shade::Checked
    } else if selected == Some(idx) {
        Shade::Selected
    } else if idx == hover {
        Shade::Hover
    } else if highlighted {
        Shade::Target
    } else if (r + c) % 2 == 0 {
        Shade::Light
    } else {
        Shade::Dark
    }
}

/// Computes `shade_of`.
pub fn shade(
    idx: usize,
    r: usize,
    c: usize,
    hover: usize,
    highlighted: bool,
    selected: Option<usize>,
    checked: Option<usize>,
) -> (s: Shade)
    requires
        r < 8,
        c < 8,
    ensures
        s == shade_of(idx, r, c, hover, highlighted, selected, checked),
{
    let mut s = if idx == hover {
        Shade::Hover
    } else if highlighted {
        Shade::Target
    } else if (r + c) % 2 == 0 {
        Shade::Light
    } else {
        Shade::Dark
    };
    if selected == Some(idx) {
        s = Shade::Selected;
    }
    if checked == Some(idx) {
        s = Shade::Checked;
    }
    s
}

/// A string holding the characters of `s`.
pub fn text_of(s: &str) -> (r: String)
    ensures
        r@ == s@,
{
    let mut r = String::new();
    push_str(&mut r, s);
    assert(r@ =~= s@);
    r
}

/// Appends the name of square `i`.
fn push_square_name(out: &mut String, i: usize)
    ensures
        final(out)@ == old(out)@ + square_name(i),
{
    let col = i % 8;
    let row = i / 8;
    let file = match col {
        0 => 'a',
        1 => 'b',
        2 => 'c',
        3 => 'd',
        4 => 'e',
        5 => 'f',
        6 => 'g',
        _ => 'h',
    };
    push_char(out, file);
    push_decimal(out, row + 1);
    assert(final(out)@ =~= old(out)@ + square_name(i));
}

/// The history entry of a move by the side named by `prefix`.
pub fn history_entry(prefix: &str, from: usize, to: usize) -> (s: String)
    ensures
        s@ == prefix@ + " "@ + move_record(from, to),
{
    let mut s = text_of(prefix);
    push_str(&mut s, " ");
    push_square_name(&mut s, from);
    push_str(&mut s, " to ");
    push_square_name(&mut s, to);
    assert(s@ =~= prefix@ + " "@ + move_record(from, to));
    s
}

/// `Error: ` followed by `e`.
pub fn error_message(e: &str) -> (s: String)
    ensures
        s@ == "Error: "@ + e@,
{
    let mut s = text_of("Error: ");
    push_str(&mut s, e);
    s
}

impl Game {
    /// The invariant of the screen: a well-formed board, cursor and
    /// selection on the board, at most 27 moves shown.
    pub closed spec fn well_formed(&self) -> bool {
        game_wf(self@) && self.current_move_list.count <= 27
    }

    pub fn default() -> (g: Self)
        ensures
            g.well_formed(),
            g@.hover == 27,
            g@.selected is None,
            g@.moves == Seq::<usize>::empty(),
            g@.message == "Welcome to TTY-Mate!"@,
            g@.history == Seq::<Seq<char>>::empty(),
            g@.white_turn,
            crate::board::start_position(g@.board),
    {
        let board = Board::new();
        let g = Game {
            hover: 27,
            selected: None,
            current_move_list: MoveList::new(),
            message: text_of("Welcome to TTY-Mate!"),
            board,
            move_history: Vec::new(),
            white_turn: true,
        };
        assert(g@.history =~= Seq::<Seq<char>>::empty());
        g
    }

    /// Handles a key: `q` returns to the menu, Esc clears the selection,
    /// Enter selects or moves, `h`/`j`/`k`/`l` and the arrows move the cursor.
    pub fn handle_key_event(&mut self, key: Key) -> (action: AppAction)
        requires
            old(self).well_formed(),
        ensures
            final(self).well_formed(),
            key == Key::Char('q') ==> action == AppAction::QuitToMenu && final(self)@ == old(self)@,
            key != Key::Char('q') ==> action == AppAction::Idle && final(self)@ == game_after_key(
                old(self)@,
                key,
            ),
    {
        match key {
            Key::Char('q') => {
                return AppAction::QuitToMenu;
            },
            Key::Esc => self.reset_moves(),
            Key::Enter => self.handle_enter(),
            Key::Char('h') | Key::Left => self.hover_left(),
            Key::Char('l') | Key::Right => self.hover_right(),
            Key::Char('j') | Key::Down => self.hover_down(),
            Key::Char('k') | Key::Up => self.hover_up(),
            _ => {},
        }
        AppAction::Idle
    }

    fn handle_enter(&mut self)
        requires
            old(self).well_formed(),
        ensures
            final(self).well_formed(),
            final(self)@ == enter_pressed(old(self)@),
    {
        let ghost g = self@;
        let (is_game_over, _) = self.board.is_game_over();
        if is_game_over {
            return;
        }
        if let Some(selected) = self.selected {
            if self.current_move_list.contains(self.hover) {
                match self.board.move_piece(selected, self.hover) {
                    Err(e) => {
                        self.message = error_message(e);
                        self.reset_moves();
                        return;
                    },
                    Ok(()) => {},
                }
                let color_prefix = if self.white_turn {
                    "White:"
                } else {
                    "Black:"
                };
                let entry = history_entry(color_prefix, selected, self.hover);
                self.move_history.push(entry);
                self.white_turn = !self.white_turn;
                self.reset_moves();
                let (is_game_over, winner) = self.board.is_game_over();
                if is_game_over {
                    match winner {
                        Some(PieceColor::White) => self.message = text_of("CHECKMATE! White wins!"),
                        Some(PieceColor::Black) => self.message = text_of("CHECKMATE! Black wins!"),
                        None => self.message = text_of("STALEMATE! It's a draw!"),
                    }
                }
                assert(self@.history =~= g.history.push(entry@));
                return;
            }
        }
        self.select();
    }

    fn reset_moves(&mut self)
        ensures
            final(self)@ == deselected(old(self)@),
            final(self).current_move_list.count == 0,
    {
        self.selected = None;
        self.current_move_list = MoveList::new();
    }

    fn select(&mut self)
        requires
            old(self).well_formed(),
        ensures
            final(self).well_formed(),
            final(self)@ == select_hovered(old(self)@),
    {
        match self.board.get_valid_moves(self.hover) {
            Ok(move_list) => {
                self.selected = Some(self.hover);
                self.current_move_list = move_list;
            },
            Err(e) => {
                self.message = error_message(e);
                self.reset_moves();
            },
        }
    }

    fn hover_up(&mut self)
        requires
            old(self)@.hover < 64,
        ensures
            final(self).current_move_list == old(self).current_move_list,
            final(self)@ == (GameView { hover: square_up(old(self)@.hover), ..old(self)@ }),
            final(self)@.hover < 64,
    {
        let (row, col) = Board::index_to_coordinates(self.hover);
        let row = if row == 7 {
            0
        } else {
            row + 1
        };
        self.hover = 8 * row + col;
    }

    fn hover_down(&mut self)
        requires
            old(self)@.hover < 64,
        ensures
            final(self).current_move_list == old(self).current_move_list,
            final(self)@ == (GameView { hover: square_down(old(self)@.hover), ..old(self)@ }),
            final(self)@.hover < 64,
    {
        let (row, col) = Board::index_to_coordinates(self.hover);
        let row = if row == 0 {
            7
        } else {
            row - 1
        };
        self.hover = 8 * row + col;
    }

    fn hover_right(&mut self)
        requires
            old(self)@.hover < 64,
        ensures
            final(self).current_move_list == old(self).current_move_list,
            final(self)@ == (GameView { hover: square_right(old(self)@.hover), ..old(self)@ }),
            final(self)@.hover < 64,
    {
        let (row, col) = Board::index_to_coordinates(self.hover);
        let col = if col == 7 {
            0
        } else {
            col + 1
        };
        self.hover = 8 * row + col;
    }

    fn hover_left(&mut self)
        requires
            old(self)@.hover < 64,
        ensures
            final(self).current_move_list == old(self).current_move_list,
            final(self)@ == (GameView { hover: square_left(old(self)@.hover), ..old(self)@ }),
            final(self)@.hover < 64,
    {
        let (row, col) = Board::index_to_coordinates(self.hover);
        let col = if col == 0 {
            7
        } else {
            col - 1
        };
        self.hover = 8 * row + col;
    }

    /// The shade of the square drawn at display row `r`, column `c`.
    pub fn cell_shade(&self, r: usize, c: usize) -> (s: Shade)
        requires
            self.well_formed(),
            r < 8,
            c < 8,
        ensures
            s == shade_of(
                (8 * (7 - r) + c) as usize,
                r,
                c,
                self@.hover,
                self@.moves.contains((8 * (7 - r) + c) as usize),
                self@.selected,
                if self@.board.checked {
                    Some(crate::model::king_square(self@.board, self@.board.current_turn) as usize)
                } else {
                    None
                },
            ),
    {
        let idx = cell_square(r, c, true);
        shade(
            idx,
            r,
            c,
            self.hover,
            self.current_move_list.contains(idx),
            self.selected,
            self.board.get_checked_index(),
        )
    }

    /// The line shown under the board: the message once the game is over,
    /// otherwise whose turn it is.
    pub fn status_line(&self) -> (t: &str)
        ensures
            t@ == (if self@.board.game_over {
                self@.message
            } else if self@.white_turn {
                "White's Turn"@
            } else {
                "Black's Turn"@
            }),
    {
        let (is_game_over, _) = self.board.is_game_over();
        if is_game_over {
            self.message.as_str()
        } else if self.white_turn {
            "White's Turn"
        } else {
            "Black's Turn"
        }
    }

    /// The square under the cursor.
    pub fn hover(&self) -> (h: usize)
        ensures
            h == self@.hover,
    {
        self.hover
    }

    /// The selected square, if any.
    pub fn selected(&self) -> (s: Option<usize>)
        ensures
            s == self@.selected,
    {
        self.selected
    }

    /// Whether `idx` is among the moves shown for the selected piece.
    pub fn is_highlighted(&self, idx: usize) -> (b: bool)
        requires
            self.well_formed(),
        ensures
            b == self@.moves.contains(idx),
    {
        self.current_move_list.contains(idx)
    }

    /// The message shown under the board.
    pub fn message(&self) -> (m: &str)
        ensures
            m@ == self@.message,
    {
        self.message.as_str()
    }

    /// The recorded moves, oldest first.
    pub fn history(&self) -> (h: &Vec<String>)
        ensures
            h@.map_values(|s: String| s@) == self@.history,
    {
        &self.move_history
    }

    /// Whether it is white's turn.
    pub fn white_turn(&self) -> (b: bool)
        ensures
            b == self@.white_turn,
    {
        self.white_turn
    }

    /// The board being played.
    pub fn board(&self) -> (b: &Board)
        ensures
            b@ == self@.board,
    {
        &self.board
    }
}

} // verus!
