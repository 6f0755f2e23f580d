//! The decisions of the game server: pairing players as they connect,
//! reading the requests of a client, and the lines it answers with.
use std::collections::VecDeque;
use vstd::prelude::*;

use crate::api::{game_error_text, parse_move_fields, server_text, GameError, ServerMessage};
use crate::board::{Board, PieceColor, PieceType};
use crate::model::{move_refusal, after_move, wf};
use crate::text::{chars_of, is_field, lemma_split_len, split, split_colons};

verus! {

/// The matchmaking state of the game server: players are paired in the
/// order they connect, a player waits until the next one arrives, and the
/// one who waited plays white.
pub struct Server {
    next_player_id: usize,
    next_game_id: usize,
    waiting: VecDeque<usize>,
}

/// The matchmaking state as a mathematical value.
pub struct ServerView {
    pub next_player_id: usize,
    pub next_game_id: usize,
    pub waiting: Seq<usize>,
}

impl View for Server {
    type V = ServerView;

    closed spec fn view(&self) -> ServerView {
        ServerView {
            next_player_id: self.next_player_id,
            next_game_id: self.next_game_id,
            waiting: self.waiting@,
        }
    }
}

/// The outcome of a connection: the player's number and, when an opponent
/// was waiting, the new game's number and the opponent's number.
#[derive(Debug, Copy, Clone, PartialEq, Eq, Structural)]
pub struct Pairing {
    pub player_id: usize,
    pub game: Option<NewGame>,
}

/// A game just formed: its number and the player who plays white.
#[derive(Debug, Copy, Clone, PartialEq, Eq, Structural)]
pub struct NewGame {
    pub game_id: usize,
    pub white: usize,
}

/// What the server does with a line from a client.
#[derive(Debug, Copy, Clone, PartialEq, Eq, Structural)]
pub enum Request {
    /// The line is not a well-formed move.
    Invalid,
    /// A move from a client that has no game yet.
    NoGame,
    /// A move to play on the client's game.
    Play { from: usize, to: usize, piece_type: Option<PieceType> },
}

/// How the server reads a line: a move `m:<from>:<to>[:<q|n|b|r>]`, played
/// only when the client has a game.
pub open spec fn classify(s: Seq<char>, in_game: bool) -> Request {
    let t = split(s, ':');
    if t[0] == seq!['m'] && parse_move_fields(t) is Some {
        let (from, to, p) = parse_move_fields(t).unwrap();
        if in_game {
            Request::Play { from, to, piece_type: p }
        } else {
            Request::NoGame
        }
    } else {
        Request::Invalid
    }
}

/// The matchmaking state and the outcome after a player connects: the player gets the
/// next number; the first waiting player, if any, becomes white in a game
/// with the next game number, otherwise the newcomer waits.
pub open spec fn server_join(l: ServerView) -> (ServerView, Pairing) {
    let id = l.next_player_id;
    if l.waiting.len() > 0 {
        (
            ServerView {
                next_player_id: (id + 1) as usize,
                next_game_id: (l.next_game_id + 1) as usize,
                waiting: l.waiting.drop_first(),
            },
            Pairing { player_id: id, game: Some(NewGame { game_id: l.next_game_id, white: l.waiting[0] }) },
        )
    } else {
        (
            ServerView { next_player_id: (id + 1) as usize, next_game_id: l.next_game_id, waiting: seq![id] },
            Pairing { player_id: id, game: None },
        )
    }
}

/// Whether at most one player waits, and every waiting player has already
/// been numbered.
pub open spec fn server_wf(l: ServerView) -> bool {
    &&& l.waiting.len() <= 1
    &&& forall|i: int| 0 <= i < l.waiting.len() ==> #[trigger] l.waiting[i] < l.next_player_id
}

/// Joining keeps at most one player waiting, and a game always pairs the
/// newcomer with a player who connected before: nobody plays against
/// themselves.
pub proof fn lemma_join_pairs_two_players(l: ServerView)
    requires
        server_wf(l),
        l.next_player_id < usize::MAX,
        l.next_game_id < usize::MAX,
    ensures
        server_wf(server_join(l).0),
        server_join(l).1.game matches Some(g) ==> g.white < server_join(l).1.player_id,
{
}

impl Server {
    pub fn new() -> (l: Self)
        ensures
            l@ == (ServerView { next_player_id: 0, next_game_id: 0, waiting: Seq::empty() }),
            server_wf(l@),
    {
        Server { next_player_id: 0, next_game_id: 0, waiting: VecDeque::new() }
    }

    /// Registers a connecting player. The first waiting player, if any,
    /// becomes white in a new game with the newcomer as black; otherwise the
    /// newcomer waits.
    pub fn join(&mut self) -> (p: Pairing)
        requires
            old(self)@.next_player_id < usize::MAX,
            old(self)@.next_game_id < usize::MAX,
        ensures
            (final(self)@, p) == server_join(old(self)@),
    {
        let player_id = self.next_player_id;
        self.next_player_id += 1;
        if let Some(opponent) = self.waiting.pop_front() {
            let game_id = self.next_game_id;
            self.next_game_id += 1;
            assert(self.waiting@ =~= old(self)@.waiting.drop_first());
            Pairing { player_id, game: Some(NewGame { game_id, white: opponent }) }
        } else {
            self.waiting.push_back(player_id);
            assert(self.waiting@ =~= seq![player_id]);
            Pairing { player_id, game: None }
        }
    }

    /// The number the next player to connect gets.
    pub fn next_player_id(&self) -> (n: usize)
        ensures
            n == self@.next_player_id,
    {
        self.next_player_id
    }

    /// The number the next game to form gets.
    pub fn next_game_id(&self) -> (n: usize)
        ensures
            n == self@.next_game_id,
    {
        self.next_game_id
    }

    /// The players waiting for an opponent, first come first.
    pub fn waiting(&self) -> (w: &VecDeque<usize>)
        ensures
            w@ == self@.waiting,
    {
        &self.waiting
    }
}

/// The lines the server writes to its log.
pub struct Log {}

impl Log {
    /// The line logging `message` as information: `[INFO] <message>`.
    pub fn info(message: &str) -> (s: String)
        ensures
            s@ == "[INFO] "@ + message@,
    {
        let mut s = crate::game::text_of("[INFO] ");
        crate::text::push_str(&mut s, message);
        s
    }

    /// The line logging `message` as an error: `[ERROR] <message>`.
    pub fn error(message: &str) -> (s: String)
        ensures
            s@ == "[ERROR] "@ + message@,
    {
        let mut s = crate::game::text_of("[ERROR] ");
        crate::text::push_str(&mut s, message);
        s
    }
}

/// Reads a line from a client that has a game when `in_game`.
pub fn classify_line(line: &str, in_game: bool) -> (r: Request)
    ensures
        r == classify(line@, in_game),
{
    let chars = chars_of(line);
    let tokens = split_colons(&chars);
    proof {
        lemma_split_len(chars@, ':');
        assert(tokens@[0]@ == split(line@, ':')[0]);
        if tokens.len() >= 3 {
            assert(tokens@[1]@ == split(line@, ':')[1]);
            assert(tokens@[2]@ == split(line@, ':')[2]);
        }
        if tokens.len() >= 4 {
            assert(tokens@[3]@ == split(line@, ':')[3]);
        }
    }
    if !is_field(&tokens[0], 'm') || tokens.len() < 3 {
        return Request::Invalid;
    }
    let from = match crate::text::parse_usize_field(&tokens[1]) {
        Some(v) => v,
        None => {
            return Request::Invalid;
        },
    };
    let to = match crate::text::parse_usize_field(&tokens[2]) {
        Some(v) => v,
        None => {
            return Request::Invalid;
        },
    };
    let piece_type = if tokens.len() >= 4 {
        let t = &tokens[3];
        if is_field(t, 'q') || is_field(t, 'Q') {
            Some(PieceType::Queen)
        } else if is_field(t, 'n') || is_field(t, 'N') {
            Some(PieceType::Knight)
        } else if is_field(t, 'b') || is_field(t, 'B') {
            Some(PieceType::Bishop)
        } else if is_field(t, 'r') || is_field(t, 'R') {
            Some(PieceType::Rook)
        } else {
            return Request::Invalid;
        }
    } else {
        None
    };
    if !in_game {
        return Request::NoGame;
    }
    Request::Play { from, to, piece_type }
}

/// Plays a client's move on its game. An accepted move gives the line that
/// tells the opponent of it, `m:<from>:<to>[:<promotion>]`; a refused one
/// the error line for the mover, `e:m`.
pub fn play_request(board: &mut Board, from: usize, to: usize, piece_type: Option<PieceType>) -> (reply: Result<
    String,
    String,
>)
    requires
        wf(old(board)@),
        old(board)@.game_over || from < 64,
    ensures
        wf(final(board)@),
        move_refusal(old(board)@, from, to) is None ==> final(board)@ == after_move(old(board)@, from, to),
        move_refusal(old(board)@, from, to) is None ==> (reply matches Ok(line) && line@ == server_text(
            ServerMessage::Move { from, to, piece_type },
        )),
        move_refusal(old(board)@, from, to) is Some ==> final(board)@ == old(board)@,
        move_refusal(old(board)@, from, to) is Some ==> (reply matches Err(line) && line@ == game_error_text(
            GameError::InvalidMove,
        )),
{
    match board.move_piece(from, to) {
        Ok(()) => Ok(ServerMessage::Move { from, to, piece_type }.to_string()),
        Err(_) => Err(GameError::InvalidMove.to_string()),
    }
}

/// The answer to a line that is not a well-formed move: `e:i`.
pub fn invalid_command_reply() -> (s: String)
    ensures
        s@ == game_error_text(GameError::InvalidMessage),
{
    GameError::InvalidMessage.to_string()
}

/// The answer to a move from a client without a game: `e:n`.
pub fn no_game_reply() -> (s: String)
    ensures
        s@ == game_error_text(GameError::NoGameFound),
{
    GameError::NoGameFound.to_string()
}

/// The line telling a player that its game started: `s:<game_id>:<w|b>`.
pub fn game_start_line(game_id: usize, color: PieceColor) -> (s: String)
    ensures
        s@ == server_text(ServerMessage::GameStart { game_id, color }),
{
    ServerMessage::GameStart { game_id, color }.to_string()
}

} // verus!
