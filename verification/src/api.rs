//! The client-server protocol: the messages exchanged over TCP, one per
//! line, with fields separated by colons.
use vstd::prelude::*;

use crate::board::{PieceColor, PieceType};
use crate::text::{
    chars_of, decimal, is_field, join_fields, lemma_decimal_reads_back, lemma_split_join, lemma_split_len,
    parse_usize, parse_usize_field, push_char, push_decimal, split, split_colons,
};

verus! {

#[derive(Debug, PartialEq, Eq, Structural, Clone, Copy)]
pub enum ClientMessage {
    Move { from: usize, to: usize, piece_type: Option<PieceType> },
    Quit,
}

#[derive(Debug, PartialEq, Eq, Structural, Clone, Copy)]
pub enum ServerMessage {
    GameStart { game_id: usize, color: PieceColor },
    Move { from: usize, to: usize, piece_type: Option<PieceType> },
    GameAborted,
}

#[derive(Debug, PartialEq, Eq, Structural, Clone, Copy)]
pub enum GameError {
    InvalidMessage,
    NoGameFound,
    InvalidMove,
}

/// The error named by an error-code field.
pub open spec fn error_of_field(f: Seq<char>) -> Option<GameError> {
    if f == seq!['i'] {
        Some(GameError::InvalidMessage)
    } else if f == seq!['n'] {
        Some(GameError::NoGameFound)
    } else if f == seq!['m'] {
        Some(GameError::InvalidMove)
    } else {
        None
    }
}

pub open spec fn error_code(e: GameError) -> char {
    match e {
        GameError::InvalidMessage => 'i',
        GameError::NoGameFound => 'n',
        GameError::InvalidMove => 'm',
    }
}

/// `e:<code>`, further fields ignored.
pub open spec fn parse_game_error(s: Seq<char>) -> Result<GameError, GameError> {
    let t = split(s, ':');
    if t[0] == seq!['e'] && t.len() >= 2 && error_of_field(t[1]) is Some {
        Ok(error_of_field(t[1]).unwrap())
    } else {
        Err(GameError::InvalidMessage)
    }
}

pub open spec fn game_error_text(e: GameError) -> Seq<char> {
    seq!['e', ':', error_code(e), '\n']
}

/// The colour a field names, in either case.
pub open spec fn color_of_field(f: Seq<char>) -> Option<PieceColor> {
    if f == seq!['w'] || f == seq!['W'] {
        Some(PieceColor::White)
    } else if f == seq!['b'] || f == seq!['B'] {
        Some(PieceColor::Black)
    } else {
        None
    }
}

pub open spec fn color_letter(c: PieceColor) -> char {
    match c {
        PieceColor::White => 'w',
        PieceColor::Black => 'b',
    }
}

/// The promotion piece a field names, in either case.
pub open spec fn promotion_of_field(f: Seq<char>) -> Option<PieceType> {
    if f == seq!['q'] || f == seq!['Q'] {
        Some(PieceType::Queen)
    } else if f == seq!['n'] || f == seq!['N'] {
        Some(PieceType::Knight)
    } else if f == seq!['b'] || f == seq!['B'] {
        Some(PieceType::Bishop)
    } else if f == seq!['r'] || f == seq!['R'] {
        Some(PieceType::Rook)
    } else {
        None
    }
}

/// The letter written for a promotion piece; other pieces are not written.
pub open spec fn promotion_letter(p: Option<PieceType>) -> Option<char> {
    match p {
        Some(PieceType::Queen) => Some('q'),
        Some(PieceType::Knight) => Some('n'),
        Some(PieceType::Bishop) => Some('b'),
        Some(PieceType::Rook) => Some('r'),
        _ => None,
    }
}

/// The fields of a move `m:<from>:<to>[:<promotion>]`.
pub open spec fn move_fields(from: usize, to: usize, p: Option<PieceType>) -> Seq<Seq<char>> {
    let base = seq![seq!['m'], decimal(from as nat), decimal(to as nat)];
    match promotion_letter(p) {
        Some(l) => base.push(seq![l]),
        None => base,
    }
}

/// The move read from fields `t` (the first being `m`): two numbers, then an
/// optional promotion piece.
pub open spec fn parse_move_fields(t: Seq<Seq<char>>) -> Option<(usize, usize, Option<PieceType>)> {
    if t.len() >= 3 && parse_usize(t[1]) is Some && parse_usize(t[2]) is Some && (t.len() < 4
        || promotion_of_field(t[3]) is Some) {
        Some(
            (
                parse_usize(t[1]).unwrap(),
                parse_usize(t[2]).unwrap(),
                if t.len() >= 4 {
                    promotion_of_field(t[3])
                } else {
                    None
                },
            ),
        )
    } else {
        None
    }
}

/// `s:<game_id>:<w|b>`, `m:<from>:<to>[:<q|n|b|r>]` or `a`; further fields ignored.
pub open spec fn parse_server_message(s: Seq<char>) -> Result<ServerMessage, GameError> {
    let t = split(s, ':');
    if t[0] == seq!['s'] {
        if t.len() >= 3 && parse_usize(t[1]) is Some && color_of_field(t[2]) is Some {
            Ok(
                ServerMessage::GameStart {
                    game_id: parse_usize(t[1]).unwrap(),
                    color: color_of_field(t[2]).unwrap(),
                },
            )
        } else {
            Err(GameError::InvalidMessage)
        }
    } else if t[0] == seq!['m'] {
        match parse_move_fields(t) {
            Some((from, to, p)) => Ok(ServerMessage::Move { from, to, piece_type: p }),
            None => Err(GameError::InvalidMessage),
        }
    } else if t[0] == seq!['a'] {
        Ok(ServerMessage::GameAborted)
    } else {
        Err(GameError::InvalidMessage)
    }
}

/// The fields of a server message.
pub open spec fn server_fields(m: ServerMessage) -> Seq<Seq<char>> {
    match m {
        ServerMessage::GameStart { game_id, color } => seq![
            seq!['s'],
            decimal(game_id as nat),
            seq![color_letter(color)],
        ],
        ServerMessage::Move { from, to, piece_type } => move_fields(from, to, piece_type),
        ServerMessage::GameAborted => seq![seq!['a']],
    }
}

/// A server message as a line: its fields joined by colons, then a newline.
pub open spec fn server_text(m: ServerMessage) -> Seq<char> {
    join_fields(server_fields(m), ':').push('\n')
}

/// `m:<from>:<to>[:<q|n|b|r>]` or `q`; further fields ignored.
pub open spec fn parse_client_message(s: Seq<char>) -> Result<ClientMessage, GameError> {
    let t = split(s, ':');
    if t[0] == seq!['m'] {
        match parse_move_fields(t) {
            Some((from, to, p)) => Ok(ClientMessage::Move { from, to, piece_type: p }),
            None => Err(GameError::InvalidMessage),
        }
    } else if t[0] == seq!['q'] {
        Ok(ClientMessage::Quit)
    } else {
        Err(GameError::InvalidMessage)
    }
}

/// The fields of a client message.
pub open spec fn client_fields(m: ClientMessage) -> Seq<Seq<char>> {
    match m {
        ClientMessage::Move { from, to, piece_type } => move_fields(from, to, piece_type),
        ClientMessage::Quit => seq![seq!['q']],
    }
}

/// A client message as a line: its fields joined by colons, then a newline.
pub open spec fn client_text(m: ClientMessage) -> Seq<char> {
    join_fields(client_fields(m), ':').push('\n')
}

/// Whether a promotion choice is one the protocol can carry.
pub open spec fn is_written_promotion(p: Option<PieceType>) -> bool {
    p is None || promotion_letter(p) is Some
}

/// Reading back the line written for an error, without its newline, gives
/// the error.
pub proof fn lemma_game_error_round_trip(e: GameError)
    ensures
        parse_game_error(game_error_text(e).drop_last()) == Ok::<GameError, GameError>(e),
{
    let fs = seq![seq!['e'], seq![error_code(e)]];
    assert(fs.drop_last() =~= seq![seq!['e']]);
    assert(join_fields(seq![seq!['e']], ':') =~= seq!['e']);
    assert(game_error_text(e).drop_last() =~= join_fields(fs, ':'));
    assert forall|k: int| 0 <= k < fs.len() implies !(#[trigger] fs[k]).contains(':') by {
        if fs[k].contains(':') {
            let i = choose|i: int| 0 <= i < fs[k].len() && fs[k][i] == ':';
        }
    }
    lemma_split_join(fs, ':');
}

/// The fields of a move hold no colon and read back as the move.
proof fn lemma_move_fields(from: usize, to: usize, p: Option<PieceType>)
    requires
        is_written_promotion(p),
    ensures
        move_fields(from, to, p).len() >= 1,
        forall|k: int|
            0 <= k < move_fields(from, to, p).len() ==> !(#[trigger] move_fields(
                from,
                to,
                p,
            )[k]).contains(':'),
        parse_move_fields(move_fields(from, to, p)) == Some((from, to, p)),
{
    let fs = move_fields(from, to, p);
    lemma_decimal_reads_back(from as nat);
    lemma_decimal_reads_back(to as nat);
    assert forall|k: int| 0 <= k < fs.len() implies !(#[trigger] fs[k]).contains(':') by {
        if k != 1 && k != 2 && fs[k].contains(':') {
            let i = choose|i: int| 0 <= i < fs[k].len() && fs[k][i] == ':';
        }
    }
    assert(fs[1] == decimal(from as nat));
    assert(fs[2] == decimal(to as nat));
    if promotion_letter(p) is Some {
        let l = promotion_letter(p).unwrap();
        assert(fs[3] == seq![l]);
        assert(seq![l][0] == l);
        assert(promotion_of_field(seq![l]) == p);
    }
}

/// Reading back the line written for a server message, without its newline,
/// gives the message, for every message whose promotion piece, if any, the
/// protocol can carry.
pub proof fn lemma_server_message_round_trip(m: ServerMessage)
    requires
        m matches ServerMessage::Move { piece_type, .. } ==> is_written_promotion(piece_type),
    ensures
        parse_server_message(server_text(m).drop_last()) == Ok::<ServerMessage, GameError>(m),
{
    let fs = server_fields(m);
    assert(server_text(m).drop_last() =~= join_fields(fs, ':'));
    match m {
        ServerMessage::GameStart { game_id, color } => {
            lemma_decimal_reads_back(game_id as nat);
            assert(fs[1] == decimal(game_id as nat));
            assert(fs[2] == seq![color_letter(color)]);
            assert(seq![color_letter(color)][0] == color_letter(color));
            assert(color_of_field(fs[2]) == Some(color));
            assert forall|k: int| 0 <= k < fs.len() implies !(#[trigger] fs[k]).contains(':') by {
                if k != 1 && fs[k].contains(':') {
                    let i = choose|i: int| 0 <= i < fs[k].len() && fs[k][i] == ':';
                }
            }
        },
        ServerMessage::Move { from, to, piece_type } => {
            lemma_move_fields(from, to, piece_type);
            assert(fs[0] == seq!['m']);
            assert(seq!['m'][0] != seq!['s'][0]);
        },
        ServerMessage::GameAborted => {
            assert(fs[0] == seq!['a']);
            assert(seq!['a'][0] != seq!['s'][0]);
            assert(seq!['a'][0] != seq!['m'][0]);
            assert forall|k: int| 0 <= k < fs.len() implies !(#[trigger] fs[k]).contains(':') by {
                if fs[k].contains(':') {
                    let i = choose|i: int| 0 <= i < fs[k].len() && fs[k][i] == ':';
                }
            }
        },
    }
    lemma_split_join(fs, ':');
}

/// Reading back the line written for a client message, without its newline,
/// gives the message, for every message whose promotion piece, if any, the
/// protocol can carry.
pub proof fn lemma_client_message_round_trip(m: ClientMessage)
    requires
        m matches ClientMessage::Move { piece_type, .. } ==> is_written_promotion(piece_type),
    ensures
        parse_client_message(client_text(m).drop_last()) == Ok::<ClientMessage, GameError>(m),
{
    let fs = client_fields(m);
    assert(client_text(m).drop_last() =~= join_fields(fs, ':'));
    match m {
        ClientMessage::Move { from, to, piece_type } => {
            lemma_move_fields(from, to, piece_type);
        },
        ClientMessage::Quit => {
            assert(fs[0] == seq!['q']);
            assert(seq!['q'][0] != seq!['m'][0]);
            assert forall|k: int| 0 <= k < fs.len() implies !(#[trigger] fs[k]).contains(':') by {
                if fs[k].contains(':') {
                    let i = choose|i: int| 0 <= i < fs[k].len() && fs[k][i] == ':';
                }
            }
        },
    }
    lemma_split_join(fs, ':');
}

fn color_of(t: &Vec<char>) -> (r: Option<PieceColor>)
    ensures
        r == color_of_field(t@),
{
    if is_field(t, 'w') || is_field(t, 'W') {
        Some(PieceColor::White)
    } else if is_field(t, 'b') || is_field(t, 'B') {
        Some(PieceColor::Black)
    } else {
        None
    }
}

fn promotion_of(t: &Vec<char>) -> (r: Option<PieceType>)
    ensures
        r == promotion_of_field(t@),
{
    if is_field(t, 'q') || is_field(t, 'Q') {
        Some(PieceType::Queen)
    } else if is_field(t, 'n') || is_field(t, 'N') {
        Some(PieceType::Knight)
    } else if is_field(t, 'b') || is_field(t, 'B') {
        Some(PieceType::Bishop)
    } else if is_field(t, 'r') || is_field(t, 'R') {
        Some(PieceType::Rook)
    } else {
        None
    }
}

/// Reads the fields of a move after its leading `m`.
fn parse_move(tokens: &Vec<Vec<char>>, Ghost(t): Ghost<Seq<Seq<char>>>) -> (r: Option<(usize, usize, Option<PieceType>)>)
    requires
        tokens.len() == t.len(),
        forall|k: int| 0 <= k < tokens.len() ==> (#[trigger] tokens@[k])@ == t[k],
    ensures
        r == parse_move_fields(t),
{
    if tokens.len() < 3 {
        return None;
    }
    let from = match parse_usize_field(&tokens[1]) {
        Some(v) => v,
        None => {
            return None;
        },
    };
    let to = match parse_usize_field(&tokens[2]) {
        Some(v) => v,
        None => {
            return None;
        },
    };
    let piece_type = if tokens.len() >= 4 {
        match promotion_of(&tokens[3]) {
            Some(p) => Some(p),
            None => {
                return None;
            },
        }
    } else {
        None
    };
    Some((from, to, piece_type))
}

/// Writes the fields of a move, without the newline.
fn push_move(out: &mut String, from: usize, to: usize, piece_type: Option<PieceType>)
    ensures
        final(out)@ == old(out)@ + join_fields(move_fields(from, to, piece_type), ':'),
{
    push_char(out, 'm');
    push_char(out, ':');
    push_decimal(out, from);
    push_char(out, ':');
    push_decimal(out, to);
    let letter = match piece_type {
        Some(PieceType::Queen) => Some('q'),
        Some(PieceType::Knight) => Some('n'),
        Some(PieceType::Bishop) => Some('b'),
        Some(PieceType::Rook) => Some('r'),
        _ => None,
    };
    if let Some(l) = letter {
        push_char(out, ':');
        push_char(out, l);
    }
    proof {
        let f = move_fields(from, to, piece_type);
        let base = seq![seq!['m'], decimal(from as nat), decimal(to as nat)];
        assert(base.drop_last().drop_last() =~= seq![seq!['m']]);
        assert(base.drop_last() =~= seq![seq!['m'], decimal(from as nat)]);
        assert(join_fields(seq![seq!['m']], ':') =~= seq!['m']);
        assert(join_fields(base.drop_last(), ':') =~= seq!['m', ':'] + decimal(from as nat));
        assert(join_fields(base, ':') =~= seq!['m', ':'] + decimal(from as nat) + seq![':'] + decimal(to as nat));
        if letter is Some {
            assert(f.drop_last() =~= base);
            assert(join_fields(f, ':') =~= join_fields(base, ':').push(':') + seq![letter.unwrap()]);
        }
    }
}

impl GameError {
    /// Parses a string message into a GameError. The expected format is `e:<error_code>`.
    ///
    /// Error codes are:
    /// - i: InvalidMessage
    /// - n: NoGameFound
    /// - m: InvalidMove
    ///
    /// It returns `Ok(GameError::InvalidMessage)` if the given error message is "e:i" but
    /// `Err(GameError::InvalidMessage)` if it receives an invalid message to parse.
    pub fn parse(message: &str) -> (r: Result<GameError, GameError>)
        ensures
            r == parse_game_error(message@),
    {
        let chars = chars_of(message);
        let tokens = split_colons(&chars);
        proof {
            lemma_split_len(chars@, ':');
            assert(tokens@[0]@ == split(message@, ':')[0]);
            if tokens.len() >= 2 {
                assert(tokens@[1]@ == split(message@, ':')[1]);
            }
        }
        if !is_field(&tokens[0], 'e') || tokens.len() < 2 {
            return Err(GameError::InvalidMessage);
        }
        let code = &tokens[1];
        let game_error = if is_field(code, 'i') {
            GameError::InvalidMessage
        } else if is_field(code, 'n') {
            GameError::NoGameFound
        } else if is_field(code, 'm') {
            GameError::InvalidMove
        } else {
            return Err(GameError::InvalidMessage);
        };
        Ok(game_error)
    }

    /// Converts a GameError into its string representation which can be used to transmit messages
    /// over TCP.
    pub fn to_string(&self) -> (s: String)
        ensures
            s@ == game_error_text(*self),
    {
        let mut s = String::new();
        push_char(&mut s, 'e');
        push_char(&mut s, ':');
        match self {
            GameError::InvalidMessage => push_char(&mut s, 'i'),
            GameError::NoGameFound => push_char(&mut s, 'n'),
            GameError::InvalidMove => push_char(&mut s, 'm'),
        }
        push_char(&mut s, '\n');
        assert(s@ =~= game_error_text(*self));
        s
    }
}

impl ServerMessage {
    /// Parses a string message into a ServerMessage.
    ///
    /// The expected formats are:
    /// - `s:<game_id>:<w|b>`: GameStart (e.g., "s:12:w" for game 12, playing as White)
    /// - `m:<from>:<to>:[piece_type]`: Move (e.g., "m:8:16" or "m:55:63:q" for queen promotion)
    /// - `a`: GameAborted
    ///
    /// It returns `Ok(ServerMessage)` on success, or `Err(GameError::InvalidMessage)`
    /// if it receives an invalid message payload to parse.
    pub fn parse(message: &str) -> (r: Result<ServerMessage, GameError>)
        ensures
            r == parse_server_message(message@),
    {
        let chars = chars_of(message);
        let tokens = split_colons(&chars);
        let ghost t = split(message@, ':');
        proof {
            lemma_split_len(chars@, ':');
            assert(tokens@[0]@ == t[0]);
            if tokens.len() >= 3 {
                assert(tokens@[1]@ == t[1]);
                assert(tokens@[2]@ == t[2]);
            }
        }
        if is_field(&tokens[0], 's') {
            if tokens.len() < 3 {
                return Err(GameError::InvalidMessage);
            }
            let game_id = match parse_usize_field(&tokens[1]) {
                Some(v) => v,
                None => {
                    return Err(GameError::InvalidMessage);
                },
            };
            let color = match color_of(&tokens[2]) {
                Some(c) => c,
                None => {
                    return Err(GameError::InvalidMessage);
                },
            };
            Ok(ServerMessage::GameStart { game_id, color })
        } else if is_field(&tokens[0], 'm') {
            match parse_move(&tokens, Ghost(t)) {
                Some((from, to, piece_type)) => Ok(ServerMessage::Move { from, to, piece_type }),
                None => Err(GameError::InvalidMessage),
            }
        } else if is_field(&tokens[0], 'a') {
            Ok(ServerMessage::GameAborted)
        } else {
            Err(GameError::InvalidMessage)
        }
    }

    /// Converts a ServerMessage into its string representation which can be used to transmit messages
    /// over TCP.
    pub fn to_string(&self) -> (s: String)
        ensures
            s@ == server_text(*self),
    {
        let mut s = String::new();
        match self {
            ServerMessage::GameStart { game_id, color } => {
                push_char(&mut s, 's');
                push_char(&mut s, ':');
                push_decimal(&mut s, *game_id);
                push_char(&mut s, ':');
                match color {
                    PieceColor::White => push_char(&mut s, 'w'),
                    PieceColor::Black => push_char(&mut s, 'b'),
                }
                proof {
                    let f = server_fields(*self);
                    assert(f.drop_last().drop_last() =~= seq![seq!['s']]);
                    assert(join_fields(seq![seq!['s']], ':') =~= seq!['s']);
                    assert(f.drop_last() =~= seq![seq!['s'], decimal(*game_id as nat)]);
                    assert(join_fields(f.drop_last(), ':') =~= seq!['s', ':'] + decimal(*game_id as nat));
                    assert(s@ =~= join_fields(f, ':'));
                }
            },
            ServerMessage::Move { from, to, piece_type } => {
                push_move(&mut s, *from, *to, *piece_type);
                assert(s@ =~= join_fields(server_fields(*self), ':'));
            },
            ServerMessage::GameAborted => {
                push_char(&mut s, 'a');
                assert(s@ =~= join_fields(server_fields(*self), ':'));
            },
        }
        push_char(&mut s, '\n');
        s
    }
}

impl ClientMessage {
    /// Parses a string message into a ClientMessage.
    ///
    /// The expected formats are:
    /// - `m:<from>:<to>:[piece_type]`: Move (e.g., "m:12:28" or "m:55:63:q" for queen promotion)
    /// - `q`: Quit
    ///
    /// It returns `Ok(ClientMessage)` on success, or `Err(GameError::InvalidMessage)`
    /// if it receives an invalid message payload to parse.
    pub fn parse(message: &str) -> (r: Result<ClientMessage, GameError>)
        ensures
            r == parse_client_message(message@),
    {
        let chars = chars_of(message);
        let tokens = split_colons(&chars);
        let ghost t = split(message@, ':');
        proof {
            lemma_split_len(chars@, ':');
            assert(tokens@[0]@ == t[0]);
            if tokens.len() >= 3 {
                assert(tokens@[1]@ == t[1]);
                assert(tokens@[2]@ == t[2]);
            }
        }
        if is_field(&tokens[0], 'm') {
            match parse_move(&tokens, Ghost(t)) {
                Some((from, to, piece_type)) => Ok(ClientMessage::Move { from, to, piece_type }),
                None => Err(GameError::InvalidMessage),
            }
        } else if is_field(&tokens[0], 'q') {
            Ok(ClientMessage::Quit)
        } else {
            Err(GameError::InvalidMessage)
        }
    }

    /// Converts a ClientMessage into its string representation which can be used to transmit messages
    /// over TCP.
    pub fn to_string(&self) -> (s: String)
        ensures
            s@ == client_text(*self),
    {
        let mut s = String::new();
        match self {
            ClientMessage::Move { from, to, piece_type } => {
                push_move(&mut s, *from, *to, *piece_type);
            },
            ClientMessage::Quit => {
                push_char(&mut s, 'q');
                assert(s@ =~= join_fields(client_fields(*self), ':'));
            },
        }
        push_char(&mut s, '\n');
        s
    }
}

} // verus!
