//! The chess engine: board state, move generation, check detection and the
//! execution of moves.
use vstd::prelude::*;

use crate::model::{
    at_least_one,
    bishop_dirs, bishop_moves, castle_moves, initial_square, king_moves, knight_dirs,
    knight_moves, lemma_bishop_moves_len, lemma_king_moves_len, lemma_knight_moves_len,
    lemma_pawn_moves_len, lemma_queen_moves_len, lemma_rook_moves_len, pawn_advance,
    pawn_capture, pawn_moves, queen_dirs, queen_moves, ray, rays, rook_dirs, rook_moves,
    BoardView, attackers, enemies_among, enterable, first_two, king_square,
    lemma_enemies_among_append, lemma_moves_enterable, piece_moves, wf, valid_moves,
    legal_among, leaves_king_safe, look_ahead, passing_view, lemma_target_facts,
    lemma_legal_among_len, is_castling_step, in_check, after_move, move_refusal,
    no_moves_left, placed, with_check_status, lemma_placed_wf, lemma_legal_among_subset,
    lemma_pawn_moves_ahead, opponent, en_passant_after,
};

verus! {

#[derive(Debug, Copy, Clone, PartialEq, Eq, Structural)]
pub enum PieceType {
    Pawn,
    Knight,
    Bishop,
    Rook,
    Queen,
    King,
}

#[derive(Debug, Copy, Clone, PartialEq, Eq, Structural)]
pub enum PieceColor {
    White,
    Black,
}

#[derive(Debug, Copy, Clone, PartialEq, Eq, Structural)]
pub struct Piece {
    pub piece_type: PieceType,
    pub piece_color: PieceColor,
}

impl Piece {
    pub fn new(piece_type: PieceType, piece_color: PieceColor) -> (p: Self)
        ensures
            p.piece_type == piece_type,
            p.piece_color == piece_color,
    {
        Piece { piece_type, piece_color }
    }
}

/// Which castlings each side may still make.
#[derive(Debug, Copy, Clone, PartialEq, Eq, Structural)]
pub struct CastleRights {
    pub white_kingside: bool,
    pub white_queenside: bool,
    pub black_kingside: bool,
    pub black_queenside: bool,
}

/// A list of at most 27 target squares: the first `count` entries of `moves`.
#[derive(Debug)]
pub struct MoveList {
    pub moves: [usize; 27],  // Max possible moves for a queen in the center of an empty board
    pub count: usize,
}

impl View for MoveList {
    type V = Seq<usize>;

    open spec fn view(&self) -> Seq<usize> {
        self.moves@.take(self.count as int)
    }
}

impl MoveList {
    pub fn new() -> (l: Self)
        ensures
            l.count == 0,
            l@ == Seq::<usize>::empty(),
            forall|i: int| 0 <= i < 27 ==> l.moves[i] == 0,
    {
        Self { moves: [0;27], count: 0 }
    }

    pub fn push(&mut self, idx: usize)
        requires
            old(self).count < 27,
        ensures
            final(self).count == old(self).count + 1,
            final(self).moves@ == old(self).moves@.update(old(self).count as int, idx),
            final(self)@ == old(self)@.push(idx),
    {
        let ghost before = self@;
        self.moves[self.count] = idx;
        self.count += 1;
        assert(self@ =~= before.push(idx));
    }

    /// Whether `idx` is among the listed squares.
    pub fn contains(&self, idx: usize) -> (b: bool)
        requires
            self.count <= 27,
        ensures
            b == self@.contains(idx),
    {
        let mut k: usize = 0;
        while k < self.count
            invariant
                k <= self.count <= 27,
                forall|j: int| 0 <= j < k ==> self@[j] != idx,
            decreases self.count - k,
        {
            if self.moves[k] == idx {
                assert(self@[k as int] == idx);
                return true;
            }
            k += 1;
        }
        false
    }
}


/// A chess position together with the bookkeeping the rules need.
#[derive(Debug)]
pub struct Board {
    square: [Option<Piece>; 64],
    current_turn: PieceColor,  // For backend validation of moves
    checked: bool,
    checkers: [Option<usize>; 2],  // Max 2 pieces can check the king at once
    black_king_pos: usize,
    white_king_pos: usize,
    game_over: bool,
    winner: Option<PieceColor>,
    castle_rights: CastleRights,
    en_passant_target: Option<usize>,
}

impl View for Board {
    type V = BoardView;

    closed spec fn view(&self) -> BoardView {
        BoardView {
            squares: self.square@,
            current_turn: self.current_turn,
            checked: self.checked,
            checkers: self.checkers@,
            black_king_pos: self.black_king_pos,
            white_king_pos: self.white_king_pos,
            game_over: self.game_over,
            winner: self.winner,
            castle_rights: self.castle_rights,
            en_passant_target: self.en_passant_target,
        }
    }
}

/// The position a game starts from: the pieces on their home squares, white
/// to move, nobody in check, every castling still allowed, no en passant
/// square.
pub open spec fn start_position(v: BoardView) -> bool {
    &&& v.squares.len() == 64
    &&& forall|i: int| 0 <= i < 64 ==> v.squares[i] == initial_square(i)
    &&& v.current_turn == PieceColor::White
    &&& !v.checked
    &&& v.checkers == seq![None::<usize>, None::<usize>]
    &&& v.white_king_pos == 4
    &&& v.black_king_pos == 60
    &&& !v.game_over
    &&& v.winner is None
    &&& v.castle_rights == (CastleRights {
        white_kingside: true,
        white_queenside: true,
        black_kingside: true,
        black_queenside: true,
    })
    &&& v.en_passant_target is None
}

impl Board {
    pub fn new() -> (b: Self)
        ensures
            wf(b@),
            start_position(b@),
    {
        let mut square: [Option<Piece>; 64] = [None;64];
        for i in 0..64
            invariant
                forall|j: int| 0 <= j < i ==> square@[j] == initial_square(j),
                forall|j: int| i <= j < 64 ==> square@[j] is None,
        {
            let (row, col) = Board::index_to_coordinates(i);
            // Rows 2 to 5 start empty
            if row < 2 || row > 5 {
                let piece_color = if row < 2 {
                    PieceColor::White  // White pieces starting from 0th index
                } else {
                    PieceColor::Black  // Black pieces ending at 63rd index
                };
                let piece_type = if row == 1 || row == 6 {
                    PieceType::Pawn
                } else {
                    match col {
                        0 | 7 => PieceType::Rook,
                        1 | 6 => PieceType::Knight,
                        2 | 5 => PieceType::Bishop,
                        3 => PieceType::Queen,
                        _ => PieceType::King,
                    }
                };
                square[i] = Some(Piece::new(piece_type, piece_color));
            }
        }
        assert forall|i: int| 0 <= i < 64 && #[trigger] square@[i] == crate::model::king_of(PieceColor::White) implies i == 4 by {
            assert(square@[i] == initial_square(i));
        }
        assert forall|i: int| 0 <= i < 64 && #[trigger] square@[i] == crate::model::king_of(PieceColor::Black) implies i == 60 by {
            assert(square@[i] == initial_square(i));
        }
        let b = Board {
            square,
            current_turn: PieceColor::White,  // Default to white's turn
            checked: false,
            checkers: [None;2],
            black_king_pos: 60,  // Starting position of black king
            white_king_pos: 4,  // Starting position of white king
            game_over: false,
            winner: None,
            castle_rights: CastleRights {
                white_kingside: true,
                white_queenside: true,
                black_kingside: true,
                black_queenside: true,
            },
            en_passant_target: None,
        };
        assert(b@.checkers =~= seq![None::<usize>, None::<usize>]);
        b
    }

    pub fn index_to_coordinates(index: usize) -> (rc: (usize, usize))
        ensures
            rc.0 == index / 8,
            rc.1 == index % 8,
            8 * rc.0 + rc.1 == index,
    {
        let row = index / 8;
        let col = index % 8;
        (row, col)
    }

    /// Moves the piece on `current_idx` to `target_idx` when the game is
    /// running, the piece belongs to the side to move and the move is legal;
    /// otherwise refuses with the reason and leaves the board as it was.
    #[verifier::rlimit(40)]
    #[verifier::spinoff_prover]
    pub fn move_piece(&mut self, current_idx: usize, target_idx: usize) -> (r: Result<(), &'static str>)
        requires
            wf(old(self)@),
            old(self)@.game_over || current_idx < 64,
        ensures
            wf(final(self)@),
            r is Ok <==> move_refusal(old(self)@, current_idx, target_idx) is None,
            r is Ok ==> final(self)@ == after_move(old(self)@, current_idx, target_idx),
            r matches Err(e) ==> final(self)@ == old(self)@ && move_refusal(
                old(self)@,
                current_idx,
                target_idx,
            ) == Some(e@),
    {
        let ghost v = self@;
        if self.game_over {
            return Err("Game is already over");
        }
        // Also checks if there's a piece at current_idx
        let possible_moves = match self.get_valid_moves(current_idx) {
            Ok(list) => list,
            Err(e) => {
                return Err(e);
            },
        };
        let piece = self.square[current_idx].unwrap();  // Safe to unwrap since we just checked it
        // Check if it's the current player's turn
        if piece.piece_color != self.current_turn {
            return Err("It's not your turn");
        }
        if !possible_moves.contains(target_idx) {
            return Err("Invalid move!");
        }
        proof {
            lemma_legal_among_subset(v, current_idx, crate::model::piece_moves(v, current_idx as int), target_idx);
            lemma_placed_wf(v, current_idx, target_idx);
            let j = choose|j: int| 0 <= j < piece_moves(v, current_idx as int).len() && piece_moves(v, current_idx as int)[j] == target_idx;
            lemma_target_facts(v, current_idx as int, j);
            if piece.piece_type == PieceType::Pawn {
                lemma_pawn_moves_ahead(v, piece.piece_color, current_idx as int, false);
            }
        }
        let new_en_passant_target = self.place_piece(current_idx, target_idx, piece);
        let checkers = self.is_king_in_check(self.current_turn);
        if checkers[0].is_none() {
            self.checked = false;
        } else {
            self.checked = true;
        }
        self.checkers = checkers;
        assert(self@ == with_check_status(placed(v, current_idx, target_idx)));
        self.en_passant_target = new_en_passant_target;
        assert(self@ == crate::model::reached(v, current_idx, target_idx));
        if self.check_game_over() {
            self.game_over = true;
            if self.checked {
                self.winner = Some(
                    match self.current_turn {
                        PieceColor::White => PieceColor::Black,
                        PieceColor::Black => PieceColor::White,
                    },
                );
            }
        }
        assert(self@ == after_move(v, current_idx, target_idx));
        Ok(())
    }

    /// Places the piece of `current_idx` on `target_idx` with everything a
    /// move brings along, and passes the turn; returns the new en passant square.
    fn place_piece(&mut self, current_idx: usize, target_idx: usize, piece: Piece) -> (ep: Option<usize>)
        requires
            current_idx < 64,
            old(self)@.squares[current_idx as int] == Some(piece),
            target_idx < 64,
            target_idx != current_idx,
            is_castling_step(old(self)@, current_idx, target_idx) ==> {
                &&& piece.piece_color == PieceColor::White ==> current_idx == 4 && (target_idx == 6
                    || target_idx == 2)
                &&& piece.piece_color == PieceColor::Black ==> current_idx == 60 && (target_idx
                    == 62 || target_idx == 58)
            },
            piece.piece_type == PieceType::Pawn ==> 0 <= crate::model::en_passant_victim(
                piece.piece_color,
                target_idx as int,
            ) < 64,
        ensures
            final(self)@ == placed(old(self)@, current_idx, target_idx),
            ep == en_passant_after(old(self)@, current_idx, target_idx),
    {
        let ghost v = self@;
        let mut new_en_passant_target: Option<usize> = None;
        move_on_squares(&mut self.square, self.en_passant_target, current_idx, target_idx, piece);
        if piece.piece_type == PieceType::King {
            // Take away castle rights and update king pos if the king moves
            match piece.piece_color {
                PieceColor::Black => {
                    self.castle_rights.black_kingside = false;
                    self.castle_rights.black_queenside = false;
                    self.black_king_pos = target_idx;
                },
                PieceColor::White => {
                    self.castle_rights.white_kingside = false;
                    self.castle_rights.white_queenside = false;
                    self.white_king_pos = target_idx;
                },
            }
        } else if piece.piece_type == PieceType::Pawn {
            let distance = target_idx as isize - current_idx as isize;
            if distance == 16 || distance == -16 {  // En Passant
                new_en_passant_target = Some((current_idx + target_idx) / 2);
            }
        } else if piece.piece_type == PieceType::Rook {
            // Take away castle rights if the rook moves
            match current_idx {
                0 => self.castle_rights.white_queenside = false,
                7 => self.castle_rights.white_kingside = false,
                56 => self.castle_rights.black_queenside = false,
                63 => self.castle_rights.black_kingside = false,
                _ => {},  // Do Nothing
            }
        }
        // A piece landing on a corner takes away that corner's right
        match target_idx {
            0 => self.castle_rights.white_queenside = false,
            7 => self.castle_rights.white_kingside = false,
            56 => self.castle_rights.black_queenside = false,
            63 => self.castle_rights.black_kingside = false,
            _ => {},
        }
        // Switch turns
        self.current_turn = match self.current_turn {
            PieceColor::White => PieceColor::Black,
            PieceColor::Black => PieceColor::White,
        };
        assert(self@ == placed(v, current_idx, target_idx));
        new_en_passant_target
    }

    /// Whether the side to move has no legal move left.
    fn check_game_over(&mut self) -> (over: bool)
        requires
            wf(old(self)@),
        ensures
            final(self)@ == old(self)@,
            over == no_moves_left(old(self)@),
    {
        let ghost v = self@;
        let mut idx: usize = 0;
        while idx < 64
            invariant
                self@ == v,
                v == old(self)@,
                wf(v),
                idx <= 64,
                forall|i: int|
                    0 <= i < idx && (#[trigger] v.squares[i]) is Some && v.squares[i].unwrap().piece_color
                        == v.current_turn ==> valid_moves(v, i).len() == 0,
            decreases 64 - idx,
        {
            if let Some(piece) = self.square[idx] {
                if piece.piece_color == self.current_turn {
                    let moves = self.get_valid_moves(idx);
                    if let Ok(valid_moves) = moves {
                        if valid_moves.count > 0 {
                            assert(v.squares[idx as int] is Some);
                            return false;
                        }
                    }
                }
            }
            idx += 1;
        }
        true
    }

    /// Whether the game has ended, and who won it (none on a stalemate).
    pub fn is_game_over(&self) -> (r: (bool, Option<PieceColor>))
        ensures
            r == (self@.game_over, self@.winner),
    {
        (self.game_over, self.winner)
    }

    pub fn get_current_turn(&self) -> (c: PieceColor)
        ensures
            c == self@.current_turn,
    {
        self.current_turn
    }

    /// The square of the king of the side to move when that king is in check.
    pub fn get_checked_index(&self) -> (r: Option<usize>)
        ensures
            r == (if self@.checked {
                Some(crate::model::king_square(self@, self@.current_turn) as usize)
            } else {
                None
            }),
    {
        if self.checked {
            match self.current_turn {
                PieceColor::White => Some(self.white_king_pos),
                PieceColor::Black => Some(self.black_king_pos),
            }
        } else {
            None
        }
    }

    /// The colour of the piece on `idx`, if any.
    pub fn get_piece_color(&self, idx: usize) -> (r: Option<PieceColor>)
        requires
            idx < 64,
        ensures
            r == (match self@.squares[idx as int] {
                Some(p) => Some(p.piece_color),
                None => None,
            }),
    {
        match self.square[idx] {
            Some(piece) => Some(piece.piece_color),
            None => None,
        }
    }

    /// The position as a text diagram, white's back row on the first line.
    pub fn to_string(&self) -> (text: String)
        ensures
            text@ == crate::diagram::rows_text(self@.squares, false, 8),
    {
        crate::diagram::squares_text(&self.square, false)
    }

    /// The letter of the piece on `idx`: lower case for black, capital for white.
    pub fn get_piece_char(&self, idx: usize) -> (r: Option<char>)
        requires
            idx < 64,
        ensures
            r == (match self@.squares[idx as int] {
                Some(p) => Some(crate::model::piece_letter(p)),
                None => None,
            }),
    {
        match self.square[idx] {
            Some(piece) => {
                // Small for black, Capital for white
                Some(
                    match piece.piece_color {
                        PieceColor::White => match piece.piece_type {
                            PieceType::Pawn => 'P',
                            PieceType::Knight => 'N',
                            PieceType::Bishop => 'B',
                            PieceType::Rook => 'R',
                            PieceType::Queen => 'Q',
                            PieceType::King => 'K',
                        },
                        PieceColor::Black => match piece.piece_type {
                            PieceType::Pawn => 'p',
                            PieceType::Knight => 'n',
                            PieceType::Bishop => 'b',
                            PieceType::Rook => 'r',
                            PieceType::Queen => 'q',
                            PieceType::King => 'k',
                        },
                    },
                )
            },
            None => None,
        }
    }

    /// The moves of the piece on `idx` by its own pattern, whether or not
    /// they would leave its king attacked.
    pub fn get_possible_moves(&self, idx: usize) -> (r: Result<MoveList, &'static str>)
        requires
            idx < 64,
        ensures
            match r {
                Ok(list) => {
                    &&& self@.squares[idx as int] is Some
                    &&& list.count <= 27
                    &&& list@ == piece_moves(self@, idx as int)
                },
                Err(e) => self@.squares[idx as int] is None && e@ == "No piece at the given index"@,
            },
    {
        // Check if there's a piece at the given index
        let piece = match self.square[idx] {
            Some(piece) => piece,
            None => {
                return Err("No piece at the given index");
            },
        };
        match piece.piece_type {
            PieceType::Pawn => Ok(self.get_possible_pawn_moves(piece, idx, false)),
            PieceType::Knight => Ok(self.get_possible_knight_moves(piece, idx)),
            PieceType::Rook => Ok(self.get_possible_rook_moves(piece, idx)),
            PieceType::Bishop => Ok(self.get_possible_bishop_moves(piece, idx)),
            PieceType::Queen => Ok(self.get_possible_queen_moves(piece, idx)),
            PieceType::King => Ok(self.get_possible_king_moves(piece, idx)),
        }
    }

    /// The moves of the piece on `idx` that do not leave its own king
    /// attacked. Each candidate is tried on the board itself and the board
    /// is put back as it was.
    pub fn get_valid_moves(&mut self, idx: usize) -> (r: Result<MoveList, &'static str>)
        requires
            wf(old(self)@),
            idx < 64,
        ensures
            final(self)@ == old(self)@,
            match r {
                Ok(list) => {
                    &&& old(self)@.squares[idx as int] is Some
                    &&& list.count <= 27
                    &&& list@ == valid_moves(old(self)@, idx as int)
                },
                Err(e) => old(self)@.squares[idx as int] is None && e@ == "No piece at the given index"@,
            },
    {
        let ghost v = self@;
        let possible_moves = match self.get_possible_moves(idx) {
            Ok(list) => list,
            Err(e) => {
                return Err(e);
            },
        };
        let mut valid_moves = MoveList::new();
        let piece_color = self.square[idx].unwrap().piece_color;  // Sure that a piece exists here
        let mut i: usize = 0;
        while i < possible_moves.count
            invariant
                self@ == v,
                wf(v),
                idx < 64,
                v.squares[idx as int] is Some,
                piece_color == v.squares[idx as int].unwrap().piece_color,
                i <= possible_moves.count <= 27,
                possible_moves@ == piece_moves(v, idx as int),
                valid_moves.count <= i,
                valid_moves@ == legal_among(v, idx, possible_moves@.take(i as int)),
            decreases possible_moves.count - i,
        {
            let target_idx = possible_moves.moves[i];
            proof {
                assert(possible_moves@[i as int] == target_idx);
                lemma_target_facts(v, idx as int, i as int);
                assert(possible_moves@.take(i + 1).drop_last() =~= possible_moves@.take(i as int));
                assert(possible_moves@.take(i + 1).last() == target_idx);
                lemma_legal_among_len(v, idx, possible_moves@.take(i as int));
            }
            let distance = target_idx as isize - idx as isize;
            let mut passing_safe = true;
            if self.square[idx].unwrap().piece_type == PieceType::King && (distance == 2 || distance
                == -2) {  // Castling Move
                passing_safe = self.castle_passage_safe(idx, target_idx, piece_color);
            }
            if passing_safe {
                let is_safe = self.look_ahead_safe(idx, target_idx, piece_color);
                if is_safe {
                    valid_moves.push(target_idx);
                }
            }
            assert(valid_moves@ =~= legal_among(v, idx, possible_moves@.take(i + 1)));
            i += 1;
        }
        assert(possible_moves@.take(i as int) =~= possible_moves@);
        Ok(valid_moves)
    }

    /// Whether the king on `idx`, castling to `target_idx`, is unattacked on
    /// the square it crosses; the king is put there and back.
    #[verifier::rlimit(50)]
    fn castle_passage_safe(&mut self, idx: usize, target_idx: usize, piece_color: PieceColor) -> (b: bool)
        requires
            wf(old(self)@),
            idx < 64,
            target_idx < 64,
            is_castling_step(old(self)@, idx, target_idx),
            old(self)@.squares[crate::model::castle_passing_square(idx as int, target_idx as int)] is None,
            0 <= crate::model::castle_passing_square(idx as int, target_idx as int) < 64,
        ensures
            final(self)@ == old(self)@,
            b == !in_check(passing_view(old(self)@, idx, target_idx), piece_color),
    {
        let ghost v = self@;
        let mut white_king_moved = false;
        let mut black_king_moved = false;
        let passing_idx = if target_idx > idx {
            idx + 1
        } else {
            idx - 1
        };
        // Ghost Move the King
        let king = self.square[idx];
        self.square[idx] = None;
        self.square[passing_idx] = king;
        if idx == self.white_king_pos {
            self.white_king_pos = passing_idx;
            white_king_moved = true;
        }
        if idx == self.black_king_pos {
            self.black_king_pos = passing_idx;
            black_king_moved = true;
        }
        assert(self.square@ =~= passing_view(v, idx, target_idx).squares);
        assert(self@ == passing_view(v, idx, target_idx));
        let passing_safe = self.is_king_in_check(piece_color)[0].is_none();
        // Move the king back to its own square
        let king = self.square[passing_idx];
        self.square[passing_idx] = None;
        self.square[idx] = king;
        if white_king_moved {
            self.white_king_pos = idx;
        }
        if black_king_moved {
            self.black_king_pos = idx;
        }
        assert(self.square@ =~= v.squares);
        passing_safe
    }

    /// Whether moving the piece on `idx` to `target_idx` leaves the king of
    /// `piece_color` unattacked; the move is made and taken back.
    #[verifier::rlimit(50)]
    fn look_ahead_safe(&mut self, idx: usize, target_idx: usize, piece_color: PieceColor) -> (b: bool)
        requires
            old(self)@.white_king_pos < 64,
            old(self)@.black_king_pos < 64,
            idx < 64,
            target_idx < 64,
            idx != target_idx,
            old(self)@.squares[idx as int] is Some,
            old(self)@.squares[idx as int].unwrap().piece_color == piece_color,
            old(self)@.squares[idx as int].unwrap().piece_type == PieceType::Pawn ==> 0
                <= crate::model::en_passant_victim(piece_color, target_idx as int) < 64,
        ensures
            final(self)@ == old(self)@,
            b == !in_check(look_ahead(old(self)@, idx, target_idx), piece_color),
    {
        let ghost v = self@;
        let mut white_king_moved = false;
        let mut black_king_moved = false;
        let target_piece = self.square[target_idx];
        let mut ep_captured_idx: Option<usize> = None;
        let mut ep_captured_piece: Option<Piece> = None;
        let ghost la = look_ahead(v, idx, target_idx);
        let ghost s1 = if v.squares[idx as int].unwrap().piece_type == PieceType::Pawn
            && v.en_passant_target == Some(target_idx) {
            v.squares.update(crate::model::en_passant_victim(piece_color, target_idx as int), None)
        } else {
            v.squares
        };
        if self.square[idx].unwrap().piece_type == PieceType::Pawn {
            if let Some(ep_idx) = self.en_passant_target {
                if ep_idx == target_idx {
                    let captured_idx = if piece_color == PieceColor::White {
                        target_idx - 8
                    } else {
                        target_idx + 8
                    };
                    ep_captured_idx = Some(captured_idx);
                    ep_captured_piece = self.square[captured_idx];
                    self.square[captured_idx] = None;
                }
            }
        }
        assert(self.square@ =~= s1);
        // Ghost Move
        let moving = self.square[idx];
        self.square[idx] = None;
        self.square[target_idx] = moving;
        assert(self.square@ =~= crate::model::relocated(s1, idx as int, target_idx as int));
        // Temporarily change king pos if its a king
        if idx == self.white_king_pos {
            self.white_king_pos = target_idx;
            white_king_moved = true;
        }
        if idx == self.black_king_pos {
            self.black_king_pos = target_idx;
            black_king_moved = true;
        }
        assert(self@ == la);
        let is_safe = self.is_king_in_check(piece_color)[0].is_none();
        let back = self.square[target_idx];
        self.square[target_idx] = None;
        self.square[idx] = back;
        self.square[target_idx] = target_piece;
        assert(self.square@ =~= s1.update(target_idx as int, v.squares[target_idx as int]));
        if let Some(captured_idx) = ep_captured_idx {
            self.square[captured_idx] = ep_captured_piece;  // Restore the captured pawn in case of en passant
        }
        // Restore King pos
        if white_king_moved {
            self.white_king_pos = idx;
        }
        if black_king_moved {
            self.black_king_pos = idx;
        }
        assert(self.square@ =~= v.squares);
        is_safe
    }

    /// The first two pieces attacking the king of `king_color`.
    fn is_king_in_check(&self, king_color: PieceColor) -> (result: [Option<usize>; 2])
        requires
            self@.white_king_pos < 64,
            self@.black_king_pos < 64,
        ensures
            result@ == first_two(attackers(self@, king_color)),
    {
        let ghost v = self@;
        let mut result: [Option<usize>; 2] = [None;2];
        let mut i: usize = 0;
        let king_pos = match king_color {
            PieceColor::White => self.white_king_pos,
            PieceColor::Black => self.black_king_pos,
        };
        let king_piece = match king_color {
            PieceColor::White => Piece::new(PieceType::King, PieceColor::White),
            PieceColor::Black => Piece::new(PieceType::King, PieceColor::Black),
        };
        let ghost k = king_square(v, king_color);
        assert(king_pos == k);
        proof {
            lemma_moves_enterable(v, king_color, k);
        }
        let ghost f0 = Seq::<usize>::empty();
        assert(result@ =~= first_two(f0));
        let pawn_kinds: [PieceType; 1] = [PieceType::Pawn];
        let knight_kinds: [PieceType; 1] = [PieceType::Knight];
        let line_kinds: [PieceType; 2] = [PieceType::Rook, PieceType::Queen];
        let diagonal_kinds: [PieceType; 2] = [PieceType::Bishop, PieceType::Queen];
        let king_kinds: [PieceType; 1] = [PieceType::King];
        assert(pawn_kinds@ =~= seq![PieceType::Pawn]);
        assert(knight_kinds@ =~= seq![PieceType::Knight]);
        assert(line_kinds@ =~= seq![PieceType::Rook, PieceType::Queen]);
        assert(diagonal_kinds@ =~= seq![PieceType::Bishop, PieceType::Queen]);
        assert(king_kinds@ =~= seq![PieceType::King]);
        let ghost a1 = enemies_among(v, king_color, pawn_kinds@, pawn_moves(v, king_color, k, true));
        let ghost a2 = enemies_among(v, king_color, knight_kinds@, knight_moves(v, king_color, k));
        let ghost a3 = enemies_among(v, king_color, line_kinds@, rook_moves(v, king_color, k));
        let ghost a4 = enemies_among(v, king_color, diagonal_kinds@, bishop_moves(v, king_color, k));
        let ghost a5 = enemies_among(v, king_color, king_kinds@, king_moves(v, king_color, k));
        assert(attackers(v, king_color) == a1 + a2 + a3 + a4 + a5) by {
            reveal(attackers);
        }
        let pawn_moves = self.get_possible_pawn_moves(king_piece, king_pos, true);
        if self.check_for_checks(pawn_moves, king_color, &pawn_kinds, &mut result, &mut i, Ghost(f0)) {
            proof { lemma_first_two_extend(a1, a2 + a3 + a4 + a5); assert(a1 + a2 + a3 + a4 + a5 =~= a1 + (a2 + a3 + a4 + a5)); }
            return result;
        }
        let knight_moves = self.get_possible_knight_moves(king_piece, king_pos);
        if self.check_for_checks(knight_moves, king_color, &knight_kinds, &mut result, &mut i, Ghost(f0 + a1)) {
            proof { assert(f0 + a1 =~= a1); lemma_first_two_extend(a1 + a2, a3 + a4 + a5); assert(a1 + a2 + a3 + a4 + a5 =~= (a1 + a2) + (a3 + a4 + a5)); }
            return result;
        }
        assert(f0 + a1 + a2 =~= a1 + a2);
        let rook_moves = self.get_possible_rook_moves(king_piece, king_pos);
        if self.check_for_checks(rook_moves, king_color, &line_kinds, &mut result, &mut i, Ghost(a1 + a2)) {
            proof { lemma_first_two_extend(a1 + a2 + a3, a4 + a5); assert(a1 + a2 + a3 + a4 + a5 =~= (a1 + a2 + a3) + (a4 + a5)); }
            return result;
        }
        let bishop_moves = self.get_possible_bishop_moves(king_piece, king_pos);
        if self.check_for_checks(bishop_moves, king_color, &diagonal_kinds, &mut result, &mut i, Ghost(a1 + a2 + a3)) {
            proof { lemma_first_two_extend(a1 + a2 + a3 + a4, a5); }
            return result;
        }
        let king_moves = self.get_possible_king_moves(king_piece, king_pos);
        if self.check_for_checks(king_moves, king_color, &king_kinds, &mut result, &mut i, Ghost(a1 + a2 + a3 + a4)) {
            return result;
        }
        result
    }

    /// Records, after the attackers `found` so far (fewer than two), the
    /// squares of `moves` holding an opposing piece of one of `piece_type`;
    /// true once two attackers are known.
    fn check_for_checks(
        &self,
        moves: MoveList,
        king_color: PieceColor,
        piece_type: &[PieceType],
        result: &mut [Option<usize>; 2],
        i: &mut usize,
        Ghost(found): Ghost<Seq<usize>>,
    ) -> (done: bool)
        requires
            moves.count <= 27,
            forall|k: int| 0 <= k < moves@.len() ==> #[trigger] moves@[k] < 64,
            *old(i) == found.len(),
            found.len() < 2,
            old(result)@ == first_two(found),
        ensures
            final(result)@ == first_two(found + enemies_among(self@, king_color, piece_type@, moves@)),
            done == ((found + enemies_among(self@, king_color, piece_type@, moves@)).len() >= 2),
            !done ==> *final(i) == (found + enemies_among(self@, king_color, piece_type@, moves@)).len(),
    {
        let ghost v = self@;
        let ghost kinds = piece_type@;
        let ghost all = moves@;
        let mut k: usize = 0;
        while k < moves.count
            invariant
                k <= moves.count <= 27,
                all == moves@,
                v == self@,
                kinds == piece_type@,
                forall|j: int| 0 <= j < all.len() ==> #[trigger] all[j] < 64,
                (found + enemies_among(v, king_color, kinds, all.take(k as int))).len() < 2,
                *i == (found + enemies_among(v, king_color, kinds, all.take(k as int))).len(),
                result@ == first_two(found + enemies_among(v, king_color, kinds, all.take(k as int))),
            decreases moves.count - k,
        {
            let id = moves.moves[k];
            let ghost cur = found + enemies_among(v, king_color, kinds, all.take(k as int));
            assert(all.take(k + 1).drop_last() =~= all.take(k as int));
            assert(all.take(k + 1).last() == id);
            assert(id < 64);
            if let Some(piece) = self.square[id] {
                if piece.piece_color != king_color && kind_in(piece_type, piece.piece_type) {
                    assert(found + enemies_among(v, king_color, kinds, all.take(k + 1)) =~= cur.push(id));
                    result[*i] = Some(id);
                    *i += 1;
                    assert(result@ =~= first_two(cur.push(id)));
                    if *i == 2 {
                        // Max 2 checkers, no need to continue
                        proof {
                            lemma_enemies_among_append(v, king_color, kinds, all.take(k + 1), all.skip(k + 1));
                            assert(all.take(k + 1) + all.skip(k + 1) =~= all);
                            lemma_first_two_extend(cur.push(id), enemies_among(v, king_color, kinds, all.skip(k + 1)));
                            assert(found + enemies_among(v, king_color, kinds, all) =~= cur.push(id) + enemies_among(v, king_color, kinds, all.skip(k + 1)));
                        }
                        return true;
                    }
                } else {
                    assert(found + enemies_among(v, king_color, kinds, all.take(k + 1)) =~= cur);
                }
            } else {
                assert(found + enemies_among(v, king_color, kinds, all.take(k + 1)) =~= cur);
            }
            k += 1;
        }
        assert(all.take(k as int) =~= all);
        false
    }

    fn get_possible_knight_moves(&self, piece: Piece, idx: usize) -> (result: MoveList)
        requires
            idx < 64,
        ensures
            result.count <= 27,
            result@ == knight_moves(self@, piece.piece_color, idx as int),
    {
        let mut result = MoveList::new();
        let (row, col) = Board::index_to_coordinates(idx);
        // All possible knight directional moves
        let directions: [(isize, isize); 8] = [
            (1, 2),
            (1, -2),
            (-1, 2),
            (-1, -2),
            (2, 1),
            (2, -1),
            (-2, 1),
            (-2, -1),
        ];
        assert(directions@ =~= knight_dirs());
        proof {
            lemma_knight_moves_len(self@, piece.piece_color, idx as int);
        }
        // Checks only for 1 step in each direction since knights can only move 1 step in their unique L-shaped pattern
        self.get_directional_moves(&mut result, piece, row, col, &directions, 1);
        assert(result@ =~= knight_moves(self@, piece.piece_color, idx as int));
        result
    }

    fn get_possible_rook_moves(&self, piece: Piece, idx: usize) -> (result: MoveList)
        requires
            idx < 64,
        ensures
            result.count <= 27,
            result@ == rook_moves(self@, piece.piece_color, idx as int),
    {
        let mut result = MoveList::new();
        let (row, col) = Board::index_to_coordinates(idx);
        let directions: [(isize, isize); 4] = [(1, 0), (-1, 0), (0, 1), (0, -1)];  // Straight directions
        assert(directions@ =~= rook_dirs());
        proof {
            lemma_rook_moves_len(self@, piece.piece_color, idx as int);
        }
        // Checks for up to 7 steps in each direction since the rook can move across the entire board
        self.get_directional_moves(&mut result, piece, row, col, &directions, 7);
        assert(result@ =~= rook_moves(self@, piece.piece_color, idx as int));
        result
    }

    fn get_possible_bishop_moves(&self, piece: Piece, idx: usize) -> (result: MoveList)
        requires
            idx < 64,
        ensures
            result.count <= 27,
            result@ == bishop_moves(self@, piece.piece_color, idx as int),
    {
        let mut result = MoveList::new();
        let (row, col) = Board::index_to_coordinates(idx);
        // Same as rook but diagonal directions
        let directions: [(isize, isize); 4] = [(1, 1), (-1, 1), (1, -1), (-1, -1)];
        assert(directions@ =~= bishop_dirs());
        proof {
            lemma_bishop_moves_len(self@, piece.piece_color, idx as int);
        }
        self.get_directional_moves(&mut result, piece, row, col, &directions, 7);
        assert(result@ =~= bishop_moves(self@, piece.piece_color, idx as int));
        result
    }

    fn get_possible_queen_moves(&self, piece: Piece, idx: usize) -> (result: MoveList)
        requires
            idx < 64,
        ensures
            result.count <= 27,
            result@ == queen_moves(self@, piece.piece_color, idx as int),
    {
        let mut result = MoveList::new();
        let (row, col) = Board::index_to_coordinates(idx);
        // Rook and Bishop Combined
        let directions: [(isize, isize); 8] = [
            (1, 1),
            (-1, 1),
            (1, -1),
            (-1, -1),
            (1, 0),
            (-1, 0),
            (0, 1),
            (0, -1),
        ];
        assert(directions@ =~= queen_dirs());
        proof {
            lemma_queen_moves_len(self@, piece.piece_color, idx as int);
        }
        self.get_directional_moves(&mut result, piece, row, col, &directions, 7);
        assert(result@ =~= queen_moves(self@, piece.piece_color, idx as int));
        result
    }

    fn get_possible_king_moves(&self, piece: Piece, idx: usize) -> (result: MoveList)
        requires
            idx < 64,
        ensures
            result.count <= 27,
            result@ == king_moves(self@, piece.piece_color, idx as int),
    {
        let mut result = MoveList::new();
        let (row, col) = Board::index_to_coordinates(idx);
        // Directions same as queen
        let directions: [(isize, isize); 8] = [
            (1, 1),
            (-1, 1),
            (1, -1),
            (-1, -1),
            (1, 0),
            (-1, 0),
            (0, 1),
            (0, -1),
        ];
        assert(directions@ =~= queen_dirs());
        proof {
            lemma_king_moves_len(self@, piece.piece_color, idx as int);
        }
        let ghost v = self@;
        let ghost color = piece.piece_color;
        let ghost stepped = rays(v, color, row as int, col as int, queen_dirs(), 1);
        assert(stepped.len() + castle_moves(v, color).len() <= 10);
        // But moves only 1 step
        self.get_directional_moves(&mut result, piece, row, col, &directions, 1);
        // Check for castling
        if !self.checked {
            if piece.piece_color == PieceColor::White {
                if self.castle_rights.white_kingside && self.square[5].is_none()
                    && self.square[6].is_none() && is_rook_of(self.square[7], PieceColor::White) {
                    result.push(6);
                }
                if self.castle_rights.white_queenside && self.square[1].is_none()
                    && self.square[2].is_none() && self.square[3].is_none() && is_rook_of(
                    self.square[0],
                    PieceColor::White,
                ) {
                    result.push(2);
                }
            } else {
                if self.castle_rights.black_kingside && self.square[61].is_none()
                    && self.square[62].is_none() && is_rook_of(self.square[63], PieceColor::Black) {
                    result.push(62);
                }
                if self.castle_rights.black_queenside && self.square[57].is_none()
                    && self.square[58].is_none() && self.square[59].is_none() && is_rook_of(
                    self.square[56],
                    PieceColor::Black,
                ) {
                    result.push(58);
                }
            }
        }
        assert(result@ =~= king_moves(v, color, idx as int));
        result
    }

    /// Adds the diagonal capture towards column `col + col_step`.
    fn push_pawn_capture(
        &self,
        result: &mut MoveList,
        piece: Piece,
        r: isize,
        c: isize,
        row_step: isize,
        col_step: isize,
    )
        requires
            0 <= r < 8,
            0 <= c < 8,
            row_step == crate::model::pawn_step(piece.piece_color),
            col_step == 1 || col_step == -1,
            old(result).count < 27,
        ensures
            final(result).count <= old(result).count + 1,
            final(result)@ == old(result)@ + pawn_capture(
                self@,
                piece.piece_color,
                r as int,
                c as int,
                col_step as int,
            ),
    {
        let ghost v = self@;
        if (r + row_step) >= 0 && (r + row_step) <= 7 && (c + col_step) >= 0 && (c + col_step)
            <= 7 {  // Bounds check
            let target_idx = (8 * (r + row_step) + (c + col_step)) as usize;
            if let Some(target_piece) = self.square[target_idx] {
                if target_piece.piece_color != piece.piece_color {  // Valid move if there's an opponent's piece
                    result.push(target_idx);
                }
            } else if let Some(en_passant_idx) = self.en_passant_target {
                if target_idx == en_passant_idx {
                    let victim_idx = if piece.piece_color == PieceColor::White {
                        en_passant_idx - 8
                    } else {
                        en_passant_idx + 8
                    };
                    if let Some(target_piece) = self.square[victim_idx] {
                        if target_piece.piece_color != piece.piece_color
                            && target_piece.piece_type == PieceType::Pawn {
                            result.push(target_idx);
                        }
                    }
                }
            }
        }
        assert(result@ =~= old(result)@ + pawn_capture(
            v,
            piece.piece_color,
            r as int,
            c as int,
            col_step as int,
        ));
    }

    fn get_possible_pawn_moves(&self, piece: Piece, idx: usize, checking_for_check: bool) -> (result: MoveList)
        requires
            idx < 64,
        ensures
            result.count <= 27,
            result@ == pawn_moves(self@, piece.piece_color, idx as int, checking_for_check),
    {
        let ghost v = self@;
        let mut result = MoveList::new();
        let (row, col) = Board::index_to_coordinates(idx);
        let r = row as isize;
        let c = col as isize;
        let row_step: isize = if piece.piece_color == PieceColor::White {
            1
        } else {
            -1
        };  // Move up for white and down for black
        // Check Diagonally
        self.push_pawn_capture(&mut result, piece, r, c, row_step, 1);
        self.push_pawn_capture(&mut result, piece, r, c, row_step, -1);
        // If we're just checking for checks, we don't need to check forward moves since pawns can't check kings with forward moves
        if !checking_for_check {
            // Check forward
            let r1 = r + row_step;
            if r1 <= 7 && r1 >= 0 {
                let target_idx = 8 * (r1 as usize) + col;
                // Invalid move if there's a piece in the way
                if self.square[target_idx].is_none() {
                    result.push(target_idx);
                    // The pawn can move 2 steps forward only if it's in its starting position
                    let r2 = r + 2 * row_step;
                    if r2 <= 7 && r2 >= 0 {
                        let target_idx = 8 * (r2 as usize) + col;
                        if self.square[target_idx].is_none() && ((row == 1 && piece.piece_color
                            == PieceColor::White) || (row == 6 && piece.piece_color
                            == PieceColor::Black)) {
                            result.push(target_idx);
                        }
                    }
                }
            }
        }
        assert(result@ =~= pawn_moves(v, piece.piece_color, idx as int, checking_for_check));
        result
    }

    /// Adds to `result` the rays from (row, col) in each of `directions`,
    /// each at most `max_steps` long.
    fn get_directional_moves(
        &self,
        result: &mut MoveList,
        piece: Piece,
        row: usize,
        col: usize,
        directions: &[(isize, isize)],
        max_steps: usize,
    )
        requires
            row < 8,
            col < 8,
            old(result).count <= 27,
            forall|k: int|
                0 <= k < directions@.len() ==> #[trigger] directions@[k].0 <= isize::MAX - 7
                    && directions@[k].1 <= isize::MAX - 7,
            old(result)@.len() + rays(
                self@,
                piece.piece_color,
                row as int,
                col as int,
                directions@,
                at_least_one(max_steps),
            ).len() <= 27,
        ensures
            final(result).count <= 27,
            final(result)@ == old(result)@ + rays(
                self@,
                piece.piece_color,
                row as int,
                col as int,
                directions@,
                at_least_one(max_steps),
            ),
    {
        let ghost v = self@;
        let ghost color = piece.piece_color;
        let ghost n = at_least_one(max_steps);
        let ghost start = result@;
        let r = row as isize;
        let c = col as isize;
        let mut k: usize = 0;
        // Iterate over every direction
        while k < directions.len()
            invariant
                k <= directions@.len(),
                row < 8,
                col < 8,
                r == row,
                c == col,
                n == at_least_one(max_steps),
                v == self@,
                color == piece.piece_color,
                forall|k: int|
                    0 <= k < directions@.len() ==> #[trigger] directions@[k].0 <= isize::MAX - 7
                        && directions@[k].1 <= isize::MAX - 7,
                start.len() + rays(v, color, row as int, col as int, directions@, n).len() <= 27,
                result.count <= 27,
                result@ == start + rays(
                    v,
                    color,
                    row as int,
                    col as int,
                    directions@.take(k as int),
                    n,
                ),
            decreases directions@.len() - k,
        {
            let (row_step, col_step) = directions[k];
            proof {
                lemma_rays_take(v, color, row as int, col as int, directions@, n, k as int);
            }
            let ghost before = result@;
            let ghost whole = ray(
                v,
                color,
                r + row_step,
                c + col_step,
                row_step as int,
                col_step as int,
                n,
            );
            let mut current_r = r + row_step;
            let mut current_c = c + col_step;
            let mut steps: usize = 0;
            // Keep moving until max steps is reached
            while current_r <= 7 && current_r >= 0 && current_c <= 7 && current_c >= 0
                invariant_except_break
                    steps < n,
                    result@ + ray(
                        v,
                        color,
                        current_r as int,
                        current_c as int,
                        row_step as int,
                        col_step as int,
                        (n - steps) as nat,
                    ) == before + whole,
                invariant
                    row_step <= isize::MAX - 7,
                    col_step <= isize::MAX - 7,
                    n == at_least_one(max_steps),
                    v == self@,
                    color == piece.piece_color,
                    result.count <= 27,
                    (before + whole).len() <= 27,
                ensures
                    result.count <= 27,
                    result@ == before + whole,
                decreases n - steps,
            {
                let target_idx = (8 * current_r + current_c) as usize;
                assert(target_idx == 8 * current_r + current_c);
                match self.square[target_idx] {
                    Some(target_piece) => {
                        if target_piece.piece_color != piece.piece_color {
                            result.push(target_idx);  // Valid move if opponent's piece
                        }
                        break;  // Can't go forward
                    },
                    None => {
                        let ghost pushed = result@;
                        result.push(target_idx);
                        steps += 1;
                        if steps >= max_steps {
                            assert(ray(
                                v,
                                color,
                                current_r + row_step,
                                current_c + col_step,
                                row_step as int,
                                col_step as int,
                                0,
                            ) =~= Seq::<usize>::empty());
                            assert(result@ =~= pushed + seq![target_idx]);
                            break;
                        }  // Max steps reached
                        current_r += row_step;
                        current_c += col_step;
                    },
                }
            }
            k += 1;
        }
        assert(directions@.take(directions@.len() as int) =~= directions@);
    }
}

/// Moves the piece on `current_idx` to `target_idx`, with the castling
/// partner, the promotion and the en passant capture the move brings.
fn move_on_squares(
    square: &mut [Option<Piece>; 64],
    en_passant_target: Option<usize>,
    current_idx: usize,
    target_idx: usize,
    piece: Piece,
)
    requires
        current_idx < 64,
        old(square)@[current_idx as int] == Some(piece),
        target_idx < 64,
        target_idx != current_idx,
        piece.piece_type == PieceType::King && (target_idx == current_idx + 2 || current_idx
            == target_idx + 2) ==> {
            &&& piece.piece_color == PieceColor::White ==> current_idx == 4
            &&& piece.piece_color == PieceColor::Black ==> current_idx == 60
        },
        piece.piece_type == PieceType::Pawn ==> 0 <= crate::model::en_passant_victim(
            piece.piece_color,
            target_idx as int,
        ) < 64,
    ensures
        final(square)@ == crate::model::moved_squares(old(square)@, en_passant_target, current_idx, target_idx),
{
    let ghost s0 = square@;
    let ghost goal = crate::model::moved_squares(s0, en_passant_target, current_idx, target_idx);
    square[target_idx] = square[current_idx];
    square[current_idx] = None;
    assert(square@ =~= crate::model::relocated(s0, current_idx as int, target_idx as int));
    if piece.piece_type == PieceType::King {
        if target_idx == current_idx + 2 {
            // Kingside
            let rook = square[current_idx + 3];
            square[current_idx + 3] = None;
            square[current_idx + 1] = rook;
        } else if current_idx == target_idx + 2 {
            // Queenside
            let rook = square[current_idx - 4];
            square[current_idx - 4] = None;
            square[current_idx - 1] = rook;
        }
        assert(square@ =~= goal);
    } else if piece.piece_type == PieceType::Pawn {
        if target_idx < 8 || target_idx > 55 {  // Pawn Promotion
            square[target_idx] = Some(Piece::new(PieceType::Queen, piece.piece_color));  // Auto promote to queen for MVP
        }
        if let Some(en_passant_idx) = en_passant_target {
            if target_idx == en_passant_idx {
                if piece.piece_color == PieceColor::White {
                    square[en_passant_idx - 8] = None;  // Capture the black pawn
                } else {
                    square[en_passant_idx + 8] = None;  // Capture the white pawn
                }
            }
        }
        assert(square@ =~= goal);
    } else {
        assert(square@ =~= goal);
    }
}

/// Whether `t` is among `kinds`.
/// Whether `sq` holds a rook of `color`.
fn is_rook_of(sq: Option<Piece>, color: PieceColor) -> (b: bool)
    ensures
        b == (sq == Some(Piece { piece_type: PieceType::Rook, piece_color: color })),
{
    match sq {
        Some(p) => p.piece_type == PieceType::Rook && p.piece_color == color,
        None => false,
    }
}

fn kind_in(kinds: &[PieceType], t: PieceType) -> (b: bool)
    ensures
        b == kinds@.contains(t),
{
    let mut k: usize = 0;
    while k < kinds.len()
        invariant
            k <= kinds@.len(),
            forall|j: int| 0 <= j < k ==> kinds@[j] != t,
        decreases kinds@.len() - k,
    {
        if kinds[k] == t {
            assert(kinds@[k as int] == t);
            return true;
        }
        k += 1;
    }
    false
}

/// Attackers beyond the first two do not change which two are recorded.
proof fn lemma_first_two_extend(a: Seq<usize>, b: Seq<usize>)
    requires
        a.len() >= 2,
    ensures
        first_two(a + b) == first_two(a),
{
    assert((a + b)[0] == a[0]);
    assert((a + b)[1] == a[1]);
}

pub proof fn lemma_rays_take(
    v: BoardView,
    color: PieceColor,
    r: int,
    c: int,
    dirs: Seq<(isize, isize)>,
    n: nat,
    k: int,
)
    requires
        0 <= k < dirs.len(),
    ensures
        rays(v, color, r, c, dirs.take(k + 1), n) == rays(v, color, r, c, dirs.take(k), n) + ray(
            v,
            color,
            r + dirs[k].0,
            c + dirs[k].1,
            dirs[k].0 as int,
            dirs[k].1 as int,
            n,
        ),
        rays(v, color, r, c, dirs.take(k + 1), n).len() <= rays(v, color, r, c, dirs, n).len(),
{
    assert(dirs.take(k + 1).drop_last() =~= dirs.take(k));
    lemma_rays_prefix_len(v, color, r, c, dirs, n, k + 1);
}

proof fn lemma_rays_prefix_len(
    v: BoardView,
    color: PieceColor,
    r: int,
    c: int,
    dirs: Seq<(isize, isize)>,
    n: nat,
    k: int,
)
    requires
        0 <= k <= dirs.len(),
    ensures
        rays(v, color, r, c, dirs.take(k), n).len() <= rays(v, color, r, c, dirs, n).len(),
    decreases dirs.len() - k,
{
    if k < dirs.len() {
        lemma_rays_prefix_len(v, color, r, c, dirs, n, k + 1);
        assert(dirs.take(k + 1).drop_last() =~= dirs.take(k));
    } else {
        assert(dirs.take(k) =~= dirs);
    }
}

} // verus!
