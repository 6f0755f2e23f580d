//! The first engine of the game: pieces move by their patterns, turns
//! alternate, and nothing more is checked (no check, castling or en passant).
use vstd::prelude::*;

use crate::board::{MoveList, Piece, PieceColor, PieceType};
use crate::model::{
    at_least_one,
    bishop_dirs, bishop_moves, castle_moves, initial_square, king_moves, knight_dirs,
    knight_moves, lemma_bishop_moves_len, lemma_king_moves_len, lemma_knight_moves_len,
    lemma_queen_moves_len, lemma_rook_moves_len, opponent, pawn_advance, pawn_capture,
    queen_dirs, queen_moves, ray, rays, relocated, rook_dirs, rook_moves, BoardView,
};

verus! {

/// A position: the pieces and the side to move.
#[derive(Debug)]
pub struct Board {
    square: [Option<Piece>; 64],
    current_turn: PieceColor,
}

/// The position with `squares` and `turn`, no castling right and no en
/// passant square.
pub open spec fn plain_position(squares: Seq<Option<Piece>>, turn: PieceColor) -> BoardView {
    BoardView {
        squares,
        current_turn: turn,
        checked: false,
        checkers: seq![None, None],
        black_king_pos: 60,
        white_king_pos: 4,
        game_over: false,
        winner: None,
        castle_rights: crate::board::CastleRights {
            white_kingside: false,
            white_queenside: false,
            black_kingside: false,
            black_queenside: false,
        },
        en_passant_target: None,
    }
}

impl View for Board {
    type V = BoardView;

    closed spec fn view(&self) -> BoardView {
        plain_position(self.square@, self.current_turn)
    }
}

/// Every position of this engine has one entry per square, and only the
/// squares and the side to move vary from one to another.
pub proof fn lemma_position_shape(b: &Board)
    ensures
        b@.squares.len() == 64,
        b@ == plain_position(b@.squares, b@.current_turn),
{
}

/// The moves of a pawn: forward first, then the diagonal captures.
pub open spec fn plain_pawn_moves(v: BoardView, color: PieceColor, idx: int) -> Seq<usize> {
    let r = idx / 8;
    let c = idx % 8;
    pawn_advance(v, color, r, c) + pawn_capture(v, color, r, c, 1) + pawn_capture(v, color, r, c, -1)
}

/// The moves of the piece on `idx` by its pattern.
pub open spec fn plain_piece_moves(v: BoardView, idx: int) -> Seq<usize> {
    match v.squares[idx] {
        None => Seq::empty(),
        Some(p) => match p.piece_type {
            PieceType::Pawn => plain_pawn_moves(v, p.piece_color, idx),
            PieceType::Knight => knight_moves(v, p.piece_color, idx),
            PieceType::Rook => rook_moves(v, p.piece_color, idx),
            PieceType::Bishop => bishop_moves(v, p.piece_color, idx),
            PieceType::Queen => queen_moves(v, p.piece_color, idx),
            PieceType::King => rays(v, p.piece_color, idx / 8, idx % 8, queen_dirs(), 1),
        },
    }
}

/// Why a request for the moves of the piece on `idx` is refused, if it is.
pub open spec fn moves_refusal(v: BoardView, idx: int) -> Option<Seq<char>> {
    if v.squares[idx] is None {
        Some("No piece at the given index"@)
    } else if v.squares[idx].unwrap().piece_color != v.current_turn {
        Some("It's not the current player's turn"@)
    } else {
        None
    }
}

impl Board {
    pub fn new() -> (b: Self)
        ensures
            b@.squares.len() == 64,
            forall|i: int| 0 <= i < 64 ==> b@.squares[i] == initial_square(i),
            b@.current_turn == PieceColor::White,
    {
        let mut square: [Option<Piece>; 64] = [None;64];
        for i in 0..64
            invariant
                forall|j: int| 0 <= j < i ==> square@[j] == initial_square(j),
                forall|j: int| i <= j < 64 ==> square@[j] is None,
        {
            let (row, col) = Board::index_to_coordinates(i);
            if row < 2 || row > 5 {
                let piece_color = if row < 2 {
                    PieceColor::White
                } else {
                    PieceColor::Black
                };
                let piece_type = if row == 1 || row == 6 {
                    PieceType::Pawn
                } else {
                    match col {
                        0 | 7 => PieceType::Rook,
                        1 | 6 => PieceType::Knight,
                        2 | 5 => PieceType::Bishop,
                        3 => PieceType::Queen,
                        _ => PieceType::King,
                    }
                };
                square[i] = Some(Piece::new(piece_type, piece_color));
            }
        }
        Board { square, current_turn: PieceColor::White }
    }

    fn index_to_coordinates(index: usize) -> (rc: (usize, usize))
        ensures
            rc.0 == index / 8,
            rc.1 == index % 8,
    {
        let row = index / 8;
        let col = index % 8;
        (row, col)
    }

    /// The position as a text diagram, black's back row on the first line.
    pub fn to_string(&self) -> (text: String)
        ensures
            text@ == crate::diagram::rows_text(self@.squares, true, 8),
    {
        crate::diagram::squares_text(&self.square, true)
    }

    /// Moves the piece on `current_idx` to `target_idx` when it belongs to
    /// the side to move and the move follows its pattern; the turn passes.
    pub fn move_piece(&mut self, current_idx: usize, target_idx: usize) -> (r: Result<(), &'static str>)
        requires
            current_idx < 64,
        ensures
            r is Ok <==> moves_refusal(old(self)@, current_idx as int) is None && plain_piece_moves(
                old(self)@,
                current_idx as int,
            ).contains(target_idx),
            r is Ok ==> final(self)@ == plain_position(
                relocated(old(self)@.squares, current_idx as int, target_idx as int),
                opponent(old(self)@.current_turn),
            ),
            r matches Err(e) ==> final(self)@ == old(self)@ && (if moves_refusal(
                old(self)@,
                current_idx as int,
            ) is Some {
                moves_refusal(old(self)@, current_idx as int) == Some(e@)
            } else {
                e@ == "Invalid move!"@
            }),
    {
        let ghost v = self@;
        let possible_moves = match self.get_possible_moves(current_idx) {
            Ok(list) => list,
            Err(e) => {
                return Err(e);
            },
        };
        if !possible_moves.contains(target_idx) {
            return Err("Invalid move!");
        }
        proof {
            crate::model::lemma_moves_enterable(v, v.squares[current_idx as int].unwrap().piece_color, current_idx as int);
            let j = choose|j: int| 0 <= j < possible_moves@.len() && possible_moves@[j] == target_idx;
            lemma_plain_moves_enterable(v, current_idx as int);
            assert(target_idx < 64);
        }
        let moving = self.square[current_idx];
        self.square[current_idx] = None;
        self.square[target_idx] = moving;
        self.current_turn = match self.current_turn {
            PieceColor::White => PieceColor::Black,
            PieceColor::Black => PieceColor::White,
        };
        assert(self.square@ =~= relocated(v.squares, current_idx as int, target_idx as int));
        Ok(())
    }

    /// The moves of the piece on `idx`, which must belong to the side to move.
    pub fn get_possible_moves(&self, idx: usize) -> (r: Result<MoveList, &'static str>)
        requires
            idx < 64,
        ensures
            match r {
                Ok(list) => {
                    &&& moves_refusal(self@, idx as int) is None
                    &&& list.count <= 27
                    &&& list@ == plain_piece_moves(self@, idx as int)
                },
                Err(e) => moves_refusal(self@, idx as int) == Some(e@),
            },
    {
        let piece = match self.square[idx] {
            Some(piece) => piece,
            None => {
                return Err("No piece at the given index");
            },
        };
        if piece.piece_color != self.current_turn {
            return Err("It's not the current player's turn");
        }
        match piece.piece_type {
            PieceType::Pawn => Ok(self.get_possible_pawn_moves(piece, idx)),
            PieceType::Knight => Ok(self.get_possible_knight_moves(piece, idx)),
            PieceType::Rook => Ok(self.get_possible_rook_moves(piece, idx)),
            PieceType::Bishop => Ok(self.get_possible_bishop_moves(piece, idx)),
            PieceType::Queen => Ok(self.get_possible_queen_moves(piece, idx)),
            PieceType::King => Ok(self.get_possible_king_moves(piece, idx)),
        }
    }

    fn get_possible_pawn_moves(&self, piece: Piece, idx: usize) -> (result: MoveList)
        requires
            idx < 64,
        ensures
            result.count <= 27,
            result@ == plain_pawn_moves(self@, piece.piece_color, idx as int),
    {
        let ghost v = self@;
        let mut result = MoveList::new();
        let (row, col) = Board::index_to_coordinates(idx);
        let r = row as isize;
        let c = col as isize;
        let row_step: isize = if piece.piece_color == PieceColor::White {
            1
        } else {
            -1
        };
        // Check forward
        let r1 = r + row_step;
        if r1 <= 7 && r1 >= 0 {
            let target_idx = 8 * (r1 as usize) + col;
            if self.square[target_idx].is_none() {
                result.push(target_idx);
                let r2 = r + 2 * row_step;
                if r2 <= 7 && r2 >= 0 {
                    let target_idx = 8 * (r2 as usize) + col;
                    if self.square[target_idx].is_none() && ((row == 1 && piece.piece_color
                        == PieceColor::White) || (row == 6 && piece.piece_color
                        == PieceColor::Black)) {
                        result.push(target_idx);
                    }
                }
            }
        }
        assert(result@ =~= pawn_advance(v, piece.piece_color, r as int, c as int));
        // Check Diagonally
        self.push_plain_capture(&mut result, piece, r, c, row_step, 1);
        self.push_plain_capture(&mut result, piece, r, c, row_step, -1);
        assert(result@ =~= plain_pawn_moves(v, piece.piece_color, idx as int));
        result
    }

    /// Adds the diagonal capture towards column `c + col_step`.
    fn push_plain_capture(
        &self,
        result: &mut MoveList,
        piece: Piece,
        r: isize,
        c: isize,
        row_step: isize,
        col_step: isize,
    )
        requires
            0 <= r < 8,
            0 <= c < 8,
            row_step == crate::model::pawn_step(piece.piece_color),
            col_step == 1 || col_step == -1,
            old(result).count < 27,
        ensures
            final(result).count <= old(result).count + 1,
            final(result)@ == old(result)@ + pawn_capture(
                self@,
                piece.piece_color,
                r as int,
                c as int,
                col_step as int,
            ),
    {
        let ghost v = self@;
        if (r + row_step) >= 0 && (r + row_step) <= 7 && (c + col_step) >= 0 && (c + col_step)
            <= 7 {
            let target_idx = (8 * (r + row_step) + (c + col_step)) as usize;
            if let Some(target_piece) = self.square[target_idx] {
                if target_piece.piece_color != piece.piece_color {
                    result.push(target_idx);
                }
            }
        }
        assert(result@ =~= old(result)@ + pawn_capture(
            v,
            piece.piece_color,
            r as int,
            c as int,
            col_step as int,
        ));
    }

    fn get_possible_knight_moves(&self, piece: Piece, idx: usize) -> (result: MoveList)
        requires
            idx < 64,
        ensures
            result.count <= 27,
            result@ == knight_moves(self@, piece.piece_color, idx as int),
    {
        let mut result = MoveList::new();
        let (row, col) = Board::index_to_coordinates(idx);
        // All possible knight directional moves
        let directions: [(isize, isize); 8] = [
            (1, 2),
            (1, -2),
            (-1, 2),
            (-1, -2),
            (2, 1),
            (2, -1),
            (-2, 1),
            (-2, -1),
        ];
        assert(directions@ =~= knight_dirs());
        proof {
            lemma_knight_moves_len(self@, piece.piece_color, idx as int);
        }
        // Checks only for 1 step in each direction since knights can only move 1 step in their unique L-shaped pattern
        self.get_directional_moves(&mut result, piece, row, col, &directions, 1);
        assert(result@ =~= knight_moves(self@, piece.piece_color, idx as int));
        result
    }

    fn get_possible_rook_moves(&self, piece: Piece, idx: usize) -> (result: MoveList)
        requires
            idx < 64,
        ensures
            result.count <= 27,
            result@ == rook_moves(self@, piece.piece_color, idx as int),
    {
        let mut result = MoveList::new();
        let (row, col) = Board::index_to_coordinates(idx);
        let directions: [(isize, isize); 4] = [(1, 0), (-1, 0), (0, 1), (0, -1)];  // Straight directions
        assert(directions@ =~= rook_dirs());
        proof {
            lemma_rook_moves_len(self@, piece.piece_color, idx as int);
        }
        // Checks for up to 7 steps in each direction since the rook can move across the entire board
        self.get_directional_moves(&mut result, piece, row, col, &directions, 7);
        assert(result@ =~= rook_moves(self@, piece.piece_color, idx as int));
        result
    }

    fn get_possible_bishop_moves(&self, piece: Piece, idx: usize) -> (result: MoveList)
        requires
            idx < 64,
        ensures
            result.count <= 27,
            result@ == bishop_moves(self@, piece.piece_color, idx as int),
    {
        let mut result = MoveList::new();
        let (row, col) = Board::index_to_coordinates(idx);
        // Same as rook but diagonal directions
        let directions: [(isize, isize); 4] = [(1, 1), (-1, 1), (1, -1), (-1, -1)];
        assert(directions@ =~= bishop_dirs());
        proof {
            lemma_bishop_moves_len(self@, piece.piece_color, idx as int);
        }
        self.get_directional_moves(&mut result, piece, row, col, &directions, 7);
        assert(result@ =~= bishop_moves(self@, piece.piece_color, idx as int));
        result
    }

    fn get_possible_queen_moves(&self, piece: Piece, idx: usize) -> (result: MoveList)
        requires
            idx < 64,
        ensures
            result.count <= 27,
            result@ == queen_moves(self@, piece.piece_color, idx as int),
    {
        let mut result = MoveList::new();
        let (row, col) = Board::index_to_coordinates(idx);
        // Rook and Bishop Combined
        let directions: [(isize, isize); 8] = [
            (1, 1),
            (-1, 1),
            (1, -1),
            (-1, -1),
            (1, 0),
            (-1, 0),
            (0, 1),
            (0, -1),
        ];
        assert(directions@ =~= queen_dirs());
        proof {
            lemma_queen_moves_len(self@, piece.piece_color, idx as int);
        }
        self.get_directional_moves(&mut result, piece, row, col, &directions, 7);
        assert(result@ =~= queen_moves(self@, piece.piece_color, idx as int));
        result
    }

    fn get_possible_king_moves(&self, piece: Piece, idx: usize) -> (result: MoveList)
        requires
            idx < 64,
        ensures
            result.count <= 27,
            result@ == king_moves(self@, piece.piece_color, idx as int),
            result@ == rays(self@, piece.piece_color, idx as int / 8, idx as int % 8, queen_dirs(), 1),
    {
        let mut result = MoveList::new();
        let (row, col) = Board::index_to_coordinates(idx);
        // Directions same as queen
        let directions: [(isize, isize); 8] = [
            (1, 1),
            (-1, 1),
            (1, -1),
            (-1, -1),
            (1, 0),
            (-1, 0),
            (0, 1),
            (0, -1),
        ];
        assert(directions@ =~= queen_dirs());
        proof {
            lemma_king_moves_len(self@, piece.piece_color, idx as int);
        }
        // But moves only 1 step
        self.get_directional_moves(&mut result, piece, row, col, &directions, 1);
        assert(castle_moves(self@, piece.piece_color) =~= Seq::<usize>::empty());
        assert(result@ =~= king_moves(self@, piece.piece_color, idx as int));
        result
    }

    /// Adds to `result` the rays from (row, col) in each of `directions`,
    /// each at most `max_steps` long.
    fn get_directional_moves(
        &self,
        result: &mut MoveList,
        piece: Piece,
        row: usize,
        col: usize,
        directions: &[(isize, isize)],
        max_steps: usize,
    )
        requires
            row < 8,
            col < 8,
            old(result).count <= 27,
            forall|k: int|
                0 <= k < directions@.len() ==> #[trigger] directions@[k].0 <= isize::MAX - 7
                    && directions@[k].1 <= isize::MAX - 7,
            old(result)@.len() + rays(
                self@,
                piece.piece_color,
                row as int,
                col as int,
                directions@,
                at_least_one(max_steps),
            ).len() <= 27,
        ensures
            final(result).count <= 27,
            final(result)@ == old(result)@ + rays(
                self@,
                piece.piece_color,
                row as int,
                col as int,
                directions@,
                at_least_one(max_steps),
            ),
    {
        let ghost v = self@;
        let ghost color = piece.piece_color;
        let ghost n = at_least_one(max_steps);
        let ghost start = result@;
        let r = row as isize;
        let c = col as isize;
        let mut k: usize = 0;
        // Iterate over every direction
        while k < directions.len()
            invariant
                k <= directions@.len(),
                row < 8,
                col < 8,
                r == row,
                c == col,
                n == at_least_one(max_steps),
                v == self@,
                color == piece.piece_color,
                forall|k: int|
                    0 <= k < directions@.len() ==> #[trigger] directions@[k].0 <= isize::MAX - 7
                        && directions@[k].1 <= isize::MAX - 7,
                start.len() + rays(v, color, row as int, col as int, directions@, n).len() <= 27,
                result.count <= 27,
                result@ == start + rays(
                    v,
                    color,
                    row as int,
                    col as int,
                    directions@.take(k as int),
                    n,
                ),
            decreases directions@.len() - k,
        {
            let (row_step, col_step) = directions[k];
            proof {
                crate::board::lemma_rays_take(v, color, row as int, col as int, directions@, n, k as int);
            }
            let ghost before = result@;
            let ghost whole = ray(
                v,
                color,
                r + row_step,
                c + col_step,
                row_step as int,
                col_step as int,
                n,
            );
            let mut current_r = r + row_step;
            let mut current_c = c + col_step;
            let mut steps: usize = 0;
            // Keep moving until max steps is reached
            while current_r <= 7 && current_r >= 0 && current_c <= 7 && current_c >= 0
                invariant_except_break
                    steps < n,
                    result@ + ray(
                        v,
                        color,
                        current_r as int,
                        current_c as int,
                        row_step as int,
                        col_step as int,
                        (n - steps) as nat,
                    ) == before + whole,
                invariant
                    row_step <= isize::MAX - 7,
                    col_step <= isize::MAX - 7,
                    n == at_least_one(max_steps),
                    v == self@,
                    color == piece.piece_color,
                    result.count <= 27,
                    (before + whole).len() <= 27,
                ensures
                    result.count <= 27,
                    result@ == before + whole,
                decreases n - steps,
            {
                let target_idx = (8 * current_r + current_c) as usize;
                assert(target_idx == 8 * current_r + current_c);
                match self.square[target_idx] {
                    Some(target_piece) => {
                        if target_piece.piece_color != piece.piece_color {
                            result.push(target_idx);  // Valid move if opponent's piece
                        }
                        break;  // Can't go forward
                    },
                    None => {
                        let ghost pushed = result@;
                        result.push(target_idx);
                        steps += 1;
                        if steps >= max_steps {
                            assert(ray(
                                v,
                                color,
                                current_r + row_step,
                                current_c + col_step,
                                row_step as int,
                                col_step as int,
                                0,
                            ) =~= Seq::<usize>::empty());
                            assert(result@ =~= pushed + seq![target_idx]);
                            break;
                        }  // Max steps reached
                        current_r += row_step;
                        current_c += col_step;
                    },
                }
            }
            k += 1;
        }
        assert(directions@.take(directions@.len() as int) =~= directions@);
    }
}

proof fn lemma_plain_moves_enterable(v: BoardView, idx: int)
    requires
        0 <= idx < 64,
        v.squares.len() == 64,
        v.squares[idx] is Some,
    ensures
        crate::model::enterable(v, v.squares[idx].unwrap().piece_color, plain_piece_moves(v, idx)),
{
    let color = v.squares[idx].unwrap().piece_color;
    crate::model::lemma_moves_enterable(v, color, idx);
    crate::model::lemma_rays_enterable(v, color, idx / 8, idx % 8, queen_dirs(), 1);
    let r = idx / 8;
    let c = idx % 8;
    let pa = pawn_advance(v, color, r, c);
    let p1 = pawn_capture(v, color, r, c, 1);
    let p2 = pawn_capture(v, color, r, c, -1);
    assert(crate::model::enterable(v, color, pa));
    assert(crate::model::enterable(v, color, p1));
    assert(crate::model::enterable(v, color, p2));
    crate::model::lemma_concat_enterable(v, color, pa, p1);
    crate::model::lemma_concat_enterable(v, color, pa + p1, p2);
}

} // verus!
