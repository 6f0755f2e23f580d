//! A text diagram of a position: one line per row, each square shown by the
//! letter of its piece (capital for white) or `o` when empty, followed by a
//! space.
use vstd::prelude::*;

use crate::board::{Piece, PieceColor, PieceType};
use crate::model::piece_letter;
use crate::text::push_char;

verus! {

/// How one square is shown.
pub open spec fn square_text(sq: Option<Piece>) -> Seq<char> {
    match sq {
        Some(p) => seq![piece_letter(p), ' '],
        None => seq!['o', ' '],
    }
}

/// The first `n` squares of row `row`, shown left to right.
pub open spec fn cells_text(s: Seq<Option<Piece>>, row: int, n: nat) -> Seq<char>
    decreases n,
{
    if n == 0 {
        Seq::empty()
    } else {
        cells_text(s, row, (n - 1) as nat) + square_text(s[8 * row + n - 1])
    }
}

/// Row `row` shown as a line.
pub open spec fn row_text(s: Seq<Option<Piece>>, row: int) -> Seq<char> {
    cells_text(s, row, 8).push('\n')
}

/// The first `k` lines of the diagram: rows 0, 1, ... when `top_first` is
/// false, rows 7, 6, ... when it is true.
pub open spec fn rows_text(s: Seq<Option<Piece>>, top_first: bool, k: nat) -> Seq<char>
    decreases k,
{
    if k == 0 {
        Seq::empty()
    } else {
        rows_text(s, top_first, (k - 1) as nat) + row_text(
            s,
            if top_first {
                8 - k
            } else {
                k - 1
            },
        )
    }
}

/// The letter of a piece: capital for white, small for black.
pub(crate) fn letter_of(p: Piece) -> (ch: char)
    ensures
        ch == piece_letter(p),
{
    let lower = match p.piece_type {
        PieceType::Pawn => 'p',
        PieceType::Knight => 'n',
        PieceType::Bishop => 'b',
        PieceType::Rook => 'r',
        PieceType::Queen => 'q',
        PieceType::King => 'k',
    };
    match p.piece_color {
        PieceColor::White => match p.piece_type {
            PieceType::Pawn => 'P',
            PieceType::Knight => 'N',
            PieceType::Bishop => 'B',
            PieceType::Rook => 'R',
            PieceType::Queen => 'Q',
            PieceType::King => 'K',
        },
        PieceColor::Black => lower,
    }
}

/// The diagram of the squares `square`.
pub(crate) fn squares_text(square: &[Option<Piece>; 64], top_first: bool) -> (text: String)
    ensures
        text@ == rows_text(square@, top_first, 8),
{
    let mut text = String::new();
    let mut k: usize = 0;
    while k < 8
        invariant
            k <= 8,
            text@ == rows_text(square@, top_first, k as nat),
        decreases 8 - k,
    {
        let row: usize = if top_first {
            7 - k
        } else {
            k
        };
        let ghost before = text@;
        let mut j: usize = 0;
        while j < 8
            invariant
                j <= 8,
                row < 8,
                text@ == before + cells_text(square@, row as int, j as nat),
            decreases 8 - j,
        {
            match square[8 * row + j] {
                Some(p) => push_char(&mut text, letter_of(p)),
                None => push_char(&mut text, 'o'),
            }
            push_char(&mut text, ' ');
            proof {
                assert(text@ =~= before + cells_text(square@, row as int, (j + 1) as nat));
            }
            j += 1;
        }
        push_char(&mut text, '\n');
        proof {
            assert(text@ =~= rows_text(square@, top_first, (k + 1) as nat));
        }
        k += 1;
    }
    text
}

} // verus!
