//! The mathematical model of a chess position and of the move rules the
//! engine in `board` implements: sliding rays, the moves of each piece,
//! attacks on a king, the look-ahead that filters out moves leaving the own
//! king attacked, and the full effect of playing a move.
use vstd::prelude::*;

use crate::board::{CastleRights, Piece, PieceColor, PieceType};

verus! {

/// A board position as a mathematical value.
pub struct BoardView {
    pub squares: Seq<Option<Piece>>,
    pub current_turn: PieceColor,
    pub checked: bool,
    pub checkers: Seq<Option<usize>>,
    pub black_king_pos: usize,
    pub white_king_pos: usize,
    pub game_over: bool,
    pub winner: Option<PieceColor>,
    pub castle_rights: CastleRights,
    pub en_passant_target: Option<usize>,
}

/// The other side.
pub open spec fn opponent(c: PieceColor) -> PieceColor {
    match c {
        PieceColor::White => PieceColor::Black,
        PieceColor::Black => PieceColor::White,
    }
}

pub open spec fn in_bounds(r: int, c: int) -> bool {
    0 <= r <= 7 && 0 <= c <= 7
}

/// The squares reached from (r, c) stepping by (dr, dc), at most `n` of them:
/// empty squares are passed, the first occupied square ends the ray and is
/// included only when it holds a piece of the other colour.
pub open spec fn ray(
    v: BoardView,
    color: PieceColor,
    r: int,
    c: int,
    dr: int,
    dc: int,
    n: nat,
) -> Seq<usize>
    decreases n,
{
    if n == 0 || !in_bounds(r, c) {
        Seq::empty()
    } else {
        match v.squares[8 * r + c] {
            Some(p) => if p.piece_color != color {
                seq![(8 * r + c) as usize]
            } else {
                Seq::empty()
            },
            None => seq![(8 * r + c) as usize] + ray(v, color, r + dr, c + dc, dr, dc, (n - 1) as nat),
        }
    }
}

/// The squares a search of at most `m` steps may look at: it always looks at
/// the first square.
pub open spec fn at_least_one(m: usize) -> nat {
    if m == 0 {
        1
    } else {
        m as nat
    }
}

/// The rays from (r, c) in each of `dirs`, in order.
pub open spec fn rays(
    v: BoardView,
    color: PieceColor,
    r: int,
    c: int,
    dirs: Seq<(isize, isize)>,
    n: nat,
) -> Seq<usize>
    decreases dirs.len(),
{
    if dirs.len() == 0 {
        Seq::empty()
    } else {
        let d = dirs.last();
        rays(v, color, r, c, dirs.drop_last(), n) + ray(
            v,
            color,
            r + d.0,
            c + d.1,
            d.0 as int,
            d.1 as int,
            n,
        )
    }
}

pub open spec fn knight_dirs() -> Seq<(isize, isize)> {
    seq![(1isize, 2isize), (1isize, -2isize), (-1isize, 2isize), (-1isize, -2isize), (2isize, 1isize), (2isize, -1isize), (-2isize, 1isize), (-2isize, -1isize)]
}

pub open spec fn rook_dirs() -> Seq<(isize, isize)> {
    seq![(1isize, 0isize), (-1isize, 0isize), (0isize, 1isize), (0isize, -1isize)]
}

pub open spec fn bishop_dirs() -> Seq<(isize, isize)> {
    seq![(1isize, 1isize), (-1isize, 1isize), (1isize, -1isize), (-1isize, -1isize)]
}

/// The directions of the queen, which the king shares.
pub open spec fn queen_dirs() -> Seq<(isize, isize)> {
    seq![(1isize, 1isize), (-1isize, 1isize), (1isize, -1isize), (-1isize, -1isize), (1isize, 0isize), (-1isize, 0isize), (0isize, 1isize), (0isize, -1isize)]
}

pub open spec fn knight_moves(v: BoardView, color: PieceColor, idx: int) -> Seq<usize> {
    rays(v, color, idx / 8, idx % 8, knight_dirs(), 1)
}

pub open spec fn rook_moves(v: BoardView, color: PieceColor, idx: int) -> Seq<usize> {
    rays(v, color, idx / 8, idx % 8, rook_dirs(), 7)
}

pub open spec fn bishop_moves(v: BoardView, color: PieceColor, idx: int) -> Seq<usize> {
    rays(v, color, idx / 8, idx % 8, bishop_dirs(), 7)
}

pub open spec fn queen_moves(v: BoardView, color: PieceColor, idx: int) -> Seq<usize> {
    rays(v, color, idx / 8, idx % 8, queen_dirs(), 7)
}

pub open spec fn is_empty_at(v: BoardView, i: int) -> bool {
    v.squares[i] is None
}

/// Whether square `i` holds a rook of `color`.
pub open spec fn own_rook_at(v: BoardView, i: int, color: PieceColor) -> bool {
    v.squares[i] == Some(Piece { piece_type: PieceType::Rook, piece_color: color })
}

/// Castling destinations of the king of `color`: offered when the side is
/// not in check, still holds the right, its rook stands on the corner, and
/// the squares between king and rook are empty.
pub open spec fn castle_moves(v: BoardView, color: PieceColor) -> Seq<usize> {
    if v.checked {
        Seq::empty()
    } else if color == PieceColor::White {
        (if v.castle_rights.white_kingside && is_empty_at(v, 5) && is_empty_at(v, 6) && own_rook_at(v, 7, PieceColor::White) {
            seq![6usize]
        } else {
            Seq::empty()
        }) + (if v.castle_rights.white_queenside && is_empty_at(v, 1) && is_empty_at(v, 2)
            && is_empty_at(v, 3) && own_rook_at(v, 0, PieceColor::White) {
            seq![2usize]
        } else {
            Seq::empty()
        })
    } else {
        (if v.castle_rights.black_kingside && is_empty_at(v, 61) && is_empty_at(v, 62) && own_rook_at(v, 63, PieceColor::Black) {
            seq![62usize]
        } else {
            Seq::empty()
        }) + (if v.castle_rights.black_queenside && is_empty_at(v, 57) && is_empty_at(v, 58)
            && is_empty_at(v, 59) && own_rook_at(v, 56, PieceColor::Black) {
            seq![58usize]
        } else {
            Seq::empty()
        })
    }
}

pub open spec fn king_moves(v: BoardView, color: PieceColor, idx: int) -> Seq<usize> {
    rays(v, color, idx / 8, idx % 8, queen_dirs(), 1) + castle_moves(v, color)
}

/// The row a pawn of `color` advances by.
pub open spec fn pawn_step(color: PieceColor) -> int {
    if color == PieceColor::White {
        1
    } else {
        -1
    }
}

/// The square of the pawn taken en passant when a pawn of `color` lands on `e`.
pub open spec fn en_passant_victim(color: PieceColor, e: int) -> int {
    if color == PieceColor::White {
        e - 8
    } else {
        e + 8
    }
}

/// Whether an opposing pawn stands where a pawn of `color` landing on `e`
/// would take it en passant.
pub open spec fn victim_present(v: BoardView, color: PieceColor, e: int) -> bool {
    match v.squares[en_passant_victim(color, e)] {
        Some(p) => p.piece_color != color && p.piece_type == PieceType::Pawn,
        None => false,
    }
}

/// The diagonal capture of a pawn of `color` on (r, c) towards column c + dc,
/// en passant included.
pub open spec fn pawn_capture(v: BoardView, color: PieceColor, r: int, c: int, dc: int) -> Seq<
    usize,
> {
    let rr = r + pawn_step(color);
    let cc = c + dc;
    if !in_bounds(rr, cc) {
        Seq::empty()
    } else {
        match v.squares[8 * rr + cc] {
            Some(p) => if p.piece_color != color {
                seq![(8 * rr + cc) as usize]
            } else {
                Seq::empty()
            },
            None => match v.en_passant_target {
                Some(e) => if 8 * rr + cc == e && victim_present(v, color, e as int) {
                    seq![(8 * rr + cc) as usize]
                } else {
                    Seq::empty()
                },
                None => Seq::empty(),
            },
        }
    }
}

/// Whether a pawn of `color` on row `r` stands on its starting row.
pub open spec fn on_start_row(color: PieceColor, r: int) -> bool {
    (r == 1 && color == PieceColor::White) || (r == 6 && color == PieceColor::Black)
}

/// The forward moves of a pawn of `color` on (r, c): one step onto an empty
/// square, and from the starting row a second step onto an empty square.
pub open spec fn pawn_advance(v: BoardView, color: PieceColor, r: int, c: int) -> Seq<usize> {
    let r1 = r + pawn_step(color);
    let r2 = r + 2 * pawn_step(color);
    if r1 > 7 || r1 < 0 || !is_empty_at(v, 8 * r1 + c) {
        Seq::empty()
    } else if r2 > 7 || r2 < 0 || !is_empty_at(v, 8 * r2 + c) || !on_start_row(color, r) {
        seq![(8 * r1 + c) as usize]
    } else {
        seq![(8 * r1 + c) as usize, (8 * r2 + c) as usize]
    }
}

/// The moves of a pawn of `color` on `idx`; when `captures_only`, only the
/// diagonal captures, which are the squares a pawn attacks.
pub open spec fn pawn_moves(v: BoardView, color: PieceColor, idx: int, captures_only: bool) -> Seq<
    usize,
> {
    let r = idx / 8;
    let c = idx % 8;
    pawn_capture(v, color, r, c, 1) + pawn_capture(v, color, r, c, -1) + (if captures_only {
        Seq::empty()
    } else {
        pawn_advance(v, color, r, c)
    })
}

/// The moves of the piece on `idx` by its own pattern, before the test of
/// whether they leave the own king attacked.
pub open spec fn piece_moves(v: BoardView, idx: int) -> Seq<usize> {
    match v.squares[idx] {
        None => Seq::empty(),
        Some(p) => match p.piece_type {
            PieceType::Pawn => pawn_moves(v, p.piece_color, idx, false),
            PieceType::Knight => knight_moves(v, p.piece_color, idx),
            PieceType::Rook => rook_moves(v, p.piece_color, idx),
            PieceType::Bishop => bishop_moves(v, p.piece_color, idx),
            PieceType::Queen => queen_moves(v, p.piece_color, idx),
            PieceType::King => king_moves(v, p.piece_color, idx),
        },
    }
}

/// The initial content of square `i`.
pub open spec fn initial_square(i: int) -> Option<Piece> {
    let row = i / 8;
    let col = i % 8;
    if 2 <= row <= 5 {
        None
    } else {
        let color = if row < 2 {
            PieceColor::White
        } else {
            PieceColor::Black
        };
        let kind = if row == 1 || row == 6 {
            PieceType::Pawn
        } else if col == 0 || col == 7 {
            PieceType::Rook
        } else if col == 1 || col == 6 {
            PieceType::Knight
        } else if col == 2 || col == 5 {
            PieceType::Bishop
        } else if col == 3 {
            PieceType::Queen
        } else {
            PieceType::King
        };
        Some(Piece { piece_type: kind, piece_color: color })
    }
}

/// A ray holds at most as many squares as it may step.
pub proof fn lemma_ray_len_steps(
    v: BoardView,
    color: PieceColor,
    r: int,
    c: int,
    dr: int,
    dc: int,
    n: nat,
)
    ensures
        ray(v, color, r, c, dr, dc, n).len() <= n,
    decreases n,
{
    if n > 0 && in_bounds(r, c) {
        lemma_ray_len_steps(v, color, r + dr, c + dc, dr, dc, (n - 1) as nat);
    }
}

pub proof fn lemma_knight_moves_len(v: BoardView, color: PieceColor, idx: int)
    ensures
        knight_moves(v, color, idx).len() <= 8,
{
    let r = idx / 8;
    let c = idx % 8;
    let d = knight_dirs();
    reveal_with_fuel(rays, 9);
    assert forall|k: int| 0 <= k < 8 implies ray(v, color, r + d[k].0, c + d[k].1, d[k].0 as int, d[k].1 as int, 1).len() <= 1 by {
        lemma_ray_len_steps(v, color, r + d[k].0, c + d[k].1, d[k].0 as int, d[k].1 as int, 1);
    }
    assert(d.drop_last().drop_last().drop_last().drop_last().drop_last().drop_last().drop_last().drop_last().len() == 0);
}

/// How many squares lie from coordinate `x` to the board's edge in the
/// direction `d` (one of -1, 1), counting `x` itself.
pub open spec fn span(x: int, d: int) -> int {
    if d == 1 {
        if x <= 8 {
            8 - x
        } else {
            0
        }
    } else if x >= -1 {
        x + 1
    } else {
        0
    }
}

/// A ray stops at the board's edge.
pub proof fn lemma_ray_len_edge(
    v: BoardView,
    color: PieceColor,
    r: int,
    c: int,
    dr: int,
    dc: int,
    n: nat,
)
    requires
        -1 <= dr <= 1,
        -1 <= dc <= 1,
    ensures
        dr != 0 ==> ray(v, color, r, c, dr, dc, n).len() <= span(r, dr),
        dc != 0 ==> ray(v, color, r, c, dr, dc, n).len() <= span(c, dc),
    decreases n,
{
    if n > 0 && in_bounds(r, c) {
        lemma_ray_len_edge(v, color, r + dr, c + dc, dr, dc, (n - 1) as nat);
    }
}

pub open spec fn min2(a: int, b: int) -> int {
    if a <= b {
        a
    } else {
        b
    }
}

/// The length of each sliding ray from (r, c), by the board's edges.
proof fn lemma_slide_lens(v: BoardView, color: PieceColor, r: int, c: int, n: nat)
    requires
        0 <= r < 8,
        0 <= c < 8,
    ensures
        ray(v, color, r + 1, c + 1, 1, 1, n).len() <= min2(7 - r, 7 - c),
        ray(v, color, r - 1, c + 1, -1, 1, n).len() <= min2(r, 7 - c),
        ray(v, color, r + 1, c - 1, 1, -1, n).len() <= min2(7 - r, c),
        ray(v, color, r - 1, c - 1, -1, -1, n).len() <= min2(r, c),
        ray(v, color, r + 1, c, 1, 0, n).len() <= 7 - r,
        ray(v, color, r - 1, c, -1, 0, n).len() <= r,
        ray(v, color, r, c + 1, 0, 1, n).len() <= 7 - c,
        ray(v, color, r, c - 1, 0, -1, n).len() <= c,
{
    lemma_ray_len_edge(v, color, r + 1, c + 1, 1, 1, n);
    lemma_ray_len_edge(v, color, r - 1, c + 1, -1, 1, n);
    lemma_ray_len_edge(v, color, r + 1, c - 1, 1, -1, n);
    lemma_ray_len_edge(v, color, r - 1, c - 1, -1, -1, n);
    lemma_ray_len_edge(v, color, r + 1, c, 1, 0, n);
    lemma_ray_len_edge(v, color, r - 1, c, -1, 0, n);
    lemma_ray_len_edge(v, color, r, c + 1, 0, 1, n);
    lemma_ray_len_edge(v, color, r, c - 1, 0, -1, n);
}

pub proof fn lemma_rook_moves_len(v: BoardView, color: PieceColor, idx: int)
    requires
        0 <= idx < 64,
    ensures
        rook_moves(v, color, idx).len() <= 14,
{
    reveal_with_fuel(rays, 5);
    lemma_slide_lens(v, color, idx / 8, idx % 8, 7);
}

pub proof fn lemma_bishop_moves_len(v: BoardView, color: PieceColor, idx: int)
    requires
        0 <= idx < 64,
    ensures
        bishop_moves(v, color, idx).len() <= 13,
{
    reveal_with_fuel(rays, 5);
    lemma_slide_lens(v, color, idx / 8, idx % 8, 7);
}

/// The queen's 27 squares from the centre of an empty board are the most
/// any piece can reach.
pub proof fn lemma_queen_moves_len(v: BoardView, color: PieceColor, idx: int)
    requires
        0 <= idx < 64,
    ensures
        queen_moves(v, color, idx).len() <= 27,
{
    let r = idx / 8;
    let c = idx % 8;
    assert(queen_dirs() =~= bishop_dirs() + rook_dirs());
    lemma_rays_append(v, color, r, c, bishop_dirs(), rook_dirs(), 7);
    lemma_rook_moves_len(v, color, idx);
    lemma_bishop_moves_len(v, color, idx);
}

/// The rays in the directions of `a` then `b` are those of `a` followed by those of `b`.
pub proof fn lemma_rays_append(
    v: BoardView,
    color: PieceColor,
    r: int,
    c: int,
    a: Seq<(isize, isize)>,
    b: Seq<(isize, isize)>,
    n: nat,
)
    ensures
        rays(v, color, r, c, a + b, n) == rays(v, color, r, c, a, n) + rays(v, color, r, c, b, n),
    decreases b.len(),
{
    if b.len() == 0 {
        assert(a + b =~= a);
        assert(rays(v, color, r, c, a, n) + rays(v, color, r, c, b, n) =~= rays(v, color, r, c, a, n));
    } else {
        assert((a + b).drop_last() =~= a + b.drop_last());
        assert((a + b).last() == b.last());
        lemma_rays_append(v, color, r, c, a, b.drop_last(), n);
        let d = b.last();
        let last_ray = ray(v, color, r + d.0, c + d.1, d.0 as int, d.1 as int, n);
        assert(rays(v, color, r, c, a, n) + rays(v, color, r, c, b.drop_last(), n) + last_ray
            =~= rays(v, color, r, c, a, n) + (rays(v, color, r, c, b.drop_last(), n) + last_ray));
    }
}

pub proof fn lemma_king_moves_len(v: BoardView, color: PieceColor, idx: int)
    ensures
        king_moves(v, color, idx).len() <= 10,
{
    let r = idx / 8;
    let c = idx % 8;
    let d = queen_dirs();
    reveal_with_fuel(rays, 9);
    assert forall|k: int| 0 <= k < 8 implies ray(v, color, r + d[k].0, c + d[k].1, d[k].0 as int, d[k].1 as int, 1).len() <= 1 by {
        lemma_ray_len_steps(v, color, r + d[k].0, c + d[k].1, d[k].0 as int, d[k].1 as int, 1);
    }
    assert(castle_moves(v, color).len() <= 2);
}

pub proof fn lemma_pawn_moves_len(v: BoardView, color: PieceColor, idx: int, captures_only: bool)
    ensures
        pawn_moves(v, color, idx, captures_only).len() <= 4,
{
}

/// The square of the king of `color`, as the board records it.
pub open spec fn king_square(v: BoardView, color: PieceColor) -> int {
    if color == PieceColor::White {
        v.white_king_pos as int
    } else {
        v.black_king_pos as int
    }
}

/// Whether square `t` holds a piece of the side opposing `color` whose kind
/// is among `kinds`.
pub open spec fn enemy_of_kind(v: BoardView, color: PieceColor, kinds: Seq<PieceType>, t: usize) -> bool {
    match v.squares[t as int] {
        Some(p) => p.piece_color != color && kinds.contains(p.piece_type),
        None => false,
    }
}

/// The squares of `moves`, in order, that hold an opposing piece of one of `kinds`.
pub open spec fn enemies_among(
    v: BoardView,
    color: PieceColor,
    kinds: Seq<PieceType>,
    moves: Seq<usize>,
) -> Seq<usize>
    decreases moves.len(),
{
    if moves.len() == 0 {
        Seq::empty()
    } else {
        let rest = enemies_among(v, color, kinds, moves.drop_last());
        if enemy_of_kind(v, color, kinds, moves.last()) {
            rest.push(moves.last())
        } else {
            rest
        }
    }
}

/// The squares of the pieces attacking the king of `color`, found by
/// casting each piece's pattern from the king's square: pawns, knights,
/// rooks and queens on lines, bishops and queens on diagonals, the king.
#[verifier::opaque]
pub open spec fn attackers(v: BoardView, color: PieceColor) -> Seq<usize> {
    let k = king_square(v, color);
    enemies_among(v, color, seq![PieceType::Pawn], pawn_moves(v, color, k, true))
        + enemies_among(v, color, seq![PieceType::Knight], knight_moves(v, color, k))
        + enemies_among(v, color, seq![PieceType::Rook, PieceType::Queen], rook_moves(v, color, k))
        + enemies_among(v, color, seq![PieceType::Bishop, PieceType::Queen], bishop_moves(v, color, k))
        + enemies_among(v, color, seq![PieceType::King], king_moves(v, color, k))
}

/// Whether the king of `color` is attacked.
pub open spec fn in_check(v: BoardView, color: PieceColor) -> bool {
    attackers(v, color).len() > 0
}

/// The first two entries of `s`, each `None` where `s` is shorter.
pub open spec fn first_two(s: Seq<usize>) -> Seq<Option<usize>> {
    seq![
        if s.len() > 0 {
            Some(s[0])
        } else {
            None
        },
        if s.len() > 1 {
            Some(s[1])
        } else {
            None
        },
    ]
}

pub proof fn lemma_enemies_among_append(
    v: BoardView,
    color: PieceColor,
    kinds: Seq<PieceType>,
    a: Seq<usize>,
    b: Seq<usize>,
)
    ensures
        enemies_among(v, color, kinds, a + b) == enemies_among(v, color, kinds, a)
            + enemies_among(v, color, kinds, b),
    decreases b.len(),
{
    if b.len() == 0 {
        assert(a + b =~= a);
        assert(enemies_among(v, color, kinds, a) + enemies_among(v, color, kinds, b)
            =~= enemies_among(v, color, kinds, a));
    } else {
        assert((a + b).drop_last() =~= a + b.drop_last());
        lemma_enemies_among_append(v, color, kinds, a, b.drop_last());
        let x = enemies_among(v, color, kinds, a);
        let y = enemies_among(v, color, kinds, b.drop_last());
        assert((x + y).push(b.last()) =~= x + y.push(b.last()));
    }
}

/// Whether every square of `s` is on the board and empty or held by the
/// side opposing `color`.
pub open spec fn enterable(v: BoardView, color: PieceColor, s: Seq<usize>) -> bool {
    forall|k: int|
        0 <= k < s.len() ==> #[trigger] s[k] < 64 && (v.squares[s[k] as int] is None
            || v.squares[s[k] as int].unwrap().piece_color != color)
}

pub proof fn lemma_ray_enterable(
    v: BoardView,
    color: PieceColor,
    r: int,
    c: int,
    dr: int,
    dc: int,
    n: nat,
)
    ensures
        enterable(v, color, ray(v, color, r, c, dr, dc, n)),
    decreases n,
{
    if n > 0 && in_bounds(r, c) {
        lemma_ray_enterable(v, color, r + dr, c + dc, dr, dc, (n - 1) as nat);
        let rest = ray(v, color, r + dr, c + dc, dr, dc, (n - 1) as nat);
        let t = (8 * r + c) as usize;
        if v.squares[8 * r + c] is None {
            assert forall|k: int| 0 <= k < rest.len() + 1 implies #[trigger] (seq![t]
                + rest)[k] < 64 && (v.squares[(seq![t] + rest)[k] as int] is None
                || v.squares[(seq![t] + rest)[k] as int].unwrap().piece_color != color) by {
                if k > 0 {
                    assert((seq![t] + rest)[k] == rest[k - 1]);
                } else {
                    assert((seq![t] + rest)[k] == t);
                }
            }
        }
    }
}

pub proof fn lemma_rays_enterable(
    v: BoardView,
    color: PieceColor,
    r: int,
    c: int,
    dirs: Seq<(isize, isize)>,
    n: nat,
)
    ensures
        enterable(v, color, rays(v, color, r, c, dirs, n)),
    decreases dirs.len(),
{
    if dirs.len() > 0 {
        let d = dirs.last();
        lemma_rays_enterable(v, color, r, c, dirs.drop_last(), n);
        lemma_ray_enterable(v, color, r + d.0, c + d.1, d.0 as int, d.1 as int, n);
        let a = rays(v, color, r, c, dirs.drop_last(), n);
        let b = ray(v, color, r + d.0, c + d.1, d.0 as int, d.1 as int, n);
        assert forall|k: int| 0 <= k < (a + b).len() implies #[trigger] (a + b)[k] < 64 && (
        v.squares[(a + b)[k] as int] is None || v.squares[(a + b)[k] as int].unwrap().piece_color
            != color) by {
            if k >= a.len() {
                assert((a + b)[k] == b[k - a.len()]);
            } else {
                assert((a + b)[k] == a[k]);
            }
        }
    }
}

pub proof fn lemma_concat_enterable(v: BoardView, color: PieceColor, a: Seq<usize>, b: Seq<usize>)
    requires
        enterable(v, color, a),
        enterable(v, color, b),
    ensures
        enterable(v, color, a + b),
{
    assert forall|k: int| 0 <= k < (a + b).len() implies #[trigger] (a + b)[k] < 64 && (
    v.squares[(a + b)[k] as int] is None || v.squares[(a + b)[k] as int].unwrap().piece_color
        != color) by {
        if k >= a.len() {
            assert((a + b)[k] == b[k - a.len()]);
        } else {
            assert((a + b)[k] == a[k]);
        }
    }
}

/// Every move a piece of `color` on `idx` is offered lands on the board, on
/// an empty square or on an opposing piece.
pub proof fn lemma_moves_enterable(v: BoardView, color: PieceColor, idx: int)
    requires
        0 <= idx < 64,
        v.squares.len() == 64,
    ensures
        enterable(v, color, knight_moves(v, color, idx)),
        enterable(v, color, rook_moves(v, color, idx)),
        enterable(v, color, bishop_moves(v, color, idx)),
        enterable(v, color, queen_moves(v, color, idx)),
        enterable(v, color, king_moves(v, color, idx)),
        enterable(v, color, pawn_moves(v, color, idx, true)),
        enterable(v, color, pawn_moves(v, color, idx, false)),
{
    let r = idx / 8;
    let c = idx % 8;
    lemma_rays_enterable(v, color, r, c, knight_dirs(), 1);
    lemma_rays_enterable(v, color, r, c, rook_dirs(), 7);
    lemma_rays_enterable(v, color, r, c, bishop_dirs(), 7);
    lemma_rays_enterable(v, color, r, c, queen_dirs(), 7);
    lemma_rays_enterable(v, color, r, c, queen_dirs(), 1);
    let cm = castle_moves(v, color);
    assert(enterable(v, color, cm));
    lemma_concat_enterable(v, color, rays(v, color, r, c, queen_dirs(), 1), cm);
    let p1 = pawn_capture(v, color, r, c, 1);
    let p2 = pawn_capture(v, color, r, c, -1);
    let pa = pawn_advance(v, color, r, c);
    assert(enterable(v, color, p1));
    assert(enterable(v, color, p2));
    assert(enterable(v, color, pa));
    lemma_concat_enterable(v, color, p1, p2);
    lemma_concat_enterable(v, color, p1 + p2, pa);
    lemma_concat_enterable(v, color, p1 + p2, Seq::empty());
    assert(p1 + p2 + Seq::<usize>::empty() =~= p1 + p2);
}

/// `s` with the content of `from` moved to `to`, leaving `from` empty.
pub open spec fn relocated(s: Seq<Option<Piece>>, from: int, to: int) -> Seq<Option<Piece>> {
    s.update(from, None).update(to, s[from])
}

/// `v` with each recorded king square equal to `from` changed to `to`.
pub open spec fn with_king_moved(v: BoardView, from: usize, to: usize) -> BoardView {
    BoardView {
        white_king_pos: if from == v.white_king_pos {
            to
        } else {
            v.white_king_pos
        },
        black_king_pos: if from == v.black_king_pos {
            to
        } else {
            v.black_king_pos
        },
        ..v
    }
}

/// The square a castling king crosses on its way from `idx` to `t`.
pub open spec fn castle_passing_square(idx: int, t: int) -> int {
    if t > idx {
        idx + 1
    } else {
        idx - 1
    }
}

/// Whether moving the piece on `idx` to `t` is a castling: a king moving two
/// squares.
pub open spec fn is_castling_step(v: BoardView, idx: usize, t: usize) -> bool {
    v.squares[idx as int].unwrap().piece_type == PieceType::King && (t == idx + 2 || idx == t + 2)
}

/// The position with the castling king halfway, on the square it crosses.
pub open spec fn passing_view(v: BoardView, idx: usize, t: usize) -> BoardView {
    let p = castle_passing_square(idx as int, t as int);
    BoardView { squares: relocated(v.squares, idx as int, p), ..with_king_moved(v, idx, p as usize) }
}

/// The position used to test a move of the piece on `idx` to `t`: the piece
/// moved (and a pawn taken en passant removed), the rest unchanged.
pub open spec fn look_ahead(v: BoardView, idx: usize, t: usize) -> BoardView {
    let piece = v.squares[idx as int].unwrap();
    let s1 = if piece.piece_type == PieceType::Pawn && v.en_passant_target == Some(t) {
        v.squares.update(en_passant_victim(piece.piece_color, t as int), None)
    } else {
        v.squares
    };
    BoardView { squares: relocated(s1, idx as int, t as int), ..with_king_moved(v, idx, t) }
}

/// Whether moving the piece on `idx` to `t` leaves its king unattacked
/// (and, for a castling, the king is not attacked on the square it crosses).
pub open spec fn leaves_king_safe(v: BoardView, idx: usize, t: usize) -> bool {
    let color = v.squares[idx as int].unwrap().piece_color;
    &&& is_castling_step(v, idx, t) ==> !in_check(passing_view(v, idx, t), color)
    &&& !in_check(look_ahead(v, idx, t), color)
}

/// The entries of `moves`, in order, after which the king of the piece on
/// `idx` is safe.
pub open spec fn legal_among(v: BoardView, idx: usize, moves: Seq<usize>) -> Seq<usize>
    decreases moves.len(),
{
    if moves.len() == 0 {
        Seq::empty()
    } else {
        let rest = legal_among(v, idx, moves.drop_last());
        if leaves_king_safe(v, idx, moves.last()) {
            rest.push(moves.last())
        } else {
            rest
        }
    }
}

/// The legal moves of the piece on `idx`.
pub open spec fn valid_moves(v: BoardView, idx: int) -> Seq<usize> {
    legal_among(v, idx as usize, piece_moves(v, idx))
}

pub open spec fn king_of(color: PieceColor) -> Option<Piece> {
    Some(Piece { piece_type: PieceType::King, piece_color: color })
}

/// While a side may still castle, its king has never left its home square.
pub open spec fn kings_home_while_castling(v: BoardView) -> bool {
    &&& (v.castle_rights.white_kingside || v.castle_rights.white_queenside) ==> forall|i: int|
        0 <= i < 64 && #[trigger] v.squares[i] == king_of(PieceColor::White) ==> i == 4
    &&& (v.castle_rights.black_kingside || v.castle_rights.black_queenside) ==> forall|i: int|
        0 <= i < 64 && #[trigger] v.squares[i] == king_of(PieceColor::Black) ==> i == 60
}

/// The invariant of a board.
pub open spec fn wf(v: BoardView) -> bool {
    &&& v.squares.len() == 64
    &&& v.checkers.len() == 2
    &&& v.white_king_pos < 64
    &&& v.black_king_pos < 64
    &&& kings_home_while_castling(v)
    &&& !v.game_over ==> v.winner is None
}

pub proof fn lemma_legal_among_len(v: BoardView, idx: usize, moves: Seq<usize>)
    ensures
        legal_among(v, idx, moves).len() <= moves.len(),
    decreases moves.len(),
{
    if moves.len() > 0 {
        lemma_legal_among_len(v, idx, moves.drop_last());
    }
}

/// Whether `e` is one step from (r, c) in one of `dirs`.
pub open spec fn one_step_of(dirs: Seq<(isize, isize)>, r: int, c: int, e: int) -> bool {
    exists|j: int| 0 <= j < dirs.len() && e == 8 * (r + (#[trigger] dirs[j]).0) + c + dirs[j].1
}

/// Single-step rays reach only the squares one step away.
pub proof fn lemma_step_rays(v: BoardView, color: PieceColor, r: int, c: int, dirs: Seq<(isize, isize)>)
    ensures
        forall|k: int|
            0 <= k < rays(v, color, r, c, dirs, 1).len() ==> one_step_of(
                dirs,
                r,
                c,
                #[trigger] rays(v, color, r, c, dirs, 1)[k] as int,
            ),
    decreases dirs.len(),
{
    if dirs.len() > 0 {
        let d = dirs.last();
        let rest = dirs.drop_last();
        lemma_step_rays(v, color, r, c, rest);
        let a = rays(v, color, r, c, rest, 1);
        let b = ray(v, color, r + d.0, c + d.1, d.0 as int, d.1 as int, 1);
        assert(ray(v, color, r + d.0 + d.0, c + d.1 + d.1, d.0 as int, d.1 as int, 0) =~= Seq::<usize>::empty());
        assert forall|k: int| 0 <= k < (a + b).len() implies one_step_of(dirs, r, c, #[trigger] (a + b)[k] as int) by {
            if k < a.len() {
                assert((a + b)[k] == a[k]);
                let j = choose|j: int| 0 <= j < rest.len() && a[k] == 8 * (r + (#[trigger] rest[j]).0) + c + rest[j].1;
                assert(rest[j] == dirs[j]);
            } else {
                assert((a + b)[k] == b[k - a.len()]);
                assert(dirs[dirs.len() - 1] == d);
                assert(b[k - a.len()] == 8 * (r + d.0) + c + d.1);
            }
        }
    }
}

/// Targets a pawn may move to lie ahead of it, so a pawn taken en passant
/// lies on the board.
pub open spec fn ahead_of_start(color: PieceColor, s: Seq<usize>) -> bool {
    forall|k: int| 0 <= k < s.len() ==> (if color == PieceColor::White {
        #[trigger] s[k] >= 8
    } else {
        s[k] <= 55
    })
}

pub proof fn lemma_pawn_moves_ahead(v: BoardView, color: PieceColor, idx: int, captures_only: bool)
    requires
        0 <= idx < 64,
    ensures
        ahead_of_start(color, pawn_moves(v, color, idx, captures_only)),
{
    let r = idx / 8;
    let c = idx % 8;
    let p1 = pawn_capture(v, color, r, c, 1);
    let p2 = pawn_capture(v, color, r, c, -1);
    let pa = if captures_only { Seq::empty() } else { pawn_advance(v, color, r, c) };
    assert(ahead_of_start(color, p1));
    assert(ahead_of_start(color, p2));
    assert(ahead_of_start(color, pa));
    assert forall|k: int| 0 <= k < (p1 + p2 + pa).len() implies (if color == PieceColor::White {
        #[trigger] (p1 + p2 + pa)[k] >= 8
    } else {
        (p1 + p2 + pa)[k] <= 55
    }) by {
        if k < p1.len() {
            assert((p1 + p2 + pa)[k] == p1[k]);
        } else if k < p1.len() + p2.len() {
            assert((p1 + p2 + pa)[k] == p2[k - p1.len()]);
        } else {
            assert((p1 + p2 + pa)[k] == pa[k - p1.len() - p2.len()]);
        }
    }
}

/// What the look-ahead of a move relies on: the target is another square of
/// the board, a castling crosses an empty square, and a pawn taken en
/// passant stands on the board.
pub proof fn lemma_target_facts(v: BoardView, idx: int, j: int)
    requires
        wf(v),
        0 <= idx < 64,
        v.squares[idx] is Some,
        0 <= j < piece_moves(v, idx).len(),
    ensures
        ({
            let t = piece_moves(v, idx)[j];
            let p = v.squares[idx].unwrap();
            &&& t < 64
            &&& t != idx
            &&& is_castling_step(v, idx as usize, t) ==> {
                let q = castle_passing_square(idx, t as int);
                &&& 0 <= q < 64
                &&& v.squares[q] is None
                &&& p.piece_color == PieceColor::White ==> idx == 4 && (t == 6 || t == 2)
                &&& p.piece_color == PieceColor::Black ==> idx == 60 && (t == 62 || t == 58)
            }
            &&& p.piece_type == PieceType::Pawn ==> 0 <= en_passant_victim(p.piece_color, t as int) < 64
        }),
{
    let p = v.squares[idx].unwrap();
    let color = p.piece_color;
    let ms = piece_moves(v, idx);
    let t = ms[j];
    lemma_moves_enterable(v, color, idx);
    assert(t < 64);
    if p.piece_type == PieceType::Pawn {
        lemma_pawn_moves_ahead(v, color, idx, false);
    }
    if p.piece_type == PieceType::King {
        let r = idx / 8;
        let c = idx % 8;
        let rs = rays(v, color, r, c, queen_dirs(), 1);
        let cm = castle_moves(v, color);
        assert(ms == rs + cm);
        if j < rs.len() {
            lemma_step_rays(v, color, r, c, queen_dirs());
            assert(ms[j] == rs[j]);
            let d = queen_dirs();
            let k = choose|k: int| 0 <= k < d.len() && rs[j] == 8 * (r + (#[trigger] d[k]).0) + c + d[k].1;
            assert(idx == 8 * r + c);
            assert(!is_castling_step(v, idx as usize, t));
        } else {
            assert(ms[j] == cm[j - rs.len()]);
            if is_castling_step(v, idx as usize, t) {
                assert(v.squares[idx] == king_of(color));
                if color == PieceColor::White {
                    assert(idx == 4);
                } else {
                    assert(idx == 60);
                }
            }
        }
    }
}

/// The squares after the piece on `c` moves to `t`: a castling king brings
/// the piece beside the corner along, a pawn reaching the last row becomes a
/// queen, and a pawn landing on the en passant square takes the pawn it
/// passed.
pub open spec fn placed_squares(v: BoardView, c: usize, t: usize) -> Seq<Option<Piece>> {
    moved_squares(v.squares, v.en_passant_target, c, t)
}

/// The squares `s` after the piece on `c` moves to `t`, `ep` being the en
/// passant square.
pub open spec fn moved_squares(s: Seq<Option<Piece>>, ep: Option<usize>, c: usize, t: usize) -> Seq<
    Option<Piece>,
> {
    let piece = s[c as int].unwrap();
    let s1 = relocated(s, c as int, t as int);
    if piece.piece_type == PieceType::King {
        if t == c + 2 {
            relocated(s1, c + 3, c + 1)
        } else if c == t + 2 {
            relocated(s1, c - 4, c - 1)
        } else {
            s1
        }
    } else if piece.piece_type == PieceType::Pawn {
        let s2 = if t < 8 || t > 55 {
            s1.update(t as int, Some(Piece { piece_type: PieceType::Queen, piece_color: piece.piece_color }))
        } else {
            s1
        };
        match ep {
            Some(e) => if t == e {
                s2.update(en_passant_victim(piece.piece_color, e as int), None)
            } else {
                s2
            },
            None => s2,
        }
    } else {
        s1
    }
}

/// Castling rights after the piece on `c` moves to `t`: a king loses both of
/// its side's rights, a rook leaving its corner the right of that corner,
/// and a piece landing on a corner takes that corner's right.
pub open spec fn rights_after(v: BoardView, c: usize, t: usize) -> CastleRights {
    let cr = rights_on_leaving(v, c);
    CastleRights {
        white_queenside: cr.white_queenside && t != 0,
        white_kingside: cr.white_kingside && t != 7,
        black_queenside: cr.black_queenside && t != 56,
        black_kingside: cr.black_kingside && t != 63,
    }
}

/// Castling rights once the piece on `c` leaves it.
pub open spec fn rights_on_leaving(v: BoardView, c: usize) -> CastleRights {
    let piece = v.squares[c as int].unwrap();
    let cr = v.castle_rights;
    if piece.piece_type == PieceType::King {
        if piece.piece_color == PieceColor::Black {
            CastleRights { black_kingside: false, black_queenside: false, ..cr }
        } else {
            CastleRights { white_kingside: false, white_queenside: false, ..cr }
        }
    } else if piece.piece_type == PieceType::Rook {
        if c == 0 {
            CastleRights { white_queenside: false, ..cr }
        } else if c == 7 {
            CastleRights { white_kingside: false, ..cr }
        } else if c == 56 {
            CastleRights { black_queenside: false, ..cr }
        } else if c == 63 {
            CastleRights { black_kingside: false, ..cr }
        } else {
            cr
        }
    } else {
        cr
    }
}

/// The en passant square after the move: the square a pawn skipped with a
/// double step, if it made one.
pub open spec fn en_passant_after(v: BoardView, c: usize, t: usize) -> Option<usize> {
    if v.squares[c as int].unwrap().piece_type == PieceType::Pawn && (t == c + 16 || c == t + 16) {
        Some(((c + t) / 2) as usize)
    } else {
        None
    }
}

/// The board right after the piece on `c` moves to `t` and the turn passes.
pub open spec fn placed(v: BoardView, c: usize, t: usize) -> BoardView {
    let piece = v.squares[c as int].unwrap();
    BoardView {
        squares: placed_squares(v, c, t),
        current_turn: opponent(v.current_turn),
        white_king_pos: if piece.piece_type == PieceType::King && piece.piece_color
            == PieceColor::White {
            t
        } else {
            v.white_king_pos
        },
        black_king_pos: if piece.piece_type == PieceType::King && piece.piece_color
            == PieceColor::Black {
            t
        } else {
            v.black_king_pos
        },
        castle_rights: rights_after(v, c, t),
        ..v
    }
}

/// `v` with the check status of the side to move brought up to date.
pub open spec fn with_check_status(v: BoardView) -> BoardView {
    let a = attackers(v, v.current_turn);
    BoardView { checked: a.len() > 0, checkers: first_two(a), ..v }
}

/// Whether no piece of the side to move has a legal move.
pub open spec fn no_moves_left(v: BoardView) -> bool {
    forall|i: int|
        0 <= i < 64 && (#[trigger] v.squares[i]) is Some && v.squares[i].unwrap().piece_color
            == v.current_turn ==> valid_moves(v, i).len() == 0
}

/// The position right after the piece on `c` moves to `t`: the pieces are
/// placed, the turn passes, the check status is updated and the en passant
/// square is set.
pub open spec fn reached(v: BoardView, c: usize, t: usize) -> BoardView {
    BoardView { en_passant_target: en_passant_after(v, c, t), ..with_check_status(placed(v, c, t)) }
}

/// The board after a successful move of the piece on `c` to `t`: the
/// position reached, and the game ends when the side to move has no legal
/// move there, won by the mover when that side is in check.
pub open spec fn after_move(v: BoardView, c: usize, t: usize) -> BoardView {
    let v2 = reached(v, c, t);
    let over = no_moves_left(v2);
    BoardView {
        game_over: over || v2.game_over,
        winner: if over && v2.checked {
            Some(opponent(v2.current_turn))
        } else {
            v2.winner
        },
        ..v2
    }
}

/// Why a move of the piece on `c` to `t` is refused, if it is.
pub open spec fn move_refusal(v: BoardView, c: usize, t: usize) -> Option<Seq<char>> {
    if v.game_over {
        Some("Game is already over"@)
    } else if v.squares[c as int] is None {
        Some("No piece at the given index"@)
    } else if v.squares[c as int].unwrap().piece_color != v.current_turn {
        Some("It's not your turn"@)
    } else if !valid_moves(v, c as int).contains(t) {
        Some("Invalid move!"@)
    } else {
        None
    }
}

pub proof fn lemma_legal_among_subset(v: BoardView, idx: usize, moves: Seq<usize>, t: usize)
    requires
        legal_among(v, idx, moves).contains(t),
    ensures
        moves.contains(t),
        leaves_king_safe(v, idx, t),
    decreases moves.len(),
{
    if moves.len() > 0 {
        let rest = legal_among(v, idx, moves.drop_last());
        if rest.contains(t) {
            lemma_legal_among_subset(v, idx, moves.drop_last(), t);
            let k = choose|k: int| 0 <= k < moves.drop_last().len() && moves.drop_last()[k] == t;
            assert(moves[k] == t);
        } else {
            let k = choose|k: int| 0 <= k < legal_among(v, idx, moves).len() && legal_among(v, idx, moves)[k] == t;
            assert(t == moves.last());
            assert(moves[moves.len() - 1] == t);
        }
    }
}

/// Where a king of `col` stands after content moves from `from` to `to`.
proof fn lemma_relocated_kings(s: Seq<Option<Piece>>, from: int, to: int, col: PieceColor)
    requires
        0 <= from < s.len(),
        0 <= to < s.len(),
    ensures
        forall|i: int|
            0 <= i < s.len() && #[trigger] relocated(s, from, to)[i] == king_of(col) ==> (i == to
                && s[from] == king_of(col)) || (i != from && s[i] == king_of(col)),
{
}

/// While `col` may castle, a king of `col` after the move stood there
/// before, or is the moving king.
proof fn lemma_placed_kings(v: BoardView, c: usize, t: usize, col: PieceColor)
    requires
        wf(v),
        c < 64,
        t < 64,
        t != c,
        v.squares[c as int] is Some,
        is_castling_step(v, c, t) ==> {
            &&& v.squares[c as int].unwrap().piece_color == PieceColor::White ==> c == 4 && (t == 6 || t == 2)
            &&& v.squares[c as int].unwrap().piece_color == PieceColor::Black ==> c == 60 && (t == 62 || t == 58)
        },
        v.squares[c as int].unwrap().piece_type == PieceType::Pawn ==> 0 <= en_passant_victim(
            v.squares[c as int].unwrap().piece_color,
            t as int,
        ) < 64,
    ensures
        (if col == PieceColor::White {
            v.castle_rights.white_kingside || v.castle_rights.white_queenside
        } else {
            v.castle_rights.black_kingside || v.castle_rights.black_queenside
        }) ==> forall|i: int|
            0 <= i < 64 && #[trigger] placed_squares(v, c, t)[i] == king_of(col) ==> v.squares[i]
                == king_of(col) || (i == t && v.squares[c as int] == king_of(col)),
{
    let p = v.squares[c as int].unwrap();
    let sq = v.squares;
    let s1 = relocated(sq, c as int, t as int);
    lemma_relocated_kings(sq, c as int, t as int, col);
    let ns = placed_squares(v, c, t);
    if p.piece_type == PieceType::King {
        if t == c + 2 {
            lemma_relocated_kings(s1, c + 3, c + 1, col);
            assert(ns == relocated(s1, c + 3, c + 1));
        } else if c == t + 2 {
            lemma_relocated_kings(s1, c - 4, c - 1, col);
            assert(ns == relocated(s1, c - 4, c - 1));
        } else {
            assert(ns == s1);
        }
    } else if p.piece_type == PieceType::Pawn {
        let s2 = if t < 8 || t > 55 {
            s1.update(t as int, Some(Piece { piece_type: PieceType::Queen, piece_color: p.piece_color }))
        } else {
            s1
        };
        assert forall|i: int| 0 <= i < 64 && #[trigger] ns[i] == king_of(col) implies s1[i] == king_of(col) by {
            assert(s2[i] == king_of(col));
        }
    } else {
        assert(ns == s1);
    }
}

/// A move keeps every king that may still castle on its home square.
pub proof fn lemma_placed_wf(v: BoardView, c: usize, t: usize)
    requires
        wf(v),
        c < 64,
        v.squares[c as int] is Some,
        piece_moves(v, c as int).contains(t),
    ensures
        wf(placed(v, c, t)),
        wf(with_check_status(placed(v, c, t))),
{
    let j = choose|j: int| 0 <= j < piece_moves(v, c as int).len() && piece_moves(v, c as int)[j] == t;
    lemma_target_facts(v, c as int, j);
    let p = v.squares[c as int].unwrap();
    let w = placed(v, c, t);
    let ns = w.squares;
    if p.piece_type == PieceType::Pawn {
        lemma_pawn_moves_ahead(v, p.piece_color, c as int, false);
    }
    assert(ns.len() == 64);
    lemma_placed_kings(v, c, t, PieceColor::White);
    lemma_placed_kings(v, c, t, PieceColor::Black);
    assert(kings_home_while_castling(w));
    assert(wf(w));
    assert(wf(with_check_status(w)));
}

/// The letter naming a piece: lower case for black, capital for white.
pub open spec fn piece_letter(p: Piece) -> char {
    let lower = match p.piece_type {
        PieceType::Pawn => 'p',
        PieceType::Knight => 'n',
        PieceType::Bishop => 'b',
        PieceType::Rook => 'r',
        PieceType::Queen => 'q',
        PieceType::King => 'k',
    };
    if p.piece_color == PieceColor::White {
        match p.piece_type {
            PieceType::Pawn => 'P',
            PieceType::Knight => 'N',
            PieceType::Bishop => 'B',
            PieceType::Rook => 'R',
            PieceType::Queen => 'Q',
            PieceType::King => 'K',
        }
    } else {
        lower
    }
}

} // verus!
