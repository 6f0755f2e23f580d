//! Moves and attacks seen from either end: a piece that can move onto a
//! square holding the opposing king is found by the search for that king's
//! attackers.
use vstd::prelude::*;

use crate::board::{start_position, PieceColor, PieceType};
use crate::model::{
    attackers, bishop_dirs, initial_square, own_rook_at, lemma_enemies_among_append, bishop_moves, castle_moves, in_check, king_moves, king_square, knight_moves, piece_moves, rook_moves, enemies_among, pawn_advance, pawn_capture, pawn_moves, pawn_step, enemy_of_kind, in_bounds, knight_dirs, queen_dirs, ray, rays, rook_dirs, BoardView,
};

verus! {

/// `k` steps of `d`, for a step `d` of -1, 0 or 1.
pub open spec fn steps(k: int, d: int) -> int {
    if d > 0 {
        k
    } else if d < 0 {
        -k
    } else {
        0
    }
}

pub open spec fn unit(d: int) -> bool {
    -1 <= d <= 1
}

/// Whether the square `i` steps from (r, c) in direction (dr, dc) lies on
/// the board and is empty.
pub open spec fn open_at(v: BoardView, r: int, c: int, dr: int, dc: int, i: int) -> bool {
    &&& in_bounds(r + steps(i, dr), c + steps(i, dc))
    &&& v.squares[8 * (r + steps(i, dr)) + c + steps(i, dc)] is None
}

/// Whether the first `k` squares from (r, c) in direction (dr, dc) lie on
/// the board and are empty.
pub open spec fn clear_path(v: BoardView, r: int, c: int, dr: int, dc: int, k: int) -> bool {
    forall|i: int| 0 <= i < k ==> #[trigger] open_at(v, r, c, dr, dc, i)
}

/// A step further from the next square is a step further from the first.
proof fn lemma_open_shift(v: BoardView, r: int, c: int, dr: int, dc: int, i: int)
    requires
        unit(dr),
        unit(dc),
        i >= 0,
    ensures
        open_at(v, r + dr, c + dc, dr, dc, i) == open_at(v, r, c, dr, dc, i + 1),
{
    assert(r + dr + steps(i, dr) == r + steps(i + 1, dr));
    assert(c + dc + steps(i, dc) == c + steps(i + 1, dc));
}

/// A square on a ray lies some steps along it, past empty squares only.
proof fn lemma_ray_member(v: BoardView, color: PieceColor, r: int, c: int, dr: int, dc: int, n: nat, x: usize)
    requires
        unit(dr),
        unit(dc),
        ray(v, color, r, c, dr, dc, n).contains(x),
    ensures
        exists|k: int|
            0 <= k < n && x == 8 * (r + steps(k, dr)) + c + steps(k, dc) && in_bounds(
                r + steps(k, dr),
                c + steps(k, dc),
            ) && #[trigger] clear_path(v, r, c, dr, dc, k),
    decreases n,
{
    let rr = ray(v, color, r, c, dr, dc, n);
    let here = (8 * r + c) as usize;
    assert(in_bounds(r, c));
    if v.squares[8 * r + c] is Some {
        assert(rr == seq![here]);
        assert(x == here);
        assert(clear_path(v, r, c, dr, dc, 0));
    } else {
        let rest = ray(v, color, r + dr, c + dc, dr, dc, (n - 1) as nat);
        assert(rr == seq![here] + rest);
        let j = choose|j: int| 0 <= j < rr.len() && rr[j] == x;
        if j == 0 {
            assert(clear_path(v, r, c, dr, dc, 0));
        } else {
            assert(rest[j - 1] == x);
            assert(rest.contains(x));
            lemma_ray_member(v, color, r + dr, c + dc, dr, dc, (n - 1) as nat, x);
            let k = choose|k: int|
                0 <= k < n - 1 && x == 8 * (r + dr + steps(k, dr)) + c + dc + steps(k, dc) && in_bounds(
                    r + dr + steps(k, dr),
                    c + dc + steps(k, dc),
                ) && #[trigger] clear_path(v, r + dr, c + dc, dr, dc, k);
            assert(r + dr + steps(k, dr) == r + steps(k + 1, dr));
            assert(c + dc + steps(k, dc) == c + steps(k + 1, dc));
            assert forall|i: int| 0 <= i < k + 1 implies #[trigger] open_at(v, r, c, dr, dc, i) by {
                if i > 0 {
                    lemma_open_shift(v, r, c, dr, dc, i - 1);
                    assert(open_at(v, r + dr, c + dc, dr, dc, i - 1));
                }
            }
            assert(clear_path(v, r, c, dr, dc, k + 1));
        }
    }
}

/// A square some steps along a ray, past empty squares, that holds a piece
/// of the other side ends the ray.
proof fn lemma_ray_reaches(v: BoardView, color: PieceColor, r: int, c: int, dr: int, dc: int, n: nat, k: int)
    requires
        unit(dr),
        unit(dc),
        0 <= k < n,
        clear_path(v, r, c, dr, dc, k),
        in_bounds(r + steps(k, dr), c + steps(k, dc)),
        v.squares[8 * (r + steps(k, dr)) + c + steps(k, dc)] is Some,
        v.squares[8 * (r + steps(k, dr)) + c + steps(k, dc)].unwrap().piece_color != color,
    ensures
        ray(v, color, r, c, dr, dc, n).contains((8 * (r + steps(k, dr)) + c + steps(k, dc)) as usize),
    decreases k,
{
    let x = (8 * (r + steps(k, dr)) + c + steps(k, dc)) as usize;
    let rr = ray(v, color, r, c, dr, dc, n);
    if k == 0 {
        assert(rr == seq![x]);
        assert(rr[0] == x);
    } else {
        assert(open_at(v, r, c, dr, dc, 0));
        let here = (8 * r + c) as usize;
        let rest = ray(v, color, r + dr, c + dc, dr, dc, (n - 1) as nat);
        assert(rr == seq![here] + rest);
        assert forall|i: int| 0 <= i < k - 1 implies #[trigger] open_at(v, r + dr, c + dc, dr, dc, i) by {
            lemma_open_shift(v, r, c, dr, dc, i);
            assert(open_at(v, r, c, dr, dc, i + 1));
        }
        assert(r + dr + steps(k - 1, dr) == r + steps(k, dr));
        assert(c + dc + steps(k - 1, dc) == c + steps(k, dc));
        lemma_ray_reaches(v, color, r + dr, c + dc, dr, dc, (n - 1) as nat, k - 1);
        let j = choose|j: int| 0 <= j < rest.len() && rest[j] == x;
        assert(rr[j + 1] == x);
    }
}

/// Rays run both ways: when the ray from the piece on (cr, cc) ends on a
/// piece of the other side, the ray back from that piece ends on it.
proof fn lemma_ray_reverse(
    v: BoardView,
    color: PieceColor,
    other: PieceColor,
    cr: int,
    cc: int,
    dr: int,
    dc: int,
    n: nat,
    t: usize,
)
    requires
        unit(dr),
        unit(dc),
        in_bounds(cr, cc),
        v.squares[8 * cr + cc] is Some,
        v.squares[8 * cr + cc].unwrap().piece_color == color,
        other != color,
        ray(v, color, cr + dr, cc + dc, dr, dc, n).contains(t),
        v.squares[t as int] is Some,
        v.squares[t as int].unwrap().piece_color == other,
    ensures
        t < 64,
        ray(v, other, t / 8 - dr, t % 8 - dc, -dr, -dc, n).contains((8 * cr + cc) as usize),
{
    lemma_ray_member(v, color, cr + dr, cc + dc, dr, dc, n, t);
    let k = choose|k: int|
        0 <= k < n && t == 8 * (cr + dr + steps(k, dr)) + cc + dc + steps(k, dc) && in_bounds(
            cr + dr + steps(k, dr),
            cc + dc + steps(k, dc),
        ) && #[trigger] clear_path(v, cr + dr, cc + dc, dr, dc, k);
    let tr = cr + dr + steps(k, dr);
    let tc = cc + dc + steps(k, dc);
    assert(t / 8 == tr && t % 8 == tc);
    assert forall|i: int| 0 <= i < k implies #[trigger] open_at(v, tr - dr, tc - dc, -dr, -dc, i) by {
        assert(open_at(v, cr + dr, cc + dc, dr, dc, k - 1 - i));
        assert(tr - dr + steps(i, -dr) == cr + dr + steps(k - 1 - i, dr));
        assert(tc - dc + steps(i, -dc) == cc + dc + steps(k - 1 - i, dc));
    }
    assert(tr - dr + steps(k, -dr) == cr);
    assert(tc - dc + steps(k, -dc) == cc);
    lemma_ray_reaches(v, other, tr - dr, tc - dc, -dr, -dc, n, k);
}

/// A square on a single step lies one step away, on the board; and the
/// step back from a piece of the other side found there reaches the piece
/// on (cr, cc).
proof fn lemma_step_reverse(
    v: BoardView,
    color: PieceColor,
    other: PieceColor,
    cr: int,
    cc: int,
    dr: int,
    dc: int,
    t: usize,
)
    requires
        in_bounds(cr, cc),
        v.squares[8 * cr + cc] is Some,
        v.squares[8 * cr + cc].unwrap().piece_color == color,
        other != color,
        ray(v, color, cr + dr, cc + dc, dr, dc, 1).contains(t),
    ensures
        t < 64,
        ray(v, other, t / 8 - dr, t % 8 - dc, -dr, -dc, 1).contains((8 * cr + cc) as usize),
{
    let rr = ray(v, color, cr + dr, cc + dc, dr, dc, 1);
    assert(in_bounds(cr + dr, cc + dc));
    assert(ray(v, color, cr + dr + dr, cc + dc + dc, dr, dc, 0) == Seq::<usize>::empty());
    assert(rr[0] == t);
    let tr = cr + dr;
    let tc = cc + dc;
    assert(t == 8 * tr + tc);
    assert(t / 8 == tr && t % 8 == tc);
    let back = ray(v, other, tr - dr, tc - dc, -dr, -dc, 1);
    assert(back == seq![(8 * cr + cc) as usize]);
    assert(back[0] == (8 * cr + cc) as usize);
}

/// A square found along one of the directions is found by the search along
/// all of them.
proof fn lemma_rays_member(
    v: BoardView,
    color: PieceColor,
    r: int,
    c: int,
    dirs: Seq<(isize, isize)>,
    n: nat,
    j: int,
    x: usize,
)
    requires
        0 <= j < dirs.len(),
        ray(v, color, r + dirs[j].0, c + dirs[j].1, dirs[j].0 as int, dirs[j].1 as int, n).contains(x),
    ensures
        rays(v, color, r, c, dirs, n).contains(x),
    decreases dirs.len(),
{
    let d = dirs.last();
    let a = rays(v, color, r, c, dirs.drop_last(), n);
    let b = ray(v, color, r + d.0, c + d.1, d.0 as int, d.1 as int, n);
    if j == dirs.len() - 1 {
        let i = choose|i: int| 0 <= i < b.len() && b[i] == x;
        assert((a + b)[a.len() + i] == x);
    } else {
        assert(dirs.drop_last()[j] == dirs[j]);
        lemma_rays_member(v, color, r, c, dirs.drop_last(), n, j, x);
        let i = choose|i: int| 0 <= i < a.len() && a[i] == x;
        assert((a + b)[i] == x);
    }
}

/// A square found by the search along all directions lies along one of them.
proof fn lemma_rays_member_inv(
    v: BoardView,
    color: PieceColor,
    r: int,
    c: int,
    dirs: Seq<(isize, isize)>,
    n: nat,
    x: usize,
)
    requires
        rays(v, color, r, c, dirs, n).contains(x),
    ensures
        exists|j: int|
            0 <= j < dirs.len() && #[trigger] ray(v, color, r + dirs[j].0, c + dirs[j].1, dirs[j].0 as int, dirs[j].1 as int, n).contains(x),
    decreases dirs.len(),
{
    let d = dirs.last();
    let a = rays(v, color, r, c, dirs.drop_last(), n);
    let b = ray(v, color, r + d.0, c + d.1, d.0 as int, d.1 as int, n);
    let i = choose|i: int| 0 <= i < (a + b).len() && (a + b)[i] == x;
    if i < a.len() {
        assert(a[i] == x);
        lemma_rays_member_inv(v, color, r, c, dirs.drop_last(), n, x);
        let j = choose|j: int|
            0 <= j < dirs.drop_last().len() && #[trigger] ray(v, color, r + dirs.drop_last()[j].0, c + dirs.drop_last()[j].1, dirs.drop_last()[j].0 as int, dirs.drop_last()[j].1 as int, n).contains(x);
        assert(dirs.drop_last()[j] == dirs[j]);
    } else {
        assert(b[i - a.len()] == x);
        assert(dirs[dirs.len() - 1] == d);
        assert(ray(v, color, r + dirs[dirs.len() - 1].0, c + dirs[dirs.len() - 1].1, dirs[dirs.len() - 1].0 as int, dirs[dirs.len() - 1].1 as int, n).contains(x));
    }
}

/// A square of `s` holding an opposing piece of one of `kinds` is among the
/// enemies found in `s`.
proof fn lemma_enemies_member(v: BoardView, color: PieceColor, kinds: Seq<PieceType>, s: Seq<usize>, x: usize)
    requires
        s.contains(x),
        enemy_of_kind(v, color, kinds, x),
    ensures
        enemies_among(v, color, kinds, s).len() > 0,
    decreases s.len(),
{
    if s.last() != x {
        let i = choose|i: int| 0 <= i < s.len() && s[i] == x;
        assert(s.drop_last()[i] == x);
        lemma_enemies_member(v, color, kinds, s.drop_last(), x);
    }
}

/// Whether each direction of `dirs` has its opposite among them.
pub open spec fn closed_under_reversal(dirs: Seq<(isize, isize)>) -> bool {
    forall|j: int|
        0 <= j < dirs.len() ==> exists|j2: int|
            0 <= j2 < dirs.len() && (#[trigger] dirs[j2]).0 == -(#[trigger] dirs[j]).0 && dirs[j2].1 == -dirs[j].1
}

/// Whether every direction of `dirs` moves at most one row and one column.
pub open spec fn unit_steps(dirs: Seq<(isize, isize)>) -> bool {
    forall|j: int| 0 <= j < dirs.len() ==> unit((#[trigger] dirs[j]).0 as int) && unit(dirs[j].1 as int)
}

#[verifier::rlimit(80)]
proof fn lemma_knight_dirs_reversible()
    ensures
        closed_under_reversal(knight_dirs()),
{
    let d = knight_dirs();
    assert forall|j: int| 0 <= j < d.len() implies exists|j2: int|
        0 <= j2 < d.len() && (#[trigger] d[j2]).0 == -(#[trigger] d[j]).0 && d[j2].1 == -d[j].1 by {
        if j == 0 {
            assert(d[3].0 == -d[0].0 && d[3].1 == -d[0].1);
        } else if j == 1 {
            assert(d[2].0 == -d[1].0 && d[2].1 == -d[1].1);
        } else if j == 2 {
            assert(d[1].0 == -d[2].0 && d[1].1 == -d[2].1);
        } else if j == 3 {
            assert(d[0].0 == -d[3].0 && d[0].1 == -d[3].1);
        } else if j == 4 {
            assert(d[7].0 == -d[4].0 && d[7].1 == -d[4].1);
        } else if j == 5 {
            assert(d[6].0 == -d[5].0 && d[6].1 == -d[5].1);
        } else if j == 6 {
            assert(d[5].0 == -d[6].0 && d[5].1 == -d[6].1);
        } else if j == 7 {
            assert(d[4].0 == -d[7].0 && d[4].1 == -d[7].1);
        }
    }
}

proof fn lemma_rook_dirs_reversible()
    ensures
        closed_under_reversal(rook_dirs()),
        unit_steps(rook_dirs()),
{
    let d = rook_dirs();
    assert forall|j: int| 0 <= j < d.len() implies exists|j2: int|
        0 <= j2 < d.len() && (#[trigger] d[j2]).0 == -(#[trigger] d[j]).0 && d[j2].1 == -d[j].1 by {
        if j == 0 {
            assert(d[1].0 == -d[0].0 && d[1].1 == -d[0].1);
        } else if j == 1 {
            assert(d[0].0 == -d[1].0 && d[0].1 == -d[1].1);
        } else if j == 2 {
            assert(d[3].0 == -d[2].0 && d[3].1 == -d[2].1);
        } else if j == 3 {
            assert(d[2].0 == -d[3].0 && d[2].1 == -d[3].1);
        }
    }
    assert forall|j: int| 0 <= j < d.len() implies unit((#[trigger] d[j]).0 as int) && unit(d[j].1 as int) by {
        if j == 0 {
            assert(unit(d[0].0 as int) && unit(d[0].1 as int));
        } else if j == 1 {
            assert(unit(d[1].0 as int) && unit(d[1].1 as int));
        } else if j == 2 {
            assert(unit(d[2].0 as int) && unit(d[2].1 as int));
        } else if j == 3 {
            assert(unit(d[3].0 as int) && unit(d[3].1 as int));
        }
    }
}

proof fn lemma_bishop_dirs_reversible()
    ensures
        closed_under_reversal(bishop_dirs()),
        unit_steps(bishop_dirs()),
{
    let d = bishop_dirs();
    assert forall|j: int| 0 <= j < d.len() implies exists|j2: int|
        0 <= j2 < d.len() && (#[trigger] d[j2]).0 == -(#[trigger] d[j]).0 && d[j2].1 == -d[j].1 by {
        if j == 0 {
            assert(d[3].0 == -d[0].0 && d[3].1 == -d[0].1);
        } else if j == 1 {
            assert(d[2].0 == -d[1].0 && d[2].1 == -d[1].1);
        } else if j == 2 {
            assert(d[1].0 == -d[2].0 && d[1].1 == -d[2].1);
        } else if j == 3 {
            assert(d[0].0 == -d[3].0 && d[0].1 == -d[3].1);
        }
    }
    assert forall|j: int| 0 <= j < d.len() implies unit((#[trigger] d[j]).0 as int) && unit(d[j].1 as int) by {
        if j == 0 {
            assert(unit(d[0].0 as int) && unit(d[0].1 as int));
        } else if j == 1 {
            assert(unit(d[1].0 as int) && unit(d[1].1 as int));
        } else if j == 2 {
            assert(unit(d[2].0 as int) && unit(d[2].1 as int));
        } else if j == 3 {
            assert(unit(d[3].0 as int) && unit(d[3].1 as int));
        }
    }
}

#[verifier::rlimit(80)]
proof fn lemma_queen_dirs_reversible()
    ensures
        closed_under_reversal(queen_dirs()),
        unit_steps(queen_dirs()),
{
    let d = queen_dirs();
    assert forall|j: int| 0 <= j < d.len() implies exists|j2: int|
        0 <= j2 < d.len() && (#[trigger] d[j2]).0 == -(#[trigger] d[j]).0 && d[j2].1 == -d[j].1 by {
        if j == 0 {
            assert(d[3].0 == -d[0].0 && d[3].1 == -d[0].1);
        } else if j == 1 {
            assert(d[2].0 == -d[1].0 && d[2].1 == -d[1].1);
        } else if j == 2 {
            assert(d[1].0 == -d[2].0 && d[1].1 == -d[2].1);
        } else if j == 3 {
            assert(d[0].0 == -d[3].0 && d[0].1 == -d[3].1);
        } else if j == 4 {
            assert(d[5].0 == -d[4].0 && d[5].1 == -d[4].1);
        } else if j == 5 {
            assert(d[4].0 == -d[5].0 && d[4].1 == -d[5].1);
        } else if j == 6 {
            assert(d[7].0 == -d[6].0 && d[7].1 == -d[6].1);
        } else if j == 7 {
            assert(d[6].0 == -d[7].0 && d[6].1 == -d[7].1);
        }
    }
    assert forall|j: int| 0 <= j < d.len() implies unit((#[trigger] d[j]).0 as int) && unit(d[j].1 as int) by {
        if j == 0 {
            assert(unit(d[0].0 as int) && unit(d[0].1 as int));
        } else if j == 1 {
            assert(unit(d[1].0 as int) && unit(d[1].1 as int));
        } else if j == 2 {
            assert(unit(d[2].0 as int) && unit(d[2].1 as int));
        } else if j == 3 {
            assert(unit(d[3].0 as int) && unit(d[3].1 as int));
        } else if j == 4 {
            assert(unit(d[4].0 as int) && unit(d[4].1 as int));
        } else if j == 5 {
            assert(unit(d[5].0 as int) && unit(d[5].1 as int));
        } else if j == 6 {
            assert(unit(d[6].0 as int) && unit(d[6].1 as int));
        } else if j == 7 {
            assert(unit(d[7].0 as int) && unit(d[7].1 as int));
        }
    }
}

/// The piece found along direction `j` from a piece of `color` on (cr, cc)
/// finds that piece along the opposite direction `j2`.
proof fn lemma_direction_reverse(
    v: BoardView,
    color: PieceColor,
    other: PieceColor,
    cr: int,
    cc: int,
    dirs: Seq<(isize, isize)>,
    n: nat,
    t: usize,
    j: int,
    j2: int,
)
    requires
        0 <= j < dirs.len(),
        0 <= j2 < dirs.len(),
        dirs[j2].0 == -dirs[j].0,
        dirs[j2].1 == -dirs[j].1,
        n == 1 || (unit(dirs[j].0 as int) && unit(dirs[j].1 as int)),
        in_bounds(cr, cc),
        v.squares[8 * cr + cc] is Some,
        v.squares[8 * cr + cc].unwrap().piece_color == color,
        other != color,
        ray(v, color, cr + dirs[j].0, cc + dirs[j].1, dirs[j].0 as int, dirs[j].1 as int, n).contains(t),
        v.squares[t as int] is Some,
        v.squares[t as int].unwrap().piece_color == other,
    ensures
        t < 64,
        rays(v, other, t as int / 8, t as int % 8, dirs, n).contains((8 * cr + cc) as usize),
{
    let d = dirs[j];
    if n == 1 {
        lemma_step_reverse(v, color, other, cr, cc, d.0 as int, d.1 as int, t);
    } else {
        lemma_ray_reverse(v, color, other, cr, cc, d.0 as int, d.1 as int, n, t);
    }
    lemma_rays_member(v, other, t as int / 8, t as int % 8, dirs, n, j2, (8 * cr + cc) as usize);
}

/// A piece of `color` on (cr, cc) whose search along `dirs` finds a piece
/// of the other side is found by that piece's search along `dirs`.
proof fn lemma_search_reverse(
    v: BoardView,
    color: PieceColor,
    other: PieceColor,
    cr: int,
    cc: int,
    dirs: Seq<(isize, isize)>,
    n: nat,
    t: usize,
)
    requires
        closed_under_reversal(dirs),
        n == 1 || unit_steps(dirs),
        in_bounds(cr, cc),
        v.squares[8 * cr + cc] is Some,
        v.squares[8 * cr + cc].unwrap().piece_color == color,
        other != color,
        rays(v, color, cr, cc, dirs, n).contains(t),
        v.squares[t as int] is Some,
        v.squares[t as int].unwrap().piece_color == other,
    ensures
        t < 64,
        rays(v, other, t as int / 8, t as int % 8, dirs, n).contains((8 * cr + cc) as usize),
{
    lemma_rays_member_inv(v, color, cr, cc, dirs, n, t);
    let j = choose|j: int|
        0 <= j < dirs.len() && #[trigger] ray(v, color, cr + dirs[j].0, cc + dirs[j].1, dirs[j].0 as int, dirs[j].1 as int, n).contains(t);
    assert(0 <= j < dirs.len());
    let j2 = choose|j2: int| 0 <= j2 < dirs.len() && (#[trigger] dirs[j2]).0 == -(#[trigger] dirs[j]).0 && dirs[j2].1 == -dirs[j].1;
    lemma_direction_reverse(v, color, other, cr, cc, dirs, n, t, j, j2);
}

/// The squares castling offers are empty.
proof fn lemma_castle_squares_empty(v: BoardView, color: PieceColor, t: usize)
    requires
        castle_moves(v, color).contains(t),
    ensures
        v.squares[t as int] is None,
{
    let cm = castle_moves(v, color);
    let k = choose|k: int| 0 <= k < cm.len() && cm[k] == t;
    if color == PieceColor::White {
        let a = if v.castle_rights.white_kingside && v.squares[5] is None && v.squares[6] is None && own_rook_at(v, 7, PieceColor::White) {
            seq![6usize]
        } else {
            Seq::empty()
        };
        let b = if v.castle_rights.white_queenside && v.squares[1] is None && v.squares[2] is None && v.squares[3] is None && own_rook_at(v, 0, PieceColor::White) {
            seq![2usize]
        } else {
            Seq::empty()
        };
        assert(cm == a + b);
        if k < a.len() {
            assert(cm[k] == a[k]);
        } else {
            assert(cm[k] == b[k - a.len()]);
        }
    } else {
        let a = if v.castle_rights.black_kingside && v.squares[61] is None && v.squares[62] is None && own_rook_at(v, 63, PieceColor::Black) {
            seq![62usize]
        } else {
            Seq::empty()
        };
        let b = if v.castle_rights.black_queenside && v.squares[57] is None && v.squares[58] is None && v.squares[59] is None && own_rook_at(v, 56, PieceColor::Black) {
            seq![58usize]
        } else {
            Seq::empty()
        };
        assert(cm == a + b);
        if k < a.len() {
            assert(cm[k] == a[k]);
        } else {
            assert(cm[k] == b[k - a.len()]);
        }
    }
}

/// A pawn moves onto an occupied square only by a diagonal capture, and the
/// piece it captures attacks back along that diagonal as a pawn would.
proof fn lemma_pawn_capture_reverse(v: BoardView, color: PieceColor, other: PieceColor, c: int, t: usize)
    requires
        0 <= c < 64,
        v.squares[c] is Some,
        v.squares[c].unwrap().piece_color == color,
        other != color,
        pawn_moves(v, color, c, false).contains(t),
        v.squares[t as int] is Some,
        v.squares[t as int].unwrap().piece_color == other,
    ensures
        t < 64,
        pawn_moves(v, other, t as int, true).contains(c as usize),
{
    let r = c / 8;
    let col = c % 8;
    let p1 = pawn_capture(v, color, r, col, 1);
    let p2 = pawn_capture(v, color, r, col, -1);
    let pa = pawn_advance(v, color, r, col);
    assert(pawn_moves(v, color, c, false) == p1 + p2 + pa);
    let k = choose|k: int| 0 <= k < (p1 + p2 + pa).len() && (p1 + p2 + pa)[k] == t;
    let dc: int = if k < p1.len() {
        1
    } else {
        -1
    };
    if k < p1.len() {
        assert(p1[k] == t);
    } else if k < p1.len() + p2.len() {
        assert(p2[k - p1.len()] == t);
    } else {
        assert(pa[k - p1.len() - p2.len()] == t);
        assert(false);
    }
    let rr = r + pawn_step(color);
    let cc = col + dc;
    assert(in_bounds(rr, cc));
    assert(t == 8 * rr + cc);
    assert(t as int / 8 == rr && t as int % 8 == cc);
    assert(pawn_step(other) == -pawn_step(color));
    let q1 = pawn_capture(v, other, rr, cc, 1);
    let q2 = pawn_capture(v, other, rr, cc, -1);
    assert(pawn_moves(v, other, t as int, true) == q1 + q2 + Seq::<usize>::empty());
    assert(q1 + q2 + Seq::<usize>::empty() =~= q1 + q2);
    if dc == 1 {
        assert(q2 == seq![c as usize]);
        assert((q1 + q2)[q1.len() as int] == c as usize);
    } else {
        assert(q1 == seq![c as usize]);
        assert((q1 + q2)[0] == c as usize);
    }
}

/// A queen's line towards a piece of the other side is a line or a diagonal,
/// and that piece finds the queen along the opposite one.
proof fn lemma_queen_reverse(v: BoardView, color: PieceColor, other: PieceColor, cr: int, cc: int, t: usize)
    requires
        in_bounds(cr, cc),
        v.squares[8 * cr + cc] is Some,
        v.squares[8 * cr + cc].unwrap().piece_color == color,
        other != color,
        rays(v, color, cr, cc, queen_dirs(), 7).contains(t),
        v.squares[t as int] is Some,
        v.squares[t as int].unwrap().piece_color == other,
    ensures
        t < 64,
        rays(v, other, t as int / 8, t as int % 8, rook_dirs(), 7).contains((8 * cr + cc) as usize) || rays(
            v,
            other,
            t as int / 8,
            t as int % 8,
            bishop_dirs(),
            7,
        ).contains((8 * cr + cc) as usize),
{
    let qd = queen_dirs();
    let rd = rook_dirs();
    let bd = bishop_dirs();
    lemma_rays_member_inv(v, color, cr, cc, qd, 7, t);
    let j = choose|j: int|
        0 <= j < qd.len() && #[trigger] ray(v, color, cr + qd[j].0, cc + qd[j].1, qd[j].0 as int, qd[j].1 as int, 7).contains(t);
    let d = qd[j];
    let ghost m: (bool, int) = if j == 0 {
        (false, 3)
    } else if j == 1 {
        (false, 2)
    } else if j == 2 {
        (false, 1)
    } else if j == 3 {
        (false, 0)
    } else if j == 4 {
        (true, 1)
    } else if j == 5 {
        (true, 0)
    } else if j == 6 {
        (true, 3)
    } else {
        (true, 2)
    };
    let back = if m.0 { rd[m.1] } else { bd[m.1] };
    assert(back.0 == -d.0 && back.1 == -d.1 && unit(d.0 as int) && unit(d.1 as int));
    lemma_ray_reverse(v, color, other, cr, cc, d.0 as int, d.1 as int, 7, t);
    if m.0 {
        lemma_rays_member(v, other, t as int / 8, t as int % 8, rd, 7, m.1, (8 * cr + cc) as usize);
    } else {
        lemma_rays_member(v, other, t as int / 8, t as int % 8, bd, 7, m.1, (8 * cr + cc) as usize);
    }
}

/// A piece that may move onto the square of the opposing king attacks that
/// king: the king's side is in check.
pub proof fn lemma_capture_is_attack(v: BoardView, c: usize, t: usize)
    requires
        c < 64,
        v.squares[c as int] is Some,
        piece_moves(v, c as int).contains(t),
        v.squares[t as int] is Some,
        v.squares[t as int].unwrap().piece_color != v.squares[c as int].unwrap().piece_color,
        king_square(v, v.squares[t as int].unwrap().piece_color) == t,
    ensures
        in_check(v, v.squares[t as int].unwrap().piece_color),
{
    reveal(attackers);
    let p = v.squares[c as int].unwrap();
    let color = p.piece_color;
    let other = v.squares[t as int].unwrap().piece_color;
    let cr = c as int / 8;
    let cc = c as int % 8;
    assert(8 * cr + cc == c as int);
    let k = t as int;
    let x = c as usize;
    let pk = seq![PieceType::Pawn];
    let nk = seq![PieceType::Knight];
    let rk = seq![PieceType::Rook, PieceType::Queen];
    let bk = seq![PieceType::Bishop, PieceType::Queen];
    let kk = seq![PieceType::King];
    let pa = enemies_among(v, other, pk, pawn_moves(v, other, k, true));
    let na = enemies_among(v, other, nk, knight_moves(v, other, k));
    let ra = enemies_among(v, other, rk, rook_moves(v, other, k));
    let ba = enemies_among(v, other, bk, bishop_moves(v, other, k));
    let ka = enemies_among(v, other, kk, king_moves(v, other, k));
    assert(attackers(v, other) == pa + na + ra + ba + ka);
    assert(pk[0] == PieceType::Pawn && nk[0] == PieceType::Knight && kk[0] == PieceType::King);
    assert(rk[0] == PieceType::Rook && rk[1] == PieceType::Queen && bk[0] == PieceType::Bishop && bk[1]
        == PieceType::Queen);
    match p.piece_type {
        PieceType::Pawn => {
            lemma_pawn_capture_reverse(v, color, other, c as int, t);
            lemma_enemies_member(v, other, pk, pawn_moves(v, other, k, true), x);
        },
        PieceType::Knight => {
            lemma_knight_dirs_reversible();
            lemma_search_reverse(v, color, other, cr, cc, knight_dirs(), 1, t);
            lemma_enemies_member(v, other, nk, knight_moves(v, other, k), x);
        },
        PieceType::Rook => {
            lemma_rook_dirs_reversible();
            lemma_search_reverse(v, color, other, cr, cc, rook_dirs(), 7, t);
            lemma_enemies_member(v, other, rk, rook_moves(v, other, k), x);
        },
        PieceType::Bishop => {
            lemma_bishop_dirs_reversible();
            lemma_search_reverse(v, color, other, cr, cc, bishop_dirs(), 7, t);
            lemma_enemies_member(v, other, bk, bishop_moves(v, other, k), x);
        },
        PieceType::Queen => {
            lemma_queen_reverse(v, color, other, cr, cc, t);
            if rook_moves(v, other, k).contains(x) {
                lemma_enemies_member(v, other, rk, rook_moves(v, other, k), x);
            } else {
                lemma_enemies_member(v, other, bk, bishop_moves(v, other, k), x);
            }
        },
        PieceType::King => {
            let steps1 = rays(v, color, cr, cc, queen_dirs(), 1);
            let cm = castle_moves(v, color);
            assert(piece_moves(v, c as int) == steps1 + cm);
            let i = choose|i: int| 0 <= i < (steps1 + cm).len() && (steps1 + cm)[i] == t;
            if i >= steps1.len() {
                assert(cm[i - steps1.len()] == t);
                lemma_castle_squares_empty(v, color, t);
            }
            assert(steps1[i] == t);
            lemma_queen_dirs_reversible();
            lemma_search_reverse(v, color, other, cr, cc, queen_dirs(), 1, t);
            let back = rays(v, other, k / 8, k % 8, queen_dirs(), 1);
            let j = choose|j: int| 0 <= j < back.len() && back[j] == x;
            assert((back + castle_moves(v, other))[j] == x);
            lemma_enemies_member(v, other, kk, king_moves(v, other, k), x);
        },
    }
}

/// Whether the first square from (r, c) in direction `d` is off the board,
/// holds a piece of `color`, or, for single steps, is empty.
pub open spec fn shielded(v: BoardView, color: PieceColor, r: int, c: int, d: (isize, isize), n: nat) -> bool {
    let rr = r + d.0;
    let cc = c + d.1;
    ||| !in_bounds(rr, cc)
    ||| v.squares[8 * rr + cc] is Some && v.squares[8 * rr + cc].unwrap().piece_color == color
    ||| n == 1 && v.squares[8 * rr + cc] is None
}

/// A search from (r, c) shielded in every direction finds no opposing piece.
proof fn lemma_shielded_search(
    v: BoardView,
    color: PieceColor,
    kinds: Seq<PieceType>,
    r: int,
    c: int,
    dirs: Seq<(isize, isize)>,
    n: nat,
)
    requires
        n >= 1,
        forall|j: int| 0 <= j < dirs.len() ==> shielded(v, color, r, c, #[trigger] dirs[j], n),
    ensures
        enemies_among(v, color, kinds, rays(v, color, r, c, dirs, n)) == Seq::<usize>::empty(),
    decreases dirs.len(),
{
    if dirs.len() > 0 {
        let d = dirs.last();
        let rest = dirs.drop_last();
        assert forall|j: int| 0 <= j < rest.len() implies shielded(v, color, r, c, #[trigger] rest[j], n) by {
            assert(rest[j] == dirs[j]);
        }
        lemma_shielded_search(v, color, kinds, r, c, rest, n);
        assert(shielded(v, color, r, c, dirs[dirs.len() - 1], n));
        let b = ray(v, color, r + d.0, c + d.1, d.0 as int, d.1 as int, n);
        lemma_enemies_among_append(v, color, kinds, rays(v, color, r, c, rest, n), b);
        if in_bounds(r + d.0, c + d.1) && v.squares[8 * (r + d.0) + c + d.1] is None {
            let x = (8 * (r + d.0) + c + d.1) as usize;
            assert(ray(v, color, r + d.0 + d.0, c + d.1 + d.1, d.0 as int, d.1 as int, 0) == Seq::<usize>::empty());
            assert(b == seq![x]);
            assert(x as int == 8 * (r + d.0) + c + d.1);
            assert(!enemy_of_kind(v, color, kinds, x));
            assert(seq![x].drop_last() =~= Seq::<usize>::empty());
            assert(enemies_among(v, color, kinds, Seq::<usize>::empty()) == Seq::<usize>::empty());
            assert(enemies_among(v, color, kinds, b) == Seq::<usize>::empty());
        } else {
            assert(b == Seq::<usize>::empty());
        }
    }
}

/// In the starting position, the black king is not attacked.
pub proof fn lemma_start_black_king_safe(v: BoardView)
    requires
        start_position(v),
    ensures
        !in_check(v, PieceColor::Black),
{
    reveal(attackers);
    let s = v.squares;
    assert forall|i: int| 48 <= i < 64 implies (#[trigger] s[i]) is Some && s[i].unwrap().piece_color
        == PieceColor::Black by {
        assert(s[i] == initial_square(i));
    }
    assert(s[43] == initial_square(43) && s[45] == initial_square(45));
    let k = 60int;
    assert(king_square(v, PieceColor::Black) == k);
    let pk = seq![PieceType::Pawn];
    let nk = seq![PieceType::Knight];
    let rk = seq![PieceType::Rook, PieceType::Queen];
    let bk = seq![PieceType::Bishop, PieceType::Queen];
    let kk = seq![PieceType::King];
    // pawns: the squares a black king is attacked from by pawns hold black pawns
    let p1 = pawn_capture(v, PieceColor::Black, 7, 4, 1);
    let p2 = pawn_capture(v, PieceColor::Black, 7, 4, -1);
    assert(s[53] is Some && s[51] is Some);
    assert(p1 == Seq::<usize>::empty());
    assert(p2 == Seq::<usize>::empty());
    assert(pawn_moves(v, PieceColor::Black, k, true) =~= Seq::<usize>::empty());
    // every other search is shielded by the black pieces, or meets empty squares after a single step
    let kd = knight_dirs();
    assert forall|j: int| 0 <= j < kd.len() implies shielded(v, PieceColor::Black, 7, 4, #[trigger] kd[j], 1) by {
        if j == 0 { assert(!in_bounds(8, 6)); }
        else if j == 1 { assert(!in_bounds(8, 2)); }
        else if j == 2 { assert(s[54] is Some); }
        else if j == 3 { assert(s[50] is Some); }
        else if j == 4 { assert(!in_bounds(9, 5)); }
        else if j == 5 { assert(!in_bounds(9, 3)); }
        else if j == 6 { assert(s[45] is None); }
        else { assert(s[43] is None); }
    }
    lemma_shielded_search(v, PieceColor::Black, nk, 7, 4, kd, 1);
    let rd = rook_dirs();
    assert forall|j: int| 0 <= j < rd.len() implies shielded(v, PieceColor::Black, 7, 4, #[trigger] rd[j], 7) by {
        if j == 0 { assert(!in_bounds(8, 4)); }
        else if j == 1 { assert(s[52] is Some); }
        else if j == 2 { assert(s[61] is Some); }
        else { assert(s[59] is Some); }
    }
    lemma_shielded_search(v, PieceColor::Black, rk, 7, 4, rd, 7);
    let bd = bishop_dirs();
    assert forall|j: int| 0 <= j < bd.len() implies shielded(v, PieceColor::Black, 7, 4, #[trigger] bd[j], 7) by {
        if j == 0 { assert(!in_bounds(8, 5)); }
        else if j == 1 { assert(s[53] is Some); }
        else if j == 2 { assert(!in_bounds(8, 3)); }
        else { assert(s[51] is Some); }
    }
    lemma_shielded_search(v, PieceColor::Black, bk, 7, 4, bd, 7);
    let qd = queen_dirs();
    assert forall|j: int| 0 <= j < qd.len() implies shielded(v, PieceColor::Black, 7, 4, #[trigger] qd[j], 1) by {
        if j == 0 { assert(!in_bounds(8, 5)); }
        else if j == 1 { assert(s[53] is Some); }
        else if j == 2 { assert(!in_bounds(8, 3)); }
        else if j == 3 { assert(s[51] is Some); }
        else if j == 4 { assert(!in_bounds(8, 4)); }
        else if j == 5 { assert(s[52] is Some); }
        else if j == 6 { assert(s[61] is Some); }
        else { assert(s[59] is Some); }
    }
    lemma_shielded_search(v, PieceColor::Black, kk, 7, 4, qd, 1);
    // castling is not on offer while pieces stand between king and rooks
    assert(s[61] is Some && s[57] is Some);
    assert(castle_moves(v, PieceColor::Black) =~= Seq::<usize>::empty());
    lemma_enemies_among_append(v, PieceColor::Black, kk, rays(v, PieceColor::Black, 7, 4, qd, 1), castle_moves(v, PieceColor::Black));
}

/// In the starting position, the white king is not attacked.
pub proof fn lemma_start_white_king_safe(v: BoardView)
    requires
        start_position(v),
    ensures
        !in_check(v, PieceColor::White),
{
    reveal(attackers);
    let s = v.squares;
    assert forall|i: int| 0 <= i < 16 implies (#[trigger] s[i]) is Some && s[i].unwrap().piece_color
        == PieceColor::White by {
        assert(s[i] == initial_square(i));
    }
    assert(s[19] == initial_square(19) && s[21] == initial_square(21));
    let k = 4int;
    assert(king_square(v, PieceColor::White) == k);
    let pk = seq![PieceType::Pawn];
    let nk = seq![PieceType::Knight];
    let rk = seq![PieceType::Rook, PieceType::Queen];
    let bk = seq![PieceType::Bishop, PieceType::Queen];
    let kk = seq![PieceType::King];
    // pawns: the squares a white king is attacked from by pawns hold white pawns
    let p1 = pawn_capture(v, PieceColor::White, 0, 4, 1);
    let p2 = pawn_capture(v, PieceColor::White, 0, 4, -1);
    assert(s[13] is Some && s[11] is Some);
    assert(p1 == Seq::<usize>::empty());
    assert(p2 == Seq::<usize>::empty());
    assert(pawn_moves(v, PieceColor::White, k, true) =~= Seq::<usize>::empty());
    // every other search is shielded by the black pieces, or meets empty squares after a single step
    let kd = knight_dirs();
    assert forall|j: int| 0 <= j < kd.len() implies shielded(v, PieceColor::White, 0, 4, #[trigger] kd[j], 1) by {
        if j == 0 { assert(s[14] is Some); }
        else if j == 1 { assert(s[10] is Some); }
        else if j == 2 { assert(!in_bounds(-1, 6)); }
        else if j == 3 { assert(!in_bounds(-1, 2)); }
        else if j == 4 { assert(s[21] is None); }
        else if j == 5 { assert(s[19] is None); }
        else if j == 6 { assert(!in_bounds(-2, 5)); }
        else { assert(!in_bounds(-2, 3)); }
    }
    lemma_shielded_search(v, PieceColor::White, nk, 0, 4, kd, 1);
    let rd = rook_dirs();
    assert forall|j: int| 0 <= j < rd.len() implies shielded(v, PieceColor::White, 0, 4, #[trigger] rd[j], 7) by {
        if j == 0 { assert(s[12] is Some); }
        else if j == 1 { assert(!in_bounds(-1, 4)); }
        else if j == 2 { assert(s[5] is Some); }
        else { assert(s[3] is Some); }
    }
    lemma_shielded_search(v, PieceColor::White, rk, 0, 4, rd, 7);
    let bd = bishop_dirs();
    assert forall|j: int| 0 <= j < bd.len() implies shielded(v, PieceColor::White, 0, 4, #[trigger] bd[j], 7) by {
        if j == 0 { assert(s[13] is Some); }
        else if j == 1 { assert(!in_bounds(-1, 5)); }
        else if j == 2 { assert(s[11] is Some); }
        else { assert(!in_bounds(-1, 3)); }
    }
    lemma_shielded_search(v, PieceColor::White, bk, 0, 4, bd, 7);
    let qd = queen_dirs();
    assert forall|j: int| 0 <= j < qd.len() implies shielded(v, PieceColor::White, 0, 4, #[trigger] qd[j], 1) by {
        if j == 0 { assert(s[13] is Some); }
        else if j == 1 { assert(!in_bounds(-1, 5)); }
        else if j == 2 { assert(s[11] is Some); }
        else if j == 3 { assert(!in_bounds(-1, 3)); }
        else if j == 4 { assert(s[12] is Some); }
        else if j == 5 { assert(!in_bounds(-1, 4)); }
        else if j == 6 { assert(s[5] is Some); }
        else { assert(s[3] is Some); }
    }
    lemma_shielded_search(v, PieceColor::White, kk, 0, 4, qd, 1);
    // castling is not on offer while pieces stand between king and rooks
    assert(s[5] is Some && s[1] is Some);
    assert(castle_moves(v, PieceColor::White) =~= Seq::<usize>::empty());
    lemma_enemies_among_append(v, PieceColor::White, kk, rays(v, PieceColor::White, 0, 4, qd, 1), castle_moves(v, PieceColor::White));
}

} // verus!
