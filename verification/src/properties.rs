//! Laws of the rules engine: what every accepted move brings about.
use vstd::prelude::*;

use crate::attacks::{lemma_capture_is_attack, lemma_start_black_king_safe, lemma_start_white_king_safe};
use crate::board::{start_position, Piece, PieceColor, PieceType};
use crate::model::{
    after_move, attackers, castle_moves, en_passant_victim, initial_square, enemies_among, enemy_of_kind, first_two, in_bounds, in_check,
    is_castling_step, king_moves, leaves_king_safe, legal_among, king_of, king_square, knight_moves, lemma_enemies_among_append,
    lemma_legal_among_subset, lemma_moves_enterable, lemma_placed_wf, lemma_rays_enterable, lemma_step_rays, lemma_target_facts, look_ahead, move_refusal, no_moves_left,
    opponent, own_rook_at, pawn_advance, reached, pawn_capture, pawn_moves, pawn_step, piece_moves, placed, ray, rays, relocated, rook_moves, bishop_moves,
    knight_dirs, rook_dirs, bishop_dirs, queen_dirs, valid_moves, victim_present, wf, with_check_status,
    BoardView,
};

verus! {

/// An accepted move passes the turn to the other side.
pub proof fn lemma_move_passes_turn(v: BoardView, c: usize, t: usize)
    requires
        wf(v),
        move_refusal(v, c, t) is None,
    ensures
        after_move(v, c, t).current_turn == opponent(v.current_turn),
{
}

/// A game is over only once a move leaves the side to move without a legal
/// move in the position reached, en passant square included. It
/// is then won by the side that moved when the side to move is in check
/// (checkmate) and drawn otherwise (stalemate); while it runs nobody has won.
pub proof fn lemma_move_outcome(v: BoardView, c: usize, t: usize)
    requires
        wf(v),
        move_refusal(v, c, t) is None,
    ensures
        ({
            let w = after_move(v, c, t);
            &&& w.game_over <==> no_moves_left(reached(v, c, t))
            &&& w.game_over ==> w.winner == (if w.checked {
                Some(v.current_turn)
            } else {
                None
            })
            &&& !w.game_over ==> w.winner is None
        }),
{
    assert(opponent(opponent(v.current_turn)) == v.current_turn);
}

/// Whether square `i` looks alike on two boards to attacks on the king of
/// `color`: empty on both, or held on both by pieces of one colour, the
/// same piece when it is of the other side.
pub open spec fn alike_at(color: PieceColor, s1: Seq<Option<Piece>>, s2: Seq<Option<Piece>>, i: int) -> bool {
    &&& (s1[i] is None) == (s2[i] is None)
    &&& s1[i] is Some ==> s1[i].unwrap().piece_color == s2[i].unwrap().piece_color
    &&& s1[i] is Some && s1[i].unwrap().piece_color != color ==> s1[i] == s2[i]
}

/// Whether two boards look alike to attacks on the king of `color` on every
/// square.
pub open spec fn alike_for(color: PieceColor, s1: Seq<Option<Piece>>, s2: Seq<Option<Piece>>) -> bool {
    forall|i: int| 0 <= i < 64 ==> #[trigger] alike_at(color, s1, s2, i)
}

/// Whether two boards look alike to attacks on the king of `color` on every
/// square off row `kr`.
pub open spec fn alike_off_row(color: PieceColor, s1: Seq<Option<Piece>>, s2: Seq<Option<Piece>>, kr: int) -> bool {
    forall|i: int| 0 <= i < 64 && i / 8 != kr ==> #[trigger] alike_at(color, s1, s2, i)
}

proof fn lemma_ray_alike(
    v1: BoardView,
    v2: BoardView,
    color: PieceColor,
    r: int,
    c: int,
    dr: int,
    dc: int,
    n: nat,
)
    requires
        alike_for(color, v1.squares, v2.squares),
    ensures
        ray(v1, color, r, c, dr, dc, n) == ray(v2, color, r, c, dr, dc, n),
    decreases n,
{
    if n > 0 && in_bounds(r, c) {
        lemma_ray_alike(v1, v2, color, r + dr, c + dc, dr, dc, (n - 1) as nat);
        assert(alike_at(color, v1.squares, v2.squares, 8 * r + c));
    }
}

proof fn lemma_rays_alike(
    v1: BoardView,
    v2: BoardView,
    color: PieceColor,
    r: int,
    c: int,
    dirs: Seq<(isize, isize)>,
    n: nat,
)
    requires
        alike_for(color, v1.squares, v2.squares),
    ensures
        rays(v1, color, r, c, dirs, n) == rays(v2, color, r, c, dirs, n),
    decreases dirs.len(),
{
    if dirs.len() > 0 {
        let d = dirs.last();
        lemma_rays_alike(v1, v2, color, r, c, dirs.drop_last(), n);
        lemma_ray_alike(v1, v2, color, r + d.0, c + d.1, d.0 as int, d.1 as int, n);
    }
}

proof fn lemma_enemies_alike(v1: BoardView, v2: BoardView, color: PieceColor, kinds: Seq<PieceType>, s: Seq<usize>)
    requires
        forall|k: int| 0 <= k < s.len() ==> #[trigger] s[k] < 64 && alike_at(color, v1.squares, v2.squares, s[k] as int),
    ensures
        enemies_among(v1, color, kinds, s) == enemies_among(v2, color, kinds, s),
    decreases s.len(),
{
    if s.len() > 0 {
        assert forall|k: int| 0 <= k < s.drop_last().len() implies #[trigger] s.drop_last()[k] < 64
            && alike_at(color, v1.squares, v2.squares, s.drop_last()[k] as int) by {
            assert(s.drop_last()[k] == s[k]);
        }
        lemma_enemies_alike(v1, v2, color, kinds, s.drop_last());
        assert(s[s.len() - 1] < 64);
    }
}

proof fn lemma_enemies_of_empties(v: BoardView, color: PieceColor, kinds: Seq<PieceType>, s: Seq<usize>)
    requires
        forall|k: int| 0 <= k < s.len() ==> v.squares[#[trigger] s[k] as int] is None,
    ensures
        enemies_among(v, color, kinds, s) == Seq::<usize>::empty(),
    decreases s.len(),
{
    if s.len() > 0 {
        assert forall|k: int| 0 <= k < s.drop_last().len() implies v.squares[#[trigger] s.drop_last()[k] as int] is None by {
            assert(s.drop_last()[k] == s[k]);
        }
        lemma_enemies_of_empties(v, color, kinds, s.drop_last());
        assert(v.squares[s[s.len() - 1] as int] is None);
    }
}

proof fn lemma_pawn_capture_alike(
    v1: BoardView,
    v2: BoardView,
    color: PieceColor,
    kinds: Seq<PieceType>,
    r: int,
    c: int,
    dc: int,
)
    requires
        in_bounds(r + pawn_step(color), c + dc) ==> alike_at(
            color,
            v1.squares,
            v2.squares,
            8 * (r + pawn_step(color)) + c + dc,
        ),
    ensures
        enemies_among(v1, color, kinds, pawn_capture(v1, color, r, c, dc)) == enemies_among(
            v2,
            color,
            kinds,
            pawn_capture(v2, color, r, c, dc),
        ),
{
    let rr = r + pawn_step(color);
    let cc = c + dc;
    if in_bounds(rr, cc) {
        let i = 8 * rr + cc;
        let p1 = pawn_capture(v1, color, r, c, dc);
        let p2 = pawn_capture(v2, color, r, c, dc);
        if v1.squares[i] is Some {
            assert(p1 == p2);
            assert forall|k: int| 0 <= k < p1.len() implies #[trigger] p1[k] < 64 && alike_at(
                color,
                v1.squares,
                v2.squares,
                p1[k] as int,
            ) by {
                assert(p1[k] == i);
            }
            lemma_enemies_alike(v1, v2, color, kinds, p1);
        } else {
            lemma_enemies_of_empties(v1, color, kinds, p1);
            lemma_enemies_of_empties(v2, color, kinds, p2);
        }
    }
}

proof fn lemma_castle_enemies(v: BoardView, color: PieceColor, kinds: Seq<PieceType>)
    ensures
        enemies_among(v, color, kinds, castle_moves(v, color)) == Seq::<usize>::empty(),
{
    let cm = castle_moves(v, color);
    assert forall|k: int| 0 <= k < cm.len() implies v.squares[#[trigger] cm[k] as int] is None by {
        if !v.checked {
            if color == PieceColor::White {
                let a = if v.castle_rights.white_kingside && v.squares[5] is None && v.squares[6] is None && own_rook_at(v, 7, PieceColor::White) {
                    seq![6usize]
                } else {
                    Seq::empty()
                };
                let b = if v.castle_rights.white_queenside && v.squares[1] is None && v.squares[2] is None
                    && v.squares[3] is None && own_rook_at(v, 0, PieceColor::White) {
                    seq![2usize]
                } else {
                    Seq::empty()
                };
                assert(cm == a + b);
                if k < a.len() {
                    assert(cm[k] == a[k]);
                } else {
                    assert(cm[k] == b[k - a.len()]);
                }
            } else {
                let a = if v.castle_rights.black_kingside && v.squares[61] is None && v.squares[62] is None && own_rook_at(v, 63, PieceColor::Black) {
                    seq![62usize]
                } else {
                    Seq::empty()
                };
                let b = if v.castle_rights.black_queenside && v.squares[57] is None && v.squares[58] is None
                    && v.squares[59] is None && own_rook_at(v, 56, PieceColor::Black) {
                    seq![58usize]
                } else {
                    Seq::empty()
                };
                assert(cm == a + b);
                if k < a.len() {
                    assert(cm[k] == a[k]);
                } else {
                    assert(cm[k] == b[k - a.len()]);
                }
            }
        }
    }
    lemma_enemies_of_empties(v, color, kinds, cm);
}

/// Who attacks the king of `color` depends only on where the pieces stand,
/// their colours, the kinds of the opposing pieces and the king's square.
pub proof fn lemma_attackers_alike(v1: BoardView, v2: BoardView, color: PieceColor)
    requires
        alike_for(color, v1.squares, v2.squares),
        king_square(v1, color) == king_square(v2, color),
    ensures
        attackers(v1, color) == attackers(v2, color),
{
    reveal(attackers);
    let k = king_square(v1, color);
    let r = k / 8;
    let c = k % 8;
    let pk = seq![PieceType::Pawn];
    let nk = seq![PieceType::Knight];
    let rk = seq![PieceType::Rook, PieceType::Queen];
    let bk = seq![PieceType::Bishop, PieceType::Queen];
    let kk = seq![PieceType::King];
    // pawns
    let a1 = pawn_capture(v1, color, r, c, 1);
    let b1 = pawn_capture(v1, color, r, c, -1);
    let a2 = pawn_capture(v2, color, r, c, 1);
    let b2 = pawn_capture(v2, color, r, c, -1);
    assert(pawn_moves(v1, color, k, true) == a1 + b1);
    assert(pawn_moves(v2, color, k, true) == a2 + b2);
    lemma_enemies_among_append(v1, color, pk, a1, b1);
    lemma_enemies_among_append(v2, color, pk, a2, b2);
    lemma_pawn_capture_alike(v1, v2, color, pk, r, c, 1);
    lemma_pawn_capture_alike(v1, v2, color, pk, r, c, -1);
    // knights, lines and diagonals
    lemma_rays_alike(v1, v2, color, r, c, knight_dirs(), 1);
    lemma_rays_alike(v1, v2, color, r, c, rook_dirs(), 7);
    lemma_rays_alike(v1, v2, color, r, c, bishop_dirs(), 7);
    lemma_rays_alike(v1, v2, color, r, c, queen_dirs(), 1);
    lemma_rays_enterable(v1, color, r, c, knight_dirs(), 1);
    lemma_rays_enterable(v1, color, r, c, rook_dirs(), 7);
    lemma_rays_enterable(v1, color, r, c, bishop_dirs(), 7);
    lemma_rays_enterable(v1, color, r, c, queen_dirs(), 1);
    lemma_enemies_alike(v1, v2, color, nk, knight_moves(v1, color, k));
    lemma_enemies_alike(v1, v2, color, rk, rook_moves(v1, color, k));
    lemma_enemies_alike(v1, v2, color, bk, bishop_moves(v1, color, k));
    // the king: its castling squares are empty
    let s1 = rays(v1, color, r, c, queen_dirs(), 1);
    lemma_enemies_alike(v1, v2, color, kk, s1);
    lemma_enemies_among_append(v1, color, kk, s1, castle_moves(v1, color));
    lemma_enemies_among_append(v2, color, kk, s1, castle_moves(v2, color));
    lemma_castle_enemies(v1, color, kk);
    lemma_castle_enemies(v2, color, kk);
    assert(enemies_among(v1, color, kk, king_moves(v1, color, k)) == enemies_among(v2, color, kk, king_moves(v2, color, k)));
}

/// After an accepted move the board's check status is that of the position
/// reached: whether the side to move is attacked, and the first two of the
/// squares it is attacked from.
pub proof fn lemma_move_updates_check(v: BoardView, c: usize, t: usize)
    requires
        wf(v),
        move_refusal(v, c, t) is None,
    ensures
        ({
            let w = after_move(v, c, t);
            &&& w.checked == in_check(w, w.current_turn)
            &&& w.checkers == first_two(attackers(w, w.current_turn))
        }),
{
    let w = after_move(v, c, t);
    let p = placed(v, c, t);
    assert(alike_for(w.current_turn, p.squares, w.squares));
    lemma_attackers_alike(p, w, w.current_turn);
}

/// Whether each king stands on the square the board records for it and on
/// no other square, as in every game played from the start.
pub open spec fn kings_placed(v: BoardView) -> bool {
    forall|i: int|
        0 <= i < 64 ==> {
            &&& (#[trigger] v.squares[i] == king_of(PieceColor::White)) == (i == v.white_king_pos)
            &&& (v.squares[i] == king_of(PieceColor::Black)) == (i == v.black_king_pos)
        }
}

/// Whether the en passant square, when there is one, lies behind an
/// opposing pawn, as it does right after that pawn's double step.
pub open spec fn en_passant_behind_pawn(v: BoardView) -> bool {
    v.en_passant_target matches Some(e) ==> victim_present(v, v.current_turn, e as int)
}

/// An accepted move never leaves the mover's king attacked, on a board
/// whose kings and en passant square are where play puts them.
pub proof fn lemma_move_keeps_own_king_safe(v: BoardView, c: usize, t: usize)
    requires
        wf(v),
        kings_placed(v),
        en_passant_behind_pawn(v),
        c < 64,
        move_refusal(v, c, t) is None,
    ensures
        !in_check(after_move(v, c, t), v.current_turn),
{
    if is_castling_step(v, c, t) {
        lemma_legal_among_subset(v, c, piece_moves(v, c as int), t);
        lemma_castle_source(v, c, t);
        lemma_castling_keeps_own_king_safe(v, c, t);
    } else {
        lemma_plain_move_keeps_own_king_safe(v, c, t);
    }
}

/// An accepted move other than a castling never leaves the mover's king
/// attacked.
proof fn lemma_plain_move_keeps_own_king_safe(v: BoardView, c: usize, t: usize)
    requires
        wf(v),
        kings_placed(v),
        en_passant_behind_pawn(v),
        c < 64,
        move_refusal(v, c, t) is None,
        !is_castling_step(v, c, t),
    ensures
        !in_check(after_move(v, c, t), v.current_turn),
{
    let color = v.current_turn;
    let p = v.squares[c as int].unwrap();
    lemma_legal_among_subset(v, c, piece_moves(v, c as int), t);
    let j = choose|j: int| 0 <= j < piece_moves(v, c as int).len() && piece_moves(v, c as int)[j] == t;
    lemma_target_facts(v, c as int, j);
    let l = look_ahead(v, c, t);
    let w = after_move(v, c, t);
    let s = v.squares;
    assert(s[c as int] == king_of(PieceColor::White) <==> c == v.white_king_pos);
    assert(s[c as int] == king_of(PieceColor::Black) <==> c == v.black_king_pos);
    if p.piece_type == PieceType::Pawn && v.en_passant_target == Some(t) {
        let e = en_passant_victim(p.piece_color, t as int);
        assert(victim_present(v, color, t as int));
        assert(e != c);
    }
    assert forall|i: int| 0 <= i < 64 implies #[trigger] alike_at(color, l.squares, w.squares, i) by {
        if p.piece_type == PieceType::Pawn && v.en_passant_target == Some(t) {
            let e = en_passant_victim(p.piece_color, t as int);
            if i != e && i != c as int && i != t as int {
                assert(l.squares[i] == s[i]);
                assert(w.squares[i] == s[i]);
            }
        }
    }
    assert(king_square(l, color) == king_square(w, color));
    lemma_attackers_alike(l, w, color);
}

/// Whether a ray entering row `r` and moving `dr` rows a step stays off the
/// edge row `kr` of a king, or leaves the board at once.
pub open spec fn heads_away(kr: int, r: int, dr: int) -> bool {
    if kr == 0 {
        (dr > 0 && r >= 1) || (dr < 0 && r < 0)
    } else {
        (dr < 0 && r <= 6) || (dr > 0 && r > 7)
    }
}

proof fn lemma_ray_off_row(
    v1: BoardView,
    v2: BoardView,
    color: PieceColor,
    r: int,
    c: int,
    dr: int,
    dc: int,
    n: nat,
    kr: int,
)
    requires
        kr == 0 || kr == 7,
        alike_off_row(color, v1.squares, v2.squares, kr),
        heads_away(kr, r, dr),
    ensures
        ray(v1, color, r, c, dr, dc, n) == ray(v2, color, r, c, dr, dc, n),
        forall|k: int|
            0 <= k < ray(v1, color, r, c, dr, dc, n).len() ==> (#[trigger] ray(v1, color, r, c, dr, dc, n)[k])
                / 8 != kr,
    decreases n,
{
    if n > 0 && in_bounds(r, c) {
        lemma_ray_off_row(v1, v2, color, r + dr, c + dc, dr, dc, (n - 1) as nat, kr);
        let i = 8 * r + c;
        assert(i / 8 == r);
        assert(alike_at(color, v1.squares, v2.squares, i));
        let rest = ray(v1, color, r + dr, c + dc, dr, dc, (n - 1) as nat);
        let whole = ray(v1, color, r, c, dr, dc, n);
        assert forall|k: int| 0 <= k < whole.len() implies (#[trigger] whole[k]) / 8 != kr by {
            if v1.squares[i] is None {
                assert(whole == seq![i as usize] + rest);
                if k > 0 {
                    assert(whole[k] == rest[k - 1]);
                }
            }
        }
    }
}

proof fn lemma_rays_off_row(
    v1: BoardView,
    v2: BoardView,
    color: PieceColor,
    r: int,
    c: int,
    dirs: Seq<(isize, isize)>,
    n: nat,
    kr: int,
)
    requires
        kr == 0 || kr == 7,
        r == kr,
        alike_off_row(color, v1.squares, v2.squares, kr),
        forall|j: int| 0 <= j < dirs.len() ==> (#[trigger] dirs[j]).0 != 0,
    ensures
        rays(v1, color, r, c, dirs, n) == rays(v2, color, r, c, dirs, n),
        forall|k: int|
            0 <= k < rays(v1, color, r, c, dirs, n).len() ==> (#[trigger] rays(v1, color, r, c, dirs, n)[k]) / 8
                != kr,
    decreases dirs.len(),
{
    if dirs.len() > 0 {
        let d = dirs.last();
        let rest = dirs.drop_last();
        assert forall|j: int| 0 <= j < rest.len() implies (#[trigger] rest[j]).0 != 0 by {
            assert(rest[j] == dirs[j]);
        }
        assert(dirs[dirs.len() - 1].0 != 0);
        lemma_rays_off_row(v1, v2, color, r, c, rest, n, kr);
        lemma_ray_off_row(v1, v2, color, r + d.0, c + d.1, d.0 as int, d.1 as int, n, kr);
        let a = rays(v1, color, r, c, rest, n);
        let b = ray(v1, color, r + d.0, c + d.1, d.0 as int, d.1 as int, n);
        assert forall|k: int| 0 <= k < (a + b).len() implies (#[trigger] (a + b)[k]) / 8 != kr by {
            if k < a.len() {
                assert((a + b)[k] == a[k]);
            } else {
                assert((a + b)[k] == b[k - a.len()]);
            }
        }
    }
}

proof fn lemma_enemies_single(v: BoardView, color: PieceColor, kinds: Seq<PieceType>, x: usize)
    ensures
        enemies_among(v, color, kinds, seq![x]) == (if enemy_of_kind(v, color, kinds, x) {
            seq![x]
        } else {
            Seq::<usize>::empty()
        }),
{
    assert(seq![x].drop_last() =~= Seq::<usize>::empty());
    assert(enemies_among(v, color, kinds, Seq::<usize>::empty()) == Seq::<usize>::empty());
    assert(Seq::<usize>::empty().push(x) =~= seq![x]);
}

/// Along the edge row `kr` after a kingside castling, the king on column 6
/// meets no more attackers than in the position it was tested in, where the
/// piece now beside it still stood in the corner.
proof fn lemma_kingside_row(a: BoardView, l: BoardView, color: PieceColor, kinds: Seq<PieceType>, n: nat, kr: int)
    requires
        kr == 0 || kr == 7,
        n >= 1,
        a.squares[8 * kr + 7] is None,
        l.squares[8 * kr + 5] is None,
        a.squares[8 * kr + 5] is Some,
        a.squares[8 * kr + 5] == l.squares[8 * kr + 7],
    ensures
        (enemies_among(a, color, kinds, ray(a, color, kr, 7, 0, 1, n)) + enemies_among(
            a,
            color,
            kinds,
            ray(a, color, kr, 5, 0, -1, n),
        )).len() <= (enemies_among(l, color, kinds, ray(l, color, kr, 7, 0, 1, n)) + enemies_among(
            l,
            color,
            kinds,
            ray(l, color, kr, 5, 0, -1, n),
        )).len(),
{
    let corner = (8 * kr + 7) as usize;
    let beside = (8 * kr + 5) as usize;
    assert(corner as int == 8 * kr + 7 && beside as int == 8 * kr + 5);
    lemma_enemies_single(a, color, kinds, corner);
    lemma_enemies_single(a, color, kinds, beside);
    lemma_enemies_single(l, color, kinds, corner);
    assert(ray(a, color, kr, 8, 0, 1, (n - 1) as nat) == Seq::<usize>::empty());
    assert(ray(l, color, kr, 8, 0, 1, (n - 1) as nat) == Seq::<usize>::empty());
    let ae = ray(a, color, kr, 7, 0, 1, n);
    assert(ae == seq![corner]);
    assert(seq![corner].drop_last() =~= Seq::<usize>::empty());
    assert(enemies_among(a, color, kinds, ae) == Seq::<usize>::empty());
    let aw = ray(a, color, kr, 5, 0, -1, n);
    let le = ray(l, color, kr, 7, 0, 1, n);
    assert(seq![beside].drop_last() =~= Seq::<usize>::empty());
    if a.squares[8 * kr + 5].unwrap().piece_color != color {
        assert(aw == seq![beside]);
        assert(le == seq![corner]);
        assert(enemy_of_kind(a, color, kinds, beside) == enemy_of_kind(l, color, kinds, corner));
    } else {
        assert(aw == Seq::<usize>::empty());
    }
}

/// Along the edge row `kr` after a queenside castling, the king on column 2
/// meets no more attackers than in the position it was tested in, unless a
/// single step reaches an opposing piece of `kinds` now beside it.
proof fn lemma_queenside_row(a: BoardView, l: BoardView, color: PieceColor, kinds: Seq<PieceType>, n: nat, kr: int)
    requires
        kr == 0 || kr == 7,
        n >= 1,
        a.squares[8 * kr] is None,
        a.squares[8 * kr + 1] is None,
        l.squares[8 * kr + 1] is None,
        l.squares[8 * kr + 3] is None,
        a.squares[8 * kr + 3] is Some,
        a.squares[8 * kr + 3] == l.squares[8 * kr],
        n >= 2 || !enemy_of_kind(a, color, kinds, (8 * kr + 3) as usize),
    ensures
        (enemies_among(a, color, kinds, ray(a, color, kr, 3, 0, 1, n)) + enemies_among(
            a,
            color,
            kinds,
            ray(a, color, kr, 1, 0, -1, n),
        )).len() <= (enemies_among(l, color, kinds, ray(l, color, kr, 3, 0, 1, n)) + enemies_among(
            l,
            color,
            kinds,
            ray(l, color, kr, 1, 0, -1, n),
        )).len(),
{
    let corner = (8 * kr) as usize;
    let near = (8 * kr + 1) as usize;
    let beside = (8 * kr + 3) as usize;
    assert(corner as int == 8 * kr && near as int == 8 * kr + 1 && beside as int == 8 * kr + 3);
    lemma_enemies_single(a, color, kinds, near);
    lemma_enemies_single(l, color, kinds, near);
    lemma_enemies_single(a, color, kinds, beside);
    lemma_enemies_single(l, color, kinds, corner);
    assert(seq![corner].drop_last() =~= Seq::<usize>::empty());
    assert(seq![near].drop_last() =~= Seq::<usize>::empty());
    assert(seq![beside].drop_last() =~= Seq::<usize>::empty());
    // west of the king: empty squares up to the edge
    assert(ray(a, color, kr, -1, 0, -1, (n - 2) as nat) == Seq::<usize>::empty());
    let aw = ray(a, color, kr, 1, 0, -1, n);
    if n >= 2 {
        let aw0 = ray(a, color, kr, 0, 0, -1, (n - 1) as nat);
        assert(aw0 == seq![corner]);
        assert(aw == seq![near] + seq![corner]);
        assert(seq![near] + seq![corner] =~= seq![near, corner]);
        assert(seq![near, corner].drop_last() =~= seq![near]);
        assert(enemies_among(a, color, kinds, seq![near]) == Seq::<usize>::empty());
        assert(enemies_among(a, color, kinds, aw) == Seq::<usize>::empty());
    } else {
        assert(ray(a, color, kr, 0, 0, -1, 0) == Seq::<usize>::empty());
        assert(aw == seq![near] + Seq::<usize>::empty());
        assert(aw =~= seq![near]);
        assert(enemies_among(a, color, kinds, aw) == Seq::<usize>::empty());
    }
    let ae = ray(a, color, kr, 3, 0, 1, n);
    let le = ray(l, color, kr, 3, 0, 1, n);
    let lw = ray(l, color, kr, 1, 0, -1, n);
    if a.squares[8 * kr + 3].unwrap().piece_color != color {
        assert(ae == seq![beside]);
        if n >= 2 {
            assert(ray(l, color, kr, -1, 0, -1, (n - 2) as nat) == Seq::<usize>::empty());
            assert(ray(l, color, kr, 0, 0, -1, (n - 1) as nat) == seq![corner]);
            assert(lw == seq![near] + seq![corner]);
            assert(seq![near] + seq![corner] =~= seq![near, corner]);
            assert(seq![near, corner].drop_last() =~= seq![near]);
            assert(enemy_of_kind(a, color, kinds, beside) == enemy_of_kind(l, color, kinds, corner));
            assert(enemies_among(l, color, kinds, seq![near]) == Seq::<usize>::empty());
            assert(enemies_among(a, color, kinds, ae).len() == enemies_among(l, color, kinds, lw).len());
        } else {
            assert(enemies_among(a, color, kinds, ae) == Seq::<usize>::empty());
        }
    } else {
        assert(ae == Seq::<usize>::empty());
    }
}

/// A castling the board accepts comes from the castling moves of the king,
/// so the squares between king and rook are empty and the rook stands on
/// its corner.
proof fn lemma_castle_source(v: BoardView, c: usize, t: usize)
    requires
        wf(v),
        c < 64,
        v.squares[c as int] is Some,
        piece_moves(v, c as int).contains(t),
        is_castling_step(v, c, t),
    ensures
        ({
            let s = v.squares;
            &&& v.squares[c as int].unwrap().piece_color == PieceColor::White ==> c == 4 && (
            (t == 6 && s[5] is None && s[6] is None && own_rook_at(v, 7, PieceColor::White)) || (t == 2
                && s[1] is None && s[2] is None && s[3] is None && own_rook_at(v, 0, PieceColor::White)))
            &&& v.squares[c as int].unwrap().piece_color == PieceColor::Black ==> c == 60 && (
            (t == 62 && s[61] is None && s[62] is None && own_rook_at(v, 63, PieceColor::Black)) || (t
                == 58 && s[57] is None && s[58] is None && s[59] is None && own_rook_at(
                v,
                56,
                PieceColor::Black,
            )))
        }),
{
    let color = v.squares[c as int].unwrap().piece_color;
    let ms = piece_moves(v, c as int);
    let j = choose|j: int| 0 <= j < ms.len() && ms[j] == t;
    lemma_target_facts(v, c as int, j);
    let r = c / 8;
    let col = c % 8;
    let rs = rays(v, color, r as int, col as int, queen_dirs(), 1);
    let cm = castle_moves(v, color);
    assert(ms == rs + cm);
    if j < rs.len() {
        lemma_step_rays(v, color, r as int, col as int, queen_dirs());
        assert(ms[j] == rs[j]);
        let d = queen_dirs();
        let k = choose|k: int| 0 <= k < d.len() && rs[j] == 8 * (r + (#[trigger] d[k]).0) + col + d[k].1;
        assert(false);
    } else {
        assert(ms[j] == cm[j - rs.len()]);
        let s = v.squares;
        if color == PieceColor::White {
            let a = if v.castle_rights.white_kingside && s[5] is None && s[6] is None && own_rook_at(v, 7, PieceColor::White) {
                seq![6usize]
            } else {
                Seq::empty()
            };
            let b = if v.castle_rights.white_queenside && s[1] is None && s[2] is None && s[3] is None && own_rook_at(v, 0, PieceColor::White) {
                seq![2usize]
            } else {
                Seq::empty()
            };
            assert(cm == a + b);
            if j - rs.len() < a.len() {
                assert(cm[j - rs.len()] == a[j - rs.len()]);
            } else {
                assert(cm[j - rs.len()] == b[j - rs.len() - a.len()]);
            }
        } else {
            let a = if v.castle_rights.black_kingside && s[61] is None && s[62] is None && own_rook_at(v, 63, PieceColor::Black) {
                seq![62usize]
            } else {
                Seq::empty()
            };
            let b = if v.castle_rights.black_queenside && s[57] is None && s[58] is None && s[59] is None && own_rook_at(v, 56, PieceColor::Black) {
                seq![58usize]
            } else {
                Seq::empty()
            };
            assert(cm == a + b);
            if j - rs.len() < a.len() {
                assert(cm[j - rs.len()] == a[j - rs.len()]);
            } else {
                assert(cm[j - rs.len()] == b[j - rs.len() - a.len()]);
            }
        }
    }
}

/// An accepted castling, its rook carried from the corner beside the king,
/// never leaves the castling king attacked.
proof fn lemma_castling_keeps_own_king_safe(v: BoardView, c: usize, t: usize)
    requires
        wf(v),
        kings_placed(v),
        c < 64,
        move_refusal(v, c, t) is None,
        is_castling_step(v, c, t),
        !(c == t + 2 && v.squares[c - 4] == king_of(opponent(v.current_turn))),
    ensures
        !in_check(after_move(v, c, t), v.current_turn),
{
    let color = v.current_turn;
    let s = v.squares;
    lemma_legal_among_subset(v, c, piece_moves(v, c as int), t);
    lemma_castle_source(v, c, t);
    let kr: int = if color == PieceColor::White {
        0
    } else {
        7
    };
    let kingside = t == c + 2;
    let corner: int = if kingside {
        c + 3
    } else {
        c - 4
    };
    let rdest: int = if kingside {
        c + 1
    } else {
        c - 1
    };
    let l = look_ahead(v, c, t);
    let w = after_move(v, c, t);
    assert(s[c as int] == king_of(color));
    assert(s[c as int] == king_of(PieceColor::White) <==> c == v.white_king_pos);
    assert(s[c as int] == king_of(PieceColor::Black) <==> c == v.black_king_pos);
    assert(king_square(l, color) == t);
    assert(king_square(w, color) == t);
    let ls = relocated(s, c as int, t as int);
    assert(l.squares == ls);
    assert(w.squares == relocated(ls, corner, rdest));
    let x = s[corner];
    assert(ls[corner] == x);
    assert(ls[rdest] is None);
    if x is None {
        assert(w.squares =~= l.squares);
        assert(alike_for(color, w.squares, l.squares));
        lemma_attackers_alike(w, l, color);
    } else {
        assert forall|i: int| 0 <= i < 64 && i / 8 != kr implies #[trigger] alike_at(color, w.squares, l.squares, i) by {
            assert(i != corner && i != rdest && i != c && i != t);
        }
        lemma_castled_attackers(w, l, color, t, kr, kingside);
    }
}

/// How the position after a castling of the king of `color` to `t`, on edge
/// row `kr`, relates to the position the castling was tested in: alike off
/// the edge row, and along it the piece from the corner now beside the king.
spec fn castled_pair(w: BoardView, l: BoardView, color: PieceColor, t: usize, kr: int, kingside: bool) -> bool {
    &&& kr == 0 || kr == 7
    &&& color == PieceColor::White ==> kr == 0
    &&& color == PieceColor::Black ==> kr == 7
    &&& t / 8 == kr
    &&& kingside ==> t % 8 == 6
    &&& !kingside ==> t % 8 == 2
    &&& king_square(w, color) == t
    &&& king_square(l, color) == t
    &&& alike_off_row(color, w.squares, l.squares, kr)
    &&& kingside ==> {
        &&& w.squares[8 * kr + 7] is None
        &&& l.squares[8 * kr + 5] is None
        &&& w.squares[8 * kr + 5] is Some
        &&& w.squares[8 * kr + 5] == l.squares[8 * kr + 7]
    }
    &&& !kingside ==> {
        &&& w.squares[8 * kr] is None
        &&& w.squares[8 * kr + 1] is None
        &&& l.squares[8 * kr + 1] is None
        &&& l.squares[8 * kr + 3] is None
        &&& w.squares[8 * kr + 3] is Some
        &&& w.squares[8 * kr + 3] == l.squares[8 * kr]
        &&& !enemy_of_kind(w, color, seq![PieceType::King], (8 * kr + 3) as usize)
    }
}

/// The castled king meets no more attackers on lines than before.
proof fn lemma_castled_lines(w: BoardView, l: BoardView, color: PieceColor, t: usize, kr: int, kingside: bool)
    requires
        castled_pair(w, l, color, t, kr, kingside),
    ensures
        enemies_among(w, color, seq![PieceType::Rook, PieceType::Queen], rook_moves(w, color, t as int)).len()
            <= enemies_among(l, color, seq![PieceType::Rook, PieceType::Queen], rook_moves(l, color, t as int)).len(),
{
    let k = t as int;
    let r = k / 8;
    let col = k % 8;
    let rk = seq![PieceType::Rook, PieceType::Queen];
    let rd = rook_dirs();
    let vp = seq![(1isize, 0isize), (-1isize, 0isize)];
    let rd3 = vp.push((0isize, 1isize));
    assert(rd.drop_last() =~= rd3);
    assert(rd3.drop_last() =~= vp);
    lemma_rays_off_row(w, l, color, r, col, vp, 7, kr);
    lemma_rays_enterable(w, color, r, col, vp, 7);
    let rvw = rays(w, color, r, col, vp, 7);
    let rvl = rays(l, color, r, col, vp, 7);
    lemma_enemies_alike(w, l, color, rk, rvw);
    let rew = ray(w, color, r, col + 1, 0, 1, 7);
    let rww = ray(w, color, r, col - 1, 0, -1, 7);
    let rel = ray(l, color, r, col + 1, 0, 1, 7);
    let rwl = ray(l, color, r, col - 1, 0, -1, 7);
    assert(rd.last() == (0isize, -1isize));
    assert(rd3.last() == (0isize, 1isize));
    assert(rays(w, color, r, col, rd3, 7) == rvw + rew);
    assert(rays(l, color, r, col, rd3, 7) == rvl + rel);
    assert(rook_moves(w, color, k) == rvw + rew + rww);
    assert(rook_moves(l, color, k) == rvl + rel + rwl);
    lemma_enemies_among_append(w, color, rk, rvw + rew, rww);
    lemma_enemies_among_append(w, color, rk, rvw, rew);
    lemma_enemies_among_append(l, color, rk, rvl + rel, rwl);
    lemma_enemies_among_append(l, color, rk, rvl, rel);
    if kingside {
        lemma_kingside_row(w, l, color, rk, 7, kr);
    } else {
        lemma_queenside_row(w, l, color, rk, 7, kr);
    }
}

/// The castled king meets no more opposing kings beside it than before.
proof fn lemma_castled_steps(w: BoardView, l: BoardView, color: PieceColor, t: usize, kr: int, kingside: bool)
    requires
        castled_pair(w, l, color, t, kr, kingside),
    ensures
        enemies_among(w, color, seq![PieceType::King], king_moves(w, color, t as int)).len()
            <= enemies_among(l, color, seq![PieceType::King], king_moves(l, color, t as int)).len(),
{
    let k = t as int;
    let r = k / 8;
    let col = k % 8;
    let kk = seq![PieceType::King];
    let qd = queen_dirs();
    let six = seq![(1isize, 1isize), (-1isize, 1isize), (1isize, -1isize), (-1isize, -1isize), (1isize, 0isize), (-1isize, 0isize)];
    let qd7 = six.push((0isize, 1isize));
    assert(qd.drop_last() =~= qd7);
    assert(qd7.drop_last() =~= six);
    lemma_rays_off_row(w, l, color, r, col, six, 1, kr);
    lemma_rays_enterable(w, color, r, col, six, 1);
    let svw = rays(w, color, r, col, six, 1);
    let svl = rays(l, color, r, col, six, 1);
    lemma_enemies_alike(w, l, color, kk, svw);
    let sew = ray(w, color, r, col + 1, 0, 1, 1);
    let sww = ray(w, color, r, col - 1, 0, -1, 1);
    let sel = ray(l, color, r, col + 1, 0, 1, 1);
    let swl = ray(l, color, r, col - 1, 0, -1, 1);
    let cw = castle_moves(w, color);
    let cl = castle_moves(l, color);
    assert(qd.last() == (0isize, -1isize));
    assert(qd7.last() == (0isize, 1isize));
    assert(rays(w, color, r, col, qd7, 1) == svw + sew);
    assert(rays(l, color, r, col, qd7, 1) == svl + sel);
    assert(king_moves(w, color, k) == svw + sew + sww + cw);
    assert(king_moves(l, color, k) == svl + sel + swl + cl);
    lemma_enemies_among_append(w, color, kk, svw + sew + sww, cw);
    lemma_enemies_among_append(w, color, kk, svw + sew, sww);
    lemma_enemies_among_append(w, color, kk, svw, sew);
    lemma_enemies_among_append(l, color, kk, svl + sel + swl, cl);
    lemma_enemies_among_append(l, color, kk, svl + sel, swl);
    lemma_enemies_among_append(l, color, kk, svl, sel);
    lemma_castle_enemies(w, color, kk);
    lemma_castle_enemies(l, color, kk);
    if kingside {
        lemma_kingside_row(w, l, color, kk, 1, kr);
    } else {
        lemma_queenside_row(w, l, color, kk, 1, kr);
    }
}

/// The castled king meets no more attackers than in the position the
/// castling was tested in.
proof fn lemma_castled_attackers(w: BoardView, l: BoardView, color: PieceColor, t: usize, kr: int, kingside: bool)
    requires
        castled_pair(w, l, color, t, kr, kingside),
    ensures
        attackers(w, color).len() <= attackers(l, color).len(),
{
    reveal(attackers);
    let k = t as int;
    let r = k / 8;
    let col = k % 8;
    let pk = seq![PieceType::Pawn];
    let nk = seq![PieceType::Knight];
    let bk = seq![PieceType::Bishop, PieceType::Queen];
    // pawns: the squares a pawn attacks the king from lie off the edge row
    let rr = r + pawn_step(color);
    assert((8 * rr + col + 1) / 8 == rr);
    assert((8 * rr + col - 1) / 8 == rr);
    let a1 = pawn_capture(w, color, r, col, 1);
    let b1 = pawn_capture(w, color, r, col, -1);
    let a2 = pawn_capture(l, color, r, col, 1);
    let b2 = pawn_capture(l, color, r, col, -1);
    assert(pawn_moves(w, color, k, true) == a1 + b1);
    assert(pawn_moves(l, color, k, true) == a2 + b2);
    lemma_enemies_among_append(w, color, pk, a1, b1);
    lemma_enemies_among_append(l, color, pk, a2, b2);
    lemma_pawn_capture_alike(w, l, color, pk, r, col, 1);
    lemma_pawn_capture_alike(w, l, color, pk, r, col, -1);
    // knights and diagonals leave the edge row at once
    lemma_rays_off_row(w, l, color, r, col, knight_dirs(), 1, kr);
    lemma_rays_off_row(w, l, color, r, col, bishop_dirs(), 7, kr);
    lemma_rays_enterable(w, color, r, col, knight_dirs(), 1);
    lemma_rays_enterable(w, color, r, col, bishop_dirs(), 7);
    lemma_enemies_alike(w, l, color, nk, knight_moves(w, color, k));
    lemma_enemies_alike(w, l, color, bk, bishop_moves(w, color, k));
    lemma_castled_lines(w, l, color, t, kr, kingside);
    lemma_castled_steps(w, l, color, t, kr, kingside);
}

/// The starting position has each king on its recorded square and no en
/// passant square.
pub proof fn lemma_start_position_placed(v: BoardView)
    requires
        start_position(v),
    ensures
        kings_placed(v),
        en_passant_behind_pawn(v),
{
    assert forall|i: int| 0 <= i < 64 implies {
        &&& (#[trigger] v.squares[i] == king_of(PieceColor::White)) == (i == v.white_king_pos)
        &&& (v.squares[i] == king_of(PieceColor::Black)) == (i == v.black_king_pos)
    } by {
        assert(v.squares[i] == initial_square(i));
    }
}

/// The targets of a pawn lie one row ahead of it, or two for the step
/// straight ahead from its starting row.
proof fn lemma_pawn_targets(v: BoardView, color: PieceColor, idx: int, t: usize)
    requires
        0 <= idx < 64,
        pawn_moves(v, color, idx, false).contains(t),
    ensures
        t as int / 8 == idx / 8 + pawn_step(color) || (t as int == idx + 16 * pawn_step(color) && t as int
            / 8 == idx / 8 + 2 * pawn_step(color)),
{
    let r = idx / 8;
    let c = idx % 8;
    let p1 = pawn_capture(v, color, r, c, 1);
    let p2 = pawn_capture(v, color, r, c, -1);
    let pa = pawn_advance(v, color, r, c);
    let ms = p1 + p2 + pa;
    assert(pawn_moves(v, color, idx, false) == ms);
    let k = choose|k: int| 0 <= k < ms.len() && ms[k] == t;
    if k < p1.len() {
        assert(ms[k] == p1[k]);
    } else if k < p1.len() + p2.len() {
        assert(ms[k] == p2[k - p1.len()]);
    } else {
        assert(ms[k] == pa[k - p1.len() - p2.len()]);
    }
}

/// After an accepted move the en passant square, when there is one, lies
/// behind the pawn that just made its double step.
pub proof fn lemma_move_sets_en_passant_behind_pawn(v: BoardView, c: usize, t: usize)
    requires
        wf(v),
        c < 64,
        move_refusal(v, c, t) is None,
    ensures
        en_passant_behind_pawn(after_move(v, c, t)),
{
    let w = after_move(v, c, t);
    let p = v.squares[c as int].unwrap();
    lemma_legal_among_subset(v, c, piece_moves(v, c as int), t);
    let j = choose|j: int| 0 <= j < piece_moves(v, c as int).len() && piece_moves(v, c as int)[j] == t;
    lemma_target_facts(v, c as int, j);
    if p.piece_type == PieceType::Pawn && (t == c + 16 || c == t + 16) {
        lemma_pawn_targets(v, p.piece_color, c as int, t);
        let e = ((c + t) / 2) as usize;
        assert(w.en_passant_target == Some(e));
        assert(en_passant_victim(w.current_turn, e as int) == t as int);
        assert(8 <= t < 56);
        if v.en_passant_target == Some(t) {
            assert(en_passant_victim(p.piece_color, t as int) != t as int);
        }
        assert(w.squares[t as int] == Some(p));
    }
}

/// A piece moves onto an empty square or onto a piece of the other side.
proof fn lemma_target_open(v: BoardView, c: usize, t: usize)
    requires
        wf(v),
        c < 64,
        v.squares[c as int] is Some,
        piece_moves(v, c as int).contains(t),
    ensures
        t < 64,
        v.squares[t as int] is None || v.squares[t as int].unwrap().piece_color != v.squares[c as int].unwrap().piece_color,
{
    let ms = piece_moves(v, c as int);
    let j = choose|j: int| 0 <= j < ms.len() && ms[j] == t;
    lemma_moves_enterable(v, v.squares[c as int].unwrap().piece_color, c as int);
    assert(ms[j] == t);
}

/// The kings of `col` after a move: the moved piece's square `t` takes the
/// content of `c`, the squares in `cleared` and `c` are emptied, and no
/// other square changes, save one that takes no king of `col`.
proof fn lemma_kings_of_col_placed(
    s: Seq<Option<Piece>>,
    ns: Seq<Option<Piece>>,
    c: int,
    t: int,
    pos: int,
    npos: int,
    col: PieceColor,
)
    requires
        0 <= c < 64,
        0 <= t < 64,
        c != t,
        0 <= pos < 64,
        forall|i: int| 0 <= i < 64 ==> (#[trigger] s[i] == king_of(col)) == (i == pos),
        s[t] != king_of(col),
        ns[t] == king_of(col) <==> s[c] == king_of(col),
        ns[c] != king_of(col),
        npos == (if s[c] == king_of(col) {
            t
        } else {
            pos
        }),
        forall|i: int| 0 <= i < 64 && i != c && i != t ==> (#[trigger] ns[i] == king_of(col)) ==> s[i] == king_of(col),
        forall|i: int| 0 <= i < 64 && i != c && i != t && #[trigger] s[i] == king_of(col) ==> ns[i] == s[i],
    ensures
        forall|i: int| 0 <= i < 64 ==> (#[trigger] ns[i] == king_of(col)) == (i == npos),
{
    assert forall|i: int| 0 <= i < 64 implies (#[trigger] ns[i] == king_of(col)) == (i == npos) by {
        assert(s[i] == king_of(col) <==> i == pos);
        assert(s[c] == king_of(col) <==> c == pos);
    }
}

/// An accepted move that takes no king leaves each king on the square the
/// board records for it, on a board whose kings and en passant square are
/// where play puts them.
#[verifier::rlimit(60)]
#[verifier::spinoff_prover]
pub proof fn lemma_move_keeps_kings_placed(v: BoardView, c: usize, t: usize)
    requires
        wf(v),
        kings_placed(v),
        en_passant_behind_pawn(v),
        c < 64,
        move_refusal(v, c, t) is None,
        v.squares[t as int] != king_of(opponent(v.current_turn)),
    ensures
        kings_placed(after_move(v, c, t)),
{
    let color = v.current_turn;
    let s = v.squares;
    let p = s[c as int].unwrap();
    let w = after_move(v, c, t);
    let ns = w.squares;
    let ms = piece_moves(v, c as int);
    lemma_legal_among_subset(v, c, ms, t);
    let j = choose|j: int| 0 <= j < ms.len() && ms[j] == t;
    lemma_target_facts(v, c as int, j);
    lemma_target_open(v, c, t);
    assert(s[c as int] == king_of(PieceColor::White) <==> c == v.white_king_pos);
    assert(s[c as int] == king_of(PieceColor::Black) <==> c == v.black_king_pos);
    assert(s[v.white_king_pos as int] == king_of(PieceColor::White));
    assert(s[v.black_king_pos as int] == king_of(PieceColor::Black));
    if is_castling_step(v, c, t) {
        lemma_castle_source(v, c, t);
        let corner: int = if t == c + 2 {
            c + 3
        } else {
            c - 4
        };
        assert(s[corner] != king_of(PieceColor::White) && s[corner] != king_of(PieceColor::Black)) by {
            if s[corner] == king_of(color) {
                assert(s[corner] == king_of(PieceColor::White) ==> corner == v.white_king_pos);
                assert(s[corner] == king_of(PieceColor::Black) ==> corner == v.black_king_pos);
            }
        }
    }
    if p.piece_type == PieceType::Pawn && v.en_passant_target == Some(t) {
        let e = en_passant_victim(p.piece_color, t as int);
        assert(victim_present(v, color, t as int));
        assert(s[e] != king_of(PieceColor::White) && s[e] != king_of(PieceColor::Black));
    }
    assert(forall|i: int| 0 <= i < 64 ==> (#[trigger] s[i] == king_of(PieceColor::White)) == (i == v.white_king_pos));
    assert(forall|i: int| 0 <= i < 64 ==> (#[trigger] s[i] == king_of(PieceColor::Black)) == (i == v.black_king_pos));
    lemma_kings_of_col_placed(s, ns, c as int, t as int, v.white_king_pos as int, w.white_king_pos as int, PieceColor::White);
    lemma_kings_of_col_placed(s, ns, c as int, t as int, v.black_king_pos as int, w.black_king_pos as int, PieceColor::Black);
}

/// The legal moves of a piece are exactly those of its moves by pattern
/// that leave its king safe.
pub proof fn lemma_valid_moves_are_safe_moves(v: BoardView, idx: usize, t: usize)
    ensures
        valid_moves(v, idx as int).contains(t) <==> piece_moves(v, idx as int).contains(t) && leaves_king_safe(v, idx, t),
{
    if valid_moves(v, idx as int).contains(t) {
        lemma_legal_among_subset(v, idx, piece_moves(v, idx as int), t);
    }
    if piece_moves(v, idx as int).contains(t) && leaves_king_safe(v, idx, t) {
        lemma_safe_moves_kept(v, idx, piece_moves(v, idx as int), t);
    }
}

proof fn lemma_safe_moves_kept(v: BoardView, idx: usize, moves: Seq<usize>, t: usize)
    requires
        moves.contains(t),
        leaves_king_safe(v, idx, t),
    ensures
        legal_among(v, idx, moves).contains(t),
    decreases moves.len(),
{
    let rest = legal_among(v, idx, moves.drop_last());
    if moves.last() == t {
        assert(legal_among(v, idx, moves) == rest.push(t));
        assert(rest.push(t)[rest.len() as int] == t);
    } else {
        let k = choose|k: int| 0 <= k < moves.len() && moves[k] == t;
        assert(moves.drop_last()[k] == t);
        lemma_safe_moves_kept(v, idx, moves.drop_last(), t);
        let j = choose|j: int| 0 <= j < rest.len() && rest[j] == t;
        if leaves_king_safe(v, idx, moves.last()) {
            assert(rest.push(moves.last())[j] == t);
        }
    }
}

/// Once a game is over every move is refused, so the board stays as it is.
pub proof fn lemma_finished_game_refuses_moves(v: BoardView, c: usize, t: usize)
    requires
        v.game_over,
    ensures
        move_refusal(v, c, t) == Some("Game is already over"@),
{
}

/// Whether a position is one play keeps reaching: a well-formed board, each
/// king on its recorded square, the en passant square behind the pawn that
/// made its double step, the side that just moved not in check, and the
/// check marker telling whether the side to move is in check and from where.
pub open spec fn sound(v: BoardView) -> bool {
    &&& wf(v)
    &&& kings_placed(v)
    &&& en_passant_behind_pawn(v)
    &&& !in_check(v, opponent(v.current_turn))
    &&& v.checked == in_check(v, v.current_turn)
    &&& v.checkers == first_two(attackers(v, v.current_turn))
}

/// Every accepted move keeps a sound position sound. In particular no
/// accepted move ever takes a king.
pub proof fn lemma_move_keeps_position_sound(v: BoardView, c: usize, t: usize)
    requires
        sound(v),
        c < 64,
        move_refusal(v, c, t) is None,
    ensures
        sound(after_move(v, c, t)),
        v.squares[t as int] != king_of(opponent(v.current_turn)),
{
    let color = v.current_turn;
    let w = after_move(v, c, t);
    let ms = piece_moves(v, c as int);
    lemma_legal_among_subset(v, c, ms, t);
    lemma_placed_wf(v, c, t);
    lemma_target_open(v, c, t);
    if v.squares[t as int] == king_of(opponent(color)) {
        assert(v.squares[t as int] == king_of(PieceColor::White) <==> t == v.white_king_pos);
        assert(v.squares[t as int] == king_of(PieceColor::Black) <==> t == v.black_king_pos);
        lemma_capture_is_attack(v, c, t);
    }
    lemma_move_keeps_kings_placed(v, c, t);
    lemma_move_sets_en_passant_behind_pawn(v, c, t);
    lemma_move_keeps_own_king_safe(v, c, t);
    lemma_move_updates_check(v, c, t);
    assert(opponent(w.current_turn) == color);
}

/// The starting position is sound: neither king is attacked and the check
/// marker is clear. So by the law above every position a game reaches
/// through accepted moves is sound.
pub proof fn lemma_start_position_sound(v: BoardView)
    requires
        start_position(v),
    ensures
        sound(v),
{
    lemma_start_position_placed(v);
    lemma_start_black_king_safe(v);
    lemma_start_white_king_safe(v);
    assert(attackers(v, PieceColor::White) =~= Seq::<usize>::empty());
    assert(v.checkers =~= first_two(attackers(v, PieceColor::White)));
    assert forall|i: int| 0 <= i < 64 && #[trigger] v.squares[i] == king_of(PieceColor::White) implies i == 4 by {
        assert(v.squares[i] == initial_square(i));
    }
    assert forall|i: int| 0 <= i < 64 && #[trigger] v.squares[i] == king_of(PieceColor::Black) implies i == 60 by {
        assert(v.squares[i] == initial_square(i));
    }
}

/// A pawn that an accepted move brings to the first or last row becomes a
/// queen of the mover's colour, whichever colour moves.
pub proof fn lemma_pawn_promotes_to_queen(v: BoardView, c: usize, t: usize)
    requires
        wf(v),
        c < 64,
        move_refusal(v, c, t) is None,
        v.squares[c as int].unwrap().piece_type == PieceType::Pawn,
        t < 8 || t > 55,
    ensures
        after_move(v, c, t).squares[t as int] == Some(
            Piece { piece_type: PieceType::Queen, piece_color: v.current_turn },
        ),
{
    lemma_legal_among_subset(v, c, piece_moves(v, c as int), t);
    lemma_target_open(v, c, t);
    let color = v.squares[c as int].unwrap().piece_color;
    assert(en_passant_victim(color, t as int) != t as int);
}

/// How the castling rights change with a move: a king gives up both rights
/// of its side; a rook leaving a corner gives up the right of that corner
/// (a1 white queenside, h1 white kingside, a8 black queenside, h8 black
/// kingside); a piece landing on a corner takes that corner's right; every
/// other right is kept.
pub proof fn lemma_move_castle_rights(v: BoardView, c: usize, t: usize)
    requires
        v.squares[c as int] is Some,
    ensures
        ({
            let p = v.squares[c as int].unwrap();
            let rights = after_move(v, c, t).castle_rights;
            let white_king = p == Piece { piece_type: PieceType::King, piece_color: PieceColor::White };
            let black_king = p == Piece { piece_type: PieceType::King, piece_color: PieceColor::Black };
            let rook = p.piece_type == PieceType::Rook;
            &&& rights.white_queenside == (v.castle_rights.white_queenside && !white_king && !(rook && c == 0)
                && t != 0)
            &&& rights.white_kingside == (v.castle_rights.white_kingside && !white_king && !(rook && c == 7)
                && t != 7)
            &&& rights.black_queenside == (v.castle_rights.black_queenside && !black_king && !(rook && c == 56)
                && t != 56)
            &&& rights.black_kingside == (v.castle_rights.black_kingside && !black_king && !(rook && c == 63)
                && t != 63)
        }),
{
}

/// A king may castle, on either side, only when it is not attacked on the
/// square it crosses: with the king standing on that square (the rook not
/// yet moved) no opposing piece attacks it.
pub proof fn lemma_castling_crosses_safe_square(v: BoardView, c: usize, t: usize)
    requires
        wf(v),
        c < 64,
        move_refusal(v, c, t) is None,
        v.squares[c as int].unwrap().piece_type == PieceType::King,
        t == c + 2 || c == t + 2,
    ensures
        ({
            let cross: int = if t > c {
                c + 1
            } else {
                c - 1
            };
            let king = v.squares[c as int];
            let crossing = BoardView {
                squares: v.squares.update(c as int, None).update(cross, king),
                white_king_pos: if v.current_turn == PieceColor::White {
                    cross as usize
                } else {
                    v.white_king_pos
                },
                black_king_pos: if v.current_turn == PieceColor::Black {
                    cross as usize
                } else {
                    v.black_king_pos
                },
                ..v
            };
            kings_placed(v) ==> !in_check(crossing, v.current_turn)
        }),
{
    lemma_legal_among_subset(v, c, piece_moves(v, c as int), t);
    let cross: int = if t > c {
        c + 1
    } else {
        c - 1
    };
    let king = v.squares[c as int];
    let color = v.current_turn;
    let crossing = BoardView {
        squares: v.squares.update(c as int, None).update(cross, king),
        white_king_pos: if color == PieceColor::White {
            cross as usize
        } else {
            v.white_king_pos
        },
        black_king_pos: if color == PieceColor::Black {
            cross as usize
        } else {
            v.black_king_pos
        },
        ..v
    };
    if kings_placed(v) {
        assert(v.squares[c as int] == king_of(PieceColor::White) <==> c == v.white_king_pos);
        assert(v.squares[c as int] == king_of(PieceColor::Black) <==> c == v.black_king_pos);
        assert(crossing == crate::model::passing_view(v, c, t));
    }
}

/// For either colour, a pawn may take en passant: when the en passant
/// square lies diagonally ahead of it and an opposing pawn stands beside
/// it, on its own row below that square, the square is among its moves.
pub proof fn lemma_en_passant_offered(v: BoardView, c: usize, e: usize, dc: int)
    requires
        c < 64,
        dc == 1 || dc == -1,
        v.squares[c as int] is Some,
        v.squares[c as int].unwrap().piece_type == PieceType::Pawn,
        v.en_passant_target == Some(e),
        in_bounds(c / 8 + pawn_step(v.squares[c as int].unwrap().piece_color), c % 8 + dc),
        e == 8 * (c / 8 + pawn_step(v.squares[c as int].unwrap().piece_color)) + c % 8 + dc,
        v.squares[e as int] is None,
        v.squares[c + dc] is Some,
        v.squares[c + dc].unwrap().piece_type == PieceType::Pawn,
        v.squares[c + dc].unwrap().piece_color != v.squares[c as int].unwrap().piece_color,
    ensures
        piece_moves(v, c as int).contains(e),
{
    let color = v.squares[c as int].unwrap().piece_color;
    let r = c as int / 8;
    let col = c as int % 8;
    assert(en_passant_victim(color, e as int) == c + dc);
    let pc = pawn_capture(v, color, r, col, dc);
    assert(pc == seq![e]);
    let p1 = pawn_capture(v, color, r, col, 1);
    let p2 = pawn_capture(v, color, r, col, -1);
    let pa = pawn_advance(v, color, r, col);
    assert(piece_moves(v, c as int) == p1 + p2 + pa);
    if dc == 1 {
        assert((p1 + p2 + pa)[0] == e);
    } else {
        assert((p1 + p2 + pa)[p1.len() as int] == e);
    }
}

/// A pawn that takes en passant removes the pawn it passed: the square on
/// the capturing pawn's row, in the column it lands in, is left empty.
pub proof fn lemma_en_passant_removes_pawn(v: BoardView, c: usize, t: usize)
    requires
        wf(v),
        c < 64,
        move_refusal(v, c, t) is None,
        v.squares[c as int].unwrap().piece_type == PieceType::Pawn,
        v.en_passant_target == Some(t),
    ensures
        after_move(v, c, t).squares[8 * (c as int / 8) + t as int % 8] is None,
        after_move(v, c, t).squares[t as int] is Some,
        after_move(v, c, t).squares[t as int].unwrap().piece_color == v.current_turn,
{
    let ms = piece_moves(v, c as int);
    lemma_legal_among_subset(v, c, ms, t);
    lemma_target_open(v, c, t);
    let j = choose|j: int| 0 <= j < ms.len() && ms[j] == t;
    lemma_target_facts(v, c as int, j);
    let color = v.squares[c as int].unwrap().piece_color;
    lemma_pawn_targets(v, color, c as int, t);
    assert(en_passant_victim(color, t as int) != t as int);
}

/// Castling carries the rook from its corner to the square the king
/// crossed: kingside h1 to f1 (h8 to f8), queenside a1 to d1 (a8 to d8).
pub proof fn lemma_castling_moves_rook(v: BoardView, c: usize, t: usize)
    requires
        wf(v),
        c < 64,
        move_refusal(v, c, t) is None,
        v.squares[c as int].unwrap().piece_type == PieceType::King,
        t == c + 2 || c == t + 2,
    ensures
        ({
            let s = after_move(v, c, t).squares;
            let rook = Some(Piece { piece_type: PieceType::Rook, piece_color: v.current_turn });
            let king = Some(Piece { piece_type: PieceType::King, piece_color: v.current_turn });
            &&& t == c + 2 ==> s[c + 3] is None && s[c + 1] == rook && s[t as int] == king && s[c as int] is None
            &&& c == t + 2 ==> s[c - 4] is None && s[c - 1] == rook && s[t as int] == king && s[c as int] is None
        }),
{
    lemma_legal_among_subset(v, c, piece_moves(v, c as int), t);
    lemma_castle_source(v, c, t);
}

} // verus!
