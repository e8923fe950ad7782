//! Colour-and-rank mirror symmetry of the evaluation.
use vstd::prelude::*;
use crate::board::{
    file_of, king_from, opposite_spec, rank_of, BoardView, Color, ColoredPiece, Piece,
};
use crate::eval::{
    eval_white, evaluate_spec, file_has_pawn, file_pawns, file_term, king_safety_spec,
    material_sum, mob_sum, mob_term, open_file_penalty, pawn_of, phase_spec, piece_count,
    piece_score, placement_sum, rook_sum, rook_term, structure_from,
};
use crate::movegen::{leaper_one, leaper_spec, ray_moves, slider_spec};

verus! {

/// The square on the same file and the opposite rank (`sq ^ 56`).
pub open spec fn mirror_sq(sq: int) -> int {
    (7 - sq / 8) * 8 + sq % 8
}

/// Sum of `f(i)` for `0 <= i < n`.
pub open spec fn sum_to(f: spec_fn(int) -> int, n: int) -> int
    decreases n,
{
    if n <= 0 {
        0
    } else {
        sum_to(f, n - 1) + f(n - 1)
    }
}

proof fn lemma_sum_mirror(f: spec_fn(int) -> int)
    ensures
        sum_to(f, 64) == sum_to(|i: int| f(mirror_sq(i)), 64),
{
    reveal_with_fuel(sum_to, 65);
}

pub open spec fn swap_color(x: Option<ColoredPiece>) -> Option<ColoredPiece> {
    match x {
        Some(cp) => Some(ColoredPiece { piece: cp.piece, color: opposite_spec(cp.color) }),
        None => None,
    }
}

/// The placement seen from the other side: ranks reversed, colours swapped.
pub open spec fn mirror_squares(s: Seq<Option<ColoredPiece>>) -> Seq<Option<ColoredPiece>> {
    Seq::new(64, |i: int| swap_color(s[mirror_sq(i)]))
}

/// The position with ranks reversed, colours swapped and the other side to
/// move.
pub open spec fn mirror_view(v: BoardView) -> BoardView {
    BoardView { squares: mirror_squares(v.squares), side: opposite_spec(v.side), ..v }
}

/// Exactly one king of colour `c` stands on the board.
pub open spec fn one_king(s: Seq<Option<ColoredPiece>>, c: Color) -> bool {
    exists|k: int|
        0 <= k < 64 && s[k] == Some(ColoredPiece { piece: Piece::King, color: c }) && forall|j: int|
            0 <= j < 64 && #[trigger] s[j] == Some(ColoredPiece { piece: Piece::King, color: c })
                ==> j == k
}

proof fn lemma_mirror_sq(i: int)
    requires
        0 <= i < 64,
    ensures
        0 <= mirror_sq(i) < 64,
        mirror_sq(i) / 8 == 7 - i / 8,
        mirror_sq(i) % 8 == i % 8,
        mirror_sq(mirror_sq(i)) == i,
{
}

proof fn lemma_xor56(x: u8)
    requires
        x < 64,
    ensures
        (x ^ 56u8) as int == mirror_sq(x as int),
{
    assert((x ^ 56u8) == (7 - x / 8) * 8 + x % 8) by (bit_vector)
        requires
            x < 64,
    ;
}

proof fn lemma_sum_congruent(f: spec_fn(int) -> int, g: spec_fn(int) -> int, n: int)
    requires
        forall|i: int| 0 <= i < n ==> #[trigger] f(i) == g(i),
    ensures
        sum_to(f, n) == sum_to(g, n),
    decreases n,
{
    if n > 0 {
        lemma_sum_congruent(f, g, n - 1);
    }
}

proof fn lemma_sum_negate(f: spec_fn(int) -> int, n: int)
    ensures
        sum_to(|i: int| -f(i), n) == -sum_to(f, n),
    decreases n,
{
    if n > 0 {
        lemma_sum_negate(f, n - 1);
    }
}

// Each board sum as a sum of per-square terms.

pub open spec fn weight_term(s: Seq<Option<ColoredPiece>>, i: int) -> int {
    match s[i] {
        Some(cp) => crate::eval::phase_weight(cp.piece),
        None => 0,
    }
}

proof fn lemma_material_as_sum(s: Seq<Option<ColoredPiece>>, n: int)
    ensures
        material_sum(s, n) == sum_to(|i: int| weight_term(s, i), n),
    decreases n,
{
    if n > 0 {
        lemma_material_as_sum(s, n - 1);
    }
}

pub open spec fn placement_term(s: Seq<Option<ColoredPiece>>, ph: int, i: int) -> int {
    match s[i] {
        Some(cp) => if cp.color == Color::White {
            piece_score(cp, i, ph)
        } else {
            -piece_score(cp, i, ph)
        },
        None => 0,
    }
}

proof fn lemma_placement_as_sum(s: Seq<Option<ColoredPiece>>, ph: int, n: int)
    ensures
        placement_sum(s, ph, n) == sum_to(|i: int| placement_term(s, ph, i), n),
    decreases n,
{
    if n > 0 {
        lemma_placement_as_sum(s, ph, n - 1);
    }
}

pub open spec fn file_pawn_term(s: Seq<Option<ColoredPiece>>, c: Color, f: int, i: int) -> int {
    if file_of(i) == f && s[i] == pawn_of(c) {
        1
    } else {
        0
    }
}

proof fn lemma_file_pawns_as_sum(s: Seq<Option<ColoredPiece>>, c: Color, f: int, n: int)
    ensures
        file_pawns(s, c, f, n) == sum_to(|i: int| file_pawn_term(s, c, f, i), n),
    decreases n,
{
    if n > 0 {
        lemma_file_pawns_as_sum(s, c, f, n - 1);
    }
}

pub open spec fn count_term(s: Seq<Option<ColoredPiece>>, cp: ColoredPiece, i: int) -> int {
    if s[i] == Some(cp) {
        1
    } else {
        0
    }
}

proof fn lemma_count_as_sum(s: Seq<Option<ColoredPiece>>, cp: ColoredPiece, n: int)
    ensures
        piece_count(s, cp, n) == sum_to(|i: int| count_term(s, cp, i), n),
    decreases n,
{
    if n > 0 {
        lemma_count_as_sum(s, cp, n - 1);
    }
}

proof fn lemma_rook_as_sum(s: Seq<Option<ColoredPiece>>, c: Color, n: int)
    ensures
        rook_sum(s, c, n) == sum_to(|i: int| rook_term(s, c, i), n),
    decreases n,
{
    if n > 0 {
        lemma_rook_as_sum(s, c, n - 1);
    }
}

proof fn lemma_mob_as_sum(v: BoardView, c: Color, n: int)
    ensures
        mob_sum(v, c, n) == sum_to(|i: int| mob_term(v, c, i), n),
    decreases n,
{
    if n > 0 {
        lemma_mob_as_sum(v, c, n - 1);
    }
}

// Term by term.

proof fn lemma_phase_mirror(s: Seq<Option<ColoredPiece>>)
    requires
        s.len() == 64,
    ensures
        phase_spec(mirror_squares(s)) == phase_spec(s),
{
    let m = mirror_squares(s);
    let f = |i: int| weight_term(s, i);
    let g = |i: int| weight_term(m, i);
    let h = |i: int| f(mirror_sq(i));
    lemma_material_as_sum(s, 64);
    lemma_material_as_sum(m, 64);
    lemma_sum_mirror(f);
    assert forall|i: int| 0 <= i < 64 implies #[trigger] g(i) == h(i) by {
        lemma_mirror_sq(i);
    }
    lemma_sum_congruent(g, h, 64);
}

proof fn lemma_placement_mirror(s: Seq<Option<ColoredPiece>>, ph: int)
    requires
        s.len() == 64,
    ensures
        placement_sum(mirror_squares(s), ph, 64) == -placement_sum(s, ph, 64),
{
    let m = mirror_squares(s);
    let f = |i: int| placement_term(s, ph, i);
    let g = |i: int| placement_term(m, ph, i);
    let h = |i: int| f(mirror_sq(i));
    let nh = |i: int| -h(i);
    lemma_placement_as_sum(s, ph, 64);
    lemma_placement_as_sum(m, ph, 64);
    lemma_sum_mirror(f);
    assert forall|i: int| 0 <= i < 64 implies #[trigger] g(i) == nh(i) by {
        lemma_mirror_sq(i);
        lemma_xor56(i as u8);
        lemma_xor56(mirror_sq(i) as u8);
    }
    lemma_sum_congruent(g, nh, 64);
    lemma_sum_negate(h, 64);
}

proof fn lemma_file_pawns_mirror(s: Seq<Option<ColoredPiece>>, c: Color, f: int)
    requires
        s.len() == 64,
    ensures
        file_pawns(mirror_squares(s), c, f, 64) == file_pawns(s, opposite_spec(c), f, 64),
{
    let m = mirror_squares(s);
    let a = |i: int| file_pawn_term(s, opposite_spec(c), f, i);
    let g = |i: int| file_pawn_term(m, c, f, i);
    let h = |i: int| a(mirror_sq(i));
    lemma_file_pawns_as_sum(s, opposite_spec(c), f, 64);
    lemma_file_pawns_as_sum(m, c, f, 64);
    lemma_sum_mirror(a);
    assert forall|i: int| 0 <= i < 64 implies #[trigger] g(i) == h(i) by {
        lemma_mirror_sq(i);
    }
    lemma_sum_congruent(g, h, 64);
}

proof fn lemma_structure_mirror(s: Seq<Option<ColoredPiece>>, c: Color, f: int)
    requires
        s.len() == 64,
    ensures
        structure_from(mirror_squares(s), c, f) == structure_from(s, opposite_spec(c), f),
    decreases 8 - f,
{
    if 0 <= f < 8 {
        lemma_file_pawns_mirror(s, c, f);
        lemma_file_pawns_mirror(s, c, f - 1);
        lemma_file_pawns_mirror(s, c, f + 1);
        assert(file_term(mirror_squares(s), c, f) == file_term(s, opposite_spec(c), f));
        lemma_structure_mirror(s, c, f + 1);
    }
}

proof fn lemma_file_has_pawn_mirror(s: Seq<Option<ColoredPiece>>, c: Color, f: int)
    requires
        s.len() == 64,
        0 <= f < 8,
    ensures
        file_has_pawn(mirror_squares(s), c, f) == file_has_pawn(s, opposite_spec(c), f),
{
    let m = mirror_squares(s);
    if file_has_pawn(m, c, f) {
        let r = choose|r: int| 0 <= r < 8 && #[trigger] m[r * 8 + f] == pawn_of(c);
        crate::movegen::lemma_square(r, f);
        crate::movegen::lemma_square(7 - r, f);
        assert(s[(7 - r) * 8 + f] == pawn_of(opposite_spec(c)));
    }
    if file_has_pawn(s, opposite_spec(c), f) {
        let r = choose|r: int| 0 <= r < 8 && #[trigger] s[r * 8 + f] == pawn_of(opposite_spec(c));
        crate::movegen::lemma_square(r, f);
        crate::movegen::lemma_square(7 - r, f);
        assert(m[(7 - r) * 8 + f] == pawn_of(c));
    }
}

proof fn lemma_count_mirror(s: Seq<Option<ColoredPiece>>, cp: ColoredPiece)
    requires
        s.len() == 64,
    ensures
        piece_count(mirror_squares(s), cp, 64) == piece_count(
            s,
            ColoredPiece { piece: cp.piece, color: opposite_spec(cp.color) },
            64,
        ),
{
    let m = mirror_squares(s);
    let other = ColoredPiece { piece: cp.piece, color: opposite_spec(cp.color) };
    let a = |i: int| count_term(s, other, i);
    let g = |i: int| count_term(m, cp, i);
    let h = |i: int| a(mirror_sq(i));
    lemma_count_as_sum(s, other, 64);
    lemma_count_as_sum(m, cp, 64);
    lemma_sum_mirror(a);
    assert forall|i: int| 0 <= i < 64 implies #[trigger] g(i) == h(i) by {
        lemma_mirror_sq(i);
    }
    lemma_sum_congruent(g, h, 64);
}

proof fn lemma_rook_mirror(s: Seq<Option<ColoredPiece>>, c: Color)
    requires
        s.len() == 64,
    ensures
        rook_sum(mirror_squares(s), c, 64) == rook_sum(s, opposite_spec(c), 64),
{
    let m = mirror_squares(s);
    let a = |i: int| rook_term(s, opposite_spec(c), i);
    let g = |i: int| rook_term(m, c, i);
    let h = |i: int| a(mirror_sq(i));
    lemma_rook_as_sum(s, opposite_spec(c), 64);
    lemma_rook_as_sum(m, c, 64);
    lemma_sum_mirror(a);
    assert forall|i: int| 0 <= i < 64 implies #[trigger] g(i) == h(i) by {
        lemma_mirror_sq(i);
        lemma_file_has_pawn_mirror(s, c, i % 8);
        lemma_file_has_pawn_mirror(s, opposite_spec(c), i % 8);
    }
    lemma_sum_congruent(g, h, 64);
}

proof fn lemma_unique_king_found(s: Seq<Option<ColoredPiece>>, c: Color, k: int, i: int)
    requires
        0 <= i <= k < 64,
        s[k] == Some(ColoredPiece { piece: Piece::King, color: c }),
        forall|j: int|
            0 <= j < 64 && #[trigger] s[j] == Some(ColoredPiece { piece: Piece::King, color: c })
                ==> j == k,
    ensures
        king_from(s, c, i) == Some(k as u8),
    decreases k - i,
{
    if i < k {
        lemma_unique_king_found(s, c, k, i + 1);
    }
}

proof fn lemma_king_safety_mirror(s: Seq<Option<ColoredPiece>>, c: Color, ph: int)
    requires
        s.len() == 64,
        one_king(s, opposite_spec(c)),
    ensures
        king_safety_spec(mirror_squares(s), c, ph) == king_safety_spec(s, opposite_spec(c), ph),
{
    let m = mirror_squares(s);
    let oc = opposite_spec(c);
    let k = choose|k: int|
        0 <= k < 64 && s[k] == Some(ColoredPiece { piece: Piece::King, color: oc }) && forall|j: int|
            0 <= j < 64 && #[trigger] s[j] == Some(ColoredPiece { piece: Piece::King, color: oc })
                ==> j == k;
    lemma_mirror_sq(k);
    let mk = mirror_sq(k);
    lemma_unique_king_found(s, oc, k, 0);
    assert forall|j: int|
        0 <= j < 64 && #[trigger] m[j] == Some(ColoredPiece { piece: Piece::King, color: c })
            implies j == mk by {
        lemma_mirror_sq(j);
        assert(s[mirror_sq(j)] == Some(ColoredPiece { piece: Piece::King, color: oc }));
    }
    lemma_unique_king_found(m, c, mk, 0);
    let kf = k % 8;
    if 0 <= kf - 1 {
        lemma_file_has_pawn_mirror(s, c, kf - 1);
    }
    lemma_file_has_pawn_mirror(s, c, kf);
    if kf + 1 < 8 {
        lemma_file_has_pawn_mirror(s, c, kf + 1);
    }
    assert(open_file_penalty(m, c, kf - 1, ph) == open_file_penalty(s, oc, kf - 1, ph));
    assert(open_file_penalty(m, c, kf, ph) == open_file_penalty(s, oc, kf, ph));
    assert(open_file_penalty(m, c, kf + 1, ph) == open_file_penalty(s, oc, kf + 1, ph));
}

proof fn lemma_ray_mirror(
    v: BoardView,
    w: BoardView,
    from1: int,
    from2: int,
    c: Color,
    r: int,
    f: int,
    dr: int,
    df: int,
    n: nat,
)
    requires
        v.squares.len() == 64,
        w.squares == mirror_squares(v.squares),
    ensures
        ray_moves(w, from1, c, r, f, dr, df, n).len() == ray_moves(
            v,
            from2,
            opposite_spec(c),
            7 - r,
            f,
            -dr,
            df,
            n,
        ).len(),
    decreases n,
{
    reveal(ray_moves);
    if n > 0 && 0 <= r < 8 && 0 <= f < 8 {
        crate::movegen::lemma_square(r, f);
        crate::movegen::lemma_square(7 - r, f);
        assert(mirror_sq(r * 8 + f) == (7 - r) * 8 + f);
        lemma_ray_mirror(v, w, from1, from2, c, r + dr, f + df, dr, df, (n - 1) as nat);
        assert(7 - (r + dr) == (7 - r) + -dr);
    }
}

proof fn lemma_leaper_one_mirror(
    v: BoardView,
    w: BoardView,
    from1: int,
    from2: int,
    c: Color,
    dr: int,
    df: int,
)
    requires
        v.squares.len() == 64,
        w.squares == mirror_squares(v.squares),
        rank_of(from2) == 7 - rank_of(from1),
        file_of(from2) == file_of(from1),
    ensures
        leaper_one(w, from1, c, dr, df).len() == leaper_one(v, from2, opposite_spec(c), -dr, df).len(),
{
    reveal(leaper_one);
    let tr = rank_of(from1) + dr;
    let tf = file_of(from1) + df;
    if 0 <= tr < 8 && 0 <= tf < 8 {
        crate::movegen::lemma_square(tr, tf);
        crate::movegen::lemma_square(7 - tr, tf);
        assert(mirror_sq(tr * 8 + tf) == (7 - tr) * 8 + tf);
        assert(rank_of(from2) + -dr == 7 - tr);
    }
}

proof fn lemma_knight_mirror(v: BoardView, w: BoardView, from1: int, from2: int, c: Color)
    requires
        v.squares.len() == 64,
        w.squares == mirror_squares(v.squares),
        rank_of(from2) == 7 - rank_of(from1),
        file_of(from2) == file_of(from1),
    ensures
        leaper_spec(w, from1, c, true, 0).len() == leaper_spec(
            v,
            from2,
            opposite_spec(c),
            true,
            0,
        ).len(),
{
    reveal_with_fuel(leaper_spec, 9);
    let oc = opposite_spec(c);
    lemma_leaper_one_mirror(v, w, from1, from2, c, -2, -1);
    lemma_leaper_one_mirror(v, w, from1, from2, c, -2, 1);
    lemma_leaper_one_mirror(v, w, from1, from2, c, -1, -2);
    lemma_leaper_one_mirror(v, w, from1, from2, c, -1, 2);
    lemma_leaper_one_mirror(v, w, from1, from2, c, 1, -2);
    lemma_leaper_one_mirror(v, w, from1, from2, c, 1, 2);
    lemma_leaper_one_mirror(v, w, from1, from2, c, 2, -1);
    lemma_leaper_one_mirror(v, w, from1, from2, c, 2, 1);
}

proof fn lemma_slider_mirror(v: BoardView, w: BoardView, from1: int, from2: int, c: Color, diagonal: bool)
    requires
        v.squares.len() == 64,
        w.squares == mirror_squares(v.squares),
        rank_of(from2) == 7 - rank_of(from1),
        file_of(from2) == file_of(from1),
        0 <= from1 < 64,
    ensures
        slider_spec(w, from1, c, diagonal, 0).len() == slider_spec(
            v,
            from2,
            opposite_spec(c),
            diagonal,
            0,
        ).len(),
{
    reveal_with_fuel(slider_spec, 5);
    let r = rank_of(from1);
    let f = file_of(from1);
    lemma_ray_mirror(v, w, from1, from2, c, r - 1, f - 1, -1, -1, 7);
    lemma_ray_mirror(v, w, from1, from2, c, r - 1, f + 1, -1, 1, 7);
    lemma_ray_mirror(v, w, from1, from2, c, r + 1, f - 1, 1, -1, 7);
    lemma_ray_mirror(v, w, from1, from2, c, r + 1, f + 1, 1, 1, 7);
    lemma_ray_mirror(v, w, from1, from2, c, r - 1, f, -1, 0, 7);
    lemma_ray_mirror(v, w, from1, from2, c, r + 1, f, 1, 0, 7);
    lemma_ray_mirror(v, w, from1, from2, c, r, f - 1, 0, -1, 7);
    lemma_ray_mirror(v, w, from1, from2, c, r, f + 1, 0, 1, 7);
}

proof fn lemma_mob_mirror(v: BoardView, c: Color)
    requires
        v.squares.len() == 64,
    ensures
        mob_sum(mirror_view(v), c, 64) == mob_sum(v, opposite_spec(c), 64),
{
    let w = mirror_view(v);
    let oc = opposite_spec(c);
    let a = |i: int| mob_term(v, oc, i);
    let g = |i: int| mob_term(w, c, i);
    let h = |i: int| a(mirror_sq(i));
    lemma_mob_as_sum(v, oc, 64);
    lemma_mob_as_sum(w, c, 64);
    lemma_sum_mirror(a);
    assert forall|i: int| 0 <= i < 64 implies #[trigger] g(i) == h(i) by {
        lemma_mirror_sq(i);
        let mi = mirror_sq(i);
        lemma_knight_mirror(v, w, i, mi, c);
        lemma_slider_mirror(v, w, i, mi, c, true);
        lemma_slider_mirror(v, w, i, mi, c, false);
    }
    lemma_sum_congruent(g, h, 64);
}

/// Seen from the other side (ranks reversed, colours swapped, the other side
/// to move), a position with one king of each colour has the opposite
/// White-minus-Black score and the same score for the side to move.
pub proof fn lemma_eval_mirror(v: BoardView)
    requires
        v.squares.len() == 64,
        one_king(v.squares, Color::White),
        one_king(v.squares, Color::Black),
    ensures
        eval_white(mirror_view(v)) == -eval_white(v),
        evaluate_spec(mirror_view(v)) == evaluate_spec(v),
{
    let s = v.squares;
    let w = mirror_view(v);
    let m = w.squares;
    lemma_phase_mirror(s);
    let ph = phase_spec(s);
    lemma_placement_mirror(s, ph);
    lemma_structure_mirror(s, Color::White, 0);
    lemma_structure_mirror(s, Color::Black, 0);
    lemma_king_safety_mirror(s, Color::White, ph);
    lemma_king_safety_mirror(s, Color::Black, ph);
    lemma_count_mirror(s, ColoredPiece { piece: Piece::Bishop, color: Color::White });
    lemma_count_mirror(s, ColoredPiece { piece: Piece::Bishop, color: Color::Black });
    lemma_rook_mirror(s, Color::White);
    lemma_rook_mirror(s, Color::Black);
    lemma_mob_mirror(v, Color::White);
    lemma_mob_mirror(v, Color::Black);
}

} // verus!
