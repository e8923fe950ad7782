//! Static evaluation in centipawns from the side to move's point of view,
//! tapered between opening and endgame tables by the material left.
use vstd::prelude::*;
use crate::board::{
    file_of, king_square, opposite_spec, rank_of, Board, BoardView, Color, ColoredPiece, Piece,
};
use crate::movegen::{
    leaper_delta_at, leaper_one, leaper_spec, lemma_square, ray_moves, slider_dir_at, slider_spec,
};

verus! {

pub const VAL_PAWN: i32 = 100;

pub const VAL_KNIGHT: i32 = 320;

pub const VAL_BISHOP: i32 = 340;

pub const VAL_ROOK: i32 = 500;

pub const VAL_QUEEN: i32 = 950;

// Piece-square tables, opening and endgame, indexed from White's side
// (a1 = 0); Black reads them through `sq ^ 56`.
pub const PAWN_OP: [i32; 64] = [
    0, 0, 0, 0, 0, 0, 0, 0,
    -5, -5, -5, -5, -5, -5, -5, -5,
    -2, -2, 0, 5, 5, 0, -2, -2,
    -2, -2, 2, 22, 22, 2, -2, -2,
    -2, -2, 4, 24, 24, 4, -2, -2,
    3, 3, 6, 8, 8, 6, 3, 3,
    45, 45, 40, 30, 30, 40, 45, 45,
    0, 0, 0, 0, 0, 0, 0, 0,
];

pub const PAWN_EG: [i32; 64] = [
    0, 0, 0, 0, 0, 0, 0, 0,
    10, 10, 10, 10, 10, 10, 10, 10,
    5, 5, 5, 5, 5, 5, 5, 5,
    2, 2, 5, 10, 10, 5, 2, 2,
    0, 0, 5, 12, 12, 5, 0, 0,
    -2, -2, 0, 5, 5, 0, -2, -2,
    -5, -5, -5, -5, -5, -5, -5, -5,
    0, 0, 0, 0, 0, 0, 0, 0,
];

pub const KNIGHT_OP: [i32; 64] = [
    -50, -40, -30, -30, -30, -30, -40, -50,
    -40, -25, -5, -5, -5, -5, -25, -40,
    -30, -5, 8, 12, 12, 8, -5, -30,
    -30, -5, 12, 18, 18, 12, -5, -30,
    -30, -5, 12, 18, 18, 12, -5, -30,
    -30, -5, 8, 12, 12, 8, -5, -30,
    -40, -25, -5, -5, -5, -5, -25, -40,
    -50, -40, -35, -30, -30, -35, -40, -50,
];

pub const KNIGHT_EG: [i32; 64] = [
    -60, -40, -30, -30, -30, -30, -40, -60,
    -40, -20, 0, 5, 5, 0, -20, -40,
    -30, 0, 15, 20, 20, 15, 0, -30,
    -30, 5, 20, 28, 28, 20, 5, -30,
    -30, 5, 20, 28, 28, 20, 5, -30,
    -30, 0, 15, 20, 20, 15, 0, -30,
    -40, -20, 0, 5, 5, 0, -20, -40,
    -60, -40, -30, -30, -30, -30, -40, -60,
];

pub const BISHOP_OP: [i32; 64] = [
    -20, -10, -10, -10, -10, -10, -10, -20,
    -10, 5, 0, 0, 0, 0, 5, -10,
    -10, 10, 12, 12, 12, 12, 10, -10,
    -10, 5, 12, 15, 15, 12, 5, -10,
    -10, 5, 12, 15, 15, 12, 5, -10,
    -10, 10, 12, 12, 12, 12, 10, -10,
    -10, 5, 0, 0, 0, 0, 5, -10,
    -20, -10, -10, -10, -10, -10, -10, -20,
];

pub const BISHOP_EG: [i32; 64] = [
    -20, -10, -10, -10, -10, -10, -10, -20,
    -10, 0, 0, 0, 0, 0, 0, -10,
    -10, 0, 8, 10, 10, 8, 0, -10,
    -10, 0, 10, 12, 12, 10, 0, -10,
    -10, 0, 10, 12, 12, 10, 0, -10,
    -10, 0, 8, 10, 10, 8, 0, -10,
    -10, 0, 0, 0, 0, 0, 0, -10,
    -20, -10, -10, -10, -10, -10, -10, -20,
];

pub const ROOK_OP: [i32; 64] = [
    0, 0, 0, 5, 5, 0, 0, 0,
    -5, 0, 0, 0, 0, 0, 0, -5,
    -5, 0, 0, 0, 0, 0, 0, -5,
    -5, 0, 0, 0, 0, 0, 0, -5,
    -5, 0, 0, 0, 0, 0, 0, -5,
    -5, 0, 0, 0, 0, 0, 0, -5,
    5, 10, 10, 10, 10, 10, 10, 5,
    0, 0, 0, 0, 0, 0, 0, 0,
];

pub const ROOK_EG: [i32; 64] = [
    5, 5, 5, 5, 5, 5, 5, 5,
    10, 10, 10, 10, 10, 10, 10, 10,
    0, 0, 0, 0, 0, 0, 0, 0,
    0, 0, 0, 0, 0, 0, 0, 0,
    0, 0, 0, 0, 0, 0, 0, 0,
    0, 0, 0, 0, 0, 0, 0, 0,
    0, 0, 0, 0, 0, 0, 0, 0,
    0, 0, 0, 0, 0, 0, 0, 0,
];

pub const QUEEN_OP: [i32; 64] = [
    -20, -10, -10, -5, -5, -10, -10, -20,
    -10, 0, 0, 0, 0, 0, 0, -10,
    -10, 0, 5, 5, 5, 5, 0, -10,
    -5, 0, 5, 5, 5, 5, 0, -5,
    0, 0, 5, 5, 5, 5, 0, -5,
    -10, 5, 5, 5, 5, 5, 0, -10,
    -10, 0, 5, 0, 0, 0, 0, -10,
    -20, -15, -10, -5, -5, -10, -15, -20,
];

pub const QUEEN_EG: [i32; 64] = [
    -30, -20, -10, 0, 0, -10, -20, -30,
    -20, -10, 0, 5, 5, 0, -10, -20,
    -10, 0, 10, 10, 10, 10, 0, -10,
    0, 5, 10, 15, 15, 10, 5, 0,
    0, 5, 10, 15, 15, 10, 5, 0,
    -10, 0, 10, 10, 10, 10, 0, -10,
    -20, -10, 0, 5, 5, 0, -10, -20,
    -30, -20, -10, 0, 0, -10, -20, -30,
];

pub const KING_OP: [i32; 64] = [
    -30, -40, -40, -50, -50, -40, -40, -30,
    -30, -40, -40, -50, -50, -40, -40, -30,
    -30, -40, -40, -50, -50, -40, -40, -30,
    -30, -40, -40, -50, -50, -40, -40, -30,
    -20, -30, -30, -40, -40, -30, -30, -20,
    -10, -20, -20, -30, -30, -20, -20, -10,
    15, 20, -10, -15, -15, -10, 20, 15,
    20, 30, 10, -10, -10, 10, 30, 20,
];

pub const KING_EG: [i32; 64] = [
    -50, -30, -20, -10, -10, -20, -30, -50,
    -30, -10, 5, 10, 10, 5, -10, -30,
    -20, 5, 15, 20, 20, 15, 5, -20,
    -10, 10, 20, 25, 25, 20, 10, -10,
    -10, 10, 20, 25, 25, 20, 10, -10,
    -20, 5, 15, 20, 20, 15, 5, -20,
    -30, -10, 5, 10, 10, 5, -10, -30,
    -50, -30, -20, -10, -10, -20, -30, -50,
];

/// Largest magnitude an evaluation can reach.
pub const EVAL_BOUND: i32 = 100000;

pub open spec fn tdiv(a: int, d: int) -> int {
    if a >= 0 {
        a / d
    } else {
        -((-a) / d)
    }
}

pub open spec fn material(p: Piece) -> int {
    match p {
        Piece::Pawn => VAL_PAWN as int,
        Piece::Knight => VAL_KNIGHT as int,
        Piece::Bishop => VAL_BISHOP as int,
        Piece::Rook => VAL_ROOK as int,
        Piece::Queen => VAL_QUEEN as int,
        Piece::King => 0,
    }
}

pub open spec fn pst(p: Piece, endgame: bool, idx: int) -> int {
    match p {
        Piece::Pawn => if endgame { PAWN_EG@[idx] as int } else { PAWN_OP@[idx] as int },
        Piece::Knight => if endgame { KNIGHT_EG@[idx] as int } else { KNIGHT_OP@[idx] as int },
        Piece::Bishop => if endgame { BISHOP_EG@[idx] as int } else { BISHOP_OP@[idx] as int },
        Piece::Rook => if endgame { ROOK_EG@[idx] as int } else { ROOK_OP@[idx] as int },
        Piece::Queen => if endgame { QUEEN_EG@[idx] as int } else { QUEEN_OP@[idx] as int },
        Piece::King => if endgame { KING_EG@[idx] as int } else { KING_OP@[idx] as int },
    }
}

// ---------------------------------------------------------------------------
// Phase
// ---------------------------------------------------------------------------

pub open spec fn phase_weight(p: Piece) -> int {
    match p {
        Piece::Knight | Piece::Bishop => 1,
        Piece::Rook => 2,
        Piece::Queen => 4,
        _ => 0,
    }
}

/// Phase weight of the pieces on the first `n` squares.
pub open spec fn material_sum(s: Seq<Option<ColoredPiece>>, n: int) -> int
    decreases n,
{
    if n <= 0 {
        0
    } else {
        material_sum(s, n - 1) + match s[n - 1] {
            Some(cp) => phase_weight(cp.piece),
            None => 0,
        }
    }
}

/// 256 with all minor and major pieces on, falling to 0 with none.
pub open spec fn phase_spec(s: Seq<Option<ColoredPiece>>) -> int {
    let m = material_sum(s, 64);
    if m * 256 / 28 < 256 {
        m * 256 / 28
    } else {
        256
    }
}

fn game_phase(board: &Board) -> (r: i32)
    requires
        board.wf(),
    ensures
        r == phase_spec(board@.squares),
        0 <= r <= 256,
{
    let mut mat: i32 = 0;
    let mut sq: usize = 0;
    while sq < 64
        invariant
            board.wf(),
            sq <= 64,
            mat == material_sum(board@.squares, sq as int),
            0 <= mat <= 4 * sq,
        decreases 64 - sq,
    {
        if let Some(cp) = board.squares[sq] {
            mat = mat + match cp.piece {
                Piece::Knight | Piece::Bishop => 1,
                Piece::Rook => 2,
                Piece::Queen => 4,
                _ => 0,
            };
        }
        sq = sq + 1;
    }
    let p = (mat * 256) / 28;
    if p < 256 {
        p
    } else {
        256
    }
}

// ---------------------------------------------------------------------------
// Piece-square values
// ---------------------------------------------------------------------------

pub open spec fn table_index(sq: int, c: Color) -> int {
    if c == Color::White {
        sq
    } else {
        (sq as u8 ^ 56u8) as int
    }
}

pub open spec fn blend(op: int, eg: int, phase: int) -> int {
    tdiv(op * phase + eg * (256 - phase), 256)
}

/// Material plus the phase-blended table value of a piece on a square.
pub open spec fn piece_score(cp: ColoredPiece, sq: int, phase: int) -> int {
    let idx = table_index(sq, cp.color);
    material(cp.piece) + blend(pst(cp.piece, false, idx), pst(cp.piece, true, idx), phase)
}

proof fn lemma_mirror(sq: u8)
    requires
        sq < 64,
    ensures
        (sq ^ 56u8) < 64,
{
    assert((sq ^ 56u8) < 64) by (bit_vector)
        requires
            sq < 64,
    ;
}

fn pst_entry(p: Piece, endgame: bool, idx: usize) -> (r: i32)
    requires
        idx < 64,
    ensures
        r == pst(p, endgame, idx as int),
        -60 <= r <= 45,
{
    match p {
        Piece::Pawn => if endgame { PAWN_EG[idx] } else { PAWN_OP[idx] },
        Piece::Knight => if endgame { KNIGHT_EG[idx] } else { KNIGHT_OP[idx] },
        Piece::Bishop => if endgame { BISHOP_EG[idx] } else { BISHOP_OP[idx] },
        Piece::Rook => if endgame { ROOK_EG[idx] } else { ROOK_OP[idx] },
        Piece::Queen => if endgame { QUEEN_EG[idx] } else { QUEEN_OP[idx] },
        Piece::King => if endgame { KING_EG[idx] } else { KING_OP[idx] },
    }
}

fn pst_blend(sq: u8, color: Color, piece: Piece, phase: i32) -> (r: i32)
    requires
        sq < 64,
        0 <= phase <= 256,
    ensures
        r == blend(
            pst(piece, false, table_index(sq as int, color)),
            pst(piece, true, table_index(sq as int, color)),
            phase as int,
        ),
        -60 <= r <= 45,
{
    proof {
        lemma_mirror(sq);
    }
    let idx: usize = if color == Color::White { sq as usize } else { (sq ^ 56) as usize };
    let op = pst_entry(piece, false, idx);
    let eg = pst_entry(piece, true, idx);
    proof {
        assert(-60 * phase <= op * phase <= 45 * phase) by (nonlinear_arith)
            requires
                -60 <= op <= 45,
                0 <= phase,
        ;
        assert(-60 * (256 - phase) <= eg * (256 - phase) <= 45 * (256 - phase)) by (nonlinear_arith)
            requires
                -60 <= eg <= 45,
                phase <= 256,
        ;
    }
    (op * phase + eg * (256 - phase)) / 256
}

fn material_value(p: Piece) -> (r: i32)
    ensures
        r == material(p),
{
    match p {
        Piece::Pawn => VAL_PAWN,
        Piece::Knight => VAL_KNIGHT,
        Piece::Bishop => VAL_BISHOP,
        Piece::Rook => VAL_ROOK,
        Piece::Queen => VAL_QUEEN,
        Piece::King => 0,
    }
}

/// White's piece scores minus Black's over the first `n` squares.
pub open spec fn placement_sum(s: Seq<Option<ColoredPiece>>, phase: int, n: int) -> int
    decreases n,
{
    if n <= 0 {
        0
    } else {
        placement_sum(s, phase, n - 1) + match s[n - 1] {
            Some(cp) => if cp.color == Color::White {
                piece_score(cp, n - 1, phase)
            } else {
                -piece_score(cp, n - 1, phase)
            },
            None => 0,
        }
    }
}

fn placement(board: &Board, phase: i32) -> (r: i32)
    requires
        board.wf(),
        0 <= phase <= 256,
    ensures
        r == placement_sum(board@.squares, phase as int, 64),
        -64000 <= r <= 64000,
{
    let mut score: i32 = 0;
    let mut sq: u8 = 0;
    while sq < 64
        invariant
            board.wf(),
            0 <= phase <= 256,
            sq <= 64,
            score == placement_sum(board@.squares, phase as int, sq as int),
            -1000 * sq <= score <= 1000 * sq,
        decreases 64 - sq,
    {
        if let Some(cp) = board.squares[sq as usize] {
            let val = material_value(cp.piece) + pst_blend(sq, cp.color, cp.piece, phase);
            if cp.color == Color::White {
                score = score + val;
            } else {
                score = score - val;
            }
        }
        sq = sq + 1;
    }
    score
}

// ---------------------------------------------------------------------------
// Pawn structure
// ---------------------------------------------------------------------------

pub open spec fn pawn_of(c: Color) -> Option<ColoredPiece> {
    Some(ColoredPiece { piece: Piece::Pawn, color: c })
}

/// Pawns of `c` on file `f` among the first `n` squares.
pub open spec fn file_pawns(s: Seq<Option<ColoredPiece>>, c: Color, f: int, n: int) -> int
    decreases n,
{
    if n <= 0 {
        0
    } else {
        file_pawns(s, c, f, n - 1) + if file_of(n - 1) == f && s[n - 1] == pawn_of(c) {
            1int
        } else {
            0int
        }
    }
}

/// Doubled pawns cost 20 per extra pawn on the file; a pawn with no friendly
/// pawn on either neighbouring file costs 15 more.
pub open spec fn file_term(s: Seq<Option<ColoredPiece>>, c: Color, f: int) -> int {
    let n = file_pawns(s, c, f, 64);
    if n == 0 {
        0
    } else {
        let isolated = (f == 0 || file_pawns(s, c, f - 1, 64) == 0) && (f == 7 || file_pawns(
            s,
            c,
            f + 1,
            64,
        ) == 0);
        -20 * (n - 1) - if isolated {
            15int
        } else {
            0int
        }
    }
}

pub open spec fn structure_from(s: Seq<Option<ColoredPiece>>, c: Color, f: int) -> int
    decreases 8 - f,
{
    if f < 0 || f >= 8 {
        0
    } else {
        file_term(s, c, f) + structure_from(s, c, f + 1)
    }
}

pub open spec fn pawn_structure_spec(s: Seq<Option<ColoredPiece>>, c: Color) -> int {
    structure_from(s, c, 0)
}

fn pawn_structure(board: &Board, color: Color) -> (r: i32)
    requires
        board.wf(),
    ensures
        r == pawn_structure_spec(board@.squares, color),
        -10200 <= r <= 0,
{
    let ghost s = board@.squares;
    let mut cnt: Vec<i32> = vec![0, 0, 0, 0, 0, 0, 0, 0];
    let mut sq: usize = 0;
    while sq < 64
        invariant
            board.wf(),
            s == board@.squares,
            sq <= 64,
            cnt@.len() == 8,
            forall|f: int| 0 <= f < 8 ==> #[trigger] cnt@[f] == file_pawns(s, color, f, sq as int),
            forall|f: int| 0 <= f < 8 ==> 0 <= #[trigger] cnt@[f] <= sq,
        decreases 64 - sq,
    {
        if let Some(cp) = board.squares[sq] {
            if cp.piece == Piece::Pawn && cp.color == color {
                let f = sq % 8;
                let old_count = cnt[f];
                cnt.set(f, old_count + 1);
            }
        }
        sq = sq + 1;
    }
    let mut score: i32 = 0;
    let mut f: usize = 0;
    while f < 8
        invariant
            cnt@.len() == 8,
            forall|g: int| 0 <= g < 8 ==> #[trigger] cnt@[g] == file_pawns(s, color, g, 64),
            forall|g: int| 0 <= g < 8 ==> 0 <= #[trigger] cnt@[g] <= 64,
            f <= 8,
            score + structure_from(s, color, f as int) == structure_from(s, color, 0),
            -1275 * f <= score <= 0,
        decreases 8 - f,
    {
        if cnt[f] != 0 {
            if cnt[f] > 1 {
                score = score - 20 * (cnt[f] - 1);
            }
            let isolated = (f == 0 || cnt[f - 1] == 0) && (f == 7 || cnt[f + 1] == 0);
            if isolated {
                score = score - 15;
            }
        }
        f = f + 1;
    }
    score
}

// ---------------------------------------------------------------------------
// King safety
// ---------------------------------------------------------------------------

pub open spec fn file_has_pawn(s: Seq<Option<ColoredPiece>>, c: Color, f: int) -> bool {
    exists|r: int| 0 <= r < 8 && #[trigger] s[r * 8 + f] == pawn_of(c)
}

fn has_pawn_on_file(board: &Board, color: Color, f: u8) -> (r: bool)
    requires
        board.wf(),
        f < 8,
    ensures
        r == file_has_pawn(board@.squares, color, f as int),
{
    let ghost s = board@.squares;
    let mut r: u8 = 0;
    while r < 8
        invariant
            board.wf(),
            s == board@.squares,
            f < 8,
            r <= 8,
            forall|q: int| 0 <= q < r ==> #[trigger] s[q * 8 + f] != pawn_of(color),
        decreases 8 - r,
    {
        if let Some(cp) = board.squares[(r * 8 + f) as usize] {
            if cp.piece == Piece::Pawn && cp.color == color {
                return true;
            }
        }
        r = r + 1;
    }
    false
}

/// An open file at or beside the king costs `18·phase/256`.
pub open spec fn open_file_penalty(s: Seq<Option<ColoredPiece>>, c: Color, f: int, phase: int) -> int {
    if 0 <= f < 8 && !file_has_pawn(s, c, f) {
        -(18 * phase / 256)
    } else {
        0
    }
}

/// Counted only while `phase >= 60`: open files around the king, and
/// `22·phase/256` more for a king on files c to f.
pub open spec fn king_safety_spec(s: Seq<Option<ColoredPiece>>, c: Color, phase: int) -> int {
    if phase < 60 {
        0
    } else {
        match king_square(s, c) {
            None => 0,
            Some(k) => {
                let kf = k as int % 8;
                open_file_penalty(s, c, kf - 1, phase) + open_file_penalty(s, c, kf, phase)
                    + open_file_penalty(s, c, kf + 1, phase) + if 2 <= kf <= 5 {
                    -(22 * phase / 256)
                } else {
                    0
                }
            },
        }
    }
}

fn king_safety(board: &Board, color: Color, phase: i32) -> (r: i32)
    requires
        board.wf(),
        0 <= phase <= 256,
    ensures
        r == king_safety_spec(board@.squares, color, phase as int),
        -76 <= r <= 0,
{
    if phase < 60 {
        return 0;
    }
    let king_sq = match board.find_king(color) {
        Some(s) => s,
        None => return 0,
    };
    proof {
        crate::board::lemma_king_from_on_board(board@.squares, color, 0);
    }
    let kf = king_sq % 8;
    let pen = 18 * phase / 256;
    let mut score: i32 = 0;
    if kf >= 1 && !has_pawn_on_file(board, color, kf - 1) {
        score = score - pen;
    }
    if !has_pawn_on_file(board, color, kf) {
        score = score - pen;
    }
    if kf + 1 < 8 && !has_pawn_on_file(board, color, kf + 1) {
        score = score - pen;
    }
    if kf >= 2 && kf <= 5 {
        score = score - 22 * phase / 256;
    }
    score
}

// ---------------------------------------------------------------------------
// Bishop pair and rooks
// ---------------------------------------------------------------------------

/// Pieces `cp` among the first `n` squares.
pub open spec fn piece_count(s: Seq<Option<ColoredPiece>>, cp: ColoredPiece, n: int) -> int
    decreases n,
{
    if n <= 0 {
        0
    } else {
        piece_count(s, cp, n - 1) + if s[n - 1] == Some(cp) {
            1int
        } else {
            0int
        }
    }
}

pub open spec fn bishop_pair_spec(s: Seq<Option<ColoredPiece>>, c: Color) -> int {
    if piece_count(s, ColoredPiece { piece: Piece::Bishop, color: c }, 64) >= 2 {
        30
    } else {
        0
    }
}

fn bishop_pair(board: &Board, color: Color) -> (r: i32)
    requires
        board.wf(),
    ensures
        r == bishop_pair_spec(board@.squares, color),
{
    let ghost target = ColoredPiece { piece: Piece::Bishop, color };
    let mut n: usize = 0;
    let mut sq: usize = 0;
    while sq < 64
        invariant
            board.wf(),
            sq <= 64,
            n <= sq,
            target == (ColoredPiece { piece: Piece::Bishop, color }),
            n == piece_count(board@.squares, target, sq as int),
        decreases 64 - sq,
    {
        if let Some(cp) = board.squares[sq] {
            if cp.color == color && cp.piece == Piece::Bishop {
                n = n + 1;
            }
        }
        sq = sq + 1;
    }
    if n >= 2 {
        30
    } else {
        0
    }
}

pub open spec fn seventh_rank(c: Color) -> int {
    if c == Color::White { 6 } else { 1 }
}

/// +20 on a file with no pawn, +10 on one with no friendly pawn, +25 on the
/// seventh rank.
pub open spec fn rook_term(s: Seq<Option<ColoredPiece>>, c: Color, sq: int) -> int {
    if s[sq] == Some(ColoredPiece { piece: Piece::Rook, color: c }) {
        let f = sq % 8;
        let friendly = file_has_pawn(s, c, f);
        let enemy = file_has_pawn(s, opposite_spec(c), f);
        (if !friendly && !enemy {
            20int
        } else if !friendly {
            10int
        } else {
            0int
        }) + if sq / 8 == seventh_rank(c) {
            25int
        } else {
            0int
        }
    } else {
        0
    }
}

pub open spec fn rook_sum(s: Seq<Option<ColoredPiece>>, c: Color, n: int) -> int
    decreases n,
{
    if n <= 0 {
        0
    } else {
        rook_sum(s, c, n - 1) + rook_term(s, c, n - 1)
    }
}

fn rook_bonus(board: &Board, color: Color) -> (r: i32)
    requires
        board.wf(),
    ensures
        r == rook_sum(board@.squares, color, 64),
        0 <= r <= 2880,
{
    let seventh: u8 = if color == Color::White { 6 } else { 1 };
    let them = crate::board::opposite(color);
    let mut score: i32 = 0;
    let mut sq: u8 = 0;
    while sq < 64
        invariant
            board.wf(),
            sq <= 64,
            them == opposite_spec(color),
            seventh == seventh_rank(color),
            score == rook_sum(board@.squares, color, sq as int),
            0 <= score <= 45 * sq,
        decreases 64 - sq,
    {
        if let Some(cp) = board.squares[sq as usize] {
            if cp.color == color && cp.piece == Piece::Rook {
                let file = sq % 8;
                let friendly = has_pawn_on_file(board, color, file);
                let enemy = has_pawn_on_file(board, them, file);
                if !friendly && !enemy {
                    score = score + 20;
                } else if !friendly {
                    score = score + 10;
                }
                if sq / 8 == seventh {
                    score = score + 25;
                }
            }
        }
        sq = sq + 1;
    }
    score
}

// ---------------------------------------------------------------------------
// Mobility
// ---------------------------------------------------------------------------

/// Squares a knight, bishop, rook or queen of `c` on `sq` could move to:
/// empty squares and enemy pieces, sliders stopping at the first piece.
pub open spec fn mob_term(v: BoardView, c: Color, sq: int) -> int {
    match v.squares[sq] {
        Some(cp) => if cp.color != c {
            0
        } else {
            match cp.piece {
                Piece::Knight => leaper_spec(v, sq, c, true, 0).len() as int,
                Piece::Bishop => slider_spec(v, sq, c, true, 0).len() as int,
                Piece::Rook => slider_spec(v, sq, c, false, 0).len() as int,
                Piece::Queen => (slider_spec(v, sq, c, true, 0).len() + slider_spec(
                    v,
                    sq,
                    c,
                    false,
                    0,
                ).len()) as int,
                _ => 0,
            }
        },
        None => 0,
    }
}

pub open spec fn mob_sum(v: BoardView, c: Color, n: int) -> int
    decreases n,
{
    if n <= 0 {
        0
    } else {
        mob_sum(v, c, n - 1) + mob_term(v, c, n - 1)
    }
}

fn ray_count(board: &Board, from: u8, color: Color, dr: i32, df: i32) -> (r: i32)
    requires
        board.wf(),
        from < 64,
        -1 <= dr <= 1,
        -1 <= df <= 1,
        !(dr == 0 && df == 0),
    ensures
        r == ray_moves(
            board@,
            from as int,
            color,
            rank_of(from as int) + dr,
            file_of(from as int) + df,
            dr as int,
            df as int,
            7,
        ).len(),
        0 <= r <= 7,
{
    let ghost v = board@;
    let fr = (from / 8) as i32;
    let ff = (from % 8) as i32;
    let ghost total = ray_moves(
        v,
        from as int,
        color,
        rank_of(from as int) + dr,
        file_of(from as int) + df,
        dr as int,
        df as int,
        7,
    );
    let mut r = fr + dr;
    let mut f = ff + df;
    let mut n: i32 = 7;
    let mut count: i32 = 0;
    let mut done = false;
    while !done && r >= 0 && r < 8 && f >= 0 && f < 8
        invariant
            board.wf(),
            v == board@,
            from < 64,
            0 <= fr < 8,
            0 <= ff < 8,
            fr == rank_of(from as int),
            ff == file_of(from as int),
            -1 <= dr <= 1,
            -1 <= df <= 1,
            !(dr == 0 && df == 0),
            0 <= n <= 7,
            dr == 1 ==> r == fr + 8 - n,
            dr == -1 ==> r == fr - 8 + n,
            dr == 0 ==> r == fr,
            df == 1 ==> f == ff + 8 - n,
            df == -1 ==> f == ff - 8 + n,
            df == 0 ==> f == ff,
            done ==> count == total.len() && count <= 7,
            !done ==> count + ray_moves(
                v,
                from as int,
                color,
                r as int,
                f as int,
                dr as int,
                df as int,
                n as nat,
            ).len() == total.len() && 0 <= count <= 7 - n,
        decreases n + if done {
            0int
        } else {
            1int
        },
    {
        reveal(ray_moves);
        let to = (r * 8 + f) as u8;
        proof {
            lemma_square(r as int, f as int);
        }
        match board.squares[to as usize] {
            Some(t) => {
                if t.color != color {
                    count = count + 1;
                }
                done = true;
            },
            None => {
                count = count + 1;
                r = r + dr;
                f = f + df;
                n = n - 1;
            },
        }
    }
    proof {
        reveal(ray_moves);
    }
    count
}

fn slider_mob(board: &Board, from: u8, color: Color, diagonal: bool) -> (r: i32)
    requires
        board.wf(),
        from < 64,
    ensures
        r == slider_spec(board@, from as int, color, diagonal, 0).len(),
        0 <= r <= 28,
{
    let ghost v = board@;
    let mut n: i32 = 0;
    let mut i: usize = 0;
    while i < 4
        invariant
            board.wf(),
            v == board@,
            from < 64,
            i <= 4,
            0 <= n <= 7 * i,
            n + slider_spec(v, from as int, color, diagonal, i as int).len() == slider_spec(
                v,
                from as int,
                color,
                diagonal,
                0,
            ).len(),
        decreases 4 - i,
    {
        let (dr, df) = slider_dir_at(diagonal, i);
        n = n + ray_count(board, from, color, dr, df);
        i = i + 1;
    }
    n
}

fn knight_mob(board: &Board, from: u8, color: Color) -> (r: i32)
    requires
        board.wf(),
        from < 64,
    ensures
        r == leaper_spec(board@, from as int, color, true, 0).len(),
        0 <= r <= 8,
{
    let ghost v = board@;
    let fr = (from / 8) as i32;
    let ff = (from % 8) as i32;
    let mut n: i32 = 0;
    let mut i: usize = 0;
    while i < 8
        invariant
            board.wf(),
            v == board@,
            from < 64,
            fr == rank_of(from as int),
            ff == file_of(from as int),
            0 <= fr < 8,
            0 <= ff < 8,
            i <= 8,
            0 <= n <= i,
            n + leaper_spec(v, from as int, color, true, i as int).len() == leaper_spec(
                v,
                from as int,
                color,
                true,
                0,
            ).len(),
        decreases 8 - i,
    {
        reveal(leaper_one);
        let (dr, df) = leaper_delta_at(true, i);
        let tr = fr + dr;
        let tf = ff + df;
        if tr >= 0 && tr < 8 && tf >= 0 && tf < 8 {
            let to = (tr * 8 + tf) as u8;
            proof {
                lemma_square(tr as int, tf as int);
            }
            match board.squares[to as usize] {
                Some(c) => {
                    if c.color != color {
                        n = n + 1;
                    }
                },
                None => {
                    n = n + 1;
                },
            }
        }
        i = i + 1;
    }
    n
}

fn mobility(board: &Board, color: Color) -> (r: i32)
    requires
        board.wf(),
    ensures
        r == mob_sum(board@, color, 64),
        0 <= r <= 3584,
{
    let mut count: i32 = 0;
    let mut from: u8 = 0;
    while from < 64
        invariant
            board.wf(),
            from <= 64,
            count == mob_sum(board@, color, from as int),
            0 <= count <= 56 * from,
        decreases 64 - from,
    {
        if let Some(cp) = board.squares[from as usize] {
            if cp.color == color {
                match cp.piece {
                    Piece::Knight => count = count + knight_mob(board, from, color),
                    Piece::Bishop => count = count + slider_mob(board, from, color, true),
                    Piece::Rook => count = count + slider_mob(board, from, color, false),
                    Piece::Queen => {
                        count = count + slider_mob(board, from, color, true);
                        count = count + slider_mob(board, from, color, false);
                    },
                    _ => {},
                }
            }
        }
        from = from + 1;
    }
    count
}

// ---------------------------------------------------------------------------
// Evaluation
// ---------------------------------------------------------------------------

/// All terms as White minus Black.
pub open spec fn eval_white(v: BoardView) -> int {
    let s = v.squares;
    let ph = phase_spec(s);
    placement_sum(s, ph, 64) + (pawn_structure_spec(s, Color::White) - pawn_structure_spec(
        s,
        Color::Black,
    )) + (king_safety_spec(s, Color::White, ph) - king_safety_spec(s, Color::Black, ph)) + (
    bishop_pair_spec(s, Color::White) - bishop_pair_spec(s, Color::Black)) + (rook_sum(
        s,
        Color::White,
        64,
    ) - rook_sum(s, Color::Black, 64)) + (mob_sum(v, Color::White, 64) - mob_sum(
        v,
        Color::Black,
        64,
    )) * 3
}

/// The evaluation from the side to move's point of view.
pub open spec fn evaluate_spec(v: BoardView) -> int {
    if v.side == Color::White {
        eval_white(v)
    } else {
        -eval_white(v)
    }
}

pub fn evaluate(board: &Board) -> (r: i32)
    requires
        board.wf(),
    ensures
        r == evaluate_spec(board@),
        -EVAL_BOUND <= r <= EVAL_BOUND,
{
    let phase = game_phase(board);
    let mut score = placement(board, phase);
    score = score + (pawn_structure(board, Color::White) - pawn_structure(board, Color::Black));
    score = score + (king_safety(board, Color::White, phase) - king_safety(
        board,
        Color::Black,
        phase,
    ));
    score = score + (bishop_pair(board, Color::White) - bishop_pair(board, Color::Black));
    score = score + (rook_bonus(board, Color::White) - rook_bonus(board, Color::Black));
    score = score + (mobility(board, Color::White) - mobility(board, Color::Black)) * 3;
    if board.side == Color::White {
        score
    } else {
        -score
    }
}

proof fn lemma_ray_squares_only(
    v: BoardView,
    w: BoardView,
    from: int,
    c: Color,
    r: int,
    f: int,
    dr: int,
    df: int,
    n: nat,
)
    requires
        v.squares == w.squares,
    ensures
        ray_moves(v, from, c, r, f, dr, df, n) == ray_moves(w, from, c, r, f, dr, df, n),
    decreases n,
{
    reveal(ray_moves);
    if n > 0 {
        lemma_ray_squares_only(v, w, from, c, r + dr, f + df, dr, df, (n - 1) as nat);
    }
}

proof fn lemma_slider_squares_only(v: BoardView, w: BoardView, from: int, c: Color, diagonal: bool, i: int)
    requires
        v.squares == w.squares,
    ensures
        slider_spec(v, from, c, diagonal, i) == slider_spec(w, from, c, diagonal, i),
    decreases 4 - i,
{
    if 0 <= i < 4 {
        let (dr, df) = crate::movegen::slider_dir(diagonal, i);
        lemma_ray_squares_only(v, w, from, c, rank_of(from) + dr, file_of(from) + df, dr, df, 7);
        lemma_slider_squares_only(v, w, from, c, diagonal, i + 1);
    }
}

proof fn lemma_leaper_squares_only(v: BoardView, w: BoardView, from: int, c: Color, knight: bool, i: int)
    requires
        v.squares == w.squares,
    ensures
        leaper_spec(v, from, c, knight, i) == leaper_spec(w, from, c, knight, i),
    decreases 8 - i,
{
    reveal(leaper_one);
    if 0 <= i < 8 {
        lemma_leaper_squares_only(v, w, from, c, knight, i + 1);
    }
}

proof fn lemma_mob_squares_only(v: BoardView, w: BoardView, c: Color, n: int)
    requires
        v.squares == w.squares,
    ensures
        mob_sum(v, c, n) == mob_sum(w, c, n),
    decreases n,
{
    if n > 0 {
        lemma_mob_squares_only(v, w, c, n - 1);
        lemma_leaper_squares_only(v, w, n - 1, c, true, 0);
        lemma_slider_squares_only(v, w, n - 1, c, true, 0);
        lemma_slider_squares_only(v, w, n - 1, c, false, 0);
    }
}

/// The evaluation is from the mover's side: two positions that differ only
/// in the side to move evaluate to opposite scores.
pub proof fn lemma_eval_side_relative(v: BoardView, w: BoardView)
    requires
        w == (BoardView { side: opposite_spec(v.side), ..v }),
    ensures
        evaluate_spec(w) == -evaluate_spec(v),
{
    lemma_mob_squares_only(v, w, Color::White, 64);
    lemma_mob_squares_only(v, w, Color::Black, 64);
    assert(eval_white(w) == eval_white(v));
}

} // verus!
