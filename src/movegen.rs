//! Legal move generation: pseudo-legal moves by piece kind, then a filter
//! that keeps the moves leaving the mover's king unattacked.
use vstd::prelude::*;
use crate::board::{
    abs, attacked_spec, castle_rooks, colored, ep_after, ep_victim, file_of, king_safe, make_spec,
    move_on_board, opposite, opposite_spec, rank_of, consistent_move, Board,
    BoardView, Color, ColoredPiece, Move, Piece,
};

verus! {

// ---------------------------------------------------------------------------
// What the generator produces
// ---------------------------------------------------------------------------

pub open spec fn mk(
    from: int,
    to: int,
    promotion: Option<Piece>,
    captured: Option<Piece>,
    is_ep: bool,
    is_castle: bool,
) -> Move {
    Move { from: from as u8, to: to as u8, promotion, captured, is_ep, is_castle }
}

/// The four promotions of one pawn move, queen first.
pub open spec fn promos(from: int, to: int, cap: Option<Piece>) -> Seq<Move> {
    seq![
        mk(from, to, Some(Piece::Queen), cap, false, false),
        mk(from, to, Some(Piece::Rook), cap, false, false),
        mk(from, to, Some(Piece::Bishop), cap, false, false),
        mk(from, to, Some(Piece::Knight), cap, false, false),
    ]
}

pub open spec fn pawn_dir(c: Color) -> int {
    if c == Color::White { 1 } else { -1 }
}

pub open spec fn start_rank(c: Color) -> int {
    if c == Color::White { 1 } else { 6 }
}

pub open spec fn promo_rank(c: Color) -> int {
    if c == Color::White { 7 } else { 0 }
}

/// Single push (promoting on the last rank) and double push from the start rank.
#[verifier::opaque]
pub open spec fn pawn_push_spec(v: BoardView, from: int, c: Color) -> Seq<Move> {
    let fr = rank_of(from);
    let ff = file_of(from);
    let tr = fr + pawn_dir(c);
    let to = tr * 8 + ff;
    if 0 <= tr < 8 && v.squares[to] is None {
        if tr == promo_rank(c) {
            promos(from, to, None)
        } else {
            let to2 = (fr + 2 * pawn_dir(c)) * 8 + ff;
            seq![mk(from, to, None, None, false, false)] + if fr == start_rank(c)
                && v.squares[to2] is None {
                seq![mk(from, to2, None, None, false, false)]
            } else {
                Seq::empty()
            }
        }
    } else {
        Seq::empty()
    }
}

/// Diagonal capture toward file offset `df`, then en passant onto that square.
#[verifier::opaque]
pub open spec fn pawn_capture_spec(v: BoardView, from: int, c: Color, df: int) -> Seq<Move> {
    let tr = rank_of(from) + pawn_dir(c);
    let tf = file_of(from) + df;
    if tf < 0 || tf >= 8 || tr < 0 || tr >= 8 {
        Seq::empty()
    } else {
        let to = tr * 8 + tf;
        let normal = match v.squares[to] {
            Some(t) => if t.color != c {
                if tr == promo_rank(c) {
                    promos(from, to, Some(t.piece))
                } else {
                    seq![mk(from, to, None, Some(t.piece), false, false)]
                }
            } else {
                Seq::empty()
            },
            None => Seq::empty(),
        };
        let ep = if v.ep_square == Some(to as u8) {
            seq![mk(from, to, None, Some(Piece::Pawn), true, false)]
        } else {
            Seq::empty()
        };
        normal + ep
    }
}

pub open spec fn pawn_spec(v: BoardView, from: int, c: Color) -> Seq<Move> {
    pawn_push_spec(v, from, c) + pawn_capture_spec(v, from, c, -1) + pawn_capture_spec(
        v,
        from,
        c,
        1,
    )
}

pub open spec fn knight_delta(i: int) -> (int, int) {
    if i == 0 {
        (-2, -1)
    } else if i == 1 {
        (-2, 1)
    } else if i == 2 {
        (-1, -2)
    } else if i == 3 {
        (-1, 2)
    } else if i == 4 {
        (1, -2)
    } else if i == 5 {
        (1, 2)
    } else if i == 6 {
        (2, -1)
    } else {
        (2, 1)
    }
}

pub open spec fn king_delta(i: int) -> (int, int) {
    if i == 0 {
        (-1, -1)
    } else if i == 1 {
        (-1, 0)
    } else if i == 2 {
        (-1, 1)
    } else if i == 3 {
        (0, -1)
    } else if i == 4 {
        (0, 1)
    } else if i == 5 {
        (1, -1)
    } else if i == 6 {
        (1, 0)
    } else {
        (1, 1)
    }
}

pub open spec fn leaper_delta(knight: bool, i: int) -> (int, int) {
    if knight { knight_delta(i) } else { king_delta(i) }
}

/// The move onto the square at offset (dr, df), if on the board and not
/// held by a friendly piece.
#[verifier::opaque]
pub open spec fn leaper_one(v: BoardView, from: int, c: Color, dr: int, df: int) -> Seq<Move> {
    let tr = rank_of(from) + dr;
    let tf = file_of(from) + df;
    if tr < 0 || tr >= 8 || tf < 0 || tf >= 8 {
        Seq::empty()
    } else {
        let to = tr * 8 + tf;
        match v.squares[to] {
            Some(t) => if t.color != c {
                seq![mk(from, to, None, Some(t.piece), false, false)]
            } else {
                Seq::empty()
            },
            None => seq![mk(from, to, None, None, false, false)],
        }
    }
}

/// Leaper moves for offsets `i..8` of the knight's or the king's table.
pub open spec fn leaper_spec(v: BoardView, from: int, c: Color, knight: bool, i: int) -> Seq<Move>
    decreases 8 - i,
{
    if i < 0 || i >= 8 {
        Seq::empty()
    } else {
        leaper_one(v, from, c, leaper_delta(knight, i).0, leaper_delta(knight, i).1)
            + leaper_spec(v, from, c, knight, i + 1)
    }
}

/// Moves along one ray from (r, f): empty squares, then a capture of the
/// first enemy piece; at most `n` squares.
#[verifier::opaque]
pub open spec fn ray_moves(
    v: BoardView,
    from: int,
    c: Color,
    r: int,
    f: int,
    dr: int,
    df: int,
    n: nat,
) -> Seq<Move>
    decreases n,
{
    if n == 0 || r < 0 || r >= 8 || f < 0 || f >= 8 {
        Seq::empty()
    } else {
        let to = r * 8 + f;
        match v.squares[to] {
            Some(t) => if t.color != c {
                seq![mk(from, to, None, Some(t.piece), false, false)]
            } else {
                Seq::empty()
            },
            None => seq![mk(from, to, None, None, false, false)] + ray_moves(
                v,
                from,
                c,
                r + dr,
                f + df,
                dr,
                df,
                (n - 1) as nat,
            ),
        }
    }
}

pub open spec fn bishop_dir(i: int) -> (int, int) {
    if i == 0 {
        (-1, -1)
    } else if i == 1 {
        (-1, 1)
    } else if i == 2 {
        (1, -1)
    } else {
        (1, 1)
    }
}

pub open spec fn rook_dir(i: int) -> (int, int) {
    if i == 0 {
        (-1, 0)
    } else if i == 1 {
        (1, 0)
    } else if i == 2 {
        (0, -1)
    } else {
        (0, 1)
    }
}

pub open spec fn slider_dir(diagonal: bool, i: int) -> (int, int) {
    if diagonal { bishop_dir(i) } else { rook_dir(i) }
}

/// Slider moves along directions `i..4` of the diagonal or orthogonal set.
pub open spec fn slider_spec(v: BoardView, from: int, c: Color, diagonal: bool, i: int) -> Seq<
    Move,
>
    decreases 4 - i,
{
    if i < 0 || i >= 4 {
        Seq::empty()
    } else {
        let (dr, df) = slider_dir(diagonal, i);
        ray_moves(v, from, c, rank_of(from) + dr, file_of(from) + df, dr, df, 7) + slider_spec(
            v,
            from,
            c,
            diagonal,
            i + 1,
        )
    }
}

pub open spec fn home_king_square(c: Color) -> int {
    if c == Color::White { 4 } else { 60 }
}

pub open spec fn kingside_bit(c: Color) -> u8 {
    if c == Color::White { 1 } else { 4 }
}

pub open spec fn queenside_bit(c: Color) -> u8 {
    if c == Color::White { 2 } else { 8 }
}

/// Castling from the home square: the right is held, the squares between
/// king and rook are empty, and the king is not in check and neither
/// crosses nor lands on an attacked square.
#[verifier::opaque]
pub open spec fn castling_spec(v: BoardView, from: int, c: Color) -> Seq<Move> {
    let s = v.squares;
    let k = home_king_square(c);
    let them = opposite_spec(c);
    if from != k || attacked_spec(s, k, them) {
        Seq::empty()
    } else {
        let kingside = if v.castling & kingside_bit(c) != 0 && s[k + 1] is None && s[k + 2] is None
            && !attacked_spec(s, k + 1, them) && !attacked_spec(s, k + 2, them) {
            seq![mk(from, k + 2, None, None, false, true)]
        } else {
            Seq::empty()
        };
        let queenside = if v.castling & queenside_bit(c) != 0 && s[k - 1] is None && s[k - 2] is None
            && s[k - 3] is None && !attacked_spec(s, k - 1, them) && !attacked_spec(s, k - 2, them) {
            seq![mk(from, k - 2, None, None, false, true)]
        } else {
            Seq::empty()
        };
        kingside + queenside
    }
}

/// Pseudo-legal moves of the piece on `sq`, if it belongs to the side to move.
#[verifier::opaque]
pub open spec fn square_moves(v: BoardView, sq: int) -> Seq<Move> {
    match v.squares[sq] {
        None => Seq::empty(),
        Some(cp) => if cp.color != v.side {
            Seq::empty()
        } else {
            match cp.piece {
                Piece::Pawn => pawn_spec(v, sq, cp.color),
                Piece::Knight => leaper_spec(v, sq, cp.color, true, 0),
                Piece::Bishop => slider_spec(v, sq, cp.color, true, 0),
                Piece::Rook => slider_spec(v, sq, cp.color, false, 0),
                Piece::Queen => slider_spec(v, sq, cp.color, true, 0) + slider_spec(
                    v,
                    sq,
                    cp.color,
                    false,
                    0,
                ),
                Piece::King => leaper_spec(v, sq, cp.color, false, 0) + castling_spec(
                    v,
                    sq,
                    cp.color,
                ),
            }
        },
    }
}

pub open spec fn pseudo_from(v: BoardView, sq: int) -> Seq<Move>
    decreases 64 - sq,
{
    if sq < 0 || sq >= 64 {
        Seq::empty()
    } else {
        square_moves(v, sq) + pseudo_from(v, sq + 1)
    }
}

/// Pseudo-legal moves in square order.
pub open spec fn pseudo_moves(v: BoardView) -> Seq<Move> {
    pseudo_from(v, 0)
}

/// After `m`, the mover's king stands on the board unattacked.
pub open spec fn leaves_king_safe(v: BoardView, m: Move) -> bool {
    king_safe(make_spec(v, m).squares, v.side)
}

pub open spec fn legal_filter(v: BoardView, s: Seq<Move>) -> Seq<Move>
    decreases s.len(),
{
    if s.len() == 0 {
        Seq::empty()
    } else {
        legal_filter(v, s.drop_last()) + if leaves_king_safe(v, s.last()) {
            seq![s.last()]
        } else {
            Seq::empty()
        }
    }
}

/// The legal moves of a position, in generation order.
pub open spec fn legal_moves(v: BoardView) -> Seq<Move> {
    legal_filter(v, pseudo_moves(v))
}

pub open spec fn is_capture(m: Move) -> bool {
    m.captured is Some || m.is_ep
}

pub open spec fn capture_filter(s: Seq<Move>) -> Seq<Move>
    decreases s.len(),
{
    if s.len() == 0 {
        Seq::empty()
    } else {
        capture_filter(s.drop_last()) + if is_capture(s.last()) {
            seq![s.last()]
        } else {
            Seq::empty()
        }
    }
}

// ---------------------------------------------------------------------------
// What holds of each generated move
// ---------------------------------------------------------------------------

/// An en-passant move: a pawn capture onto the en-passant square.
pub open spec fn ep_shape(v: BoardView, m: Move) -> bool {
    let from = m.from as int;
    let to = m.to as int;
    &&& !m.is_castle
    &&& m.promotion is None
    &&& m.captured == Some(Piece::Pawn)
    &&& v.squares[from].unwrap().piece == Piece::Pawn
    &&& v.ep_square == Some(m.to)
    &&& rank_of(to) - rank_of(from) == pawn_dir(v.side)
    &&& abs(file_of(to) - file_of(from)) == 1
}

/// A castling move: the king two squares sideways, with the landing square
/// and the rook's landing square empty.
pub open spec fn castle_shape(v: BoardView, m: Move) -> bool {
    let from = m.from as int;
    let to = m.to as int;
    &&& !m.is_ep
    &&& m.promotion is None
    &&& v.squares[from].unwrap().piece == Piece::King
    &&& (to == from + 2 || to == from - 2)
    &&& v.squares[to] is None
    &&& (castle_rooks(from, to) matches Some((rf, rt)) ==> v.squares[rt] is None)
}

/// What every generated move satisfies: it moves a piece of the side to
/// move; a promotion is a pawn's, to a queen, rook, bishop or knight; outside
/// en passant the captured piece is exactly the enemy piece on the
/// destination (none if empty); en passant is exactly a pawn's diagonal move
/// onto an empty en-passant square.
pub open spec fn gen_fact(v: BoardView, m: Move) -> bool {
    let s = v.squares;
    let from = m.from as int;
    let to = m.to as int;
    &&& move_on_board(m)
    &&& from != to
    &&& s[from] is Some
    &&& s[from].unwrap().color == v.side
    &&& (m.promotion is Some ==> s[from].unwrap().piece == Piece::Pawn && m.promotion != Some(
        Piece::Pawn,
    ) && m.promotion != Some(Piece::King))
    &&& (!m.is_ep ==> s[to] == colored(m.captured, opposite_spec(v.side)))
    &&& (m.is_ep ==> ep_shape(v, m))
    &&& (m.is_castle ==> castle_shape(v, m))
    &&& (s[from].unwrap().piece == Piece::Pawn && file_of(from) != file_of(to) && s[to] is None
        ==> m.is_ep)
    &&& (s[from].unwrap().piece == Piece::Pawn && abs(to - from) == 16 ==> double_push_shape(v, m))
}

/// A double push: straight ahead two ranks over an empty square.
pub open spec fn double_push_shape(v: BoardView, m: Move) -> bool {
    let from = m.from as int;
    let to = m.to as int;
    &&& !m.is_ep
    &&& !m.is_castle
    &&& m.promotion is None
    &&& to == from + 16 * pawn_dir(v.side)
    &&& v.squares[(from + to) / 2] is None
}

pub open spec fn all_gen_facts(v: BoardView, ms: Seq<Move>) -> bool {
    forall|i: int| 0 <= i < ms.len() ==> gen_fact(v, #[trigger] ms[i])
}

/// The en-passant square, where set, is empty and has an enemy pawn behind
/// it, as after a double push.
pub open spec fn ep_sound(v: BoardView) -> bool {
    match v.ep_square {
        Some(e) => {
            &&& v.squares[e as int] is None
            &&& ep_victim(e as int, v.side) matches Some(vsq)
            &&& v.squares[vsq] == Some(
                ColoredPiece { piece: Piece::Pawn, color: opposite_spec(v.side) },
            )
        },
        None => true,
    }
}

// ---------------------------------------------------------------------------
// Generators
// ---------------------------------------------------------------------------

pub(crate) proof fn lemma_square(r: int, f: int)
    requires
        0 <= r < 8,
        0 <= f < 8,
    ensures
        0 <= r * 8 + f < 64,
        rank_of(r * 8 + f) == r,
        file_of(r * 8 + f) == f,
{
}

fn push_promotions(board: &Board, from: u8, to: u8, cap: Option<Piece>, moves: &mut Vec<Move>)
    requires
        board.wf(),
        from < 64,
        to < 64,
        from != to,
        board@.squares[from as int] == Some(ColoredPiece { piece: Piece::Pawn, color: board.side }),
        board@.squares[to as int] == colored(cap, opposite_spec(board.side)),
        file_of(from as int) != file_of(to as int) ==> board@.squares[to as int] is Some,
        abs(to - from) != 16,
        all_gen_facts(board@, old(moves)@),
    ensures
        final(moves)@ == old(moves)@ + promos(from as int, to as int, cap),
        all_gen_facts(board@, final(moves)@),
{
    let ghost m0 = moves@;
    moves.push(
        Move { from, to, promotion: Some(Piece::Queen), captured: cap, is_ep: false, is_castle: false },
    );
    moves.push(
        Move { from, to, promotion: Some(Piece::Rook), captured: cap, is_ep: false, is_castle: false },
    );
    moves.push(
        Move { from, to, promotion: Some(Piece::Bishop), captured: cap, is_ep: false, is_castle: false },
    );
    moves.push(
        Move { from, to, promotion: Some(Piece::Knight), captured: cap, is_ep: false, is_castle: false },
    );
    assert(moves@ =~= m0 + promos(from as int, to as int, cap));
}

fn gen_pawn_capture(board: &Board, from: u8, color: Color, df: i32, moves: &mut Vec<Move>)
    requires
        board.wf(),
        from < 64,
        color == board.side,
        board@.squares[from as int] == Some(ColoredPiece { piece: Piece::Pawn, color }),
        df == -1 || df == 1,
        all_gen_facts(board@, old(moves)@),
    ensures
        final(moves)@ == old(moves)@ + pawn_capture_spec(board@, from as int, color, df as int),
        all_gen_facts(board@, final(moves)@),
{
    let ghost m0 = moves@;
    let ghost v = board@;
    reveal(pawn_capture_spec);
    let dir: i32 = if color == Color::White { 1 } else { -1 };
    let promo_rank: i32 = if color == Color::White { 7 } else { 0 };
    let fr = (from / 8) as i32;
    let ff = (from % 8) as i32;
    let tf = ff + df;
    let tr = fr + dir;
    if tf < 0 || tf >= 8 || tr < 0 || tr >= 8 {
        return ;
    }
    let to = (tr * 8 + tf) as u8;
    proof {
        lemma_square(tr as int, tf as int);
        lemma_square(fr as int, ff as int);
    }
    if let Some(target) = board.squares[to as usize] {
        if target.color != color {
            if tr == promo_rank {
                push_promotions(board, from, to, Some(target.piece), moves);
            } else {
                moves.push(
                    Move {
                        from,
                        to,
                        promotion: None,
                        captured: Some(target.piece),
                        is_ep: false,
                        is_castle: false,
                    },
                );
            }
        }
    }
    let ghost m1 = moves@;
    match board.ep_square {
        Some(e) => {
            if e == to {
                moves.push(
                    Move {
                        from,
                        to,
                        promotion: None,
                        captured: Some(Piece::Pawn),
                        is_ep: true,
                        is_castle: false,
                    },
                );
            }
        },
        None => {},
    }
    assert(moves@ =~= m0 + pawn_capture_spec(v, from as int, color, df as int));
}

fn gen_pawn_push(board: &Board, from: u8, color: Color, moves: &mut Vec<Move>)
    requires
        board.wf(),
        from < 64,
        color == board.side,
        board@.squares[from as int] == Some(ColoredPiece { piece: Piece::Pawn, color }),
        all_gen_facts(board@, old(moves)@),
    ensures
        final(moves)@ == old(moves)@ + pawn_push_spec(board@, from as int, color),
        all_gen_facts(board@, final(moves)@),
{
    let ghost m0 = moves@;
    let ghost v = board@;
    reveal(pawn_push_spec);
    let dir: i32 = if color == Color::White { 1 } else { -1 };
    let start_rank: i32 = if color == Color::White { 1 } else { 6 };
    let promo_rank: i32 = if color == Color::White { 7 } else { 0 };
    let fr = (from / 8) as i32;
    let ff = (from % 8) as i32;
    let tr = fr + dir;
    if tr < 0 || tr >= 8 {
        return ;
    }
    let to = (tr * 8 + ff) as u8;
    proof {
        lemma_square(fr as int, ff as int);
        lemma_square(tr as int, ff as int);
    }
    if board.squares[to as usize].is_some() {
        return ;
    }
    if tr == promo_rank {
        push_promotions(board, from, to, None, moves);
        return ;
    }
    moves.push(Move { from, to, promotion: None, captured: None, is_ep: false, is_castle: false });
    if fr == start_rank {
        let to2 = ((fr + 2 * dir) * 8 + ff) as u8;
        proof {
            lemma_square(fr + 2 * dir, ff as int);
        }
        if board.squares[to2 as usize].is_none() {
            moves.push(
                Move { from, to: to2, promotion: None, captured: None, is_ep: false, is_castle: false },
            );
        }
    }
    assert(moves@ =~= m0 + pawn_push_spec(v, from as int, color));
}

fn gen_pawn_moves(board: &Board, from: u8, color: Color, moves: &mut Vec<Move>)
    requires
        board.wf(),
        from < 64,
        color == board.side,
        board@.squares[from as int] == Some(ColoredPiece { piece: Piece::Pawn, color }),
        all_gen_facts(board@, old(moves)@),
    ensures
        final(moves)@ == old(moves)@ + pawn_spec(board@, from as int, color),
        all_gen_facts(board@, final(moves)@),
{
    let ghost m0 = moves@;
    gen_pawn_push(board, from, color, moves);
    gen_pawn_capture(board, from, color, -1, moves);
    gen_pawn_capture(board, from, color, 1, moves);
    assert(moves@ =~= m0 + pawn_spec(board@, from as int, color));
}

pub(crate) fn leaper_delta_at(knight: bool, i: usize) -> (r: (i32, i32))
    requires
        i < 8,
    ensures
        r.0 as int == leaper_delta(knight, i as int).0,
        r.1 as int == leaper_delta(knight, i as int).1,
{
    if knight {
        if i == 0 {
            (-2, -1)
        } else if i == 1 {
            (-2, 1)
        } else if i == 2 {
            (-1, -2)
        } else if i == 3 {
            (-1, 2)
        } else if i == 4 {
            (1, -2)
        } else if i == 5 {
            (1, 2)
        } else if i == 6 {
            (2, -1)
        } else {
            (2, 1)
        }
    } else {
        if i == 0 {
            (-1, -1)
        } else if i == 1 {
            (-1, 0)
        } else if i == 2 {
            (-1, 1)
        } else if i == 3 {
            (0, -1)
        } else if i == 4 {
            (0, 1)
        } else if i == 5 {
            (1, -1)
        } else if i == 6 {
            (1, 0)
        } else {
            (1, 1)
        }
    }
}

fn gen_leaper_one(board: &Board, from: u8, color: Color, dr: i32, df: i32, moves: &mut Vec<Move>)
    requires
        board.wf(),
        from < 64,
        color == board.side,
        board@.squares[from as int] is Some,
        board@.squares[from as int].unwrap().color == color,
        board@.squares[from as int].unwrap().piece != Piece::Pawn,
        !(board@.squares[from as int].unwrap().piece == Piece::King && (dr == 0 && (df == 2
            || df == -2))),
        -2 <= dr <= 2,
        -2 <= df <= 2,
        !(dr == 0 && df == 0),
        all_gen_facts(board@, old(moves)@),
    ensures
        final(moves)@ == old(moves)@ + leaper_one(board@, from as int, color, dr as int, df as int),
        all_gen_facts(board@, final(moves)@),
{
    reveal(leaper_one);
    let ghost m0 = moves@;
    let fr = (from / 8) as i32;
    let ff = (from % 8) as i32;
    let tr = fr + dr;
    let tf = ff + df;
    if tr < 0 || tr >= 8 || tf < 0 || tf >= 8 {
        return ;
    }
    let to = (tr * 8 + tf) as u8;
    proof {
        lemma_square(fr as int, ff as int);
        lemma_square(tr as int, tf as int);
    }
    match board.squares[to as usize] {
        Some(t) => {
            if t.color != color {
                moves.push(
                    Move {
                        from,
                        to,
                        promotion: None,
                        captured: Some(t.piece),
                        is_ep: false,
                        is_castle: false,
                    },
                );
            }
        },
        None => {
            moves.push(
                Move { from, to, promotion: None, captured: None, is_ep: false, is_castle: false },
            );
        },
    }
    assert(moves@ =~= m0 + leaper_one(board@, from as int, color, dr as int, df as int));
}

fn gen_leaper_moves(board: &Board, from: u8, color: Color, knight: bool, moves: &mut Vec<Move>)
    requires
        board.wf(),
        from < 64,
        color == board.side,
        board@.squares[from as int] == Some(
            ColoredPiece { piece: if knight { Piece::Knight } else { Piece::King }, color },
        ),
        all_gen_facts(board@, old(moves)@),
    ensures
        final(moves)@ == old(moves)@ + leaper_spec(board@, from as int, color, knight, 0),
        all_gen_facts(board@, final(moves)@),
{
    let ghost m0 = moves@;
    let ghost v = board@;
    let mut i: usize = 0;
    while i < 8
        invariant
            board.wf(),
            v == board@,
            from < 64,
            color == board.side,
            board@.squares[from as int] == Some(
                ColoredPiece { piece: if knight { Piece::Knight } else { Piece::King }, color },
            ),
            i <= 8,
            all_gen_facts(v, moves@),
            moves@ + leaper_spec(v, from as int, color, knight, i as int) == m0 + leaper_spec(
                v,
                from as int,
                color,
                knight,
                0,
            ),
        decreases 8 - i,
    {
        let (dr, df) = leaper_delta_at(knight, i);
        let ghost before = moves@;
        gen_leaper_one(board, from, color, dr, df, moves);
        assert(moves@ + leaper_spec(v, from as int, color, knight, i + 1) =~= before
            + leaper_spec(v, from as int, color, knight, i as int));
        i = i + 1;
    }
    assert(moves@ =~= m0 + leaper_spec(v, from as int, color, knight, 0));
}

fn gen_ray(board: &Board, from: u8, color: Color, dr: i32, df: i32, moves: &mut Vec<Move>)
    requires
        board.wf(),
        from < 64,
        color == board.side,
        board@.squares[from as int] is Some,
        board@.squares[from as int].unwrap().color == color,
        board@.squares[from as int].unwrap().piece != Piece::Pawn,
        board@.squares[from as int].unwrap().piece != Piece::King,
        -1 <= dr <= 1,
        -1 <= df <= 1,
        !(dr == 0 && df == 0),
        all_gen_facts(board@, old(moves)@),
    ensures
        final(moves)@ == old(moves)@ + ray_moves(
            board@,
            from as int,
            color,
            rank_of(from as int) + dr,
            file_of(from as int) + df,
            dr as int,
            df as int,
            7,
        ),
        all_gen_facts(board@, final(moves)@),
{
    let ghost m0 = moves@;
    let ghost v = board@;
    let fr = (from / 8) as i32;
    let ff = (from % 8) as i32;
    proof {
        lemma_square(fr as int, ff as int);
    }
    let ghost total = ray_moves(
        v,
        from as int,
        color,
        rank_of(from as int) + dr,
        file_of(from as int) + df,
        dr as int,
        df as int,
        7,
    );
    let mut r = fr + dr;
    let mut f = ff + df;
    let mut n: i32 = 7;
    let mut done = false;
    while !done && r >= 0 && r < 8 && f >= 0 && f < 8
        invariant
            board.wf(),
            v == board@,
            from < 64,
            color == board.side,
            board@.squares[from as int] is Some,
            board@.squares[from as int].unwrap().color == color,
            board@.squares[from as int].unwrap().piece != Piece::Pawn,
            board@.squares[from as int].unwrap().piece != Piece::King,
            0 <= fr < 8,
            0 <= ff < 8,
            fr == rank_of(from as int),
            ff == file_of(from as int),
            -1 <= dr <= 1,
            -1 <= df <= 1,
            !(dr == 0 && df == 0),
            0 <= n <= 7,
            dr == 1 ==> r == fr + 8 - n,
            dr == -1 ==> r == fr - 8 + n,
            dr == 0 ==> r == fr,
            df == 1 ==> f == ff + 8 - n,
            df == -1 ==> f == ff - 8 + n,
            df == 0 ==> f == ff,
            all_gen_facts(v, moves@),
            done ==> moves@ == m0 + total,
            !done ==> moves@ + ray_moves(v, from as int, color, r as int, f as int, dr as int, df as int, n as nat)
                == m0 + total,
        decreases n + if done { 0int } else { 1int },
    {
        reveal(ray_moves);
        let to = (r * 8 + f) as u8;
        proof {
            lemma_square(r as int, f as int);
        }
        let ghost before = moves@;
        match board.squares[to as usize] {
            Some(t) => {
                if t.color != color {
                    moves.push(
                        Move {
                            from,
                            to,
                            promotion: None,
                            captured: Some(t.piece),
                            is_ep: false,
                            is_castle: false,
                        },
                    );
                }
                assert(moves@ =~= m0 + total);
                done = true;
            },
            None => {
                moves.push(
                    Move { from, to, promotion: None, captured: None, is_ep: false, is_castle: false },
                );
            },
        }
        if !done {
            assert(moves@ + ray_moves(v, from as int, color, r + dr, f + df, dr as int, df as int, (n - 1) as nat)
                =~= before + ray_moves(v, from as int, color, r as int, f as int, dr as int, df as int, n as nat));
            r = r + dr;
            f = f + df;
            n = n - 1;
        }
    }
    proof {
        reveal(ray_moves);
    }
    assert(moves@ =~= m0 + total);
}

pub(crate) fn slider_dir_at(diagonal: bool, i: usize) -> (r: (i32, i32))
    requires
        i < 4,
    ensures
        r.0 as int == slider_dir(diagonal, i as int).0,
        r.1 as int == slider_dir(diagonal, i as int).1,
{
    if diagonal {
        if i == 0 {
            (-1, -1)
        } else if i == 1 {
            (-1, 1)
        } else if i == 2 {
            (1, -1)
        } else {
            (1, 1)
        }
    } else {
        if i == 0 {
            (-1, 0)
        } else if i == 1 {
            (1, 0)
        } else if i == 2 {
            (0, -1)
        } else {
            (0, 1)
        }
    }
}

fn gen_slider_moves(board: &Board, from: u8, color: Color, diagonal: bool, moves: &mut Vec<Move>)
    requires
        board.wf(),
        from < 64,
        color == board.side,
        board@.squares[from as int] is Some,
        board@.squares[from as int].unwrap().color == color,
        board@.squares[from as int].unwrap().piece != Piece::Pawn,
        board@.squares[from as int].unwrap().piece != Piece::King,
        all_gen_facts(board@, old(moves)@),
    ensures
        final(moves)@ == old(moves)@ + slider_spec(board@, from as int, color, diagonal, 0),
        all_gen_facts(board@, final(moves)@),
{
    let ghost m0 = moves@;
    let ghost v = board@;
    let mut i: usize = 0;
    while i < 4
        invariant
            board.wf(),
            v == board@,
            from < 64,
            color == board.side,
            board@.squares[from as int] is Some,
            board@.squares[from as int].unwrap().color == color,
            board@.squares[from as int].unwrap().piece != Piece::Pawn,
            board@.squares[from as int].unwrap().piece != Piece::King,
            i <= 4,
            all_gen_facts(v, moves@),
            moves@ + slider_spec(v, from as int, color, diagonal, i as int) == m0 + slider_spec(
                v,
                from as int,
                color,
                diagonal,
                0,
            ),
        decreases 4 - i,
    {
        let (dr, df) = slider_dir_at(diagonal, i);
        let ghost before = moves@;
        gen_ray(board, from, color, dr, df, moves);
        assert(moves@ + slider_spec(v, from as int, color, diagonal, i + 1) =~= before
            + slider_spec(v, from as int, color, diagonal, i as int));
        i = i + 1;
    }
    assert(moves@ =~= m0 + slider_spec(v, from as int, color, diagonal, 0));
}

fn gen_castling(board: &Board, from: u8, color: Color, moves: &mut Vec<Move>)
    requires
        board.wf(),
        from < 64,
        color == board.side,
        board@.squares[from as int] == Some(ColoredPiece { piece: Piece::King, color }),
        all_gen_facts(board@, old(moves)@),
    ensures
        final(moves)@ == old(moves)@ + castling_spec(board@, from as int, color),
        all_gen_facts(board@, final(moves)@),
{
    reveal(castling_spec);
    let ghost m0 = moves@;
    let (ks_bit, qs_bit, king_sq): (u8, u8, u8) = match color {
        Color::White => (1, 2, 4),
        Color::Black => (4, 8, 60),
    };
    let them = opposite(color);
    if from != king_sq {
        return ;
    }
    if board.is_attacked(king_sq, them) {
        return ;
    }
    if board.castling & ks_bit != 0 {
        let sq1 = king_sq + 1;
        let sq2 = king_sq + 2;
        if board.squares[sq1 as usize].is_none() && board.squares[sq2 as usize].is_none()
            && !board.is_attacked(sq1, them) && !board.is_attacked(sq2, them) {
            moves.push(
                Move { from, to: sq2, promotion: None, captured: None, is_ep: false, is_castle: true },
            );
        }
    }
    let ghost m1 = moves@;
    if board.castling & qs_bit != 0 {
        let sq1 = king_sq - 1;
        let sq2 = king_sq - 2;
        let sq3 = king_sq - 3;
        if board.squares[sq1 as usize].is_none() && board.squares[sq2 as usize].is_none()
            && board.squares[sq3 as usize].is_none() && !board.is_attacked(sq1, them)
            && !board.is_attacked(sq2, them) {
            moves.push(
                Move { from, to: sq2, promotion: None, captured: None, is_ep: false, is_castle: true },
            );
        }
    }
    assert(moves@ =~= m0 + castling_spec(board@, from as int, color));
}

fn gen_square(board: &Board, sq: u8, moves: &mut Vec<Move>)
    requires
        board.wf(),
        sq < 64,
        all_gen_facts(board@, old(moves)@),
    ensures
        final(moves)@ == old(moves)@ + square_moves(board@, sq as int),
        all_gen_facts(board@, final(moves)@),
{
    reveal(square_moves);
    let ghost m0 = moves@;
    let cp = match board.squares[sq as usize] {
        Some(cp) => cp,
        None => {
            assert(moves@ =~= m0 + square_moves(board@, sq as int));
            return ;
        },
    };
    if cp.color != board.side {
        assert(moves@ =~= m0 + square_moves(board@, sq as int));
        return ;
    }
    match cp.piece {
        Piece::Pawn => gen_pawn_moves(board, sq, cp.color, moves),
        Piece::Knight => gen_leaper_moves(board, sq, cp.color, true, moves),
        Piece::Bishop => gen_slider_moves(board, sq, cp.color, true, moves),
        Piece::Rook => gen_slider_moves(board, sq, cp.color, false, moves),
        Piece::Queen => {
            gen_slider_moves(board, sq, cp.color, true, moves);
            gen_slider_moves(board, sq, cp.color, false, moves);
        },
        Piece::King => {
            gen_leaper_moves(board, sq, cp.color, false, moves);
            gen_castling(board, sq, cp.color, moves);
        },
    }
    assert(moves@ =~= m0 + square_moves(board@, sq as int));
}

fn generate_pseudo_legal(board: &Board) -> (r: Vec<Move>)
    requires
        board.wf(),
    ensures
        r@ == pseudo_moves(board@),
        all_gen_facts(board@, r@),
{
    let mut moves: Vec<Move> = Vec::new();
    let mut sq: u8 = 0;
    while sq < 64
        invariant
            board.wf(),
            sq <= 64,
            all_gen_facts(board@, moves@),
            moves@ + pseudo_from(board@, sq as int) == pseudo_moves(board@),
        decreases 64 - sq,
    {
        let ghost before = moves@;
        gen_square(board, sq, &mut moves);
        assert(moves@ + pseudo_from(board@, sq + 1) =~= before + pseudo_from(board@, sq as int));
        sq = sq + 1;
    }
    assert(moves@ =~= pseudo_moves(board@));
    moves
}

fn leaves_king_safe_exec(board: &Board, mv: Move) -> (r: bool)
    requires
        board.wf(),
        move_on_board(mv),
    ensures
        r == leaves_king_safe(board@, mv),
{
    let mut b = board.position_copy();
    b.make_move(mv);
    match b.find_king(board.side) {
        Some(k) => {
            proof {
                crate::board::lemma_king_from_on_board(b@.squares, board.side, 0);
            }
            !b.is_attacked(k, opposite(board.side))
        },
        None => false,
    }
}

proof fn lemma_fact_consistent(v: BoardView, m: Move)
    requires
        v.wf(),
        gen_fact(v, m),
        ep_sound(v),
    ensures
        consistent_move(v, m),
{
    if m.is_ep {
        let to = m.to as int;
        let from = m.from as int;
        assert(v.squares[to] is None);
        if v.side == Color::White {
            assert(file_of(to - 8) == file_of(to));
        } else {
            assert(file_of(to + 8) == file_of(to));
        }
    }
}

/// All legal moves for the side to move, in generation order.
pub fn generate_moves(board: &Board) -> (r: Vec<Move>)
    requires
        board.wf(),
    ensures
        r@ == legal_moves(board@),
        all_gen_facts(board@, r@),
        forall|i: int| 0 <= i < r@.len() ==> leaves_king_safe(board@, #[trigger] r@[i]),
        ep_sound(board@) ==> forall|i: int|
            0 <= i < r@.len() ==> consistent_move(board@, #[trigger] r@[i]),
{
    let ghost v = board@;
    let pseudo = generate_pseudo_legal(board);
    let mut moves: Vec<Move> = Vec::new();
    let mut i: usize = 0;
    while i < pseudo.len()
        invariant
            board.wf(),
            v == board@,
            pseudo@ == pseudo_moves(v),
            all_gen_facts(v, pseudo@),
            i <= pseudo.len(),
            moves@ == legal_filter(v, pseudo@.take(i as int)),
            all_gen_facts(v, moves@),
            forall|j: int| 0 <= j < moves@.len() ==> leaves_king_safe(v, #[trigger] moves@[j]),
        decreases pseudo.len() - i,
    {
        let mv = pseudo[i];
        assert(gen_fact(v, pseudo@[i as int]));
        proof {
            assert(pseudo@.take(i + 1).drop_last() =~= pseudo@.take(i as int));
        }
        if leaves_king_safe_exec(board, mv) {
            moves.push(mv);
        }
        i = i + 1;
    }
    proof {
        assert(pseudo@.take(i as int) =~= pseudo@);
        if ep_sound(v) {
            assert forall|j: int| 0 <= j < moves@.len() implies consistent_move(
                v,
                #[trigger] moves@[j],
            ) by {
                lemma_fact_consistent(v, moves@[j]);
            }
        }
    }
    moves
}

/// The legal moves that capture, en passant included, in generation order.
pub fn generate_captures(board: &Board) -> (r: Vec<Move>)
    requires
        board.wf(),
    ensures
        r@ == capture_filter(legal_moves(board@)),
        all_gen_facts(board@, r@),
        forall|i: int|
            0 <= i < r@.len() ==> leaves_king_safe(board@, #[trigger] r@[i]) && is_capture(r@[i]),
        ep_sound(board@) ==> forall|i: int|
            0 <= i < r@.len() ==> consistent_move(board@, #[trigger] r@[i]),
{
    let ghost v = board@;
    let all = generate_moves(board);
    let mut caps: Vec<Move> = Vec::new();
    let mut i: usize = 0;
    while i < all.len()
        invariant
            board.wf(),
            v == board@,
            all@ == legal_moves(v),
            all_gen_facts(v, all@),
            forall|j: int| 0 <= j < all@.len() ==> leaves_king_safe(v, #[trigger] all@[j]),
            ep_sound(v) ==> forall|j: int| 0 <= j < all@.len() ==> consistent_move(v, #[trigger] all@[j]),
            i <= all.len(),
            caps@ == capture_filter(all@.take(i as int)),
            all_gen_facts(v, caps@),
            forall|j: int|
                0 <= j < caps@.len() ==> leaves_king_safe(v, #[trigger] caps@[j]) && is_capture(
                    caps@[j],
                ),
            ep_sound(v) ==> forall|j: int| 0 <= j < caps@.len() ==> consistent_move(v, #[trigger] caps@[j]),
        decreases all.len() - i,
    {
        let mv = all[i];
        assert(gen_fact(v, all@[i as int]));
        assert(leaves_king_safe(v, all@[i as int]));
        proof {
            assert(all@.take(i + 1).drop_last() =~= all@.take(i as int));
        }
        if mv.captured.is_some() || mv.is_ep {
            caps.push(mv);
        }
        i = i + 1;
    }
    proof {
        assert(all@.take(i as int) =~= all@);
    }
    caps
}

proof fn lemma_capture_filter_subset(s: Seq<Move>)
    ensures
        forall|m: Move| capture_filter(s).contains(m) ==> s.contains(m),
    decreases s.len(),
{
    if s.len() > 0 {
        let t = s.drop_last();
        lemma_capture_filter_subset(t);
        assert forall|m: Move| capture_filter(s).contains(m) implies s.contains(m) by {
            let c = capture_filter(s);
            let i = choose|i: int| 0 <= i < c.len() && c[i] == m;
            let a = capture_filter(t);
            let tail = if is_capture(s.last()) { seq![s.last()] } else { Seq::<Move>::empty() };
            assert(c == a + tail);
            if i < a.len() {
                assert(a[i] == m);
                assert(a.contains(m));
                assert(t.contains(m));
                let j = choose|j: int| 0 <= j < t.len() && t[j] == m;
                assert(t[j] == s[j]);
                assert(s[j] == m);
            } else {
                assert(tail[i - a.len()] == m);
                assert(s[s.len() - 1] == m);
            }
        }
    }
}

/// Every capture the generator offers is also among the legal moves it
/// offers.
pub proof fn lemma_captures_within_moves(v: BoardView)
    ensures
        forall|m: Move|
            capture_filter(legal_moves(v)).contains(m) ==> legal_moves(v).contains(m),
{
    lemma_capture_filter_subset(legal_moves(v));
}

/// Occupied squares among the first `n`.
pub open spec fn occupied(s: Seq<Option<ColoredPiece>>, n: int) -> int
    decreases n,
{
    if n <= 0 {
        0
    } else {
        occupied(s, n - 1) + if s[n - 1] is Some {
            1int
        } else {
            0int
        }
    }
}

pub open spec fn ep_flag(v: BoardView) -> int {
    if v.ep_square is Some {
        1
    } else {
        0
    }
}

proof fn lemma_occupied_update(s: Seq<Option<ColoredPiece>>, i: int, x: Option<ColoredPiece>, n: int)
    requires
        0 <= i < n <= s.len(),
    ensures
        occupied(s.update(i, x), n) == occupied(s, n) - (if s[i] is Some {
            1int
        } else {
            0int
        }) + (if x is Some {
            1int
        } else {
            0int
        }),
    decreases n,
{
    if n - 1 > i {
        lemma_occupied_update(s, i, x, n - 1);
    } else {
        assert(s.update(i, x).subrange(0, i) =~= s.subrange(0, i));
        lemma_occupied_prefix(s.update(i, x), s, i);
    }
}

proof fn lemma_occupied_nonneg(s: Seq<Option<ColoredPiece>>, n: int)
    ensures
        0 <= occupied(s, n),
    decreases n,
{
    if n > 0 {
        lemma_occupied_nonneg(s, n - 1);
    }
}

proof fn lemma_occupied_prefix(a: Seq<Option<ColoredPiece>>, b: Seq<Option<ColoredPiece>>, n: int)
    requires
        0 <= n <= a.len(),
        n <= b.len(),
        forall|k: int| 0 <= k < n ==> a[k] == b[k],
    ensures
        occupied(a, n) == occupied(b, n),
    decreases n,
{
    if n > 0 {
        lemma_occupied_prefix(a, b, n - 1);
    }
}

/// A capture leaves fewer pieces on the board, or as many with the
/// en-passant square spent.
pub proof fn lemma_capture_shrinks(v: BoardView, m: Move)
    requires
        v.wf(),
        gen_fact(v, m),
        is_capture(m),
    ensures
        0 <= occupied(make_spec(v, m).squares, 64),
        occupied(make_spec(v, m).squares, 64) < occupied(v.squares, 64) || (occupied(
            make_spec(v, m).squares,
            64,
        ) == occupied(v.squares, 64) && ep_flag(make_spec(v, m)) < ep_flag(v)),
{
    lemma_occupied_nonneg(make_spec(v, m).squares, 64);
    let s = v.squares;
    let p = s[m.from as int].unwrap();
    let from = m.from as int;
    let to = m.to as int;
    let placed = match m.promotion {
        Some(pr) => Some(ColoredPiece { piece: pr, color: p.color }),
        None => Some(p),
    };
    if m.is_ep {
        let s1 = match ep_victim(to, v.side) {
            Some(x) => s.update(x, None),
            None => s,
        };
        match ep_victim(to, v.side) {
            Some(x) => {
                lemma_occupied_update(s, x, None, 64);
            },
            None => {},
        }
        lemma_occupied_update(s1, to, placed, 64);
        lemma_occupied_update(s1.update(to, placed), from, None, 64);
        assert(ep_after(p, m) is None);
    } else {
        lemma_occupied_update(s, to, placed, 64);
        lemma_occupied_update(s.update(to, placed), from, None, 64);
    }
}

/// A generated move from a position whose en-passant square is sound leads
/// to a position whose en-passant square is sound.
pub proof fn lemma_ep_sound_after(v: BoardView, m: Move)
    requires
        v.wf(),
        gen_fact(v, m),
        ep_sound(v),
    ensures
        ep_sound(make_spec(v, m)),
{
    let s = v.squares;
    let p = s[m.from as int].unwrap();
    if p.piece == Piece::Pawn && abs(m.to - m.from) == 16 {
        let from = m.from as int;
        let to = m.to as int;
        let e = (from + to) / 2;
        let after = make_spec(v, m);
        assert(after.ep_square == Some(e as u8));
        assert(after.squares[e] is None);
        if v.side == Color::White {
            assert(ep_victim(e, Color::Black) == Some(to));
        } else {
            assert(ep_victim(e, Color::White) == Some(to));
        }
    }
}

/// Whether the en-passant square, where set, is empty with an enemy pawn
/// behind it.
pub fn en_passant_sound(board: &Board) -> (r: bool)
    requires
        board.wf(),
    ensures
        r == ep_sound(board@),
{
    match board.ep_square {
        None => true,
        Some(e) => {
            if board.squares[e as usize].is_some() {
                return false;
            }
            let victim: Option<u8> = if board.side == Color::White {
                if e >= 8 {
                    Some(e - 8)
                } else {
                    None
                }
            } else if e + 8 < 64 {
                Some(e + 8)
            } else {
                None
            };
            match victim {
                None => false,
                Some(x) => match board.squares[x as usize] {
                    Some(cp) => cp.piece == Piece::Pawn && cp.color == opposite(board.side),
                    None => false,
                },
            }
        },
    }
}

/// Clears an en-passant square that has no enemy pawn behind it or is
/// occupied: no capture can be made there, and the search takes back moves
/// exactly only from positions whose en-passant square is sound.
pub fn drop_unsound_en_passant(board: &mut Board)
    requires
        old(board).wf(),
    ensures
        final(board).wf(),
        ep_sound(final(board)@),
        final(board)@ == if ep_sound(old(board)@) {
            old(board)@
        } else {
            BoardView { ep_square: None, ..old(board)@ }
        },
{
    if !en_passant_sound(board) {
        board.ep_square = None;
    }
}

} // verus!
