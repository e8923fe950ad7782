//! Position state, make/unmake, attack queries and repetition history.
use vstd::prelude::*;
use vstd::string::StringExecFns;
use vstd::string::StringSliceAdditionalSpecFns;

verus! {

#[derive(Clone, Copy, PartialEq, Eq, Debug, Structural)]
pub enum Color {
    White,
    Black,
}

#[derive(Clone, Copy, PartialEq, Eq, Debug, Structural)]
pub enum Piece {
    Pawn,
    Knight,
    Bishop,
    Rook,
    Queen,
    King,
}

#[derive(Clone, Copy, PartialEq, Eq, Debug, Structural)]
pub struct ColoredPiece {
    pub piece: Piece,
    pub color: Color,
}

#[derive(Clone, Copy, PartialEq, Eq, Debug, Structural)]
pub struct Move {
    pub from: u8,
    pub to: u8,
    pub promotion: Option<Piece>,
    pub captured: Option<Piece>,
    pub is_ep: bool,
    pub is_castle: bool,
}

pub open spec fn opposite_spec(c: Color) -> Color {
    match c {
        Color::White => Color::Black,
        Color::Black => Color::White,
    }
}

pub fn opposite(c: Color) -> (r: Color)
    ensures
        r == opposite_spec(c),
{
    match c {
        Color::White => Color::Black,
        Color::Black => Color::White,
    }
}

pub open spec fn null_move() -> Move {
    Move { from: 0, to: 0, promotion: None, captured: None, is_ep: false, is_castle: false }
}

impl Move {
    pub fn null() -> (r: Move)
        ensures
            r == null_move(),
    {
        Move { from: 0, to: 0, promotion: None, captured: None, is_ep: false, is_castle: false }
    }
}

/// The pre-move values needed to take a move back.
#[derive(Clone, Copy, PartialEq, Eq, Debug, Structural)]
pub struct HistoryEntry {
    pub mv: Move,
    pub castling: u8,
    pub ep_square: Option<u8>,
    pub halfmove: u32,
    pub hash: u64,
}

pub struct Board {
    pub squares: Vec<Option<ColoredPiece>>,
    pub side: Color,
    pub castling: u8,
    pub ep_square: Option<u8>,
    pub halfmove: u32,
    pub hash: u64,
    pub history: Vec<HistoryEntry>,
    pub position_hashes: Vec<u64>,
}

/// The mathematical model of a board.
pub struct BoardView {
    pub squares: Seq<Option<ColoredPiece>>,
    pub side: Color,
    pub castling: u8,
    pub ep_square: Option<u8>,
    pub halfmove: u32,
    pub hash: u64,
    pub history: Seq<HistoryEntry>,
    pub position_hashes: Seq<u64>,
}

impl View for Board {
    type V = BoardView;

    open spec fn view(&self) -> BoardView {
        BoardView {
            squares: self.squares@,
            side: self.side,
            castling: self.castling,
            ep_square: self.ep_square,
            halfmove: self.halfmove,
            hash: self.hash,
            history: self.history@,
            position_hashes: self.position_hashes@,
        }
    }
}

pub open spec fn on_board(sq: int) -> bool {
    0 <= sq < 64
}

pub open spec fn move_on_board(m: Move) -> bool {
    m.from < 64 && m.to < 64
}

pub open spec fn ep_on_board(ep: Option<u8>) -> bool {
    match ep {
        Some(e) => e < 64,
        None => true,
    }
}

impl BoardView {
    /// Sixty-four squares, one repetition entry per undo record, and every
    /// square named by the state (or by an undo record) on the board.
    pub open spec fn wf(self) -> bool {
        &&& self.squares.len() == 64
        &&& self.position_hashes.len() == self.history.len()
        &&& ep_on_board(self.ep_square)
        &&& forall|i: int|
            0 <= i < self.history.len() ==> {
                &&& move_on_board(#[trigger] self.history[i].mv)
                &&& ep_on_board(self.history[i].ep_square)
            }
    }
}

impl Board {
    pub open spec fn wf(&self) -> bool {
        self@.wf()
    }
}

// ---------------------------------------------------------------------------
// Geometry and attacks
// ---------------------------------------------------------------------------

pub open spec fn rank_of(sq: int) -> int {
    sq / 8
}

pub open spec fn file_of(sq: int) -> int {
    sq % 8
}

pub open spec fn abs(x: int) -> int {
    if x < 0 { -x } else { x }
}

pub open spec fn signum(x: int) -> int {
    if x < 0 { -1 } else if x > 0 { 1 } else { 0 }
}

/// `from` and `to` lie on one rank, file or diagonal, and differ.
pub open spec fn aligned(from: int, to: int) -> bool {
    let dr = rank_of(to) - rank_of(from);
    let df = file_of(to) - file_of(from);
    &&& (dr == 0 || df == 0 || abs(dr) == abs(df))
    &&& !(dr == 0 && df == 0)
}

/// The `n` squares starting at (r, f) and stepping by (dr, df) are all empty.
pub open spec fn ray_empty(
    s: Seq<Option<ColoredPiece>>,
    r: int,
    f: int,
    dr: int,
    df: int,
    n: nat,
) -> bool
    decreases n,
{
    if n == 0 {
        true
    } else {
        s[r * 8 + f] is None && ray_empty(s, r + dr, f + df, dr, df, (n - 1) as nat)
    }
}

/// Every square strictly between two aligned squares is empty.
pub open spec fn path_clear_spec(s: Seq<Option<ColoredPiece>>, from: int, to: int) -> bool {
    let dr = rank_of(to) - rank_of(from);
    let df = file_of(to) - file_of(from);
    let steps = if abs(dr) > abs(df) { abs(dr) } else { abs(df) };
    ray_empty(
        s,
        rank_of(from) + signum(dr),
        file_of(from) + signum(df),
        signum(dr),
        signum(df),
        (steps - 1) as nat,
    )
}

/// A piece of kind `piece` and colour `color` on `from` attacks `to`.
pub open spec fn piece_attacks_spec(
    s: Seq<Option<ColoredPiece>>,
    from: int,
    to: int,
    piece: Piece,
    color: Color,
) -> bool {
    let dr = rank_of(to) - rank_of(from);
    let df = file_of(to) - file_of(from);
    match piece {
        Piece::Pawn => dr == (if color == Color::White { 1int } else { -1int }) && abs(df) == 1,
        Piece::Knight => (abs(dr) == 2 && abs(df) == 1) || (abs(dr) == 1 && abs(df) == 2),
        Piece::Bishop => abs(dr) == abs(df) && dr != 0 && path_clear_spec(s, from, to),
        Piece::Rook => (dr == 0 || df == 0) && aligned(from, to) && path_clear_spec(s, from, to),
        Piece::Queen => aligned(from, to) && path_clear_spec(s, from, to),
        Piece::King => abs(dr) <= 1 && abs(df) <= 1 && !(dr == 0 && df == 0),
    }
}

/// Some piece of colour `by` attacks `sq`.
pub open spec fn attacked_spec(s: Seq<Option<ColoredPiece>>, sq: int, by: Color) -> bool {
    exists|from: int|
        #![trigger s[from]]
        0 <= from < 64 && s[from] is Some && s[from].unwrap().color == by && piece_attacks_spec(
            s,
            from,
            sq,
            s[from].unwrap().piece,
            by,
        )
}

/// The first square at or after `i` that holds the king of `c`.
pub open spec fn king_from(s: Seq<Option<ColoredPiece>>, c: Color, i: int) -> Option<u8>
    decreases 64 - i,
{
    if i >= 64 || i < 0 {
        None
    } else if s[i] == Some(ColoredPiece { piece: Piece::King, color: c }) {
        Some(i as u8)
    } else {
        king_from(s, c, i + 1)
    }
}

pub open spec fn king_square(s: Seq<Option<ColoredPiece>>, c: Color) -> Option<u8> {
    king_from(s, c, 0)
}

/// The king of `c` stands on the board and is not attacked.
pub open spec fn king_safe(s: Seq<Option<ColoredPiece>>, c: Color) -> bool {
    match king_square(s, c) {
        Some(k) => !attacked_spec(s, k as int, opposite_spec(c)),
        None => false,
    }
}

pub open spec fn in_check_spec(v: BoardView) -> bool {
    match king_square(v.squares, v.side) {
        Some(k) => attacked_spec(v.squares, k as int, opposite_spec(v.side)),
        None => false,
    }
}

/// Number of occurrences of `x` in `s`.
pub open spec fn count_of(s: Seq<u64>, x: u64) -> nat
    decreases s.len(),
{
    if s.len() == 0 {
        0
    } else {
        count_of(s.drop_last(), x) + if s.last() == x { 1nat } else { 0nat }
    }
}

impl Board {
    pub fn piece_at(&self, sq: u8) -> (r: Option<ColoredPiece>)
        requires
            self.wf(),
            sq < 64,
        ensures
            r == self@.squares[sq as int],
    {
        self.squares[sq as usize]
    }

    pub fn find_king(&self, color: Color) -> (r: Option<u8>)
        requires
            self.wf(),
        ensures
            r == king_square(self@.squares, color),
    {
        let mut sq: u8 = 0;
        while sq < 64
            invariant
                self.wf(),
                sq <= 64,
                king_square(self@.squares, color) == king_from(self@.squares, color, sq as int),
            decreases 64 - sq,
        {
            if let Some(cp) = self.squares[sq as usize] {
                if cp.piece == Piece::King && cp.color == color {
                    return Some(sq);
                }
            }
            sq = sq + 1;
        }
        None
    }

    fn path_clear(&self, from: u8, to: u8) -> (r: bool)
        requires
            self.wf(),
            from < 64,
            to < 64,
            aligned(from as int, to as int),
        ensures
            r == path_clear_spec(self@.squares, from as int, to as int),
    {
        let fr = (from / 8) as i32;
        let ff = (from % 8) as i32;
        let tr = (to / 8) as i32;
        let tf = (to % 8) as i32;
        let dr: i32 = if tr < fr { -1 } else if tr > fr { 1 } else { 0 };
        let df: i32 = if tf < ff { -1 } else if tf > ff { 1 } else { 0 };
        let adr: i32 = if tr < fr { fr - tr } else { tr - fr };
        let adf: i32 = if tf < ff { ff - tf } else { tf - ff };
        let steps: i32 = if adr > adf { adr } else { adf };
        let ghost s = self@.squares;
        let mut r = fr + dr;
        let mut f = ff + df;
        let mut k: i32 = 1;
        while k < steps
            invariant
                self.wf(),
                s == self@.squares,
                1 <= k <= steps <= 7,
                -1 <= dr <= 1,
                -1 <= df <= 1,
                0 <= fr < 8,
                0 <= ff < 8,
                0 <= tr < 8,
                0 <= tf < 8,
                dr == 1 ==> r == fr + k && tr == fr + steps,
                dr == -1 ==> r == fr - k && tr == fr - steps,
                dr == 0 ==> r == fr,
                df == 1 ==> f == ff + k && tf == ff + steps,
                df == -1 ==> f == ff - k && tf == ff - steps,
                df == 0 ==> f == ff,
                path_clear_spec(s, from as int, to as int) == ray_empty(
                    s,
                    r as int,
                    f as int,
                    dr as int,
                    df as int,
                    (steps - k) as nat,
                ),
            decreases steps - k,
        {
            if self.squares[(r * 8 + f) as usize].is_some() {
                return false;
            }
            r = r + dr;
            f = f + df;
            k = k + 1;
        }
        true
    }
}

impl Board {
    fn piece_attacks(&self, from: u8, to: u8, piece: Piece, color: Color) -> (r: bool)
        requires
            self.wf(),
            from < 64,
            to < 64,
        ensures
            r == piece_attacks_spec(self@.squares, from as int, to as int, piece, color),
    {
        let fr = (from / 8) as i32;
        let ff = (from % 8) as i32;
        let tr = (to / 8) as i32;
        let tf = (to % 8) as i32;
        let dr = tr - fr;
        let df = tf - ff;
        let adr: i32 = if dr < 0 { -dr } else { dr };
        let adf: i32 = if df < 0 { -df } else { df };
        match piece {
            Piece::Pawn => {
                let dir: i32 = if color == Color::White { 1 } else { -1 };
                dr == dir && adf == 1
            },
            Piece::Knight => (adr == 2 && adf == 1) || (adr == 1 && adf == 2),
            Piece::Bishop => adr == adf && dr != 0 && self.path_clear(from, to),
            Piece::Rook => (dr == 0 || df == 0) && !(dr == 0 && df == 0) && self.path_clear(
                from,
                to,
            ),
            Piece::Queen => (adr == adf || dr == 0 || df == 0) && !(dr == 0 && df == 0)
                && self.path_clear(from, to),
            Piece::King => adr <= 1 && adf <= 1 && !(dr == 0 && df == 0),
        }
    }

    pub fn is_attacked(&self, sq: u8, by: Color) -> (r: bool)
        requires
            self.wf(),
            sq < 64,
        ensures
            r == attacked_spec(self@.squares, sq as int, by),
    {
        let ghost s = self@.squares;
        let mut from: u8 = 0;
        while from < 64
            invariant
                self.wf(),
                s == self@.squares,
                from <= 64,
                sq < 64,
                forall|j: int|
                    0 <= j < from ==> !(#[trigger] s[j] is Some && s[j].unwrap().color == by
                        && piece_attacks_spec(s, j, sq as int, s[j].unwrap().piece, by)),
            decreases 64 - from,
        {
            if let Some(cp) = self.squares[from as usize] {
                if cp.color == by && self.piece_attacks(from, sq, cp.piece, cp.color) {
                    return true;
                }
            }
            from = from + 1;
        }
        false
    }

    pub fn in_check(&self) -> (r: bool)
        requires
            self.wf(),
        ensures
            r == in_check_spec(self@),
    {
        match self.find_king(self.side) {
            Some(k) => {
                proof {
                    lemma_king_from_on_board(self@.squares, self.side, 0);
                }
                self.is_attacked(k, opposite(self.side))
            },
            None => false,
        }
    }

    pub fn has_non_pawn_material(&self) -> (r: bool)
        requires
            self.wf(),
        ensures
            r == exists|sq: int|
                0 <= sq < 64 && #[trigger] self@.squares[sq] is Some && self@.squares[sq].unwrap().color
                    == self.side && self@.squares[sq].unwrap().piece != Piece::Pawn
                    && self@.squares[sq].unwrap().piece != Piece::King,
    {
        let ghost s = self@.squares;
        let mut sq: u8 = 0;
        while sq < 64
            invariant
                self.wf(),
                s == self@.squares,
                sq <= 64,
                forall|j: int|
                    0 <= j < sq ==> !(#[trigger] s[j] is Some && s[j].unwrap().color == self.side
                        && s[j].unwrap().piece != Piece::Pawn && s[j].unwrap().piece
                        != Piece::King),
            decreases 64 - sq,
        {
            if let Some(cp) = self.squares[sq as usize] {
                if cp.color == self.side && cp.piece != Piece::Pawn && cp.piece != Piece::King {
                    return true;
                }
            }
            sq = sq + 1;
        }
        false
    }

    /// The current fingerprint already occurs at least twice in the
    /// repetition stack.
    pub fn is_repetition(&self) -> (r: bool)
        requires
            self.wf(),
        ensures
            r == (count_of(self@.position_hashes, self.hash) >= 2),
    {
        count_occurrences(&self.position_hashes, self.hash) >= 2
    }

    pub fn is_fifty_move_rule(&self) -> (r: bool)
        ensures
            r == (self.halfmove >= 100),
    {
        self.halfmove >= 100
    }
}

pub(crate) proof fn lemma_king_from_on_board(s: Seq<Option<ColoredPiece>>, c: Color, i: int)
    ensures
        king_from(s, c, i) matches Some(k) ==> k < 64 && s[k as int] == Some(
            ColoredPiece { piece: Piece::King, color: c },
        ),
    decreases 64 - i,
{
    if 0 <= i < 64 && s[i] != Some(ColoredPiece { piece: Piece::King, color: c }) {
        lemma_king_from_on_board(s, c, i + 1);
    }
}

/// Counts the entries of `v` equal to `x`.
pub fn count_occurrences(v: &Vec<u64>, x: u64) -> (r: usize)
    ensures
        r == count_of(v@, x),
{
    let mut n: usize = 0;
    let mut i: usize = 0;
    while i < v.len()
        invariant
            i <= v.len(),
            n <= i,
            n == count_of(v@.take(i as int), x),
        decreases v.len() - i,
    {
        proof {
            assert(v@.take(i + 1).drop_last() =~= v@.take(i as int));
        }
        if v[i] == x {
            n = n + 1;
        }
        i = i + 1;
    }
    proof {
        assert(v@.take(i as int) =~= v@);
    }
    n
}

pub open spec fn piece_value_spec(p: Piece) -> i32 {
    match p {
        Piece::Pawn => 100,
        Piece::Knight => 320,
        Piece::Bishop => 330,
        Piece::Rook => 500,
        Piece::Queen => 900,
        Piece::King => 20000,
    }
}

/// Material value used for move ordering and delta pruning.
pub fn piece_value(p: Piece) -> (r: i32)
    ensures
        r == piece_value_spec(p),
{
    match p {
        Piece::Pawn => 100,
        Piece::Knight => 320,
        Piece::Bishop => 330,
        Piece::Rook => 500,
        Piece::Queen => 900,
        Piece::King => 20000,
    }
}

/// The square named by the first two bytes of `s`: a file letter `a`..`h`
/// (97..104) and a rank digit `1`..`8` (49..56).
pub open spec fn sq_from_bytes_spec(b: Seq<u8>) -> Option<u8> {
    if b.len() < 2 {
        None
    } else if 97u8 <= b[0] <= 104u8 && 49u8 <= b[1] <= 56u8 {
        Some(((b[1] - 49u8) * 8 + (b[0] - 97u8)) as u8)
    } else {
        None
    }
}

pub fn sq_from_str(s: &str) -> (r: Option<u8>)
    ensures
        r == sq_from_bytes_spec(s.spec_bytes()),
        r matches Some(sq) ==> sq < 64,
{
    sq_from_bytes(s.as_bytes())
}

fn sq_from_bytes(bytes: &[u8]) -> (r: Option<u8>)
    ensures
        r == sq_from_bytes_spec(bytes@),
        r matches Some(sq) ==> sq < 64,
{
    if bytes.len() < 2 {
        return None;
    }
    let f = bytes[0];
    let rk = bytes[1];
    if 97u8 <= f && f <= 104u8 && 49u8 <= rk && rk <= 56u8 {
        Some((rk - 49u8) * 8 + (f - 97u8))
    } else {
        None
    }
}

// ---------------------------------------------------------------------------
// Make and unmake
// ---------------------------------------------------------------------------

/// Rook source and destination of a castling king move, where both are on the
/// board: kingside from `from + 3` to `from + 1`, queenside from `from - 4` to
/// `from - 1`.
pub open spec fn castle_rooks(from: int, to: int) -> Option<(int, int)> {
    if to > from {
        if from + 3 < 64 {
            Some((from + 3, from + 1))
        } else {
            None
        }
    } else if from >= 4 {
        Some((from - 4, from - 1))
    } else {
        None
    }
}

/// The square of the pawn taken en passant: one rank behind `to`, toward the
/// mover.
pub open spec fn ep_victim(to: int, side: Color) -> Option<int> {
    if side == Color::White {
        if to >= 8 {
            Some(to - 8)
        } else {
            None
        }
    } else if to + 8 < 64 {
        Some(to + 8)
    } else {
        None
    }
}

pub open spec fn colored(p: Option<Piece>, c: Color) -> Option<ColoredPiece> {
    match p {
        Some(k) => Some(ColoredPiece { piece: k, color: c }),
        None => None,
    }
}

/// Piece placement after `m` is played by `side` with `p` on the source square.
pub open spec fn moved_squares(
    s: Seq<Option<ColoredPiece>>,
    side: Color,
    m: Move,
    p: ColoredPiece,
) -> Seq<Option<ColoredPiece>> {
    let from = m.from as int;
    let to = m.to as int;
    if m.is_castle {
        let s1 = s.update(to, Some(p)).update(from, None);
        match castle_rooks(from, to) {
            Some((rf, rt)) => s1.update(rt, s1[rf]).update(rf, None),
            None => s1,
        }
    } else {
        let s1 = if m.is_ep {
            match ep_victim(to, side) {
                Some(v) => s.update(v, None),
                None => s,
            }
        } else {
            s
        };
        let placed = match m.promotion {
            Some(pr) => Some(ColoredPiece { piece: pr, color: p.color }),
            None => Some(p),
        };
        s1.update(to, placed).update(from, None)
    }
}

/// Clears the castling right tied to a corner square.
pub open spec fn clear_corner(c: u8, sq: int) -> u8 {
    if sq == 0 {
        c & 0xfd
    } else if sq == 7 {
        c & 0xfe
    } else if sq == 56 {
        c & 0xf7
    } else if sq == 63 {
        c & 0xfb
    } else {
        c
    }
}

pub open spec fn castling_after(c: u8, p: ColoredPiece, m: Move) -> u8 {
    let c1 = if p.piece == Piece::King {
        if p.color == Color::White {
            c & 0xfc
        } else {
            c & 0xf3
        }
    } else {
        c
    };
    clear_corner(clear_corner(c1, m.from as int), m.to as int)
}

pub open spec fn ep_after(p: ColoredPiece, m: Move) -> Option<u8> {
    if p.piece == Piece::Pawn && abs(m.to - m.from) == 16 {
        Some(((m.from + m.to) / 2) as u8)
    } else {
        None
    }
}

/// Reset on a pawn move, a capture or en passant; otherwise one more (held at
/// the counter's largest value).
pub open spec fn halfmove_after(h: u32, p: ColoredPiece, m: Move) -> u32 {
    if p.piece == Piece::Pawn || m.captured is Some || m.is_ep {
        0
    } else if h < u32::MAX {
        (h + 1) as u32
    } else {
        h
    }
}

pub open spec fn make_spec(v: BoardView, m: Move) -> BoardView {
    let entry = HistoryEntry {
        mv: m,
        castling: v.castling,
        ep_square: v.ep_square,
        halfmove: v.halfmove,
        hash: v.hash,
    };
    let pushed = BoardView {
        history: v.history.push(entry),
        position_hashes: v.position_hashes.push(v.hash),
        ..v
    };
    match v.squares[m.from as int] {
        None => BoardView { side: opposite_spec(v.side), ..pushed },
        Some(p) => BoardView {
            squares: moved_squares(v.squares, v.side, m, p),
            castling: castling_after(v.castling, p, m),
            ep_square: ep_after(p, m),
            halfmove: halfmove_after(v.halfmove, p, m),
            side: opposite_spec(v.side),
            ..pushed
        },
    }
}

/// Piece placement after taking back `m`, which `side` had played.
pub open spec fn unmoved_squares(s: Seq<Option<ColoredPiece>>, side: Color, m: Move) -> Seq<
    Option<ColoredPiece>,
> {
    let from = m.from as int;
    let to = m.to as int;
    let moved = s[to];
    if m.is_castle {
        let s1 = s.update(from, moved).update(to, None);
        match castle_rooks(from, to) {
            Some((rf, rt)) => s1.update(rf, s1[rt]).update(rt, None),
            None => s1,
        }
    } else {
        let orig = if m.promotion is Some {
            Some(ColoredPiece { piece: Piece::Pawn, color: side })
        } else {
            moved
        };
        let s1 = s.update(from, orig);
        if m.is_ep {
            let s2 = s1.update(to, None);
            match ep_victim(to, side) {
                Some(v) => s2.update(v, Some(ColoredPiece { piece: Piece::Pawn, color: opposite_spec(side) })),
                None => s2,
            }
        } else {
            s1.update(to, colored(m.captured, opposite_spec(side)))
        }
    }
}

pub open spec fn unmake_spec(v: BoardView) -> BoardView {
    if v.history.len() == 0 {
        v
    } else {
        let e = v.history.last();
        let side = opposite_spec(v.side);
        BoardView {
            squares: unmoved_squares(v.squares, side, e.mv),
            side,
            castling: e.castling,
            ep_square: e.ep_square,
            halfmove: e.halfmove,
            hash: e.hash,
            history: v.history.drop_last(),
            position_hashes: v.position_hashes.drop_last(),
        }
    }
}

/// `m` fits the position well enough to be taken back exactly: a piece of the
/// side to move on the source, the captured piece recorded as it stands, and
/// the squares that castling and en passant touch as those moves expect.
pub open spec fn consistent_move(v: BoardView, m: Move) -> bool {
    let s = v.squares;
    let from = m.from as int;
    let to = m.to as int;
    &&& move_on_board(m)
    &&& from != to
    &&& s[from] is Some
    &&& s[from].unwrap().color == v.side
    &&& (m.promotion is Some ==> s[from].unwrap().piece == Piece::Pawn)
    &&& if m.is_castle {
        &&& (to == from + 2 || to == from - 2)
        &&& s[to] is None
        &&& (castle_rooks(from, to) matches Some((rf, rt)) ==> s[rt] is None)
    } else if m.is_ep {
        &&& s[to] is None
        &&& ep_victim(to, v.side) matches Some(vsq)
        &&& vsq != from
        &&& s[vsq] == Some(ColoredPiece { piece: Piece::Pawn, color: opposite_spec(v.side) })
    } else {
        s[to] == colored(m.captured, opposite_spec(v.side))
    }
}

impl Board {
    /// Plays `mv`, pushing an undo record and the current fingerprint.
    pub fn make_move(&mut self, mv: Move)
        requires
            old(self).wf(),
            move_on_board(mv),
        ensures
            final(self).wf(),
            final(self)@ == make_spec(old(self)@, mv),
    {
        self.position_hashes.push(self.hash);
        self.history.push(
            HistoryEntry {
                mv,
                castling: self.castling,
                ep_square: self.ep_square,
                halfmove: self.halfmove,
                hash: self.hash,
            },
        );
        let moving = match self.squares[mv.from as usize] {
            Some(p) => p,
            None => {
                self.side = opposite(self.side);
                return ;
            },
        };
        if mv.is_castle {
            self.squares.set(mv.to as usize, Some(moving));
            self.squares.set(mv.from as usize, None);
            if mv.to > mv.from {
                if mv.from + 3 < 64 {
                    let rook = self.squares[(mv.from + 3) as usize];
                    self.squares.set((mv.from + 1) as usize, rook);
                    self.squares.set((mv.from + 3) as usize, None);
                }
            } else if mv.from >= 4 {
                let rook = self.squares[(mv.from - 4) as usize];
                self.squares.set((mv.from - 1) as usize, rook);
                self.squares.set((mv.from - 4) as usize, None);
            }
        } else {
            if mv.is_ep {
                if self.side == Color::White {
                    if mv.to >= 8 {
                        self.squares.set((mv.to - 8) as usize, None);
                    }
                } else if mv.to + 8 < 64 {
                    self.squares.set((mv.to + 8) as usize, None);
                }
            }
            let placed = match mv.promotion {
                Some(promo) => Some(ColoredPiece { piece: promo, color: moving.color }),
                None => Some(moving),
            };
            self.squares.set(mv.to as usize, placed);
            self.squares.set(mv.from as usize, None);
        }
        if moving.piece == Piece::King {
            match moving.color {
                Color::White => self.castling = self.castling & 0xfc,
                Color::Black => self.castling = self.castling & 0xf3,
            }
        }
        self.castling = clear_corner_right(self.castling, mv.from);
        self.castling = clear_corner_right(self.castling, mv.to);
        let diff: u8 = if mv.to > mv.from { mv.to - mv.from } else { mv.from - mv.to };
        self.ep_square = if moving.piece == Piece::Pawn && diff == 16 {
            Some((mv.from + mv.to) / 2)
        } else {
            None
        };
        if moving.piece == Piece::Pawn || mv.captured.is_some() || mv.is_ep {
            self.halfmove = 0;
        } else if self.halfmove < u32::MAX {
            self.halfmove = self.halfmove + 1;
        }
        self.side = opposite(self.side);
    }

    /// Takes back the last move; does nothing when there is none.
    pub fn unmake_move(&mut self)
        requires
            old(self).wf(),
        ensures
            final(self).wf(),
            final(self)@ == unmake_spec(old(self)@),
    {
        let entry = match self.history.pop() {
            Some(e) => e,
            None => return ,
        };
        self.position_hashes.pop();
        let mv = entry.mv;
        self.castling = entry.castling;
        self.ep_square = entry.ep_square;
        self.halfmove = entry.halfmove;
        self.hash = entry.hash;
        self.side = opposite(self.side);
        let moved = self.squares[mv.to as usize];
        if mv.is_castle {
            self.squares.set(mv.from as usize, moved);
            self.squares.set(mv.to as usize, None);
            if mv.to > mv.from {
                if mv.from + 3 < 64 {
                    let rook = self.squares[(mv.from + 1) as usize];
                    self.squares.set((mv.from + 3) as usize, rook);
                    self.squares.set((mv.from + 1) as usize, None);
                }
            } else if mv.from >= 4 {
                let rook = self.squares[(mv.from - 1) as usize];
                self.squares.set((mv.from - 4) as usize, rook);
                self.squares.set((mv.from - 1) as usize, None);
            }
        } else {
            let restored = if mv.promotion.is_some() {
                Some(ColoredPiece { piece: Piece::Pawn, color: self.side })
            } else {
                moved
            };
            self.squares.set(mv.from as usize, restored);
            if mv.is_ep {
                self.squares.set(mv.to as usize, None);
                let victim = ColoredPiece { piece: Piece::Pawn, color: opposite(self.side) };
                if self.side == Color::White {
                    if mv.to >= 8 {
                        self.squares.set((mv.to - 8) as usize, Some(victim));
                    }
                } else if mv.to + 8 < 64 {
                    self.squares.set((mv.to + 8) as usize, Some(victim));
                }
            } else {
                let back = match mv.captured {
                    Some(p) => Some(ColoredPiece { piece: p, color: opposite(self.side) }),
                    None => None,
                };
                self.squares.set(mv.to as usize, back);
            }
        }
    }
}

fn clear_corner_right(c: u8, sq: u8) -> (r: u8)
    ensures
        r == clear_corner(c, sq as int),
{
    if sq == 0 {
        c & 0xfd
    } else if sq == 7 {
        c & 0xfe
    } else if sq == 56 {
        c & 0xf7
    } else if sq == 63 {
        c & 0xfb
    } else {
        c
    }
}

proof fn lemma_and_stays_within(r: u8, c: u8, k: u8)
    requires
        r & c == r,
    ensures
        (r & k) & c == r & k,
{
    assert((r & k) & c == r & k) by (bit_vector)
        requires
            r & c == r,
    ;
}

/// Castling rights only clear: every right held after a move was held before.
pub proof fn lemma_castling_only_clears(c: u8, p: ColoredPiece, m: Move)
    ensures
        castling_after(c, p, m) & c == castling_after(c, p, m),
{
    assert(c & c == c) by (bit_vector);
    let c1 = if p.piece == Piece::King {
        if p.color == Color::White {
            c & 0xfc
        } else {
            c & 0xf3
        }
    } else {
        c
    };
    lemma_and_stays_within(c, c, 0xfc);
    lemma_and_stays_within(c, c, 0xf3);
    let c2 = clear_corner(c1, m.from as int);
    lemma_and_stays_within(c1, c, 0xfd);
    lemma_and_stays_within(c1, c, 0xfe);
    lemma_and_stays_within(c1, c, 0xf7);
    lemma_and_stays_within(c1, c, 0xfb);
    lemma_and_stays_within(c2, c, 0xfd);
    lemma_and_stays_within(c2, c, 0xfe);
    lemma_and_stays_within(c2, c, 0xf7);
    lemma_and_stays_within(c2, c, 0xfb);
}

/// Making a move that fits the position and then taking it back restores
/// every field of the position, the undo stack and the repetition stack
/// included.
pub proof fn lemma_make_unmake(v: BoardView, m: Move)
    requires
        v.wf(),
        consistent_move(v, m),
    ensures
        unmake_spec(make_spec(v, m)) == v,
{
    let after = make_spec(v, m);
    let p = v.squares[m.from as int].unwrap();
    let side = v.side;
    let e = after.history.last();
    assert(e.mv == m);
    assert(opposite_spec(opposite_spec(side)) == side);
    assert(after.history.drop_last() =~= v.history);
    assert(after.position_hashes.drop_last() =~= v.position_hashes);
    assert(unmoved_squares(moved_squares(v.squares, side, m, p), side, m) =~= v.squares);
}

impl Board {
    /// A copy of the position with empty undo and repetition stacks.
    pub fn position_copy(&self) -> (r: Board)
        requires
            self.wf(),
        ensures
            r.wf(),
            r@ == (BoardView { history: Seq::empty(), position_hashes: Seq::empty(), ..self@ }),
    {
        let mut squares: Vec<Option<ColoredPiece>> = Vec::new();
        let mut i: usize = 0;
        while i < 64
            invariant
                self.wf(),
                i <= 64,
                squares@ == self@.squares.take(i as int),
            decreases 64 - i,
        {
            squares.push(self.squares[i]);
            proof {
                assert(squares@ =~= self@.squares.take(i + 1));
            }
            i = i + 1;
        }
        proof {
            assert(squares@ =~= self@.squares);
        }
        let r = Board {
            squares,
            side: self.side,
            castling: self.castling,
            ep_square: self.ep_square,
            halfmove: self.halfmove,
            hash: self.hash,
            history: Vec::new(),
            position_hashes: Vec::new(),
        };
        proof {
            assert(r@.history =~= Seq::<HistoryEntry>::empty());
            assert(r@.position_hashes =~= Seq::<u64>::empty());
        }
        r
    }
}

// ---------------------------------------------------------------------------
// FEN
// ---------------------------------------------------------------------------

/// The space-separated fields of `b`; consecutive spaces give empty fields.
/// The initial position.
pub open spec fn start_view() -> BoardView {
    fen_view("rnbqkbnr/pppppppp/8/8/8/8/PPPPPPPP/RNBQKBNR w KQkq - 0 1".spec_bytes())
}

pub open spec fn split_fields(b: Seq<u8>) -> Seq<Seq<u8>>
    decreases b.len(),
{
    if b.len() == 0 {
        seq![Seq::empty()]
    } else {
        let fs = split_fields(b.drop_last());
        if b.last() == 32 {
            fs.push(Seq::empty())
        } else {
            fs.update(fs.len() - 1, fs.last().push(b.last()))
        }
    }
}

pub open spec fn field_at(fs: Seq<Seq<u8>>, k: int) -> Seq<u8> {
    if 0 <= k < fs.len() {
        fs[k]
    } else {
        Seq::empty()
    }
}

/// The piece a FEN letter names, either case.
pub open spec fn fen_piece(c: u8) -> Option<Piece> {
    let l = if 65 <= c <= 90 { (c + 32) as u8 } else { c };
    if l == 112 {
        Some(Piece::Pawn)
    } else if l == 110 {
        Some(Piece::Knight)
    } else if l == 98 {
        Some(Piece::Bishop)
    } else if l == 114 {
        Some(Piece::Rook)
    } else if l == 113 {
        Some(Piece::Queen)
    } else if l == 107 {
        Some(Piece::King)
    } else {
        None
    }
}

/// Placement-field reading state: rank, file and the squares so far.
pub open spec fn place_step(st: (int, int, Seq<Option<ColoredPiece>>), c: u8) -> (
    int,
    int,
    Seq<Option<ColoredPiece>>,
) {
    if 128 <= c < 192 {
        st
    } else if c == 47 {
        (st.0 - 1, 0, st.2)
    } else if 49 <= c <= 56 {
        (st.0, st.1 + (c - 48), st.2)
    } else {
        match fen_piece(c) {
            None => (st.0, st.1 + 1, st.2),
            Some(p) => {
                let color = if 65 <= c <= 90 { Color::White } else { Color::Black };
                let sq = st.0 * 8 + st.1;
                (
                    st.0,
                    st.1 + 1,
                    if 0 <= sq < 64 {
                        st.2.update(sq, Some(ColoredPiece { piece: p, color }))
                    } else {
                        st.2
                    },
                )
            },
        }
    }
}

pub open spec fn empty_squares() -> Seq<Option<ColoredPiece>> {
    Seq::new(64, |i: int| None)
}

/// Ranks run from 8 down, `/` ends a rank, a digit skips that many files,
/// a piece letter (upper case White) fills a square, any other character
/// skips one file (UTF-8 continuation bytes belong to the character before
/// them); squares off the board are not filled.
pub open spec fn place_fold(p: Seq<u8>) -> (int, int, Seq<Option<ColoredPiece>>)
    decreases p.len(),
{
    if p.len() == 0 {
        (7, 0, empty_squares())
    } else {
        place_step(place_fold(p.drop_last()), p.last())
    }
}

pub open spec fn castle_bits(f: Seq<u8>) -> u8 {
    ((if f.contains(75) { 1int } else { 0int }) + (if f.contains(81) { 2int } else { 0int }) + (
    if f.contains(107) { 4int } else { 0int }) + (if f.contains(113) { 8int } else { 0int })) as u8
}

pub open spec fn all_digits(f: Seq<u8>) -> bool {
    forall|i: int| 0 <= i < f.len() ==> 48 <= #[trigger] f[i] <= 57
}

pub open spec fn digits_value(f: Seq<u8>) -> int
    decreases f.len(),
{
    if f.len() == 0 {
        0
    } else {
        digits_value(f.drop_last()) * 10 + (f.last() - 48)
    }
}

/// A non-empty run of decimal digits whose value fits in `u32`.
pub open spec fn counter_value(f: Seq<u8>) -> Option<u32> {
    if f.len() > 0 && all_digits(f) && digits_value(f) <= u32::MAX {
        Some(digits_value(f) as u32)
    } else {
        None
    }
}

/// The position a FEN string describes: placement, side (`b` for Black),
/// castling letters `KQkq`, en-passant square unless `-`, and the halfmove
/// counter where it is a number; missing fields take their defaults.
pub open spec fn fen_view(b: Seq<u8>) -> BoardView {
    let fs = split_fields(b);
    BoardView {
        squares: place_fold(field_at(fs, 0)).2,
        side: if fs.len() > 1 && field_at(fs, 1) == seq![98u8] {
            Color::Black
        } else {
            Color::White
        },
        castling: if fs.len() > 2 {
            castle_bits(field_at(fs, 2))
        } else {
            0
        },
        ep_square: if fs.len() > 3 && field_at(fs, 3) != seq![45u8] {
            sq_from_bytes_spec(field_at(fs, 3))
        } else {
            None
        },
        halfmove: if fs.len() > 4 {
            match counter_value(field_at(fs, 4)) {
                Some(n) => n,
                None => 0,
            }
        } else {
            0
        },
        hash: 0,
        history: Seq::empty(),
        position_hashes: Seq::empty(),
    }
}

proof fn lemma_split_len(b: Seq<u8>)
    ensures
        split_fields(b).len() >= 1,
    decreases b.len(),
{
    if b.len() > 0 {
        lemma_split_len(b.drop_last());
    }
}

fn fen_fields(b: &[u8]) -> (r: (Vec<u8>, Vec<u8>, Vec<u8>, Vec<u8>, Vec<u8>, usize))
    requires
        b@.len() < usize::MAX,
    ensures
        r.0@ == field_at(split_fields(b@), 0),
        r.0@.len() <= b@.len(),
        r.1@ == field_at(split_fields(b@), 1),
        r.2@ == field_at(split_fields(b@), 2),
        r.3@ == field_at(split_fields(b@), 3),
        r.4@ == field_at(split_fields(b@), 4),
        r.5 == split_fields(b@).len(),
{
    let mut f0: Vec<u8> = Vec::new();
    let mut f1: Vec<u8> = Vec::new();
    let mut f2: Vec<u8> = Vec::new();
    let mut f3: Vec<u8> = Vec::new();
    let mut f4: Vec<u8> = Vec::new();
    let mut count: usize = 1;
    let mut i: usize = 0;
    while i < b.len()
        invariant
            b@.len() < usize::MAX,
            i <= b@.len(),
            count == split_fields(b@.take(i as int)).len(),
            count <= i + 1,
            f0@ == field_at(split_fields(b@.take(i as int)), 0),
            f0@.len() <= i,
            f1@ == field_at(split_fields(b@.take(i as int)), 1),
            f2@ == field_at(split_fields(b@.take(i as int)), 2),
            f3@ == field_at(split_fields(b@.take(i as int)), 3),
            f4@ == field_at(split_fields(b@.take(i as int)), 4),
        decreases b@.len() - i,
    {
        let c = b[i];
        proof {
            assert(b@.take(i + 1).drop_last() =~= b@.take(i as int));
            lemma_split_len(b@.take(i as int));
        }
        let ghost fs = split_fields(b@.take(i as int));
        let ghost next = split_fields(b@.take(i + 1));
        if c == 32 {
            count = count + 1;
            assert(next == fs.push(Seq::empty()));
        } else {
            let k = count - 1;
            if k == 0 {
                f0.push(c);
            } else if k == 1 {
                f1.push(c);
            } else if k == 2 {
                f2.push(c);
            } else if k == 3 {
                f3.push(c);
            } else if k == 4 {
                f4.push(c);
            }
            assert(next == fs.update(fs.len() - 1, fs.last().push(c)));
        }
        i = i + 1;
    }
    proof {
        assert(b@.take(i as int) =~= b@);
    }
    (f0, f1, f2, f3, f4, count)
}

fn fen_piece_of(c: u8) -> (r: Option<Piece>)
    ensures
        r == fen_piece(c),
{
    let l = if 65 <= c && c <= 90 {
        c + 32
    } else {
        c
    };
    if l == 112 {
        Some(Piece::Pawn)
    } else if l == 110 {
        Some(Piece::Knight)
    } else if l == 98 {
        Some(Piece::Bishop)
    } else if l == 114 {
        Some(Piece::Rook)
    } else if l == 113 {
        Some(Piece::Queen)
    } else if l == 107 {
        Some(Piece::King)
    } else {
        None
    }
}

fn parse_placement(p: &Vec<u8>) -> (r: Vec<Option<ColoredPiece>>)
    requires
        p@.len() < 0x1000_0000,
    ensures
        r@ == place_fold(p@).2,
        r@.len() == 64,
{
    let mut squares: Vec<Option<ColoredPiece>> = Vec::new();
    while squares.len() < 64
        invariant
            squares@.len() <= 64,
            forall|k: int| 0 <= k < squares@.len() ==> #[trigger] squares@[k] is None,
        decreases 64 - squares@.len(),
    {
        squares.push(None);
    }
    proof {
        assert(squares@ =~= empty_squares());
        assert(p@.take(0) =~= Seq::<u8>::empty());
    }
    let mut rank: i64 = 7;
    let mut file: i64 = 0;
    let mut i: usize = 0;
    while i < p.len()
        invariant
            p@.len() < 0x1000_0000,
            i <= p@.len(),
            squares@.len() == 64,
            7 - i <= rank <= 7,
            0 <= file <= 8 * i,
            (rank as int, file as int, squares@) == place_fold(p@.take(i as int)),
        decreases p@.len() - i,
    {
        let c = p[i];
        proof {
            assert(p@.take(i + 1).drop_last() =~= p@.take(i as int));
        }
        if 128 <= c && c < 192 {
        } else if c == 47 {
            rank = rank - 1;
            file = 0;
        } else if 49 <= c && c <= 56 {
            file = file + (c - 48) as i64;
        } else {
            match fen_piece_of(c) {
                None => {
                    file = file + 1;
                },
                Some(pc) => {
                    let color = if 65 <= c && c <= 90 {
                        Color::White
                    } else {
                        Color::Black
                    };
                    let sq = rank * 8 + file;
                    if 0 <= sq && sq < 64 {
                        squares.set(sq as usize, Some(ColoredPiece { piece: pc, color }));
                    }
                    file = file + 1;
                },
            }
        }
        i = i + 1;
    }
    proof {
        assert(p@.take(i as int) =~= p@);
    }
    squares
}

fn castle_bits_of(f: &Vec<u8>) -> (r: u8)
    ensures
        r == castle_bits(f@),
{
    let mut wk = false;
    let mut wq = false;
    let mut bk = false;
    let mut bq = false;
    let mut i: usize = 0;
    while i < f.len()
        invariant
            i <= f@.len(),
            wk == exists|j: int| 0 <= j < i && f@[j] == 75,
            wq == exists|j: int| 0 <= j < i && f@[j] == 81,
            bk == exists|j: int| 0 <= j < i && f@[j] == 107,
            bq == exists|j: int| 0 <= j < i && f@[j] == 113,
        decreases f@.len() - i,
    {
        let c = f[i];
        if c == 75 {
            wk = true;
        } else if c == 81 {
            wq = true;
        } else if c == 107 {
            bk = true;
        } else if c == 113 {
            bq = true;
        }
        i = i + 1;
    }
    let mut bits: u8 = 0;
    if wk {
        bits = bits + 1;
    }
    if wq {
        bits = bits + 2;
    }
    if bk {
        bits = bits + 4;
    }
    if bq {
        bits = bits + 8;
    }
    bits
}

proof fn lemma_digits_prefix(f: Seq<u8>, k: int)
    requires
        0 <= k <= f.len(),
        all_digits(f),
    ensures
        digits_value(f.take(k)) <= digits_value(f),
        0 <= digits_value(f.take(k)),
    decreases f.len(),
{
    if k < f.len() {
        let g = f.drop_last();
        assert(g.take(k) =~= f.take(k));
        assert(all_digits(g));
        lemma_digits_prefix(g, k);
        assert(48 <= f.last() <= 57);
    } else {
        assert(f.take(k) =~= f);
        if f.len() > 0 {
            lemma_digits_prefix(f.drop_last(), f.len() - 1);
            assert(f.drop_last().take(f.len() - 1) =~= f.drop_last());
            assert(48 <= f.last() <= 57);
        }
    }
}

fn parse_counter(f: &Vec<u8>) -> (r: Option<u32>)
    ensures
        r == counter_value(f@),
{
    if f.len() == 0 {
        return None;
    }
    let mut acc: u64 = 0;
    let mut ok = true;
    let mut i: usize = 0;
    while i < f.len()
        invariant
            i <= f@.len(),
            f@.len() > 0,
            ok ==> all_digits(f@.take(i as int)) && acc == digits_value(f@.take(i as int)) && acc
                <= u32::MAX,
            !ok ==> counter_value(f@) is None,
        decreases f@.len() - i,
    {
        let c = f[i];
        proof {
            assert(f@.take(i + 1).drop_last() =~= f@.take(i as int));
        }
        if ok {
            if c < 48 || c > 57 {
                ok = false;
                assert(!all_digits(f@));
            } else {
                let next = acc * 10 + (c - 48) as u64;
                if next > 0xffff_ffff {
                    ok = false;
                    proof {
                        if all_digits(f@) {
                            lemma_digits_prefix(f@, i + 1);
                        }
                    }
                } else {
                    acc = next;
                }
            }
        }
        i = i + 1;
    }
    proof {
        assert(f@.take(i as int) =~= f@);
    }
    if ok {
        Some(acc as u32)
    } else {
        None
    }
}

impl Board {
    /// The position a FEN string describes; malformed parts are read
    /// leniently or take their defaults.
    pub fn from_fen(fen: &str) -> (r: Board)
        requires
            fen.spec_bytes().len() < 0x1000_0000,
        ensures
            r.wf(),
            r@ == fen_view(fen.spec_bytes()),
    {
        Board::from_fen_bytes(fen.as_bytes())
    }

    pub fn from_fen_bytes(bytes: &[u8]) -> (r: Board)
        requires
            bytes@.len() < 0x1000_0000,
        ensures
            r.wf(),
            r@ == fen_view(bytes@),
    {
        let (f0, f1, f2, f3, f4, count) = fen_fields(bytes);
        let squares = parse_placement(&f0);
        let side = if count > 1 && f1.len() == 1 && f1[0] == 98 {
            Color::Black
        } else {
            Color::White
        };
        proof {
            if f1@.len() == 1 && f1@[0] == 98 {
                assert(f1@ =~= seq![98u8]);
            }
        }
        let castling = if count > 2 {
            castle_bits_of(&f2)
        } else {
            0
        };
        let is_dash = f3.len() == 1 && f3[0] == 45;
        proof {
            if f3@.len() == 1 && f3@[0] == 45 {
                assert(f3@ =~= seq![45u8]);
            }
        }
        let ep_square = if count > 3 && !is_dash {
            sq_from_bytes(f3.as_slice())
        } else {
            None
        };
        let halfmove = if count > 4 {
            match parse_counter(&f4) {
                Some(n) => n,
                None => 0,
            }
        } else {
            0
        };
        let r = Board {
            squares,
            side,
            castling,
            ep_square,
            halfmove,
            hash: 0,
            history: Vec::new(),
            position_hashes: Vec::new(),
        };
        proof {
            assert(r@.history =~= Seq::<HistoryEntry>::empty());
            assert(r@.position_hashes =~= Seq::<u64>::empty());
        }
        r
    }

    pub fn start_pos() -> (r: Board)
        ensures
            r.wf(),
            r@ == start_view(),
    {
        proof {
            broadcast use vstd::string::is_ascii_spec_bytes;

            reveal_strlit("rnbqkbnr/pppppppp/8/8/8/8/PPPPPPPP/RNBQKBNR w KQkq - 0 1");
            assert(vstd::string::is_ascii(
                "rnbqkbnr/pppppppp/8/8/8/8/PPPPPPPP/RNBQKBNR w KQkq - 0 1",
            ));
        }
        Board::from_fen("rnbqkbnr/pppppppp/8/8/8/8/PPPPPPPP/RNBQKBNR w KQkq - 0 1")
    }
}

// ---------------------------------------------------------------------------
// Move text
// ---------------------------------------------------------------------------

pub open spec fn file_char(f: int) -> char {
    if f == 0 {
        'a'
    } else if f == 1 {
        'b'
    } else if f == 2 {
        'c'
    } else if f == 3 {
        'd'
    } else if f == 4 {
        'e'
    } else if f == 5 {
        'f'
    } else if f == 6 {
        'g'
    } else {
        'h'
    }
}

pub open spec fn rank_char(r: int) -> char {
    if r == 0 {
        '1'
    } else if r == 1 {
        '2'
    } else if r == 2 {
        '3'
    } else if r == 3 {
        '4'
    } else if r == 4 {
        '5'
    } else if r == 5 {
        '6'
    } else if r == 6 {
        '7'
    } else {
        '8'
    }
}

pub open spec fn promo_text(p: Option<Piece>) -> Seq<char> {
    match p {
        Some(Piece::Queen) => seq!['q'],
        Some(Piece::Rook) => seq!['r'],
        Some(Piece::Bishop) => seq!['b'],
        Some(Piece::Knight) => seq!['n'],
        _ => Seq::empty(),
    }
}

/// Long algebraic notation: source and destination squares, then the
/// promotion letter; `0000` for the null move.
pub open spec fn uci_text(m: Move) -> Seq<char> {
    if m.from == 0 && m.to == 0 {
        seq!['0', '0', '0', '0']
    } else {
        seq![
            file_char(m.from as int % 8),
            rank_char(m.from as int / 8),
            file_char(m.to as int % 8),
            rank_char(m.to as int / 8),
        ] + promo_text(m.promotion)
    }
}

fn push_file(s: &mut String, f: u8)
    requires
        f < 8,
    ensures
        final(s)@ == old(s)@.push(file_char(f as int)),
{
    let t = if f == 0 {
        "a"
    } else if f == 1 {
        "b"
    } else if f == 2 {
        "c"
    } else if f == 3 {
        "d"
    } else if f == 4 {
        "e"
    } else if f == 5 {
        "f"
    } else if f == 6 {
        "g"
    } else {
        "h"
    };
    proof {
        reveal_strlit("a");
        reveal_strlit("b");
        reveal_strlit("c");
        reveal_strlit("d");
        reveal_strlit("e");
        reveal_strlit("f");
        reveal_strlit("g");
        reveal_strlit("h");
    }
    s.append(t);
    assert(s@ =~= old(s)@.push(file_char(f as int)));
}

fn push_rank(s: &mut String, r: u8)
    requires
        r < 8,
    ensures
        final(s)@ == old(s)@.push(rank_char(r as int)),
{
    let t = if r == 0 {
        "1"
    } else if r == 1 {
        "2"
    } else if r == 2 {
        "3"
    } else if r == 3 {
        "4"
    } else if r == 4 {
        "5"
    } else if r == 5 {
        "6"
    } else if r == 6 {
        "7"
    } else {
        "8"
    };
    proof {
        reveal_strlit("1");
        reveal_strlit("2");
        reveal_strlit("3");
        reveal_strlit("4");
        reveal_strlit("5");
        reveal_strlit("6");
        reveal_strlit("7");
        reveal_strlit("8");
    }
    s.append(t);
    assert(s@ =~= old(s)@.push(rank_char(r as int)));
}

impl Move {
    pub fn to_uci(&self) -> (r: String)
        requires
            move_on_board(*self),
        ensures
            r@ == uci_text(*self),
    {
        if self.from == 0 && self.to == 0 {
            proof {
                reveal_strlit("0000");
            }
            let r = <String as StringExecFns>::from_str("0000");
            assert(r@ =~= uci_text(*self));
            return r;
        }
        let mut s = String::new();
        push_file(&mut s, self.from % 8);
        push_rank(&mut s, self.from / 8);
        push_file(&mut s, self.to % 8);
        push_rank(&mut s, self.to / 8);
        let ghost squares = s@;
        match self.promotion {
            Some(Piece::Queen) => {
                proof {
                    reveal_strlit("q");
                }
                s.append("q");
            },
            Some(Piece::Rook) => {
                proof {
                    reveal_strlit("r");
                }
                s.append("r");
            },
            Some(Piece::Bishop) => {
                proof {
                    reveal_strlit("b");
                }
                s.append("b");
            },
            Some(Piece::Knight) => {
                proof {
                    reveal_strlit("n");
                }
                s.append("n");
            },
            _ => {},
        }
        assert(s@ =~= uci_text(*self));
        s
    }
}

pub open spec fn file_byte(f: int) -> u8 {
    (97 + f) as u8
}

pub open spec fn rank_byte(r: int) -> u8 {
    (49 + r) as u8
}

pub open spec fn promo_bytes(p: Option<Piece>) -> Seq<u8> {
    match p {
        Some(Piece::Queen) => seq![113u8],
        Some(Piece::Rook) => seq![114u8],
        Some(Piece::Bishop) => seq![98u8],
        Some(Piece::Knight) => seq![110u8],
        _ => Seq::empty(),
    }
}

/// The ASCII bytes of `uci_text(m)`.
pub open spec fn uci_bytes(m: Move) -> Seq<u8> {
    if m.from == 0 && m.to == 0 {
        seq![48u8, 48u8, 48u8, 48u8]
    } else {
        seq![
            file_byte(m.from as int % 8),
            rank_byte(m.from as int / 8),
            file_byte(m.to as int % 8),
            rank_byte(m.to as int / 8),
        ] + promo_bytes(m.promotion)
    }
}

fn uci_bytes_of(m: Move) -> (r: Vec<u8>)
    requires
        move_on_board(m),
    ensures
        r@ == uci_bytes(m),
{
    let mut v: Vec<u8> = Vec::new();
    if m.from == 0 && m.to == 0 {
        v.push(48);
        v.push(48);
        v.push(48);
        v.push(48);
    } else {
        v.push(97 + m.from % 8);
        v.push(49 + m.from / 8);
        v.push(97 + m.to % 8);
        v.push(49 + m.to / 8);
        match m.promotion {
            Some(Piece::Queen) => v.push(113),
            Some(Piece::Rook) => v.push(114),
            Some(Piece::Bishop) => v.push(98),
            Some(Piece::Knight) => v.push(110),
            _ => {},
        }
    }
    assert(v@ =~= uci_bytes(m));
    v
}

fn bytes_equal(a: &[u8], b: &[u8]) -> (r: bool)
    ensures
        r == (a@ == b@),
{
    if a.len() != b.len() {
        return false;
    }
    let mut i: usize = 0;
    while i < a.len()
        invariant
            a@.len() == b@.len(),
            i <= a@.len(),
            forall|k: int| 0 <= k < i ==> a@[k] == b@[k],
        decreases a@.len() - i,
    {
        if a[i] != b[i] {
            return false;
        }
        i = i + 1;
    }
    assert(a@ =~= b@);
    true
}

/// Index of the first move at or after `i` written `t`.
pub open spec fn first_with_text(ms: Seq<Move>, t: Seq<u8>, i: int) -> Option<int>
    decreases ms.len() - i,
{
    if i < 0 || i >= ms.len() {
        None
    } else if uci_bytes(ms[i]) == t {
        Some(i)
    } else {
        first_with_text(ms, t, i + 1)
    }
}

/// Playing the first legal move written `t`, or nothing.
pub open spec fn after_uci(v: BoardView, t: Seq<u8>) -> Option<BoardView> {
    match first_with_text(crate::movegen::legal_moves(v), t, 0) {
        Some(i) => Some(make_spec(v, crate::movegen::legal_moves(v)[i])),
        None => None,
    }
}

impl Board {
    /// Plays the first legal move written `uci`; returns false, leaving the
    /// position as it was, when no legal move is written so.
    pub fn make_uci_move(&mut self, uci: &str) -> (r: bool)
        requires
            old(self).wf(),
        ensures
            final(self).wf(),
            match after_uci(old(self)@, uci.spec_bytes()) {
                Some(w) => r && final(self)@ == w,
                None => !r && final(self)@ == old(self)@,
            },
    {
        self.play_uci_bytes(uci.as_bytes())
    }

    pub fn play_uci_bytes(&mut self, uci: &[u8]) -> (r: bool)
        requires
            old(self).wf(),
        ensures
            final(self).wf(),
            match after_uci(old(self)@, uci@) {
                Some(w) => r && final(self)@ == w,
                None => !r && final(self)@ == old(self)@,
            },
    {
        let moves = crate::movegen::generate_moves(self);
        let ghost ms = moves@;
        let mut i: usize = 0;
        while i < moves.len()
            invariant
                self.wf(),
                self@ == old(self)@,
                ms == moves@,
                ms == crate::movegen::legal_moves(self@),
                crate::movegen::all_gen_facts(self@, ms),
                i <= moves@.len(),
                first_with_text(ms, uci@, 0) == first_with_text(ms, uci@, i as int),
            decreases moves@.len() - i,
        {
            let mv = moves[i];
            assert(crate::movegen::gen_fact(self@, ms[i as int]));
            let text = uci_bytes_of(mv);
            if bytes_equal(text.as_slice(), uci) {
                self.make_move(mv);
                return true;
            }
            i = i + 1;
        }
        false
    }
}

} // verus!
