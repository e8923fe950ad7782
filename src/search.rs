//! Zobrist fingerprints, the transposition table, and the iterative-deepening
//! principal-variation search with quiescence and move ordering.
use vstd::prelude::*;
use crate::board::{
    in_check_spec, count_occurrences, count_of, lemma_make_unmake, move_on_board, null_move, piece_value,
    piece_value_spec, Board, BoardView, Color, ColoredPiece, Move, Piece,
};
use crate::eval::{evaluate, EVAL_BOUND};
use crate::movegen::{
    all_gen_facts, capture_filter, ep_flag, ep_sound, gen_fact, generate_captures, generate_moves, is_capture,
    legal_moves, lemma_capture_shrinks, lemma_ep_sound_after, occupied,
};
use std::time::Instant;
use core::time::Duration;

verus! {

// ---------------------------------------------------------------------------
// Zobrist keys
// ---------------------------------------------------------------------------

pub const ZOBRIST_SEED: u64 = 0x123456789abcdef0;

/// One xorshift64 step.
pub open spec fn xorshift(s: u64) -> u64 {
    let a = s ^ (s << 13u64);
    let b = a ^ (a >> 7u64);
    b ^ (b << 17u64)
}

/// The `n`-th value of the xorshift sequence started at the fixed seed.
pub open spec fn key_stream(n: nat) -> u64
    decreases n,
{
    if n == 0 {
        ZOBRIST_SEED
    } else {
        xorshift(key_stream((n - 1) as nat))
    }
}

fn xorshift_step(s: u64) -> (r: u64)
    ensures
        r == xorshift(s),
{
    let a = s ^ (s << 13u64);
    let b = a ^ (a >> 7u64);
    b ^ (b << 17u64)
}

pub open spec fn piece_index(p: Piece) -> int {
    match p {
        Piece::Pawn => 0,
        Piece::Knight => 1,
        Piece::Bishop => 2,
        Piece::Rook => 3,
        Piece::Queen => 4,
        Piece::King => 5,
    }
}

pub open spec fn color_index(c: Color) -> int {
    match c {
        Color::White => 0,
        Color::Black => 1,
    }
}

/// Index of the key of a coloured piece on a square.
pub open spec fn key_index(cp: ColoredPiece, sq: int) -> int {
    (color_index(cp.color) * 6 + piece_index(cp.piece)) * 64 + sq
}

/// Fixed random keys: one per (colour, piece kind, square), one for Black to
/// move, one per en-passant square and one per castling mask.
pub struct Zobrist {
    pub pieces: Vec<u64>,
    pub side: u64,
    pub ep: Vec<u64>,
    pub castle: Vec<u64>,
}

impl Zobrist {
    /// The tables are drawn in order from the key stream: the side key
    /// first, then the piece keys, the en-passant keys and the castling keys.
    pub open spec fn wf(&self) -> bool {
        &&& self.pieces@.len() == 768
        &&& self.ep@.len() == 64
        &&& self.castle@.len() == 16
        &&& self.side == key_stream(1)
        &&& forall|k: int| 0 <= k < 768 ==> #[trigger] self.pieces@[k] == key_stream((2 + k) as nat)
        &&& forall|k: int| 0 <= k < 64 ==> #[trigger] self.ep@[k] == key_stream((770 + k) as nat)
        &&& forall|k: int| 0 <= k < 16 ==> #[trigger] self.castle@[k] == key_stream((834 + k) as nat)
    }

    pub fn new() -> (r: Zobrist)
        ensures
            r.wf(),
    {
        let mut s: u64 = ZOBRIST_SEED;
        let ghost n: nat = 0;
        s = xorshift_step(s);
        proof {
            n = 1;
            assert(key_stream(0) == ZOBRIST_SEED);
            assert(key_stream(1) == xorshift(key_stream(0)));
        }
        let side = s;
        let mut pieces: Vec<u64> = Vec::new();
        while pieces.len() < 768
            invariant
                pieces@.len() <= 768,
                n == 1 + pieces@.len(),
                s == key_stream(n),
                forall|k: int| 0 <= k < pieces@.len() ==> #[trigger] pieces@[k] == key_stream((2 + k) as nat),
            decreases 768 - pieces@.len(),
        {
            s = xorshift_step(s);
            proof {
                n = n + 1;
            }
            pieces.push(s);
        }
        let mut ep: Vec<u64> = Vec::new();
        while ep.len() < 64
            invariant
                ep@.len() <= 64,
                n == 769 + ep@.len(),
                s == key_stream(n),
                forall|k: int| 0 <= k < ep@.len() ==> #[trigger] ep@[k] == key_stream((770 + k) as nat),
            decreases 64 - ep@.len(),
        {
            s = xorshift_step(s);
            proof {
                n = n + 1;
            }
            ep.push(s);
        }
        let mut castle: Vec<u64> = Vec::new();
        while castle.len() < 16
            invariant
                castle@.len() <= 16,
                n == 833 + castle@.len(),
                s == key_stream(n),
                forall|k: int| 0 <= k < castle@.len() ==> #[trigger] castle@[k] == key_stream((834 + k) as nat),
            decreases 16 - castle@.len(),
        {
            s = xorshift_step(s);
            proof {
                n = n + 1;
            }
            castle.push(s);
        }
        Zobrist { pieces, side, ep, castle }
    }
}

/// XOR of the piece keys of the first `n` squares.
pub open spec fn pieces_hash(keys: Seq<u64>, s: Seq<Option<ColoredPiece>>, n: int) -> u64
    decreases n,
{
    if n <= 0 {
        0
    } else {
        let h = pieces_hash(keys, s, n - 1);
        match s[n - 1] {
            Some(cp) => h ^ keys[key_index(cp, n - 1)],
            None => h,
        }
    }
}

/// The fingerprint of a position: piece keys, the side key when Black is to
/// move, the key of the castling mask, and the en-passant key where set.
pub open spec fn zobrist_hash(z: &Zobrist, v: BoardView) -> u64 {
    let h0 = pieces_hash(z.pieces@, v.squares, 64);
    let h1 = if v.side == Color::Black { h0 ^ z.side } else { h0 };
    let h2 = h1 ^ z.castle@[(v.castling & 15) as int];
    match v.ep_square {
        Some(e) => h2 ^ z.ep@[e as int],
        None => h2,
    }
}

proof fn lemma_key_index_bound(cp: ColoredPiece, sq: int)
    requires
        0 <= sq < 64,
    ensures
        0 <= key_index(cp, sq) < 768,
{
}

proof fn lemma_low_bits(c: u8)
    ensures
        c & 15 < 16,
{
    assert(c & 15 < 16) by (bit_vector);
}

impl Zobrist {
    pub fn hash(&self, board: &crate::board::Board) -> (r: u64)
        requires
            self.wf(),
            board.wf(),
        ensures
            r == zobrist_hash(self, board@),
    {
        let mut h: u64 = 0;
        let mut sq: usize = 0;
        while sq < 64
            invariant
                self.wf(),
                board.wf(),
                sq <= 64,
                h == pieces_hash(self.pieces@, board@.squares, sq as int),
            decreases 64 - sq,
        {
            if let Some(cp) = board.squares[sq] {
                let ci: usize = match cp.color {
                    Color::White => 0,
                    Color::Black => 1,
                };
                let pi: usize = match cp.piece {
                    Piece::Pawn => 0,
                    Piece::Knight => 1,
                    Piece::Bishop => 2,
                    Piece::Rook => 3,
                    Piece::Queen => 4,
                    Piece::King => 5,
                };
                proof {
                    lemma_key_index_bound(cp, sq as int);
                }
                h = h ^ self.pieces[(ci * 6 + pi) * 64 + sq];
            }
            sq = sq + 1;
        }
        if board.side == Color::Black {
            h = h ^ self.side;
        }
        let c = board.castling;
        let ci = c & 15;
        proof {
            lemma_low_bits(c);
        }
        h = h ^ self.castle[ci as usize];
        if let Some(ep) = board.ep_square {
            h = h ^ self.ep[ep as usize];
        }
        h
    }
}

/// The fingerprint reads only the placement, the side to move, the castling
/// rights and the en-passant square.
pub proof fn lemma_hash_depends_on_position(z: &Zobrist, a: BoardView, b: BoardView)
    requires
        a.squares == b.squares,
        a.side == b.side,
        a.castling == b.castling,
        a.ep_square == b.ep_square,
    ensures
        zobrist_hash(z, a) == zobrist_hash(z, b),
{
}

proof fn lemma_xor_key(a: u64, k: u64, c: u64, e: u64)
    requires
        k != 0,
    ensures
        (a ^ k) ^ c != a ^ c,
        ((a ^ k) ^ c) ^ e != (a ^ c) ^ e,
{
    assert((a ^ k) ^ c != a ^ c) by (bit_vector)
        requires
            k != 0,
    ;
    assert(((a ^ k) ^ c) ^ e != (a ^ c) ^ e) by (bit_vector)
        requires
            k != 0,
    ;
}

/// Two positions that differ only in the side to move never share a
/// fingerprint: the side key is XORed in and is not zero.
pub proof fn lemma_hash_side_differs(z: &Zobrist, v: BoardView, w: BoardView)
    requires
        z.wf(),
        w == (BoardView { side: crate::board::opposite_spec(v.side), ..v }),
    ensures
        zobrist_hash(z, w) != zobrist_hash(z, v),
{
    let s: u64 = 0x123456789abcdef0;
    assert(key_stream(0) == s);
    assert(key_stream(1) == xorshift(s));
    assert(((s ^ (s << 13u64)) ^ ((s ^ (s << 13u64)) >> 7u64)) ^ (((s ^ (s << 13u64)) ^ ((s ^ (s
        << 13u64)) >> 7u64)) << 17u64) != 0) by (bit_vector)
        requires
            s == 0x123456789abcdef0u64,
    ;
    let h0 = pieces_hash(z.pieces@, v.squares, 64);
    let c = z.castle@[(v.castling & 15) as int];
    let e: u64 = match v.ep_square {
        Some(x) => z.ep@[x as int],
        None => 0,
    };
    lemma_xor_key(h0, z.side, c, e);
}

// ---------------------------------------------------------------------------
// Transposition table
// ---------------------------------------------------------------------------

pub const FLAG_EXACT: u8 = 0;

pub const FLAG_LOWER: u8 = 1;

pub const FLAG_UPPER: u8 = 2;

/// Entries in a new table: 2^20.
pub const TT_ENTRIES: usize = 1048576;

#[derive(Clone, Copy, PartialEq, Eq, Debug, Structural)]
pub struct TTEntry {
    pub hash: u64,
    pub depth: u8,
    pub score: i32,
    pub flag: u8,
    pub mv: Move,
}

pub open spec fn empty_entry() -> TTEntry {
    TTEntry { hash: 0, depth: 0, score: 0, flag: 0, mv: crate::board::null_move() }
}

/// A direct-mapped table: a fingerprint lives in slot `hash & mask`.
pub struct TT {
    pub data: Vec<TTEntry>,
    pub mask: usize,
}

proof fn lemma_and_le(x: usize, m: usize)
    ensures
        x & m <= m,
{
    assert(x & m <= m) by (bit_vector);
}

impl TT {
    pub open spec fn wf(&self) -> bool {
        &&& self.mask < usize::MAX
        &&& self.data@.len() == self.mask + 1
    }

    pub open spec fn slot(&self, hash: u64) -> int {
        ((hash as usize) & self.mask) as int
    }

    /// The entry for `hash`, if its slot holds that fingerprint with a
    /// depth above zero.
    pub open spec fn lookup(&self, hash: u64) -> Option<TTEntry> {
        let e = self.data@[self.slot(hash)];
        if e.hash == hash && e.depth > 0 {
            Some(e)
        } else {
            None
        }
    }

    /// A store replaces the slot unless it holds the same fingerprint at a
    /// greater depth.
    pub open spec fn replaces(&self, hash: u64, depth: u8) -> bool {
        let e = self.data@[self.slot(hash)];
        e.hash != hash || depth >= e.depth
    }

    pub fn new() -> (r: TT)
        ensures
            r.wf(),
            r.data@.len() == TT_ENTRIES,
            forall|i: int| 0 <= i < r.data@.len() ==> #[trigger] r.data@[i] == empty_entry(),
    {
        let e = TTEntry { hash: 0, depth: 0, score: 0, flag: 0, mv: Move::null() };
        let mut data: Vec<TTEntry> = Vec::new();
        while data.len() < TT_ENTRIES
            invariant
                data@.len() <= TT_ENTRIES,
                e == empty_entry(),
                forall|i: int| 0 <= i < data@.len() ==> #[trigger] data@[i] == empty_entry(),
            decreases TT_ENTRIES - data@.len(),
        {
            data.push(e);
        }
        TT { data, mask: TT_ENTRIES - 1 }
    }

    pub fn probe(&self, hash: u64) -> (r: Option<TTEntry>)
        requires
            self.wf(),
        ensures
            r == self.lookup(hash),
    {
        proof {
            lemma_and_le(hash as usize, self.mask);
        }
        let e = self.data[(hash as usize) & self.mask];
        if e.hash == hash && e.depth > 0 {
            Some(e)
        } else {
            None
        }
    }

    pub fn store(&mut self, hash: u64, depth: u8, score: i32, flag: u8, mv: Move)
        requires
            old(self).wf(),
        ensures
            final(self).wf(),
            final(self).mask == old(self).mask,
            final(self).data@ == if old(self).replaces(hash, depth) {
                old(self).data@.update(
                    old(self).slot(hash),
                    TTEntry { hash, depth, score, flag, mv },
                )
            } else {
                old(self).data@
            },
    {
        proof {
            lemma_and_le(hash as usize, self.mask);
        }
        let idx = (hash as usize) & self.mask;
        let e = self.data[idx];
        if e.hash != hash || depth >= e.depth {
            self.data.set(idx, TTEntry { hash, depth, score, flag, mv });
        }
    }

    /// Logical erase: every depth becomes zero.
    pub fn clear(&mut self)
        requires
            old(self).wf(),
        ensures
            final(self).wf(),
            final(self).mask == old(self).mask,
            final(self).data@.len() == old(self).data@.len(),
            forall|i: int|
                0 <= i < old(self).data@.len() ==> #[trigger] final(self).data@[i] == (TTEntry {
                    depth: 0,
                    ..old(self).data@[i]
                }),
    {
        let ghost d0 = self.data@;
        let mut i: usize = 0;
        while i < self.data.len()
            invariant
                self.wf(),
                self.mask == old(self).mask,
                d0 == old(self).data@,
                self.data@.len() == d0.len(),
                i <= self.data@.len(),
                forall|j: int| 0 <= j < i ==> #[trigger] self.data@[j] == (TTEntry { depth: 0, ..d0[j] }),
                forall|j: int| i <= j < self.data@.len() ==> #[trigger] self.data@[j] == d0[j],
            decreases self.data@.len() - i,
        {
            let e = self.data[i];
            self.data.set(i, TTEntry { depth: 0, ..e });
            i = i + 1;
        }
    }
}

pub open spec fn pow2(k: nat) -> nat
    decreases k,
{
    if k == 0 {
        1
    } else {
        2 * pow2((k - 1) as nat)
    }
}

/// `n` entries of `size` bytes fit in `mb` megabytes.
pub open spec fn fits(n: int, size: int, mb: int) -> bool {
    n * size <= mb * 1048576
}

impl TT {
    /// Reallocates to the largest power-of-two number of entries that fits
    /// in `mb` megabytes (one entry at least), all empty.
    pub fn resize(&mut self, mb: usize)
        ensures
            final(self).wf(),
            exists|k: nat| final(self).data@.len() == #[trigger] pow2(k),
            final(self).data@.len() == 1 || fits(
                final(self).data@.len() as int,
                vstd::layout::size_of::<TTEntry>() as int,
                mb as int,
            ),
            final(self).data@.len() * 2 > usize::MAX || !fits(
                2 * final(self).data@.len() as int,
                vstd::layout::size_of::<TTEntry>() as int,
                mb as int,
            ),
            forall|i: int| 0 <= i < final(self).data@.len() ==> #[trigger] final(self).data@[i] == empty_entry(),
    {
        let sz = core::mem::size_of::<TTEntry>();
        let size = sz as u128;
        let budget: u128 = (mb as u128) * 1048576;
        let mut n: usize = 1;
        let ghost mut k: nat = 0;
        let mut growing = true;
        while growing
            invariant
                n == pow2(k),
                n >= 1,
                size == vstd::layout::size_of::<TTEntry>(),
                size <= usize::MAX,
                budget == mb * 1048576,
                n == 1 || fits(n as int, size as int, mb as int),
                !growing ==> n * 2 > usize::MAX || !fits(2 * n as int, size as int, mb as int),
            decreases usize::MAX - n + if growing {
                1int
            } else {
                0int
            },
        {
            if n > usize::MAX / 2 {
                growing = false;
            } else {
                let twice = 2 * n;
                proof {
                    assert((twice as int) * (size as int) <= (usize::MAX as int) * (usize::MAX as int))
                        by (nonlinear_arith)
                        requires
                            0 <= twice <= usize::MAX,
                            0 <= size <= usize::MAX,
                    ;
                    assert((usize::MAX as int) * (usize::MAX as int) < 0x1_0000_0000_0000_0000_0000_0000_0000_0000) by (nonlinear_arith)
                        requires
                            usize::MAX < 0x1_0000_0000_0000_0000,
                    ;
                }
                if (twice as u128) * size <= budget {
                    n = twice;
                    proof {
                        k = k + 1;
                    }
                } else {
                    growing = false;
                }
            }
        }
        let e = TTEntry { hash: 0, depth: 0, score: 0, flag: 0, mv: Move::null() };
        let mut data: Vec<TTEntry> = Vec::new();
        while data.len() < n
            invariant
                data@.len() <= n,
                e == empty_entry(),
                forall|i: int| 0 <= i < data@.len() ==> #[trigger] data@[i] == empty_entry(),
            decreases n - data@.len(),
        {
            data.push(e);
        }
        self.data = data;
        self.mask = n - 1;
    }
}

// ---------------------------------------------------------------------------
// Clock
// ---------------------------------------------------------------------------

#[verifier::external_type_specification]
#[verifier::external_body]
pub struct ExInstant(Instant);

/// Relies on `Instant::now` for the start of a search; nothing is assumed of
/// the reading.
pub assume_specification[ Instant::now ]() -> Instant;

/// Relies on `Instant::elapsed` for the time spent so far; nothing is
/// assumed of the reading.
pub assume_specification[ Instant::elapsed ](s: &Instant) -> Duration;

/// Relies on `Duration::as_millis` for whole milliseconds; nothing is
/// assumed of the reading.
pub assume_specification[ Duration::as_millis ](d: &Duration) -> u128;

// ---------------------------------------------------------------------------
// Search engine
// ---------------------------------------------------------------------------

/// Bound on every score: wider than any evaluation or mate score.
pub const INF: i32 = 1000000;

/// Score of being mated at the root; a mate found `n` plies deep scores
/// `MATE - n`.
pub const MATE: i32 = 900000;

/// Plies with killer slots.
pub const MAX_PLY: usize = 128;

pub const HISTORY_CAP: i32 = 50000;

/// One completed iteration of iterative deepening.
#[derive(Clone, Copy, PartialEq, Eq, Debug, Structural)]
pub struct SearchInfo {
    pub depth: u8,
    pub score: i32,
    pub nodes: u64,
    pub time_ms: u64,
    pub best: Move,
}

pub struct SearchEngine {
    pub tt: TT,
    pub zob: Zobrist,
    pub nodes: u64,
    /// Two killer slots per ply: slot `k` of ply `p` at `2 * p + k`.
    pub killer: Vec<Option<Move>>,
    /// Quiet-cutoff history by (from, to) at `64 * from + to`.
    pub history: Vec<i32>,
    pub rep_table: Vec<u64>,
    pub start: Option<Instant>,
    pub time_limit: u64,
    pub stopped: bool,
    /// The iterations the last search completed, in order.
    pub infos: Vec<SearchInfo>,
}

fn empty_killers() -> (r: Vec<Option<Move>>)
    ensures
        r@.len() == 2 * MAX_PLY,
        forall|i: int| 0 <= i < r@.len() ==> #[trigger] r@[i] is None,
{
    let mut killer: Vec<Option<Move>> = Vec::new();
    while killer.len() < 2 * MAX_PLY
        invariant
            killer@.len() <= 2 * MAX_PLY,
            forall|i: int| 0 <= i < killer@.len() ==> #[trigger] killer@[i] is None,
        decreases 2 * MAX_PLY - killer@.len(),
    {
        killer.push(None);
    }
    killer
}

fn empty_history() -> (r: Vec<i32>)
    ensures
        r@.len() == 4096,
        forall|i: int| 0 <= i < r@.len() ==> #[trigger] r@[i] == 0,
{
    let mut history: Vec<i32> = Vec::new();
    while history.len() < 4096
        invariant
            history@.len() <= 4096,
            forall|i: int| 0 <= i < history@.len() ==> #[trigger] history@[i] == 0,
        decreases 4096 - history@.len(),
    {
        history.push(0);
    }
    history
}

pub open spec fn tt_scores_bounded(tt: &TT) -> bool {
    forall|i: int| 0 <= i < tt.data@.len() ==> -INF <= #[trigger] tt.data@[i].score <= INF
}

pub open spec fn tt_move_of(e: Option<TTEntry>) -> Option<Move> {
    match e {
        Some(x) => Some(x.mv),
        None => None,
    }
}

pub open spec fn min_int(a: int, b: int) -> int {
    if a < b { a } else { b }
}

impl SearchEngine {
    pub open spec fn wf(&self) -> bool {
        &&& self.tt.wf()
        &&& self.zob.wf()
        &&& self.killer@.len() == 2 * MAX_PLY
        &&& self.history@.len() == 4096
        &&& forall|i: int| 0 <= i < 4096 ==> 0 <= #[trigger] self.history@[i] <= HISTORY_CAP
        &&& tt_scores_bounded(&self.tt)
    }

    /// Ordering key of a move, higher first: the table's move, captures by
    /// victim value, queen promotions, the two killers of the ply, then
    /// history.
    pub open spec fn order_key(&self, m: Move, tt_mv: Option<Move>, ply: int) -> int {
        (if tt_mv == Some(m) {
            2000000int
        } else {
            0int
        }) + (match m.captured {
            Some(c) => 1000000 + piece_value_spec(c) * 10 - 100,
            None => 0int,
        }) + (if m.promotion == Some(Piece::Queen) {
            900000int
        } else {
            0int
        }) + (if ply < MAX_PLY {
            (if self.killer@[2 * ply] == Some(m) {
                800000int
            } else {
                0int
            }) + (if self.killer@[2 * ply + 1] == Some(m) {
                700000int
            } else {
                0int
            })
        } else {
            0int
        }) + min_int(self.history@[m.from * 64 + m.to] as int, 600000)
    }

    pub fn new() -> (r: SearchEngine)
        ensures
            r.wf(),
            r.rep_table@.len() == 0,
            r.infos@.len() == 0,
            !r.stopped,
            r.nodes == 0,
            r.start is None,
            r.time_limit == 5000,
            r.tt.data@.len() == TT_ENTRIES,
            forall|i: int| 0 <= i < r.tt.data@.len() ==> #[trigger] r.tt.data@[i] == empty_entry(),
            forall|i: int| 0 <= i < 2 * MAX_PLY ==> #[trigger] r.killer@[i] is None,
            forall|i: int| 0 <= i < 4096 ==> #[trigger] r.history@[i] == 0,
    {
        let tt = TT::new();
        let zob = Zobrist::new();
        let killer = empty_killers();
        let history = empty_history();
        SearchEngine {
            tt,
            zob,
            nodes: 0,
            killer,
            history,
            rep_table: Vec::new(),
            start: None,
            time_limit: 5000,
            stopped: false,
            infos: Vec::new(),
        }
    }

    /// Forgets everything learnt: table depths, killers, history, the
    /// repetition stack and the node count.
    pub fn clear(&mut self)
        requires
            old(self).wf(),
        ensures
            final(self).wf(),
            final(self).nodes == 0,
            !final(self).stopped,
            final(self).rep_table@.len() == 0,
            forall|i: int| 0 <= i < 2 * MAX_PLY ==> #[trigger] final(self).killer@[i] is None,
            forall|i: int| 0 <= i < 4096 ==> #[trigger] final(self).history@[i] == 0,
            forall|i: int|
                0 <= i < final(self).tt.data@.len() ==> #[trigger] final(self).tt.data@[i].depth == 0,
    {
        self.tt.clear();
        self.nodes = 0;
        self.killer = empty_killers();
        self.history = empty_history();
        self.rep_table.clear();
        self.stopped = false;
    }

    /// Records a position of the game for repetition detection.
    pub fn push_position(&mut self, board: &Board)
        requires
            old(self).wf(),
            board.wf(),
        ensures
            final(self).wf(),
            final(self).rep_table@ == old(self).rep_table@.push(zobrist_hash(&old(self).zob, board@)),
            *final(self) == (SearchEngine { rep_table: final(self).rep_table, ..*old(self) }),
    {
        let h = self.zob.hash(board);
        self.rep_table.push(h);
    }

    /// Milliseconds since the search started; 0 before any search.
    fn elapsed_ms(&self) -> (r: u64)
        ensures
            self.start is None ==> r == 0,
    {
        match &self.start {
            Some(s) => {
                let ms = s.elapsed().as_millis();
                if ms > u64::MAX as u128 {
                    u64::MAX
                } else {
                    ms as u64
                }
            },
            None => 0,
        }
    }

    /// Sets the stop flag once the time budget is spent.
    fn check_time(&mut self)
        ensures
            *final(self) == (SearchEngine { stopped: final(self).stopped, ..*old(self) }),
            old(self).stopped ==> final(self).stopped,
    {
        if self.elapsed_ms() >= self.time_limit {
            self.stopped = true;
        }
    }

    /// The fifty-move rule, or the fingerprint already twice on the
    /// repetition stack.
    fn is_draw(&self, hash: u64, halfmove: u32) -> (r: bool)
        ensures
            r == (halfmove >= 100 || count_of(self.rep_table@, hash) >= 2),
    {
        if halfmove >= 100 {
            return true;
        }
        count_occurrences(&self.rep_table, hash) >= 2
    }

    fn move_key(&self, mv: Move, tt_mv: Option<Move>, ply: usize) -> (r: i32)
        requires
            self.wf(),
            move_on_board(mv),
        ensures
            r == self.order_key(mv, tt_mv, ply as int),
    {
        let mut s: i32 = 0;
        match tt_mv {
            Some(t) => {
                if t == mv {
                    s = s + 2000000;
                }
            },
            None => {},
        }
        if let Some(cap) = mv.captured {
            s = s + 1000000 + piece_value(cap) * 10 - 100;
        }
        if mv.promotion == Some(Piece::Queen) {
            s = s + 900000;
        }
        if ply < MAX_PLY {
            match self.killer[2 * ply] {
                Some(k) => {
                    if k == mv {
                        s = s + 800000;
                    }
                },
                None => {},
            }
            match self.killer[2 * ply + 1] {
                Some(k) => {
                    if k == mv {
                        s = s + 700000;
                    }
                },
                None => {},
            }
        }
        let h = self.history[(mv.from as usize) * 64 + mv.to as usize];
        s + if h < 600000 {
            h
        } else {
            600000
        }
    }
}

proof fn lemma_swap_multiset<A>(s: Seq<A>, i: int, j: int)
    requires
        0 <= i < s.len(),
        0 <= j < s.len(),
    ensures
        s.update(i, s[j]).update(j, s[i]).to_multiset() == s.to_multiset(),
{
    broadcast use vstd::seq_lib::to_multiset_update;
    broadcast use vstd::seq_lib::to_multiset_contains;
    broadcast use vstd::multiset::group_multiset_axioms;

    let s1 = s.update(i, s[j]);
    let m = s.to_multiset();
    assert(s1.len() == s.len());
    assert(s1[j] == s[j]);
    assert(s1.to_multiset() == m.insert(s[j]).remove(s[i]));
    assert(s1.update(j, s[i]).to_multiset() == s1.to_multiset().insert(s[i]).remove(s[j]));
    assert(s.contains(s[i]));
    assert(m.count(s[i]) > 0);
    assert(m.insert(s[j]).remove(s[i]).insert(s[i]).remove(s[j]) =~= m);
}

impl SearchEngine {
    /// The moves rearranged by non-increasing ordering key; the table's move
    /// is the one stored for `hash`.
    fn order(&self, moves: Vec<Move>, hash: u64, ply: usize) -> (r: Vec<Move>)
        requires
            self.wf(),
            forall|i: int| 0 <= i < moves@.len() ==> move_on_board(#[trigger] moves@[i]),
        ensures
            r@.to_multiset() == moves@.to_multiset(),
            r@.len() == moves@.len(),
            forall|i: int| 0 <= i < r@.len() ==> moves@.contains(#[trigger] r@[i]),
            forall|a: int, b: int|
                #![trigger r@[a], r@[b]]
                0 <= a < b < r@.len() ==> self.order_key(r@[a], tt_move_of(self.tt.lookup(hash)), ply as int)
                    >= self.order_key(r@[b], tt_move_of(self.tt.lookup(hash)), ply as int),
    {
        broadcast use vstd::seq_lib::to_multiset_contains;
        broadcast use vstd::seq_lib::to_multiset_len;

        let tt_mv = match self.tt.probe(hash) {
            Some(e) => Some(e.mv),
            None => None,
        };
        let ghost t = tt_move_of(self.tt.lookup(hash));
        let mut v = moves;
        let ghost orig = v@;
        let n = v.len();
        let mut keys: Vec<i32> = Vec::new();
        let mut k: usize = 0;
        while k < n
            invariant
                self.wf(),
                v@ == orig,
                n == v@.len(),
                tt_mv == t,
                k <= n,
                keys@.len() == k,
                forall|i: int| 0 <= i < orig.len() ==> move_on_board(#[trigger] orig[i]),
                forall|j: int| 0 <= j < k ==> #[trigger] keys@[j] == self.order_key(v@[j], t, ply as int),
            decreases n - k,
        {
            let key = self.move_key(v[k], tt_mv, ply);
            keys.push(key);
            k = k + 1;
        }
        let mut i: usize = 0;
        while i < n
            invariant
                n == v@.len(),
                keys@.len() == n,
                i <= n,
                v@.to_multiset() == orig.to_multiset(),
                forall|j: int| 0 <= j < n ==> #[trigger] keys@[j] == self.order_key(v@[j], t, ply as int),
                forall|a: int, b: int|
                    #![trigger keys@[a], keys@[b]]
                    0 <= a < b < n && a < i ==> keys@[a] >= keys@[b],
            decreases n - i,
        {
            let mut best = i;
            let mut j = i + 1;
            while j < n
                invariant
                    keys@.len() == n,
                    i < n,
                    i <= best < j <= n,
                    forall|q: int| i <= q < j ==> keys@[best as int] >= #[trigger] keys@[q],
                decreases n - j,
            {
                if keys[j] > keys[best] {
                    best = j;
                }
                j = j + 1;
            }
            proof {
                lemma_swap_multiset(v@, i as int, best as int);
            }
            let a = v[i];
            let b = v[best];
            v.set(i, b);
            v.set(best, a);
            let ka = keys[i];
            let kb = keys[best];
            keys.set(i, kb);
            keys.set(best, ka);
            i = i + 1;
        }
        proof {
            assert forall|q: int| 0 <= q < v@.len() implies orig.contains(#[trigger] v@[q]) by {
                assert(v@.contains(v@[q]));
                assert(v@.to_multiset().count(v@[q]) > 0);
            }
            assert forall|a: int, b: int|
                #![trigger v@[a], v@[b]]
                0 <= a < b < v@.len() implies self.order_key(v@[a], t, ply as int)
                >= self.order_key(v@[b], t, ply as int) by {
                assert(keys@[a] >= keys@[b]);
            }
        }
        v
    }

    /// Quiescence: stand pat on the static evaluation, then try captures
    /// whose gain could still reach alpha.
    fn qsearch(&mut self, board: &mut Board, alpha: i32, beta: i32) -> (r: i32)
        requires
            old(self).wf(),
            old(board).wf(),
            ep_sound(old(board)@),
            -INF <= alpha < beta <= INF,
        ensures
            final(self).wf(),
            final(board)@ == old(board)@,
            final(self).rep_table@ == old(self).rep_table@,
            final(self).zob == old(self).zob,
            final(self).infos@ == old(self).infos@,
            -INF <= r <= INF,
            old(self).stopped ==> r == 0,
            !old(self).stopped ==> alpha <= r <= beta,
            !old(self).stopped && crate::eval::evaluate_spec(old(board)@) >= beta ==> r == beta,
            !old(self).stopped ==> r >= crate::eval::evaluate_spec(old(board)@) || r == beta,
            !old(self).stopped && capture_filter(legal_moves(old(board)@)).len() == 0 ==> r == (if crate::eval::evaluate_spec(old(board)@) >= beta {
                beta as int
            } else if crate::eval::evaluate_spec(old(board)@) > alpha {
                crate::eval::evaluate_spec(old(board)@)
            } else {
                alpha as int
            }),
            final(self).stopped == old(self).stopped,
            final(self).tt == old(self).tt,
        decreases occupied(old(board)@.squares, 64), ep_flag(old(board)@),
    {
        self.nodes = if self.nodes < u64::MAX {
            self.nodes + 1
        } else {
            self.nodes
        };
        if self.stopped {
            return 0;
        }
        let ghost v = board@;
        let stand_pat = evaluate(board);
        if stand_pat >= beta {
            return beta;
        }
        let mut lo = if stand_pat > alpha {
            stand_pat
        } else {
            alpha
        };
        let caps = generate_captures(board);
        let mut i: usize = 0;
        while i < caps.len()
            invariant
                self.wf(),
                board.wf(),
                board@ == v,
                v == old(board)@,
                ep_sound(v),
                !old(self).stopped,
                self.rep_table@ == old(self).rep_table@,
                self.zob == old(self).zob,
                self.infos@ == old(self).infos@,
                -INF <= alpha <= lo < beta <= INF,
                -EVAL_BOUND <= stand_pat <= EVAL_BOUND,
                stand_pat == crate::eval::evaluate_spec(v),
                lo >= stand_pat,
                i == 0 ==> lo == (if stand_pat > alpha {
                    stand_pat
                } else {
                    alpha
                }),
                caps@ == capture_filter(legal_moves(v)),
                self.stopped == old(self).stopped,
                self.tt == old(self).tt,
                i <= caps@.len(),
                all_gen_facts(v, caps@),
                forall|j: int| 0 <= j < caps@.len() ==> is_capture(#[trigger] caps@[j]),
                forall|j: int| 0 <= j < caps@.len() ==> crate::board::consistent_move(v, #[trigger] caps@[j]),
            decreases caps@.len() - i,
        {
            let mv = caps[i];
            assert(gen_fact(v, caps@[i as int]));
            assert(is_capture(caps@[i as int]));
            let gain = match mv.captured {
                Some(p) => piece_value(p),
                None => 0,
            };
            if stand_pat + gain + 200 < lo {
                i = i + 1;
                continue;
            }
            proof {
                lemma_capture_shrinks(v, mv);
                lemma_ep_sound_after(v, mv);
                lemma_make_unmake(v, mv);
            }
            board.make_move(mv);
            let child = self.qsearch(board, -beta, -lo);
            board.unmake_move();
            let s = -child;
            if s >= beta {
                return beta;
            }
            if s > lo {
                lo = s;
            }
            i = i + 1;
        }
        lo
    }
}

/// The node at `v` is searched move by move: no draw return below the root
/// and no table entry deep enough to answer it.
pub open spec fn node_searched(e: SearchEngine, v: BoardView, depth: u8, ply: int) -> bool {
    let h = zobrist_hash(&e.zob, v);
    &&& (ply == 0 || (v.halfmove < 100 && count_of(e.rep_table@, h) < 2))
    &&& !(e.tt.lookup(h) matches Some(t) && t.depth >= depth)
}

/// The flag a node's result is stored under: a lower bound on a beta
/// cutoff, exact when alpha was raised, an upper bound otherwise.
pub open spec fn result_flag(r: i32, alpha: i32, beta: i32) -> u8 {
    if r >= beta {
        FLAG_LOWER
    } else if r > alpha {
        FLAG_EXACT
    } else {
        FLAG_UPPER
    }
}

/// The slot of `h` records `score` at `depth` under `flag` with one of
/// `moves`, unless it already held `h` at a greater depth.
pub open spec fn table_records(tt: TT, h: u64, depth: u8, score: i32, flag: u8, moves: Seq<Move>) -> bool {
    let e = tt.data@[tt.slot(h)];
    ||| (e.hash == h && e.depth == depth && e.score == score && e.flag == flag && moves.contains(e.mv))
    ||| (e.hash == h && e.depth > depth)
}

impl SearchEngine {
    /// Principal-variation search of `board` to `depth` plies in the window
    /// (alpha, beta), `ply` plies below the root.
    pub fn pvs(&mut self, board: &mut Board, depth: u8, alpha: i32, beta: i32, ply: usize) -> (r: i32)
        requires
            old(self).wf(),
            old(board).wf(),
            ep_sound(old(board)@),
            -INF <= alpha < beta <= INF,
            ply + depth <= 256,
        ensures
            final(self).wf(),
            final(board)@ == old(board)@,
            final(self).rep_table@ == old(self).rep_table@,
            final(self).zob == old(self).zob,
            final(self).infos@ == old(self).infos@,
            -INF <= r <= INF,
            old(self).stopped ==> r == 0,
            ply > 0 && old(board).halfmove >= 100 ==> r == 0,
            ply > 0 && count_of(old(self).rep_table@, zobrist_hash(&old(self).zob, old(board)@)) >= 2
                ==> r == 0,
            final(self).tt.mask == old(self).tt.mask,
            !final(self).stopped && node_searched(*old(self), old(board)@, depth, ply as int) && depth
                > 0 && legal_moves(old(board)@).len() == 0 ==> r == (if in_check_spec(old(board)@) {
                -MATE + ply
            } else {
                0
            }),
            !final(self).stopped && node_searched(*old(self), old(board)@, depth, ply as int) && depth
                > 0 && legal_moves(old(board)@).len() > 0 ==> alpha <= r <= beta && table_records(
                final(self).tt,
                zobrist_hash(&old(self).zob, old(board)@),
                depth,
                r,
                result_flag(r, alpha, beta),
                legal_moves(old(board)@),
            ),
            !final(self).stopped && node_searched(*old(self), old(board)@, depth, ply as int) && depth
                == 0 ==> alpha <= r <= beta && (crate::eval::evaluate_spec(old(board)@) >= beta ==> r
                == beta) && (r >= crate::eval::evaluate_spec(old(board)@) || r == beta),
        decreases depth,
    {
        self.nodes = if self.nodes < u64::MAX {
            self.nodes + 1
        } else {
            self.nodes
        };
        if self.nodes & 2047 == 0 {
            self.check_time();
        }
        if self.stopped {
            return 0;
        }
        let ghost v = board@;
        let hash = self.zob.hash(board);
        if ply > 0 && self.is_draw(hash, board.halfmove) {
            return 0;
        }
        proof {
            lemma_and_le(hash as usize, self.tt.mask);
        }
        match self.tt.probe(hash) {
            Some(e) => {
                assert(e == self.tt.data@[self.tt.slot(hash)]);
                if e.depth >= depth {
                    if e.flag == FLAG_EXACT {
                        return e.score;
                    } else if e.flag == FLAG_LOWER {
                        if e.score >= beta {
                            return e.score;
                        }
                    } else if e.flag == FLAG_UPPER {
                        if e.score <= alpha {
                            return e.score;
                        }
                    }
                }
            },
            None => {},
        }
        if depth == 0 {
            return self.qsearch(board, alpha, beta);
        }
        let moves = generate_moves(board);
        if moves.len() == 0 {
            return if board.in_check() {
                -MATE + ply as i32
            } else {
                0
            };
        }
        let ordered = self.order(moves, hash, ply);
        proof {
            assert forall|j: int| 0 <= j < ordered@.len() implies gen_fact(v, #[trigger] ordered@[j])
                && crate::board::consistent_move(v, ordered@[j]) by {
                assert(moves@.contains(ordered@[j]));
                let k = choose|k: int| 0 <= k < moves@.len() && moves@[k] == ordered@[j];
                assert(gen_fact(v, moves@[k]));
                assert(crate::board::consistent_move(v, moves@[k]));
            }
        }
        let mut best_mv = ordered[0];
        let mut raised_alpha = false;
        let mut lo = alpha;
        self.rep_table.push(hash);
        let mut i: usize = 0;
        while i < ordered.len()
            invariant
                self.wf(),
                board.wf(),
                board@ == v,
                v == old(board)@,
                ep_sound(v),
                !self.stopped,
                !old(self).stopped,
                self.zob == old(self).zob,
                self.infos@ == old(self).infos@,
                self.rep_table@ == old(self).rep_table@.push(hash),
                -INF <= alpha <= lo < beta <= INF,
                raised_alpha ==> lo > alpha,
                !raised_alpha ==> lo == alpha,
                legal_moves(v).contains(best_mv),
                moves@ == legal_moves(v),
                forall|j: int| 0 <= j < ordered@.len() ==> moves@.contains(#[trigger] ordered@[j]),
                hash == zobrist_hash(&old(self).zob, v),
                self.tt.mask == old(self).tt.mask,
                1 <= depth,
                ply + depth <= 256,
                i <= ordered@.len(),
                ply > 0 ==> old(board).halfmove < 100 && count_of(
                    old(self).rep_table@,
                    zobrist_hash(&old(self).zob, old(board)@),
                ) < 2,
                forall|j: int|
                    0 <= j < ordered@.len() ==> gen_fact(v, #[trigger] ordered@[j])
                        && crate::board::consistent_move(v, ordered@[j]),
            decreases ordered@.len() - i,
        {
            let mv = ordered[i];
            assert(gen_fact(v, ordered@[i as int]));
            proof {
                lemma_ep_sound_after(v, mv);
                lemma_make_unmake(v, mv);
            }
            board.make_move(mv);
            let score: i32 = if i == 0 {
                -self.pvs(board, depth - 1, -beta, -lo, ply + 1)
            } else {
                let reduce: u8 = if i >= 3 && depth >= 3 && mv.captured.is_none()
                    && mv.promotion.is_none() && !board.in_check() {
                    1
                } else {
                    0
                };
                let mut s = -self.pvs(board, depth - 1 - reduce, -lo - 1, -lo, ply + 1);
                if s > lo {
                    s = -self.pvs(board, depth - 1, -beta, -lo, ply + 1);
                }
                s
            };
            board.unmake_move();
            if self.stopped {
                self.rep_table.pop();
                return 0;
            }
            if score > lo {
                lo = score;
                best_mv = mv;
                raised_alpha = true;
                if score >= beta {
                    if mv.captured.is_none() && mv.promotion.is_none() && ply < MAX_PLY {
                        let first = self.killer[2 * ply];
                        self.killer.set(2 * ply + 1, first);
                        self.killer.set(2 * ply, Some(mv));
                        let idx = (mv.from as usize) * 64 + mv.to as usize;
                        let d = depth as i32;
                        proof {
                            assert(d * d <= 65025) by (nonlinear_arith)
                                requires
                                    0 <= d <= 255,
                            ;
                            assert(d * d >= 0) by (nonlinear_arith);
                        }
                        let h = self.history[idx] + d * d;
                        self.history.set(
                            idx,
                            if h < HISTORY_CAP {
                                h
                            } else {
                                HISTORY_CAP
                            },
                        );
                    }
                    self.rep_table.pop();
                    proof {
                        lemma_and_le(hash as usize, self.tt.mask);
                    }
                    self.tt.store(hash, depth, beta, FLAG_LOWER, mv);
                    return beta;
                }
            }
            i = i + 1;
        }
        self.rep_table.pop();
        let flag = if !raised_alpha {
            FLAG_UPPER
        } else {
            FLAG_EXACT
        };
        proof {
            lemma_and_le(hash as usize, self.tt.mask);
        }
        self.tt.store(hash, depth, lo, flag, best_mv);
        lo
    }
}

/// The root of a search in progress: its legal moves, and the best move
/// and score of the last completed iteration.
pub struct RootState {
    pub moves: Vec<Move>,
    pub best: Move,
    pub score: i32,
}

impl RootState {
    /// The best move so far is null or one of the root's legal moves.
    pub open spec fn wf(&self) -> bool {
        &&& self.best == null_move() || self.moves@.contains(self.best)
        &&& -INF <= self.score <= INF
    }
}

fn contains_move(moves: &Vec<Move>, m: Move) -> (r: bool)
    ensures
        r == moves@.contains(m),
{
    let mut i: usize = 0;
    while i < moves.len()
        invariant
            i <= moves@.len(),
            forall|j: int| 0 <= j < i ==> moves@[j] != m,
        decreases moves@.len() - i,
    {
        if moves[i] == m {
            assert(moves@[i as int] == m);
            return true;
        }
        i = i + 1;
    }
    false
}

impl SearchEngine {
    /// Starts a search of `board` with a budget of `time_limit_ms`: the clock
    /// starts, counters and records are reset, and the root's legal moves
    /// are listed.
    pub fn begin_search(&mut self, board: &Board, time_limit_ms: u64) -> (r: RootState)
        requires
            old(self).wf(),
            board.wf(),
        ensures
            final(self).wf(),
            final(self).rep_table@ == old(self).rep_table@,
            final(self).infos@.len() == 0,
            final(self).time_limit == time_limit_ms,
            !final(self).stopped,
            r.wf(),
            r.moves@ == legal_moves(board@),
            r.best == null_move(),
            r.score == 0,
    {
        self.nodes = 0;
        self.stopped = false;
        self.start = Some(Instant::now());
        self.time_limit = time_limit_ms;
        self.infos = Vec::new();
        RootState { moves: generate_moves(board), best: Move::null(), score: 0 }
    }

    /// Runs the iteration at `depth`. Unless the clock stopped it, records
    /// it in `infos`, takes the table's move for the root where it is one of
    /// the root's legal moves, and keeps its score. Returns whether a deeper
    /// iteration should follow: not after a stop, a mate score, or half the
    /// budget spent.
    pub fn search_iteration(&mut self, board: &mut Board, root: &mut RootState, depth: u8) -> (go_on:
        bool)
        requires
            old(self).wf(),
            old(board).wf(),
            ep_sound(old(board)@),
            old(root).wf(),
            old(root).moves@ == legal_moves(old(board)@),
            1 <= depth,
            old(self).infos@.len() == depth - 1,
            forall|k: int|
                0 <= k < old(self).infos@.len() ==> #[trigger] old(self).infos@[k].depth == k + 1,
        ensures
            final(self).wf(),
            final(board)@ == old(board)@,
            final(self).rep_table@ == old(self).rep_table@,
            final(root).wf(),
            final(root).moves@ == old(root).moves@,
            final(self).infos@.len() <= depth,
            go_on ==> final(self).infos@.len() == depth,
            final(self).stopped ==> !go_on && *final(root) == *old(root) && final(self).infos@
                == old(self).infos@,
            !final(self).stopped ==> final(self).infos@.len() == depth && final(self).infos@.last().score
                == final(root).score && final(self).infos@.last().best == final(root).best,
            forall|k: int|
                0 <= k < final(self).infos@.len() ==> #[trigger] final(self).infos@[k].depth == k + 1,
    {
        let score = self.pvs(board, depth, -INF, INF, 0);
        if self.stopped {
            return false;
        }
        root.score = score;
        let hash = self.zob.hash(board);
        match self.tt.probe(hash) {
            Some(e) => {
                if e.mv.from != e.mv.to && contains_move(&root.moves, e.mv) {
                    root.best = e.mv;
                }
            },
            None => {},
        }
        let elapsed = self.elapsed_ms();
        self.infos.push(
            SearchInfo { depth, score, nodes: self.nodes, time_ms: elapsed, best: root.best },
        );
        let magnitude = if score < 0 {
            -score
        } else {
            score
        };
        !(magnitude > MATE - 1000 || self.elapsed_ms() >= self.time_limit / 2)
    }

    /// The move to play: the best move of the last completed iteration, else
    /// the first legal move, else the null move; and its score.
    pub fn finish_search(root: &RootState) -> (r: (Move, i32))
        requires
            root.wf(),
        ensures
            root.moves@.len() > 0 ==> root.moves@.contains(r.0),
            root.moves@.len() == 0 ==> r.0 == null_move(),
            r.1 == root.score,
    {
        if root.best.from == root.best.to {
            if root.moves.len() > 0 {
                assert(root.moves@.contains(root.moves@[0]));
                return (root.moves[0], root.score);
            }
            return (Move::null(), root.score);
        }
        (root.best, root.score)
    }

    /// Iterative deepening from depth 1 to `max_depth` within
    /// `time_limit_ms`. Returns a legal move (the best of the last completed
    /// iteration, else the first legal move), or the null move when there is
    /// none, and the score of the last completed iteration; `infos` holds one
    /// record per completed iteration.
    pub fn search(&mut self, board: &mut Board, max_depth: u8, time_limit_ms: u64) -> (r: (
        Move,
        i32,
    ))
        requires
            old(self).wf(),
            old(board).wf(),
            ep_sound(old(board)@),
        ensures
            final(self).wf(),
            final(board)@ == old(board)@,
            final(self).rep_table@ == old(self).rep_table@,
            -INF <= r.1 <= INF,
            legal_moves(old(board)@).len() > 0 ==> legal_moves(old(board)@).contains(r.0),
            legal_moves(old(board)@).len() == 0 ==> r.0 == null_move(),
            final(self).infos@.len() <= max_depth,
            max_depth >= 1 && !final(self).stopped ==> final(self).infos@.len() >= 1,
            forall|k: int|
                0 <= k < final(self).infos@.len() ==> #[trigger] final(self).infos@[k].depth == k + 1,
    {
        let mut root = self.begin_search(board, time_limit_ms);
        let ghost v = board@;
        let mut depth: u16 = 1;
        let mut going = true;
        while going && depth <= max_depth as u16
            invariant
                self.wf(),
                board.wf(),
                board@ == v,
                v == old(board)@,
                ep_sound(v),
                self.rep_table@ == old(self).rep_table@,
                root.wf(),
                root.moves@ == legal_moves(v),
                1 <= depth <= 256,
                going ==> self.infos@.len() == depth - 1,
                !going ==> self.stopped || self.infos@.len() >= 1,
                self.infos@.len() <= depth,
                self.infos@.len() <= max_depth,
                forall|k: int| 0 <= k < self.infos@.len() ==> #[trigger] self.infos@[k].depth == k + 1,
            decreases 256 - depth + if going {
                1int
            } else {
                0int
            },
        {
            going = self.search_iteration(board, &mut root, depth as u8);
            if going {
                depth = depth + 1;
            }
        }
        SearchEngine::finish_search(&root)
    }
}

} // verus!
