//! Reading the engine's text commands: whitespace tokens, the search budget
//! of a `go` command and the position of a `position` command.
use vstd::prelude::*;
use vstd::string::StringSliceAdditionalSpecFns;
use crate::board::{
    after_uci, all_digits, digits_value, fen_view, start_view, Board, BoardView, Color,
};

verus! {

/// ASCII whitespace: space, tab, line feed, vertical tab, form feed,
/// carriage return.
pub open spec fn is_space(c: u8) -> bool {
    c == 32 || (9 <= c <= 13)
}

/// The maximal runs of non-whitespace bytes, in order.
pub open spec fn tokens(b: Seq<u8>) -> Seq<Seq<u8>>
    decreases b.len(),
{
    if b.len() == 0 {
        Seq::empty()
    } else {
        let t = tokens(b.drop_last());
        let c = b.last();
        if is_space(c) {
            t
        } else if b.len() == 1 || is_space(b[b.len() - 2]) {
            t.push(seq![c])
        } else {
            t.update(t.len() - 1, t.last().push(c))
        }
    }
}

pub open spec fn token_views(v: Seq<Vec<u8>>) -> Seq<Seq<u8>> {
    v.map_values(|t: Vec<u8>| t@)
}

/// Splits a line into its whitespace-separated tokens.
pub fn split_tokens(b: &[u8]) -> (r: Vec<Vec<u8>>)
    ensures
        token_views(r@) == tokens(b@),
{
    let mut done: Vec<Vec<u8>> = Vec::new();
    let mut cur: Vec<u8> = Vec::new();
    let mut in_token = false;
    let mut i: usize = 0;
    while i < b.len()
        invariant
            i <= b@.len(),
            in_token == (i > 0 && !is_space(b@[i - 1])),
            !in_token ==> cur@.len() == 0 && token_views(done@) == tokens(b@.take(i as int)),
            in_token ==> token_views(done@).push(cur@) == tokens(b@.take(i as int)),
        decreases b@.len() - i,
    {
        let c = b[i];
        proof {
            assert(b@.take(i + 1).drop_last() =~= b@.take(i as int));
            assert(b@.take(i + 1).last() == c);
            if i > 0 {
                assert(b@.take(i + 1)[i - 1] == b@[i - 1]);
            }
        }
        if c == 32 || (9 <= c && c <= 13) {
            if in_token {
                let t = cur;
                cur = Vec::new();
                let ghost before = done@;
                done.push(t);
                proof {
                    assert(token_views(done@) =~= token_views(before).push(t@));
                }
                in_token = false;
            }
        } else {
            let ghost before = cur@;
            cur.push(c);
            proof {
                if !in_token {
                    assert(cur@ =~= seq![c]);
                } else {
                    let t = tokens(b@.take(i as int));
                    assert(token_views(done@).push(cur@) =~= t.update(t.len() - 1, t.last().push(c)));
                }
            }
            in_token = true;
        }
        i = i + 1;
    }
    if in_token {
        let ghost before = done@;
        done.push(cur);
        proof {
            assert(token_views(done@) =~= token_views(before).push(cur@));
        }
    }
    proof {
        assert(b@.take(i as int) =~= b@);
    }
    done
}

/// An unsigned decimal as Rust reads it: an optional `+`, then one or more
/// digits, with a value at most `max`.
pub open spec fn unsigned_value(t: Seq<u8>, max: int) -> Option<int> {
    let d = if t.len() > 0 && t[0] == 43 { t.drop_first() } else { t };
    if d.len() > 0 && all_digits(d) && digits_value(d) <= max {
        Some(digits_value(d))
    } else {
        None
    }
}

proof fn lemma_digits_grow(f: Seq<u8>, k: int)
    requires
        0 <= k <= f.len(),
        all_digits(f),
    ensures
        digits_value(f.take(k)) <= digits_value(f),
        0 <= digits_value(f.take(k)),
    decreases f.len(),
{
    if k < f.len() {
        let g = f.drop_last();
        assert(g.take(k) =~= f.take(k));
        assert(all_digits(g));
        lemma_digits_grow(g, k);
        assert(48 <= f.last() <= 57);
    } else {
        assert(f.take(k) =~= f);
        if f.len() > 0 {
            lemma_digits_grow(f.drop_last(), f.len() - 1);
            assert(f.drop_last().take(f.len() - 1) =~= f.drop_last());
            assert(48 <= f.last() <= 57);
        }
    }
}

proof fn lemma_unsigned_range(t: Seq<u8>, max: int)
    ensures
        unsigned_value(t, max) matches Some(n) ==> 0 <= n <= max,
{
    let d = if t.len() > 0 && t[0] == 43 { t.drop_first() } else { t };
    if d.len() > 0 && all_digits(d) {
        lemma_digits_grow(d, d.len() as int);
        assert(d.take(d.len() as int) =~= d);
    }
}

fn parse_unsigned(t: &[u8], max: u64) -> (r: Option<u64>)
    ensures
        match unsigned_value(t@, max as int) {
            Some(n) => r == Some(n as u64),
            None => r is None,
        },
        unsigned_value(t@, max as int) matches Some(n) ==> 0 <= n <= max,
{
    proof {
        lemma_unsigned_range(t@, max as int);
    }
    let start: usize = if t.len() > 0 && t[0] == 43 {
        1
    } else {
        0
    };
    let ghost d = if t@.len() > 0 && t@[0] == 43 {
        t@.drop_first()
    } else {
        t@
    };
    if start >= t.len() {
        assert(d.len() == 0);
        return None;
    }
    let mut acc: u128 = 0;
    let mut ok = true;
    let mut i: usize = start;
    while i < t.len()
        invariant
            start <= i <= t@.len(),
            start < t@.len(),
            d =~= t@.subrange(start as int, t@.len() as int),
            d == (if t@.len() > 0 && t@[0] == 43 {
                t@.drop_first()
            } else {
                t@
            }),
            ok ==> all_digits(d.take(i - start)) && acc == digits_value(d.take(i - start)) && acc
                <= max,
            !ok ==> unsigned_value(t@, max as int) is None,
        decreases t@.len() - i,
    {
        let c = t[i];
        proof {
            assert(d.take(i - start + 1).drop_last() =~= d.take(i - start));
            assert(d[i - start] == c);
        }
        if ok {
            if c < 48 || c > 57 {
                ok = false;
                assert(!all_digits(d));
            } else {
                let next = acc * 10 + (c - 48) as u128;
                proof {
                    let k = i - start;
                    assert(d.take(k + 1).last() == c);
                    assert(digits_value(d.take(k + 1)) == digits_value(d.take(k)) * 10 + (c - 48));
                    assert forall|q: int| 0 <= q < d.take(k + 1).len() implies 48 <= #[trigger] d.take(
                        k + 1,
                    )[q] <= 57 by {
                        if q < k {
                            assert(d.take(k + 1)[q] == d.take(k)[q]);
                        }
                    }
                }
                if next > max as u128 {
                    ok = false;
                    proof {
                        if all_digits(d) {
                            lemma_digits_grow(d, i - start + 1);
                            assert(digits_value(d) > max);
                        }
                    }
                } else {
                    acc = next;
                }
            }
        }
        i = i + 1;
    }
    proof {
        assert(d.take(i - start) =~= d);
    }
    if ok {
        Some(acc as u64)
    } else {
        None
    }
}

pub open spec fn first_index(toks: Seq<Seq<u8>>, key: Seq<u8>, i: int) -> Option<int>
    decreases toks.len() - i,
{
    if i < 0 || i >= toks.len() {
        None
    } else if toks[i] == key {
        Some(i)
    } else {
        first_index(toks, key, i + 1)
    }
}

/// The number after the first token equal to `key`, if that token has a
/// successor that reads as a `u64`.
pub open spec fn value_after(toks: Seq<Seq<u8>>, key: Seq<u8>) -> Option<int> {
    match first_index(toks, key, 0) {
        Some(i) => if i + 1 < toks.len() {
            unsigned_value(toks[i + 1], u64::MAX as int)
        } else {
            None
        },
        None => None,
    }
}

fn same_bytes(a: &[u8], b: &[u8]) -> (r: bool)
    ensures
        r == (a@ == b@),
{
    if a.len() != b.len() {
        return false;
    }
    let mut i: usize = 0;
    while i < a.len()
        invariant
            a@.len() == b@.len(),
            i <= a@.len(),
            forall|k: int| 0 <= k < i ==> a@[k] == b@[k],
        decreases a@.len() - i,
    {
        if a[i] != b[i] {
            return false;
        }
        i = i + 1;
    }
    assert(a@ =~= b@);
    true
}

pub fn get_val(parts: &Vec<Vec<u8>>, key: &[u8]) -> (r: Option<u64>)
    ensures
        match value_after(token_views(parts@), key@) {
            Some(n) => r == Some(n as u64),
            None => r is None,
        },
        value_after(token_views(parts@), key@) matches Some(n) ==> 0 <= n <= u64::MAX,
{
    proof {
        let toks = token_views(parts@);
        match first_index(toks, key@, 0) {
            Some(i) => {
                if i + 1 < toks.len() {
                    lemma_unsigned_range(toks[i + 1], u64::MAX as int);
                }
            },
            None => {},
        }
    }
    let ghost toks = token_views(parts@);
    let mut i: usize = 0;
    while i < parts.len()
        invariant
            toks == token_views(parts@),
            i <= parts@.len(),
            first_index(toks, key@, 0) == first_index(toks, key@, i as int),
        decreases parts@.len() - i,
    {
        if same_bytes(parts[i].as_slice(), key) {
            if i + 1 < parts.len() {
                return parse_unsigned(parts[i + 1].as_slice(), u64::MAX);
            }
            return None;
        }
        i = i + 1;
    }
    None
}

pub open spec fn word_depth() -> Seq<u8> {
    seq![100u8, 101, 112, 116, 104]
}

pub open spec fn word_infinite() -> Seq<u8> {
    seq![105u8, 110, 102, 105, 110, 105, 116, 101]
}

pub open spec fn word_movetime() -> Seq<u8> {
    seq![109u8, 111, 118, 101, 116, 105, 109, 101]
}

pub open spec fn word_movestogo() -> Seq<u8> {
    seq![109u8, 111, 118, 101, 115, 116, 111, 103, 111]
}

/// `wtime` or `btime`.
pub open spec fn word_time(c: Color) -> Seq<u8> {
    if c == Color::White {
        seq![119u8, 116, 105, 109, 101]
    } else {
        seq![98u8, 116, 105, 109, 101]
    }
}

/// `winc` or `binc`.
pub open spec fn word_inc(c: Color) -> Seq<u8> {
    if c == Color::White {
        seq![119u8, 105, 110, 99]
    } else {
        seq![98u8, 105, 110, 99]
    }
}

/// The first `depth` token, from `i` on, followed by a number that reads as
/// a `u8`; that number.
pub open spec fn depth_request(toks: Seq<Seq<u8>>, i: int) -> Option<int>
    decreases toks.len() - i,
{
    if i < 0 || i >= toks.len() {
        None
    } else if toks[i] == word_depth() && i + 1 < toks.len() && unsigned_value(toks[i + 1], 255) is Some {
        unsigned_value(toks[i + 1], 255)
    } else {
        depth_request(toks, i + 1)
    }
}

pub open spec fn occurs_in(b: Seq<u8>, pat: Seq<u8>) -> bool {
    exists|k: int| 0 <= k && k + pat.len() <= b.len() && #[trigger] b.subrange(k, k + pat.len()) == pat
}

pub open spec fn or_default(v: Option<int>, d: int) -> int {
    match v {
        Some(x) => x,
        None => d,
    }
}

pub open spec fn at_least_50(x: int) -> int {
    if x > 50 { x } else { 50 }
}

/// Time for one move on the clock: a share of the clock over the moves to
/// go plus three quarters of the increment, at most a third of the clock,
/// less 50 ms of margin, and never under 50 ms.
pub open spec fn clock_budget(clock: int, inc: int, movestogo: int) -> int {
    let m = if movestogo < 1 { 1 } else { movestogo };
    let share = clock / m + inc * 3 / 4;
    let alloc = if share < clock / 3 { share } else { clock / 3 };
    at_least_50(alloc - 50)
}

/// (maximum depth, time in ms) for a `go` line: `depth N` (at most 12) with
/// 300 s; `infinite` with depth 12 and 300 s; `movetime MS` with depth 12
/// and MS less 50 ms, at least 50; otherwise the clock of the side to move.
pub open spec fn budget_spec(b: Seq<u8>, side: Color) -> (u8, u64) {
    let toks = tokens(b);
    match depth_request(toks, 0) {
        Some(d) => ((if d < 12 { d } else { 12 }) as u8, 300000),
        None => if occurs_in(b, word_infinite()) {
            (12, 300000)
        } else {
            match value_after(toks, word_movetime()) {
                Some(mt) => (12, at_least_50(mt - 50) as u64),
                None => (
                    12,
                    clock_budget(
                        or_default(value_after(toks, word_time(side)), 10000),
                        or_default(value_after(toks, word_inc(side)), 0),
                        or_default(value_after(toks, word_movestogo()), 25),
                    ) as u64,
                ),
            }
        },
    }
}

fn occurs_at(b: &[u8], pat: &[u8], k: usize) -> (r: bool)
    requires
        k + pat@.len() <= b@.len(),
    ensures
        r == (b@.subrange(k as int, k + pat@.len()) == pat@),
{
    let n = b.len();
    let mut j: usize = 0;
    while j < pat.len()
        invariant
            k + pat@.len() <= b@.len(),
            n == b@.len(),
            j <= pat@.len(),
            forall|q: int| 0 <= q < j ==> b@[k + q] == pat@[q],
        decreases pat@.len() - j,
    {
        if b[k + j] != pat[j] {
            assert(b@.subrange(k as int, k + pat@.len())[j as int] != pat@[j as int]);
            return false;
        }
        j = j + 1;
    }
    assert(b@.subrange(k as int, k + pat@.len()) =~= pat@);
    true
}

fn contains_bytes(b: &[u8], pat: &[u8]) -> (r: bool)
    ensures
        r == occurs_in(b@, pat@),
{
    if pat.len() > b.len() {
        return false;
    }
    if pat.len() == 0 {
        assert(b@.subrange(0, 0 + pat@.len() as int) =~= pat@);
        return true;
    }
    let n = b.len();
    let last = n - pat.len();
    let mut k: usize = 0;
    while k <= last
        invariant
            n == b@.len(),
            1 <= pat@.len() <= b@.len(),
            last == b@.len() - pat@.len(),
            k <= last + 1,
            forall|q: int| 0 <= q < k ==> #[trigger] b@.subrange(q, q + pat@.len()) != pat@,
        decreases last + 1 - k,
    {
        if occurs_at(b, pat, k) {
            return true;
        }
        k = k + 1;
    }
    false
}

proof fn lemma_depth_range(toks: Seq<Seq<u8>>, i: int)
    ensures
        depth_request(toks, i) matches Some(d) ==> 0 <= d <= 255,
    decreases toks.len() - i,
{
    if 0 <= i < toks.len() {
        if i + 1 < toks.len() {
            lemma_unsigned_range(toks[i + 1], 255);
        }
        lemma_depth_range(toks, i + 1);
    }
}

fn depth_requested(toks: &Vec<Vec<u8>>) -> (r: Option<u64>)
    ensures
        match depth_request(token_views(toks@), 0) {
            Some(d) => r == Some(d as u64),
            None => r is None,
        },
        depth_request(token_views(toks@), 0) matches Some(d) ==> 0 <= d <= 255,
{
    proof {
        lemma_depth_range(token_views(toks@), 0);
    }
    let ghost tv = token_views(toks@);
    let key: [u8; 5] = [100, 101, 112, 116, 104];
    assert(key@ =~= word_depth());
    let mut i: usize = 0;
    while i < toks.len()
        invariant
            tv == token_views(toks@),
            key@ == word_depth(),
            i <= toks@.len(),
            depth_request(tv, 0) == depth_request(tv, i as int),
        decreases toks@.len() - i,
    {
        if same_bytes(toks[i].as_slice(), key.as_slice()) && i + 1 < toks.len() {
            match parse_unsigned(toks[i + 1].as_slice(), 255) {
                Some(d) => {
                    return Some(d);
                },
                None => {},
            }
        }
        i = i + 1;
    }
    None
}

fn at_least_50_of(x: u64) -> (r: u64)
    ensures
        r == at_least_50(x - 50),
{
    if x >= 100 {
        x - 50
    } else {
        50
    }
}

/// The search budget of a `go` line.
pub fn pick_time(line: &str, board: &Board) -> (r: (u8, u64))
    ensures
        r == budget_spec(line.spec_bytes(), board.side),
{
    let bytes = line.as_bytes();
    let parts = split_tokens(bytes);
    match depth_requested(&parts) {
        Some(d) => {
            return (if d < 12 {
                d as u8
            } else {
                12
            }, 300000);
        },
        None => {},
    }
    let infinite: [u8; 8] = [105, 110, 102, 105, 110, 105, 116, 101];
    assert(infinite@ =~= word_infinite());
    if contains_bytes(bytes, infinite.as_slice()) {
        return (12, 300000);
    }
    let movetime: [u8; 8] = [109, 111, 118, 101, 116, 105, 109, 101];
    assert(movetime@ =~= word_movetime());
    match get_val(&parts, movetime.as_slice()) {
        Some(mt) => {
            return (12, at_least_50_of(mt));
        },
        None => {},
    }
    let time_key: [u8; 5] = if board.side == Color::White {
        [119, 116, 105, 109, 101]
    } else {
        [98, 116, 105, 109, 101]
    };
    assert(time_key@ =~= word_time(board.side));
    let inc_key: [u8; 4] = if board.side == Color::White {
        [119, 105, 110, 99]
    } else {
        [98, 105, 110, 99]
    };
    assert(inc_key@ =~= word_inc(board.side));
    let togo_key: [u8; 9] = [109, 111, 118, 101, 115, 116, 111, 103, 111];
    assert(togo_key@ =~= word_movestogo());
    let clock: u64 = match get_val(&parts, time_key.as_slice()) {
        Some(v) => v,
        None => 10000,
    };
    let inc: u64 = match get_val(&parts, inc_key.as_slice()) {
        Some(v) => v,
        None => 0,
    };
    let movestogo: u64 = match get_val(&parts, togo_key.as_slice()) {
        Some(v) => v,
        None => 25,
    };
    let m: u64 = if movestogo < 1 {
        1
    } else {
        movestogo
    };
    let share: u128 = (clock / m) as u128 + (inc as u128) * 3 / 4;
    let third: u64 = clock / 3;
    let alloc: u64 = if share < third as u128 {
        share as u64
    } else {
        third
    };
    (12, at_least_50_of(alloc))
}

pub open spec fn word_startpos() -> Seq<u8> {
    seq![115u8, 116, 97, 114, 116, 112, 111, 115]
}

pub open spec fn word_fen() -> Seq<u8> {
    seq![102u8, 101, 110]
}

pub open spec fn word_moves() -> Seq<u8> {
    seq![109u8, 111, 118, 101, 115]
}

/// Tokens `a..e` joined by single spaces.
pub open spec fn join_tokens(toks: Seq<Seq<u8>>, a: int, e: int) -> Seq<u8>
    decreases e - a,
{
    if e <= a {
        Seq::empty()
    } else if e == a + 1 {
        toks[a]
    } else {
        join_tokens(toks, a, e - 1) + seq![32u8] + toks[e - 1]
    }
}

/// The position before any move of a `position` line, and the index of the
/// token after it: `startpos`, or `fen` with the FEN fields up to `moves`.
pub open spec fn base_position(toks: Seq<Seq<u8>>) -> (BoardView, int) {
    if toks.len() > 1 && toks[1] == word_startpos() {
        (start_view(), 2)
    } else if toks.len() > 1 && toks[1] == word_fen() {
        let e = match first_index(toks, word_moves(), 2) {
            Some(j) => j,
            None => toks.len() as int,
        };
        let f = join_tokens(toks, 2, e);
        (if f.len() < 0x1000_0000 {
            fen_view(f)
        } else {
            start_view()
        }, e)
    } else {
        (start_view(), 1)
    }
}

/// The position after playing move tokens `a..e` in turn, skipping those
/// that name no legal move.
pub open spec fn replay(v: BoardView, toks: Seq<Seq<u8>>, a: int, e: int) -> BoardView
    decreases e - a,
{
    if e <= a {
        v
    } else {
        let w = replay(v, toks, a, e - 1);
        match after_uci(w, toks[e - 1]) {
            Some(x) => x,
            None => w,
        }
    }
}

/// The move tokens among `a..e` that named no legal move when reached.
pub open spec fn rejected(v: BoardView, toks: Seq<Seq<u8>>, a: int, e: int) -> Seq<Seq<u8>>
    decreases e - a,
{
    if e <= a {
        Seq::empty()
    } else {
        rejected(v, toks, a, e - 1) + if after_uci(replay(v, toks, a, e - 1), toks[e - 1]) is None {
            seq![toks[e - 1]]
        } else {
            Seq::empty()
        }
    }
}

/// The position a `position` line sets up, and the move tokens it skipped.
pub open spec fn position_spec(b: Seq<u8>) -> (BoardView, Seq<Seq<u8>>) {
    let toks = tokens(b);
    let (v0, i) = base_position(toks);
    if i < toks.len() && toks[i] == word_moves() {
        (replay(v0, toks, i + 1, toks.len() as int), rejected(v0, toks, i + 1, toks.len() as int))
    } else {
        (v0, Seq::empty())
    }
}

fn copy_bytes(v: &[u8]) -> (r: Vec<u8>)
    ensures
        r@ == v@,
{
    let mut out: Vec<u8> = Vec::new();
    let mut i: usize = 0;
    while i < v.len()
        invariant
            i <= v@.len(),
            out@ == v@.take(i as int),
        decreases v@.len() - i,
    {
        out.push(v[i]);
        proof {
            assert(out@ =~= v@.take(i + 1));
        }
        i = i + 1;
    }
    proof {
        assert(out@ =~= v@);
    }
    out
}

fn join_fen(toks: &Vec<Vec<u8>>, a: usize, e: usize) -> (r: Vec<u8>)
    requires
        a <= e <= toks@.len(),
    ensures
        r@ == join_tokens(token_views(toks@), a as int, e as int),
{
    let ghost tv = token_views(toks@);
    let mut out: Vec<u8> = Vec::new();
    let mut k: usize = a;
    while k < e
        invariant
            tv == token_views(toks@),
            a <= k <= e <= toks@.len(),
            out@ == join_tokens(tv, a as int, k as int),
        decreases e - k,
    {
        let ghost before = out@;
        if k > a {
            out.push(32);
        }
        let t = &toks[k];
        let mut j: usize = 0;
        let ghost mid = out@;
        while j < t.len()
            invariant
                j <= t@.len(),
                out@ == mid + t@.take(j as int),
            decreases t@.len() - j,
        {
            out.push(t[j]);
            proof {
                assert(t@.take(j + 1) =~= t@.take(j as int).push(t@[j as int]));
                assert(out@ =~= mid + t@.take(j + 1));
            }
            j = j + 1;
        }
        proof {
            assert(t@.take(j as int) =~= t@);
            assert(tv[k as int] == t@);
            if k > a {
                assert(out@ =~= before + seq![32u8] + tv[k as int]);
            } else {
                assert(out@ =~= tv[k as int]);
            }
        }
        k = k + 1;
    }
    out
}

fn first_moves_index(toks: &Vec<Vec<u8>>, from: usize) -> (r: usize)
    requires
        from <= toks@.len(),
    ensures
        from <= r <= toks@.len(),
        r == match first_index(token_views(toks@), word_moves(), from as int) {
            Some(j) => j,
            None => toks@.len() as int,
        },
{
    let ghost tv = token_views(toks@);
    let key: [u8; 5] = [109, 111, 118, 101, 115];
    assert(key@ =~= word_moves());
    let mut i: usize = from;
    while i < toks.len()
        invariant
            tv == token_views(toks@),
            key@ == word_moves(),
            from <= i <= toks@.len(),
            first_index(tv, word_moves(), from as int) == first_index(tv, word_moves(), i as int),
        decreases toks@.len() - i,
    {
        if same_bytes(toks[i].as_slice(), key.as_slice()) {
            return i;
        }
        i = i + 1;
    }
    i
}

/// The position a `position` line describes, and the move tokens it had to
/// skip because they named no legal move.
pub fn parse_position(line: &str) -> (r: (Board, Vec<Vec<u8>>))
    ensures
        r.0.wf(),
        r.0@ == position_spec(line.spec_bytes()).0,
        token_views(r.1@) == position_spec(line.spec_bytes()).1,
{
    let parts = split_tokens(line.as_bytes());
    let ghost toks = token_views(parts@);
    let startpos: [u8; 8] = [115, 116, 97, 114, 116, 112, 111, 115];
    assert(startpos@ =~= word_startpos());
    let fen: [u8; 3] = [102, 101, 110];
    assert(fen@ =~= word_fen());
    let moves: [u8; 5] = [109, 111, 118, 101, 115];
    assert(moves@ =~= word_moves());
    let mut board = Board::start_pos();
    let mut i: usize = 1;
    if parts.len() > 1 {
        if same_bytes(parts[1].as_slice(), startpos.as_slice()) {
            i = 2;
        } else if same_bytes(parts[1].as_slice(), fen.as_slice()) {
            let e = first_moves_index(&parts, 2);
            let text = join_fen(&parts, 2, e);
            if text.len() < 0x1000_0000 {
                board = Board::from_fen_bytes(text.as_slice());
            }
            i = e;
        }
    }
    let ghost v0 = board@;
    assert((v0, i as int) == base_position(toks));
    let mut skipped: Vec<Vec<u8>> = Vec::new();
    if i < parts.len() && same_bytes(parts[i].as_slice(), moves.as_slice()) {
        let first = i + 1;
        let mut k: usize = first;
        proof {
            assert(token_views(skipped@) =~= Seq::<Seq<u8>>::empty());
        }
        while k < parts.len()
            invariant
                toks == token_views(parts@),
                board.wf(),
                first <= k <= parts@.len(),
                board@ == replay(v0, toks, first as int, k as int),
                token_views(skipped@) == rejected(v0, toks, first as int, k as int),
            decreases parts@.len() - k,
        {
            let played = board.play_uci_bytes(parts[k].as_slice());
            if !played {
                let ghost before = skipped@;
                let t = copy_bytes(parts[k].as_slice());
                skipped.push(t);
                proof {
                    assert(token_views(skipped@) =~= token_views(before).push(parts@[k as int]@));
                }
            }
            k = k + 1;
        }
    }
    (board, skipped)
}

} // verus!
