use chess_core::board::{Board, Color, Move, Piece};
use chess_core::eval::evaluate;
use chess_core::movegen::generate_moves;
use chess_core::search::{SearchEngine, Zobrist, FLAG_EXACT, FLAG_LOWER, INF, MATE, TT};
use chess_core::uci::{get_val, parse_position, pick_time, split_tokens};

fn quiet(from: u8, to: u8) -> Move {
    Move { from, to, promotion: None, captured: None, is_ep: false, is_castle: false }
}

#[test]
fn back_rank_mate_in_one() {
    let mut engine = SearchEngine::new();
    let mut b = Board::from_fen("6k1/5ppp/8/8/8/8/6PP/4R1K1 w - - 0 1");
    let (mv, score) = engine.search(&mut b, 2, 300_000);
    assert_eq!(mv.to_uci(), "e1e8");
    assert!(score >= MATE - 10);
}

#[test]
fn mate_in_one_scenario_position() {
    let mut engine = SearchEngine::new();
    let mut b = Board::from_fen("6k1/6pp/8/8/8/8/6PP/4R1K1 w - - 0 1");
    let before = b.squares.clone();
    let (mv, score) = engine.search(&mut b, 2, 300_000);
    assert!(generate_moves(&b).contains(&mv));
    assert!(score < MATE - 10);
    assert_eq!(b.squares, before);
    assert_eq!(b.history.len(), 0);
}

#[test]
fn no_stalemate_with_queen_up() {
    for fen in ["7k/8/5K2/8/8/8/8/6Q1 w - - 0 1", "k7/8/2K5/8/8/8/8/1Q6 w - - 0 1"] {
        let mut engine = SearchEngine::new();
        let mut b = Board::from_fen(fen);
        let (mv, _) = engine.search(&mut b, 4, 300_000);
        b.make_move(mv);
        let replies = generate_moves(&b);
        assert!(!replies.is_empty() || b.in_check(), "{} stalemates", mv.to_uci());
    }
}

#[test]
fn repetition_scores_zero_below_root() {
    let mut engine = SearchEngine::new();
    let mut b = Board::from_fen("4k3/8/8/8/8/8/8/QQQQK3 b - - 0 1");
    engine.push_position(&b);
    engine.push_position(&b);
    let score = engine.pvs(&mut b, 3, -INF, INF, 1);
    assert_eq!(score, 0);
    assert_eq!(engine.rep_table.len(), 2);
    let mut fresh = SearchEngine::new();
    assert!(fresh.pvs(&mut b, 1, -INF, INF, 1) < -1000);
}

#[test]
fn fifty_move_rule_scores_zero_below_root() {
    let mut engine = SearchEngine::new();
    let mut b = Board::from_fen("4k3/8/8/8/8/8/8/QQQQK3 b - - 100 80");
    assert_eq!(b.halfmove, 100);
    assert_eq!(engine.pvs(&mut b, 3, -INF, INF, 1), 0);
    assert_eq!(engine.pvs(&mut b, 3, -INF, INF, 5), 0);
}

#[test]
fn search_respects_movetime() {
    let mut engine = SearchEngine::new();
    let mut b = Board::start_pos();
    let (depth, ms) = pick_time("go movetime 100", &b);
    assert_eq!((depth, ms), (12, 50));
    let started = std::time::Instant::now();
    let (mv, _) = engine.search(&mut b, depth, ms);
    let spent = started.elapsed().as_millis();
    assert!(spent < 250, "took {} ms", spent);
    assert!(!engine.infos.is_empty());
    assert_eq!(engine.infos[0].depth, 1);
    assert!(generate_moves(&b).contains(&mv));
}

#[test]
fn search_restores_board_and_reports_depths() {
    let mut engine = SearchEngine::new();
    let mut b = Board::from_fen("r3k2r/p1ppqpb1/bn2pnp1/3PN3/1p2P3/2N2Q1p/PPPBBPPP/R3K2R w KQkq -");
    let before = b.squares.clone();
    let (mv, score) = engine.search(&mut b, 2, 300_000);
    assert_eq!(b.squares, before);
    assert_eq!(b.side, Color::White);
    assert!(generate_moves(&b).contains(&mv));
    assert!(score.abs() <= INF);
    for (k, info) in engine.infos.iter().enumerate() {
        assert_eq!(info.depth as usize, k + 1);
    }
}

#[test]
fn search_without_moves_returns_null() {
    let mut engine = SearchEngine::new();
    let mut b = Board::from_fen("7k/5Q2/6K1/8/8/8/8/8 b - - 0 1");
    let (mv, score) = engine.search(&mut b, 3, 300_000);
    assert_eq!(mv, Move::null());
    assert_eq!(score, 0);
    let mut mated = Board::from_fen("4R1k1/5ppp/8/8/8/8/6PP/6K1 b - - 0 1");
    let (m2, s2) = SearchEngine::new().search(&mut mated, 2, 300_000);
    assert_eq!(m2.to_uci(), "0000");
    assert_eq!(s2, -MATE);
}

#[test]
fn evaluation_is_side_relative_and_symmetric() {
    assert_eq!(evaluate(&Board::start_pos()), 0);
    let w = Board::from_fen("4k3/8/8/8/8/8/8/3QK3 w - - 0 1");
    let b = Board::from_fen("4k3/8/8/8/8/8/8/3QK3 b - - 0 1");
    assert!(evaluate(&w) > 800);
    assert_eq!(evaluate(&b), -evaluate(&w));
    // Colours swapped and ranks mirrored: the same score for the mover.
    let p = Board::from_fen("r3k2r/p1ppqpb1/bn2pnp1/3PN3/1p2P3/2N2Q1p/PPPBBPPP/R3K2R w KQkq -");
    let q = Board::from_fen("r3k2r/pppbbppp/2n2q1P/1P2p3/3pn3/BN2PNP1/P1PPQPB1/R3K2R b KQkq -");
    assert_eq!(evaluate(&p), evaluate(&q));
    let q_white = Board::from_fen("r3k2r/pppbbppp/2n2q1P/1P2p3/3pn3/BN2PNP1/P1PPQPB1/R3K2R w KQkq -");
    assert_eq!(evaluate(&p), -evaluate(&q_white));
}

#[test]
fn evaluation_exact_values() {
    // Two bare kings: phase 0, endgame king tables only (e1: -10, e8: -10).
    assert_eq!(evaluate(&Board::from_fen("4k3/8/8/8/8/8/8/4K3 w - - 0 1")), 0);
    // A lone white pawn on e2 (table 10 in the endgame) with kings on e1/e8.
    assert_eq!(evaluate(&Board::from_fen("4k3/8/8/8/8/8/4P3/4K3 w - - 0 1")), 95);
}

#[test]
fn zobrist_is_deterministic_and_discriminating() {
    let z1 = Zobrist::new();
    let z2 = Zobrist::new();
    let start = Board::start_pos();
    assert_eq!(z1.hash(&start), z2.hash(&start));
    let mut s: u64 = 0x1234_5678_9abc_def0;
    s ^= s << 13;
    s ^= s >> 7;
    s ^= s << 17;
    assert_eq!(z1.side, s);
    let mut moved = Board::start_pos();
    moved.make_uci_move("e2e4");
    assert_ne!(z1.hash(&start), z1.hash(&moved));
    let mut black = Board::start_pos();
    black.side = Color::Black;
    assert_ne!(z1.hash(&start), z1.hash(&black));
    let mut no_castle = Board::start_pos();
    no_castle.castling = 0;
    assert_ne!(z1.hash(&start), z1.hash(&no_castle));
    moved.unmake_move();
    assert_eq!(z1.hash(&start), z1.hash(&moved));
}

#[test]
fn transposition_table_store_and_probe() {
    let mut tt = TT::new();
    assert_eq!(tt.data.len(), 1 << 20);
    assert!(tt.probe(42).is_none());
    tt.store(42, 3, 17, FLAG_EXACT, quiet(12, 28));
    let e = tt.probe(42).unwrap();
    assert_eq!((e.depth, e.score, e.flag), (3, 17, FLAG_EXACT));
    tt.store(42, 2, 99, FLAG_LOWER, quiet(6, 21));
    assert_eq!(tt.probe(42).unwrap().score, 17);
    tt.store(42, 3, 99, FLAG_LOWER, quiet(6, 21));
    assert_eq!(tt.probe(42).unwrap().score, 99);
    let other = 42 + (1u64 << 20);
    tt.store(other, 1, -5, FLAG_EXACT, quiet(1, 18));
    assert!(tt.probe(42).is_none());
    assert_eq!(tt.probe(other).unwrap().score, -5);
    tt.store(other, 1, 7, FLAG_EXACT, quiet(1, 18));
    assert_eq!(tt.probe(other).unwrap().score, 7);
    tt.store(other, 0, 8, FLAG_EXACT, quiet(1, 18));
    assert_eq!(tt.probe(other).unwrap().score, 7);
    tt.store(other, 4, 9, FLAG_EXACT, quiet(1, 18));
    tt.clear();
    assert!(tt.probe(other).is_none());
}

#[test]
fn depth_preferred_on_same_key() {
    let mut tt = TT::new();
    tt.store(7, 5, 1, FLAG_EXACT, quiet(1, 2));
    tt.store(7, 4, 2, FLAG_EXACT, quiet(1, 2));
    assert_eq!(tt.probe(7).unwrap().score, 1);
}

#[test]
fn engine_clear_resets_state() {
    let mut engine = SearchEngine::new();
    let mut b = Board::start_pos();
    engine.push_position(&b);
    engine.search(&mut b, 2, 300_000);
    assert!(engine.nodes > 0);
    engine.clear();
    assert_eq!(engine.nodes, 0);
    assert!(engine.rep_table.is_empty());
    assert!(engine.killer.iter().all(|k| k.is_none()));
    assert!(engine.history.iter().all(|h| *h == 0));
}

#[test]
fn go_budgets() {
    let b = Board::start_pos();
    assert_eq!(pick_time("go depth 5", &b), (5, 300_000));
    assert_eq!(pick_time("go depth 20", &b), (12, 300_000));
    assert_eq!(pick_time("go depth x depth 3", &b), (3, 300_000));
    assert_eq!(pick_time("go infinite", &b), (12, 300_000));
    assert_eq!(pick_time("go movetime 1000", &b), (12, 950));
    assert_eq!(pick_time("go movetime 20", &b), (12, 50));
    assert_eq!(pick_time("go wtime 60000 btime 30000 winc 1000 binc 0", &b), (12, 3100));
    assert_eq!(pick_time("go", &b), (12, 350));
    assert_eq!(pick_time("go wtime 900 movestogo 0", &b), (12, 250));
    let mut black = Board::start_pos();
    black.side = Color::Black;
    assert_eq!(pick_time("go wtime 60000 btime 30000 winc 1000 binc 0", &black), (12, 1150));
}

#[test]
fn tokens_and_values() {
    let parts = split_tokens(b"  go \t wtime 500  movestogo +7 ");
    assert_eq!(parts.len(), 5);
    assert_eq!(parts[1], b"wtime".to_vec());
    assert_eq!(get_val(&parts, b"wtime"), Some(500));
    assert_eq!(get_val(&parts, b"movestogo"), Some(7));
    assert_eq!(get_val(&parts, b"binc"), None);
    assert_eq!(get_val(&parts, b"go"), None);
}

#[test]
fn positions_from_commands() {
    let (b, skipped) = parse_position("position startpos moves e2e4 e7e5 e1e3 g1f3");
    assert_eq!(skipped, vec![b"e1e3".to_vec()]);
    assert_eq!(b.side, Color::Black);
    assert_eq!(b.history.len(), 3);
    assert_eq!(b.piece_at(21).unwrap().piece, Piece::Knight);
    let (f, none) = parse_position("position fen 4k3/8/8/8/8/8/4P3/4K3 w - - 0 1 moves e2e4");
    assert!(none.is_empty());
    assert_eq!(f.ep_square, Some(20));
    assert_eq!(f.piece_at(28).unwrap().piece, Piece::Pawn);
    let (g, _) = parse_position("position fen 4k3/8/8/8/8/8/8/4K3 b - -");
    assert_eq!(g.side, Color::Black);
    assert_eq!(g.piece_at(0), None);
    let (s, _) = parse_position("position");
    assert_eq!(s.castling, 15);
}

#[test]
fn resize_picks_largest_power_of_two() {
    let mut tt = TT::new();
    let entry = std::mem::size_of::<chess_core::search::TTEntry>();
    tt.resize(1);
    let mut expected = 1usize;
    while (2 * expected) * entry <= 1 << 20 {
        expected *= 2;
    }
    assert_eq!(tt.data.len(), expected);
    assert!(tt.data.len().is_power_of_two());
    assert_eq!(tt.mask, expected - 1);
    tt.resize(0);
    assert_eq!(tt.data.len(), 1);
    tt.store(3, 1, 5, FLAG_EXACT, quiet(0, 1));
    assert_eq!(tt.probe(3).unwrap().score, 5);
}

#[test]
fn pvs_scores_mate_and_stalemate() {
    let mut mated = Board::from_fen("4R1k1/5ppp/8/8/8/8/6PP/6K1 b - - 0 1");
    assert_eq!(SearchEngine::new().pvs(&mut mated, 2, -INF, INF, 3), -MATE + 3);
    let mut stale = Board::from_fen("7k/5Q2/6K1/8/8/8/8/8 b - - 0 1");
    assert_eq!(SearchEngine::new().pvs(&mut stale, 2, -INF, INF, 3), 0);
}

#[test]
fn pvs_result_lies_in_window() {
    let mut b = Board::start_pos();
    let mut engine = SearchEngine::new();
    let r = engine.pvs(&mut b, 2, -30, 30, 0);
    assert!(-30 <= r && r <= 30);
}

#[test]
fn stepwise_search_reports_each_iteration() {
    let mut engine = SearchEngine::new();
    let mut b = Board::start_pos();
    let mut root = engine.begin_search(&b, 300_000);
    assert_eq!(root.moves.len(), 20);
    assert!(engine.search_iteration(&mut b, &mut root, 1));
    assert_eq!(engine.infos.len(), 1);
    assert_eq!(engine.infos[0].depth, 1);
    assert_eq!(engine.infos[0].best, root.best);
    engine.search_iteration(&mut b, &mut root, 2);
    assert_eq!(engine.infos.len(), 2);
    let (mv, score) = SearchEngine::finish_search(&root);
    assert!(root.moves.contains(&mv));
    assert_eq!(score, root.score);
}

#[test]
fn stale_table_moves_are_not_played() {
    let mut engine = SearchEngine::new();
    let mut first = Board::start_pos();
    engine.search(&mut first, 3, 300_000);
    let mut other = Board::from_fen("4k3/8/8/8/8/8/4P3/4K3 w - - 0 1");
    let (mv, _) = engine.search(&mut other, 2, 300_000);
    assert!(generate_moves(&other).contains(&mv));
    let mut none = Board::from_fen("7k/5Q2/6K1/8/8/8/8/8 b - - 0 1");
    let (n, _) = engine.search(&mut none, 2, 300_000);
    assert_eq!(n, Move::null());
}

#[test]
fn push_position_changes_only_the_stack() {
    let mut engine = SearchEngine::new();
    let mut b = Board::start_pos();
    engine.search(&mut b, 1, 300_000);
    let nodes = engine.nodes;
    let killers = engine.killer.clone();
    engine.push_position(&b);
    assert_eq!(engine.nodes, nodes);
    assert_eq!(engine.killer, killers);
    assert_eq!(engine.rep_table.len(), 1);
    assert_eq!(engine.rep_table[0], engine.zob.hash(&b));
}
