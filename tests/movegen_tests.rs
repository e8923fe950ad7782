use chess_core::board::{Board, Color, ColoredPiece, Move, Piece};
use chess_core::movegen::{en_passant_sound, generate_captures, generate_moves};

const KIWIPETE: &str = "r3k2r/p1ppqpb1/bn2pnp1/3PN3/1p2P3/2N2Q1p/PPPBBPPP/R3K2R w KQkq -";
const EP_POSITION: &str = "rnbqkbnr/ppp1p1pp/8/3pPp2/8/8/PPPP1PPP/RNBQKBNR w KQkq f6 0 3";

fn perft(b: &mut Board, depth: u32) -> u64 {
    let moves = generate_moves(b);
    if depth == 1 {
        return moves.len() as u64;
    }
    let mut n = 0;
    for m in moves {
        b.make_move(m);
        n += perft(b, depth - 1);
        b.unmake_move();
    }
    n
}

fn snapshot(b: &Board) -> (Vec<Option<ColoredPiece>>, Color, u8, Option<u8>, u32, u64, usize, Vec<u64>) {
    (
        b.squares.clone(),
        b.side,
        b.castling,
        b.ep_square,
        b.halfmove,
        b.hash,
        b.history.len(),
        b.position_hashes.clone(),
    )
}

#[test]
fn perft_start_depth_1() {
    assert_eq!(perft(&mut Board::start_pos(), 1), 20);
}

#[test]
fn perft_start_depth_2() {
    assert_eq!(perft(&mut Board::start_pos(), 2), 400);
}

#[test]
fn perft_start_depth_3() {
    assert_eq!(perft(&mut Board::start_pos(), 3), 8902);
}

#[test]
fn perft_kiwipete_depth_1() {
    assert_eq!(perft(&mut Board::from_fen(KIWIPETE), 1), 48);
}

#[test]
fn perft_kiwipete_depth_2() {
    assert_eq!(perft(&mut Board::from_fen(KIWIPETE), 2), 2039);
}

#[test]
fn make_unmake_restores_every_field() {
    for fen in [KIWIPETE, EP_POSITION, "r3k2r/1P6/8/8/8/8/6p1/R3K2R b KQkq - 3 9"] {
        let mut b = Board::from_fen(fen);
        let before = snapshot(&b);
        for m in generate_moves(&b) {
            b.make_move(m);
            assert_eq!(b.history.len(), before.6 + 1);
            assert_eq!(b.position_hashes.len(), before.7.len() + 1);
            b.unmake_move();
            assert_eq!(snapshot(&b), before, "move {}", m.to_uci());
        }
    }
}

#[test]
fn generated_moves_leave_king_safe() {
    for fen in [KIWIPETE, EP_POSITION, "4k3/8/8/8/8/8/4r3/4K3 w - - 0 1"] {
        let b = Board::from_fen(fen);
        for m in generate_moves(&b) {
            let mut c = Board::from_fen(fen);
            c.make_move(m);
            let king = c.find_king(b.side).unwrap();
            assert!(!c.is_attacked(king, c.side), "move {}", m.to_uci());
        }
    }
    let pinned = Board::from_fen("4k3/8/8/8/8/8/4r3/4K3 w - - 0 1");
    let moves = generate_moves(&pinned);
    assert!(moves.iter().all(|m| m.to != 12 || m.captured == Some(Piece::Rook)));
    assert_eq!(moves.len(), 3);
}

#[test]
fn captured_field_matches_destination() {
    for fen in [KIWIPETE, EP_POSITION] {
        let b = Board::from_fen(fen);
        for m in generate_moves(&b) {
            if m.is_ep {
                assert_eq!(Some(m.to), b.ep_square);
                assert_eq!(m.captured, Some(Piece::Pawn));
                assert_eq!(b.piece_at(m.from).unwrap().piece, Piece::Pawn);
            } else {
                let dest = b.piece_at(m.to);
                assert_eq!(m.captured, dest.map(|p| p.piece));
                if let Some(p) = dest {
                    assert_ne!(p.color, b.side);
                }
            }
        }
    }
}

#[test]
fn captures_are_a_subset_of_moves() {
    for fen in [KIWIPETE, EP_POSITION, "4k3/8/8/8/8/8/8/4K3 w - - 0 1"] {
        let b = Board::from_fen(fen);
        let all = generate_moves(&b);
        let caps = generate_captures(&b);
        for c in &caps {
            assert!(all.contains(c));
            assert!(c.captured.is_some() || c.is_ep);
        }
        let expected = all.iter().filter(|m| m.captured.is_some() || m.is_ep).count();
        assert_eq!(caps.len(), expected);
    }
    assert_eq!(generate_captures(&Board::from_fen(KIWIPETE)).len(), 8);
}

#[test]
fn en_passant_legality() {
    let mut b = Board::from_fen(EP_POSITION);
    assert!(en_passant_sound(&b));
    let moves = generate_moves(&b);
    let ep: Vec<&Move> = moves.iter().filter(|m| m.to_uci() == "e5f6").collect();
    assert_eq!(ep.len(), 1);
    assert!(ep[0].is_ep);
    assert_eq!(ep[0].captured, Some(Piece::Pawn));
    b.make_move(*ep[0]);
    assert_eq!(b.piece_at(37), None);
    assert_eq!(b.piece_at(45), Some(ColoredPiece { piece: Piece::Pawn, color: Color::White }));
    b.unmake_move();
    assert_eq!(b.piece_at(37), Some(ColoredPiece { piece: Piece::Pawn, color: Color::Black }));
}

#[test]
fn castling_through_check() {
    let b = Board::from_fen("r3kr2/8/8/8/8/8/8/R3K2R w KQq - 0 1");
    let texts: Vec<String> = generate_moves(&b).iter().map(|m| m.to_uci()).collect();
    assert!(!texts.contains(&"e1g1".to_string()));
    assert!(texts.contains(&"e1c1".to_string()));
    let open = Board::from_fen("r3k2r/8/8/8/8/8/8/R3K2R w KQkq - 0 1");
    let castles: Vec<Move> = generate_moves(&open).into_iter().filter(|m| m.is_castle).collect();
    assert_eq!(castles.len(), 2);
}

#[test]
fn promotions_come_in_four() {
    let b = Board::from_fen("4k3/P7/8/8/8/8/8/4K3 w - - 0 1");
    let promos: Vec<Move> = generate_moves(&b).into_iter().filter(|m| m.promotion.is_some()).collect();
    assert_eq!(promos.len(), 4);
    assert_eq!(promos[0].promotion, Some(Piece::Queen));
    assert_eq!(promos[3].promotion, Some(Piece::Knight));
}

#[test]
fn unsound_en_passant_square_is_detected() {
    let b = Board::from_fen("4k3/8/8/8/8/8/8/4K3 w - e6 0 1");
    assert!(!en_passant_sound(&b));
    assert!(en_passant_sound(&Board::start_pos()));
}

#[test]
fn checkmate_and_stalemate_have_no_moves() {
    let mate = Board::from_fen("4R1k1/5ppp/8/8/8/8/6PP/6K1 b - - 0 1");
    assert!(generate_moves(&mate).is_empty());
    assert!(mate.in_check());
    let stale = Board::from_fen("7k/5Q2/6K1/8/8/8/8/8 b - - 0 1");
    assert!(generate_moves(&stale).is_empty());
    assert!(!stale.in_check());
}

#[test]
fn perft_start_depth_4() {
    assert_eq!(perft(&mut Board::start_pos(), 4), 197281);
}

#[test]
fn perft_kiwipete_depth_3() {
    assert_eq!(perft(&mut Board::from_fen(KIWIPETE), 3), 97862);
}

#[test]
fn unsound_en_passant_square_is_dropped() {
    let mut b = Board::from_fen("4k3/8/8/8/8/8/8/4K3 w - e6 0 1");
    chess_core::movegen::drop_unsound_en_passant(&mut b);
    assert_eq!(b.ep_square, None);
    let mut ok = Board::from_fen(EP_POSITION);
    chess_core::movegen::drop_unsound_en_passant(&mut ok);
    assert_eq!(ok.ep_square, Some(45));
}
