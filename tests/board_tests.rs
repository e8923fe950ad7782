use chess_core::board::{opposite, piece_value, sq_from_str, Board, Color, ColoredPiece, Move, Piece};

fn cp(piece: Piece, color: Color) -> Option<ColoredPiece> {
    Some(ColoredPiece { piece, color })
}

#[test]
fn start_position_layout() {
    let b = Board::start_pos();
    assert_eq!(b.piece_at(4), cp(Piece::King, Color::White));
    assert_eq!(b.piece_at(60), cp(Piece::King, Color::Black));
    assert_eq!(b.piece_at(0), cp(Piece::Rook, Color::White));
    assert_eq!(b.piece_at(59), cp(Piece::Queen, Color::Black));
    assert_eq!(b.piece_at(12), cp(Piece::Pawn, Color::White));
    assert_eq!(b.piece_at(28), None);
    assert_eq!(b.side, Color::White);
    assert_eq!(b.castling, 15);
    assert_eq!(b.ep_square, None);
    assert_eq!(b.halfmove, 0);
}

#[test]
fn fen_fields_are_read() {
    let b = Board::from_fen("rnbqkbnr/ppp1p1pp/8/3pPp2/8/8/PPPP1PPP/RNBQKBNR w Kq f6 7 3");
    assert_eq!(b.side, Color::White);
    assert_eq!(b.castling, 0b1001);
    assert_eq!(b.ep_square, Some(45));
    assert_eq!(b.halfmove, 7);
    assert_eq!(b.piece_at(36), cp(Piece::Pawn, Color::White));
    assert_eq!(b.piece_at(37), cp(Piece::Pawn, Color::Black));
    let black = Board::from_fen("8/8/8/8/8/8/8/K6k b - - 0 1");
    assert_eq!(black.side, Color::Black);
    assert_eq!(black.castling, 0);
    assert_eq!(black.piece_at(7), cp(Piece::King, Color::Black));
}

#[test]
fn fen_is_lenient() {
    let b = Board::from_fen("x7/8/8/8/8/8/8/K6k");
    assert_eq!(b.piece_at(56), None);
    assert_eq!(b.side, Color::White);
    assert_eq!(b.castling, 0);
    assert_eq!(b.halfmove, 0);
    let c = Board::from_fen("4k3/8/8/8/8/8/8/4K3 w - - abc 1");
    assert_eq!(c.halfmove, 0);
}

#[test]
fn square_names() {
    assert_eq!(sq_from_str("a1"), Some(0));
    assert_eq!(sq_from_str("e3"), Some(20));
    assert_eq!(sq_from_str("h8"), Some(63));
    assert_eq!(sq_from_str("i1"), None);
    assert_eq!(sq_from_str("a9"), None);
    assert_eq!(sq_from_str("e"), None);
}

#[test]
fn piece_values_and_colors() {
    assert_eq!(piece_value(Piece::Pawn), 100);
    assert_eq!(piece_value(Piece::Knight), 320);
    assert_eq!(piece_value(Piece::Bishop), 330);
    assert_eq!(piece_value(Piece::Rook), 500);
    assert_eq!(piece_value(Piece::Queen), 900);
    assert_eq!(piece_value(Piece::King), 20000);
    assert_eq!(opposite(Color::White), Color::Black);
    assert_eq!(opposite(Color::Black), Color::White);
}

#[test]
fn move_text() {
    assert_eq!(Move::null().to_uci(), "0000");
    let m = Move { from: 12, to: 28, promotion: None, captured: None, is_ep: false, is_castle: false };
    assert_eq!(m.to_uci(), "e2e4");
    let p = Move {
        from: 52,
        to: 60,
        promotion: Some(Piece::Queen),
        captured: None,
        is_ep: false,
        is_castle: false,
    };
    assert_eq!(p.to_uci(), "e7e8q");
    let n = Move {
        from: 9,
        to: 0,
        promotion: Some(Piece::Knight),
        captured: Some(Piece::Rook),
        is_ep: false,
        is_castle: false,
    };
    assert_eq!(n.to_uci(), "b2a1n");
}

#[test]
fn attacks_and_check() {
    let b = Board::from_fen("4k3/8/8/8/8/8/8/4R1K1 b - - 0 1");
    assert!(b.is_attacked(60, Color::White));
    assert!(b.in_check());
    assert_eq!(b.find_king(Color::Black), Some(60));
    assert_eq!(b.find_king(Color::White), Some(6));
    assert!(!b.is_attacked(61, Color::White));
    let blocked = Board::from_fen("4k3/8/8/4p3/8/8/8/4R1K1 b - - 0 1");
    assert!(!blocked.in_check());
    let pawn = Board::from_fen("4k3/8/8/8/8/8/3P4/4K3 w - - 0 1");
    assert!(pawn.is_attacked(20, Color::White));
    assert!(pawn.is_attacked(18, Color::White));
    assert!(!pawn.is_attacked(19, Color::White));
}

#[test]
fn material_and_counters() {
    let b = Board::from_fen("4k3/pppp4/8/8/8/8/8/4K2N b - - 120 1");
    assert!(!b.has_non_pawn_material());
    assert!(b.is_fifty_move_rule());
    let w = Board::from_fen("4k3/pppp4/8/8/8/8/8/4K2N w - - 99 1");
    assert!(w.has_non_pawn_material());
    assert!(!w.is_fifty_move_rule());
}

#[test]
fn repetition_counts_stack_entries() {
    let mut b = Board::start_pos();
    assert!(!b.is_repetition());
    assert!(b.make_uci_move("g1f3"));
    assert!(!b.is_repetition());
    assert!(b.make_uci_move("g8f6"));
    assert_eq!(b.position_hashes.len(), 2);
    assert!(b.is_repetition());
}

#[test]
fn uci_moves_apply_or_are_refused() {
    let mut b = Board::start_pos();
    assert!(b.make_uci_move("e2e4"));
    assert_eq!(b.piece_at(28), cp(Piece::Pawn, Color::White));
    assert_eq!(b.ep_square, Some(20));
    assert_eq!(b.side, Color::Black);
    assert!(!b.make_uci_move("e2e4"));
    assert!(!b.make_uci_move("zz"));
    assert_eq!(b.side, Color::Black);
    assert!(b.make_uci_move("e7e5"));
    assert_eq!(b.ep_square, Some(44));
}

#[test]
fn make_updates_state() {
    let mut b = Board::from_fen("r3k2r/8/8/8/8/8/8/R3K2R w KQkq - 5 1");
    assert!(b.make_uci_move("e1g1"));
    assert_eq!(b.piece_at(6), cp(Piece::King, Color::White));
    assert_eq!(b.piece_at(5), cp(Piece::Rook, Color::White));
    assert_eq!(b.piece_at(7), None);
    assert_eq!(b.castling, 0b1100);
    assert_eq!(b.halfmove, 6);
    assert!(b.make_uci_move("a8a1"));
    assert_eq!(b.castling, 0b0100);
    assert_eq!(b.halfmove, 0);
    b.unmake_move();
    b.unmake_move();
    assert_eq!(b.castling, 15);
    assert_eq!(b.halfmove, 5);
    assert_eq!(b.piece_at(4), cp(Piece::King, Color::White));
    assert_eq!(b.piece_at(7), cp(Piece::Rook, Color::White));
    b.unmake_move();
    assert_eq!(b.side, Color::White);
}

#[test]
fn promotion_and_unmake() {
    let mut b = Board::from_fen("1n2k3/P7/8/8/8/8/8/4K3 w - - 0 1");
    assert!(b.make_uci_move("a7b8q"));
    assert_eq!(b.piece_at(57), cp(Piece::Queen, Color::White));
    b.unmake_move();
    assert_eq!(b.piece_at(48), cp(Piece::Pawn, Color::White));
    assert_eq!(b.piece_at(57), cp(Piece::Knight, Color::Black));
}

#[test]
fn fen_non_ascii_character_skips_one_file() {
    let b = Board::from_fen("\u{e9}K6/8/8/8/8/8/8/7k w - - 0 1");
    assert_eq!(b.piece_at(57), cp(Piece::King, Color::White));
    assert_eq!(b.piece_at(56), None);
}
