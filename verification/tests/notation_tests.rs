use chess_core::display::{board, status};
use chess_core::game::GameHistory;
use chess_core::moves::{board_from_fen, destination, is_castling, is_checkmate, is_stalemate, legal_moves, to_uci};
use chess_core::notation::{format_move_san, parse_move, parse_san, parse_uci};
use chess_core::types::{Board, Move, Piece};

fn sq(name: &str) -> u8 {
    let b = name.as_bytes();
    (b[1] - b'1') * 8 + (b[0] - b'a')
}

fn mv(from: &str, to: &str, promotion: Option<Piece>) -> Move {
    Move { from: sq(from), to: sq(to), promotion }
}

fn fen(text: &str) -> Board {
    board_from_fen(text).unwrap()
}

#[test]
fn castling_is_spelt_for_uci_and_the_board() {
    let b = fen("r3k2r/8/8/8/8/8/8/R3K2R w KQkq - 0 1");
    let short = mv("e1", "h1", None);
    let long = mv("e1", "a1", None);
    assert!(is_castling(&b, short));
    assert_eq!(destination(&b, short), sq("g1"));
    assert_eq!(destination(&b, long), sq("c1"));
    assert_eq!(to_uci(&b, short), "e1g1");
    assert_eq!(to_uci(&b, long), "e1c1");
    let rook = mv("a1", "a8", None);
    assert!(!is_castling(&b, rook));
    assert_eq!(to_uci(&b, rook), "a1a8");
    assert_eq!(legal_moves(&b).len(), 26);
}

#[test]
fn mate_and_stalemate() {
    let mate = fen("rnb1kbnr/pppp1ppp/8/4p3/6Pq/5P2/PPPPP2P/RNBQKBNR w KQkq - 1 3");
    assert!(is_checkmate(&mate));
    assert!(!is_stalemate(&mate));
    let stale = fen("7k/5Q2/6K1/8/8/8/8/8 b - - 0 1");
    assert!(is_stalemate(&stale));
    assert!(!is_checkmate(&stale));
}

#[test]
fn test_format_move_san_pawn() {
    let b = Board::default();
    assert_eq!(format_move_san(&mv("e2", "e4", None), &b), "e4");
}

#[test]
fn test_format_move_san_capture() {
    let b = fen("rnbqkbnr/ppp1pppp/8/3p4/4P3/8/PPPP1PPP/RNBQKBNR w KQkq d6 0 2");
    assert_eq!(format_move_san(&mv("e4", "d5", None), &b), "exd5");
}

#[test]
fn test_format_move_san_piece_move() {
    let b = Board::default();
    assert_eq!(format_move_san(&mv("g1", "f3", None), &b), "Nf3");
}

#[test]
fn test_format_move_san_castling() {
    let b = fen("r3k2r/8/8/8/8/8/8/R3K2R w KQkq - 0 1");
    assert_eq!(format_move_san(&mv("e1", "h1", None), &b), "O-O");
}

#[test]
fn test_format_move_san_castling_with_check() {
    let b = fen("5k2/8/8/8/8/8/8/4K2R w K - 0 1");
    assert_eq!(format_move_san(&mv("e1", "h1", None), &b), "O-O+");
}

#[test]
fn test_format_move_san_check() {
    let b = fen("rnbqk2r/pppp1ppp/5n2/2b1p3/2B1P3/5N2/PPPP1PPP/RNBQK2R w KQkq - 4 4");
    assert_eq!(format_move_san(&mv("c4", "f7", None), &b), "Bxf7+");
}

#[test]
fn test_every_legal_move_has_its_own_san() {
    for text in [
        "rnbqkbnr/pppppppp/8/8/8/8/PPPPPPPP/RNBQKBNR w KQkq - 0 1",
        "r3k2r/pppq1ppp/2n2n2/3pp3/1b1PP3/2N2N2/PPPQ1PPP/R3KB1R w KQkq - 0 1",
        "r1bqkb1r/pppp1ppp/2n2n2/4p3/2B1P3/5N2/PPPP1PPP/RNBQK2R w KQkq - 4 4",
        "1n2k3/1P6/8/8/3Pp3/8/8/4K3 b - d3 0 1",
        "1n2k3/P7/8/8/8/8/8/4K3 w - - 0 1",
        "3rk3/8/8/8/8/8/8/R3K2R w KQ - 0 1",
        "8/8/8/8/8/2N1N3/8/2N1K1k1 w - - 0 1",
        "3q4/8/8/8/8/8/8/Q2QK1kq w - - 0 1",
    ] {
        let b = fen(text);
        for m in legal_moves(&b) {
            let san = format_move_san(&m, &b);
            assert_eq!(parse_san(&b, &san), Some(m), "{text} {san}");
        }
    }
}

#[test]
fn test_parse_san_accepts_common_spellings() {
    let b = fen("r3k2r/8/8/8/8/8/8/R3K2R w KQkq - 0 1");
    let castle = mv("e1", "h1", None);
    assert_eq!(parse_san(&b, "O-O"), Some(castle));
    assert_eq!(parse_san(&b, "0-0"), Some(castle));
    assert_eq!(parse_san(&b, "O-O+"), Some(castle));
    let b = fen("1n2k3/P7/8/8/8/8/8/4K3 w - - 0 1");
    let promote = mv("a7", "b8", Some(Piece::Knight));
    assert_eq!(parse_san(&b, "axb8=N"), Some(promote));
    assert_eq!(parse_san(&b, "axb8N"), Some(promote));
    assert_eq!(parse_san(&b, "Nf3"), None);
}

#[test]
fn test_parse_uci_matches_only_legal_moves() {
    let b = Board::default();
    let e4 = mv("e2", "e4", None);
    assert_eq!(parse_uci(&b, "e2e4"), Some(e4));
    assert_eq!(parse_uci(&b, "E2E4"), Some(e4));
    for bad in ["e2e5", "e2", "xyz", "1234", "e2e9", "e2e4e5", "\u{e9}2e4"] {
        assert_eq!(parse_uci(&b, bad), None, "{bad:?}");
    }
    let b = fen("4k3/P7/8/8/8/8/8/4K3 w - - 0 1");
    assert_eq!(parse_uci(&b, "a7a8"), None, "a promotion needs its piece");
    assert_eq!(parse_uci(&b, "a7a8n"), Some(mv("a7", "a8", Some(Piece::Knight))));
    assert_eq!(parse_uci(&b, "a7a8k"), None);
}

#[test]
fn parse_move_takes_either_notation() {
    let b = Board::default();
    assert_eq!(parse_move(&b, "g1f3"), Some(mv("g1", "f3", None)));
    assert_eq!(parse_move(&b, "Nf3"), Some(mv("g1", "f3", None)));
    assert_eq!(parse_move(&b, "Nf4"), None);
}

#[test]
fn board_prints_letters_and_status_names_the_end() {
    let text = board(&Board::default());
    assert!(text.contains(" r  n  b  q  k  b  n  r "), "{text}");
    assert!(text.ends_with("   a  b  c  d  e  f  g  h\n"));
    let mut history = GameHistory::new();
    assert_eq!(status(&history), "White to move");
    history = GameHistory::from_pgn("1. f3 e5 2. g4 Qh4#").unwrap();
    assert_eq!(status(&history), "Checkmate! Black wins!");
    history = GameHistory::from_fen("7k/5Q2/6K1/8/8/8/8/8 b - - 0 1").unwrap();
    assert_eq!(status(&history), "Draw by stalemate.");
}

#[test]
fn the_board_text_marks_light_and_dark_squares() {
    let text = board(&fen("4k3/8/8/8/8/8/8/4K3 w - - 0 1"));
    let lines: Vec<&str> = text.lines().collect();
    assert_eq!(lines[1], "8  \u{b7}  .  \u{b7}  .  k  .  \u{b7}  . ");
    assert_eq!(lines[8], "1  .  \u{b7}  .  \u{b7}  K  \u{b7}  .  \u{b7} ");
}

#[test]
fn status_names_a_check() {
    let history = GameHistory::from_fen("4k3/8/8/8/8/8/8/4K2R b - - 0 1").unwrap();
    assert_eq!(status(&history), "Black to move");
    let history = GameHistory::from_fen("4k2R/8/8/8/8/8/8/4K3 b - - 0 1").unwrap();
    assert_eq!(status(&history), "Black is in check!");
}
