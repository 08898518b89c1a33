use chess_core::game::{DrawReason, GameHistory};
use chess_core::pgn::PgnError;
use chess_core::moves::board_from_fen;
use chess_core::types::{Board, Move, Piece};

fn sq(name: &str) -> u8 {
    let b = name.as_bytes();
    (b[1] - b'1') * 8 + (b[0] - b'a')
}

fn create_move(from: &str, to: &str) -> Move {
    Move { from: sq(from), to: sq(to), promotion: None }
}

#[test]
fn test_new_game_history() {
    let history = GameHistory::new();
    assert_eq!(history.move_count(), 0, "New game should have 0 moves");
    assert!(!history.can_undo(), "Cannot undo with no moves");
    assert!(!history.can_redo(), "Cannot redo with no moves");
    assert_eq!(history.current_board(), &Board::default(), "Should start at initial position");
}

#[test]
fn test_make_single_move() {
    let mut history = GameHistory::new();
    history.make_move(create_move("e2", "e4"));
    assert_eq!(history.move_count(), 1, "Should have 1 move");
    assert!(history.can_undo(), "Should be able to undo");
    assert!(!history.can_redo(), "Should not be able to redo");
}

#[test]
fn test_undo_single_move() {
    let mut history = GameHistory::new();
    let initial_board = history.current_board().copy();
    history.make_move(create_move("e2", "e4"));
    let result = history.undo();
    assert!(result, "Undo should succeed");
    assert_eq!(history.move_count(), 0, "Move count should be 0");
    assert!(!history.can_undo(), "Cannot undo further");
    assert!(history.can_redo(), "Should be able to redo");
    assert_eq!(history.current_board(), &initial_board, "Should return to initial position");
}

#[test]
fn test_redo_single_move() {
    let mut history = GameHistory::new();
    history.make_move(create_move("e2", "e4"));
    let board_after_move = history.current_board().copy();
    history.undo();
    let result = history.redo();
    assert!(result, "Redo should succeed");
    assert_eq!(history.move_count(), 1, "Move count should be 1");
    assert!(history.can_undo(), "Should be able to undo");
    assert!(!history.can_redo(), "Cannot redo further");
    assert_eq!(history.current_board(), &board_after_move, "Should return to position after move");
}

#[test]
fn test_undo_at_start_fails() {
    let mut history = GameHistory::new();
    let result = history.undo();
    assert!(!result, "Undo should fail at start");
    assert_eq!(history.move_count(), 0, "Move count unchanged");
}

#[test]
fn test_redo_with_no_future_fails() {
    let mut history = GameHistory::new();
    history.make_move(create_move("e2", "e4"));
    let result = history.redo();
    assert!(!result, "Redo should fail with no future history");
    assert_eq!(history.move_count(), 1, "Move count unchanged");
}

#[test]
fn test_multiple_moves() {
    let mut history = GameHistory::new();
    history.make_move(create_move("e2", "e4"));
    history.make_move(create_move("e7", "e5"));
    assert_eq!(history.move_count(), 2, "Should have 2 moves");
    assert!(history.can_undo(), "Should be able to undo");
    assert!(!history.can_redo(), "No future to redo");
}

#[test]
fn test_multiple_undos() {
    let mut history = GameHistory::new();
    let initial_board = history.current_board().copy();
    history.make_move(create_move("e2", "e4"));
    history.make_move(create_move("e7", "e5"));
    history.make_move(create_move("g1", "f3"));
    assert_eq!(history.move_count(), 3, "Should have 3 moves");
    assert!(history.undo(), "First undo should succeed");
    assert_eq!(history.move_count(), 2, "Should have 2 moves");
    assert!(history.undo(), "Second undo should succeed");
    assert_eq!(history.move_count(), 1, "Should have 1 move");
    assert!(history.undo(), "Third undo should succeed");
    assert_eq!(history.move_count(), 0, "Should have 0 moves");
    assert!(!history.undo(), "Fourth undo should fail");
    assert_eq!(history.current_board(), &initial_board, "Should be back at start");
}

#[test]
fn test_multiple_redos() {
    let mut history = GameHistory::new();
    history.make_move(create_move("e2", "e4"));
    history.make_move(create_move("e7", "e5"));
    history.make_move(create_move("g1", "f3"));
    let final_board = history.current_board().copy();
    history.undo();
    history.undo();
    history.undo();
    assert!(history.redo(), "First redo should succeed");
    assert_eq!(history.move_count(), 1, "Should have 1 move");
    assert!(history.redo(), "Second redo should succeed");
    assert_eq!(history.move_count(), 2, "Should have 2 moves");
    assert!(history.redo(), "Third redo should succeed");
    assert_eq!(history.move_count(), 3, "Should have 3 moves");
    assert!(!history.redo(), "Fourth redo should fail");
    assert_eq!(history.current_board(), &final_board, "Should be back at final position");
}

// The same scenario as `test_new_move_clears_redo_history`, whose new move
// was White's d2d4 with Black to move: the history refuses a move that is
// not legal, so this game answers 1. e4 with the legal 1... d5 instead.
#[test]
fn a_new_legal_move_clears_redo_history() {
    let mut history = GameHistory::new();
    history.make_move(create_move("e2", "e4"));
    history.make_move(create_move("e7", "e5"));
    history.undo();
    assert_eq!(history.move_count(), 1, "Should have 1 move");
    assert!(history.can_redo(), "Should be able to redo");
    history.make_move(create_move("d7", "d5"));
    assert_eq!(history.move_count(), 2, "Should have 2 moves");
    assert!(history.can_undo(), "Should be able to undo");
    assert!(!history.can_redo(), "Redo should be cleared");
    assert!(!history.redo(), "Redo should fail - history was cleared");
    assert_eq!(history.san(1), Some("d5"));
}

#[test]
fn test_branching_preserves_earlier_history() {
    let mut history = GameHistory::new();
    history.make_move(create_move("e2", "e4"));
    let board_after_e4 = history.current_board().copy();
    history.make_move(create_move("e7", "e5"));
    history.make_move(create_move("g1", "f3"));
    history.undo();
    history.undo();
    assert_eq!(history.move_count(), 1, "Should be at 1 move");
    assert_eq!(history.current_board(), &board_after_e4, "Should be after e4");
    history.make_move(create_move("c7", "c5"));
    assert_eq!(history.move_count(), 2, "Should have 2 moves");
    history.undo();
    assert_eq!(history.current_board(), &board_after_e4, "Should be back after e4");
    history.undo();
    assert_eq!(history.move_count(), 0, "Should be at start");
}

#[test]
fn test_threefold_repetition_needs_three_visits() {
    let mut history = GameHistory::new();
    let shuffle = [("g1", "f3"), ("g8", "f6"), ("f3", "g1"), ("f6", "g8")];
    for (from, to) in shuffle {
        history.make_move(create_move(from, to));
    }
    assert_eq!(history.draw_reason(), None, "second visit is not a draw");
    for (from, to) in shuffle {
        history.make_move(create_move(from, to));
    }
    assert_eq!(history.draw_reason(), Some(DrawReason::ThreefoldRepetition));
    assert!(history.is_over());
}

#[test]
fn test_fifty_move_rule_counts_from_the_fen_clock() {
    let mut history = GameHistory::from_fen("8/8/8/8/8/4k3/8/R3K3 w - - 99 60").unwrap();
    assert_eq!(history.halfmove_clock(), 99);
    assert_eq!(history.draw_reason(), None);
    history.make_move(create_move("a1", "a2"));
    assert_eq!(history.halfmove_clock(), 100);
    assert_eq!(history.draw_reason(), Some(DrawReason::FiftyMoveRule));
    history.undo();
    history.make_move(create_move("a1", "a3"));
    history.make_move(create_move("e3", "e4"));
    history.make_move(create_move("a3", "e3"));
    history.make_move(create_move("e4", "e3"));
    assert_eq!(history.halfmove_clock(), 0);
    assert_eq!(history.draw_reason(), Some(DrawReason::InsufficientMaterial));
}

#[test]
fn test_draw_reasons_from_fen() {
    for (fen, expected) in [
        ("8/8/8/8/8/8/8/K1k5 w - - 0 1", Some(DrawReason::InsufficientMaterial)),
        ("8/8/8/8/8/8/8/KB1k4 w - - 0 1", Some(DrawReason::InsufficientMaterial)),
        ("8/8/8/8/8/8/8/KN1k4 w - - 0 1", Some(DrawReason::InsufficientMaterial)),
        ("8/8/8/8/8/8/8/KB1B1k2 w - - 0 1", Some(DrawReason::InsufficientMaterial)),
        ("8/8/8/8/8/8/8/KB2B1k1 w - - 0 1", None),
        ("8/8/8/8/8/8/8/KR1k4 b - - 0 1", None),
        ("8/8/8/8/8/8/8/KN1kn3 w - - 0 1", None),
        ("k7/2Q5/1K6/8/8/8/8/8 b - - 0 1", Some(DrawReason::Stalemate)),
        ("k7/1Q6/1K6/8/8/8/8/8 b - - 0 1", None),
    ] {
        let history = GameHistory::from_fen(fen).unwrap();
        assert_eq!(history.draw_reason(), expected, "{fen}");
    }
}

#[test]
fn test_pgn_movetext_and_result() {
    let mut history = GameHistory::new();
    for (from, to) in [("f2", "f3"), ("e7", "e5"), ("g2", "g4"), ("d8", "h4")] {
        history.make_move(create_move(from, to));
    }
    let pgn = history.pgn("Human", "Stockfish");
    assert!(pgn.starts_with("[Event \"?\"]\n"), "{pgn}");
    assert!(pgn.contains("[White \"Human\"]\n[Black \"Stockfish\"]\n[Result \"0-1\"]\n\n"));
    assert!(pgn.ends_with("1. f3 e5 2. g4 Qh4# 0-1"), "{pgn}");
    assert!(!pgn.contains("[FEN"));
    history.undo();
    assert!(history.pgn("?", "?").ends_with("1. f3 e5 2. g4 *"));
}

#[test]
fn test_pgn_round_trip_and_import_noise() {
    let text = "[Event \"?\"]\n[Result \"*\"]\n\n1. e4 {best by test} e5 2. Nf3 $1 (2. f4 exf4) \
                2... Nc6 3.Bb5 a6!? ; a comment to the end of the line\n4. Ba4 *";
    let history = GameHistory::from_pgn(text).unwrap();
    assert_eq!(history.move_count(), 7);
    assert_eq!(history.san(6), Some("Ba4"));
    let again = GameHistory::from_pgn(&history.pgn("?", "?")).unwrap();
    assert_eq!(again.current_board(), history.current_board());
    assert_eq!(
        GameHistory::from_pgn("1. e4 e5 2. Ke2 Nf6 3. Kd3 Qh4").err(),
        Some(PgnError::BadMove { ply: 6, san: "Qh4".into() })
    );
    assert_eq!(GameHistory::from_pgn("[FEN \"junk\"]\n\n1. e4").err(), Some(PgnError::InvalidFen));
}

#[test]
fn test_pgn_from_a_black_to_move_fen() {
    let fen = "rnbqkbnr/pppppppp/8/8/4P3/8/PPPP1PPP/RNBQKBNR b KQkq - 0 1";
    let mut history = GameHistory::from_fen(fen).unwrap();
    history.make_move(create_move("e7", "e5"));
    history.make_move(create_move("g1", "f3"));
    let pgn = history.pgn("?", "?");
    assert!(pgn.contains("[SetUp \"1\"]\n[FEN \""), "{pgn}");
    assert!(pgn.ends_with("1... e5 2. Nf3 *"), "{pgn}");
}

#[test]
fn test_san_follows_undo_and_replacement() {
    let mut history = GameHistory::new();
    history.make_move(create_move("e2", "e4"));
    history.make_move(create_move("e7", "e5"));
    history.make_move(create_move("g1", "f3"));
    assert_eq!(history.san(2), Some("Nf3"));
    history.undo();
    assert_eq!(history.san(2), Some("Nf3"), "undone moves keep their SAN");
    history.make_move(create_move("d2", "d4"));
    assert_eq!(history.san(2), Some("d4"));
    assert_eq!(history.san(3), None);
}

#[test]
fn test_get_move_by_index() {
    let mut history = GameHistory::new();
    let e2e4 = create_move("e2", "e4");
    let e7e5 = create_move("e7", "e5");
    history.make_move(e2e4);
    history.make_move(e7e5);
    assert_eq!(history.get_move(0), Some(&e2e4), "First move should be e2e4");
    assert_eq!(history.get_move(1), Some(&e7e5), "Second move should be e7e5");
    assert_eq!(history.get_move(2), None, "Index 2 should be out of bounds");
}

#[test]
fn test_get_move_after_undo() {
    let mut history = GameHistory::new();
    let e2e4 = create_move("e2", "e4");
    let e7e5 = create_move("e7", "e5");
    history.make_move(e2e4);
    history.make_move(e7e5);
    history.undo();
    assert_eq!(history.move_count(), 1, "Should have 1 move");
    assert_eq!(history.get_move(0), Some(&e2e4), "First move still accessible");
    assert_eq!(history.get_move(1), Some(&e7e5), "Second move not accessible after undo (FIXED)");
}

#[test]
fn test_get_move_empty_history() {
    let history = GameHistory::new();
    assert_eq!(history.get_move(0), None, "No moves in empty history");
}

#[test]
fn test_board_state_consistency_after_undo_redo() {
    let mut history = GameHistory::new();
    history.make_move(create_move("e2", "e4"));
    let board_after_e4 = history.current_board().copy();
    for _ in 0..5 {
        history.undo();
        history.redo();
    }
    assert_eq!(history.current_board(), &board_after_e4, "Board should be consistent after multiple undo/redo cycles");
}

#[test]
fn test_move_count_consistency() {
    let mut history = GameHistory::new();
    let moves = [("e2", "e4"), ("e7", "e5"), ("g1", "f3"), ("b8", "c6"), ("f1", "c4")];
    for (i, (from, to)) in moves.iter().enumerate() {
        history.make_move(create_move(from, to));
        assert_eq!(history.move_count(), i + 1, "Move count should increment");
    }
    for i in (0..moves.len()).rev() {
        history.undo();
        assert_eq!(history.move_count(), i, "Move count should decrement");
    }
}

#[test]
fn test_can_undo_can_redo_consistency() {
    let mut history = GameHistory::new();
    assert!(!history.can_undo() && !history.can_redo());
    history.make_move(create_move("e2", "e4"));
    assert!(history.can_undo() && !history.can_redo());
    history.undo();
    assert!(!history.can_undo() && history.can_redo());
    history.redo();
    assert!(history.can_undo() && !history.can_redo());
}

#[test]
fn test_complex_undo_redo_sequence() {
    let mut history = GameHistory::new();
    history.make_move(create_move("e2", "e4"));
    history.make_move(create_move("e7", "e5"));
    history.make_move(create_move("g1", "f3"));
    history.make_move(create_move("b8", "c6"));
    assert_eq!(history.move_count(), 4);
    history.undo();
    history.undo();
    assert_eq!(history.move_count(), 2);
    history.redo();
    assert_eq!(history.move_count(), 3);
    history.make_move(create_move("f8", "c5"));
    assert_eq!(history.move_count(), 4);
    assert!(!history.can_redo(), "Redo should be cleared");
    history.undo();
    history.undo();
    history.undo();
    history.undo();
    assert_eq!(history.move_count(), 0);
    assert_eq!(history.current_board(), &Board::default());
}

#[test]
fn test_undo_redo_with_promotions() {
    let fen = "k7/4P3/8/8/8/8/8/K7 w - - 0 1";
    let mut history = GameHistory::from_fen(fen).expect("Valid fen");
    let promotion = Move { from: sq("e7"), to: sq("e8"), promotion: Some(Piece::Queen) };
    history.make_move(promotion);
    assert_eq!(history.move_count(), 1);
    if let Some(stored_move) = history.get_move(0) {
        assert_eq!(stored_move.promotion, Some(Piece::Queen));
    } else {
        panic!("Move should be retrievable");
    }
    history.undo();
    assert_eq!(history.move_count(), 0);
    history.redo();
    assert_eq!(history.move_count(), 1);
    if let Some(stored_move) = history.get_move(0) {
        assert_eq!(stored_move.promotion, Some(Piece::Queen));
    }
}

#[test]
fn test_alternating_undo_redo() {
    let mut history = GameHistory::new();
    history.make_move(create_move("e2", "e4"));
    for _ in 0..10 {
        assert!(history.undo());
        assert!(history.redo());
    }
    assert_eq!(history.move_count(), 1);
    assert!(history.can_undo());
    assert!(!history.can_redo());
}

#[test]
fn test_max_reasonable_history() {
    let mut history = GameHistory::new();
    let moves = vec![
        ("e2", "e4"), ("e7", "e5"), ("g1", "f3"), ("b8", "c6"), ("f1", "c4"),
        ("f8", "c5"), ("d2", "d3"), ("g8", "f6"), ("b1", "c3"), ("d7", "d6"),
    ];
    for (from, to) in &moves {
        history.make_move(create_move(from, to));
    }
    assert_eq!(history.move_count(), 10, "Should have 10 moves");
    for i in (0..10).rev() {
        assert!(history.undo(), "Undo {} should succeed", i);
        assert_eq!(history.move_count(), i, "Move count should be {}", i);
    }
    assert_eq!(history.move_count(), 0);
    assert_eq!(history.current_board(), &Board::default());
    for i in 0..10 {
        assert!(history.redo(), "Redo {} should succeed", i);
        assert_eq!(history.move_count(), i + 1, "Move count should be {}", i + 1);
    }
    assert_eq!(history.move_count(), 10);
}

#[test]
fn test_current_moves_respects_undo() {
    let mut history = GameHistory::new();
    history.make_move(create_move("e2", "e4"));
    history.make_move(create_move("e7", "e5"));
    history.make_move(create_move("g1", "f3"));
    assert_eq!(history.current_moves().len(), 3);
    history.undo();
    assert_eq!(history.current_moves().len(), 2, "Should only show 2 moves after undo");
    history.undo();
    assert_eq!(history.current_moves().len(), 1, "Should only show 1 move");
    history.redo();
    assert_eq!(history.current_moves().len(), 2, "Should show 2 moves after redo");
}

#[test]
fn a_move_off_the_board_or_illegal_changes_nothing() {
    let mut history = GameHistory::new();
    history.make_move(Move { from: 64, to: 0, promotion: None });
    history.make_move(create_move("e2", "e5"));
    assert_eq!(history.move_count(), 0);
    assert_eq!(history.current_board(), &Board::default());
}

#[test]
fn undo_then_redo_comes_back_and_browsing_keeps_the_record() {
    let mut history = GameHistory::new();
    history.make_move(create_move("d2", "d4"));
    history.make_move(create_move("d7", "d5"));
    let at_two = history.current_board().copy();
    let total = history.total_moves();
    history.undo();
    history.undo();
    assert_eq!(history.total_moves(), total);
    history.redo();
    history.redo();
    assert_eq!(history.current_board(), &at_two);
}

#[test]
fn a_pgn_with_a_fen_tag_starts_there() {
    let text = "[SetUp \"1\"]\n[FEN \"k7/4P3/8/8/8/8/8/K7 w - - 0 1\"]\n\n1. e8=Q+ *\n";
    let history = GameHistory::from_pgn(text).unwrap();
    assert_eq!(history.move_count(), 1);
    assert_eq!(history.san(0), Some("e8=Q+"));
    assert_eq!(GameHistory::from_pgn("1. e5").err(), Some(PgnError::BadMove { ply: 1, san: "e5".into() }));
}

#[test]
fn a_game_set_up_from_a_fen_reads_back_from_its_pgn() {
    let fen = "r3k2r/pppq1ppp/2n2n2/3pp3/1b1PP3/2N2N2/PPPQ1PPP/R3KB1R b KQkq - 3 7";
    let mut history = GameHistory::from_fen(fen).unwrap();
    for (from, to) in [("e8", "h8"), ("e1", "a1"), ("d5", "e4")] {
        history.make_move(create_move(from, to));
    }
    assert_eq!(history.move_count(), 3);
    history.undo();
    let again = GameHistory::from_pgn(&history.pgn("A", "B")).unwrap();
    assert_eq!(again.current_board(), history.current_board());
    assert_eq!(again.start_board(), history.start_board());
    assert_eq!(again.move_count(), history.move_count());
    assert_eq!(again.san(0), history.san(0));
}

#[test]
fn a_castling_right_on_a_rook_off_the_corner_files_is_refused() {
    let shredder = "4k3/8/8/8/8/8/P7/4K1R1 w G - 0 1";
    assert!(GameHistory::from_fen(shredder).is_err());
    assert!(board_from_fen(shredder).is_none());
    let mut history = GameHistory::from_fen("4k3/8/8/8/8/8/P7/4K2R w K - 0 1").unwrap();
    history.make_move(create_move("a2", "a3"));
    assert_eq!(history.move_count(), 1);
    assert_eq!(history.san(0), Some("a3"));
}

#[test]
fn the_initial_setup_with_other_clocks_gets_no_fen_tag() {
    let mut history =
        GameHistory::from_fen("rnbqkbnr/pppppppp/8/8/8/8/PPPPPPPP/RNBQKBNR w KQkq - 5 9").unwrap();
    history.make_move(create_move("e2", "e4"));
    let pgn = history.pgn("A", "B");
    assert!(!pgn.contains("[FEN"), "{pgn}");
    assert!(pgn.contains("\n\n1. e4 *"), "{pgn}");
    let again = GameHistory::from_pgn(&pgn).unwrap();
    assert_eq!(again.start_board(), &Board::default());
    assert_eq!(again.san(0), Some("e4"));
}

#[test]
fn no_move_undo_or_redo_changes_the_start() {
    let fen = "4k3/8/8/8/8/8/P7/4K2R w K - 2 30";
    let mut history = GameHistory::from_fen(fen).unwrap();
    let start = board_from_fen(fen).unwrap();
    history.make_move(create_move("h1", "h8"));
    history.make_move(create_move("e8", "d7"));
    assert_eq!(history.start_board(), &start);
    history.undo();
    history.undo();
    assert_eq!(history.start_board(), &start);
    history.redo();
    history.make_move(create_move("e8", "d7"));
    assert_eq!(history.move_count(), 2);
    assert_eq!(history.start_board(), &start);
    let again = GameHistory::from_pgn(&history.pgn("A", "B")).unwrap();
    assert_eq!(again.start_board(), &start);
    assert_eq!(again.current_board(), history.current_board());
}
