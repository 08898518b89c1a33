// Perft (performance test): counting the leaves of the move tree to a given
// depth checks move generation against known counts.
// Standard test positions from https://www.chessprogramming.org/Perft_Results

use chess_core::moves::{after, board_from_fen, legal_moves};
use chess_core::notation::format_move_san;
use chess_core::types::Board;

/// The positions `depth` plies deep, counted; the last ply is counted by its
/// number of legal moves.
fn perft(board: &Board, depth: u8) -> u64 {
    if depth == 0 {
        return 1;
    }
    let moves = legal_moves(board);
    if depth == 1 {
        return moves.len() as u64;
    }
    let mut nodes = 0;
    for mv in moves {
        let next = after(board, mv).expect("a legal move plays");
        nodes += perft(&next, depth - 1);
    }
    nodes
}

/// The count under each first move.
fn perft_divide(board: &Board, depth: u8) -> Vec<(String, u64)> {
    let mut results = Vec::new();
    for mv in legal_moves(board) {
        let next = after(board, mv).expect("a legal move plays");
        let nodes = if depth > 1 { perft(&next, depth - 1) } else { 1 };
        results.push((format_move_san(&mv, board), nodes));
    }
    results
}

fn fen(text: &str) -> Board {
    board_from_fen(text).expect("Valid FEN")
}

const KIWIPETE: &str = "r3k2r/p1ppqpb1/bn2pnp1/3PN3/1p2P3/2N2Q1p/PPPBBPPP/R3K2R w KQkq - 0 1";

#[test]
fn perft_initial_position_depth_1() {
    assert_eq!(perft(&Board::default(), 1), 20, "Initial position should have 20 moves");
}

#[test]
fn perft_initial_position_depth_2() {
    assert_eq!(perft(&Board::default(), 2), 400, "Initial position at depth 2 should have 400 nodes");
}

#[test]
fn perft_initial_position_depth_3() {
    assert_eq!(perft(&Board::default(), 3), 8_902, "Initial position at depth 3 should have 8,902 nodes");
}

#[test]
fn perft_initial_position_depth_4() {
    assert_eq!(perft(&Board::default(), 4), 197_281, "Initial position at depth 4 should have 197,281 nodes");
}

#[test]
fn perft_kiwipete_depth_1() {
    assert_eq!(perft(&fen(KIWIPETE), 1), 48, "Kiwipete depth 1");
}

#[test]
fn perft_kiwipete_depth_2() {
    assert_eq!(perft(&fen(KIWIPETE), 2), 2_039, "Kiwipete depth 2");
}

#[test]
fn perft_kiwipete_depth_3() {
    assert_eq!(perft(&fen(KIWIPETE), 3), 97_862, "Kiwipete depth 3");
}

#[test]
fn perft_kiwipete_depth_4() {
    assert_eq!(perft(&fen(KIWIPETE), 4), 4_085_603, "Kiwipete depth 4");
}

#[test]
fn perft_endgame_position() {
    let board = fen("8/2p5/3p4/KP5r/1R3p1k/8/4P1P1/8 w - - 0 1");
    assert_eq!(perft(&board, 1), 14, "Endgame position depth 1");
    assert_eq!(perft(&board, 2), 191, "Endgame position depth 2");
    assert_eq!(perft(&board, 3), 2_812, "Endgame position depth 3");
}

#[test]
fn perft_position_4() {
    let board = fen("r3k2r/Pppp1ppp/1b3nbN/nP6/BBP1P3/q4N2/Pp1P2PP/R2Q1RK1 w kq - 0 1");
    assert_eq!(perft(&board, 1), 6, "Position 4 depth 1");
    assert_eq!(perft(&board, 2), 264, "Position 4 depth 2");
    assert_eq!(perft(&board, 3), 9_467, "Position 4 depth 3");
}

#[test]
fn perft_position_5() {
    let board = fen("rnbq1k1r/pp1Pbppp/2p5/8/2B5/8/PPP1NnPP/RNBQK2R w KQ - 1 8");
    assert_eq!(perft(&board, 1), 44, "Position 5 depth 1");
    assert_eq!(perft(&board, 2), 1_486, "Position 5 depth 2");
    assert_eq!(perft(&board, 3), 62_379, "Position 5 depth 3");
}

#[test]
fn perft_position_6() {
    let board = fen("r4rk1/1pp1qppp/p1np1n2/2b1p1B1/2B1P1b1/P1NP1N2/1PP1QPPP/R4RK1 w - - 0 10");
    assert_eq!(perft(&board, 1), 46, "Position 6 depth 1");
    assert_eq!(perft(&board, 2), 2_079, "Position 6 depth 2");
    assert_eq!(perft(&board, 3), 89_890, "Position 6 depth 3");
}

#[test]
fn debug_perft_divide_initial_position() {
    let results = perft_divide(&Board::default(), 2);
    println!("\nPerft divide for initial position at depth 2:");
    println!("{:<10} {}", "Move", "Nodes");
    println!("{}", "-".repeat(20));
    let mut total = 0;
    for (move_str, nodes) in &results {
        println!("{:<10} {}", move_str, nodes);
        total += nodes;
    }
    println!("{}", "-".repeat(20));
    println!("{:<10} {}", "Total", total);
    assert_eq!(total, 400);
}
