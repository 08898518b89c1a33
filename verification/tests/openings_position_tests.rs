use chess_core::eval::label;
use chess_core::game::GameHistory;
use chess_core::moves::board_from_fen;
use chess_core::openings::{of, OpeningTable};
use chess_core::session::position_of;
use chess_core::position::{ColoredPiece, GameError, GameState, Position};
use chess_core::types::{Color, Move, Piece};
use chess_core::uci::Score;

fn sq(name: &str) -> u8 {
    let b = name.as_bytes();
    (b[1] - b'1') * 8 + (b[0] - b'a')
}

/// Rows of the opening table for the tests below, in its format: a header,
/// then ECO code, name and moves separated by tabs.
const TABLE: &str = "eco\tname\tpgn\n\
B00\tKing's Pawn Game\t1. e4\n\
B27\tSicilian Defense\t1. e4 c5 2. Nf3\n\
B50\tSicilian Defense: Modern Variations\t1. e4 c5 2. Nf3 d6\n\
B50\tSicilian Defense\t1. e4 c5 2. Nf3 d6 3. d4 cxd4\n\
B90\tSicilian Defense: Najdorf Variation, Adams Attack\t1. e4 c5 2. Nf3 d6 3. d4 cxd4 4. Nxd4 Nf6 5. Nc3 a6 6. h3\n\
A00\tHungarian Opening\t1. g3\n";

#[test]
fn longest_prefix_wins_and_survives_leaving_the_book() {
    let table = OpeningTable::parse(TABLE);
    let mut history =
        GameHistory::from_pgn("1. e4 c5 2. Nf3 d6 3. d4 cxd4 4. Nxd4 Nf6 5. Nc3 a6 6. h3 h6 7. a3 a5").unwrap();
    let mut name_at = |history: &mut GameHistory, plies| {
        while history.move_count() > plies {
            history.undo();
        }
        of(history, &table).map(|opening| (opening.eco, opening.name))
    };
    let (eco, name) = name_at(&mut history, 14).unwrap();
    assert_eq!(eco, "B90");
    assert!(name.starts_with("Sicilian Defense: Najdorf Variation"), "{name}");
    assert_eq!(name_at(&mut history, 6), Some(("B50".into(), "Sicilian Defense".into())));
    assert_eq!(name_at(&mut history, 4), Some(("B50".into(), "Sicilian Defense: Modern Variations".into())));
    assert_eq!(name_at(&mut history, 3), Some(("B27".into(), "Sicilian Defense".into())));
    assert_eq!(name_at(&mut history, 1), Some(("B00".into(), "King's Pawn Game".into())));
    assert_eq!(name_at(&mut history, 0), None);
}

#[test]
fn positions_set_up_from_a_fen_have_no_opening() {
    let table = OpeningTable::parse(TABLE);
    let board = board_from_fen("rnbqkbnr/pppppppp/8/8/4P3/8/PPPP1PPP/RNBQKBNR b KQkq - 0 1").unwrap();
    let mut history = GameHistory::from_board(board);
    history.make_move(Move { from: sq("c7"), to: sq("c5"), promotion: None });
    assert_eq!(of(&history, &table), None);
}

#[test]
fn every_row_is_found_from_its_own_moves() {
    let table = OpeningTable::parse(TABLE);
    for line in TABLE.lines().skip(1) {
        let mut fields = line.split('\t');
        let (eco, name, pgn) = (fields.next().unwrap(), fields.next().unwrap(), fields.next().unwrap());
        let history = GameHistory::from_pgn(pgn).unwrap_or_else(|e| panic!("{eco} {name}: {e:?}"));
        let found = of(&history, &table).unwrap_or_else(|| panic!("{eco} {name} not found"));
        assert_eq!((found.eco.as_str(), found.name.as_str()), (eco, name), "{pgn}");
    }
}

#[test]
fn a_later_row_replaces_an_earlier_one_and_short_lines_are_skipped() {
    let table = OpeningTable::parse("header\nC20\tFirst\t1. e4 e5\nbroken line\nC21\tSecond\t1. e4 e5\n");
    let history = GameHistory::from_pgn("1. e4 e5").unwrap();
    assert_eq!(of(&history, &table).map(|o| o.eco), Some("C21".into()));
}

#[test]
fn labels_and_shares() {
    assert_eq!(label(Score::Cp(40)), "+0.4");
    assert_eq!(label(Score::Cp(-120)), "-1.2");
    assert_eq!(label(Score::Mate(3)), "M3");
    assert_eq!(label(Score::Mate(-2)), "-M2");
}

#[test]
fn labels_round_tenths_and_keep_the_sign() {
    assert_eq!(label(Score::Cp(0)), "+0.0");
    assert_eq!(label(Score::Cp(-3)), "-0.0");
    assert_eq!(label(Score::Cp(96)), "+1.0");
    assert_eq!(label(Score::Cp(1234)), "+12.3");
    assert_eq!(label(Score::Mate(0)), "M0");
}

#[test]
fn centipawn_labels_print_as_single_precision_pawns() {
    let expected = |cp: i32| format!("{:+.1}", cp as f32 / 100.0);
    for cp in -300_000..=300_000 {
        assert_eq!(label(Score::Cp(cp)), expected(cp), "{cp}");
    }
    for k in 0..20_000i64 {
        for cp in [k * 107_371 + 5, -(k * 107_371) - 15, k * 83_886 + 25, 1_677_721_600 + k * 3 - 30_000] {
            let cp = cp.clamp(i32::MIN as i64, i32::MAX as i64) as i32;
            assert_eq!(label(Score::Cp(cp)), expected(cp), "{cp}");
        }
    }
    for cp in [i32::MAX, i32::MIN, i32::MIN + 1, 16_777_217, -16_777_219, 838_860_805, 1_677_721_650] {
        assert_eq!(label(Score::Cp(cp)), expected(cp), "{cp}");
    }
}

#[test]
fn the_plain_position_takes_turns_and_refuses_the_wrong_side() {
    let mut position = Position::new();
    assert_eq!(position.side_to_move(), Color::White);
    assert_eq!(position.piece_at(sq("e1")), Some(ColoredPiece { color: Color::White, kind: Piece::King }));
    assert_eq!(position.piece_at(sq("d8")), Some(ColoredPiece { color: Color::Black, kind: Piece::Queen }));
    assert_eq!(position.piece_at(sq("e4")), None);
    assert_eq!(
        position.make_move(Move { from: sq("e4"), to: sq("e5"), promotion: None }),
        Err(GameError::InvalidMove("No piece at source".into()))
    );
    assert_eq!(
        position.make_move(Move { from: sq("e7"), to: sq("e5"), promotion: None }),
        Err(GameError::InvalidMove("Not your turn".into()))
    );
    assert_eq!(position.make_move(Move { from: sq("e2"), to: sq("e4"), promotion: None }), Ok(()));
    assert_eq!(position.piece_at(sq("e4")), Some(ColoredPiece { color: Color::White, kind: Piece::Pawn }));
    assert_eq!(position.piece_at(sq("e2")), None);
    assert_eq!(position.side_to_move(), Color::Black);
    assert!(position.legal_moves().is_empty());
    assert!(!position.is_checkmate() && !position.is_stalemate() && !position.is_check());
    assert_eq!(position.make_move(Move { from: sq("a7"), to: sq("a1"), promotion: Some(Piece::Queen) }), Ok(()));
    assert_eq!(position.piece_at(sq("a1")), Some(ColoredPiece { color: Color::Black, kind: Piece::Queen }));
}

#[test]
fn the_initial_setup_with_other_clocks_counts_as_the_start() {
    let table = OpeningTable::parse(TABLE);
    let mut history =
        GameHistory::from_fen("rnbqkbnr/pppppppp/8/8/8/8/PPPPPPPP/RNBQKBNR w KQkq - 5 9").unwrap();
    history.make_move(Move { from: sq("e2"), to: sq("e4"), promotion: None });
    assert_eq!(of(&history, &table).map(|o| o.eco), Some("B00".into()));
    assert_eq!(position_of(&history), "startpos moves e2e4");
}

#[test]
fn of_two_rows_with_one_key_the_later_is_found() {
    let table = OpeningTable::parse("eco\tname\tpgn\nA00\tOne\t1. g3\nA01\tTwo\t1. b3\nA02\tThree\t1. g3\n");
    let history = GameHistory::from_pgn("1. g3").unwrap();
    assert_eq!(of(&history, &table).map(|o| (o.eco, o.name)), Some(("A02".into(), "Three".into())));
    let history = GameHistory::from_pgn("1. b3").unwrap();
    assert_eq!(of(&history, &table).map(|o| o.eco), Some("A01".into()));
}
