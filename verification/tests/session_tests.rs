use chess_core::clock::Clock;
use chess_core::game::GameHistory;
use chess_core::link::{EngineCommand, EngineEvent, EngineStatus};
use chess_core::material::{calculate_material, captured_piece, captured_row};
use chess_core::moves::board_from_fen;
use chess_core::notation::parse_uci;
use chess_core::session::{display_square, ChessApp, ClockEmphasis, EngineLine, MoveShade, SearchKind, Shortcut, SquareMarks};
use chess_core::settings::{CapturedPiecesStyle, EngineMode, Settings, ThemeVariant};
use chess_core::types::{Board, Color, Move, Piece};
use chess_core::uci::{EngineResponse, Score, SearchLimit};

fn sq(name: &str) -> u8 {
    let b = name.as_bytes();
    (b[1] - b'1') * 8 + (b[0] - b'a')
}

fn play(app: &mut ChessApp, moves: &[&str]) {
    for text in moves {
        let board = app.game_history.current_board().copy();
        let mv = app.parse_uci_move(text, &board).unwrap();
        app.play_move(mv, 1_000);
    }
}

#[test]
fn engine_comm_test_parse_uci_move_basic() {
    let app = ChessApp::headless();
    let mv = app.parse_uci_move("e2e4", &Board::default()).unwrap();
    assert_eq!(mv.from, sq("e2"));
    assert_eq!(mv.to, sq("e4"));
}

#[test]
fn engine_comm_test_parse_uci_move_promotion() {
    let board = board_from_fen("4k3/P7/8/8/8/8/8/4K3 w - - 0 1").unwrap();
    let app = ChessApp::headless();
    let mv = app.parse_uci_move("a7a8q", &board).unwrap();
    assert_eq!(mv.promotion, Some(Piece::Queen));
}

#[test]
fn engine_comm_test_parse_uci_move_invalid() {
    let board = Board::default();
    let app = ChessApp::headless();
    assert!(app.parse_uci_move("e2e5", &board).is_none());
    assert!(app.parse_uci_move("e2", &board).is_none());
    assert!(app.parse_uci_move("xyz", &board).is_none());
}

#[test]
fn test_uci_position_lists_the_moves_played() {
    let mut app = ChessApp::headless();
    assert_eq!(app.uci_position(), "startpos");
    play(&mut app, &["e2e4", "e7e5", "g1f3"]);
    assert_eq!(app.uci_position(), "startpos moves e2e4 e7e5 g1f3");
    app.game_history.undo();
    assert_eq!(app.uci_position(), "startpos moves e2e4 e7e5");
    let fen = "4k3/P7/8/8/8/8/8/4K3 w - - 0 1";
    app.game_history = GameHistory::from_board(board_from_fen(fen).unwrap());
    play(&mut app, &["a7a8n"]);
    assert_eq!(app.uci_position(), format!("fen {fen} moves a7a8n"));
}

#[test]
fn test_undo_against_computer_lands_on_human_turn() {
    let mut app = ChessApp::headless();
    app.play_vs_computer = true;
    app.computer_color = Color::Black;
    play(&mut app, &["e2e4", "e7e5", "g1f3"]);
    app.undo(2_000);
    assert_eq!(app.game_history.move_count(), 2);
    app.undo(2_000);
    assert_eq!(app.game_history.move_count(), 0);
    app.redo(2_000);
    assert_eq!(app.game_history.move_count(), 2);
    assert!(!app.disable_auto_request);
}

#[test]
fn test_undo_gives_the_clock_time_back() {
    let mut app = ChessApp::headless();
    app.clock = Some(Clock::new(5, 0));
    play(&mut app, &["e2e4"]);
    let clock = app.clock.as_mut().unwrap();
    clock.tick(Color::Black, 1_000 + 30_000);
    assert!(clock.remaining(Color::Black) <= 270_000);
    app.undo(40_000);
    let clock = app.clock.as_ref().unwrap();
    assert_eq!(clock.remaining(Color::Black), 300_000);
    assert!(!clock.is_running());
}

#[test]
fn test_stale_replies_are_dropped() {
    let mut app = ChessApp::headless();
    app.search_id = 7;
    app.engine_thinking = true;
    let best = |id| EngineEvent::Search {
        id,
        response: EngineResponse::BestMove { mv: Some("e2e4".into()), ponder: None },
    };
    assert_eq!(app.poll_engine_responses(vec![best(6)]), None);
    assert!(app.engine_thinking);
    assert_eq!(app.poll_engine_responses(vec![best(7)]), Some("e2e4".to_owned()));
    assert!(!app.engine_thinking);
}

#[test]
fn engine_comm_test_format_pv_san_basic() {
    let app = ChessApp::headless();
    let pv = ["e2e4".to_string(), "e7e5".to_string(), "g1f3".to_string()];
    assert_eq!(app.format_pv_san(&pv), vec!["e4", "e5", "Nf3"]);
}

#[test]
fn engine_comm_test_format_pv_san_with_capture() {
    let mut app = ChessApp::headless();
    let board = board_from_fen("r1bqkbnr/ppp2ppp/2n5/3pp3/3PP3/5N2/PPP2PPP/RNBQKB1R w KQkq d6 0 4").unwrap();
    app.game_history = GameHistory::from_board(board);
    assert_eq!(app.format_pv_san(&["e4d5".to_string()]), vec!["exd5"]);
}

#[test]
fn gui_app_test_parse_uci_move_basic() {
    let board = Board::default();
    let dummy_app = ChessApp::headless();
    let chess_move = dummy_app.parse_uci_move("e2e4", &board);
    assert!(chess_move.is_some());
    let mv = chess_move.unwrap();
    assert_eq!(mv.from, sq("e2"));
    assert_eq!(mv.to, sq("e4"));
}

#[test]
fn gui_app_test_parse_uci_move_promotion() {
    let board = board_from_fen("4k3/P7/8/8/8/8/8/4K3 w - - 0 1").unwrap();
    let dummy_app = ChessApp::headless();
    let chess_move = dummy_app.parse_uci_move("a7a8q", &board);
    assert!(chess_move.is_some());
    assert_eq!(chess_move.unwrap().promotion, Some(Piece::Queen));
}

#[test]
fn gui_app_test_parse_uci_move_invalid() {
    let board = Board::default();
    let dummy_app = ChessApp::headless();
    assert!(dummy_app.parse_uci_move("e2e5", &board).is_none());
    assert!(dummy_app.parse_uci_move("e2", &board).is_none());
    assert!(dummy_app.parse_uci_move("xyz", &board).is_none());
}

#[test]
fn gui_app_test_format_pv_san_basic() {
    let dummy_app = ChessApp::headless();
    let pv = vec!["e2e4".to_string(), "e7e5".to_string(), "g1f3".to_string()];
    let formatted = dummy_app.format_pv_san(&pv);
    assert_eq!(formatted, vec!["e4", "e5", "Nf3"]);
}

#[test]
fn gui_app_test_format_pv_san_with_capture() {
    let mut dummy_app = ChessApp::headless();
    let board = board_from_fen("r1bqkbnr/ppp2ppp/2n5/3pp3/3PP3/5N2/PPP2PPP/RNBQKB1R w KQkq d6 0 4").unwrap();
    dummy_app.game_history = GameHistory::from_board(board);
    let pv = vec!["e4d5".to_string()];
    let formatted = dummy_app.format_pv_san(&pv);
    assert_eq!(formatted, vec!["exd5"]);
}

#[test]
fn test_captured_piece_sees_en_passant() {
    let board = board_from_fen("rnbqkbnr/ppp1p1pp/8/3pPp2/8/8/PPPP1PPP/RNBQKBNR w KQkq f6 0 3").unwrap();
    let en_passant = Move { from: sq("e5"), to: sq("f6"), promotion: None };
    assert_eq!(captured_piece(&board, en_passant), Some(Piece::Pawn));
    let push = Move { from: sq("e5"), to: sq("e6"), promotion: None };
    assert_eq!(captured_piece(&board, push), None);
}

#[test]
fn test_promotion_is_not_a_capture() {
    let mut app = ChessApp::headless();
    let board = board_from_fen("4k3/P7/8/8/8/8/8/4K3 w - - 0 1").unwrap();
    let mv = parse_uci(&board, "a7a8q").unwrap();
    app.game_history = GameHistory::from_board(board);
    app.play_move(mv, 0);
    let material = calculate_material(&app.game_history);
    assert_eq!((material.white, material.black), (9, 0));
    assert!(material.white_captured.iter().all(|&n| n == 0));
    assert!(material.black_captured.iter().all(|&n| n == 0));
}

#[test]
fn captures_are_counted_per_side() {
    let history = GameHistory::from_pgn("1. e4 d5 2. exd5 Qxd5 3. Nc3 Qxa2 4. Rxa2").unwrap();
    let material = calculate_material(&history);
    assert_eq!(material.white_captured, vec![1, 0, 0, 0, 1, 0]);
    assert_eq!(material.black_captured, vec![2, 0, 0, 0, 0, 0]);
    assert_eq!(material.white - material.black, 9 + 1 - 2);
}

#[test]
fn a_search_request_carries_the_limit_and_the_position() {
    let mut app = ChessApp::headless();
    app.engine_linked = true;
    app.engine_status = EngineStatus::Ready;
    app.play_vs_computer = true;
    app.computer_color = Color::Black;
    play(&mut app, &["e2e4"]);
    app.take_commands();
    app.engine_mode = EngineMode::TimeLimit;
    app.engine_movetime = None;
    app.auto_request();
    assert!(app.engine_thinking);
    let commands = app.take_commands();
    assert_eq!(commands.len(), 1);
    match &commands[0] {
        EngineCommand::Search(r) => {
            assert_eq!(r.id, app.search_id);
            assert_eq!(r.position, "startpos moves e2e4");
            assert_eq!(r.limit, SearchLimit::MoveTime(1000));
            assert_eq!(r.skill_level, 20);
        },
        other => panic!("{other:?}"),
    }
    // A second request waits for the first to end.
    app.auto_request();
    assert!(app.take_commands().is_empty());
}

#[test]
fn analysis_asks_for_more_lines_and_a_clock_game_for_the_clock() {
    let mut app = ChessApp::headless();
    app.engine_linked = true;
    app.analysis_lines = 3;
    app.start_search(SearchKind::Analyse);
    let commands = app.take_commands();
    assert_eq!(commands.len(), 2);
    assert!(matches!(&commands[0], EngineCommand::SetOption { name, value } if name == "MultiPV" && value == "3"));
    assert!(matches!(&commands[1], EngineCommand::Search(r) if r.skill_level == 20 && r.limit == SearchLimit::Depth(20)));
    assert_eq!(app.engine_multipv, 3);
    app.clock = Some(Clock::new(1, 2));
    app.start_search(SearchKind::Play);
    let commands = app.take_commands();
    assert!(matches!(&commands[1], EngineCommand::Search(r)
        if r.limit == SearchLimit::Clock { wtime: 60_000, btime: 60_000, winc: 2_000, binc: 2_000 }));
    assert_eq!(app.engine_multipv, 1);
}

#[test]
fn info_scores_are_shown_from_whites_side() {
    let mut app = ChessApp::headless();
    play(&mut app, &["e2e4"]);
    let id = app.search_id;
    let info = EngineEvent::Search {
        id,
        response: EngineResponse::Info { depth: 9, multipv: 1, score: Score::Cp(30), nodes: 77, nps: 1, pv: vec!["e7e5".into(), "g1f3".into()] },
    };
    app.poll_engine_responses(vec![info]);
    assert_eq!(app.engine_evaluation(), Some(Score::Cp(-30)));
    assert_eq!(app.engine_nodes, 77);
    app.engine_thinking = true;
    let done = EngineEvent::Search { id, response: EngineResponse::BestMove { mv: Some("e7e5".into()), ponder: None } };
    assert_eq!(app.poll_engine_responses(vec![done]), Some("e7e5".into()));
    assert_eq!(app.engine_lines[0].pv, vec!["g1f3".to_string()]);
}

#[test]
fn ready_sends_the_options_and_failure_stops_play() {
    let mut app = ChessApp::headless();
    app.engine_linked = true;
    app.engine_threads = 2;
    app.poll_engine_responses(vec![EngineEvent::Ready]);
    assert_eq!(app.engine_status, EngineStatus::Ready);
    let commands = app.take_commands();
    assert!(matches!(&commands[0], EngineCommand::SetOption { name, value } if name == "Threads" && value == "2"));
    assert!(matches!(&commands[1], EngineCommand::SetOption { name, value } if name == "Hash" && value == "128"));
    app.play_vs_computer = true;
    app.poll_engine_responses(vec![EngineEvent::Failed("gone".into())]);
    assert_eq!(app.engine_status, EngineStatus::Failed("gone".into()));
    assert!(!app.play_vs_computer);
}

#[test]
fn an_illegal_engine_move_is_reported_and_not_asked_again() {
    let mut app = ChessApp::headless();
    app.apply_engine_move("e2e5", 0);
    assert_eq!(app.notice.as_deref(), Some("Engine played e2e5, which is not legal here"));
    assert!(app.disable_auto_request);
    app.apply_engine_move("e2e4", 0);
    assert_eq!(app.game_history.move_count(), 1);
    assert!(!app.disable_auto_request);
}

#[test]
fn resigning_and_running_out_of_time_end_the_game() {
    let mut app = ChessApp::headless();
    app.resign();
    assert_eq!(app.resigned, Some(Color::White));
    assert_eq!(app.result(), "0-1");
    assert!(app.is_game_over());
    let mut app = ChessApp::headless();
    app.play_vs_computer = true;
    app.computer_color = Color::White;
    app.resign();
    assert_eq!(app.resigned, Some(Color::Black));
    assert_eq!(app.result(), "1-0");
    let mut app = ChessApp::headless();
    app.clock = Some(Clock::new(1, 0));
    play(&mut app, &["e2e4"]);
    assert!(app.tick_clock(1_000 + 30_000));
    assert!(!app.tick_clock(1_000 + 61_000));
    assert_eq!(app.timeout, Some(Color::Black));
    assert_eq!(app.result(), "1-0");
}

#[test]
fn jumping_through_the_history() {
    let mut app = ChessApp::headless();
    play(&mut app, &["e2e4", "e7e5", "g1f3"]);
    app.jump_to_ply(1);
    assert_eq!(app.game_history.move_count(), 1);
    assert!(app.disable_auto_request);
    app.jump_to_ply(9);
    assert_eq!(app.game_history.move_count(), 3);
    assert!(!app.disable_auto_request);
    assert_eq!(app.last_move(), Some((sq("g1"), sq("f3"))));
}

#[test]
fn a_new_game_resets_and_settings_go_both_ways() {
    let mut app = ChessApp::headless();
    app.engine_linked = true;
    app.clock_enabled = true;
    play(&mut app, &["d2d4"]);
    app.new_game();
    assert_eq!(app.game_history.move_count(), 0);
    assert_eq!(app.clock.as_ref().map(|c| c.remaining(Color::White)), Some(300_000));
    assert!(app.take_commands().iter().any(|c| matches!(c, EngineCommand::NewGame)));
    let settings = Settings { engine_depth: 9, ..Settings::from_app(&app) };
    settings.apply(&mut app);
    assert_eq!(app.engine_depth, 9);
    assert_eq!(Settings::from_app(&app), settings);
    assert!(app.pgn("2024.01.01").contains("[Date \"2024.01.01\"]"));
}

#[test]
fn clicking_selects_moves_and_asks_for_a_promotion_piece() {
    let mut app = ChessApp::headless();
    app.handle_square_click(sq("e7"), 0);
    assert_eq!(app.selected_square, None, "not the side to move");
    app.handle_square_click(sq("e2"), 0);
    assert_eq!(app.selected_square, Some(sq("e2")));
    assert_eq!(app.legal_moves_for_selected.len(), 2);
    app.handle_square_click(sq("e2"), 0);
    assert_eq!(app.selected_square, None);
    assert!(app.legal_moves_for_selected.is_empty());
    app.handle_square_click(sq("g1"), 0);
    app.handle_square_click(sq("b1"), 0);
    assert_eq!(app.selected_square, Some(sq("b1")), "the selection moves to another own piece");
    app.handle_square_click(sq("c3"), 0);
    assert_eq!(app.game_history.move_count(), 1);
    assert_eq!(app.selected_square, None);

    let mut app = ChessApp::headless();
    app.game_history = GameHistory::from_fen("4k3/P7/8/8/8/8/8/4K3 w - - 0 1").unwrap();
    app.handle_square_click(sq("a7"), 0);
    app.handle_square_click(sq("a8"), 0);
    assert_eq!(app.pending_promotion, Some((sq("a7"), sq("a8"))));
    assert_eq!(app.game_history.move_count(), 0);
    app.promote(Some(Piece::Rook), 5);
    assert_eq!(app.game_history.move_count(), 1);
    assert_eq!(app.game_history.get_move(0).unwrap().promotion, Some(Piece::Rook));
    assert_eq!(app.pending_promotion, None);
    assert!(app.own_piece_at(sq("a8")).is_none(), "Black is to move");
}

#[test]
fn dragging_a_piece_plays_the_move_without_sliding() {
    let mut app = ChessApp::headless();
    assert_eq!(app.board(), &Board::default());
    assert!(app.board_accepts_input());
    app.start_drag(sq("e7"));
    assert_eq!(app.dragging_piece, None, "not the side to move");
    app.start_drag(sq("g1"));
    assert_eq!(app.dragging_piece, Some((sq("g1"), Piece::Knight, Color::White)));
    assert_eq!(app.selected_square, Some(sq("g1")));
    assert_eq!(app.legal_moves_for_selected.len(), 2);
    app.drop_piece(Some(sq("f3")), 700);
    assert_eq!(app.game_history.move_count(), 1);
    assert_eq!(app.dragging_piece, None);
    assert!(app.animation.is_none(), "a dropped piece does not slide");

    app.start_drag(sq("e7"));
    app.drop_piece(None, 800);
    assert_eq!(app.game_history.move_count(), 1, "a drop off the board cancels the drag");
    assert_eq!(app.dragging_piece, None);
    assert_eq!(app.selected_square, Some(sq("e7")));
}

#[test]
fn the_board_ignores_input_while_a_promotion_waits() {
    let mut app = ChessApp::headless();
    app.pending_promotion = Some((sq("a7"), sq("a8")));
    assert!(!app.board_accepts_input());
    app.pending_promotion = None;
    app.resign();
    assert!(!app.board_accepts_input(), "the game is over");
}

#[test]
fn shortcuts_walk_the_history_and_flip_the_board() {
    let mut app = ChessApp::headless();
    play(&mut app, &["e2e4", "e7e5", "g1f3"]);
    assert!(!app.shortcut(Shortcut::Back, 2_000));
    assert_eq!(app.game_history.move_count(), 2);
    assert!(!app.shortcut(Shortcut::First, 2_000));
    assert_eq!(app.game_history.move_count(), 0);
    assert!(!app.shortcut(Shortcut::Last, 2_000));
    assert_eq!(app.game_history.move_count(), 3);
    assert!(!app.shortcut(Shortcut::Forward, 2_000));
    assert_eq!(app.game_history.move_count(), 3);
    assert!(!app.shortcut(Shortcut::Flip, 2_000));
    assert!(app.board_flip);
    app.handle_square_click(sq("e5"), 2_000);
    assert_eq!(app.selected_square, Some(sq("e5")));
    assert!(!app.shortcut(Shortcut::Cancel, 2_000));
    assert_eq!(app.selected_square, None);
    assert!(app.shortcut(Shortcut::Save, 2_000), "saving is left to the caller");
    assert_eq!(app.game_history.total_moves(), 3);
    assert!(!app.shortcut(Shortcut::NewGame, 2_000));
    assert_eq!(app.game_history.total_moves(), 0);
}

#[test]
fn player_names_follow_the_computers_side() {
    let mut app = ChessApp::headless();
    assert_eq!(app.player_names(), ("?", "?"));
    app.play_vs_computer = true;
    app.computer_color = Color::Black;
    assert_eq!(app.player_names(), ("Human", "Stockfish"));
    app.computer_color = Color::White;
    assert_eq!(app.player_names(), ("Stockfish", "Human"));
}

#[test]
fn the_clock_panel_shows_both_sides() {
    let mut app = ChessApp::headless();
    assert!(app.clock_line(Color::White).is_none());
    app.choose_time_control(3, 2);
    assert!(app.clock_enabled);
    assert_eq!((app.clock_minutes, app.clock_increment_s), (3, 2));
    app.new_game();
    let (white, emphasis) = app.clock_line(Color::White).unwrap();
    assert_eq!(white, "White  3:00");
    assert_eq!(emphasis, ClockEmphasis::ToMove);
    assert_eq!(app.clock_line(Color::Black).unwrap(), ("Black  3:00".to_string(), ClockEmphasis::Plain));
    app.clock = Some(Clock::new(0, 0));
    assert_eq!(app.clock_line(Color::Black).unwrap(), ("Black  0:00.0".to_string(), ClockEmphasis::LowTime));
}

#[test]
fn the_history_list_shades_the_moves_around_the_position() {
    let mut app = ChessApp::headless();
    assert!(app.history_entries().is_empty());
    play(&mut app, &["e2e4", "e7e5", "g1f3"]);
    app.jump_to_ply(2);
    let entries = app.history_entries();
    let shown: Vec<(usize, usize, &str, MoveShade)> =
        entries.iter().map(|e| (e.index, e.number, e.san.as_str(), e.shade)).collect();
    assert_eq!(
        shown,
        vec![
            (0, 1, "e4", MoveShade::Played),
            (1, 1, "e5", MoveShade::Current),
            (2, 2, "Nf3", MoveShade::Undone),
        ]
    );
}

#[test]
fn engine_settings_reach_the_engine_only_on_change() {
    let mut app = ChessApp::headless();
    app.engine_linked = true;
    let (threads, hash) = (app.engine_threads, app.engine_hash_mb);
    app.set_engine_resources(threads, hash);
    assert!(app.take_commands().is_empty());
    app.set_engine_resources(4, 256);
    let commands = app.take_commands();
    assert_eq!(commands.len(), 2);
    assert!(matches!(&commands[0], EngineCommand::SetOption { name, value } if name == "Threads" && value == "4"));
    assert!(matches!(&commands[1], EngineCommand::SetOption { name, value } if name == "Hash" && value == "256"));

    app.engine_depth = 7;
    app.analysis_lines = 3;
    app.reset_engine_settings(4);
    assert_eq!((app.engine_depth, app.engine_movetime, app.analysis_lines), (20, Some(1000), 1));
    assert_eq!(app.engine_mode, EngineMode::Depth);
    assert_eq!(app.engine_hash_mb, 128);
    assert_eq!(app.take_commands().len(), 2, "the hash changed");

    let id = app.search_id;
    app.analysis_complete = true;
    app.set_analysis_lines(1);
    assert_eq!(app.search_id, id);
    app.set_analysis_lines(2);
    assert_eq!(app.analysis_lines, 2);
    assert!(!app.analysis_complete);
    assert_eq!(app.search_id, id + 1, "the running analysis is dropped");
}

fn line(score: Score, pv: &[&str]) -> EngineLine {
    EngineLine { depth: 12, score, pv: pv.iter().map(|m| m.to_string()).collect() }
}

#[test]
fn the_analysis_panel_lists_lines_with_moves() {
    let mut app = ChessApp::headless();
    app.engine_lines = vec![
        line(Score::Cp(38), &["e2e4", "e7e5", "g1f3"]),
        line(Score::Cp(-120), &[]),
        line(Score::Mate(-3), &["d2d4"]),
    ];
    assert_eq!(
        app.analysis_rows(),
        vec![
            ("+0.4".to_string(), "e4 e5 Nf3".to_string()),
            ("-M3".to_string(), "d4".to_string()),
        ]
    );
    assert_eq!(app.best_move().map(|m| (m.from, m.to)), Some((sq("e2"), sq("e4"))));
    assert!(!app.may_play_best_move(), "only in analysis");
    app.analysis = true;
    assert!(app.may_play_best_move());
    app.engine_lines = vec![line(Score::Cp(0), &["e7e5"])];
    assert!(app.best_move().is_none(), "not legal here");
}

#[test]
fn switching_modes_drops_their_searches() {
    let mut app = ChessApp::headless();
    app.engine_linked = true;
    app.set_engine_modes(true, false);
    assert!(app.play_vs_computer);
    assert!(!app.board_flip, "the computer plays Black");
    app.engine_thinking = true;
    app.search_kind = SearchKind::Play;
    let id = app.search_id;
    app.set_engine_modes(false, true);
    assert!(!app.engine_thinking);
    assert_eq!(app.search_id, id + 1);
    assert!(matches!(app.take_commands().last(), Some(EngineCommand::Stop)));

    app.engine_thinking = true;
    app.search_kind = SearchKind::Analyse;
    app.set_engine_modes(true, true);
    assert!(app.engine_thinking, "analysis stays on");
    app.disable_auto_request = true;
    app.choose_computer_color(Color::White);
    assert_eq!(app.computer_color, Color::White);
    assert!(app.board_flip);
    assert!(!app.disable_auto_request);
    assert!(!app.engine_thinking);
    let id = app.search_id;
    app.choose_computer_color(Color::White);
    assert_eq!(app.search_id, id, "no change, nothing dropped");
}

#[test]
fn the_load_windows_read_trimmed_text_and_say_why_not() {
    let game = chess_core::session::read_fen_entry("  4k3/8/8/8/8/8/8/4K2R w K - 0 1 \n").unwrap();
    assert_eq!(game.total_moves(), 0);
    assert_eq!(
        chess_core::session::read_fen_entry("not a position").err(),
        Some("Not a valid FEN".to_string())
    );
    let game = chess_core::session::read_pgn_entry("\n1. e4 e5 2. Nf3 *\n\n").unwrap();
    assert_eq!(game.total_moves(), 3);
    assert_eq!(
        chess_core::session::read_pgn_entry("1. e4 e5 2. Ke3 *").err(),
        Some("move 3: cannot play \"Ke3\" here".to_string())
    );
    assert_eq!(
        chess_core::session::read_pgn_entry("[FEN \"nonsense\"]\n\n1. e4 *").err(),
        Some("the FEN tag is not a valid position".to_string())
    );
}

#[test]
fn captured_rows_put_the_heaviest_first() {
    let history = GameHistory::from_pgn("1. e4 d5 2. exd5 Qxd5 3. Nc3 Qxa2 4. Rxa2").unwrap();
    let material = calculate_material(&history);
    assert_eq!(captured_row(&material.white_captured), vec![Piece::Queen, Piece::Pawn]);
    assert_eq!(captured_row(&material.black_captured), vec![Piece::Pawn, Piece::Pawn]);
    assert!(captured_row(&vec![0, 0, 0, 0, 0, 0]).is_empty());
    assert_eq!(
        captured_row(&vec![1, 2, 1, 1, 0, 0]),
        vec![Piece::Rook, Piece::Bishop, Piece::Knight, Piece::Knight, Piece::Pawn]
    );
}

#[test]
fn the_top_bar_and_spinner_say_what_goes_on() {
    let mut app = ChessApp::headless();
    assert_eq!(app.turn_label(), "\u{26aa} White to move");
    play(&mut app, &["e2e4"]);
    assert_eq!(app.turn_label(), "\u{26ab} Black to move");
    assert_eq!(app.thinking_label(), None);
    app.engine_thinking = true;
    app.search_kind = SearchKind::Play;
    assert_eq!(app.thinking_label(), Some("Engine thinking..."));
    app.search_kind = SearchKind::Analyse;
    assert_eq!(app.thinking_label(), Some("Analysing..."));
}

#[test]
fn the_board_marks_the_last_move_the_selection_and_a_checked_king() {
    assert_eq!(display_square(0, 0, false), sq("a8"));
    assert_eq!(display_square(7, 7, false), sq("h1"));
    assert_eq!(display_square(0, 0, true), sq("h1"));
    assert_eq!(display_square(7, 0, true), sq("h8"));

    let mut app = ChessApp::headless();
    app.game_history = GameHistory::from_fen("r3k2r/8/8/8/8/8/8/R3K2R w KQkq - 0 1").unwrap();
    play(&mut app, &["e1g1"]);
    assert_eq!(app.last_move(), Some((sq("e1"), sq("g1"))), "castling shows where the king went");
    assert!(app.square_marks(sq("g1")).last_move);
    assert!(!app.square_marks(sq("h1")).last_move);

    let mut app = ChessApp::headless();
    play(&mut app, &["e2e4", "f7f6", "d2d4", "g7g5", "d1h5"]);
    assert_eq!(
        app.square_marks(sq("e8")),
        SquareMarks { last_move: false, selected: false, checked_king: true, legal_target: false }
    );
    let mut app = ChessApp::headless();
    app.handle_square_click(sq("g1"), 0);
    let marks = app.square_marks(sq("f3"));
    assert!(marks.legal_target && !marks.selected && !marks.checked_king);
    assert!(app.square_marks(sq("g1")).selected);
    assert!(!app.square_marks(sq("e4")).legal_target);
}

#[test]
fn test_lines_are_kept_by_number_and_cut_on_a_new_search() {
    let mut app = ChessApp::headless();
    app.search_id = 1;
    let info = |multipv, cp, pv: &str| EngineEvent::Search {
        id: 1,
        response: EngineResponse::Info {
            depth: 10,
            multipv,
            score: Score::Cp(cp),
            nodes: 0,
            nps: 0,
            pv: vec![pv.to_owned()],
        },
    };
    // A line with a gap before it cannot be placed and is dropped.
    let events = vec![info(1, 30, "e2e4"), info(2, 20, "d2d4"), info(4, 10, "c2c4"), info(1, 35, "e2e4")];
    app.poll_engine_responses(events);
    assert_eq!(app.engine_lines.len(), 2);
    assert_eq!(app.engine_evaluation(), Some(Score::Cp(35)));
    assert_eq!(app.engine_lines[1].pv, ["d2d4"]);

    app.analysis_lines = 3;
    app.start_search(SearchKind::Analyse);
    assert_eq!(app.engine_multipv, 3);
    assert_eq!(app.engine_lines.len(), 1, "only the first line survives");
    app.start_search(SearchKind::Play);
    assert_eq!(app.engine_multipv, 1);
}

#[test]
fn the_starting_app_takes_half_the_machine_for_the_engine() {
    assert_eq!(ChessApp::headless_with(16).engine_threads, 4);
    assert_eq!(ChessApp::headless_with(6).engine_threads, 3);
    assert_eq!(ChessApp::headless_with(1).engine_threads, 1);
    let app = ChessApp::headless();
    assert_eq!(app.engine_threads, 1);
    assert_eq!(app.engine_hash_mb, 128);
    assert!(!app.board_flip);
    assert!(app.show_eval_bar);
    assert_eq!(app.captured_display_style, CapturedPiecesStyle::Lichess);
    assert_eq!(app.theme_variant, ThemeVariant::ClassicMonochrome);
    assert!(!app.analysis && !app.analysis_complete);
    assert_eq!(app.engine_nodes, 0);
    assert!(app.notice.is_none() && app.selected_square.is_none() && app.pending_promotion.is_none());
    assert_eq!(app.game_history.current_board(), &Board::default());
}
