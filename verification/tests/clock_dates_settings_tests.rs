use chess_core::cli::{last_san, legal_move_list, move_rows, parse_command, Command};
use chess_core::game::GameHistory;
use chess_core::games::list;
use chess_core::types::Board;
use chess_core::clock::Clock;
use chess_core::dates::{civil_from_days, game_file_name, today, utc_parts};
use chess_core::settings::{theme_from_key, CapturedPiecesStyle, EngineMode, Settings, ThemeVariant};
use chess_core::types::Color;
use std::time::Duration;

fn ms(d: Duration) -> u64 {
    d.as_millis() as u64
}

#[test]
fn first_move_is_free_and_increment_is_added() {
    let mut clock = Clock::new(1, 2);
    let t0 = 1_000_000u64;
    assert!(!clock.tick(Color::White, t0 + ms(Duration::from_secs(30))));
    assert_eq!(clock.remaining(Color::White), ms(Duration::from_secs(60)));
    clock.press(Color::White, t0, 1);
    assert_eq!(clock.remaining(Color::White), ms(Duration::from_secs(62)));
    assert!(!clock.tick(Color::Black, t0 + ms(Duration::from_secs(59))));
    assert!(clock.tick(Color::Black, t0 + ms(Duration::from_secs(61))));
    assert_eq!(clock.remaining(Color::Black), ms(Duration::ZERO));
}

#[test]
fn pause_skips_the_gap() {
    let mut clock = Clock::new(1, 0);
    let t0 = 1_000_000u64;
    clock.press(Color::White, t0, 1);
    clock.pause();
    clock.tick(Color::Black, t0 + ms(Duration::from_secs(50)));
    assert_eq!(clock.remaining(Color::Black), ms(Duration::from_secs(60)));
}

#[test]
fn takeback_restores_both_clocks() {
    let mut clock = Clock::new(1, 0);
    let t0 = 1_000_000u64;
    clock.press(Color::White, t0, 1);
    clock.press(Color::Black, t0 + ms(Duration::from_secs(20)), 2);
    assert_eq!(clock.remaining(Color::Black), ms(Duration::from_secs(40)));
    clock.restore(1);
    assert_eq!(clock.remaining(Color::Black), ms(Duration::from_secs(60)));
    assert!(!clock.is_running());
    clock.restore(2);
    assert_eq!(clock.remaining(Color::Black), ms(Duration::from_secs(40)));
    clock.restore(0);
    assert!(!clock.tick(Color::White, t0 + ms(Duration::from_secs(100))));
    assert_eq!(clock.remaining(Color::White), ms(Duration::from_secs(60)));
    clock.restore(1);
    clock.press(Color::Black, t0 + ms(Duration::from_secs(25)), 2);
    clock.restore(2);
    assert_eq!(clock.remaining(Color::Black), ms(Duration::from_secs(60)));
}

#[test]
fn formatting() {
    assert_eq!(Clock::format(ms(Duration::from_secs(300))), "5:00");
    assert_eq!(Clock::format(ms(Duration::from_secs(65))), "1:05");
    assert_eq!(Clock::format(ms(Duration::from_millis(9_870))), "0:09.9");
}

#[test]
fn short_times_print_as_double_precision_seconds() {
    for millis in 0..20_000u64 {
        let duration = Duration::from_millis(millis);
        let secs = duration.as_secs_f64();
        let expected = if secs < 10.0 {
            format!("0:{secs:04.1}")
        } else {
            let whole = duration.as_secs();
            format!("{}:{:02}", whole / 60, whole % 60)
        };
        assert_eq!(Clock::format(millis), expected, "{millis}");
    }
}

#[test]
fn formatting_edges() {
    assert_eq!(Clock::format(0), "0:00.0");
    assert_eq!(Clock::format(9_999), "0:10.0");
    assert_eq!(Clock::format(10_000), "0:10");
    assert_eq!(Clock::format(3_600_000), "60:00");
    assert_eq!(Clock::format(61_999), "1:01");
}

#[test]
fn an_unrecorded_ply_changes_nothing_and_increments_saturate() {
    let mut clock = Clock::new(1, 0);
    clock.restore(5);
    assert_eq!(clock.remaining(Color::White), 60_000);
    assert!(clock.increment() == 0);
    let mut big = Clock::new(u32::MAX, u32::MAX);
    for ply in 1..5 {
        big.press(Color::White, 0, ply);
    }
    assert!(big.remaining(Color::White) >= big.remaining(Color::Black));
}

#[test]
fn civil_dates() {
    assert_eq!(civil_from_days(0), (1970, 1, 1));
    assert_eq!(civil_from_days(-1), (1969, 12, 31));
    assert_eq!(civil_from_days(11_016), (2000, 2, 29));
    assert_eq!(civil_from_days(19_000), (2022, 1, 8));
    assert_eq!(civil_from_days(20_707), (2026, 9, 11));
}

#[test]
fn civil_dates_far_away() {
    assert_eq!(civil_from_days(-719_468), (0, 3, 1));
    assert_eq!(civil_from_days(-719_469), (0, 2, 29));
    assert_eq!(civil_from_days(2_932_896), (9999, 12, 31));
    assert_eq!(civil_from_days(10_957), (2000, 1, 1));
    assert_eq!(civil_from_days(47_482), (2100, 1, 1));
    assert_eq!(civil_from_days(47_540), (2100, 2, 28));
    assert_eq!(civil_from_days(47_541), (2100, 3, 1));
}

#[test]
fn dates_and_file_names_from_seconds() {
    assert_eq!(utc_parts(0), (1970, 1, 1, 0, 0, 0));
    assert_eq!(utc_parts(1_700_000_000), (2023, 11, 14, 22, 13, 20));
    assert_eq!(today(1_700_000_000), "2023.11.14");
    assert_eq!(game_file_name(1_700_000_000), "2023-11-14_221320.pgn");
    assert_eq!(game_file_name(0), "1970-01-01_000000.pgn");
}

#[test]
fn settings_round_trip_through_text() {
    let settings = Settings {
        theme: ThemeVariant::ModernDark,
        engine_mode: EngineMode::TimeLimit,
        engine_depth: 12,
        engine_movetime: 2500,
        engine_skill_level: 7,
        show_eval_bar: false,
        captured_display_style: CapturedPiecesStyle::ChessCom,
        computer_color: Color::White,
    };
    assert_eq!(Settings::parse(&settings.to_text()), settings);
}

#[test]
fn unreadable_lines_keep_defaults() {
    let parsed = Settings::parse("theme = neon\nengine_depth = deep\nskill_level = 99\njunk\n");
    let defaults = Settings::default();
    assert_eq!(parsed.theme, defaults.theme);
    assert_eq!(parsed.engine_depth, defaults.engine_depth);
    assert_eq!(parsed.engine_skill_level, 20);
}

#[test]
fn settings_text_reads_back_with_the_skill_clamped() {
    let settings = Settings { engine_skill_level: -5, ..Settings::default() };
    let text = settings.to_text();
    assert!(text.contains("skill_level = -5\n"), "{text}");
    assert_eq!(Settings::parse(&text), Settings { engine_skill_level: 0, ..settings });
    assert_eq!(Settings::parse("  engine_depth=  7  \r\nshow_eval_bar = false"), Settings { engine_depth: 7, show_eval_bar: false, ..Settings::default() });
}

#[test]
fn themes_have_names_and_keys() {
    let names: Vec<&str> = ThemeVariant::all().iter().map(|t| t.name()).collect();
    assert_eq!(names, ["Classic Monochrome", "Warm Minimal", "Modern Dark"]);
    for t in ThemeVariant::all() {
        assert_eq!(theme_from_key(&t.key().chars().collect()), Some(t));
    }
    assert_eq!(theme_from_key(&"neon".chars().collect()), None);
}

#[test]
fn saved_game_names_newest_first() {
    let names: Vec<String> = ["2026-01-01_000000.pgn", "notes.txt", "2026-02-02_000000.pgn", ".pgn", "2025-12-31_235959.pgn"]
        .iter()
        .map(|s| s.to_string())
        .collect();
    assert_eq!(list(names.clone(), 10), vec!["2026-02-02_000000.pgn", "2026-01-01_000000.pgn", "2025-12-31_235959.pgn"]);
    assert_eq!(list(names, 1), vec!["2026-02-02_000000.pgn"]);
    assert!(list(Vec::new(), 3).is_empty());
}

#[test]
fn prompt_commands() {
    assert_eq!(parse_command("  QUIT \n"), Command::Quit);
    assert_eq!(parse_command("h"), Command::Help);
    assert_eq!(parse_command(""), Command::Nothing);
    assert_eq!(parse_command("fen"), Command::ShowFen);
    assert_eq!(parse_command("FEN 8/8/8/8/8/8/8/K1k5 w - - 0 1 "), Command::SetFen("8/8/8/8/8/8/8/K1k5 w - - 0 1".into()));
    assert_eq!(parse_command(" Nf3\n"), Command::Move("Nf3".into()));
    let moves = legal_move_list(&Board::default());
    assert_eq!(moves.len(), 20);
    assert_eq!(moves[0], "a2a3");
    assert_eq!(moves[19], "h2h4");
}

#[test]
fn the_prompt_lists_moves_ten_to_a_row() {
    let moves = legal_move_list(&Board::default());
    let rows = move_rows(&moves);
    assert_eq!(rows.len(), 2);
    assert_eq!(rows[0], "a2a3  a2a4  b1a3  b1c3  b2b3  b2b4  c2c3  c2c4  d2d3  d2d4");
    assert_eq!(rows[1], "e2e3  e2e4  f2f3  f2f4  g1f3  g1h3  g2g3  g2g4  h2h3  h2h4");
    let three: Vec<String> = vec!["a".to_string(), "bc".to_string(), "d".to_string()];
    assert_eq!(move_rows(&three), vec!["a  bc  d".to_string()]);
    let eleven: Vec<String> = (0..11).map(|i| i.to_string()).collect();
    assert_eq!(move_rows(&eleven), vec!["0  1  2  3  4  5  6  7  8  9".to_string(), "10".to_string()]);
    assert!(move_rows(&Vec::new()).is_empty());
}

#[test]
fn the_prompt_announces_the_last_move() {
    let mut game = GameHistory::new();
    assert_eq!(last_san(&game), "?");
    let board = game.current_board().copy();
    let mv = chess_core::notation::parse_uci(&board, "g1f3").unwrap();
    game.make_move(mv);
    assert_eq!(last_san(&game), "Nf3");
    game.undo();
    assert_eq!(last_san(&game), "?");
}

#[test]
fn the_day_after_is_the_next_calendar_day() {
    assert_eq!(civil_from_days(-1), (1969, 12, 31));
    assert_eq!(civil_from_days(0), (1970, 1, 1));
    assert_eq!(civil_from_days(11_016), (2000, 2, 29));
    assert_eq!(civil_from_days(11_017), (2000, 3, 1));
    assert_eq!(civil_from_days(10_956), (1999, 12, 31));
    assert_eq!(civil_from_days(10_957), (2000, 1, 1));
}
