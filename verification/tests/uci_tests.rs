use chess_core::link::{forward, search_commands, EngineEvent, SearchRequest};
use chess_core::uci::{
    command_line, go_command, option_command, parse_engine_line, parse_i32, parse_u32, position_command,
    skill_command, EngineResponse, Score, SearchLimit,
};

fn info(line: &str) -> (u32, Score, Vec<String>) {
    match parse_engine_line(line) {
        Some(EngineResponse::Info { depth, score, pv, .. }) => (depth, score, pv),
        other => panic!("{line:?} parsed to {other:?}"),
    }
}

#[test]
fn test_parse_bestmove() {
    assert_eq!(
        parse_engine_line("bestmove e2e4 ponder e7e5"),
        Some(EngineResponse::BestMove { mv: Some("e2e4".into()), ponder: Some("e7e5".into()) })
    );
    assert_eq!(parse_engine_line("bestmove (none)"), Some(EngineResponse::BestMove { mv: None, ponder: None }));
}

#[test]
fn test_parse_info() {
    let line = "info depth 15 seldepth 22 multipv 1 score cp 34 nodes 1234567 nps 500000 pv e2e4 e7e5 g1f3";
    assert_eq!(
        parse_engine_line(line),
        Some(EngineResponse::Info {
            depth: 15,
            multipv: 1,
            score: Score::Cp(34),
            nodes: 1234567,
            nps: 500000,
            pv: vec!["e2e4".into(), "e7e5".into(), "g1f3".into()],
        })
    );
}

#[test]
fn test_parse_info_keeps_mate_sign() {
    assert_eq!(info("info depth 20 score mate 3").1, Score::Mate(3));
    assert_eq!(info("info depth 20 score mate -3").1, Score::Mate(-3));
    assert_eq!(Score::Mate(3).flipped(), Score::Mate(-3));
    assert_eq!(Score::Cp(-50).flipped(), Score::Cp(50));
}

#[test]
fn test_parse_info_skips_lines_without_an_exact_score() {
    for line in [
        "info string NNUE evaluation using nn-1c0000000000.nnue",
        "info depth 12 currmove e2e4 currmovenumber 1",
        "info depth 18 score cp 40 lowerbound nodes 100 pv e2e4",
        "info depth 18 multipv 2 score cp 12 pv d2d4",
        "info depth 18 score cp notanumber pv e2e4",
    ] {
        assert_eq!(parse_engine_line(line), None, "{line:?}");
    }
}

#[test]
fn test_parse_other_lines() {
    assert_eq!(parse_engine_line("readyok"), Some(EngineResponse::Ready));
    assert_eq!(
        parse_engine_line("id name Stockfish 18"),
        Some(EngineResponse::Error("id name Stockfish 18".into()))
    );
    assert_eq!(parse_engine_line(""), None);
}

#[test]
fn numbers_read_as_str_parse_reads_them() {
    let c = |s: &str| s.chars().collect::<Vec<char>>();
    assert_eq!(parse_u32(&c("+42")), Some(42));
    assert_eq!(parse_u32(&c("4294967295")), Some(u32::MAX));
    assert_eq!(parse_u32(&c("4294967296")), None);
    assert_eq!(parse_u32(&c("-1")), None);
    assert_eq!(parse_u32(&c("+")), None);
    assert_eq!(parse_u32(&c("")), None);
    assert_eq!(parse_i32(&c("-2147483648")), Some(i32::MIN));
    assert_eq!(parse_i32(&c("-2147483649")), None);
    assert_eq!(parse_i32(&c("007")), Some(7));
    for s in ["+42", "4294967295", "4294967296", "-1", "+", "", "007", "1_0"] {
        assert_eq!(parse_u32(&c(s)), s.parse::<u32>().ok(), "{s:?}");
        assert_eq!(parse_i32(&c(s)), s.parse::<i32>().ok(), "{s:?}");
    }
}

#[test]
fn info_lines_keep_the_last_values_and_the_whole_pv() {
    let (depth, score, pv) = info("info depth 3 depth 4 score cp 10 score mate 2 pv a b c");
    assert_eq!((depth, score), (4, Score::Mate(2)));
    assert_eq!(pv, vec!["a", "b", "c"]);
    assert_eq!(parse_engine_line("info score cp 5 upperbound"), None);
    assert_eq!(parse_engine_line("info score xx 5"), None);
    assert_eq!(parse_engine_line("info depth"), None);
    assert_eq!(info("info\tscore  cp  -7").1, Score::Cp(-7));
}

#[test]
fn bestmove_without_ponder_and_with_a_stray_word() {
    assert_eq!(
        parse_engine_line("bestmove a7a8q"),
        Some(EngineResponse::BestMove { mv: Some("a7a8q".into()), ponder: None })
    );
    assert_eq!(
        parse_engine_line("bestmove e2e4 nonsense e7e5"),
        Some(EngineResponse::BestMove { mv: Some("e2e4".into()), ponder: None })
    );
    assert_eq!(parse_engine_line("bestmove"), Some(EngineResponse::BestMove { mv: None, ponder: None }));
}

#[test]
fn flipping_twice_gives_the_score_back() {
    for s in [Score::Cp(0), Score::Cp(123), Score::Mate(-4), Score::Cp(i32::MAX)] {
        assert_eq!(s.flipped().flipped(), s);
    }
}

#[test]
fn commands_are_written_as_uci_wants_them() {
    assert_eq!(go_command(SearchLimit::Depth(12)), "go depth 12");
    assert_eq!(go_command(SearchLimit::MoveTime(1500)), "go movetime 1500");
    assert_eq!(
        go_command(SearchLimit::Clock { wtime: 60000, btime: 59000, winc: 2000, binc: 2000 }),
        "go wtime 60000 btime 59000 winc 2000 binc 2000"
    );
    assert_eq!(skill_command(25), "setoption name Skill Level value 20");
    assert_eq!(skill_command(-3), "setoption name Skill Level value 0");
    assert_eq!(skill_command(7), "setoption name Skill Level value 7");
    assert_eq!(option_command("Hash", "128"), "setoption name Hash value 128");
    assert_eq!(position_command("startpos moves e2e4"), "position startpos moves e2e4");
    assert_eq!(command_line("isready"), "isready\n");
    let request = SearchRequest { id: 3, position: "startpos".into(), limit: SearchLimit::Depth(9), skill_level: 5 };
    let (skill, position, go) = search_commands(&request);
    assert_eq!(skill, "setoption name Skill Level value 5");
    assert_eq!(position, "position startpos");
    assert_eq!(go, "go depth 9");
}

#[test]
fn replies_are_tagged_until_bestmove() {
    let mut current = Some(7);
    let event = forward(&mut current, EngineResponse::Ready);
    assert!(matches!(event, Some(EngineEvent::Search { id: 7, response: EngineResponse::Ready })));
    assert_eq!(current, Some(7));
    let event = forward(&mut current, EngineResponse::BestMove { mv: None, ponder: None });
    assert!(matches!(event, Some(EngineEvent::Search { id: 7, .. })));
    assert_eq!(current, None);
    assert!(forward(&mut current, EngineResponse::Ready).is_none());
}
