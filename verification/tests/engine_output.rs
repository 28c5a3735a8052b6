use chess_coach::chess::parse_fen;
use chess_coach::moves::{
    format_score, number_moves, parse_analysis, parse_info_line, parse_raw, uci_moves_to_san,
    uci_to_san_single,
};

const START: &str = "rnbqkbnr/pppppppp/8/8/8/8/PPPPPPPP/RNBQKBNR w KQkq - 0 1";

fn lines(texts: &[&str]) -> Vec<String> {
    texts.iter().map(|t| t.to_string()).collect()
}

#[test]
fn format_score_pawns_with_sign() {
    assert_eq!(format_score(35), "+0.35");
    assert_eq!(format_score(-120), "-1.20");
    assert_eq!(format_score(0), "+0.00");
    assert_eq!(format_score(-5), "-0.05");
    assert_eq!(format_score(250), "+2.50");
    assert_eq!(format_score(99_999), "+999.99");
    assert_eq!(format_score(-99_999), "-999.99");
}

#[test]
fn format_score_mate_scores() {
    assert_eq!(format_score(100_000), "M?");
    assert_eq!(format_score(-100_000), "-M?");
    assert_eq!(format_score(i32::MAX), "M?");
    assert_eq!(format_score(i32::MIN), "-M?");
}

#[test]
fn parse_info_line_centipawns() {
    let raw = parse_info_line(
        "info depth 20 seldepth 28 multipv 1 score cp 35 nodes 123456 pv e2e4 e7e5 g1f3",
    )
    .unwrap();
    assert_eq!(raw.rank, 1);
    assert_eq!(raw.score, "+0.35");
    assert_eq!(raw.score_cp, 35);
    assert_eq!(raw.moves, vec!["e2e4", "e7e5", "g1f3"]);
}

#[test]
fn parse_info_line_negative_centipawns() {
    let raw = parse_info_line("info depth 18 multipv 2 score cp -142 pv d7d5").unwrap();
    assert_eq!(raw.rank, 2);
    assert_eq!(raw.score, "-1.42");
    assert_eq!(raw.score_cp, -142);
    assert_eq!(raw.moves, vec!["d7d5"]);
}

#[test]
fn parse_info_line_mate_scores() {
    let raw = parse_info_line("info depth 20 multipv 1 score mate 3 pv d1h5 g7g6").unwrap();
    assert_eq!(raw.score, "M3");
    assert_eq!(raw.score_cp, 100_000);
    let raw = parse_info_line("info depth 20 multipv 1 score mate -2 pv a2a3").unwrap();
    assert_eq!(raw.score, "-M2");
    assert_eq!(raw.score_cp, -100_000);
    let raw = parse_info_line("info depth 20 multipv 1 score mate 0 pv").unwrap();
    assert_eq!(raw.score, "-M0");
    assert_eq!(raw.score_cp, -100_000);
    assert!(raw.moves.is_empty());
}

#[test]
fn parse_info_line_refuses_incomplete_lines() {
    assert!(parse_info_line("info depth 20 score cp 35 pv e2e4").is_none());
    assert!(parse_info_line("info depth 20 multipv 1 pv e2e4").is_none());
    assert!(parse_info_line("info depth 20 multipv 1 score cp 35").is_none());
    assert!(parse_info_line("info depth 20 multipv x score cp 35 pv e2e4").is_none());
    assert!(parse_info_line("info depth 20 multipv 1 score wdl 1 pv e2e4").is_none());
    assert!(parse_info_line("info depth 20 multipv 1 score cp abc pv e2e4").is_none());
    assert!(parse_info_line("info multipv 1 score cp").is_none());
}

#[test]
fn parse_raw_keeps_deepest_line_per_rank() {
    let out = lines(&[
        "info depth 10 multipv 2 score cp 10 pv a2a3",
        "info depth 10 multipv 1 score cp 20 pv e2e4",
        "info string NNUE evaluation enabled",
        "  info depth 11 multipv 1 score cp 25 pv d2d4 d7d5  ",
        "bestmove d2d4 ponder d7d5",
    ]);
    let (best, raw) = parse_raw(&out);
    assert_eq!(best, "d2d4");
    assert_eq!(raw.len(), 2);
    assert_eq!(raw[0].rank, 1);
    assert_eq!(raw[0].score_cp, 25);
    assert_eq!(raw[0].moves, vec!["d2d4", "d7d5"]);
    assert_eq!(raw[1].rank, 2);
    assert_eq!(raw[1].score, "+0.10");
}

#[test]
fn parse_raw_without_best_move_word() {
    let (best, raw) = parse_raw(&lines(&["bestmove"]));
    assert_eq!(best, "");
    assert!(raw.is_empty());
    let (best, raw) = parse_raw(&[]);
    assert_eq!(best, "");
    assert!(raw.is_empty());
}

#[test]
fn number_moves_from_white() {
    let sans = lines(&["e4", "e5", "Nf3"]);
    assert_eq!(number_moves(1, true, &sans), "1. e4 e5 2. Nf3");
    assert_eq!(number_moves(1, true, &Vec::new()), "");
}

#[test]
fn number_moves_from_black() {
    let sans = lines(&["Nc6", "Bb5", "a6"]);
    assert_eq!(number_moves(5, false, &sans), "5...  Nc6 6. Bb5 a6");
    assert_eq!(number_moves(5, false, &Vec::new()), "");
}

#[test]
fn uci_moves_to_san_numbers_the_line() {
    let pos = parse_fen(START).unwrap();
    let san = uci_moves_to_san(&pos, &lines(&["e2e4", "e7e5", "g1f3", "b8c6"])).unwrap();
    assert_eq!(san, "1. e4 e5 2. Nf3 Nc6");
    assert_eq!(uci_moves_to_san(&pos, &[]).unwrap(), "");
}

#[test]
fn uci_moves_to_san_mid_game_black_to_move() {
    let pos =
        parse_fen("rnbqkbnr/pppppppp/8/8/4P3/8/PPPP1PPP/RNBQKBNR b KQkq e3 0 1").unwrap();
    let san = uci_moves_to_san(&pos, &lines(&["e7e5", "g1f3"])).unwrap();
    assert_eq!(san, "1...  e5 2. Nf3");
}

#[test]
fn uci_moves_to_san_errors() {
    let pos = parse_fen(START).unwrap();
    assert_eq!(
        uci_moves_to_san(&pos, &lines(&["e2e4", "zz"])),
        Err("Invalid UCI move 'zz': invalid uci".to_string())
    );
    assert_eq!(
        uci_moves_to_san(&pos, &lines(&["e2e5"])),
        Err("Illegal UCI move 'e2e5': illegal uci".to_string())
    );
}

#[test]
fn uci_to_san_single_names_checks() {
    let pos = parse_fen("4k3/8/8/8/8/8/8/R3K3 w - - 0 1").unwrap();
    assert_eq!(uci_to_san_single(&pos, "a1a8").unwrap(), "Ra8+");
    assert_eq!(
        uci_to_san_single(&pos, "a1b2"),
        Err("Illegal UCI move 'a1b2': illegal uci".to_string())
    );
}

#[test]
fn parse_analysis_converts_lines_to_san() {
    let pos = parse_fen(START).unwrap();
    let out = lines(&[
        "info depth 20 multipv 1 score cp 30 pv e2e4 e7e5",
        "info depth 20 multipv 2 score cp 25 pv d2d4",
        "bestmove e2e4 ponder e7e5",
    ]);
    let (best, pvs) = parse_analysis(&out, &pos).unwrap();
    assert_eq!(best, "e4");
    assert_eq!(pvs.len(), 2);
    assert_eq!(pvs[0].rank, 1);
    assert_eq!(pvs[0].score, "+0.30");
    assert_eq!(pvs[0].moves, "1. e4 e5");
    assert_eq!(pvs[1].moves, "1. d4");
}

#[test]
fn parse_analysis_keeps_unreadable_best_move() {
    let pos = parse_fen(START).unwrap();
    let out = lines(&["info depth 5 multipv 1 score cp 1 pv e2e5", "bestmove e2e5"]);
    let (best, pvs) = parse_analysis(&out, &pos).unwrap();
    assert_eq!(best, "e2e5");
    assert_eq!(pvs[0].moves, "");
}

#[test]
fn parse_fen_errors() {
    let err = parse_fen("not a fen").unwrap_err();
    assert!(err.starts_with("Invalid FEN: "), "{}", err);
    let err = parse_fen("8/8/8/8/8/8/8/8 w - - 0 1").unwrap_err();
    assert!(err.starts_with("Invalid position: illegal position: "), "{}", err);
}

#[test]
fn uci_moves_to_san_uses_the_move_number() {
    let pos = parse_fen("r1bqkbnr/pppp1ppp/2n5/4p3/4P3/5N2/PPPP1PPP/RNBQKB1R w KQkq - 2 12")
        .unwrap();
    let san = uci_moves_to_san(&pos, &lines(&["f1b5", "a7a6", "b5c6"])).unwrap();
    assert_eq!(san, "12. Bb5 a6 13. Bxc6");
}

#[test]
fn parse_analysis_keeps_the_deepest_line() {
    let pos = parse_fen(START).unwrap();
    let out = lines(&[
        "info depth 12 multipv 1 score cp 40 pv d2d4",
        "info depth 10 multipv 1 score cp 20 pv e2e4",
        "bestmove d2d4",
    ]);
    let (best, pvs) = parse_analysis(&out, &pos).unwrap();
    assert_eq!(best, "d4");
    assert_eq!(pvs.len(), 1);
    assert_eq!(pvs[0].score_cp, 40);
    assert_eq!(pvs[0].score, "+0.40");
    assert_eq!(pvs[0].moves, "1. d4");
}

#[test]
fn parse_raw_equal_depth_keeps_the_later_line() {
    let out = lines(&[
        "info depth 12 multipv 1 score cp 40 pv d2d4",
        "info depth 12 multipv 1 score cp 45 pv e2e4",
        "info multipv 2 score cp 5 pv a2a3",
    ]);
    let (_, raw) = parse_raw(&out);
    assert_eq!(raw[0].score_cp, 45);
    assert_eq!(raw[1].score_cp, 5);
}
