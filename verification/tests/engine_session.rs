use chess_coach::chess::parse_fen;
use chess_coach::engine::{
    build_result, AnalysisResult, AnalysisSession, EngineAction, EngineEvent, LineReader, Stage,
    StepEvent,
};

const START: &str = "rnbqkbnr/pppppppp/8/8/8/8/PPPPPPPP/RNBQKBNR w KQkq - 0 1";
const AFTER_E4: &str = "rnbqkbnr/pppppppp/8/8/4P3/8/PPPP1PPP/RNBQKBNR b KQkq e3 0 1";

fn strings(texts: &[&str]) -> Vec<String> {
    texts.iter().map(|t| t.to_string()).collect()
}

/// Runs a session against canned engine output; returns the commands written and the outcome.
fn drive(
    mut session: AnalysisSession,
    outputs: &[Vec<String>],
) -> (Vec<String>, Vec<String>, Result<AnalysisResult, String>) {
    let mut commands = Vec::new();
    let mut markers = Vec::new();
    let mut next_output = 0;
    loop {
        match session.action() {
            EngineAction::Write { command, .. } => {
                commands.push(command);
                session.advance(StepEvent::Written);
            }
            EngineAction::ReadUntil { marker } => {
                markers.push(marker.clone());
                let out = if marker == "bestmove" {
                    let o = outputs[next_output].clone();
                    next_output += 1;
                    o
                } else {
                    vec![marker]
                };
                session.advance(StepEvent::Output(out));
            }
            EngineAction::Finish => break,
        }
    }
    (commands, markers, session.outcome())
}

#[test]
fn line_reader_stops_at_marker() {
    let mut reader = LineReader::new("uciok");
    assert!(reader.on_event(EngineEvent::Stdout("id name Stockfish".to_string())).is_none());
    assert!(reader.on_event(EngineEvent::Other).is_none());
    assert!(reader.on_event(EngineEvent::Stdout("option name Hash".to_string())).is_none());
    let done = reader.on_event(EngineEvent::Stdout("uciok".to_string()));
    assert_eq!(done, Some(Ok(strings(&["id name Stockfish", "option name Hash", "uciok"]))));
}

#[test]
fn line_reader_marker_is_a_prefix() {
    let mut reader = LineReader::new("bestmove");
    let done = reader.on_event(EngineEvent::Stdout("bestmove e2e4 ponder e7e5".to_string()));
    assert_eq!(done, Some(Ok(strings(&["bestmove e2e4 ponder e7e5"]))));
    let mut reader = LineReader::new("bestmove");
    assert!(reader.on_event(EngineEvent::Stdout(" bestmove e2e4".to_string())).is_none());
}

#[test]
fn line_reader_errors() {
    let mut reader = LineReader::new("readyok");
    assert_eq!(
        reader.on_event(EngineEvent::Error("pipe closed".to_string())),
        Some(Err("Stockfish error: pipe closed".to_string()))
    );
    assert_eq!(
        reader.on_event(EngineEvent::Terminated("exit status: 1".to_string())),
        Some(Err("Stockfish terminated unexpectedly: exit status: 1".to_string()))
    );
    assert_eq!(
        reader.on_event(EngineEvent::Closed),
        Some(Err("Stockfish channel closed unexpectedly".to_string()))
    );
}

#[test]
fn full_session_with_user_move() {
    let session = AnalysisSession::start(START.to_string(), Some("e2e4".to_string()), false).unwrap();
    assert_eq!(session.stage, Stage::SendUci);
    let engine_out = strings(&[
        "info depth 20 multipv 1 score cp 30 pv e2e4 e7e5",
        "info depth 20 multipv 2 score cp 20 pv d2d4 d7d5",
        "bestmove e2e4 ponder e7e5",
    ]);
    let user_out = strings(&["info depth 20 multipv 1 score cp -25 pv e7e5 g1f3", "bestmove e7e5"]);
    let (commands, markers, outcome) = drive(session, &[engine_out, user_out]);
    assert_eq!(
        commands,
        strings(&[
            "uci\n",
            "setoption name MultiPV value 2\n",
            "isready\n",
            &format!("position fen {}\n", START),
            "go depth 20\n",
            "setoption name MultiPV value 1\n",
            &format!("position fen {} moves e2e4\n", START),
            "go depth 20\n",
            "setoption name MultiPV value 2\n",
        ])
    );
    assert_eq!(markers, strings(&["uciok", "readyok", "bestmove", "bestmove"]));
    let result = outcome.unwrap();
    assert_eq!(result.best_move, "e4");
    assert_eq!(result.lines.len(), 2);
    assert_eq!(result.lines[0].score, "+0.30");
    assert_eq!(result.lines[0].score_cp, 30);
    assert_eq!(result.lines[0].moves, "1. e4 e5");
    assert_eq!(result.lines[1].moves, "1. d4 d5");
    let user = result.user_line.as_ref().unwrap();
    assert_eq!(user.rank, 0);
    assert_eq!(user.score_cp, 25);
    assert_eq!(user.score, "+0.25");
    assert_eq!(user.moves, "1. e4 e5 2. Nf3");
    assert_eq!(result.position_report.material, "Material is equal");
    let cmp = result.line_comparison.as_ref().unwrap();
    assert_eq!(cmp.engine_checkpoints.len(), 2);
    assert_eq!(cmp.user_checkpoints.len(), 3);
    assert_eq!(cmp.user_checkpoints[2].move_san, "Nf3");
    let text = result.comparison_text.as_ref().unwrap();
    assert!(text.starts_with(
        "=== Chess Position Analysis ===\n\nMaterial: Material is equal\nSide to move: white\n\n"
    ));
    assert!(text.contains("Engine's best line (eval +0.30): 1. e4 e5\n"));
    assert!(text.contains("Engine's 2nd line (eval +0.20): 1. d4 d5\n"));
    assert!(text.contains("\nUser's move (eval +0.25): 1. e4 e5 2. Nf3\n"));
    assert!(text.contains("\nThe user's move is nearly as good as the engine's best.\n"));
    assert!(text.ends_with("Keep the explanation concise and instructive."));
}

#[test]
fn ready_engine_without_user_move() {
    let session = AnalysisSession::start(AFTER_E4.to_string(), None, true).unwrap();
    assert_eq!(session.stage, Stage::SendPosition);
    let engine_out = strings(&["info depth 20 multipv 1 score cp 20 pv e7e5", "bestmove e7e5"]);
    let (commands, _, outcome) = drive(session, &[engine_out]);
    assert_eq!(
        commands,
        strings(&[&format!("position fen {}\n", AFTER_E4), "go depth 20\n"])
    );
    let result = outcome.unwrap();
    assert_eq!(result.best_move, "e5");
    assert_eq!(result.lines[0].score_cp, -20);
    assert_eq!(result.lines[0].score, "-0.20");
    assert_eq!(result.lines[0].moves, "1...  e5");
    assert!(result.user_line.is_none());
    assert!(result.line_comparison.is_none());
    assert!(result.comparison_text.is_none());
}

#[test]
fn black_user_move_keeps_engine_score() {
    let pos = parse_fen(AFTER_E4).unwrap();
    let engine_out = strings(&["info depth 20 multipv 1 score cp 20 pv e7e5", "bestmove e7e5"]);
    let user_out = strings(&["info depth 20 multipv 1 score cp 90 pv g1f3", "bestmove g1f3"]);
    let user_move = "a7a6".to_string();
    let result = build_result(&pos, &engine_out, Some(&user_move), &user_out);
    let user = result.user_line.as_ref().unwrap();
    assert_eq!(user.score_cp, 90);
    assert_eq!(user.score, "+0.90");
    assert_eq!(user.moves, "1...  a6 2. Nf3");
    let text = result.comparison_text.as_ref().unwrap();
    assert!(text.contains("Side to move: black\n"));
    assert!(text.contains(
        "\nThe user's move may be better than expected — verify the position.\n"
    ));
}

#[test]
fn losing_user_move_is_measured_in_pawns() {
    let pos = parse_fen(START).unwrap();
    let engine_out = strings(&["info depth 20 multipv 1 score cp 40 pv e2e4", "bestmove e2e4"]);
    let user_out = strings(&["info depth 20 multipv 1 score cp 110 pv e7e5", "bestmove e7e5"]);
    let user_move = "f2f3".to_string();
    let result = build_result(&pos, &engine_out, Some(&user_move), &user_out);
    assert_eq!(result.user_line.as_ref().unwrap().score_cp, -110);
    let text = result.comparison_text.as_ref().unwrap();
    assert!(text.contains(
        "\nThe user's move loses approximately 1.50 pawns worth of evaluation compared to the engine's best.\n"
    ));
}

#[test]
fn user_move_without_engine_reply() {
    let pos = parse_fen(START).unwrap();
    let engine_out = strings(&["info depth 20 multipv 1 score cp 40 pv e2e4", "bestmove e2e4"]);
    let user_move = "e2e4".to_string();
    let result = build_result(&pos, &engine_out, Some(&user_move), &strings(&["bestmove (none)"]));
    assert!(result.user_line.is_none());
    assert!(result.line_comparison.is_none());
    assert!(result.comparison_text.is_none());
}

#[test]
fn write_failure_ends_the_session() {
    let mut session = AnalysisSession::start(START.to_string(), None, false).unwrap();
    session.advance(StepEvent::WriteFailed("broken pipe".to_string()));
    assert_eq!(session.stage, Stage::Finished);
    assert!(matches!(session.action(), EngineAction::Finish));
    assert_eq!(session.outcome().unwrap_err(), "Failed to send uci: broken pipe");
}

#[test]
fn restore_failure_is_reported() {
    let mut session = AnalysisSession::start(START.to_string(), Some("e2e4".to_string()), true).unwrap();
    for _ in 0..2 {
        session.advance(StepEvent::Written);
    }
    session.advance(StepEvent::Output(strings(&["bestmove e2e4"])));
    for _ in 0..3 {
        session.advance(StepEvent::Written);
    }
    session.advance(StepEvent::Output(strings(&["bestmove e7e5"])));
    assert_eq!(session.stage, Stage::RestoreTwoLines);
    session.advance(StepEvent::WriteFailed("gone".to_string()));
    assert_eq!(session.outcome().unwrap_err(), "Failed to reset MultiPV: gone");
}

#[test]
fn read_failure_ends_the_session() {
    let mut session = AnalysisSession::start(START.to_string(), None, false).unwrap();
    session.advance(StepEvent::Written);
    session.advance(StepEvent::ReadFailed("Stockfish channel closed unexpectedly".to_string()));
    assert_eq!(session.outcome().unwrap_err(), "Stockfish channel closed unexpectedly");
}

#[test]
fn events_out_of_turn_change_nothing() {
    let mut session = AnalysisSession::start(START.to_string(), None, false).unwrap();
    session.advance(StepEvent::Output(strings(&["uciok"])));
    assert_eq!(session.stage, Stage::SendUci);
    session.advance(StepEvent::Written);
    assert_eq!(session.stage, Stage::AwaitUciOk);
    session.advance(StepEvent::Written);
    assert_eq!(session.stage, Stage::AwaitUciOk);
    assert!(!session.engine_ready);
}

#[test]
fn handshake_marks_the_engine_ready() {
    let mut session = AnalysisSession::start(START.to_string(), None, false).unwrap();
    session.advance(StepEvent::Written);
    session.advance(StepEvent::Output(strings(&["uciok"])));
    session.advance(StepEvent::Written);
    session.advance(StepEvent::Written);
    assert!(!session.engine_ready);
    session.advance(StepEvent::Output(strings(&["readyok"])));
    assert!(session.engine_ready);
    assert_eq!(session.stage, Stage::SendPosition);
}

#[test]
fn invalid_fen_is_refused() {
    let err = AnalysisSession::start("garbage".to_string(), None, false).err().unwrap();
    assert!(err.starts_with("Invalid FEN: "), "{}", err);
}
