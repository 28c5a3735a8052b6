use vstd::prelude::*;

use crate::analysis::{
    analyze_position_features, compare_lines, comparison_text, copy_strings,
    generate_comparison_text, line_walk, report_of, texts, turn_color, LineComparison,
    PositionReport,
};
use crate::board::{Color, Piece};
use crate::chess::{board_view, fen_result, fen_result_view, parse_fen, side_to_move, white_to_move};
use crate::moves::{
    best_move_text, best_upto, deepest_per_rank, format_score, line_texts, parse_analysis,
    parse_raw, parsed_upto, san_line_text, score_text, uci_moves_to_san, PvLine, RawView,
};
use crate::text::starts_with;

verus! {

// ---------------------------------------------------------------------------------------
// Reading engine output up to a marker line.
/// What the engine process reports while it is read.
#[derive(Debug)]
pub enum EngineEvent {
    /// A line the engine wrote on its standard output.
    Stdout(String),
    /// An error reading from the engine, with its message.
    Error(String),
    /// The engine stopped; the text describes its exit status.
    Terminated(String),
    /// Anything else (such as a line on standard error), which is skipped.
    Other,
    /// No more events will come.
    Closed,
}

/// Collects engine output lines until a line starts with `marker`.
#[derive(Debug)]
pub struct LineReader {
    pub marker: String,
    pub lines: Vec<String>,
}

/// The texts of a list of strings.
pub open spec fn line_views(lines: Seq<String>) -> Seq<Seq<char>> {
    lines.map_values(|l: String| l@)
}

impl LineReader {
    /// No line collected so far starts with the marker.
    pub open spec fn wf(&self) -> bool {
        forall|k: int|
            0 <= k < self.lines@.len() ==> !self.marker@.is_prefix_of(#[trigger] self.lines@[k]@)
    }

    /// A reader for the lines up to the first one that starts with `marker`.
    pub fn new(marker: &str) -> (r: LineReader)
        ensures
            r.marker@ == marker@,
            r.lines@.len() == 0,
            r.wf(),
    {
        LineReader { marker: String::from_str(marker), lines: Vec::new() }
    }

    /// Takes one event. Returns nothing while more lines are needed; the collected lines,
    /// the marker line last, once a line starts with the marker; or the error that ends the
    /// reading.
    pub fn on_event(&mut self, event: EngineEvent) -> (r: Option<Result<Vec<String>, String>>)
        requires
            old(self).wf(),
        ensures
            final(self).wf(),
            final(self).marker@ == old(self).marker@,
            match event {
                EngineEvent::Stdout(line) => if old(self).marker@.is_prefix_of(line@) {
                    r matches Some(Ok(v)) && line_views(v@) == line_views(old(self).lines@).push(
                        line@,
                    ) && final(self).lines@.len() == 0
                } else {
                    r is None && line_views(final(self).lines@) == line_views(
                        old(self).lines@,
                    ).push(line@)
                },
                EngineEvent::Error(e) => r matches Some(Err(m)) && m@ == "Stockfish error: "@
                    + e@,
                EngineEvent::Terminated(s) => r matches Some(Err(m)) && m@
                    == "Stockfish terminated unexpectedly: "@ + s@,
                EngineEvent::Other => r is None && final(self).lines@ == old(self).lines@,
                EngineEvent::Closed => r matches Some(Err(m)) && m@
                    == "Stockfish channel closed unexpectedly"@,
            },
    {
        match event {
            EngineEvent::Stdout(line) => {
                let is_marker = starts_with(line.as_str(), self.marker.as_str());
                let ghost before = self.lines@;
                self.lines.push(line);
                assert(line_views(self.lines@) =~= line_views(before).push(line@));
                if is_marker {
                    let mut out: Vec<String> = Vec::new();
                    std::mem::swap(&mut out, &mut self.lines);
                    Some(Ok(out))
                } else {
                    None
                }
            },
            EngineEvent::Error(e) => {
                let mut m = String::from_str("Stockfish error: ");
                m.append(e.as_str());
                Some(Err(m))
            },
            EngineEvent::Terminated(s) => {
                let mut m = String::from_str("Stockfish terminated unexpectedly: ");
                m.append(s.as_str());
                Some(Err(m))
            },
            EngineEvent::Other => None,
            EngineEvent::Closed => Some(Err(String::from_str("Stockfish channel closed unexpectedly"))),
        }
    }
}

// ---------------------------------------------------------------------------------------
// The exchange with the engine for one analysis.
/// Where an analysis stands in its exchange with the engine.
#[derive(Clone, Copy, Debug, PartialEq, Eq, Structural)]
pub enum Stage {
    SendUci,
    AwaitUciOk,
    SetTwoLines,
    SendIsReady,
    AwaitReadyOk,
    SendPosition,
    SendGo,
    AwaitBestMove,
    SetOneLine,
    SendUserPosition,
    SendUserGo,
    AwaitUserBestMove,
    RestoreTwoLines,
    Finished,
}

/// What the engine driver is to do next.
#[derive(Debug)]
pub enum EngineAction {
    /// Write `command` to the engine; if that fails, the analysis fails with `context`, a
    /// colon and the write error.
    Write { command: String, context: String },
    /// Read engine output until a line starts with `marker` (see `LineReader`).
    ReadUntil { marker: String },
    /// The exchange is over.
    Finish,
}

/// What came of the last action.
#[derive(Debug)]
pub enum StepEvent {
    /// The command was written.
    Written,
    /// Writing the command failed with this error.
    WriteFailed(String),
    /// The lines read, the marker line last.
    Output(Vec<String>),
    /// Reading failed with this error.
    ReadFailed(String),
}

/// The first stage of an analysis: the handshake for an engine not yet initialized, else the
/// position.
pub open spec fn first_stage(engine_ready: bool) -> Stage {
    if engine_ready {
        Stage::SendPosition
    } else {
        Stage::SendUci
    }
}

/// The stage after `s` went well; the user's move, if there is one, is analysed after the
/// engine's own lines.
pub open spec fn next_stage(s: Stage, has_user_move: bool) -> Stage {
    match s {
        Stage::SendUci => Stage::AwaitUciOk,
        Stage::AwaitUciOk => Stage::SetTwoLines,
        Stage::SetTwoLines => Stage::SendIsReady,
        Stage::SendIsReady => Stage::AwaitReadyOk,
        Stage::AwaitReadyOk => Stage::SendPosition,
        Stage::SendPosition => Stage::SendGo,
        Stage::SendGo => Stage::AwaitBestMove,
        Stage::AwaitBestMove => if has_user_move {
            Stage::SetOneLine
        } else {
            Stage::Finished
        },
        Stage::SetOneLine => Stage::SendUserPosition,
        Stage::SendUserPosition => Stage::SendUserGo,
        Stage::SendUserGo => Stage::AwaitUserBestMove,
        Stage::AwaitUserBestMove => Stage::RestoreTwoLines,
        Stage::RestoreTwoLines => Stage::Finished,
        Stage::Finished => Stage::Finished,
    }
}

/// How many stages at most are left from `s`.
pub open spec fn stages_left(s: Stage) -> nat {
    match s {
        Stage::SendUci => 13,
        Stage::AwaitUciOk => 12,
        Stage::SetTwoLines => 11,
        Stage::SendIsReady => 10,
        Stage::AwaitReadyOk => 9,
        Stage::SendPosition => 8,
        Stage::SendGo => 7,
        Stage::AwaitBestMove => 6,
        Stage::SetOneLine => 5,
        Stage::SendUserPosition => 4,
        Stage::SendUserGo => 3,
        Stage::AwaitUserBestMove => 2,
        Stage::RestoreTwoLines => 1,
        Stage::Finished => 0,
    }
}

/// Whether stage `s` writes a command.
pub open spec fn writes(s: Stage) -> bool {
    matches!(s, Stage::SendUci | Stage::SetTwoLines | Stage::SendIsReady | Stage::SendPosition
        | Stage::SendGo | Stage::SetOneLine | Stage::SendUserPosition | Stage::SendUserGo
        | Stage::RestoreTwoLines)
}

/// Whether stage `s` reads output.
pub open spec fn reads(s: Stage) -> bool {
    matches!(s, Stage::AwaitUciOk | Stage::AwaitReadyOk | Stage::AwaitBestMove
        | Stage::AwaitUserBestMove)
}

/// The command a writing stage sends, for the position `fen` and the user's move `mv`.
pub open spec fn stage_command(s: Stage, fen: Seq<char>, mv: Seq<char>) -> Seq<char> {
    match s {
        Stage::SendUci => "uci\n"@,
        Stage::SetTwoLines => "setoption name MultiPV value 2\n"@,
        Stage::SendIsReady => "isready\n"@,
        Stage::SendPosition => "position fen "@ + fen + "\n"@,
        Stage::SendGo => "go depth 20\n"@,
        Stage::SetOneLine => "setoption name MultiPV value 1\n"@,
        Stage::SendUserPosition => "position fen "@ + fen + " moves "@ + mv + "\n"@,
        Stage::SendUserGo => "go depth 20\n"@,
        Stage::RestoreTwoLines => "setoption name MultiPV value 2\n"@,
        _ => Seq::empty(),
    }
}

/// What a failed write of stage `s` is reported as, before the write error.
pub open spec fn stage_context(s: Stage) -> Seq<char> {
    match s {
        Stage::SendUci => "Failed to send uci"@,
        Stage::SetTwoLines => "Failed to set MultiPV"@,
        Stage::SendIsReady => "Failed to send isready"@,
        Stage::SendPosition => "Failed to send position"@,
        Stage::SendGo => "Failed to send go"@,
        Stage::SetOneLine => "Failed to set MultiPV"@,
        Stage::SendUserPosition => "Failed to send position"@,
        Stage::SendUserGo => "Failed to send go"@,
        Stage::RestoreTwoLines => "Failed to reset MultiPV"@,
        _ => Seq::empty(),
    }
}

/// The marker line a reading stage waits for.
pub open spec fn stage_marker(s: Stage) -> Seq<char> {
    match s {
        Stage::AwaitUciOk => "uciok"@,
        Stage::AwaitReadyOk => "readyok"@,
        Stage::AwaitBestMove => "bestmove"@,
        Stage::AwaitUserBestMove => "bestmove"@,
        _ => Seq::empty(),
    }
}

/// The text of the user's move, or nothing.
pub open spec fn move_text(m: Option<String>) -> Seq<char> {
    match m {
        Some(u) => u@,
        None => Seq::empty(),
    }
}

/// The commands written from stage `s` on when every step goes well.
pub open spec fn run_commands(s: Stage, fen: Seq<char>, mv: Seq<char>, has_user_move: bool) -> Seq<
    Seq<char>,
>
    decreases stages_left(s),
{
    if s == Stage::Finished {
        Seq::empty()
    } else {
        (if writes(s) {
            seq![stage_command(s, fen, mv)]
        } else {
            Seq::empty()
        }) + run_commands(next_stage(s, has_user_move), fen, mv, has_user_move)
    }
}

/// The commands of a whole analysis: the handshake when the engine is not yet initialized,
/// the engine's search of the position, and, for a user's move, a single-line search after
/// it, after which the engine is set back to two lines.
pub open spec fn analysis_script(
    engine_ready: bool,
    fen: Seq<char>,
    mv: Seq<char>,
    has_user_move: bool,
) -> Seq<Seq<char>> {
    (if engine_ready {
        Seq::empty()
    } else {
        seq!["uci\n"@, "setoption name MultiPV value 2\n"@, "isready\n"@]
    }) + seq!["position fen "@ + fen + "\n"@, "go depth 20\n"@] + (if has_user_move {
        seq![
            "setoption name MultiPV value 1\n"@,
            "position fen "@ + fen + " moves "@ + mv + "\n"@,
            "go depth 20\n"@,
            "setoption name MultiPV value 2\n"@,
        ]
    } else {
        Seq::empty()
    })
}

/// An analysis in which every step goes well writes exactly the commands of its script.
pub proof fn law_run_follows_script(
    engine_ready: bool,
    fen: Seq<char>,
    mv: Seq<char>,
    has_user_move: bool,
)
    ensures
        run_commands(first_stage(engine_ready), fen, mv, has_user_move) == analysis_script(
            engine_ready,
            fen,
            mv,
            has_user_move,
        ),
{
    reveal_with_fuel(run_commands, 14);
    let tail = if has_user_move {
        seq![
            "setoption name MultiPV value 1\n"@,
            "position fen "@ + fen + " moves "@ + mv + "\n"@,
            "go depth 20\n"@,
            "setoption name MultiPV value 2\n"@,
        ]
    } else {
        Seq::<Seq<char>>::empty()
    };
    assert(run_commands(Stage::AwaitBestMove, fen, mv, has_user_move) =~= tail);
    assert(run_commands(Stage::SendPosition, fen, mv, has_user_move) =~= seq![
        "position fen "@ + fen + "\n"@,
        "go depth 20\n"@,
    ] + tail);
    if !engine_ready {
        assert(run_commands(Stage::SendUci, fen, mv, has_user_move) =~= seq![
            "uci\n"@,
            "setoption name MultiPV value 2\n"@,
            "isready\n"@,
        ] + run_commands(Stage::SendPosition, fen, mv, has_user_move));
    } else {
        assert(run_commands(Stage::SendPosition, fen, mv, has_user_move) =~= Seq::empty()
            + run_commands(Stage::SendPosition, fen, mv, has_user_move));
    }
}

/// The exchange with the engine for one analysis of the position `fen`, and of the user's
/// move in it if there is one.
pub struct AnalysisSession {
    pub stage: Stage,
    pub fen: String,
    pub user_move: Option<String>,
    /// Whether the engine has done its handshake.
    pub engine_ready: bool,
    pub pos: shakmaty::Chess,
    /// The engine's output for the position.
    pub engine_output: Vec<String>,
    /// The engine's output after the user's move.
    pub user_output: Vec<String>,
    /// Why the exchange failed, if it did.
    pub failure: Option<String>,
}

/// The full analysis result.
#[derive(Clone, Debug)]
pub struct AnalysisResult {
    pub best_move: String,
    pub lines: Vec<PvLine>,
    /// If the user provided a move, this is the engine's best continuation after it
    pub user_line: Option<PvLine>,
    /// Tactical and strategic analysis of the current position
    pub position_report: PositionReport,
    /// LLM-ready comparison text (present when user_move is provided)
    pub comparison_text: Option<String>,
    /// Checkpoint-by-checkpoint comparison of engine vs user lines
    pub line_comparison: Option<LineComparison>,
}

/// The score seen from the other side (the lowest `i32` has no opposite and stays as it is).
pub open spec fn flip(cp: i32) -> i32 {
    if cp == i32::MIN {
        cp
    } else {
        (-cp) as i32
    }
}

fn negate_score(cp: i32) -> (r: i32)
    ensures
        r == flip(cp),
{
    if cp == i32::MIN {
        cp
    } else {
        -cp
    }
}

/// Whether `lines` are the engine's lines `raw` for `pos`, with their scores seen from White:
/// as they are with White to move, else negated and written anew; their moves are numbered
/// lines in notation.
pub open spec fn engine_lines_fit(pos: shakmaty::Chess, lines: Seq<PvLine>, raw: Seq<RawView>) -> bool {
    let white = white_to_move(pos);
    lines.len() == raw.len() && forall|i: int|
        0 <= i < raw.len() ==> (#[trigger] lines[i]).rank == raw[i].0 && lines[i].score_cp == (
        if white {
            raw[i].2
        } else {
            flip(raw[i].2)
        }) && lines[i].score@ == (if white {
            raw[i].1
        } else {
            score_text(flip(raw[i].2) as int)
        }) && lines[i].moves@ == san_line_text(pos, raw[i].3)
}

/// The moves of the user's line: the user's move `mv` and the engine's first line after it.
pub open spec fn user_moves(mv: Seq<char>, uraw: Seq<RawView>) -> Seq<Seq<char>> {
    seq![mv] + uraw[0].3
}

/// Whether `user_line` is the engine's first line `uraw` after the user's move `mv` in `pos`,
/// of rank 0, with its score seen from White: the engine then speaks for the other side, so
/// the score is negated when White made the move; its moves are the numbered line of the
/// user's move and the engine's reply.
pub open spec fn user_line_fits(
    pos: shakmaty::Chess,
    user_line: Option<PvLine>,
    mv: Seq<char>,
    uraw: Seq<RawView>,
) -> bool {
    if uraw.len() == 0 {
        user_line is None
    } else {
        user_line matches Some(l) && l.rank == 0 && l.score_cp == (if white_to_move(pos) {
            flip(uraw[0].2)
        } else {
            uraw[0].2
        }) && l.score@ == score_text(l.score_cp as int) && l.moves@ == san_line_text(
            pos,
            user_moves(mv, uraw),
        )
    }
}

/// Whether the user's score and the best score differ by an amount an `i32` holds.
pub open spec fn scores_comparable(lines: Seq<PvLine>, user_line: Option<PvLine>) -> bool {
    match user_line {
        Some(u) => lines.len() > 0 ==> -2147483647 <= lines[0].score_cp - u.score_cp
            <= 2147483647,
        None => true,
    }
}

/// The moves of the engine's first line, or none.
pub open spec fn first_line_moves(raw: Seq<RawView>) -> Seq<Seq<char>> {
    if raw.len() > 0 {
        raw[0].3
    } else {
        Seq::empty()
    }
}

/// Whether the checkpoints of `lc` are the walks of `compare_lines` from `pos` along the
/// engine's moves `em` and the user's moves `um`, from the findings of `report`.
pub open spec fn comparison_fits(
    lc: LineComparison,
    pos: shakmaty::Chess,
    em: Seq<Seq<char>>,
    um: Seq<Seq<char>>,
    report: PositionReport,
) -> bool {
    &&& lc.engine_checkpoints@.len() <= 10
    &&& lc.user_checkpoints@.len() <= 10
    &&& line_walk(
        lc.engine_checkpoints.deep_view(),
        pos,
        em,
        texts(report.tactics@),
        texts(report.strategy@),
        6,
    )
    &&& line_walk(
        lc.user_checkpoints.deep_view(),
        pos,
        um,
        texts(report.tactics@),
        texts(report.strategy@),
        6,
    )
}

/// Whether the lines of `res` come from the engine outputs for `pos`, where `raw` and `uraw`
/// are the deepest line of each rank of the two outputs.
pub open spec fn outputs_fit(
    res: AnalysisResult,
    pos: shakmaty::Chess,
    engine_output: Seq<Seq<char>>,
    user_output: Seq<Seq<char>>,
    user_move: Option<Seq<char>>,
    raw: Seq<RawView>,
    uraw: Seq<RawView>,
) -> bool {
    &&& deepest_per_rank(parsed_upto(engine_output, engine_output.len() as int), raw)
    &&& engine_lines_fit(pos, res.lines@, raw)
    &&& res.best_move@ == best_move_text(pos, best_upto(engine_output, engine_output.len() as int))
    &&& match user_move {
        Some(mv) => {
            &&& deepest_per_rank(parsed_upto(user_output, user_output.len() as int), uraw)
            &&& user_line_fits(pos, res.user_line, mv, uraw)
            &&& res.line_comparison matches Some(lc) ==> comparison_fits(
                lc,
                pos,
                first_line_moves(raw),
                user_moves(mv, uraw),
                res.position_report,
            )
        },
        None => res.user_line is None,
    }
}

/// The text of the user's move, if there is one.
pub open spec fn move_view(m: Option<&String>) -> Option<Seq<char>> {
    match m {
        Some(u) => Some(u@),
        None => None,
    }
}

/// The text of an optional move.
pub open spec fn opt_text(m: Option<String>) -> Option<Seq<char>> {
    match m {
        Some(u) => Some(u@),
        None => None,
    }
}

/// What an analysis result holds for the position `pos`, given the engine's output for the
/// position and, when the user gave a move, after that move.
pub open spec fn result_fits(
    res: AnalysisResult,
    pos: shakmaty::Chess,
    engine_output: Seq<Seq<char>>,
    user_output: Seq<Seq<char>>,
    user_move: Option<Seq<char>>,
) -> bool {
    &&& exists|raw: Seq<RawView>, uraw: Seq<RawView>|
        #[trigger] outputs_fit(res, pos, engine_output, user_output, user_move, raw, uraw)
    &&& res.position_report.deep_view() == report_of(board_view(pos))
    &&& res.line_comparison is Some <==> res.user_line is Some
    &&& res.comparison_text is None <==> (res.user_line is None || res.lines@.len() == 0
        || !scores_comparable(res.lines@, res.user_line))
    &&& res.comparison_text matches Some(t) ==> t@ == comparison_text(
        turn_color(pos),
        res.lines@.map_values(|l: PvLine| l.deep_view()),
        res.user_line->Some_0.deep_view(),
        res.position_report.deep_view(),
        match res.line_comparison {
            Some(c) => Some(c.deep_view()),
            None => None,
        },
    )
}

fn flip_lines(lines: &Vec<PvLine>) -> (r: Vec<PvLine>)
    ensures
        r@.len() == lines@.len(),
        forall|i: int|
            0 <= i < lines@.len() ==> (#[trigger] r@[i]).rank == lines@[i].rank && r@[i].score_cp
                == flip(lines@[i].score_cp) && r@[i].score@ == score_text(
                flip(lines@[i].score_cp) as int,
            ) && r@[i].moves@ == lines@[i].moves@,
{
    let mut out: Vec<PvLine> = Vec::new();
    let mut i: usize = 0;
    while i < lines.len()
        invariant
            i <= lines@.len(),
            out@.len() == i,
            forall|k: int|
                0 <= k < i ==> (#[trigger] out@[k]).rank == lines@[k].rank && out@[k].score_cp
                    == flip(lines@[k].score_cp) && out@[k].score@ == score_text(
                    flip(lines@[k].score_cp) as int,
                ) && out@[k].moves@ == lines@[k].moves@,
        decreases lines.len() - i,
    {
        let cp = negate_score(lines[i].score_cp);
        out.push(
            PvLine {
                rank: lines[i].rank,
                score: format_score(cp),
                score_cp: cp,
                moves: lines[i].moves.clone(),
            },
        );
        i = i + 1;
    }
    out
}

/// Builds the analysis result from the engine's output for the position `pos` and, when the
/// user gave a move, the engine's output after it: the engine's lines and the user's line
/// in SAN with scores seen from White, the position report, the checkpoint comparison of the
/// two lines and the comparison text. The comparison text is left out when the two scores
/// differ by more than an `i32` holds.
pub fn build_result(
    pos: &shakmaty::Chess,
    engine_output: &[String],
    user_move: Option<&String>,
    user_output: &[String],
) -> (res: AnalysisResult)
    ensures
        result_fits(
            res,
            *pos,
            line_texts(engine_output@),
            line_texts(user_output@),
            move_view(user_move),
        ),
{
    let ghost eo = line_texts(engine_output@);
    let ghost uo = line_texts(user_output@);
    let (_, engine_raw) = parse_raw(engine_output);
    let ghost raw2 = engine_raw.deep_view();
    let (best_move, parsed) = match parse_analysis(engine_output, pos) {
        Ok(x) => x,
        Err(_) => {
            proof {
                assert(false);
            }
            (String::new(), Vec::new())
        },
    };
    let ghost raw = choose|raw: Seq<RawView>|
        #[trigger] deepest_per_rank(parsed_upto(eo, eo.len() as int), raw)
            && crate::moves::lines_follow(*pos, parsed@, raw);
    let white = side_to_move(pos) == Color::White;
    let lines = if white {
        parsed
    } else {
        flip_lines(&parsed)
    };
    assert(engine_lines_fit(*pos, lines@, raw));
    proof {
        crate::moves::law_deepest_list_is_determined(parsed_upto(eo, eo.len() as int), raw, raw2);
    }
    let mut user_line: Option<PvLine> = None;
    let mut user_uci: Vec<String> = Vec::new();
    let ghost mut uraw: Seq<RawView> = Seq::empty();
    match user_move {
        Some(u) => {
            let (_, user_raw) = parse_raw(user_output);
            proof {
                uraw = user_raw.deep_view();
            }
            if user_raw.len() > 0 {
                let first = &user_raw[0];
                user_uci = copy_strings(first.moves.as_slice());
                let ghost tail = user_uci.deep_view();
                user_uci.insert(0, u.clone());
                assert(user_uci.deep_view() =~= seq![u@] + tail);
                assert(first.moves.deep_view() =~= texts(first.moves@));
                assert(line_texts(user_uci@) =~= user_moves(u@, uraw));
                let san = match uci_moves_to_san(pos, user_uci.as_slice()) {
                    Ok(s) => s,
                    Err(_) => String::new(),
                };
                let cp = if white {
                    negate_score(first.score_cp)
                } else {
                    first.score_cp
                };
                user_line = Some(PvLine { rank: 0, score: format_score(cp), score_cp: cp, moves: san });
            }
        },
        None => {},
    }
    assert(user_line is Some <==> user_uci@.len() > 0);
    let position_report = analyze_position_features(pos);
    let line_comparison = if user_move.is_some() && user_uci.len() > 0 {
        let engine_uci = if engine_raw.len() > 0 {
            copy_strings(engine_raw[0].moves.as_slice())
        } else {
            Vec::new()
        };
        assert(texts(engine_uci@) =~= first_line_moves(raw2)) by {
            if engine_raw.len() > 0 {
                assert(engine_raw[0].moves.deep_view() =~= texts(engine_raw[0].moves@));
            }
        }
        assert(texts(user_uci@) =~= line_texts(user_uci@));
        Some(
            compare_lines(
                pos,
                engine_uci.as_slice(),
                user_uci.as_slice(),
                position_report.tactics.as_slice(),
                position_report.strategy.as_slice(),
            ),
        )
    } else {
        None
    };
    let comparable = match &user_line {
        Some(ul) => {
            if lines.len() > 0 {
                let d = (lines[0].score_cp as i64) - (ul.score_cp as i64);
                -2147483647 <= d && d <= 2147483647
            } else {
                true
            }
        },
        None => true,
    };
    assert(comparable == scores_comparable(lines@, user_line));
    let comparison_text = if comparable {
        generate_comparison_text(
            pos,
            lines.as_slice(),
            user_line.as_ref(),
            &position_report,
            line_comparison.as_ref(),
        )
    } else {
        None
    };
    let res = AnalysisResult {
        best_move,
        lines,
        user_line,
        position_report,
        comparison_text,
        line_comparison,
    };
    assert(outputs_fit(res, *pos, eo, uo, move_view(user_move), raw, uraw));
    res
}

impl AnalysisSession {
    /// Starts the analysis of `fen` (and of `user_move` in it) with an engine that has
    /// (`engine_ready`) or has not done its handshake; fails as `parse_fen` does on a FEN it
    /// refuses.
    pub fn start(fen: String, user_move: Option<String>, engine_ready: bool) -> (r: Result<
        AnalysisSession,
        String,
    >)
        ensures
            fen_result(fen@) matches Err(e) ==> (r matches Err(e2) && e2@ == e),
            fen_result(fen@) matches Ok(p) ==> (r matches Ok(s) && s.pos == p),
            r matches Ok(s) ==> s.stage == first_stage(engine_ready) && s.fen@ == fen@
                && move_text(s.user_move) == move_text(user_move) && (s.user_move is Some
                <==> user_move is Some) && s.engine_ready == engine_ready
                && s.engine_output@.len() == 0 && s.user_output@.len() == 0 && s.failure is None,
    {
        let pos = match parse_fen(fen.as_str()) {
            Ok(p) => p,
            Err(e) => {
                return Err(e);
            },
        };
        let stage = if engine_ready {
            Stage::SendPosition
        } else {
            Stage::SendUci
        };
        Ok(
            AnalysisSession {
                stage,
                fen,
                user_move,
                engine_ready,
                pos,
                engine_output: Vec::new(),
                user_output: Vec::new(),
                failure: None,
            },
        )
    }

    /// What to do at the current stage.
    pub fn action(&self) -> (r: EngineAction)
        ensures
            writes(self.stage) ==> (r matches EngineAction::Write { command, context } && command@
                == stage_command(self.stage, self.fen@, move_text(self.user_move)) && context@
                == stage_context(self.stage)),
            reads(self.stage) ==> (r matches EngineAction::ReadUntil { marker } && marker@
                == stage_marker(self.stage)),
            self.stage == Stage::Finished ==> r is Finish,
    {
        match self.stage {
            Stage::SendUci => EngineAction::Write {
                command: String::from_str("uci\n"),
                context: String::from_str("Failed to send uci"),
            },
            Stage::AwaitUciOk => EngineAction::ReadUntil { marker: String::from_str("uciok") },
            Stage::SetTwoLines => EngineAction::Write {
                command: String::from_str("setoption name MultiPV value 2\n"),
                context: String::from_str("Failed to set MultiPV"),
            },
            Stage::SendIsReady => EngineAction::Write {
                command: String::from_str("isready\n"),
                context: String::from_str("Failed to send isready"),
            },
            Stage::AwaitReadyOk => EngineAction::ReadUntil {
                marker: String::from_str("readyok"),
            },
            Stage::SendPosition => {
                let mut command = String::from_str("position fen ");
                command.append(self.fen.as_str());
                command.append("\n");
                EngineAction::Write { command, context: String::from_str("Failed to send position") }
            },
            Stage::SendGo => EngineAction::Write {
                command: String::from_str("go depth 20\n"),
                context: String::from_str("Failed to send go"),
            },
            Stage::AwaitBestMove => EngineAction::ReadUntil {
                marker: String::from_str("bestmove"),
            },
            Stage::SetOneLine => EngineAction::Write {
                command: String::from_str("setoption name MultiPV value 1\n"),
                context: String::from_str("Failed to set MultiPV"),
            },
            Stage::SendUserPosition => {
                let mut command = String::from_str("position fen ");
                command.append(self.fen.as_str());
                command.append(" moves ");
                match &self.user_move {
                    Some(m) => command.append(m.as_str()),
                    None => {},
                }
                command.append("\n");
                EngineAction::Write { command, context: String::from_str("Failed to send position") }
            },
            Stage::SendUserGo => EngineAction::Write {
                command: String::from_str("go depth 20\n"),
                context: String::from_str("Failed to send go"),
            },
            Stage::AwaitUserBestMove => EngineAction::ReadUntil {
                marker: String::from_str("bestmove"),
            },
            Stage::RestoreTwoLines => EngineAction::Write {
                command: String::from_str("setoption name MultiPV value 2\n"),
                context: String::from_str("Failed to reset MultiPV"),
            },
            Stage::Finished => EngineAction::Finish,
        }
    }

    /// Takes what came of the current action. A finished write or read moves on to the next
    /// stage, keeping the output of the searches; a failed one ends the exchange with its
    /// error. An event that does not answer the current action changes nothing.
    pub fn advance(&mut self, event: StepEvent)
        ensures
            final(self).fen == old(self).fen,
            final(self).user_move == old(self).user_move,
            final(self).pos == old(self).pos,
            match event {
                StepEvent::Written => if writes(old(self).stage) {
                    final(self).stage == next_stage(old(self).stage, old(self).user_move is Some)
                        && final(self).engine_ready == old(self).engine_ready
                        && final(self).engine_output == old(self).engine_output
                        && final(self).user_output == old(self).user_output
                        && final(self).failure == old(self).failure
                } else {
                    *final(self) == *old(self)
                },
                StepEvent::WriteFailed(e) => if writes(old(self).stage) {
                    final(self).stage == Stage::Finished && (final(self).failure matches Some(f)
                        && f@ == stage_context(old(self).stage) + ": "@ + e@)
                        && final(self).engine_ready == old(self).engine_ready
                        && final(self).engine_output == old(self).engine_output
                        && final(self).user_output == old(self).user_output
                } else {
                    *final(self) == *old(self)
                },
                StepEvent::Output(lines) => if reads(old(self).stage) {
                    final(self).stage == next_stage(old(self).stage, old(self).user_move is Some)
                        && final(self).failure == old(self).failure
                        && final(self).engine_ready == (old(self).engine_ready || old(self).stage
                        == Stage::AwaitReadyOk) && (if old(self).stage == Stage::AwaitBestMove {
                        final(self).engine_output == lines
                    } else {
                        final(self).engine_output == old(self).engine_output
                    }) && (if old(self).stage == Stage::AwaitUserBestMove {
                        final(self).user_output == lines
                    } else {
                        final(self).user_output == old(self).user_output
                    })
                } else {
                    *final(self) == *old(self)
                },
                StepEvent::ReadFailed(e) => if reads(old(self).stage) {
                    final(self).stage == Stage::Finished && (final(self).failure matches Some(f)
                        && f@ == e@)
                        && final(self).engine_ready == old(self).engine_ready
                        && final(self).engine_output == old(self).engine_output
                        && final(self).user_output == old(self).user_output
                } else {
                    *final(self) == *old(self)
                },
            },
    {
        let has_user_move = self.user_move.is_some();
        let stage = self.stage;
        let is_write = match stage {
            Stage::SendUci | Stage::SetTwoLines | Stage::SendIsReady | Stage::SendPosition
            | Stage::SendGo | Stage::SetOneLine | Stage::SendUserPosition | Stage::SendUserGo
            | Stage::RestoreTwoLines => true,
            _ => false,
        };
        let is_read = match stage {
            Stage::AwaitUciOk | Stage::AwaitReadyOk | Stage::AwaitBestMove
            | Stage::AwaitUserBestMove => true,
            _ => false,
        };
        match event {
            StepEvent::Written => {
                if is_write {
                    self.stage = Self::following(stage, has_user_move);
                }
            },
            StepEvent::WriteFailed(e) => {
                if is_write {
                    let mut msg = Self::context_text(stage);
                    msg.append(": ");
                    msg.append(e.as_str());
                    self.failure = Some(msg);
                    self.stage = Stage::Finished;
                }
            },
            StepEvent::Output(lines) => {
                if is_read {
                    if stage == Stage::AwaitReadyOk {
                        self.engine_ready = true;
                    }
                    if stage == Stage::AwaitBestMove {
                        self.engine_output = lines;
                    } else if stage == Stage::AwaitUserBestMove {
                        self.user_output = lines;
                    }
                    self.stage = Self::following(stage, has_user_move);
                }
            },
            StepEvent::ReadFailed(e) => {
                if is_read {
                    self.failure = Some(e);
                    self.stage = Stage::Finished;
                }
            },
        }
    }

    /// The result of a finished exchange: its failure, or the result built from the engine's
    /// output.
    pub fn outcome(self) -> (r: Result<AnalysisResult, String>)
        requires
            self.stage == Stage::Finished,
        ensures
            self.failure matches Some(f) ==> (r matches Err(e) && e@ == f@),
            self.failure is None ==> (r matches Ok(res) && result_fits(
                res,
                self.pos,
                line_texts(self.engine_output@),
                line_texts(self.user_output@),
                opt_text(self.user_move),
            )),
    {
        match self.failure {
            Some(f) => Err(f),
            None => Ok(
                build_result(
                    &self.pos,
                    self.engine_output.as_slice(),
                    self.user_move.as_ref(),
                    self.user_output.as_slice(),
                ),
            ),
        }
    }

    fn following(s: Stage, has_user_move: bool) -> (r: Stage)
        ensures
            r == next_stage(s, has_user_move),
    {
        match s {
            Stage::SendUci => Stage::AwaitUciOk,
            Stage::AwaitUciOk => Stage::SetTwoLines,
            Stage::SetTwoLines => Stage::SendIsReady,
            Stage::SendIsReady => Stage::AwaitReadyOk,
            Stage::AwaitReadyOk => Stage::SendPosition,
            Stage::SendPosition => Stage::SendGo,
            Stage::SendGo => Stage::AwaitBestMove,
            Stage::AwaitBestMove => if has_user_move {
                Stage::SetOneLine
            } else {
                Stage::Finished
            },
            Stage::SetOneLine => Stage::SendUserPosition,
            Stage::SendUserPosition => Stage::SendUserGo,
            Stage::SendUserGo => Stage::AwaitUserBestMove,
            Stage::AwaitUserBestMove => Stage::RestoreTwoLines,
            Stage::RestoreTwoLines => Stage::Finished,
            Stage::Finished => Stage::Finished,
        }
    }

    fn context_text(s: Stage) -> (r: String)
        ensures
            r@ == stage_context(s),
    {
        match s {
            Stage::SendUci => String::from_str("Failed to send uci"),
            Stage::SetTwoLines => String::from_str("Failed to set MultiPV"),
            Stage::SendIsReady => String::from_str("Failed to send isready"),
            Stage::SendPosition => String::from_str("Failed to send position"),
            Stage::SendGo => String::from_str("Failed to send go"),
            Stage::SetOneLine => String::from_str("Failed to set MultiPV"),
            Stage::SendUserPosition => String::from_str("Failed to send position"),
            Stage::SendUserGo => String::from_str("Failed to send go"),
            Stage::RestoreTwoLines => String::from_str("Failed to reset MultiPV"),
            _ => String::new(),
        }
    }
}

} // verus!
