use vstd::prelude::*;

use crate::board::{Board, Color, Piece};
use crate::moves::{move_in, playable, position_after, san_at, PvLine};
use crate::chess::{after_move, board_of, board_view, san_text, white_to_move};
use crate::strategy::{analyze_all_strategy, analyze_material, material_text, strategy_of};
use crate::tactics::{detect_all_tactics, push_text, tactics_of, Finding};
use crate::text::{
    centi_string, centi_text, decimal, decimal_string, has_substring, join, join_strings,
    str_contains, str_eq,
};

verus! {

/// Full position report combining tactical and strategic analysis.
#[derive(Clone, Debug)]
pub struct PositionReport {
    /// Material balance summary (e.g. "White is up a knight (+3.00)")
    pub material: String,
    /// Tactical findings (forks, pins, hanging pieces, skewers)
    pub tactics: Vec<String>,
    /// Strategic findings (pawn structure, king safety, piece activity)
    pub strategy: Vec<String>,
    /// One-line summary
    pub summary: String,
}

/// The contents of a report: material, tactics, strategy, summary.
pub type ReportView = (Seq<char>, Seq<Seq<char>>, Seq<Seq<char>>, Seq<char>);

impl DeepView for PositionReport {
    type V = ReportView;

    open spec fn deep_view(&self) -> ReportView {
        (self.material@, self.tactics.deep_view(), self.strategy.deep_view(), self.summary@)
    }
}

/// A snapshot of tactics/strategy changes at a checkpoint along a PV line.
/// Only items that differ from the previous checkpoint (or the original position
/// for the first checkpoint) are included.
#[derive(Clone, Debug)]
pub struct Checkpoint {
    /// How many half-moves into the line this checkpoint is
    pub half_move: usize,
    /// The move (in SAN notation) that led to this checkpoint position
    pub move_san: String,
    /// Material balance at this checkpoint
    pub material: String,
    /// Tactical patterns that appeared since the previous checkpoint
    pub new_tactics: Vec<String>,
    /// Tactical patterns that disappeared since the previous checkpoint
    pub removed_tactics: Vec<String>,
    /// Strategic observations that appeared since the previous checkpoint
    pub new_strategy: Vec<String>,
    /// Strategic observations that disappeared since the previous checkpoint
    pub removed_strategy: Vec<String>,
}

/// Side-by-side comparison of the engine line vs the user line at checkpoints.
#[derive(Clone, Debug)]
pub struct LineComparison {
    pub engine_checkpoints: Vec<Checkpoint>,
    pub user_checkpoints: Vec<Checkpoint>,
}

// ---------------------------------------------------------------------------------------
/// The texts of a list of findings.
pub open spec fn finding_texts(s: Seq<(u8, Seq<char>)>) -> Seq<Seq<char>> {
    s.map_values(|f: (u8, Seq<char>)| f.1)
}

fn texts_of(findings: &Vec<Finding>) -> (r: Vec<String>)
    ensures
        r.deep_view() == finding_texts(findings.deep_view()),
{
    let ghost fv = findings.deep_view();
    let mut out: Vec<String> = Vec::new();
    let mut i: usize = 0;
    while i < findings.len()
        invariant
            fv == findings.deep_view(),
            i <= findings.len(),
            out.deep_view() == finding_texts(fv.take(i as int)),
        decreases findings.len() - i,
    {
        let t = findings[i].text.clone();
        push_text(&mut out, t);
        assert(out.deep_view() =~= finding_texts(fv.take(i as int + 1)));
        i = i + 1;
    }
    assert(fv.take(findings.len() as int) =~= fv);
    out
}

/// The number of the strategic observations below `n` that speak of doubled or isolated
/// pawns.
pub open spec fn pawn_issues_upto(s: Seq<Seq<char>>, n: int) -> nat
    decreases n,
{
    if n <= 0 {
        0
    } else {
        pawn_issues_upto(s, n - 1) + if has_substring(s[n - 1], "doubled"@) || has_substring(
            s[n - 1],
            "isolated"@,
        ) {
            1nat
        } else {
            0nat
        }
    }
}

/// The one-line summary: the material text, then the number of tactical patterns when there
/// are any, then the number of pawn-structure issues when there are any, joined by ". ".
pub open spec fn summary_text(material: Seq<char>, tactics: Seq<Seq<char>>, strategy: Seq<Seq<char>>) -> Seq<char> {
    let n = pawn_issues_upto(strategy, strategy.len() as int);
    let parts = seq![material] + (if tactics.len() > 0 {
        seq![decimal(tactics.len()) + " tactical pattern(s) found"@]
    } else {
        Seq::empty()
    }) + (if n > 0 {
        seq![decimal(n) + " pawn structure issue(s)"@]
    } else {
        Seq::empty()
    });
    join(parts, ". "@)
}

/// Builds a one-line summary from the analysis components.
pub fn build_summary(material: &str, tactics: &[String], strategy: &[String]) -> (r: String)
    ensures
        r@ == summary_text(material@, tactics@.map_values(|t: String| t@), strategy@.map_values(|t: String| t@)),
{
    let ghost sv = strategy@.map_values(|t: String| t@);
    let ghost tv = tactics@.map_values(|t: String| t@);
    let mut parts: Vec<String> = Vec::new();
    push_text(&mut parts, String::from_str(material));
    if tactics.len() > 0 {
        let mut s = decimal_string(tactics.len() as u64);
        s.append(" tactical pattern(s) found");
        push_text(&mut parts, s);
    }
    let mut pawn_issues: usize = 0;
    let mut i: usize = 0;
    while i < strategy.len()
        invariant
            sv == strategy@.map_values(|t: String| t@),
            i <= strategy.len(),
            pawn_issues == pawn_issues_upto(sv, i as int),
            pawn_issues <= i,
        decreases strategy.len() - i,
    {
        let s = strategy[i].as_str();
        assert(s@ == sv[i as int]);
        if str_contains(s, "doubled") || str_contains(s, "isolated") {
            pawn_issues = pawn_issues + 1;
        }
        i = i + 1;
    }
    if pawn_issues > 0 {
        let mut s = decimal_string(pawn_issues as u64);
        s.append(" pawn structure issue(s)");
        push_text(&mut parts, s);
    }
    let ghost parts_spec = seq![material@] + (if tv.len() > 0 {
        seq![decimal(tv.len()) + " tactical pattern(s) found"@]
    } else {
        Seq::empty()
    }) + (if pawn_issues > 0 {
        seq![decimal(pawn_issues as nat) + " pawn structure issue(s)"@]
    } else {
        Seq::empty()
    });
    assert(parts.deep_view() =~= parts_spec);
    join_strings(&parts, ". ")
}

/// The report on a board.
pub open spec fn report_of(b: Seq<Option<Piece>>) -> ReportView {
    let material = material_text(b);
    let tactics = tactics_of(b);
    let strategy = finding_texts(strategy_of(b));
    (material, tactics, strategy, summary_text(material, tactics, strategy))
}

/// Analyzes a board for all tactical and strategic features.
pub fn analyze_board_features(board: &Board) -> (r: PositionReport)
    requires
        board.wf(),
    ensures
        r.deep_view() == report_of(board@),
{
    let material = analyze_material(board);
    let tactics = detect_all_tactics(board);
    let findings = analyze_all_strategy(board);
    let strategy = texts_of(&findings);
    // Build a one-line summary
    let summary = build_summary(material.as_str(), tactics.as_slice(), strategy.as_slice());
    assert(tactics@.map_values(|t: String| t@) =~= tactics.deep_view());
    assert(strategy@.map_values(|t: String| t@) =~= strategy.deep_view());
    PositionReport { material, tactics, strategy, summary }
}

/// Analyzes a position for all tactical and strategic features.
pub fn analyze_position_features(pos: &shakmaty::Chess) -> (r: PositionReport)
    ensures
        r.deep_view() == report_of(board_view(*pos)),
{
    let board = board_of(pos);
    analyze_board_features(&board)
}

// ---------------------------------------------------------------------------------------
/// The items of `b` that do not occur in `a`, in the order of `b`.
pub open spec fn missing_from(a: Seq<Seq<char>>, b: Seq<Seq<char>>) -> Seq<Seq<char>>
    decreases b.len(),
{
    if b.len() == 0 {
        Seq::empty()
    } else {
        missing_from(a, b.drop_last()) + if a.contains(b.last()) {
            Seq::empty()
        } else {
            seq![b.last()]
        }
    }
}

fn holds_text(list: &[String], s: &str) -> (r: bool)
    ensures
        r == list@.map_values(|t: String| t@).contains(s@),
{
    let ghost lv = list@.map_values(|t: String| t@);
    let mut i: usize = 0;
    while i < list.len()
        invariant
            lv == list@.map_values(|t: String| t@),
            i <= list.len(),
            forall|j: int| 0 <= j < i ==> lv[j] != s@,
        decreases list.len() - i,
    {
        if str_eq(list[i].as_str(), s) {
            assert(lv[i as int] == s@);
            return true;
        }
        i = i + 1;
    }
    false
}

fn missing(previous: &[String], current: &[String]) -> (r: Vec<String>)
    ensures
        r.deep_view() == missing_from(
            previous@.map_values(|t: String| t@),
            current@.map_values(|t: String| t@),
        ),
{
    let ghost pv = previous@.map_values(|t: String| t@);
    let ghost cv = current@.map_values(|t: String| t@);
    let mut out: Vec<String> = Vec::new();
    let mut i: usize = 0;
    while i < current.len()
        invariant
            pv == previous@.map_values(|t: String| t@),
            cv == current@.map_values(|t: String| t@),
            i <= current.len(),
            out.deep_view() == missing_from(pv, cv.take(i as int)),
        decreases current.len() - i,
    {
        assert(cv.take(i as int + 1).drop_last() =~= cv.take(i as int));
        let s = current[i].as_str();
        if !holds_text(previous, s) {
            push_text(&mut out, current[i].clone());
        }
        i = i + 1;
    }
    assert(cv.take(current.len() as int) =~= cv);
    out
}

/// Computes items in `current` that are not in `previous`.
pub fn vec_added(previous: &[String], current: &[String]) -> (r: Vec<String>)
    ensures
        r.deep_view() == missing_from(
            previous@.map_values(|t: String| t@),
            current@.map_values(|t: String| t@),
        ),
{
    missing(previous, current)
}

/// Computes items in `previous` that are not in `current`.
pub fn vec_removed(previous: &[String], current: &[String]) -> (r: Vec<String>)
    ensures
        r.deep_view() == missing_from(
            current@.map_values(|t: String| t@),
            previous@.map_values(|t: String| t@),
        ),
{
    missing(current, previous)
}

/// An item is reported missing exactly when it occurs in `b` and not in `a`.
pub proof fn lemma_missing_from_members(a: Seq<Seq<char>>, b: Seq<Seq<char>>, x: Seq<char>)
    ensures
        missing_from(a, b).contains(x) <==> (b.contains(x) && !a.contains(x)),
    decreases b.len(),
{
    if b.len() > 0 {
        lemma_missing_from_members(a, b.drop_last(), x);
        let m = missing_from(a, b.drop_last());
        if b.contains(x) && !a.contains(x) {
            if b.last() == x {
                assert(missing_from(a, b).last() == x);
            } else {
                let k = choose|k: int| 0 <= k < b.len() && b[k] == x;
                assert(b.drop_last()[k] == x);
                let j = choose|j: int| 0 <= j < m.len() && m[j] == x;
                assert(missing_from(a, b)[j] == x);
            }
        }
        if missing_from(a, b).contains(x) {
            let j = choose|j: int| 0 <= j < missing_from(a, b).len() && missing_from(a, b)[j] == x;
            if j < m.len() {
                assert(m[j] == x);
                let k = choose|k: int| 0 <= k < b.drop_last().len() && b.drop_last()[k] == x;
                assert(b[k] == x);
            } else {
                assert(b[b.len() - 1] == x);
            }
        }
    }
}

/// Diffing two observation lists loses nothing: the items of the new list are exactly the
/// old items that were not removed together with the added items, and no added item was
/// there before.
pub proof fn law_diff_reconstructs(previous: Seq<Seq<char>>, current: Seq<Seq<char>>)
    ensures
        current.to_set() == previous.to_set().difference(missing_from(current, previous).to_set()).union(
            missing_from(previous, current).to_set(),
        ),
        forall|x: Seq<char>| #[trigger] missing_from(previous, current).contains(x) ==> !previous.contains(x),
        forall|x: Seq<char>| #[trigger] missing_from(current, previous).contains(x) ==> !current.contains(x),
{
    assert forall|x: Seq<char>| #[trigger] missing_from(previous, current).contains(x) implies !previous.contains(x) by {
        lemma_missing_from_members(previous, current, x);
    }
    assert forall|x: Seq<char>| #[trigger] missing_from(current, previous).contains(x) implies !current.contains(x) by {
        lemma_missing_from_members(current, previous, x);
    }
    assert forall|x: Seq<char>|
        current.to_set().contains(x) == previous.to_set().difference(
            missing_from(current, previous).to_set(),
        ).union(missing_from(previous, current).to_set()).contains(x) by {
        lemma_missing_from_members(previous, current, x);
        lemma_missing_from_members(current, previous, x);
    }
    assert(current.to_set() =~= previous.to_set().difference(missing_from(current, previous).to_set()).union(
        missing_from(previous, current).to_set(),
    ));
}

// ---------------------------------------------------------------------------------------
/// The contents of a checkpoint: half-move number, move, material, new and removed tactics,
/// new and removed strategic observations.
pub type CheckpointView = (
    usize,
    Seq<char>,
    Seq<char>,
    Seq<Seq<char>>,
    Seq<Seq<char>>,
    Seq<Seq<char>>,
    Seq<Seq<char>>,
);

impl DeepView for Checkpoint {
    type V = CheckpointView;

    open spec fn deep_view(&self) -> CheckpointView {
        (
            self.half_move,
            self.move_san@,
            self.material@,
            self.new_tactics.deep_view(),
            self.removed_tactics.deep_view(),
            self.new_strategy.deep_view(),
            self.removed_strategy.deep_view(),
        )
    }
}

/// The texts of a sequence of strings.
pub open spec fn texts(s: Seq<String>) -> Seq<Seq<char>> {
    s.map_values(|t: String| t@)
}

/// Whether checkpoint `c` is the checkpoint `half` half-moves into a line that reached board
/// `b`, diffed against the tactics `pt` and strategic observations `ps` of the position before.
#[verifier::opaque]
pub open spec fn checkpoint_fits(
    c: CheckpointView,
    half: int,
    b: Seq<Option<Piece>>,
    pt: Seq<Seq<char>>,
    ps: Seq<Seq<char>>,
) -> bool {
    let t = tactics_of(b);
    let s = finding_texts(strategy_of(b));
    &&& c.0 == half
    &&& c.2 == material_text(b)
    &&& c.3 == missing_from(pt, t)
    &&& c.4 == missing_from(t, pt)
    &&& c.5 == missing_from(ps, s)
    &&& c.6 == missing_from(s, ps)
}

/// The tactics before the `i`-th checkpoint of a walk through the boards `bs`.
pub open spec fn tactics_before(base: Seq<Seq<char>>, bs: Seq<Seq<Option<Piece>>>, i: int) -> Seq<Seq<char>> {
    if i == 0 {
        base
    } else {
        tactics_of(bs[i - 1])
    }
}

/// The strategic observations before the `i`-th checkpoint of a walk through the boards `bs`.
pub open spec fn strategy_before(base: Seq<Seq<char>>, bs: Seq<Seq<Option<Piece>>>, i: int) -> Seq<Seq<char>> {
    if i == 0 {
        base
    } else {
        finding_texts(strategy_of(bs[i - 1]))
    }
}

/// Whether the walk stops after its `i`-th checkpoint: the minimum number of half-moves is
/// reached and the material is what it was at the checkpoint before, or the hard cap of four
/// more half-moves is reached.
pub open spec fn stops_after(bs: Seq<Seq<Option<Piece>>>, min_moves: int, i: int) -> bool {
    (i + 1 >= min_moves && i >= 1 && material_text(bs[i]) == material_text(bs[i - 1])) || i + 1
        >= min_moves + 4
}

/// Whether the checkpoints `cs` are those of a walk through the boards `bs`, from a position
/// whose tactics and strategic observations are `bt` and `bst`, that stops only where it may.
pub open spec fn walk_fits(
    cs: Seq<CheckpointView>,
    bs: Seq<Seq<Option<Piece>>>,
    bt: Seq<Seq<char>>,
    bst: Seq<Seq<char>>,
    min_moves: int,
) -> bool {
    &&& cs.len() == bs.len()
    &&& forall|i: int|
        0 <= i < cs.len() ==> (#[trigger] bs[i]).len() == 64 && checkpoint_fits(
            cs[i],
            i + 1,
            bs[i],
            tactics_before(bt, bs, i),
            strategy_before(bst, bs, i),
        )
    &&& forall|i: int| 0 <= i < cs.len() - 1 ==> !#[trigger] stops_after(bs, min_moves, i)
}

/// Along a walk, each checkpoint's changes lead from the findings before it to the findings
/// at it: the tactics (and strategic observations) at checkpoint `i` are those before it,
/// less the removed ones, plus the new ones.
pub proof fn law_checkpoints_chain(
    cs: Seq<CheckpointView>,
    bs: Seq<Seq<Option<Piece>>>,
    bt: Seq<Seq<char>>,
    bst: Seq<Seq<char>>,
    min_moves: int,
    i: int,
)
    requires
        walk_fits(cs, bs, bt, bst, min_moves),
        0 <= i < cs.len(),
    ensures
        tactics_before(bt, bs, i + 1).to_set() == tactics_before(bt, bs, i).to_set().difference(
            cs[i].4.to_set(),
        ).union(cs[i].3.to_set()),
        strategy_before(bst, bs, i + 1).to_set() == strategy_before(bst, bs, i).to_set().difference(
            cs[i].6.to_set(),
        ).union(cs[i].5.to_set()),
{
    assert(checkpoint_fits(
        cs[i],
        i + 1,
        bs[i],
        tactics_before(bt, bs, i),
        strategy_before(bst, bs, i),
    ));
    reveal(checkpoint_fits);
    law_diff_reconstructs(tactics_before(bt, bs, i), tactics_of(bs[i]));
    law_diff_reconstructs(strategy_before(bst, bs, i), finding_texts(strategy_of(bs[i])));
}

pub(crate) fn copy_strings(list: &[String]) -> (r: Vec<String>)
    ensures
        r.deep_view() == texts(list@),
{
    let mut out: Vec<String> = Vec::new();
    let mut i: usize = 0;
    while i < list.len()
        invariant
            i <= list.len(),
            out.deep_view() == texts(list@.take(i as int)),
        decreases list.len() - i,
    {
        push_text(&mut out, list[i].clone());
        assert(out.deep_view() =~= texts(list@.take(i as int + 1)));
        i = i + 1;
    }
    assert(list@.take(list.len() as int) =~= list@);
    out
}

/// The checkpoint `half_move` half-moves into a line, at `board`, reached by `move_san`,
/// diffed against the previous tactics and strategy; also returns the board's own tactics,
/// strategy and material for the next checkpoint.
pub fn checkpoint_at(
    board: &Board,
    half_move: usize,
    move_san: String,
    prev_tactics: &Vec<String>,
    prev_strategy: &Vec<String>,
) -> (r: (Checkpoint, Vec<String>, Vec<String>))
    requires
        board.wf(),
    ensures
        checkpoint_fits(
            r.0.deep_view(),
            half_move as int,
            board@,
            prev_tactics.deep_view(),
            prev_strategy.deep_view(),
        ),
        r.0.move_san@ == move_san@,
        r.0.material@ == material_text(board@),
        r.1.deep_view() == tactics_of(board@),
        r.2.deep_view() == finding_texts(strategy_of(board@)),
{
    let material = analyze_material(board);
    let tactics = detect_all_tactics(board);
    let findings = analyze_all_strategy(board);
    let strategy = texts_of(&findings);
    assert(texts(prev_tactics@) =~= prev_tactics.deep_view());
    assert(texts(prev_strategy@) =~= prev_strategy.deep_view());
    assert(texts(tactics@) =~= tactics.deep_view());
    assert(texts(strategy@) =~= strategy.deep_view());
    let new_tactics = vec_added(prev_tactics.as_slice(), tactics.as_slice());
    let removed_tactics = vec_removed(prev_tactics.as_slice(), tactics.as_slice());
    let new_strategy = vec_added(prev_strategy.as_slice(), strategy.as_slice());
    let removed_strategy = vec_removed(prev_strategy.as_slice(), strategy.as_slice());
    proof {
        reveal(checkpoint_fits);
    }
    let cp = Checkpoint {
        half_move,
        move_san,
        material,
        new_tactics,
        removed_tactics,
        new_strategy,
        removed_strategy,
    };
    (cp, tactics, strategy)
}

/// Adding a fitting checkpoint to a walk that has not stopped keeps it a walk.
proof fn lemma_walk_push(
    cs: Seq<CheckpointView>,
    bs: Seq<Seq<Option<Piece>>>,
    bt: Seq<Seq<char>>,
    bst: Seq<Seq<char>>,
    min_moves: int,
    c: CheckpointView,
    b: Seq<Option<Piece>>,
)
    requires
        walk_fits(cs, bs, bt, bst, min_moves),
        b.len() == 64,
        checkpoint_fits(
            c,
            (cs.len() + 1) as int,
            b,
            tactics_before(bt, bs, cs.len() as int),
            strategy_before(bst, bs, cs.len() as int),
        ),
        cs.len() > 0 ==> !stops_after(bs, min_moves, cs.len() - 1),
    ensures
        walk_fits(cs.push(c), bs.push(b), bt, bst, min_moves),
{
    let cs2 = cs.push(c);
    let bs2 = bs.push(b);
    assert forall|k: int| 0 <= k < cs.len() implies tactics_before(bt, bs2, k) == tactics_before(
        bt,
        bs,
        k,
    ) && strategy_before(bst, bs2, k) == strategy_before(bst, bs, k) && stops_after(
        bs2,
        min_moves,
        k,
    ) == stops_after(bs, min_moves, k) by {
        if k > 0 {
            assert(bs2[k - 1] == bs[k - 1]);
        }
        assert(bs2[k] == bs[k]);
    }
    assert forall|k: int| 0 <= k < cs2.len() implies (#[trigger] bs2[k]).len() == 64
        && checkpoint_fits(
        cs2[k],
        k + 1,
        bs2[k],
        tactics_before(bt, bs2, k),
        strategy_before(bst, bs2, k),
    ) by {
        if k < cs.len() {
            assert(cs2[k] == cs[k]);
            assert(bs2[k] == bs[k]);
            assert(bs[k].len() == 64);
        } else {
            assert(cs2[k] == c);
            assert(bs2[k] == b);
            if k > 0 {
                assert(bs2[k - 1] == bs[k - 1]);
            }
        }
    }
    assert forall|k: int| 0 <= k < cs2.len() - 1 implies !#[trigger] stops_after(bs2, min_moves, k) by {
        if k < cs.len() - 1 {
            assert(!stops_after(bs, min_moves, k));
        }
    }
}

/// The boards after each of the first `n` moves of `ms` played from `pos`.
pub open spec fn line_boards(pos: shakmaty::Chess, ms: Seq<Seq<char>>, n: int) -> Seq<
    Seq<Option<Piece>>,
> {
    Seq::new(n as nat, |i: int| board_view(position_after(pos, ms, i + 1)))
}

/// Whether `cs` are the checkpoints of the walk along the moves `ms` from `pos`, from the
/// findings `bt` and `bst` of `pos`: one checkpoint per move played, with the move's notation
/// and the findings at the board after it, going on until the moves run out, a move cannot be
/// played, or the stop rule says so.
pub open spec fn line_walk(
    cs: Seq<CheckpointView>,
    pos: shakmaty::Chess,
    ms: Seq<Seq<char>>,
    bt: Seq<Seq<char>>,
    bst: Seq<Seq<char>>,
    min_moves: int,
) -> bool {
    let n = cs.len() as int;
    &&& n <= ms.len()
    &&& playable(pos, ms, n)
    &&& walk_fits(cs, line_boards(pos, ms, n), bt, bst, min_moves)
    &&& forall|i: int| 0 <= i < n ==> (#[trigger] cs[i]).1 == san_at(pos, ms, i)
    &&& n == ms.len() || move_in(position_after(pos, ms, n), ms[n]) is None || (n > 0
        && stops_after(line_boards(pos, ms, n), min_moves, n - 1))
}

/// The findings at the board after the first `i` moves of a walk from `pos` (before any
/// move, the findings `base` given for `pos`).
pub open spec fn tactics_after(pos: shakmaty::Chess, ms: Seq<Seq<char>>, base: Seq<Seq<char>>, i: int) -> Seq<Seq<char>> {
    if i == 0 {
        base
    } else {
        tactics_of(board_view(position_after(pos, ms, i)))
    }
}

/// The strategic observations at the board after the first `i` moves of a walk from `pos`.
pub open spec fn strategy_after(pos: shakmaty::Chess, ms: Seq<Seq<char>>, base: Seq<Seq<char>>, i: int) -> Seq<Seq<char>> {
    if i == 0 {
        base
    } else {
        finding_texts(strategy_of(board_view(position_after(pos, ms, i))))
    }
}

/// Each checkpoint of a walk is numbered by its half-move, carries the move's notation and
/// the material after it, and lists exactly the tactics and strategic observations that
/// appeared and disappeared with that move.
pub proof fn law_walk_checkpoints(
    cs: Seq<CheckpointView>,
    pos: shakmaty::Chess,
    ms: Seq<Seq<char>>,
    bt: Seq<Seq<char>>,
    bst: Seq<Seq<char>>,
    min_moves: int,
    i: int,
)
    requires
        line_walk(cs, pos, ms, bt, bst, min_moves),
        0 <= i < cs.len(),
    ensures
        cs.len() <= ms.len(),
        cs[i].0 == i + 1,
        cs[i].1 == san_at(pos, ms, i),
        cs[i].2 == material_text(board_view(position_after(pos, ms, i + 1))),
        cs[i].3 == missing_from(tactics_after(pos, ms, bt, i), tactics_after(pos, ms, bt, i + 1)),
        cs[i].4 == missing_from(tactics_after(pos, ms, bt, i + 1), tactics_after(pos, ms, bt, i)),
        cs[i].5 == missing_from(strategy_after(pos, ms, bst, i), strategy_after(pos, ms, bst, i + 1)),
        cs[i].6 == missing_from(strategy_after(pos, ms, bst, i + 1), strategy_after(pos, ms, bst, i)),
{
    let bs = line_boards(pos, ms, cs.len() as int);
    assert(checkpoint_fits(
        cs[i],
        i + 1,
        bs[i],
        tactics_before(bt, bs, i),
        strategy_before(bst, bs, i),
    ));
    reveal(checkpoint_fits);
    assert(bs[i] == board_view(position_after(pos, ms, i + 1)));
    if i > 0 {
        assert(bs[i - 1] == board_view(position_after(pos, ms, i)));
    }
}

/// A walk goes on past its minimum while the material changes: when a walk with `h`
/// checkpoints, fewer than `min_moves + 4`, ends although the next move of the line can be
/// played, then `h` is at least `min_moves` and at least 2, and the material at its last
/// checkpoint is the material at the one before.
pub proof fn law_walk_ends_on_settled_material(
    cs: Seq<CheckpointView>,
    pos: shakmaty::Chess,
    ms: Seq<Seq<char>>,
    bt: Seq<Seq<char>>,
    bst: Seq<Seq<char>>,
    min_moves: int,
)
    requires
        line_walk(cs, pos, ms, bt, bst, min_moves),
        cs.len() < ms.len(),
        move_in(position_after(pos, ms, cs.len() as int), ms[cs.len() as int]) is Some,
        cs.len() < min_moves + 4,
    ensures
        cs.len() >= min_moves,
        cs.len() >= 2,
        cs[cs.len() - 1].2 == cs[cs.len() - 2].2,
{
    let n = cs.len() as int;
    let bs = line_boards(pos, ms, n);
    assert(stops_after(bs, min_moves, n - 1));
    law_walk_checkpoints(cs, pos, ms, bt, bst, min_moves, n - 1);
    law_walk_checkpoints(cs, pos, ms, bt, bst, min_moves, n - 2);
    assert(bs[n - 1] == board_view(position_after(pos, ms, n)));
    assert(bs[n - 2] == board_view(position_after(pos, ms, n - 1)));
}

/// A walk along a line whose first `min_moves` moves can all be played has at least
/// `min_moves` checkpoints.
pub proof fn law_walk_reaches_minimum(
    cs: Seq<CheckpointView>,
    pos: shakmaty::Chess,
    ms: Seq<Seq<char>>,
    bt: Seq<Seq<char>>,
    bst: Seq<Seq<char>>,
    min_moves: int,
)
    requires
        line_walk(cs, pos, ms, bt, bst, min_moves),
        0 <= min_moves <= ms.len(),
        playable(pos, ms, min_moves),
    ensures
        cs.len() >= min_moves,
{
    let n = cs.len() as int;
    if n < min_moves {
        assert(move_in(position_after(pos, ms, n), ms[n]) is Some);
    }
}

/// Walks a PV line, analyzing tactics/strategy diffs at each half-move checkpoint.
/// Walks at least `min_moves`, then continues until material stabilizes.
pub fn analyze_checkpoints(
    pos: &shakmaty::Chess,
    uci_moves: &[String],
    base_tactics: &[String],
    base_strategy: &[String],
    min_moves: usize,
) -> (r: Vec<Checkpoint>)
    requires
        min_moves + 4 <= usize::MAX,
    ensures
        r@.len() <= min_moves + 4,
        line_walk(
            r.deep_view(),
            *pos,
            texts(uci_moves@),
            texts(base_tactics@),
            texts(base_strategy@),
            min_moves as int,
        ),
{
    let mut checkpoints: Vec<Checkpoint> = Vec::new();
    let mut current = crate::chess::chess_clone(pos);
    // Track the previous checkpoint's full analysis for diffing
    let mut prev_tactics = copy_strings(base_tactics);
    let mut prev_strategy = copy_strings(base_strategy);
    let mut prev_material: Option<String> = None;
    let ghost bt = texts(base_tactics@);
    let ghost bst = texts(base_strategy@);
    let ghost ms = texts(uci_moves@);
    let ghost mut bs: Seq<Seq<Option<Piece>>> = Seq::empty();
    assert(checkpoints.deep_view() =~= Seq::<CheckpointView>::empty());
    let max_moves = min_moves + 4;
    let mut i: usize = 0;
    let mut done = false;
    while i < uci_moves.len() && !done
        invariant
            max_moves == min_moves + 4,
            i <= uci_moves@.len(),
            checkpoints@.len() == i,
            bs.len() == i,
            !done ==> i < max_moves,
            i <= max_moves,
            walk_fits(checkpoints.deep_view(), bs, bt, bst, min_moves as int),
            prev_tactics.deep_view() == tactics_before(bt, bs, i as int),
            prev_strategy.deep_view() == strategy_before(bst, bs, i as int),
            i == 0 ==> prev_material is None,
            i > 0 ==> (prev_material matches Some(m) && m@ == material_text(bs[i - 1])),
            !done && i > 0 ==> !stops_after(bs, min_moves as int, i - 1),
            ms == texts(uci_moves@),
            bs == line_boards(*pos, ms, i as int),
            current == position_after(*pos, ms, i as int),
            playable(*pos, ms, i as int),
            forall|j: int| 0 <= j < i ==> (#[trigger] checkpoints.deep_view()[j]).1 == san_at(*pos, ms, j),
            done ==> (i < uci_moves@.len() && move_in(position_after(*pos, ms, i as int), ms[i as int]) is None)
                || (i > 0 && stops_after(bs, min_moves as int, i - 1)),
        decreases (uci_moves.len() - i) * 2 + (if done {
            0int
        } else {
            1int
        }),
    {
        let half_move = i + 1;
        assert(ms[i as int] == uci_moves@[i as int]@);
        match crate::chess::uci_from_str(uci_moves[i].as_str()) {
            Err(_) => {
                done = true;
            },
            Ok(uci) => match crate::chess::uci_to_move(uci, &current) {
                Err(_) => {
                    done = true;
                },
                Ok(m) => {
                    assert(move_in(current, ms[i as int]) == Some(m));
                    let ghost before = current;
                    let move_san = crate::chess::san_and_play(&mut current, m);
                    proof {
                        assert(position_after(*pos, ms, i + 1) == after_move(before, m));
                        assert forall|j: int| 0 <= j < i + 1 implies (#[trigger] move_in(
                            position_after(*pos, ms, j),
                            ms[j],
                        )) is Some by {
                            if j == i {
                                assert(move_in(before, ms[i as int]) == Some(m));
                            }
                        }
                    }
                    let board = board_of(&current);
                    let (cp, tactics, strategy) = checkpoint_at(
                        &board,
                        half_move,
                        move_san,
                        &prev_tactics,
                        &prev_strategy,
                    );
                    // Check if material has stabilized (same as previous checkpoint)
                    let material_stable = match &prev_material {
                        Some(pm) => str_eq(pm.as_str(), cp.material.as_str()),
                        None => false,
                    };
                    let material = cp.material.clone();
                    let ghost old_cps = checkpoints.deep_view();
                    let ghost cpv = cp.deep_view();
                    proof {
                        lemma_walk_push(old_cps, bs, bt, bst, min_moves as int, cpv, board@);
                    }
                    checkpoints.push(cp);
                    assert(checkpoints.deep_view() =~= old_cps.push(cpv));
                    let ghost old_bs = bs;
                    proof {
                        bs = bs.push(board@);
                        assert(bs =~= line_boards(*pos, ms, i + 1));
                        assert(san_at(*pos, ms, i as int) == san_text(before, m));
                        assert(bs[i as int] == board@);
                        assert forall|j: int| 0 <= j < i + 1 implies (#[trigger] checkpoints.deep_view()[j]).1
                            == san_at(*pos, ms, j) by {
                            if j < i {
                                assert(checkpoints.deep_view()[j] == old_cps[j]);
                            }
                        }
                        if i > 0 {
                            assert(bs[i - 1] == old_bs[i - 1]);
                            assert(material_stable == (material_text(old_bs[i - 1]) == material_text(board@)));
                        }
                    }
                    prev_tactics = tactics;
                    prev_strategy = strategy;
                    prev_material = Some(material);
                    i = i + 1;
                    // Stop once we've reached the minimum and material has stabilized,
                    // or when we hit the hard cap to avoid walking long tactical PV lines.
                    if (half_move >= min_moves && material_stable) || half_move >= max_moves {
                        done = true;
                    }
                    assert(done == stops_after(bs, min_moves as int, i - 1));
                },
            },
        }
    }
    checkpoints
}

/// Compares the engine's best line and the user's line by walking both
/// and analyzing tactics/strategy diffs at each half-move checkpoint.
/// Walks at least 6 half-moves, then continues until material stabilizes.
/// `base_tactics` and `base_strategy` come from the original position's analysis.
pub fn compare_lines(
    pos: &shakmaty::Chess,
    engine_uci: &[String],
    user_uci: &[String],
    base_tactics: &[String],
    base_strategy: &[String],
) -> (r: LineComparison)
    ensures
        r.engine_checkpoints@.len() <= 10,
        r.user_checkpoints@.len() <= 10,
        line_walk(
            r.engine_checkpoints.deep_view(),
            *pos,
            texts(engine_uci@),
            texts(base_tactics@),
            texts(base_strategy@),
            6,
        ),
        line_walk(
            r.user_checkpoints.deep_view(),
            *pos,
            texts(user_uci@),
            texts(base_tactics@),
            texts(base_strategy@),
            6,
        ),
{
    let min_moves: usize = 6;
    let engine_checkpoints = analyze_checkpoints(
        pos,
        engine_uci,
        base_tactics,
        base_strategy,
        min_moves,
    );
    let user_checkpoints = analyze_checkpoints(pos, user_uci, base_tactics, base_strategy, min_moves);
    LineComparison { engine_checkpoints, user_checkpoints }
}

// ---------------------------------------------------------------------------------------
/// The contents of a comparison: the engine line's checkpoints and the user line's.
pub type ComparisonView = (Seq<CheckpointView>, Seq<CheckpointView>);

impl DeepView for LineComparison {
    type V = ComparisonView;

    open spec fn deep_view(&self) -> ComparisonView {
        (self.engine_checkpoints.deep_view(), self.user_checkpoints.deep_view())
    }
}

/// Each item on a line of its own after `prefix`.
pub open spec fn bullet_lines(prefix: Seq<char>, xs: Seq<Seq<char>>) -> Seq<char>
    decreases xs.len(),
{
    if xs.len() == 0 {
        Seq::empty()
    } else {
        bullet_lines(prefix, xs.drop_last()) + prefix + xs.last() + "\n"@
    }
}

/// The side to move as shakmaty writes it.
pub open spec fn turn_text(c: Color) -> Seq<char> {
    match c {
        Color::White => "white"@,
        Color::Black => "black"@,
    }
}

/// The text of one checkpoint: the move, then its changes (or a note that there are none).
pub open spec fn checkpoint_text(c: CheckpointView) -> Seq<char> {
    let changed = c.3.len() > 0 || c.4.len() > 0 || c.5.len() > 0 || c.6.len() > 0;
    "\nAfter "@ + c.1 + ":\n"@ + (if !changed {
        "  No tactical or strategic changes.\n"@
    } else {
        Seq::empty()
    }) + bullet_lines("  New tactic: "@, c.3) + bullet_lines("  No longer on the board: "@, c.4)
        + bullet_lines("  New observation: "@, c.5) + bullet_lines("  No longer relevant: "@, c.6)
}

/// The texts of a list of checkpoints, one after the other.
pub open spec fn checkpoints_text(cs: Seq<CheckpointView>) -> Seq<char>
    decreases cs.len(),
{
    if cs.len() == 0 {
        Seq::empty()
    } else {
        checkpoints_text(cs.drop_last()) + checkpoint_text(cs.last())
    }
}

/// The verdict on the user's move when the engine's best line is `diff` centipawns better.
pub open spec fn verdict_text(diff: int) -> Seq<char> {
    if -20 < diff < 20 {
        "\nThe user's move is nearly as good as the engine's best.\n"@
    } else if diff > 0 {
        "\nThe user's move loses approximately "@ + centi_text(diff)
            + " pawns worth of evaluation compared to the engine's best.\n"@
    } else {
        "\nThe user's move may be better than expected — verify the position.\n"@
    }
}

/// The header: material and side to move.
pub open spec fn header_text(turn: Color, report: ReportView) -> Seq<char> {
    "=== Chess Position Analysis ===\n\n"@ + "Material: "@ + report.0 + "\n"@ + "Side to move: "@
        + turn_text(turn) + "\n\n"@
}

/// The findings of the starting position, each kind only when there are some.
pub open spec fn findings_text(report: ReportView) -> Seq<char> {
    (if report.1.len() > 0 {
        "Tactical patterns in current position:\n"@ + bullet_lines("- "@, report.1) + "\n"@
    } else {
        Seq::empty()
    }) + (if report.2.len() > 0 {
        "Strategic observations in current position:\n"@ + bullet_lines("- "@, report.2) + "\n"@
    } else {
        Seq::empty()
    })
}

/// The engine's lines (the best, and the second when there is one) and the user's line.
pub open spec fn lines_text(best: Seq<(u32, Seq<char>, i32, Seq<char>)>, user: (u32, Seq<char>, i32, Seq<char>)) -> Seq<char> {
    "Engine's best line (eval "@ + best[0].1 + "): "@ + best[0].3 + "\n"@ + (if best.len() > 1 {
        "Engine's 2nd line (eval "@ + best[1].1 + "): "@ + best[1].3 + "\n"@
    } else {
        Seq::empty()
    }) + "\nUser's move (eval "@ + user.1 + "): "@ + user.3 + "\n"@
}

/// The checkpoint comparison of both lines, when there is one.
pub open spec fn comparison_part(lc: Option<ComparisonView>) -> Seq<char> {
    match lc {
        Some(c) => "\n=== Engine Line Checkpoints ===\n"@ + checkpoints_text(c.0)
            + "\n=== User Line Checkpoints ===\n"@ + checkpoints_text(c.1),
        None => Seq::empty(),
    }
}

/// The closing request to the coach.
pub open spec fn closing_text() -> Seq<char> {
    "\nPlease explain why the engine's move is better (or confirm the user's move is fine). "@
        + "Use the checkpoint analysis to highlight concrete tactical and strategic differences between the two lines. "@
        + "Keep the explanation concise and instructive."@
}

/// The comparison text for a coach.
pub open spec fn comparison_text(
    turn: Color,
    best: Seq<(u32, Seq<char>, i32, Seq<char>)>,
    user: (u32, Seq<char>, i32, Seq<char>),
    report: ReportView,
    lc: Option<ComparisonView>,
) -> Seq<char> {
    header_text(turn, report) + findings_text(report) + lines_text(best, user) + verdict_text(
        best[0].2 - user.2,
    ) + comparison_part(lc) + closing_text()
}

fn append_bullets(text: &mut String, prefix: &str, xs: &Vec<String>)
    ensures
        final(text)@ == old(text)@ + bullet_lines(prefix@, xs.deep_view()),
{
    let ghost start = text@;
    let ghost xv = xs.deep_view();
    let mut i: usize = 0;
    while i < xs.len()
        invariant
            xv == xs.deep_view(),
            i <= xs.len(),
            text@ == start + bullet_lines(prefix@, xv.take(i as int)),
        decreases xs.len() - i,
    {
        assert(xv.take(i as int + 1).drop_last() =~= xv.take(i as int));
        text.append(prefix);
        text.append(xs[i].as_str());
        text.append("\n");
        assert(text@ =~= start + bullet_lines(prefix@, xv.take(i as int + 1)));
        i = i + 1;
    }
    assert(xv.take(xs.len() as int) =~= xv);
}

fn append_checkpoint(text: &mut String, cp: &Checkpoint)
    ensures
        final(text)@ == old(text)@ + checkpoint_text(cp.deep_view()),
{
    let ghost start = text@;
    let has_changes = cp.new_tactics.len() > 0 || cp.removed_tactics.len() > 0
        || cp.new_strategy.len() > 0 || cp.removed_strategy.len() > 0;
    text.append("\nAfter ");
    text.append(cp.move_san.as_str());
    text.append(":\n");
    if !has_changes {
        text.append("  No tactical or strategic changes.\n");
    }
    let ghost mid = text@;
    append_bullets(text, "  New tactic: ", &cp.new_tactics);
    append_bullets(text, "  No longer on the board: ", &cp.removed_tactics);
    append_bullets(text, "  New observation: ", &cp.new_strategy);
    append_bullets(text, "  No longer relevant: ", &cp.removed_strategy);
    let ghost c = cp.deep_view();
    let ghost head = "\nAfter "@ + c.1 + ":\n"@ + (if !has_changes {
        "  No tactical or strategic changes.\n"@
    } else {
        Seq::<char>::empty()
    });
    assert(mid =~= start + head);
    assert(text@ =~= start + checkpoint_text(c));
}

fn append_checkpoints(text: &mut String, cps: &Vec<Checkpoint>)
    ensures
        final(text)@ == old(text)@ + checkpoints_text(cps.deep_view()),
{
    let ghost start = text@;
    let ghost cv = cps.deep_view();
    let mut i: usize = 0;
    while i < cps.len()
        invariant
            cv == cps.deep_view(),
            i <= cps.len(),
            text@ == start + checkpoints_text(cv.take(i as int)),
        decreases cps.len() - i,
    {
        assert(cv.take(i as int + 1).drop_last() =~= cv.take(i as int));
        let ghost before = text@;
        append_checkpoint(text, &cps[i]);
        assert(cv[i as int] == cps@[i as int].deep_view());
        assert(text@ =~= start + checkpoints_text(cv.take(i as int + 1)));
        i = i + 1;
    }
    assert(cv.take(cps.len() as int) =~= cv);
}

fn header_string(turn: Color, report: &PositionReport) -> (r: String)
    ensures
        r@ == header_text(turn, report.deep_view()),
{
    let mut text = String::from_str("=== Chess Position Analysis ===\n\n");
    // Position overview
    text.append("Material: ");
    text.append(report.material.as_str());
    text.append("\n");
    text.append("Side to move: ");
    text.append(
        match turn {
            Color::White => "white",
            Color::Black => "black",
        },
    );
    text.append("\n\n");
    text
}

fn append_findings(text: &mut String, report: &PositionReport)
    ensures
        final(text)@ == old(text)@ + findings_text(report.deep_view()),
{
    let ghost start = text@;
    // Tactical findings in the starting position
    if report.tactics.len() > 0 {
        text.append("Tactical patterns in current position:\n");
        append_bullets(text, "- ", &report.tactics);
        text.append("\n");
    }
    let ghost mid = text@;
    // Strategic findings in the starting position
    if report.strategy.len() > 0 {
        text.append("Strategic observations in current position:\n");
        append_bullets(text, "- ", &report.strategy);
        text.append("\n");
    }
    assert(text@ =~= start + findings_text(report.deep_view()));
}

#[verifier::spinoff_prover]
#[verifier::rlimit(40)]
fn append_lines(text: &mut String, best_lines: &[PvLine], user: &PvLine)
    requires
        best_lines@.len() > 0,
    ensures
        final(text)@ == old(text)@ + lines_text(
            best_lines@.map_values(|l: PvLine| l.deep_view()),
            user.deep_view(),
        ),
{
    let ghost start = text@;
    let ghost bv = best_lines@.map_values(|l: PvLine| l.deep_view());
    let engine_best = &best_lines[0];
    // Engine's best line
    text.append("Engine's best line (eval ");
    text.append(engine_best.score.as_str());
    text.append("): ");
    text.append(engine_best.moves.as_str());
    text.append("\n");
    // Second engine line if available
    if best_lines.len() > 1 {
        let second = &best_lines[1];
        text.append("Engine's 2nd line (eval ");
        text.append(second.score.as_str());
        text.append("): ");
        text.append(second.moves.as_str());
        text.append("\n");
    }
    // User's line
    text.append("\nUser's move (eval ");
    text.append(user.score.as_str());
    text.append("): ");
    text.append(user.moves.as_str());
    text.append("\n");
    assert(bv[0] == engine_best.deep_view());
    assert(best_lines.len() > 1 ==> bv[1] == best_lines@[1].deep_view());
    assert(text@ =~= start + lines_text(bv, user.deep_view()));
}

fn append_verdict(text: &mut String, engine_cp: i32, user_cp: i32)
    requires
        -2147483647 <= engine_cp - user_cp <= 2147483647,
    ensures
        final(text)@ == old(text)@ + verdict_text(engine_cp - user_cp),
{
    // Score comparison
    let diff = engine_cp - user_cp;
    if diff > -20 && diff < 20 {
        text.append("\nThe user's move is nearly as good as the engine's best.\n");
    } else if diff > 0 {
        let ghost start = text@;
        text.append("\nThe user's move loses approximately ");
        let d = centi_string(diff as i64);
        text.append(d.as_str());
        text.append(" pawns worth of evaluation compared to the engine's best.\n");
        assert(text@ =~= start + verdict_text(engine_cp - user_cp));
    } else {
        text.append("\nThe user's move may be better than expected — verify the position.\n");
    }
}

fn append_comparison(text: &mut String, line_comparison: Option<&LineComparison>)
    ensures
        final(text)@ == old(text)@ + comparison_part(
            match line_comparison {
                Some(c) => Some(c.deep_view()),
                None => None,
            },
        ),
{
    let ghost start = text@;
    // Checkpoint-by-checkpoint comparison along both lines (diffs only)
    match line_comparison {
        Some(lc) => {
            text.append("\n=== Engine Line Checkpoints ===\n");
            append_checkpoints(text, &lc.engine_checkpoints);
            text.append("\n=== User Line Checkpoints ===\n");
            append_checkpoints(text, &lc.user_checkpoints);
            assert(text@ =~= start + comparison_part(Some(lc.deep_view())));
        },
        None => {
            assert(text@ =~= start + comparison_part(None));
        },
    }
}

fn append_closing(text: &mut String)
    ensures
        final(text)@ == old(text)@ + closing_text(),
{
    let ghost start = text@;
    text.append(
        "\nPlease explain why the engine's move is better (or confirm the user's move is fine). ",
    );
    text.append(
        "Use the checkpoint analysis to highlight concrete tactical and strategic differences between the two lines. ",
    );
    text.append("Keep the explanation concise and instructive.");
    assert(text@ =~= start + closing_text());
}

/// The text comparing the engine's lines and the user's line, with White (`turn`) or Black
/// to move.
pub fn comparison_text_for(
    turn: Color,
    best_lines: &[PvLine],
    user: &PvLine,
    report: &PositionReport,
    line_comparison: Option<&LineComparison>,
) -> (r: String)
    requires
        best_lines@.len() > 0,
        -2147483647 <= best_lines@[0].score_cp - user.score_cp <= 2147483647,
    ensures
        r@ == comparison_text(
            turn,
            best_lines@.map_values(|l: PvLine| l.deep_view()),
            user.deep_view(),
            report.deep_view(),
            match line_comparison {
                Some(c) => Some(c.deep_view()),
                None => None,
            },
        ),
{
    let ghost bv = best_lines@.map_values(|l: PvLine| l.deep_view());
    let mut text = header_string(turn, report);
    append_findings(&mut text, report);
    append_lines(&mut text, best_lines, user);
    assert(bv[0].2 == best_lines@[0].score_cp);
    append_verdict(&mut text, best_lines[0].score_cp, user.score_cp);
    append_comparison(&mut text, line_comparison);
    append_closing(&mut text);
    text
}

/// The side to move in a position.
pub open spec fn turn_color(pos: shakmaty::Chess) -> Color {
    if white_to_move(pos) {
        Color::White
    } else {
        Color::Black
    }
}

/// Generates comparison text between the engine's best line and the user's line.
/// Includes checkpoint-by-checkpoint tactical/strategic analysis of both lines.
/// This text is suitable for sending to an LLM for natural-language coaching.
pub fn generate_comparison_text(
    pos: &shakmaty::Chess,
    best_lines: &[PvLine],
    user_line: Option<&PvLine>,
    report: &PositionReport,
    line_comparison: Option<&LineComparison>,
) -> (r: Option<String>)
    requires
        user_line is Some && best_lines@.len() > 0 ==> -2147483647 <= best_lines@[0].score_cp
            - user_line->Some_0.score_cp <= 2147483647,
    ensures
        r is None <==> (user_line is None || best_lines@.len() == 0),
        r matches Some(t) ==> t@ == comparison_text(
            turn_color(*pos),
            best_lines@.map_values(|l: PvLine| l.deep_view()),
            user_line->Some_0.deep_view(),
            report.deep_view(),
            match line_comparison {
                Some(c) => Some(c.deep_view()),
                None => None,
            },
        ),
{
    let user = match user_line {
        Some(u) => u,
        None => {
            return None;
        },
    };
    if best_lines.len() == 0 {
        return None;
    }
    let turn = crate::chess::side_to_move(pos);
    assert(turn == turn_color(*pos));
    Some(comparison_text_for(turn, best_lines, user, report, line_comparison))
}

/// In the comparison text, the engine's checkpoints, in order, follow the engine heading, and
/// the user's checkpoints, in order, follow the user heading, just before the closing request.
pub proof fn law_comparison_sections(
    turn: Color,
    best: Seq<(u32, Seq<char>, i32, Seq<char>)>,
    user: (u32, Seq<char>, i32, Seq<char>),
    report: ReportView,
    engine: Seq<CheckpointView>,
    users: Seq<CheckpointView>,
)
    ensures
        exists|head: Seq<char>|
            comparison_text(turn, best, user, report, Some((engine, users))) == #[trigger] (head
                + "\n=== Engine Line Checkpoints ===\n"@) + checkpoints_text(engine)
                + "\n=== User Line Checkpoints ===\n"@ + checkpoints_text(users) + closing_text(),
{
    let head = header_text(turn, report) + findings_text(report) + lines_text(best, user)
        + verdict_text(best[0].2 - user.2);
    assert(comparison_text(turn, best, user, report, Some((engine, users))) =~= (head
        + "\n=== Engine Line Checkpoints ===\n"@) + checkpoints_text(engine)
        + "\n=== User Line Checkpoints ===\n"@ + checkpoints_text(users) + closing_text());
}

} // verus!
