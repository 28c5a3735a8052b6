use vstd::prelude::*;

use crate::board::Color;
use crate::chess::{
    after_move, chess_clone, fullmove_number, fullmoves, illegal_uci_text, san_and_play, san_text,
    side_to_move, uci_from_str, uci_parse, uci_parse_error_text, uci_readable, uci_to_legal,
    uci_to_move, white_to_move,
};
use crate::tactics::push_text;
use crate::text::{
    decimal, decimal_string, find_token, first_index, has_substring, pawns_string, pawns_text,
    parse_i32, parse_i32_text, parse_u32, parse_u32_text, split_whitespace, starts_with,
    str_contains, str_eq, trim, trim_str, ws_tokens,
};

verus! {

/// A single principal variation line returned by Stockfish.
#[derive(Clone, Debug)]
pub struct PvLine {
    pub rank: u32,
    pub score: String,
    pub score_cp: i32,
    pub moves: String,
}

impl DeepView for PvLine {
    type V = (u32, Seq<char>, i32, Seq<char>);

    open spec fn deep_view(&self) -> (u32, Seq<char>, i32, Seq<char>) {
        (self.rank, self.score@, self.score_cp, self.moves@)
    }
}

/// Internal struct for raw Stockfish output before SAN conversion.
#[derive(Clone, Debug)]
pub struct RawPvLine {
    pub rank: u32,
    pub score: String,
    pub score_cp: i32,
    pub moves: Vec<String>,
}

/// The contents of a raw line: rank, score text, score in centipawns, moves in UCI notation.
pub type RawView = (u32, Seq<char>, i32, Seq<Seq<char>>);

impl DeepView for RawPvLine {
    type V = RawView;

    open spec fn deep_view(&self) -> RawView {
        (self.rank, self.score@, self.score_cp, self.moves.deep_view())
    }
}

// ---------------------------------------------------------------------------------------
/// The text of an evaluation: "M?" or "-M?" for mate scores (at least 100000 centipawns
/// either way), otherwise the evaluation in pawns with two decimals and a sign ("+0.35").
pub open spec fn score_text(cp: int) -> Seq<char> {
    if cp >= 100000 {
        "M?"@
    } else if cp <= -100000 {
        "-M?"@
    } else {
        pawns_text(cp)
    }
}

/// Formats a centipawn score as a human-readable string.
/// Normal scores: "+0.35", "-1.20". Mate scores (|cp| >= 100000): "M?", "-M?".
pub fn format_score(cp: i32) -> (r: String)
    ensures
        r@ == score_text(cp as int),
{
    if cp >= 100000 || cp <= -100000 {
        if cp > 0 {
            String::from_str("M?")
        } else {
            String::from_str("-M?")
        }
    } else {
        pawns_string(cp as i64)
    }
}

/// The text of a mate score: "M3" for mate in 3 for the side to move, "-M3" against it.
pub open spec fn mate_text(v: int) -> Seq<char> {
    if v > 0 {
        "M"@ + decimal(v as nat)
    } else {
        "-M"@ + decimal((-v) as nat)
    }
}

/// What an engine "info" line holds: the rank after "multipv", the score after "score"
/// ("cp <centipawns>" or "mate <moves>", mate scores counting as plus or minus 100000
/// centipawns), and the moves after "pv"; none when a part is missing or malformed.
pub open spec fn info_fields(line: Seq<char>) -> Option<RawView> {
    let t = ws_tokens(line);
    match (first_index(t, "multipv"@), first_index(t, "score"@), first_index(t, "pv"@)) {
        (Some(m), Some(s), Some(p)) => if m + 1 < t.len() && s + 2 < t.len() {
            match (parse_u32_text(t[m + 1]), parse_i32_text(t[s + 2])) {
                (Some(rank), Some(v)) => {
                    let moves = t.subrange(p + 1, t.len() as int);
                    if t[s + 1] == "cp"@ {
                        Some((rank, pawns_text(v as int), v, moves))
                    } else if t[s + 1] == "mate"@ {
                        Some(
                            (
                                rank,
                                mate_text(v as int),
                                if v > 0 {
                                    100000i32
                                } else {
                                    -100000i32
                                },
                                moves,
                            ),
                        )
                    } else {
                        None
                    }
                },
                _ => None,
            }
        } else {
            None
        },
        _ => None,
    }
}

fn copy_tokens(tokens: &Vec<String>, from: usize) -> (r: Vec<String>)
    requires
        from <= tokens.len(),
    ensures
        r.deep_view() == tokens.deep_view().subrange(from as int, tokens.len() as int),
{
    let mut out: Vec<String> = Vec::new();
    let mut i: usize = from;
    while i < tokens.len()
        invariant
            from <= i <= tokens.len(),
            out.deep_view() == tokens.deep_view().subrange(from as int, i as int),
        decreases tokens.len() - i,
    {
        let t = tokens[i].clone();
        push_text(&mut out, t);
        assert(out.deep_view() =~= tokens.deep_view().subrange(from as int, i + 1));
        i = i + 1;
    }
    out
}

fn mate_string(v: i32) -> (r: String)
    ensures
        r@ == mate_text(v as int),
{
    if v > 0 {
        let mut s = String::from_str("M");
        let d = decimal_string(v as u64);
        s.append(d.as_str());
        s
    } else {
        let mut s = String::from_str("-M");
        let m: u64 = (0i64 - (v as i64)) as u64;
        let d = decimal_string(m);
        s.append(d.as_str());
        s
    }
}

/// Parses a single UCI "info" line into a RawPvLine.
/// Example: "info depth 20 multipv 1 score cp 35 ... pv e2e4 e7e5 ..."
pub fn parse_info_line(line: &str) -> (r: Option<RawPvLine>)
    ensures
        r matches Some(x) ==> info_fields(line@) == Some(x.deep_view()),
        r is None ==> info_fields(line@) is None,
{
    let tokens = split_whitespace(line);
    let ghost t = tokens.deep_view();
    let multipv_idx = match find_token(&tokens, "multipv") {
        Some(i) => i,
        None => {
            return None;
        },
    };
    let score_idx = match find_token(&tokens, "score") {
        Some(i) => i,
        None => {
            return None;
        },
    };
    let pv_idx = match find_token(&tokens, "pv") {
        Some(i) => i,
        None => {
            return None;
        },
    };
    if multipv_idx + 1 >= tokens.len() || score_idx + 1 >= tokens.len() {
        return None;
    }
    if score_idx + 2 >= tokens.len() {
        return None;
    }
    let rank = match parse_u32(tokens[multipv_idx + 1].as_str()) {
        Some(v) => v,
        None => {
            return None;
        },
    };
    let score_value = match parse_i32(tokens[score_idx + 2].as_str()) {
        Some(v) => v,
        None => {
            return None;
        },
    };
    let score_type = tokens[score_idx + 1].as_str();
    assert(score_type@ == t[score_idx + 1]);
    let (score_cp, score_str): (i32, String) = if str_eq(score_type, "cp") {
        (score_value, pawns_string(score_value as i64))
    } else if str_eq(score_type, "mate") {
        let cp: i32 = if score_value > 0 {
            100000
        } else {
            -100000
        };
        (cp, mate_string(score_value))
    } else {
        return None;
    };
    let moves = copy_tokens(&tokens, pv_idx + 1);
    Some(RawPvLine { rank, score: score_str, score_cp, moves })
}

// ---------------------------------------------------------------------------------------
/// The texts of a sequence of strings.
pub open spec fn line_texts(lines: Seq<String>) -> Seq<Seq<char>> {
    lines.map_values(|l: String| l@)
}

/// Whether a (trimmed) engine output line is an "info" line with a principal variation.
pub open spec fn is_info_line(t: Seq<char>) -> bool {
    "info"@.is_prefix_of(t) && has_substring(t, " pv "@)
}

/// Whether a (trimmed) engine output line is the "bestmove" line.
pub open spec fn is_best_line(t: Seq<char>) -> bool {
    "bestmove"@.is_prefix_of(t)
}

/// The search depth an "info" line reports: the number after "depth", or 0 when there is
/// none.
pub open spec fn line_depth(line: Seq<char>) -> u32 {
    let t = ws_tokens(line);
    match first_index(t, "depth"@) {
        Some(d) => if d + 1 < t.len() {
            match parse_u32_text(t[d + 1]) {
                Some(v) => v,
                None => 0,
            }
        } else {
            0
        },
        None => 0,
    }
}

/// The parsed principal variations of the first `n` output lines, in output order, each with
/// the depth its line reports.
pub open spec fn parsed_upto(lines: Seq<Seq<char>>, n: int) -> Seq<(u32, RawView)>
    decreases n,
{
    if n <= 0 {
        Seq::empty()
    } else {
        let t = trim(lines[n - 1]);
        parsed_upto(lines, n - 1) + if is_info_line(t) {
            match info_fields(t) {
                Some(x) => seq![(line_depth(t), x)],
                None => Seq::empty(),
            }
        } else {
            Seq::empty()
        }
    }
}

/// The best move named by the last "bestmove" line among the first `n` lines (its second
/// word, or nothing), or nothing when there is none.
pub open spec fn best_upto(lines: Seq<Seq<char>>, n: int) -> Seq<char>
    decreases n,
{
    if n <= 0 {
        Seq::empty()
    } else {
        let t = trim(lines[n - 1]);
        if !is_info_line(t) && is_best_line(t) {
            let w = ws_tokens(t);
            if w.len() > 1 {
                w[1]
            } else {
                Seq::empty()
            }
        } else {
            best_upto(lines, n - 1)
        }
    }
}

/// Whether entry `k` of `p` is the deepest line of its rank: no line of that rank is deeper,
/// and of the lines as deep, it is the last.
pub open spec fn deepest_entry(p: Seq<(u32, RawView)>, k: int) -> bool {
    0 <= k < p.len() && forall|k2: int|
        0 <= k2 < p.len() && k2 != k && (#[trigger] p[k2]).1.0 == p[k].1.0 ==> (k2 < k ==> p[k2].0
            <= p[k].0) && (k2 > k ==> p[k2].0 < p[k].0)
}

/// Whether `x` is the line of the deepest entry of its rank in `p`.
pub open spec fn deepest_of_rank(p: Seq<(u32, RawView)>, x: RawView) -> bool {
    exists|k: int| #[trigger] deepest_entry(p, k) && p[k].1 == x
}

/// Whether `r` holds, in increasing order of rank, exactly one line per rank of `p`: the
/// deepest line of that rank.
pub open spec fn deepest_per_rank(p: Seq<(u32, RawView)>, r: Seq<RawView>) -> bool {
    &&& forall|i: int, j: int| 0 <= i < j < r.len() ==> (#[trigger] r[i]).0 < (#[trigger] r[j]).0
    &&& forall|i: int| 0 <= i < r.len() ==> deepest_of_rank(p, #[trigger] r[i])
    &&& forall|k: int| 0 <= k < p.len() ==> rank_present(r, (#[trigger] p[k]).1.0)
}

/// Whether some entry of `r` has rank `rank`.
pub open spec fn rank_present(r: Seq<RawView>, rank: u32) -> bool {
    exists|i: int| 0 <= i < r.len() && (#[trigger] r[i]).0 == rank
}

/// Two deepest lines of the same rank are the same line.
proof fn lemma_deepest_same(p: Seq<(u32, RawView)>, x: RawView, y: RawView)
    requires
        deepest_of_rank(p, x),
        deepest_of_rank(p, y),
        x.0 == y.0,
    ensures
        x == y,
{
    let k1 = choose|k: int| #[trigger] deepest_entry(p, k) && p[k].1 == x;
    let k2 = choose|k: int| #[trigger] deepest_entry(p, k) && p[k].1 == y;
    if k1 < k2 {
        assert(p[k2].1.0 == p[k1].1.0);
    } else if k2 < k1 {
        assert(p[k1].1.0 == p[k2].1.0);
    }
}

proof fn lemma_sorted_lines_same(p: Seq<(u32, RawView)>, r1: Seq<RawView>, r2: Seq<RawView>)
    requires
        forall|i: int, j: int| 0 <= i < j < r1.len() ==> (#[trigger] r1[i]).0 < (#[trigger] r1[j]).0,
        forall|i: int, j: int| 0 <= i < j < r2.len() ==> (#[trigger] r2[i]).0 < (#[trigger] r2[j]).0,
        forall|i: int| 0 <= i < r1.len() ==> deepest_of_rank(p, #[trigger] r1[i]),
        forall|i: int| 0 <= i < r2.len() ==> deepest_of_rank(p, #[trigger] r2[i]),
        forall|rank: u32| rank_present(r1, rank) <==> rank_present(r2, rank),
    ensures
        r1 == r2,
    decreases r1.len(),
{
    if r1.len() == 0 {
        if r2.len() > 0 {
            assert(rank_present(r2, r2[0].0));
        }
        assert(r1 =~= r2);
    } else {
        assert(rank_present(r1, r1[0].0));
        assert(r2.len() > 0);
        assert(rank_present(r2, r2[0].0));
        let j2 = choose|i: int| 0 <= i < r2.len() && (#[trigger] r2[i]).0 == r1[0].0;
        let j1 = choose|i: int| 0 <= i < r1.len() && (#[trigger] r1[i]).0 == r2[0].0;
        if j2 > 0 {
            assert(r2[0].0 < r2[j2].0);
        }
        if j1 > 0 {
            assert(r1[0].0 < r1[j1].0);
        }
        assert(r1[0].0 == r2[0].0);
        lemma_deepest_same(p, r1[0], r2[0]);
        let t1 = r1.drop_first();
        let t2 = r2.drop_first();
        assert forall|rank: u32| rank_present(t1, rank) <==> rank_present(t2, rank) by {
            if rank_present(t1, rank) {
                let i = choose|i: int| 0 <= i < t1.len() && (#[trigger] t1[i]).0 == rank;
                assert(r1[i + 1].0 == rank && r1[0].0 < r1[i + 1].0);
                assert(rank_present(r1, rank));
                let j = choose|j: int| 0 <= j < r2.len() && (#[trigger] r2[j]).0 == rank;
                assert(j != 0);
                assert(t2[j - 1].0 == rank);
            }
            if rank_present(t2, rank) {
                let i = choose|i: int| 0 <= i < t2.len() && (#[trigger] t2[i]).0 == rank;
                assert(r2[i + 1].0 == rank && r2[0].0 < r2[i + 1].0);
                assert(rank_present(r2, rank));
                let j = choose|j: int| 0 <= j < r1.len() && (#[trigger] r1[j]).0 == rank;
                assert(j != 0);
                assert(t1[j - 1].0 == rank);
            }
        }
        assert forall|i: int, j: int| 0 <= i < j < t1.len() implies (#[trigger] t1[i]).0 < (
        #[trigger] t1[j]).0 by {
            assert(r1[i + 1].0 < r1[j + 1].0);
        }
        assert forall|i: int, j: int| 0 <= i < j < t2.len() implies (#[trigger] t2[i]).0 < (
        #[trigger] t2[j]).0 by {
            assert(r2[i + 1].0 < r2[j + 1].0);
        }
        assert forall|i: int| 0 <= i < t1.len() implies deepest_of_rank(p, #[trigger] t1[i]) by {
            assert(t1[i] == r1[i + 1]);
        }
        assert forall|i: int| 0 <= i < t2.len() implies deepest_of_rank(p, #[trigger] t2[i]) by {
            assert(t2[i] == r2[i + 1]);
        }
        lemma_sorted_lines_same(p, t1, t2);
        assert(r1 =~= seq![r1[0]] + t1);
        assert(r2 =~= seq![r2[0]] + t2);
    }
}

/// The deepest line of each rank, in rank order, is one list: two lists that both keep the
/// deepest line of each rank of the same output are equal.
pub proof fn law_deepest_list_is_determined(p: Seq<(u32, RawView)>, r1: Seq<RawView>, r2: Seq<RawView>)
    requires
        deepest_per_rank(p, r1),
        deepest_per_rank(p, r2),
    ensures
        r1 == r2,
{
    assert forall|rank: u32| rank_present(r1, rank) <==> rank_present(r2, rank) by {
        if rank_present(r1, rank) {
            let i = choose|i: int| 0 <= i < r1.len() && (#[trigger] r1[i]).0 == rank;
            assert(deepest_of_rank(p, r1[i]));
            let k = choose|k: int| #[trigger] deepest_entry(p, k) && p[k].1 == r1[i];
            assert(rank_present(r2, p[k].1.0));
        }
        if rank_present(r2, rank) {
            let i = choose|i: int| 0 <= i < r2.len() && (#[trigger] r2[i]).0 == rank;
            assert(deepest_of_rank(p, r2[i]));
            let k = choose|k: int| #[trigger] deepest_entry(p, k) && p[k].1 == r2[i];
            assert(rank_present(r1, p[k].1.0));
        }
    }
    lemma_sorted_lines_same(p, r1, r2);
}

/// The kept lines `r` with the depths `ds` of their entries.
spec fn kept_with(p: Seq<(u32, RawView)>, r: Seq<RawView>, ds: Seq<u32>) -> bool {
    &&& ds.len() == r.len()
    &&& forall|i: int, j: int| 0 <= i < j < r.len() ==> (#[trigger] r[i]).0 < (#[trigger] r[j]).0
    &&& forall|i: int|
        #![trigger r[i]]
        0 <= i < r.len() ==> exists|k: int| #[trigger] deepest_entry(p, k) && p[k] == (ds[i], r[i])
    &&& forall|k: int| 0 <= k < p.len() ==> rank_present(r, (#[trigger] p[k]).1.0)
}

proof fn lemma_kept_gives(p: Seq<(u32, RawView)>, r: Seq<RawView>, ds: Seq<u32>)
    requires
        kept_with(p, r, ds),
    ensures
        deepest_per_rank(p, r),
{
    assert forall|i: int| 0 <= i < r.len() implies deepest_of_rank(p, #[trigger] r[i]) by {
        let k = choose|k: int| #[trigger] deepest_entry(p, k) && p[k] == (ds[i], r[i]);
        assert(deepest_entry(p, k) && p[k].1 == r[i]);
    }
}

/// An entry stays the deepest of its rank when a line of another rank, or a shallower line
/// of its rank, comes after it.
proof fn lemma_entry_stays(p: Seq<(u32, RawView)>, y: (u32, RawView), k: int)
    requires
        deepest_entry(p, k),
        y.1.0 != p[k].1.0 || y.0 < p[k].0,
    ensures
        deepest_entry(p.push(y), k),
{
    let p2 = p.push(y);
    assert forall|k2: int|
        0 <= k2 < p2.len() && k2 != k && (#[trigger] p2[k2]).1.0 == p2[k].1.0 implies (k2 < k
        ==> p2[k2].0 <= p2[k].0) && (k2 > k ==> p2[k2].0 < p2[k].0) by {
        if k2 < p.len() {
            assert(p2[k2] == p[k2]);
        }
    }
}

proof fn lemma_kept_skip(p: Seq<(u32, RawView)>, r: Seq<RawView>, ds: Seq<u32>, y: (u32, RawView), j: int)
    requires
        kept_with(p, r, ds),
        0 <= j < r.len(),
        r[j].0 == y.1.0,
        y.0 < ds[j],
    ensures
        kept_with(p.push(y), r, ds),
{
    let p2 = p.push(y);
    assert forall|i: int| #![trigger r[i]] 0 <= i < r.len() implies exists|k: int|
        #[trigger] deepest_entry(p2, k) && p2[k] == (ds[i], r[i]) by {
        let k = choose|k: int| #[trigger] deepest_entry(p, k) && p[k] == (ds[i], r[i]);
        if i != j {
            assert(r[i].0 != r[j].0) by {
                if i < j {
                    assert(r[i].0 < r[j].0);
                } else {
                    assert(r[j].0 < r[i].0);
                }
            }
        }
        lemma_entry_stays(p, y, k);
        assert(p2[k] == p[k]);
    }
    assert forall|k: int| 0 <= k < p2.len() implies rank_present(r, (#[trigger] p2[k]).1.0) by {
        if k == p.len() {
            assert(r[j].0 == p2[k].1.0);
        } else {
            assert(p2[k] == p[k]);
        }
    }
}

proof fn lemma_kept_replace(p: Seq<(u32, RawView)>, r: Seq<RawView>, ds: Seq<u32>, y: (u32, RawView), j: int)
    requires
        kept_with(p, r, ds),
        0 <= j < r.len(),
        r[j].0 == y.1.0,
        y.0 >= ds[j],
    ensures
        kept_with(p.push(y), r.update(j, y.1), ds.update(j, y.0)),
{
    let p2 = p.push(y);
    let r2 = r.update(j, y.1);
    let ds2 = ds.update(j, y.0);
    let n = p.len() as int;
    let k0 = choose|k: int| #[trigger] deepest_entry(p, k) && p[k] == (ds[j], r[j]);
    assert(deepest_entry(p2, n)) by {
        assert forall|k2: int|
            0 <= k2 < p2.len() && k2 != n && (#[trigger] p2[k2]).1.0 == p2[n].1.0 implies (k2 < n
            ==> p2[k2].0 <= p2[n].0) && (k2 > n ==> p2[k2].0 < p2[n].0) by {
            assert(p2[k2] == p[k2]);
            if k2 != k0 {
                assert(p[k2].1.0 == p[k0].1.0);
            }
        }
    }
    assert forall|i: int| #![trigger r2[i]] 0 <= i < r2.len() implies exists|k: int|
        #[trigger] deepest_entry(p2, k) && p2[k] == (ds2[i], r2[i]) by {
        if i == j {
            assert(p2[n] == (ds2[i], r2[i]));
        } else {
            let k = choose|k: int| #[trigger] deepest_entry(p, k) && p[k] == (ds[i], r[i]);
            assert(r[i].0 != r[j].0) by {
                if i < j {
                    assert(r[i].0 < r[j].0);
                } else {
                    assert(r[j].0 < r[i].0);
                }
            }
            lemma_entry_stays(p, y, k);
            assert(p2[k] == p[k]);
        }
    }
    assert forall|k: int| 0 <= k < p2.len() implies rank_present(r2, (#[trigger] p2[k]).1.0) by {
        if k == n {
            assert(r2[j].0 == p2[k].1.0);
        } else {
            assert(p2[k] == p[k]);
            assert(rank_present(r, p[k].1.0));
            let i = choose|i: int| 0 <= i < r.len() && (#[trigger] r[i]).0 == p[k].1.0;
            assert(r2[i].0 == r[i].0);
        }
    }
    assert forall|a: int, b: int| 0 <= a < b < r2.len() implies (#[trigger] r2[a]).0 < (
    #[trigger] r2[b]).0 by {
        assert(r[a].0 < r[b].0);
        assert(r2[a].0 == r[a].0 && r2[b].0 == r[b].0);
    }
}

proof fn lemma_kept_insert(p: Seq<(u32, RawView)>, r: Seq<RawView>, ds: Seq<u32>, y: (u32, RawView), j: int)
    requires
        kept_with(p, r, ds),
        0 <= j <= r.len(),
        forall|i: int| 0 <= i < j ==> (#[trigger] r[i]).0 < y.1.0,
        j < r.len() ==> r[j].0 > y.1.0,
    ensures
        kept_with(p.push(y), r.insert(j, y.1), ds.insert(j, y.0)),
{
    let p2 = p.push(y);
    let r2 = r.insert(j, y.1);
    let ds2 = ds.insert(j, y.0);
    let n = p.len() as int;
    let x = y.1;
    assert forall|i: int| j <= i < r.len() implies (#[trigger] r[i]).0 > x.0 by {
        if i > j {
            assert(r[j].0 < r[i].0);
        }
    }
    assert forall|i: int| 0 <= i < r.len() implies (#[trigger] r[i]).0 != x.0 by {
        if i >= j {
            assert(r[i].0 > x.0);
        }
    }
    assert(deepest_entry(p2, n)) by {
        assert forall|k2: int|
            0 <= k2 < p2.len() && k2 != n && (#[trigger] p2[k2]).1.0 == p2[n].1.0 implies (k2 < n
            ==> p2[k2].0 <= p2[n].0) && (k2 > n ==> p2[k2].0 < p2[n].0) by {
            assert(p2[k2] == p[k2]);
            assert(rank_present(r, p[k2].1.0));
            let i = choose|i: int| 0 <= i < r.len() && (#[trigger] r[i]).0 == p[k2].1.0;
            assert(r[i].0 != x.0);
        }
    }
    assert forall|i: int| #![trigger r2[i]] 0 <= i < r2.len() implies exists|k: int|
        #[trigger] deepest_entry(p2, k) && p2[k] == (ds2[i], r2[i]) by {
        if i == j {
            assert(p2[n] == (ds2[i], r2[i]));
        } else {
            let oi = if i < j {
                i
            } else {
                i - 1
            };
            assert(r2[i] == r[oi] && ds2[i] == ds[oi]);
            let k = choose|k: int| #[trigger] deepest_entry(p, k) && p[k] == (ds[oi], r[oi]);
            assert(r[oi].0 != x.0);
            lemma_entry_stays(p, y, k);
            assert(p2[k] == p[k]);
        }
    }
    assert forall|k: int| 0 <= k < p2.len() implies rank_present(r2, (#[trigger] p2[k]).1.0) by {
        if k == n {
            assert(r2[j].0 == p2[k].1.0);
        } else {
            assert(p2[k] == p[k]);
            assert(rank_present(r, p[k].1.0));
            let i = choose|i: int| 0 <= i < r.len() && (#[trigger] r[i]).0 == p[k].1.0;
            if i < j {
                assert(r2[i] == r[i]);
            } else {
                assert(r2[i + 1] == r[i]);
            }
        }
    }
    assert forall|a: int, b: int| 0 <= a < b < r2.len() implies (#[trigger] r2[a]).0 < (
    #[trigger] r2[b]).0 by {
        if b < j {
            assert(r2[a] == r[a] && r2[b] == r[b]);
            assert(r[a].0 < r[b].0);
        } else if b == j {
            assert(r2[a] == r[a]);
        } else if a < j {
            assert(r2[b] == r[b - 1]);
            assert(r2[a] == r[a]);
        } else if a == j {
            assert(r2[b] == r[b - 1]);
        } else {
            assert(r2[b] == r[b - 1]);
            assert(r2[a] == r[a - 1]);
            assert(r[a - 1].0 < r[b - 1].0);
        }
    }
}

/// Records `x`, read from a line of depth `d`, as the line of its rank unless a deeper line
/// of that rank came before; keeps the lines ordered by rank.
fn record_line(
    best: &mut Vec<RawPvLine>,
    depths: &mut Vec<u32>,
    x: RawPvLine,
    d: u32,
    Ghost(p): Ghost<Seq<(u32, RawView)>>,
)
    requires
        kept_with(p, old(best).deep_view(), old(depths)@),
    ensures
        kept_with(p.push((d, x.deep_view())), final(best).deep_view(), final(depths)@),
{
    let ghost r = best.deep_view();
    let ghost ds = depths@;
    let ghost xv = x.deep_view();
    let mut j: usize = 0;
    while j < best.len() && best[j].rank < x.rank
        invariant
            r == best.deep_view(),
            ds == depths@,
            ds.len() == r.len(),
            xv == x.deep_view(),
            j <= best.len(),
            forall|i: int| 0 <= i < j ==> (#[trigger] r[i]).0 < xv.0,
        decreases best.len() - j,
    {
        j = j + 1;
    }
    if j < best.len() && best[j].rank == x.rank {
        if d >= depths[j] {
            proof {
                lemma_kept_replace(p, r, ds, (d, xv), j as int);
            }
            best.set(j, x);
            depths.set(j, d);
            assert(best.deep_view() =~= r.update(j as int, xv));
        } else {
            proof {
                lemma_kept_skip(p, r, ds, (d, xv), j as int);
            }
        }
    } else {
        proof {
            lemma_kept_insert(p, r, ds, (d, xv), j as int);
        }
        best.insert(j, x);
        depths.insert(j, d);
        assert(best.deep_view() =~= r.insert(j as int, xv));
    }
}

/// The depth an engine line reports after "depth", or 0.
fn info_depth(line: &str) -> (r: u32)
    ensures
        r == line_depth(line@),
{
    let tokens = split_whitespace(line);
    match find_token(&tokens, "depth") {
        Some(d) => {
            if d + 1 < tokens.len() {
                match parse_u32(tokens[d + 1].as_str()) {
                    Some(v) => v,
                    None => 0,
                }
            } else {
                0
            }
        },
        None => 0,
    }
}

/// Parses all Stockfish output lines into raw PV lines and the best move UCI string.
pub fn parse_raw(lines: &[String]) -> (r: (String, Vec<RawPvLine>))
    ensures
        r.0@ == best_upto(line_texts(lines@), lines@.len() as int),
        deepest_per_rank(
            parsed_upto(line_texts(lines@), lines@.len() as int),
            r.1.deep_view(),
        ),
{
    let ghost ls = line_texts(lines@);
    let mut best: Vec<RawPvLine> = Vec::new();
    let mut depths: Vec<u32> = Vec::new();
    let mut best_move_uci = String::new();
    let mut i: usize = 0;
    while i < lines.len()
        invariant
            ls == line_texts(lines@),
            i <= lines.len(),
            best_move_uci@ == best_upto(ls, i as int),
            kept_with(parsed_upto(ls, i as int), best.deep_view(), depths@),
        decreases lines.len() - i,
    {
        let trimmed = trim_str(lines[i].as_str());
        assert(ls[i as int] == lines@[i as int]@);
        let ghost p = parsed_upto(ls, i as int);
        if starts_with(trimmed, "info") && str_contains(trimmed, " pv ") {
            match parse_info_line(trimmed) {
                Some(pv) => {
                    let ghost xv = pv.deep_view();
                    let d = info_depth(trimmed);
                    record_line(&mut best, &mut depths, pv, d, Ghost(p));
                    assert(parsed_upto(ls, i as int + 1) =~= p.push((d, xv)));
                },
                None => {
                    assert(parsed_upto(ls, i as int + 1) =~= p);
                },
            }
        } else if starts_with(trimmed, "bestmove") {
            let toks = split_whitespace(trimmed);
            best_move_uci = if toks.len() > 1 {
                toks[1].clone()
            } else {
                String::new()
            };
            assert(parsed_upto(ls, i as int + 1) =~= p);
        } else {
            assert(parsed_upto(ls, i as int + 1) =~= p);
        }
        i = i + 1;
    }
    proof {
        lemma_kept_gives(parsed_upto(ls, lines@.len() as int), best.deep_view(), depths@);
    }
    (best_move_uci, best)
}

// ---------------------------------------------------------------------------------------
/// The move number and whether White moves, `i` half-moves into a line that starts at move
/// `fm` with White (`white`) or Black to move.
pub open spec fn turn_at(fm: int, white: bool, i: int) -> (int, bool) {
    if white {
        (fm + i / 2, i % 2 == 0)
    } else {
        (fm + (i + 1) / 2, i % 2 == 1)
    }
}

/// The text a half-move adds to a numbered line: "<n>. <move>" for White (after a space, but
/// for the very first move of the line) and " <move>" for Black.
pub open spec fn step_text(fm: int, white: bool, sans: Seq<Seq<char>>, i: int) -> Seq<char> {
    let (n, w) = turn_at(fm, white, i);
    if w {
        (if i == 0 {
            Seq::empty()
        } else {
            " "@
        }) + decimal(n as nat) + ". "@ + sans[i]
    } else {
        " "@ + sans[i]
    }
}

/// The texts of the first `k` half-moves.
pub open spec fn steps_upto(fm: int, white: bool, sans: Seq<Seq<char>>, k: int) -> Seq<char>
    decreases k,
{
    if k <= 0 {
        Seq::empty()
    } else {
        steps_upto(fm, white, sans, k - 1) + step_text(fm, white, sans, k - 1)
    }
}

/// A line of moves numbered from move `fm`, like "1. e4 e5 2. Nf3 Nc6"; a line that starts
/// with Black to move begins with "<n>... ".
pub open spec fn numbered_line(fm: int, white: bool, sans: Seq<Seq<char>>) -> Seq<char> {
    (if !white && sans.len() > 0 {
        decimal(fm as nat) + "... "@
    } else {
        Seq::empty()
    }) + steps_upto(fm, white, sans, sans.len() as int)
}

/// Numbers a line of moves in standard algebraic notation, starting at move `fullmove` with
/// White (`white`) or Black to move.
pub fn number_moves(fullmove: u32, white: bool, sans: &Vec<String>) -> (r: String)
    ensures
        r@ == numbered_line(fullmove as int, white, sans.deep_view()),
{
    let ghost sv = sans.deep_view();
    let mut result = String::new();
    let mut n: u64 = fullmove as u64;
    let mut is_white_turn = white;
    // If the line starts on Black's move, prefix with the move number and "..."
    if !white && sans.len() > 0 {
        let d = decimal_string(n);
        result.append(d.as_str());
        result.append("... ");
    }
    let ghost prefix = result@;
    let mut i: usize = 0;
    while i < sans.len()
        invariant
            sv == sans.deep_view(),
            i <= sans.len(),
            sans.len() <= usize::MAX,
            (n as int, is_white_turn) == turn_at(fullmove as int, white, i as int),
            result@ == prefix + steps_upto(fullmove as int, white, sv, i as int),
            prefix == (if !white && sans.len() > 0 {
                decimal(fullmove as nat) + "... "@
            } else {
                Seq::<char>::empty()
            }),
            n <= fullmove + i,
        decreases sans.len() - i,
    {
        let ghost before = result@;
        if is_white_turn {
            if i > 0 {
                result.append(" ");
            }
            let d = decimal_string(n);
            result.append(d.as_str());
            result.append(". ");
            result.append(sans[i].as_str());
        } else {
            result.append(" ");
            result.append(sans[i].as_str());
            n = n + 1;
        }
        assert(result@ =~= before + step_text(fullmove as int, white, sv, i as int));
        is_white_turn = !is_white_turn;
        i = i + 1;
    }
    result
}

/// The error for a move that is not UCI notation.
pub open spec fn invalid_uci_message(m: Seq<char>) -> Seq<char> {
    "Invalid UCI move '"@ + m + "': "@ + "invalid uci"@
}

/// The error for a move that is not legal where it is played.
pub open spec fn illegal_uci_message(m: Seq<char>) -> Seq<char> {
    "Illegal UCI move '"@ + m + "': "@ + "illegal uci"@
}

fn invalid_uci(m: &str, e: &shakmaty::uci::ParseUciMoveError) -> (r: String)
    ensures
        r@ == invalid_uci_message(m@),
{
    let mut s = String::from_str("Invalid UCI move '");
    s.append(m);
    s.append("': ");
    let t = uci_parse_error_text(e);
    s.append(t.as_str());
    s
}

fn illegal_uci(m: &str, e: &shakmaty::uci::IllegalUciMoveError) -> (r: String)
    ensures
        r@ == illegal_uci_message(m@),
{
    let mut s = String::from_str("Illegal UCI move '");
    s.append(m);
    s.append("': ");
    let t = illegal_uci_text(e);
    s.append(t.as_str());
    s
}

/// The move that the UCI text `m` names in `pos`, when shakmaty reads it and it is legal there.
pub open spec fn move_in(pos: shakmaty::Chess, m: Seq<char>) -> Option<shakmaty::Move> {
    match uci_parse(m) {
        Ok(u) => match uci_to_legal(pos, u) {
            Ok(mv) => Some(mv),
            Err(_) => None,
        },
        Err(_) => None,
    }
}

/// The position after the first `n` moves of `ms` are played from `pos` (a move that cannot
/// be played leaves the position as it is).
pub open spec fn position_after(pos: shakmaty::Chess, ms: Seq<Seq<char>>, n: int) -> shakmaty::Chess
    decreases n,
{
    if n <= 0 {
        pos
    } else {
        let q = position_after(pos, ms, n - 1);
        match move_in(q, ms[n - 1]) {
            Some(mv) => after_move(q, mv),
            None => q,
        }
    }
}

/// Whether the first `n` moves of `ms` can be played in turn from `pos`.
pub open spec fn playable(pos: shakmaty::Chess, ms: Seq<Seq<char>>, n: int) -> bool {
    forall|i: int| 0 <= i < n ==> (#[trigger] move_in(position_after(pos, ms, i), ms[i])) is Some
}

/// The notation of the `i`-th move of `ms` where it is played.
pub open spec fn san_at(pos: shakmaty::Chess, ms: Seq<Seq<char>>, i: int) -> Seq<char> {
    let q = position_after(pos, ms, i);
    san_text(q, move_in(q, ms[i])->Some_0)
}

/// The notations of the first `n` moves of `ms`.
pub open spec fn sans_upto(pos: shakmaty::Chess, ms: Seq<Seq<char>>, n: int) -> Seq<Seq<char>> {
    Seq::new(n as nat, |i: int| san_at(pos, ms, i))
}

/// The error for the move `m` that cannot be played: not UCI notation, or not legal.
pub open spec fn move_error(m: Seq<char>) -> Seq<char> {
    if uci_readable(m) {
        illegal_uci_message(m)
    } else {
        invalid_uci_message(m)
    }
}

/// The numbered line of the moves `ms` from `pos` when all of them can be played, else
/// nothing (what `uci_moves_to_san` gives, errors left out).
pub open spec fn san_line_text(pos: shakmaty::Chess, ms: Seq<Seq<char>>) -> Seq<char> {
    if playable(pos, ms, ms.len() as int) {
        numbered_line(fullmoves(pos) as int, white_to_move(pos), sans_upto(pos, ms, ms.len() as int))
    } else {
        Seq::empty()
    }
}

/// Converts a sequence of UCI move strings into a single numbered move string
/// like "1. e4 e5 2. Nf3 Nc6". Uses the position's turn and fullmove number
/// to start numbering correctly mid-game.
pub fn uci_moves_to_san(pos: &shakmaty::Chess, uci_moves: &[String]) -> (r: Result<String, String>)
    ensures
        r is Ok <==> playable(*pos, line_texts(uci_moves@), uci_moves@.len() as int),
        r matches Ok(s) ==> s@ == san_line_text(*pos, line_texts(uci_moves@)),
        r matches Err(e) ==> exists|i: int|
            0 <= i < uci_moves@.len() && playable(*pos, line_texts(uci_moves@), i) && move_in(
                position_after(*pos, line_texts(uci_moves@), i),
                uci_moves@[i]@,
            ) is None && e@ == move_error(uci_moves@[i]@),
{
    let ghost ms = line_texts(uci_moves@);
    let mut current = chess_clone(pos);
    let fullmove = fullmove_number(pos);
    let white = side_to_move(pos) == Color::White;
    let mut sans: Vec<String> = Vec::new();
    let mut i: usize = 0;
    while i < uci_moves.len()
        invariant
            ms == line_texts(uci_moves@),
            i <= uci_moves@.len(),
            current == position_after(*pos, ms, i as int),
            playable(*pos, ms, i as int),
            sans.deep_view() == sans_upto(*pos, ms, i as int),
        decreases uci_moves.len() - i,
    {
        let uci_str = uci_moves[i].as_str();
        assert(ms[i as int] == uci_str@);
        let uci = match uci_from_str(uci_str) {
            Ok(u) => u,
            Err(e) => {
                return Err(invalid_uci(uci_str, &e));
            },
        };
        let m = match uci_to_move(uci, &current) {
            Ok(m) => m,
            Err(e) => {
                return Err(illegal_uci(uci_str, &e));
            },
        };
        assert(move_in(current, ms[i as int]) == Some(m));
        let ghost before = current;
        let san_plus = san_and_play(&mut current, m);
        proof {
            assert(position_after(*pos, ms, i + 1) == after_move(before, m));
            assert forall|j: int| 0 <= j < i + 1 implies (#[trigger] move_in(
                position_after(*pos, ms, j),
                ms[j],
            )) is Some by {
                if j == i {
                    assert(move_in(before, ms[i as int]) == Some(m));
                }
            }
        }
        let ghost prev = sans.deep_view();
        sans.push(san_plus);
        assert(sans.deep_view() =~= sans_upto(*pos, ms, i + 1)) by {
            assert(sans.deep_view() =~= prev.push(san_plus@));
        }
        i = i + 1;
    }
    let s = number_moves(fullmove, white, &sans);
    Ok(s)
}

/// A line of one move is that move's notation, numbered: what `uci_moves_to_san` gives for
/// a single move is what `uci_to_san_single` gives, after the move number.
pub proof fn law_single_move_line(pos: shakmaty::Chess, m: Seq<char>)
    requires
        move_in(pos, m) is Some,
    ensures
        san_line_text(pos, seq![m]) == numbered_line(
            fullmoves(pos) as int,
            white_to_move(pos),
            seq![san_text(pos, move_in(pos, m)->Some_0)],
        ),
{
    let ms = seq![m];
    assert(position_after(pos, ms, 0) == pos);
    assert(playable(pos, ms, 1));
    assert(sans_upto(pos, ms, 1) =~= seq![san_text(pos, move_in(pos, m)->Some_0)]);
}

/// Converts a single UCI move string to SAN in the context of a position.
pub fn uci_to_san_single(pos: &shakmaty::Chess, uci_str: &str) -> (r: Result<String, String>)
    ensures
        r is Ok <==> move_in(*pos, uci_str@) is Some,
        r matches Ok(s) ==> s@ == san_text(*pos, move_in(*pos, uci_str@)->Some_0),
        r matches Err(e) ==> e@ == move_error(uci_str@),
{
    let uci = match uci_from_str(uci_str) {
        Ok(u) => u,
        Err(e) => {
            return Err(invalid_uci(uci_str, &e));
        },
    };
    let m = match uci_to_move(uci, pos) {
        Ok(m) => m,
        Err(e) => {
            return Err(illegal_uci(uci_str, &e));
        },
    };
    let mut copy = chess_clone(pos);
    Ok(san_and_play(&mut copy, m))
}

/// The best move in notation: nothing when the engine named none, else its notation where it
/// is legal, else the engine's own text.
pub open spec fn best_move_text(pos: shakmaty::Chess, best: Seq<char>) -> Seq<char> {
    if best.len() == 0 {
        best
    } else {
        match move_in(pos, best) {
            Some(mv) => san_text(pos, mv),
            None => best,
        }
    }
}

/// Whether the lines `pvs` carry the rank and scores of the raw lines `raw`, in order, with
/// their moves as numbered lines from `pos`.
pub open spec fn lines_follow(pos: shakmaty::Chess, pvs: Seq<PvLine>, raw: Seq<RawView>) -> bool {
    pvs.len() == raw.len() && forall|i: int|
        0 <= i < raw.len() ==> (#[trigger] pvs[i]).rank == raw[i].0 && pvs[i].score@ == raw[i].1
            && pvs[i].score_cp == raw[i].2 && pvs[i].moves@ == san_line_text(pos, raw[i].3)
}

/// Parses all Stockfish output lines into PvLines with SAN notation.
/// Keeps only the deepest info line per multipv rank.
pub fn parse_analysis(lines: &[String], pos: &shakmaty::Chess) -> (r: Result<
    (String, Vec<PvLine>),
    String,
>)
    ensures
        r matches Ok((best, pvs)) && best@ == best_move_text(
            *pos,
            best_upto(line_texts(lines@), lines@.len() as int),
        ) && exists|raw: Seq<RawView>|
            #[trigger] deepest_per_rank(
                parsed_upto(line_texts(lines@), lines@.len() as int),
                raw,
            ) && lines_follow(*pos, pvs@, raw),
{
    let (best_move_uci, sorted) = parse_raw(lines);
    let best_move = if best_move_uci.as_str().unicode_len() == 0 {
        String::new()
    } else {
        match uci_to_san_single(pos, best_move_uci.as_str()) {
            Ok(s) => s,
            Err(_) => best_move_uci,
        }
    };
    let ghost raw = sorted.deep_view();
    let mut result: Vec<PvLine> = Vec::new();
    let mut i: usize = 0;
    while i < sorted.len()
        invariant
            raw == sorted.deep_view(),
            i <= sorted.len(),
            result@.len() == i,
            forall|k: int|
                0 <= k < i ==> (#[trigger] result@[k]).rank == raw[k].0 && result@[k].score@
                    == raw[k].1 && result@[k].score_cp == raw[k].2 && result@[k].moves@
                    == san_line_text(*pos, raw[k].3),
        decreases sorted.len() - i,
    {
        let raw_line = &sorted[i];
        assert(line_texts(raw_line.moves@) =~= raw[i as int].3);
        let san = match uci_moves_to_san(pos, raw_line.moves.as_slice()) {
            Ok(s) => s,
            Err(_) => String::new(),
        };
        result.push(
            PvLine {
                rank: raw_line.rank,
                score: raw_line.score.clone(),
                score_cp: raw_line.score_cp,
                moves: san,
            },
        );
        i = i + 1;
    }
    Ok((best_move, result))
}

} // verus!
