use vstd::prelude::*;

use crate::attacks::{dist, king_attacks, king_set};
use crate::bitboard::{lowest_below, Bitboard};
use crate::board::{
    color_name, color_set, color_text, file_letter, file_of, file_text, holds_color, on_board,
    opponent, rank_of, role_on, role_set, square_name, square_text, Board, Color, Piece, Role,
};
use crate::tactics::{
    king_square, lemma_lowest_single, piece_reach, piece_value, push_finding, reach_set,
    role_value, Finding, CRITICAL, IMPORTANT, POSITIONAL,
};
use crate::text::{decimal, decimal_string, pawns_string, pawns_text};

verus! {

// ---------------------------------------------------------------------------------------
// Material
/// The material of side `c` on the squares below `n`, in centipawns.
pub open spec fn material_upto(b: Seq<Option<Piece>>, c: Color, n: int) -> int
    decreases n,
{
    if n <= 0 {
        0
    } else {
        material_upto(b, c, n - 1) + if holds_color(b, n - 1, c) {
            role_value(role_on(b, n - 1))
        } else {
            0
        }
    }
}

/// The material of side `c`.
pub open spec fn material(b: Seq<Option<Piece>>, c: Color) -> int {
    material_upto(b, c, 64)
}

/// What an advantage of `adv` centipawns amounts to: a single piece when it is exactly that
/// piece's value, else material in general.
pub open spec fn advantage_name(adv: int) -> Seq<char> {
    if adv == 100 {
        "a pawn"@
    } else if adv == 300 {
        "a knight"@
    } else if adv == 320 {
        "a bishop"@
    } else if adv == 500 {
        "a rook"@
    } else if adv == 900 {
        "a queen"@
    } else {
        "material"@
    }
}

/// The material summary: which side has more material, what the advantage amounts to and
/// how many pawns it is worth ("White is up a knight (+3.00)").
#[verifier::opaque]
pub open spec fn material_text(b: Seq<Option<Piece>>) -> Seq<char> {
    let diff = material(b, Color::White) - material(b, Color::Black);
    if diff == 0 {
        "Material is equal"@
    } else if diff > 0 {
        "White"@ + " is up "@ + advantage_name(diff) + " ("@ + pawns_text(diff) + ")"@
    } else {
        "Black"@ + " is up "@ + advantage_name(-diff) + " ("@ + pawns_text(-diff) + ")"@
    }
}

fn advantage_string(adv: i32) -> (r: &'static str)
    ensures
        r@ == advantage_name(adv as int),
{
    if adv == 100 {
        "a pawn"
    } else if adv == 300 {
        "a knight"
    } else if adv == 320 {
        "a bishop"
    } else if adv == 500 {
        "a rook"
    } else if adv == 900 {
        "a queen"
    } else {
        "material"
    }
}

proof fn lemma_material_bounds(b: Seq<Option<Piece>>, c: Color, n: int)
    requires
        0 <= n,
    ensures
        0 <= material_upto(b, c, n) <= 900 * n,
    decreases n,
{
    if n > 0 {
        lemma_material_bounds(b, c, n - 1);
    }
}

/// Counts total material value for one side.
pub fn count_material(board: &Board, color: Color) -> (r: i32)
    requires
        board.wf(),
    ensures
        r == material(board@, color),
        0 <= r <= 57600,
{
    let pieces = board.by_color(color);
    let mut total: i32 = 0;
    let mut sq: u32 = 0;
    while sq < 64
        invariant
            board.wf(),
            sq <= 64,
            pieces@ == color_set(board@, color),
            total == material_upto(board@, color, sq as int),
            0 <= total <= 900 * sq,
        decreases 64 - sq,
    {
        if pieces.contains(sq) {
            match board.piece_at(sq) {
                Some(p) => {
                    total = total + piece_value(p.role);
                },
                None => {},
            }
        }
        sq = sq + 1;
    }
    total
}

/// Analyzes material balance for both sides.
/// Returns a human-readable summary like "White is up a knight (+3.00)".
pub fn analyze_material(board: &Board) -> (r: String)
    requires
        board.wf(),
    ensures
        r@ == material_text(board@),
{
    proof {
        reveal(material_text);
    }
    let white_material = count_material(board, Color::White);
    let black_material = count_material(board, Color::Black);
    let diff = white_material - black_material;
    if diff == 0 {
        String::from_str("Material is equal")
    } else {
        let (side, advantage): (&str, i32) = if diff > 0 {
            ("White", diff)
        } else {
            ("Black", -diff)
        };
        let mut s = String::from_str(side);
        s.append(" is up ");
        s.append(advantage_string(advantage));
        s.append(" (");
        let n = pawns_string(advantage as i64);
        s.append(n.as_str());
        s.append(")");
        s
    }
}

// ---------------------------------------------------------------------------------------
// Pawn structure
/// The squares of the pawns of side `c`.
pub open spec fn pawns_of(b: Seq<Option<Piece>>, c: Color) -> Set<int> {
    color_set(b, c).intersect(role_set(b, Role::Pawn))
}

/// The number of pawns of side `c` on file `f` among the squares below `n`.
pub open spec fn file_pawns_upto(b: Seq<Option<Piece>>, c: Color, f: int, n: int) -> nat
    decreases n,
{
    if n <= 0 {
        0
    } else {
        file_pawns_upto(b, c, f, n - 1) + if pawns_of(b, c).contains(n - 1) && file_of(n - 1)
            == f {
            1nat
        } else {
            0nat
        }
    }
}

/// The number of pawns of side `c` on file `f`.
pub open spec fn file_pawns(b: Seq<Option<Piece>>, c: Color, f: int) -> nat {
    file_pawns_upto(b, c, f, 64)
}

/// The doubled-pawn findings of side `c` for the files below `n`.
pub open spec fn doubled_upto(b: Seq<Option<Piece>>, c: Color, n: int) -> Seq<(u8, Seq<char>)>
    decreases n,
{
    if n <= 0 {
        Seq::empty()
    } else {
        doubled_upto(b, c, n - 1) + if file_pawns(b, c, n - 1) >= 2 {
            seq![
                (
                    POSITIONAL,
                    color_text(c) + " has doubled pawns on the "@ + file_text(n - 1) + "-file"@,
                ),
            ]
        } else {
            Seq::empty()
        }
    }
}

/// Whether a pawn of side `c` on `s` has no pawn of its side on a neighbouring file.
pub open spec fn isolated(b: Seq<Option<Piece>>, c: Color, s: int) -> bool {
    let f = file_of(s);
    !((f > 0 && file_pawns(b, c, f - 1) > 0) || (f < 7 && file_pawns(b, c, f + 1) > 0))
}

/// The isolated-pawn findings of side `c` for its pawns below `n`.
pub open spec fn isolated_upto(b: Seq<Option<Piece>>, c: Color, n: int) -> Seq<(u8, Seq<char>)>
    decreases n,
{
    if n <= 0 {
        Seq::empty()
    } else {
        isolated_upto(b, c, n - 1) + if pawns_of(b, c).contains(n - 1) && isolated(b, c, n - 1) {
            seq![(POSITIONAL, color_text(c) + " has an isolated pawn on "@ + square_text(n - 1))]
        } else {
            Seq::empty()
        }
    }
}

/// Whether the enemy pawn on `e` stops the pawn of side `c` on `s`: it stands on the same or a
/// neighbouring file, ahead of it.
pub open spec fn blocks(c: Color, e: int, s: int) -> bool {
    dist(file_of(e), file_of(s)) <= 1 && match c {
        Color::White => rank_of(e) > rank_of(s),
        Color::Black => rank_of(e) < rank_of(s),
    }
}

/// Whether the pawn of side `c` on `s` is passed.
pub open spec fn passed(b: Seq<Option<Piece>>, c: Color, s: int) -> bool {
    forall|e: int| #[trigger] pawns_of(b, opponent(c)).contains(e) ==> !blocks(c, e, s)
}

/// Whether a pawn of side `c` on rank `r` (0-based) has left its own half: from the third rank
/// on for White, the sixth rank down for Black.
pub open spec fn advanced(c: Color, r: int) -> bool {
    match c {
        Color::White => r >= 2,
        Color::Black => r <= 5,
    }
}

/// The passed-pawn findings of side `c` for its pawns below `n`.
pub open spec fn passed_upto(b: Seq<Option<Piece>>, c: Color, n: int) -> Seq<(u8, Seq<char>)>
    decreases n,
{
    if n <= 0 {
        Seq::empty()
    } else {
        passed_upto(b, c, n - 1) + if pawns_of(b, c).contains(n - 1) && passed(b, c, n - 1)
            && advanced(c, rank_of(n - 1)) {
            seq![
                (
                    IMPORTANT,
                    color_text(c) + " has a passed pawn on "@ + square_text(n - 1) + " (rank "@
                        + decimal((rank_of(n - 1) + 1) as nat) + ")"@,
                ),
            ]
        } else {
            Seq::empty()
        }
    }
}

/// The pawn-structure findings of side `c`: doubled, then isolated, then passed pawns.
pub open spec fn pawn_structure_of(b: Seq<Option<Piece>>, c: Color) -> Seq<(u8, Seq<char>)> {
    doubled_upto(b, c, 8) + isolated_upto(b, c, 64) + passed_upto(b, c, 64)
}

/// The pawn-structure findings of both sides, White's first.
pub open spec fn pawn_structure(b: Seq<Option<Piece>>) -> Seq<(u8, Seq<char>)> {
    pawn_structure_of(b, Color::White) + pawn_structure_of(b, Color::Black)
}

fn file_counts(board: &Board, our_pawns: Bitboard, color: Color) -> (r: Vec<u32>)
    requires
        board.wf(),
        our_pawns@ == pawns_of(board@, color),
    ensures
        r@.len() == 8,
        forall|f: int| 0 <= f < 8 ==> r@[f] == file_pawns(board@, color, f),
{
    let mut counts: Vec<u32> = vec![0u32, 0u32, 0u32, 0u32, 0u32, 0u32, 0u32, 0u32];
    let mut sq: u32 = 0;
    while sq < 64
        invariant
            board.wf(),
            sq <= 64,
            our_pawns@ == pawns_of(board@, color),
            counts@.len() == 8,
            forall|f: int| 0 <= f < 8 ==> counts@[f] == file_pawns_upto(board@, color, f, sq as int),
            forall|f: int| 0 <= f < 8 ==> counts@[f] <= sq,
        decreases 64 - sq,
    {
        if our_pawns.contains(sq) {
            let file = (sq % 8) as usize;
            let v = counts[file];
            counts.set(file, v + 1);
        }
        sq = sq + 1;
    }
    counts
}

fn is_passed(board: &Board, their_pawns: Bitboard, color: Color, sq: u32) -> (r: bool)
    requires
        board.wf(),
        sq < 64,
        their_pawns@ == pawns_of(board@, opponent(color)),
    ensures
        r == passed(board@, color, sq as int),
{
    let file = sq % 8;
    let rank = sq / 8;
    let mut e: u32 = 0;
    while e < 64
        invariant
            board.wf(),
            e <= 64,
            sq < 64,
            file == sq % 8,
            rank == sq / 8,
            their_pawns@ == pawns_of(board@, opponent(color)),
            forall|x: int|
                0 <= x < e && #[trigger] pawns_of(board@, opponent(color)).contains(x) ==> !blocks(
                    color,
                    x,
                    sq as int,
                ),
        decreases 64 - e,
    {
        if their_pawns.contains(e) {
            let enemy_file = e % 8;
            let enemy_rank = e / 8;
            let near = if enemy_file >= file {
                enemy_file - file <= 1
            } else {
                file - enemy_file <= 1
            };
            if near {
                let ahead = match color {
                    Color::White => enemy_rank > rank,
                    Color::Black => enemy_rank < rank,
                };
                if ahead {
                    assert(blocks(color, e as int, sq as int));
                    return false;
                }
            }
        }
        e = e + 1;
    }
    assert forall|x: int| #[trigger] pawns_of(board@, opponent(color)).contains(x) implies !blocks(
        color,
        x,
        sq as int,
    ) by {
        assert(0 <= x < 64);
    }
    true
}

/// Findings about the pawn structure of one side.
fn pawn_structure_side(board: &Board, color: Color, findings: &mut Vec<Finding>)
    requires
        board.wf(),
    ensures
        final(findings).deep_view() == old(findings).deep_view() + pawn_structure_of(
            board@,
            color,
        ),
{
    let ghost start = findings.deep_view();
    let side = color_name(color);
    let our_pawns = board.by_color(color).and(board.by_role(Role::Pawn));
    let their_pawns = board.by_color(color.other()).and(board.by_role(Role::Pawn));
    let counts = file_counts(board, our_pawns, color);
    // Doubled pawns: 2+ pawns on the same file
    let mut file: u32 = 0;
    while file < 8
        invariant
            board.wf(),
            file <= 8,
            side@ == color_text(color),
            counts@.len() == 8,
            forall|f: int| 0 <= f < 8 ==> counts@[f] == file_pawns(board@, color, f),
            findings.deep_view() == start + doubled_upto(board@, color, file as int),
        decreases 8 - file,
    {
        let ghost before = findings.deep_view();
        if counts[file as usize] >= 2 {
            let mut s = String::from_str(side);
            s.append(" has doubled pawns on the ");
            s.append(file_letter(file));
            s.append("-file");
            push_finding(findings, POSITIONAL, s);
        }
        assert(findings.deep_view() =~= start + doubled_upto(board@, color, file as int + 1));
        file = file + 1;
    }
    let ghost mid = findings.deep_view();
    // Isolated pawns: no friendly pawns on adjacent files
    let mut sq: u32 = 0;
    while sq < 64
        invariant
            board.wf(),
            sq <= 64,
            side@ == color_text(color),
            our_pawns@ == pawns_of(board@, color),
            counts@.len() == 8,
            forall|f: int| 0 <= f < 8 ==> counts@[f] == file_pawns(board@, color, f),
            findings.deep_view() == mid + isolated_upto(board@, color, sq as int),
        decreases 64 - sq,
    {
        if our_pawns.contains(sq) {
            let f = sq % 8;
            let has_neighbor = (f > 0 && counts[(f - 1) as usize] > 0) || (f < 7 && counts[(f
                + 1) as usize] > 0);
            if !has_neighbor {
                let mut s = String::from_str(side);
                s.append(" has an isolated pawn on ");
                let n = square_name(sq);
                s.append(n.as_str());
                push_finding(findings, POSITIONAL, s);
            }
        }
        assert(findings.deep_view() =~= mid + isolated_upto(board@, color, sq as int + 1));
        sq = sq + 1;
    }
    let ghost mid2 = findings.deep_view();
    // Passed pawns: no enemy pawns ahead on the same or adjacent files
    let mut sq: u32 = 0;
    while sq < 64
        invariant
            board.wf(),
            sq <= 64,
            side@ == color_text(color),
            our_pawns@ == pawns_of(board@, color),
            their_pawns@ == pawns_of(board@, opponent(color)),
            findings.deep_view() == mid2 + passed_upto(board@, color, sq as int),
        decreases 64 - sq,
    {
        if our_pawns.contains(sq) {
            let rank = sq / 8;
            let is_passed = is_passed(board, their_pawns, color, sq);
            if is_passed {
                // Only report if pawn has advanced past the 3rd rank
                let is_advanced = match color {
                    Color::White => rank >= 2,
                    Color::Black => rank <= 5,
                };
                if is_advanced {
                    let mut s = String::from_str(side);
                    s.append(" has a passed pawn on ");
                    let n = square_name(sq);
                    s.append(n.as_str());
                    s.append(" (rank ");
                    let r = decimal_string((rank + 1) as u64);
                    s.append(r.as_str());
                    s.append(")");
                    push_finding(findings, IMPORTANT, s);
                }
            }
        }
        assert(findings.deep_view() =~= mid2 + passed_upto(board@, color, sq as int + 1));
        sq = sq + 1;
    }
    assert(findings.deep_view() =~= start + pawn_structure_of(board@, color));
}

/// Analyzes pawn structure: doubled, isolated, and passed pawns.
pub fn analyze_pawn_structure(board: &Board) -> (r: Vec<Finding>)
    requires
        board.wf(),
    ensures
        r.deep_view() == pawn_structure(board@),
{
    let mut findings: Vec<Finding> = Vec::new();
    assert(findings.deep_view() =~= Seq::<(u8, Seq<char>)>::empty());
    pawn_structure_side(board, Color::White, &mut findings);
    pawn_structure_side(board, Color::Black, &mut findings);
    assert(findings.deep_view() =~= pawn_structure(board@));
    findings
}

// ---------------------------------------------------------------------------------------
// King safety
/// The lowest and highest file next to or equal to file `f`.
pub open spec fn near_files(f: int) -> (int, int) {
    (if f >= 1 {
        f - 1
    } else {
        0
    }, if f + 1 <= 7 {
        f + 1
    } else {
        7
    })
}

/// The rank in front of a king of side `c` on rank `r`, when it is on the board.
pub open spec fn shield_rank(c: Color, r: int) -> Option<int> {
    let s = match c {
        Color::White => r + 1,
        Color::Black => r - 1,
    };
    if 0 <= s < 8 {
        Some(s)
    } else {
        None
    }
}

/// The number of pawns of side `c` on rank `sr` on the files `lo..hi` (exclusive bound).
pub open spec fn shield_upto(b: Seq<Option<Piece>>, c: Color, sr: int, lo: int, hi: int) -> nat
    decreases hi - lo,
{
    if hi <= lo {
        0
    } else {
        shield_upto(b, c, sr, lo, hi - 1) + if pawns_of(b, c).contains((hi - 1) + sr * 8) {
            1nat
        } else {
            0nat
        }
    }
}

/// The number of pawns shielding the king of side `c` on `k`: its own pawns on the rank in
/// front of it, on the king's file and the files next to it.
pub open spec fn shield_count(b: Seq<Option<Piece>>, c: Color, k: int) -> nat {
    let (lo, hi) = near_files(file_of(k));
    match shield_rank(c, rank_of(k)) {
        Some(sr) => shield_upto(b, c, sr, lo, hi + 1),
        None => 0,
    }
}

/// The back rank of side `c`.
pub open spec fn back_rank(c: Color) -> int {
    match c {
        Color::White => 0,
        Color::Black => 7,
    }
}

/// Whether the enemy piece on `e` attacks a square next to the king on `k`.
pub open spec fn presses_king(b: Seq<Option<Piece>>, c: Color, e: int, k: int) -> bool {
    color_set(b, opponent(c)).difference(role_set(b, Role::Pawn)).contains(e) && reach_set(
        b,
        opponent(c),
        e,
        role_on(b, e),
    ).intersect(king_set(k)) != Set::<int>::empty()
}

/// The number of enemy pieces below `n` that attack the zone of the king on `k`.
pub open spec fn pressure_upto(b: Seq<Option<Piece>>, c: Color, k: int, n: int) -> nat
    decreases n,
{
    if n <= 0 {
        0
    } else {
        pressure_upto(b, c, k, n - 1) + if presses_king(b, c, n - 1, k) {
            1nat
        } else {
            0nat
        }
    }
}

/// Whether any pawn, of either side, stands on file `f`.
pub open spec fn file_has_pawn(b: Seq<Option<Piece>>, f: int) -> bool {
    exists|r: int| 0 <= r < 8 && #[trigger] role_set(b, Role::Pawn).contains(f + r * 8)
}

/// The open-file findings for the files `lo..hi` near the king of side `c`.
pub open spec fn open_files_upto(b: Seq<Option<Piece>>, c: Color, lo: int, hi: int) -> Seq<
    (u8, Seq<char>),
>
    decreases hi - lo,
{
    if hi <= lo {
        Seq::empty()
    } else {
        open_files_upto(b, c, lo, hi - 1) + if !file_has_pawn(b, hi - 1) {
            seq![
                (
                    IMPORTANT,
                    "Open "@ + file_text(hi - 1) + "-file near "@ + color_text(c) + "'s king"@,
                ),
            ]
        } else {
            Seq::empty()
        }
    }
}

/// The king-safety findings of side `c`: a castled king without a pawn shield, pressure on
/// the king zone from two or more enemy pieces, and open files next to the king.
pub open spec fn king_safety_of(b: Seq<Option<Piece>>, c: Color) -> Seq<(u8, Seq<char>)> {
    match king_square(b, c) {
        None => Seq::empty(),
        Some(k) => {
            let kf = file_of(k);
            let castled = rank_of(k) == back_rank(c) && (kf >= 6 || kf <= 1);
            let no_shield = if castled && shield_count(b, c, k) == 0 {
                seq![
                    (IMPORTANT, color_text(c) + "'s king has no pawn shield — potentially unsafe"@),
                ]
            } else {
                Seq::empty()
            };
            let n = pressure_upto(b, c, k, 64);
            let pressure = if n >= 2 {
                seq![
                    (
                        CRITICAL,
                        color_text(c) + "'s king is under pressure — "@ + decimal(n)
                            + " enemy pieces attack the king zone"@,
                    ),
                ]
            } else {
                Seq::empty()
            };
            let (lo, hi) = near_files(kf);
            no_shield + pressure + open_files_upto(b, c, lo, hi + 1)
        },
    }
}

/// The king-safety findings of both sides, White's first.
pub open spec fn king_safety(b: Seq<Option<Piece>>) -> Seq<(u8, Seq<char>)> {
    king_safety_of(b, Color::White) + king_safety_of(b, Color::Black)
}

fn pawn_on_file(all_pawns: Bitboard, board: &Board, f: u32) -> (r: bool)
    requires
        board.wf(),
        f < 8,
        all_pawns@ == role_set(board@, Role::Pawn),
    ensures
        r == file_has_pawn(board@, f as int),
{
    let mut rank: u32 = 0;
    while rank < 8
        invariant
            rank <= 8,
            f < 8,
            all_pawns@ == role_set(board@, Role::Pawn),
            forall|r: int| 0 <= r < rank ==> !#[trigger] role_set(board@, Role::Pawn).contains(f + r * 8),
        decreases 8 - rank,
    {
        let idx = f + rank * 8;
        if all_pawns.contains(idx) {
            assert(role_set(board@, Role::Pawn).contains(f + rank * 8));
            return true;
        }
        rank = rank + 1;
    }
    false
}

fn shield_of(board: &Board, our_pawns: Bitboard, color: Color, king_sq: u32) -> (r: u32)
    requires
        board.wf(),
        king_sq < 64,
        our_pawns@ == pawns_of(board@, color),
    ensures
        r == shield_count(board@, color, king_sq as int),
        r <= 3,
{
    let king_file = king_sq % 8;
    let king_rank = king_sq / 8;
    let shield_rank: u32 = match color {
        Color::White => king_rank + 1,
        Color::Black => king_rank.wrapping_sub(1),
    };
    proof {
        if color == Color::Black && king_rank == 0 {
            assert(shield_rank == u32::MAX);
        }
    }
    let lo: u32 = if king_file >= 1 {
        king_file - 1
    } else {
        0
    };
    let hi: u32 = if king_file + 1 <= 7 {
        king_file + 1
    } else {
        7
    };
    let mut shield_count: u32 = 0;
    if shield_rank < 8 {
        let mut f = lo;
        while f <= hi
            invariant
                lo <= f <= hi + 1,
                hi <= 7,
                shield_rank < 8,
                our_pawns@ == pawns_of(board@, color),
                shield_count == shield_upto(board@, color, shield_rank as int, lo as int, f as int),
                shield_count <= f - lo,
            decreases hi + 1 - f,
        {
            let shield_idx = f + shield_rank * 8;
            if our_pawns.contains(shield_idx) {
                shield_count = shield_count + 1;
            }
            f = f + 1;
        }
    }
    shield_count
}

fn pressure_on_king(board: &Board, color: Color, king_sq: u32, occupied: Bitboard) -> (r: u32)
    requires
        board.wf(),
        king_sq < 64,
        occupied@ == crate::board::occupied_set(board@),
    ensures
        r == pressure_upto(board@, color, king_sq as int, 64),
        r <= 64,
{
    let king_zone = king_attacks(king_sq);
    let enemy_pieces = board.by_color(color.other()).without(board.by_role(Role::Pawn));
    let mut attacker_count: u32 = 0;
    let mut e: u32 = 0;
    while e < 64
        invariant
            board.wf(),
            e <= 64,
            king_sq < 64,
            occupied@ == crate::board::occupied_set(board@),
            king_zone@ == king_set(king_sq as int),
            enemy_pieces@ == color_set(board@, opponent(color)).difference(
                role_set(board@, Role::Pawn),
            ),
            attacker_count == pressure_upto(board@, color, king_sq as int, e as int),
            attacker_count <= e,
        decreases 64 - e,
    {
        if enemy_pieces.contains(e) {
            match board.piece_at(e) {
                Some(p) => {
                    let attacks_bb = piece_reach(board, occupied, color.other(), e, p.role);
                    if !attacks_bb.and(king_zone).is_empty() {
                        attacker_count = attacker_count + 1;
                    }
                },
                None => {},
            }
        }
        e = e + 1;
    }
    attacker_count
}

/// Findings about the safety of one side's king.
fn king_safety_side(board: &Board, color: Color, findings: &mut Vec<Finding>)
    requires
        board.wf(),
    ensures
        final(findings).deep_view() == old(findings).deep_view() + king_safety_of(board@, color),
{
    let ghost start = findings.deep_view();
    let side = color_name(color);
    let occupied = board.occupied();
    let king_bb = board.by_role(Role::King).and(board.by_color(color));
    let king_sq = match king_bb.first() {
        Some(sq) => sq,
        None => {
            assert(findings.deep_view() =~= start + king_safety_of(board@, color));
            return ;
        },
    };
    let king_file = king_sq % 8;
    let king_rank = king_sq / 8;
    // Check pawn shield (pawns in front of king on adjacent files)
    let our_pawns = board.by_color(color).and(board.by_role(Role::Pawn));
    let shield_count = shield_of(board, our_pawns, color, king_sq);
    // Check if king is castled (on g/h or a/b files in the back rank)
    let back_rank: u32 = match color {
        Color::White => 0,
        Color::Black => 7,
    };
    let is_on_back_rank = king_rank == back_rank;
    let is_castled_position = is_on_back_rank && (king_file >= 6 || king_file <= 1);
    if is_castled_position && shield_count == 0 {
        let mut s = String::from_str(side);
        s.append("'s king has no pawn shield — potentially unsafe");
        push_finding(findings, IMPORTANT, s);
    }
    // Count enemy attackers near king (within king's attack zone)
    let attacker_count = pressure_on_king(board, color, king_sq, occupied);
    if attacker_count >= 2 {
        let mut s = String::from_str(side);
        s.append("'s king is under pressure — ");
        let n = decimal_string(attacker_count as u64);
        s.append(n.as_str());
        s.append(" enemy pieces attack the king zone");
        push_finding(findings, CRITICAL, s);
    }
    let ghost mid = findings.deep_view();
    // Check for open files near king
    let all_pawns = board.by_role(Role::Pawn);
    let lo: u32 = if king_file >= 1 {
        king_file - 1
    } else {
        0
    };
    let hi: u32 = if king_file + 1 <= 7 {
        king_file + 1
    } else {
        7
    };
    let mut f = lo;
    while f <= hi
        invariant
            board.wf(),
            lo <= f <= hi + 1,
            hi <= 7,
            side@ == color_text(color),
            all_pawns@ == role_set(board@, Role::Pawn),
            findings.deep_view() == mid + open_files_upto(board@, color, lo as int, f as int),
        decreases hi + 1 - f,
    {
        let has_pawn_on_file = pawn_on_file(all_pawns, board, f);
        if !has_pawn_on_file {
            let mut s = String::from_str("Open ");
            s.append(file_letter(f));
            s.append("-file near ");
            s.append(side);
            s.append("'s king");
            push_finding(findings, IMPORTANT, s);
        }
        assert(findings.deep_view() =~= mid + open_files_upto(
            board@,
            color,
            lo as int,
            f as int + 1,
        ));
        f = f + 1;
    }
    assert(findings.deep_view() =~= start + king_safety_of(board@, color));
}

/// Analyzes king safety for both sides.
pub fn analyze_king_safety(board: &Board) -> (r: Vec<Finding>)
    requires
        board.wf(),
    ensures
        r.deep_view() == king_safety(board@),
{
    let mut findings: Vec<Finding> = Vec::new();
    assert(findings.deep_view() =~= Seq::<(u8, Seq<char>)>::empty());
    king_safety_side(board, Color::White, &mut findings);
    king_safety_side(board, Color::Black, &mut findings);
    assert(findings.deep_view() =~= king_safety(board@));
    findings
}

// ---------------------------------------------------------------------------------------
// Piece activity
/// Whether `s` is one of the central squares d4, d5, e4, e5.
pub open spec fn central(s: int) -> bool {
    s == 27 || s == 35 || s == 28 || s == 36
}

/// The centralized-knight findings of side `c` for its knights below `n`.
pub open spec fn knights_upto(b: Seq<Option<Piece>>, c: Color, n: int) -> Seq<(u8, Seq<char>)>
    decreases n,
{
    if n <= 0 {
        Seq::empty()
    } else {
        knights_upto(b, c, n - 1) + if color_set(b, c).intersect(role_set(b, Role::Knight)).contains(
            n - 1,
        ) && central(n - 1) {
            seq![
                (POSITIONAL, color_text(c) + " has a centralized knight on "@ + square_text(n - 1)),
            ]
        } else {
            Seq::empty()
        }
    }
}

/// The open-file rook findings of side `c` for its rooks below `n`.
pub open spec fn rooks_upto(b: Seq<Option<Piece>>, c: Color, n: int) -> Seq<(u8, Seq<char>)>
    decreases n,
{
    if n <= 0 {
        Seq::empty()
    } else {
        rooks_upto(b, c, n - 1) + if color_set(b, c).intersect(role_set(b, Role::Rook)).contains(
            n - 1,
        ) && !file_has_pawn(b, file_of(n - 1)) {
            seq![
                (
                    POSITIONAL,
                    color_text(c) + " has a rook on the open "@ + file_text(file_of(n - 1))
                        + "-file"@,
                ),
            ]
        } else {
            Seq::empty()
        }
    }
}

/// The number of knights and bishops of side `c` below `n` still on its back rank.
pub open spec fn undeveloped_upto(b: Seq<Option<Piece>>, c: Color, n: int) -> nat
    decreases n,
{
    if n <= 0 {
        0
    } else {
        undeveloped_upto(b, c, n - 1) + if role_set(b, Role::Knight).union(
            role_set(b, Role::Bishop),
        ).intersect(color_set(b, c)).contains(n - 1) && rank_of(n - 1) == back_rank(c) {
            1nat
        } else {
            0nat
        }
    }
}

/// The piece-activity findings of side `c`: centralized knights, rooks on open files, and
/// two or more minor pieces left on the back rank.
pub open spec fn activity_of(b: Seq<Option<Piece>>, c: Color) -> Seq<(u8, Seq<char>)> {
    let n = undeveloped_upto(b, c, 64);
    knights_upto(b, c, 64) + rooks_upto(b, c, 64) + if n >= 2 {
        seq![(POSITIONAL, color_text(c) + " has "@ + decimal(n) + " undeveloped minor pieces"@)]
    } else {
        Seq::empty()
    }
}

/// The piece-activity findings of both sides, White's first.
pub open spec fn piece_activity(b: Seq<Option<Piece>>) -> Seq<(u8, Seq<char>)> {
    activity_of(b, Color::White) + activity_of(b, Color::Black)
}

/// Findings about the activity of one side's pieces.
fn piece_activity_side(board: &Board, color: Color, findings: &mut Vec<Finding>)
    requires
        board.wf(),
    ensures
        final(findings).deep_view() == old(findings).deep_view() + activity_of(board@, color),
{
    let ghost start = findings.deep_view();
    let side = color_name(color);
    // Check for centralized knights (knights on central squares are strong)
    let our_knights = board.by_color(color).and(board.by_role(Role::Knight));
    let mut sq: u32 = 0;
    while sq < 64
        invariant
            board.wf(),
            sq <= 64,
            side@ == color_text(color),
            our_knights@ == color_set(board@, color).intersect(role_set(board@, Role::Knight)),
            findings.deep_view() == start + knights_upto(board@, color, sq as int),
        decreases 64 - sq,
    {
        if our_knights.contains(sq) && (sq == 27 || sq == 35 || sq == 28 || sq == 36) {
            let mut s = String::from_str(side);
            s.append(" has a centralized knight on ");
            let n = square_name(sq);
            s.append(n.as_str());
            push_finding(findings, POSITIONAL, s);
        }
        assert(findings.deep_view() =~= start + knights_upto(board@, color, sq as int + 1));
        sq = sq + 1;
    }
    let ghost mid = findings.deep_view();
    // Check for rooks on open files (no pawns of any color on the file)
    let our_rooks = board.by_color(color).and(board.by_role(Role::Rook));
    let all_pawns = board.by_role(Role::Pawn);
    let mut sq: u32 = 0;
    while sq < 64
        invariant
            board.wf(),
            sq <= 64,
            side@ == color_text(color),
            our_rooks@ == color_set(board@, color).intersect(role_set(board@, Role::Rook)),
            all_pawns@ == role_set(board@, Role::Pawn),
            findings.deep_view() == mid + rooks_upto(board@, color, sq as int),
        decreases 64 - sq,
    {
        if our_rooks.contains(sq) {
            let file = sq % 8;
            let file_has_pawn = pawn_on_file(all_pawns, board, file);
            if !file_has_pawn {
                let mut s = String::from_str(side);
                s.append(" has a rook on the open ");
                s.append(file_letter(file));
                s.append("-file");
                push_finding(findings, POSITIONAL, s);
            }
        }
        assert(findings.deep_view() =~= mid + rooks_upto(board@, color, sq as int + 1));
        sq = sq + 1;
    }
    // Check for undeveloped minor pieces (still on back rank)
    let back_rank: u32 = match color {
        Color::White => 0,
        Color::Black => 7,
    };
    let minors = board.by_role(Role::Knight).or(board.by_role(Role::Bishop)).and(
        board.by_color(color),
    );
    let mut undeveloped: u32 = 0;
    let mut sq: u32 = 0;
    while sq < 64
        invariant
            board.wf(),
            sq <= 64,
            back_rank == crate::strategy::back_rank(color),
            minors@ == role_set(board@, Role::Knight).union(role_set(board@, Role::Bishop)).intersect(
                color_set(board@, color),
            ),
            undeveloped == undeveloped_upto(board@, color, sq as int),
            undeveloped <= sq,
        decreases 64 - sq,
    {
        if minors.contains(sq) {
            let rank = sq / 8;
            if rank == back_rank {
                undeveloped = undeveloped + 1;
            }
        }
        sq = sq + 1;
    }
    if undeveloped >= 2 {
        let mut s = String::from_str(side);
        s.append(" has ");
        let n = decimal_string(undeveloped as u64);
        s.append(n.as_str());
        s.append(" undeveloped minor pieces");
        push_finding(findings, POSITIONAL, s);
    }
    assert(findings.deep_view() =~= start + activity_of(board@, color));
}

/// Analyzes piece activity: centralized pieces, rooks on open files.
pub fn analyze_piece_activity(board: &Board) -> (r: Vec<Finding>)
    requires
        board.wf(),
    ensures
        r.deep_view() == piece_activity(board@),
{
    let mut findings: Vec<Finding> = Vec::new();
    assert(findings.deep_view() =~= Seq::<(u8, Seq<char>)>::empty());
    piece_activity_side(board, Color::White, &mut findings);
    piece_activity_side(board, Color::Black, &mut findings);
    assert(findings.deep_view() =~= piece_activity(board@));
    findings
}

/// All strategic findings: pawn structure, then king safety, then piece activity.
#[verifier::opaque]
pub open spec fn strategy_of(b: Seq<Option<Piece>>) -> Seq<(u8, Seq<char>)> {
    pawn_structure(b) + king_safety(b) + piece_activity(b)
}

/// Appends the findings `extra` to `v`.
pub fn extend_findings(v: &mut Vec<Finding>, extra: Vec<Finding>)
    ensures
        final(v).deep_view() == old(v).deep_view() + extra.deep_view(),
{
    let ghost start = v.deep_view();
    let ghost ev = extra.deep_view();
    let mut extra = extra;
    v.append(&mut extra);
    assert(v.deep_view() =~= start + ev);
}

/// Runs all strategic analyses and returns combined findings with priority tiers.
pub fn analyze_all_strategy(board: &Board) -> (r: Vec<Finding>)
    requires
        board.wf(),
    ensures
        r.deep_view() == strategy_of(board@),
{
    let mut findings: Vec<Finding> = Vec::new();
    assert(findings.deep_view() =~= Seq::<(u8, Seq<char>)>::empty());
    extend_findings(&mut findings, analyze_pawn_structure(board));
    extend_findings(&mut findings, analyze_king_safety(board));
    extend_findings(&mut findings, analyze_piece_activity(board));
    proof {
        reveal(strategy_of);
    }
    assert(findings.deep_view() =~= strategy_of(board@));
    findings
}

// ---------------------------------------------------------------------------------------
// Laws
/// The text of a passed-pawn finding for the pawn of side `c` on `s`.
pub open spec fn passed_pawn_text(c: Color, s: int) -> Seq<char> {
    color_text(c) + " has a passed pawn on "@ + square_text(s) + " (rank "@ + decimal(
        (rank_of(s) + 1) as nat,
    ) + ")"@
}

/// Whether a pawn of side `c` on `s` has no enemy pawn ahead of it, in its direction of
/// travel, on its own file or a neighbouring one.
pub open spec fn no_enemy_pawn_ahead(b: Seq<Option<Piece>>, c: Color, s: int) -> bool {
    forall|e: int|
        0 <= e < 64 && #[trigger] b[e] == Some(Piece { color: opponent(c), role: Role::Pawn })
            && (file_of(e) - file_of(s) <= 1 && file_of(s) - file_of(e) <= 1) ==> match c {
            Color::White => rank_of(e) <= rank_of(s),
            Color::Black => rank_of(e) >= rank_of(s),
        }
}

proof fn lemma_positional_upto(b: Seq<Option<Piece>>, c: Color, n: int, i: int)
    requires
        0 <= i < doubled_upto(b, c, n).len() || 0 <= i < isolated_upto(b, c, n).len(),
    ensures
        0 <= i < doubled_upto(b, c, n).len() ==> doubled_upto(b, c, n)[i].0 == POSITIONAL,
        0 <= i < isolated_upto(b, c, n).len() ==> isolated_upto(b, c, n)[i].0 == POSITIONAL,
    decreases n,
{
    if n > 0 {
        let d = doubled_upto(b, c, n - 1);
        let iso = isolated_upto(b, c, n - 1);
        if i < d.len() || i < iso.len() {
            lemma_positional_upto(b, c, n - 1, i);
        }
    }
}

proof fn lemma_passed_entry(b: Seq<Option<Piece>>, c: Color, n: int, i: int)
    requires
        b.len() == 64,
        0 <= i < passed_upto(b, c, n).len(),
        n <= 64,
    ensures
        exists|s: int|
            0 <= s < n && #[trigger] b[s] == Some(Piece { color: c, role: Role::Pawn })
                && passed_upto(b, c, n)[i] == (IMPORTANT, passed_pawn_text(c, s))
                && no_enemy_pawn_ahead(b, c, s) && advanced(c, rank_of(s)),
    decreases n,
{
    let rest = passed_upto(b, c, n - 1);
    if i < rest.len() {
        lemma_passed_entry(b, c, n - 1, i);
        let s = choose|s: int|
            0 <= s < n - 1 && #[trigger] b[s] == Some(Piece { color: c, role: Role::Pawn })
                && rest[i] == (IMPORTANT, passed_pawn_text(c, s)) && no_enemy_pawn_ahead(b, c, s)
                && advanced(c, rank_of(s));
        assert(passed_upto(b, c, n)[i] == rest[i]);
        assert(b[s] == Some(Piece { color: c, role: Role::Pawn }));
    } else {
        let s = n - 1;
        assert(pawns_of(b, c).contains(s) && passed(b, c, s));
        assert(b[s] == Some(Piece { color: c, role: Role::Pawn }));
        assert forall|e: int|
            0 <= e < 64 && #[trigger] b[e] == Some(Piece { color: opponent(c), role: Role::Pawn })
                && (file_of(e) - file_of(s) <= 1 && file_of(s) - file_of(e) <= 1) implies match c {
            Color::White => rank_of(e) <= rank_of(s),
            Color::Black => rank_of(e) >= rank_of(s),
        } by {
            assert(pawns_of(b, opponent(c)).contains(e));
            assert(!blocks(c, e, s));
        }
    }
}

/// A pawn is reported passed only when no enemy pawn stands ahead of it on its own file or a
/// neighbouring one: every passed-pawn finding (the only findings of pawn structure given
/// the priority `IMPORTANT`) names a pawn of its side that no enemy pawn stops and that has
/// left its own half.
pub proof fn law_passed_only_when_free(b: Seq<Option<Piece>>, i: int)
    requires
        b.len() == 64,
        0 <= i < pawn_structure(b).len(),
        pawn_structure(b)[i].0 == IMPORTANT,
    ensures
        exists|c: Color, s: int|
            #![trigger passed_pawn_text(c, s)]
            0 <= s < 64 && b[s] == Some(Piece { color: c, role: Role::Pawn })
                && pawn_structure(b)[i].1 == passed_pawn_text(c, s) && no_enemy_pawn_ahead(b, c, s)
                && match c {
                Color::White => rank_of(s) >= 2,
                Color::Black => rank_of(s) <= 5,
            },
{
    let w = pawn_structure_of(b, Color::White);
    let bl = pawn_structure_of(b, Color::Black);
    let (c, j) = if i < w.len() {
        (Color::White, i)
    } else {
        (Color::Black, i - w.len())
    };
    let ps = pawn_structure_of(b, c);
    assert(ps[j] == pawn_structure(b)[i]);
    let d = doubled_upto(b, c, 8);
    let iso = isolated_upto(b, c, 64);
    let pu = passed_upto(b, c, 64);
    if j < d.len() {
        lemma_positional_upto(b, c, 8, j);
        assert(ps[j] == d[j]);
    } else if j < d.len() + iso.len() {
        lemma_positional_upto(b, c, 64, j - d.len());
        assert(ps[j] == iso[j - d.len()]);
    } else {
        assert(ps[j] == pu[j - d.len() - iso.len()]);
        lemma_passed_entry(b, c, 64, j - d.len() - iso.len());
        let s = choose|s: int|
            0 <= s < 64 && #[trigger] b[s] == Some(Piece { color: c, role: Role::Pawn })
                && pu[j - d.len() - iso.len()] == (IMPORTANT, passed_pawn_text(c, s))
                && no_enemy_pawn_ahead(b, c, s) && advanced(c, rank_of(s));
        assert(b[s] == Some(Piece { color: c, role: Role::Pawn }));
        assert(pawn_structure(b)[i].1 == passed_pawn_text(c, s));
    }
}

proof fn lemma_passed_listed(b: Seq<Option<Piece>>, c: Color, s: int, n: int)
    requires
        b.len() == 64,
        0 <= s < n <= 64,
        b[s] == Some(Piece { color: c, role: Role::Pawn }),
        no_enemy_pawn_ahead(b, c, s),
        advanced(c, rank_of(s)),
    ensures
        passed_upto(b, c, n).contains((IMPORTANT, passed_pawn_text(c, s))),
    decreases n,
{
    let rest = passed_upto(b, c, n - 1);
    if s < n - 1 {
        lemma_passed_listed(b, c, s, n - 1);
        let i = choose|i: int| 0 <= i < rest.len() && rest[i] == (IMPORTANT, passed_pawn_text(c, s));
        assert(passed_upto(b, c, n)[i] == rest[i]);
    } else {
        assert(pawns_of(b, c).contains(s));
        assert forall|e: int| #[trigger] pawns_of(b, opponent(c)).contains(e) implies !blocks(c, e, s) by {
            assert(b[e] == Some(Piece { color: opponent(c), role: Role::Pawn }));
        }
        assert(passed_upto(b, c, n)[rest.len() as int] == (IMPORTANT, passed_pawn_text(c, s)));
    }
}

/// Every pawn that has left its own half with no enemy pawn ahead of it on its own file or a
/// neighbouring one is reported passed.
pub proof fn law_free_pawn_reported(b: Seq<Option<Piece>>, c: Color, s: int)
    requires
        b.len() == 64,
        0 <= s < 64,
        b[s] == Some(Piece { color: c, role: Role::Pawn }),
        no_enemy_pawn_ahead(b, c, s),
        match c {
            Color::White => rank_of(s) >= 2,
            Color::Black => rank_of(s) <= 5,
        },
    ensures
        pawn_structure(b).contains((IMPORTANT, passed_pawn_text(c, s))),
{
    lemma_passed_listed(b, c, s, 64);
    let pu = passed_upto(b, c, 64);
    let i = choose|i: int| 0 <= i < pu.len() && pu[i] == (IMPORTANT, passed_pawn_text(c, s));
    let ps = pawn_structure_of(b, c);
    let pre = doubled_upto(b, c, 8) + isolated_upto(b, c, 64);
    assert(ps == pre + pu);
    assert(ps[pre.len() + i] == pu[i]);
    let w = pawn_structure_of(b, Color::White);
    let bl = pawn_structure_of(b, Color::Black);
    if c == Color::White {
        assert(pawn_structure(b)[pre.len() + i] == ps[pre.len() + i]);
    } else {
        assert(pawn_structure(b)[w.len() + pre.len() + i] == ps[pre.len() + i]);
    }
}

/// The text of the finding that the king of side `c` has no pawn shield.
pub open spec fn no_shield_text(c: Color) -> Seq<char> {
    color_text(c) + "'s king has no pawn shield — potentially unsafe"@
}

/// Whether side `c` has a pawn on the rank directly in front of its king on `k`, toward the
/// enemy, on the king's file or a neighbouring one.
pub open spec fn has_shield_pawn(b: Seq<Option<Piece>>, c: Color, k: int) -> bool {
    exists|t: int|
        0 <= t < 64 && #[trigger] b[t] == Some(Piece { color: c, role: Role::Pawn }) && rank_of(t)
            == (match c {
            Color::White => rank_of(k) + 1,
            Color::Black => rank_of(k) - 1,
        }) && file_of(t) - file_of(k) <= 1 && file_of(k) - file_of(t) <= 1
}

/// Whether the king of side `c` on `k` stands castled: on its back rank, on the a, b, g or h
/// file.
pub open spec fn castled_king(c: Color, k: int) -> bool {
    rank_of(k) == (match c {
        Color::White => 0int,
        Color::Black => 7int,
    }) && (file_of(k) <= 1 || file_of(k) >= 6)
}

proof fn lemma_shield_zero(b: Seq<Option<Piece>>, c: Color, sr: int, lo: int, hi: int, f: int)
    requires
        lo <= f < hi,
    ensures
        pawns_of(b, c).contains(f + sr * 8) ==> shield_upto(b, c, sr, lo, hi) > 0,
    decreases hi - lo,
{
    if f < hi - 1 {
        lemma_shield_zero(b, c, sr, lo, hi - 1, f);
    }
}

proof fn lemma_shield_none(b: Seq<Option<Piece>>, c: Color, sr: int, lo: int, hi: int)
    requires
        forall|f: int| lo <= f < hi ==> !#[trigger] pawns_of(b, c).contains(f + sr * 8),
    ensures
        shield_upto(b, c, sr, lo, hi) == 0,
    decreases hi - lo,
{
    if hi > lo {
        lemma_shield_none(b, c, sr, lo, hi - 1);
    }
}

proof fn lemma_open_entries(b: Seq<Option<Piece>>, c: Color, lo: int, hi: int, i: int)
    requires
        0 <= i < open_files_upto(b, c, lo, hi).len(),
    ensures
        exists|f: int|
            open_files_upto(b, c, lo, hi)[i].1 == "Open "@ + #[trigger] file_text(f) + "-file near "@
                + color_text(c) + "'s king"@,
    decreases hi - lo,
{
    let rest = open_files_upto(b, c, lo, hi - 1);
    if i < rest.len() {
        lemma_open_entries(b, c, lo, hi - 1, i);
        let f = choose|f: int|
            rest[i].1 == "Open "@ + #[trigger] file_text(f) + "-file near "@ + color_text(c)
                + "'s king"@;
        assert(open_files_upto(b, c, lo, hi)[i] == rest[i]);
    } else {
        assert(open_files_upto(b, c, lo, hi)[i].1 == "Open "@ + file_text(hi - 1) + "-file near "@
            + color_text(c) + "'s king"@);
    }
}

proof fn lemma_lowest_member(st: Set<int>, n: int)
    requires
        lowest_below(st, n) is Some,
    ensures
        st.contains(lowest_below(st, n)->Some_0),
        0 <= lowest_below(st, n)->Some_0 < n,
    decreases n,
{
    if n > 0 && lowest_below(st, n - 1) is Some {
        lemma_lowest_member(st, n - 1);
    }
}

/// A pawn on the rank `sr` in front of a king, within one file of it, is the square of its
/// file on that rank.
proof fn lemma_square_of(t: int, sr: int)
    requires
        0 <= t < 64,
        rank_of(t) == sr,
    ensures
        t == file_of(t) + sr * 8,
{
}

proof fn lemma_shield_count_zero(b: Seq<Option<Piece>>, c: Color, k: int)
    requires
        0 <= k < 64,
        castled_king(c, k),
        shield_count(b, c, k) == 0,
    ensures
        !has_shield_pawn(b, c, k),
{
    let (lo, hi) = near_files(file_of(k));
    let sr = match c {
        Color::White => rank_of(k) + 1,
        Color::Black => rank_of(k) - 1,
    };
    assert(shield_rank(c, rank_of(k)) == Some(sr));
    if has_shield_pawn(b, c, k) {
        let t = choose|t: int|
            0 <= t < 64 && #[trigger] b[t] == Some(Piece { color: c, role: Role::Pawn })
                && rank_of(t) == sr && file_of(t) - file_of(k) <= 1 && file_of(k) - file_of(t)
                <= 1;
        lemma_square_of(t, sr);
        assert(pawns_of(b, c).contains(t));
        lemma_shield_zero(b, c, sr, lo, hi + 1, file_of(t));
    }
}

/// The no-shield finding is given only for a castled king with no pawn of its side on the
/// rank in front of it, on its file or a neighbouring one: every finding of king safety with
/// the priority `IMPORTANT` is an open-file finding or such a no-shield finding.
pub proof fn law_no_shield_only_when_bare(b: Seq<Option<Piece>>, i: int)
    requires
        b.len() == 64,
        0 <= i < king_safety(b).len(),
        king_safety(b)[i].0 == IMPORTANT,
    ensures
        (exists|f: int, c: Color|
            king_safety(b)[i].1 == "Open "@ + #[trigger] file_text(f) + "-file near "@
                + #[trigger] color_text(c) + "'s king"@) || (exists|c: Color, k: int|
            #![trigger has_shield_pawn(b, c, k)]
            0 <= k < 64 && b[k] == Some(Piece { color: c, role: Role::King })
                && castled_king(c, k) && !has_shield_pawn(b, c, k) && king_safety(b)[i].1
                == no_shield_text(c)),
{
    let w = king_safety_of(b, Color::White);
    let (c, j) = if i < w.len() {
        (Color::White, i)
    } else {
        (Color::Black, i - w.len())
    };
    let ks = king_safety_of(b, c);
    assert(ks[j] == king_safety(b)[i]);
    let ksq = king_square(b, c);
    let k = ksq->Some_0;
    lemma_lowest_member(role_set(b, Role::King).intersect(color_set(b, c)), 64);
    assert(b[k] == Some(Piece { color: c, role: Role::King }));
    let kf = file_of(k);
    let castled = rank_of(k) == back_rank(c) && (kf >= 6 || kf <= 1);
    let no_shield = if castled && shield_count(b, c, k) == 0 {
        seq![(IMPORTANT, color_text(c) + "'s king has no pawn shield — potentially unsafe"@)]
    } else {
        Seq::empty()
    };
    let n = pressure_upto(b, c, k, 64);
    let pressure = if n >= 2 {
        seq![
            (
                CRITICAL,
                color_text(c) + "'s king is under pressure — "@ + decimal(n)
                    + " enemy pieces attack the king zone"@,
            ),
        ]
    } else {
        Seq::<(u8, Seq<char>)>::empty()
    };
    let (lo, hi) = near_files(kf);
    let of = open_files_upto(b, c, lo, hi + 1);
    assert(ks == no_shield + pressure + of);
    if j < no_shield.len() {
        lemma_shield_count_zero(b, c, k);
        assert(king_safety(b)[i].1 == no_shield_text(c));
    } else if j < no_shield.len() + pressure.len() {
        assert(ks[j] == pressure[j - no_shield.len()]);
    } else {
        assert(ks[j] == of[j - no_shield.len() - pressure.len()]);
        lemma_open_entries(b, c, lo, hi + 1, j - no_shield.len() - pressure.len());
        let f = choose|f: int|
            of[j - no_shield.len() - pressure.len()].1 == "Open "@ + #[trigger] file_text(f)
                + "-file near "@ + color_text(c) + "'s king"@;
        assert(king_safety(b)[i].1 == "Open "@ + file_text(f) + "-file near "@ + color_text(c)
            + "'s king"@);
    }
}

/// A castled king, the only king of its side, with no pawn of its side on the rank in front
/// of it on its file or a neighbouring one, is reported as having no pawn shield.
pub proof fn law_bare_king_reported(b: Seq<Option<Piece>>, c: Color, k: int)
    requires
        b.len() == 64,
        0 <= k < 64,
        b[k] == Some(Piece { color: c, role: Role::King }),
        forall|t: int|
            0 <= t < 64 && #[trigger] b[t] == Some(Piece { color: c, role: Role::King }) ==> t
                == k,
        castled_king(c, k),
        !has_shield_pawn(b, c, k),
    ensures
        king_safety(b).contains((IMPORTANT, no_shield_text(c))),
{
    let kings = role_set(b, Role::King).intersect(color_set(b, c));
    assert forall|t: int| 0 <= t < 64 && #[trigger] kings.contains(t) implies t == k by {
        assert(b[t] == Some(Piece { color: c, role: Role::King }));
    }
    assert(kings.contains(k));
    lemma_lowest_single(kings, k, 64);
    assert(king_square(b, c) == Some(k));
    let (lo, hi) = near_files(file_of(k));
    let sr = match c {
        Color::White => rank_of(k) + 1,
        Color::Black => rank_of(k) - 1,
    };
    assert(shield_rank(c, rank_of(k)) == Some(sr));
    assert forall|f: int| lo <= f < hi + 1 implies !#[trigger] pawns_of(b, c).contains(f + sr * 8) by {
        if pawns_of(b, c).contains(f + sr * 8) {
            let t = f + sr * 8;
            assert(file_of(t) == f && rank_of(t) == sr);
            assert(b[t] == Some(Piece { color: c, role: Role::Pawn }));
        }
    }
    lemma_shield_none(b, c, sr, lo, hi + 1);
    assert(shield_count(b, c, k) == 0);
    let ks = king_safety_of(b, c);
    assert(ks[0] == (IMPORTANT, no_shield_text(c)));
    let w = king_safety_of(b, Color::White);
    if c == Color::White {
        assert(king_safety(b)[0] == ks[0]);
    } else {
        assert(king_safety(b)[w.len() as int] == ks[0]);
    }
}

} // verus!
