use vstd::prelude::*;

use crate::attacks::{
    attackers_set, attackers_to, between, between_set, bishop_attacks, bishop_set, king_attacks,
    king_set, knight_attacks, knight_set, pawn_attacks_from, pawn_set, queen_attacks, queen_set,
    rook_attacks, rook_set, same_diagonal, same_line, strictly_between,
};
use crate::bitboard::{count_below, lowest_below, square_count, Bitboard};
use crate::board::{
    color_name, color_set, color_text, holds_color, on_board, occupied_set, opponent, role_on,
    role_set, square_name, square_text, Board, Color, Piece, Role,
};
use crate::text::join;

verus! {

// Standard piece values in centipawns
pub const PAWN_VALUE: i32 = 100;

pub const KNIGHT_VALUE: i32 = 300;

pub const BISHOP_VALUE: i32 = 320;

pub const ROOK_VALUE: i32 = 500;

pub const QUEEN_VALUE: i32 = 900;

/// The centipawn value of a kind of piece; the king counts for nothing.
pub open spec fn role_value(r: Role) -> int {
    match r {
        Role::Pawn => PAWN_VALUE as int,
        Role::Knight => KNIGHT_VALUE as int,
        Role::Bishop => BISHOP_VALUE as int,
        Role::Rook => ROOK_VALUE as int,
        Role::Queen => QUEEN_VALUE as int,
        Role::King => 0,
    }
}

/// Returns the centipawn value of a piece by its role.
pub fn piece_value(role: Role) -> (r: i32)
    ensures
        r == role_value(role),
{
    match role {
        Role::Pawn => PAWN_VALUE,
        Role::Knight => KNIGHT_VALUE,
        Role::Bishop => BISHOP_VALUE,
        Role::Rook => ROOK_VALUE,
        Role::Queen => QUEEN_VALUE,
        Role::King => 0,
    }
}

/// The name of a kind of piece as written in findings.
pub open spec fn role_text(r: Role) -> Seq<char> {
    match r {
        Role::Pawn => "pawn"@,
        Role::Knight => "knight"@,
        Role::Bishop => "bishop"@,
        Role::Rook => "rook"@,
        Role::Queen => "queen"@,
        Role::King => "king"@,
    }
}

/// Human-readable name for a piece role.
pub fn piece_name(role: Role) -> (r: &'static str)
    ensures
        r@ == role_text(role),
{
    match role {
        Role::Pawn => "pawn",
        Role::Knight => "knight",
        Role::Bishop => "bishop",
        Role::Rook => "rook",
        Role::Queen => "queen",
        Role::King => "king",
    }
}

/// Priority tier of findings that need attention first.
pub const CRITICAL: u8 = 1;

/// Priority tier of findings that matter.
pub const IMPORTANT: u8 = 2;

/// Priority tier of positional observations.
pub const POSITIONAL: u8 = 3;

/// An observation about a position, with its priority tier.
#[derive(Clone, Debug)]
pub struct Finding {
    pub priority: u8,
    pub text: String,
}

impl DeepView for Finding {
    type V = (u8, Seq<char>);

    open spec fn deep_view(&self) -> (u8, Seq<char>) {
        (self.priority, self.text@)
    }
}

impl Finding {
    /// A finding of the given tier.
    pub fn new(priority: u8, text: String) -> (r: Finding)
        ensures
            r.deep_view() == (priority, text@),
    {
        Finding { priority, text }
    }
}

/// Appends a finding of tier `priority` to a list of findings.
pub fn push_finding(v: &mut Vec<Finding>, priority: u8, text: String)
    ensures
        final(v).deep_view() == old(v).deep_view().push((priority, text@)),
{
    let ghost before = v.deep_view();
    let ghost t = text@;
    v.push(Finding::new(priority, text));
    assert(v.deep_view() =~= before.push((priority, t)));
}

/// Appends a finding to a list of findings.
pub fn push_text(v: &mut Vec<String>, s: String)
    ensures
        final(v).deep_view() == old(v).deep_view().push(s@),
{
    let ghost before = v.deep_view();
    v.push(s);
    assert(v.deep_view() =~= before.push(s@));
}

/// The squares a piece of kind `r` and side `c` on `s` attacks, with the squares of `b` occupied.
pub open spec fn reach_set(b: Seq<Option<Piece>>, c: Color, s: int, r: Role) -> Set<int> {
    match r {
        Role::Pawn => pawn_set(c, s),
        Role::Knight => knight_set(s),
        Role::Bishop => bishop_set(s, occupied_set(b)),
        Role::Rook => rook_set(s, occupied_set(b)),
        Role::Queen => queen_set(s, occupied_set(b)),
        Role::King => king_set(s),
    }
}

/// The squares a piece of kind `role` and side `color` on `sq` attacks.
pub fn piece_reach(board: &Board, occupied: Bitboard, color: Color, sq: u32, role: Role) -> (r:
    Bitboard)
    requires
        board.wf(),
        sq < 64,
        occupied@ == occupied_set(board@),
    ensures
        r@ == reach_set(board@, color, sq as int, role),
{
    match role {
        Role::Pawn => pawn_attacks_from(color, sq),
        Role::Knight => knight_attacks(sq),
        Role::Bishop => bishop_attacks(sq, occupied),
        Role::Rook => rook_attacks(sq, occupied),
        Role::Queen => queen_attacks(sq, occupied),
        Role::King => king_attacks(sq),
    }
}

/// "<piece> on <square>".
pub open spec fn piece_on_text(b: Seq<Option<Piece>>, t: int) -> Seq<char> {
    role_text(role_on(b, t)) + " on "@ + square_text(t)
}

fn piece_on_string(board: &Board, t: u32, role: Role) -> (r: String)
    requires
        board.wf(),
        t < 64,
        board@[t as int] matches Some(p) && p.role == role,
    ensures
        r@ == piece_on_text(board@, t as int),
{
    let mut s = String::from_str(piece_name(role));
    s.append(" on ");
    let n = square_name(t);
    s.append(n.as_str());
    s
}

// ---------------------------------------------------------------------------------------
// Hanging pieces
/// The finding for a hanging piece.
pub open spec fn hanging_text(c: Color, r: Role, s: int) -> Seq<char> {
    color_text(c) + "'s "@ + role_text(r) + " on "@ + square_text(s)
        + " is hanging — attacked but undefended"@
}

/// What square `s` contributes to the hanging pieces of side `c`: a non-king piece of `c`
/// that the other side attacks and that `c` does not defend.
pub open spec fn hanging_at(b: Seq<Option<Piece>>, c: Color, s: int) -> Seq<Seq<char>> {
    if color_set(b, c).difference(role_set(b, Role::King)).contains(s) && attackers_set(
        b,
        s,
        opponent(c),
    ) != Set::<int>::empty() && attackers_set(b, s, c) == Set::<int>::empty() {
        seq![hanging_text(c, role_on(b, s), s)]
    } else {
        Seq::empty()
    }
}

/// The hanging-piece findings of side `c` among the squares below `n`, in square order.
pub open spec fn hanging_upto(b: Seq<Option<Piece>>, c: Color, n: int) -> Seq<Seq<char>>
    decreases n,
{
    if n <= 0 {
        Seq::empty()
    } else {
        hanging_upto(b, c, n - 1) + hanging_at(b, c, n - 1)
    }
}

/// Detects hanging pieces for a single color: pieces attacked by the opponent
/// but not defended by their own side.
pub fn detect_hanging(board: &Board, color: Color, findings: &mut Vec<String>)
    requires
        board.wf(),
    ensures
        final(findings).deep_view() == old(findings).deep_view() + hanging_upto(
            board@,
            color,
            64,
        ),
{
    let ghost start = findings.deep_view();
    let ghost b = board@;
    let pieces = board.by_color(color).without(board.by_role(Role::King));
    let opp = color.other();
    let mut sq: u32 = 0;
    while sq < 64
        invariant
            board.wf(),
            b == board@,
            sq <= 64,
            pieces@ == color_set(b, color).difference(role_set(b, Role::King)),
            opp == opponent(color),
            findings.deep_view() == start + hanging_upto(b, color, sq as int),
        decreases 64 - sq,
    {
        let ghost before = findings.deep_view();
        if pieces.contains(sq) {
            match board.piece_at(sq) {
                Some(p) => {
                    let attackers = attackers_to(board, sq, opp);
                    let defenders = attackers_to(board, sq, color);
                    if !attackers.is_empty() && defenders.is_empty() {
                        let mut s = String::from_str(color_name(color));
                        s.append("'s ");
                        s.append(piece_name(p.role));
                        s.append(" on ");
                        let n = square_name(sq);
                        s.append(n.as_str());
                        s.append(" is hanging — attacked but undefended");
                        push_text(findings, s);
                    }
                },
                None => {},
            }
        }
        assert(findings.deep_view() =~= before + hanging_at(b, color, sq as int));
        sq = sq + 1;
    }
}

// ---------------------------------------------------------------------------------------
// Forks
/// The enemy pieces that a piece of side `c` can fork: every piece of the other side but its
/// king.
pub open spec fn fork_targets(b: Seq<Option<Piece>>, c: Color) -> Set<int> {
    color_set(b, opponent(c)).difference(role_set(b, Role::King))
}

/// The highest value of the attacked pieces below `n` (0 when there is none).
pub open spec fn top_value_upto(b: Seq<Option<Piece>>, hits: Set<int>, n: int) -> int
    decreases n,
{
    if n <= 0 {
        0
    } else {
        let rest = top_value_upto(b, hits, n - 1);
        if hits.contains(n - 1) && role_value(role_on(b, n - 1)) > rest {
            role_value(role_on(b, n - 1))
        } else {
            rest
        }
    }
}

/// How many of the attacked pieces below `n` no piece of their side defends; the pieces are
/// of the side other than `c`.
pub open spec fn undefended_upto(b: Seq<Option<Piece>>, c: Color, hits: Set<int>, n: int) -> nat
    decreases n,
{
    if n <= 0 {
        0
    } else {
        undefended_upto(b, c, hits, n - 1) + if hits.contains(n - 1) && attackers_set(
            b,
            n - 1,
            opponent(c),
        ) == Set::<int>::empty() {
            1nat
        } else {
            0nat
        }
    }
}

/// Whether a piece of kind `r` that attacks the pieces `hits` makes a fork worth reporting:
/// it is worth less than the most valuable of them, or at least two of them are undefended so
/// that they cannot all escape.
pub open spec fn fork_wins(b: Seq<Option<Piece>>, c: Color, r: Role, hits: Set<int>) -> bool {
    role_value(r) < top_value_upto(b, hits, 64) || undefended_upto(b, c, hits, 64) >= 2
}

/// Names of all attacked pieces below `n`.
pub open spec fn hit_names_upto(b: Seq<Option<Piece>>, hits: Set<int>, n: int) -> Seq<Seq<char>>
    decreases n,
{
    if n <= 0 {
        Seq::empty()
    } else {
        hit_names_upto(b, hits, n - 1) + if hits.contains(n - 1) {
            seq![piece_on_text(b, n - 1)]
        } else {
            Seq::empty()
        }
    }
}

/// "<Side>'s <piece> on <square>" at the head of a fork finding.
pub open spec fn side_piece_text(c: Color, r: Role, s: int) -> Seq<char> {
    color_text(c) + "'s "@ + role_text(r) + " on "@ + square_text(s)
}

/// The fork findings of the piece on `s`, if it belongs to side `c`.
pub open spec fn forks_at(b: Seq<Option<Piece>>, c: Color, s: int) -> Seq<Seq<char>> {
    if color_set(b, c).contains(s) {
        let r = role_on(b, s);
        let att = reach_set(b, c, s, r);
        let hits = att.intersect(fork_targets(b, c));
        let targets = hit_names_upto(b, hits, 64);
        let first = if square_count(hits) >= 2 && fork_wins(b, c, r, hits) {
            seq![side_piece_text(c, r, s) + " forks "@ + join(targets, " and "@)]
        } else {
            Seq::empty()
        };
        let king_hit = att.intersect(color_set(b, opponent(c)).intersect(role_set(b, Role::King)));
        let second = if king_hit != Set::<int>::empty() && hits != Set::<int>::empty()
            && targets.len() > 0 {
            seq![side_piece_text(c, r, s) + " attacks the king and "@ + join(targets, ", "@)]
        } else {
            Seq::empty()
        };
        first + second
    } else {
        Seq::empty()
    }
}

/// The fork findings of side `c` for its pieces below `n`.
pub open spec fn forks_upto(b: Seq<Option<Piece>>, c: Color, n: int) -> Seq<Seq<char>>
    decreases n,
{
    if n <= 0 {
        Seq::empty()
    } else {
        forks_upto(b, c, n - 1) + forks_at(b, c, n - 1)
    }
}

fn side_piece_string(c: Color, r: Role, s: u32) -> (out: String)
    requires
        s < 64,
    ensures
        out@ == side_piece_text(c, r, s as int),
{
    let mut t = String::from_str(color_name(c));
    t.append("'s ");
    t.append(piece_name(r));
    t.append(" on ");
    let n = square_name(s);
    t.append(n.as_str());
    t
}

/// The highest value among the attacked enemy pieces, and how many of them are undefended.
fn fork_measures(board: &Board, color: Color, hits: Bitboard) -> (r: (i32, u32))
    requires
        board.wf(),
        hits@.subset_of(fork_targets(board@, color)),
    ensures
        r.0 == top_value_upto(board@, hits@, 64),
        r.1 == undefended_upto(board@, color, hits@, 64),
{
    let mut top: i32 = 0;
    let mut undefended: u32 = 0;
    let mut t: u32 = 0;
    while t < 64
        invariant
            board.wf(),
            t <= 64,
            hits@.subset_of(fork_targets(board@, color)),
            top == top_value_upto(board@, hits@, t as int),
            0 <= top <= 900,
            undefended == undefended_upto(board@, color, hits@, t as int),
            undefended <= t,
        decreases 64 - t,
    {
        if hits.contains(t) {
            match board.piece_at(t) {
                Some(p) => {
                    let v = piece_value(p.role);
                    if v > top {
                        top = v;
                    }
                    let defenders = attackers_to(board, t, color.other());
                    if defenders.is_empty() {
                        undefended = undefended + 1;
                    }
                },
                None => {
                    assert(color_set(board@, opponent(color)).contains(t as int));
                },
            }
        }
        t = t + 1;
    }
    (top, undefended)
}

/// Names of all attacked enemy pieces.
fn hit_names(board: &Board, color: Color, hits: Bitboard) -> (r: Vec<String>)
    requires
        board.wf(),
        hits@.subset_of(fork_targets(board@, color)),
    ensures
        r.deep_view() == hit_names_upto(board@, hits@, 64),
{
    let mut names: Vec<String> = Vec::new();
    let mut t: u32 = 0;
    while t < 64
        invariant
            board.wf(),
            t <= 64,
            hits@.subset_of(fork_targets(board@, color)),
            names.deep_view() == hit_names_upto(board@, hits@, t as int),
        decreases 64 - t,
    {
        let ghost before = names.deep_view();
        if hits.contains(t) {
            match board.piece_at(t) {
                Some(p) => {
                    let s = piece_on_string(board, t, p.role);
                    push_text(&mut names, s);
                },
                None => {
                    assert(color_set(board@, opponent(color)).contains(t as int));
                },
            }
        }
        assert(names.deep_view() =~= hit_names_upto(board@, hits@, t as int + 1));
        t = t + 1;
    }
    names
}

/// The fork findings of the piece on `sq`.
fn forks_of_square(
    board: &Board,
    color: Color,
    sq: u32,
    role: Role,
    occupied: Bitboard,
    their_pieces: Bitboard,
    findings: &mut Vec<String>,
)
    requires
        board.wf(),
        sq < 64,
        color_set(board@, color).contains(sq as int),
        role == role_on(board@, sq as int),
        occupied@ == occupied_set(board@),
        their_pieces@ == fork_targets(board@, color),
    ensures
        final(findings).deep_view() == old(findings).deep_view() + forks_at(
            board@,
            color,
            sq as int,
        ),
{
    let ghost start = findings.deep_view();
    let piece_attacks = piece_reach(board, occupied, color, sq, role);
    let attacked_enemies = piece_attacks.and(their_pieces);
    if attacked_enemies.count() >= 2 {
        let (top, undefended) = fork_measures(board, color, attacked_enemies);
        if piece_value(role) < top || undefended >= 2 {
            let attacked_names = hit_names(board, color, attacked_enemies);
            let mut s = side_piece_string(color, role, sq);
            s.append(" forks ");
            let j = join_strings_and(&attacked_names);
            s.append(j.as_str());
            push_text(findings, s);
        }
    }
    let ghost mid = findings.deep_view();
    let their_king = board.by_color(color.other()).and(board.by_role(Role::King));
    let attacked_king = piece_attacks.and(their_king);
    if !attacked_king.is_empty() && !attacked_enemies.is_empty() {
        let targets = hit_names(board, color, attacked_enemies);
        if targets.len() > 0 {
            let mut s = side_piece_string(color, role, sq);
            s.append(" attacks the king and ");
            let j = crate::text::join_strings(&targets, ", ");
            s.append(j.as_str());
            push_text(findings, s);
        }
    }
    assert(findings.deep_view() =~= start + forks_at(board@, color, sq as int));
}

fn join_strings_and(parts: &Vec<String>) -> (r: String)
    ensures
        r@ == join(parts.deep_view(), " and "@),
{
    crate::text::join_strings(parts, " and ")
}

/// Detects forks: a piece attacking 2+ enemy pieces where material can be won.
/// A fork is meaningful when the forking piece is worth less than the most
/// valuable attacked piece, or the attacked pieces can't all escape.
pub fn detect_forks(board: &Board, color: Color, findings: &mut Vec<String>)
    requires
        board.wf(),
    ensures
        final(findings).deep_view() == old(findings).deep_view() + forks_upto(board@, color, 64),
{
    let ghost start = findings.deep_view();
    let occupied = board.occupied();
    let our_pieces = board.by_color(color);
    let their_pieces = board.by_color(color.other()).without(board.by_role(Role::King));
    let mut sq: u32 = 0;
    while sq < 64
        invariant
            board.wf(),
            sq <= 64,
            occupied@ == occupied_set(board@),
            our_pieces@ == color_set(board@, color),
            their_pieces@ == fork_targets(board@, color),
            findings.deep_view() == start + forks_upto(board@, color, sq as int),
        decreases 64 - sq,
    {
        let ghost before = findings.deep_view();
        if our_pieces.contains(sq) {
            match board.piece_at(sq) {
                Some(p) => {
                    forks_of_square(board, color, sq, p.role, occupied, their_pieces, findings);
                },
                None => {},
            }
        }
        assert(findings.deep_view() =~= before + forks_at(board@, color, sq as int));
        sq = sq + 1;
    }
}

// ---------------------------------------------------------------------------------------
// Pins
/// The squares of the diagonal sliders (bishops and queens) of side `c`.
pub open spec fn diagonal_sliders(b: Seq<Option<Piece>>, c: Color) -> Set<int> {
    role_set(b, Role::Bishop).union(role_set(b, Role::Queen)).intersect(color_set(b, c))
}

/// The squares of the straight sliders (rooks and queens) of side `c`.
pub open spec fn straight_sliders(b: Seq<Option<Piece>>, c: Color) -> Set<int> {
    role_set(b, Role::Rook).union(role_set(b, Role::Queen)).intersect(color_set(b, c))
}

/// The squares a slider on `a` attacks along diagonals (`diag`) or ranks and files.
pub open spec fn slider_set(a: int, occ: Set<int>, diag: bool) -> Set<int> {
    if diag {
        bishop_set(a, occ)
    } else {
        rook_set(a, occ)
    }
}

/// The king square of side `c`: the lowest square holding a king of `c`.
pub open spec fn king_square(b: Seq<Option<Piece>>, c: Color) -> Option<int> {
    lowest_below(role_set(b, Role::King).intersect(color_set(b, c)), 64)
}

/// The pin finding.
pub open spec fn pin_text(us: Color, br: Role, bs: int, ar: Role, a: int) -> Seq<char> {
    color_text(us) + "'s "@ + role_text(br) + " on "@ + square_text(bs)
        + " is pinned to the king by "@ + role_text(ar) + " on "@ + square_text(a)
}

/// What the slider of `them` on `a` contributes: a pin when exactly one piece stands between
/// it and the king of `us` on `k`, on a line the slider moves along, and that piece is `us`'s.
pub open spec fn pin_at(
    b: Seq<Option<Piece>>,
    us: Color,
    them: Color,
    k: int,
    a: int,
    diag: bool,
) -> Seq<Seq<char>> {
    let sliders = if diag {
        diagonal_sliders(b, them)
    } else {
        straight_sliders(b, them)
    };
    let blockers = between_set(a, k).intersect(occupied_set(b));
    if sliders.contains(a) && slider_set(a, Set::<int>::empty(), diag).contains(k) && square_count(
        blockers,
    ) == 1 {
        match lowest_below(blockers, 64) {
            Some(x) => if color_set(b, us).contains(x) {
                seq![pin_text(us, role_on(b, x), x, role_on(b, a), a)]
            } else {
                Seq::empty()
            },
            None => Seq::empty(),
        }
    } else {
        Seq::empty()
    }
}

/// The pins by the sliders below `n` of one kind.
pub open spec fn pins_upto(
    b: Seq<Option<Piece>>,
    us: Color,
    them: Color,
    k: int,
    diag: bool,
    n: int,
) -> Seq<Seq<char>>
    decreases n,
{
    if n <= 0 {
        Seq::empty()
    } else {
        pins_upto(b, us, them, k, diag, n - 1) + pin_at(b, us, them, k, n - 1, diag)
    }
}

/// All pin findings against the king of `us`: diagonal pins first, then straight ones.
pub open spec fn pin_findings(b: Seq<Option<Piece>>, us: Color, them: Color) -> Seq<Seq<char>> {
    match king_square(b, us) {
        Some(k) => pins_upto(b, us, them, k, true, 64) + pins_upto(b, us, them, k, false, 64),
        None => Seq::empty(),
    }
}

fn pins_along(
    board: &Board,
    us: Color,
    them: Color,
    king: u32,
    diag: bool,
    occupied: Bitboard,
    our_pieces: Bitboard,
    findings: &mut Vec<String>,
)
    requires
        board.wf(),
        king < 64,
        occupied@ == occupied_set(board@),
        our_pieces@ == color_set(board@, us),
    ensures
        final(findings).deep_view() == old(findings).deep_view() + pins_upto(
            board@,
            us,
            them,
            king as int,
            diag,
            64,
        ),
{
    let ghost start = findings.deep_view();
    let their_pieces = board.by_color(them);
    let sliders = if diag {
        board.by_role(Role::Bishop).or(board.by_role(Role::Queen)).and(their_pieces)
    } else {
        board.by_role(Role::Rook).or(board.by_role(Role::Queen)).and(their_pieces)
    };
    let mut a: u32 = 0;
    while a < 64
        invariant
            board.wf(),
            a <= 64,
            king < 64,
            occupied@ == occupied_set(board@),
            our_pieces@ == color_set(board@, us),
            sliders@ == (if diag {
                diagonal_sliders(board@, them)
            } else {
                straight_sliders(board@, them)
            }),
            findings.deep_view() == start + pins_upto(board@, us, them, king as int, diag, a as int),
        decreases 64 - a,
    {
        let ghost before = findings.deep_view();
        if sliders.contains(a) {
            let line = if diag {
                bishop_attacks(a, Bitboard::empty())
            } else {
                rook_attacks(a, Bitboard::empty())
            };
            if line.contains(king) {
                let blockers = between(a, king).and(occupied);
                if blockers.count() == 1 {
                    match blockers.first() {
                        Some(blocker) => {
                            if our_pieces.contains(blocker) {
                                match (board.piece_at(blocker), board.piece_at(a)) {
                                    (Some(bp), Some(ap)) => {
                                        let mut s = String::from_str(color_name(us));
                                        s.append("'s ");
                                        s.append(piece_name(bp.role));
                                        s.append(" on ");
                                        let bn = square_name(blocker);
                                        s.append(bn.as_str());
                                        s.append(" is pinned to the king by ");
                                        s.append(piece_name(ap.role));
                                        s.append(" on ");
                                        let an = square_name(a);
                                        s.append(an.as_str());
                                        push_text(findings, s);
                                    },
                                    _ => {},
                                }
                            }
                        },
                        None => {},
                    }
                }
            }
        }
        assert(findings.deep_view() =~= before + pin_at(
            board@,
            us,
            them,
            king as int,
            a as int,
            diag,
        ));
        a = a + 1;
    }
}

/// Detects absolute pins: an enemy sliding piece pins one of our pieces to our king.
/// A piece is pinned when it's the only piece between an enemy slider and our king
/// on the relevant ray (diagonal for bishop/queen, straight for rook/queen).
pub fn detect_pins(board: &Board, us: Color, them: Color, findings: &mut Vec<String>)
    requires
        board.wf(),
    ensures
        final(findings).deep_view() == old(findings).deep_view() + pin_findings(
            board@,
            us,
            them,
        ),
{
    let ghost start = findings.deep_view();
    let occupied = board.occupied();
    let our_pieces = board.by_color(us);
    let kings = board.by_role(Role::King).and(our_pieces);
    match kings.first() {
        Some(king) => {
            pins_along(board, us, them, king, true, occupied, our_pieces, findings);
            pins_along(board, us, them, king, false, occupied, our_pieces, findings);
            assert(findings.deep_view() =~= start + pin_findings(board@, us, them));
        },
        None => {
            assert(findings.deep_view() =~= start + pin_findings(board@, us, them));
        },
    }
}

// ---------------------------------------------------------------------------------------
// Skewers
/// The skewer finding.
pub open spec fn skewer_text(ar: Role, a: int, fr: Role, f: int, kr: Role, k: int) -> Seq<char> {
    role_text(ar) + " on "@ + square_text(a) + " skewers "@ + role_text(fr) + " on "@
        + square_text(f) + " through to "@ + role_text(kr) + " on "@ + square_text(k)
}

/// The pieces of the other side that a slider on `a` would see on its ray once the front
/// piece on `f` is gone, the front piece excluded.
pub open spec fn behind_set(b: Seq<Option<Piece>>, c: Color, a: int, diag: bool, f: int) -> Set<
    int,
> {
    let occ = occupied_set(b).difference(Set::<int>::empty().insert(f));
    slider_set(a, occ, diag).intersect(color_set(b, opponent(c))).difference(
        Set::<int>::empty().insert(f),
    )
}

/// A skewer through the front piece on `f` to the piece on `k` behind it on the same ray,
/// when the front piece is worth at least as much as the back piece.
pub open spec fn skewer_back_at(
    b: Seq<Option<Piece>>,
    c: Color,
    a: int,
    ar: Role,
    diag: bool,
    f: int,
    fr: Role,
    k: int,
) -> Seq<Seq<char>> {
    if behind_set(b, c, a, diag, f).contains(k) && between_set(a, k).contains(f) && role_value(fr)
        >= role_value(role_on(b, k)) {
        seq![skewer_text(ar, a, fr, f, role_on(b, k), k)]
    } else {
        Seq::empty()
    }
}

/// The skewers through the front piece on `f`, over the back squares below `n`.
pub open spec fn skewer_backs_upto(
    b: Seq<Option<Piece>>,
    c: Color,
    a: int,
    ar: Role,
    diag: bool,
    f: int,
    fr: Role,
    n: int,
) -> Seq<Seq<char>>
    decreases n,
{
    if n <= 0 {
        Seq::empty()
    } else {
        skewer_backs_upto(b, c, a, ar, diag, f, fr, n - 1) + skewer_back_at(
            b,
            c,
            a,
            ar,
            diag,
            f,
            fr,
            n - 1,
        )
    }
}

/// The skewers with the enemy piece on `f` in front: it must be attacked by the slider on
/// `a`, unable to capture the slider, and under real pressure (undefended, or worth more than
/// the slider).
pub open spec fn skewer_front_at(
    b: Seq<Option<Piece>>,
    c: Color,
    a: int,
    ar: Role,
    diag: bool,
    f: int,
) -> Seq<Seq<char>> {
    let attacked = slider_set(a, occupied_set(b), diag).intersect(color_set(b, opponent(c)));
    if attacked.contains(f) {
        let fr = role_on(b, f);
        if reach_set(b, opponent(c), f, fr).contains(a) {
            Seq::empty()
        } else if attackers_set(b, f, opponent(c)) != Set::<int>::empty() && !(role_value(ar)
            < role_value(fr)) {
            Seq::empty()
        } else {
            skewer_backs_upto(b, c, a, ar, diag, f, fr, 64)
        }
    } else {
        Seq::empty()
    }
}

/// The skewers of the slider on `a` over the front squares below `n`.
pub open spec fn skewer_fronts_upto(
    b: Seq<Option<Piece>>,
    c: Color,
    a: int,
    ar: Role,
    diag: bool,
    n: int,
) -> Seq<Seq<char>>
    decreases n,
{
    if n <= 0 {
        Seq::empty()
    } else {
        skewer_fronts_upto(b, c, a, ar, diag, n - 1) + skewer_front_at(b, c, a, ar, diag, n - 1)
    }
}

/// The skewers of the slider of side `c` on `a` along its diagonals (`diag`) or lines.
pub open spec fn skewers_at(b: Seq<Option<Piece>>, c: Color, a: int, diag: bool) -> Seq<Seq<char>> {
    let sliders = if diag {
        diagonal_sliders(b, c)
    } else {
        straight_sliders(b, c)
    };
    if sliders.contains(a) {
        skewer_fronts_upto(b, c, a, role_on(b, a), diag, 64)
    } else {
        Seq::empty()
    }
}

/// The skewers of the sliders of one kind on the squares below `n`.
pub open spec fn skewers_upto(b: Seq<Option<Piece>>, c: Color, diag: bool, n: int) -> Seq<Seq<char>>
    decreases n,
{
    if n <= 0 {
        Seq::empty()
    } else {
        skewers_upto(b, c, diag, n - 1) + skewers_at(b, c, n - 1, diag)
    }
}

/// All skewer findings of side `c`: diagonal sliders first, then rooks and queens on lines.
pub open spec fn skewer_findings(b: Seq<Option<Piece>>, c: Color) -> Seq<Seq<char>> {
    skewers_upto(b, c, true, 64) + skewers_upto(b, c, false, 64)
}

/// The skewers through the front piece on `front_sq`.
fn skewers_through(
    board: &Board,
    attacker_sq: u32,
    attacker_role: Role,
    attacker_color: Color,
    their_pieces: Bitboard,
    occupied: Bitboard,
    diagonal: bool,
    front_sq: u32,
    front_role: Role,
    findings: &mut Vec<String>,
)
    requires
        board.wf(),
        attacker_sq < 64,
        front_sq < 64,
        their_pieces@ == color_set(board@, opponent(attacker_color)),
        occupied@ == occupied_set(board@),
    ensures
        final(findings).deep_view() == old(findings).deep_view() + skewer_backs_upto(
            board@,
            attacker_color,
            attacker_sq as int,
            attacker_role,
            diagonal,
            front_sq as int,
            front_role,
            64,
        ),
{
    let ghost start = findings.deep_view();
    let occ_without_front = occupied.without(Bitboard::single(front_sq));
    let extended = if diagonal {
        bishop_attacks(attacker_sq, occ_without_front)
    } else {
        rook_attacks(attacker_sq, occ_without_front)
    };
    let behind = extended.and(their_pieces).without(Bitboard::single(front_sq));
    assert(behind@ == behind_set(board@, attacker_color, attacker_sq as int, diagonal, front_sq as int));
    let front_value = piece_value(front_role);
    let mut back_sq: u32 = 0;
    while back_sq < 64
        invariant
            board.wf(),
            back_sq <= 64,
            attacker_sq < 64,
            front_sq < 64,
            front_value == role_value(front_role),
            behind@ == behind_set(
                board@,
                attacker_color,
                attacker_sq as int,
                diagonal,
                front_sq as int,
            ),
            findings.deep_view() == start + skewer_backs_upto(
                board@,
                attacker_color,
                attacker_sq as int,
                attacker_role,
                diagonal,
                front_sq as int,
                front_role,
                back_sq as int,
            ),
        decreases 64 - back_sq,
    {
        let ghost before = findings.deep_view();
        if behind.contains(back_sq) {
            let between_ab = between(attacker_sq, back_sq);
            if between_ab.contains(front_sq) {
                match board.piece_at(back_sq) {
                    Some(bp) => {
                        if front_value >= piece_value(bp.role) {
                            let mut s = String::from_str(piece_name(attacker_role));
                            s.append(" on ");
                            let an = square_name(attacker_sq);
                            s.append(an.as_str());
                            s.append(" skewers ");
                            s.append(piece_name(front_role));
                            s.append(" on ");
                            let fname = square_name(front_sq);
                            s.append(fname.as_str());
                            s.append(" through to ");
                            s.append(piece_name(bp.role));
                            s.append(" on ");
                            let bname = square_name(back_sq);
                            s.append(bname.as_str());
                            push_text(findings, s);
                        }
                    },
                    None => {
                        assert(color_set(board@, opponent(attacker_color)).contains(back_sq as int));
                    },
                }
            }
        }
        assert(findings.deep_view() =~= before + skewer_back_at(
            board@,
            attacker_color,
            attacker_sq as int,
            attacker_role,
            diagonal,
            front_sq as int,
            front_role,
            back_sq as int,
        ));
        back_sq = back_sq + 1;
    }
}

/// Helper: checks all enemy pieces on a slider's ray for skewer patterns.
/// A skewer is only valid when:
///   1. The front piece can't simply capture the attacker (it doesn't attack
///      the attacker's square).
///   2. The front piece is under real pressure — either it's undefended, or the
///      attacker is worth less than the front piece (profitable capture threat).
#[verifier::rlimit(40)]
#[verifier::spinoff_prover]
pub fn check_skewer_ray(
    board: &Board,
    attacker_sq: u32,
    attacker_color: Color,
    their_pieces: Bitboard,
    occupied: Bitboard,
    diagonal: bool,
    findings: &mut Vec<String>,
)
    requires
        board.wf(),
        attacker_sq < 64,
        their_pieces@ == color_set(board@, opponent(attacker_color)),
        occupied@ == occupied_set(board@),
    ensures
        board@[attacker_sq as int] matches Some(p) ==> final(findings).deep_view() == old(
            findings,
        ).deep_view() + skewer_fronts_upto(
            board@,
            attacker_color,
            attacker_sq as int,
            p.role,
            diagonal,
            64,
        ),
        board@[attacker_sq as int] is None ==> final(findings).deep_view() == old(
            findings,
        ).deep_view(),
{
    let ghost start = findings.deep_view();
    let attack_bb = if diagonal {
        bishop_attacks(attacker_sq, occupied)
    } else {
        rook_attacks(attacker_sq, occupied)
    };
    let attacker_role = match board.piece_at(attacker_sq) {
        Some(p) => p.role,
        None => {
            return ;
        },
    };
    let attacker_value = piece_value(attacker_role);
    let attacked = attack_bb.and(their_pieces);
    let mut front_sq: u32 = 0;
    while front_sq < 64
        invariant
            board.wf(),
            front_sq <= 64,
            attacker_sq < 64,
            attacker_value == role_value(attacker_role),
            their_pieces@ == color_set(board@, opponent(attacker_color)),
            occupied@ == occupied_set(board@),
            attacked@ == slider_set(attacker_sq as int, occupied_set(board@), diagonal).intersect(
                color_set(board@, opponent(attacker_color)),
            ),
            findings.deep_view() == start + skewer_fronts_upto(
                board@,
                attacker_color,
                attacker_sq as int,
                attacker_role,
                diagonal,
                front_sq as int,
            ),
        decreases 64 - front_sq,
    {
        let ghost before = findings.deep_view();
        if attacked.contains(front_sq) {
            match board.piece_at(front_sq) {
                Some(fp) => {
                    let front_role = fp.role;
                    let front_attacks = piece_reach(
                        board,
                        occupied,
                        attacker_color.other(),
                        front_sq,
                        front_role,
                    );
                    if !front_attacks.contains(attacker_sq) {
                        let front_defenders = attackers_to(board, front_sq, attacker_color.other());
                        let front_is_defended = !front_defenders.is_empty();
                        let profitable_capture = attacker_value < piece_value(front_role);
                        if !(front_is_defended && !profitable_capture) {
                            skewers_through(
                                board,
                                attacker_sq,
                                attacker_role,
                                attacker_color,
                                their_pieces,
                                occupied,
                                diagonal,
                                front_sq,
                                front_role,
                                findings,
                            );
                        }
                    }
                },
                None => {
                    assert(color_set(board@, opponent(attacker_color)).contains(front_sq as int));
                },
            }
        }
        assert(findings.deep_view() =~= before + skewer_front_at(
            board@,
            attacker_color,
            attacker_sq as int,
            attacker_role,
            diagonal,
            front_sq as int,
        ));
        front_sq = front_sq + 1;
    }
}

fn skewers_of_sliders(
    board: &Board,
    color: Color,
    diagonal: bool,
    their_pieces: Bitboard,
    occupied: Bitboard,
    findings: &mut Vec<String>,
)
    requires
        board.wf(),
        their_pieces@ == color_set(board@, opponent(color)),
        occupied@ == occupied_set(board@),
    ensures
        final(findings).deep_view() == old(findings).deep_view() + skewers_upto(
            board@,
            color,
            diagonal,
            64,
        ),
{
    let ghost start = findings.deep_view();
    let our_pieces = board.by_color(color);
    let sliders = if diagonal {
        board.by_role(Role::Bishop).or(board.by_role(Role::Queen)).and(our_pieces)
    } else {
        board.by_role(Role::Rook).or(board.by_role(Role::Queen)).and(our_pieces)
    };
    let mut a: u32 = 0;
    while a < 64
        invariant
            board.wf(),
            a <= 64,
            their_pieces@ == color_set(board@, opponent(color)),
            occupied@ == occupied_set(board@),
            sliders@ == (if diagonal {
                diagonal_sliders(board@, color)
            } else {
                straight_sliders(board@, color)
            }),
            findings.deep_view() == start + skewers_upto(board@, color, diagonal, a as int),
        decreases 64 - a,
    {
        let ghost before = findings.deep_view();
        if sliders.contains(a) {
            check_skewer_ray(board, a, color, their_pieces, occupied, diagonal, findings);
            assert(color_set(board@, color).contains(a as int));
        }
        assert(findings.deep_view() =~= before + skewers_at(board@, color, a as int, diagonal));
        a = a + 1;
    }
}

/// Detects skewers: a sliding piece attacks a valuable piece, and behind it
/// on the same ray sits a less valuable piece that will be captured if the
/// front piece moves.
pub fn detect_skewers(board: &Board, color: Color, findings: &mut Vec<String>)
    requires
        board.wf(),
    ensures
        final(findings).deep_view() == old(findings).deep_view() + skewer_findings(board@, color),
{
    let ghost start = findings.deep_view();
    let occupied = board.occupied();
    let their_pieces = board.by_color(color.other());
    skewers_of_sliders(board, color, true, their_pieces, occupied, findings);
    skewers_of_sliders(board, color, false, their_pieces, occupied, findings);
    assert(findings.deep_view() =~= start + skewer_findings(board@, color));
}

// ---------------------------------------------------------------------------------------
/// The tactical findings about side `c`: hanging pieces, forks, pins and skewers, in that
/// order.
pub open spec fn side_tactics(b: Seq<Option<Piece>>, c: Color) -> Seq<Seq<char>> {
    hanging_upto(b, c, 64) + forks_upto(b, c, 64) + pin_findings(b, c, opponent(c))
        + skewer_findings(b, c)
}

/// All tactical findings of a board, White's first.
#[verifier::opaque]
pub open spec fn tactics_of(b: Seq<Option<Piece>>) -> Seq<Seq<char>> {
    side_tactics(b, Color::White) + side_tactics(b, Color::Black)
}

/// Runs the detections for one side.
fn detect_side(board: &Board, color: Color, findings: &mut Vec<String>)
    requires
        board.wf(),
    ensures
        final(findings).deep_view() == old(findings).deep_view() + side_tactics(board@, color),
{
    let ghost start = findings.deep_view();
    detect_hanging(board, color, findings);
    detect_forks(board, color, findings);
    detect_pins(board, color, color.other(), findings);
    detect_skewers(board, color, findings);
    assert(findings.deep_view() =~= start + side_tactics(board@, color));
}

/// Runs all tactical pattern detections on the current position.
/// Returns a list of human-readable tactical findings.
pub fn detect_all_tactics(board: &Board) -> (r: Vec<String>)
    requires
        board.wf(),
    ensures
        r.deep_view() == tactics_of(board@),
{
    let mut findings: Vec<String> = Vec::new();
    assert(findings.deep_view() =~= Seq::<Seq<char>>::empty());
    // Run all detections for both sides so we never miss patterns
    detect_side(board, Color::White, &mut findings);
    detect_side(board, Color::Black, &mut findings);
    proof {
        reveal(tactics_of);
    }
    assert(findings.deep_view() =~= tactics_of(board@));
    findings
}

// ---------------------------------------------------------------------------------------
// Laws
/// The lowest member below `n` of a set whose only square is `k` is `k`, once `n` passes it.
pub proof fn lemma_lowest_single(s: Set<int>, k: int, n: int)
    requires
        0 <= k < 64,
        s.contains(k),
        forall|t: int| 0 <= t < 64 && #[trigger] s.contains(t) ==> t == k,
        n <= 64,
    ensures
        lowest_below(s, n) == (if n > k {
            Some(k)
        } else {
            None::<int>
        }),
    decreases n,
{
    if n > 0 {
        lemma_lowest_single(s, k, n - 1);
    }
}

/// A set whose only square is `k` counts one square below any bound past `k`.
pub proof fn lemma_count_single(s: Set<int>, k: int, n: int)
    requires
        0 <= k < 64,
        s.contains(k),
        forall|t: int| 0 <= t < 64 && #[trigger] s.contains(t) ==> t == k,
        n <= 64,
    ensures
        count_below(s, n) == (if n > k {
            1nat
        } else {
            0nat
        }),
    decreases n,
{
    if n > 0 {
        lemma_count_single(s, k, n - 1);
    }
}

proof fn lemma_pins_upto_has(
    b: Seq<Option<Piece>>,
    us: Color,
    them: Color,
    k: int,
    diag: bool,
    n: int,
    a: int,
    t: Seq<char>,
)
    requires
        0 <= a < n,
        pin_at(b, us, them, k, a, diag).contains(t),
    ensures
        pins_upto(b, us, them, k, diag, n).contains(t),
    decreases n,
{
    let rest = pins_upto(b, us, them, k, diag, n - 1);
    let last = pin_at(b, us, them, k, n - 1, diag);
    if a < n - 1 {
        lemma_pins_upto_has(b, us, them, k, diag, n - 1, a, t);
        let i = choose|i: int| 0 <= i < rest.len() && rest[i] == t;
        assert((rest + last)[i] == t);
    } else {
        let i = choose|i: int| 0 <= i < last.len() && last[i] == t;
        assert((rest + last)[rest.len() + i] == t);
    }
}

/// An absolute pin is always found: when a rook or queen of one side on a rank or file with
/// the other side's king, or a bishop or queen on a diagonal with it, has exactly one piece
/// between itself and the king, and that piece belongs to the king's side, the tactical
/// findings say that this piece is pinned to the king by that slider.
pub proof fn law_pin_found(b: Seq<Option<Piece>>, us: Color, k: int, a: int, x: int)
    requires
        b.len() == 64,
        on_board(k),
        b[k] == Some(Piece { color: us, role: Role::King }),
        forall|t: int|
            0 <= t < 64 && #[trigger] b[t] == Some(Piece { color: us, role: Role::King }) ==> t
                == k,
        on_board(a),
        b[a] matches Some(p) && p.color == opponent(us) && ((same_line(a, k) && (p.role
            == Role::Rook || p.role == Role::Queen)) || (same_diagonal(a, k) && (p.role
            == Role::Bishop || p.role == Role::Queen))),
        strictly_between(a, k, x),
        b[x] matches Some(q) && q.color == us,
        forall|t: int| #[trigger] strictly_between(a, k, t) && t != x ==> b[t] is None,
    ensures
        tactics_of(b).contains(
            color_text(us) + "'s "@ + role_text(b[x]->Some_0.role) + " on "@ + square_text(x)
                + " is pinned to the king by "@ + role_text(b[a]->Some_0.role) + " on "@
                + square_text(a),
        ),
{
    let them = opponent(us);
    let p = b[a]->Some_0;
    let kings = role_set(b, Role::King).intersect(color_set(b, us));
    assert forall|t: int| 0 <= t < 64 && #[trigger] kings.contains(t) implies t == k by {
        assert(b[t] == Some(Piece { color: us, role: Role::King }));
    }
    assert(kings.contains(k));
    lemma_lowest_single(kings, k, 64);
    assert(king_square(b, us) == Some(k));
    let diag = !(same_line(a, k) && (p.role == Role::Rook || p.role == Role::Queen));
    let blockers = between_set(a, k).intersect(occupied_set(b));
    assert(on_board(x));
    assert(blockers.contains(x));
    assert forall|t: int| 0 <= t < 64 && #[trigger] blockers.contains(t) implies t == x by {
        if t != x {
            assert(strictly_between(a, k, t));
        }
    }
    lemma_count_single(blockers, x, 64);
    lemma_lowest_single(blockers, x, 64);
    assert(square_count(blockers) == 1);
    assert(slider_set(a, Set::<int>::empty(), diag).contains(k));
    if diag {
        assert(diagonal_sliders(b, them).contains(a));
    } else {
        assert(straight_sliders(b, them).contains(a));
    }
    assert(color_set(b, us).contains(x));
    let t = pin_text(us, role_on(b, x), x, role_on(b, a), a);
    let pa = pin_at(b, us, them, k, a, diag);
    assert(pa == seq![t]);
    assert(pa[0] == t);
    lemma_pins_upto_has(b, us, them, k, diag, 64, a, t);
    let pf = pin_findings(b, us, them);
    let d = pins_upto(b, us, them, k, true, 64);
    let st = pins_upto(b, us, them, k, false, 64);
    assert(pf.contains(t)) by {
        if diag {
            let i = choose|i: int| 0 <= i < d.len() && d[i] == t;
            assert(pf[i] == t);
        } else {
            let i = choose|i: int| 0 <= i < st.len() && st[i] == t;
            assert(pf[d.len() + i] == t);
        }
    }
    let head = hanging_upto(b, us, 64) + forks_upto(b, us, 64);
    let side = side_tactics(b, us);
    assert(side.contains(t)) by {
        let i = choose|i: int| 0 <= i < pf.len() && pf[i] == t;
        assert(side == head + pf + skewer_findings(b, us));
        assert(side[head.len() + i] == t);
    }
    reveal(tactics_of);
    let w = side_tactics(b, Color::White);
    let bl = side_tactics(b, Color::Black);
    let i = choose|i: int| 0 <= i < side.len() && side[i] == t;
    if us == Color::White {
        assert((w + bl)[i] == t);
    } else {
        assert((w + bl)[w.len() + i] == t);
    }
}

} // verus!
