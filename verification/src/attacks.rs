use vstd::prelude::*;

use crate::bitboard::Bitboard;
use crate::board::{on_board, file_of, rank_of, Color, Role, Piece, Board, opponent, occupied_set, holds_role};

verus! {

/// The distance between two integers.
pub open spec fn dist(a: int, b: int) -> int {
    if a >= b {
        a - b
    } else {
        b - a
    }
}

/// Whether a knight on `a` reaches `t` in one move.
pub open spec fn knight_step(a: int, t: int) -> bool {
    on_board(a) && on_board(t) && ((dist(file_of(a), file_of(t)) == 1 && dist(
        rank_of(a),
        rank_of(t),
    ) == 2) || (dist(file_of(a), file_of(t)) == 2 && dist(rank_of(a), rank_of(t)) == 1))
}

/// Whether `t` is one of the (up to eight) squares next to `a`.
pub open spec fn king_step(a: int, t: int) -> bool {
    on_board(a) && on_board(t) && a != t && dist(file_of(a), file_of(t)) <= 1 && dist(
        rank_of(a),
        rank_of(t),
    ) <= 1
}

/// Whether `a` and `t` are distinct squares on a common diagonal.
pub open spec fn same_diagonal(a: int, t: int) -> bool {
    on_board(a) && on_board(t) && a != t && dist(file_of(a), file_of(t)) == dist(
        rank_of(a),
        rank_of(t),
    )
}

/// Whether `a` and `t` are distinct squares on a common rank or file.
pub open spec fn same_line(a: int, t: int) -> bool {
    on_board(a) && on_board(t) && a != t && (file_of(a) == file_of(t) || rank_of(a) == rank_of(
        t,
    ))
}

/// Whether `s` lies strictly between the aligned squares `a` and `b` on their rank, file or
/// diagonal.
pub open spec fn strictly_between(a: int, b: int, s: int) -> bool {
    let (fa, ra, fb, rb, fs, rs) = (
        file_of(a),
        rank_of(a),
        file_of(b),
        rank_of(b),
        file_of(s),
        rank_of(s),
    );
    &&& same_diagonal(a, b) || same_line(a, b)
    &&& on_board(s)
    &&& s != a
    &&& s != b
    &&& (fa <= fs <= fb || fb <= fs <= fa)
    &&& (ra <= rs <= rb || rb <= rs <= ra)
    &&& (fs - fa) * (rb - ra) == (rs - ra) * (fb - fa)
}

/// Whether no square of `occ` lies strictly between `a` and `t`.
pub open spec fn clear_path(a: int, t: int, occ: Set<int>) -> bool {
    forall|s: int| #[trigger] strictly_between(a, t, s) ==> !occ.contains(s)
}

/// The squares strictly between `a` and `b` when they are aligned; empty otherwise.
pub open spec fn between_set(a: int, b: int) -> Set<int> {
    Set::new(|s: int| strictly_between(a, b, s))
}

/// The squares a knight on `a` attacks.
pub open spec fn knight_set(a: int) -> Set<int> {
    Set::new(|t: int| knight_step(a, t))
}

/// The squares a king on `a` attacks.
pub open spec fn king_set(a: int) -> Set<int> {
    Set::new(|t: int| king_step(a, t))
}

/// The squares a bishop on `a` attacks when the squares `occ` are occupied: along each
/// diagonal up to and including the first occupied square.
pub open spec fn bishop_set(a: int, occ: Set<int>) -> Set<int> {
    Set::new(|t: int| same_diagonal(a, t) && clear_path(a, t, occ))
}

/// The squares a rook on `a` attacks when the squares `occ` are occupied.
pub open spec fn rook_set(a: int, occ: Set<int>) -> Set<int> {
    Set::new(|t: int| same_line(a, t) && clear_path(a, t, occ))
}

/// The squares a queen on `a` attacks when the squares `occ` are occupied.
pub open spec fn queen_set(a: int, occ: Set<int>) -> Set<int> {
    bishop_set(a, occ).union(rook_set(a, occ))
}

/// Whether a pawn of side `c` on `a` attacks `t` (one step diagonally forward).
pub open spec fn pawn_step(c: Color, a: int, t: int) -> bool {
    on_board(a) && on_board(t) && dist(file_of(a), file_of(t)) == 1 && match c {
        Color::White => t == a + 7 || t == a + 9,
        Color::Black => t == a - 9 || t == a - 7,
    }
}

/// The squares a pawn of side `c` on `a` attacks.
pub open spec fn pawn_set(c: Color, a: int) -> Set<int> {
    Set::new(|t: int| pawn_step(c, a, t))
}

/// `attacks::knight_attacks` of shakmaty: the squares a knight on `sq` attacks, which the
/// crate builds from the eight knight jumps that stay on the board.
#[verifier::external_body]
pub(crate) fn knight_attacks(sq: u32) -> (r: Bitboard)
    requires
        sq < 64,
    ensures
        r@ == knight_set(sq as int),
{
    Bitboard { bits: shakmaty::attacks::knight_attacks(shakmaty::Square::new(sq)).0 }
}

/// `attacks::king_attacks` of shakmaty: the squares next to `sq`.
#[verifier::external_body]
pub(crate) fn king_attacks(sq: u32) -> (r: Bitboard)
    requires
        sq < 64,
    ensures
        r@ == king_set(sq as int),
{
    Bitboard { bits: shakmaty::attacks::king_attacks(shakmaty::Square::new(sq)).0 }
}

/// `attacks::bishop_attacks` of shakmaty: the diagonal squares seen from `sq`, each diagonal
/// up to and including the first square of `occupied`.
#[verifier::external_body]
pub(crate) fn bishop_attacks(sq: u32, occupied: Bitboard) -> (r: Bitboard)
    requires
        sq < 64,
    ensures
        r@ == bishop_set(sq as int, occupied@),
{
    let occ = shakmaty::Bitboard(occupied.bits);
    Bitboard { bits: shakmaty::attacks::bishop_attacks(shakmaty::Square::new(sq), occ).0 }
}

/// `attacks::rook_attacks` of shakmaty: the squares on the rank and file of `sq` seen from it,
/// each direction up to and including the first square of `occupied`.
#[verifier::external_body]
pub(crate) fn rook_attacks(sq: u32, occupied: Bitboard) -> (r: Bitboard)
    requires
        sq < 64,
    ensures
        r@ == rook_set(sq as int, occupied@),
{
    let occ = shakmaty::Bitboard(occupied.bits);
    Bitboard { bits: shakmaty::attacks::rook_attacks(shakmaty::Square::new(sq), occ).0 }
}

/// `attacks::queen_attacks` of shakmaty: the rook and bishop squares of `sq` together.
#[verifier::external_body]
pub(crate) fn queen_attacks(sq: u32, occupied: Bitboard) -> (r: Bitboard)
    requires
        sq < 64,
    ensures
        r@ == queen_set(sq as int, occupied@),
{
    let occ = shakmaty::Bitboard(occupied.bits);
    Bitboard { bits: shakmaty::attacks::queen_attacks(shakmaty::Square::new(sq), occ).0 }
}

/// `attacks::between` of shakmaty: the squares strictly between `a` and `b` when they share a
/// rank, file or diagonal, and no square otherwise.
#[verifier::external_body]
pub(crate) fn between(a: u32, b: u32) -> (r: Bitboard)
    requires
        a < 64,
        b < 64,
    ensures
        r@ == between_set(a as int, b as int),
{
    let sa = shakmaty::Square::new(a);
    let sb = shakmaty::Square::new(b);
    Bitboard { bits: shakmaty::attacks::between(sa, sb).0 }
}

/// Computes the squares a pawn of `color` at `sq` attacks (diagonal captures), keeping only
/// targets one file away so that no capture wraps around the edge of the board.
pub fn pawn_attacks_from(color: Color, sq: u32) -> (r: Bitboard)
    requires
        sq < 64,
    ensures
        r@ == pawn_set(color, sq as int),
{
    let idx: i32 = sq as i32;
    let file: i32 = idx % 8;
    let mut result = Bitboard::empty();
    let (o1, o2): (i32, i32) = match color {
        Color::White => (7, 9),
        Color::Black => (-9, -7),
    };
    let t1: i32 = idx + o1;
    if t1 >= 0 && t1 < 64 {
        let tf: i32 = t1 % 8;
        if tf - file == 1 || tf - file == -1 {
            result = result.with(t1 as u32);
        }
    }
    let t2: i32 = idx + o2;
    if t2 >= 0 && t2 < 64 {
        let tf: i32 = t2 % 8;
        if tf - file == 1 || tf - file == -1 {
            result = result.with(t2 as u32);
        }
    }
    assert(result@ =~= pawn_set(color, sq as int));
    result
}

/// Whether the piece on `t` is of side `c` and attacks `sq`, with the squares of `b` occupied.
pub open spec fn attacks_square(b: Seq<Option<Piece>>, t: int, sq: int, c: Color) -> bool {
    match b[t] {
        Some(p) => p.color == c && match p.role {
            Role::Knight => knight_step(sq, t),
            Role::King => king_step(sq, t),
            Role::Bishop => bishop_set(sq, occupied_set(b)).contains(t),
            Role::Rook => rook_set(sq, occupied_set(b)).contains(t),
            Role::Queen => queen_set(sq, occupied_set(b)).contains(t),
            Role::Pawn => pawn_step(opponent(c), sq, t),
        },
        None => false,
    }
}

/// The squares of the pieces of side `c` that attack `sq`.
pub open spec fn attackers_set(b: Seq<Option<Piece>>, sq: int, c: Color) -> Set<int> {
    Set::new(|t: int| on_board(t) && attacks_square(b, t, sq, c))
}

/// Returns the squares of all pieces of `by_color` that attack `sq`, looking from `sq`
/// outwards: the knights a knight on `sq` would attack, the sliders a slider would see, and
/// the pawns from which a pawn of `by_color` captures onto `sq`.
pub fn attackers_to(board: &Board, sq: u32, by_color: Color) -> (r: Bitboard)
    requires
        board.wf(),
        sq < 64,
    ensures
        r@ == attackers_set(board@, sq as int, by_color),
{
    let occupied = board.occupied();
    let their = board.by_color(by_color);
    let knights = knight_attacks(sq).and(their).and(board.by_role(Role::Knight));
    let kings = king_attacks(sq).and(their).and(board.by_role(Role::King));
    let diag_sliders = board.by_role(Role::Bishop).or(board.by_role(Role::Queen));
    let diag = bishop_attacks(sq, occupied).and(their).and(diag_sliders);
    let straight_sliders = board.by_role(Role::Rook).or(board.by_role(Role::Queen));
    let straight = rook_attacks(sq, occupied).and(their).and(straight_sliders);
    let pawns = pawn_attacks_from(by_color.other(), sq).and(their).and(
        board.by_role(Role::Pawn),
    );
    let r = knights.or(kings).or(diag).or(straight).or(pawns);
    let ghost b = board@;
    assert forall|t: int| #[trigger] r@.contains(t) == attackers_set(b, sq as int, by_color).contains(
        t,
    ) by {
        if on_board(t) && b[t] is Some {
            let p = b[t]->Some_0;
            assert(holds_role(b, t, p.role));
        }
    }
    assert(r@ =~= attackers_set(b, sq as int, by_color));
    r
}

} // verus!
