use vstd::prelude::*;

use crate::board::{Board, Color, Piece, Role};

verus! {

#[verifier::external_type_specification]
#[verifier::external_body]
pub struct ExChess(shakmaty::Chess);

#[verifier::external_type_specification]
#[verifier::external_body]
pub struct ExFen(shakmaty::fen::Fen);

#[verifier::external_type_specification]
#[verifier::external_body]
pub struct ExParseFenError(shakmaty::fen::ParseFenError);

#[verifier::external_type_specification]
#[verifier::external_body]
#[verifier::reject_recursive_types(P)]
pub struct ExPositionError<P>(shakmaty::PositionError<P>);

#[verifier::external_type_specification]
#[verifier::external_body]
pub struct ExUciMove(shakmaty::uci::UciMove);

#[verifier::external_type_specification]
#[verifier::external_body]
pub struct ExParseUciMoveError(shakmaty::uci::ParseUciMoveError);

#[verifier::external_type_specification]
#[verifier::external_body]
pub struct ExIllegalUciMoveError(shakmaty::uci::IllegalUciMoveError);

#[verifier::external_type_specification]
#[verifier::external_body]
pub struct ExMove(shakmaty::Move);

/// What `Fen::from_str` of shakmaty gives for a text.
pub uninterp spec fn fen_parse(fen: Seq<char>) -> Result<
    shakmaty::fen::Fen,
    shakmaty::fen::ParseFenError,
>;

/// `Fen::from_str` of shakmaty: reads the text of a FEN by shakmaty's FEN grammar, which is
/// only named here.
#[verifier::external_body]
fn fen_from_str(fen: &str) -> (r: Result<shakmaty::fen::Fen, shakmaty::fen::ParseFenError>)
    ensures
        r == fen_parse(fen@),
{
    fen.parse::<shakmaty::fen::Fen>()
}

/// What the `Display` text of a `ParseFenError` of shakmaty is.
pub uninterp spec fn fen_error_display(e: shakmaty::fen::ParseFenError) -> Seq<char>;

/// The `Display` text of a `ParseFenError` of shakmaty (one fixed message per kind of error).
#[verifier::external_body]
fn fen_error_text(e: &shakmaty::fen::ParseFenError) -> (r: String)
    ensures
        r@ == fen_error_display(*e),
{
    format!("{}", e)
}

/// What `Fen::into_position` of shakmaty, with standard castling, gives for a FEN.
pub uninterp spec fn fen_setup(fen: shakmaty::fen::Fen) -> Result<
    shakmaty::Chess,
    shakmaty::PositionError<shakmaty::Chess>,
>;

/// `Fen::into_position` of shakmaty with standard castling: checks that the setup is a legal
/// chess position and gives that position. Which setups it accepts is shakmaty's rule, only
/// named here.
#[verifier::external_body]
fn fen_into_chess(fen: shakmaty::fen::Fen) -> (r: Result<
    shakmaty::Chess,
    shakmaty::PositionError<shakmaty::Chess>,
>)
    ensures
        r == fen_setup(fen),
{
    fen.into_position(shakmaty::CastlingMode::Standard)
}

/// What the `Display` text of a `PositionError` of shakmaty is.
pub uninterp spec fn setup_error_display(e: shakmaty::PositionError<shakmaty::Chess>) -> Seq<char>;

/// The `Display` text of a `PositionError` of shakmaty, which always begins with
/// "illegal position: " followed by the reasons.
#[verifier::external_body]
fn position_error_string(e: &shakmaty::PositionError<shakmaty::Chess>) -> (r: String)
    ensures
        r@ == setup_error_display(*e),
        "illegal position: "@.is_prefix_of(r@),
{
    format!("{}", e)
}

/// What `parse_fen` gives for a text: the position of the FEN, or "Invalid FEN: " and
/// shakmaty's reason when the text is no FEN, or "Invalid position: " and shakmaty's reason
/// when the FEN sets up no legal position.
pub open spec fn fen_result(fen: Seq<char>) -> Result<shakmaty::Chess, Seq<char>> {
    match fen_parse(fen) {
        Err(e) => Err("Invalid FEN: "@ + fen_error_display(e)),
        Ok(f) => match fen_setup(f) {
            Ok(c) => Ok(c),
            Err(e) => Err("Invalid position: "@ + setup_error_display(e)),
        },
    }
}

/// The contents of a FEN result, the error taken as text.
pub open spec fn fen_result_view(r: Result<shakmaty::Chess, String>) -> Result<
    shakmaty::Chess,
    Seq<char>,
> {
    match r {
        Ok(c) => Ok(c),
        Err(e) => Err(e@),
    }
}

/// Parses a FEN string into a shakmaty Chess position.
pub fn parse_fen(fen: &str) -> (r: Result<shakmaty::Chess, String>)
    ensures
        fen_result_view(r) == fen_result(fen@),
        r matches Err(e) ==> (exists|t: Seq<char>| e@ == "Invalid FEN: "@ + t) || (exists|
            t: Seq<char>,
        | "illegal position: "@.is_prefix_of(t) && e@ == "Invalid position: "@ + t),
{
    match fen_from_str(fen) {
        Err(e) => {
            let mut s = String::from_str("Invalid FEN: ");
            let t = fen_error_text(&e);
            s.append(t.as_str());
            assert(s@ == "Invalid FEN: "@ + t@);
            Err(s)
        },
        Ok(parsed) => match fen_into_chess(parsed) {
            Ok(pos) => Ok(pos),
            Err(e) => {
                let mut s = String::from_str("Invalid position: ");
                let t = position_error_string(&e);
                s.append(t.as_str());
                assert("illegal position: "@.is_prefix_of(t@) && s@ == "Invalid position: "@ + t@);
                Err(s)
            },
        },
    }
}

/// What `UciMove::from_str` of shakmaty gives for a text.
pub uninterp spec fn uci_parse(s: Seq<char>) -> Result<
    shakmaty::uci::UciMove,
    shakmaty::uci::ParseUciMoveError,
>;

/// Whether `c` names a file ("a" to "h").
pub open spec fn is_file_char(c: char) -> bool {
    'a' <= c && c <= 'h'
}

/// Whether `c` names a rank ("1" to "8").
pub open spec fn is_rank_char(c: char) -> bool {
    '1' <= c && c <= '8'
}

/// Whether `c` names a kind of piece, in either case.
pub open spec fn is_role_char(c: char) -> bool {
    c == 'p' || c == 'n' || c == 'b' || c == 'r' || c == 'q' || c == 'k' || c == 'P' || c == 'N'
        || c == 'B' || c == 'R' || c == 'Q' || c == 'K'
}

/// Whether the characters `i` and `i + 1` of `s` name a square.
pub open spec fn square_chars(s: Seq<char>, i: int) -> bool {
    is_file_char(s[i]) && is_rank_char(s[i + 1])
}

/// Whether a text is a move in UCI notation as shakmaty reads it: the null move "0000", a
/// drop ("Q@f7"), a move from one square to another ("e2e4"), or such a move with a
/// promotion ("e7e8q").
pub open spec fn uci_readable(s: Seq<char>) -> bool {
    if s.len() == 4 {
        s == "0000"@ || (s[1] == '@' && is_role_char(s[0]) && square_chars(s, 2)) || (
        square_chars(s, 0) && square_chars(s, 2))
    } else if s.len() == 5 {
        square_chars(s, 0) && square_chars(s, 2) && is_role_char(s[4])
    } else {
        false
    }
}

/// `UciMove::from_str` of shakmaty: reads a move in UCI notation ("e2e4", "e7e8q"); it
/// succeeds exactly on the texts of that notation. The move read is shakmaty's, only named.
#[verifier::external_body]
pub(crate) fn uci_from_str(s: &str) -> (r: Result<
    shakmaty::uci::UciMove,
    shakmaty::uci::ParseUciMoveError,
>)
    ensures
        r == uci_parse(s@),
        r is Ok <==> uci_readable(s@),
{
    s.parse::<shakmaty::uci::UciMove>()
}

/// The `Display` text of shakmaty's `ParseUciMoveError`, which is always "invalid uci".
#[verifier::external_body]
pub(crate) fn uci_parse_error_text(e: &shakmaty::uci::ParseUciMoveError) -> (r: String)
    ensures
        r@ == "invalid uci"@,
{
    format!("{}", e)
}

/// What `UciMove::to_move` of shakmaty gives for a UCI move in a position: the legal move it
/// names there, or an error.
pub uninterp spec fn uci_to_legal(pos: shakmaty::Chess, uci: shakmaty::uci::UciMove) -> Result<
    shakmaty::Move,
    shakmaty::uci::IllegalUciMoveError,
>;

/// `UciMove::to_move` of shakmaty: the legal move of `pos` that the UCI move names, or an
/// error when it names no legal move. Which moves are legal is shakmaty's, only named here.
#[verifier::external_body]
pub(crate) fn uci_to_move(uci: shakmaty::uci::UciMove, pos: &shakmaty::Chess) -> (r: Result<
    shakmaty::Move,
    shakmaty::uci::IllegalUciMoveError,
>)
    ensures
        r == uci_to_legal(*pos, uci),
{
    uci.to_move(pos)
}

/// The `Display` text of shakmaty's `IllegalUciMoveError`, which is always "illegal uci".
#[verifier::external_body]
pub(crate) fn illegal_uci_text(e: &shakmaty::uci::IllegalUciMoveError) -> (r: String)
    ensures
        r@ == "illegal uci"@,
{
    format!("{}", e)
}

/// Whether `m` is a legal move of `pos`: one that `UciMove::to_move` gave for it.
pub open spec fn legal_in(pos: shakmaty::Chess, m: shakmaty::Move) -> bool {
    exists|u: shakmaty::uci::UciMove| uci_to_legal(pos, u) == Ok::<
        shakmaty::Move,
        shakmaty::uci::IllegalUciMoveError,
    >(m)
}

/// What the notation of a legal move in standard algebraic notation with its check or mate
/// suffix (`SanPlus`, written with `Display`) is.
pub uninterp spec fn san_text(pos: shakmaty::Chess, m: shakmaty::Move) -> Seq<char>;

/// What position a legal move leads to.
pub uninterp spec fn after_move(pos: shakmaty::Chess, m: shakmaty::Move) -> shakmaty::Chess;

/// `SanPlus::from_move_and_play_unchecked` of shakmaty, written out with `Display`: the move in
/// standard algebraic notation with its check or mate suffix, after which the move is played
/// on `pos`. The move must be legal in `pos`; the notation and the position after it are
/// shakmaty's, only named here.
#[verifier::external_body]
pub(crate) fn san_and_play(pos: &mut shakmaty::Chess, m: shakmaty::Move) -> (r: String)
    requires
        legal_in(*old(pos), m),
    ensures
        r@ == san_text(*old(pos), m),
        *final(pos) == after_move(*old(pos), m),
{
    shakmaty::san::SanPlus::from_move_and_play_unchecked(pos, m).to_string()
}

/// `Chess::clone`: a copy of the position.
#[verifier::external_body]
pub(crate) fn chess_clone(pos: &shakmaty::Chess) -> (r: shakmaty::Chess)
    ensures
        r == *pos,
{
    pos.clone()
}

/// Whether White is to move in a position (`Position::turn` of shakmaty).
pub uninterp spec fn white_to_move(pos: shakmaty::Chess) -> bool;

/// `Position::turn` of shakmaty: the side to move.
#[verifier::external_body]
pub(crate) fn side_to_move(pos: &shakmaty::Chess) -> (r: Color)
    ensures
        (r == Color::White) == white_to_move(*pos),
{
    match shakmaty::Position::turn(pos) {
        shakmaty::Color::White => Color::White,
        shakmaty::Color::Black => Color::Black,
    }
}

/// The move number of a position (`Position::fullmoves` of shakmaty).
pub uninterp spec fn fullmoves(pos: shakmaty::Chess) -> u32;

/// `Position::fullmoves` of shakmaty: the move number, which is never zero.
#[verifier::external_body]
pub(crate) fn fullmove_number(pos: &shakmaty::Chess) -> (r: u32)
    ensures
        r == fullmoves(*pos),
        r >= 1,
{
    shakmaty::Position::fullmoves(pos).get()
}

/// The piece of the given side (`white`) and kind, the kind given by the number shakmaty
/// gives it: 1 pawn, 2 knight, 3 bishop, 4 rook, 5 queen, 6 king.
pub fn piece_from_codes(white: bool, role: u8) -> (r: Piece)
    ensures
        r.color == (if white {
            Color::White
        } else {
            Color::Black
        }),
        role == 1 ==> r.role == Role::Pawn,
        role == 2 ==> r.role == Role::Knight,
        role == 3 ==> r.role == Role::Bishop,
        role == 4 ==> r.role == Role::Rook,
        role == 5 ==> r.role == Role::Queen,
        role == 6 ==> r.role == Role::King,
{
    let color = if white {
        Color::White
    } else {
        Color::Black
    };
    let role = if role == 1 {
        Role::Pawn
    } else if role == 2 {
        Role::Knight
    } else if role == 3 {
        Role::Bishop
    } else if role == 4 {
        Role::Rook
    } else if role == 5 {
        Role::Queen
    } else {
        Role::King
    };
    Piece { color, role }
}

/// What piece stands on square `sq` (a1 = 0, ..., h8 = 63) of a position, as a piece of this
/// library.
pub uninterp spec fn square_piece(pos: shakmaty::Chess, sq: int) -> Option<Piece>;

/// The 64 squares of a position, a1 first.
pub open spec fn board_view(pos: shakmaty::Chess) -> Seq<Option<Piece>> {
    Seq::new(64, |sq: int| square_piece(pos, sq))
}

/// `Board::piece_at` of shakmaty on the board of `pos` (`Position::board`): the piece on square
/// `sq`, as a piece of this library.
#[verifier::external_body]
fn piece_on(pos: &shakmaty::Chess, sq: u32) -> (r: Option<Piece>)
    requires
        sq < 64,
    ensures
        r == square_piece(*pos, sq as int),
{
    let square = shakmaty::Square::new(sq);
    shakmaty::Position::board(pos).piece_at(square).map(
        |p| piece_from_codes(p.color.is_white(), u8::from(p.role)),
    )
}

/// The 64 squares of the board of `pos`, a1 first, as a board of this library.
pub(crate) fn board_of(pos: &shakmaty::Chess) -> (r: Board)
    ensures
        r.wf(),
        r@ == board_view(*pos),
{
    let mut board = Board::empty();
    let mut sq: u32 = 0;
    while sq < 64
        invariant
            sq <= 64,
            board.wf(),
            forall|s: int| 0 <= s < sq ==> board@[s] == square_piece(*pos, s),
            forall|s: int| sq <= s < 64 ==> board@[s] is None,
        decreases 64 - sq,
    {
        match piece_on(pos, sq) {
            Some(p) => board.put(sq, p),
            None => {},
        }
        sq = sq + 1;
    }
    assert(board@ =~= board_view(*pos));
    board
}

} // verus!
