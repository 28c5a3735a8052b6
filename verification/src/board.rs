use vstd::prelude::*;

use crate::bitboard::Bitboard;
use crate::text::{digit_text, digit_str};

verus! {

/// A side.
#[derive(Clone, Copy, Debug, PartialEq, Eq, Structural)]
pub enum Color {
    White,
    Black,
}

/// A kind of piece.
#[derive(Clone, Copy, Debug, PartialEq, Eq, Structural)]
pub enum Role {
    Pawn,
    Knight,
    Bishop,
    Rook,
    Queen,
    King,
}

/// A piece of one side.
#[derive(Clone, Copy, Debug, PartialEq, Eq, Structural)]
pub struct Piece {
    pub color: Color,
    pub role: Role,
}

/// The side opposite to `c`.
pub open spec fn opponent(c: Color) -> Color {
    match c {
        Color::White => Color::Black,
        Color::Black => Color::White,
    }
}

impl Color {
    /// The other side.
    pub fn other(self) -> (r: Color)
        ensures
            r == opponent(self),
    {
        match self {
            Color::White => Color::Black,
            Color::Black => Color::White,
        }
    }
}

/// The name of a side as written in findings ("White", "Black").
pub open spec fn color_text(c: Color) -> Seq<char> {
    match c {
        Color::White => "White"@,
        Color::Black => "Black"@,
    }
}

/// Human-readable name for a side.
pub fn color_name(c: Color) -> (r: &'static str)
    ensures
        r@ == color_text(c),
{
    match c {
        Color::White => "White",
        Color::Black => "Black",
    }
}

/// Whether `s` is the index of a square (a1 = 0, b1 = 1, ..., h8 = 63).
pub open spec fn on_board(s: int) -> bool {
    0 <= s < 64
}

/// The file of a square, 0 for the a-file up to 7 for the h-file.
pub open spec fn file_of(s: int) -> int {
    s % 8
}

/// The rank of a square, 0 for the first rank up to 7 for the eighth.
pub open spec fn rank_of(s: int) -> int {
    s / 8
}

/// The letter of file `f` (0..8).
pub open spec fn file_text(f: int) -> Seq<char> {
    if f == 0 {
        "a"@
    } else if f == 1 {
        "b"@
    } else if f == 2 {
        "c"@
    } else if f == 3 {
        "d"@
    } else if f == 4 {
        "e"@
    } else if f == 5 {
        "f"@
    } else if f == 6 {
        "g"@
    } else {
        "h"@
    }
}

/// The name of square `s` in algebraic notation ("e4").
pub open spec fn square_text(s: int) -> Seq<char> {
    file_text(file_of(s)) + digit_text(rank_of(s) + 1)
}

/// The letter of file `f`.
pub fn file_letter(f: u32) -> (r: &'static str)
    requires
        f < 8,
    ensures
        r@ == file_text(f as int),
{
    if f == 0 {
        "a"
    } else if f == 1 {
        "b"
    } else if f == 2 {
        "c"
    } else if f == 3 {
        "d"
    } else if f == 4 {
        "e"
    } else if f == 5 {
        "f"
    } else if f == 6 {
        "g"
    } else {
        "h"
    }
}

/// The algebraic name of square `sq`.
pub fn square_name(sq: u32) -> (r: String)
    requires
        sq < 64,
    ensures
        r@ == square_text(sq as int),
{
    let mut s = String::from_str(file_letter(sq % 8));
    s.append(digit_str((sq / 8 + 1) as u64));
    s
}

/// The contents of the 64 squares of a board, indexed a1 = 0, b1 = 1, ..., h8 = 63.
#[derive(Clone, Debug)]
pub struct Board {
    pub squares: Vec<Option<Piece>>,
}

impl View for Board {
    type V = Seq<Option<Piece>>;

    open spec fn view(&self) -> Seq<Option<Piece>> {
        self.squares@
    }
}

/// Whether square `s` holds a piece of side `c`.
pub open spec fn holds_color(b: Seq<Option<Piece>>, s: int, c: Color) -> bool {
    match b[s] {
        Some(p) => p.color == c,
        None => false,
    }
}

/// Whether square `s` holds a piece of kind `r`.
pub open spec fn holds_role(b: Seq<Option<Piece>>, s: int, r: Role) -> bool {
    match b[s] {
        Some(p) => p.role == r,
        None => false,
    }
}

/// The occupied squares of a board.
pub open spec fn occupied_set(b: Seq<Option<Piece>>) -> Set<int> {
    Set::new(|s: int| on_board(s) && b[s] is Some)
}

/// The squares holding a piece of side `c`.
pub open spec fn color_set(b: Seq<Option<Piece>>, c: Color) -> Set<int> {
    Set::new(|s: int| on_board(s) && holds_color(b, s, c))
}

/// The squares holding a piece of kind `r`, of either side.
pub open spec fn role_set(b: Seq<Option<Piece>>, r: Role) -> Set<int> {
    Set::new(|s: int| on_board(s) && holds_role(b, s, r))
}

/// The kind of the piece on `s` (meaningful for occupied squares).
pub open spec fn role_on(b: Seq<Option<Piece>>, s: int) -> Role {
    b[s]->Some_0.role
}

impl Board {
    /// A well-formed board has one entry per square.
    pub open spec fn wf(&self) -> bool {
        self.squares@.len() == 64
    }

    /// A board without pieces.
    pub fn empty() -> (r: Board)
        ensures
            r.wf(),
            forall|s: int| 0 <= s < 64 ==> r@[s] is None,
    {
        let mut squares: Vec<Option<Piece>> = Vec::new();
        let mut i: usize = 0;
        while i < 64
            invariant
                i <= 64,
                squares@.len() == i,
                forall|s: int| 0 <= s < i ==> squares@[s] is None,
            decreases 64 - i,
        {
            squares.push(None);
            i = i + 1;
        }
        Board { squares }
    }

    /// Places `piece` on square `sq`, replacing what was there.
    pub fn put(&mut self, sq: u32, piece: Piece)
        requires
            old(self).wf(),
            sq < 64,
        ensures
            final(self).wf(),
            final(self)@ == old(self)@.update(sq as int, Some(piece)),
    {
        self.squares.set(sq as usize, Some(piece));
    }

    /// The piece on square `sq`, if any.
    pub fn piece_at(&self, sq: u32) -> (r: Option<Piece>)
        requires
            self.wf(),
            sq < 64,
        ensures
            r == self@[sq as int],
    {
        self.squares[sq as usize]
    }

    /// The occupied squares.
    pub fn occupied(&self) -> (r: Bitboard)
        requires
            self.wf(),
        ensures
            r@ == occupied_set(self@),
    {
        let mut r = Bitboard::empty();
        let mut i: u32 = 0;
        while i < 64
            invariant
                self.wf(),
                i <= 64,
                forall|s: int| r@.contains(s) <==> (0 <= s < i && self@[s] is Some),
            decreases 64 - i,
        {
            if self.squares[i as usize].is_some() {
                r = r.with(i);
            }
            i = i + 1;
        }
        assert(r@ =~= occupied_set(self@));
        r
    }

    /// The squares holding a piece of side `c`.
    pub fn by_color(&self, c: Color) -> (r: Bitboard)
        requires
            self.wf(),
        ensures
            r@ == color_set(self@, c),
    {
        let mut r = Bitboard::empty();
        let mut i: u32 = 0;
        while i < 64
            invariant
                self.wf(),
                i <= 64,
                forall|s: int|
                    r@.contains(s) <==> (0 <= s < i && holds_color(self@, s, c)),
            decreases 64 - i,
        {
            match self.squares[i as usize] {
                Some(p) => {
                    if p.color == c {
                        r = r.with(i);
                    }
                },
                None => {},
            }
            i = i + 1;
        }
        assert(r@ =~= color_set(self@, c));
        r
    }

    /// The squares holding a piece of kind `role`, of either side.
    pub fn by_role(&self, role: Role) -> (r: Bitboard)
        requires
            self.wf(),
        ensures
            r@ == role_set(self@, role),
    {
        let mut r = Bitboard::empty();
        let mut i: u32 = 0;
        while i < 64
            invariant
                self.wf(),
                i <= 64,
                forall|s: int|
                    r@.contains(s) <==> (0 <= s < i && holds_role(self@, s, role)),
            decreases 64 - i,
        {
            match self.squares[i as usize] {
                Some(p) => {
                    if p.role == role {
                        r = r.with(i);
                    }
                },
                None => {},
            }
            i = i + 1;
        }
        assert(r@ =~= role_set(self@, role));
        r
    }
}

} // verus!
