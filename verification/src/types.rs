//! The board as plain values: colours, pieces, squares, moves, and a
//! position with everything a FEN records.

use vstd::prelude::*;

verus! {

/// A side.
#[derive(Clone, Copy, Debug, PartialEq, Eq, Structural)]
pub enum Color {
    White,
    Black,
}

impl Color {
    pub open spec fn spec_opposite(self) -> Color {
        match self {
            Color::White => Color::Black,
            Color::Black => Color::White,
        }
    }

    /// The other side.
    #[verifier::when_used_as_spec(spec_opposite)]
    pub fn opposite(self) -> (c: Color)
        ensures
            c == self.spec_opposite(),
    {
        match self {
            Color::White => Color::Black,
            Color::Black => Color::White,
        }
    }

    pub open spec fn index(self) -> nat {
        match self {
            Color::White => 0,
            Color::Black => 1,
        }
    }
}

/// A kind of piece, in the order pawn, knight, bishop, rook, queen, king.
#[derive(Clone, Copy, Debug, PartialEq, Eq, Structural)]
pub enum Piece {
    Pawn,
    Knight,
    Bishop,
    Rook,
    Queen,
    King,
}

impl Piece {
    pub open spec fn index(self) -> nat {
        match self {
            Piece::Pawn => 0,
            Piece::Knight => 1,
            Piece::Bishop => 2,
            Piece::Rook => 3,
            Piece::Queen => 4,
            Piece::King => 5,
        }
    }

    pub open spec fn spec_from_index(i: nat) -> Piece {
        if i == 0 { Piece::Pawn }
        else if i == 1 { Piece::Knight }
        else if i == 2 { Piece::Bishop }
        else if i == 3 { Piece::Rook }
        else if i == 4 { Piece::Queen }
        else { Piece::King }
    }

    /// The piece with index `i`, which is below six.
    pub fn from_index(i: u8) -> (p: Piece)
        requires
            i < 6,
        ensures
            p == Piece::spec_from_index(i as nat),
            p.index() == i,
    {
        if i == 0 { Piece::Pawn }
        else if i == 1 { Piece::Knight }
        else if i == 2 { Piece::Bishop }
        else if i == 3 { Piece::Rook }
        else if i == 4 { Piece::Queen }
        else { Piece::King }
    }

    pub fn to_index(self) -> (i: u8)
        ensures
            i as nat == self.index(),
    {
        match self {
            Piece::Pawn => 0,
            Piece::Knight => 1,
            Piece::Bishop => 2,
            Piece::Rook => 3,
            Piece::Queen => 4,
            Piece::King => 5,
        }
    }
}

/// A move from square to square, squares numbered `a1` = 0 to `h8` = 63,
/// rank by rank. Castling is written as the king taking its own rook, the
/// way cozy-chess stores it.
#[derive(Clone, Copy, Debug, PartialEq, Eq, Structural)]
pub struct Move {
    pub from: u8,
    pub to: u8,
    pub promotion: Option<Piece>,
}

pub open spec fn file_of(square: nat) -> nat {
    square % 8
}

pub open spec fn rank_of(square: nat) -> nat {
    square / 8
}

/// The letter of file `f`, `a` to `h`.
pub open spec fn file_char(f: nat) -> char {
    if f == 0 { 'a' }
    else if f == 1 { 'b' }
    else if f == 2 { 'c' }
    else if f == 3 { 'd' }
    else if f == 4 { 'e' }
    else if f == 5 { 'f' }
    else if f == 6 { 'g' }
    else { 'h' }
}

/// The digit of rank `r`, `1` to `8`.
pub open spec fn rank_char(r: nat) -> char {
    if r == 0 { '1' }
    else if r == 1 { '2' }
    else if r == 2 { '3' }
    else if r == 3 { '4' }
    else if r == 4 { '5' }
    else if r == 5 { '6' }
    else if r == 6 { '7' }
    else { '8' }
}

/// A square as text, such as `e4`.
pub open spec fn square_text(square: nat) -> Seq<char> {
    seq![file_char(file_of(square)), rank_char(rank_of(square))]
}

pub fn file_to_char(f: u8) -> (c: char)
    requires
        f < 8,
    ensures
        c == file_char(f as nat),
{
    if f == 0 { 'a' }
    else if f == 1 { 'b' }
    else if f == 2 { 'c' }
    else if f == 3 { 'd' }
    else if f == 4 { 'e' }
    else if f == 5 { 'f' }
    else if f == 6 { 'g' }
    else { 'h' }
}

pub fn rank_to_char(r: u8) -> (c: char)
    requires
        r < 8,
    ensures
        c == rank_char(r as nat),
{
    if r == 0 { '1' }
    else if r == 1 { '2' }
    else if r == 2 { '3' }
    else if r == 3 { '4' }
    else if r == 4 { '5' }
    else if r == 5 { '6' }
    else if r == 6 { '7' }
    else { '8' }
}

/// Appends the name of `square` to `out`.
pub fn push_square(out: &mut Vec<char>, square: u8)
    requires
        square < 64,
    ensures
        final(out)@ == old(out)@ + square_text(square as nat),
{
    out.push(file_to_char(square % 8));
    out.push(rank_to_char(square / 8));
}

/// What stands on a square is kept as a code: 0 for an empty square, 1 to
/// 6 for a white pawn to king, 7 to 12 for a black pawn to king.
pub open spec fn cell_color(code: nat) -> Color {
    if code <= 6 { Color::White } else { Color::Black }
}

pub open spec fn cell_piece(code: nat) -> Piece {
    if code <= 6 { Piece::spec_from_index((code - 1) as nat) } else { Piece::spec_from_index((code - 7) as nat) }
}

/// A position: what stands on each square, whose move it is, the castling
/// rights, the file of a pawn that has just advanced two squares, and the
/// halfmove clock and fullmove number.
#[derive(Debug, PartialEq, Eq)]
pub struct Board {
    pub cells: Vec<u8>,
    pub side: Color,
    pub white_short: bool,
    pub white_long: bool,
    pub black_short: bool,
    pub black_long: bool,
    pub en_passant: Option<u8>,
    pub halfmove: u8,
    pub fullmove: u16,
}

/// The value of a [`Board`].
pub struct BoardView {
    pub cells: Seq<u8>,
    pub side: Color,
    pub white_short: bool,
    pub white_long: bool,
    pub black_short: bool,
    pub black_long: bool,
    pub en_passant: Option<u8>,
    pub halfmove: u8,
    pub fullmove: u16,
}

impl View for Board {
    type V = BoardView;

    open spec fn view(&self) -> BoardView {
        BoardView {
            cells: self.cells@,
            side: self.side,
            white_short: self.white_short,
            white_long: self.white_long,
            black_short: self.black_short,
            black_long: self.black_long,
            en_passant: self.en_passant,
            halfmove: self.halfmove,
            fullmove: self.fullmove,
        }
    }
}

impl BoardView {
    /// Sixty-four squares, each empty or holding one piece, and an en
    /// passant file on the board.
    pub open spec fn wf(self) -> bool {
        &&& self.cells.len() == 64
        &&& forall|i: int| 0 <= i < 64 ==> #[trigger] self.cells[i] <= 12
        &&& self.en_passant matches Some(f) ==> f < 8
    }

    /// The colour and kind of the piece on `square`, if any.
    pub open spec fn piece_on(self, square: nat) -> Option<(Color, Piece)> {
        let code = self.cells[square as int];
        if code == 0 { None } else { Some((cell_color(code as nat), cell_piece(code as nat))) }
    }

    /// The same position by the board alone: pieces, side to move, castling
    /// rights and en passant file; the clocks do not count.
    pub open spec fn same_setup(self, other: BoardView) -> bool {
        &&& self.cells == other.cells
        &&& self.side == other.side
        &&& self.white_short == other.white_short
        &&& self.white_long == other.white_long
        &&& self.black_short == other.black_short
        &&& self.black_long == other.black_long
        &&& self.en_passant == other.en_passant
    }
}

impl Board {
    pub open spec fn wf(&self) -> bool {
        self@.wf()
    }

    /// A copy of the board.
    pub fn copy(&self) -> (b: Board)
        ensures
            b@ == self@,
    {
        let mut cells: Vec<u8> = Vec::new();
        let mut i: usize = 0;
        while i < self.cells.len()
            invariant
                i <= self.cells.len(),
                cells@ == self.cells@.subrange(0, i as int),
            decreases self.cells.len() - i,
        {
            cells.push(self.cells[i]);
            i = i + 1;
        }
        proof {
            assert(self.cells@.subrange(0, self.cells@.len() as int) == self.cells@);
        }
        Board {
            cells,
            side: self.side,
            white_short: self.white_short,
            white_long: self.white_long,
            black_short: self.black_short,
            black_long: self.black_long,
            en_passant: self.en_passant,
            halfmove: self.halfmove,
            fullmove: self.fullmove,
        }
    }

    /// The piece on `square`, with its colour.
    pub fn piece_on(&self, square: u8) -> (p: Option<(Color, Piece)>)
        requires
            self.wf(),
            square < 64,
        ensures
            p == self@.piece_on(square as nat),
    {
        let code = self.cells[square as usize];
        if code == 0 {
            None
        } else if code <= 6 {
            Some((Color::White, Piece::from_index(code - 1)))
        } else {
            Some((Color::Black, Piece::from_index(code - 7)))
        }
    }

    /// True when the position is the same as `other`'s, clocks aside.
    pub fn same_setup(&self, other: &Board) -> (same: bool)
        ensures
            same == self@.same_setup(other@),
    {
        if self.side != other.side || self.white_short != other.white_short
            || self.white_long != other.white_long || self.black_short != other.black_short
            || self.black_long != other.black_long || self.en_passant != other.en_passant
            || self.cells.len() != other.cells.len() {
            return false;
        }
        let mut i: usize = 0;
        while i < self.cells.len()
            invariant
                i <= self.cells.len(),
                self.cells.len() == other.cells.len(),
                forall|j: int| 0 <= j < i ==> self.cells@[j] == other.cells@[j],
            decreases self.cells.len() - i,
        {
            if self.cells[i] != other.cells[i] {
                return false;
            }
            i = i + 1;
        }
        proof {
            assert(self.cells@ =~= other.cells@);
        }
        true
    }
}

} // verus!
