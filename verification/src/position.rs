//! A plain square-by-square position with a turn-taking rule and no
//! legality check beyond it, and the trait a game state offers.

use vstd::prelude::*;
use crate::moves::on_board;
use crate::types::{Color, Move, Piece};

verus! {

/// A piece of a side.
#[derive(Clone, Copy, Debug, PartialEq, Eq, Structural)]
pub struct ColoredPiece {
    pub color: Color,
    pub kind: Piece,
}

/// Why a move was refused.
#[derive(Debug, PartialEq, Eq)]
pub enum GameError {
    InvalidMove(String),
}

/// Core game state operations.
pub trait GameState {
    /// Make a move on the board.
    fn make_move(&mut self, chess_move: Move) -> Result<(), GameError>
        requires
            on_board(chess_move),
    ;

    /// All legal moves in the current position.
    fn legal_moves(&self) -> Vec<Move>;

    /// Whether the game is in checkmate.
    fn is_checkmate(&self) -> bool;

    /// Whether the game is in stalemate.
    fn is_stalemate(&self) -> bool;

    /// Whether the side to move is in check.
    fn is_check(&self) -> bool;

    /// The side to move.
    fn side_to_move(&self) -> Color;

    /// The piece on a square.
    fn piece_at(&self, square: u8) -> Option<ColoredPiece>
        requires
            square < 64,
    ;
}

/// A position as sixty-four squares and the side to move.
pub struct Position {
    board: Vec<Option<ColoredPiece>>,
    side_to_move: Color,
}

/// The first rank of each side, from the a-file: rook, knight, bishop,
/// queen, king, bishop, knight, rook.
pub open spec fn back_rank_piece(file: int) -> Piece {
    if file == 0 || file == 7 { Piece::Rook }
    else if file == 1 || file == 6 { Piece::Knight }
    else if file == 2 || file == 5 { Piece::Bishop }
    else if file == 3 { Piece::Queen }
    else { Piece::King }
}

/// What stands on `square` at the start of a game.
pub open spec fn initial_square(square: int) -> Option<ColoredPiece> {
    if square < 8 {
        Some(ColoredPiece { color: Color::White, kind: back_rank_piece(square) })
    } else if square < 16 {
        Some(ColoredPiece { color: Color::White, kind: Piece::Pawn })
    } else if square < 48 {
        None
    } else if square < 56 {
        Some(ColoredPiece { color: Color::Black, kind: Piece::Pawn })
    } else {
        Some(ColoredPiece { color: Color::Black, kind: back_rank_piece(square - 56) })
    }
}

fn back_rank_kind(file: usize) -> (p: Piece)
    requires
        file < 8,
    ensures
        p == back_rank_piece(file as int),
{
    if file == 0 || file == 7 { Piece::Rook }
    else if file == 1 || file == 6 { Piece::Knight }
    else if file == 2 || file == 5 { Piece::Bishop }
    else if file == 3 { Piece::Queen }
    else { Piece::King }
}

impl Position {
    /// The squares, `a1` first, and the side to move.
    pub closed spec fn squares(&self) -> Seq<Option<ColoredPiece>> {
        self.board@
    }

    pub closed spec fn side(&self) -> Color {
        self.side_to_move
    }

    pub closed spec fn wf(&self) -> bool {
        self.board@.len() == 64
    }

    /// The start of a game, White to move.
    pub fn new() -> (p: Position)
        ensures
            p.wf(),
            p.squares().len() == 64,
            forall|i: int| 0 <= i < 64 ==> #[trigger] p.squares()[i] == initial_square(i),
            p.side() == Color::White,
    {
        let mut board: Vec<Option<ColoredPiece>> = Vec::new();
        let mut i: usize = 0;
        while i < 64
            invariant
                i <= 64,
                board@.len() == i,
                forall|j: int| 0 <= j < i ==> #[trigger] board@[j] == initial_square(j),
            decreases 64 - i,
        {
            let sq = if i < 8 {
                Some(ColoredPiece { color: Color::White, kind: back_rank_kind(i) })
            } else if i < 16 {
                Some(ColoredPiece { color: Color::White, kind: Piece::Pawn })
            } else if i < 48 {
                None
            } else if i < 56 {
                Some(ColoredPiece { color: Color::Black, kind: Piece::Pawn })
            } else {
                Some(ColoredPiece { color: Color::Black, kind: back_rank_kind(i - 56) })
            };
            board.push(sq);
            i = i + 1;
        }
        Position { board, side_to_move: Color::White }
    }
}

/// The squares after `mv` moves the piece on its origin to its destination,
/// promoted when it names a promotion, emptying the origin.
pub open spec fn moved(squares: Seq<Option<ColoredPiece>>, side: Color, mv: Move) -> Seq<Option<ColoredPiece>> {
    let carried = squares.update(mv.to as int, squares[mv.from as int]).update(mv.from as int, None);
    match mv.promotion {
        Some(p) => carried.update(mv.to as int, Some(ColoredPiece { color: side, kind: p })),
        None => carried,
    }
}

impl GameState for Position {
    /// A move of a piece of the side to move, with no check of how pieces
    /// move: refused when the origin is empty or holds the other side's piece.
    fn make_move(&mut self, chess_move: Move) -> (r: Result<(), GameError>)
        ensures
            old(self).wf() ==> final(self).wf(),
            old(self).wf() && (old(self).squares()[chess_move.from as int] is None)
                ==> (r matches Err(GameError::InvalidMove(m)) && m@ == "No piece at source"@) && *final(self) == *old(self),
            old(self).wf() && (old(self).squares()[chess_move.from as int] matches Some(p) && p.color != old(self).side())
                ==> (r matches Err(GameError::InvalidMove(m)) && m@ == "Not your turn"@) && *final(self) == *old(self),
            old(self).wf() && (old(self).squares()[chess_move.from as int] matches Some(p) && p.color == old(self).side())
                ==> r is Ok && final(self).squares() == moved(old(self).squares(), old(self).side(), chess_move)
                    && final(self).side() == old(self).side().spec_opposite(),
    {
        if chess_move.from as usize >= self.board.len() || chess_move.to as usize >= self.board.len() {
            return Err(GameError::InvalidMove(String::from_str("No piece at source")));
        }
        let piece = match self.board[chess_move.from as usize] {
            Some(p) => p,
            None => return Err(GameError::InvalidMove(String::from_str("No piece at source"))),
        };
        if piece.color != self.side_to_move {
            return Err(GameError::InvalidMove(String::from_str("Not your turn")));
        }
        let from_piece = self.board[chess_move.from as usize];
        self.board.set(chess_move.to as usize, from_piece);
        self.board.set(chess_move.from as usize, None);
        if let Some(promo) = chess_move.promotion {
            self.board.set(chess_move.to as usize, Some(ColoredPiece { color: self.side_to_move, kind: promo }));
        }
        self.side_to_move = self.side_to_move.opposite();
        Ok(())
    }

    /// No move generation: the list is empty.
    fn legal_moves(&self) -> (moves: Vec<Move>)
        ensures
            moves@.len() == 0,
    {
        Vec::new()
    }

    /// Never: nothing here detects mate.
    fn is_checkmate(&self) -> (b: bool)
        ensures
            !b,
    {
        false
    }

    /// Never: nothing here detects stalemate.
    fn is_stalemate(&self) -> (b: bool)
        ensures
            !b,
    {
        false
    }

    /// Never: nothing here detects check.
    fn is_check(&self) -> (b: bool)
        ensures
            !b,
    {
        false
    }

    fn side_to_move(&self) -> (c: Color)
        ensures
            c == self.side(),
    {
        self.side_to_move
    }

    fn piece_at(&self, square: u8) -> (p: Option<ColoredPiece>)
        ensures
            self.wf() ==> p == self.squares()[square as int],
    {
        if (square as usize) < self.board.len() {
            self.board[square as usize]
        } else {
            None
        }
    }
}

} // verus!
