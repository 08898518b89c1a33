//! The board and the state of the game as text, for the command line.

use vstd::prelude::*;
use crate::fen::cell_letter;
use crate::game::{draw_reason_spec, DrawReason, GameHistory};
use crate::moves::{checkmate_spec, in_check, in_check_spec, is_checkmate};
use crate::text::{digit_char, push_str, string_of};
use crate::types::{Board, BoardView, Color};

verus! {

/// What a square shows: the piece's letter, upper case for White, or a dot
/// for an empty square, `.` on dark squares and `·` on light ones.
pub open spec fn glyph(b: BoardView, rank: nat, file: nat) -> char {
    let code = b.cells[(rank * 8 + file) as int];
    if code != 0 {
        cell_letter(code as nat)
    } else if (rank + file) % 2 == 0 {
        '.'
    } else {
        '\u{b7}'
    }
}

/// The first `n` squares of `rank`, each as its glyph between spaces.
pub open spec fn squares_text(b: BoardView, rank: nat, n: nat) -> Seq<char>
    decreases n,
{
    if n == 0 {
        seq![]
    } else {
        squares_text(b, rank, (n - 1) as nat) + seq![' ', glyph(b, rank, (n - 1) as nat), ' ']
    }
}

/// One rank: its number, then its squares.
pub open spec fn rank_line(b: BoardView, rank: nat) -> Seq<char> {
    seq![digit_char(rank + 1), ' '] + squares_text(b, rank, 8) + seq!['\n']
}

/// The top `n` ranks, the eighth first.
pub open spec fn ranks_text(b: BoardView, n: nat) -> Seq<char>
    decreases n,
{
    if n == 0 || n > 8 {
        seq![]
    } else {
        ranks_text(b, (n - 1) as nat) + rank_line(b, (8 - n) as nat)
    }
}

/// The board with White at the bottom and the files named underneath.
pub open spec fn board_text(b: BoardView) -> Seq<char> {
    seq!['\n'] + ranks_text(b, 8) + "   a  b  c  d  e  f  g  h\n"@
}

fn glyph_of(board: &Board, rank: u8, file: u8) -> (c: char)
    requires
        board.wf(),
        rank < 8,
        file < 8,
    ensures
        c == glyph(board@, rank as nat, file as nat),
{
    let code = board.cells[(rank * 8 + file) as usize];
    if code != 0 {
        crate::fen::cell_to_letter(code)
    } else if (rank + file) % 2 == 0 {
        '.'
    } else {
        '\u{b7}'
    }
}

/// The board with White at the bottom, pieces as letters, empty squares as
/// dots.
pub fn board(position: &Board) -> (s: String)
    requires
        position.wf(),
    ensures
        s@ == board_text(position@),
{
    let mut out: Vec<char> = Vec::new();
    out.push('\n');
    let mut n: u8 = 0;
    while n < 8
        invariant
            position.wf(),
            n <= 8,
            out@ == seq!['\n'] + ranks_text(position@, n as nat),
        decreases 8 - n,
    {
        let rank: u8 = 7 - n;
        let ghost before = out@;
        out.push(crate::text::digit_to_char((rank + 1) as u64));
        out.push(' ');
        let mut f: u8 = 0;
        while f < 8
            invariant
                position.wf(),
                rank < 8,
                f <= 8,
                out@ == before + seq![digit_char((rank + 1) as nat), ' '] + squares_text(position@, rank as nat, f as nat),
            decreases 8 - f,
        {
            out.push(' ');
            out.push(glyph_of(position, rank, f));
            out.push(' ');
            f = f + 1;
        }
        out.push('\n');
        n = n + 1;
        proof {
            assert(out@ =~= seq!['\n'] + ranks_text(position@, n as nat));
        }
    }
    push_str(&mut out, "   a  b  c  d  e  f  g  h\n");
    string_of(out.as_slice())
}

pub open spec fn side_name(c: Color) -> Seq<char> {
    match c {
        Color::White => "White"@,
        Color::Black => "Black"@,
    }
}

/// Whose move it is, or how the game ended.
pub open spec fn status_text(b: BoardView, draw: Option<DrawReason>) -> Seq<char> {
    if checkmate_spec(b) {
        "Checkmate! "@ + side_name(b.side.spec_opposite()) + " wins!"@
    } else if draw is Some {
        "Draw by "@ + draw->0.text() + "."@
    } else if in_check_spec(b) {
        side_name(b.side) + " is in check!"@
    } else {
        side_name(b.side) + " to move"@
    }
}

fn side_str(c: Color) -> (s: &'static str)
    ensures
        s@ == side_name(c),
{
    match c {
        Color::White => "White",
        Color::Black => "Black",
    }
}

/// Whose move it is, or how the game ended.
pub fn status(history: &GameHistory) -> (s: String)
    requires
        history@.wf(),
    ensures
        s@ == status_text(history@.current_board(), draw_reason_spec(history@)),
{
    let board = history.current_board();
    let to_move = board.side;
    let mut out: Vec<char> = Vec::new();
    if is_checkmate(board) {
        push_str(&mut out, "Checkmate! ");
        push_str(&mut out, side_str(to_move.opposite()));
        push_str(&mut out, " wins!");
    } else {
        match history.draw_reason() {
            Some(reason) => {
                push_str(&mut out, "Draw by ");
                push_str(&mut out, reason.describe());
                push_str(&mut out, ".");
            },
            None => {
                if in_check(board) {
                    push_str(&mut out, side_str(to_move));
                    push_str(&mut out, " is in check!");
                } else {
                    push_str(&mut out, side_str(to_move));
                    push_str(&mut out, " to move");
                }
            },
        }
    }
    string_of(out.as_slice())
}

} // verus!
