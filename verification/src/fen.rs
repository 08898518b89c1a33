//! A position written as FEN, the text cozy-chess reads and writes.

use vstd::prelude::*;
use crate::text::{decimal, digit_char, digit_to_char, push_chars, push_decimal};
use crate::types::{file_char, file_to_char, Board, BoardView, Color};

verus! {

/// The FEN letter of a cell code: upper case for White, lower case for Black.
pub open spec fn cell_letter(code: nat) -> char {
    if code == 1 { 'P' }
    else if code == 2 { 'N' }
    else if code == 3 { 'B' }
    else if code == 4 { 'R' }
    else if code == 5 { 'Q' }
    else if code == 6 { 'K' }
    else if code == 7 { 'p' }
    else if code == 8 { 'n' }
    else if code == 9 { 'b' }
    else if code == 10 { 'r' }
    else if code == 11 { 'q' }
    else { 'k' }
}

pub fn cell_to_letter(code: u8) -> (c: char)
    ensures
        c == cell_letter(code as nat),
{
    if code == 1 { 'P' }
    else if code == 2 { 'N' }
    else if code == 3 { 'B' }
    else if code == 4 { 'R' }
    else if code == 5 { 'Q' }
    else if code == 6 { 'K' }
    else if code == 7 { 'p' }
    else if code == 8 { 'n' }
    else if code == 9 { 'b' }
    else if code == 10 { 'r' }
    else if code == 11 { 'q' }
    else { 'k' }
}

/// A run of `empty` empty squares, written as its count.
pub open spec fn flush(empty: nat) -> Seq<char> {
    if empty == 0 { seq![] } else { seq![digit_char(empty)] }
}

/// The text written for rank `r` after its first `f` files, and the run of
/// empty squares still to be written.
pub open spec fn row_state(cells: Seq<u8>, r: nat, f: nat) -> (Seq<char>, nat)
    decreases f,
{
    if f == 0 {
        (seq![], 0)
    } else {
        let (text, empty) = row_state(cells, r, (f - 1) as nat);
        let code = cells[(r * 8 + f - 1) as int];
        if code == 0 {
            (text, empty + 1)
        } else {
            (text + flush(empty) + seq![cell_letter(code as nat)], 0)
        }
    }
}

/// Rank `r` in FEN: pieces as letters, runs of empty squares as digits.
pub open spec fn row_text(cells: Seq<u8>, r: nat) -> Seq<char> {
    row_state(cells, r, 8).0 + flush(row_state(cells, r, 8).1)
}

/// The top `n` ranks, eighth rank first, separated by `/`.
pub open spec fn top_rows(cells: Seq<u8>, n: nat) -> Seq<char>
    decreases n,
{
    if n <= 1 {
        row_text(cells, 7)
    } else {
        top_rows(cells, (n - 1) as nat) + seq!['/'] + row_text(cells, (8 - n) as nat)
    }
}

pub open spec fn side_text(side: Color) -> Seq<char> {
    match side {
        Color::White => seq!['w'],
        Color::Black => seq!['b'],
    }
}

pub open spec fn castling_text(b: BoardView) -> Seq<char> {
    let t = (if b.white_short { seq!['K'] } else { seq![] })
        + (if b.white_long { seq!['Q'] } else { seq![] })
        + (if b.black_short { seq!['k'] } else { seq![] })
        + (if b.black_long { seq!['q'] } else { seq![] });
    if t.len() == 0 { seq!['-'] } else { t }
}

/// The en passant square: on the third rank after a white double step, on
/// the sixth after a black one.
pub open spec fn en_passant_text(b: BoardView) -> Seq<char> {
    match b.en_passant {
        None => seq!['-'],
        Some(f) => seq![file_char(f as nat), if b.side == Color::White { '6' } else { '3' }],
    }
}

/// The position as FEN.
pub open spec fn fen_of(b: BoardView) -> Seq<char> {
    top_rows(b.cells, 8) + seq![' '] + side_text(b.side) + seq![' '] + castling_text(b)
        + seq![' '] + en_passant_text(b) + seq![' '] + decimal(b.halfmove as nat) + seq![' ']
        + decimal(b.fullmove as nat)
}

fn push_flush(out: &mut Vec<char>, empty: u8)
    requires
        empty <= 8,
    ensures
        final(out)@ == old(out)@ + flush(empty as nat),
{
    if empty > 0 {
        out.push(digit_to_char(empty as u64));
    }
}

fn push_row(out: &mut Vec<char>, b: &Board, r: u8)
    requires
        b.wf(),
        r < 8,
    ensures
        final(out)@ == old(out)@ + row_text(b.cells@, r as nat),
{
    let ghost start = out@;
    let mut text: Vec<char> = Vec::new();
    let mut empty: u8 = 0;
    let mut f: u8 = 0;
    while f < 8
        invariant
            b.wf(),
            r < 8,
            f <= 8,
            empty <= f,
            (text@, empty as nat) == row_state(b.cells@, r as nat, f as nat),
        decreases 8 - f,
    {
        let code = b.cells[(r * 8 + f) as usize];
        if code == 0 {
            empty = empty + 1;
        } else {
            push_flush(&mut text, empty);
            text.push(cell_to_letter(code));
            empty = 0;
        }
        f = f + 1;
    }
    push_flush(&mut text, empty);
    push_chars(out, &text);
}

fn push_placement(out: &mut Vec<char>, b: &Board)
    requires
        b.wf(),
    ensures
        final(out)@ == old(out)@ + top_rows(b.cells@, 8),
{
    let mut rows: Vec<char> = Vec::new();
    push_row(&mut rows, b, 7);
    let mut n: u8 = 2;
    while n <= 8
        invariant
            b.wf(),
            2 <= n <= 9,
            rows@ == top_rows(b.cells@, (n - 1) as nat),
        decreases 9 - n,
    {
        rows.push('/');
        push_row(&mut rows, b, 8 - n);
        n = n + 1;
    }
    push_chars(out, &rows);
}

fn push_castling(out: &mut Vec<char>, b: &Board)
    ensures
        final(out)@ == old(out)@ + castling_text(b@),
{
    let mut t: Vec<char> = Vec::new();
    if b.white_short {
        t.push('K');
    }
    if b.white_long {
        t.push('Q');
    }
    if b.black_short {
        t.push('k');
    }
    if b.black_long {
        t.push('q');
    }
    if t.len() == 0 {
        t.push('-');
    }
    proof {
        assert(t@ =~= castling_text(b@));
    }
    push_chars(out, &t);
}

fn push_en_passant(out: &mut Vec<char>, b: &Board)
    requires
        b.wf(),
    ensures
        final(out)@ == old(out)@ + en_passant_text(b@),
{
    match b.en_passant {
        None => out.push('-'),
        Some(f) => {
            out.push(file_to_char(f));
            out.push(if b.side == Color::White { '6' } else { '3' });
        }
    }
    proof {
        assert(final(out)@ =~= old(out)@ + en_passant_text(b@));
    }
}

/// Writes `b` as FEN.
pub fn to_fen(b: &Board) -> (fen: Vec<char>)
    requires
        b.wf(),
    ensures
        fen@ == fen_of(b@),
{
    let mut out: Vec<char> = Vec::new();
    push_placement(&mut out, b);
    out.push(' ');
    match b.side {
        Color::White => out.push('w'),
        Color::Black => out.push('b'),
    }
    out.push(' ');
    push_castling(&mut out, b);
    out.push(' ');
    push_en_passant(&mut out, b);
    out.push(' ');
    push_decimal(&mut out, b.halfmove as u64);
    out.push(' ');
    push_decimal(&mut out, b.fullmove as u64);
    proof {
        assert(out@ =~= fen_of(b@));
    }
    out
}

} // verus!
