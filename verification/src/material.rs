//! Material on the board and the pieces each side has captured.

use vstd::prelude::*;
use crate::game::{GameHistory, HistoryView};
use crate::moves::on_board;
use crate::types::{file_of, Board, BoardView, Color, Move, Piece};

verus! {

/// What a piece is worth in pawns; the king counts for nothing.
pub open spec fn value_of(p: Piece) -> int {
    match p {
        Piece::Pawn => 1,
        Piece::Knight => 3,
        Piece::Bishop => 3,
        Piece::Rook => 5,
        Piece::Queen => 9,
        Piece::King => 0,
    }
}

/// The material value of a piece type.
pub fn piece_value(piece: Piece) -> (v: i32)
    ensures
        v == value_of(piece),
{
    match piece {
        Piece::Pawn => 1,
        Piece::Knight | Piece::Bishop => 3,
        Piece::Rook => 5,
        Piece::Queen => 9,
        Piece::King => 0,
    }
}

/// The piece `mv` takes on `b`, counting en passant: what stands on the
/// destination unless it is the mover's own (castling lands the king on its
/// own rook), else a pawn when a pawn moves to another file.
pub open spec fn captured_spec(b: BoardView, mv: Move) -> Option<Piece> {
    match b.piece_on(mv.to as nat) {
        Some((c, p)) => if c == b.side { None } else { Some(p) },
        None => match b.piece_on(mv.from as nat) {
            Some((_, Piece::Pawn)) => if file_of(mv.from as nat) != file_of(mv.to as nat) { Some(Piece::Pawn) } else { None },
            _ => None,
        },
    }
}

/// The piece `mv` takes on `board`, counting en passant.
pub fn captured_piece(board: &Board, mv: Move) -> (p: Option<Piece>)
    requires
        board.wf(),
        on_board(mv),
    ensures
        p == captured_spec(board@, mv),
{
    match board.piece_on(mv.to) {
        Some((c, p)) => if c == board.side { None } else { Some(p) },
        None => match board.piece_on(mv.from) {
            Some((_, Piece::Pawn)) => if mv.from % 8 != mv.to % 8 { Some(Piece::Pawn) } else { None },
            _ => None,
        },
    }
}

/// The value of `color`'s pieces on the first `n` squares.
pub open spec fn material_upto(b: BoardView, color: Color, n: nat) -> int
    decreases n,
{
    if n == 0 {
        0
    } else {
        material_upto(b, color, (n - 1) as nat) + match b.piece_on((n - 1) as nat) {
            Some((c, p)) => if c == color { value_of(p) } else { 0 },
            None => 0,
        }
    }
}

/// The value of `color`'s pieces on the board.
pub open spec fn material_spec(b: BoardView, color: Color) -> int {
    material_upto(b, color, 64)
}

/// The value of `color`'s pieces on `board`.
pub fn material(board: &Board, color: Color) -> (v: i32)
    requires
        board.wf(),
    ensures
        v == material_spec(board@, color),
{
    let mut total: i32 = 0;
    let mut sq: u8 = 0;
    while sq < 64
        invariant
            board.wf(),
            sq <= 64,
            total == material_upto(board@, color, sq as nat),
            0 <= total <= 9 * sq,
        decreases 64 - sq,
    {
        match board.piece_on(sq) {
            Some((c, p)) => {
                if c == color {
                    total = total + piece_value(p);
                }
            },
            None => {},
        }
        sq = sq + 1;
    }
    total
}

/// How many of each kind of piece, by index: pawn, knight, bishop, rook,
/// queen, king.
pub open spec fn counted(counts: Seq<nat>, p: Piece) -> Seq<nat> {
    counts.update(p.index() as int, counts[p.index() as int] + 1)
}

/// The pieces `side` took in the first `n` moves of `h`, counted by kind.
pub open spec fn captures_upto(h: HistoryView, side: Color, n: nat) -> Seq<nat>
    decreases n,
{
    if n == 0 {
        seq![0, 0, 0, 0, 0, 0]
    } else {
        let before = captures_upto(h, side, (n - 1) as nat);
        let b = h.positions[n - 1];
        if b.side == side {
            match captured_spec(b, h.moves[n - 1]) {
                Some(p) => counted(before, p),
                None => before,
            }
        } else {
            before
        }
    }
}

/// Material on the board per side, and the pieces each side has captured.
pub struct Material {
    pub white: i32,
    pub black: i32,
    /// What White has taken, counted by piece index.
    pub white_captured: Vec<u32>,
    /// What Black has taken, counted by piece index.
    pub black_captured: Vec<u32>,
}

proof fn lemma_captures_bounded(h: HistoryView, side: Color, n: nat)
    ensures
        captures_upto(h, side, n).len() == 6,
        forall|i: int| 0 <= i < 6 ==> #[trigger] captures_upto(h, side, n)[i] <= n,
    decreases n,
{
    if n > 0 {
        lemma_captures_bounded(h, side, (n - 1) as nat);
    }
}

/// Material on the current board per side, and the pieces each side has
/// captured. Captures are read from the moves played, so a promoted pawn is
/// not mistaken for a captured one.
pub fn calculate_material(history: &GameHistory) -> (m: Material)
    requires
        history@.wf(),
        history@.current <= u32::MAX,
    ensures
        m.white == material_spec(history@.current_board(), Color::White),
        m.black == material_spec(history@.current_board(), Color::Black),
        m.white_captured@.map_values(|c: u32| c as nat) == captures_upto(history@, Color::White, history@.current),
        m.black_captured@.map_values(|c: u32| c as nat) == captures_upto(history@, Color::Black, history@.current),
{
    let board = history.current_board();
    let white = material(board, Color::White);
    let black = material(board, Color::Black);
    let pairs = history.played();
    let mut wc: Vec<u32> = vec![0, 0, 0, 0, 0, 0];
    let mut bc: Vec<u32> = vec![0, 0, 0, 0, 0, 0];
    let ghost h = history@;
    proof {
        assert(wc@.map_values(|c: u32| c as nat) =~= captures_upto(h, Color::White, 0));
        assert(bc@.map_values(|c: u32| c as nat) =~= captures_upto(h, Color::Black, 0));
    }
    let mut i: usize = 0;
    while i < pairs.len()
        invariant
            h.wf(),
            h.current <= u32::MAX,
            pairs@.len() == h.current,
            forall|j: int| 0 <= j < pairs@.len() ==> (#[trigger] pairs@[j]).0@ == h.positions[j]
                && pairs@[j].1 == h.moves[j] && pairs@[j].0.wf(),
            i <= pairs@.len(),
            wc@.map_values(|c: u32| c as nat) == captures_upto(h, Color::White, i as nat),
            bc@.map_values(|c: u32| c as nat) == captures_upto(h, Color::Black, i as nat),
        decreases pairs.len() - i,
    {
        let (b, mv) = (&pairs[i].0, pairs[i].1);
        proof {
            assert(pairs@[i as int].0@ == h.positions[i as int]);
            assert(on_board(h.moves[i as int]));
            lemma_captures_bounded(h, Color::White, i as nat);
            lemma_captures_bounded(h, Color::Black, i as nat);
        }
        match captured_piece(b, mv) {
            Some(p) => {
                let k = p.to_index() as usize;
                if b.side == Color::White {
                    let ghost before = wc@.map_values(|c: u32| c as nat);
                    let v = wc[k];
                    assert(v == before[k as int]);
                    wc.set(k, v + 1);
                    proof {
                        assert(wc@.map_values(|c: u32| c as nat) =~= counted(before, p));
                    }
                } else {
                    let ghost before = bc@.map_values(|c: u32| c as nat);
                    let v = bc[k];
                    assert(v == before[k as int]);
                    bc.set(k, v + 1);
                    proof {
                        assert(bc@.map_values(|c: u32| c as nat) =~= counted(before, p));
                    }
                }
            },
            None => {},
        }
        i = i + 1;
    }
    Material { white, black, white_captured: wc, black_captured: bc }
}

/// The taken pieces counted in `counts` (by piece index), heaviest first as
/// the captured rows show them: queens, rooks, bishops, knights, pawns.
pub open spec fn row_spec(counts: Seq<nat>) -> Seq<Piece> {
    Seq::new(counts[4], |i: int| Piece::Queen) + Seq::new(counts[3], |i: int| Piece::Rook)
        + Seq::new(counts[2], |i: int| Piece::Bishop) + Seq::new(counts[1], |i: int| Piece::Knight)
        + Seq::new(counts[0], |i: int| Piece::Pawn)
}

/// Appends `n` copies of `piece` to `row`.
fn push_times(row: &mut Vec<Piece>, piece: Piece, n: u32)
    ensures
        final(row)@ == old(row)@ + Seq::new(n as nat, |i: int| piece),
{
    let ghost start = row@;
    let mut k: u32 = 0;
    while k < n
        invariant
            k <= n,
            row@ == start + Seq::new(k as nat, |i: int| piece),
        decreases n - k,
    {
        row.push(piece);
        k = k + 1;
        proof {
            assert(row@ =~= start + Seq::new(k as nat, |i: int| piece));
        }
    }
}

/// The pieces a side has taken, counted by piece index, in the order the
/// captured rows draw them.
pub fn captured_row(counts: &Vec<u32>) -> (row: Vec<Piece>)
    requires
        counts@.len() == 6,
    ensures
        row@ == row_spec(counts@.map_values(|c: u32| c as nat)),
{
    let mut row: Vec<Piece> = Vec::new();
    push_times(&mut row, Piece::Queen, counts[4]);
    push_times(&mut row, Piece::Rook, counts[3]);
    push_times(&mut row, Piece::Bishop, counts[2]);
    push_times(&mut row, Piece::Knight, counts[1]);
    push_times(&mut row, Piece::Pawn, counts[0]);
    proof {
        let c = counts@.map_values(|c: u32| c as nat);
        assert(row@ =~= row_spec(c));
    }
    row
}

} // verus!
