//! The calls into cozy-chess, which generates and plays legal moves. Each
//! call hands it a position as FEN and reads the answer back as plain
//! values. What cozy-chess computes is named here and not restated: the
//! contracts below say which name each call's result equals.

use vstd::prelude::*;
use cozy_chess::{
    Board as CozyBoard, File as CozyFile, Move as CozyMove, Piece as CozyPiece,
    Square as CozySquare,
};
use cozy_chess::Color::{Black, White};
use crate::fen::fen_of;
use crate::moves::board_of;
use crate::types::BoardView;

verus! {

/// A position as cozy-chess reports it: for each square `a1` to `h8` the
/// piece index (6 for none) and the colour index (2 for none), the side to
/// move (0 White, 1 Black), the rook file of each castling right (White
/// short, White long, Black short, Black long), the en passant file, the
/// halfmove clock and the fullmove number.
pub struct Snapshot {
    pub cells: Vec<(u8, u8)>,
    pub side: u8,
    pub castles: (Option<u8>, Option<u8>, Option<u8>, Option<u8>),
    pub en_passant: Option<u8>,
    pub halfmove: u8,
    pub fullmove: u16,
}

/// The value of a [`Snapshot`].
pub struct SnapshotView {
    pub cells: Seq<(u8, u8)>,
    pub side: u8,
    pub castles: (Option<u8>, Option<u8>, Option<u8>, Option<u8>),
    pub en_passant: Option<u8>,
    pub halfmove: u8,
    pub fullmove: u16,
}

impl View for Snapshot {
    type V = SnapshotView;

    open spec fn view(&self) -> SnapshotView {
        SnapshotView {
            cells: self.cells@,
            side: self.side,
            castles: self.castles,
            en_passant: self.en_passant,
            halfmove: self.halfmove,
            fullmove: self.fullmove,
        }
    }
}

impl SnapshotView {
    /// The ranges that cozy-chess's enums give: 64 squares, each empty or
    /// a piece below six of a colour below two, a side below two, files
    /// below eight.
    pub open spec fn in_range(self) -> bool {
        &&& self.cells.len() == 64
        &&& forall|i: int| 0 <= i < 64 ==> {
            let (p, c) = #[trigger] self.cells[i];
            (p < 6 && c < 2) || (p == 6 && c == 2)
        }
        &&& self.side < 2
        &&& self.en_passant matches Some(f) ==> f < 8
    }
}

/// Whether cozy-chess reads `fen` as a position (`Board::from_str`).
pub uninterp spec fn cozy_accepts(fen: Seq<char>) -> bool;

/// The position cozy-chess reads from `fen`.
pub uninterp spec fn cozy_reading(fen: Seq<char>) -> SnapshotView;

/// The legal moves cozy-chess generates for `fen`, in its order, each as
/// from square, to square and promotion piece (6 for none).
pub uninterp spec fn cozy_moves(fen: Seq<char>) -> Seq<(u8, u8, u8)>;

/// Whether cozy-chess plays the move on `fen` (`Board::try_play`).
pub uninterp spec fn cozy_plays(fen: Seq<char>, from: u8, to: u8, promotion: u8) -> bool;

/// The FEN cozy-chess writes (with `Display`) for the position after it
/// plays the move on `fen`.
pub uninterp spec fn cozy_after(fen: Seq<char>, from: u8, to: u8, promotion: u8) -> Seq<char>;

/// Whether the side to move is in check on `fen` (`Board::checkers`).
pub uninterp spec fn cozy_in_check(fen: Seq<char>) -> bool;

/// Whether cozy-chess holds the two positions the same for repetition
/// (`Board::same_position`).
pub uninterp spec fn cozy_same(a: Seq<char>, b: Seq<char>) -> bool;

/// Reads `fen` with `cozy_chess::Board::from_str` and reports the board
/// square by square. The contract claims that the answer is `None` exactly
/// when cozy-chess refuses the text, that otherwise it is the position
/// named `cozy_reading`, and that its values are in the ranges of
/// cozy-chess's enums.
#[verifier::external_body]
pub(crate) fn read_fen(fen: &str) -> (r: Option<Snapshot>)
    ensures
        r is Some <==> cozy_accepts(fen@),
        r matches Some(s) ==> (s@ == cozy_reading(fen@) && s@.in_range()),
{
    let b: CozyBoard = fen.parse().ok()?;
    let file = |f: Option<CozyFile>| f.map(|f| f as u8);
    let (w, k) = (b.castle_rights(White), b.castle_rights(Black));
    let cells = CozySquare::ALL.map(|s| (b.piece_on(s).map_or(6, |p| p as u8), b.color_on(s).map_or(2, |c| c as u8))).to_vec();
    Some(Snapshot { cells, side: b.side_to_move() as u8, castles: (file(w.short), file(w.long), file(k.short), file(k.long)), en_passant: file(b.en_passant()), halfmove: b.halfmove_clock(), fullmove: b.fullmove_number() })
}

/// What cozy-chess's move generator gives on a valid board `s`, in terms of
/// the board it read: each move starts on a piece of the side to move; only
/// pawns promote; two pawn moves to one square from one file start on one
/// square (a pawn moves straight or one file aside, one rank or two); all
/// king moves start on the one king; and a castling move (the king onto
/// its own rook) lands on the rook of the one right for that direction.
pub open spec fn moves_like_chess(s: SnapshotView, raws: Seq<(u8, u8, u8)>) -> bool {
    &&& forall|i: int| 0 <= i < raws.len() ==> {
        let (f, t, p) = #[trigger] raws[i];
        &&& s.cells[f as int].0 < 6
        &&& s.cells[f as int].1 == s.side
        &&& (s.cells[f as int].0 != 0 ==> p >= 6)
    }
    &&& forall|i: int, j: int| 0 <= i < raws.len() && 0 <= j < raws.len()
        && s.cells[(#[trigger] raws[i]).0 as int].0 == 0 && s.cells[(#[trigger] raws[j]).0 as int].0 == 0
        && raws[i].1 == raws[j].1 && raws[i].0 % 8 == raws[j].0 % 8 ==> raws[i].0 == raws[j].0
    &&& forall|i: int, j: int| 0 <= i < raws.len() && 0 <= j < raws.len()
        && s.cells[(#[trigger] raws[i]).0 as int].0 == 5 && s.cells[(#[trigger] raws[j]).0 as int].0 == 5
        ==> raws[i].0 == raws[j].0
    &&& forall|i: int, j: int| 0 <= i < raws.len() && 0 <= j < raws.len()
        && s.cells[(#[trigger] raws[i]).0 as int].0 == 5 && s.cells[(#[trigger] raws[j]).0 as int].0 == 5
        && s.cells[raws[i].1 as int].0 < 6 && s.cells[raws[i].1 as int].1 == s.side
        && s.cells[raws[j].1 as int].0 < 6 && s.cells[raws[j].1 as int].1 == s.side
        && (raws[i].1 % 8 > raws[i].0 % 8) == (raws[j].1 % 8 > raws[j].0 % 8)
        ==> raws[i].1 == raws[j].1
}

/// Lists the legal moves of `fen` with `cozy_chess::Board::generate_moves`.
/// The contract claims that the answer is `None` exactly when cozy-chess
/// refuses the text, and otherwise the moves named `cozy_moves`, with
/// squares below 64 and promotion indexes of at most 6, of the kind
/// `moves_like_chess` describes on the board cozy-chess read, which is in
/// the ranges of its enums. It also claims that `Board::from_str` reads a
/// text in the form `fen_of` writes for a board as that board: the
/// placement, side, castling letters, en passant square and both clocks
/// field by field (`board/parse.rs`).
#[verifier::external_body]
pub(crate) fn legal_moves_of(fen: &str) -> (r: Option<Vec<(u8, u8, u8)>>)
    ensures
        r is Some <==> cozy_accepts(fen@),
        r matches Some(v) ==> v@ == cozy_moves(fen@),
        r matches Some(v) ==> forall|i: int| 0 <= i < v@.len() ==> {
            let (f, t, p) = #[trigger] v@[i];
            f < 64 && t < 64 && p <= 6
        },
        r matches Some(v) ==> cozy_reading(fen@).in_range() && moves_like_chess(cozy_reading(fen@), v@),
        r is Some ==> forall|b: BoardView| b.wf() && fen@ == fen_of(b) ==> #[trigger] board_of(cozy_reading(fen@)) == b,
{
    let b: CozyBoard = fen.parse().ok()?;
    let mut moves = Vec::new();
    b.generate_moves(|list| {
        moves.extend(list.into_iter().map(|m| (m.from as u8, m.to as u8, m.promotion.map_or(6, |p| p as u8))));
        false
    });
    Some(moves)
}

/// Whether `raw` is the move `(from, to, promotion)` once a promotion index
/// of six or more is read as no promotion, as `Piece::try_index` reads it.
pub open spec fn same_raw_move(raw: (u8, u8, u8), from: u8, to: u8, promotion: u8) -> bool {
    &&& raw.0 == from
    &&& raw.1 == to
    &&& (if raw.2 < 6 { raw.2 == promotion } else { promotion >= 6 })
}

/// Plays a move on `fen` with `cozy_chess::Board::try_play` and writes the
/// resulting position as FEN with its `Display`. The contract claims that
/// the answer is `None` exactly when cozy-chess refuses the text or the
/// move; that it plays exactly the moves it lists as legal (`try_play`
/// plays what `is_legal` accepts); that otherwise the answer is the text
/// named `cozy_after`; and that, when `fen` is in the form `fen_of` writes
/// for a board, cozy-chess reads that text back. Such a text names castling
/// rights by `K`, `Q`, `k` and `q`, which `from_str` reads as rooks on the
/// h- and a-files; a move only takes rights away, `Display` writes the rest
/// as those letters again, and a legal move leaves a valid board. Of other
/// texts nothing is said there: a Shredder right on another file is written
/// back as `K` or `Q`, which `from_str` then refuses.
#[verifier::external_body]
pub(crate) fn play_on(fen: &str, from: u8, to: u8, promotion: u8) -> (r: Option<String>)
    requires
        from < 64,
        to < 64,
    ensures
        r is Some <==> (cozy_accepts(fen@) && cozy_plays(fen@, from, to, promotion)),
        (cozy_accepts(fen@) && exists|i: int| 0 <= i < cozy_moves(fen@).len()
            && same_raw_move(#[trigger] cozy_moves(fen@)[i], from, to, promotion)) ==> r is Some,
        r is Some ==> exists|i: int| 0 <= i < cozy_moves(fen@).len()
            && same_raw_move(#[trigger] cozy_moves(fen@)[i], from, to, promotion),
        r matches Some(s) ==> s@ == cozy_after(fen@, from, to, promotion),
        (exists|b: BoardView| b.wf() && fen@ == #[trigger] fen_of(b)) ==> (r matches Some(s) ==> cozy_accepts(s@)),
{
    let mut b: CozyBoard = fen.parse().ok()?;
    let sq = |i: u8| CozySquare::index(i as usize);
    b.try_play(CozyMove { from: sq(from), to: sq(to), promotion: CozyPiece::try_index(promotion as usize) }).ok()?;
    Some(b.to_string())
}

/// Asks `cozy_chess::Board::checkers` whether the side to move on `fen` is
/// in check. The contract claims that the answer is `None` exactly when
/// cozy-chess refuses the text, and otherwise the value named
/// `cozy_in_check`.
#[verifier::external_body]
pub(crate) fn in_check_on(fen: &str) -> (r: Option<bool>)
    ensures
        r is Some <==> cozy_accepts(fen@),
        r matches Some(c) ==> c == cozy_in_check(fen@),
{
    let b: CozyBoard = fen.parse().ok()?;
    Some(!b.checkers().is_empty())
}

/// Compares two positions with `cozy_chess::Board::same_position`, which
/// ignores the clocks and an en passant file no capture can use. The
/// contract claims that the answer is `None` exactly when cozy-chess
/// refuses either text, and otherwise the value named `cozy_same`.
#[verifier::external_body]
pub(crate) fn same_position_of(a: &str, b: &str) -> (r: Option<bool>)
    ensures
        r is Some <==> (cozy_accepts(a@) && cozy_accepts(b@)),
        r matches Some(same) ==> same == cozy_same(a@, b@),
{
    let a: CozyBoard = a.parse().ok()?;
    let b: CozyBoard = b.parse().ok()?;
    Some(a.same_position(&b))
}

} // verus!
