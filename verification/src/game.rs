//! The game with its full history: every position, every move and its SAN.
//! Undo and redo move an index; a new move drops what lay ahead of it.

use vstd::prelude::*;
use crate::cozy::{cozy_accepts, cozy_reading, cozy_same};
use crate::fen::{fen_of, to_fen};
use crate::round_trip::{law_pgn_reads_back, no_newline, prefix, result_text, start_read_back};
use crate::moves::{
    chess_like,
    after, after_spec, board_from_fen, board_of, fen_reads_back, checkmate_spec, in_check, is_checkmate,
    legal_moves, legal_moves_spec, on_board, same_position, stalemate_spec,
};
use crate::notation::{san_chars, san_spec};
use crate::text::{decimal, push_chars, push_decimal, push_str, string_of};
use crate::types::{Board, BoardView, Color, Move, Piece};

verus! {

/// The cell codes of the initial position.
pub open spec fn start_cells() -> Seq<u8> {
    seq![4u8, 2, 3, 5, 6, 3, 2, 4, 1, 1, 1, 1, 1, 1, 1, 1,
         0, 0, 0, 0, 0, 0, 0, 0, 0, 0, 0, 0, 0, 0, 0, 0,
         0, 0, 0, 0, 0, 0, 0, 0, 0, 0, 0, 0, 0, 0, 0, 0,
         7, 7, 7, 7, 7, 7, 7, 7, 10, 8, 9, 11, 12, 9, 8, 10]
}

/// The initial position, White to move.
pub open spec fn start_view() -> BoardView {
    BoardView {
        cells: start_cells(),
        side: Color::White,
        white_short: true,
        white_long: true,
        black_short: true,
        black_long: true,
        en_passant: None,
        halfmove: 0,
        fullmove: 1,
    }
}

/// The initial position.
pub fn start_position() -> (b: Board)
    ensures
        b@ == start_view(),
        b.wf(),
{
    let cells: Vec<u8> = vec![4u8, 2, 3, 5, 6, 3, 2, 4, 1, 1, 1, 1, 1, 1, 1, 1,
         0, 0, 0, 0, 0, 0, 0, 0, 0, 0, 0, 0, 0, 0, 0, 0,
         0, 0, 0, 0, 0, 0, 0, 0, 0, 0, 0, 0, 0, 0, 0, 0,
         7, 7, 7, 7, 7, 7, 7, 7, 10, 8, 9, 11, 12, 9, 8, 10];
    let b = Board {
        cells,
        side: Color::White,
        white_short: true,
        white_long: true,
        black_short: true,
        black_long: true,
        en_passant: None,
        halfmove: 0,
        fullmove: 1,
    };
    proof {
        assert(b@.cells =~= start_cells());
        assert(forall|i: int| 0 <= i < 64 ==> #[trigger] b@.cells[i] <= 12);
    }
    b
}

impl Default for Board {
    /// The initial position.
    fn default() -> (b: Board)
        ensures
            b@ == start_view(),
    {
        start_position()
    }
}

/// A FEN that cozy-chess does not read as a legal position, or whose
/// position it does not read back from that position's own FEN.
#[derive(Clone, Copy, Debug, PartialEq, Eq, Structural)]
pub struct InvalidFen;

/// The value of a [`GameHistory`]: the positions from the start, the moves
/// between them with their SAN, and how many moves are on the board now.
pub struct HistoryView {
    pub positions: Seq<BoardView>,
    pub moves: Seq<Move>,
    pub sans: Seq<Seq<char>>,
    pub current: nat,
}

impl HistoryView {
    /// One more position than moves, each position the one before it with
    /// its move played, each SAN the one that move has on the board it was
    /// played on, and the current position among them.
    pub open spec fn wf(self) -> bool {
        &&& self.positions.len() >= 1
        &&& self.moves.len() + 1 == self.positions.len()
        &&& self.sans.len() == self.moves.len()
        &&& self.current < self.positions.len()
        &&& forall|i: int| 0 <= i < self.positions.len() ==> (#[trigger] self.positions[i]).wf()
        &&& forall|i: int| 0 <= i < self.moves.len() ==> on_board(#[trigger] self.moves[i])
        &&& self.linked()
    }

    /// Each position is the one before it with its move played, each move
    /// is among the legal moves of the position it was played on, and each
    /// SAN is the one its move has on that board.
    #[verifier::opaque]
    pub open spec fn linked(self) -> bool {
        forall|i: int| 0 <= i < self.moves.len() ==> {
            &&& after_spec(self.positions[i], #[trigger] self.moves[i]) == Some(self.positions[i + 1])
            &&& legal_moves_spec(self.positions[i]).contains(self.moves[i])
            &&& self.sans[i] == san_spec(self.positions[i], self.moves[i])
        }
    }

    /// The position on the board now.
    pub open spec fn current_board(self) -> BoardView {
        self.positions[self.current as int]
    }

    /// The history after `mv`, which makes `next`, is played on the current
    /// position: what lay ahead is dropped.
    pub open spec fn played(self, mv: Move, next: BoardView) -> HistoryView {
        HistoryView {
            positions: self.positions.take((self.current + 1) as int).push(next),
            moves: self.moves.take(self.current as int).push(mv),
            sans: self.sans.take(self.current as int).push(san_spec(self.current_board(), mv)),
            current: self.current + 1,
        }
    }

    /// The history after `make_move(mv)`: the move played when it is on the
    /// board and cozy-chess plays it, unchanged otherwise.
    pub open spec fn make_move(self, mv: Move) -> HistoryView {
        if on_board(mv) {
            match after_spec(self.current_board(), mv) {
                Some(next) => self.played(mv, next),
                None => self,
            }
        } else {
            self
        }
    }

    pub open spec fn can_undo(self) -> bool {
        self.current > 0
    }

    pub open spec fn can_redo(self) -> bool {
        self.current + 1 < self.positions.len()
    }

    /// One move back, when there is one.
    pub open spec fn undo(self) -> HistoryView {
        if self.can_undo() { HistoryView { current: (self.current - 1) as nat, ..self } } else { self }
    }

    /// One move forward again, when one was taken back.
    pub open spec fn redo(self) -> HistoryView {
        if self.can_redo() { HistoryView { current: self.current + 1, ..self } } else { self }
    }

    /// A history with only its start position.
    pub open spec fn starting(b: BoardView) -> HistoryView {
        HistoryView { positions: seq![b], moves: seq![], sans: seq![], current: 0 }
    }
}

/// Game state with full move history for undo/redo. Each move's SAN is
/// computed once, when it is played.
pub struct GameHistory {
    positions: Vec<Board>,
    moves: Vec<Move>,
    sans: Vec<String>,
    current_index: usize,
}

impl View for GameHistory {
    type V = HistoryView;

    closed spec fn view(&self) -> HistoryView {
        HistoryView {
            positions: self.positions@.map_values(|b: Board| b@),
            moves: self.moves@,
            sans: self.sans@.map_values(|s: String| s@),
            current: self.current_index as nat,
        }
    }
}

impl GameHistory {
    proof fn lemma_lengths(&self)
        ensures
            self@.positions.len() == self.positions@.len(),
            self@.moves.len() == self.moves@.len(),
            self@.sans.len() == self.sans@.len(),
            forall|i: int| 0 <= i < self.positions@.len() ==> self@.positions[i] == #[trigger] self.positions@[i]@,
    {
    }

    /// A game from the initial position.
    pub fn new() -> (h: GameHistory)
        ensures
            h@ == HistoryView::starting(start_view()),
            h@.wf(),
    {
        Self::from_board(start_position())
    }

    /// A game from `board`.
    pub fn from_board(board: Board) -> (h: GameHistory)
        requires
            board.wf(),
        ensures
            h@ == HistoryView::starting(board@),
            h@.wf(),
    {
        let h = GameHistory { positions: vec![board], moves: Vec::new(), sans: Vec::new(), current_index: 0 };
        proof {
            reveal(HistoryView::linked);
            assert(h@.positions =~= seq![board@]);
            assert(h@.moves =~= Seq::<Move>::empty());
            assert(h@.sans =~= Seq::<Seq<char>>::empty());
        }
        h
    }

    /// A game from the position cozy-chess reads in `fen`; its halfmove
    /// clock counts towards the fifty-move rule. A text is refused when
    /// cozy-chess refuses it or the FEN of the position it reads there, so
    /// the PGN of the game keeps its start (`pgn_start_kept`) unless it is
    /// the initial placement with other clocks.
    pub fn from_fen(fen: &str) -> (r: Result<GameHistory, InvalidFen>)
        ensures
            r is Ok <==> fen_reads_back(fen@),
            r matches Ok(h) ==> h@ == HistoryView::starting(board_of(cozy_reading(fen@))) && h@.wf(),
            r matches Ok(h) ==> cozy_accepts(fen_of(h@.positions[0])),
            r matches Ok(h) ==> (pgn_start_kept(h@.positions[0])
                || (h@.positions[0].same_setup(start_view()) && h@.positions[0] != start_view())),
    {
        match board_from_fen(fen) {
            None => Err(InvalidFen),
            Some(b) => Ok(Self::from_board(b)),
        }
    }

    /// The position on the board now.
    pub fn current_board(&self) -> (b: &Board)
        requires
            self@.wf(),
        ensures
            b@ == self@.current_board(),
            b.wf(),
    {
        proof {
            self.lemma_lengths();
            assert(self@.positions[self.current_index as int].wf());
        }
        &self.positions[self.current_index]
    }

    /// The position the move at `index` was played on.
    pub(crate) fn board_before(&self, index: usize) -> (b: &Board)
        requires
            self@.wf(),
            index < self@.moves.len(),
        ensures
            b@ == self@.positions[index as int],
            b.wf(),
    {
        proof {
            self.lemma_lengths();
            assert(self@.positions[index as int].wf());
        }
        &self.positions[index]
    }

    /// The position the game began from.
    pub fn start_board(&self) -> (b: &Board)
        requires
            self@.wf(),
        ensures
            b@ == self@.positions[0],
            b.wf(),
    {
        proof {
            self.lemma_lengths();
            assert(self@.positions[0].wf());
        }
        &self.positions[0]
    }

    /// Play `mv` on the current position, dropping any moves taken back.
    /// A move off the board or one cozy-chess does not play changes nothing;
    /// a legal move is played, and the halfmove clock then starts again
    /// after a pawn move or a capture and counts one more ply otherwise.
    /// The position the game began from stays.
    pub fn make_move(&mut self, mv: Move)
        requires
            old(self)@.wf(),
        ensures
            final(self)@ == old(self)@.make_move(mv),
            final(self)@.wf(),
            on_board(mv) ==> (after_spec(old(self)@.current_board(), mv) is Some
                <==> legal_moves_spec(old(self)@.current_board()).contains(mv)),
            on_board(mv) && legal_moves_spec(old(self)@.current_board()).contains(mv) ==> {
                &&& final(self)@.current == old(self)@.current + 1
                &&& final(self)@.moves.len() == final(self)@.current
                &&& final(self)@.moves.last() == mv
                &&& halfmove_clock_spec(final(self)@) == (if is_quiet(old(self)@.current_board(), mv) {
                    if halfmove_clock_spec(old(self)@) + 1 > u32::MAX { u32::MAX as nat } else { halfmove_clock_spec(old(self)@) + 1 }
                } else {
                    0
                })
            },
            final(self)@.positions[0] == old(self)@.positions[0],
    {
        if mv.from >= 64 || mv.to >= 64 {
            return;
        }
        let ghost h = self@;
        proof {
            self.lemma_lengths();
            assert(self@.positions[self.current_index as int].wf());
        }
        let next = {
            let board = &self.positions[self.current_index];
            match after(board, mv) {
                None => return,
                Some(next) => next,
            }
        };
        let san = string_of(san_chars(mv, &self.positions[self.current_index]).as_slice());
        assert(self.current_index < self.positions.len());
        let keep = self.current_index + 1;
        self.positions.truncate(keep);
        self.moves.truncate(keep - 1);
        self.sans.truncate(keep - 1);
        self.positions.push(next);
        self.moves.push(mv);
        self.sans.push(san);
        self.current_index = keep;
        proof {
            let n = h.played(mv, next@);
            assert(self@.positions =~= n.positions);
            assert(self@.moves =~= n.moves);
            assert(self@.sans =~= n.sans);
            reveal(HistoryView::linked);
            assert forall|i: int| 0 <= i < self@.moves.len() implies {
                &&& after_spec(self@.positions[i], #[trigger] self@.moves[i]) == Some(self@.positions[i + 1])
                &&& legal_moves_spec(self@.positions[i]).contains(self@.moves[i])
                &&& self@.sans[i] == san_spec(self@.positions[i], self@.moves[i])
            } by {
                if i + 1 < self@.moves.len() {
                    assert(self@.moves[i] == h.moves[i]);
                    assert(self@.positions[i + 1] == h.positions[i + 1]);
                }
            }
            law_halfmove_clock_after_a_move(h, mv);
            law_the_start_stays(h, mv);
        }
    }

    /// Take back one move. False when at the start.
    pub fn undo(&mut self) -> (done: bool)
        requires
            old(self)@.wf(),
        ensures
            done == old(self)@.can_undo(),
            final(self)@ == old(self)@.undo(),
            final(self)@.wf(),
    {
        proof {
            reveal(HistoryView::linked);
        }
        if self.current_index > 0 {
            self.current_index = self.current_index - 1;
            true
        } else {
            false
        }
    }

    /// Replay a move taken back. False when there is none.
    pub fn redo(&mut self) -> (done: bool)
        requires
            old(self)@.wf(),
        ensures
            done == old(self)@.can_redo(),
            final(self)@ == old(self)@.redo(),
            final(self)@.wf(),
    {
        proof {
            self.lemma_lengths();
            reveal(HistoryView::linked);
        }
        if self.current_index < self.positions.len() - 1 {
            self.current_index = self.current_index + 1;
            true
        } else {
            false
        }
    }

    pub fn can_undo(&self) -> (b: bool)
        requires
            self@.wf(),
        ensures
            b == self@.can_undo(),
    {
        self.current_index > 0
    }

    pub fn can_redo(&self) -> (b: bool)
        requires
            self@.wf(),
        ensures
            b == self@.can_redo(),
    {
        proof {
            self.lemma_lengths();
        }
        self.current_index < self.positions.len() - 1
    }

    /// The number of moves on the board now.
    pub fn move_count(&self) -> (n: usize)
        ensures
            n == self@.current,
    {
        self.current_index
    }

    /// The move at `index`, including moves taken back.
    pub fn get_move(&self, index: usize) -> (mv: Option<&Move>)
        ensures
            mv == (if index < self@.moves.len() { Some(&self@.moves[index as int]) } else { None::<&Move> }),
    {
        if index < self.moves.len() {
            Some(&self.moves[index])
        } else {
            None
        }
    }

    /// SAN of the move at `index`, including moves taken back.
    pub fn san(&self, index: usize) -> (s: Option<&str>)
        ensures
            match s {
                Some(t) => index < self@.sans.len() && t@ == self@.sans[index as int],
                None => index >= self@.sans.len(),
            },
    {
        if index < self.sans.len() {
            Some(self.sans[index].as_str())
        } else {
            None
        }
    }

    /// The moves up to the current position.
    pub fn current_moves(&self) -> (moves: &[Move])
        requires
            self@.wf(),
        ensures
            moves@ == self@.moves.take(self@.current as int),
    {
        &self.moves.as_slice()[0..self.current_index]
    }

    /// The number of moves in the whole history, including moves taken back.
    pub fn total_moves(&self) -> (n: usize)
        requires
            self@.wf(),
        ensures
            n == self@.positions.len() - 1,
    {
        self.positions.len() - 1
    }
}

/// Why a game ended without a checkmate.
#[derive(Clone, Copy, Debug, PartialEq, Eq, Structural)]
pub enum DrawReason {
    Stalemate,
    ThreefoldRepetition,
    FiftyMoveRule,
    InsufficientMaterial,
}

impl DrawReason {
    pub open spec fn text(self) -> Seq<char> {
        match self {
            DrawReason::Stalemate => "stalemate"@,
            DrawReason::ThreefoldRepetition => "threefold repetition"@,
            DrawReason::FiftyMoveRule => "fifty-move rule"@,
            DrawReason::InsufficientMaterial => "insufficient material"@,
        }
    }

    /// The reason in words, as in "Draw by stalemate".
    pub fn describe(self) -> (s: &'static str)
        ensures
            s@ == self.text(),
    {
        match self {
            DrawReason::Stalemate => "stalemate",
            DrawReason::ThreefoldRepetition => "threefold repetition",
            DrawReason::FiftyMoveRule => "fifty-move rule",
            DrawReason::InsufficientMaterial => "insufficient material",
        }
    }
}

/// The number of the first `n` cells that hold a piece of kind index `kind`,
/// of either colour.
pub open spec fn count_kind(cells: Seq<u8>, n: nat, kind: nat) -> nat
    decreases n,
{
    if n == 0 {
        0
    } else {
        count_kind(cells, (n - 1) as nat, kind) + (if cells[n - 1] != 0 && (cells[n - 1] - 1) % 6 == kind { 1nat } else { 0nat })
    }
}

/// The number of the first `n` cells that hold a bishop on a light square.
pub open spec fn count_light_bishops(cells: Seq<u8>, n: nat) -> nat
    decreases n,
{
    if n == 0 {
        0
    } else {
        count_light_bishops(cells, (n - 1) as nat)
            + (if (cells[n - 1] == 3 || cells[n - 1] == 9) && ((n - 1) % 8 + (n - 1) / 8) % 2 == 1 { 1nat } else { 0nat })
    }
}

/// Neither side can force mate: bare kings, one minor piece, or bishops
/// that all stand on squares of one colour.
pub open spec fn insufficient_material_spec(b: BoardView) -> bool {
    let heavy = count_kind(b.cells, 64, 0) + count_kind(b.cells, 64, 3) + count_kind(b.cells, 64, 4);
    let knights = count_kind(b.cells, 64, 1);
    let bishops = count_kind(b.cells, 64, 2);
    let light = count_light_bishops(b.cells, 64);
    heavy == 0 && (
        (knights == 0 && bishops == 0) || (knights == 1 && bishops == 0) || (knights == 0 && bishops == 1)
        || (knights == 0 && (light == bishops || light == 0))
    )
}

pub fn insufficient_material(board: &Board) -> (r: bool)
    requires
        board.wf(),
    ensures
        r == insufficient_material_spec(board@),
{
    let mut counts: [u64; 6] = [0, 0, 0, 0, 0, 0];
    let mut light: u64 = 0;
    let mut i: usize = 0;
    while i < 64
        invariant
            board.wf(),
            i <= 64,
            forall|k: int| 0 <= k < 6 ==> counts@[k] == count_kind(board@.cells, i as nat, k as nat),
            light == count_light_bishops(board@.cells, i as nat),
            forall|k: int| 0 <= k < 6 ==> counts@[k] <= i,
            light <= i,
        decreases 64 - i,
    {
        let code = board.cells[i];
        if code != 0 {
            let kind = ((code - 1) % 6) as usize;
            counts[kind] = counts[kind] + 1;
            if (code == 3 || code == 9) && (i % 8 + i / 8) % 2 == 1 {
                light = light + 1;
            }
        }
        i = i + 1;
    }
    let heavy = counts[0] + counts[3] + counts[4];
    let knights = counts[1];
    let bishops = counts[2];
    heavy == 0 && ((knights == 0 && bishops == 0) || (knights == 1 && bishops == 0) || (knights == 0 && bishops == 1)
        || (knights == 0 && (light == bishops || light == 0)))
}

/// A move that neither moves a pawn nor takes a piece.
pub open spec fn is_quiet(b: BoardView, mv: Move) -> bool {
    &&& !(b.piece_on(mv.from as nat) matches Some((_, Piece::Pawn)))
    &&& !(b.piece_on(mv.to as nat) matches Some((c, _)) && c == b.side.spec_opposite())
}

/// How many of the first `k` moves, counted back from the `k`-th, were quiet.
pub open spec fn quiet_run(h: HistoryView, k: nat) -> nat
    decreases k,
{
    if k == 0 {
        0
    } else if is_quiet(h.positions[k - 1], h.moves[k - 1]) {
        quiet_run(h, (k - 1) as nat) + 1
    } else {
        0
    }
}

/// Plies since the last capture or pawn move, counting the start
/// position's own clock when there was none since; at most `u32::MAX`.
pub open spec fn halfmove_clock_spec(h: HistoryView) -> nat {
    let q = quiet_run(h, h.current);
    let clock: nat = if q == h.current { (q + h.positions[0].halfmove) as nat } else { q };
    if clock > u32::MAX { u32::MAX as nat } else { clock }
}

/// The two positions are the same for the repetition rule.
pub open spec fn same_position_spec(a: BoardView, b: BoardView) -> bool {
    cozy_accepts(fen_of(a)) && cozy_accepts(fen_of(b)) && cozy_same(fen_of(a), fen_of(b))
}

/// How many of the first `n` positions are the same as `b`.
pub open spec fn count_same(positions: Seq<BoardView>, n: nat, b: BoardView) -> nat
    decreases n,
{
    if n == 0 {
        0
    } else {
        count_same(positions, (n - 1) as nat, b) + (if same_position_spec(positions[n - 1], b) { 1nat } else { 0nat })
    }
}

/// Why the current position is a draw, if it is one. Repetition and the
/// fifty-move rule are treated as automatic rather than claimable.
pub open spec fn draw_reason_spec(h: HistoryView) -> Option<DrawReason> {
    let b = h.current_board();
    if checkmate_spec(b) {
        None
    } else if stalemate_spec(b) {
        Some(DrawReason::Stalemate)
    } else if insufficient_material_spec(b) {
        Some(DrawReason::InsufficientMaterial)
    } else if count_same(h.positions, h.current + 1, b) >= 3 {
        Some(DrawReason::ThreefoldRepetition)
    } else if halfmove_clock_spec(h) >= 100 {
        Some(DrawReason::FiftyMoveRule)
    } else {
        None
    }
}

/// The result in PGN form: `1-0`, `0-1`, `1/2-1/2` or `*` while unfinished.
pub open spec fn result_spec(h: HistoryView) -> Seq<char> {
    if checkmate_spec(h.current_board()) {
        if h.current_board().side == Color::White { "0-1"@ } else { "1-0"@ }
    } else if draw_reason_spec(h) is Some {
        "1/2-1/2"@
    } else {
        "*"@
    }
}

impl GameHistory {
    /// The moves played so far, each paired with the board it was played on.
    pub fn played(&self) -> (pairs: Vec<(Board, Move)>)
        requires
            self@.wf(),
        ensures
            pairs@.len() == self@.current,
            forall|i: int| 0 <= i < pairs@.len() ==> (#[trigger] pairs@[i]).0@ == self@.positions[i]
                && pairs@[i].1 == self@.moves[i] && pairs@[i].0.wf(),
    {
        proof {
            self.lemma_lengths();
        }
        let mut pairs: Vec<(Board, Move)> = Vec::new();
        let mut i: usize = 0;
        while i < self.current_index
            invariant
                self@.wf(),
                self@.positions.len() == self.positions@.len(),
                self@.moves.len() == self.moves@.len(),
                forall|j: int| 0 <= j < self.positions@.len() ==> self@.positions[j] == #[trigger] self.positions@[j]@,
                self.current_index == self@.current,
                i <= self.current_index,
                pairs@.len() == i,
                forall|j: int| 0 <= j < i ==> (#[trigger] pairs@[j]).0@ == self@.positions[j]
                    && pairs@[j].1 == self@.moves[j] && pairs@[j].0.wf(),
            decreases self.current_index - i,
        {
            proof {
                assert(self@.positions[i as int].wf());
            }
            pairs.push((self.positions[i].copy(), self.moves[i]));
            i = i + 1;
        }
        pairs
    }

    /// True when the move at `j` neither moves a pawn nor takes a piece.
    fn quiet_at(&self, j: usize) -> (q: bool)
        requires
            self@.wf(),
            j < self@.moves.len(),
        ensures
            q == is_quiet(self@.positions[j as int], self@.moves[j as int]),
    {
        proof {
            self.lemma_lengths();
            assert(self@.positions[j as int].wf());
            assert(on_board(self@.moves[j as int]));
        }
        let board = &self.positions[j];
        let mv = self.moves[j];
        let pawn = match board.piece_on(mv.from) {
            Some((_, p)) => p == Piece::Pawn,
            None => false,
        };
        let capture = match board.piece_on(mv.to) {
            Some((c, _)) => c == board.side.opposite(),
            None => false,
        };
        !pawn && !capture
    }

    /// Plies since the last capture or pawn move.
    pub fn halfmove_clock(&self) -> (clock: u32)
        requires
            self@.wf(),
        ensures
            clock == halfmove_clock_spec(self@),
    {
        proof {
            self.lemma_lengths();
        }
        let mut k: usize = self.current_index;
        while k > 0
            invariant
                self@.wf(),
                k <= self.current_index,
                self.current_index == self@.current,
                forall|j: int| k <= j < self@.current ==> is_quiet(self@.positions[j], self@.moves[j]),
            decreases k,
        {
            if !self.quiet_at(k - 1) {
                proof {
                    assert(!is_quiet(self@.positions[k - 1], self@.moves[k - 1]));
                    lemma_quiet_run(self@, k as nat, self@.current);
                }
                return clamp_clock((self.current_index - k) as u64);
            }
            k = k - 1;
        }
        proof {
            lemma_quiet_run(self@, 0, self@.current);
            assert(self@.positions[0].wf());
        }
        let moves = self.current_index as u64;
        if moves > u32::MAX as u64 {
            return u32::MAX;
        }
        clamp_clock(moves + self.positions[0].halfmove as u64)
    }
}

impl GameHistory {
    /// How many positions up to the current one are the same as it.
    fn repetitions(&self) -> (n: usize)
        requires
            self@.wf(),
        ensures
            n == count_same(self@.positions, self@.current + 1, self@.current_board()),
    {
        proof {
            self.lemma_lengths();
        }
        let board = self.current_board();
        assert(self.current_index < self.positions.len());
        let end = self.current_index + 1;
        let mut n: usize = 0;
        let mut i: usize = 0;
        while i < end
            invariant
                self@.wf(),
                self@.positions.len() == self.positions@.len(),
                forall|j: int| 0 <= j < self.positions@.len() ==> self@.positions[j] == #[trigger] self.positions@[j]@,
                self.current_index == self@.current,
                board@ == self@.current_board(),
                board.wf(),
                end == self.current_index + 1,
                end <= self.positions@.len(),
                i <= end,
                n == count_same(self@.positions, i as nat, self@.current_board()),
                n <= i,
            decreases end - i,
        {
            proof {
                assert(self@.positions[i as int].wf());
            }
            if same_position(&self.positions[i], board) {
                n = n + 1;
            }
            i = i + 1;
        }
        n
    }

    /// Why the current position is a draw, if it is one. Repetition and the
    /// fifty-move rule are treated as automatic rather than claimable.
    pub fn draw_reason(&self) -> (r: Option<DrawReason>)
        requires
            self@.wf(),
        ensures
            r == draw_reason_spec(self@),
    {
        let board = self.current_board();
        let no_moves = legal_moves(board).len() == 0;
        let check = in_check(board);
        if check && no_moves {
            return None;
        }
        if no_moves {
            return Some(DrawReason::Stalemate);
        }
        if insufficient_material(board) {
            return Some(DrawReason::InsufficientMaterial);
        }
        if self.repetitions() >= 3 {
            return Some(DrawReason::ThreefoldRepetition);
        }
        if self.halfmove_clock() >= 100 {
            return Some(DrawReason::FiftyMoveRule);
        }
        None
    }

    /// True once the game cannot continue: mate or a draw.
    pub fn is_over(&self) -> (over: bool)
        requires
            self@.wf(),
        ensures
            over == (checkmate_spec(self@.current_board()) || draw_reason_spec(self@) is Some),
    {
        is_checkmate(self.current_board()) || self.draw_reason().is_some()
    }

    /// The result in PGN form: `1-0`, `0-1`, `1/2-1/2` or `*` while unfinished.
    pub fn result(&self) -> (r: &'static str)
        requires
            self@.wf(),
        ensures
            r@ == result_spec(self@),
    {
        let board = self.current_board();
        if is_checkmate(board) {
            match board.side {
                Color::White => "0-1",
                Color::Black => "1-0",
            }
        } else if self.draw_reason().is_some() {
            "1/2-1/2"
        } else {
            "*"
        }
    }
}

/// The movetext entry of the move at `index`: its number before White's
/// moves and before the first move when Black began, then its SAN.
pub open spec fn move_entry(h: HistoryView, index: nat) -> Seq<char> {
    let ply = index + (if h.positions[0].side == Color::Black { 1nat } else { 0nat });
    let number = ply / 2 + 1;
    (if ply % 2 == 0 {
        decimal(number) + ". "@
    } else if index == 0 {
        decimal(number) + "... "@
    } else {
        seq![]
    }) + h.sans[index as int] + seq![' ']
}

/// The movetext of the first `n` moves.
pub open spec fn movetext(h: HistoryView, n: nat) -> Seq<char>
    decreases n,
{
    if n == 0 { seq![] } else { movetext(h, (n - 1) as nat) + move_entry(h, (n - 1) as nat) }
}

/// The tags of a PGN: the seven-tag roster, and the set-up position when
/// the game did not start from the initial setup (clocks aside).
pub open spec fn pgn_tags(h: HistoryView, white: Seq<char>, black: Seq<char>, date: Seq<char>, result: Seq<char>) -> Seq<char> {
    "[Event \"?\"]\n[Site \"?\"]\n[Date \""@ + date + "\"]\n[Round \"?\"]\n[White \""@ + white
        + "\"]\n[Black \""@ + black + "\"]\n[Result \""@ + result + "\"]\n"@
        + (if !h.positions[0].same_setup(start_view()) { "[SetUp \"1\"]\n[FEN \""@ + fen_of(h.positions[0]) + "\"]\n"@ } else { seq![] })
}

/// A start that the PGN of a game keeps: the initial position, which needs
/// no FEN tag, or a position set up otherwise whose FEN cozy-chess reads.
/// The initial placement with other clocks gets no FEN tag, and so does not
/// keep its clocks.
pub open spec fn pgn_start_kept(b: BoardView) -> bool {
    b == start_view() || (!b.same_setup(start_view()) && cozy_accepts(fen_of(b)))
}

/// No move, undo or redo changes the position a game began from: what
/// `new` or `from_fen` set up stays the start the PGN is written from.
pub proof fn law_the_start_stays(h: HistoryView, mv: Move)
    requires
        h.wf(),
    ensures
        h.make_move(mv).positions[0] == h.positions[0],
        h.undo().positions[0] == h.positions[0],
        h.redo().positions[0] == h.positions[0],
{
}

/// The game as PGN: tags, a blank line, the moves up to the current one,
/// and the result.
pub open spec fn pgn_spec(h: HistoryView, white: Seq<char>, black: Seq<char>, date: Seq<char>, result: Seq<char>) -> Seq<char> {
    pgn_tags(h, white, black, date, result) + seq!['\n'] + movetext(h, h.current) + result
}

impl GameHistory {
    fn push_entry(&self, out: &mut Vec<char>, index: usize)
        requires
            self@.wf(),
            index < self@.moves.len(),
        ensures
            final(out)@ == old(out)@ + move_entry(self@, index as nat),
    {
        proof {
            self.lemma_lengths();
            assert(self@.positions[0].wf());
        }
        let black_starts = match self.positions[0].side {
            Color::Black => true,
            Color::White => false,
        };
        assert(index < self.moves.len());
        let ply: u64 = index as u64 + if black_starts { 1 } else { 0 };
        let number = ply / 2 + 1;
        if ply % 2 == 0 {
            push_decimal(out, number);
            push_str(out, ". ");
        } else if index == 0 {
            push_decimal(out, number);
            push_str(out, "... ");
        }
        push_str(out, self.sans[index].as_str());
        out.push(' ');
        proof {
            assert(self.sans@[index as int]@ == self@.sans[index as int]);
            assert(final(out)@ =~= old(out)@ + move_entry(self@, index as nat));
        }
    }

    /// Lists the legal moves of the start and of each position a move was
    /// played on, which shows them the kind chess has, so that the PGN of
    /// the game reads back.
    fn list_played_positions(&self, Ghost(white): Ghost<Seq<char>>, Ghost(black): Ghost<Seq<char>>, Ghost(date): Ghost<Seq<char>>, Ghost(result): Ghost<Seq<char>>)
        requires
            self@.wf(),
        ensures
            no_newline(white) && no_newline(black) && no_newline(date) && result_text(result)
                && pgn_start_kept(self@.positions[0])
                ==> crate::pgn::from_pgn_spec(pgn_spec(self@, white, black, date, result))
                    == Ok::<HistoryView, Option<(nat, Seq<char>)>>(prefix(self@, self@.current)),
    {
        proof {
            self.lemma_lengths();
        }
        let mut k: usize = 0;
        while k < self.current_index
            invariant
                self@.wf(),
                self.current_index == self@.current,
                k <= self.current_index,
                forall|j: int| 0 <= j < k ==> chess_like(#[trigger] self@.positions[j]),
            decreases self.current_index - k,
        {
            let b = self.board_before(k);
            let _listed = legal_moves(b);
            k = k + 1;
        }
        let _start_listed = legal_moves(self.start_board());
        proof {
            assert(start_read_back(self@) || !pgn_start_kept(self@.positions[0]));
            if no_newline(white) && no_newline(black) && no_newline(date) && result_text(result) && start_read_back(self@) {
                law_pgn_reads_back(self@, white, black, date, result);
            }
        }
    }

    /// The game as PGN with the given players, date and result. Read back,
    /// it gives the game up to the position on the board, when the tag
    /// values hold no line feed, the result is one of the four and the start
    /// is one the PGN keeps (`pgn_start_kept`).
    pub fn pgn_with(&self, white: &str, black: &str, date: &str, result: &str) -> (pgn: String)
        requires
            self@.wf(),
        ensures
            pgn@ == pgn_spec(self@, white@, black@, date@, result@),
            no_newline(white@) && no_newline(black@) && no_newline(date@) && result_text(result@)
                && pgn_start_kept(self@.positions[0])
                ==> crate::pgn::from_pgn_spec(pgn@) == Ok::<HistoryView, Option<(nat, Seq<char>)>>(prefix(self@, self@.current)),
    {
        self.list_played_positions(Ghost(white@), Ghost(black@), Ghost(date@), Ghost(result@));
        let mut out: Vec<char> = Vec::new();
        push_str(&mut out, "[Event \"?\"]\n[Site \"?\"]\n[Date \"");
        push_str(&mut out, date);
        push_str(&mut out, "\"]\n[Round \"?\"]\n[White \"");
        push_str(&mut out, white);
        push_str(&mut out, "\"]\n[Black \"");
        push_str(&mut out, black);
        push_str(&mut out, "\"]\n[Result \"");
        push_str(&mut out, result);
        push_str(&mut out, "\"]\n");
        let start = self.start_board();
        let initial = start_position();
        if !start.same_setup(&initial) {
            push_str(&mut out, "[SetUp \"1\"]\n[FEN \"");
            let fen = to_fen(start);
            push_chars(&mut out, &fen);
            push_str(&mut out, "\"]\n");
        }
        proof {
            assert(out@ =~= pgn_tags(self@, white@, black@, date@, result@));
        }
        out.push('\n');
        let ghost head = out@;
        let mut i: usize = 0;
        while i < self.current_index
            invariant
                self@.wf(),
                self.current_index == self@.current,
                i <= self.current_index,
                out@ == head + movetext(self@, i as nat),
            decreases self.current_index - i,
        {
            self.push_entry(&mut out, i);
            i = i + 1;
            proof {
                assert(out@ =~= head + movetext(self@, i as nat));
            }
        }
        push_str(&mut out, result);
        proof {
            assert(out@ =~= pgn_spec(self@, white@, black@, date@, result@));
        }
        string_of(out.as_slice())
    }

    /// The game as PGN: the seven-tag roster with an unknown date, a FEN
    /// tag when the game did not start from the initial setup, then the
    /// moves up to the current one and the result.
    /// Read back, it gives the game up to the position on the board when
    /// the names hold no line feed and the start is one the PGN keeps
    /// (`pgn_start_kept`): so for every game begun by `new`, and by
    /// `from_fen` on any position but the initial setup with other clocks.
    pub fn pgn(&self, white: &str, black: &str) -> (pgn: String)
        requires
            self@.wf(),
        ensures
            pgn@ == pgn_spec(self@, white@, black@, "????.??.??"@, result_spec(self@)),
            no_newline(white@) && no_newline(black@)
                && pgn_start_kept(self@.positions[0])
                ==> crate::pgn::from_pgn_spec(pgn@) == Ok::<HistoryView, Option<(nat, Seq<char>)>>(prefix(self@, self@.current)),
    {
        proof {
            reveal_strlit("????.??.??");
            reveal_strlit("1-0");
            reveal_strlit("0-1");
            reveal_strlit("1/2-1/2");
            reveal_strlit("*");
            assert(result_text(result_spec(self@)));
            assert(no_newline("????.??.??"@));
        }
        self.pgn_with(white, black, "????.??.??", self.result())
    }
}

fn clamp_clock(n: u64) -> (c: u32)
    ensures
        c == (if n > u32::MAX { u32::MAX as nat } else { n as nat }),
{
    if n > u32::MAX as u64 { u32::MAX } else { n as u32 }
}

proof fn lemma_quiet_run(h: HistoryView, k: nat, n: nat)
    requires
        h.wf(),
        k <= n <= h.moves.len(),
        forall|j: int| k <= j < n ==> is_quiet(h.positions[j], h.moves[j]),
        k == 0 || !is_quiet(h.positions[k - 1], h.moves[k - 1]),
    ensures
        quiet_run(h, n) == n - k,
    decreases n,
{
    if n > k {
        lemma_quiet_run(h, k, (n - 1) as nat);
    }
}

/// Taking back a move just played returns to the position it was played
/// on, with the same moves behind it, and leaves the move to be replayed.
pub proof fn law_undo_takes_back_the_move(h: HistoryView, mv: Move)
    requires
        h.wf(),
        h.make_move(mv) != h,
    ensures
        h.make_move(mv).undo().current_board() == h.current_board(),
        h.make_move(mv).undo().current == h.current,
        h.make_move(mv).undo().moves.take(h.current as int) == h.moves.take(h.current as int),
        h.make_move(mv).undo().can_redo(),
{
    let next = after_spec(h.current_board(), mv)->0;
    assert(h.make_move(mv) == h.played(mv, next));
    assert(h.played(mv, next).moves.take(h.current as int) =~= h.moves.take(h.current as int));
}

/// Replaying a move just taken back restores the history exactly.
pub proof fn law_redo_undoes_undo(h: HistoryView)
    requires
        h.wf(),
        h.can_undo(),
    ensures
        h.undo().redo() == h,
{
}

/// Taking back a move just replayed restores the history exactly.
pub proof fn law_undo_undoes_redo(h: HistoryView)
    requires
        h.wf(),
        h.can_redo(),
    ensures
        h.redo().undo() == h,
{
}

/// A new move drops the moves that had been taken back: nothing is left to
/// redo, and the history ends at the new position.
pub proof fn law_new_move_clears_redo(h: HistoryView, mv: Move)
    requires
        h.wf(),
        h.make_move(mv) != h,
    ensures
        !h.make_move(mv).can_redo(),
        h.make_move(mv).current == h.current + 1,
        h.make_move(mv).positions.len() == h.current + 2,
        h.make_move(mv).moves.last() == mv,
{
    let next = after_spec(h.current_board(), mv)->0;
    assert(h.make_move(mv) == h.played(mv, next));
}

/// A new move keeps everything before the current position: the earlier
/// positions, moves and their SAN.
pub proof fn law_new_move_keeps_the_past(h: HistoryView, mv: Move)
    requires
        h.wf(),
    ensures
        h.make_move(mv).positions.take((h.current + 1) as int) == h.positions.take((h.current + 1) as int),
        h.make_move(mv).moves.take(h.current as int) == h.moves.take(h.current as int),
        h.make_move(mv).sans.take(h.current as int) == h.sans.take(h.current as int),
{
    if h.make_move(mv) != h {
        let next = after_spec(h.current_board(), mv)->0;
        assert(h.make_move(mv).positions.take((h.current + 1) as int) =~= h.positions.take((h.current + 1) as int));
        assert(h.make_move(mv).moves.take(h.current as int) =~= h.moves.take(h.current as int));
        assert(h.make_move(mv).sans.take(h.current as int) =~= h.sans.take(h.current as int));
    }
}

/// Undo and redo only move through the history: positions, moves and
/// their SAN, including those taken back, stay as they were.
pub proof fn law_browsing_keeps_the_record(h: HistoryView)
    requires
        h.wf(),
    ensures
        h.undo().positions == h.positions,
        h.undo().moves == h.moves,
        h.undo().sans == h.sans,
        h.redo().positions == h.positions,
        h.redo().moves == h.moves,
        h.redo().sans == h.sans,
        h.undo().wf(),
        h.redo().wf(),
{
    reveal(HistoryView::linked);
}


proof fn lemma_quiet_run_prefix(h: HistoryView, g: HistoryView, k: nat)
    requires
        k <= h.moves.len(),
        k <= g.moves.len(),
        k < h.positions.len(),
        k < g.positions.len(),
        forall|i: int| 0 <= i < k ==> h.positions[i] == g.positions[i] && h.moves[i] == g.moves[i],
    ensures
        quiet_run(h, k) == quiet_run(g, k),
    decreases k,
{
    if k > 0 {
        lemma_quiet_run_prefix(h, g, (k - 1) as nat);
    }
}

/// After a move that is played, the halfmove clock starts again from zero
/// when the move moved a pawn or took a piece, and counts one more ply
/// otherwise.
pub proof fn law_halfmove_clock_after_a_move(h: HistoryView, mv: Move)
    requires
        h.wf(),
        on_board(mv),
        after_spec(h.current_board(), mv) is Some,
    ensures
        halfmove_clock_spec(h.make_move(mv)) == (if is_quiet(h.current_board(), mv) {
            if halfmove_clock_spec(h) + 1 > u32::MAX { u32::MAX as nat } else { halfmove_clock_spec(h) + 1 }
        } else {
            0
        }),
{
    let n = h.make_move(mv);
    let c = h.current;
    assert(n.current == c + 1);
    assert(n.positions[c as int] == h.positions[c as int]);
    assert(n.moves[c as int] == mv);
    lemma_quiet_run_prefix(h, n, c);
    assert(n.positions[0] == h.positions[0]);
    assert(quiet_run(h, c) <= c) by {
        lemma_quiet_run_bounded(h, c);
    }
}

/// Told by what stands on the board: a pawn move starts the halfmove clock
/// again from zero, and so does taking a piece of the other side; a move of
/// any other piece onto a square without an enemy piece counts one ply more
/// (held at `u32::MAX`).
pub proof fn law_pawn_moves_and_captures_reset_the_clock(h: HistoryView, mv: Move)
    requires
        h.wf(),
        on_board(mv),
        after_spec(h.current_board(), mv) is Some,
    ensures
        (h.current_board().piece_on(mv.from as nat) matches Some((_, Piece::Pawn)))
            ==> halfmove_clock_spec(h.make_move(mv)) == 0,
        (h.current_board().piece_on(mv.to as nat) matches Some((c, _)) && c != h.current_board().side)
            ==> halfmove_clock_spec(h.make_move(mv)) == 0,
        (h.current_board().piece_on(mv.from as nat) matches Some((_, p)) && p != Piece::Pawn)
            && !(h.current_board().piece_on(mv.to as nat) matches Some((c, _)) && c != h.current_board().side)
            ==> halfmove_clock_spec(h.make_move(mv)) == (if halfmove_clock_spec(h) + 1 > u32::MAX {
                u32::MAX as nat
            } else {
                halfmove_clock_spec(h) + 1
            }),
{
    law_halfmove_clock_after_a_move(h, mv);
    let b = h.current_board();
    if let Some((c, _)) = b.piece_on(mv.to as nat) {
        assert(c != b.side <==> c == b.side.spec_opposite());
    }
}

proof fn lemma_quiet_run_bounded(h: HistoryView, k: nat)
    ensures
        quiet_run(h, k) <= k,
    decreases k,
{
    if k > 0 {
        lemma_quiet_run_bounded(h, (k - 1) as nat);
    }
}

} // verus!
