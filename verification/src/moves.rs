//! Legal moves and their spelling. cozy-chess stores castling as the king
//! taking its own rook, while UCI, PGN and the board want the king's real
//! destination; the helpers here translate.

use vstd::prelude::*;
use crate::cozy::{
    cozy_accepts, cozy_after, cozy_in_check, cozy_moves, cozy_plays, cozy_reading, cozy_same,
    in_check_on, legal_moves_of, moves_like_chess, play_on, read_fen, same_position_of, same_raw_move, Snapshot, SnapshotView,
};
use crate::fen::{fen_of, to_fen};
use crate::text::string_of;
use crate::types::{
    file_char, file_of, file_to_char, rank_of, square_text, push_square, Board, BoardView, Color,
    Move, Piece,
};

verus! {

/// The board a cozy-chess snapshot describes.
pub open spec fn board_of(s: SnapshotView) -> BoardView {
    BoardView {
        cells: Seq::new(64, |i: int| {
            let (p, c) = s.cells[i];
            if p >= 6 { 0u8 } else { (1 + p + 6 * c) as u8 }
        }),
        side: if s.side == 0 { Color::White } else { Color::Black },
        white_short: s.castles.0 is Some,
        white_long: s.castles.1 is Some,
        black_short: s.castles.2 is Some,
        black_long: s.castles.3 is Some,
        en_passant: s.en_passant,
        halfmove: s.halfmove,
        fullmove: s.fullmove,
    }
}

/// A move as cozy-chess lists it, promotion 6 meaning none.
pub open spec fn move_of(raw: (u8, u8, u8)) -> Move {
    Move {
        from: raw.0,
        to: raw.1,
        promotion: if raw.2 < 6 { Some(Piece::spec_from_index(raw.2 as nat)) } else { None },
    }
}

/// The promotion of a move as cozy-chess's piece index, 6 for none.
pub open spec fn promotion_code(mv: Move) -> u8 {
    match mv.promotion {
        Some(p) => p.index() as u8,
        None => 6,
    }
}

/// The legal moves of `b`, in cozy-chess's order; none when cozy-chess
/// cannot read the position.
pub open spec fn legal_moves_spec(b: BoardView) -> Seq<Move> {
    let fen = fen_of(b);
    if cozy_accepts(fen) { cozy_moves(fen).map_values(|raw: (u8, u8, u8)| move_of(raw)) } else { seq![] }
}

/// The position after `mv`, when cozy-chess reads `b` and accepts the move.
pub open spec fn after_spec(b: BoardView, mv: Move) -> Option<BoardView> {
    let fen = fen_of(b);
    let next = cozy_after(fen, mv.from, mv.to, promotion_code(mv));
    if cozy_accepts(fen) && cozy_plays(fen, mv.from, mv.to, promotion_code(mv)) && cozy_accepts(next) {
        Some(board_of(cozy_reading(next)))
    } else {
        None
    }
}

/// True when the side to move is in check.
pub open spec fn in_check_spec(b: BoardView) -> bool {
    cozy_accepts(fen_of(b)) && cozy_in_check(fen_of(b))
}

/// Mate: in check with no legal move.
pub open spec fn checkmate_spec(b: BoardView) -> bool {
    in_check_spec(b) && legal_moves_spec(b).len() == 0
}

/// Stalemate: not in check and no legal move.
pub open spec fn stalemate_spec(b: BoardView) -> bool {
    !in_check_spec(b) && legal_moves_spec(b).len() == 0
}

/// True when `mv` castles: the king lands on its own rook.
pub open spec fn is_castling_spec(b: BoardView, mv: Move) -> bool {
    &&& b.piece_on(mv.from as nat) matches Some((_, Piece::King))
    &&& b.piece_on(mv.to as nat) matches Some((c, _)) && c == b.side
}

/// The square the moving piece ends on: the king's g or c file when castling.
pub open spec fn destination_spec(b: BoardView, mv: Move) -> nat {
    if is_castling_spec(b, mv) {
        let file: nat = if file_of(mv.to as nat) > file_of(mv.from as nat) { 6 } else { 2 };
        rank_of(mv.from as nat) * 8 + file
    } else {
        mv.to as nat
    }
}

/// The letter UCI writes for a promotion piece.
pub open spec fn promotion_char(p: Piece) -> char {
    match p {
        Piece::Pawn => 'p',
        Piece::Knight => 'n',
        Piece::Bishop => 'b',
        Piece::Rook => 'r',
        Piece::Queen => 'q',
        Piece::King => 'k',
    }
}

pub fn promotion_to_char(p: Piece) -> (c: char)
    ensures
        c == promotion_char(p),
{
    match p {
        Piece::Pawn => 'p',
        Piece::Knight => 'n',
        Piece::Bishop => 'b',
        Piece::Rook => 'r',
        Piece::Queen => 'q',
        Piece::King => 'k',
    }
}

pub open spec fn promotion_suffix(mv: Move) -> Seq<char> {
    match mv.promotion {
        Some(p) => seq![promotion_char(p)],
        None => seq![],
    }
}

/// The move as UCI writes it for standard chess: `e1g1`, not `e1h1`.
pub open spec fn uci_text(b: BoardView, mv: Move) -> Seq<char> {
    square_text(mv.from as nat) + square_text(destination_spec(b, mv)) + promotion_suffix(mv)
}

/// The move as cozy-chess writes it: castling as `e1h1`.
pub open spec fn raw_text(mv: Move) -> Seq<char> {
    square_text(mv.from as nat) + square_text(mv.to as nat) + promotion_suffix(mv)
}

/// A move whose squares are on the board.
pub open spec fn on_board(mv: Move) -> bool {
    mv.from < 64 && mv.to < 64
}

/// Converts a cozy-chess snapshot, whose values are in range, into a board.
pub fn board_from_snapshot(s: &Snapshot) -> (b: Board)
    requires
        s@.in_range(),
    ensures
        b@ == board_of(s@),
        b.wf(),
{
    let mut cells: Vec<u8> = Vec::new();
    let mut i: usize = 0;
    while i < 64
        invariant
            s@.in_range(),
            i <= 64,
            cells@.len() == i,
            forall|j: int| 0 <= j < i ==> cells@[j] == board_of(s@).cells[j],
            forall|j: int| 0 <= j < i ==> #[trigger] cells@[j] <= 12,
        decreases 64 - i,
    {
        let (p, c) = s.cells[i];
        proof {
            let (pp, cc) = s@.cells[i as int];
            assert((pp < 6 && cc < 2) || (pp == 6 && cc == 2));
        }
        if p >= 6 {
            cells.push(0);
        } else {
            cells.push(1 + p + 6 * c);
        }
        i = i + 1;
    }
    let b = Board {
        cells,
        side: if s.side == 0 { Color::White } else { Color::Black },
        white_short: s.castles.0.is_some(),
        white_long: s.castles.1.is_some(),
        black_short: s.castles.2.is_some(),
        black_long: s.castles.3.is_some(),
        en_passant: s.en_passant,
        halfmove: s.halfmove,
        fullmove: s.fullmove,
    };
    proof {
        assert(b@.cells =~= board_of(s@).cells);
    }
    b
}

/// Whether cozy-chess reads `fen` and then also reads the FEN of the board
/// it read there. The second reading fails for a castling right on a rook
/// off the a- and h-files, which cozy-chess takes only in Shredder form and
/// which the FEN of a board, with its `K`, `Q`, `k` and `q`, cannot name.
pub open spec fn fen_reads_back(fen: Seq<char>) -> bool {
    cozy_accepts(fen) && cozy_accepts(fen_of(board_of(cozy_reading(fen))))
}

/// The position cozy-chess reads in `fen`; `None` when it reads none, or
/// when it would not read the FEN of that position in turn.
pub fn board_from_fen(fen: &str) -> (b: Option<Board>)
    ensures
        b is Some <==> fen_reads_back(fen@),
        b matches Some(x) ==> x@ == board_of(cozy_reading(fen@)) && x.wf() && cozy_accepts(fen_of(x@)),
{
    match read_fen(fen) {
        None => None,
        Some(s) => {
            let b = board_from_snapshot(&s);
            let own = string_of(to_fen(&b).as_slice());
            match read_fen(own.as_str()) {
                None => None,
                Some(_) => Some(b),
            }
        },
    }
}

/// Every legal move on `board`, in cozy-chess's order. They are the kind
/// chess has, so that each one's SAN reads back as that move, and when
/// cozy-chess reads the board's FEN it reads it as the board.
pub fn legal_moves(board: &Board) -> (moves: Vec<Move>)
    requires
        board.wf(),
    ensures
        moves@ == legal_moves_spec(board@),
        forall|i: int| 0 <= i < moves@.len() ==> on_board(#[trigger] moves@[i]),
        chess_like(board@),
        forall|i: int| 0 <= i < moves@.len()
            ==> crate::notation::parse_san_spec(board@, crate::notation::san_spec(board@, #[trigger] moves@[i])) == Some(moves@[i]),
        cozy_accepts(fen_of(board@)) ==> board_of(cozy_reading(fen_of(board@))) == board@,
{
    let fen = string_of(to_fen(board).as_slice());
    let listed = legal_moves_of(fen.as_str());
    proof {
        if listed is Some {
            assert(board_of(cozy_reading(fen@)) == board@);
        }
        lemma_chess_like(board@);
        assert forall|i: int| 0 <= i < legal_moves_spec(board@).len() implies
            crate::notation::parse_san_spec(board@, crate::notation::san_spec(board@, #[trigger] legal_moves_spec(board@)[i]))
                == Some(legal_moves_spec(board@)[i]) by {
            crate::notation::law_san_reads_back(board@, legal_moves_spec(board@)[i]);
        }
    }
    match listed {
        None => Vec::new(),
        Some(raw) => {
            let mut moves: Vec<Move> = Vec::new();
            let mut i: usize = 0;
            while i < raw.len()
                invariant
                    i <= raw.len(),
                    moves@.len() == i,
                    forall|j: int| 0 <= j < raw@.len() ==> {
                        let (f, t, p) = #[trigger] raw@[j];
                        f < 64 && t < 64 && p <= 6
                    },
                    forall|j: int| 0 <= j < i ==> moves@[j] == move_of(raw@[j]),
                    forall|j: int| 0 <= j < i ==> on_board(#[trigger] moves@[j]),
                decreases raw.len() - i,
            {
                let (f, t, p) = raw[i];
                let promotion = if p < 6 { Some(Piece::from_index(p)) } else { None };
                moves.push(Move { from: f, to: t, promotion });
                proof {
                    let (ff, tt, pp) = raw@[i as int];
                    assert(ff < 64 && tt < 64 && pp <= 6);
                }
                i = i + 1;
            }
            proof {
                assert(moves@ =~= cozy_moves(fen_of(board@)).map_values(|raw: (u8, u8, u8)| move_of(raw)));
            }
            moves
        }
    }
}

/// The board after `mv`; `None` when cozy-chess does not play it.
pub fn after(board: &Board, mv: Move) -> (next: Option<Board>)
    requires
        board.wf(),
        on_board(mv),
    ensures
        match after_spec(board@, mv) {
            Some(v) => next matches Some(b) && b@ == v && b.wf(),
            None => next is None,
        },
        next is Some <==> legal_moves_spec(board@).contains(mv),
{
    let fen = string_of(to_fen(board).as_slice());
    let code = match mv.promotion {
        Some(p) => p.to_index(),
        None => 6,
    };
    proof {
        lemma_raw_move_of(board@, mv, code);
        assert(board@.wf() && fen@ == fen_of(board@));
    }
    match play_on(fen.as_str(), mv.from, mv.to, code) {
        None => None,
        Some(next) => match read_fen(next.as_str()) {
            None => None,
            Some(s) => Some(board_from_snapshot(&s)),
        },
    }
}

/// True when the side to move is in check.
pub fn in_check(board: &Board) -> (c: bool)
    requires
        board.wf(),
    ensures
        c == in_check_spec(board@),
{
    let fen = string_of(to_fen(board).as_slice());
    match in_check_on(fen.as_str()) {
        None => false,
        Some(c) => c,
    }
}

/// True when the side to move is checkmated.
pub fn is_checkmate(board: &Board) -> (mate: bool)
    requires
        board.wf(),
    ensures
        mate == checkmate_spec(board@),
{
    in_check(board) && legal_moves(board).len() == 0
}

/// True when the side to move has no legal move and is not in check.
pub fn is_stalemate(board: &Board) -> (stale: bool)
    requires
        board.wf(),
    ensures
        stale == stalemate_spec(board@),
{
    !in_check(board) && legal_moves(board).len() == 0
}

/// True when the two positions are the same for the repetition rule, as
/// cozy-chess judges it; false when it cannot read either.
pub fn same_position(a: &Board, b: &Board) -> (same: bool)
    requires
        a.wf(),
        b.wf(),
    ensures
        same == (cozy_accepts(fen_of(a@)) && cozy_accepts(fen_of(b@)) && cozy_same(fen_of(a@), fen_of(b@))),
{
    let fa = string_of(to_fen(a).as_slice());
    let fb = string_of(to_fen(b).as_slice());
    match same_position_of(fa.as_str(), fb.as_str()) {
        None => false,
        Some(s) => s,
    }
}

/// True when `mv` castles: the king lands on its own rook.
pub fn is_castling(board: &Board, mv: Move) -> (c: bool)
    requires
        board.wf(),
        on_board(mv),
    ensures
        c == is_castling_spec(board@, mv),
{
    match (board.piece_on(mv.from), board.piece_on(mv.to)) {
        (Some((_, Piece::King)), Some((c, _))) => c == board.side,
        _ => false,
    }
}

/// The square the moving piece ends on: the king's g or c file when castling.
pub fn destination(board: &Board, mv: Move) -> (sq: u8)
    requires
        board.wf(),
        on_board(mv),
    ensures
        sq as nat == destination_spec(board@, mv),
        sq < 64,
{
    if !is_castling(board, mv) {
        return mv.to;
    }
    let file: u8 = if mv.to % 8 > mv.from % 8 { 6 } else { 2 };
    (mv.from / 8) * 8 + file
}

/// The move as UCI writes it for standard chess: `e1g1`, not `e1h1`.
pub fn uci_chars(board: &Board, mv: Move) -> (text: Vec<char>)
    requires
        board.wf(),
        on_board(mv),
    ensures
        text@ == uci_text(board@, mv),
{
    let mut text: Vec<char> = Vec::new();
    push_square(&mut text, mv.from);
    push_square(&mut text, destination(board, mv));
    if let Some(p) = mv.promotion {
        text.push(promotion_to_char(p));
    }
    proof {
        assert(text@ =~= uci_text(board@, mv));
    }
    text
}

/// The move as UCI writes it for standard chess: `e1g1`, not `e1h1`.
pub fn to_uci(board: &Board, mv: Move) -> (text: String)
    requires
        board.wf(),
        on_board(mv),
    ensures
        text@ == uci_text(board@, mv),
{
    string_of(uci_chars(board, mv).as_slice())
}

/// The move as cozy-chess writes it, castling as the king taking its rook.
pub fn raw_chars(mv: Move) -> (text: Vec<char>)
    requires
        on_board(mv),
    ensures
        text@ == raw_text(mv),
{
    let mut text: Vec<char> = Vec::new();
    push_square(&mut text, mv.from);
    push_square(&mut text, mv.to);
    if let Some(p) = mv.promotion {
        text.push(promotion_to_char(p));
    }
    proof {
        assert(text@ =~= raw_text(mv));
    }
    text
}

/// The rank a pawn of `color` promotes on: the eighth for White, the first
/// for Black.
pub fn back_rank(color: Color) -> (rank: u8)
    ensures
        rank == (if color == Color::White { 7u8 } else { 0u8 }),
{
    match color {
        Color::White => 7,
        Color::Black => 0,
    }
}


/// `mv` is among the legal moves exactly when cozy-chess lists the raw move
/// that `code` names with its squares.
proof fn lemma_raw_move_of(b: BoardView, mv: Move, code: u8)
    requires
        code == promotion_code(mv),
    ensures
        legal_moves_spec(b).contains(mv) <==> (cozy_accepts(fen_of(b)) && exists|i: int|
            0 <= i < cozy_moves(fen_of(b)).len() && same_raw_move(#[trigger] cozy_moves(fen_of(b))[i], mv.from, mv.to, code)),
{
    let fen = fen_of(b);
    if cozy_accepts(fen) {
        let raws = cozy_moves(fen);
        let l = legal_moves_spec(b);
        assert forall|i: int| 0 <= i < raws.len() implies (#[trigger] l[i] == mv <==> same_raw_move(raws[i], mv.from, mv.to, code)) by {
            let raw = raws[i];
            assert(l[i] == move_of(raw));
            match mv.promotion {
                Some(p) => {
                    if raw.2 < 6 {
                        assert(Piece::spec_from_index(raw.2 as nat).index() == raw.2);
                    }
                },
                None => {},
            }
        }
        if l.contains(mv) {
            let i = choose|i: int| 0 <= i < l.len() && l[i] == mv;
            assert(same_raw_move(raws[i], mv.from, mv.to, code));
        }
        if exists|i: int| 0 <= i < raws.len() && same_raw_move(#[trigger] raws[i], mv.from, mv.to, code) {
            let i = choose|i: int| 0 <= i < raws.len() && same_raw_move(#[trigger] raws[i], mv.from, mv.to, code);
            assert(l[i] == mv);
        }
    }
}

/// A piece of kind `p` stands on `sq`.
pub open spec fn kind_at(b: BoardView, sq: nat, p: Piece) -> bool {
    b.piece_on(sq) matches Some((_, q)) && q == p
}

/// The legal moves of `b` are the kind chess has: each stays on the board
/// and starts on a piece, only pawns promote, two pawn moves to one square
/// from one file start on one square, all king moves start on one square,
/// and castling one way lands on one square.
pub open spec fn chess_like(b: BoardView) -> bool {
    let l = legal_moves_spec(b);
    &&& forall|i: int| 0 <= i < l.len() ==> on_board(#[trigger] l[i]) && b.piece_on(l[i].from as nat) is Some
    &&& forall|i: int| 0 <= i < l.len() && !kind_at(b, #[trigger] l[i].from as nat, Piece::Pawn)
        ==> l[i].promotion is None
    &&& forall|i: int, j: int| 0 <= i < l.len() && 0 <= j < l.len()
        && kind_at(b, #[trigger] l[i].from as nat, Piece::Pawn) && kind_at(b, #[trigger] l[j].from as nat, Piece::Pawn)
        && l[i].to == l[j].to && file_of(l[i].from as nat) == file_of(l[j].from as nat)
        ==> l[i].from == l[j].from
    &&& forall|i: int, j: int| 0 <= i < l.len() && 0 <= j < l.len()
        && kind_at(b, #[trigger] l[i].from as nat, Piece::King) && kind_at(b, #[trigger] l[j].from as nat, Piece::King)
        ==> l[i].from == l[j].from
    &&& forall|i: int, j: int| 0 <= i < l.len() && 0 <= j < l.len()
        && is_castling_spec(b, #[trigger] l[i]) && is_castling_spec(b, #[trigger] l[j])
        && (file_of(l[i].to as nat) > file_of(l[i].from as nat)) == (file_of(l[j].to as nat) > file_of(l[j].from as nat))
        ==> l[i].to == l[j].to
}



/// What the board read from a snapshot holds on `sq`.
proof fn lemma_cell_of(s: SnapshotView, sq: nat)
    requires
        s.in_range(),
        sq < 64,
    ensures
        board_of(s).piece_on(sq) == (if s.cells[sq as int].0 < 6 {
            Some((if s.cells[sq as int].1 == 0 { Color::White } else { Color::Black },
                Piece::spec_from_index(s.cells[sq as int].0 as nat)))
        } else {
            None::<(Color, Piece)>
        }),
        (board_of(s).side == Color::White) == (s.side == 0),
{
    let (p, c) = s.cells[sq as int];
    assert((p < 6 && c < 2) || (p == 6 && c == 2));
    let code = board_of(s).cells[sq as int];
    if p < 6 {
        assert(code == 1 + p + 6 * c);
        if c == 0 {
            assert(crate::types::cell_piece(code as nat) == Piece::spec_from_index(p as nat));
        } else {
            assert(code == 7 + p);
            assert(crate::types::cell_piece(code as nat) == Piece::spec_from_index(p as nat));
        }
    }
}

/// The legal moves of a board are of the kind chess has, given what
/// cozy-chess's generator gives on the board it reads and that it reads
/// the board's FEN as the board.
proof fn lemma_chess_like(b: BoardView)
    requires
        cozy_accepts(fen_of(b)) ==> {
            &&& cozy_reading(fen_of(b)).in_range()
            &&& moves_like_chess(cozy_reading(fen_of(b)), cozy_moves(fen_of(b)))
            &&& board_of(cozy_reading(fen_of(b))) == b
            &&& forall|i: int| 0 <= i < cozy_moves(fen_of(b)).len() ==> {
                let (f, t, p) = #[trigger] cozy_moves(fen_of(b))[i];
                f < 64 && t < 64
            }
        },
    ensures
        chess_like(b),
{
    let fen = fen_of(b);
    if cozy_accepts(fen) {
        let s = cozy_reading(fen);
        let raws = cozy_moves(fen);
        let l = legal_moves_spec(b);
        assert(l.len() == raws.len());
        assert forall|i: int| 0 <= i < l.len() implies
            #[trigger] l[i] == move_of(raws[i]) && on_board(l[i]) && b.piece_on(l[i].from as nat) is Some
            && (kind_at(b, l[i].from as nat, Piece::Pawn) <==> s.cells[raws[i].0 as int].0 == 0)
            && (kind_at(b, l[i].from as nat, Piece::King) <==> s.cells[raws[i].0 as int].0 == 5)
            && (is_castling_spec(b, l[i]) <==> (s.cells[raws[i].0 as int].0 == 5
                && s.cells[raws[i].1 as int].0 < 6 && s.cells[raws[i].1 as int].1 == s.side))
            && (!kind_at(b, l[i].from as nat, Piece::Pawn) ==> l[i].promotion is None)
        by {
            let (f, t, p) = raws[i];
            assert(f < 64 && t < 64);
            lemma_cell_of(s, f as nat);
            lemma_cell_of(s, t as nat);
            assert(s.cells[f as int].0 < 6 && s.cells[f as int].1 == s.side);
        }
        assert forall|i: int, j: int| 0 <= i < l.len() && 0 <= j < l.len()
            && kind_at(b, #[trigger] l[i].from as nat, Piece::Pawn) && kind_at(b, #[trigger] l[j].from as nat, Piece::Pawn)
            && l[i].to == l[j].to && file_of(l[i].from as nat) == file_of(l[j].from as nat)
            implies l[i].from == l[j].from by {
            assert(l[i] == move_of(raws[i]) && l[j] == move_of(raws[j]));
            assert(s.cells[raws[i].0 as int].0 == 0 && s.cells[raws[j].0 as int].0 == 0);
        }
        assert forall|i: int, j: int| 0 <= i < l.len() && 0 <= j < l.len()
            && kind_at(b, #[trigger] l[i].from as nat, Piece::King) && kind_at(b, #[trigger] l[j].from as nat, Piece::King)
            implies l[i].from == l[j].from by {
            assert(l[i] == move_of(raws[i]) && l[j] == move_of(raws[j]));
            assert(s.cells[raws[i].0 as int].0 == 5 && s.cells[raws[j].0 as int].0 == 5);
        }
        assert forall|i: int, j: int| 0 <= i < l.len() && 0 <= j < l.len()
            && is_castling_spec(b, #[trigger] l[i]) && is_castling_spec(b, #[trigger] l[j])
            && (file_of(l[i].to as nat) > file_of(l[i].from as nat)) == (file_of(l[j].to as nat) > file_of(l[j].from as nat))
            implies l[i].to == l[j].to by {
            assert(l[i] == move_of(raws[i]) && l[j] == move_of(raws[j]));
        }
    }
}

} // verus!
