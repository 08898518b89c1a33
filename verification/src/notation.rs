//! Move notation: long algebraic as UCI writes it, and standard algebraic.
//! Both readers match against the legal moves, so only playable moves come
//! back.

use vstd::prelude::*;
use crate::moves::{
    chess_like, kind_at,
    after, after_spec, checkmate_spec, destination, in_check, in_check_spec, is_castling,
    is_checkmate, is_castling_spec, legal_moves, legal_moves_spec, on_board, raw_chars, raw_text,
    uci_chars, uci_text,
};
use crate::text::{chars_of, string_of};
use crate::types::{
    file_char, file_of, file_to_char, push_square, rank_char, rank_of, rank_to_char, square_text,
    Board, BoardView, Color, Move, Piece,
};

verus! {

/// The letter SAN writes for a piece.
pub open spec fn piece_letter_spec(p: Piece) -> char {
    match p {
        Piece::Pawn => 'P',
        Piece::Knight => 'N',
        Piece::Bishop => 'B',
        Piece::Rook => 'R',
        Piece::Queen => 'Q',
        Piece::King => 'K',
    }
}

fn piece_letter(p: Piece) -> (c: char)
    ensures
        c == piece_letter_spec(p),
{
    match p {
        Piece::Pawn => 'P',
        Piece::Knight => 'N',
        Piece::Bishop => 'B',
        Piece::Rook => 'R',
        Piece::Queen => 'Q',
        Piece::King => 'K',
    }
}

/// How much of the origin square a piece move must name.
#[derive(Clone, Copy, Debug, PartialEq, Eq, Structural)]
pub enum Disambiguation {
    Nothing,
    File,
    Rank,
    Both,
}

/// `o` is another legal move of the same kind of piece to the same square.
pub open spec fn rival(b: BoardView, mv: Move, piece: Piece, o: Move) -> bool {
    &&& o.to == mv.to
    &&& o.from != mv.from
    &&& b.piece_on(o.from as nat) matches Some((_, p)) && p == piece
}

pub open spec fn has_rival(b: BoardView, mv: Move, piece: Piece) -> bool {
    exists|i: int| 0 <= i < legal_moves_spec(b).len() && rival(b, mv, piece, #[trigger] legal_moves_spec(b)[i])
}

pub open spec fn rival_on_file(b: BoardView, mv: Move, piece: Piece) -> bool {
    exists|i: int| 0 <= i < legal_moves_spec(b).len() && rival(b, mv, piece, #[trigger] legal_moves_spec(b)[i])
        && file_of(legal_moves_spec(b)[i].from as nat) == file_of(mv.from as nat)
}

pub open spec fn rival_on_rank(b: BoardView, mv: Move, piece: Piece) -> bool {
    exists|i: int| 0 <= i < legal_moves_spec(b).len() && rival(b, mv, piece, #[trigger] legal_moves_spec(b)[i])
        && rank_of(legal_moves_spec(b)[i].from as nat) == rank_of(mv.from as nat)
}

/// What SAN must add to tell `mv` from the other legal moves of the same
/// kind of piece to the same square: nothing, the file, the rank or both.
pub open spec fn disambiguation_spec(b: BoardView, mv: Move) -> Disambiguation {
    match b.piece_on(mv.from as nat) {
        None => Disambiguation::Nothing,
        Some((_, piece)) => {
            if piece == Piece::Pawn || piece == Piece::King || !has_rival(b, mv, piece) {
                Disambiguation::Nothing
            } else if rival_on_file(b, mv, piece) {
                if rival_on_rank(b, mv, piece) { Disambiguation::Both } else { Disambiguation::Rank }
            } else {
                Disambiguation::File
            }
        },
    }
}

fn needs_disambiguation(board: &Board, mv: Move) -> (d: Disambiguation)
    requires
        board.wf(),
        on_board(mv),
    ensures
        d == disambiguation_spec(board@, mv),
{
    let piece = match board.piece_on(mv.from) {
        None => return Disambiguation::Nothing,
        Some((_, p)) => p,
    };
    if piece == Piece::Pawn || piece == Piece::King {
        return Disambiguation::Nothing;
    }
    let moves = legal_moves(board);
    let ghost legal = legal_moves_spec(board@);
    let mut any = false;
    let mut same_file = false;
    let mut same_rank = false;
    let mut i: usize = 0;
    while i < moves.len()
        invariant
            board.wf(),
            on_board(mv),
            board@.piece_on(mv.from as nat) matches Some((_, p)) && p == piece,
            moves@ == legal,
            legal == legal_moves_spec(board@),
            forall|j: int| 0 <= j < moves@.len() ==> on_board(#[trigger] moves@[j]),
            i <= moves.len(),
            any == exists|j: int| 0 <= j < i && rival(board@, mv, piece, #[trigger] legal[j]),
            same_file == exists|j: int| 0 <= j < i && rival(board@, mv, piece, #[trigger] legal[j])
                && file_of(legal[j].from as nat) == file_of(mv.from as nat),
            same_rank == exists|j: int| 0 <= j < i && rival(board@, mv, piece, #[trigger] legal[j])
                && rank_of(legal[j].from as nat) == rank_of(mv.from as nat),
        decreases moves.len() - i,
    {
        let o = moves[i];
        let is_rival = o.to == mv.to && o.from != mv.from && match board.piece_on(o.from) {
            Some((_, p)) => p == piece,
            None => false,
        };
        if is_rival {
            any = true;
            if o.from % 8 == mv.from % 8 {
                same_file = true;
            }
            if o.from / 8 == mv.from / 8 {
                same_rank = true;
            }
        }
        i = i + 1;
    }
    if !any {
        Disambiguation::Nothing
    } else if same_file {
        if same_rank { Disambiguation::Both } else { Disambiguation::Rank }
    } else {
        Disambiguation::File
    }
}

/// True when `mv` takes something: a piece of the other side on the target
/// square, or a pawn moving sideways (en passant).
pub open spec fn is_capture_spec(b: BoardView, mv: Move, piece: Piece) -> bool {
    (b.piece_on(mv.to as nat) matches Some((c, _)) && c == b.side.spec_opposite())
        || (piece == Piece::Pawn && file_of(mv.from as nat) != file_of(mv.to as nat))
}

pub open spec fn disambiguation_text(b: BoardView, mv: Move) -> Seq<char> {
    match disambiguation_spec(b, mv) {
        Disambiguation::Nothing => seq![],
        Disambiguation::File => seq![file_char(file_of(mv.from as nat))],
        Disambiguation::Rank => seq![rank_char(rank_of(mv.from as nat))],
        Disambiguation::Both => square_text(mv.from as nat),
    }
}

/// The SAN of a move of `piece`, without the check mark.
pub open spec fn san_body(b: BoardView, mv: Move, piece: Piece) -> Seq<char> {
    let capture = is_capture_spec(b, mv, piece);
    if is_castling_spec(b, mv) {
        if file_of(mv.to as nat) > file_of(mv.from as nat) { seq!['O', '-', 'O'] } else { seq!['O', '-', 'O', '-', 'O'] }
    } else if piece == Piece::Pawn {
        (if capture { seq![file_char(file_of(mv.from as nat)), 'x'] } else { seq![] })
            + square_text(mv.to as nat)
            + match mv.promotion {
                Some(p) => seq!['=', piece_letter_spec(p)],
                None => seq![],
            }
    } else {
        seq![piece_letter_spec(piece)] + disambiguation_text(b, mv)
            + (if capture { seq!['x'] } else { seq![] }) + square_text(mv.to as nat)
    }
}

/// `+` when the move gives check, `#` when it mates.
pub open spec fn check_mark(b: BoardView, mv: Move) -> Seq<char> {
    match after_spec(b, mv) {
        Some(next) => if in_check_spec(next) {
            if checkmate_spec(next) { seq!['#'] } else { seq!['+'] }
        } else {
            seq![]
        },
        None => seq![],
    }
}

/// The move in standard algebraic notation. A move from an empty square is
/// written as UCI.
pub open spec fn san_spec(b: BoardView, mv: Move) -> Seq<char> {
    match b.piece_on(mv.from as nat) {
        None => uci_text(b, mv),
        Some((_, piece)) => san_body(b, mv, piece) + check_mark(b, mv),
    }
}

fn push_check_mark(out: &mut Vec<char>, board: &Board, mv: Move)
    requires
        board.wf(),
        on_board(mv),
    ensures
        final(out)@ == old(out)@ + check_mark(board@, mv),
{
    match after(board, mv) {
        None => {},
        Some(next) => {
            if in_check(&next) {
                if is_checkmate(&next) {
                    out.push('#');
                } else {
                    out.push('+');
                }
            }
        },
    }
    proof {
        assert(final(out)@ =~= old(out)@ + check_mark(board@, mv));
    }
}

fn san_piece_body(board: &Board, mv: Move, piece: Piece, capture: bool) -> (out: Vec<char>)
    requires
        board.wf(),
        on_board(mv),
        piece != Piece::Pawn,
        !is_castling_spec(board@, mv),
        capture == is_capture_spec(board@, mv, piece),
    ensures
        out@ == san_body(board@, mv, piece),
{
    let mut out: Vec<char> = Vec::new();
    out.push(piece_letter(piece));
    match needs_disambiguation(board, mv) {
        Disambiguation::File => out.push(file_to_char(mv.from % 8)),
        Disambiguation::Rank => out.push(rank_to_char(mv.from / 8)),
        Disambiguation::Both => push_square(&mut out, mv.from),
        Disambiguation::Nothing => {},
    }
    if capture {
        out.push('x');
    }
    push_square(&mut out, mv.to);
    proof {
        assert(out@ =~= san_body(board@, mv, piece));
    }
    out
}

fn san_pawn_body(board: &Board, mv: Move, capture: bool) -> (out: Vec<char>)
    requires
        board.wf(),
        on_board(mv),
        !is_castling_spec(board@, mv),
        capture == is_capture_spec(board@, mv, Piece::Pawn),
    ensures
        out@ == san_body(board@, mv, Piece::Pawn),
{
    let mut out: Vec<char> = Vec::new();
    if capture {
        out.push(file_to_char(mv.from % 8));
        out.push('x');
    }
    push_square(&mut out, mv.to);
    if let Some(p) = mv.promotion {
        out.push('=');
        out.push(piece_letter(p));
    }
    proof {
        assert(out@ =~= san_body(board@, mv, Piece::Pawn));
    }
    out
}

/// The move in standard algebraic notation, as characters.
pub fn san_chars(mv: Move, board: &Board) -> (out: Vec<char>)
    requires
        board.wf(),
        on_board(mv),
    ensures
        out@ == san_spec(board@, mv),
{
    let piece = match board.piece_on(mv.from) {
        None => return uci_chars(board, mv),
        Some((_, p)) => p,
    };
    let capture = match board.piece_on(mv.to) {
        Some((c, _)) => c == board.side.opposite(),
        None => false,
    } || (piece == Piece::Pawn && mv.from % 8 != mv.to % 8);
    let mut out: Vec<char> = if is_castling(board, mv) {
        let mut t: Vec<char> = Vec::new();
        t.push('O');
        t.push('-');
        t.push('O');
        if mv.to % 8 <= mv.from % 8 {
            t.push('-');
            t.push('O');
        }
        proof {
            assert(t@ =~= san_body(board@, mv, piece));
        }
        t
    } else if piece == Piece::Pawn {
        san_pawn_body(board, mv, capture)
    } else {
        san_piece_body(board, mv, piece, capture)
    };
    push_check_mark(&mut out, board, mv);
    out
}

/// The move in standard algebraic notation, with the disambiguation the
/// position needs and a check or mate mark. A legal move's SAN reads back
/// as that move.
pub fn format_move_san(mv: &Move, board: &Board) -> (san: String)
    requires
        board.wf(),
        on_board(*mv),
    ensures
        san@ == san_spec(board@, *mv),
        legal_moves_spec(board@).contains(*mv) ==> parse_san_spec(board@, san@) == Some(*mv),
{
    let _listed = legal_moves(board);
    proof {
        if legal_moves_spec(board@).contains(*mv) {
            law_san_reads_back(board@, *mv);
        }
    }
    string_of(san_chars(*mv, board).as_slice())
}

/// `s` without the characters at its end that are annotation glyphs
/// (`+`, `#`, `!`, `?`) or, when `glyphs` is false, check marks.
pub open spec fn trim_end(s: Seq<char>, glyphs: bool) -> Seq<char>
    decreases s.len(),
{
    if s.len() > 0 && strips(s.last(), glyphs) { trim_end(s.drop_last(), glyphs) } else { s }
}

pub open spec fn strips(c: char, glyphs: bool) -> bool {
    if glyphs { is_annotation(c) } else { is_check_sign(c) }
}

/// Check marks and annotation glyphs.
pub open spec fn is_annotation(c: char) -> bool {
    c == '+' || c == '#' || c == '!' || c == '?'
}

pub open spec fn is_check_sign(c: char) -> bool {
    c == '+' || c == '#'
}

/// The length of `s` once the trailing annotation glyphs (or, when
/// `glyphs` is false, only the check marks) are gone.
pub fn trimmed_len(s: &Vec<char>, glyphs: bool) -> (n: usize)
    ensures
        n <= s@.len(),
        s@.subrange(0, n as int) == trim_end(s@, glyphs),
{
    let mut n: usize = s.len();
    proof {
        assert(s@.subrange(0, n as int) =~= s@);
    }
    while n > 0 && (s[n - 1] == '+' || s[n - 1] == '#' || (glyphs && (s[n - 1] == '!' || s[n - 1] == '?')))
        invariant
            n <= s@.len(),
            trim_end(s@, glyphs) == trim_end(s@.subrange(0, n as int), glyphs),
        decreases n,
    {
        proof {
            let t = s@.subrange(0, n as int);
            assert(t.drop_last() =~= s@.subrange(0, n - 1));
            assert(strips(t.last(), glyphs));
        }
        n = n - 1;
    }
    proof {
        let t = s@.subrange(0, n as int);
        assert(s@.subrange(0, s@.len() as int) =~= s@);
        if n > 0 {
            assert(!strips(t.last(), glyphs));
        }
    }
    n
}

pub open spec fn zero_to_o(c: char) -> char {
    if c == '0' { 'O' } else { c }
}

pub open spec fn is_promotion_letter(c: char) -> bool {
    c == 'Q' || c == 'R' || c == 'B' || c == 'N'
}

pub open spec fn is_ascii_digit(c: char) -> bool {
    '0' <= c && c <= '9'
}

/// The SAN a reader looks for: glyphs dropped, zeros read as the letter O,
/// and `=` put before a promotion piece written without it.
pub open spec fn wanted_san(san: Seq<char>) -> Seq<char> {
    let t = trim_end(san, true).map_values(|c: char| zero_to_o(c));
    if t.len() > 2 && is_promotion_letter(t.last()) && is_ascii_digit(t[t.len() - 2]) {
        t.take(t.len() - 1) + seq!['=', t.last()]
    } else {
        t
    }
}

fn wanted_san_chars(san: &str) -> (w: Vec<char>)
    ensures
        w@ == wanted_san(san@),
{
    let s = chars_of(san);
    let n = trimmed_len(&s, true);
    let ghost t = trim_end(san@, true).map_values(|c: char| zero_to_o(c));
    let mut w: Vec<char> = Vec::new();
    let mut i: usize = 0;
    while i < n
        invariant
            n <= s@.len(),
            s@ == san@,
            s@.subrange(0, n as int) == trim_end(san@, true),
            t == trim_end(san@, true).map_values(|c: char| zero_to_o(c)),
            i <= n,
            w@ == t.take(i as int),
        decreases n - i,
    {
        let c = s[i];
        w.push(if c == '0' { 'O' } else { c });
        i = i + 1;
        proof {
            assert(w@ =~= t.take(i as int));
        }
    }
    proof {
        assert(w@ =~= t);
    }
    let len = w.len();
    if len > 2 {
        let last = w[len - 1];
        let before = w[len - 2];
        if (last == 'Q' || last == 'R' || last == 'B' || last == 'N') && '0' <= before && before <= '9' {
            w.pop();
            w.push('=');
            w.push(last);
            proof {
                assert(w@ =~= t.take(t.len() - 1) + seq!['=', t.last()]);
            }
        }
    }
    w
}

/// The move `mv` matches the SAN a reader wants.
pub open spec fn san_matches(b: BoardView, wanted: Seq<char>, mv: Move) -> bool {
    trim_end(san_spec(b, mv), false) == wanted
}

/// The legal move written as `san` on `b`: the first legal move whose SAN,
/// check mark aside, is what the reader wants.
pub open spec fn parse_san_spec(b: BoardView, san: Seq<char>) -> Option<Move> {
    first_san_match(b, legal_moves_spec(b), wanted_san(san))
}

/// The first move of `s` whose SAN on `b` is `wanted`.
pub open spec fn first_san_match(b: BoardView, s: Seq<Move>, wanted: Seq<char>) -> Option<Move>
    decreases s.len(),
{
    if s.len() == 0 {
        None
    } else if san_matches(b, wanted, s[0]) {
        Some(s[0])
    } else {
        first_san_match(b, s.drop_first(), wanted)
    }
}

proof fn lemma_first_san_skip(b: BoardView, s: Seq<Move>, wanted: Seq<char>, i: int)
    requires
        0 <= i < s.len(),
    ensures
        san_matches(b, wanted, s[i]) ==> first_san_match(b, s.skip(i), wanted) == Some(s[i]),
        !san_matches(b, wanted, s[i]) ==> first_san_match(b, s.skip(i), wanted) == first_san_match(b, s.skip(i + 1), wanted),
{
    assert(s.skip(i)[0] == s[i]);
    assert(s.skip(i).drop_first() =~= s.skip(i + 1));
}

fn chars_eq(a: &Vec<char>, n: usize, b: &Vec<char>) -> (eq: bool)
    requires
        n <= a@.len(),
    ensures
        eq == (a@.subrange(0, n as int) == b@),
{
    if n != b.len() {
        proof {
            assert(a@.subrange(0, n as int).len() != b@.len());
        }
        return false;
    }
    let mut i: usize = 0;
    while i < n
        invariant
            n <= a@.len(),
            n == b@.len(),
            i <= n,
            forall|j: int| 0 <= j < i ==> a@[j] == b@[j],
        decreases n - i,
    {
        if a[i] != b[i] {
            proof {
                assert(a@.subrange(0, n as int)[i as int] != b@[i as int]);
            }
            return false;
        }
        i = i + 1;
    }
    proof {
        assert(a@.subrange(0, n as int) =~= b@);
    }
    true
}

/// The legal move written as `san` on `board`. Check marks and annotation
/// glyphs are ignored, castling may use zeros, and `e8Q` is read as `e8=Q`.
/// Matching against the formatter keeps the two in step.
pub fn parse_san(board: &Board, san: &str) -> (mv: Option<Move>)
    requires
        board.wf(),
    ensures
        mv == parse_san_spec(board@, san@),
        mv matches Some(m) ==> on_board(m),
{
    let wanted = wanted_san_chars(san);
    let moves = legal_moves(board);
    let ghost legal = legal_moves_spec(board@);
    let ghost w = wanted_san(san@);
    proof {
        assert(legal.skip(0) =~= legal);
    }
    let mut i: usize = 0;
    while i < moves.len()
        invariant
            board.wf(),
            moves@ == legal,
            legal == legal_moves_spec(board@),
            forall|j: int| 0 <= j < moves@.len() ==> on_board(#[trigger] moves@[j]),
            wanted@ == w,
            w == wanted_san(san@),
            i <= moves.len(),
            first_san_match(board@, legal, w) == first_san_match(board@, legal.skip(i as int), w),
        decreases moves.len() - i,
    {
        let mv = moves[i];
        let text = san_chars(mv, board);
        let n = trimmed_len(&text, false);
        proof {
            lemma_first_san_skip(board@, legal, w, i as int);
        }
        if chars_eq(&text, n, &wanted) {
            proof {
                assert(legal[i as int] == mv);
                assert(san_matches(board@, w, mv));
                lemma_first_san_skip(board@, legal, w, i as int);
                assert(first_san_match(board@, legal.skip(i as int), w) == Some(mv));
                assert(first_san_match(board@, legal, w) == Some(mv));
            }
            return Some(mv);
        }
        i = i + 1;
    }
    proof {
        assert(legal.skip(i as int).len() == 0);
    }
    None
}

/// The character with ASCII upper case letters lowered.
pub open spec fn ascii_lower(c: char) -> char {
    if 'A' <= c && c <= 'Z' { ((c as u8) + 32) as u8 as char } else { c }
}

fn to_ascii_lower(c: char) -> (l: char)
    ensures
        l == ascii_lower(c),
{
    if 'A' <= c && c <= 'Z' { ((c as u8) + 32) as char } else { c }
}

/// `mv` is written as `wanted` in UCI, either way castling is spelt.
pub open spec fn uci_matches(b: BoardView, wanted: Seq<char>, mv: Move) -> bool {
    uci_text(b, mv) == wanted || raw_text(mv) == wanted
}

/// The legal move written as `uci` on `b`, in either case.
pub open spec fn parse_uci_spec(b: BoardView, uci: Seq<char>) -> Option<Move> {
    first_uci_match(b, legal_moves_spec(b), lowered(uci))
}

pub open spec fn lowered(s: Seq<char>) -> Seq<char> {
    s.map_values(|c: char| ascii_lower(c))
}

/// The first move of `s` written `wanted` in UCI on `b`.
pub open spec fn first_uci_match(b: BoardView, s: Seq<Move>, wanted: Seq<char>) -> Option<Move>
    decreases s.len(),
{
    if s.len() == 0 {
        None
    } else if uci_matches(b, wanted, s[0]) {
        Some(s[0])
    } else {
        first_uci_match(b, s.drop_first(), wanted)
    }
}

proof fn lemma_first_uci_skip(b: BoardView, s: Seq<Move>, wanted: Seq<char>, i: int)
    requires
        0 <= i < s.len(),
    ensures
        uci_matches(b, wanted, s[i]) ==> first_uci_match(b, s.skip(i), wanted) == Some(s[i]),
        !uci_matches(b, wanted, s[i]) ==> first_uci_match(b, s.skip(i), wanted) == first_uci_match(b, s.skip(i + 1), wanted),
{
    assert(s.skip(i)[0] == s[i]);
    assert(s.skip(i).drop_first() =~= s.skip(i + 1));
}

/// The legal move written as `uci` on `board`, such as `e2e4` or `e7e8q`,
/// in either case. Castling reads as `e1g1` or as cozy-chess's `e1h1`. A
/// promotion without its piece is not a move.
pub fn parse_uci(board: &Board, uci: &str) -> (mv: Option<Move>)
    requires
        board.wf(),
    ensures
        mv == parse_uci_spec(board@, uci@),
        mv matches Some(m) ==> on_board(m),
{
    let s = chars_of(uci);
    let ghost low = lowered(uci@);
    let mut wanted: Vec<char> = Vec::new();
    let mut k: usize = 0;
    while k < s.len()
        invariant
            s@ == uci@,
            k <= s.len(),
            wanted@ == low.take(k as int),
            low == lowered(uci@),
        decreases s.len() - k,
    {
        wanted.push(to_ascii_lower(s[k]));
        k = k + 1;
        proof {
            assert(wanted@ =~= low.take(k as int));
        }
    }
    proof {
        assert(wanted@ =~= low);
        assert(legal_moves_spec(board@).skip(0) =~= legal_moves_spec(board@));
    }
    let moves = legal_moves(board);
    let ghost legal = legal_moves_spec(board@);
    let mut i: usize = 0;
    while i < moves.len()
        invariant
            board.wf(),
            moves@ == legal,
            legal == legal_moves_spec(board@),
            forall|j: int| 0 <= j < moves@.len() ==> on_board(#[trigger] moves@[j]),
            wanted@ == low,
            low == lowered(uci@),
            i <= moves.len(),
            first_uci_match(board@, legal, low) == first_uci_match(board@, legal.skip(i as int), low),
        decreases moves.len() - i,
    {
        let mv = moves[i];
        let u = uci_chars(board, mv);
        let r = raw_chars(mv);
        proof {
            lemma_first_uci_skip(board@, legal, low, i as int);
        }
        if chars_eq(&u, u.len(), &wanted) || chars_eq(&r, r.len(), &wanted) {
            proof {
                assert(u@.subrange(0, u@.len() as int) =~= u@);
                assert(r@.subrange(0, r@.len() as int) =~= r@);
                assert(legal[i as int] == mv);
                assert(uci_matches(board@, low, mv));
                lemma_first_uci_skip(board@, legal, low, i as int);
                assert(first_uci_match(board@, legal, low) == Some(mv));
            }
            return Some(mv);
        }
        proof {
            assert(u@.subrange(0, u@.len() as int) =~= u@);
            assert(r@.subrange(0, r@.len() as int) =~= r@);
        }
        i = i + 1;
    }
    proof {
        assert(legal.skip(i as int).len() == 0);
    }
    None
}

/// The legal move written as `text` on `b`, in UCI or else in SAN.
pub open spec fn parse_move_spec(b: BoardView, text: Seq<char>) -> Option<Move> {
    match parse_uci_spec(b, text) {
        Some(mv) => Some(mv),
        None => parse_san_spec(b, text),
    }
}

/// The legal move written as `text` on `board`, in either notation.
pub fn parse_move(board: &Board, text: &str) -> (mv: Option<Move>)
    requires
        board.wf(),
    ensures
        mv == parse_move_spec(board@, text@),
        mv matches Some(m) ==> on_board(m),
{
    match parse_uci(board, text) {
        Some(mv) => Some(mv),
        None => parse_san(board, text),
    }
}

/// The SAN of a move that starts on a piece, without the check mark.
pub open spec fn body_of(b: BoardView, mv: Move) -> Seq<char> {
    match b.piece_on(mv.from as nat) {
        Some((_, piece)) => san_body(b, mv, piece),
        None => seq![],
    }
}

/// A character that no reader of SAN drops or rewrites.
pub open spec fn kept_char(c: char) -> bool {
    c != '+' && c != '#' && c != '!' && c != '?' && c != '0'
}

/// A character of a SAN body: a file, a rank, a piece letter, `x`, `=`,
/// or the `O` and `-` of castling.
pub open spec fn body_char(c: char) -> bool {
    ||| 'a' <= c <= 'h'
    ||| '1' <= c <= '8'
    ||| c == 'x' || c == '=' || c == 'O' || c == '-'
    ||| c == 'P' || c == 'N' || c == 'B' || c == 'R' || c == 'Q' || c == 'K'
}

proof fn lemma_file_char(f: nat)
    ensures
        'a' <= file_char(f) <= 'h',
{
}

proof fn lemma_rank_char(r: nat)
    ensures
        '1' <= rank_char(r) <= '8',
{
}

proof fn lemma_square_text(sq: nat)
    ensures
        square_text(sq).len() == 2,
        'a' <= square_text(sq)[0] <= 'h',
        '1' <= square_text(sq)[1] <= '8',
{
    lemma_file_char(file_of(sq));
    lemma_rank_char(rank_of(sq));
}

/// The body of a move's SAN is at least two characters, none of them one
/// that a reader drops or rewrites, and it ends in a digit, in `O`, or in a
/// piece letter after `=`.
pub(crate) proof fn lemma_body_shape(b: BoardView, mv: Move)
    requires
        b.piece_on(mv.from as nat) is Some,
    ensures
        body_of(b, mv).len() >= 2,
        forall|i: int| 0 <= i < body_of(b, mv).len() ==> kept_char(#[trigger] body_of(b, mv)[i]),
        forall|i: int| 0 <= i < body_of(b, mv).len() ==> body_char(#[trigger] body_of(b, mv)[i]),
        !('0' <= body_of(b, mv)[0] <= '9'),
        ({
            let t = body_of(b, mv);
            ||| '1' <= t.last() <= '8'
            ||| t.last() == 'O'
            ||| t[t.len() - 2] == '='
        }),
{
    let piece = b.piece_on(mv.from as nat).unwrap().1;
    let t = body_of(b, mv);
    lemma_square_text(mv.to as nat);
    lemma_square_text(mv.from as nat);
    lemma_file_char(file_of(mv.from as nat));
    lemma_rank_char(rank_of(mv.from as nat));
    if is_castling_spec(b, mv) {
    } else if piece == Piece::Pawn {
        let c = is_capture_spec(b, mv, piece);
        let head: Seq<char> = if c { seq![file_char(file_of(mv.from as nat)), 'x'] } else { seq![] };
        let promo: Seq<char> = match mv.promotion {
            Some(p) => seq!['=', piece_letter_spec(p)],
            None => seq![],
        };
        assert(t =~= head + square_text(mv.to as nat) + promo);
    } else {
        let c = is_capture_spec(b, mv, piece);
        let x: Seq<char> = if c { seq!['x'] } else { seq![] };
        let d = disambiguation_text(b, mv);
        assert(t =~= seq![piece_letter_spec(piece)] + d + x + square_text(mv.to as nat));
        assert(forall|i: int| 0 <= i < d.len() ==> kept_char(#[trigger] d[i]) && body_char(d[i]));
    }
}

pub(crate) proof fn lemma_trim_body(t: Seq<char>, mark: Seq<char>, glyphs: bool)
    requires
        t.len() >= 1,
        kept_char(t.last()),
        mark == Seq::<char>::empty() || mark == seq!['+'] || mark == seq!['#'],
    ensures
        trim_end(t + mark, glyphs) == t,
{
    assert(!strips(t.last(), glyphs));
    assert(trim_end(t, glyphs) == t);
    if mark.len() == 0 {
        assert(t + mark =~= t);
    } else {
        assert((t + mark).drop_last() =~= t);
        assert((t + mark).last() == mark[0]);
    }
}

/// A reader of the SAN that `san_spec` writes for a move on a piece looks
/// for its body, and the body is what matching compares.
pub(crate) proof fn lemma_wanted_body(b: BoardView, mv: Move)
    requires
        b.piece_on(mv.from as nat) is Some,
    ensures
        trim_end(san_spec(b, mv), false) == body_of(b, mv),
        wanted_san(san_spec(b, mv)) == body_of(b, mv),
{
    let t = body_of(b, mv);
    lemma_body_shape(b, mv);
    let mark = check_mark(b, mv);
    assert(san_spec(b, mv) == t + mark);
    assert(kept_char(t[t.len() - 1]));
    lemma_trim_body(t, mark, false);
    lemma_trim_body(t, mark, true);
    let u = t.map_values(|c: char| zero_to_o(c));
    assert forall|i: int| 0 <= i < t.len() implies u[i] == t[i] by {
        assert(kept_char(t[i]));
    }
    assert(u =~= t);
    if t.len() > 2 && is_promotion_letter(t.last()) {
        assert(t[t.len() - 2] == '=');
    }
}

/// What a pawn's SAN adds for its promotion.
pub open spec fn promotion_text(mv: Move) -> Seq<char> {
    match mv.promotion {
        Some(p) => seq!['=', piece_letter_spec(p)],
        None => seq![],
    }
}

proof fn lemma_square_text_injective(a: nat, c: nat)
    requires
        a < 64,
        c < 64,
        square_text(a) == square_text(c),
    ensures
        a == c,
{
    assert(square_text(a)[0] == square_text(c)[0]);
    assert(square_text(a)[1] == square_text(c)[1]);
    assert(file_of(a) == file_of(c));
    assert(rank_of(a) == rank_of(c));
}

proof fn lemma_promotion_text_injective(m: Move, n: Move)
    requires
        promotion_text(m) == promotion_text(n),
    ensures
        m.promotion == n.promotion,
{
    if m.promotion is Some {
        assert(promotion_text(m).len() == 2);
        assert(n.promotion is Some);
        let p = m.promotion.unwrap();
        let q = n.promotion.unwrap();
        assert(promotion_text(m)[1] == promotion_text(n)[1]);
        assert(piece_letter_spec(p) == piece_letter_spec(q));
        assert(p == q) by {
            match p {
                Piece::Pawn => {},
                Piece::Knight => {},
                Piece::Bishop => {},
                Piece::Rook => {},
                Piece::Queen => {},
                Piece::King => {},
            }
        }
    } else if n.promotion is Some {
        assert(promotion_text(n).len() == 2);
    }
}

/// The parts of a pawn move's SAN body.
proof fn lemma_pawn_body(b: BoardView, mv: Move)
    requires
        kind_at(b, mv.from as nat, Piece::Pawn),
    ensures
        ({
            let t = body_of(b, mv);
            if is_capture_spec(b, mv, Piece::Pawn) {
                &&& t.len() >= 4
                &&& t[0] == file_char(file_of(mv.from as nat))
                &&& t[1] == 'x'
                &&& t.subrange(2, 4) == square_text(mv.to as nat)
                &&& t.skip(4) == promotion_text(mv)
            } else {
                &&& t.len() >= 2
                &&& '1' <= t[1] <= '8'
                &&& t.subrange(0, 2) == square_text(mv.to as nat)
                &&& t.skip(2) == promotion_text(mv)
                &&& file_of(mv.from as nat) == file_of(mv.to as nat)
            }
        }),
{
    let t = body_of(b, mv);
    lemma_square_text(mv.to as nat);
    assert(!is_castling_spec(b, mv));
    if is_capture_spec(b, mv, Piece::Pawn) {
        let head: Seq<char> = seq![file_char(file_of(mv.from as nat)), 'x'];
        assert(t =~= head + square_text(mv.to as nat) + promotion_text(mv));
        assert(t.subrange(2, 4) =~= square_text(mv.to as nat));
        assert(t.skip(4) =~= promotion_text(mv));
    } else {
        assert(t =~= square_text(mv.to as nat) + promotion_text(mv));
        assert(t.subrange(0, 2) =~= square_text(mv.to as nat));
        assert(t.skip(2) =~= promotion_text(mv));
    }
}

/// The parts of the SAN body of a move of another piece than a pawn.
proof fn lemma_piece_body(b: BoardView, mv: Move, piece: Piece)
    requires
        kind_at(b, mv.from as nat, piece),
        piece != Piece::Pawn,
    ensures
        ({
            let t = body_of(b, mv);
            if is_castling_spec(b, mv) {
                &&& t[0] == 'O'
                &&& (t.len() == 3) == (file_of(mv.to as nat) > file_of(mv.from as nat))
            } else {
                let x: Seq<char> = if is_capture_spec(b, mv, piece) { seq!['x'] } else { seq![] };
                &&& t.len() >= 3
                &&& t[0] == piece_letter_spec(piece)
                &&& t.subrange(t.len() - 2, t.len() as int) == square_text(mv.to as nat)
                &&& t.subrange(1, t.len() - 2) == disambiguation_text(b, mv) + x
            }
        }),
{
    let t = body_of(b, mv);
    if !is_castling_spec(b, mv) {
        let x: Seq<char> = if is_capture_spec(b, mv, piece) { seq!['x'] } else { seq![] };
        let d = disambiguation_text(b, mv);
        assert(t =~= seq![piece_letter_spec(piece)] + d + x + square_text(mv.to as nat));
        assert(t.subrange(t.len() - 2, t.len() as int) =~= square_text(mv.to as nat));
        assert(t.subrange(1, t.len() - 2) =~= d + x);
    }
}

proof fn lemma_letter_injective(p: Piece, q: Piece)
    requires
        piece_letter_spec(p) == piece_letter_spec(q),
    ensures
        p == q,
{
    match p {
        Piece::Pawn => {},
        Piece::Knight => {},
        Piece::Bishop => {},
        Piece::Rook => {},
        Piece::Queen => {},
        Piece::King => {},
    }
}

/// Two moves of the same kind of piece (not a pawn, not castling) to the
/// same square from different squares have different disambiguations.
proof fn lemma_disambiguations_differ(b: BoardView, i: int, j: int, piece: Piece)
    requires
        chess_like(b),
        0 <= i < legal_moves_spec(b).len(),
        0 <= j < legal_moves_spec(b).len(),
        piece != Piece::Pawn,
        piece != Piece::King,
        kind_at(b, legal_moves_spec(b)[i].from as nat, piece),
        kind_at(b, legal_moves_spec(b)[j].from as nat, piece),
        legal_moves_spec(b)[i].to == legal_moves_spec(b)[j].to,
        legal_moves_spec(b)[i].from != legal_moves_spec(b)[j].from,
    ensures
        disambiguation_text(b, legal_moves_spec(b)[i]) != disambiguation_text(b, legal_moves_spec(b)[j]),
{
    let l = legal_moves_spec(b);
    let m = l[i];
    let n = l[j];
    assert(on_board(l[i]));
    assert(on_board(l[j]));
    assert(rival(b, m, piece, l[j]));
    assert(rival(b, n, piece, l[i]));
    assert(has_rival(b, m, piece));
    assert(has_rival(b, n, piece));
    let dm = disambiguation_spec(b, m);
    let dn = disambiguation_spec(b, n);
    lemma_file_char(file_of(m.from as nat));
    lemma_file_char(file_of(n.from as nat));
    lemma_rank_char(rank_of(m.from as nat));
    lemma_rank_char(rank_of(n.from as nat));
    if disambiguation_text(b, m) == disambiguation_text(b, n) {
        let tm = disambiguation_text(b, m);
        let tn = disambiguation_text(b, n);
        assert(tm[0] == tn[0]);
        assert(tm.len() == tn.len());
        if dm == Disambiguation::File {
            assert(!rival_on_file(b, m, piece));
            assert(file_of(n.from as nat) != file_of(m.from as nat));
            if dn == Disambiguation::File {
                assert(file_char(file_of(m.from as nat)) == file_char(file_of(n.from as nat)));
            }
        } else if dm == Disambiguation::Rank {
            assert(!rival_on_rank(b, m, piece));
            assert(rank_of(n.from as nat) != rank_of(m.from as nat));
            if dn == Disambiguation::Rank {
                assert(rank_char(rank_of(m.from as nat)) == rank_char(rank_of(n.from as nat)));
            }
        } else {
            assert(dm == Disambiguation::Both);
            assert(dn == Disambiguation::Both);
            lemma_square_text_injective(m.from as nat, n.from as nat);
        }
    }
}

/// Two legal moves with the same SAN body are the same move.
proof fn lemma_same_body(b: BoardView, i: int, j: int)
    requires
        chess_like(b),
        0 <= i < legal_moves_spec(b).len(),
        0 <= j < legal_moves_spec(b).len(),
        body_of(b, legal_moves_spec(b)[i]) == body_of(b, legal_moves_spec(b)[j]),
    ensures
        legal_moves_spec(b)[i] == legal_moves_spec(b)[j],
{
    let l = legal_moves_spec(b);
    let m = l[i];
    let n = l[j];
    assert(on_board(l[i]) && b.piece_on(l[i].from as nat) is Some);
    assert(on_board(l[j]) && b.piece_on(l[j].from as nat) is Some);
    let p = b.piece_on(m.from as nat).unwrap().1;
    let q = b.piece_on(n.from as nat).unwrap().1;
    assert(kind_at(b, m.from as nat, p));
    assert(kind_at(b, n.from as nat, q));
    let t = body_of(b, m);
    let u = body_of(b, n);
    lemma_file_char(file_of(m.from as nat));
    lemma_file_char(file_of(n.from as nat));
    lemma_file_char(file_of(m.to as nat));
    lemma_file_char(file_of(n.to as nat));
    if p == Piece::Pawn && q == Piece::Pawn {
        lemma_pawn_body(b, m);
        lemma_pawn_body(b, n);
        let cm = is_capture_spec(b, m, Piece::Pawn);
        let cn = is_capture_spec(b, n, Piece::Pawn);
        lemma_rank_char(rank_of(m.to as nat));
        lemma_rank_char(rank_of(n.to as nat));
        assert(t[1] == u[1]);
        if cm {
            assert(cn);
            assert(t[0] == u[0]);
            assert(file_of(m.from as nat) == file_of(n.from as nat));
            lemma_square_text_injective(m.to as nat, n.to as nat);
            lemma_promotion_text_injective(m, n);
        } else {
            assert(!cn);
            assert(t.subrange(0, 2) == u.subrange(0, 2));
            lemma_square_text_injective(m.to as nat, n.to as nat);
            assert(t.skip(2) == u.skip(2));
            lemma_promotion_text_injective(m, n);
        }
        assert(m.from == n.from);
    } else if p == Piece::Pawn || q == Piece::Pawn {
        assert(t[0] == u[0]);
        if p == Piece::Pawn {
            lemma_pawn_body(b, m);
            lemma_piece_body(b, n, q);
            lemma_square_text(m.to as nat);
            assert(false);
        } else {
            lemma_pawn_body(b, n);
            lemma_piece_body(b, m, p);
            lemma_square_text(n.to as nat);
            assert(false);
        }
    } else {
        lemma_piece_body(b, m, p);
        lemma_piece_body(b, n, q);
        assert(t[0] == u[0]);
        if is_castling_spec(b, m) || is_castling_spec(b, n) {
            assert(is_castling_spec(b, m) && is_castling_spec(b, n));
            assert(kind_at(b, m.from as nat, Piece::King));
            assert(kind_at(b, n.from as nat, Piece::King));
            assert(m.from == n.from);
            assert(m.to == n.to);
            assert(!kind_at(b, l[i].from as nat, Piece::Pawn));
            assert(!kind_at(b, l[j].from as nat, Piece::Pawn));
        } else {
            lemma_letter_injective(p, q);
            let k = t.len();
            assert(t.subrange(k - 2, k as int) == u.subrange(k - 2, k as int));
            lemma_square_text_injective(m.to as nat, n.to as nat);
            assert(!kind_at(b, l[i].from as nat, Piece::Pawn));
            assert(!kind_at(b, l[j].from as nat, Piece::Pawn));
            if m.from != n.from {
                if p == Piece::King {
                    assert(false);
                } else {
                    let x: Seq<char> = if is_capture_spec(b, m, p) { seq!['x'] } else { seq![] };
                    assert(t.subrange(1, k - 2) == u.subrange(1, k - 2));
                    let dm = disambiguation_text(b, m);
                    let dn = disambiguation_text(b, n);
                    assert(dm + x == dn + x);
                    assert(dm =~= (dm + x).subrange(0, dm.len() as int));
                    assert(dn =~= (dn + x).subrange(0, dn.len() as int));
                    lemma_disambiguations_differ(b, i, j, p);
                    assert(false);
                }
            }
        }
    }
}

proof fn lemma_reads_back_from(b: BoardView, k: int, j: int)
    requires
        chess_like(b),
        0 <= j <= k < legal_moves_spec(b).len(),
    ensures
        first_san_match(b, legal_moves_spec(b).skip(j), body_of(b, legal_moves_spec(b)[k]))
            == Some(legal_moves_spec(b)[k]),
    decreases k - j,
{
    let l = legal_moves_spec(b);
    let wanted = body_of(b, l[k]);
    assert(b.piece_on(l[j].from as nat) is Some);
    assert(b.piece_on(l[k].from as nat) is Some);
    lemma_wanted_body(b, l[j]);
    lemma_first_san_skip(b, l, wanted, j);
    if san_matches(b, wanted, l[j]) {
        lemma_same_body(b, j, k);
    } else {
        lemma_wanted_body(b, l[k]);
        assert(j != k);
        lemma_reads_back_from(b, k, j + 1);
    }
}

/// Every legal move's SAN reads back as that move, on a board whose legal
/// moves are the kind chess has. `legal_moves` shows that every
/// well-formed board's are, and states this law for each move it lists;
/// `format_move_san` states it for the move it writes.
pub proof fn law_san_reads_back(b: BoardView, mv: Move)
    requires
        chess_like(b),
        legal_moves_spec(b).contains(mv),
    ensures
        parse_san_spec(b, san_spec(b, mv)) == Some(mv),
{
    let l = legal_moves_spec(b);
    let k = choose|k: int| 0 <= k < l.len() && l[k] == mv;
    assert(b.piece_on(l[k].from as nat) is Some);
    lemma_wanted_body(b, mv);
    lemma_reads_back_from(b, k, 0);
    assert(l.skip(0) =~= l);
}

/// A reader of a SAN body looks for that body.
pub(crate) proof fn lemma_wanted_own_body(b: BoardView, mv: Move)
    requires
        b.piece_on(mv.from as nat) is Some,
    ensures
        wanted_san(body_of(b, mv)) == body_of(b, mv),
{
    let t = body_of(b, mv);
    lemma_body_shape(b, mv);
    assert(kept_char(t[t.len() - 1]));
    lemma_trim_body(t, seq![], true);
    assert(t + seq![] =~= t);
    let u = t.map_values(|c: char| zero_to_o(c));
    assert forall|i: int| 0 <= i < t.len() implies u[i] == t[i] by {
        assert(kept_char(t[i]));
    }
    assert(u =~= t);
    if t.len() > 2 && is_promotion_letter(t.last()) {
        assert(t[t.len() - 2] == '=');
    }
}

/// A legal move's SAN body, check mark aside, reads back as that move.
pub(crate) proof fn lemma_body_reads_back(b: BoardView, k: int)
    requires
        chess_like(b),
        0 <= k < legal_moves_spec(b).len(),
    ensures
        parse_san_spec(b, body_of(b, legal_moves_spec(b)[k])) == Some(legal_moves_spec(b)[k]),
{
    let l = legal_moves_spec(b);
    assert(b.piece_on(l[k].from as nat) is Some);
    lemma_wanted_own_body(b, l[k]);
    lemma_reads_back_from(b, k, 0);
    assert(l.skip(0) =~= l);
}

/// The SAN of a knight, bishop, rook or queen move names as much of its
/// origin as tells it apart from the other legal moves of the same kind of
/// piece to the same square (its rivals): nothing when there is none; the
/// file when no rival shares it; else the rank when no rival shares that;
/// else the whole square. Then comes `x` when a piece of the other side
/// stands on the target, the target square and the check mark.
pub proof fn law_san_names_what_tells_the_move_apart(b: BoardView, mv: Move, piece: Piece)
    requires
        b.piece_on(mv.from as nat) matches Some((_, p)) && p == piece,
        piece != Piece::Pawn,
        piece != Piece::King,
    ensures
        ({
            let l = legal_moves_spec(b);
            let x: Seq<char> = if b.piece_on(mv.to as nat) matches Some((c, _)) && c != b.side { seq!['x'] } else { seq![] };
            let tail = x + square_text(mv.to as nat) + check_mark(b, mv);
            &&& (forall|j: int| 0 <= j < l.len() ==> !rival(b, mv, piece, #[trigger] l[j]))
                ==> san_spec(b, mv) == seq![piece_letter_spec(piece)] + tail
            &&& ((exists|i: int| 0 <= i < l.len() && rival(b, mv, piece, #[trigger] l[i]))
                && (forall|j: int| 0 <= j < l.len() && rival(b, mv, piece, #[trigger] l[j])
                    ==> file_of(l[j].from as nat) != file_of(mv.from as nat)))
                ==> san_spec(b, mv) == seq![piece_letter_spec(piece), file_char(file_of(mv.from as nat))] + tail
            &&& ((exists|i: int| 0 <= i < l.len() && rival(b, mv, piece, #[trigger] l[i])
                    && file_of(l[i].from as nat) == file_of(mv.from as nat))
                && (forall|j: int| 0 <= j < l.len() && rival(b, mv, piece, #[trigger] l[j])
                    ==> rank_of(l[j].from as nat) != rank_of(mv.from as nat)))
                ==> san_spec(b, mv) == seq![piece_letter_spec(piece), rank_char(rank_of(mv.from as nat))] + tail
            &&& ((exists|i: int| 0 <= i < l.len() && rival(b, mv, piece, #[trigger] l[i])
                    && file_of(l[i].from as nat) == file_of(mv.from as nat))
                && (exists|i: int| 0 <= i < l.len() && rival(b, mv, piece, #[trigger] l[i])
                    && rank_of(l[i].from as nat) == rank_of(mv.from as nat)))
                ==> san_spec(b, mv) == seq![piece_letter_spec(piece)] + square_text(mv.from as nat) + tail
        }),
{
    let l = legal_moves_spec(b);
    assert(!is_castling_spec(b, mv));
    if let Some((c, _)) = b.piece_on(mv.to as nat) {
        assert(c != b.side <==> c == b.side.spec_opposite());
    }
    let x: Seq<char> = if b.piece_on(mv.to as nat) matches Some((c, _)) && c != b.side { seq!['x'] } else { seq![] };
    assert(x == (if is_capture_spec(b, mv, piece) { seq!['x'] } else { seq![] }));
    let tail = x + square_text(mv.to as nat) + check_mark(b, mv);
    let d = disambiguation_text(b, mv);
    assert(san_spec(b, mv) == seq![piece_letter_spec(piece)] + d + x + square_text(mv.to as nat) + check_mark(b, mv));
    assert(seq![piece_letter_spec(piece)] + d + x + square_text(mv.to as nat) + check_mark(b, mv)
        =~= seq![piece_letter_spec(piece)] + d + tail);
    if !has_rival(b, mv, piece) {
        assert(d =~= seq![]);
        assert(seq![piece_letter_spec(piece)] + d + tail =~= seq![piece_letter_spec(piece)] + tail);
    } else if rival_on_file(b, mv, piece) {
        if rival_on_rank(b, mv, piece) {
            assert(seq![piece_letter_spec(piece)] + d + tail =~= seq![piece_letter_spec(piece)] + square_text(mv.from as nat) + tail);
        } else {
            assert(seq![piece_letter_spec(piece)] + d + tail =~= seq![piece_letter_spec(piece), rank_char(rank_of(mv.from as nat))] + tail);
        }
    } else {
        assert(seq![piece_letter_spec(piece)] + d + tail =~= seq![piece_letter_spec(piece), file_char(file_of(mv.from as nat))] + tail);
    }
}

} // verus!
