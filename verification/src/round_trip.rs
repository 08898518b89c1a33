//! The PGN of a game reads back as that game: the movetext a game writes
//! is split into the words it wrote, the move numbers and the result fall
//! away, and each SAN finds its move again.

use vstd::prelude::*;
use crate::fen::{castling_text, cell_letter, en_passant_text, fen_of, flush, row_state, row_text, side_text, top_rows};
use crate::game::{move_entry, movetext, pgn_spec, pgn_tags, start_view, HistoryView};
use crate::cozy::{cozy_accepts, cozy_reading};
use crate::moves::{after_spec, board_of, chess_like, legal_moves_spec, on_board};
use crate::notation::{lemma_body_reads_back, body_char, body_of, check_mark, kept_char, lemma_body_shape, lemma_trim_body, san_spec, strips, trim_end};
use crate::pgn::{movetext_sans, from_pgn_spec, movetext_tokens, pgn_parts, replay, read_line, scan_lines, strip, strip_end, strip_start, stripped, without_cr, PgnParts, all_digits_or_dots, flushed, is_number_char, is_ws, last_index_of, lex, lex_step, sans_of, token_san, LexState};
use crate::text::decimal;
use crate::types::{BoardView, Color, Move};

verus! {

/// The movetext reader's state after reading `s` from `st`.
pub open spec fn lex_from(st: LexState, s: Seq<char>) -> LexState
    decreases s.len(),
{
    if s.len() == 0 {
        st
    } else {
        lex_step(lex_from(st, s.drop_last()), s.last())
    }
}

/// The reader's state at the start of a movetext.
pub open spec fn fresh() -> LexState {
    LexState { tokens: seq![], cur: seq![], depth: 0, skip: 0 }
}

proof fn lemma_lex_is_lex_from(text: Seq<char>, n: nat)
    requires
        n <= text.len(),
    ensures
        lex(text, n) == lex_from(fresh(), text.take(n as int)),
    decreases n,
{
    if n > 0 {
        lemma_lex_is_lex_from(text, (n - 1) as nat);
        assert(text.take(n as int).drop_last() =~= text.take(n - 1));
    } else {
        assert(text.take(0) =~= Seq::<char>::empty());
    }
}

proof fn lemma_lex_concat(st: LexState, a: Seq<char>, b: Seq<char>)
    ensures
        lex_from(st, a + b) == lex_from(lex_from(st, a), b),
    decreases b.len(),
{
    if b.len() == 0 {
        assert(a + b =~= a);
    } else {
        lemma_lex_concat(st, a, b.drop_last());
        assert((a + b).drop_last() =~= a + b.drop_last());
        assert((a + b).last() == b.last());
    }
}

/// A character the movetext reader keeps in a word: not whitespace, and
/// none that opens or closes a comment or a variation.
pub open spec fn word_char(c: char) -> bool {
    !is_ws(c) && c != '{' && c != '}' && c != ';' && c != '(' && c != ')'
}

pub open spec fn is_word(w: Seq<char>) -> bool {
    forall|i: int| 0 <= i < w.len() ==> word_char(#[trigger] w[i])
}

/// Outside comments and variations, the reader gathers a word as it is.
proof fn lemma_lex_word(st: LexState, w: Seq<char>)
    requires
        st.skip == 0,
        st.depth == 0,
        is_word(w),
    ensures
        lex_from(st, w) == (LexState { cur: st.cur + w, ..st }),
    decreases w.len(),
{
    if w.len() == 0 {
        assert(st.cur + w =~= st.cur);
    } else {
        lemma_lex_word(st, w.drop_last());
        assert(word_char(w.last()));
        assert((st.cur + w.drop_last()).push(w.last()) =~= st.cur + w);
        assert(lex_from(st, w) == lex_step(lex_from(st, w.drop_last()), w.last()));
    }
}

/// A word and a space after it, read from a state between words, add the
/// word to the tokens.
proof fn lemma_lex_spaced_word(st: LexState, w: Seq<char>)
    requires
        st.skip == 0,
        st.depth == 0,
        st.cur.len() == 0,
        w.len() > 0,
        is_word(w),
    ensures
        lex_from(st, w + seq![' ']) == (LexState { tokens: st.tokens.push(w), ..st }),
{
    lemma_lex_concat(st, w, seq![' ']);
    lemma_lex_word(st, w);
    assert(st.cur + w =~= w);
    let sp: Seq<char> = seq![' '];
    assert(sp.drop_last() =~= Seq::<char>::empty());
    assert(sp.last() == ' ');
    assert(is_ws(' '));
    let st1 = LexState { cur: w, ..st };
    assert(lex_from(st1, sp) == lex_step(lex_from(st1, sp.drop_last()), ' '));
    assert(lex_from(st1, sp) == flushed(st1));
    assert(st.cur =~= Seq::<char>::empty());
}

/// The words the movetext entry of the move at `index` holds: its number,
/// when it has one, and its SAN.
pub open spec fn entry_words(h: HistoryView, index: nat) -> Seq<Seq<char>> {
    let ply = index + (if h.positions[0].side == Color::Black { 1nat } else { 0nat });
    let number = ply / 2 + 1;
    if ply % 2 == 0 {
        seq![decimal(number) + seq!['.'], h.sans[index as int]]
    } else if index == 0 {
        seq![decimal(number) + seq!['.', '.', '.'], h.sans[index as int]]
    } else {
        seq![h.sans[index as int]]
    }
}

/// The words of the movetext of the first `n` moves.
pub open spec fn movetext_words(h: HistoryView, n: nat) -> Seq<Seq<char>>
    decreases n,
{
    if n == 0 { seq![] } else { movetext_words(h, (n - 1) as nat) + entry_words(h, (n - 1) as nat) }
}

proof fn lemma_decimal_digits(n: nat)
    ensures
        decimal(n).len() >= 1,
        forall|i: int| 0 <= i < decimal(n).len() ==> '0' <= #[trigger] decimal(n)[i] <= '9',
    decreases n,
{
    if n >= 10 {
        lemma_decimal_digits(n / 10);
        let s = decimal(n);
        assert forall|i: int| 0 <= i < s.len() implies '0' <= #[trigger] s[i] <= '9' by {
            if i < s.len() - 1 {
                assert(s[i] == decimal(n / 10)[i]);
            }
        }
    }
}

/// A move number with its dots is a word.
proof fn lemma_number_word(n: nat, dots: Seq<char>)
    requires
        forall|i: int| 0 <= i < dots.len() ==> dots[i] == '.',
    ensures
        is_word(decimal(n) + dots),
        (decimal(n) + dots).len() > 0,
{
    lemma_decimal_digits(n);
    let w = decimal(n) + dots;
    assert forall|i: int| 0 <= i < w.len() implies word_char(#[trigger] w[i]) by {
        if i < decimal(n).len() {
            assert(w[i] == decimal(n)[i]);
        } else {
            assert(w[i] == dots[i - decimal(n).len()]);
        }
    }
}

/// Reading a move's movetext entry adds its words to the tokens.
proof fn lemma_lex_entry(st: LexState, h: HistoryView, index: nat)
    requires
        st.skip == 0,
        st.depth == 0,
        st.cur.len() == 0,
        index < h.sans.len(),
        h.positions.len() >= 1,
        h.sans[index as int].len() > 0,
        is_word(h.sans[index as int]),
    ensures
        lex_from(st, move_entry(h, index)) == (LexState { tokens: st.tokens + entry_words(h, index), ..st }),
{
    let ply = index + (if h.positions[0].side == Color::Black { 1nat } else { 0nat });
    let number = ply / 2 + 1;
    let san = h.sans[index as int];
    reveal_strlit(". ");
    reveal_strlit("... ");
    if ply % 2 == 0 || index == 0 {
        let dots: Seq<char> = if ply % 2 == 0 { seq!['.'] } else { seq!['.', '.', '.'] };
        let num = decimal(number) + dots;
        lemma_number_word(number, dots);
        if ply % 2 == 0 {
            assert(". "@ =~= seq!['.', ' ']);
            assert(move_entry(h, index) =~= (num + seq![' ']) + (san + seq![' ']));
        } else {
            assert("... "@ =~= seq!['.', '.', '.', ' ']);
            assert(move_entry(h, index) =~= (num + seq![' ']) + (san + seq![' ']));
        }
        lemma_lex_concat(st, num + seq![' '], san + seq![' ']);
        lemma_lex_spaced_word(st, num);
        let st1 = LexState { tokens: st.tokens.push(num), ..st };
        lemma_lex_spaced_word(st1, san);
        assert(st.tokens.push(num).push(san) =~= st.tokens + entry_words(h, index));
    } else {
        assert(move_entry(h, index) =~= san + seq![' ']);
        lemma_lex_spaced_word(st, san);
        assert(st.tokens.push(san) =~= st.tokens + entry_words(h, index));
    }
}

/// Reading the movetext of the first `n` moves adds their words.
proof fn lemma_lex_movetext(st: LexState, h: HistoryView, n: nat)
    requires
        st.skip == 0,
        st.depth == 0,
        st.cur.len() == 0,
        n <= h.sans.len(),
        h.positions.len() >= 1,
        forall|k: int| 0 <= k < n ==> (#[trigger] h.sans[k]).len() > 0 && is_word(h.sans[k]),
    ensures
        lex_from(st, movetext(h, n)) == (LexState { tokens: st.tokens + movetext_words(h, n), ..st }),
    decreases n,
{
    if n == 0 {
        assert(st.tokens + movetext_words(h, 0) =~= st.tokens);
    } else {
        lemma_lex_movetext(st, h, (n - 1) as nat);
        let st1 = LexState { tokens: st.tokens + movetext_words(h, (n - 1) as nat), ..st };
        lemma_lex_concat(st, movetext(h, (n - 1) as nat), move_entry(h, (n - 1) as nat));
        assert(h.sans[n - 1].len() > 0);
        lemma_lex_entry(st1, h, (n - 1) as nat);
        assert(st.tokens + movetext_words(h, (n - 1) as nat) + entry_words(h, (n - 1) as nat)
            =~= st.tokens + movetext_words(h, n));
    }
}

/// The SANs of all of `tokens`.
pub open spec fn sans_all(tokens: Seq<Seq<char>>) -> Seq<Seq<char>> {
    sans_of(tokens, tokens.len())
}

proof fn lemma_sans_of_prefix(t: Seq<Seq<char>>, e: Seq<Seq<char>>, k: nat)
    requires
        k <= t.len(),
    ensures
        sans_of(t + e, k) == sans_of(t, k),
    decreases k,
{
    if k > 0 {
        lemma_sans_of_prefix(t, e, (k - 1) as nat);
        assert((t + e)[k - 1] == t[k - 1]);
    }
}

proof fn lemma_sans_of_concat(t: Seq<Seq<char>>, e: Seq<Seq<char>>, j: nat)
    requires
        j <= e.len(),
    ensures
        sans_of(t + e, t.len() + j) == sans_of(t, t.len()) + sans_of(e, j),
    decreases j,
{
    if j == 0 {
        lemma_sans_of_prefix(t, e, t.len());
        assert(sans_of(t, t.len()) + sans_of(e, 0) =~= sans_of(t, t.len()));
    } else {
        lemma_sans_of_concat(t, e, (j - 1) as nat);
        assert((t + e)[t.len() + j - 1] == e[j - 1]);
        let before = sans_of(t, t.len()) + sans_of(e, (j - 1) as nat);
        match token_san(e[j - 1]) {
            Some(x) => {
                assert(before.push(x) =~= sans_of(t, t.len()) + sans_of(e, (j - 1) as nat).push(x));
            },
            None => {},
        }
    }
}

/// The SANs of two runs of tokens are those of each, in order: the reader
/// keeps the order of the moves it reads.
pub proof fn law_sans_keep_their_order(t: Seq<Seq<char>>, e: Seq<Seq<char>>)
    ensures
        sans_all(t + e) == sans_all(t) + sans_all(e),
{
    lemma_sans_of_concat(t, e, e.len());
}

proof fn lemma_sans_all_concat(t: Seq<Seq<char>>, e: Seq<Seq<char>>)
    ensures
        sans_all(t + e) == sans_all(t) + sans_all(e),
{
    lemma_sans_of_concat(t, e, e.len());
}

proof fn lemma_no_dot(s: Seq<char>, c: char)
    requires
        forall|i: int| 0 <= i < s.len() ==> s[i] != c,
    ensures
        last_index_of(s, c) is None,
    decreases s.len(),
{
    if s.len() > 0 {
        lemma_no_dot(s.drop_last(), c);
    }
}

/// A move number is no move.
proof fn lemma_number_token(n: nat, dots: Seq<char>)
    requires
        dots.len() >= 1,
        forall|i: int| 0 <= i < dots.len() ==> dots[i] == '.',
    ensures
        token_san(decimal(n) + dots) is None,
{
    lemma_decimal_digits(n);
    let t = decimal(n) + dots;
    assert(t.last() == '.');
    assert(last_index_of(t, '.') == Some((t.len() - 1) as nat));
    assert forall|i: int| 0 <= i < t.len() - 1 implies is_number_char(#[trigger] t.take(t.len() - 1)[i]) by {
        if i < decimal(n).len() {
            assert(t[i] == decimal(n)[i]);
        } else {
            assert(t[i] == dots[i - decimal(n).len()]);
        }
    }
    assert(all_digits_or_dots(t.take(t.len() - 1)));
    assert(t.skip(t.len() as int) =~= Seq::<char>::empty());
}

/// A result is no move.
proof fn lemma_result_token(r: Seq<char>)
    requires
        result_text(r),
    ensures
        token_san(r) is None,
        r.len() > 0,
        is_word(r),
{
    reveal_strlit("1-0");
    reveal_strlit("0-1");
    reveal_strlit("1/2-1/2");
    reveal_strlit("*");
    lemma_no_dot(r, '.');
    assert(!strips(r.last(), true));
    assert(trim_end(r, true) == r);
}

/// One of the four results a PGN ends with.
pub open spec fn result_text(r: Seq<char>) -> bool {
    r == "1-0"@ || r == "0-1"@ || r == "1/2-1/2"@ || r == "*"@
}

/// The SAN of a move on a piece is a word, and the reader takes its body
/// from it.
proof fn lemma_san_token(b: BoardView, mv: Move)
    requires
        b.piece_on(mv.from as nat) is Some,
    ensures
        token_san(san_spec(b, mv)) == Some(body_of(b, mv)),
        san_spec(b, mv).len() > 0,
        is_word(san_spec(b, mv)),
{
    reveal_strlit("1-0");
    reveal_strlit("0-1");
    reveal_strlit("1/2-1/2");
    reveal_strlit("*");
    let t = body_of(b, mv);
    lemma_body_shape(b, mv);
    let mark = check_mark(b, mv);
    let s = san_spec(b, mv);
    assert(s == t + mark);
    assert forall|i: int| 0 <= i < s.len() implies word_char(#[trigger] s[i]) && s[i] != '.' by {
        if i < t.len() {
            assert(s[i] == t[i]);
            assert(body_char(t[i]));
        } else {
            assert(s[i] == mark[i - t.len()]);
        }
    }
    lemma_no_dot(s, '.');
    assert(kept_char(t[t.len() - 1]));
    lemma_trim_body(t, mark, true);
    assert(t[0] == s[0]);
    assert(t != "1-0"@ && t != "0-1"@ && t != "1/2-1/2"@ && t != "*"@) by {
        assert("1-0"@[0] == '1');
        assert("0-1"@[0] == '0');
        assert("1/2-1/2"@[0] == '1');
        assert("*"@[0] == '*');
    }
}

/// The SAN bodies of the first `n` moves of `h`.
pub open spec fn bodies(h: HistoryView, n: nat) -> Seq<Seq<char>>
    decreases n,
{
    if n == 0 { seq![] } else { bodies(h, (n - 1) as nat).push(body_of(h.positions[n - 1], h.moves[n - 1])) }
}

/// The moves of `h` start on pieces and its SANs are those `san_spec`
/// writes, for the first `n` moves.
pub open spec fn written(h: HistoryView, n: nat) -> bool {
    &&& n <= h.moves.len()
    &&& n <= h.sans.len()
    &&& n < h.positions.len()
    &&& forall|k: int| 0 <= k < n ==> (#[trigger] h.positions[k]).piece_on(h.moves[k].from as nat) is Some
    &&& forall|k: int| 0 <= k < n ==> #[trigger] h.sans[k] == san_spec(h.positions[k], h.moves[k])
}

proof fn lemma_sans_are_words(h: HistoryView, n: nat)
    requires
        written(h, n),
    ensures
        forall|k: int| 0 <= k < n ==> (#[trigger] h.sans[k]).len() > 0 && is_word(h.sans[k]),
{
    assert forall|k: int| 0 <= k < n implies (#[trigger] h.sans[k]).len() > 0 && is_word(h.sans[k]) by {
        assert(h.positions[k].piece_on(h.moves[k].from as nat) is Some);
        lemma_san_token(h.positions[k], h.moves[k]);
    }
}

/// The movetext's SANs are the moves' bodies.
proof fn lemma_movetext_sans(h: HistoryView, n: nat)
    requires
        written(h, n),
    ensures
        sans_all(movetext_words(h, n)) == bodies(h, n),
    decreases n,
{
    if n == 0 {
        assert(sans_all(movetext_words(h, 0)) =~= Seq::<Seq<char>>::empty());
    } else {
        let k = (n - 1) as nat;
        lemma_movetext_sans(h, k);
        lemma_sans_all_concat(movetext_words(h, k), entry_words(h, k));
        assert(h.positions[k as int].piece_on(h.moves[k as int].from as nat) is Some);
        assert(h.sans[k as int] == san_spec(h.positions[k as int], h.moves[k as int]));
        lemma_san_token(h.positions[k as int], h.moves[k as int]);
        let ply = k + (if h.positions[0].side == Color::Black { 1nat } else { 0nat });
        let number = ply / 2 + 1;
        let e = entry_words(h, k);
        let body = body_of(h.positions[k as int], h.moves[k as int]);
        if ply % 2 == 0 || k == 0 {
            let dots: Seq<char> = if ply % 2 == 0 { seq!['.'] } else { seq!['.', '.', '.'] };
            lemma_number_token(number, dots);
            assert(e[0] == decimal(number) + dots);
            assert(sans_of(e, 1) == sans_of(e, 0));
            assert(sans_all(e) == sans_of(e, 1).push(body));
            assert(sans_all(e) =~= seq![body]);
        } else {
            assert(sans_all(e) == sans_of(e, 0).push(body));
            assert(sans_all(e) =~= seq![body]);
        }
        assert(bodies(h, k) + seq![body] =~= bodies(h, n));
    }
}

/// One character of the line splitter.
pub open spec fn scan_step(acc: (PgnParts, Seq<char>), c: char) -> (PgnParts, Seq<char>) {
    if c == '\n' { (read_line(acc.0, without_cr(acc.1)), seq![]) } else { (acc.0, acc.1.push(c)) }
}

/// The line splitter's state after reading `s` from `acc`.
pub open spec fn scan_from(acc: (PgnParts, Seq<char>), s: Seq<char>) -> (PgnParts, Seq<char>)
    decreases s.len(),
{
    if s.len() == 0 { acc } else { scan_step(scan_from(acc, s.drop_last()), s.last()) }
}

pub open spec fn no_newline(s: Seq<char>) -> bool {
    forall|i: int| 0 <= i < s.len() ==> s[i] != '\n'
}

proof fn lemma_scan_is_scan_from(text: Seq<char>, n: nat)
    requires
        n <= text.len(),
    ensures
        scan_lines(text, n) == scan_from((PgnParts { fen: None, movetext: seq![] }, seq![]), text.take(n as int)),
    decreases n,
{
    if n > 0 {
        lemma_scan_is_scan_from(text, (n - 1) as nat);
        assert(text.take(n as int).drop_last() =~= text.take(n - 1));
        let (parts, line) = scan_lines(text, (n - 1) as nat);
        assert(scan_lines(text, n) == scan_step((parts, line), text[n - 1]));
    } else {
        assert(text.take(0) =~= Seq::<char>::empty());
    }
}

proof fn lemma_scan_concat(acc: (PgnParts, Seq<char>), a: Seq<char>, b: Seq<char>)
    ensures
        scan_from(acc, a + b) == scan_from(scan_from(acc, a), b),
    decreases b.len(),
{
    if b.len() == 0 {
        assert(a + b =~= a);
    } else {
        lemma_scan_concat(acc, a, b.drop_last());
        assert((a + b).drop_last() =~= a + b.drop_last());
        assert((a + b).last() == b.last());
    }
}

/// Characters of one line are gathered as they are.
proof fn lemma_scan_line(p: PgnParts, line: Seq<char>, l: Seq<char>)
    requires
        no_newline(l),
    ensures
        scan_from((p, line), l) == (p, line + l),
    decreases l.len(),
{
    if l.len() == 0 {
        assert(line + l =~= line);
    } else {
        lemma_scan_line(p, line, l.drop_last());
        assert((line + l.drop_last()).push(l.last()) =~= line + l);
    }
}

/// A line and its line feed, read from the start of a line, are read as
/// that line.
proof fn lemma_scan_full_line(p: PgnParts, l: Seq<char>)
    requires
        no_newline(l),
    ensures
        scan_from((p, seq![]), l + seq!['\n']) == (read_line(p, without_cr(l)), Seq::<char>::empty()),
{
    let e: Seq<char> = seq![];
    lemma_scan_concat((p, e), l, seq!['\n']);
    lemma_scan_line(p, e, l);
    assert(e + l =~= l);
    let nl: Seq<char> = seq!['\n'];
    assert(nl.drop_last() =~= Seq::<char>::empty());
    assert(nl.last() == '\n');
    assert(scan_from((p, l), nl) == scan_step(scan_from((p, l), nl.drop_last()), '\n'));
    assert(scan_from((p, l), nl.drop_last()) == (p, l));
}

/// A text that begins and ends on other characters than whitespace is its
/// own trimmed form.
proof fn lemma_strip_plain(s: Seq<char>)
    requires
        s.len() > 0,
        !is_ws(s[0]),
        !is_ws(s.last()),
    ensures
        strip(s, false) == s,
{
    assert(!stripped(s.last(), false));
    assert(strip_end(s, false) == s);
    assert(!stripped(s[0], false));
    assert(strip_start(s, false) == s);
}

/// A tag line that is not the FEN tag leaves what was read as it was.
proof fn lemma_other_tag(p: PgnParts, l: Seq<char>)
    requires
        l.len() >= 3,
        no_newline(l),
        l[0] == '[',
        l.last() == ']',
        l[1] != 'F',
    ensures
        scan_from((p, seq![]), l + seq!['\n']) == (p, Seq::<char>::empty()),
{
    lemma_scan_full_line(p, l);
    assert(without_cr(l) == l);
    lemma_strip_plain(l);
    reveal_strlit("FEN ");
    let tag = l.subrange(1, l.len() - 1);
    assert(tag[0] == l[1]);
    if tag.len() >= 4 {
        assert(tag.take(4)[0] != "FEN "@[0]);
    }
}

/// Where the line splitter starts.
pub open spec fn nothing_read() -> PgnParts {
    PgnParts { fen: None, movetext: seq![] }
}

proof fn lemma_tag_line(p: PgnParts, head: Seq<char>, value: Seq<char>, tail: Seq<char>)
    requires
        head.len() >= 2,
        head[0] == '[',
        head[1] != 'F',
        no_newline(head),
        no_newline(value),
        tail == seq!['"', ']'],
    ensures
        scan_from((p, seq![]), head + value + tail + seq!['\n']) == (p, Seq::<char>::empty()),
{
    let l = head + value + tail;
    assert(l[0] == '[');
    assert(l[1] == head[1]);
    assert(l.last() == ']');
    assert forall|i: int| 0 <= i < l.len() implies l[i] != '\n' by {
        if i < head.len() {
            assert(l[i] == head[i]);
        } else if i < head.len() + value.len() {
            assert(l[i] == value[i - head.len()]);
        } else {
            assert(l[i] == tail[i - head.len() - value.len()]);
        }
    }
    lemma_other_tag(p, l);
}

/// The seven-tag roster of a PGN.
pub open spec fn roster(white: Seq<char>, black: Seq<char>, date: Seq<char>, result: Seq<char>) -> Seq<char> {
    "[Event \"?\"]\n[Site \"?\"]\n[Date \""@ + date + "\"]\n[Round \"?\"]\n[White \""@ + white
        + "\"]\n[Black \""@ + black + "\"]\n[Result \""@ + result + "\"]\n"@
}

/// The seven-tag roster leaves nothing read.
proof fn lemma_scan_tags(white: Seq<char>, black: Seq<char>, date: Seq<char>, result: Seq<char>)
    requires
        no_newline(white),
        no_newline(black),
        no_newline(date),
        no_newline(result),
    ensures
        scan_from((nothing_read(), seq![]), roster(white, black, date, result)) == (nothing_read(), Seq::<char>::empty()),
{
    reveal_strlit("[Event \"?\"]\n[Site \"?\"]\n[Date \"");
    reveal_strlit("\"]\n[Round \"?\"]\n[White \"");
    reveal_strlit("\"]\n[Black \"");
    reveal_strlit("\"]\n[Result \"");
    reveal_strlit("\"]\n");
    let p = nothing_read();
    let e: Seq<char> = seq![];
    let q: Seq<char> = seq!['?'];
    let tail: Seq<char> = seq!['"', ']'];
    let nl: Seq<char> = seq!['\n'];
    let h1: Seq<char> = seq!['[', 'E', 'v', 'e', 'n', 't', ' ', '"'];
    let h2: Seq<char> = seq!['[', 'S', 'i', 't', 'e', ' ', '"'];
    let h3: Seq<char> = seq!['[', 'D', 'a', 't', 'e', ' ', '"'];
    let h4: Seq<char> = seq!['[', 'R', 'o', 'u', 'n', 'd', ' ', '"'];
    let h5: Seq<char> = seq!['[', 'W', 'h', 'i', 't', 'e', ' ', '"'];
    let h6: Seq<char> = seq!['[', 'B', 'l', 'a', 'c', 'k', ' ', '"'];
    let h7: Seq<char> = seq!['[', 'R', 'e', 's', 'u', 'l', 't', ' ', '"'];
    let l1 = h1 + q + tail + nl;
    let l2 = h2 + q + tail + nl;
    let l3 = h3 + date + tail + nl;
    let l4 = h4 + q + tail + nl;
    let l5 = h5 + white + tail + nl;
    let l6 = h6 + black + tail + nl;
    let l7 = h7 + result + tail + nl;
    assert(roster(white, black, date, result) =~= l1 + l2 + l3 + l4 + l5 + l6 + l7);
    assert(no_newline(q));
    lemma_tag_line(p, h1, q, tail);
    lemma_tag_line(p, h2, q, tail);
    lemma_tag_line(p, h3, date, tail);
    lemma_tag_line(p, h4, q, tail);
    lemma_tag_line(p, h5, white, tail);
    lemma_tag_line(p, h6, black, tail);
    lemma_tag_line(p, h7, result, tail);
    lemma_scan_concat((p, e), l1, l2);
    lemma_scan_concat((p, e), l1 + l2, l3);
    lemma_scan_concat((p, e), l1 + l2 + l3, l4);
    lemma_scan_concat((p, e), l1 + l2 + l3 + l4, l5);
    lemma_scan_concat((p, e), l1 + l2 + l3 + l4 + l5, l6);
    lemma_scan_concat((p, e), l1 + l2 + l3 + l4 + l5 + l6, l7);
}

proof fn lemma_movetext_shape(h: HistoryView, n: nat)
    requires
        n <= h.sans.len(),
        h.positions.len() >= 1,
        forall|k: int| 0 <= k < n ==> (#[trigger] h.sans[k]).len() > 0 && is_word(h.sans[k]),
    ensures
        no_newline(movetext(h, n)),
        n > 0 ==> movetext(h, n).len() > 0 && '0' <= movetext(h, n)[0] <= '9',
    decreases n,
{
    if n > 0 {
        let k = (n - 1) as nat;
        lemma_movetext_shape(h, k);
        let ply = k + (if h.positions[0].side == Color::Black { 1nat } else { 0nat });
        let number = ply / 2 + 1;
        let san = h.sans[k as int];
        assert(san.len() > 0 && is_word(san));
        reveal_strlit(". ");
        reveal_strlit("... ");
        let e = move_entry(h, k);
        let pre: Seq<char> = if ply % 2 == 0 {
            decimal(number) + ". "@
        } else if k == 0 {
            decimal(number) + "... "@
        } else {
            seq![]
        };
        assert(e == pre + san + seq![' ']);
        lemma_decimal_digits(number);
        assert(no_newline(pre)) by {
            assert forall|i: int| 0 <= i < pre.len() implies pre[i] != '\n' by {
                if ply % 2 == 0 || k == 0 {
                    if i < decimal(number).len() {
                        assert(pre[i] == decimal(number)[i]);
                    }
                }
            }
        }
        assert forall|i: int| 0 <= i < e.len() implies e[i] != '\n' by {
            if i < pre.len() {
                assert(e[i] == pre[i]);
            } else if i < pre.len() + san.len() {
                assert(e[i] == san[i - pre.len()]);
                assert(word_char(san[i - pre.len()]));
            }
        }
        let m = movetext(h, n);
        assert(m == movetext(h, k) + e);
        assert forall|i: int| 0 <= i < m.len() implies m[i] != '\n' by {
            if i < movetext(h, k).len() {
                assert(m[i] == movetext(h, k)[i]);
            } else {
                assert(m[i] == e[i - movetext(h, k).len()]);
            }
        }
        if k == 0 {
            assert(movetext(h, 0) =~= Seq::<char>::empty());
            assert(m[0] == e[0]);
            assert(e[0] == decimal(number)[0]);
        } else {
            assert(m[0] == movetext(h, k)[0]);
        }
    }
}

/// What the PGN reader gathers from the PGN of a game: a FEN tag unless the
/// start has the initial setup, and its movetext line between two line
/// feeds.
proof fn lemma_pgn_parts(h: HistoryView, white: Seq<char>, black: Seq<char>, date: Seq<char>, result: Seq<char>)
    requires
        h.positions.len() >= 1,
        no_newline(white),
        no_newline(black),
        no_newline(date),
        result_text(result),
        h.current <= h.sans.len(),
        forall|k: int| 0 <= k < h.current ==> (#[trigger] h.sans[k]).len() > 0 && is_word(h.sans[k]),
    ensures
        pgn_parts(pgn_spec(h, white, black, date, result)) == (PgnParts {
            fen: if h.positions[0].same_setup(start_view()) { None } else { Some(fen_of(h.positions[0])) },
            movetext: seq!['\n'] + movetext(h, h.current) + result + seq!['\n'],
        }),
{
    reveal_strlit("1-0");
    reveal_strlit("0-1");
    reveal_strlit("1/2-1/2");
    reveal_strlit("*");
    let text = pgn_spec(h, white, black, date, result);
    let tags = pgn_tags(h, white, black, date, result);
    let seven = roster(white, black, date, result);
    let fen = fen_of(h.positions[0]);
    let setup: Seq<char> = if !h.positions[0].same_setup(start_view()) { "[SetUp \"1\"]\n[FEN \""@ + fen + "\"]\n"@ } else { seq![] };
    assert(tags == seven + setup);
    let nl: Seq<char> = seq!['\n'];
    let last = movetext(h, h.current) + result;
    let p = nothing_read();
    let e: Seq<char> = seq![];
    let p0 = PgnParts { fen: if h.positions[0].same_setup(start_view()) { None } else { Some(fen) }, movetext: seq![] };
    assert(text =~= seven + setup + nl + last);
    assert(no_newline(result));
    lemma_scan_tags(white, black, date, result);
    if !h.positions[0].same_setup(start_view()) {
        lemma_fen_quote_free(h.positions[0]);
        lemma_scan_setup(p, fen);
    } else {
        assert(setup + nl =~= nl);
    }
    assert(scan_from((p, e), setup) == (p0, e));
    lemma_scan_concat((p, e), seven, setup);
    lemma_movetext_shape(h, h.current);
    assert(no_newline(last)) by {
        assert forall|i: int| 0 <= i < last.len() implies last[i] != '\n' by {
            if i < movetext(h, h.current).len() {
                assert(last[i] == movetext(h, h.current)[i]);
            } else {
                assert(last[i] == result[i - movetext(h, h.current).len()]);
            }
        }
    }
    lemma_scan_full_line(p0, e);
    assert(e + nl =~= nl);
    assert(without_cr(e) == e);
    assert(strip_end(e, false) == e);
    assert(strip_start(e, false) == e);
    let p1 = PgnParts { movetext: nl, ..p0 };
    assert(read_line(p0, e) == p1) by {
        assert(p0.movetext + e + nl =~= nl);
    }
    lemma_scan_line(p1, e, last);
    lemma_scan_concat((p, e), seven + setup, nl);
    lemma_scan_concat((p, e), seven + setup + nl, last);
    lemma_scan_is_scan_from(text, text.len());
    assert(text.take(text.len() as int) =~= text);
    assert(e + last =~= last);
    assert(last.len() > 0);
    assert(last.last() == result.last());
    assert(!is_ws(last[0]) && last[0] != '[') by {
        if h.current == 0 {
            assert(movetext(h, 0) =~= Seq::<char>::empty());
            assert(last[0] == result[0]);
        } else {
            assert(last[0] == movetext(h, h.current)[0]);
        }
    }
    lemma_strip_plain(last);
    assert(p1.movetext + last + nl =~= seq!['\n'] + movetext(h, h.current) + result + seq!['\n']);
}

/// The words of the movetext line are the moves' words and the result.
proof fn lemma_movetext_tokens(h: HistoryView, result: Seq<char>)
    requires
        h.positions.len() >= 1,
        result_text(result),
        h.current <= h.sans.len(),
        forall|k: int| 0 <= k < h.current ==> (#[trigger] h.sans[k]).len() > 0 && is_word(h.sans[k]),
    ensures
        movetext_tokens(seq!['\n'] + movetext(h, h.current) + result + seq!['\n'])
            == movetext_words(h, h.current).push(result),
{
    let nl: Seq<char> = seq!['\n'];
    let m = movetext(h, h.current);
    let text = nl + m + result + nl;
    lemma_result_token(result);
    lemma_lex_is_lex_from(text, text.len());
    assert(text.take(text.len() as int) =~= text);
    let st0 = fresh();
    assert(nl.drop_last() =~= Seq::<char>::empty());
    assert(is_ws('\n'));
    assert(nl.last() == '\n');
    assert(lex_from(st0, nl.drop_last()) == st0);
    assert(lex_from(st0, nl) == lex_step(st0, '\n'));
    assert(lex_from(st0, nl) == st0);
    lemma_lex_movetext(st0, h, h.current);
    let st1 = LexState { tokens: st0.tokens + movetext_words(h, h.current), ..st0 };
    assert(st0.tokens + movetext_words(h, h.current) =~= movetext_words(h, h.current));
    lemma_lex_word(st1, result);
    let st2 = LexState { cur: st1.cur + result, ..st1 };
    assert(st1.cur + result =~= result);
    assert(lex_from(st2, nl.drop_last()) == st2);
    assert(lex_from(st2, nl) == lex_step(st2, '\n'));
    lemma_lex_concat(st0, nl, m);
    lemma_lex_concat(st0, nl + m, result);
    lemma_lex_concat(st0, nl + m + result, nl);
}

/// The game up to its `n`th move: the history a reader builds by playing
/// those moves from the start.
pub open spec fn prefix(h: HistoryView, n: nat) -> HistoryView {
    HistoryView {
        positions: h.positions.take(n + 1 as int),
        moves: h.moves.take(n as int),
        sans: h.sans.take(n as int),
        current: n,
    }
}

proof fn lemma_bodies_index(h: HistoryView, n: nat)
    ensures
        bodies(h, n).len() == n,
        forall|k: int| 0 <= k < n ==> #[trigger] bodies(h, n)[k] == body_of(h.positions[k], h.moves[k]),
    decreases n,
{
    if n > 0 {
        lemma_bodies_index(h, (n - 1) as nat);
    }
}

/// The moves of `h` up to `n` are legal moves of chess-like positions, each
/// leading to the next position, with the SANs `san_spec` writes.
pub open spec fn played_legally(h: HistoryView, n: nat) -> bool {
    &&& n < h.positions.len()
    &&& n <= h.moves.len()
    &&& n <= h.sans.len()
    &&& forall|k: int| 0 <= k < n ==> chess_like(#[trigger] h.positions[k])
    &&& forall|k: int| 0 <= k < n ==> legal_moves_spec(h.positions[k]).contains(#[trigger] h.moves[k])
    &&& forall|k: int| 0 <= k < n ==> on_board(#[trigger] h.moves[k])
    &&& forall|k: int| 0 <= k < n ==> after_spec(h.positions[k], #[trigger] h.moves[k]) == Some(h.positions[k + 1])
    &&& forall|k: int| 0 <= k < n ==> #[trigger] h.sans[k] == san_spec(h.positions[k], h.moves[k])
}

proof fn lemma_played_is_written(h: HistoryView, n: nat)
    requires
        played_legally(h, n),
    ensures
        written(h, n),
{
    assert forall|k: int| 0 <= k < n implies (#[trigger] h.positions[k]).piece_on(h.moves[k].from as nat) is Some by {
        let b = h.positions[k];
        assert(chess_like(b));
        let l = legal_moves_spec(b);
        assert(l.contains(h.moves[k]));
        let i = choose|i: int| 0 <= i < l.len() && l[i] == h.moves[k];
        assert(on_board(l[i]) && b.piece_on(l[i].from as nat) is Some);
    }
}

/// Replaying the bodies of the first `n` moves from the start gives the
/// game up to its `n`th move.
proof fn lemma_replay_prefix(h: HistoryView, n: nat, total: nat)
    requires
        n <= total,
        played_legally(h, total),
    ensures
        replay(prefix(h, 0), bodies(h, total), n) == Ok::<HistoryView, (nat, Seq<char>)>(prefix(h, n)),
    decreases n,
{
    if n > 0 {
        let k = (n - 1) as nat;
        lemma_replay_prefix(h, k, total);
        lemma_bodies_index(h, total);
        let b = h.positions[k as int];
        let mv = h.moves[k as int];
        assert(chess_like(b));
        let l = legal_moves_spec(b);
        assert(l.contains(mv));
        let i = choose|i: int| 0 <= i < l.len() && l[i] == mv;
        lemma_body_reads_back(b, i);
        assert(bodies(h, total)[k as int] == body_of(b, mv));
        assert(prefix(h, k).current_board() == b);
        assert(on_board(mv));
        assert(after_spec(b, mv) == Some(h.positions[k + 1 as int]));
        assert(h.sans[k as int] == san_spec(b, mv));
        let next = prefix(h, k).make_move(mv);
        assert(next.positions =~= h.positions.take(n + 1 as int));
        assert(next.moves =~= h.moves.take(n as int));
        assert(next.sans =~= h.sans.take(n as int));
        assert(next == prefix(h, n));
    }
}

/// The start of `h` is one its PGN gives back: the initial position, which
/// gets no FEN tag, or a position set up otherwise that cozy-chess reads
/// back from its FEN. (The initial placement with other clocks gets no FEN
/// tag either, and reads back with the clocks of the initial position.)
pub open spec fn start_read_back(h: HistoryView) -> bool {
    ||| h.positions[0] == start_view()
    ||| (!h.positions[0].same_setup(start_view()) && cozy_accepts(fen_of(h.positions[0]))
        && board_of(cozy_reading(fen_of(h.positions[0]))) == h.positions[0])
}

/// The PGN of a game reads back as that game, up to the position on the
/// board: the same start, positions, moves and SANs, with that position
/// current. `GameHistory::pgn_with` states it with no condition but on the
/// tag values.
pub proof fn law_pgn_reads_back(h: HistoryView, white: Seq<char>, black: Seq<char>, date: Seq<char>, result: Seq<char>)
    requires
        h.wf(),
        start_read_back(h),
        forall|k: int| 0 <= k < h.current ==> chess_like(#[trigger] h.positions[k]),
        no_newline(white),
        no_newline(black),
        no_newline(date),
        result_text(result),
    ensures
        from_pgn_spec(pgn_spec(h, white, black, date, result)) == Ok::<HistoryView, Option<(nat, Seq<char>)>>(prefix(h, h.current)),
        prefix(h, h.current).current_board() == h.current_board(),
{
    assert(played_legally(h, h.current)) by {
        reveal(HistoryView::linked);
        assert forall|k: int| 0 <= k < h.current implies after_spec(h.positions[k], #[trigger] h.moves[k])
            == Some(h.positions[k + 1]) && legal_moves_spec(h.positions[k]).contains(h.moves[k])
            && h.sans[k] == san_spec(h.positions[k], h.moves[k]) by {
            assert(0 <= k < h.moves.len());
        }
    }
    lemma_played_is_written(h, h.current);
    lemma_sans_are_words(h, h.current);
    lemma_pgn_parts(h, white, black, date, result);
    lemma_movetext_tokens(h, result);
    let words = movetext_words(h, h.current);
    lemma_movetext_sans(h, h.current);
    lemma_result_token(result);
    lemma_sans_all_concat(words, seq![result]);
    assert(words.push(result) =~= words + seq![result]);
    let one: Seq<Seq<char>> = seq![result];
    assert(sans_all(one) == sans_of(one, 0));
    assert(sans_all(one) =~= Seq::<Seq<char>>::empty());
    assert(bodies(h, h.current) + Seq::<Seq<char>>::empty() =~= bodies(h, h.current));
    lemma_bodies_index(h, h.current);
    assert(prefix(h, 0) =~= HistoryView::starting(h.positions[0])) by {
        assert(h.positions.take(1) =~= seq![h.positions[0]]);
        assert(h.moves.take(0) =~= Seq::<Move>::empty());
        assert(h.sans.take(0) =~= Seq::<Seq<char>>::empty());
    }
    lemma_replay_prefix(h, h.current, h.current);
}

/// No double quote and no line feed in `s`.
pub open spec fn quote_free(s: Seq<char>) -> bool {
    forall|i: int| 0 <= i < s.len() ==> s[i] != '"' && s[i] != '\n'
}

proof fn lemma_quote_free_concat(a: Seq<char>, b: Seq<char>)
    requires
        quote_free(a),
        quote_free(b),
    ensures
        quote_free(a + b),
{
    assert forall|i: int| 0 <= i < (a + b).len() implies (a + b)[i] != '"' && (a + b)[i] != '\n' by {
        if i < a.len() {
            assert((a + b)[i] == a[i]);
        } else {
            assert((a + b)[i] == b[i - a.len()]);
        }
    }
}

proof fn lemma_row_state_quote_free(cells: Seq<u8>, r: nat, f: nat)
    ensures
        quote_free(row_state(cells, r, f).0),
    decreases f,
{
    if f > 0 {
        lemma_row_state_quote_free(cells, r, (f - 1) as nat);
        let (text, empty) = row_state(cells, r, (f - 1) as nat);
        let code = cells[(r * 8 + f - 1) as int];
        if code != 0 {
            lemma_quote_free_concat(text, flush(empty));
            lemma_quote_free_concat(text + flush(empty), seq![cell_letter(code as nat)]);
        }
    }
}

proof fn lemma_top_rows_quote_free(cells: Seq<u8>, n: nat)
    ensures
        quote_free(top_rows(cells, n)),
    decreases n,
{
    lemma_row_state_quote_free(cells, 7, 8);
    lemma_quote_free_concat(row_state(cells, 7, 8).0, flush(row_state(cells, 7, 8).1));
    if n > 1 {
        lemma_top_rows_quote_free(cells, (n - 1) as nat);
        let r = (8 - n) as nat;
        lemma_row_state_quote_free(cells, r, 8);
        lemma_quote_free_concat(row_state(cells, r, 8).0, flush(row_state(cells, r, 8).1));
        lemma_quote_free_concat(top_rows(cells, (n - 1) as nat), seq!['/']);
        lemma_quote_free_concat(top_rows(cells, (n - 1) as nat) + seq!['/'], row_text(cells, r));
    }
}

/// A FEN holds no double quote and no line feed, and ends in a digit.
proof fn lemma_fen_quote_free(b: BoardView)
    ensures
        quote_free(fen_of(b)),
        fen_of(b).len() > 0,
        '0' <= fen_of(b).last() <= '9',
{
    let sp: Seq<char> = seq![' '];
    lemma_top_rows_quote_free(b.cells, 8);
    lemma_decimal_digits(b.halfmove as nat);
    lemma_decimal_digits(b.fullmove as nat);
    let h = decimal(b.halfmove as nat);
    let f = decimal(b.fullmove as nat);
    assert(quote_free(h) && quote_free(f));
    assert(quote_free(side_text(b.side)));
    assert(quote_free(castling_text(b)));
    assert(quote_free(en_passant_text(b)));
    let parts = top_rows(b.cells, 8) + sp + side_text(b.side) + sp + castling_text(b) + sp
        + en_passant_text(b) + sp + h + sp + f;
    assert(fen_of(b) == parts);
    lemma_quote_free_concat(top_rows(b.cells, 8), sp);
    lemma_quote_free_concat(top_rows(b.cells, 8) + sp, side_text(b.side));
    lemma_quote_free_concat(top_rows(b.cells, 8) + sp + side_text(b.side), sp);
    lemma_quote_free_concat(top_rows(b.cells, 8) + sp + side_text(b.side) + sp, castling_text(b));
    lemma_quote_free_concat(top_rows(b.cells, 8) + sp + side_text(b.side) + sp + castling_text(b), sp);
    lemma_quote_free_concat(top_rows(b.cells, 8) + sp + side_text(b.side) + sp + castling_text(b) + sp, en_passant_text(b));
    lemma_quote_free_concat(top_rows(b.cells, 8) + sp + side_text(b.side) + sp + castling_text(b) + sp
        + en_passant_text(b), sp);
    lemma_quote_free_concat(top_rows(b.cells, 8) + sp + side_text(b.side) + sp + castling_text(b) + sp
        + en_passant_text(b) + sp, h);
    lemma_quote_free_concat(top_rows(b.cells, 8) + sp + side_text(b.side) + sp + castling_text(b) + sp
        + en_passant_text(b) + sp + h, sp);
    lemma_quote_free_concat(top_rows(b.cells, 8) + sp + side_text(b.side) + sp + castling_text(b) + sp
        + en_passant_text(b) + sp + h + sp, f);
    assert(fen_of(b).last() == f.last());
}

/// The set-up tags of a game that did not start from the initial position
/// give the reader its FEN.
proof fn lemma_scan_setup(p: PgnParts, fen: Seq<char>)
    requires
        quote_free(fen),
        fen.len() > 0,
    ensures
        scan_from((p, seq![]), "[SetUp \"1\"]\n[FEN \""@ + fen + "\"]\n"@)
            == (PgnParts { fen: Some(fen), ..p }, Seq::<char>::empty()),
{
    reveal_strlit("[SetUp \"1\"]\n[FEN \"");
    reveal_strlit("\"]\n");
    reveal_strlit("FEN ");
    let e: Seq<char> = seq![];
    let q: Seq<char> = seq!['"'];
    let nl: Seq<char> = seq!['\n'];
    let tail: Seq<char> = seq!['"', ']'];
    let h8: Seq<char> = seq!['[', 'S', 'e', 't', 'U', 'p', ' ', '"'];
    let one: Seq<char> = seq!['1'];
    let l1 = h8 + one + tail + nl;
    let head: Seq<char> = seq!['[', 'F', 'E', 'N', ' ', '"'];
    let l2 = head + fen + tail;
    assert("[SetUp \"1\"]\n[FEN \""@ + fen + "\"]\n"@ =~= l1 + (l2 + nl));
    assert(no_newline(one));
    lemma_tag_line(p, h8, one, tail);
    assert(no_newline(l2)) by {
        assert forall|i: int| 0 <= i < l2.len() implies l2[i] != '\n' by {
            if head.len() <= i < head.len() + fen.len() {
                assert(l2[i] == fen[i - head.len()]);
            }
        }
    }
    lemma_scan_full_line(p, l2);
    assert(l2.last() == ']');
    assert(without_cr(l2) == l2);
    lemma_strip_plain(l2);
    let tag = l2.subrange(1, l2.len() - 1);
    assert(tag =~= seq!['F', 'E', 'N', ' '] + (q + fen + q));
    assert(tag.take(4) =~= "FEN "@);
    let inner = q + fen + q;
    assert(tag.skip(4) =~= inner);
    lemma_strip_plain(inner);
    assert(fen[0] != '"' && fen.last() != '"');
    assert(inner.drop_last() =~= q + fen);
    assert(!stripped((q + fen).last(), true));
    assert(strip_end(q + fen, true) == q + fen);
    assert(strip_end(inner, true) == q + fen);
    assert((q + fen).drop_first() =~= fen);
    assert(strip_start(fen, true) == fen);
    assert(strip_start(q + fen, true) == fen);
    assert(strip(inner, true) == fen);
    lemma_scan_concat((p, e), l1, l2 + nl);
}


/// A character the movetext reader keeps in a token: not whitespace, and
/// none that opens a comment or a variation or closes a variation.
pub open spec fn token_char(c: char) -> bool {
    !is_ws(c) && c != '{' && c != ';' && c != '(' && c != ')'
}

pub open spec fn is_token(w: Seq<char>) -> bool {
    forall|i: int| 0 <= i < w.len() ==> token_char(#[trigger] w[i])
}

/// A SAN as the movetext reader hands it on: not empty, with no whitespace
/// and no comment or variation mark, no `$` glyph, no result, and no check
/// mark or annotation glyph at its end.
pub open spec fn clean_san(san: Seq<char>) -> bool {
    &&& san.len() > 0
    &&& is_token(san)
    &&& san[0] != '$'
    &&& !result_text(san)
    &&& !strips(san.last(), true)
}

proof fn lemma_lex_words(text: Seq<char>, n: nat)
    requires
        n <= text.len(),
    ensures
        forall|k: int| 0 <= k < lex(text, n).tokens.len() ==> is_token(#[trigger] lex(text, n).tokens[k]),
        is_token(lex(text, n).cur),
    decreases n,
{
    if n > 0 {
        lemma_lex_words(text, (n - 1) as nat);
        let st = lex(text, (n - 1) as nat);
        let c = text[n - 1];
        let f = flushed(st);
        assert forall|k: int| 0 <= k < f.tokens.len() implies is_token(#[trigger] f.tokens[k]) by {
            if k < st.tokens.len() {
                assert(f.tokens[k] == st.tokens[k]);
            }
        }
        if st.skip == 0 && c != '{' && c != ';' && c != '(' && c != ')' && !is_ws(c) && st.depth == 0 {
            assert(token_char(c));
            assert forall|i: int| 0 <= i < st.cur.push(c).len() implies token_char(#[trigger] st.cur.push(c)[i]) by {
                if i < st.cur.len() {
                    assert(st.cur.push(c)[i] == st.cur[i]);
                }
            }
        }
        assert(is_token(Seq::<char>::empty()));
    }
}

proof fn lemma_trim_end_prefix(s: Seq<char>, glyphs: bool)
    ensures
        trim_end(s, glyphs).len() <= s.len(),
        trim_end(s, glyphs) == s.take(trim_end(s, glyphs).len() as int),
        trim_end(s, glyphs).len() > 0 ==> !strips(trim_end(s, glyphs).last(), glyphs),
    decreases s.len(),
{
    if s.len() > 0 && strips(s.last(), glyphs) {
        lemma_trim_end_prefix(s.drop_last(), glyphs);
        let t = trim_end(s.drop_last(), glyphs);
        assert(s.drop_last().take(t.len() as int) =~= s.take(t.len() as int));
    } else {
        assert(s.take(s.len() as int) =~= s);
    }
}

proof fn lemma_token_san_clean(t: Seq<char>)
    requires
        is_token(t),
    ensures
        token_san(t) matches Some(san) ==> clean_san(san),
{
    reveal_strlit("1-0");
    reveal_strlit("0-1");
    reveal_strlit("1/2-1/2");
    reveal_strlit("*");
    let base = match last_index_of(t, '.') {
        Some(d) => if all_digits_or_dots(t.take(d as int)) { t.skip((d + 1) as int) } else { t },
        None => t,
    };
    lemma_last_index_of_bound(t, '.');
    assert(is_token(base)) by {
        assert forall|i: int| 0 <= i < base.len() implies token_char(#[trigger] base[i]) by {
            match last_index_of(t, '.') {
                Some(d) => if all_digits_or_dots(t.take(d as int)) {
                    assert(base[i] == t[i + d + 1]);
                },
                None => {},
            }
        }
    }
    lemma_trim_end_prefix(base, true);
    let san = trim_end(base, true);
    assert forall|i: int| 0 <= i < san.len() implies token_char(#[trigger] san[i]) by {
        assert(san[i] == base.take(san.len() as int)[i]);
    }
}

proof fn lemma_last_index_of_bound(s: Seq<char>, c: char)
    ensures
        last_index_of(s, c) matches Some(i) ==> i < s.len(),
    decreases s.len(),
{
    if s.len() > 0 && s.last() != c {
        lemma_last_index_of_bound(s.drop_last(), c);
    }
}

proof fn lemma_sans_of_clean(tokens: Seq<Seq<char>>, n: nat)
    requires
        n <= tokens.len(),
        forall|k: int| 0 <= k < tokens.len() ==> is_token(#[trigger] tokens[k]),
    ensures
        forall|k: int| 0 <= k < sans_of(tokens, n).len() ==> clean_san(#[trigger] sans_of(tokens, n)[k]),
    decreases n,
{
    if n > 0 {
        lemma_sans_of_clean(tokens, (n - 1) as nat);
        lemma_token_san_clean(tokens[n - 1]);
        let before = sans_of(tokens, (n - 1) as nat);
        match token_san(tokens[n - 1]) {
            Some(san) => {
                assert forall|k: int| 0 <= k < before.push(san).len() implies clean_san(#[trigger] before.push(san)[k]) by {
                    if k < before.len() {
                        assert(before.push(san)[k] == before[k]);
                    }
                }
            },
            None => {},
        }
    }
}

/// Every SAN the movetext reader hands on is clean: not empty, no
/// whitespace, comment or variation mark, no `$` glyph, no result, no mark
/// or glyph at its end.
pub proof fn law_movetext_sans_are_clean(text: Seq<char>)
    ensures
        forall|k: int| 0 <= k < movetext_sans(text).len() ==> clean_san(#[trigger] movetext_sans(text)[k]),
{
    lemma_lex_words(text, text.len());
    let st = lex(text, text.len());
    let f = flushed(st);
    assert forall|k: int| 0 <= k < f.tokens.len() implies is_token(#[trigger] f.tokens[k]) by {
        if k < st.tokens.len() {
            assert(f.tokens[k] == st.tokens[k]);
        }
    }
    lemma_sans_of_clean(movetext_tokens(text), movetext_tokens(text).len());
}

} // verus!
