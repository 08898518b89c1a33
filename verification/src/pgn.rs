//! Reading a game from PGN: a FEN tag sets the start, other tags are
//! ignored, and the movetext is played with comments, variations, glyphs
//! and the result stripped.

use vstd::prelude::*;
use crate::game::{start_view, GameHistory, HistoryView};
use crate::moves::{board_of, fen_reads_back};
use crate::cozy::cozy_reading;
use crate::notation::{parse_san, parse_san_spec, trim_end, trimmed_len};
use crate::text::{chars_of, decimal, push_decimal, push_str, string_of};

verus! {

/// Whitespace as Rust's `char::is_whitespace` knows it.
pub open spec fn is_ws(c: char) -> bool {
    ||| ('\u{9}' <= c && c <= '\u{d}')
    ||| c == ' '
    ||| c == '\u{85}'
    ||| c == '\u{a0}'
    ||| c == '\u{1680}'
    ||| ('\u{2000}' <= c && c <= '\u{200a}')
    ||| c == '\u{2028}'
    ||| c == '\u{2029}'
    ||| c == '\u{202f}'
    ||| c == '\u{205f}'
    ||| c == '\u{3000}'
}

pub fn is_whitespace(c: char) -> (r: bool)
    ensures
        r == is_ws(c),
{
    ('\u{9}' <= c && c <= '\u{d}') || c == ' ' || c == '\u{85}' || c == '\u{a0}' || c == '\u{1680}'
        || ('\u{2000}' <= c && c <= '\u{200a}') || c == '\u{2028}' || c == '\u{2029}' || c == '\u{202f}'
        || c == '\u{205f}' || c == '\u{3000}'
}

/// Where the movetext reader stands: the tokens read, the token being
/// read, how deep in parenthesised variations, and whether it is skipping a
/// brace comment (1) or a comment to the end of the line (2).
pub struct LexState {
    pub tokens: Seq<Seq<char>>,
    pub cur: Seq<char>,
    pub depth: nat,
    pub skip: nat,
}

/// The state with the token being read, if any, moved to the tokens.
pub open spec fn flushed(st: LexState) -> LexState {
    if st.cur.len() > 0 { LexState { tokens: st.tokens.push(st.cur), cur: seq![], ..st } } else { st }
}

pub open spec fn lex_step(st: LexState, c: char) -> LexState {
    if st.skip == 1 {
        if c == '}' { LexState { skip: 0, ..st } } else { st }
    } else if st.skip == 2 {
        if c == '\n' { LexState { skip: 0, ..st } } else { st }
    } else if c == '{' {
        LexState { skip: 1, ..flushed(st) }
    } else if c == ';' {
        LexState { skip: 2, ..flushed(st) }
    } else if c == '(' {
        LexState { depth: st.depth + 1, ..flushed(st) }
    } else if c == ')' {
        LexState { depth: if st.depth > 0 { (st.depth - 1) as nat } else { 0 }, ..flushed(st) }
    } else if is_ws(c) {
        flushed(st)
    } else if st.depth == 0 {
        LexState { cur: st.cur.push(c), ..st }
    } else {
        st
    }
}

/// The reader's state after the first `n` characters of `text`.
pub open spec fn lex(text: Seq<char>, n: nat) -> LexState
    decreases n,
{
    if n == 0 {
        LexState { tokens: seq![], cur: seq![], depth: 0, skip: 0 }
    } else {
        lex_step(lex(text, (n - 1) as nat), text[n - 1])
    }
}

/// The words of a movetext outside comments and variations.
pub open spec fn movetext_tokens(text: Seq<char>) -> Seq<Seq<char>> {
    flushed(lex(text, text.len())).tokens
}

/// The index of the last `c` in `s`, if there is one.
pub open spec fn last_index_of(s: Seq<char>, c: char) -> Option<nat>
    decreases s.len(),
{
    if s.len() == 0 {
        None
    } else if s.last() == c {
        Some((s.len() - 1) as nat)
    } else {
        last_index_of(s.drop_last(), c)
    }
}

pub open spec fn is_number_char(c: char) -> bool {
    ('0' <= c && c <= '9') || c == '.'
}

pub open spec fn all_digits_or_dots(s: Seq<char>) -> bool {
    forall|i: int| 0 <= i < s.len() ==> is_number_char(#[trigger] s[i])
}

proof fn lemma_last_index_of(s: Seq<char>, c: char)
    ensures
        last_index_of(s, c) matches Some(i) ==> i < s.len() && s[i as int] == c,
    decreases s.len(),
{
    if s.len() > 0 && s.last() != c {
        lemma_last_index_of(s.drop_last(), c);
    }
}

/// The SAN in a movetext word: a move number glued to it ("12.e4",
/// "12...e5") is dropped and so are trailing glyphs; numbers alone, `$n`
/// glyphs and results are no moves.
pub open spec fn token_san(t: Seq<char>) -> Option<Seq<char>> {
    let base = match last_index_of(t, '.') {
        Some(d) => if all_digits_or_dots(t.take(d as int)) { t.skip((d + 1) as int) } else { t },
        None => t,
    };
    let san = trim_end(base, true);
    if san.len() == 0 || san[0] == '$' || san == "1-0"@ || san == "0-1"@ || san == "1/2-1/2"@ || san == "*"@ {
        None
    } else {
        Some(san)
    }
}

/// The SANs of the first `n` tokens, in order.
pub open spec fn sans_of(tokens: Seq<Seq<char>>, n: nat) -> Seq<Seq<char>>
    decreases n,
{
    if n == 0 {
        seq![]
    } else {
        match token_san(tokens[n - 1]) {
            Some(san) => sans_of(tokens, (n - 1) as nat).push(san),
            None => sans_of(tokens, (n - 1) as nat),
        }
    }
}

/// The SAN tokens of a movetext, in order. Comments in braces or after a
/// semicolon, parenthesised variations, `$n` glyphs, move numbers and the
/// result are dropped; `+`, `#`, `!` and `?` suffixes are trimmed.
pub open spec fn movetext_sans(text: Seq<char>) -> Seq<Seq<char>> {
    sans_of(movetext_tokens(text), movetext_tokens(text).len())
}

/// How many more `(` than `)` the first `n` characters of `v` hold.
pub open spec fn paren_depth(v: Seq<char>, n: nat) -> int
    decreases n,
{
    if n == 0 {
        0
    } else {
        paren_depth(v, (n - 1) as nat) + (if v[n - 1] == '(' { 1int } else if v[n - 1] == ')' { -1int } else { 0int })
    }
}

/// A parenthesised variation, nested ones inside it allowed: it opens with
/// `(`, every `)` but the last closes a parenthesis opened inside it, and
/// the last closes the first. It holds no comment (`{` or `;`).
pub open spec fn is_variation(v: Seq<char>) -> bool {
    &&& v.len() > 0
    &&& v[0] == '('
    &&& paren_depth(v, v.len()) == 0
    &&& forall|i: nat| 1 <= i < v.len() ==> #[trigger] paren_depth(v, i) >= 1
    &&& forall|i: int| 0 <= i < v.len() ==> v[i] != '{' && v[i] != ';'
}

/// The reader's state after it reads `s` from the state `st`.
pub open spec fn lex_from(st: LexState, s: Seq<char>) -> LexState
    decreases s.len(),
{
    if s.len() == 0 { st } else { lex_step(lex_from(st, s.drop_last()), s.last()) }
}

/// The text of `a` ends between two tokens, outside any comment: after it
/// the reader is in no comment and in the middle of no word.
pub open spec fn between_tokens(a: Seq<char>) -> bool {
    lex(a, a.len()).skip == 0 && lex(a, a.len()).cur.len() == 0
}

proof fn lemma_lex_from_start(t: Seq<char>, n: nat)
    requires
        n <= t.len(),
    ensures
        lex(t, n) == lex_from(LexState { tokens: seq![], cur: seq![], depth: 0, skip: 0 }, t.take(n as int)),
    decreases n,
{
    if n > 0 {
        lemma_lex_from_start(t, (n - 1) as nat);
        assert(t.take(n as int).drop_last() =~= t.take(n - 1));
    } else {
        assert(t.take(0) =~= Seq::<char>::empty());
    }
}

proof fn lemma_lex_from_concat(st: LexState, x: Seq<char>, y: Seq<char>)
    ensures
        lex_from(st, x + y) == lex_from(lex_from(st, x), y),
    decreases y.len(),
{
    if y.len() == 0 {
        assert(x + y =~= x);
    } else {
        lemma_lex_from_concat(st, x, y.drop_last());
        assert((x + y).drop_last() =~= x + y.drop_last());
        assert((x + y).last() == y.last());
    }
}

/// Reading the first `k` characters of a variation from a state between
/// tokens changes nothing but the depth.
proof fn lemma_variation_prefix(st: LexState, v: Seq<char>, k: nat)
    requires
        st.skip == 0,
        st.cur.len() == 0,
        is_variation(v),
        k <= v.len(),
    ensures
        paren_depth(v, k) >= 0,
        lex_from(st, v.take(k as int)) == (LexState { depth: (st.depth + paren_depth(v, k)) as nat, ..st }),
    decreases k,
{
    if k == 0 {
        assert(v.take(0) =~= Seq::<char>::empty());
    } else {
        lemma_variation_prefix(st, v, (k - 1) as nat);
        assert(v.take(k as int).drop_last() =~= v.take(k - 1));
        assert(v.take(k as int).last() == v[k - 1]);
        if k - 1 >= 1 {
            assert(paren_depth(v, (k - 1) as nat) >= 1);
        }
        if k < v.len() {
            assert(paren_depth(v, k) >= 1);
        }
    }
}

/// A parenthesised variation, nested ones and all, is not read: put
/// between two tokens of a movetext, outside any comment, it leaves the
/// SANs read from it as they were.
pub proof fn law_variations_are_skipped(a: Seq<char>, v: Seq<char>, b: Seq<char>)
    requires
        between_tokens(a),
        is_variation(v),
    ensures
        movetext_sans(a + v + b) == movetext_sans(a + b),
        movetext_tokens(a + v + b) == movetext_tokens(a + b),
{
    let init = LexState { tokens: seq![], cur: seq![], depth: 0, skip: 0 };
    let t1 = a + v + b;
    let t2 = a + b;
    lemma_lex_from_start(t1, t1.len());
    lemma_lex_from_start(t2, t2.len());
    lemma_lex_from_start(a, a.len());
    assert(t1.take(t1.len() as int) =~= t1);
    assert(t2.take(t2.len() as int) =~= t2);
    assert(a.take(a.len() as int) =~= a);
    let sa = lex_from(init, a);
    lemma_lex_from_concat(init, a + v, b);
    lemma_lex_from_concat(init, a, v);
    lemma_lex_from_concat(init, a, b);
    lemma_variation_prefix(sa, v, v.len());
    assert(v.take(v.len() as int) =~= v);
    assert(lex_from(sa, v) == sa);
}

fn flush(tokens: &mut Vec<Vec<char>>, cur: &mut Vec<char>)
    ensures
        ({
            let st = flushed(LexState { tokens: old(tokens)@.map_values(|t: Vec<char>| t@), cur: old(cur)@, depth: 0, skip: 0 });
            &&& final(tokens)@.map_values(|t: Vec<char>| t@) == st.tokens
            &&& final(cur)@ == st.cur
        }),
{
    if cur.len() > 0 {
        let mut token: Vec<char> = Vec::new();
        std::mem::swap(&mut token, cur);
        tokens.push(token);
        proof {
            assert(final(tokens)@.map_values(|t: Vec<char>| t@) =~= old(tokens)@.map_values(|t: Vec<char>| t@).push(old(cur)@));
            assert(final(cur)@ =~= Seq::<char>::empty());
        }
    }
}

/// The words of a movetext outside comments and variations.
fn tokens_of(text: &Vec<char>) -> (tokens: Vec<Vec<char>>)
    ensures
        tokens@.map_values(|t: Vec<char>| t@) == movetext_tokens(text@),
{
    let mut tokens: Vec<Vec<char>> = Vec::new();
    let mut cur: Vec<char> = Vec::new();
    let mut depth: usize = 0;
    let mut skip: u8 = 0;
    let mut i: usize = 0;
    while i < text.len()
        invariant
            i <= text.len(),
            depth <= i,
            ({
                let st = lex(text@, i as nat);
                &&& tokens@.map_values(|t: Vec<char>| t@) == st.tokens
                &&& cur@ == st.cur
                &&& depth == st.depth
                &&& skip == st.skip
            }),
        decreases text.len() - i,
    {
        let c = text[i];
        if skip == 1 {
            if c == '}' {
                skip = 0;
            }
        } else if skip == 2 {
            if c == '\n' {
                skip = 0;
            }
        } else if c == '{' {
            flush(&mut tokens, &mut cur);
            skip = 1;
        } else if c == ';' {
            flush(&mut tokens, &mut cur);
            skip = 2;
        } else if c == '(' {
            flush(&mut tokens, &mut cur);
            depth = depth + 1;
        } else if c == ')' {
            flush(&mut tokens, &mut cur);
            if depth > 0 {
                depth = depth - 1;
            }
        } else if is_whitespace(c) {
            flush(&mut tokens, &mut cur);
        } else if depth == 0 {
            cur.push(c);
        }
        i = i + 1;
    }
    flush(&mut tokens, &mut cur);
    tokens
}

fn last_dot(t: &Vec<char>) -> (d: Option<usize>)
    ensures
        match last_index_of(t@, '.') {
            Some(i) => d == Some(i as usize),
            None => d is None,
        },
{
    let mut n: usize = t.len();
    proof {
        assert(t@.subrange(0, n as int) =~= t@);
    }
    while n > 0
        invariant
            n <= t@.len(),
            last_index_of(t@, '.') == last_index_of(t@.subrange(0, n as int), '.'),
        decreases n,
    {
        proof {
            assert(t@.subrange(0, n as int).drop_last() =~= t@.subrange(0, n - 1));
        }
        if t[n - 1] == '.' {
            return Some(n - 1);
        }
        n = n - 1;
    }
    None
}

fn is_word(s: &Vec<char>, start: usize, end: usize, word: &str) -> (r: bool)
    requires
        start <= end <= s@.len(),
    ensures
        r == (s@.subrange(start as int, end as int) == word@),
{
    let w = chars_of(word);
    if end - start != w.len() {
        proof {
            assert(s@.subrange(start as int, end as int).len() != word@.len());
        }
        return false;
    }
    let mut i: usize = 0;
    while i < w.len()
        invariant
            start <= end <= s@.len(),
            end - start == w@.len(),
            w@ == word@,
            i <= w@.len(),
            forall|j: int| 0 <= j < i ==> s@[start + j] == w@[j],
        decreases w.len() - i,
    {
        if s[start + i] != w[i] {
            proof {
                assert(s@.subrange(start as int, end as int)[i as int] != word@[i as int]);
            }
            return false;
        }
        i = i + 1;
    }
    proof {
        assert(s@.subrange(start as int, end as int) =~= word@);
    }
    true
}

/// The SAN in a movetext word, if it holds one.
fn san_of_token(t: &Vec<char>) -> (r: Option<Vec<char>>)
    ensures
        match token_san(t@) {
            Some(san) => r matches Some(v) && v@ == san,
            None => r is None,
        },
{
    let mut start: usize = 0;
    proof {
        lemma_last_index_of(t@, '.');
    }
    if let Some(d) = last_dot(t) {
        let mut ok = true;
        let mut i: usize = 0;
        while i < d
            invariant
                d < t@.len(),
                i <= d,
                ok == (forall|j: int| 0 <= j < i ==> is_number_char(#[trigger] t@[j])),
            decreases d - i,
        {
            let c = t[i];
            if !(('0' <= c && c <= '9') || c == '.') {
                ok = false;
            }
            i = i + 1;
        }
        proof {
            assert(ok == all_digits_or_dots(t@.take(d as int))) by {
                if ok {
                    assert forall|j: int| 0 <= j < d implies is_number_char(#[trigger] t@.take(d as int)[j]) by {
                        assert(t@.take(d as int)[j] == t@[j]);
                    }
                } else {
                    let j = choose|j: int| 0 <= j < d && !is_number_char(#[trigger] t@[j]);
                    assert(t@.take(d as int)[j] == t@[j]);
                }
            }
        }
        if ok {
            assert(d < t.len());
            start = d + 1;
        }
    }
    let mut base: Vec<char> = Vec::new();
    let mut k: usize = start;
    while k < t.len()
        invariant
            start <= t@.len(),
            start <= k <= t@.len(),
            base@ == t@.subrange(start as int, k as int),
        decreases t.len() - k,
    {
        base.push(t[k]);
        k = k + 1;
        proof {
            assert(base@ =~= t@.subrange(start as int, k as int));
        }
    }
    proof {
        match last_index_of(t@, '.') {
            Some(d) => {
                if all_digits_or_dots(t@.take(d as int)) {
                    assert(base@ =~= t@.skip((d + 1) as int));
                } else {
                    assert(base@ =~= t@);
                }
            },
            None => {
                assert(base@ =~= t@);
            },
        }
    }
    let n = trimmed_len(&base, true);
    if n == 0 || base[0] == '$' || is_word(&base, 0, n, "1-0") || is_word(&base, 0, n, "0-1")
        || is_word(&base, 0, n, "1/2-1/2") || is_word(&base, 0, n, "*") {
        return None;
    }
    let mut san: Vec<char> = Vec::new();
    let mut j: usize = 0;
    while j < n
        invariant
            n <= base@.len(),
            j <= n,
            san@ == base@.subrange(0, j as int),
        decreases n - j,
    {
        san.push(base[j]);
        j = j + 1;
        proof {
            assert(san@ =~= base@.subrange(0, j as int));
        }
    }
    Some(san)
}

/// The SAN tokens of a movetext, in order. Comments in braces or after a
/// semicolon, parenthesised variations, `$n` glyphs, move numbers and the
/// result are dropped; `+`, `#`, `!` and `?` suffixes are trimmed.
pub fn movetext_moves(text: &str) -> (sans: Vec<Vec<char>>)
    ensures
        sans@.map_values(|t: Vec<char>| t@) == movetext_sans(text@),
{
    let chars = chars_of(text);
    let tokens = tokens_of(&chars);
    let ghost tk = movetext_tokens(text@);
    let mut sans: Vec<Vec<char>> = Vec::new();
    let mut i: usize = 0;
    while i < tokens.len()
        invariant
            tokens@.map_values(|t: Vec<char>| t@) == tk,
            tk == movetext_tokens(text@),
            i <= tokens@.len(),
            sans@.map_values(|t: Vec<char>| t@) == sans_of(tk, i as nat),
        decreases tokens.len() - i,
    {
        proof {
            assert(tokens@[i as int]@ == tk[i as int]);
        }
        match san_of_token(&tokens[i]) {
            Some(san) => {
                sans.push(san);
                proof {
                    assert(sans@.map_values(|t: Vec<char>| t@) =~= sans_of(tk, i as nat).push(token_san(tk[i as int])->0));
                }
            },
            None => {},
        }
        i = i + 1;
    }
    sans
}

/// Whitespace, or when `quotes` is set, a double quote.
pub open spec fn stripped(c: char, quotes: bool) -> bool {
    if quotes { c == '"' } else { is_ws(c) }
}

pub open spec fn strip_end(s: Seq<char>, quotes: bool) -> Seq<char>
    decreases s.len(),
{
    if s.len() > 0 && stripped(s.last(), quotes) { strip_end(s.drop_last(), quotes) } else { s }
}

pub open spec fn strip_start(s: Seq<char>, quotes: bool) -> Seq<char>
    decreases s.len(),
{
    if s.len() > 0 && stripped(s[0], quotes) { strip_start(s.drop_first(), quotes) } else { s }
}

/// `s` without whitespace (or double quotes) at either end, as `str::trim`
/// and `str::trim_matches('"')` give it.
pub open spec fn strip(s: Seq<char>, quotes: bool) -> Seq<char> {
    strip_start(strip_end(s, quotes), quotes)
}

fn strippable(c: char, quotes: bool) -> (r: bool)
    ensures
        r == stripped(c, quotes),
{
    if quotes { c == '"' } else { is_whitespace(c) }
}

pub fn strip_chars(s: &Vec<char>, quotes: bool) -> (out: Vec<char>)
    ensures
        out@ == strip(s@, quotes),
{
    let mut hi: usize = s.len();
    proof {
        assert(s@.subrange(0, hi as int) =~= s@);
    }
    while hi > 0 && strippable(s[hi - 1], quotes)
        invariant
            hi <= s@.len(),
            strip_end(s@, quotes) == strip_end(s@.subrange(0, hi as int), quotes),
        decreases hi,
    {
        proof {
            assert(s@.subrange(0, hi as int).drop_last() =~= s@.subrange(0, hi - 1));
        }
        hi = hi - 1;
    }
    let ghost e = s@.subrange(0, hi as int);
    proof {
        assert(strip_end(s@, quotes) == e);
        assert(e.subrange(0, e.len() as int) =~= e);
    }
    let mut lo: usize = 0;
    while lo < hi && strippable(s[lo], quotes)
        invariant
            lo <= hi <= s@.len(),
            e == s@.subrange(0, hi as int),
            strip_start(e, quotes) == strip_start(s@.subrange(lo as int, hi as int), quotes),
        decreases hi - lo,
    {
        proof {
            assert(s@.subrange(lo as int, hi as int).drop_first() =~= s@.subrange(lo + 1, hi as int));
        }
        lo = lo + 1;
    }
    let mut out: Vec<char> = Vec::new();
    let mut k: usize = lo;
    while k < hi
        invariant
            lo <= k <= hi <= s@.len(),
            out@ == s@.subrange(lo as int, k as int),
        decreases hi - k,
    {
        out.push(s[k]);
        k = k + 1;
        proof {
            assert(out@ =~= s@.subrange(lo as int, k as int));
        }
    }
    out
}

/// What a PGN reader has gathered: the FEN tag's value, if one was seen,
/// and the movetext lines.
pub struct PgnParts {
    pub fen: Option<Seq<char>>,
    pub movetext: Seq<char>,
}

/// One line of a PGN: a tag in brackets, of which only `FEN` counts, or a
/// line of movetext, kept with its line ending.
pub open spec fn read_line(parts: PgnParts, line: Seq<char>) -> PgnParts {
    let t = strip(line, false);
    if t.len() >= 2 && t[0] == '[' && t.last() == ']' {
        let tag = t.subrange(1, t.len() - 1);
        if tag.len() >= 4 && tag.take(4) == "FEN "@ {
            PgnParts { fen: Some(strip(strip(tag.skip(4), false), true)), ..parts }
        } else {
            parts
        }
    } else {
        PgnParts { movetext: parts.movetext + line + seq!['\n'], ..parts }
    }
}

/// A line without the carriage return before its line feed.
pub open spec fn without_cr(line: Seq<char>) -> Seq<char> {
    if line.len() > 0 && line.last() == '\r' { line.drop_last() } else { line }
}

/// The parts read from the complete lines among the first `n` characters,
/// and the line still open.
pub open spec fn scan_lines(text: Seq<char>, n: nat) -> (PgnParts, Seq<char>)
    decreases n,
{
    if n == 0 {
        (PgnParts { fen: None, movetext: seq![] }, seq![])
    } else {
        let (parts, line) = scan_lines(text, (n - 1) as nat);
        if text[n - 1] == '\n' {
            (read_line(parts, without_cr(line)), seq![])
        } else {
            (parts, line.push(text[n - 1]))
        }
    }
}

/// The FEN tag and movetext of a PGN, line by line as `str::lines` splits it.
pub open spec fn pgn_parts(text: Seq<char>) -> PgnParts {
    let (parts, line) = scan_lines(text, text.len());
    if line.len() > 0 { read_line(parts, line) } else { parts }
}

fn starts_with(s: &Vec<char>, prefix: &str) -> (r: bool)
    ensures
        r == (s@.len() >= prefix@.len() && s@.take(prefix@.len() as int) == prefix@),
{
    let p = chars_of(prefix);
    if s.len() < p.len() {
        return false;
    }
    let mut i: usize = 0;
    while i < p.len()
        invariant
            p@ == prefix@,
            s@.len() >= p@.len(),
            i <= p@.len(),
            forall|j: int| 0 <= j < i ==> s@[j] == p@[j],
        decreases p.len() - i,
    {
        if s[i] != p[i] {
            proof {
                assert(s@.take(p@.len() as int)[i as int] != p@[i as int]);
            }
            return false;
        }
        i = i + 1;
    }
    proof {
        assert(s@.take(p@.len() as int) =~= prefix@);
    }
    true
}

fn slice_of(s: &Vec<char>, lo: usize, hi: usize) -> (out: Vec<char>)
    requires
        lo <= hi <= s@.len(),
    ensures
        out@ == s@.subrange(lo as int, hi as int),
{
    let mut out: Vec<char> = Vec::new();
    let mut k: usize = lo;
    while k < hi
        invariant
            lo <= k <= hi <= s@.len(),
            out@ == s@.subrange(lo as int, k as int),
        decreases hi - k,
    {
        out.push(s[k]);
        k = k + 1;
        proof {
            assert(out@ =~= s@.subrange(lo as int, k as int));
        }
    }
    out
}

pub open spec fn opt_chars(o: Option<Vec<char>>) -> Option<Seq<char>> {
    match o {
        Some(v) => Some(v@),
        None => None,
    }
}

fn read_one_line(fen: &mut Option<Vec<char>>, movetext: &mut Vec<char>, line: &Vec<char>)
    ensures
        read_line(PgnParts { fen: opt_chars(*old(fen)), movetext: old(movetext)@ }, line@)
            == (PgnParts { fen: opt_chars(*final(fen)), movetext: final(movetext)@ }),
{
    let ghost before = PgnParts { fen: opt_chars(*fen), movetext: movetext@ };
    let t = strip_chars(line, false);
    if t.len() >= 2 && t[0] == '[' && t[t.len() - 1] == ']' {
        let tag = slice_of(&t, 1, t.len() - 1);
        proof {
            reveal_strlit("FEN ");
        }
        if starts_with(&tag, "FEN ") {
            let value = slice_of(&tag, 4, tag.len());
            proof {
                assert(value@ =~= tag@.skip(4));
            }
            *fen = Some(strip_chars(&strip_chars(&value, false), true));
        }
        proof {
            assert(read_line(before, line@) == (PgnParts { fen: opt_chars(*fen), movetext: movetext@ }));
        }
    } else {
        let mut i: usize = 0;
        let ghost start = movetext@;
        while i < line.len()
            invariant
                i <= line@.len(),
                movetext@ == start + line@.take(i as int),
            decreases line.len() - i,
        {
            movetext.push(line[i]);
            i = i + 1;
            proof {
                assert(movetext@ =~= start + line@.take(i as int));
            }
        }
        movetext.push('\n');
        proof {
            assert(line@.take(line@.len() as int) =~= line@);
            assert(movetext@ =~= start + line@ + seq!['\n']);
        }
    }
}

/// The FEN tag's value and the movetext of a PGN.
fn split_pgn(text: &str) -> (r: (Option<Vec<char>>, Vec<char>))
    ensures
        (PgnParts { fen: opt_chars(r.0), movetext: r.1@ }) == pgn_parts(text@),
{
    let chars = chars_of(text);
    let mut fen: Option<Vec<char>> = None;
    let mut movetext: Vec<char> = Vec::new();
    let mut line: Vec<char> = Vec::new();
    let mut i: usize = 0;
    while i < chars.len()
        invariant
            chars@ == text@,
            i <= chars@.len(),
            scan_lines(text@, i as nat) == (PgnParts { fen: opt_chars(fen), movetext: movetext@ }, line@),
        decreases chars.len() - i,
    {
        let c = chars[i];
        if c == '\n' {
            if line.len() > 0 && line[line.len() - 1] == '\r' {
                line.pop();
            }
            read_one_line(&mut fen, &mut movetext, &line);
            line = Vec::new();
        } else {
            line.push(c);
        }
        i = i + 1;
    }
    if line.len() > 0 {
        read_one_line(&mut fen, &mut movetext, &line);
    }
    (fen, movetext)
}

/// Why a PGN could not be read.
#[derive(Debug, PartialEq, Eq)]
pub enum PgnError {
    /// The FEN tag is not a position cozy-chess reads.
    InvalidFen,
    /// The move numbered `ply` (from 1) cannot be played where it stands.
    BadMove { ply: usize, san: String },
}

/// A PGN's failure as plain values: `None` for a bad FEN tag, else the
/// number of the move that could not be played and its SAN.
pub open spec fn failure_of(e: PgnError) -> Option<(nat, Seq<char>)> {
    match e {
        PgnError::InvalidFen => None,
        PgnError::BadMove { ply, san } => Some((ply as nat, san@)),
    }
}

/// What `<str as Debug>::fmt` writes for a text: the text in double
/// quotes, with its quotes, backslashes and unprintable characters escaped.
pub uninterp spec fn debug_quoted(s: Seq<char>) -> Seq<char>;

/// The text as `{:?}` writes it, by `<str as Debug>::fmt`.
#[verifier::external_body]
fn quoted(s: &str) -> (r: String)
    ensures
        r@ == debug_quoted(s@),
{
    format!("{:?}", s)
}

/// The message for a failure given as by [`failure_of`].
pub open spec fn failure_text(f: Option<(nat, Seq<char>)>) -> Seq<char> {
    match f {
        None => "the FEN tag is not a valid position"@,
        Some((ply, san)) => "move "@ + decimal(ply) + ": cannot play "@ + debug_quoted(san) + " here"@,
    }
}

impl PgnError {
    /// The message that says what went wrong.
    pub fn message(&self) -> (m: String)
        ensures
            m@ == failure_text(failure_of(*self)),
    {
        match self {
            PgnError::InvalidFen => String::from_str("the FEN tag is not a valid position"),
            PgnError::BadMove { ply, san } => {
                let mut out: Vec<char> = Vec::new();
                push_str(&mut out, "move ");
                push_decimal(&mut out, *ply as u64);
                push_str(&mut out, ": cannot play ");
                let q = quoted(san.as_str());
                push_str(&mut out, q.as_str());
                push_str(&mut out, " here");
                string_of(out.as_slice())
            },
        }
    }
}

/// What `from_pgn` returns, as plain values.
pub open spec fn outcome_of(r: Result<GameHistory, PgnError>) -> Result<HistoryView, Option<(nat, Seq<char>)>> {
    match r {
        Ok(h) => Ok(h@),
        Err(e) => Err(failure_of(e)),
    }
}

/// The game after the first `n` SAN moves are played from `start`, or the
/// first of them (numbered from 1) that is no legal move where it stands.
pub open spec fn replay(start: HistoryView, sans: Seq<Seq<char>>, n: nat) -> Result<HistoryView, (nat, Seq<char>)>
    decreases n,
{
    if n == 0 {
        Ok(start)
    } else {
        match replay(start, sans, (n - 1) as nat) {
            Err(e) => Err(e),
            Ok(h) => match parse_san_spec(h.current_board(), sans[n - 1]) {
                None => Err((n, sans[n - 1])),
                Some(mv) => Ok(h.make_move(mv)),
            },
        }
    }
}

/// The game a PGN starts from: the position of its FEN tag, when it has one
/// and `GameHistory::from_fen` takes it, else the initial position; `None`
/// for a FEN tag that it refuses.
pub open spec fn pgn_start(fen: Option<Seq<char>>) -> Option<HistoryView> {
    match fen {
        None => Some(HistoryView::starting(start_view())),
        Some(f) => if fen_reads_back(f) {
            Some(HistoryView::starting(board_of(cozy_reading(f))))
        } else {
            None
        },
    }
}

/// What reading `text` as a PGN gives.
pub open spec fn from_pgn_spec(text: Seq<char>) -> Result<HistoryView, Option<(nat, Seq<char>)>> {
    let parts = pgn_parts(text);
    match pgn_start(parts.fen) {
        None => Err(None),
        Some(start) => {
            let sans = movetext_sans(parts.movetext);
            match replay(start, sans, sans.len()) {
                Ok(h) => Ok(h),
                Err(e) => Err(Some(e)),
            }
        },
    }
}

/// Once a move cannot be played, no later move changes the outcome.
proof fn lemma_replay_stops(start: HistoryView, sans: Seq<Seq<char>>, k: nat, m: nat)
    requires
        k <= m,
        replay(start, sans, k) is Err,
    ensures
        replay(start, sans, m) == replay(start, sans, k),
    decreases m - k,
{
    if k < m {
        lemma_replay_stops(start, sans, k, (m - 1) as nat);
    }
}

impl GameHistory {
    /// Read a PGN: a FEN tag sets the start, other tags are ignored, and the
    /// movetext is played with comments, variations, glyphs and the result
    /// stripped. Stops at the first move that cannot be played.
    pub fn from_pgn(text: &str) -> (r: Result<GameHistory, PgnError>)
        ensures
            outcome_of(r) == from_pgn_spec(text@),
            r matches Ok(h) ==> h@.wf(),
    {
        let (fen, movetext) = split_pgn(text);
        let ghost parts = pgn_parts(text@);
        let mut history = match fen {
            Some(f) => {
                let fs = string_of(f.as_slice());
                match GameHistory::from_fen(fs.as_str()) {
                    Ok(h) => h,
                    Err(_) => return Err(PgnError::InvalidFen),
                }
            },
            None => GameHistory::new(),
        };
        let ghost start = history@;
        let mt = string_of(movetext.as_slice());
        let sans = movetext_moves(mt.as_str());
        let ghost ss = movetext_sans(parts.movetext);
        proof {
            assert(sans@.len() == ss.len());
        }
        let mut i: usize = 0;
        while i < sans.len()
            invariant
                sans@.map_values(|t: Vec<char>| t@) == ss,
                parts == pgn_parts(text@),
                pgn_start(parts.fen) == Some(start),
                ss == movetext_sans(parts.movetext),
                start.wf(),
                i <= sans@.len(),
                replay(start, ss, i as nat) == Ok::<HistoryView, (nat, Seq<char>)>(history@),
                history@.wf(),
            decreases sans.len() - i,
        {
            proof {
                assert(sans@[i as int]@ == ss[i as int]);
            }
            let word = string_of(sans[i].as_slice());
            match parse_san(history.current_board(), word.as_str()) {
                None => {
                    proof {
                        assert(word@ == ss[i as int]);
                        assert(replay(start, ss, (i + 1) as nat) == Err::<HistoryView, (nat, Seq<char>)>(((i + 1) as nat, ss[i as int])));
                        lemma_replay_stops(start, ss, (i + 1) as nat, ss.len());
                    }
                    return Err(PgnError::BadMove { ply: i + 1, san: word });
                },
                Some(mv) => {
                    history.make_move(mv);
                },
            }
            i = i + 1;
        }
        Ok(history)
    }
}

} // verus!
