//! The UCI protocol as a Stockfish client speaks it: reading the lines the
//! engine prints and writing the commands it is sent.

use vstd::prelude::*;
use crate::pgn::{is_whitespace, is_ws};
use crate::text::{chars_are, chars_of, char_to_digit, decimal, digit_value, push_decimal, push_str, string_of};

verus! {

/// The words of `s` read so far, and the word still being read, after its
/// first `n` characters.
pub open spec fn word_scan(s: Seq<char>, n: nat) -> (Seq<Seq<char>>, Seq<char>)
    decreases n,
{
    if n == 0 {
        (seq![], seq![])
    } else {
        let (ws, cur) = word_scan(s, (n - 1) as nat);
        if is_ws(s[n - 1]) {
            if cur.len() > 0 { (ws.push(cur), seq![]) } else { (ws, cur) }
        } else {
            (ws, cur.push(s[n - 1]))
        }
    }
}

/// The words of `s`, split at whitespace as `str::split_whitespace` does.
pub open spec fn words(s: Seq<char>) -> Seq<Seq<char>> {
    let (ws, cur) = word_scan(s, s.len());
    if cur.len() > 0 { ws.push(cur) } else { ws }
}

/// The words of `line`.
pub fn split_words(line: &Vec<char>) -> (ws: Vec<Vec<char>>)
    ensures
        ws@.map_values(|w: Vec<char>| w@) == words(line@),
{
    let mut ws: Vec<Vec<char>> = Vec::new();
    let mut cur: Vec<char> = Vec::new();
    let mut i: usize = 0;
    while i < line.len()
        invariant
            i <= line@.len(),
            word_scan(line@, i as nat) == (ws@.map_values(|w: Vec<char>| w@), cur@),
        decreases line.len() - i,
    {
        let c = line[i];
        if is_whitespace(c) {
            if cur.len() > 0 {
                let ghost before = ws@.map_values(|w: Vec<char>| w@);
                ws.push(cur);
                cur = Vec::new();
                proof {
                    assert(ws@.map_values(|w: Vec<char>| w@) =~= before.push(word_scan(line@, i as nat).1));
                }
            }
        } else {
            cur.push(c);
        }
        i = i + 1;
    }
    if cur.len() > 0 {
        let ghost before = ws@.map_values(|w: Vec<char>| w@);
        ws.push(cur);
        proof {
            assert(ws@.map_values(|w: Vec<char>| w@) =~= before.push(word_scan(line@, line@.len()).1));
        }
    }
    ws
}

/// Whether every character of `s` is a decimal digit.
pub open spec fn all_digits(s: Seq<char>) -> bool {
    forall|i: int| 0 <= i < s.len() ==> (#[trigger] digit_value(s[i])) is Some
}

/// The number the decimal digits `s` write.
pub open spec fn digits_value(s: Seq<char>) -> nat
    decreases s.len(),
{
    if s.len() == 0 {
        0
    } else {
        digits_value(s.drop_last()) * 10 + match digit_value(s.last()) {
            Some(d) => d,
            None => 0,
        }
    }
}

/// The number an unsigned integer's text writes, as `str::parse` reads it:
/// an optional `+`, then at least one digit.
pub open spec fn unsigned_text(s: Seq<char>) -> Option<nat> {
    let d = if s.len() > 0 && s[0] == '+' { s.drop_first() } else { s };
    if d.len() > 0 && all_digits(d) { Some(digits_value(d)) } else { None }
}

/// The number a signed integer's text writes: `-` and at least one digit,
/// or an unsigned text.
pub open spec fn signed_text(s: Seq<char>) -> Option<int> {
    if s.len() > 0 && s[0] == '-' {
        let d = s.drop_first();
        if d.len() > 0 && all_digits(d) { Some(-digits_value(d)) } else { None }
    } else {
        match unsigned_text(s) {
            Some(v) => Some(v as int),
            None => None,
        }
    }
}

/// What `str::parse::<u32>` gives.
pub open spec fn u32_text(s: Seq<char>) -> Option<u32> {
    match unsigned_text(s) {
        Some(v) => if v <= u32::MAX { Some(v as u32) } else { None },
        None => None,
    }
}

/// What `str::parse::<u64>` gives.
pub open spec fn u64_text(s: Seq<char>) -> Option<u64> {
    match unsigned_text(s) {
        Some(v) => if v <= u64::MAX { Some(v as u64) } else { None },
        None => None,
    }
}

/// What `str::parse::<i32>` gives.
pub open spec fn i32_text(s: Seq<char>) -> Option<i32> {
    match signed_text(s) {
        Some(v) => if i32::MIN <= v <= i32::MAX { Some(v as i32) } else { None },
        None => None,
    }
}

proof fn lemma_digits_grow(s: Seq<char>, k: int)
    requires
        0 <= k <= s.len(),
        all_digits(s),
    ensures
        digits_value(s.take(k)) <= digits_value(s),
    decreases s.len() - k,
{
    if k < s.len() {
        lemma_digits_grow(s, k + 1);
        assert(s.take(k + 1).drop_last() =~= s.take(k));
        assert(digit_value(s[k]) is Some);
        assert(s.take(k + 1).last() == s[k]);
    } else {
        assert(s.take(k) =~= s);
    }
}

/// The value of the digits of `s` from `start` on, when they are all digits
/// and the value is at most `limit`.
fn digits_upto(s: &Vec<char>, start: usize, limit: u64) -> (r: Option<u64>)
    requires
        start <= s@.len(),
    ensures
        r == (if all_digits(s@.skip(start as int)) && digits_value(s@.skip(start as int)) <= limit {
            Some(digits_value(s@.skip(start as int)) as u64)
        } else {
            None::<u64>
        }),
{
    let ghost d = s@.skip(start as int);
    let mut v: u128 = 0;
    let mut i: usize = start;
    while i < s.len()
        invariant
            start <= i <= s@.len(),
            d == s@.skip(start as int),
            all_digits(d.take(i - start)),
            v == digits_value(d.take(i - start)),
            v <= limit,
        decreases s.len() - i,
    {
        let ghost k = i - start;
        proof {
            assert(d.take(k + 1).drop_last() =~= d.take(k));
            assert(d[k] == s@[i as int]);
        }
        match char_to_digit(s[i]) {
            None => {
                proof {
                    assert(digit_value(d[k]) is None);
                }
                return None;
            },
            Some(c) => {
                let next: u128 = v * 10 + c as u128;
                proof {
                    assert(all_digits(d.take(k + 1))) by {
                        assert forall|j: int| 0 <= j < k + 1 implies (#[trigger] digit_value(d.take(k + 1)[j])) is Some by {
                            if j < k {
                                assert(d.take(k + 1)[j] == d.take(k)[j]);
                            }
                        }
                    }
                }
                if next > limit as u128 {
                    proof {
                        if all_digits(d) {
                            lemma_digits_grow(d, k + 1);
                        }
                    }
                    return None;
                }
                v = next;
            },
        }
        i = i + 1;
    }
    proof {
        assert(d.take(d.len() as int) =~= d);
    }
    Some(v as u64)
}

/// `str::parse::<u32>`.
pub fn parse_u32(s: &Vec<char>) -> (r: Option<u32>)
    ensures
        r == u32_text(s@),
{
    let start: usize = if s.len() > 0 && s[0] == '+' { 1 } else { 0 };
    proof {
        assert(s@.skip(start as int) == (if s@.len() > 0 && s@[0] == '+' { s@.drop_first() } else { s@ }));
    }
    if start >= s.len() {
        return None;
    }
    match digits_upto(s, start, 4294967295) {
        Some(v) => Some(v as u32),
        None => None,
    }
}

/// `str::parse::<u64>`.
pub fn parse_u64(s: &Vec<char>) -> (r: Option<u64>)
    ensures
        r == u64_text(s@),
{
    let start: usize = if s.len() > 0 && s[0] == '+' { 1 } else { 0 };
    proof {
        assert(s@.skip(start as int) == (if s@.len() > 0 && s@[0] == '+' { s@.drop_first() } else { s@ }));
    }
    if start >= s.len() {
        return None;
    }
    digits_upto(s, start, 18446744073709551615)
}

/// `str::parse::<i32>`.
pub fn parse_i32(s: &Vec<char>) -> (r: Option<i32>)
    ensures
        r == i32_text(s@),
{
    if s.len() > 0 && s[0] == '-' {
        if s.len() < 2 {
            return None;
        }
        proof {
            assert(s@.skip(1) =~= s@.drop_first());
        }
        match digits_upto(s, 1, 2147483648) {
            Some(v) => Some((0 - (v as i64)) as i32),
            None => None,
        }
    } else {
        let start: usize = if s.len() > 0 && s[0] == '+' { 1 } else { 0 };
        proof {
            assert(s@.skip(start as int) == (if s@.len() > 0 && s@[0] == '+' { s@.drop_first() } else { s@ }));
        }
        if start >= s.len() {
            return None;
        }
        match digits_upto(s, start, 2147483647) {
            Some(v) => Some(v as i32),
            None => None,
        }
    }
}

/// Search score from the point of view of the side to move.
#[derive(Debug, Clone, Copy, PartialEq, Eq, Structural)]
pub enum Score {
    /// Centipawns; 100 is one pawn.
    Cp(i32),
    /// Moves until mate. Positive means the side to move delivers it, zero
    /// means the side to move is already mated.
    Mate(i32),
}

impl Score {
    /// The number the score carries.
    pub open spec fn value(self) -> i32 {
        match self {
            Score::Cp(v) => v,
            Score::Mate(v) => v,
        }
    }

    /// The score seen from the other side: the same kind, the number negated.
    pub open spec fn negated(self) -> Score {
        match self {
            Score::Cp(v) => Score::Cp((-v) as i32),
            Score::Mate(v) => Score::Mate((-v) as i32),
        }
    }

    /// The same score seen from the other side. `i32::MIN` has no negation.
    pub fn flipped(self) -> (s: Score)
        requires
            self.value() != i32::MIN,
        ensures
            s == self.negated(),
    {
        match self {
            Score::Cp(cp) => Score::Cp(-cp),
            Score::Mate(moves) => Score::Mate(-moves),
        }
    }
}

/// Seen from the other side twice, a score is what it was.
pub proof fn law_flipped_twice(s: Score)
    requires
        s.value() != i32::MIN,
    ensures
        s.negated().value() != i32::MIN,
        s.negated().negated() == s,
{
}

/// A line from the engine that the caller cares about.
#[derive(Debug, Clone, PartialEq, Eq)]
pub enum EngineResponse {
    /// `readyok`.
    Ready,
    /// A search update carrying an exact score, for the line numbered
    /// `multipv` (from 1) under MultiPV.
    Info {
        depth: u32,
        multipv: u32,
        score: Score,
        nodes: u64,
        nps: u64,
        pv: Vec<String>,
    },
    /// Search finished. `mv` is `None` when the position has no legal move.
    BestMove {
        mv: Option<String>,
        ponder: Option<String>,
    },
    /// Anything else, verbatim.
    Error(String),
}

/// An [`EngineResponse`] with its text as character sequences.
pub enum ResponseView {
    Ready,
    Info { depth: u32, multipv: u32, score: Score, nodes: u64, nps: u64, pv: Seq<Seq<char>> },
    BestMove { mv: Option<Seq<char>>, ponder: Option<Seq<char>> },
    Error(Seq<char>),
}

pub open spec fn opt_text(o: Option<String>) -> Option<Seq<char>> {
    match o {
        Some(s) => Some(s@),
        None => None,
    }
}

impl View for EngineResponse {
    type V = ResponseView;

    open spec fn view(&self) -> ResponseView {
        match self {
            EngineResponse::Ready => ResponseView::Ready,
            EngineResponse::Info { depth, multipv, score, nodes, nps, pv } => ResponseView::Info {
                depth: *depth,
                multipv: *multipv,
                score: *score,
                nodes: *nodes,
                nps: *nps,
                pv: pv@.map_values(|w: String| w@),
            },
            EngineResponse::BestMove { mv, ponder } => ResponseView::BestMove {
                mv: opt_text(*mv),
                ponder: opt_text(*ponder),
            },
            EngineResponse::Error(line) => ResponseView::Error(line@),
        }
    }
}

pub open spec fn opt_response(r: Option<EngineResponse>) -> Option<ResponseView> {
    match r {
        Some(e) => Some(e@),
        None => None,
    }
}

/// The words after `bestmove`: a move or `(none)`, optionally `ponder <move>`.
pub open spec fn bestmove_spec(w: Seq<Seq<char>>) -> ResponseView {
    ResponseView::BestMove {
        mv: if w.len() > 0 && w[0] != "(none)"@ { Some(w[0]) } else { None },
        ponder: if w.len() > 2 && w[1] == "ponder"@ { Some(w[2]) } else { None },
    }
}

/// What an `info` line has told so far.
pub struct InfoSoFar {
    pub depth: u32,
    pub score: Option<Score>,
    pub nodes: u64,
    pub nps: u64,
}

/// The report an `info` line ends in: one only when it gave an exact score;
/// the lines read are those of the first PV, numbered 1.
pub open spec fn info_report(acc: InfoSoFar, pv: Seq<Seq<char>>) -> Option<ResponseView> {
    match acc.score {
        Some(score) => Some(ResponseView::Info { depth: acc.depth, multipv: 1, score, nodes: acc.nodes, nps: acc.nps, pv }),
        None => None,
    }
}

/// The words of an `info` line from the `i`-th on. A bound-only score, an
/// `info string`, a line of a second principal variation or a value that
/// does not read as a number gives nothing; `pv` takes the rest of the line.
pub open spec fn info_from(w: Seq<Seq<char>>, i: nat, acc: InfoSoFar) -> Option<ResponseView>
    decreases w.len() - i,
{
    if i >= w.len() {
        info_report(acc, seq![])
    } else {
        let key = w[i as int];
        if key == "string"@ || key == "lowerbound"@ || key == "upperbound"@ {
            None
        } else if key == "multipv"@ {
            if i + 1 >= w.len() || w[i + 1 as int] != "1"@ { None } else { info_from(w, i + 2, acc) }
        } else if key == "depth"@ {
            if i + 1 >= w.len() {
                None
            } else {
                match u32_text(w[i + 1 as int]) {
                    Some(v) => info_from(w, i + 2, InfoSoFar { depth: v, ..acc }),
                    None => None,
                }
            }
        } else if key == "nodes"@ {
            if i + 1 >= w.len() {
                None
            } else {
                match u64_text(w[i + 1 as int]) {
                    Some(v) => info_from(w, i + 2, InfoSoFar { nodes: v, ..acc }),
                    None => None,
                }
            }
        } else if key == "nps"@ {
            if i + 1 >= w.len() {
                None
            } else {
                match u64_text(w[i + 1 as int]) {
                    Some(v) => info_from(w, i + 2, InfoSoFar { nps: v, ..acc }),
                    None => None,
                }
            }
        } else if key == "score"@ {
            if w.len() - i <= 2 {
                None
            } else {
                match i32_text(w[i + 2 as int]) {
                    Some(v) => if w[i + 1 as int] == "cp"@ {
                        info_from(w, i + 3, InfoSoFar { score: Some(Score::Cp(v)), ..acc })
                    } else if w[i + 1 as int] == "mate"@ {
                        info_from(w, i + 3, InfoSoFar { score: Some(Score::Mate(v)), ..acc })
                    } else {
                        None
                    },
                    None => None,
                }
            }
        } else if key == "pv"@ {
            info_report(acc, w.skip(i + 1 as int))
        } else {
            info_from(w, i + 1, acc)
        }
    }
}

/// What one line of engine output reports; `None` for a line with nothing
/// in it.
pub open spec fn engine_line_spec(line: Seq<char>) -> Option<ResponseView> {
    let w = words(line);
    if w.len() == 0 {
        None
    } else if w[0] == "bestmove"@ {
        Some(bestmove_spec(w.skip(1)))
    } else if w[0] == "readyok"@ {
        Some(ResponseView::Ready)
    } else if w[0] == "info"@ {
        info_from(w, 1, InfoSoFar { depth: 0, score: None, nodes: 0, nps: 0 })
    } else {
        Some(ResponseView::Error(line))
    }
}

/// The texts of a list of words.
pub open spec fn texts(w: Seq<Vec<char>>) -> Seq<Seq<char>> {
    w.map_values(|x: Vec<char>| x@)
}

/// The words of `w` from `from` on, as strings.
fn strings_from(w: &Vec<Vec<char>>, from: usize) -> (out: Vec<String>)
    requires
        from <= w@.len(),
    ensures
        out@.map_values(|x: String| x@) == texts(w@).skip(from as int),
{
    let mut out: Vec<String> = Vec::new();
    let mut k: usize = from;
    while k < w.len()
        invariant
            from <= k <= w@.len(),
            out@.map_values(|x: String| x@) == texts(w@).subrange(from as int, k as int),
        decreases w.len() - k,
    {
        let ghost before = out@.map_values(|x: String| x@);
        let t = string_of(w[k].as_slice());
        proof {
            assert(t@ == texts(w@)[k as int]);
        }
        out.push(t);
        k = k + 1;
        proof {
            assert(out@.map_values(|x: String| x@) =~= before.push(texts(w@)[k - 1]));
            assert(out@.map_values(|x: String| x@) =~= texts(w@).subrange(from as int, k as int));
        }
    }
    proof {
        assert(texts(w@).subrange(from as int, w@.len() as int) =~= texts(w@).skip(from as int));
    }
    out
}

/// A `bestmove` line, its words in `w`.
fn parse_bestmove(w: &Vec<Vec<char>>) -> (r: EngineResponse)
    requires
        w@.len() >= 1,
    ensures
        r@ == bestmove_spec(texts(w@).skip(1)),
{
    let ghost rest = texts(w@).skip(1);
    let mv = if w.len() > 1 && !chars_are(&w[1], "(none)") {
        Some(string_of(w[1].as_slice()))
    } else {
        None
    };
    let ponder = if w.len() > 3 && chars_are(&w[2], "ponder") {
        Some(string_of(w[3].as_slice()))
    } else {
        None
    };
    proof {
        if w@.len() > 1 {
            assert(rest[0] == w@[1]@);
        }
        if w@.len() > 3 {
            assert(rest[1] == w@[2]@);
            assert(rest[2] == w@[3]@);
        }
    }
    EngineResponse::BestMove { mv, ponder }
}

/// An `info` line, its words in `w`. Only lines with an exact score for the
/// first principal variation are reported.
fn parse_info(w: &Vec<Vec<char>>) -> (r: Option<EngineResponse>)
    requires
        w@.len() >= 1,
    ensures
        opt_response(r) == info_from(texts(w@), 1, InfoSoFar { depth: 0, score: None, nodes: 0, nps: 0 }),
{
    let ghost ws = texts(w@);
    let ghost goal = info_from(ws, 1, InfoSoFar { depth: 0, score: None, nodes: 0, nps: 0 });
    let mut depth: u32 = 0;
    let mut score: Option<Score> = None;
    let mut nodes: u64 = 0;
    let mut nps: u64 = 0;
    let mut i: usize = 1;
    while i < w.len()
        invariant
            ws == texts(w@),
            goal == info_from(ws, 1, InfoSoFar { depth: 0, score: None, nodes: 0, nps: 0 }),
            1 <= i <= w@.len(),
            goal == info_from(ws, i as nat, InfoSoFar { depth, score, nodes, nps }),
        decreases w.len() - i,
    {
        let key = &w[i];
        proof {
            assert(ws[i as int] == key@);
        }
        if chars_are(key, "string") || chars_are(key, "lowerbound") || chars_are(key, "upperbound") {
            return None;
        } else if chars_are(key, "multipv") {
            if i + 1 >= w.len() {
                return None;
            }
            proof {
                assert(ws[i + 1] == w@[i + 1]@);
            }
            if !chars_are(&w[i + 1], "1") {
                return None;
            }
            i = i + 2;
        } else if chars_are(key, "depth") {
            if i + 1 >= w.len() {
                return None;
            }
            proof {
                assert(ws[i + 1] == w@[i + 1]@);
            }
            match parse_u32(&w[i + 1]) {
                Some(v) => depth = v,
                None => return None,
            }
            i = i + 2;
        } else if chars_are(key, "nodes") {
            if i + 1 >= w.len() {
                return None;
            }
            proof {
                assert(ws[i + 1] == w@[i + 1]@);
            }
            match parse_u64(&w[i + 1]) {
                Some(v) => nodes = v,
                None => return None,
            }
            i = i + 2;
        } else if chars_are(key, "nps") {
            if i + 1 >= w.len() {
                return None;
            }
            proof {
                assert(ws[i + 1] == w@[i + 1]@);
            }
            match parse_u64(&w[i + 1]) {
                Some(v) => nps = v,
                None => return None,
            }
            i = i + 2;
        } else if chars_are(key, "score") {
            if w.len() - i <= 2 {
                return None;
            }
            proof {
                assert(ws[i + 1] == w@[i + 1]@);
                assert(ws[i + 2] == w@[i + 2]@);
            }
            let v = match parse_i32(&w[i + 2]) {
                Some(v) => v,
                None => return None,
            };
            if chars_are(&w[i + 1], "cp") {
                score = Some(Score::Cp(v));
            } else if chars_are(&w[i + 1], "mate") {
                score = Some(Score::Mate(v));
            } else {
                return None;
            }
            i = i + 3;
        } else if chars_are(key, "pv") {
            let pv = strings_from(w, i + 1);
            return match score {
                Some(s) => Some(EngineResponse::Info { depth, multipv: 1, score: s, nodes, nps, pv }),
                None => None,
            };
        } else {
            i = i + 1;
        }
    }
    let pv: Vec<String> = Vec::new();
    proof {
        assert(pv@.map_values(|x: String| x@) =~= Seq::<Seq<char>>::empty());
    }
    match score {
        Some(s) => Some(EngineResponse::Info { depth, multipv: 1, score: s, nodes, nps, pv }),
        None => None,
    }
}

/// Parse one line of engine output. `None` means the line carries nothing
/// to report.
pub fn parse_engine_line(line: &str) -> (r: Option<EngineResponse>)
    ensures
        opt_response(r) == engine_line_spec(line@),
{
    let chars = chars_of(line);
    let w = split_words(&chars);
    proof {
        assert(texts(w@) == words(line@));
    }
    if w.len() == 0 {
        return None;
    }
    proof {
        assert(texts(w@)[0] == w@[0]@);
    }
    if chars_are(&w[0], "bestmove") {
        Some(parse_bestmove(&w))
    } else if chars_are(&w[0], "readyok") {
        Some(EngineResponse::Ready)
    } else if chars_are(&w[0], "info") {
        parse_info(&w)
    } else {
        Some(EngineResponse::Error(string_of(chars.as_slice())))
    }
}

/// How long the engine may search.
#[derive(Debug, Clone, Copy, PartialEq, Eq, Structural)]
pub enum SearchLimit {
    /// To a fixed depth in plies.
    Depth(u32),
    /// For a fixed time in milliseconds.
    MoveTime(u64),
    /// On a clock: each side's time left and increment, in milliseconds.
    Clock { wtime: u64, btime: u64, winc: u64, binc: u64 },
}

/// The `go` command for `limit`.
pub open spec fn go_text(limit: SearchLimit) -> Seq<char> {
    match limit {
        SearchLimit::Depth(d) => "go depth "@ + decimal(d as nat),
        SearchLimit::MoveTime(t) => "go movetime "@ + decimal(t as nat),
        SearchLimit::Clock { wtime, btime, winc, binc } => "go wtime "@ + decimal(wtime as nat) + " btime "@
            + decimal(btime as nat) + " winc "@ + decimal(winc as nat) + " binc "@ + decimal(binc as nat),
    }
}

/// The command that starts a search under `limit`.
pub fn go_command(limit: SearchLimit) -> (cmd: String)
    ensures
        cmd@ == go_text(limit),
{
    let mut out: Vec<char> = Vec::new();
    match limit {
        SearchLimit::Depth(d) => {
            push_str(&mut out, "go depth ");
            push_decimal(&mut out, d as u64);
        },
        SearchLimit::MoveTime(t) => {
            push_str(&mut out, "go movetime ");
            push_decimal(&mut out, t);
        },
        SearchLimit::Clock { wtime, btime, winc, binc } => {
            push_str(&mut out, "go wtime ");
            push_decimal(&mut out, wtime);
            push_str(&mut out, " btime ");
            push_decimal(&mut out, btime);
            push_str(&mut out, " winc ");
            push_decimal(&mut out, winc);
            push_str(&mut out, " binc ");
            push_decimal(&mut out, binc);
        },
    }
    string_of(out.as_slice())
}

/// The skill level Stockfish is given for `level`: within 0 to 20.
pub open spec fn skill_of(level: i32) -> nat {
    if level < 0 { 0 } else if level > 20 { 20 } else { level as nat }
}

/// The command that sets the engine's skill level, held within 0 to 20.
pub fn skill_command(level: i32) -> (cmd: String)
    ensures
        cmd@ == "setoption name Skill Level value "@ + decimal(skill_of(level)),
{
    let skill: u64 = if level < 0 { 0 } else if level > 20 { 20 } else { level as u64 };
    let mut out: Vec<char> = Vec::new();
    push_str(&mut out, "setoption name Skill Level value ");
    push_decimal(&mut out, skill);
    string_of(out.as_slice())
}

/// The command that sets the option `name` to `value`.
pub fn option_command(name: &str, value: &str) -> (cmd: String)
    ensures
        cmd@ == "setoption name "@ + name@ + " value "@ + value@,
{
    let mut out: Vec<char> = Vec::new();
    push_str(&mut out, "setoption name ");
    push_str(&mut out, name);
    push_str(&mut out, " value ");
    push_str(&mut out, value);
    string_of(out.as_slice())
}

/// The command that sets up `position`: everything after `position `, such
/// as `startpos moves e2e4 e7e5`.
pub fn position_command(position: &str) -> (cmd: String)
    ensures
        cmd@ == "position "@ + position@,
{
    let mut out: Vec<char> = Vec::new();
    push_str(&mut out, "position ");
    push_str(&mut out, position);
    string_of(out.as_slice())
}

/// A command as it goes down the engine's input: ended by a line feed.
pub fn command_line(cmd: &str) -> (line: String)
    ensures
        line@ == cmd@.push('\n'),
{
    let mut out: Vec<char> = Vec::new();
    push_str(&mut out, cmd);
    out.push('\n');
    string_of(out.as_slice())
}

} // verus!
