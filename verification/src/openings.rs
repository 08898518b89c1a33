//! Opening names from a table of ECO code, name and moves, found by the
//! longest row a game's moves begin with.

use vstd::prelude::*;
use crate::game::{start_position, start_view, GameHistory, HistoryView};
use crate::text::{chars_of, lines, same_chars, split_lines, string_of};
use crate::uci::{split_words, words};

verus! {

/// A row of the table.
#[derive(Debug, Clone, PartialEq, Eq)]
pub struct Opening {
    /// ECO code, `A00` to `E99`.
    pub eco: String,
    pub name: String,
}

/// The pieces of `s` between the `c`s, empty ones included, as
/// `str::split` gives them; the pieces done and the piece being read after
/// the first `n` characters.
pub open spec fn split_scan(s: Seq<char>, c: char, n: nat) -> (Seq<Seq<char>>, Seq<char>)
    decreases n,
{
    if n == 0 {
        (seq![], seq![])
    } else {
        let (done, cur) = split_scan(s, c, (n - 1) as nat);
        if s[n - 1] == c { (done.push(cur), seq![]) } else { (done, cur.push(s[n - 1])) }
    }
}

/// The pieces of `s` between the `c`s.
pub open spec fn split_on(s: Seq<char>, c: char) -> Seq<Seq<char>> {
    let (done, cur) = split_scan(s, c, s.len());
    done.push(cur)
}

/// The words of `ws` that do not end in a dot: the moves, without numbers.
pub open spec fn move_words(ws: Seq<Seq<char>>, n: nat) -> Seq<Seq<char>>
    decreases n,
{
    if n == 0 || n > ws.len() {
        seq![]
    } else {
        let before = move_words(ws, (n - 1) as nat);
        let w = ws[n - 1];
        if w.len() > 0 && w.last() == '.' { before } else { before.push(w) }
    }
}

/// The first `n` words joined by single spaces.
pub open spec fn joined(ws: Seq<Seq<char>>, n: nat) -> Seq<char>
    decreases n,
{
    if n == 0 || n > ws.len() {
        seq![]
    } else if n == 1 {
        ws[0]
    } else {
        joined(ws, (n - 1) as nat) + seq![' '] + ws[n - 1]
    }
}

/// A line of the table as a row: the moves of its third field joined by
/// spaces, its ECO code and name, and how many moves it has; none for a
/// line with fewer than three tab-separated fields.
pub open spec fn row_of(line: Seq<char>) -> Option<(Seq<char>, Seq<char>, Seq<char>, nat)> {
    let fields = split_on(line, '\t');
    if fields.len() < 3 {
        None
    } else {
        let ws = words(fields[2]);
        let ms = move_words(ws, ws.len());
        Some((joined(ms, ms.len()), fields[0], fields[1], ms.len()))
    }
}

/// The rows of the first `n` lines after the header.
pub open spec fn rows_of(ls: Seq<Seq<char>>, n: nat) -> Seq<(Seq<char>, Seq<char>, Seq<char>, nat)>
    decreases n,
{
    if n == 0 || n + 1 > ls.len() {
        seq![]
    } else {
        let before = rows_of(ls, (n - 1) as nat);
        match row_of(ls[n as int]) {
            Some(r) => before.push(r),
            None => before,
        }
    }
}

/// The table a text holds: its rows after the header line.
pub open spec fn table_rows(text: Seq<char>) -> Seq<(Seq<char>, Seq<char>, Seq<char>, nat)> {
    let ls = lines(text);
    rows_of(ls, if ls.len() > 0 { (ls.len() - 1) as nat } else { 0 })
}

/// The most moves any of the first `n` rows has.
pub open spec fn longest_of(rows: Seq<(Seq<char>, Seq<char>, Seq<char>, nat)>, n: nat) -> nat
    decreases n,
{
    if n == 0 || n > rows.len() {
        0
    } else {
        let before = longest_of(rows, (n - 1) as nat);
        if rows[n - 1].3 > before { rows[n - 1].3 } else { before }
    }
}

/// The table of openings.
pub struct OpeningTable {
    /// Rows keyed by their moves in SAN without numbers, e.g. `e4 c5 Nf3`.
    rows: Vec<(Vec<char>, Opening)>,
    /// Plies in the longest row; no game matches beyond it.
    longest: usize,
}

impl OpeningTable {
    /// The rows as plain values: key, ECO code and name.
    pub closed spec fn keyed(&self) -> Seq<(Seq<char>, Seq<char>, Seq<char>)> {
        self.rows@.map_values(|r: (Vec<char>, Opening)| (r.0@, r.1.eco@, r.1.name@))
    }

    pub closed spec fn plies(&self) -> nat {
        self.longest as nat
    }
}

/// Rows as the table keeps them, without their lengths.
pub open spec fn keyed_rows(rows: Seq<(Seq<char>, Seq<char>, Seq<char>, nat)>) -> Seq<(Seq<char>, Seq<char>, Seq<char>)> {
    rows.map_values(|r: (Seq<char>, Seq<char>, Seq<char>, nat)| (r.0, r.1, r.2))
}

/// The pieces of `s` between the `c`s.
fn split_chars(s: &Vec<char>, c: char) -> (out: Vec<Vec<char>>)
    ensures
        out@.map_values(|p: Vec<char>| p@) == split_on(s@, c),
{
    let mut done: Vec<Vec<char>> = Vec::new();
    let mut cur: Vec<char> = Vec::new();
    let mut i: usize = 0;
    while i < s.len()
        invariant
            i <= s@.len(),
            split_scan(s@, c, i as nat) == (done@.map_values(|p: Vec<char>| p@), cur@),
        decreases s.len() - i,
    {
        if s[i] == c {
            let ghost before = done@.map_values(|p: Vec<char>| p@);
            let ghost cv = cur@;
            done.push(cur);
            cur = Vec::new();
            proof {
                assert(done@.map_values(|p: Vec<char>| p@) =~= before.push(cv));
            }
        } else {
            cur.push(s[i]);
        }
        i = i + 1;
    }
    let ghost before = done@.map_values(|p: Vec<char>| p@);
    let ghost cv = cur@;
    done.push(cur);
    proof {
        assert(done@.map_values(|p: Vec<char>| p@) =~= before.push(cv));
    }
    done
}

/// The words that do not end in a dot, joined by spaces, and how many.
fn join_moves(ws: &Vec<Vec<char>>) -> (r: (Vec<char>, usize))
    ensures
        ({
            let wv = ws@.map_values(|w: Vec<char>| w@);
            let ms = move_words(wv, wv.len());
            r.0@ == joined(ms, ms.len()) && r.1 == ms.len()
        }),
{
    let ghost wv = ws@.map_values(|w: Vec<char>| w@);
    let mut out: Vec<char> = Vec::new();
    let mut count: usize = 0;
    let mut i: usize = 0;
    while i < ws.len()
        invariant
            wv == ws@.map_values(|w: Vec<char>| w@),
            i <= ws@.len(),
            count <= i,
            count == move_words(wv, i as nat).len(),
            out@ == joined(move_words(wv, i as nat), count as nat),
        decreases ws.len() - i,
    {
        let w = &ws[i];
        proof {
            assert(wv[i as int] == w@);
        }
        if w.len() > 0 && w[w.len() - 1] == '.' {
        } else {
            let ghost ms = move_words(wv, i as nat);
            let ghost ms2 = move_words(wv, (i + 1) as nat);
            proof {
                assert(ms2 == ms.push(w@));
                assert forall|k: nat| k <= ms.len() implies joined(ms2, k) == joined(ms, k) by {
                    lemma_joined_prefix(ms, w@, k);
                }
            }
            if count > 0 {
                out.push(' ');
            }
            crate::text::push_chars(&mut out, w);
            count = count + 1;
            proof {
                assert(joined(ms2, count as nat) =~= out@);
            }
        }
        i = i + 1;
    }
    (out, count)
}

proof fn lemma_joined_prefix(ms: Seq<Seq<char>>, w: Seq<char>, k: nat)
    requires
        k <= ms.len(),
    ensures
        joined(ms.push(w), k) == joined(ms, k),
    decreases k,
{
    if k > 1 {
        lemma_joined_prefix(ms, w, (k - 1) as nat);
    }
}

/// The row one line of the table gives, if any.
fn read_row(line: &Vec<char>) -> (r: Option<(Vec<char>, Opening, usize)>)
    ensures
        match row_of(line@) {
            Some((key, eco, name, n)) => r matches Some(t) && t.0@ == key && t.1.eco@ == eco && t.1.name@ == name && t.2 == n,
            None => r is None,
        },
{
    let fields = split_chars(line, '\t');
    proof {
        assert(fields@.map_values(|p: Vec<char>| p@).len() == fields@.len());
    }
    if fields.len() < 3 {
        return None;
    }
    let ghost fv = fields@.map_values(|p: Vec<char>| p@);
    proof {
        assert(fv[0] == fields@[0]@);
        assert(fv[1] == fields@[1]@);
        assert(fv[2] == fields@[2]@);
    }
    let ws = split_words(&fields[2]);
    let (key, n) = join_moves(&ws);
    let eco = string_of(fields[0].as_slice());
    let name = string_of(fields[1].as_slice());
    Some((key, Opening { eco, name }, n))
}

impl OpeningTable {
    /// Read the table from its text: a header line, then a row per line of
    /// ECO code, name and moves in PGN, separated by tabs.
    pub fn parse(text: &str) -> (t: OpeningTable)
        ensures
            t.keyed() == keyed_rows(table_rows(text@)),
            t.plies() == longest_of(table_rows(text@), table_rows(text@).len()),
    {
        let ls = split_lines(text);
        let ghost lv = lines(text@);
        let mut rows: Vec<(Vec<char>, Opening)> = Vec::new();
        let mut longest: usize = 0;
        let ghost all = table_rows(text@);
        let mut i: usize = 1;
        proof {
            assert(rows@.map_values(|r: (Vec<char>, Opening)| (r.0@, r.1.eco@, r.1.name@)) =~= keyed_rows(rows_of(lv, 0)));
        }
        while i < ls.len()
            invariant
                ls@.map_values(|l: Vec<char>| l@) == lv,
                lv == lines(text@),
                1 <= i <= ls@.len() || (i == 1 && ls@.len() == 0),
                rows@.map_values(|r: (Vec<char>, Opening)| (r.0@, r.1.eco@, r.1.name@)) == keyed_rows(rows_of(lv, (i - 1) as nat)),
                longest == longest_of(rows_of(lv, (i - 1) as nat), rows_of(lv, (i - 1) as nat).len()),
            decreases ls.len() - i,
        {
            proof {
                assert(lv[i as int] == ls@[i as int]@);
            }
            let ghost before_rows = rows_of(lv, (i - 1) as nat);
            match read_row(&ls[i]) {
                Some((key, opening, n)) => {
                    let ghost kv = rows@.map_values(|r: (Vec<char>, Opening)| (r.0@, r.1.eco@, r.1.name@));
                    let ghost entry = (key@, opening.eco@, opening.name@);
                    rows.push((key, opening));
                    proof {
                        assert(rows@.map_values(|r: (Vec<char>, Opening)| (r.0@, r.1.eco@, r.1.name@)) =~= kv.push(entry));
                        assert(keyed_rows(rows_of(lv, i as nat)) =~= keyed_rows(before_rows).push(entry));
                        assert(rows_of(lv, i as nat).len() == before_rows.len() + 1);
                        assert(rows_of(lv, i as nat).drop_last() =~= before_rows);
                        assert forall|k: nat| k <= before_rows.len() implies
                            longest_of(rows_of(lv, i as nat), k) == longest_of(before_rows, k) by {
                            lemma_longest_prefix(before_rows, rows_of(lv, i as nat), k);
                        }
                    }
                    if n > longest {
                        longest = n;
                    }
                },
                None => {},
            }
            i = i + 1;
        }
        proof {
            if lv.len() > 0 {
                assert(all == rows_of(lv, (i - 1) as nat));
            } else {
                assert(all == rows_of(lv, 0));
            }
        }
        OpeningTable { rows, longest }
    }
}

proof fn lemma_longest_prefix(a: Seq<(Seq<char>, Seq<char>, Seq<char>, nat)>, b: Seq<(Seq<char>, Seq<char>, Seq<char>, nat)>, k: nat)
    requires
        k <= a.len(),
        a.len() <= b.len(),
        forall|j: int| 0 <= j < a.len() ==> a[j] == b[j],
    ensures
        longest_of(b, k) == longest_of(a, k),
    decreases k,
{
    if k > 0 {
        lemma_longest_prefix(a, b, (k - 1) as nat);
    }
}

/// The opening filed under `key` among the first `n` rows: the last row
/// with it, as a later row takes the place of an earlier one.
pub open spec fn lookup_keyed(rows: Seq<(Seq<char>, Seq<char>, Seq<char>)>, key: Seq<char>, n: nat) -> Option<(Seq<char>, Seq<char>)>
    decreases n,
{
    if n == 0 || n > rows.len() {
        None
    } else if rows[n - 1].0 == key {
        Some((rows[n - 1].1, rows[n - 1].2))
    } else {
        lookup_keyed(rows, key, (n - 1) as nat)
    }
}

/// The opening of the longest of the first `k` moves' prefixes that the
/// table files.
pub open spec fn found_upto(h: HistoryView, rows: Seq<(Seq<char>, Seq<char>, Seq<char>)>, k: nat) -> Option<(Seq<char>, Seq<char>)>
    decreases k,
{
    if k == 0 {
        None
    } else {
        match lookup_keyed(rows, joined(h.sans, k), rows.len()) {
            Some(o) => Some(o),
            None => found_upto(h, rows, (k - 1) as nat),
        }
    }
}

/// The longest opening a game from the initial setup (clocks aside) begins with.
pub open spec fn opening_spec(h: HistoryView, rows: Seq<(Seq<char>, Seq<char>, Seq<char>)>, longest: nat) -> Option<(Seq<char>, Seq<char>)> {
    if !h.positions[0].same_setup(start_view()) {
        None
    } else {
        found_upto(h, rows, if h.current < longest { h.current } else { longest })
    }
}

pub open spec fn opt_opening(o: Option<Opening>) -> Option<(Seq<char>, Seq<char>)> {
    match o {
        Some(o) => Some((o.eco@, o.name@)),
        None => None,
    }
}

impl OpeningTable {
    /// The opening filed under `key`.
    fn get(&self, key: &Vec<char>) -> (o: Option<Opening>)
        ensures
            opt_opening(o) == lookup_keyed(self.keyed(), key@, self.keyed().len()),
    {
        let ghost kv = self.keyed();
        let mut n: usize = self.rows.len();
        while n > 0
            invariant
                kv == self.keyed(),
                n <= self.rows@.len(),
                lookup_keyed(kv, key@, kv.len()) == lookup_keyed(kv, key@, n as nat),
            decreases n,
        {
            proof {
                assert(kv[n - 1] == (self.rows@[n - 1].0@, self.rows@[n - 1].1.eco@, self.rows@[n - 1].1.name@));
            }
            if same_chars(&self.rows[n - 1].0, key) {
                let found = Opening {
                    eco: self.rows[n - 1].1.eco.clone(),
                    name: self.rows[n - 1].1.name.clone(),
                };
                return Some(found);
            }
            n = n - 1;
        }
        None
    }
}

/// The longest opening the game begins with, for games from the standard
/// start position.
pub fn of(history: &GameHistory, table: &OpeningTable) -> (o: Option<Opening>)
    requires
        history@.wf(),
    ensures
        opt_opening(o) == opening_spec(history@, table.keyed(), table.plies()),
{
    let initial = start_position();
    if !history.start_board().same_setup(&initial) {
        return None;
    }
    let ghost h = history@;
    let ghost kv = table.keyed();
    let limit: usize = if history.move_count() < table.longest { history.move_count() } else { table.longest };
    let mut key: Vec<char> = Vec::new();
    let mut found: Option<Opening> = None;
    let mut ply: usize = 0;
    while ply < limit
        invariant
            h == history@,
            h.wf(),
            kv == table.keyed(),
            limit <= h.current,
            ply <= limit,
            key@ == joined(h.sans, ply as nat),
            opt_opening(found) == found_upto(h, kv, ply as nat),
        decreases limit - ply,
    {
        let san = match history.san(ply) {
            Some(t) => t,
            None => return None,
        };
        if ply > 0 {
            key.push(' ');
        }
        crate::text::push_str(&mut key, san);
        proof {
            assert(key@ =~= joined(h.sans, (ply + 1) as nat));
        }
        match table.get(&key) {
            Some(opening) => found = Some(opening),
            None => {},
        }
        ply = ply + 1;
    }
    found
}


/// A table key: the moves `ms` joined by spaces, none of them a move
/// number (a word ending in a dot).
pub open spec fn key_of_moves(key: Seq<char>, ms: Seq<Seq<char>>) -> bool {
    &&& key == joined(ms, ms.len())
    &&& forall|k: int| 0 <= k < ms.len() ==> !((#[trigger] ms[k]).len() > 0 && ms[k].last() == '.')
}

proof fn lemma_move_words_plain(ws: Seq<Seq<char>>, n: nat)
    ensures
        forall|k: int| 0 <= k < move_words(ws, n).len()
            ==> !((#[trigger] move_words(ws, n)[k]).len() > 0 && move_words(ws, n)[k].last() == '.'),
    decreases n,
{
    if n > 0 && n <= ws.len() {
        lemma_move_words_plain(ws, (n - 1) as nat);
        let before = move_words(ws, (n - 1) as nat);
        let w = ws[n - 1];
        if !(w.len() > 0 && w.last() == '.') {
            assert forall|k: int| 0 <= k < before.push(w).len()
                implies !((#[trigger] before.push(w)[k]).len() > 0 && before.push(w)[k].last() == '.') by {
                if k < before.len() {
                    assert(before.push(w)[k] == before[k]);
                }
            }
        }
    }
}

proof fn lemma_rows_from_lines(ls: Seq<Seq<char>>, n: nat)
    ensures
        forall|i: int| 0 <= i < rows_of(ls, n).len() ==> exists|ms: Seq<Seq<char>>|
            key_of_moves((#[trigger] rows_of(ls, n)[i]).0, ms) && ms.len() == rows_of(ls, n)[i].3,
    decreases n,
{
    if n > 0 && n + 1 <= ls.len() {
        lemma_rows_from_lines(ls, (n - 1) as nat);
        let before = rows_of(ls, (n - 1) as nat);
        match row_of(ls[n as int]) {
            Some(r) => {
                let fields = split_on(ls[n as int], '\t');
                let ws = words(fields[2]);
                let ms = move_words(ws, ws.len());
                lemma_move_words_plain(ws, ws.len());
                assert(key_of_moves(r.0, ms));
                assert forall|i: int| 0 <= i < before.push(r).len() implies exists|ms2: Seq<Seq<char>>|
                    key_of_moves((#[trigger] before.push(r)[i]).0, ms2) && ms2.len() == before.push(r)[i].3 by {
                    if i < before.len() {
                        assert(before.push(r)[i] == before[i]);
                    } else {
                        assert(before.push(r)[i] == r);
                    }
                }
            },
            None => {},
        }
    }
}

proof fn lemma_longest_bounds(rows: Seq<(Seq<char>, Seq<char>, Seq<char>, nat)>, n: nat)
    requires
        n <= rows.len(),
    ensures
        forall|i: int| 0 <= i < n ==> (#[trigger] rows[i]).3 <= longest_of(rows, n),
    decreases n,
{
    if n > 0 {
        lemma_longest_bounds(rows, (n - 1) as nat);
    }
}

/// Every key of a table is moves without numbers, joined by spaces, and
/// has no more of them than the longest row, beyond which no game is
/// looked up.
pub proof fn law_keys_fit_the_longest(text: Seq<char>, i: int)
    requires
        0 <= i < table_rows(text).len(),
    ensures
        table_rows(text)[i].3 <= longest_of(table_rows(text), table_rows(text).len()),
        exists|ms: Seq<Seq<char>>| key_of_moves(table_rows(text)[i].0, ms) && ms.len() == table_rows(text)[i].3,
{
    let ls = lines(text);
    lemma_rows_from_lines(ls, if ls.len() > 0 { (ls.len() - 1) as nat } else { 0 });
    lemma_longest_bounds(table_rows(text), table_rows(text).len());
}

/// Looking `rows[i]`'s key up among the first `n` rows, past `i` and with no
/// later row of that key among them, finds row `i`.
proof fn lemma_lookup_finds_last(rows: Seq<(Seq<char>, Seq<char>, Seq<char>)>, i: int, n: nat)
    requires
        0 <= i < n <= rows.len(),
        forall|j: int| i < j < n ==> (#[trigger] rows[j]).0 != rows[i].0,
    ensures
        lookup_keyed(rows, rows[i].0, n) == Some((rows[i].1, rows[i].2)),
    decreases n,
{
    if n - 1 > i {
        assert(rows[n - 1].0 != rows[i].0);
        lemma_lookup_finds_last(rows, i, (n - 1) as nat);
    }
}

/// Of the rows a table's text files under one key, the last is the one
/// looked up: a later row wins over an earlier one.
pub proof fn law_later_rows_win(text: Seq<char>, i: int)
    requires
        0 <= i < table_rows(text).len(),
        forall|j: int| i < j < table_rows(text).len() ==> (#[trigger] table_rows(text)[j]).0 != table_rows(text)[i].0,
    ensures
        lookup_keyed(keyed_rows(table_rows(text)), table_rows(text)[i].0, table_rows(text).len())
            == Some((table_rows(text)[i].1, table_rows(text)[i].2)),
{
    let rows = table_rows(text);
    let kv = keyed_rows(rows);
    assert forall|j: int| i < j < kv.len() implies (#[trigger] kv[j]).0 != kv[i].0 by {
        assert(rows[j].0 != rows[i].0);
    }
    lemma_lookup_finds_last(kv, i, kv.len());
}

} // verus!
