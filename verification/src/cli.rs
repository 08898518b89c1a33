//! The command line's commands: what a line typed at the prompt asks for,
//! and the legal moves as the prompt lists them.

use vstd::prelude::*;
use crate::moves::{legal_moves, on_board, uci_chars, uci_text};
use crate::order::{ascending, sort_texts, texts_of};
use crate::pgn::{strip, strip_chars};
use crate::text::{chars_are, chars_of, joined_with, push_chars, string_of};
use crate::game::{GameHistory, HistoryView};
use crate::types::Board;

verus! {

broadcast use vstd::seq_lib::group_to_multiset_ensures;

/// What `str::to_lowercase` makes of a text.
pub uninterp spec fn lowercase_of(s: Seq<char>) -> Seq<char>;

/// The text in lower case, by `str::to_lowercase`.
#[verifier::external_body]
fn lowercased(s: &str) -> (r: String)
    ensures
        r@ == lowercase_of(s@),
{
    s.to_lowercase()
}

/// A line typed at the prompt.
#[derive(Debug, Clone, PartialEq, Eq)]
pub enum Command {
    /// An empty line.
    Nothing,
    Quit,
    Help,
    New,
    /// List the legal moves.
    Moves,
    Undo,
    Redo,
    /// Print the game as PGN.
    Pgn,
    /// Start or stop the engine answering moves.
    Play,
    /// Print the position as FEN.
    ShowFen,
    /// Set up the position of a FEN.
    SetFen(String),
    /// A move, in UCI or SAN, as typed.
    Move(String),
}

pub enum CommandView {
    Nothing,
    Quit,
    Help,
    New,
    Moves,
    Undo,
    Redo,
    Pgn,
    Play,
    ShowFen,
    SetFen(Seq<char>),
    Move(Seq<char>),
}

impl View for Command {
    type V = CommandView;

    open spec fn view(&self) -> CommandView {
        match self {
            Command::Nothing => CommandView::Nothing,
            Command::Quit => CommandView::Quit,
            Command::Help => CommandView::Help,
            Command::New => CommandView::New,
            Command::Moves => CommandView::Moves,
            Command::Undo => CommandView::Undo,
            Command::Redo => CommandView::Redo,
            Command::Pgn => CommandView::Pgn,
            Command::Play => CommandView::Play,
            Command::ShowFen => CommandView::ShowFen,
            Command::SetFen(f) => CommandView::SetFen(f@),
            Command::Move(m) => CommandView::Move(m@),
        }
    }
}

/// The command of a trimmed line `line`, whose lower case is `lower`: the
/// command words in any case, `fen` followed by a position, else a move
/// as typed.
pub open spec fn command_spec(line: Seq<char>, lower: Seq<char>) -> CommandView {
    if lower.len() == 0 {
        CommandView::Nothing
    } else if lower == "quit"@ || lower == "exit"@ || lower == "q"@ {
        CommandView::Quit
    } else if lower == "help"@ || lower == "h"@ || lower == "?"@ {
        CommandView::Help
    } else if lower == "new"@ {
        CommandView::New
    } else if lower == "moves"@ || lower == "m"@ {
        CommandView::Moves
    } else if lower == "undo"@ || lower == "u"@ {
        CommandView::Undo
    } else if lower == "redo"@ || lower == "r"@ {
        CommandView::Redo
    } else if lower == "pgn"@ {
        CommandView::Pgn
    } else if lower == "play"@ {
        CommandView::Play
    } else if lower == "fen"@ {
        CommandView::ShowFen
    } else if lower.len() >= 4 && lower.take(4) == "fen "@ {
        CommandView::SetFen(if line.len() >= 4 { strip(line.skip(4), false) } else { seq![] })
    } else {
        CommandView::Move(line)
    }
}

fn is_one_of(s: &Vec<char>, a: &str, b: &str, c: &str) -> (r: bool)
    ensures
        r == (s@ == a@ || s@ == b@ || s@ == c@),
{
    chars_are(s, a) || chars_are(s, b) || chars_are(s, c)
}

/// The command of a line whose lower case is `lower`, the line trimmed.
pub fn command_of(line: &Vec<char>, lower: &Vec<char>) -> (c: Command)
    ensures
        c@ == command_spec(line@, lower@),
{
    if lower.len() == 0 {
        Command::Nothing
    } else if is_one_of(lower, "quit", "exit", "q") {
        Command::Quit
    } else if is_one_of(lower, "help", "h", "?") {
        Command::Help
    } else if chars_are(lower, "new") {
        Command::New
    } else if chars_are(lower, "moves") || chars_are(lower, "m") {
        Command::Moves
    } else if chars_are(lower, "undo") || chars_are(lower, "u") {
        Command::Undo
    } else if chars_are(lower, "redo") || chars_are(lower, "r") {
        Command::Redo
    } else if chars_are(lower, "pgn") {
        Command::Pgn
    } else if chars_are(lower, "play") {
        Command::Play
    } else if chars_are(lower, "fen") {
        Command::ShowFen
    } else {
        proof {
            reveal_strlit("fen ");
        }
        let starts = lower.len() >= 4 && lower[0] == 'f' && lower[1] == 'e' && lower[2] == 'n' && lower[3] == ' ';
        proof {
            if lower@.len() >= 4 {
                if starts {
                    assert(lower@.take(4) =~= "fen "@);
                } else if lower@.take(4) == "fen "@ {
                    assert(lower@.take(4)[0] == lower@[0]);
                    assert(lower@.take(4)[1] == lower@[1]);
                    assert(lower@.take(4)[2] == lower@[2]);
                    assert(lower@.take(4)[3] == lower@[3]);
                }
            }
        }
        if starts && line.len() >= 4 {
            let mut rest: Vec<char> = Vec::new();
            let mut i: usize = 4;
            while i < line.len()
                invariant
                    4 <= i <= line@.len(),
                    rest@ == line@.subrange(4, i as int),
                decreases line.len() - i,
            {
                rest.push(line[i]);
                i = i + 1;
                proof {
                    assert(rest@ =~= line@.subrange(4, i as int));
                }
            }
            proof {
                assert(rest@ =~= line@.skip(4));
            }
            Command::SetFen(string_of(strip_chars(&rest, false).as_slice()))
        } else if starts {
            Command::SetFen(string_of(Vec::new().as_slice()))
        } else {
            Command::Move(string_of(line.as_slice()))
        }
    }
}

/// What a line typed at the prompt asks for.
pub fn parse_command(input: &str) -> (c: Command)
    ensures
        c@ == command_spec(strip(input@, false), lowercase_of(strip(input@, false))),
{
    let line = strip_chars(&chars_of(input), false);
    let text = string_of(line.as_slice());
    let lower = chars_of(lowercased(text.as_str()).as_str());
    command_of(&line, &lower)
}

/// The legal moves on `board` as UCI writes them, in text order.
pub fn legal_move_list(board: &Board) -> (list: Vec<String>)
    requires
        board.wf(),
    ensures
        ascending(list@.map_values(|s: String| s@)),
        list@.map_values(|s: String| s@).to_multiset()
            == crate::moves::legal_moves_spec(board@).map_values(|m: crate::types::Move| uci_text(board@, m)).to_multiset(),
{
    let moves = legal_moves(board);
    let ghost want = crate::moves::legal_moves_spec(board@).map_values(|m: crate::types::Move| uci_text(board@, m));
    let mut texts: Vec<Vec<char>> = Vec::new();
    let mut i: usize = 0;
    while i < moves.len()
        invariant
            board.wf(),
            moves@ == crate::moves::legal_moves_spec(board@),
            forall|j: int| 0 <= j < moves@.len() ==> on_board(#[trigger] moves@[j]),
            want == moves@.map_values(|m: crate::types::Move| uci_text(board@, m)),
            i <= moves@.len(),
            texts_of(texts@) == want.take(i as int),
        decreases moves.len() - i,
    {
        proof {
            assert(on_board(moves@[i as int]));
        }
        let t = uci_chars(board, moves[i]);
        let ghost before = texts_of(texts@);
        texts.push(t);
        i = i + 1;
        proof {
            assert(texts_of(texts@) =~= before.push(want[i - 1]));
            assert(want.take(i as int) =~= want.take(i - 1).push(want[i - 1]));
        }
    }
    proof {
        assert(want.take(i as int) =~= want);
    }
    let sorted = sort_texts(texts);
    let ghost sv = texts_of(sorted@);
    let mut list: Vec<String> = Vec::new();
    let mut k: usize = 0;
    while k < sorted.len()
        invariant
            sv == texts_of(sorted@),
            k <= sorted@.len(),
            list@.map_values(|s: String| s@) == sv.take(k as int),
        decreases sorted.len() - k,
    {
        let s = string_of(sorted[k].as_slice());
        let ghost before = list@.map_values(|s: String| s@);
        list.push(s);
        k = k + 1;
        proof {
            assert(list@.map_values(|s: String| s@) =~= before.push(sv[k - 1]));
            assert(sv.take(k as int) =~= sv.take(k - 1).push(sv[k - 1]));
        }
    }
    proof {
        assert(sv.take(k as int) =~= sv);
    }
    list
}

/// The SAN of the last move played, `?` at the start of the game.
pub open spec fn last_san_spec(h: HistoryView) -> Seq<char> {
    if h.current == 0 || h.current > h.sans.len() {
        seq!['?']
    } else {
        h.sans[h.current - 1]
    }
}

/// The SAN of the move that led to the position on the board, as the prompt
/// announces it.
pub fn last_san(game: &GameHistory) -> (s: String)
    ensures
        s@ == last_san_spec(game@),
{
    let n = game.move_count();
    if n == 0 {
        return string_of(&['?']);
    }
    match game.san(n - 1) {
        Some(t) => String::from_str(t),
        None => string_of(&['?']),
    }
}

/// `words` ten to a row, two spaces between the words of a row.
pub open spec fn rows_of(words: Seq<Seq<char>>) -> Seq<Seq<char>>
    decreases words.len(),
{
    if words.len() == 0 {
        seq![]
    } else if words.len() <= 10 {
        seq![joined_with(words, seq![' ', ' '])]
    } else {
        seq![joined_with(words.take(10), seq![' ', ' '])] + rows_of(words.skip(10))
    }
}

/// The words laid out ten to a row, two spaces apart, as the prompt lists
/// the legal moves.
pub fn move_rows(words: &Vec<String>) -> (rows: Vec<String>)
    ensures
        rows@.map_values(|r: String| r@) == rows_of(words@.map_values(|w: String| w@)),
{
    let ghost ws = words@.map_values(|w: String| w@);
    let n = words.len();
    let mut rows: Vec<String> = Vec::new();
    let mut i: usize = 0;
    proof {
        assert(ws.skip(0) =~= ws);
        assert(rows@.map_values(|r: String| r@) + rows_of(ws) =~= rows_of(ws));
    }
    while i < n
        invariant
            n == words@.len(),
            ws == words@.map_values(|w: String| w@),
            i <= n,
            rows@.map_values(|r: String| r@) + rows_of(ws.skip(i as int)) == rows_of(ws),
        decreases n - i,
    {
        let end: usize = if n - i > 10 { i + 10 } else { n };
        let mut row: Vec<char> = Vec::new();
        let mut j: usize = i;
        while j < end
            invariant
                n == words@.len(),
                ws == words@.map_values(|w: String| w@),
                i < end <= n,
                i <= j <= end,
                row@ == joined_with(ws.subrange(i as int, j as int), seq![' ', ' ']),
            decreases end - j,
        {
            let ghost before = row@;
            if j > i {
                row.push(' ');
                row.push(' ');
            }
            let w = chars_of(words[j].as_str());
            push_chars(&mut row, &w);
            j = j + 1;
            proof {
                let sub = ws.subrange(i as int, j as int);
                assert(sub.drop_last() =~= ws.subrange(i as int, j - 1));
                assert(sub.last() == ws[j - 1]);
                if j - 1 == i {
                    assert(before =~= seq![]);
                    assert(row@ =~= sub[0]);
                } else {
                    assert(row@ =~= before + seq![' ', ' '] + ws[j - 1]);
                }
            }
        }
        let ghost rest = ws.skip(i as int);
        let ghost before_rows = rows@.map_values(|r: String| r@);
        rows.push(string_of(row.as_slice()));
        proof {
            assert(rows@.map_values(|r: String| r@) =~= before_rows.push(row@));
            if n - i > 10 {
                assert(rest.take(10) =~= ws.subrange(i as int, end as int));
                assert(rest.skip(10) =~= ws.skip(end as int));
                assert(rows_of(rest) == seq![joined_with(rest.take(10), seq![' ', ' '])] + rows_of(rest.skip(10)));
            } else {
                assert(rest =~= ws.subrange(i as int, end as int));
                assert(ws.skip(end as int) =~= seq![]);
                assert(rows_of(ws.skip(end as int)) =~= seq![]);
                assert(rows_of(rest) == seq![joined_with(rest, seq![' ', ' '])]);
            }
            assert(before_rows.push(row@) + rows_of(ws.skip(end as int)) =~= before_rows + rows_of(rest));
        }
        i = end;
    }
    proof {
        assert(ws.skip(n as int) =~= seq![]);
        assert(rows@.map_values(|r: String| r@) + seq![] =~= rows@.map_values(|r: String| r@));
    }
    rows
}

} // verus!
