//! The application's state and the decisions it takes: which search to
//! ask for, what to make of the engine's replies, and how moves, takebacks,
//! the clock and the end of the game interact. The commands for the engine
//! are queued in an outbox; whoever runs the application sends them.

use vstd::prelude::*;
use crate::clock::{Clock, ClockView};
use crate::game::{draw_reason_spec, result_spec, GameHistory, HistoryView};
use crate::moves::{checkmate_spec, in_check_spec};
use crate::link::{CommandView, EngineCommand, EngineEvent, EngineStatus, EventView, SearchRequest, StatusView};
use crate::settings::{CapturedPiecesStyle, EngineMode, ThemeVariant};
use crate::text::{decimal, push_decimal, string_of};
use crate::types::{Board, BoardView, Color, Move, Piece};
use crate::game::{start_position, start_view};
use crate::fen::{fen_of, to_fen};
use crate::moves::{after, after_spec, destination, destination_spec, legal_moves, legal_moves_spec, on_board, uci_chars, uci_text};
use crate::notation::{parse_uci_spec, san_chars, san_spec};
use crate::text::{chars_of, joined_with, push_chars, push_str};
use crate::pgn::{failure_text, from_pgn_spec, strip, strip_chars};
use crate::cozy::cozy_reading;
use crate::moves::{board_of, fen_reads_back};
use crate::eval::label_text;
use crate::uci::{EngineResponse, ResponseView, Score, SearchLimit};
use crate::settings::Settings;

verus! {

/// Why a search was started: to play its result, or only to show it.
#[derive(Clone, Copy, Debug, PartialEq, Eq, Structural)]
pub enum SearchKind {
    Play,
    Analyse,
}

/// One line of the engine's search, its score from White's side.
#[derive(Debug, Clone, PartialEq, Eq)]
pub struct EngineLine {
    pub depth: u32,
    pub score: Score,
    pub pv: Vec<String>,
}

pub struct LineView {
    pub depth: u32,
    pub score: Score,
    pub pv: Seq<Seq<char>>,
}

impl View for EngineLine {
    type V = LineView;

    open spec fn view(&self) -> LineView {
        LineView { depth: self.depth, score: self.score, pv: self.pv@.map_values(|w: String| w@) }
    }
}

/// What a sound cue is for, as far as the ear is concerned.
#[derive(Clone, Copy, Debug, PartialEq, Eq, Structural)]
pub enum Cue {
    Move,
    Capture,
    Check,
    GameOver,
    /// One tick per second under ten seconds on the clock.
    LowTime,
}

/// The application's state.
pub struct ChessApp {
    pub game_history: GameHistory,
    /// A line for the status panel: where a game was saved, or why not.
    pub notice: Option<String>,
    pub board_flip: bool,
    pub show_eval_bar: bool,
    pub captured_display_style: CapturedPiecesStyle,
    pub play_vs_computer: bool,
    pub computer_color: Color,
    /// Evaluate whatever position is on screen, whoever is to move.
    pub analysis: bool,
    /// The analysis of the current position has run to its limit.
    pub analysis_complete: bool,
    /// What the running or last search was for.
    pub search_kind: SearchKind,
    pub engine_status: EngineStatus,
    /// Id of the latest search; replies to any other id are stale.
    pub search_id: u64,
    pub engine_thinking: bool,
    /// The lines of the running or last search, best first.
    pub engine_lines: Vec<EngineLine>,
    pub engine_nodes: u64,
    /// How many lines analysis asks for; play always asks for one.
    pub analysis_lines: u32,
    /// The MultiPV value the engine has, so it is only sent on change.
    pub engine_multipv: u32,
    pub engine_depth: u32,
    pub engine_movetime: Option<u64>,
    pub engine_mode: EngineMode,
    pub engine_skill_level: i32,
    /// Stockfish's Threads and Hash options.
    pub engine_threads: u64,
    pub engine_hash_mb: u32,
    /// Set while the user browses the history, so the engine does not reply
    /// to a position that is not the live one.
    pub disable_auto_request: bool,
    /// The running game's clock, if the game was started with one.
    pub clock: Option<Clock>,
    /// Whose flag fell; the game is over until a new game.
    pub timeout: Option<Color>,
    /// Who resigned; the game is over until a new game.
    pub resigned: Option<Color>,
    /// The time control for the next game.
    pub clock_enabled: bool,
    pub clock_minutes: u32,
    pub clock_increment_s: u32,
    pub theme_variant: ThemeVariant,
    /// A piece sliding along this move since this instant (milliseconds).
    pub animation: Option<(Move, u64)>,
    /// The square whose piece the user has picked up.
    pub selected_square: Option<u8>,
    /// The legal moves of the picked-up piece.
    pub legal_moves_for_selected: Vec<Move>,
    /// A pawn move waiting for the player to choose the promotion piece.
    pub pending_promotion: Option<(u8, u8)>,
    /// The piece the user is dragging, with the square it was lifted from.
    pub dragging_piece: Option<(u8, Piece, Color)>,
    /// Whether an engine thread is there to take commands.
    pub engine_linked: bool,
    /// Commands for the engine, oldest first, not sent yet.
    pub outbox: Vec<EngineCommand>,
}

/// The value of a [`ChessApp`].
pub struct AppView {
    pub history: HistoryView,
    pub notice: Option<Seq<char>>,
    pub board_flip: bool,
    pub show_eval_bar: bool,
    pub captured_display_style: CapturedPiecesStyle,
    pub play_vs_computer: bool,
    pub computer_color: Color,
    pub analysis: bool,
    pub analysis_complete: bool,
    pub search_kind: SearchKind,
    pub engine_status: StatusView,
    pub search_id: u64,
    pub engine_thinking: bool,
    pub engine_lines: Seq<LineView>,
    pub engine_nodes: u64,
    pub analysis_lines: u32,
    pub engine_multipv: u32,
    pub engine_depth: u32,
    pub engine_movetime: Option<u64>,
    pub engine_mode: EngineMode,
    pub engine_skill_level: i32,
    pub engine_threads: u64,
    pub engine_hash_mb: u32,
    pub disable_auto_request: bool,
    pub clock: Option<ClockView>,
    pub timeout: Option<Color>,
    pub resigned: Option<Color>,
    pub clock_enabled: bool,
    pub clock_minutes: u32,
    pub clock_increment_s: u32,
    pub theme_variant: ThemeVariant,
    pub animation: Option<(Move, u64)>,
    pub selected_square: Option<u8>,
    pub legal_moves_for_selected: Seq<Move>,
    pub pending_promotion: Option<(u8, u8)>,
    pub dragging_piece: Option<(u8, Piece, Color)>,
    pub engine_linked: bool,
    pub outbox: Seq<CommandView>,
}

pub open spec fn opt_clock(c: Option<Clock>) -> Option<ClockView> {
    match c {
        Some(c) => Some(c@),
        None => None,
    }
}

pub open spec fn opt_string(s: Option<String>) -> Option<Seq<char>> {
    match s {
        Some(s) => Some(s@),
        None => None,
    }
}

impl View for ChessApp {
    type V = AppView;

    open spec fn view(&self) -> AppView {
        AppView {
            history: self.game_history@,
            notice: opt_string(self.notice),
            board_flip: self.board_flip,
            show_eval_bar: self.show_eval_bar,
            captured_display_style: self.captured_display_style,
            play_vs_computer: self.play_vs_computer,
            computer_color: self.computer_color,
            analysis: self.analysis,
            analysis_complete: self.analysis_complete,
            search_kind: self.search_kind,
            engine_status: self.engine_status@,
            search_id: self.search_id,
            engine_thinking: self.engine_thinking,
            engine_lines: self.engine_lines@.map_values(|l: EngineLine| l@),
            engine_nodes: self.engine_nodes,
            analysis_lines: self.analysis_lines,
            engine_multipv: self.engine_multipv,
            engine_depth: self.engine_depth,
            engine_movetime: self.engine_movetime,
            engine_mode: self.engine_mode,
            engine_skill_level: self.engine_skill_level,
            engine_threads: self.engine_threads,
            engine_hash_mb: self.engine_hash_mb,
            disable_auto_request: self.disable_auto_request,
            clock: opt_clock(self.clock),
            timeout: self.timeout,
            resigned: self.resigned,
            clock_enabled: self.clock_enabled,
            clock_minutes: self.clock_minutes,
            clock_increment_s: self.clock_increment_s,
            theme_variant: self.theme_variant,
            animation: self.animation,
            selected_square: self.selected_square,
            legal_moves_for_selected: self.legal_moves_for_selected@,
            pending_promotion: self.pending_promotion,
            dragging_piece: self.dragging_piece,
            engine_linked: self.engine_linked,
            outbox: self.outbox@.map_values(|c: EngineCommand| c@),
        }
    }
}

impl AppView {
    /// The side to move on the board on screen.
    pub open spec fn to_move(self) -> Color {
        self.history.current_board().side
    }

    /// Mate, a draw, a flag fall or a resignation.
    #[verifier::opaque]
    pub open spec fn is_game_over(self) -> bool {
        self.timeout is Some || self.resigned is Some || checkmate_spec(self.history.current_board())
            || draw_reason_spec(self.history) is Some
    }

    /// In a game against the computer, the computer's turn.
    pub open spec fn computer_to_move(self) -> bool {
        self.play_vs_computer && self.to_move() == self.computer_color
    }

    /// `cmd` queued for the engine when one is linked.
    pub open spec fn sent(self, cmd: CommandView) -> AppView {
        if self.engine_linked { AppView { outbox: self.outbox.push(cmd), ..self } } else { self }
    }

    /// The running search forgotten: its replies carry the old id and are
    /// dropped, and the engine is told to stop when it was thinking.
    pub open spec fn aborted(self) -> AppView {
        let next = AppView { search_id: (self.search_id + 1) as u64, ..self };
        if self.engine_thinking {
            AppView { engine_thinking: false, ..next }.sent(CommandView::Stop)
        } else {
            next
        }
    }

    /// A new position on screen: any selection made on the old one goes, the
    /// analysis is to be done again, the notice goes, and the running search
    /// is forgotten.
    pub open spec fn position_changed(self) -> AppView {
        AppView {
            selected_square: None,
            legal_moves_for_selected: seq![],
            pending_promotion: None,
            analysis_complete: false,
            notice: None,
            ..self
        }.aborted()
    }

    /// The clock put back to where it stood at the current ply.
    pub open spec fn clock_synced(self) -> AppView {
        match self.clock {
            Some(c) => AppView { clock: Some(c.restore(self.history.current)), ..self },
            None => self,
        }
    }

    /// The result for the PGN, counting a loss on time or by resignation.
    pub open spec fn result(self) -> Seq<char> {
        let lost = if self.timeout is Some { self.timeout } else { self.resigned };
        match lost {
            Some(Color::White) => "0-1"@,
            Some(Color::Black) => "1-0"@,
            None => result_spec(self.history),
        }
    }
}

impl ChessApp {
    /// The game's history is well formed and the clock is a clock.
    pub open spec fn wf(&self) -> bool {
        &&& self.game_history@.wf()
        &&& self.clock matches Some(c) ==> c.wf()
    }

    /// Queue `command` for the engine. False when no engine is linked.
    pub fn send(&mut self, command: EngineCommand) -> (sent: bool)
        ensures
            sent == old(self)@.engine_linked,
            final(self)@ == old(self)@.sent(command@),
            final(self).game_history == old(self).game_history,
            final(self).clock == old(self).clock,
    {
        if self.engine_linked {
            let ghost before = self.outbox@.map_values(|c: EngineCommand| c@);
            let ghost cv = command@;
            self.outbox.push(command);
            proof {
                assert(self.outbox@.map_values(|c: EngineCommand| c@) =~= before.push(cv));
            }
            true
        } else {
            false
        }
    }

    /// The commands queued for the engine, taken out of the outbox.
    pub fn take_commands(&mut self) -> (cmds: Vec<EngineCommand>)
        ensures
            cmds@.map_values(|c: EngineCommand| c@) == old(self)@.outbox,
            final(self)@ == (AppView { outbox: seq![], ..old(self)@ }),
            final(self).game_history == old(self).game_history,
            final(self).clock == old(self).clock,
    {
        let mut cmds: Vec<EngineCommand> = Vec::new();
        std::mem::swap(&mut cmds, &mut self.outbox);
        proof {
            assert(self.outbox@.map_values(|c: EngineCommand| c@) =~= Seq::<CommandView>::empty());
        }
        cmds
    }

    /// Mate, a draw, a flag fall or a resignation.
    pub fn is_game_over(&self) -> (over: bool)
        requires
            self.wf(),
        ensures
            over == self@.is_game_over(),
    {
        proof {
            reveal(AppView::is_game_over);
        }
        self.timeout.is_some() || self.resigned.is_some() || self.game_history.is_over()
    }

    /// True in a game against the computer when it is the computer's turn.
    pub fn computer_to_move(&self) -> (b: bool)
        requires
            self.wf(),
        ensures
            b == self@.computer_to_move(),
    {
        self.play_vs_computer && self.game_history.current_board().side == self.computer_color
    }

    /// True while a search whose result will be played is running; board
    /// input waits for it. Analysis never blocks the board.
    pub fn waiting_for_engine_move(&self) -> (b: bool)
        ensures
            b == (self.engine_thinking && self.search_kind == SearchKind::Play),
    {
        self.engine_thinking && self.search_kind == SearchKind::Play
    }

    /// True when the engine panel and the eval bar have something to show.
    pub fn engine_in_use(&self) -> (b: bool)
        ensures
            b == (self.play_vs_computer || self.analysis),
    {
        self.play_vs_computer || self.analysis
    }

    /// Put the human's pieces at the bottom of the board.
    pub fn face_computer(&mut self)
        ensures
            final(self)@ == (AppView { board_flip: old(self)@.computer_color == Color::White, ..old(self)@ }),
            final(self).game_history == old(self).game_history,
            final(self).clock == old(self).clock,
    {
        self.board_flip = self.computer_color == Color::White;
    }

    /// The first line's score, from White's side.
    pub fn engine_evaluation(&self) -> (s: Option<Score>)
        ensures
            s == (if self@.engine_lines.len() > 0 { Some(self@.engine_lines[0].score) } else { None::<Score> }),
    {
        if self.engine_lines.len() > 0 {
            Some(self.engine_lines[0].score)
        } else {
            None
        }
    }

    /// The result for the PGN, including a loss on time or by resignation.
    pub fn result(&self) -> (r: &'static str)
        requires
            self.wf(),
        ensures
            r@ == self@.result(),
    {
        let lost = if self.timeout.is_some() { self.timeout } else { self.resigned };
        match lost {
            Some(Color::White) => "0-1",
            Some(Color::Black) => "1-0",
            None => self.game_history.result(),
        }
    }

    /// Forget the running search. Its replies carry the old id and are dropped.
    pub fn abort_search(&mut self)
        requires
            old(self).search_id < u64::MAX,
        ensures
            final(self)@ == old(self)@.aborted(),
            final(self).game_history == old(self).game_history,
            final(self).clock == old(self).clock,
    {
        self.search_id = self.search_id + 1;
        if self.engine_thinking {
            self.engine_thinking = false;
            self.send(EngineCommand::Stop);
        }
    }

    /// Drop any selection made on the old position, any search still running
    /// on it, and what the status panel said about it.
    pub fn position_changed(&mut self)
        requires
            old(self).search_id < u64::MAX,
        ensures
            final(self)@ == old(self)@.position_changed(),
            final(self).game_history == old(self).game_history,
            final(self).clock == old(self).clock,
    {
        self.selected_square = None;
        self.legal_moves_for_selected = Vec::new();
        self.pending_promotion = None;
        self.analysis_complete = false;
        self.notice = None;
        self.abort_search();
    }

    /// The side to move gives up; against the computer that is the human.
    #[verifier::spinoff_prover]
    #[verifier::rlimit(40)]
    pub fn resign(&mut self)
        requires
            old(self).wf(),
            old(self).search_id < u64::MAX,
        ensures
            final(self).wf(),
            final(self)@ == (if old(self)@.is_game_over() {
                old(self)@
            } else {
                let loser = if old(self)@.play_vs_computer {
                    old(self)@.computer_color.spec_opposite()
                } else {
                    old(self)@.to_move()
                };
                AppView { resigned: Some(loser), ..old(self)@ }.aborted()
            }),
    {
        if self.is_game_over() {
            return;
        }
        let loser = if self.play_vs_computer {
            self.computer_color.opposite()
        } else {
            self.game_history.current_board().side
        };
        self.resigned = Some(loser);
        self.abort_search();
    }
}

/// The square a file letter and a rank digit name.
pub open spec fn square_at(f: char, r: char) -> Option<u8> {
    if 'a' <= f <= 'h' && '1' <= r <= '8' {
        Some(((r as int - '1' as int) * 8 + (f as int - 'a' as int)) as u8)
    } else {
        None
    }
}

/// The promotion a fifth character asks for, if any.
pub open spec fn promotion_at(s: Seq<char>) -> Option<Piece> {
    if s.len() > 4 {
        if s[4] == 'q' { Some(Piece::Queen) }
        else if s[4] == 'r' { Some(Piece::Rook) }
        else if s[4] == 'b' { Some(Piece::Bishop) }
        else if s[4] == 'n' { Some(Piece::Knight) }
        else { None }
    } else {
        None
    }
}

/// The first of `ms` from `from` to `to` with promotion `p`, castling
/// counted by where the king lands.
pub open spec fn first_with(b: BoardView, ms: Seq<Move>, from: u8, to: u8, p: Option<Piece>) -> Option<Move>
    decreases ms.len(),
{
    if ms.len() == 0 {
        None
    } else if ms[0].from == from && destination_spec(b, ms[0]) == to as nat && ms[0].promotion == p {
        Some(ms[0])
    } else {
        first_with(b, ms.drop_first(), from, to, p)
    }
}

/// The legal move a UCI string names on `b`: two squares, then an optional
/// promotion letter; anything after that is not read.
pub open spec fn uci_move_spec(b: BoardView, s: Seq<char>) -> Option<Move> {
    if s.len() < 4 {
        None
    } else {
        match (square_at(s[0], s[1]), square_at(s[2], s[3])) {
            (Some(f), Some(t)) => first_with(b, legal_moves_spec(b), f, t, promotion_at(s)),
            _ => None,
        }
    }
}

fn square_from(f: char, r: char) -> (sq: Option<u8>)
    ensures
        sq == square_at(f, r),
        sq matches Some(x) ==> x < 64,
{
    if 'a' <= f && f <= 'h' && '1' <= r && r <= '8' {
        Some(((r as u32 - '1' as u32) * 8 + (f as u32 - 'a' as u32)) as u8)
    } else {
        None
    }
}

proof fn lemma_first_with_skip(b: BoardView, ms: Seq<Move>, from: u8, to: u8, p: Option<Piece>, i: int)
    requires
        0 <= i < ms.len(),
        !(ms[i].from == from && destination_spec(b, ms[i]) == to as nat && ms[i].promotion == p),
    ensures
        first_with(b, ms.skip(i), from, to, p) == first_with(b, ms.skip(i + 1), from, to, p),
{
    assert(ms.skip(i).drop_first() =~= ms.skip(i + 1));
}

/// The move after the board's `fen` and the moves played, as the UCI
/// `position` command takes it.
pub open spec fn moves_text(h: HistoryView, n: nat) -> Seq<char>
    decreases n,
{
    if n == 0 {
        seq![]
    } else {
        moves_text(h, (n - 1) as nat) + seq![' '] + uci_text(h.positions[n - 1], h.moves[n - 1])
    }
}

/// The `position` argument for the current line: the start position and
/// every move played.
pub open spec fn position_text(h: HistoryView) -> Seq<char> {
    let start = h.positions[0];
    let head = if start.same_setup(start_view()) { "startpos"@ } else { "fen "@ + fen_of(start) };
    if h.current == 0 { head } else { head + " moves"@ + moves_text(h, h.current) }
}

/// The SAN of the first `n` moves of a principal variation from `b`,
/// stopping at the first that is not legal there.
pub open spec fn pv_sans(b: BoardView, pv: Seq<Seq<char>>, n: nat) -> Seq<Seq<char>>
    decreases n,
{
    if n == 0 || pv.len() == 0 {
        seq![]
    } else {
        match uci_move_spec(b, pv[0]) {
            None => seq![],
            Some(mv) => seq![san_spec(b, mv)] + match after_spec(b, mv) {
                Some(next) => pv_sans(next, pv.drop_first(), (n - 1) as nat),
                None => seq![],
            },
        }
    }
}

/// The `position` argument for the current line: the start position and
/// every move played, so the engine can see repetitions and the
/// fifty-move clock.
pub fn position_of(history: &GameHistory) -> (s: String)
    requires
        history@.wf(),
    ensures
        s@ == position_text(history@),
{
    let start = history.start_board();
    let initial = start_position();
    let mut out: Vec<char> = Vec::new();
    if start.same_setup(&initial) {
        push_str(&mut out, "startpos");
    } else {
        push_str(&mut out, "fen ");
        push_chars(&mut out, &to_fen(start));
    }
    let pairs = history.played();
    if pairs.len() > 0 {
        push_str(&mut out, " moves");
        let ghost head = out@;
        let ghost h = history@;
        let mut i: usize = 0;
        while i < pairs.len()
            invariant
                h.wf(),
                pairs@.len() == h.current,
                forall|j: int| 0 <= j < pairs@.len() ==> (#[trigger] pairs@[j]).0@ == h.positions[j]
                    && pairs@[j].1 == h.moves[j] && pairs@[j].0.wf(),
                i <= pairs@.len(),
                out@ == head + moves_text(h, i as nat),
            decreases pairs.len() - i,
        {
            proof {
                assert(pairs@[i as int].0@ == h.positions[i as int]);
                assert(on_board(h.moves[i as int]));
            }
            out.push(' ');
            push_chars(&mut out, &uci_chars(&pairs[i].0, pairs[i].1));
            i = i + 1;
        }
    }
    string_of(out.as_slice())
}


impl ChessApp {
    /// The legal move a UCI string names on `board`.
    #[verifier::spinoff_prover]
    #[verifier::rlimit(40)]
    pub fn parse_uci_move(&self, move_str: &str, board: &Board) -> (mv: Option<Move>)
        requires
            board.wf(),
        ensures
            mv == uci_move_spec(board@, move_str@),
            mv matches Some(m) ==> on_board(m),
    {
        let s = crate::text::chars_of(move_str);
        if s.len() < 4 {
            return None;
        }
        let (from, to) = match (square_from(s[0], s[1]), square_from(s[2], s[3])) {
            (Some(f), Some(t)) => (f, t),
            _ => return None,
        };
        let promotion = if s.len() > 4 {
            if s[4] == 'q' { Some(Piece::Queen) }
            else if s[4] == 'r' { Some(Piece::Rook) }
            else if s[4] == 'b' { Some(Piece::Bishop) }
            else if s[4] == 'n' { Some(Piece::Knight) }
            else { None }
        } else {
            None
        };
        let moves = legal_moves(board);
        let ghost legal = legal_moves_spec(board@);
        proof {
            assert(legal.skip(0) =~= legal);
            assert(s@ == move_str@);
            assert(promotion == promotion_at(move_str@));
            assert(uci_move_spec(board@, move_str@) == first_with(board@, legal, from, to, promotion));
        }
        let mut i: usize = 0;
        while i < moves.len()
            invariant
                board.wf(),
                moves@ == legal,
                legal == legal_moves_spec(board@),
                forall|j: int| 0 <= j < moves@.len() ==> on_board(#[trigger] moves@[j]),
                i <= moves@.len(),
                first_with(board@, legal, from, to, promotion) == first_with(board@, legal.skip(i as int), from, to, promotion),
                uci_move_spec(board@, move_str@) == first_with(board@, legal, from, to, promotion),
            decreases moves.len() - i,
        {
            let m = moves[i];
            proof {
                assert(on_board(moves@[i as int]));
            }
            if m.from == from && destination(board, m) == to && m.promotion == promotion {
                proof {
                    assert(legal.skip(i as int)[0] == m);
                }
                return Some(m);
            }
            proof {
                lemma_first_with_skip(board@, legal, from, to, promotion, i as int);
            }
            i = i + 1;
        }
        None
    }

    /// The `position` argument for the current line: the start position and
    /// every move played, so the engine can see repetitions and the
    /// fifty-move clock.
    #[verifier::spinoff_prover]
    #[verifier::rlimit(40)]
    pub fn uci_position(&self) -> (s: String)
        requires
            self.wf(),
        ensures
            s@ == position_text(self@.history),
    {
        position_of(&self.game_history)
    }

    /// The SAN of the principal variation `pv` from the current position, at
    /// most six moves, stopping at the first that is not legal.
    #[verifier::spinoff_prover]
    #[verifier::rlimit(30)]
    pub fn format_pv_san(&self, pv: &[String]) -> (sans: Vec<String>)
        requires
            self.wf(),
        ensures
            sans@.map_values(|x: String| x@) == pv_sans(self@.history.current_board(), pv@.map_values(|x: String| x@), 6),
    {
        let mut formatted: Vec<String> = Vec::new();
        let mut board = self.game_history.current_board().copy();
        let ghost all = pv@.map_values(|x: String| x@);
        let ghost goal = pv_sans(board@, all, 6);
        let mut i: usize = 0;
        proof {
            assert(all.skip(0) =~= all);
        }
        while i < pv.len() && i < 6
            invariant
                all == pv@.map_values(|x: String| x@),
                board.wf(),
                i <= 6,
                i <= pv@.len(),
                goal == pv_sans(self@.history.current_board(), all, 6),
                goal == formatted@.map_values(|x: String| x@) + pv_sans(board@, all.skip(i as int), (6 - i) as nat),
            decreases 6 - i,
        {
            let ghost rest = all.skip(i as int);
            proof {
                assert(rest[0] == pv@[i as int]@);
                assert(rest.drop_first() =~= all.skip(i + 1));
            }
            match self.parse_uci_move(pv[i].as_str(), &board) {
                None => {
                    proof {
                        assert(formatted@.map_values(|x: String| x@) + seq![] =~= formatted@.map_values(|x: String| x@));
                    }
                    return formatted;
                },
                Some(mv) => {
                    let san = string_of(san_chars(mv, &board).as_slice());
                    let ghost before = formatted@.map_values(|x: String| x@);
                    formatted.push(san);
                    proof {
                        assert(formatted@.map_values(|x: String| x@) =~= before.push(san_spec(board@, mv)));
                    }
                    match after(&board, mv) {
                        Some(next) => {
                            board = next;
                        },
                        None => {
                            proof {
                                assert(goal =~= formatted@.map_values(|x: String| x@));
                            }
                            return formatted;
                        },
                    }
                },
            }
            i = i + 1;
        }
        proof {
            assert(pv_sans(board@, all.skip(i as int), (6 - i) as nat) == Seq::<Seq<char>>::empty());
            assert(formatted@.map_values(|x: String| x@) + Seq::<Seq<char>>::empty() =~= formatted@.map_values(|x: String| x@));
        }
        formatted
    }
}

/// A search's limit: on a clock the engine manages its own time when it
/// is to play; otherwise the fixed depth or time.
pub open spec fn limit_for(a: AppView, kind: SearchKind) -> SearchLimit {
    match (kind, a.clock) {
        (SearchKind::Play, Some(c)) => SearchLimit::Clock {
            wtime: c.white as u64,
            btime: c.black as u64,
            winc: c.increment as u64,
            binc: c.increment as u64,
        },
        _ => match a.engine_mode {
            EngineMode::Depth => SearchLimit::Depth(a.engine_depth),
            EngineMode::TimeLimit => SearchLimit::MoveTime(match a.engine_movetime {
                Some(t) => t,
                None => 1000,
            }),
        },
    }
}

impl AppView {
    /// A search of `kind` started on the position on screen: the number of
    /// lines set when it changes, lines beyond the first dropped, a new id,
    /// the request queued, and the engine thinking when it could be asked.
    pub open spec fn started(self, kind: SearchKind) -> AppView {
        self.lines_set(kind).renewed().requested(kind)
    }

    /// The number of lines a search of `kind` asks for.
    pub open spec fn lines_for(self, kind: SearchKind) -> u32 {
        if kind == SearchKind::Play { 1 } else { self.analysis_lines }
    }

    /// The engine told the number of lines for `kind` when it has another.
    pub open spec fn lines_set(self, kind: SearchKind) -> AppView {
        let lines = self.lines_for(kind);
        if lines != self.engine_multipv {
            AppView {
                engine_multipv: lines,
                ..self.sent(CommandView::SetOption { name: "MultiPV"@, value: decimal(lines as nat) })
            }
        } else {
            self
        }
    }

    /// Lines beyond the first dropped, as they belong to the position
    /// searched before, and a new search id.
    pub open spec fn renewed(self) -> AppView {
        AppView {
            engine_lines: if self.engine_lines.len() > 1 { self.engine_lines.take(1) } else { self.engine_lines },
            search_id: (self.search_id + 1) as u64,
            ..self
        }
    }

    /// The request for a search of `kind` queued under the current id.
    pub open spec fn requested(self, kind: SearchKind) -> AppView {
        let request = CommandView::Search {
            id: self.search_id,
            position: position_text(self.history),
            limit: limit_for(self, kind),
            skill_level: if kind == SearchKind::Play { self.engine_skill_level } else { 20 },
        };
        AppView { search_kind: kind, engine_thinking: self.engine_linked, ..self.sent(request) }
    }

    /// The search the position calls for, if any: the computer's move when it
    /// is its turn on the live line, else an analysis of the position on
    /// screen when that is switched on and not done yet.
    pub open spec fn auto_requested(self) -> AppView {
        if self.engine_thinking || !(self.engine_status is Ready) || self.is_game_over() {
            self
        } else if self.computer_to_move() && !self.disable_auto_request {
            self.started(SearchKind::Play)
        } else if self.analysis && !self.analysis_complete {
            self.started(SearchKind::Analyse)
        } else {
            self
        }
    }

    /// The engine's options for threads and hash queued.
    pub open spec fn options_sent(self) -> AppView {
        self.sent(CommandView::SetOption { name: "Threads"@, value: decimal(self.engine_threads as nat) })
            .sent(CommandView::SetOption { name: "Hash"@, value: decimal(self.engine_hash_mb as nat) })
    }

    /// `mv` played on the position on screen at `now`: the mover's clock
    /// pressed, the move animated, and the old position's search dropped.
    pub open spec fn played_move(self, mv: Move, now: u64) -> AppView {
        let mover = self.to_move();
        let h = self.history.make_move(mv);
        let clock = match self.clock {
            Some(c) => Some(c.press(mover, now as nat, h.current)),
            None => None,
        };
        AppView { history: h, clock, animation: Some((mv, now)), disable_auto_request: false, ..self }.position_changed()
    }

    /// One step through the history, and a second against the computer so
    /// the human is to move again; nothing when there is no step to take.
    pub open spec fn stepped(self, forward: bool, now: u64) -> AppView {
        let can = if forward { self.history.can_redo() } else { self.history.can_undo() };
        if !can { self } else { self.step_once(forward).second_step(forward).settled(forward, now) }
    }

    /// One move forward or back through the history.
    pub open spec fn step_once(self, forward: bool) -> AppView {
        AppView { history: if forward { self.history.redo() } else { self.history.undo() }, ..self }
    }

    /// Another step when that leaves the computer to move.
    pub open spec fn second_step(self, forward: bool) -> AppView {
        if self.computer_to_move() { self.step_once(forward) } else { self }
    }

    /// After stepping: the old search dropped, requests allowed again, the
    /// clock put back, and the piece of the last ply stepped sliding, back
    /// to where it came from when going back.
    pub open spec fn settled(self, forward: bool, now: u64) -> AppView {
        AppView { disable_auto_request: false, ..self.position_changed() }.clock_synced().animated(forward, now)
    }

    pub open spec fn animated(self, forward: bool, now: u64) -> AppView {
        let ply = self.history.current;
        let shown = if forward {
            if ply >= 1 && ply - 1 < self.history.moves.len() { Some(self.history.moves[ply - 1]) } else { None }
        } else {
            if ply < self.history.moves.len() {
                let mv = self.history.moves[ply as int];
                Some(Move { from: mv.to, to: mv.from, promotion: None })
            } else {
                None
            }
        };
        AppView {
            animation: match shown {
                Some(mv) => Some((mv, now)),
                None => None,
            },
            ..self
        }
    }

    /// The position after `ply` moves shown, or the last one when there are
    /// fewer; the engine stays quiet unless that is the live end.
    pub open spec fn jumped(self, ply: nat) -> AppView {
        let last = (self.history.positions.len() - 1) as nat;
        let h = HistoryView { current: if ply < last { ply } else { last }, ..self.history };
        let a = AppView { history: h, ..self }.position_changed();
        AppView { disable_auto_request: h.can_redo(), ..a }.clock_synced()
    }

    /// A new game from `h`: a fresh clock when the time control is on, no
    /// flag fallen and nobody resigned, the engine told, its lines cleared.
    pub open spec fn game_started(self, h: HistoryView) -> AppView {
        let fresh = if self.clock_enabled {
            Some(ClockView {
                white: (self.clock_minutes * 60000) as nat,
                black: (self.clock_minutes * 60000) as nat,
                increment: (self.clock_increment_s * 1000) as nat,
                started: false,
                last_tick: None,
                snapshots: seq![((self.clock_minutes * 60000) as nat, (self.clock_minutes * 60000) as nat)],
            })
        } else {
            None
        };
        let a = AppView { history: h, clock: fresh, timeout: None, resigned: None, ..self }.position_changed();
        AppView { engine_nodes: 0, engine_lines: seq![], disable_auto_request: false, ..a.sent(CommandView::NewGame) }
    }
}

/// Whether `a` and `b` hold the same text.
fn same_text(a: &String, b: &String) -> (same: bool)
    ensures
        same == (a@ == b@),
{
    let x = crate::text::chars_of(a.as_str());
    let y = crate::text::chars_of(b.as_str());
    crate::text::same_chars(&x, &y)
}

impl ChessApp {
    /// Queue the Threads and Hash options for the engine.
    pub fn send_engine_options(&mut self)
        ensures
            final(self)@ == old(self)@.options_sent(),
            final(self).game_history == old(self).game_history,
            final(self).clock == old(self).clock,
    {
        let mut threads: Vec<char> = Vec::new();
        push_decimal(&mut threads, self.engine_threads);
        let mut hash: Vec<char> = Vec::new();
        push_decimal(&mut hash, self.engine_hash_mb as u64);
        self.send(EngineCommand::SetOption {
            name: String::from_str("Threads"),
            value: string_of(threads.as_slice()),
        });
        self.send(EngineCommand::SetOption {
            name: String::from_str("Hash"),
            value: string_of(hash.as_slice()),
        });
    }

    fn set_lines(&mut self, kind: SearchKind)
        ensures
            final(self)@ == old(self)@.lines_set(kind),
            final(self).game_history == old(self).game_history,
            final(self).clock == old(self).clock,
    {
        let lines: u32 = match kind {
            SearchKind::Play => 1,
            SearchKind::Analyse => self.analysis_lines,
        };
        if lines != self.engine_multipv {
            let mut value: Vec<char> = Vec::new();
            push_decimal(&mut value, lines as u64);
            self.send(EngineCommand::SetOption { name: String::from_str("MultiPV"), value: string_of(value.as_slice()) });
            self.engine_multipv = lines;
        }
    }

    fn renew(&mut self)
        requires
            old(self).search_id < u64::MAX,
        ensures
            final(self)@ == old(self)@.renewed(),
            final(self).game_history == old(self).game_history,
            final(self).clock == old(self).clock,
    {
        let ghost before_cut = self.engine_lines@.map_values(|l: EngineLine| l@);
        self.engine_lines.truncate(1);
        proof {
            assert(self.engine_lines@.map_values(|l: EngineLine| l@)
                =~= (if before_cut.len() > 1 { before_cut.take(1) } else { before_cut }));
        }
        self.search_id = self.search_id + 1;
    }

    #[verifier::spinoff_prover]
    #[verifier::rlimit(40)]
    fn request(&mut self, kind: SearchKind)
        requires
            old(self).wf(),
        ensures
            final(self)@ == old(self)@.requested(kind),
            final(self).game_history == old(self).game_history,
            final(self).clock == old(self).clock,
    {
        let limit = match (kind, &self.clock) {
            (SearchKind::Play, Some(clock)) => {
                let inc = clock.increment();
                SearchLimit::Clock {
                    wtime: clock.remaining(Color::White),
                    btime: clock.remaining(Color::Black),
                    winc: inc,
                    binc: inc,
                }
            },
            _ => match self.engine_mode {
                EngineMode::Depth => SearchLimit::Depth(self.engine_depth),
                EngineMode::TimeLimit => SearchLimit::MoveTime(match self.engine_movetime {
                    Some(t) => t,
                    None => 1000,
                }),
            },
        };
        let request = SearchRequest {
            id: self.search_id,
            position: self.uci_position(),
            limit,
            skill_level: match kind {
                SearchKind::Play => self.engine_skill_level,
                SearchKind::Analyse => 20,
            },
        };
        self.search_kind = kind;
        self.engine_thinking = self.send(EngineCommand::Search(request));
    }

    /// Start a search of `kind` on the position on screen.
    pub fn start_search(&mut self, kind: SearchKind)
        requires
            old(self).wf(),
            old(self).search_id < u64::MAX,
        ensures
            final(self).wf(),
            final(self)@ == old(self)@.started(kind),
    {
        self.set_lines(kind);
        self.renew();
        self.request(kind);
    }

    /// Start whichever search the position calls for, if any.
    pub fn auto_request(&mut self)
        requires
            old(self).wf(),
            old(self).search_id < u64::MAX,
        ensures
            final(self).wf(),
            final(self)@ == old(self)@.auto_requested(),
    {
        let ready = match self.engine_status {
            EngineStatus::Ready => true,
            _ => false,
        };
        if self.engine_thinking || !ready || self.is_game_over() {
            return;
        }
        if self.computer_to_move() && !self.disable_auto_request {
            self.start_search(SearchKind::Play);
        } else if self.analysis && !self.analysis_complete {
            self.start_search(SearchKind::Analyse);
        }
    }

    /// Play a move on the current position at `now`, whoever chose it.
    #[verifier::spinoff_prover]
    #[verifier::rlimit(40)]
    pub fn play_move(&mut self, mv: Move, now: u64)
        requires
            old(self).wf(),
            old(self).search_id < u64::MAX,
        ensures
            final(self).wf(),
            final(self)@ == old(self)@.played_move(mv, now),
        on_board(mv) && legal_moves_spec(old(self)@.history.current_board()).contains(mv) ==> {
            &&& final(self)@.history.current == old(self)@.history.current + 1
            &&& final(self)@.history.moves.len() == final(self)@.history.current
            &&& final(self)@.history.moves.last() == mv
        },
    {
        let mover = self.game_history.current_board().side;
        self.game_history.make_move(mv);
        let ply = self.game_history.move_count();
        let mut clock = self.clock.take();
        if let Some(c) = &mut clock {
            c.press(mover, now, ply);
        }
        self.clock = clock;
        self.animation = Some((mv, now));
        self.disable_auto_request = false;
        self.position_changed();
    }
}

/// An event whose score, if it carries one, can be seen from either side.
pub open spec fn event_fits(e: EventView) -> bool {
    !(e matches EventView::Search { response: ResponseView::Info { score, .. }, .. } && score.value() == i32::MIN)
}

impl AppView {
    /// A search line as the application keeps it: the score from White's side.
    pub open spec fn line_from(self, depth: u32, score: Score, pv: Seq<Seq<char>>) -> LineView {
        LineView {
            depth,
            score: if self.to_move() == Color::Black { score.negated() } else { score },
            pv,
        }
    }

    /// The state after one event from the engine, and, for the end of the
    /// search whose move is to be played, that move (none when the position
    /// has no legal move).
    pub open spec fn event_handled(self, e: EventView) -> (AppView, Option<Option<Seq<char>>>) {
        match e {
            EventView::Ready => (AppView { engine_status: StatusView::Ready, ..self }.options_sent(), None),
            EventView::Failed(m) => (
                AppView { engine_status: StatusView::Failed(m), engine_thinking: false, play_vs_computer: false, ..self },
                None,
            ),
            EventView::Search { id, response } => {
                if id != self.search_id {
                    (self, None)
                } else {
                    match response {
                        ResponseView::Info { depth, multipv, score, nodes, nps, pv } => (self.info_taken(depth, multipv, score, nodes, pv), None),
                        ResponseView::BestMove { mv, ponder } => self.search_ended(mv),
                        _ => (self, None),
                    }
                }
            },
        }
    }

    /// A search update taken in for the line numbered `multipv` (from 1): it
    /// replaces that line when there is one, is added when it is the next
    /// line, and is dropped when it would leave a gap. Its node count becomes
    /// the one shown.
    pub open spec fn info_taken(self, depth: u32, multipv: u32, score: Score, nodes: u64, pv: Seq<Seq<char>>) -> AppView {
        let line = self.line_from(depth, score, pv);
        let index: nat = if multipv > 0 { (multipv - 1) as nat } else { 0 };
        AppView {
            engine_lines: if index < self.engine_lines.len() {
                self.engine_lines.update(index as int, line)
            } else if index == self.engine_lines.len() {
                self.engine_lines.push(line)
            } else {
                self.engine_lines
            },
            engine_nodes: nodes,
            ..self
        }
    }

    /// The current search ended with `mv`: an analysis is complete; a move
    /// to be played is handed on, and the first line keeps only what follows
    /// it, so it still reads from the new position.
    pub open spec fn search_ended(self, mv: Option<Seq<char>>) -> (AppView, Option<Option<Seq<char>>>) {
        let a = AppView { engine_thinking: false, ..self };
        if a.search_kind == SearchKind::Analyse {
            (AppView { analysis_complete: true, ..a }, None)
        } else {
            let lines = a.engine_lines;
            let keep = if lines.len() > 0 && mv is Some && lines[0].pv.len() > 0 && lines[0].pv[0] == mv->0 {
                lines.update(0, LineView { pv: lines[0].pv.drop_first(), ..lines[0] })
            } else {
                lines
            };
            (AppView { engine_lines: keep, ..a }, Some(mv))
        }
    }

    /// The state after the first `n` events, and the move to play from the
    /// last search end among them that asked for one.
    pub open spec fn polled(self, es: Seq<EventView>, n: nat) -> (AppView, Option<Seq<char>>)
        decreases n,
    {
        if n == 0 || n > es.len() {
            (self, None)
        } else {
            let (a, best) = self.polled(es, (n - 1) as nat);
            let (b, r) = a.event_handled(es[n - 1]);
            (b, match r {
                Some(mv) => mv,
                None => best,
            })
        }
    }
}

/// `line` as line `index` of `lines`: in place of the one there, after the
/// last one when `index` is the count, and nowhere when that leaves a gap.
fn put_line(lines: &mut Vec<EngineLine>, index: usize, line: EngineLine)
    ensures
        final(lines)@.map_values(|l: EngineLine| l@) == (if index < old(lines)@.len() {
            old(lines)@.map_values(|l: EngineLine| l@).update(index as int, line@)
        } else if index == old(lines)@.len() {
            old(lines)@.map_values(|l: EngineLine| l@).push(line@)
        } else {
            old(lines)@.map_values(|l: EngineLine| l@)
        }),
{
    let ghost before = lines@.map_values(|l: EngineLine| l@);
    let ghost lv = line@;
    if index < lines.len() {
        lines.set(index, line);
        proof {
            assert(lines@.map_values(|l: EngineLine| l@) =~= before.update(index as int, lv));
        }
    } else if index == lines.len() {
        lines.push(line);
        proof {
            assert(lines@.map_values(|l: EngineLine| l@) =~= before.push(lv));
        }
    }
}

impl ChessApp {
    fn take_info(&mut self, depth: u32, multipv: u32, score: Score, nodes: u64, pv: Vec<String>)
        requires
            old(self).wf(),
            score.value() != i32::MIN,
        ensures
            final(self).wf(),
            final(self)@ == old(self)@.info_taken(depth, multipv, score, nodes, pv@.map_values(|w: String| w@)),
    {
        let black_to_move = self.game_history.current_board().side == Color::Black;
        let line = EngineLine { depth, score: if black_to_move { score.flipped() } else { score }, pv };
        let index: usize = if multipv > 0 { (multipv - 1) as usize } else { 0 };
        put_line(&mut self.engine_lines, index, line);
        self.engine_nodes = nodes;
    }

    #[verifier::spinoff_prover]
    #[verifier::rlimit(40)]
    fn end_search(&mut self, mv: Option<String>) -> (best: Option<Option<String>>)
        requires
            old(self).wf(),
        ensures
            final(self).wf(),
            final(self)@ == old(self)@.search_ended(opt_string(mv)).0,
            (match best {
                Some(m) => Some(opt_string(m)),
                None => None,
            }) == old(self)@.search_ended(opt_string(mv)).1,
    {
        self.engine_thinking = false;
        if self.search_kind == SearchKind::Analyse {
            self.analysis_complete = true;
            return None;
        }
        let ghost before = self.engine_lines@.map_values(|l: EngineLine| l@);
        let drop_first = match &mv {
            Some(m) => self.engine_lines.len() > 0 && self.engine_lines[0].pv.len() > 0
                && same_text(&self.engine_lines[0].pv[0], m),
            None => false,
        };
        proof {
            if drop_first {
                assert(before[0].pv[0] == self.engine_lines@[0].pv@[0]@);
            }
        }
        if drop_first {
            let mut first = self.engine_lines.remove(0);
            let ghost fv = first@;
            first.pv.remove(0);
            proof {
                assert(first.pv@.map_values(|w: String| w@) =~= fv.pv.drop_first());
            }
            let ghost nv = first@;
            self.engine_lines.insert(0, first);
            proof {
                assert(self.engine_lines@.map_values(|l: EngineLine| l@) =~= before.update(0, nv));
            }
        }
        Some(mv)
    }

    /// Take in one event from the engine's thread. Returns the move to play
    /// when it ends the current search of a move to be played.
    #[verifier::spinoff_prover]
    #[verifier::rlimit(40)]
    pub fn handle_event(&mut self, event: EngineEvent) -> (best: Option<Option<String>>)
        requires
            old(self).wf(),
            event_fits(event@),
        ensures
            final(self).wf(),
            final(self)@ == old(self)@.event_handled(event@).0,
            (match best {
                Some(mv) => Some(opt_string(mv)),
                None => None,
            }) == old(self)@.event_handled(event@).1,
    {
        match event {
            EngineEvent::Ready => {
                self.engine_status = EngineStatus::Ready;
                self.send_engine_options();
                None
            },
            EngineEvent::Failed(message) => {
                self.engine_status = EngineStatus::Failed(message);
                self.engine_thinking = false;
                self.play_vs_computer = false;
                None
            },
            EngineEvent::Search { id, response } => {
                if id != self.search_id {
                    return None;
                }
                match response {
                    EngineResponse::Info { depth, multipv, score, nodes, nps, pv } => {
                        self.take_info(depth, multipv, score, nodes, pv);
                        None
                    },
                    EngineResponse::BestMove { mv, ponder } => self.end_search(mv),
                    _ => None,
                }
            },
        }
    }

    /// Take in everything the engine's thread sent since the last frame.
    /// Returns the best move of the current search once it has arrived.
    #[verifier::spinoff_prover]
    #[verifier::rlimit(40)]
    pub fn poll_engine_responses(&mut self, events: Vec<EngineEvent>) -> (best: Option<String>)
        requires
            old(self).wf(),
            forall|i: int| 0 <= i < events@.len() ==> event_fits(#[trigger] events@[i]@),
        ensures
            final(self).wf(),
            final(self)@ == old(self)@.polled(events@.map_values(|e: EngineEvent| e@), events@.len()).0,
            opt_string(best) == old(self)@.polled(events@.map_values(|e: EngineEvent| e@), events@.len()).1,
    {
        let ghost es = events@.map_values(|e: EngineEvent| e@);
        let ghost start = self@;
        let n = events.len();
        let mut rest = events;
        let mut best: Option<String> = None;
        let mut i: usize = 0;
        while rest.len() > 0
            invariant
                self.wf(),
                i <= es.len(),
                es.len() == n,
                rest@.map_values(|e: EngineEvent| e@) == es.skip(i as int),
                forall|j: int| 0 <= j < es.len() ==> event_fits(#[trigger] es[j]),
                start.polled(es, i as nat) == (self@, opt_string(best)),
            decreases rest.len(),
        {
            let ghost rv = rest@.map_values(|e: EngineEvent| e@);
            proof {
                assert(rv.len() == rest@.len());
                assert(rv.len() == es.len() - i);
            }
            let ghost rs = rest@;
            let event = rest.remove(0);
            proof {
                assert(rv[0] == es[i as int]);
                assert(rest@ =~= rs.subrange(1, rs.len() as int));
                let ghost now_rest = rest@.map_values(|e: EngineEvent| e@);
                assert forall|j: int| 0 <= j < rest@.len() implies
                    #[trigger] now_rest[j] == es.skip(i + 1)[j] by {
                    assert(rest@[j] == rs[j + 1]);
                    assert(rv[j + 1] == rs[j + 1]@);
                    assert(rv[j + 1] == es[i + 1 + j]);
                }
                assert(now_rest =~= es.skip(i + 1));
                assert(event@ == es[i as int]);
            }
            match self.handle_event(event) {
                Some(mv) => best = mv,
                None => {},
            }
            i = i + 1;
        }
        proof {
            assert(es.skip(i as int).len() == 0);
        }
        best
    }
}

/// The flag of `side` falls on clock `c` at `now`.
pub open spec fn flag_falls(c: ClockView, side: Color, now: u64) -> bool {
    c.started && c.tick(side, now as nat).remaining(side) == 0
}

impl AppView {
    /// The engine's move `text` played at `now`, or, when it is not legal
    /// on the position on screen, a notice and no further requests.
    pub open spec fn engine_move_applied(self, text: Seq<char>, now: u64) -> AppView {
        match uci_move_spec(self.history.current_board(), text) {
            Some(mv) => self.played_move(mv, now),
            None => AppView {
                notice: Some("Engine played "@ + text + ", which is not legal here"@),
                disable_auto_request: true,
                ..self
            },
        }
    }

    /// The clock charged at `now`: paused while the game is over or the
    /// history is being browsed; a fallen flag ends the game.
    pub open spec fn clock_ticked(self, now: u64) -> AppView {
        match self.clock {
            None => self,
            Some(c) => {
                if self.is_game_over() || self.history.can_redo() {
                    AppView { clock: Some(ClockView { last_tick: None, ..c }), ..self }
                } else {
                    self.charged(c, now)
                }
            },
        }
    }

    /// The side to move charged on clock `c` at `now`.
    pub open spec fn charged(self, c: ClockView, now: u64) -> AppView {
        let side = self.to_move();
        let a = AppView { clock: Some(c.tick(side, now as nat)), ..self };
        if flag_falls(c, side, now) { AppView { timeout: Some(side), ..a }.aborted() } else { a }
    }
}

impl ChessApp {
    /// Play the engine's move, given in UCI.
    #[verifier::spinoff_prover]
    #[verifier::rlimit(40)]
    pub fn apply_engine_move(&mut self, move_str: &str, now: u64)
        requires
            old(self).wf(),
            old(self).search_id < u64::MAX,
        ensures
            final(self).wf(),
            final(self)@ == old(self)@.engine_move_applied(move_str@, now),
    {
        let parsed = self.parse_uci_move(move_str, self.game_history.current_board());
        match parsed {
            Some(mv) => self.play_move(mv, now),
            None => {
                let mut text: Vec<char> = Vec::new();
                push_str(&mut text, "Engine played ");
                push_str(&mut text, move_str);
                push_str(&mut text, ", which is not legal here");
                self.notice = Some(string_of(text.as_slice()));
                // Without this the next frame would ask again, forever.
                self.disable_auto_request = true;
            },
        }
    }

    /// Put the clock back to where it stood at the current ply.
    fn sync_clock(&mut self)
        requires
            old(self).wf(),
        ensures
            final(self).wf(),
            final(self)@ == old(self)@.clock_synced(),
    {
        let ply = self.game_history.move_count();
        let mut clock = self.clock.take();
        if let Some(c) = &mut clock {
            c.restore(ply);
        }
        self.clock = clock;
    }

    fn step_once(&mut self, forward: bool) -> (done: bool)
        requires
            old(self).wf(),
        ensures
            final(self).wf(),
            final(self)@ == old(self)@.step_once(forward),
            final(self).search_id == old(self).search_id,
            done == (if forward { old(self)@.history.can_redo() } else { old(self)@.history.can_undo() }),
    {
        if forward { self.game_history.redo() } else { self.game_history.undo() }
    }

    fn animate(&mut self, forward: bool, now: u64)
        requires
            old(self).wf(),
        ensures
            final(self).wf(),
            final(self)@ == old(self)@.animated(forward, now),
    {
        let ply = self.game_history.move_count();
        let shown = if forward {
            if ply >= 1 {
                match self.game_history.get_move(ply - 1) {
                    Some(mv) => Some(*mv),
                    None => None,
                }
            } else {
                None
            }
        } else {
            match self.game_history.get_move(ply) {
                Some(mv) => Some(Move { from: mv.to, to: mv.from, promotion: None }),
                None => None,
            }
        };
        self.animation = match shown {
            Some(mv) => Some((mv, now)),
            None => None,
        };
    }

    #[verifier::rlimit(40)]
    fn step_history(&mut self, forward: bool, now: u64)
        requires
            old(self).wf(),
            old(self).search_id < u64::MAX,
        ensures
            final(self).wf(),
            final(self)@ == old(self)@.stepped(forward, now),
    {
        let ghost a0 = self@;
        if !self.step_once(forward) {
            return;
        }
        let ghost a1 = self@;
        if self.computer_to_move() {
            self.step_once(forward);
        }
        assert(self@ == a1.second_step(forward));
        let ghost a2 = self@;
        self.position_changed();
        // Still the computer's turn means an end of the history; let it play.
        self.disable_auto_request = false;
        assert(self@ == (AppView { disable_auto_request: false, ..a2.position_changed() }));
        self.sync_clock();
        self.animate(forward, now);
        assert(self@ == a2.settled(forward, now));
    }

    /// Take back one ply, or two against the computer so the human is to
    /// move again.
    pub fn undo(&mut self, now: u64)
        requires
            old(self).wf(),
            old(self).search_id < u64::MAX,
        ensures
            final(self).wf(),
            final(self)@ == old(self)@.stepped(false, now),
    {
        self.step_history(false, now);
    }

    /// Replay one ply, or two against the computer so the human is to move
    /// again.
    pub fn redo(&mut self, now: u64)
        requires
            old(self).wf(),
            old(self).search_id < u64::MAX,
        ensures
            final(self).wf(),
            final(self)@ == old(self)@.stepped(true, now),
    {
        self.step_history(true, now);
    }

    /// Show the position after `ply` moves. The engine stays quiet unless
    /// that is the live end of the history.
    #[verifier::spinoff_prover]
    #[verifier::rlimit(40)]
    pub fn jump_to_ply(&mut self, ply: usize)
        requires
            old(self).wf(),
            old(self).search_id < u64::MAX,
        ensures
            final(self).wf(),
            final(self)@ == old(self)@.jumped(ply as nat),
    {
        let ghost h0 = self.game_history@;
        let current = self.game_history.move_count();
        if ply < current {
            let mut k: usize = ply;
            while k < current
                invariant
                    self.wf(),
                    self.search_id == old(self).search_id,
                    self@ == (AppView { history: self.game_history@, ..old(self)@ }),
                    self.game_history@ == (HistoryView { current: (current - (k - ply)) as nat, ..h0 }),
                    ply <= k <= current,
                    current == h0.current,
                    h0.wf(),
                decreases current - k,
            {
                self.game_history.undo();
                k = k + 1;
            }
        } else {
            let mut j: usize = current;
            while j < ply
                invariant
                    self.wf(),
                    self.search_id == old(self).search_id,
                    self@ == (AppView { history: self.game_history@, ..old(self)@ }),
                    current <= j <= ply,
                    current == h0.current,
                    h0.wf(),
                    self.game_history@ == (HistoryView {
                        current: if j < h0.positions.len() - 1 { j as nat } else { (h0.positions.len() - 1) as nat },
                        ..h0
                    }),
                decreases ply - j,
            {
                self.game_history.redo();
                j = j + 1;
            }
        }
        self.position_changed();
        self.disable_auto_request = self.game_history.can_redo();
        self.sync_clock();
    }

    #[verifier::spinoff_prover]
    #[verifier::rlimit(40)]
    fn charge(&mut self, clock: Clock, now: u64) -> (running: bool)
        requires
            old(self).wf(),
            old(self).search_id < u64::MAX,
            clock.wf(),
        ensures
            final(self).wf(),
            final(self)@ == old(self)@.charged(clock@, now),
            running == (!flag_falls(clock@, old(self)@.to_move(), now) && clock@.tick(old(self)@.to_move(), now as nat).is_running()),
    {
        let side = self.game_history.current_board().side;
        let mut clock = clock;
        let flagged = clock.tick(side, now);
        let running = clock.is_running();
        self.clock = Some(clock);
        if flagged {
            self.timeout = Some(side);
            self.abort_search();
            false
        } else {
            running
        }
    }

    /// Charge the side to move at `now` and stop the game when its flag
    /// falls. Paused while browsing the history and once the game is over.
    /// True while the clock runs, so the display keeps moving.
    #[verifier::spinoff_prover]
    #[verifier::rlimit(60)]
    pub fn tick_clock(&mut self, now: u64) -> (running: bool)
        requires
            old(self).wf(),
            old(self).search_id < u64::MAX,
        ensures
            final(self).wf(),
            final(self)@ == old(self)@.clock_ticked(now),
            running == (old(self)@.clock is Some && !(old(self)@.is_game_over() || old(self)@.history.can_redo())
                && !flag_falls(old(self)@.clock->0, old(self)@.to_move(), now)
                && old(self)@.clock->0.tick(old(self)@.to_move(), now as nat).is_running()),
    {
        let ghost a0 = self@;
        let paused = self.is_game_over() || self.game_history.can_redo();
        let taken = self.clock.take();
        let clock = match taken {
            Some(c) => c,
            None => {
                assert(self@ == a0);
                return false;
            },
        };
        assert(a0.clock == Some(clock@));
        if paused {
            let mut c = clock;
            c.pause();
            self.clock = Some(c);
            assert(self@ == (AppView { clock: Some(ClockView { last_tick: None, ..clock@ }), ..a0 }));
            return false;
        }
        assert(self@ == (AppView { clock: None, ..a0 }));
        let running = self.charge(clock, now);
        assert(self@ == a0.charged(clock@, now));
        running
    }
}

/// Half of `available` threads, between one and four.
pub open spec fn half_the_threads(available: u64) -> u64 {
    if available / 2 < 1 { 1 } else if available / 2 > 4 { 4 } else { available / 2 }
}

/// Half the machine's threads, between one and four: enough for a strong
/// opponent without taking the whole machine.
pub fn default_threads(available: u64) -> (n: u64)
    ensures
        n == half_the_threads(available),
{
    let half = available / 2;
    if half < 1 { 1 } else if half > 4 { 4 } else { half }
}

/// What the board shows on a square besides its piece.
#[derive(Debug, Clone, Copy, PartialEq, Eq, Structural)]
pub struct SquareMarks {
    /// A square of the move that made the position on screen.
    pub last_move: bool,
    /// The square of the picked-up piece.
    pub selected: bool,
    /// The king of the side to move, in check.
    pub checked_king: bool,
    /// Where the picked-up piece may go.
    pub legal_target: bool,
}

/// The square drawn at `rank` and `file` from the top left corner of the
/// board, with White at the bottom unless the board is turned round.
pub fn display_square(rank: u8, file: u8, flipped: bool) -> (sq: u8)
    requires
        rank < 8,
        file < 8,
    ensures
        sq == (if flipped { rank as int } else { 7 - rank }) * 8 + (if flipped { 7 - file } else { file as int }),
        sq < 64,
{
    let r = if flipped { rank } else { 7 - rank };
    let f = if flipped { 7 - file } else { file };
    r * 8 + f
}

/// How one side's clock is shown.
#[derive(Debug, Clone, Copy, PartialEq, Eq, Structural)]
pub enum ClockEmphasis {
    /// Under ten seconds left.
    LowTime,
    /// The side to move, while no flag has fallen.
    ToMove,
    Plain,
}

/// How a move of the history list is shown.
#[derive(Debug, Clone, Copy, PartialEq, Eq, Structural)]
pub enum MoveShade {
    /// Played, before the position on screen.
    Played,
    /// The move that led to the position on screen.
    Current,
    /// Taken back, still there to replay.
    Undone,
}

/// One move of the history list.
pub struct HistoryEntry {
    /// Where the move stands in the history, from 0.
    pub index: usize,
    /// The move number it is printed under.
    pub number: usize,
    pub san: String,
    pub shade: MoveShade,
}

/// A side's name as the clock panel writes it.
pub open spec fn color_name(c: Color) -> Seq<char> {
    if c == Color::White { "White"@ } else { "Black"@ }
}

/// The shade of the move at `index` when `current` moves are on screen.
pub open spec fn shade_of(index: nat, current: nat) -> MoveShade {
    if index + 1 == current {
        MoveShade::Current
    } else if index + 1 > current {
        MoveShade::Undone
    } else {
        MoveShade::Played
    }
}

/// The lines of `ls` that have moves, each as its score's label and its
/// first moves in SAN on `b`, a space apart.
pub open spec fn lines_shown(b: BoardView, ls: Seq<LineView>) -> Seq<(Seq<char>, Seq<char>)>
    decreases ls.len(),
{
    if ls.len() == 0 {
        seq![]
    } else {
        let rest = lines_shown(b, ls.drop_last());
        let l = ls.last();
        if l.pv.len() == 0 {
            rest
        } else {
            rest.push((label_text(l.score), joined_with(pv_sans(b, l.pv, 6), seq![' '])))
        }
    }
}

/// The game of a FEN typed into the set-up window, surrounding whitespace
/// aside, or the reason shown under it.
pub fn read_fen_entry(text: &str) -> (r: Result<GameHistory, String>)
    ensures
        match r {
            Ok(h) => fen_reads_back(strip(text@, false)) && h@.wf()
                && h@ == HistoryView::starting(board_of(cozy_reading(strip(text@, false)))),
            Err(m) => !fen_reads_back(strip(text@, false)) && m@ == "Not a valid FEN"@,
        },
{
    let trimmed = string_of(strip_chars(&chars_of(text), false).as_slice());
    match GameHistory::from_fen(trimmed.as_str()) {
        Ok(h) => Ok(h),
        Err(_) => Err(String::from_str("Not a valid FEN")),
    }
}

/// The game of a PGN pasted into the load window, surrounding whitespace
/// aside, or the reason shown under it.
pub fn read_pgn_entry(text: &str) -> (r: Result<GameHistory, String>)
    ensures
        match r {
            Ok(h) => from_pgn_spec(strip(text@, false)) == Ok::<HistoryView, Option<(nat, Seq<char>)>>(h@) && h@.wf(),
            Err(m) => from_pgn_spec(strip(text@, false)) matches Err(f) && m@ == failure_text(f),
        },
{
    let trimmed = string_of(strip_chars(&chars_of(text), false).as_slice());
    match GameHistory::from_pgn(trimmed.as_str()) {
        Ok(h) => Ok(h),
        Err(e) => Err(e.message()),
    }
}

/// A keyboard shortcut of the board window.
#[derive(Debug, Clone, Copy, PartialEq, Eq, Structural)]
pub enum Shortcut {
    /// Command-N: a new game.
    NewGame,
    /// Command-S: save the game.
    Save,
    /// Left arrow or Command-Z: take back.
    Back,
    /// Right arrow or Command-Y: replay.
    Forward,
    /// Home: the starting position.
    First,
    /// End: the last position of the history.
    Last,
    /// F: turn the board round.
    Flip,
    /// Escape: drop the selection.
    Cancel,
}

impl AppView {
    /// What `key` makes of the application at `now`.
    pub open spec fn after_shortcut(self, key: Shortcut, now: u64) -> AppView {
        match key {
            Shortcut::NewGame => self.game_started(HistoryView::starting(start_view())),
            Shortcut::Save => self,
            Shortcut::Back => self.stepped(false, now),
            Shortcut::Forward => self.stepped(true, now),
            Shortcut::First => self.jumped(0),
            Shortcut::Last => self.jumped((self.history.positions.len() - 1) as nat),
            Shortcut::Flip => AppView { board_flip: !self.board_flip, ..self },
            Shortcut::Cancel => AppView { selected_square: None, legal_moves_for_selected: seq![], ..self },
        }
    }
}

impl AppView {
    /// How `side`'s time on `c` is shown.
    pub open spec fn clock_emphasis(self, c: ClockView, side: Color) -> ClockEmphasis {
        if c.remaining(side) < 10000 {
            ClockEmphasis::LowTime
        } else if side == self.to_move() && self.timeout is None {
            ClockEmphasis::ToMove
        } else {
            ClockEmphasis::Plain
        }
    }

    /// The number of analysis lines set to `lines`; a different number
    /// stops the running analysis, which is to be done again.
    pub open spec fn lines_chosen(self, lines: u32) -> AppView {
        if lines == self.analysis_lines {
            self
        } else {
            AppView { analysis_complete: false, ..AppView { analysis_lines: lines, ..self }.aborted() }
        }
    }

    /// The engine's Threads and Hash set; the engine hears of them only when
    /// they change.
    pub open spec fn resources_set(self, threads: u64, hash_mb: u32) -> AppView {
        if threads == self.engine_threads && hash_mb == self.engine_hash_mb {
            self
        } else {
            AppView { engine_threads: threads, engine_hash_mb: hash_mb, ..self }.options_sent()
        }
    }

    /// Play against the computer and analyse as `play` and `analysis` say.
    /// A mode switched off takes its running search with it; play switched
    /// on turns the board to the human's side.
    pub open spec fn modes_set(self, play: bool, analysis: bool) -> AppView {
        let a = AppView { play_vs_computer: play, analysis, ..self };
        let dropped = (self.play_vs_computer && !play && self.search_kind == SearchKind::Play)
            || (self.analysis && !analysis && self.search_kind == SearchKind::Analyse);
        let b = if dropped { a.aborted() } else { a };
        if !self.play_vs_computer && play {
            AppView { board_flip: b.computer_color == Color::White, ..b }
        } else {
            b
        }
    }

    /// The computer to play `color`; a change drops the running search,
    /// lets the engine answer again and turns the board to the human.
    pub open spec fn computer_chosen(self, color: Color) -> AppView {
        if color == self.computer_color {
            self
        } else {
            let a = AppView { computer_color: color, ..self }.aborted();
            AppView { disable_auto_request: false, board_flip: color == Color::White, ..a }
        }
    }

    /// The marks of `square` on the board on screen.
    pub open spec fn marks(self, square: u8) -> SquareMarks {
        let h = self.history;
        let b = h.current_board();
        SquareMarks {
            last_move: h.current > 0 && (square == h.moves[h.current - 1].from
                || square == destination_spec(h.positions[h.current - 1], h.moves[h.current - 1])),
            selected: self.selected_square == Some(square),
            checked_king: in_check_spec(b) && b.piece_on(square as nat) == Some((b.side, Piece::King)),
            legal_target: exists|i: int| 0 <= i < self.legal_moves_for_selected.len()
                && on_board(#[trigger] self.legal_moves_for_selected[i])
                && destination_spec(b, self.legal_moves_for_selected[i]) == square,
        }
    }

    /// The first move of the best line, when it is legal on the board.
    pub open spec fn best_move(self) -> Option<Move> {
        if self.engine_lines.len() > 0 && self.engine_lines[0].pv.len() > 0 {
            parse_uci_spec(self.history.current_board(), self.engine_lines[0].pv[0])
        } else {
            None
        }
    }

    /// The best move may be played from the analysis: the game goes on,
    /// no promotion waits and the engine is not to move.
    pub open spec fn may_play_best_move(self) -> bool {
        self.analysis && !self.is_game_over() && self.pending_promotion is None
            && !(self.engine_thinking && self.search_kind == SearchKind::Play)
    }

    /// The engine settings back to their defaults, `threads` threads.
    pub open spec fn engine_reset(self, threads: u64) -> AppView {
        AppView {
            engine_depth: 20,
            engine_movetime: Some(1000),
            engine_mode: EngineMode::Depth,
            analysis_lines: 1,
            ..self
        }.resources_set(threads, 128)
    }
}

/// The players' names for the PGN: nobody named without the computer, else
/// the computer and the human on their sides.
pub open spec fn players(a: AppView) -> (Seq<char>, Seq<char>) {
    if !a.play_vs_computer {
        ("?"@, "?"@)
    } else if a.computer_color == Color::White {
        ("Stockfish"@, "Human"@)
    } else {
        ("Human"@, "Stockfish"@)
    }
}

/// The application as it starts: a new game with no engine linked and no
/// message; the board White's way up with the evaluation bar shown and
/// captured pieces as Lichess shows them; neither playing the computer
/// (which would take Black) nor analysing; no search, line or node count;
/// one analysis line, depth 20, a second per move, full strength, 128 MB of
/// hash and `threads` engine threads; a five-minute clock with three
/// seconds' increment, switched off; the monochrome theme; and nothing
/// animated, picked up, dragged or waiting for a promotion piece.
pub open spec fn starting_app(threads: u64) -> AppView {
    AppView {
        history: HistoryView::starting(start_view()),
        notice: None,
        board_flip: false,
        show_eval_bar: true,
        captured_display_style: CapturedPiecesStyle::Lichess,
        play_vs_computer: false,
        computer_color: Color::Black,
        analysis: false,
        analysis_complete: false,
        search_kind: SearchKind::Play,
        engine_status: StatusView::Starting,
        search_id: 0,
        engine_thinking: false,
        engine_lines: seq![],
        engine_nodes: 0,
        analysis_lines: 1,
        engine_multipv: 1,
        engine_depth: 20,
        engine_movetime: Some(1000u64),
        engine_mode: EngineMode::Depth,
        engine_skill_level: 20,
        engine_threads: threads,
        engine_hash_mb: 128,
        disable_auto_request: false,
        clock: None,
        timeout: None,
        resigned: None,
        clock_enabled: false,
        clock_minutes: 5,
        clock_increment_s: 3,
        theme_variant: ThemeVariant::ClassicMonochrome,
        animation: None,
        selected_square: None,
        legal_moves_for_selected: seq![],
        pending_promotion: None,
        dragging_piece: None,
        engine_linked: false,
        outbox: seq![],
    }
}

impl ChessApp {
    /// The application with no engine linked, a new game, and the usual
    /// settings: depth 20, full strength, no clock, and as many engine
    /// threads as `default_threads` gives for the machine's `available`
    /// threads.
    pub fn headless_with(available: u64) -> (app: ChessApp)
        ensures
            app.wf(),
            app@ == starting_app(half_the_threads(available)),
    {
        let threads = default_threads(available);
        let app = ChessApp {
            game_history: GameHistory::new(),
            notice: None,
            board_flip: false,
            show_eval_bar: true,
            captured_display_style: CapturedPiecesStyle::Lichess,
            play_vs_computer: false,
            computer_color: Color::Black,
            analysis: false,
            analysis_complete: false,
            search_kind: SearchKind::Play,
            engine_status: EngineStatus::Starting,
            search_id: 0,
            engine_thinking: false,
            engine_lines: Vec::new(),
            engine_nodes: 0,
            analysis_lines: 1,
            engine_multipv: 1,
            engine_depth: 20,
            engine_movetime: Some(1000),
            engine_mode: EngineMode::Depth,
            engine_skill_level: 20,
            engine_threads: threads,
            engine_hash_mb: 128,
            disable_auto_request: false,
            clock: None,
            timeout: None,
            resigned: None,
            clock_enabled: false,
            clock_minutes: 5,
            clock_increment_s: 3,
            theme_variant: ThemeVariant::ClassicMonochrome,
            animation: None,
            selected_square: None,
            legal_moves_for_selected: Vec::new(),
            pending_promotion: None,
            dragging_piece: None,
            engine_linked: false,
            outbox: Vec::new(),
        };
        proof {
            assert(app@.engine_lines =~= Seq::<LineView>::empty());
            assert(app@.outbox =~= Seq::<CommandView>::empty());
            assert(app@.legal_moves_for_selected =~= Seq::<Move>::empty());
        }
        app
    }

    /// The starting application on a machine of two threads, so with one
    /// engine thread (`headless_with` takes the machine's count).
    pub fn headless() -> (app: ChessApp)
        ensures
            app.wf(),
            app@ == starting_app(1),
    {
        ChessApp::headless_with(2)
    }

    /// Switch the colour scheme.
    pub fn set_theme(&mut self, variant: ThemeVariant)
        ensures
            final(self)@ == (AppView { theme_variant: variant, ..old(self)@ }),
            final(self).game_history == old(self).game_history,
            final(self).clock == old(self).clock,
    {
        self.theme_variant = variant;
    }

    /// The squares of the move that made the position on screen: where the
    /// piece came from and where it landed, the king's square when castling.
    pub fn last_move(&self) -> (squares: Option<(u8, u8)>)
        requires
            self.wf(),
        ensures
            squares == (if self@.history.current > 0 {
                let k = self@.history.current - 1;
                let mv = self@.history.moves[k];
                Some((mv.from, destination_spec(self@.history.positions[k], mv) as u8))
            } else {
                None::<(u8, u8)>
            }),
    {
        let n = self.game_history.move_count();
        if n == 0 {
            return None;
        }
        match self.game_history.get_move(n - 1) {
            Some(mv) => {
                let board = self.game_history.board_before(n - 1);
                proof {
                    assert(on_board(self@.history.moves[n - 1]));
                }
                Some((mv.from, destination(board, *mv)))
            },
            None => None,
        }
    }

    /// The position on screen.
    pub fn board(&self) -> (b: &Board)
        requires
            self.wf(),
        ensures
            b@ == self@.history.current_board(),
            b.wf(),
    {
        self.game_history.current_board()
    }

    /// The piece on `square`, with its colour.
    pub fn piece_at(&self, square: u8) -> (p: Option<(Piece, Color)>)
        requires
            self.wf(),
            square < 64,
        ensures
            p == (match self@.history.current_board().piece_on(square as nat) {
                Some((c, k)) => Some((k, c)),
                None => None::<(Piece, Color)>,
            }),
    {
        match self.game_history.current_board().piece_on(square) {
            Some((c, k)) => Some((k, c)),
            None => None,
        }
    }

    /// The PGN of the game on screen, dated `date`: who plays which side and
    /// the result.
    pub fn pgn(&self, date: &str) -> (text: String)
        requires
            self.wf(),
        ensures
            text@ == crate::game::pgn_spec(self@.history, players(self@).0, players(self@).1, date@, self@.result()),
    {
        let (white, black) = self.player_names();
        self.game_history.pgn_with(white, black, date, self.result())
    }

    /// Who plays White and who plays Black, as the PGN tags name them.
    pub fn player_names(&self) -> (names: (&'static str, &'static str))
        ensures
            names.0@ == players(self@).0,
            names.1@ == players(self@).1,
    {
        if !self.play_vs_computer {
            ("?", "?")
        } else if self.computer_color == Color::White {
            ("Stockfish", "Human")
        } else {
            ("Human", "Stockfish")
        }
    }

    /// Switch playing against the computer and analysing on or off.
    pub fn set_engine_modes(&mut self, play: bool, analysis: bool)
        requires
            old(self).wf(),
            old(self).search_id < u64::MAX,
        ensures
            final(self).wf(),
            final(self)@ == old(self)@.modes_set(play, analysis),
    {
        let was_playing = self.play_vs_computer;
        let was_analysing = self.analysis;
        self.play_vs_computer = play;
        self.analysis = analysis;
        let dropped_play = was_playing && !play;
        let dropped_analysis = was_analysing && !analysis;
        if (dropped_play && self.search_kind == SearchKind::Play)
            || (dropped_analysis && self.search_kind == SearchKind::Analyse)
        {
            self.abort_search();
        }
        if !was_playing && play {
            self.face_computer();
        }
    }

    /// Let the computer play `color`.
    pub fn choose_computer_color(&mut self, color: Color)
        requires
            old(self).wf(),
            old(self).search_id < u64::MAX,
        ensures
            final(self).wf(),
            final(self)@ == old(self)@.computer_chosen(color),
    {
        if color != self.computer_color {
            self.computer_color = color;
            self.abort_search();
            self.disable_auto_request = false;
            self.face_computer();
        }
    }

    /// The first move of the engine's best line, if it is legal here.
    pub fn best_move(&self) -> (mv: Option<Move>)
        requires
            self.wf(),
        ensures
            mv == self@.best_move(),
    {
        if self.engine_lines.len() > 0 && self.engine_lines[0].pv.len() > 0 {
            crate::notation::parse_uci(self.game_history.current_board(), self.engine_lines[0].pv[0].as_str())
        } else {
            None
        }
    }

    /// Whether the analysis's best move may be played now.
    pub fn may_play_best_move(&self) -> (b: bool)
        requires
            self.wf(),
        ensures
            b == self@.may_play_best_move(),
    {
        self.analysis && !self.is_game_over() && self.pending_promotion.is_none()
            && !self.waiting_for_engine_move()
    }

    /// The engine's lines as the analysis panel lists them: those with
    /// moves, each as its score and its first moves in SAN.
    pub fn analysis_rows(&self) -> (rows: Vec<(String, String)>)
        requires
            self.wf(),
            forall|i: int| 0 <= i < self.engine_lines@.len()
                ==> !(#[trigger] self.engine_lines@[i].score matches Score::Mate(m) && m == i32::MIN),
        ensures
            rows@.map_values(|r: (String, String)| (r.0@, r.1@))
                == lines_shown(self@.history.current_board(), self@.engine_lines),
    {
        let ghost b = self@.history.current_board();
        let ghost ls = self@.engine_lines;
        let mut rows: Vec<(String, String)> = Vec::new();
        let mut i: usize = 0;
        while i < self.engine_lines.len()
            invariant
                self.wf(),
                b == self@.history.current_board(),
                ls == self@.engine_lines,
                forall|k: int| 0 <= k < self.engine_lines@.len()
                    ==> !(#[trigger] self.engine_lines@[k].score matches Score::Mate(m) && m == i32::MIN),
                i <= self.engine_lines.len(),
                rows@.map_values(|r: (String, String)| (r.0@, r.1@)) == lines_shown(b, ls.take(i as int)),
            decreases self.engine_lines.len() - i,
        {
            let line = &self.engine_lines[i];
            let ghost before = rows@.map_values(|r: (String, String)| (r.0@, r.1@));
            proof {
                assert(ls.take(i + 1).drop_last() =~= ls.take(i as int));
                assert(ls.take(i + 1).last() == ls[i as int]);
                assert(ls[i as int] == self.engine_lines@[i as int]@);
                assert(ls[i as int].pv == line.pv@.map_values(|w: String| w@));
                assert(ls[i as int].pv.len() == line.pv@.len());
            }
            if line.pv.len() > 0 {
                let score = crate::eval::label(line.score);
                let sans = self.format_pv_san(line.pv.as_slice());
                let moves = crate::text::join_words(&sans, " ");
                proof {
                    reveal_strlit(" ");
                    assert(" "@ =~= seq![' ']);
                }
                rows.push((score, moves));
                proof {
                    assert(rows@.map_values(|r: (String, String)| (r.0@, r.1@)) =~= before.push((score@, moves@)));
                    assert(lines_shown(b, ls.take(i + 1)) == lines_shown(b, ls.take(i as int)).push(
                        (label_text(ls[i as int].score), joined_with(pv_sans(b, ls[i as int].pv, 6), seq![' ']))));
                }
            } else {
                proof {
                    assert(lines_shown(b, ls.take(i + 1)) == lines_shown(b, ls.take(i as int)));
                }
            }
            i = i + 1;
        }
        proof {
            assert(ls.take(i as int) =~= ls);
        }
        rows
    }

    /// The line under the spinner while the engine searches, `None` when
    /// it does not.
    pub fn thinking_label(&self) -> (label: Option<&'static str>)
        ensures
            match label {
                None => !self.engine_thinking,
                Some(t) => self.engine_thinking && t@ == (if self.search_kind == SearchKind::Play {
                    "Engine thinking..."@
                } else {
                    "Analysing..."@
                }),
            },
    {
        if !self.engine_thinking {
            None
        } else {
            match self.search_kind {
                SearchKind::Play => Some("Engine thinking..."),
                SearchKind::Analyse => Some("Analysing..."),
            }
        }
    }

    /// Whose turn it is, as the top bar says it.
    pub fn turn_label(&self) -> (label: &'static str)
        requires
            self.wf(),
        ensures
            label@ == (if self@.to_move() == Color::White { "\u{26aa} White to move"@ } else { "\u{26ab} Black to move"@ }),
    {
        if self.game_history.current_board().side == Color::White {
            "\u{26aa} White to move"
        } else {
            "\u{26ab} Black to move"
        }
    }

    /// The marks the board shows on `square`.
    pub fn square_marks(&self, square: u8) -> (m: SquareMarks)
        requires
            self.wf(),
            square < 64,
        ensures
            m == self@.marks(square),
    {
        let last_move = match self.last_move() {
            Some((from, to)) => square == from || square == to,
            None => false,
        };
        let board = self.game_history.current_board();
        let checked_king = crate::moves::in_check(board) && match board.piece_on(square) {
            Some((c, p)) => c == board.side && p == Piece::King,
            None => false,
        };
        let mut legal_target = false;
        let mut i: usize = 0;
        while i < self.legal_moves_for_selected.len()
            invariant
                self.wf(),
                board@ == self@.history.current_board(),
                board.wf(),
                i <= self.legal_moves_for_selected@.len(),
                legal_target == exists|k: int| 0 <= k < i && on_board(#[trigger] self@.legal_moves_for_selected[k])
                    && destination_spec(board@, self@.legal_moves_for_selected[k]) == square,
            decreases self.legal_moves_for_selected.len() - i,
        {
            let mv = self.legal_moves_for_selected[i];
            let ghost hit = on_board(mv) && destination_spec(board@, mv) == square;
            proof {
                assert(self@.legal_moves_for_selected[i as int] == mv);
            }
            if mv.from < 64 && mv.to < 64 {
                if destination(board, mv) == square {
                    legal_target = true;
                }
            }
            proof {
                let ls = self@.legal_moves_for_selected;
                if hit {
                    assert(0 <= i < i + 1 && on_board(ls[i as int]) && destination_spec(board@, ls[i as int]) == square);
                } else {
                    assert forall|k: int| 0 <= k < i + 1 && on_board(#[trigger] ls[k])
                        && destination_spec(board@, ls[k]) == square implies k < i by {}
                }
            }
            i = i + 1;
        }
        let m = SquareMarks {
            last_move,
            selected: self.selected_square == Some(square),
            checked_king,
            legal_target,
        };
        proof {
            if self@.history.current > 0 {
                let k = self@.history.current - 1;
                assert(self@.history.positions[k].wf());
            }
        }
        m
    }

    /// `side`'s clock as the panel shows it, `None` without a clock.
    pub fn clock_line(&self, side: Color) -> (line: Option<(String, ClockEmphasis)>)
        requires
            self.wf(),
        ensures
            match self@.clock {
                None => line is None,
                Some(c) => line matches Some((t, e)) && t@ == color_name(side) + seq![' ', ' ']
                    + crate::clock::format_spec(c.remaining(side)) && e == self@.clock_emphasis(c, side),
            },
    {
        match &self.clock {
            None => None,
            Some(clock) => {
                let remaining = clock.remaining(side);
                let mut text: Vec<char> = Vec::new();
                match side {
                    Color::White => push_str(&mut text, "White"),
                    Color::Black => push_str(&mut text, "Black"),
                }
                text.push(' ');
                text.push(' ');
                let shown = Clock::format(remaining);
                let shown_chars = crate::text::chars_of(shown.as_str());
                push_chars(&mut text, &shown_chars);
                let emphasis = if remaining < 10000 {
                    ClockEmphasis::LowTime
                } else if side == self.game_history.current_board().side && self.timeout.is_none() {
                    ClockEmphasis::ToMove
                } else {
                    ClockEmphasis::Plain
                };
                proof {
                    assert(text@ =~= color_name(side) + seq![' ', ' ']
                        + crate::clock::format_spec(self@.clock.unwrap().remaining(side)));
                }
                Some((string_of(text.as_slice()), emphasis))
            },
        }
    }

    /// The time control for the next game: `minutes` each, `increment_s`
    /// seconds added per move, the clock on.
    pub fn choose_time_control(&mut self, minutes: u32, increment_s: u32)
        ensures
            final(self)@ == (AppView {
                clock_minutes: minutes,
                clock_increment_s: increment_s,
                clock_enabled: true,
                ..old(self)@
            }),
            final(self).game_history == old(self).game_history,
            final(self).clock == old(self).clock,
    {
        self.clock_minutes = minutes;
        self.clock_increment_s = increment_s;
        self.clock_enabled = true;
    }

    /// Analyse with `lines` lines from now on.
    pub fn set_analysis_lines(&mut self, lines: u32)
        requires
            old(self).wf(),
            old(self).search_id < u64::MAX,
        ensures
            final(self).wf(),
            final(self)@ == old(self)@.lines_chosen(lines),
    {
        if lines != self.analysis_lines {
            self.analysis_lines = lines;
            self.abort_search();
            self.analysis_complete = false;
        }
    }

    /// Give the engine `threads` threads and `hash_mb` MB of hash.
    pub fn set_engine_resources(&mut self, threads: u64, hash_mb: u32)
        requires
            old(self).wf(),
        ensures
            final(self).wf(),
            final(self)@ == old(self)@.resources_set(threads, hash_mb),
    {
        if threads != self.engine_threads || hash_mb != self.engine_hash_mb {
            self.engine_threads = threads;
            self.engine_hash_mb = hash_mb;
            self.send_engine_options();
        }
    }

    /// The engine settings back to their defaults, with `threads` threads
    /// (what the machine offers).
    pub fn reset_engine_settings(&mut self, threads: u64)
        requires
            old(self).wf(),
        ensures
            final(self).wf(),
            final(self)@ == old(self)@.engine_reset(threads),
    {
        self.engine_depth = 20;
        self.engine_movetime = Some(1000);
        self.engine_mode = EngineMode::Depth;
        self.analysis_lines = 1;
        self.set_engine_resources(threads, 128);
    }

    /// The moves of the history as the list shows them, one entry per move.
    pub fn history_entries(&self) -> (entries: Vec<HistoryEntry>)
        requires
            self.wf(),
        ensures
            entries.len() == self@.history.sans.len(),
            forall|i: int| 0 <= i < entries.len() ==> {
                let e = #[trigger] entries@[i];
                &&& e.index == i
                &&& e.number == i / 2 + 1
                &&& e.san@ == self@.history.sans[i]
                &&& e.shade == shade_of(i as nat, self@.history.current)
            },
    {
        let total = self.game_history.total_moves();
        let current = self.game_history.move_count();
        let mut entries: Vec<HistoryEntry> = Vec::new();
        let mut i: usize = 0;
        while i < total
            invariant
                self.wf(),
                total == self@.history.sans.len(),
                current == self@.history.current,
                i <= total,
                entries.len() == i,
                forall|k: int| 0 <= k < i ==> {
                    let e = #[trigger] entries@[k];
                    &&& e.index == k
                    &&& e.number == k / 2 + 1
                    &&& e.san@ == self@.history.sans[k]
                    &&& e.shade == shade_of(k as nat, current as nat)
                },
            decreases total - i,
        {
            let san = match self.game_history.san(i) {
                Some(t) => String::from_str(t),
                None => string_of(&['?']),
            };
            let shade = if i + 1 == current {
                MoveShade::Current
            } else if i + 1 > current {
                MoveShade::Undone
            } else {
                MoveShade::Played
            };
            entries.push(HistoryEntry { index: i, number: i / 2 + 1, san, shade });
            i = i + 1;
        }
        entries
    }

    /// Carry out the shortcut `key` at `now`. Saving writes a file, which is
    /// the caller's to do: the result says whether `key` asks for it.
    #[verifier::spinoff_prover]
    #[verifier::rlimit(40)]
    pub fn shortcut(&mut self, key: Shortcut, now: u64) -> (save: bool)
        requires
            old(self).wf(),
            old(self).search_id < u64::MAX,
        ensures
            final(self).wf(),
            save == (key == Shortcut::Save),
            final(self)@ == old(self)@.after_shortcut(key, now),
    {
        match key {
            Shortcut::NewGame => self.new_game(),
            Shortcut::Save => return true,
            Shortcut::Back => self.undo(now),
            Shortcut::Forward => self.redo(now),
            Shortcut::First => self.jump_to_ply(0),
            Shortcut::Last => {
                let last = self.game_history.total_moves();
                self.jump_to_ply(last);
            },
            Shortcut::Flip => self.board_flip = !self.board_flip,
            Shortcut::Cancel => {
                self.selected_square = None;
                self.legal_moves_for_selected = Vec::new();
            },
        }
        false
    }

    /// Replace the game with `history` and tell the engine to forget the old one.
    #[verifier::spinoff_prover]
    #[verifier::rlimit(40)]
    pub fn start_game(&mut self, history: GameHistory)
        requires
            old(self).wf(),
            history@.wf(),
            old(self).search_id < u64::MAX,
        ensures
            final(self).wf(),
            final(self)@ == old(self)@.game_started(history@),
    {
        self.game_history = history;
        self.clock = if self.clock_enabled {
            Some(Clock::new(self.clock_minutes, self.clock_increment_s))
        } else {
            None
        };
        self.timeout = None;
        self.resigned = None;
        self.position_changed();
        self.send(EngineCommand::NewGame);
        self.engine_nodes = 0;
        self.engine_lines.clear();
        self.disable_auto_request = false;
        proof {
            assert(self.engine_lines@.map_values(|l: EngineLine| l@) =~= Seq::<LineView>::empty());
        }
    }

    /// Reset the game to the initial position.
    pub fn new_game(&mut self)
        requires
            old(self).wf(),
            old(self).search_id < u64::MAX,
        ensures
            final(self).wf(),
            final(self)@ == old(self)@.game_started(HistoryView::starting(start_view())),
    {
        self.start_game(GameHistory::new());
    }
}

impl Settings {
    /// The settings the application has now.
    pub fn from_app(app: &ChessApp) -> (s: Settings)
        ensures
            s == (Settings {
                theme: app@.theme_variant,
                engine_mode: app@.engine_mode,
                engine_depth: app@.engine_depth,
                engine_movetime: match app@.engine_movetime {
                    Some(t) => t,
                    None => 1000,
                },
                engine_skill_level: app@.engine_skill_level,
                show_eval_bar: app@.show_eval_bar,
                captured_display_style: app@.captured_display_style,
                computer_color: app@.computer_color,
            }),
    {
        Settings {
            theme: app.theme_variant,
            engine_mode: app.engine_mode,
            engine_depth: app.engine_depth,
            engine_movetime: match app.engine_movetime {
                Some(t) => t,
                None => 1000,
            },
            engine_skill_level: app.engine_skill_level,
            show_eval_bar: app.show_eval_bar,
            captured_display_style: app.captured_display_style,
            computer_color: app.computer_color,
        }
    }

    /// Put the settings into the application.
    pub fn apply(self, app: &mut ChessApp)
        ensures
            final(app)@ == (AppView {
                theme_variant: self.theme,
                engine_mode: self.engine_mode,
                engine_depth: self.engine_depth,
                engine_movetime: Some(self.engine_movetime),
                engine_skill_level: self.engine_skill_level,
                show_eval_bar: self.show_eval_bar,
                captured_display_style: self.captured_display_style,
                computer_color: self.computer_color,
                ..old(app)@
            }),
            final(app).game_history == old(app).game_history,
            final(app).clock == old(app).clock,
    {
        app.set_theme(self.theme);
        app.engine_mode = self.engine_mode;
        app.engine_depth = self.engine_depth;
        app.engine_movetime = Some(self.engine_movetime);
        app.engine_skill_level = self.engine_skill_level;
        app.show_eval_bar = self.show_eval_bar;
        app.captured_display_style = self.captured_display_style;
        app.computer_color = self.computer_color;
    }
}

/// A reply to a search the user has since left changes nothing and plays
/// nothing.
pub proof fn law_stale_replies_are_dropped(a: AppView, id: u64, response: ResponseView)
    requires
        id != a.search_id,
    ensures
        a.event_handled(EventView::Search { id, response }) == (a, None::<Option<Seq<char>>>),
{
}

/// Forgetting the running search always moves to a new id, so every reply
/// to the old one is dropped afterwards, and the engine is no longer
/// thinking.
pub proof fn law_abort_renews_the_id(a: AppView)
    requires
        a.search_id < u64::MAX,
    ensures
        a.aborted().search_id != a.search_id,
        !a.aborted().engine_thinking,
        a.aborted().history == a.history,
{
}

/// A search's end hands on its move only once: the search is over, so a
/// second `bestmove` under the same id is no longer waited for.
pub proof fn law_search_end_stops_thinking(a: AppView, mv: Option<Seq<char>>)
    ensures
        !a.search_ended(mv).0.engine_thinking,
        a.search_ended(mv).0.history == a.history,
{
}

/// Stepping through the history puts the clock back to the times recorded
/// for the ply it lands on, paused.
pub proof fn law_takeback_restores_the_clock(a: AppView, forward: bool, now: u64)
    requires
        a.clock is Some,
        (if forward { a.history.can_redo() } else { a.history.can_undo() }),
        a.history.current + 2 < a.clock->0.snapshots.len(),
    ensures
        ({
            let b = a.stepped(forward, now);
            let ply = b.history.current;
            &&& b.clock is Some
            &&& b.clock->0.white == a.clock->0.snapshots[ply as int].0
            &&& b.clock->0.black == a.clock->0.snapshots[ply as int].1
            &&& !b.clock->0.is_running()
        }),
{
}

/// Each move of `h` hands the move to the other side.
pub open spec fn sides_alternate(h: HistoryView) -> bool {
    forall|k: int| 0 <= k < h.moves.len()
        ==> #[trigger] h.positions[k + 1].side == h.positions[k].side.spec_opposite()
}

/// Against the computer, a takeback or a replay leaves the human to move,
/// unless it ran into the start or the end of the history with the
/// computer to move.
pub proof fn law_stepping_leaves_the_human_to_move(a: AppView, forward: bool, now: u64)
    requires
        a.history.wf(),
        sides_alternate(a.history),
        a.play_vs_computer,
        (if forward { a.history.can_redo() } else { a.history.can_undo() }),
    ensures
        ({
            let b = a.stepped(forward, now);
            ||| b.to_move() != a.computer_color
            ||| (if forward { !b.history.can_redo() } else { b.history.current == 0 })
        }),
{
    let h = a.history;
    let one = a.step_once(forward);
    let k = one.history.current;
    if forward {
        assert(k == h.current + 1);
    } else {
        assert(k == h.current - 1);
    }
    if one.computer_to_move() {
        let two = one.step_once(forward);
        if forward && one.history.can_redo() {
            assert(two.history.current == k + 1);
            assert(h.positions[k + 1 as int].side == h.positions[k as int].side.spec_opposite());
        } else if !forward && one.history.can_undo() {
            assert(two.history.current == k - 1);
            let j: int = k - 1;
            assert(h.positions[j + 1].side == h.positions[j].side.spec_opposite());
        }
    }
}

/// The moves among the first `n` of `ms` that start on `square`, in order.
pub open spec fn moves_from(ms: Seq<Move>, square: u8, n: nat) -> Seq<Move>
    decreases n,
{
    if n == 0 || n > ms.len() {
        seq![]
    } else if ms[n - 1].from == square {
        moves_from(ms, square, (n - 1) as nat).push(ms[n - 1])
    } else {
        moves_from(ms, square, (n - 1) as nat)
    }
}

/// The first of `ms` from `from` landing on `to`, castling counted by where
/// the king lands.
pub open spec fn first_between(b: BoardView, ms: Seq<Move>, from: u8, to: u8) -> Option<Move>
    decreases ms.len(),
{
    if ms.len() == 0 {
        None
    } else if ms[0].from == from && destination_spec(b, ms[0]) == to as nat {
        Some(ms[0])
    } else {
        first_between(b, ms.drop_first(), from, to)
    }
}

impl AppView {
    /// The piece on `square` when it belongs to the side to move.
    pub open spec fn own_piece_at(self, square: u8) -> Option<(Color, Piece)> {
        match self.history.current_board().piece_on(square as nat) {
            Some((c, p)) => if c == self.to_move() { Some((c, p)) } else { None },
            None => None,
        }
    }

    /// The legal moves of the selected piece, none without a selection.
    pub open spec fn legal_updated(self) -> AppView {
        let legal = legal_moves_spec(self.history.current_board());
        AppView {
            legal_moves_for_selected: match self.selected_square {
                Some(s) => moves_from(legal, s, legal.len()),
                None => seq![],
            },
            ..self
        }
    }

    /// The legal move from `from` to `to` played at `now`, or, for a
    /// promotion, the choice of piece asked for; without such a move the
    /// selection moves to `to` when the side to move has a piece there.
    pub open spec fn tried(self, from: u8, to: u8, now: u64) -> AppView {
        let b = self.history.current_board();
        match first_between(b, legal_moves_spec(b), from, to) {
            Some(mv) => if mv.promotion is None {
                self.played_move(mv, now)
            } else {
                AppView { pending_promotion: Some((from, to)), ..self }
            },
            None => AppView {
                selected_square: if self.own_piece_at(to) is Some { Some(to) } else { None },
                ..self
            }.legal_updated(),
        }
    }

    /// A click on `square`: dropping the selection when it is the selected
    /// square, a move from the selected square, or the selection of one of
    /// the side to move's pieces.
    pub open spec fn clicked(self, square: u8, now: u64) -> AppView {
        match self.selected_square {
            Some(sel) => if sel == square {
                AppView { selected_square: None, legal_moves_for_selected: seq![], ..self }
            } else {
                self.tried(sel, square, now)
            },
            None => if self.own_piece_at(square) is Some {
                AppView { selected_square: Some(square), ..self }.legal_updated()
            } else {
                self
            },
        }
    }

    /// The board takes clicks and drags unless the engine is to move, a
    /// promotion waits for its piece or the game is over.
    pub open spec fn accepts_board_input(self) -> bool {
        !(self.engine_thinking && self.search_kind == SearchKind::Play) && self.pending_promotion is None
            && !self.is_game_over()
    }

    /// A drag begun on `square`: the side to move's piece there is lifted
    /// and selected; a drag on any other square does nothing.
    pub open spec fn drag_started(self, square: u8) -> AppView {
        match self.own_piece_at(square) {
            Some((c, p)) => AppView {
                dragging_piece: Some((square, p, c)),
                selected_square: Some(square),
                ..self
            }.legal_updated(),
            None => self,
        }
    }

    /// The dragged piece let go over `to` (`None` off the board): the move
    /// there tried at `now` with nothing left to slide, and the drag over.
    pub open spec fn dropped(self, to: Option<u8>, now: u64) -> AppView {
        let a = match (self.dragging_piece, to) {
            (Some((from, _, _)), Some(t)) => AppView { animation: None, ..self.tried(from, t, now) },
            _ => self,
        };
        AppView { dragging_piece: None, ..a }
    }

    /// The promotion waiting for a piece: played with `piece` at `now`, or
    /// dropped with the rest of the selection when no piece was chosen.
    pub open spec fn promoted(self, piece: Option<Piece>, now: u64) -> AppView {
        match self.pending_promotion {
            None => self,
            Some((from, to)) => match piece {
                Some(p) => self.played_move(Move { from, to, promotion: Some(p) }, now),
                None => self.position_changed(),
            },
        }
    }
}

/// The first legal move on `board` from `from` landing on `to`.
fn first_move_between(board: &Board, from: u8, to: u8) -> (found: Option<Move>)
    requires
        board.wf(),
    ensures
        found == first_between(board@, legal_moves_spec(board@), from, to),
        found matches Some(m) ==> on_board(m) && legal_moves_spec(board@).contains(m),
{
    let moves = legal_moves(board);
    let ghost legal = moves@;
    proof {
        assert(legal.skip(0) =~= legal);
    }
    let mut i: usize = 0;
    while i < moves.len()
        invariant
            board.wf(),
            legal == moves@,
            legal == legal_moves_spec(board@),
            forall|j: int| 0 <= j < moves@.len() ==> on_board(#[trigger] moves@[j]),
            i <= moves@.len(),
            first_between(board@, legal, from, to) == first_between(board@, legal.skip(i as int), from, to),
        decreases moves.len() - i,
    {
        proof {
            assert(on_board(moves@[i as int]));
            assert(legal.skip(i as int).drop_first() =~= legal.skip(i + 1));
        }
        let m = moves[i];
        if m.from == from && destination(board, m) == to {
            proof {
                assert(legal.skip(i as int)[0] == m);
            }
            return Some(m);
        }
        i = i + 1;
    }
    None
}

impl ChessApp {
    /// The piece on `square` if it belongs to the side to move.
    pub fn own_piece_at(&self, square: u8) -> (p: Option<(Color, Piece)>)
        requires
            self.wf(),
            square < 64,
        ensures
            p == self@.own_piece_at(square),
    {
        let board = self.game_history.current_board();
        match board.piece_on(square) {
            Some((c, p)) => if c == board.side { Some((c, p)) } else { None },
            None => None,
        }
    }

    /// The legal moves of the selected piece.
    pub fn update_legal_moves(&mut self)
        requires
            old(self).wf(),
        ensures
            final(self).wf(),
            final(self)@ == old(self)@.legal_updated(),
    {
        let mut found: Vec<Move> = Vec::new();
        if let Some(square) = self.selected_square {
            let moves = legal_moves(self.game_history.current_board());
            let ghost legal = moves@;
            let mut i: usize = 0;
            while i < moves.len()
                invariant
                    legal == moves@,
                    i <= moves@.len(),
                    found@ == moves_from(legal, square, i as nat),
                decreases moves.len() - i,
            {
                if moves[i].from == square {
                    found.push(moves[i]);
                }
                i = i + 1;
            }
        }
        self.legal_moves_for_selected = found;
    }

    /// Play the legal move between two squares, ask for the piece if it is
    /// a promotion, or move the selection when there is no such move.
    #[verifier::spinoff_prover]
    #[verifier::rlimit(40)]
    pub fn try_make_move(&mut self, from: u8, to: u8, now: u64)
        requires
            old(self).wf(),
            old(self).search_id < u64::MAX,
            to < 64,
        ensures
            final(self).wf(),
            final(self)@ == old(self)@.tried(from, to, now),
            ({
                let b = old(self)@.history.current_board();
                let found = first_between(b, legal_moves_spec(b), from, to);
                found is Some && found->0.promotion is None ==> {
                    &&& final(self)@.history.current == old(self)@.history.current + 1
                    &&& final(self)@.history.moves.last() == found->0
                    &&& final(self)@.selected_square is None
                }
            }),
    {
        let found = first_move_between(self.game_history.current_board(), from, to);
        match found {
            Some(mv) => {
                if mv.promotion.is_none() {
                    self.play_move(mv, now);
                } else {
                    self.pending_promotion = Some((from, to));
                }
            },
            None => {
                self.selected_square = match self.own_piece_at(to) {
                    Some(_) => Some(to),
                    None => None,
                };
                self.update_legal_moves();
            },
        }
    }

    /// A click on `square`.
    #[verifier::spinoff_prover]
    #[verifier::rlimit(40)]
    pub fn handle_square_click(&mut self, square: u8, now: u64)
        requires
            old(self).wf(),
            old(self).search_id < u64::MAX,
            square < 64,
        ensures
            final(self).wf(),
            final(self)@ == old(self)@.clicked(square, now),
    {
        match self.selected_square {
            Some(selected) => {
                if selected == square {
                    self.selected_square = None;
                    self.legal_moves_for_selected = Vec::new();
                } else {
                    self.try_make_move(selected, square, now);
                }
            },
            None => {
                if self.own_piece_at(square).is_some() {
                    self.selected_square = Some(square);
                    self.update_legal_moves();
                }
            },
        }
    }

    /// Whether the board takes clicks and drags now.
    pub fn board_accepts_input(&self) -> (b: bool)
        requires
            self.wf(),
        ensures
            b == self@.accepts_board_input(),
    {
        !self.waiting_for_engine_move() && self.pending_promotion.is_none() && !self.is_game_over()
    }

    /// Lift the side to move's piece on `square`, if there is one.
    pub fn start_drag(&mut self, square: u8)
        requires
            old(self).wf(),
            square < 64,
        ensures
            final(self).wf(),
            final(self)@ == old(self)@.drag_started(square),
    {
        if let Some((c, p)) = self.own_piece_at(square) {
            self.dragging_piece = Some((square, p, c));
            self.selected_square = Some(square);
            self.update_legal_moves();
        }
    }

    /// Let go of the dragged piece over `to`, or off the board with `None`.
    #[verifier::spinoff_prover]
    #[verifier::rlimit(40)]
    pub fn drop_piece(&mut self, to: Option<u8>, now: u64)
        requires
            old(self).wf(),
            old(self).search_id < u64::MAX,
            to matches Some(t) ==> t < 64,
        ensures
            final(self).wf(),
            final(self)@ == old(self)@.dropped(to, now),
    {
        if let Some((from, _, _)) = self.dragging_piece {
            if let Some(t) = to {
                self.try_make_move(from, t, now);
                // The piece was put down where it lands; nothing to slide.
                self.animation = None;
            }
        }
        self.dragging_piece = None;
    }

    /// The promotion waiting for a piece, played with the piece chosen, or
    /// dropped when the choice was closed without one.
    #[verifier::spinoff_prover]
    #[verifier::rlimit(40)]
    pub fn promote(&mut self, piece: Option<Piece>, now: u64)
        requires
            old(self).wf(),
            old(self).search_id < u64::MAX,
        ensures
            final(self).wf(),
            final(self)@ == old(self)@.promoted(piece, now),
    {
        match self.pending_promotion {
            None => {},
            Some((from, to)) => match piece {
                Some(p) => self.play_move(Move { from, to, promotion: Some(p) }, now),
                None => self.position_changed(),
            },
        }
    }
}

} // verus!
