//! The messages between the application and the engine's thread.
//!
//! The application tags every search with an id and the thread echoes it on
//! each reply, so a reply to a position the user has since left is dropped
//! rather than played.

use vstd::prelude::*;
use crate::text::decimal;
use crate::uci::{go_command, go_text, position_command, skill_command, skill_of, EngineResponse, ResponseView, SearchLimit};

verus! {

/// A search the application wants run.
#[derive(Debug, Clone)]
pub struct SearchRequest {
    /// Echoed on every reply.
    pub id: u64,
    /// Everything after `position `, e.g. `startpos moves e2e4 e7e5`.
    pub position: String,
    pub limit: SearchLimit,
    pub skill_level: i32,
}

/// What the application can ask the engine's thread to do.
#[derive(Debug, Clone)]
pub enum EngineCommand {
    Search(SearchRequest),
    /// Abort the running search. Its `bestmove` still arrives under the old id.
    Stop,
    /// `ucinewgame`, so the engine clears its tables.
    NewGame,
    /// `setoption name <name> value <value>`, applied between searches.
    SetOption { name: String, value: String },
    Quit,
}

/// An [`EngineCommand`] with its text as character sequences.
pub enum CommandView {
    Search { id: u64, position: Seq<char>, limit: SearchLimit, skill_level: i32 },
    Stop,
    NewGame,
    SetOption { name: Seq<char>, value: Seq<char> },
    Quit,
}

impl View for EngineCommand {
    type V = CommandView;

    open spec fn view(&self) -> CommandView {
        match self {
            EngineCommand::Search(r) => CommandView::Search {
                id: r.id,
                position: r.position@,
                limit: r.limit,
                skill_level: r.skill_level,
            },
            EngineCommand::Stop => CommandView::Stop,
            EngineCommand::NewGame => CommandView::NewGame,
            EngineCommand::SetOption { name, value } => CommandView::SetOption { name: name@, value: value@ },
            EngineCommand::Quit => CommandView::Quit,
        }
    }
}

/// What the engine's thread reports back.
#[derive(Debug, Clone)]
pub enum EngineEvent {
    Ready,
    Search { id: u64, response: EngineResponse },
    /// The process could not be started or went away. Nothing follows.
    Failed(String),
}

/// An [`EngineEvent`] with its text as character sequences.
pub enum EventView {
    Ready,
    Search { id: u64, response: ResponseView },
    Failed(Seq<char>),
}

impl View for EngineEvent {
    type V = EventView;

    open spec fn view(&self) -> EventView {
        match self {
            EngineEvent::Ready => EventView::Ready,
            EngineEvent::Search { id, response } => EventView::Search { id: *id, response: response@ },
            EngineEvent::Failed(m) => EventView::Failed(m@),
        }
    }
}

/// Where the engine's thread is in its life.
#[derive(Debug, Clone, PartialEq, Eq)]
pub enum EngineStatus {
    Starting,
    Ready,
    Failed(String),
}

pub enum StatusView {
    Starting,
    Ready,
    Failed(Seq<char>),
}

impl View for EngineStatus {
    type V = StatusView;

    open spec fn view(&self) -> StatusView {
        match self {
            EngineStatus::Starting => StatusView::Starting,
            EngineStatus::Ready => StatusView::Ready,
            EngineStatus::Failed(m) => StatusView::Failed(m@),
        }
    }
}

/// The running search after `response`: a `bestmove` ends it.
pub open spec fn after_reply(current: Option<u64>, response: ResponseView) -> Option<u64> {
    if current is Some && response is BestMove { None } else { current }
}

/// The event a reply becomes: tagged with the running search's id, none
/// when no search is running.
pub open spec fn reply_event(current: Option<u64>, response: ResponseView) -> Option<EventView> {
    match current {
        Some(id) => Some(EventView::Search { id, response }),
        None => None,
    }
}

pub open spec fn opt_event(e: Option<EngineEvent>) -> Option<EventView> {
    match e {
        Some(e) => Some(e@),
        None => None,
    }
}

/// Tag a reply with the running search's id; `bestmove` ends that search.
/// No event for a reply when no search is running.
pub fn forward(current: &mut Option<u64>, response: EngineResponse) -> (event: Option<EngineEvent>)
    ensures
        *final(current) == after_reply(*old(current), response@),
        opt_event(event) == reply_event(*old(current), response@),
{
    let id = match *current {
        Some(id) => id,
        None => return None,
    };
    if let EngineResponse::BestMove { .. } = response {
        *current = None;
    }
    Some(EngineEvent::Search { id, response })
}

/// The commands that start `request`'s search, in order: the skill level,
/// the position and `go`. The engine is to be ready between the first two.
pub fn search_commands(request: &SearchRequest) -> (cmds: (String, String, String))
    ensures
        cmds.0@ == "setoption name Skill Level value "@ + decimal(skill_of(request.skill_level)),
        cmds.1@ == "position "@ + request.position@,
        cmds.2@ == go_text(request.limit),
{
    (skill_command(request.skill_level), position_command(request.position.as_str()), go_command(request.limit))
}

/// Replies are tagged with the running search's id until its `bestmove`,
/// which ends it; with no search running, replies are dropped.
pub proof fn law_bestmove_ends_the_search(current: Option<u64>, response: ResponseView)
    ensures
        response is BestMove ==> after_reply(current, response) is None,
        !(response is BestMove) ==> after_reply(current, response) == current,
        current is None ==> reply_event(current, response) is None,
        current matches Some(id) ==> reply_event(current, response) == Some(EventView::Search { id, response }),
{
}

} // verus!
