//! Conversation records exchanged with agent runtimes: turns, their items and
//! the events that report progress.
use vstd::prelude::*;
use crate::text::{clone_opt, opt_view};

verus! {

/// Lifecycle of one agent turn.
#[derive(Debug, Clone, Copy, PartialEq, Eq, Structural)]
pub enum TurnStatus {
    InProgress,
    Completed,
    Interrupted,
    Failed,
    Unknown,
}

/// One output element of a turn (a message, a reasoning block, a tool call).
#[derive(Debug)]
pub struct ItemSummary {
    pub id: String,
    pub kind: String,
    pub text: Option<String>,
    pub status: Option<String>,
}

pub struct ItemModel {
    pub id: Seq<char>,
    pub kind: Seq<char>,
    pub text: Option<Seq<char>>,
    pub status: Option<Seq<char>>,
}

impl View for ItemSummary {
    type V = ItemModel;

    open spec fn view(&self) -> ItemModel {
        ItemModel {
            id: self.id@,
            kind: self.kind@,
            text: opt_view(self.text),
            status: opt_view(self.status),
        }
    }
}

impl Clone for ItemSummary {
    fn clone(&self) -> (r: Self)
        ensures
            r == *self,
    {
        ItemSummary {
            id: self.id.clone(),
            kind: self.kind.clone(),
            text: clone_opt(&self.text),
            status: clone_opt(&self.status),
        }
    }
}

pub open spec fn items_view(items: Seq<ItemSummary>) -> Seq<ItemModel> {
    items.map_values(|i: ItemSummary| i@)
}

pub fn clone_items(items: &Vec<ItemSummary>) -> (r: Vec<ItemSummary>)
    ensures
        r@ == items@,
{
    let mut r: Vec<ItemSummary> = Vec::new();
    let mut i: usize = 0;
    while i < items.len()
        invariant
            i <= items.len(),
            r@ == items@.subrange(0, i as int),
        decreases items.len() - i,
    {
        r.push(items[i].clone());
        i = i + 1;
        assert(r@ =~= items@.subrange(0, i as int));
    }
    assert(items@.subrange(0, items.len() as int) =~= items@);
    r
}

pub fn clone_strings(v: &Vec<String>) -> (r: Vec<String>)
    ensures
        r@ == v@,
{
    let mut r: Vec<String> = Vec::new();
    let mut i: usize = 0;
    while i < v.len()
        invariant
            i <= v.len(),
            r@ == v@.subrange(0, i as int),
        decreases v.len() - i,
    {
        r.push(v[i].clone());
        i = i + 1;
        assert(r@ =~= v@.subrange(0, i as int));
    }
    assert(v@.subrange(0, v.len() as int) =~= v@);
    r
}

/// A turn as reported by history: its texts and items.
#[derive(Debug)]
pub struct TurnSummary {
    pub id: String,
    pub status: TurnStatus,
    pub user_text: Option<String>,
    pub agent_text: Option<String>,
    pub tools: Vec<String>,
    pub items: Vec<ItemSummary>,
}

pub struct TurnModel {
    pub id: Seq<char>,
    pub status: TurnStatus,
    pub user_text: Option<Seq<char>>,
    pub agent_text: Option<Seq<char>>,
    pub tools: Seq<Seq<char>>,
    pub items: Seq<ItemModel>,
}

impl View for TurnSummary {
    type V = TurnModel;

    open spec fn view(&self) -> TurnModel {
        TurnModel {
            id: self.id@,
            status: self.status,
            user_text: opt_view(self.user_text),
            agent_text: opt_view(self.agent_text),
            tools: self.tools@.map_values(|t: String| t@),
            items: items_view(self.items@),
        }
    }
}

impl Clone for TurnSummary {
    fn clone(&self) -> (r: Self)
        ensures
            r@ == self@,
    {
        let items = clone_items(&self.items);
        let tools = clone_strings(&self.tools);
        let r = TurnSummary {
            id: self.id.clone(),
            status: self.status,
            user_text: clone_opt(&self.user_text),
            agent_text: clone_opt(&self.agent_text),
            tools,
            items,
        };
        assert(r.items@ == self.items@);
        r
    }
}

/// One page of conversation history, oldest turn first.
#[derive(Debug)]
pub struct HistoryPage {
    pub turns: Vec<TurnSummary>,
    pub older_cursor: Option<String>,
    pub newer_cursor: Option<String>,
}

pub struct HistoryModel {
    pub turns: Seq<TurnModel>,
    pub older_cursor: Option<Seq<char>>,
    pub newer_cursor: Option<Seq<char>>,
}

pub open spec fn turns_view(turns: Seq<TurnSummary>) -> Seq<TurnModel> {
    turns.map_values(|t: TurnSummary| t@)
}

impl View for HistoryPage {
    type V = HistoryModel;

    open spec fn view(&self) -> HistoryModel {
        HistoryModel {
            turns: turns_view(self.turns@),
            older_cursor: opt_view(self.older_cursor),
            newer_cursor: opt_view(self.newer_cursor),
        }
    }
}

/// Health of a session as the runtime reports it.
#[derive(Debug, Clone, Copy, PartialEq, Eq, Structural)]
pub enum SessionStatus {
    Active,
    Idle,
    NotLoaded,
    SystemError,
    Offline,
    Unknown,
}

/// Progress notifications of an agent runtime.
#[derive(Debug)]
pub enum AgentEvent {
    TurnStarted { session_id: String, turn_id: String },
    TurnCompleted { session_id: String, turn_id: String, status: TurnStatus, error: Option<String> },
    UserMessage { session_id: String, turn_id: String, item_id: String, text: String },
    AgentMessageDelta { session_id: String, turn_id: String, item_id: String, delta: String },
    ItemStarted { session_id: String, turn_id: String, item_id: String, kind: String, label: String },
    ItemCompleted { session_id: String, turn_id: String, item: ItemSummary },
    SessionStatusChanged { session_id: String, status: SessionStatus },
    SessionExited { session_id: String },
}


/// A titled part of a rich view; process parts can be collapsed.
#[derive(Debug, PartialEq)]
pub struct ViewSection {
    pub title: String,
    pub body: String,
    pub collapsible: bool,
    pub expanded: Option<bool>,
}

pub struct SectionModel {
    pub title: Seq<char>,
    pub body: Seq<char>,
    pub collapsible: bool,
    pub expanded: Option<bool>,
}

impl View for ViewSection {
    type V = SectionModel;

    open spec fn view(&self) -> SectionModel {
        SectionModel { title: self.title@, body: self.body@, collapsible: self.collapsible, expanded: self.expanded }
    }
}

pub open spec fn sections_view(s: Seq<ViewSection>) -> Seq<SectionModel> {
    s.map_values(|x: ViewSection| x@)
}

/// The tone of a view.
#[derive(Debug, Clone, Copy, PartialEq, Eq, Structural)]
pub enum ViewStatus {
    Info,
    Success,
    Warning,
    Error,
    Running,
    Waiting,
    Muted,
    Background,
}

/// How an event reaches a conversation: the attached session, or a session
/// still finishing in the background after a switch.
#[derive(Debug, Clone, Copy, PartialEq, Eq, Structural)]
pub enum DeliveryClass {
    Live,
    Draining,
}


/// A button attached to a view.
#[derive(Debug)]
pub struct ActionButton {
    pub label: String,
    pub token: String,
    pub style: ActionStyle,
}

/// How a button is drawn.
#[derive(Debug, Clone, Copy, PartialEq, Eq, Structural)]
pub enum ActionStyle {
    Default,
    Primary,
    Danger,
}

/// A channel-neutral message: title, optional subtitle, body and sections.
#[derive(Debug)]
pub struct OutboundView {
    pub sections: Vec<ViewSection>,
    pub title: String,
    pub subtitle: Option<String>,
    pub body: String,
    pub status: ViewStatus,
    pub actions: Vec<ActionButton>,
}

/// A session listed by an agent runtime.
#[derive(Debug)]
pub struct SessionSummary {
    pub id: crate::model::SessionId,
    pub name: Option<String>,
    pub preview: Option<String>,
    pub status: SessionStatus,
    /// The session's working directory, when known.
    pub cwd: Option<String>,
    /// The terminal pane the session runs in, when it runs in one.
    pub terminal: Option<SessionTerminal>,
}

/// Where in the terminal manager a session runs.
#[derive(Debug)]
pub struct SessionTerminal {
    pub session: String,
    pub window_index: u64,
    pub window_name: String,
    pub pane_index: u64,
}


/// A slash command offered by a channel; contextual ones need an attached session.
#[derive(Debug)]
pub struct ChannelCommand {
    pub name: String,
    pub description: String,
    pub contextual: bool,
}

/// The commands a channel offers, in menu order.
#[derive(Debug)]
pub struct CommandMenu {
    pub commands: Vec<ChannelCommand>,
}

/// Terminal workspace managers.
#[derive(Debug, Clone, Copy, PartialEq, Eq, Structural)]
pub enum MultiplexerKind {
    Rmux,
    Tmux,
}

impl MultiplexerKind {
    pub fn as_str(self) -> (r: &'static str)
        ensures
            r@ == match self {
                MultiplexerKind::Rmux => "rmux"@,
                MultiplexerKind::Tmux => "tmux"@,
            },
    {
        match self {
            MultiplexerKind::Rmux => "rmux",
            MultiplexerKind::Tmux => "tmux",
        }
    }
}

impl Default for MultiplexerKind {
    fn default() -> (r: Self)
        ensures
            r == MultiplexerKind::Rmux,
    {
        MultiplexerKind::Rmux
    }
}

/// A pane of a terminal window, with the agent session running in it.
#[derive(Debug)]
pub struct MultiplexerPane {
    pub index: u64,
    pub current_command: String,
    pub active: bool,
    pub cwd: String,
    pub agent_session: Option<crate::model::SessionId>,
}

#[derive(Debug)]
pub struct MultiplexerWindow {
    pub index: u64,
    pub name: String,
    pub panes: Vec<MultiplexerPane>,
}

#[derive(Debug)]
pub struct MultiplexerSession {
    pub name: String,
    pub windows: Vec<MultiplexerWindow>,
}

#[derive(Debug)]
pub struct MultiplexerSnapshot {
    pub sessions: Vec<MultiplexerSession>,
}

} // verus!
