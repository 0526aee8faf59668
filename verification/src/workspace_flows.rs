//! The screens of the terminal workspace browser: their headings and the
//! buttons they offer. The runtime reads the terminal manager, issues the
//! buttons' actions and performs the changes they ask for.
use vstd::prelude::*;
use crate::domain::{ActionStyle, MultiplexerPane, MultiplexerSession, MultiplexerSnapshot, MultiplexerWindow, OutboundView, ViewStatus};
use crate::model::SessionId;
use crate::multiplexer::{
    file_name_of, is_shell_command, multiplexer_session_contains, multiplexer_window_contains, pane_runs, plural_of,
    session_has, shell_name, window_has,
};
use crate::session_flows::plain_view;
use crate::text::{append, decimal, decimal_string, owned};
use crate::domain::{ActionButton, ViewSection};

verus! {

fn counted(n: u64, singular: &str, many: &str) -> (r: String)
    ensures
        r@ == decimal(n as nat) + " "@ + plural_of(n as nat, singular@, many@),
{
    let mut r = decimal_string(n);
    append(&mut r, " ");
    append(&mut r, if n == 1 { singular } else { many });
    r
}

/// The subtitle of the workspace overview: how many terminal sessions,
/// windows and panes run.
pub fn root_subtitle(sessions: u64, windows: u64, panes: u64) -> (r: String)
    ensures
        r@ == decimal(sessions as nat) + " "@ + plural_of(sessions as nat, "session"@, "sessions"@) + " · "@
            + decimal(windows as nat) + " "@ + plural_of(windows as nat, "window"@, "windows"@) + " · "@
            + decimal(panes as nat) + " "@ + plural_of(panes as nat, "pane"@, "panes"@),
{
    let mut r = counted(sessions, "session", "sessions");
    append(&mut r, " · ");
    append(&mut r, counted(windows, "window", "windows").as_str());
    append(&mut r, " · ");
    append(&mut r, counted(panes, "pane", "panes").as_str());
    r
}

/// The heading (title, subtitle) of a terminal session's screen.
pub fn session_heading(session: &MultiplexerSession) -> (r: (String, String))
    requires
        session.windows.len() < u64::MAX,
    ensures
        r.0@ == "rmux · "@ + session.name@,
        r.1@ == decimal(session.windows@.len()) + " "@ + plural_of(session.windows@.len(), "window"@, "windows"@),
{
    let mut title = owned("rmux · ");
    append(&mut title, session.name.as_str());
    (title, counted(session.windows.len() as u64, "window", "windows"))
}

/// The heading (title, subtitle) of a terminal window's screen.
pub fn window_heading(session_name: &str, window: &MultiplexerWindow) -> (r: (String, String))
    requires
        window.panes.len() < u64::MAX,
    ensures
        r.0@ == "rmux · "@ + session_name@ + " · "@ + decimal(window.index as nat) + " ("@ + window.name@ + ")"@,
        r.1@ == decimal(window.panes@.len()) + " "@ + plural_of(window.panes@.len(), "pane"@, "panes"@),
{
    let mut title = owned("rmux · ");
    append(&mut title, session_name);
    append(&mut title, " · ");
    append(&mut title, decimal_string(window.index).as_str());
    append(&mut title, " (");
    append(&mut title, window.name.as_str());
    append(&mut title, ")");
    (title, counted(window.panes.len() as u64, "pane", "panes"))
}

/// The notice when the agent manages no terminal workspace.
pub fn multiplexer_unsupported_view(agent_name: &str) -> (r: OutboundView)
    ensures
        plain_view(
            r,
            "Terminal multiplexer"@,
            Some("Unsupported"@),
            agent_name@ + " does not support terminal multiplexer management."@,
            ViewStatus::Warning,
        ),
{
    let mut body = owned(agent_name);
    append(&mut body, " does not support terminal multiplexer management.");
    let sections: Vec<ViewSection> = Vec::new();
    let actions: Vec<ActionButton> = Vec::new();
    OutboundView {
        sections,
        title: owned("Terminal multiplexer"),
        subtitle: Some(owned("Unsupported")),
        body,
        status: ViewStatus::Warning,
        actions,
    }
}

/// The notice when the terminal manager does not run.
pub fn multiplexer_stopped_view() -> (r: OutboundView)
    ensures
        plain_view(r, "Terminal multiplexer"@, Some("Not running"@), "The rmux server is unavailable."@, ViewStatus::Muted),
{
    let sections: Vec<ViewSection> = Vec::new();
    let actions: Vec<ActionButton> = Vec::new();
    OutboundView {
        sections,
        title: owned("Terminal multiplexer"),
        subtitle: Some(owned("Not running")),
        body: owned("The rmux server is unavailable."),
        status: ViewStatus::Muted,
        actions,
    }
}

/// The style of a button leading to where the attached session runs.
pub open spec fn style_for(attached: bool) -> ActionStyle {
    if attached { ActionStyle::Primary } else { ActionStyle::Default }
}

/// The overview's buttons: each terminal session (primary where the
/// attached session runs), then + Session and Refresh.
pub open spec fn root_buttons_of(snapshot: MultiplexerSnapshot, current: Option<&SessionId>) -> Seq<(Seq<char>, ActionStyle)> {
    snapshot.sessions@.map_values(|s: MultiplexerSession| (s.name@, style_for(session_has(s, current))))
        + seq![("+ Session"@, ActionStyle::Default), ("Refresh"@, ActionStyle::Default)]
}

pub fn root_buttons(snapshot: &MultiplexerSnapshot, current: Option<&SessionId>) -> (r: Vec<(String, ActionStyle)>)
    ensures
        r@.map_values(|b: (String, ActionStyle)| (b.0@, b.1)) == root_buttons_of(*snapshot, current),
{
    let ghost shown = snapshot.sessions@.map_values(|s: MultiplexerSession| (s.name@, style_for(session_has(s, current))));
    let mut r: Vec<(String, ActionStyle)> = Vec::new();
    let mut i: usize = 0;
    while i < snapshot.sessions.len()
        invariant
            i <= snapshot.sessions.len(),
            shown == snapshot.sessions@.map_values(|s: MultiplexerSession| (s.name@, style_for(session_has(s, current)))),
            r@.map_values(|b: (String, ActionStyle)| (b.0@, b.1)) == shown.take(i as int),
        decreases snapshot.sessions.len() - i,
    {
        let session = &snapshot.sessions[i];
        let style = if multiplexer_session_contains(session, current) { ActionStyle::Primary } else { ActionStyle::Default };
        let ghost before = r@.map_values(|b: (String, ActionStyle)| (b.0@, b.1));
        r.push((owned(session.name.as_str()), style));
        proof {
            assert(shown[i as int] == (session.name@, style));
            assert(r@.map_values(|b: (String, ActionStyle)| (b.0@, b.1)) =~= before.push(shown[i as int]));
            assert(shown.take(i + 1) =~= shown.take(i as int).push(shown[i as int]));
        }
        i = i + 1;
    }
    let ghost listed = r@.map_values(|b: (String, ActionStyle)| (b.0@, b.1));
    r.push((owned("+ Session"), ActionStyle::Default));
    r.push((owned("Refresh"), ActionStyle::Default));
    proof {
        assert(shown.take(i as int) =~= shown);
        assert(r@.map_values(|b: (String, ActionStyle)| (b.0@, b.1)) =~= root_buttons_of(*snapshot, current));
    }
    r
}

/// A terminal session's buttons: each window as `index · name` (primary
/// where the attached session runs), then + Window and Back.
pub open spec fn window_buttons_of(session: MultiplexerSession, current: Option<&SessionId>) -> Seq<(Seq<char>, ActionStyle)> {
    session.windows@.map_values(
        |w: MultiplexerWindow| (decimal(w.index as nat) + " · "@ + w.name@, style_for(window_has(w, current))),
    ) + seq![("+ Window"@, ActionStyle::Default), ("← Back"@, ActionStyle::Default)]
}

pub fn window_buttons(session: &MultiplexerSession, current: Option<&SessionId>) -> (r: Vec<(String, ActionStyle)>)
    ensures
        r@.map_values(|b: (String, ActionStyle)| (b.0@, b.1)) == window_buttons_of(*session, current),
{
    let ghost shown = session.windows@.map_values(
        |w: MultiplexerWindow| (decimal(w.index as nat) + " · "@ + w.name@, style_for(window_has(w, current))),
    );
    let mut r: Vec<(String, ActionStyle)> = Vec::new();
    let mut i: usize = 0;
    while i < session.windows.len()
        invariant
            i <= session.windows.len(),
            shown == session.windows@.map_values(
                |w: MultiplexerWindow| (decimal(w.index as nat) + " · "@ + w.name@, style_for(window_has(w, current))),
            ),
            r@.map_values(|b: (String, ActionStyle)| (b.0@, b.1)) == shown.take(i as int),
        decreases session.windows.len() - i,
    {
        let window = &session.windows[i];
        let style = if multiplexer_window_contains(window, current) { ActionStyle::Primary } else { ActionStyle::Default };
        let mut label = decimal_string(window.index);
        append(&mut label, " · ");
        append(&mut label, window.name.as_str());
        let ghost before = r@.map_values(|b: (String, ActionStyle)| (b.0@, b.1));
        r.push((label, style));
        proof {
            assert(shown[i as int] == (decimal(window.index as nat) + " · "@ + window.name@, style));
            assert(r@.map_values(|b: (String, ActionStyle)| (b.0@, b.1)) =~= before.push(shown[i as int]));
            assert(shown.take(i + 1) =~= shown.take(i as int).push(shown[i as int]));
        }
        i = i + 1;
    }
    r.push((owned("+ Window"), ActionStyle::Default));
    r.push((owned("← Back"), ActionStyle::Default));
    proof {
        assert(shown.take(i as int) =~= shown);
        assert(r@.map_values(|b: (String, ActionStyle)| (b.0@, b.1)) =~= window_buttons_of(*session, current));
    }
    r
}

/// What a pane's button does.
#[derive(Debug)]
pub enum PaneChoice {
    /// Attach the agent session running in the pane.
    Attach(SessionId),
    /// Start the agent in the idle pane at this position of the window.
    Launch(usize),
}

pub enum PaneStep {
    Attach(Seq<char>),
    Launch(usize),
}

pub open spec fn pane_step(c: PaneChoice) -> PaneStep {
    match c {
        PaneChoice::Attach(s) => PaneStep::Attach(s@),
        PaneChoice::Launch(i) => PaneStep::Launch(i),
    }
}

pub open spec fn shell_pane(pane: MultiplexerPane) -> bool {
    match file_name_of(pane.current_command@) {
        Some(n) => shell_name(n),
        None => false,
    }
}

/// The pane buttons of the first `n` panes of a window: a pane running
/// another agent session can be attached, an idle shell pane can start
/// `agent_name`; other panes, and the one running the attached session,
/// get no button.
pub open spec fn pane_buttons_of(panes: Seq<MultiplexerPane>, current: Option<&SessionId>, agent_name: Seq<char>) -> Seq<(Seq<char>, PaneStep)>
    decreases panes.len(),
{
    if panes.len() == 0 {
        Seq::empty()
    } else {
        let before = pane_buttons_of(panes.drop_last(), current, agent_name);
        let pane = panes.last();
        match pane.agent_session {
            Some(s) => if pane_runs(pane, current) {
                before
            } else {
                before.push((decimal(pane.index as nat) + " · Attach"@, PaneStep::Attach(s@)))
            },
            None => if shell_pane(pane) {
                before.push((decimal(pane.index as nat) + " · Run "@ + agent_name, PaneStep::Launch((panes.len() - 1) as usize)))
            } else {
                before
            },
        }
    }
}

pub fn pane_buttons(window: &MultiplexerWindow, current: Option<&SessionId>, agent_name: &str) -> (r: Vec<(String, PaneChoice)>)
    ensures
        r@.map_values(|b: (String, PaneChoice)| (b.0@, pane_step(b.1))) == pane_buttons_of(window.panes@, current, agent_name@),
{
    let mut r: Vec<(String, PaneChoice)> = Vec::new();
    let mut i: usize = 0;
    while i < window.panes.len()
        invariant
            i <= window.panes.len(),
            r@.map_values(|b: (String, PaneChoice)| (b.0@, pane_step(b.1))) == pane_buttons_of(window.panes@.take(i as int), current, agent_name@),
        decreases window.panes.len() - i,
    {
        let pane = &window.panes[i];
        proof {
            assert(window.panes@.take(i + 1).drop_last() =~= window.panes@.take(i as int));
            assert(window.panes@.take(i + 1).last() == window.panes@[i as int]);
        }
        let ghost before = r@.map_values(|b: (String, PaneChoice)| (b.0@, pane_step(b.1)));
        match &pane.agent_session {
            Some(s) => {
                let runs = match current {
                    Some(c) => s.same(c),
                    None => false,
                };
                assert(runs == pane_runs(*pane, current));
                if !runs {
                    let mut label = decimal_string(pane.index);
                    append(&mut label, " · Attach");
                    r.push((label, PaneChoice::Attach(s.duplicate())));
                    assert(r@.map_values(|b: (String, PaneChoice)| (b.0@, pane_step(b.1))) =~= before.push(
                        (decimal(pane.index as nat) + " · Attach"@, PaneStep::Attach(s@)),
                    ));
                }
            },
            None => {
                if is_shell_command(pane.current_command.as_str()) {
                    let mut label = decimal_string(pane.index);
                    append(&mut label, " · Run ");
                    append(&mut label, agent_name);
                    r.push((label, PaneChoice::Launch(i)));
                    assert(r@.map_values(|b: (String, PaneChoice)| (b.0@, pane_step(b.1))) =~= before.push(
                        (decimal(pane.index as nat) + " · Run "@ + agent_name@, PaneStep::Launch(i)),
                    ));
                }
            },
        }
        i = i + 1;
    }
    assert(window.panes@.take(i as int) =~= window.panes@);
    r
}

/// The pane a split starts from: the window's active pane, else its first;
/// none in a window without panes.
pub fn split_source(window: &MultiplexerWindow) -> (r: Option<usize>)
    ensures
        match r {
            Some(i) => i < window.panes@.len() && (window.panes@[i as int].active || (i == 0
                && forall|j: int| 0 <= j < window.panes@.len() ==> !window.panes@[j].active))
                && forall|j: int| 0 <= j < i ==> !window.panes@[j].active,
            None => window.panes@.len() == 0,
        },
{
    let mut i: usize = 0;
    while i < window.panes.len()
        invariant
            i <= window.panes.len(),
            forall|j: int| 0 <= j < i ==> !window.panes@[j].active,
        decreases window.panes.len() - i,
    {
        if window.panes[i].active {
            return Some(i);
        }
        i = i + 1;
    }
    if window.panes.len() > 0 { Some(0) } else { None }
}

/// The labels of the two split buttons, which start `agent_name` beside or
/// below the source pane.
pub fn split_labels(agent_name: &str) -> (r: (String, String))
    ensures
        r.0@ == "Split ↔ + "@ + agent_name@,
        r.1@ == "Split ↕ + "@ + agent_name@,
{
    let mut beside = owned("Split ↔ + ");
    append(&mut beside, agent_name);
    let mut below = owned("Split ↕ + ");
    append(&mut below, agent_name);
    (beside, below)
}

} // verus!
