//! Channel-neutral view construction. No storage, adapters or I/O.
use vstd::prelude::*;
use crate::domain::{
    ActionButton, DeliveryClass, HistoryPage, OutboundView, SessionStatus, SessionSummary, TurnStatus,
    TurnSummary, ViewSection, ViewStatus,
};
use crate::model::SessionId;
use crate::turn_buffer::{BufferModel, TurnBuffer, render_output_model, view_sections_model};
use crate::domain::{sections_view, SectionModel};
use crate::text::{
    append, blank, decimal, decimal_string, is_blank, markdown_quote, markdown_quote_of, opt_view, owned,
    prefix_within, prefix_within_bytes, trim, trimmed,
};

verus! {

pub fn plural<'a>(count: usize, singular: &'a str, many: &'a str) -> (r: &'a str)
    ensures
        r@ == if count == 1 { singular@ } else { many@ },
{
    if count == 1 { singular } else { many }
}

pub open spec fn status_label(status: TurnStatus) -> Seq<char> {
    match status {
        TurnStatus::InProgress => "In progress"@,
        TurnStatus::Completed => "Completed"@,
        TurnStatus::Interrupted => "Interrupted"@,
        TurnStatus::Failed => "Failed"@,
        TurnStatus::Unknown => "Unknown"@,
    }
}

pub fn turn_status_label(status: &TurnStatus) -> (r: &'static str)
    ensures
        r@ == status_label(*status),
{
    match status {
        TurnStatus::InProgress => "In progress",
        TurnStatus::Completed => "Completed",
        TurnStatus::Interrupted => "Interrupted",
        TurnStatus::Failed => "Failed",
        TurnStatus::Unknown => "Unknown",
    }
}

pub open spec fn view_status_of(status: TurnStatus) -> ViewStatus {
    match status {
        TurnStatus::Completed => ViewStatus::Success,
        TurnStatus::Failed => ViewStatus::Error,
        TurnStatus::Interrupted => ViewStatus::Warning,
        TurnStatus::InProgress | TurnStatus::Unknown => ViewStatus::Running,
    }
}

pub fn turn_view_status(status: &TurnStatus) -> (r: ViewStatus)
    ensures
        r == view_status_of(*status),
{
    match status {
        TurnStatus::Completed => ViewStatus::Success,
        TurnStatus::Failed => ViewStatus::Error,
        TurnStatus::Interrupted => ViewStatus::Warning,
        TurnStatus::InProgress | TurnStatus::Unknown => ViewStatus::Running,
    }
}

/// The emoji and label of a session status.
pub open spec fn status_text(status: SessionStatus) -> (Seq<char>, Seq<char>) {
    match status {
        SessionStatus::Active => ("🟢"@, "Active"@),
        SessionStatus::Idle => ("🟡"@, "Idle"@),
        SessionStatus::NotLoaded => ("⚫"@, "Not loaded"@),
        SessionStatus::SystemError => ("⚠️"@, "System error"@),
        SessionStatus::Offline => ("🔴"@, "Offline"@),
        SessionStatus::Unknown => ("⚪"@, "Unknown"@),
    }
}

pub fn session_status_label(status: &SessionStatus) -> (r: (&'static str, &'static str))
    ensures
        (r.0@, r.1@) == status_text(*status),
{
    match status {
        SessionStatus::Active => ("🟢", "Active"),
        SessionStatus::Idle => ("🟡", "Idle"),
        SessionStatus::NotLoaded => ("⚫", "Not loaded"),
        SessionStatus::SystemError => ("⚠️", "System error"),
        SessionStatus::Offline => ("🔴", "Offline"),
        SessionStatus::Unknown => ("⚪", "Unknown"),
    }
}

pub open spec fn decision_label_of(decision: Seq<char>) -> Seq<char> {
    if decision == "accept"@ {
        "Allow once"@
    } else if decision == "acceptForSession"@ {
        "Allow for session"@
    } else if decision == "decline"@ {
        "Decline"@
    } else if decision == "cancel"@ {
        "Cancel"@
    } else {
        decision
    }
}

/// Button label of an approval decision; unknown decisions show as given.
pub fn decision_label(decision: &str) -> (r: String)
    ensures
        r@ == decision_label_of(decision@),
{
    if crate::text::str_eq(decision, "accept") {
        owned("Allow once")
    } else if crate::text::str_eq(decision, "acceptForSession") {
        owned("Allow for session")
    } else if crate::text::str_eq(decision, "decline") {
        owned("Decline")
    } else if crate::text::str_eq(decision, "cancel") {
        owned("Cancel")
    } else {
        owned(decision)
    }
}

/// The leading part of an identifier shown in titles (at most eight UTF-8 bytes).
pub fn short_identifier(value: &str) -> (r: String)
    ensures
        r@ == prefix_within(value@, 8),
{
    prefix_within_bytes(value, 8)
}

pub open spec fn elapsed_text(seconds: nat) -> Seq<char> {
    let hours = seconds / 3600;
    let minutes = (seconds % 3600) / 60;
    let secs = seconds % 60;
    if hours > 0 {
        decimal(hours) + "h "@ + decimal(minutes) + "m "@ + decimal(secs) + "s"@
    } else if minutes > 0 {
        decimal(minutes) + "m "@ + decimal(secs) + "s"@
    } else {
        decimal(secs) + "s"@
    }
}

/// A duration in whole seconds as `1h 2m 3s`, `2m 3s` or `3s`.
pub fn format_elapsed(seconds: u64) -> (r: String)
    ensures
        r@ == elapsed_text(seconds as nat),
{
    let hours = seconds / 3600;
    let minutes = (seconds % 3600) / 60;
    let secs = seconds % 60;
    if hours > 0 {
        let mut r = decimal_string(hours);
        append(&mut r, "h ");
        append(&mut r, decimal_string(minutes).as_str());
        append(&mut r, "m ");
        append(&mut r, decimal_string(secs).as_str());
        append(&mut r, "s");
        r
    } else if minutes > 0 {
        let mut r = decimal_string(minutes);
        append(&mut r, "m ");
        append(&mut r, decimal_string(secs).as_str());
        append(&mut r, "s");
        r
    } else {
        let mut r = decimal_string(secs);
        append(&mut r, "s");
        r
    }
}

pub open spec fn completion_body(status: TurnStatus, error: Option<Seq<char>>) -> Seq<char> {
    let outcome = match status {
        TurnStatus::Completed => "completed"@,
        TurnStatus::Failed => "failed"@,
        TurnStatus::Interrupted => "was interrupted"@,
        TurnStatus::InProgress | TurnStatus::Unknown => "finished"@,
    };
    let body = "This turn "@ + outcome + " in a session that is not attached to this IM conversation."@;
    match error {
        Some(e) => if blank(e) { body } else { body + "\n\n**Error**\n\n"@ + markdown_quote_of(e) },
        None => body,
    }
}

/// Notice for a turn that finished in a session not attached here.
pub fn background_completion_body(status: &TurnStatus, error: Option<&str>) -> (r: String)
    ensures
        r@ == completion_body(*status, match error { Some(e) => Some(e@), None => None }),
{
    let outcome = match status {
        TurnStatus::Completed => "completed",
        TurnStatus::Failed => "failed",
        TurnStatus::Interrupted => "was interrupted",
        TurnStatus::InProgress | TurnStatus::Unknown => "finished",
    };
    let mut body = owned("This turn ");
    append(&mut body, outcome);
    append(&mut body, " in a session that is not attached to this IM conversation.");
    match error {
        Some(e) => {
            if !is_blank(e) {
                append(&mut body, "\n\n**Error**\n\n");
                append(&mut body, markdown_quote(e).as_str());
            }
        },
        None => {},
    }
    body
}

pub open spec fn visible(text: Option<Seq<char>>) -> Option<Seq<char>> {
    match text {
        Some(t) => if blank(t) { None } else { Some(t) },
        None => None,
    }
}

pub open spec fn conversation_body(agent_name: Seq<char>, user_text: Option<Seq<char>>, agent_text: Option<Seq<char>>) -> Seq<char> {
    let user = match visible(user_text) {
        Some(t) => seq!["**👤 You**\n\n"@ + markdown_quote_of(t)],
        None => Seq::empty(),
    };
    let sections = match visible(agent_text) {
        Some(t) => user.push("**🤖 "@ + agent_name + "**\n\n"@ + markdown_quote_of(t)),
        None => user,
    };
    if sections.len() == 0 {
        "No text content."@
    } else if sections.len() == 1 {
        sections[0]
    } else {
        sections[0] + "\n\n"@ + sections[1]
    }
}

/// A turn as quoted user and agent text.
pub fn turn_conversation_body(agent_name: &str, user_text: Option<&str>, agent_text: Option<&str>) -> (r: String)
    ensures
        r@ == conversation_body(
            agent_name@,
            match user_text { Some(t) => Some(t@), None => None },
            match agent_text { Some(t) => Some(t@), None => None },
        ),
{
    let mut user: Option<String> = None;
    match user_text {
        Some(t) => {
            if !is_blank(t) {
                let mut s = owned("**👤 You**\n\n");
                append(&mut s, markdown_quote(t).as_str());
                user = Some(s);
            }
        },
        None => {},
    }
    let mut agent: Option<String> = None;
    match agent_text {
        Some(t) => {
            if !is_blank(t) {
                let mut s = owned("**🤖 ");
                append(&mut s, agent_name);
                append(&mut s, "**\n\n");
                append(&mut s, markdown_quote(t).as_str());
                agent = Some(s);
            }
        },
        None => {},
    }
    match (user, agent) {
        (None, None) => owned("No text content."),
        (Some(u), None) => u,
        (None, Some(a)) => a,
        (Some(u), Some(a)) => {
            let mut r = u;
            append(&mut r, "\n\n");
            append(&mut r, a.as_str());
            r
        },
    }
}

pub open spec fn title_of(name: Option<Seq<char>>, preview: Option<Seq<char>>) -> Seq<char> {
    match visible(name) {
        Some(n) => trim(n),
        None => match visible(preview) {
            Some(p) => trim(p),
            None => "Untitled"@,
        },
    }
}

/// A session's name, else its preview, else `Untitled` (trimmed).
pub fn session_title(session: &SessionSummary) -> (r: String)
    ensures
        r@ == title_of(opt_view(session.name), opt_view(session.preview)),
{
    match &session.name {
        Some(n) => {
            if !is_blank(n.as_str()) {
                return trimmed(n.as_str());
            }
        },
        None => {},
    }
    match &session.preview {
        Some(p) => {
            if !is_blank(p.as_str()) {
                return trimmed(p.as_str());
            }
        },
        None => {},
    }
    owned("Untitled")
}

/// `title · short id`.
pub fn session_display_label(session: &SessionSummary) -> (r: String)
    ensures
        r@ == title_of(opt_view(session.name), opt_view(session.preview)) + " · "@ + prefix_within(session.id@, 8),
{
    let mut r = session_title(session);
    append(&mut r, " · ");
    append(&mut r, session.id.short().as_str());
    r
}


/// How a history page is introduced.
#[derive(Debug, Clone, Copy, PartialEq, Eq, Structural)]
pub enum HistoryPresentation {
    Attached,
    History,
}

/// `v` is a plain view (no sections, no actions) with these parts.
pub open spec fn plain_view(v: OutboundView, title: Seq<char>, subtitle: Option<Seq<char>>, body: Seq<char>, status: ViewStatus) -> bool {
    &&& v.sections@.len() == 0
    &&& v.actions@.len() == 0
    &&& v.title@ == title
    &&& opt_view(v.subtitle) == subtitle
    &&& v.body@ == body
    &&& v.status == status
}

pub open spec fn turn_view_spec(v: OutboundView, agent_name: Seq<char>, turn: crate::domain::TurnModel) -> bool {
    plain_view(
        v,
        agent_name + " · Turn "@ + prefix_within(turn.id, 8),
        Some(status_label(turn.status)),
        conversation_body(agent_name, turn.user_text, turn.agent_text),
        view_status_of(turn.status),
    )
}

/// A history turn as a view.
pub fn history_turn_view(agent_name: &str, turn: &TurnSummary) -> (r: OutboundView)
    ensures
        turn_view_spec(r, agent_name@, turn@),
{
    let user = match &turn.user_text {
        Some(t) => Some(t.as_str()),
        None => None,
    };
    let agent = match &turn.agent_text {
        Some(t) => Some(t.as_str()),
        None => None,
    };
    let body = turn_conversation_body(agent_name, user, agent);
    let mut title = owned(agent_name);
    append(&mut title, " · Turn ");
    append(&mut title, short_identifier(turn.id.as_str()).as_str());
    let r = OutboundView {
        sections: Vec::new(),
        title,
        subtitle: Some(owned(turn_status_label(&turn.status))),
        body,
        status: turn_view_status(&turn.status),
        actions: Vec::new(),
    };
    r
}

pub open spec fn history_header(turn_count: nat, older: bool, newer: bool) -> Seq<char> {
    let b0 = if turn_count == 0 {
        "No conversation history yet."@
    } else {
        "Showing "@ + decimal(turn_count) + " recent "@ + (if turn_count == 1 { "turn"@ } else { "turns"@ }) + "."@
    };
    let b1 = if older { b0 + "\n\nEarlier turns: /history older"@ } else { b0 };
    if newer { b1 + "\nNewer turns: /history newer"@ } else { b1 }
}

/// A header view followed by one view per turn.
pub fn history_views(agent_name: &str, session_label: &str, history: &HistoryPage, presentation: HistoryPresentation) -> (r: Vec<OutboundView>)
    ensures
        r@.len() == history.turns@.len() + 1,
        plain_view(
            r@[0],
            agent_name@ + " · "@ + session_label@,
            Some(match presentation {
                HistoryPresentation::Attached => "Attached"@,
                HistoryPresentation::History => "History"@,
            }),
            history_header(history.turns@.len(), history.older_cursor is Some, history.newer_cursor is Some),
            ViewStatus::Info,
        ),
        forall|i: int| 0 <= i < history.turns@.len() ==> turn_view_spec(#[trigger] r@[i + 1], agent_name@, history.turns@[i]@),
{
    let turn_count = history.turns.len();
    let mut body = if turn_count == 0 {
        owned("No conversation history yet.")
    } else {
        let mut b = owned("Showing ");
        append(&mut b, decimal_string(turn_count as u64).as_str());
        append(&mut b, " recent ");
        append(&mut b, if turn_count == 1 { "turn" } else { "turns" });
        append(&mut b, ".");
        b
    };
    if history.older_cursor.is_some() {
        append(&mut body, "\n\nEarlier turns: /history older");
    }
    if history.newer_cursor.is_some() {
        append(&mut body, "\nNewer turns: /history newer");
    }
    let subtitle = match presentation {
        HistoryPresentation::Attached => "Attached",
        HistoryPresentation::History => "History",
    };
    let mut title = owned(agent_name);
    append(&mut title, " · ");
    append(&mut title, session_label);
    let mut views: Vec<OutboundView> = Vec::new();
    views.push(OutboundView {
        sections: Vec::new(),
        title,
        subtitle: Some(owned(subtitle)),
        body,
        status: ViewStatus::Info,
        actions: Vec::new(),
    });
    let mut i: usize = 0;
    while i < history.turns.len()
        invariant
            i <= history.turns.len(),
            views@.len() == i + 1,
            plain_view(
                views@[0],
                agent_name@ + " · "@ + session_label@,
                Some(match presentation {
                    HistoryPresentation::Attached => "Attached"@,
                    HistoryPresentation::History => "History"@,
                }),
                history_header(history.turns@.len(), history.older_cursor is Some, history.newer_cursor is Some),
                ViewStatus::Info,
            ),
            forall|j: int| 0 <= j < i ==> turn_view_spec(#[trigger] views@[j + 1], agent_name@, history.turns@[j]@),
        decreases history.turns.len() - i,
    {
        views.push(history_turn_view(agent_name, &history.turns[i]));
        i = i + 1;
    }
    views
}

pub open spec fn live_status_label_of(status: TurnStatus, elapsed: Option<u64>) -> Seq<char> {
    match elapsed {
        Some(e) => match status {
            TurnStatus::InProgress | TurnStatus::Unknown => "Working "@ + elapsed_text(e as nat),
            TurnStatus::Completed => "Completed in "@ + elapsed_text(e as nat),
            TurnStatus::Interrupted => "Interrupted after "@ + elapsed_text(e as nat),
            TurnStatus::Failed => "Failed after "@ + elapsed_text(e as nat),
        },
        None => status_label(status),
    }
}

/// Status line of a live turn; `elapsed` is whole seconds since it started.
pub fn live_turn_status_label(buffer: &TurnBuffer, elapsed: Option<u64>) -> (r: String)
    ensures
        r@ == live_status_label_of(buffer.status, elapsed),
{
    match elapsed {
        Some(e) => {
            let mut r = match buffer.status {
                TurnStatus::InProgress | TurnStatus::Unknown => owned("Working "),
                TurnStatus::Completed => owned("Completed in "),
                TurnStatus::Interrupted => owned("Interrupted after "),
                TurnStatus::Failed => owned("Failed after "),
            };
            append(&mut r, format_elapsed(e).as_str());
            r
        },
        None => owned(turn_status_label(&buffer.status)),
    }
}

pub open spec fn live_body_of(agent_name: Seq<char>, b: BufferModel, delivery: DeliveryClass) -> Seq<char> {
    let body = conversation_body(agent_name, Some(b.user_text), Some(render_output_model(b)));
    if delivery == DeliveryClass::Draining {
        body + "\n\nThis is a background session after switching."@
    } else {
        body
    }
}

/// Plain body of a live turn.
pub fn live_turn_body(agent_name: &str, buffer: &TurnBuffer, delivery: DeliveryClass) -> (r: String)
    ensures
        r@ == live_body_of(agent_name@, buffer@, delivery),
{
    let output = buffer.render_output();
    let mut body = turn_conversation_body(agent_name, Some(buffer.user_text.as_str()), Some(output.as_str()));
    if delivery == DeliveryClass::Draining {
        append(&mut body, "\n\nThis is a background session after switching.");
    }
    body
}

/// The view of a live turn; `elapsed` is whole seconds since it started.
pub fn live_turn_view(
    agent_name: &str,
    session_label: &str,
    turn_id: &str,
    buffer: &TurnBuffer,
    delivery: DeliveryClass,
    elapsed: Option<u64>,
) -> (r: OutboundView)
    ensures
        sections_view(r.sections@) == view_sections_model(buffer@, agent_name@),
        r.actions@.len() == 0,
        r.title@ == agent_name@ + " · "@ + session_label@,
        opt_view(r.subtitle) == Some(
            (if delivery == DeliveryClass::Draining { "Background turn"@ } else { "Turn"@ }) + " "@
                + prefix_within(turn_id@, 8) + " · "@ + live_status_label_of(buffer.status, elapsed),
        ),
        r.body@ == live_body_of(agent_name@, buffer@, delivery),
        r.status == if delivery == DeliveryClass::Draining { ViewStatus::Background } else { view_status_of(buffer.status) },
{
    let mut title = owned(agent_name);
    append(&mut title, " · ");
    append(&mut title, session_label);
    let mut subtitle = owned(if delivery == DeliveryClass::Draining { "Background turn" } else { "Turn" });
    append(&mut subtitle, " ");
    append(&mut subtitle, short_identifier(turn_id).as_str());
    append(&mut subtitle, " · ");
    append(&mut subtitle, live_turn_status_label(buffer, elapsed).as_str());
    OutboundView {
        sections: buffer.view_sections(agent_name),
        title,
        subtitle: Some(subtitle),
        body: live_turn_body(agent_name, buffer, delivery),
        status: if delivery == DeliveryClass::Draining { ViewStatus::Background } else { turn_view_status(&buffer.status) },
        actions: Vec::new(),
    }
}

} // verus!
