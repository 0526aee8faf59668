//! What a conversation is told about its attached session, and the checks a
//! session command passes before it reaches the agent. The runtime sends
//! the views and performs the commands.
use vstd::prelude::*;
use crate::domain::{ActionButton, OutboundView, SessionSummary, SessionTerminal, ViewSection, ViewStatus};
use crate::model::SessionId;
use crate::multiplexer::{display_workspace, workspace_label};
use crate::presentation::{session_display_label, session_status_label, session_title, status_text, title_of};
use crate::menu::{is_unsupported, names_view};
use crate::text::{append, chars_of, prefix_within, decimal, decimal_string, join, join_strings, markdown_quote, markdown_quote_of, opt_view, owned};

verus! {

/// `v` has exactly this title, subtitle, body and status, and no sections
/// or buttons.
pub open spec fn plain_view(
    v: OutboundView,
    title: Seq<char>,
    subtitle: Option<Seq<char>>,
    body: Seq<char>,
    status: ViewStatus,
) -> bool {
    &&& v.title@ == title
    &&& opt_view(v.subtitle) == subtitle
    &&& v.body@ == body
    &&& v.status == status
    &&& v.sections@.len() == 0
    &&& v.actions@.len() == 0
}

fn view_of(title: String, subtitle: Option<String>, body: String, status: ViewStatus) -> (v: OutboundView)
    ensures
        plain_view(v, title@, opt_view(subtitle), body@, status),
{
    let sections: Vec<ViewSection> = Vec::new();
    let actions: Vec<ActionButton> = Vec::new();
    OutboundView { sections, title, subtitle, body, status, actions }
}

fn joined(a: &str, b: &str) -> (r: String)
    ensures
        r@ == a@ + b@,
{
    let mut r = owned(a);
    append(&mut r, b);
    r
}

/// The first step of a session command, or why it stops.
#[derive(Debug)]
pub enum SessionCommandStep {
    /// Show this view and stop.
    Show(OutboundView),
    /// Show a plain text notice (title, body) and stop.
    Notice(String, String),
    /// Exit: detach the conversation from its session.
    Detach,
    /// The session takes no changes: show the read-only notice.
    ReadOnly,
    /// Ask for the session's new name with this text notice (title, body),
    /// and wait for the reply.
    AskName(String, String),
    /// Run the command.
    Run,
}

/// The checks of a session command, in order: a session must be attached;
/// exiting needs nothing more; the session must take changes and support
/// the command; a rename without a name asks for one; clearing or planning
/// waits for the active turn; the agent must offer session control.
/// `exit`, `asks_name` and `needs_idle` describe the command,
/// `session_name` is the session's display name and `session_label` its
/// label.
pub fn session_command_step(
    attached: bool,
    exit: bool,
    can_write: bool,
    supported: bool,
    asks_name: bool,
    needs_idle: bool,
    turn_active: bool,
    session_control: bool,
    agent_name: &str,
    session_name: &str,
    session_label: &str,
) -> (r: SessionCommandStep)
    ensures
        if !attached {
            r matches SessionCommandStep::Show(v) && plain_view(
                v,
                "Agentix · Session command"@,
                Some("Not attached"@),
                "Attach a session with `/sessions` before using this command."@,
                ViewStatus::Warning,
            )
        } else if exit {
            r is Detach
        } else if !can_write {
            r is ReadOnly
        } else if !supported {
            r matches SessionCommandStep::Notice(t, b) && t@ == "Command unavailable"@
                && b@ == "This command is not supported by the attached session."@
        } else if asks_name {
            r matches SessionCommandStep::AskName(t, b) && t@ == session_name@ + " · Rename"@
                && b@ == "Reply with the new session name. Use `/cancel` to stop."@
        } else if needs_idle && turn_active {
            r matches SessionCommandStep::Show(v) && plain_view(
                v,
                agent_name@ + " · Command unavailable"@,
                Some(session_label@),
                "Wait for the active turn to finish, or use `/stop` first."@,
                ViewStatus::Warning,
            )
        } else if !session_control {
            r matches SessionCommandStep::Show(v) && plain_view(
                v,
                "Agentix · Session command"@,
                Some("Unsupported"@),
                agent_name@ + " does not support attached-session commands."@,
                ViewStatus::Warning,
            )
        } else {
            r is Run
        },
{
    if !attached {
        return SessionCommandStep::Show(view_of(
            owned("Agentix · Session command"),
            Some(owned("Not attached")),
            owned("Attach a session with `/sessions` before using this command."),
            ViewStatus::Warning,
        ));
    }
    if exit {
        return SessionCommandStep::Detach;
    }
    if !can_write {
        return SessionCommandStep::ReadOnly;
    }
    if !supported {
        return SessionCommandStep::Notice(
            owned("Command unavailable"),
            owned("This command is not supported by the attached session."),
        );
    }
    if asks_name {
        return SessionCommandStep::AskName(
            joined(session_name, " · Rename"),
            owned("Reply with the new session name. Use `/cancel` to stop."),
        );
    }
    if needs_idle && turn_active {
        return SessionCommandStep::Show(view_of(
            joined(agent_name, " · Command unavailable"),
            Some(owned(session_label)),
            owned("Wait for the active turn to finish, or use `/stop` first."),
            ViewStatus::Warning,
        ));
    }
    if !session_control {
        return SessionCommandStep::Show(view_of(
            owned("Agentix · Session command"),
            Some(owned("Unsupported")),
            joined(agent_name, " does not support attached-session commands."),
            ViewStatus::Warning,
        ));
    }
    SessionCommandStep::Run
}

/// The answer of a command that ran: the agent's title and body under the
/// label of the session it left attached, running while a turn is active,
/// with the follow-up choices as buttons.
pub fn command_result_view(
    title: String,
    body: String,
    target_label: &str,
    turn_active: bool,
    actions: Vec<ActionButton>,
) -> (r: OutboundView)
    ensures
        r.title@ == title@,
        r.subtitle matches Some(s) && s@ == target_label@,
        r.body@ == body@,
        r.status == (if turn_active { ViewStatus::Running } else { ViewStatus::Info }),
        r.sections@.len() == 0,
        r.actions@ == actions@,
{
    let sections: Vec<ViewSection> = Vec::new();
    OutboundView {
        sections,
        title,
        subtitle: Some(owned(target_label)),
        body,
        status: if turn_active { ViewStatus::Running } else { ViewStatus::Info },
        actions,
    }
}

/// The answer of a command the agent refused: its error, under the
/// session's label.
pub fn command_failed_view(agent_name: &str, session_label: &str, error: &str) -> (r: OutboundView)
    ensures
        plain_view(r, agent_name@ + " · Command failed"@, Some(session_label@), error@, ViewStatus::Error),
{
    view_of(joined(agent_name, " · Command failed"), Some(owned(session_label)), owned(error), ViewStatus::Error)
}

/// The body of the read-only notice of session `name`: it is owned by
/// another process, or unavailable for changes.
pub open spec fn read_only_body(name: Seq<char>, owned_elsewhere: bool) -> Seq<char> {
    if owned_elsewhere {
        "This session is connected read-only because another "@ + name
            + " process owns it. Use /history to read its latest content, or the original "@ + name
            + " session to send messages and make changes."@
    } else {
        "The "@ + name + " session is currently unavailable for changes. Check the original "@ + name
            + " terminal and reconnect."@
    }
}

/// Why session `name` takes no changes.
pub fn read_only_notice(name: &str, owned_elsewhere: bool) -> (r: OutboundView)
    ensures
        plain_view(r, name@ + " · Read-only session"@, None, read_only_body(name@, owned_elsewhere), ViewStatus::Info),
{
    let mut body = if owned_elsewhere {
        owned("This session is connected read-only because another ")
    } else {
        owned("The ")
    };
    append(&mut body, name);
    if owned_elsewhere {
        append(&mut body, " process owns it. Use /history to read its latest content, or the original ");
        append(&mut body, name);
        append(&mut body, " session to send messages and make changes.");
    } else {
        append(&mut body, " session is currently unavailable for changes. Check the original ");
        append(&mut body, name);
        append(&mut body, " terminal and reconnect.");
    }
    view_of(joined(name, " · Read-only session"), None, body, ViewStatus::Info)
}

/// The attached session: its label, and its running turn if any.
pub fn current_session_view(agent_name: &str, session_label: &str, active_turn: Option<&str>) -> (r: OutboundView)
    ensures
        plain_view(
            r,
            agent_name@ + " · "@ + session_label@,
            match active_turn {
                Some(t) => Some("Turn "@ + t@ + " · running"@),
                None => None,
            },
            if active_turn is Some { "Session is active."@ } else { "Session is idle."@ },
            ViewStatus::Info,
        ),
{
    let mut title = joined(agent_name, " · ");
    append(&mut title, session_label);
    match active_turn {
        Some(t) => {
            let mut subtitle = joined("Turn ", t);
            append(&mut subtitle, " · running");
            view_of(title, Some(subtitle), owned("Session is active."), ViewStatus::Info)
        },
        None => view_of(title, None, owned("Session is idle."), ViewStatus::Info),
    }
}

/// A command of the help text: its name, how it is written, and what it does.
pub open spec fn help(name: &str, usage: &str, description: &str) -> (Seq<char>, Seq<char>, Seq<char>) {
    (name@, usage@, description@)
}

/// Commands that need no session.
pub open spec fn general_help() -> Seq<(Seq<char>, Seq<char>, Seq<char>)> {
    seq![
        help("help", "/help", "Show available commands and their purpose."),
        help("sessions", "/sessions [backend]", "List existing sessions, optionally filtered by backend."),
        help("rmux", "/rmux [backend]", "Browse terminal sessions and create or attach an agent session."),
        help("attach", "/attach <thread-id>", "Connect this conversation to an existing session."),
        help("cancel", "/cancel", "Cancel the pending command input."),
    ]
}

/// Commands on the attached session.
pub open spec fn attached_help() -> Seq<(Seq<char>, Seq<char>, Seq<char>)> {
    seq![
        help("current", "/current", "Show the session attached to this conversation."),
        help("history", "/history [recent|older|newer]", "Browse the attached session history."),
        help("detach", "/detach", "Disconnect this conversation from its session."),
    ]
}

/// Commands that change the attached session's turns.
pub open spec fn writing_help() -> Seq<(Seq<char>, Seq<char>, Seq<char>)> {
    seq![
        help("queue", "/queue [resume|clear]", "Show, resume, or clear queued prompts."),
        help("stop", "/stop", "Interrupt the active turn."),
        help("steer", "/steer <text>", "Steer the active turn with additional instructions."),
    ]
}

/// Commands the agent runs on the session itself.
pub open spec fn session_help() -> Seq<(Seq<char>, Seq<char>, Seq<char>)> {
    seq![
        help("fast", "/fast [on|off]", "Show or change fast mode for subsequent turns."),
        help("clear", "/clear [name]", "Start a fresh session, optionally with a name."),
        help("exit", "/exit", "End the IM connection to the current session."),
        help("diff", "/diff", "Show workspace changes."),
        help("rename", "/rename <name>", "Change the current session name."),
        help("compact", "/compact", "Compact the current session context."),
        help("fork", "/fork", "Create a new session from the current conversation."),
        help("model", "/model [id]", "Show available models or select a model."),
        help("reasoning", "/reasoning [effort]", "Show or change reasoning effort."),
        help("skills", "/skills", "List skills available to the agent."),
        help("plan", "/plan [prompt|off]", "Enter plan mode with an optional prompt, or leave plan mode."),
        help("goal", "/goal [objective|pause|resume|clear]", "Show, set, pause, resume, or clear the session goal."),
        help("review", "/review", "Start a review of workspace changes."),
        help("status", "/status", "Show session settings and usage."),
        help("mcp", "/mcp", "Show MCP server status."),
    ]
}

/// The commands listed for a conversation: the session's own commands only
/// when it is attached, takes changes and the agent offers session control.
pub open spec fn listed_help(attached: bool, writable: bool, session_control: bool) -> Seq<(Seq<char>, Seq<char>, Seq<char>)> {
    general_help() + if attached {
        attached_help() + if writable {
            writing_help() + if session_control { session_help() } else { Seq::empty() }
        } else {
            Seq::empty()
        }
    } else {
        Seq::empty()
    }
}

/// The help lines of `entries`, leaving out, while a session is attached,
/// those it does not support (`unsupported`; exiting stays).
pub open spec fn help_lines(
    entries: Seq<(Seq<char>, Seq<char>, Seq<char>)>,
    attached: bool,
    unsupported: Seq<Seq<char>>,
) -> Seq<Seq<char>>
    decreases entries.len(),
{
    if entries.len() == 0 {
        Seq::empty()
    } else {
        let rest = help_lines(entries.drop_last(), attached, unsupported);
        let e = entries.last();
        if attached && e.0 != "exit"@ && unsupported.contains(e.0) {
            rest
        } else {
            rest.push("**"@ + e.1 + "** — "@ + e.2)
        }
    }
}

/// The command list of the help: one line per available command, and a
/// note when the attached session takes no changes.
pub open spec fn available_commands_text(
    attached: bool,
    writable: bool,
    session_control: bool,
    unsupported: Seq<Seq<char>>,
) -> Seq<char> {
    let lines = help_lines(listed_help(attached, writable, session_control), attached, unsupported);
    join(
        if attached && !writable { lines.push("\nThis session is connected read-only."@) } else { lines },
        "\n"@,
    )
}

fn help_table(attached: bool, writable: bool, session_control: bool) -> (r: Vec<(&'static str, &'static str, &'static str)>)
    ensures
        r@.map_values(|e: (&str, &str, &str)| (e.0@, e.1@, e.2@)) == listed_help(attached, writable, session_control),
{
    let mut r: Vec<(&'static str, &'static str, &'static str)> = Vec::new();
    r.push(("help", "/help", "Show available commands and their purpose."));
    r.push(("sessions", "/sessions [backend]", "List existing sessions, optionally filtered by backend."));
    r.push(("rmux", "/rmux [backend]", "Browse terminal sessions and create or attach an agent session."));
    r.push(("attach", "/attach <thread-id>", "Connect this conversation to an existing session."));
    r.push(("cancel", "/cancel", "Cancel the pending command input."));
    assert(r@.map_values(|e: (&str, &str, &str)| (e.0@, e.1@, e.2@)) =~= general_help());
    if attached {
        r.push(("current", "/current", "Show the session attached to this conversation."));
        r.push(("history", "/history [recent|older|newer]", "Browse the attached session history."));
        r.push(("detach", "/detach", "Disconnect this conversation from its session."));
        assert(r@.map_values(|e: (&str, &str, &str)| (e.0@, e.1@, e.2@)) =~= general_help() + attached_help());
        if writable {
            r.push(("queue", "/queue [resume|clear]", "Show, resume, or clear queued prompts."));
            r.push(("stop", "/stop", "Interrupt the active turn."));
            r.push(("steer", "/steer <text>", "Steer the active turn with additional instructions."));
            assert(r@.map_values(|e: (&str, &str, &str)| (e.0@, e.1@, e.2@))
                =~= general_help() + (attached_help() + writing_help()));
            if session_control {
                r.push(("fast", "/fast [on|off]", "Show or change fast mode for subsequent turns."));
                r.push(("clear", "/clear [name]", "Start a fresh session, optionally with a name."));
                r.push(("exit", "/exit", "End the IM connection to the current session."));
                r.push(("diff", "/diff", "Show workspace changes."));
                r.push(("rename", "/rename <name>", "Change the current session name."));
                r.push(("compact", "/compact", "Compact the current session context."));
                r.push(("fork", "/fork", "Create a new session from the current conversation."));
                r.push(("model", "/model [id]", "Show available models or select a model."));
                r.push(("reasoning", "/reasoning [effort]", "Show or change reasoning effort."));
                r.push(("skills", "/skills", "List skills available to the agent."));
                r.push(("plan", "/plan [prompt|off]", "Enter plan mode with an optional prompt, or leave plan mode."));
                r.push(("goal", "/goal [objective|pause|resume|clear]", "Show, set, pause, resume, or clear the session goal."));
                r.push(("review", "/review", "Start a review of workspace changes."));
                r.push(("status", "/status", "Show session settings and usage."));
                r.push(("mcp", "/mcp", "Show MCP server status."));
                assert(r@.map_values(|e: (&str, &str, &str)| (e.0@, e.1@, e.2@))
                    =~= general_help() + (attached_help() + (writing_help() + session_help())));
            } else {
                assert(writing_help() + Seq::<(Seq<char>, Seq<char>, Seq<char>)>::empty() =~= writing_help());
            }
        } else {
            assert(attached_help() + Seq::<(Seq<char>, Seq<char>, Seq<char>)>::empty() =~= attached_help());
        }
    } else {
        assert(general_help() + Seq::<(Seq<char>, Seq<char>, Seq<char>)>::empty() =~= general_help());
    }
    r
}

/// The command list of the help for a conversation: `attached` when a
/// session is bound, `writable` when it takes changes, `session_control`
/// when the agent runs session commands, and `unsupported` the session
/// commands the bound session lacks.
pub fn available_commands(attached: bool, writable: bool, session_control: bool, unsupported: &Vec<String>) -> (r: String)
    ensures
        r@ == available_commands_text(attached, writable, session_control, names_view(unsupported@)),
{
    let table = help_table(attached, writable, session_control);
    let ghost entries = table@.map_values(|e: (&str, &str, &str)| (e.0@, e.1@, e.2@));
    let ghost u = names_view(unsupported@);
    let mut lines: Vec<String> = Vec::new();
    let mut i: usize = 0;
    while i < table.len()
        invariant
            i <= table.len(),
            entries == table@.map_values(|e: (&str, &str, &str)| (e.0@, e.1@, e.2@)),
            u == names_view(unsupported@),
            lines@.map_values(|s: String| s@) == help_lines(entries.take(i as int), attached, u),
        decreases table.len() - i,
    {
        let (name, usage, description) = table[i];
        proof {
            assert(entries.take(i + 1).drop_last() =~= entries.take(i as int));
            assert(entries.take(i + 1).last() == entries[i as int]);
            assert(entries[i as int] == (name@, usage@, description@));
        }
        let skip = attached && !crate::text::str_eq(name, "exit") && is_unsupported(unsupported, name);
        if !skip {
            let ghost before = lines@.map_values(|s: String| s@);
            let mut line = owned("**");
            append(&mut line, usage);
            append(&mut line, "** — ");
            append(&mut line, description);
            lines.push(line);
            assert(lines@.map_values(|s: String| s@) =~= before.push("**"@ + usage@ + "** — "@ + description@));
        }
        i = i + 1;
    }
    assert(entries.take(i as int) =~= entries);
    if attached && !writable {
        let ghost before = lines@.map_values(|s: String| s@);
        lines.push(owned("\nThis session is connected read-only."));
        assert(lines@.map_values(|s: String| s@) =~= before.push("\nThis session is connected read-only."@));
    }
    join_strings(&lines, "\n")
}

/// The help: the command list, and the task board commands when task
/// boards are available (those of the session only when one is attached).
pub fn help_body(commands: &str, has_tasks: bool, attached: bool) -> (r: String)
    ensures
        r@ == if has_tasks {
            commands@ + "\n**/dashboard** — Browse projects; click a project to open its board."@ + if attached {
                "\n**/board** — Current session's task board\n**/jobs** — Current session's jobs\n**/tasks [job-id]** — List tasks for the current session or a job.\n**/task <id>** — Read a task and its Markdown details.\n**/inboxes** — Current project's human queue\n**/inbox <content>** — Append a human requirement"@
            } else {
                Seq::empty()
            }
        } else {
            commands@
        },
{
    let mut body = owned(commands);
    if has_tasks {
        append(&mut body, "\n**/dashboard** — Browse projects; click a project to open its board.");
        if attached {
            append(&mut body, "\n**/board** — Current session's task board\n**/jobs** — Current session's jobs\n**/tasks [job-id]** — List tasks for the current session or a job.\n**/task <id>** — Read a task and its Markdown details.\n**/inboxes** — Current project's human queue\n**/inbox <content>** — Append a human requirement");
        } else {
            assert(body@ =~= body@ + Seq::<char>::empty());
        }
    }
    body
}

/// The answer to a command that did not parse: the error, then the
/// available commands.
pub fn invalid_command_view(error: &str, commands: &str) -> (r: OutboundView)
    ensures
        plain_view(
            r,
            "Invalid command"@,
            None,
            "**Error:** "@ + error@ + "\n\n**Available commands**\n\n"@ + commands@,
            ViewStatus::Warning,
        ),
{
    let mut body = joined("**Error:** ", error);
    append(&mut body, "\n\n**Available commands**\n\n");
    append(&mut body, commands);
    view_of(owned("Invalid command"), None, body, ViewStatus::Warning)
}

/// The terminal pane a listed session runs in.
pub open spec fn terminal_line(t: SessionTerminal) -> Seq<char> {
    "\n🖥️ **rmux** · `"@ + t.session@ + "` · `"@ + decimal(t.window_index as nat) + "` (`"@ + t.window_name@
        + "`) · `"@ + decimal(t.pane_index as nat) + "`"@
}

/// The entry of the `n`th listed session: title, attachment, status,
/// workspace and terminal pane.
pub open spec fn session_item(s: SessionSummary, n: nat, is_current: bool, home: Option<Seq<char>>) -> Seq<char> {
    "**"@ + decimal(n) + " · "@ + title_of(opt_view(s.name), opt_view(s.preview)) + "**"@
        + (if is_current { " · 📎 **Attached**"@ } else { Seq::empty() })
        + "\n"@ + status_text(s.status).0 + " **Status:** "@ + status_text(s.status).1
        + "\n📁 **Workspace:** `"@ + workspace_label(opt_view(s.cwd), home) + "`"@
        + match s.terminal {
            Some(t) => terminal_line(t),
            None => Seq::empty(),
        }
}

/// The listed sessions as quoted entries, a blank line apart; `current` is
/// the attached session.
pub open spec fn sessions_body(sessions: Seq<SessionSummary>, current: Option<Seq<char>>, home: Option<Seq<char>>) -> Seq<char>
    decreases sessions.len(),
{
    if sessions.len() == 0 {
        Seq::empty()
    } else {
        let before = sessions_body(sessions.drop_last(), current, home);
        let s = sessions.last();
        (if before.len() > 0 { before + "\n\n"@ } else { before })
            + markdown_quote_of(session_item(s, sessions.len() as nat, current == Some(s.id@), home))
    }
}

/// The sessions that can be attached, with their button labels: all but
/// the attached one.
pub open spec fn attach_choices(sessions: Seq<SessionSummary>, current: Option<Seq<char>>) -> Seq<(Seq<char>, Seq<char>)>
    decreases sessions.len(),
{
    if sessions.len() == 0 {
        Seq::empty()
    } else {
        let before = attach_choices(sessions.drop_last(), current);
        let s = sessions.last();
        if current == Some(s.id@) {
            before
        } else {
            before.push((decimal(sessions.len() as nat) + " · "@ + title_of(opt_view(s.name), opt_view(s.preview)), s.id@))
        }
    }
}

fn session_entry(session: &SessionSummary, n: u64, is_current: bool, home: Option<&str>) -> (r: String)
    ensures
        r@ == session_item(*session, n as nat, is_current, match home {
            Some(h) => Some(h@),
            None => None,
        }),
{
    let title = session_title(session);
    let number = decimal_string(n);
    let mut item = owned("**");
    append(&mut item, number.as_str());
    append(&mut item, " · ");
    append(&mut item, title.as_str());
    append(&mut item, "**");
    if is_current {
        append(&mut item, " · 📎 **Attached**");
    }
    let (icon, label) = session_status_label(&session.status);
    append(&mut item, "\n");
    append(&mut item, icon);
    append(&mut item, " **Status:** ");
    append(&mut item, label);
    append(&mut item, "\n📁 **Workspace:** `");
    let workspace = match &session.cwd {
        Some(w) => display_workspace(Some(w.as_str()), home),
        None => display_workspace(None, home),
    };
    append(&mut item, workspace.as_str());
    append(&mut item, "`");
    let ghost head = item@;
    match &session.terminal {
        Some(t) => {
            append(&mut item, "\n🖥️ **rmux** · `");
            append(&mut item, t.session.as_str());
            append(&mut item, "` · `");
            append(&mut item, decimal_string(t.window_index).as_str());
            append(&mut item, "` (`");
            append(&mut item, t.window_name.as_str());
            append(&mut item, "`) · `");
            append(&mut item, decimal_string(t.pane_index).as_str());
            append(&mut item, "`");
            assert(item@ =~= head + terminal_line(*t));
        },
        None => {
            assert(item@ =~= head + Seq::<char>::empty());
        },
    }
    item
}

/// The list of existing sessions: its body, and an Attach choice (label and
/// session) for each session but the attached one. `home` is the home
/// directory that workspaces are shown below.
pub fn session_list(sessions: &Vec<SessionSummary>, current: Option<&SessionId>, home: Option<&str>) -> (r: (String, Vec<(String, SessionId)>))
    requires
        sessions.len() < u64::MAX,
    ensures
        r.0@ == sessions_body(sessions@, match current { Some(c) => Some(c@), None => None }, match home {
            Some(h) => Some(h@),
            None => None,
        }),
        r.1@.map_values(|c: (String, SessionId)| (c.0@, c.1@)) == attach_choices(sessions@, match current {
            Some(c) => Some(c@),
            None => None,
        }),
{
    let ghost cur = match current { Some(c) => Some(c@), None => None::<Seq<char>> };
    let ghost hv = match home { Some(h) => Some(h@), None => None::<Seq<char>> };
    let mut body = String::new();
    let mut empty = true;
    let mut choices: Vec<(String, SessionId)> = Vec::new();
    let mut i: usize = 0;
    while i < sessions.len()
        invariant
            i <= sessions.len(),
            empty == (body@.len() == 0),
            sessions.len() < u64::MAX,
            cur == match current { Some(c) => Some(c@), None => None::<Seq<char>> },
            hv == match home { Some(h) => Some(h@), None => None::<Seq<char>> },
            body@ == sessions_body(sessions@.take(i as int), cur, hv),
            choices@.map_values(|c: (String, SessionId)| (c.0@, c.1@)) == attach_choices(sessions@.take(i as int), cur),
        decreases sessions.len() - i,
    {
        let session = &sessions[i];
        proof {
            assert(sessions@.take(i + 1).drop_last() =~= sessions@.take(i as int));
            assert(sessions@.take(i + 1).last() == sessions@[i as int]);
        }
        let is_current = match current {
            Some(c) => c.same(&session.id),
            None => false,
        };
        let title = session_title(session);
        let item = session_entry(session, (i + 1) as u64, is_current, home);
        proof {
            let s = sessions@[i as int];
            assert(is_current == (cur == Some(s.id@)));
        }
        let ghost before = body@;
        if !empty {
            append(&mut body, "\n\n");
        }
        let quoted = markdown_quote(item.as_str());
        append(&mut body, quoted.as_str());
        empty = empty && chars_of(quoted.as_str()).len() == 0;
        proof {
            assert(body@ =~= sessions_body(sessions@.take(i + 1), cur, hv));
        }
        if !is_current {
            let ghost cb = choices@.map_values(|c: (String, SessionId)| (c.0@, c.1@));
            let mut choice = decimal_string((i + 1) as u64);
            append(&mut choice, " · ");
            append(&mut choice, title.as_str());
            choices.push((choice, session.id.duplicate()));
            assert(choices@.map_values(|c: (String, SessionId)| (c.0@, c.1@)) =~= cb.push(
                (decimal((i + 1) as nat) + " · "@ + title_of(opt_view(session.name), opt_view(session.preview)), session.id@),
            ));
        }
        i = i + 1;
    }
    assert(sessions@.take(i as int) =~= sessions@);
    (body, choices)
}

/// The view listing `agent`'s existing sessions, with the Attach buttons.
pub fn sessions_view(agent_name: &str, body: String, actions: Vec<ActionButton>) -> (r: OutboundView)
    ensures
        r.title@ == "Existing "@ + agent_name@ + " sessions"@,
        r.subtitle is None,
        r.body@ == body@,
        r.status == ViewStatus::Info,
        r.sections@.len() == 0,
        r.actions@ == actions@,
{
    let mut title = joined("Existing ", agent_name);
    append(&mut title, " sessions");
    let sections: Vec<ViewSection> = Vec::new();
    OutboundView { sections, title, subtitle: None, body, status: ViewStatus::Info, actions }
}

/// How a prompt reaches the attached session.
#[derive(Debug, Clone, Copy, PartialEq, Eq, Structural)]
pub enum PromptRoute {
    /// The session takes no changes: show the read-only notice.
    ReadOnly,
    /// A turn runs and the agent keeps a queue: queue the prompt.
    Queue,
    /// A turn runs: steer it with the prompt.
    Steer,
    /// The session is idle: start a turn.
    Start,
}

/// The route of a prompt: `turn_active` when the session runs a turn and
/// `queueing` when the session supports queueing and the agent offers a
/// queue.
pub fn prompt_route(can_write: bool, turn_active: bool, queueing: bool) -> (r: PromptRoute)
    ensures
        r == (if !can_write {
            PromptRoute::ReadOnly
        } else if !turn_active {
            PromptRoute::Start
        } else if queueing {
            PromptRoute::Queue
        } else {
            PromptRoute::Steer
        }),
{
    if !can_write {
        PromptRoute::ReadOnly
    } else if !turn_active {
        PromptRoute::Start
    } else if queueing {
        PromptRoute::Queue
    } else {
        PromptRoute::Steer
    }
}

/// How a session is named in titles: the label of its known summary, else
/// `Untitled` and its short id.
pub fn session_label(summary: Option<&SessionSummary>, session: &SessionId) -> (r: String)
    ensures
        r@ == match summary {
            Some(s) => title_of(opt_view(s.name), opt_view(s.preview)) + " · "@ + prefix_within(s.id@, 8),
            None => "Untitled · "@ + prefix_within(session@, 8),
        },
{
    match summary {
        Some(s) => session_display_label(s),
        None => joined("Untitled · ", session.short().as_str()),
    }
}

/// The confirmation of a queued prompt: its place in the queue when known,
/// and the prompt quoted.
pub fn queued_view(agent_name: &str, position: Option<u64>, prompt: &str) -> (r: OutboundView)
    ensures
        plain_view(
            r,
            agent_name@ + " · Queued"@,
            match position {
                Some(p) => Some("Position #"@ + decimal(p as nat)),
                None => None,
            },
            "**👤 You**\n\n"@ + markdown_quote_of(prompt@),
            ViewStatus::Info,
        ),
{
    let subtitle = match position {
        Some(p) => Some(joined("Position #", decimal_string(p).as_str())),
        None => None,
    };
    let body = joined("**👤 You**\n\n", markdown_quote(prompt).as_str());
    view_of(joined(agent_name, " · Queued"), subtitle, body, ViewStatus::Info)
}

/// The queued prompts, numbered and quoted a blank line apart.
pub open spec fn queued_entries(prompts: Seq<Seq<char>>) -> Seq<Seq<char>>
    decreases prompts.len(),
{
    if prompts.len() == 0 {
        Seq::empty()
    } else {
        queued_entries(prompts.drop_last()).push(
            markdown_quote_of("**"@ + decimal(prompts.len() as nat) + "**\n"@ + prompts.last()),
        )
    }
}

/// The body of the queue view: the queue's status when the agent reports
/// one, then the prompts (or that the queue is empty).
pub open spec fn queue_body_of(prompts: Seq<Seq<char>>, status: Option<Seq<char>>) -> Seq<char> {
    let list = if prompts.len() == 0 { "The queue is empty."@ } else { join(queued_entries(prompts), "\n\n"@) };
    match status {
        Some(s) => s + "\n\n"@ + list,
        None => list,
    }
}

pub fn queue_body(prompts: &Vec<String>, status: Option<&str>) -> (r: String)
    requires
        prompts.len() < u64::MAX,
    ensures
        r@ == queue_body_of(names_view(prompts@), match status {
            Some(s) => Some(s@),
            None => None,
        }),
{
    let ghost texts = names_view(prompts@);
    let mut entries: Vec<String> = Vec::new();
    let mut i: usize = 0;
    while i < prompts.len()
        invariant
            i <= prompts.len(),
            prompts.len() < u64::MAX,
            texts == names_view(prompts@),
            entries@.map_values(|e: String| e@) == queued_entries(texts.take(i as int)),
        decreases prompts.len() - i,
    {
        proof {
            assert(texts.take(i + 1).drop_last() =~= texts.take(i as int));
            assert(texts.take(i + 1).last() == prompts@[i as int]@);
        }
        let ghost before = entries@.map_values(|e: String| e@);
        let mut entry = joined("**", decimal_string((i + 1) as u64).as_str());
        append(&mut entry, "**\n");
        append(&mut entry, prompts[i].as_str());
        entries.push(markdown_quote(entry.as_str()));
        assert(entries@.map_values(|e: String| e@) =~= before.push(
            markdown_quote_of("**"@ + decimal((i + 1) as nat) + "**\n"@ + prompts@[i as int]@),
        ));
        i = i + 1;
    }
    assert(texts.take(i as int) =~= texts);
    let list = if prompts.len() == 0 { owned("The queue is empty.") } else { join_strings(&entries, "\n\n") };
    match status {
        Some(s) => {
            let mut body = joined(s, "\n\n");
            append(&mut body, list.as_str());
            body
        },
        None => list,
    }
}

/// The queue view of the attached session: `count` messages, with the
/// queue controls when offered.
pub fn queue_view(agent_name: &str, session_label: &str, count: u64, body: String, actions: Vec<ActionButton>) -> (r: OutboundView)
    ensures
        r.title@ == agent_name@ + " · "@ + session_label@,
        r.subtitle matches Some(s) && s@ == "Queue · "@ + decimal(count as nat) + if count == 1 { " message"@ } else { " messages"@ },
        r.body@ == body@,
        r.status == ViewStatus::Info,
        r.sections@.len() == 0,
        r.actions@ == actions@,
{
    let mut title = joined(agent_name, " · ");
    append(&mut title, session_label);
    let mut subtitle = joined("Queue · ", decimal_string(count).as_str());
    append(&mut subtitle, if count == 1 { " message" } else { " messages" });
    let sections: Vec<ViewSection> = Vec::new();
    OutboundView { sections, title, subtitle: Some(subtitle), body, status: ViewStatus::Info, actions }
}

/// The answer when attaching failed: the error and a way out, with a retry
/// button.
pub fn attach_failed_view(agent_name: &str, session: &SessionId, error: &str, retry: ActionButton) -> (r: OutboundView)
    ensures
        r.title@ == agent_name@ + " · Attach failed"@,
        r.subtitle matches Some(s) && s@ == session@,
        r.body@ == error@ + "\n\nRetry below or use /sessions to choose another session."@,
        r.status == ViewStatus::Error,
        r.sections@.len() == 0,
        r.actions@ == seq![retry],
{
    let body = joined(error, "\n\nRetry below or use /sessions to choose another session.");
    let sections: Vec<ViewSection> = Vec::new();
    let mut actions: Vec<ActionButton> = Vec::new();
    actions.push(retry);
    assert(actions@ =~= seq![retry]);
    OutboundView {
        sections,
        title: joined(agent_name, " · Attach failed"),
        subtitle: Some(owned(session.as_str())),
        body,
        status: ViewStatus::Error,
        actions,
    }
}

/// The plain notice (title, body) after detaching from `session_label`.
pub fn detached_notice(session_label: &str) -> (r: (String, String))
    ensures
        r.0@ == "Agentix"@,
        r.1@ == "Detached from "@ + session_label@ + "."@,
{
    let mut body = joined("Detached from ", session_label);
    append(&mut body, ".");
    (owned("Agentix"), body)
}

/// The plain notice (title, body) when the session asked for is already
/// attached.
pub fn already_attached_notice(agent_name: &str, session_label: &str) -> (r: (String, String))
    ensures
        r.0@ == agent_name@ + " · "@ + session_label@,
        r.1@ == "This session is already attached."@,
{
    let mut title = joined(agent_name, " · ");
    append(&mut title, session_label);
    (title, owned("This session is already attached."))
}

} // verus!
