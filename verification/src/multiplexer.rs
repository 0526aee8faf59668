//! Terminal workspace listings.
use vstd::prelude::*;
use crate::domain::{MultiplexerPane, MultiplexerSession, MultiplexerSnapshot, MultiplexerWindow};
use crate::model::SessionId;
use crate::text::{
    append, decimal, decimal_string, join, join_strings, markdown_quote, markdown_quote_of, opt_view, owned,
    split_at_char, split_char, str_eq,
};

verus! {

pub open spec fn pane_runs(pane: MultiplexerPane, current: Option<&SessionId>) -> bool {
    match (pane.agent_session, current) {
        (Some(s), Some(c)) => s@ == c@,
        _ => false,
    }
}

pub open spec fn window_has(window: MultiplexerWindow, current: Option<&SessionId>) -> bool {
    exists|i: int| 0 <= i < window.panes@.len() && pane_runs(#[trigger] window.panes@[i], current)
}

pub open spec fn session_has(session: MultiplexerSession, current: Option<&SessionId>) -> bool {
    exists|i: int| 0 <= i < session.windows@.len() && window_has(#[trigger] session.windows@[i], current)
}

/// Whether a pane of the window runs the current session.
pub fn multiplexer_window_contains(window: &MultiplexerWindow, current: Option<&SessionId>) -> (r: bool)
    ensures
        r == window_has(*window, current),
{
    let mut i: usize = 0;
    while i < window.panes.len()
        invariant
            i <= window.panes.len(),
            forall|j: int| 0 <= j < i ==> !pane_runs(#[trigger] window.panes@[j], current),
        decreases window.panes.len() - i,
    {
        let runs = match (&window.panes[i].agent_session, current) {
            (Some(s), Some(c)) => s.same(c),
            _ => false,
        };
        if runs {
            assert(pane_runs(window.panes@[i as int], current));
            return true;
        }
        i = i + 1;
    }
    false
}

/// Whether a window of the terminal session runs the current agent session.
pub fn multiplexer_session_contains(session: &MultiplexerSession, current: Option<&SessionId>) -> (r: bool)
    ensures
        r == session_has(*session, current),
{
    let mut i: usize = 0;
    while i < session.windows.len()
        invariant
            i <= session.windows.len(),
            forall|j: int| 0 <= j < i ==> !window_has(#[trigger] session.windows@[j], current),
        decreases session.windows.len() - i,
    {
        if multiplexer_window_contains(&session.windows[i], current) {
            return true;
        }
        i = i + 1;
    }
    false
}

pub open spec fn plural_of(count: nat, singular: Seq<char>, many: Seq<char>) -> Seq<char> {
    if count == 1 { singular } else { many }
}

pub open spec fn attached_mark(attached: bool) -> Seq<char> {
    if attached { " · 📎 **Attached**"@ } else { Seq::empty() }
}

pub open spec fn window_block(w: MultiplexerWindow, current: Option<&SessionId>) -> Seq<char> {
    markdown_quote_of(
        "**"@ + decimal(w.index as nat) + " · "@ + w.name@ + "**"@ + attached_mark(window_has(w, current)) + "\n"@
            + decimal(w.panes@.len()) + " "@ + plural_of(w.panes@.len(), "pane"@, "panes"@),
    )
}

/// One quoted block per window of a terminal session.
pub fn multiplexer_session_body(session: &MultiplexerSession, current: Option<&SessionId>) -> (r: String)
    ensures
        r@ == join(session.windows@.map_values(|w: MultiplexerWindow| window_block(w, current)), "\n\n"@),
{
    let mut blocks: Vec<String> = Vec::new();
    let mut i: usize = 0;
    while i < session.windows.len()
        invariant
            i <= session.windows.len(),
            blocks@.map_values(|s: String| s@) == session.windows@.take(i as int).map_values(
                |w: MultiplexerWindow| window_block(w, current),
            ),
        decreases session.windows.len() - i,
    {
        let w = &session.windows[i];
        let mut text = owned("**");
        append(&mut text, decimal_string(w.index).as_str());
        append(&mut text, " · ");
        append(&mut text, w.name.as_str());
        append(&mut text, "**");
        if multiplexer_window_contains(w, current) {
            append(&mut text, " · 📎 **Attached**");
        }
        append(&mut text, "\n");
        append(&mut text, decimal_string(w.panes.len() as u64).as_str());
        append(&mut text, " ");
        append(&mut text, if w.panes.len() == 1 { "pane" } else { "panes" });
        let block = markdown_quote(text.as_str());
        let ghost before = blocks@.map_values(|s: String| s@);
        assert(block@ == window_block(session.windows@[i as int], current));
        blocks.push(block);
        assert(blocks@.map_values(|s: String| s@) =~= before.push(block@));
        assert(session.windows@.take(i + 1).map_values(|w: MultiplexerWindow| window_block(w, current))
            =~= session.windows@.take(i as int).map_values(|w: MultiplexerWindow| window_block(w, current)).push(block@));
        i = i + 1;
    }
    assert(session.windows@.take(i as int) =~= session.windows@);
    join_strings(&blocks, "\n\n")
}

/// Panes across all windows of a terminal session.
pub open spec fn pane_total(windows: Seq<MultiplexerWindow>) -> nat
    decreases windows.len(),
{
    if windows.len() == 0 { 0 } else { pane_total(windows.drop_last()) + windows.last().panes@.len() }
}

pub open spec fn snapshot_windows(sessions: Seq<MultiplexerSession>) -> nat
    decreases sessions.len(),
{
    if sessions.len() == 0 { 0 } else { snapshot_windows(sessions.drop_last()) + sessions.last().windows@.len() }
}

pub open spec fn snapshot_panes(sessions: Seq<MultiplexerSession>) -> nat
    decreases sessions.len(),
{
    if sessions.len() == 0 { 0 } else { snapshot_panes(sessions.drop_last()) + pane_total(sessions.last().windows@) }
}

pub open spec fn session_block(s: MultiplexerSession, current: Option<&SessionId>) -> Seq<char> {
    let panes = pane_total(s.windows@);
    markdown_quote_of(
        "**"@ + s.name@ + "**"@ + attached_mark(session_has(s, current)) + "\n"@ + decimal(s.windows@.len()) + " "@
            + plural_of(s.windows@.len(), "window"@, "windows"@) + " · "@ + decimal(panes) + " "@
            + plural_of(panes, "pane"@, "panes"@),
    )
}

proof fn lemma_pane_total_mono(windows: Seq<MultiplexerWindow>, n: int)
    requires
        0 <= n <= windows.len(),
    ensures
        pane_total(windows.take(n)) <= pane_total(windows),
    decreases windows.len() - n,
{
    if n < windows.len() {
        lemma_pane_total_mono(windows, n + 1);
        assert(windows.take(n + 1).drop_last() =~= windows.take(n));
    } else {
        assert(windows.take(n) =~= windows);
    }
}

fn count_panes(session: &MultiplexerSession) -> (r: usize)
    requires
        pane_total(session.windows@) <= usize::MAX,
    ensures
        r == pane_total(session.windows@),
{
    let mut total: usize = 0;
    let mut i: usize = 0;
    while i < session.windows.len()
        invariant
            i <= session.windows.len(),
            pane_total(session.windows@) <= usize::MAX,
            total == pane_total(session.windows@.take(i as int)),
        decreases session.windows.len() - i,
    {
        assert(session.windows@.take(i + 1).drop_last() =~= session.windows@.take(i as int));
        proof { lemma_pane_total_mono(session.windows@, i + 1); }
        total = total + session.windows[i].panes.len();
        i = i + 1;
    }
    assert(session.windows@.take(i as int) =~= session.windows@);
    total
}

proof fn lemma_snapshot_mono(sessions: Seq<MultiplexerSession>, n: int)
    requires
        0 <= n <= sessions.len(),
    ensures
        snapshot_windows(sessions.take(n)) <= snapshot_windows(sessions),
        snapshot_panes(sessions.take(n)) <= snapshot_panes(sessions),
        forall|k: int| 0 <= k < n ==> pane_total((#[trigger] sessions[k]).windows@) <= snapshot_panes(sessions),
    decreases sessions.len() - n,
{
    if n < sessions.len() {
        lemma_snapshot_mono(sessions, n + 1);
        assert(sessions.take(n + 1).drop_last() =~= sessions.take(n));
    } else {
        assert(sessions.take(n) =~= sessions);
        lemma_snapshot_parts(sessions);
    }
}

proof fn lemma_snapshot_parts(sessions: Seq<MultiplexerSession>)
    ensures
        forall|k: int| 0 <= k < sessions.len() ==> pane_total((#[trigger] sessions[k]).windows@) <= snapshot_panes(sessions),
    decreases sessions.len(),
{
    if sessions.len() > 0 {
        lemma_snapshot_parts(sessions.drop_last());
        assert forall|k: int| 0 <= k < sessions.len() implies pane_total((#[trigger] sessions[k]).windows@) <= snapshot_panes(sessions) by {
            if k < sessions.len() - 1 {
                assert(sessions[k] == sessions.drop_last()[k]);
            }
        }
    }
}

/// Overview of all terminal sessions, with the numbers of windows and panes.
pub fn multiplexer_root_body(snapshot: &MultiplexerSnapshot, current: Option<&SessionId>) -> (r: (String, usize, usize))
    requires
        snapshot_windows(snapshot.sessions@) <= usize::MAX,
        snapshot_panes(snapshot.sessions@) <= usize::MAX,
    ensures
        r.0@ == join(snapshot.sessions@.map_values(|s: MultiplexerSession| session_block(s, current)), "\n\n"@),
        r.1 == snapshot_windows(snapshot.sessions@),
        r.2 == snapshot_panes(snapshot.sessions@),
{
    let ghost all = snapshot.sessions@;
    let mut windows: usize = 0;
    let mut panes: usize = 0;
    let mut blocks: Vec<String> = Vec::new();
    let mut i: usize = 0;
    proof { lemma_snapshot_parts(all); }
    while i < snapshot.sessions.len()
        invariant
            i <= snapshot.sessions.len(),
            all == snapshot.sessions@,
            snapshot_windows(all) <= usize::MAX,
            snapshot_panes(all) <= usize::MAX,
            forall|k: int| 0 <= k < all.len() ==> pane_total((#[trigger] all[k]).windows@) <= snapshot_panes(all),
            windows == snapshot_windows(all.take(i as int)),
            panes == snapshot_panes(all.take(i as int)),
            blocks@.map_values(|s: String| s@) == all.take(i as int).map_values(|s: MultiplexerSession| session_block(s, current)),
        decreases snapshot.sessions.len() - i,
    {
        let s = &snapshot.sessions[i];
        assert(all.take(i + 1).drop_last() =~= all.take(i as int));
        proof { lemma_snapshot_mono(all, i + 1); }
        let session_panes = count_panes(s);
        windows = windows + s.windows.len();
        panes = panes + session_panes;
        let mut text = owned("**");
        append(&mut text, s.name.as_str());
        append(&mut text, "**");
        if multiplexer_session_contains(s, current) {
            append(&mut text, " · 📎 **Attached**");
        }
        append(&mut text, "\n");
        append(&mut text, decimal_string(s.windows.len() as u64).as_str());
        append(&mut text, " ");
        append(&mut text, if s.windows.len() == 1 { "window" } else { "windows" });
        append(&mut text, " · ");
        append(&mut text, decimal_string(session_panes as u64).as_str());
        append(&mut text, " ");
        append(&mut text, if session_panes == 1 { "pane" } else { "panes" });
        let block = markdown_quote(text.as_str());
        let ghost before = blocks@.map_values(|x: String| x@);
        assert(block@ == session_block(all[i as int], current));
        blocks.push(block);
        assert(blocks@.map_values(|x: String| x@) =~= before.push(block@));
        assert(all.take(i + 1).map_values(|s: MultiplexerSession| session_block(s, current))
            =~= all.take(i as int).map_values(|s: MultiplexerSession| session_block(s, current)).push(block@));
        i = i + 1;
    }
    assert(all.take(i as int) =~= all);
    (join_strings(&blocks, "\n\n"), windows, panes)
}

/// The path components that name something (no empty or `.` parts).
pub open spec fn named_parts(segments: Seq<Seq<char>>) -> Seq<Seq<char>>
    decreases segments.len(),
{
    if segments.len() == 0 {
        Seq::empty()
    } else {
        let rest = named_parts(segments.drop_last());
        let last = segments.last();
        if last.len() == 0 || last == "."@ { rest } else { rest.push(last) }
    }
}

/// `Path::file_name`: the last component, unless the path ends in `..` or has none.
pub open spec fn file_name_of(path: Seq<char>) -> Option<Seq<char>> {
    let parts = named_parts(split_at_char(path, '/'));
    if parts.len() == 0 || parts.last() == ".."@ { None } else { Some(parts.last()) }
}

pub open spec fn shell_name(name: Seq<char>) -> bool {
    name == "bash"@ || name == "dash"@ || name == "elvish"@ || name == "fish"@ || name == "ksh"@
        || name == "nu"@ || name == "sh"@ || name == "tcsh"@ || name == "zsh"@
}

/// Whether a pane's command is an interactive shell (so the pane is idle).
pub fn is_shell_command(command: &str) -> (r: bool)
    ensures
        r == match file_name_of(command@) {
            Some(n) => shell_name(n),
            None => false,
        },
{
    let segments = split_char(command, '/');
    let ghost sv = segments@.map_values(|x: String| x@);
    let mut last: Option<usize> = None;
    let mut i: usize = 0;
    while i < segments.len()
        invariant
            i <= segments.len(),
            sv == segments@.map_values(|x: String| x@),
            match last {
                Some(k) => k < i && named_parts(sv.take(i as int)).len() > 0 && named_parts(sv.take(i as int)).last() == sv[k as int],
                None => named_parts(sv.take(i as int)).len() == 0,
            },
        decreases segments.len() - i,
    {
        assert(sv.take(i + 1).drop_last() =~= sv.take(i as int));
        assert(sv[i as int] == segments@[i as int]@);
        let s = segments[i].as_str();
        if !(s.is_empty() || str_eq(s, ".")) {
            last = Some(i);
        }
        i = i + 1;
    }
    assert(sv.take(i as int) =~= sv);
    match last {
        None => false,
        Some(k) => {
            let name = segments[k].as_str();
            if str_eq(name, "..") {
                false
            } else {
                str_eq(name, "bash") || str_eq(name, "dash") || str_eq(name, "elvish") || str_eq(name, "fish")
                    || str_eq(name, "ksh") || str_eq(name, "nu") || str_eq(name, "sh") || str_eq(name, "tcsh")
                    || str_eq(name, "zsh")
            }
        },
    }
}

/// What `Path::strip_prefix` leaves of `path` below `base` (as displayed), when
/// `base` is a prefix of it by whole components. Paths are read with the Unix
/// path syntax the bridge runs under; component rules are std's and not
/// spelled out here.
pub uninterp spec fn path_below(path: Seq<char>, base: Seq<char>) -> Option<Seq<char>>;

/// `Path::strip_prefix`, the rest displayed as text: the path that, joined
/// onto `base`, yields `path`; nothing when `base` is not a prefix of `path`
/// by whole components.
#[verifier::external_body]
fn strip_path_prefix(path: &str, base: &str) -> (r: Option<String>)
    ensures
        opt_view(r) == path_below(path@, base@),
{
    std::path::Path::new(path).strip_prefix(std::path::Path::new(base)).ok().map(|rest| rest.display().to_string())
}

/// A workspace shown relative to the home directory, given what of it lies
/// below home (`None` when it is not below home).
pub open spec fn home_relative(workspace: Seq<char>, below_home: Option<Seq<char>>) -> Seq<char> {
    match below_home {
        Some(rest) => if rest.len() == 0 { "~"@ } else { "~/"@ + rest },
        None => workspace,
    }
}

/// A workspace as displayed: below the home directory as `~/...`.
pub open spec fn workspace_label(workspace: Option<Seq<char>>, home: Option<Seq<char>>) -> Seq<char> {
    match workspace {
        None => "unknown workspace"@,
        Some(w) => match home {
            Some(h) => if h.len() == 0 {
                w
            } else {
                home_relative(w, path_below(w, h))
            },
            None => w,
        },
    }
}

/// `workspace` as displayed given what of it lies below the home directory:
/// the home directory itself as `~`, a path below it as `~/rest`, any other
/// path unchanged.
pub fn home_relative_label(workspace: &str, below_home: Option<&str>) -> (r: String)
    ensures
        r@ == home_relative(workspace@, match below_home {
            Some(b) => Some(b@),
            None => None,
        }),
{
    match below_home {
        Some(rest) => if rest.is_empty() {
            owned("~")
        } else {
            let mut r = owned("~/");
            append(&mut r, rest);
            r
        },
        None => owned(workspace),
    }
}

/// A workspace path as displayed, given the home directory (`HOME`).
pub fn display_workspace(workspace: Option<&str>, home: Option<&str>) -> (r: String)
    ensures
        r@ == workspace_label(
            match workspace {
                Some(w) => Some(w@),
                None => None,
            },
            match home {
                Some(h) => Some(h@),
                None => None,
            },
        ),
{
    let workspace = match workspace {
        Some(w) => w,
        None => return owned("unknown workspace"),
    };
    let home = match home {
        Some(h) => if h.is_empty() { return owned(workspace) } else { h },
        None => return owned(workspace),
    };
    let below = strip_path_prefix(workspace, home);
    home_relative_label(workspace, match &below {
        Some(rest) => Some(rest.as_str()),
        None => None,
    })
}

/// How a pane is described: attached here, running an agent session (by the
/// agent's name when the session id names one, else the backend's), an idle
/// shell, or busy.
pub open spec fn pane_state(pane: MultiplexerPane, current: Option<&SessionId>, backend_name: Seq<char>, session_agent: Option<Seq<char>>) -> Seq<char> {
    if pane_runs(pane, current) {
        "📎 Attached"@
    } else if pane.agent_session is Some {
        match session_agent {
            Some(name) => name,
            None => backend_name,
        }
    } else if match file_name_of(pane.current_command@) { Some(n) => shell_name(n), None => false } {
        "Idle shell"@
    } else {
        "Busy"@
    }
}

pub open spec fn pane_block(pane: MultiplexerPane, current: Option<&SessionId>, backend_name: Seq<char>, session_agent: Option<Seq<char>>, home: Option<Seq<char>>) -> Seq<char> {
    markdown_quote_of(
        "**"@ + decimal(pane.index as nat) + " · "@ + pane.current_command@ + "**"@
            + (if pane.active { " · Active"@ } else { Seq::empty() }) + " · "@
            + pane_state(pane, current, backend_name, session_agent) + "\n📁 `"@
            + workspace_label(Some(pane.cwd@), home) + "`"@,
    )
}

/// One pane as a quoted block; `session_agent` is the display name of the
/// agent that the pane's session id names, if it names one.
pub fn multiplexer_pane_body(
    pane: &MultiplexerPane,
    current: Option<&SessionId>,
    backend_name: &str,
    session_agent: Option<&str>,
    home: Option<&str>,
) -> (r: String)
    ensures
        r@ == pane_block(*pane, current, backend_name@, match session_agent {
            Some(a) => Some(a@),
            None => None,
        }, match home {
            Some(h) => Some(h@),
            None => None,
        }),
{
    let attached = match (&pane.agent_session, current) {
        (Some(s), Some(c)) => s.same(c),
        _ => false,
    };
    let state: &str = if attached {
        "📎 Attached"
    } else if pane.agent_session.is_some() {
        match session_agent {
            Some(name) => name,
            None => backend_name,
        }
    } else if is_shell_command(pane.current_command.as_str()) {
        "Idle shell"
    } else {
        "Busy"
    };
    let mut text = owned("**");
    append(&mut text, decimal_string(pane.index).as_str());
    append(&mut text, " · ");
    append(&mut text, pane.current_command.as_str());
    append(&mut text, "**");
    if pane.active {
        append(&mut text, " · Active");
    }
    append(&mut text, " · ");
    append(&mut text, state);
    append(&mut text, "\n📁 `");
    append(&mut text, display_workspace(Some(pane.cwd.as_str()), home).as_str());
    append(&mut text, "`");
    proof {
        let hv = match home {
            Some(h) => Some(h@),
            None => None::<Seq<char>>,
        };
        let av = match session_agent {
            Some(a) => Some(a@),
            None => None::<Seq<char>>,
        };
        assert(state@ == pane_state(*pane, current, backend_name@, av));
        assert(text@ =~= "**"@ + decimal(pane.index as nat) + " · "@ + pane.current_command@ + "**"@
            + (if pane.active { " · Active"@ } else { Seq::empty() }) + " · "@
            + pane_state(*pane, current, backend_name@, av) + "\n📁 `"@
            + workspace_label(Some(pane.cwd@), hv) + "`"@);
    }
    markdown_quote(text.as_str())
}

/// The panes of a window, one quoted block each; `session_agents` holds,
/// for each pane, the display name of the agent its session id names.
pub fn multiplexer_window_body(
    window: &MultiplexerWindow,
    current: Option<&SessionId>,
    backend_name: &str,
    session_agents: &Vec<Option<String>>,
    home: Option<&str>,
) -> (r: String)
    requires
        session_agents.len() == window.panes.len(),
    ensures
        r@ == join(
            Seq::new(window.panes@.len(), |i: int| pane_block(window.panes@[i], current, backend_name@, opt_view(session_agents@[i]), match home {
                Some(h) => Some(h@),
                None => None,
            })),
            "\n\n"@,
        ),
{
    let ghost hv = match home {
        Some(h) => Some(h@),
        None => None::<Seq<char>>,
    };
    let ghost all = Seq::new(window.panes@.len(), |i: int| pane_block(window.panes@[i], current, backend_name@, opt_view(session_agents@[i]), hv));
    let mut blocks: Vec<String> = Vec::new();
    let mut i: usize = 0;
    while i < window.panes.len()
        invariant
            i <= window.panes.len(),
            session_agents.len() == window.panes.len(),
            all == Seq::new(window.panes@.len(), |i: int| pane_block(window.panes@[i], current, backend_name@, opt_view(session_agents@[i]), hv)),
            hv == match home {
                Some(h) => Some(h@),
                None => None::<Seq<char>>,
            },
            blocks@.map_values(|s: String| s@) == all.take(i as int),
        decreases window.panes.len() - i,
    {
        let agent: Option<&str> = match &session_agents[i] {
            Some(a) => Some(a.as_str()),
            None => None,
        };
        let block = multiplexer_pane_body(&window.panes[i], current, backend_name, agent, home);
        let ghost before = blocks@.map_values(|s: String| s@);
        proof {
            assert(match agent {
                Some(a) => Some(a@),
                None => None::<Seq<char>>,
            } == opt_view(session_agents@[i as int]));
        }
        blocks.push(block);
        assert(blocks@.map_values(|s: String| s@) =~= before.push(all[i as int]));
        assert(all.take(i + 1) =~= all.take(i as int).push(all[i as int]));
        i = i + 1;
    }
    assert(all.take(i as int) =~= all);
    assert(all =~= Seq::new(window.panes@.len(), |i: int| pane_block(window.panes@[i], current, backend_name@, opt_view(session_agents@[i]), match home {
        Some(h) => Some(h@),
        None => None,
    })));
    join_strings(&blocks, "\n\n")
}

} // verus!
