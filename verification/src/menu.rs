//! The built-in command menu.
use vstd::prelude::*;
use crate::domain::{ChannelCommand, CommandMenu, MultiplexerKind};
use crate::model::{ChannelKind, ConversationRef};
use crate::text::{owned, str_eq, chars_of};
use vstd::multiset::Multiset;

verus! {

pub struct CommandModel {
    pub name: Seq<char>,
    pub description: Seq<char>,
    pub contextual: bool,
}

pub open spec fn command_view(c: ChannelCommand) -> CommandModel {
    CommandModel { name: c.name@, description: c.description@, contextual: c.contextual }
}

pub open spec fn entry(name: &str, description: &str, contextual: bool) -> CommandModel {
    CommandModel { name: name@, description: description@, contextual }
}

/// Commands offered before a session is attached.
pub open spec fn base_commands() -> Seq<CommandModel> {
    seq![
        entry("sessions", "Browse running sessions", false),
        entry("cancel", "Cancel pending input", false),
        entry("help", "Show available commands", false),
    ]
}

/// Commands that act on the attached session.
pub open spec fn session_commands() -> Seq<CommandModel> {
    seq![
        entry("current", "Show the attached session", true),
        entry("history", "Show recent conversation history", true),
        entry("queue", "Show queued follow-up messages", true),
        entry("stop", "Stop the active turn", true),
        entry("detach", "Detach the current session", true),
        entry("compact", "Compact the session context", true),
        entry("fork", "Fork and attach a copy", true),
        entry("fast", "Toggle Fast mode", true),
        entry("clear", "Start a fresh session", true),
        entry("exit", "Detach the session", true),
        entry("diff", "Show Git changes", true),
        entry("rename", "Rename the session", true),
        entry("model", "Show or change the model", true),
        entry("reasoning", "Show or change reasoning effort", true),
        entry("skills", "List available skills", true),
        entry("plan", "Enter plan mode", true),
        entry("goal", "Show or manage the goal", true),
        entry("review", "Review uncommitted changes", true),
        entry("status", "Show detailed session status", true),
        entry("mcp", "Show MCP server status", true),
    ]
}

pub open spec fn kind_name(kind: MultiplexerKind) -> Seq<char> {
    match kind {
        MultiplexerKind::Rmux => "rmux"@,
        MultiplexerKind::Tmux => "tmux"@,
    }
}

/// The menu: base commands, the workspace command second when a manager is
/// available, and the session commands after the first two entries when attached.
pub open spec fn menu_model(attached: bool, kind: Option<MultiplexerKind>) -> Seq<CommandModel> {
    let with_kind = match kind {
        Some(k) => base_commands().insert(
            1,
            CommandModel { name: kind_name(k), description: "Manage terminal workspaces"@, contextual: false },
        ),
        None => base_commands(),
    };
    if attached {
        with_kind.take(2) + session_commands() + with_kind.skip(2)
    } else {
        with_kind
    }
}

fn command(name: &str, description: &str, contextual: bool) -> (r: ChannelCommand)
    ensures
        command_view(r) == entry(name, description, contextual),
{
    ChannelCommand { name: owned(name), description: owned(description), contextual }
}

fn push_session_commands(commands: &mut Vec<ChannelCommand>)
    ensures
        final(commands)@.map_values(|c: ChannelCommand| command_view(c))
            == old(commands)@.map_values(|c: ChannelCommand| command_view(c)) + session_commands(),
{
    let ghost before = commands@.map_values(|c: ChannelCommand| command_view(c));
    commands.push(command("current", "Show the attached session", true));
    commands.push(command("history", "Show recent conversation history", true));
    commands.push(command("queue", "Show queued follow-up messages", true));
    commands.push(command("stop", "Stop the active turn", true));
    commands.push(command("detach", "Detach the current session", true));
    commands.push(command("compact", "Compact the session context", true));
    commands.push(command("fork", "Fork and attach a copy", true));
    commands.push(command("fast", "Toggle Fast mode", true));
    commands.push(command("clear", "Start a fresh session", true));
    commands.push(command("exit", "Detach the session", true));
    commands.push(command("diff", "Show Git changes", true));
    commands.push(command("rename", "Rename the session", true));
    commands.push(command("model", "Show or change the model", true));
    commands.push(command("reasoning", "Show or change reasoning effort", true));
    commands.push(command("skills", "List available skills", true));
    commands.push(command("plan", "Enter plan mode", true));
    commands.push(command("goal", "Show or manage the goal", true));
    commands.push(command("review", "Review uncommitted changes", true));
    commands.push(command("status", "Show detailed session status", true));
    commands.push(command("mcp", "Show MCP server status", true));
    assert(commands@.map_values(|c: ChannelCommand| command_view(c)) =~= before + session_commands());
}

/// Built-in commands for a conversation; `kind` names the terminal manager.
pub fn command_menu_for(attached: bool, kind: Option<MultiplexerKind>) -> (r: CommandMenu)
    ensures
        r.commands@.map_values(|c: ChannelCommand| command_view(c)) == menu_model(attached, kind),
{
    let mut commands: Vec<ChannelCommand> = Vec::new();
    commands.push(command("sessions", "Browse running sessions", false));
    let ghost sessions = entry("sessions", "Browse running sessions", false);
    let ghost cancel = entry("cancel", "Cancel pending input", false);
    let ghost help = entry("help", "Show available commands", false);
    let ghost middle = if attached { session_commands() } else { Seq::<CommandModel>::empty() };
    match kind {
        Some(k) => {
            commands.push(command(k.as_str(), "Manage terminal workspaces", false));
            let ghost kc = CommandModel { name: kind_name(k), description: "Manage terminal workspaces"@, contextual: false };
            assert(commands@.map_values(|c: ChannelCommand| command_view(c)) =~= seq![sessions, kc]);
            if attached {
                push_session_commands(&mut commands);
            }
            assert(commands@.map_values(|c: ChannelCommand| command_view(c)) =~= seq![sessions, kc] + middle);
            commands.push(command("cancel", "Cancel pending input", false));
            commands.push(command("help", "Show available commands", false));
            assert(commands@.map_values(|c: ChannelCommand| command_view(c)) =~= seq![sessions, kc] + middle + seq![cancel, help]);
        },
        None => {
            commands.push(command("cancel", "Cancel pending input", false));
            assert(commands@.map_values(|c: ChannelCommand| command_view(c)) =~= seq![sessions, cancel]);
            if attached {
                push_session_commands(&mut commands);
            }
            assert(commands@.map_values(|c: ChannelCommand| command_view(c)) =~= seq![sessions, cancel] + middle);
            commands.push(command("help", "Show available commands", false));
            assert(commands@.map_values(|c: ChannelCommand| command_view(c)) =~= seq![sessions, cancel] + middle + seq![help]);
        },
    }
    proof {
        let v = commands@.map_values(|c: ChannelCommand| command_view(c));
        let b = base_commands();
        let sessions = entry("sessions", "Browse running sessions", false);
        let cancel = entry("cancel", "Cancel pending input", false);
        let help = entry("help", "Show available commands", false);
        assert(b =~= seq![sessions, cancel, help]);
        match kind {
            Some(k) => {
                let kc = CommandModel { name: kind_name(k), description: "Manage terminal workspaces"@, contextual: false };
                let w = b.insert(1, kc);
                assert(w =~= seq![sessions, kc, cancel, help]);
                if attached {
                    assert(w.take(2) =~= seq![sessions, kc]);
                    assert(w.skip(2) =~= seq![cancel, help]);
                } else {
                    assert(v =~= w);
                }
            },
            None => {
                if attached {
                    assert(b.take(2) =~= seq![sessions, cancel]);
                    assert(b.skip(2) =~= seq![help]);
                } else {
                    assert(v =~= b);
                }
            },
        }
    }
    CommandMenu { commands }
}

/// Built-in commands with the default terminal manager.
pub fn command_menu(attached: bool) -> (r: CommandMenu)
    ensures
        r.commands@.map_values(|c: ChannelCommand| command_view(c)) == menu_model(attached, Some(MultiplexerKind::Rmux)),
{
    command_menu_for(attached, Some(MultiplexerKind::default()))
}

/// `a` comes before `b` in code point order (`str` ordering).
pub open spec fn name_less(a: Seq<char>, b: Seq<char>) -> bool
    decreases a.len(),
{
    if a.len() == 0 {
        b.len() > 0
    } else if b.len() == 0 {
        false
    } else if a[0] != b[0] {
        (a[0] as u32) < (b[0] as u32)
    } else {
        name_less(a.drop_first(), b.drop_first())
    }
}

/// Menu order: general commands first, then by name.
pub open spec fn command_less(a: CommandModel, b: CommandModel) -> bool {
    (!a.contextual && b.contextual) || (a.contextual == b.contextual && name_less(a.name, b.name))
}

/// No command comes after one that it precedes in menu order.
pub open spec fn in_menu_order(cs: Seq<CommandModel>) -> bool {
    forall|i: int, j: int| 0 <= i < j < cs.len() ==> !command_less(cs[j], cs[i])
}

pub(crate) proof fn lemma_name_less_asymmetric(a: Seq<char>, b: Seq<char>)
    ensures
        name_less(a, b) ==> !name_less(b, a),
    decreases a.len(),
{
    if a.len() > 0 && b.len() > 0 && a[0] == b[0] {
        lemma_name_less_asymmetric(a.drop_first(), b.drop_first());
    }
}

pub(crate) proof fn lemma_name_less_transitive(a: Seq<char>, b: Seq<char>, c: Seq<char>)
    ensures
        name_less(a, b) && name_less(b, c) ==> name_less(a, c),
    decreases a.len(),
{
    if a.len() > 0 && b.len() > 0 && c.len() > 0 && a[0] == b[0] && b[0] == c[0] {
        lemma_name_less_transitive(a.drop_first(), b.drop_first(), c.drop_first());
    }
}

/// Of two different names, one precedes the other.
pub(crate) proof fn lemma_name_less_total(a: Seq<char>, b: Seq<char>)
    ensures
        a != b ==> name_less(a, b) || name_less(b, a),
    decreases a.len(),
{
    if a.len() > 0 && b.len() > 0 && a[0] == b[0] {
        lemma_name_less_total(a.drop_first(), b.drop_first());
        if a != b {
            assert(a =~= seq![a[0]] + a.drop_first());
            assert(b =~= seq![b[0]] + b.drop_first());
        }
    } else if a.len() == 0 && b.len() == 0 {
        assert(a =~= b);
    } else if a.len() > 0 && b.len() > 0 {
        vstd::utf8::char_u32_cast(a[0], a[0] as u32);
        vstd::utf8::char_u32_cast(b[0], b[0] as u32);
        assert((a[0] as u32) != (b[0] as u32));
    }
}

proof fn lemma_command_less(a: CommandModel, b: CommandModel, c: CommandModel)
    ensures
        command_less(a, b) ==> !command_less(b, a),
        command_less(a, b) && command_less(b, c) ==> command_less(a, c),
{
    lemma_name_less_asymmetric(a.name, b.name);
    lemma_name_less_transitive(a.name, b.name, c.name);
}

pub(crate) fn name_precedes(a: &str, b: &str) -> (r: bool)
    ensures
        r == name_less(a@, b@),
{
    let x = chars_of(a);
    let y = chars_of(b);
    let mut i: usize = 0;
    proof {
        assert(x@.skip(0) =~= x@);
        assert(y@.skip(0) =~= y@);
    }
    while i < x.len() && i < y.len() && x[i] == y[i]
        invariant
            i <= x.len(),
            i <= y.len(),
            x@ == a@,
            y@ == b@,
            name_less(a@, b@) == name_less(x@.skip(i as int), y@.skip(i as int)),
        decreases x.len() - i,
    {
        proof {
            assert(x@.skip(i as int).drop_first() =~= x@.skip(i + 1));
            assert(y@.skip(i as int).drop_first() =~= y@.skip(i + 1));
        }
        i = i + 1;
    }
    proof {
        if i < x.len() {
            assert(x@.skip(i as int)[0] == x@[i as int]);
        }
        if i < y.len() {
            assert(y@.skip(i as int)[0] == y@[i as int]);
        }
    }
    if i == x.len() {
        i < y.len()
    } else if i == y.len() {
        false
    } else {
        (x[i] as u32) < (y[i] as u32)
    }
}

fn precedes(a: &ChannelCommand, b: &ChannelCommand) -> (r: bool)
    ensures
        r == command_less(command_view(*a), command_view(*b)),
{
    (!a.contextual && b.contextual) || (a.contextual == b.contextual && name_precedes(a.name.as_str(), b.name.as_str()))
}

pub open spec fn commands_view(cs: Seq<ChannelCommand>) -> Seq<CommandModel> {
    cs.map_values(|c: ChannelCommand| command_view(c))
}

/// Put `c` after every command that does not come after it.
fn insert_in_order(commands: &mut Vec<ChannelCommand>, c: ChannelCommand)
    requires
        in_menu_order(commands_view(old(commands)@)),
    ensures
        in_menu_order(commands_view(final(commands)@)),
        commands_view(final(commands)@).to_multiset() == commands_view(old(commands)@).to_multiset().insert(command_view(c)),
{
    let ghost v = commands_view(commands@);
    let mut p: usize = 0;
    while p < commands.len() && !precedes(&c, &commands[p])
        invariant
            p <= commands.len(),
            v == commands_view(commands@),
            forall|i: int| 0 <= i < p ==> !command_less(command_view(c), #[trigger] v[i]),
        decreases commands.len() - p,
    {
        p = p + 1;
    }
    let ghost cv = command_view(c);
    commands.insert(p, c);
    proof {
        let w = commands_view(commands@);
        assert(w =~= v.insert(p as int, cv));
        vstd::seq_lib::to_multiset_insert(v, p as int, cv);
        assert forall|i: int, j: int| 0 <= i < j < w.len() implies !command_less(w[j], w[i]) by {
            if j < p {
                assert(w[i] == v[i] && w[j] == v[j]);
            } else if j == p {
                assert(w[i] == v[i]);
                assert(!command_less(cv, v[i]));
            } else if i > p {
                assert(w[i] == v[i - 1] && w[j] == v[j - 1]);
            } else if i == p {
                assert(w[j] == v[j - 1]);
                assert(command_less(cv, v[p as int]));
                lemma_command_less(v[j - 1], cv, v[p as int]);
                if j - 1 > p {
                    assert(!command_less(v[j - 1], v[p as int]));
                }
            } else {
                assert(w[i] == v[i] && w[j] == v[j - 1]);
            }
        }
    }
}

/// The commands read-only sessions keep.
pub open spec fn read_only_name(name: Seq<char>) -> bool {
    name == "sessions"@ || name == "rmux"@ || name == "tmux"@ || name == "current"@ || name == "history"@
        || name == "last"@ || name == "detach"@ || name == "cancel"@ || name == "help"@
}

fn is_read_only_name(name: &str) -> (r: bool)
    ensures
        r == read_only_name(name@),
{
    str_eq(name, "sessions") || str_eq(name, "rmux") || str_eq(name, "tmux") || str_eq(name, "current")
        || str_eq(name, "history") || str_eq(name, "last") || str_eq(name, "detach") || str_eq(name, "cancel")
        || str_eq(name, "help")
}

/// What a conversation's menu depends on besides attachment.
#[derive(Debug)]
pub struct MenuContext {
    /// The agent runs session commands itself.
    pub session_control: bool,
    /// The terminal manager offered, when workspaces are enabled.
    pub multiplexer: Option<MultiplexerKind>,
    /// A session is bound to the conversation.
    pub has_session: bool,
    /// The bound session accepts changes.
    pub writable: bool,
    /// Session commands that the bound session does not support.
    pub unsupported: Vec<String>,
    /// Task boards are available.
    pub has_tasks: bool,
}

/// The commands among `cs` that `keep` selects, in order.
pub open spec fn kept(cs: Seq<CommandModel>, keep: spec_fn(CommandModel) -> bool) -> Seq<CommandModel>
    decreases cs.len(),
{
    if cs.len() == 0 {
        Seq::empty()
    } else {
        let rest = kept(cs.drop_last(), keep);
        if keep(cs.last()) { rest.push(cs.last()) } else { rest }
    }
}

pub open spec fn names_view(names: Seq<String>) -> Seq<Seq<char>> {
    names.map_values(|n: String| n@)
}

/// The task board commands.
pub open spec fn task_commands(attached: bool) -> Seq<CommandModel> {
    seq![entry("dashboard", "Browse projects and task boards", false)] + if attached {
        seq![
            entry("board", "Show this session's task board", true),
            entry("jobs", "Browse this session's jobs", true),
            entry("inboxes", "Browse this project's inbox", true),
            entry("inbox", "Append a requirement to this project's inbox", true),
        ]
    } else {
        Seq::empty()
    }
}

/// Which commands a restriction keeps: given the session commands the bound
/// session lacks, the others and `exit`; otherwise the viewing commands.
pub open spec fn keep_rule(unsupported: Option<Seq<Seq<char>>>) -> spec_fn(CommandModel) -> bool {
    |c: CommandModel| match unsupported {
        Some(u) => c.name == "exit"@ || !u.contains(c.name),
        None => read_only_name(c.name),
    }
}

/// The commands of a conversation's menu, before ordering: session commands
/// only where the agent runs them (else `last`), those the bound session
/// lacks removed (but `exit`), read-only sessions restricted to viewing
/// commands, then the task board commands.
pub open spec fn menu_entries(attached: bool, ctx: MenuContext) -> Seq<CommandModel> {
    let base = menu_model(attached && ctx.session_control, ctx.multiplexer);
    let with_last = if attached && !ctx.session_control {
        base.push(entry("last", "Show the latest turn again", true))
    } else {
        base
    };
    let supported = if attached && ctx.has_session {
        kept(with_last, keep_rule(Some(names_view(ctx.unsupported@))))
    } else {
        with_last
    };
    let permitted = if attached && ctx.has_session && !ctx.writable {
        kept(supported, keep_rule(None))
    } else {
        supported
    };
    if ctx.has_tasks { permitted + task_commands(attached) } else { permitted }
}

pub(crate) fn is_unsupported(unsupported: &Vec<String>, name: &str) -> (r: bool)
    ensures
        r == names_view(unsupported@).contains(name@),
{
    let mut i: usize = 0;
    while i < unsupported.len()
        invariant
            i <= unsupported.len(),
            forall|j: int| 0 <= j < i ==> unsupported@[j]@ != name@,
        decreases unsupported.len() - i,
    {
        if str_eq(unsupported[i].as_str(), name) {
            assert(names_view(unsupported@)[i as int] == name@);
            return true;
        }
        i = i + 1;
    }
    proof {
        if names_view(unsupported@).contains(name@) {
            let j = choose|j: int| 0 <= j < names_view(unsupported@).len() && names_view(unsupported@)[j] == name@;
            assert(unsupported@[j]@ == name@);
        }
    }
    false
}

/// The commands that the restriction keeps, in order.
fn keep_commands(commands: Vec<ChannelCommand>, unsupported: Option<&Vec<String>>) -> (r: Vec<ChannelCommand>)
    ensures
        commands_view(r@) == kept(commands_view(commands@), keep_rule(match unsupported {
            Some(u) => Some(names_view(u@)),
            None => None,
        })),
{
    let ghost rule = keep_rule(match unsupported {
        Some(u) => Some(names_view(u@)),
        None => None,
    });
    let ghost all = commands_view(commands@);
    let mut rest = commands;
    let total = rest.len();
    let mut out: Vec<ChannelCommand> = Vec::new();
    let mut n: usize = 0;
    proof {
        assert(all.skip(0) =~= all);
        assert(all.take(0) =~= Seq::<CommandModel>::empty());
        assert(commands_view(out@) =~= Seq::<CommandModel>::empty());
    }
    while rest.len() > 0
        invariant
            n <= all.len(),
            all.len() == total,
            rule == keep_rule(match unsupported {
                Some(u) => Some(names_view(u@)),
                None => None,
            }),
            commands_view(rest@) == all.skip(n as int),
            commands_view(out@) == kept(all.take(n as int), rule),
        decreases rest.len(),
    {
        let ghost before_rest = commands_view(rest@);
        let ghost raw = rest@;
        let c = rest.remove(0);
        proof {
            assert(raw[0] == c);
            assert(before_rest[0] == command_view(c));
            assert(before_rest.len() > 0);
            assert(n < all.len());
            assert(all.skip(n as int)[0] == all[n as int]);
            assert(command_view(c) == all[n as int]);
            assert(rest@ =~= raw.drop_first());
            assert(commands_view(rest@) =~= before_rest.drop_first());
            assert(commands_view(rest@) =~= all.skip(n + 1));
            assert(all.take(n + 1).drop_last() =~= all.take(n as int));
            assert(all.take(n + 1).last() == all[n as int]);
        }
        let keep = match unsupported {
            Some(u) => str_eq(c.name.as_str(), "exit") || !is_unsupported(u, c.name.as_str()),
            None => is_read_only_name(c.name.as_str()),
        };
        assert(keep == rule(command_view(c)));
        let ghost before = commands_view(out@);
        if keep {
            let ghost cv = command_view(c);
            out.push(c);
            assert(commands_view(out@) =~= before.push(cv));
        }
        n = n + 1;
    }
    proof {
        assert(all.skip(n as int).len() == 0);
        assert(all.take(n as int) =~= all);
    }
    out
}

impl MenuContext {
    /// The commands a conversation's menu offers, in menu order.
    pub fn build(&self, attached: bool) -> (r: CommandMenu)
        ensures
            in_menu_order(commands_view(r.commands@)),
            commands_view(r.commands@).to_multiset() == menu_entries(attached, *self).to_multiset(),
    {
        let base = command_menu_for(attached && self.session_control, self.multiplexer);
        let mut entries = base.commands;
        if attached && !self.session_control {
            let ghost before = commands_view(entries@);
            entries.push(command("last", "Show the latest turn again", true));
            assert(commands_view(entries@) =~= before.push(entry("last", "Show the latest turn again", true)));
        }
        if attached && self.has_session {
            entries = keep_commands(entries, Some(&self.unsupported));
        }
        if attached && self.has_session && !self.writable {
            entries = keep_commands(entries, None);
        }
        if self.has_tasks {
            let ghost before = commands_view(entries@);
            entries.push(command("dashboard", "Browse projects and task boards", false));
            if attached {
                entries.push(command("board", "Show this session's task board", true));
                entries.push(command("jobs", "Browse this session's jobs", true));
                entries.push(command("inboxes", "Browse this project's inbox", true));
                entries.push(command("inbox", "Append a requirement to this project's inbox", true));
            }
            assert(commands_view(entries@) =~= before + task_commands(attached));
        }
        let ghost all = commands_view(entries@);
        assert(all == menu_entries(attached, *self));
        let mut sorted: Vec<ChannelCommand> = Vec::new();
        proof {
            broadcast use vstd::multiset::group_multiset_axioms;
            broadcast use vstd::seq_lib::group_to_multiset_ensures;
            broadcast use vstd::multiset::lemma_multiset_empty_len;
            assert(commands_view(sorted@) =~= Seq::<CommandModel>::empty());
            assert(commands_view(sorted@).to_multiset().len() == 0);
            assert(commands_view(sorted@).to_multiset() =~= Multiset::<CommandModel>::empty());
            assert(commands_view(sorted@).to_multiset().add(commands_view(entries@).to_multiset()) =~= all.to_multiset());
        }
        while entries.len() > 0
            invariant
                in_menu_order(commands_view(sorted@)),
                commands_view(sorted@).to_multiset().add(commands_view(entries@).to_multiset()) == all.to_multiset(),
            decreases entries.len(),
        {
            let ghost rest = commands_view(entries@);
            let c = entries.pop().unwrap();
            let ghost cv = command_view(c);
            let ghost sb = commands_view(sorted@).to_multiset();
            proof {
                assert(rest =~= commands_view(entries@).push(cv));
                vstd::seq_lib::to_multiset_build(commands_view(entries@), cv);
            }
            insert_in_order(&mut sorted, c);
            proof {
                broadcast use vstd::multiset::group_multiset_axioms;
                assert(commands_view(sorted@).to_multiset().add(commands_view(entries@).to_multiset())
                    =~= sb.add(commands_view(entries@).to_multiset().insert(cv)));
            }
        }
        proof {
            broadcast use vstd::multiset::group_multiset_axioms;
            broadcast use vstd::seq_lib::group_to_multiset_ensures;
            broadcast use vstd::multiset::lemma_multiset_empty_len;
            assert(commands_view(entries@) =~= Seq::<CommandModel>::empty());
            assert(commands_view(entries@).to_multiset().len() == 0);
            assert(commands_view(entries@).to_multiset() =~= Multiset::<CommandModel>::empty());
            assert(commands_view(sorted@).to_multiset() =~= commands_view(sorted@).to_multiset().add(Multiset::<CommandModel>::empty()));
        }
        CommandMenu { commands: sorted }
    }
}

/// A request to publish a conversation's menu.
#[derive(Debug, Clone, Copy)]
pub struct MenuRequest {
    /// Whether a session is attached to the conversation.
    pub attached: bool,
}

/// Conversations whose menu is being published at once.
pub const MAX_MENU_WORKERS: usize = 128;

/// Latest menu requests per conversation, published one at a time; `R` is
/// what the runtime needs to build and publish a menu.
pub struct MenuQueue<R> {
    entries: Vec<(ConversationRef, Option<(R, bool)>)>,
}

pub struct MenuEntryModel<R> {
    pub conversation: (ChannelKind, Seq<char>),
    pub pending: Option<(R, bool)>,
}

impl<R> View for MenuQueue<R> {
    type V = Seq<MenuEntryModel<R>>;

    closed spec fn view(&self) -> Seq<MenuEntryModel<R>> {
        self.entries@.map_values(|e: (ConversationRef, Option<(R, bool)>)| MenuEntryModel {
            conversation: (e.0.channel, e.0.conversation_id@),
            pending: e.1,
        })
    }
}

/// Position of the entry of `conversation`.
pub open spec fn menu_entry_of<R>(entries: Seq<MenuEntryModel<R>>, conversation: (ChannelKind, Seq<char>)) -> Option<int> {
    if exists|i: int| 0 <= i < entries.len() && (#[trigger] entries[i]).conversation == conversation {
        Some(choose|i: int| 0 <= i < entries.len() && (#[trigger] entries[i]).conversation == conversation)
    } else {
        None
    }
}

/// One entry per conversation, at most one worker each.
pub open spec fn menu_queue_inv<R>(entries: Seq<MenuEntryModel<R>>) -> bool {
    &&& entries.len() <= MAX_MENU_WORKERS
    &&& forall|i: int, j: int| 0 <= i < entries.len() && 0 <= j < entries.len() && i != j
        ==> entries[i].conversation != entries[j].conversation
}

/// What became of a menu request.
#[derive(Debug)]
pub enum MenuAdmission {
    /// The conversation's worker takes it next; the menu it is building is stale.
    Superseded,
    /// A synchronising request on a channel that cannot synchronise, with no
    /// worker running: dropped.
    Dropped,
    /// Too many workers run: dropped.
    Full,
    /// A new worker for the conversation must start.
    Started,
}

impl<R> MenuQueue<R> {
    pub fn new() -> (r: Self)
        ensures
            r@ == Seq::<MenuEntryModel<R>>::empty(),
    {
        let r = MenuQueue { entries: Vec::new() };
        assert(r@ =~= Seq::<MenuEntryModel<R>>::empty());
        r
    }

    fn find(&self, conversation: &ConversationRef) -> (r: Option<usize>)
        requires
            menu_queue_inv(self@),
        ensures
            match r {
                Some(i) => menu_entry_of(self@, (conversation.channel, conversation.conversation_id@)) == Some(i as int)
                    && i < self@.len(),
                None => menu_entry_of(self@, (conversation.channel, conversation.conversation_id@)) is None,
            },
    {
        let ghost v = self@;
        let ghost key = (conversation.channel, conversation.conversation_id@);
        let mut i: usize = 0;
        while i < self.entries.len()
            invariant
                i <= self.entries.len(),
                v == self@,
                menu_queue_inv(v),
                key == (conversation.channel, conversation.conversation_id@),
                forall|j: int| 0 <= j < i ==> v[j].conversation != key,
            decreases self.entries.len() - i,
        {
            if self.entries[i].0.same(conversation) {
                proof {
                    let k = choose|k: int| 0 <= k < v.len() && (#[trigger] v[k]).conversation == key;
                    if k != i {
                        assert(v[k].conversation != v[i as int].conversation);
                    }
                }
                return Some(i);
            }
            i = i + 1;
        }
        None
    }

    /// Offer the latest request for `conversation`'s menu. A synchronising
    /// request (`sync`) on a channel that cannot synchronise
    /// (`!supports_sync`) becomes an ordinary one when a worker runs, and is
    /// dropped otherwise.
    pub fn enqueue(&mut self, conversation: &ConversationRef, request: R, sync: bool, supports_sync: bool) -> (r: MenuAdmission)
        requires
            menu_queue_inv(old(self)@),
        ensures
            menu_queue_inv(final(self)@),
            ({
                let m = old(self)@;
                let key = (conversation.channel, conversation.conversation_id@);
                let skipped = sync && !supports_sync;
                match menu_entry_of(m, key) {
                    Some(k) => r is Superseded && final(self)@ == m.update(k, MenuEntryModel {
                        conversation: key,
                        pending: Some((request, sync && !skipped)),
                    }),
                    None => if skipped {
                        r is Dropped && final(self)@ == m
                    } else if m.len() >= MAX_MENU_WORKERS {
                        r is Full && final(self)@ == m
                    } else {
                        r is Started && final(self)@ == m.push(MenuEntryModel { conversation: key, pending: Some((request, sync)) })
                    },
                }
            }),
    {
        let skipped = sync && !supports_sync;
        let ghost m = self@;
        let ghost key = (conversation.channel, conversation.conversation_id@);
        match self.find(conversation) {
            Some(k) => {
                let entry = (ConversationRef::new(conversation.channel, conversation.conversation_id.as_str()), Some((request, sync && !skipped)));
                self.entries.set(k, entry);
                proof {
                    assert(self@ =~= m.update(k as int, MenuEntryModel { conversation: key, pending: Some((request, sync && !skipped)) }));
                    let e = self@;
                    assert forall|i: int, j: int| 0 <= i < e.len() && 0 <= j < e.len() && i != j
                        implies e[i].conversation != e[j].conversation by {
                        assert(e[i].conversation == m[i].conversation && e[j].conversation == m[j].conversation);
                    }
                }
                MenuAdmission::Superseded
            },
            None => {
                if skipped {
                    return MenuAdmission::Dropped;
                }
                if self.entries.len() >= MAX_MENU_WORKERS {
                    return MenuAdmission::Full;
                }
                let entry = (ConversationRef::new(conversation.channel, conversation.conversation_id.as_str()), Some((request, sync)));
                self.entries.push(entry);
                proof {
                    assert(self@ =~= m.push(MenuEntryModel { conversation: key, pending: Some((request, sync)) }));
                    let e = self@;
                    assert forall|i: int, j: int| 0 <= i < e.len() && 0 <= j < e.len() && i != j
                        implies e[i].conversation != e[j].conversation by {
                        if i < m.len() {
                            assert(e[i] == m[i]);
                        }
                        if j < m.len() {
                            assert(e[j] == m[j]);
                        }
                    }
                }
                MenuAdmission::Started
            },
        }
    }

    /// The worker of `conversation` takes the latest request, with whether it
    /// synchronises; with none left, the worker ends and its entry goes.
    pub fn take(&mut self, conversation: &ConversationRef) -> (r: Option<(R, bool)>)
        requires
            menu_queue_inv(old(self)@),
        ensures
            menu_queue_inv(final(self)@),
            match menu_entry_of(old(self)@, (conversation.channel, conversation.conversation_id@)) {
                Some(k) => match old(self)@[k].pending {
                    Some(p) => r == Some(p) && final(self)@ == old(self)@.update(k, MenuEntryModel { pending: None, ..old(self)@[k] }),
                    None => r is None && final(self)@ == old(self)@.remove(k),
                },
                None => r is None && final(self)@ == old(self)@,
            },
    {
        let ghost m = self@;
        match self.find(conversation) {
            Some(k) => {
                let entry = &mut self.entries[k];
                let pending = entry.1.take();
                match pending {
                    Some(p) => {
                        proof {
                            assert(self@ =~= m.update(k as int, MenuEntryModel { pending: None, ..m[k as int] }));
                            let e = self@;
                            assert forall|i: int, j: int| 0 <= i < e.len() && 0 <= j < e.len() && i != j
                                implies e[i].conversation != e[j].conversation by {
                                assert(e[i].conversation == m[i].conversation && e[j].conversation == m[j].conversation);
                            }
                        }
                        Some(p)
                    },
                    None => {
                        let _ = self.entries.remove(k);
                        proof {
                            assert(self@ =~= m.remove(k as int));
                            let e = self@;
                            assert forall|i: int, j: int| 0 <= i < e.len() && 0 <= j < e.len() && i != j
                                implies e[i].conversation != e[j].conversation by {
                                let i0 = if i < k { i } else { i + 1 };
                                let j0 = if j < k { j } else { j + 1 };
                                assert(e[i] == m[i0] && e[j] == m[j0]);
                            }
                        }
                        None
                    },
                }
            },
            None => None,
        }
    }

    /// Drop every request (the runtime aborts the workers).
    pub fn abort(&mut self)
        ensures
            final(self)@ == Seq::<MenuEntryModel<R>>::empty(),
    {
        self.entries = Vec::new();
        assert(self@ =~= Seq::<MenuEntryModel<R>>::empty());
    }
}

} // verus!
