//! Routing reservations: the resources a unit of runtime work holds while it
//! runs, so that work on one conversation, session or backend is serialized
//! and unrelated work proceeds. Admission never calls an agent or a channel:
//! everything it reads is in the snapshot or in the work item, where the
//! runtime put what its session keys, bindings and command parser say.
use vstd::prelude::*;
use crate::model::{ChannelKind, ConversationRef, SessionId};
use crate::text::{opt_view, owned, str_eq};

verus! {

/// A resource that work reserves.
#[derive(Debug, PartialEq, Eq)]
pub enum EngineResource {
    Conversation(ConversationRef),
    Session(SessionId),
    /// A backend by kind; `None` stands for the only, unnamed backend.
    Backend(Option<String>),
    TaskBoard,
}

pub enum ResourceView {
    Conversation(ChannelKind, Seq<char>),
    Session(Seq<char>),
    Backend(Option<Seq<char>>),
    TaskBoard,
}

impl View for EngineResource {
    type V = ResourceView;

    open spec fn view(&self) -> ResourceView {
        match self {
            EngineResource::Conversation(c) => ResourceView::Conversation(c.channel, c.conversation_id@),
            EngineResource::Session(s) => ResourceView::Session(s@),
            EngineResource::Backend(b) => ResourceView::Backend(opt_view(*b)),
            EngineResource::TaskBoard => ResourceView::TaskBoard,
        }
    }
}

pub open spec fn resources_view(s: Seq<EngineResource>) -> Seq<ResourceView> {
    s.map_values(|r: EngineResource| r@)
}

pub open spec fn conversation_view(c: ConversationRef) -> (ChannelKind, Seq<char>) {
    (c.channel, c.conversation_id@)
}

/// A name under which a session's events arrive, with the conversation its
/// critical events are routed to, if any.
#[derive(Debug)]
pub struct SessionAlias {
    pub session: SessionId,
    pub conversation: Option<ConversationRef>,
}

pub open spec fn alias_view(a: SessionAlias) -> (Seq<char>, Option<(ChannelKind, Seq<char>)>) {
    (a.session@, match a.conversation {
        Some(c) => Some(conversation_view(c)),
        None => None,
    })
}

/// A session as the runtime's routing knows it: the conversation its
/// critical events are routed to, the backend its key names when it reads as
/// a backend key, and the other names its events may carry.
#[derive(Debug)]
pub struct SessionRoute {
    pub session: SessionId,
    pub conversation: Option<ConversationRef>,
    pub backend: Option<String>,
    pub aliases: Vec<SessionAlias>,
}

pub struct RouteView {
    pub session: Seq<char>,
    pub conversation: Option<(ChannelKind, Seq<char>)>,
    pub backend: Option<Seq<char>>,
    pub aliases: Seq<(Seq<char>, Option<(ChannelKind, Seq<char>)>)>,
}

/// Every name of a session with where it is routed: the session itself
/// first, then its aliases.
pub open spec fn route_names(r: RouteView) -> Seq<(Seq<char>, Option<(ChannelKind, Seq<char>)>)> {
    seq![(r.session, r.conversation)] + r.aliases
}

impl View for SessionRoute {
    type V = RouteView;

    open spec fn view(&self) -> RouteView {
        RouteView {
            session: self.session@,
            conversation: match self.conversation {
                Some(c) => Some(conversation_view(c)),
                None => None,
            },
            backend: opt_view(self.backend),
            aliases: self.aliases@.map_values(|a: SessionAlias| alias_view(a)),
        }
    }
}

pub open spec fn route_opt(r: Option<SessionRoute>) -> Option<RouteView> {
    match r {
        Some(r) => Some(r@),
        None => None,
    }
}

/// A change to terminal workspaces an action makes.
#[derive(Debug)]
pub enum WorkspaceMutation {
    Backend(String),
    AllBackends,
}

pub enum MutationView {
    Backend(Seq<char>),
    AllBackends,
}

/// What an action or command touches: the session it acts on, whether it
/// replaces that session by a new one, and the workspaces it changes.
#[derive(Debug)]
pub struct ActionRoute {
    pub session: Option<SessionRoute>,
    pub replace_session: bool,
    pub workspace_mutation: Option<WorkspaceMutation>,
}

pub struct ActionRouteView {
    pub session: Option<RouteView>,
    pub replace_session: bool,
    pub workspace_mutation: Option<MutationView>,
}

impl View for ActionRoute {
    type V = ActionRouteView;

    open spec fn view(&self) -> ActionRouteView {
        ActionRouteView {
            session: route_opt(self.session),
            replace_session: self.replace_session,
            workspace_mutation: match self.workspace_mutation {
                Some(WorkspaceMutation::Backend(k)) => Some(MutationView::Backend(k@)),
                Some(WorkspaceMutation::AllBackends) => Some(MutationView::AllBackends),
                None => None,
            },
        }
    }
}

/// What an inbound message asks for, as the command parser reads it.
#[derive(Debug)]
pub enum InboundRoute {
    /// An attach command naming a session.
    Attach(SessionRoute),
    /// A command on the current session; whether it replaces the session.
    SessionCommand { replaces_session: bool },
    /// A button press carrying an action token.
    Action(String),
    /// Any other text, or an edit.
    Plain,
}

/// A unit of runtime work.
#[derive(Debug)]
pub enum EngineWork {
    Inbound { conversation: ConversationRef, route: InboundRoute },
    /// An agent event, with the session it names, if any.
    Event(Option<SessionRoute>),
    /// A refresh of a running turn of a session.
    Working(SessionRoute),
    Recover,
    TaskBoard,
}

/// What work may run beside: nothing else (`Global`), or anything that
/// reserves none of its `exclusive` resources and holds none of them shared.
#[derive(Debug, PartialEq, Eq)]
pub enum DispatchScope {
    Global,
    Access { shared: Vec<EngineResource>, exclusive: Vec<EngineResource> },
}

pub open spec fn scope_view(s: DispatchScope) -> Option<(Seq<ResourceView>, Seq<ResourceView>)> {
    match s {
        DispatchScope::Global => None,
        DispatchScope::Access { shared, exclusive } => Some((resources_view(shared@), resources_view(exclusive@))),
    }
}

/// The entry for `key` that comes first, if any.
pub open spec fn first_match<K, V>(entries: Seq<(K, V)>, key: K) -> Option<V>
    decreases entries.len(),
{
    if entries.len() == 0 {
        None
    } else if entries[0].0 == key {
        Some(entries[0].1)
    } else {
        first_match(entries.drop_first(), key)
    }
}

proof fn lemma_first_match_skip<K, V>(entries: Seq<(K, V)>, key: K, i: int)
    requires
        0 <= i <= entries.len(),
        forall|j: int| 0 <= j < i ==> entries[j].0 != key,
    ensures
        first_match(entries, key) == first_match(entries.subrange(i, entries.len() as int), key),
    decreases i,
{
    if i > 0 {
        let d = entries.drop_first();
        assert forall|j: int| 0 <= j < i - 1 implies d[j].0 != key by {
            assert(d[j] == entries[j + 1]);
        }
        lemma_first_match_skip(d, key, i - 1);
        assert(d.subrange(i - 1, d.len() as int) =~= entries.subrange(i, entries.len() as int));
        assert(entries[0].0 != key);
    } else {
        assert(entries.subrange(0, entries.len() as int) =~= entries);
    }
}

/// The backends a session's work holds: the one its key names, or every
/// known backend when its key names none (the unnamed one when none is known).
pub open spec fn backend_model(backends: Seq<Seq<char>>, agent: Option<Seq<char>>) -> Seq<ResourceView> {
    match agent {
        Some(a) => seq![ResourceView::Backend(Some(a))],
        None => if backends.len() == 0 {
            seq![ResourceView::Backend(None)]
        } else {
            backends.map_values(|b: Seq<char>| ResourceView::Backend(Some(b)))
        },
    }
}

/// Each alias of a session, preceded by the conversation it is routed to.
pub open spec fn alias_model(aliases: Seq<(Seq<char>, Option<(ChannelKind, Seq<char>)>)>) -> Seq<ResourceView>
    decreases aliases.len(),
{
    if aliases.len() == 0 {
        Seq::empty()
    } else {
        let a = aliases.last();
        alias_model(aliases.drop_last()) + match a.1 {
            Some(c) => seq![ResourceView::Conversation(c.0, c.1), ResourceView::Session(a.0)],
            None => seq![ResourceView::Session(a.0)],
        }
    }
}

/// Reserving a session: its backends shared, the session, its aliases and
/// their conversations exclusive.
pub open spec fn session_step(
    backends: Seq<Seq<char>>,
    acc: (Seq<ResourceView>, Seq<ResourceView>),
    route: RouteView,
) -> (Seq<ResourceView>, Seq<ResourceView>) {
    (acc.0 + backend_model(backends, route.backend), acc.1 + alias_model(route_names(route)))
}

pub open spec fn session_step_opt(
    backends: Seq<Seq<char>>,
    acc: (Seq<ResourceView>, Seq<ResourceView>),
    route: Option<RouteView>,
) -> (Seq<ResourceView>, Seq<ResourceView>) {
    match route {
        Some(r) => session_step(backends, acc, r),
        None => acc,
    }
}

pub struct SnapshotView {
    pub bindings: Seq<((ChannelKind, Seq<char>), RouteView)>,
    pub backends: Seq<Seq<char>>,
    pub actions: Seq<(Seq<char>, ActionRouteView)>,
    pub replies: Seq<((ChannelKind, Seq<char>), RouteView)>,
}

/// The route of an inbound message, `None` when its action token is not in
/// the snapshot.
pub open spec fn inbound_action(snap: SnapshotView, conversation: (ChannelKind, Seq<char>), route: InboundRoute) -> Option<ActionRouteView> {
    match route {
        InboundRoute::Attach(r) => Some(ActionRouteView { session: Some(r@), replace_session: false, workspace_mutation: None }),
        InboundRoute::SessionCommand { replaces_session } => Some(ActionRouteView {
            session: first_match(snap.bindings, conversation),
            replace_session: replaces_session,
            workspace_mutation: None,
        }),
        InboundRoute::Action(token) => first_match(snap.actions, token@),
        InboundRoute::Plain => Some(ActionRouteView { session: None, replace_session: false, workspace_mutation: None }),
    }
}

/// What an action's route adds: its session, the backend fence of a
/// replacement, and the workspaces it changes.
pub open spec fn action_step(
    backends: Seq<Seq<char>>,
    acc: (Seq<ResourceView>, Seq<ResourceView>),
    a: ActionRouteView,
) -> (Seq<ResourceView>, Seq<ResourceView>) {
    let acc3 = session_step_opt(backends, acc, a.session);
    let acc4 = if a.replace_session {
        (acc3.0, acc3.1 + backend_model(backends, match a.session {
            Some(r) => r.backend,
            None => None,
        }))
    } else {
        acc3
    };
    match a.workspace_mutation {
        Some(MutationView::Backend(k)) => (acc4.0, acc4.1.push(ResourceView::Backend(Some(k)))),
        Some(MutationView::AllBackends) => (acc4.0, acc4.1 + backend_model(backends, None)),
        None => acc4,
    }
}

/// The scope of `work` under `snap`: `None` for a global reservation,
/// otherwise the shared and the exclusive resources in reservation order.
pub open spec fn scope_model(snap: SnapshotView, work: EngineWork) -> Option<(Seq<ResourceView>, Seq<ResourceView>)> {
    let empty = (Seq::<ResourceView>::empty(), Seq::<ResourceView>::empty());
    match work {
        EngineWork::Recover => None,
        EngineWork::TaskBoard => Some((Seq::empty(), seq![ResourceView::TaskBoard])),
        EngineWork::Event(None) => None,
        EngineWork::Event(Some(r)) => Some(session_step(snap.backends, empty, r@)),
        EngineWork::Working(r) => Some(session_step(snap.backends, empty, r@)),
        EngineWork::Inbound { conversation, route } => {
            let c = conversation_view(conversation);
            let acc0 = (Seq::<ResourceView>::empty(), seq![ResourceView::Conversation(c.0, c.1)]);
            let acc1 = session_step_opt(snap.backends, acc0, first_match(snap.bindings, c));
            let acc2 = session_step_opt(snap.backends, acc1, first_match(snap.replies, c));
            match inbound_action(snap, c, route) {
                None => None,
                Some(a) => Some(action_step(snap.backends, acc2, a)),
            }
        },
    }
}

/// Work on an inbound message holds its conversation exclusively, before
/// anything else; it takes a global reservation exactly when it presses an
/// action whose token the snapshot does not know.
pub proof fn inbound_holds_its_conversation(snap: SnapshotView, conversation: ConversationRef, route: InboundRoute)
    ensures
        match scope_model(snap, EngineWork::Inbound { conversation, route }) {
            Some(a) => a.1.len() >= 1 && a.1[0] == ResourceView::Conversation(conversation.channel, conversation.conversation_id@),
            None => route matches InboundRoute::Action(token) && first_match(snap.actions, token@) is None,
        },
        (route matches InboundRoute::Action(token) && first_match(snap.actions, token@) is None) ==> scope_model(
            snap,
            EngineWork::Inbound { conversation, route },
        ) is None,
{
    let c = conversation_view(conversation);
    let head = ResourceView::Conversation(c.0, c.1);
    let acc0 = (Seq::<ResourceView>::empty(), seq![head]);
    let acc1 = session_step_opt(snap.backends, acc0, first_match(snap.bindings, c));
    let acc2 = session_step_opt(snap.backends, acc1, first_match(snap.replies, c));
    assert(acc1.1.len() >= 1 && acc1.1[0] == head);
    assert(acc2.1.len() >= 1 && acc2.1[0] == head);
    match inbound_action(snap, c, route) {
        Some(a) => {
            let acc3 = session_step_opt(snap.backends, acc2, a.session);
            assert(acc3.1.len() >= 1 && acc3.1[0] == head);
            let r = action_step(snap.backends, acc2, a);
            assert(r.1.len() >= 1 && r.1[0] == head);
        },
        None => {},
    }
}

proof fn lemma_contains_append(x: Seq<ResourceView>, y: Seq<ResourceView>, e: ResourceView)
    requires
        x.contains(e),
    ensures
        (x + y).contains(e),
{
    let i = choose|i: int| 0 <= i < x.len() && x[i] == e;
    assert((x + y)[i] == e);
}

proof fn lemma_alias_model_holds(names: Seq<(Seq<char>, Option<(ChannelKind, Seq<char>)>)>, k: int)
    requires
        0 <= k < names.len(),
    ensures
        alias_model(names).contains(ResourceView::Session(names[k].0)),
    decreases names.len(),
{
    let d = names.drop_last();
    let whole = alias_model(names);
    if k == names.len() - 1 {
        assert(whole[whole.len() - 1] == ResourceView::Session(names[k].0));
    } else {
        lemma_alias_model_holds(d, k);
        assert(d[k] == names[k]);
        let tail = match names.last().1 {
            Some(c) => seq![ResourceView::Conversation(c.0, c.1), ResourceView::Session(names.last().0)],
            None => seq![ResourceView::Session(names.last().0)],
        };
        assert(whole == alias_model(d) + tail);
        lemma_contains_append(alias_model(d), tail, ResourceView::Session(names[k].0));
    }
}

proof fn lemma_session_step_holds(backends: Seq<Seq<char>>, acc: (Seq<ResourceView>, Seq<ResourceView>), route: RouteView)
    ensures
        session_step(backends, acc, route).1.contains(ResourceView::Session(route.session)),
        forall|e: ResourceView| acc.1.contains(e) ==> #[trigger] session_step(backends, acc, route).1.contains(e),
{
    lemma_alias_model_holds(route_names(route), 0);
    lemma_contains_append(alias_model(route_names(route)), Seq::empty(), ResourceView::Session(route.session));
    let m = alias_model(route_names(route));
    let i = choose|i: int| 0 <= i < m.len() && m[i] == ResourceView::Session(route.session);
    assert((acc.1 + m)[acc.1.len() + i] == ResourceView::Session(route.session));
    assert forall|e: ResourceView| acc.1.contains(e) implies #[trigger] session_step(backends, acc, route).1.contains(e) by {
        lemma_contains_append(acc.1, m, e);
    }
}

proof fn lemma_action_step_keeps(backends: Seq<Seq<char>>, acc: (Seq<ResourceView>, Seq<ResourceView>), a: ActionRouteView, e: ResourceView)
    requires
        acc.1.contains(e),
    ensures
        action_step(backends, acc, a).1.contains(e),
{
    let acc3 = session_step_opt(backends, acc, a.session);
    match a.session {
        Some(r) => lemma_session_step_holds(backends, acc, r),
        None => {},
    }
    assert(acc3.1.contains(e));
    let b = backend_model(backends, match a.session {
        Some(r) => r.backend,
        None => None,
    });
    lemma_contains_append(acc3.1, b, e);
    let acc4 = if a.replace_session { (acc3.0, acc3.1 + b) } else { acc3 };
    assert(acc4.1.contains(e));
    match a.workspace_mutation {
        Some(MutationView::Backend(k)) => {
            lemma_contains_append(acc4.1, seq![ResourceView::Backend(Some(k))], e);
            assert(acc4.1.push(ResourceView::Backend(Some(k))) =~= acc4.1 + seq![ResourceView::Backend(Some(k))]);
        },
        Some(MutationView::AllBackends) => lemma_contains_append(acc4.1, backend_model(backends, None), e),
        None => {},
    }
}

/// Work holds each session it concerns exclusively under the session's own
/// name: the session of an event or a running turn and, for an inbound
/// message not refused a scope, the session bound to its conversation and
/// the session a pending reply there targets.
pub proof fn concerned_sessions_are_held(snap: SnapshotView, work: EngineWork)
    ensures
        match work {
            EngineWork::Event(Some(r)) => scope_model(snap, work) matches Some(a) && a.1.contains(ResourceView::Session(r.session@)),
            EngineWork::Working(r) => scope_model(snap, work) matches Some(a) && a.1.contains(ResourceView::Session(r.session@)),
            EngineWork::Inbound { conversation, route } => scope_model(snap, work) matches Some(a) ==> {
                &&& (first_match(snap.bindings, conversation_view(conversation)) matches Some(b) ==> a.1.contains(
                    ResourceView::Session(b.session),
                ))
                &&& (first_match(snap.replies, conversation_view(conversation)) matches Some(b) ==> a.1.contains(
                    ResourceView::Session(b.session),
                ))
            },
            _ => true,
        },
{
    let empty = (Seq::<ResourceView>::empty(), Seq::<ResourceView>::empty());
    match work {
        EngineWork::Event(Some(r)) => lemma_session_step_holds(snap.backends, empty, r@),
        EngineWork::Working(r) => lemma_session_step_holds(snap.backends, empty, r@),
        EngineWork::Inbound { conversation, route } => {
            let c = conversation_view(conversation);
            let acc0 = (Seq::<ResourceView>::empty(), seq![ResourceView::Conversation(c.0, c.1)]);
            let bound = first_match(snap.bindings, c);
            let reply = first_match(snap.replies, c);
            let acc1 = session_step_opt(snap.backends, acc0, bound);
            let acc2 = session_step_opt(snap.backends, acc1, reply);
            match bound {
                Some(b) => lemma_session_step_holds(snap.backends, acc0, b),
                None => {},
            }
            match reply {
                Some(b) => lemma_session_step_holds(snap.backends, acc1, b),
                None => {},
            }
            match inbound_action(snap, c, route) {
                Some(act) => {
                    match bound {
                        Some(b) => lemma_action_step_keeps(snap.backends, acc2, act, ResourceView::Session(b.session)),
                        None => {},
                    }
                    match reply {
                        Some(b) => lemma_action_step_keeps(snap.backends, acc2, act, ResourceView::Session(b.session)),
                        None => {},
                    }
                },
                None => {},
            }
        },
        _ => {},
    }
}


/// Work pressing an action that changes the workspaces of one backend holds
/// that backend exclusively; one that changes every backend's workspaces
/// holds each known backend (the unnamed one when none is known); and a
/// command replacing its session fences the backend its session names.
pub proof fn workspace_changes_hold_their_backends(snap: SnapshotView, conversation: ConversationRef, token: String)
    ensures
        ({
            let work = EngineWork::Inbound { conversation, route: InboundRoute::Action(token) };
            match first_match(snap.actions, token@) {
                Some(a) => scope_model(snap, work) matches Some(sc) && {
                    &&& (a.workspace_mutation matches Some(MutationView::Backend(k)) ==> sc.1.contains(
                        ResourceView::Backend(Some(k)),
                    ))
                    &&& (a.workspace_mutation matches Some(MutationView::AllBackends) ==> {
                        &&& (snap.backends.len() == 0 ==> sc.1.contains(ResourceView::Backend(None)))
                        &&& forall|b: int| 0 <= b < snap.backends.len() ==> sc.1.contains(
                            ResourceView::Backend(Some(#[trigger] snap.backends[b])),
                        )
                    })
                    &&& (a.replace_session ==> (a.session matches Some(r) ==> (r.backend matches Some(k) ==> sc.1.contains(
                        ResourceView::Backend(Some(k)),
                    ))))
                },
                None => scope_model(snap, work) is None,
            }
        }),
{
    let c = conversation_view(conversation);
    let acc0 = (Seq::<ResourceView>::empty(), seq![ResourceView::Conversation(c.0, c.1)]);
    let acc1 = session_step_opt(snap.backends, acc0, first_match(snap.bindings, c));
    let acc2 = session_step_opt(snap.backends, acc1, first_match(snap.replies, c));
    match first_match(snap.actions, token@) {
        Some(a) => {
            let acc3 = session_step_opt(snap.backends, acc2, a.session);
            let fence = backend_model(snap.backends, match a.session {
                Some(r) => r.backend,
                None => None,
            });
            let acc4 = if a.replace_session { (acc3.0, acc3.1 + fence) } else { acc3 };
            if a.replace_session {
                if let Some(r) = a.session {
                    if let Some(k) = r.backend {
                        assert(fence[0] == ResourceView::Backend(Some(k)));
                        assert(acc4.1[acc3.1.len() as int] == ResourceView::Backend(Some(k)));
                        assert(acc4.1.contains(ResourceView::Backend(Some(k))));
                        match a.workspace_mutation {
                            Some(MutationView::Backend(k2)) => {
                                lemma_contains_append(acc4.1, seq![ResourceView::Backend(Some(k2))], ResourceView::Backend(Some(k)));
                                assert(acc4.1.push(ResourceView::Backend(Some(k2))) =~= acc4.1 + seq![ResourceView::Backend(Some(k2))]);
                            },
                            Some(MutationView::AllBackends) => {
                                lemma_contains_append(acc4.1, backend_model(snap.backends, None), ResourceView::Backend(Some(k)));
                            },
                            None => {},
                        }
                    }
                }
            }
            match a.workspace_mutation {
                Some(MutationView::Backend(k)) => {
                    let e = acc4.1.push(ResourceView::Backend(Some(k)));
                    assert(e[acc4.1.len() as int] == ResourceView::Backend(Some(k)));
                },
                Some(MutationView::AllBackends) => {
                    let all = backend_model(snap.backends, None);
                    let e = acc4.1 + all;
                    if snap.backends.len() == 0 {
                        assert(e[acc4.1.len() as int] == ResourceView::Backend(None));
                    }
                    assert forall|b: int| 0 <= b < snap.backends.len() implies e.contains(
                        ResourceView::Backend(Some(#[trigger] snap.backends[b])),
                    ) by {
                        assert(e[acc4.1.len() + b] == ResourceView::Backend(Some(snap.backends[b])));
                    }
                },
                None => {},
            }
        },
        None => {},
    }
}


/// Work on a session shares the backend the session's key names; a session
/// whose key names none shares every known backend (the unnamed one when
/// none is known). Its own name is held exclusively, after the conversation
/// its events are routed to.
pub proof fn session_work_shares_its_backends(snap: SnapshotView, route: SessionRoute)
    ensures
        scope_model(snap, EngineWork::Working(route)) matches Some(sc) && {
            &&& (route@.backend matches Some(k) ==> sc.0 == seq![ResourceView::Backend(Some(k))])
            &&& (route@.backend is None && snap.backends.len() == 0 ==> sc.0 == seq![ResourceView::Backend(None)])
            &&& (route@.backend is None ==> forall|b: int| 0 <= b < snap.backends.len() ==> sc.0.contains(
                ResourceView::Backend(Some(#[trigger] snap.backends[b])),
            ))
            &&& (route@.conversation matches Some(c) ==> sc.1[0] == ResourceView::Conversation(c.0, c.1) && sc.1[1]
                == ResourceView::Session(route@.session))
            &&& (route@.conversation is None ==> sc.1[0] == ResourceView::Session(route@.session))
        },
{
    let empty = (Seq::<ResourceView>::empty(), Seq::<ResourceView>::empty());
    let r = route@;
    let sc = session_step(snap.backends, empty, r);
    let names = route_names(r);
    assert(names[0] == (r.session, r.conversation));
    lemma_alias_model_front(names);
    assert(sc.0 =~= backend_model(snap.backends, r.backend));
    assert(sc.1 =~= alias_model(names));
    if r.backend is None {
        assert forall|b: int| 0 <= b < snap.backends.len() implies sc.0.contains(
            ResourceView::Backend(Some(#[trigger] snap.backends[b])),
        ) by {
            if snap.backends.len() > 0 {
                assert(sc.0[b] == ResourceView::Backend(Some(snap.backends[b])));
            }
        }
    }
}

/// The reservations of a list of names begin with those of its first name.
proof fn lemma_alias_model_front(names: Seq<(Seq<char>, Option<(ChannelKind, Seq<char>)>)>)
    requires
        names.len() > 0,
    ensures
        ({
            let m = alias_model(names);
            match names[0].1 {
                Some(c) => m.len() >= 2 && m[0] == ResourceView::Conversation(c.0, c.1) && m[1] == ResourceView::Session(names[0].0),
                None => m.len() >= 1 && m[0] == ResourceView::Session(names[0].0),
            }
        }),
    decreases names.len(),
{
    if names.len() == 1 {
        assert(names.drop_last() =~= Seq::<(Seq<char>, Option<(ChannelKind, Seq<char>)>)>::empty());
        assert(names.last() == names[0]);
        assert(alias_model(names.drop_last()) =~= Seq::<ResourceView>::empty());
    } else {
        let d = names.drop_last();
        lemma_alias_model_front(d);
        assert(d[0] == names[0]);
        let a = names.last();
        let tail = match a.1 {
            Some(c) => seq![ResourceView::Conversation(c.0, c.1), ResourceView::Session(a.0)],
            None => seq![ResourceView::Session(a.0)],
        };
        let m = alias_model(names);
        assert(m == alias_model(d) + tail);
        assert(m[0] == alias_model(d)[0]);
        if alias_model(d).len() >= 2 {
            assert(m[1] == alias_model(d)[1]);
        }
    }
}


/// A command that replaces the session bound to a conversation fences the
/// backend that session's key names, or every known backend when it names
/// none (the unnamed one when none is known), so that the replacement's
/// early events wait for the new binding.
pub proof fn replacing_commands_fence_their_backend(snap: SnapshotView, conversation: ConversationRef)
    ensures
        ({
            let c = conversation_view(conversation);
            let work = EngineWork::Inbound { conversation, route: InboundRoute::SessionCommand { replaces_session: true } };
            scope_model(snap, work) matches Some(sc) && {
                &&& (first_match(snap.bindings, c) matches Some(r) ==> (r.backend is Some ==> sc.1.contains(
                    ResourceView::Backend(r.backend),
                )))
                &&& ((first_match(snap.bindings, c) is None || first_match(snap.bindings, c)->0.backend is None) ==> {
                    &&& (snap.backends.len() == 0 ==> sc.1.contains(ResourceView::Backend(None)))
                    &&& forall|b: int| 0 <= b < snap.backends.len() ==> sc.1.contains(
                        ResourceView::Backend(Some(#[trigger] snap.backends[b])),
                    )
                })
            }
        }),
{
    let c = conversation_view(conversation);
    let acc0 = (Seq::<ResourceView>::empty(), seq![ResourceView::Conversation(c.0, c.1)]);
    let bound = first_match(snap.bindings, c);
    let acc1 = session_step_opt(snap.backends, acc0, bound);
    let acc2 = session_step_opt(snap.backends, acc1, first_match(snap.replies, c));
    let acc3 = session_step_opt(snap.backends, acc2, bound);
    let agent = match bound {
        Some(r) => r.backend,
        None => None,
    };
    let fence = backend_model(snap.backends, agent);
    let e = acc3.1 + fence;
    match agent {
        Some(k) => {
            assert(e[acc3.1.len() as int] == ResourceView::Backend(Some(k)));
        },
        None => {
            if snap.backends.len() == 0 {
                assert(e[acc3.1.len() as int] == ResourceView::Backend(None));
            }
            assert forall|b: int| 0 <= b < snap.backends.len() implies e.contains(
                ResourceView::Backend(Some(#[trigger] snap.backends[b])),
            ) by {
                assert(e[acc3.1.len() + b] == ResourceView::Backend(Some(snap.backends[b])));
            }
        },
    }
}

/// A short-lived view of the runtime's routing state; it is not to be kept
/// across completions of work.
pub struct EngineDispatchSnapshot {
    bindings: Vec<(ConversationRef, SessionRoute)>,
    backends: Vec<String>,
    actions: Vec<(String, ActionRoute)>,
    replies: Vec<(ConversationRef, SessionRoute)>,
}

impl View for EngineDispatchSnapshot {
    type V = SnapshotView;

    closed spec fn view(&self) -> SnapshotView {
        SnapshotView {
            bindings: self.bindings@.map_values(|e: (ConversationRef, SessionRoute)| (conversation_view(e.0), e.1@)),
            backends: self.backends@.map_values(|b: String| b@),
            actions: self.actions@.map_values(|e: (String, ActionRoute)| (e.0@, e.1@)),
            replies: self.replies@.map_values(|e: (ConversationRef, SessionRoute)| (conversation_view(e.0), e.1@)),
        }
    }
}

fn copy_conversation(c: &ConversationRef) -> (r: ConversationRef)
    ensures
        conversation_view(r) == conversation_view(*c),
{
    ConversationRef::new(c.channel, c.conversation_id.as_str())
}

fn push_resource(out: &mut Vec<EngineResource>, r: EngineResource)
    ensures
        resources_view(final(out)@) == resources_view(old(out)@).push(r@),
{
    let ghost before = out@;
    out.push(r);
    assert(resources_view(out@) =~= resources_view(before).push(r@));
}

fn find_conversation(entries: &Vec<(ConversationRef, SessionRoute)>, conversation: &ConversationRef) -> (r: Option<usize>)
    ensures
        match r {
            Some(i) => i < entries.len() && first_match(
                entries@.map_values(|e: (ConversationRef, SessionRoute)| (conversation_view(e.0), e.1@)),
                conversation_view(*conversation),
            ) == Some(entries@[i as int].1@),
            None => first_match(
                entries@.map_values(|e: (ConversationRef, SessionRoute)| (conversation_view(e.0), e.1@)),
                conversation_view(*conversation),
            ) == None::<RouteView>,
        },
{
    let ghost view = entries@.map_values(|e: (ConversationRef, SessionRoute)| (conversation_view(e.0), e.1@));
    let ghost key = conversation_view(*conversation);
    let mut i: usize = 0;
    while i < entries.len()
        invariant
            i <= entries.len(),
            view == entries@.map_values(|e: (ConversationRef, SessionRoute)| (conversation_view(e.0), e.1@)),
            key == conversation_view(*conversation),
            forall|j: int| 0 <= j < i ==> view[j].0 != key,
        decreases entries.len() - i,
    {
        if entries[i].0.same(conversation) {
            proof {
                lemma_first_match_skip(view, key, i as int);
                assert(view.subrange(i as int, view.len() as int)[0] == view[i as int]);
            }
            return Some(i);
        }
        i = i + 1;
    }
    proof {
        lemma_first_match_skip(view, key, i as int);
        assert(view.subrange(i as int, view.len() as int).len() == 0);
    }
    None
}

fn find_action(entries: &Vec<(String, ActionRoute)>, token: &str) -> (r: Option<usize>)
    ensures
        match r {
            Some(i) => i < entries.len() && first_match(
                entries@.map_values(|e: (String, ActionRoute)| (e.0@, e.1@)),
                token@,
            ) == Some(entries@[i as int].1@),
            None => first_match(entries@.map_values(|e: (String, ActionRoute)| (e.0@, e.1@)), token@) == None::<ActionRouteView>,
        },
{
    let ghost view = entries@.map_values(|e: (String, ActionRoute)| (e.0@, e.1@));
    let mut i: usize = 0;
    while i < entries.len()
        invariant
            i <= entries.len(),
            view == entries@.map_values(|e: (String, ActionRoute)| (e.0@, e.1@)),
            forall|j: int| 0 <= j < i ==> view[j].0 != token@,
        decreases entries.len() - i,
    {
        if str_eq(entries[i].0.as_str(), token) {
            proof {
                lemma_first_match_skip(view, token@, i as int);
                assert(view.subrange(i as int, view.len() as int)[0] == view[i as int]);
            }
            return Some(i);
        }
        i = i + 1;
    }
    proof {
        lemma_first_match_skip(view, token@, i as int);
        assert(view.subrange(i as int, view.len() as int).len() == 0);
    }
    None
}

impl EngineDispatchSnapshot {
    /// A snapshot of the current bindings, the known backends, the routes of
    /// the action tokens issued, and the sessions that pending replies target.
    pub fn new(
        bindings: Vec<(ConversationRef, SessionRoute)>,
        backends: Vec<String>,
        actions: Vec<(String, ActionRoute)>,
        replies: Vec<(ConversationRef, SessionRoute)>,
    ) -> (r: Self)
        ensures
            r@ == (SnapshotView {
                bindings: bindings@.map_values(|e: (ConversationRef, SessionRoute)| (conversation_view(e.0), e.1@)),
                backends: backends@.map_values(|b: String| b@),
                actions: actions@.map_values(|e: (String, ActionRoute)| (e.0@, e.1@)),
                replies: replies@.map_values(|e: (ConversationRef, SessionRoute)| (conversation_view(e.0), e.1@)),
            }),
    {
        EngineDispatchSnapshot { bindings, backends, actions, replies }
    }

    /// Hold the backends `agent` calls for: that one, or every known backend
    /// (the unnamed one when none is known).
    fn reserve_backend(&self, agent: &Option<String>, out: &mut Vec<EngineResource>)
        ensures
            resources_view(final(out)@) == resources_view(old(out)@) + backend_model(self@.backends, opt_view(*agent)),
    {
        let ghost bv = self@.backends;
        match agent {
            Some(a) => {
                push_resource(out, EngineResource::Backend(Some(owned(a.as_str()))));
                assert(resources_view(out@) =~= resources_view(old(out)@) + backend_model(bv, opt_view(*agent)));
            },
            None => {
                if self.backends.len() == 0 {
                    push_resource(out, EngineResource::Backend(None));
                    assert(resources_view(out@) =~= resources_view(old(out)@) + backend_model(bv, opt_view(*agent)));
                } else {
                    let mut i: usize = 0;
                    while i < self.backends.len()
                        invariant
                            i <= self.backends.len(),
                            bv == self@.backends,
                            bv == self.backends@.map_values(|b: String| b@),
                            resources_view(out@) == resources_view(old(out)@) + bv.take(i as int).map_values(
                                |b: Seq<char>| ResourceView::Backend(Some(b)),
                            ),
                        decreases self.backends.len() - i,
                    {
                        let ghost before = out@;
                        push_resource(out, EngineResource::Backend(Some(owned(self.backends[i].as_str()))));
                        proof {
                            assert(bv.take(i + 1).map_values(|b: Seq<char>| ResourceView::Backend(Some(b))) =~= bv.take(
                                i as int,
                            ).map_values(|b: Seq<char>| ResourceView::Backend(Some(b))).push(ResourceView::Backend(Some(bv[i as int]))));
                        }
                        i = i + 1;
                    }
                    assert(bv.take(i as int) =~= bv);
                }
            },
        }
    }

    /// Reserve a session: its backends shared, each alias exclusive after
    /// the conversation its critical events go to.
    fn reserve_session(&self, route: &SessionRoute, shared: &mut Vec<EngineResource>, exclusive: &mut Vec<EngineResource>)
        ensures
            (resources_view(final(shared)@), resources_view(final(exclusive)@)) == session_step(
                self@.backends,
                (resources_view(old(shared)@), resources_view(old(exclusive)@)),
                route@,
            ),
    {
        self.reserve_backend(&route.backend, shared);
        let ghost names = route_names(route@);
        let ghost av = route@.aliases;
        let ghost start = resources_view(exclusive@);
        match &route.conversation {
            Some(c) => {
                push_resource(exclusive, EngineResource::Conversation(copy_conversation(c)));
            },
            None => {},
        }
        push_resource(exclusive, EngineResource::Session(route.session.duplicate()));
        proof {
            assert(names.take(1).drop_last() =~= Seq::<(Seq<char>, Option<(ChannelKind, Seq<char>)>)>::empty());
            assert(names.take(1).last() == names[0]);
            assert(names[0] == (route@.session, route@.conversation));
            assert(alias_model(names.take(1).drop_last()) =~= Seq::<ResourceView>::empty());
            assert(resources_view(exclusive@) =~= start + alias_model(names.take(1)));
        }
        let mut i: usize = 0;
        while i < route.aliases.len()
            invariant
                i <= route.aliases.len(),
                names == route_names(route@),
                av == route@.aliases,
                av == route.aliases@.map_values(|a: SessionAlias| alias_view(a)),
                resources_view(exclusive@) == start + alias_model(names.take(i + 1)),
            decreases route.aliases.len() - i,
        {
            let alias = &route.aliases[i];
            proof {
                assert(names.take(i + 2).drop_last() =~= names.take(i + 1));
                assert(names.take(i + 2).last() == names[i + 1]);
                assert(names[i + 1] == av[i as int]);
                assert(av[i as int] == alias_view(*alias));
            }
            match &alias.conversation {
                Some(c) => {
                    push_resource(exclusive, EngineResource::Conversation(copy_conversation(c)));
                },
                None => {},
            }
            push_resource(exclusive, EngineResource::Session(alias.session.duplicate()));
            proof {
                assert(resources_view(exclusive@) =~= start + alias_model(names.take(i + 2)));
            }
            i = i + 1;
        }
        assert(names.take(i + 1) =~= names);
    }

    fn reserve_session_opt(&self, route: Option<&SessionRoute>, shared: &mut Vec<EngineResource>, exclusive: &mut Vec<EngineResource>)
        ensures
            (resources_view(final(shared)@), resources_view(final(exclusive)@)) == session_step_opt(
                self@.backends,
                (resources_view(old(shared)@), resources_view(old(exclusive)@)),
                match route {
                    Some(r) => Some(r@),
                    None => None,
                },
            ),
    {
        match route {
            Some(r) => self.reserve_session(r, shared, exclusive),
            None => {},
        }
    }

    /// What the route of an action adds after its conversation's sessions.
    fn reserve_action(&self, action: &ActionRoute, shared: &mut Vec<EngineResource>, exclusive: &mut Vec<EngineResource>)
        ensures
            (resources_view(final(shared)@), resources_view(final(exclusive)@)) == action_step(
                self@.backends,
                (resources_view(old(shared)@), resources_view(old(exclusive)@)),
                action@,
            ),
    {
        let session = match &action.session {
            Some(r) => Some(r),
            None => None,
        };
        self.reserve_session_opt(session, shared, exclusive);
        if action.replace_session {
            // The replacement's id comes from the host; fence its backend
            // until the binding commits.
            let backend = match &action.session {
                Some(r) => match &r.backend {
                    Some(b) => Some(owned(b.as_str())),
                    None => None,
                },
                None => None,
            };
            self.reserve_backend(&backend, exclusive);
        }
        match &action.workspace_mutation {
            Some(WorkspaceMutation::Backend(k)) => {
                push_resource(exclusive, EngineResource::Backend(Some(owned(k.as_str()))));
            },
            Some(WorkspaceMutation::AllBackends) => {
                self.reserve_backend(&None, exclusive);
            },
            None => {},
        }
    }

    /// The resources `work` reserves: a global reservation for recovery, for
    /// an event that names no session, and for an action token issued after
    /// this snapshot; otherwise the task board, or the conversation of an
    /// inbound message with the session bound there, the session a pending
    /// reply targets and the session its command or action acts on, or the
    /// session of an event or running turn.
    pub fn scope(&self, work: &EngineWork) -> (r: DispatchScope)
        ensures
            scope_view(r) == scope_model(self@, *work),
    {
        let mut shared: Vec<EngineResource> = Vec::new();
        let mut exclusive: Vec<EngineResource> = Vec::new();
        proof {
            assert(resources_view(shared@) =~= Seq::<ResourceView>::empty());
            assert(resources_view(exclusive@) =~= Seq::<ResourceView>::empty());
        }
        match work {
            EngineWork::Recover => {
                return DispatchScope::Global;
            },
            EngineWork::TaskBoard => {
                push_resource(&mut exclusive, EngineResource::TaskBoard);
                assert(resources_view(exclusive@) =~= seq![ResourceView::TaskBoard]);
            },
            EngineWork::Event(route) => {
                match route {
                    Some(r) => self.reserve_session(r, &mut shared, &mut exclusive),
                    None => {
                        return DispatchScope::Global;
                    },
                }
            },
            EngineWork::Working(r) => {
                self.reserve_session(r, &mut shared, &mut exclusive);
            },
            EngineWork::Inbound { conversation, route } => {
                push_resource(&mut exclusive, EngineResource::Conversation(copy_conversation(conversation)));
                assert(resources_view(exclusive@) =~= seq![
                    ResourceView::Conversation(conversation.channel, conversation.conversation_id@),
                ]);
                let current = find_conversation(&self.bindings, conversation);
                match current {
                    Some(i) => self.reserve_session(&self.bindings[i].1, &mut shared, &mut exclusive),
                    None => {},
                }
                // A reply may target a draining interaction after the user
                // switched sessions: reserve that target too.
                match find_conversation(&self.replies, conversation) {
                    Some(i) => self.reserve_session(&self.replies[i].1, &mut shared, &mut exclusive),
                    None => {},
                }
                match route {
                    InboundRoute::Attach(r) => {
                        self.reserve_session(r, &mut shared, &mut exclusive);
                    },
                    InboundRoute::SessionCommand { replaces_session } => {
                        let bound = match current {
                            Some(i) => Some(&self.bindings[i].1),
                            None => None,
                        };
                        self.reserve_session_opt(bound, &mut shared, &mut exclusive);
                        if *replaces_session {
                            let backend = match current {
                                Some(i) => match &self.bindings[i].1.backend {
                                    Some(b) => Some(owned(b.as_str())),
                                    None => None,
                                },
                                None => None,
                            };
                            self.reserve_backend(&backend, &mut exclusive);
                        }
                    },
                    InboundRoute::Action(token) => {
                        match find_action(&self.actions, token.as_str()) {
                            Some(i) => self.reserve_action(&self.actions[i].1, &mut shared, &mut exclusive),
                            None => {
                                // Issued after this snapshot: reserve everything;
                                // execution still validates the token.
                                return DispatchScope::Global;
                            },
                        }
                    },
                    InboundRoute::Plain => {},
                }
            },
        }
        DispatchScope::Access { shared, exclusive }
    }
}

} // verus!
