//! Best-effort unsubscribe requests for sessions whose binding was removed,
//! and the reattachments that must wait for them. The runtime runs the
//! unsubscribe and attach work that this state admits and reports when each
//! piece ends.
use vstd::prelude::*;
use crate::attachment_history::{AttachmentHistory, ObservedModel, observe_model, wf_observed};
use crate::domain::{AgentEvent, HistoryPage};
use crate::model::{ChannelKind, ConversationRef, SessionId};
use crate::session::AgentError;
use crate::text::owned;

verus! {

/// Unsubscribes, reattachments and preparations held at once, each.
pub const CLEANUP_CAPACITY: usize = 128;

/// A conversation waiting to be attached to `session` again.
#[derive(Debug)]
pub struct Reattachment {
    pub conversation: ConversationRef,
    pub session: SessionId,
    pub owner: String,
    pub epoch: u64,
    pub generation: u64,
    pub prepared: bool,
    pub id: u128,
}

pub struct ReattachModel {
    pub channel: ChannelKind,
    pub conversation: Seq<char>,
    pub session: Seq<char>,
    pub owner: Seq<char>,
    pub epoch: u64,
    pub generation: u64,
    pub prepared: bool,
    pub id: u128,
}

impl View for Reattachment {
    type V = ReattachModel;

    open spec fn view(&self) -> ReattachModel {
        ReattachModel {
            channel: self.conversation.channel,
            conversation: self.conversation.conversation_id@,
            session: self.session@,
            owner: self.owner@,
            epoch: self.epoch,
            generation: self.generation,
            prepared: self.prepared,
            id: self.id,
        }
    }
}

impl Reattachment {
    pub fn duplicate(&self) -> (r: Self)
        ensures
            r@ == self@,
    {
        Reattachment {
            conversation: ConversationRef::new(self.conversation.channel, self.conversation.conversation_id.as_str()),
            session: self.session.duplicate(),
            owner: owned(self.owner.as_str()),
            epoch: self.epoch,
            generation: self.generation,
            prepared: self.prepared,
            id: self.id,
        }
    }
}

pub open spec fn conversation_of(r: ReattachModel) -> (ChannelKind, Seq<char>) {
    (r.channel, r.conversation)
}

pub open spec fn reattach_view(rs: Seq<Reattachment>) -> Seq<ReattachModel> {
    rs.map_values(|r: Reattachment| r@)
}

pub struct SubscriptionCleanup {
    pending: Vec<SessionId>,
    attachments: Vec<Reattachment>,
    ready: Vec<Reattachment>,
    preparing: Vec<(u128, SessionId)>,
    prepared: Vec<(u128, Result<HistoryPage, AgentError>)>,
    observed: Vec<(SessionId, u128, AttachmentHistory)>,
}

pub struct CleanupModel {
    /// Sessions whose unsubscribe is running.
    pub pending: Seq<Seq<char>>,
    /// One waiting reattachment per conversation.
    pub attachments: Seq<ReattachModel>,
    /// Reattachments to carry out next, in order.
    pub ready: Seq<ReattachModel>,
    /// Preparations (attach and first history read) running, by id.
    pub preparing: Seq<(u128, Seq<char>)>,
    /// Finished preparations and their result, by id.
    pub prepared: Seq<(u128, Result<HistoryPage, AgentError>)>,
    /// Turns observed while a preparation runs, by session.
    pub observed: Seq<(Seq<char>, u128, Seq<ObservedModel>)>,
}

impl View for SubscriptionCleanup {
    type V = CleanupModel;

    closed spec fn view(&self) -> CleanupModel {
        CleanupModel {
            pending: self.pending@.map_values(|s: SessionId| s@),
            attachments: reattach_view(self.attachments@),
            ready: reattach_view(self.ready@),
            preparing: self.preparing@.map_values(|e: (u128, SessionId)| (e.0, e.1@)),
            prepared: self.prepared@,
            observed: self.observed@.map_values(|e: (SessionId, u128, AttachmentHistory)| (e.0@, e.1, e.2@)),
        }
    }
}

/// Position of the reattachment waiting in `conversation`.
pub open spec fn attachment_of(atts: Seq<ReattachModel>, conversation: (ChannelKind, Seq<char>)) -> Option<int> {
    if exists|i: int| 0 <= i < atts.len() && conversation_of(#[trigger] atts[i]) == conversation {
        Some(choose|i: int| 0 <= i < atts.len() && conversation_of(#[trigger] atts[i]) == conversation)
    } else {
        None
    }
}

/// Position of the observation of `session`.
pub open spec fn observed_of(obs: Seq<(Seq<char>, u128, Seq<ObservedModel>)>, session: Seq<char>) -> Option<int> {
    if exists|i: int| 0 <= i < obs.len() && (#[trigger] obs[i]).0 == session {
        Some(choose|i: int| 0 <= i < obs.len() && (#[trigger] obs[i]).0 == session)
    } else {
        None
    }
}

/// Position of the preparation result of `id`.
pub open spec fn prepared_of(prepared: Seq<(u128, Result<HistoryPage, AgentError>)>, id: u128) -> Option<int> {
    if exists|i: int| 0 <= i < prepared.len() && (#[trigger] prepared[i]).0 == id {
        Some(choose|i: int| 0 <= i < prepared.len() && (#[trigger] prepared[i]).0 == id)
    } else {
        None
    }
}

/// Position of the running preparation `id`.
pub open spec fn preparing_of(preparing: Seq<(u128, Seq<char>)>, id: u128) -> Option<int> {
    if exists|i: int| 0 <= i < preparing.len() && (#[trigger] preparing[i]).0 == id {
        Some(choose|i: int| 0 <= i < preparing.len() && (#[trigger] preparing[i]).0 == id)
    } else {
        None
    }
}

/// Keys are unique in every table; observations are well formed.
pub open spec fn cleanup_inv(m: CleanupModel) -> bool {
    &&& forall|i: int, j: int| 0 <= i < m.pending.len() && 0 <= j < m.pending.len() && i != j ==> m.pending[i] != m.pending[j]
    &&& forall|i: int, j: int| 0 <= i < m.attachments.len() && 0 <= j < m.attachments.len() && i != j
        ==> conversation_of(m.attachments[i]) != conversation_of(m.attachments[j])
    &&& forall|i: int, j: int| 0 <= i < m.preparing.len() && 0 <= j < m.preparing.len() && i != j
        ==> m.preparing[i].0 != m.preparing[j].0
    &&& forall|i: int, j: int| 0 <= i < m.prepared.len() && 0 <= j < m.prepared.len() && i != j
        ==> m.prepared[i].0 != m.prepared[j].0
    &&& forall|i: int, j: int| 0 <= i < m.observed.len() && 0 <= j < m.observed.len() && i != j
        ==> m.observed[i].0 != m.observed[j].0
    &&& forall|i: int| 0 <= i < m.observed.len() ==> wf_observed((#[trigger] m.observed[i]).2)
}

/// `atts` with `r` stored under its conversation.
pub open spec fn attachments_insert(atts: Seq<ReattachModel>, r: ReattachModel) -> Seq<ReattachModel> {
    match attachment_of(atts, conversation_of(r)) {
        Some(k) => atts.update(k, r),
        None => atts.push(r),
    }
}

/// `rs` without the entries that `drop` selects.
pub open spec fn reattach_without(rs: Seq<ReattachModel>, drop: spec_fn(ReattachModel) -> bool) -> Seq<ReattachModel>
    decreases rs.len(),
{
    if rs.len() == 0 {
        Seq::empty()
    } else {
        let rest = reattach_without(rs.drop_last(), drop);
        if drop(rs.last()) { rest } else { rest.push(rs.last()) }
    }
}

/// The conversations waiting for `session`, in order.
pub open spec fn conversations_for(atts: Seq<ReattachModel>, session: Seq<char>) -> Seq<(ChannelKind, Seq<char>)>
    decreases atts.len(),
{
    if atts.len() == 0 {
        Seq::empty()
    } else {
        let rest = conversations_for(atts.drop_last(), session);
        if atts.last().session == session { rest.push(conversation_of(atts.last())) } else { rest }
    }
}

/// The reattachments of `session` not prepared yet, in order.
pub open spec fn unprepared_for(atts: Seq<ReattachModel>, session: Seq<char>) -> Seq<ReattachModel>
    decreases atts.len(),
{
    if atts.len() == 0 {
        Seq::empty()
    } else {
        let rest = unprepared_for(atts.drop_last(), session);
        if atts.last().session == session && !atts.last().prepared { rest.push(atts.last()) } else { rest }
    }
}

/// The running preparations of `session`: their ids, in order.
pub open spec fn preparations_for(preparing: Seq<(u128, Seq<char>)>, session: Seq<char>) -> Seq<u128>
    decreases preparing.len(),
{
    if preparing.len() == 0 {
        Seq::empty()
    } else {
        let rest = preparations_for(preparing.drop_last(), session);
        if preparing.last().1 == session { rest.push(preparing.last().0) } else { rest }
    }
}

/// Whether a reattachment of `session` is waiting.
pub open spec fn has_attachment_for(atts: Seq<ReattachModel>, session: Seq<char>) -> bool {
    exists|i: int| 0 <= i < atts.len() && (#[trigger] atts[i]).session == session
}


/// `preparing` with `id` running for `session`.
pub open spec fn preparing_insert(preparing: Seq<(u128, Seq<char>)>, id: u128, session: Seq<char>) -> Seq<(u128, Seq<char>)> {
    match preparing_of(preparing, id) {
        Some(k) => preparing.update(k, (id, session)),
        None => preparing.push((id, session)),
    }
}

/// `observed` with a fresh observation of `session` for preparation `id`.
pub open spec fn observed_insert(observed: Seq<(Seq<char>, u128, Seq<ObservedModel>)>, session: Seq<char>, id: u128) -> Seq<(Seq<char>, u128, Seq<ObservedModel>)> {
    match observed_of(observed, session) {
        Some(k) => observed.update(k, (session, id, Seq::empty())),
        None => observed.push((session, id, Seq::empty())),
    }
}

/// A preparation's result completed with the turns observed meanwhile.
pub open spec fn completed_result(x: Result<HistoryPage, AgentError>, result: Result<HistoryPage, AgentError>, observed: Option<Seq<ObservedModel>>) -> bool {
    match observed {
        None => x == result,
        Some(turns) => match result {
            Ok(h) => x matches Ok(h2) && h2@ == crate::domain::HistoryModel {
                turns: crate::attachment_history::merge_all_model(h@.turns, turns),
                ..h@
            },
            Err(e) => x == Err::<HistoryPage, AgentError>(e),
        },
    }
}

/// `sessions` without `session`.
pub open spec fn sessions_without(sessions: Seq<Seq<char>>, session: Seq<char>) -> Seq<Seq<char>>
    decreases sessions.len(),
{
    if sessions.len() == 0 {
        Seq::empty()
    } else {
        let rest = sessions_without(sessions.drop_last(), session);
        if sessions.last() == session { rest } else { rest.push(sessions.last()) }
    }
}

proof fn lemma_sessions_without(ps: Seq<Seq<char>>, session: Seq<char>)
    requires
        forall|i: int, j: int| 0 <= i < ps.len() && 0 <= j < ps.len() && i != j ==> ps[i] != ps[j],
    ensures
        ({
            let f = sessions_without(ps, session);
            &&& forall|i: int| 0 <= i < f.len() ==> ps.contains(#[trigger] f[i])
            &&& forall|i: int, j: int| 0 <= i < f.len() && 0 <= j < f.len() && i != j ==> f[i] != f[j]
        }),
    decreases ps.len(),
{
    if ps.len() > 0 {
        let d = ps.drop_last();
        assert forall|i: int, j: int| 0 <= i < d.len() && 0 <= j < d.len() && i != j implies d[i] != d[j] by {
            assert(d[i] == ps[i] && d[j] == ps[j]);
        }
        lemma_sessions_without(d, session);
        let fd = sessions_without(d, session);
        let f = sessions_without(ps, session);
        assert forall|i: int| 0 <= i < f.len() implies ps.contains(#[trigger] f[i]) by {
            if i < fd.len() {
                assert(d.contains(fd[i]));
                let t = choose|t: int| 0 <= t < d.len() && d[t] == fd[i];
                assert(ps[t] == d[t]);
            } else {
                assert(f[i] == ps[ps.len() - 1]);
            }
        }
        if ps.last() != session {
            assert forall|i: int, j: int| 0 <= i < f.len() && 0 <= j < f.len() && i != j implies f[i] != f[j] by {
                if i < fd.len() && j < fd.len() {
                    assert(f[i] == fd[i] && f[j] == fd[j]);
                } else {
                    let k = if i < fd.len() { i } else { j };
                    assert(d.contains(fd[k]));
                    let t = choose|t: int| 0 <= t < d.len() && d[t] == fd[k];
                    assert(ps[t] == d[t]);
                    assert(t != ps.len() - 1);
                }
            }
        }
    }
}

/// A conversation stops waiting to reattach: the state after, and the
/// reattachment it had. Its unprepared ready entries go; its reattachment
/// goes with the turns observed for it.
pub open spec fn cancel_model(m: CleanupModel, conversation: (ChannelKind, Seq<char>)) -> (CleanupModel, Option<ReattachModel>) {
    let ready = reattach_without(m.ready, |x: ReattachModel| !x.prepared && conversation_of(x) == conversation);
    match attachment_of(m.attachments, conversation) {
        Some(k) => {
            let a = m.attachments[k];
            (
                CleanupModel {
                    ready,
                    attachments: m.attachments.remove(k),
                    observed: match observed_of(m.observed, a.session) {
                        Some(o) => if m.observed[o].1 == a.id { m.observed.remove(o) } else { m.observed },
                        None => m.observed,
                    },
                    ..m
                },
                Some(a),
            )
        },
        None => (CleanupModel { ready, ..m }, None),
    }
}

/// Conversations stop waiting, one after another: the state after, and the
/// ids of the reattachments cancelled.
pub open spec fn cancel_all_model(m: CleanupModel, conversations: Seq<(ChannelKind, Seq<char>)>) -> (CleanupModel, Seq<u128>)
    decreases conversations.len(),
{
    if conversations.len() == 0 {
        (m, Seq::empty())
    } else {
        let (m1, ids) = cancel_all_model(m, conversations.drop_last());
        let (m2, a) = cancel_model(m1, conversations.last());
        (m2, match a {
            Some(x) => ids.push(x.id),
            None => ids,
        })
    }
}

/// What an unsubscribe request for a session came to.
#[derive(Debug)]
pub enum Unsubscribe {
    /// A reattachment still needs the subscription: it is kept.
    Retained,
    /// An unsubscribe of the session is already running: wait for it.
    Running,
    /// Too many unsubscribes are running: the subscription is kept.
    Full,
    /// Started: wait for these preparations of the session first.
    Started(Vec<u128>),
}

proof fn lemma_without_front(rs: Seq<ReattachModel>, drop: spec_fn(ReattachModel) -> bool)
    requires
        rs.len() > 0,
    ensures
        reattach_without(rs, drop) == (if drop(rs[0]) { Seq::empty() } else { seq![rs[0]] })
            + reattach_without(rs.drop_first(), drop),
    decreases rs.len(),
{
    if rs.len() == 1 {
        assert(rs.drop_last() =~= Seq::<ReattachModel>::empty());
        assert(rs.drop_first() =~= Seq::<ReattachModel>::empty());
    } else {
        lemma_without_front(rs.drop_last(), drop);
        assert(rs.drop_last().drop_first() =~= rs.drop_first().drop_last());
        assert(rs.drop_first().last() == rs.last());
    }
}

proof fn lemma_attachments_insert(atts: Seq<ReattachModel>, r: ReattachModel)
    requires
        forall|i: int, j: int| 0 <= i < atts.len() && 0 <= j < atts.len() && i != j
            ==> conversation_of(atts[i]) != conversation_of(atts[j]),
    ensures
        ({
            let a = attachments_insert(atts, r);
            forall|i: int, j: int| 0 <= i < a.len() && 0 <= j < a.len() && i != j
                ==> conversation_of(a[i]) != conversation_of(a[j])
        }),
{
    let a = attachments_insert(atts, r);
    match attachment_of(atts, conversation_of(r)) {
        Some(k) => {
            assert forall|i: int, j: int| 0 <= i < a.len() && 0 <= j < a.len() && i != j
                implies conversation_of(a[i]) != conversation_of(a[j]) by {
                assert(conversation_of(a[i]) == conversation_of(atts[i]));
                assert(conversation_of(a[j]) == conversation_of(atts[j]));
            }
        },
        None => {
            let n = atts.len() as int;
            assert forall|i: int, j: int| 0 <= i < a.len() && 0 <= j < a.len() && i != j
                implies conversation_of(a[i]) != conversation_of(a[j]) by {
                if i < n && j < n {
                    assert(a[i] == atts[i] && a[j] == atts[j]);
                } else if i < n {
                    assert(a[i] == atts[i]);
                } else {
                    assert(a[j] == atts[j]);
                }
            }
        },
    }
}

impl SubscriptionCleanup {
    pub fn new() -> (r: Self)
        ensures
            cleanup_inv(r@),
            r@ == (CleanupModel {
                pending: Seq::empty(),
                attachments: Seq::empty(),
                ready: Seq::empty(),
                preparing: Seq::empty(),
                prepared: Seq::empty(),
                observed: Seq::empty(),
            }),
    {
        let r = SubscriptionCleanup {
            pending: Vec::new(),
            attachments: Vec::new(),
            ready: Vec::new(),
            preparing: Vec::new(),
            prepared: Vec::new(),
            observed: Vec::new(),
        };
        assert(r@.pending =~= Seq::<Seq<char>>::empty());
        assert(r@.attachments =~= Seq::<ReattachModel>::empty());
        assert(r@.ready =~= Seq::<ReattachModel>::empty());
        assert(r@.preparing =~= Seq::<(u128, Seq<char>)>::empty());
        assert(r@.observed =~= Seq::<(Seq<char>, u128, Seq<ObservedModel>)>::empty());
        r
    }

    fn find_attachment(&self, conversation: &ConversationRef) -> (r: Option<usize>)
        requires
            cleanup_inv(self@),
        ensures
            match r {
                Some(i) => attachment_of(self@.attachments, (conversation.channel, conversation.conversation_id@)) == Some(i as int)
                    && i < self@.attachments.len(),
                None => attachment_of(self@.attachments, (conversation.channel, conversation.conversation_id@)) is None,
            },
    {
        let ghost v = self@.attachments;
        let ghost key = (conversation.channel, conversation.conversation_id@);
        let mut i: usize = 0;
        while i < self.attachments.len()
            invariant
                i <= self.attachments.len(),
                v == self@.attachments,
                cleanup_inv(self@),
                key == (conversation.channel, conversation.conversation_id@),
                forall|j: int| 0 <= j < i ==> conversation_of(v[j]) != key,
            decreases self.attachments.len() - i,
        {
            assert(v[i as int] == self.attachments@[i as int]@);
            if self.attachments[i].conversation.same(conversation) {
                proof {
                    let k = choose|k: int| 0 <= k < v.len() && conversation_of(#[trigger] v[k]) == key;
                    if k != i {
                        assert(conversation_of(v[k]) != conversation_of(v[i as int]));
                    }
                }
                return Some(i);
            }
            i = i + 1;
        }
        None
    }

    fn find_observed(&self, session: &str) -> (r: Option<usize>)
        requires
            cleanup_inv(self@),
        ensures
            match r {
                Some(i) => observed_of(self@.observed, session@) == Some(i as int) && i < self@.observed.len(),
                None => observed_of(self@.observed, session@) is None,
            },
    {
        let ghost v = self@.observed;
        let mut i: usize = 0;
        while i < self.observed.len()
            invariant
                i <= self.observed.len(),
                v == self@.observed,
                cleanup_inv(self@),
                forall|j: int| 0 <= j < i ==> v[j].0 != session@,
            decreases self.observed.len() - i,
        {
            assert(v[i as int].0 == self.observed@[i as int].0@);
            if crate::text::str_eq(self.observed[i].0.as_str(), session) {
                proof {
                    let k = choose|k: int| 0 <= k < v.len() && (#[trigger] v[k]).0 == session@;
                    if k != i {
                        assert(v[k].0 != v[i as int].0);
                    }
                }
                return Some(i);
            }
            i = i + 1;
        }
        None
    }

    fn has_pending(&self, session: &SessionId) -> (r: bool)
        ensures
            r == self@.pending.contains(session@),
    {
        let mut i: usize = 0;
        while i < self.pending.len()
            invariant
                i <= self.pending.len(),
                forall|j: int| 0 <= j < i ==> self@.pending[j] != session@,
            decreases self.pending.len() - i,
        {
            assert(self@.pending[i as int] == self.pending@[i as int]@);
            if self.pending[i].same(session) {
                return true;
            }
            i = i + 1;
        }
        false
    }

    /// Whether an unsubscribe of `session` is running.
    pub fn pending(&self, session: &SessionId) -> (r: bool)
        ensures
            r == self@.pending.contains(session@),
    {
        self.has_pending(session)
    }

    /// The reattachment waiting in `conversation`.
    pub fn attachment(&self, conversation: &ConversationRef) -> (r: Option<Reattachment>)
        requires
            cleanup_inv(self@),
        ensures
            match attachment_of(self@.attachments, (conversation.channel, conversation.conversation_id@)) {
                Some(k) => r matches Some(x) && x@ == self@.attachments[k],
                None => r is None,
            },
    {
        match self.find_attachment(conversation) {
            Some(k) => {
                assert(self@.attachments[k as int] == self.attachments@[k as int]@);
                Some(self.attachments[k].duplicate())
            },
            None => None,
        }
    }

    /// Whether a reattachment of `session` is waiting.
    pub fn has_attachment(&self, session: &SessionId) -> (r: bool)
        ensures
            r == has_attachment_for(self@.attachments, session@),
    {
        let mut i: usize = 0;
        while i < self.attachments.len()
            invariant
                i <= self.attachments.len(),
                forall|j: int| 0 <= j < i ==> self@.attachments[j].session != session@,
            decreases self.attachments.len() - i,
        {
            assert(self@.attachments[i as int] == self.attachments@[i as int]@);
            if self.attachments[i].session.same(session) {
                return true;
            }
            i = i + 1;
        }
        false
    }

    /// The conversations waiting to reattach to `session`.
    pub fn attachment_conversations(&self, session: &SessionId) -> (r: Vec<ConversationRef>)
        ensures
            r@.map_values(|c: ConversationRef| (c.channel, c.conversation_id@)) == conversations_for(self@.attachments, session@),
    {
        let mut r: Vec<ConversationRef> = Vec::new();
        let mut i: usize = 0;
        while i < self.attachments.len()
            invariant
                i <= self.attachments.len(),
                r@.map_values(|c: ConversationRef| (c.channel, c.conversation_id@)) == conversations_for(self@.attachments.take(i as int), session@),
            decreases self.attachments.len() - i,
        {
            proof {
                assert(self@.attachments.take(i + 1).drop_last() =~= self@.attachments.take(i as int));
                assert(self@.attachments.take(i + 1).last() == self.attachments@[i as int]@);
            }
            let ghost before = r@.map_values(|c: ConversationRef| (c.channel, c.conversation_id@));
            if self.attachments[i].session.same(session) {
                let a = &self.attachments[i];
                let c = ConversationRef::new(a.conversation.channel, a.conversation.conversation_id.as_str());
                r.push(c);
                assert(r@.map_values(|c: ConversationRef| (c.channel, c.conversation_id@)) =~= before.push((c.channel, c.conversation_id@)));
            }
            i = i + 1;
        }
        assert(self@.attachments.take(i as int) =~= self@.attachments);
        r
    }

    /// `conversation` no longer waits to reattach: its unprepared ready
    /// entry is dropped, and its reattachment (with the turns observed for
    /// it) removed and returned.
    pub fn cancel_attachment(&mut self, conversation: &ConversationRef) -> (r: Option<Reattachment>)
        requires
            cleanup_inv(old(self)@),
        ensures
            cleanup_inv(final(self)@),
            final(self)@ == cancel_model(old(self)@, (conversation.channel, conversation.conversation_id@)).0,
            match cancel_model(old(self)@, (conversation.channel, conversation.conversation_id@)).1 {
                Some(a) => r matches Some(x) && x@ == a,
                None => r is None,
            },
    {
        let ghost key = (conversation.channel, conversation.conversation_id@);
        let ghost drop = |x: ReattachModel| !x.prepared && conversation_of(x) == key;
        self.retain_ready(Ghost(drop), conversation, None);
        let ghost m = self@;
        match self.find_attachment(conversation) {
            Some(k) => {
                let request = self.attachments.remove(k);
                proof {
                    assert(m.attachments[k as int] == request@);
                    assert(self@.attachments =~= m.attachments.remove(k as int));
                    let a = self@.attachments;
                    assert forall|i: int, j: int| 0 <= i < a.len() && 0 <= j < a.len() && i != j
                        implies conversation_of(a[i]) != conversation_of(a[j]) by {
                        let i0 = if i < k { i } else { i + 1 };
                        let j0 = if j < k { j } else { j + 1 };
                        assert(a[i] == m.attachments[i0] && a[j] == m.attachments[j0]);
                    }
                }
                match self.find_observed(request.session.as_str()) {
                    Some(o) => {
                        if self.observed[o].1 == request.id {
                            let ghost before = self@;
                            let _ = self.observed.remove(o);
                            proof {
                                assert(self@.observed =~= before.observed.remove(o as int));
                                let ob = self@.observed;
                                assert forall|i: int, j: int| 0 <= i < ob.len() && 0 <= j < ob.len() && i != j
                                    implies ob[i].0 != ob[j].0 by {
                                    let i0 = if i < o { i } else { i + 1 };
                                    let j0 = if j < o { j } else { j + 1 };
                                    assert(ob[i] == before.observed[i0] && ob[j] == before.observed[j0]);
                                }
                                assert forall|i: int| 0 <= i < ob.len() implies wf_observed((#[trigger] ob[i]).2) by {
                                    let i0 = if i < o { i } else { i + 1 };
                                    assert(ob[i] == before.observed[i0]);
                                }
                            }
                        }
                    },
                    None => {},
                }
                Some(request)
            },
            None => None,
        }
    }

    /// Keep the ready entries that `drop` does not select; `drop` selects the
    /// unprepared entries of `conversation`, or those with id `id`.
    fn retain_ready(&mut self, drop: Ghost<spec_fn(ReattachModel) -> bool>, conversation: &ConversationRef, id: Option<u128>)
        requires
            cleanup_inv(old(self)@),
            match id {
                Some(x) => forall|r: ReattachModel| #[trigger] drop@(r) == (r.id == x),
                None => forall|r: ReattachModel| #[trigger] drop@(r)
                    == (!r.prepared && conversation_of(r) == (conversation.channel, conversation.conversation_id@)),
            },
        ensures
            cleanup_inv(final(self)@),
            final(self)@ == (CleanupModel { ready: reattach_without(old(self)@.ready, drop@), ..old(self)@ }),
    {
        let ghost m = self@;
        let mut ready: Vec<Reattachment> = Vec::new();
        std::mem::swap(&mut ready, &mut self.ready);
        assert(reattach_view(self.ready@) =~= Seq::<ReattachModel>::empty());
        assert(reattach_view(ready@) == m.ready);
        let mut kept: Vec<Reattachment> = Vec::new();
        assert(reattach_view(kept@) =~= Seq::<ReattachModel>::empty());
        while ready.len() > 0
            invariant
                self@ == (CleanupModel { ready: Seq::empty(), ..m }),
                match id {
                    Some(x) => forall|r: ReattachModel| #[trigger] drop@(r) == (r.id == x),
                    None => forall|r: ReattachModel| #[trigger] drop@(r)
                        == (!r.prepared && conversation_of(r) == (conversation.channel, conversation.conversation_id@)),
                },
                reattach_view(kept@) + reattach_without(reattach_view(ready@), drop@) == reattach_without(m.ready, drop@),
            decreases ready.len(),
        {
            let ghost rest = reattach_view(ready@);
            let ghost before = reattach_view(kept@);
            let entry = ready.remove(0);
            proof {
                assert(reattach_view(ready@) =~= rest.drop_first());
                assert(rest[0] == entry@);
                lemma_without_front(rest, drop@);
            }
            let dropped = match id {
                Some(x) => entry.id == x,
                None => !entry.prepared && entry.conversation.same(conversation),
            };
            assert(dropped == drop@(entry@));
            if !dropped {
                kept.push(entry);
                assert(reattach_view(kept@) =~= before.push(entry@));
                assert(reattach_view(kept@) + reattach_without(reattach_view(ready@), drop@)
                    =~= before + (seq![entry@] + reattach_without(rest.drop_first(), drop@)));
            } else {
                assert(before + reattach_without(reattach_view(ready@), drop@)
                    =~= before + (Seq::<ReattachModel>::empty() + reattach_without(rest.drop_first(), drop@)));
            }
        }
        proof {
            assert(reattach_view(ready@) =~= Seq::<ReattachModel>::empty());
            assert(reattach_view(kept@) + Seq::<ReattachModel>::empty() =~= reattach_view(kept@));
        }
        self.ready = kept;
    }

    /// Hold a reattachment until the unsubscribe of its session ends (ready at
    /// once when none runs); a conversation's newer request replaces its
    /// older one. Refused when too many are held.
    pub fn defer_attachment(&mut self, request: Reattachment) -> (r: Result<(), String>)
        requires
            cleanup_inv(old(self)@),
        ensures
            cleanup_inv(final(self)@),
            ({
                let m = old(self)@;
                let key = conversation_of(request@);
                if m.attachments.len() >= CLEANUP_CAPACITY && attachment_of(m.attachments, key) is None {
                    r matches Err(e) && e@ == "Too many sessions are reconnecting; try attaching again shortly."@
                        && final(self)@ == m
                } else {
                    r is Ok && final(self)@ == (CleanupModel {
                        ready: if m.pending.contains(request@.session) { m.ready } else { m.ready.push(request@) },
                        attachments: attachments_insert(m.attachments, request@),
                        ..m
                    })
                }
            }),
    {
        let existing = self.find_attachment(&request.conversation);
        if self.attachments.len() >= CLEANUP_CAPACITY && existing.is_none() {
            return Err(owned("Too many sessions are reconnecting; try attaching again shortly."));
        }
        let ghost m = self@;
        if !self.has_pending(&request.session) {
            let copy = request.duplicate();
            self.ready.push(copy);
            assert(reattach_view(self.ready@) =~= m.ready.push(request@));
        }
        let ghost m1 = self@;
        let ghost rv = request@;
        match existing {
            Some(k) => {
                self.attachments.set(k, request);
            },
            None => {
                self.attachments.push(request);
            },
        }
        proof {
            assert(self@.attachments =~= attachments_insert(m.attachments, rv));
            lemma_attachments_insert(m.attachments, rv);
        }
        Ok(())
    }

    /// Record an event for the session whose preparation observes it.
    pub fn observe(&mut self, event: &AgentEvent)
        requires
            cleanup_inv(old(self)@),
        ensures
            cleanup_inv(final(self)@),
            final(self)@ == match observed_of(old(self)@.observed, event_session(*event)) {
                Some(o) => CleanupModel {
                    observed: old(self)@.observed.update(o, (
                        old(self)@.observed[o].0,
                        old(self)@.observed[o].1,
                        observe_model(old(self)@.observed[o].2, *event),
                    )),
                    ..old(self)@
                },
                None => old(self)@,
            },
    {
        let session = session_of(event);
        match self.find_observed(session) {
            Some(o) => {
                let ghost m = self@;
                let entry = &mut self.observed[o];
                entry.2.observe(event);
                proof {
                    assert(self@.observed =~= m.observed.update(o as int, (m.observed[o as int].0, m.observed[o as int].1, observe_model(m.observed[o as int].2, *event))));
                    let ob = self@.observed;
                    assert forall|i: int, j: int| 0 <= i < ob.len() && 0 <= j < ob.len() && i != j implies ob[i].0 != ob[j].0 by {
                        assert(ob[i].0 == m.observed[i].0 && ob[j].0 == m.observed[j].0);
                    }
                    assert forall|i: int| 0 <= i < ob.len() implies wf_observed((#[trigger] ob[i]).2) by {
                        if i != o {
                            assert(ob[i] == m.observed[i]);
                        }
                    }
                    assert(self@.pending == m.pending);
                    assert(self@.attachments == m.attachments);
                    assert(self@.preparing == m.preparing);
                    assert(self@.prepared == m.prepared);
                    assert(cleanup_inv(self@));
                }
            },
            None => {},
        }
    }

    /// The reattachment `request` is carried out now, unless a newer request
    /// replaced it: whether it was still the one waiting.
    pub fn take_attachment(&mut self, request: &Reattachment) -> (r: bool)
        requires
            cleanup_inv(old(self)@),
        ensures
            cleanup_inv(final(self)@),
            match attachment_of(old(self)@.attachments, conversation_of(request@)) {
                Some(k) if old(self)@.attachments[k].id == request.id => r && final(self)@ == (CleanupModel {
                    attachments: old(self)@.attachments.remove(k),
                    ..old(self)@
                }),
                _ => !r && final(self)@ == old(self)@,
            },
    {
        match self.find_attachment(&request.conversation) {
            Some(k) => {
                assert(self@.attachments[k as int] == self.attachments@[k as int]@);
                if self.attachments[k].id != request.id {
                    return false;
                }
                let ghost m = self@;
                let _ = self.attachments.remove(k);
                proof {
                    assert(self@.attachments =~= m.attachments.remove(k as int));
                    let a = self@.attachments;
                    assert forall|i: int, j: int| 0 <= i < a.len() && 0 <= j < a.len() && i != j
                        implies conversation_of(a[i]) != conversation_of(a[j]) by {
                        let i0 = if i < k { i } else { i + 1 };
                        let j0 = if j < k { j } else { j + 1 };
                        assert(a[i] == m.attachments[i0] && a[j] == m.attachments[j0]);
                    }
                }
                true
            },
            None => false,
        }
    }

    /// The next reattachment to carry out, in order.
    pub fn next_attachment(&mut self) -> (r: Option<Reattachment>)
        requires
            cleanup_inv(old(self)@),
        ensures
            cleanup_inv(final(self)@),
            old(self)@.ready.len() == 0 ==> r is None && final(self)@ == old(self)@,
            old(self)@.ready.len() > 0 ==> (r matches Some(x) && x@ == old(self)@.ready[0]
                && final(self)@ == (CleanupModel { ready: old(self)@.ready.drop_first(), ..old(self)@ })),
    {
        if self.ready.len() == 0 {
            return None;
        }
        let ghost m = self@;
        let r = self.ready.remove(0);
        assert(reattach_view(self.ready@) =~= m.ready.drop_first());
        Some(r)
    }

    fn find_preparing(&self, id: u128) -> (r: Option<usize>)
        requires
            cleanup_inv(self@),
        ensures
            match r {
                Some(i) => preparing_of(self@.preparing, id) == Some(i as int) && i < self@.preparing.len(),
                None => preparing_of(self@.preparing, id) is None,
            },
    {
        let ghost v = self@.preparing;
        let mut i: usize = 0;
        while i < self.preparing.len()
            invariant
                i <= self.preparing.len(),
                v == self@.preparing,
                cleanup_inv(self@),
                forall|j: int| 0 <= j < i ==> v[j].0 != id,
            decreases self.preparing.len() - i,
        {
            assert(v[i as int].0 == self.preparing@[i as int].0);
            if self.preparing[i].0 == id {
                proof {
                    let k = choose|k: int| 0 <= k < v.len() && (#[trigger] v[k]).0 == id;
                    if k != i {
                        assert(v[k].0 != v[i as int].0);
                    }
                }
                return Some(i);
            }
            i = i + 1;
        }
        None
    }

    fn find_prepared(&self, id: u128) -> (r: Option<usize>)
        requires
            cleanup_inv(self@),
        ensures
            match r {
                Some(i) => prepared_of(self@.prepared, id) == Some(i as int) && i < self@.prepared.len(),
                None => prepared_of(self@.prepared, id) is None,
            },
    {
        let ghost v = self@.prepared;
        let mut i: usize = 0;
        while i < self.prepared.len()
            invariant
                i <= self.prepared.len(),
                v == self@.prepared,
                cleanup_inv(self@),
                forall|j: int| 0 <= j < i ==> v[j].0 != id,
            decreases self.prepared.len() - i,
        {
            if self.prepared[i].0 == id {
                proof {
                    let k = choose|k: int| 0 <= k < v.len() && (#[trigger] v[k]).0 == id;
                    if k != i {
                        assert(v[k].0 != v[i as int].0);
                    }
                }
                return Some(i);
            }
            i = i + 1;
        }
        None
    }

    fn preparations(&self, session: &SessionId) -> (r: Vec<u128>)
        ensures
            r@ == preparations_for(self@.preparing, session@),
    {
        let mut r: Vec<u128> = Vec::new();
        let mut i: usize = 0;
        while i < self.preparing.len()
            invariant
                i <= self.preparing.len(),
                r@ == preparations_for(self@.preparing.take(i as int), session@),
            decreases self.preparing.len() - i,
        {
            proof {
                assert(self@.preparing.take(i + 1).drop_last() =~= self@.preparing.take(i as int));
                assert(self@.preparing.take(i + 1).last() == (self.preparing@[i as int].0, self.preparing@[i as int].1@));
            }
            if self.preparing[i].1.same(session) {
                r.push(self.preparing[i].0);
            }
            i = i + 1;
        }
        assert(self@.preparing.take(i as int) =~= self@.preparing);
        r
    }

    /// Start preparing `request` (attach, then read the newest history page)
    /// and observe its session meanwhile. Refused when too many run. The
    /// preparations of the same session to wait for first, and whether its
    /// unsubscribe runs (to wait for too).
    pub fn prepare(&mut self, request: Reattachment) -> (r: Result<(Vec<u128>, bool), String>)
        requires
            cleanup_inv(old(self)@),
        ensures
            cleanup_inv(final(self)@),
            ({
                let m = old(self)@;
                let q = request@;
                if m.preparing.len() >= CLEANUP_CAPACITY {
                    r matches Err(e) && e@ == "Too many connections are pending; try again shortly."@ && final(self)@ == m
                } else {
                    &&& r matches Ok(w) && w.0@ == preparations_for(m.preparing, q.session) && w.1 == m.pending.contains(q.session)
                    &&& final(self)@ == (CleanupModel {
                        preparing: preparing_insert(m.preparing, q.id, q.session),
                        attachments: attachments_insert(m.attachments, q),
                        observed: observed_insert(m.observed, q.session, q.id),
                        ..m
                    })
                }
            }),
    {
        if self.preparing.len() >= CLEANUP_CAPACITY {
            return Err(owned("Too many connections are pending; try again shortly."));
        }
        let ghost m = self@;
        let ghost q = request@;
        let predecessors = self.preparations(&request.session);
        let cleanup = self.has_pending(&request.session);
        match self.find_preparing(request.id) {
            Some(k) => {
                self.preparing.set(k, (request.id, request.session.duplicate()));
                proof {
                    assert(self@.preparing =~= m.preparing.update(k as int, (q.id, q.session)));
                    let p = self@.preparing;
                    assert forall|i: int, j: int| 0 <= i < p.len() && 0 <= j < p.len() && i != j implies p[i].0 != p[j].0 by {
                        assert(p[i].0 == m.preparing[i].0 && p[j].0 == m.preparing[j].0);
                    }
                }
            },
            None => {
                self.preparing.push((request.id, request.session.duplicate()));
                proof {
                    assert(self@.preparing =~= m.preparing.push((q.id, q.session)));
                    let p = self@.preparing;
                    assert forall|i: int, j: int| 0 <= i < p.len() && 0 <= j < p.len() && i != j implies p[i].0 != p[j].0 by {
                        if i < m.preparing.len() {
                            assert(p[i] == m.preparing[i]);
                        }
                        if j < m.preparing.len() {
                            assert(p[j] == m.preparing[j]);
                        }
                    }
                }
            },
        }
        let ghost m1 = self@;
        match self.find_observed(request.session.as_str()) {
            Some(k) => {
                self.observed.set(k, (request.session.duplicate(), request.id, AttachmentHistory::new()));
                proof {
                    assert(self@.observed =~= m1.observed.update(k as int, (q.session, q.id, Seq::<ObservedModel>::empty())));
                    let ob = self@.observed;
                    assert forall|i: int, j: int| 0 <= i < ob.len() && 0 <= j < ob.len() && i != j implies ob[i].0 != ob[j].0 by {
                        assert(ob[i].0 == m1.observed[i].0 && ob[j].0 == m1.observed[j].0);
                    }
                    assert forall|i: int| 0 <= i < ob.len() implies wf_observed((#[trigger] ob[i]).2) by {
                        if i != k {
                            assert(ob[i] == m1.observed[i]);
                        }
                    }
                }
            },
            None => {
                self.observed.push((request.session.duplicate(), request.id, AttachmentHistory::new()));
                proof {
                    assert(self@.observed =~= m1.observed.push((q.session, q.id, Seq::<ObservedModel>::empty())));
                    let ob = self@.observed;
                    assert forall|i: int, j: int| 0 <= i < ob.len() && 0 <= j < ob.len() && i != j implies ob[i].0 != ob[j].0 by {
                        if i < m1.observed.len() {
                            assert(ob[i] == m1.observed[i]);
                        }
                        if j < m1.observed.len() {
                            assert(ob[j] == m1.observed[j]);
                        }
                    }
                    assert forall|i: int| 0 <= i < ob.len() implies wf_observed((#[trigger] ob[i]).2) by {
                        if i < m1.observed.len() {
                            assert(ob[i] == m1.observed[i]);
                        }
                    }
                }
            },
        }
        let ghost m2 = self@;
        match self.find_attachment(&request.conversation) {
            Some(k) => {
                self.attachments.set(k, request);
            },
            None => {
                self.attachments.push(request);
            },
        }
        proof {
            assert(self@.attachments =~= attachments_insert(m2.attachments, q));
            lemma_attachments_insert(m2.attachments, q);
        }
        Ok((predecessors, cleanup))
    }

    /// The preparation of `request` finished with `result`: kept for it, and
    /// the request is ready to carry out.
    pub fn preparation_finished(&mut self, request: Reattachment, result: Result<HistoryPage, AgentError>)
        requires
            cleanup_inv(old(self)@),
        ensures
            cleanup_inv(final(self)@),
            final(self)@ == (CleanupModel {
                prepared: match prepared_of(old(self)@.prepared, request@.id) {
                    Some(k) => old(self)@.prepared.update(k, (request@.id, result)),
                    None => old(self)@.prepared.push((request@.id, result)),
                },
                ready: old(self)@.ready.push(request@),
                ..old(self)@
            }),
    {
        let ghost m = self@;
        let ghost q = request@;
        match self.find_prepared(request.id) {
            Some(k) => {
                self.prepared.set(k, (request.id, result));
                proof {
                    assert(self@.prepared =~= m.prepared.update(k as int, (q.id, result)));
                    let p = self@.prepared;
                    assert forall|i: int, j: int| 0 <= i < p.len() && 0 <= j < p.len() && i != j implies p[i].0 != p[j].0 by {
                        assert(p[i].0 == m.prepared[i].0 && p[j].0 == m.prepared[j].0);
                    }
                }
            },
            None => {
                self.prepared.push((request.id, result));
                proof {
                    assert(self@.prepared =~= m.prepared.push((q.id, result)));
                    let p = self@.prepared;
                    assert forall|i: int, j: int| 0 <= i < p.len() && 0 <= j < p.len() && i != j implies p[i].0 != p[j].0 by {
                        if i < m.prepared.len() {
                            assert(p[i] == m.prepared[i]);
                        }
                        if j < m.prepared.len() {
                            assert(p[j] == m.prepared[j]);
                        }
                    }
                }
            },
        }
        let ghost rb = self@.ready;
        self.ready.push(request);
        assert(reattach_view(self.ready@) =~= rb.push(q));
        proof {
            assert(self@.pending == m.pending);
            assert(self@.attachments == m.attachments);
            assert(self@.preparing == m.preparing);
            assert(self@.observed == m.observed);
        }
    }

    /// Take the result prepared for `request`, completed with the turns
    /// observed for it meanwhile; its preparation and ready entries are done.
    pub fn take_prepared(&mut self, request: &Reattachment) -> (r: Option<Result<HistoryPage, AgentError>>)
        requires
            cleanup_inv(old(self)@),
        ensures
            cleanup_inv(final(self)@),
            ({
                let m = old(self)@;
                let q = request@;
                match prepared_of(m.prepared, q.id) {
                    None => r is None && final(self)@ == m,
                    Some(p) => {
                        let observed = match observed_of(m.observed, q.session) {
                            Some(o) => if m.observed[o].1 == q.id { Some(m.observed[o].2) } else { None },
                            None => None,
                        };
                        &&& r matches Some(x) && completed_result(x, m.prepared[p].1, observed)
                        &&& final(self)@ == (CleanupModel {
                            prepared: m.prepared.remove(p),
                            observed: match observed_of(m.observed, q.session) {
                                Some(o) => if m.observed[o].1 == q.id { m.observed.remove(o) } else { m.observed },
                                None => m.observed,
                            },
                            preparing: match preparing_of(m.preparing, q.id) {
                                Some(k) => m.preparing.remove(k),
                                None => m.preparing,
                            },
                            ready: reattach_without(m.ready, |x: ReattachModel| x.id == q.id),
                            ..m
                        })
                    },
                }
            }),
    {
        let p = match self.find_prepared(request.id) {
            Some(p) => p,
            None => return None,
        };
        let ghost m = self@;
        let (_, mut result) = self.prepared.remove(p);
        proof {
            assert(self@.prepared =~= m.prepared.remove(p as int));
            let pr = self@.prepared;
            assert forall|i: int, j: int| 0 <= i < pr.len() && 0 <= j < pr.len() && i != j implies pr[i].0 != pr[j].0 by {
                let i0 = if i < p { i } else { i + 1 };
                let j0 = if j < p { j } else { j + 1 };
                assert(pr[i] == m.prepared[i0] && pr[j] == m.prepared[j0]);
            }
            assert(self@.pending == m.pending);
            assert(self@.attachments == m.attachments);
            assert(self@.preparing == m.preparing);
            assert(self@.observed == m.observed);
            assert(cleanup_inv(self@));
        }
        let ghost m1 = self@;
        match self.find_observed(request.session.as_str()) {
            Some(o) => {
                if self.observed[o].1 == request.id {
                    let (_, _, observed) = self.observed.remove(o);
                    proof {
                        assert(self@.observed =~= m1.observed.remove(o as int));
                        let ob = self@.observed;
                        assert forall|i: int, j: int| 0 <= i < ob.len() && 0 <= j < ob.len() && i != j
                            implies ob[i].0 != ob[j].0 by {
                            let i0 = if i < o { i } else { i + 1 };
                            let j0 = if j < o { j } else { j + 1 };
                            assert(ob[i] == m1.observed[i0] && ob[j] == m1.observed[j0]);
                        }
                        assert forall|i: int| 0 <= i < ob.len() implies wf_observed((#[trigger] ob[i]).2) by {
                            let i0 = if i < o { i } else { i + 1 };
                            assert(ob[i] == m1.observed[i0]);
                        }
                    }
                    proof {
                        assert(self@.pending == m1.pending);
                        assert(self@.attachments == m1.attachments);
                        assert(self@.preparing == m1.preparing);
                        assert(self@.prepared == m1.prepared);
                        assert(cleanup_inv(self@));
                    }
                    match &mut result {
                        Ok(history) => {
                            observed.merge(history);
                        },
                        Err(_) => {},
                    }
                }
            },
            None => {},
        }
        assert(cleanup_inv(self@));
        let ghost m2 = self@;
        match self.find_preparing(request.id) {
            Some(k) => {
                let _ = self.preparing.remove(k);
                proof {
                    assert(self@.preparing =~= m2.preparing.remove(k as int));
                    let pp = self@.preparing;
                    assert forall|i: int, j: int| 0 <= i < pp.len() && 0 <= j < pp.len() && i != j implies pp[i].0 != pp[j].0 by {
                        let i0 = if i < k { i } else { i + 1 };
                        let j0 = if j < k { j } else { j + 1 };
                        assert(pp[i] == m2.preparing[i0] && pp[j] == m2.preparing[j0]);
                    }
                }
            },
            None => {},
        }
        let ghost id = request.id;
        self.retain_ready(Ghost(|x: ReattachModel| x.id == id), &request.conversation, Some(request.id));
        Some(result)
    }

    /// Unsubscribe `session` now that no binding needs it, unless a
    /// reattachment still does, one already runs, or too many run. Started
    /// unsubscribes wait for the session's running preparations.
    pub fn enqueue(&mut self, session: &SessionId) -> (r: Unsubscribe)
        requires
            cleanup_inv(old(self)@),
        ensures
            cleanup_inv(final(self)@),
            ({
                let m = old(self)@;
                if has_attachment_for(m.attachments, session@) {
                    r is Retained && final(self)@ == m
                } else if m.pending.contains(session@) {
                    r is Running && final(self)@ == m
                } else if m.pending.len() >= CLEANUP_CAPACITY {
                    r is Full && final(self)@ == m
                } else {
                    &&& r matches Unsubscribe::Started(w) && w@ == preparations_for(m.preparing, session@)
                    &&& final(self)@ == (CleanupModel { pending: m.pending.push(session@), ..m })
                }
            }),
    {
        if self.has_attachment(session) {
            return Unsubscribe::Retained;
        }
        if self.has_pending(session) {
            return Unsubscribe::Running;
        }
        if self.pending.len() >= CLEANUP_CAPACITY {
            return Unsubscribe::Full;
        }
        let ghost m = self@;
        let waits = self.preparations(session);
        self.pending.push(session.duplicate());
        proof {
            assert(self@.pending =~= m.pending.push(session@));
            let ps = self@.pending;
            assert forall|i: int, j: int| 0 <= i < ps.len() && 0 <= j < ps.len() && i != j implies ps[i] != ps[j] by {
                if i < m.pending.len() && j < m.pending.len() {
                    assert(ps[i] == m.pending[i] && ps[j] == m.pending[j]);
                } else if i < m.pending.len() {
                    assert(ps[i] == m.pending[i]);
                } else {
                    assert(ps[j] == m.pending[j]);
                }
            }
        }
        Unsubscribe::Started(waits)
    }

    /// The unsubscribe of `session` ended: the session's reattachments not
    /// yet prepared become ready.
    pub fn unsubscribe_finished(&mut self, session: &SessionId)
        requires
            cleanup_inv(old(self)@),
        ensures
            cleanup_inv(final(self)@),
            final(self)@ == (CleanupModel {
                pending: sessions_without(old(self)@.pending, session@),
                ready: old(self)@.ready + unprepared_for(old(self)@.attachments, session@),
                ..old(self)@
            }),
    {
        let ghost m = self@;
        let mut kept: Vec<SessionId> = Vec::new();
        let mut i: usize = 0;
        while i < self.pending.len()
            invariant
                i <= self.pending.len(),
                self@ == m,
                kept@.map_values(|s: SessionId| s@) == sessions_without(m.pending.take(i as int), session@),
            decreases self.pending.len() - i,
        {
            let ghost before = kept@.map_values(|s: SessionId| s@);
            proof {
                assert(m.pending.take(i + 1).drop_last() =~= m.pending.take(i as int));
                assert(m.pending.take(i + 1).last() == self.pending@[i as int]@);
            }
            if !self.pending[i].same(session) {
                kept.push(self.pending[i].duplicate());
                assert(kept@.map_values(|s: SessionId| s@) =~= before.push(m.pending[i as int]));
            }
            i = i + 1;
        }
        let mut j: usize = 0;
        let ghost rb = self@.ready;
        while j < self.attachments.len()
            invariant
                j <= self.attachments.len(),
                self@ == (CleanupModel { ready: self@.ready, ..m }),
                self@.ready == rb + unprepared_for(m.attachments.take(j as int), session@),
                rb == m.ready,
            decreases self.attachments.len() - j,
        {
            proof {
                assert(m.attachments.take(j + 1).drop_last() =~= m.attachments.take(j as int));
                assert(m.attachments.take(j + 1).last() == self.attachments@[j as int]@);
            }
            let ghost before = self@.ready;
            if self.attachments[j].session.same(session) && !self.attachments[j].prepared {
                let copy = self.attachments[j].duplicate();
                self.ready.push(copy);
                assert(reattach_view(self.ready@) =~= before.push(copy@));
            }
            j = j + 1;
        }
        proof {
            assert(m.pending.take(m.pending.len() as int) =~= m.pending);
            assert(m.attachments.take(m.attachments.len() as int) =~= m.attachments);
        }
        let ghost kv = kept@.map_values(|s: SessionId| s@);
        self.pending = kept;
        proof {
            let ps = self@.pending;
            assert(ps == kv);
            lemma_sessions_without(m.pending, session@);
        }
    }

    /// Stop everything: nothing is held afterwards (the runtime aborts the work).
    pub fn abort(&mut self)
        ensures
            cleanup_inv(final(self)@),
            final(self)@ == (CleanupModel {
                pending: Seq::empty(),
                attachments: Seq::empty(),
                ready: Seq::empty(),
                preparing: Seq::empty(),
                prepared: Seq::empty(),
                observed: Seq::empty(),
            }),
    {
        *self = SubscriptionCleanup::new();
    }
}

/// A cancelled reattachment is gone: its conversation has none waiting, so
/// it is never carried out.
pub proof fn cancelled_reattachment_is_gone(m: CleanupModel, conversation: (ChannelKind, Seq<char>))
    requires
        cleanup_inv(m),
        attachment_of(m.attachments, conversation) is Some,
    ensures
        attachment_of(m.attachments.remove(attachment_of(m.attachments, conversation).unwrap()), conversation) is None,
{
    let k = attachment_of(m.attachments, conversation).unwrap();
    let a = m.attachments.remove(k);
    if attachment_of(a, conversation) is Some {
        let j = attachment_of(a, conversation).unwrap();
        let j0 = if j < k { j } else { j + 1 };
        assert(a[j] == m.attachments[j0]);
        assert(conversation_of(m.attachments[j0]) == conversation_of(m.attachments[k]));
    }
}

/// The newest request of a conversation is the one waiting: an older one is
/// no longer taken.
pub proof fn newest_reattachment_waits(m: CleanupModel, request: ReattachModel)
    requires
        cleanup_inv(m),
    ensures
        ({
            let a = attachments_insert(m.attachments, request);
            attachment_of(a, conversation_of(request)) matches Some(k) && a[k] == request
        }),
{
    let a = attachments_insert(m.attachments, request);
    lemma_attachments_insert(m.attachments, request);
    let k = match attachment_of(m.attachments, conversation_of(request)) {
        Some(k) => k,
        None => m.attachments.len() as int,
    };
    assert(a[k] == request);
    assert(attachment_of(a, conversation_of(request)) is Some);
    let j = attachment_of(a, conversation_of(request)).unwrap();
    if j != k {
        assert(conversation_of(a[j]) == conversation_of(a[k]));
    }
}

/// The session an event is about.
pub open spec fn event_session(e: AgentEvent) -> Seq<char> {
    match e {
        AgentEvent::TurnStarted { session_id, .. } => session_id@,
        AgentEvent::TurnCompleted { session_id, .. } => session_id@,
        AgentEvent::UserMessage { session_id, .. } => session_id@,
        AgentEvent::AgentMessageDelta { session_id, .. } => session_id@,
        AgentEvent::ItemStarted { session_id, .. } => session_id@,
        AgentEvent::ItemCompleted { session_id, .. } => session_id@,
        AgentEvent::SessionStatusChanged { session_id, .. } => session_id@,
        AgentEvent::SessionExited { session_id } => session_id@,
    }
}

/// The session an event is about.
pub fn session_of(event: &AgentEvent) -> (r: &str)
    ensures
        r@ == event_session(*event),
{
    match event {
        AgentEvent::TurnStarted { session_id, .. } => session_id.as_str(),
        AgentEvent::TurnCompleted { session_id, .. } => session_id.as_str(),
        AgentEvent::UserMessage { session_id, .. } => session_id.as_str(),
        AgentEvent::AgentMessageDelta { session_id, .. } => session_id.as_str(),
        AgentEvent::ItemStarted { session_id, .. } => session_id.as_str(),
        AgentEvent::ItemCompleted { session_id, .. } => session_id.as_str(),
        AgentEvent::SessionStatusChanged { session_id, .. } => session_id.as_str(),
        AgentEvent::SessionExited { session_id } => session_id.as_str(),
    }
}

proof fn lemma_unprepared_for(atts: Seq<ReattachModel>, session: Seq<char>)
    ensures
        forall|k: int| 0 <= k < unprepared_for(atts, session).len() ==> {
            let r = #[trigger] unprepared_for(atts, session)[k];
            &&& r.session == session
            &&& !r.prepared
            &&& atts.contains(r)
        },
        forall|i: int| 0 <= i < atts.len() && (#[trigger] atts[i]).session == session && !atts[i].prepared
            ==> unprepared_for(atts, session).contains(atts[i]),
    decreases atts.len(),
{
    if atts.len() > 0 {
        let d = atts.drop_last();
        lemma_unprepared_for(d, session);
        let rest = unprepared_for(d, session);
        let u = unprepared_for(atts, session);
        assert forall|k: int| 0 <= k < u.len() implies {
            let r = #[trigger] u[k];
            &&& r.session == session
            &&& !r.prepared
            &&& atts.contains(r)
        } by {
            if k < rest.len() {
                assert(u[k] == rest[k]);
                let r = rest[k];
                assert(d.contains(r));
                let i = choose|i: int| 0 <= i < d.len() && d[i] == r;
                assert(atts[i] == d[i]);
            } else {
                assert(u[k] == atts.last());
                assert(atts[atts.len() - 1] == atts.last());
            }
        }
        assert forall|i: int| 0 <= i < atts.len() && (#[trigger] atts[i]).session == session && !atts[i].prepared
            implies u.contains(atts[i]) by {
            if i < d.len() {
                assert(d[i] == atts[i]);
                assert(rest.contains(d[i]));
                let k = choose|k: int| 0 <= k < rest.len() && rest[k] == d[i];
                assert(u[k] == rest[k]);
            } else {
                assert(atts[i] == atts.last());
                assert(u[u.len() - 1] == atts.last());
            }
        }
    }
}

/// When the unsubscribe of `session` finishes, the reattachments that become
/// ready are exactly its waiting reattachments not prepared yet: each one
/// released is of `session` and unprepared, and each such one is released;
/// the reattachments of other sessions keep waiting for their own.
pub proof fn finished_unsubscribe_releases_only_its_session(m: CleanupModel, session: Seq<char>)
    ensures
        ({
            let ready = m.ready + unprepared_for(m.attachments, session);
            &&& forall|k: int| m.ready.len() <= k < ready.len() ==> {
                &&& (#[trigger] ready[k]).session == session
                &&& !ready[k].prepared
                &&& m.attachments.contains(ready[k])
            }
            &&& forall|i: int| 0 <= i < m.attachments.len() && (#[trigger] m.attachments[i]).session == session
                && !m.attachments[i].prepared ==> ready.subrange(m.ready.len() as int, ready.len() as int).contains(
                m.attachments[i],
            )
        }),
{
    lemma_unprepared_for(m.attachments, session);
    let u = unprepared_for(m.attachments, session);
    let ready = m.ready + u;
    assert(ready.subrange(m.ready.len() as int, ready.len() as int) =~= u);
    assert forall|k: int| m.ready.len() <= k < ready.len() implies {
        &&& (#[trigger] ready[k]).session == session
        &&& !ready[k].prepared
        &&& m.attachments.contains(ready[k])
    } by {
        assert(ready[k] == u[k - m.ready.len()]);
    }
}

proof fn lemma_sessions_without_members(ps: Seq<Seq<char>>, session: Seq<char>)
    ensures
        !sessions_without(ps, session).contains(session),
        forall|x: Seq<char>| x != session && #[trigger] ps.contains(x) ==> sessions_without(ps, session).contains(x),
        forall|x: Seq<char>| #[trigger] sessions_without(ps, session).contains(x) ==> ps.contains(x),
    decreases ps.len(),
{
    if ps.len() > 0 {
        let d = ps.drop_last();
        lemma_sessions_without_members(d, session);
        let rest = sessions_without(d, session);
        let f = sessions_without(ps, session);
        if ps.last() != session {
            assert(f == rest.push(ps.last()));
        }
        assert(!f.contains(session)) by {
            if f.contains(session) {
                let i = choose|i: int| 0 <= i < f.len() && f[i] == session;
                if i < rest.len() {
                    assert(f[i] == rest[i]);
                    assert(rest.contains(session));
                }
            }
        }
        assert forall|x: Seq<char>| x != session && #[trigger] ps.contains(x) implies f.contains(x) by {
            let i = choose|i: int| 0 <= i < ps.len() && ps[i] == x;
            if i < d.len() {
                assert(d[i] == x);
                assert(d.contains(x));
                let j = choose|j: int| 0 <= j < rest.len() && rest[j] == x;
                assert(f[j] == rest[j]);
            } else {
                assert(f[f.len() - 1] == x);
            }
        }
        assert forall|x: Seq<char>| #[trigger] f.contains(x) implies ps.contains(x) by {
            let i = choose|i: int| 0 <= i < f.len() && f[i] == x;
            if i < rest.len() {
                assert(f[i] == rest[i]);
                assert(rest.contains(x));
                assert(d.contains(x));
                let j = choose|j: int| 0 <= j < d.len() && d[j] == x;
                assert(ps[j] == d[j]);
            } else {
                assert(ps[ps.len() - 1] == x);
            }
        }
    }
}

/// Once the unsubscribe of `session` finishes, `session` is no longer
/// unsubscribing, and every other session still is exactly when it was.
pub proof fn finished_unsubscribe_ends_only_its_session(m: CleanupModel, session: Seq<char>, other: Seq<char>)
    requires
        other != session,
    ensures
        !sessions_without(m.pending, session).contains(session),
        sessions_without(m.pending, session).contains(other) == m.pending.contains(other),
{
    lemma_sessions_without_members(m.pending, session);
}

} // verus!
