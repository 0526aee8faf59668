//! Optional reads of a turn's user input: admitted once per turn, run with
//! bounded concurrency and applied only while their request is current.
//! The runtime performs the reads this state starts.
use vstd::prelude::*;
use crate::domain::DeliveryClass;
use crate::model::{ChannelKind, ConversationRef, SessionId, TurnKey, keys_view};
use crate::session::AgentError;
use crate::text::{blank, is_blank};

verus! {

/// Reads running at once.
pub const READ_CONCURRENCY: usize = 8;

/// A registered read and the context its result must still match.
#[derive(Debug)]
pub struct RecoveryRequest {
    pub id: u64,
    pub conversation: ConversationRef,
    pub delivery: DeliveryClass,
    pub epoch: u64,
    pub generation: u64,
}

/// A finished read: the turn and request it was for, and what the agent
/// returned.
#[derive(Debug)]
pub struct RecoveredInput {
    pub session: SessionId,
    pub conversation: ConversationRef,
    pub id: u64,
    pub turn: String,
    pub text: Result<Option<String>, AgentError>,
}

/// A registered read as a value.
pub struct RequestModel {
    pub id: u64,
    pub conversation: (ChannelKind, Seq<char>),
    pub delivery: DeliveryClass,
    pub epoch: u64,
    pub generation: u64,
}

impl View for RecoveryRequest {
    type V = RequestModel;

    open spec fn view(&self) -> RequestModel {
        RequestModel {
            id: self.id,
            conversation: (self.conversation.channel, self.conversation.conversation_id@),
            delivery: self.delivery,
            epoch: self.epoch,
            generation: self.generation,
        }
    }
}

pub struct InputRecovery {
    next_id: u64,
    closed: bool,
    requests: Vec<(TurnKey, RecoveryRequest)>,
    waiting: Vec<TurnKey>,
    reads: usize,
}

pub struct RecoveryModel {
    pub next_id: u64,
    pub closed: bool,
    pub requests: Seq<((Seq<char>, Seq<char>), RequestModel)>,
    pub waiting: Seq<(Seq<char>, Seq<char>)>,
    pub reads: nat,
}

impl View for InputRecovery {
    type V = RecoveryModel;

    closed spec fn view(&self) -> RecoveryModel {
        RecoveryModel {
            next_id: self.next_id,
            closed: self.closed,
            requests: self.requests@.map_values(|e: (TurnKey, RecoveryRequest)| (e.0@, e.1@)),
            waiting: keys_view(self.waiting@),
            reads: self.reads as nat,
        }
    }
}

pub open spec fn request_keys(requests: Seq<((Seq<char>, Seq<char>), RequestModel)>) -> Seq<(Seq<char>, Seq<char>)> {
    requests.map_values(|e: ((Seq<char>, Seq<char>), RequestModel)| e.0)
}

/// At most one request per turn, ids below the next id, bounded reads.
pub open spec fn recovery_inv(m: RecoveryModel) -> bool {
    &&& m.reads <= READ_CONCURRENCY
    &&& forall|i: int, j: int| 0 <= i < m.requests.len() && 0 <= j < m.requests.len() && i != j
        ==> m.requests[i].0 != m.requests[j].0 && m.requests[i].1.id != m.requests[j].1.id
    &&& forall|i: int| 0 <= i < m.requests.len() ==> (#[trigger] m.requests[i]).1.id < m.next_id
    &&& (m.closed ==> m.requests.len() == 0 && m.waiting.len() == 0)
}

/// Reads started from the front of the waiting queue while a slot is free; a
/// waiting turn whose request is gone is dropped. The state after, and the
/// turns whose reads start, in order.
pub open spec fn start_reads_model(m: RecoveryModel) -> (RecoveryModel, Seq<(Seq<char>, Seq<char>)>)
    decreases m.waiting.len(),
{
    if m.reads >= READ_CONCURRENCY || m.waiting.len() == 0 {
        (m, Seq::empty())
    } else {
        let key = m.waiting[0];
        let rest = RecoveryModel { waiting: m.waiting.drop_first(), ..m };
        if request_keys(m.requests).contains(key) {
            let next = start_reads_model(RecoveryModel { reads: m.reads + 1, ..rest });
            (next.0, seq![key] + next.1)
        } else {
            start_reads_model(rest)
        }
    }
}

/// `requests` without those of `session`'s turns.
pub open spec fn requests_outside(requests: Seq<((Seq<char>, Seq<char>), RequestModel)>, session: Seq<char>) -> Seq<((Seq<char>, Seq<char>), RequestModel)>
    decreases requests.len(),
{
    if requests.len() == 0 {
        Seq::empty()
    } else {
        let rest = requests_outside(requests.drop_last(), session);
        if requests.last().0.0 == session { rest } else { rest.push(requests.last()) }
    }
}

/// `keys` without `session`'s turns.
pub open spec fn keys_outside(keys: Seq<(Seq<char>, Seq<char>)>, session: Seq<char>) -> Seq<(Seq<char>, Seq<char>)>
    decreases keys.len(),
{
    if keys.len() == 0 {
        Seq::empty()
    } else {
        let rest = keys_outside(keys.drop_last(), session);
        if keys.last().0 == session { rest } else { rest.push(keys.last()) }
    }
}

proof fn lemma_requests_outside(requests: Seq<((Seq<char>, Seq<char>), RequestModel)>, session: Seq<char>)
    ensures
        forall|i: int| 0 <= i < requests_outside(requests, session).len() ==>
            requests.contains(#[trigger] requests_outside(requests, session)[i]),
    decreases requests.len(),
{
    if requests.len() > 0 {
        let rest = requests.drop_last();
        lemma_requests_outside(rest, session);
        let out = requests_outside(requests, session);
        assert forall|i: int| 0 <= i < out.len() implies requests.contains(#[trigger] out[i]) by {
            if i < requests_outside(rest, session).len() {
                let e = requests_outside(rest, session)[i];
                let j = choose|j: int| 0 <= j < rest.len() && rest[j] == e;
                assert(requests[j] == e);
            } else {
                assert(out[i] == requests[requests.len() - 1]);
            }
        }
    }
}

proof fn lemma_requests_outside_distinct(requests: Seq<((Seq<char>, Seq<char>), RequestModel)>, session: Seq<char>)
    requires
        forall|i: int, j: int| 0 <= i < requests.len() && 0 <= j < requests.len() && i != j
            ==> requests[i].0 != requests[j].0 && requests[i].1.id != requests[j].1.id,
    ensures
        ({
            let out = requests_outside(requests, session);
            forall|i: int, j: int| 0 <= i < out.len() && 0 <= j < out.len() && i != j
                ==> out[i].0 != out[j].0 && out[i].1.id != out[j].1.id
        }),
    decreases requests.len(),
{
    if requests.len() > 0 {
        let rest = requests.drop_last();
        lemma_requests_outside_distinct(rest, session);
        lemma_requests_outside(rest, session);
        let prev = requests_outside(rest, session);
        let out = requests_outside(requests, session);
        let last = requests.last();
        if last.0.0 != session {
            assert forall|i: int, j: int| 0 <= i < out.len() && 0 <= j < out.len() && i != j
                implies out[i].0 != out[j].0 && out[i].1.id != out[j].1.id by {
                if i < prev.len() && j < prev.len() {
                    assert(out[i] == prev[i] && out[j] == prev[j]);
                } else {
                    let k = if i < prev.len() { i } else { j };
                    assert(rest.contains(prev[k]));
                    let t = choose|t: int| 0 <= t < rest.len() && rest[t] == prev[k];
                    assert(requests[t] == prev[k]);
                    assert(requests[requests.len() - 1] == last);
                }
            }
        }
    }
}

/// Filtering a sequence from its front: the first element, then the rest.
proof fn lemma_outside_front(requests: Seq<((Seq<char>, Seq<char>), RequestModel)>, session: Seq<char>)
    requires
        requests.len() > 0,
    ensures
        requests_outside(requests, session) == (if requests[0].0.0 == session {
            Seq::empty()
        } else {
            seq![requests[0]]
        }) + requests_outside(requests.drop_first(), session),
    decreases requests.len(),
{
    if requests.len() == 1 {
        assert(requests.drop_last() =~= Seq::<((Seq<char>, Seq<char>), RequestModel)>::empty());
        assert(requests.drop_first() =~= Seq::<((Seq<char>, Seq<char>), RequestModel)>::empty());
    } else {
        lemma_outside_front(requests.drop_last(), session);
        assert(requests.drop_last().drop_first() =~= requests.drop_first().drop_last());
        assert(requests.drop_first().last() == requests.last());
    }
}

proof fn lemma_keys_outside_front(keys: Seq<(Seq<char>, Seq<char>)>, session: Seq<char>)
    requires
        keys.len() > 0,
    ensures
        keys_outside(keys, session) == (if keys[0].0 == session {
            Seq::empty()
        } else {
            seq![keys[0]]
        }) + keys_outside(keys.drop_first(), session),
    decreases keys.len(),
{
    if keys.len() == 1 {
        assert(keys.drop_last() =~= Seq::<(Seq<char>, Seq<char>)>::empty());
        assert(keys.drop_first() =~= Seq::<(Seq<char>, Seq<char>)>::empty());
    } else {
        lemma_keys_outside_front(keys.drop_last(), session);
        assert(keys.drop_last().drop_first() =~= keys.drop_first().drop_last());
        assert(keys.drop_first().last() == keys.last());
    }
}

impl InputRecovery {
    pub fn new() -> (r: Self)
        ensures
            recovery_inv(r@),
            r@.requests.len() == 0,
            r@.waiting.len() == 0,
            r@.reads == 0,
            !r@.closed,
            r@.next_id == 0,
            r@ == (RecoveryModel { next_id: 0, closed: false, requests: Seq::empty(), waiting: Seq::empty(), reads: 0 }),
    {
        let r = InputRecovery { next_id: 0, closed: false, requests: Vec::new(), waiting: Vec::new(), reads: 0 };
        assert(r@.requests =~= Seq::<((Seq<char>, Seq<char>), RequestModel)>::empty());
        assert(r@.waiting =~= Seq::<(Seq<char>, Seq<char>)>::empty());
        r
    }

    fn find(&self, key: &TurnKey) -> (r: Option<usize>)
        ensures
            match r {
                Some(i) => i < self@.requests.len() && self@.requests[i as int].0 == key@,
                None => !request_keys(self@.requests).contains(key@),
            },
    {
        let mut i: usize = 0;
        while i < self.requests.len()
            invariant
                i <= self.requests.len(),
                forall|j: int| 0 <= j < i ==> self.requests@[j].0@ != key@,
            decreases self.requests.len() - i,
        {
            if self.requests[i].0.same(key) {
                return Some(i);
            }
            i = i + 1;
        }
        assert forall|j: int| 0 <= j < request_keys(self@.requests).len() implies request_keys(self@.requests)[j] != key@ by {
            assert(request_keys(self@.requests)[j] == self.requests@[j].0@);
        }
        None
    }

    /// Whether a read for `key` may be registered: the state is open and the
    /// turn has no read yet.
    pub fn admits(&self, key: &TurnKey) -> (r: bool)
        ensures
            r == (!self@.closed && !request_keys(self@.requests).contains(key@)),
    {
        match self.find(key) {
            Some(i) => {
                assert(request_keys(self@.requests)[i as int] == key@);
                false
            },
            None => !self.closed,
        }
    }

    /// Whether a new read may be tried at once instead of queued: a read slot
    /// is free and nothing is waiting.
    pub fn may_read_now(&self) -> (r: bool)
        ensures
            r == (self@.reads < READ_CONCURRENCY && self@.waiting.len() == 0),
    {
        self.reads < READ_CONCURRENCY && self.waiting.len() == 0
    }

    fn start_reads(&mut self) -> (started: Vec<TurnKey>)
        requires
            recovery_inv(old(self)@),
        ensures
            recovery_inv(final(self)@),
            (final(self)@, keys_view(started@)) == start_reads_model(old(self)@),
    {
        let ghost m = self@;
        let ghost target = start_reads_model(m);
        let mut started: Vec<TurnKey> = Vec::new();
        proof {
            assert(keys_view(started@) + target.1 =~= target.1);
        }
        while self.reads < READ_CONCURRENCY && self.waiting.len() > 0
            invariant
                recovery_inv(self@),
                start_reads_model(self@).0 == target.0,
                keys_view(started@) + start_reads_model(self@).1 == target.1,
            decreases self.waiting.len(),
        {
            let ghost before = self@;
            let ghost step = start_reads_model(before);
            let key = self.waiting.remove(0);
            proof {
                assert(self@.waiting =~= before.waiting.drop_first());
                assert(key@ == before.waiting[0]);
            }
            let found = self.find(&key);
            if found.is_some() {
                proof {
                    assert(request_keys(before.requests)[found.unwrap() as int] == key@);
                }
                self.reads = self.reads + 1;
                let ghost prefix = keys_view(started@);
                started.push(key);
                proof {
                    assert(self@ == RecoveryModel { reads: before.reads + 1, waiting: before.waiting.drop_first(), ..before });
                    assert(keys_view(started@) =~= prefix.push(key@));
                    assert(step.1 == seq![key@] + start_reads_model(self@).1);
                    assert(keys_view(started@) + start_reads_model(self@).1 =~= prefix + step.1);
                }
            } else {
                proof {
                    assert(self@ == RecoveryModel { waiting: before.waiting.drop_first(), ..before });
                }
            }
        }
        started
    }

    /// Queue a read of `key`'s input unless admission is closed or a read of
    /// `key` is already pending: `None` then, and nothing changes. Otherwise
    /// as `enqueue`.
    pub fn request(
        &mut self,
        key: TurnKey,
        conversation: ConversationRef,
        delivery: DeliveryClass,
        epoch: u64,
        generation: u64,
    ) -> (r: Option<(u64, Vec<TurnKey>)>)
        requires
            recovery_inv(old(self)@),
            old(self)@.next_id < u64::MAX,
        ensures
            recovery_inv(final(self)@),
            r is None <==> (old(self)@.closed || request_keys(old(self)@.requests).contains(key@)),
            r is None ==> final(self)@ == old(self)@,
            r matches Some(q) ==> q.0 == old(self)@.next_id && (final(self)@, keys_view(q.1@)) == start_reads_model(RecoveryModel {
                next_id: (old(self)@.next_id + 1) as u64,
                requests: old(self)@.requests.push((key@, RequestModel {
                    id: old(self)@.next_id,
                    conversation: (conversation.channel, conversation.conversation_id@),
                    delivery,
                    epoch,
                    generation,
                })),
                waiting: old(self)@.waiting.push(key@),
                ..old(self)@
            }),
    {
        if !self.admits(&key) {
            return None;
        }
        Some(self.enqueue(key, conversation, delivery, epoch, generation))
    }

    /// Register a read for `key` (after an immediate try did not finish);
    /// returns its id and the reads to start now.
    pub fn enqueue(
        &mut self,
        key: TurnKey,
        conversation: ConversationRef,
        delivery: DeliveryClass,
        epoch: u64,
        generation: u64,
    ) -> (r: (u64, Vec<TurnKey>))
        requires
            recovery_inv(old(self)@),
            !old(self)@.closed,
            !request_keys(old(self)@.requests).contains(key@),
            old(self)@.next_id < u64::MAX,
        ensures
            recovery_inv(final(self)@),
            r.0 == old(self)@.next_id,
            (final(self)@, keys_view(r.1@)) == start_reads_model(RecoveryModel {
                next_id: (old(self)@.next_id + 1) as u64,
                requests: old(self)@.requests.push((key@, RequestModel {
                    id: old(self)@.next_id,
                    conversation: (conversation.channel, conversation.conversation_id@),
                    delivery,
                    epoch,
                    generation,
                })),
                waiting: old(self)@.waiting.push(key@),
                ..old(self)@
            }),
    {
        let id = self.next_id;
        self.next_id = self.next_id + 1;
        let ghost before = self@.requests;
        let ghost waiting = self@.waiting;
        self.waiting.push(key.duplicate());
        let request = RecoveryRequest { id, conversation, delivery, epoch, generation };
        let ghost stored = (key@, request@);
        self.requests.push((key, request));
        proof {
            assert(self@.requests =~= before.push(stored));
            assert(self@.waiting =~= waiting.push(key@));
            assert forall|i: int| 0 <= i < before.len() implies before[i].0 != key@ by {
                assert(request_keys(before)[i] == before[i].0);
            }
        }
        let started = self.start_reads();
        (id, started)
    }

    /// A read ended: free its slot and start waiting reads.
    pub fn read_finished(&mut self) -> (started: Vec<TurnKey>)
        requires
            recovery_inv(old(self)@),
        ensures
            recovery_inv(final(self)@),
            (final(self)@, keys_view(started@)) == start_reads_model(RecoveryModel {
                reads: if old(self)@.reads > 0 { (old(self)@.reads - 1) as nat } else { 0 },
                ..old(self)@
            }),
    {
        if self.reads > 0 {
            self.reads = self.reads - 1;
        }
        self.start_reads()
    }

    /// Drop the reads of `session`'s turns, registered or waiting.
    pub fn cancel_session(&mut self, session: &SessionId)
        requires
            recovery_inv(old(self)@),
        ensures
            recovery_inv(final(self)@),
            final(self)@ == (RecoveryModel {
                requests: requests_outside(old(self)@.requests, session@),
                waiting: keys_outside(old(self)@.waiting, session@),
                ..old(self)@
            }),
    {
        let ghost m = self@;
        let mut requests: Vec<(TurnKey, RecoveryRequest)> = Vec::new();
        std::mem::swap(&mut requests, &mut self.requests);
        let mut kept: Vec<(TurnKey, RecoveryRequest)> = Vec::new();
        while requests.len() > 0
            invariant
                kept@.map_values(|e: (TurnKey, RecoveryRequest)| (e.0@, e.1@)) + requests_outside(
                    requests@.map_values(|e: (TurnKey, RecoveryRequest)| (e.0@, e.1@)),
                    session@,
                ) == requests_outside(m.requests, session@),
            decreases requests.len(),
        {
            let ghost before_rest = requests@.map_values(|e: (TurnKey, RecoveryRequest)| (e.0@, e.1@));
            let ghost before_kept = kept@.map_values(|e: (TurnKey, RecoveryRequest)| (e.0@, e.1@));
            let entry = requests.remove(0);
            proof {
                assert(requests@.map_values(|e: (TurnKey, RecoveryRequest)| (e.0@, e.1@)) =~= before_rest.drop_first());
                lemma_outside_front(before_rest, session@);
            }
            if !entry.0.session.same(session) {
                kept.push(entry);
                assert(kept@.map_values(|e: (TurnKey, RecoveryRequest)| (e.0@, e.1@)) =~= before_kept.push(before_rest[0]));
            }
        }
        self.requests = kept;
        let mut waiting: Vec<TurnKey> = Vec::new();
        std::mem::swap(&mut waiting, &mut self.waiting);
        let mut kept_keys: Vec<TurnKey> = Vec::new();
        while waiting.len() > 0
            invariant
                keys_view(kept_keys@) + keys_outside(keys_view(waiting@), session@) == keys_outside(m.waiting, session@),
            decreases waiting.len(),
        {
            let ghost before_rest = keys_view(waiting@);
            let ghost before_kept = keys_view(kept_keys@);
            let key = waiting.remove(0);
            proof {
                assert(keys_view(waiting@) =~= before_rest.drop_first());
                lemma_keys_outside_front(before_rest, session@);
            }
            if !key.session.same(session) {
                kept_keys.push(key);
                assert(keys_view(kept_keys@) =~= before_kept.push(before_rest[0]));
            }
        }
        self.waiting = kept_keys;
        proof {
            lemma_requests_outside(m.requests, session@);
            lemma_requests_outside_distinct(m.requests, session@);
            let out = requests_outside(m.requests, session@);
            assert forall|i: int| 0 <= i < out.len() implies (#[trigger] out[i]).1.id < m.next_id by {
                let j = choose|j: int| 0 <= j < m.requests.len() && m.requests[j] == out[i];
                assert(m.requests[j].1.id < m.next_id);
            }
            if m.closed {
                assert(out =~= Seq::<((Seq<char>, Seq<char>), RequestModel)>::empty());
            }
        }
    }

    /// Take the request a finished read belongs to, with its turn, if that
    /// request is still registered: the request as it was enqueued.
    pub fn take(&mut self, input: &RecoveredInput) -> (r: Option<(TurnKey, RecoveryRequest)>)
        requires
            recovery_inv(old(self)@),
        ensures
            recovery_inv(final(self)@),
            match r {
                Some((key, req)) => {
                    &&& key@ == (input.session@, input.turn@)
                    &&& req.id == input.id
                    &&& exists|i: int| 0 <= i < old(self)@.requests.len()
                        && old(self)@.requests[i] == (key@, req@)
                        && final(self)@ == (RecoveryModel { requests: old(self)@.requests.remove(i), ..old(self)@ })
                },
                None => (forall|i: int| 0 <= i < old(self)@.requests.len()
                    && old(self)@.requests[i].0 == (input.session@, input.turn@) ==> old(self)@.requests[i].1.id != input.id)
                    && final(self)@ == old(self)@,
            },
    {
        let key = TurnKey::new(&input.session, input.turn.as_str());
        match self.take_request(&key, input.id) {
            Some(request) => Some((key, request)),
            None => None,
        }
    }

    fn take_request(&mut self, key: &TurnKey, id: u64) -> (r: Option<RecoveryRequest>)
        requires
            recovery_inv(old(self)@),
        ensures
            recovery_inv(final(self)@),
            match r {
                Some(req) => req.id == id && exists|i: int| 0 <= i < old(self)@.requests.len()
                    && old(self)@.requests[i] == (key@, req@)
                    && final(self)@ == (RecoveryModel { requests: old(self)@.requests.remove(i), ..old(self)@ }),
                None => (forall|i: int| 0 <= i < old(self)@.requests.len() && old(self)@.requests[i].0 == key@
                    ==> old(self)@.requests[i].1.id != id) && final(self)@ == old(self)@,
            },
    {
        match self.find(key) {
            Some(i) => {
                if self.requests[i].1.id != id {
                    proof {
                        let m = self@;
                        assert forall|j: int| 0 <= j < m.requests.len() && m.requests[j].0 == key@
                            implies m.requests[j].1.id != id by {
                            if j != i {
                                assert(m.requests[j].0 != m.requests[i as int].0);
                            }
                        }
                    }
                    return None;
                }
                let ghost m = self@;
                let (_, request) = self.requests.remove(i);
                proof {
                    assert(self@.requests =~= m.requests.remove(i as int));
                    assert(m.requests[i as int] == (key@, request@));
                    assert(self@ == (RecoveryModel { requests: m.requests.remove(i as int), ..m }));
                }
                Some(request)
            },
            None => {
                proof {
                    assert forall|j: int| 0 <= j < self@.requests.len() && self@.requests[j].0 == key@
                        implies self@.requests[j].1.id != id by {
                        assert(request_keys(self@.requests)[j] == key@);
                    }
                }
                None
            },
        }
    }

    /// Stop all reads: nothing is admitted or applied afterwards.
    pub fn cancel_all(&mut self)
        requires
            recovery_inv(old(self)@),
        ensures
            recovery_inv(final(self)@),
            final(self)@ == (RecoveryModel { closed: true, requests: Seq::empty(), waiting: Seq::empty(), ..old(self)@ }),
    {
        self.closed = true;
        self.requests = Vec::new();
        self.waiting = Vec::new();
        proof {
            assert(self@.requests =~= Seq::<((Seq<char>, Seq<char>), RequestModel)>::empty());
            assert(self@.waiting =~= Seq::<(Seq<char>, Seq<char>)>::empty());
        }
    }
}

/// The text a finished read contributes to its turn: a nonblank text, read
/// for a request of the current agent generation and conversation epoch.
pub fn recovered_text(
    request: &RecoveryRequest,
    text: Result<Option<String>, AgentError>,
    generation: u64,
    epoch: u64,
) -> (r: Option<String>)
    ensures
        r == (if request.generation == generation && request.epoch == epoch {
            match text {
                Ok(Some(t)) => if blank(t@) { None } else { Some(t) },
                _ => None,
            }
        } else {
            None::<String>
        }),
{
    if request.generation != generation || request.epoch != epoch {
        return None;
    }
    match text {
        Ok(Some(t)) => if is_blank(t.as_str()) { None } else { Some(t) },
        _ => None,
    }
}

} // verus!
