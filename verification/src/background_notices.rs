//! Which conversations were told that a session finished a turn while it
//! was not attached: one turn per session is remembered, with each
//! conversation that got its notice, so that no conversation is told twice.
use vstd::prelude::*;
use crate::model::{ChannelKind, ConversationRef, SessionId};
use crate::text::owned;

verus! {

pub open spec fn conversation_key(c: ConversationRef) -> (ChannelKind, Seq<char>) {
    (c.channel, c.conversation_id@)
}

/// The conversations of `v`, as a set.
pub open spec fn recipient_set(v: Seq<ConversationRef>) -> Set<(ChannelKind, Seq<char>)> {
    Set::new(|k: (ChannelKind, Seq<char>)| exists|i: int| 0 <= i < v.len() && conversation_key(v[i]) == k)
}

/// For each session, the last turn notified and who got its notice.
pub open spec fn notices_map(entries: Seq<(SessionId, String, Vec<ConversationRef>)>) -> Map<Seq<char>, (Seq<char>, Set<(ChannelKind, Seq<char>)>)>
    decreases entries.len(),
{
    if entries.len() == 0 {
        Map::empty()
    } else {
        let e = entries.last();
        notices_map(entries.drop_last()).insert(e.0@, (e.1@, recipient_set(e.2@)))
    }
}

pub open spec fn distinct_sessions(entries: Seq<(SessionId, String, Vec<ConversationRef>)>) -> bool {
    forall|i: int, j: int| 0 <= i < entries.len() && 0 <= j < entries.len() && i != j ==> entries[i].0@ != entries[j].0@
}

/// Whether conversation `c` got the notice of `session`'s turn `turn`.
pub open spec fn notified(
    m: Map<Seq<char>, (Seq<char>, Set<(ChannelKind, Seq<char>)>)>,
    c: (ChannelKind, Seq<char>),
    session: Seq<char>,
    turn: Seq<char>,
) -> bool {
    m.contains_key(session) && m[session].0 == turn && m[session].1.contains(c)
}

/// The record after `c` got the notice of `session`'s turn `turn`: a newer
/// turn replaces the one remembered, and its recipients.
pub open spec fn record_model(
    m: Map<Seq<char>, (Seq<char>, Set<(ChannelKind, Seq<char>)>)>,
    c: (ChannelKind, Seq<char>),
    session: Seq<char>,
    turn: Seq<char>,
) -> Map<Seq<char>, (Seq<char>, Set<(ChannelKind, Seq<char>)>)> {
    if m.contains_key(session) && m[session].0 == turn {
        m.insert(session, (turn, m[session].1.insert(c)))
    } else {
        m.insert(session, (turn, Set::empty().insert(c)))
    }
}

pub struct BackgroundNotices {
    entries: Vec<(SessionId, String, Vec<ConversationRef>)>,
}

impl View for BackgroundNotices {
    type V = Map<Seq<char>, (Seq<char>, Set<(ChannelKind, Seq<char>)>)>;

    closed spec fn view(&self) -> Self::V {
        notices_map(self.entries@)
    }
}

proof fn lemma_notices_map_at(entries: Seq<(SessionId, String, Vec<ConversationRef>)>, i: int)
    requires
        distinct_sessions(entries),
        0 <= i < entries.len(),
    ensures
        notices_map(entries).contains_key(entries[i].0@),
        notices_map(entries)[entries[i].0@] == (entries[i].1@, recipient_set(entries[i].2@)),
    decreases entries.len(),
{
    if i < entries.len() - 1 {
        let d = entries.drop_last();
        assert(d[i] == entries[i]);
        lemma_notices_map_at(d, i);
        assert(entries.last().0@ != entries[i].0@);
    }
}

proof fn lemma_notices_map_absent(entries: Seq<(SessionId, String, Vec<ConversationRef>)>, session: Seq<char>)
    requires
        forall|i: int| 0 <= i < entries.len() ==> entries[i].0@ != session,
    ensures
        !notices_map(entries).contains_key(session),
    decreases entries.len(),
{
    if entries.len() > 0 {
        lemma_notices_map_absent(entries.drop_last(), session);
    }
}

proof fn lemma_notices_map_update(entries: Seq<(SessionId, String, Vec<ConversationRef>)>, i: int, e: (SessionId, String, Vec<ConversationRef>))
    requires
        distinct_sessions(entries),
        0 <= i < entries.len(),
        e.0@ == entries[i].0@,
    ensures
        notices_map(entries.update(i, e)) == notices_map(entries).insert(e.0@, (e.1@, recipient_set(e.2@))),
    decreases entries.len(),
{
    let u = entries.update(i, e);
    if i == entries.len() - 1 {
        assert(u.drop_last() =~= entries.drop_last());
        assert(notices_map(u) =~= notices_map(entries).insert(e.0@, (e.1@, recipient_set(e.2@))));
    } else {
        let d = entries.drop_last();
        assert(u.drop_last() =~= d.update(i, e));
        lemma_notices_map_update(d, i, e);
        assert(entries.last().0@ != e.0@);
        assert(notices_map(u) =~= notices_map(entries).insert(e.0@, (e.1@, recipient_set(e.2@))));
    }
}

fn copy_recipients(v: &Vec<ConversationRef>) -> (r: Vec<ConversationRef>)
    ensures
        r@.len() == v@.len(),
        forall|j: int| 0 <= j < v@.len() ==> conversation_key(#[trigger] r@[j]) == conversation_key(v@[j]),
{
    let mut r: Vec<ConversationRef> = Vec::new();
    let mut i: usize = 0;
    while i < v.len()
        invariant
            i <= v.len(),
            r@.len() == i,
            forall|j: int| 0 <= j < i ==> conversation_key(#[trigger] r@[j]) == conversation_key(v@[j]),
        decreases v.len() - i,
    {
        r.push(ConversationRef::new(v[i].channel, v[i].conversation_id.as_str()));
        i = i + 1;
    }
    r
}

impl BackgroundNotices {
    pub closed spec fn wf(&self) -> bool {
        distinct_sessions(self.entries@)
    }

    pub fn new() -> (r: Self)
        ensures
            r.wf(),
            r@ == Map::<Seq<char>, (Seq<char>, Set<(ChannelKind, Seq<char>)>)>::empty(),
    {
        BackgroundNotices { entries: Vec::new() }
    }

    fn find(&self, session: &SessionId) -> (r: Option<usize>)
        ensures
            match r {
                Some(i) => i < self.entries@.len() && self.entries@[i as int].0@ == session@,
                None => forall|i: int| 0 <= i < self.entries@.len() ==> self.entries@[i].0@ != session@,
            },
    {
        let mut i: usize = 0;
        while i < self.entries.len()
            invariant
                i <= self.entries.len(),
                forall|j: int| 0 <= j < i ==> self.entries@[j].0@ != session@,
            decreases self.entries.len() - i,
        {
            if self.entries[i].0.same(session) {
                return Some(i);
            }
            i = i + 1;
        }
        None
    }

    /// Whether `conversation` already got the notice of `session`'s `turn`.
    pub fn delivered(&self, conversation: &ConversationRef, session: &SessionId, turn: &str) -> (r: bool)
        requires
            self.wf(),
        ensures
            r == notified(self@, conversation_key(*conversation), session@, turn@),
    {
        match self.find(session) {
            Some(i) => {
                proof {
                    lemma_notices_map_at(self.entries@, i as int);
                }
                let entry = &self.entries[i];
                assert(self@[session@] == (entry.1@, recipient_set(entry.2@)));
                if !crate::text::str_eq(entry.1.as_str(), turn) {
                    return false;
                }
                let mut k: usize = 0;
                while k < entry.2.len()
                    invariant
                        k <= entry.2.len(),
                        self@.contains_key(session@),
                        self@[session@] == (entry.1@, recipient_set(entry.2@)),
                        entry.1@ == turn@,
                        forall|j: int| 0 <= j < k ==> conversation_key(entry.2@[j]) != conversation_key(*conversation),
                    decreases entry.2.len() - k,
                {
                    if entry.2[k].same(conversation) {
                        assert(recipient_set(entry.2@).contains(conversation_key(*conversation))) by {
                            assert(conversation_key(entry.2@[k as int]) == conversation_key(*conversation));
                        }
                        return true;
                    }
                    k = k + 1;
                }
                false
            },
            None => {
                proof {
                    lemma_notices_map_absent(self.entries@, session@);
                }
                false
            },
        }
    }

    /// `conversation` got the notice of `session`'s `turn`.
    pub fn record(&mut self, conversation: &ConversationRef, session: &SessionId, turn: &str)
        requires
            old(self).wf(),
        ensures
            final(self).wf(),
            final(self)@ == record_model(old(self)@, conversation_key(*conversation), session@, turn@),
    {
        let ghost m = self@;
        let ghost c = conversation_key(*conversation);
        let known = self.delivered(conversation, session, turn);
        match self.find(session) {
            Some(i) => {
                proof {
                    lemma_notices_map_at(self.entries@, i as int);
                }
                let ghost old_entries = self.entries@;
                let same_turn = crate::text::str_eq(self.entries[i].1.as_str(), turn);
                let mut recipients: Vec<ConversationRef> = Vec::new();
                if same_turn {
                    recipients = copy_recipients(&self.entries[i].2);
                    assert(recipient_set(recipients@) =~= recipient_set(old_entries[i as int].2@)) by {
                        let a = recipients@;
                        let b = old_entries[i as int].2@;
                        assert forall|k: (ChannelKind, Seq<char>)| #[trigger] recipient_set(a).contains(k) == recipient_set(b).contains(k) by {
                            if recipient_set(a).contains(k) {
                                let j = choose|j: int| 0 <= j < a.len() && conversation_key(a[j]) == k;
                                assert(conversation_key(b[j]) == k);
                            }
                            if recipient_set(b).contains(k) {
                                let j = choose|j: int| 0 <= j < b.len() && conversation_key(b[j]) == k;
                                assert(conversation_key(a[j]) == k);
                            }
                        }
                    }
                } else {
                    assert(recipient_set(recipients@) =~= Set::<(ChannelKind, Seq<char>)>::empty());
                }
                let ghost before = recipients@;
                if !known {
                    recipients.push(ConversationRef::new(conversation.channel, conversation.conversation_id.as_str()));
                }
                let entry = (session.duplicate(), owned(turn), recipients);
                proof {
                    let expected = if same_turn { m[session@].1.insert(c) } else { Set::empty().insert(c) };
                    assert(recipient_set(entry.2@) =~= expected) by {
                        assert forall|k: (ChannelKind, Seq<char>)| #[trigger] recipient_set(entry.2@).contains(k) <== expected.contains(k) by {
                            if k == c {
                                if known {
                                    assert(recipient_set(before).contains(k));
                                    let j = choose|j: int| 0 <= j < before.len() && conversation_key(before[j]) == k;
                                    assert(entry.2@[j] == before[j]);
                                } else {
                                    assert(conversation_key(entry.2@[before.len() as int]) == k);
                                }
                            } else if same_turn && m[session@].1.contains(k) {
                                assert(recipient_set(before).contains(k));
                                let j = choose|j: int| 0 <= j < before.len() && conversation_key(before[j]) == k;
                                assert(entry.2@[j] == before[j]);
                            }
                        }
                        assert forall|k: (ChannelKind, Seq<char>)| #[trigger] recipient_set(entry.2@).contains(k) ==> expected.contains(k) by {
                            if recipient_set(entry.2@).contains(k) {
                                let j = choose|j: int| 0 <= j < entry.2@.len() && conversation_key(entry.2@[j]) == k;
                                if j < before.len() {
                                    assert(entry.2@[j] == before[j]);
                                    assert(recipient_set(before).contains(k));
                                }
                            }
                        }
                    }
                    lemma_notices_map_update(old_entries, i as int, entry);
                }
                self.entries.set(i, entry);
                proof {
                    assert(self.entries@ == old_entries.update(i as int, entry));
                    let es = self.entries@;
                    assert forall|a: int, b: int| 0 <= a < es.len() && 0 <= b < es.len() && a != b implies es[a].0@ != es[b].0@ by {
                        assert(es[a].0@ == old_entries[a].0@ && es[b].0@ == old_entries[b].0@);
                    }
                }
            },
            None => {
                proof {
                    lemma_notices_map_absent(self.entries@, session@);
                }
                let ghost old_entries = self.entries@;
                let mut recipients: Vec<ConversationRef> = Vec::new();
                recipients.push(ConversationRef::new(conversation.channel, conversation.conversation_id.as_str()));
                let entry = (session.duplicate(), owned(turn), recipients);
                self.entries.push(entry);
                proof {
                    assert(self.entries@.drop_last() =~= old_entries);
                    assert(recipient_set(entry.2@) =~= Set::empty().insert(c)) by {
                        assert(conversation_key(entry.2@[0]) == c);
                    }
                    let es = self.entries@;
                    assert forall|a: int, b: int| 0 <= a < es.len() && 0 <= b < es.len() && a != b implies es[a].0@ != es[b].0@ by {
                        if a < old_entries.len() && b < old_entries.len() {
                            assert(es[a] == old_entries[a] && es[b] == old_entries[b]);
                        } else if a < old_entries.len() {
                            assert(es[a] == old_entries[a]);
                        } else {
                            assert(es[b] == old_entries[b]);
                        }
                    }
                }
            },
        }
    }

    /// Sessions with a remembered notice.
    pub fn len(&self) -> (r: usize)
        requires
            self.wf(),
        ensures
            r == self@.len(),
    {
        proof {
            lemma_notices_len(self.entries@);
        }
        self.entries.len()
    }
}

proof fn lemma_notices_len(entries: Seq<(SessionId, String, Vec<ConversationRef>)>)
    requires
        distinct_sessions(entries),
    ensures
        notices_map(entries).dom().finite(),
        notices_map(entries).len() == entries.len(),
    decreases entries.len(),
{
    if entries.len() > 0 {
        let d = entries.drop_last();
        lemma_notices_len(d);
        assert forall|i: int| 0 <= i < d.len() implies d[i].0@ != entries.last().0@ by {
            assert(d[i] == entries[i]);
        }
        lemma_notices_map_absent(d, entries.last().0@);
    }
}

/// A notice recorded for a conversation is known as delivered to it; the
/// other recipients of the same turn stay known, a newer turn of the
/// session forgets the older turn's recipients, and other sessions are
/// unaffected.
pub proof fn recorded_notice_is_delivered(
    m: Map<Seq<char>, (Seq<char>, Set<(ChannelKind, Seq<char>)>)>,
    c: (ChannelKind, Seq<char>),
    session: Seq<char>,
    turn: Seq<char>,
    other: (ChannelKind, Seq<char>),
    other_session: Seq<char>,
    other_turn: Seq<char>,
)
    ensures
        notified(record_model(m, c, session, turn), c, session, turn),
        notified(record_model(m, c, session, turn), other, other_session, other_turn) == if other_session == session {
            other_turn == turn && (other == c || notified(m, other, session, turn))
        } else {
            notified(m, other, other_session, other_turn)
        },
{
}

} // verus!
