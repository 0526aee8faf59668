//! The turn each session is running: set when a turn starts (or its output
//! arrives first), cleared when that turn completes or the session exits.
use vstd::prelude::*;
use crate::model::SessionId;
use crate::text::{owned, str_eq};

verus! {

pub open spec fn active_map(entries: Seq<(SessionId, String)>) -> Map<Seq<char>, Seq<char>>
    decreases entries.len(),
{
    if entries.len() == 0 {
        Map::empty()
    } else {
        active_map(entries.drop_last()).insert(entries.last().0@, entries.last().1@)
    }
}

pub open spec fn distinct_sessions(entries: Seq<(SessionId, String)>) -> bool {
    forall|i: int, j: int| 0 <= i < entries.len() && 0 <= j < entries.len() && i != j ==> entries[i].0@ != entries[j].0@
}

proof fn lemma_active_at(entries: Seq<(SessionId, String)>, i: int)
    requires
        distinct_sessions(entries),
        0 <= i < entries.len(),
    ensures
        active_map(entries).contains_key(entries[i].0@),
        active_map(entries)[entries[i].0@] == entries[i].1@,
    decreases entries.len(),
{
    if i < entries.len() - 1 {
        let d = entries.drop_last();
        assert(d[i] == entries[i]);
        lemma_active_at(d, i);
    }
}

proof fn lemma_active_absent(entries: Seq<(SessionId, String)>, session: Seq<char>)
    requires
        forall|i: int| 0 <= i < entries.len() ==> entries[i].0@ != session,
    ensures
        !active_map(entries).contains_key(session),
    decreases entries.len(),
{
    if entries.len() > 0 {
        lemma_active_absent(entries.drop_last(), session);
    }
}

proof fn lemma_active_update(entries: Seq<(SessionId, String)>, i: int, e: (SessionId, String))
    requires
        distinct_sessions(entries),
        0 <= i < entries.len(),
        e.0@ == entries[i].0@,
    ensures
        active_map(entries.update(i, e)) == active_map(entries).insert(e.0@, e.1@),
    decreases entries.len(),
{
    let u = entries.update(i, e);
    if i == entries.len() - 1 {
        assert(u.drop_last() =~= entries.drop_last());
        assert(active_map(u) =~= active_map(entries).insert(e.0@, e.1@));
    } else {
        let d = entries.drop_last();
        assert(u.drop_last() =~= d.update(i, e));
        lemma_active_update(d, i, e);
        assert(active_map(u) =~= active_map(entries).insert(e.0@, e.1@));
    }
}

proof fn lemma_active_remove(entries: Seq<(SessionId, String)>, i: int)
    requires
        distinct_sessions(entries),
        0 <= i < entries.len(),
    ensures
        active_map(entries.remove(i)) == active_map(entries).remove(entries[i].0@),
    decreases entries.len(),
{
    let key = entries[i].0@;
    let r = entries.remove(i);
    if i == entries.len() - 1 {
        assert(r =~= entries.drop_last());
        assert forall|j: int| 0 <= j < r.len() implies r[j].0@ != key by {
            assert(r[j] == entries[j]);
        }
        lemma_active_absent(r, key);
        assert(active_map(r) =~= active_map(entries).remove(key));
    } else {
        let d = entries.drop_last();
        assert(d[i] == entries[i]);
        assert(r.drop_last() =~= d.remove(i));
        assert(r.last() == entries.last());
        lemma_active_remove(d, i);
        assert(entries.last().0@ != key);
        assert(active_map(r) =~= active_map(entries).remove(key));
    }
}

/// The active turns once `turn` of `session` completed.
pub open spec fn finish_model(m: Map<Seq<char>, Seq<char>>, session: Seq<char>, turn: Seq<char>) -> Map<Seq<char>, Seq<char>> {
    if m.contains_key(session) && m[session] == turn { m.remove(session) } else { m }
}

/// The active turn of each session.
pub struct ActiveTurns {
    entries: Vec<(SessionId, String)>,
}

impl View for ActiveTurns {
    type V = Map<Seq<char>, Seq<char>>;

    closed spec fn view(&self) -> Self::V {
        active_map(self.entries@)
    }
}

impl ActiveTurns {
    pub closed spec fn wf(&self) -> bool {
        distinct_sessions(self.entries@)
    }

    pub fn new() -> (r: Self)
        ensures
            r.wf(),
            r@ == Map::<Seq<char>, Seq<char>>::empty(),
    {
        ActiveTurns { entries: Vec::new() }
    }

    fn find(&self, session: &SessionId) -> (r: Option<usize>)
        ensures
            match r {
                Some(i) => i < self.entries@.len() && self.entries@[i as int].0@ == session@,
                None => forall|i: int| 0 <= i < self.entries@.len() ==> self.entries@[i].0@ != session@,
            },
    {
        let mut i: usize = 0;
        while i < self.entries.len() && !self.entries[i].0.same(session)
            invariant
                i <= self.entries.len(),
                forall|j: int| 0 <= j < i ==> self.entries@[j].0@ != session@,
            decreases self.entries.len() - i,
        {
            i = i + 1;
        }
        if i < self.entries.len() { Some(i) } else { None }
    }

    /// The turn `session` is running.
    pub fn active_turn(&self, session: &SessionId) -> (r: Option<String>)
        requires
            self.wf(),
        ensures
            match r {
                Some(t) => self@.contains_key(session@) && self@[session@] == t@,
                None => !self@.contains_key(session@),
            },
    {
        match self.find(session) {
            Some(i) => {
                proof {
                    lemma_active_at(self.entries@, i as int);
                }
                Some(owned(self.entries[i].1.as_str()))
            },
            None => {
                proof {
                    lemma_active_absent(self.entries@, session@);
                }
                None
            },
        }
    }

    fn put(&mut self, session: &SessionId, turn: &str)
        requires
            old(self).wf(),
        ensures
            final(self).wf(),
            final(self)@ == old(self)@.insert(session@, turn@),
    {
        let entry = (session.duplicate(), owned(turn));
        match self.find(session) {
            Some(i) => {
                let ghost old_entries = self.entries@;
                proof {
                    lemma_active_update(old_entries, i as int, entry);
                }
                self.entries.set(i, entry);
                proof {
                    let es = self.entries@;
                    assert forall|a: int, b: int| 0 <= a < es.len() && 0 <= b < es.len() && a != b implies es[a].0@ != es[b].0@ by {
                        assert(es[a].0@ == old_entries[a].0@ && es[b].0@ == old_entries[b].0@);
                    }
                }
            },
            None => {
                let ghost old_entries = self.entries@;
                self.entries.push(entry);
                proof {
                    assert(self.entries@.drop_last() =~= old_entries);
                    let es = self.entries@;
                    assert forall|a: int, b: int| 0 <= a < es.len() && 0 <= b < es.len() && a != b implies es[a].0@ != es[b].0@ by {
                        if a < old_entries.len() {
                            assert(es[a] == old_entries[a]);
                        }
                        if b < old_entries.len() {
                            assert(es[b] == old_entries[b]);
                        }
                    }
                }
            },
        }
    }

    /// A turn of `session` started: it becomes the active turn. The turn it
    /// replaces, when another one was active, is returned to be finished.
    pub fn start_turn(&mut self, session: &SessionId, turn: &str) -> (replaced: Option<String>)
        requires
            old(self).wf(),
        ensures
            final(self).wf(),
            final(self)@ == old(self)@.insert(session@, turn@),
            match replaced {
                Some(t) => old(self)@.contains_key(session@) && old(self)@[session@] == t@ && t@ != turn@,
                None => !(old(self)@.contains_key(session@) && old(self)@[session@] != turn@),
            },
    {
        let previous = self.active_turn(session);
        self.put(session, turn);
        match previous {
            Some(p) => if str_eq(p.as_str(), turn) { None } else { Some(p) },
            None => None,
        }
    }

    /// Output of `turn` arrived before its start was seen: it becomes the
    /// active turn unless `session` already runs one.
    pub fn adopt(&mut self, session: &SessionId, turn: &str)
        requires
            old(self).wf(),
        ensures
            final(self).wf(),
            final(self)@ == if old(self)@.contains_key(session@) { old(self)@ } else { old(self)@.insert(session@, turn@) },
    {
        match self.find(session) {
            Some(i) => {
                proof {
                    lemma_active_at(self.entries@, i as int);
                }
            },
            None => {
                proof {
                    lemma_active_absent(self.entries@, session@);
                }
                self.put(session, turn);
            },
        }
    }

    /// The session's active turn ends (it exited): the turn it ran, if any.
    pub fn remove(&mut self, session: &SessionId) -> (r: Option<String>)
        requires
            old(self).wf(),
        ensures
            final(self).wf(),
            final(self)@ == old(self)@.remove(session@),
            match r {
                Some(t) => old(self)@.contains_key(session@) && old(self)@[session@] == t@,
                None => !old(self)@.contains_key(session@),
            },
    {
        match self.find(session) {
            Some(i) => {
                let ghost old_entries = self.entries@;
                proof {
                    lemma_active_at(old_entries, i as int);
                    lemma_active_remove(old_entries, i as int);
                }
                let (_, turn) = self.entries.remove(i);
                proof {
                    assert(self.entries@ =~= old_entries.remove(i as int));
                    let es = self.entries@;
                    assert forall|a: int, b: int| 0 <= a < es.len() && 0 <= b < es.len() && a != b implies es[a].0@ != es[b].0@ by {
                        let a0 = if a < i { a } else { a + 1 };
                        let b0 = if b < i { b } else { b + 1 };
                        assert(es[a] == old_entries[a0] && es[b] == old_entries[b0]);
                    }
                }
                Some(turn)
            },
            None => {
                proof {
                    lemma_active_absent(self.entries@, session@);
                    assert(self@.remove(session@) =~= self@);
                }
                None
            },
        }
    }

    /// `turn` of `session` completed: it stops being active, unless a newer
    /// turn of the session is. Whether it was the active turn.
    pub fn finish_turn(&mut self, session: &SessionId, turn: &str) -> (finished: bool)
        requires
            old(self).wf(),
        ensures
            final(self).wf(),
            finished == (old(self)@.contains_key(session@) && old(self)@[session@] == turn@),
            final(self)@ == finish_model(old(self)@, session@, turn@),
    {
        let active = self.active_turn(session);
        match active {
            Some(t) => {
                if str_eq(t.as_str(), turn) {
                    self.remove(session);
                    true
                } else {
                    false
                }
            },
            None => false,
        }
    }
}

/// A completed turn is no longer active, and the completion of an older
/// turn never clears a newer active turn of the session.
pub proof fn completion_clears_only_its_turn(m: Map<Seq<char>, Seq<char>>, session: Seq<char>, turn: Seq<char>)
    ensures
        !(finish_model(m, session, turn).contains_key(session) && finish_model(m, session, turn)[session] == turn),
        m.contains_key(session) && m[session] != turn ==> finish_model(m, session, turn) == m,
{
}

} // verus!
