//! Per-turn state kept by the runtime (turn buffers, the messages showing
//! turns, when each turn was last rendered, its stop button), keyed by
//! session and turn, and dropped together when a session goes away.
use vstd::prelude::*;
use crate::model::{SessionId, TurnKey};

verus! {

pub type KeyView = (Seq<char>, Seq<char>);

/// The table the entries describe, a later entry for a key replacing an
/// earlier one.
pub open spec fn table_map<V>(entries: Seq<(KeyView, V)>) -> Map<KeyView, V>
    decreases entries.len(),
{
    if entries.len() == 0 {
        Map::empty()
    } else {
        table_map(entries.drop_last()).insert(entries.last().0, entries.last().1)
    }
}

/// Which entries a purge drops: those of one turn, or all of a session's.
pub enum Purge {
    Turn(TurnKey),
    Session(SessionId),
}

pub open spec fn purged(p: Purge, key: KeyView) -> bool {
    match p {
        Purge::Turn(k) => key == k@,
        Purge::Session(s) => key.0 == s@,
    }
}

/// The entries a purge keeps.
pub open spec fn kept<V>(entries: Seq<(KeyView, V)>, p: Purge) -> Seq<(KeyView, V)>
    decreases entries.len(),
{
    if entries.len() == 0 {
        Seq::empty()
    } else {
        let rest = kept(entries.drop_last(), p);
        if purged(p, entries.last().0) { rest } else { rest.push(entries.last()) }
    }
}

/// `m` without the keys a purge drops.
pub open spec fn without<V>(m: Map<KeyView, V>, p: Purge) -> Map<KeyView, V> {
    Map::new(|k: KeyView| m.dom().contains(k) && !purged(p, k), |k: KeyView| m[k])
}

proof fn lemma_kept<V>(entries: Seq<(KeyView, V)>, p: Purge)
    ensures
        table_map(kept(entries, p)) == without(table_map(entries), p),
    decreases entries.len(),
{
    if entries.len() == 0 {
        assert(without(table_map(entries), p) =~= Map::<KeyView, V>::empty());
    } else {
        let d = entries.drop_last();
        lemma_kept(d, p);
        let e = entries.last();
        if purged(p, e.0) {
            assert(without(table_map(entries), p) =~= without(table_map(d), p));
        } else {
            assert(kept(entries, p).drop_last() =~= kept(d, p));
            assert(kept(entries, p).last() == e);
            assert(table_map(kept(entries, p)) =~= without(table_map(d), p).insert(e.0, e.1));
            assert(without(table_map(entries), p) =~= without(table_map(d), p).insert(e.0, e.1));
        }
    }
}

/// Per-turn values of type `V`.
pub struct TurnTable<V> {
    entries: Vec<(TurnKey, V)>,
}

pub open spec fn entries_view<V>(entries: Seq<(TurnKey, V)>) -> Seq<(KeyView, V)> {
    entries.map_values(|e: (TurnKey, V)| (e.0@, e.1))
}

impl<V> View for TurnTable<V> {
    type V = Map<KeyView, V>;

    closed spec fn view(&self) -> Map<KeyView, V> {
        table_map(entries_view(self.entries@))
    }
}

impl<V> TurnTable<V> {
    pub fn new() -> (r: Self)
        ensures
            r@ == Map::<KeyView, V>::empty(),
    {
        let r = TurnTable { entries: Vec::new() };
        assert(entries_view(r.entries@) =~= Seq::<(KeyView, V)>::empty());
        r
    }

    /// The value kept for `key`.
    pub fn get(&self, key: &TurnKey) -> (r: Option<&V>)
        ensures
            match r {
                Some(v) => self@.contains_key(key@) && self@[key@] == *v,
                None => !self@.contains_key(key@),
            },
    {
        let ghost ev = entries_view(self.entries@);
        let mut i: usize = self.entries.len();
        proof {
            assert(ev.take(i as int) =~= ev);
        }
        while i > 0
            invariant
                i <= self.entries.len(),
                ev == entries_view(self.entries@),
                table_map(ev).contains_key(key@) == table_map(ev.take(i as int)).contains_key(key@),
                table_map(ev).contains_key(key@) ==> table_map(ev)[key@] == table_map(ev.take(i as int))[key@],
            decreases i,
        {
            proof {
                assert(ev.take(i as int).drop_last() =~= ev.take(i - 1));
                assert(ev.take(i as int).last() == ev[i - 1]);
                assert(ev[i - 1] == (self.entries@[i - 1].0@, self.entries@[i - 1].1));
            }
            if self.entries[i - 1].0.same(key) {
                return Some(&self.entries[i - 1].1);
            }
            i = i - 1;
        }
        proof {
            assert(ev.take(0) =~= Seq::<(KeyView, V)>::empty());
        }
        None
    }

    /// Drop the entries a purge names.
    pub fn purge(&mut self, p: &Purge)
        ensures
            final(self)@ == without(old(self)@, *p),
    {
        let ghost old_ev = entries_view(self.entries@);
        let mut rest: Vec<(TurnKey, V)> = Vec::new();
        std::mem::swap(&mut rest, &mut self.entries);
        let ghost n = rest.len();
        let mut i: usize = 0;
        proof {
            assert(entries_view(self.entries@) =~= kept(old_ev.take(0), *p));
            assert(entries_view(rest@) =~= old_ev.subrange(0, n as int));
        }
        while rest.len() > 0
            invariant
                n == old_ev.len(),
                i + rest.len() == n,
                entries_view(rest@) == old_ev.subrange(i as int, n as int),
                entries_view(self.entries@) == kept(old_ev.take(i as int), *p),
            decreases rest.len(),
        {
            let ghost before = rest@;
            let entry = rest.remove(0);
            proof {
                assert(entries_view(before)[0] == old_ev[i as int]);
                assert forall|j: int| 0 <= j < rest@.len() implies #[trigger] entries_view(rest@)[j] == old_ev[i + 1 + j] by {
                    assert(rest@[j] == before[j + 1]);
                    assert(entries_view(before)[j + 1] == old_ev[i + 1 + j]);
                }
                assert(entries_view(rest@) =~= old_ev.subrange(i + 1, n as int));
                assert(old_ev[i as int] == (entry.0@, entry.1));
                assert(old_ev.take(i + 1).drop_last() =~= old_ev.take(i as int));
                assert(old_ev.take(i + 1).last() == old_ev[i as int]);
            }
            let drop = match p {
                Purge::Turn(k) => entry.0.same(k),
                Purge::Session(s) => entry.0.session.same(s),
            };
            if !drop {
                let ghost before = entries_view(self.entries@);
                self.entries.push(entry);
                proof {
                    assert(entries_view(self.entries@) =~= before.push(old_ev[i as int]));
                }
            }
            i = i + 1;
        }
        proof {
            assert(old_ev.take(i as int) =~= old_ev);
            lemma_kept(old_ev, *p);
        }
    }

    /// Keep `value` for `key`, replacing what was kept for it.
    pub fn insert(&mut self, key: TurnKey, value: V)
        ensures
            final(self)@ == old(self)@.insert(key@, value),
    {
        let ghost old_m = self@;
        self.purge(&Purge::Turn(key.duplicate()));
        let ghost mid = entries_view(self.entries@);
        let ghost k = key@;
        self.entries.push((key, value));
        proof {
            assert(entries_view(self.entries@) =~= mid.push((k, value)));
            assert(entries_view(self.entries@).drop_last() =~= mid);
            assert(self@ =~= old_m.insert(k, value));
        }
    }

    /// Forget the value kept for `key`.
    pub fn remove(&mut self, key: &TurnKey)
        ensures
            final(self)@ == old(self)@.remove(key@),
    {
        let ghost old_m = self@;
        self.purge(&Purge::Turn(key.duplicate()));
        proof {
            assert(self@ =~= old_m.remove(key@));
        }
    }
}

/// After a session's purge no entry of the session is left, and every other
/// entry is as it was.
pub proof fn purging_a_session_leaves_none_of_it<V>(m: Map<KeyView, V>, session: SessionId, key: KeyView)
    ensures
        key.0 == session@ ==> !without(m, Purge::Session(session)).contains_key(key),
        key.0 != session@ ==> without(m, Purge::Session(session)).contains_key(key) == m.contains_key(key),
        key.0 != session@ && m.contains_key(key) ==> without(m, Purge::Session(session))[key] == m[key],
{
}

} // verus!
