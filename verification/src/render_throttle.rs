//! How often a turn's card is redrawn: at most once per interval unless a
//! redraw is forced. Clock readings are supplied by the runtime, in
//! milliseconds of a monotonic clock.
use vstd::prelude::*;
use crate::model::TurnKey;

verus! {

/// Time passed from `last` to `now`; nothing when the clock reads earlier.
pub open spec fn elapsed(last: u64, now: u64) -> int {
    if now >= last { now - last } else { 0 }
}

/// Whether a redraw of `key` at `now` happens.
pub open spec fn renders(m: Map<(Seq<char>, Seq<char>), u64>, key: (Seq<char>, Seq<char>), force: bool, interval: u64, now: u64) -> bool {
    force || !(m.contains_key(key) && elapsed(m[key], now) < interval)
}

pub open spec fn renders_map(entries: Seq<(TurnKey, u64)>) -> Map<(Seq<char>, Seq<char>), u64>
    decreases entries.len(),
{
    if entries.len() == 0 {
        Map::empty()
    } else {
        renders_map(entries.drop_last()).insert(entries.last().0@, entries.last().1)
    }
}

pub open spec fn distinct_keys(entries: Seq<(TurnKey, u64)>) -> bool {
    forall|i: int, j: int| 0 <= i < entries.len() && 0 <= j < entries.len() && i != j ==> entries[i].0@ != entries[j].0@
}

proof fn lemma_renders_map_at(entries: Seq<(TurnKey, u64)>, i: int)
    requires
        distinct_keys(entries),
        0 <= i < entries.len(),
    ensures
        renders_map(entries).contains_key(entries[i].0@),
        renders_map(entries)[entries[i].0@] == entries[i].1,
    decreases entries.len(),
{
    if i < entries.len() - 1 {
        let d = entries.drop_last();
        assert(d[i] == entries[i]);
        lemma_renders_map_at(d, i);
    }
}

proof fn lemma_renders_map_absent(entries: Seq<(TurnKey, u64)>, key: (Seq<char>, Seq<char>))
    requires
        forall|i: int| 0 <= i < entries.len() ==> entries[i].0@ != key,
    ensures
        !renders_map(entries).contains_key(key),
    decreases entries.len(),
{
    if entries.len() > 0 {
        lemma_renders_map_absent(entries.drop_last(), key);
    }
}

proof fn lemma_renders_map_update(entries: Seq<(TurnKey, u64)>, i: int, e: (TurnKey, u64))
    requires
        distinct_keys(entries),
        0 <= i < entries.len(),
        e.0@ == entries[i].0@,
    ensures
        renders_map(entries.update(i, e)) == renders_map(entries).insert(e.0@, e.1),
    decreases entries.len(),
{
    let u = entries.update(i, e);
    if i == entries.len() - 1 {
        assert(u.drop_last() =~= entries.drop_last());
        assert(renders_map(u) =~= renders_map(entries).insert(e.0@, e.1));
    } else {
        let d = entries.drop_last();
        assert(u.drop_last() =~= d.update(i, e));
        lemma_renders_map_update(d, i, e);
        assert(renders_map(u) =~= renders_map(entries).insert(e.0@, e.1));
    }
}

/// When each turn's card was last drawn.
pub struct RenderThrottle {
    last: Vec<(TurnKey, u64)>,
}

impl View for RenderThrottle {
    type V = Map<(Seq<char>, Seq<char>), u64>;

    closed spec fn view(&self) -> Self::V {
        renders_map(self.last@)
    }
}

impl RenderThrottle {
    pub closed spec fn wf(&self) -> bool {
        distinct_keys(self.last@)
    }

    pub fn new() -> (r: Self)
        ensures
            r.wf(),
            r@ == Map::<(Seq<char>, Seq<char>), u64>::empty(),
    {
        RenderThrottle { last: Vec::new() }
    }

    /// Whether `key`'s card is redrawn at `now`: forced, never drawn, or
    /// drawn at least `interval` ago. A redraw is remembered.
    pub fn should_render(&mut self, key: &TurnKey, force: bool, interval: u64, now: u64) -> (r: bool)
        requires
            old(self).wf(),
        ensures
            final(self).wf(),
            r == renders(old(self)@, key@, force, interval, now),
            final(self)@ == if r { old(self)@.insert(key@, now) } else { old(self)@ },
    {
        let mut i: usize = 0;
        while i < self.last.len() && !self.last[i].0.same(key)
            invariant
                i <= self.last.len(),
                forall|j: int| 0 <= j < i ==> self.last@[j].0@ != key@,
            decreases self.last.len() - i,
        {
            i = i + 1;
        }
        let ghost old_last = self.last@;
        if i < self.last.len() {
            proof {
                lemma_renders_map_at(old_last, i as int);
            }
            let last = self.last[i].1;
            let waited = if now >= last { now - last } else { 0 };
            if !force && waited < interval {
                return false;
            }
            let entry = (key.duplicate(), now);
            proof {
                lemma_renders_map_update(old_last, i as int, entry);
            }
            self.last.set(i, entry);
            proof {
                let es = self.last@;
                assert forall|a: int, b: int| 0 <= a < es.len() && 0 <= b < es.len() && a != b implies es[a].0@ != es[b].0@ by {
                    assert(es[a].0@ == old_last[a].0@ && es[b].0@ == old_last[b].0@);
                }
            }
        } else {
            proof {
                lemma_renders_map_absent(old_last, key@);
            }
            let entry = (key.duplicate(), now);
            self.last.push(entry);
            proof {
                assert(self.last@.drop_last() =~= old_last);
                let es = self.last@;
                assert forall|a: int, b: int| 0 <= a < es.len() && 0 <= b < es.len() && a != b implies es[a].0@ != es[b].0@ by {
                    if a < old_last.len() {
                        assert(es[a] == old_last[a]);
                    }
                    if b < old_last.len() {
                        assert(es[b] == old_last[b]);
                    }
                }
            }
        }
        true
    }
}

/// Within an interval of a redraw, another redraw happens only when forced;
/// other turns' redraws are unaffected.
pub proof fn redraws_are_spaced(
    m: Map<(Seq<char>, Seq<char>), u64>,
    key: (Seq<char>, Seq<char>),
    force: bool,
    interval: u64,
    now: u64,
    other: (Seq<char>, Seq<char>),
    later: u64,
)
    requires
        renders(m, key, force, interval, now),
    ensures
        now <= later && later - now < interval ==> !renders(m.insert(key, now), key, false, interval, later),
        other != key ==> renders(m.insert(key, now), other, false, interval, later) == renders(m, other, false, interval, later),
{
}

} // verus!
