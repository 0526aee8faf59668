//! Admission of optional completion notices: a bounded queue with a fixed
//! number of running deliveries, deduplicated by turn. The runtime performs
//! the deliveries that this queue starts and reports when each one ends.
use vstd::prelude::*;
use crate::model::{TurnKey, contains_key, keys_view};

verus! {

/// Deliveries running at once.
pub const CONCURRENCY: usize = 4;
/// Deliveries waiting or running at once.
pub const CAPACITY: usize = 64;
/// Finished turns remembered so that a repeated completion is not announced again.
pub const RECENT_CAPACITY: usize = 256;

/// Optional-work queue diagnostics, independent of the event queue.
#[derive(Debug, Clone, Copy)]
pub struct BackgroundCompletionStatistics {
    pub active: usize,
    pub queued: usize,
    pub rejected: u64,
}

pub type KeyModel = (Seq<char>, Seq<char>);

/// Queue of notices: `R` is the work to perform for a turn.
pub struct BackgroundQueue<R> {
    closed: bool,
    waiting: Vec<(TurnKey, R)>,
    running: Vec<TurnKey>,
    recent: Vec<TurnKey>,
    rejected: u64,
}

pub struct QueueModel<R> {
    pub closed: bool,
    pub waiting: Seq<(KeyModel, R)>,
    pub running: Seq<KeyModel>,
    pub recent: Seq<KeyModel>,
    pub rejected: u64,
}

pub open spec fn entries_view<R>(entries: Seq<(TurnKey, R)>) -> Seq<(KeyModel, R)> {
    entries.map_values(|e: (TurnKey, R)| (e.0@, e.1))
}

pub open spec fn entry_keys<R>(entries: Seq<(KeyModel, R)>) -> Seq<KeyModel> {
    entries.map_values(|e: (KeyModel, R)| e.0)
}

impl<R> View for BackgroundQueue<R> {
    type V = QueueModel<R>;

    closed spec fn view(&self) -> QueueModel<R> {
        QueueModel {
            closed: self.closed,
            waiting: entries_view(self.waiting@),
            running: keys_view(self.running@),
            recent: keys_view(self.recent@),
            rejected: self.rejected,
        }
    }
}

/// The queue's invariant: bounded, work-conserving and never holding a turn twice.
pub open spec fn queue_inv<R>(m: QueueModel<R>) -> bool {
    let keys = m.running + entry_keys(m.waiting);
    &&& m.running.len() <= CONCURRENCY
    &&& m.running.len() + m.waiting.len() <= CAPACITY
    &&& m.recent.len() <= RECENT_CAPACITY
    &&& (m.waiting.len() > 0 ==> m.running.len() == CONCURRENCY)
    &&& (m.closed ==> m.waiting.len() == 0)
    &&& forall|i: int, j: int| 0 <= i < keys.len() && 0 <= j < keys.len() && i != j ==> keys[i] != keys[j]
}

/// Move waiting work to running while slots are free; the started work in order.
pub open spec fn start_model<R>(m: QueueModel<R>) -> (QueueModel<R>, Seq<(KeyModel, R)>) {
    let free = CONCURRENCY - m.running.len();
    let n = if m.waiting.len() < free { m.waiting.len() as int } else { free };
    (
        QueueModel { waiting: m.waiting.skip(n), running: m.running + entry_keys(m.waiting.take(n)), ..m },
        m.waiting.take(n),
    )
}

/// What became of a submitted notice.
pub enum Submission<R> {
    /// The queue is closed or the turn is already queued, running or done.
    Ignored,
    /// The queue was full; the notice is dropped and counted.
    Rejected,
    /// Admitted; the work to start now (possibly none).
    Accepted(Vec<(TurnKey, R)>),
}

/// The rejection counter after one more rejection (wrapping at the top).
pub open spec fn next_count(n: u64) -> u64 {
    if n == u64::MAX { 0 } else { (n + 1) as u64 }
}

pub open spec fn known<R>(m: QueueModel<R>, key: KeyModel) -> bool {
    m.closed || m.running.contains(key) || entry_keys(m.waiting).contains(key) || m.recent.contains(key)
}

impl<R> BackgroundQueue<R> {
    pub fn new() -> (r: Self)
        ensures
            r@ == (QueueModel::<R> {
                closed: false,
                waiting: Seq::empty(),
                running: Seq::empty(),
                recent: Seq::empty(),
                rejected: 0,
            }),
            queue_inv(r@),
    {
        let r = BackgroundQueue { closed: false, waiting: Vec::new(), running: Vec::new(), recent: Vec::new(), rejected: 0 };
        assert(r@.waiting =~= Seq::<(KeyModel, R)>::empty());
        assert(r@.running =~= Seq::<KeyModel>::empty());
        assert(r@.recent =~= Seq::<KeyModel>::empty());
        r
    }

    /// Counts of running and waiting work and of rejected notices.
    pub fn statistics(&self) -> (r: BackgroundCompletionStatistics)
        ensures
            r.active == self@.running.len(),
            r.queued == self@.waiting.len(),
            r.rejected == self@.rejected,
    {
        BackgroundCompletionStatistics { active: self.running.len(), queued: self.waiting.len(), rejected: self.rejected }
    }

    fn start(&mut self) -> (started: Vec<(TurnKey, R)>)
        requires
            old(self)@.running.len() <= CONCURRENCY,
        ensures
            (final(self)@, entries_view(started@)) == start_model(old(self)@),
    {
        let ghost m = self@;
        let mut started: Vec<(TurnKey, R)> = Vec::new();
        while self.running.len() < CONCURRENCY && self.waiting.len() > 0
            invariant
                self.closed == m.closed,
                keys_view(self.recent@) == m.recent,
                self.rejected == m.rejected,
                m.running.len() <= CONCURRENCY,
                started@.len() <= m.waiting.len(),
                self.running@.len() == m.running.len() + started@.len(),
                self.running@.len() <= CONCURRENCY,
                entries_view(started@) == m.waiting.take(started@.len() as int),
                entries_view(self.waiting@) == m.waiting.skip(started@.len() as int),
                keys_view(self.running@) == m.running + entry_keys(m.waiting.take(started@.len() as int)),
            decreases self.waiting.len(),
        {
            let ghost k = started@.len() as int;
            let ghost w0 = self.waiting@;
            let ghost r0 = self.running@;
            let ghost s0 = started@;
            assert(entries_view(w0).len() == w0.len());
            assert(m.waiting.skip(k).len() > 0);
            assert(m.waiting[k] == entries_view(w0)[0]);
            let entry = self.waiting.remove(0);
            let d = entry.0.duplicate();
            self.running.push(d);
            started.push(entry);
            proof {
                assert(self.waiting@ == w0.remove(0));
                assert(entries_view(self.waiting@) =~= entries_view(w0).drop_first());
                assert(entries_view(w0).drop_first() =~= m.waiting.skip(k + 1));
                assert(self.running@ == r0.push(d));
                assert(keys_view(self.running@) =~= keys_view(r0).push(d@));
                assert(entry_keys(m.waiting.take(k + 1)) =~= entry_keys(m.waiting.take(k)).push(m.waiting[k].0));
                assert(keys_view(self.running@) =~= m.running + entry_keys(m.waiting.take(k + 1)));
                assert(started@ == s0.push(entry));
                assert(entries_view(started@) =~= entries_view(s0).push((entry.0@, entry.1)));
                assert(entries_view(started@) =~= m.waiting.take(k + 1));
            }
        }
        proof {
            let expected = start_model(m);
            assert(entries_view(self.waiting@).len() == self.waiting@.len());
            assert(keys_view(self.running@).len() == self.running@.len());
            let free = CONCURRENCY - m.running.len();
            let n = if m.waiting.len() < free { m.waiting.len() as int } else { free as int };
            assert(self.waiting@.len() == m.waiting.len() - started@.len());
            assert(started@.len() == n);
            assert(self@.waiting =~= expected.0.waiting);
            assert(self@.running =~= expected.0.running);
        }
        started
    }

    /// Admit a notice for `key`, unless its turn is known or the queue is full,
    /// and start work while delivery slots are free.
    pub fn submit(&mut self, key: TurnKey, request: R) -> (r: Submission<R>)
        requires
            queue_inv(old(self)@),
        ensures
            queue_inv(final(self)@),
            known(old(self)@, key@) ==> r is Ignored && final(self)@ == old(self)@,
            !known(old(self)@, key@) && old(self)@.running.len() + old(self)@.waiting.len() >= CAPACITY ==> r is Rejected
                && final(self)@ == (QueueModel { rejected: next_count(old(self)@.rejected), ..old(self)@ }),
            !known(old(self)@, key@) && old(self)@.running.len() + old(self)@.waiting.len() < CAPACITY ==> match r {
                Submission::Accepted(started) => {
                    let (m, s) = start_model(QueueModel { waiting: old(self)@.waiting.push((key@, request)), ..old(self)@ });
                    final(self)@ == m && entries_view(started@) == s
                },
                _ => false,
            },
    {
        if self.closed || contains_key(&self.running, &key) || self.recent_or_waiting(&key) {
            return Submission::Ignored;
        }
        if self.running.len() + self.waiting.len() >= CAPACITY {
            self.rejected = self.rejected.wrapping_add(1);
            return Submission::Rejected;
        }
        let ghost before = self@;
        self.waiting.push((key, request));
        proof {
            assert(self@.waiting =~= before.waiting.push((key@, request)));
        }
        let started = self.start();
        proof {
            let keys0 = before.running + entry_keys(before.waiting);
            let mid = QueueModel { waiting: before.waiting.push((key@, request)), ..before };
            let keys1 = mid.running + entry_keys(mid.waiting);
            assert(keys1 =~= keys0.push(key@));
            assert(!keys0.contains(key@)) by {
                if keys0.contains(key@) {
                    let i = choose|i: int| 0 <= i < keys0.len() && keys0[i] == key@;
                    if i < before.running.len() {
                        assert(before.running[i] == key@);
                    } else {
                        assert(entry_keys(before.waiting)[i - before.running.len()] == key@);
                    }
                }
            }
            let after = self@;
            let n = (after.running.len() - before.running.len()) as int;
            assert(after.running + entry_keys(after.waiting) =~= keys1) by {
                assert(entry_keys(mid.waiting) =~= entry_keys(mid.waiting.take(n)) + entry_keys(mid.waiting.skip(n)));
            }
        }
        Submission::Accepted(started)
    }

    fn recent_or_waiting(&self, key: &TurnKey) -> (r: bool)
        ensures
            r == (entry_keys(self@.waiting).contains(key@) || self@.recent.contains(key@)),
    {
        if contains_key(&self.recent, key) {
            return true;
        }
        let mut i: usize = 0;
        while i < self.waiting.len()
            invariant
                i <= self.waiting.len(),
                forall|j: int| 0 <= j < i ==> self.waiting@[j].0@ != key@,
            decreases self.waiting.len() - i,
        {
            if self.waiting[i].0.same(key) {
                assert(entry_keys(self@.waiting)[i as int] == key@);
                return true;
            }
            i = i + 1;
        }
        assert forall|j: int| 0 <= j < entry_keys(self@.waiting).len() implies entry_keys(self@.waiting)[j] != key@ by {
            assert(entry_keys(self@.waiting)[j] == self.waiting@[j].0@);
        }
        false
    }
}


/// `keys` without `key`.
pub open spec fn without(keys: Seq<KeyModel>, key: KeyModel) -> Seq<KeyModel>
    decreases keys.len(),
{
    if keys.len() == 0 {
        Seq::empty()
    } else {
        let rest = without(keys.drop_last(), key);
        if keys.last() == key { rest } else { rest.push(keys.last()) }
    }
}

/// The queue after the work for `key` ended: its slot is freed, the turn is
/// remembered (the oldest memory is dropped beyond the limit) and waiting
/// work starts.
pub open spec fn finish_model<R>(m: QueueModel<R>, key: KeyModel) -> (QueueModel<R>, Seq<(KeyModel, R)>) {
    let running = without(m.running, key);
    if m.closed {
        (QueueModel { running, ..m }, Seq::empty())
    } else {
        let recent1 = m.recent.push(key);
        let recent = if recent1.len() > RECENT_CAPACITY { recent1.drop_first() } else { recent1 };
        start_model(QueueModel { running, recent, ..m })
    }
}

proof fn lemma_without(keys: Seq<KeyModel>, key: KeyModel)
    ensures
        without(keys, key).len() <= keys.len(),
        forall|i: int| 0 <= i < without(keys, key).len() ==> keys.contains(#[trigger] without(keys, key)[i]),
        (forall|i: int, j: int| 0 <= i < keys.len() && 0 <= j < keys.len() && i != j ==> keys[i] != keys[j])
            ==> (forall|i: int, j: int| 0 <= i < without(keys, key).len() && 0 <= j < without(keys, key).len() && i != j
                ==> without(keys, key)[i] != without(keys, key)[j]),
    decreases keys.len(),
{
    if keys.len() > 0 {
        let d = keys.drop_last();
        lemma_without(d, key);
        assert forall|i: int| 0 <= i < d.len() implies keys.contains(#[trigger] d[i]) by {
            assert(keys[i] == d[i]);
        }
        let w = without(keys, key);
        let wd = without(d, key);
        assert forall|i: int| 0 <= i < w.len() implies keys.contains(#[trigger] w[i]) by {
            if i < wd.len() {
                assert(w[i] == wd[i]);
                assert(d.contains(wd[i]));
                let t = choose|t: int| 0 <= t < d.len() && d[t] == wd[i];
                assert(keys[t] == d[t]);
            } else {
                assert(w[i] == keys.last());
                assert(keys[keys.len() - 1] == keys.last());
            }
        }
        if forall|i: int, j: int| 0 <= i < keys.len() && 0 <= j < keys.len() && i != j ==> keys[i] != keys[j] {
            assert forall|i: int, j: int| 0 <= i < d.len() && 0 <= j < d.len() && i != j implies d[i] != d[j] by {
                assert(d[i] == keys[i] && d[j] == keys[j]);
            }
            if keys.last() != key {
                assert forall|i: int| 0 <= i < wd.len() implies wd[i] != keys.last() by {
                    assert(d.contains(wd[i]));
                    let t = choose|t: int| 0 <= t < d.len() && d[t] == wd[i];
                    assert(keys[t] == d[t]);
                    assert(keys[keys.len() - 1] == keys.last());
                }
            }
        }
    }
}

impl<R> BackgroundQueue<R> {
    fn remove_running(&mut self, key: &TurnKey)
        ensures
            final(self)@ == (QueueModel { running: without(old(self)@.running, key@), ..old(self)@ }),
    {
        let ghost m = self@;
        let mut kept: Vec<TurnKey> = Vec::new();
        let mut i: usize = 0;
        while i < self.running.len()
            invariant
                i <= self.running.len(),
                self@ == m,
                keys_view(kept@) == without(m.running.take(i as int), key@),
            decreases self.running.len() - i,
        {
            assert(m.running.take(i + 1).drop_last() =~= m.running.take(i as int));
            assert(m.running[i as int] == self.running@[i as int]@);
            if !self.running[i].same(key) {
                let ghost before = keys_view(kept@);
                kept.push(self.running[i].duplicate());
                assert(keys_view(kept@) =~= before.push(self.running@[i as int]@));
            }
            i = i + 1;
        }
        assert(m.running.take(i as int) =~= m.running);
        self.running = kept;
    }

    /// The work for `key` ended (delivered, failed or cancelled): free its
    /// slot and start waiting work.
    pub fn finish(&mut self, key: &TurnKey) -> (started: Vec<(TurnKey, R)>)
        requires
            queue_inv(old(self)@),
        ensures
            queue_inv(final(self)@),
            (final(self)@, entries_view(started@)) == finish_model(old(self)@, key@),
    {
        let ghost m = self@;
        proof { lemma_without(m.running, key@); }
        self.remove_running(key);
        proof {
            let keys0 = m.running + entry_keys(m.waiting);
            let w = without(m.running, key@);
            assert forall|i: int, j: int| 0 <= i < m.running.len() && 0 <= j < m.running.len() && i != j
                implies m.running[i] != m.running[j] by {
                assert(keys0[i] == m.running[i] && keys0[j] == m.running[j]);
            }
            assert forall|i: int, j: int| 0 <= i < (w + entry_keys(m.waiting)).len() && 0 <= j < (w + entry_keys(m.waiting)).len() && i != j
                implies (w + entry_keys(m.waiting))[i] != (w + entry_keys(m.waiting))[j] by {
                let ks = w + entry_keys(m.waiting);
                let wl = w.len() as int;
                let rl = m.running.len() as int;
                if i < wl && j < wl {
                    assert(ks[i] == w[i] && ks[j] == w[j]);
                } else if i >= wl && j >= wl {
                    assert(ks[i] == keys0[i - wl + rl]);
                    assert(ks[j] == keys0[j - wl + rl]);
                } else {
                    let (a, b) = if i < wl { (i, j) } else { (j, i) };
                    assert(m.running.contains(w[a]));
                    let t = choose|t: int| 0 <= t < m.running.len() && m.running[t] == w[a];
                    assert(keys0[t] == w[a]);
                    assert(ks[a] == w[a]);
                    assert(ks[b] == keys0[b - wl + rl]);
                }
            }
        }
        if self.closed {
            return Vec::new();
        }
        self.recent.push(key.duplicate());
        if self.recent.len() > RECENT_CAPACITY {
            self.recent.remove(0);
        }
        proof {
            let recent1 = m.recent.push(key@);
            let expected = if recent1.len() > RECENT_CAPACITY { recent1.drop_first() } else { recent1 };
            assert(self@.recent =~= expected);
        }
        let ghost mid = self@;
        let started = self.start();
        proof {
            let n = (self@.running.len() - mid.running.len()) as int;
            assert(entry_keys(mid.waiting) =~= entry_keys(mid.waiting.take(n)) + entry_keys(mid.waiting.skip(n)));
            assert(self@.running + entry_keys(self@.waiting) =~= mid.running + entry_keys(mid.waiting));
        }
        started
    }

    /// Stop admitting work and drop waiting work; the running work to abort.
    pub fn cancel(&mut self) -> (aborted: Vec<TurnKey>)
        requires
            queue_inv(old(self)@),
        ensures
            queue_inv(final(self)@),
            keys_view(aborted@) == old(self)@.running,
            final(self)@ == (QueueModel { closed: true, waiting: Seq::empty(), running: Seq::empty(), ..old(self)@ }),
    {
        self.closed = true;
        self.waiting = Vec::new();
        let mut aborted: Vec<TurnKey> = Vec::new();
        std::mem::swap(&mut aborted, &mut self.running);
        proof {
            assert(self@.waiting =~= Seq::<(KeyModel, R)>::empty());
            assert(self@.running =~= Seq::<KeyModel>::empty());
            assert(self@.running + entry_keys(self@.waiting) =~= Seq::<KeyModel>::empty());
        }
        aborted
    }
}

/// Once cancelled, every further notice is ignored.
pub proof fn cancelled_queue_ignores<R>(m: QueueModel<R>, key: KeyModel)
    requires
        m.closed,
    ensures
        known(m, key),
{
}

/// The rejection count never goes down: admitting, starting and finishing
/// work keep it, and a rejection raises it by one (wrapping only past
/// `u64::MAX`).
pub proof fn rejections_never_decrease<R>(m: QueueModel<R>, key: KeyModel, request: R)
    ensures
        start_model(QueueModel { waiting: m.waiting.push((key, request)), ..m }).0.rejected == m.rejected,
        finish_model(m, key).0.rejected == m.rejected,
        m.rejected < u64::MAX ==> next_count(m.rejected) == m.rejected + 1,
{
}

} // verus!
