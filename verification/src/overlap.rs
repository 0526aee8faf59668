//! Joining a text snapshot with a stream that may overlap its end.
use vstd::prelude::*;
use crate::text::{append, chars_of, contains_seq, is_prefix, occurs_at, owned, string_of_range};

verus! {

/// The first `k` characters of `p` are the last `k` characters of `t`.
pub open spec fn ends_with_prefix(t: Seq<char>, p: Seq<char>, k: int) -> bool {
    0 <= k <= p.len() && k <= t.len() && t.subrange(t.len() - k, t.len() as int) == p.subrange(0, k)
}

pub open spec fn overlap_from(t: Seq<char>, p: Seq<char>, k: nat) -> nat
    decreases k,
{
    if k == 0 {
        0
    } else if ends_with_prefix(t, p, k as int) {
        k
    } else {
        overlap_from(t, p, (k - 1) as nat)
    }
}

/// Length of the longest prefix of `p` that ends `t`.
pub open spec fn longest_overlap(t: Seq<char>, p: Seq<char>) -> nat {
    overlap_from(t, p, if t.len() < p.len() { t.len() } else { p.len() })
}

/// The snapshot `history` with the part of `observed` it lacks: unchanged when
/// it already holds `observed`, otherwise extended past their longest overlap.
pub open spec fn merged_text(history: Seq<char>, observed: Seq<char>) -> Seq<char> {
    if contains_seq(history, observed) {
        history
    } else {
        history + observed.subrange(longest_overlap(history, observed) as int, observed.len() as int)
    }
}

/// Longest proper prefix of `p[..i+1]` that also ends it, as a length.
pub open spec fn is_border_table(p: Seq<char>, table: Seq<usize>, n: int) -> bool {
    &&& n <= table.len()
    &&& forall|i: int| 0 <= i < n ==> is_max_border(p, i, #[trigger] table[i] as int)
}

pub open spec fn is_max_border(p: Seq<char>, i: int, v: int) -> bool {
    &&& 0 <= v <= i
    &&& ends_with_prefix(p.subrange(0, i + 1), p, v)
    &&& forall|k: int| v < k <= i ==> !#[trigger] ends_with_prefix(p.subrange(0, i + 1), p, k)
}

/// `v` is the longest prefix of `p` ending `t`.
pub open spec fn is_max_overlap(t: Seq<char>, p: Seq<char>, v: int) -> bool {
    &&& ends_with_prefix(t, p, v)
    &&& forall|k: int| v < k <= p.len() ==> !#[trigger] ends_with_prefix(t, p, k)
}

pub proof fn lemma_overlap_from(t: Seq<char>, p: Seq<char>, k: nat)
    requires
        k <= t.len(),
        k <= p.len(),
        forall|j: int| k < j <= p.len() ==> !#[trigger] ends_with_prefix(t, p, j),
    ensures
        is_max_overlap(t, p, overlap_from(t, p, k) as int),
    decreases k,
{
    if k == 0 {
        assert(t.subrange(t.len() - 0, t.len() as int) =~= p.subrange(0, 0));
    } else if ends_with_prefix(t, p, k as int) {
    } else {
        lemma_overlap_from(t, p, (k - 1) as nat);
    }
}

pub proof fn lemma_longest_overlap(t: Seq<char>, p: Seq<char>)
    ensures
        is_max_overlap(t, p, longest_overlap(t, p) as int),
{
    let m: nat = if t.len() < p.len() { t.len() } else { p.len() };
    lemma_overlap_from(t, p, m);
}

/// A maximal overlap is unique.
pub proof fn lemma_max_overlap_unique(t: Seq<char>, p: Seq<char>, a: int, b: int)
    requires
        is_max_overlap(t, p, a),
        is_max_overlap(t, p, b),
    ensures
        a == b,
{
}

/// Two prefixes of `p` ending `t`: the shorter one ends the longer one.
proof fn lemma_nested(t: Seq<char>, p: Seq<char>, a: int, b: int)
    requires
        ends_with_prefix(t, p, a),
        ends_with_prefix(t, p, b),
        b <= a,
    ensures
        ends_with_prefix(p.subrange(0, a), p, b),
{
    let pa = p.subrange(0, a);
    assert forall|i: int| 0 <= i < b implies #[trigger] pa.subrange(a - b, a)[i] == p.subrange(0, b)[i] by {
        assert(t.subrange(t.len() - a, t.len() as int)[a - b + i] == p.subrange(0, a)[a - b + i]);
        assert(t.subrange(t.len() - b, t.len() as int)[i] == p.subrange(0, b)[i]);
    }
    assert(pa.subrange(a - b, a) =~= p.subrange(0, b));
}

/// A prefix ending a prefix that ends `t` ends `t` too.
proof fn lemma_chain(t: Seq<char>, p: Seq<char>, a: int, b: int)
    requires
        ends_with_prefix(t, p, a),
        ends_with_prefix(p.subrange(0, a), p, b),
    ensures
        ends_with_prefix(t, p, b),
{
    let pa = p.subrange(0, a);
    assert forall|i: int| 0 <= i < b implies #[trigger] t.subrange(t.len() - b, t.len() as int)[i] == p.subrange(0, b)[i] by {
        assert(pa.subrange(a - b, a)[i] == p.subrange(0, b)[i]);
        assert(t.subrange(t.len() - a, t.len() as int)[a - b + i] == pa[a - b + i]);
    }
    assert(t.subrange(t.len() - b, t.len() as int) =~= p.subrange(0, b));
}

/// Extending `t` by `c` extends a prefix ending it by one character.
proof fn lemma_extend(t: Seq<char>, p: Seq<char>, c: char, k: int)
    requires
        0 < k <= p.len(),
    ensures
        ends_with_prefix(t.push(c), p, k) <==> (ends_with_prefix(t, p, k - 1) && p[k - 1] == c),
{
    let u = t.push(c);
    if ends_with_prefix(u, p, k) {
        assert(u.subrange(u.len() - k, u.len() as int)[k - 1] == p.subrange(0, k)[k - 1]);
        assert forall|i: int| 0 <= i < k - 1 implies #[trigger] t.subrange(t.len() - (k - 1), t.len() as int)[i]
            == p.subrange(0, k - 1)[i] by {
            assert(u.subrange(u.len() - k, u.len() as int)[i] == p.subrange(0, k)[i]);
        }
        assert(t.subrange(t.len() - (k - 1), t.len() as int) =~= p.subrange(0, k - 1));
    }
    if ends_with_prefix(t, p, k - 1) && p[k - 1] == c {
        assert forall|i: int| 0 <= i < k implies #[trigger] u.subrange(u.len() - k, u.len() as int)[i]
            == p.subrange(0, k)[i] by {
            if i < k - 1 {
                assert(t.subrange(t.len() - (k - 1), t.len() as int)[i] == p.subrange(0, k - 1)[i]);
            }
        }
        assert(u.subrange(u.len() - k, u.len() as int) =~= p.subrange(0, k));
    }
}

/// One step of the automaton: from the longest prefix of `p` ending `t`,
/// walk the border table down to the longest one that `c` extends.
fn step(p: &Vec<char>, table: &Vec<usize>, Ghost(t): Ghost<Seq<char>>, cur: usize, c: char) -> (next: usize)
    requires
        p.len() > 0,
        table.len() == p.len(),
        is_border_table(p@, table@, p.len() as int),
        is_max_overlap(t, p@, cur as int),
    ensures
        is_max_overlap(t.push(c), p@, next as int),
{
    let ghost start = cur;
    let mut cur = cur;
    while cur > 0 && (cur == p.len() || c != p[cur])
        invariant
            p.len() > 0,
            table.len() == p.len(),
            is_border_table(p@, table@, p.len() as int),
            is_max_overlap(t, p@, start as int),
            ends_with_prefix(t, p@, cur as int),
            cur <= start,
            forall|k: int| cur < k <= p.len() && #[trigger] ends_with_prefix(t, p@, k) ==> k == p.len() || p@[k] != c,
        decreases cur,
    {
        let ghost old_cur = cur as int;
        let b = table[cur - 1];
        proof {
            assert(is_max_border(p@, old_cur - 1, b as int));
            assert(p@.subrange(0, old_cur - 1 + 1) =~= p@.subrange(0, old_cur));
            lemma_chain(t, p@, old_cur, b as int);
            assert forall|k: int| b < k <= p.len() && #[trigger] ends_with_prefix(t, p@, k) implies k == p.len() || p@[k] != c by {
                if k <= old_cur {
                    if k < old_cur {
                        lemma_nested(t, p@, old_cur, k);
                        assert(false);
                    }
                }
            }
        }
        cur = b;
    }
    let ghost u = t.push(c);
    if cur < p.len() && c == p[cur] {
        proof {
            lemma_extend(t, p@, c, cur + 1);
            assert forall|k: int| cur + 1 < k <= p.len() implies !#[trigger] ends_with_prefix(u, p@, k) by {
                lemma_extend(t, p@, c, k);
            }
        }
        cur + 1
    } else {
        proof {
            assert(u.subrange(u.len() - 0, u.len() as int) =~= p@.subrange(0, 0));
            assert forall|k: int| 0 < k <= p.len() implies !#[trigger] ends_with_prefix(u, p@, k) by {
                lemma_extend(t, p@, c, k);
            }
        }
        0
    }
}

/// The border table of `p`, computed in linear time.
fn border_table(p: &Vec<char>) -> (table: Vec<usize>)
    requires
        p.len() > 0,
    ensures
        table.len() == p.len(),
        is_border_table(p@, table@, p.len() as int),
{
    let mut table: Vec<usize> = Vec::new();
    table.push(0);
    proof {
        let p1 = p@.subrange(0, 1);
        assert(p1.subrange(1 - 0, 1) =~= p@.subrange(0, 0));
    }
    let mut i: usize = 1;
    while i < p.len()
        invariant
            1 <= i <= p.len(),
            table.len() == i,
            is_border_table(p@, table@, i as int),
        decreases p.len() - i,
    {
        // The borders of p[..i+1] are the prefixes ending p[1..i+1] that are
        // shorter than i + 1: run the automaton of p[..i] over p[1..=i].
        let ghost pi = p@.subrange(0, i as int);
        let ghost t = p@.subrange(1, i as int);
        let prev = table[i - 1];
        proof {
            assert(is_max_border(p@, i - 1, prev as int));
            assert(p@.subrange(0, i - 1 + 1) =~= pi);
            // the largest prefix of p ending t is a border of p[..i]
            assert forall|k: int| 0 <= k <= p.len() implies (#[trigger] ends_with_prefix(t, p@, k) <==> (k <= i - 1
                && ends_with_prefix(pi, p@, k))) by {
                if 0 <= k <= i - 1 {
                    assert(pi.subrange(pi.len() - k, pi.len() as int) =~= t.subrange(t.len() - k, t.len() as int));
                }
            }
        }
        let mut cur = prev;
        while cur > 0 && p[i] != p[cur]
            invariant
                1 <= i < p.len(),
                table.len() == i,
                is_border_table(p@, table@, i as int),
                ends_with_prefix(t, p@, cur as int),
                cur < i,
                forall|k: int| cur < k < i && #[trigger] ends_with_prefix(t, p@, k) ==> p@[k] != p@[i as int],
            decreases cur,
        {
            let ghost old_cur = cur as int;
            let b = table[cur - 1];
            proof {
                assert(is_max_border(p@, old_cur - 1, b as int));
                assert(p@.subrange(0, old_cur - 1 + 1) =~= p@.subrange(0, old_cur));
                lemma_chain(t, p@, old_cur, b as int);
                assert forall|k: int| b < k < i && #[trigger] ends_with_prefix(t, p@, k) implies p@[k] != p@[i as int] by {
                    if k < old_cur {
                        lemma_nested(t, p@, old_cur, k);
                        assert(false);
                    }
                }
            }
            cur = b;
        }
        let ghost q = p@.subrange(0, i + 1);
        let v = if p[i] == p[cur] { cur + 1 } else { 0 };
        proof {
            let u = t.push(p@[i as int]);
            assert forall|k: int| 0 <= k <= i implies (#[trigger] ends_with_prefix(q, p@, k) <==> ends_with_prefix(u, p@, k)) by {
                if k <= i {
                    assert(q.subrange(q.len() - k, q.len() as int) =~= u.subrange(u.len() - k, u.len() as int));
                }
            }
            if v > 0 {
                lemma_extend(t, p@, p@[i as int], v as int);
            } else {
                assert(q.subrange(q.len() - 0, q.len() as int) =~= p@.subrange(0, 0));
            }
            assert forall|k: int| v < k <= i implies !#[trigger] ends_with_prefix(q, p@, k) by {
                lemma_extend(t, p@, p@[i as int], k);
            }
            assert(is_max_border(p@, i as int, v as int));
        }
        table.push(v);
        i = i + 1;
    }
    table
}


/// One pass of the automaton over `h`: whether `p` occurs in `h`, and the
/// longest prefix of `p` ending `h`.
fn scan(h: &Vec<char>, p: &Vec<char>) -> (res: (bool, usize))
    requires
        p.len() > 0,
    ensures
        res.0 == contains_seq(h@, p@),
        is_max_overlap(h@, p@, res.1 as int),
{
    let table = border_table(p);
    let mut found = false;
    let mut cur: usize = 0;
    proof {
        let t = h@.subrange(0, 0);
        assert(t.subrange(0, 0) =~= p@.subrange(0, 0));
    }
    let mut j: usize = 0;
    while j < h.len()
        invariant
            p.len() > 0,
            j <= h.len(),
            table.len() == p.len(),
            is_border_table(p@, table@, p.len() as int),
            is_max_overlap(h@.subrange(0, j as int), p@, cur as int),
            found == exists|i: int| i + p.len() <= j && #[trigger] occurs_at(h@, p@, i),
        decreases h.len() - j,
    {
        let ghost t = h@.subrange(0, j as int);
        cur = step(p, &table, Ghost(t), cur, h[j]);
        let ghost u = h@.subrange(0, j + 1);
        proof {
            assert(t.push(h@[j as int]) =~= u);
            let s = j + 1 - p.len();
            if cur == p.len() {
                assert(u.subrange(u.len() - p.len(), u.len() as int) =~= h@.subrange(s, s + p.len()));
                assert(p@.subrange(0, p.len() as int) =~= p@);
                assert(occurs_at(h@, p@, s));
            } else if s >= 0 && occurs_at(h@, p@, s) {
                assert(u.subrange(u.len() - p.len(), u.len() as int) =~= h@.subrange(s, s + p.len()));
                assert(p@.subrange(0, p.len() as int) =~= p@);
                assert(ends_with_prefix(u, p@, p.len() as int));
            }
        }
        found = found || cur == p.len();
        j = j + 1;
    }
    proof {
        assert(h@.subrange(0, h.len() as int) =~= h@);
        if contains_seq(h@, p@) {
            let i = choose|i: int| occurs_at(h@, p@, i);
            assert(i + p.len() <= h.len());
        }
    }
    (found, cur)
}

/// `history` with what `observed` adds beyond their overlap, checked in
/// linear time (one automaton pass over `history`).
pub fn merge_delta(history: &str, observed: &str) -> (merged: String)
    ensures
        merged@ == merged_text(history@, observed@),
{
    let h = chars_of(history);
    let o = chars_of(observed);
    if o.len() == 0 {
        proof {
            assert(occurs_at(history@, observed@, 0)) by {
                assert(history@.subrange(0, 0) =~= observed@);
            }
        }
        return owned(history);
    }
    let (found, overlap) = scan(&h, &o);
    if found {
        return owned(history);
    }
    proof {
        lemma_longest_overlap(history@, observed@);
        lemma_max_overlap_unique(history@, observed@, overlap as int, longest_overlap(history@, observed@) as int);
    }
    let mut merged = owned(history);
    let rest = string_of_range(&o, overlap, o.len());
    append(&mut merged, rest.as_str());
    merged
}


/// The merged text keeps the snapshot as its beginning and contains the
/// observed text exactly once appended at most: no snapshot text is lost and
/// the stream is never missing.
pub proof fn merge_keeps_snapshot_and_stream(history: Seq<char>, observed: Seq<char>)
    ensures
        is_prefix(history, merged_text(history, observed)),
        contains_seq(merged_text(history, observed), observed),
{
    let m = merged_text(history, observed);
    if contains_seq(history, observed) {
        assert(m.subrange(0, history.len() as int) =~= history);
    } else {
        lemma_longest_overlap(history, observed);
        let k = longest_overlap(history, observed) as int;
        assert(m.subrange(0, history.len() as int) =~= history);
        let start = history.len() - k;
        assert(m.subrange(start, start + observed.len()) =~= observed) by {
            assert forall|i: int| 0 <= i < observed.len() implies #[trigger] m.subrange(start, start + observed.len())[i] == observed[i] by {
                if i < k {
                    assert(history.subrange(history.len() - k, history.len() as int)[i] == observed.subrange(0, k)[i]);
                }
            }
        }
        assert(occurs_at(m, observed, start));
    }
}

/// Merging the same observed text again changes nothing.
pub proof fn merge_is_idempotent(history: Seq<char>, observed: Seq<char>)
    ensures
        merged_text(merged_text(history, observed), observed) == merged_text(history, observed),
{
    merge_keeps_snapshot_and_stream(history, observed);
}

} // verus!
