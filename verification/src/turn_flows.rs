//! Decisions taken while a turn is rendered and when a session exits; the
//! runtime performs the channel and storage work they call for.
use vstd::prelude::*;
use crate::domain::{DeliveryClass, TurnStatus};
use crate::menu::{lemma_name_less_asymmetric, lemma_name_less_total, lemma_name_less_transitive, name_less, name_precedes, names_view};
use crate::text::{opt_view, owned, str_eq};

verus! {

/// What a render of a turn's view does besides drawing it.
#[derive(Debug, Clone, Copy, PartialEq, Eq, Structural)]
pub struct TurnRenderPlan {
    /// The turn still runs (in progress, or of unknown state).
    pub running: bool,
    /// Record the turn as its session's active turn: output came before
    /// the turn-started event.
    pub adopt_active: bool,
    /// Offer a Stop button, and keep the view stored for a restart.
    pub can_stop: bool,
    /// Offer to attach the session whose finished turn drained in the
    /// background.
    pub offer_attach: bool,
}

/// The plan of a render: `can_write` is the session's write access,
/// `current` whether the conversation is bound to the session, `has_view`
/// whether the turn's view was sent before, `active_turn` the session's
/// active turn and `has_owner` whether the conversation has an owner.
pub fn turn_render_plan(
    status: TurnStatus,
    can_write: bool,
    delivery: DeliveryClass,
    current: bool,
    has_view: bool,
    active_turn: Option<&str>,
    turn: &str,
    has_owner: bool,
) -> (r: TurnRenderPlan)
    ensures
        r.running == (status == TurnStatus::InProgress || status == TurnStatus::Unknown),
        r.adopt_active == (r.running && can_write && delivery == DeliveryClass::Live && current && !has_view
            && active_turn is None),
        r.can_stop == (r.running && can_write && delivery == DeliveryClass::Live && current && match active_turn {
            Some(a) => a@ == turn@,
            None => !has_view,
        }),
        r.offer_attach == (delivery == DeliveryClass::Draining && !r.running && has_owner),
{
    let running = match status {
        TurnStatus::InProgress | TurnStatus::Unknown => true,
        _ => false,
    };
    let live = match delivery {
        DeliveryClass::Live => true,
        DeliveryClass::Draining => false,
    };
    let eligible = running && can_write && live && current;
    let adopt_active = eligible && !has_view && active_turn.is_none();
    let can_stop = eligible && match active_turn {
        Some(a) => str_eq(a, turn),
        None => !has_view,
    };
    TurnRenderPlan { running, adopt_active, can_stop, offer_attach: !live && !running && has_owner }
}

/// Strictly ascending, so no name occurs twice.
pub open spec fn strictly_sorted(v: Seq<Seq<char>>) -> bool {
    forall|i: int, j: int| 0 <= i < j < v.len() ==> name_less(v[i], v[j])
}

/// Add `x` to a strictly sorted list of names, unless it is there.
fn insert_sorted(r: &mut Vec<String>, x: &str)
    requires
        strictly_sorted(names_view(old(r)@)),
    ensures
        strictly_sorted(names_view(final(r)@)),
        forall|y: Seq<char>|
            #![trigger names_view(final(r)@).contains(y)]
            #![trigger names_view(old(r)@).contains(y)]
            names_view(final(r)@).contains(y) <==> (names_view(old(r)@).contains(y) || y == x@),
{
    let ghost v = names_view(r@);
    let mut p: usize = 0;
    while p < r.len() && name_precedes(r[p].as_str(), x)
        invariant
            p <= r.len(),
            v == names_view(r@),
            forall|k: int| 0 <= k < p ==> name_less(#[trigger] v[k], x@),
        decreases r.len() - p,
    {
        p = p + 1;
    }
    if p < r.len() && str_eq(r[p].as_str(), x) {
        proof {
            assert forall|y: Seq<char>| v.contains(y) <==> (v.contains(y) || y == x@) by {
                if y == x@ {
                    assert(v[p as int] == y);
                }
            }
        }
        return;
    }
    r.insert(p, owned(x));
    proof {
        let w = names_view(r@);
        assert(w =~= v.insert(p as int, x@));
        if p < v.len() {
            lemma_name_less_total(x@, v[p as int]);
            lemma_name_less_asymmetric(v[p as int], x@);
        }
        assert forall|i: int, j: int| 0 <= i < j < w.len() implies name_less(w[i], w[j]) by {
            if j < p {
                assert(w[i] == v[i] && w[j] == v[j]);
            } else if j == p {
                assert(w[i] == v[i]);
            } else if i == p {
                assert(w[j] == v[j - 1]);
                if j - 1 > p {
                    lemma_name_less_transitive(x@, v[p as int], v[j - 1]);
                }
            } else if i < p {
                assert(w[i] == v[i] && w[j] == v[j - 1]);
            } else {
                assert(w[i] == v[i - 1] && w[j] == v[j - 1]);
            }
        }
        assert forall|y: Seq<char>| w.contains(y) <==> (v.contains(y) || y == x@) by {
            if w.contains(y) {
                let k = choose|k: int| 0 <= k < w.len() && w[k] == y;
                if k < p {
                    assert(v[k] == y);
                } else if k > p {
                    assert(v[k - 1] == y);
                }
            }
            if v.contains(y) {
                let k = choose|k: int| 0 <= k < v.len() && v[k] == y;
                if k < p {
                    assert(w[k] == y);
                } else {
                    assert(w[k + 1] == y);
                }
            }
            if y == x@ {
                assert(w[p as int] == y);
            }
        }
    }
}

/// Add every name of `xs` to a strictly sorted list of names.
fn insert_all(r: &mut Vec<String>, xs: &Vec<String>)
    requires
        strictly_sorted(names_view(old(r)@)),
    ensures
        strictly_sorted(names_view(final(r)@)),
        forall|y: Seq<char>|
            #![trigger names_view(final(r)@).contains(y)]
            #![trigger names_view(old(r)@).contains(y)]
            #![trigger names_view(xs@).contains(y)]
            names_view(final(r)@).contains(y) <==> (names_view(old(r)@).contains(y) || names_view(xs@).contains(y)),
{
    let ghost v0 = names_view(r@);
    let mut i: usize = 0;
    while i < xs.len()
        invariant
            i <= xs.len(),
            strictly_sorted(names_view(r@)),
            forall|y: Seq<char>|
                #![trigger names_view(r@).contains(y)]
                #![trigger v0.contains(y)]
                #![trigger names_view(xs@).take(i as int).contains(y)]
                names_view(r@).contains(y) <==> (v0.contains(y) || names_view(xs@).take(i as int).contains(y)),
        decreases xs.len() - i,
    {
        let ghost before = names_view(r@);
        insert_sorted(r, xs[i].as_str());
        proof {
            let t = names_view(xs@).take(i + 1);
            assert(names_view(xs@)[i as int] == xs@[i as int]@);
            assert(t =~= names_view(xs@).take(i as int).push(xs@[i as int]@));
            assert forall|y: Seq<char>| names_view(r@).contains(y) <==> (v0.contains(y) || t.contains(y)) by {
                assert(names_view(r@).contains(y) <==> (before.contains(y) || y == xs@[i as int]@));
                assert(before.contains(y) <==> (v0.contains(y) || names_view(xs@).take(i as int).contains(y)));
                if y == xs@[i as int]@ {
                    assert(t[i as int] == y);
                }
                if t.contains(y) {
                    let k = choose|k: int| 0 <= k < t.len() && t[k] == y;
                    if k < i {
                        assert(names_view(xs@).take(i as int)[k] == y);
                    }
                }
                if names_view(xs@).take(i as int).contains(y) {
                    let k = choose|k: int| 0 <= k < i && names_view(xs@).take(i as int)[k] == y;
                    assert(t[k] == y);
                }
            }
        }
        i = i + 1;
    }
    assert(names_view(xs@).take(i as int) =~= names_view(xs@));
}

/// The turns to finalize when a session exits, each once and in ascending
/// order: those with a view, those stored cold, those with open actions, and
/// the active turn.
pub fn exited_turns(
    views: &Vec<String>,
    cold: &Vec<String>,
    actions: &Vec<String>,
    active: Option<String>,
) -> (r: Vec<String>)
    ensures
        strictly_sorted(names_view(r@)),
        forall|y: Seq<char>| names_view(r@).contains(y) <==> (names_view(views@).contains(y)
            || names_view(cold@).contains(y) || names_view(actions@).contains(y)
            || opt_view(active) == Some(y)),
{
    let mut r: Vec<String> = Vec::new();
    proof {
        assert(names_view(r@) =~= Seq::<Seq<char>>::empty());
    }
    insert_all(&mut r, views);
    let ghost r1 = names_view(r@);
    insert_all(&mut r, cold);
    let ghost r2 = names_view(r@);
    insert_all(&mut r, actions);
    let ghost r3 = names_view(r@);
    let ghost known = opt_view(active);
    match active {
        Some(a) => {
            insert_sorted(&mut r, a.as_str());
        },
        None => {},
    }
    proof {
        assert forall|y: Seq<char>| names_view(r@).contains(y) <==> (names_view(views@).contains(y)
            || names_view(cold@).contains(y) || names_view(actions@).contains(y) || known == Some(y)) by {
            assert(names_view(r@).contains(y) <==> (r3.contains(y) || known == Some(y)));
            assert(r3.contains(y) <==> (r2.contains(y) || names_view(actions@).contains(y)));
            assert(r2.contains(y) <==> (r1.contains(y) || names_view(cold@).contains(y)));
            assert(r1.contains(y) <==> (Seq::<Seq<char>>::empty().contains(y) || names_view(views@).contains(y)));
        }
    }
    r
}

} // verus!
