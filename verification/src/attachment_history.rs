//! Coalesce content received while the initial attachment snapshot is pending.
use vstd::prelude::*;
use crate::domain::{
    AgentEvent, HistoryPage, ItemModel, ItemSummary, TurnModel, TurnStatus, TurnSummary, clone_items,
    items_view, turns_view,
};
use crate::ids::{distinct, first_index, lemma_first_index, lemma_first_index_at, lemma_first_index_none};
use crate::output::text_or_empty;
use crate::overlap::{merge_delta, merged_text};
use crate::text::{append, clone_opt, opt_view, owned, str_eq};

verus! {

/// Attachment presents recent content, not an unbounded event backlog.
pub const MAX_OBSERVED_TURNS: usize = 32;

/// A turn rebuilt from events, with the ids of items that arrived whole.
pub struct ObservedTurn {
    summary: TurnSummary,
    snapshots: Vec<String>,
}

pub struct ObservedModel {
    pub summary: TurnModel,
    pub snapshots: Seq<Seq<char>>,
}

impl View for ObservedTurn {
    type V = ObservedModel;

    closed spec fn view(&self) -> ObservedModel {
        ObservedModel { summary: self.summary@, snapshots: self.snapshots@.map_values(|s: String| s@) }
    }
}

/// Events observed for recent turns while the history snapshot is loading.
pub struct AttachmentHistory {
    turns: Vec<ObservedTurn>,
}

impl View for AttachmentHistory {
    type V = Seq<ObservedModel>;

    closed spec fn view(&self) -> Seq<ObservedModel> {
        self.turns@.map_values(|t: ObservedTurn| t@)
    }
}

pub open spec fn turn_ids(turns: Seq<ObservedModel>) -> Seq<Seq<char>> {
    turns.map_values(|t: ObservedModel| t.summary.id)
}

pub open spec fn item_ids(items: Seq<ItemModel>) -> Seq<Seq<char>> {
    items.map_values(|i: ItemModel| i.id)
}

pub open spec fn summary_ids(turns: Seq<TurnModel>) -> Seq<Seq<char>> {
    turns.map_values(|t: TurnModel| t.id)
}

/// At most `MAX_OBSERVED_TURNS` turns, each once, each item of a turn once.
pub open spec fn wf_observed(turns: Seq<ObservedModel>) -> bool {
    &&& turns.len() <= MAX_OBSERVED_TURNS
    &&& distinct(turn_ids(turns))
    &&& forall|i: int| 0 <= i < turns.len() ==> distinct(item_ids(#[trigger] turns[i].summary.items))
}

/// The turn that an event belongs to, for events about turn content.
pub open spec fn event_turn_id(e: AgentEvent) -> Option<Seq<char>> {
    match e {
        AgentEvent::TurnStarted { turn_id, .. } => Some(turn_id@),
        AgentEvent::TurnCompleted { turn_id, .. } => Some(turn_id@),
        AgentEvent::UserMessage { turn_id, .. } => Some(turn_id@),
        AgentEvent::AgentMessageDelta { turn_id, .. } => Some(turn_id@),
        AgentEvent::ItemStarted { turn_id, .. } => Some(turn_id@),
        AgentEvent::ItemCompleted { turn_id, .. } => Some(turn_id@),
        _ => None,
    }
}

pub open spec fn fresh_turn(id: Seq<char>) -> ObservedModel {
    ObservedModel {
        summary: TurnModel {
            id,
            status: TurnStatus::InProgress,
            user_text: None,
            agent_text: None,
            tools: Seq::empty(),
            items: Seq::empty(),
        },
        snapshots: Seq::empty(),
    }
}

/// The turns with `id` present, and its position; a new turn evicts the
/// oldest one when the window is full.
pub open spec fn located(turns: Seq<ObservedModel>, id: Seq<char>) -> (Seq<ObservedModel>, int) {
    match first_index(turn_ids(turns), id) {
        Some(i) => (turns, i),
        None => {
            let base = if turns.len() == MAX_OBSERVED_TURNS { turns.drop_first() } else { turns };
            (base.push(fresh_turn(id)), base.len() as int)
        },
    }
}

/// The item an event carries, whether its text is a delta to append, and
/// whether it is a complete snapshot of the item.
pub open spec fn event_item(e: AgentEvent) -> Option<(ItemModel, bool, bool)> {
    match e {
        AgentEvent::UserMessage { item_id, text, .. } => Some((
            ItemModel { id: item_id@, kind: "userMessage"@, text: Some(text@), status: None },
            false,
            true,
        )),
        AgentEvent::ItemCompleted { item, .. } => Some((item@, false, true)),
        AgentEvent::ItemStarted { item_id, kind, .. } => Some((
            ItemModel { id: item_id@, kind: kind@, text: None, status: Some("inProgress"@) },
            false,
            false,
        )),
        AgentEvent::AgentMessageDelta { item_id, delta, .. } => Some((
            ItemModel { id: item_id@, kind: "agentMessage"@, text: Some(delta@), status: None },
            true,
            false,
        )),
        _ => None,
    }
}

pub open spec fn apply_observed_item(o: ObservedModel, item: ItemModel, append: bool, snapshot: bool) -> ObservedModel {
    let items = o.summary.items;
    let snapshots = if snapshot && !o.snapshots.contains(item.id) {
        o.snapshots.push(item.id)
    } else {
        o.snapshots
    };
    let new_items = match first_index(item_ids(items), item.id) {
        Some(k) => if append {
            items.update(
                k,
                ItemModel { text: Some(text_or_empty(items[k].text) + text_or_empty(item.text)), ..items[k] },
            )
        } else if snapshot {
            items.update(k, item)
        } else {
            items
        },
        None => items.push(item),
    };
    ObservedModel { summary: TurnModel { items: new_items, ..o.summary }, snapshots }
}

/// The observed turns after one event.
pub open spec fn observe_model(turns: Seq<ObservedModel>, e: AgentEvent) -> Seq<ObservedModel> {
    match event_turn_id(e) {
        None => turns,
        Some(id) => {
            let (base, k) = located(turns, id);
            match e {
                AgentEvent::TurnCompleted { status, .. } => base.update(
                    k,
                    ObservedModel { summary: TurnModel { status, ..base[k].summary }, ..base[k] },
                ),
                _ => match event_item(e) {
                    Some((item, append, snapshot)) => base.update(k, apply_observed_item(base[k], item, append, snapshot)),
                    None => base,
                },
            }
        },
    }
}

/// The first observed item of `kind` that can stand for a summary text.
pub open spec fn matching_item(items: Seq<ItemModel>, kind: Seq<char>, any_text: bool, text: Seq<char>) -> Option<int>
    decreases items.len(),
{
    if items.len() == 0 {
        None
    } else {
        match matching_item(items.drop_last(), kind, any_text, text) {
            Some(i) => Some(i),
            None => {
                let it = items.last();
                if it.kind == kind && (any_text || it.text == Some(text)) {
                    Some(items.len() - 1)
                } else {
                    None
                }
            },
        }
    }
}

pub open spec fn has_kind(items: Seq<ItemModel>, kind: Seq<char>) -> bool {
    exists|i: int| 0 <= i < items.len() && (#[trigger] items[i]).kind == kind
}

/// Give cumulative summary text of one kind an item identity, borrowing the
/// id of a matching observed item.
pub open spec fn seed_kind(t: TurnModel, agent: bool, observed: TurnModel) -> TurnModel {
    let kind = if agent { "agentMessage"@ } else { "userMessage"@ };
    let text = if agent { t.agent_text } else { t.user_text };
    if has_kind(t.items, kind) {
        t
    } else {
        match text {
            None => t,
            Some(text) => if text.len() == 0 {
                t
            } else {
                match matching_item(observed.items, kind, agent, text) {
                    None => if agent {
                        t
                    } else {
                        TurnModel {
                            items: t.items.push(
                                ItemModel {
                                    id: "attachment-history-user:"@ + t.id,
                                    kind,
                                    text: Some(text),
                                    status: None,
                                },
                            ),
                            ..t
                        }
                    },
                    Some(m) => TurnModel {
                        items: t.items.push(
                            ItemModel { id: observed.items[m].id, kind, text: Some(text), status: None },
                        ),
                        ..t
                    },
                }
            },
        }
    }
}

pub open spec fn seed_model(t: TurnModel, observed: TurnModel) -> TurnModel {
    seed_kind(seed_kind(t, true, observed), false, observed)
}

pub open spec fn merge_item_model(items: Seq<ItemModel>, item: ItemModel, snapshots: Seq<Seq<char>>) -> Seq<ItemModel> {
    match first_index(item_ids(items), item.id) {
        Some(k) => if snapshots.contains(item.id) {
            items.update(k, item)
        } else {
            match item.text {
                Some(x) => items.update(
                    k,
                    ItemModel { text: Some(merged_text(text_or_empty(items[k].text), x)), ..items[k] },
                ),
                None => items,
            }
        },
        None => items.push(item),
    }
}

pub open spec fn merge_items_model(items: Seq<ItemModel>, observed: Seq<ItemModel>, snapshots: Seq<Seq<char>>) -> Seq<ItemModel>
    decreases observed.len(),
{
    if observed.len() == 0 {
        items
    } else {
        merge_item_model(merge_items_model(items, observed.drop_last(), snapshots), observed.last(), snapshots)
    }
}

/// A history turn completed with what was observed for it.
pub open spec fn merge_turn_model(t: TurnModel, o: ObservedModel) -> TurnModel {
    let t1 = if o.summary.status == TurnStatus::InProgress || o.summary.status == TurnStatus::Unknown {
        t
    } else {
        TurnModel { status: o.summary.status, ..t }
    };
    let t2 = seed_model(t1, o.summary);
    let t3 = TurnModel { items: merge_items_model(t2.items, o.summary.items, o.snapshots), ..t2 };
    if has_kind(t3.items, "userMessage"@) {
        TurnModel { user_text: None, ..t3 }
    } else {
        t3
    }
}

pub open spec fn merge_one_model(turns: Seq<TurnModel>, o: ObservedModel) -> Seq<TurnModel> {
    match first_index(summary_ids(turns), o.summary.id) {
        Some(k) => turns.update(k, merge_turn_model(turns[k], o)),
        None => turns.push(o.summary),
    }
}

pub open spec fn merge_all_model(turns: Seq<TurnModel>, observed: Seq<ObservedModel>) -> Seq<TurnModel>
    decreases observed.len(),
{
    if observed.len() == 0 {
        turns
    } else {
        merge_one_model(merge_all_model(turns, observed.drop_last()), observed.last())
    }
}


pub fn find_item(items: &Vec<ItemSummary>, id: &str) -> (r: Option<usize>)
    ensures
        match r {
            Some(i) => first_index(item_ids(items_view(items@)), id@) == Some(i as int) && i < items.len(),
            None => first_index(item_ids(items_view(items@)), id@) is None,
        },
{
    let ghost ids = item_ids(items_view(items@));
    let mut i: usize = 0;
    while i < items.len()
        invariant
            i <= items.len(),
            ids == item_ids(items_view(items@)),
            forall|j: int| 0 <= j < i ==> ids[j] != id@,
        decreases items.len() - i,
    {
        if str_eq(items[i].id.as_str(), id) {
            proof { lemma_first_index_at(ids, id@, i as int); }
            return Some(i);
        }
        i = i + 1;
    }
    proof { lemma_first_index_none(ids, id@); }
    None
}

pub fn find_summary(turns: &Vec<TurnSummary>, id: &str) -> (r: Option<usize>)
    ensures
        match r {
            Some(i) => first_index(summary_ids(turns_view(turns@)), id@) == Some(i as int) && i < turns.len(),
            None => first_index(summary_ids(turns_view(turns@)), id@) is None,
        },
{
    let ghost ids = summary_ids(turns_view(turns@));
    let mut i: usize = 0;
    while i < turns.len()
        invariant
            i <= turns.len(),
            ids == summary_ids(turns_view(turns@)),
            forall|j: int| 0 <= j < i ==> ids[j] != id@,
        decreases turns.len() - i,
    {
        if str_eq(turns[i].id.as_str(), id) {
            proof { lemma_first_index_at(ids, id@, i as int); }
            return Some(i);
        }
        i = i + 1;
    }
    proof { lemma_first_index_none(ids, id@); }
    None
}

fn contains_id(ids: &Vec<String>, id: &str) -> (r: bool)
    ensures
        r == ids@.map_values(|s: String| s@).contains(id@),
{
    let ghost v = ids@.map_values(|s: String| s@);
    let mut i: usize = 0;
    while i < ids.len()
        invariant
            i <= ids.len(),
            v == ids@.map_values(|s: String| s@),
            forall|j: int| 0 <= j < i ==> v[j] != id@,
        decreases ids.len() - i,
    {
        if str_eq(ids[i].as_str(), id) {
            assert(v[i as int] == id@);
            return true;
        }
        i = i + 1;
    }
    false
}

/// Whether an item of `kind` is present.
pub fn any_of_kind(items: &Vec<ItemSummary>, kind: &str) -> (r: bool)
    ensures
        r == has_kind(items_view(items@), kind@),
{
    let ghost v = items_view(items@);
    let mut i: usize = 0;
    while i < items.len()
        invariant
            i <= items.len(),
            v == items_view(items@),
            forall|j: int| 0 <= j < i ==> v[j].kind != kind@,
        decreases items.len() - i,
    {
        if str_eq(items[i].kind.as_str(), kind) {
            assert(v[i as int].kind == kind@);
            return true;
        }
        i = i + 1;
    }
    false
}

proof fn lemma_distinct_push(ids: Seq<Seq<char>>, id: Seq<char>)
    requires
        distinct(ids),
        first_index(ids, id) is None,
    ensures
        distinct(ids.push(id)),
{
    lemma_first_index(ids, id);
}

impl ObservedTurn {
    fn apply(&mut self, item: ItemSummary, append_text: bool, snapshot: bool)
        requires
            distinct(item_ids(old(self)@.summary.items)),
        ensures
            final(self)@ == apply_observed_item(old(self)@, item@, append_text, snapshot),
            distinct(item_ids(final(self)@.summary.items)),
    {
        let ghost old_view = self@;
        if snapshot && !contains_id(&self.snapshots, item.id.as_str()) {
            self.snapshots.push(item.id.clone());
            assert(self.snapshots@.map_values(|s: String| s@) =~= old_view.snapshots.push(item.id@));
        }
        let ghost snaps = self@.snapshots;
        match find_item(&self.summary.items, item.id.as_str()) {
            Some(k) => {
                proof { lemma_first_index(item_ids(old_view.summary.items), item.id@); }
                if append_text {
                    let existing = &mut self.summary.items[k];
                    let mut t = match &existing.text {
                        Some(t) => t.clone(),
                        None => String::new(),
                    };
                    match &item.text {
                        Some(d) => append(&mut t, d.as_str()),
                        None => {},
                    }
                    existing.text = Some(t);
                    assert(item_ids(self@.summary.items) =~= item_ids(old_view.summary.items));
                } else if snapshot {
                    self.summary.items.set(k, item);
                    assert(item_ids(self@.summary.items) =~= item_ids(old_view.summary.items));
                }
            },
            None => {
                proof { lemma_distinct_push(item_ids(old_view.summary.items), item@.id); }
                self.summary.items.push(item);
                assert(item_ids(self@.summary.items) =~= item_ids(old_view.summary.items).push(item@.id));
            },
        }
        proof {
            let expected = apply_observed_item(old_view, item@, append_text, snapshot);
            assert(self@.snapshots == expected.snapshots);
            assert(items_view(self.summary.items@) =~= expected.summary.items);
            assert(item_ids(self@.summary.items) =~= item_ids(expected.summary.items));
            assert(self@ == expected);
        }
    }
}


impl AttachmentHistory {
    pub fn new() -> (r: Self)
        ensures
            r@ == Seq::<ObservedModel>::empty(),
            wf_observed(r@),
    {
        let r = AttachmentHistory { turns: Vec::new() };
        assert(r@ =~= Seq::<ObservedModel>::empty());
        r
    }

    fn find_turn(&self, id: &str) -> (r: Option<usize>)
        ensures
            match r {
                Some(i) => first_index(turn_ids(self@), id@) == Some(i as int) && i < self@.len(),
                None => first_index(turn_ids(self@), id@) is None,
            },
    {
        let ghost ids = turn_ids(self@);
        let mut i: usize = 0;
        while i < self.turns.len()
            invariant
                i <= self.turns.len(),
                ids == turn_ids(self@),
                self@.len() == self.turns.len(),
                forall|j: int| 0 <= j < i ==> ids[j] != id@,
            decreases self.turns.len() - i,
        {
            if str_eq(self.turns[i].summary.id.as_str(), id) {
                proof { lemma_first_index_at(ids, id@, i as int); }
                return Some(i);
            }
            i = i + 1;
        }
        proof { lemma_first_index_none(ids, id@); }
        None
    }

    /// Record one event for its turn: completions set the status, whole items
    /// replace earlier ones, deltas append to the item's text.
    pub fn observe(&mut self, event: &AgentEvent)
        requires
            wf_observed(old(self)@),
        ensures
            wf_observed(final(self)@),
            final(self)@ == observe_model(old(self)@, *event),
    {
        let ghost old_view = self@;
        let turn_id = match event {
            AgentEvent::TurnStarted { turn_id, .. } => turn_id,
            AgentEvent::TurnCompleted { turn_id, .. } => turn_id,
            AgentEvent::UserMessage { turn_id, .. } => turn_id,
            AgentEvent::AgentMessageDelta { turn_id, .. } => turn_id,
            AgentEvent::ItemStarted { turn_id, .. } => turn_id,
            AgentEvent::ItemCompleted { turn_id, .. } => turn_id,
            _ => return,
        };
        let index = match self.find_turn(turn_id.as_str()) {
            Some(i) => i,
            None => {
                proof { lemma_first_index(turn_ids(old_view), turn_id@); }
                if self.turns.len() == MAX_OBSERVED_TURNS {
                    self.turns.remove(0);
                    assert(self@ =~= old_view.drop_first());
                }
                let ghost base = self@;
                self.turns.push(
                    ObservedTurn {
                        summary: TurnSummary {
                            id: turn_id.clone(),
                            status: TurnStatus::InProgress,
                            user_text: None,
                            agent_text: None,
                            tools: Vec::new(),
                            items: Vec::new(),
                        },
                        snapshots: Vec::new(),
                    },
                );
                proof {
                    assert(self@[self@.len() - 1].summary.items =~= Seq::<ItemModel>::empty());
                    assert(self@[self@.len() - 1].summary.tools =~= Seq::<Seq<char>>::empty());
                    assert(self@[self@.len() - 1].snapshots =~= Seq::<Seq<char>>::empty());
                    assert(self@ =~= base.push(fresh_turn(turn_id@)));
                    assert(turn_ids(self@) =~= turn_ids(base).push(turn_id@));
                    assert forall|j: int| 0 <= j < base.len() implies turn_ids(base)[j] != turn_id@ by {
                        if base.len() < old_view.len() {
                            assert(turn_ids(base)[j] == turn_ids(old_view)[j + 1]);
                        } else {
                            assert(turn_ids(base)[j] == turn_ids(old_view)[j]);
                        }
                    }
                    assert(item_ids(fresh_turn(turn_id@).summary.items) =~= Seq::<Seq<char>>::empty());
                    let off: int = old_view.len() - base.len();
                    assert forall|j: int| 0 <= j < base.len() implies #[trigger] base[j] == old_view[j + off] by {}
                    assert(distinct(turn_ids(base))) by {
                        assert forall|a: int, b: int| 0 <= a < base.len() && 0 <= b < base.len() && a != b
                            implies turn_ids(base)[a] != turn_ids(base)[b] by {
                            assert(turn_ids(base)[a] == turn_ids(old_view)[a + off]);
                            assert(turn_ids(base)[b] == turn_ids(old_view)[b + off]);
                        }
                    }
                    lemma_first_index_none(turn_ids(base), turn_id@);
                    lemma_distinct_push(turn_ids(base), turn_id@);
                    assert forall|j: int| 0 <= j < self@.len() implies distinct(item_ids(#[trigger] self@[j].summary.items)) by {
                        if j < base.len() {
                            assert(self@[j] == old_view[j + off]);
                        }
                    }
                }
                self.turns.len() - 1
            },
        };
        let ghost located_view = self@;
        proof {
            assert(located(old_view, turn_id@) == (located_view, index as int));
            assert(wf_observed(located_view));
        }
        let (item, append_text, snapshot) = match event {
            AgentEvent::TurnCompleted { status, .. } => {
                let turn = &mut self.turns[index];
                turn.summary.status = *status;
                proof {
                    assert(self@ =~= observe_model(old_view, *event));
                    assert(turn_ids(self@) =~= turn_ids(located_view));
                }
                return;
            },
            AgentEvent::UserMessage { item_id, text, .. } => (
                ItemSummary {
                    id: item_id.clone(),
                    kind: owned("userMessage"),
                    text: Some(text.clone()),
                    status: None,
                },
                false,
                true,
            ),
            AgentEvent::ItemCompleted { item, .. } => (item.clone(), false, true),
            AgentEvent::ItemStarted { item_id, kind, .. } => (
                ItemSummary {
                    id: item_id.clone(),
                    kind: kind.clone(),
                    text: None,
                    status: Some(owned("inProgress")),
                },
                false,
                false,
            ),
            AgentEvent::AgentMessageDelta { item_id, delta, .. } => (
                ItemSummary {
                    id: item_id.clone(),
                    kind: owned("agentMessage"),
                    text: Some(delta.clone()),
                    status: None,
                },
                true,
                false,
            ),
            _ => {
                return;
            },
        };
        proof {
            assert(event_item(*event) == Some((item@, append_text, snapshot)));
        }
        let turn = &mut self.turns[index];
        turn.apply(item, append_text, snapshot);
        proof {
            assert(self@ =~= observe_model(old_view, *event));
            assert(turn_ids(self@) =~= turn_ids(located_view));
        }
    }
}


pub proof fn lemma_matching_item(items: Seq<ItemModel>, kind: Seq<char>, any_text: bool, text: Seq<char>)
    ensures
        match matching_item(items, kind, any_text, text) {
            Some(i) => 0 <= i < items.len() && items[i].kind == kind && (any_text || items[i].text == Some(text))
                && forall|j: int| 0 <= j < i ==> !(items[j].kind == kind && (any_text || items[j].text == Some(text))),
            None => forall|j: int| 0 <= j < items.len() ==> !(items[j].kind == kind && (any_text || items[j].text == Some(text))),
        },
    decreases items.len(),
{
    if items.len() > 0 {
        lemma_matching_item(items.drop_last(), kind, any_text, text);
        let d = items.drop_last();
        assert forall|j: int| 0 <= j < d.len() implies d[j] == items[j] by {}
    }
}

fn find_matching(items: &Vec<ItemSummary>, kind: &str, any_text: bool, text: &str) -> (r: Option<usize>)
    ensures
        match r {
            Some(i) => matching_item(items_view(items@), kind@, any_text, text@) == Some(i as int) && i < items.len(),
            None => matching_item(items_view(items@), kind@, any_text, text@) is None,
        },
{
    let ghost v = items_view(items@);
    proof { lemma_matching_item(v, kind@, any_text, text@); }
    let mut i: usize = 0;
    while i < items.len()
        invariant
            i <= items.len(),
            v == items_view(items@),
            forall|j: int| 0 <= j < i ==> !(v[j].kind == kind@ && (any_text || v[j].text == Some(text@))),
        decreases items.len() - i,
    {
        let text_matches = any_text || match &items[i].text {
            Some(t) => str_eq(t.as_str(), text),
            None => false,
        };
        if str_eq(items[i].kind.as_str(), kind) && text_matches {
            proof {
                assert(v[i as int] == items@[i as int]@);
                assert(v[i as int].kind == kind@);
                assert(any_text || v[i as int].text == Some(text@));
                lemma_matching_item(v, kind@, any_text, text@);
                match matching_item(v, kind@, any_text, text@) {
                    Some(k) => {
                        if k > i { assert(false); }
                    },
                    None => { assert(false); },
                }
            }
            return Some(i);
        }
        proof {
            assert(v[i as int] == items@[i as int]@);
        }
        i = i + 1;
    }
    proof {
        lemma_matching_item(v, kind@, any_text, text@);
        if let Some(k) = matching_item(v, kind@, any_text, text@) {
            assert(false);
        }
    }
    None
}

fn seed_summary_kind(turn: &mut TurnSummary, agent: bool, observed: &TurnSummary)
    ensures
        final(turn)@ == seed_kind(old(turn)@, agent, observed@),
{
    let ghost t0 = turn@;
    let kind = if agent { "agentMessage" } else { "userMessage" };
    if any_of_kind(&turn.items, kind) {
        return;
    }
    let text = if agent { clone_opt(&turn.agent_text) } else { clone_opt(&turn.user_text) };
    let text = match text {
        Some(t) => t,
        None => { return; },
    };
    if text.as_str().is_empty() {
        return;
    }
    let matching = find_matching(&observed.items, kind, agent, text.as_str());
    let id = match matching {
        Some(m) => observed.items[m].id.clone(),
        None => {
            if agent {
                return;
            }
            let mut id = owned("attachment-history-user:");
            append(&mut id, turn.id.as_str());
            id
        },
    };
    let item = ItemSummary { id, kind: owned(kind), text: Some(text), status: None };
    turn.items.push(item);
    proof {
        assert(turn@.items =~= seed_kind(t0, agent, observed@).items);
    }
}


fn merge_item(items: &mut Vec<ItemSummary>, item: ItemSummary, snapshots: &Vec<String>)
    ensures
        items_view(final(items)@) == merge_item_model(items_view(old(items)@), item@, snapshots@.map_values(|s: String| s@)),
{
    let ghost before = items_view(items@);
    match find_item(items, item.id.as_str()) {
        Some(k) => {
            if contains_id(snapshots, item.id.as_str()) {
                items.set(k, item);
            } else {
                match &item.text {
                    Some(x) => {
                        let existing = &mut items[k];
                        let merged = match &existing.text {
                            Some(t) => merge_delta(t.as_str(), x.as_str()),
                            None => merge_delta("", x.as_str()),
                        };
                        proof {
                            if before[k as int].text is None {
                                assert(""@ =~= Seq::<char>::empty()) by { reveal_strlit(""); }
                            }
                        }
                        existing.text = Some(merged);
                    },
                    None => {},
                }
            }
        },
        None => {
            items.push(item);
        },
    }
    proof {
        assert(items_view(items@) =~= merge_item_model(before, item@, snapshots@.map_values(|s: String| s@)));
    }
}

fn seed_summary_items(turn: &mut TurnSummary, observed: &TurnSummary)
    ensures
        final(turn)@ == seed_model(old(turn)@, observed@),
{
    seed_summary_kind(turn, true, observed);
    seed_summary_kind(turn, false, observed);
}

fn merge_turn(turn: &mut TurnSummary, observed: &ObservedTurn)
    ensures
        final(turn)@ == merge_turn_model(old(turn)@, observed@),
{
    let ghost t0 = turn@;
    let ghost o = observed@;
    if !(observed.summary.status == TurnStatus::InProgress || observed.summary.status == TurnStatus::Unknown) {
        turn.status = observed.summary.status;
    }
    seed_summary_items(turn, &observed.summary);
    let ghost t2 = turn@;
    let ghost snaps = observed.snapshots@.map_values(|s: String| s@);
    let ghost obs = items_view(observed.summary.items@);
    let mut i: usize = 0;
    while i < observed.summary.items.len()
        invariant
            i <= observed.summary.items.len(),
            obs == items_view(observed.summary.items@),
            snaps == observed.snapshots@.map_values(|s: String| s@),
            turn@ == (TurnModel { items: merge_items_model(t2.items, obs.take(i as int), snaps), ..t2 }),
        decreases observed.summary.items.len() - i,
    {
        let ghost before = turn@;
        merge_item(&mut turn.items, observed.summary.items[i].clone(), &observed.snapshots);
        proof {
            assert(obs.take(i + 1).drop_last() =~= obs.take(i as int));
            assert(obs.take(i + 1).last() == observed.summary.items@[i as int]@);
            assert(turn@ =~= (TurnModel { items: merge_items_model(t2.items, obs.take(i + 1), snaps), ..t2 }));
        }
        i = i + 1;
    }
    proof {
        assert(obs.take(i as int) =~= obs);
    }
    if any_of_kind(&turn.items, "userMessage") {
        turn.user_text = None;
    }
    proof {
        assert(turn@ =~= merge_turn_model(t0, o));
    }
}

impl AttachmentHistory {
    /// Complete a history page with the observed turns, oldest first: known
    /// turns take terminal statuses, snapshot items and merged deltas; unknown
    /// turns are appended.
    pub fn merge(self, history: &mut HistoryPage)
        ensures
            final(history)@.turns == merge_all_model(old(history)@.turns, self@),
            final(history)@.older_cursor == old(history)@.older_cursor,
            final(history)@.newer_cursor == old(history)@.newer_cursor,
    {
        let ghost h0 = history@.turns;
        let ghost observed = self@;
        let mut i: usize = 0;
        while i < self.turns.len()
            invariant
                i <= self.turns.len(),
                observed == self@,
                observed.len() == self.turns.len(),
                history@.turns == merge_all_model(h0, observed.take(i as int)),
                history@.older_cursor == old(history)@.older_cursor,
                history@.newer_cursor == old(history)@.newer_cursor,
            decreases self.turns.len() - i,
        {
            let ghost before = history@.turns;
            let o = &self.turns[i];
            match find_summary(&history.turns, o.summary.id.as_str()) {
                Some(k) => {
                    let turn = &mut history.turns[k];
                    merge_turn(turn, o);
                },
                None => {
                    history.turns.push(o.summary.clone());
                },
            }
            proof {
                assert(observed.take(i + 1).drop_last() =~= observed.take(i as int));
                assert(observed.take(i + 1).last() == o@);
                assert(history@.turns =~= merge_one_model(before, o@));
            }
            i = i + 1;
        }
        proof {
            assert(observed.take(i as int) =~= observed);
        }
    }
}


impl Default for AttachmentHistory {
    fn default() -> (r: Self)
        ensures
            r@ == Seq::<ObservedModel>::empty(),
            wf_observed(r@),
    {
        AttachmentHistory::new()
    }
}

/// Merging an observed turn into a page that holds it: a turn that reached
/// a terminal status while the page was read shows that status, and one
/// observed as still running or unknown keeps the status the page gave it;
/// the turn keeps its place and id, and no other turn changes.
pub proof fn merged_turns_take_terminal_statuses(turns: Seq<TurnModel>, o: ObservedModel, i: int)
    requires
        0 <= i < turns.len(),
        turns[i].id == o.summary.id,
        forall|j: int| 0 <= j < i ==> turns[j].id != o.summary.id,
    ensures
        merge_one_model(turns, o).len() == turns.len(),
        merge_one_model(turns, o)[i].id == o.summary.id,
        !(o.summary.status == TurnStatus::InProgress || o.summary.status == TurnStatus::Unknown) ==> merge_one_model(
            turns,
            o,
        )[i].status == o.summary.status,
        (o.summary.status == TurnStatus::InProgress || o.summary.status == TurnStatus::Unknown) ==> merge_one_model(
            turns,
            o,
        )[i].status == turns[i].status,
        forall|j: int| 0 <= j < turns.len() && j != i ==> merge_one_model(turns, o)[j] == turns[j],
{
    let ids = summary_ids(turns);
    assert forall|j: int| 0 <= j < i implies ids[j] != o.summary.id by {
        assert(ids[j] == turns[j].id);
    }
    assert(ids[i] == turns[i].id);
    lemma_first_index_at(ids, o.summary.id, i);
    let page_turn = turns[i];
    let with_status = if o.summary.status == TurnStatus::InProgress || o.summary.status == TurnStatus::Unknown {
        page_turn
    } else {
        TurnModel { status: o.summary.status, ..page_turn }
    };
    let a = seed_kind(with_status, true, o.summary);
    assert(a.status == with_status.status && a.id == with_status.id);
    let b = seed_kind(a, false, o.summary);
    assert(b.status == with_status.status && b.id == with_status.id);
}

/// An observed turn the page does not hold is added after its turns, as
/// observed.
pub proof fn unseen_turns_are_appended(turns: Seq<TurnModel>, o: ObservedModel)
    requires
        forall|j: int| 0 <= j < turns.len() ==> turns[j].id != o.summary.id,
    ensures
        merge_one_model(turns, o) == turns.push(o.summary),
{
    let ids = summary_ids(turns);
    assert forall|j: int| 0 <= j < ids.len() implies ids[j] != o.summary.id by {
        assert(ids[j] == turns[j].id);
    }
    lemma_first_index_none(ids, o.summary.id);
}

/// An observed item reaches the history turn: one with a new id is added
/// last; one whose id the turn holds is replaced when it was observed as a
/// snapshot, and otherwise keeps its kind and id while its text becomes the
/// history text merged with the observed text; no other item changes.
pub proof fn observed_items_reach_the_turn(items: Seq<ItemModel>, item: ItemModel, snapshots: Seq<Seq<char>>, k: int)
    requires
        0 <= k < items.len() ==> items[k].id == item.id && forall|j: int| 0 <= j < k ==> items[j].id != item.id,
        k == items.len() ==> forall|j: int| 0 <= j < items.len() ==> items[j].id != item.id,
        0 <= k <= items.len(),
    ensures
        k == items.len() ==> merge_item_model(items, item, snapshots) == items.push(item),
        k < items.len() ==> {
            let r = merge_item_model(items, item, snapshots);
            &&& r.len() == items.len()
            &&& forall|j: int| 0 <= j < items.len() && j != k ==> r[j] == items[j]
            &&& snapshots.contains(item.id) ==> r[k] == item
            &&& !snapshots.contains(item.id) ==> r[k].id == items[k].id && r[k].kind == items[k].kind
            &&& !snapshots.contains(item.id) ==> (item.text matches Some(x) ==> r[k].text == Some(
                merged_text(text_or_empty(items[k].text), x),
            ))
            &&& !snapshots.contains(item.id) && item.text is None ==> r[k] == items[k]
        },
{
    let ids = item_ids(items);
    if k == items.len() {
        assert forall|j: int| 0 <= j < ids.len() implies ids[j] != item.id by {
            assert(ids[j] == items[j].id);
        }
        lemma_first_index_none(ids, item.id);
    } else {
        assert forall|j: int| 0 <= j < k implies ids[j] != item.id by {
            assert(ids[j] == items[j].id);
        }
        assert(ids[k] == items[k].id);
        lemma_first_index_at(ids, item.id, k);
    }
}

proof fn lemma_located(turns: Seq<ObservedModel>, id: Seq<char>)
    ensures
        0 <= located(turns, id).1 < located(turns, id).0.len(),
        located(turns, id).0[located(turns, id).1].summary.id == id,
{
    let ids = turn_ids(turns);
    lemma_first_index(ids, id);
    match first_index(ids, id) {
        Some(i) => {
            assert(ids[i] == turns[i].summary.id);
        },
        None => {},
    }
}

/// Observing that a turn completed records the turn, with that status.
pub proof fn completions_are_recorded(turns: Seq<ObservedModel>, e: AgentEvent)
    requires
        e is TurnCompleted,
    ensures
        exists|k: int| #![trigger observe_model(turns, e)[k]] 0 <= k < observe_model(turns, e).len() && observe_model(turns, e)[k].summary.id == e->TurnCompleted_turn_id@
            && observe_model(turns, e)[k].summary.status == e->TurnCompleted_status,
{
    match e {
        AgentEvent::TurnCompleted { turn_id, status, .. } => {
            lemma_located(turns, turn_id@);
            let (base, k) = located(turns, turn_id@);
            let r = observe_model(turns, e);
            assert(r[k].summary.id == turn_id@ && r[k].summary.status == status);
        },
        _ => {},
    }
}

/// Observing an agent-message delta records it: the observed turn then holds
/// the item, and when it held it already, the delta is added at the end of
/// its text.
pub proof fn deltas_are_recorded(turns: Seq<ObservedModel>, e: AgentEvent)
    requires
        e is AgentMessageDelta,
    ensures
        exists|k: int, j: int| #![trigger observe_model(turns, e)[k].summary.items[j]]
            0 <= k < observe_model(turns, e).len() && observe_model(turns, e)[k].summary.id == e->AgentMessageDelta_turn_id@
            && 0 <= j < observe_model(turns, e)[k].summary.items.len()
            && observe_model(turns, e)[k].summary.items[j].id == e->AgentMessageDelta_item_id@
            && text_or_empty(observe_model(turns, e)[k].summary.items[j].text).len() >= e->AgentMessageDelta_delta@.len()
            && text_or_empty(observe_model(turns, e)[k].summary.items[j].text).subrange(
                text_or_empty(observe_model(turns, e)[k].summary.items[j].text).len() - e->AgentMessageDelta_delta@.len(),
                text_or_empty(observe_model(turns, e)[k].summary.items[j].text).len() as int,
            ) == e->AgentMessageDelta_delta@,
{
    match e {
        AgentEvent::AgentMessageDelta { turn_id, item_id, delta, .. } => {
            lemma_located(turns, turn_id@);
            let (base, k) = located(turns, turn_id@);
            let o = base[k];
            let item = ItemModel { id: item_id@, kind: "agentMessage"@, text: Some(delta@), status: None };
            let r = observe_model(turns, e);
            assert(r[k] == apply_observed_item(o, item, true, false));
            let items = o.summary.items;
            let ids = item_ids(items);
            lemma_first_index(ids, item_id@);
            match first_index(ids, item_id@) {
                Some(j) => {
                    assert(ids[j] == items[j].id);
                    let t = text_or_empty(items[j].text) + delta@;
                    assert(r[k].summary.items[j].text == Some(t));
                    assert(t.subrange(t.len() - delta@.len(), t.len() as int) =~= delta@);
                    assert(r[k].summary.items[j].id == item_id@);
                },
                None => {
                    let j = items.len() as int;
                    assert(r[k].summary.items[j] == item);
                    assert(delta@.subrange(0, delta@.len() as int) =~= delta@);
                },
            }
        },
        _ => {},
    }
}

} // verus!
