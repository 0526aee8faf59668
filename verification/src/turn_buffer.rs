//! The rendered state of one turn: user input, answers and process blocks,
//! kept in first-seen order while each item is updated independently.
use vstd::prelude::*;
use crate::attachment_history::{find_item, item_ids};
use crate::domain::{SectionModel, ViewSection, sections_view, ItemModel, ItemSummary, TurnModel, TurnStatus, TurnSummary, clone_items, items_view};
use crate::ids::first_index;
use crate::output::{OutputConfig, process_text_of, text_or_empty};
use crate::text::{
    append, blank, is_blank, is_prefix, join, join_strings, opt_view, owned, starts_with, str_eq,
    strip_prefix, strip_prefix_of,
};

verus! {

/// One block of turn output: an answer or a process block.
pub struct TurnOutputItem {
    pub active: bool,
    pub id: Option<String>,
    pub text: String,
    pub process: bool,
    pub summary_fallback: bool,
}

pub struct OutputItemModel {
    pub active: bool,
    pub id: Option<Seq<char>>,
    pub text: Seq<char>,
    pub process: bool,
    pub summary_fallback: bool,
}

impl View for TurnOutputItem {
    type V = OutputItemModel;

    open spec fn view(&self) -> OutputItemModel {
        OutputItemModel {
            active: self.active,
            id: opt_view(self.id),
            text: self.text@,
            process: self.process,
            summary_fallback: self.summary_fallback,
        }
    }
}

/// Live content of a turn. `started_at` is a caller-supplied clock reading
/// taken when the first content arrived.
pub struct TurnBuffer {
    pub user_text: String,
    pub agent_text: String,
    pub status: TurnStatus,
    pub output_items: Vec<TurnOutputItem>,
    pub started_at: Option<u64>,
    pub rendered_elapsed_seconds: Option<u64>,
}

pub struct BufferModel {
    pub user_text: Seq<char>,
    pub agent_text: Seq<char>,
    pub status: TurnStatus,
    pub items: Seq<OutputItemModel>,
    pub started_at: Option<u64>,
    pub rendered_elapsed_seconds: Option<u64>,
}

pub open spec fn output_view(items: Seq<TurnOutputItem>) -> Seq<OutputItemModel> {
    items.map_values(|i: TurnOutputItem| i@)
}

impl View for TurnBuffer {
    type V = BufferModel;

    open spec fn view(&self) -> BufferModel {
        BufferModel {
            user_text: self.user_text@,
            agent_text: self.agent_text@,
            status: self.status,
            items: output_view(self.output_items@),
            started_at: self.started_at,
            rendered_elapsed_seconds: self.rendered_elapsed_seconds,
        }
    }
}

/// Position of the first item satisfying `pred`.
pub open spec fn first_where(items: Seq<OutputItemModel>, pred: spec_fn(OutputItemModel) -> bool) -> Option<int>
    decreases items.len(),
{
    if items.len() == 0 {
        None
    } else {
        match first_where(items.drop_last(), pred) {
            Some(i) => Some(i),
            None => if pred(items.last()) {
                Some(items.len() - 1)
            } else {
                None
            },
        }
    }
}

pub proof fn lemma_first_where(items: Seq<OutputItemModel>, pred: spec_fn(OutputItemModel) -> bool)
    ensures
        match first_where(items, pred) {
            Some(i) => 0 <= i < items.len() && pred(items[i]) && forall|j: int| 0 <= j < i ==> !pred(#[trigger] items[j]),
            None => forall|j: int| 0 <= j < items.len() ==> !pred(#[trigger] items[j]),
        },
    decreases items.len(),
{
    if items.len() > 0 {
        lemma_first_where(items.drop_last(), pred);
        let d = items.drop_last();
        assert forall|j: int| 0 <= j < d.len() implies d[j] == items[j] by {}
    }
}

pub proof fn lemma_first_where_at(items: Seq<OutputItemModel>, pred: spec_fn(OutputItemModel) -> bool, i: int)
    requires
        0 <= i < items.len(),
        pred(items[i]),
        forall|j: int| 0 <= j < i ==> !pred(#[trigger] items[j]),
    ensures
        first_where(items, pred) == Some(i),
{
    lemma_first_where(items, pred);
    match first_where(items, pred) {
        Some(k) => {
            if k < i {
                assert(!pred(items[k]));
            } else if k > i {
                assert(!pred(items[i]));
            }
        },
        None => {
            assert(!pred(items[i]));
        },
    }
}

pub proof fn lemma_first_where_none(items: Seq<OutputItemModel>, pred: spec_fn(OutputItemModel) -> bool)
    requires
        forall|j: int| 0 <= j < items.len() ==> !pred(#[trigger] items[j]),
    ensures
        first_where(items, pred) is None,
{
    lemma_first_where(items, pred);
    if let Some(k) = first_where(items, pred) {
        assert(!pred(items[k]));
    }
}

pub open spec fn has_id(id: Seq<char>) -> spec_fn(OutputItemModel) -> bool {
    |it: OutputItemModel| it.id == Some(id)
}

pub open spec fn is_fallback() -> spec_fn(OutputItemModel) -> bool {
    |it: OutputItemModel| it.summary_fallback
}

pub open spec fn is_answer() -> spec_fn(OutputItemModel) -> bool {
    |it: OutputItemModel| !it.process
}

/// Texts of the non-empty answers, in order.
pub open spec fn answer_texts(items: Seq<OutputItemModel>) -> Seq<Seq<char>>
    decreases items.len(),
{
    if items.len() == 0 {
        Seq::empty()
    } else {
        let rest = answer_texts(items.drop_last());
        let last = items.last();
        if !last.process && last.text.len() > 0 {
            rest.push(last.text)
        } else {
            rest
        }
    }
}

/// The answer text of a turn: its non-empty answers separated by a blank line.
pub open spec fn agent_text_of(items: Seq<OutputItemModel>) -> Seq<char> {
    join(answer_texts(items), "\n\n"@)
}

/// Exactly the item at `index` is marked active.
pub open spec fn activated(items: Seq<OutputItemModel>, index: int) -> Seq<OutputItemModel> {
    Seq::new(items.len(), |p: int| OutputItemModel { active: p == index, ..items[p] })
}

/// History text without item ids becomes a placeholder item when the first
/// identified output arrives.
pub open spec fn hydrated(b: BufferModel, id: Option<Seq<char>>, process: bool) -> Seq<OutputItemModel> {
    if b.items.len() == 0 && b.agent_text.len() > 0 {
        seq![
            OutputItemModel {
                active: false,
                summary_fallback: process || id is None,
                id: if process { None } else { id },
                text: b.agent_text,
                process: false,
            },
        ]
    } else {
        b.items
    }
}

/// The item an output updates: the one with its id, or else (for an
/// identified answer) the summary placeholder.
pub open spec fn existing_index(items: Seq<OutputItemModel>, id: Option<Seq<char>>, process: bool) -> Option<int> {
    match id {
        None => None,
        Some(i) => match first_where(items, has_id(i)) {
            Some(k) => Some(k),
            None => if !process {
                first_where(items, is_fallback())
            } else {
                None
            },
        },
    }
}

/// The buffer after recording (or appending to) one output block.
pub open spec fn record_output_model(
    b: BufferModel,
    id: Option<Seq<char>>,
    text: Seq<char>,
    process: bool,
    append: bool,
) -> BufferModel {
    let items0 = hydrated(b, id, process);
    let existing = existing_index(items0, id, process);
    let activate = !blank(text) && (append || match existing {
        None => true,
        Some(k) => blank(items0[k].text) || (!process && (items0[k].process || items0[k].text != text)),
    });
    let items1 = match existing {
        Some(k) => items0.update(
            k,
            OutputItemModel {
                active: items0[k].active,
                id: if items0[k].summary_fallback { id } else { items0[k].id },
                text: if append { items0[k].text + text } else { text },
                process,
                summary_fallback: false,
            },
        ),
        None => items0.push(
            OutputItemModel { active: false, summary_fallback: false, id, text, process },
        ),
    };
    let items2 = if activate {
        activated(
            items1,
            match existing {
                Some(k) => k,
                None => items1.len() - 1,
            },
        )
    } else {
        items1
    };
    BufferModel { items: items2, agent_text: agent_text_of(items2), ..b }
}

/// Number of answers (non-process items).
pub open spec fn answer_count(items: Seq<OutputItemModel>) -> nat
    decreases items.len(),
{
    if items.len() == 0 {
        0
    } else {
        answer_count(items.drop_last()) + if items.last().process { 0nat } else { 1nat }
    }
}

/// A cumulative answer without an id updates the single answer (or becomes
/// one); with several distinct answers it cannot be placed and is ignored.
pub open spec fn record_summary_model(b: BufferModel, text: Seq<char>) -> BufferModel {
    match first_where(b.items, is_answer()) {
        Some(k) => if answer_count(b.items) >= 2 || b.items[k].text == text {
            b
        } else {
            let items1 = b.items.update(k, OutputItemModel { text, ..b.items[k] });
            let items2 = activated(items1, k);
            BufferModel { items: items2, agent_text: agent_text_of(items2), ..b }
        },
        None => {
            let items1 = b.items.push(
                OutputItemModel { active: false, id: None, text, process: false, summary_fallback: true },
            );
            let items2 = activated(items1, items1.len() - 1);
            BufferModel { items: items2, agent_text: agent_text_of(items2), ..b }
        },
    }
}

/// Every item carries the agent text invariant: once items exist, the agent
/// text is their answers joined.
pub open spec fn buffer_inv(b: BufferModel) -> bool {
    b.items.len() > 0 ==> b.agent_text == agent_text_of(b.items)
}


fn find_with_id(items: &Vec<TurnOutputItem>, id: &str) -> (r: Option<usize>)
    ensures
        match r {
            Some(k) => first_where(output_view(items@), has_id(id@)) == Some(k as int) && k < items.len(),
            None => first_where(output_view(items@), has_id(id@)) is None,
        },
{
    let ghost v = output_view(items@);
    let ghost pred = has_id(id@);
    let mut i: usize = 0;
    while i < items.len()
        invariant
            i <= items.len(),
            v == output_view(items@),
            pred == has_id(id@),
            forall|j: int| 0 <= j < i ==> !pred(#[trigger] v[j]),
        decreases items.len() - i,
    {
        let found = match &items[i].id {
            Some(x) => str_eq(x.as_str(), id),
            None => false,
        };
        assert(v[i as int] == items@[i as int]@);
        if found {
            proof { lemma_first_where_at(v, pred, i as int); }
            return Some(i);
        }
        i = i + 1;
    }
    proof { lemma_first_where_none(v, pred); }
    None
}

fn find_fallback(items: &Vec<TurnOutputItem>) -> (r: Option<usize>)
    ensures
        match r {
            Some(k) => first_where(output_view(items@), is_fallback()) == Some(k as int) && k < items.len(),
            None => first_where(output_view(items@), is_fallback()) is None,
        },
{
    let ghost v = output_view(items@);
    let ghost pred = is_fallback();
    let mut i: usize = 0;
    while i < items.len()
        invariant
            i <= items.len(),
            v == output_view(items@),
            pred == is_fallback(),
            forall|j: int| 0 <= j < i ==> !pred(#[trigger] v[j]),
        decreases items.len() - i,
    {
        assert(v[i as int] == items@[i as int]@);
        if items[i].summary_fallback {
            proof { lemma_first_where_at(v, pred, i as int); }
            return Some(i);
        }
        i = i + 1;
    }
    proof { lemma_first_where_none(v, pred); }
    None
}

fn find_answer(items: &Vec<TurnOutputItem>) -> (r: Option<usize>)
    ensures
        match r {
            Some(k) => first_where(output_view(items@), is_answer()) == Some(k as int) && k < items.len(),
            None => first_where(output_view(items@), is_answer()) is None,
        },
{
    let ghost v = output_view(items@);
    let ghost pred = is_answer();
    let mut i: usize = 0;
    while i < items.len()
        invariant
            i <= items.len(),
            v == output_view(items@),
            pred == is_answer(),
            forall|j: int| 0 <= j < i ==> !pred(#[trigger] v[j]),
        decreases items.len() - i,
    {
        assert(v[i as int] == items@[i as int]@);
        if !items[i].process {
            proof { lemma_first_where_at(v, pred, i as int); }
            return Some(i);
        }
        i = i + 1;
    }
    proof { lemma_first_where_none(v, pred); }
    None
}

/// Whether at least two answers exist.
fn several_answers(items: &Vec<TurnOutputItem>) -> (r: bool)
    ensures
        r == (answer_count(output_view(items@)) >= 2),
{
    let ghost v = output_view(items@);
    let mut count: usize = 0;
    let mut i: usize = 0;
    while i < items.len()
        invariant
            i <= items.len(),
            v == output_view(items@),
            count == answer_count(v.take(i as int)),
            count <= 1,
        decreases items.len() - i,
    {
        assert(v.take(i + 1).drop_last() =~= v.take(i as int));
        assert(v[i as int] == items@[i as int]@);
        if !items[i].process {
            if count == 1 {
                proof { lemma_answer_count_mono(v, i + 1); }
                return true;
            }
            count = count + 1;
        }
        i = i + 1;
    }
    assert(v.take(i as int) =~= v);
    false
}

proof fn lemma_answer_count_mono(v: Seq<OutputItemModel>, n: int)
    requires
        0 <= n <= v.len(),
    ensures
        answer_count(v.take(n)) <= answer_count(v),
    decreases v.len() - n,
{
    if n < v.len() {
        lemma_answer_count_mono(v, n + 1);
        assert(v.take(n + 1).drop_last() =~= v.take(n));
    } else {
        assert(v.take(n) =~= v);
    }
}

fn to_id(id: Option<&str>) -> (r: Option<String>)
    ensures
        opt_view(r) == match id {
            Some(s) => Some(s@),
            None => None::<Seq<char>>,
        },
{
    match id {
        Some(s) => Some(owned(s)),
        None => None,
    }
}

pub open spec fn opt_str(id: Option<&str>) -> Option<Seq<char>> {
    match id {
        Some(s) => Some(s@),
        None => None,
    }
}

impl TurnBuffer {
    /// Fill in a user input read after the fact, only where none is known.
    pub fn restore_user_text(&mut self, text: String) -> (changed: bool)
        ensures
            changed == blank(old(self)@.user_text),
            final(self)@ == (if changed { BufferModel { user_text: text@, ..old(self)@ } } else { old(self)@ }),
    {
        if is_blank(self.user_text.as_str()) {
            self.user_text = text;
            true
        } else {
            false
        }
    }

    pub fn new(status: TurnStatus) -> (r: Self)
        ensures
            r@.user_text == Seq::<char>::empty(),
            r@.agent_text == Seq::<char>::empty(),
            r@.status == status,
            r@.items == Seq::<OutputItemModel>::empty(),
            r@.started_at is None,
            r@.rendered_elapsed_seconds is None,
    {
        let r = TurnBuffer {
            user_text: String::new(),
            agent_text: String::new(),
            status,
            output_items: Vec::new(),
            started_at: None,
            rendered_elapsed_seconds: None,
        };
        assert(r@.items =~= Seq::<OutputItemModel>::empty());
        r
    }

    /// Mark exactly the item at `index` active.
    fn activate_output(&mut self, index: usize)
        ensures
            final(self)@ == (BufferModel { items: activated(old(self)@.items, index as int), ..old(self)@ }),
    {
        let ghost before = self@;
        let ghost orig = self.output_items@;
        let mut i: usize = 0;
        while i < self.output_items.len()
            invariant
                i <= self.output_items.len(),
                self.output_items.len() == orig.len(),
                self.user_text == old(self).user_text,
                self.agent_text == old(self).agent_text,
                self.status == old(self).status,
                self.started_at == old(self).started_at,
                self.rendered_elapsed_seconds == old(self).rendered_elapsed_seconds,
                before == old(self)@,
                orig == old(self).output_items@,
                forall|p: int| 0 <= p < i ==> (#[trigger] self.output_items@[p])@ == (OutputItemModel { active: p == index, ..orig[p]@ }),
                forall|p: int| i <= p < self.output_items.len() ==> #[trigger] self.output_items@[p] == orig[p],
            decreases self.output_items.len() - i,
        {
            let ghost prev = self.output_items@;
            let item = &mut self.output_items[i];
            item.active = i == index;
            assert forall|p: int| 0 <= p < prev.len() && p != i implies self.output_items@[p] == prev[p] by {}
            i = i + 1;
        }
        assert(self@.items =~= activated(before.items, index as int));
    }

    /// Recompute the answer text from the items.
    fn refresh_agent_text(&mut self)
        ensures
            final(self)@ == (BufferModel { agent_text: agent_text_of(old(self)@.items), ..old(self)@ }),
    {
        let ghost v = self@.items;
        let mut parts: Vec<String> = Vec::new();
        let mut i: usize = 0;
        while i < self.output_items.len()
            invariant
                i <= self.output_items.len(),
                v == self@.items,
                parts@.map_values(|s: String| s@) == answer_texts(v.take(i as int)),
            decreases self.output_items.len() - i,
        {
            assert(v.take(i + 1).drop_last() =~= v.take(i as int));
            assert(v[i as int] == self.output_items@[i as int]@);
            let item = &self.output_items[i];
            if !item.process && !item.text.as_str().is_empty() {
                parts.push(item.text.clone());
                assert(parts@.map_values(|s: String| s@) =~= answer_texts(v.take(i as int)).push(v[i as int].text));
            }
            i = i + 1;
        }
        assert(v.take(i as int) =~= v);
        self.agent_text = join_strings(&parts, "\n\n");
    }
}


impl TurnBuffer {
    /// Record one output block by id: update the item with that id (or the
    /// summary placeholder for an identified answer) or append a new one;
    /// a block with new visible content becomes the active one.
    /// A commentary item started: it gets an empty process block, unless the
    /// turn already has an item with its id.
    pub fn start_commentary(&mut self, item_id: &str)
        ensures
            final(self)@ == if first_where(old(self)@.items, has_id(item_id@)) is Some {
                old(self)@
            } else {
                record_output_model(old(self)@, Some(item_id@), Seq::empty(), true, false)
            },
    {
        match find_with_id(&self.output_items, item_id) {
            Some(_) => {},
            None => {
                proof {
                    reveal_strlit("");
                    assert(""@ =~= Seq::<char>::empty());
                }
                self.record_output(Some(item_id), "", true, false);
            },
        }
    }

    pub fn record_output(&mut self, id: Option<&str>, text: &str, process: bool, append_text: bool)
        ensures
            final(self)@ == record_output_model(old(self)@, opt_str(id), text@, process, append_text),
    {
        let ghost b = self@;
        if self.output_items.len() == 0 && !self.agent_text.as_str().is_empty() {
            let fallback_id = if process { None } else { to_id(id) };
            let placeholder = TurnOutputItem {
                active: false,
                summary_fallback: process || id.is_none(),
                id: fallback_id,
                text: self.agent_text.clone(),
                process: false,
            };
            self.output_items.push(placeholder);
        }
        let ghost items0 = self@.items;
        proof {
            assert(items0 =~= hydrated(b, opt_str(id), process));
        }
        let existing = match id {
            Some(i) => match find_with_id(&self.output_items, i) {
                Some(k) => Some(k),
                None => if !process {
                    find_fallback(&self.output_items)
                } else {
                    None
                },
            },
            None => None,
        };
        proof {
            assert(match existing {
                Some(k) => existing_index(items0, opt_str(id), process) == Some(k as int),
                None => existing_index(items0, opt_str(id), process) is None,
            });
        }
        let activate = !is_blank(text) && (append_text || match existing {
            None => true,
            Some(k) => {
                let ex = &self.output_items[k];
                is_blank(ex.text.as_str()) || (!process && (ex.process || !str_eq(ex.text.as_str(), text)))
            },
        });
        match existing {
            Some(k) => {
                let ghost prev = self.output_items@;
                let ex = &mut self.output_items[k];
                if ex.summary_fallback {
                    ex.id = to_id(id);
                    ex.summary_fallback = false;
                }
                ex.process = process;
                if append_text {
                    append(&mut ex.text, text);
                } else {
                    ex.text = owned(text);
                }
                assert forall|p: int| 0 <= p < prev.len() && p != k implies self.output_items@[p] == prev[p] by {}
            },
            None => {
                self.output_items.push(
                    TurnOutputItem { active: false, summary_fallback: false, id: to_id(id), text: owned(text), process },
                );
            },
        }
        let ghost items1 = self@.items;
        proof {
            let expected = match existing_index(items0, opt_str(id), process) {
                Some(k) => items0.update(
                    k,
                    OutputItemModel {
                        active: items0[k].active,
                        id: if items0[k].summary_fallback { opt_str(id) } else { items0[k].id },
                        text: if append_text { items0[k].text + text@ } else { text@ },
                        process,
                        summary_fallback: false,
                    },
                ),
                None => items0.push(
                    OutputItemModel { active: false, summary_fallback: false, id: opt_str(id), text: text@, process },
                ),
            };
            assert(items1 =~= expected);
        }
        if activate {
            let index = match existing {
                Some(k) => k,
                None => self.output_items.len() - 1,
            };
            self.activate_output(index);
        }
        self.refresh_agent_text();
        proof {
            assert(self@ =~= record_output_model(b, opt_str(id), text@, process, append_text));
        }
    }

    /// A cumulative answer without an id (older hosts): update the single
    /// answer, or add it as a placeholder when no answer exists yet.
    pub fn record_summary(&mut self, text: &str)
        ensures
            final(self)@ == record_summary_model(old(self)@, text@),
    {
        let ghost b = self@;
        match find_answer(&self.output_items) {
            Some(k) => {
                if several_answers(&self.output_items) {
                    return;
                }
                if str_eq(self.output_items[k].text.as_str(), text) {
                    return;
                }
                let ghost prev = self.output_items@;
                let ex = &mut self.output_items[k];
                ex.text = owned(text);
                assert forall|p: int| 0 <= p < prev.len() && p != k implies self.output_items@[p] == prev[p] by {}
                assert(self@.items =~= b.items.update(k as int, OutputItemModel { text: text@, ..b.items[k as int] }));
                self.activate_output(k);
            },
            None => {
                self.output_items.push(
                    TurnOutputItem { active: false, id: None, text: owned(text), process: false, summary_fallback: true },
                );
                assert(self@.items =~= b.items.push(
                    OutputItemModel { active: false, id: None, text: text@, process: false, summary_fallback: true },
                ));
                let last = self.output_items.len() - 1;
                self.activate_output(last);
            },
        }
        self.refresh_agent_text();
        proof {
            assert(self@ =~= record_summary_model(b, text@));
        }
    }
}


/// The buffer after one history or event item, and whether the item was used.
pub open spec fn apply_item_model(b: BufferModel, item: ItemModel, config: OutputConfig, now: u64) -> (BufferModel, bool) {
    let process = process_text_of(config, item);
    let kind = item.kind;
    if !(kind == "agentMessage"@ || kind == "userMessage"@ || kind == "commentary"@) && process is None {
        (b, false)
    } else {
        let b1 = BufferModel { started_at: if b.started_at is None { Some(now) } else { b.started_at }, ..b };
        let b2 = if kind == "agentMessage"@ {
            record_output_model(b1, Some(item.id), text_or_empty(item.text), false, false)
        } else if kind == "commentary"@ {
            record_output_model(b1, Some(item.id), text_or_empty(process), true, false)
        } else if kind == "userMessage"@ {
            BufferModel { user_text: text_or_empty(item.text), ..b1 }
        } else {
            match process {
                Some(t) => record_output_model(b1, Some(item.id), t, true, false),
                None => b1,
            }
        };
        (b2, true)
    }
}

/// A commentary delta; a block announced without text first gets its
/// reasoning heading.
pub open spec fn append_commentary_model(b: BufferModel, id: Seq<char>, delta: Seq<char>) -> BufferModel {
    let b1 = if exists|i: int| 0 <= i < b.items.len() && (#[trigger] b.items[i]).id == Some(id) && b.items[i].text.len() == 0 {
        record_output_model(b, Some(id), "**Reasoning**\n\n"@, true, false)
    } else {
        b
    };
    record_output_model(b1, Some(id), delta, true, true)
}

impl TurnBuffer {
    /// Note the clock reading `now` as the start when none is recorded.
    pub fn ensure_started(&mut self, now: u64)
        ensures
            final(self)@ == (BufferModel {
                started_at: if old(self)@.started_at is None { Some(now) } else { old(self)@.started_at },
                ..old(self)@
            }),
    {
        if self.started_at.is_none() {
            self.started_at = Some(now);
        }
    }

    /// Whole seconds since the start, as of clock reading `now`.
    pub fn elapsed_seconds(&self, now: u64) -> (r: Option<u64>)
        ensures
            r == match self.started_at {
                Some(start) => Some(if now >= start { ((now - start) / 1000) as u64 } else { 0u64 }),
                None => None::<u64>,
            },
    {
        match self.started_at {
            Some(start) => Some(if now >= start { (now - start) / 1000 } else { 0 }),
            None => None,
        }
    }

    /// Apply one item: answers and process blocks are recorded by id, user
    /// messages set the input text; hidden or unknown kinds are ignored.
    pub fn apply_item(&mut self, item: &ItemSummary, output: OutputConfig, now: u64) -> (used: bool)
        ensures
            (final(self)@, used) == apply_item_model(old(self)@, item@, output, now),
    {
        let ghost b = self@;
        let process = output.process_text(item);
        let kind = item.kind.as_str();
        let agent = str_eq(kind, "agentMessage");
        let user = str_eq(kind, "userMessage");
        let commentary = str_eq(kind, "commentary");
        if !(agent || user || commentary) && process.is_none() {
            return false;
        }
        self.ensure_started(now);
        if agent {
            match &item.text {
                Some(t) => self.record_output(Some(item.id.as_str()), t.as_str(), false, false),
                None => {
                    proof { assert(""@ =~= Seq::<char>::empty()) by { reveal_strlit(""); } }
                    self.record_output(Some(item.id.as_str()), "", false, false)
                },
            }
        } else if commentary {
            match &process {
                Some(t) => self.record_output(Some(item.id.as_str()), t.as_str(), true, false),
                None => {
                    proof { assert(""@ =~= Seq::<char>::empty()) by { reveal_strlit(""); } }
                    self.record_output(Some(item.id.as_str()), "", true, false)
                },
            }
        } else if user {
            self.user_text = match &item.text {
                Some(t) => t.clone(),
                None => String::new(),
            };
        } else {
            match &process {
                Some(t) => self.record_output(Some(item.id.as_str()), t.as_str(), true, false),
                None => {},
            }
        }
        true
    }

    /// A streamed delta of item `item_id`: a commentary delta joins its
    /// reasoning block (only while reasoning is shown); any other delta
    /// extends the item's answer.
    pub fn apply_delta(&mut self, item_id: &str, delta: &str, show_reasoning: bool)
        ensures
            final(self)@ == if exists|j: int| 0 <= j < old(self)@.items.len()
                && (#[trigger] old(self)@.items[j]).id == Some(item_id@) && old(self)@.items[j].process {
                if show_reasoning { append_commentary_model(old(self)@, item_id@, delta@) } else { old(self)@ }
            } else {
                record_output_model(old(self)@, Some(item_id@), delta@, false, true)
            },
    {
        let ghost b = self@;
        let mut commentary = false;
        let mut i: usize = 0;
        while i < self.output_items.len() && !commentary
            invariant
                i <= self.output_items.len(),
                self@ == b,
                !commentary ==> forall|j: int| 0 <= j < i ==> !((#[trigger] b.items[j]).id == Some(item_id@) && b.items[j].process),
                commentary ==> exists|j: int| 0 <= j < b.items.len() && (#[trigger] b.items[j]).id == Some(item_id@) && b.items[j].process,
            decreases self.output_items.len() - i,
        {
            assert(b.items[i as int] == self.output_items@[i as int]@);
            let item = &self.output_items[i];
            let same = match &item.id {
                Some(x) => str_eq(x.as_str(), item_id),
                None => false,
            };
            if same && item.process {
                commentary = true;
            }
            i = i + 1;
        }
        if commentary {
            if show_reasoning {
                self.append_commentary(item_id, delta);
            }
        } else {
            self.record_output(Some(item_id), delta, false, true);
        }
    }

    /// The error a turn ended with, shown as its last answer.
    pub fn record_error(&mut self, error: &str)
        ensures
            final(self)@ == record_output_model(old(self)@, None, "Error: "@ + error@, false, false),
    {
        let mut text = owned("Error: ");
        append(&mut text, error);
        self.record_output(None, text.as_str(), false, false);
    }

    /// Append a streamed commentary delta to its reasoning block.
    pub fn append_commentary(&mut self, id: &str, delta: &str)
        ensures
            final(self)@ == append_commentary_model(old(self)@, id@, delta@),
    {
        let ghost b = self@;
        let mut empty_block = false;
        let mut i: usize = 0;
        while i < self.output_items.len()
            invariant
                i <= self.output_items.len(),
                self@ == b,
                !empty_block ==> forall|j: int| 0 <= j < i ==> !((#[trigger] b.items[j]).id == Some(id@) && b.items[j].text.len() == 0),
                empty_block ==> exists|j: int| 0 <= j < b.items.len() && (#[trigger] b.items[j]).id == Some(id@) && b.items[j].text.len() == 0,
            decreases self.output_items.len() - i,
        {
            assert(b.items[i as int] == self.output_items@[i as int]@);
            let item = &self.output_items[i];
            let same = match &item.id {
                Some(x) => str_eq(x.as_str(), id),
                None => false,
            };
            if same && item.text.as_str().is_empty() {
                empty_block = true;
            }
            i = i + 1;
        }
        if empty_block {
            self.record_output(Some(id), "**Reasoning**\n\n", true, false);
        }
        self.record_output(Some(id), delta, true, true);
    }
}


/// Apply every non-user item in order.
pub open spec fn apply_items_model(b: BufferModel, items: Seq<ItemModel>, config: OutputConfig, now: u64) -> BufferModel
    decreases items.len(),
{
    if items.len() == 0 {
        b
    } else {
        let b1 = apply_items_model(b, items.drop_last(), config, now);
        if items.last().kind == "userMessage"@ {
            b1
        } else {
            apply_item_model(b1, items.last(), config, now).0
        }
    }
}

/// User messages, one per id at the position of its first appearance,
/// holding its latest content.
pub open spec fn dedup_users(items: Seq<ItemModel>) -> Seq<ItemModel>
    decreases items.len(),
{
    if items.len() == 0 {
        Seq::empty()
    } else {
        let users = dedup_users(items.drop_last());
        let it = items.last();
        if it.kind == "userMessage"@ {
            match first_index(item_ids(users), it.id) {
                Some(k) => users.update(k, it),
                None => users.push(it),
            }
        } else {
            users
        }
    }
}

/// Non-blank texts of the given items.
pub open spec fn visible_texts(items: Seq<ItemModel>) -> Seq<Seq<char>>
    decreases items.len(),
{
    if items.len() == 0 {
        Seq::empty()
    } else {
        let rest = visible_texts(items.drop_last());
        match items.last().text {
            Some(t) => if blank(t) { rest } else { rest.push(t) },
            None => rest,
        }
    }
}

pub open spec fn empty_buffer(status: TurnStatus) -> BufferModel {
    BufferModel {
        user_text: Seq::empty(),
        agent_text: Seq::empty(),
        status,
        items: Seq::empty(),
        started_at: None,
        rendered_elapsed_seconds: None,
    }
}

/// A buffer rebuilt from a history turn.
pub open spec fn from_summary_model(turn: TurnModel, config: OutputConfig, now: u64) -> BufferModel {
    let b0 = BufferModel { user_text: text_or_empty(turn.user_text), ..empty_buffer(turn.status) };
    let b1 = apply_items_model(b0, turn.items, config, now);
    let b2 = if blank(b1.user_text) {
        BufferModel { user_text: join(visible_texts(dedup_users(turn.items)), "\n\n"@), ..b1 }
    } else {
        b1
    };
    match turn.agent_text {
        Some(t) => if blank(b2.agent_text) && !blank(t) {
            record_summary_model(b2, t)
        } else {
            b2
        },
        None => b2,
    }
}

/// Fold restored items into a buffer: placeholders as summaries, the rest by id.
pub open spec fn merge_restored_model(b: BufferModel, items: Seq<OutputItemModel>) -> BufferModel
    decreases items.len(),
{
    if items.len() == 0 {
        b
    } else {
        let b1 = merge_restored_model(b, items.drop_last());
        let it = items.last();
        if it.summary_fallback {
            record_summary_model(b1, it.text)
        } else {
            record_output_model(b1, it.id, it.text, it.process, false)
        }
    }
}

/// A live buffer completed with a history turn.
pub open spec fn merge_summary_model(b: BufferModel, turn: TurnModel, config: OutputConfig, now: u64) -> BufferModel {
    let restored = from_summary_model(turn, config, now);
    let take_user = !blank(restored.user_text) && (match turn.user_text {
        Some(t) => !blank(t),
        None => false,
    } || blank(b.user_text));
    let b1 = if take_user { BufferModel { user_text: restored.user_text, ..b } } else { b };
    merge_restored_model(b1, restored.items)
}

fn user_text_of(items: &Vec<ItemSummary>) -> (r: String)
    ensures
        r@ == join(visible_texts(dedup_users(items_view(items@))), "\n\n"@),
{
    let ghost v = items_view(items@);
    let mut users: Vec<ItemSummary> = Vec::new();
    let mut i: usize = 0;
    while i < items.len()
        invariant
            i <= items.len(),
            v == items_view(items@),
            items_view(users@) == dedup_users(v.take(i as int)),
        decreases items.len() - i,
    {
        assert(v.take(i + 1).drop_last() =~= v.take(i as int));
        assert(v[i as int] == items@[i as int]@);
        let item = &items[i];
        if str_eq(item.kind.as_str(), "userMessage") {
            match find_item(&users, item.id.as_str()) {
                Some(k) => {
                    users.set(k, item.clone());
                },
                None => {
                    users.push(item.clone());
                },
            }
            assert(items_view(users@) =~= dedup_users(v.take(i + 1)));
        }
        i = i + 1;
    }
    assert(v.take(i as int) =~= v);
    let ghost u = items_view(users@);
    let mut texts: Vec<String> = Vec::new();
    let mut j: usize = 0;
    while j < users.len()
        invariant
            j <= users.len(),
            u == items_view(users@),
            texts@.map_values(|s: String| s@) == visible_texts(u.take(j as int)),
        decreases users.len() - j,
    {
        assert(u.take(j + 1).drop_last() =~= u.take(j as int));
        assert(u[j as int] == users@[j as int]@);
        match &users[j].text {
            Some(t) => {
                if !is_blank(t.as_str()) {
                    texts.push(t.clone());
                    assert(texts@.map_values(|s: String| s@) =~= visible_texts(u.take(j as int)).push(t@));
                }
            },
            None => {},
        }
        j = j + 1;
    }
    assert(u.take(j as int) =~= u);
    join_strings(&texts, "\n\n")
}

impl TurnBuffer {
    /// Rebuild a buffer from a history turn (clock reading `now` starts it
    /// once content is applied).
    pub fn from_summary(turn: &TurnSummary, output: OutputConfig, now: u64) -> (r: Self)
        ensures
            r@ == from_summary_model(turn@, output, now),
    {
        let mut buffer = TurnBuffer::new(turn.status);
        buffer.user_text = match &turn.user_text {
            Some(t) => t.clone(),
            None => String::new(),
        };
        let ghost b0 = buffer@;
        let ghost v = turn@.items;
        proof {
            assert(b0 =~= (BufferModel { user_text: text_or_empty(turn@.user_text), ..empty_buffer(turn.status) }));
        }
        let mut i: usize = 0;
        while i < turn.items.len()
            invariant
                i <= turn.items.len(),
                v == turn@.items,
                v == items_view(turn.items@),
                buffer@ == apply_items_model(b0, v.take(i as int), output, now),
            decreases turn.items.len() - i,
        {
            assert(v.take(i + 1).drop_last() =~= v.take(i as int));
            assert(v[i as int] == turn.items@[i as int]@);
            let item = &turn.items[i];
            if !str_eq(item.kind.as_str(), "userMessage") {
                buffer.apply_item(item, output, now);
            }
            i = i + 1;
        }
        assert(v.take(i as int) =~= v);
        if is_blank(buffer.user_text.as_str()) {
            buffer.user_text = user_text_of(&turn.items);
        }
        match &turn.agent_text {
            Some(t) => {
                if is_blank(buffer.agent_text.as_str()) && !is_blank(t.as_str()) {
                    buffer.record_summary(t.as_str());
                }
            },
            None => {},
        }
        buffer
    }

    /// Complete this buffer with a history turn: the history user text wins
    /// when it is explicit or nothing is known yet; restored blocks are
    /// recorded in order.
    pub fn merge_summary(&mut self, turn: &TurnSummary, output: OutputConfig, now: u64)
        ensures
            final(self)@ == merge_summary_model(old(self)@, turn@, output, now),
    {
        let restored = Self::from_summary(turn, output, now);
        let explicit = match &turn.user_text {
            Some(t) => !is_blank(t.as_str()),
            None => false,
        };
        if !is_blank(restored.user_text.as_str()) && (explicit || is_blank(self.user_text.as_str())) {
            self.user_text = restored.user_text.clone();
        }
        let ghost b1 = self@;
        let ghost v = restored@.items;
        let mut i: usize = 0;
        while i < restored.output_items.len()
            invariant
                i <= restored.output_items.len(),
                v == restored@.items,
                self@ == merge_restored_model(b1, v.take(i as int)),
            decreases restored.output_items.len() - i,
        {
            assert(v.take(i + 1).drop_last() =~= v.take(i as int));
            assert(v[i as int] == restored.output_items@[i as int]@);
            let item = &restored.output_items[i];
            if item.summary_fallback {
                self.record_summary(item.text.as_str());
            } else {
                match &item.id {
                    Some(x) => self.record_output(Some(x.as_str()), item.text.as_str(), item.process, false),
                    None => self.record_output(None, item.text.as_str(), item.process, false),
                }
            }
            i = i + 1;
        }
        assert(v.take(i as int) =~= v);
    }
}


/// A process block without its heading.
pub open spec fn process_body(t: Seq<char>) -> Seq<char> {
    match strip_prefix_of(t, "**Reasoning**\n\n"@) {
        Some(x) => x,
        None => match strip_prefix_of(t, "**Tool call**: "@) {
            Some(x) => x,
            None => t,
        },
    }
}

pub open spec fn has_visible_process(items: Seq<OutputItemModel>) -> bool {
    exists|i: int| 0 <= i < items.len() && (#[trigger] items[i]).process && !blank(items[i].text)
}

/// Plain rendering of the blocks so far, and the kind of the last block
/// (reasoning or tool call) when it was a process block.
pub open spec fn render_acc(items: Seq<OutputItemModel>, has_process: bool) -> (Seq<char>, Option<bool>)
    decreases items.len(),
{
    if items.len() == 0 {
        (Seq::empty(), None)
    } else {
        let (out, previous) = render_acc(items.drop_last(), has_process);
        let item = items.last();
        if item.text.len() == 0 {
            (out, previous)
        } else {
            let process = if item.process { Some(is_prefix("**Reasoning**\n\n"@, item.text)) } else { None };
            if process is Some && process == previous {
                (out + "\n\n"@ + process_body(item.text), process)
            } else {
                let sep = if out.len() > 0 { "\n\n\n"@ } else { Seq::empty() };
                let heading = if has_process && !item.process { "**Output**\n\n"@ } else { Seq::empty() };
                (out + sep + heading + item.text, process)
            }
        }
    }
}

/// The plain-text body of a turn: consecutive process blocks of one kind
/// share a heading, and answers get an `**Output**` heading when process
/// blocks are shown.
pub open spec fn render_output_model(b: BufferModel) -> Seq<char> {
    if b.items.len() == 0 {
        b.agent_text
    } else {
        render_acc(b.items, has_visible_process(b.items)).0
    }
}

pub open spec fn section_of(item: OutputItemModel, agent_title: Seq<char>) -> (Seq<char>, Seq<char>) {
    if !item.process {
        (agent_title, item.text)
    } else {
        match strip_prefix_of(item.text, "**Reasoning**\n\n"@) {
            Some(x) => ("🧠 Reasoning"@, x),
            None => ("🔨 Tool Call"@, match strip_prefix_of(item.text, "**Tool call**: "@) {
                Some(x) => x,
                None => item.text,
            }),
        }
    }
}

/// Sections for the visible blocks; a block continuing a section of the
/// same title joins it, expanded when any of its blocks is active.
pub open spec fn sections_acc(start: Seq<SectionModel>, items: Seq<OutputItemModel>, agent_title: Seq<char>) -> Seq<SectionModel>
    decreases items.len(),
{
    if items.len() == 0 {
        start
    } else {
        let acc = sections_acc(start, items.drop_last(), agent_title);
        let item = items.last();
        if blank(item.text) {
            acc
        } else {
            let (title, body) = section_of(item, agent_title);
            if acc.len() > 0 && acc.last().title == title {
                let prev = acc.last();
                acc.update(
                    acc.len() - 1,
                    SectionModel {
                        body: prev.body + "\n\n"@ + body,
                        expanded: Some(prev.expanded == Some(true) || item.active),
                        ..prev
                    },
                )
            } else {
                acc.push(SectionModel { title, body, collapsible: item.process, expanded: Some(item.active) })
            }
        }
    }
}

pub open spec fn view_sections_model(b: BufferModel, agent_name: Seq<char>) -> Seq<SectionModel> {
    let agent_title = "🤖 "@ + agent_name;
    let s0 = if !blank(b.user_text) {
        seq![SectionModel { title: "👤 You"@, body: b.user_text, collapsible: false, expanded: None }]
    } else {
        Seq::empty()
    };
    let s1 = sections_acc(s0, b.items, agent_title);
    if b.items.len() == 0 && !blank(b.agent_text) {
        s1.push(SectionModel { title: agent_title, body: b.agent_text, collapsible: false, expanded: None })
    } else {
        s1
    }
}

fn any_visible_process(items: &Vec<TurnOutputItem>) -> (r: bool)
    ensures
        r == has_visible_process(output_view(items@)),
{
    let ghost v = output_view(items@);
    let mut i: usize = 0;
    while i < items.len()
        invariant
            i <= items.len(),
            v == output_view(items@),
            forall|j: int| 0 <= j < i ==> !((#[trigger] v[j]).process && !blank(v[j].text)),
        decreases items.len() - i,
    {
        assert(v[i as int] == items@[i as int]@);
        if items[i].process && !is_blank(items[i].text.as_str()) {
            return true;
        }
        i = i + 1;
    }
    false
}

fn process_body_of(text: &str) -> (r: String)
    ensures
        r@ == process_body(text@),
{
    match strip_prefix(text, "**Reasoning**\n\n") {
        Some(x) => x,
        None => match strip_prefix(text, "**Tool call**: ") {
            Some(x) => x,
            None => owned(text),
        },
    }
}

impl TurnBuffer {
    /// The plain-text body of the turn.
    pub fn render_output(&self) -> (r: String)
        ensures
            r@ == render_output_model(self@),
    {
        if self.output_items.len() == 0 {
            return self.agent_text.clone();
        }
        let ghost v = self@.items;
        let has_process = any_visible_process(&self.output_items);
        let mut output = String::new();
        let mut previous: Option<bool> = None;
        let mut i: usize = 0;
        while i < self.output_items.len()
            invariant
                i <= self.output_items.len(),
                v == self@.items,
                has_process == has_visible_process(v),
                (output@, previous) == render_acc(v.take(i as int), has_process),
            decreases self.output_items.len() - i,
        {
            assert(v.take(i + 1).drop_last() =~= v.take(i as int));
            assert(v[i as int] == self.output_items@[i as int]@);
            let item = &self.output_items[i];
            if !item.text.as_str().is_empty() {
                let process = if item.process { Some(starts_with(item.text.as_str(), "**Reasoning**\n\n")) } else { None };
                if process.is_some() && process == previous {
                    append(&mut output, "\n\n");
                    let body = process_body_of(item.text.as_str());
                    append(&mut output, body.as_str());
                } else {
                    if !output.as_str().is_empty() {
                        append(&mut output, "\n\n\n");
                    }
                    proof {
                        assert(output@ =~= block_separated(render_acc(v.take(i as int), has_process).0));
                    }
                    if has_process && !item.process {
                        append(&mut output, "**Output**\n\n");
                    }
                    append(&mut output, item.text.as_str());
                }
                previous = process;
            }
            i = i + 1;
        }
        assert(v.take(i as int) =~= v);
        output
    }
}

/// Output followed by the separator that starts a new block, if any precedes.
pub open spec fn block_separated(out: Seq<char>) -> Seq<char> {
    if out.len() > 0 { out + "\n\n\n"@ } else { out + Seq::empty() }
}


impl TurnBuffer {
    /// Structured sections of the turn for channels with rich views.
    pub fn view_sections(&self, agent_name: &str) -> (r: Vec<ViewSection>)
        ensures
            sections_view(r@) == view_sections_model(self@, agent_name@),
    {
        let mut agent_title = owned("🤖 ");
        append(&mut agent_title, agent_name);
        let mut sections: Vec<ViewSection> = Vec::new();
        if !is_blank(self.user_text.as_str()) {
            sections.push(
                ViewSection { title: owned("👤 You"), body: self.user_text.clone(), collapsible: false, expanded: None },
            );
        }
        let ghost s0 = sections_view(sections@);
        proof {
            let expected = if !blank(self@.user_text) {
                seq![SectionModel { title: "👤 You"@, body: self@.user_text, collapsible: false, expanded: None }]
            } else {
                Seq::<SectionModel>::empty()
            };
            assert(s0 =~= expected);
        }
        let ghost v = self@.items;
        let mut i: usize = 0;
        while i < self.output_items.len()
            invariant
                i <= self.output_items.len(),
                v == self@.items,
                agent_title@ == "🤖 "@ + agent_name@,
                sections_view(sections@) == sections_acc(s0, v.take(i as int), agent_title@),
            decreases self.output_items.len() - i,
        {
            assert(v.take(i + 1).drop_last() =~= v.take(i as int));
            assert(v[i as int] == self.output_items@[i as int]@);
            let item = &self.output_items[i];
            if !is_blank(item.text.as_str()) {
                let (title, body) = if !item.process {
                    (agent_title.clone(), item.text.clone())
                } else {
                    match strip_prefix(item.text.as_str(), "**Reasoning**\n\n") {
                        Some(x) => (owned("🧠 Reasoning"), x),
                        None => (
                            owned("🔨 Tool Call"),
                            match strip_prefix(item.text.as_str(), "**Tool call**: ") {
                                Some(x) => x,
                                None => item.text.clone(),
                            },
                        ),
                    }
                };
                let n = sections.len();
                let same = n > 0 && str_eq(sections[n - 1].title.as_str(), title.as_str());
                if same {
                    let ghost prev = sections@;
                    let last = &mut sections[n - 1];
                    append(&mut last.body, "\n\n");
                    append(&mut last.body, body.as_str());
                    last.expanded = Some(last.expanded == Some(true) || item.active);
                    assert forall|p: int| 0 <= p < prev.len() && p != n - 1 implies sections@[p] == prev[p] by {}
                } else {
                    sections.push(ViewSection { title, body, collapsible: item.process, expanded: Some(item.active) });
                }
                assert(sections_view(sections@) =~= sections_acc(s0, v.take(i + 1), agent_title@));
            }
            i = i + 1;
        }
        assert(v.take(i as int) =~= v);
        if self.output_items.len() == 0 && !is_blank(self.agent_text.as_str()) {
            sections.push(
                ViewSection { title: agent_title, body: self.agent_text.clone(), collapsible: false, expanded: None },
            );
        }
        proof {
            assert(sections_view(sections@) =~= view_sections_model(self@, agent_name@));
        }
        sections
    }
}


/// No two items are active at once.
pub open spec fn at_most_one_active(items: Seq<OutputItemModel>) -> bool {
    forall|i: int, j: int| 0 <= i < items.len() && 0 <= j < items.len() && items[i].active && items[j].active ==> i == j
}

/// Recording an identified block keeps the buffer consistent: the agent
/// text is the joined answers and at most one block is active.
pub proof fn record_output_keeps_buffer_consistent(
    b: BufferModel,
    id: Option<Seq<char>>,
    text: Seq<char>,
    process: bool,
    append: bool,
)
    requires
        at_most_one_active(b.items),
    ensures
        buffer_inv(record_output_model(b, id, text, process, append)),
        at_most_one_active(record_output_model(b, id, text, process, append).items),
{
    let items0 = hydrated(b, id, process);
    assert(at_most_one_active(items0));
    let existing = existing_index(items0, id, process);
    lemma_first_where(items0, has_id(id->0));
    lemma_first_where(items0, is_fallback());
    let r = record_output_model(b, id, text, process, append);
    let items1 = match existing {
        Some(k) => items0.update(
            k,
            OutputItemModel {
                active: items0[k].active,
                id: if items0[k].summary_fallback { id } else { items0[k].id },
                text: if append { items0[k].text + text } else { text },
                process,
                summary_fallback: false,
            },
        ),
        None => items0.push(OutputItemModel { active: false, summary_fallback: false, id, text, process }),
    };
    assert forall|i: int| 0 <= i < items1.len() && items1[i].active implies i < items0.len() && items0[i].active by {}
    assert forall|i: int, j: int| 0 <= i < r.items.len() && 0 <= j < r.items.len() && r.items[i].active && r.items[j].active implies i == j by {
        if r.items != items1 {
            assert(r.items[i].active && r.items[j].active);
        } else {
            assert(items1[i].active && items1[j].active);
        }
    }
}

/// Recording the same block twice is the same as recording it once.
pub proof fn record_output_is_idempotent(b: BufferModel, id: Seq<char>, text: Seq<char>, process: bool)
    ensures
        record_output_model(record_output_model(b, Some(id), text, process, false), Some(id), text, process, false)
            == record_output_model(b, Some(id), text, process, false),
{
    let once = record_output_model(b, Some(id), text, process, false);
    let items0 = hydrated(b, Some(id), process);
    let existing = existing_index(items0, Some(id), process);
    lemma_first_where(items0, has_id(id));
    lemma_first_where(items0, is_fallback());
    let items1 = match existing {
        Some(k) => items0.update(
            k,
            OutputItemModel {
                active: items0[k].active,
                id: if items0[k].summary_fallback { Some(id) } else { items0[k].id },
                text,
                process,
                summary_fallback: false,
            },
        ),
        None => items0.push(OutputItemModel { active: false, summary_fallback: false, id: Some(id), text, process }),
    };
    let k: int = match existing {
        Some(k) => k,
        None => items1.len() - 1,
    };
    let items = once.items;
    assert(items.len() == items1.len());
    assert(items[k].id == Some(id));
    assert(items[k].text == text && items[k].process == process && !items[k].summary_fallback);
    assert forall|j: int| 0 <= j < k implies !(#[trigger] has_id(id)(items[j])) by {
        assert(items[j].id == items0[j].id);
    }
    lemma_first_where_at(items, has_id(id), k);
    assert(hydrated(once, Some(id), process) == items) by {
        if items.len() == 0 {
            assert(false);
        }
    }
    let twice = record_output_model(once, Some(id), text, process, false);
    assert(twice.items =~= items);
}


impl Default for TurnBuffer {
    fn default() -> (r: Self)
        ensures
            r@ == empty_buffer(TurnStatus::InProgress),
    {
        let r = TurnBuffer::new(TurnStatus::InProgress);
        assert(r@.items =~= Seq::<OutputItemModel>::empty());
        r
    }
}

/// A heading a process block may start with, or none.
pub open spec fn block_heading(h: Seq<char>) -> bool {
    h.len() == 0 || h == "**Reasoning**\n\n"@ || h == "**Tool call**: "@
}

/// Rendering one more block keeps everything rendered before it.
pub proof fn rendering_only_grows(items: Seq<OutputItemModel>, x: OutputItemModel, has_process: bool)
    ensures
        render_acc(items, has_process).0.len() <= render_acc(items.push(x), has_process).0.len(),
        render_acc(items.push(x), has_process).0.subrange(0, render_acc(items, has_process).0.len() as int)
            == render_acc(items, has_process).0,
{
    let items2 = items.push(x);
    assert(items2.drop_last() =~= items);
    let before = render_acc(items, has_process).0;
    let after = render_acc(items2, has_process).0;
    assert(after.subrange(0, before.len() as int) =~= before);
}

/// The rendering ends with the text of the block rendered last, less the
/// heading it shares with the process block before it: a block with text
/// is never dropped.
pub proof fn rendering_ends_with_the_newest_block(items: Seq<OutputItemModel>, x: OutputItemModel, has_process: bool)
    requires
        x.text.len() > 0,
    ensures
        exists|h: Seq<char>, t: Seq<char>|
            #![trigger block_heading(h), h + t]
            {
            let r = render_acc(items.push(x), has_process).0;
            &&& x.text == h + t
            &&& block_heading(h)
            &&& t.len() <= r.len()
            &&& r.subrange(r.len() - t.len(), r.len() as int) == t
        },
{
    let items2 = items.push(x);
    assert(items2.drop_last() =~= items);
    assert(items2.last() == x);
    let (out, previous) = render_acc(items, has_process);
    let r = render_acc(items2, has_process).0;
    let process = if x.process { Some(is_prefix("**Reasoning**\n\n"@, x.text)) } else { None };
    if process is Some && process == previous {
        let t = process_body(x.text);
        let h = if is_prefix("**Reasoning**\n\n"@, x.text) {
            "**Reasoning**\n\n"@
        } else if is_prefix("**Tool call**: "@, x.text) {
            "**Tool call**: "@
        } else {
            Seq::<char>::empty()
        };
        assert(x.text =~= h + t);
        assert(r == out + "\n\n"@ + t);
        assert(r.subrange(r.len() - t.len(), r.len() as int) =~= t);
        assert(block_heading(h));
    } else {
        let t = x.text;
        let h = Seq::<char>::empty();
        assert(x.text =~= h + t);
        assert(r.subrange(r.len() - t.len(), r.len() as int) =~= t);
        assert(block_heading(h));
    }
}

proof fn lemma_rendering_prefix(items: Seq<OutputItemModel>, has_process: bool, n: int)
    requires
        0 <= n <= items.len(),
    ensures
        render_acc(items.take(n), has_process).0.len() <= render_acc(items, has_process).0.len(),
        render_acc(items, has_process).0.subrange(0, render_acc(items.take(n), has_process).0.len() as int)
            == render_acc(items.take(n), has_process).0,
    decreases items.len() - n,
{
    if n == items.len() {
        assert(items.take(n) =~= items);
        assert(render_acc(items, has_process).0.subrange(0, render_acc(items, has_process).0.len() as int)
            =~= render_acc(items, has_process).0);
    } else {
        lemma_rendering_prefix(items, has_process, n + 1);
        assert(items.take(n + 1) =~= items.take(n).push(items[n]));
        rendering_only_grows(items.take(n), items[n], has_process);
        let a = render_acc(items.take(n), has_process).0;
        let b = render_acc(items.take(n + 1), has_process).0;
        let c = render_acc(items, has_process).0;
        assert(c.subrange(0, a.len() as int) =~= b.subrange(0, a.len() as int));
    }
}

/// Every block with text shows in the rendering of a turn's blocks: its
/// text, less the heading it shares with the process block before it,
/// occurs there.
pub proof fn every_block_is_rendered(items: Seq<OutputItemModel>, has_process: bool, k: int)
    requires
        0 <= k < items.len(),
        items[k].text.len() > 0,
    ensures
        exists|h: Seq<char>, t: Seq<char>, at: int|
            #![trigger block_heading(h), h + t, render_acc(items, has_process).0.subrange(at, at + t.len())]
            {
            let r = render_acc(items, has_process).0;
            &&& items[k].text == h + t
            &&& block_heading(h)
            &&& 0 <= at && at + t.len() <= r.len()
            &&& r.subrange(at, at + t.len()) == t
        },
{
    let r = render_acc(items, has_process).0;
    assert(items.take(k + 1) =~= items.take(k).push(items[k]));
    rendering_ends_with_the_newest_block(items.take(k), items[k], has_process);
    lemma_rendering_prefix(items, has_process, k + 1);
    let p = render_acc(items.take(k + 1), has_process).0;
    let (h, t) = choose|h: Seq<char>, t: Seq<char>|
        #![trigger block_heading(h), h + t]
        {
        &&& items[k].text == h + t
        &&& block_heading(h)
        &&& t.len() <= p.len()
        &&& p.subrange(p.len() - t.len(), p.len() as int) == t
    };
    let at = p.len() - t.len();
    assert(r.subrange(at, at + t.len()) =~= p.subrange(at, p.len() as int));
}

/// An answer block with text is shown whole at the end of the rendering,
/// after an `**Output**` heading when the turn shows process blocks, and
/// set apart by a blank line from what was rendered before it.
pub proof fn answers_follow_an_output_heading(items: Seq<OutputItemModel>, x: OutputItemModel, has_process: bool)
    requires
        x.text.len() > 0,
        !x.process,
    ensures
        ({
            let before = render_acc(items, has_process).0;
            let r = render_acc(items.push(x), has_process).0;
            let heading = if has_process { "**Output**\n\n"@ } else { Seq::<char>::empty() };
            &&& r.len() == before.len() + (if before.len() > 0 { 3int } else { 0int }) + heading.len() + x.text.len()
            &&& r.subrange(0, before.len() as int) == before
            &&& before.len() > 0 ==> r.subrange(before.len() as int, before.len() + 3int) == "\n\n\n"@
            &&& r.subrange(r.len() - x.text.len() - heading.len(), r.len() as int) == heading + x.text
        }),
{
    let items2 = items.push(x);
    assert(items2.drop_last() =~= items);
    assert(items2.last() == x);
    let before = render_acc(items, has_process).0;
    let r = render_acc(items2, has_process).0;
    reveal_strlit("\n\n\n");
    reveal_strlit("**Output**\n\n");
    let heading = if has_process { "**Output**\n\n"@ } else { Seq::<char>::empty() };
    let sep = if before.len() > 0 { "\n\n\n"@ } else { Seq::<char>::empty() };
    assert(r == before + sep + heading + x.text);
    assert(r.subrange(0, before.len() as int) =~= before);
    if before.len() > 0 {
        assert(r.subrange(before.len() as int, before.len() + 3int) =~= "\n\n\n"@);
    }
    assert(r.subrange(r.len() - x.text.len() - heading.len(), r.len() as int) =~= heading + x.text);
}

/// A turn without output blocks renders as its agent text; one with blocks
/// renders its blocks, with `**Output**` headings exactly when some process
/// block has text.
pub proof fn turns_render_their_blocks_or_agent_text(b: BufferModel)
    ensures
        b.items.len() == 0 ==> render_output_model(b) == b.agent_text,
        b.items.len() > 0 ==> render_output_model(b) == render_acc(
            b.items,
            exists|i: int| 0 <= i < b.items.len() && (#[trigger] b.items[i]).process && !blank(b.items[i].text),
        ).0,
{
}

} // verus!
