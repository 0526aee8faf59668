//! Prompts handed to an agent but not yet acknowledged, the follow-up inputs
//! queued behind them, and the progress cards shown for them. The runtime
//! performs the sends, card writes and receipt updates that these decisions
//! ask for; `M` is the channel's reference to a message it sent.
use vstd::prelude::*;
use crate::domain::{OutboundView, TurnStatus, ViewStatus};
use crate::model::{ChannelKind, ConversationRef, SessionId};
use crate::session::AgentError;
use crate::text::{append, markdown_quote, markdown_quote_of, opt_view, owned, str_eq};

verus! {

/// Unacknowledged prompts held at once (and cards for them).
pub const MAX_PENDING: usize = 32;
/// Inputs queued behind one session's pending prompt.
pub const MAX_QUEUED: usize = 16;

/// An input held for delivery, with the context it must still match.
#[derive(Debug)]
pub struct QueuedInput {
    pub session: SessionId,
    pub conversation: ConversationRef,
    pub prompt: String,
    pub event_id: String,
    pub epoch: u64,
    pub generation: u64,
    pub queued: bool,
    pub cancelled: bool,
    pub sequence: u64,
}

pub struct InputModel {
    pub session: Seq<char>,
    pub channel: ChannelKind,
    pub conversation: Seq<char>,
    pub prompt: Seq<char>,
    pub event_id: Seq<char>,
    pub epoch: u64,
    pub generation: u64,
    pub queued: bool,
    pub cancelled: bool,
    pub sequence: u64,
}

impl View for QueuedInput {
    type V = InputModel;

    open spec fn view(&self) -> InputModel {
        InputModel {
            session: self.session@,
            channel: self.conversation.channel,
            conversation: self.conversation.conversation_id@,
            prompt: self.prompt@,
            event_id: self.event_id@,
            epoch: self.epoch,
            generation: self.generation,
            queued: self.queued,
            cancelled: self.cancelled,
            sequence: self.sequence,
        }
    }
}

impl QueuedInput {
    pub fn duplicate(&self) -> (r: Self)
        ensures
            r@ == self@,
    {
        QueuedInput {
            session: self.session.duplicate(),
            conversation: ConversationRef::new(self.conversation.channel, self.conversation.conversation_id.as_str()),
            prompt: owned(self.prompt.as_str()),
            event_id: owned(self.event_id.as_str()),
            epoch: self.epoch,
            generation: self.generation,
            queued: self.queued,
            cancelled: self.cancelled,
            sequence: self.sequence,
        }
    }
}

/// Inputs are owned and notified by their channel event.
pub open spec fn input_key(i: InputModel) -> (ChannelKind, Seq<char>) {
    (i.channel, i.event_id)
}

pub open spec fn inputs_view(inputs: Seq<QueuedInput>) -> Seq<InputModel> {
    inputs.map_values(|i: QueuedInput| i@)
}

/// A prompt awaiting its acknowledgement, with the inputs queued behind it.
#[derive(Debug)]
pub struct PendingPrompt<M> {
    pub id: u64,
    pub input: QueuedInput,
    pub message: Option<M>,
    pub observed_turn: Option<String>,
    pub stop: bool,
    pub stop_applied: bool,
    pub valid: bool,
    pub queued: Vec<QueuedInput>,
}

pub struct PromptModel<M> {
    pub id: u64,
    pub input: InputModel,
    pub message: Option<M>,
    pub observed_turn: Option<Seq<char>>,
    pub stop: bool,
    pub stop_applied: bool,
    pub valid: bool,
    pub queued: Seq<InputModel>,
}

impl<M> View for PendingPrompt<M> {
    type V = PromptModel<M>;

    open spec fn view(&self) -> PromptModel<M> {
        PromptModel {
            id: self.id,
            input: self.input@,
            message: self.message,
            observed_turn: opt_view(self.observed_turn),
            stop: self.stop,
            stop_applied: self.stop_applied,
            valid: self.valid,
            queued: inputs_view(self.queued@),
        }
    }
}

/// The progress card of a prompt whose first delivery was slow.
#[derive(Debug)]
pub struct PendingCard {
    pub id: u64,
    pub input: QueuedInput,
    pub turn: Option<String>,
    pub final_view: Option<OutboundView>,
    pub valid: bool,
}

pub struct CardModel {
    pub id: u64,
    pub input: InputModel,
    pub turn: Option<Seq<char>>,
    pub final_view: Option<OutboundView>,
    pub valid: bool,
}

impl View for PendingCard {
    type V = CardModel;

    open spec fn view(&self) -> CardModel {
        CardModel {
            id: self.id,
            input: self.input@,
            turn: opt_view(self.turn),
            final_view: self.final_view,
            valid: self.valid,
        }
    }
}

/// The agent's answer to a deferred prompt: the turn it started, or why it
/// was not taken.
#[derive(Debug)]
pub struct PromptAcknowledged {
    pub session: SessionId,
    pub conversation: ConversationRef,
    pub id: u64,
    pub result: Result<String, AgentError>,
}

/// The end of a progress card's delivery: the message the channel created,
/// or the failure as displayed.
#[derive(Debug)]
pub struct CardDelivered<M> {
    pub session: SessionId,
    pub conversation: ConversationRef,
    pub id: u64,
    pub result: Result<M, String>,
}

/// A receipt update to show: the receipt of an input's event, and its text.
#[derive(Debug)]
pub struct Notice {
    pub channel: ChannelKind,
    pub event_id: String,
    pub title: String,
    pub body: String,
}

pub open spec fn notice_view(n: Notice) -> ((ChannelKind, Seq<char>), Seq<char>, Seq<char>) {
    ((n.channel, n.event_id@), n.title@, n.body@)
}

pub open spec fn notices_view(ns: Seq<Notice>) -> Seq<((ChannelKind, Seq<char>), Seq<char>, Seq<char>)> {
    ns.map_values(|n: Notice| notice_view(n))
}

pub struct PendingPrompts<M> {
    next_id: u64,
    closed: bool,
    pending: Vec<PendingPrompt<M>>,
    cards: Vec<PendingCard>,
    ready: Vec<QueuedInput>,
    owned: Vec<QueuedInput>,
    receipts: Vec<(ChannelKind, String)>,
}

pub struct PendingModel<M> {
    pub next_id: u64,
    pub closed: bool,
    pub pending: Seq<PromptModel<M>>,
    pub cards: Seq<CardModel>,
    pub ready: Seq<InputModel>,
    pub owned: Seq<InputModel>,
    pub receipts: Seq<(ChannelKind, Seq<char>)>,
}

impl<M> View for PendingPrompts<M> {
    type V = PendingModel<M>;

    closed spec fn view(&self) -> PendingModel<M> {
        PendingModel {
            next_id: self.next_id,
            closed: self.closed,
            pending: self.pending@.map_values(|p: PendingPrompt<M>| p@),
            cards: self.cards@.map_values(|c: PendingCard| c@),
            ready: inputs_view(self.ready@),
            owned: inputs_view(self.owned@),
            receipts: self.receipts@.map_values(|r: (ChannelKind, String)| (r.0, r.1@)),
        }
    }
}

/// Position of the pending prompt of `session`.
pub open spec fn prompt_of<M>(pending: Seq<PromptModel<M>>, session: Seq<char>) -> Option<int> {
    if exists|i: int| 0 <= i < pending.len() && (#[trigger] pending[i]).input.session == session {
        Some(choose|i: int| 0 <= i < pending.len() && (#[trigger] pending[i]).input.session == session)
    } else {
        None
    }
}

/// Position of the owned input of `key`.
pub open spec fn owned_of(owned: Seq<InputModel>, key: (ChannelKind, Seq<char>)) -> Option<int> {
    if exists|i: int| 0 <= i < owned.len() && input_key(#[trigger] owned[i]) == key {
        Some(choose|i: int| 0 <= i < owned.len() && input_key(#[trigger] owned[i]) == key)
    } else {
        None
    }
}

/// Position of the receipt of `key`.
pub open spec fn receipt_of(receipts: Seq<(ChannelKind, Seq<char>)>, key: (ChannelKind, Seq<char>)) -> Option<int> {
    if exists|i: int| 0 <= i < receipts.len() && receipts[i] == key {
        Some(choose|i: int| 0 <= i < receipts.len() && receipts[i] == key)
    } else {
        None
    }
}

/// `receipts` without the receipt of `key`.
pub open spec fn receipts_without(receipts: Seq<(ChannelKind, Seq<char>)>, key: (ChannelKind, Seq<char>)) -> Seq<(ChannelKind, Seq<char>)> {
    match receipt_of(receipts, key) {
        Some(i) => receipts.remove(i),
        None => receipts,
    }
}

/// Position of the card with `id`.
pub open spec fn card_of(cards: Seq<CardModel>, id: u64) -> Option<int> {
    if exists|i: int| 0 <= i < cards.len() && (#[trigger] cards[i]).id == id {
        Some(choose|i: int| 0 <= i < cards.len() && (#[trigger] cards[i]).id == id)
    } else {
        None
    }
}

/// Queued inputs in sequence order.
pub open spec fn in_sequence(q: Seq<InputModel>) -> bool {
    forall|i: int, j: int| 0 <= i <= j < q.len() ==> q[i].sequence <= q[j].sequence
}

/// One prompt per session, distinct card ids, one owned input and one receipt
/// per event, queues in sequence order, ids below the next id.
pub open spec fn pending_inv<M>(m: PendingModel<M>) -> bool {
    &&& m.pending.len() <= MAX_PENDING
    &&& forall|i: int, j: int| 0 <= i < m.pending.len() && 0 <= j < m.pending.len() && i != j
        ==> m.pending[i].input.session != m.pending[j].input.session
    &&& forall|i: int| 0 <= i < m.pending.len() ==> (#[trigger] m.pending[i]).id < m.next_id
    &&& forall|i: int| 0 <= i < m.pending.len() ==> in_sequence((#[trigger] m.pending[i]).queued)
    &&& forall|i: int, j: int| 0 <= i < m.cards.len() && 0 <= j < m.cards.len() && i != j
        ==> m.cards[i].id != m.cards[j].id
    &&& forall|i: int, j: int| 0 <= i < m.owned.len() && 0 <= j < m.owned.len() && i != j
        ==> input_key(m.owned[i]) != input_key(m.owned[j])
    &&& receipts_distinct(m.receipts)
}

pub open spec fn receipts_distinct(rs: Seq<(ChannelKind, Seq<char>)>) -> bool {
    forall|i: int, j: int| 0 <= i < rs.len() && 0 <= j < rs.len() && i != j ==> rs[i] != rs[j]
}

/// Whether a new prompt for `session` is admitted.
pub open spec fn admits<M>(m: PendingModel<M>, session: Seq<char>) -> bool {
    !m.closed && m.pending.len() < MAX_PENDING && m.cards.len() < MAX_PENDING && prompt_of(m.pending, session) is None
}

/// `owned` with `input` stored under its key: replacing the input of that key,
/// or added last.
pub open spec fn owned_insert(owned: Seq<InputModel>, input: InputModel) -> Seq<InputModel> {
    match owned_of(owned, input_key(input)) {
        Some(k) => owned.update(k, input),
        None => owned.push(input),
    }
}


/// Whose queued inputs a cancellation reaches.
pub enum Target<'a> {
    Session(&'a SessionId),
    Conversation(&'a ConversationRef),
}

pub open spec fn targets(t: Target, i: InputModel) -> bool {
    match t {
        Target::Session(s) => i.session == s@,
        Target::Conversation(c) => i.channel == c.channel && i.conversation == c.conversation_id@,
    }
}

/// Queued inputs reached by `t` are marked cancelled.
pub open spec fn cancel_owned(owned: Seq<InputModel>, t: Target) -> Seq<InputModel> {
    owned.map_values(|i: InputModel| if i.queued && targets(t, i) { InputModel { cancelled: true, ..i } } else { i })
}

pub open spec fn not_sent_notice(i: InputModel) -> ((ChannelKind, Seq<char>), Seq<char>, Seq<char>) {
    (input_key(i), "Agentix · Input not sent"@, markdown_quote_of(i.prompt))
}

/// The receipts told that their queued input will not be sent, in order.
pub open spec fn cancel_notices(owned: Seq<InputModel>, receipts: Seq<(ChannelKind, Seq<char>)>, t: Target) -> Seq<((ChannelKind, Seq<char>), Seq<char>, Seq<char>)>
    decreases owned.len(),
{
    if owned.len() == 0 {
        Seq::empty()
    } else {
        let rest = cancel_notices(owned.drop_last(), receipts, t);
        let last = owned.last();
        if last.queued && targets(t, last) && receipts.contains(input_key(last)) {
            rest.push(not_sent_notice(last))
        } else {
            rest
        }
    }
}

/// Whether a stop for `session` is taken now, and the state after.
pub open spec fn take_stop_model<M>(m: PendingModel<M>, session: Seq<char>) -> (PendingModel<M>, bool) {
    match prompt_of(m.pending, session) {
        Some(i) => {
            let p = m.pending[i];
            if !p.valid || !p.stop || p.stop_applied {
                (m, false)
            } else {
                (PendingModel { pending: m.pending.update(i, PromptModel { stop_applied: true, ..p }), ..m }, true)
            }
        },
        None => (m, false),
    }
}

/// Cards of `session` no longer apply.
pub open spec fn invalidate_cards(cards: Seq<CardModel>, session: Seq<char>) -> Seq<CardModel> {
    cards.map_values(|c: CardModel| if c.input.session == session { CardModel { valid: false, ..c } } else { c })
}

proof fn lemma_owned_insert<M>(m: PendingModel<M>, input: InputModel)
    requires
        pending_inv(m),
    ensures
        ({
            let o = owned_insert(m.owned, input);
            &&& forall|i: int, j: int| 0 <= i < o.len() && 0 <= j < o.len() && i != j
                ==> input_key(o[i]) != input_key(o[j])
            &&& owned_of(o, input_key(input)) is Some
        }),
{
    let o = owned_insert(m.owned, input);
    match owned_of(m.owned, input_key(input)) {
        Some(k) => {
            assert(input_key(m.owned[k]) == input_key(input));
            assert(input_key(o[k]) == input_key(input));
            assert forall|i: int, j: int| 0 <= i < o.len() && 0 <= j < o.len() && i != j
                implies input_key(o[i]) != input_key(o[j]) by {
                assert(input_key(o[i]) == input_key(m.owned[i]));
                assert(input_key(o[j]) == input_key(m.owned[j]));
            }
        },
        None => {
            let n = m.owned.len() as int;
            assert(input_key(o[n]) == input_key(input));
            assert forall|i: int, j: int| 0 <= i < o.len() && 0 <= j < o.len() && i != j
                implies input_key(o[i]) != input_key(o[j]) by {
                if i < n && j < n {
                    assert(o[i] == m.owned[i] && o[j] == m.owned[j]);
                } else if i < n {
                    assert(o[i] == m.owned[i]);
                } else {
                    assert(o[j] == m.owned[j]);
                }
            }
        },
    }
}

/// Queued inputs of `session`.
pub open spec fn queued_count(owned: Seq<InputModel>, session: Seq<char>) -> nat
    decreases owned.len(),
{
    if owned.len() == 0 {
        0
    } else {
        queued_count(owned.drop_last(), session) + if owned.last().queued && owned.last().session == session { 1nat } else { 0nat }
    }
}

/// Where an input of sequence `s` goes in a queue in sequence order: after
/// every earlier input.
pub open spec fn insertion_point(q: Seq<InputModel>, s: u64) -> nat
    decreases q.len(),
{
    if q.len() == 0 {
        0
    } else if q[0].sequence < s {
        1 + insertion_point(q.drop_first(), s)
    } else {
        0
    }
}

pub open spec fn queued_receipt(prompt: Seq<char>, key: (ChannelKind, Seq<char>)) -> ((ChannelKind, Seq<char>), Seq<char>, Seq<char>) {
    (key, "Agentix · Queued"@, markdown_quote_of(prompt))
}

pub open spec fn too_many_receipts() -> Seq<char> {
    "Too many input notifications are pending. Try again after channel delivery recovers."@
}

pub open spec fn too_many_queued() -> Seq<char> {
    "Too many inputs are waiting for delivery. Try again after the current input is acknowledged."@
}

/// The state after `input` is queued: owned under its event, behind the
/// session's pending prompt in sequence order, or ready at once.
pub open spec fn queue_model<M>(m: PendingModel<M>, input: InputModel) -> PendingModel<M> {
    let key = input_key(input);
    let fresh = owned_of(m.owned, key) is None;
    let m1 = PendingModel {
        next_id: if fresh { (m.next_id + 1) as u64 } else { m.next_id },
        receipts: if m.receipts.contains(key) { m.receipts } else { m.receipts.push(key) },
        owned: owned_insert(m.owned, input),
        ..m
    };
    match prompt_of(m.pending, input.session) {
        Some(i) => {
            let q = m.pending[i].queued;
            PendingModel {
                pending: m.pending.update(i, PromptModel { queued: q.insert(insertion_point(q, input.sequence) as int, input), ..m.pending[i] }),
                ..m1
            }
        },
        None => PendingModel { ready: m.ready.push(input), ..m1 },
    }
}

/// An input of `key` must not be sent: the state is closed, or the input is
/// no longer owned or was cancelled.
pub open spec fn withdrawn<M>(m: PendingModel<M>, key: (ChannelKind, Seq<char>)) -> bool {
    m.closed || match owned_of(m.owned, key) {
        Some(k) => m.owned[k].cancelled,
        None => true,
    }
}

/// What became of an input offered to the queue.
#[derive(Debug)]
pub enum Queueing {
    /// Nothing is pending ahead of it: it is sent directly.
    NotQueued,
    /// Queued; a new receipt to show, when the event has none yet.
    Queued(Option<Notice>),
}

proof fn lemma_insertion_point(q: Seq<InputModel>, s: u64)
    requires
        in_sequence(q),
    ensures
        insertion_point(q, s) <= q.len(),
        forall|i: int| 0 <= i < insertion_point(q, s) ==> (#[trigger] q[i]).sequence < s,
        forall|i: int| insertion_point(q, s) <= i < q.len() ==> (#[trigger] q[i]).sequence >= s,
    decreases q.len(),
{
    if q.len() > 0 {
        let rest = q.drop_first();
        assert forall|i: int, j: int| 0 <= i <= j < rest.len() implies rest[i].sequence <= rest[j].sequence by {
            assert(rest[i] == q[i + 1] && rest[j] == q[j + 1]);
        }
        lemma_insertion_point(rest, s);
        if q[0].sequence < s {
            assert forall|i: int| 0 <= i < insertion_point(q, s) implies (#[trigger] q[i]).sequence < s by {
                if i > 0 {
                    assert(q[i] == rest[i - 1]);
                }
            }
            assert forall|i: int| insertion_point(q, s) <= i < q.len() implies (#[trigger] q[i]).sequence >= s by {
                assert(q[i] == rest[i - 1]);
            }
        } else {
            assert forall|i: int| 0 <= i < q.len() implies (#[trigger] q[i]).sequence >= s by {
                assert(q[0].sequence <= q[i].sequence);
            }
        }
    }
}

proof fn lemma_insert_in_sequence(q: Seq<InputModel>, input: InputModel)
    requires
        in_sequence(q),
    ensures
        in_sequence(q.insert(insertion_point(q, input.sequence) as int, input)),
{
    lemma_insertion_point(q, input.sequence);
    let p = insertion_point(q, input.sequence) as int;
    let r = q.insert(p, input);
    assert forall|i: int, j: int| 0 <= i <= j < r.len() implies r[i].sequence <= r[j].sequence by {
        if i < p {
            assert(r[i] == q[i]);
            if j < p {
                assert(r[j] == q[j]);
            } else if j > p {
                assert(r[j] == q[j - 1]);
            }
        } else if i == p {
            if j > p {
                assert(r[j] == q[j - 1]);
            }
        } else {
            assert(r[i] == q[i - 1] && r[j] == q[j - 1]);
        }
    }
}

/// `cards` with `card` stored under its id.
pub open spec fn card_insert(cards: Seq<CardModel>, card: CardModel) -> Seq<CardModel> {
    match card_of(cards, card.id) {
        Some(k) => cards.update(k, card),
        None => cards.push(card),
    }
}

/// The state once `session` exited: its queued inputs are withdrawn, its
/// pending prompt and its cards are no longer valid.
pub open spec fn invalidated<M>(m: PendingModel<M>, session: &SessionId) -> PendingModel<M> {
    PendingModel {
        owned: cancel_owned(m.owned, Target::Session(session)),
        pending: match prompt_of(m.pending, session@) {
            Some(i) => m.pending.update(i, PromptModel { valid: false, ..m.pending[i] }),
            None => m.pending,
        },
        cards: invalidate_cards(m.cards, session@),
        ..m
    }
}

/// Cards of `session` whose turn is known: their ids and turns, in order.
pub open spec fn frozen_cards(cards: Seq<CardModel>, session: Seq<char>) -> Seq<(u64, Seq<char>)>
    decreases cards.len(),
{
    if cards.len() == 0 {
        Seq::empty()
    } else {
        let rest = frozen_cards(cards.drop_last(), session);
        let c = cards.last();
        match c.turn {
            Some(t) => if c.input.session == session { rest.push((c.id, t)) } else { rest },
            None => rest,
        }
    }
}

/// A card can show `turn` for this conversation and context: a still valid
/// card of the current epoch, or an invalidated one once the conversation is
/// detached, of the same agent generation, not yet showing another turn.
pub open spec fn holdable(c: CardModel, session: Seq<char>, channel: ChannelKind, conversation: Seq<char>, turn: Seq<char>, detached: bool, epoch: u64, generation: u64) -> bool {
    &&& c.input.session == session
    &&& c.input.channel == channel
    &&& c.input.conversation == conversation
    &&& ((!c.valid && detached) || c.input.epoch == epoch)
    &&& c.input.generation == generation
    &&& (c.turn is None || c.turn == Some(turn))
}

/// The first card that can show `turn`.
pub open spec fn first_holdable(cards: Seq<CardModel>, session: Seq<char>, channel: ChannelKind, conversation: Seq<char>, turn: Seq<char>, detached: bool, epoch: u64, generation: u64) -> Option<int>
    decreases cards.len(),
{
    if cards.len() == 0 {
        None
    } else {
        match first_holdable(cards.drop_last(), session, channel, conversation, turn, detached, epoch, generation) {
            Some(i) => Some(i),
            None => if holdable(cards.last(), session, channel, conversation, turn, detached, epoch, generation) {
                Some(cards.len() - 1)
            } else {
                None
            },
        }
    }
}

proof fn lemma_first_holdable(cards: Seq<CardModel>, session: Seq<char>, channel: ChannelKind, conversation: Seq<char>, turn: Seq<char>, detached: bool, epoch: u64, generation: u64, k: int)
    requires
        0 <= k <= cards.len(),
        forall|j: int| 0 <= j < k ==> !holdable(#[trigger] cards[j], session, channel, conversation, turn, detached, epoch, generation),
    ensures
        k < cards.len() && holdable(cards[k], session, channel, conversation, turn, detached, epoch, generation)
            ==> first_holdable(cards, session, channel, conversation, turn, detached, epoch, generation) == Some(k),
        k == cards.len() ==> first_holdable(cards, session, channel, conversation, turn, detached, epoch, generation) is None,
    decreases cards.len(),
{
    if cards.len() > 0 {
        let d = cards.drop_last();
        if k < cards.len() {
            if k < d.len() {
                assert forall|j: int| 0 <= j < k implies !holdable(#[trigger] d[j], session, channel, conversation, turn, detached, epoch, generation) by {
                    assert(d[j] == cards[j]);
                }
                lemma_first_holdable(d, session, channel, conversation, turn, detached, epoch, generation, k);
                assert(d[k] == cards[k]);
            } else {
                assert forall|j: int| 0 <= j < d.len() implies !holdable(#[trigger] d[j], session, channel, conversation, turn, detached, epoch, generation) by {
                    assert(d[j] == cards[j]);
                }
                lemma_first_holdable(d, session, channel, conversation, turn, detached, epoch, generation, d.len() as int);
            }
        } else {
            assert forall|j: int| 0 <= j < d.len() implies !holdable(#[trigger] d[j], session, channel, conversation, turn, detached, epoch, generation) by {
                assert(d[j] == cards[j]);
            }
            lemma_first_holdable(d, session, channel, conversation, turn, detached, epoch, generation, d.len() as int);
        }
    }
}

/// `after` is `before` once the outcome of prompt `id` was kept on its
/// card, while the card is valid: the turn the prompt started, or (for a
/// failure, uncertain or not, with its text) a final view saying so.
pub open spec fn card_outcome_recorded<M>(
    before: PendingModel<M>,
    after: PendingModel<M>,
    id: u64,
    outcome: Result<Seq<char>, (bool, Seq<char>)>,
) -> bool {
    match card_of(before.cards, id) {
        Some(k) if before.cards[k].valid => {
            let c = before.cards[k];
            match outcome {
                Ok(turn) => after == (PendingModel {
                    cards: before.cards.update(k, CardModel { turn: Some(turn), ..c }),
                    ..before
                }),
                Err((uncertain, message)) => {
                    &&& after == (PendingModel {
                        cards: before.cards.update(k, CardModel { final_view: after.cards[k].final_view, ..c }),
                        ..before
                    })
                    &&& after.cards[k].final_view matches Some(v)
                    &&& failure_view(v, c.input.prompt, uncertain, message)
                },
            }
        },
        _ => after == before,
    }
}

/// Why a prompt was not acknowledged: whether delivery is uncertain, and the
/// error as displayed.
pub struct SendFailure<'a> {
    pub uncertain: bool,
    pub message: &'a str,
}

/// The final view of a card whose prompt failed.
pub open spec fn failure_view(v: OutboundView, prompt: Seq<char>, uncertain: bool, message: Seq<char>) -> bool {
    &&& v.title@ == if uncertain { "Agentix · Delivery unconfirmed"@ } else { "Agentix · Send failed"@ }
    &&& v.body@ == markdown_quote_of(prompt) + "\n\n"@ + message
    &&& v.status == if uncertain { ViewStatus::Warning } else { ViewStatus::Error }
    &&& v.subtitle is None
    &&& v.sections@.len() == 0
    &&& v.actions@.len() == 0
}

/// The view telling that `prompt` failed: delivery unconfirmed when
/// `uncertain`, else not sent, with the error as displayed.
pub fn failure_notice(prompt: &str, uncertain: bool, message: &str) -> (r: OutboundView)
    ensures
        failure_view(r, prompt@, uncertain, message@),
{
    let mut body = markdown_quote(prompt);
    append(&mut body, "\n\n");
    append(&mut body, message);
    OutboundView {
        sections: Vec::new(),
        title: owned(if uncertain { "Agentix · Delivery unconfirmed" } else { "Agentix · Send failed" }),
        subtitle: None,
        body,
        status: if uncertain { ViewStatus::Warning } else { ViewStatus::Error },
        actions: Vec::new(),
    }
}

/// What becomes of the inbound event of an acknowledged prompt.
#[derive(Debug, Clone, Copy, PartialEq, Eq, Structural)]
pub enum EventFate {
    /// The input was delivered: the event is done.
    Complete,
    /// The input may have been delivered: the event is never retried.
    Fence,
    /// The input was not delivered: the event may be received again.
    Release,
}

/// How an acknowledgement settles its input: the event's fate and the
/// receipt's title.
pub fn acknowledgement_fate(result: &Result<String, AgentError>) -> (r: (EventFate, &'static str))
    ensures
        match result {
            Ok(_) => r.0 == EventFate::Complete && r.1@ == "Agentix · Sent"@,
            Err(AgentError::Uncertain(_)) => r.0 == EventFate::Fence && r.1@ == "Agentix · Delivery unconfirmed"@,
            Err(_) => r.0 == EventFate::Release && r.1@ == "Agentix · Send failed"@,
        },
{
    match result {
        Ok(_) => (EventFate::Complete, "Agentix · Sent"),
        Err(AgentError::Uncertain(_)) => (EventFate::Fence, "Agentix · Delivery unconfirmed"),
        Err(_) => (EventFate::Release, "Agentix · Send failed"),
    }
}

/// The view of an input delivered after its conversation moved to another
/// session.
pub fn delivered_elsewhere_notice(prompt: &str) -> (r: (String, String))
    ensures
        r.0@ == "Agentix · Sent"@,
        r.1@ == markdown_quote_of(prompt@) + "\n\nDelivered to the previous session."@,
{
    let mut body = markdown_quote(prompt);
    append(&mut body, "\n\nDelivered to the previous session.");
    (owned("Agentix · Sent"), body)
}

impl<M> PendingPrompt<M> {
    /// Whether the stop asked while this prompt was pending still has to be
    /// applied to the turn it started: asked, not yet applied, the prompt
    /// valid for the agent's current `generation`, and the turn (whose
    /// status is known when it is held) not finished.
    pub fn stop_due(&self, generation: u64, turn_status: Option<TurnStatus>) -> (r: bool)
        ensures
            r == (self.stop && !self.stop_applied && self.valid && self.input.generation == generation
                && !(turn_status matches Some(s) && s != TurnStatus::InProgress && s != TurnStatus::Unknown)),
    {
        let finished = match turn_status {
            Some(TurnStatus::InProgress) | Some(TurnStatus::Unknown) | None => false,
            Some(_) => true,
        };
        self.stop && !self.stop_applied && self.valid && self.input.generation == generation && !finished
    }
}

impl<M> PendingPrompts<M> {
    pub fn new() -> (r: Self)
        ensures
            pending_inv(r@),
            r@ == (PendingModel::<M> {
                next_id: 0,
                closed: false,
                pending: Seq::empty(),
                cards: Seq::empty(),
                ready: Seq::empty(),
                owned: Seq::empty(),
                receipts: Seq::empty(),
            }),
    {
        let r = PendingPrompts {
            next_id: 0,
            closed: false,
            pending: Vec::new(),
            cards: Vec::new(),
            ready: Vec::new(),
            owned: Vec::new(),
            receipts: Vec::new(),
        };
        assert(r@.pending =~= Seq::<PromptModel<M>>::empty());
        assert(r@.cards =~= Seq::<CardModel>::empty());
        assert(r@.ready =~= Seq::<InputModel>::empty());
        assert(r@.owned =~= Seq::<InputModel>::empty());
        assert(r@.receipts =~= Seq::<(ChannelKind, Seq<char>)>::empty());
        r
    }

    fn find(&self, session: &SessionId) -> (r: Option<usize>)
        requires
            pending_inv(self@),
        ensures
            match r {
                Some(i) => prompt_of(self@.pending, session@) == Some(i as int) && i < self@.pending.len(),
                None => prompt_of(self@.pending, session@) is None,
            },
    {
        let ghost v = self@.pending;
        let mut i: usize = 0;
        while i < self.pending.len()
            invariant
                i <= self.pending.len(),
                v == self@.pending,
                pending_inv(self@),
                forall|j: int| 0 <= j < i ==> v[j].input.session != session@,
            decreases self.pending.len() - i,
        {
            assert(v[i as int] == self.pending@[i as int]@);
            if self.pending[i].input.session.same(session) {
                proof {
                    let k = choose|k: int| 0 <= k < v.len() && (#[trigger] v[k]).input.session == session@;
                    if k != i {
                        assert(v[k].input.session != v[i as int].input.session);
                    }
                }
                return Some(i);
            }
            i = i + 1;
        }
        None
    }

    fn find_owned(&self, channel: ChannelKind, event_id: &str) -> (r: Option<usize>)
        requires
            pending_inv(self@),
        ensures
            match r {
                Some(i) => owned_of(self@.owned, (channel, event_id@)) == Some(i as int) && i < self@.owned.len(),
                None => owned_of(self@.owned, (channel, event_id@)) is None,
            },
    {
        let ghost v = self@.owned;
        let mut i: usize = 0;
        while i < self.owned.len()
            invariant
                i <= self.owned.len(),
                v == self@.owned,
                pending_inv(self@),
                forall|j: int| 0 <= j < i ==> input_key(v[j]) != (channel, event_id@),
            decreases self.owned.len() - i,
        {
            assert(v[i as int] == self.owned@[i as int]@);
            if self.owned[i].conversation.channel == channel && str_eq(self.owned[i].event_id.as_str(), event_id) {
                proof {
                    let k = choose|k: int| 0 <= k < v.len() && input_key(#[trigger] v[k]) == (channel, event_id@);
                    if k != i {
                        assert(input_key(v[k]) != input_key(v[i as int]));
                    }
                }
                return Some(i);
            }
            i = i + 1;
        }
        None
    }

    fn has_receipt(&self, channel: ChannelKind, event_id: &str) -> (r: Option<usize>)
        requires
            receipts_distinct(self@.receipts),
        ensures
            match r {
                Some(i) => i < self@.receipts.len() && self@.receipts[i as int] == (channel, event_id@)
                    && receipt_of(self@.receipts, (channel, event_id@)) == Some(i as int),
                None => !self@.receipts.contains((channel, event_id@))
                    && receipt_of(self@.receipts, (channel, event_id@)) is None,
            },
    {
        let ghost rs = self@.receipts;
        let mut i: usize = 0;
        while i < self.receipts.len()
            invariant
                i <= self.receipts.len(),
                rs == self@.receipts,
                receipts_distinct(rs),
                forall|j: int| 0 <= j < i ==> rs[j] != (channel, event_id@),
            decreases self.receipts.len() - i,
        {
            assert(rs[i as int] == (self.receipts@[i as int].0, self.receipts@[i as int].1@));
            if self.receipts[i].0 == channel && str_eq(self.receipts[i].1.as_str(), event_id) {
                proof {
                    let k = choose|k: int| 0 <= k < rs.len() && rs[k] == (channel, event_id@);
                    if k != i {
                        assert(rs[k] != rs[i as int]);
                    }
                }
                return Some(i);
            }
            i = i + 1;
        }
        None
    }

    fn find_card(&self, id: u64) -> (r: Option<usize>)
        requires
            pending_inv(self@),
        ensures
            match r {
                Some(i) => card_of(self@.cards, id) == Some(i as int) && i < self@.cards.len(),
                None => card_of(self@.cards, id) is None,
            },
    {
        let ghost v = self@.cards;
        let mut i: usize = 0;
        while i < self.cards.len()
            invariant
                i <= self.cards.len(),
                v == self@.cards,
                pending_inv(self@),
                forall|j: int| 0 <= j < i ==> v[j].id != id,
            decreases self.cards.len() - i,
        {
            assert(v[i as int] == self.cards@[i as int]@);
            if self.cards[i].id == id {
                proof {
                    let k = choose|k: int| 0 <= k < v.len() && (#[trigger] v[k]).id == id;
                    if k != i {
                        assert(v[k].id != v[i as int].id);
                    }
                }
                return Some(i);
            }
            i = i + 1;
        }
        None
    }

    /// Admit a prompt: refused (the input handed back) when closed, full, or
    /// its session already has one; its id otherwise. The input is owned from
    /// now on.
    pub fn start(&mut self, input: QueuedInput) -> (r: Result<u64, QueuedInput>)
        requires
            pending_inv(old(self)@),
            old(self)@.next_id < u64::MAX,
        ensures
            pending_inv(final(self)@),
            admits(old(self)@, input@.session) == (r is Ok),
            r matches Err(i) ==> i@ == input@ && final(self)@ == old(self)@,
            r matches Ok(id) ==> id == old(self)@.next_id && final(self)@ == (PendingModel {
                next_id: (old(self)@.next_id + 1) as u64,
                owned: owned_insert(old(self)@.owned, input@),
                pending: old(self)@.pending.push(PromptModel {
                    id,
                    input: input@,
                    message: None,
                    observed_turn: None,
                    stop: false,
                    stop_applied: false,
                    valid: true,
                    queued: Seq::empty(),
                }),
                ..old(self)@
            }),
    {
        if self.closed || self.pending.len() >= MAX_PENDING || self.cards.len() >= MAX_PENDING || self.find(&input.session).is_some() {
            return Err(input);
        }
        let ghost m = self@;
        let id = self.next_id;
        self.next_id = self.next_id + 1;
        let copy = input.duplicate();
        match self.find_owned(input.conversation.channel, input.event_id.as_str()) {
            Some(k) => {
                self.owned.set(k, copy);
            },
            None => {
                self.owned.push(copy);
            },
        }
        assert(self@.owned =~= owned_insert(m.owned, input@));
        proof { lemma_owned_insert(m, input@); }
        let ghost session = input@.session;
        self.pending.push(PendingPrompt {
            id,
            input,
            message: None,
            observed_turn: None,
            stop: false,
            stop_applied: false,
            valid: true,
            queued: Vec::new(),
        });
        proof {
            let p = PromptModel::<M> {
                id,
                input: input@,
                message: None,
                observed_turn: None,
                stop: false,
                stop_applied: false,
                valid: true,
                queued: Seq::empty(),
            };
            assert(self@.pending[m.pending.len() as int].queued =~= Seq::<InputModel>::empty());
            assert(self@.pending =~= m.pending.push(p));
            assert forall|j: int| 0 <= j < m.pending.len() implies m.pending[j].input.session != session by {
                if m.pending[j].input.session == session {
                    assert(prompt_of(m.pending, session) is Some);
                }
            }
            assert(in_sequence(p.queued));
        }
        Ok(id)
    }

    /// The turn the pending prompt of `session` started, while it is valid.
    pub fn observed_turn(&self, session: &SessionId) -> (r: Option<String>)
        requires
            pending_inv(self@),
        ensures
            opt_view(r) == match prompt_of(self@.pending, session@) {
                Some(i) => if self@.pending[i].valid { self@.pending[i].observed_turn } else { None },
                None => None,
            },
    {
        match self.find(session) {
            Some(i) => {
                if self.pending[i].valid {
                    match &self.pending[i].observed_turn {
                        Some(t) => Some(owned(t.as_str())),
                        None => None,
                    }
                } else {
                    None
                }
            },
            None => None,
        }
    }

    fn cancel_queued(&mut self, target: Target) -> (notices: Vec<Notice>)
        requires
            pending_inv(old(self)@),
        ensures
            pending_inv(final(self)@),
            final(self)@ == (PendingModel { owned: cancel_owned(old(self)@.owned, target), ..old(self)@ }),
            notices_view(notices@) == cancel_notices(old(self)@.owned, old(self)@.receipts, target),
    {
        let ghost m = self@;
        let mut notices: Vec<Notice> = Vec::new();
        let mut i: usize = 0;
        while i < self.owned.len()
            invariant
                i <= self.owned.len(),
                self.owned.len() == m.owned.len(),
                pending_inv(m),
                self@ == (PendingModel { owned: self@.owned, ..m }),
                forall|j: int| 0 <= j < i ==> self@.owned[j] == cancel_owned(m.owned, target)[j],
                forall|j: int| i <= j < m.owned.len() ==> self@.owned[j] == m.owned[j],
                notices_view(notices@) == cancel_notices(m.owned.take(i as int), m.receipts, target),
            decreases self.owned.len() - i,
        {
            let ghost before = self@.owned;
            let ghost nb = notices_view(notices@);
            proof {
                assert(m.owned.take(i + 1).drop_last() =~= m.owned.take(i as int));
                assert(m.owned.take(i + 1).last() == m.owned[i as int]);
            }
            let reached = match target {
                Target::Session(s) => self.owned[i].session.same(s),
                Target::Conversation(c) => self.owned[i].conversation.same(c),
            };
            assert(self@.owned[i as int] == self.owned@[i as int]@);
            if self.owned[i].queued && reached {
                if self.has_receipt(self.owned[i].conversation.channel, self.owned[i].event_id.as_str()).is_some() {
                    let notice = Notice {
                        channel: self.owned[i].conversation.channel,
                        event_id: owned(self.owned[i].event_id.as_str()),
                        title: owned("Agentix · Input not sent"),
                        body: markdown_quote(self.owned[i].prompt.as_str()),
                    };
                    notices.push(notice);
                    assert(notices_view(notices@) =~= nb.push(not_sent_notice(m.owned[i as int])));
                }
                let entry = &mut self.owned[i];
                entry.cancelled = true;
                proof {
                    assert(self@.owned =~= before.update(i as int, InputModel { cancelled: true, ..before[i as int] }));
                }
            } else {
                assert(notices_view(notices@) =~= cancel_notices(m.owned.take(i + 1), m.receipts, target));
            }
            i = i + 1;
        }
        proof {
            assert(m.owned.take(m.owned.len() as int) =~= m.owned);
            assert(self@.owned =~= cancel_owned(m.owned, target));
            let o = self@.owned;
            assert forall|a: int, b: int| 0 <= a < o.len() && 0 <= b < o.len() && a != b
                implies input_key(o[a]) != input_key(o[b]) by {
                assert(input_key(o[a]) == input_key(m.owned[a]));
                assert(input_key(o[b]) == input_key(m.owned[b]));
            }
        }
        notices
    }

    /// Mark the queued inputs of a conversation as not to be sent; the
    /// receipts to update.
    pub fn cancel_queued_conversation(&mut self, conversation: &ConversationRef) -> (notices: Vec<Notice>)
        requires
            pending_inv(old(self)@),
        ensures
            pending_inv(final(self)@),
            final(self)@ == (PendingModel {
                owned: cancel_owned(old(self)@.owned, Target::Conversation(conversation)),
                ..old(self)@
            }),
            notices_view(notices@) == cancel_notices(old(self)@.owned, old(self)@.receipts, Target::Conversation(conversation)),
    {
        self.cancel_queued(Target::Conversation(conversation))
    }

    /// Results for `session` no longer apply (its binding changed): its queued
    /// inputs are cancelled, its prompt and cards invalidated.
    pub fn invalidate(&mut self, session: &SessionId) -> (notices: Vec<Notice>)
        requires
            pending_inv(old(self)@),
        ensures
            pending_inv(final(self)@),
            notices_view(notices@) == cancel_notices(old(self)@.owned, old(self)@.receipts, Target::Session(session)),
            final(self)@ == invalidated(old(self)@, session),
    {
        let notices = self.cancel_queued(Target::Session(session));
        let ghost m = self@;
        match self.find(session) {
            Some(i) => {
                let entry = &mut self.pending[i];
                entry.valid = false;
                proof {
                    assert(self@.pending =~= m.pending.update(i as int, PromptModel { valid: false, ..m.pending[i as int] }));
                }
            },
            None => {},
        }
        let ghost m1 = self@;
        let mut k: usize = 0;
        while k < self.cards.len()
            invariant
                k <= self.cards.len(),
                self.cards.len() == m1.cards.len(),
                self@ == (PendingModel { cards: self@.cards, ..m1 }),
                forall|j: int| 0 <= j < k ==> self@.cards[j] == invalidate_cards(m1.cards, session@)[j],
                forall|j: int| k <= j < m1.cards.len() ==> self@.cards[j] == m1.cards[j],
            decreases self.cards.len() - k,
        {
            let ghost before = self@.cards;
            assert(self@.cards[k as int] == self.cards@[k as int]@);
            if self.cards[k].input.session.same(session) {
                let card = &mut self.cards[k];
                card.valid = false;
                assert(self@.cards =~= before.update(k as int, CardModel { valid: false, ..before[k as int] }));
            }
            k = k + 1;
        }
        proof {
            assert(self@.cards =~= invalidate_cards(m1.cards, session@));
            let c = self@.cards;
            assert forall|a: int, b: int| 0 <= a < c.len() && 0 <= b < c.len() && a != b implies c[a].id != c[b].id by {
                assert(c[a].id == m1.cards[a].id && c[b].id == m1.cards[b].id);
            }
        }
        notices
    }

    /// Ask to stop the turn that the pending prompt of `session` starts; its
    /// queued inputs are cancelled. Whether a prompt was pending.
    pub fn request_stop(&mut self, session: &SessionId) -> (r: (bool, Vec<Notice>))
        requires
            pending_inv(old(self)@),
        ensures
            pending_inv(final(self)@),
            notices_view(r.1@) == cancel_notices(old(self)@.owned, old(self)@.receipts, Target::Session(session)),
            r.0 == (prompt_of(old(self)@.pending, session@) is Some),
            final(self)@ == (PendingModel {
                owned: cancel_owned(old(self)@.owned, Target::Session(session)),
                pending: match prompt_of(old(self)@.pending, session@) {
                    Some(i) => old(self)@.pending.update(i, PromptModel { stop: true, ..old(self)@.pending[i] }),
                    None => old(self)@.pending,
                },
                ..old(self)@
            }),
    {
        let notices = self.cancel_queued(Target::Session(session));
        let ghost m = self@;
        match self.find(session) {
            Some(i) => {
                let entry = &mut self.pending[i];
                entry.stop = true;
                proof {
                    assert(self@.pending =~= m.pending.update(i as int, PromptModel { stop: true, ..m.pending[i as int] }));
                }
                (true, notices)
            },
            None => (false, notices),
        }
    }

    /// Take a requested stop once: true at most once per prompt.
    pub fn take_stop(&mut self, session: &SessionId) -> (r: bool)
        requires
            pending_inv(old(self)@),
        ensures
            pending_inv(final(self)@),
            (final(self)@, r) == take_stop_model(old(self)@, session@),
    {
        match self.find(session) {
            Some(i) => {
                if !self.pending[i].valid || !self.pending[i].stop || self.pending[i].stop_applied {
                    return false;
                }
                let ghost before = self@.pending;
                let entry = &mut self.pending[i];
                entry.stop_applied = true;
                proof {
                    assert(self@.pending =~= before.update(i as int, PromptModel { stop_applied: true, ..before[i as int] }));
                }
                true
            },
            None => false,
        }
    }

    /// Stop admitting prompts and drop the receipts (the runtime aborts the
    /// tasks that send them).
    pub fn abort(&mut self)
        requires
            pending_inv(old(self)@),
        ensures
            pending_inv(final(self)@),
            final(self)@ == (PendingModel { closed: true, receipts: Seq::empty(), ..old(self)@ }),
    {
        self.closed = true;
        self.receipts = Vec::new();
        assert(self@.receipts =~= Seq::<(ChannelKind, Seq<char>)>::empty());
    }

    fn add_receipt(&mut self, channel: ChannelKind, event_id: &str)
        requires
            pending_inv(old(self)@),
            !old(self)@.receipts.contains((channel, event_id@)),
        ensures
            pending_inv(final(self)@),
            final(self)@ == (PendingModel { receipts: old(self)@.receipts.push((channel, event_id@)), ..old(self)@ }),
    {
        let ghost rb = self@.receipts;
        self.receipts.push((channel, owned(event_id)));
        proof {
            assert(self@.receipts =~= rb.push((channel, event_id@)));
            let rs = self@.receipts;
            assert forall|a: int, b: int| 0 <= a < rs.len() && 0 <= b < rs.len() && a != b implies rs[a] != rs[b] by {
                if a < rb.len() && b < rb.len() {
                    assert(rs[a] == rb[a] && rs[b] == rb[b]);
                } else if a < rb.len() {
                    assert(rs[a] == rb[a]);
                } else {
                    assert(rs[b] == rb[b]);
                }
            }
        }
    }

    fn store_owned(&mut self, input: &QueuedInput, existing: Option<usize>)
        requires
            pending_inv(old(self)@),
            match existing {
                Some(k) => owned_of(old(self)@.owned, input_key(input@)) == Some(k as int) && k < old(self)@.owned.len(),
                None => owned_of(old(self)@.owned, input_key(input@)) is None,
            },
        ensures
            pending_inv(final(self)@),
            final(self)@ == (PendingModel { owned: owned_insert(old(self)@.owned, input@), ..old(self)@ }),
    {
        let ghost m = self@;
        let copy = input.duplicate();
        match existing {
            Some(k) => {
                self.owned.set(k, copy);
            },
            None => {
                self.owned.push(copy);
            },
        }
        proof {
            assert(self@.owned =~= owned_insert(m.owned, input@));
            lemma_owned_insert(m, input@);
        }
    }

    /// Put a queued input behind its session's pending prompt, in sequence
    /// order, or make it ready when nothing is pending.
    fn place(&mut self, input: QueuedInput)
        requires
            pending_inv(old(self)@),
        ensures
            pending_inv(final(self)@),
            final(self)@ == match prompt_of(old(self)@.pending, input@.session) {
                Some(i) => {
                    let q = old(self)@.pending[i].queued;
                    PendingModel {
                        pending: old(self)@.pending.update(i, PromptModel {
                            queued: q.insert(insertion_point(q, input@.sequence) as int, input@),
                            ..old(self)@.pending[i]
                        }),
                        ..old(self)@
                    }
                },
                None => PendingModel { ready: old(self)@.ready.push(input@), ..old(self)@ },
            },
    {
        let ghost m = self@;
        let sequence = input.sequence;
        match self.find(&input.session) {
            Some(i) => {
                let ghost q = m.pending[i as int].queued;
                assert(q == inputs_view(self.pending@[i as int].queued@));
                proof {
                    lemma_insertion_point(q, sequence);
                }
                let mut position: usize = 0;
                while position < self.pending[i].queued.len() && self.pending[i].queued[position].sequence < sequence
                    invariant
                        i < self.pending.len(),
                        self@ == m,
                        q == inputs_view(self.pending@[i as int].queued@),
                        position <= q.len(),
                        insertion_point(q, sequence) <= q.len(),
                        position <= insertion_point(q, sequence),
                        forall|j: int| insertion_point(q, sequence) <= j < q.len() ==> (#[trigger] q[j]).sequence >= sequence,
                    decreases q.len() - position,
                {
                    assert(q[position as int] == self.pending@[i as int].queued@[position as int]@);
                    position = position + 1;
                }
                proof {
                    lemma_insertion_point(q, sequence);
                    if position < q.len() {
                        assert(q[position as int] == self.pending@[i as int].queued@[position as int]@);
                    }
                    assert(position == insertion_point(q, sequence));
                    lemma_insert_in_sequence(q, input@);
                }
                let ghost pv = input@;
                let entry = &mut self.pending[i];
                entry.queued.insert(position, input);
                proof {
                    assert(inputs_view(self.pending@[i as int].queued@) =~= q.insert(position as int, pv));
                    assert(self@.pending =~= m.pending.update(i as int, PromptModel { queued: q.insert(position as int, pv), ..m.pending[i as int] }));
                }
            },
            None => {
                let ghost rb = self@.ready;
                let ghost pv = input@;
                self.ready.push(input);
                assert(self@.ready =~= rb.push(pv));
            },
        }
    }

    fn count_queued(&self, session: &SessionId) -> (r: usize)
        ensures
            r == queued_count(self@.owned, session@),
    {
        let mut n: usize = 0;
        let mut i: usize = 0;
        while i < self.owned.len()
            invariant
                i <= self.owned.len(),
                n == queued_count(self@.owned.take(i as int), session@),
                n <= i,
            decreases self.owned.len() - i,
        {
            proof {
                assert(self@.owned.take(i + 1).drop_last() =~= self@.owned.take(i as int));
                assert(self@.owned.take(i + 1).last() == self.owned@[i as int]@);
            }
            if self.owned[i].queued && self.owned[i].session.same(session) {
                n = n + 1;
            }
            i = i + 1;
        }
        assert(self@.owned.take(i as int) =~= self@.owned);
        n
    }

    /// Offer an input that arrives while earlier input of its session is in
    /// flight. It is not queued when nothing is pending for the session and
    /// it is a re-delivery from the queue or nothing is queued yet. Refused
    /// when too many receipts are live (`live_receipts`, counted by the
    /// runtime) or too many inputs wait; a re-delivered event keeps its place.
    pub fn queue(
        &mut self,
        session: &SessionId,
        conversation: &ConversationRef,
        prompt: &str,
        event_id: &str,
        epoch: u64,
        generation: u64,
        from_queue: bool,
        live_receipts: usize,
    ) -> (r: Result<Queueing, String>)
        requires
            pending_inv(old(self)@),
            old(self)@.next_id < u64::MAX,
        ensures
            pending_inv(final(self)@),
            ({
                let m = old(self)@;
                let key = (conversation.channel, event_id@);
                let count = queued_count(m.owned, session@);
                let has_pending = prompt_of(m.pending, session@) is Some;
                let input = InputModel {
                    session: session@,
                    channel: conversation.channel,
                    conversation: conversation.conversation_id@,
                    prompt: prompt@,
                    event_id: event_id@,
                    epoch,
                    generation,
                    queued: true,
                    cancelled: false,
                    sequence: match owned_of(m.owned, key) {
                        Some(k) => m.owned[k].sequence,
                        None => m.next_id,
                    },
                };
                if !has_pending && (from_queue || count == 0) {
                    r matches Ok(Queueing::NotQueued) && final(self)@ == m
                } else if !m.receipts.contains(key) && live_receipts >= MAX_PENDING * MAX_QUEUED {
                    r matches Err(e) && e@ == too_many_receipts() && final(self)@ == m
                } else if count >= MAX_QUEUED && owned_of(m.owned, key) is None {
                    r matches Err(e) && e@ == too_many_queued() && final(self)@ == m
                } else {
                    &&& final(self)@ == queue_model(m, input)
                    &&& r matches Ok(Queueing::Queued(receipt))
                    &&& match receipt {
                        Some(n) => !m.receipts.contains(key) && notice_view(n) == queued_receipt(prompt@, key),
                        None => m.receipts.contains(key),
                    }
                }
            }),
    {
        let ghost m = self@;
        let count = self.count_queued(session);
        let has_pending = self.find(session).is_some();
        if !has_pending && (from_queue || count == 0) {
            return Ok(Queueing::NotQueued);
        }
        let receipt = self.has_receipt(conversation.channel, event_id);
        if receipt.is_none() && live_receipts >= MAX_PENDING * MAX_QUEUED {
            return Err(owned("Too many input notifications are pending. Try again after channel delivery recovers."));
        }
        let existing = self.find_owned(conversation.channel, event_id);
        if count >= MAX_QUEUED && existing.is_none() {
            return Err(owned("Too many inputs are waiting for delivery. Try again after the current input is acknowledged."));
        }
        let sequence = match existing {
            Some(k) => self.owned[k].sequence,
            None => {
                let sequence = self.next_id;
                self.next_id = self.next_id + 1;
                sequence
            },
        };
        assert(existing matches Some(k) ==> self@.owned[k as int] == self.owned@[k as int]@);
        let input = QueuedInput {
            session: session.duplicate(),
            conversation: ConversationRef::new(conversation.channel, conversation.conversation_id.as_str()),
            prompt: owned(prompt),
            event_id: owned(event_id),
            epoch,
            generation,
            queued: true,
            cancelled: false,
            sequence,
        };
        let notice = if receipt.is_none() {
            self.add_receipt(conversation.channel, event_id);
            Some(Notice {
                channel: conversation.channel,
                event_id: owned(event_id),
                title: owned("Agentix · Queued"),
                body: markdown_quote(prompt),
            })
        } else {
            None
        };
        self.store_owned(&input, existing);
        self.place(input);
        Ok(Queueing::Queued(notice))
    }

    /// The receipt update for an input, when its event has a receipt.
    pub fn feedback(&self, input: &QueuedInput, title: &str) -> (r: Option<Notice>)
        requires
            pending_inv(self@),
        ensures
            match r {
                Some(n) => self@.receipts.contains(input_key(input@))
                    && notice_view(n) == (input_key(input@), title@, markdown_quote_of(input@.prompt)),
                None => !self@.receipts.contains(input_key(input@)),
            },
    {
        match self.has_receipt(input.conversation.channel, input.event_id.as_str()) {
            Some(_) => Some(Notice {
                channel: input.conversation.channel,
                event_id: owned(input.event_id.as_str()),
                title: owned(title),
                body: markdown_quote(input.prompt.as_str()),
            }),
            None => None,
        }
    }

    /// An input is done: it is no longer owned and its receipt shows a last
    /// update (when it had one).
    pub fn forget(&mut self, input: &QueuedInput, title: &str) -> (r: Option<Notice>)
        requires
            pending_inv(old(self)@),
        ensures
            pending_inv(final(self)@),
            final(self)@ == (PendingModel {
                owned: match owned_of(old(self)@.owned, input_key(input@)) {
                    Some(k) => old(self)@.owned.remove(k),
                    None => old(self)@.owned,
                },
                receipts: receipts_without(old(self)@.receipts, input_key(input@)),
                ..old(self)@
            }),
            match r {
                Some(n) => old(self)@.receipts.contains(input_key(input@))
                    && notice_view(n) == (input_key(input@), title@, markdown_quote_of(input@.prompt)),
                None => !old(self)@.receipts.contains(input_key(input@)),
            },
    {
        let ghost m = self@;
        let ghost key = input_key(input@);
        match self.find_owned(input.conversation.channel, input.event_id.as_str()) {
            Some(k) => {
                self.owned.remove(k);
                proof {
                    assert(self@.owned =~= m.owned.remove(k as int));
                    let o = self@.owned;
                    assert forall|a: int, b: int| 0 <= a < o.len() && 0 <= b < o.len() && a != b
                        implies input_key(o[a]) != input_key(o[b]) by {
                        let a0 = if a < k { a } else { a + 1 };
                        let b0 = if b < k { b } else { b + 1 };
                        assert(o[a] == m.owned[a0] && o[b] == m.owned[b0]);
                    }
                }
            },
            None => {},
        }
        let ghost m1 = self@;
        assert(m1.receipts == m.receipts);
        match self.has_receipt(input.conversation.channel, input.event_id.as_str()) {
            Some(i) => {
                let ghost rb = self@.receipts;
                self.receipts.remove(i);
                proof {
                    assert(self@.receipts =~= rb.remove(i as int));
                    let rs = self@.receipts;
                    assert forall|a: int, b: int| 0 <= a < rs.len() && 0 <= b < rs.len() && a != b implies rs[a] != rs[b] by {
                        let a0 = if a < i { a } else { a + 1 };
                        let b0 = if b < i { b } else { b + 1 };
                        assert(rs[a] == rb[a0] && rs[b] == rb[b0]);
                    }
                }
                Some(Notice {
                    channel: input.conversation.channel,
                    event_id: owned(input.event_id.as_str()),
                    title: owned(title),
                    body: markdown_quote(input.prompt.as_str()),
                })
            },
            None => None,
        }
    }

    /// The next queued input ready to be sent, in order.
    pub fn next_ready(&mut self) -> (r: Option<QueuedInput>)
        requires
            pending_inv(old(self)@),
        ensures
            pending_inv(final(self)@),
            old(self)@.ready.len() == 0 ==> r is None && final(self)@ == old(self)@,
            old(self)@.ready.len() > 0 ==> (r matches Some(i) && i@ == old(self)@.ready[0]
                && final(self)@ == (PendingModel { ready: old(self)@.ready.drop_first(), ..old(self)@ })),
    {
        if self.ready.len() == 0 {
            return None;
        }
        let ghost rb = self@.ready;
        let input = self.ready.remove(0);
        assert(self@.ready =~= rb.drop_first());
        Some(input)
    }

    /// Whether a queued input must not be sent: the state is closed, or its
    /// event is no longer owned or was cancelled.
    pub fn is_cancelled(&self, input: &QueuedInput) -> (r: bool)
        requires
            pending_inv(self@),
        ensures
            r == withdrawn(self@, input_key(input@)),
    {
        if self.closed {
            return true;
        }
        match self.find_owned(input.conversation.channel, input.event_id.as_str()) {
            Some(k) => {
                assert(self@.owned[k as int] == self.owned@[k as int]@);
                self.owned[k].cancelled
            },
            None => true,
        }
    }

    /// Copies of every owned input (their events are fenced on shutdown).
    pub fn owned_inputs(&self) -> (r: Vec<QueuedInput>)
        ensures
            inputs_view(r@) == self@.owned,
    {
        let mut r: Vec<QueuedInput> = Vec::new();
        let mut i: usize = 0;
        while i < self.owned.len()
            invariant
                i <= self.owned.len(),
                inputs_view(r@) == self@.owned.take(i as int),
            decreases self.owned.len() - i,
        {
            assert(self@.owned[i as int] == self.owned@[i as int]@);
            let ghost before = r@;
            let d = self.owned[i].duplicate();
            r.push(d);
            assert(r@ =~= before.push(d));
            assert(inputs_view(r@) =~= inputs_view(before).push(d@));
            assert(inputs_view(r@) =~= self@.owned.take(i + 1));
            i = i + 1;
        }
        assert(self@.owned.take(i as int) =~= self@.owned);
        r
    }

    /// The input of `session`'s pending prompt, while it may still adopt a
    /// turn: none observed yet, or its message not yet shown.
    pub fn adoptable(&self, session: &SessionId) -> (r: Option<QueuedInput>)
        requires
            pending_inv(self@),
        ensures
            match prompt_of(self@.pending, session@) {
                Some(i) => if self@.pending[i].observed_turn is None || self@.pending[i].message is Some {
                    r matches Some(x) && x@ == self@.pending[i].input
                } else {
                    r is None
                },
                None => r is None,
            },
    {
        match self.find(session) {
            Some(i) => {
                assert(self@.pending[i as int] == self.pending@[i as int]@);
                if self.pending[i].observed_turn.is_none() || self.pending[i].message.is_some() {
                    Some(self.pending[i].input.duplicate())
                } else {
                    None
                }
            },
            None => None,
        }
    }

    /// `session`'s valid pending prompt adopts `turn` (unless it already
    /// observed another): its prompt, and its message handed over.
    pub fn adopt(&mut self, session: &SessionId, turn: &str) -> (r: Option<(String, Option<M>)>)
        requires
            pending_inv(old(self)@),
        ensures
            pending_inv(final(self)@),
            match prompt_of(old(self)@.pending, session@) {
                Some(i) => {
                    let p = old(self)@.pending[i];
                    if p.valid && (p.observed_turn is None || p.observed_turn == Some(turn@)) {
                        &&& r matches Some(x) && x.0@ == p.input.prompt && x.1 == p.message
                        &&& final(self)@ == (PendingModel {
                            pending: old(self)@.pending.update(i, PromptModel { observed_turn: Some(turn@), message: None, ..p }),
                            ..old(self)@
                        })
                    } else {
                        r is None && final(self)@ == old(self)@
                    }
                },
                None => r is None && final(self)@ == old(self)@,
            },
    {
        match self.find(session) {
            Some(i) => {
                let ghost m = self@;
                assert(m.pending[i as int] == self.pending@[i as int]@);
                let matches_turn = match &self.pending[i].observed_turn {
                    Some(t) => str_eq(t.as_str(), turn),
                    None => true,
                };
                if !self.pending[i].valid || !matches_turn {
                    return None;
                }
                let prompt = owned(self.pending[i].input.prompt.as_str());
                let entry = &mut self.pending[i];
                entry.observed_turn = Some(owned(turn));
                let message = entry.message.take();
                proof {
                    assert(self@.pending =~= m.pending.update(i as int, PromptModel {
                        observed_turn: Some(turn@),
                        message: None,
                        ..m.pending[i as int]
                    }));
                }
                Some((prompt, message))
            },
            None => None,
        }
    }

    /// The message showing `session`'s pending prompt was sent.
    pub fn set_message(&mut self, session: &SessionId, message: M)
        requires
            pending_inv(old(self)@),
        ensures
            pending_inv(final(self)@),
            final(self)@ == match prompt_of(old(self)@.pending, session@) {
                Some(i) => PendingModel {
                    pending: old(self)@.pending.update(i, PromptModel { message: Some(message), ..old(self)@.pending[i] }),
                    ..old(self)@
                },
                None => old(self)@,
            },
    {
        match self.find(session) {
            Some(i) => {
                let ghost m = self@;
                let entry = &mut self.pending[i];
                entry.message = Some(message);
                assert(self@.pending =~= m.pending.update(i as int, PromptModel { message: Some(message), ..m.pending[i as int] }));
            },
            None => {},
        }
    }

    /// The acknowledgement of a prompt arrived: the session's pending prompt is
    /// released and returned, unless another prompt is pending now.
    pub fn acknowledge(&mut self, acknowledged: &PromptAcknowledged) -> (r: Option<PendingPrompt<M>>)
        requires
            pending_inv(old(self)@),
        ensures
            pending_inv(final(self)@),
            match prompt_of(old(self)@.pending, acknowledged.session@) {
                Some(i) if old(self)@.pending[i].id == acknowledged.id => {
                    &&& r matches Some(x) && x@ == old(self)@.pending[i]
                    &&& final(self)@ == (PendingModel { pending: old(self)@.pending.remove(i), ..old(self)@ })
                },
                _ => r is None && final(self)@ == old(self)@,
            },
    {
        match self.find(&acknowledged.session) {
            Some(i) => {
                if self.pending[i].id != acknowledged.id {
                    return None;
                }
                let ghost m = self@;
                let pending = self.pending.remove(i);
                proof {
                    assert(m.pending[i as int] == pending@);
                    assert(self@.pending =~= m.pending.remove(i as int));
                    let ps = self@.pending;
                    assert forall|a: int, b: int| 0 <= a < ps.len() && 0 <= b < ps.len() && a != b
                        implies ps[a].input.session != ps[b].input.session by {
                        let a0 = if a < i { a } else { a + 1 };
                        let b0 = if b < i { b } else { b + 1 };
                        assert(ps[a] == m.pending[a0] && ps[b] == m.pending[b0]);
                    }
                    assert forall|a: int| 0 <= a < ps.len() implies (#[trigger] ps[a]).id < m.next_id && in_sequence(ps[a].queued) by {
                        let a0 = if a < i { a } else { a + 1 };
                        assert(ps[a] == m.pending[a0]);
                    }
                }
                Some(pending)
            },
            None => None,
        }
    }

    /// The inputs queued behind an acknowledged prompt become ready, in order,
    /// when the prompt was accepted, is still valid in the current context
    /// (`context_current`) and no stop was asked; otherwise they stay with
    /// the prompt, to be cancelled.
    pub fn release_follow_ups(&mut self, pending: &mut PendingPrompt<M>, accepted: bool, context_current: bool)
        requires
            pending_inv(old(self)@),
        ensures
            pending_inv(final(self)@),
            ({
                let p = old(pending)@;
                if accepted && p.valid && context_current && !p.stop {
                    &&& final(pending)@ == PromptModel { queued: Seq::empty(), ..p }
                    &&& final(self)@ == (PendingModel { ready: old(self)@.ready + p.queued, ..old(self)@ })
                } else {
                    final(pending)@ == p && final(self)@ == old(self)@
                }
            }),
    {
        if accepted && pending.valid && context_current && !pending.stop {
            let ghost rb = self@.ready;
            let ghost q = inputs_view(pending.queued@);
            self.ready.append(&mut pending.queued);
            proof {
                assert(self@.ready =~= rb + q);
                assert(inputs_view(pending.queued@) =~= Seq::<InputModel>::empty());
            }
        }
    }

    /// A progress card is shown for `session`'s pending prompt while its
    /// first delivery is slow; its id.
    pub fn open_card(&mut self, session: &SessionId) -> (r: Option<u64>)
        requires
            pending_inv(old(self)@),
        ensures
            pending_inv(final(self)@),
            match prompt_of(old(self)@.pending, session@) {
                Some(i) => {
                    let p = old(self)@.pending[i];
                    r == Some(p.id) && final(self)@ == (PendingModel {
                        cards: card_insert(old(self)@.cards, CardModel {
                            id: p.id,
                            input: p.input,
                            turn: None,
                            final_view: None,
                            valid: true,
                        }),
                        ..old(self)@
                    })
                },
                None => r is None && final(self)@ == old(self)@,
            },
    {
        match self.find(session) {
            Some(i) => {
                let ghost m = self@;
                assert(m.pending[i as int] == self.pending@[i as int]@);
                let id = self.pending[i].id;
                let card = PendingCard { id, input: self.pending[i].input.duplicate(), turn: None, final_view: None, valid: true };
                match self.find_card(id) {
                    Some(k) => {
                        self.cards.set(k, card);
                        proof {
                            assert(self@.cards =~= m.cards.update(k as int, card@));
                            let c = self@.cards;
                            assert forall|a: int, b: int| 0 <= a < c.len() && 0 <= b < c.len() && a != b implies c[a].id != c[b].id by {
                                assert(c[a].id == m.cards[a].id && c[b].id == m.cards[b].id);
                            }
                        }
                    },
                    None => {
                        self.cards.push(card);
                        proof {
                            assert(self@.cards =~= m.cards.push(card@));
                            let c = self@.cards;
                            assert forall|a: int, b: int| 0 <= a < c.len() && 0 <= b < c.len() && a != b implies c[a].id != c[b].id by {
                                if a < m.cards.len() {
                                    assert(c[a] == m.cards[a]);
                                }
                                if b < m.cards.len() {
                                    assert(c[b] == m.cards[b]);
                                }
                            }
                        }
                    },
                }
                Some(id)
            },
            None => None,
        }
    }

    /// The cards of `session` that show a turn: ids and turns.
    pub fn cards_to_freeze(&self, session: &SessionId) -> (r: Vec<(u64, String)>)
        ensures
            r@.map_values(|e: (u64, String)| (e.0, e.1@)) == frozen_cards(self@.cards, session@),
    {
        let mut r: Vec<(u64, String)> = Vec::new();
        let mut i: usize = 0;
        while i < self.cards.len()
            invariant
                i <= self.cards.len(),
                r@.map_values(|e: (u64, String)| (e.0, e.1@)) == frozen_cards(self@.cards.take(i as int), session@),
            decreases self.cards.len() - i,
        {
            proof {
                assert(self@.cards.take(i + 1).drop_last() =~= self@.cards.take(i as int));
                assert(self@.cards.take(i + 1).last() == self.cards@[i as int]@);
            }
            let ghost before = r@.map_values(|e: (u64, String)| (e.0, e.1@));
            match &self.cards[i].turn {
                Some(t) => {
                    if self.cards[i].input.session.same(session) {
                        r.push((self.cards[i].id, owned(t.as_str())));
                        assert(r@.map_values(|e: (u64, String)| (e.0, e.1@)) =~= before.push((self.cards@[i as int].id, t@)));
                    }
                },
                None => {},
            }
            i = i + 1;
        }
        assert(self@.cards.take(i as int) =~= self@.cards);
        r
    }

    /// The view a card shows at the end, once known.
    pub fn set_final_view(&mut self, id: u64, view: OutboundView)
        requires
            pending_inv(old(self)@),
        ensures
            pending_inv(final(self)@),
            final(self)@ == match card_of(old(self)@.cards, id) {
                Some(k) => PendingModel {
                    cards: old(self)@.cards.update(k, CardModel { final_view: Some(view), ..old(self)@.cards[k] }),
                    ..old(self)@
                },
                None => old(self)@,
            },
    {
        match self.find_card(id) {
            Some(k) => {
                let ghost m = self@;
                let card = &mut self.cards[k];
                card.final_view = Some(view);
                proof {
                    assert(self@.cards =~= m.cards.update(k as int, CardModel { final_view: Some(view), ..m.cards[k as int] }));
                    let c = self@.cards;
                    assert forall|a: int, b: int| 0 <= a < c.len() && 0 <= b < c.len() && a != b implies c[a].id != c[b].id by {
                        assert(c[a].id == m.cards[a].id && c[b].id == m.cards[b].id);
                    }
                }
            },
            None => {},
        }
    }

    /// A card of `session` in `conversation` takes `turn` (see [`holdable`]);
    /// whether one did.
    pub fn hold_pending_card(
        &mut self,
        session: &SessionId,
        conversation: &ConversationRef,
        turn: &str,
        detached: bool,
        epoch: u64,
        generation: u64,
    ) -> (r: bool)
        requires
            pending_inv(old(self)@),
        ensures
            pending_inv(final(self)@),
            match first_holdable(old(self)@.cards, session@, conversation.channel, conversation.conversation_id@, turn@, detached, epoch, generation) {
                Some(k) => r && final(self)@ == (PendingModel {
                    cards: old(self)@.cards.update(k, CardModel { turn: Some(turn@), ..old(self)@.cards[k] }),
                    ..old(self)@
                }),
                None => !r && final(self)@ == old(self)@,
            },
    {
        let ghost m = self@;
        let ghost cid = conversation.conversation_id@;
        let mut k: usize = 0;
        while k < self.cards.len()
            invariant
                k <= self.cards.len(),
                self@ == m,
                old(self)@ == m,
                pending_inv(m),
                cid == conversation.conversation_id@,
                forall|j: int| 0 <= j < k ==> !holdable(#[trigger] m.cards[j], session@, conversation.channel, cid, turn@, detached, epoch, generation),
            decreases self.cards.len() - k,
        {
            assert(m.cards[k as int] == self.cards@[k as int]@);
            let card = &self.cards[k];
            let turn_fits = match &card.turn {
                Some(t) => str_eq(t.as_str(), turn),
                None => true,
            };
            if card.input.session.same(session) && card.input.conversation.same(conversation)
                && ((!card.valid && detached) || card.input.epoch == epoch) && card.input.generation == generation && turn_fits {
                proof {
                    assert(holdable(m.cards[k as int], session@, conversation.channel, cid, turn@, detached, epoch, generation));
                    lemma_first_holdable(m.cards, session@, conversation.channel, cid, turn@, detached, epoch, generation, k as int);
                    assert(first_holdable(m.cards, session@, conversation.channel, cid, turn@, detached, epoch, generation) == Some(k as int));
                }
                let entry = &mut self.cards[k];
                entry.turn = Some(owned(turn));
                proof {
                    assert(self@.cards =~= m.cards.update(k as int, CardModel { turn: Some(turn@), ..m.cards[k as int] }));
                    let c = self@.cards;
                    assert forall|a: int, b: int| 0 <= a < c.len() && 0 <= b < c.len() && a != b implies c[a].id != c[b].id by {
                        assert(c[a].id == m.cards[a].id && c[b].id == m.cards[b].id);
                    }
                    assert(self@.pending == m.pending);
                    assert(self@ == (PendingModel { cards: m.cards.update(k as int, CardModel { turn: Some(turn@), ..m.cards[k as int] }), ..m }));
                    assert(pending_inv(self@));
                }
                return true;
            }
            k = k + 1;
        }
        proof {
            lemma_first_holdable(m.cards, session@, conversation.channel, cid, turn@, detached, epoch, generation, k as int);
        }
        false
    }

    /// What became of prompt `id`, kept on its card while the card is valid:
    /// the turn it started, or a final view telling that it failed.
    pub fn record_card_outcome(&mut self, id: u64, outcome: Result<&str, SendFailure>)
        requires
            pending_inv(old(self)@),
        ensures
            pending_inv(final(self)@),
            card_outcome_recorded(old(self)@, final(self)@, id, match outcome {
                Ok(turn) => Ok(turn@),
                Err(failure) => Err((failure.uncertain, failure.message@)),
            }),
    {
        match self.find_card(id) {
            Some(k) => {
                let ghost m = self@;
                assert(m.cards[k as int] == self.cards@[k as int]@);
                if !self.cards[k].valid {
                    return;
                }
                match outcome {
                    Ok(turn) => {
                        let entry = &mut self.cards[k];
                        entry.turn = Some(owned(turn));
                        assert(self@.cards =~= m.cards.update(k as int, CardModel { turn: Some(turn@), ..m.cards[k as int] }));
                    },
                    Err(failure) => {
                        let view = failure_notice(self.cards[k].input.prompt.as_str(), failure.uncertain, failure.message);
                        let entry = &mut self.cards[k];
                        entry.final_view = Some(view);
                        assert(self@.cards =~= m.cards.update(k as int, CardModel { final_view: Some(view), ..m.cards[k as int] }));
                    },
                }
                proof {
                    let c = self@.cards;
                    assert forall|a: int, b: int| 0 <= a < c.len() && 0 <= b < c.len() && a != b implies c[a].id != c[b].id by {
                        assert(c[a].id == m.cards[a].id && c[b].id == m.cards[b].id);
                    }
                    assert(self@ == (PendingModel { cards: c, ..m }));
                    assert(pending_inv(self@));
                }
            },
            None => {},
        }
    }

    /// The delivery of a card finished: the card is released, and returned
    /// unless the state is closed.
    pub fn card_delivered(&mut self, delivered: &CardDelivered<M>) -> (r: Option<PendingCard>)
        requires
            pending_inv(old(self)@),
        ensures
            pending_inv(final(self)@),
            final(self)@ == (PendingModel {
                cards: match card_of(old(self)@.cards, delivered.id) {
                    Some(k) => old(self)@.cards.remove(k),
                    None => old(self)@.cards,
                },
                ..old(self)@
            }),
            match card_of(old(self)@.cards, delivered.id) {
                Some(k) => if old(self)@.closed { r is None } else { r matches Some(c) && c@ == old(self)@.cards[k] },
                None => r is None,
            },
    {
        match self.find_card(delivered.id) {
            Some(k) => {
                let ghost m = self@;
                let card = self.cards.remove(k);
                proof {
                    assert(self@.cards =~= m.cards.remove(k as int));
                    let c = self@.cards;
                    assert forall|a: int, b: int| 0 <= a < c.len() && 0 <= b < c.len() && a != b implies c[a].id != c[b].id by {
                        let a0 = if a < k { a } else { a + 1 };
                        let b0 = if b < k { b } else { b + 1 };
                        assert(c[a] == m.cards[a0] && c[b] == m.cards[b0]);
                    }
                }
                if self.closed {
                    None
                } else {
                    Some(card)
                }
            },
            None => None,
        }
    }

    /// The message of card `id`, sent for `session`'s prompt while that
    /// prompt is still pending.
    pub fn set_card_message(&mut self, session: &SessionId, id: u64, message: M)
        requires
            pending_inv(old(self)@),
        ensures
            pending_inv(final(self)@),
            final(self)@ == match prompt_of(old(self)@.pending, session@) {
                Some(i) if old(self)@.pending[i].id == id => PendingModel {
                    pending: old(self)@.pending.update(i, PromptModel { message: Some(message), ..old(self)@.pending[i] }),
                    ..old(self)@
                },
                _ => old(self)@,
            },
    {
        match self.find(session) {
            Some(i) => {
                if self.pending[i].id == id {
                    let ghost m = self@;
                    let entry = &mut self.pending[i];
                    entry.message = Some(message);
                    assert(self@.pending =~= m.pending.update(i as int, PromptModel { message: Some(message), ..m.pending[i as int] }));
                }
            },
            None => {},
        }
    }

    /// Whether a prompt of `session` is pending.
    pub fn contains(&self, session: &SessionId) -> (r: bool)
        requires
            pending_inv(self@),
        ensures
            r == (prompt_of(self@.pending, session@) is Some),
    {
        self.find(session).is_some()
    }
}

/// What to do once a progress card's delivery finished.
#[derive(Debug)]
pub enum CardDelivery<M> {
    /// Nothing is left to show.
    Nothing,
    /// The card was not sent: send its final view instead.
    SendFinal(OutboundView),
    /// The card was not sent: render the turn it was showing.
    Render(String),
    /// Replace the sent card with its final view.
    UpdateFinal(M, OutboundView),
    /// The sent card becomes the view of its turn, which is rendered.
    AdoptForTurn(M, String),
    /// The prompt has no turn yet: the sent card becomes its message.
    KeepForPrompt(M),
    /// The input belongs to a previous session: the card says so (title, body).
    Previous(M, String, String),
}

/// The card's notice when its input no longer belongs to the current session.
pub open spec fn previous_notice(card: CardModel) -> (Seq<char>, Seq<char>) {
    (
        if card.valid { "Agentix · Previous session"@ } else { "Agentix · Session exited"@ },
        markdown_quote_of(card.input.prompt) + "\n\nThis input belongs to the previous session."@,
    )
}

/// The decision once the delivery of `card` finished, with `delivered` the
/// sent message (or the failure), where `context_current` tells whether the
/// card's agent generation, epoch and binding are still current.
pub fn card_delivery<M>(card: PendingCard, context_current: bool, delivered: Result<M, String>) -> (r: CardDelivery<M>)
    ensures
        ({
            let c = card@;
            let current = c.valid && context_current;
            match delivered {
                Err(_) => match c.final_view {
                    Some(v) => r == CardDelivery::<M>::SendFinal(v),
                    None => match c.turn {
                        Some(t) => if current { r matches CardDelivery::Render(x) && x@ == t } else { r is Nothing },
                        None => r is Nothing,
                    },
                },
                Ok(m) => match c.final_view {
                    Some(v) => r == CardDelivery::<M>::UpdateFinal(m, v),
                    None => if current {
                        match c.turn {
                            Some(t) => r matches CardDelivery::AdoptForTurn(x, y) && x == m && y@ == t,
                            None => r == CardDelivery::<M>::KeepForPrompt(m),
                        }
                    } else {
                        r matches CardDelivery::Previous(x, title, body) && x == m
                            && (title@, body@) == previous_notice(c)
                    },
                },
            }
        }),
{
    let current = card.valid && context_current;
    let PendingCard { id: _, input, turn, final_view, valid } = card;
    match delivered {
        Err(_) => match final_view {
            Some(v) => CardDelivery::SendFinal(v),
            None => match turn {
                Some(t) => if current { CardDelivery::Render(t) } else { CardDelivery::Nothing },
                None => CardDelivery::Nothing,
            },
        },
        Ok(m) => match final_view {
            Some(v) => CardDelivery::UpdateFinal(m, v),
            None => if current {
                match turn {
                    Some(t) => CardDelivery::AdoptForTurn(m, t),
                    None => CardDelivery::KeepForPrompt(m),
                }
            } else {
                let mut body = markdown_quote(input.prompt.as_str());
                append(&mut body, "\n\nThis input belongs to the previous session.");
                CardDelivery::Previous(
                    m,
                    owned(if valid { "Agentix · Previous session" } else { "Agentix · Session exited" }),
                    body,
                )
            },
        },
    }
}

/// A stop is applied at most once: taking it again right after it was taken
/// yields nothing.
pub proof fn stop_is_taken_at_most_once<M>(m: PendingModel<M>, session: Seq<char>)
    requires
        pending_inv(m),
    ensures
        !take_stop_model(take_stop_model(m, session).0, session).1,
{
    let (m1, taken) = take_stop_model(m, session);
    if taken {
        let i = prompt_of(m.pending, session).unwrap();
        assert(m1.pending[i].input.session == session);
        assert(prompt_of(m1.pending, session) is Some);
        let j = prompt_of(m1.pending, session).unwrap();
        if j != i {
            assert(m1.pending[j] == m.pending[j]);
            assert(m.pending[j].input.session != m.pending[i].input.session);
        }
    }
}

/// After an abort no prompt is admitted.
pub proof fn aborted_admits_nothing<M>(m: PendingModel<M>, session: Seq<char>)
    requires
        m.closed,
    ensures
        !admits(m, session),
{
}

/// A queued input reached by a cancellation is never sent afterwards.
pub proof fn cancelled_inputs_stay_unsent<M>(m: PendingModel<M>, t: Target, key: (ChannelKind, Seq<char>))
    requires
        pending_inv(m),
        owned_of(m.owned, key) is Some,
        m.owned[owned_of(m.owned, key).unwrap()].queued,
        targets(t, m.owned[owned_of(m.owned, key).unwrap()]),
    ensures
        withdrawn(PendingModel { owned: cancel_owned(m.owned, t), ..m }, key),
{
    let k = owned_of(m.owned, key).unwrap();
    let o = cancel_owned(m.owned, t);
    assert(input_key(o[k]) == key);
    assert(owned_of(o, key) is Some);
    let j = owned_of(o, key).unwrap();
    if j != k {
        assert(input_key(o[j]) == input_key(m.owned[j]));
        assert(input_key(m.owned[j]) != input_key(m.owned[k]));
    }
}

/// Inputs queued behind a prompt stay in sequence order when one is added.
pub proof fn queued_inputs_stay_in_order(q: Seq<InputModel>, input: InputModel)
    requires
        in_sequence(q),
    ensures
        in_sequence(q.insert(insertion_point(q, input.sequence) as int, input)),
{
    lemma_insert_in_sequence(q, input);
}

} // verus!
