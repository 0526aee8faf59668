//! One writer per logical card. Every write reserves a revision; only the
//! newest revision may reach the channel, an update whose outcome was lost
//! retires the physical message in favour of a replacement, and disabling a
//! card's actions fences every revision reserved before it. The runtime
//! performs the channel calls that these steps decide on.
use vstd::prelude::*;
use crate::text::{opt_view, owned, str_eq};

verus! {

/// What is known of one logical card. `M` is the channel's message reference.
pub struct CardModel<M> {
    /// The newest revision reserved.
    pub latest: nat,
    /// Revisions up to this one are shown with their actions disabled.
    pub disabled_through: nat,
    /// The message currently showing the card; none while a write is in
    /// flight or after one was lost.
    pub target: Option<M>,
    /// A replacement was sent and its outcome is unknown.
    pub replacement_uncertain: bool,
    /// The card was moved to a replacement message once.
    pub replaced: bool,
    /// The revision the channel last applied.
    pub applied_revision: nat,
    /// The card must be kept although no writer holds it.
    pub retain: bool,
}

/// The write state of one card.
pub struct CardState<M> {
    latest: u64,
    disabled_through: u64,
    target: Option<M>,
    replacement_uncertain: bool,
    replaced: bool,
    applied_revision: u64,
    retain: bool,
}

impl<M> View for CardState<M> {
    type V = CardModel<M>;

    closed spec fn view(&self) -> CardModel<M> {
        CardModel {
            latest: self.latest as nat,
            disabled_through: self.disabled_through as nat,
            target: self.target,
            replacement_uncertain: self.replacement_uncertain,
            replaced: self.replaced,
            applied_revision: self.applied_revision as nat,
            retain: self.retain,
        }
    }
}

/// How an update may proceed.
#[derive(Debug, PartialEq, Eq)]
pub enum UpdateStep {
    /// The revision is no longer the newest, or the caller's condition no
    /// longer holds: nothing is written.
    Stale,
    /// A replacement's delivery is unknown: the card refuses writes.
    ReplacementUncertain,
    /// Write, with every action disabled when `disable_actions`; edit the
    /// target when the card has one, else send a replacement.
    Write { disable_actions: bool, edit: bool },
}

/// How a channel call ended, as the runtime classifies it.
#[derive(Debug, PartialEq, Eq)]
pub enum WriteOutcome {
    /// The channel applied the write.
    Delivered,
    /// The channel definitely did not apply it (not sent, rejected, invalid).
    Rejected,
    /// It was dispatched and its outcome is unknown.
    Lost,
    /// It was withdrawn before dispatch (cancelled, or its revision or
    /// condition went stale first).
    Withdrawn,
}

/// What became of an update.
#[derive(Debug, PartialEq, Eq)]
pub enum UpdateResult {
    /// Done; whether this revision was written.
    Done(bool),
    /// The channel's error is returned.
    Failed,
    /// The edit was lost: send a replacement if the revision is still the
    /// newest and its condition holds.
    SendReplacement,
}

/// A write in flight: the target it took off the card and whether it sends
/// a replacement.
pub struct WriteAttempt<M> {
    previous: Option<M>,
    replacement: bool,
}

impl<M> WriteAttempt<M> {
    pub closed spec fn previous(&self) -> Option<M> {
        self.previous
    }

    pub closed spec fn is_replacement(&self) -> bool {
        self.replacement
    }
}

pub open spec fn new_model<M>(message: M) -> CardModel<M> {
    CardModel {
        latest: 0,
        disabled_through: 0,
        target: Some(message),
        replacement_uncertain: false,
        replaced: false,
        applied_revision: 0,
        retain: false,
    }
}

/// The step an update of `revision` takes; `valid` is the caller's condition
/// and `enabled_actions` whether the view offers an action not disabled.
pub open spec fn update_step<M>(m: CardModel<M>, revision: nat, valid: bool, enabled_actions: bool) -> UpdateStep {
    if m.latest != revision || !valid {
        UpdateStep::Stale
    } else if m.replacement_uncertain {
        UpdateStep::ReplacementUncertain
    } else {
        UpdateStep::Write { disable_actions: revision <= m.disabled_through && enabled_actions, edit: m.target is Some }
    }
}

/// The card while a write is in flight: its target taken off, a replacement
/// marked uncertain, and the card kept.
pub open spec fn started<M>(m: CardModel<M>, replacement: bool) -> CardModel<M> {
    CardModel {
        target: None,
        replacement_uncertain: if replacement { true } else { m.replacement_uncertain },
        retain: true,
        ..m
    }
}

/// The card once an attempt is undone: its target back, a replacement no
/// longer uncertain, and kept only when replaced or left without a target.
pub open spec fn restored<M>(m: CardModel<M>, previous: Option<M>, replacement: bool) -> CardModel<M> {
    CardModel {
        target: previous,
        replacement_uncertain: if replacement { false } else { m.replacement_uncertain },
        retain: m.replaced || previous is None,
        ..m
    }
}

/// An outcome after which the attempt is undone.
pub open spec fn restores(outcome: WriteOutcome) -> bool {
    outcome != WriteOutcome::Lost
}

/// The card after an attempt of `revision` ended with `outcome`; a delivered
/// replacement becomes the card's target.
pub open spec fn finished<M>(
    m: CardModel<M>,
    previous: Option<M>,
    replacement: bool,
    revision: nat,
    outcome: WriteOutcome,
    sent: Option<M>,
) -> CardModel<M> {
    let r = if restores(outcome) { restored(m, previous, replacement) } else { m };
    if outcome == WriteOutcome::Delivered {
        if replacement {
            CardModel { target: sent, replaced: true, applied_revision: revision, replacement_uncertain: false, ..r }
        } else {
            CardModel { applied_revision: revision, ..r }
        }
    } else {
        r
    }
}

pub open spec fn update_result(replacement: bool, outcome: WriteOutcome) -> UpdateResult {
    match outcome {
        WriteOutcome::Delivered => UpdateResult::Done(true),
        WriteOutcome::Withdrawn => UpdateResult::Done(false),
        WriteOutcome::Rejected => UpdateResult::Failed,
        WriteOutcome::Lost => if replacement { UpdateResult::Failed } else { UpdateResult::SendReplacement },
    }
}

/// The card once disabling its actions fenced every revision reserved so far.
pub open spec fn fenced<M>(m: CardModel<M>) -> CardModel<M> {
    CardModel { disabled_through: if m.disabled_through >= m.latest { m.disabled_through } else { m.latest }, ..m }
}

/// Whether disabling must reach the channel: the card shows a revision no
/// newer than the fence, on a target.
pub open spec fn disable_needed<M>(m: CardModel<M>) -> bool {
    m.applied_revision <= m.latest && m.target is Some
}

impl<M> CardState<M> {
    /// A card shown by `message`, no revision reserved yet.
    pub fn new(message: M) -> (r: Self)
        ensures
            r@ == new_model(message),
    {
        CardState {
            latest: 0,
            disabled_through: 0,
            target: Some(message),
            replacement_uncertain: false,
            replaced: false,
            applied_revision: 0,
            retain: false,
        }
    }

    /// Reserve the next revision; it supersedes every earlier one.
    pub fn reserve(&mut self) -> (revision: u64)
        requires
            old(self)@.latest < u64::MAX,
        ensures
            revision == old(self)@.latest + 1,
            final(self)@ == (CardModel { latest: revision as nat, ..old(self)@ }),
    {
        self.latest = self.latest + 1;
        self.latest
    }

    /// Whether `revision` is still the newest.
    pub fn is_current(&self, revision: u64) -> (r: bool)
        ensures
            r == (self@.latest == revision),
    {
        self.latest == revision
    }

    /// The message currently showing the card.
    pub fn target(&self) -> (r: Option<&M>)
        ensures
            match r {
                Some(t) => self@.target == Some(*t),
                None => self@.target is None,
            },
    {
        match &self.target {
            Some(t) => Some(t),
            None => None,
        }
    }

    /// How an update of `revision` proceeds.
    pub fn update_step(&self, revision: u64, valid: bool, enabled_actions: bool) -> (r: UpdateStep)
        ensures
            r == update_step(self@, revision as nat, valid, enabled_actions),
    {
        if self.latest != revision || !valid {
            UpdateStep::Stale
        } else if self.replacement_uncertain {
            UpdateStep::ReplacementUncertain
        } else {
            UpdateStep::Write {
                disable_actions: revision <= self.disabled_through && enabled_actions,
                edit: self.target.is_some(),
            }
        }
    }

    /// Start a write: an edit of the target, or a replacement.
    pub fn start(&mut self, replacement: bool) -> (attempt: WriteAttempt<M>)
        ensures
            attempt.previous() == old(self)@.target,
            attempt.is_replacement() == replacement,
            final(self)@ == started(old(self)@, replacement),
    {
        let previous = self.target.take();
        if replacement {
            self.replacement_uncertain = true;
        }
        self.retain = true;
        WriteAttempt { previous, replacement }
    }

    /// Finish an attempt for `revision`: undo it unless its outcome was lost,
    /// record what was delivered (`sent` is the replacement message, when one
    /// was delivered), and say what becomes of the update.
    pub fn finish(&mut self, attempt: WriteAttempt<M>, revision: u64, outcome: WriteOutcome, sent: Option<M>) -> (r: UpdateResult)
        requires
            outcome == WriteOutcome::Delivered && attempt.is_replacement() ==> sent is Some,
        ensures
            r == update_result(attempt.is_replacement(), outcome),
            final(self)@ == finished(old(self)@, attempt.previous(), attempt.is_replacement(), revision as nat, outcome, sent),
    {
        let replacement = attempt.replacement;
        let restore = match outcome {
            WriteOutcome::Lost => false,
            _ => true,
        };
        if restore {
            let previous_is_none = attempt.previous.is_none();
            self.target = attempt.previous;
            if replacement {
                self.replacement_uncertain = false;
            }
            self.retain = self.replaced || previous_is_none;
        }
        match outcome {
            WriteOutcome::Delivered => {
                if replacement {
                    self.target = sent;
                    self.replaced = true;
                    self.replacement_uncertain = false;
                }
                self.applied_revision = revision;
                UpdateResult::Done(true)
            },
            WriteOutcome::Withdrawn => UpdateResult::Done(false),
            WriteOutcome::Rejected => UpdateResult::Failed,
            WriteOutcome::Lost => if replacement { UpdateResult::Failed } else { UpdateResult::SendReplacement },
        }
    }

    /// Disable the card's actions: every revision reserved so far is shown
    /// disabled. Whether the shown message must be disabled at the channel
    /// too (it shows no newer revision and the card has a target).
    pub fn fence_actions(&mut self) -> (needed: bool)
        ensures
            final(self)@ == fenced(old(self)@),
            needed == disable_needed(old(self)@),
    {
        let barrier = self.latest;
        if self.disabled_through < barrier {
            self.disabled_through = barrier;
        }
        self.applied_revision <= barrier && self.target.is_some()
    }
}


/// A card with its messages as text.
pub open spec fn card_text(c: CardModel<String>) -> CardModel<Seq<char>> {
    CardModel {
        latest: c.latest,
        disabled_through: c.disabled_through,
        target: opt_view(c.target),
        replacement_uncertain: c.replacement_uncertain,
        replaced: c.replaced,
        applied_revision: c.applied_revision,
        retain: c.retain,
    }
}

/// The card a message shows, by the message's key: the entry added last
/// for it.
pub open spec fn last_match(index: Seq<(Seq<char>, nat)>, message: Seq<char>) -> Option<nat>
    decreases index.len(),
{
    if index.len() == 0 {
        None
    } else if index.last().0 == message {
        Some(index.last().1)
    } else {
        last_match(index.drop_last(), message)
    }
}

proof fn lemma_last_match_listed(index: Seq<(Seq<char>, nat)>, message: Seq<char>)
    ensures
        last_match(index, message) matches Some(c) ==> exists|i: int| 0 <= i < index.len() && #[trigger] index[i].1 == c,
    decreases index.len(),
{
    if index.len() > 0 && index.last().0 != message {
        let d = index.drop_last();
        lemma_last_match_listed(d, message);
        if let Some(c) = last_match(d, message) {
            let i = choose|i: int| 0 <= i < d.len() && #[trigger] d[i].1 == c;
            assert(index[i] == d[i]);
        }
    } else if index.len() > 0 {
        assert(index[index.len() - 1].1 == index.last().1);
    }
}

/// The cards, and which card each message (by its key) shows.
pub struct RegistryModel {
    pub cards: Seq<CardModel<Seq<char>>>,
    pub index: Seq<(Seq<char>, nat)>,
}

pub open spec fn registry_inv(m: RegistryModel) -> bool {
    forall|i: int| 0 <= i < m.index.len() ==> #[trigger] m.index[i].1 < m.cards.len()
}

/// Every card can still reserve a revision.
pub open spec fn reservable(m: RegistryModel) -> bool {
    forall|i: int| 0 <= i < m.cards.len() ==> #[trigger] m.cards[i].latest < u64::MAX
}

/// The registry once `message` was looked up, and the card it shows: a new
/// card, shown by it, when it showed none.
pub open spec fn with_card(m: RegistryModel, message: Seq<char>) -> (RegistryModel, nat) {
    match last_match(m.index, message) {
        Some(c) => (m, c),
        None => (
            RegistryModel { cards: m.cards.push(new_model(message)), index: m.index.push((message, m.cards.len())) },
            m.cards.len(),
        ),
    }
}

/// One writer per logical card, shared by every delivery path. Messages are
/// known by their keys; a delivered replacement shows the same card as the
/// message it replaced.
pub struct CardRegistry {
    cards: Vec<CardState<String>>,
    index: Vec<(String, usize)>,
}

impl View for CardRegistry {
    type V = RegistryModel;

    closed spec fn view(&self) -> RegistryModel {
        RegistryModel {
            cards: self.cards@.map_values(|c: CardState<String>| card_text(c@)),
            index: self.index@.map_values(|e: (String, usize)| (e.0@, e.1 as nat)),
        }
    }
}

impl CardRegistry {
    pub fn new() -> (r: Self)
        ensures
            registry_inv(r@),
            r@.cards.len() == 0,
            r@.index.len() == 0,
    {
        let r = CardRegistry { cards: Vec::new(), index: Vec::new() };
        assert(r@.cards =~= Seq::<CardModel<Seq<char>>>::empty());
        assert(r@.index =~= Seq::<(Seq<char>, nat)>::empty());
        r
    }

    /// The card `message` shows, if any.
    pub fn card_of(&self, message: &str) -> (r: Option<usize>)
        ensures
            match r {
                Some(c) => last_match(self@.index, message@) == Some(c as nat),
                None => last_match(self@.index, message@) is None,
            },
    {
        let ghost ix = self@.index;
        let mut i: usize = self.index.len();
        proof {
            assert(ix.take(i as int) =~= ix);
        }
        while i > 0
            invariant
                i <= self.index.len(),
                ix == self@.index,
                ix == self.index@.map_values(|e: (String, usize)| (e.0@, e.1 as nat)),
                last_match(ix, message@) == last_match(ix.take(i as int), message@),
            decreases i,
        {
            proof {
                assert(ix.take(i as int).drop_last() =~= ix.take(i - 1));
                assert(ix.take(i as int).last() == ix[i - 1]);
            }
            if str_eq(self.index[i - 1].0.as_str(), message) {
                return Some(self.index[i - 1].1);
            }
            i = i - 1;
        }
        None
    }

    /// The card `message` shows, added when there is none.
    fn card(&mut self, message: &str) -> (c: usize)
        requires
            registry_inv(old(self)@),
        ensures
            registry_inv(final(self)@),
            (final(self)@, c as nat) == with_card(old(self)@, message@),
            c < final(self)@.cards.len(),
    {
        match self.card_of(message) {
            Some(c) => {
                proof {
                    lemma_last_match_listed(self@.index, message@);
                }
                c
            },
            None => {
                let ghost old_m = self@;
                let c = self.cards.len();
                self.cards.push(CardState::new(owned(message)));
                self.index.push((owned(message), c));
                proof {
                    assert(self@.cards =~= old_m.cards.push(new_model(message@)));
                    assert(self@.index =~= old_m.index.push((message@, c as nat)));
                }
                c
            },
        }
    }

    /// Reserve the next revision of the card `message` shows.
    pub fn reserve(&mut self, message: &str) -> (r: (usize, u64))
        requires
            registry_inv(old(self)@),
            reservable(old(self)@),
        ensures
            registry_inv(final(self)@),
            ({
                let (m, c) = with_card(old(self)@, message@);
                &&& r.0 == c
                &&& r.1 == m.cards[c as int].latest + 1
                &&& final(self)@ == (RegistryModel {
                    cards: m.cards.update(c as int, CardModel { latest: r.1 as nat, ..m.cards[c as int] }),
                    ..m
                })
            }),
    {
        let ghost old_m = self@;
        let c = self.card(message);
        let ghost mid = self@;
        proof {
            if c < old_m.cards.len() {
                assert(mid.cards[c as int] == old_m.cards[c as int]);
            }
            assert(self.cards@[c as int]@.latest == mid.cards[c as int].latest);
        }
        let revision = self.cards[c].reserve();
        proof {
            assert(self@.cards =~= mid.cards.update(c as int, CardModel { latest: revision as nat, ..mid.cards[c as int] }));
            assert(self@.index =~= mid.index);
        }
        (c, revision)
    }
    /// Whether `revision` is the newest of card `card`.
    pub fn is_current(&self, card: usize, revision: u64) -> (r: bool)
        requires
            card < self@.cards.len(),
        ensures
            r == (self@.cards[card as int].latest == revision),
    {
        self.cards[card].is_current(revision)
    }

    /// How an update of `revision` of card `card` proceeds.
    pub fn update_step(&self, card: usize, revision: u64, valid: bool, enabled_actions: bool) -> (r: UpdateStep)
        requires
            card < self@.cards.len(),
        ensures
            r == update_step(self@.cards[card as int], revision as nat, valid, enabled_actions),
    {
        self.cards[card].update_step(revision, valid, enabled_actions)
    }

    /// The message showing card `card`.
    pub fn target(&self, card: usize) -> (r: Option<&String>)
        requires
            card < self@.cards.len(),
        ensures
            match r {
                Some(t) => self@.cards[card as int].target == Some(t@),
                None => self@.cards[card as int].target is None,
            },
    {
        self.cards[card].target()
    }

    /// Start a write of card `card`.
    pub fn start(&mut self, card: usize, replacement: bool) -> (attempt: WriteAttempt<String>)
        requires
            registry_inv(old(self)@),
            card < old(self)@.cards.len(),
        ensures
            registry_inv(final(self)@),
            opt_view(attempt.previous()) == old(self)@.cards[card as int].target,
            attempt.is_replacement() == replacement,
            final(self)@ == (RegistryModel {
                cards: old(self)@.cards.update(card as int, started(old(self)@.cards[card as int], replacement)),
                ..old(self)@
            }),
    {
        let ghost old_m = self@;
        let attempt = self.cards[card].start(replacement);
        proof {
            assert(self@.cards =~= old_m.cards.update(card as int, started(old_m.cards[card as int], replacement)));
            assert(self@.index =~= old_m.index);
        }
        attempt
    }

    /// Finish a write of card `card`; a delivered replacement `sent` shows
    /// the card from now on, beside the messages that showed it before.
    pub fn finish(&mut self, card: usize, attempt: WriteAttempt<String>, revision: u64, outcome: WriteOutcome, sent: Option<String>) -> (r: UpdateResult)
        requires
            registry_inv(old(self)@),
            card < old(self)@.cards.len(),
            outcome == WriteOutcome::Delivered && attempt.is_replacement() ==> sent is Some,
        ensures
            registry_inv(final(self)@),
            r == update_result(attempt.is_replacement(), outcome),
            final(self)@.cards == old(self)@.cards.update(card as int, finished(
                old(self)@.cards[card as int],
                opt_view(attempt.previous()),
                attempt.is_replacement(),
                revision as nat,
                outcome,
                opt_view(sent),
            )),
            final(self)@.index == if outcome == WriteOutcome::Delivered && attempt.is_replacement() {
                old(self)@.index.push((opt_view(sent)->0, card as nat))
            } else {
                old(self)@.index
            },
    {
        let ghost old_m = self@;
        let ghost prev = attempt.previous();
        let replacement = attempt.replacement;
        let delivered = match outcome {
            WriteOutcome::Delivered => true,
            _ => false,
        };
        let alias = match &sent {
            Some(m) => if replacement && delivered { Some(owned(m.as_str())) } else { None },
            None => None,
        };
        let r = self.cards[card].finish(attempt, revision, outcome, sent);
        proof {
            assert(self@.cards =~= old_m.cards.update(card as int, finished(
                old_m.cards[card as int],
                opt_view(prev),
                replacement,
                revision as nat,
                outcome,
                opt_view(sent),
            )));
        }
        match alias {
            Some(m) => {
                self.index.push((m, card));
                proof {
                    assert(self@.index =~= old_m.index.push((opt_view(sent)->0, card as nat)));
                }
            },
            None => {
                assert(self@.index =~= old_m.index);
            },
        }
        r
    }

    /// Disable the actions of the card `message` shows: the card and whether
    /// the shown message must be disabled at the channel too.
    pub fn fence_actions(&mut self, message: &str) -> (r: (usize, bool))
        requires
            registry_inv(old(self)@),
        ensures
            registry_inv(final(self)@),
            ({
                let (m, c) = with_card(old(self)@, message@);
                &&& r.0 == c
                &&& r.1 == disable_needed(m.cards[c as int])
                &&& final(self)@ == (RegistryModel { cards: m.cards.update(c as int, fenced(m.cards[c as int])), ..m })
            }),
    {
        let c = self.card(message);
        let ghost mid = self@;
        let needed = self.cards[c].fence_actions();
        proof {
            assert(self@.cards =~= mid.cards.update(c as int, fenced(mid.cards[c as int])));
            assert(self@.index =~= mid.index);
        }
        (c, needed)
    }
}

/// A delivered replacement shows the card it replaced, and every message
/// that showed a card before still shows it.
pub proof fn replacements_show_the_same_card(index: Seq<(Seq<char>, nat)>, sent: Seq<char>, card: nat, other: Seq<char>)
    ensures
        last_match(index.push((sent, card)), sent) == Some(card),
        other != sent ==> last_match(index.push((sent, card)), other) == last_match(index, other),
{
    assert(index.push((sent, card)).drop_last() =~= index);
}

/// Only the newest revision writes: once a later revision is reserved, an
/// update of an earlier one is stale whatever else holds.
pub proof fn superseded_revisions_never_write<M>(m: CardModel<M>, revision: nat, valid: bool, enabled_actions: bool)
    requires
        revision < m.latest,
    ensures
        update_step(m, revision, valid, enabled_actions) == UpdateStep::Stale,
{
}

/// An attempt that did not end in a lost outcome leaves the card's target
/// and replacement state as they were before it started; a rejected or
/// withdrawn attempt changes nothing but whether the card is kept.
pub proof fn undone_attempts_restore_the_target<M>(m: CardModel<M>, replacement: bool, revision: nat, outcome: WriteOutcome, sent: Option<M>)
    requires
        outcome == WriteOutcome::Rejected || outcome == WriteOutcome::Withdrawn,
    ensures
        finished(started(m, replacement), m.target, replacement, revision, outcome, sent) == (CardModel {
            retain: m.replaced || m.target is None,
            replacement_uncertain: if replacement { false } else { m.replacement_uncertain },
            ..m
        }),
{
}

/// A lost replacement leaves the card refusing every later write until the
/// runtime discards it; a delivered one becomes its target.
pub proof fn lost_replacements_block_writes<M>(m: CardModel<M>, revision: nat, later: nat, valid: bool, enabled_actions: bool, sent: Option<M>)
    ensures
        later == m.latest && valid ==> update_step(
            finished(started(m, true), m.target, true, revision, WriteOutcome::Lost, sent),
            later,
            valid,
            enabled_actions,
        ) == UpdateStep::ReplacementUncertain,
        finished(started(m, true), m.target, true, revision, WriteOutcome::Delivered, sent).target == sent,
{
}

/// Fencing never lowers the fence, and every revision reserved before it
/// is written with its actions disabled.
pub proof fn fence_covers_reserved_revisions<M>(m: CardModel<M>, revision: nat, enabled_actions: bool)
    ensures
        fenced(m).disabled_through >= m.disabled_through,
        revision <= m.latest && revision == fenced(m).latest && !fenced(m).replacement_uncertain ==> update_step(
            fenced(m),
            revision,
            true,
            enabled_actions,
        ) == (UpdateStep::Write { disable_actions: enabled_actions, edit: m.target is Some }),
{
}

} // verus!
