//! Local admission state of the bridge runtime: optional completion notices,
//! input recovery reads and unacknowledged prompts. The runtime performs the
//! I/O that this state decides on.
use vstd::prelude::*;
use crate::background::{CAPACITY, CONCURRENCY, BackgroundCompletionStatistics, BackgroundQueue, QueueModel, queue_inv};
use crate::domain::{ActionStyle, TurnStatus};
use crate::input_recovery::{InputRecovery, RecoveryModel, keys_outside, recovery_inv, requests_outside};
use crate::model::{TurnKey, keys_view};
use crate::pending_prompts::{
    Notice, PendingModel, PendingPrompts, PromptAcknowledged, SendFailure, Target, cancel_notices, card_outcome_recorded,
    frozen_cards, invalidated, notices_view, pending_inv,
};
use crate::session::AgentError;
use crate::subscription_cleanup::{CleanupModel, SubscriptionCleanup, cancel_all_model, cancel_model, cleanup_inv, conversations_for};
use crate::model::{ConversationRef, SessionId};
use crate::menu::{MenuQueue, MenuRequest, MenuEntryModel, menu_queue_inv};
use crate::text::owned;
use crate::active_turns::ActiveTurns;
use crate::turn_buffer::TurnBuffer;
use crate::domain::ActionButton;
use crate::turn_state::{KeyView, Purge, TurnTable, without};

verus! {

/// What a completion notice reports.
#[derive(Debug)]
pub struct BackgroundNotice {
    pub status: TurnStatus,
    pub error: Option<String>,
    pub draining: bool,
}

/// `M` is the channel's reference to a message it sent.
pub struct Engine<M> {
    pub background: BackgroundQueue<BackgroundNotice>,
    pub input_recovery: InputRecovery,
    pub pending_prompts: PendingPrompts<M>,
    pub cleanup: SubscriptionCleanup,
    pub menus: MenuQueue<MenuRequest>,
    pub active: ActiveTurns,
    /// The output of each live turn.
    pub buffers: TurnTable<TurnBuffer>,
    /// The message showing each turn.
    pub views: TurnTable<M>,
    /// When each turn was last rendered, by the runtime's clock.
    pub last_renders: TurnTable<u64>,
    /// The stop button of each running turn.
    pub stop_actions: TurnTable<ActionButton>,
}

/// A step of the one-shot directory selection.
#[derive(Debug, Clone)]
pub enum DirectoryAction {
    Preview,
    Browse { path: String, page: usize, hidden: bool },
    Select(String),
    Input,
    Confirm,
    Cancel,
}

impl<M> Engine<M> {
    pub open spec fn wf(&self) -> bool {
        &&& queue_inv(self.background@)
        &&& recovery_inv(self.input_recovery@)
        &&& pending_inv(self.pending_prompts@)
        &&& cleanup_inv(self.cleanup@)
        &&& menu_queue_inv(self.menus@)
        &&& self.active.wf()
    }

    /// The per-turn tables of `self` and `other` hold the same entries.
    pub open spec fn same_turn_state(&self, other: &Self) -> bool {
        &&& self.buffers@ == other.buffers@
        &&& self.views@ == other.views@
        &&& self.last_renders@ == other.last_renders@
        &&& self.stop_actions@ == other.stop_actions@
    }

    /// Everything open and empty, no id handed out yet.
    pub fn new() -> (r: Self)
        ensures
            r.wf(),
            r.background@ == (QueueModel::<BackgroundNotice> {
                closed: false,
                waiting: Seq::empty(),
                running: Seq::empty(),
                recent: Seq::empty(),
                rejected: 0,
            }),
            r.input_recovery@ == (RecoveryModel { next_id: 0, closed: false, requests: Seq::empty(), waiting: Seq::empty(), reads: 0 }),
            r.pending_prompts@ == (PendingModel::<M> {
                next_id: 0,
                closed: false,
                pending: Seq::empty(),
                cards: Seq::empty(),
                ready: Seq::empty(),
                owned: Seq::empty(),
                receipts: Seq::empty(),
            }),
            r.cleanup@ == (CleanupModel {
                pending: Seq::empty(),
                attachments: Seq::empty(),
                ready: Seq::empty(),
                preparing: Seq::empty(),
                prepared: Seq::empty(),
                observed: Seq::empty(),
            }),
            r.menus@ == Seq::<MenuEntryModel<MenuRequest>>::empty(),
            r.active@ == Map::<Seq<char>, Seq<char>>::empty(),
            r.buffers@ == Map::<KeyView, TurnBuffer>::empty(),
            r.views@ == Map::<KeyView, M>::empty(),
            r.last_renders@ == Map::<KeyView, u64>::empty(),
            r.stop_actions@ == Map::<KeyView, ActionButton>::empty(),
    {
        Engine {
            background: BackgroundQueue::new(),
            input_recovery: InputRecovery::new(),
            pending_prompts: PendingPrompts::new(),
            cleanup: SubscriptionCleanup::new(),
            menus: MenuQueue::new(),
            active: ActiveTurns::new(),
            buffers: TurnTable::new(),
            views: TurnTable::new(),
            last_renders: TurnTable::new(),
            stop_actions: TurnTable::new(),
        }
    }

    /// Snapshot optional-work pressure without querying sessions or storage.
    pub fn background_completion_statistics(&self) -> (r: BackgroundCompletionStatistics)
        ensures
            r.active == self.background@.running.len(),
            r.queued == self.background@.waiting.len(),
            r.rejected == self.background@.rejected,
            queue_inv(self.background@) ==> r.active <= CONCURRENCY && r.active + r.queued <= CAPACITY,
    {
        self.background.statistics()
    }

    /// Cancel optional completion work when the runtime stops; the running
    /// deliveries to abort.
    pub fn cancel_background_completions(&mut self) -> (aborted: Vec<TurnKey>)
        requires
            old(self).wf(),
        ensures
            final(self).wf(),
            final(self).active@ == old(self).active@,
            final(self).same_turn_state(&*old(self)),
            keys_view(aborted@) == old(self).background@.running,
            final(self).background@ == (QueueModel {
                closed: true,
                waiting: Seq::empty(),
                running: Seq::empty(),
                ..old(self).background@
            }),
            final(self).input_recovery@ == old(self).input_recovery@,
            final(self).pending_prompts@ == old(self).pending_prompts@,
            final(self).cleanup@ == old(self).cleanup@,
            final(self).menus@ == old(self).menus@,
    {
        self.background.cancel()
    }

    /// Cancel optional reads when admission stops, including queued requests.
    pub fn cancel_input_recovery(&mut self)
        requires
            old(self).wf(),
        ensures
            final(self).wf(),
            final(self).active@ == old(self).active@,
            final(self).same_turn_state(&*old(self)),
            final(self).input_recovery@ == (RecoveryModel {
                closed: true,
                requests: Seq::empty(),
                waiting: Seq::empty(),
                ..old(self).input_recovery@
            }),
            final(self).background@ == old(self).background@,
            final(self).pending_prompts@ == old(self).pending_prompts@,
            final(self).cleanup@ == old(self).cleanup@,
            final(self).menus@ == old(self).menus@,
    {
        self.input_recovery.cancel_all();
    }

    /// Stop admitting prompts and drop pending menu requests; the runtime
    /// aborts their tasks.
    pub fn abort_pending_prompts(&mut self)
        requires
            old(self).wf(),
        ensures
            final(self).wf(),
            final(self).active@ == old(self).active@,
            final(self).same_turn_state(&*old(self)),
            final(self).pending_prompts@ == (PendingModel { closed: true, receipts: Seq::empty(), ..old(self).pending_prompts@ }),
            final(self).menus@ == Seq::<MenuEntryModel<MenuRequest>>::empty(),
            final(self).background@ == old(self).background@,
            final(self).input_recovery@ == old(self).input_recovery@,
            final(self).cleanup@ == old(self).cleanup@,
    {
        self.menus.abort();
        self.pending_prompts.abort();
    }

    /// Cancel the reattachment waiting in `conversation`; the id of the one
    /// cancelled, for the runtime to finish.
    pub fn cancel_reattachment(&mut self, conversation: &ConversationRef) -> (r: Option<u128>)
        requires
            old(self).wf(),
        ensures
            final(self).wf(),
            final(self).active@ == old(self).active@,
            final(self).same_turn_state(&*old(self)),
            final(self).cleanup@ == cancel_model(old(self).cleanup@, (conversation.channel, conversation.conversation_id@)).0,
            r == match cancel_model(old(self).cleanup@, (conversation.channel, conversation.conversation_id@)).1 {
                Some(a) => Some(a.id),
                None => None::<u128>,
            },
            final(self).background@ == old(self).background@,
            final(self).input_recovery@ == old(self).input_recovery@,
            final(self).pending_prompts@ == old(self).pending_prompts@,
            final(self).menus@ == old(self).menus@,
    {
        match self.cleanup.cancel_attachment(conversation) {
            Some(request) => Some(request.id),
            None => None,
        }
    }

    /// Cancel every reattachment waiting for `session`; the ids cancelled.
    pub fn cancel_session_attachments(&mut self, session: &SessionId) -> (r: Vec<u128>)
        requires
            old(self).wf(),
        ensures
            final(self).wf(),
            final(self).active@ == old(self).active@,
            final(self).same_turn_state(&*old(self)),
            (final(self).cleanup@, r@) == cancel_all_model(
                old(self).cleanup@,
                conversations_for(old(self).cleanup@.attachments, session@),
            ),
            final(self).background@ == old(self).background@,
            final(self).input_recovery@ == old(self).input_recovery@,
            final(self).pending_prompts@ == old(self).pending_prompts@,
            final(self).menus@ == old(self).menus@,
    {
        let conversations = self.cleanup.attachment_conversations(session);
        let ghost convs = conversations@.map_values(|c: ConversationRef| (c.channel, c.conversation_id@));
        let ghost m = self.cleanup@;
        let mut ids: Vec<u128> = Vec::new();
        let mut i: usize = 0;
        while i < conversations.len()
            invariant
                i <= conversations.len(),
                convs == conversations@.map_values(|c: ConversationRef| (c.channel, c.conversation_id@)),
                self.wf(),
                (self.cleanup@, ids@) == cancel_all_model(m, convs.take(i as int)),
                self.background@ == old(self).background@,
                self.input_recovery@ == old(self).input_recovery@,
                self.pending_prompts@ == old(self).pending_prompts@,
                self.menus@ == old(self).menus@,
                self.active@ == old(self).active@,
                self.same_turn_state(&*old(self)),
            decreases conversations.len() - i,
        {
            proof {
                assert(convs.take(i + 1).drop_last() =~= convs.take(i as int));
                assert(convs.take(i + 1).last() == convs[i as int]);
            }
            let ghost before = ids@;
            match self.cleanup.cancel_attachment(&conversations[i]) {
                Some(request) => {
                    ids.push(request.id);
                },
                None => {},
            }
            i = i + 1;
        }
        assert(convs.take(i as int) =~= convs);
        ids
    }

    /// A session exited: the reattachments waiting for it are cancelled, its
    /// pending reads dropped, its prompts and cards invalidated and its active
    /// turn cleared. Returns the ids of the cancelled reattachments, the cards
    /// to freeze with their turns (as they were before), the receipt updates
    /// of the inputs withdrawn, and the turn the session was running.
    pub fn session_exited(&mut self, session: &SessionId) -> (r: (Vec<u128>, Vec<(u64, String)>, Vec<Notice>, Option<String>))
        requires
            old(self).wf(),
        ensures
            final(self).wf(),
            final(self).active@ == old(self).active@.remove(session@),
            final(self).same_turn_state(&*old(self)),
            match r.3 {
                Some(t) => old(self).active@.contains_key(session@) && old(self).active@[session@] == t@,
                None => !old(self).active@.contains_key(session@),
            },
            (final(self).cleanup@, r.0@) == cancel_all_model(
                old(self).cleanup@,
                conversations_for(old(self).cleanup@.attachments, session@),
            ),
            final(self).input_recovery@ == (RecoveryModel {
                requests: requests_outside(old(self).input_recovery@.requests, session@),
                waiting: keys_outside(old(self).input_recovery@.waiting, session@),
                ..old(self).input_recovery@
            }),
            r.1@.map_values(|e: (u64, String)| (e.0, e.1@)) == frozen_cards(old(self).pending_prompts@.cards, session@),
            notices_view(r.2@) == cancel_notices(
                old(self).pending_prompts@.owned,
                old(self).pending_prompts@.receipts,
                Target::Session(session),
            ),
            final(self).pending_prompts@ == invalidated(old(self).pending_prompts@, session),
            final(self).background@ == old(self).background@,
            final(self).menus@ == old(self).menus@,
    {
        let cancelled = self.cancel_session_attachments(session);
        self.input_recovery.cancel_session(session);
        let frozen = self.pending_prompts.cards_to_freeze(session);
        let notices = self.pending_prompts.invalidate(session);
        let turn = self.active.remove(session);
        (cancelled, frozen, notices, turn)
    }

    /// A session command succeeded on `session`: the session it leaves the
    /// conversation on (the replacement the agent created, if any, else
    /// `session`), whether `session` was running a turn (the replacement's
    /// binding keeps that state), and the turn the command started, which
    /// becomes the target's active turn.
    pub fn command_succeeded(&mut self, session: &SessionId, replacement: Option<SessionId>, active_turn: Option<&str>) -> (r: (SessionId, bool))
        requires
            old(self).wf(),
        ensures
            final(self).wf(),
            r.0@ == match replacement {
                Some(s) => s@,
                None => session@,
            },
            r.1 == old(self).active@.contains_key(session@),
            final(self).active@ == match active_turn {
                Some(t) => old(self).active@.insert(r.0@, t@),
                None => old(self).active@,
            },
            final(self).same_turn_state(&*old(self)),
            final(self).background@ == old(self).background@,
            final(self).input_recovery@ == old(self).input_recovery@,
            final(self).pending_prompts@ == old(self).pending_prompts@,
            final(self).cleanup@ == old(self).cleanup@,
            final(self).menus@ == old(self).menus@,
    {
        let was_active = self.active.active_turn(session).is_some();
        let target = match replacement {
            Some(s) => s,
            None => session.duplicate(),
        };
        match active_turn {
            Some(t) => {
                self.active.start_turn(&target, t);
            },
            None => {},
        }
        (target, was_active)
    }

    /// A session exited while no conversation is bound to it: its active turn
    /// and every turn's buffer, view, render time and stop button are
    /// dropped. Returns the turn it was running.
    pub fn forget_session_turns(&mut self, session: &SessionId) -> (r: Option<String>)
        requires
            old(self).wf(),
        ensures
            final(self).wf(),
            final(self).active@ == old(self).active@.remove(session@),
            match r {
                Some(t) => old(self).active@.contains_key(session@) && old(self).active@[session@] == t@,
                None => !old(self).active@.contains_key(session@),
            },
            final(self).buffers@ == without(old(self).buffers@, Purge::Session(*session)),
            final(self).views@ == without(old(self).views@, Purge::Session(*session)),
            final(self).last_renders@ == without(old(self).last_renders@, Purge::Session(*session)),
            final(self).stop_actions@ == without(old(self).stop_actions@, Purge::Session(*session)),
            final(self).background@ == old(self).background@,
            final(self).input_recovery@ == old(self).input_recovery@,
            final(self).pending_prompts@ == old(self).pending_prompts@,
            final(self).cleanup@ == old(self).cleanup@,
            final(self).menus@ == old(self).menus@,
    {
        let turn = self.active.remove(session);
        let purge = Purge::Session(session.duplicate());
        self.buffers.purge(&purge);
        self.views.purge(&purge);
        self.last_renders.purge(&purge);
        self.stop_actions.purge(&purge);
        turn
    }

    /// Keep the outcome of an acknowledged prompt on its card: the turn it
    /// started, or its failure, shown with `error_text` (the error as
    /// displayed) and uncertain when delivery is.
    pub fn record_pending_card_outcome(&mut self, acknowledged: &PromptAcknowledged, error_text: &str)
        requires
            old(self).wf(),
        ensures
            final(self).wf(),
            final(self).active@ == old(self).active@,
            final(self).same_turn_state(&*old(self)),
            card_outcome_recorded(old(self).pending_prompts@, final(self).pending_prompts@, acknowledged.id, match acknowledged.result {
                Ok(turn) => Ok(turn@),
                Err(error) => Err((error is Uncertain, error_text@)),
            }),
            final(self).background@ == old(self).background@,
            final(self).input_recovery@ == old(self).input_recovery@,
            final(self).cleanup@ == old(self).cleanup@,
            final(self).menus@ == old(self).menus@,
    {
        match &acknowledged.result {
            Ok(turn) => self.pending_prompts.record_card_outcome(acknowledged.id, Ok(turn.as_str())),
            Err(error) => {
                let uncertain = match error {
                    AgentError::Uncertain(_) => true,
                    _ => false,
                };
                self.pending_prompts.record_card_outcome(acknowledged.id, Err(SendFailure { uncertain, message: error_text }));
            },
        }
    }

    /// The Back and Cancel buttons of directory selection.
    pub fn directory_back_actions() -> (r: [(String, DirectoryAction, ActionStyle); 2])
        ensures
            r[0].0@ == "Back"@,
            r[0].1 is Preview,
            r[0].2 == ActionStyle::Primary,
            r[1].0@ == "Cancel"@,
            r[1].1 is Cancel,
            r[1].2 == ActionStyle::Danger,
    {
        [(owned("Back"), DirectoryAction::Preview, ActionStyle::Primary), (owned("Cancel"), DirectoryAction::Cancel, ActionStyle::Danger)]
    }
}

/// Whether the terminal workspace integration is enabled.
#[derive(Debug)]
pub struct RmuxController {
    enabled: bool,
}

impl RmuxController {
    pub fn new(enabled: bool) -> (r: Self)
        ensures
            r.is_enabled() == enabled,
    {
        RmuxController { enabled }
    }

    pub closed spec fn is_enabled(&self) -> bool {
        self.enabled
    }

    /// The agent's workspace runtime is used only when enabled.
    pub fn runtime_enabled(&self) -> (r: bool)
        ensures
            r == self.is_enabled(),
    {
        self.enabled
    }

    /// The directory new workspaces start in: the runtime's default (given
    /// when the agent has a workspace runtime) when enabled, `~` otherwise.
    pub fn default_directory(&self, runtime_directory: Option<String>) -> (r: String)
        ensures
            r@ == match runtime_directory {
                Some(d) => if self.is_enabled() { d@ } else { "~"@ },
                None => "~"@,
            },
    {
        match runtime_directory {
            Some(d) => if self.enabled { d } else { owned("~") },
            None => owned("~"),
        }
    }
}

} // verus!
