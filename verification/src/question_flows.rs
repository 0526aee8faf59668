//! Questions an agent asks while its session is not attached wait here,
//! once each, until they are answered or withdrawn; the conversations told
//! about them are remembered so that their notices can be closed. `R` is the
//! request and `M` the channel's reference to a notice it sent.
use vstd::prelude::*;
use crate::domain::{ActionButton, OutboundView, ViewStatus};
use crate::model::{ConversationRef, SessionId};
use crate::text::{append, owned, str_eq};

verus! {

/// A waiting question: its session and request id, the request, and the
/// notices sent about it.
pub struct QueuedQuestion<R, M> {
    pub session: SessionId,
    pub request_id: String,
    pub request: R,
    pub notices: Vec<(M, OutboundView)>,
}

pub open spec fn question_key<R, M>(q: QueuedQuestion<R, M>) -> (Seq<char>, Seq<char>) {
    (q.session@, q.request_id@)
}

pub open spec fn question_keys<R, M>(qs: Seq<QueuedQuestion<R, M>>) -> Seq<(Seq<char>, Seq<char>)> {
    qs.map_values(|q: QueuedQuestion<R, M>| question_key(q))
}

/// The keys of the questions of `session`, in order of arrival.
pub open spec fn keys_of_session(keys: Seq<(Seq<char>, Seq<char>)>, session: Seq<char>) -> Seq<Seq<char>>
    decreases keys.len(),
{
    if keys.len() == 0 {
        Seq::empty()
    } else {
        let rest = keys_of_session(keys.drop_last(), session);
        if keys.last().0 == session { rest.push(keys.last().1) } else { rest }
    }
}

pub struct QuestionQueue<R, M> {
    questions: Vec<QueuedQuestion<R, M>>,
}

impl<R, M> View for QuestionQueue<R, M> {
    type V = Seq<(Seq<char>, Seq<char>)>;

    closed spec fn view(&self) -> Self::V {
        question_keys(self.questions@)
    }
}

/// No question waits twice.
pub open spec fn questions_inv(keys: Seq<(Seq<char>, Seq<char>)>) -> bool {
    forall|i: int, j: int| 0 <= i < keys.len() && 0 <= j < keys.len() && i != j ==> keys[i] != keys[j]
}

impl<R, M> QuestionQueue<R, M> {
    /// The notices sent about each waiting question, in the order of `self@`.
    pub closed spec fn notices(&self) -> Seq<Seq<(M, OutboundView)>> {
        self.questions@.map_values(|q: QueuedQuestion<R, M>| q.notices@)
    }

    /// The request of each waiting question, in the order of `self@`.
    pub closed spec fn requests(&self) -> Seq<R> {
        self.questions@.map_values(|q: QueuedQuestion<R, M>| q.request)
    }

    pub fn new() -> (r: Self)
        ensures
            r@ == Seq::<(Seq<char>, Seq<char>)>::empty(),
    {
        let r = QuestionQueue { questions: Vec::new() };
        assert(r@ =~= Seq::<(Seq<char>, Seq<char>)>::empty());
        r
    }

    fn find(&self, session: &SessionId, request_id: &str) -> (r: Option<usize>)
        ensures
            match r {
                Some(i) => i < self@.len() && self@[i as int] == (session@, request_id@),
                None => !self@.contains((session@, request_id@)),
            },
    {
        let mut i: usize = 0;
        while i < self.questions.len()
            invariant
                i <= self.questions.len(),
                forall|j: int| 0 <= j < i ==> self@[j] != (session@, request_id@),
            decreases self.questions.len() - i,
        {
            assert(self@[i as int] == question_key(self.questions@[i as int]));
            if self.questions[i].session.same(session) && str_eq(self.questions[i].request_id.as_str(), request_id) {
                return Some(i);
            }
            i = i + 1;
        }
        proof {
            if self@.contains((session@, request_id@)) {
                let j = choose|j: int| 0 <= j < self@.len() && self@[j] == (session@, request_id@);
                assert(self@[j] != (session@, request_id@));
            }
        }
        None
    }

    /// A question arrives: it waits unless it already does. Whether it is new.
    pub fn receive(&mut self, session: &SessionId, request_id: &str, request: R) -> (r: bool)
        requires
            questions_inv(old(self)@),
        ensures
            questions_inv(final(self)@),
            r == !old(self)@.contains((session@, request_id@)),
            final(self)@ == if r { old(self)@.push((session@, request_id@)) } else { old(self)@ },
            final(self).requests() == if r { old(self).requests().push(request) } else { old(self).requests() },
            final(self).notices() == if r { old(self).notices().push(Seq::empty()) } else { old(self).notices() },
    {
        if self.find(session, request_id).is_some() {
            return false;
        }
        let ghost before = self@;
        let ghost old_requests = self.requests();
        let ghost old_notices = self.notices();
        let ghost req = request;
        let question = QueuedQuestion {
            session: session.duplicate(),
            request_id: owned(request_id),
            request,
            notices: Vec::new(),
        };
        assert(question.notices@ =~= Seq::<(M, OutboundView)>::empty());
        self.questions.push(question);
        proof {
            assert(self.requests() =~= old_requests.push(req));
            assert(self.notices() =~= old_notices.push(Seq::empty()));
            assert(self@ =~= before.push((session@, request_id@)));
            let ks = self@;
            assert forall|i: int, j: int| 0 <= i < ks.len() && 0 <= j < ks.len() && i != j implies ks[i] != ks[j] by {
                if i < before.len() && j < before.len() {
                    assert(ks[i] == before[i] && ks[j] == before[j]);
                } else if i < before.len() {
                    assert(ks[i] == before[i]);
                    assert(before.contains(before[i]));
                } else {
                    assert(ks[j] == before[j]);
                    assert(before.contains(before[j]));
                }
            }
        }
        true
    }

    /// Remember a notice sent about a waiting question: it is added last to
    /// that question's notices. Nothing changes when no such question waits.
    pub fn add_notice(&mut self, session: &SessionId, request_id: &str, message: M, view: OutboundView)
        requires
            questions_inv(old(self)@),
        ensures
            final(self)@ == old(self)@,
            final(self).requests() == old(self).requests(),
            old(self)@.contains((session@, request_id@)) ==> exists|i: int|
                0 <= i < old(self)@.len() && old(self)@[i] == (session@, request_id@)
                && final(self).notices() == old(self).notices().update(i, old(self).notices()[i].push((message, view))),
            !old(self)@.contains((session@, request_id@)) ==> final(self).notices() == old(self).notices(),
    {
        match self.find(session, request_id) {
            Some(i) => {
                let ghost before = self.questions@;
                let ghost old_notices = self.notices();
                let ghost old_requests = self.requests();
                let mut question = self.questions.remove(i);
                assert(question == before[i as int]);
                question.notices.push((message, view));
                self.questions.insert(i, question);
                assert(self.questions@ =~= before.update(i as int, question));
                assert(self@ =~= question_keys(before));
                assert(self.requests() =~= old_requests);
                assert(self.notices() =~= old_notices.update(i as int, old_notices[i as int].push((message, view))));
                assert(self@[i as int] == (session@, request_id@));
            },
            None => {},
        }
    }

    /// The request ids of `session`'s waiting questions, in order of arrival.
    pub fn of_session(&self, session: &SessionId) -> (r: Vec<String>)
        ensures
            r@.map_values(|s: String| s@) == keys_of_session(self@, session@),
    {
        let mut r: Vec<String> = Vec::new();
        let mut i: usize = 0;
        while i < self.questions.len()
            invariant
                i <= self.questions.len(),
                r@.map_values(|s: String| s@) == keys_of_session(self@.take(i as int), session@),
            decreases self.questions.len() - i,
        {
            proof {
                assert(self@.take(i + 1).drop_last() =~= self@.take(i as int));
                assert(self@.take(i + 1).last() == question_key(self.questions@[i as int]));
            }
            let ghost before = r@.map_values(|s: String| s@);
            if self.questions[i].session.same(session) {
                r.push(owned(self.questions[i].request_id.as_str()));
                assert(r@.map_values(|s: String| s@) =~= before.push(self.questions@[i as int].request_id@));
            }
            i = i + 1;
        }
        assert(self@.take(i as int) =~= self@);
        r
    }

    /// A question was answered or withdrawn: it stops waiting, and its
    /// notices are returned to be closed.
    pub fn finish(&mut self, session: &SessionId, request_id: &str) -> (r: Option<QueuedQuestion<R, M>>)
        requires
            questions_inv(old(self)@),
        ensures
            questions_inv(final(self)@),
            !final(self)@.contains((session@, request_id@)),
            match r {
                Some(q) => question_key(q) == (session@, request_id@) && exists|i: int|
                    0 <= i < old(self)@.len() && old(self)@[i] == (session@, request_id@)
                    && final(self)@ == old(self)@.remove(i)
                    && q.request == old(self).requests()[i]
                    && q.notices@ == old(self).notices()[i]
                    && final(self).requests() == old(self).requests().remove(i)
                    && final(self).notices() == old(self).notices().remove(i),
                None => !old(self)@.contains((session@, request_id@)) && final(self)@ == old(self)@
                    && final(self).requests() == old(self).requests() && final(self).notices() == old(self).notices(),
            },
    {
        match self.find(session, request_id) {
            Some(i) => {
                let ghost before = self@;
                let ghost qs = self.questions@;
                let ghost old_requests = self.requests();
                let ghost old_notices = self.notices();
                let question = self.questions.remove(i);
                proof {
                    assert(question == qs[i as int]);
                    assert(self.requests() =~= old_requests.remove(i as int));
                    assert(self.notices() =~= old_notices.remove(i as int));
                    assert(self.questions@ =~= qs.remove(i as int));
                    assert(self@ =~= before.remove(i as int));
                    assert(question_key(question) == before[i as int]);
                    let ks = self@;
                    assert forall|a: int, b: int| 0 <= a < ks.len() && 0 <= b < ks.len() && a != b implies ks[a] != ks[b] by {
                        let a0 = if a < i { a } else { a + 1 };
                        let b0 = if b < i { b } else { b + 1 };
                        assert(ks[a] == before[a0] && ks[b] == before[b0]);
                    }
                    if ks.contains((session@, request_id@)) {
                        let k = choose|k: int| 0 <= k < ks.len() && ks[k] == (session@, request_id@);
                        let k0 = if k < i { k } else { k + 1 };
                        assert(ks[k] == before[k0]);
                    }
                }
                Some(question)
            },
            None => None,
        }
    }
}

/// The notice a conversation gets about a question of an unattached
/// session: a plain text view (title, body), waiting, with an Attach button.
pub fn question_waiting_notice(agent_name: &str, session_label: &str) -> (r: (String, String))
    ensures
        r.0@ == agent_name@ + " · "@ + session_label@,
        r.1@ == "This session is waiting for your answer. Attach to view and answer the question."@,
{
    let mut title = owned(agent_name);
    append(&mut title, " · ");
    append(&mut title, session_label);
    (title, owned("This session is waiting for your answer. Attach to view and answer the question."))
}

/// A question notice once the question stopped waiting: no buttons, muted,
/// saying so.
pub fn closed_question_notice(view: OutboundView) -> (r: OutboundView)
    ensures
        r.title == view.title,
        r.subtitle == view.subtitle,
        r.sections == view.sections,
        r.body@ == "This question is no longer waiting for an answer."@,
        r.status == ViewStatus::Muted,
        r.actions@.len() == 0,
{
    let actions: Vec<ActionButton> = Vec::new();
    OutboundView {
        sections: view.sections,
        title: view.title,
        subtitle: view.subtitle,
        body: owned("This question is no longer waiting for an answer."),
        status: ViewStatus::Muted,
        actions,
    }
}

/// Where a newly queued question goes.
#[derive(Debug)]
pub enum QuestionRoute {
    /// Show it, with its controls, in the conversation bound to its session.
    Show(ConversationRef),
    /// Tell the owners' conversations that the session waits, offering only
    /// to attach.
    NotifyOwners,
    /// Keep it until its session is attached.
    Hold,
}

pub open spec fn same_conversation(a: ConversationRef, b: ConversationRef) -> bool {
    a.channel == b.channel && a.conversation_id@ == b.conversation_id@
}

/// `shown` is the route of a question whose session is bound to `bound`.
pub open spec fn question_routed(bound: Option<ConversationRef>, background_notifications: bool, shown: QuestionRoute) -> bool {
    match bound {
        Some(c) => shown matches QuestionRoute::Show(d) && same_conversation(d, c),
        None => if background_notifications { shown is NotifyOwners } else { shown is Hold },
    }
}

/// The route of a question whose session is bound to `bound`, if to any;
/// owners are told only when background notifications are on.
pub fn route_question(bound: Option<&ConversationRef>, background_notifications: bool) -> (r: QuestionRoute)
    ensures
        question_routed(match bound {
            Some(c) => Some(*c),
            None => None,
        }, background_notifications, r),
{
    match bound {
        Some(c) => QuestionRoute::Show(ConversationRef::new(c.channel, c.conversation_id.as_str())),
        None => if background_notifications { QuestionRoute::NotifyOwners } else { QuestionRoute::Hold },
    }
}

/// What showing a queued question in a newly attached conversation does.
#[derive(Debug, PartialEq, Eq)]
pub enum QueuedQuestionStep {
    /// Its controls are already in this conversation: issue them again.
    Reissue,
    /// It is shown elsewhere: resolve it there, then render it here.
    ResolveElsewhereThenRender,
    /// It is shown nowhere: render it here.
    Render,
}

pub open spec fn queued_step_model(existing: Option<(ConversationRef, bool)>, conversation: ConversationRef) -> QueuedQuestionStep {
    match existing {
        Some((c, has_actions)) => if same_conversation(c, conversation) && has_actions {
            QueuedQuestionStep::Reissue
        } else {
            QueuedQuestionStep::ResolveElsewhereThenRender
        },
        None => QueuedQuestionStep::Render,
    }
}

/// The step for a queued question in `conversation`, given where it is
/// shown already (`existing`: that conversation, and whether its view still
/// has actions).
pub fn queued_question_step(existing: Option<(&ConversationRef, bool)>, conversation: &ConversationRef) -> (r: QueuedQuestionStep)
    ensures
        r == queued_step_model(match existing {
            Some((c, a)) => Some((*c, a)),
            None => None,
        }, *conversation),
{
    match existing {
        Some((c, has_actions)) => if c.same(conversation) && has_actions {
            QueuedQuestionStep::Reissue
        } else {
            QueuedQuestionStep::ResolveElsewhereThenRender
        },
        None => QueuedQuestionStep::Render,
    }
}

/// A question is actionable only in the conversation attached to its
/// session: it is shown with controls there and nowhere else, and controls
/// left in another conversation are resolved before it is shown anew.
pub proof fn questions_are_actionable_only_where_attached(
    bound: Option<ConversationRef>,
    background_notifications: bool,
    shown: QuestionRoute,
    existing: Option<(ConversationRef, bool)>,
    conversation: ConversationRef,
    step: QueuedQuestionStep,
)
    requires
        question_routed(bound, background_notifications, shown),
        step == queued_step_model(existing, conversation),
    ensures
        shown matches QuestionRoute::Show(d) ==> (bound matches Some(c) && same_conversation(d, c)),
        (existing matches Some((c, _)) && !same_conversation(c, conversation)) ==> step == QueuedQuestionStep::ResolveElsewhereThenRender,
{
}

} // verus!
