//! The cards that agent requests for approval or input are shown on, and
//! their buttons. The runtime issues the action tokens behind the buttons.
use vstd::prelude::*;
use crate::domain::{ActionButton, ActionStyle, DeliveryClass, OutboundView, ViewSection, ViewStatus};
use crate::interaction::{InputOption, InputProgress, InputQuestion, input_progress_body, progress_body};
use crate::presentation::{decision_label, decision_label_of};
use crate::model::SessionId;
use crate::text::{append, chars_of, opt_view, owned, str_eq};

verus! {

/// Whether a decision allows what the agent asked for.
pub open spec fn allows(decision: Seq<char>) -> bool {
    decision == "accept"@ || decision == "acceptForSession"@
}

fn is_allowing(decision: &str) -> (r: bool)
    ensures
        r == allows(decision@),
{
    str_eq(decision, "accept") || str_eq(decision, "acceptForSession")
}

/// The style of an approval decision's button: allowing is the primary
/// choice and declining the dangerous one.
pub fn decision_style(decision: &str) -> (r: ActionStyle)
    ensures
        r == (if allows(decision@) {
            ActionStyle::Primary
        } else if decision@ == "decline"@ {
            ActionStyle::Danger
        } else {
            ActionStyle::Default
        }),
{
    if is_allowing(decision) {
        ActionStyle::Primary
    } else if str_eq(decision, "decline") {
        ActionStyle::Danger
    } else {
        ActionStyle::Default
    }
}

/// A request that has just been asked: nothing answered, the first question
/// current.
pub fn start_input(questions: Vec<InputQuestion>) -> (r: InputProgress)
    ensures
        r.questions@ == questions@,
        r.answers@.len() == questions@.len(),
        forall|i: int| 0 <= i < r.answers@.len() ==> r.answers@[i] is None,
        r.current == 0,
{
    let mut answers: Vec<Option<String>> = Vec::new();
    let mut i: usize = 0;
    while i < questions.len()
        invariant
            i <= questions.len(),
            answers@.len() == i,
            forall|k: int| 0 <= k < answers@.len() ==> answers@[k] is None,
        decreases questions.len() - i,
    {
        answers.push(None);
        i = i + 1;
    }
    InputProgress { questions, answers, current: 0 }
}

/// The buttons of the question being asked: each option, then a free answer
/// ("Other…", or "Answer…" for a question without options). None once no
/// question is being asked.
pub open spec fn input_buttons_of(p: InputProgress) -> Seq<(Seq<char>, ActionStyle)> {
    if p.current < p.questions@.len() {
        let q = p.questions@[p.current as int];
        q.options@.map_values(|o: InputOption| (o.label@, ActionStyle::Primary)).push(
            (if q.options@.len() == 0 { "Answer…"@ } else { "Other…"@ }, ActionStyle::Default),
        )
    } else {
        Seq::empty()
    }
}

pub fn input_buttons(progress: &InputProgress) -> (r: Vec<(String, ActionStyle)>)
    ensures
        r@.map_values(|b: (String, ActionStyle)| (b.0@, b.1)) == input_buttons_of(*progress),
{
    let mut r: Vec<(String, ActionStyle)> = Vec::new();
    if progress.current >= progress.questions.len() {
        assert(r@.map_values(|b: (String, ActionStyle)| (b.0@, b.1)) =~= Seq::<(Seq<char>, ActionStyle)>::empty());
        return r;
    }
    let question = &progress.questions[progress.current];
    let ghost shown = question.options@.map_values(|o: InputOption| (o.label@, ActionStyle::Primary));
    let mut i: usize = 0;
    while i < question.options.len()
        invariant
            i <= question.options.len(),
            shown == question.options@.map_values(|o: InputOption| (o.label@, ActionStyle::Primary)),
            r@.map_values(|b: (String, ActionStyle)| (b.0@, b.1)) == shown.take(i as int),
        decreases question.options.len() - i,
    {
        let ghost before = r@.map_values(|b: (String, ActionStyle)| (b.0@, b.1));
        r.push((owned(question.options[i].label.as_str()), ActionStyle::Primary));
        proof {
            assert(shown[i as int] == (question.options@[i as int].label@, ActionStyle::Primary));
            assert(r@.map_values(|b: (String, ActionStyle)| (b.0@, b.1)) =~= before.push(shown[i as int]));
            assert(shown.take(i + 1) =~= shown.take(i as int).push(shown[i as int]));
        }
        i = i + 1;
    }
    let free = if question.options.len() == 0 { "Answer…" } else { "Other…" };
    r.push((owned(free), ActionStyle::Default));
    proof {
        assert(shown.take(i as int) =~= shown);
        assert(r@.map_values(|b: (String, ActionStyle)| (b.0@, b.1)) =~= input_buttons_of(*progress));
    }
    r
}

/// The body of an approval card once a decision is taken: the choice shown
/// under the request.
pub open spec fn resolved_body(body: Seq<char>, decision: Seq<char>) -> Seq<char> {
    (if body.len() == 0 { Seq::empty() } else { body + "\n\n"@ }) + "**Selected:** "@ + decision_label_of(decision)
}

/// An approval card once a decision is taken: its new body, and a success
/// when the request was allowed, a warning otherwise.
pub fn approval_resolution(body: &str, decision: &str) -> (r: (String, ViewStatus))
    ensures
        r.0@ == resolved_body(body@, decision@),
        r.1 == (if allows(decision@) { ViewStatus::Success } else { ViewStatus::Warning }),
{
    let label = decision_label(decision);
    let mut text = owned(body);
    if chars_of(body).len() > 0 {
        append(&mut text, "\n\n");
    } else {
        assert(text@ =~= Seq::<char>::empty());
    }
    append(&mut text, "**Selected:** ");
    append(&mut text, label.as_str());
    assert(text@ =~= resolved_body(body@, decision@));
    let status = if is_allowing(decision) { ViewStatus::Success } else { ViewStatus::Warning };
    (text, status)
}

/// The subtitle of an interaction card: its turn, and whether its session is
/// the conversation's current one.
pub open spec fn interaction_subtitle(turn_id: Seq<char>, delivery: DeliveryClass) -> Seq<char> {
    "Turn "@ + turn_id + " · "@ + if delivery == DeliveryClass::Live { "current session"@ } else { "background session"@ }
}

/// The card of a new request: `title · session`, the turn, and the
/// questions asked (when `progress` is given) or the request's detail; it
/// waits for an answer with the given buttons.
pub fn interaction_view(
    title: &str,
    detail: &str,
    session_label: &str,
    turn_id: &str,
    delivery: DeliveryClass,
    progress: Option<&InputProgress>,
    actions: Vec<ActionButton>,
) -> (r: OutboundView)
    requires
        progress matches Some(p) ==> p.current < usize::MAX && p.questions.len() < u64::MAX,
    ensures
        r.title@ == title@ + " · "@ + session_label@,
        r.subtitle matches Some(s) && s@ == interaction_subtitle(turn_id@, delivery),
        r.body@ == match progress {
            Some(p) => progress_body(*p, false),
            None => detail@,
        },
        r.status == ViewStatus::Waiting,
        r.actions@ == actions@,
        r.sections@.len() == 0,
{
    let mut heading = owned(title);
    append(&mut heading, " · ");
    append(&mut heading, session_label);
    let mut subtitle = owned("Turn ");
    append(&mut subtitle, turn_id);
    append(&mut subtitle, " · ");
    match delivery {
        DeliveryClass::Live => append(&mut subtitle, "current session"),
        DeliveryClass::Draining => append(&mut subtitle, "background session"),
    }
    let body = match progress {
        Some(p) => input_progress_body(p, false),
        None => owned(detail),
    };
    let sections: Vec<ViewSection> = Vec::new();
    OutboundView { sections, title: heading, subtitle: Some(subtitle), body, status: ViewStatus::Waiting, actions }
}

/// What an action asks of its conversation before it runs, besides a valid
/// token.
#[derive(Debug)]
pub enum ActionRequirement {
    /// Nothing more.
    Nothing,
    /// A queue control of this session, which must be the attached one.
    QueueSession(SessionId),
    /// A session command of this session, which must be the attached one.
    CommandSession(SessionId),
    /// A terminal action issued for this agent backend (by name), which must
    /// still be the conversation's backend.
    Backend(Option<String>),
}

/// Whether an action runs.
#[derive(Debug, Clone, Copy, PartialEq, Eq, Structural)]
pub enum ActionCheck {
    Allowed,
    /// No session is attached.
    NotAttached,
    /// The action no longer fits the conversation.
    Invalid,
}

/// The check of an action against the conversation's attached session
/// `current` and its terminal backend `backend`.
pub fn check_action(requirement: &ActionRequirement, current: Option<&SessionId>, backend: Option<&str>) -> (r: ActionCheck)
    ensures
        r == match requirement {
            ActionRequirement::Nothing => ActionCheck::Allowed,
            ActionRequirement::QueueSession(s) => match current {
                Some(c) => if c@ == s@ { ActionCheck::Allowed } else { ActionCheck::Invalid },
                None => ActionCheck::Invalid,
            },
            ActionRequirement::CommandSession(s) => match current {
                Some(c) => if c@ == s@ { ActionCheck::Allowed } else { ActionCheck::Invalid },
                None => ActionCheck::NotAttached,
            },
            ActionRequirement::Backend(b) => if opt_view(*b) == (match backend {
                Some(x) => Some(x@),
                None => None::<Seq<char>>,
            }) {
                ActionCheck::Allowed
            } else {
                ActionCheck::Invalid
            },
        },
{
    match requirement {
        ActionRequirement::Nothing => ActionCheck::Allowed,
        ActionRequirement::QueueSession(s) => match current {
            Some(c) => if c.same(s) { ActionCheck::Allowed } else { ActionCheck::Invalid },
            None => ActionCheck::Invalid,
        },
        ActionRequirement::CommandSession(s) => match current {
            Some(c) => if c.same(s) { ActionCheck::Allowed } else { ActionCheck::Invalid },
            None => ActionCheck::NotAttached,
        },
        ActionRequirement::Backend(b) => {
            let same = match (b, backend) {
                (Some(x), Some(y)) => str_eq(x.as_str(), y),
                (None, None) => true,
                _ => false,
            };
            if same { ActionCheck::Allowed } else { ActionCheck::Invalid }
        },
    }
}

} // verus!
