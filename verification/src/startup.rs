//! What conversations are told when the bridge comes back online and when
//! it shuts down.
use vstd::prelude::*;
use crate::domain::{OutboundView, ViewStatus};
use crate::session_flows::plain_view;
use crate::text::{append, owned};
use crate::domain::{ActionButton, ViewSection};
use crate::model::SessionId;

verus! {

/// What became of a saved binding at startup.
#[derive(Debug, Clone, Copy, PartialEq, Eq, Structural)]
pub enum RestoredBindingStatus {
    /// The session runs and is attached again.
    Attached,
    /// The agent is unreachable; the binding waits for it.
    Offline,
    /// The session no longer runs; the conversation stays detached.
    Detached,
}

fn serve_view(subtitle: &str, head: &str, agent_name: &str, middle: &str, session_label: &str, tail: &str, status: ViewStatus) -> (r: OutboundView)
    ensures
        plain_view(
            r,
            "Agentix serve"@,
            Some(subtitle@),
            head@ + agent_name@ + middle@ + session_label@ + tail@,
            status,
        ),
{
    let mut body = owned(head);
    append(&mut body, agent_name);
    append(&mut body, middle);
    append(&mut body, session_label);
    append(&mut body, tail);
    let sections: Vec<ViewSection> = Vec::new();
    let actions: Vec<ActionButton> = Vec::new();
    OutboundView {
        sections,
        title: owned("Agentix serve"),
        subtitle: Some(owned(subtitle)),
        body,
        status,
        actions,
    }
}

/// Whether `v` is the notice a restored conversation gets, naming
/// `agent_name`'s session `session_label`.
pub open spec fn restored_notice(v: OutboundView, status: RestoredBindingStatus, agent_name: Seq<char>, session_label: Seq<char>) -> bool {
    match status {
        RestoredBindingStatus::Offline => plain_view(
            v,
            "Agentix serve"@,
            Some("Online · Waiting for agent"@),
            "Agentix serve is online. Saved "@ + agent_name + " session "@ + session_label
                + " is temporarily unavailable. Its binding is retained while waiting for the agent to reconnect."@,
            ViewStatus::Warning,
        ),
        RestoredBindingStatus::Attached => plain_view(
            v,
            "Agentix serve"@,
            Some("Online · Reattached"@),
            "Agentix serve is online. Reattached to "@ + agent_name + " session "@ + session_label + "."@,
            ViewStatus::Success,
        ),
        RestoredBindingStatus::Detached => plain_view(
            v,
            "Agentix serve"@,
            Some("Online · Detached"@),
            "Agentix serve is online. Saved "@ + agent_name + " session "@ + session_label
                + " is no longer running, so this IM conversation remains detached."@,
            ViewStatus::Warning,
        ),
    }
}

/// The notice a restored conversation gets, naming `agent_name`'s session
/// `session_label`.
pub fn restored_binding_view(status: RestoredBindingStatus, agent_name: &str, session_label: &str) -> (r: OutboundView)
    ensures
        restored_notice(r, status, agent_name@, session_label@),
{
    match status {
        RestoredBindingStatus::Offline => serve_view(
            "Online · Waiting for agent",
            "Agentix serve is online. Saved ",
            agent_name,
            " session ",
            session_label,
            " is temporarily unavailable. Its binding is retained while waiting for the agent to reconnect.",
            ViewStatus::Warning,
        ),
        RestoredBindingStatus::Attached => serve_view(
            "Online · Reattached",
            "Agentix serve is online. Reattached to ",
            agent_name,
            " session ",
            session_label,
            ".",
            ViewStatus::Success,
        ),
        RestoredBindingStatus::Detached => serve_view(
            "Online · Detached",
            "Agentix serve is online. Saved ",
            agent_name,
            " session ",
            session_label,
            " is no longer running, so this IM conversation remains detached.",
            ViewStatus::Warning,
        ),
    }
}

/// How far the announcement of a restored binding has come. Each step is
/// taken only while the conversation's binding epoch is still the one saved
/// with the binding; the runtime reads the epoch afresh before each.
#[derive(Debug, Clone, Copy, PartialEq, Eq, Structural)]
pub enum RestoreStage {
    /// Nothing done yet.
    Start,
    /// The session's label is known (and, when attached, its summary cached).
    Labelled,
    /// The command menu was set for the restored binding.
    MenuUpdated,
}

/// What the runtime does next for a restored binding.
#[derive(Debug)]
pub enum RestoreAction {
    /// The binding changed meanwhile: nothing more is done for it.
    Skip,
    /// Cache the attached session's summary, then look up its label.
    CacheSummary,
    /// Look up the session's label.
    FetchLabel,
    /// Set the command menu, for an attached conversation or not.
    UpdateMenu { attached: bool },
    /// The binding changed while the menu was set, which may have overwritten
    /// the newer binding's menu: set it again from the current attachment.
    RefreshMenu,
    /// Send this notice; a failed send is only logged.
    Notify(OutboundView),
}

pub open spec fn restore_action_ok(
    r: RestoreAction,
    stage: RestoreStage,
    status: RestoredBindingStatus,
    saved_epoch: u64,
    epoch_now: u64,
    agent_name: Seq<char>,
    session_label: Seq<char>,
) -> bool {
    if saved_epoch != epoch_now {
        match stage {
            RestoreStage::MenuUpdated => r is RefreshMenu,
            _ => r is Skip,
        }
    } else {
        match stage {
            RestoreStage::Start => if status == RestoredBindingStatus::Attached { r is CacheSummary } else { r is FetchLabel },
            RestoreStage::Labelled => r == RestoreAction::UpdateMenu { attached: status != RestoredBindingStatus::Detached },
            RestoreStage::MenuUpdated => r matches RestoreAction::Notify(v) && restored_notice(v, status, agent_name, session_label),
        }
    }
}

/// The next step of announcing a restored binding saved with `saved_epoch`,
/// now that the conversation's epoch is `epoch_now`.
pub fn restored_binding_step(
    stage: RestoreStage,
    status: RestoredBindingStatus,
    saved_epoch: u64,
    epoch_now: u64,
    agent_name: &str,
    session_label: &str,
) -> (r: RestoreAction)
    ensures
        restore_action_ok(r, stage, status, saved_epoch, epoch_now, agent_name@, session_label@),
{
    if saved_epoch != epoch_now {
        return match stage {
            RestoreStage::MenuUpdated => RestoreAction::RefreshMenu,
            _ => RestoreAction::Skip,
        };
    }
    match stage {
        RestoreStage::Start => match status {
            RestoredBindingStatus::Attached => RestoreAction::CacheSummary,
            _ => RestoreAction::FetchLabel,
        },
        RestoreStage::Labelled => RestoreAction::UpdateMenu {
            attached: match status {
                RestoredBindingStatus::Detached => false,
                _ => true,
            },
        },
        RestoreStage::MenuUpdated => RestoreAction::Notify(restored_binding_view(status, agent_name, session_label)),
    }
}

/// The notice a restored binding gets once its menu is set: none when the
/// conversation's epoch moved from the one saved with the binding.
pub fn restored_binding_notice(
    status: RestoredBindingStatus,
    saved_epoch: u64,
    epoch_now: u64,
    agent_name: &str,
    session_label: &str,
) -> (r: Option<OutboundView>)
    ensures
        saved_epoch != epoch_now ==> r is None,
        saved_epoch == epoch_now ==> (r matches Some(v) && restored_notice(v, status, agent_name@, session_label@)),
{
    match restored_binding_step(RestoreStage::MenuUpdated, status, saved_epoch, epoch_now, agent_name, session_label) {
        RestoreAction::Notify(v) => Some(v),
        _ => None,
    }
}

/// Whether a restored turn is rendered again: only while the conversation's
/// epoch is the one saved with it, the conversation is still bound to the
/// turn's session, and the turn's buffer was restored.
pub fn restored_turn_renders(saved_epoch: u64, epoch_now: u64, current: Option<&SessionId>, session: &SessionId, buffered: bool) -> (r: bool)
    ensures
        r == (saved_epoch == epoch_now && (current matches Some(c) && c@ == session@) && buffered),
{
    saved_epoch == epoch_now && match current {
        Some(c) => c.same(session),
        None => false,
    } && buffered
}

/// A binding whose epoch moved since it was saved is never announced, at
/// whatever step the move is seen.
pub proof fn moved_bindings_are_not_announced(
    r: RestoreAction,
    stage: RestoreStage,
    status: RestoredBindingStatus,
    saved_epoch: u64,
    epoch_now: u64,
    agent_name: Seq<char>,
    session_label: Seq<char>,
)
    requires
        restore_action_ok(r, stage, status, saved_epoch, epoch_now, agent_name, session_label),
        saved_epoch != epoch_now,
    ensures
        !(r is Notify),
        !(r is UpdateMenu),
{
}

/// The notice a bound conversation gets when the bridge shuts down.
pub fn offline_view(agent_name: &str, session_label: &str) -> (r: OutboundView)
    ensures
        plain_view(
            r,
            "Agentix serve"@,
            Some("Offline · Detached"@),
            "Saved "@ + agent_name@ + " session "@ + session_label@
                + " for automatic reattachment. This IM conversation is detached while Agentix serve is offline."@,
            ViewStatus::Warning,
        ),
{
    serve_view(
        "Offline · Detached",
        "Saved ",
        agent_name,
        " session ",
        session_label,
        " for automatic reattachment. This IM conversation is detached while Agentix serve is offline.",
        ViewStatus::Warning,
    )
}

} // verus!
