//! The policy that guards session operations before they reach an agent.
use vstd::prelude::*;
use crate::text::{blank, is_blank, owned};

verus! {

/// An operation a session may support.
#[derive(Debug, Clone, Copy, PartialEq, Eq, Structural)]
pub enum SessionCapability {
    Prompt,
    Steer,
    Stop,
}

/// Why an agent operation did not happen.
#[derive(Debug)]
pub enum AgentError {
    Rejected(String),
    Unavailable(String),
    Uncertain(String),
}

/// The capability a send needs: steering a known turn, else a new prompt;
/// a blank prompt is refused.
pub fn send_capability(text: &str, expected_turn: Option<&str>) -> (r: Result<SessionCapability, AgentError>)
    ensures
        blank(text@) ==> (r matches Err(AgentError::Rejected(m)) && m@ == "A nonempty prompt is required"@),
        !blank(text@) ==> r == Ok::<SessionCapability, AgentError>(
            if expected_turn is Some { SessionCapability::Steer } else { SessionCapability::Prompt },
        ),
{
    if is_blank(text) {
        return Err(AgentError::Rejected(owned("A nonempty prompt is required")));
    }
    Ok(if expected_turn.is_some() { SessionCapability::Steer } else { SessionCapability::Prompt })
}

/// A change needs write access and the capability; the refusal says which failed.
pub fn check_access(can_write: bool, supported: bool) -> (r: Result<(), AgentError>)
    ensures
        !can_write ==> (r matches Err(AgentError::Rejected(m)) && m@ == "The original session is unavailable for changes"@),
        can_write && !supported ==> (r matches Err(AgentError::Rejected(m)) && m@ == "Operation is not supported by this session"@),
        can_write && supported ==> r is Ok,
{
    if !can_write {
        return Err(AgentError::Rejected(owned("The original session is unavailable for changes")));
    }
    if !supported {
        return Err(AgentError::Rejected(owned("Operation is not supported by this session")));
    }
    Ok(())
}

/// A session command runs when the session allows the change (as
/// `check_access`) and the agent offers session control.
pub fn command_access(can_write: bool, supported: bool, has_control: bool) -> (r: Result<(), AgentError>)
    ensures
        !can_write ==> (r matches Err(AgentError::Rejected(m)) && m@ == "The original session is unavailable for changes"@),
        can_write && !supported ==> (r matches Err(AgentError::Rejected(m)) && m@ == "Operation is not supported by this session"@),
        can_write && supported && !has_control ==> (r matches Err(AgentError::Rejected(m)) && m@ == "Session commands are unavailable"@),
        can_write && supported && has_control ==> r is Ok,
{
    check_access(can_write, supported)?;
    if !has_control {
        return Err(AgentError::Rejected(owned("Session commands are unavailable")));
    }
    Ok(())
}

} // verus!
