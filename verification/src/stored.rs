//! Names under which turn statuses are stored.
use vstd::prelude::*;
use crate::domain::TurnStatus;
use crate::text::str_eq;

verus! {

pub open spec fn status_name(status: TurnStatus) -> Seq<char> {
    match status {
        TurnStatus::InProgress => "in_progress"@,
        TurnStatus::Completed => "completed"@,
        TurnStatus::Interrupted => "interrupted"@,
        TurnStatus::Failed => "failed"@,
        TurnStatus::Unknown => "unknown"@,
    }
}

pub open spec fn status_named(name: Seq<char>) -> Option<TurnStatus> {
    if name == "in_progress"@ {
        Some(TurnStatus::InProgress)
    } else if name == "completed"@ {
        Some(TurnStatus::Completed)
    } else if name == "interrupted"@ {
        Some(TurnStatus::Interrupted)
    } else if name == "failed"@ {
        Some(TurnStatus::Failed)
    } else if name == "unknown"@ {
        Some(TurnStatus::Unknown)
    } else {
        None
    }
}

pub fn turn_status_name(status: &TurnStatus) -> (r: &'static str)
    ensures
        r@ == status_name(*status),
{
    match status {
        TurnStatus::InProgress => "in_progress",
        TurnStatus::Completed => "completed",
        TurnStatus::Interrupted => "interrupted",
        TurnStatus::Failed => "failed",
        TurnStatus::Unknown => "unknown",
    }
}

pub fn parse_turn_status(status: &str) -> (r: Option<TurnStatus>)
    ensures
        r == status_named(status@),
{
    if str_eq(status, "in_progress") {
        Some(TurnStatus::InProgress)
    } else if str_eq(status, "completed") {
        Some(TurnStatus::Completed)
    } else if str_eq(status, "interrupted") {
        Some(TurnStatus::Interrupted)
    } else if str_eq(status, "failed") {
        Some(TurnStatus::Failed)
    } else if str_eq(status, "unknown") {
        Some(TurnStatus::Unknown)
    } else {
        None
    }
}

/// A stored status reads back as the status that was stored.
pub proof fn status_name_round_trip(status: TurnStatus)
    ensures
        status_named(status_name(status)) == Some(status),
{
    reveal_strlit("in_progress");
    reveal_strlit("completed");
    reveal_strlit("interrupted");
    reveal_strlit("failed");
    reveal_strlit("unknown");
    assert("in_progress"@[0] != "completed"@[0]);
    assert("in_progress"@[0] != "failed"@[0]);
    assert("in_progress"@[0] != "unknown"@[0]);
    assert("completed"@[0] != "interrupted"@[0]);
    assert("completed"@[0] != "failed"@[0]);
    assert("completed"@[0] != "unknown"@[0]);
    assert("interrupted"@[0] != "failed"@[0]);
    assert("interrupted"@[0] != "unknown"@[0]);
    assert("failed"@[0] != "unknown"@[0]);
    assert("in_progress"@[2] != "interrupted"@[2]);
}

} // verus!
