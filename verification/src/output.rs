//! One selection and formatting policy for IM output and job conversations.
use vstd::prelude::*;
use crate::domain::{AgentEvent, ItemModel, ItemSummary};
use crate::text::{append, opt_view, owned, str_eq, trim, trim_end, trimmed, trimmed_end};

verus! {

/// Which process items (reasoning, tool calls) are shown besides answers.
#[derive(Debug, Clone, Copy, Default)]
pub struct OutputConfig {
    pub show_reasoning: bool,
    pub show_tool_calls: bool,
}

/// Kinds whose text is the agent's reasoning.
pub open spec fn reasoning_kind(kind: Seq<char>) -> bool {
    kind == "reasoning"@ || kind == "thinking"@ || kind == "commentary"@
}

/// Kinds that are never shown as process items.
pub open spec fn plain_kind(kind: Seq<char>) -> bool {
    kind == "agentMessage"@ || kind == "userMessage"@ || kind == "plan"@ || kind == "unknown"@
}

pub open spec fn text_or_empty(t: Option<Seq<char>>) -> Seq<char> {
    match t {
        Some(t) => t,
        None => Seq::empty(),
    }
}

/// The process block shown for an item under a configuration, if any.
pub open spec fn process_text_of(config: OutputConfig, item: ItemModel) -> Option<Seq<char>> {
    let reasoning = reasoning_kind(item.kind);
    let text = trim(text_or_empty(item.text));
    if plain_kind(item.kind) || (reasoning && !config.show_reasoning) || (!reasoning && !config.show_tool_calls) {
        None
    } else if reasoning {
        if text.len() == 0 {
            None
        } else {
            Some("**Reasoning**\n\n"@ + text)
        }
    } else {
        let status = match item.status {
            Some(s) => s,
            None => "completed"@,
        };
        Some(trim_end("**Tool call**: "@ + item.kind + " ("@ + status + ")\n\n"@ + text))
    }
}

pub fn is_reasoning_kind(kind: &str) -> (r: bool)
    ensures
        r == reasoning_kind(kind@),
{
    str_eq(kind, "reasoning") || str_eq(kind, "thinking") || str_eq(kind, "commentary")
}

pub fn is_plain_kind(kind: &str) -> (r: bool)
    ensures
        r == plain_kind(kind@),
{
    str_eq(kind, "agentMessage") || str_eq(kind, "userMessage") || str_eq(kind, "plan") || str_eq(
        kind,
        "unknown",
    )
}

impl OutputConfig {
    /// Started items become a visible "in progress" block when their kind is
    /// shown; reasoning start labels name the item type and stay events.
    pub fn project_event(self, event: AgentEvent) -> (r: AgentEvent)
        ensures
            match event {
                AgentEvent::ItemStarted { session_id, turn_id, item_id, kind, label } => {
                    let item = ItemModel {
                        id: item_id@,
                        kind: kind@,
                        text: Some(label@),
                        status: Some("inProgress"@),
                    };
                    if !reasoning_kind(kind@) && process_text_of(self, item) is Some {
                        r matches AgentEvent::ItemCompleted { session_id: s, turn_id: t, item: i }
                            && s@ == session_id@ && t@ == turn_id@ && i@ == item
                    } else {
                        r == event
                    }
                },
                _ => r == event,
            },
    {
        match event {
            AgentEvent::ItemStarted { session_id, turn_id, item_id, kind, label } => {
                if is_reasoning_kind(kind.as_str()) {
                    return AgentEvent::ItemStarted { session_id, turn_id, item_id, kind, label };
                }
                let item = ItemSummary {
                    id: item_id,
                    kind,
                    text: Some(label),
                    status: Some(owned("inProgress")),
                };
                if self.process_text(&item).is_some() {
                    AgentEvent::ItemCompleted { session_id, turn_id, item }
                } else {
                    let ItemSummary { id, kind, text, status } = item;
                    AgentEvent::ItemStarted {
                        session_id,
                        turn_id,
                        item_id: id,
                        kind,
                        label: text.unwrap(),
                    }
                }
            },
            other => other,
        }
    }

    /// The process block of an item: reasoning as `**Reasoning**`, other
    /// kinds as a `**Tool call**` line with their status; `None` when hidden.
    pub fn process_text(self, item: &ItemSummary) -> (r: Option<String>)
        ensures
            opt_view(r) == process_text_of(self, item@),
    {
        let reasoning = is_reasoning_kind(item.kind.as_str());
        if is_plain_kind(item.kind.as_str()) || (reasoning && !self.show_reasoning) || (!reasoning
            && !self.show_tool_calls) {
            return None;
        }
        let text = match &item.text {
            Some(t) => trimmed(t.as_str()),
            None => trimmed(""),
        };
        proof {
            if item.text is None {
                assert(""@ =~= Seq::<char>::empty()) by { reveal_strlit(""); }
            }
        }
        if reasoning {
            if text.as_str().is_empty() {
                return None;
            }
            let mut out = owned("**Reasoning**\n\n");
            append(&mut out, text.as_str());
            return Some(out);
        }
        let mut out = owned("**Tool call**: ");
        append(&mut out, item.kind.as_str());
        append(&mut out, " (");
        match &item.status {
            Some(s) => append(&mut out, s.as_str()),
            None => append(&mut out, "completed"),
        }
        append(&mut out, ")\n\n");
        append(&mut out, text.as_str());
        Some(trimmed_end(out.as_str()))
    }
}


} // verus!
