# agentix_core

The core of a bridge between coding agents and instant-messaging channels:
the state that decides what a conversation is shown about its attached agent
session, and which work is admitted, queued, cancelled or discarded. The
functions under `src/` are verified with Verus against the contracts they
state, except two trusted wrappers over std whose contracts Verus takes as
given: `text::push_char` (`String::push`) and `multiplexer::strip_path_prefix`
(`Path::strip_prefix`, whose displayed result is named `path_below`). The
runtime (channels, agents, storage, timers) stays outside and hands the
library plain values.

Layout:

- `src/` — the verified library.
  - Text and identifiers: `text`, `ids`, `model`, `domain`, `json`.
  - Turn content: `overlap` (merging streamed text), `attachment_history`,
    `turn_buffer`, `output`, `presentation`, `stored`.
  - Admission state: `background`, `input_recovery`, `pending_prompts`,
    `subscription_cleanup`, `menu`, `background_notices`, `render_throttle`,
    `question_flows`, `active_turns`, `turn_state` (per-turn tables),
    `engine` (which holds them together).
  - Task boards: `task_board` (ordering and paging of plain task records).
  - Runtime coordination: `dispatch` (the resources each unit of work
    reserves) and `card_writes` (revisions of each card, and the messages
    that show it).
  - Screens and decisions: `session`, `session_flows`, `turn_flows`,
    `interaction`, `interaction_flows`, `multiplexer`, `workspace_flows`,
    `workspace_directories`, `browse`, `startup`.
- `tests/` — tests run against the compiled library.
- `app/` — the parts that need outside traits: serde copies of the wire
  types, JSON conversion, and the session operations over an agent.
