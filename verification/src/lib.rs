//! Core state and presentation logic of an agent/IM bridge.
pub mod text;
pub mod model;
pub mod overlap;
pub mod domain;
pub mod output;
pub mod ids;
pub mod attachment_history;
pub mod turn_buffer;
pub mod stored;
pub mod presentation;
pub mod menu;
pub mod json;
pub mod interaction;
pub mod multiplexer;
pub mod browse;
pub mod background;
pub mod input_recovery;
pub mod pending_prompts;
pub mod engine;
pub mod session;
pub mod subscription_cleanup;
pub mod turn_flows;
pub mod interaction_flows;
pub mod session_flows;
pub mod startup;
pub mod workspace_directories;
pub mod workspace_flows;
pub mod background_notices;
pub mod render_throttle;
pub mod question_flows;
pub mod task_board;
pub mod active_turns;
pub mod dispatch;
pub mod card_writes;
pub mod turn_state;
