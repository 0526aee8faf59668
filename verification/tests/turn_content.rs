use agentix_core::attachment_history::AttachmentHistory;
use agentix_core::domain::{AgentEvent, HistoryPage, ItemSummary, TurnStatus, TurnSummary};
use agentix_core::output::OutputConfig;
use agentix_core::overlap::merge_delta;
use agentix_core::turn_buffer::TurnBuffer;
use agentix_core::background_notices::BackgroundNotices;
use agentix_core::model::{ChannelKind, ConversationRef, SessionId};

#[test]
fn attachment_history_merges_partial_summary_and_later_input() {
    let mut observed = AttachmentHistory::default();
    observed.observe(&AgentEvent::AgentMessageDelta {
        session_id: "s".into(),
        turn_id: "t".into(),
        item_id: "answer".into(),
        delta: " world".into(),
    });
    observed.observe(&AgentEvent::UserMessage {
        session_id: "s".into(),
        turn_id: "t".into(),
        item_id: "user2".into(),
        text: "second question".into(),
    });
    let mut page = HistoryPage {
        turns: vec![TurnSummary {
            id: "t".into(),
            status: TurnStatus::InProgress,
            user_text: Some("first question".into()),
            agent_text: Some("hello".into()),
            tools: vec![],
            items: vec![],
        }],
        older_cursor: None,
        newer_cursor: None,
    };
    observed.merge(&mut page);
    let buffer = TurnBuffer::from_summary(&page.turns[0], OutputConfig::default(), 0);
    assert_eq!(buffer.agent_text, "hello world");
    assert_eq!(buffer.user_text, "first question\n\nsecond question");
}

#[test]
fn attachment_history_merges_overlapping_utf8_deltas_once() {
    for (snapshot, delta, expected) in [
        ("你好", "好世界", "你好世界"),
        ("hello world", " world", "hello world"),
        ("hello", "hello world", "hello world"),
        ("hello wor", " world", "hello world"),
    ] {
        assert_eq!(merge_delta(snapshot, delta), expected);
    }
}

#[test]
fn reasoning_started_labels_are_not_projected_as_content() {
    let config = OutputConfig {
        show_reasoning: true,
        show_tool_calls: true,
    };
    for kind in ["reasoning", "thinking"] {
        let event = AgentEvent::ItemStarted {
            session_id: "s".into(),
            turn_id: "t".into(),
            item_id: "r".into(),
            kind: kind.into(),
            label: kind.into(),
        };
        assert!(matches!(
            config.project_event(event),
            AgentEvent::ItemStarted { .. }
        ));
    }
}

#[test]
fn structured_output_preserves_process_blocks_after_agent_output() {
    let mut buffer = TurnBuffer::default();
    for (id, text, process) in [
        ("r1", "**Reasoning**\n\nFirst", true),
        ("a1", "Progress", false),
        ("r2", "**Reasoning**\n\nNext", true),
        ("t1", "**Tool call**: commandExecution", true),
        ("a2", "Done", false),
    ] {
        buffer.record_output(Some(id), text, process, false);
    }
    let sections = buffer.view_sections("Test");
    assert_eq!(
        sections
            .iter()
            .map(|s| s.title.as_str())
            .collect::<Vec<_>>(),
        [
            "🧠 Reasoning",
            "🤖 Test",
            "🧠 Reasoning",
            "🔨 Tool Call",
            "🤖 Test"
        ]
    );
    assert_eq!(sections[1].body, "Progress");
    assert_eq!(sections[4].body, "Done");
}

#[test]
fn summary_only_history_adopts_the_first_completed_output_id_without_duplication() {
    let mut buffer = TurnBuffer::from_summary(
        &TurnSummary {
            id: "legacy".into(),
            status: TurnStatus::InProgress,
            user_text: Some("Question".into()),
            agent_text: Some("Partial answer".into()),
            tools: vec![],
            items: vec![],
        },
        OutputConfig::default(),
        0,
    );
    buffer.record_output(Some("answer"), "Complete answer", false, false);
    assert_eq!(buffer.agent_text, "Complete answer");
    assert_eq!(buffer.view_sections("Test")[1].body, "Complete answer");
}

#[test]
fn history_preserves_aggregate_user_input_and_aggregates_items_when_missing() {
    for summary in [Some("First\n\nSecond"), None] {
        let turn = TurnSummary {
            id: "turn".into(),
            status: TurnStatus::Completed,
            user_text: summary.map(str::to_owned),
            agent_text: Some("Answer".into()),
            tools: vec![],
            items: [("u1", "First"), ("u2", "Second")]
                .into_iter()
                .map(|(id, text)| ItemSummary {
                    id: id.into(),
                    kind: "userMessage".into(),
                    text: Some(text.into()),
                    status: None,
                })
                .collect(),
        };
        let buffer = TurnBuffer::from_summary(&turn, OutputConfig::default(), 0);
        assert_eq!(buffer.user_text, "First\n\nSecond");
    }
}

#[test]
fn history_merge_is_idempotent_and_retains_existing_item_order() {
    let mut buffer = TurnBuffer::default();
    buffer.record_output(Some("early"), "**Reasoning**\n\nEarly", true, false);
    buffer.record_output(Some("overlap"), "**Tool call**: Pending", true, false);
    let turn = TurnSummary {
        id: "turn".into(),
        status: TurnStatus::Completed,
        user_text: None,
        agent_text: Some("Done".into()),
        tools: vec![],
        items: vec![ItemSummary {
            id: "overlap".into(),
            kind: "commandExecution".into(),
            text: Some("Updated".into()),
            status: None,
        }],
    };
    for _ in 0..2 {
        buffer.merge_summary(
            &turn,
            OutputConfig {
                show_reasoning: true,
                show_tool_calls: true,
            },
            0,
        );
    }
    assert_eq!(buffer.output_items.len(), 3);
    assert_eq!(buffer.output_items[0].id.as_deref(), Some("early"));
    assert_eq!(buffer.output_items[1].id.as_deref(), Some("overlap"));
    assert!(buffer.output_items[1].text.contains("Updated"));
    assert_eq!(buffer.agent_text, "Done");
}

#[test]
fn repeated_answer_completion_does_not_close_current_tool() {
    let mut buffer = TurnBuffer::default();
    buffer.record_output(Some("a"), "Progress", false, false);
    buffer.record_output(Some("t"), "**Tool call**: Running", true, false);
    buffer.record_output(Some("a"), "Progress", false, false);
    assert_eq!(buffer.view_sections("Pi")[1].expanded, Some(true));
}

#[test]
fn resumed_commentary_stream_reopens_its_panel() {
    let mut buffer = TurnBuffer::default();
    buffer.record_output(Some("r"), "**Reasoning**\n\nFirst", true, false);
    buffer.record_output(Some("t"), "**Tool call**: Running", true, false);
    buffer.append_commentary("r", " then more");
    let sections = buffer.view_sections("Codex");
    assert_eq!(sections[0].expanded, Some(true));
    assert_eq!(sections[1].expanded, Some(false));
}

#[test]
fn merging_unchanged_history_preserves_active_tool() {
    let output = OutputConfig {
        show_reasoning: true,
        show_tool_calls: true,
    };
    let turn = TurnSummary {
        id: "t".into(),
        status: TurnStatus::InProgress,
        user_text: None,
        agent_text: Some("Progress".into()),
        tools: vec![],
        items: vec![
            ItemSummary {
                id: "a".into(),
                kind: "agentMessage".into(),
                text: Some("Progress".into()),
                status: None,
            },
            ItemSummary {
                id: "tool".into(),
                kind: "commandExecution".into(),
                text: Some("Running".into()),
                status: None,
            },
        ],
    };
    let mut buffer = TurnBuffer::from_summary(&turn, output, 0);
    let before = buffer.view_sections("Codex");
    buffer.merge_summary(&turn, output, 0);
    assert_eq!(buffer.view_sections("Codex"), before);
}

#[test]
fn unchanged_summary_fallback_merge_keeps_the_active_tool() {
    let mut buffer = TurnBuffer::default();
    buffer.record_output(Some("a"), "Progress", false, false);
    buffer.record_output(Some("tool"), "**Tool call**: Running", true, false);
    let turn = TurnSummary {
        id: "t".into(),
        status: TurnStatus::InProgress,
        user_text: None,
        agent_text: Some("Progress".into()),
        tools: vec![],
        items: vec![],
    };
    buffer.merge_summary(&turn, OutputConfig::default(), 0);
    assert_eq!(buffer.view_sections("Pi")[1].expanded, Some(true));
}

#[test]
fn hidden_commentary_placeholder_does_not_change_plain_output_format() {
    let mut buffer = TurnBuffer::default();
    buffer.record_output(Some("hidden"), "", true, false);
    buffer.record_output(Some("answer"), "Done", false, false);
    assert_eq!(buffer.render_output(), "Done");
}

#[test]
fn background_dedup_retains_one_turn_per_session_and_tracks_each_recipient() {
    let mut notices = BackgroundNotices::new();
    let first = ConversationRef::new(ChannelKind::Telegram, "first");
    let second = ConversationRef::new(ChannelKind::Telegram, "second");
    let session = SessionId::new("session");
    let other = SessionId::new("other");
    notices.record(&first, &other, "independent");
    for index in 0..100 {
        let turn = format!("turn_{index}");
        assert!(!notices.delivered(&first, &session, &turn));
        notices.record(&first, &session, &turn);
        assert!(notices.delivered(&first, &session, &turn));
        assert!(!notices.delivered(&second, &session, &turn));
        notices.record(&second, &session, &turn);
        assert!(notices.delivered(&first, &session, &turn));
        assert!(notices.delivered(&second, &session, &turn));
        assert_eq!(notices.len(), 2);
    }
    assert!(!notices.delivered(&first, &session, "turn_0"));
    assert!(notices.delivered(&first, &other, "independent"));
}
