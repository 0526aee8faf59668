use agentix_core::background::{BackgroundQueue, Submission, CAPACITY};
use agentix_core::browse::{
    escape, fence_marker, markdown_pages, page_count, short, TaskBrowse, MARKDOWN_PAGE_BYTES,
};
use agentix_core::domain::{
    AgentEvent, HistoryPage, ItemSummary, MultiplexerKind, MultiplexerPane, MultiplexerSession,
    MultiplexerSnapshot, MultiplexerWindow, SessionStatus, SessionSummary, TurnStatus, TurnSummary,
    ViewStatus,
};
use agentix_core::domain::ActionStyle;
use agentix_core::engine::{DirectoryAction, Engine, RmuxController};
use agentix_core::input_recovery::{recovered_text, InputRecovery, RecoveredInput, READ_CONCURRENCY};
use agentix_core::interaction::{
    completed_input_body, displayed_answer, input_progress_body, input_questions, input_response,
    InputOption, InputProgress, InputQuestion, InteractionRequest,
};
use agentix_core::json::JsonValue;
use agentix_core::menu::{command_menu, command_menu_for, MenuAdmission, MenuContext, MenuQueue, MenuRequest};
use agentix_core::model::{ChannelKind, ConversationRef, SessionId, TurnKey};
use agentix_core::multiplexer::{
    display_workspace, home_relative_label, is_shell_command, multiplexer_pane_body, multiplexer_root_body, multiplexer_session_body,
    multiplexer_session_contains, multiplexer_window_body,
};
use agentix_core::output::OutputConfig;
use agentix_core::overlap::merge_delta;
use agentix_core::pending_prompts::{
    acknowledgement_fate, card_delivery, delivered_elsewhere_notice, failure_notice, CardDelivered, CardDelivery,
    EventFate, PendingCard, PendingPrompts, PromptAcknowledged, QueuedInput, Queueing, SendFailure, MAX_QUEUED,
};
use agentix_core::presentation::{
    background_completion_body, decision_label, format_elapsed, history_views, plural,
    session_display_label, session_status_label, session_title, short_identifier,
    turn_conversation_body, turn_status_label, HistoryPresentation,
};
use agentix_core::session::{check_access, command_access, send_capability, AgentError, SessionCapability};
use agentix_core::subscription_cleanup::{Reattachment, SubscriptionCleanup, Unsubscribe};
use agentix_core::stored::{parse_turn_status, turn_status_name};
use agentix_core::text::{decimal_string, lines_of, markdown_quote};
use agentix_core::turn_flows::{exited_turns, turn_render_plan};
use agentix_core::session_flows::{
    already_attached_notice, attach_failed_view, available_commands, command_failed_view, command_result_view,
    current_session_view, detached_notice, help_body, invalid_command_view, prompt_route, queue_body, queue_view,
    queued_view, read_only_notice, session_command_step, session_label, session_list, sessions_view, PromptRoute,
    SessionCommandStep,
};
use agentix_core::domain::SessionTerminal;
use agentix_core::question_flows::{
    closed_question_notice, queued_question_step, question_waiting_notice, route_question, QueuedQuestionStep, QuestionQueue, QuestionRoute,
};
use agentix_core::workspace_flows::{
    multiplexer_stopped_view, multiplexer_unsupported_view, pane_buttons, root_buttons, root_subtitle, session_heading,
    split_labels, split_source, window_buttons, window_heading, PaneChoice,
};
use agentix_core::workspace_directories::{
    directory_browser, directory_input_error, directory_input_prompt, directory_preview, DirectoryEntry,
    DirectoryListing,
};
use agentix_core::startup::{
    offline_view, restored_binding_notice, restored_binding_step, restored_binding_view, restored_turn_renders, RestoreAction,
    RestoreStage, RestoredBindingStatus,
};
use agentix_core::interaction_flows::{
    approval_resolution, check_action, decision_style, input_buttons, interaction_view, start_input, ActionCheck,
    ActionRequirement,
};
use agentix_core::domain::DeliveryClass;
use agentix_core::active_turns::ActiveTurns;
use agentix_core::task_board::{board_body, board_heading, status_counts, task_summary, BoardScope, TaskEntry, TaskStatus};
use agentix_core::card_writes::{CardRegistry, CardState, UpdateResult, UpdateStep, WriteOutcome};
use agentix_core::dispatch::{
    ActionRoute, DispatchScope, EngineDispatchSnapshot, EngineResource, EngineWork, InboundRoute, SessionAlias, SessionRoute,
    WorkspaceMutation,
};

fn text(value: &str) -> JsonValue {
    JsonValue::String(value.to_owned())
}

fn object(members: Vec<(&str, JsonValue)>) -> JsonValue {
    JsonValue::Object(members.into_iter().map(|(k, v)| (k.to_owned(), v)).collect())
}

fn key(session: &str, turn: &str) -> TurnKey {
    TurnKey::new(&SessionId::new(session), turn)
}

#[test]
fn elapsed_time_uses_the_largest_units() {
    assert_eq!(format_elapsed(0), "0s");
    assert_eq!(format_elapsed(59), "59s");
    assert_eq!(format_elapsed(61), "1m 1s");
    assert_eq!(format_elapsed(3_600), "1h 0m 0s");
    assert_eq!(format_elapsed(3_725), "1h 2m 5s");
}

#[test]
fn decimal_text_matches_display() {
    assert_eq!(decimal_string(0), "0");
    assert_eq!(decimal_string(907), "907");
    assert_eq!(decimal_string(u64::MAX), u64::MAX.to_string());
}

#[test]
fn short_identifiers_keep_eight_bytes_of_whole_characters() {
    assert_eq!(short_identifier("abcdefghij"), "abcdefgh");
    assert_eq!(short_identifier("abc"), "abc");
    assert_eq!(short_identifier("ééééé"), "éééé");
    assert_eq!(short_identifier("abcdefgé"), "abcdefg");
    assert_eq!(SessionId::new("0123456789").short(), "01234567");
}

#[test]
fn markdown_quote_trims_and_quotes_each_line() {
    assert_eq!(markdown_quote("  one\n\ntwo  "), "> one\n>\n> two");
    assert_eq!(markdown_quote("a\r\nb"), "> a\n> b");
    assert_eq!(markdown_quote("   "), "");
}

#[test]
fn lines_split_like_str_lines() {
    assert_eq!(lines_of("a\nb\r\n\nc\n"), vec!["a", "b", "", "c"]);
    assert_eq!(lines_of(""), Vec::<String>::new());
}

#[test]
fn labels_follow_their_values() {
    assert_eq!(plural(1, "pane", "panes"), "pane");
    assert_eq!(plural(0, "pane", "panes"), "panes");
    assert_eq!(decision_label("accept"), "Allow once");
    assert_eq!(decision_label("acceptForSession"), "Allow for session");
    assert_eq!(decision_label("decline"), "Decline");
    assert_eq!(decision_label("cancel"), "Cancel");
    assert_eq!(decision_label("later"), "later");
    assert_eq!(turn_status_label(&TurnStatus::InProgress), "In progress");
    assert_eq!(session_status_label(&SessionStatus::NotLoaded), ("⚫", "Not loaded"));
}

#[test]
fn background_completion_body_names_the_outcome_and_error() {
    assert_eq!(
        background_completion_body(&TurnStatus::Completed, None),
        "This turn completed in a session that is not attached to this IM conversation."
    );
    assert_eq!(
        background_completion_body(&TurnStatus::Failed, Some("boom")),
        "This turn failed in a session that is not attached to this IM conversation.\n\n**Error**\n\n> boom"
    );
    assert_eq!(
        background_completion_body(&TurnStatus::Interrupted, Some("  ")),
        "This turn was interrupted in a session that is not attached to this IM conversation."
    );
}

#[test]
fn conversation_body_skips_blank_sides() {
    assert_eq!(
        turn_conversation_body("Codex", Some("hi"), Some("hello\nthere")),
        "**👤 You**\n\n> hi\n\n**🤖 Codex**\n\n> hello\n> there"
    );
    assert_eq!(turn_conversation_body("Codex", Some(" "), None), "No text content.");
}

#[test]
fn session_titles_fall_back_to_preview_then_untitled() {
    let named = SessionSummary {
        id: SessionId::new("abcdefghijk"),
        name: Some("  ".to_owned()),
        preview: Some(" first prompt ".to_owned()),
        status: SessionStatus::Idle,
        cwd: None,
        terminal: None,
    };
    assert_eq!(session_title(&named), "first prompt");
    assert_eq!(session_display_label(&named), "first prompt · abcdefgh");
    let untitled = summary("s", None, SessionStatus::Unknown, None, None);
    assert_eq!(session_title(&untitled), "Untitled");
}

#[test]
fn history_views_introduce_the_page_then_each_turn() {
    let history = HistoryPage {
        turns: vec![TurnSummary {
            id: "turn-123456789".to_owned(),
            status: TurnStatus::Failed,
            user_text: Some("question".to_owned()),
            agent_text: None,
            tools: Vec::new(),
            items: Vec::new(),
        }],
        older_cursor: Some("c".to_owned()),
        newer_cursor: None,
    };
    let views = history_views("Codex", "Title · abc", &history, HistoryPresentation::History);
    assert_eq!(views.len(), 2);
    assert_eq!(views[0].title, "Codex · Title · abc");
    assert_eq!(views[0].subtitle.as_deref(), Some("History"));
    assert_eq!(views[0].body, "Showing 1 recent turn.\n\nEarlier turns: /history older");
    assert_eq!(views[0].status, ViewStatus::Info);
    assert_eq!(views[1].title, "Codex · Turn turn-123");
    assert_eq!(views[1].subtitle.as_deref(), Some("Failed"));
    assert_eq!(views[1].body, "**👤 You**\n\n> question");
    assert_eq!(views[1].status, ViewStatus::Error);
    let empty = HistoryPage { turns: Vec::new(), older_cursor: None, newer_cursor: Some("n".to_owned()) };
    let views = history_views("Codex", "x", &empty, HistoryPresentation::Attached);
    assert_eq!(views.len(), 1);
    assert_eq!(views[0].body, "No conversation history yet.\nNewer turns: /history newer");
    assert_eq!(views[0].subtitle.as_deref(), Some("Attached"));
}

#[test]
fn stored_status_names_round_trip() {
    for status in [
        TurnStatus::InProgress,
        TurnStatus::Completed,
        TurnStatus::Interrupted,
        TurnStatus::Failed,
        TurnStatus::Unknown,
    ] {
        assert_eq!(parse_turn_status(turn_status_name(&status)), Some(status));
    }
    assert_eq!(turn_status_name(&TurnStatus::InProgress), "in_progress");
    assert_eq!(parse_turn_status("running"), None);
}

#[test]
fn channel_names_round_trip_and_unknown_names_are_refused() {
    assert_eq!(ChannelKind::parse(ChannelKind::Telegram.as_str()), Ok(ChannelKind::Telegram));
    assert_eq!("feishu".parse::<ChannelKind>(), Ok(ChannelKind::Feishu));
    assert_eq!(
        ChannelKind::parse("slack"),
        Err("unsupported channel kind: slack".to_owned())
    );
    let conversation = ConversationRef::new(ChannelKind::Feishu, "chat");
    assert!(conversation.same(&ConversationRef::new(ChannelKind::Feishu, "chat")));
    assert!(!conversation.same(&ConversationRef::new(ChannelKind::Telegram, "chat")));
}

#[test]
fn command_menus_insert_workspace_and_session_commands() {
    let names = |menu: agentix_core::domain::CommandMenu| {
        menu.commands.into_iter().map(|c| (c.name, c.contextual)).collect::<Vec<_>>()
    };
    assert_eq!(
        names(command_menu_for(false, None)),
        vec![("sessions".to_owned(), false), ("cancel".to_owned(), false), ("help".to_owned(), false)]
    );
    let detached = names(command_menu(false));
    assert_eq!(detached[1], ("rmux".to_owned(), false));
    assert_eq!(detached.len(), 4);
    let attached = names(command_menu_for(true, Some(MultiplexerKind::Tmux)));
    assert_eq!(attached.len(), 24);
    assert_eq!(attached[1], ("tmux".to_owned(), false));
    assert_eq!(attached[2], ("current".to_owned(), true));
    assert_eq!(attached[21], ("mcp".to_owned(), true));
    assert_eq!(attached[22], ("cancel".to_owned(), false));
    assert_eq!(attached[23], ("help".to_owned(), false));
}

#[test]
fn shell_commands_are_recognised_by_file_name() {
    assert!(is_shell_command("bash"));
    assert!(is_shell_command("/usr/bin/zsh"));
    assert!(is_shell_command("/bin/fish/"));
    assert!(!is_shell_command("vim"));
    assert!(!is_shell_command("/bin/.."));
    assert!(!is_shell_command(""));
}

fn pane(index: u64, session: Option<&str>) -> MultiplexerPane {
    MultiplexerPane {
        index,
        current_command: "bash".to_owned(),
        active: false,
        cwd: "/tmp".to_owned(),
        agent_session: session.map(SessionId::new),
    }
}

#[test]
fn multiplexer_bodies_count_and_mark_the_attached_session() {
    let snapshot = MultiplexerSnapshot {
        sessions: vec![
            MultiplexerSession {
                name: "work".to_owned(),
                windows: vec![
                    MultiplexerWindow { index: 0, name: "edit".to_owned(), panes: vec![pane(0, Some("s1"))] },
                    MultiplexerWindow { index: 1, name: "logs".to_owned(), panes: vec![pane(0, None), pane(1, None)] },
                ],
            },
            MultiplexerSession { name: "idle".to_owned(), windows: Vec::new() },
        ],
    };
    let current = SessionId::new("s1");
    assert!(multiplexer_session_contains(&snapshot.sessions[0], Some(&current)));
    assert!(!multiplexer_session_contains(&snapshot.sessions[0], None));
    let (body, windows, panes) = multiplexer_root_body(&snapshot, Some(&current));
    assert_eq!(windows, 2);
    assert_eq!(panes, 3);
    assert_eq!(
        body,
        "> **work** · 📎 **Attached**\n> 2 windows · 3 panes\n\n> **idle**\n> 0 windows · 0 panes"
    );
    assert_eq!(
        multiplexer_session_body(&snapshot.sessions[0], Some(&current)),
        "> **0 · edit** · 📎 **Attached**\n> 1 pane\n\n> **1 · logs**\n> 2 panes"
    );
}

#[test]
fn task_board_paging_and_escaping() {
    assert_eq!(page_count(0), 1);
    assert_eq!(page_count(6), 1);
    assert_eq!(page_count(7), 2);
    assert_eq!(short(&"x".repeat(70)).chars().count(), 60);
    assert_eq!(escape("a_b*c"), "a\\_b\\*c");
    assert_eq!(fence_marker("````rust"), "````");
    let browse = TaskBrowse::Inbox { id: "i".to_owned(), page: 2 };
    let next = browse.at_page(3);
    assert_eq!(next.page(), 3);
    assert!(matches!(next, TaskBrowse::Inbox { ref id, page: 3 } if id == "i"));
}

#[test]
fn markdown_pages_close_and_reopen_fences_at_page_breaks() {
    let long = format!("{}\n", "x".repeat(700));
    let pieces = vec!["```rust\n".to_owned(), long.clone(), long.clone(), "```\n".to_owned(), "after\n".to_owned()];
    let pages = markdown_pages(&pieces);
    assert_eq!(pages.len(), 2);
    assert_eq!(pages[0], format!("```rust\n{long}\n```\n"));
    assert_eq!(pages[1], format!("```rust\n{long}```\nafter\n"));
    assert!(pages.iter().all(|page| page.len() <= MARKDOWN_PAGE_BYTES));
}

#[test]
fn markdown_pages_without_fences_rejoin_to_the_text() {
    let pieces = vec!["a".repeat(600), "b".repeat(600), "c".repeat(10)];
    let pages = markdown_pages(&pieces);
    assert_eq!(pages.len(), 2);
    assert_eq!(pages.concat(), pieces.concat());
    assert_eq!(markdown_pages(&Vec::new()), vec![String::new()]);
}

#[test]
fn unclosed_fence_is_closed_on_the_last_page() {
    let pages = markdown_pages(&vec!["~~~\n".to_owned(), "code\n".to_owned()]);
    assert_eq!(pages, vec!["~~~\ncode\n\n~~~\n".to_owned()]);
}

#[test]
fn streamed_deltas_merge_without_repetition() {
    assert_eq!(merge_delta("Hello wor", "world!"), "Hello world!");
    let once = merge_delta("abc", "bcd");
    assert_eq!(once, "abcd");
    assert_eq!(merge_delta(&once, "bcd"), once);
    assert_eq!(merge_delta("", "new"), "new");
}

#[test]
fn process_text_respects_visibility() {
    let reasoning = ItemSummary {
        id: "r".to_owned(),
        kind: "reasoning".to_owned(),
        text: Some("  thinking  ".to_owned()),
        status: None,
    };
    let tool = ItemSummary {
        id: "t".to_owned(),
        kind: "commandExecution".to_owned(),
        text: None,
        status: Some("failed".to_owned()),
    };
    let all = OutputConfig { show_reasoning: true, show_tool_calls: true };
    assert_eq!(all.process_text(&reasoning).as_deref(), Some("**Reasoning**\n\nthinking"));
    assert_eq!(all.process_text(&tool).as_deref(), Some("**Tool call**: commandExecution (failed)"));
    assert_eq!(OutputConfig::default().process_text(&reasoning), None);
    assert_eq!(OutputConfig { show_reasoning: true, show_tool_calls: false }.process_text(&tool), None);
}

#[test]
fn shown_tool_starts_become_in_progress_items() {
    let started = AgentEvent::ItemStarted {
        session_id: "s".to_owned(),
        turn_id: "t".to_owned(),
        item_id: "i".to_owned(),
        kind: "mcpToolCall".to_owned(),
        label: "search".to_owned(),
    };
    let config = OutputConfig { show_reasoning: false, show_tool_calls: true };
    match config.project_event(started) {
        AgentEvent::ItemCompleted { session_id, turn_id, item } => {
            assert_eq!((session_id.as_str(), turn_id.as_str()), ("s", "t"));
            assert_eq!(item.id, "i");
            assert_eq!(item.status.as_deref(), Some("inProgress"));
            assert_eq!(item.text.as_deref(), Some("search"));
        }
        other => panic!("unexpected event {other:?}"),
    }
    let hidden = AgentEvent::ItemStarted {
        session_id: "s".to_owned(),
        turn_id: "t".to_owned(),
        item_id: "i".to_owned(),
        kind: "mcpToolCall".to_owned(),
        label: "search".to_owned(),
    };
    assert!(matches!(OutputConfig::default().project_event(hidden), AgentEvent::ItemStarted { .. }));
}

#[test]
fn background_queue_bounds_deduplicates_and_cancels() {
    let mut queue: BackgroundQueue<u32> = BackgroundQueue::new();
    for n in 0..4 {
        match queue.submit(key("s", &format!("t{n}")), n) {
            Submission::Accepted(started) => assert_eq!(started.len(), 1),
            _ => panic!("admitted work must start"),
        }
    }
    assert!(matches!(queue.submit(key("s", "t4"), 4), Submission::Accepted(ref started) if started.is_empty()));
    assert!(matches!(queue.submit(key("s", "t4"), 5), Submission::Ignored));
    let stats = queue.statistics();
    assert_eq!((stats.active, stats.queued, stats.rejected), (4, 1, 0));
    let started = queue.finish(&key("s", "t0"));
    assert_eq!(started.len(), 1);
    assert_eq!(started[0].0, key("s", "t4"));
    assert_eq!(started[0].1, 4);
    assert!(matches!(queue.submit(key("s", "t0"), 0), Submission::Ignored));
    for n in 5..(CAPACITY as u32 + 1) {
        assert!(matches!(queue.submit(key("s", &format!("t{n}")), n), Submission::Accepted(_)));
    }
    assert!(matches!(queue.submit(key("s", "overflow"), 0), Submission::Rejected));
    assert_eq!(queue.statistics().rejected, 1);
    let aborted = queue.cancel();
    assert_eq!(aborted.len(), 4);
    assert!(matches!(queue.submit(key("s", "late"), 0), Submission::Ignored));
    assert_eq!(queue.statistics().queued, 0);
}

#[test]
fn engine_cancellation_empties_optional_work() {
    let mut engine: Engine<u64> = Engine::new();
    assert!(matches!(
        engine.background.submit(key("s", "t"), agentix_core::engine::BackgroundNotice {
            status: TurnStatus::Completed,
            error: None,
            draining: false,
        }),
        Submission::Accepted(_)
    ));
    assert_eq!(engine.background_completion_statistics().active, 1);
    let aborted = engine.cancel_background_completions();
    assert_eq!(aborted, vec![key("s", "t")]);
    assert_eq!(engine.background_completion_statistics().active, 0);
    engine.abort_pending_prompts();
    assert!(engine.pending_prompts.start(input("s", "e", "hi")).is_err());
    engine.cancel_input_recovery();
    assert!(!engine.input_recovery.admits(&key("s", "t")));
}

#[test]
fn directory_selection_offers_back_and_cancel() {
    let [back, cancel] = Engine::<u64>::directory_back_actions();
    assert_eq!(back.0, "Back");
    assert!(matches!(back.1, DirectoryAction::Preview));
    assert_eq!(back.2, ActionStyle::Primary);
    assert_eq!(cancel.0, "Cancel");
    assert!(matches!(cancel.1, DirectoryAction::Cancel));
    assert_eq!(cancel.2, ActionStyle::Danger);
    assert_eq!(RmuxController::new(true).default_directory(Some("/srv".to_owned())), "/srv");
    assert_eq!(RmuxController::new(false).default_directory(Some("/srv".to_owned())), "~");
    assert_eq!(RmuxController::new(true).default_directory(None), "~");
}

fn read(session: &str, turn: &str, id: u64, text: Option<&str>) -> RecoveredInput {
    RecoveredInput {
        session: SessionId::new(session),
        conversation: ConversationRef::new(ChannelKind::Telegram, "c"),
        id,
        turn: turn.to_owned(),
        text: Ok(text.map(str::to_owned)),
    }
}

#[test]
fn input_recovery_bounds_reads_and_rejects_stale_results() {
    let mut recovery = InputRecovery::new();
    let conversation = ConversationRef::new(ChannelKind::Telegram, "c");
    let mut started_total = 0;
    let mut ids = Vec::new();
    for n in 0..(READ_CONCURRENCY + 2) {
        let turn = key("s", &format!("t{n}"));
        assert!(recovery.admits(&turn));
        let (id, started) = recovery.enqueue(turn, conversation.clone(), DeliveryClass::Live, 0, 0);
        started_total += started.len();
        ids.push(id);
    }
    assert_eq!(started_total, READ_CONCURRENCY);
    assert!(!recovery.may_read_now());
    assert!(!recovery.admits(&key("s", "t0")));
    assert_eq!(ids[1], ids[0] + 1);
    assert!(recovery.take(&read("s", "t0", ids[1], None)).is_none());
    let (turn, request) = recovery.take(&read("s", "t0", ids[0], None)).expect("current request");
    assert_eq!(request.id, ids[0]);
    assert!(turn.same(&key("s", "t0")));
    assert!(recovery.take(&read("s", "t0", ids[0], None)).is_none());
    assert_eq!(recovery.read_finished(), vec![key("s", &format!("t{READ_CONCURRENCY}"))]);
    recovery.cancel_all();
    assert!(!recovery.admits(&key("s", "new")));
}

fn acknowledged(session: &str, id: u64, result: Result<&str, AgentError>) -> PromptAcknowledged {
    PromptAcknowledged {
        session: SessionId::new(session),
        conversation: ConversationRef::new(ChannelKind::Telegram, "chat"),
        id,
        result: result.map(str::to_owned),
    }
}

fn delivered(id: u64, result: Result<u64, &str>) -> CardDelivered<u64> {
    CardDelivered {
        session: SessionId::new("s"),
        conversation: ConversationRef::new(ChannelKind::Telegram, "chat"),
        id,
        result: result.map_err(str::to_owned),
    }
}

fn input(session: &str, event: &str, prompt: &str) -> QueuedInput {
    QueuedInput {
        session: SessionId::new(session),
        conversation: ConversationRef::new(ChannelKind::Telegram, "chat"),
        prompt: prompt.to_owned(),
        event_id: event.to_owned(),
        epoch: 1,
        generation: 1,
        queued: false,
        cancelled: false,
        sequence: 0,
    }
}

fn queue(prompts: &mut PendingPrompts<u64>, session: &str, event: &str, prompt: &str) -> Result<Queueing, String> {
    prompts.queue(
        &SessionId::new(session),
        &ConversationRef::new(ChannelKind::Telegram, "chat"),
        prompt,
        event,
        1,
        1,
        false,
        0,
    )
}

#[test]
fn pending_prompts_admit_one_prompt_per_session_and_stop_once() {
    let mut prompts: PendingPrompts<u64> = PendingPrompts::new();
    let session = SessionId::new("s");
    let id = prompts.start(input("s", "e0", "hello")).expect("admitted");
    assert!(prompts.start(input("s", "e1", "again")).is_err());
    assert!(prompts.contains(&session));
    assert!(!prompts.take_stop(&session));
    let (pending, notices) = prompts.request_stop(&session);
    assert!(pending && notices.is_empty());
    prompts.set_message(&session, 7);
    assert_eq!(prompts.adopt(&session, "turn"), Some(("hello".to_owned(), Some(7))));
    assert_eq!(prompts.adopt(&session, "other"), None);
    assert_eq!(prompts.observed_turn(&session).as_deref(), Some("turn"));
    assert!(prompts.take_stop(&session));
    assert!(!prompts.take_stop(&session));
    assert!(prompts.acknowledge(&acknowledged("s", id + 1, Ok("turn"))).is_none());
    let mut released = prompts.acknowledge(&acknowledged("s", id, Ok("turn"))).expect("released");
    assert!(released.stop);
    prompts.release_follow_ups(&mut released, true, true);
    assert!(!prompts.contains(&session));
    prompts.abort();
    assert!(prompts.start(input("other", "e9", "late")).is_err());
}

#[test]
fn queued_inputs_wait_behind_the_pending_prompt_in_sequence_order() {
    let mut prompts: PendingPrompts<u64> = PendingPrompts::new();
    assert!(matches!(queue(&mut prompts, "s", "e1", "alone"), Ok(Queueing::NotQueued)));
    let id = prompts.start(input("s", "e0", "first")).expect("admitted");
    match queue(&mut prompts, "s", "e1", "second") {
        Ok(Queueing::Queued(Some(receipt))) => {
            assert_eq!((receipt.title.as_str(), receipt.body.as_str()), ("Agentix · Queued", "> second"));
            assert_eq!(receipt.event_id, "e1");
        }
        other => panic!("unexpected {other:?}"),
    }
    assert!(matches!(queue(&mut prompts, "s", "e2", "third"), Ok(Queueing::Queued(Some(_)))));
    assert!(matches!(queue(&mut prompts, "s", "e1", "second"), Ok(Queueing::Queued(None))));
    assert!(prompts.next_ready().is_none());
    let mut released = prompts.acknowledge(&acknowledged("s", id, Ok("turn"))).expect("released");
    assert_eq!(released.queued.len(), 3);
    prompts.release_follow_ups(&mut released, true, true);
    assert!(released.queued.is_empty());
    let order: Vec<String> = std::iter::from_fn(|| prompts.next_ready()).map(|i| i.prompt).collect();
    assert_eq!(order, vec!["second", "second", "third"]);
    let sent = input("s", "e1", "second");
    assert!(!prompts.is_cancelled(&sent));
    let last = prompts.forget(&sent, "Agentix · Sent").expect("receipt");
    assert_eq!(last.title, "Agentix · Sent");
    assert!(prompts.is_cancelled(&sent));
    assert!(prompts.forget(&sent, "Agentix · Sent").is_none());
}

#[test]
fn unacknowledged_prompts_keep_their_follow_ups_to_cancel() {
    let mut prompts: PendingPrompts<u64> = PendingPrompts::new();
    let id = prompts.start(input("s", "e0", "first")).expect("admitted");
    assert!(matches!(queue(&mut prompts, "s", "e1", "second"), Ok(Queueing::Queued(_))));
    let failure = AgentError::Rejected("busy".to_owned());
    let mut released = prompts.acknowledge(&acknowledged("s", id, Err(failure))).expect("released");
    prompts.release_follow_ups(&mut released, false, true);
    assert_eq!(released.queued.len(), 1);
    assert!(prompts.next_ready().is_none());
}

#[test]
fn queue_limits_waiting_inputs_and_live_receipts() {
    let mut prompts: PendingPrompts<u64> = PendingPrompts::new();
    prompts.start(input("s", "e0", "first")).expect("admitted");
    for n in 0..MAX_QUEUED {
        assert!(matches!(queue(&mut prompts, "s", &format!("q{n}"), "x"), Ok(Queueing::Queued(_))));
    }
    assert_eq!(
        queue(&mut prompts, "s", "overflow", "x").err().as_deref(),
        Some("Too many inputs are waiting for delivery. Try again after the current input is acknowledged.")
    );
    assert!(matches!(queue(&mut prompts, "s", "q0", "x"), Ok(Queueing::Queued(None))));
    let refused = prompts.queue(
        &SessionId::new("s"),
        &ConversationRef::new(ChannelKind::Telegram, "chat"),
        "x",
        "fresh",
        1,
        1,
        false,
        32 * 16,
    );
    assert_eq!(
        refused.err().as_deref(),
        Some("Too many input notifications are pending. Try again after channel delivery recovers.")
    );
}

#[test]
fn cancelling_a_conversation_withdraws_its_queued_inputs() {
    let mut prompts: PendingPrompts<u64> = PendingPrompts::new();
    prompts.start(input("s", "e0", "first")).expect("admitted");
    assert!(matches!(queue(&mut prompts, "s", "e1", "later"), Ok(Queueing::Queued(_))));
    let notices = prompts.cancel_queued_conversation(&ConversationRef::new(ChannelKind::Feishu, "chat"));
    assert!(notices.is_empty());
    let notices = prompts.cancel_queued_conversation(&ConversationRef::new(ChannelKind::Telegram, "chat"));
    assert_eq!(notices.len(), 1);
    assert_eq!((notices[0].title.as_str(), notices[0].body.as_str()), ("Agentix · Input not sent", "> later"));
    assert!(prompts.is_cancelled(&input("s", "e1", "later")));
    assert!(!prompts.is_cancelled(&input("s", "e0", "first")));
    assert_eq!(prompts.owned_inputs().len(), 2);
}

#[test]
fn invalidated_prompts_hide_their_turn_and_stop() {
    let mut prompts: PendingPrompts<u64> = PendingPrompts::new();
    let session = SessionId::new("s");
    prompts.start(input("s", "e0", "first")).expect("admitted");
    assert!(prompts.adopt(&session, "turn").is_some());
    assert!(prompts.request_stop(&session).0);
    assert!(matches!(queue(&mut prompts, "s", "e1", "later"), Ok(Queueing::Queued(_))));
    let notices = prompts.invalidate(&session);
    assert_eq!(notices.len(), 1);
    assert_eq!(prompts.observed_turn(&session), None);
    assert!(!prompts.take_stop(&session));
    assert!(prompts.adopt(&session, "turn").is_none());
}

#[test]
fn slow_prompt_cards_record_their_turn_or_failure() {
    let mut prompts: PendingPrompts<u64> = PendingPrompts::new();
    let session = SessionId::new("s");
    let conversation = ConversationRef::new(ChannelKind::Telegram, "chat");
    let id = prompts.start(input("s", "e0", "hello")).expect("admitted");
    assert_eq!(prompts.open_card(&session), Some(id));
    assert!(!prompts.hold_pending_card(&session, &conversation, "turn", false, 2, 1));
    assert!(prompts.hold_pending_card(&session, &conversation, "turn", false, 1, 1));
    assert!(!prompts.hold_pending_card(&session, &conversation, "other", false, 1, 1));
    assert_eq!(prompts.cards_to_freeze(&session), vec![(id, "turn".to_owned())]);
    prompts.record_card_outcome(id, Err(SendFailure { uncertain: true, message: "lost" }));
    let card = prompts.card_delivered(&delivered(id, Err("channel down"))).expect("card");
    let view = card.final_view.expect("final view");
    assert_eq!(view.title, "Agentix · Delivery unconfirmed");
    assert_eq!(view.body, "> hello\n\nlost");
    assert_eq!(view.status, ViewStatus::Warning);
    assert!(prompts.card_delivered(&delivered(id, Ok(4))).is_none());
    prompts.set_card_message(&session, id, 3);
    assert_eq!(prompts.adopt(&session, "turn"), Some(("hello".to_owned(), Some(3))));
}

#[test]
fn session_operations_refuse_blank_prompts_and_missing_access() {
    assert!(matches!(
        send_capability("  ", Some("turn")),
        Err(AgentError::Rejected(ref m)) if m == "A nonempty prompt is required"
    ));
    assert!(matches!(send_capability("hi", None), Ok(SessionCapability::Prompt)));
    assert!(matches!(send_capability("hi", Some("turn")), Ok(SessionCapability::Steer)));
    assert!(matches!(
        check_access(false, true),
        Err(AgentError::Rejected(ref m)) if m == "The original session is unavailable for changes"
    ));
    assert!(matches!(
        check_access(true, false),
        Err(AgentError::Rejected(ref m)) if m == "Operation is not supported by this session"
    ));
    assert!(check_access(true, true).is_ok());
}

fn question(id: &str, header: &str, secret: bool, options: Vec<(&str, &str)>) -> InputQuestion {
    InputQuestion {
        id: id.to_owned(),
        header: header.to_owned(),
        question: format!("{header}?"),
        options: options
            .into_iter()
            .map(|(label, description)| InputOption { label: label.to_owned(), description: description.to_owned() })
            .collect(),
        secret,
    }
}

#[test]
fn input_progress_lists_answers_then_the_current_question() {
    let progress = InputProgress {
        questions: vec![
            question("a", "Name", false, Vec::new()),
            question("b", "Token", true, Vec::new()),
            question("c", "Color", false, vec![("Red", "warm"), ("Blue", " ")]),
        ],
        answers: vec![Some("Ann".to_owned()), Some("secret".to_owned()), None],
        current: 2,
    };
    assert_eq!(displayed_answer(&progress.questions[1], "secret"), "[hidden]");
    assert_eq!(
        input_progress_body(&progress, false),
        "**Answers**\n1. **Name:** Ann\n2. **Token:** [hidden]\n\n**Question 3 of 3 · Color**\nColor?\n\n- **Red** — warm\n- **Blue**\n\nChoose an option below, or choose Other… to type a custom answer."
    );
    assert_eq!(
        completed_input_body(&progress),
        "**Answered**\n1. **Name:** Ann\n2. **Token:** [hidden]"
    );
    let first = InputProgress { questions: vec![question("a", "Name", false, Vec::new())], answers: vec![None], current: 0 };
    assert_eq!(
        input_progress_body(&first, true),
        "**Question 1 of 1 · Name**\nName?\n\nReply with your custom answer. Use `/cancel` to return to the choices."
    );
}

#[test]
fn input_questions_read_the_payload_with_defaults() {
    let request = InteractionRequest {
        detail: "Details".to_owned(),
        payload: object(vec![(
            "questions",
            JsonValue::Array(vec![
                object(vec![
                    ("id", text("q1")),
                    ("header", text(" ")),
                    ("options", JsonValue::Array(vec![
                        object(vec![("label", text("Yes"))]),
                        object(vec![("description", text("no label"))]),
                        object(vec![("label", text("No")), ("description", text("decline"))]),
                    ])),
                    ("isSecret", JsonValue::Bool(true)),
                ]),
                object(vec![("header", text("skipped: no id"))]),
                object(vec![("id", text("q3")), ("header", text("Third")), ("question", text("Why?"))]),
            ]),
        )]),
    };
    let questions = input_questions(&request);
    assert_eq!(questions.len(), 2);
    assert_eq!(questions[0].id, "q1");
    assert_eq!(questions[0].header, "Question 1");
    assert_eq!(questions[0].question, "Details");
    assert!(questions[0].secret);
    let options: Vec<(&str, &str)> =
        questions[0].options.iter().map(|o| (o.label.as_str(), o.description.as_str())).collect();
    assert_eq!(options, vec![("Yes", ""), ("No", "decline")]);
    assert_eq!(questions[1].header, "Third");
    assert_eq!(questions[1].question, "Why?");
    assert!(!questions[1].secret);
}

#[test]
fn input_questions_fall_back_to_a_single_value() {
    let request = InteractionRequest { detail: " ".to_owned(), payload: JsonValue::Null };
    let questions = input_questions(&request);
    assert_eq!(questions.len(), 1);
    assert_eq!(questions[0].id, "value");
    assert_eq!(questions[0].header, "Input");
    assert_eq!(questions[0].question, "Please provide an answer.");
    let detailed = InteractionRequest {
        detail: "Approve?".to_owned(),
        payload: object(vec![("questions", text("not a list"))]),
    };
    assert_eq!(input_questions(&detailed)[0].question, "Approve?");
}

fn answer_of(document: &JsonValue, id: &str) -> Option<String> {
    let answers = document.get("answers")?;
    match answers.get(id)?.get("answers")? {
        JsonValue::Array(items) => match items.as_slice() {
            [JsonValue::String(answer)] => Some(answer.clone()),
            _ => None,
        },
        _ => None,
    }
}

#[test]
fn input_response_maps_each_answered_id() {
    let progress = InputProgress {
        questions: vec![
            question("a", "A", false, Vec::new()),
            question("b", "B", false, Vec::new()),
            question("a", "A again", false, Vec::new()),
        ],
        answers: vec![Some("first".to_owned()), None, Some("second".to_owned())],
        current: 3,
    };
    let document = input_response(&progress);
    assert_eq!(answer_of(&document, "a").as_deref(), Some("second"));
    assert_eq!(answer_of(&document, "b"), None);
    match document.get("answers") {
        Some(JsonValue::Object(entries)) => assert_eq!(entries.len(), 1),
        other => panic!("unexpected document {other:?}"),
    }
}

fn card(turn: Option<&str>, valid: bool) -> PendingCard {
    PendingCard {
        id: 1,
        input: input("s", "e0", "hello"),
        turn: turn.map(str::to_owned),
        final_view: None,
        valid,
    }
}

#[test]
fn delivered_cards_follow_their_turn_or_tell_the_session_moved_on() {
    assert!(matches!(card_delivery(card(Some("t"), true), true, Ok(5)), CardDelivery::AdoptForTurn(5, ref t) if t == "t"));
    assert!(matches!(card_delivery(card(None, true), true, Ok(5)), CardDelivery::KeepForPrompt(5)));
    match card_delivery(card(None, false), true, Ok(5)) {
        CardDelivery::Previous(5, title, body) => {
            assert_eq!(title, "Agentix · Session exited");
            assert_eq!(body, "> hello\n\nThis input belongs to the previous session.");
        }
        other => panic!("unexpected {other:?}"),
    }
    assert!(matches!(card_delivery(card(None, true), false, Ok(5)), CardDelivery::Previous(5, ref title, _) if title == "Agentix · Previous session"));
    assert!(matches!(card_delivery(card(Some("t"), true), true, Err::<u8, String>("lost".to_owned())), CardDelivery::Render(ref t) if t == "t"));
    assert!(matches!(card_delivery(card(Some("t"), true), false, Err::<u8, String>("lost".to_owned())), CardDelivery::Nothing));
}

fn reattachment(conversation: &str, session: &str, id: u128) -> Reattachment {
    Reattachment {
        conversation: ConversationRef::new(ChannelKind::Feishu, conversation),
        session: SessionId::new(session),
        owner: "owner".to_owned(),
        epoch: 1,
        generation: 1,
        prepared: false,
        id,
    }
}

#[test]
fn reattachments_wait_for_the_unsubscribe_of_their_session() {
    let mut cleanup = SubscriptionCleanup::new();
    let session = SessionId::new("s");
    assert!(matches!(cleanup.enqueue(&session), Unsubscribe::Started(ref waits) if waits.is_empty()));
    assert!(matches!(cleanup.enqueue(&session), Unsubscribe::Running));
    assert!(cleanup.pending(&session));
    cleanup.defer_attachment(reattachment("c1", "s", 1)).expect("held");
    assert!(cleanup.next_attachment().is_none());
    assert!(cleanup.has_attachment(&session));
    cleanup.unsubscribe_finished(&session);
    assert!(!cleanup.pending(&session));
    let ready = cleanup.next_attachment().expect("ready");
    assert_eq!(ready.id, 1);
    assert!(cleanup.take_attachment(&ready));
    assert!(!cleanup.take_attachment(&ready));
    assert!(matches!(cleanup.enqueue(&session), Unsubscribe::Started(_)));
}

#[test]
fn a_waiting_reattachment_retains_the_subscription() {
    let mut cleanup = SubscriptionCleanup::new();
    let session = SessionId::new("s");
    cleanup.defer_attachment(reattachment("c1", "s", 1)).expect("held");
    assert!(matches!(cleanup.enqueue(&session), Unsubscribe::Retained));
    cleanup.defer_attachment(reattachment("c1", "s", 2)).expect("replaced");
    let waiting = cleanup.attachment(&ConversationRef::new(ChannelKind::Feishu, "c1")).expect("waiting");
    assert_eq!(waiting.id, 2);
    assert!(!cleanup.take_attachment(&reattachment("c1", "s", 1)));
    let cancelled = cleanup.cancel_attachment(&ConversationRef::new(ChannelKind::Feishu, "c1")).expect("cancelled");
    assert_eq!(cancelled.id, 2);
    assert!(!cleanup.has_attachment(&session));
}

#[test]
fn prepared_reattachments_merge_the_turns_observed_meanwhile() {
    let mut cleanup = SubscriptionCleanup::new();
    let request = reattachment("c1", "s", 7);
    let (waits, unsubscribing) = cleanup.prepare(reattachment("c1", "s", 7)).expect("preparing");
    assert!(waits.is_empty() && !unsubscribing);
    let (waits, _) = cleanup.prepare(reattachment("c2", "s", 8)).expect("preparing");
    assert_eq!(waits, vec![7]);
    cleanup.observe(&AgentEvent::UserMessage {
        session_id: "s".to_owned(),
        turn_id: "t".to_owned(),
        item_id: "u".to_owned(),
        text: "hi".to_owned(),
    });
    let page = HistoryPage { turns: Vec::new(), older_cursor: None, newer_cursor: None };
    cleanup.preparation_finished(reattachment("c1", "s", 7), Ok(page));
    assert!(cleanup.take_prepared(&request).expect("result").expect("page").turns.is_empty());
    let other = reattachment("c2", "s", 8);
    cleanup.preparation_finished(reattachment("c2", "s", 8), Ok(HistoryPage { turns: Vec::new(), older_cursor: None, newer_cursor: None }));
    let page = cleanup.take_prepared(&other).expect("result").expect("page");
    assert_eq!(page.turns.len(), 1);
    assert_eq!(page.turns[0].id, "t");
    assert!(cleanup.take_prepared(&other).is_none());
}

#[test]
fn engine_cancels_the_reattachments_of_a_session() {
    let mut engine: Engine<u64> = Engine::new();
    engine.cleanup.defer_attachment(reattachment("c1", "s", 1)).expect("held");
    engine.cleanup.defer_attachment(reattachment("c2", "s", 2)).expect("held");
    engine.cleanup.defer_attachment(reattachment("c3", "t", 3)).expect("held");
    assert_eq!(engine.cancel_session_attachments(&SessionId::new("s")), vec![1, 2]);
    assert_eq!(engine.cancel_reattachment(&ConversationRef::new(ChannelKind::Feishu, "c3")), Some(3));
    assert_eq!(engine.cancel_reattachment(&ConversationRef::new(ChannelKind::Feishu, "c3")), None);
}

#[test]
fn input_recovery_drops_the_reads_of_a_cancelled_session() {
    let mut recovery = InputRecovery::new();
    let conversation = ConversationRef::new(ChannelKind::Telegram, "c");
    for n in 0..(READ_CONCURRENCY + 1) {
        recovery.enqueue(key("s", &format!("t{n}")), conversation.clone(), DeliveryClass::Live, 0, 0);
    }
    let (id, _) = recovery.enqueue(key("other", "t"), conversation.clone(), DeliveryClass::Live, 0, 0);
    recovery.cancel_session(&SessionId::new("s"));
    assert!(recovery.admits(&key("s", "t0")));
    assert!(!recovery.admits(&key("other", "t")));
    assert_eq!(recovery.read_finished(), vec![key("other", "t")]);
    assert!(recovery.take(&read("other", "t", id, Some("hi"))).is_some());
}

fn menu_names(menu: agentix_core::domain::CommandMenu) -> Vec<String> {
    menu.commands.into_iter().map(|c| c.name).collect()
}

#[test]
fn read_only_sessions_offer_viewing_commands_in_menu_order() {
    let context = MenuContext {
        session_control: true,
        multiplexer: Some(MultiplexerKind::Rmux),
        has_session: true,
        writable: false,
        unsupported: vec!["fast".to_owned()],
        has_tasks: true,
    };
    assert_eq!(
        menu_names(context.build(true)),
        vec![
            "cancel", "dashboard", "help", "rmux", "sessions", "board", "current", "detach", "history",
            "inbox", "inboxes", "jobs",
        ]
    );
}

#[test]
fn agents_without_session_control_offer_the_last_turn() {
    let context = MenuContext {
        session_control: false,
        multiplexer: None,
        has_session: true,
        writable: true,
        unsupported: Vec::new(),
        has_tasks: false,
    };
    assert_eq!(menu_names(context.build(true)), vec!["cancel", "help", "sessions", "last"]);
    let detached = context.build(false);
    assert_eq!(menu_names(detached), vec!["cancel", "help", "sessions"]);
}

#[test]
fn unsupported_session_commands_leave_the_menu_but_exit_stays() {
    let context = MenuContext {
        session_control: true,
        multiplexer: None,
        has_session: true,
        writable: true,
        unsupported: vec!["exit".to_owned(), "fork".to_owned(), "mcp".to_owned()],
        has_tasks: false,
    };
    let names = menu_names(context.build(true));
    assert!(names.contains(&"exit".to_owned()));
    assert!(!names.contains(&"fork".to_owned()));
    assert!(!names.contains(&"mcp".to_owned()));
    assert_eq!(names.len(), 3 + 20 - 2);
    assert_eq!(&names[..3], &["cancel", "help", "sessions"]);
    assert_eq!(names[3], "clear");
}

#[test]
fn menu_requests_coalesce_per_conversation() {
    let mut queue: MenuQueue<MenuRequest> = MenuQueue::new();
    let chat = ConversationRef::new(ChannelKind::Telegram, "c");
    assert!(matches!(queue.enqueue(&chat, MenuRequest { attached: false }, true, false), MenuAdmission::Dropped));
    assert!(matches!(queue.enqueue(&chat, MenuRequest { attached: false }, false, false), MenuAdmission::Started));
    assert!(matches!(queue.enqueue(&chat, MenuRequest { attached: true }, true, false), MenuAdmission::Superseded));
    let (request, sync) = queue.take(&chat).expect("latest request");
    assert!(request.attached && !sync);
    assert!(queue.take(&chat).is_none());
    assert!(matches!(queue.enqueue(&chat, MenuRequest { attached: true }, true, true), MenuAdmission::Started));
    queue.abort();
    assert!(queue.take(&chat).is_none());
}

#[test]
fn workspaces_below_home_are_shown_with_a_tilde() {
    assert_eq!(display_workspace(Some("/home/u/proj"), Some("/home/u")), "~/proj");
    assert_eq!(display_workspace(Some("/home/u"), Some("/home/u")), "~");
    assert_eq!(display_workspace(Some("/home/user2"), Some("/home/u")), "/home/user2");
    assert_eq!(display_workspace(Some("/srv"), Some("")), "/srv");
    assert_eq!(display_workspace(Some("/srv"), None), "/srv");
    assert_eq!(display_workspace(None, Some("/home/u")), "unknown workspace");
}

#[test]
fn pane_bodies_describe_what_runs_in_each_pane() {
    let mut shell = pane(1, None);
    shell.active = true;
    shell.cwd = "/home/u/p".to_owned();
    assert_eq!(
        multiplexer_pane_body(&shell, None, "Codex", None, Some("/home/u")),
        "> **1 · bash** · Active · Idle shell\n> 📁 `~/p`"
    );
    let mut agent = pane(2, Some("s"));
    agent.current_command = "node".to_owned();
    let current = SessionId::new("s");
    assert_eq!(
        multiplexer_pane_body(&agent, Some(&current), "Codex", None, None),
        "> **2 · node** · 📎 Attached\n> 📁 `/tmp`"
    );
    assert_eq!(
        multiplexer_pane_body(&agent, None, "Codex", Some("Pi"), None),
        "> **2 · node** · Pi\n> 📁 `/tmp`"
    );
    let mut busy = pane(3, None);
    busy.current_command = "vim".to_owned();
    let window = MultiplexerWindow { index: 0, name: "w".to_owned(), panes: vec![agent, busy] };
    assert_eq!(
        multiplexer_window_body(&window, None, "Codex", &vec![None, None], None),
        "> **2 · node** · Codex\n> 📁 `/tmp`\n\n> **3 · vim** · Busy\n> 📁 `/tmp`"
    );
}

#[test]
fn recovered_text_applies_only_to_current_nonblank_reads() {
    let mut recovery = InputRecovery::new();
    let conversation = ConversationRef::new(ChannelKind::Telegram, "c");
    let (id, _) = recovery.enqueue(key("s", "t"), conversation, DeliveryClass::Live, 4, 2);
    let (_, request) = recovery.take(&read("s", "t", id, Some("hello"))).expect("request");
    assert_eq!(recovered_text(&request, Ok(Some("hello".to_owned())), 2, 4).as_deref(), Some("hello"));
    assert_eq!(recovered_text(&request, Ok(Some("hello".to_owned())), 3, 4), None);
    assert_eq!(recovered_text(&request, Ok(Some("hello".to_owned())), 2, 5), None);
    assert_eq!(recovered_text(&request, Ok(Some("  \n".to_owned())), 2, 4), None);
    assert_eq!(recovered_text(&request, Ok(None), 2, 4), None);
    assert_eq!(recovered_text(&request, Err(AgentError::Unavailable("gone".to_owned())), 2, 4), None);
}

#[test]
fn recovered_user_text_fills_only_a_missing_input() {
    let mut buffer = agentix_core::turn_buffer::TurnBuffer::new(TurnStatus::InProgress);
    buffer.user_text = " ".to_owned();
    assert!(buffer.restore_user_text("hello".to_owned()));
    assert_eq!(buffer.user_text, "hello");
    assert!(!buffer.restore_user_text("later".to_owned()));
    assert_eq!(buffer.user_text, "hello");
}

#[test]
fn render_plan_offers_stop_only_on_the_live_active_turn() {
    let live = DeliveryClass::Live;
    let plan = turn_render_plan(TurnStatus::InProgress, true, live, true, false, None, "t", false);
    assert!(plan.running && plan.adopt_active && plan.can_stop && !plan.offer_attach);
    let plan = turn_render_plan(TurnStatus::InProgress, true, live, true, true, None, "t", false);
    assert!(!plan.adopt_active && !plan.can_stop);
    let plan = turn_render_plan(TurnStatus::Unknown, true, live, true, true, Some("t"), "t", false);
    assert!(!plan.adopt_active && plan.can_stop);
    let plan = turn_render_plan(TurnStatus::InProgress, true, live, true, false, Some("other"), "t", false);
    assert!(!plan.adopt_active && !plan.can_stop);
    let plan = turn_render_plan(TurnStatus::InProgress, false, live, true, false, None, "t", true);
    assert!(!plan.adopt_active && !plan.can_stop && !plan.offer_attach);
    let plan = turn_render_plan(TurnStatus::Completed, true, DeliveryClass::Draining, false, true, None, "t", true);
    assert!(!plan.running && !plan.can_stop && plan.offer_attach);
    let plan = turn_render_plan(TurnStatus::Completed, true, DeliveryClass::Draining, false, true, None, "t", false);
    assert!(!plan.offer_attach);
}

#[test]
fn exited_turns_are_listed_once_in_order() {
    let owned = |v: &[&str]| v.iter().map(|s| s.to_string()).collect::<Vec<_>>();
    let turns = exited_turns(&owned(&["t3", "t1"]), &owned(&["t2", "t1"]), &owned(&["t3"]), Some("t0".to_owned()));
    assert_eq!(turns, owned(&["t0", "t1", "t2", "t3"]));
    assert!(exited_turns(&Vec::new(), &Vec::new(), &Vec::new(), None).is_empty());
    assert_eq!(exited_turns(&owned(&["b", "a", "b"]), &Vec::new(), &Vec::new(), Some("a".to_owned())), owned(&["a", "b"]));
}

#[test]
fn session_exit_clears_the_sessions_admission_state() {
    let mut engine: Engine<u64> = Engine::new();
    let session = SessionId::new("s");
    let conversation = ConversationRef::new(ChannelKind::Telegram, "chat");
    engine.cleanup.defer_attachment(reattachment("c1", "s", 1)).expect("held");
    engine.cleanup.defer_attachment(reattachment("c3", "t", 3)).expect("held");
    engine.input_recovery.enqueue(key("s", "t0"), conversation.clone(), DeliveryClass::Live, 0, 0);
    let id = engine.pending_prompts.start(input("s", "e0", "hello")).expect("admitted");
    assert_eq!(engine.pending_prompts.open_card(&session), Some(id));
    assert!(engine.pending_prompts.hold_pending_card(&session, &conversation, "turn", false, 1, 1));
    assert!(matches!(queue(&mut engine.pending_prompts, "s", "e1", "later"), Ok(Queueing::Queued(_))));
    assert_eq!(engine.active.start_turn(&session, "turn"), None);
    assert_eq!(engine.active.start_turn(&SessionId::new("t"), "other"), None);
    let (cancelled, frozen, notices, turn) = engine.session_exited(&session);
    assert_eq!(turn, Some("turn".to_owned()));
    assert_eq!(engine.active.active_turn(&session), None);
    assert_eq!(engine.active.active_turn(&SessionId::new("t")), Some("other".to_owned()));
    assert_eq!(cancelled, vec![1]);
    assert_eq!(frozen, vec![(id, "turn".to_owned())]);
    assert_eq!(notices.len(), 1);
    assert_eq!(notices[0].title, "Agentix · Input not sent");
    assert!(engine.input_recovery.admits(&key("s", "t0")));
    assert!(engine.pending_prompts.adopt(&session, "turn").is_none());
    assert_eq!(engine.cancel_reattachment(&ConversationRef::new(ChannelKind::Feishu, "c3")), Some(3));
}

#[test]
fn approval_buttons_and_resolution_follow_the_decision() {
    assert_eq!(decision_style("accept"), ActionStyle::Primary);
    assert_eq!(decision_style("acceptForSession"), ActionStyle::Primary);
    assert_eq!(decision_style("decline"), ActionStyle::Danger);
    assert_eq!(decision_style("cancel"), ActionStyle::Default);
    let (body, status) = approval_resolution("Run `ls`?", "accept");
    assert_eq!(body, "Run `ls`?\n\n**Selected:** Allow once");
    assert_eq!(status, ViewStatus::Success);
    let (body, status) = approval_resolution("", "decline");
    assert_eq!(body, "**Selected:** Decline");
    assert_eq!(status, ViewStatus::Warning);
}

#[test]
fn input_buttons_offer_the_options_and_a_free_answer() {
    let mut progress = start_input(vec![question("color", "Color", false, vec![("red", ""), ("blue", "")]), question("name", "Name", false, Vec::new())]);
    assert_eq!(progress.answers, vec![None, None]);
    assert_eq!(progress.current, 0);
    let labels = |p: &InputProgress| input_buttons(p);
    assert_eq!(
        labels(&progress),
        vec![
            ("red".to_owned(), ActionStyle::Primary),
            ("blue".to_owned(), ActionStyle::Primary),
            ("Other…".to_owned(), ActionStyle::Default),
        ]
    );
    progress.current = 1;
    assert_eq!(labels(&progress), vec![("Answer…".to_owned(), ActionStyle::Default)]);
    progress.current = 2;
    assert!(labels(&progress).is_empty());
}

#[test]
fn interaction_cards_name_the_turn_and_wait() {
    let view = interaction_view("Approval", "Run `ls`?", "main", "t1", DeliveryClass::Live, None, Vec::new());
    assert_eq!(view.title, "Approval · main");
    assert_eq!(view.subtitle.as_deref(), Some("Turn t1 · current session"));
    assert_eq!(view.body, "Run `ls`?");
    assert_eq!(view.status, ViewStatus::Waiting);
    let progress = start_input(vec![question("name", "Name", false, Vec::new())]);
    let view = interaction_view("Input", "", "main", "t2", DeliveryClass::Draining, Some(&progress), Vec::new());
    assert_eq!(view.subtitle.as_deref(), Some("Turn t2 · background session"));
    assert_eq!(view.body, input_progress_body(&progress, false));
}

fn summary(
    id: &str,
    name: Option<&str>,
    status: SessionStatus,
    cwd: Option<&str>,
    terminal: Option<SessionTerminal>,
) -> SessionSummary {
    SessionSummary {
        id: SessionId::new(id),
        name: name.map(str::to_owned),
        preview: None,
        status,
        cwd: cwd.map(str::to_owned),
        terminal,
    }
}

#[test]
fn session_commands_are_checked_in_order() {
    let step = |attached, exit, write, supported, asks, idle, active, control| {
        session_command_step(attached, exit, write, supported, asks, idle, active, control, "Codex", "main", "main · abc")
    };
    match step(false, true, true, true, false, false, false, true) {
        SessionCommandStep::Show(view) => {
            assert_eq!(view.title, "Agentix · Session command");
            assert_eq!(view.subtitle.as_deref(), Some("Not attached"));
            assert_eq!(view.body, "Attach a session with `/sessions` before using this command.");
            assert_eq!(view.status, ViewStatus::Warning);
        }
        other => panic!("unexpected {other:?}"),
    }
    assert!(matches!(step(true, true, false, false, false, false, false, false), SessionCommandStep::Detach));
    assert!(matches!(step(true, false, false, true, false, false, false, true), SessionCommandStep::ReadOnly));
    match step(true, false, true, false, true, false, false, true) {
        SessionCommandStep::Notice(title, body) => {
            assert_eq!(title, "Command unavailable");
            assert_eq!(body, "This command is not supported by the attached session.");
        }
        other => panic!("unexpected {other:?}"),
    }
    match step(true, false, true, true, true, true, true, true) {
        SessionCommandStep::AskName(title, body) => {
            assert_eq!(title, "main · Rename");
            assert_eq!(body, "Reply with the new session name. Use `/cancel` to stop.");
        }
        other => panic!("unexpected {other:?}"),
    }
    match step(true, false, true, true, false, true, true, true) {
        SessionCommandStep::Show(view) => {
            assert_eq!(view.title, "Codex · Command unavailable");
            assert_eq!(view.subtitle.as_deref(), Some("main · abc"));
            assert_eq!(view.body, "Wait for the active turn to finish, or use `/stop` first.");
        }
        other => panic!("unexpected {other:?}"),
    }
    match step(true, false, true, true, false, true, false, false) {
        SessionCommandStep::Show(view) => {
            assert_eq!(view.subtitle.as_deref(), Some("Unsupported"));
            assert_eq!(view.body, "Codex does not support attached-session commands.");
        }
        other => panic!("unexpected {other:?}"),
    }
    assert!(matches!(step(true, false, true, true, false, false, true, true), SessionCommandStep::Run));
}

#[test]
fn session_command_answers_and_notices() {
    let view = command_result_view("Model".to_owned(), "gpt".to_owned(), "main", true, Vec::new());
    assert_eq!((view.title.as_str(), view.body.as_str()), ("Model", "gpt"));
    assert_eq!(view.subtitle.as_deref(), Some("main"));
    assert_eq!(view.status, ViewStatus::Running);
    assert_eq!(command_result_view(String::new(), String::new(), "x", false, Vec::new()).status, ViewStatus::Info);
    let failed = command_failed_view("Codex", "main", "boom");
    assert_eq!((failed.title.as_str(), failed.body.as_str()), ("Codex · Command failed", "boom"));
    assert_eq!(failed.status, ViewStatus::Error);
    let notice = read_only_notice("Codex", true);
    assert_eq!(notice.title, "Codex · Read-only session");
    assert_eq!(
        notice.body,
        "This session is connected read-only because another Codex process owns it. Use /history to read its latest content, or the original Codex session to send messages and make changes."
    );
    assert_eq!(
        read_only_notice("Codex", false).body,
        "The Codex session is currently unavailable for changes. Check the original Codex terminal and reconnect."
    );
    let current = current_session_view("Codex", "main", Some("t1"));
    assert_eq!(current.title, "Codex · main");
    assert_eq!(current.subtitle.as_deref(), Some("Turn t1 · running"));
    assert_eq!(current.body, "Session is active.");
    let idle = current_session_view("Codex", "main", None);
    assert_eq!((idle.subtitle, idle.body.as_str()), (None, "Session is idle."));
}

#[test]
fn help_lists_the_commands_available_here() {
    let detached = available_commands(false, true, true, &Vec::new());
    assert_eq!(detached.lines().count(), 5);
    assert!(detached.starts_with("**/help** — Show available commands and their purpose.\n**/sessions [backend]**"));
    let unsupported = vec!["fork".to_owned(), "exit".to_owned()];
    let full = available_commands(true, true, true, &unsupported);
    assert!(full.contains("**/exit** — End the IM connection to the current session."));
    assert!(!full.contains("/fork"));
    assert!(full.contains("**/steer <text>** — Steer the active turn with additional instructions."));
    assert_eq!(full.lines().count(), 5 + 3 + 3 + 14);
    let read_only = available_commands(true, false, true, &Vec::new());
    assert!(read_only.ends_with("**/detach** — Disconnect this conversation from its session.\n\nThis session is connected read-only."));
    assert!(!read_only.contains("/stop"));
    assert_eq!(help_body("x", false, true), "x");
    assert_eq!(help_body("x", true, false), "x\n**/dashboard** — Browse projects; click a project to open its board.");
    assert!(help_body("x", true, true).ends_with("**/inbox <content>** — Append a human requirement"));
    let invalid = invalid_command_view("unknown command", "list");
    assert_eq!(invalid.title, "Invalid command");
    assert_eq!(invalid.body, "**Error:** unknown command\n\n**Available commands**\n\nlist");
    assert_eq!(invalid.status, ViewStatus::Warning);
}

#[test]
fn session_list_quotes_each_session_and_offers_the_others() {
    let sessions = vec![
        summary("a", Some("Alpha"), SessionStatus::Active, Some("/home/u/src"), None),
        summary(
            "b",
            None,
            SessionStatus::Offline,
            None,
            Some(SessionTerminal { session: "work".to_owned(), window_index: 1, window_name: "edit".to_owned(), pane_index: 2 }),
        ),
    ];
    let current = SessionId::new("a");
    let (body, choices) = session_list(&sessions, Some(&current), Some("/home/u"));
    assert_eq!(
        body,
        "> **1 · Alpha** · 📎 **Attached**\n> 🟢 **Status:** Active\n> 📁 **Workspace:** `~/src`\n\n\
         > **2 · Untitled**\n> 🔴 **Status:** Offline\n> 📁 **Workspace:** `unknown workspace`\n\
         > 🖥️ **rmux** · `work` · `1` (`edit`) · `2`"
    );
    assert_eq!(choices.len(), 1);
    assert_eq!(choices[0].0, "2 · Untitled");
    assert!(choices[0].1.same(&SessionId::new("b")));
    let (body, choices) = session_list(&Vec::new(), None, None);
    assert!(body.is_empty() && choices.is_empty());
    let view = sessions_view("Codex", body, Vec::new());
    assert_eq!(view.title, "Existing Codex sessions");
}

#[test]
fn prompts_start_steer_or_queue() {
    assert_eq!(prompt_route(false, true, true), PromptRoute::ReadOnly);
    assert_eq!(prompt_route(true, false, true), PromptRoute::Start);
    assert_eq!(prompt_route(true, true, true), PromptRoute::Queue);
    assert_eq!(prompt_route(true, true, false), PromptRoute::Steer);
}

#[test]
fn queue_views_number_the_waiting_prompts() {
    let queued = queued_view("Codex", Some(2), "next step");
    assert_eq!(queued.title, "Codex · Queued");
    assert_eq!(queued.subtitle.as_deref(), Some("Position #2"));
    assert_eq!(queued.body, "**👤 You**\n\n> next step");
    assert_eq!(queued_view("Codex", None, "x").subtitle, None);
    assert_eq!(queue_body(&Vec::new(), None), "The queue is empty.");
    let prompts = vec!["first".to_owned(), "second".to_owned()];
    assert_eq!(queue_body(&prompts, Some("paused")), "paused\n\n> **1**\n> first\n\n> **2**\n> second");
    let view = queue_view("Codex", "main", 1, "b".to_owned(), Vec::new());
    assert_eq!(view.title, "Codex · main");
    assert_eq!(view.subtitle.as_deref(), Some("Queue · 1 message"));
    assert_eq!(queue_view("Codex", "main", 3, String::new(), Vec::new()).subtitle.as_deref(), Some("Queue · 3 messages"));
}

#[test]
fn attach_and_detach_notices() {
    let named = summary("abcdefghijk", Some(" Alpha "), SessionStatus::Idle, None, None);
    assert_eq!(session_label(Some(&named), &named.id), "Alpha · abcdefgh");
    assert_eq!(session_label(None, &SessionId::new("abcdefghijk")), "Untitled · abcdefgh");
    let retry = agentix_core::domain::ActionButton {
        label: "Retry attach".to_owned(),
        token: "tok".to_owned(),
        style: ActionStyle::Primary,
    };
    let failed = attach_failed_view("Codex", &SessionId::new("s1"), "offline", retry);
    assert_eq!(failed.title, "Codex · Attach failed");
    assert_eq!(failed.subtitle.as_deref(), Some("s1"));
    assert_eq!(failed.body, "offline\n\nRetry below or use /sessions to choose another session.");
    assert_eq!(failed.actions.len(), 1);
    assert_eq!(detached_notice("main"), ("Agentix".to_owned(), "Detached from main.".to_owned()));
    assert_eq!(
        already_attached_notice("Codex", "main"),
        ("Codex · main".to_owned(), "This session is already attached.".to_owned())
    );
}

#[test]
fn restart_and_shutdown_notices_name_the_session() {
    let attached = restored_binding_view(RestoredBindingStatus::Attached, "Codex", "main");
    assert_eq!(attached.title, "Agentix serve");
    assert_eq!(attached.subtitle.as_deref(), Some("Online · Reattached"));
    assert_eq!(attached.body, "Agentix serve is online. Reattached to Codex session main.");
    assert_eq!(attached.status, ViewStatus::Success);
    let waiting = restored_binding_view(RestoredBindingStatus::Offline, "Codex", "main");
    assert_eq!(waiting.subtitle.as_deref(), Some("Online · Waiting for agent"));
    assert_eq!(waiting.status, ViewStatus::Warning);
    let detached = restored_binding_view(RestoredBindingStatus::Detached, "Codex", "main");
    assert_eq!(
        detached.body,
        "Agentix serve is online. Saved Codex session main is no longer running, so this IM conversation remains detached."
    );
    let offline = offline_view("Codex", "main");
    assert_eq!(offline.subtitle.as_deref(), Some("Offline · Detached"));
    assert_eq!(
        offline.body,
        "Saved Codex session main for automatic reattachment. This IM conversation is detached while Agentix serve is offline."
    );
}

fn labels(choices: &[(String, DirectoryAction, ActionStyle)]) -> Vec<&str> {
    choices.iter().map(|c| c.0.as_str()).collect()
}

#[test]
fn directory_preview_offers_candidates_only_when_there_is_a_choice() {
    let one = vec!["/srv".to_owned()];
    let (body, choices) = directory_preview("New session", "/srv", "Attached agent", None, &one);
    assert_eq!(body, "New session\nDirectory: `/srv`\nSource: Attached agent\nCreate an interactive shell, then choose an agent.");
    assert_eq!(labels(&choices), vec!["Create", "Choose directory", "Cancel"]);
    assert!(matches!(&choices[1].1, DirectoryAction::Browse { path, page: 0, hidden: false } if path == "/srv"));
    let two = vec!["/a".to_owned(), "/b".to_owned()];
    let (body, choices) = directory_preview("New window in w", "/a", "Active pane", Some("not found"), &two);
    assert!(body.ends_with("agent.\nnot found"));
    assert_eq!(labels(&choices), vec!["/a", "/b", "Create", "Choose directory", "Cancel"]);
    assert!(matches!(&choices[1].1, DirectoryAction::Select(p) if p == "/b"));
    assert_eq!(choices[4].2, ActionStyle::Danger);
}

#[test]
fn directory_browser_pages_through_subdirectories() {
    let listing = DirectoryListing {
        directory: "/home/u".to_owned(),
        entries: vec![DirectoryEntry { name: "src".to_owned(), path: "/home/u/src".to_owned() }],
        parent: Some("/home".to_owned()),
        page: 1,
        pages: 3,
    };
    let (body, choices) = directory_browser(&listing, false, "/home/u");
    assert_eq!(body, "`/home/u`\nPage 2 / 3");
    assert_eq!(
        labels(&choices),
        vec!["Use this directory", "src", "Parent", "HOME", "Previous", "Next", "Show hidden", "Enter path", "Back", "Cancel"]
    );
    assert!(matches!(&choices[4].1, DirectoryAction::Browse { page: 0, .. }));
    assert!(matches!(&choices[5].1, DirectoryAction::Browse { page: 2, .. }));
    assert!(matches!(&choices[6].1, DirectoryAction::Browse { hidden: true, page: 0, .. }));
    let last = DirectoryListing { directory: "/".to_owned(), entries: Vec::new(), parent: None, page: 0, pages: 1 };
    let (_, choices) = directory_browser(&last, true, "/root");
    assert_eq!(labels(&choices), vec!["Use this directory", "HOME", "Hide hidden", "Enter path", "Back", "Cancel"]);
    let (prompt, back) = directory_input_prompt("/srv");
    assert_eq!(prompt, "Enter a directory path (absolute, ~, or relative to `/srv`). Use /cancel to cancel.");
    assert_eq!(labels(&back), vec!["Back", "Cancel"]);
    let (error, _) = directory_input_error("no such directory");
    assert_eq!(error, "no such directory\nEnter another path or /cancel.");
}

fn workspace() -> MultiplexerSnapshot {
    let mut busy = pane(2, None);
    busy.current_command = "/usr/bin/vim".to_owned();
    busy.active = true;
    MultiplexerSnapshot {
        sessions: vec![
            MultiplexerSession {
                name: "work".to_owned(),
                windows: vec![
                    MultiplexerWindow { index: 0, name: "edit".to_owned(), panes: vec![pane(0, Some("s1")), pane(1, Some("s2"))] },
                    MultiplexerWindow { index: 1, name: "logs".to_owned(), panes: vec![pane(0, None), busy] },
                ],
            },
            MultiplexerSession { name: "idle".to_owned(), windows: Vec::new() },
        ],
    }
}

#[test]
fn workspace_screens_lead_to_the_attached_session() {
    let snapshot = workspace();
    let current = SessionId::new("s1");
    assert_eq!(root_subtitle(2, 1, 3), "2 sessions · 1 window · 3 panes");
    assert_eq!(
        root_buttons(&snapshot, Some(&current)),
        vec![
            ("work".to_owned(), ActionStyle::Primary),
            ("idle".to_owned(), ActionStyle::Default),
            ("+ Session".to_owned(), ActionStyle::Default),
            ("Refresh".to_owned(), ActionStyle::Default),
        ]
    );
    assert_eq!(
        window_buttons(&snapshot.sessions[0], Some(&current)),
        vec![
            ("0 · edit".to_owned(), ActionStyle::Primary),
            ("1 · logs".to_owned(), ActionStyle::Default),
            ("+ Window".to_owned(), ActionStyle::Default),
            ("← Back".to_owned(), ActionStyle::Default),
        ]
    );
    assert_eq!(session_heading(&snapshot.sessions[0]), ("rmux · work".to_owned(), "2 windows".to_owned()));
    assert_eq!(
        window_heading("work", &snapshot.sessions[0].windows[1]),
        ("rmux · work · 1 (logs)".to_owned(), "2 panes".to_owned())
    );
    let attach = pane_buttons(&snapshot.sessions[0].windows[0], Some(&current), "Codex");
    assert_eq!(attach.len(), 1);
    assert_eq!(attach[0].0, "1 · Attach");
    assert!(matches!(&attach[0].1, PaneChoice::Attach(s) if s.same(&SessionId::new("s2"))));
    let launch = pane_buttons(&snapshot.sessions[0].windows[1], Some(&current), "Codex");
    assert_eq!(launch.len(), 1);
    assert_eq!(launch[0].0, "0 · Run Codex");
    assert!(matches!(launch[0].1, PaneChoice::Launch(0)));
    assert_eq!(split_source(&snapshot.sessions[0].windows[1]), Some(1));
    assert_eq!(split_source(&snapshot.sessions[0].windows[0]), Some(0));
    let empty = MultiplexerWindow { index: 9, name: "x".to_owned(), panes: Vec::new() };
    assert_eq!(split_source(&empty), None);
    assert_eq!(split_labels("Codex"), ("Split ↔ + Codex".to_owned(), "Split ↕ + Codex".to_owned()));
    let unsupported = multiplexer_unsupported_view("Codex");
    assert_eq!(unsupported.body, "Codex does not support terminal multiplexer management.");
    assert_eq!(multiplexer_stopped_view().status, ViewStatus::Muted);
}

#[test]
fn redraws_wait_for_the_interval_unless_forced() {
    let mut throttle = agentix_core::render_throttle::RenderThrottle::new();
    let turn = key("s", "t");
    assert!(throttle.should_render(&turn, false, 1000, 5000));
    assert!(!throttle.should_render(&turn, false, 1000, 5999));
    assert!(throttle.should_render(&key("s", "other"), false, 1000, 5999));
    assert!(throttle.should_render(&turn, true, 1000, 5500));
    assert!(!throttle.should_render(&turn, false, 1000, 6000));
    assert!(throttle.should_render(&turn, false, 1000, 6500));
    assert!(!throttle.should_render(&turn, false, 1000, 100));
}

#[test]
fn questions_wait_once_until_finished() {
    let mut questions: QuestionQueue<&str, u64> = QuestionQueue::new();
    let s = SessionId::new("s");
    assert!(questions.receive(&s, "r1", "first"));
    assert!(!questions.receive(&s, "r1", "again"));
    assert!(questions.receive(&SessionId::new("t"), "r2", "other"));
    assert!(questions.receive(&s, "r3", "third"));
    assert_eq!(questions.of_session(&s), vec!["r1".to_owned(), "r3".to_owned()]);
    let (title, body) = question_waiting_notice("Codex", "main");
    assert_eq!(title, "Codex · main");
    assert_eq!(body, "This session is waiting for your answer. Attach to view and answer the question.");
    let view = interaction_view("Question", "?", "main", "t", DeliveryClass::Live, None, Vec::new());
    questions.add_notice(&s, "r1", 7, view);
    let finished = questions.finish(&s, "r1").expect("waiting");
    assert_eq!(finished.request, "first");
    assert_eq!(finished.notices.len(), 1);
    assert!(questions.finish(&s, "r1").is_none());
    assert_eq!(questions.of_session(&s), vec!["r3".to_owned()]);
    let (message, notice) = finished.notices.into_iter().next().unwrap();
    assert_eq!(message, 7);
    let closed = closed_question_notice(notice);
    assert_eq!(closed.title, "Question · main");
    assert_eq!(closed.body, "This question is no longer waiting for an answer.");
    assert_eq!(closed.status, ViewStatus::Muted);
}

#[test]
fn engine_keeps_the_acknowledgement_on_the_prompt_card() {
    let mut engine: Engine<u64> = Engine::new();
    let session = SessionId::new("s");
    let id = engine.pending_prompts.start(input("s", "e0", "hello")).expect("admitted");
    assert_eq!(engine.pending_prompts.open_card(&session), Some(id));
    let failure = acknowledged("s", id, Err(AgentError::Uncertain("timeout".to_owned())));
    engine.record_pending_card_outcome(&failure, "agent did not answer");
    let card = engine.pending_prompts.card_delivered(&delivered(id, Ok(1))).expect("card");
    let view = card.final_view.expect("final view");
    assert_eq!(view.title, "Agentix · Delivery unconfirmed");
    assert_eq!(view.body, "> hello\n\nagent did not answer");
    assert_eq!(view.status, ViewStatus::Warning);
    let other = engine.pending_prompts.start(input("t", "e1", "next"));
    assert!(other.is_ok());
    let id2 = other.unwrap();
    assert_eq!(engine.pending_prompts.open_card(&SessionId::new("t")), Some(id2));
    engine.record_pending_card_outcome(&acknowledged("t", id2, Ok("turn-7")), "");
    let card = engine.pending_prompts.card_delivered(&delivered(id2, Ok(2))).expect("card");
    assert_eq!(card.turn.as_deref(), Some("turn-7"));
    assert!(card.final_view.is_none());
}

#[test]
fn acknowledgements_settle_their_events() {
    assert_eq!(acknowledgement_fate(&Ok("t".to_owned())), (EventFate::Complete, "Agentix · Sent"));
    assert_eq!(
        acknowledgement_fate(&Err(AgentError::Uncertain("lost".to_owned()))),
        (EventFate::Fence, "Agentix · Delivery unconfirmed")
    );
    assert_eq!(acknowledgement_fate(&Err(AgentError::Rejected("no".to_owned()))), (EventFate::Release, "Agentix · Send failed"));
    let view = failure_notice("hi", false, "rejected");
    assert_eq!((view.title.as_str(), view.body.as_str()), ("Agentix · Send failed", "> hi\n\nrejected"));
    assert_eq!(view.status, ViewStatus::Error);
    assert_eq!(
        delivered_elsewhere_notice("hi"),
        ("Agentix · Sent".to_owned(), "> hi\n\nDelivered to the previous session.".to_owned())
    );
    let mut prompts: PendingPrompts<u64> = PendingPrompts::new();
    let session = SessionId::new("s");
    let id = prompts.start(input("s", "e0", "hello")).expect("admitted");
    assert!(prompts.request_stop(&session).0);
    let released = prompts.acknowledge(&acknowledged("s", id, Ok("turn"))).expect("released");
    assert!(released.stop_due(1, None));
    assert!(released.stop_due(1, Some(TurnStatus::InProgress)));
    assert!(!released.stop_due(1, Some(TurnStatus::Completed)));
    assert!(!released.stop_due(2, None));
}

#[test]
fn commentary_start_opens_one_process_block() {
    let mut buffer = agentix_core::turn_buffer::TurnBuffer::new(TurnStatus::InProgress);
    buffer.start_commentary("c1");
    assert_eq!(buffer.output_items.len(), 1);
    assert_eq!(buffer.output_items[0].id.as_deref(), Some("c1"));
    assert!(buffer.output_items[0].process);
    assert!(buffer.output_items[0].text.is_empty());
    buffer.start_commentary("c1");
    assert_eq!(buffer.output_items.len(), 1);
    buffer.start_commentary("c2");
    assert_eq!(buffer.output_items.len(), 2);
}

#[test]
fn deltas_extend_answers_or_visible_commentary() {
    let mut buffer = agentix_core::turn_buffer::TurnBuffer::new(TurnStatus::InProgress);
    buffer.apply_delta("a1", "Hel", true);
    buffer.apply_delta("a1", "lo", true);
    assert_eq!(buffer.output_items.len(), 1);
    assert_eq!(buffer.output_items[0].text, "Hello");
    assert_eq!(buffer.agent_text, "Hello");
    buffer.start_commentary("c1");
    buffer.apply_delta("c1", "thinking", false);
    assert_eq!(buffer.output_items[1].text, "");
    buffer.apply_delta("c1", "thinking", true);
    assert_eq!(buffer.output_items[1].text, "**Reasoning**\n\nthinking");
    buffer.record_error("boom");
    assert_eq!(buffer.output_items.last().unwrap().text, "Error: boom");
}

fn board_task(id: &str, job: &str, status: agentix_core::task_board::TaskStatus, position: i64) -> agentix_core::task_board::BoardTask {
    agentix_core::task_board::BoardTask { id: id.to_owned(), job_id: job.to_owned(), status, position }
}

#[test]
fn board_pages_order_tasks_by_status_lease_position_and_id() {
    let tasks = vec![
        board_task("t1", "j1", agentix_core::task_board::TaskStatus::Todo, 1),
        board_task("t2", "j1", agentix_core::task_board::TaskStatus::InProgress, 5),
        board_task("t3", "other", agentix_core::task_board::TaskStatus::InProgress, 0),
        board_task("t4", "j2", agentix_core::task_board::TaskStatus::Todo, 1),
        board_task("t5", "j2", agentix_core::task_board::TaskStatus::Todo, 0),
        board_task("t6", "j1", agentix_core::task_board::TaskStatus::Done, 0),
        board_task("t7", "j1", agentix_core::task_board::TaskStatus::Blocked, 9),
        board_task("t8", "j1", agentix_core::task_board::TaskStatus::Todo, 1),
    ];
    let jobs = vec!["j1".to_owned(), "j2".to_owned()];
    let current = vec!["t8".to_owned()];
    let (page, pages, shown, count) = agentix_core::task_board::board_page(&tasks, &jobs, &current, 0);
    assert_eq!((pages, shown, count), (2, 0, 7));
    let ids: Vec<&str> = page.iter().map(|t| t.id.as_str()).collect();
    assert_eq!(ids, vec!["t2", "t7", "t8", "t5", "t1", "t4"]);
    let (page, _, shown, _) = agentix_core::task_board::board_page(&tasks, &jobs, &current, 9);
    assert_eq!(shown, 1);
    assert_eq!(page.len(), 1);
    assert_eq!(page[0].id, "t6");
    let (page, pages, shown, count) = agentix_core::task_board::board_page(&tasks, &Vec::new(), &current, 3);
    assert!(page.is_empty());
    assert_eq!((pages, shown, count), (1, 0, 0));
}

#[test]
fn actions_are_checked_against_the_attached_session_and_backend() {
    let s = SessionId::new("s");
    let other = SessionId::new("t");
    assert_eq!(check_action(&ActionRequirement::Nothing, None, None), ActionCheck::Allowed);
    assert_eq!(check_action(&ActionRequirement::QueueSession(SessionId::new("s")), Some(&s), None), ActionCheck::Allowed);
    assert_eq!(check_action(&ActionRequirement::QueueSession(SessionId::new("s")), Some(&other), None), ActionCheck::Invalid);
    assert_eq!(check_action(&ActionRequirement::QueueSession(SessionId::new("s")), None, None), ActionCheck::Invalid);
    assert_eq!(check_action(&ActionRequirement::CommandSession(SessionId::new("s")), None, None), ActionCheck::NotAttached);
    assert_eq!(check_action(&ActionRequirement::CommandSession(SessionId::new("s")), Some(&s), None), ActionCheck::Allowed);
    assert_eq!(check_action(&ActionRequirement::Backend(Some("codex".to_owned())), None, Some("codex")), ActionCheck::Allowed);
    assert_eq!(check_action(&ActionRequirement::Backend(Some("codex".to_owned())), None, None), ActionCheck::Invalid);
    assert_eq!(check_action(&ActionRequirement::Backend(None), None, None), ActionCheck::Allowed);
}

#[test]
fn active_turn_follows_starts_and_completions() {
    let mut active = ActiveTurns::new();
    let session = SessionId::new("s");
    assert_eq!(active.active_turn(&session), None);
    active.adopt(&session, "t1");
    assert_eq!(active.active_turn(&session), Some("t1".to_owned()));
    active.adopt(&session, "t0");
    assert_eq!(active.active_turn(&session), Some("t1".to_owned()));
    assert_eq!(active.start_turn(&session, "t1"), None);
    assert_eq!(active.start_turn(&session, "t2"), Some("t1".to_owned()));
    assert!(!active.finish_turn(&session, "t1"));
    assert_eq!(active.active_turn(&session), Some("t2".to_owned()));
    assert!(active.finish_turn(&session, "t2"));
    assert_eq!(active.active_turn(&session), None);
    assert!(!active.finish_turn(&session, "t2"));
    assert_eq!(active.remove(&session), None);
    active.adopt(&session, "t3");
    assert_eq!(active.remove(&session), Some("t3".to_owned()));
}

fn route_of(session: &str, backend: Option<&str>, names: &[(&str, Option<&str>)]) -> SessionRoute {
    assert_eq!(names[0].0, session);
    SessionRoute {
        session: SessionId::new(session),
        conversation: names[0].1.map(|c| ConversationRef::new(ChannelKind::Telegram, c)),
        backend: backend.map(|b| b.to_owned()),
        aliases: names[1..]
            .iter()
            .map(|(a, c)| SessionAlias {
                session: SessionId::new(a),
                conversation: c.map(|c| ConversationRef::new(ChannelKind::Telegram, c)),
            })
            .collect(),
    }
}

fn conv(id: &str) -> EngineResource {
    EngineResource::Conversation(ConversationRef::new(ChannelKind::Telegram, id))
}

fn sess(id: &str) -> EngineResource {
    EngineResource::Session(SessionId::new(id))
}

fn backend(kind: Option<&str>) -> EngineResource {
    EngineResource::Backend(kind.map(|k| k.to_owned()))
}

#[test]
fn dispatch_scope_reserves_conversations_sessions_and_backends() {
    let chat = ConversationRef::new(ChannelKind::Telegram, "chat");
    let snapshot = EngineDispatchSnapshot::new(
        vec![(chat.clone(), route_of("codex:s1", Some("codex"), &[("codex:s1", Some("chat"))]))],
        vec!["codex".to_owned(), "opencode".to_owned()],
        vec![(
            "tok".to_owned(),
            ActionRoute { session: None, replace_session: false, workspace_mutation: Some(WorkspaceMutation::AllBackends) },
        )],
        vec![(chat.clone(), route_of("n2", None, &[("n2", None), ("codex:n2", Some("other"))]))],
    );
    assert_eq!(snapshot.scope(&EngineWork::Recover), DispatchScope::Global);
    assert_eq!(snapshot.scope(&EngineWork::Event(None)), DispatchScope::Global);
    assert_eq!(
        snapshot.scope(&EngineWork::TaskBoard),
        DispatchScope::Access { shared: vec![], exclusive: vec![EngineResource::TaskBoard] }
    );
    assert_eq!(
        snapshot.scope(&EngineWork::Working(route_of("n2", None, &[("n2", None)]))),
        DispatchScope::Access { shared: vec![backend(Some("codex")), backend(Some("opencode"))], exclusive: vec![sess("n2")] }
    );
    let inbound = |route| EngineWork::Inbound { conversation: chat.clone(), route };
    assert_eq!(
        snapshot.scope(&inbound(InboundRoute::Plain)),
        DispatchScope::Access {
            shared: vec![backend(Some("codex")), backend(Some("codex")), backend(Some("opencode"))],
            exclusive: vec![conv("chat"), conv("chat"), sess("codex:s1"), sess("n2"), conv("other"), sess("codex:n2")],
        }
    );
    assert_eq!(snapshot.scope(&inbound(InboundRoute::Action("late".to_owned()))), DispatchScope::Global);
    match snapshot.scope(&inbound(InboundRoute::Action("tok".to_owned()))) {
        DispatchScope::Access { exclusive, .. } => {
            assert_eq!(exclusive[exclusive.len() - 2..], [backend(Some("codex")), backend(Some("opencode"))]);
        },
        DispatchScope::Global => panic!("known token"),
    }
    match snapshot.scope(&inbound(InboundRoute::SessionCommand { replaces_session: true })) {
        DispatchScope::Access { shared, exclusive } => {
            assert_eq!(shared.len(), 4);
            assert_eq!(exclusive.last(), Some(&backend(Some("codex"))));
            assert_eq!(exclusive.len(), 9);
        },
        DispatchScope::Global => panic!("command"),
    }
    let empty = EngineDispatchSnapshot::new(vec![], vec![], vec![], vec![]);
    assert_eq!(
        empty.scope(&EngineWork::Event(Some(route_of("x", None, &[("x", None)])))),
        DispatchScope::Access { shared: vec![backend(None)], exclusive: vec![sess("x")] }
    );
}

#[test]
fn card_writes_follow_the_newest_revision() {
    let mut card: CardState<u64> = CardState::new(7);
    let first = card.reserve();
    assert_eq!(first, 1);
    assert!(card.is_current(1));
    assert_eq!(card.update_step(1, true, true), UpdateStep::Write { disable_actions: false, edit: true });
    assert_eq!(card.update_step(1, false, true), UpdateStep::Stale);
    let attempt = card.start(false);
    assert_eq!(card.target(), None);
    assert_eq!(card.finish(attempt, 1, WriteOutcome::Delivered, None), UpdateResult::Done(true));
    assert_eq!(card.target(), Some(&7));
    assert_eq!(card.reserve(), 2);
    assert_eq!(card.reserve(), 3);
    assert_eq!(card.update_step(2, true, true), UpdateStep::Stale);
    assert!(card.fence_actions());
    assert_eq!(card.update_step(3, true, true), UpdateStep::Write { disable_actions: true, edit: true });
    assert_eq!(card.update_step(3, true, false), UpdateStep::Write { disable_actions: false, edit: true });
    let attempt = card.start(false);
    assert_eq!(card.finish(attempt, 3, WriteOutcome::Rejected, None), UpdateResult::Failed);
    assert_eq!(card.target(), Some(&7));
    let attempt = card.start(false);
    assert_eq!(card.finish(attempt, 3, WriteOutcome::Lost, None), UpdateResult::SendReplacement);
    assert_eq!(card.target(), None);
    assert_eq!(card.update_step(3, true, true), UpdateStep::Write { disable_actions: true, edit: false });
    let attempt = card.start(true);
    assert_eq!(card.update_step(3, true, true), UpdateStep::ReplacementUncertain);
    assert_eq!(card.finish(attempt, 3, WriteOutcome::Delivered, Some(9)), UpdateResult::Done(true));
    assert_eq!(card.target(), Some(&9));
    assert!(card.fence_actions());
    assert_eq!(card.reserve(), 4);
    let attempt = card.start(true);
    assert_eq!(card.finish(attempt, 4, WriteOutcome::Lost, None), UpdateResult::Failed);
    assert_eq!(card.update_step(4, true, true), UpdateStep::ReplacementUncertain);
    let attempt = card.start(false);
    assert_eq!(card.finish(attempt, 4, WriteOutcome::Withdrawn, None), UpdateResult::Done(false));
}

#[test]
fn restored_bindings_are_announced_only_while_their_epoch_holds() {
    let step = |stage, status, now| restored_binding_step(stage, status, 3, now, "Codex", "main");
    assert!(matches!(step(RestoreStage::Start, RestoredBindingStatus::Attached, 3), RestoreAction::CacheSummary));
    assert!(matches!(step(RestoreStage::Start, RestoredBindingStatus::Offline, 3), RestoreAction::FetchLabel));
    assert!(matches!(step(RestoreStage::Start, RestoredBindingStatus::Attached, 4), RestoreAction::Skip));
    assert!(matches!(step(RestoreStage::Labelled, RestoredBindingStatus::Detached, 3), RestoreAction::UpdateMenu { attached: false }));
    assert!(matches!(step(RestoreStage::Labelled, RestoredBindingStatus::Offline, 3), RestoreAction::UpdateMenu { attached: true }));
    assert!(matches!(step(RestoreStage::Labelled, RestoredBindingStatus::Offline, 2), RestoreAction::Skip));
    assert!(matches!(step(RestoreStage::MenuUpdated, RestoredBindingStatus::Offline, 5), RestoreAction::RefreshMenu));
    match step(RestoreStage::MenuUpdated, RestoredBindingStatus::Attached, 3) {
        RestoreAction::Notify(view) => assert_eq!(view.subtitle.as_deref(), Some("Online · Reattached")),
        _ => panic!("expected a notice"),
    }
    assert!(restored_binding_notice(RestoredBindingStatus::Detached, 3, 4, "Codex", "main").is_none());
    let view = restored_binding_notice(RestoredBindingStatus::Detached, 3, 3, "Codex", "main").expect("notice");
    assert_eq!(view.title, "Agentix serve");
    assert_eq!(view.subtitle.as_deref(), Some("Online · Detached"));
    assert_eq!(view.status, ViewStatus::Warning);
    let s = SessionId::new("s");
    assert!(restored_turn_renders(1, 1, Some(&s), &SessionId::new("s"), true));
    assert!(!restored_turn_renders(1, 2, Some(&s), &SessionId::new("s"), true));
    assert!(!restored_turn_renders(1, 1, Some(&SessionId::new("t")), &s, true));
    assert!(!restored_turn_renders(1, 1, None, &s, true));
    assert!(!restored_turn_renders(1, 1, Some(&s), &SessionId::new("s"), false));
}

#[test]
fn workspaces_below_home_are_shown_from_home() {
    assert_eq!(home_relative_label("/home/u", Some("")), "~");
    assert_eq!(home_relative_label("/home/u/src/app", Some("src/app")), "~/src/app");
    assert_eq!(home_relative_label("/srv/app", None), "/srv/app");
    assert_eq!(display_workspace(Some("/home/u/src"), Some("/home/u")), "~/src");
    assert_eq!(display_workspace(Some("/home/u"), Some("/home/u")), "~");
    assert_eq!(display_workspace(Some("/home/user2"), Some("/home/u")), "/home/user2");
    assert_eq!(display_workspace(None, Some("/home/u")), "unknown workspace");
}

#[test]
fn recovery_requests_are_refused_when_closed_or_pending() {
    let mut recovery = InputRecovery::new();
    let chat = ConversationRef::new(ChannelKind::Telegram, "chat");
    let (id, started) = recovery.request(key("s", "t"), chat.clone(), DeliveryClass::Live, 1, 2).expect("admitted");
    assert_eq!(id, 0);
    assert_eq!(started.len(), 1);
    assert!(recovery.request(key("s", "t"), chat.clone(), DeliveryClass::Live, 1, 2).is_none());
    let (id, _) = recovery.request(key("s", "u"), chat.clone(), DeliveryClass::Live, 1, 2).expect("admitted");
    assert_eq!(id, 1);
    recovery.cancel_all();
    assert!(recovery.request(key("s", "v"), chat, DeliveryClass::Live, 1, 2).is_none());
}

#[test]
fn replaced_messages_keep_writing_the_same_card() {
    let mut writes = CardRegistry::new();
    assert_eq!(writes.card_of("m1"), None);
    let (card, revision) = writes.reserve("m1");
    assert_eq!((card, revision), (0, 1));
    assert_eq!(writes.reserve("other"), (1, 1));
    assert_eq!(writes.update_step(card, revision, true, false), UpdateStep::Write { disable_actions: false, edit: true });
    let (card, revision) = writes.reserve("m1");
    assert_eq!(revision, 2);
    assert_eq!(writes.update_step(card, 1, true, false), UpdateStep::Stale);
    assert!(writes.is_current(card, 2));
    assert_eq!(writes.update_step(card, revision, true, false), UpdateStep::Write { disable_actions: false, edit: true });
    let attempt = writes.start(card, false);
    assert_eq!(writes.finish(card, attempt, revision, WriteOutcome::Lost, None), UpdateResult::SendReplacement);
    assert_eq!(writes.update_step(card, revision, true, false), UpdateStep::Write { disable_actions: false, edit: false });
    let attempt = writes.start(card, true);
    assert_eq!(writes.finish(card, attempt, revision, WriteOutcome::Delivered, Some("m2".to_owned())), UpdateResult::Done(true));
    assert_eq!(writes.target(card), Some(&"m2".to_owned()));
    assert_eq!(writes.card_of("m2"), Some(card));
    assert_eq!(writes.card_of("m1"), Some(card));
    assert_eq!(writes.reserve("m2"), (card, 3));
    assert_eq!(writes.reserve("m1"), (card, 4));
    assert!(!writes.is_current(card, 3));
    let (fenced, needed) = writes.fence_actions("m2");
    assert_eq!(fenced, card);
    assert!(needed);
    assert_eq!(writes.update_step(card, 4, true, true), UpdateStep::Write { disable_actions: true, edit: true });
    let (fresh, needed) = writes.fence_actions("m3");
    assert_eq!(fresh, 2);
    assert!(needed);
}

#[test]
fn an_unbound_exited_session_leaves_no_turn_state() {
    let mut engine: Engine<u64> = Engine::new();
    let session = SessionId::new("s");
    engine.views.insert(key("s", "t1"), 10);
    engine.views.insert(key("s", "t2"), 11);
    engine.views.insert(key("o", "t1"), 12);
    engine.views.insert(key("s", "t1"), 13);
    assert_eq!(engine.views.get(&key("s", "t1")), Some(&13));
    engine.last_renders.insert(key("s", "t2"), 500);
    engine.last_renders.insert(key("o", "t9"), 600);
    assert_eq!(engine.active.start_turn(&session, "t2"), None);
    assert_eq!(engine.forget_session_turns(&session), Some("t2".to_owned()));
    assert_eq!(engine.views.get(&key("s", "t1")), None);
    assert_eq!(engine.views.get(&key("s", "t2")), None);
    assert_eq!(engine.views.get(&key("o", "t1")), Some(&12));
    assert_eq!(engine.last_renders.get(&key("s", "t2")), None);
    assert_eq!(engine.last_renders.get(&key("o", "t9")), Some(&600));
    assert_eq!(engine.active.active_turn(&session), None);
    assert_eq!(engine.forget_session_turns(&session), None);
    engine.views.remove(&key("o", "t1"));
    assert_eq!(engine.views.get(&key("o", "t1")), None);
}

#[test]
fn session_commands_need_access_and_session_control() {
    let message = |r: Result<(), AgentError>| match r {
        Err(AgentError::Rejected(m)) => m,
        other => panic!("unexpected {other:?}"),
    };
    assert_eq!(message(command_access(false, true, true)), "The original session is unavailable for changes");
    assert_eq!(message(command_access(true, false, true)), "Operation is not supported by this session");
    assert_eq!(message(command_access(true, true, false)), "Session commands are unavailable");
    assert!(command_access(true, true, true).is_ok());
}

#[test]
fn board_text_counts_statuses_and_marks_current_tasks() {
    let tasks = vec![
        board_task("t1", "j1", TaskStatus::Todo, 1),
        board_task("t2", "j1", TaskStatus::InProgress, 5),
        board_task("t3", "other", TaskStatus::InProgress, 0),
        board_task("t4", "j1", TaskStatus::Todo, 0),
    ];
    let jobs = vec!["j1".to_owned()];
    let order = vec![(TaskStatus::Todo, "todo".to_owned()), (TaskStatus::InProgress, "in progress".to_owned())];
    let counts = status_counts(&tasks, &jobs, &order);
    assert_eq!(counts, vec![("todo".to_owned(), 2), ("in progress".to_owned(), 1)]);
    assert_eq!(board_heading(&BoardScope::Session("s1".to_owned())), "**Session:** `s1`");
    assert_eq!(board_heading(&BoardScope::Project("a_b".to_owned())), "**Project:** a\\_b");
    let summary = task_summary(&TaskEntry {
        title: "Fix *it*".to_owned(),
        status_name: "in progress".to_owned(),
        phase: Some("review".to_owned()),
        reason: Some("waiting.".to_owned()),
    });
    assert_eq!(summary, "**Fix \\*it\\***\nin progress · review\nwaiting\\.");
    let page = vec![board_task("t2", "j1", TaskStatus::InProgress, 5), board_task("t4", "j1", TaskStatus::Todo, 0)];
    let current = vec!["t4".to_owned()];
    let body = board_body("H", 1, 3, &counts, &page, &current, &vec!["A".to_owned(), "B".to_owned()]);
    assert_eq!(body, "H\n1 jobs · 3 tasks\ntodo (2)\nin progress (1)\n\nA\n\nCurrent · B");
    let empty = board_body("H", 0, 0, &Vec::new(), &Vec::new(), &current, &Vec::new());
    assert_eq!(empty, "H\n0 jobs · 0 tasks\n\nNo associated tasks.");
}

#[test]
fn questions_are_shown_with_controls_only_where_attached() {
    let chat = ConversationRef::new(ChannelKind::Telegram, "chat");
    let other = ConversationRef::new(ChannelKind::Feishu, "chat");
    match route_question(Some(&chat), false) {
        QuestionRoute::Show(c) => assert_eq!(c, chat),
        route => panic!("unexpected {route:?}"),
    }
    assert!(matches!(route_question(None, true), QuestionRoute::NotifyOwners));
    assert!(matches!(route_question(None, false), QuestionRoute::Hold));
    assert_eq!(queued_question_step(Some((&chat, true)), &chat), QueuedQuestionStep::Reissue);
    assert_eq!(queued_question_step(Some((&chat, false)), &chat), QueuedQuestionStep::ResolveElsewhereThenRender);
    assert_eq!(queued_question_step(Some((&other, true)), &chat), QueuedQuestionStep::ResolveElsewhereThenRender);
    assert_eq!(queued_question_step(None, &chat), QueuedQuestionStep::Render);
}

#[test]
fn a_command_leaves_the_conversation_on_its_target_session() {
    let mut engine: Engine<u64> = Engine::new();
    let session = SessionId::new("s");
    assert_eq!(engine.active.start_turn(&session, "t1"), None);
    let (target, was_active) = engine.command_succeeded(&session, Some(SessionId::new("fork")), Some("t9"));
    assert_eq!(target, SessionId::new("fork"));
    assert!(was_active);
    assert_eq!(engine.active.active_turn(&SessionId::new("fork")), Some("t9".to_owned()));
    assert_eq!(engine.active.active_turn(&session), Some("t1".to_owned()));
    let (target, was_active) = engine.command_succeeded(&SessionId::new("idle"), None, None);
    assert_eq!(target, SessionId::new("idle"));
    assert!(!was_active);
    assert_eq!(engine.active.active_turn(&target), None);
}
