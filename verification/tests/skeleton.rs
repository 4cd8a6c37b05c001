use agent_harness::skeleton::brain::{resolution_display, Advance, Brain, Flight, Resolved};
use agent_harness::skeleton::context::Context;
use agent_harness::skeleton::events::EventKind;
use agent_harness::skeleton::face::{classify, help_text, opened_file, render, LineAction};
use agent_harness::skeleton::limb::{command_output, listing, plan, tool_error, Limb, ToolPlan};
use agent_harness::skeleton::protocol::{AssistantMessage, Contribution, DisplayItem, Outcome, ToolCall, ToolCallFunction};
use agent_harness::skeleton::state::{JournalRecord, SessionState, StateEntry, TranscriptEntry};
use agent_harness::skeleton::view::render_tool_outcome;

fn call(id: &str, name: &str, arguments: &str) -> ToolCall {
    ToolCall {
        id: id.to_string(),
        call_type: "function".to_string(),
        function: ToolCallFunction { name: name.to_string(), arguments: arguments.to_string() },
    }
}

fn answer(text: Option<&str>, calls: Vec<ToolCall>) -> Outcome<AssistantMessage> {
    Outcome::Completed { value: AssistantMessage { text: text.map(str::to_string), tool_calls: calls } }
}

fn record(state: &mut SessionState, entry: StateEntry) {
    let r = state.next_record(entry, 0);
    state.commit(r);
}

fn transcript(state: &mut SessionState, item: TranscriptEntry) {
    record(state, StateEntry::Transcript { item });
}

fn session() -> SessionState {
    let mut s = SessionState::empty();
    record(&mut s, StateEntry::SystemPrompt { text: "be brief".to_string() });
    s
}

fn roles_and_contents(state: &SessionState) -> Vec<(String, Option<String>)> {
    state.request_parts().messages.into_iter().map(|m| (m.role, m.content)).collect()
}

#[test]
fn the_model_view_composes_the_latest_environment_facts() {
    let mut s = session();
    record(&mut s, StateEntry::Contribution { name: "model".to_string(), contribution: Contribution::Fact { text: "m1".to_string() } });
    record(&mut s, StateEntry::Contribution { name: "tool".to_string(), contribution: Contribution::Tool { def: "{\"x\":1}".to_string() } });
    record(&mut s, StateEntry::Contribution { name: "host".to_string(), contribution: Contribution::Fact { text: "h".to_string() } });
    record(&mut s, StateEntry::Contribution { name: "model".to_string(), contribution: Contribution::Fact { text: "m2".to_string() } });
    assert_eq!(s.composed_system(), "be brief\n\n[environment]\n- model: m2\n- host: h\n");
    assert_eq!(s.tools(), vec!["{\"x\":1}".to_string()]);
    assert_eq!(s.wire_message_count(), 1);
}

#[test]
fn an_unstarted_call_never_reaches_the_model() {
    let mut s = session();
    transcript(&mut s, TranscriptEntry::UserMessage { text: "list".to_string(), arrived_during_exchange: false });
    transcript(&mut s, TranscriptEntry::RequestOutcome {
        request_id: 0,
        outcome: answer(Some("ok"), vec![call("c1", "list_files", "{}"), call("c2", "bash", "{}")]),
    });
    transcript(&mut s, TranscriptEntry::ToolStarted { call: call("c1", "list_files", "{}") });
    transcript(&mut s, TranscriptEntry::ToolOutcome { call_id: "c1".to_string(), outcome: Outcome::Completed { value: "a\nb".to_string() } });
    assert!(s.tool_started("c1"));
    assert!(!s.tool_started("c2"));
    assert!(s.knows_tool_call("c2"));
    assert!(!s.knows_tool_call("c9"));
    let p = s.project();
    let messages = &p.parts.messages;
    assert_eq!(messages.len(), 4);
    let calls = messages[2].tool_calls.as_ref().unwrap();
    assert_eq!(calls.len(), 1);
    assert_eq!(calls[0].id, "c1");
    assert_eq!(messages[3].role, "tool");
    assert_eq!(messages[3].tool_call_id.as_deref(), Some("c1"));
    assert_eq!(p.unexecuted.len(), 1);
    assert_eq!(p.unexecuted[0].0, 2);
    assert_eq!(p.unexecuted[0].1[0].id, "c2");
}

#[test]
fn user_activity_during_a_tool_call_waits_for_its_result() {
    let mut s = session();
    transcript(&mut s, TranscriptEntry::RequestOutcome { request_id: 0, outcome: answer(None, vec![call("c1", "bash", "{}")]) });
    transcript(&mut s, TranscriptEntry::ToolStarted { call: call("c1", "bash", "{}") });
    assert!(s.exchange_open());
    let entry = s.user_activity_entry("notes.md".to_string(), 5, "hello".to_string());
    match &entry {
        StateEntry::Transcript { item: TranscriptEntry::UserActivity { arrived_during_exchange, .. } } => assert!(*arrived_during_exchange),
        _ => panic!("not a user activity"),
    }
    record(&mut s, entry);
    transcript(&mut s, TranscriptEntry::ToolOutcome { call_id: "c1".to_string(), outcome: Outcome::Failed { error: "boom".to_string() } });
    assert!(!s.exchange_open());
    let view = roles_and_contents(&s);
    assert_eq!(view.len(), 4);
    assert_eq!(view[1], ("assistant".to_string(), None));
    assert_eq!(view[2], ("tool".to_string(), Some("[tool error] boom".to_string())));
    assert_eq!(view[3], ("user".to_string(), Some("[user activity] opened file notes.md; first lines:\nhello".to_string())));
    assert_eq!(s.project().annotations, vec![3]);
}

#[test]
fn a_user_message_left_held_still_reaches_the_model_last() {
    let mut s = session();
    transcript(&mut s, TranscriptEntry::RequestOutcome { request_id: 0, outcome: answer(None, vec![call("c1", "bash", "{}")]) });
    transcript(&mut s, TranscriptEntry::ToolStarted { call: call("c1", "bash", "{}") });
    let entry = s.user_message_entry("stop".to_string());
    record(&mut s, entry);
    let view = roles_and_contents(&s);
    assert_eq!(view.last().unwrap(), &("user".to_string(), Some("stop".to_string())));
}

#[test]
fn replaying_a_journal_gives_back_its_state() {
    let mut s = session();
    transcript(&mut s, TranscriptEntry::UserMessage { text: "hi".to_string(), arrived_during_exchange: false });
    transcript(&mut s, TranscriptEntry::TurnEnd);
    let records = vec![
        JournalRecord { seq: 0, ts_ms: 5, entry: StateEntry::SystemPrompt { text: "be brief".to_string() } },
        JournalRecord { seq: 1, ts_ms: 6, entry: StateEntry::Transcript { item: TranscriptEntry::UserMessage { text: "hi".to_string(), arrived_during_exchange: false } } },
        JournalRecord { seq: 2, ts_ms: 7, entry: StateEntry::Transcript { item: TranscriptEntry::TurnEnd } },
    ];
    let replayed = SessionState::replay("j.jsonl", records).unwrap();
    assert_eq!(replayed.next_seq, s.next_seq);
    assert_eq!(roles_and_contents(&replayed), roles_and_contents(&s));
    let bad = vec![
        JournalRecord { seq: 0, ts_ms: 5, entry: StateEntry::SystemPrompt { text: "x".to_string() } },
        JournalRecord { seq: 2, ts_ms: 6, entry: StateEntry::Transcript { item: TranscriptEntry::Quit } },
    ];
    assert_eq!(
        SessionState::replay("j.jsonl", bad).err().unwrap(),
        "session journal j.jsonl has sequence 2 where 1 was expected"
    );
}

#[test]
fn a_turn_runs_request_tools_request_and_ends_once() {
    let mut brain = Brain::new();
    assert!(brain.on_turn_end());
    assert!(!brain.on_turn_end());
    assert_eq!(brain.begin_request(), 0);
    let (advance, entry) = brain.record_resolution(Resolved::Request {
        request_id: 0,
        outcome: answer(None, vec![call("c1", "bash", "{}"), call("c2", "bash", "{}")]),
    });
    assert!(matches!(advance, Advance::StartTool));
    assert!(matches!(entry, StateEntry::Transcript { item: TranscriptEntry::RequestOutcome { request_id: 0, .. } }));
    let first = brain.next_tool().unwrap();
    assert_eq!(first.id, "c1");
    brain.dispatched(first);
    assert_eq!(
        brain.accept_tool_outcome("c9").unwrap_err(),
        "brain received outcome for tool call c9, but that call is not in flight"
    );
    let call1 = brain.accept_tool_outcome("c1").unwrap();
    assert!(matches!(brain.in_flight, Flight::Idle));
    let (advance, _) = brain.record_resolution(Resolved::Tool { call: call1, outcome: Outcome::Completed { value: "x".to_string() } });
    assert!(matches!(advance, Advance::StartTool));
    let second = brain.next_tool().unwrap();
    let (advance, _) = brain.record_resolution(Resolved::Tool { call: second, outcome: Outcome::Completed { value: "y".to_string() } });
    assert!(matches!(advance, Advance::StartRequest));
    assert_eq!(brain.next_tool().unwrap_err(), "brain tried to start a tool with no pending call");
    assert_eq!(brain.begin_request(), 1);
    let (advance, _) = brain.record_resolution(Resolved::Request { request_id: 1, outcome: answer(Some("done"), vec![]) });
    match advance {
        Advance::TurnDone(outcome) => {
            assert!(matches!(brain.finish_turn(outcome), Some(Outcome::Completed { .. })));
        }
        _ => panic!("the turn did not end"),
    }
    assert!(brain.finish_turn(Outcome::Completed { value: () }).is_none());
}

#[test]
fn a_cancelled_tool_call_ends_the_turn_and_drops_the_rest() {
    let mut brain = Brain::new();
    brain.on_turn_end();
    brain.begin_request();
    brain.record_resolution(Resolved::Request { request_id: 0, outcome: answer(None, vec![call("c1", "bash", "{}"), call("c2", "bash", "{}")]) });
    let c1 = brain.next_tool().unwrap();
    let (advance, _) = brain.record_resolution(Resolved::Tool { call: c1, outcome: Outcome::Cancelled { reason: "user".to_string() } });
    match advance {
        Advance::TurnDone(Outcome::Cancelled { reason }) => assert_eq!(reason, "tool call cancelled"),
        _ => panic!("a cancelled call did not end the turn"),
    }
    assert!(brain.pending_calls.is_empty());
    match brain.settle(Advance::StartTool, "cancelled by user") {
        Some(Outcome::Cancelled { reason }) => assert_eq!(reason, "cancelled by user"),
        _ => panic!("a live turn was not ended"),
    }
    let (shown, ended) = brain.limb_gone();
    assert!(matches!(shown, Outcome::Panicked { .. }));
    assert!(ended.is_none());
}

#[test]
fn a_failed_request_ends_the_turn_with_its_error() {
    let mut brain = Brain::new();
    let (advance, _) = brain.record_resolution(Resolved::Request { request_id: 0, outcome: Outcome::Failed { error: "503".to_string() } });
    match advance {
        Advance::TurnDone(Outcome::Failed { error }) => assert_eq!(error, "503"),
        _ => panic!("a failed request did not end the turn"),
    }
    match resolution_display(&Resolved::Tool { call: call("c", "bash", "{}"), outcome: Outcome::Panicked { payload: "p".to_string() } }) {
        DisplayItem::ToolResolved { outcome: Outcome::Panicked { payload } } => assert_eq!(payload, "p"),
        _ => panic!("wrong display"),
    }
}

#[test]
fn typed_lines_are_classified() {
    assert!(matches!(classify("   "), LineAction::Nothing));
    assert!(matches!(classify(" /quit "), LineAction::Quit));
    assert!(matches!(classify("/end"), LineAction::End));
    assert!(matches!(classify("/cancel"), LineAction::Cancel));
    assert!(matches!(classify("/rebuild"), LineAction::Rebuild));
    assert!(matches!(classify("/dump"), LineAction::Dump));
    match classify("/open /open notes.md ") {
        LineAction::Open { path } => assert_eq!(path, "notes.md"),
        _ => panic!("not an open"),
    }
    match classify("  hello there ") {
        LineAction::Stage { text } => assert_eq!(text, "hello there"),
        _ => panic!("not staged"),
    }
    match classify("/opening") {
        LineAction::Stage { text } => assert_eq!(text, "/opening"),
        _ => panic!("not staged"),
    }
}

#[test]
fn display_items_read_as_the_terminal_shows_them() {
    assert_eq!(render(&DisplayItem::RequestStarted { request_id: 7 }).unwrap(), "[brain] request 7 in flight");
    assert_eq!(
        render(&DisplayItem::RequestResolved { outcome: answer(Some("hi"), vec![]) }).unwrap(),
        "[agent] hi"
    );
    assert_eq!(render(&DisplayItem::RequestResolved { outcome: answer(Some(""), vec![]) }), None);
    assert_eq!(
        render(&DisplayItem::ToolStarted { name: "bash".to_string(), arguments: "{}".to_string() }).unwrap(),
        "[limb] tool call: bash({})"
    );
    assert_eq!(
        render(&DisplayItem::ToolResolved { outcome: Outcome::Completed { value: "héllo".to_string() } }).unwrap(),
        format!("[limb] tool result: {} bytes", "héllo".len())
    );
    assert_eq!(
        render(&DisplayItem::TurnResolved { outcome: Outcome::Cancelled { reason: "user".to_string() } }).unwrap(),
        "[brain] turn cancelled: user"
    );
    assert_eq!(
        render(&DisplayItem::ContextRebuilt { wire_messages: 12 }).unwrap(),
        "[brain] context rebuilt (12 wire messages)"
    );
    assert!(help_text("http://x", "m").starts_with("walking-skeleton — provider http://x model m\n"));
}

#[test]
fn an_opened_file_contributes_its_size_and_first_twenty_lines() {
    let content: String = (1..=25).map(|i| format!("line {i}\n")).collect();
    let (bytes, head) = opened_file(&content);
    assert_eq!(bytes, content.len());
    let expected: Vec<&str> = content.lines().take(20).collect();
    assert_eq!(head, expected.join("\n"));
}

#[test]
fn tool_calls_are_planned_from_their_arguments() {
    assert!(matches!(plan("list_files", "{}"), ToolPlan::List { path } if path == "."));
    assert!(matches!(plan("list_files", "not json"), ToolPlan::List { path } if path == "."));
    assert!(matches!(plan("read_file", r#"{"path": "a.txt"}"#), ToolPlan::Read { path } if path == "a.txt"));
    assert!(matches!(plan("read_file", r#"{"path": 3}"#), ToolPlan::Refuse { error } if error == "missing required argument 'path'"));
    assert!(matches!(plan("bash", r#"{"command": "ls"}"#), ToolPlan::Bash { command } if command == "ls"));
    assert!(matches!(plan("bash", "{}"), ToolPlan::Refuse { error } if error == "missing required argument 'command'"));
    assert!(matches!(plan("rm", "{}"), ToolPlan::Refuse { error } if error == "unknown tool 'rm'"));
    assert_eq!(listing(vec!["b".to_string(), "a".to_string()]), "a\nb");
    assert_eq!(command_output("out", "", true, "exit status: 0"), "out");
    assert_eq!(command_output("out", "err", false, "exit status: 1"), "out\n[stderr]\nerr\n[exit status: exit status: 1]");
    assert!(matches!(tool_error("error listing x", "denied"), Outcome::Failed { error } if error == "error listing x: denied"));
    assert_eq!(render_tool_outcome(&Outcome::Cancelled { reason: "r".to_string() }), "[tool cancelled] r");
    let limb = Limb { root: "/w".to_string() };
    let names: Vec<String> = limb.contributions("box".to_string()).into_iter().map(|(n, _)| n).collect();
    assert_eq!(names, vec!["list_files", "read_file", "bash", "hostname"]);
}

#[test]
fn rebuilding_the_context_gives_back_the_appended_view() {
    let mut context = Context::new();
    context.append(EventKind::SessionStarted { system_prompt: "p".to_string() });
    context.append(EventKind::UserMessage { text: "u1".to_string() });
    context.append(EventKind::RequestOutcome { request_id: 0, outcome: answer(None, vec![call("c1", "bash", "{}")]) });
    context.append(EventKind::FileOpened { path: "f".to_string(), bytes: 1, head: "x".to_string() });
    let held = context.model_view();
    assert_eq!(held.last().unwrap().content.as_deref(), Some("[user activity] opened file f; first lines:\nx"));
    let event = context.append(EventKind::ToolCallOutcome { call_id: "c1".to_string(), outcome: Outcome::Completed { value: "out".to_string() } });
    assert_eq!(event.seq, 4);
    let before: Vec<(String, Option<String>)> = context.model_view().into_iter().map(|m| (m.role, m.content)).collect();
    assert_eq!(before.len(), 5);
    assert_eq!(before[3], ("tool".to_string(), Some("out".to_string())));
    assert_eq!(before[4].0, "user");
    let count = context.rebuild();
    assert_eq!(count, 5);
    let after: Vec<(String, Option<String>)> = context.model_view().into_iter().map(|m| (m.role, m.content)).collect();
    assert_eq!(after, before);
}

#[test]
fn every_user_record_stands_in_the_view_exactly_once() {
    let mut s = session();
    transcript(&mut s, TranscriptEntry::UserMessage { text: "first".to_string(), arrived_during_exchange: false });
    transcript(&mut s, TranscriptEntry::RequestOutcome { request_id: 0, outcome: answer(Some(""), vec![call("c1", "bash", "{}")]) });
    transcript(&mut s, TranscriptEntry::ToolStarted { call: call("c1", "bash", "{}") });
    let held = s.user_message_entry("second".to_string());
    record(&mut s, held);
    transcript(&mut s, TranscriptEntry::ToolOutcome { call_id: "c1".to_string(), outcome: Outcome::Completed { value: "ok".to_string() } });
    transcript(&mut s, TranscriptEntry::TurnEnd);
    let view = roles_and_contents(&s);
    for text in ["first", "second"] {
        assert_eq!(view.iter().filter(|(role, content)| role == "user" && content.as_deref() == Some(text)).count(), 1);
    }
    let roles: Vec<&str> = view.iter().map(|(role, _)| role.as_str()).collect();
    assert_eq!(roles, vec!["system", "user", "assistant", "tool", "user"]);
}
