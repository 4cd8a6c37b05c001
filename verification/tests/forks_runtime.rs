use agent_harness::forks::agent::{AgentState, Fault, FaultKind, Outcome};
use agent_harness::forks::chat::{busy_line, exit_status, idle_line, on_interrupt, BusyLine, IdleLine, Interrupt};
use agent_harness::forks::framing::Cut;
use agent_harness::forks::run::{
    next_handoff, render_context, turn_gate, Ledger, RetrySchedule, RetryStep, Tally, TokenUsage, TurnGate,
};
use agent_harness::forks::face::Face;
use agent_harness::forks::framing::scope_result;
use agent_harness::forks::scope::{
    after_reply, child_context, context_line, plan_turn, push_results, shared_prefix, turn_is_ready, Local, ParentTurn, ReplyStep,
};
use agent_harness::forks::wire::{Message, Retryable, ToolCall, ToolCallFunction};

fn call(id: &str, name: &str, arguments: &str) -> ToolCall {
    ToolCall {
        id: id.to_string(),
        call_type: "function".to_string(),
        function: ToolCallFunction { name: name.to_string(), arguments: arguments.to_string() },
    }
}

fn usage(prompt: u64, completion: u64, cached: u64, written: u64) -> TokenUsage {
    TokenUsage { prompt_tokens: prompt, completion_tokens: completion, cached_tokens: cached, cache_write_tokens: written }
}

#[test]
fn a_turn_sorts_its_calls_into_locals_refusals_and_one_scope() {
    let calls = vec![
        call("c0", "list_dir", r#"{"path":"src"}"#),
        call("c1", "task", r#"{"agents":[]}"#),
        call("c2", "read_file", r#"{"path":"a.txt"}"#),
        call("c3", "task", "{}"),
        call("c4", "shell", "{}"),
        call("c5", "read_file", "{}"),
    ];
    let plan = plan_turn(&calls);
    assert_eq!(plan.scope_at, Some(1));
    assert_eq!(plan.locals.len(), 3);
    assert!(matches!(&plan.locals[0], (0, Local::ListDir(p)) if p == "src"));
    assert!(matches!(&plan.locals[1], (2, Local::ReadFile(p)) if p == "a.txt"));
    assert!(matches!(&plan.locals[2], (5, Local::ReadFile(p)) if p.is_empty()));
    assert_eq!(
        plan.refusals,
        vec![
            (3, "Error: only one `task` call per turn. This one did not run.".to_string()),
            (4, "Error: there is no tool called `shell`.".to_string()),
        ]
    );
}

#[test]
fn a_turn_without_a_task_call_opens_no_scope() {
    let plan = plan_turn(&vec![call("c0", "list_dir", r#"{"path":"."}"#)]);
    assert_eq!(plan.scope_at, None);
    assert!(plan.refusals.is_empty());
    assert_eq!(plan.locals.len(), 1);
}

fn parent_turn() -> ParentTurn {
    let calls = vec![call("c0", "list_dir", r#"{"path":"."}"#), call("c1", "task", r#"{"agents":[{"name":"a","task":"t"},{"name":"b","task":"u"}]}"#)];
    let mut assistant = Message::new("assistant", "splitting");
    assistant.tool_calls = Some(vec![
        call("c0", "list_dir", r#"{"path":"."}"#),
        call("c1", "task", r#"{"agents":[{"name":"a","task":"t"},{"name":"b","task":"u"}]}"#),
    ]);
    ParentTurn {
        messages: vec![Message::new("system", "prompt"), Message::new("user", "do it"), assistant],
        calls,
        call_index: 1,
        results: vec![Some(Message::tool_result("c0", "a.txt\nb.txt")), None],
    }
}

#[test]
fn a_fresh_child_starts_from_the_system_prompt_and_its_assignment() {
    let turn = parent_turn();
    let ctx = child_context(Cut::Full, true, &turn, r#"{"name":"a","task":"t"}"#, "ASSIGN");
    assert_eq!(ctx.len(), 2);
    assert_eq!(ctx[0].role, "system");
    assert_eq!(ctx[0].content.as_deref(), Some("prompt"));
    assert_eq!(ctx[1].role, "user");
    assert_eq!(ctx[1].content.as_deref(), Some("ASSIGN"));
}

#[test]
fn a_child_cut_before_the_task_turn_gets_the_assignment_as_a_user_message() {
    let turn = parent_turn();
    let ctx = child_context(Cut::Before, false, &turn, r#"{"name":"a","task":"t"}"#, "ASSIGN");
    let roles: Vec<&str> = ctx.iter().map(|m| m.role.as_str()).collect();
    assert_eq!(roles, vec!["system", "user", "user"]);
    assert_eq!(ctx[1].content.as_deref(), Some("do it"));
    assert_eq!(ctx[2].content.as_deref(), Some("ASSIGN"));
}

#[test]
fn a_full_fork_keeps_the_parent_turn_and_answers_the_task_call_with_the_assignment() {
    let turn = parent_turn();
    let ctx = child_context(Cut::Full, false, &turn, r#"{"name":"a","task":"t"}"#, "ASSIGN");
    let roles: Vec<&str> = ctx.iter().map(|m| m.role.as_str()).collect();
    assert_eq!(roles, vec!["system", "user", "assistant", "tool", "tool"]);
    let calls = ctx[2].tool_calls.as_ref().unwrap();
    assert_eq!(calls[1].function.arguments, r#"{"agents":[{"name":"a","task":"t"},{"name":"b","task":"u"}]}"#);
    assert_eq!(ctx[3].tool_call_id.as_deref(), Some("c0"));
    assert_eq!(ctx[3].content.as_deref(), Some("a.txt\nb.txt"));
    assert_eq!(ctx[4].tool_call_id.as_deref(), Some("c1"));
    assert_eq!(ctx[4].content.as_deref(), Some("ASSIGN"));
}

#[test]
fn an_own_fork_sees_only_its_entry_in_its_copy_of_the_task_call() {
    let turn = parent_turn();
    let ctx = child_context(Cut::Own, false, &turn, r#"{"name":"a","task":"t"}"#, "ASSIGN");
    assert_eq!(ctx.len(), 5);
    let calls = ctx[2].tool_calls.as_ref().unwrap();
    assert_eq!(calls[0].function.arguments, r#"{"path":"."}"#);
    assert_eq!(calls[1].function.arguments, r#"{"agents":[{"name":"a","task":"t"}]}"#);
    assert_eq!(calls[1].id, "c1");
    assert_eq!(ctx[2].content.as_deref(), Some("splitting"));
    assert_eq!(ctx[4].content.as_deref(), Some("ASSIGN"));
}

#[test]
fn the_ledger_books_agents_under_their_parents() {
    let mut ledger = Ledger::new();
    let root = ledger.register("root", 0, false, None, None);
    let a = ledger.register("root \u{203a} a", 1, true, Some("t".to_string()), Some("root"));
    let b = ledger.register("root \u{203a} b", 1, false, Some("u".to_string()), Some("root"));
    assert_eq!((root, a, b), (0, 1, 2));
    assert_eq!(ledger.agents[0].children, vec!["root \u{203a} a".to_string(), "root \u{203a} b".to_string()]);
    assert!(ledger.agents[1].fresh);
    assert_eq!(ledger.agents[1].task.as_deref(), Some("t"));
    assert!(matches!(ledger.agents[2].state, AgentState::Waiting));
    assert_eq!(ledger.index_of("root \u{203a} b"), Some(2));
    assert_eq!(ledger.index_of("nobody"), None);
}

#[test]
fn only_the_first_fault_is_the_runs_fault() {
    let mut ledger = Ledger::new();
    ledger.register("root", 0, false, None, None);
    let line = ledger.raise_fault("root", &Fault { kind: FaultKind::Budget, reason: "spend cap reached".to_string() });
    assert_eq!(line, format!("root{} FAULT: spend cap reached", " ".repeat(24)));
    ledger.raise_fault("root", &Fault { kind: FaultKind::Runaway, reason: "later".to_string() });
    assert_eq!(ledger.fault().as_deref(), Some("root: spend cap reached"));
    assert_eq!(ledger.fault_kind(), Some(FaultKind::Budget));
}

#[test]
fn a_panicked_agent_is_a_fault_and_ends_panicked() {
    let mut ledger = Ledger::new();
    ledger.register("root", 0, false, None, None);
    ledger.register("root \u{203a} a", 1, false, None, Some("root"));
    let line = ledger.record_panic("root \u{203a} a", "boom");
    assert!(line.ends_with(" FAULT: agent task panicked: boom"));
    assert_eq!(ledger.fault().as_deref(), Some("root \u{203a} a: agent task panicked: boom"));
    assert_eq!(ledger.fault_kind(), Some(FaultKind::Panic));
    assert!(matches!(&ledger.agents[1].state, AgentState::Ended(Outcome::Panicked(why)) if why == "boom"));
    assert!(matches!(ledger.agents[0].state, AgentState::Waiting));
}

#[test]
fn each_answered_request_is_booked_and_the_first_is_kept_apart() {
    let mut ledger = Ledger::new();
    ledger.register("root", 0, false, None, None);
    ledger.absorb(0, usage(1000, 50, 800, 100));
    ledger.absorb(0, usage(300, 20, 400, 0));
    let r = &ledger.agents[0];
    assert_eq!(r.requests, 2);
    assert_eq!(r.cached_in, 1200);
    assert_eq!(r.written_in, 100);
    assert_eq!(r.uncached_in, 200);
    assert_eq!(r.out, 70);
    assert_eq!((r.first_cached_in, r.first_uncached_in), (800, 200));
    let mut total = Tally::default();
    total.add(r);
    total.add(r);
    assert_eq!((total.requests, total.cached_in, total.uncached_in, total.out), (4, 2400, 400, 140));
}

#[test]
fn the_scope_result_goes_to_the_last_task_call_without_one() {
    let mut ledger = Ledger::new();
    ledger.register("root", 0, false, None, None);
    let calls = vec![call("c0", "task", "{}"), call("c1", "read_file", "{}")];
    let results = vec![None, Some(Message::tool_result("c1", "text"))];
    ledger.note_tool_calls(0, &calls, &results);
    ledger.note_state(0, AgentState::Suspended);
    ledger.note_scope_result(0, "reports");
    let r = &ledger.agents[0];
    assert_eq!(r.tool_calls.len(), 2);
    assert_eq!(r.tool_calls[0].name, "task");
    assert_eq!(r.tool_calls[0].result.as_deref(), Some("reports"));
    assert_eq!(r.tool_calls[1].result.as_deref(), Some("text"));
    assert!(matches!(r.state, AgentState::Suspended));
}

#[test]
fn the_top_of_a_turn_checks_cancellation_then_the_turn_limit() {
    assert!(matches!(turn_gate(true, 99, 3), TurnGate::Cancelled));
    assert!(matches!(turn_gate(false, 4, 3), TurnGate::Runaway(why) if why == "agent ran past 3 turns"));
    assert!(matches!(turn_gate(false, 3, 3), TurnGate::Proceed));
}

#[test]
fn a_reply_with_only_whitespace_keeps_the_handoff_so_far() {
    assert_eq!(next_handoff("  \n", "earlier".to_string()), "earlier");
    assert_eq!(next_handoff(" found it ", "earlier".to_string()), " found it ");
}

fn transient(rate_limited: bool, retry_after: Option<u128>) -> Retryable {
    Retryable { reason: "busy".to_string(), rate_limited, retry_after }
}

#[test]
fn ordinary_failures_back_off_by_three_and_give_up_after_four_attempts() {
    let mut s = RetrySchedule::new(240_000_000_000);
    assert_eq!(s.rate_backoff, 10_000_000_000);
    let mut waits = Vec::new();
    for _ in 0..3 {
        s.begin_attempt();
        match s.after_failure(&transient(false, None)) {
            RetryStep::Wait(d) => waits.push(d),
            _ => panic!("expected a wait"),
        }
    }
    assert_eq!(waits, vec![500_000_000, 1_500_000_000, 4_500_000_000]);
    s.begin_attempt();
    assert!(matches!(s.after_failure(&transient(false, None)), RetryStep::OutOfAttempts(why) if why == "4 attempts failed; last: busy"));
}

#[test]
fn rate_limits_do_not_count_against_the_attempts() {
    let mut s = RetrySchedule::new(240_000_000_000);
    for _ in 0..3 {
        s.begin_attempt();
        assert!(matches!(s.after_failure(&transient(true, None)), RetryStep::Wait(_)));
    }
    assert_eq!(s.failed, 0);
    for _ in 0..3 {
        s.begin_attempt();
        assert!(matches!(s.after_failure(&transient(false, None)), RetryStep::Wait(_)));
    }
    assert_eq!((s.attempt, s.failed), (6, 3));
    s.begin_attempt();
    assert!(matches!(s.after_failure(&transient(false, None)), RetryStep::OutOfAttempts(why) if why == "4 attempts failed; last: busy"));
}

#[test]
fn a_rate_limit_is_waited_out_against_the_patience() {
    let mut s = RetrySchedule::new(24_000_000_000);
    s.begin_attempt();
    assert!(matches!(s.after_failure(&transient(true, None)), RetryStep::Wait(1_000_000_000)));
    assert!(matches!(s.after_failure(&transient(true, None)), RetryStep::Wait(2_000_000_000)));
    assert!(matches!(s.after_failure(&transient(true, Some(20_000_000_000))), RetryStep::Wait(20_000_000_000)));
    assert_eq!(s.waited_out, 23_000_000_000);
    assert!(matches!(s.after_failure(&transient(true, None)), RetryStep::RateLimitedTooLong));
    assert_eq!(s.waited_out, 23_000_000_000);
}

#[test]
fn an_agents_context_file_shows_each_message_and_call() {
    let mut ledger = Ledger::new();
    ledger.register("root \u{203a} a", 1, false, None, None);
    ledger.absorb(0, usage(10, 1, 0, 0));
    let mut record = ledger.agents.remove(0);
    let mut assistant = Message::new("assistant", "");
    assistant.tool_calls = Some(vec![call("c0", "read_file", r#"{"path":"x"}"#)]);
    record.messages = vec![Message::new("user", "hi"), assistant, Message::tool_result("c0", "body")];
    record.state = AgentState::Ended(Outcome::Completed);
    let text = render_context(&record, "$0.0012");
    assert_eq!(
        text,
        "# root \u{203a} a\n\nfork · completed · 1 requests · $0.0012\n\
         \n## user\n\nhi\n\
         \n## assistant\n\n\n-> c0 read_file {\"path\":\"x\"}\n\
         \n## tool\n\n(answering c0)\n\nbody\n"
    );
}

#[test]
fn outcomes_print_and_block_as_the_tree_needs() {
    let faulted = Outcome::Faulted("cap".to_string());
    assert_eq!(faulted.label(), "faulted: cap");
    assert_eq!(faulted.short(), "faulted");
    assert!(faulted.blocks_the_parent());
    assert!(Outcome::Suspended.blocks_the_parent());
    assert!(Outcome::Panicked("p".to_string()).blocks_the_parent());
    assert!(!Outcome::Completed.blocks_the_parent());
    assert!(!Outcome::Cancelled.blocks_the_parent());
    assert_eq!(Outcome::Panicked("p".to_string()).label(), "panicked: p");
    assert_eq!(Outcome::Cancelled.label(), "cancelled");
    assert_eq!(faulted.duplicate().label(), "faulted: cap");
    assert_eq!(AgentState::Running.short(), "running");
    assert_eq!(AgentState::Ended(Outcome::Completed).short(), "completed");
}

#[test]
fn a_line_at_an_idle_prompt_is_a_command_or_a_message() {
    assert!(matches!(idle_line("   "), IdleLine::Skip));
    assert!(matches!(idle_line(" /quit "), IdleLine::Quit));
    assert!(matches!(idle_line("/tree"), IdleLine::Tree));
    assert!(matches!(idle_line("/cancel"), IdleLine::NothingRunning));
    assert!(matches!(idle_line("  read the notes \n"), IdleLine::Say { text } if text == "read the notes"));
}

#[test]
fn a_line_during_a_turn_is_tree_cancel_or_refused() {
    assert!(matches!(busy_line("/tree"), BusyLine::Tree));
    assert!(matches!(busy_line(" /cancel"), BusyLine::Cancel));
    assert!(matches!(busy_line("more please"), BusyLine::Refused));
}

#[test]
fn a_second_interrupt_forces_and_the_exit_status_follows_the_outcome() {
    assert!(matches!(on_interrupt(false), Interrupt::Cancel));
    assert!(matches!(on_interrupt(true), Interrupt::Force));
    assert_eq!(exit_status(true, &Outcome::Completed), 130);
    assert_eq!(exit_status(false, &Outcome::Completed), 0);
    assert_eq!(exit_status(false, &Outcome::Cancelled), 0);
    assert_eq!(exit_status(false, &Outcome::Faulted("x".to_string())), 1);
    assert_eq!(exit_status(false, &Outcome::Suspended), 1);
}

#[test]
fn a_child_shares_the_system_prompt_or_its_parents_turn() {
    assert_eq!(shared_prefix(Cut::Full, true, 3), 1);
    assert_eq!(shared_prefix(Cut::Before, false, 3), 2);
    assert_eq!(shared_prefix(Cut::Own, false, 3), 2);
    assert_eq!(shared_prefix(Cut::Full, false, 3), 3);
    let turn = parent_turn();
    for (cut, fresh) in [(Cut::Full, false), (Cut::Own, false), (Cut::Before, false), (Cut::Before, true)] {
        let ctx = child_context(cut, fresh, &turn, r#"{"name":"a","task":"t"}"#, "ASSIGN");
        let k = shared_prefix(cut, fresh, turn.messages.len());
        for n in 0..k {
            assert_eq!(ctx[n].role, turn.messages[n].role);
            assert_eq!(ctx[n].content, turn.messages[n].content);
        }
    }
}

#[test]
fn the_face_writes_each_message_whole_with_its_place_in_its_context() {
    let face = Face::new(true);
    let user = Message::new("user", "SPLIT the work");
    assert_eq!(face.message("root", 1, &user, None).unwrap(), "root                         [1 user]\n    \u{2502} SPLIT the work");
    let mut assistant = Message::new("assistant", "Looking first.");
    assistant.tool_calls = Some(vec![
        call("call_0_0", "list_dir", r#"{"path":"."}"#),
        call("call_0_1", "task", r#"{"agents":[{"name":"north","task":"report the note"}]}"#),
    ]);
    let shown = face.message("root", 2, &assistant, None).unwrap();
    for expected in [
        "root                         [2 assistant]\n    \u{2502} Looking first.",
        "root                         [2 assistant tool_use list_dir call_0_0]\n    \u{2502} {\"path\":\".\"}",
        "root                         [2 assistant tool_use task call_0_1]\n    \u{2502} {\"agents\":[{\"name\":\"north\",\"task\":\"report the note\"}]}",
    ] {
        assert!(shown.contains(expected), "missing:\n{expected}\n\nshown:\n{shown}");
    }
    let listing = Message::tool_result("call_0_0", "note.txt");
    assert_eq!(
        face.message("root", 3, &listing, Some("list_dir")).unwrap(),
        "root                         [3 tool list_dir call_0_0]\n    \u{2502} note.txt"
    );
    let report = scope_result(&vec![("north".to_string(), "completed".to_string(), "north line one\nnorth line two".to_string())]);
    let resumed = face.message("root", 4, &Message::tool_result("call_0_1", &report), Some("task")).unwrap();
    assert!(resumed.contains("root                         [4 tool task call_0_1]\n    \u{2502} Every agent you launched has finished."));
    assert!(resumed.contains("\n    \u{2502} ## `north` \u{2014} completed\n    \u{2502} north line one\n    \u{2502} north line two"));
    let answer = Message::new("assistant", "First paragraph of the answer.\n\nSecond paragraph of the answer.");
    assert_eq!(
        face.message("root", 5, &answer, None).unwrap(),
        "root                         [5 assistant]\n    \u{2502} First paragraph of the answer.\n    \u{2502}\n    \u{2502} Second paragraph of the answer."
    );
    assert_eq!(
        face.line("root \u{203a} north", &context_line("root", 2)).unwrap(),
        "root \u{203a} north                 context: root's messages 0\u{2013}1, then"
    );
}

#[test]
fn own_and_full_differ_only_in_the_childs_copy_of_the_task_call() {
    let turn = parent_turn();
    let own = child_context(Cut::Own, false, &turn, r#"{"name":"a","task":"t"}"#, "ASSIGN");
    let full = child_context(Cut::Full, false, &turn, r#"{"name":"a","task":"t"}"#, "ASSIGN");
    assert_eq!(own.len(), full.len());
    for i in [0, 1, 3, 4] {
        assert_eq!((&own[i].role, &own[i].content, &own[i].tool_call_id), (&full[i].role, &full[i].content, &full[i].tool_call_id));
    }
    let (o, f) = (own[2].tool_calls.as_ref().unwrap(), full[2].tool_calls.as_ref().unwrap());
    assert_eq!(o[0].function.arguments, f[0].function.arguments);
    assert_eq!((&o[1].id, &o[1].function.name), (&f[1].id, &f[1].function.name));
    assert_ne!(o[1].function.arguments, f[1].function.arguments);
}

#[test]
fn a_turn_is_ready_when_every_other_call_is_answered() {
    let mut turn = parent_turn();
    assert!(turn_is_ready(&turn));
    turn.results[0] = None;
    assert!(!turn_is_ready(&turn));
    let mut far = parent_turn();
    far.call_index = 2;
    assert!(!turn_is_ready(&far));
}

#[test]
fn a_reply_without_calls_ends_the_agent_with_its_text() {
    assert!(matches!(after_reply("done: 4", 0, "earlier".to_string()), ReplyStep::Completed(t) if t == "done: 4"));
    assert!(matches!(after_reply("  ", 2, "earlier".to_string()), ReplyStep::Continue(h) if h == "earlier"));
    assert!(matches!(after_reply("looking", 1, "earlier".to_string()), ReplyStep::Continue(h) if h == "looking"));
}

#[test]
fn a_turns_results_are_appended_in_call_order() {
    let mut messages = vec![Message::new("user", "go")];
    push_results(&mut messages, vec![Some(Message::tool_result("c0", "zero")), Some(Message::tool_result("c1", "one"))]);
    let ids: Vec<Option<&str>> = messages.iter().map(|m| m.tool_call_id.as_deref()).collect();
    assert_eq!(ids, vec![None, Some("c0"), Some("c1")]);
}

#[test]
fn a_second_panic_keeps_the_first_fault_and_its_kind() {
    let mut ledger = Ledger::new();
    ledger.register("root", 0, false, None, None);
    ledger.raise_fault("root", &Fault { kind: FaultKind::Budget, reason: "spend cap reached".to_string() });
    ledger.record_panic("root", "boom");
    assert_eq!(ledger.fault().as_deref(), Some("root: spend cap reached"));
    assert_eq!(ledger.fault_kind(), Some(FaultKind::Budget));
}

#[test]
fn a_new_agent_starts_with_every_count_at_zero() {
    let mut ledger = Ledger::new();
    ledger.register("root", 0, false, None, None);
    ledger.absorb(0, usage(1000, 50, 800, 100));
    let a = ledger.register("root \u{203a} a", 1, true, Some("t".to_string()), Some("root"));
    let r = &ledger.agents[a];
    assert_eq!((r.requests, r.cached_in, r.written_in, r.uncached_in, r.out, r.millis), (0, 0, 0, 0, 0, 0));
    assert_eq!((r.first_cached_in, r.first_uncached_in), (0, 0));
    assert!(r.tool_calls.is_empty() && r.assignment.is_none() && r.handoff.is_empty());
    assert_eq!(ledger.agents[0].requests, 1);
    assert_eq!(ledger.agents[0].children, vec!["root \u{203a} a".to_string()]);
}
