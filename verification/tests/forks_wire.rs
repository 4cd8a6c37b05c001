use agent_harness::forks::anthropic::{credential_token, CredentialRefusal};
use agent_harness::forks::anthropic::{reply, request_turns, AnthropicUsage, Block};
use agent_harness::forks::framing::{explained_words, stop_words, tool_schemas};
use agent_harness::forks::rescore::{read_line, seen_in, WireKind};
use agent_harness::forks::wire::{
    classify, retry_after, retryable_status, status_failure, unreadable_response, upstream_error, Backend, Failure,
    Message, ToolCall, ToolCallFunction,
};

fn call(id: &str, name: &str, arguments: &str) -> ToolCall {
    ToolCall {
        id: id.to_string(),
        call_type: "function".to_string(),
        function: ToolCallFunction { name: name.to_string(), arguments: arguments.to_string() },
    }
}

#[test]
fn statuses_worth_another_attempt_are_rate_limits_timeouts_and_server_errors() {
    assert_eq!(retryable_status(429), Some(true));
    assert_eq!(retryable_status(408), Some(false));
    assert_eq!(retryable_status(500), Some(false));
    assert_eq!(retryable_status(599), Some(false));
    assert_eq!(retryable_status(404), None);
    assert_eq!(retryable_status(600), None);
    assert!(matches!(classify(401, "no".to_string(), None), Failure::Fatal(why) if why == "no"));
}

#[test]
fn retry_after_reads_whole_seconds_only() {
    assert_eq!(retry_after(Some(" 7 ")), Some(7_000_000_000));
    assert_eq!(retry_after(Some("+3")), Some(3_000_000_000));
    assert_eq!(retry_after(Some("0")), Some(0));
    assert_eq!(retry_after(Some("Wed, 21 Oct 2015 07:28:00 GMT")), None);
    assert_eq!(retry_after(Some("")), None);
    assert_eq!(retry_after(Some("1.5")), None);
    assert_eq!(retry_after(None), None);
}

#[test]
fn an_error_inside_a_success_is_classified_by_its_own_code() {
    let rate = upstream_error(r#"{"error":{"code":429,"message":"slow down"}}"#, "TEXT", Some(5));
    match rate {
        Some(Failure::Transient(again)) => {
            assert_eq!(again.reason, "provider returned an error: TEXT");
            assert!(again.rate_limited);
            assert_eq!(again.retry_after, Some(5));
        }
        _ => panic!("expected a transient failure"),
    }
    assert!(matches!(
        upstream_error(r#"{"error":{"message":"no code"}}"#, "T", None),
        Some(Failure::Fatal(why)) if why == "provider returned an error: T"
    ));
    assert!(matches!(
        upstream_error(r#"{"error":{"code":502}}"#, "T", None),
        Some(Failure::Transient(again)) if !again.rate_limited
    ));
    assert!(upstream_error(r#"{"choices":[]}"#, "T", None).is_none());
}

#[test]
fn a_failed_status_is_transient_or_fatal_by_its_code() {
    assert!(matches!(
        status_failure(503, "503 Service Unavailable", "down", None, false),
        Failure::Transient(again) if again.reason == "provider returned 503 Service Unavailable: down" && !again.rate_limited
    ));
    assert!(matches!(
        status_failure(400, "400 Bad Request", "bad", None, true),
        Failure::Fatal(why) if why == "provider returned 400 Bad Request: bad"
    ));
}

#[test]
fn the_subscription_identity_refusal_is_not_waited_out() {
    let body = r#"{"type":"error","error":{"type":"rate_limit_error","message":"Error"}}"#;
    match status_failure(429, "429 Too Many Requests", body, Some(1), true) {
        Failure::Fatal(why) => {
            assert!(why.starts_with("Anthropic rejected the request identity: "));
            assert!(why.ends_with(&format!("provider returned 429 Too Many Requests: {body}")));
        }
        Failure::Transient(_) => panic!("the identity refusal must be fatal"),
    }
    assert!(matches!(status_failure(429, "429 Too Many Requests", body, None, false), Failure::Transient(again) if again.rate_limited));
}

#[test]
fn a_success_that_does_not_parse_names_the_parser_and_the_body() {
    let m = unreadable_response("not json").unwrap();
    assert!(m.starts_with("response was not JSON: "));
    assert!(m.ends_with("; body: not json"));
    assert_eq!(unreadable_response(r#"{"ok":true}"#), None);
}

#[test]
fn the_subscription_puts_its_identity_before_the_prompt() {
    let anthropic = Backend::Anthropic {
        base_url: "https://api.example".to_string(),
        identity: "IDENTITY".to_string(),
        credentials: "auth.db".to_string(),
    };
    let system = anthropic.system("PROMPT");
    assert_eq!(system.len(), 2);
    assert_eq!(system[0].content.as_deref(), Some("IDENTITY"));
    assert_eq!(system[1].content.as_deref(), Some("PROMPT"));
    assert_eq!(anthropic.name(), "anthropic");
    assert_eq!(anthropic.provider(), None);
    let openrouter = Backend::OpenRouter { base_url: "u".to_string(), api_key: None, provider: Some("p".to_string()) };
    let system = openrouter.system("PROMPT");
    assert_eq!(system.len(), 1);
    assert_eq!(system[0].role, "system");
    assert_eq!(openrouter.name(), "openrouter");
    assert_eq!(openrouter.provider(), Some("p"));
}

fn usage() -> AnthropicUsage {
    AnthropicUsage { input_tokens: 10, cache_creation_input_tokens: 5, cache_read_input_tokens: 100, output_tokens: 7 }
}

#[test]
fn a_messages_response_becomes_one_assistant_message() {
    let blocks = vec![
        r#"{"signature":"s","thinking":"hm","type":"thinking"}"#.to_string(),
        r#"{"text":"Hello","type":"text"}"#.to_string(),
        r#"{"id":"t1","input":{"path":"a"},"name":"read_file","type":"tool_use"}"#.to_string(),
        r#"{"text":" there","type":"text"}"#.to_string(),
    ];
    let (message, tokens) = reply(&blocks, Some("tool_use"), &usage(), "{}").unwrap();
    assert_eq!(message.role, "assistant");
    assert_eq!(message.content.as_deref(), Some("Hello there"));
    let calls = message.tool_calls.unwrap();
    assert_eq!(calls.len(), 1);
    assert_eq!(calls[0].id, "t1");
    assert_eq!(calls[0].function.name, "read_file");
    assert_eq!(calls[0].function.arguments, r#"{"path":"a"}"#);
    assert_eq!(message.reasoning_details.as_deref(), Some(r#"[{"signature":"s","thinking":"hm","type":"thinking"}]"#));
    assert_eq!(tokens.prompt_tokens, 115);
    assert_eq!(tokens.completion_tokens, 7);
    assert_eq!(tokens.cached_tokens, 100);
    assert_eq!(tokens.cache_write_tokens, 5);
}

#[test]
fn a_response_cut_at_max_tokens_or_with_a_stray_block_is_refused() {
    let text = vec![r#"{"text":"x","type":"text"}"#.to_string()];
    assert_eq!(
        reply(&text, Some("max_tokens"), &usage(), "{}").err().unwrap(),
        "the response hit max_tokens (16000) before it finished"
    );
    let stray = vec![r#"{"type":"image"}"#.to_string()];
    assert_eq!(reply(&stray, None, &usage(), "BODY").err().unwrap(), "the response had a `image` block: BODY");
    let (plain, _) = reply(&text, Some("end_turn"), &usage(), "{}").unwrap();
    assert!(plain.tool_calls.is_none());
    assert!(plain.reasoning_details.is_none());
}

#[test]
fn a_transcript_becomes_system_blocks_and_alternating_turns() {
    let mut assistant = Message::new("assistant", "A");
    assistant.tool_calls = Some(vec![call("c1", "read_file", r#"{"path":"x"}"#), call("c2", "list_dir", "{}")]);
    let transcript = vec![
        Message::new("system", "S"),
        Message::new("user", "U"),
        assistant,
        Message::tool_result("c1", "r1"),
        Message::tool_result("c2", "r2"),
        Message::new("user", "next"),
    ];
    let (system, turns) = request_turns(&transcript);
    assert_eq!(system, vec!["S".to_string()]);
    assert_eq!(turns.len(), 4);
    assert_eq!(turns[0].role, "user");
    assert!(matches!(&turns[0].content[..], [Block::Text { text }] if text == "U"));
    assert_eq!(turns[1].role, "assistant");
    assert!(matches!(
        &turns[1].content[..],
        [Block::Text { text }, Block::ToolUse { id: a, .. }, Block::ToolUse { id: b, input, .. }]
            if text == "A" && a == "c1" && b == "c2" && input == "{}"
    ));
    assert_eq!(turns[2].role, "user");
    assert!(matches!(
        &turns[2].content[..],
        [Block::ToolResult { tool_use_id: Some(a), content: x }, Block::ToolResult { tool_use_id: Some(b), content: y }]
            if a == "c1" && x == "r1" && b == "c2" && y == "r2"
    ));
    assert!(matches!(&turns[3].content[..], [Block::Text { text }] if text == "next"));
}

#[test]
fn the_framing_texts_are_fixed() {
    assert_eq!(stop_words(), "Do only this, then stop.");
    let alone = explained_words("a", &vec![]);
    assert!(alone.starts_with("You are one branch of a split, launched as `a` with this one assignment and no other.\n\n"));
    let split = explained_words("a", &vec!["b".to_string(), "c".to_string()]);
    assert!(split.contains("you are `a`, and the other assignments belong to `b`, `c`, who are working on them right now."));
    assert!(split.ends_with("Do not carry on into the work that comes after it."));
}

#[test]
fn the_tool_list_names_the_three_tools() {
    let schemas = tool_schemas();
    assert_eq!(schemas.len(), 3);
    let names: Vec<String> = schemas
        .iter()
        .map(|s| {
            let v: serde_json::Value = serde_json::from_str(s).unwrap();
            assert_eq!(v["type"], "function");
            v["function"]["name"].as_str().unwrap().to_string()
        })
        .collect();
    assert_eq!(names, vec!["list_dir", "read_file", "task"]);
    let task: serde_json::Value = serde_json::from_str(&schemas[2]).unwrap();
    assert_eq!(task["function"]["parameters"]["required"][0], "agents");
}

#[test]
fn a_log_line_is_read_into_its_agent_and_kind() {
    let response = r#"{"agent":"root","kind":"response","body":{"usage":{"prompt_tokens":100,"completion_tokens":5,"prompt_tokens_details":{"cached_tokens":60,"cache_write_tokens":10}},"choices":[{"message":{"tool_calls":[{"id":"c1","function":{"name":"read_file","arguments":"{\"path\":\"a\"}"}}]}}]}}"#;
    let line = read_line(response);
    assert_eq!(line.agent, "root");
    match &line.kind {
        WireKind::Response { usage, calls } => {
            assert_eq!(*usage, (60, 40, 10));
            assert_eq!(calls, &vec![("c1".to_string(), "read_file".to_string(), r#"{"path":"a"}"#.to_string())]);
        }
        _ => panic!("expected a response"),
    }
    let request = r#"{"agent":"root","kind":"request","body":{"messages":[{"role":"user","content":"go"},{"role":"tool","tool_call_id":"c1","content":"Error: no such file"}]}}"#;
    let read = read_line(request);
    assert!(matches!(&read.kind, WireKind::Request { results } if results == &vec![("c1".to_string(), "Error: no such file".to_string())]));
    assert!(matches!(read_line(r#"{"agent":"root","kind":"failure"}"#).kind, WireKind::Other));
    let seen = seen_in(&vec![line, read], "root");
    assert_eq!(seen.reads.len(), 1);
    assert_eq!(seen.reads[0].path, "a");
    assert!(!seen.reads[0].ok);
    assert!(!seen.forked);
    assert_eq!(seen.usages, vec![(60, 40, 10)]);
}

#[test]
fn a_stored_credential_gives_its_token_with_a_minute_to_spare() {
    let value = r#"{"type":"oauth","access":"tok","refresh":"r","expires":1000000}"#;
    assert_eq!(credential_token(value, 900_000).ok().unwrap(), "tok");
    assert!(matches!(credential_token(value, 940_000), Err(CredentialRefusal::Expired { expires: 1000000 })));
    assert!(matches!(credential_token(value, 2_000_000), Err(CredentialRefusal::Expired { .. })));
    assert!(matches!(credential_token(r#"{"key":"k"}"#, 0), Err(CredentialRefusal::NotOAuth)));
    assert!(matches!(credential_token(r#"{"access":"t","expires":"soon"}"#, 0), Err(CredentialRefusal::NotOAuth)));
    assert!(matches!(credential_token(r#"{"access":"t","expires":-5}"#, 0), Err(CredentialRefusal::Expired { expires: -5 })));
    assert!(matches!(credential_token("not json", 0), Err(CredentialRefusal::NotOAuth)));
}
