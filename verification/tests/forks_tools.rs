use agent_harness::forks::args::{wants_help, FORKS_HELP};
use agent_harness::forks::anthropic::{is_identity_rejection, model_id};
use agent_harness::forks::args::{comma_pieces, key_from_file, parse_count, Args};
use agent_harness::forks::bench::mentions;
use agent_harness::forks::face::{block, Face};
use agent_harness::forks::limb::{io_reason, is_within, IoKind, Limb};
use agent_harness::forks::rescore::read_wire;
use agent_harness::forks::wire::{Backend, Message, ToolCall, ToolCallFunction};

fn argv(items: &[&str]) -> Vec<String> {
    items.iter().map(|s| s.to_string()).collect()
}

#[test]
fn the_command_line_collects_flags_in_both_spellings() {
    let args = Args::parse(argv(&["run", "--dir", "/tmp/x", "task text", "--cut=own", "--grid", "a@b,c@d", "--grid=e@f"])).unwrap();
    assert_eq!(args.command, "run");
    assert_eq!(args.positional, argv(&["task text"]));
    assert_eq!(args.one("dir", "."), "/tmp/x");
    assert_eq!(args.one("cut", "before"), "own");
    assert_eq!(args.one("words", "explained"), "explained");
    assert_eq!(args.list("grid", ""), argv(&["a@b", "c@d", "e@f"]));
    assert_eq!(args.list("mode", " fork, ,fresh,"), argv(&["fork", "fresh"]));
    assert_eq!(args.required("dir").unwrap(), "/tmp/x");
    assert_eq!(args.required("keys").unwrap_err(), "--keys is required");
    assert_eq!(args.session_id(), None);
}

#[test]
fn a_flag_without_a_value_is_refused() {
    assert_eq!(Args::parse(argv(&["run", "--dir"])).err().unwrap(), "--dir needs a value");
}

#[test]
fn an_unknown_flag_names_the_accepted_ones() {
    let args = Args::parse(argv(&["run", "--dir", "x", "--colour", "red"])).unwrap();
    assert!(args.known(&["dir", "colour"]).is_ok());
    assert_eq!(
        args.known(&["dir", "cut"]).unwrap_err(),
        "unknown flag --colour for `run`; accepted: --dir --cut"
    );
}

#[test]
fn numbers_parse_as_std_parses_them() {
    let args = Args::parse(argv(&["bench", "--reps", "+12", "--max-turns", "x1", "--max-depth", "99999999999999999999999"])).unwrap();
    assert_eq!(args.number("reps", 1), Ok(12));
    assert_eq!(args.number("budget", 5), Ok(5));
    assert_eq!(args.number("max-turns", 20).unwrap_err(), "--max-turns x1 is not a number");
    assert!(args.number("max-depth", 3).is_err());
    for text in ["0", "7", "+", "", "-1", " 3", "18446744073709551615", "18446744073709551616"] {
        assert_eq!(parse_count(text), text.parse::<usize>().ok(), "{text:?}");
    }
    assert_eq!(comma_pieces("a,,b , c"), argv(&["a", "b", "c"]));
}

#[test]
fn the_route_defaults_by_backend() {
    let on_openrouter = Args::parse(argv(&["run", "--backend", "openrouter"])).unwrap();
    assert_eq!(on_openrouter.provider(), "amazon-bedrock");
    let default = Args::parse(argv(&["run"])).unwrap();
    assert_eq!(default.provider(), "");
    let pinned = Args::parse(argv(&["run", "--provider", "x"])).unwrap();
    assert_eq!(pinned.provider(), "x");
    assert_eq!(default.runs_dir("/exp"), "/exp/runs.ignore");
    let empty_session = Args::parse(argv(&["run", "--session-id", ""])).unwrap();
    assert_eq!(empty_session.session_id(), Some(String::new()));
}

#[test]
fn a_block_shows_every_line_behind_a_bar() {
    let b = block("root", 3, "user", "one\n\ntwo");
    assert_eq!(b, format!("{:<28} [3 user]\n    │ one\n    │\n    │ two", "root"));
    let empty = block("a › b", 0, "assistant", "");
    assert_eq!(empty, format!("{:<28} [0 assistant] (empty)", "a › b"));
}

#[test]
fn the_face_is_quiet_unless_verbose() {
    let quiet = Face::new(false);
    assert_eq!(quiet.line("root", "request 1"), None);
    assert_eq!(quiet.say("tree"), "tree\n");
    let loud = Face::new(true);
    assert_eq!(loud.line("root", "request 1"), Some(format!("{:<28} request 1", "root")));
}

#[test]
fn a_message_shows_its_reasoning_text_and_calls() {
    let face = Face::new(true);
    let message = Message {
        role: "assistant".to_string(),
        content: Some("reading".to_string()),
        tool_calls: Some(vec![ToolCall {
            id: "c1".to_string(),
            call_type: "function".to_string(),
            function: ToolCallFunction { name: "read_file".to_string(), arguments: "{\"path\":\"a\"}".to_string() },
        }]),
        tool_call_id: None,
        reasoning_details: Some(r#"[{"thinking": "hmm"}, {"text": ""}]"#.to_string()),
    };
    let shown = face.message("root", 2, &message, None).unwrap();
    let expected = [
        block("root", 2, "assistant thinking", "hmm"),
        block("root", 2, "assistant", "reading"),
        block("root", 2, "assistant tool_use read_file c1", "{\"path\":\"a\"}"),
    ]
    .join("\n");
    assert_eq!(shown, expected);
    let result = Message::tool_result("c1", "text");
    assert_eq!(
        face.message("root", 3, &result, Some("read_file")).unwrap(),
        block("root", 3, "tool read_file c1", "text")
    );
    assert_eq!(Face::new(false).message("root", 3, &result, None), None);
}

#[test]
fn the_limb_keeps_agents_inside_the_run_directory() {
    let limb = Limb::new("d", Ok("/runs/d".to_string()), true).unwrap();
    assert!(limb.check_relative("a/b").is_ok());
    assert_eq!(
        limb.check_relative("/etc/passwd").unwrap_err(),
        "path must be relative to the run directory; got /etc/passwd"
    );
    assert_eq!(limb.resolve("x", Ok("/runs/d/x".to_string())).unwrap(), "/runs/d/x");
    assert_eq!(limb.resolve("../e", Ok("/runs/e".to_string())).unwrap_err(), "../e is outside the run directory");
    assert_eq!(limb.resolve("../dd", Ok("/runs/dd".to_string())).unwrap_err(), "../dd is outside the run directory");
    assert_eq!(limb.resolve("y", Err("no such file or directory".to_string())).unwrap_err(), "y: no such file or directory");
    assert!(is_within("/", "/etc"));
    assert_eq!(Limb::new("d", Err("gone".to_string()), false).err().unwrap(), "--dir d: gone");
    assert_eq!(Limb::new("f", Ok("/f".to_string()), false).err().unwrap(), "--dir /f is not a directory");
    assert_eq!(limb.list_text(".", vec!["b".to_string(), "a/".to_string()]), "a/\nb");
    assert_eq!(limb.list_text("sub", vec![]), "sub is empty");
    assert_eq!(limb.error_text("x: permission denied"), "Error: x: permission denied");
    assert_eq!(io_reason(IoKind::NotFound, "os error 2"), "no such file or directory");
    assert_eq!(io_reason(IoKind::Other, "is a directory"), "is a directory");
}

#[test]
fn only_anthropic_models_are_served_by_the_subscription() {
    assert_eq!(model_id("anthropic/opus-9").unwrap(), "opus-9");
    assert_eq!(
        model_id("openai/gpt").unwrap_err(),
        "the anthropic backend serves Anthropic models only, named anthropic/<model>; got openai/gpt"
    );
    assert!(is_identity_rejection(429, r#"{"type":"error","error":{"type":"rate_limit_error","message":"Error"}}"#));
    assert!(!is_identity_rejection(429, r#"{"error":{"message":"Rate limited"}}"#));
    assert!(!is_identity_rejection(500, r#"{"error":{"message":"Error"}}"#));
    assert!(!is_identity_rejection(429, "Error"));
}

#[test]
fn a_mention_is_a_whole_word_in_any_case() {
    assert!(mentions("The Hamburg ledger", "hamburg"));
    assert!(!mentions("Hamburger", "hamburg"));
    assert!(mentions("hamburger, then hamburg.", "hamburg"));
    assert!(!mentions("", "x"));
    assert!(mentions("ÄRGER ärger", "ärger"));
}

#[test]
fn the_wire_log_tells_a_failed_read_from_one_that_worked() {
    let log = [
        r#"{"agent":"root","kind":"response","body":{"usage":{"prompt_tokens":100,"prompt_tokens_details":{"cached_tokens":40,"cache_write_tokens":7}},"choices":[{"message":{"tool_calls":[{"id":"c1","function":{"name":"read_file","arguments":"{\"path\":\"a.md\"}"}},{"id":"c2","function":{"name":"read_file","arguments":"{\"path\":\"b.md\"}"}},{"id":"c3","function":{"name":"task","arguments":"{}"}}]}}]}}"#,
        "not json",
        r#"{"agent":"root","kind":"request","body":{"messages":[{"role":"tool","tool_call_id":"c1","content":"hello"},{"role":"tool","tool_call_id":"c2","content":"Error: b.md: no such file or directory"}]}}"#,
        r#"{"agent":"root","kind":"response","body":{"usage":{"prompt_tokens":10}}}"#,
        r#"{"agent":"child","kind":"request","body":{"messages":[]}}"#,
    ]
    .join("\n");
    let seen = read_wire(&log);
    assert_eq!(seen.len(), 1);
    assert_eq!(seen[0].0, "root");
    let root = &seen[0].1;
    assert!(root.forked);
    assert_eq!(root.usages, vec![(40, 60, 7), (0, 10, 0)]);
    assert_eq!(root.reads.len(), 2);
    assert_eq!(root.reads[0].path, "a.md");
    assert!(root.reads[0].ok);
    assert_eq!(root.reads[1].path, "b.md");
    assert!(!root.reads[1].ok);
}

#[test]
fn the_key_file_gives_its_first_key_line() {
    assert_eq!(
        key_from_file("# keys\n  OPENROUTER_API_KEY= sk-1 \r\nOPENROUTER_API_KEY=sk-2\n").as_deref(),
        Some("sk-1")
    );
    assert_eq!(key_from_file("OTHER=1\nOPENROUTER_API_KEY"), None);
    assert_eq!(key_from_file(""), None);
}

#[test]
fn openrouter_needs_a_key_only_on_openrouter_itself() {
    let args = Args::parse(argv(&["run", "--backend", "openrouter"])).unwrap();
    assert_eq!(
        args.backend("m", "amazon-bedrock", None, String::new(), "db").err().unwrap(),
        "no API key: set OPENROUTER_API_KEY or put it in keys.ignore.env"
    );
    match args.backend("m", "amazon-bedrock", Some("k".to_string()), String::new(), "db").unwrap() {
        Backend::OpenRouter { base_url, api_key, provider } => {
            assert_eq!(base_url, "https://openrouter.ai/api/v1");
            assert_eq!(api_key.as_deref(), Some("k"));
            assert_eq!(provider.as_deref(), Some("amazon-bedrock"));
        }
        Backend::Anthropic { .. } => panic!("expected OpenRouter"),
    }
    let local = Args::parse(argv(&["run", "--backend=openrouter", "--base-url", "http://127.0.0.1:9/v1"])).unwrap();
    assert!(matches!(
        local.backend("m", "", None, String::new(), "db").unwrap(),
        Backend::OpenRouter { api_key: None, provider: None, .. }
    ));
}

#[test]
fn the_subscription_takes_no_route_and_anthropic_models_only() {
    let args = Args::parse(argv(&["run"])).unwrap();
    match args.backend("anthropic/model-x", "", None, "ID".to_string(), "/data/opencode.db").unwrap() {
        Backend::Anthropic { base_url, identity, credentials } => {
            assert_eq!(base_url, "https://api.anthropic.com");
            assert_eq!(identity, "ID");
            assert_eq!(credentials, "/data/opencode.db");
        }
        Backend::OpenRouter { .. } => panic!("expected the subscription"),
    }
    assert_eq!(
        args.backend("anthropic/model-x", "p", None, String::new(), "db").err().unwrap(),
        "provider p is an OpenRouter route, and the anthropic backend has none"
    );
    assert_eq!(
        args.backend("openai/gpt", "", None, String::new(), "db").err().unwrap(),
        "the anthropic backend serves Anthropic models only, named anthropic/<model>; got openai/gpt"
    );
    let other = Args::parse(argv(&["run", "--backend", "local"])).unwrap();
    assert_eq!(
        other.backend("anthropic/model-x", "", None, String::new(), "db").err().unwrap(),
        "unknown --backend local; expected anthropic or openrouter"
    );
    let custom = Args::parse(argv(&["run", "--credentials", "/c.db", "--base-url", "http://proxy"])).unwrap();
    assert!(matches!(
        custom.backend("anthropic/m", "", None, String::new(), "db").unwrap(),
        Backend::Anthropic { base_url, credentials, .. } if base_url == "http://proxy" && credentials == "/c.db"
    ));
}

#[test]
fn forks_asks_for_help_with_nothing_or_a_help_word() {
    assert!(wants_help(&vec![]));
    for w in ["--help", "-h", "help"] {
        assert!(wants_help(&vec![w.to_string(), "run".to_string()]));
    }
    assert!(!wants_help(&vec!["run".to_string()]));
    assert!(FORKS_HELP.starts_with("forks — agents as structured concurrency\n"));
    assert!(FORKS_HELP.contains("the only thing\n                                that stops it early"));
}
