use agent_harness::forks::agent::{parse_children, FaultKind, Mode, Outcome};
use agent_harness::forks::framing::{assignment, depth_limit_error, scope_result, Cut, Words};
use agent_harness::forks::schedule::check_acyclic;
use agent_harness::forks::scope::{child_path, scope_outcome, scope_refusal, siblings, ChildReport};

fn strings(items: &[&str]) -> Vec<String> {
    items.iter().map(|s| s.to_string()).collect()
}

#[test]
fn a_task_call_is_read_into_its_children_in_order() {
    let specs = parse_children(
        r#"{"agents": [{"name": " a ", "task": "read x"}, {"name": "b", "task": "read y", "after": ["a"], "fresh": true}]}"#,
    )
    .unwrap();
    assert_eq!(specs.len(), 2);
    assert_eq!(specs[0].name, "a");
    assert_eq!(specs[0].task, "read x");
    assert!(specs[0].after.is_empty());
    assert!(!specs[0].fresh);
    assert_eq!(specs[1].name, "b");
    assert_eq!(specs[1].after, strings(&["a"]));
    assert!(specs[1].fresh);
    assert_eq!(specs[1].raw, r#"{"after":["a"],"fresh":true,"name":"b","task":"read y"}"#);
}

#[test]
fn every_malformed_task_call_is_refused_with_its_reason() {
    assert!(parse_children("not json").unwrap_err().starts_with("the arguments were not valid JSON: "));
    assert_eq!(parse_children(r#"{"agents": 3}"#).unwrap_err(), "`agents` must be an array");
    assert_eq!(parse_children(r#"{"agents": []}"#).unwrap_err(), "`agents` was empty; name at least one agent");
    assert_eq!(parse_children(r#"{"agents": [{"task": "t"}]}"#).unwrap_err(), "every agent needs a `name`");
    assert_eq!(parse_children(r#"{"agents": [{"name": "  ", "task": "t"}]}"#).unwrap_err(), "an agent had an empty `name`");
    assert_eq!(
        parse_children(r#"{"agents": [{"name": "a", "task": "t"}, {"name": "a", "task": "u"}]}"#).unwrap_err(),
        "two agents were both named `a`"
    );
    assert_eq!(parse_children(r#"{"agents": [{"name": "a"}]}"#).unwrap_err(), "agent `a` needs a `task`");
    assert_eq!(
        parse_children(r#"{"agents": [{"name": "a", "task": "t", "after": "b"}]}"#).unwrap_err(),
        "agent `a`: `after` must be a list of names"
    );
    assert_eq!(
        parse_children(r#"{"agents": [{"name": "a", "task": "t", "after": ["a"]}]}"#).unwrap_err(),
        "agent `a` was told to start after itself"
    );
    assert_eq!(
        parse_children(r#"{"agents": [{"name": "a", "task": "t", "after": ["z"]}]}"#).unwrap_err(),
        "agent `a` was told to start after `z`, which is not in this call"
    );
    assert_eq!(
        parse_children(r#"{"agents": [{"name": "b", "task": "t", "after": ["a"]}, {"name": "a", "task": "u", "after": ["b"]}, {"name": "c", "task": "v"}]}"#)
            .unwrap_err(),
        "these agents wait on each other in a cycle: a, b"
    );
}

#[test]
fn a_dependency_graph_without_a_cycle_is_accepted() {
    let names = strings(&["a", "b", "c"]);
    let deps = vec![strings(&[]), strings(&["a"]), strings(&["a", "b"])];
    assert!(check_acyclic(&names, &deps).is_ok());
    let deps = vec![strings(&["c"]), strings(&["a"]), strings(&["b"])];
    assert_eq!(check_acyclic(&names, &deps).unwrap_err(), "these agents wait on each other in a cycle: a, b, c");
}

#[test]
fn the_flag_words_parse_and_print_back() {
    assert!(matches!(Mode::parse("fork"), Ok(Mode::Fork)));
    assert!(matches!(Mode::parse("fresh"), Ok(Mode::Fresh)));
    assert!(matches!(Mode::parse("declared"), Ok(Mode::Declared)));
    assert!(Mode::parse("other").is_err());
    assert_eq!(Mode::Declared.name(), "declared");
    assert!(Mode::Declared.resolve(true));
    assert!(!Mode::Fork.resolve(true));
    assert!(Mode::Fresh.resolve(false));
    assert!(matches!(Words::parse("stop"), Ok(Words::Stop)));
    assert_eq!(Words::parse("loud").unwrap_err(), "unknown --words loud; expected stop or explained");
    assert!(matches!(Cut::parse("own"), Ok(Cut::Own)));
    assert_eq!(Cut::parse("half").unwrap_err(), "unknown --cut half; expected full, own or before");
    assert_eq!(Cut::Before.name(), "before");
    assert_eq!(FaultKind::Budget.name(), "budget");
    assert!(FaultKind::Budget.is_the_models_doing());
    assert!(!FaultKind::Provider.is_the_models_doing());
}

#[test]
fn an_assignment_says_what_the_framing_says() {
    let text = assignment(Words::Stop, "a", "count", &vec![], &vec![]);
    assert_eq!(text, "You are agent `a`.\n\nYour assignment:\ncount\n\nDo only this, then stop.");
    let text = assignment(
        Words::Stop,
        "b",
        "sum",
        &strings(&["a"]),
        &vec![("a".to_string(), "42".to_string())],
    );
    assert_eq!(
        text,
        "You are agent `b`.\n\nYour assignment:\nsum\n\nDo only this, then stop.\n\nReports from the agents you were told to start after:\n\n## `a`\n42\n"
    );
    let text = assignment(Words::Explained, "b", "sum", &strings(&["a", "c"]), &vec![]);
    assert!(text.contains("you are `b`, and the other assignments belong to `a`, `c`, who are working on them right now."));
    assert!(text.ends_with("Do not carry on into the work that comes after it."));
}

#[test]
fn the_scope_result_lists_every_report_in_order() {
    let reports = vec![
        ("a".to_string(), "completed".to_string(), "one".to_string()),
        ("b".to_string(), "cancelled".to_string(), "two".to_string()),
    ];
    assert_eq!(
        scope_result(&reports),
        "Every agent you launched has finished. Their reports, in the order you declared them:\n\n## `a` — completed\none\n\n## `b` — cancelled\ntwo\n"
    );
    assert_eq!(
        depth_limit_error(3),
        "Error: this run allows agents no more than 3 levels below the root, and you are at the limit. Do this work yourself."
    );
    assert_eq!(scope_refusal(2, 3), None);
    assert_eq!(scope_refusal(3, 3), Some(depth_limit_error(3)));
}

#[test]
fn a_faulted_child_suspends_its_parent() {
    let done = vec![
        ("a".to_string(), ChildReport { outcome: Outcome::Completed, handoff: "x".to_string() }),
    ];
    assert!(scope_outcome(&done).is_ok());
    let faulted = vec![
        ("a".to_string(), ChildReport { outcome: Outcome::Completed, handoff: "x".to_string() }),
        ("b".to_string(), ChildReport { outcome: Outcome::Faulted("provider".to_string()), handoff: String::new() }),
    ];
    assert!(matches!(scope_outcome(&faulted), Err(Outcome::Suspended)));
}

#[test]
fn paths_and_siblings_name_the_tree() {
    assert_eq!(child_path("root", "a"), "root \u{203a} a");
    assert_eq!(siblings(&strings(&["a", "b", "c"]), "b"), strings(&["a", "c"]));
}
