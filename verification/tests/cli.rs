use agent_harness::cli::{decide, help_text, refusal, version_line, CliAction};
use agent_harness::{version_json, VERSION};

fn args(items: &[&str]) -> Vec<String> {
    items.iter().map(|s| s.to_string()).collect()
}

#[test]
fn binary_reports_product_help() {
    assert!(matches!(decide(&args(&["--help"])), CliAction::Help));
    let stdout = help_text(VERSION);
    assert!(stdout.contains("Evented agent harness"));
    assert!(stdout.contains("face, brain, and workspace-runtime roles"));
    assert!(!stdout.contains("docs/process/HANDOFF.md"));
}

#[test]
fn binary_reports_plain_and_json_versions() {
    assert!(matches!(decide(&args(&["--version"])), CliAction::Version));
    assert_eq!(version_line(VERSION), format!("agent-harness {}\n", VERSION));

    assert!(matches!(decide(&args(&["--version", "--json"])), CliAction::VersionJson));
    let stdout = version_json();
    assert!(stdout.contains(r#""package":"agent-harness""#));
    assert!(stdout.contains(r#""binary":"agent-harness""#));
    assert!(stdout.contains(&format!(r#""version":"{}""#, VERSION)));
}

#[test]
fn binary_rejects_trailing_arguments_and_documents_json_version() {
    for items in [
        &["--help", "unexpected"][..],
        &["--version", "unexpected"][..],
        &["--version", "--json", "unexpected"][..],
    ] {
        let action = decide(&args(items));
        match &action {
            CliAction::Unexpected { argument } => assert_eq!(argument, "unexpected", "args: {items:?}"),
            _ => panic!("args {items:?} were not refused"),
        }
        let stderr = refusal(&action).expect("a refusal has words");
        assert!(stderr.contains("unexpected argument: unexpected"));
        assert!(stderr.contains("agent-harness --help"));
    }
    assert!(help_text(VERSION).contains("agent-harness --version --json"));
}

#[test]
fn no_arguments_print_help_and_short_flags_work() {
    assert!(matches!(decide(&args(&[])), CliAction::Help));
    assert!(matches!(decide(&args(&["-h"])), CliAction::Help));
    assert!(matches!(decide(&args(&["-V"])), CliAction::Version));
    assert!(matches!(decide(&args(&["-V", "--json"])), CliAction::VersionJson));
}

#[test]
fn an_unknown_command_is_refused_with_its_name() {
    let action = decide(&args(&["serve", "--port", "1"]));
    match &action {
        CliAction::UnknownCommand { command } => assert_eq!(command, "serve"),
        _ => panic!("serve was not refused"),
    }
    assert_eq!(
        refusal(&action).unwrap(),
        "unknown command: serve\nrun `agent-harness --help` for usage\n"
    );
    assert!(refusal(&CliAction::Help).is_none());
}

#[test]
fn the_version_json_is_one_exact_object() {
    assert_eq!(
        version_json(),
        format!(r#"{{"package":"agent-harness","binary":"agent-harness","version":"{}"}}"#, VERSION)
    );
}
