use agent_harness::skeleton::dump::DumpTexts;
use agent_harness::skeleton::limb::{tool_definitions, Limb, BASH_DEF, LIST_FILES_DEF, READ_FILE_DEF};
use agent_harness::skeleton::protocol::{AssistantMessage, Contribution, Outcome, ToolCall, ToolCallFunction};
use agent_harness::skeleton::state::{calls_hold, SessionState, StateEntry, TranscriptEntry};
use agent_harness::skeleton::view::{activity_message, user_message};

fn record(state: &mut SessionState, entry: StateEntry) {
    let r = state.next_record(entry, 0);
    state.commit(r);
}

fn transcript(state: &mut SessionState, item: TranscriptEntry) {
    record(state, StateEntry::Transcript { item });
}

fn call(id: &str) -> ToolCall {
    ToolCall {
        id: id.to_string(),
        call_type: "function".to_string(),
        function: ToolCallFunction { name: "bash".to_string(), arguments: "{}".to_string() },
    }
}

#[test]
fn the_limb_offers_three_tools_and_the_host_name() {
    let defs = tool_definitions();
    let names: Vec<&str> = defs.iter().map(|d| d.0.as_str()).collect();
    assert_eq!(names, vec!["list_files", "read_file", "bash"]);
    assert_eq!(defs[0].1, LIST_FILES_DEF);
    assert_eq!(defs[1].1, READ_FILE_DEF);
    assert_eq!(defs[2].1, BASH_DEF);
    for (name, def) in &defs {
        let v: serde_json::Value = serde_json::from_str(def).unwrap();
        assert_eq!(v["function"]["name"].as_str(), Some(name.as_str()));
    }
    let limb = Limb { root: "/work".to_string() };
    let contributions = limb.contributions("box".to_string());
    assert_eq!(contributions.len(), 4);
    assert!(matches!(&contributions[2].1, Contribution::Tool { def } if def == BASH_DEF));
    assert_eq!(contributions[3].0, "hostname");
    assert!(matches!(&contributions[3].1, Contribution::Fact { text } if text == "box"));
}

#[test]
fn user_input_reads_as_a_user_message() {
    let m = user_message("hi".to_string());
    assert_eq!(m.role, "user");
    assert_eq!(m.content.as_deref(), Some("hi"));
    assert!(m.tool_calls.is_none());
    assert!(m.tool_call_id.is_none());
    assert_eq!(activity_message("notes.md", "a\nb"), "[user activity] opened file notes.md; first lines:\na\nb");
}

#[test]
fn a_call_id_is_found_among_the_calls() {
    let calls = vec![call("c1"), call("c2")];
    assert!(calls_hold(&calls, "c2"));
    assert!(!calls_hold(&calls, "c3"));
    assert!(!calls_hold(&vec![], "c1"));
}

#[test]
fn only_the_latest_contribution_of_each_name_counts() {
    let mut s = SessionState::empty();
    record(&mut s, StateEntry::SystemPrompt { text: "p".to_string() });
    record(&mut s, StateEntry::Contribution { name: "a".to_string(), contribution: Contribution::Fact { text: "1".to_string() } });
    record(&mut s, StateEntry::Contribution { name: "b".to_string(), contribution: Contribution::Fact { text: "2".to_string() } });
    record(&mut s, StateEntry::Contribution { name: "a".to_string(), contribution: Contribution::Fact { text: "3".to_string() } });
    assert_eq!(s.latest_contributions(), vec![2, 1]);
}

#[test]
fn the_dump_shows_the_model_view_and_comments_on_what_it_leaves_out() {
    let mut s = SessionState::empty();
    record(&mut s, StateEntry::SystemPrompt { text: "be brief".to_string() });
    transcript(&mut s, TranscriptEntry::UserMessage { text: "hi".to_string(), arrived_during_exchange: false });
    transcript(&mut s, TranscriptEntry::RequestOutcome {
        request_id: 0,
        outcome: Outcome::Completed { value: AssistantMessage { text: Some("hello".to_string()), tool_calls: vec![] } },
    });
    transcript(&mut s, TranscriptEntry::TurnOutcome { outcome: Outcome::Completed { value: () } });
    let seqs: Vec<u64> = s.transcript.iter().map(|r| r.seq).collect();
    assert_eq!(seqs, vec![1, 2, 3]);
    let projection = s.project();
    assert_eq!(projection.entries.len(), 2);
    let texts = DumpTexts {
        tools: String::new(),
        items: vec![(1, "USER".to_string()), (2, "ANSWER".to_string()), (3, "TURN".to_string())],
        calls: vec![None, None, None],
        unexecuted: vec![],
    };
    assert_eq!(
        projection.render(&texts),
        "# walking-skeleton context dump \u{2014} the model view\n\n\
         <!-- Everything in HTML comments is invisible to the model. -->\n\n\
         ## system\n\nbe brief\n\n\
         ## user\n\nhi\n\n\
         ## assistant\n\nhello\n\n\
         <!-- seq 3: TURN -->\n"
    );
}
