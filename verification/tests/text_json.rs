use agent_harness::json::{as_array, as_bool, as_text, as_u64, field, parse_json, text_member, JsonNode, JsonParse};
use agent_harness::order::sort_strings;
use agent_harness::text::{decimal_string, join, lines_upto, pad_right, trim};

#[test]
fn parse_json_takes_an_object_apart_one_level_deep() {
    match parse_json(r#"{"b": [1, 2], "a": "x"}"#) {
        JsonParse::Valid(JsonNode::Object(members)) => {
            let keys: Vec<&str> = members.iter().map(|(k, _)| k.as_str()).collect();
            assert_eq!(keys, vec!["a", "b"]);
            assert_eq!(members[1].1, "[1,2]");
            assert_eq!(members[0].1, "\"x\"");
        }
        _ => panic!("an object was not read as one"),
    }
    assert!(matches!(parse_json("{"), JsonParse::Invalid(_)));
}

#[test]
fn json_lookups_follow_the_document() {
    let doc = r#"{"name": "read_file", "n": 42, "ok": true, "items": ["a", 1], "neg": -3, "f": 1.5}"#;
    assert_eq!(text_member(doc, "name").as_deref(), Some("read_file"));
    assert_eq!(text_member(doc, "n"), None);
    assert_eq!(field(doc, "n").as_deref(), Some("42"));
    assert_eq!(as_u64("42"), Some(42));
    assert_eq!(as_u64("-3"), None);
    assert_eq!(as_u64("1.5"), None);
    assert_eq!(as_u64("\"7\""), None);
    assert_eq!(as_u64("18446744073709551615"), Some(u64::MAX));
    assert_eq!(as_bool("true"), Some(true));
    assert_eq!(as_text("\"a\\nb\""), Some("a\nb".to_string()));
    assert_eq!(as_array(&field(doc, "items").unwrap()), Some(vec!["\"a\"".to_string(), "1".to_string()]));
    assert_eq!(field("[1]", "x"), None);
}

#[test]
fn text_helpers_match_std() {
    assert_eq!(trim("  \t hello world \n"), "hello world");
    assert_eq!(trim(""), "");
    assert_eq!(decimal_string(0), "0");
    assert_eq!(decimal_string(1_234_567), "1234567");
    assert_eq!(pad_right("ab", 5), "ab   ");
    assert_eq!(pad_right("abcdef", 3), "abcdef");
    assert_eq!(join(&vec!["a".to_string(), "b".to_string(), "c".to_string()], ", "), "a, b, c");
    assert_eq!(join(&vec![], ", "), "");
}

#[test]
fn lines_split_like_str_lines() {
    let text = "one\r\ntwo\n\nthree\r";
    let expected: Vec<String> = text.lines().map(str::to_string).collect();
    assert_eq!(lines_upto(text, 100), expected);
    assert_eq!(lines_upto(text, 2), vec!["one".to_string(), "two".to_string()]);
    assert!(lines_upto("", 5).is_empty());
    assert_eq!(lines_upto("a\n", 5), vec!["a".to_string()]);
}

#[test]
fn strings_sort_as_std_sorts_them() {
    let names: Vec<String> = ["b", "a", "B", "ä", "ab", ""].iter().map(|s| s.to_string()).collect();
    let mut expected = names.clone();
    expected.sort();
    assert_eq!(sort_strings(names), expected);
}
