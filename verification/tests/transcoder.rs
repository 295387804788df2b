use snippy::collapse::{collapse_blob, save_snippets, unescape};
use snippy::expand::{export_snippets, parse_lines};
use snippy::record::SnippetsError;

#[test]
fn literal_example_collapse() {
    // One blob entry whose embedded newline is still escaped as a literal
    // backslash-n, so all three sub-fields sit on one logical line.
    let blob = "trigger: \"hi\"\\nreplacement: \"hello\"\\noptions: \"w\"";
    let out = collapse_blob(blob);
    assert_eq!(out, "hi := hello ! w\n");
}

#[test]
fn literal_example_expand() {
    let recs = parse_lines("hi := hello ! w\n");
    assert_eq!(recs.len(), 1);
    assert_eq!(recs[0].trigger, "hi");
    assert_eq!(recs[0].replacement, "hello");
    assert_eq!(recs[0].options, "w");
}

#[test]
fn round_trip_records() {
    let blob = "trigger: \"a\" replacement: \"b\" options: \"c\"\n\
                trigger: \"x\" replacement: \"y\" options: \"z\"";
    let line_text = collapse_blob(blob);
    assert_eq!(line_text, "a := b ! c\nx := y ! z\n");
    let recs = parse_lines(&line_text);
    assert_eq!(recs.len(), 2);
    assert_eq!(recs[0].trigger, "a");
    assert_eq!(recs[0].replacement, "b");
    assert_eq!(recs[0].options, "c");
    assert_eq!(recs[1].trigger, "x");
    assert_eq!(recs[1].replacement, "y");
    assert_eq!(recs[1].options, "z");
}

#[test]
fn expand_idempotent() {
    let lines = "hi := hello ! word\nfoo := bar ! baz\n";
    let doc = "{\"version\": 3, \"snippets\": \"old\"}";
    let out1 = export_snippets(lines, doc).unwrap();
    let out2 = export_snippets(lines, &out1).unwrap();
    assert_eq!(out1, out2);
}

#[test]
fn separatorless_lines_skipped() {
    let recs = parse_lines("foo bar baz\nok := fine ! opts\na := b\nnope!still");
    assert_eq!(recs.len(), 1);
    assert_eq!(recs[0].trigger, "ok");
    assert_eq!(recs[0].replacement, "fine");
    assert_eq!(recs[0].options, "opts");
}

#[test]
fn expand_trims_whitespace() {
    let recs = parse_lines("  hi\t :=  hello you !\tw  ");
    assert_eq!(recs.len(), 1);
    assert_eq!(recs[0].trigger, "hi");
    assert_eq!(recs[0].replacement, "hello you");
    assert_eq!(recs[0].options, "w");
}

#[test]
fn malformed_entries_collapse_to_nothing() {
    let out = collapse_blob("trigger: \"a\"\noptions: \"x\"\n");
    assert_eq!(out, "");
}

#[test]
fn empty_inputs() {
    assert_eq!(collapse_blob(""), "");
    assert_eq!(parse_lines("").len(), 0);
}

#[test]
fn unescape_doubles_backslashes() {
    assert_eq!(unescape("a\\\\b\\\\\\\\c"), "a\\b\\\\c");
    assert_eq!(unescape("no escapes"), "no escapes");
}

#[test]
fn missing_snippets_member_aborts() {
    let r = save_snippets("{\"x\": 1}");
    assert!(matches!(r, Err(SnippetsError::BadJsonFormat)));
    let r2 = save_snippets("{\"snippets\": 5}");
    assert!(matches!(r2, Err(SnippetsError::BadJsonFormat)));
}

#[test]
fn malformed_json_aborts() {
    let r = save_snippets("{not json");
    assert!(matches!(r, Err(SnippetsError::JsonError(_))));
}

#[test]
fn save_extracts_blob() {
    let doc = "{\"snippets\": \"trigger: \\\"hi\\\" replacement: \\\"hey\\\" options: \\\"w\\\"\"}";
    let out = save_snippets(doc).unwrap();
    assert_eq!(out, "hi := hey ! w\n");
}

#[test]
fn save_unescapes_blob() {
    // The blob arrives with its entry-internal newlines doubly escaped:
    // after one layer is undone they are still literal backslash-n text.
    let doc = "{\"snippets\": \"trigger: \\\"a\\\"\\\\\\\\nreplacement: \\\"b\\\" options: \\\"c\\\"\"}";
    let out = save_snippets(doc).unwrap();
    assert_eq!(out, "a := b ! c\n");
}

#[test]
fn export_builds_array() {
    let out = export_snippets("hi := hello ! w\n", "{\"a\": 1}").unwrap();
    let doc = json::parse(&out).unwrap();
    assert_eq!(doc["a"].as_u64(), Some(1));
    assert!(doc["snippets"].is_array());
    assert_eq!(doc["snippets"].len(), 1);
    assert_eq!(doc["snippets"][0]["trigger"].as_str(), Some("hi"));
    assert_eq!(doc["snippets"][0]["replacement"].as_str(), Some("hello"));
    assert_eq!(doc["snippets"][0]["options"].as_str(), Some("w"));
}

#[test]
fn export_replaces_and_preserves_order() {
    let doc = "{\"b\": 2, \"snippets\": \"old\", \"a\": 1}";
    let out = export_snippets("t := r ! o\n", doc).unwrap();
    let parsed = json::parse(&out).unwrap();
    let keys: Vec<&str> = parsed.entries().map(|(k, _)| k).collect();
    assert_eq!(keys, vec!["b", "a", "snippets"]);
    assert!(parsed["snippets"].is_array());
    assert_eq!(parsed["snippets"][0]["trigger"].as_str(), Some("t"));
}

#[test]
fn export_non_object_fails() {
    let r = export_snippets("", "[1, 2]");
    assert!(matches!(r, Err(SnippetsError::JsonError(_))));
    let r2 = export_snippets("", "{broken");
    assert!(matches!(r2, Err(SnippetsError::JsonError(_))));
}

#[test]
fn export_pretty_prints_four_spaces() {
    let out = export_snippets("hi := hello ! w\n", "{}").unwrap();
    assert!(out.contains("    \"snippets\""));
}

#[test]
fn error_conversions() {
    let io = std::io::Error::new(std::io::ErrorKind::NotFound, "gone");
    let e = SnippetsError::from(io);
    assert!(matches!(e, SnippetsError::IOError(_)));
    let je = json::parse("{oops").unwrap_err();
    let e2 = SnippetsError::from(je);
    assert!(matches!(e2, SnippetsError::JsonError(_)));
}

#[test]
fn nested_snippets_member_does_not_count() {
    let r = save_snippets("{\"outer\": {\"snippets\": \"trigger: \\\"a\\\"\"}}");
    assert!(matches!(r, Err(SnippetsError::BadJsonFormat)));
}

#[test]
fn multiline_blob_collapse() {
    let doc = "{\"snippets\": \"trigger: \\\"a\\\" replacement: \\\"b\\\" options: \\\"c\\\"\\n\
                skip me\\n\
                trigger: \\\"x\\\" replacement: \\\"y\\\" options: \\\"z\\\"\"}";
    assert_eq!(save_snippets(doc).unwrap(), "a := b ! c\nx := y ! z\n");
}

#[test]
fn empty_blob_collapses_to_nothing() {
    assert_eq!(save_snippets("{\"snippets\": \"\"}").unwrap(), "");
}

#[test]
fn error_messages() {
    assert_eq!(
        SnippetsError::BadJsonFormat.message(),
        "Could not find the snippets..."
    );
    let je = json::parse("{oops").unwrap_err();
    assert!(SnippetsError::JsonError(je).message().starts_with("Json Error: "));
    let io = std::io::Error::new(std::io::ErrorKind::NotFound, "gone");
    assert!(SnippetsError::IOError(io).message().starts_with("IO Error: "));
}

#[test]
fn collapse_quote_capture_is_non_greedy() {
    // The capture stops at the first quote after at least one character.
    let out = collapse_blob("trigger: \"a\" junk \"b\" replacement: \"r\" options: \"o\"");
    assert_eq!(out, "a := r ! o\n");
}
