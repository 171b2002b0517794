use usage_tracker::parser::{parse_session_lines as parse_lines_counted, parse_session_metadata, strip_html, extract_text, extract_raw_text};
use usage_tracker::models::{DataSource, RawContent};
use usage_tracker::timestamp::{resolve_timestamp, composer_created_ms};

fn lines(v: &[&str]) -> Vec<String> {
    v.iter().map(|s| s.to_string()).collect()
}

fn parse(log: &Vec<String>, sid: &str, pid: &str) -> usage_tracker::models::ParsedSession {
    parse_lines_counted(log, sid, pid).0
}

#[test]
fn parse_twice_is_identical() {
    let log = lines(&[
        r#"{"type":"user","timestamp":"2024-01-02T03:04:05Z","uuid":"u1","cwd":"/home/x/p","message":{"role":"user","content":"hello there"}}"#,
        r#"{"type":"assistant","timestamp":"2024-01-02T03:04:06Z","uuid":"a1","message":{"role":"assistant","content":"hi","model":"sonnet-4-5","id":"m0","usage":{"input_tokens":10,"output_tokens":5}}}"#,
    ]);
    let a = parse(&log, "s1", "p1");
    let b = parse(&log, "s1", "p1");
    assert_eq!(a, b);
}

#[test]
fn assistant_dedup_keeps_later_record() {
    let log = lines(&[
        r#"{"type":"assistant","timestamp":"2024-01-02T03:04:06Z","uuid":"a1","message":{"role":"assistant","content":"first version","id":"m1"}}"#,
        r#"{"type":"assistant","timestamp":"2024-01-02T03:04:07Z","uuid":"a2","message":{"role":"assistant","content":"second version","id":"m1"}}"#,
    ]);
    let s = parse(&log, "s1", "p1");
    assert_eq!(s.messages.len(), 1);
    assert_eq!(s.messages[0].content, "second version");
    assert_eq!(s.messages[0].uuid, "a2");
}

#[test]
fn malformed_line_is_dropped() {
    let log = lines(&[
        r#"{"type":"user","timestamp":"2024-01-02T03:04:05Z","message":{"role":"user","content":"one"}}"#,
        r#"{this is not json"#,
        r#"{"type":"assistant","timestamp":"2024-01-02T03:04:06Z","message":{"role":"assistant","content":"two"}}"#,
    ]);
    let (s, skipped) = parse_lines_counted(&log, "s1", "p1");
    assert_eq!(skipped, 1);
    assert_eq!(s.messages.len(), 2);
    assert_eq!(s.messages[0].content, "one");
    assert_eq!(s.messages[1].content, "two");
}

#[test]
fn edit_tool_line_accounting() {
    let log = lines(&[
        r#"{"type":"assistant","timestamp":"2024-01-02T03:04:06Z","message":{"role":"assistant","content":[{"type":"tool_use","name":"Edit","input":{"file_path":"/p/f.rs","old_string":"a\nb\nc","new_string":"1\n2\n3\n4\n5"}}]}}"#,
    ]);
    let s = parse(&log, "s1", "p1");
    assert_eq!(s.lines_added, 5);
    assert_eq!(s.lines_removed, 3);
    assert_eq!(s.file_contributions.len(), 1);
    assert_eq!(s.file_contributions[0].path, "/p/f.rs");
    assert_eq!(s.file_contributions[0].contribution.added, 5);
    assert_eq!(s.file_contributions[0].contribution.removed, 3);
    assert_eq!(s.tool_usage.len(), 1);
    assert_eq!(s.tool_usage[0].name, "Edit");
    assert_eq!(s.tool_usage[0].count, 1);
}

#[test]
fn write_tool_line_accounting() {
    let log = lines(&[
        r#"{"type":"assistant","timestamp":"t1","message":{"role":"assistant","content":[{"type":"tool_use","name":"Write","input":{"file_path":"/p/new.rs","content":"x\ny"}}]}}"#,
    ]);
    let s = parse(&log, "s1", "p1");
    assert_eq!(s.lines_added, 2);
    assert_eq!(s.lines_removed, 0);
    assert_eq!(s.file_contributions[0].contribution.added, 2);
}

#[test]
fn header_fields_and_duration() {
    let log = lines(&[
        r#"{"type":"summary","timestamp":"2024-01-01T00:00:01Z","cwd":"/home/x/p"}"#,
        r#"{"type":"system","subtype":"turn_duration","durationMs":1500,"timestamp":"2024-01-01T00:00:02Z"}"#,
        r#"{"type":"system","subtype":"turn_duration","durationMs":500}"#,
        r#"{"type":"user","timestamp":"2024-01-01T00:00:03Z","message":{"role":"user","content":"q"}}"#,
    ]);
    let s = parse(&log, "sid", "pid");
    assert_eq!(s.cwd, "/home/x/p");
    assert_eq!(s.started_at, "2024-01-01T00:00:01Z");
    assert_eq!(s.last_active, "2024-01-01T00:00:03Z");
    assert_eq!(s.duration_ms, 2000);
    assert_eq!(s.session_id, "sid");
    assert_eq!(s.project_id, "pid");
    assert_eq!(s.source, DataSource::Claude);
}

#[test]
fn skipped_kinds_contribute_nothing() {
    let log = lines(&[
        r#"{"type":"progress","timestamp":"2024-01-01T00:00:01Z","cwd":"/skip/me"}"#,
        r#"{"type":"user","timestamp":"2024-01-01T00:00:02Z","cwd":"/keep/me","message":{"role":"user","content":"q"}}"#,
    ]);
    let s = parse(&log, "s", "p");
    assert_eq!(s.cwd, "/keep/me");
    assert_eq!(s.started_at, "2024-01-01T00:00:02Z");
}

#[test]
fn fractional_duration_keeps_the_record() {
    let log = lines(&[
        r#"{"type":"system","subtype":"turn_duration","durationMs":12.5,"cwd":"/kept/dir","timestamp":"2024-01-01T00:00:01Z"}"#,
        r#"{"type":"system","subtype":"turn_duration","durationMs":2000}"#,
    ]);
    let (s, skipped) = parse_lines_counted(&log, "s", "p");
    assert_eq!(skipped, 0);
    assert_eq!(s.cwd, "/kept/dir");
    assert_eq!(s.started_at, "2024-01-01T00:00:01Z");
    assert_eq!(s.duration_ms, 2000);
}

#[test]
fn messages_sorted_by_timestamp() {
    let log = lines(&[
        r#"{"type":"assistant","timestamp":"2024-01-01T00:00:05Z","message":{"role":"assistant","content":"late"}}"#,
        r#"{"type":"user","timestamp":"2024-01-01T00:00:01Z","message":{"role":"user","content":"early"}}"#,
    ]);
    let s = parse(&log, "s", "p");
    assert_eq!(s.messages[0].content, "early");
    assert_eq!(s.messages[1].content, "late");
}

#[test]
fn human_contribution_counts() {
    let log = lines(&[
        r#"{"type":"user","timestamp":"t","message":{"role":"user","content":"<b>two words</b>\nsecond line"}}"#,
    ]);
    let s = parse(&log, "s", "p");
    assert_eq!(s.human_lines, 2);
    assert_eq!(s.human_words, 4);
    assert_eq!(s.human_chars, 21);
    assert_eq!(s.first_prompt, "<b>two words</b> second line");
}

#[test]
fn token_sums_for_line_log() {
    let log = lines(&[
        r#"{"type":"assistant","timestamp":"t1","message":{"role":"assistant","content":"a","id":"x1","usage":{"input_tokens":10,"output_tokens":1,"cache_read_input_tokens":3,"cache_creation_input_tokens":4}}}"#,
        r#"{"type":"assistant","timestamp":"t2","message":{"role":"assistant","content":"b","id":"x2","usage":{"input_tokens":20,"output_tokens":2}}}"#,
    ]);
    let s = parse(&log, "s", "p");
    assert_eq!(s.total_tokens.input, 30);
    assert_eq!(s.total_tokens.output, 3);
    assert_eq!(s.total_tokens.cache_read, 3);
    assert_eq!(s.total_tokens.cache_creation, 4);
    assert_eq!(s.model, "");
}

#[test]
fn strip_html_drops_tags() {
    assert_eq!(strip_html("<b>hi</b> there"), "hi there");
    assert_eq!(strip_html("no tags"), "no tags");
    assert_eq!(strip_html("<unclosed"), "");
}

#[test]
fn extract_text_squashes_whitespace() {
    let c = RawContent::Text("  a\n b   c ".to_string());
    assert_eq!(extract_text(&c), "a b c");
}

#[test]
fn extract_raw_text_joins_blocks() {
    let log = lines(&[
        r#"{"type":"user","timestamp":"t","message":{"role":"user","content":[{"type":"text","text":"one"},{"type":"tool_result"},{"type":"text","text":"two"}]}}"#,
    ]);
    let s = parse(&log, "s", "p");
    assert_eq!(s.messages[0].content, "one\ntwo");
    let c = RawContent::Text("keep\nlines".to_string());
    assert_eq!(extract_raw_text(&c), "keep\nlines");
}

#[test]
fn metadata_scan_reads_first_fields() {
    let log = lines(&[
        r#"not json"#,
        r#"{"type":"user","timestamp":"2024-05-06T07:08:09Z","cwd":"/w/d"}"#,
    ]);
    let (cwd, started) = parse_session_metadata(&log);
    assert_eq!(cwd, "/w/d");
    assert_eq!(started, "2024-05-06T07:08:09Z");
}

#[test]
fn timestamp_resolution_rules() {
    assert_eq!(
        resolve_timestamp(Some(1_700_000_000_000), 0),
        Some(1_700_000_000_000)
    );
    assert_eq!(
        resolve_timestamp(Some(5000), 1_700_000_000_000),
        Some(1_700_000_005_000)
    );
    assert_eq!(resolve_timestamp(Some(0), 1_700_000_000_000), None);
    assert_eq!(resolve_timestamp(None, 1_700_000_000_000), None);
    assert_eq!(resolve_timestamp(Some(5000), 0), None);
}

#[test]
fn composer_creation_unit_rule() {
    assert_eq!(composer_created_ms(1_700_000_000_000), Some(1_700_000_000_000));
    assert_eq!(composer_created_ms(1_700_000_000), Some(1_700_000_000_000));
    assert_eq!(composer_created_ms(900_000_000), None);
}

#[test]
fn text_at_the_cap_is_kept_whole() {
    let exact = "y".repeat(5000);
    let log = vec![format!(
        r#"{{"type":"assistant","timestamp":"t","message":{{"role":"assistant","content":"{}"}}}}"#,
        exact
    )];
    let s = parse(&log, "s", "p");
    assert_eq!(s.messages[0].content.len(), 5000);
    assert!(!s.messages[0].content.ends_with("..."));
}

#[test]
fn assistant_text_is_clipped() {
    let long = "x".repeat(6000);
    let log = vec![format!(
        r#"{{"type":"assistant","timestamp":"t","message":{{"role":"assistant","content":"{}"}}}}"#,
        long
    )];
    let s = parse(&log, "s", "p");
    assert_eq!(s.messages[0].content.len(), 5003);
    assert!(s.messages[0].content.ends_with("..."));
}
