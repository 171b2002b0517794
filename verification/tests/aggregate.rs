use usage_tracker::cursor::{normalize_tool, parse_cursor_session, composers_from_json, composer_created_from_heads};
use usage_tracker::format::{
    estimate_cost, format_cost, format_duration, format_number, short_model, source_label_str,
    truncate,
};
use usage_tracker::metrics::{build_project_summaries, compute_global_metrics, ProjectSessions};
use usage_tracker::models::{DataSource, ScannedProject, SessionFile, TokenTotals};
use usage_tracker::parser::parse_session_lines;
use usage_tracker::scanner::{
    active_cursor_sessions, cursor_project_folder, decode_project_id, normalize_path,
    resolve_claude_project_dir, scan_all_projects, url_decode,
};
use usage_tracker::theme::Theme;
use usage_tracker::ui::SortColumn;

fn lines(v: &[&str]) -> Vec<String> {
    v.iter().map(|s| s.to_string()).collect()
}

fn parse_cursor_session_full(
    bubbles: &Vec<String>,
    sid: &str,
    pid: &str,
    created_ms: Option<i64>,
) -> usage_tracker::models::ParsedSession {
    parse_cursor_session(bubbles, sid, pid, created_ms).0
}

fn project(id: &str, dir: &str, source: DataSource) -> ScannedProject {
    ScannedProject {
        id: id.to_string(),
        dir: dir.to_string(),
        sources: vec![source],
        session_files: vec![SessionFile {
            id: format!("{}-s", id),
            path: format!("{}/log", dir),
            size: 1,
            source,
        }],
    }
}

#[test]
fn same_path_containers_merge() {
    let a = project("c1", "/Users/a/proj", DataSource::Claude);
    let b = project("k1", "/Users/a/proj/", DataSource::Cursor);
    let merged = scan_all_projects(vec![a], vec![b]);
    assert_eq!(merged.len(), 1);
    assert_eq!(merged[0].sources, vec![DataSource::Claude, DataSource::Cursor]);
    assert_eq!(merged[0].session_files.len(), 2);
    assert_eq!(merged[0].id, "c1");
}

#[test]
fn distinct_paths_stay_apart() {
    let a = project("c1", "/Users/a/one", DataSource::Claude);
    let b = project("k1", "/Users/a/two", DataSource::Cursor);
    let merged = scan_all_projects(vec![a], vec![b]);
    assert_eq!(merged.len(), 2);
}

#[test]
fn path_normalization_strips_trailing_separators() {
    assert_eq!(normalize_path("/a/b/"), "/a/b");
    assert_eq!(normalize_path("/a/b"), "/a/b");
    assert_eq!(normalize_path("///"), "");
}

#[test]
fn url_decoding() {
    assert_eq!(url_decode("a%20b"), "a b");
    assert_eq!(url_decode("a%2Fb"), "a/b");
    assert_eq!(url_decode("a%zzb"), "a%zzb");
    assert_eq!(url_decode("plain"), "plain");
}

#[test]
fn project_id_decoding() {
    assert_eq!(decode_project_id("-Users-a-proj", true), "/Users/a/proj");
    assert_eq!(decode_project_id("-Users-a-proj", false), "-Users-a-proj");
}

#[test]
fn project_dir_resolution_prefers_cwd() {
    let cwds = lines(&["", "/real/dir"]);
    assert_eq!(resolve_claude_project_dir(&cwds, "-x-y", false), "/real/dir");
    let empty: Vec<String> = Vec::new();
    assert_eq!(resolve_claude_project_dir(&empty, "-x-y", true), "/x/y");
}

#[test]
fn workspace_folder_resolution() {
    assert_eq!(
        cursor_project_folder("file:///Users/a%20b/proj"),
        Some("/Users/a b/proj".to_string())
    );
    assert_eq!(cursor_project_folder("vscode-remote://ssh/x"), None);
    assert_eq!(cursor_project_folder(""), None);
}

#[test]
fn opus_cost_formula() {
    let cost = estimate_cost("opus-4", 2_000_000, 100_000, 500_000);
    assert_eq!(cost, 3_075_000_000);
    assert_eq!(format_cost(cost), "$30.75");
}

#[test]
fn default_pricing_is_sonnet() {
    let cost = estimate_cost("unknown-model", 1_000_000, 0, 0);
    assert_eq!(cost, 300_000_000);
    assert_eq!(format_cost(cost), "$3.00");
    let tiny = estimate_cost("haiku-3", 1_000, 0, 0);
    assert_eq!(format_cost(tiny), "<$0.01");
}

#[test]
fn number_formatting() {
    assert_eq!(format_number(0), "0");
    assert_eq!(format_number(999), "999");
    assert_eq!(format_number(1_500), "1.5K");
    assert_eq!(format_number(2_540_000), "2.5M");
}

#[test]
fn cost_rounding_boundaries() {
    assert_eq!(format_cost(999_999), "<$0.01");
    assert_eq!(format_cost(1_000_000), "$0.01");
    assert_eq!(format_cost(125_000_000), "$1.25");
    assert_eq!(format_cost(3_075_000_000), "$30.75");
}

#[test]
fn duration_formatting() {
    assert_eq!(format_duration(500), "500ms");
    assert_eq!(format_duration(5_000), "5s");
    assert_eq!(format_duration(65_000), "1m 5s");
    assert_eq!(format_duration(3_660_000), "1h 1m");
}

#[test]
fn truncate_caps_text() {
    assert_eq!(truncate("hello", 3), "hel...");
    assert_eq!(truncate("hi", 3), "hi");
}

#[test]
fn model_shortening() {
    assert_eq!(short_model("opus-4-6"), "Opus 4.6");
    assert_eq!(short_model("sonnet-4-5-20250929"), "Sonnet 4.5");
    assert_eq!(short_model("opus-4-20250514"), "Opus 4");
    assert_eq!(short_model("3-haiku"), "Haiku");
    assert_eq!(short_model("gpt-4"), "");
    assert_eq!(short_model(""), "");
}

#[test]
fn tool_name_normalization() {
    assert_eq!(normalize_tool("edit_file"), "Edit");
    assert_eq!(normalize_tool("run_terminal_command"), "Bash");
    assert_eq!(normalize_tool("codebase_search"), "Grep");
    assert_eq!(normalize_tool("mystery"), "mystery");
}

#[test]
fn source_labels() {
    assert_eq!(source_label_str(&vec![DataSource::Claude]), "Code");
    assert_eq!(source_label_str(&vec![DataSource::Cursor]), "Cursor");
    assert_eq!(
        source_label_str(&vec![DataSource::Claude, DataSource::Cursor]),
        "Both"
    );
}

#[test]
fn cursor_tokens_max_and_sum() {
    let bubbles = lines(&[
        r#"{"type":2,"text":"a","tokenCount":{"inputTokens":100,"outputTokens":10}}"#,
        r#"{"type":2,"text":"b","tokenCount":{"inputTokens":250,"outputTokens":20}}"#,
        r#"{"type":2,"text":"c","tokenCount":{"inputTokens":180,"outputTokens":30}}"#,
    ]);
    let s = parse_cursor_session_full(&bubbles, "comp1", "proj1", None);
    assert_eq!(s.total_tokens.input, 250);
    assert_eq!(s.total_tokens.output, 60);
    assert_eq!(s.source, DataSource::Cursor);
}

#[test]
fn cursor_timestamps_and_duration() {
    let bubbles = lines(&[
        r#"{"type":1,"text":"ask","timingInfo":{"clientStartTime":1000},"bubbleId":"b1"}"#,
        r#"{"type":2,"text":"answer","timingInfo":{"clientStartTime":2000,"clientEndTime":7000},"bubbleId":"b2"}"#,
    ]);
    let s = parse_cursor_session_full(&bubbles, "comp1", "proj1", Some(1_700_000_000_000));
    assert_eq!(s.started_at, "2023-11-14T22:13:21+00:00");
    assert_eq!(s.last_active, "2023-11-14T22:13:22+00:00");
    assert_eq!(s.duration_ms, 5000);
    assert_eq!(s.messages.len(), 2);
    assert_eq!(s.messages[0].role, "user");
    assert_eq!(s.messages[1].role, "assistant");
}

#[test]
fn cursor_code_blocks_and_uuid_fallback() {
    let bubbles = lines(&[
        r#"{"type":2,"text":"wrote code","codeBlocks":[{"content":"l1\nl2\nl3","uri":{"_fsPath":"/p/a.rs"}}]}"#,
    ]);
    let s = parse_cursor_session_full(&bubbles, "comp1", "proj1", None);
    assert_eq!(s.lines_added, 3);
    assert_eq!(s.lines_removed, 0);
    assert_eq!(s.file_contributions[0].path, "/p/a.rs");
    assert_eq!(s.file_contributions[0].contribution.added, 3);
    assert_eq!(s.tool_usage[0].name, "Edit");
    assert_eq!(s.tool_usage[0].count, 1);
    assert_eq!(s.messages[0].uuid, "cursor-comp1-0");
}

#[test]
fn unreadable_bubble_is_counted_as_skipped() {
    let bubbles = lines(&[
        r#"{"type":"not a number","text":"bad"}"#,
        r#"{"type":1,"text":"good"}"#,
    ]);
    let (s, skipped) = parse_cursor_session(&bubbles, "c", "p", None);
    assert_eq!(skipped, 1);
    assert_eq!(s.messages.len(), 1);
    assert_eq!(s.messages[0].content, "good");
}

#[test]
fn cursor_bubbles_sorted_by_start_time() {
    let bubbles = lines(&[
        r#"{"type":2,"text":"second","timingInfo":{"clientStartTime":2000000000000},"bubbleId":"b"}"#,
        r#"{"type":1,"text":"first","timingInfo":{"clientStartTime":1500000000000},"bubbleId":"a"}"#,
    ]);
    let s = parse_cursor_session_full(&bubbles, "c", "p", None);
    assert_eq!(s.messages[0].content, "first");
    assert_eq!(s.messages[1].content, "second");
}

#[test]
fn composer_heads_lookup() {
    let json = r#"{"allComposers":[{"composerId":"aa","createdAt":1700000000,"isArchived":false},{"composerId":"bb","createdAt":500}]}"#;
    let heads = composers_from_json(json).unwrap();
    assert_eq!(heads.len(), 2);
    assert_eq!(
        composer_created_from_heads(&heads, "aa"),
        Some(1_700_000_000_000)
    );
    assert_eq!(composer_created_from_heads(&heads, "bb"), None);
    assert_eq!(composer_created_from_heads(&heads, "cc"), None);
    assert_eq!(composers_from_json("not json"), None);
    assert_eq!(composers_from_json("{}"), None);
}

#[test]
fn active_sessions_filtering() {
    let json = r#"{"allComposers":[{"composerId":"live"},{"composerId":"dead","isArchived":true},{"composerId":"empty"}]}"#;
    let heads = composers_from_json(json).unwrap();
    let with_bubbles = lines(&["live", "dead"]);
    let files = active_cursor_sessions(&heads, &with_bubbles, "/db/state.vscdb");
    assert_eq!(files.len(), 1);
    assert_eq!(files[0].id, "live");
    assert_eq!(files[0].path, "/db/state.vscdb");
    assert_eq!(files[0].source, DataSource::Cursor);
}

#[test]
fn theme_cycle_and_names() {
    assert_eq!(Theme::all().len(), 6);
    assert_eq!(Theme::Default.next(), Theme::Dracula);
    assert_eq!(Theme::Gruvbox.next(), Theme::Default);
    assert_eq!(Theme::from_name("NORD"), Some(Theme::Nord));
    assert_eq!(Theme::from_name("unknown"), None);
    assert_eq!(Theme::Monokai.name(), "Monokai");
}

#[test]
fn sort_columns_cycle() {
    assert_eq!(SortColumn::Name.next(), SortColumn::Sessions);
    assert_eq!(SortColumn::LastActive.next(), SortColumn::Name);
    assert_eq!(SortColumn::LastActive.label(), "Last Active");
}

#[test]
fn token_totals_helpers() {
    let z = TokenTotals::zero();
    assert_eq!(z.input, 0);
    let t = TokenTotals { input: 3, output: 4, cache_read: 9, cache_creation: 9 };
    assert_eq!(t.total(), 7);
}

fn sample_session(ts: &str, cwd: &str, model: &str, input: u64, output: u64) -> usage_tracker::models::ParsedSession {
    let log = lines(&[&format!(
        r#"{{"type":"assistant","timestamp":"{}","cwd":"{}","message":{{"role":"assistant","content":"ok","model":"{}","usage":{{"input_tokens":{},"output_tokens":{}}}}}}}"#,
        ts, cwd, model, input, output
    )]);
    parse_session_lines(&log, "s", "p").0
}

#[test]
fn summaries_fold_projects() {
    let s1 = sample_session("2024-03-01T10:00:00Z", "/w/alpha", "opus-4", 100, 10);
    let s2 = sample_session("2024-03-02T10:00:00Z", "", "", 50, 5);
    let projects = vec![
        ProjectSessions { id: "p1".to_string(), sources: vec![DataSource::Claude], sessions: vec![s2, s1] },
        ProjectSessions { id: "p2".to_string(), sources: vec![DataSource::Cursor], sessions: vec![] },
    ];
    let sums = build_project_summaries(projects);
    assert_eq!(sums.len(), 1);
    let p = &sums[0];
    assert_eq!(p.id, "p1");
    assert_eq!(p.path, "/w/alpha");
    assert_eq!(p.name, "alpha");
    assert_eq!(p.session_count, 2);
    assert_eq!(p.message_count, 2);
    assert_eq!(p.total_tokens.input, 150);
    assert_eq!(p.total_tokens.output, 15);
    assert_eq!(p.last_active, "2024-03-02T10:00:00Z");
    assert_eq!(p.model, "opus-4");
    // sessions come back ordered by start time
    assert_eq!(p.sessions[0].started_at, "2024-03-01T10:00:00Z");
    assert_eq!(p.cost, 150 * 1500 + 15 * 7500);
}

#[test]
fn summaries_sorted_by_recency() {
    let old = sample_session("2024-01-01T00:00:00Z", "/w/old", "m", 1, 1);
    let new = sample_session("2024-06-01T00:00:00Z", "/w/new", "m", 1, 1);
    let projects = vec![
        ProjectSessions { id: "old".to_string(), sources: vec![DataSource::Claude], sessions: vec![old] },
        ProjectSessions { id: "new".to_string(), sources: vec![DataSource::Claude], sessions: vec![new] },
    ];
    let sums = build_project_summaries(projects);
    assert_eq!(sums[0].id, "new");
    assert_eq!(sums[1].id, "old");
}

#[test]
fn global_metrics_and_timeline() {
    let a = sample_session("2024-03-01T10:00:00Z", "/w/a", "m", 100, 10);
    let b = sample_session("2024-03-01T22:00:00Z", "/w/a", "m", 40, 4);
    let c = sample_session("2024-02-28T09:00:00Z", "/w/b", "m", 7, 3);
    let projects = vec![
        ProjectSessions { id: "p1".to_string(), sources: vec![DataSource::Claude], sessions: vec![a, b] },
        ProjectSessions { id: "p2".to_string(), sources: vec![DataSource::Claude], sessions: vec![c] },
    ];
    let sums = build_project_summaries(projects);
    let g = compute_global_metrics(&sums);
    assert_eq!(g.total_projects, 2);
    assert_eq!(g.total_sessions, 3);
    assert_eq!(g.total_messages, 3);
    assert_eq!(g.total_tokens.input, 147);
    assert_eq!(g.total_tokens.output, 17);
    assert_eq!(g.timeline.len(), 2);
    assert_eq!(g.timeline[0].date, "2024-02-28");
    assert_eq!(g.timeline[1].date, "2024-03-01");
    assert_eq!(g.timeline[1].sessions, 2);
    assert_eq!(g.timeline[1].messages, 2);
    assert_eq!(g.timeline[1].token_input, 140);
    assert_eq!(g.timeline[1].token_output, 14);
}
