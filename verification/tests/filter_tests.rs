use chrono::TimeZone;
use logsleuth::filter::{
    apply_dedup, apply_filters, contains_ci, fuzzy_match, normalize_message, DedupInfo, DedupMode,
    FilterState,
};
use logsleuth::model::{LogEntry, Severity};

fn make_entry(id: u64, severity: Severity, message: &str) -> LogEntry {
    LogEntry {
        id,
        timestamp: None,
        severity,
        source_file: "test.log".to_string(),
        line_number: id,
        thread: None,
        component: None,
        message: message.to_string(),
        raw_text: message.to_string(),
        profile_id: "test".to_string(),
        file_modified: None,
    }
}

fn make_entry_with_file(id: u64, severity: Severity, message: &str, file: &str, ts: Option<i128>) -> LogEntry {
    let mut e = make_entry(id, severity, message);
    e.source_file = file.to_string();
    e.timestamp = ts;
    e
}

/// 2024-01-01 12:00:00 UTC in nanoseconds.
fn base() -> i128 {
    chrono::Utc.with_ymd_and_hms(2024, 1, 1, 12, 0, 0).unwrap().timestamp_nanos_opt().unwrap() as i128
}

fn minutes(m: i128) -> i128 {
    m * 60 * 1_000_000_000
}

fn info_for(info: &[(usize, DedupInfo)], idx: usize) -> Option<&DedupInfo> {
    info.iter().find(|(i, _)| *i == idx).map(|(_, d)| d)
}

#[test]
fn test_fuzzy_match_basic_subsequence() {
    assert!(fuzzy_match("cerr", "Connection error"));
    assert!(fuzzy_match("fail", "FAILED"));
    assert!(fuzzy_match("err", "error"));
    assert!(!fuzzy_match("xyz", "Connection error"));
}

#[test]
fn test_fuzzy_match_empty_query_always_matches() {
    assert!(fuzzy_match("", "anything"));
    assert!(fuzzy_match("", ""));
}

#[test]
fn test_fuzzy_match_exact_still_works() {
    assert!(fuzzy_match("error", "error"));
    assert!(!fuzzy_match("errors", "error"));
}

#[test]
fn test_fuzzy_filter_applied_when_flag_set() {
    let entries = vec![
        make_entry(1, Severity::Error, "Connection error"),
        make_entry(2, Severity::Info, "All systems ok"),
    ];
    let filter = FilterState { text_search: "cerr".to_string(), fuzzy: true, ..Default::default() };
    assert_eq!(apply_filters(&entries, &filter), vec![0]);
}

#[test]
fn test_substring_mode_does_not_fuzzy_match() {
    let entries = vec![make_entry(1, Severity::Error, "Connection error")];
    let filter = FilterState { text_search: "cerr".to_string(), fuzzy: false, ..Default::default() };
    assert!(apply_filters(&entries, &filter).is_empty());
}

#[test]
fn test_empty_filter_returns_all() {
    let entries = vec![make_entry(1, Severity::Error, "Error 1"), make_entry(2, Severity::Info, "Info 1")];
    assert_eq!(apply_filters(&entries, &FilterState::default()), vec![0, 1]);
}

#[test]
fn test_severity_filter() {
    let entries = vec![
        make_entry(1, Severity::Error, "Error 1"),
        make_entry(2, Severity::Info, "Info 1"),
        make_entry(3, Severity::Warning, "Warning 1"),
    ];
    assert_eq!(apply_filters(&entries, &FilterState::errors_only()), vec![0]);
}

#[test]
fn test_text_search_case_insensitive() {
    let entries = vec![
        make_entry(1, Severity::Error, "Connection FAILED"),
        make_entry(2, Severity::Info, "Connection succeeded"),
    ];
    let filter = FilterState { text_search: "failed".to_string(), ..Default::default() };
    assert_eq!(apply_filters(&entries, &filter), vec![0]);
}

#[test]
fn test_regex_filter() {
    let entries = vec![
        make_entry(1, Severity::Error, "Error code: 404"),
        make_entry(2, Severity::Error, "Error code: 500"),
        make_entry(3, Severity::Info, "Status OK"),
    ];
    let mut filter = FilterState::default();
    filter.set_regex(r"code:\s*5\d{2}").unwrap();
    assert_eq!(apply_filters(&entries, &filter), vec![1]);
}

#[test]
fn test_regex_filter_is_case_insensitive() {
    let entries = vec![make_entry(1, Severity::Error, "Error CODE: 500"), make_entry(2, Severity::Info, "Status OK")];
    let mut filter = FilterState::default();
    filter.set_regex(r"code:\s*5\d{2}").unwrap();
    assert_eq!(apply_filters(&entries, &filter), vec![0]);
}

#[test]
fn test_combined_filters() {
    let entries = vec![
        make_entry(1, Severity::Error, "Database connection failed"),
        make_entry(2, Severity::Error, "Network timeout"),
        make_entry(3, Severity::Info, "Database query ok"),
    ];
    let filter = FilterState {
        severity_levels: vec![Severity::Error],
        text_search: "database".to_string(),
        ..Default::default()
    };
    assert_eq!(apply_filters(&entries, &filter), vec![0]);
}

#[test]
fn filter_test_invalid_regex() {
    let mut filter = FilterState::default();
    let result = filter.set_regex("[invalid");
    assert!(result.is_err());
}

#[test]
fn test_time_range_start_bound() {
    let mut old_entry = make_entry(1, Severity::Info, "old message");
    let mut new_entry = make_entry(2, Severity::Info, "new message");
    old_entry.timestamp = Some(base());
    new_entry.timestamp = Some(base() + minutes(60));
    let entries = vec![old_entry, new_entry];
    let filter = FilterState { time_start: Some(base() + minutes(30)), ..Default::default() };
    assert_eq!(apply_filters(&entries, &filter), vec![1]);
}

#[test]
fn test_time_filter_uses_file_mtime_fallback_when_no_timestamp() {
    let mut ts_entry = make_entry(1, Severity::Info, "has parsed timestamp");
    ts_entry.timestamp = Some(base() + minutes(60));
    let mut mtime_only = make_entry(2, Severity::Info, "no timestamp, has mtime");
    mtime_only.timestamp = None;
    mtime_only.file_modified = Some(base() + minutes(60));
    let mut neither = make_entry(3, Severity::Info, "no timestamp no mtime");
    neither.timestamp = None;
    neither.file_modified = None;
    let entries = vec![ts_entry, mtime_only, neither];
    let filter = FilterState { time_start: Some(base() + minutes(30)), ..Default::default() };
    assert_eq!(apply_filters(&entries, &filter), vec![0, 1]);
}

#[test]
fn test_source_file_filter() {
    let mut entry_a = make_entry(1, Severity::Info, "file a entry");
    let mut entry_b = make_entry(2, Severity::Info, "file b entry");
    entry_a.source_file = "a.log".to_string();
    entry_b.source_file = "b.log".to_string();
    let entries = vec![entry_a, entry_b];
    let filter = FilterState { source_files: vec!["a.log".to_string()], ..Default::default() };
    assert_eq!(apply_filters(&entries, &filter), vec![0]);
}

#[test]
fn test_relative_time_field_tracked_in_is_empty() {
    let mut filter = FilterState::default();
    assert!(filter.is_empty());
    filter.relative_time_secs = Some(900);
    assert!(!filter.is_empty());
    filter.relative_time_secs = None;
    assert!(filter.is_empty());
}

#[test]
fn test_bookmark_filter_returns_only_bookmarked_entries() {
    let entries = vec![
        make_entry(0, Severity::Info, "entry zero"),
        make_entry(1, Severity::Error, "entry one"),
        make_entry(2, Severity::Info, "entry two"),
    ];
    let filter = FilterState { bookmarks_only: true, bookmarked_ids: vec![0, 2], ..Default::default() };
    assert_eq!(apply_filters(&entries, &filter), vec![0, 2]);
}

#[test]
fn test_bookmark_filter_tracked_in_is_empty() {
    let mut filter = FilterState::default();
    assert!(filter.is_empty());
    filter.bookmarks_only = true;
    assert!(!filter.is_empty());
    filter.bookmarks_only = false;
    assert!(filter.is_empty());
}

#[test]
fn test_exclude_text_hides_matching_entries() {
    let entries = vec![
        make_entry(1, Severity::Error, "heartbeat check ok"),
        make_entry(2, Severity::Error, "Connection refused"),
        make_entry(3, Severity::Info, "HEARTBEAT response"),
    ];
    let filter = FilterState { exclude_text: "heartbeat".to_string(), ..Default::default() };
    assert_eq!(apply_filters(&entries, &filter), vec![1]);
}

#[test]
fn test_exclude_text_tracked_in_is_empty() {
    let mut filter = FilterState::default();
    assert!(filter.is_empty());
    filter.exclude_text = "noise".to_string();
    assert!(!filter.is_empty());
    filter.exclude_text.clear();
    assert!(filter.is_empty());
}

#[test]
fn test_exclude_text_combined_with_include_text() {
    let entries = vec![
        make_entry(1, Severity::Error, "database error: timeout"),
        make_entry(2, Severity::Error, "database error: heartbeat"),
        make_entry(3, Severity::Error, "network timeout"),
    ];
    let filter = FilterState {
        text_search: "error".to_string(),
        exclude_text: "heartbeat".to_string(),
        ..Default::default()
    };
    assert_eq!(apply_filters(&entries, &filter), vec![0]);
}

#[test]
fn test_component_filter_keeps_only_selected_components() {
    let mut e1 = make_entry(1, Severity::Error, "auth failed");
    let mut e2 = make_entry(2, Severity::Error, "db query failed");
    let mut e3 = make_entry(3, Severity::Info, "health ok");
    e1.component = Some("auth".to_string());
    e2.component = Some("db".to_string());
    e3.component = None;
    let entries = vec![e1, e2, e3];
    let filter = FilterState { component_filter: vec!["auth".to_string()], ..Default::default() };
    assert_eq!(apply_filters(&entries, &filter), vec![0]);
}

#[test]
fn test_component_filter_tracked_in_is_empty() {
    let mut filter = FilterState::default();
    assert!(filter.is_empty());
    filter.component_filter.push("scheduler".to_string());
    assert!(!filter.is_empty());
    filter.component_filter.clear();
    assert!(filter.is_empty());
}

#[test]
fn test_component_filter_excludes_non_matching_component() {
    let mut e1 = make_entry(1, Severity::Error, "msg1");
    let mut e2 = make_entry(2, Severity::Error, "msg2");
    let mut e3 = make_entry(3, Severity::Error, "msg3");
    e1.component = Some("auth".to_string());
    e2.component = Some("db".to_string());
    e3.component = Some("auth".to_string());
    let entries = vec![e1, e2, e3];
    let filter = FilterState { component_filter: vec!["auth".to_string()], ..Default::default() };
    assert_eq!(apply_filters(&entries, &filter), vec![0, 2]);
}

#[test]
fn test_errors_and_warnings_from_includes_exactly_three_severities() {
    let entries = vec![
        make_entry(1, Severity::Critical, "critical msg"),
        make_entry(2, Severity::Error, "error msg"),
        make_entry(3, Severity::Warning, "warning msg"),
        make_entry(4, Severity::Info, "info msg"),
        make_entry(5, Severity::Debug, "debug msg"),
    ];
    let filter = FilterState::errors_and_warnings_from(false);
    assert_eq!(apply_filters(&entries, &filter), vec![0, 1, 2]);
}

#[test]
fn test_errors_and_warnings_from_preserves_fuzzy_flag() {
    assert!(!FilterState::errors_and_warnings_from(false).fuzzy);
    assert!(FilterState::errors_and_warnings_from(true).fuzzy);
}

#[test]
fn test_hide_no_timestamp_excludes_untimed_entries() {
    let mut e_with_ts = make_entry(1, Severity::Info, "has timestamp");
    e_with_ts.timestamp = Some(chrono::Utc::now().timestamp_nanos_opt().unwrap() as i128);
    let e_no_ts = make_entry(2, Severity::Info, "no timestamp");
    let entries = vec![e_with_ts, e_no_ts];
    assert_eq!(apply_filters(&entries, &FilterState::default()), vec![0, 1]);
    let filter = FilterState { hide_no_timestamp: true, ..Default::default() };
    assert_eq!(apply_filters(&entries, &filter), vec![0]);
}

#[test]
fn test_hide_no_timestamp_tracked_in_is_empty() {
    let mut filter = FilterState::default();
    assert!(filter.is_empty());
    filter.hide_no_timestamp = true;
    assert!(!filter.is_empty());
    filter.hide_no_timestamp = false;
    assert!(filter.is_empty());
}

#[test]
fn test_dedup_mode_tracked_in_is_empty() {
    let mut filter = FilterState::default();
    assert!(filter.is_empty());
    filter.dedup_mode = DedupMode::Exact;
    assert!(!filter.is_empty());
    filter.dedup_mode = DedupMode::Normalized;
    assert!(!filter.is_empty());
    filter.dedup_mode = DedupMode::Off;
    assert!(filter.is_empty());
}

#[test]
fn test_normalize_replaces_ipv4() {
    assert_eq!(normalize_message("Connection from 192.168.1.100:8080 refused"), "Connection from <IP> refused");
}

#[test]
fn test_normalize_replaces_guid() {
    assert_eq!(normalize_message("Session 550e8400-e29b-41d4-a716-446655440000 expired"), "Session <GUID> expired");
}

#[test]
fn test_normalize_replaces_hex_prefixed() {
    assert_eq!(normalize_message("Error at address 0xDEADBEEF01234567"), "Error at address <HEX>");
}

#[test]
fn test_normalize_replaces_numbers() {
    assert_eq!(normalize_message("Processed 42 items in 3.14 seconds"), "Processed <NUM> items in <NUM> seconds");
}

#[test]
fn test_normalize_combined() {
    let msg = "Host 10.0.0.1 job 550e8400-e29b-41d4-a716-446655440000 processed 99 records at 0xCAFEBABE01020304";
    assert_eq!(normalize_message(msg), "Host <IP> job <GUID> processed <NUM> records at <HEX>");
}

#[test]
fn test_normalize_empty_string() {
    assert_eq!(normalize_message(""), "");
}

#[test]
fn test_normalize_no_variable_data() {
    let msg = "Connection error: timeout expired";
    assert_eq!(normalize_message(msg), msg);
}

#[test]
fn normalize_is_idempotent_on_example() {
    let once = normalize_message("Host 10.0.0.1 took 42 ms");
    assert_eq!(normalize_message(&once), once);
}

#[test]
fn contains_ci_examples() {
    assert!(contains_ci("Connection FAILED", "failed"));
    assert!(contains_ci("anything", ""));
    assert!(!contains_ci("abc", "abcd"));
}

#[test]
fn test_dedup_off_returns_original() {
    let entries = vec![make_entry(1, Severity::Info, "msg A"), make_entry(2, Severity::Info, "msg A")];
    let (result, info) = apply_dedup(&entries, &vec![0, 1], DedupMode::Off);
    assert_eq!(result, vec![0, 1]);
    assert!(info.is_empty());
}

#[test]
fn test_dedup_exact_collapses_identical_messages() {
    let b = base();
    let entries = vec![
        make_entry_with_file(1, Severity::Error, "Connection refused", "a.log", Some(b)),
        make_entry_with_file(2, Severity::Error, "Connection refused", "a.log", Some(b + minutes(5))),
        make_entry_with_file(3, Severity::Error, "Connection refused", "a.log", Some(b + minutes(10))),
        make_entry_with_file(4, Severity::Info, "OK", "a.log", Some(b)),
    ];
    let (result, info) = apply_dedup(&entries, &vec![0, 1, 2, 3], DedupMode::Exact);
    assert_eq!(result.len(), 2);
    assert!(result.contains(&2));
    assert!(result.contains(&3));
    let dedup = info_for(&info, 2).expect("entry 2 should have dedup info");
    assert_eq!(dedup.count, 3);
    assert_eq!(dedup.first_timestamp, Some(b));
    assert_eq!(dedup.all_indices.len(), 3);
}

#[test]
fn test_dedup_per_source_file() {
    let b = base();
    let entries = vec![
        make_entry_with_file(1, Severity::Error, "timeout", "a.log", Some(b)),
        make_entry_with_file(2, Severity::Error, "timeout", "b.log", Some(b)),
    ];
    let (result, info) = apply_dedup(&entries, &vec![0, 1], DedupMode::Exact);
    assert_eq!(result.len(), 2);
    for &idx in &result {
        if let Some(d) = info_for(&info, idx) {
            assert_eq!(d.count, 1);
        }
    }
}

#[test]
fn test_dedup_normalized_groups_variable_data() {
    let b = base();
    let entries = vec![
        make_entry_with_file(1, Severity::Error, "Failed to connect to 10.0.0.1:8080", "a.log", Some(b)),
        make_entry_with_file(2, Severity::Error, "Failed to connect to 10.0.0.2:9090", "a.log", Some(b + minutes(1))),
        make_entry_with_file(3, Severity::Error, "Failed to connect to 192.168.1.1:443", "a.log", Some(b + minutes(2))),
    ];
    let (result, info) = apply_dedup(&entries, &vec![0, 1, 2], DedupMode::Normalized);
    assert_eq!(result.len(), 1);
    let dedup = info_for(&info, result[0]).expect("survivor should have dedup info");
    assert_eq!(dedup.count, 3);
}

#[test]
fn test_dedup_normalized_different_guids_collapse() {
    let b = base();
    let entries = vec![
        make_entry_with_file(1, Severity::Info, "Job 550e8400-e29b-41d4-a716-446655440000 started", "a.log", Some(b)),
        make_entry_with_file(2, Severity::Info, "Job a1b2c3d4-e5f6-7890-abcd-ef1234567890 started", "a.log", Some(b + minutes(1))),
    ];
    let (result, info) = apply_dedup(&entries, &vec![0, 1], DedupMode::Normalized);
    assert_eq!(result.len(), 1);
    let dedup = info_for(&info, result[0]).expect("survivor should have dedup info");
    assert_eq!(dedup.count, 2);
}

#[test]
fn test_dedup_exact_does_not_collapse_different_variable_data() {
    let b = base();
    let entries = vec![
        make_entry_with_file(1, Severity::Error, "Error on host 10.0.0.1", "a.log", Some(b)),
        make_entry_with_file(2, Severity::Error, "Error on host 10.0.0.2", "a.log", Some(b + minutes(1))),
    ];
    let (result, _info) = apply_dedup(&entries, &vec![0, 1], DedupMode::Exact);
    assert_eq!(result.len(), 2);
}

#[test]
fn test_dedup_latest_wins() {
    let b = base();
    let entries = vec![
        make_entry_with_file(1, Severity::Error, "dup msg", "a.log", Some(b + minutes(10))),
        make_entry_with_file(2, Severity::Error, "dup msg", "a.log", Some(b + minutes(5))),
        make_entry_with_file(3, Severity::Error, "dup msg", "a.log", Some(b)),
    ];
    let (result, info) = apply_dedup(&entries, &vec![0, 1, 2], DedupMode::Exact);
    assert_eq!(result.len(), 1);
    assert_eq!(result[0], 0);
    let dedup = info_for(&info, 0).unwrap();
    assert_eq!(dedup.count, 3);
    assert_eq!(dedup.first_timestamp, Some(b));
}

#[test]
fn test_dedup_no_timestamp_uses_id_tiebreaker() {
    let entries = vec![
        make_entry_with_file(1, Severity::Error, "same msg", "a.log", None),
        make_entry_with_file(2, Severity::Error, "same msg", "a.log", None),
        make_entry_with_file(3, Severity::Error, "same msg", "a.log", None),
    ];
    let (result, info) = apply_dedup(&entries, &vec![0, 1, 2], DedupMode::Exact);
    assert_eq!(result.len(), 1);
    assert_eq!(result[0], 2);
    assert_eq!(info_for(&info, 2).unwrap().count, 3);
}

#[test]
fn test_dedup_preserves_filter_order() {
    let b = base();
    let entries = vec![
        make_entry_with_file(1, Severity::Error, "alpha", "a.log", Some(b)),
        make_entry_with_file(2, Severity::Error, "alpha", "a.log", Some(b + minutes(1))),
        make_entry_with_file(3, Severity::Info, "beta", "a.log", Some(b + minutes(2))),
        make_entry_with_file(4, Severity::Warning, "gamma", "a.log", Some(b + minutes(3))),
    ];
    let (result, _) = apply_dedup(&entries, &vec![0, 1, 2, 3], DedupMode::Exact);
    assert_eq!(result, vec![1, 2, 3]);
}

#[test]
fn contains_ci_matches_the_lowercased_haystack() {
    assert!(logsleuth::filter::contains_ci("\u{130}", "i\u{307}"));
    assert!(logsleuth::filter::contains_ci("Hello WORLD", "world"));
    assert!(!logsleuth::filter::contains_ci("ab", "abc"));
}

#[test]
fn switching_on_a_criterion_never_adds_entries() {
    let entries = vec![
        make_entry(1, Severity::Error, "disk full"),
        make_entry(2, Severity::Info, "disk ok"),
        make_entry(3, Severity::Warning, "net slow"),
    ];
    let mut loose = FilterState::default();
    loose.text_search = "disk".to_string();
    let mut strict = FilterState::default();
    strict.text_search = "disk".to_string();
    strict.severity_levels = vec![Severity::Error];
    let a = apply_filters(&entries, &loose);
    let b = apply_filters(&entries, &strict);
    assert_eq!(a, vec![0, 1]);
    assert_eq!(b, vec![0]);
    assert!(b.iter().all(|i| a.contains(i)));
    strict.hide_all_sources = true;
    assert!(apply_filters(&entries, &strict).is_empty());
}

#[test]
fn dedup_keeps_the_latest_of_each_group_in_any_index_order() {
    let entries = vec![
        make_entry_with_file(1, Severity::Error, "timeout", "/a.log", Some(minutes(1))),
        make_entry_with_file(2, Severity::Error, "timeout", "/a.log", Some(minutes(3))),
        make_entry_with_file(3, Severity::Info, "started", "/a.log", Some(minutes(2))),
    ];
    let (kept, info) = apply_dedup(&entries, &vec![2, 0, 1], DedupMode::Exact);
    assert_eq!(kept, vec![2, 1]);
    assert_eq!(info_for(&info, 1).map(|i| i.count), Some(2));
}

#[test]
fn filter_lists_are_read_as_sets() {
    let entries = vec![
        make_entry(1, Severity::Error, "a"),
        make_entry(2, Severity::Info, "b"),
        make_entry(3, Severity::Warning, "c"),
    ];
    let mut once = FilterState::default();
    once.severity_levels = vec![Severity::Error, Severity::Warning];
    let mut repeated = FilterState::default();
    repeated.severity_levels = vec![Severity::Warning, Severity::Error, Severity::Warning];
    assert_eq!(apply_filters(&entries, &once), apply_filters(&entries, &repeated));
    assert_eq!(apply_filters(&entries, &once), vec![0, 2]);
}

#[test]
fn severity_level_names_select_that_level_and_above() {
    assert_eq!(
        logsleuth::filter::severities_at_least("WARNING"),
        Some(vec![Severity::Critical, Severity::Error, Severity::Warning])
    );
    assert_eq!(logsleuth::filter::severities_at_least("critical"), Some(vec![Severity::Critical]));
    assert_eq!(logsleuth::filter::severities_at_least("verbose"), None);
}
