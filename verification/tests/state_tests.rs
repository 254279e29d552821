use chrono::{Local, NaiveDate, NaiveDateTime, TimeZone, Utc};
use logsleuth::constants::{
    DEFAULT_CORRELATION_WINDOW_SECS, DEFAULT_MAX_DEPTH, DEFAULT_MAX_FILES,
    DEFAULT_MAX_TAIL_BUFFER_ENTRIES, MAX_TOTAL_ENTRIES,
};
use logsleuth::filter::DedupMode;
use logsleuth::model::{LogEntry, Severity};
use logsleuth::multi_search::MultiSearchMode;
use logsleuth::session::{PersistedFilter, SessionData, SESSION_VERSION};
use logsleuth::state::{AppState, DIR_WATCH_POLL_INTERVAL_MS, TAIL_POLL_INTERVAL_MS};

fn nanos(dt: chrono::DateTime<Utc>) -> i128 {
    dt.timestamp_nanos_opt().unwrap() as i128
}

fn make_entry(id: u64, offset_secs: i64) -> LogEntry {
    let base = Utc.with_ymd_and_hms(2024, 1, 15, 12, 0, 0).unwrap();
    let ts = base + chrono::Duration::seconds(offset_secs);
    LogEntry {
        id,
        timestamp: Some(nanos(ts)),
        severity: Severity::Info,
        source_file: "test.log".to_string(),
        line_number: 1,
        thread: None,
        component: None,
        message: String::new(),
        raw_text: String::new(),
        profile_id: "test".to_string(),
        file_modified: None,
    }
}

fn local_to_utc_nanos(ndt: NaiveDateTime) -> i128 {
    let utc = Local.from_local_datetime(&ndt).single().map(|d| d.to_utc()).unwrap_or_else(|| ndt.and_utc());
    nanos(utc)
}

fn session_with_extra_files(extra: Vec<String>) -> SessionData {
    SessionData {
        version: SESSION_VERSION,
        scan_path: Some("/var/log".to_string()),
        extra_files: extra,
        filter: PersistedFilter::default(),
        file_colours: vec![],
        bookmarks: vec![],
        correlation_window_secs: DEFAULT_CORRELATION_WINDOW_SECS,
        discovery_date_input: String::new(),
        dark_mode: true,
        sort_descending: false,
        tail_auto_scroll: true,
        max_files_limit: DEFAULT_MAX_FILES,
        max_total_entries: MAX_TOTAL_ENTRIES,
        max_scan_depth: DEFAULT_MAX_DEPTH,
        tail_poll_interval_ms: TAIL_POLL_INTERVAL_MS,
        dir_watch_poll_interval_ms: DIR_WATCH_POLL_INTERVAL_MS,
        max_tail_buffer_entries: DEFAULT_MAX_TAIL_BUFFER_ENTRIES,
        troubleshoot_mode: false,
    }
}

#[test]
fn test_correlation_window_identifies_nearby_entries() {
    let mut state = AppState::new(vec![], false);
    state.entries = vec![make_entry(10, -35), make_entry(20, -20), make_entry(30, 0), make_entry(40, 20), make_entry(50, 35)];
    state.filtered_indices = vec![2];
    state.selected_index = Some(0);
    state.correlation_active = true;
    state.correlation_window_secs = 30;
    state.update_correlation();
    assert!(!state.correlated_ids.contains(&10), "-35s must be outside the 30s window");
    assert!(state.correlated_ids.contains(&20), "-20s must be inside the 30s window");
    assert!(state.correlated_ids.contains(&30), "anchor (0s) must be in the window");
    assert!(state.correlated_ids.contains(&40), "+20s must be inside the 30s window");
    assert!(!state.correlated_ids.contains(&50), "+35s must be outside the 30s window");
}

#[test]
fn test_correlation_clears_when_disabled() {
    let mut state = AppState::new(vec![], false);
    state.entries = vec![make_entry(1, 0), make_entry(2, 5)];
    state.filtered_indices = vec![0];
    state.selected_index = Some(0);
    state.correlation_active = true;
    state.correlation_window_secs = 30;
    state.update_correlation();
    assert!(!state.correlated_ids.is_empty());
    state.correlation_active = false;
    state.update_correlation();
    assert!(state.correlated_ids.is_empty(), "correlated_ids must be empty when correlation is disabled");
}

#[test]
fn test_correlation_no_timestamp_entry_yields_empty_set() {
    let mut state = AppState::new(vec![], false);
    let mut entry = make_entry(1, 0);
    entry.timestamp = None;
    state.entries = vec![entry];
    state.filtered_indices = vec![0];
    state.selected_index = Some(0);
    state.correlation_active = true;
    state.update_correlation();
    assert!(state.correlated_ids.is_empty());
}

#[test]
fn test_apply_filters_preserves_selection_by_id() {
    let mut state = AppState::new(vec![], false);
    for id in 0u64..5 {
        let mut e = make_entry(id, id as i64 * 60);
        e.severity = if id % 2 == 0 { Severity::Info } else { Severity::Error };
        state.entries.push(e);
    }
    state.apply_filters();
    assert_eq!(state.filtered_indices, vec![0, 1, 2, 3, 4]);
    state.selected_index = Some(3);
    assert_eq!(state.selected_entry().map(|e| e.id), Some(3));
    state.filter_state.severity_levels.clear();
    state.filter_state.severity_levels.push(Severity::Error);
    state.apply_filters();
    assert_eq!(state.selected_entry().map(|e| e.id), Some(3));
    assert_eq!(state.selected_index, Some(1));
}

fn state_with_input(s: &str) -> AppState {
    let mut st = AppState::new(vec![], false);
    st.discovery_date_input = s.to_string();
    st
}

#[test]
fn test_discovery_modified_since_empty_returns_none() {
    let st = state_with_input("");
    assert!(st.discovery_modified_since().is_none());
}

#[test]
fn test_discovery_modified_since_date_only_midnight_local() {
    let st = state_with_input("2025-03-14");
    let dt = st.discovery_modified_since().expect("should parse");
    let ndt = NaiveDate::from_ymd_opt(2025, 3, 14).unwrap().and_hms_opt(0, 0, 0).unwrap();
    assert_eq!(dt, local_to_utc_nanos(ndt));
}

#[test]
fn test_discovery_modified_since_date_and_hour_minute() {
    let st = state_with_input("2025-03-14 09:30");
    let dt = st.discovery_modified_since().expect("should parse");
    let ndt = NaiveDateTime::parse_from_str("2025-03-14 09:30:00", "%Y-%m-%d %H:%M:%S").unwrap();
    assert_eq!(dt, local_to_utc_nanos(ndt));
}

#[test]
fn test_discovery_modified_since_full_datetime_to_second() {
    let st = state_with_input("2025-03-14 09:30:45");
    let dt = st.discovery_modified_since().expect("should parse");
    let ndt = NaiveDateTime::parse_from_str("2025-03-14 09:30:45", "%Y-%m-%d %H:%M:%S").unwrap();
    assert_eq!(dt, local_to_utc_nanos(ndt));
}

#[test]
fn test_discovery_modified_since_invalid_returns_none() {
    for bad in &["not-a-date", "2025/03/14", "14-03-2025", "2025-03-14T09:30"] {
        let st = state_with_input(bad);
        assert!(st.discovery_modified_since().is_none(), "'{bad}' should not parse");
    }
}

#[test]
fn test_apply_filters_clears_correlation_when_selected_entry_is_hidden() {
    let mut state = AppState::new(vec![], false);
    for id in 0u64..3 {
        let mut e = make_entry(id, 0);
        e.severity = if id == 1 { Severity::Error } else { Severity::Info };
        state.entries.push(e);
    }
    state.apply_filters();
    assert_eq!(state.filtered_indices.len(), 3);
    state.selected_index = Some(0);
    state.correlation_active = true;
    state.correlation_window_secs = 30;
    state.update_correlation();
    assert_eq!(state.correlated_ids.len(), 3);
    state.filter_state.severity_levels.clear();
    state.filter_state.severity_levels.push(Severity::Error);
    state.apply_filters();
    assert!(state.selected_index.is_none());
    assert!(state.correlated_ids.is_empty());
}

#[test]
fn test_toggle_sort_direction_preserves_selected_entry() {
    let mut state = AppState::new(vec![], false);
    state.entries = vec![make_entry(1, 0), make_entry(2, 60), make_entry(3, 120)];
    state.apply_filters();
    state.selected_index = Some(1);
    let id_before = state.selected_entry().map(|e| e.id);
    assert_eq!(id_before, Some(2));
    assert!(!state.sort_descending, "default sort must be ascending");
    state.toggle_sort_direction();
    assert!(state.sort_descending);
    assert_eq!(state.selected_index, Some(1));
    assert_eq!(state.selected_entry().map(|e| e.id), id_before);
    state.toggle_sort_direction();
    assert!(!state.sort_descending);
    assert_eq!(state.selected_entry().map(|e| e.id), id_before);
}

#[test]
fn test_sort_descending_preserved_across_clear() {
    let mut state = AppState::new(vec![], false);
    assert!(!state.sort_descending);
    state.sort_descending = true;
    state.clear();
    assert!(state.sort_descending, "sort_descending must not be reset by clear()");
}

#[test]
fn test_manually_added_files_round_trip_through_save_session() {
    let mut state = AppState::new(vec![], false);
    state.manually_added_files = vec!["/var/log/extra1.log".to_string(), "/var/log/extra2.log".to_string()];
    let data = state.session_data();
    assert_eq!(data.extra_files.len(), 2);
    assert!(data.extra_files.contains(&"/var/log/extra1.log".to_string()));
}

#[test]
fn test_extra_files_restored_into_queue_after_restore_from_session() {
    let mut state = AppState::new(vec![], false);
    let data = session_with_extra_files(vec!["/tmp/a.log".to_string(), "/tmp/b.log".to_string()]);
    state.restore_from_session(data);
    assert_eq!(state.extra_files_to_restore.len(), 2);
    assert!(state.extra_files_to_restore.contains(&"/tmp/a.log".to_string()));
}

#[test]
fn test_clear_removes_extra_file_lists() {
    let mut state = AppState::new(vec![], false);
    state.manually_added_files = vec!["/a.log".to_string()];
    state.extra_files_to_restore = vec!["/b.log".to_string()];
    state.clear();
    assert!(state.manually_added_files.is_empty());
    assert!(state.extra_files_to_restore.is_empty());
}

// Further cases of the library's own.

#[test]
fn restore_gives_back_a_snapshot() {
    let mut state = AppState::new(vec![], false);
    state.scan_path = Some("/logs".to_string());
    state.filter_state.text_search = "timeout".to_string();
    state.filter_state.fuzzy = true;
    state.filter_state.relative_time_secs = Some(3600);
    state.filter_state.component_filter = vec!["net".to_string(), "db".to_string(), "net".to_string()];
    state.filter_state.dedup_mode = DedupMode::Exact;
    state.filter_state.regex_pattern = "err(or)?".to_string();
    state.bookmarks = vec![(7, "seven".to_string()), (3, String::new())];
    state.correlation_window_secs = -45;
    state.dark_mode = false;
    state.multi_search_input = "alpha, -beta".to_string();
    state.filter_state.multi_search.mode = MultiSearchMode::All;
    let data = state.session_data();
    assert_eq!(data.filter.component_filter, vec!["db".to_string(), "net".to_string()]);
    let mut other = AppState::new(vec![], false);
    other.restore_from_session(data);
    assert_eq!(other.scan_path, Some("/logs".to_string()));
    assert_eq!(other.filter_state.text_search, "timeout");
    assert!(other.filter_state.fuzzy);
    assert_eq!(other.filter_state.relative_time_secs, Some(3600));
    assert_eq!(other.filter_state.relative_time_input, "60");
    assert_eq!(other.filter_state.dedup_mode, DedupMode::Exact);
    assert_eq!(other.filter_state.regex_pattern, "err(or)?");
    assert!(other.filter_state.regex_search.is_some());
    assert_eq!(other.bookmark_count(), 2);
    assert!(other.is_bookmarked(7) && other.is_bookmarked(3));
    assert_eq!(other.correlation_window_secs, -45);
    assert_eq!(other.correlation_window_input, "-45");
    assert!(!other.dark_mode);
    assert_eq!(other.multi_search_input, "alpha, -beta");
    assert_eq!(other.filter_state.multi_search.include_terms, vec!["alpha".to_string()]);
    assert_eq!(other.filter_state.multi_search.exclude_terms, vec!["beta".to_string()]);
    assert_eq!(other.filter_state.multi_search.mode, MultiSearchMode::All);
    assert!(other.filter_state.multi_search.compiled.is_some());
}

#[test]
fn restore_keeps_last_label_of_repeated_bookmarks() {
    let mut data = session_with_extra_files(vec![]);
    data.bookmarks = vec![(5, "first".to_string()), (6, "x".to_string()), (5, "second".to_string())];
    let mut state = AppState::new(vec![], false);
    state.restore_from_session(data);
    assert_eq!(state.bookmark_count(), 2);
    let label = state.bookmarks.iter().find(|b| b.0 == 5).map(|b| b.1.clone());
    assert_eq!(label, Some("second".to_string()));
}

#[test]
fn restore_drops_multi_search_that_does_not_compile() {
    let mut data = session_with_extra_files(vec![]);
    data.filter.multi_search_input = "(unclosed".to_string();
    data.filter.multi_search_regex_mode = true;
    data.filter.multi_search_mode = MultiSearchMode::All;
    let mut state = AppState::new(vec![], false);
    state.restore_from_session(data);
    assert!(state.multi_search_input.is_empty());
    assert!(state.filter_state.multi_search.include_terms.is_empty());
    assert_eq!(state.filter_state.multi_search.mode, MultiSearchMode::Any);
}

#[test]
fn restore_drops_invalid_regex_but_keeps_its_text() {
    let mut data = session_with_extra_files(vec![]);
    data.filter.regex_pattern = "[bad".to_string();
    let mut state = AppState::new(vec![], false);
    state.restore_from_session(data);
    assert_eq!(state.filter_state.regex_pattern, "[bad");
    assert!(state.filter_state.regex_search.is_none());
}

#[test]
fn extend_appends_only_passing_new_entries() {
    let mut state = AppState::new(vec![], false);
    for id in 0u64..3 {
        let mut e = make_entry(id, id as i64);
        e.severity = if id == 1 { Severity::Error } else { Severity::Info };
        state.entries.push(e);
    }
    state.filter_state.severity_levels = vec![Severity::Error];
    state.apply_filters();
    assert_eq!(state.filtered_indices, vec![1]);
    for id in 3u64..6 {
        let mut e = make_entry(id, id as i64);
        e.severity = if id == 4 { Severity::Error } else { Severity::Info };
        state.entries.push(e);
    }
    state.extend_filtered_for_range(3);
    assert_eq!(state.filtered_indices, vec![1, 4]);
    state.extend_filtered_for_range(10);
    assert_eq!(state.filtered_indices, vec![1, 4]);
}

#[test]
fn file_colours_are_assigned_once() {
    let mut state = AppState::new(vec![], false);
    let palette = [[1, 2, 3, 255], [4, 5, 6, 255]];
    state.assign_file_colour("/a.log", &palette);
    state.assign_file_colour("/a.log", &palette);
    state.assign_file_colour("/b.log", &palette);
    state.assign_file_colour("/c.log", &palette);
    assert_eq!(state.file_colours.len(), 3);
    assert_eq!(state.colour_for_file("/a.log"), [1, 2, 3, 255]);
    assert_eq!(state.colour_for_file("/b.log"), [4, 5, 6, 255]);
    assert_eq!(state.colour_for_file("/c.log"), [1, 2, 3, 255]);
    assert_eq!(state.colour_for_file("/d.log"), [107, 114, 128, 255]);
}

#[test]
fn toggling_a_bookmark_twice_restores_it() {
    let mut state = AppState::new(vec![], false);
    assert!(state.toggle_bookmark(9));
    assert!(state.is_bookmarked(9));
    assert!(!state.toggle_bookmark(9));
    assert!(!state.is_bookmarked(9));
    assert_eq!(state.bookmark_count(), 0);
}

#[test]
fn sorting_puts_entries_in_time_order_with_untimed_last() {
    let mut state = AppState::new(vec![], false);
    let mut untimed = make_entry(9, 0);
    untimed.timestamp = None;
    state.entries = vec![make_entry(1, 30), untimed, make_entry(2, -10), make_entry(3, 30)];
    state.sort_entries_chronologically();
    let ids: Vec<u64> = state.entries.iter().map(|e| e.id).collect();
    assert_eq!(ids, vec![2, 1, 3, 9]);
    state.sort_entries_chronologically();
    let again: Vec<u64> = state.entries.iter().map(|e| e.id).collect();
    assert_eq!(again, ids, "sorting sorted entries changes nothing");
}
