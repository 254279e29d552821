use logsleuth::config::{validate_config, PlatformPaths, RawConfig};
use logsleuth::discovery::{check_root, discovery_step, DiscoveryAction, DiscoveryEvent, DiscoveryWait, compile_patterns, decide_file, limit_files, DiscoveryConfig, DiscoveryError, FileDecision, RootKind};
use logsleuth::event_logs::{default_event_log_dir, select_event_logs, EventLogCandidate, OpenOutcome};
use logsleuth::evtx::{
    decode_xml_entities, join_strings, normalise_whitespace, parse_evtx_records, record_to_entry, replace_text,
    truncate_to_char_boundary, EvtxPatterns, EvtxRecord,
};
use logsleuth::model::{Confidence, DiscoveredFile, FormatProfile, LogEntry, MultilineMode, Severity};
use logsleuth::parser::{ParseConfig, ParseError};
use logsleuth::profile::{validate_and_compile, DetectionDef, ParsingDef, ProfileDefinition, ProfileError, ProfileMeta, SeverityMappingDef};
use logsleuth::profile_mgr::{cap_profiles, is_toml_file, merge_profiles, profile_load_status, profile_text, MAX_PROFILES};
use logsleuth::scan::{decode_bytes, assemble_results, compute_scan_parallelism, into_batches, is_network_path, process_file_in_year, scan_summary};
use logsleuth::session::{accept_session, join_path, session_path, PersistedFilter, SessionData};
use logsleuth::state::AppState;
use logsleuth::tail::{wait_slices, TailFileState};
use logsleuth::dir_watch::{is_new_file, sub_iters, walk_skips_dir, WatchState};
use logsleuth::unc::{connect_unc, is_unc_path, unc_share_root, UncAuthError};

fn strings(v: &[&str]) -> Vec<String> {
    v.iter().map(|s| s.to_string()).collect()
}

fn profile(id: &str, content_match: &str, line_pattern: &str, mode: MultilineMode) -> FormatProfile {
    let def = ProfileDefinition {
        profile: ProfileMeta { id: id.to_string(), name: id.to_string(), version: "1.0".to_string(), description: String::new() },
        detection: DetectionDef { file_patterns: Vec::new(), content_match: content_match.to_string() },
        parsing: ParsingDef { line_pattern: line_pattern.to_string(), timestamp_format: "%Y-%m-%d %H:%M:%S".to_string(), multiline_mode: mode },
        severity_mapping: SeverityMappingDef {
            critical: Vec::new(),
            error: strings(&["ERROR"]),
            warning: strings(&["WARN"]),
            info: strings(&["INFO"]),
            debug: Vec::new(),
        },
    };
    match validate_and_compile(def, "t.toml", false) {
        Ok(p) => p,
        Err(e) => panic!("{e:?}"),
    }
}

fn plain_text() -> FormatProfile {
    profile("plain-text", r"\S", "^(?P<message>.+)$", MultilineMode::Raw)
}

fn structured() -> FormatProfile {
    profile("app", r"^\d{4}-\d{2}-\d{2} ", r"^(?P<timestamp>\S+ \S+) (?P<level>\w+) (?P<message>.+)$", MultilineMode::Continuation)
}

fn file(path: &str, modified: Option<i128>) -> DiscoveredFile {
    DiscoveredFile {
        path: path.to_string(),
        size: 10,
        modified,
        profile_id: None,
        detection_confidence: Confidence { numerator: 0, denominator: 1 },
        is_large: false,
        parsing_skipped: false,
    }
}

// ---------------------------------------------------------------------------
// Event log helpers
// ---------------------------------------------------------------------------

#[test]
fn evtx_text_helpers() {
    assert_eq!(replace_text("a-b-c", "-", "+"), "a+b+c");
    assert_eq!(decode_xml_entities("&lt;a&gt; &quot;x&quot; &apos;y&apos; &amp;lt;"), "<a> \"x\" 'y' &lt;");
    assert_eq!(normalise_whitespace("  a \n\t b  c "), "a b c");
    assert_eq!(truncate_to_char_boundary("héllo", 2), 1);
    assert_eq!(truncate_to_char_boundary("héllo", 3), 3);
    assert_eq!(truncate_to_char_boundary("abc", 10), 3);
    assert_eq!(join_strings(&strings(&["a", "b", "c"]), " | "), "a | b | c");
    assert_eq!(join_strings(&Vec::new(), ", "), "");
}

fn record(id: u64, xml: &str) -> EvtxRecord {
    EvtxRecord { event_record_id: id, seconds: 1_705_329_022, subsec_nanos: 0, xml: xml.to_string() }
}

#[test]
fn evtx_record_becomes_entry() {
    let pats = EvtxPatterns::new().expect("patterns compile");
    let xml = "<Event><System><Provider Name='Service Control Manager'/><EventID Qualifiers='1'>7036</EventID>\
               <Level>2</Level><Execution ProcessID='644' ThreadID='700'/><Channel>System</Channel>\
               <Computer>host1</Computer></System><EventData><Data Name='param1'>Spooler</Data>\
               <Data Name='param2'>stopped</Data></EventData></Event>";
    let e = record_to_entry(&record(42, xml), "sys.evtx", 100_000, 7, &pats);
    assert_eq!(e.id, 7);
    assert_eq!(e.line_number, 42);
    assert_eq!(e.severity, Severity::Error);
    assert_eq!(e.thread.as_deref(), Some("644"));
    assert_eq!(e.component.as_deref(), Some("Service Control Manager"));
    assert_eq!(e.message, "EventID 7036 | Service Control Manager | System | host1 | param1=Spooler, param2=stopped");
    assert_eq!(e.profile_id, "windows-evtx");
    assert_eq!(e.timestamp, Some(1_705_329_022_000_000_000));
    assert_eq!(e.raw_text, xml);
}

#[test]
fn evtx_rendered_message_wins_and_raw_text_is_truncated() {
    let pats = EvtxPatterns::new().unwrap();
    let xml = "<Event><System><Level>4</Level></System><RenderingInfo Culture='en'><Message>  Service   &quot;X&quot;\n started </Message></RenderingInfo></Event>";
    let e = record_to_entry(&record(1, xml), "a.evtx", 10, 0, &pats);
    assert_eq!(e.message, "Service \"X\" started");
    assert_eq!(e.severity, Severity::Info);
    assert_eq!(e.raw_text, format!("{}... [truncated]", &xml[..10]));
}

#[test]
fn evtx_user_data_and_failed_records() {
    let pats = EvtxPatterns::new().unwrap();
    let xml = "<Event><System><Level>9</Level></System><UserData><Op xmlns='x'><a:User>bob</a:User><Count>3</Count></Op></UserData></Event>";
    let records = vec![Ok(record(1, xml)), Err("bad chunk".to_string()), Ok(record(3, "<Event/>"))];
    let r = parse_evtx_records(&records, "u.evtx", 100_000, 10, 100, &pats);
    assert_eq!(r.lines_processed, 3);
    assert_eq!(r.entries.len(), 2);
    assert_eq!(r.entries[0].severity, Severity::Unknown);
    assert_eq!(r.entries[0].message, "User=bob, Count=3");
    assert_eq!(r.entries[0].id, 100);
    assert_eq!(r.entries[1].id, 101);
    assert_eq!(r.entries[1].message, "<Event/>");
    assert_eq!(r.errors.len(), 1);
    match &r.errors[0] {
        ParseError::LineParse { line_number, reason, .. } => {
            assert_eq!(*line_number, 2);
            assert_eq!(reason, "Failed to parse event record: bad chunk");
        },
        other => panic!("unexpected {other:?}"),
    }
}

#[test]
fn event_log_selection() {
    let listing = vec![
        EventLogCandidate { path: "C:\\L\\System.evtx".to_string(), file_name: "System.evtx".to_string(), outcome: OpenOutcome::Opened },
        EventLogCandidate { path: "C:\\L\\App.EVTX".to_string(), file_name: "App.EVTX".to_string(), outcome: OpenOutcome::Opened },
        EventLogCandidate { path: "C:\\L\\Sec.evtx".to_string(), file_name: "Sec.evtx".to_string(), outcome: OpenOutcome::PermissionDenied },
        EventLogCandidate { path: "C:\\L\\Bad.evtx".to_string(), file_name: "Bad.evtx".to_string(), outcome: OpenOutcome::Failed },
        EventLogCandidate { path: "C:\\L\\notes.txt".to_string(), file_name: "notes.txt".to_string(), outcome: OpenOutcome::Opened },
        EventLogCandidate { path: "C:\\L\\.evtx".to_string(), file_name: ".evtx".to_string(), outcome: OpenOutcome::Opened },
    ];
    let s = select_event_logs("C:\\L".to_string(), listing);
    assert_eq!(s.dir, "C:\\L");
    assert_eq!(s.files, strings(&["C:\\L\\App.EVTX", "C:\\L\\System.evtx"]));
    assert_eq!(s.access_denied, 1);
    assert_eq!(s.unreadable, 1);
    assert_eq!(default_event_log_dir(Some("C:\\Windows".to_string()), None), Some("C:\\Windows\\System32\\winevt\\Logs".to_string()));
    assert_eq!(default_event_log_dir(None, Some("D:\\Win\\".to_string())), Some("D:\\Win\\System32\\winevt\\Logs".to_string()));
    assert_eq!(default_event_log_dir(None, None), None);
}

// ---------------------------------------------------------------------------
// Scan pipeline
// ---------------------------------------------------------------------------

#[test]
fn process_file_detects_parses_and_stamps() {
    let profiles = vec![structured(), plain_text()];
    let content = "2024-01-15 14:30:22 ERROR disk full\n2024-01-15 14:30:23 INFO ok\n";
    let f = file("/logs/app.log", Some(77));
    let out = process_file_in_year(content, &f, &profiles, &ParseConfig::default(), 2024);
    assert_eq!(out.profile_id.as_deref(), Some("app"));
    assert_eq!(out.entries.len(), 2);
    assert_eq!(out.entries[0].severity, Severity::Error);
    assert!(out.entries.iter().all(|e| e.file_modified == Some(77)));
    let summary = out.summary.expect("summary for a parsed file");
    assert_eq!(summary.entry_count, 2);
    assert_eq!(summary.profile_id, "app");
    assert!(summary.earliest < summary.latest);
}

#[test]
fn process_file_falls_back_to_plain_text() {
    let profiles = vec![structured(), plain_text()];
    let f = file("/logs/notes.log", None);
    let out = process_file_in_year("just some words\nmore words\n", &f, &profiles, &ParseConfig::default(), 2024);
    assert_eq!(out.profile_id.as_deref(), Some("plain-text"));
    assert_eq!(out.entries.len(), 2);
}

#[test]
fn assemble_orders_renumbers_and_caps() {
    let profiles = vec![structured(), plain_text()];
    let a = process_file_in_year("2024-01-15 14:30:25 INFO late\n", &file("/l/a.log", None), &profiles, &ParseConfig::default(), 2024);
    let b = process_file_in_year("2024-01-15 14:30:21 INFO early\n2024-01-15 14:30:23 INFO mid\n", &file("/l/b.log", None), &profiles, &ParseConfig::default(), 2024);
    let assembled = assemble_results(&vec![a, b], 100, 10);
    let messages: Vec<&str> = assembled.entries.iter().map(|e| e.message.as_str()).collect();
    assert_eq!(messages, vec!["early", "mid", "late"]);
    let mut ids: Vec<u64> = assembled.entries.iter().map(|e| e.id).collect();
    ids.sort();
    assert_eq!(ids, vec![10, 11, 12]);
    assert_eq!(assembled.files_with_entries, 2);
    let (summary, entries) = scan_summary(2, assembled, 5);
    assert_eq!(summary.total_entries, 3);
    assert_eq!(summary.total_files_discovered, 2);
    assert_eq!(summary.duration_ms, 5);
    assert_eq!(entries.len(), 3);

    let c = process_file_in_year("2024-01-15 14:30:25 INFO x\n2024-01-15 14:30:26 INFO y\n", &file("/l/c.log", None), &profiles, &ParseConfig::default(), 2024);
    let capped = assemble_results(&vec![c], 1, 0);
    assert_eq!(capped.entries.len(), 1);
    assert!(capped.cap_reached);
}

#[test]
fn file_bytes_are_decoded_by_byte_order_mark() {
    assert_eq!(decode_bytes(b"\xff\xfeh\0i\0\x3d\x26"), "hi\u{263d}");
    assert_eq!(decode_bytes(b"\xfe\xff\0h\0i\0"), "hi");
    assert_eq!(decode_bytes(b"\xff\xfe\x00\xd8x\0"), "\u{fffd}x");
    assert_eq!(decode_bytes("plain é".as_bytes()), "plain é");
    assert_eq!(decode_bytes(b"bad \xff byte"), "bad \u{fffd} byte");
}

#[test]
fn batches_and_parallelism() {
    let entries: Vec<LogEntry> = (0..5).map(|i| LogEntry {
        id: i,
        timestamp: None,
        severity: Severity::Info,
        source_file: "f".to_string(),
        line_number: i,
        thread: None,
        component: None,
        message: String::new(),
        raw_text: String::new(),
        profile_id: "p".to_string(),
        file_modified: None,
    }).collect();
    let batches = into_batches(entries, 2);
    assert_eq!(batches.iter().map(|b| b.len()).collect::<Vec<_>>(), vec![2, 2, 1]);
    assert!(is_network_path("\\\\srv\\share\\a.log"));
    assert!(!is_network_path("/var/log/a.log"));
    assert_eq!(compute_scan_parallelism(4, Some("/var/log/a.log")), 4);
    assert_eq!(compute_scan_parallelism(4, Some("\\\\srv\\s\\a.log")), 16);
    assert_eq!(compute_scan_parallelism(40, Some("//srv/s/a.log")), 64);
    assert_eq!(compute_scan_parallelism(3, None), 3);
}

// ---------------------------------------------------------------------------
// Discovery
// ---------------------------------------------------------------------------

#[test]
fn discovery_decisions() {
    let mut config = DiscoveryConfig::default();
    config.modified_since = Some(1_000);
    config.large_file_threshold = 100;
    let inc = compile_patterns(&config.include_patterns);
    let exc = compile_patterns(&config.exclude_patterns);
    match decide_file("/l/app.log", Some("app.log"), Ok((150, Some(2_000))), &config, &inc, &exc) {
        FileDecision::Take(f) => {
            assert_eq!(f.path, "/l/app.log");
            assert!(f.is_large);
            assert_eq!(f.modified, Some(2_000));
        },
        other => panic!("unexpected {other:?}"),
    }
    assert!(matches!(decide_file("/l/a.log.gz", Some("a.log.gz"), Ok((1, None)), &config, &inc, &exc), FileDecision::Skip));
    assert!(matches!(decide_file("/l/a.dat", Some("a.dat"), Ok((1, None)), &config, &inc, &exc), FileDecision::Skip));
    assert!(matches!(decide_file("/l/old.log", Some("old.log"), Ok((1, Some(10))), &config, &inc, &exc), FileDecision::Skip));
    match decide_file("/l/x.log", None, Ok((1, None)), &config, &inc, &exc) {
        FileDecision::Warn(w) => assert_eq!(w, "Skipping '/l/x.log': non-UTF-8 filename"),
        other => panic!("unexpected {other:?}"),
    }
    match decide_file("/l/y.log", Some("y.log"), Err("denied".to_string()), &config, &inc, &exc) {
        FileDecision::Warn(w) => assert_eq!(w, "Cannot read metadata for '/l/y.log': denied"),
        other => panic!("unexpected {other:?}"),
    }
}

#[test]
fn limit_keeps_newest_files() {
    let files = vec![file("/a", Some(1)), file("/b", Some(3)), file("/c", None), file("/d", Some(2))];
    let (kept, warning) = limit_files(files, 2);
    assert_eq!(kept.iter().map(|f| f.path.as_str()).collect::<Vec<_>>(), vec!["/b", "/d"]);
    assert_eq!(
        warning.as_deref(),
        Some("4 log files were found but the ingest limit is 2. Only the 2 most recently modified files have been loaded. Raise the limit in Options if you need more.")
    );
    let ties = vec![file("/x", Some(5)), file("/y", Some(7)), file("/z", Some(5)), file("/w", Some(5)), file("/n", None)];
    let (kept, _) = limit_files(ties, 3);
    assert_eq!(kept.iter().map(|f| f.path.as_str()).collect::<Vec<_>>(), vec!["/y", "/x", "/z"]);
    let (all, none) = limit_files(vec![file("/a", None)], 5);
    assert_eq!(all.len(), 1);
    assert!(none.is_none());
}

// ---------------------------------------------------------------------------
// Configuration
// ---------------------------------------------------------------------------

#[test]
fn config_validation_keeps_good_values_and_reports_bad_ones() {
    let mut raw = RawConfig::default();
    raw.discovery.max_depth = Some(0);
    raw.discovery.max_files = Some(250);
    raw.ui.theme = Some("Light".to_string());
    raw.ui.correlation_window_seconds = Some(-5);
    raw.logging.level = Some("loud".to_string());
    raw.logging.file = Some(String::new());
    let (config, warnings) = validate_config(&raw, Some("font!".to_string()));
    assert_eq!(config.max_depth, 10);
    assert_eq!(config.max_files, 250);
    assert!(!config.dark_mode);
    assert_eq!(config.correlation_window_secs, 30);
    assert_eq!(config.log_level, None);
    assert_eq!(config.log_file, None);
    assert_eq!(
        warnings,
        strings(&[
            "[discovery] max_depth = 0 is out of range (1-50). Using default (10).",
            "[ui] correlation_window_seconds = -5 is out of range (1-3600). Using default (30).",
            "font!",
            "[logging] level = \"loud\" is not recognised. Valid values: error, warn, info, debug, trace. Using default (info).",
        ])
    );
    let (defaults, none) = validate_config(&RawConfig::default(), None);
    assert_eq!(defaults.max_files, 500);
    assert!(defaults.dark_mode);
    assert!(none.is_empty());
}

#[test]
fn platform_paths_put_profiles_beside_config() {
    let p = PlatformPaths::from_dirs(Some(("/home/u/.config/logsleuth".to_string(), "/home/u/.local/share/logsleuth".to_string())));
    assert_eq!(p.user_profiles_dir, "/home/u/.config/profiles");
    assert_eq!(p.data_dir, "/home/u/.local/share/logsleuth");
    let q = PlatformPaths::from_dirs(None);
    assert_eq!(q.config_dir, ".");
    assert_eq!(q.user_profiles_dir, "./profiles");
}

// ---------------------------------------------------------------------------
// Profiles
// ---------------------------------------------------------------------------

#[test]
fn user_profiles_override_builtin_ones() {
    let base = vec![structured(), plain_text()];
    let mut user_app = profile("app", "x", "(?P<message>.+)", MultilineMode::Skip);
    user_app.name = "User App".to_string();
    let extra = profile("extra", "y", "(?P<message>.+)", MultilineMode::Raw);
    let merged = merge_profiles(base, vec![user_app, extra]);
    assert_eq!(merged.iter().map(|p| p.id.as_str()).collect::<Vec<_>>(), vec!["app", "plain-text", "extra"]);
    assert_eq!(merged[0].name, "User App");
}

#[test]
fn profile_count_is_capped() {
    let mut profiles: Vec<FormatProfile> = (0..MAX_PROFILES + 2).map(|i| profile(&format!("p{i}"), "x", "(?P<message>.+)", MultilineMode::Raw)).collect();
    let mut errors = Vec::new();
    cap_profiles(&mut profiles, &mut errors);
    assert_eq!(profiles.len(), MAX_PROFILES);
    assert!(matches!(errors[0], ProfileError::TooManyProfiles { count, max } if count == MAX_PROFILES + 2 && max == MAX_PROFILES));
}

#[test]
fn profile_files_are_checked() {
    assert!(is_toml_file("/p/custom.toml"));
    assert!(!is_toml_file("/p/custom.toml.bak"));
    assert!(!is_toml_file("/p/.toml"));
    assert!(matches!(profile_text("a.toml", vec![b'x'; 5], 4), Err(ProfileError::FileTooLarge { size: 5, max_size: 4, .. })));
    assert!(matches!(profile_text("a.toml", vec![0xff, 0xfe], 4), Err(ProfileError::Io { .. })));
    assert_eq!(profile_text("a.toml", b"id = 1".to_vec(), 10).unwrap(), "id = 1");
    let status = profile_load_status(&vec![structured()], &Vec::new());
    assert!(!status.is_empty());
}

// ---------------------------------------------------------------------------
// Sessions
// ---------------------------------------------------------------------------

#[test]
fn session_paths_and_versions() {
    assert_eq!(join_path("/data", "x"), "/data/x");
    assert_eq!(join_path("/data/", "x"), "/data/x");
    assert_eq!(join_path("", "x"), "x");
    assert_eq!(session_path("/data"), "/data/session.json");
    let state = AppState::new(vec![], false);
    let mut data: SessionData = state.session_data();
    assert!(accept_session(state.session_data()).is_some());
    data.version = 99;
    assert!(accept_session(data).is_none());
    let f = PersistedFilter::default();
    assert!(f.multi_search_input.is_empty());
}

// ---------------------------------------------------------------------------
// Live tail and directory watch
// ---------------------------------------------------------------------------

#[test]
fn tail_keeps_partial_lines_and_handles_truncation() {
    let mut t = TailFileState::new("/l/a.log".to_string(), plain_text(), 10);
    assert_eq!(t.plan_read(25), 15);
    assert_eq!(t.absorb("first line\nsec", 15), Some("first line\n".to_string()));
    assert_eq!(t.partial, "sec");
    assert_eq!(t.offset, 25);
    assert_eq!(t.absorb("ond", 3), None);
    assert_eq!(t.partial, "second");
    assert_eq!(t.plan_read(28), 0);
    assert_eq!(t.plan_read(5), 5);
    assert_eq!(t.offset, 0);
    assert!(t.partial.is_empty());
    assert_eq!(t.absorb_bytes(b"ab\xffc\n"), Some("ab\u{fffd}c\n".to_string()));
    let parsed = t.parse("hello\nworld\n", &ParseConfig::default(), 9);
    assert_eq!(parsed.entries.iter().map(|e| e.id).collect::<Vec<_>>(), vec![9, 10]);
    assert_eq!(wait_slices(500, 100), 5);
    assert_eq!(wait_slices(50, 100), 1);
}

#[test]
fn directory_watch_reports_each_new_file_once() {
    let inc = compile_patterns(&strings(&["*.log"]));
    let known = strings(&["/l/a.log"]);
    assert!(!is_new_file("/l/a.log", "a.log", &known, &inc, &Vec::new(), None, None));
    assert!(is_new_file("/l/b.log", "b.log", &known, &inc, &Vec::new(), None, None));
    assert!(!is_new_file("/l/b.txt", "b.txt", &known, &inc, &Vec::new(), None, None));
    assert!(!is_new_file("/l/c.log", "c.log", &known, &inc, &Vec::new(), Some(5), Some(10)));
    assert!(is_new_file("/l/c.log", "c.log", &known, &inc, &Vec::new(), None, Some(10)));
    let mut w = WatchState::new(known.clone(), &vec![("/l/a.log".to_string(), Some(1))]);
    w.add_known(&strings(&["/l/b.log"]));
    assert!(!is_new_file("/l/b.log", "b.log", &w.known_paths, &inc, &Vec::new(), None, None));
    let first = w.mtime_updates(&vec![("/l/a.log".to_string(), Some(1)), ("/l/b.log".to_string(), Some(4))]);
    assert!(first.is_empty(), "a file seen for the first time is recorded silently");
    let second = w.mtime_updates(&vec![("/l/a.log".to_string(), Some(2)), ("/l/b.log".to_string(), Some(4))]);
    assert_eq!(second, vec![("/l/a.log".to_string(), 2)]);
    assert_eq!(sub_iters(2000, 100), 20);
    assert_eq!(sub_iters(10, 100), 1);
}

// ---------------------------------------------------------------------------
// Network paths
// ---------------------------------------------------------------------------

#[test]
fn unc_paths() {
    assert!(is_unc_path("\\\\server\\share\\dir"));
    assert!(is_unc_path("//server/share"));
    assert!(!is_unc_path("C:\\dir"));
    assert_eq!(unc_share_root("\\\\server\\share\\dir\\f.log"), Some("\\\\server\\share".to_string()));
    assert_eq!(unc_share_root("//server/share/x"), Some("\\\\server\\share".to_string()));
    assert_eq!(unc_share_root("\\\\server"), None);
    assert!(matches!(connect_unc("\\\\s\\x", "u", "p"), Err(UncAuthError::NotSupported)));
    assert_eq!(UncAuthError::ApiError { code: 5, message: "  ".to_string() }.to_text(), "Network error (code 5)");
    assert_eq!(UncAuthError::ApiError { code: 5, message: " Access is denied. ".to_string() }.to_text(), "Access is denied.");
}

// ---------------------------------------------------------------------------
// Reports
// ---------------------------------------------------------------------------

#[test]
fn reports_list_visible_entries_and_bookmarks() {
    let mut state = AppState::new(vec![], false);
    for i in 0..3u64 {
        state.entries.push(LogEntry {
            id: i,
            timestamp: None,
            severity: if i == 1 { Severity::Error } else { Severity::Info },
            source_file: format!("/var/log/f{i}.log"),
            line_number: i,
            thread: None,
            component: None,
            message: format!("m{i}"),
            raw_text: format!("raw {i}"),
            profile_id: "p".to_string(),
            file_modified: None,
        });
    }
    state.filter_state.severity_levels = vec![Severity::Error];
    state.apply_filters();
    let report = state.filtered_results_report_at("NOW");
    assert!(report.starts_with("LogSleuth Filtered Results\nGenerated: NOW\nFilter:    Severity: Error\nEntries:   1\n"));
    assert!(report.contains("f1.log\n  raw 1\n\n"));
    assert!(!report.contains("raw 0"));
    state.toggle_bookmark(2);
    let b = state.bookmarks_report_at("T");
    assert!(b.starts_with("LogSleuth Bookmark Report\nGenerated: T\n"));
    assert!(b.contains("[no timestamp] Info     f2.log\n  raw 2\n\n"));
    state.selected_indices = vec![0];
    assert!(state.selected_entries_report().contains("raw 1"));
}

#[test]
fn clock_now_is_after_the_epoch() {
    let now = logsleuth::clock::now_nanos();
    assert!(now > 1_600_000_000i128 * 1_000_000_000);
    assert!(now <= logsleuth::clock::MAX_UTC_NANOS);
}

#[test]
fn clock_local_reading_moves_by_whole_seconds_under_a_day() {
    let secs: i64 = 1_700_000_000;
    let nanos: u32 = 123_456_789;
    let r = logsleuth::clock::local_to_utc(secs, nanos);
    let wall = (secs as i128) * 1_000_000_000 + nanos as i128;
    let diff = r - wall;
    assert_eq!(diff % 1_000_000_000, 0);
    assert!(diff.abs() < 86_400i128 * 1_000_000_000);
}

#[test]
fn watcher_uses_the_scan_rules_for_excludes() {
    let exc = compile_patterns(&strings(&["*.bak", "node_modules"]));
    assert!(!walk_skips_dir("old.bak", &exc), "the scan walks into a directory matched only by a wildcard glob");
    assert!(walk_skips_dir("node_modules", &exc));
    let inc = compile_patterns(&strings(&["*"]));
    assert!(!is_new_file("/l/x.bak", "x.bak", &Vec::new(), &inc, &exc, None, None));
    assert!(is_new_file("/l/x.log", "x.log", &Vec::new(), &inc, &exc, None, None));
}

#[test]
fn root_check_fails_only_for_missing_or_non_directory_roots() {
    assert!(check_root(RootKind::Directory, "/l").is_ok());
    assert!(check_root(RootKind::AccessDenied, "/l").is_ok());
    assert!(check_root(RootKind::TimedOut, "/l").is_ok());
    assert!(matches!(check_root(RootKind::NotFound, "/l"), Err(DiscoveryError::RootNotFound { .. })));
    assert!(matches!(check_root(RootKind::OtherError, "/l"), Err(DiscoveryError::RootNotFound { .. })));
    assert!(matches!(check_root(RootKind::File, "/l"), Err(DiscoveryError::NotADirectory { .. })));
}

#[test]
fn live_tail_watches_selected_files_with_a_profile() {
    let mut state = AppState::new(vec![plain_text()], false);
    let with = |path: &str, id: Option<&str>, size: u64| {
        let mut f = file(path, Some(1));
        f.profile_id = id.map(|s| s.to_string());
        f.size = size;
        f
    };
    let pid = plain_text().id.clone();
    state.discovered_files = vec![with("/a.log", Some(&pid), 10), with("/b.log", None, 20), with("/c.log", Some(&pid), 30), with("/d.log", Some("missing"), 40)];
    let (picks, total) = state.tail_plan();
    assert_eq!(total, 2);
    assert_eq!(picks.iter().map(|p| (p.file, p.profile, p.initial_offset)).collect::<Vec<_>>(), vec![(0, 0, 10), (2, 0, 30)]);
    state.filter_state.source_files = vec!["/c.log".to_string()];
    let (picks, total) = state.tail_plan();
    assert_eq!(total, 1);
    assert_eq!(picks[0].file, 2);
    state.filter_state.hide_all_sources = true;
    assert!(state.tail_plan().0.is_empty());
    state.on_no_tail_files();
    assert_eq!(state.status_message, "No watchable files \u{2014} tick files in the Files tab first.");
    state.on_tail_started(2, 2);
    assert!(state.tail_active);
    assert_eq!(state.status_message, "Live tail active \u{2014} watching 2 file(s).");
    state.on_tail_started(100, 150);
    assert_eq!(state.status_message, "Live tail active \u{2014} watching 100 of 150 checked files (capped at 100; uncheck some files to fit all within the cap).");
}

#[test]
fn filter_date_is_read_as_a_local_wall_clock_time() {
    let t = logsleuth::datetime::parse_filter_datetime("2025-03-14 09:30").unwrap();
    let wall = 1_741_944_600i128 * 1_000_000_000;
    assert_eq!((t - wall) % 1_000_000_000, 0);
    assert!((t - wall).abs() < 86_400i128 * 1_000_000_000);
    assert!(logsleuth::datetime::parse_filter_datetime("2025/03/14").is_none());
}

#[test]
fn added_files_skip_loaded_ones_and_remember_new_ones() {
    let mut state = AppState::new(vec![], false);
    let mut skipped = file("/s.log", Some(1));
    skipped.parsing_skipped = true;
    state.discovered_files = vec![file("/a.log", Some(1)), skipped];
    let r = state.on_add_files(strings(&["/a.log"]));
    assert!(r.is_empty());
    assert_eq!(state.status_message, "Selected file(s) already loaded.");
    let r = state.on_add_files(strings(&["/a.log", "/s.log", "/n.log"]));
    assert_eq!(r, strings(&["/s.log", "/n.log"]));
    assert_eq!(state.manually_added_files, strings(&["/n.log"]));
    assert!(state.scan_in_progress);
    assert_eq!(state.status_message, "Loading 1 file(s), adding 1 new file(s)...");
    assert_eq!(state.on_add_files(strings(&["/s.log"])), strings(&["/s.log"]));
    assert_eq!(state.status_message, "Loading entries for 1 file(s)...");
    assert_eq!(state.on_add_files(strings(&["/m.log"])), strings(&["/m.log"]));
    assert_eq!(state.status_message, "Adding 1 file(s)...");
}

#[test]
fn skipped_files_are_loaded_on_request() {
    let mut state = AppState::new(vec![], false);
    let mut s1 = file("/s1.log", Some(1));
    s1.parsing_skipped = true;
    state.discovered_files = vec![file("/a.log", Some(1)), s1];
    state.pending_parse_skipped = true;
    let r = state.on_parse_skipped_request();
    assert_eq!(r, strings(&["/s1.log"]));
    assert!(!state.pending_parse_skipped);
    assert!(state.discovered_files.iter().all(|f| !f.parsing_skipped));
    assert_eq!(state.status_message, "Parsing 1 previously skipped file(s)...");
    assert!(state.on_parse_skipped_request().is_empty());
    state.filter_state.source_files = strings(&["/a.log"]);
    assert_eq!(state.restore_parse_selection(), strings(&["/a.log"]));
    state.filter_state.hide_all_sources = true;
    assert!(state.restore_parse_selection().is_empty());
}

#[test]
fn test_root_not_found() {
    let result = check_root(RootKind::NotFound, "/nonexistent/path/logsleuth");
    assert!(matches!(result, Err(DiscoveryError::RootNotFound { ref path }) if path == "/nonexistent/path/logsleuth"));
}

#[test]
fn test_root_not_a_directory() {
    let result = check_root(RootKind::File, "/tmp/not_a_dir.log");
    assert!(matches!(result, Err(DiscoveryError::NotADirectory { .. })));
}

#[test]
fn discovery_wait_gives_up_after_a_stall() {
    let w = DiscoveryWait { found: Vec::new(), last_activity_ms: 0 };
    let (w, a) = discovery_step(w, DiscoveryEvent::Found(file("/a.log", Some(1))), false, 500);
    assert!(matches!(a, DiscoveryAction::Report { ref path, files_found: 1 } if path == "/a.log"));
    assert_eq!(w.last_activity_ms, 500);
    let (w, a) = discovery_step(w, DiscoveryEvent::Idle, false, 20_000);
    assert!(matches!(a, DiscoveryAction::Wait));
    let (w, a) = discovery_step(w, DiscoveryEvent::Idle, true, 20_100);
    assert!(matches!(a, DiscoveryAction::Cancel));
    let (_, a) = discovery_step(w, DiscoveryEvent::Idle, false, 30_500);
    match a {
        DiscoveryAction::Proceed { files, warnings, total_found } => {
            assert_eq!(files.len(), 1);
            assert_eq!(total_found, 1);
            assert_eq!(warnings, vec!["Directory listing stalled for 30s (UNC/network path not responding). Proceeding with 1 file(s) discovered so far. Results may be incomplete.".to_string()]);
        }
        _ => panic!("expected the scan to go on"),
    }
    let empty = DiscoveryWait { found: Vec::new(), last_activity_ms: 0 };
    assert!(matches!(discovery_step(empty, DiscoveryEvent::Disconnected, false, 10).1, DiscoveryAction::Fail(ref m) if m == "Discovery thread exited unexpectedly"));
}
