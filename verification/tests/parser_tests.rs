use chrono::{DateTime, Datelike, Utc};
use logsleuth::datetime::{parse_timestamp, sniff_timestamp};
use logsleuth::model::{FormatProfile, MultilineMode, Severity};
use logsleuth::parser::{parse_content, ParseConfig, ParseError};
use logsleuth::profile::{
    validate_and_compile, DetectionDef, ParsingDef, ProfileDefinition, ProfileMeta,
    SeverityMappingDef,
};

fn strings(v: &[&str]) -> Vec<String> {
    v.iter().map(|s| s.to_string()).collect()
}

fn definition(
    id: &str,
    content_match: &str,
    line_pattern: &str,
    mode: MultilineMode,
    mapping: SeverityMappingDef,
) -> ProfileDefinition {
    ProfileDefinition {
        profile: ProfileMeta {
            id: id.to_string(),
            name: "Test".to_string(),
            version: "1.0".to_string(),
            description: String::new(),
        },
        detection: DetectionDef { file_patterns: Vec::new(), content_match: content_match.to_string() },
        parsing: ParsingDef {
            line_pattern: line_pattern.to_string(),
            timestamp_format: "%Y-%m-%d %H:%M:%S".to_string(),
            multiline_mode: mode,
        },
        severity_mapping: mapping,
    }
}

fn make_test_profile() -> FormatProfile {
    let mapping = SeverityMappingDef {
        critical: Vec::new(),
        error: strings(&["Error"]),
        warning: strings(&["Warning"]),
        info: strings(&["Info"]),
        debug: Vec::new(),
    };
    let def = definition(
        "test",
        r"^\[",
        r"^\[(?P<timestamp>[^\]]+)\]\s(?P<level>\w+)\s+(?P<message>.+)$",
        MultilineMode::Continuation,
        mapping,
    );
    compiled(def)
}

fn compiled(def: ProfileDefinition) -> FormatProfile {
    match validate_and_compile(def, "test.toml", false) {
        Ok(p) => p,
        Err(e) => panic!("the test profile should compile: {e:?}"),
    }
}

fn utc(t: i128) -> DateTime<Utc> {
    DateTime::from_timestamp_nanos(t as i64)
}

fn fmt(t: i128) -> String {
    utc(t).format("%Y-%m-%d %H:%M:%S").to_string()
}

fn sniff(s: &str) -> String {
    fmt(sniff_timestamp(s).expect("a timestamp should be found"))
}

#[test]
fn test_parse_basic_lines() {
    let profile = make_test_profile();
    let content = "[2024-01-15 14:30:22] Error Something failed\n[2024-01-15 14:30:23] Info Normal operation\n";
    let result = parse_content(content, "test.log", &profile, &ParseConfig::default(), 0);
    assert_eq!(result.entries.len(), 2);
    assert_eq!(result.entries[0].severity, Severity::Error);
    assert_eq!(result.entries[0].message, "Something failed");
    assert_eq!(result.entries[1].severity, Severity::Info);
}

#[test]
fn test_parse_multiline_continuation() {
    let profile = make_test_profile();
    let content = "[2024-01-15 14:30:22] Error Connection failed\n\
                   at com.example.Client.connect(Client.java:42)\n\
                   at com.example.Main.run(Main.java:10)\n\
                   [2024-01-15 14:30:23] Info Retry succeeded\n";
    let result = parse_content(content, "test.log", &profile, &ParseConfig::default(), 0);
    assert_eq!(result.entries.len(), 2);
    assert!(result.entries[0].message.contains("Client.java:42"));
    assert!(result.entries[0].message.contains("Main.java:10"));
}

#[test]
fn test_parse_empty_content() {
    let profile = make_test_profile();
    let result = parse_content("", "empty.log", &profile, &ParseConfig::default(), 0);
    assert_eq!(result.entries.len(), 0);
    assert_eq!(result.errors.len(), 0);
}

#[test]
fn test_parse_entry_truncation() {
    let profile = make_test_profile();
    let long_msg = "x".repeat(100_000);
    let content = format!("[2024-01-15 14:30:22] Error {long_msg}");
    let config = ParseConfig { max_entry_size: 1000, ..ParseConfig::default() };
    let result = parse_content(&content, "big.log", &profile, &config, 0);
    assert_eq!(result.entries.len(), 1);
    assert!(result.entries[0].message.len() < 1100);
    assert!(result.entries[0].message.ends_with("... [truncated]"));
}

#[test]
fn test_parse_timestamp_naive_datetime() {
    let ts = parse_timestamp("2024-01-15 14:30:22", "%Y-%m-%d %H:%M:%S").unwrap();
    assert_eq!(fmt(ts), "2024-01-15 14:30:22");
}

#[test]
fn test_parse_timestamp_with_milliseconds() {
    let ts = parse_timestamp("2024-01-15 14:30:22.123", "%Y-%m-%d %H:%M:%S%.f").unwrap();
    assert_eq!(fmt(ts), "2024-01-15 14:30:22");
}

#[test]
fn test_parse_timestamp_rfc3339() {
    let ts = parse_timestamp("2024-01-15T14:30:22+00:00", "%Y-%m-%dT%H:%M:%S%z").unwrap();
    assert_eq!(fmt(ts), "2024-01-15 14:30:22");
}

#[test]
fn test_parse_timestamp_invalid_returns_error() {
    let result = parse_timestamp("not-a-date", "%Y-%m-%d %H:%M:%S");
    assert!(result.is_err(), "invalid timestamp should return Err");
}

#[test]
fn test_parse_timestamp_slash_separated_date() {
    let ts = parse_timestamp("2024/01/15 14:30:22", "%Y-%m-%d %H:%M:%S").unwrap();
    assert_eq!(fmt(ts), "2024-01-15 14:30:22");
}

#[test]
fn test_parse_timestamp_t_separator() {
    let ts = parse_timestamp("2024-01-15T14:30:22", "%Y-%m-%d %H:%M:%S").unwrap();
    assert_eq!(fmt(ts), "2024-01-15 14:30:22");
}

#[test]
fn test_parse_timestamp_syslog_yearless() {
    let ts = parse_timestamp("Jan 15 14:30:22", "%b %d %H:%M:%S").expect("year-less timestamp should get the current year");
    let year = utc(ts).year();
    assert!(year >= 2024, "injected year {year} should be recent (>= 2024)");
    assert_eq!(utc(ts).format("%m-%d %H:%M:%S").to_string(), "01-15 14:30:22");
}

#[test]
fn test_sniff_rfc3339_z() {
    assert_eq!(sniff("event 2024-01-15T14:30:22Z done"), "2024-01-15 14:30:22");
}

#[test]
fn test_sniff_rfc3339_offset() {
    assert_eq!(sniff("2024-01-15T14:30:22+05:30 something"), "2024-01-15 09:00:22");
}

#[test]
fn test_sniff_log4j_comma_millis() {
    assert_eq!(sniff("2024-01-15 14:30:22,999 ERROR Something"), "2024-01-15 14:30:22");
}

#[test]
fn test_sniff_iso_dot_millis() {
    assert_eq!(sniff("[2024-01-15 14:30:22.123] INFO msg"), "2024-01-15 14:30:22");
}

#[test]
fn test_sniff_iso_t_no_millis() {
    assert_eq!(sniff("ts=2024-01-15T14:30:22 level=info"), "2024-01-15 14:30:22");
}

#[test]
fn test_sniff_slash_year_first() {
    assert_eq!(sniff("2024/01/15 14:30:22 - Started"), "2024-01-15 14:30:22");
}

#[test]
fn test_sniff_dot_day_first() {
    assert_eq!(sniff("[26.02.2026 22:07:56.535] < 10580> nfstcps | ERR |msg"), "2026-02-26 22:07:56");
}

#[test]
fn test_sniff_apache_combined() {
    assert_eq!(sniff("127.0.0.1 - - [15/Jan/2024:14:30:22 +0000] \"GET /\""), "2024-01-15 14:30:22");
}

#[test]
fn test_sniff_us_slash_unambiguous() {
    assert_eq!(sniff("01/15/2024 14:30:22 Connection"), "2024-01-15 14:30:22");
}

#[test]
fn test_sniff_gb_slash_unambiguous() {
    assert_eq!(sniff("15/01/2024 14:30:22 Connection"), "2024-01-15 14:30:22");
}

#[test]
fn test_sniff_slash_ambiguous_defaults_to_us() {
    assert_eq!(sniff("01/02/2024 14:30:22 msg"), "2024-01-02 14:30:22");
}

#[test]
fn test_sniff_dhcp_comma_us() {
    assert_eq!(sniff("20,01/15/24,14:30:22,ASSIGN"), "2024-01-15 14:30:22");
}

#[test]
fn test_sniff_dhcp_comma_gb() {
    assert_eq!(sniff("20,15/01/24,14:30:22,ASSIGN"), "2024-01-15 14:30:22");
}

#[test]
fn test_sniff_month_name_year() {
    assert_eq!(sniff("Started Jan 15 2024 14:30:22 service"), "2024-01-15 14:30:22");
}

#[test]
fn test_sniff_month_name_comma() {
    assert_eq!(sniff("Jan 15, 2024 14:30:22 - msg"), "2024-01-15 14:30:22");
}

#[test]
fn test_sniff_bsd_syslog_yearless() {
    let ts = sniff_timestamp("Jan 15 14:30:22 hostname sshd[1]: msg").expect("BSD syslog should sniff");
    let year = utc(ts).year();
    assert!(year >= 2024, "injected year {year} should be recent");
    assert_eq!(utc(ts).format("%m-%d %H:%M:%S").to_string(), "01-15 14:30:22");
}

#[test]
fn test_sniff_compact_iso() {
    assert_eq!(sniff("20240115T143022 event"), "2024-01-15 14:30:22");
}

#[test]
fn test_sniff_unix_epoch() {
    assert_eq!(sniff("1705329022 some event happened"), "2024-01-15 14:30:22");
}

#[test]
fn test_sniff_no_timestamp_returns_none() {
    assert!(sniff_timestamp("hello world, no date here").is_none());
    assert!(sniff_timestamp("").is_none());
}

#[test]
fn test_plain_text_entries_get_sniffed_timestamps() {
    let def = definition("plain-text", r"\S", "^(?P<message>.+)$", MultilineMode::Raw, SeverityMappingDef::default());
    let profile = compiled(def);
    let content = "2024-01-15 14:30:21 service started\n\
                   2024-01-15 14:30:22 connection accepted\n\
                   2024-01-15 14:30:23 job completed\n";
    let result = parse_content(content, "app.log", &profile, &ParseConfig::default(), 0);
    assert_eq!(result.entries.len(), 3, "should have 3 entries");
    for entry in &result.entries {
        assert!(entry.timestamp.is_some(), "plain-text entry should have a sniffed timestamp: {:?}", entry.raw_text);
    }
    assert!(result.entries[0].timestamp < result.entries[2].timestamp);
}

#[test]
fn test_parse_timestamp_errors_recorded_in_result() {
    let profile = make_test_profile();
    let content = "[BADTS] Error Bad timestamp line\n[2024-01-15 14:30:22] Info Good timestamp\n";
    let result = parse_content(content, "test.log", &profile, &ParseConfig::default(), 0);
    assert_eq!(result.entries.len(), 2, "both lines should produce entries");
    assert!(result.entries[0].timestamp.is_none());
    assert!(result.entries[1].timestamp.is_some());
    assert_eq!(result.errors.len(), 1, "should record exactly one timestamp error");
    assert!(matches!(result.errors[0], ParseError::TimestampParse { .. }));
}

#[test]
fn test_continuation_mode_with_no_matching_lines_yields_zero_entries() {
    let profile = make_test_profile();
    let content = "=== Job Log Started ===\nSome header line without bracket prefix\nAnother non-matching line\n";
    let result = parse_content(content, "vbr.log", &profile, &ParseConfig::default(), 0);
    assert!(result.entries.is_empty());
    assert!(!content.trim().is_empty());
}

// Further cases of the library's own.

#[test]
fn parse_assigns_ids_from_start_and_line_numbers() {
    let profile = make_test_profile();
    let content = "[2024-01-15 14:30:22] Error A\n\n[2024-01-15 14:30:23] Info B\n";
    let result = parse_content(content, "f.log", &profile, &ParseConfig::default(), 40);
    assert_eq!(result.entries.len(), 2);
    assert_eq!(result.entries[0].id, 40);
    assert_eq!(result.entries[1].id, 41);
    assert_eq!(result.entries[0].line_number, 1);
    assert_eq!(result.entries[1].line_number, 3);
    assert_eq!(result.lines_processed, 3);
    assert_eq!(result.entries[0].source_file, "f.log");
    assert_eq!(result.entries[0].profile_id, "test");
    assert_eq!(fmt(result.entries[0].timestamp.unwrap()), "2024-01-15 14:30:22");
}

#[test]
fn skip_mode_drops_unmatched_lines() {
    let def = definition(
        "skip",
        r"^\[",
        r"^\[(?P<timestamp>[^\]]+)\]\s(?P<level>\w+)\s+(?P<message>.+)$",
        MultilineMode::Skip,
        SeverityMappingDef::default(),
    );
    let profile = compiled(def);
    let content = "[2024-01-15 14:30:22] Error A\nstray line\n";
    let result = parse_content(content, "f.log", &profile, &ParseConfig::default(), 0);
    assert_eq!(result.entries.len(), 1);
    assert_eq!(result.entries[0].message, "A");
}

#[test]
fn sniff_compact_offset_is_applied() {
    assert_eq!(sniff("2024-01-15T14:30:22+0530 x"), "2024-01-15 09:00:22");
    assert_eq!(sniff("2024-01-15T14:30:22-0100 x"), "2024-01-15 15:30:22");
}

#[test]
fn parsed_entries_are_numbered_in_order() {
    let profile = make_test_profile();
    let content = "[2024-01-15 14:30:22] Error first\n\n   \n[2024-01-15 14:30:23] Info second\n";
    let r = parse_content(content, "/l/app.log", &profile, &ParseConfig::default(), u64::MAX - 2);
    assert_eq!(r.entries.iter().map(|e| e.id).collect::<Vec<_>>(), vec![u64::MAX - 2, u64::MAX - 1]);
    assert_eq!(r.entries.iter().map(|e| e.line_number).collect::<Vec<_>>(), vec![1, 4]);
    assert!(r.entries.iter().all(|e| e.source_file == "/l/app.log" && e.profile_id == "test"));
    assert_eq!(r.lines_processed, 4);
}
