use logsleuth::constants::MAX_REGEX_PATTERN_LENGTH;
use logsleuth::model::{FormatProfile, MultilineMode, Severity};
use logsleuth::profile::{
    auto_detect, validate_and_compile, DetectionDef, ParsingDef, ProfileDefinition, ProfileError,
    ProfileMeta, SeverityMappingDef,
};

fn strings(v: &[&str]) -> Vec<String> {
    v.iter().map(|s| s.to_string()).collect()
}

/// The definition written in the valid test profile.
fn valid_definition() -> ProfileDefinition {
    ProfileDefinition {
        profile: ProfileMeta {
            id: "test-profile".to_string(),
            name: "Test Profile".to_string(),
            version: "1.0".to_string(),
            description: "A test profile".to_string(),
        },
        detection: DetectionDef {
            file_patterns: strings(&["test*.log"]),
            content_match: r"^\[\d{4}-\d{2}-\d{2}".to_string(),
        },
        parsing: ParsingDef {
            line_pattern: r"^(?P<timestamp>\d{4}-\d{2}-\d{2}\s\d{2}:\d{2}:\d{2})\s(?P<level>\w+)\s+(?P<message>.+)$".to_string(),
            timestamp_format: "%Y-%m-%d %H:%M:%S".to_string(),
            multiline_mode: MultilineMode::Continuation,
        },
        severity_mapping: SeverityMappingDef {
            critical: Vec::new(),
            error: strings(&["Error", "ERR"]),
            warning: strings(&["Warning", "WARN"]),
            info: strings(&["Info", "INFO"]),
            debug: Vec::new(),
        },
    }
}

/// A definition with only the fields the short test profiles write.
fn minimal_definition(id: &str, content_match: &str) -> ProfileDefinition {
    ProfileDefinition {
        profile: ProfileMeta {
            id: id.to_string(),
            name: "Minimal".to_string(),
            version: "1.0".to_string(),
            description: String::new(),
        },
        detection: DetectionDef { file_patterns: Vec::new(), content_match: content_match.to_string() },
        parsing: ParsingDef {
            line_pattern: "(?P<message>.+)".to_string(),
            timestamp_format: "%Y".to_string(),
            multiline_mode: MultilineMode::Continuation,
        },
        severity_mapping: SeverityMappingDef::default(),
    }
}

fn valid_profile() -> FormatProfile {
    match validate_and_compile(valid_definition(), "test.toml", false) {
        Ok(p) => p,
        Err(e) => panic!("the valid profile should compile: {e:?}"),
    }
}

fn error_of(r: Result<FormatProfile, ProfileError>) -> ProfileError {
    match r {
        Ok(p) => panic!("expected an error, got profile {}", p.id),
        Err(e) => e,
    }
}

#[test]
fn test_compile_valid_profile() {
    let profile = valid_profile();
    assert_eq!(profile.id, "test-profile");
    assert!(!profile.is_builtin);
    assert_eq!(profile.multiline_mode, MultilineMode::Continuation);
}

#[test]
fn test_severity_mapping() {
    let profile = valid_profile();
    assert_eq!(profile.map_severity("Error"), Severity::Error);
    assert_eq!(profile.map_severity("ERR"), Severity::Error);
    assert_eq!(profile.map_severity("error"), Severity::Error);
    assert_eq!(profile.map_severity("Warning"), Severity::Warning);
    assert_eq!(profile.map_severity("UNKNOWN_LEVEL"), Severity::Unknown);
}

#[test]
fn test_missing_required_field() {
    let mut def = minimal_definition("", "test");
    def.profile.name = "Empty ID".to_string();
    let result = validate_and_compile(def, "bad.toml", false);
    assert!(result.is_err());
    match error_of(result) {
        ProfileError::MissingField { field, .. } => assert_eq!(field, "profile.id"),
        other => panic!("Expected MissingField, got: {other:?}"),
    }
}

#[test]
fn profile_test_invalid_regex() {
    let def = minimal_definition("bad-regex", "[invalid");
    let result = validate_and_compile(def, "bad.toml", false);
    assert!(result.is_err());
    assert!(matches!(error_of(result), ProfileError::InvalidRegex { .. }));
}

#[test]
fn test_regex_too_long() {
    let long_pattern = "a".repeat(MAX_REGEX_PATTERN_LENGTH + 1);
    let def = minimal_definition("long-regex", &long_pattern);
    let result = validate_and_compile(def, "long.toml", false);
    assert!(result.is_err());
    assert!(matches!(error_of(result), ProfileError::RegexTooLong { .. }));
}

#[test]
fn test_auto_detect_matches_best_profile() {
    let profile = valid_profile();
    let sample_lines = strings(&[
        "[2024-01-15 14:30:22 Error Something failed",
        "[2024-01-15 14:30:23 Info Normal operation",
        "Some unrelated line",
    ]);
    let result = auto_detect("test.log", &sample_lines, &vec![profile]);
    assert!(result.is_some());
    let det = result.unwrap();
    assert_eq!(det.profile_id, "test-profile");
    // 2/3 lines match + 0.2 filename bonus, above one half.
    assert!(det.confidence.numerator * 2 > det.confidence.denominator);
}

#[test]
fn test_auto_detect_no_match() {
    let profile = valid_profile();
    let sample_lines = strings(&["no match here", "also no match", "nothing at all"]);
    let result = auto_detect("random.dat", &sample_lines, &vec![profile]);
    assert!(result.is_none());
}

#[test]
fn test_infer_severity_from_message() {
    let profile = valid_profile();
    assert_eq!(profile.infer_severity_from_message("An Error occurred in module X"), Severity::Error);
    assert_eq!(profile.infer_severity_from_message("Warning: disk space low"), Severity::Warning);
    assert_eq!(profile.infer_severity_from_message("Everything is fine"), Severity::Info);
}

// Further cases of the library's own.

#[test]
fn builtin_flag_and_fields_are_kept() {
    let profile = match validate_and_compile(valid_definition(), "builtin.toml", true) {
        Ok(p) => p,
        Err(e) => panic!("{e:?}"),
    };
    assert!(profile.is_builtin);
    assert_eq!(profile.name, "Test Profile");
    assert_eq!(profile.timestamp_format, "%Y-%m-%d %H:%M:%S");
    assert_eq!(profile.file_patterns, strings(&["test*.log"]));
}

#[test]
fn missing_line_pattern_is_reported() {
    let mut def = minimal_definition("no-line", "x");
    def.parsing.line_pattern = String::new();
    match error_of(validate_and_compile(def, "x.toml", false)) {
        ProfileError::MissingField { field, profile_id } => {
            assert_eq!(field, "parsing.line_pattern");
            assert_eq!(profile_id, "no-line");
        },
        other => panic!("Expected MissingField, got: {other:?}"),
    }
}

#[test]
fn auto_detect_without_profiles_finds_nothing() {
    let lines = strings(&["[2024-01-15 14:30:22 Error"]);
    assert!(auto_detect("test.log", &lines, &Vec::new()).is_none());
}
