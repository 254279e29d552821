use logsleuth::multi_search::{MultiSearch, MultiSearchError, MultiSearchMode, MAX_MULTI_SEARCH_TERMS};

fn make_search(
    input: &str,
    mode: MultiSearchMode,
    case_insensitive: bool,
    whole_word: bool,
    regex_mode: bool,
    min_match: Option<usize>,
) -> MultiSearch {
    let (inc_terms, exc_terms) = MultiSearch::parse_terms(input);
    let mut ms = MultiSearch {
        mode,
        include_terms: inc_terms,
        exclude_terms: exc_terms,
        min_match,
        case_insensitive,
        whole_word,
        regex_mode,
        ..Default::default()
    };
    ms.compile();
    ms
}

#[test]
fn test_parse_terms_newline_separated() {
    let (inc, exc) = MultiSearch::parse_terms("error\nwarning\ntimeout");
    assert_eq!(inc, vec!["error", "warning", "timeout"]);
    assert!(exc.is_empty());
}

#[test]
fn test_parse_terms_comma_separated() {
    let (inc, exc) = MultiSearch::parse_terms("error, warning, timeout");
    assert_eq!(inc, vec!["error", "warning", "timeout"]);
    assert!(exc.is_empty());
}

#[test]
fn test_parse_terms_mixed_newline_and_comma() {
    let (inc, exc) = MultiSearch::parse_terms("error, warning\ntimeout");
    assert_eq!(inc, vec!["error", "warning", "timeout"]);
    assert!(exc.is_empty());
}

#[test]
fn test_parse_terms_exclude_with_dash_prefix() {
    let (inc, exc) = MultiSearch::parse_terms("error\n-heartbeat\n-noise");
    assert_eq!(inc, vec!["error"]);
    assert_eq!(exc, vec!["heartbeat", "noise"]);
}

#[test]
fn test_parse_terms_exclude_with_bang_prefix() {
    let (inc, exc) = MultiSearch::parse_terms("error\n!heartbeat");
    assert_eq!(inc, vec!["error"]);
    assert_eq!(exc, vec!["heartbeat"]);
}

#[test]
fn test_parse_terms_skips_empty_and_whitespace() {
    let (inc, exc) = MultiSearch::parse_terms("  \nerror\n\n  \nwarning\n");
    assert_eq!(inc, vec!["error", "warning"]);
    assert!(exc.is_empty());
}

#[test]
fn test_parse_terms_deduplicates() {
    let (inc, exc) = MultiSearch::parse_terms("error\nerror\nwarning\nerror");
    assert_eq!(inc, vec!["error", "warning"]);
    assert!(exc.is_empty());
}

#[test]
fn test_parse_terms_dash_only_is_skipped() {
    let (inc, exc) = MultiSearch::parse_terms("-\nerror\n!");
    assert_eq!(inc, vec!["error"]);
    assert!(exc.is_empty());
}

#[test]
fn test_any_mode_matches_single_term() {
    let ms = make_search("error", MultiSearchMode::Any, true, false, false, None);
    assert!(ms.matches_text("Connection error occurred"));
    assert!(!ms.matches_text("All systems ok"));
}

#[test]
fn test_any_mode_matches_any_of_multiple_terms() {
    let ms = make_search("error\nwarning\ntimeout", MultiSearchMode::Any, true, false, false, None);
    assert!(ms.matches_text("Connection error"));
    assert!(ms.matches_text("Warning: low memory"));
    assert!(ms.matches_text("Request timeout"));
    assert!(!ms.matches_text("All systems ok"));
}

#[test]
fn test_all_mode_requires_all_terms() {
    let ms = make_search("error\ndatabase", MultiSearchMode::All, true, false, false, None);
    assert!(ms.matches_text("database connection error"));
    assert!(!ms.matches_text("database connection ok"));
    assert!(!ms.matches_text("network error"));
}

#[test]
fn test_min_match_threshold() {
    let ms = make_search("error\ntimeout\ndatabase", MultiSearchMode::Any, true, false, false, Some(2));
    assert!(ms.matches_text("database error occurred"));
    assert!(ms.matches_text("database timeout error"));
    assert!(!ms.matches_text("database query ok"));
}

#[test]
fn test_min_match_clamped_to_term_count() {
    let ms = make_search("error\ntimeout", MultiSearchMode::Any, true, false, false, Some(10));
    assert!(ms.matches_text("error timeout"));
    assert!(!ms.matches_text("error only"));
}

#[test]
fn test_min_match_at_least_one() {
    let ms = make_search("error\ntimeout", MultiSearchMode::Any, true, false, false, Some(0));
    assert!(ms.matches_text("error only"));
    assert!(!ms.matches_text("all clear"));
}

#[test]
fn test_not_terms_exclude_matches() {
    let ms = make_search("error\n-heartbeat", MultiSearchMode::Any, true, false, false, None);
    assert!(ms.matches_text("Connection error"));
    assert!(!ms.matches_text("heartbeat error"));
    assert!(!ms.matches_text("heartbeat check ok"));
}

#[test]
fn test_exclude_only_no_include() {
    let ms = make_search("-heartbeat\n-noise", MultiSearchMode::Any, true, false, false, None);
    assert!(ms.matches_text("Connection error"));
    assert!(!ms.matches_text("heartbeat check"));
    assert!(!ms.matches_text("background noise"));
}

#[test]
fn test_case_insensitive_matching() {
    let ms = make_search("ERROR", MultiSearchMode::Any, true, false, false, None);
    assert!(ms.matches_text("connection error"));
    assert!(ms.matches_text("CONNECTION ERROR"));
    assert!(ms.matches_text("Error occurred"));
}

#[test]
fn test_case_sensitive_matching() {
    let ms = make_search("ERROR", MultiSearchMode::Any, false, false, false, None);
    assert!(ms.matches_text("CONNECTION ERROR"));
    assert!(!ms.matches_text("connection error"));
    assert!(!ms.matches_text("Error occurred"));
}

#[test]
fn test_literal_mode_escapes_regex_chars() {
    let ms = make_search("error[0]", MultiSearchMode::Any, true, false, false, None);
    assert!(ms.matches_text("found error[0] in log"));
    assert!(!ms.matches_text("found error0 in log"));
}

#[test]
fn test_regex_mode_allows_patterns() {
    let ms = make_search(r"error\[\d+\]", MultiSearchMode::Any, true, false, true, None);
    assert!(ms.matches_text("found error[42] in log"));
    assert!(ms.matches_text("error[0] occurred"));
    assert!(!ms.matches_text("error occurred"));
}

#[test]
fn test_whole_word_matching() {
    let ms = make_search("error", MultiSearchMode::Any, true, true, false, None);
    assert!(ms.matches_text("an error occurred"));
    assert!(!ms.matches_text("errorhandler started"));
    assert!(!ms.matches_text("myerror"));
}

#[test]
fn test_invalid_regex_produces_error() {
    let ms = make_search(r"error\n[invalid", MultiSearchMode::Any, true, false, true, None);
    assert!(ms.compile_err.is_some());
    assert!(ms.compiled.is_none());
    let err: &MultiSearchError = ms.compile_err.as_ref().unwrap();
    assert_eq!(err.term_index, Some(0));
    assert!(err.to_text().starts_with("Term 1: Invalid pattern '"));
}

#[test]
fn test_invalid_regex_in_literal_mode_is_escaped() {
    let ms = make_search("[invalid", MultiSearchMode::Any, true, false, false, None);
    assert!(ms.compile_err.is_none());
    assert!(ms.compiled.is_some());
    assert!(ms.matches_text("found [invalid pattern"));
}

#[test]
fn test_empty_input_produces_inactive_search() {
    let ms = make_search("", MultiSearchMode::Any, true, false, false, None);
    assert!(ms.is_empty());
    assert!(!ms.is_active());
    assert!(ms.matches_text("anything"));
}

#[test]
fn test_whitespace_only_lines_produce_inactive_search() {
    let ms = make_search("  \n  \n  ", MultiSearchMode::Any, true, false, false, None);
    assert!(ms.is_empty());
}

#[test]
fn test_matches_entry_searches_all_fields() {
    let ms = make_search("worker-5", MultiSearchMode::Any, true, false, false, None);
    assert!(ms.matches_entry("connection ok", Some("worker-5"), None));
    assert!(ms.matches_entry("connection ok", None, Some("worker-5")));
    assert!(!ms.matches_entry("connection ok", Some("main"), Some("auth")));
}

#[test]
fn test_highlight_matches_returns_byte_ranges() {
    let ms = make_search("error", MultiSearchMode::Any, true, false, false, None);
    let text = "an error occurred, another error";
    let ranges = ms.highlight_matches(text);
    assert_eq!(ranges.len(), 2);
    assert_eq!(&text[ranges[0].0..ranges[0].1], "error");
    assert_eq!(&text[ranges[1].0..ranges[1].1], "error");
}

#[test]
fn test_highlight_merges_overlapping_ranges() {
    let ms = make_search("database error\nerror", MultiSearchMode::Any, true, false, false, None);
    let ranges = ms.highlight_matches("database error occurred");
    assert_eq!(ranges.len(), 1);
    assert_eq!(ranges[0].0, 0);
    assert_eq!(ranges[0].1, 14);
}

#[test]
fn test_highlight_no_matches_returns_empty() {
    let ms = make_search("error", MultiSearchMode::Any, true, false, false, None);
    assert!(ms.highlight_matches("all systems ok").is_empty());
}

#[test]
fn test_too_many_terms_produces_error() {
    let terms: Vec<String> = (0..MAX_MULTI_SEARCH_TERMS + 1).map(|i| format!("term{i}")).collect();
    let input = terms.join("\n");
    let (inc_terms, exc_terms) = MultiSearch::parse_terms(&input);
    let mut ms = MultiSearch { include_terms: inc_terms, exclude_terms: exc_terms, ..Default::default() };
    ms.compile();
    assert!(ms.compile_err.is_some());
    assert!(ms.compiled.is_none());
    assert_eq!(ms.compile_err.as_ref().unwrap().term_index, None);
}

#[test]
fn multi_search_mode_labels() {
    assert_eq!(MultiSearchMode::all().len(), 2);
    assert_eq!(MultiSearchMode::Any.label(), "ANY (OR)");
    assert_eq!(MultiSearchMode::All.label(), "ALL (AND)");
}

#[test]
fn invalid_exclude_term_is_named_as_exclude() {
    let ms = make_search("error\n-[bad", MultiSearchMode::Any, true, false, true, None);
    let err: &MultiSearchError = ms.compile_err.as_ref().unwrap();
    assert_eq!(err.term_index, Some(1));
    assert!(err.to_text().starts_with("Term 2: Invalid exclude pattern '[bad'"), "{}", err.to_text());
    assert!(ms.compiled.is_none());
}
