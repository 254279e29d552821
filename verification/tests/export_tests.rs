use logsleuth::export::{csv_entry_fields, csv_header_fields, csv_preamble, export_csv_text, export_json_text, ExportMetadata};
use logsleuth::model::{LogEntry, Severity};
use serde_json::Value;

fn make_entry(id: u64, message: &str) -> LogEntry {
    LogEntry {
        id,
        timestamp: None,
        severity: Severity::Error,
        source_file: "test.log".to_string(),
        line_number: id,
        thread: Some("1".to_string()),
        component: Some("test".to_string()),
        message: message.to_string(),
        raw_text: message.to_string(),
        profile_id: "test".to_string(),
        file_modified: None,
    }
}

/// The JSON object of an entry's message, built by calls.
fn entry_json(e: &LogEntry) -> String {
    let mut m = serde_json::Map::new();
    m.insert("id".to_string(), Value::from(e.id));
    m.insert("message".to_string(), Value::String(e.message.clone()));
    serde_json::to_string_pretty(&Value::Object(m)).unwrap()
}

#[test]
fn test_csv_export() {
    let entries = vec![make_entry(1, "Error one"), make_entry(2, "Error two")];
    let meta = ExportMetadata {
        scan_path: Some("/tmp/logs".to_string()),
        filter_description: "No filter (all entries)".to_string(),
        entry_count: 2,
    };
    let (output, count) = export_csv_text(&entries, "2024-01-15T12:00:00Z", &meta).unwrap();
    assert_eq!(count, 2);
    assert!(output.contains("# LogSleuth Export"));
    assert!(output.contains("# Scan path: /tmp/logs"));
    assert!(output.contains("# Filter: No filter (all entries)"));
    assert!(output.contains("# Entries: 2"));
    assert!(output.contains("timestamp,severity"));
    assert!(output.contains("Error one"));
    assert!(output.contains("Error two"));
}

#[test]
fn test_json_export() {
    let entries = vec![make_entry(1, "Test message")];
    let meta = ExportMetadata { scan_path: None, filter_description: "Severity: Error".to_string(), entry_count: 1 };
    let json: Vec<String> = entries.iter().map(entry_json).collect();
    let (output, count) = export_json_text(&json, "2024-01-15T12:00:00Z", &meta);
    assert_eq!(count, 1);
    assert!(output.contains("\"metadata\""));
    assert!(output.contains("\"exported\""));
    assert!(output.contains("\"filter\""));
    assert!(output.contains("\"entry_count\": 1"));
    assert!(output.contains("Test message"));
}

// Further cases of the library's own.

#[test]
fn csv_preamble_lines_are_exact() {
    let meta = ExportMetadata { scan_path: None, filter_description: "f".to_string(), entry_count: 12 };
    let lines = csv_preamble("T", &meta);
    assert_eq!(
        lines,
        vec![
            "# LogSleuth Export".to_string(),
            "# Exported: T".to_string(),
            "# Scan path: (individual files)".to_string(),
            "# Filter: f".to_string(),
            "# Entries: 12".to_string(),
            String::new(),
        ]
    );
}

#[test]
fn csv_fields_follow_the_header() {
    let header = csv_header_fields();
    let fields = csv_entry_fields(&make_entry(3, "boom, \"quoted\""));
    assert_eq!(header.len(), fields.len());
    assert_eq!(header[0], "timestamp");
    assert_eq!(fields[0], "");
    assert!(fields.contains(&"boom, \"quoted\"".to_string()));
}

#[test]
fn csv_quotes_fields_with_commas() {
    let entries = vec![make_entry(1, "a, b")];
    let meta = ExportMetadata { scan_path: None, filter_description: String::new(), entry_count: 1 };
    let (output, _) = export_csv_text(&entries, "T", &meta).unwrap();
    assert!(output.contains("\"a, b\""));
}

#[test]
fn json_export_is_valid_json() {
    let entries = vec![make_entry(1, "one"), make_entry(2, "two \"q\"")];
    let meta = ExportMetadata { scan_path: Some("C:\\logs".to_string()), filter_description: "x".to_string(), entry_count: 2 };
    let json: Vec<String> = entries.iter().map(entry_json).collect();
    let (output, count) = export_json_text(&json, "T", &meta);
    assert_eq!(count, 2);
    let v: Value = serde_json::from_str(&output).unwrap();
    assert_eq!(v["metadata"]["scan_path"], Value::String("C:\\logs".to_string()));
    assert_eq!(v["entries"].as_array().unwrap().len(), 2);
    assert_eq!(v["entries"][1]["message"], Value::String("two \"q\"".to_string()));
}
