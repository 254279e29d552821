//! CSV and JSON export of log entries: the metadata header, the columns of
//! each row and the framing of the JSON document.  Field quoting is the `csv`
//! crate's and string escaping `serde_json`'s; writing the file is the
//! caller's part.
use vstd::prelude::*;
use crate::text::string_views;
use crate::model::{LogEntry, Severity, UtcNanos, timestamp_parts};
use crate::pattern::opt_view;
use crate::text::{decimal, push_decimal, push_str};

verus! {

/// What the header of an export says about it.
#[derive(Debug)]
pub struct ExportMetadata {
    /// Scanned directory; `None` for individually added files.
    pub scan_path: Option<String>,
    pub filter_description: String,
    pub entry_count: usize,
}

/// What the header shows for the scan path.
pub open spec fn scan_label(m: &ExportMetadata) -> Seq<char> {
    match m.scan_path {
        Some(p) => p@,
        None => "(individual files)"@,
    }
}

fn scan_label_exec(m: &ExportMetadata) -> (r: String)
    ensures
        r@ == scan_label(m),
{
    match &m.scan_path {
        Some(p) => p.clone(),
        None => "(individual files)".to_string(),
    }
}


/// The comment lines that open a CSV export (the last one empty).
pub open spec fn csv_preamble_spec(exported_at: Seq<char>, m: &ExportMetadata) -> Seq<Seq<char>> {
    seq![
        "# LogSleuth Export"@,
        "# Exported: "@ + exported_at,
        "# Scan path: "@ + scan_label(m),
        "# Filter: "@ + m.filter_description@,
        "# Entries: "@ + decimal(m.entry_count as nat),
        Seq::empty(),
    ]
}

/// The comment lines that open a CSV export.
pub fn csv_preamble(exported_at: &str, metadata: &ExportMetadata) -> (r: Vec<String>)
    ensures
        string_views(r@) == csv_preamble_spec(exported_at@, metadata),
{
    let mut l2 = String::new();
    push_str(&mut l2, "# Exported: ");
    push_str(&mut l2, exported_at);
    let mut l3 = String::new();
    push_str(&mut l3, "# Scan path: ");
    let scan = scan_label_exec(metadata);
    push_str(&mut l3, scan.as_str());
    let mut l4 = String::new();
    push_str(&mut l4, "# Filter: ");
    push_str(&mut l4, metadata.filter_description.as_str());
    let mut l5 = String::new();
    push_str(&mut l5, "# Entries: ");
    push_decimal(&mut l5, metadata.entry_count as u64);
    proof {
        reveal_strlit("# Exported: ");
        reveal_strlit("# Scan path: ");
        reveal_strlit("# Filter: ");
        reveal_strlit("# Entries: ");
    }
    let r = vec!["# LogSleuth Export".to_string(), l2, l3, l4, l5, String::new()];
    assert(string_views(r@) =~= csv_preamble_spec(exported_at@, metadata));
    r
}

/// Names of the CSV columns.
pub open spec fn csv_columns() -> Seq<Seq<char>> {
    seq!["timestamp"@, "severity"@, "source_file"@, "line"@, "thread"@, "component"@, "message"@]
}

/// The names of the CSV columns.
pub fn csv_header_fields() -> (r: Vec<String>)
    ensures
        string_views(r@) == csv_columns(),
{
    let r = vec!["timestamp".to_string(), "severity".to_string(), "source_file".to_string(), "line".to_string(),
        "thread".to_string(), "component".to_string(), "message".to_string()];
    assert(string_views(r@) =~= csv_columns());
    r
}

/// `chrono::DateTime::<Utc>::from_timestamp(secs, nanos)` rendered by
/// `to_rfc3339`; `None` when chrono cannot represent the instant.
pub uninterp spec fn spec_rfc3339_text(secs: int, nanos: int) -> Option<Seq<char>>;

/// Wraps `DateTime::<Utc>::from_timestamp` and `to_rfc3339`.  The text is
/// named by `spec_rfc3339_text`.
#[verifier::external_body]
fn rfc3339_text(secs: i64, nanos: u32) -> (r: Option<String>)
    ensures
        opt_view(r) == spec_rfc3339_text(secs as int, nanos as int),
{
    chrono::DateTime::<chrono::Utc>::from_timestamp(secs, nanos).map(|d| d.to_rfc3339())
}

/// The RFC 3339 text of an instant (empty when there is none, or when it is
/// beyond what chrono represents).
pub open spec fn timestamp_text(t: Option<UtcNanos>) -> Seq<char> {
    match t {
        None => Seq::empty(),
        Some(t) => {
            let n = t as int;
            let secs = n / 1_000_000_000;
            if i64::MIN <= secs <= i64::MAX {
                match spec_rfc3339_text(secs, n % 1_000_000_000) {
                    Some(s) => s,
                    None => Seq::empty(),
                }
            } else {
                Seq::empty()
            }
        },
    }
}

fn timestamp_text_exec(t: Option<UtcNanos>) -> (r: String)
    ensures
        r@ == timestamp_text(t),
{
    match t {
        None => String::new(),
        Some(n) => {
            let (s, ns) = timestamp_parts(n);
            proof {
                assert(s == n / 1_000_000_000 && ns == n % 1_000_000_000) by (nonlinear_arith)
                    requires
                        s * 1_000_000_000 + ns == n,
                        0 <= ns < 1_000_000_000;
            }
            if s < i64::MIN as i128 || s > i64::MAX as i128 {
                return String::new();
            }
            match rfc3339_text(s as i64, ns) {
                Some(text) => text,
                None => String::new(),
            }
        },
    }
}

/// The CSV columns of one entry: timestamp (RFC 3339, empty when absent),
/// severity label, source file, line number, thread, component (empty when
/// absent) and message.
pub open spec fn csv_row_spec(e: &LogEntry) -> Seq<Seq<char>> {
    seq![
        timestamp_text(e.timestamp),
        crate::model::severity_label_spec(e.severity),
        e.source_file@,
        decimal(e.line_number as nat),
        match e.thread { Some(t) => t@, None => Seq::empty() },
        match e.component { Some(c) => c@, None => Seq::empty() },
        e.message@,
    ]
}

/// The CSV columns of one entry.
pub fn csv_entry_fields(entry: &LogEntry) -> (r: Vec<String>)
    ensures
        string_views(r@) == csv_row_spec(entry),
{
    let ts = timestamp_text_exec(entry.timestamp);
    let label = entry.severity.label().to_string();
    let mut line = String::new();
    push_decimal(&mut line, entry.line_number);
    let thread = match &entry.thread { Some(t) => t.clone(), None => String::new() };
    let component = match &entry.component { Some(c) => c.clone(), None => String::new() };
    let r = vec![ts, label, entry.source_file.clone(), line, thread, component, entry.message.clone()];
    assert(string_views(r@) =~= csv_row_spec(entry));
    r
}

/// One CSV record as `csv::Writer::write_record` writes it (fields quoted as
/// needed, a newline at the end); `None` if the writer reports an error.
pub uninterp spec fn spec_csv_record(fields: Seq<Seq<char>>) -> Option<Seq<char>>;

/// Wraps `csv::Writer::write_record` on an in-memory buffer; the text is
/// named by `spec_csv_record`.
#[verifier::external_body]
fn csv_record(fields: &Vec<String>) -> (r: Option<String>)
    ensures
        opt_view(r) == spec_csv_record(string_views(fields@)),
{
    let mut w = csv::Writer::from_writer(Vec::new());
    if w.write_record(fields).is_err() {
        return None;
    }
    match w.into_inner() {
        Ok(bytes) => String::from_utf8(bytes).ok(),
        Err(_) => None,
    }
}

/// Concatenation of the texts.
pub open spec fn concat(v: Seq<Seq<char>>) -> Seq<char>
    decreases v.len(),
{
    if v.len() == 0 { Seq::empty() } else { concat(v.drop_last()) + v.last() }
}

/// The records of the header row and of each entry, if the writer accepts
/// them all.
pub open spec fn csv_records(entries: Seq<LogEntry>) -> Option<Seq<Seq<char>>>
    decreases entries.len(),
{
    if entries.len() == 0 {
        match spec_csv_record(csv_columns()) {
            Some(h) => Some(seq![h]),
            None => None,
        }
    } else {
        match (csv_records(entries.drop_last()), spec_csv_record(csv_row_spec(&entries.last()))) {
            (Some(rs), Some(r)) => Some(rs.push(r)),
            _ => None,
        }
    }
}

/// A whole CSV export: the preamble lines, each followed by a newline, then
/// the header record and one record per entry.  `None` if the CSV writer
/// refuses a record.
pub open spec fn csv_text(exported_at: Seq<char>, m: &ExportMetadata, entries: Seq<LogEntry>) -> Option<Seq<char>> {
    match csv_records(entries) {
        None => None,
        Some(rs) => Some(concat(csv_preamble_spec(exported_at, m).map_values(|l: Seq<char>| l + seq!['\n'])) + concat(rs)),
    }
}

/// Build a CSV export of the entries; gives the text and the number of
/// entries written.
pub fn export_csv_text(entries: &Vec<LogEntry>, exported_at: &str, metadata: &ExportMetadata) -> (r: Option<(String, usize)>)
    ensures
        match csv_text(exported_at@, metadata, entries@) {
            None => r is None,
            Some(t) => r matches Some((s, n)) && s@ == t && n == entries@.len(),
        },
{
    let pre = csv_preamble(exported_at, metadata);
    let ghost pv = string_views(pre@).map_values(|l: Seq<char>| l + seq!['\n']);
    let mut out = String::new();
    let mut i: usize = 0;
    while i < pre.len()
        invariant
            i <= pre.len(),
            pv == string_views(pre@).map_values(|l: Seq<char>| l + seq!['\n']),
            out@ == concat(pv.take(i as int)),
        decreases pre.len() - i,
    {
        push_str(&mut out, pre[i].as_str());
        out.push('\n');
        assert(pv.take(i + 1).drop_last() =~= pv.take(i as int));
        assert(pv[i as int] == pre@[i as int]@ + seq!['\n']);
        assert(out@ =~= concat(pv.take(i + 1)));
        i += 1;
    }
    assert(pv.take(pre@.len() as int) =~= pv);
    let ghost head = out@;
    let header = csv_header_fields();
    let h = match csv_record(&header) {
        Some(h) => h,
        None => {
            proof { lemma_records_header_none(entries@); }
            return None;
        },
    };
    push_str(&mut out, h.as_str());
    let ghost mut recs: Seq<Seq<char>> = seq![h@];
    assert(recs.drop_last() =~= Seq::<Seq<char>>::empty());
    assert(concat(Seq::<Seq<char>>::empty()) == Seq::<char>::empty());
    assert(recs.last() == h@);
    assert(concat(recs) =~= Seq::<char>::empty() + h@);
    assert(entries@.take(0) =~= Seq::<LogEntry>::empty());
    let mut k: usize = 0;
    while k < entries.len()
        invariant
            k <= entries.len(),
            csv_records(entries@.take(k as int)) == Some(recs),
            out@ == head + concat(recs),
        decreases entries.len() - k,
    {
        assert(entries@.take(k + 1).drop_last() =~= entries@.take(k as int));
        let fields = csv_entry_fields(&entries[k]);
        let rec = match csv_record(&fields) {
            Some(r) => r,
            None => {
                proof { lemma_records_none(entries@, k as int + 1); }
                return None;
            },
        };
        push_str(&mut out, rec.as_str());
        proof {
            let prev = recs;
            recs = prev.push(rec@);
            assert(recs.drop_last() =~= prev);
        }
        assert(out@ =~= head + concat(recs));
        k += 1;
    }
    assert(entries@.take(entries@.len() as int) =~= entries@);
    Some((out, entries.len()))
}

proof fn lemma_records_header_none(es: Seq<LogEntry>)
    requires
        spec_csv_record(csv_columns()) is None,
    ensures
        csv_records(es) is None,
    decreases es.len(),
{
    if es.len() > 0 {
        lemma_records_header_none(es.drop_last());
    }
}

proof fn lemma_records_none(es: Seq<LogEntry>, k: int)
    requires
        0 < k <= es.len(),
        csv_records(es.take(k)) is None,
    ensures
        csv_records(es) is None,
    decreases es.len() - k,
{
    if k < es.len() {
        assert(es.take(k + 1).drop_last() =~= es.take(k));
        lemma_records_none(es, k + 1);
    } else {
        assert(es.take(k) =~= es);
    }
}

/// `serde_json::to_string` of a string: the JSON string literal.
pub uninterp spec fn spec_json_string(s: Seq<char>) -> Seq<char>;

/// Wraps `serde_json::to_string` for a `&str`; serialising a string does
/// not fail, so an error (never seen) gives `null` as in the header written
/// by hand.  The text is named by `spec_json_string`.
#[verifier::external_body]
fn json_string(s: &str) -> (r: String)
    ensures
        r@ == spec_json_string(s@),
{
    serde_json::to_string(s).unwrap_or_else(|_| "null".to_string())
}

/// The opening of a JSON export, up to the first entry.
pub open spec fn json_preamble_spec(exported_at: Seq<char>, m: &ExportMetadata) -> Seq<char> {
    "{\n  \"metadata\": {\n    \"exported\": \""@ + exported_at + "\",\n    \"scan_path\": "@
        + spec_json_string(scan_label(m)) + ",\n    \"filter\": "@ + spec_json_string(m.filter_description@)
        + ",\n    \"entry_count\": "@ + decimal(m.entry_count as nat) + "\n  },\n  \"entries\": [\n"@
}

/// The JSON texts of the entries, separated by `,\n`.
pub open spec fn joined(v: Seq<Seq<char>>) -> Seq<char>
    decreases v.len(),
{
    if v.len() == 0 { Seq::empty() } else if v.len() == 1 { v[0] } else { joined(v.drop_last()) + ",\n"@ + v.last() }
}

/// A whole JSON export: the metadata envelope and the entries' JSON texts.
pub open spec fn json_text(exported_at: Seq<char>, m: &ExportMetadata, entry_json: Seq<Seq<char>>) -> Seq<char> {
    json_preamble_spec(exported_at, m) + joined(entry_json) + "\n  ]\n}\n"@
}

/// Frame a JSON export around the entries' JSON texts (serialised by the
/// caller); gives the text and the number of entries.
pub fn export_json_text(entry_json: &Vec<String>, exported_at: &str, metadata: &ExportMetadata) -> (r: (String, usize))
    ensures
        r.0@ == json_text(exported_at@, metadata, string_views(entry_json@)),
        r.1 == entry_json@.len(),
{
    let mut out = String::new();
    push_str(&mut out, "{\n  \"metadata\": {\n    \"exported\": \"");
    push_str(&mut out, exported_at);
    push_str(&mut out, "\",\n    \"scan_path\": ");
    let scan = scan_label_exec(metadata);
    let js = json_string(scan.as_str());
    push_str(&mut out, js.as_str());
    push_str(&mut out, ",\n    \"filter\": ");
    let jf = json_string(metadata.filter_description.as_str());
    push_str(&mut out, jf.as_str());
    push_str(&mut out, ",\n    \"entry_count\": ");
    push_decimal(&mut out, metadata.entry_count as u64);
    push_str(&mut out, "\n  },\n  \"entries\": [\n");
    proof {
        reveal_strlit("{\n  \"metadata\": {\n    \"exported\": \"");
        reveal_strlit("\",\n    \"scan_path\": ");
        reveal_strlit(",\n    \"filter\": ");
        reveal_strlit(",\n    \"entry_count\": ");
        reveal_strlit("\n  },\n  \"entries\": [\n");
    }
    assert(out@ =~= json_preamble_spec(exported_at@, metadata));
    let ghost head = out@;
    let ghost ev = string_views(entry_json@);
    let mut k: usize = 0;
    while k < entry_json.len()
        invariant
            k <= entry_json.len(),
            ev == string_views(entry_json@),
            out@ == head + joined(ev.take(k as int)),
        decreases entry_json.len() - k,
    {
        if k > 0 {
            push_str(&mut out, ",\n");
            proof { reveal_strlit(",\n"); }
        }
        push_str(&mut out, entry_json[k].as_str());
        assert(ev.take(k + 1).drop_last() =~= ev.take(k as int));
        assert(ev[k as int] == entry_json@[k as int]@);
        if k == 0 {
            assert(out@ =~= head + joined(ev.take(1)));
        } else {
            assert(out@ =~= head + joined(ev.take(k + 1)));
        }
        k += 1;
    }
    assert(ev.take(entry_json@.len() as int) =~= ev);
    push_str(&mut out, "\n  ]\n}\n");
    proof { reveal_strlit("\n  ]\n}\n"); }
    assert(out@ =~= json_text(exported_at@, metadata, ev));
    (out, entry_json.len())
}

/// The field of an entry that a CSV column of the given name holds:
/// absent thread or component as empty text.
pub open spec fn column_value(e: &LogEntry, name: Seq<char>) -> Seq<char> {
    if name == "timestamp"@ {
        timestamp_text(e.timestamp)
    } else if name == "severity"@ {
        crate::model::severity_label_spec(e.severity)
    } else if name == "source_file"@ {
        e.source_file@
    } else if name == "line"@ {
        decimal(e.line_number as nat)
    } else if name == "thread"@ {
        match e.thread { Some(t) => t@, None => Seq::empty() }
    } else if name == "component"@ {
        match e.component { Some(c) => c@, None => Seq::empty() }
    } else if name == "message"@ {
        e.message@
    } else {
        Seq::empty()
    }
}

/// Each CSV row lines up with the header: it has one field per column, and
/// field `i` is the entry's field named by header column `i` (the thread
/// under `thread`, the component under `component`, and so on).
pub proof fn law_csv_row_matches_header(e: &LogEntry)
    ensures
        csv_row_spec(e).len() == csv_columns().len(),
        forall|i: int| 0 <= i < csv_columns().len() ==>
            #[trigger] csv_row_spec(e)[i] == column_value(e, csv_columns()[i]),
{
    reveal_strlit("timestamp");
    reveal_strlit("severity");
    reveal_strlit("source_file");
    reveal_strlit("line");
    reveal_strlit("thread");
    reveal_strlit("component");
    reveal_strlit("message");
    let c = csv_columns();
    assert("timestamp"@.len() == 9 && "severity"@.len() == 8 && "source_file"@.len() == 11 && "line"@.len() == 4
        && "thread"@.len() == 6 && "component"@.len() == 9 && "message"@.len() == 7);
    assert("timestamp"@[0] == 't' && "component"@[0] == 'c' && "thread"@[0] == 't' && "severity"@[0] == 's'
        && "source_file"@[0] == 's' && "line"@[0] == 'l' && "message"@[0] == 'm');
    assert(c[0] != "severity"@ && c[0] != "source_file"@ && c[0] != "line"@);
    assert(c[1] != "timestamp"@);
    assert(c[2] != "timestamp"@ && c[2] != "severity"@);
    assert(c[3] != "timestamp"@ && c[3] != "severity"@ && c[3] != "source_file"@);
    assert(c[4] != "timestamp"@ && c[4] != "severity"@ && c[4] != "source_file"@ && c[4] != "line"@);
    assert(c[5] != "timestamp"@ && c[5] != "severity"@ && c[5] != "source_file"@ && c[5] != "line"@
        && c[5] != "thread"@);
    assert(c[6] != "timestamp"@ && c[6] != "severity"@ && c[6] != "source_file"@ && c[6] != "line"@
        && c[6] != "thread"@ && c[6] != "component"@);
}

} // verus!
