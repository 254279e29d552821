//! Line-oriented parsing of file content with a format profile.
use vstd::prelude::*;
use vstd::utf8::encode_scalar;
use crate::constants::{DEFAULT_CHUNK_SIZE, DEFAULT_MAX_ENTRY_SIZE, MAX_PARSE_ERRORS_PER_FILE};
use crate::datetime::{Sniffers, current_year, opt_nanos, parse_timestamp_in_year, parse_ts_spec, sniff_from, sniffers_build, ts_result_view};
use crate::filter::utf8_len;
use crate::model::{FormatProfile, LogEntry, MultilineMode, Severity, SeverityMapping, UtcNanos, infer_severity_in, infer_severity_spec, map_severity_in, map_severity_spec};
use crate::pattern::{CompiledRegex, opt_view, spec_regex_captures, spec_regex_group_names};
use crate::text::{chars_of, is_blank, lines_spec, push_str, split_lines, string_of, trim_spec, views_of};

verus! {

/// Limits applied while parsing.
#[derive(Debug, Clone, Copy)]
pub struct ParseConfig {
    pub chunk_size: usize,
    /// Largest message or raw text kept for one entry, in bytes.
    pub max_entry_size: usize,
    /// Parse errors recorded per file at most.
    pub max_parse_errors_per_file: usize,
}

impl Default for ParseConfig {
    fn default() -> (r: Self)
        ensures
            r.chunk_size == DEFAULT_CHUNK_SIZE,
            r.max_entry_size == DEFAULT_MAX_ENTRY_SIZE,
            r.max_parse_errors_per_file == MAX_PARSE_ERRORS_PER_FILE,
    {
        ParseConfig {
            chunk_size: DEFAULT_CHUNK_SIZE,
            max_entry_size: DEFAULT_MAX_ENTRY_SIZE,
            max_parse_errors_per_file: MAX_PARSE_ERRORS_PER_FILE,
        }
    }
}

/// A non-fatal problem met while parsing one file.
#[derive(Debug)]
pub enum ParseError {
    /// The `timestamp` field could not be parsed with the profile's format.
    TimestampParse { file: String, line_number: u64, raw_timestamp: String, format: String },
    /// A line was neither parsed nor attached to an entry.
    LineParse { file: String, line_number: u64, reason: String },
    /// The file could not be read or decoded.
    Io { file: String, message: String },
}

/// Outcome of parsing one file.
#[derive(Debug)]
pub struct ParseResult {
    pub entries: Vec<LogEntry>,
    /// Parse errors, at most `max_parse_errors_per_file` of them.
    pub errors: Vec<ParseError>,
    /// Lines read, blank ones included.
    pub lines_processed: u64,
}

// ---------------------------------------------------------------------------
// Model
// ---------------------------------------------------------------------------

/// An entry as plain values.
pub struct EntryView {
    pub id: u64,
    pub timestamp: Option<int>,
    pub severity: Severity,
    pub source_file: Seq<char>,
    pub line_number: u64,
    pub thread: Option<Seq<char>>,
    pub component: Option<Seq<char>>,
    pub message: Seq<char>,
    pub raw_text: Seq<char>,
    pub profile_id: Seq<char>,
    pub file_modified: Option<int>,
}

pub open spec fn opt_i(o: Option<UtcNanos>) -> Option<int> {
    match o {
        Some(t) => Some(t as int),
        None => None,
    }
}

pub open spec fn entry_view(e: LogEntry) -> EntryView {
    EntryView {
        id: e.id,
        timestamp: opt_i(e.timestamp),
        severity: e.severity,
        source_file: e.source_file@,
        line_number: e.line_number,
        thread: opt_view(e.thread),
        component: opt_view(e.component),
        message: e.message@,
        raw_text: e.raw_text@,
        profile_id: e.profile_id@,
        file_modified: opt_i(e.file_modified),
    }
}

pub open spec fn entry_views(v: Seq<LogEntry>) -> Seq<EntryView> {
    v.map_values(|e: LogEntry| entry_view(e))
}

/// A parse error as plain values: a timestamp error (line and raw text) or
/// an unparsed line.
pub enum ErrorView {
    Timestamp { line_number: u64, raw: Seq<char> },
    Line { line_number: u64 },
    Io,
}

/// Message of an unparsed-line error.
pub open spec fn no_match_reason() -> Seq<char> {
    "Line does not match profile pattern"@
}

pub open spec fn error_view(e: ParseError) -> ErrorView {
    match e {
        ParseError::TimestampParse { line_number, raw_timestamp, .. } => ErrorView::Timestamp { line_number, raw: raw_timestamp@ },
        ParseError::LineParse { line_number, .. } => ErrorView::Line { line_number },
        ParseError::Io { .. } => ErrorView::Io,
    }
}

/// Every error names the file, and a timestamp error the profile's format,
/// and an unparsed-line error the fixed reason.
pub open spec fn error_fields_ok(e: ParseError, file: Seq<char>, fmt: Seq<char>) -> bool {
    match e {
        ParseError::TimestampParse { file: f, format, .. } => f@ == file && format@ == fmt,
        ParseError::LineParse { file: f, reason, .. } => f@ == file && reason@ == no_match_reason(),
        ParseError::Io { .. } => false,
    }
}

/// What the parser reads from a profile.
pub struct ParseParams {
    pub names: Seq<Option<Seq<char>>>,
    pub src: Seq<char>,
    pub ci: bool,
    pub fmt: Seq<char>,
    pub mode: MultilineMode,
    pub profile_id: Seq<char>,
    pub file: Seq<char>,
    pub max_entry: usize,
    pub max_errors: usize,
    pub year: int,
}

/// Parser state: entries so far, errors so far, next entry ID.
pub struct ParseState {
    pub entries: Seq<EntryView>,
    pub errors: Seq<ErrorView>,
    pub next_id: int,
}

/// The capture of the group called `name`: the first group with that name.
pub open spec fn named(names: Seq<Option<Seq<char>>>, caps: Seq<Option<Seq<char>>>, name: Seq<char>) -> Option<Seq<char>>
    decreases names.len(),
{
    if names.len() == 0 {
        None
    } else if names[0] == Some(name) {
        if caps.len() > 0 { caps[0] } else { None }
    } else {
        named(names.drop_first(), if caps.len() > 0 { caps.drop_first() } else { caps }, name)
    }
}

/// Number of UTF-8 bytes of one character.
pub open spec fn char_width(c: char) -> int {
    encode_scalar(c as u32).len() as int
}

/// The longest prefix of `s` that fits in `budget` UTF-8 bytes.
pub open spec fn prefix_within(s: Seq<char>, budget: int) -> Seq<char>
    decreases s.len(),
{
    if s.len() == 0 || char_width(s[0]) > budget {
        Seq::empty()
    } else {
        seq![s[0]] + prefix_within(s.drop_first(), budget - char_width(s[0]))
    }
}

/// Marker appended to a truncated text.
pub open spec fn truncated_marker() -> Seq<char> {
    "... [truncated]"@
}

/// A text longer than `max` bytes cut to its longest prefix of at most
/// `max` bytes, followed by the marker.
pub open spec fn cap_text(s: Seq<char>, max: usize) -> Seq<char> {
    if utf8_len(s) > max {
        prefix_within(s, max as int) + truncated_marker()
    } else {
        s
    }
}

/// Cap the message and raw text of the last entry.
pub open spec fn cap_last(es: Seq<EntryView>, max: usize) -> Seq<EntryView> {
    if es.len() == 0 {
        es
    } else {
        let l = es.last();
        es.drop_last().push(EntryView { message: cap_text(l.message, max), raw_text: cap_text(l.raw_text, max), ..l })
    }
}

/// Append a continuation line to the last entry; a text already longer than
/// `max` bytes is left as it is.
pub open spec fn append_last(es: Seq<EntryView>, line: Seq<char>, max: usize) -> Seq<EntryView> {
    if es.len() == 0 {
        es
    } else {
        let l = es.last();
        let m = if utf8_len(l.message) <= max { l.message + seq!['\n'] + line } else { l.message };
        let r = if utf8_len(l.raw_text) <= max { l.raw_text + seq!['\n'] + line } else { l.raw_text };
        es.drop_last().push(EntryView { message: m, raw_text: r, ..l })
    }
}

/// Add an error unless the cap is reached.
pub open spec fn add_error(errs: Seq<ErrorView>, e: ErrorView, max: usize) -> Seq<ErrorView> {
    if errs.len() < max { errs.push(e) } else { errs }
}

/// What the parser does with one line (number `ln`).
pub open spec fn parse_step(p: ParseParams, m: &SeverityMapping, st: ParseState, line: Seq<char>, ln: u64) -> ParseState {
    if trim_spec(line).len() == 0 {
        st
    } else {
        match spec_regex_captures(p.src, p.ci, line) {
            Some(c) => {
                let msg = match named(p.names, c, "message"@) {
                    Some(x) => x,
                    None => line,
                };
                let sev = match named(p.names, c, "level"@) {
                    Some(l) => map_severity_spec(m, l),
                    None => infer_severity_spec(m, msg),
                };
                let (ts, errs) = match named(p.names, c, "timestamp"@) {
                    Some(raw) => match parse_ts_spec(raw, p.fmt, p.year) {
                        Ok(t) => (Some(t), st.errors),
                        Err(_) => (None, add_error(st.errors, ErrorView::Timestamp { line_number: ln, raw }, p.max_errors)),
                    },
                    None => (None, st.errors),
                };
                let e = EntryView {
                    id: st.next_id as u64,
                    timestamp: ts,
                    severity: sev,
                    source_file: p.file,
                    line_number: ln,
                    thread: named(p.names, c, "thread"@),
                    component: named(p.names, c, "component"@),
                    message: msg,
                    raw_text: line,
                    profile_id: p.profile_id,
                    file_modified: None,
                };
                ParseState { entries: cap_last(st.entries.push(e), p.max_entry), errors: errs, next_id: st.next_id + 1 }
            },
            None => {
                let (es, next) = match p.mode {
                    MultilineMode::Continuation => (append_last(st.entries, line, p.max_entry), st.next_id),
                    MultilineMode::Skip => (st.entries, st.next_id),
                    MultilineMode::Raw => (st.entries.push(EntryView {
                        id: st.next_id as u64,
                        timestamp: None,
                        severity: Severity::Unknown,
                        source_file: p.file,
                        line_number: ln,
                        thread: None,
                        component: None,
                        message: line,
                        raw_text: line,
                        profile_id: p.profile_id,
                        file_modified: None,
                    }), st.next_id + 1),
                };
                let is_error = match p.mode {
                    MultilineMode::Continuation => es.len() == 0,
                    MultilineMode::Skip => true,
                    MultilineMode::Raw => false,
                };
                let errs = if is_error { add_error(st.errors, ErrorView::Line { line_number: ln }, p.max_errors) } else { st.errors };
                ParseState { entries: cap_last(es, p.max_entry), errors: errs, next_id: next }
            },
        }
    }
}

/// The state after the first `n` lines.
pub open spec fn parse_lines(p: ParseParams, m: &SeverityMapping, lines: Seq<Seq<char>>, n: nat, id_start: u64) -> ParseState
    decreases n,
{
    if n == 0 {
        ParseState { entries: Seq::empty(), errors: Seq::empty(), next_id: id_start as int }
    } else {
        parse_step(p, m, parse_lines(p, m, lines, (n - 1) as nat, id_start), lines[n - 1], n as u64)
    }
}

/// Give every entry without a timestamp the one sniffed from its raw text.
pub open spec fn sniff_all(es: Seq<EntryView>, year: int) -> Seq<EntryView> {
    es.map_values(|e: EntryView| if e.timestamp is None {
        EntryView { timestamp: sniff_from(e.raw_text, year, 0), ..e }
    } else {
        e
    })
}

/// The parameters of a run.
pub open spec fn params_of(profile: &FormatProfile, file: Seq<char>, config: ParseConfig, year: int) -> ParseParams {
    ParseParams {
        names: spec_regex_group_names(profile.line_pattern.source_spec(), profile.line_pattern.ci_spec()),
        src: profile.line_pattern.source_spec(),
        ci: profile.line_pattern.ci_spec(),
        fmt: profile.timestamp_format@,
        mode: profile.multiline_mode,
        profile_id: profile.id@,
        file,
        max_entry: config.max_entry_size,
        max_errors: config.max_parse_errors_per_file,
        year,
    }
}

/// The entries `parse_content` produces.
pub open spec fn parsed_entries(content: Seq<char>, file: Seq<char>, profile: &FormatProfile, config: ParseConfig, id_start: u64, year: int) -> Seq<EntryView> {
    let lines = lines_spec(content);
    let st = parse_lines(params_of(profile, file, config, year), &profile.severity_mapping, lines, lines.len(), id_start);
    if sniffers_build() { sniff_all(st.entries, year) } else { st.entries }
}

/// The errors `parse_content` records.
pub open spec fn parse_errors(content: Seq<char>, file: Seq<char>, profile: &FormatProfile, config: ParseConfig, id_start: u64, year: int) -> Seq<ErrorView> {
    let lines = lines_spec(content);
    parse_lines(params_of(profile, file, config, year), &profile.severity_mapping, lines, lines.len(), id_start).errors
}

// ---------------------------------------------------------------------------
// Implementation
// ---------------------------------------------------------------------------

fn named_exec(names: &Vec<Option<String>>, caps: &Vec<Option<String>>, name: &str) -> (r: Option<String>)
    ensures
        opt_view(r) == named(names@.map_values(|o: Option<String>| opt_view(o)), caps@.map_values(|o: Option<String>| opt_view(o)), name@),
{
    let ghost nv = names@.map_values(|o: Option<String>| opt_view(o));
    let ghost cv = caps@.map_values(|o: Option<String>| opt_view(o));
    let mut i: usize = 0;
    assert(nv.skip(0) =~= nv);
    assert(caps_from(cv, 0) =~= cv);
    while i < names.len()
        invariant
            i <= names.len(),
            nv == names@.map_values(|o: Option<String>| opt_view(o)),
            cv == caps@.map_values(|o: Option<String>| opt_view(o)),
            named(nv, cv, name@) == named(nv.skip(i as int), caps_from(cv, i as int), name@),
        decreases names.len() - i,
    {
        let ghost ns = nv.skip(i as int);
        let ghost cs = caps_from(cv, i as int);
        assert(ns[0] == opt_view(names@[i as int]));
        assert(ns.drop_first() =~= nv.skip(i + 1));
        let hit = match &names[i] {
            Some(n) => crate::text::str_eq(n.as_str(), name),
            None => false,
        };
        if hit {
            assert(ns[0] == Some(name@));
            if i < caps.len() {
                assert(cs[0] == opt_view(caps@[i as int]));
                return match &caps[i] {
                    Some(c) => Some(c.clone()),
                    None => None,
                };
            }
            assert(cs.len() == 0);
            return None;
        }
        proof {
            if i < cv.len() {
                assert(cs.drop_first() =~= caps_from(cv, i + 1));
            } else {
                assert(cs =~= caps_from(cv, i + 1));
            }
        }
        i += 1;
    }
    assert(nv.skip(i as int).len() == 0);
    None
}

/// The captures from position `i` on (empty past the end).
pub open spec fn caps_from(cv: Seq<Option<Seq<char>>>, i: int) -> Seq<Option<Seq<char>>> {
    if i < cv.len() { cv.skip(i) } else { Seq::empty() }
}

/// UTF-8 width of a character.
pub(crate) fn char_width_exec(c: char) -> (r: usize)
    ensures
        r == char_width(c),
        1 <= r <= 4,
{
    let u = c as u32;
    if u <= 0x7f {
        1
    } else if u <= 0x7ff {
        2
    } else if u <= 0xffff {
        3
    } else {
        4
    }
}

/// `s` with its longest prefix of at most `budget` bytes.
pub(crate) fn prefix_within_exec(v: &Vec<char>, budget: usize) -> (r: Vec<char>)
    ensures
        r@ == prefix_within(v@, budget as int),
{
    let mut r: Vec<char> = Vec::new();
    let mut i: usize = 0;
    let mut left: usize = budget;
    assert(v@.skip(0) =~= v@);
    while i < v.len()
        invariant
            i <= v.len(),
            left <= budget,
            r@ + prefix_within(v@.skip(i as int), left as int) == prefix_within(v@, budget as int),
        decreases v.len() - i,
    {
        let w = char_width_exec(v[i]);
        let ghost s = v@.skip(i as int);
        assert(s[0] == v@[i as int]);
        assert(s.drop_first() =~= v@.skip(i + 1));
        if w > left {
            assert(prefix_within(s, left as int) == Seq::<char>::empty());
            assert(r@ + Seq::<char>::empty() =~= r@);
            return r;
        }
        let ghost before = r@;
        r.push(v[i]);
        assert(before + prefix_within(s, left as int) =~= r@ + prefix_within(v@.skip(i + 1), (left - w) as int));
        left = left - w;
        i += 1;
    }
    assert(prefix_within(v@.skip(v@.len() as int), left as int) == Seq::<char>::empty());
    assert(r@ + Seq::<char>::empty() =~= r@);
    r
}

/// Cap one text (see `cap_text`).
pub(crate) fn cap_string(s: String, max: usize) -> (r: String)
    ensures
        r@ == cap_text(s@, max),
{
    if s.as_str().len() > max {
        let v = chars_of(s.as_str());
        let p = prefix_within_exec(&v, max);
        let mut out = string_of(&p);
        push_str(&mut out, "... [truncated]");
        proof {
            reveal_strlit("... [truncated]");
        }
        out
    } else {
        s
    }
}

fn cap_last_exec(entries: &mut Vec<LogEntry>, max: usize)
    ensures
        entry_views(final(entries)@) == cap_last(entry_views(old(entries)@), max),
{
    if entries.len() == 0 {
        return;
    }
    let ghost ev = entry_views(entries@);
    let mut last = entries.pop().unwrap();
    let ghost lv = entry_view(last);
    assert(entry_views(entries@) =~= ev.drop_last());
    assert(ev.last() == lv);
    let mut msg = String::new();
    std::mem::swap(&mut msg, &mut last.message);
    last.message = cap_string(msg, max);
    let mut raw = String::new();
    std::mem::swap(&mut raw, &mut last.raw_text);
    last.raw_text = cap_string(raw, max);
    entries.push(last);
    assert(entry_views(entries@) =~= cap_last(ev, max));
}

fn append_last_exec(entries: &mut Vec<LogEntry>, line: &str, max: usize)
    ensures
        entry_views(final(entries)@) == append_last(entry_views(old(entries)@), line@, max),
{
    if entries.len() == 0 {
        return;
    }
    let ghost ev = entry_views(entries@);
    let mut last = entries.pop().unwrap();
    let ghost l = entry_view(last);
    assert(ev.last() == l);
    assert(entry_views(entries@) =~= ev.drop_last());
    if last.message.as_str().len() <= max {
        let ghost m0 = last.message@;
        last.message.push('\n');
        push_str(&mut last.message, line);
        assert(last.message@ =~= m0 + seq!['\n'] + line@);
    }
    if last.raw_text.as_str().len() <= max {
        let ghost r0 = last.raw_text@;
        last.raw_text.push('\n');
        push_str(&mut last.raw_text, line);
        assert(last.raw_text@ =~= r0 + seq!['\n'] + line@);
    }
    entries.push(last);
    assert(entry_views(entries@) =~= append_last(ev, line@, max));
}

pub open spec fn error_views(v: Seq<ParseError>) -> Seq<ErrorView> {
    v.map_values(|e: ParseError| error_view(e))
}

pub open spec fn errors_ok(v: Seq<ParseError>, file: Seq<char>, fmt: Seq<char>) -> bool {
    forall|i: int| 0 <= i < v.len() ==> error_fields_ok(#[trigger] v[i], file, fmt)
}

/// The parser state held by the vectors and the next ID.
pub open spec fn state_of(entries: Seq<LogEntry>, errors: Seq<ParseError>, next_id: u64) -> ParseState {
    ParseState { entries: entry_views(entries), errors: error_views(errors), next_id: next_id as int }
}

fn push_error(errors: &mut Vec<ParseError>, e: ParseError, max: usize)
    ensures
        error_views(final(errors)@) == add_error(error_views(old(errors)@), error_view(e), max),
        old(errors)@.len() < max ==> final(errors)@ == old(errors)@.push(e),
        old(errors)@.len() >= max ==> final(errors)@ == old(errors)@,
{
    if errors.len() < max {
        let ghost ev = error_views(errors@);
        let ghost ee = e;
        errors.push(e);
        assert(error_views(errors@) =~= ev.push(error_view(ee)));
    }
}

/// One line that the line pattern matched.
fn push_captured(
    entries: &mut Vec<LogEntry>,
    errors: &mut Vec<ParseError>,
    current_id: &mut u64,
    caps: &Vec<Option<String>>,
    line: String,
    line_number: u64,
    names: &Vec<Option<String>>,
    profile: &FormatProfile,
    file_path: &str,
    config: &ParseConfig,
    year: i32,
)
    requires
        *old(current_id) < u64::MAX,
        names@.map_values(|o: Option<String>| opt_view(o)) == params_of(profile, file_path@, *config, year as int).names,
        spec_regex_captures(profile.line_pattern.source_spec(), profile.line_pattern.ci_spec(), line@)
            == Some(caps@.map_values(|o: Option<String>| opt_view(o))),
        trim_spec(line@).len() > 0,
        errors_ok(old(errors)@, file_path@, profile.timestamp_format@),
    ensures
        state_of(final(entries)@, final(errors)@, *final(current_id)) == parse_step(params_of(profile, file_path@, *config, year as int),
            &profile.severity_mapping, state_of(old(entries)@, old(errors)@, *old(current_id)), line@, line_number),
        errors_ok(final(errors)@, file_path@, profile.timestamp_format@),
{
    proof {
        reveal_strlit("message");
        reveal_strlit("level");
        reveal_strlit("timestamp");
        reveal_strlit("thread");
        reveal_strlit("component");
    }
    let msg = match named_exec(names, caps, "message") {
        Some(x) => x,
        None => line.clone(),
    };
    let sev = match named_exec(names, caps, "level") {
        Some(l) => map_severity_in(&profile.severity_mapping, l.as_str()),
        None => infer_severity_in(&profile.severity_mapping, msg.as_str()),
    };
    let ts: Option<UtcNanos> = match named_exec(names, caps, "timestamp") {
        Some(raw) => match parse_timestamp_in_year(raw.as_str(), profile.timestamp_format.as_str(), year) {
            Ok(t) => Some(t),
            Err(_) => {
                let e = ParseError::TimestampParse {
                    file: file_path.to_owned(),
                    line_number,
                    raw_timestamp: raw,
                    format: profile.timestamp_format.clone(),
                };
                push_error(errors, e, config.max_parse_errors_per_file);
                None
            },
        },
        None => None,
    };
    let e = LogEntry {
        id: *current_id,
        timestamp: ts,
        severity: sev,
        source_file: file_path.to_owned(),
        line_number,
        thread: named_exec(names, caps, "thread"),
        component: named_exec(names, caps, "component"),
        message: msg,
        raw_text: line,
        profile_id: profile.id.clone(),
        file_modified: None,
    };
    let ghost before = entry_views(entries@);
    let ghost ev = entry_view(e);
    entries.push(e);
    assert(entry_views(entries@) =~= before.push(ev));
    *current_id = *current_id + 1;
    cap_last_exec(entries, config.max_entry_size);
}

/// One line that the line pattern did not match.
fn handle_unmatched(
    entries: &mut Vec<LogEntry>,
    errors: &mut Vec<ParseError>,
    current_id: &mut u64,
    line: String,
    line_number: u64,
    profile: &FormatProfile,
    file_path: &str,
    config: &ParseConfig,
    year: i32,
)
    requires
        *old(current_id) < u64::MAX,
        spec_regex_captures(profile.line_pattern.source_spec(), profile.line_pattern.ci_spec(), line@) is None,
        trim_spec(line@).len() > 0,
        errors_ok(old(errors)@, file_path@, profile.timestamp_format@),
    ensures
        state_of(final(entries)@, final(errors)@, *final(current_id)) == parse_step(params_of(profile, file_path@, *config, year as int),
            &profile.severity_mapping, state_of(old(entries)@, old(errors)@, *old(current_id)), line@, line_number),
        errors_ok(final(errors)@, file_path@, profile.timestamp_format@),
{
    proof {
        reveal_strlit("Line does not match profile pattern");
    }
    match profile.multiline_mode {
        MultilineMode::Continuation => {
            append_last_exec(entries, line.as_str(), config.max_entry_size);
        },
        MultilineMode::Skip => {},
        MultilineMode::Raw => {
            let e = LogEntry {
                id: *current_id,
                timestamp: None,
                severity: Severity::Unknown,
                source_file: file_path.to_owned(),
                line_number,
                thread: None,
                component: None,
                message: line.clone(),
                raw_text: line,
                profile_id: profile.id.clone(),
                file_modified: None,
            };
            let ghost before = entry_views(entries@);
            let ghost ev = entry_view(e);
            entries.push(e);
            assert(entry_views(entries@) =~= before.push(ev));
            *current_id = *current_id + 1;
        },
    }
    let is_error = match profile.multiline_mode {
        MultilineMode::Continuation => entries.len() == 0,
        MultilineMode::Skip => true,
        MultilineMode::Raw => false,
    };
    if is_error {
        let e = ParseError::LineParse {
            file: file_path.to_owned(),
            line_number,
            reason: "Line does not match profile pattern".to_owned(),
        };
        push_error(errors, e, config.max_parse_errors_per_file);
    }
    cap_last_exec(entries, config.max_entry_size);
}

/// Number of lines that are not blank (only those can make an entry).
pub open spec fn nonblank_count(ls: Seq<Seq<char>>) -> nat
    decreases ls.len(),
{
    if ls.len() == 0 {
        0
    } else {
        nonblank_count(ls.drop_last()) + if trim_spec(ls.last()).len() == 0 { 0nat } else { 1nat }
    }
}

/// There are no more non-blank lines than lines.
pub proof fn lemma_nonblank_bound(ls: Seq<Seq<char>>)
    ensures
        nonblank_count(ls) <= ls.len(),
    decreases ls.len(),
{
    if ls.len() > 0 {
        lemma_nonblank_bound(ls.drop_last());
    }
}

proof fn lemma_nonblank_prefix(ls: Seq<Seq<char>>, k: int)
    requires
        0 <= k <= ls.len(),
    ensures
        nonblank_count(ls.take(k)) <= nonblank_count(ls),
    decreases ls.len(),
{
    if k < ls.len() {
        assert(ls.drop_last().take(k) =~= ls.take(k));
        lemma_nonblank_prefix(ls.drop_last(), k);
    } else {
        assert(ls.take(k) =~= ls);
    }
}

/// Parse `content` with `profile`, numbering entries from `id_start` and
/// taking `year` as the current year.
pub fn parse_content_in_year(content: &str, file_path: &str, profile: &FormatProfile, config: &ParseConfig, id_start: u64, year: i32) -> (r: ParseResult)
    requires
        id_start + nonblank_count(lines_spec(content@)) <= u64::MAX,
    ensures
        entry_views(r.entries@) == parsed_entries(content@, file_path@, profile, *config, id_start, year as int),
        error_views(r.errors@) == parse_errors(content@, file_path@, profile, *config, id_start, year as int),
        errors_ok(r.errors@, file_path@, profile.timestamp_format@),
        r.lines_processed == lines_spec(content@).len(),
{
    let ghost p = params_of(profile, file_path@, *config, year as int);
    let ghost m = &profile.severity_mapping;
    let chars = chars_of(content);
    let lines = split_lines(&chars);
    let names = profile.line_pattern.group_names();
    let mut entries: Vec<LogEntry> = Vec::new();
    let mut errors: Vec<ParseError> = Vec::new();
    let mut current_id: u64 = id_start;
    let mut li: usize = 0;
    assert(entry_views(entries@) =~= Seq::<EntryView>::empty());
    assert(error_views(errors@) =~= Seq::<ErrorView>::empty());
    while li < lines.len()
        invariant
            li <= lines.len(),
            views_of(lines@) == lines_spec(content@),
            id_start + nonblank_count(views_of(lines@)) <= u64::MAX,
            p == params_of(profile, file_path@, *config, year as int),
            m == &profile.severity_mapping,
            names@.map_values(|o: Option<String>| opt_view(o)) == p.names,
            state_of(entries@, errors@, current_id) == parse_lines(p, m, views_of(lines@), li as nat, id_start),
            current_id <= id_start + nonblank_count(views_of(lines@).take(li as int)),
            errors_ok(errors@, file_path@, profile.timestamp_format@),
        decreases lines.len() - li,
    {
        let line_number: u64 = (li as u64) + 1;
        let line_v = &lines[li];
        assert(views_of(lines@)[li as int] == line_v@);
        proof {
            let vs = views_of(lines@);
            assert(vs.take(li + 1).drop_last() =~= vs.take(li as int));
            lemma_nonblank_prefix(vs, li + 1);
        }
        let line = string_of(line_v);
        if !is_blank(line_v) {
            match profile.line_pattern.captures(line.as_str()) {
                Some(caps) => {
                    push_captured(&mut entries, &mut errors, &mut current_id, &caps, line, line_number, &names, profile, file_path, config, year);
                },
                None => {
                    handle_unmatched(&mut entries, &mut errors, &mut current_id, line, line_number, profile, file_path, config, year);
                },
            }
        }
        li += 1;
    }
    let sniffers = Sniffers::new();
    if let Some(s) = &sniffers {
        let ghost before = entry_views(entries@);
        let mut k: usize = 0;
        let mut out: Vec<LogEntry> = Vec::new();
        while k < entries.len()
            invariant
                k <= entries.len(),
                s.wf(),
                before == entry_views(entries@),
                entry_views(out@) == sniff_all(before.take(k as int), year as int),
            decreases entries.len() - k,
        {
            let mut e = entries[k].clone();
            if e.timestamp.is_none() {
                e.timestamp = s.sniff(e.raw_text.as_str(), year);
            }
            let ghost ov = entry_views(out@);
            let ghost evw = entry_view(e);
            out.push(e);
            assert(before.take(k + 1) =~= before.take(k as int).push(before[k as int]));
            assert(entry_views(out@) =~= ov.push(evw));
            assert(entry_views(out@) =~= sniff_all(before.take(k + 1), year as int));
            k += 1;
        }
        assert(before.take(before.len() as int) =~= before);
        entries = out;
    }
    ParseResult { entries, errors, lines_processed: lines.len() as u64 }
}

/// Parse `content` with `profile`, numbering entries from `id_start`; the
/// current UTC year completes year-less timestamps.
pub fn parse_content(content: &str, file_path: &str, profile: &FormatProfile, config: &ParseConfig, id_start: u64) -> (r: ParseResult)
    requires
        id_start + nonblank_count(lines_spec(content@)) <= u64::MAX,
    ensures
        exists|y: i32| entry_views(r.entries@) == parsed_entries(content@, file_path@, profile, *config, id_start, y as int)
            && error_views(r.errors@) == parse_errors(content@, file_path@, profile, *config, id_start, y as int),
        errors_ok(r.errors@, file_path@, profile.timestamp_format@),
        r.lines_processed == lines_spec(content@).len(),
{
    let y = current_year();
    parse_content_in_year(content, file_path, profile, config, id_start, y)
}

// ---------------------------------------------------------------------------
// Numbering of parsed entries
// ---------------------------------------------------------------------------

/// The entries so far are numbered from `id_start` in order, come from the
/// run's file and profile, and stand at strictly increasing line numbers
/// within the first `n` lines; the next ID follows the last; the errors stay
/// within the cap.
pub open spec fn numbered_state(st: ParseState, p: ParseParams, id_start: u64, n: nat) -> bool {
    &&& st.next_id == id_start + st.entries.len()
    &&& forall|i: int| 0 <= i < st.entries.len() ==> {
        &&& (#[trigger] st.entries[i]).id == id_start + i
        &&& st.entries[i].source_file == p.file
        &&& st.entries[i].profile_id == p.profile_id
        &&& 1 <= st.entries[i].line_number <= n
    }
    &&& forall|i: int, j: int| 0 <= i < j < st.entries.len() ==>
        (#[trigger] st.entries[i]).line_number < (#[trigger] st.entries[j]).line_number
    &&& st.errors.len() <= p.max_errors
}

proof fn lemma_cap_last_keeps(es: Seq<EntryView>, max: usize)
    ensures
        cap_last(es, max).len() == es.len(),
        forall|i: int| 0 <= i < es.len() ==> {
            &&& (#[trigger] cap_last(es, max)[i]).id == es[i].id
            &&& cap_last(es, max)[i].source_file == es[i].source_file
            &&& cap_last(es, max)[i].profile_id == es[i].profile_id
            &&& cap_last(es, max)[i].line_number == es[i].line_number
        },
{
    if es.len() > 0 {
        let c = cap_last(es, max);
        assert forall|i: int| 0 <= i < es.len() implies (#[trigger] c[i]).id == es[i].id
            && c[i].source_file == es[i].source_file && c[i].profile_id == es[i].profile_id
            && c[i].line_number == es[i].line_number by {
            if i < es.len() - 1 {
                assert(c[i] == es.drop_last()[i]);
            }
        }
    }
}

proof fn lemma_append_last_keeps(es: Seq<EntryView>, line: Seq<char>, max: usize)
    ensures
        append_last(es, line, max).len() == es.len(),
        forall|i: int| 0 <= i < es.len() ==> {
            &&& (#[trigger] append_last(es, line, max)[i]).id == es[i].id
            &&& append_last(es, line, max)[i].source_file == es[i].source_file
            &&& append_last(es, line, max)[i].profile_id == es[i].profile_id
            &&& append_last(es, line, max)[i].line_number == es[i].line_number
        },
{
    if es.len() > 0 {
        let c = append_last(es, line, max);
        assert forall|i: int| 0 <= i < es.len() implies (#[trigger] c[i]).id == es[i].id
            && c[i].source_file == es[i].source_file && c[i].profile_id == es[i].profile_id
            && c[i].line_number == es[i].line_number by {
            if i < es.len() - 1 {
                assert(c[i] == es.drop_last()[i]);
            }
        }
    }
}

proof fn lemma_numbered_lines(p: ParseParams, m: &SeverityMapping, lines: Seq<Seq<char>>, n: nat, id_start: u64)
    requires
        n <= lines.len(),
        lines.len() <= u64::MAX,
        id_start + nonblank_count(lines.take(n as int)) <= u64::MAX,
    ensures
        numbered_state(parse_lines(p, m, lines, n, id_start), p, id_start, n),
        parse_lines(p, m, lines, n, id_start).entries.len() <= nonblank_count(lines.take(n as int)),
    decreases n,
{
    if n > 0 {
        let prev_n = (n - 1) as nat;
        assert(lines.take(n as int).drop_last() =~= lines.take(prev_n as int));
        lemma_nonblank_prefix(lines.take(n as int), prev_n as int);
        assert(lines.take(n as int).take(prev_n as int) =~= lines.take(prev_n as int));
        lemma_numbered_lines(p, m, lines, prev_n, id_start);
        let st = parse_lines(p, m, lines, prev_n, id_start);
        let line = lines[n - 1];
        assert(lines.take(n as int).last() == line);
        let ln = n as u64;
        let r = parse_step(p, m, st, line, ln);
        assert(r == parse_lines(p, m, lines, n, id_start));
        if trim_spec(line).len() != 0 {
            assert(nonblank_count(lines.take(n as int)) == nonblank_count(lines.take(prev_n as int)) + 1);
            lemma_step_numbered(p, m, st, line, ln, id_start);
        } else {
            assert(r == st);
        }
    }
}

proof fn lemma_step_numbered(p: ParseParams, m: &SeverityMapping, st: ParseState, line: Seq<char>, ln: u64, id_start: u64)
    requires
        numbered_state(st, p, id_start, (ln - 1) as nat),
        ln >= 1,
        trim_spec(line).len() != 0,
        id_start + st.entries.len() + 1 <= u64::MAX,
    ensures
        numbered_state(parse_step(p, m, st, line, ln), p, id_start, ln as nat),
        parse_step(p, m, st, line, ln).entries.len() <= st.entries.len() + 1,
{
    let r = parse_step(p, m, st, line, ln);
    match spec_regex_captures(p.src, p.ci, line) {
        Some(c) => {
            let msg = match named(p.names, c, "message"@) {
                Some(x) => x,
                None => line,
            };
            let sev = match named(p.names, c, "level"@) {
                Some(l) => map_severity_spec(m, l),
                None => infer_severity_spec(m, msg),
            };
            let (ts, errs) = match named(p.names, c, "timestamp"@) {
                Some(raw) => match parse_ts_spec(raw, p.fmt, p.year) {
                    Ok(t) => (Some(t), st.errors),
                    Err(_) => (None, add_error(st.errors, ErrorView::Timestamp { line_number: ln, raw }, p.max_errors)),
                },
                None => (None, st.errors),
            };
            let e = EntryView {
                id: st.next_id as u64,
                timestamp: ts,
                severity: sev,
                source_file: p.file,
                line_number: ln,
                thread: named(p.names, c, "thread"@),
                component: named(p.names, c, "component"@),
                message: msg,
                raw_text: line,
                profile_id: p.profile_id,
                file_modified: None,
            };
            let pushed = st.entries.push(e);
            lemma_cap_last_keeps(pushed, p.max_entry);
            assert(r.entries == cap_last(pushed, p.max_entry));
            assert forall|i: int| 0 <= i < r.entries.len() implies (#[trigger] r.entries[i]).id == id_start + i by {
                if i < st.entries.len() {
                    assert(pushed[i] == st.entries[i]);
                }
            }
            assert forall|i: int, j: int| 0 <= i < j < r.entries.len() implies
                (#[trigger] r.entries[i]).line_number < (#[trigger] r.entries[j]).line_number by {
                assert(pushed[i] == st.entries[i]);
                if j < st.entries.len() {
                    assert(pushed[j] == st.entries[j]);
                }
            }
            assert forall|i: int| 0 <= i < r.entries.len() implies
                (#[trigger] r.entries[i]).source_file == p.file && r.entries[i].profile_id == p.profile_id
                && 1 <= r.entries[i].line_number <= ln by {
                if i < st.entries.len() {
                    assert(pushed[i] == st.entries[i]);
                }
            }
        },
        None => {
            let (es, next) = match p.mode {
                MultilineMode::Continuation => (append_last(st.entries, line, p.max_entry), st.next_id),
                MultilineMode::Skip => (st.entries, st.next_id),
                MultilineMode::Raw => (st.entries.push(EntryView {
                    id: st.next_id as u64,
                    timestamp: None,
                    severity: Severity::Unknown,
                    source_file: p.file,
                    line_number: ln,
                    thread: None,
                    component: None,
                    message: line,
                    raw_text: line,
                    profile_id: p.profile_id,
                    file_modified: None,
                }), st.next_id + 1),
            };
            lemma_append_last_keeps(st.entries, line, p.max_entry);
            lemma_cap_last_keeps(es, p.max_entry);
            assert(r.entries == cap_last(es, p.max_entry));
            assert forall|i: int| 0 <= i < es.len() implies {
                &&& (#[trigger] es[i]).id == id_start + i
                &&& es[i].source_file == p.file
                &&& es[i].profile_id == p.profile_id
                &&& 1 <= es[i].line_number <= ln
            } by {
                if i < st.entries.len() {
                    assert(st.entries.push(EntryView {
                        id: st.next_id as u64, timestamp: None, severity: Severity::Unknown, source_file: p.file,
                        line_number: ln, thread: None, component: None, message: line, raw_text: line,
                        profile_id: p.profile_id, file_modified: None })[i] == st.entries[i]);
                }
            }
            assert forall|i: int, j: int| 0 <= i < j < es.len() implies
                (#[trigger] es[i]).line_number < (#[trigger] es[j]).line_number by {
                let raw = st.entries.push(EntryView {
                    id: st.next_id as u64, timestamp: None, severity: Severity::Unknown, source_file: p.file,
                    line_number: ln, thread: None, component: None, message: line, raw_text: line,
                    profile_id: p.profile_id, file_modified: None });
                assert(raw[i] == st.entries[i]);
                if j < st.entries.len() {
                    assert(raw[j] == st.entries[j]);
                }
            }
            assert forall|i: int| 0 <= i < r.entries.len() implies (#[trigger] r.entries[i]).id == id_start + i
                && r.entries[i].source_file == p.file && r.entries[i].profile_id == p.profile_id
                && 1 <= r.entries[i].line_number <= ln by {
                assert(r.entries[i].id == es[i].id);
            }
            assert forall|i: int, j: int| 0 <= i < j < r.entries.len() implies
                (#[trigger] r.entries[i]).line_number < (#[trigger] r.entries[j]).line_number by {
                assert(r.entries[i].line_number == es[i].line_number);
                assert(r.entries[j].line_number == es[j].line_number);
            }
        },
    }
}

/// What `parse_content` gives: entries numbered from `id_start` in order,
/// each from the given file and profile, at strictly increasing line
/// numbers within the lines read, no more entries than non-blank lines, and
/// no more errors than the configured cap.
pub proof fn law_parsed_entries_are_numbered(content: Seq<char>, file: Seq<char>, profile: &FormatProfile,
    config: ParseConfig, id_start: u64, year: int)
    requires
        id_start + nonblank_count(lines_spec(content)) <= u64::MAX,
        lines_spec(content).len() <= u64::MAX,
    ensures
        ({
            let es = parsed_entries(content, file, profile, config, id_start, year);
            &&& es.len() <= nonblank_count(lines_spec(content))
            &&& forall|i: int| 0 <= i < es.len() ==> {
                &&& (#[trigger] es[i]).id == id_start + i
                &&& es[i].source_file == file
                &&& es[i].profile_id == profile.id@
                &&& 1 <= es[i].line_number <= lines_spec(content).len()
            }
            &&& forall|i: int, j: int| 0 <= i < j < es.len() ==> (#[trigger] es[i]).line_number < (#[trigger] es[j]).line_number
        }),
        parse_errors(content, file, profile, config, id_start, year).len() <= config.max_parse_errors_per_file,
{
    let lines = lines_spec(content);
    let p = params_of(profile, file, config, year);
    assert(lines.take(lines.len() as int) =~= lines);
    lemma_numbered_lines(p, &profile.severity_mapping, lines, lines.len(), id_start);
    let st = parse_lines(p, &profile.severity_mapping, lines, lines.len(), id_start);
    let es = parsed_entries(content, file, profile, config, id_start, year);
    if sniffers_build() {
        assert(es == sniff_all(st.entries, year));
        assert forall|i: int| 0 <= i < es.len() implies (#[trigger] es[i]).id == st.entries[i].id
            && es[i].source_file == st.entries[i].source_file && es[i].profile_id == st.entries[i].profile_id
            && es[i].line_number == st.entries[i].line_number by {
        }
    }
}

} // verus!
