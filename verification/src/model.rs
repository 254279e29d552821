//! Core data model: log entries, severities, format profiles, discovered
//! files and scan summaries.
use vstd::prelude::*;
use crate::pattern::CompiledRegex;
use crate::text::{chars_of, contains_infix, is_infix, spec_str_lower, str_lower, string_views, vec_char_eq};

verus! {

// ---------------------------------------------------------------------------
// Timestamps
// ---------------------------------------------------------------------------

/// A UTC instant, as nanoseconds since 1970-01-01T00:00:00Z.
pub type UtcNanos = i128;

pub open spec fn nanos_of(secs: int, subsec_nanos: int) -> int {
    secs * 1_000_000_000 + subsec_nanos
}

/// The instant `secs` seconds plus `subsec_nanos` nanoseconds after the epoch.
pub fn timestamp_from_parts(secs: i64, subsec_nanos: u32) -> (r: UtcNanos)
    ensures
        r == nanos_of(secs as int, subsec_nanos as int),
{
    (secs as i128) * 1_000_000_000 + (subsec_nanos as i128)
}

/// Whole seconds since the epoch (rounded towards minus infinity) and the
/// nanoseconds past that second.
pub fn timestamp_parts(t: UtcNanos) -> (r: (i128, u32))
    ensures
        r.0 * 1_000_000_000 + r.1 == t,
        r.1 < 1_000_000_000,
{
    let mut s = t / 1_000_000_000;
    let mut n = t % 1_000_000_000;
    if n < 0 {
        n = n + 1_000_000_000;
        s = s - 1;
    }
    (s, n as u32)
}

// ---------------------------------------------------------------------------
// Severity
// ---------------------------------------------------------------------------

/// Normalised severity levels, from most to least severe.
#[derive(Clone, Copy, Debug, PartialEq, Eq, Structural, Hash)]
pub enum Severity {
    Critical,
    Error,
    Warning,
    Info,
    Debug,
    Unknown,
}

/// All severities in display order.
pub open spec fn all_severities() -> Seq<Severity> {
    seq![Severity::Critical, Severity::Error, Severity::Warning, Severity::Info, Severity::Debug, Severity::Unknown]
}

pub open spec fn severity_label_spec(s: Severity) -> Seq<char> {
    match s {
        Severity::Critical => "Critical"@,
        Severity::Error => "Error"@,
        Severity::Warning => "Warning"@,
        Severity::Info => "Info"@,
        Severity::Debug => "Debug"@,
        Severity::Unknown => "Unknown"@,
    }
}

pub open spec fn severity_short_label_spec(s: Severity) -> Seq<char> {
    match s {
        Severity::Critical => "CRIT"@,
        Severity::Error => "ERR"@,
        Severity::Warning => "WARN"@,
        Severity::Info => "INFO"@,
        Severity::Debug => "DBG"@,
        Severity::Unknown => "???"@,
    }
}

impl Severity {
    /// All variants in display order (most severe first).
    pub fn all() -> (r: Vec<Severity>)
        ensures
            r@ == all_severities(),
    {
        let r = vec![Severity::Critical, Severity::Error, Severity::Warning, Severity::Info, Severity::Debug, Severity::Unknown];
        assert(r@ =~= all_severities());
        r
    }

    /// Human-readable label.
    pub fn label(&self) -> (r: &'static str)
        ensures
            r@ == severity_label_spec(*self),
    {
        match self {
            Severity::Critical => "Critical",
            Severity::Error => "Error",
            Severity::Warning => "Warning",
            Severity::Info => "Info",
            Severity::Debug => "Debug",
            Severity::Unknown => "Unknown",
        }
    }

    /// Short label for compact display.
    pub fn short_label(&self) -> (r: &'static str)
        ensures
            r@ == severity_short_label_spec(*self),
    {
        match self {
            Severity::Critical => "CRIT",
            Severity::Error => "ERR",
            Severity::Warning => "WARN",
            Severity::Info => "INFO",
            Severity::Debug => "DBG",
            Severity::Unknown => "???",
        }
    }
}

impl Default for Severity {
    fn default() -> (r: Self)
        ensures
            r == Severity::Unknown,
    {
        Severity::Unknown
    }
}

// ---------------------------------------------------------------------------
// Multiline mode
// ---------------------------------------------------------------------------

/// What the parser does with lines that do not match the line pattern.
#[derive(Clone, Copy, Debug, PartialEq, Eq, Structural)]
pub enum MultilineMode {
    /// Append to the previous entry's message.
    Continuation,
    /// Drop the line.
    Skip,
    /// Make an unparsed entry of its own.
    Raw,
}

impl Default for MultilineMode {
    fn default() -> (r: Self)
        ensures
            r == MultilineMode::Continuation,
    {
        MultilineMode::Continuation
    }
}

// ---------------------------------------------------------------------------
// Log entry
// ---------------------------------------------------------------------------

/// One parsed log event, normalised across formats.
#[derive(Debug)]
pub struct LogEntry {
    /// Unique ID within the session.
    pub id: u64,
    /// Parsed timestamp (UTC nanoseconds), if any.
    pub timestamp: Option<UtcNanos>,
    /// Normalised severity.
    pub severity: Severity,
    /// Path of the source file.
    pub source_file: String,
    /// Line number where the entry begins.
    pub line_number: u64,
    /// Thread or process ID.
    pub thread: Option<String>,
    /// Component or module name.
    pub component: Option<String>,
    /// Message text, including continuation lines.
    pub message: String,
    /// Original text.
    pub raw_text: String,
    /// Profile used to parse the entry.
    pub profile_id: String,
    /// Last-modified time of the source file.
    pub file_modified: Option<UtcNanos>,
}

pub fn clone_opt_string(o: &Option<String>) -> (r: Option<String>)
    ensures
        r == *o,
{
    match o {
        Some(s) => Some(s.clone()),
        None => None,
    }
}

impl Clone for LogEntry {
    fn clone(&self) -> (r: Self)
        ensures
            r == *self,
    {
        LogEntry {
            id: self.id,
            timestamp: self.timestamp,
            severity: self.severity,
            source_file: self.source_file.clone(),
            line_number: self.line_number,
            thread: clone_opt_string(&self.thread),
            component: clone_opt_string(&self.component),
            message: self.message.clone(),
            raw_text: self.raw_text.clone(),
            profile_id: self.profile_id.clone(),
            file_modified: self.file_modified,
        }
    }
}

// ---------------------------------------------------------------------------
// Format profile
// ---------------------------------------------------------------------------

/// Level strings of a profile, per severity.
#[derive(Debug)]
pub struct SeverityMapping {
    pub critical: Vec<String>,
    pub error: Vec<String>,
    pub warning: Vec<String>,
    pub info: Vec<String>,
    pub debug: Vec<String>,
}


impl SeverityMapping {
    /// The level strings listed for `s` (none for `Unknown`).
    pub open spec fn list(&self, s: Severity) -> Seq<Seq<char>> {
        match s {
            Severity::Critical => string_views(self.critical@),
            Severity::Error => string_views(self.error@),
            Severity::Warning => string_views(self.warning@),
            Severity::Info => string_views(self.info@),
            Severity::Debug => string_views(self.debug@),
            Severity::Unknown => Seq::empty(),
        }
    }

    fn list_exec(&self, s: Severity) -> (r: Option<&Vec<String>>)
        ensures
            r matches Some(v) ==> string_views(v@) == self.list(s),
            r is None ==> s == Severity::Unknown,
    {
        match s {
            Severity::Critical => Some(&self.critical),
            Severity::Error => Some(&self.error),
            Severity::Warning => Some(&self.warning),
            Severity::Info => Some(&self.info),
            Severity::Debug => Some(&self.debug),
            Severity::Unknown => None,
        }
    }
}

/// Some listed level string equals `lower` once lowercased.
pub open spec fn some_lower_equal(list: Seq<Seq<char>>, lower: Seq<char>) -> bool {
    exists|i: int| 0 <= i < list.len() && spec_str_lower(#[trigger] list[i]) == lower
}

/// Some listed keyword, lowercased, occurs in `lower`.
pub open spec fn some_lower_infix(list: Seq<Seq<char>>, lower: Seq<char>) -> bool {
    exists|i: int| 0 <= i < list.len() && is_infix(spec_str_lower(#[trigger] list[i]), lower)
}

/// The severity that a profile assigns to a raw level string: the first
/// severity, in display order, one of whose level strings equals the level
/// string once both are lowercased; `Unknown` when none does.
pub open spec fn map_severity_spec(m: &SeverityMapping, raw: Seq<char>) -> Severity {
    let l = spec_str_lower(raw);
    if some_lower_equal(m.list(Severity::Critical), l) {
        Severity::Critical
    } else if some_lower_equal(m.list(Severity::Error), l) {
        Severity::Error
    } else if some_lower_equal(m.list(Severity::Warning), l) {
        Severity::Warning
    } else if some_lower_equal(m.list(Severity::Info), l) {
        Severity::Info
    } else if some_lower_equal(m.list(Severity::Debug), l) {
        Severity::Debug
    } else {
        Severity::Unknown
    }
}

/// The severity inferred from message keywords: the first severity, in
/// display order, one of whose level strings (lowercased) occurs in the
/// lowercased message; `Info` when none does.
pub open spec fn infer_severity_spec(m: &SeverityMapping, message: Seq<char>) -> Severity {
    let l = spec_str_lower(message);
    if some_lower_infix(m.list(Severity::Critical), l) {
        Severity::Critical
    } else if some_lower_infix(m.list(Severity::Error), l) {
        Severity::Error
    } else if some_lower_infix(m.list(Severity::Warning), l) {
        Severity::Warning
    } else if some_lower_infix(m.list(Severity::Info), l) {
        Severity::Info
    } else if some_lower_infix(m.list(Severity::Debug), l) {
        Severity::Debug
    } else {
        Severity::Info
    }
}

fn any_lower_equal(list: &Vec<String>, lower: &Vec<char>) -> (b: bool)
    ensures
        b == some_lower_equal(string_views(list@), lower@),
{
    let mut i: usize = 0;
    while i < list.len()
        invariant
            i <= list.len(),
            forall|k: int| 0 <= k < i ==> spec_str_lower(#[trigger] string_views(list@)[k]) != lower@,
        decreases list.len() - i,
    {
        let p = str_lower(list[i].as_str());
        let pv = chars_of(p.as_str());
        if vec_char_eq(&pv, lower) {
            assert(string_views(list@)[i as int] == list@[i as int]@);
            return true;
        }
        assert(string_views(list@)[i as int] == list@[i as int]@);
        i += 1;
    }
    false
}

fn any_lower_infix(list: &Vec<String>, lower: &Vec<char>) -> (b: bool)
    ensures
        b == some_lower_infix(string_views(list@), lower@),
{
    let mut i: usize = 0;
    while i < list.len()
        invariant
            i <= list.len(),
            forall|k: int| 0 <= k < i ==> !is_infix(spec_str_lower(#[trigger] string_views(list@)[k]), lower@),
        decreases list.len() - i,
    {
        let p = str_lower(list[i].as_str());
        let pv = chars_of(p.as_str());
        assert(string_views(list@)[i as int] == list@[i as int]@);
        if contains_infix(&pv, lower) {
            return true;
        }
        i += 1;
    }
    false
}

/// Runtime form of a format profile: validated fields and compiled regexes.
pub struct FormatProfile {
    /// Unique profile identifier.
    pub id: String,
    /// Human-readable name.
    pub name: String,
    /// Schema version.
    pub version: String,
    /// What the profile covers.
    pub description: String,
    /// Glob patterns of file names that hint at this format.
    pub file_patterns: Vec<String>,
    /// Regex that recognises the format in sample lines.
    pub content_match: CompiledRegex,
    /// Regex that splits one line into fields (named groups `timestamp`,
    /// `level`, `thread`, `component`, `message`).
    pub line_pattern: CompiledRegex,
    /// chrono format of the `timestamp` group.
    pub timestamp_format: String,
    /// Treatment of lines that do not match `line_pattern`.
    pub multiline_mode: MultilineMode,
    /// Level strings per severity (matched case-insensitively).
    pub severity_mapping: SeverityMapping,
    /// Built into the application (true) or defined by the user (false).
    pub is_builtin: bool,
}

impl FormatProfile {
    /// The normalised severity for a raw level string.
    pub fn map_severity(&self, raw_level: &str) -> (r: Severity)
        ensures
            r == map_severity_spec(&self.severity_mapping, raw_level@),
    {
        map_severity_in(&self.severity_mapping, raw_level)
    }

    /// The severity inferred from keywords in the message.
    pub fn infer_severity_from_message(&self, message: &str) -> (r: Severity)
        ensures
            r == infer_severity_spec(&self.severity_mapping, message@),
    {
        infer_severity_in(&self.severity_mapping, message)
    }
}

/// `map_severity` over a severity mapping.
pub fn map_severity_in(m: &SeverityMapping, raw_level: &str) -> (r: Severity)
    ensures
        r == map_severity_spec(m, raw_level@),
{
    let lower = str_lower(raw_level);
    let lv = chars_of(lower.as_str());
    if any_lower_equal(&m.critical, &lv) {
        Severity::Critical
    } else if any_lower_equal(&m.error, &lv) {
        Severity::Error
    } else if any_lower_equal(&m.warning, &lv) {
        Severity::Warning
    } else if any_lower_equal(&m.info, &lv) {
        Severity::Info
    } else if any_lower_equal(&m.debug, &lv) {
        Severity::Debug
    } else {
        Severity::Unknown
    }
}

/// `infer_severity_from_message` over a severity mapping.
pub fn infer_severity_in(m: &SeverityMapping, message: &str) -> (r: Severity)
    ensures
        r == infer_severity_spec(m, message@),
{
    let lower = str_lower(message);
    let lv = chars_of(lower.as_str());
    if any_lower_infix(&m.critical, &lv) {
        Severity::Critical
    } else if any_lower_infix(&m.error, &lv) {
        Severity::Error
    } else if any_lower_infix(&m.warning, &lv) {
        Severity::Warning
    } else if any_lower_infix(&m.info, &lv) {
        Severity::Info
    } else if any_lower_infix(&m.debug, &lv) {
        Severity::Debug
    } else {
        Severity::Info
    }
}

// ---------------------------------------------------------------------------
// Discovered files and scan summaries
// ---------------------------------------------------------------------------

/// Detection confidence as an exact fraction `numerator / denominator`.
#[derive(Clone, Copy, Debug, PartialEq, Eq, Structural)]
pub struct Confidence {
    pub numerator: u64,
    pub denominator: u64,
}

/// A file found by discovery, before parsing.
#[derive(Debug)]
pub struct DiscoveredFile {
    /// Full path.
    pub path: String,
    /// Size in bytes.
    pub size: u64,
    /// Last modification time.
    pub modified: Option<UtcNanos>,
    /// Detected profile, once known.
    pub profile_id: Option<String>,
    /// Detection confidence.
    pub detection_confidence: Confidence,
    /// Larger than the large-file threshold.
    pub is_large: bool,
    /// Entries of this file are not (or no longer) loaded.
    pub parsing_skipped: bool,
}

impl Clone for DiscoveredFile {
    fn clone(&self) -> (r: Self)
        ensures
            r == *self,
    {
        DiscoveredFile {
            path: self.path.clone(),
            size: self.size,
            modified: self.modified,
            profile_id: clone_opt_string(&self.profile_id),
            detection_confidence: self.detection_confidence,
            is_large: self.is_large,
            parsing_skipped: self.parsing_skipped,
        }
    }
}

/// Per-file scan statistics.
#[derive(Debug)]
pub struct FileSummary {
    pub path: String,
    pub profile_id: String,
    pub entry_count: usize,
    pub error_count: usize,
    pub earliest: Option<UtcNanos>,
    pub latest: Option<UtcNanos>,
}

impl Clone for FileSummary {
    fn clone(&self) -> (r: Self)
        ensures
            r == *self,
    {
        FileSummary {
            path: self.path.clone(),
            profile_id: self.profile_id.clone(),
            entry_count: self.entry_count,
            error_count: self.error_count,
            earliest: self.earliest,
            latest: self.latest,
        }
    }
}

/// Summary of a completed scan.
#[derive(Debug)]
pub struct ScanSummary {
    pub total_files_discovered: usize,
    pub files_matched: usize,
    pub files_with_errors: usize,
    pub total_entries: usize,
    pub entries_by_severity: Vec<(Severity, usize)>,
    pub total_parse_errors: usize,
    pub file_summaries: Vec<FileSummary>,
    /// Wall-clock duration in milliseconds.
    pub duration_ms: u64,
}

/// Progress messages from a scan to the interface.
#[derive(Debug)]
pub enum ScanProgress {
    DiscoveryStarted,
    FileDiscovered { path: String, files_found: usize },
    DiscoveryCompleted { total_files: usize, total_found: usize },
    ParsingStarted { total_files: usize },
    FileParsed { path: String, entries: usize, errors: usize, files_completed: usize, total_files: usize },
    ParsingCompleted { summary: ScanSummary },
    Warning { message: String },
    Failed { error: String },
    Cancelled,
    FilesDiscovered { files: Vec<DiscoveredFile> },
    AdditionalFilesDiscovered { files: Vec<DiscoveredFile> },
    EntriesBatch { entries: Vec<LogEntry> },
}

/// Progress messages from the live-tail watcher.
#[derive(Debug)]
pub enum TailProgress {
    Started { file_count: usize },
    NewEntries { entries: Vec<LogEntry> },
    FileError { path: String, message: String },
    Stopped,
}

/// Progress messages from the directory watcher.
#[derive(Debug)]
pub enum DirWatchProgress {
    WalkStarted,
    WalkComplete { new_count: usize },
    NewFiles(Vec<String>),
    FileMtimeUpdates(Vec<(String, UtcNanos)>),
}

/// How severe a level is: 0 for `Critical`, the most severe, up to 5 for
/// `Unknown` (its position in `Severity::all`).
pub open spec fn severity_rank(s: Severity) -> int {
    match s {
        Severity::Critical => 0,
        Severity::Error => 1,
        Severity::Warning => 2,
        Severity::Info => 3,
        Severity::Debug => 4,
        Severity::Unknown => 5,
    }
}

/// Inferring a severity from a message picks the most severe level that
/// has a keyword (lowercased) in the lowercased message: that level has
/// one, and no more severe level does.  With no keyword at all the message
/// counts as `Info`.
pub proof fn law_inferred_severity_is_most_severe_hit(m: &SeverityMapping, message: Seq<char>)
    ensures
        forall|s: Severity| #[trigger] some_lower_infix(m.list(s), spec_str_lower(message)) ==>
            severity_rank(infer_severity_spec(m, message)) <= severity_rank(s)
            && some_lower_infix(m.list(infer_severity_spec(m, message)), spec_str_lower(message)),
        (forall|s: Severity| !#[trigger] some_lower_infix(m.list(s), spec_str_lower(message))) ==>
            infer_severity_spec(m, message) == Severity::Info,
{
    let l = spec_str_lower(message);
    assert(m.list(Severity::Unknown) =~= Seq::<Seq<char>>::empty());
    assert(!some_lower_infix(m.list(Severity::Unknown), l));
    assert forall|s: Severity| #[trigger] some_lower_infix(m.list(s), l) implies
        severity_rank(infer_severity_spec(m, message)) <= severity_rank(s)
        && some_lower_infix(m.list(infer_severity_spec(m, message)), l) by {
        match s {
            Severity::Critical => {},
            Severity::Error => {},
            Severity::Warning => {},
            Severity::Info => {},
            Severity::Debug => {},
            Severity::Unknown => {},
        }
    }
    if forall|s: Severity| !#[trigger] some_lower_infix(m.list(s), l) {
        assert(!some_lower_infix(m.list(Severity::Critical), l));
        assert(!some_lower_infix(m.list(Severity::Error), l));
        assert(!some_lower_infix(m.list(Severity::Warning), l));
        assert(!some_lower_infix(m.list(Severity::Info), l));
        assert(!some_lower_infix(m.list(Severity::Debug), l));
    }
}

/// Mapping a level string picks the most severe level one of whose level
/// strings equals it once both are lowercased; `Unknown` when none does.
pub proof fn law_mapped_severity_is_most_severe_match(m: &SeverityMapping, raw: Seq<char>)
    ensures
        forall|s: Severity| #[trigger] some_lower_equal(m.list(s), spec_str_lower(raw)) ==>
            severity_rank(map_severity_spec(m, raw)) <= severity_rank(s)
            && some_lower_equal(m.list(map_severity_spec(m, raw)), spec_str_lower(raw)),
        (forall|s: Severity| !#[trigger] some_lower_equal(m.list(s), spec_str_lower(raw))) ==>
            map_severity_spec(m, raw) == Severity::Unknown,
{
    let l = spec_str_lower(raw);
    assert(m.list(Severity::Unknown) =~= Seq::<Seq<char>>::empty());
    assert(!some_lower_equal(m.list(Severity::Unknown), l));
    assert forall|s: Severity| #[trigger] some_lower_equal(m.list(s), l) implies
        severity_rank(map_severity_spec(m, raw)) <= severity_rank(s)
        && some_lower_equal(m.list(map_severity_spec(m, raw)), l) by {
        match s {
            Severity::Critical => {},
            Severity::Error => {},
            Severity::Warning => {},
            Severity::Info => {},
            Severity::Debug => {},
            Severity::Unknown => {},
        }
    }
    if forall|s: Severity| !#[trigger] some_lower_equal(m.list(s), l) {
        assert(!some_lower_equal(m.list(Severity::Critical), l));
        assert(!some_lower_equal(m.list(Severity::Error), l));
        assert(!some_lower_equal(m.list(Severity::Warning), l));
        assert(!some_lower_equal(m.list(Severity::Info), l));
        assert(!some_lower_equal(m.list(Severity::Debug), l));
    }
}

} // verus!
