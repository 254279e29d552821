//! Composable filter engine for log entries.  All active filters are
//! AND-combined.
use vstd::prelude::*;
use vstd::utf8::{encode_utf8, is_ascii_chars};
use crate::model::{LogEntry, Severity, UtcNanos};
use crate::multi_search::{MultiSearch, combined_fields, opt_str_view, pat_matches, text_passes};
use crate::text::string_views;
use crate::pattern::{CompiledRegex, spec_regex_build, spec_regex_replace_all};
use crate::text::{ascii_lower, char_lower, chars_of, contains_infix, is_infix, spec_char_lower, spec_str_lower, str_lower, string_of};

verus! {

// ---------------------------------------------------------------------------
// Deduplication mode
// ---------------------------------------------------------------------------

/// How the post-filter deduplication pass compares messages.
#[derive(Clone, Copy, Debug, PartialEq, Eq, Structural)]
pub enum DedupMode {
    /// No deduplication.
    Off,
    /// Messages equal character for character.
    Exact,
    /// Messages equal once variable data (GUIDs, IPs, hex, numbers) is
    /// replaced by tokens.
    Normalized,
}

impl DedupMode {
    /// Label for display.
    pub fn label(self) -> (r: &'static str)
        ensures
            r@ == (match self {
                DedupMode::Off => "Off"@,
                DedupMode::Exact => "Exact match"@,
                DedupMode::Normalized => "Normalized"@,
            }),
    {
        match self {
            DedupMode::Off => "Off",
            DedupMode::Exact => "Exact match",
            DedupMode::Normalized => "Normalized",
        }
    }

    /// All variants in display order.
    pub fn all() -> (r: Vec<DedupMode>)
        ensures
            r@ == seq![DedupMode::Off, DedupMode::Exact, DedupMode::Normalized],
    {
        let r = vec![DedupMode::Off, DedupMode::Exact, DedupMode::Normalized];
        assert(r@ =~= seq![DedupMode::Off, DedupMode::Exact, DedupMode::Normalized]);
        r
    }
}

impl Default for DedupMode {
    fn default() -> (r: Self)
        ensures
            r == DedupMode::Off,
    {
        DedupMode::Off
    }
}

// ---------------------------------------------------------------------------
// Message normalisation
// ---------------------------------------------------------------------------

/// GUIDs (8-4-4-4-12 hex digits).
pub open spec fn guid_src() -> Seq<char> {
    "(?i)\\b[0-9a-f]{8}-[0-9a-f]{4}-[0-9a-f]{4}-[0-9a-f]{4}-[0-9a-f]{12}\\b"@
}

/// IPv6 addresses in their common forms.
pub open spec fn ipv6_src() -> Seq<char> {
    "(?i)\\b(?:[0-9a-f]{1,4}:){2,7}[0-9a-f]{1,4}\\b|(?i)\\b(?:[0-9a-f]{1,4}:){1,6}:[0-9a-f]{1,4}\\b|::1\\b"@
}

/// IPv4 addresses with an optional port.
pub open spec fn ipv4_src() -> Seq<char> {
    "\\b\\d{1,3}\\.\\d{1,3}\\.\\d{1,3}\\.\\d{1,3}(:\\d+)?\\b"@
}

/// `0x`-prefixed hex strings of eight or more digits.
pub open spec fn hex_src() -> Seq<char> {
    "(?i)\\b0x[0-9a-f]{8,}\\b"@
}

/// Standalone integers and decimals.
pub open spec fn number_src() -> Seq<char> {
    "\\b\\d+(\\.\\d+)?\\b"@
}

/// All five normalisation patterns compile.
pub open spec fn norm_patterns_build() -> bool {
    &&& spec_regex_build(guid_src(), false) is None
    &&& spec_regex_build(ipv6_src(), false) is None
    &&& spec_regex_build(ipv4_src(), false) is None
    &&& spec_regex_build(hex_src(), false) is None
    &&& spec_regex_build(number_src(), false) is None
}

/// `msg` with GUIDs, then IPv6 addresses, then IPv4 addresses (with port),
/// then `0x` hex strings, then numbers replaced by `<GUID>`, `<IP>`, `<IP>`,
/// `<HEX>` and `<NUM>`.
pub open spec fn normalized(msg: Seq<char>) -> Seq<char> {
    let s1 = spec_regex_replace_all(guid_src(), false, msg, "<GUID>"@);
    let s2 = spec_regex_replace_all(ipv6_src(), false, s1, "<IP>"@);
    let s3 = spec_regex_replace_all(ipv4_src(), false, s2, "<IP>"@);
    let s4 = spec_regex_replace_all(hex_src(), false, s3, "<HEX>"@);
    spec_regex_replace_all(number_src(), false, s4, "<NUM>"@)
}

/// The five compiled normalisation patterns.
pub struct MessageNormalizer {
    guid: CompiledRegex,
    ipv6: CompiledRegex,
    ipv4: CompiledRegex,
    hex_prefixed: CompiledRegex,
    number: CompiledRegex,
}

impl MessageNormalizer {
    pub closed spec fn wf(&self) -> bool {
        &&& self.guid.source_spec() == guid_src() && !self.guid.ci_spec()
        &&& self.ipv6.source_spec() == ipv6_src() && !self.ipv6.ci_spec()
        &&& self.ipv4.source_spec() == ipv4_src() && !self.ipv4.ci_spec()
        &&& self.hex_prefixed.source_spec() == hex_src() && !self.hex_prefixed.ci_spec()
        &&& self.number.source_spec() == number_src() && !self.number.ci_spec()
    }

    /// Compile the five patterns; `None` if one of them does not compile.
    pub fn new() -> (r: Option<MessageNormalizer>)
        ensures
            r is Some <==> norm_patterns_build(),
            r matches Some(n) ==> n.wf(),
    {
        let guid = CompiledRegex::new("(?i)\\b[0-9a-f]{8}-[0-9a-f]{4}-[0-9a-f]{4}-[0-9a-f]{4}-[0-9a-f]{12}\\b", false);
        let ipv6 = CompiledRegex::new("(?i)\\b(?:[0-9a-f]{1,4}:){2,7}[0-9a-f]{1,4}\\b|(?i)\\b(?:[0-9a-f]{1,4}:){1,6}:[0-9a-f]{1,4}\\b|::1\\b", false);
        let ipv4 = CompiledRegex::new("\\b\\d{1,3}\\.\\d{1,3}\\.\\d{1,3}\\.\\d{1,3}(:\\d+)?\\b", false);
        let hex_prefixed = CompiledRegex::new("(?i)\\b0x[0-9a-f]{8,}\\b", false);
        let number = CompiledRegex::new("\\b\\d+(\\.\\d+)?\\b", false);
        match (guid, ipv6, ipv4, hex_prefixed, number) {
            (Ok(guid), Ok(ipv6), Ok(ipv4), Ok(hex_prefixed), Ok(number)) => Some(MessageNormalizer { guid, ipv6, ipv4, hex_prefixed, number }),
            _ => None,
        }
    }

    /// `normalized(msg)`.
    pub fn normalize(&self, msg: &str) -> (r: String)
        requires
            self.wf(),
        ensures
            r@ == normalized(msg@),
    {
        let s1 = self.guid.replace_all(msg, "<GUID>");
        let s2 = self.ipv6.replace_all(s1.as_str(), "<IP>");
        let s3 = self.ipv4.replace_all(s2.as_str(), "<IP>");
        let s4 = self.hex_prefixed.replace_all(s3.as_str(), "<HEX>");
        self.number.replace_all(s4.as_str(), "<NUM>")
    }
}

/// Replace variable data in a message by tokens (see `normalized`), so that
/// messages differing only in such data compare equal.  Should a pattern
/// fail to compile, the message is returned unchanged.
pub fn normalize_message(msg: &str) -> (r: String)
    ensures
        norm_patterns_build() ==> r@ == normalized(msg@),
        !norm_patterns_build() ==> r@ == msg@,
{
    match MessageNormalizer::new() {
        Some(n) => n.normalize(msg),
        None => msg.to_owned(),
    }
}

// ---------------------------------------------------------------------------
// Text matching primitives
// ---------------------------------------------------------------------------

/// Case-insensitive subsequence match, greedy from the left: each query
/// character is matched against the lowercase form of the next text
/// character that equals it.
pub open spec fn fuzzy_spec(q: Seq<char>, t: Seq<char>) -> bool
    decreases q.len() + t.len(),
{
    if q.len() == 0 {
        true
    } else if t.len() == 0 {
        false
    } else if spec_char_lower(t[0]) == q[0] {
        fuzzy_spec(q.drop_first(), t.drop_first())
    } else {
        fuzzy_spec(q, t.drop_first())
    }
}

/// True when every character of `query` (already lowercase) occurs in
/// `text` in order, comparing against each text character's lowercase form.
pub fn fuzzy_match(query: &str, text: &str) -> (r: bool)
    ensures
        r == fuzzy_spec(query@, text@),
{
    let q = chars_of(query);
    let t = chars_of(text);
    let mut i: usize = 0;
    let mut j: usize = 0;
    assert(q@.subrange(0, q@.len() as int) =~= q@);
    assert(t@.subrange(0, t@.len() as int) =~= t@);
    while i < q.len()
        invariant
            i <= q.len(),
            j <= t.len(),
            q@ == query@,
            t@ == text@,
            fuzzy_spec(q@, t@) == fuzzy_spec(q@.subrange(i as int, q@.len() as int), t@.subrange(j as int, t@.len() as int)),
        decreases q.len() - i + t.len() - j,
    {
        let ghost qs = q@.subrange(i as int, q@.len() as int);
        let ghost ts = t@.subrange(j as int, t@.len() as int);
        if j >= t.len() {
            assert(ts.len() == 0);
            return false;
        }
        assert(qs.drop_first() =~= q@.subrange(i + 1, q@.len() as int));
        assert(ts.drop_first() =~= t@.subrange(j + 1, t@.len() as int));
        let lc = char_lower(t[j]);
        if lc == q[i] {
            i += 1;
        }
        j += 1;
    }
    assert(q@.subrange(i as int, q@.len() as int).len() == 0);
    true
}

/// ASCII lowercase of every character.
pub open spec fn ascii_fold(s: Seq<char>) -> Seq<char> {
    s.map_values(|c: char| ascii_lower(c))
}

/// Number of UTF-8 bytes of `s`, as `str::len` reports it.
pub open spec fn utf8_len(s: Seq<char>) -> usize {
    encode_utf8(s).len() as usize
}

/// Case-insensitive substring test with a lowercase needle: the empty
/// needle always matches; two ASCII strings are compared ignoring ASCII
/// case; otherwise the needle must occur in the Unicode lowercase form of
/// the haystack.
pub open spec fn ci_contains(h: Seq<char>, n: Seq<char>) -> bool {
    if n.len() == 0 {
        true
    } else if is_ascii_chars(n) && is_ascii_chars(h) {
        is_infix(ascii_fold(n), ascii_fold(h))
    } else {
        is_infix(n, spec_str_lower(h))
    }
}

fn ascii_lower_char(c: char) -> (r: char)
    ensures
        r == ascii_lower(c),
{
    if 'A' <= c && c <= 'Z' {
        let b: u8 = (c as u32) as u8;
        let r = (b + 32) as char;
        assert(r == ((c as u32) + 32) as char);
        r
    } else {
        c
    }
}

fn ascii_fold_vec(v: &Vec<char>) -> (r: Vec<char>)
    ensures
        r@ == ascii_fold(v@),
{
    let mut r: Vec<char> = Vec::new();
    let mut i: usize = 0;
    while i < v.len()
        invariant
            i <= v.len(),
            r@ == ascii_fold(v@.take(i as int)),
        decreases v.len() - i,
    {
        r.push(ascii_lower_char(v[i]));
        assert(ascii_fold(v@.take(i + 1)) =~= ascii_fold(v@.take(i as int)).push(ascii_lower(v@[i as int])));
        i += 1;
    }
    assert(v@.take(v@.len() as int) =~= v@);
    r
}

/// Case-insensitive substring test; see `ci_contains`.
pub fn contains_ci(haystack: &str, needle: &str) -> (r: bool)
    ensures
        r == ci_contains(haystack@, needle@),
{
    if needle.is_empty() {
        return true;
    }
    let n = chars_of(needle);
    if needle.is_ascii() && haystack.is_ascii() {
        let h = chars_of(haystack);
        let hl = ascii_fold_vec(&h);
        let nl = ascii_fold_vec(&n);
        return contains_infix(&nl, &hl);
    }
    let lower = str_lower(haystack);
    let lv = chars_of(lower.as_str());
    contains_infix(&n, &lv)
}

/// The severity names in lowercase, most severe first (the order of
/// `Severity::all`).
pub open spec fn level_names() -> Seq<Seq<char>> {
    seq!["critical"@, "error"@, "warning"@, "info"@, "debug"@, "unknown"@]
}

/// The severities at least as severe as the one named by `label` (any
/// case): that severity and every more severe one; `None` for an unknown
/// name.
pub fn severities_at_least(label: &str) -> (r: Option<Vec<Severity>>)
    ensures
        match r {
            Some(v) => exists|k: int| 0 <= k < 6 && level_names()[k] == spec_str_lower(label@)
                && v@ == crate::model::all_severities().take(k + 1),
            None => !level_names().contains(spec_str_lower(label@)),
        },
{
    let wanted = str_lower(label);
    let names: Vec<&str> = vec!["critical", "error", "warning", "info", "debug", "unknown"];
    let all = Severity::all();
    proof {
        reveal_strlit("critical");
        reveal_strlit("error");
        reveal_strlit("warning");
        reveal_strlit("info");
        reveal_strlit("debug");
        reveal_strlit("unknown");
        assert(names@.map_values(|n: &str| n@) =~= level_names());
    }
    let mut i: usize = 0;
    while i < 6
        invariant
            i <= 6,
            names@.len() == 6,
            all@ == crate::model::all_severities(),
            names@.map_values(|n: &str| n@) == level_names(),
            wanted@ == spec_str_lower(label@),
            forall|k: int| 0 <= k < i ==> level_names()[k] != wanted@,
        decreases 6 - i,
    {
        assert(names@.map_values(|n: &str| n@)[i as int] == names@[i as int]@);
        if crate::text::str_eq(names[i], wanted.as_str()) {
            let mut v: Vec<Severity> = Vec::new();
            let mut j: usize = 0;
            while j <= i
                invariant
                    j <= i + 1,
                    i < 6,
                    all@ == crate::model::all_severities(),
                    v@ == crate::model::all_severities().take(j as int),
                decreases i + 1 - j,
            {
                v.push(all[j]);
                assert(v@ =~= crate::model::all_severities().take(j + 1));
                j += 1;
            }
            return Some(v);
        }
        i += 1;
    }
    None
}

// ---------------------------------------------------------------------------
// Filter state
// ---------------------------------------------------------------------------

/// Error from compiling a filter regex.
#[derive(Debug)]
pub enum FilterError {
    InvalidRegex { pattern: String, message: String },
}

/// All filter settings.  Collections are used as sets: only membership
/// matters.
pub struct FilterState {
    /// Severities to include (empty: all).
    pub severity_levels: Vec<Severity>,
    /// Source files to include (empty: all, unless `hide_all_sources`).
    pub source_files: Vec<String>,
    /// No source file passes ("none selected").
    pub hide_all_sources: bool,
    /// Inclusive lower time bound.
    pub time_start: Option<UtcNanos>,
    /// Inclusive upper time bound.
    pub time_end: Option<UtcNanos>,
    /// Text to search for (substring, or subsequence when `fuzzy`).
    pub text_search: String,
    /// Use subsequence matching for `text_search`.
    pub fuzzy: bool,
    /// Regex source typed by the user.
    pub regex_pattern: String,
    /// Compiled regex (case-insensitive), if any.
    pub regex_search: Option<CompiledRegex>,
    /// Relative time window in seconds; the caller turns it into
    /// `time_start`.
    pub relative_time_secs: Option<u64>,
    /// Text typed for a custom relative window.
    pub relative_time_input: String,
    /// Only bookmarked entries pass.
    pub bookmarks_only: bool,
    /// IDs of bookmarked entries.
    pub bookmarked_ids: Vec<u64>,
    /// Entries containing this text (case-insensitive) are hidden.
    pub exclude_text: String,
    /// Components to include (empty: all).
    pub component_filter: Vec<String>,
    /// Text typed for the absolute start time.
    pub abs_time_start_input: String,
    /// Text typed for the absolute end time.
    pub abs_time_end_input: String,
    /// Hide entries without a parsed timestamp.
    pub hide_no_timestamp: bool,
    /// Post-filter deduplication.
    pub dedup_mode: DedupMode,
    /// Multi-term search.
    pub multi_search: MultiSearch,
}

/// The two filters agree on everything but the regex pattern and its
/// compiled form.
pub open spec fn same_but_regex(a: &FilterState, b: &FilterState) -> bool {
    &&& a.severity_levels == b.severity_levels
    &&& a.source_files == b.source_files
    &&& a.hide_all_sources == b.hide_all_sources
    &&& a.time_start == b.time_start
    &&& a.time_end == b.time_end
    &&& a.text_search == b.text_search
    &&& a.fuzzy == b.fuzzy
    &&& a.relative_time_secs == b.relative_time_secs
    &&& a.relative_time_input == b.relative_time_input
    &&& a.bookmarks_only == b.bookmarks_only
    &&& a.bookmarked_ids == b.bookmarked_ids
    &&& a.exclude_text == b.exclude_text
    &&& a.component_filter == b.component_filter
    &&& a.abs_time_start_input == b.abs_time_start_input
    &&& a.abs_time_end_input == b.abs_time_end_input
    &&& a.hide_no_timestamp == b.hide_no_timestamp
    &&& a.dedup_mode == b.dedup_mode
    &&& a.multi_search == b.multi_search
}

/// No filter is active.
pub open spec fn filter_is_empty(f: &FilterState) -> bool {
    &&& f.severity_levels@.len() == 0
    &&& f.source_files@.len() == 0
    &&& !f.hide_all_sources
    &&& f.time_start is None
    &&& f.time_end is None
    &&& f.text_search@.len() == 0
    &&& f.regex_search is None
    &&& f.relative_time_secs is None
    &&& !f.bookmarks_only
    &&& f.exclude_text@.len() == 0
    &&& f.component_filter@.len() == 0
    &&& !f.hide_no_timestamp
    &&& f.dedup_mode == DedupMode::Off
    &&& f.multi_search.is_empty_spec()
}

/// A filter with every setting at its default and the given severities.
pub open spec fn defaults_with(f: &FilterState, levels: Seq<Severity>, fuzzy: bool) -> bool {
    &&& f.severity_levels@ == levels
    &&& f.source_files@.len() == 0
    &&& !f.hide_all_sources
    &&& f.time_start is None
    &&& f.time_end is None
    &&& f.text_search@.len() == 0
    &&& f.fuzzy == fuzzy
    &&& f.regex_pattern@.len() == 0
    &&& f.regex_search is None
    &&& f.relative_time_secs is None
    &&& f.relative_time_input@.len() == 0
    &&& !f.bookmarks_only
    &&& f.bookmarked_ids@.len() == 0
    &&& f.exclude_text@.len() == 0
    &&& f.component_filter@.len() == 0
    &&& f.abs_time_start_input@.len() == 0
    &&& f.abs_time_end_input@.len() == 0
    &&& !f.hide_no_timestamp
    &&& f.dedup_mode == DedupMode::Off
    &&& f.multi_search.is_empty_spec()
    &&& f.multi_search.compiled is None
}

impl Default for FilterState {
    fn default() -> (r: Self)
        ensures
            defaults_with(&r, Seq::empty(), false),
    {
        FilterState::with_levels(Vec::new(), false)
    }
}

impl FilterState {
    fn with_levels(levels: Vec<Severity>, fuzzy: bool) -> (r: Self)
        ensures
            defaults_with(&r, levels@, fuzzy),
    {
        FilterState {
            severity_levels: levels,
            source_files: Vec::new(),
            hide_all_sources: false,
            time_start: None,
            time_end: None,
            text_search: String::new(),
            fuzzy,
            regex_pattern: String::new(),
            regex_search: None,
            relative_time_secs: None,
            relative_time_input: String::new(),
            bookmarks_only: false,
            bookmarked_ids: Vec::new(),
            exclude_text: String::new(),
            component_filter: Vec::new(),
            abs_time_start_input: String::new(),
            abs_time_end_input: String::new(),
            hide_no_timestamp: false,
            dedup_mode: DedupMode::Off,
            multi_search: MultiSearch::default(),
        }
    }

    /// True when no filter is active (`fuzzy` and the typed-text buffers do
    /// not count).
    pub fn is_empty(&self) -> (r: bool)
        ensures
            r == filter_is_empty(self),
    {
        self.severity_levels.len() == 0 && self.source_files.len() == 0 && !self.hide_all_sources
            && self.time_start.is_none() && self.time_end.is_none() && self.text_search.as_str().is_empty()
            && self.regex_search.is_none() && self.relative_time_secs.is_none() && !self.bookmarks_only
            && self.exclude_text.as_str().is_empty() && self.component_filter.len() == 0
            && !self.hide_no_timestamp && self.dedup_mode == DedupMode::Off && self.multi_search.is_empty()
    }

    /// Set the regex search: the typed text is always kept; an empty pattern
    /// clears the search; otherwise the pattern is compiled
    /// case-insensitively, and on failure the search is cleared and the
    /// error returned.
    pub fn set_regex(&mut self, pattern: &str) -> (r: Result<(), FilterError>)
        ensures
            final(self).regex_pattern@ == pattern@,
            same_but_regex(old(self), final(self)),
            pattern@.len() == 0 ==> r is Ok && final(self).regex_search is None,
            pattern@.len() > 0 ==> (r is Ok <==> spec_regex_build(pattern@, true) is None),
            pattern@.len() > 0 && r is Ok ==> (final(self).regex_search matches Some(p)
                && p.source_spec() == pattern@ && p.ci_spec()),
            r matches Err(FilterError::InvalidRegex { pattern: p, message: m }) ==> (p@ == pattern@
                && Some(m@) == spec_regex_build(pattern@, true) && final(self).regex_search is None),
    {
        self.regex_pattern = pattern.to_owned();
        if pattern.is_empty() {
            self.regex_search = None;
            return Ok(());
        }
        match CompiledRegex::new(pattern, true) {
            Ok(p) => {
                self.regex_search = Some(p);
                Ok(())
            },
            Err(m) => {
                self.regex_search = None;
                Err(FilterError::InvalidRegex { pattern: pattern.to_owned(), message: m })
            },
        }
    }

    /// Quick filter: Critical and Error only, keeping the fuzzy mode.
    pub fn errors_only_from(fuzzy: bool) -> (r: Self)
        ensures
            defaults_with(&r, seq![Severity::Critical, Severity::Error], fuzzy),
    {
        let levels = vec![Severity::Critical, Severity::Error];
        assert(levels@ =~= seq![Severity::Critical, Severity::Error]);
        FilterState::with_levels(levels, fuzzy)
    }

    /// Quick filter: Critical and Error only.
    pub fn errors_only() -> (r: Self)
        ensures
            defaults_with(&r, seq![Severity::Critical, Severity::Error], false),
    {
        FilterState::errors_only_from(false)
    }

    /// Quick filter: Critical, Error and Warning, keeping the fuzzy mode.
    pub fn errors_and_warnings_from(fuzzy: bool) -> (r: Self)
        ensures
            defaults_with(&r, seq![Severity::Critical, Severity::Error, Severity::Warning], fuzzy),
    {
        let levels = vec![Severity::Critical, Severity::Error, Severity::Warning];
        assert(levels@ =~= seq![Severity::Critical, Severity::Error, Severity::Warning]);
        FilterState::with_levels(levels, fuzzy)
    }
}

// ---------------------------------------------------------------------------
// Matching one entry
// ---------------------------------------------------------------------------

pub open spec fn opt_string_view(o: Option<String>) -> Option<Seq<char>> {
    match o {
        Some(s) => Some(s@),
        None => None,
    }
}

/// `q` is found in the message, thread or component of `e`, by substring
/// or (when `fuzzy`) by subsequence.
pub open spec fn text_hit(e: &LogEntry, q: Seq<char>, fuzzy: bool) -> bool {
    if fuzzy {
        ||| fuzzy_spec(q, e.message@)
        ||| (e.thread matches Some(t) && fuzzy_spec(q, t@))
        ||| (e.component matches Some(c) && fuzzy_spec(q, c@))
    } else {
        ||| ci_contains(e.message@, q)
        ||| (e.thread matches Some(t) && ci_contains(t@, q))
        ||| (e.component matches Some(c) && ci_contains(c@, q))
    }
}

/// Regex `p` matches the message, thread or component of `e`.
pub open spec fn regex_hit(e: &LogEntry, p: CompiledRegex) -> bool {
    ||| pat_matches(p, e.message@)
    ||| (e.thread matches Some(t) && pat_matches(p, t@))
    ||| (e.component matches Some(c) && pat_matches(p, c@))
}

/// The time an entry is filtered by: its parsed timestamp, else the file's
/// modification time.
pub open spec fn effective_time(e: &LogEntry) -> Option<UtcNanos> {
    match e.timestamp {
        Some(t) => Some(t),
        None => e.file_modified,
    }
}

/// Whether entry `e` passes every active filter of `f`, with the lowercase
/// search text `tl` and the lowercase exclusion text `xl`.
pub open spec fn entry_passes(e: &LogEntry, f: &FilterState, tl: Seq<char>, xl: Seq<char>) -> bool {
    &&& (f.severity_levels@.len() == 0 || f.severity_levels@.contains(e.severity))
    &&& !f.hide_all_sources
    &&& (f.source_files@.len() == 0 || string_views(f.source_files@).contains(e.source_file@))
    &&& (f.hide_no_timestamp ==> e.timestamp is Some)
    &&& ((f.time_start is Some || f.time_end is Some) ==> match effective_time(e) {
        None => false,
        Some(t) => (f.time_start matches Some(s) ==> s <= t) && (f.time_end matches Some(x) ==> t <= x),
    })
    &&& (tl.len() == 0 || text_hit(e, tl, f.fuzzy))
    &&& (f.regex_search matches Some(p) ==> regex_hit(e, p))
    &&& (f.bookmarks_only ==> f.bookmarked_ids@.contains(e.id))
    &&& (xl.len() == 0 || !text_hit(e, xl, false))
    &&& (f.component_filter@.len() == 0 || (e.component matches Some(c) && string_views(f.component_filter@).contains(c@)))
    &&& text_passes(&f.multi_search, combined_fields(e.message@, opt_string_view(e.thread), opt_string_view(e.component)))
}

pub(crate) fn severity_in(v: &Vec<Severity>, s: Severity) -> (r: bool)
    ensures
        r == v@.contains(s),
{
    let mut i: usize = 0;
    while i < v.len()
        invariant
            i <= v.len(),
            forall|k: int| 0 <= k < i ==> v@[k] != s,
        decreases v.len() - i,
    {
        if v[i] == s {
            return true;
        }
        i += 1;
    }
    false
}

fn id_in(v: &Vec<u64>, id: u64) -> (r: bool)
    ensures
        r == v@.contains(id),
{
    let mut i: usize = 0;
    while i < v.len()
        invariant
            i <= v.len(),
            forall|k: int| 0 <= k < i ==> v@[k] != id,
        decreases v.len() - i,
    {
        if v[i] == id {
            return true;
        }
        i += 1;
    }
    false
}

/// Whether `s` is one of the strings in `v`.
pub fn string_in(v: &Vec<String>, s: &str) -> (r: bool)
    ensures
        r == string_views(v@).contains(s@),
{
    let mut i: usize = 0;
    while i < v.len()
        invariant
            i <= v.len(),
            forall|k: int| 0 <= k < i ==> string_views(v@)[k] != s@,
        decreases v.len() - i,
    {
        assert(string_views(v@)[i as int] == v@[i as int]@);
        if crate::text::str_eq(v[i].as_str(), s) {
            return true;
        }
        i += 1;
    }
    false
}

fn text_hit_exec(e: &LogEntry, q: &str, fuzzy: bool) -> (r: bool)
    ensures
        r == text_hit(e, q@, fuzzy),
{
    if fuzzy {
        if fuzzy_match(q, e.message.as_str()) {
            return true;
        }
        if let Some(t) = &e.thread {
            if fuzzy_match(q, t.as_str()) {
                return true;
            }
        }
        if let Some(c) = &e.component {
            if fuzzy_match(q, c.as_str()) {
                return true;
            }
        }
        false
    } else {
        if contains_ci(e.message.as_str(), q) {
            return true;
        }
        if let Some(t) = &e.thread {
            if contains_ci(t.as_str(), q) {
                return true;
            }
        }
        if let Some(c) = &e.component {
            if contains_ci(c.as_str(), q) {
                return true;
            }
        }
        false
    }
}

fn regex_hit_exec(e: &LogEntry, p: &CompiledRegex) -> (r: bool)
    ensures
        r == regex_hit(e, *p),
{
    if p.is_match(e.message.as_str()) {
        return true;
    }
    if let Some(t) = &e.thread {
        if p.is_match(t.as_str()) {
            return true;
        }
    }
    if let Some(c) = &e.component {
        if p.is_match(c.as_str()) {
            return true;
        }
    }
    false
}

fn opt_as_str(o: &Option<String>) -> (r: Option<&str>)
    ensures
        opt_str_view(r) == opt_string_view(*o),
{
    match o {
        Some(s) => Some(s.as_str()),
        None => None,
    }
}

/// Whether one entry passes every active filter, with the lowercase search
/// and exclusion texts computed by the caller.
pub fn matches_all(entry: &LogEntry, filter: &FilterState, text_lower: &str, excl_lower: &str) -> (r: bool)
    ensures
        r == entry_passes(entry, filter, text_lower@, excl_lower@),
{
    if filter.severity_levels.len() > 0 && !severity_in(&filter.severity_levels, entry.severity) {
        return false;
    }
    if filter.hide_all_sources {
        return false;
    }
    if filter.source_files.len() > 0 && !string_in(&filter.source_files, entry.source_file.as_str()) {
        return false;
    }
    if filter.hide_no_timestamp && entry.timestamp.is_none() {
        return false;
    }
    if filter.time_start.is_some() || filter.time_end.is_some() {
        let eff = match entry.timestamp {
            Some(t) => Some(t),
            None => entry.file_modified,
        };
        match eff {
            None => return false,
            Some(t) => {
                if let Some(s) = filter.time_start {
                    if t < s {
                        return false;
                    }
                }
                if let Some(x) = filter.time_end {
                    if t > x {
                        return false;
                    }
                }
            },
        }
    }
    if !text_lower.is_empty() && !text_hit_exec(entry, text_lower, filter.fuzzy) {
        return false;
    }
    if let Some(p) = &filter.regex_search {
        if !regex_hit_exec(entry, p) {
            return false;
        }
    }
    if filter.bookmarks_only && !id_in(&filter.bookmarked_ids, entry.id) {
        return false;
    }
    if !excl_lower.is_empty() && text_hit_exec(entry, excl_lower, false) {
        return false;
    }
    if filter.component_filter.len() > 0 {
        match &entry.component {
            Some(c) => {
                if !string_in(&filter.component_filter, c.as_str()) {
                    return false;
                }
            },
            None => return false,
        }
    }
    filter.multi_search.matches_entry(entry.message.as_str(), opt_as_str(&entry.thread), opt_as_str(&entry.component))
}

/// Whether one entry passes, computing the exclusion text here; the search
/// text must already be lowercase.
pub fn entry_matches(entry: &LogEntry, filter: &FilterState, text_lower: &str) -> (r: bool)
    ensures
        r == entry_passes(entry, filter, text_lower@, spec_str_lower(filter.exclude_text@)),
{
    let excl_lower = str_lower(filter.exclude_text.as_str());
    matches_all(entry, filter, text_lower, excl_lower.as_str())
}

/// Indices `i < n` of the entries that pass, in increasing order.
pub open spec fn passing_indices(entries: Seq<LogEntry>, f: &FilterState, tl: Seq<char>, xl: Seq<char>, n: nat) -> Seq<usize>
    decreases n,
{
    if n == 0 {
        Seq::empty()
    } else {
        let rest = passing_indices(entries, f, tl, xl, (n - 1) as nat);
        if entry_passes(&entries[n - 1], f, tl, xl) {
            rest.push((n - 1) as usize)
        } else {
            rest
        }
    }
}

/// Indices `start..n` of the entries that pass, in increasing order.
pub open spec fn passing_between(entries: Seq<LogEntry>, f: &FilterState, tl: Seq<char>, xl: Seq<char>, start: int, n: int) -> Seq<usize>
    decreases n - start,
{
    if n <= start {
        Seq::empty()
    } else {
        let rest = passing_between(entries, f, tl, xl, start, n - 1);
        if entry_passes(&entries[n - 1], f, tl, xl) {
            rest.push((n - 1) as usize)
        } else {
            rest
        }
    }
}

proof fn lemma_passing_same(a: Seq<LogEntry>, b: Seq<LogEntry>, f: &FilterState, tl: Seq<char>, xl: Seq<char>, n: nat)
    requires
        n <= a.len(),
        n <= b.len(),
        forall|i: int| 0 <= i < n ==> a[i] == b[i],
    ensures
        passing_indices(a, f, tl, xl, n) == passing_indices(b, f, tl, xl, n),
    decreases n,
{
    if n > 0 {
        lemma_passing_same(a, b, f, tl, xl, (n - 1) as nat);
        assert(a[n - 1] == b[n - 1]);
    }
}

proof fn lemma_passing_prefix(es: Seq<LogEntry>, f: &FilterState, tl: Seq<char>, xl: Seq<char>, start: nat, n: nat)
    requires
        start <= n <= es.len(),
    ensures
        passing_indices(es, f, tl, xl, n) == passing_indices(es.take(start as int), f, tl, xl, start)
            + passing_between(es, f, tl, xl, start as int, n as int),
    decreases n,
{
    if n == start {
        lemma_passing_same(es, es.take(start as int), f, tl, xl, start);
        assert(passing_indices(es, f, tl, xl, n) + Seq::<usize>::empty() =~= passing_indices(es, f, tl, xl, n));
    } else {
        lemma_passing_prefix(es, f, tl, xl, start, (n - 1) as nat);
        let p = passing_indices(es.take(start as int), f, tl, xl, start);
        let q = passing_between(es, f, tl, xl, start as int, n - 1);
        assert((p + q).push((n - 1) as usize) =~= p + q.push((n - 1) as usize));
    }
}

/// For a filter that is not empty, the filtered indices of a list are those
/// of its first `start` entries followed by the passing indices from
/// `start` on.
pub proof fn lemma_filtered_split(es: Seq<LogEntry>, f: &FilterState, start: int)
    requires
        !filter_is_empty(f),
        0 <= start <= es.len(),
    ensures
        filtered_indices(es, f) == filtered_indices(es.take(start), f)
            + passing_between(es, f, spec_str_lower(f.text_search@), spec_str_lower(f.exclude_text@), start, es.len() as int),
{
    lemma_passing_prefix(es, f, spec_str_lower(f.text_search@), spec_str_lower(f.exclude_text@), start as nat, es.len());
}

/// `0, 1, .., n - 1`.
pub open spec fn all_indices(n: nat) -> Seq<usize> {
    Seq::new(n, |i: int| i as usize)
}

/// What `apply_filters` returns: every index when no filter is active,
/// otherwise the indices of passing entries in order.
pub closed spec fn filtered_indices(entries: Seq<LogEntry>, f: &FilterState) -> Seq<usize> {
    if filter_is_empty(f) {
        all_indices(entries.len())
    } else {
        passing_indices(entries, f, spec_str_lower(f.text_search@), spec_str_lower(f.exclude_text@), entries.len())
    }
}

/// Indices of the entries that pass the filter.
pub fn apply_filters(entries: &Vec<LogEntry>, filter: &FilterState) -> (r: Vec<usize>)
    ensures
        r@ == filtered_indices(entries@, filter),
{
    if filter.is_empty() {
        let mut all: Vec<usize> = Vec::new();
        let mut i: usize = 0;
        while i < entries.len()
            invariant
                i <= entries.len(),
                all@ == all_indices(i as nat),
            decreases entries.len() - i,
        {
            all.push(i);
            assert(all@ =~= all_indices((i + 1) as nat));
            i += 1;
        }
        return all;
    }
    let text_lower = str_lower(filter.text_search.as_str());
    let excl_lower = str_lower(filter.exclude_text.as_str());
    let mut result: Vec<usize> = Vec::new();
    let mut i: usize = 0;
    while i < entries.len()
        invariant
            i <= entries.len(),
            result@ == passing_indices(entries@, filter, text_lower@, excl_lower@, i as nat),
            text_lower@ == spec_str_lower(filter.text_search@),
            excl_lower@ == spec_str_lower(filter.exclude_text@),
        decreases entries.len() - i,
    {
        if matches_all(&entries[i], filter, text_lower.as_str(), excl_lower.as_str()) {
            result.push(i);
        }
        i += 1;
    }
    result
}

// ---------------------------------------------------------------------------
// Deduplication
// ---------------------------------------------------------------------------

/// What the deduplication pass records for one group of equal messages.
#[derive(Debug)]
pub struct DedupInfo {
    /// Number of occurrences, the surviving one included.
    pub count: usize,
    /// Earliest timestamp among the occurrences.
    pub first_timestamp: Option<UtcNanos>,
    /// Indices of every occurrence, ordered by timestamp (entries without one
    /// first) and then by ID.
    pub all_indices: Vec<usize>,
}

/// The message part of the grouping key.
pub open spec fn message_key(mode: DedupMode, msg: Seq<char>) -> Seq<char> {
    if mode == DedupMode::Normalized && norm_patterns_build() {
        normalized(msg)
    } else {
        msg
    }
}

/// Grouping key of entry `i`: its source file and message key.
pub open spec fn dkey(es: Seq<LogEntry>, mode: DedupMode, i: usize) -> (Seq<char>, Seq<char>) {
    (es[i as int].source_file@, message_key(mode, es[i as int].message@))
}

/// `None` sorts before every timestamp.
pub open spec fn ts_lt(a: Option<UtcNanos>, b: Option<UtcNanos>) -> bool {
    match (a, b) {
        (None, Some(_)) => true,
        (Some(x), Some(y)) => x < y,
        _ => false,
    }
}

/// Entry `a` is not later than entry `b`: ordered by timestamp, then ID.
pub open spec fn not_later(es: Seq<LogEntry>, a: usize, b: usize) -> bool {
    ||| ts_lt(es[a as int].timestamp, es[b as int].timestamp)
    ||| (es[a as int].timestamp == es[b as int].timestamp && es[a as int].id <= es[b as int].id)
}

/// The indices in `f` (in order) of valid entries with key `k`.
pub open spec fn members(es: Seq<LogEntry>, mode: DedupMode, f: Seq<usize>, k: (Seq<char>, Seq<char>)) -> Seq<usize>
    decreases f.len(),
{
    if f.len() == 0 {
        Seq::empty()
    } else {
        let r = members(es, mode, f.drop_last(), k);
        let i = f.last();
        if i < es.len() && dkey(es, mode, i) == k {
            r.push(i)
        } else {
            r
        }
    }
}

/// The latest entry of a non-empty group; among equally late ones, the last.
pub open spec fn latest(es: Seq<LogEntry>, g: Seq<usize>) -> usize
    decreases g.len(),
{
    if g.len() <= 1 {
        g[0]
    } else {
        let b = latest(es, g.drop_last());
        if not_later(es, b, g.last()) {
            g.last()
        } else {
            b
        }
    }
}

/// Earliest timestamp of a group, if any member has one.
pub open spec fn earliest_ts(es: Seq<LogEntry>, g: Seq<usize>) -> Option<UtcNanos>
    decreases g.len(),
{
    if g.len() == 0 {
        None
    } else {
        let m = earliest_ts(es, g.drop_last());
        match (m, es[g.last() as int].timestamp) {
            (None, t) => t,
            (Some(a), None) => Some(a),
            (Some(a), Some(b)) => Some(if b < a { b } else { a }),
        }
    }
}

/// The indices of `p` (a prefix of `f`) that survive: valid entries that are
/// the latest of their group in `f`.
pub closed spec fn survivors(es: Seq<LogEntry>, mode: DedupMode, f: Seq<usize>, p: Seq<usize>) -> Seq<usize>
    decreases p.len(),
{
    if p.len() == 0 {
        Seq::empty()
    } else {
        let r = survivors(es, mode, f, p.drop_last());
        let i = p.last();
        if i < es.len() && i == latest(es, members(es, mode, f, dkey(es, mode, i))) {
            r.push(i)
        } else {
            r
        }
    }
}

/// `v` is ordered by `not_later`.
pub open spec fn time_sorted(es: Seq<LogEntry>, v: Seq<usize>) -> bool {
    forall|a: int, b: int| 0 <= a < b < v.len() ==> not_later(es, #[trigger] v[a], #[trigger] v[b])
}

/// What `apply_dedup` records for one surviving index.
pub open spec fn info_ok(es: Seq<LogEntry>, mode: DedupMode, f: Seq<usize>, idx: usize, info: &DedupInfo) -> bool {
    let g = members(es, mode, f, dkey(es, mode, idx));
    &&& idx < es.len()
    &&& g.len() > 0
    &&& idx == latest(es, g)
    &&& info.count == g.len()
    &&& info.first_timestamp == earliest_ts(es, g)
    &&& time_sorted(es, info.all_indices@)
    &&& info.all_indices@.to_multiset() == g.to_multiset()
}

proof fn lemma_members_valid(es: Seq<LogEntry>, mode: DedupMode, f: Seq<usize>, k: (Seq<char>, Seq<char>))
    ensures
        forall|j: int| 0 <= j < members(es, mode, f, k).len() ==> (#[trigger] members(es, mode, f, k)[j]) < es.len()
            && dkey(es, mode, members(es, mode, f, k)[j]) == k,
    decreases f.len(),
{
    if f.len() > 0 {
        lemma_members_valid(es, mode, f.drop_last(), k);
        let r = members(es, mode, f.drop_last(), k);
        let m = members(es, mode, f, k);
        assert forall|j: int| 0 <= j < m.len() implies (#[trigger] m[j]) < es.len() && dkey(es, mode, m[j]) == k by {
            if j < r.len() {
                assert(m[j] == r[j]);
            }
        }
    }
}

proof fn lemma_latest_member(es: Seq<LogEntry>, g: Seq<usize>)
    requires
        g.len() > 0,
    ensures
        g.contains(latest(es, g)),
    decreases g.len(),
{
    if g.len() > 1 {
        lemma_latest_member(es, g.drop_last());
        let b = latest(es, g.drop_last());
        let j = choose|j: int| 0 <= j < g.drop_last().len() && g.drop_last()[j] == b;
        assert(g[j] == b);
    } else {
        assert(g[0] == latest(es, g));
    }
}

fn copy_indices(v: &Vec<usize>) -> (r: Vec<usize>)
    ensures
        r@ == v@,
{
    let mut r: Vec<usize> = Vec::new();
    let mut i: usize = 0;
    while i < v.len()
        invariant
            i <= v.len(),
            r@ == v@.take(i as int),
        decreases v.len() - i,
    {
        r.push(v[i]);
        assert(r@ =~= v@.take(i + 1));
        i += 1;
    }
    assert(v@.take(v@.len() as int) =~= v@);
    r
}

fn not_later_exec(es: &Vec<LogEntry>, a: usize, b: usize) -> (r: bool)
    requires
        a < es.len(),
        b < es.len(),
    ensures
        r == not_later(es@, a, b),
{
    let ta = es[a].timestamp;
    let tb = es[b].timestamp;
    let lt = match (ta, tb) {
        (None, Some(_)) => true,
        (Some(x), Some(y)) => x < y,
        _ => false,
    };
    let eq = match (ta, tb) {
        (None, None) => true,
        (Some(x), Some(y)) => x == y,
        _ => false,
    };
    lt || (eq && es[a].id <= es[b].id)
}

/// Sort indices by `not_later` (insertion sort).
fn sort_by_time(es: &Vec<LogEntry>, v: &Vec<usize>) -> (r: Vec<usize>)
    requires
        forall|j: int| 0 <= j < v.len() ==> (#[trigger] v@[j]) < es.len(),
    ensures
        time_sorted(es@, r@),
        r@.to_multiset() == v@.to_multiset(),
{
    broadcast use vstd::seq_lib::group_to_multiset_ensures, vstd::multiset::group_multiset_axioms;
    let mut out: Vec<usize> = Vec::new();
    let mut i: usize = 0;
    while i < v.len()
        invariant
            i <= v.len(),
            forall|j: int| 0 <= j < v.len() ==> (#[trigger] v@[j]) < es.len(),
            forall|j: int| 0 <= j < out.len() ==> (#[trigger] out@[j]) < es.len(),
            time_sorted(es@, out@),
            out@.to_multiset() == v@.take(i as int).to_multiset(),
        decreases v.len() - i,
    {
        let x = v[i];
        let mut j: usize = 0;
        while j < out.len() && not_later_exec(es, out[j], x)
            invariant
                j <= out.len(),
                x < es.len(),
                forall|k: int| 0 <= k < out.len() ==> (#[trigger] out@[k]) < es.len(),
                forall|k: int| 0 <= k < j ==> not_later(es@, #[trigger] out@[k], x),
            decreases out.len() - j,
        {
            j += 1;
        }
        let ghost before = out@;
        out.insert(j, x);
        proof {
            assert(out@ =~= before.insert(j as int, x));
            assert forall|a: int, b: int| 0 <= a < b < out@.len() implies #[trigger] not_later(es@, out@[a], out@[b]) by {
                if b < j {
                    assert(out@[a] == before[a] && out@[b] == before[b]);
                } else if b == j {
                    assert(out@[a] == before[a]);
                } else if a < j {
                    assert(out@[a] == before[a] && out@[b] == before[b - 1]);
                    assert(not_later(es@, before[a], before[b - 1]));
                } else if a == j {
                    assert(out@[b] == before[b - 1]);
                    assert(!not_later(es@, before[j as int], x));
                    if j < b - 1 {
                        assert(not_later(es@, before[j as int], before[b - 1]));
                    }
                } else {
                    assert(out@[a] == before[a - 1] && out@[b] == before[b - 1]);
                    assert(not_later(es@, before[a - 1], before[b - 1]));
                }
            }
            assert forall|k: int| 0 <= k < out@.len() implies (#[trigger] out@[k]) < es.len() by {
                if k < j {
                    assert(out@[k] == before[k]);
                } else if k > j {
                    assert(out@[k] == before[k - 1]);
                }
            }
            let pa = before.subrange(0, j as int);
            let pb = before.subrange(j as int, before.len() as int);
            pa.to_multiset_ensures();
            v@.take(i as int).to_multiset_ensures();
            assert(before.insert(j as int, x) =~= pa.push(x) + pb);
            vstd::seq_lib::lemma_multiset_commutative(pa.push(x), pb);
            vstd::seq_lib::lemma_multiset_commutative(pa, pb);
            assert(before =~= pa + pb);
            assert(v@.take(i + 1) =~= v@.take(i as int).push(x));
            assert(pa.to_multiset().insert(x).add(pb.to_multiset()) =~= pa.to_multiset().add(pb.to_multiset()).insert(x));
        }
        i += 1;
    }
    assert(v@.take(v@.len() as int) =~= v@);
    out
}

/// Collapse duplicate messages among the filtered indices.  Entries are
/// grouped by source file and message (exact, or normalised); each group
/// keeps its latest entry (by timestamp, then ID).  Returns the filtered
/// indices that survive, in their original order, and one record per group.
pub fn apply_dedup(entries: &Vec<LogEntry>, filtered_indices: &Vec<usize>, mode: DedupMode) -> (r: (Vec<usize>, Vec<(usize, DedupInfo)>))
    ensures
        mode == DedupMode::Off ==> r.0@ == filtered_indices@ && r.1@.len() == 0,
        mode != DedupMode::Off ==> {
            let es = entries@;
            let f = filtered_indices@;
            &&& r.0@ == survivors(es, mode, f, f)
            &&& forall|j: int| 0 <= j < r.1@.len() ==> info_ok(es, mode, f, (#[trigger] r.1@[j]).0, &r.1@[j].1)
            &&& forall|a: int, b: int| 0 <= a < b < r.1@.len() ==>
                dkey(es, mode, (#[trigger] r.1@[a]).0) != dkey(es, mode, (#[trigger] r.1@[b]).0)
            &&& forall|p: int| 0 <= p < f.len() && #[trigger] f[p] < es.len() ==>
                exists|j: int| 0 <= j < r.1@.len() && dkey(es, mode, (#[trigger] r.1@[j]).0) == dkey(es, mode, f[p])
        },
{
    if mode == DedupMode::Off {
        return (copy_indices(filtered_indices), Vec::new());
    }
    let ghost es = entries@;
    let ghost f = filtered_indices@;
    let normalizer = if mode == DedupMode::Normalized {
        MessageNormalizer::new()
    } else {
        None
    };
    // Phase 1: give every valid position the number of its group.
    let mut g_file: Vec<String> = Vec::new();
    let mut g_key: Vec<String> = Vec::new();
    let mut pos_gid: Vec<Option<usize>> = Vec::new();
    let mut g_first: Vec<usize> = Vec::new();
    let mut t: usize = 0;
    while t < filtered_indices.len()
        invariant
            t <= f.len(),
            f == filtered_indices@,
            es == entries@,
            mode != DedupMode::Off,
            mode == DedupMode::Normalized ==> (normalizer is Some <==> norm_patterns_build()),
            mode != DedupMode::Normalized ==> normalizer is None,
            normalizer matches Some(n) ==> n.wf(),
            g_file.len() == g_key.len(),
            g_file.len() <= t,
            pos_gid.len() == t,
            forall|a: int, b: int| 0 <= a < b < g_file.len() ==>
                (#[trigger] g_file@[a]@, g_key@[a]@) != (#[trigger] g_file@[b]@, g_key@[b]@),
            forall|p: int| 0 <= p < t ==> match #[trigger] pos_gid@[p] {
                Some(g) => f[p] < es.len() && g < g_file.len() && (g_file@[g as int]@, g_key@[g as int]@) == dkey(es, mode, f[p]),
                None => f[p] >= es.len(),
            },
            g_first.len() == g_file.len(),
            forall|g: int| 0 <= g < g_file.len() ==> (#[trigger] g_first@[g]) < t && pos_gid@[g_first@[g] as int] == Some(g as usize),
        decreases f.len() - t,
    {
        let idx = filtered_indices[t];
        if idx >= entries.len() {
            pos_gid.push(None);
            assert(pos_gid@[t as int] == None::<usize>);
        } else {
            let e = &entries[idx];
            let key: String = match &normalizer {
                Some(n) => n.normalize(e.message.as_str()),
                None => e.message.clone(),
            };
            assert(key@ == message_key(mode, es[idx as int].message@));
            let fg = find_group(&g_file, &g_key, e.source_file.as_str(), key.as_str());
            if let Some(g) = fg {
                pos_gid.push(Some(g));
                assert(pos_gid@[t as int] == Some(g));
            } else {
                let ng = g_file.len();
                g_file.push(e.source_file.clone());
                g_key.push(key);
                g_first.push(t);
                pos_gid.push(Some(ng));
                assert(pos_gid@[t as int] == Some(ng));
            }
        }
        t += 1;
    }
    assert(f.take(f.len() as int) =~= f);
    // Phase 2: members, survivor, count, earliest timestamp and sorted
    // indices of every group.
    let mut infos: Vec<(usize, DedupInfo)> = Vec::new();
    let mut g_best: Vec<usize> = Vec::new();
    let mut g: usize = 0;
    while g < g_file.len()
        invariant
            g <= g_file.len(),
            f == filtered_indices@,
            es == entries@,
            mode != DedupMode::Off,
            g_file.len() == g_key.len(),
            pos_gid.len() == f.len(),
            infos.len() == g,
            g_best.len() == g,
            forall|a: int, b: int| 0 <= a < b < g_file.len() ==>
                (#[trigger] g_file@[a]@, g_key@[a]@) != (#[trigger] g_file@[b]@, g_key@[b]@),
            forall|p: int| 0 <= p < f.len() ==> match #[trigger] pos_gid@[p] {
                Some(gg) => f[p] < es.len() && gg < g_file.len() && (g_file@[gg as int]@, g_key@[gg as int]@) == dkey(es, mode, f[p]),
                None => f[p] >= es.len(),
            },
            g_first.len() == g_file.len(),
            forall|gg: int| 0 <= gg < g_file.len() ==> (#[trigger] g_first@[gg]) < f.len() && pos_gid@[g_first@[gg] as int] == Some(gg as usize),
            forall|j: int| 0 <= j < g ==> {
                &&& (#[trigger] infos@[j]).0 == g_best@[j]
                &&& dkey(es, mode, g_best@[j]) == (g_file@[j]@, g_key@[j]@)
                &&& info_ok(es, mode, f, infos@[j].0, &infos@[j].1)
            },
        decreases g_file.len() - g,
    {
        let ghost k = (g_file@[g as int]@, g_key@[g as int]@);
        let mut mem: Vec<usize> = Vec::new();
        let mut best: usize = 0;
        let mut first: Option<UtcNanos> = None;
        let mut p: usize = 0;
        while p < filtered_indices.len()
            invariant
                p <= f.len(),
                g < g_file.len(),
                f == filtered_indices@,
                es == entries@,
                k == (g_file@[g as int]@, g_key@[g as int]@),
                pos_gid.len() == f.len(),
                g_file.len() == g_key.len(),
                forall|a: int, b: int| 0 <= a < b < g_file.len() ==>
                    (#[trigger] g_file@[a]@, g_key@[a]@) != (#[trigger] g_file@[b]@, g_key@[b]@),
                forall|q: int| 0 <= q < f.len() ==> match #[trigger] pos_gid@[q] {
                    Some(gg) => f[q] < es.len() && gg < g_file.len() && (g_file@[gg as int]@, g_key@[gg as int]@) == dkey(es, mode, f[q]),
                    None => f[q] >= es.len(),
                },
                mem@ == members(es, mode, f.take(p as int), k),
                mem@.len() > 0 ==> best == latest(es, mem@),
                first == earliest_ts(es, mem@),
                mem@.len() <= p,
            decreases f.len() - p,
        {
            proof {
                assert(f.take(p + 1).drop_last() =~= f.take(p as int));
            }
            let ghost before = mem@;
            match pos_gid[p] {
                Some(gg) => {
                    if gg == g {
                        let idx = filtered_indices[p];
                        proof {
                            if before.len() > 0 {
                                lemma_members_valid(es, mode, f.take(p as int), k);
                                lemma_latest_member(es, before);
                            }
                        }
                        if mem.len() == 0 {
                            best = idx;
                        } else if not_later_exec(entries, best, idx) {
                            best = idx;
                        }
                        let ts = entries[idx].timestamp;
                        first = match (first, ts) {
                            (None, t) => t,
                            (Some(a), None) => Some(a),
                            (Some(a), Some(b)) => Some(if b < a { b } else { a }),
                        };
                        mem.push(idx);
                        proof {
                            assert(mem@.drop_last() =~= before);
                            if before.len() > 0 {
                                lemma_members_valid(es, mode, f.take(p as int), k);
                                lemma_latest_member(es, before);
                            }
                        }
                    } else {
                        proof {
                            if dkey(es, mode, f[p as int]) == k {
                                assert((g_file@[gg as int]@, g_key@[gg as int]@) == (g_file@[g as int]@, g_key@[g as int]@));
                                if gg < g {
                                } else {
                                }
                            }
                        }
                    }
                },
                None => {},
            }
            p += 1;
        }
        assert(f.take(f.len() as int) =~= f);
        proof {
            lemma_members_valid(es, mode, f, k);
            let q = g_first@[g as int] as int;
            assert(pos_gid@[q] == Some(g));
            lemma_members_contains(es, mode, f, k, q);
            lemma_latest_member(es, mem@);
        }
        let sorted = sort_by_time(entries, &mem);
        let info = DedupInfo { count: mem.len(), first_timestamp: first, all_indices: sorted };
        proof {
            let j = choose|j: int| 0 <= j < mem@.len() && mem@[j] == best;
            assert(mem@[j] == best);
        }
        infos.push((best, info));
        g_best.push(best);
        g += 1;
    }
    // Phase 3: surviving indices in filter order.
    let mut out: Vec<usize> = Vec::new();
    let mut p: usize = 0;
    while p < filtered_indices.len()
        invariant
            p <= f.len(),
            f == filtered_indices@,
            es == entries@,
            g_file.len() == g_key.len(),
            pos_gid.len() == f.len(),
            g_best.len() == g_file.len(),
            infos.len() == g_file.len(),
            forall|q: int| 0 <= q < f.len() ==> match #[trigger] pos_gid@[q] {
                Some(gg) => f[q] < es.len() && gg < g_file.len() && (g_file@[gg as int]@, g_key@[gg as int]@) == dkey(es, mode, f[q]),
                None => f[q] >= es.len(),
            },
            forall|j: int| 0 <= j < g_file.len() ==> {
                &&& (#[trigger] infos@[j]).0 == g_best@[j]
                &&& dkey(es, mode, g_best@[j]) == (g_file@[j]@, g_key@[j]@)
                &&& info_ok(es, mode, f, infos@[j].0, &infos@[j].1)
            },
            out@ == survivors(es, mode, f, f.take(p as int)),
        decreases f.len() - p,
    {
        proof {
            assert(f.take(p + 1).drop_last() =~= f.take(p as int));
        }
        match pos_gid[p] {
            Some(gg) => {
                let idx = filtered_indices[p];
                proof {
                    assert(infos@[gg as int].0 == g_best@[gg as int]);
                }
                if idx == g_best[gg] {
                    out.push(idx);
                }
            },
            None => {},
        }
        p += 1;
    }
    proof {
        assert forall|a: int, b: int| 0 <= a < b < infos@.len() implies
            dkey(es, mode, (#[trigger] infos@[a]).0) != dkey(es, mode, (#[trigger] infos@[b]).0) by {
            assert(infos@[a].0 == g_best@[a] && infos@[b].0 == g_best@[b]);
        }
        assert forall|q: int| 0 <= q < f.len() && #[trigger] f[q] < es.len() implies
            exists|j: int| 0 <= j < infos@.len() && dkey(es, mode, (#[trigger] infos@[j]).0) == dkey(es, mode, f[q]) by {
            let gg = pos_gid@[q]->Some_0;
            assert(infos@[gg as int].0 == g_best@[gg as int]);
        }
    }
    (out, infos)
}

fn find_group(g_file: &Vec<String>, g_key: &Vec<String>, file: &str, key: &str) -> (r: Option<usize>)
    requires
        g_file.len() == g_key.len(),
    ensures
        r matches Some(g) ==> g < g_file.len() && (g_file@[g as int]@, g_key@[g as int]@) == (file@, key@),
        r is None ==> forall|k: int| 0 <= k < g_file.len() ==> (#[trigger] g_file@[k]@, g_key@[k]@) != (file@, key@),
{
    let mut g: usize = 0;
    while g < g_file.len()
        invariant
            g <= g_file.len(),
            g_file.len() == g_key.len(),
            forall|k: int| 0 <= k < g ==> (#[trigger] g_file@[k]@, g_key@[k]@) != (file@, key@),
        decreases g_file.len() - g,
    {
        if crate::text::str_eq(g_file[g].as_str(), file) && crate::text::str_eq(g_key[g].as_str(), key) {
            return Some(g);
        }
        g += 1;
    }
    None
}

proof fn lemma_members_contains(es: Seq<LogEntry>, mode: DedupMode, f: Seq<usize>, k: (Seq<char>, Seq<char>), q: int)
    requires
        0 <= q < f.len(),
        f[q] < es.len(),
        dkey(es, mode, f[q]) == k,
    ensures
        members(es, mode, f, k).len() > 0,
    decreases f.len(),
{
    if q < f.len() - 1 {
        assert(f.drop_last()[q] == f[q]);
        lemma_members_contains(es, mode, f.drop_last(), k, q);
    }
}


// ---------------------------------------------------------------------------
// Laws
// ---------------------------------------------------------------------------

/// Every element is smaller than the next.
pub open spec fn strictly_increasing(s: Seq<usize>) -> bool {
    forall|a: int, b: int| 0 <= a < b < s.len() ==> #[trigger] s[a] < #[trigger] s[b]
}

proof fn lemma_passing_indices(entries: Seq<LogEntry>, f: &FilterState, tl: Seq<char>, xl: Seq<char>, n: nat)
    requires
        n <= entries.len() <= usize::MAX,
    ensures
        strictly_increasing(passing_indices(entries, f, tl, xl, n)),
        forall|j: int| 0 <= j < passing_indices(entries, f, tl, xl, n).len()
            ==> (#[trigger] passing_indices(entries, f, tl, xl, n)[j]) < n,
        forall|i: int| 0 <= i < n ==> (passing_indices(entries, f, tl, xl, n).contains(i as usize)
            <==> entry_passes(#[trigger] &entries[i], f, tl, xl)),
    decreases n,
{
    if n > 0 {
        let m = (n - 1) as nat;
        lemma_passing_indices(entries, f, tl, xl, m);
        let rest = passing_indices(entries, f, tl, xl, m);
        let cur = passing_indices(entries, f, tl, xl, n);
        assert forall|i: int| 0 <= i < n implies (cur.contains(i as usize)
            <==> entry_passes(#[trigger] &entries[i], f, tl, xl)) by {
            if entry_passes(&entries[m as int], f, tl, xl) {
                assert(cur == rest.push(m as usize));
                if i < m {
                    if cur.contains(i as usize) {
                        let j = choose|j: int| 0 <= j < cur.len() && cur[j] == i as usize;
                        if j < rest.len() {
                            assert(rest[j] == i as usize);
                        }
                    }
                    if rest.contains(i as usize) {
                        let j = choose|j: int| 0 <= j < rest.len() && rest[j] == i as usize;
                        assert(cur[j] == i as usize);
                    }
                } else {
                    assert(cur[rest.len() as int] == i as usize);
                }
            } else {
                if i == m {
                    if rest.contains(i as usize) {
                        let j = choose|j: int| 0 <= j < rest.len() && rest[j] == i as usize;
                        assert(rest[j] < m);
                    }
                }
            }
        }
    }
}

/// `apply_filters` keeps exactly the entries that pass every active filter
/// (every entry when no filter is active), each index once and in
/// increasing order.
pub proof fn law_filter_keeps_exactly_passing_entries(entries: Seq<LogEntry>, f: &FilterState)
    requires
        entries.len() <= usize::MAX,
    ensures
        strictly_increasing(filtered_indices(entries, f)),
        forall|j: int| 0 <= j < filtered_indices(entries, f).len()
            ==> (#[trigger] filtered_indices(entries, f)[j]) < entries.len(),
        forall|i: int|
            #![trigger entries[i]]
            #![trigger filtered_indices(entries, f).contains(i as usize)]
            0 <= i < entries.len() ==> (filtered_indices(entries, f).contains(i as usize)
            <==> (filter_is_empty(f) || entry_passes(&entries[i], f,
                spec_str_lower(f.text_search@), spec_str_lower(f.exclude_text@)))),
        filter_is_empty(f) ==> filtered_indices(entries, f) == all_indices(entries.len()),
{
    if filter_is_empty(f) {
        let a = all_indices(entries.len());
        assert forall|i: int| 0 <= i < entries.len() implies #[trigger] a.contains(i as usize) by {
            assert(a[i] == i as usize);
        }
    } else {
        lemma_passing_indices(entries, f, spec_str_lower(f.text_search@), spec_str_lower(f.exclude_text@), entries.len());
    }
}

/// `f2` is `f1` with exactly one more criterion switched on: hiding every
/// source, hiding entries without a timestamp, bookmarks only, a start or
/// an end time, a first severity, source file or component, a search text
/// or an exclude text.
pub open spec fn stricter_by_one(f1: &FilterState, f2: &FilterState) -> bool {
    ||| f1.text_search@.len() == 0 && f2.text_search@.len() > 0
        && *f2 == (FilterState { text_search: f2.text_search, ..*f1 })
    ||| f1.exclude_text@.len() == 0 && f2.exclude_text@.len() > 0
        && *f2 == (FilterState { exclude_text: f2.exclude_text, ..*f1 })
    ||| !f1.hide_all_sources && *f2 == (FilterState { hide_all_sources: true, ..*f1 })
    ||| !f1.hide_no_timestamp && *f2 == (FilterState { hide_no_timestamp: true, ..*f1 })
    ||| !f1.bookmarks_only && *f2 == (FilterState { bookmarks_only: true, ..*f1 })
    ||| f1.time_start is None && f2.time_start is Some && *f2 == (FilterState { time_start: f2.time_start, ..*f1 })
    ||| f1.time_end is None && f2.time_end is Some && *f2 == (FilterState { time_end: f2.time_end, ..*f1 })
    ||| f1.severity_levels@.len() == 0 && f2.severity_levels@.len() > 0
        && *f2 == (FilterState { severity_levels: f2.severity_levels, ..*f1 })
    ||| f1.source_files@.len() == 0 && f2.source_files@.len() > 0
        && *f2 == (FilterState { source_files: f2.source_files, ..*f1 })
    ||| f1.component_filter@.len() == 0 && f2.component_filter@.len() > 0
        && *f2 == (FilterState { component_filter: f2.component_filter, ..*f1 })
}

/// Filters combine by AND: switching on one more criterion never lets an
/// entry through that was hidden before; the stricter view lists a subset
/// of the entries of the looser one.
pub proof fn law_stricter_filter_shows_no_more(entries: Seq<LogEntry>, f1: &FilterState, f2: &FilterState)
    requires
        entries.len() <= usize::MAX,
        stricter_by_one(f1, f2),
    ensures
        forall|x: usize| filtered_indices(entries, f2).contains(x) ==> filtered_indices(entries, f1).contains(x),
{
    law_filter_keeps_exactly_passing_entries(entries, f1);
    law_filter_keeps_exactly_passing_entries(entries, f2);
    assert(!filter_is_empty(f2));
    let tl1 = spec_str_lower(f1.text_search@);
    let xl1 = spec_str_lower(f1.exclude_text@);
    let tl2 = spec_str_lower(f2.text_search@);
    let xl2 = spec_str_lower(f2.exclude_text@);
    assert forall|x: usize| filtered_indices(entries, f2).contains(x) implies filtered_indices(entries, f1).contains(x) by {
        let v = filtered_indices(entries, f2);
        let j = choose|j: int| 0 <= j < v.len() && v[j] == x;
        assert((v[j] as int) < entries.len());
        let i = x as int;
        assert(entry_passes(&entries[i], f2, tl2, xl2));
        assert(entry_passes(&entries[i], f1, tl1, xl1));
    }
}

/// The two lists hold the same values (in any order, any number of times).
pub open spec fn same_members<T>(a: Seq<T>, b: Seq<T>) -> bool {
    forall|x: T| a.contains(x) <==> b.contains(x)
}

/// `f2` is `f1` with its severity, source file, component and bookmarked-ID
/// lists replaced by lists of the same values.
pub open spec fn same_filter_sets(f1: &FilterState, f2: &FilterState) -> bool {
    &&& same_members(f1.severity_levels@, f2.severity_levels@)
    &&& same_members(string_views(f1.source_files@), string_views(f2.source_files@))
    &&& same_members(string_views(f1.component_filter@), string_views(f2.component_filter@))
    &&& same_members(f1.bookmarked_ids@, f2.bookmarked_ids@)
    &&& *f2 == (FilterState {
        severity_levels: f2.severity_levels,
        source_files: f2.source_files,
        component_filter: f2.component_filter,
        bookmarked_ids: f2.bookmarked_ids,
        ..*f1
    })
}

proof fn lemma_same_members_empty<T>(a: Seq<T>, b: Seq<T>)
    requires
        same_members(a, b),
    ensures
        (a.len() == 0) == (b.len() == 0),
{
    if a.len() > 0 {
        assert(a.contains(a[0]));
    }
    if b.len() > 0 {
        assert(b.contains(b[0]));
    }
}

proof fn lemma_passing_same_sets(entries: Seq<LogEntry>, f1: &FilterState, f2: &FilterState, tl: Seq<char>, xl: Seq<char>, n: nat)
    requires
        n <= entries.len(),
        forall|i: int| 0 <= i < n ==> entry_passes(#[trigger] &entries[i], f1, tl, xl) == entry_passes(&entries[i], f2, tl, xl),
    ensures
        passing_indices(entries, f1, tl, xl, n) == passing_indices(entries, f2, tl, xl, n),
    decreases n,
{
    if n > 0 {
        lemma_passing_same_sets(entries, f1, f2, tl, xl, (n - 1) as nat);
        assert(entry_passes(&entries[n - 1], f1, tl, xl) == entry_passes(&entries[n - 1], f2, tl, xl));
    }
}

/// The severity, source file, component and bookmarked-ID lists are read
/// as sets: lists with the same values, in any order and with repeats, give
/// the same view.
pub proof fn law_filter_lists_act_as_sets(entries: Seq<LogEntry>, f1: &FilterState, f2: &FilterState)
    requires
        same_filter_sets(f1, f2),
    ensures
        filtered_indices(entries, f1) == filtered_indices(entries, f2),
{
    lemma_same_members_empty(f1.severity_levels@, f2.severity_levels@);
    lemma_same_members_empty(string_views(f1.source_files@), string_views(f2.source_files@));
    lemma_same_members_empty(string_views(f1.component_filter@), string_views(f2.component_filter@));
    assert(f1.source_files@.len() == string_views(f1.source_files@).len());
    assert(f2.source_files@.len() == string_views(f2.source_files@).len());
    assert(f1.component_filter@.len() == string_views(f1.component_filter@).len());
    assert(f2.component_filter@.len() == string_views(f2.component_filter@).len());
    assert(filter_is_empty(f1) == filter_is_empty(f2));
    let tl = spec_str_lower(f1.text_search@);
    let xl = spec_str_lower(f1.exclude_text@);
    assert(f2.text_search == f1.text_search && f2.exclude_text == f1.exclude_text);
    lemma_passing_same_sets(entries, f1, f2, tl, xl, entries.len());
}

/// The text search looks at the message, the thread and the component: an
/// entry in any of whose fields the (lowercased) search text occurs, as a
/// substring (or, with fuzzy search, as a subsequence), meets the text
/// criterion, so it passes exactly as it would with no search text.  The exclusion text likewise looks at all three: an
/// entry with it in any of them is hidden.
pub proof fn law_text_criteria_read_every_field(e: &LogEntry, f: &FilterState, tl: Seq<char>, xl: Seq<char>)
    ensures
        !f.fuzzy && (ci_contains(e.message@, tl)
            || (e.thread matches Some(t) && ci_contains(t@, tl))
            || (e.component matches Some(c) && ci_contains(c@, tl)))
            ==> (entry_passes(e, f, tl, xl) == entry_passes(e, f, Seq::empty(), xl)),
        f.fuzzy && (fuzzy_spec(tl, e.message@)
            || (e.thread matches Some(t) && fuzzy_spec(tl, t@))
            || (e.component matches Some(c) && fuzzy_spec(tl, c@)))
            ==> (entry_passes(e, f, tl, xl) == entry_passes(e, f, Seq::empty(), xl)),
        xl.len() > 0 && (ci_contains(e.message@, xl)
            || (e.thread matches Some(t) && ci_contains(t@, xl))
            || (e.component matches Some(c) && ci_contains(c@, xl)))
            ==> !entry_passes(e, f, tl, xl),
{
}

proof fn lemma_members_in(es: Seq<LogEntry>, mode: DedupMode, f: Seq<usize>, k: (Seq<char>, Seq<char>))
    ensures
        forall|j: int| 0 <= j < members(es, mode, f, k).len() ==> f.contains(#[trigger] members(es, mode, f, k)[j]),
    decreases f.len(),
{
    if f.len() > 0 {
        lemma_members_in(es, mode, f.drop_last(), k);
        let r = members(es, mode, f.drop_last(), k);
        let m = members(es, mode, f, k);
        assert forall|j: int| 0 <= j < m.len() implies f.contains(#[trigger] m[j]) by {
            if j < r.len() {
                assert(m[j] == r[j]);
                let q = choose|q: int| 0 <= q < f.drop_last().len() && f.drop_last()[q] == r[j];
                assert(f[q] == r[j]);
            } else {
                assert(f[f.len() - 1] == m[j]);
            }
        }
    }
}

/// A position of `p` whose index is the latest of its group.
pub open spec fn is_group_latest(es: Seq<LogEntry>, mode: DedupMode, f: Seq<usize>, i: usize) -> bool {
    i < es.len() && i == latest(es, members(es, mode, f, dkey(es, mode, i)))
}

proof fn lemma_survivors(es: Seq<LogEntry>, mode: DedupMode, f: Seq<usize>, p: Seq<usize>)
    ensures
        forall|j: int| 0 <= j < survivors(es, mode, f, p).len() ==>
            p.contains(#[trigger] survivors(es, mode, f, p)[j])
            && is_group_latest(es, mode, f, survivors(es, mode, f, p)[j]),
        forall|q: int| 0 <= q < p.len() && is_group_latest(es, mode, f, #[trigger] p[q]) ==>
            survivors(es, mode, f, p).contains(p[q]),
        strictly_increasing(p) ==> strictly_increasing(survivors(es, mode, f, p)),
    decreases p.len(),
{
    if p.len() > 0 {
        let pd = p.drop_last();
        lemma_survivors(es, mode, f, pd);
        let r = survivors(es, mode, f, pd);
        let s = survivors(es, mode, f, p);
        let i = p.last();
        assert forall|j: int| 0 <= j < s.len() implies p.contains(#[trigger] s[j])
            && is_group_latest(es, mode, f, s[j]) by {
            if j < r.len() {
                assert(s[j] == r[j]);
                let q = choose|q: int| 0 <= q < pd.len() && pd[q] == r[j];
                assert(p[q] == r[j]);
            } else {
                assert(p[p.len() - 1] == s[j]);
            }
        }
        assert forall|q: int| 0 <= q < p.len() && is_group_latest(es, mode, f, #[trigger] p[q]) implies
            s.contains(p[q]) by {
            if q < pd.len() {
                assert(pd[q] == p[q]);
                assert(r.contains(pd[q]));
                let j = choose|j: int| 0 <= j < r.len() && r[j] == pd[q];
                assert(s[j] == r[j]);
            } else {
                assert(s[s.len() - 1] == i);
            }
        }
        if strictly_increasing(p) {
            assert(strictly_increasing(pd)) by {
                assert forall|a: int, b: int| 0 <= a < b < pd.len() implies #[trigger] pd[a] < #[trigger] pd[b] by {
                    assert(pd[a] == p[a] && pd[b] == p[b]);
                }
            }
            assert forall|a: int, b: int| 0 <= a < b < s.len() implies #[trigger] s[a] < #[trigger] s[b] by {
                if b < r.len() {
                    assert(s[a] == r[a] && s[b] == r[b]);
                } else {
                    assert(s[a] == r[a]);
                    let q = choose|q: int| 0 <= q < pd.len() && pd[q] == r[a];
                    assert(p[q] == r[a]);
                    assert(s[b] == p[p.len() - 1]);
                }
            }
        }
    }
}

proof fn lemma_survivors_filter(es: Seq<LogEntry>, mode: DedupMode, f: Seq<usize>, p: Seq<usize>)
    ensures
        survivors(es, mode, f, p) == p.filter(|i: usize| is_group_latest(es, mode, f, i)),
        p.no_duplicates() ==> survivors(es, mode, f, p).no_duplicates(),
    decreases p.len(),
{
    reveal_with_fuel(Seq::filter, 1);
    if p.len() > 0 {
        let pd = p.drop_last();
        lemma_survivors_filter(es, mode, f, pd);
        lemma_survivors(es, mode, f, pd);
        if p.no_duplicates() {
            let r = survivors(es, mode, f, pd);
            assert(pd.no_duplicates()) by {
                assert forall|a: int, b: int| 0 <= a < pd.len() && 0 <= b < pd.len() && a != b implies pd[a] != pd[b] by {
                    assert(pd[a] == p[a] && pd[b] == p[b]);
                }
            }
            let i = p.last();
            assert forall|j: int| 0 <= j < r.len() implies #[trigger] r[j] != i by {
                let q = choose|q: int| 0 <= q < pd.len() && pd[q] == r[j];
                assert(p[q] == r[j]);
                assert(p[p.len() - 1] == i);
            }
            let s = survivors(es, mode, f, p);
            assert forall|a: int, b: int| 0 <= a < s.len() && 0 <= b < s.len() && a != b implies s[a] != s[b] by {
                if a < r.len() && b < r.len() {
                    assert(s[a] == r[a] && s[b] == r[b]);
                } else if a < r.len() {
                    assert(s[a] == r[a]);
                } else if b < r.len() {
                    assert(s[b] == r[b]);
                }
            }
        }
    }
}

/// Deduplication over distinct filtered indices in any order: the
/// survivors are exactly the filtered indices that are the latest entry of
/// their group of equal source file and message key, in the filtered order;
/// no two survivors share a key, and every group met among the filtered
/// indices keeps its latest entry.
pub proof fn law_dedup_keeps_latest_in_any_order(es: Seq<LogEntry>, mode: DedupMode, f: Seq<usize>)
    requires
        f.no_duplicates(),
    ensures
        survivors(es, mode, f, f) == f.filter(|i: usize| is_group_latest(es, mode, f, i)),
        survivors(es, mode, f, f).no_duplicates(),
        forall|a: int, b: int| 0 <= a < b < survivors(es, mode, f, f).len() ==>
            dkey(es, mode, #[trigger] survivors(es, mode, f, f)[a]) != dkey(es, mode, #[trigger] survivors(es, mode, f, f)[b]),
        forall|q: int| 0 <= q < f.len() && #[trigger] f[q] < es.len() ==>
            exists|j: int| 0 <= j < survivors(es, mode, f, f).len()
                && dkey(es, mode, #[trigger] survivors(es, mode, f, f)[j]) == dkey(es, mode, f[q]),
{
    lemma_survivors_filter(es, mode, f, f);
    lemma_survivors(es, mode, f, f);
    let s = survivors(es, mode, f, f);
    assert forall|a: int, b: int| 0 <= a < b < s.len() implies
        dkey(es, mode, #[trigger] s[a]) != dkey(es, mode, #[trigger] s[b]) by {
        assert(is_group_latest(es, mode, f, s[a]));
        assert(is_group_latest(es, mode, f, s[b]));
    }
    assert forall|q: int| 0 <= q < f.len() && #[trigger] f[q] < es.len() implies
        exists|j: int| 0 <= j < s.len() && dkey(es, mode, #[trigger] s[j]) == dkey(es, mode, f[q]) by {
        let k = dkey(es, mode, f[q]);
        let g = members(es, mode, f, k);
        lemma_members_contains(es, mode, f, k, q);
        lemma_latest_member(es, g);
        lemma_members_valid(es, mode, f, k);
        lemma_members_in(es, mode, f, k);
        let l = latest(es, g);
        let gi = choose|gi: int| 0 <= gi < g.len() && g[gi] == l;
        assert(g[gi] < es.len() && dkey(es, mode, g[gi]) == k);
        assert(f.contains(g[gi]));
        let fq = choose|fq: int| 0 <= fq < f.len() && f[fq] == l;
        assert(is_group_latest(es, mode, f, f[fq]));
        assert(s.contains(f[fq]));
        let j = choose|j: int| 0 <= j < s.len() && s[j] == f[fq];
        assert(dkey(es, mode, s[j]) == k);
    }
}

/// Deduplication keeps, of the filtered indices (distinct and increasing, as
/// `apply_filters` returns them), exactly one entry per group of equal source
/// file and message key: the group's latest entry.  The survivors keep the
/// filter order.
pub proof fn law_dedup_keeps_latest_of_each_group(es: Seq<LogEntry>, mode: DedupMode, f: Seq<usize>)
    requires
        strictly_increasing(f),
    ensures
        strictly_increasing(survivors(es, mode, f, f)),
        forall|j: int| 0 <= j < survivors(es, mode, f, f).len() ==>
            f.contains(#[trigger] survivors(es, mode, f, f)[j])
            && is_group_latest(es, mode, f, survivors(es, mode, f, f)[j]),
        forall|a: int, b: int| 0 <= a < b < survivors(es, mode, f, f).len() ==>
            dkey(es, mode, #[trigger] survivors(es, mode, f, f)[a]) != dkey(es, mode, #[trigger] survivors(es, mode, f, f)[b]),
        forall|q: int| 0 <= q < f.len() && #[trigger] f[q] < es.len() ==>
            exists|j: int| 0 <= j < survivors(es, mode, f, f).len()
                && dkey(es, mode, #[trigger] survivors(es, mode, f, f)[j]) == dkey(es, mode, f[q]),
{
    lemma_survivors(es, mode, f, f);
    let s = survivors(es, mode, f, f);
    assert forall|a: int, b: int| 0 <= a < b < s.len() implies
        dkey(es, mode, #[trigger] s[a]) != dkey(es, mode, #[trigger] s[b]) by {
        assert(s[a] < s[b]);
        assert(is_group_latest(es, mode, f, s[a]));
        assert(is_group_latest(es, mode, f, s[b]));
    }
    assert forall|q: int| 0 <= q < f.len() && #[trigger] f[q] < es.len() implies
        exists|j: int| 0 <= j < s.len() && dkey(es, mode, #[trigger] s[j]) == dkey(es, mode, f[q]) by {
        let k = dkey(es, mode, f[q]);
        let g = members(es, mode, f, k);
        lemma_members_contains(es, mode, f, k, q);
        lemma_latest_member(es, g);
        lemma_members_valid(es, mode, f, k);
        lemma_members_in(es, mode, f, k);
        let l = latest(es, g);
        let gi = choose|gi: int| 0 <= gi < g.len() && g[gi] == l;
        assert(g[gi] < es.len() && dkey(es, mode, g[gi]) == k);
        assert(f.contains(g[gi]));
        let fq = choose|fq: int| 0 <= fq < f.len() && f[fq] == l;
        assert(is_group_latest(es, mode, f, f[fq]));
        assert(s.contains(f[fq]));
        let j = choose|j: int| 0 <= j < s.len() && s[j] == f[fq];
        assert(dkey(es, mode, s[j]) == k);
    }
}

/// The characters of `q` occur in order in the lowercase form of `t`, at
/// the increasing positions `m(0), m(1), ...`.
pub open spec fn in_order_at(q: Seq<char>, t: Seq<char>, m: spec_fn(int) -> int) -> bool {
    &&& forall|k: int| 0 <= k < q.len() ==> 0 <= #[trigger] m(k) < t.len() && spec_char_lower(t[m(k)]) == q[k]
    &&& forall|a: int, b: int| 0 <= a < b < q.len() ==> #[trigger] m(a) < #[trigger] m(b)
}

proof fn lemma_fuzzy_complete(q: Seq<char>, t: Seq<char>, m: spec_fn(int) -> int)
    requires
        in_order_at(q, t, m),
    ensures
        fuzzy_spec(q, t),
    decreases q.len() + t.len(),
{
    if q.len() > 0 {
        assert(0 <= m(0) < t.len());
        if spec_char_lower(t[0]) == q[0] {
            let m2 = |k: int| m(k + 1) - 1;
            assert forall|k: int| 0 <= k < q.drop_first().len() implies 0 <= #[trigger] m2(k) < t.drop_first().len()
                && spec_char_lower(t.drop_first()[m2(k)]) == q.drop_first()[k] by {
                assert(m(0) < m(k + 1));
                assert(t.drop_first()[m2(k)] == t[m(k + 1)]);
            }
            assert forall|a: int, b: int| 0 <= a < b < q.drop_first().len() implies #[trigger] m2(a) < #[trigger] m2(b) by {
                assert(m(a + 1) < m(b + 1));
            }
            lemma_fuzzy_complete(q.drop_first(), t.drop_first(), m2);
        } else {
            let m2 = |k: int| m(k) - 1;
            assert(m(0) != 0);
            assert forall|k: int| 0 <= k < q.len() implies 0 <= #[trigger] m2(k) < t.drop_first().len()
                && spec_char_lower(t.drop_first()[m2(k)]) == q[k] by {
                if k > 0 {
                    assert(m(0) < m(k));
                }
                assert(t.drop_first()[m2(k)] == t[m(k)]);
            }
            assert forall|a: int, b: int| 0 <= a < b < q.len() implies #[trigger] m2(a) < #[trigger] m2(b) by {
                assert(m(a) < m(b));
            }
            lemma_fuzzy_complete(q, t.drop_first(), m2);
        }
    }
}

proof fn lemma_fuzzy_sound(q: Seq<char>, t: Seq<char>) -> (m: spec_fn(int) -> int)
    requires
        fuzzy_spec(q, t),
    ensures
        in_order_at(q, t, m),
    decreases q.len() + t.len(),
{
    if q.len() == 0 {
        |k: int| 0int
    } else if spec_char_lower(t[0]) == q[0] {
        let m2 = lemma_fuzzy_sound(q.drop_first(), t.drop_first());
        let m = |k: int| if k == 0 { 0int } else { m2(k - 1) + 1 };
        assert forall|k: int| 0 <= k < q.len() implies 0 <= #[trigger] m(k) < t.len()
            && spec_char_lower(t[m(k)]) == q[k] by {
            if k > 0 {
                assert(m2(k - 1) < t.drop_first().len());
                assert(t[m(k)] == t.drop_first()[m2(k - 1)]);
                assert(q[k] == q.drop_first()[k - 1]);
            }
        }
        assert forall|a: int, b: int| 0 <= a < b < q.len() implies #[trigger] m(a) < #[trigger] m(b) by {
            if a > 0 {
                assert(m2(a - 1) < m2(b - 1));
            } else {
                assert(0 <= m2(b - 1));
            }
        }
        m
    } else {
        let m2 = lemma_fuzzy_sound(q, t.drop_first());
        let m = |k: int| m2(k) + 1;
        assert forall|k: int| 0 <= k < q.len() implies 0 <= #[trigger] m(k) < t.len()
            && spec_char_lower(t[m(k)]) == q[k] by {
            assert(t[m(k)] == t.drop_first()[m2(k)]);
        }
        assert forall|a: int, b: int| 0 <= a < b < q.len() implies #[trigger] m(a) < #[trigger] m(b) by {
            assert(m2(a) < m2(b));
        }
        m
    }
}

/// A fuzzy query matches exactly when its characters occur, in order
/// though not necessarily adjacent, in the lowercase form of the text.
pub proof fn law_fuzzy_is_ordered_subsequence(q: Seq<char>, t: Seq<char>)
    ensures
        fuzzy_spec(q, t) <==> exists|m: spec_fn(int) -> int| in_order_at(q, t, m),
{
    if fuzzy_spec(q, t) {
        let m = lemma_fuzzy_sound(q, t);
        assert(in_order_at(q, t, m));
    }
    if exists|m: spec_fn(int) -> int| in_order_at(q, t, m) {
        let m = choose|m: spec_fn(int) -> int| in_order_at(q, t, m);
        lemma_fuzzy_complete(q, t, m);
    }
}

/// A lowercase query that occurs as one piece in the lowercase text is also a
/// fuzzy match; the empty query matches every text.
pub proof fn law_fuzzy_accepts_substrings(q: Seq<char>, t: Seq<char>, start: int)
    requires
        0 <= start,
        start + q.len() <= t.len(),
        forall|k: int| 0 <= k < q.len() ==> spec_char_lower(#[trigger] t[start + k]) == q[k],
    ensures
        fuzzy_spec(q, t),
        fuzzy_spec(Seq::empty(), t),
{
    let m = |k: int| start + k;
    assert forall|k: int| 0 <= k < q.len() implies 0 <= #[trigger] m(k) < t.len()
        && spec_char_lower(t[m(k)]) == q[k] by {
        assert(spec_char_lower(t[start + k]) == q[k]);
    }
    lemma_fuzzy_complete(q, t, m);
}

} // verus!
