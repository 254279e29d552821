//! Plain-text reports copied to the clipboard: the multi-selected entries,
//! the filtered entries with a description of the filter, and the
//! bookmarked entries.
use vstd::prelude::*;
use crate::text::string_views;
use crate::filter::FilterState;
use crate::model::{LogEntry, Severity, UtcNanos, severity_label_spec, timestamp_parts};
use crate::pattern::opt_view;
use crate::state::{AppState, MAX_CLIPBOARD_ENTRIES};
use crate::text::{chars_of, decimal, file_name, file_name_spec, push_chars, push_decimal, push_str};

verus! {

/// `chrono::DateTime::<Utc>::from_timestamp(secs, nanos)` formatted with
/// the report stamp format `%Y-%m-%d %H:%M:%S UTC` ;
/// `None` when chrono cannot represent the instant.
pub uninterp spec fn spec_format_utc(secs: int, nanos: int) -> Option<Seq<char>>;

/// Wraps `DateTime::<Utc>::from_timestamp(secs, nanos)` and
/// `format("%Y-%m-%d %H:%M:%S UTC")`, a format whose specifiers are all
/// valid, so the formatting cannot fail.  The text is named by
/// `spec_format_utc`.
#[verifier::external_body]
fn format_utc(secs: i64, nanos: u32) -> (r: Option<String>)
    ensures
        opt_view(r) == spec_format_utc(secs as int, nanos as int),
{
    chrono::DateTime::<chrono::Utc>::from_timestamp(secs, nanos).map(|d| d.format("%Y-%m-%d %H:%M:%S UTC").to_string())
}

/// A report stamp: the stamp format of some instant chrono represents.
pub open spec fn is_stamp(g: Seq<char>) -> bool {
    exists|secs: int, nanos: int| 0 <= nanos < 1_000_000_000 && spec_format_utc(secs, nanos) == Some(g)
}

/// Wraps `chrono::Utc::now().format("%Y-%m-%d %H:%M:%S UTC")`.  Which
/// instant depends on the clock; `Utc::now` builds it with
/// `from_timestamp(secs, nanos).unwrap()` from the system time, the
/// nanoseconds below a second, so the text is the stamp format of that
/// instant.
#[verifier::external_body]
pub fn now_stamp() -> (r: String)
    ensures
        is_stamp(r@),
{
    chrono::Utc::now().format("%Y-%m-%d %H:%M:%S UTC").to_string()
}

/// A report timestamp, or `none` without one (or when chrono cannot show
/// it).
pub open spec fn stamp_of(t: Option<UtcNanos>, none: Seq<char>) -> Seq<char> {
    match t {
        None => none,
        Some(x) => {
            let n = x as int;
            let secs = n / 1_000_000_000;
            if i64::MIN <= secs <= i64::MAX {
                match spec_format_utc(secs, n % 1_000_000_000) {
                    Some(s) => s,
                    None => none,
                }
            } else {
                none
            }
        },
    }
}

fn stamp_exec(t: Option<UtcNanos>, none: &str) -> (r: String)
    ensures
        r@ == stamp_of(t, none@),
{
    match t {
        None => none.to_string(),
        Some(x) => {
            let (s, ns) = timestamp_parts(x);
            proof {
                assert(s == x / 1_000_000_000 && ns == x % 1_000_000_000) by (nonlinear_arith)
                    requires
                        s * 1_000_000_000 + ns == x,
                        0 <= ns < 1_000_000_000;
            }
            if s < i64::MIN as i128 || s > i64::MAX as i128 {
                return none.to_string();
            }
            match format_utc(s as i64, ns) {
                Some(text) => text,
                None => none.to_string(),
            }
        },
    }
}

/// `s` padded with spaces to at least `w` characters.
pub open spec fn pad_to(s: Seq<char>, w: nat) -> Seq<char> {
    if s.len() >= w { s } else { s + Seq::new((w - s.len()) as nat, |i: int| ' ') }
}

fn push_padded(out: &mut String, s: &str, w: usize)
    ensures
        final(out)@ == old(out)@ + pad_to(s@, w as nat),
{
    let ghost o = out@;
    push_str(out, s);
    let n = chars_of(s).len();
    let mut k = n;
    while k < w
        invariant
            n == s@.len(),
            n <= k <= w || (k == n && n >= w),
            out@ == o + s@ + Seq::new((k - n) as nat, |i: int| ' '),
        decreases w - k,
    {
        out.push(' ');
        assert(out@ =~= o + s@ + Seq::new((k + 1 - n) as nat, |i: int| ' '));
        k += 1;
    }
    proof {
        if n >= w {
            assert(out@ =~= o + s@);
        } else {
            assert(out@ =~= o + pad_to(s@, w as nat));
        }
    }
}

/// The first `n` characters.
pub open spec fn first_chars(s: Seq<char>, n: nat) -> Seq<char> {
    if s.len() <= n { s } else { s.take(n as int) }
}

fn push_first_chars(out: &mut String, s: &str, n: usize)
    ensures
        final(out)@ == old(out)@ + first_chars(s@, n as nat),
{
    let v = chars_of(s);
    if v.len() <= n {
        push_str(out, s);
    } else {
        let p = crate::text::slice_vec(&v, 0, n);
        push_chars(out, &p);
        assert(v@.subrange(0, n as int) =~= v@.take(n as int));
    }
}

/// The file name of a path, `?` when it has none.
pub open spec fn short_name(path: Seq<char>) -> Seq<char> {
    match file_name_spec(path) {
        Some(n) => n,
        None => "?"@,
    }
}

fn short_name_exec(path: &str) -> (r: String)
    ensures
        r@ == short_name(path@),
{
    match file_name(path) {
        Some(n) => n,
        None => "?".to_string(),
    }
}

/// Concatenation of texts.
pub open spec fn concat(v: Seq<Seq<char>>) -> Seq<char>
    decreases v.len(),
{
    if v.len() == 0 { Seq::empty() } else { concat(v.drop_last()) + v.last() }
}

/// Truncation notice when only `take` of `total` entries are shown.
pub open spec fn truncation_notice(take: nat, total: nat) -> Seq<char> {
    "--- truncated: "@ + decimal(take) + " of "@ + decimal(total) + " entries shown (limit: "@
        + decimal(MAX_CLIPBOARD_ENTRIES as nat) + ") ---\n"@
}

fn push_truncation_notice(out: &mut String, take: usize, total: usize)
    ensures
        final(out)@ == old(out)@ + truncation_notice(take as nat, total as nat),
{
    push_str(out, "--- truncated: ");
    push_decimal(out, take as u64);
    push_str(out, " of ");
    push_decimal(out, total as u64);
    push_str(out, " entries shown (limit: ");
    push_decimal(out, MAX_CLIPBOARD_ENTRIES as u64);
    push_str(out, ") ---\n");
    proof {
        reveal_strlit("--- truncated: ");
        reveal_strlit(" of ");
        reveal_strlit(" entries shown (limit: ");
        reveal_strlit(") ---\n");
    }
}

/// The raw text of the entry at view position `pos`, followed by a newline;
/// nothing when the position or the entry does not exist.
pub open spec fn selected_line(s: &AppState, pos: usize) -> Seq<char> {
    if pos < s.filtered_indices@.len() && s.filtered_indices@[pos as int] < s.entries@.len() {
        s.entries@[s.filtered_indices@[pos as int] as int].raw_text@ + seq!['\n']
    } else {
        Seq::empty()
    }
}

/// At most this many of the items.
pub open spec fn capped<A>(v: Seq<A>) -> Seq<A> {
    if v.len() <= MAX_CLIPBOARD_ENTRIES { v } else { v.take(MAX_CLIPBOARD_ENTRIES as int) }
}

/// The multi-selection report: the raw text of each selected entry on its
/// own line (at most the clipboard limit, with a notice when cut).
pub open spec fn selected_report_spec(s: &AppState) -> Seq<char> {
    let sel = s.selected_indices@;
    let body = concat(capped(sel).map_values(|p: usize| selected_line(s, p)));
    if sel.len() > MAX_CLIPBOARD_ENTRIES {
        body + truncation_notice(MAX_CLIPBOARD_ENTRIES as nat, sel.len())
    } else {
        body
    }
}

impl AppState {
    /// The raw text of the multi-selected entries, one per line.
    pub fn selected_entries_report(&self) -> (r: String)
        ensures
            r@ == selected_report_spec(self),
    {
        let total = self.selected_indices.len();
        let take = if total < MAX_CLIPBOARD_ENTRIES { total } else { MAX_CLIPBOARD_ENTRIES };
        let ghost lines = capped(self.selected_indices@).map_values(|p: usize| selected_line(self, p));
        assert(capped(self.selected_indices@) =~= self.selected_indices@.take(take as int));
        let mut out = String::new();
        let mut i: usize = 0;
        while i < take
            invariant
                i <= take <= self.selected_indices.len(),
                take as int == capped(self.selected_indices@).len(),
                lines == capped(self.selected_indices@).map_values(|p: usize| selected_line(self, p)),
                capped(self.selected_indices@) == self.selected_indices@.take(take as int),
                out@ == concat(lines.take(i as int)),
            decreases take - i,
        {
            let idx = self.selected_indices[i];
            let ghost before = out@;
            if idx < self.filtered_indices.len() {
                let e = self.filtered_indices[idx];
                if e < self.entries.len() {
                    push_str(&mut out, self.entries[e].raw_text.as_str());
                    out.push('\n');
                }
            }
            assert(lines[i as int] == selected_line(self, idx));
            assert(lines.take(i + 1).drop_last() =~= lines.take(i as int));
            assert(out@ =~= before + selected_line(self, idx));
            i += 1;
        }
        assert(lines.take(take as int) =~= lines);
        if take < total {
            push_truncation_notice(&mut out, take, total);
        }
        out
    }
}


// ---------------------------------------------------------------------------
// Filtered results
// ---------------------------------------------------------------------------

/// `prefix` and a span of seconds in seconds, minutes or hours (whole units,
/// rounded down).
pub open spec fn span_text(prefix: Seq<char>, secs: u64) -> Seq<char> {
    if secs < 60 {
        prefix + decimal(secs as nat) + "s"@
    } else if secs < 3600 {
        prefix + decimal((secs / 60) as nat) + "m"@
    } else {
        prefix + decimal((secs / 3600) as nat) + "h"@
    }
}

fn span_exec(prefix: &str, secs: u64) -> (r: String)
    ensures
        r@ == span_text(prefix@, secs),
{
    let mut out = String::new();
    push_str(&mut out, prefix);
    proof {
        reveal_strlit("s");
        reveal_strlit("m");
        reveal_strlit("h");
    }
    if secs < 60 {
        push_decimal(&mut out, secs);
        push_str(&mut out, "s");
    } else if secs < 3600 {
        push_decimal(&mut out, secs / 60);
        push_str(&mut out, "m");
    } else {
        push_decimal(&mut out, secs / 3600);
        push_str(&mut out, "h");
    }
    out
}

/// Severity labels in alphabetical order.
pub open spec fn labels_by_name() -> Seq<Severity> {
    seq![Severity::Critical, Severity::Debug, Severity::Error, Severity::Info, Severity::Unknown, Severity::Warning]
}

/// The labels of the selected severities, alphabetically.
pub open spec fn selected_labels(levels: Seq<Severity>) -> Seq<Seq<char>> {
    labels_by_name().filter(|s: Severity| levels.contains(s)).map_values(|s: Severity| severity_label_spec(s))
}

/// `[x]` when `b`, nothing otherwise.
pub open spec fn part_if(b: bool, x: Seq<char>) -> Seq<Seq<char>> {
    if b { seq![x] } else { Seq::empty() }
}

pub open spec fn sev_part(fs: &FilterState) -> Seq<Seq<char>> {
    part_if(fs.severity_levels@.len() > 0, "Severity: "@ + crate::evtx::join_with(selected_labels(fs.severity_levels@), "+"@))
}

pub open spec fn time_part(fs: &FilterState) -> Seq<Seq<char>> {
    match fs.relative_time_secs {
        Some(secs) => seq![span_text("Last "@, secs)],
        None => part_if(fs.time_start is Some || fs.time_end is Some, "Time range active"@),
    }
}

pub open spec fn text_part(fs: &FilterState) -> Seq<Seq<char>> {
    part_if(fs.text_search@.len() > 0, "Text: \""@ + fs.text_search@ + "\""@)
}

pub open spec fn regex_part(fs: &FilterState) -> Seq<Seq<char>> {
    part_if(fs.regex_search is Some, "Regex: /"@ + fs.regex_pattern@ + "/"@)
}

pub open spec fn files_part(fs: &FilterState) -> Seq<Seq<char>> {
    if fs.hide_all_sources {
        seq!["Files: none (all hidden)"@]
    } else {
        part_if(fs.source_files@.len() > 0, "Files: "@ + decimal(fs.source_files@.len()) + " selected"@)
    }
}

pub open spec fn activity_part(activity: Option<u64>) -> Seq<Seq<char>> {
    match activity {
        Some(secs) => seq![span_text("Activity window: "@, secs)],
        None => Seq::empty(),
    }
}

/// The pieces of the filter description, in order.
pub open spec fn filter_parts(fs: &FilterState, activity: Option<u64>) -> Seq<Seq<char>> {
    sev_part(fs) + time_part(fs) + text_part(fs) + regex_part(fs) + files_part(fs)
        + part_if(fs.bookmarks_only, "Bookmarks only"@) + activity_part(activity)
}

pub open spec fn opt_part(o: Option<String>) -> Seq<Seq<char>> {
    match o {
        Some(x) => seq![x@],
        None => Seq::empty(),
    }
}

fn push_opt_part(parts: &mut Vec<String>, o: Option<String>)
    ensures
        crate::text::string_views(final(parts)@) == crate::text::string_views(old(parts)@) + opt_part(o),
{
    let ghost before = crate::text::string_views(parts@);
    match o {
        Some(x) => {
            parts.push(x);
            assert(crate::text::string_views(parts@) =~= before + opt_part(Some(x)));
        },
        None => {
            assert(before + Seq::<Seq<char>>::empty() =~= before);
        },
    }
}

fn sev_part_exec(fs: &FilterState) -> (r: Option<String>)
    ensures
        opt_part(r) == sev_part(fs),
{
    if fs.severity_levels.len() == 0 {
        return None;
    }
    let labels = severity_labels(&fs.severity_levels);
    let mut t = String::new();
    push_str(&mut t, "Severity: ");
    let j = crate::evtx::join_strings(&labels, "+");
    push_str(&mut t, j.as_str());
    proof {
        reveal_strlit("Severity: ");
        reveal_strlit("+");
    }
    Some(t)
}

fn time_part_exec(fs: &FilterState) -> (r: Option<String>)
    ensures
        opt_part(r) == time_part(fs),
{
    proof {
        reveal_strlit("Last ");
        reveal_strlit("Time range active");
    }
    match fs.relative_time_secs {
        Some(secs) => Some(span_exec("Last ", secs)),
        None => if fs.time_start.is_some() || fs.time_end.is_some() {
            Some("Time range active".to_string())
        } else {
            None
        },
    }
}

fn text_part_exec(fs: &FilterState) -> (r: Option<String>)
    ensures
        opt_part(r) == text_part(fs),
{
    if chars_of(fs.text_search.as_str()).len() == 0 {
        return None;
    }
    let mut t = String::new();
    push_str(&mut t, "Text: \"");
    push_str(&mut t, fs.text_search.as_str());
    push_str(&mut t, "\"");
    proof {
        reveal_strlit("Text: \"");
        reveal_strlit("\"");
    }
    Some(t)
}

fn regex_part_exec(fs: &FilterState) -> (r: Option<String>)
    ensures
        opt_part(r) == regex_part(fs),
{
    if fs.regex_search.is_none() {
        return None;
    }
    let mut t = String::new();
    push_str(&mut t, "Regex: /");
    push_str(&mut t, fs.regex_pattern.as_str());
    push_str(&mut t, "/");
    proof {
        reveal_strlit("Regex: /");
        reveal_strlit("/");
    }
    Some(t)
}

fn files_part_exec(fs: &FilterState) -> (r: Option<String>)
    ensures
        opt_part(r) == files_part(fs),
{
    proof {
        reveal_strlit("Files: none (all hidden)");
        reveal_strlit("Files: ");
        reveal_strlit(" selected");
    }
    if fs.hide_all_sources {
        return Some("Files: none (all hidden)".to_string());
    }
    if fs.source_files.len() == 0 {
        return None;
    }
    let mut t = String::new();
    push_str(&mut t, "Files: ");
    push_decimal(&mut t, fs.source_files.len() as u64);
    push_str(&mut t, " selected");
    Some(t)
}

fn activity_part_exec(activity: Option<u64>) -> (r: Option<String>)
    ensures
        opt_part(r) == activity_part(activity),
{
    proof { reveal_strlit("Activity window: "); }
    match activity {
        Some(secs) => Some(span_exec("Activity window: ", secs)),
        None => None,
    }
}

/// The filter description of a report.
pub open spec fn filter_description(fs: &FilterState, activity: Option<u64>) -> Seq<char> {
    let parts = filter_parts(fs, activity);
    if parts.len() == 0 { "No filter (all entries)"@ } else { crate::evtx::join_with(parts, " | "@) }
}

fn severity_labels(levels: &Vec<Severity>) -> (r: Vec<String>)
    ensures
        crate::text::string_views(r@) == selected_labels(levels@),
{
    let order = vec![Severity::Critical, Severity::Debug, Severity::Error, Severity::Info, Severity::Unknown, Severity::Warning];
    assert(order@ =~= labels_by_name());
    let mut out: Vec<String> = Vec::new();
    let mut i: usize = 0;
    while i < order.len()
        invariant
            i <= order.len(),
            order@ == labels_by_name(),
            crate::text::string_views(out@) == order@.take(i as int).filter(|s: Severity| levels@.contains(s)).map_values(|s: Severity| severity_label_spec(s)),
        decreases order.len() - i,
    {
        let sv = order[i];
        let ghost t = order@.take(i + 1);
        assert(t.drop_last() =~= order@.take(i as int));
        proof {
            order@.take(i as int).lemma_filter_push(sv, |s: Severity| levels@.contains(s));
        }
        assert(order@.take(i as int).push(sv) =~= t);
        if crate::filter::severity_in(levels, sv) {
            let ghost before = crate::text::string_views(out@);
            let l = sv.label().to_string();
            out.push(l);
            assert(crate::text::string_views(out@) =~= before.push(l@));
        }
        i += 1;
    }
    assert(order@.take(6) =~= order@);
    out
}

/// The report header before the entries.
pub open spec fn results_header(generated: Seq<char>, desc: Seq<char>, total: nat) -> Seq<char> {
    "LogSleuth Filtered Results\nGenerated: "@ + generated + "\nFilter:    "@ + desc + "\nEntries:   "@ + decimal(total) + "\n"@
        + Seq::new(80, |i: int| '=') + "\n\n"@
}

/// One entry of the filtered-results report.
pub open spec fn result_line(e: LogEntry) -> Seq<char> {
    "["@ + stamp_of(e.timestamp, "no timestamp         "@) + "] "@ + pad_to(severity_label_spec(e.severity), 8) + "  "@
        + short_name(e.source_file@) + "\n  "@ + first_chars(e.raw_text@, 500) + "\n\n"@
}

/// The line for a view index: the entry's line, nothing when it does not
/// exist.
pub open spec fn result_line_at(es: Seq<LogEntry>, idx: usize) -> Seq<char> {
    if idx < es.len() { result_line(es[idx as int]) } else { Seq::empty() }
}

/// The filtered-results report generated at `generated`: header with the
/// filter description and count, then each filtered entry (at most the
/// clipboard limit, with a notice when cut).
pub open spec fn results_report_spec(s: &AppState, generated: Seq<char>) -> Seq<char> {
    let f = s.filtered_indices@;
    let body = concat(capped(f).map_values(|i: usize| result_line_at(s.entries@, i)));
    let head = results_header(generated, filter_description(&s.filter_state, s.activity_window_secs), f.len());
    if f.len() > MAX_CLIPBOARD_ENTRIES {
        head + body + truncation_notice(MAX_CLIPBOARD_ENTRIES as nat, f.len())
    } else {
        head + body
    }
}

fn push_rule(out: &mut String, n: usize)
    ensures
        final(out)@ == old(out)@ + Seq::new(n as nat, |i: int| '='),
{
    let ghost o = out@;
    let mut k: usize = 0;
    while k < n
        invariant
            k <= n,
            out@ == o + Seq::new(k as nat, |i: int| '='),
        decreases n - k,
    {
        out.push('=');
        assert(out@ =~= o + Seq::new((k + 1) as nat, |i: int| '='));
        k += 1;
    }
}

fn push_result_line(out: &mut String, e: &LogEntry)
    ensures
        final(out)@ == old(out)@ + result_line(*e),
{
    let ghost o = out@;
    push_str(out, "[");
    let ts = stamp_exec(e.timestamp, "no timestamp         ");
    push_str(out, ts.as_str());
    push_str(out, "] ");
    push_padded(out, e.severity.label(), 8);
    push_str(out, "  ");
    let src = short_name_exec(e.source_file.as_str());
    push_str(out, src.as_str());
    push_str(out, "\n  ");
    push_first_chars(out, e.raw_text.as_str(), 500);
    push_str(out, "\n\n");
    proof {
        reveal_strlit("[");
        reveal_strlit("] ");
        reveal_strlit("  ");
        reveal_strlit("\n  ");
        reveal_strlit("\n\n");
    }
    assert(out@ =~= o + result_line(*e));
}

impl AppState {
    /// Description of the active filter, as the report header shows it.
    pub fn filter_description_text(&self) -> (r: String)
        ensures
            r@ == filter_description(&self.filter_state, self.activity_window_secs),
    {
        let fs = &self.filter_state;
        let mut parts: Vec<String> = Vec::new();
        assert(crate::text::string_views(parts@) =~= Seq::<Seq<char>>::empty());
        push_opt_part(&mut parts, sev_part_exec(fs));
        push_opt_part(&mut parts, time_part_exec(fs));
        push_opt_part(&mut parts, text_part_exec(fs));
        push_opt_part(&mut parts, regex_part_exec(fs));
        push_opt_part(&mut parts, files_part_exec(fs));
        proof { reveal_strlit("Bookmarks only"); }
        let b = if fs.bookmarks_only { Some("Bookmarks only".to_string()) } else { None };
        push_opt_part(&mut parts, b);
        push_opt_part(&mut parts, activity_part_exec(self.activity_window_secs));
        assert(crate::text::string_views(parts@) =~= filter_parts(fs, self.activity_window_secs));
        if parts.len() == 0 {
            "No filter (all entries)".to_string()
        } else {
            crate::evtx::join_strings(&parts, " | ")
        }
    }

    /// The filtered-results report, generated at `generated`.
    pub fn filtered_results_report_at(&self, generated: &str) -> (r: String)
        ensures
            r@ == results_report_spec(self, generated@),
    {
        let total = self.filtered_indices.len();
        let take = if total < MAX_CLIPBOARD_ENTRIES { total } else { MAX_CLIPBOARD_ENTRIES };
        let desc = self.filter_description_text();
        let mut out = String::new();
        push_str(&mut out, "LogSleuth Filtered Results\nGenerated: ");
        push_str(&mut out, generated);
        push_str(&mut out, "\nFilter:    ");
        push_str(&mut out, desc.as_str());
        push_str(&mut out, "\nEntries:   ");
        push_decimal(&mut out, total as u64);
        push_str(&mut out, "\n");
        push_rule(&mut out, 80);
        push_str(&mut out, "\n\n");
        proof {
            reveal_strlit("LogSleuth Filtered Results\nGenerated: ");
            reveal_strlit("\nFilter:    ");
            reveal_strlit("\nEntries:   ");
            reveal_strlit("\n");
            reveal_strlit("\n\n");
        }
        let ghost head = out@;
        assert(head =~= results_header(generated@, filter_description(&self.filter_state, self.activity_window_secs), total as nat));
        let ghost lines = capped(self.filtered_indices@).map_values(|i: usize| result_line_at(self.entries@, i));
        assert(capped(self.filtered_indices@) =~= self.filtered_indices@.take(take as int));
        let mut i: usize = 0;
        while i < take
            invariant
                i <= take <= self.filtered_indices.len(),
                take as int == capped(self.filtered_indices@).len(),
                lines == capped(self.filtered_indices@).map_values(|i: usize| result_line_at(self.entries@, i)),
                capped(self.filtered_indices@) == self.filtered_indices@.take(take as int),
                out@ == head + concat(lines.take(i as int)),
            decreases take - i,
        {
            let idx = self.filtered_indices[i];
            let ghost before = out@;
            if idx < self.entries.len() {
                push_result_line(&mut out, &self.entries[idx]);
            }
            assert(lines[i as int] == result_line_at(self.entries@, idx));
            assert(lines.take(i + 1).drop_last() =~= lines.take(i as int));
            assert(out@ =~= before + result_line_at(self.entries@, idx));
            i += 1;
        }
        assert(lines.take(take as int) =~= lines);
        if take < total {
            push_truncation_notice(&mut out, take, total);
        }
        out
    }

    /// The filtered-results report, generated now.
    pub fn filtered_results_report(&self) -> (r: String)
        ensures
            exists|g: Seq<char>| is_stamp(g) && r@ == results_report_spec(self, g),
    {
        let g = now_stamp();
        self.filtered_results_report_at(g.as_str())
    }
}


// ---------------------------------------------------------------------------
// Bookmarks
// ---------------------------------------------------------------------------

/// The last entry with this ID (later entries win, as when indexing by ID).
pub open spec fn last_with_id(es: Seq<LogEntry>, id: u64) -> Option<LogEntry>
    decreases es.len(),
{
    if es.len() == 0 {
        None
    } else if es.last().id == id {
        Some(es.last())
    } else {
        last_with_id(es.drop_last(), id)
    }
}

/// The label of the bookmark of `id` (the first one), empty when none.
pub open spec fn label_of(b: Seq<(u64, String)>, id: u64) -> Seq<char>
    decreases b.len(),
{
    if b.len() == 0 {
        Seq::empty()
    } else if b[0].0 == id {
        b[0].1@
    } else {
        label_of(b.drop_first(), id)
    }
}

/// One entry of the bookmark report (nothing when no entry has the ID).
pub open spec fn bookmark_line(es: Seq<LogEntry>, b: Seq<(u64, String)>, id: u64) -> Seq<char> {
    match last_with_id(es, id) {
        None => Seq::empty(),
        Some(e) => {
            let label = label_of(b, id);
            "["@ + stamp_of(e.timestamp, "no timestamp"@) + "] "@ + pad_to(severity_label_spec(e.severity), 8) + " "@
                + short_name(e.source_file@) + (if label.len() > 0 { " ["@ + label + "]"@ } else { Seq::empty() })
                + "\n  "@ + first_chars(e.raw_text@, 500) + "\n\n"@
        },
    }
}

/// Header of the bookmark report.
pub open spec fn bookmarks_header(generated: Seq<char>) -> Seq<char> {
    "LogSleuth Bookmark Report\nGenerated: "@ + generated + "\n"@ + Seq::new(60, |i: int| '=') + "\n\n"@
}

/// IDs in increasing order.
pub open spec fn ascending(v: Seq<u64>) -> bool {
    forall|i: int, j: int| 0 <= i < j < v.len() ==> v[i] <= v[j]
}

pub open spec fn bookmark_ids_of(b: Seq<(u64, String)>) -> Seq<u64> {
    b.map_values(|p: (u64, String)| p.0)
}

fn sort_ids(v: Vec<u64>) -> (r: Vec<u64>)
    ensures
        ascending(r@),
        r@.to_multiset() == v@.to_multiset(),
{
    broadcast use vstd::seq_lib::group_to_multiset_ensures, vstd::multiset::group_multiset_axioms;
    let mut out: Vec<u64> = Vec::new();
    let mut i: usize = 0;
    while i < v.len()
        invariant
            i <= v.len(),
            ascending(out@),
            out@.to_multiset() == v@.take(i as int).to_multiset(),
        decreases v.len() - i,
    {
        let x = v[i];
        let mut j: usize = 0;
        while j < out.len() && out[j] <= x
            invariant
                j <= out.len(),
                forall|k: int| 0 <= k < j ==> out@[k] <= x,
            decreases out.len() - j,
        {
            j += 1;
        }
        let ghost before = out@;
        out.insert(j, x);
        proof {
            assert(out@ =~= before.insert(j as int, x));
            assert forall|a: int, b: int| 0 <= a < b < out@.len() implies out@[a] <= out@[b] by {
                if b < j {
                    assert(out@[a] == before[a] && out@[b] == before[b]);
                } else if b == j {
                    assert(out@[a] == before[a]);
                } else if a < j {
                    assert(out@[a] == before[a] && out@[b] == before[b - 1]);
                } else if a == j {
                    assert(out@[b] == before[b - 1]);
                    assert(before[j as int] > x);
                } else {
                    assert(out@[a] == before[a - 1] && out@[b] == before[b - 1]);
                }
            }
            let pa = before.subrange(0, j as int);
            let pb = before.subrange(j as int, before.len() as int);
            pa.to_multiset_ensures();
            v@.take(i as int).to_multiset_ensures();
            assert(before.insert(j as int, x) =~= pa.push(x) + pb);
            vstd::seq_lib::lemma_multiset_commutative(pa.push(x), pb);
            vstd::seq_lib::lemma_multiset_commutative(pa, pb);
            assert(before =~= pa + pb);
            assert(v@.take(i + 1) =~= v@.take(i as int).push(x));
            assert(pa.to_multiset().insert(x).add(pb.to_multiset()) =~= pa.to_multiset().add(pb.to_multiset()).insert(x));
        }
        i += 1;
    }
    assert(v@.take(v@.len() as int) =~= v@);
    out
}

fn last_with_id_exec(es: &Vec<LogEntry>, id: u64) -> (r: Option<usize>)
    ensures
        match r {
            Some(k) => k < es.len() && last_with_id(es@, id) == Some(es@[k as int]),
            None => last_with_id(es@, id) is None,
        },
{
    let mut k: usize = es.len();
    assert(es@.take(es@.len() as int) =~= es@);
    while k > 0
        invariant
            k <= es.len(),
            last_with_id(es@, id) == last_with_id(es@.take(k as int), id),
        decreases k,
    {
        let ghost t = es@.take(k as int);
        assert(t.drop_last() =~= es@.take(k - 1));
        assert(t.last() == es@[k - 1]);
        if es[k - 1].id == id {
            return Some(k - 1);
        }
        k -= 1;
    }
    None
}

fn label_exec(b: &Vec<(u64, String)>, id: u64) -> (r: String)
    ensures
        r@ == label_of(b@, id),
{
    let mut i: usize = 0;
    assert(b@.skip(0) =~= b@);
    while i < b.len()
        invariant
            i <= b.len(),
            label_of(b@.skip(i as int), id) == label_of(b@, id),
        decreases b.len() - i,
    {
        assert(b@.skip(i as int)[0] == b@[i as int]);
        assert(b@.skip(i as int).drop_first() =~= b@.skip(i + 1));
        if b[i].0 == id {
            return b[i].1.clone();
        }
        i += 1;
    }
    String::new()
}

impl AppState {
    /// The bookmark report generated at `generated`: one block per
    /// bookmarked entry, by increasing ID.
    pub fn bookmarks_report_at(&self, generated: &str) -> (r: String)
        ensures
            exists|ids: Seq<u64>| ascending(ids) && ids.to_multiset() == bookmark_ids_of(self.bookmarks@).to_multiset()
                && r@ == bookmarks_header(generated@)
                    + concat(ids.map_values(|id: u64| bookmark_line(self.entries@, self.bookmarks@, id))),
    {
        let mut raw: Vec<u64> = Vec::new();
        let mut i: usize = 0;
        while i < self.bookmarks.len()
            invariant
                i <= self.bookmarks.len(),
                raw@ == bookmark_ids_of(self.bookmarks@).take(i as int),
            decreases self.bookmarks.len() - i,
        {
            raw.push(self.bookmarks[i].0);
            assert(raw@ =~= bookmark_ids_of(self.bookmarks@).take(i + 1));
            i += 1;
        }
        assert(bookmark_ids_of(self.bookmarks@).take(self.bookmarks@.len() as int) =~= bookmark_ids_of(self.bookmarks@));
        let ids = sort_ids(raw);
        let mut out = String::new();
        push_str(&mut out, "LogSleuth Bookmark Report\nGenerated: ");
        push_str(&mut out, generated);
        push_str(&mut out, "\n");
        push_rule(&mut out, 60);
        push_str(&mut out, "\n\n");
        proof {
            reveal_strlit("LogSleuth Bookmark Report\nGenerated: ");
            reveal_strlit("\n");
            reveal_strlit("\n\n");
        }
        let ghost head = out@;
        assert(head =~= bookmarks_header(generated@));
        let ghost lines = ids@.map_values(|id: u64| bookmark_line(self.entries@, self.bookmarks@, id));
        let mut k: usize = 0;
        while k < ids.len()
            invariant
                k <= ids.len(),
                lines == ids@.map_values(|id: u64| bookmark_line(self.entries@, self.bookmarks@, id)),
                out@ == head + concat(lines.take(k as int)),
            decreases ids.len() - k,
        {
            let id = ids[k];
            let ghost before = out@;
            match last_with_id_exec(&self.entries, id) {
                None => {},
                Some(pos) => {
                    let e = &self.entries[pos];
                    let label = label_exec(&self.bookmarks, id);
                    push_str(&mut out, "[");
                    let ts = stamp_exec(e.timestamp, "no timestamp");
                    push_str(&mut out, ts.as_str());
                    push_str(&mut out, "] ");
                    push_padded(&mut out, e.severity.label(), 8);
                    push_str(&mut out, " ");
                    let src = short_name_exec(e.source_file.as_str());
                    push_str(&mut out, src.as_str());
                    if chars_of(label.as_str()).len() > 0 {
                        push_str(&mut out, " [");
                        push_str(&mut out, label.as_str());
                        push_str(&mut out, "]");
                    }
                    push_str(&mut out, "\n  ");
                    push_first_chars(&mut out, e.raw_text.as_str(), 500);
                    push_str(&mut out, "\n\n");
                    proof {
                        reveal_strlit("[");
                        reveal_strlit("] ");
                        reveal_strlit(" ");
                        reveal_strlit(" [");
                        reveal_strlit("]");
                        reveal_strlit("\n  ");
                        reveal_strlit("\n\n");
                    }
                },
            }
            assert(lines[k as int] == bookmark_line(self.entries@, self.bookmarks@, id));
            assert(out@ =~= before + bookmark_line(self.entries@, self.bookmarks@, id));
            assert(lines.take(k + 1).drop_last() =~= lines.take(k as int));
            k += 1;
        }
        assert(lines.take(ids@.len() as int) =~= lines);
        out
    }

    /// The bookmark report, generated now.
    pub fn bookmarks_report(&self) -> (r: String)
        ensures
            exists|g: Seq<char>, ids: Seq<u64>| is_stamp(g) && ascending(ids) && ids.to_multiset() == bookmark_ids_of(self.bookmarks@).to_multiset()
                && r@ == bookmarks_header(g) + concat(ids.map_values(|id: u64| bookmark_line(self.entries@, self.bookmarks@, id))),
    {
        let g = now_stamp();
        self.bookmarks_report_at(g.as_str())
    }
}

} // verus!
