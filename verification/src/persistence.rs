//! Moving the application state in and out of a session snapshot, and the
//! date input that limits discovery.
use vstd::prelude::*;
use crate::datetime::{filter_datetime_spec, parse_filter_datetime};
use crate::filter::{FilterState, string_in};
use crate::model::{Severity, UtcNanos};
use crate::multi_search::{MAX_MULTI_SEARCH_TERMS, MultiSearch, MultiSearchMode, all_build, all_ci, built_pattern, built_patterns, collect_terms, input_tokens, sources_of};
use crate::pattern::spec_regex_build;
use crate::session::{PersistedFilter, SessionData, SESSION_VERSION};
use crate::state::{AppState, bookmarked, ids_distinct};
use crate::text::{decimal, decimal_string, insert_sorted, push_i64, signed_decimal, strictly_sorted, string_views};

verus! {

// ---------------------------------------------------------------------------
// Models
// ---------------------------------------------------------------------------

/// Label of the last pair with ID `id`, if any: what a map filled from the
/// pairs in order holds for `id`.
pub open spec fn label_of(b: Seq<(u64, String)>, id: u64) -> Option<Seq<char>>
    decreases b.len(),
{
    if b.len() == 0 {
        None
    } else if b.last().0 == id {
        Some(b.last().1@)
    } else {
        label_of(b.drop_last(), id)
    }
}

/// `v` holds each string of `src` once, in ascending order.
pub open spec fn sorted_set_of(v: Seq<String>, src: Seq<String>) -> bool {
    &&& strictly_sorted(string_views(v))
    &&& forall|c: Seq<char>| #[trigger] string_views(v).contains(c) <==> string_views(src).contains(c)
}

/// `d` is the session snapshot of `s`.
pub open spec fn snapshot_of(s: &AppState, d: &SessionData) -> bool {
    let f = d.filter;
    let fs = s.filter_state;
    &&& d.version == SESSION_VERSION
    &&& d.scan_path == s.scan_path
    &&& d.extra_files@ == s.manually_added_files@
    &&& f.severity_levels@ == fs.severity_levels@
    &&& f.source_files@ == fs.source_files@
    &&& f.hide_all_sources == fs.hide_all_sources
    &&& f.text_search == fs.text_search
    &&& f.regex_pattern == fs.regex_pattern
    &&& f.fuzzy == fs.fuzzy
    &&& f.relative_time_secs == fs.relative_time_secs
    &&& f.bookmarks_only == fs.bookmarks_only
    &&& f.exclude_text == fs.exclude_text
    &&& sorted_set_of(f.component_filter@, fs.component_filter@)
    &&& f.hide_no_timestamp == fs.hide_no_timestamp
    &&& f.dedup_mode == fs.dedup_mode
    &&& f.multi_search_input == s.multi_search_input
    &&& f.multi_search_mode == fs.multi_search.mode
    &&& f.multi_search_min_match == fs.multi_search.min_match
    &&& f.multi_search_case_insensitive == fs.multi_search.case_insensitive
    &&& f.multi_search_whole_word == fs.multi_search.whole_word
    &&& f.multi_search_regex_mode == fs.multi_search.regex_mode
    &&& d.file_colours@ == s.file_colours@
    &&& d.bookmarks@ == s.bookmarks@
    &&& d.correlation_window_secs == s.correlation_window_secs
    &&& d.discovery_date_input == s.discovery_date_input
    &&& d.dark_mode == s.dark_mode
    &&& d.sort_descending == s.sort_descending
    &&& d.tail_auto_scroll == s.tail_auto_scroll
    &&& d.max_files_limit == s.max_files_limit
    &&& d.max_total_entries == s.max_total_entries
    &&& d.max_scan_depth == s.max_scan_depth
    &&& d.tail_poll_interval_ms == s.tail_poll_interval_ms
    &&& d.dir_watch_poll_interval_ms == s.dir_watch_poll_interval_ms
    &&& d.max_tail_buffer_entries == s.max_tail_buffer_entries
    &&& d.troubleshoot_mode == s.troubleshoot_mode
}

/// The regex sources built for a list of term texts.
pub open spec fn term_patterns(regex_mode: bool, whole_word: bool, terms: Seq<Seq<char>>) -> Seq<Seq<char>> {
    terms.map_values(|t: Seq<char>| built_pattern(regex_mode, whole_word, t))
}

/// Multi-search terms that compile: not too many, each built pattern valid,
/// and (when there are any) the include and exclude pattern sets build.
pub open spec fn terms_compile(inc: Seq<Seq<char>>, exc: Seq<Seq<char>>, regex_mode: bool, whole_word: bool, ci: bool) -> bool {
    &&& inc.len() + exc.len() <= MAX_MULTI_SEARCH_TERMS
    &&& all_build(term_patterns(regex_mode, whole_word, inc), ci)
    &&& all_build(term_patterns(regex_mode, whole_word, exc), ci)
    &&& (inc.len() + exc.len() == 0 || {
        &&& crate::pattern::spec_regex_set_build(term_patterns(regex_mode, whole_word, inc), ci) is None
        &&& crate::pattern::spec_regex_set_build(term_patterns(regex_mode, whole_word, exc), ci) is None
    })
}

/// A multi-search with the default settings and no terms.
pub open spec fn is_default_search(m: &MultiSearch) -> bool {
    &&& m.mode == MultiSearchMode::Any
    &&& m.include_terms@.len() == 0
    &&& m.exclude_terms@.len() == 0
    &&& m.min_match is None
    &&& m.case_insensitive
    &&& !m.whole_word
    &&& !m.regex_mode
    &&& m.compiled is None
    &&& m.compile_err is None
}

/// The multi-search after a restore from `f`: unchanged for an empty input;
/// otherwise the parsed terms with the saved settings, compiled, or the
/// default search with an empty input when they do not compile.
#[verifier::opaque]
pub open spec fn multi_search_restored(old_ms: &MultiSearch, new_ms: &MultiSearch, new_input: Seq<char>, f: &PersistedFilter) -> bool {
    let input = f.multi_search_input@;
    let rm = f.multi_search_regex_mode;
    let ww = f.multi_search_whole_word;
    let ci = f.multi_search_case_insensitive;
    let (inc, exc) = collect_terms(input_tokens(input));
    if input.len() == 0 {
        new_input.len() == 0 && *new_ms == *old_ms
    } else if terms_compile(inc, exc, rm, ww, ci) {
        &&& new_input == input
        &&& new_ms.mode == f.multi_search_mode
        &&& string_views(new_ms.include_terms@) == inc
        &&& string_views(new_ms.exclude_terms@) == exc
        &&& new_ms.min_match == f.multi_search_min_match
        &&& new_ms.case_insensitive == ci
        &&& new_ms.whole_word == ww
        &&& new_ms.regex_mode == rm
        &&& new_ms.compile_err is None
        &&& if inc.len() + exc.len() == 0 {
            new_ms.compiled is None
        } else {
            new_ms.compiled matches Some(c)
                && sources_of(c.include_patterns@) == term_patterns(rm, ww, inc)
                && sources_of(c.exclude_patterns@) == term_patterns(rm, ww, exc)
                && all_ci(c.include_patterns@, ci)
                && all_ci(c.exclude_patterns@, ci)
        }
    } else {
        new_input.len() == 0 && is_default_search(new_ms)
    }
}

/// The regex filter after a restore of pattern `p`: unchanged when `p` is
/// empty; otherwise `p` is kept as typed and compiled case-insensitively,
/// or the search cleared when it does not compile.
#[verifier::opaque]
pub open spec fn regex_restored(old_fs: &FilterState, new_fs: &FilterState, p: Seq<char>) -> bool {
    if p.len() == 0 {
        new_fs.regex_pattern == old_fs.regex_pattern && new_fs.regex_search == old_fs.regex_search
    } else {
        &&& new_fs.regex_pattern@ == p
        &&& match spec_regex_build(p, true) {
            None => new_fs.regex_search matches Some(c) && c.source_spec() == p && c.ci_spec(),
            Some(_) => new_fs.regex_search is None,
        }
    }
}

/// Text shown for a relative window of `secs` seconds: whole minutes.
pub open spec fn minutes_text(secs: Option<u64>) -> Seq<char> {
    match secs {
        Some(s) => decimal((s / 60) as nat),
        None => Seq::empty(),
    }
}

/// The filter settings after applying the saved filter `f` to `of`, with
/// `new_input` the multi-search text left in the state.
#[verifier::opaque]
pub open spec fn filter_applied(of: &FilterState, nf: &FilterState, new_input: Seq<char>, f: &PersistedFilter) -> bool {
    &&& nf.severity_levels@ == f.severity_levels@
    &&& nf.text_search == f.text_search
    &&& nf.fuzzy == f.fuzzy
    &&& nf.relative_time_secs == f.relative_time_secs
    &&& nf.relative_time_input@ == minutes_text(f.relative_time_secs)
    &&& nf.bookmarks_only == f.bookmarks_only
    &&& nf.exclude_text == f.exclude_text
    &&& nf.component_filter@ == f.component_filter@
    &&& nf.hide_no_timestamp == f.hide_no_timestamp
    &&& nf.dedup_mode == f.dedup_mode
    &&& regex_restored(of, nf, f.regex_pattern@)
    &&& multi_search_restored(&of.multi_search, &nf.multi_search, new_input, f)
    &&& nf.source_files == of.source_files
    &&& nf.hide_all_sources == of.hide_all_sources
    &&& nf.time_start == of.time_start
    &&& nf.time_end == of.time_end
    &&& nf.bookmarked_ids == of.bookmarked_ids
}

/// Entries, the view and the file lists are left as they were.
pub open spec fn same_entries(a: &AppState, b: &AppState) -> bool {
    &&& b.entries@ == a.entries@
    &&& b.filtered_indices@ == a.filtered_indices@
    &&& b.selected_index == a.selected_index
    &&& b.discovered_files@ == a.discovered_files@
    &&& b.manually_added_files@ == a.manually_added_files@
}

/// `new` is `old` with the snapshot `d` applied.  Source-file selection,
/// time bounds, entries and the view are left as they were.
pub open spec fn restored(old: &AppState, new: &AppState, d: &SessionData) -> bool {
    &&& filter_applied(&old.filter_state, &new.filter_state, new.multi_search_input@, &d.filter)
    &&& same_entries(old, new)
    &&& new.scan_path == d.scan_path
    &&& new.extra_files_to_restore@ == d.extra_files@
    &&& new.file_colours@ == d.file_colours@
    &&& ids_distinct(new.bookmarks@)
    &&& forall|id: u64| #[trigger] label_of(new.bookmarks@, id) == label_of(d.bookmarks@, id)
    &&& new.discovery_date_input == d.discovery_date_input
    &&& preferences_restored(new, d)
}

/// The display preferences, correlation window and limits of `s` are those
/// saved in `d`.
pub open spec fn preferences_restored(new: &AppState, d: &SessionData) -> bool {
    &&& new.correlation_window_secs == d.correlation_window_secs
    &&& new.correlation_window_input@ == signed_decimal(d.correlation_window_secs as int)
    &&& new.dark_mode == d.dark_mode
    &&& new.sort_descending == d.sort_descending
    &&& new.tail_auto_scroll == d.tail_auto_scroll
    &&& new.max_files_limit == d.max_files_limit
    &&& new.max_total_entries == d.max_total_entries
    &&& new.max_scan_depth == d.max_scan_depth
    &&& new.tail_poll_interval_ms == d.tail_poll_interval_ms
    &&& new.dir_watch_poll_interval_ms == d.dir_watch_poll_interval_ms
    &&& new.max_tail_buffer_entries == d.max_tail_buffer_entries
    &&& new.troubleshoot_mode == d.troubleshoot_mode
}

// ---------------------------------------------------------------------------
// Lemmas on labels
// ---------------------------------------------------------------------------

/// A label is found exactly for a bookmarked ID.
proof fn lemma_label_found(b: Seq<(u64, String)>, id: u64)
    ensures
        label_of(b, id) is Some <==> bookmarked(b, id),
    decreases b.len(),
{
    if b.len() > 0 {
        let d = b.drop_last();
        lemma_label_found(d, id);
        if bookmarked(d, id) {
            let k = choose|k: int| 0 <= k < d.len() && (#[trigger] d[k]).0 == id;
            assert(b[k] == d[k]);
        }
        if b.last().0 == id {
            assert(b[b.len() - 1].0 == id);
        }
        if bookmarked(b, id) && b.last().0 != id {
            let k = choose|k: int| 0 <= k < b.len() && (#[trigger] b[k]).0 == id;
            assert(k < b.len() - 1);
            assert(d[k] == b[k]);
        }
    }
}

/// Replacing the pair of an ID in a list without repeated IDs changes only
/// that ID's label.
proof fn lemma_label_update(b: Seq<(u64, String)>, j: int, p: (u64, String), x: u64)
    requires
        ids_distinct(b),
        0 <= j < b.len(),
        b[j].0 == p.0,
    ensures
        label_of(b.update(j, p), x) == (if x == p.0 { Some(p.1@) } else { label_of(b, x) }),
    decreases b.len(),
{
    let n = b.update(j, p);
    let last = b.len() - 1;
    if j == last {
        assert(n.drop_last() =~= b.drop_last());
        assert(n.last() == p);
    } else {
        assert(n.drop_last() =~= b.drop_last().update(j, p));
        assert(n.last() == b.last());
        assert(b[j].0 != b[last].0);
        assert(ids_distinct(b.drop_last())) by {
            assert forall|i: int, k: int| 0 <= i < k < b.drop_last().len() implies
                (#[trigger] b.drop_last()[i]).0 != (#[trigger] b.drop_last()[k]).0 by {
                assert(b.drop_last()[i] == b[i] && b.drop_last()[k] == b[k]);
            }
        }
        lemma_label_update(b.drop_last(), j, p, x);
    }
}

// ---------------------------------------------------------------------------
// Helpers
// ---------------------------------------------------------------------------

/// The pairs as a map keyed by ID: one pair per ID, the last label of each.
fn bookmark_map(v: Vec<(u64, String)>) -> (r: Vec<(u64, String)>)
    ensures
        ids_distinct(r@),
        forall|id: u64| #[trigger] label_of(r@, id) == label_of(v@, id),
        forall|id: u64| #[trigger] bookmarked(r@, id) == bookmarked(v@, id),
{
    let mut out: Vec<(u64, String)> = Vec::new();
    let mut i: usize = 0;
    while i < v.len()
        invariant
            i <= v.len(),
            ids_distinct(out@),
            forall|id: u64| #[trigger] label_of(out@, id) == label_of(v@.take(i as int), id),
        decreases v.len() - i,
    {
        let id = v[i].0;
        let label = v[i].1.clone();
        let ghost taken = v@.take(i + 1);
        proof {
            assert(taken.drop_last() =~= v@.take(i as int));
            assert(taken.last() == v@[i as int]);
        }
        let mut j: usize = 0;
        while j < out.len() && out[j].0 != id
            invariant
                j <= out.len(),
                forall|k: int| 0 <= k < j ==> (#[trigger] out@[k]).0 != id,
            decreases out.len() - j,
        {
            j += 1;
        }
        let ghost before = out@;
        if j < out.len() {
            out.set(j, (id, label));
            proof {
                assert forall|x: u64| #[trigger] label_of(out@, x) == label_of(taken, x) by {
                    lemma_label_update(before, j as int, (id, label), x);
                }
                assert forall|a: int, b: int| 0 <= a < b < out@.len() implies
                    (#[trigger] out@[a]).0 != (#[trigger] out@[b]).0 by {
                    assert(out@[a].0 == before[a].0 && out@[b].0 == before[b].0);
                }
            }
        } else {
            out.push((id, label));
            proof {
                assert(out@.drop_last() =~= before);
                assert(out@.last() == (id, label));
                assert forall|x: u64| #[trigger] label_of(out@, x) == label_of(taken, x) by {
                    assert(label_of(out@, x) == (if id == x { Some(label@) } else { label_of(before, x) }));
                    assert(label_of(taken, x) == (if id == x { Some(label@) } else { label_of(v@.take(i as int), x) }));
                }
                assert forall|a: int, b: int| 0 <= a < b < out@.len() implies
                    (#[trigger] out@[a]).0 != (#[trigger] out@[b]).0 by {
                    if b < before.len() {
                        assert(out@[a] == before[a] && out@[b] == before[b]);
                    } else {
                        assert(out@[a] == before[a]);
                    }
                }
            }
        }
        i += 1;
    }
    proof {
        assert(v@.take(v@.len() as int) =~= v@);
        assert forall|id: u64| #[trigger] bookmarked(out@, id) == bookmarked(v@, id) by {
            lemma_label_found(out@, id);
            lemma_label_found(v@, id);
        }
    }
    out
}

/// Each string of `v` once, in ascending order.
fn sorted_distinct(v: &Vec<String>) -> (r: Vec<String>)
    ensures
        sorted_set_of(r@, v@),
{
    let mut out: Vec<String> = Vec::new();
    let mut i: usize = 0;
    while i < v.len()
        invariant
            i <= v.len(),
            strictly_sorted(string_views(out@)),
            forall|c: Seq<char>| #[trigger] string_views(out@).contains(c) <==> string_views(v@.take(i as int)).contains(c),
        decreases v.len() - i,
    {
        let ghost seen = string_views(v@.take(i as int));
        let ghost next = string_views(v@.take(i + 1));
        proof {
            assert(next =~= seen.push(v@[i as int]@));
        }
        let ghost x = v@[i as int]@;
        if !string_in(&out, v[i].as_str()) {
            insert_sorted(&mut out, v[i].clone());
        }
        proof {
            assert forall|c: Seq<char>| #[trigger] next.contains(c) <==> (seen.contains(c) || c == x) by {
                if next.contains(c) {
                    let k = choose|k: int| 0 <= k < next.len() && next[k] == c;
                    if k < seen.len() { assert(seen[k] == c); }
                }
                if seen.contains(c) {
                    let k = choose|k: int| 0 <= k < seen.len() && seen[k] == c;
                    assert(next[k] == c);
                }
                if c == x {
                    assert(next[seen.len() as int] == c);
                }
            }
        }
        i += 1;
    }
    assert(v@.take(v@.len() as int) =~= v@);
    out
}

pub(crate) fn copy_strings(v: &Vec<String>) -> (r: Vec<String>)
    ensures
        r@ == v@,
{
    let mut out: Vec<String> = Vec::new();
    let mut i: usize = 0;
    while i < v.len()
        invariant
            i <= v.len(),
            out@ == v@.take(i as int),
        decreases v.len() - i,
    {
        out.push(v[i].clone());
        assert(out@ =~= v@.take(i + 1));
        i += 1;
    }
    assert(v@.take(v@.len() as int) =~= v@);
    out
}

fn copy_levels(v: &Vec<Severity>) -> (r: Vec<Severity>)
    ensures
        r@ == v@,
{
    let mut out: Vec<Severity> = Vec::new();
    let mut i: usize = 0;
    while i < v.len()
        invariant
            i <= v.len(),
            out@ == v@.take(i as int),
        decreases v.len() - i,
    {
        out.push(v[i]);
        assert(out@ =~= v@.take(i + 1));
        i += 1;
    }
    assert(v@.take(v@.len() as int) =~= v@);
    out
}

fn copy_colours(v: &Vec<(String, [u8; 4])>) -> (r: Vec<(String, [u8; 4])>)
    ensures
        r@ == v@,
{
    let mut out: Vec<(String, [u8; 4])> = Vec::new();
    let mut i: usize = 0;
    while i < v.len()
        invariant
            i <= v.len(),
            out@ == v@.take(i as int),
        decreases v.len() - i,
    {
        out.push((v[i].0.clone(), v[i].1));
        assert(out@ =~= v@.take(i + 1));
        i += 1;
    }
    assert(v@.take(v@.len() as int) =~= v@);
    out
}

fn copy_bookmarks(v: &Vec<(u64, String)>) -> (r: Vec<(u64, String)>)
    ensures
        r@ == v@,
{
    let mut out: Vec<(u64, String)> = Vec::new();
    let mut i: usize = 0;
    while i < v.len()
        invariant
            i <= v.len(),
            out@ == v@.take(i as int),
        decreases v.len() - i,
    {
        out.push((v[i].0, v[i].1.clone()));
        assert(out@ =~= v@.take(i + 1));
        i += 1;
    }
    assert(v@.take(v@.len() as int) =~= v@);
    out
}

// ---------------------------------------------------------------------------
// Snapshot and restore
// ---------------------------------------------------------------------------

impl AppState {
    /// The instant from which discovered files count, read from
    /// `discovery_date_input` (see `filter_datetime_spec`) as a local
    /// wall-clock time, moved by the local zone's offset (a whole number of
    /// seconds less than a day either way); `None` for blank or
    /// unrecognised text.
    pub fn discovery_modified_since(&self) -> (r: Option<UtcNanos>)
        ensures
            r is Some <==> filter_datetime_spec(self.discovery_date_input@) is Some,
            r matches Some(t) ==> exists|d: int| -86_400 < d < 86_400 && t == #[trigger] crate::model::nanos_of(
                filter_datetime_spec(self.discovery_date_input@)->Some_0.0 + d,
                filter_datetime_spec(self.discovery_date_input@)->Some_0.1),
    {
        parse_filter_datetime(self.discovery_date_input.as_str())
    }

    /// The session snapshot of the current state (entries are not part of
    /// it); component filters are saved once each, sorted.
    pub fn session_data(&self) -> (r: SessionData)
        ensures
            snapshot_of(self, &r),
    {
        let fs = &self.filter_state;
        let ms = &fs.multi_search;
        let filter = PersistedFilter {
            severity_levels: copy_levels(&fs.severity_levels),
            source_files: copy_strings(&fs.source_files),
            hide_all_sources: fs.hide_all_sources,
            text_search: fs.text_search.clone(),
            regex_pattern: fs.regex_pattern.clone(),
            fuzzy: fs.fuzzy,
            relative_time_secs: fs.relative_time_secs,
            bookmarks_only: fs.bookmarks_only,
            exclude_text: fs.exclude_text.clone(),
            component_filter: sorted_distinct(&fs.component_filter),
            hide_no_timestamp: fs.hide_no_timestamp,
            dedup_mode: fs.dedup_mode,
            multi_search_input: self.multi_search_input.clone(),
            multi_search_mode: ms.mode,
            multi_search_min_match: ms.min_match,
            multi_search_case_insensitive: ms.case_insensitive,
            multi_search_whole_word: ms.whole_word,
            multi_search_regex_mode: ms.regex_mode,
        };
        SessionData {
            version: SESSION_VERSION,
            scan_path: crate::model::clone_opt_string(&self.scan_path),
            extra_files: copy_strings(&self.manually_added_files),
            filter,
            file_colours: copy_colours(&self.file_colours),
            bookmarks: copy_bookmarks(&self.bookmarks),
            correlation_window_secs: self.correlation_window_secs,
            discovery_date_input: self.discovery_date_input.clone(),
            dark_mode: self.dark_mode,
            sort_descending: self.sort_descending,
            tail_auto_scroll: self.tail_auto_scroll,
            max_files_limit: self.max_files_limit,
            max_total_entries: self.max_total_entries,
            max_scan_depth: self.max_scan_depth,
            tail_poll_interval_ms: self.tail_poll_interval_ms,
            dir_watch_poll_interval_ms: self.dir_watch_poll_interval_ms,
            max_tail_buffer_entries: self.max_tail_buffer_entries,
            troubleshoot_mode: self.troubleshoot_mode,
        }
    }

}

/// Apply the multi-search part of a saved filter (see
/// `multi_search_restored`) to `ms`, with `input` its text.
fn restore_multi_search(ms: &mut MultiSearch, input: &mut String, f: &PersistedFilter)
    ensures
        multi_search_restored(old(ms), final(ms), final(input)@, f),
{
    reveal(multi_search_restored);
    *input = f.multi_search_input.clone();
    if f.multi_search_input.as_str().is_empty() {
        return;
    }
    let (inc_terms, exc_terms) = MultiSearch::parse_terms(f.multi_search_input.as_str());
    let ghost inc = string_views(inc_terms@);
    let ghost exc = string_views(exc_terms@);
    let rm = f.multi_search_regex_mode;
    let ww = f.multi_search_whole_word;
    let ci = f.multi_search_case_insensitive;
    proof {
        assert(built_patterns(rm, ww, inc_terms@) =~= term_patterns(rm, ww, inc));
        assert(built_patterns(rm, ww, exc_terms@) =~= term_patterns(rm, ww, exc));
    }
    let n_inc = inc_terms.len();
    let n_exc = exc_terms.len();
    if n_inc > usize::MAX - n_exc {
        // More terms than any limit: the compile would refuse them.
        *input = String::new();
        *ms = MultiSearch::default();
        return;
    }
    ms.include_terms = inc_terms;
    ms.exclude_terms = exc_terms;
    ms.mode = f.multi_search_mode;
    ms.min_match = f.multi_search_min_match;
    ms.case_insensitive = ci;
    ms.whole_word = ww;
    ms.regex_mode = rm;
    ms.compile();
    if ms.compile_err.is_some() {
        *input = String::new();
        *ms = MultiSearch::default();
    }
}

/// Apply a saved filter to `fs` (see `filter_applied`), with `input` the
/// multi-search text.
fn restore_filter(fs: &mut FilterState, input: &mut String, f: PersistedFilter)
    ensures
        filter_applied(old(fs), final(fs), final(input)@, &f),
{
    reveal(filter_applied);
    reveal(regex_restored);
    restore_multi_search(&mut fs.multi_search, input, &f);
    fs.severity_levels = f.severity_levels;
    fs.text_search = f.text_search;
    fs.fuzzy = f.fuzzy;
    fs.relative_time_secs = f.relative_time_secs;
    fs.relative_time_input = match f.relative_time_secs {
        Some(secs) => decimal_string(secs / 60),
        None => String::new(),
    };
    fs.bookmarks_only = f.bookmarks_only;
    fs.exclude_text = f.exclude_text;
    fs.component_filter = f.component_filter;
    fs.hide_no_timestamp = f.hide_no_timestamp;
    fs.dedup_mode = f.dedup_mode;
    if !f.regex_pattern.as_str().is_empty() {
        let _ = fs.set_regex(f.regex_pattern.as_str());
    }
}

impl AppState {
    /// Apply a loaded session snapshot (see `restored`).  Entries are not
    /// restored: the files are parsed again.  The saved source-file
    /// selection is discarded, since it belongs to an earlier scan; a saved
    /// regex or multi-search that no longer compiles is dropped.
    pub fn restore_from_session(&mut self, data: SessionData)
        ensures
            restored(old(self), final(self), &data),
    {
        self.restore_preferences(&data);
        restore_filter(&mut self.filter_state, &mut self.multi_search_input, data.filter);
        self.scan_path = data.scan_path;
        self.extra_files_to_restore = data.extra_files;
        self.file_colours = data.file_colours;
        self.bookmarks = bookmark_map(data.bookmarks);
        self.discovery_date_input = data.discovery_date_input;
    }

    /// Apply the saved preferences and limits (see `preferences_restored`).
    fn restore_preferences(&mut self, d: &SessionData)
        ensures
            final(self).dark_mode == d.dark_mode,
            final(self).sort_descending == d.sort_descending,
            final(self).tail_auto_scroll == d.tail_auto_scroll,
            final(self).max_files_limit == d.max_files_limit,
            final(self).max_total_entries == d.max_total_entries,
            final(self).max_scan_depth == d.max_scan_depth,
            final(self).tail_poll_interval_ms == d.tail_poll_interval_ms,
            final(self).dir_watch_poll_interval_ms == d.dir_watch_poll_interval_ms,
            final(self).max_tail_buffer_entries == d.max_tail_buffer_entries,
            final(self).troubleshoot_mode == d.troubleshoot_mode,
            final(self).correlation_window_secs == d.correlation_window_secs,
            final(self).correlation_window_input@ == signed_decimal(d.correlation_window_secs as int),
            final(self).filter_state == old(self).filter_state,
            final(self).multi_search_input == old(self).multi_search_input,
            same_entries(old(self), final(self)),
    {
        self.dark_mode = d.dark_mode;
        self.sort_descending = d.sort_descending;
        self.tail_auto_scroll = d.tail_auto_scroll;
        self.max_files_limit = d.max_files_limit;
        self.max_total_entries = d.max_total_entries;
        self.max_scan_depth = d.max_scan_depth;
        self.tail_poll_interval_ms = d.tail_poll_interval_ms;
        self.dir_watch_poll_interval_ms = d.dir_watch_poll_interval_ms;
        self.max_tail_buffer_entries = d.max_tail_buffer_entries;
        self.troubleshoot_mode = d.troubleshoot_mode;
        self.correlation_window_secs = d.correlation_window_secs;
        let mut w = String::new();
        push_i64(&mut w, d.correlation_window_secs);
        self.correlation_window_input = w;
    }
}

// ---------------------------------------------------------------------------
// Laws
// ---------------------------------------------------------------------------

/// In a list without repeated IDs, the label of each pair's ID is that
/// pair's label.
proof fn lemma_label_at(b: Seq<(u64, String)>, i: int)
    requires
        ids_distinct(b),
        0 <= i < b.len(),
    ensures
        label_of(b, b[i].0) == Some(b[i].1@),
    decreases b.len(),
{
    if i < b.len() - 1 {
        let d = b.drop_last();
        assert(b[i].0 != b[b.len() - 1].0);
        assert(ids_distinct(d)) by {
            assert forall|x: int, y: int| 0 <= x < y < d.len() implies (#[trigger] d[x]).0 != (#[trigger] d[y]).0 by {
                assert(d[x] == b[x] && d[y] == b[y]);
            }
        }
        assert(d[i] == b[i]);
        lemma_label_at(d, i);
    }
}

/// Restoring the snapshot of a state gives back that state's saved
/// settings: scan path, filter texts and switches, severities, the
/// component filter as a set, every bookmark with its label, preferences
/// and limits, extra files and file colours; a non-empty regex comes back
/// as typed, and a multi-search whose terms compile comes back with its
/// text and settings.
pub proof fn law_restore_gives_back_snapshot(s: &AppState, d: &SessionData, before: &AppState, after: &AppState)
    requires
        snapshot_of(s, d),
        restored(before, after, d),
        ids_distinct(s.bookmarks@),
    ensures
        after.scan_path == s.scan_path,
        after.filter_state.severity_levels@ == s.filter_state.severity_levels@,
        after.filter_state.text_search == s.filter_state.text_search,
        after.filter_state.fuzzy == s.filter_state.fuzzy,
        after.filter_state.relative_time_secs == s.filter_state.relative_time_secs,
        after.filter_state.bookmarks_only == s.filter_state.bookmarks_only,
        after.filter_state.exclude_text == s.filter_state.exclude_text,
        after.filter_state.hide_no_timestamp == s.filter_state.hide_no_timestamp,
        after.filter_state.dedup_mode == s.filter_state.dedup_mode,
        forall|c: Seq<char>| #[trigger] string_views(after.filter_state.component_filter@).contains(c)
            <==> string_views(s.filter_state.component_filter@).contains(c),
        s.filter_state.regex_pattern@.len() > 0 ==> after.filter_state.regex_pattern@ == s.filter_state.regex_pattern@,
        forall|id: u64| #[trigger] bookmarked(after.bookmarks@, id) == bookmarked(s.bookmarks@, id),
        forall|i: int| 0 <= i < s.bookmarks@.len() ==>
            label_of(after.bookmarks@, (#[trigger] s.bookmarks@[i]).0) == Some(s.bookmarks@[i].1@),
        after.correlation_window_secs == s.correlation_window_secs,
        after.discovery_date_input == s.discovery_date_input,
        after.dark_mode == s.dark_mode,
        after.sort_descending == s.sort_descending,
        after.tail_auto_scroll == s.tail_auto_scroll,
        after.max_files_limit == s.max_files_limit,
        after.max_total_entries == s.max_total_entries,
        after.max_scan_depth == s.max_scan_depth,
        after.tail_poll_interval_ms == s.tail_poll_interval_ms,
        after.dir_watch_poll_interval_ms == s.dir_watch_poll_interval_ms,
        after.max_tail_buffer_entries == s.max_tail_buffer_entries,
        after.troubleshoot_mode == s.troubleshoot_mode,
        after.extra_files_to_restore@ == s.manually_added_files@,
        after.file_colours@ == s.file_colours@,
        ({
            let ms = s.filter_state.multi_search;
            let (inc, exc) = collect_terms(input_tokens(s.multi_search_input@));
            s.multi_search_input@.len() > 0 && terms_compile(inc, exc, ms.regex_mode, ms.whole_word, ms.case_insensitive)
                ==> {
                    &&& after.multi_search_input@ == s.multi_search_input@
                    &&& after.filter_state.multi_search.mode == ms.mode
                    &&& after.filter_state.multi_search.min_match == ms.min_match
                    &&& after.filter_state.multi_search.case_insensitive == ms.case_insensitive
                    &&& after.filter_state.multi_search.whole_word == ms.whole_word
                    &&& after.filter_state.multi_search.regex_mode == ms.regex_mode
                }
        }),
{
    reveal(filter_applied);
    reveal(regex_restored);
    reveal(multi_search_restored);
    assert forall|id: u64| #[trigger] bookmarked(after.bookmarks@, id) == bookmarked(s.bookmarks@, id) by {
        lemma_label_found(after.bookmarks@, id);
        lemma_label_found(s.bookmarks@, id);
    }
    assert forall|i: int| 0 <= i < s.bookmarks@.len() implies
        label_of(after.bookmarks@, (#[trigger] s.bookmarks@[i]).0) == Some(s.bookmarks@[i].1@) by {
        lemma_label_at(s.bookmarks@, i);
    }
}

} // verus!
