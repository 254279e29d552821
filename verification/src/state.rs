//! Application state: loaded entries, the filtered view, selection,
//! bookmarks, correlation overlay and the live-tail buffer.
use vstd::prelude::*;
use crate::clock::{MAX_DELTA_SECS, MAX_UTC_NANOS, MIN_UTC_NANOS, opt_i128, shift_seconds, shifted};
use crate::constants::{DEFAULT_CORRELATION_WINDOW_SECS, DEFAULT_MAX_DEPTH, DEFAULT_MAX_FILES, DEFAULT_MAX_TAIL_BUFFER_ENTRIES, MAX_TOTAL_ENTRIES};
use crate::filter::{DedupInfo, DedupMode, FilterState, apply_dedup, apply_filters, defaults_with, filtered_indices};
use crate::model::{DiscoveredFile, FormatProfile, LogEntry, ScanSummary, Severity, UtcNanos};
use crate::text::{decimal, decimal_string, push_str, spec_str_lower};

verus! {

/// Default tail poll interval, in milliseconds.
pub const TAIL_POLL_INTERVAL_MS: u64 = 500;

/// Default directory-watch poll interval, in milliseconds.
pub const DIR_WATCH_POLL_INTERVAL_MS: u64 = 2000;

/// Entries copied to the clipboard at most.
pub const MAX_CLIPBOARD_ENTRIES: usize = 10000;

/// Everything the application holds between frames.
pub struct AppState {
    pub profiles: Vec<FormatProfile>,
    pub scan_path: Option<String>,
    pub scan_in_progress: bool,
    pub fresh_scan_in_progress: bool,
    pub discovered_files: Vec<DiscoveredFile>,
    pub entries: Vec<LogEntry>,
    /// Indices into `entries` of the visible entries, in order.
    pub filtered_indices: Vec<usize>,
    pub filter_state: FilterState,
    /// Position in `filtered_indices` of the selected entry.
    pub selected_index: Option<usize>,
    /// Positions in `filtered_indices` of the multi-selected entries,
    /// ascending.
    pub selected_indices: Vec<usize>,
    pub scan_summary: Option<ScanSummary>,
    pub status_message: String,
    pub warnings: Vec<String>,
    pub show_summary: bool,
    pub show_log_summary: bool,
    pub show_about: bool,
    pub dark_mode: bool,
    /// Newest entries first in the display.
    pub sort_descending: bool,
    pub debug_mode: bool,
    pub pending_scan: Option<String>,
    pub request_cancel: bool,
    pub file_list_search: String,
    /// Colour of each file as RGBA.
    pub file_colours: Vec<(String, [u8; 4])>,
    pub pending_single_files: Option<Vec<String>>,
    pub pending_parse_skipped: bool,
    /// Only files modified within this many seconds are shown.
    pub activity_window_secs: Option<u64>,
    pub activity_window_input: String,
    pub dir_watcher_active: bool,
    pub dir_watcher_scanning: bool,
    pub tail_active: bool,
    pub tail_auto_scroll: bool,
    pub request_start_tail: bool,
    pub request_stop_tail: bool,
    /// `(entry ID, label)` of each bookmark.
    pub bookmarks: Vec<(u64, String)>,
    pub correlation_active: bool,
    pub correlation_window_secs: i64,
    pub correlation_window_input: String,
    /// IDs of the entries inside the correlation window.
    pub correlated_ids: Vec<u64>,
    pub session_path: Option<String>,
    pub initial_scan: Option<String>,
    pub manually_added_files: Vec<String>,
    pub extra_files_to_restore: Vec<String>,
    pub max_files_limit: usize,
    pub max_total_entries: usize,
    pub max_scan_depth: usize,
    pub tail_poll_interval_ms: u64,
    pub dir_watch_poll_interval_ms: u64,
    pub show_options: bool,
    pub scroll_top_requested: bool,
    pub total_files_found: usize,
    pub discovery_truncated: bool,
    pub pending_replace_files: Option<Vec<String>>,
    pub request_new_session: bool,
    pub discovery_date_input: String,
    pub sidebar_tab: usize,
    pub user_profiles_dir: Option<String>,
    pub request_reload_profiles: bool,
    pub queued_dir_watcher_files: Vec<String>,
    pub queued_parse_files: Vec<String>,
    /// Largest entry ID recorded so far.
    pub max_entry_id: u64,
    /// Deduplication record of each surviving entry index.
    pub dedup_info: Vec<(usize, DedupInfo)>,
    /// Distinct component values of the loaded entries, sorted.
    pub unique_component_values: Vec<String>,
    /// Number of entries from the scan; entries after them come from the
    /// live tail and may be evicted.
    pub tail_base_count: usize,
    pub max_tail_buffer_entries: usize,
    /// Entries without a parsed timestamp.
    pub notimestamp_entry_count: usize,
    /// A text filter edit is waiting to be applied.
    pub filter_dirty: bool,
    pub multi_search_input: String,
    /// Only Critical and Error entries are kept on ingest.
    pub troubleshoot_mode: bool,
    pub request_start_tail_after_scan: bool,
}

/// Status line of a fresh state.
pub open spec fn ready_message() -> Seq<char> {
    "Ready. Open a directory to begin scanning."@
}

/// The state holds nothing from a scan: the part `clear` resets.
pub open spec fn scan_cleared(s: &AppState) -> bool {
    &&& s.discovered_files@.len() == 0
    &&& s.entries@.len() == 0
    &&& s.filtered_indices@.len() == 0
    &&& defaults_with(&s.filter_state, Seq::empty(), false)
    &&& s.selected_index is None
    &&& s.selected_indices@.len() == 0
    &&& s.scan_summary is None
    &&& s.warnings@.len() == 0
    &&& !s.show_summary && !s.show_log_summary
    &&& !s.scan_in_progress
    &&& s.pending_scan is None
    &&& !s.request_cancel
    &&& s.file_list_search@.len() == 0
    &&& s.file_colours@.len() == 0
    &&& s.pending_single_files is None
    &&& !s.pending_parse_skipped
    &&& !s.dir_watcher_active && !s.dir_watcher_scanning
    &&& s.activity_window_secs is None
    &&& s.activity_window_input@.len() == 0
    &&& !s.tail_active && !s.request_start_tail && !s.request_stop_tail
    &&& s.bookmarks@.len() == 0
    &&& !s.correlation_active
    &&& s.correlated_ids@.len() == 0
    &&& s.correlation_window_secs == DEFAULT_CORRELATION_WINDOW_SECS
    &&& s.correlation_window_input@ == decimal(DEFAULT_CORRELATION_WINDOW_SECS as nat)
    &&& s.initial_scan is None
    &&& s.manually_added_files@.len() == 0
    &&& s.extra_files_to_restore@.len() == 0
    &&& s.total_files_found == 0
    &&& !s.discovery_truncated
    &&& s.pending_replace_files is None
    &&& !s.request_new_session
    &&& s.queued_dir_watcher_files@.len() == 0
    &&& s.queued_parse_files@.len() == 0
    &&& s.max_entry_id == 0
    &&& s.tail_base_count == 0
    &&& s.notimestamp_entry_count == 0
    &&& !s.filter_dirty
    &&& !s.fresh_scan_in_progress
    &&& s.unique_component_values@.len() == 0
    &&& s.dedup_info@.len() == 0
    &&& s.multi_search_input@.len() == 0
    &&& !s.request_start_tail_after_scan
}

/// The user preferences that `clear` keeps.
pub open spec fn same_preferences(a: &AppState, b: &AppState) -> bool {
    &&& a.profiles@ == b.profiles@
    &&& a.scan_path == b.scan_path
    &&& a.show_about == b.show_about
    &&& a.dark_mode == b.dark_mode
    &&& a.sort_descending == b.sort_descending
    &&& a.debug_mode == b.debug_mode
    &&& a.tail_auto_scroll == b.tail_auto_scroll
    &&& a.session_path == b.session_path
    &&& a.max_files_limit == b.max_files_limit
    &&& a.max_total_entries == b.max_total_entries
    &&& a.max_scan_depth == b.max_scan_depth
    &&& a.tail_poll_interval_ms == b.tail_poll_interval_ms
    &&& a.dir_watch_poll_interval_ms == b.dir_watch_poll_interval_ms
    &&& a.show_options == b.show_options
    &&& a.discovery_date_input@ == b.discovery_date_input@
    &&& a.sidebar_tab == b.sidebar_tab
    &&& a.user_profiles_dir == b.user_profiles_dir
    &&& a.max_tail_buffer_entries == b.max_tail_buffer_entries
    &&& a.troubleshoot_mode == b.troubleshoot_mode
}

/// The entry at display position `pos`, if any.
pub open spec fn entry_at(s: &AppState, pos: int) -> Option<LogEntry> {
    if 0 <= pos < s.filtered_indices@.len() && (s.filtered_indices@[pos] as int) < s.entries@.len() {
        Some(s.entries@[s.filtered_indices@[pos] as int])
    } else {
        None
    }
}

/// The selected entry, if the selection points at one.
pub open spec fn selected_spec(s: &AppState) -> Option<LogEntry> {
    match s.selected_index {
        Some(i) => entry_at(s, i as int),
        None => None,
    }
}

/// IDs of the entries whose timestamp lies in `[start, end]`, in entry order.
pub open spec fn ids_in_window(es: Seq<LogEntry>, start: int, end: int) -> Seq<u64>
    decreases es.len(),
{
    if es.len() == 0 {
        Seq::empty()
    } else {
        let r = ids_in_window(es.drop_last(), start, end);
        match es.last().timestamp {
            Some(t) => if start <= t && t <= end { r.push(es.last().id) } else { r },
            None => r,
        }
    }
}

/// The correlation overlay: when active and the selected entry has a
/// timestamp `t`, the IDs of all entries within the window around `t`
/// (bounds falling outside chrono's range widen to its limits).
pub open spec fn correlation_spec(s: &AppState) -> Seq<u64> {
    correlation_over(s.entries@, s.filtered_indices@, s.selected_index, s.correlation_active, s.correlation_window_secs)
}

/// `correlation_spec` over the fields it reads.
#[verifier::opaque]
pub open spec fn correlation_over(es: Seq<LogEntry>, f: Seq<usize>, sel: Option<usize>, active: bool, window: i64) -> Seq<u64> {
    if !active {
        Seq::empty()
    } else {
        let selected = match sel {
            Some(i) => if 0 <= i < f.len() && (f[i as int] as int) < es.len() { Some(es[f[i as int] as int]) } else { None },
            None => None,
        };
        match selected {
            Some(e) => match e.timestamp {
                Some(t) => {
                    let start = match shifted(t as int, -window) {
                        Some(x) => x,
                        None => MIN_UTC_NANOS as int,
                    };
                    let end = match shifted(t as int, window as int) {
                        Some(x) => x,
                        None => MAX_UTC_NANOS as int,
                    };
                    ids_in_window(es, start, end)
                },
                None => Seq::empty(),
            },
            None => Seq::empty(),
        }
    }
}

/// Position of the first colour entry of `path`.
pub open spec fn colour_index(c: Seq<(String, [u8; 4])>, path: Seq<char>) -> Option<usize> {
    if exists|i: int| 0 <= i < c.len() && (#[trigger] c[i]).0@ == path {
        let i = choose|i: int| 0 <= i < c.len() && (#[trigger] c[i]).0@ == path
            && forall|k: int| 0 <= k < i ==> (#[trigger] c[k]).0@ != path;
        Some(i as usize)
    } else {
        None
    }
}

/// `id` has a bookmark.
pub open spec fn bookmarked(b: Seq<(u64, String)>, id: u64) -> bool {
    exists|i: int| 0 <= i < b.len() && (#[trigger] b[i]).0 == id
}

/// `after` is `before` with the bookmark of `id` toggled: `id` is bookmarked
/// in `after` exactly when it was not in `before`; other IDs keep their state,
/// and no ID becomes bookmarked twice.
pub open spec fn bookmark_toggled(before: Seq<(u64, String)>, after: Seq<(u64, String)>, id: u64) -> bool {
    &&& bookmarked(after, id) == !bookmarked(before, id)
    &&& forall|x: u64| x != id ==> bookmarked(after, x) == bookmarked(before, x)
    &&& ids_distinct(before) ==> ids_distinct(after)
}

/// Toggling the bookmark of an entry twice gives back exactly the bookmarked
/// IDs there were before.
pub proof fn law_toggle_bookmark_twice_restores(b0: Seq<(u64, String)>, b1: Seq<(u64, String)>, b2: Seq<(u64, String)>, id: u64)
    requires
        bookmark_toggled(b0, b1, id),
        bookmark_toggled(b1, b2, id),
    ensures
        forall|x: u64| bookmarked(b2, x) == bookmarked(b0, x),
        ids_distinct(b0) ==> ids_distinct(b2),
{
}

/// No ID is bookmarked twice.
pub open spec fn ids_distinct(b: Seq<(u64, String)>) -> bool {
    forall|i: int, j: int| 0 <= i < j < b.len() ==> (#[trigger] b[i]).0 != (#[trigger] b[j]).0
}

/// Number of entries without a timestamp.
pub open spec fn count_untimed(es: Seq<LogEntry>) -> nat
    decreases es.len(),
{
    if es.len() == 0 {
        0
    } else {
        count_untimed(es.drop_last()) + if es.last().timestamp is None { 1nat } else { 0nat }
    }
}

/// Largest ID among the entries (zero when there are none).
pub open spec fn max_id(es: Seq<LogEntry>) -> u64
    decreases es.len(),
{
    if es.len() == 0 {
        0
    } else {
        let m = max_id(es.drop_last());
        if es.last().id > m { es.last().id } else { m }
    }
}

/// Critical and Error entries, in order.
pub open spec fn severe_only(es: Seq<LogEntry>) -> Seq<LogEntry>
    decreases es.len(),
{
    if es.len() == 0 {
        Seq::empty()
    } else {
        let r = severe_only(es.drop_last());
        if es.last().severity == Severity::Critical || es.last().severity == Severity::Error {
            r.push(es.last())
        } else {
            r
        }
    }
}

/// The largest ID among the entries (zero when there are none).
pub(crate) fn max_id_exec(es: &Vec<LogEntry>) -> (r: u64)
    ensures
        r == max_id(es@),
{
    let mut m: u64 = 0;
    let mut i: usize = 0;
    while i < es.len()
        invariant
            i <= es.len(),
            m == max_id(es@.take(i as int)),
        decreases es.len() - i,
    {
        assert(es@.take(i + 1).drop_last() =~= es@.take(i as int));
        if es[i].id > m {
            m = es[i].id;
        }
        i += 1;
    }
    assert(es@.take(es@.len() as int) =~= es@);
    m
}

pub(crate) fn count_untimed_exec(es: &Vec<LogEntry>) -> (r: usize)
    ensures
        r == count_untimed(es@),
        r <= es@.len(),
{
    let mut n: usize = 0;
    let mut i: usize = 0;
    while i < es.len()
        invariant
            i <= es.len(),
            n == count_untimed(es@.take(i as int)),
            n <= i,
        decreases es.len() - i,
    {
        assert(es@.take(i + 1).drop_last() =~= es@.take(i as int));
        if es[i].timestamp.is_none() {
            n += 1;
        }
        i += 1;
    }
    assert(es@.take(es@.len() as int) =~= es@);
    n
}

impl AppState {
    /// The largest entry ID recorded so far.
    pub open spec fn max_entry_id_spec(&self) -> u64 {
        self.max_entry_id
    }

    /// A fresh state with the given profiles.
    pub fn new(profiles: Vec<FormatProfile>, debug_mode: bool) -> (r: Self)
        ensures
            scan_cleared(&r),
            r.profiles@ == profiles@,
            r.debug_mode == debug_mode,
            r.scan_path is None,
            r.status_message@ == ready_message(),
            !r.show_about,
            r.dark_mode,
            !r.sort_descending,
            r.tail_auto_scroll,
            r.session_path is None,
            r.max_files_limit == DEFAULT_MAX_FILES,
            r.max_total_entries == MAX_TOTAL_ENTRIES,
            r.max_scan_depth == DEFAULT_MAX_DEPTH,
            r.tail_poll_interval_ms == TAIL_POLL_INTERVAL_MS,
            r.dir_watch_poll_interval_ms == DIR_WATCH_POLL_INTERVAL_MS,
            !r.show_options,
            !r.scroll_top_requested,
            r.discovery_date_input@.len() == 0,
            r.sidebar_tab == 0,
            r.user_profiles_dir is None,
            !r.request_reload_profiles,
            r.max_tail_buffer_entries == DEFAULT_MAX_TAIL_BUFFER_ENTRIES,
            !r.troubleshoot_mode,
    {
        let window_text = decimal_string(DEFAULT_CORRELATION_WINDOW_SECS as u64);
        AppState {
            profiles,
            scan_path: None,
            scan_in_progress: false,
            fresh_scan_in_progress: false,
            discovered_files: Vec::new(),
            entries: Vec::new(),
            filtered_indices: Vec::new(),
            filter_state: FilterState::default(),
            selected_index: None,
            selected_indices: Vec::new(),
            scan_summary: None,
            status_message: "Ready. Open a directory to begin scanning.".to_owned(),
            warnings: Vec::new(),
            show_summary: false,
            show_log_summary: false,
            show_about: false,
            dark_mode: true,
            sort_descending: false,
            debug_mode,
            pending_scan: None,
            request_cancel: false,
            file_list_search: String::new(),
            file_colours: Vec::new(),
            pending_single_files: None,
            pending_parse_skipped: false,
            activity_window_secs: None,
            activity_window_input: String::new(),
            dir_watcher_active: false,
            dir_watcher_scanning: false,
            tail_active: false,
            tail_auto_scroll: true,
            request_start_tail: false,
            request_stop_tail: false,
            bookmarks: Vec::new(),
            correlation_active: false,
            correlation_window_secs: DEFAULT_CORRELATION_WINDOW_SECS,
            correlation_window_input: window_text,
            correlated_ids: Vec::new(),
            session_path: None,
            initial_scan: None,
            manually_added_files: Vec::new(),
            extra_files_to_restore: Vec::new(),
            max_files_limit: DEFAULT_MAX_FILES,
            max_total_entries: MAX_TOTAL_ENTRIES,
            max_scan_depth: DEFAULT_MAX_DEPTH,
            tail_poll_interval_ms: TAIL_POLL_INTERVAL_MS,
            dir_watch_poll_interval_ms: DIR_WATCH_POLL_INTERVAL_MS,
            show_options: false,
            scroll_top_requested: false,
            total_files_found: 0,
            discovery_truncated: false,
            pending_replace_files: None,
            request_new_session: false,
            discovery_date_input: String::new(),
            sidebar_tab: 0,
            user_profiles_dir: None,
            request_reload_profiles: false,
            queued_dir_watcher_files: Vec::new(),
            queued_parse_files: Vec::new(),
            max_entry_id: 0,
            dedup_info: Vec::new(),
            unique_component_values: Vec::new(),
            tail_base_count: 0,
            max_tail_buffer_entries: DEFAULT_MAX_TAIL_BUFFER_ENTRIES,
            notimestamp_entry_count: 0,
            filter_dirty: false,
            multi_search_input: String::new(),
            troubleshoot_mode: false,
            request_start_tail_after_scan: false,
        }
    }

    /// The selected entry, if the selection points at one.
    pub fn selected_entry(&self) -> (r: Option<&LogEntry>)
        ensures
            match r {
                Some(e) => selected_spec(self) == Some(*e),
                None => selected_spec(self) is None,
            },
    {
        match self.selected_index {
            Some(i) => {
                if i < self.filtered_indices.len() {
                    let ei = self.filtered_indices[i];
                    if ei < self.entries.len() {
                        return Some(&self.entries[ei]);
                    }
                }
                None
            },
            None => None,
        }
    }

    /// The correlation overlay for the current state (see
    /// `correlation_spec`).
    fn correlation_ids(&self) -> (r: Vec<u64>)
        requires
            -MAX_DELTA_SECS <= self.correlation_window_secs <= MAX_DELTA_SECS,
        ensures
            r@ == correlation_spec(self),
    {
        reveal(correlation_over);
        if !self.correlation_active {
            return Vec::new();
        }
        let anchor: Option<UtcNanos> = match self.selected_entry() {
            Some(e) => e.timestamp,
            None => return Vec::new(),
        };
        let t = match anchor {
            Some(t) => t,
            None => return Vec::new(),
        };
        let w = self.correlation_window_secs;
        let start: UtcNanos = match shift_seconds(t, -w) {
            Some(x) => x,
            None => MIN_UTC_NANOS,
        };
        let end: UtcNanos = match shift_seconds(t, w) {
            Some(x) => x,
            None => MAX_UTC_NANOS,
        };
        let mut ids: Vec<u64> = Vec::new();
        let mut i: usize = 0;
        while i < self.entries.len()
            invariant
                i <= self.entries.len(),
                ids@ == ids_in_window(self.entries@.take(i as int), start as int, end as int),
            decreases self.entries.len() - i,
        {
            assert(self.entries@.take(i + 1).drop_last() =~= self.entries@.take(i as int));
            if let Some(ts) = self.entries[i].timestamp {
                if start <= ts && ts <= end {
                    ids.push(self.entries[i].id);
                }
            }
            i += 1;
        }
        assert(self.entries@.take(self.entries@.len() as int) =~= self.entries@);
        ids
    }

    /// Recompute the correlation overlay (see `correlation_spec`).
    pub fn update_correlation(&mut self)
        requires
            -MAX_DELTA_SECS <= old(self).correlation_window_secs <= MAX_DELTA_SECS,
        ensures
            final(self).correlated_ids@ == correlation_spec(old(self)),
            final(self).entries@ == old(self).entries@,
            final(self).filtered_indices@ == old(self).filtered_indices@,
            final(self).selected_index == old(self).selected_index,
            final(self).correlation_active == old(self).correlation_active,
            final(self).correlation_window_secs == old(self).correlation_window_secs,
    {
        self.correlated_ids = self.correlation_ids();
    }

    /// The next unused entry ID: one past the largest ID seen (recorded or
    /// present), or zero when there are no entries.
    pub fn next_entry_id(&self) -> (r: u64)
        requires
            self.max_entry_id_spec() < u64::MAX,
            max_id(self.entries@) < u64::MAX,
        ensures
            self.entries@.len() == 0 ==> r == 0,
            self.entries@.len() > 0 ==> r == 1 + if self.max_entry_id_spec() > max_id(self.entries@) {
                self.max_entry_id_spec()
            } else {
                max_id(self.entries@)
            },
    {
        if self.entries.len() == 0 {
            return 0;
        }
        let mut m: u64 = 0;
        let mut i: usize = 0;
        while i < self.entries.len()
            invariant
                i <= self.entries.len(),
                m == max_id(self.entries@.take(i as int)),
            decreases self.entries.len() - i,
        {
            assert(self.entries@.take(i + 1).drop_last() =~= self.entries@.take(i as int));
            if self.entries[i].id > m {
                m = self.entries[i].id;
            }
            i += 1;
        }
        assert(self.entries@.take(self.entries@.len() as int) =~= self.entries@);
        let top = if self.max_entry_id > m { self.max_entry_id } else { m };
        top + 1
    }

    /// Record the largest ID among newly added entries.
    pub fn track_max_entry_id(&mut self, new_entries: &Vec<LogEntry>)
        ensures
            final(self).max_entry_id_spec() == if new_entries@.len() > 0 && max_id(new_entries@) > old(self).max_entry_id_spec() {
                max_id(new_entries@)
            } else {
                old(self).max_entry_id_spec()
            },
    {
        if new_entries.len() == 0 {
            return;
        }
        let mut m: u64 = 0;
        let mut i: usize = 0;
        while i < new_entries.len()
            invariant
                i <= new_entries.len(),
                m == max_id(new_entries@.take(i as int)),
            decreases new_entries.len() - i,
        {
            assert(new_entries@.take(i + 1).drop_last() =~= new_entries@.take(i as int));
            if new_entries[i].id > m {
                m = new_entries[i].id;
            }
            i += 1;
        }
        assert(new_entries@.take(new_entries@.len() as int) =~= new_entries@);
        if m > self.max_entry_id {
            self.max_entry_id = m;
        }
    }

    /// Count the newly added entries that have no timestamp.
    pub fn track_notimestamp_entries(&mut self, new_entries: &Vec<LogEntry>)
        requires
            old(self).notimestamp_entry_count + new_entries@.len() <= usize::MAX,
        ensures
            final(self).notimestamp_entry_count == old(self).notimestamp_entry_count + count_untimed(new_entries@),
    {
        let n = count_untimed_exec(new_entries);
        self.notimestamp_entry_count = self.notimestamp_entry_count + n;
    }

    /// In troubleshoot mode keep only Critical and Error entries, returning
    /// how many were dropped; otherwise leave the entries alone and return
    /// zero.
    pub fn filter_entries_for_ingest(&self, entries: &mut Vec<LogEntry>) -> (r: usize)
        ensures
            !self.troubleshoot_mode ==> final(entries)@ == old(entries)@ && r == 0,
            self.troubleshoot_mode ==> final(entries)@ == severe_only(old(entries)@)
                && r == old(entries)@.len() - final(entries)@.len(),
    {
        if !self.troubleshoot_mode {
            return 0;
        }
        let before = entries.len();
        let mut kept: Vec<LogEntry> = Vec::new();
        let ghost orig = entries@;
        let mut i: usize = 0;
        while i < entries.len()
            invariant
                i <= entries.len(),
                entries@ == orig,
                kept@ == severe_only(orig.take(i as int)),
                kept@.len() <= i,
            decreases entries.len() - i,
        {
            assert(orig.take(i + 1).drop_last() =~= orig.take(i as int));
            let s = entries[i].severity;
            if s == Severity::Critical || s == Severity::Error {
                kept.push(entries[i].clone());
            }
            i += 1;
        }
        assert(orig.take(orig.len() as int) =~= orig);
        *entries = kept;
        before - entries.len()
    }

    /// Mark the current entries as the scan part, never evicted.
    pub fn set_tail_base(&mut self)
        ensures
            final(self).tail_base_count == old(self).entries@.len(),
            final(self).entries@ == old(self).entries@,
    {
        self.tail_base_count = self.entries.len();
    }

    /// Evict the oldest `count` live-tail entries (those after
    /// `tail_base_count`), as many as there are; recount the entries
    /// without a timestamp.  Returns the number evicted.
    pub fn evict_tail_entries(&mut self, count: usize) -> (r: usize)
        ensures
            evicted_from(old(self).entries@, old(self).notimestamp_entry_count, old(self).tail_base_count, count,
                final(self).entries@, final(self).notimestamp_entry_count, r),
            final(self).tail_base_count == old(self).tail_base_count,
    {
        let base = self.tail_base_count;
        evict_from(&mut self.entries, &mut self.notimestamp_entry_count, base, count)
    }

    /// Flip the display direction.
    pub fn toggle_sort_direction(&mut self)
        ensures
            final(self).sort_descending == !old(self).sort_descending,
            final(self).selected_index == old(self).selected_index,
            final(self).filtered_indices@ == old(self).filtered_indices@,
            final(self).entries@ == old(self).entries@,
    {
        self.sort_descending = !self.sort_descending;
    }

    /// Position of the colour entry of `path`, if any.
    fn colour_position(&self, path: &str) -> (r: Option<usize>)
        ensures
            r == colour_index(self.file_colours@, path@),
            r matches Some(i) ==> i < self.file_colours@.len(),
    {
        let mut i: usize = 0;
        while i < self.file_colours.len()
            invariant
                i <= self.file_colours.len(),
                forall|k: int| 0 <= k < i ==> (#[trigger] self.file_colours@[k]).0@ != path@,
            decreases self.file_colours.len() - i,
        {
            if crate::text::str_eq(self.file_colours[i].0.as_str(), path) {
                proof {
                    let c = self.file_colours@;
                    let j = choose|j: int| 0 <= j < c.len() && (#[trigger] c[j]).0@ == path@
                        && forall|k: int| 0 <= k < j ==> (#[trigger] c[k]).0@ != path@;
                    assert(c[i as int].0@ == path@);
                    if j < i {
                        assert(c[j].0@ != path@);
                    }
                    if j > i {
                        assert(c[i as int].0@ != path@);
                    }
                }
                return Some(i);
            }
            i += 1;
        }
        None
    }

    /// Give `path` a colour unless it has one: the palette colour at the
    /// number of files coloured so far, round the palette.
    pub fn assign_file_colour(&mut self, path: &str, palette: &[[u8; 4]])
        requires
            palette@.len() > 0,
        ensures
            colour_index(old(self).file_colours@, path@) is Some ==> final(self).file_colours@ == old(self).file_colours@,
            colour_index(old(self).file_colours@, path@) is None ==> {
                &&& final(self).file_colours@.len() == old(self).file_colours@.len() + 1
                &&& final(self).file_colours@.drop_last() == old(self).file_colours@
                &&& final(self).file_colours@.last().0@ == path@
                &&& final(self).file_colours@.last().1 == palette@[(old(self).file_colours@.len() % palette@.len()) as int]
            },
            final(self).discovered_files@ == old(self).discovered_files@,
            final(self).entries@ == old(self).entries@,
    {
        if self.colour_position(path).is_none() {
            let colour = palette[self.file_colours.len() % palette.len()];
            self.file_colours.push((path.to_owned(), colour));
        }
    }

    /// Colour of `path`, or neutral grey when it has none.
    pub fn colour_for_file(&self, path: &str) -> (r: [u8; 4])
        ensures
            match colour_index(self.file_colours@, path@) {
                Some(i) => r == self.file_colours@[i as int].1,
                None => r@ == seq![107u8, 114u8, 128u8, 255u8],
            },
    {
        match self.colour_position(path) {
            Some(i) => self.file_colours[i].1,
            None => {
                let grey: [u8; 4] = [107, 114, 128, 255];
                assert(grey@ =~= seq![107u8, 114u8, 128u8, 255u8]);
                grey
            },
        }
    }

    /// Whether entry `entry_id` has a bookmark.
    pub fn is_bookmarked(&self, entry_id: u64) -> (r: bool)
        ensures
            r == bookmarked(self.bookmarks@, entry_id),
    {
        let mut i: usize = 0;
        while i < self.bookmarks.len()
            invariant
                i <= self.bookmarks.len(),
                forall|k: int| 0 <= k < i ==> (#[trigger] self.bookmarks@[k]).0 != entry_id,
            decreases self.bookmarks.len() - i,
        {
            if self.bookmarks[i].0 == entry_id {
                return true;
            }
            i += 1;
        }
        false
    }

    /// Number of bookmarks.
    pub fn bookmark_count(&self) -> (r: usize)
        ensures
            r == self.bookmarks@.len(),
    {
        self.bookmarks.len()
    }

    /// Add a bookmark (with an empty label) to an entry that has none and
    /// return true; remove the bookmark of an entry that has one and return
    /// false.
    pub fn toggle_bookmark(&mut self, entry_id: u64) -> (r: bool)
        ensures
            r == !bookmarked(old(self).bookmarks@, entry_id),
            bookmark_toggled(old(self).bookmarks@, final(self).bookmarks@, entry_id),
    {
        if self.is_bookmarked(entry_id) {
            let ghost orig = self.bookmarks@;
            let mut kept: Vec<(u64, String)> = Vec::new();
            let mut i: usize = 0;
            while i < self.bookmarks.len()
                invariant
                    i <= self.bookmarks.len(),
                    self.bookmarks@ == orig,
                    forall|k: int| 0 <= k < kept@.len() ==> (#[trigger] kept@[k]).0 != entry_id,
                    forall|id: u64| id != entry_id ==> (bookmarked(kept@, id) <==> bookmarked(orig.take(i as int), id)),
                    ids_distinct(orig) ==> ids_distinct(kept@),
                    forall|k: int| 0 <= k < kept@.len() ==> bookmarked(orig.take(i as int), (#[trigger] kept@[k]).0),
                decreases self.bookmarks.len() - i,
            {
                let (id, label) = (self.bookmarks[i].0, self.bookmarks[i].1.clone());
                let ghost before = kept@;
                if id != entry_id {
                    kept.push((id, label));
                }
                proof {
                    let t1 = orig.take(i + 1);
                    assert(t1 =~= orig.take(i as int).push(orig[i as int]));
                    assert forall|x: u64| x != entry_id implies (bookmarked(kept@, x) <==> bookmarked(t1, x)) by {
                        if bookmarked(t1, x) && !bookmarked(orig.take(i as int), x) {
                            assert(orig[i as int].0 == x);
                            assert(kept@[kept@.len() - 1].0 == x);
                        }
                        if bookmarked(kept@, x) && !bookmarked(before, x) {
                            assert(t1[i as int].0 == x);
                        }
                        if bookmarked(before, x) {
                            let k = choose|k: int| 0 <= k < before.len() && (#[trigger] before[k]).0 == x;
                            assert(kept@[k] == before[k]);
                        }
                        if bookmarked(orig.take(i as int), x) {
                            let k = choose|k: int| 0 <= k < orig.take(i as int).len() && (#[trigger] orig.take(i as int)[k]).0 == x;
                            assert(t1[k] == orig.take(i as int)[k]);
                        }
                    }
                    assert forall|k: int| 0 <= k < kept@.len() implies bookmarked(t1, (#[trigger] kept@[k]).0) by {
                        if k < before.len() {
                            assert(kept@[k] == before[k]);
                            let j = choose|j: int| 0 <= j < orig.take(i as int).len() && (#[trigger] orig.take(i as int)[j]).0 == before[k].0;
                            assert(t1[j] == orig.take(i as int)[j]);
                        } else {
                            assert(t1[i as int].0 == kept@[k].0);
                        }
                    }
                    if ids_distinct(orig) && id != entry_id {
                        assert forall|a: int, b: int| 0 <= a < b < kept@.len() implies (#[trigger] kept@[a]).0 != (#[trigger] kept@[b]).0 by {
                            if b == kept@.len() - 1 {
                                assert(kept@[a] == before[a]);
                                let j = choose|j: int| 0 <= j < orig.take(i as int).len() && (#[trigger] orig.take(i as int)[j]).0 == before[a].0;
                                assert(orig[j].0 == before[a].0);
                                assert(orig[i as int].0 == kept@[b].0);
                            } else {
                                assert(kept@[a] == before[a] && kept@[b] == before[b]);
                            }
                        }
                    }
                }
                i += 1;
            }
            assert(orig.take(orig.len() as int) =~= orig);
            self.bookmarks = kept;
            false
        } else {
            let ghost orig = self.bookmarks@;
            self.bookmarks.push((entry_id, String::new()));
            proof {
                assert(self.bookmarks@[orig.len() as int].0 == entry_id);
                assert forall|x: u64| x != entry_id implies bookmarked(self.bookmarks@, x) == bookmarked(orig, x) by {
                    if bookmarked(orig, x) {
                        let k = choose|k: int| 0 <= k < orig.len() && (#[trigger] orig[k]).0 == x;
                        assert(self.bookmarks@[k] == orig[k]);
                    }
                    if bookmarked(self.bookmarks@, x) {
                        let k = choose|k: int| 0 <= k < self.bookmarks@.len() && (#[trigger] self.bookmarks@[k]).0 == x;
                        assert(k < orig.len());
                        assert(orig[k] == self.bookmarks@[k]);
                    }
                }
                if ids_distinct(orig) {
                    assert forall|a: int, b: int| 0 <= a < b < self.bookmarks@.len() implies (#[trigger] self.bookmarks@[a]).0 != (#[trigger] self.bookmarks@[b]).0 by {
                        if b == orig.len() {
                            assert(self.bookmarks@[a] == orig[a]);
                        } else {
                            assert(self.bookmarks@[a] == orig[a] && self.bookmarks@[b] == orig[b]);
                        }
                    }
                }
            }
            true
        }
    }
}

// ---------------------------------------------------------------------------
// Filtering the view
// ---------------------------------------------------------------------------

/// The file at `path` counts as active for the cutoff: some discovered file
/// with that path has no known modification time or was modified at or after
/// the cutoff.
pub open spec fn file_active(files: Seq<DiscoveredFile>, path: Seq<char>, cutoff: int) -> bool {
    exists|i: int| 0 <= i < files.len() && (#[trigger] files[i]).path@ == path
        && (files[i].modified matches Some(t) ==> t >= cutoff)
}

/// The indices of `v` whose entry comes from an active file.
pub open spec fn keep_active(es: Seq<LogEntry>, files: Seq<DiscoveredFile>, cutoff: int, v: Seq<usize>) -> Seq<usize>
    decreases v.len(),
{
    if v.len() == 0 {
        v
    } else {
        let r = keep_active(es, files, cutoff, v.drop_last());
        let i = v.last();
        if i < es.len() && file_active(files, es[i as int].source_file@, cutoff) {
            r.push(i)
        } else {
            r
        }
    }
}

/// The activity-window cutoff at instant `now`.
pub open spec fn cutoff_at(s: &AppState, now: int) -> Option<int> {
    match s.activity_window_secs {
        Some(x) => shifted(now, -(x as int)),
        None => None,
    }
}

/// The position of the first visible entry with ID `id`.
#[verifier::opaque]
pub open spec fn first_with_id(es: Seq<LogEntry>, f: Seq<usize>, id: u64, from: int) -> Option<int>
    decreases f.len() - from,
{
    if from < 0 || from >= f.len() {
        None
    } else if (f[from] as int) < es.len() && es[f[from] as int].id == id {
        Some(from)
    } else {
        first_with_id(es, f, id, from + 1)
    }
}

/// IDs of the entries at the given display positions (positions that
/// point nowhere are skipped).
#[verifier::opaque]
pub open spec fn ids_at(es: Seq<LogEntry>, f: Seq<usize>, pos: Seq<usize>) -> Seq<u64>
    decreases pos.len(),
{
    if pos.len() == 0 {
        Seq::empty()
    } else {
        let r = ids_at(es, f, pos.drop_last());
        let p = pos.last();
        if (p as int) < f.len() && (f[p as int] as int) < es.len() {
            r.push(es[f[p as int] as int].id)
        } else {
            r
        }
    }
}

/// Display positions `< n` whose entry ID is among `ids`, ascending.
#[verifier::opaque]
pub open spec fn positions_of(es: Seq<LogEntry>, f: Seq<usize>, ids: Seq<u64>, n: nat) -> Seq<usize>
    decreases n,
{
    if n == 0 {
        Seq::empty()
    } else {
        let r = positions_of(es, f, ids, (n - 1) as nat);
        let p = n - 1;
        if p < f.len() && (f[p] as int) < es.len() && ids.contains(es[f[p] as int].id) {
            r.push(p as usize)
        } else {
            r
        }
    }
}

/// The entry's component is `c`.
pub open spec fn comp_is(e: LogEntry, c: Seq<char>) -> bool {
    e.component matches Some(x) && x@ == c
}

/// Some entry has component `c`.
pub open spec fn has_component(es: Seq<LogEntry>, c: Seq<char>) -> bool {
    exists|i: int| 0 <= i < es.len() && comp_is(#[trigger] es[i], c)
}

/// `v` lists the distinct components of `es`, sorted.
#[verifier::opaque]
pub open spec fn components_listed(v: Seq<String>, es: Seq<LogEntry>) -> bool {
    &&& crate::text::strictly_sorted(crate::text::string_views(v))
    &&& forall|c: Seq<char>| #[trigger] crate::text::string_views(v).contains(c) <==> has_component(es, c)
}

/// IDs of the bookmarks, in order.
pub open spec fn bookmark_ids(b: Seq<(u64, String)>) -> Seq<u64> {
    b.map_values(|p: (u64, String)| p.0)
}

/// The filter settings prepared for the current instant: the relative
/// window turned into a start bound, and the bookmark IDs handed over.
pub open spec fn filter_prepared(old: &AppState, new: &AppState, now: int) -> bool {
    &&& (old.filter_state.relative_time_secs matches Some(x) ==>
        opt_i128(new.filter_state.time_start) == shifted(now, -(x as int)) && new.filter_state.time_end is None)
    &&& (old.filter_state.relative_time_secs is None ==>
        new.filter_state.time_start == old.filter_state.time_start && new.filter_state.time_end == old.filter_state.time_end)
    &&& new.filter_state.bookmarked_ids@ == if old.filter_state.bookmarks_only { bookmark_ids(old.bookmarks@) } else { Seq::empty() }
    &&& new.filter_state.severity_levels@ == old.filter_state.severity_levels@
    &&& new.filter_state.source_files@ == old.filter_state.source_files@
    &&& new.filter_state.hide_all_sources == old.filter_state.hide_all_sources
    &&& new.filter_state.text_search@ == old.filter_state.text_search@
    &&& new.filter_state.fuzzy == old.filter_state.fuzzy
    &&& new.filter_state.regex_pattern@ == old.filter_state.regex_pattern@
    &&& new.filter_state.regex_search == old.filter_state.regex_search
    &&& new.filter_state.relative_time_secs == old.filter_state.relative_time_secs
    &&& new.filter_state.bookmarks_only == old.filter_state.bookmarks_only
    &&& new.filter_state.exclude_text@ == old.filter_state.exclude_text@
    &&& new.filter_state.component_filter@ == old.filter_state.component_filter@
    &&& new.filter_state.hide_no_timestamp == old.filter_state.hide_no_timestamp
    &&& new.filter_state.dedup_mode == old.filter_state.dedup_mode
}

/// The visible indices for prepared filter settings.
pub open spec fn view_indices(s: &AppState, cutoff: Option<int>) -> Seq<usize> {
    view_over(s.entries@, &s.filter_state, s.discovered_files@, cutoff)
}

/// The visible indices: the core filter, then the activity window, then
/// deduplication.
#[verifier::opaque]
pub open spec fn view_over(es: Seq<LogEntry>, fs: &FilterState, files: Seq<DiscoveredFile>, cutoff: Option<int>) -> Seq<usize> {
    let base = filtered_indices(es, fs);
    let active = match cutoff {
        Some(c) => if files.len() > 0 { keep_active(es, files, c, base) } else { base },
        None => base,
    };
    if fs.dedup_mode == DedupMode::Off {
        active
    } else {
        crate::filter::survivors(es, fs.dedup_mode, active, active)
    }
}

/// Everything `apply_filters` establishes, for the instant `now`.
pub open spec fn filters_applied(old: &AppState, new: &AppState, now: int) -> bool {
    &&& filter_prepared(old, new, now)
    &&& new.entries@ == old.entries@
    &&& new.discovered_files@ == old.discovered_files@
    &&& new.bookmarks@ == old.bookmarks@
    &&& new.activity_window_secs == old.activity_window_secs
    &&& new.correlation_active == old.correlation_active
    &&& new.correlation_window_secs == old.correlation_window_secs
    &&& !new.filter_dirty
    &&& new.filtered_indices@ == view_indices(new, cutoff_at(old, now))
    &&& (new.filter_state.dedup_mode == DedupMode::Off ==> new.dedup_info@.len() == 0)
    &&& new.selected_index == match selected_spec(old) {
        Some(e) => match first_with_id(new.entries@, new.filtered_indices@, e.id, 0) {
            Some(p) => Some(p as usize),
            None => None,
        },
        None => None,
    }
    &&& new.selected_indices@ == positions_of(new.entries@, new.filtered_indices@,
        ids_at(old.entries@, old.filtered_indices@, old.selected_indices@), new.filtered_indices@.len())
    &&& new.correlated_ids@ == correlation_spec(new)
    &&& components_listed(new.unique_component_values@, new.entries@)
}

/// The settings `apply_filters` needs: time offsets that a `TimeDelta` can
/// hold.
pub open spec fn offsets_ok(s: &AppState) -> bool {
    &&& (s.filter_state.relative_time_secs matches Some(x) ==> x <= MAX_DELTA_SECS)
    &&& (s.activity_window_secs matches Some(x) ==> x <= MAX_DELTA_SECS)
    &&& -MAX_DELTA_SECS <= s.correlation_window_secs <= MAX_DELTA_SECS
}

fn bookmark_id_list(b: &Vec<(u64, String)>) -> (r: Vec<u64>)
    ensures
        r@ == bookmark_ids(b@),
{
    let mut r: Vec<u64> = Vec::new();
    let mut i: usize = 0;
    while i < b.len()
        invariant
            i <= b.len(),
            r@ == bookmark_ids(b@.take(i as int)),
        decreases b.len() - i,
    {
        r.push(b[i].0);
        assert(bookmark_ids(b@.take(i + 1)) =~= bookmark_ids(b@.take(i as int)).push(b@[i as int].0));
        i += 1;
    }
    assert(b@.take(b@.len() as int) =~= b@);
    r
}

fn path_active(files: &Vec<DiscoveredFile>, path: &str, cutoff: UtcNanos) -> (r: bool)
    ensures
        r == file_active(files@, path@, cutoff as int),
{
    let mut i: usize = 0;
    while i < files.len()
        invariant
            i <= files.len(),
            forall|k: int| 0 <= k < i ==> !((#[trigger] files@[k]).path@ == path@
                && (files@[k].modified matches Some(t) ==> t >= cutoff)),
        decreases files.len() - i,
    {
        let ok = match files[i].modified {
            Some(t) => t >= cutoff,
            None => true,
        };
        if ok && crate::text::str_eq(files[i].path.as_str(), path) {
            return true;
        }
        i += 1;
    }
    false
}

fn keep_active_exec(es: &Vec<LogEntry>, files: &Vec<DiscoveredFile>, cutoff: UtcNanos, v: &Vec<usize>) -> (r: Vec<usize>)
    ensures
        r@ == keep_active(es@, files@, cutoff as int, v@),
{
    let mut r: Vec<usize> = Vec::new();
    let mut i: usize = 0;
    while i < v.len()
        invariant
            i <= v.len(),
            r@ == keep_active(es@, files@, cutoff as int, v@.take(i as int)),
        decreases v.len() - i,
    {
        assert(v@.take(i + 1).drop_last() =~= v@.take(i as int));
        let idx = v[i];
        if idx < es.len() && path_active(files, es[idx].source_file.as_str(), cutoff) {
            r.push(idx);
        }
        i += 1;
    }
    assert(v@.take(v@.len() as int) =~= v@);
    r
}

fn ids_contains(v: &Vec<u64>, id: u64) -> (r: bool)
    ensures
        r == v@.contains(id),
{
    let mut i: usize = 0;
    while i < v.len()
        invariant
            i <= v.len(),
            forall|k: int| 0 <= k < i ==> v@[k] != id,
        decreases v.len() - i,
    {
        if v[i] == id {
            return true;
        }
        i += 1;
    }
    false
}

impl AppState {
    /// The activity-window cutoff at instant `now`: the window start, or
    /// `None` when no window is set or the instant is out of range.
    pub fn activity_cutoff_at(&self, now: UtcNanos) -> (r: Option<UtcNanos>)
        requires
            self.activity_window_secs matches Some(x) ==> x <= MAX_DELTA_SECS,
        ensures
            opt_i128(r) == cutoff_at(self, now as int),
    {
        match self.activity_window_secs {
            Some(x) => shift_seconds(now, -(x as i64)),
            None => None,
        }
    }

    /// The activity-window cutoff now.
    pub fn activity_cutoff(&self) -> (r: Option<UtcNanos>)
        requires
            self.activity_window_secs matches Some(x) ==> x <= MAX_DELTA_SECS,
        ensures
            exists|now: UtcNanos| opt_i128(r) == cutoff_at(self, now as int),
    {
        let now = crate::clock::now_nanos();
        self.activity_cutoff_at(now)
    }

    /// Rebuild the sorted list of distinct component values.
    pub fn rebuild_unique_values(&mut self)
        ensures
            components_listed(final(self).unique_component_values@, final(self).entries@),
            final(self).entries@ == old(self).entries@,
    {
        self.unique_component_values = unique_components(&self.entries);
    }
}

/// The distinct component values of the entries, sorted.
fn unique_components(entries: &Vec<LogEntry>) -> (r: Vec<String>)
    ensures
        components_listed(r@, entries@),
{
    reveal(components_listed);
    {
        let mut cv: Vec<String> = Vec::new();
        let mut i: usize = 0;
        while i < entries.len()
            invariant
                i <= entries.len(),
                crate::text::strictly_sorted(crate::text::string_views(cv@)),
                forall|c: Seq<char>| #[trigger] crate::text::string_views(cv@).contains(c) <==> has_component(entries@.take(i as int), c),
            decreases entries.len() - i,
        {
            let ghost es_i = entries@.take(i as int);
            let ghost es_n = entries@.take(i + 1);
            assert forall|k: int| 0 <= k < es_i.len() implies es_n[k] == #[trigger] es_i[k] by {}
            match &entries[i].component {
                Some(c) => {
                    let present = crate::filter::string_in(&cv, c.as_str());
                    if !present {
                        crate::text::insert_sorted(&mut cv, c.clone());
                    }
                    proof {
                        assert forall|x: Seq<char>| #[trigger] crate::text::string_views(cv@).contains(x) <==> has_component(es_n, x) by {
                            if has_component(es_n, x) && !has_component(es_i, x) {
                                let k = choose|k: int| 0 <= k < es_n.len() && comp_is(#[trigger] es_n[k], x);
                                assert(k == i);
                            }
                            if has_component(es_i, x) {
                                let k = choose|k: int| 0 <= k < es_i.len() && comp_is(#[trigger] es_i[k], x);
                                assert(es_n[k] == es_i[k]);
                            }
                            if x == c@ {
                                assert(es_n[i as int] == entries@[i as int]);
                            }
                        }
                    }
                },
                None => {
                    proof {
                        assert forall|x: Seq<char>| has_component(es_n, x) <==> has_component(es_i, x) by {
                            if has_component(es_n, x) {
                                let k = choose|k: int| 0 <= k < es_n.len() && comp_is(#[trigger] es_n[k], x);
                                assert(k != i);
                                assert(es_i[k] == es_n[k]);
                            }
                            if has_component(es_i, x) {
                                let k = choose|k: int| 0 <= k < es_i.len() && comp_is(#[trigger] es_i[k], x);
                                assert(es_n[k] == es_i[k]);
                            }
                        }
                    }
                },
            }
            i += 1;
        }
        assert(entries@.take(entries@.len() as int) =~= entries@);
        cv
    }
}

impl AppState {

    /// Recompute the visible entries at instant `now` (see
    /// `filters_applied`): prepare the filter settings, run the core filter,
    /// keep entries of active files, deduplicate, restore the selection and
    /// multi-selection by entry ID, and refresh the correlation overlay and
    /// the component list.
    #[verifier::rlimit(80)]
    #[verifier::spinoff_prover]
    pub fn apply_filters_at(&mut self, now: UtcNanos)
        requires
            offsets_ok(old(self)),
        ensures
            filters_applied(old(self), final(self), now as int),
            offsets_ok(final(self)),
    {
        let selected_id: Option<u64> = match self.selected_entry() {
            Some(e) => Some(e.id),
            None => None,
        };
        let multi_ids = selected_ids(&self.entries, &self.filtered_indices, &self.selected_indices);
        let cutoff = self.activity_cutoff_at(now);
        self.filter_dirty = false;
        prepare_filter(&mut self.filter_state, &self.bookmarks, now);
        let (view, info) = compute_view(&self.entries, &self.filter_state, &self.discovered_files, cutoff);
        self.filtered_indices = view;
        self.dedup_info = info;
        self.selected_index = match selected_id {
            Some(id) => find_first_id(&self.entries, &self.filtered_indices, id),
            None => None,
        };
        self.selected_indices = positions_for(&self.entries, &self.filtered_indices, &multi_ids);
        self.correlated_ids = self.correlation_ids();
        self.unique_component_values = unique_components(&self.entries);
    }

    /// Recompute the visible entries now.
    pub fn apply_filters(&mut self)
        requires
            offsets_ok(old(self)),
        ensures
            exists|now: UtcNanos| filters_applied(old(self), final(self), now as int),
            offsets_ok(final(self)),
    {
        let now = crate::clock::now_nanos();
        self.apply_filters_at(now);
    }
}

/// Prepare the filter settings for instant `now`.
fn prepare_filter(fs: &mut FilterState, bookmarks: &Vec<(u64, String)>, now: UtcNanos)
    requires
        old(fs).relative_time_secs matches Some(x) ==> x <= MAX_DELTA_SECS,
    ensures
        (old(fs).relative_time_secs matches Some(x) ==>
            opt_i128(final(fs).time_start) == shifted(now as int, -(x as int)) && final(fs).time_end is None),
        (old(fs).relative_time_secs is None ==> final(fs).time_start == old(fs).time_start && final(fs).time_end == old(fs).time_end),
        final(fs).bookmarked_ids@ == if old(fs).bookmarks_only { bookmark_ids(bookmarks@) } else { Seq::empty() },
        *final(fs) == (FilterState { time_start: final(fs).time_start, time_end: final(fs).time_end, bookmarked_ids: final(fs).bookmarked_ids, ..*old(fs) }),
{
    if let Some(secs) = fs.relative_time_secs {
        fs.time_start = shift_seconds(now, -(secs as i64));
        fs.time_end = None;
    }
    if fs.bookmarks_only {
        fs.bookmarked_ids = bookmark_id_list(bookmarks);
    } else {
        fs.bookmarked_ids = Vec::new();
    }
}

/// IDs of the multi-selected entries.
fn selected_ids(entries: &Vec<LogEntry>, filtered: &Vec<usize>, selected: &Vec<usize>) -> (r: Vec<u64>)
    ensures
        r@ == ids_at(entries@, filtered@, selected@),
{
    reveal(ids_at);
    let mut multi_ids: Vec<u64> = Vec::new();
    let mut k: usize = 0;
    while k < selected.len()
        invariant
            k <= selected.len(),
            multi_ids@ == ids_at(entries@, filtered@, selected@.take(k as int)),
        decreases selected.len() - k,
    {
        reveal(ids_at);
        assert(selected@.take(k + 1).drop_last() =~= selected@.take(k as int));
        let p = selected[k];
        if p < filtered.len() {
            let ei = filtered[p];
            if ei < entries.len() {
                multi_ids.push(entries[ei].id);
            }
        }
        k += 1;
    }
    assert(selected@.take(selected@.len() as int) =~= selected@);
    multi_ids
}

/// The visible indices and deduplication records for prepared settings.
fn compute_view(entries: &Vec<LogEntry>, fs: &FilterState, files: &Vec<DiscoveredFile>, cutoff: Option<UtcNanos>) -> (r: (Vec<usize>, Vec<(usize, DedupInfo)>))
    ensures
        r.0@ == view_over(entries@, fs, files@, opt_i128(cutoff)),
        fs.dedup_mode == DedupMode::Off ==> r.1@.len() == 0,
{
    reveal(view_over);
    let base = apply_filters(entries, fs);
    let active = match cutoff {
        Some(c) => {
            if files.len() > 0 {
                keep_active_exec(entries, files, c, &base)
            } else {
                base
            }
        },
        None => base,
    };
    if fs.dedup_mode != DedupMode::Off {
        apply_dedup(entries, &active, fs.dedup_mode)
    } else {
        (active, Vec::new())
    }
}

/// Position of the first visible entry with ID `id`.
fn find_first_id(entries: &Vec<LogEntry>, filtered: &Vec<usize>, id: u64) -> (r: Option<usize>)
    ensures
        match r {
            Some(p) => first_with_id(entries@, filtered@, id, 0) == Some(p as int),
            None => first_with_id(entries@, filtered@, id, 0) is None,
        },
{
    reveal(first_with_id);
    let mut p: usize = 0;
    while p < filtered.len()
        invariant
            p <= filtered.len(),
            first_with_id(entries@, filtered@, id, 0) == first_with_id(entries@, filtered@, id, p as int),
        decreases filtered.len() - p,
    {
        reveal(first_with_id);
        let ei = filtered[p];
        if ei < entries.len() && entries[ei].id == id {
            return Some(p);
        }
        p += 1;
    }
    None
}

/// Positions of the visible entries whose ID is in `ids`.
fn positions_for(entries: &Vec<LogEntry>, filtered: &Vec<usize>, ids: &Vec<u64>) -> (r: Vec<usize>)
    ensures
        r@ == positions_of(entries@, filtered@, ids@, filtered@.len()),
{
    reveal(positions_of);
    let mut positions: Vec<usize> = Vec::new();
    if ids.len() == 0 {
        proof {
            lemma_positions_none(entries@, filtered@, ids@, filtered@.len());
        }
        return positions;
    }
    let mut p: usize = 0;
    while p < filtered.len()
        invariant
            p <= filtered.len(),
            positions@ == positions_of(entries@, filtered@, ids@, p as nat),
        decreases filtered.len() - p,
    {
        reveal(positions_of);
        let ei = filtered[p];
        if ei < entries.len() && ids_contains(ids, entries[ei].id) {
            positions.push(p);
        }
        p += 1;
    }
    positions
}

proof fn lemma_positions_none(es: Seq<LogEntry>, f: Seq<usize>, ids: Seq<u64>, n: nat)
    requires
        ids.len() == 0,
    ensures
        positions_of(es, f, ids, n) == Seq::<usize>::empty(),
    decreases n,
{
    reveal(positions_of);
    if n > 0 {
        lemma_positions_none(es, f, ids, (n - 1) as nat);
    }
}

// ---------------------------------------------------------------------------
// Sorting
// ---------------------------------------------------------------------------

/// Entry `a` comes before entry `b` in the timeline: by timestamp, entries
/// without one last, and by position among equals (a stable order).
pub open spec fn time_before(es: Seq<LogEntry>, a: usize, b: usize) -> bool {
    match (es[a as int].timestamp, es[b as int].timestamp) {
        (Some(x), Some(y)) => x < y || (x == y && a < b),
        (Some(_), None) => true,
        (None, Some(_)) => false,
        (None, None) => a < b,
    }
}

/// `v` is strictly increasing in timeline order.
pub open spec fn in_time_order(es: Seq<LogEntry>, v: Seq<usize>) -> bool {
    forall|i: int, j: int| 0 <= i < j < v.len() ==> time_before(es, #[trigger] v[i], #[trigger] v[j])
}

/// Every index of `v` points into `es`.
pub open spec fn all_below(v: Seq<usize>, n: nat) -> bool {
    forall|i: int| 0 <= i < v.len() ==> (#[trigger] v[i] as int) < n
}

/// The timeline order of `es`: a permutation `p` of its positions in
/// strictly increasing timeline order (there is exactly one).
pub open spec fn is_timeline(es: Seq<LogEntry>, p: Seq<usize>) -> bool {
    &&& p.len() == es.len()
    &&& all_below(p, es.len())
    &&& in_time_order(es, p)
}

/// The entries of `es` at the positions `p`, in that order.
pub open spec fn reordered(es: Seq<LogEntry>, p: Seq<usize>) -> Seq<LogEntry> {
    p.map_values(|k: usize| es[k as int])
}

/// Position `i` occurs in `p`.
pub open spec fn lists_position(p: Seq<usize>, i: int) -> bool {
    exists|j: int| 0 <= j < p.len() && p[j] as int == i
}

proof fn lemma_timeline_covers(es: Seq<LogEntry>, p: Seq<usize>)
    requires
        is_timeline(es, p),
    ensures
        forall|i: int| 0 <= i < es.len() ==> #[trigger] lists_position(p, i),
{
    broadcast use vstd::seq_lib::seq_to_set_is_finite;
    let pi = p.map_values(|k: usize| k as int);
    assert(pi.no_duplicates()) by {
        assert forall|a: int, b: int| 0 <= a < b < pi.len() implies pi[a] != pi[b] by {
            assert(time_before(es, p[a], p[b]));
        }
    }
    pi.unique_seq_to_set();
    let r = vstd::set_lib::set_int_range(0, es.len() as int);
    vstd::set_lib::lemma_int_range(0, es.len() as int);
    assert(pi.to_set().subset_of(r)) by {
        assert forall|x: int| pi.to_set().contains(x) implies r.contains(x) by {
            let j = choose|j: int| 0 <= j < pi.len() && pi[j] == x;
            assert(p[j] as int == x);
        }
    }
    vstd::set_lib::lemma_subset_equality(pi.to_set(), r);
    assert forall|i: int| 0 <= i < es.len() implies #[trigger] lists_position(p, i) by {
        assert(r.contains(i));
        assert(pi.to_set().contains(i));
        let j = choose|j: int| 0 <= j < pi.len() && pi[j] == i;
        assert(p[j] as int == i);
    }
}

/// The timeline order of a sequence of entries is unique: two permutations
/// that both list the positions in timeline order are the same.
pub proof fn law_timeline_is_unique(es: Seq<LogEntry>, p: Seq<usize>, q: Seq<usize>)
    requires
        is_timeline(es, p),
        is_timeline(es, q),
    ensures
        p == q,
{
    lemma_timeline_covers(es, p);
    lemma_timeline_covers(es, q);
    assert forall|k: int| 0 <= k < p.len() implies p[k] == q[k] by {
        lemma_timeline_prefix_equal(es, p, q, k);
    }
    assert(p =~= q);
}

proof fn lemma_timeline_prefix_equal(es: Seq<LogEntry>, p: Seq<usize>, q: Seq<usize>, k: int)
    requires
        is_timeline(es, p),
        is_timeline(es, q),
        0 <= k < p.len(),
        forall|i: int| 0 <= i < es.len() ==> #[trigger] lists_position(p, i),
        forall|i: int| 0 <= i < es.len() ==> #[trigger] lists_position(q, i),
    ensures
        p[k] == q[k],
    decreases k,
{
    assert forall|i: int| 0 <= i < k implies p[i] == q[i] by {
        lemma_timeline_prefix_equal(es, p, q, i);
    }
    if p[k] != q[k] {
        let x = p[k];
        let y = q[k];
        // where x sits in q and where y sits in p
        assert((x as int) < es.len());
        assert((y as int) < es.len());
        assert(lists_position(q, x as int));
        assert(lists_position(p, y as int));
        let m = choose|j: int| 0 <= j < q.len() && q[j] as int == x as int;
        let n = choose|j: int| 0 <= j < p.len() && p[j] as int == y as int;
        if m < k {
            assert(p[m] == q[m]);
            assert(time_before(es, p[m], p[k]));
        }
        if n < k {
            assert(p[n] == q[n]);
            assert(time_before(es, q[n], q[k]));
        }
        assert(m != k);
        assert(n != k);
        // now m > k and n > k
        assert(time_before(es, q[k], q[m]));
        assert(time_before(es, p[k], p[n]));
        lemma_before_trans(es, y, x, y);
    }
}

/// Once the entries are in timeline order, their own positions are their
/// timeline order, so sorting them again leaves them as they are.
pub proof fn law_sorted_entries_stay_sorted(es: Seq<LogEntry>, p: Seq<usize>)
    requires
        is_timeline(es, p),
        es.len() <= usize::MAX,
    ensures
        is_timeline(reordered(es, p), Seq::new(es.len(), |i: int| i as usize)),
        forall|q: Seq<usize>| #[trigger] is_timeline(reordered(es, p), q)
            ==> q == Seq::new(es.len(), |i: int| i as usize),
{
    let s = reordered(es, p);
    let id = Seq::new(es.len(), |i: int| i as usize);
    assert forall|i: int, j: int| 0 <= i < j < id.len() implies time_before(s, #[trigger] id[i], #[trigger] id[j]) by {
        assert(time_before(es, p[i], p[j]));
        assert(s[i] == es[p[i] as int]);
        assert(s[j] == es[p[j] as int]);
        assert(id[i] as int == i && id[j] as int == j);
    }
    assert(all_below(id, s.len()));
    assert forall|q: Seq<usize>| #[trigger] is_timeline(s, q) implies q == id by {
        law_timeline_is_unique(s, q, id);
    }
}

proof fn lemma_push_contains(s: Seq<usize>, x: usize, y: usize)
    ensures
        s.push(x).contains(y) <==> (s.contains(y) || y == x),
{
    if s.contains(y) {
        let k = choose|k: int| 0 <= k < s.len() && s[k] == y;
        assert(s.push(x)[k] == y);
    }
    if y == x {
        assert(s.push(x)[s.len() as int] == y);
    }
    if s.push(x).contains(y) {
        let k = choose|k: int| 0 <= k < s.push(x).len() && s.push(x)[k] == y;
        if k < s.len() {
            assert(s[k] == y);
        }
    }
}

proof fn lemma_before_trans(es: Seq<LogEntry>, a: usize, b: usize, c: usize)
    requires
        time_before(es, a, b),
        time_before(es, b, c),
    ensures
        time_before(es, a, c),
{
}

fn time_before_exec(es: &Vec<LogEntry>, a: usize, b: usize) -> (r: bool)
    requires
        a < es.len(),
        b < es.len(),
    ensures
        r == time_before(es@, a, b),
{
    match (es[a].timestamp, es[b].timestamp) {
        (Some(x), Some(y)) => x < y || (x == y && a < b),
        (Some(_), None) => true,
        (None, Some(_)) => false,
        (None, None) => a < b,
    }
}

/// Merge two timeline-ordered runs without common elements.
fn merge_runs(es: &Vec<LogEntry>, a: &Vec<usize>, b: &Vec<usize>) -> (r: Vec<usize>)
    requires
        all_below(a@, es@.len()),
        all_below(b@, es@.len()),
        in_time_order(es@, a@),
        in_time_order(es@, b@),
        forall|i: int, j: int| 0 <= i < a@.len() && 0 <= j < b@.len() ==> a@[i] != b@[j],
    ensures
        r@.len() == a@.len() + b@.len(),
        all_below(r@, es@.len()),
        in_time_order(es@, r@),
        forall|x: usize| r@.contains(x) <==> (a@.contains(x) || b@.contains(x)),
{
    let mut out: Vec<usize> = Vec::new();
    let mut i: usize = 0;
    let mut j: usize = 0;
    while i < a.len() || j < b.len()
        invariant
            i <= a.len(),
            j <= b.len(),
            out@.len() == i + j,
            all_below(a@, es@.len()),
            all_below(b@, es@.len()),
            all_below(out@, es@.len()),
            in_time_order(es@, a@),
            in_time_order(es@, b@),
            in_time_order(es@, out@),
            forall|p: int, q: int| 0 <= p < a@.len() && 0 <= q < b@.len() ==> a@[p] != b@[q],
            forall|k: int, m: int| 0 <= k < out@.len() && i <= m < a@.len() ==> time_before(es@, #[trigger] out@[k], #[trigger] a@[m]),
            forall|k: int, m: int| 0 <= k < out@.len() && j <= m < b@.len() ==> time_before(es@, #[trigger] out@[k], #[trigger] b@[m]),
            forall|x: usize| out@.contains(x) <==> (a@.take(i as int).contains(x) || b@.take(j as int).contains(x)),
        decreases a.len() + b.len() - i - j,
    {
        let take_a = if i < a.len() && j < b.len() {
            time_before_exec(es, a[i], b[j])
        } else {
            i < a.len()
        };
        let ghost before = out@;
        if take_a {
            let x = a[i];
            proof {
                if j < b.len() && !time_before(es@, a@[i as int], b@[j as int]) {
                    assert(false);
                }
                assert forall|m: int| j <= m < b@.len() implies time_before(es@, x, #[trigger] b@[m]) by {
                    if m > j {
                        lemma_before_trans(es@, x, b@[j as int], b@[m]);
                    }
                }
            }
            out.push(x);
            proof {
                assert forall|k: int, m: int| 0 <= k < out@.len() && i + 1 <= m < a@.len() implies time_before(es@, #[trigger] out@[k], #[trigger] a@[m]) by {
                    if k < before.len() {
                        assert(out@[k] == before[k]);
                    } else {
                        assert(out@[k] == a@[i as int]);
                    }
                }
                assert(a@.take(i + 1) =~= a@.take(i as int).push(x));
                assert forall|x2: usize| out@.contains(x2) <==> (a@.take(i + 1).contains(x2) || b@.take(j as int).contains(x2)) by {
                    lemma_push_contains(before, x, x2);
                    lemma_push_contains(a@.take(i as int), x, x2);
                }
            }
            i += 1;
        } else {
            let y = b[j];
            proof {
                if i < a.len() {
                    assert(a@[i as int] != b@[j as int]);
                    assert(time_before(es@, b@[j as int], a@[i as int]));
                }
                assert forall|m: int| i <= m < a@.len() implies time_before(es@, y, #[trigger] a@[m]) by {
                    if m > i {
                        lemma_before_trans(es@, y, a@[i as int], a@[m]);
                    }
                }
            }
            out.push(y);
            proof {
                assert forall|k: int, m: int| 0 <= k < out@.len() && j + 1 <= m < b@.len() implies time_before(es@, #[trigger] out@[k], #[trigger] b@[m]) by {
                    if k < before.len() {
                        assert(out@[k] == before[k]);
                    } else {
                        assert(out@[k] == b@[j as int]);
                    }
                }
                assert(b@.take(j + 1) =~= b@.take(j as int).push(y));
                assert forall|x2: usize| out@.contains(x2) <==> (a@.take(i as int).contains(x2) || b@.take(j + 1).contains(x2)) by {
                    lemma_push_contains(before, y, x2);
                    lemma_push_contains(b@.take(j as int), y, x2);
                }
            }
            j += 1;
        }
    }
    assert(a@.take(a@.len() as int) =~= a@);
    assert(b@.take(b@.len() as int) =~= b@);
    out
}

/// Sort the positions `lo..hi` of `v` (distinct indices) into timeline
/// order.
fn sort_run(es: &Vec<LogEntry>, v: &Vec<usize>, lo: usize, hi: usize) -> (r: Vec<usize>)
    requires
        lo <= hi <= v@.len(),
        all_below(v@, es@.len()),
        v@.no_duplicates(),
    ensures
        r@.len() == hi - lo,
        all_below(r@, es@.len()),
        in_time_order(es@, r@),
        forall|x: usize| r@.contains(x) <==> v@.subrange(lo as int, hi as int).contains(x),
    decreases hi - lo,
{
    if hi - lo <= 1 {
        let mut r: Vec<usize> = Vec::new();
        if hi - lo == 1 {
            r.push(v[lo]);
            assert(r@ =~= v@.subrange(lo as int, hi as int));
        } else {
            assert(v@.subrange(lo as int, hi as int) =~= Seq::<usize>::empty());
        }
        return r;
    }
    let mid = lo + (hi - lo) / 2;
    let left = sort_run(es, v, lo, mid);
    let right = sort_run(es, v, mid, hi);
    proof {
        assert forall|i: int, j: int| 0 <= i < left@.len() && 0 <= j < right@.len() implies left@[i] != right@[j] by {
            assert(left@.contains(left@[i]));
            assert(right@.contains(right@[j]));
            let p = choose|p: int| 0 <= p < (mid - lo) && v@.subrange(lo as int, mid as int)[p] == left@[i];
            let q = choose|q: int| 0 <= q < (hi - mid) && v@.subrange(mid as int, hi as int)[q] == right@[j];
            assert(v@[lo + p] == left@[i]);
            assert(v@[mid + q] == right@[j]);
        }
    }
    let r = merge_runs(es, &left, &right);
    proof {
        assert forall|x: usize| r@.contains(x) <==> v@.subrange(lo as int, hi as int).contains(x) by {
            let whole = v@.subrange(lo as int, hi as int);
            let l = v@.subrange(lo as int, mid as int);
            let h = v@.subrange(mid as int, hi as int);
            if whole.contains(x) {
                let k = choose|k: int| 0 <= k < whole.len() && whole[k] == x;
                if k < mid - lo { assert(l[k] == x); } else { assert(h[k - (mid - lo)] == x); }
            }
            if l.contains(x) {
                let k = choose|k: int| 0 <= k < l.len() && l[k] == x;
                assert(whole[k] == x);
            }
            if h.contains(x) {
                let k = choose|k: int| 0 <= k < h.len() && h[k] == x;
                assert(whole[k + (mid - lo)] == x);
            }
        }
    }
    r
}

/// The timeline order of the entries.
pub(crate) fn timeline_order(es: &Vec<LogEntry>) -> (r: Vec<usize>)
    ensures
        is_timeline(es@, r@),
{
    let mut idx: Vec<usize> = Vec::new();
    let mut i: usize = 0;
    while i < es.len()
        invariant
            i <= es.len(),
            idx@.len() == i,
            forall|k: int| 0 <= k < i ==> idx@[k] == k,
        decreases es.len() - i,
    {
        idx.push(i);
        i += 1;
    }
    assert(idx@.no_duplicates());
    sort_run(es, &idx, 0, idx.len())
}

impl AppState {
    /// Put the entries in timeline order (by timestamp, entries without one
    /// last, the original order kept among equals), then recompute the view
    /// at instant `now`.
    pub fn sort_entries_chronologically_at(&mut self, now: UtcNanos)
        requires
            offsets_ok(old(self)),
        ensures
            exists|p: Seq<usize>| is_timeline(old(self).entries@, p)
                && final(self).entries@ == reordered(old(self).entries@, p),
            offsets_ok(final(self)),
    {
        let order = timeline_order(&self.entries);
        let mut sorted: Vec<LogEntry> = Vec::new();
        let mut k: usize = 0;
        while k < order.len()
            invariant
                k <= order.len(),
                is_timeline(self.entries@, order@),
                sorted@ == order@.take(k as int).map_values(|q: usize| self.entries@[q as int]),
            decreases order.len() - k,
        {
            let e = self.entries[order[k]].clone();
            sorted.push(e);
            assert(sorted@ =~= order@.take(k + 1).map_values(|q: usize| self.entries@[q as int]));
            k += 1;
        }
        assert(order@.take(order@.len() as int) =~= order@);
        let ghost p = order@;
        let ghost old_entries = self.entries@;
        self.entries = sorted;
        assert(self.entries@ == p.map_values(|q: usize| old_entries[q as int]));
        self.apply_filters_at(now);
    }

    /// Put the entries in timeline order and recompute the view now.
    pub fn sort_entries_chronologically(&mut self)
        requires
            offsets_ok(old(self)),
        ensures
            exists|p: Seq<usize>| is_timeline(old(self).entries@, p)
                && final(self).entries@ == reordered(old(self).entries@, p),
            offsets_ok(final(self)),
    {
        let now = crate::clock::now_nanos();
        self.sort_entries_chronologically_at(now);
    }
}

// ---------------------------------------------------------------------------
// Clearing, removal and incremental updates
// ---------------------------------------------------------------------------

/// Entries not from `path`, in order.
pub open spec fn without_file(es: Seq<LogEntry>, path: Seq<char>) -> Seq<LogEntry>
    decreases es.len(),
{
    if es.len() == 0 {
        es
    } else {
        let r = without_file(es.drop_last(), path);
        if es.last().source_file@ != path { r.push(es.last()) } else { r }
    }
}

/// The discovered files with the first one at `path` marked as no longer
/// loaded.
pub open spec fn mark_skipped(files: Seq<DiscoveredFile>, path: Seq<char>, i: int) -> bool {
    forall|k: int| 0 <= k < files.len() ==> (#[trigger] files[k]).path@ != path || k >= i
}

/// Status line after removing `n` entries of the file called `name`.
pub open spec fn removed_message(n: nat, name: Seq<char>) -> Seq<char> {
    "Removed "@ + decimal(n) + " "@ + (if n == 1 { "entry"@ } else { "entries"@ }) + " for \""@ + name + "\"."@
}

/// Indices `start..n` of entries that pass the prepared filter and, when
/// an activity cutoff applies, come from an active file.
pub open spec fn passing_from(es: Seq<LogEntry>, fs: &FilterState, tl: Seq<char>, files: Seq<DiscoveredFile>, cutoff: Option<int>, start: int, n: int) -> Seq<usize>
    decreases n - start,
{
    if n <= start {
        Seq::empty()
    } else {
        let r = passing_from(es, fs, tl, files, cutoff, start, n - 1);
        let e = es[n - 1];
        let ok = crate::filter::entry_passes(&e, fs, tl, crate::text::spec_str_lower(fs.exclude_text@))
            && match cutoff {
                Some(c) => files.len() == 0 || file_active(files, e.source_file@, c),
                None => true,
            };
        if ok { r.push((n - 1) as usize) } else { r }
    }
}

/// The indices `start..` of entries that pass (see `passing_from`).
fn passing_range(es: &Vec<LogEntry>, fs: &FilterState, text_lower: &str, files: &Vec<DiscoveredFile>,
    cutoff: Option<UtcNanos>, start: usize) -> (r: Vec<usize>)
    ensures
        r@ == passing_from(es@, fs, text_lower@, files@, opt_i128(cutoff), start as int, es@.len() as int),
{
    let mut r: Vec<usize> = Vec::new();
    let mut i: usize = start;
    while i < es.len()
        invariant
            i <= es.len() || i == start,
            start <= i,
            r@ == passing_from(es@, fs, text_lower@, files@, opt_i128(cutoff), start as int, i as int),
        decreases es.len() - i,
    {
        let active = match cutoff {
            Some(c) => files.len() == 0 || path_active(files, es[i].source_file.as_str(), c),
            None => true,
        };
        if crate::filter::entry_matches(&es[i], fs, text_lower) && active {
            r.push(i);
        }
        i += 1;
    }
    proof {
        if (i as int) != es@.len() {
            assert(start as int >= es@.len());
        }
    }
    r
}

/// Append `added` to `v`.
fn append_indices(v: &mut Vec<usize>, added: &Vec<usize>)
    ensures
        final(v)@ == old(v)@ + added@,
{
    let mut k: usize = 0;
    while k < added.len()
        invariant
            k <= added.len(),
            v@ == old(v)@ + added@.take(k as int),
        decreases added.len() - k,
    {
        v.push(added[k]);
        assert(old(v)@ + added@.take(k + 1) =~= (old(v)@ + added@.take(k as int)).push(added@[k as int]));
        k += 1;
    }
    assert(added@.take(added@.len() as int) =~= added@);
}

proof fn lemma_keep_active_concat(es: Seq<LogEntry>, files: Seq<DiscoveredFile>, c: int, u: Seq<usize>, v: Seq<usize>)
    ensures
        keep_active(es, files, c, u + v) == keep_active(es, files, c, u) + keep_active(es, files, c, v),
    decreases v.len(),
{
    if v.len() == 0 {
        assert(u + v =~= u);
        assert(keep_active(es, files, c, u) + keep_active(es, files, c, v) =~= keep_active(es, files, c, u));
    } else {
        assert((u + v).drop_last() =~= u + v.drop_last());
        lemma_keep_active_concat(es, files, c, u, v.drop_last());
        let a = keep_active(es, files, c, u);
        let b = keep_active(es, files, c, v.drop_last());
        assert((a + b).push(v.last()) =~= a + b.push(v.last()));
    }
}

proof fn lemma_keep_active_prefix(es: Seq<LogEntry>, files: Seq<DiscoveredFile>, c: int, u: Seq<usize>, start: int)
    requires
        0 <= start <= es.len(),
        forall|j: int| 0 <= j < u.len() ==> (#[trigger] u[j]) < start,
    ensures
        keep_active(es.take(start), files, c, u) == keep_active(es, files, c, u),
    decreases u.len(),
{
    if u.len() > 0 {
        assert forall|j: int| 0 <= j < u.drop_last().len() implies (#[trigger] u.drop_last()[j]) < start by {
            assert(u.drop_last()[j] == u[j]);
        }
        lemma_keep_active_prefix(es, files, c, u.drop_last(), start);
        assert(u.last() == u[u.len() - 1]);
    }
}

proof fn lemma_passing_from_active(es: Seq<LogEntry>, fs: &FilterState, tl: Seq<char>, files: Seq<DiscoveredFile>,
    cutoff: Option<int>, start: int, n: int)
    requires
        0 <= start,
        n <= es.len(),
        es.len() <= usize::MAX,
    ensures
        passing_from(es, fs, tl, files, cutoff, start, n) == match cutoff {
            Some(c) => if files.len() > 0 {
                keep_active(es, files, c, crate::filter::passing_between(es, fs, tl, spec_str_lower(fs.exclude_text@), start, n))
            } else {
                crate::filter::passing_between(es, fs, tl, spec_str_lower(fs.exclude_text@), start, n)
            },
            None => crate::filter::passing_between(es, fs, tl, spec_str_lower(fs.exclude_text@), start, n),
        },
    decreases n - start,
{
    if n > start {
        lemma_passing_from_active(es, fs, tl, files, cutoff, start, n - 1);
        let pb = crate::filter::passing_between(es, fs, tl, spec_str_lower(fs.exclude_text@), start, n);
        let pb0 = crate::filter::passing_between(es, fs, tl, spec_str_lower(fs.exclude_text@), start, n - 1);
        let e = es[n - 1];
        let passes = crate::filter::entry_passes(&e, fs, tl, spec_str_lower(fs.exclude_text@));
        if passes {
            assert(pb == pb0.push((n - 1) as usize));
            assert(pb.drop_last() =~= pb0);
            assert(pb.last() == (n - 1) as usize);
        } else {
            assert(pb == pb0);
        }
        match cutoff {
            Some(c) => {
                if files.len() > 0 {
                    if passes {
                        assert(pb.drop_last() == pb0);
                        assert(es[pb.last() as int] == e);
                        assert(keep_active(es, files, c, pb) == (if file_active(files, e.source_file@, c) {
                            keep_active(es, files, c, pb0).push((n - 1) as usize) } else { keep_active(es, files, c, pb0) }));
                    }
                }
            },
            None => {},
        }
    }
}

/// With deduplication off and a filter that is not empty, the view over a
/// list of entries is the view over its first `start` entries followed by
/// the entries from `start` on that pass: extending a view that was up to
/// date below `start` gives what a full rebuild gives.
pub proof fn law_extend_matches_rebuild(es: Seq<LogEntry>, fs: &FilterState, files: Seq<DiscoveredFile>, cutoff: Option<int>, start: int)
    requires
        0 <= start <= es.len(),
        es.len() <= usize::MAX,
        fs.dedup_mode == DedupMode::Off,
        !crate::filter::filter_is_empty(fs),
    ensures
        view_over(es, fs, files, cutoff) == view_over(es.take(start), fs, files, cutoff)
            + passing_from(es, fs, spec_str_lower(fs.text_search@), files, cutoff, start, es.len() as int),
{
    reveal(view_over);
    let tl = spec_str_lower(fs.text_search@);
    crate::filter::lemma_filtered_split(es, fs, start);
    lemma_passing_from_active(es, fs, tl, files, cutoff, start, es.len() as int);
    let pre = es.take(start);
    let u = filtered_indices(pre, fs);
    let v = crate::filter::passing_between(es, fs, tl, spec_str_lower(fs.exclude_text@), start, es.len() as int);
    match cutoff {
        Some(c) => {
            if files.len() > 0 {
                crate::filter::law_filter_keeps_exactly_passing_entries(pre, fs);
                lemma_keep_active_concat(es, files, c, u, v);
                lemma_keep_active_prefix(es, files, c, u, start);
            }
        },
        None => {},
    }
}

impl AppState {
    /// Bring the view up to date with entries appended from `start` on, at
    /// instant `now`: with deduplication off, the filter settings are
    /// prepared as for a rebuild and the passing new entries appended to
    /// the view (the view is assumed to be up to date below `start`); with
    /// deduplication on, the whole view is rebuilt.  Nothing happens when
    /// `start` is past the entries.
    pub fn extend_filtered_for_range_at(&mut self, start: usize, now: UtcNanos)
        requires
            offsets_ok(old(self)),
        ensures
            offsets_ok(final(self)),
            start >= old(self).entries@.len() ==> {
                &&& final(self).filtered_indices@ == old(self).filtered_indices@
                &&& final(self).filter_state == old(self).filter_state
                &&& final(self).entries@ == old(self).entries@
            },
            start < old(self).entries@.len() && old(self).filter_state.dedup_mode != DedupMode::Off ==>
                filters_applied(old(self), final(self), now as int),
            start < old(self).entries@.len() && old(self).filter_state.dedup_mode == DedupMode::Off ==> {
                &&& filter_prepared(old(self), final(self), now as int)
                &&& final(self).entries@ == old(self).entries@
                &&& final(self).selected_index == old(self).selected_index
                &&& final(self).filtered_indices@ == old(self).filtered_indices@ + passing_from(old(self).entries@,
                    &final(self).filter_state, spec_str_lower(old(self).filter_state.text_search@),
                    old(self).discovered_files@, cutoff_at(old(self), now as int), start as int, old(self).entries@.len() as int)
            },
    {
        if start >= self.entries.len() {
            return;
        }
        if self.filter_state.dedup_mode != DedupMode::Off {
            self.apply_filters_at(now);
            return;
        }
        let cutoff = self.activity_cutoff_at(now);
        prepare_filter(&mut self.filter_state, &self.bookmarks, now);
        let text_lower = crate::text::str_lower(self.filter_state.text_search.as_str());
        let added = passing_range(&self.entries, &self.filter_state, text_lower.as_str(), &self.discovered_files, cutoff, start);
        append_indices(&mut self.filtered_indices, &added);
    }

    /// `extend_filtered_for_range_at` at the current instant.
    pub fn extend_filtered_for_range(&mut self, start: usize)
        requires
            offsets_ok(old(self)),
        ensures
            offsets_ok(final(self)),
            start >= old(self).entries@.len() ==> final(self).filtered_indices@ == old(self).filtered_indices@,
            start < old(self).entries@.len() && old(self).filter_state.dedup_mode != DedupMode::Off ==>
                exists|now: UtcNanos| filters_applied(old(self), final(self), now as int),
            start < old(self).entries@.len() && old(self).filter_state.dedup_mode == DedupMode::Off ==>
                exists|now: UtcNanos| {
                    &&& #[trigger] filter_prepared(old(self), final(self), now as int)
                    &&& final(self).filtered_indices@ == old(self).filtered_indices@ + passing_from(old(self).entries@,
                        &final(self).filter_state, spec_str_lower(old(self).filter_state.text_search@),
                        old(self).discovered_files@, cutoff_at(old(self), now as int), start as int, old(self).entries@.len() as int)
                },
    {
        let now = crate::clock::now_nanos();
        self.extend_filtered_for_range_at(start, now);
    }
}

impl AppState {
    /// Clear everything from the scan, keeping user preferences.
    #[verifier::rlimit(40)]
    #[verifier::spinoff_prover]
    pub fn clear(&mut self)
        ensures
            scan_cleared(final(self)),
            same_preferences(final(self), old(self)),
            final(self).status_message@ == "Ready."@,
    {
        self.discovered_files = Vec::new();
        self.entries = Vec::new();
        self.filtered_indices = Vec::new();
        self.filter_state = FilterState::default();
        self.selected_index = None;
        self.selected_indices = Vec::new();
        self.scan_summary = None;
        self.warnings = Vec::new();
        self.show_summary = false;
        self.show_log_summary = false;
        self.status_message = "Ready.".to_owned();
        self.scan_in_progress = false;
        self.pending_scan = None;
        self.request_cancel = false;
        self.file_list_search = String::new();
        self.file_colours = Vec::new();
        self.pending_single_files = None;
        self.pending_parse_skipped = false;
        self.dir_watcher_active = false;
        self.dir_watcher_scanning = false;
        self.activity_window_secs = None;
        self.activity_window_input = String::new();
        self.tail_active = false;
        self.request_start_tail = false;
        self.request_stop_tail = false;
        self.bookmarks = Vec::new();
        self.correlation_active = false;
        self.correlated_ids = Vec::new();
        self.correlation_window_secs = DEFAULT_CORRELATION_WINDOW_SECS;
        self.correlation_window_input = decimal_string(DEFAULT_CORRELATION_WINDOW_SECS as u64);
        self.initial_scan = None;
        self.manually_added_files = Vec::new();
        self.extra_files_to_restore = Vec::new();
        self.total_files_found = 0;
        self.discovery_truncated = false;
        self.pending_replace_files = None;
        self.request_new_session = false;
        self.queued_dir_watcher_files = Vec::new();
        self.queued_parse_files = Vec::new();
        self.max_entry_id = 0;
        self.tail_base_count = 0;
        self.notimestamp_entry_count = 0;
        self.filter_dirty = false;
        self.fresh_scan_in_progress = false;
        self.unique_component_values = Vec::new();
        self.dedup_info = Vec::new();
        self.multi_search_input = String::new();
        self.request_start_tail_after_scan = false;
    }

    /// Back to the state of a fresh start: `clear`, and forget the scan
    /// path and troubleshoot mode.
    pub fn new_session(&mut self)
        ensures
            scan_cleared(final(self)),
            final(self).scan_path is None,
            !final(self).troubleshoot_mode,
            final(self).status_message@ == ready_message(),
            final(self).dark_mode == old(self).dark_mode,
            final(self).sort_descending == old(self).sort_descending,
            final(self).profiles@ == old(self).profiles@,
            final(self).session_path == old(self).session_path,
    {
        self.clear();
        self.scan_path = None;
        self.troubleshoot_mode = false;
        self.status_message = "Ready. Open a directory to begin scanning.".to_owned();
    }

    /// Remove every bookmark, turn the bookmarks-only filter off and
    /// recompute the view at instant `now`.
    pub fn clear_bookmarks_at(&mut self, now: UtcNanos)
        requires
            offsets_ok(old(self)),
        ensures
            final(self).bookmarks@.len() == 0,
            !final(self).filter_state.bookmarks_only,
            final(self).filter_state.bookmarked_ids@.len() == 0,
            final(self).entries@ == old(self).entries@,
            offsets_ok(final(self)),
    {
        self.bookmarks = Vec::new();
        self.filter_state.bookmarks_only = false;
        self.filter_state.bookmarked_ids = Vec::new();
        self.apply_filters_at(now);
    }

    /// Remove every bookmark and recompute the view now.
    pub fn clear_bookmarks(&mut self)
        requires
            offsets_ok(old(self)),
        ensures
            final(self).bookmarks@.len() == 0,
            !final(self).filter_state.bookmarks_only,
            final(self).entries@ == old(self).entries@,
            offsets_ok(final(self)),
    {
        let now = crate::clock::now_nanos();
        self.clear_bookmarks_at(now);
    }

    /// Drop the entries of the file at `path`, mark the file as not loaded,
    /// recount the entries without a timestamp and, when some were removed,
    /// say so in the status line.
    pub fn remove_entries_for_file(&mut self, path: &str)
        ensures
            final(self).entries@ == without_file(old(self).entries@, path@),
            final(self).notimestamp_entry_count == count_untimed(final(self).entries@),
            final(self).discovered_files@.len() == old(self).discovered_files@.len(),
            forall|k: int| 0 <= k < old(self).discovered_files@.len() ==> {
                let o = #[trigger] old(self).discovered_files@[k];
                let f = final(self).discovered_files@[k];
                &&& f.path == o.path && f.size == o.size && f.modified == o.modified && f.profile_id == o.profile_id
                &&& f.detection_confidence == o.detection_confidence && f.is_large == o.is_large
                &&& f.parsing_skipped == (o.parsing_skipped || (o.path@ == path@ && mark_skipped(old(self).discovered_files@, path@, k)))
            },
            ({
                let n = old(self).entries@.len() - final(self).entries@.len();
                let name = match crate::text::file_name_spec(path@) { Some(x) => x, None => "?"@ };
                &&& n > 0 ==> final(self).status_message@ == removed_message(n as nat, name)
                &&& n == 0 ==> final(self).status_message@ == old(self).status_message@
            }),
    {
        let ghost orig = self.entries@;
        let before = self.entries.len();
        let mut kept: Vec<LogEntry> = Vec::new();
        let mut i: usize = 0;
        while i < self.entries.len()
            invariant
                i <= self.entries.len(),
                self.entries@ == orig,
                kept@ == without_file(orig.take(i as int), path@),
                kept@.len() <= i,
            decreases self.entries.len() - i,
        {
            assert(orig.take(i + 1).drop_last() =~= orig.take(i as int));
            if !crate::text::str_eq(self.entries[i].source_file.as_str(), path) {
                kept.push(self.entries[i].clone());
            }
            i += 1;
        }
        assert(orig.take(orig.len() as int) =~= orig);
        self.entries = kept;
        let removed = before - self.entries.len();
        self.notimestamp_entry_count = count_untimed_exec(&self.entries);
        let ghost files0 = self.discovered_files@;
        let mut k: usize = 0;
        let mut done = false;
        while k < self.discovered_files.len()
            invariant
                k <= self.discovered_files.len(),
                self.discovered_files@.len() == files0.len(),
                self.entries@ == without_file(orig, path@),
                self.notimestamp_entry_count == count_untimed(self.entries@),
                self.status_message == old(self).status_message,
                before == orig.len(),
                done == !mark_skipped(files0, path@, k as int),
                forall|q: int| 0 <= q < files0.len() ==> {
                    let o = #[trigger] files0[q];
                    let f = self.discovered_files@[q];
                    &&& f.path == o.path && f.size == o.size && f.modified == o.modified && f.profile_id == o.profile_id
                    &&& f.detection_confidence == o.detection_confidence && f.is_large == o.is_large
                    &&& f.parsing_skipped == (o.parsing_skipped || (q < k && o.path@ == path@ && mark_skipped(files0, path@, q)))
                },
            decreases self.discovered_files.len() - k,
        {
            if !done && crate::text::str_eq(self.discovered_files[k].path.as_str(), path) {
                let mut f = self.discovered_files[k].clone();
                f.parsing_skipped = true;
                self.discovered_files.set(k, f);
                done = true;
            }
            proof {
                if !mark_skipped(files0, path@, k as int) {
                    let w = choose|w: int| 0 <= w < files0.len() && !((#[trigger] files0[w]).path@ != path@ || w >= k);
                    assert(!((files0[w]).path@ != path@ || w >= k + 1));
                }
                if files0[k as int].path@ == path@ {
                    assert(!((files0[k as int]).path@ != path@ || k >= k + 1));
                } else {
                    assert forall|q: int| 0 <= q < files0.len() && mark_skipped(files0, path@, k as int) implies (#[trigger] files0[q]).path@ != path@ || q >= k + 1 by {
                        if q == k {
                        }
                    }
                }
            }
            k += 1;
        }
        if removed > 0 {
            let name = match crate::text::file_name(path) {
                Some(n) => n,
                None => "?".to_owned(),
            };
            let mut m = String::new();
            push_str(&mut m, "Removed ");
            let d = decimal_string(removed as u64);
            push_str(&mut m, d.as_str());
            push_str(&mut m, " ");
            if removed == 1 {
                push_str(&mut m, "entry");
            } else {
                push_str(&mut m, "entries");
            }
            push_str(&mut m, " for \"");
            push_str(&mut m, name.as_str());
            push_str(&mut m, "\".");
            proof {
                reveal_strlit("Removed ");
                reveal_strlit(" ");
                reveal_strlit("entry");
                reveal_strlit("entries");
                reveal_strlit(" for \"");
                reveal_strlit("\".");
                reveal_strlit("?");
            }
            assert(m@ =~= removed_message(removed as nat, name@));
            self.status_message = m;
        }
    }
}


/// What evicting `count` entries after position `base` does: as many as
/// there are go, the untimed count is recounted when any went, and `r`
/// says how many.
pub open spec fn evicted_from(es: Seq<LogEntry>, untimed: usize, base: usize, count: usize,
    new_es: Seq<LogEntry>, new_untimed: usize, r: usize) -> bool {
    let avail: int = if es.len() > base { es.len() - base } else { 0 };
    let n: int = if count < avail { count as int } else { avail };
    &&& r == n
    &&& n == 0 ==> new_es == es && new_untimed == untimed
    &&& n > 0 ==> new_es == es.take(base as int) + es.skip(base + n) && new_untimed == count_untimed(new_es)
}

/// Remove up to `count` entries after position `base` of `entries`.
pub(crate) fn evict_from(entries: &mut Vec<LogEntry>, untimed: &mut usize, base: usize, count: usize) -> (r: usize)
    ensures
        evicted_from(old(entries)@, *old(untimed), base, count, final(entries)@, *final(untimed), r),
{
    let available: usize = if entries.len() > base { entries.len() - base } else { 0 };
    let to_evict: usize = if count < available { count } else { available };
    if to_evict == 0 {
        return 0;
    }
    let ghost orig = entries@;
    let mut rest: Vec<LogEntry> = Vec::new();
    let mut i: usize = 0;
    while i < base
        invariant
            i <= base,
            entries@ == orig,
            base + to_evict <= orig.len(),
            rest@ == orig.subrange(0, i as int),
        decreases base - i,
    {
        rest.push(entries[i].clone());
        assert(rest@ =~= orig.subrange(0, i + 1));
        i += 1;
    }
    let mut j: usize = base + to_evict;
    while j < entries.len()
        invariant
            base + to_evict <= j <= orig.len(),
            entries@ == orig,
            rest@ == orig.subrange(0, base as int) + orig.subrange(base + to_evict, j as int),
        decreases entries.len() - j,
    {
        rest.push(entries[j].clone());
        assert(rest@ =~= orig.subrange(0, base as int) + orig.subrange(base + to_evict, j + 1));
        j += 1;
    }
    assert(rest@ =~= orig.take(base as int) + orig.skip(base + to_evict));
    *entries = rest;
    *untimed = count_untimed_exec(entries);
    to_evict
}

} // verus!
