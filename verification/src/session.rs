//! Session snapshot: what is saved between runs (scan path, filter,
//! bookmarks, preferences), and the checks made when loading it.
use vstd::prelude::*;
use crate::filter::DedupMode;
use crate::model::Severity;
use crate::multi_search::MultiSearchMode;
use crate::text::push_str;

verus! {

/// Version stamp of the session format; a file with another version is
/// ignored.
pub const SESSION_VERSION: u32 = 1;

/// File name of the session file in the data directory.
pub open spec fn session_file_name() -> Seq<char> {
    "session.json"@
}

/// The saved subset of the filter settings.
#[derive(Debug)]
pub struct PersistedFilter {
    pub severity_levels: Vec<Severity>,
    pub source_files: Vec<String>,
    pub hide_all_sources: bool,
    pub text_search: String,
    pub regex_pattern: String,
    pub fuzzy: bool,
    pub relative_time_secs: Option<u64>,
    pub bookmarks_only: bool,
    pub exclude_text: String,
    pub component_filter: Vec<String>,
    pub hide_no_timestamp: bool,
    pub dedup_mode: DedupMode,
    pub multi_search_input: String,
    pub multi_search_mode: MultiSearchMode,
    pub multi_search_min_match: Option<usize>,
    pub multi_search_case_insensitive: bool,
    pub multi_search_whole_word: bool,
    pub multi_search_regex_mode: bool,
}

impl Default for PersistedFilter {
    fn default() -> (r: Self)
        ensures
            r.severity_levels@.len() == 0,
            r.source_files@.len() == 0,
            !r.hide_all_sources,
            r.text_search@.len() == 0,
            r.regex_pattern@.len() == 0,
            !r.fuzzy,
            r.relative_time_secs is None,
            !r.bookmarks_only,
            r.exclude_text@.len() == 0,
            r.component_filter@.len() == 0,
            !r.hide_no_timestamp,
            r.dedup_mode == DedupMode::Off,
            r.multi_search_input@.len() == 0,
            r.multi_search_mode == MultiSearchMode::Any,
            r.multi_search_min_match is None,
            !r.multi_search_case_insensitive,
            !r.multi_search_whole_word,
            !r.multi_search_regex_mode,
    {
        PersistedFilter {
            severity_levels: Vec::new(),
            source_files: Vec::new(),
            hide_all_sources: false,
            text_search: String::new(),
            regex_pattern: String::new(),
            fuzzy: false,
            relative_time_secs: None,
            bookmarks_only: false,
            exclude_text: String::new(),
            component_filter: Vec::new(),
            hide_no_timestamp: false,
            dedup_mode: DedupMode::Off,
            multi_search_input: String::new(),
            multi_search_mode: MultiSearchMode::Any,
            multi_search_min_match: None,
            multi_search_case_insensitive: false,
            multi_search_whole_word: false,
            multi_search_regex_mode: false,
        }
    }
}

/// Everything saved between runs.  Entries are not saved: files are parsed
/// again when the session is restored.
#[derive(Debug)]
pub struct SessionData {
    pub version: u32,
    pub scan_path: Option<String>,
    pub extra_files: Vec<String>,
    pub filter: PersistedFilter,
    /// Colour of each file as RGBA.
    pub file_colours: Vec<(String, [u8; 4])>,
    /// `(entry ID, label)` pairs.
    pub bookmarks: Vec<(u64, String)>,
    pub correlation_window_secs: i64,
    pub discovery_date_input: String,
    pub dark_mode: bool,
    pub sort_descending: bool,
    pub tail_auto_scroll: bool,
    pub max_files_limit: usize,
    pub max_total_entries: usize,
    pub max_scan_depth: usize,
    pub tail_poll_interval_ms: u64,
    pub dir_watch_poll_interval_ms: u64,
    pub max_tail_buffer_entries: usize,
    pub troubleshoot_mode: bool,
}

/// `dir` joined with `name` as `Path::join` does for a relative name: a
/// `/` is added unless `dir` is empty or already ends with one.
pub open spec fn join_spec(dir: Seq<char>, name: Seq<char>) -> Seq<char> {
    if dir.len() == 0 {
        name
    } else if dir.last() == '/' {
        dir + name
    } else {
        dir + seq!['/'] + name
    }
}

/// Append a relative file name to a directory path.
pub fn join_path(dir: &str, name: &str) -> (r: String)
    ensures
        r@ == join_spec(dir@, name@),
{
    let d = crate::text::chars_of(dir);
    let mut s = String::new();
    push_str(&mut s, dir);
    if d.len() > 0 && d[d.len() - 1] != '/' {
        s.push('/');
    }
    push_str(&mut s, name);
    assert(s@ =~= join_spec(dir@, name@));
    s
}

/// Path of the session file in the data directory.
pub fn session_path(data_dir: &str) -> (r: String)
    ensures
        r@ == join_spec(data_dir@, session_file_name()),
{
    proof {
        reveal_strlit("session.json");
    }
    join_path(data_dir, "session.json")
}

/// A loaded session is used only when its version matches.
pub fn accept_session(data: SessionData) -> (r: Option<SessionData>)
    ensures
        data.version == SESSION_VERSION ==> r == Some(data),
        data.version != SESSION_VERSION ==> r is None,
{
    if data.version == SESSION_VERSION {
        Some(data)
    } else {
        None
    }
}

} // verus!
