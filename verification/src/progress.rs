//! How the application state follows the progress reported by the scan, the
//! live tail and the directory watcher: status messages, capped entry
//! intake, merging of appended file lists, queueing of new files while a
//! scan runs, and live file times.  Starting and stopping the background
//! work is the caller's part; where a message calls for it, the handler says
//! what to start.
use vstd::prelude::*;
use crate::model::{DiscoveredFile, LogEntry, ScanProgress, UtcNanos};
use crate::state::{AppState, count_untimed, count_untimed_exec, evict_from, max_id, max_id_exec, offsets_ok};
use crate::text::{decimal, push_decimal, push_str, string_views};

verus! {

/// Scan warnings kept at most.
pub const MAX_WARNINGS: usize = 1000;

/// Files from the directory watcher queued at most while a scan runs.
pub const MAX_QUEUED_DIR_WATCHER_FILES: usize = 10000;

// ---------------------------------------------------------------------------
// Models
// ---------------------------------------------------------------------------

/// Status after discovery: how many files will be loaded out of how many
/// were found.
pub open spec fn discovery_message(total_files: usize, total_found: usize) -> Seq<char> {
    if total_found > total_files {
        "Discovery complete: "@ + decimal(total_files as nat) + " of "@ + decimal(total_found as nat)
            + " files loaded (most recently modified)."@
    } else {
        "Discovery complete: "@ + decimal(total_files as nat) + " files found."@
    }
}

/// The recorded largest ID after a batch.
pub open spec fn tracked_max(old: u64, batch: Seq<LogEntry>) -> u64 {
    if batch.len() > 0 && max_id(batch) > old { max_id(batch) } else { old }
}

/// Entries a batch may add under the total cap.
pub open spec fn room_for(len: nat, cap: usize) -> nat {
    if len < cap { (cap - len) as nat } else { 0 }
}

/// Position of the first file with the given path.
pub open spec fn first_path(s: Seq<DiscoveredFile>, p: Seq<char>) -> Option<int>
    decreases s.len(),
{
    if s.len() == 0 {
        None
    } else {
        match first_path(s.drop_last(), p) {
            Some(i) => Some(i),
            None => if s.last().path@ == p { Some(s.len() - 1) } else { None },
        }
    }
}

/// A listed file updated from a later report of the same path: the profile
/// (and its confidence) when the report has one, and the loaded state.
pub open spec fn updated_file(e: DiscoveredFile, f: DiscoveredFile) -> DiscoveredFile {
    DiscoveredFile {
        profile_id: if f.profile_id is Some { f.profile_id } else { e.profile_id },
        detection_confidence: if f.profile_id is Some { f.detection_confidence } else { e.detection_confidence },
        parsing_skipped: f.parsing_skipped,
        ..e
    }
}

/// The file list after an append scan reports `new`: a listed path is
/// updated in place, a new path appended.
pub open spec fn merged_files(existing: Seq<DiscoveredFile>, new: Seq<DiscoveredFile>) -> Seq<DiscoveredFile>
    decreases new.len(),
{
    if new.len() == 0 {
        existing
    } else {
        let m = merged_files(existing, new.drop_last());
        let f = new.last();
        match first_path(m, f.path@) {
            Some(i) => m.update(i, updated_file(m[i], f)),
            None => m.push(f),
        }
    }
}

/// The time reported last for `path`, if any.
pub open spec fn update_for(u: Seq<(String, UtcNanos)>, path: Seq<char>) -> Option<UtcNanos>
    decreases u.len(),
{
    if u.len() == 0 {
        None
    } else if u.last().0@ == path {
        Some(u.last().1)
    } else {
        update_for(u.drop_last(), path)
    }
}

/// A file with its time refreshed from the updates.
pub open spec fn file_refreshed(f: DiscoveredFile, u: Seq<(String, UtcNanos)>) -> DiscoveredFile {
    match update_for(u, f.path@) {
        Some(t) => DiscoveredFile { modified: Some(t), ..f },
        None => f,
    }
}

/// An entry without a timestamp takes its file's refreshed time.
pub open spec fn entry_refreshed(e: LogEntry, u: Seq<(String, UtcNanos)>) -> LogEntry {
    if e.timestamp is None {
        match update_for(u, e.source_file@) {
            Some(t) => LogEntry { file_modified: Some(t), ..e },
            None => e,
        }
    } else {
        e
    }
}

// ---------------------------------------------------------------------------
// Helpers
// ---------------------------------------------------------------------------

fn path_position(s: &Vec<DiscoveredFile>, p: &str) -> (r: Option<usize>)
    ensures
        match r {
            Some(i) => first_path(s@, p@) == Some(i as int) && i < s@.len(),
            None => first_path(s@, p@) is None,
        },
{
    let mut i: usize = 0;
    while i < s.len()
        invariant
            i <= s.len(),
            first_path(s@.take(i as int), p@) is None,
        decreases s.len() - i,
    {
        assert(s@.take(i + 1).drop_last() =~= s@.take(i as int));
        if crate::text::str_eq(s[i].path.as_str(), p) {
            proof {
                lemma_first_path_prefix(s@, p@, i as int + 1);
            }
            return Some(i);
        }
        i += 1;
    }
    assert(s@.take(s@.len() as int) =~= s@);
    None
}

/// A first match in a prefix is the first match of the whole.
proof fn lemma_first_path_prefix(s: Seq<DiscoveredFile>, p: Seq<char>, k: int)
    requires
        0 <= k <= s.len(),
        first_path(s.take(k), p) is Some,
    ensures
        first_path(s, p) == first_path(s.take(k), p),
    decreases s.len() - k,
{
    if k < s.len() {
        assert(s.take(k + 1).drop_last() =~= s.take(k));
        lemma_first_path_prefix(s, p, k + 1);
    } else {
        assert(s.take(k) =~= s);
    }
}

/// The last update for a path, scanning from the end.
fn update_position(u: &Vec<(String, UtcNanos)>, p: &str) -> (r: Option<UtcNanos>)
    ensures
        r == update_for(u@, p@),
{
    let mut k: usize = u.len();
    assert(u@.take(u@.len() as int) =~= u@);
    while k > 0
        invariant
            k <= u.len(),
            update_for(u@, p@) == update_for(u@.take(k as int), p@),
        decreases k,
    {
        let ghost t = u@.take(k as int);
        assert(t.drop_last() =~= u@.take(k - 1));
        if crate::text::str_eq(u[k - 1].0.as_str(), p) {
            return Some(u[k - 1].1);
        }
        k -= 1;
    }
    None
}

/// Append `batch` to `v`.
fn append_entries(v: &mut Vec<LogEntry>, batch: Vec<LogEntry>)
    ensures
        final(v)@ == old(v)@ + batch@,
{
    let mut k: usize = 0;
    while k < batch.len()
        invariant
            k <= batch.len(),
            v@ == old(v)@ + batch@.take(k as int),
        decreases batch.len() - k,
    {
        v.push(batch[k].clone());
        assert(old(v)@ + batch@.take(k + 1) =~= (old(v)@ + batch@.take(k as int)).push(batch@[k as int]));
        k += 1;
    }
    assert(batch@.take(batch@.len() as int) =~= batch@);
}

impl AppState {
    /// Keep a warning unless `MAX_WARNINGS` are already kept.
    pub fn push_warning(&mut self, message: String)
        ensures
            old(self).warnings@.len() < MAX_WARNINGS ==> final(self).warnings@ == old(self).warnings@.push(message),
            old(self).warnings@.len() >= MAX_WARNINGS ==> final(self).warnings@ == old(self).warnings@,
    {
        if self.warnings.len() < MAX_WARNINGS {
            self.warnings.push(message);
        }
    }

    /// Discovery finished with `total_files` of `total_found` files kept.
    pub fn on_discovery_completed(&mut self, total_files: usize, total_found: usize)
        ensures
            final(self).total_files_found == total_found,
            final(self).discovery_truncated == (total_found > total_files),
            final(self).status_message@ == discovery_message(total_files, total_found),
    {
        let mut m = String::new();
        push_str(&mut m, "Discovery complete: ");
        push_decimal(&mut m, total_files as u64);
        if total_found > total_files {
            push_str(&mut m, " of ");
            push_decimal(&mut m, total_found as u64);
            push_str(&mut m, " files loaded (most recently modified).");
        } else {
            push_str(&mut m, " files found.");
        }
        proof {
            reveal_strlit("Discovery complete: ");
            reveal_strlit(" of ");
            reveal_strlit(" files loaded (most recently modified).");
            reveal_strlit(" files found.");
        }
        assert(m@ =~= discovery_message(total_files, total_found));
        self.total_files_found = total_found;
        self.discovery_truncated = total_found > total_files;
        self.status_message = m;
    }

    /// Take in a batch of scanned entries: as many as fit under
    /// `max_total_entries` are appended (none when the cap is reached), with
    /// the untimed ones counted; the largest ID of the whole batch is
    /// recorded whenever any fit.
    pub fn on_entries_batch(&mut self, entries: Vec<LogEntry>)
        requires
            old(self).notimestamp_entry_count + entries@.len() <= usize::MAX,
        ensures
            ({
                let room = room_for(old(self).entries@.len(), old(self).max_total_entries);
                let taken = if entries@.len() <= room { entries@ } else { entries@.take(room as int) };
                if room > 0 {
                    &&& final(self).entries@ == old(self).entries@ + taken
                    &&& final(self).notimestamp_entry_count == old(self).notimestamp_entry_count + count_untimed(taken)
                    &&& final(self).max_entry_id == tracked_max(old(self).max_entry_id, entries@)
                } else {
                    &&& final(self).entries@ == old(self).entries@
                    &&& final(self).notimestamp_entry_count == old(self).notimestamp_entry_count
                    &&& final(self).max_entry_id == old(self).max_entry_id
                }
            }),
            final(self).filtered_indices@ == old(self).filtered_indices@,
            final(self).discovered_files@ == old(self).discovered_files@,
    {
        let cap = self.max_total_entries;
        let current = self.entries.len();
        let room: usize = if current < cap { cap - current } else { 0 };
        if room == 0 {
            return;
        }
        if entries.len() > 0 {
            let m = max_id_exec(&entries);
            if m > self.max_entry_id {
                self.max_entry_id = m;
            }
        }
        let n = if entries.len() <= room { entries.len() } else { room };
        let ghost taken = entries@.take(n as int);
        let mut batch = entries;
        batch.truncate(n);
        assert(batch@ =~= taken);
        let untimed = count_untimed_exec(&batch);
        proof {
            lemma_untimed_bound(taken);
        }
        self.notimestamp_entry_count = self.notimestamp_entry_count + untimed;
        append_entries(&mut self.entries, batch);
        proof {
            if entries@.len() <= room {
                assert(taken =~= entries@);
            }
        }
    }

    /// An append scan reported its files: listed paths are updated in place
    /// (see `updated_file`), new ones appended.  Colours are given by the
    /// caller with `assign_file_colour`.
    pub fn on_additional_files(&mut self, files: Vec<DiscoveredFile>)
        ensures
            final(self).discovered_files@ == merged_files(old(self).discovered_files@, files@),
            final(self).entries@ == old(self).entries@,
    {
        let mut i: usize = 0;
        while i < files.len()
            invariant
                i <= files.len(),
                self.discovered_files@ == merged_files(old(self).discovered_files@, files@.take(i as int)),
                self.entries@ == old(self).entries@,
            decreases files.len() - i,
        {
            let ghost t = files@.take(i + 1);
            assert(t.drop_last() =~= files@.take(i as int));
            let f = files[i].clone();
            match path_position(&self.discovered_files, f.path.as_str()) {
                Some(j) => {
                    let mut e = self.discovered_files[j].clone();
                    if f.profile_id.is_some() {
                        e.profile_id = f.profile_id;
                        e.detection_confidence = f.detection_confidence;
                    }
                    e.parsing_skipped = f.parsing_skipped;
                    self.discovered_files.set(j, e);
                },
                None => {
                    self.discovered_files.push(f);
                },
            }
            i += 1;
        }
        assert(files@.take(files@.len() as int) =~= files@);
    }

    /// Refresh file times reported by the directory watcher: each listed
    /// file with an update takes its last reported time, and so does, when
    /// there are untimed entries, each untimed entry of that file.
    pub fn apply_mtime_updates(&mut self, updates: &Vec<(String, UtcNanos)>)
        ensures
            final(self).discovered_files@ == old(self).discovered_files@.map_values(|f: DiscoveredFile| file_refreshed(f, updates@)),
            old(self).notimestamp_entry_count > 0 ==>
                final(self).entries@ == old(self).entries@.map_values(|e: LogEntry| entry_refreshed(e, updates@)),
            old(self).notimestamp_entry_count == 0 ==> final(self).entries@ == old(self).entries@,
            final(self).notimestamp_entry_count == old(self).notimestamp_entry_count,
    {
        let ghost files0 = self.discovered_files@;
        let mut i: usize = 0;
        while i < self.discovered_files.len()
            invariant
                i <= self.discovered_files.len(),
                self.discovered_files@.len() == files0.len(),
                forall|k: int| 0 <= k < i ==> self.discovered_files@[k] == file_refreshed(files0[k], updates@),
                forall|k: int| i <= k < files0.len() ==> self.discovered_files@[k] == files0[k],
                self.entries@ == old(self).entries@,
                self.notimestamp_entry_count == old(self).notimestamp_entry_count,
            decreases self.discovered_files.len() - i,
        {
            if let Some(t) = update_position(updates, self.discovered_files[i].path.as_str()) {
                let mut f = self.discovered_files[i].clone();
                f.modified = Some(t);
                self.discovered_files.set(i, f);
            }
            i += 1;
        }
        assert(self.discovered_files@ =~= files0.map_values(|f: DiscoveredFile| file_refreshed(f, updates@)));
        if self.notimestamp_entry_count == 0 {
            return;
        }
        let ghost es0 = self.entries@;
        let mut j: usize = 0;
        while j < self.entries.len()
            invariant
                j <= self.entries.len(),
                self.entries@.len() == es0.len(),
                es0 == old(self).entries@,
                forall|k: int| 0 <= k < j ==> self.entries@[k] == entry_refreshed(es0[k], updates@),
                forall|k: int| j <= k < es0.len() ==> self.entries@[k] == es0[k],
                self.discovered_files@ == files0.map_values(|f: DiscoveredFile| file_refreshed(f, updates@)),
                files0 == old(self).discovered_files@,
                self.notimestamp_entry_count == old(self).notimestamp_entry_count,
            decreases self.entries.len() - j,
        {
            if self.entries[j].timestamp.is_none() {
                if let Some(t) = update_position(updates, self.entries[j].source_file.as_str()) {
                    let mut e = self.entries[j].clone();
                    e.file_modified = Some(t);
                    self.entries.set(j, e);
                }
            }
            j += 1;
        }
        assert(self.entries@ =~= es0.map_values(|e: LogEntry| entry_refreshed(e, updates@)));
    }
}

proof fn lemma_untimed_bound(es: Seq<LogEntry>)
    ensures
        count_untimed(es) <= es.len(),
    decreases es.len(),
{
    if es.len() > 0 {
        lemma_untimed_bound(es.drop_last());
    }
}

// ---------------------------------------------------------------------------
// Scan messages
// ---------------------------------------------------------------------------

/// The state after a scan message, the finished scan's summary being
/// handed back rather than applied (see `on_parsing_completed`).
pub open spec fn scan_message_applied(old: &AppState, new: &AppState, msg: ScanProgress) -> bool {
    match msg {
        ScanProgress::DiscoveryStarted => new.status_message@ == "Discovering files..."@ && new.scan_in_progress,
        ScanProgress::FileDiscovered { files_found, .. } =>
            new.status_message@ == "Discovering files... ("@ + decimal(files_found as nat) + " found)"@,
        ScanProgress::DiscoveryCompleted { total_files, total_found } => {
            &&& new.total_files_found == total_found
            &&& new.discovery_truncated == (total_found > total_files)
            &&& new.status_message@ == discovery_message(total_files, total_found)
        },
        ScanProgress::ParsingStarted { total_files } =>
            new.status_message@ == "Parsing "@ + decimal(total_files as nat) + " files..."@,
        ScanProgress::FileParsed { files_completed, total_files, .. } =>
            new.status_message@ == "Parsing files ("@ + decimal(files_completed as nat) + "/"@ + decimal(total_files as nat) + ")..."@,
        ScanProgress::ParsingCompleted { .. } => true,
        ScanProgress::Warning { message } =>
            new.warnings@ == if old.warnings@.len() < MAX_WARNINGS { old.warnings@.push(message) } else { old.warnings@ },
        ScanProgress::Failed { error } => new.status_message@ == "Scan failed: "@ + error@ && !new.scan_in_progress,
        ScanProgress::Cancelled => new.status_message@ == "Scan cancelled."@ && !new.scan_in_progress,
        ScanProgress::FilesDiscovered { files } => new.discovered_files@ == files@,
        ScanProgress::AdditionalFilesDiscovered { files } =>
            new.discovered_files@ == merged_files(old.discovered_files@, files@),
        ScanProgress::EntriesBatch { entries } => {
            let room = room_for(old.entries@.len(), old.max_total_entries);
            let taken = if entries@.len() <= room { entries@ } else { entries@.take(room as int) };
            if room > 0 {
                &&& new.entries@ == old.entries@ + taken
                &&& new.notimestamp_entry_count == old.notimestamp_entry_count + count_untimed(taken)
                &&& new.max_entry_id == tracked_max(old.max_entry_id, entries@)
            } else {
                new.entries@ == old.entries@
            }
        },
    }
}

impl AppState {
    /// Follow one scan message (see `scan_message_applied`).  A finished
    /// scan's summary is handed back for `on_parsing_completed`; every other
    /// message gives `None`.  Colours of reported files are given by the
    /// caller.
    pub fn on_scan_progress(&mut self, msg: ScanProgress) -> (r: Option<crate::model::ScanSummary>)
        requires
            msg matches ScanProgress::EntriesBatch { entries } ==> old(self).notimestamp_entry_count + entries@.len() <= usize::MAX,
        ensures
            scan_message_applied(old(self), final(self), msg),
            match msg {
                ScanProgress::ParsingCompleted { summary } => r == Some(summary),
                _ => r is None,
            },
    {
        proof {
            reveal_strlit("Discovering files...");
            reveal_strlit("Discovering files... (");
            reveal_strlit(" found)");
            reveal_strlit("Parsing ");
            reveal_strlit(" files...");
            reveal_strlit("Parsing files (");
            reveal_strlit("/");
            reveal_strlit(")...");
            reveal_strlit("Scan failed: ");
            reveal_strlit("Scan cancelled.");
        }
        match msg {
            ScanProgress::DiscoveryStarted => {
                self.status_message = "Discovering files...".to_owned();
                self.scan_in_progress = true;
                None
            },
            ScanProgress::FileDiscovered { files_found, .. } => {
                let mut m = String::new();
                push_str(&mut m, "Discovering files... (");
                push_decimal(&mut m, files_found as u64);
                push_str(&mut m, " found)");
                self.status_message = m;
                None
            },
            ScanProgress::DiscoveryCompleted { total_files, total_found } => {
                self.on_discovery_completed(total_files, total_found);
                None
            },
            ScanProgress::FilesDiscovered { files } => {
                self.discovered_files = files;
                None
            },
            ScanProgress::AdditionalFilesDiscovered { files } => {
                self.on_additional_files(files);
                None
            },
            ScanProgress::ParsingStarted { total_files } => {
                let mut m = String::new();
                push_str(&mut m, "Parsing ");
                push_decimal(&mut m, total_files as u64);
                push_str(&mut m, " files...");
                self.status_message = m;
                None
            },
            ScanProgress::FileParsed { files_completed, total_files, .. } => {
                let mut m = String::new();
                push_str(&mut m, "Parsing files (");
                push_decimal(&mut m, files_completed as u64);
                push_str(&mut m, "/");
                push_decimal(&mut m, total_files as u64);
                push_str(&mut m, ")...");
                self.status_message = m;
                None
            },
            ScanProgress::EntriesBatch { entries } => {
                self.on_entries_batch(entries);
                None
            },
            ScanProgress::ParsingCompleted { summary } => Some(summary),
            ScanProgress::Warning { message } => {
                self.push_warning(message);
                None
            },
            ScanProgress::Failed { error } => {
                let mut m = String::new();
                push_str(&mut m, "Scan failed: ");
                push_str(&mut m, error.as_str());
                self.status_message = m;
                self.scan_in_progress = false;
                None
            },
            ScanProgress::Cancelled => {
                self.status_message = "Scan cancelled.".to_owned();
                self.scan_in_progress = false;
                None
            },
        }
    }
}

// ---------------------------------------------------------------------------
// Live tail and directory watcher messages
// ---------------------------------------------------------------------------

/// The warning for a tail error on a file.
pub open spec fn tail_warning(path: Seq<char>, message: Seq<char>) -> Seq<char> {
    "Tail warning - "@ + path + ": "@ + message
}

/// The status after the directory watcher reported new files.
pub open spec fn new_files_message(count: nat) -> Seq<char> {
    "Directory watcher: "@ + decimal(count) + " new file(s) discovered \u{2014} tick in Files tab to load entries."@
}

impl AppState {
    /// The live tail stopped.
    pub fn on_tail_stopped(&mut self)
        ensures
            !final(self).tail_active,
            final(self).status_message@ == "Live tail stopped."@,
    {
        proof {
            reveal_strlit("Live tail stopped.");
        }
        self.tail_active = false;
        self.status_message = "Live tail stopped.".to_owned();
    }

    /// The live tail could not read a file: a warning is kept (see
    /// `push_warning`).
    pub fn on_tail_file_error(&mut self, path: &str, message: &str)
        ensures
            old(self).warnings@.len() < MAX_WARNINGS ==> final(self).warnings@.len() == old(self).warnings@.len() + 1
                && final(self).warnings@.drop_last() == old(self).warnings@
                && final(self).warnings@.last()@ == tail_warning(path@, message@),
            old(self).warnings@.len() >= MAX_WARNINGS ==> final(self).warnings@ == old(self).warnings@,
    {
        let mut w = String::new();
        push_str(&mut w, "Tail warning - ");
        push_str(&mut w, path);
        push_str(&mut w, ": ");
        push_str(&mut w, message);
        proof {
            reveal_strlit("Tail warning - ");
            reveal_strlit(": ");
        }
        assert(w@ =~= tail_warning(path@, message@));
        let ghost before = self.warnings@;
        self.push_warning(w);
        proof {
            if before.len() < MAX_WARNINGS {
                assert(self.warnings@.drop_last() =~= before);
            }
        }
    }

    /// The directory watcher started a walk.
    pub fn on_walk_started(&mut self)
        ensures
            final(self).dir_watcher_scanning,
    {
        self.dir_watcher_scanning = true;
    }

    /// The directory watcher finished a walk that found `new_count` files;
    /// when none, the status says the directory is up to date as of
    /// `clock_text` (the local time of day).
    pub fn on_walk_complete(&mut self, new_count: usize, clock_text: &str)
        ensures
            !final(self).dir_watcher_scanning,
            new_count == 0 ==> final(self).status_message@ == "Directory watcher: up to date (checked "@ + clock_text@ + ")"@,
            new_count > 0 ==> final(self).status_message == old(self).status_message,
    {
        self.dir_watcher_scanning = false;
        if new_count == 0 {
            let mut m = String::new();
            push_str(&mut m, "Directory watcher: up to date (checked ");
            push_str(&mut m, clock_text);
            push_str(&mut m, ")");
            proof {
                reveal_strlit("Directory watcher: up to date (checked ");
                reveal_strlit(")");
            }
            self.status_message = m;
        }
    }

    /// The directory watcher found new files.  While a scan runs they are
    /// queued, as many as fit under `MAX_QUEUED_DIR_WATCHER_FILES` (the rest
    /// are found again by a later walk), and `None` is returned.  Otherwise
    /// a scan is marked running, the status says how many were found, and
    /// the files are handed back for a scan that profiles them without
    /// loading their entries.
    pub fn on_new_files(&mut self, paths: Vec<String>) -> (r: Option<Vec<String>>)
        ensures
            old(self).scan_in_progress ==> {
                let room = room_for(old(self).queued_dir_watcher_files@.len(), MAX_QUEUED_DIR_WATCHER_FILES);
                let taken = if paths@.len() <= room { paths@ } else { paths@.take(room as int) };
                &&& r is None
                &&& final(self).queued_dir_watcher_files@ == old(self).queued_dir_watcher_files@ + taken
                &&& final(self).status_message == old(self).status_message
            },
            !old(self).scan_in_progress ==> {
                &&& r == Some(paths)
                &&& final(self).scan_in_progress
                &&& final(self).status_message@ == new_files_message(paths@.len())
                &&& final(self).queued_dir_watcher_files == old(self).queued_dir_watcher_files
            },
    {
        if self.scan_in_progress {
            let current = self.queued_dir_watcher_files.len();
            let room: usize = if current < MAX_QUEUED_DIR_WATCHER_FILES { MAX_QUEUED_DIR_WATCHER_FILES - current } else { 0 };
            let n = if paths.len() <= room { paths.len() } else { room };
            let ghost before = self.queued_dir_watcher_files@;
            let mut k: usize = 0;
            while k < n
                invariant
                    k <= n,
                    n <= paths@.len(),
                    self.queued_dir_watcher_files@ == before + paths@.take(k as int),
                    self.status_message == old(self).status_message,
                decreases n - k,
            {
                self.queued_dir_watcher_files.push(paths[k].clone());
                assert(before + paths@.take(k + 1) =~= (before + paths@.take(k as int)).push(paths@[k as int]));
                k += 1;
            }
            proof {
                if paths@.len() <= room {
                    assert(paths@.take(n as int) =~= paths@);
                }
            }
            None
        } else {
            let mut m = String::new();
            push_str(&mut m, "Directory watcher: ");
            push_decimal(&mut m, paths.len() as u64);
            push_str(&mut m, " new file(s) discovered \u{2014} tick in Files tab to load entries.");
            proof {
                reveal_strlit("Directory watcher: ");
                reveal_strlit(" new file(s) discovered \u{2014} tick in Files tab to load entries.");
            }
            assert(m@ =~= new_files_message(paths@.len()));
            self.status_message = m;
            self.scan_in_progress = true;
            Some(paths)
        }
    }
}

// ---------------------------------------------------------------------------
// Entries from the live tail
// ---------------------------------------------------------------------------

/// Tail entries evicted to make room for `incoming` more: what exceeds the
/// tail buffer, at most the tail entries there are.
pub open spec fn tail_evicted(len: nat, base: usize, cap: usize, incoming: nat) -> nat {
    let tl: nat = if len > base { (len - base) as nat } else { 0 };
    if tl + incoming > cap {
        let want = (tl + incoming - cap) as nat;
        if want < tl { want } else { tl }
    } else {
        0
    }
}

/// The entries kept before new tail entries are appended: the oldest tail
/// entries (those after the scan's) evicted as needed.
pub open spec fn tail_kept(es: Seq<LogEntry>, base: usize, cap: usize, incoming: nat) -> Seq<LogEntry> {
    let n = tail_evicted(es.len(), base, cap, incoming);
    if n > 0 {
        es.take(base as int) + es.skip(base + n)
    } else {
        es
    }
}

/// New tail entries can be appended to the view without a full rebuild:
/// nothing was evicted and they start no earlier than the last entry.
pub open spec fn fast_append(es: Seq<LogEntry>, base: usize, cap: usize, new: Seq<LogEntry>) -> bool {
    &&& tail_evicted(es.len(), base, cap, new.len()) == 0
    &&& in_time_order(tail_kept(es, base, cap, new.len()), new)
}

/// `new` starts no earlier than `kept` ends, both ends having a timestamp.
pub open spec fn in_time_order(kept: Seq<LogEntry>, new: Seq<LogEntry>) -> bool {
    &&& kept.len() > 0
    &&& new.len() > 0
    &&& kept.last().timestamp matches Some(last)
    &&& new[0].timestamp matches Some(first)
    &&& first >= last
}

fn continues_in_order(kept: &Vec<LogEntry>, new: &Vec<LogEntry>) -> (r: bool)
    ensures
        r == in_time_order(kept@, new@),
{
    if kept.len() == 0 || new.len() == 0 {
        return false;
    }
    match (kept[kept.len() - 1].timestamp, new[0].timestamp) {
        (Some(last), Some(first)) => first >= last,
        _ => false,
    }
}

/// Evict the oldest tail entries (those after `base`) that a buffer of
/// `cap` cannot hold with `incoming` more.
fn make_tail_room(es: &mut Vec<LogEntry>, untimed: &mut usize, base: usize, cap: usize, incoming: usize) -> (n: usize)
    requires
        old(es)@.len() + incoming <= usize::MAX,
    ensures
        n == tail_evicted(old(es)@.len(), base, cap, incoming as nat),
        n > 0 ==> final(es)@ == old(es)@.take(base as int) + old(es)@.skip(base + n)
            && *final(untimed) == count_untimed(final(es)@),
        n == 0 ==> final(es)@ == old(es)@ && *final(untimed) == *old(untimed),
        final(es)@.len() + n == old(es)@.len(),
        n > 0 ==> *final(untimed) <= final(es)@.len(),
{
    let len = es.len();
    let tl: usize = if len > base { len - base } else { 0 };
    if tl + incoming > cap {
        let n = evict_from(es, untimed, base, tl + incoming - cap);
        proof {
            if n > 0 {
                lemma_untimed_bound(es@);
            }
        }
        n
    } else {
        0
    }
}

/// Evict what a tail buffer of `cap` cannot hold, then count and append a
/// non-empty batch of tail entries; says whether the view can simply be
/// extended (see `fast_append`).
fn take_tail_batch(es: &mut Vec<LogEntry>, untimed: &mut usize, max_seen: &mut u64, base: usize, cap: usize,
    entries: Vec<LogEntry>) -> (fast: bool)
    requires
        entries@.len() > 0,
        old(es)@.len() + entries@.len() <= usize::MAX,
        *old(untimed) + entries@.len() <= usize::MAX,
    ensures
        fast == fast_append(old(es)@, base, cap, entries@),
        final(es)@ == tail_kept(old(es)@, base, cap, entries@.len()) + entries@,
        *final(max_seen) == tracked_max(*old(max_seen), entries@),
        *final(untimed) == (if tail_evicted(old(es)@.len(), base, cap, entries@.len()) > 0 {
            count_untimed(tail_kept(old(es)@, base, cap, entries@.len()))
        } else {
            *old(untimed) as nat
        }) + count_untimed(entries@),
{
    let evicted = make_tail_room(es, untimed, base, cap, entries.len());
    assert(es@ == tail_kept(old(es)@, base, cap, entries@.len()));
    let fast = evicted == 0 && continues_in_order(es, &entries);
    let m = max_id_exec(&entries);
    if m > *max_seen {
        *max_seen = m;
    }
    let n = count_untimed_exec(&entries);
    *untimed = *untimed + n;
    append_entries(es, entries);
    fast
}

impl AppState {
    /// Extend the view over the entries from `start` on, the entry counters
    /// left as they are.
    fn extend_view_from(&mut self, start: usize, now: UtcNanos)
        requires
            offsets_ok(old(self)),
            start < old(self).entries@.len(),
        ensures
            offsets_ok(final(self)),
            final(self).entries@ == old(self).entries@,
            final(self).max_entry_id == old(self).max_entry_id,
            final(self).notimestamp_entry_count == old(self).notimestamp_entry_count,
            old(self).filter_state.dedup_mode == crate::filter::DedupMode::Off ==> {
                &&& final(self).filtered_indices@ == old(self).filtered_indices@ + crate::state::passing_from(
                    old(self).entries@, &final(self).filter_state,
                    crate::text::spec_str_lower(old(self).filter_state.text_search@), old(self).discovered_files@,
                    crate::state::cutoff_at(old(self), now as int), start as int, old(self).entries@.len() as int)
                &&& crate::state::filter_prepared(old(self), final(self), now as int)
            },
            old(self).filter_state.dedup_mode != crate::filter::DedupMode::Off ==>
                final(self).filtered_indices@ == crate::state::view_indices(final(self),
                    crate::state::cutoff_at(old(self), now as int)),
    {
        let max_seen = self.max_entry_id;
        let untimed = self.notimestamp_entry_count;
        self.extend_filtered_for_range_at(start, now);
        self.max_entry_id = max_seen;
        self.notimestamp_entry_count = untimed;
    }
}

impl AppState {
    /// Take in entries from the live tail at instant `now`.  The oldest tail
    /// entries are evicted as needed to keep the tail buffer within
    /// `max_tail_buffer_entries` (entries from the scan are never evicted),
    /// and the untimed count is recounted after an eviction.  The new entries
    /// are appended; when they can be appended to the view directly (see
    /// `fast_append`) the view is extended, otherwise it is left for a full
    /// sort and rebuild, which the result asks for.  In newest-first order
    /// with auto-scroll, a scroll to the top is requested.
    #[verifier::rlimit(40)]
    #[verifier::spinoff_prover]
    pub fn on_tail_entries_at(&mut self, entries: Vec<LogEntry>, now: UtcNanos) -> (needs_sort: bool)
        requires
            offsets_ok(old(self)),
            old(self).entries@.len() + entries@.len() <= usize::MAX,
            old(self).notimestamp_entry_count + entries@.len() <= usize::MAX,
        ensures
            offsets_ok(final(self)),
            entries@.len() == 0 ==> !needs_sort && final(self).entries@ == old(self).entries@
                && final(self).filtered_indices@ == old(self).filtered_indices@,
            entries@.len() > 0 ==> final(self).entries@ == tail_kept(old(self).entries@, old(self).tail_base_count, old(self).max_tail_buffer_entries, entries@.len()) + entries@,
            entries@.len() > 0 ==> final(self).notimestamp_entry_count == (if tail_evicted(old(self).entries@.len(),
                old(self).tail_base_count, old(self).max_tail_buffer_entries, entries@.len()) > 0 {
                    count_untimed(tail_kept(old(self).entries@, old(self).tail_base_count, old(self).max_tail_buffer_entries, entries@.len()))
                } else {
                    old(self).notimestamp_entry_count as nat
                }) + count_untimed(entries@),
            entries@.len() > 0 ==> final(self).max_entry_id == tracked_max(old(self).max_entry_id, entries@),
            entries@.len() > 0 ==> needs_sort == !fast_append(old(self).entries@, old(self).tail_base_count, old(self).max_tail_buffer_entries, entries@),
            entries@.len() > 0 && !fast_append(old(self).entries@, old(self).tail_base_count, old(self).max_tail_buffer_entries, entries@) ==>
                final(self).filtered_indices@ == old(self).filtered_indices@,
            entries@.len() > 0 && fast_append(old(self).entries@, old(self).tail_base_count, old(self).max_tail_buffer_entries, entries@)
                && old(self).filter_state.dedup_mode == crate::filter::DedupMode::Off ==> {
                &&& final(self).filtered_indices@ == old(self).filtered_indices@ + crate::state::passing_from(
                    final(self).entries@, &final(self).filter_state,
                    crate::text::spec_str_lower(old(self).filter_state.text_search@), old(self).discovered_files@,
                    crate::state::cutoff_at(old(self), now as int), tail_kept(old(self).entries@, old(self).tail_base_count, old(self).max_tail_buffer_entries, entries@.len()).len() as int,
                    final(self).entries@.len() as int)
                &&& crate::state::filter_prepared(old(self), final(self), now as int)
            },
            entries@.len() > 0 && fast_append(old(self).entries@, old(self).tail_base_count, old(self).max_tail_buffer_entries, entries@)
                && old(self).filter_state.dedup_mode != crate::filter::DedupMode::Off ==>
                final(self).filtered_indices@ == crate::state::view_indices(final(self),
                    crate::state::cutoff_at(old(self), now as int)),
            entries@.len() > 0 ==> final(self).scroll_top_requested == (old(self).scroll_top_requested
                || (old(self).sort_descending && old(self).tail_auto_scroll)),
    {
        if entries.len() == 0 {
            return false;
        }
        let incoming = entries.len();
        let base = self.tail_base_count;
        let cap = self.max_tail_buffer_entries;
        let fast = take_tail_batch(&mut self.entries, &mut self.notimestamp_entry_count, &mut self.max_entry_id,
            base, cap, entries);
        let base_count = self.entries.len() - incoming;
        let scroll = self.scroll_top_requested || (self.sort_descending && self.tail_auto_scroll);
        if fast {
            self.extend_view_from(base_count, now);
        }
        self.scroll_top_requested = scroll;
        !fast
    }
}

// ---------------------------------------------------------------------------
// Starting the live tail
// ---------------------------------------------------------------------------

/// Files watched by the live tail at most.
pub const MAX_TAIL_WATCH_FILES: usize = 100;

/// A file chosen for the live tail: its position among the discovered
/// files, the position of its profile, and the offset to start reading at
/// (its size at the last scan, so what was written since is read too).
pub struct TailPick {
    pub file: usize,
    pub profile: usize,
    pub initial_offset: u64,
}

/// The source filter lets the file through: not everything hidden, and no
/// source files chosen or this one among them.
pub open spec fn tail_source_ok(fs: &crate::filter::FilterState, path: Seq<char>) -> bool {
    !fs.hide_all_sources && (fs.source_files@.len() == 0 || string_views(fs.source_files@).contains(path))
}

/// The profile of a discovered file, when it has one that is loaded.
pub open spec fn file_profile(f: DiscoveredFile, profiles: Seq<crate::model::FormatProfile>) -> Option<int> {
    match f.profile_id {
        Some(id) => crate::scan::profile_named(profiles, id@),
        None => None,
    }
}

/// Positions among the first `n` discovered files of those the live tail
/// can watch: let through by the source filter, with a loaded profile.
pub open spec fn tail_files(files: Seq<DiscoveredFile>, fs: &crate::filter::FilterState,
    profiles: Seq<crate::model::FormatProfile>, n: nat) -> Seq<usize>
    decreases n,
{
    if n == 0 {
        Seq::empty()
    } else {
        let prev = tail_files(files, fs, profiles, (n - 1) as nat);
        let f = files[n - 1];
        if tail_source_ok(fs, f.path@) && file_profile(f, profiles) is Some {
            prev.push((n - 1) as usize)
        } else {
            prev
        }
    }
}

/// What a pick says of its file.
pub open spec fn pick_of(files: Seq<DiscoveredFile>, profiles: Seq<crate::model::FormatProfile>, k: usize, p: TailPick) -> bool {
    &&& p.file == k
    &&& p.profile as int == file_profile(files[k as int], profiles)->Some_0
    &&& p.initial_offset == files[k as int].size
}

proof fn lemma_tail_files_shape(files: Seq<DiscoveredFile>, fs: &crate::filter::FilterState,
    profiles: Seq<crate::model::FormatProfile>, n: nat)
    requires
        n <= files.len() <= usize::MAX,
    ensures
        forall|i: int| 0 <= i < tail_files(files, fs, profiles, n).len() ==>
            (#[trigger] tail_files(files, fs, profiles, n)[i]) < n
            && file_profile(files[tail_files(files, fs, profiles, n)[i] as int], profiles) is Some,
        forall|i: int, j: int| 0 <= i < j < tail_files(files, fs, profiles, n).len() ==>
            (#[trigger] tail_files(files, fs, profiles, n)[i]) < (#[trigger] tail_files(files, fs, profiles, n)[j]),
    decreases n,
{
    if n > 0 {
        lemma_tail_files_shape(files, fs, profiles, (n - 1) as nat);
        let prev = tail_files(files, fs, profiles, (n - 1) as nat);
        let t = tail_files(files, fs, profiles, n);
        assert forall|i: int| 0 <= i < t.len() implies (#[trigger] t[i]) < n
            && file_profile(files[t[i] as int], profiles) is Some by {
            if i < prev.len() {
                assert(t[i] == prev[i]);
            }
        }
        assert forall|i: int, j: int| 0 <= i < j < t.len() implies (#[trigger] t[i]) < (#[trigger] t[j]) by {
            assert(t[i] == prev[i]);
            if j < prev.len() {
                assert(t[j] == prev[j]);
            }
        }
    }
}

/// The status once the live tail watches `watching` of `total` files.
pub open spec fn tail_started_message(watching: nat, total: nat) -> Seq<char> {
    if total > MAX_TAIL_WATCH_FILES {
        "Live tail active \u{2014} watching "@ + decimal(watching) + " of "@ + decimal(total)
            + " checked files (capped at "@ + decimal(MAX_TAIL_WATCH_FILES as nat)
            + "; uncheck some files to fit all within the cap)."@
    } else {
        "Live tail active \u{2014} watching "@ + decimal(watching) + " file(s)."@
    }
}

impl AppState {
    /// The files the live tail should watch, and how many could be: the
    /// discovered files let through by the source filter that have a loaded
    /// profile, in discovery order; when more than `MAX_TAIL_WATCH_FILES`,
    /// the most recently modified ones (see `recency_order`).
    pub fn tail_plan(&self) -> (r: (Vec<TailPick>, usize))
        ensures
            ({
                let cand = tail_files(self.discovered_files@, &self.filter_state, self.profiles@,
                    self.discovered_files@.len());
                &&& r.1 == cand.len()
                &&& cand.len() <= MAX_TAIL_WATCH_FILES ==> r.0@.len() == cand.len()
                    && forall|i: int| 0 <= i < cand.len() ==>
                        pick_of(self.discovered_files@, self.profiles@, cand[i], #[trigger] r.0@[i])
                &&& cand.len() > MAX_TAIL_WATCH_FILES ==> exists|ord: Seq<usize>| {
                    &&& ord.len() == cand.len()
                    &&& crate::discovery::in_recency_order(self.discovered_files@, ord)
                    &&& (forall|x: usize| ord.contains(x) <==> cand.contains(x))
                    &&& r.0@.len() == MAX_TAIL_WATCH_FILES
                    &&& forall|i: int| 0 <= i < MAX_TAIL_WATCH_FILES ==>
                        pick_of(self.discovered_files@, self.profiles@, ord[i], #[trigger] r.0@[i])
                }
            }),
    {
        let ghost files = self.discovered_files@;
        let ghost ps = self.profiles@;
        let mut cand: Vec<usize> = Vec::new();
        let mut i: usize = 0;
        while i < self.discovered_files.len()
            invariant
                i <= self.discovered_files@.len(),
                files == self.discovered_files@,
                ps == self.profiles@,
                cand@ == tail_files(files, &self.filter_state, ps, i as nat),
            decreases self.discovered_files@.len() - i,
        {
            let f = &self.discovered_files[i];
            let pass = !self.filter_state.hide_all_sources
                && (self.filter_state.source_files.len() == 0
                    || crate::filter::string_in(&self.filter_state.source_files, f.path.as_str()));
            let has_profile = match &f.profile_id {
                Some(id) => crate::scan::find_profile_exec(&self.profiles, id.as_str()).is_some(),
                None => false,
            };
            if pass && has_profile {
                cand.push(i);
            }
            i += 1;
        }
        proof {
            lemma_tail_files_shape(files, &self.filter_state, ps, files.len());
        }
        let total = cand.len();
        let order: Vec<usize> = if total > MAX_TAIL_WATCH_FILES {
            crate::discovery::recency_order(&self.discovered_files, &cand)
        } else {
            cand
        };
        let keep = if total > MAX_TAIL_WATCH_FILES { MAX_TAIL_WATCH_FILES } else { total };
        assert forall|k: int| 0 <= k < order@.len() implies (#[trigger] order@[k] as int) < files.len()
            && file_profile(files[order@[k] as int], ps) is Some by {
            if total > MAX_TAIL_WATCH_FILES {
                assert(order@.contains(order@[k]));
                let q = choose|q: int| 0 <= q < cand@.len() && cand@[q] == order@[k];
            }
        }
        let mut picks: Vec<TailPick> = Vec::new();
        let mut j: usize = 0;
        while j < keep
            invariant
                j <= keep <= order@.len(),
                files == self.discovered_files@,
                ps == self.profiles@,
                forall|k: int| 0 <= k < order@.len() ==> (#[trigger] order@[k] as int) < files.len()
                    && file_profile(files[order@[k] as int], ps) is Some,
                picks@.len() == j,
                forall|k: int| 0 <= k < j ==> pick_of(files, ps, order@[k], #[trigger] picks@[k]),
            decreases keep - j,
        {
            let fi = order[j];
            let f = &self.discovered_files[fi];
            assert(file_profile(files[fi as int], ps) is Some);
            let pi = match &f.profile_id {
                Some(id) => match crate::scan::find_profile_exec(&self.profiles, id.as_str()) {
                    Some(q) => q,
                    None => 0,
                },
                None => 0,
            };
            picks.push(TailPick { file: fi, profile: pi, initial_offset: f.size });
            j += 1;
        }
        (picks, total)
    }

    /// The live tail was asked for but no file can be watched.
    pub fn on_no_tail_files(&mut self)
        ensures
            final(self).status_message@ == "No watchable files \u{2014} tick files in the Files tab first."@,
            final(self).tail_active == old(self).tail_active,
    {
        proof {
            reveal_strlit("No watchable files \u{2014} tick files in the Files tab first.");
        }
        self.status_message = "No watchable files \u{2014} tick files in the Files tab first.".to_owned();
    }

    /// The live tail started watching `watching` of `total` files: the
    /// entries so far become the part the tail never evicts, and the status
    /// says how many files are watched.
    pub fn on_tail_started(&mut self, watching: usize, total: usize)
        ensures
            final(self).tail_active,
            final(self).tail_base_count == old(self).entries@.len(),
            final(self).entries@ == old(self).entries@,
            final(self).status_message@ == tail_started_message(watching as nat, total as nat),
    {
        self.set_tail_base();
        self.tail_active = true;
        let mut m = String::new();
        push_str(&mut m, "Live tail active \u{2014} watching ");
        push_decimal(&mut m, watching as u64);
        if total > MAX_TAIL_WATCH_FILES {
            push_str(&mut m, " of ");
            push_decimal(&mut m, total as u64);
            push_str(&mut m, " checked files (capped at ");
            push_decimal(&mut m, MAX_TAIL_WATCH_FILES as u64);
            push_str(&mut m, "; uncheck some files to fit all within the cap).");
        } else {
            push_str(&mut m, " file(s).");
        }
        proof {
            reveal_strlit("Live tail active \u{2014} watching ");
            reveal_strlit(" of ");
            reveal_strlit(" checked files (capped at ");
            reveal_strlit("; uncheck some files to fit all within the cap).");
            reveal_strlit(" file(s).");
        }
        assert(m@ =~= tail_started_message(watching as nat, total as nat));
        self.status_message = m;
    }
}

// ---------------------------------------------------------------------------
// Requests from the file panel
// ---------------------------------------------------------------------------

/// Some discovered file has the path and its entries were loaded.
pub open spec fn path_loaded(fs: Seq<DiscoveredFile>, p: Seq<char>) -> bool {
    exists|i: int| 0 <= i < fs.len() && (#[trigger] fs[i]).path@ == p && !fs[i].parsing_skipped
}

/// Some discovered file has the path.
pub open spec fn path_listed(fs: Seq<DiscoveredFile>, p: Seq<char>) -> bool {
    exists|i: int| 0 <= i < fs.len() && (#[trigger] fs[i]).path@ == p
}

/// The paths, in order, whose entries are not loaded yet.
pub open spec fn not_loaded(fs: Seq<DiscoveredFile>, ps: Seq<Seq<char>>) -> Seq<Seq<char>>
    decreases ps.len(),
{
    if ps.len() == 0 {
        Seq::empty()
    } else {
        let r = not_loaded(fs, ps.drop_last());
        if path_loaded(fs, ps.last()) { r } else { r.push(ps.last()) }
    }
}

/// The paths, in order, that no discovered file has.
pub open spec fn not_listed(fs: Seq<DiscoveredFile>, ps: Seq<Seq<char>>) -> Seq<Seq<char>>
    decreases ps.len(),
{
    if ps.len() == 0 {
        Seq::empty()
    } else {
        let r = not_listed(fs, ps.drop_last());
        if path_listed(fs, ps.last()) { r } else { r.push(ps.last()) }
    }
}

/// The status when files are added: how many are loaded again and how many
/// are new.
pub open spec fn add_files_message(reparse: nat, new: nat) -> Seq<char> {
    if new == 0 {
        "Loading entries for "@ + decimal(reparse) + " file(s)..."@
    } else if reparse == 0 {
        "Adding "@ + decimal(new) + " file(s)..."@
    } else {
        "Loading "@ + decimal(reparse) + " file(s), adding "@ + decimal(new) + " new file(s)..."@
    }
}

fn loaded_exec(fs: &Vec<DiscoveredFile>, p: &str) -> (r: bool)
    ensures
        r == path_loaded(fs@, p@),
{
    let mut i: usize = 0;
    while i < fs.len()
        invariant
            i <= fs@.len(),
            forall|k: int| 0 <= k < i ==> !((#[trigger] fs@[k]).path@ == p@ && !fs@[k].parsing_skipped),
        decreases fs@.len() - i,
    {
        if !fs[i].parsing_skipped && crate::text::str_eq(fs[i].path.as_str(), p) {
            return true;
        }
        i += 1;
    }
    false
}

fn listed_exec(fs: &Vec<DiscoveredFile>, p: &str) -> (r: bool)
    ensures
        r == path_listed(fs@, p@),
{
    let mut i: usize = 0;
    while i < fs.len()
        invariant
            i <= fs@.len(),
            forall|k: int| 0 <= k < i ==> (#[trigger] fs@[k]).path@ != p@,
        decreases fs@.len() - i,
    {
        if crate::text::str_eq(fs[i].path.as_str(), p) {
            return true;
        }
        i += 1;
    }
    false
}

impl AppState {
    /// Files were chosen to be added to the session (or ticked to load
    /// their entries).  Those whose entries are already loaded are dropped;
    /// when none is left the status says so and nothing is to be scanned.
    /// Otherwise the ones no discovered file has are remembered as added by
    /// hand, a scan is marked running, the status says how many are loaded
    /// again and how many are new, and the files to scan are returned.
    pub fn on_add_files(&mut self, files: Vec<String>) -> (r: Vec<String>)
        ensures
            ({
                let kept = not_loaded(old(self).discovered_files@, string_views(files@));
                let fresh = not_listed(old(self).discovered_files@, kept);
                &&& string_views(r@) == kept
                &&& kept.len() == 0 ==> final(self).status_message@ == "Selected file(s) already loaded."@
                    && final(self).manually_added_files@ == old(self).manually_added_files@
                    && final(self).scan_in_progress == old(self).scan_in_progress
                &&& kept.len() > 0 ==> string_views(final(self).manually_added_files@)
                        == string_views(old(self).manually_added_files@) + fresh
                    && final(self).scan_in_progress
                    && final(self).status_message@ == add_files_message((kept.len() - fresh.len()) as nat, fresh.len())
            }),
            final(self).discovered_files@ == old(self).discovered_files@,
    {
        let ghost fs = self.discovered_files@;
        let mut kept: Vec<String> = Vec::new();
        let mut i: usize = 0;
        while i < files.len()
            invariant
                i <= files@.len(),
                fs == self.discovered_files@,
                string_views(kept@) == not_loaded(fs, string_views(files@).take(i as int)),
            decreases files@.len() - i,
        {
            let ghost t = string_views(files@).take(i + 1);
            assert(t.drop_last() =~= string_views(files@).take(i as int));
            assert(t.last() == files@[i as int]@);
            if !loaded_exec(&self.discovered_files, files[i].as_str()) {
                let ghost before = string_views(kept@);
                kept.push(files[i].clone());
                assert(string_views(kept@) =~= before.push(files@[i as int]@));
            }
            i += 1;
        }
        assert(string_views(files@).take(files@.len() as int) =~= string_views(files@));
        if kept.len() == 0 {
            proof {
                reveal_strlit("Selected file(s) already loaded.");
            }
            self.status_message = "Selected file(s) already loaded.".to_owned();
            return kept;
        }
        let ghost kv = string_views(kept@);
        let ghost added0 = string_views(self.manually_added_files@);
        let mut fresh_count: usize = 0;
        let mut j: usize = 0;
        while j < kept.len()
            invariant
                j <= kept@.len(),
                fs == self.discovered_files@,
                kv == string_views(kept@),
                string_views(self.manually_added_files@) == added0 + not_listed(fs, kv.take(j as int)),
                fresh_count == not_listed(fs, kv.take(j as int)).len(),
                fresh_count <= j,
            decreases kept@.len() - j,
        {
            let ghost t = kv.take(j + 1);
            assert(t.drop_last() =~= kv.take(j as int));
            assert(t.last() == kept@[j as int]@);
            if !listed_exec(&self.discovered_files, kept[j].as_str()) {
                let ghost before = string_views(self.manually_added_files@);
                self.manually_added_files.push(kept[j].clone());
                assert(string_views(self.manually_added_files@) =~= before.push(kept@[j as int]@));
                fresh_count += 1;
            }
            j += 1;
        }
        assert(kv.take(kept@.len() as int) =~= kv);
        let reparse = kept.len() - fresh_count;
        let mut m = String::new();
        if fresh_count == 0 {
            push_str(&mut m, "Loading entries for ");
            push_decimal(&mut m, reparse as u64);
            push_str(&mut m, " file(s)...");
        } else if reparse == 0 {
            push_str(&mut m, "Adding ");
            push_decimal(&mut m, fresh_count as u64);
            push_str(&mut m, " file(s)...");
        } else {
            push_str(&mut m, "Loading ");
            push_decimal(&mut m, reparse as u64);
            push_str(&mut m, " file(s), adding ");
            push_decimal(&mut m, fresh_count as u64);
            push_str(&mut m, " new file(s)...");
        }
        proof {
            reveal_strlit("Loading entries for ");
            reveal_strlit(" file(s)...");
            reveal_strlit("Adding ");
            reveal_strlit("Loading ");
            reveal_strlit(" file(s), adding ");
            reveal_strlit(" new file(s)...");
        }
        assert(m@ =~= add_files_message(reparse as nat, fresh_count as nat));
        self.status_message = m;
        self.scan_in_progress = true;
        kept
    }

    /// The files a restored session scans with their entries loaded: the
    /// chosen source files when some are chosen and sources are not all
    /// hidden; otherwise none (every file is only profiled).
    pub fn restore_parse_selection(&self) -> (r: Vec<String>)
        ensures
            !self.filter_state.hide_all_sources && self.filter_state.source_files@.len() > 0 ==>
                string_views(r@) == string_views(self.filter_state.source_files@),
            self.filter_state.hide_all_sources || self.filter_state.source_files@.len() == 0 ==> r@.len() == 0,
    {
        if !self.filter_state.hide_all_sources && self.filter_state.source_files.len() > 0 {
            crate::persistence::copy_strings(&self.filter_state.source_files)
        } else {
            Vec::new()
        }
    }
}

/// Paths of the files whose entries were not loaded, in order.
pub open spec fn skipped_paths(fs: Seq<DiscoveredFile>) -> Seq<Seq<char>>
    decreases fs.len(),
{
    if fs.len() == 0 {
        Seq::empty()
    } else {
        let r = skipped_paths(fs.drop_last());
        if fs.last().parsing_skipped { r.push(fs.last().path@) } else { r }
    }
}

/// The status when the skipped files are loaded.
pub open spec fn parse_skipped_message(n: nat) -> Seq<char> {
    "Parsing "@ + decimal(n) + " previously skipped file(s)..."@
}

/// Collect the paths of the skipped files and mark every file as loaded, so
/// the results of their scan update the rows in place.
fn unskip_all(fs: &mut Vec<DiscoveredFile>) -> (r: Vec<String>)
    ensures
        string_views(r@) == skipped_paths(old(fs)@),
        final(fs)@.len() == old(fs)@.len(),
        forall|i: int| 0 <= i < old(fs)@.len() ==>
            #[trigger] final(fs)@[i] == (DiscoveredFile { parsing_skipped: false, ..old(fs)@[i] }),
{
    let ghost orig = fs@;
    let mut paths: Vec<String> = Vec::new();
    let mut out: Vec<DiscoveredFile> = Vec::new();
    let mut i: usize = 0;
    while i < fs.len()
        invariant
            i <= fs@.len(),
            fs@ == orig,
            string_views(paths@) == skipped_paths(orig.take(i as int)),
            out@.len() == i,
            forall|k: int| 0 <= k < i ==> #[trigger] out@[k] == (DiscoveredFile { parsing_skipped: false, ..orig[k] }),
        decreases fs@.len() - i,
    {
        let mut f = fs[i].clone();
        assert(orig.take(i + 1).drop_last() =~= orig.take(i as int));
        if f.parsing_skipped {
            let ghost before = string_views(paths@);
            paths.push(f.path.clone());
            assert(string_views(paths@) =~= before.push(orig[i as int].path@));
        }
        f.parsing_skipped = false;
        out.push(f);
        i += 1;
    }
    assert(orig.take(orig.len() as int) =~= orig);
    *fs = out;
    paths
}

impl AppState {
    /// The panel asked for the skipped files to be loaded: the request is
    /// taken, every file is marked loaded (see `unskip_all`), and the paths
    /// of those that were skipped are returned for a scan; when there are
    /// any, a scan is marked running and the status says how many.
    pub fn on_parse_skipped_request(&mut self) -> (r: Vec<String>)
        ensures
            !final(self).pending_parse_skipped,
            string_views(r@) == skipped_paths(old(self).discovered_files@),
            final(self).discovered_files@.len() == old(self).discovered_files@.len(),
            forall|i: int| 0 <= i < old(self).discovered_files@.len() ==> #[trigger] final(self).discovered_files@[i]
                == (DiscoveredFile { parsing_skipped: false, ..old(self).discovered_files@[i] }),
            r@.len() > 0 ==> final(self).scan_in_progress
                && final(self).status_message@ == parse_skipped_message(r@.len()),
            r@.len() == 0 ==> final(self).scan_in_progress == old(self).scan_in_progress
                && final(self).status_message == old(self).status_message,
    {
        self.pending_parse_skipped = false;
        let paths = unskip_all(&mut self.discovered_files);
        if paths.len() > 0 {
            let mut m = String::new();
            push_str(&mut m, "Parsing ");
            push_decimal(&mut m, paths.len() as u64);
            push_str(&mut m, " previously skipped file(s)...");
            proof {
                reveal_strlit("Parsing ");
                reveal_strlit(" previously skipped file(s)...");
            }
            assert(m@ =~= parse_skipped_message(paths@.len()));
            self.status_message = m;
            self.scan_in_progress = true;
        }
        paths
    }
}

} // verus!
