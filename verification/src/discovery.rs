//! Which files a directory scan takes: include and exclude globs, the
//! modification-date filter, the large-file flag and the cap on the number of
//! files (the most recently modified are kept).  Walking the directory tree
//! and reading metadata are the caller's part.
use vstd::prelude::*;
use crate::text::string_views;
use crate::constants::{ABSOLUTE_MAX_DEPTH, ABSOLUTE_MAX_FILES, DEFAULT_LARGE_FILE_THRESHOLD, DEFAULT_MAX_DEPTH, DEFAULT_MAX_FILES, MAX_TOTAL_ENTRIES};
use crate::model::{Confidence, DiscoveredFile, UtcNanos};
use crate::pattern::{Glob, spec_glob_matches, spec_glob_valid};
use crate::text::{chars_of, decimal, push_decimal, push_str, vec_contains_char};

verus! {

/// Settings of a discovery run.
#[derive(Debug)]
pub struct DiscoveryConfig {
    /// Deepest directory level visited.
    pub max_depth: usize,
    /// Most files kept.
    pub max_files: usize,
    /// File-name globs a file must match (empty: every file).
    pub include_patterns: Vec<String>,
    /// Globs matched against file names, and (when free of wildcards) against
    /// directory names, whose subtrees are then skipped.
    pub exclude_patterns: Vec<String>,
    /// Size from which a file counts as large.
    pub large_file_threshold: u64,
    /// Only files modified at or after this instant (files without a known
    /// modification time are kept).
    pub modified_since: Option<UtcNanos>,
    /// Most entries loaded by the scan.
    pub max_total_entries: usize,
}

/// Default include globs.
pub open spec fn default_includes() -> Seq<Seq<char>> {
    seq!["*.log"@, "*.log.*"@, "*.txt"@, "*.evtx"@]
}

/// Default exclude globs.
pub open spec fn default_excludes() -> Seq<Seq<char>> {
    seq!["*.gz"@, "*.zip"@, "*.7z"@, "node_modules"@, ".git"@]
}


impl Default for DiscoveryConfig {
    fn default() -> (r: Self)
        ensures
            r.max_depth == DEFAULT_MAX_DEPTH,
            r.max_files == DEFAULT_MAX_FILES,
            string_views(r.include_patterns@) == default_includes(),
            string_views(r.exclude_patterns@) == default_excludes(),
            r.large_file_threshold == DEFAULT_LARGE_FILE_THRESHOLD,
            r.modified_since is None,
            r.max_total_entries == MAX_TOTAL_ENTRIES,
    {
        let include_patterns = vec!["*.log".to_string(), "*.log.*".to_string(), "*.txt".to_string(), "*.evtx".to_string()];
        let exclude_patterns = vec!["*.gz".to_string(), "*.zip".to_string(), "*.7z".to_string(), "node_modules".to_string(), ".git".to_string()];
        assert(string_views(include_patterns@) =~= default_includes());
        assert(string_views(exclude_patterns@) =~= default_excludes());
        DiscoveryConfig {
            max_depth: DEFAULT_MAX_DEPTH,
            max_files: DEFAULT_MAX_FILES,
            include_patterns,
            exclude_patterns,
            large_file_threshold: DEFAULT_LARGE_FILE_THRESHOLD,
            modified_since: None,
            max_total_entries: MAX_TOTAL_ENTRIES,
        }
    }
}

fn copy_strings(v: &Vec<String>) -> (r: Vec<String>)
    ensures
        string_views(r@) == string_views(v@),
{
    let mut out: Vec<String> = Vec::new();
    let mut i: usize = 0;
    while i < v.len()
        invariant
            i <= v.len(),
            string_views(out@) == string_views(v@).take(i as int),
        decreases v.len() - i,
    {
        let c = v[i].clone();
        let ghost before = string_views(out@);
        out.push(c);
        assert(string_views(out@) =~= before.push(c@));
        assert(string_views(v@).take(i + 1) =~= string_views(v@).take(i as int).push(v@[i as int]@));
        i += 1;
    }
    assert(string_views(v@).take(v@.len() as int) =~= string_views(v@));
    out
}

impl Clone for DiscoveryConfig {
    fn clone(&self) -> (r: Self)
        ensures
            r.max_depth == self.max_depth,
            r.max_files == self.max_files,
            string_views(r.include_patterns@) == string_views(self.include_patterns@),
            string_views(r.exclude_patterns@) == string_views(self.exclude_patterns@),
            r.large_file_threshold == self.large_file_threshold,
            r.modified_since == self.modified_since,
            r.max_total_entries == self.max_total_entries,
    {
        DiscoveryConfig {
            max_depth: self.max_depth,
            max_files: self.max_files,
            include_patterns: copy_strings(&self.include_patterns),
            exclude_patterns: copy_strings(&self.exclude_patterns),
            large_file_threshold: self.large_file_threshold,
            modified_since: self.modified_since,
            max_total_entries: self.max_total_entries,
        }
    }
}

/// The configured limits clamped to the absolute bounds: (files, depth).
pub fn effective_limits(config: &DiscoveryConfig) -> (r: (usize, usize))
    ensures
        r.0 == if config.max_files < ABSOLUTE_MAX_FILES { config.max_files } else { ABSOLUTE_MAX_FILES },
        r.1 == if config.max_depth < ABSOLUTE_MAX_DEPTH { config.max_depth } else { ABSOLUTE_MAX_DEPTH },
{
    let f = if config.max_files < ABSOLUTE_MAX_FILES { config.max_files } else { ABSOLUTE_MAX_FILES };
    let d = if config.max_depth < ABSOLUTE_MAX_DEPTH { config.max_depth } else { ABSOLUTE_MAX_DEPTH };
    (f, d)
}

/// Why a discovery run could not start.
#[derive(Debug)]
pub enum DiscoveryError {
    /// The root does not exist (or could not be examined).
    RootNotFound { path: String },
    /// The root is not a directory.
    NotADirectory { path: String },
    /// Access to the root was denied.
    PermissionDenied { path: String, message: String },
    /// Examining the root took too long.
    Timeout { path: String, timeout_secs: u64 },
}

/// What examining the root found.
#[derive(Debug, Clone, Copy, PartialEq, Eq, Structural)]
pub enum RootKind {
    Directory,
    File,
    NotFound,
    AccessDenied,
    OtherError,
    TimedOut,
}

/// Seconds allowed for examining the root.
pub const PREFLIGHT_TIMEOUT_SECS: u64 = 10;

/// The start-up check on the root: the only fatal errors are a root that
/// does not exist (another failure to examine it counts as that) and a root
/// that is not a directory.  A root that could be listed as a directory, or
/// whose examination was denied or took too long, is walked, the walk
/// reporting what it cannot read.
pub fn check_root(kind: RootKind, root: &str) -> (r: Result<(), DiscoveryError>)
    ensures
        (kind == RootKind::Directory || kind == RootKind::AccessDenied || kind == RootKind::TimedOut) <==> r is Ok,
        kind == RootKind::File ==> (r matches Err(DiscoveryError::NotADirectory { path }) && path@ == root@),
        (kind == RootKind::NotFound || kind == RootKind::OtherError) ==>
            (r matches Err(DiscoveryError::RootNotFound { path }) && path@ == root@),
{
    match kind {
        RootKind::Directory | RootKind::AccessDenied | RootKind::TimedOut => Ok(()),
        RootKind::File => Err(DiscoveryError::NotADirectory { path: root.to_string() }),
        RootKind::NotFound | RootKind::OtherError => Err(DiscoveryError::RootNotFound { path: root.to_string() }),
    }
}

/// The sources of the globs that compile, in order.
pub open spec fn valid_globs(ps: Seq<Seq<char>>) -> Seq<Seq<char>>
    decreases ps.len(),
{
    if ps.len() == 0 {
        Seq::empty()
    } else if spec_glob_valid(ps.last()) {
        valid_globs(ps.drop_last()).push(ps.last())
    } else {
        valid_globs(ps.drop_last())
    }
}

pub open spec fn glob_sources(v: Seq<Glob>) -> Seq<Seq<char>> {
    v.map_values(|g: Glob| g.source_spec())
}

/// Compile the globs, skipping those that do not compile.
pub fn compile_patterns(patterns: &Vec<String>) -> (r: Vec<Glob>)
    ensures
        glob_sources(r@) == valid_globs(string_views(patterns@)),
{
    let mut out: Vec<Glob> = Vec::new();
    let mut i: usize = 0;
    while i < patterns.len()
        invariant
            i <= patterns.len(),
            glob_sources(out@) == valid_globs(string_views(patterns@).take(i as int)),
        decreases patterns.len() - i,
    {
        let ghost t = string_views(patterns@).take(i + 1);
        assert(t.drop_last() =~= string_views(patterns@).take(i as int));
        assert(t.last() == patterns@[i as int]@);
        if let Some(g) = Glob::new(patterns[i].as_str()) {
            let ghost before = glob_sources(out@);
            out.push(g);
            assert(glob_sources(out@) =~= before.push(g.source_spec()));
        }
        i += 1;
    }
    assert(string_views(patterns@).take(patterns@.len() as int) =~= string_views(patterns@));
    out
}

/// The glob text has no wildcard (`*`, `?` or `[`).
pub open spec fn is_literal(s: Seq<char>) -> bool {
    !s.contains('*') && !s.contains('?') && !s.contains('[')
}

/// Some literal exclude glob matches the directory name.
pub open spec fn excluded_component(name: Seq<char>, pats: Seq<Seq<char>>) -> bool {
    exists|i: int| 0 <= i < pats.len() && is_literal(#[trigger] pats[i]) && spec_glob_matches(pats[i], name)
}

/// Some exclude glob matches the file name.
pub open spec fn excluded_filename(name: Seq<char>, pats: Seq<Seq<char>>) -> bool {
    exists|i: int| 0 <= i < pats.len() && spec_glob_matches(#[trigger] pats[i], name)
}

/// No include globs, or some include glob matches the file name.
pub open spec fn included(name: Seq<char>, pats: Seq<Seq<char>>) -> bool {
    pats.len() == 0 || excluded_filename(name, pats)
}

fn literal_exec(s: &str) -> (r: bool)
    ensures
        r == is_literal(s@),
{
    let v = chars_of(s);
    !vec_contains_char(&v, '*') && !vec_contains_char(&v, '?') && !vec_contains_char(&v, '[')
}

/// Whether a directory name matches an exclude glob without wildcards, so its
/// subtree is skipped.
pub fn is_excluded_component(dir_name: &str, exclude_pats: &Vec<Glob>) -> (r: bool)
    ensures
        r == excluded_component(dir_name@, glob_sources(exclude_pats@)),
{
    let ghost srcs = glob_sources(exclude_pats@);
    let mut i: usize = 0;
    while i < exclude_pats.len()
        invariant
            i <= exclude_pats.len(),
            srcs == glob_sources(exclude_pats@),
            forall|k: int| 0 <= k < i ==> !(is_literal(#[trigger] srcs[k]) && spec_glob_matches(srcs[k], dir_name@)),
        decreases exclude_pats.len() - i,
    {
        let p = &exclude_pats[i];
        assert(srcs[i as int] == p.source_spec());
        if literal_exec(p.source()) && p.matches(dir_name) {
            return true;
        }
        i += 1;
    }
    false
}

/// Whether some exclude glob matches the file name.
pub fn is_excluded_filename(file_name: &str, exclude_pats: &Vec<Glob>) -> (r: bool)
    ensures
        r == excluded_filename(file_name@, glob_sources(exclude_pats@)),
{
    let ghost srcs = glob_sources(exclude_pats@);
    let mut i: usize = 0;
    while i < exclude_pats.len()
        invariant
            i <= exclude_pats.len(),
            srcs == glob_sources(exclude_pats@),
            forall|k: int| 0 <= k < i ==> !spec_glob_matches(#[trigger] srcs[k], file_name@),
        decreases exclude_pats.len() - i,
    {
        assert(srcs[i as int] == exclude_pats@[i as int].source_spec());
        if exclude_pats[i].matches(file_name) {
            return true;
        }
        i += 1;
    }
    false
}

/// Whether the file name is taken: no include globs, or one matches.
pub fn is_included(file_name: &str, include_pats: &Vec<Glob>) -> (r: bool)
    ensures
        r == included(file_name@, glob_sources(include_pats@)),
{
    if include_pats.len() == 0 {
        return true;
    }
    is_excluded_filename(file_name, include_pats)
}

/// What happens to one file met by the walk.
#[derive(Debug)]
pub enum FileDecision {
    /// The file is taken.
    Take(DiscoveredFile),
    /// The file is left out silently.
    Skip,
    /// The file is left out with a warning.
    Warn(String),
}

/// Warning for a file whose name is not valid UTF-8.
pub open spec fn non_utf8_warning(path: Seq<char>) -> Seq<char> {
    "Skipping '"@ + path + "': non-UTF-8 filename"@
}

/// Warning for a file whose metadata could not be read.
pub open spec fn metadata_warning(path: Seq<char>, err: Seq<char>) -> Seq<char> {
    "Cannot read metadata for '"@ + path + "': "@ + err
}

/// Zero confidence (no profile detected yet).
pub open spec fn zero_confidence() -> Confidence {
    Confidence { numerator: 0, denominator: 1 }
}

/// The decision for one file: a name that is not UTF-8 is warned about;
/// excluded or not included names are skipped; unreadable metadata is warned
/// about; a file modified before `modified_since` is skipped; any other file
/// is taken, flagged large from the threshold on.
pub open spec fn decision_ok(d: FileDecision, path: Seq<char>, name: Option<Seq<char>>, meta: Result<(u64, Option<UtcNanos>), Seq<char>>,
    config: DiscoveryConfig, inc: Seq<Seq<char>>, exc: Seq<Seq<char>>) -> bool
{
    match name {
        None => d matches FileDecision::Warn(w) && w@ == non_utf8_warning(path),
        Some(n) => if excluded_filename(n, exc) || !included(n, inc) {
            d is Skip
        } else {
            match meta {
                Err(e) => d matches FileDecision::Warn(w) && w@ == metadata_warning(path, e),
                Ok((size, modified)) => if (config.modified_since matches Some(since) && modified matches Some(m) && m < since) {
                    d is Skip
                } else {
                    d matches FileDecision::Take(f) && f.path@ == path && f.size == size && f.modified == modified
                        && f.profile_id is None && f.detection_confidence == zero_confidence()
                        && f.is_large == (size >= config.large_file_threshold) && !f.parsing_skipped
                },
            }
        },
    }
}

/// Decide about one file met by the walk, given its path, its UTF-8 name
/// (if it has one) and its metadata (size and modification time) or the
/// error reading it.
pub fn decide_file(path: &str, name: Option<&str>, meta: Result<(u64, Option<UtcNanos>), String>, config: &DiscoveryConfig,
    include_pats: &Vec<Glob>, exclude_pats: &Vec<Glob>) -> (r: FileDecision)
    ensures
        decision_ok(r, path@, match name { Some(n) => Some(n@), None => None },
            match meta { Ok(m) => Ok(m), Err(e) => Err(e@) }, *config, glob_sources(include_pats@), glob_sources(exclude_pats@)),
{
    let n = match name {
        None => {
            let mut w = String::new();
            push_str(&mut w, "Skipping '");
            push_str(&mut w, path);
            push_str(&mut w, "': non-UTF-8 filename");
            proof {
                reveal_strlit("Skipping '");
                reveal_strlit("': non-UTF-8 filename");
            }
            return FileDecision::Warn(w);
        },
        Some(n) => n,
    };
    if is_excluded_filename(n, exclude_pats) || !is_included(n, include_pats) {
        return FileDecision::Skip;
    }
    match meta {
        Err(e) => {
            let mut w = String::new();
            push_str(&mut w, "Cannot read metadata for '");
            push_str(&mut w, path);
            push_str(&mut w, "': ");
            push_str(&mut w, e.as_str());
            proof {
                reveal_strlit("Cannot read metadata for '");
                reveal_strlit("': ");
            }
            FileDecision::Warn(w)
        },
        Ok((size, modified)) => {
            if let Some(since) = config.modified_since {
                if let Some(m) = modified {
                    if m < since {
                        return FileDecision::Skip;
                    }
                }
            }
            FileDecision::Take(DiscoveredFile {
                path: path.to_string(),
                size,
                modified,
                profile_id: None,
                detection_confidence: Confidence { numerator: 0, denominator: 1 },
                is_large: size >= config.large_file_threshold,
                parsing_skipped: false,
            })
        },
    }
}

/// File `a` comes before file `b` when ordered by recency: newer
/// modification times first, files without one last, and by position among
/// equals (a stable order).
pub open spec fn recent_before(fs: Seq<DiscoveredFile>, a: usize, b: usize) -> bool {
    match (fs[a as int].modified, fs[b as int].modified) {
        (Some(x), Some(y)) => x > y || (x == y && a < b),
        (Some(_), None) => true,
        (None, Some(_)) => false,
        (None, None) => a < b,
    }
}

/// `v` is strictly increasing in recency order.
pub open spec fn in_recency_order(fs: Seq<DiscoveredFile>, v: Seq<usize>) -> bool {
    forall|i: int, j: int| 0 <= i < j < v.len() ==> recent_before(fs, #[trigger] v[i], #[trigger] v[j])
}

/// Every index of `v` points into a list of `n` files.
pub open spec fn indices_below(v: Seq<usize>, n: nat) -> bool {
    forall|i: int| 0 <= i < v.len() ==> (#[trigger] v[i] as int) < n
}

/// The recency order of `fs`: its positions, each once, newest file first,
/// discovery order kept among equal times (there is exactly one).
pub open spec fn is_recency_order(fs: Seq<DiscoveredFile>, p: Seq<usize>) -> bool {
    &&& p.len() == fs.len()
    &&& indices_below(p, fs.len())
    &&& in_recency_order(fs, p)
}

/// The files of `fs` at the positions `p`, in that order.
pub open spec fn files_at(fs: Seq<DiscoveredFile>, p: Seq<usize>) -> Seq<DiscoveredFile> {
    p.map_values(|k: usize| fs[k as int])
}

/// Warning when more files were found than may be loaded.
pub open spec fn limit_warning(found: nat, max: nat) -> Seq<char> {
    decimal(found) + " log files were found but the ingest limit is "@ + decimal(max)
        + ". Only the "@ + decimal(max) + " most recently modified files have been loaded. Raise the limit in Options if you need more."@
}

/// Keep at most `max_files` files: when there are more, the most recently
/// modified ones (files without a time count as oldest, discovery order
/// kept among equal times), with a warning.  Returns the files kept and the
/// warning, if any.
pub fn limit_files(files: Vec<DiscoveredFile>, max_files: usize) -> (r: (Vec<DiscoveredFile>, Option<String>))
    ensures
        files@.len() <= max_files ==> r.0@ == files@ && r.1 is None,
        files@.len() > max_files ==> {
            &&& exists|p: Seq<usize>| is_recency_order(files@, p) && r.0@ == files_at(files@, p).take(max_files as int)
            &&& r.1 matches Some(w) && w@ == limit_warning(files@.len(), max_files as nat)
        },
{
    let total = files.len();
    if total <= max_files {
        return (files, None);
    }
    let mut idx: Vec<usize> = Vec::new();
    let mut i: usize = 0;
    while i < total
        invariant
            i <= total == files@.len(),
            idx@.len() == i,
            forall|k: int| 0 <= k < i ==> idx@[k] == k,
        decreases total - i,
    {
        idx.push(i);
        i += 1;
    }
    let order = recency_order(&files, &idx);
    let ghost p = order@;
    assert(indices_below(p, files@.len())) by {
        assert forall|k: int| 0 <= k < p.len() implies (#[trigger] p[k] as int) < files@.len() by {
            assert(order@.contains(p[k]));
            let q = choose|q: int| 0 <= q < idx@.len() && idx@[q] == p[k];
        }
    }
    let mut kept: Vec<DiscoveredFile> = Vec::new();
    let mut i: usize = 0;
    while i < max_files
        invariant
            i <= max_files < order@.len(),
            order@ == p,
            indices_below(p, files@.len()),
            kept@ == files_at(files@, p).take(i as int),
        decreases max_files - i,
    {
        let f = files[order[i]].clone();
        kept.push(f);
        assert(kept@ =~= files_at(files@, p).take(i + 1));
        i += 1;
    }
    let mut w = String::new();
    push_decimal(&mut w, total as u64);
    push_str(&mut w, " log files were found but the ingest limit is ");
    push_decimal(&mut w, max_files as u64);
    push_str(&mut w, ". Only the ");
    push_decimal(&mut w, max_files as u64);
    push_str(&mut w, " most recently modified files have been loaded. Raise the limit in Options if you need more.");
    proof {
        reveal_strlit(" log files were found but the ingest limit is ");
        reveal_strlit(". Only the ");
        reveal_strlit(" most recently modified files have been loaded. Raise the limit in Options if you need more.");
        assert(is_recency_order(files@, p));
    }
    (kept, Some(w))
}

proof fn lemma_recent_total(fs: Seq<DiscoveredFile>, a: usize, b: usize)
    requires
        a != b,
    ensures
        recent_before(fs, a, b) || recent_before(fs, b, a),
{
}

proof fn lemma_recent_trans(fs: Seq<DiscoveredFile>, a: usize, b: usize, c: usize)
    requires
        recent_before(fs, a, b),
        recent_before(fs, b, c),
    ensures
        recent_before(fs, a, c),
{
}

fn recent_before_exec(fs: &Vec<DiscoveredFile>, a: usize, b: usize) -> (r: bool)
    requires
        a < fs@.len(),
        b < fs@.len(),
    ensures
        r == recent_before(fs@, a, b),
{
    match (fs[a].modified, fs[b].modified) {
        (Some(x), Some(y)) => x > y || (x == y && a < b),
        (Some(_), None) => true,
        (None, Some(_)) => false,
        (None, None) => a < b,
    }
}

/// The positions `v` (strictly increasing, within `fs`) in recency order
/// (stable insertion sort).
pub fn recency_order(fs: &Vec<DiscoveredFile>, v: &Vec<usize>) -> (r: Vec<usize>)
    requires
        indices_below(v@, fs@.len()),
        forall|i: int, j: int| 0 <= i < j < v@.len() ==> v@[i] < v@[j],
    ensures
        r@.len() == v@.len(),
        in_recency_order(fs@, r@),
        forall|x: usize| r@.contains(x) <==> v@.contains(x),
{
    let mut out: Vec<usize> = Vec::new();
    let mut i: usize = 0;
    while i < v.len()
        invariant
            i <= v@.len(),
            indices_below(v@, fs@.len()),
            forall|a: int, b: int| 0 <= a < b < v@.len() ==> v@[a] < v@[b],
            out@.len() == i,
            in_recency_order(fs@, out@),
            forall|x: usize| out@.contains(x) <==> v@.take(i as int).contains(x),
        decreases v@.len() - i,
    {
        let x = v[i];
        assert forall|k: int| 0 <= k < out@.len() implies (#[trigger] out@[k]) < x by {
            assert(out@.contains(out@[k]));
            let q = choose|q: int| 0 <= q < i && v@.take(i as int)[q] == out@[k];
            assert(v@[q] < v@[i as int]);
        }
        assert forall|k: int| 0 <= k < out@.len() implies (#[trigger] out@[k] as int) < fs@.len() by {
            assert(out@.contains(out@[k]));
            let q = choose|q: int| 0 <= q < i && v@.take(i as int)[q] == out@[k];
            assert(v@[q] == out@[k]);
        }
        let mut j: usize = 0;
        while j < out.len() && recent_before_exec(fs, out[j], x)
            invariant
                j <= out@.len(),
                (x as int) < fs@.len(),
                forall|k: int| 0 <= k < out@.len() ==> (#[trigger] out@[k] as int) < fs@.len(),
                forall|k: int| 0 <= k < j ==> recent_before(fs@, #[trigger] out@[k], x),
            decreases out@.len() - j,
        {
            j += 1;
        }
        let ghost before = out@;
        proof {
            if j < before.len() {
                assert(before[j as int] < x);
                lemma_recent_total(fs@, before[j as int], x);
            }
        }
        out.insert(j, x);
        proof {
            assert(out@ =~= before.insert(j as int, x));
            assert forall|a: int, b: int| 0 <= a < b < out@.len() implies
                recent_before(fs@, #[trigger] out@[a], #[trigger] out@[b]) by {
                if b < j {
                    assert(out@[a] == before[a] && out@[b] == before[b]);
                } else if b == j {
                    assert(out@[a] == before[a]);
                } else if a < j {
                    assert(out@[a] == before[a] && out@[b] == before[b - 1]);
                } else if a == j {
                    assert(out@[b] == before[b - 1]);
                    if j < b - 1 {
                        lemma_recent_trans(fs@, x, before[j as int], before[b - 1]);
                    }
                } else {
                    assert(out@[a] == before[a - 1] && out@[b] == before[b - 1]);
                }
            }
            let ti = v@.take(i + 1);
            let t0 = v@.take(i as int);
            assert(ti =~= t0.push(x));
            assert forall|y: usize| out@.contains(y) <==> ti.contains(y) by {
                if out@.contains(y) {
                    let k = choose|k: int| 0 <= k < out@.len() && out@[k] == y;
                    if k != j {
                        let kk = if k < j { k } else { k - 1 };
                        assert(before[kk] == y);
                        assert(before.contains(y));
                        let q = choose|q: int| 0 <= q < i && t0[q] == y;
                        assert(ti[q] == y);
                    } else {
                        assert(ti[i as int] == y);
                    }
                }
                if ti.contains(y) {
                    let q = choose|q: int| 0 <= q < i + 1 && ti[q] == y;
                    if q < i {
                        assert(t0[q] == y);
                        assert(t0.contains(y));
                        assert(before.contains(y));
                        let k = choose|k: int| 0 <= k < before.len() && before[k] == y;
                        if k < j { assert(out@[k] == y); } else { assert(out@[k + 1] == y); }
                    } else {
                        assert(out@[j as int] == y);
                    }
                }
            }
        }
        i += 1;
    }
    assert(v@.take(v@.len() as int) =~= v@);
    out
}

// ---------------------------------------------------------------------------
// Waiting for a discovery run
// ---------------------------------------------------------------------------

/// Milliseconds without discovery progress after which the scan goes on
/// with the files found so far (a stalled network share).
pub const DISCOVERY_STALL_MS: u64 = 30_000;

/// What the scan knows while it waits for a discovery run: the files
/// reported so far and when the last one came (milliseconds on the
/// caller's monotonic clock).
pub struct DiscoveryWait {
    pub found: Vec<DiscoveredFile>,
    pub last_activity_ms: u64,
}

/// What came from the discovery run during one wait.
pub enum DiscoveryEvent {
    /// Nothing within the wait.
    Idle,
    /// A file was accepted.
    Found(DiscoveredFile),
    /// The run finished: the files kept, its warnings and how many it found.
    Done { files: Vec<DiscoveredFile>, warnings: Vec<String>, total_found: usize },
    /// The run failed, with the error's text.
    Failed(String),
    /// The run ended without an answer.
    Disconnected,
}

/// What the scan does next.
pub enum DiscoveryAction {
    /// Keep waiting.
    Wait,
    /// Report the file found, with how many have been found.
    Report { path: String, files_found: usize },
    /// Stop: the scan was cancelled.
    Cancel,
    /// Stop with this error.
    Fail(String),
    /// Go on to parse these files, after reporting these warnings.
    Proceed { files: Vec<DiscoveredFile>, warnings: Vec<String>, total_found: usize },
}

/// The warning when discovery stalled with `n` files found.
pub open spec fn stall_warning(n: nat) -> Seq<char> {
    "Directory listing stalled for 30s (UNC/network path not responding). Proceeding with "@ + decimal(n)
        + " file(s) discovered so far. Results may be incomplete."@
}

/// The warning when discovery ended early with `n` files found.
pub open spec fn early_end_warning(n: nat) -> Seq<char> {
    "Discovery thread exited early; proceeding with "@ + decimal(n) + " file(s) found."@
}

/// The run has made no progress for `DISCOVERY_STALL_MS` at `now`.
pub open spec fn stalled(last: u64, now: u64) -> bool {
    now >= last && now - last >= DISCOVERY_STALL_MS
}

/// One step of waiting for a discovery run: a cancelled scan stops; a run
/// without progress for `DISCOVERY_STALL_MS` is given up and the files
/// found so far are parsed, with a warning; otherwise the event decides: a
/// found file is recorded (its time as the last activity) and reported, a
/// finished run hands on its own lists, a failure stops the scan, and a run
/// that ended without an answer is given up like a stalled one (or fails
/// when nothing was found).
pub fn discovery_step(w: DiscoveryWait, ev: DiscoveryEvent, cancelled: bool, now_ms: u64) -> (r: (DiscoveryWait, DiscoveryAction))
    ensures
        cancelled ==> r.1 is Cancel && r.0.found@ == w.found@,
        !cancelled && stalled(w.last_activity_ms, now_ms) ==> (r.1 matches DiscoveryAction::Proceed { files, warnings, total_found }
            && files@ == w.found@ && total_found == w.found@.len()
            && warnings@.len() == 1 && warnings@[0]@ == stall_warning(w.found@.len())),
        !cancelled && !stalled(w.last_activity_ms, now_ms) ==> match ev {
            DiscoveryEvent::Idle => r.1 is Wait && r.0.found@ == w.found@ && r.0.last_activity_ms == w.last_activity_ms,
            DiscoveryEvent::Found(f) => r.0.found@ == w.found@.push(f) && r.0.last_activity_ms == now_ms
                && (r.1 matches DiscoveryAction::Report { path, files_found } && path@ == f.path@
                    && files_found == w.found@.len() + 1),
            DiscoveryEvent::Done { files, warnings, total_found } => (r.1 matches DiscoveryAction::Proceed {
                files: f2, warnings: w2, total_found: t2 } && f2 == files && w2 == warnings && t2 == total_found),
            DiscoveryEvent::Failed(m) => r.1 matches DiscoveryAction::Fail(m2) && m2 == m,
            DiscoveryEvent::Disconnected => if w.found@.len() == 0 {
                r.1 matches DiscoveryAction::Fail(m2) && m2@ == "Discovery thread exited unexpectedly"@
            } else {
                r.1 matches DiscoveryAction::Proceed { files, warnings, total_found }
                    && files@ == w.found@ && total_found == w.found@.len()
                    && warnings@.len() == 1 && warnings@[0]@ == early_end_warning(w.found@.len())
            },
        },
{
    if cancelled {
        return (w, DiscoveryAction::Cancel);
    }
    let n = w.found.len();
    if now_ms >= w.last_activity_ms && now_ms - w.last_activity_ms >= DISCOVERY_STALL_MS {
        let mut m = String::new();
        push_str(&mut m, "Directory listing stalled for 30s (UNC/network path not responding). Proceeding with ");
        push_decimal(&mut m, n as u64);
        push_str(&mut m, " file(s) discovered so far. Results may be incomplete.");
        proof {
            reveal_strlit("Directory listing stalled for 30s (UNC/network path not responding). Proceeding with ");
            reveal_strlit(" file(s) discovered so far. Results may be incomplete.");
        }
        let warnings = vec![m];
        let empty = DiscoveryWait { found: Vec::new(), last_activity_ms: w.last_activity_ms };
        return (empty, DiscoveryAction::Proceed { files: w.found, warnings, total_found: n });
    }
    match ev {
        DiscoveryEvent::Idle => (w, DiscoveryAction::Wait),
        DiscoveryEvent::Found(f) => {
            let path = f.path.clone();
            let mut found = w.found;
            found.push(f);
            let count = found.len();
            (DiscoveryWait { found, last_activity_ms: now_ms }, DiscoveryAction::Report { path, files_found: count })
        },
        DiscoveryEvent::Done { files, warnings, total_found } => (w, DiscoveryAction::Proceed { files, warnings, total_found }),
        DiscoveryEvent::Failed(m) => (w, DiscoveryAction::Fail(m)),
        DiscoveryEvent::Disconnected => {
            if n == 0 {
                proof {
                    reveal_strlit("Discovery thread exited unexpectedly");
                }
                (w, DiscoveryAction::Fail("Discovery thread exited unexpectedly".to_owned()))
            } else {
                let mut m = String::new();
                push_str(&mut m, "Discovery thread exited early; proceeding with ");
                push_decimal(&mut m, n as u64);
                push_str(&mut m, " file(s) found.");
                proof {
                    reveal_strlit("Discovery thread exited early; proceeding with ");
                    reveal_strlit(" file(s) found.");
                }
                let warnings = vec![m];
                let empty = DiscoveryWait { found: Vec::new(), last_activity_ms: w.last_activity_ms };
                (empty, DiscoveryAction::Proceed { files: w.found, warnings, total_found: n })
            }
        },
    }
}

} // verus!
