//! Directory watching: which files met by a periodic walk are new, and
//! which known files changed their modification time.  The walks, the
//! metadata reads and the timing are the caller's part.
use vstd::prelude::*;
use crate::text::string_views;
use crate::constants::DEFAULT_MAX_DEPTH;
use crate::discovery::{default_excludes, default_includes, excluded_component, excluded_filename, glob_sources, included};
use crate::model::UtcNanos;
use crate::pattern::Glob;
use crate::state::DIR_WATCH_POLL_INTERVAL_MS;

verus! {

/// Milliseconds between cancellation checks while waiting.
pub const DIR_WATCH_CANCEL_CHECK_INTERVAL_MS: u64 = 100;

/// Settings of a directory watch (those of the initial scan).
#[derive(Debug)]
pub struct DirWatchConfig {
    pub include_patterns: Vec<String>,
    pub exclude_patterns: Vec<String>,
    pub max_depth: usize,
    pub poll_interval_ms: u64,
    /// Only files modified at or after this instant are reported (files
    /// without a known time always are).
    pub modified_since: Option<UtcNanos>,
}

impl Default for DirWatchConfig {
    fn default() -> (r: Self)
        ensures
            string_views(r.include_patterns@) == default_includes(),
            string_views(r.exclude_patterns@) == default_excludes(),
            r.max_depth == DEFAULT_MAX_DEPTH,
            r.poll_interval_ms == DIR_WATCH_POLL_INTERVAL_MS,
            r.modified_since is None,
    {
        let d = crate::discovery::DiscoveryConfig::default();
        DirWatchConfig {
            include_patterns: d.include_patterns,
            exclude_patterns: d.exclude_patterns,
            max_depth: DEFAULT_MAX_DEPTH,
            poll_interval_ms: DIR_WATCH_POLL_INTERVAL_MS,
            modified_since: None,
        }
    }
}

/// Cancellation checks per poll interval: the interval divided by the check
/// interval, at least one, at most `u32::MAX`.
pub fn sub_iters(poll_interval_ms: u64, check_interval_ms: u64) -> (r: u32)
    requires
        check_interval_ms > 0,
    ensures
        r as int == if poll_interval_ms / check_interval_ms < 1 {
            1
        } else if poll_interval_ms / check_interval_ms > u32::MAX {
            u32::MAX as int
        } else {
            (poll_interval_ms / check_interval_ms) as int
        },
{
    let q = poll_interval_ms / check_interval_ms;
    if q < 1 {
        1
    } else if q > u32::MAX as u64 {
        u32::MAX
    } else {
        q as u32
    }
}

/// Whether the walk skips a directory, by the scan's rule: some exclude
/// glob without wildcards matches its name.
pub fn walk_skips_dir(name: &str, exclude_pats: &Vec<Glob>) -> (r: bool)
    ensures
        r == excluded_component(name@, glob_sources(exclude_pats@)),
{
    crate::discovery::is_excluded_component(name, exclude_pats)
}

/// `path` is one of the known paths.
pub open spec fn known(ps: Seq<String>, path: Seq<char>) -> bool {
    string_views(ps).contains(path)
}

/// A file met by the walk is reported when it is not known yet, its name
/// passes the include globs and no exclude glob matches it (the scan's
/// rules), and it was not modified before `since`.
pub open spec fn reports_file(path: Seq<char>, name: Seq<char>, known_paths: Seq<String>, inc: Seq<Seq<char>>,
    exc: Seq<Seq<char>>, modified: Option<UtcNanos>, since: Option<UtcNanos>) -> bool
{
    &&& !known(known_paths, path)
    &&& included(name, inc)
    &&& !excluded_filename(name, exc)
    &&& !(since matches Some(s) && modified matches Some(m) && m < s)
}

/// Whether a regular file met by the walk is new and reported.
pub fn is_new_file(path: &str, name: &str, known_paths: &Vec<String>, include_pats: &Vec<Glob>,
    exclude_pats: &Vec<Glob>, modified: Option<UtcNanos>, modified_since: Option<UtcNanos>) -> (r: bool)
    ensures
        r == reports_file(path@, name@, known_paths@, glob_sources(include_pats@), glob_sources(exclude_pats@),
            modified, modified_since),
{
    if crate::filter::string_in(known_paths, path) {
        assert(crate::text::string_views(known_paths@) =~= string_views(known_paths@));
        return false;
    }
    assert(crate::text::string_views(known_paths@) =~= string_views(known_paths@));
    if !crate::discovery::is_included(name, include_pats) {
        return false;
    }
    if crate::discovery::is_excluded_filename(name, exclude_pats) {
        return false;
    }
    if let Some(s) = modified_since {
        if let Some(m) = modified {
            if m < s {
                return false;
            }
        }
    }
    true
}

/// The recorded time of `path`, if any (the first record).
pub open spec fn lookup(t: Seq<(Seq<char>, UtcNanos)>, path: Seq<char>) -> Option<UtcNanos>
    decreases t.len(),
{
    if t.len() == 0 {
        None
    } else if t[0].0 == path {
        Some(t[0].1)
    } else {
        lookup(t.drop_first(), path)
    }
}

/// `t` with the time of `path` set to `m` (in place when recorded, else
/// added at the end).
pub open spec fn record(t: Seq<(Seq<char>, UtcNanos)>, path: Seq<char>, m: UtcNanos) -> Seq<(Seq<char>, UtcNanos)>
    decreases t.len(),
{
    if t.len() == 0 {
        seq![(path, m)]
    } else if t[0].0 == path {
        seq![(path, m)] + t.drop_first()
    } else {
        seq![t[0]] + record(t.drop_first(), path, m)
    }
}

/// Going through the known files' current times in order: a file seen for
/// the first time gets its time recorded silently; a recorded file whose
/// time differs gets the new time recorded and reported; files whose time
/// could not be read are passed over.  Gives the new records and the
/// reports.
pub open spec fn track(t: Seq<(Seq<char>, UtcNanos)>, stats: Seq<(Seq<char>, Option<UtcNanos>)>)
    -> (Seq<(Seq<char>, UtcNanos)>, Seq<(Seq<char>, UtcNanos)>)
    decreases stats.len(),
{
    if stats.len() == 0 {
        (t, Seq::empty())
    } else {
        let (p, o) = stats[0];
        match o {
            None => track(t, stats.drop_first()),
            Some(m) => match lookup(t, p) {
                None => track(record(t, p, m), stats.drop_first()),
                Some(old) => if old != m {
                    let (t2, rep) = track(record(t, p, m), stats.drop_first());
                    (t2, seq![(p, m)] + rep)
                } else {
                    track(t, stats.drop_first())
                },
            },
        }
    }
}

pub open spec fn pair_views(v: Seq<(String, UtcNanos)>) -> Seq<(Seq<char>, UtcNanos)> {
    v.map_values(|x: (String, UtcNanos)| (x.0@, x.1))
}

pub open spec fn stat_views(v: Seq<(String, Option<UtcNanos>)>) -> Seq<(Seq<char>, Option<UtcNanos>)> {
    v.map_values(|x: (String, Option<UtcNanos>)| (x.0@, x.1))
}

/// What a directory watch remembers between polls.
pub struct WatchState {
    /// Paths already loaded or reported.
    pub known_paths: Vec<String>,
    /// Last modification time seen per known path.
    pub mtimes: Vec<(String, UtcNanos)>,
}

fn lookup_exec(t: &Vec<(String, UtcNanos)>, path: &str) -> (r: Option<usize>)
    ensures
        match r {
            Some(i) => i < t.len() && lookup(pair_views(t@), path@) == Some(t@[i as int].1) && t@[i as int].0@ == path@
                && forall|k: int| 0 <= k < i ==> (#[trigger] t@[k]).0@ != path@,
            None => lookup(pair_views(t@), path@) is None,
        },
{
    let ghost tv = pair_views(t@);
    let mut i: usize = 0;
    assert(tv.skip(0) =~= tv);
    while i < t.len()
        invariant
            i <= t.len(),
            tv == pair_views(t@),
            lookup(tv.skip(i as int), path@) == lookup(tv, path@),
            forall|k: int| 0 <= k < i ==> (#[trigger] t@[k]).0@ != path@,
        decreases t.len() - i,
    {
        assert(tv.skip(i as int)[0] == (t@[i as int].0@, t@[i as int].1));
        assert(tv.skip(i as int).drop_first() =~= tv.skip(i + 1));
        if crate::text::str_eq(t[i].0.as_str(), path) {
            return Some(i);
        }
        i += 1;
    }
    None
}

proof fn lemma_record_at(t: Seq<(Seq<char>, UtcNanos)>, path: Seq<char>, m: UtcNanos, i: int)
    requires
        0 <= i < t.len(),
        t[i].0 == path,
        forall|k: int| 0 <= k < i ==> (#[trigger] t[k]).0 != path,
    ensures
        record(t, path, m) == t.update(i, (path, m)),
    decreases t.len(),
{
    if i == 0 {
        assert(record(t, path, m) =~= t.update(0, (path, m)));
    } else {
        assert forall|k: int| 0 <= k < i - 1 implies (#[trigger] t.drop_first()[k]).0 != path by {
            assert(t.drop_first()[k] == t[k + 1]);
        }
        lemma_record_at(t.drop_first(), path, m, i - 1);
        assert(record(t, path, m) =~= t.update(i, (path, m)));
    }
}

proof fn lemma_record_absent(t: Seq<(Seq<char>, UtcNanos)>, path: Seq<char>, m: UtcNanos)
    requires
        lookup(t, path) is None,
    ensures
        record(t, path, m) == t.push((path, m)),
    decreases t.len(),
{
    if t.len() > 0 {
        lemma_record_absent(t.drop_first(), path, m);
        assert(record(t, path, m) =~= t.push((path, m)));
    }
}

impl WatchState {
    /// Start from the known paths and the times that could be read for them.
    pub fn new(known_paths: Vec<String>, seeds: &Vec<(String, Option<UtcNanos>)>) -> (r: WatchState)
        ensures
            string_views(r.known_paths@) == string_views(known_paths@),
            pair_views(r.mtimes@) == track(Seq::empty(), stat_views(seeds@)).0,
    {
        let mut s = WatchState { known_paths, mtimes: Vec::new() };
        assert(pair_views(s.mtimes@) =~= Seq::<(Seq<char>, UtcNanos)>::empty());
        let _ = s.mtime_updates(seeds);
        s
    }

    /// Remember newly reported paths.
    pub fn add_known(&mut self, new_files: &Vec<String>)
        ensures
            string_views(final(self).known_paths@) == string_views(old(self).known_paths@) + string_views(new_files@),
            final(self).mtimes@ == old(self).mtimes@,
    {
        let mut i: usize = 0;
        let ghost k0 = string_views(self.known_paths@);
        while i < new_files.len()
            invariant
                i <= new_files.len(),
                string_views(self.known_paths@) == k0 + string_views(new_files@).take(i as int),
                self.mtimes@ == old(self).mtimes@,
            decreases new_files.len() - i,
        {
            let ghost before = string_views(self.known_paths@);
            let c = new_files[i].clone();
            self.known_paths.push(c);
            assert(string_views(self.known_paths@) =~= before.push(c@));
            assert(string_views(new_files@).take(i + 1) =~= string_views(new_files@).take(i as int).push(new_files@[i as int]@));
            i += 1;
        }
        assert(string_views(new_files@).take(new_files@.len() as int) =~= string_views(new_files@));
    }

    /// Record the known files' current times (see `track`) and return the
    /// changes to report.
    pub fn mtime_updates(&mut self, stats: &Vec<(String, Option<UtcNanos>)>) -> (r: Vec<(String, UtcNanos)>)
        ensures
            (pair_views(final(self).mtimes@), pair_views(r@)) == track(pair_views(old(self).mtimes@), stat_views(stats@)),
            string_views(final(self).known_paths@) == string_views(old(self).known_paths@),
    {
        let ghost sv = stat_views(stats@);
        let ghost t0 = pair_views(self.mtimes@);
        let mut reports: Vec<(String, UtcNanos)> = Vec::new();
        let mut i: usize = 0;
        assert(sv.skip(0) =~= sv);
        while i < stats.len()
            invariant
                i <= stats.len(),
                sv == stat_views(stats@),
                string_views(self.known_paths@) == string_views(old(self).known_paths@),
                ({
                    let (tf, rf) = track(pair_views(self.mtimes@), sv.skip(i as int));
                    &&& (tf, pair_views(reports@) + rf) == track(t0, sv)
                }),
            decreases stats.len() - i,
        {
            let ghost rest = sv.skip(i as int);
            assert(rest[0] == (stats@[i as int].0@, stats@[i as int].1));
            assert(rest.drop_first() =~= sv.skip(i + 1));
            let ghost tv = pair_views(self.mtimes@);
            let p = &stats[i].0;
            if let Some(m) = stats[i].1 {
                match lookup_exec(&self.mtimes, p.as_str()) {
                    None => {
                        proof { lemma_record_absent(tv, p@, m); }
                        self.mtimes.push((p.clone(), m));
                        assert(pair_views(self.mtimes@) =~= tv.push((p@, m)));
                    },
                    Some(j) => {
                        let old_m = self.mtimes[j].1;
                        if old_m != m {
                            proof {
                                assert forall|k: int| 0 <= k < j implies (#[trigger] tv[k]).0 != p@ by {
                                    assert(tv[k] == (self.mtimes@[k].0@, self.mtimes@[k].1));
                                }
                                lemma_record_at(tv, p@, m, j as int);
                            }
                            self.mtimes.set(j, (p.clone(), m));
                            assert(pair_views(self.mtimes@) =~= tv.update(j as int, (p@, m)));
                            let ghost rb = pair_views(reports@);
                            reports.push((p.clone(), m));
                            assert(pair_views(reports@) =~= rb.push((p@, m)));
                            proof {
                                let (tf, rf) = track(pair_views(self.mtimes@), sv.skip(i + 1));
                                assert(rb.push((p@, m)) + rf =~= rb + (seq![(p@, m)] + rf));
                            }
                        }
                    },
                }
            }
            i += 1;
        }
        proof {
            assert(sv.skip(stats@.len() as int) =~= Seq::<(Seq<char>, Option<UtcNanos>)>::empty());
            assert(pair_views(reports@) + Seq::<(Seq<char>, UtcNanos)>::empty() =~= pair_views(reports@));
        }
        reports
    }
}


/// A file once reported is remembered as known, so no later walk reports it
/// again.
pub proof fn law_reported_file_not_reported_again(known_before: Seq<String>, reported: Seq<String>, known_after: Seq<String>,
    path: Seq<char>, name: Seq<char>, inc: Seq<Seq<char>>, exc: Seq<Seq<char>>, modified: Option<UtcNanos>,
    since: Option<UtcNanos>)
    requires
        string_views(known_after) == string_views(known_before) + string_views(reported),
        string_views(reported).contains(path),
    ensures
        !reports_file(path, name, known_after, inc, exc, modified, since),
{
    let j = choose|j: int| 0 <= j < string_views(reported).len() && string_views(reported)[j] == path;
    assert(string_views(known_after)[string_views(known_before).len() + j] == path);
}

} // verus!
