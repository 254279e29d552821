//! Scan pipeline decisions: which profile parses a file, the plain-text
//! fallback, per-file summaries, entry numbering, the entry cap and the
//! final scan summary.  Reading files, threads and progress channels are the
//! caller's part.
use vstd::prelude::*;
use crate::text::string_views;
use crate::constants::SAMPLE_LINES;
use crate::model::{Confidence, DiscoveredFile, FileSummary, FormatProfile, LogEntry, ScanSummary, Severity, UtcNanos};
use crate::parser::{EntryView, ParseConfig, ParseError, entry_view, entry_views, parse_content_in_year, parsed_entries, parse_errors, error_views};
use crate::profile::{auto_detect, best_of, score};
use crate::text::{spec_utf16_lossy, spec_utf8_lossy, utf16_lossy, utf8_lossy, chars_of, decimal, file_name, file_name_spec, lines_spec, push_str, split_lines, string_of, trim, trim_spec, views_of};
use crate::unc::unc_spec;

verus! {

/// Entries per batch handed to the interface.
pub const ENTRY_BATCH_SIZE: usize = 500;

/// Upper bound on scan threads.
pub const MAX_SCAN_THREADS: usize = 64;

/// Thread multiplier for network paths, where reads wait on latency.
pub const NETWORK_PARALLELISM_MULTIPLIER: usize = 4;

/// Whether `path` is a UNC or network path (`\\...` or `//...`).
pub fn is_network_path(path: &str) -> (r: bool)
    ensures
        r == unc_spec(path@),
{
    crate::unc::is_unc_path(path)
}

/// Threads for a scan: `num_cpus` for local storage; for a network path
/// (judged by the first file) `num_cpus` times the multiplier, capped.
pub fn compute_scan_parallelism(num_cpus: usize, representative_path: Option<&str>) -> (r: usize)
    requires
        num_cpus <= usize::MAX / NETWORK_PARALLELISM_MULTIPLIER,
    ensures
        r as int == match representative_path {
            Some(p) => if unc_spec(p@) {
                if num_cpus * NETWORK_PARALLELISM_MULTIPLIER < MAX_SCAN_THREADS {
                    num_cpus * NETWORK_PARALLELISM_MULTIPLIER
                } else {
                    MAX_SCAN_THREADS as int
                }
            } else {
                num_cpus as int
            },
            None => num_cpus as int,
        },
{
    let is_network = match representative_path {
        Some(p) => is_network_path(p),
        None => false,
    };
    if is_network {
        let t = num_cpus * NETWORK_PARALLELISM_MULTIPLIER;
        if t < MAX_SCAN_THREADS { t } else { MAX_SCAN_THREADS }
    } else {
        num_cpus
    }
}

// ---------------------------------------------------------------------------
// File content
// ---------------------------------------------------------------------------

/// Little-endian 16-bit units of the bytes (a trailing odd byte is
/// dropped).
pub open spec fn le_units(b: Seq<u8>) -> Seq<u16> {
    Seq::new(b.len() / 2, |i: int| (b[2 * i] + 256 * b[2 * i + 1]) as u16)
}

/// Big-endian 16-bit units of the bytes (a trailing odd byte is dropped).
pub open spec fn be_units(b: Seq<u8>) -> Seq<u16> {
    Seq::new(b.len() / 2, |i: int| (256 * b[2 * i] + b[2 * i + 1]) as u16)
}

/// The text of a file's bytes: UTF-16 LE after an `FF FE` byte-order mark,
/// UTF-16 BE after `FE FF`, otherwise UTF-8; invalid data becomes U+FFFD.
pub open spec fn decoded_text(b: Seq<u8>) -> Seq<char> {
    if b.len() >= 2 && b[0] == 0xFF && b[1] == 0xFE {
        spec_utf16_lossy(le_units(b.skip(2)))
    } else if b.len() >= 2 && b[0] == 0xFE && b[1] == 0xFF {
        spec_utf16_lossy(be_units(b.skip(2)))
    } else {
        spec_utf8_lossy(b)
    }
}

/// The 16-bit units of `bytes` from `from` on, little- or big-endian.
fn units_from(bytes: &[u8], from: usize, little: bool) -> (r: Vec<u16>)
    requires
        from <= bytes@.len(),
    ensures
        r@ == if little { le_units(bytes@.skip(from as int)) } else { be_units(bytes@.skip(from as int)) },
{
    let ghost b = bytes@.skip(from as int);
    let len = bytes.len();
    let avail = len - from;
    let n = avail / 2;
    assert(n * 2 <= avail) by (nonlinear_arith)
        requires
            n == avail / 2,
    ;
    let mut r: Vec<u16> = Vec::new();
    let mut k: usize = 0;
    while k < n
        invariant
            k <= n,
            len == bytes@.len(),
            n * 2 <= bytes@.len() - from,
            n == b.len() / 2,
            b == bytes@.skip(from as int),
            from <= bytes@.len(),
            r@.len() == k,
            forall|j: int| 0 <= j < k ==> r@[j] == (if little { le_units(b)[j] } else { be_units(b)[j] }),
        decreases n - k,
    {
        let lo = bytes[from + 2 * k];
        let hi = bytes[from + 2 * k + 1];
        assert(b[2 * k as int] == lo && b[2 * k as int + 1] == hi);
        let u: u16 = if little { (lo as u16) + (hi as u16) * 256 } else { (lo as u16) * 256 + (hi as u16) };
        r.push(u);
        k += 1;
    }
    assert(r@ =~= if little { le_units(b) } else { be_units(b) });
    r
}

/// Decode a file's bytes (see `decoded_text`).
pub fn decode_bytes(bytes: &[u8]) -> (r: String)
    ensures
        r@ == decoded_text(bytes@),
{
    if bytes.len() >= 2 && bytes[0] == 0xFF && bytes[1] == 0xFE {
        let units = units_from(bytes, 2, true);
        utf16_lossy(units.as_slice())
    } else if bytes.len() >= 2 && bytes[0] == 0xFE && bytes[1] == 0xFF {
        let units = units_from(bytes, 2, false);
        utf16_lossy(units.as_slice())
    } else {
        utf8_lossy(bytes)
    }
}

// ---------------------------------------------------------------------------
// One file
// ---------------------------------------------------------------------------

/// What processing one file's content gives.
#[derive(Debug)]
pub struct FileOutcome {
    /// Profile finally used (or the one assigned, when it could not be found).
    pub profile_id: Option<String>,
    pub detection_confidence: Confidence,
    pub entries: Vec<LogEntry>,
    /// Present when the file was parsed.
    pub summary: Option<FileSummary>,
    pub warnings: Vec<String>,
    pub error_count: usize,
}

/// ID of the catch-all profile.
pub open spec fn plain_text_id() -> Seq<char> {
    "plain-text"@
}

/// At most the first `n` items.
pub open spec fn first_n<A>(s: Seq<A>, n: nat) -> Seq<A> {
    if s.len() <= n { s } else { s.take(n as int) }
}

/// Index of the first profile with ID `id` among the first `k`.
pub open spec fn find_profile(ps: Seq<FormatProfile>, id: Seq<char>, k: nat) -> Option<int>
    decreases k,
{
    if k == 0 {
        None
    } else {
        match find_profile(ps, id, (k - 1) as nat) {
            Some(j) => Some(j),
            None => if ps[k - 1].id@ == id { Some(k - 1) } else { None },
        }
    }
}

pub open spec fn profile_named(ps: Seq<FormatProfile>, id: Seq<char>) -> Option<int> {
    find_profile(ps, id, ps.len())
}

/// Zero confidence.
pub open spec fn no_confidence() -> Confidence {
    Confidence { numerator: 0, denominator: 1 }
}

/// The profile assigned to a file: the auto-detected one with its
/// confidence; else `plain-text` with zero confidence when that profile is
/// loaded; else none.
pub open spec fn assigned(ps: Seq<FormatProfile>, name: Seq<char>, samples: Seq<String>) -> Option<(Seq<char>, Confidence)> {
    let best = if samples.len() > 0 && ps.len() > 0 { best_of(ps, name, samples, ps.len()) } else { None };
    match best {
        Some(j) => Some((ps[j].id@, Confidence { numerator: score(&ps[j], name, samples) as u64, denominator: (10 * samples.len()) as u64 })),
        None => if profile_named(ps, plain_text_id()) is Some { Some((plain_text_id(), no_confidence())) } else { None },
    }
}

/// Warning for a file that no profile could be assigned to.
pub open spec fn unassigned_warning(path: Seq<char>) -> Seq<char> {
    "'"@ + path + "': no format profile could be assigned (even plain-text was unavailable), file skipped"@
}

/// The entries with the file's modification time.
pub open spec fn stamped(es: Seq<EntryView>, m: Option<int>) -> Seq<EntryView> {
    es.map_values(|e: EntryView| EntryView { file_modified: m, ..e })
}

/// Earliest timestamp among the entries.
pub open spec fn earliest_of(es: Seq<EntryView>) -> Option<int>
    decreases es.len(),
{
    if es.len() == 0 {
        None
    } else {
        let m = earliest_of(es.drop_last());
        match es.last().timestamp {
            None => m,
            Some(t) => match m {
                Some(e) => if e <= t { Some(e) } else { Some(t) },
                None => Some(t),
            },
        }
    }
}

/// Latest timestamp among the entries.
pub open spec fn latest_of(es: Seq<EntryView>) -> Option<int>
    decreases es.len(),
{
    if es.len() == 0 {
        None
    } else {
        let m = latest_of(es.drop_last());
        match es.last().timestamp {
            None => m,
            Some(t) => match m {
                Some(l) => if l >= t { Some(l) } else { Some(t) },
                None => Some(t),
            },
        }
    }
}

/// The profile that finally parses the file: the assigned one, unless it
/// gives no entry for content that is not blank, in which case `plain-text`
/// (when loaded and not already the one used).
pub open spec fn final_profile(content: Seq<char>, file: Seq<char>, ps: Seq<FormatProfile>, config: ParseConfig, year: int, k: int) -> int {
    let q = profile_named(ps, plain_text_id());
    if parsed_entries(content, file, &ps[k], config, 0, year).len() == 0 && trim_spec(content).len() > 0
        && q is Some && ps[q->Some_0].id@ != ps[k].id@ {
        q->Some_0
    } else {
        k
    }
}

pub open spec fn opt_i(o: Option<UtcNanos>) -> Option<int> {
    match o {
        Some(t) => Some(t as int),
        None => None,
    }
}

/// The outcome of processing a file's content in year `year` with the sample
/// lines `samples`.
pub open spec fn outcome_spec(r: FileOutcome, content: Seq<char>, file: DiscoveredFile, ps: Seq<FormatProfile>,
    config: ParseConfig, year: int, samples: Seq<String>) -> bool
{
    let name = match file_name_spec(file.path@) { Some(n) => n, None => Seq::empty() };
    match assigned(ps, name, samples) {
        None => {
            &&& r.profile_id is None
            &&& r.detection_confidence == no_confidence()
            &&& r.entries@.len() == 0
            &&& r.summary is None
            &&& r.warnings@.map_values(|w: String| w@) == seq![unassigned_warning(file.path@)]
            &&& r.error_count == 0
        },
        Some((pid, conf)) => {
            &&& r.detection_confidence == conf
            &&& r.warnings@.len() == 0
            &&& match profile_named(ps, pid) {
                None => r.profile_id matches Some(p) && p@ == pid && r.entries@.len() == 0 && r.summary is None
                    && r.error_count == 0,
                Some(k) => {
                    let f = final_profile(content, file.path@, ps, config, year, k);
                    let es = stamped(parsed_entries(content, file.path@, &ps[f], config, 0, year), opt_i(file.modified));
                    &&& r.profile_id matches Some(p) && p@ == ps[f].id@
                    &&& entry_views(r.entries@) == es
                    &&& r.error_count == parse_errors(content, file.path@, &ps[f], config, 0, year).len()
                    &&& r.summary matches Some(s) && s.path@ == file.path@ && s.profile_id@ == ps[f].id@
                        && s.entry_count == es.len() && s.error_count == r.error_count
                        && opt_i(s.earliest) == earliest_of(es) && opt_i(s.latest) == latest_of(es)
                },
            }
        },
    }
}

pub(crate) fn find_profile_exec(ps: &Vec<FormatProfile>, id: &str) -> (r: Option<usize>)
    ensures
        match r {
            Some(j) => profile_named(ps@, id@) == Some(j as int) && j < ps.len(),
            None => profile_named(ps@, id@) is None,
        },
{
    let mut k: usize = 0;
    while k < ps.len()
        invariant
            k <= ps.len(),
            find_profile(ps@, id@, k as nat) is None,
        decreases ps.len() - k,
    {
        if crate::text::str_eq(ps[k].id.as_str(), id) {
            assert(find_profile(ps@, id@, (k + 1) as nat) == Some(k as int));
            proof { lemma_find_profile_stable(ps@, id@, (k + 1) as nat); }
            return Some(k);
        }
        k += 1;
    }
    None
}

proof fn lemma_find_profile_stable(ps: Seq<FormatProfile>, id: Seq<char>, k: nat)
    requires
        k <= ps.len(),
        find_profile(ps, id, k) is Some,
    ensures
        find_profile(ps, id, ps.len()) == find_profile(ps, id, k),
    decreases ps.len() - k,
{
    if k < ps.len() {
        lemma_find_profile_stable(ps, id, k + 1);
    }
}

/// Earliest and latest timestamps of the entries.
fn time_span(es: &Vec<LogEntry>) -> (r: (Option<UtcNanos>, Option<UtcNanos>))
    ensures
        opt_i(r.0) == earliest_of(entry_views(es@)),
        opt_i(r.1) == latest_of(entry_views(es@)),
{
    let mut earliest: Option<UtcNanos> = None;
    let mut latest: Option<UtcNanos> = None;
    let mut i: usize = 0;
    while i < es.len()
        invariant
            i <= es.len(),
            opt_i(earliest) == earliest_of(entry_views(es@).take(i as int)),
            opt_i(latest) == latest_of(entry_views(es@).take(i as int)),
        decreases es.len() - i,
    {
        let ghost t = entry_views(es@).take(i + 1);
        assert(t.drop_last() =~= entry_views(es@).take(i as int));
        assert(t.last() == entry_view(es@[i as int]));
        if let Some(ts) = es[i].timestamp {
            earliest = Some(match earliest {
                Some(e) => if e <= ts { e } else { ts },
                None => ts,
            });
            latest = Some(match latest {
                Some(l) => if l >= ts { l } else { ts },
                None => ts,
            });
        }
        i += 1;
    }
    assert(entry_views(es@).take(es@.len() as int) =~= entry_views(es@));
    (earliest, latest)
}

/// Give every entry the file's modification time.
fn stamp_entries(es: &mut Vec<LogEntry>, m: Option<UtcNanos>)
    ensures
        entry_views(final(es)@) == stamped(entry_views(old(es)@), opt_i(m)),
{
    let ghost orig = entry_views(es@);
    let mut out: Vec<LogEntry> = Vec::new();
    let mut i: usize = 0;
    while i < es.len()
        invariant
            i <= es.len(),
            orig == entry_views(es@),
            entry_views(out@) == stamped(orig.take(i as int), opt_i(m)),
        decreases es.len() - i,
    {
        let mut e = es[i].clone();
        e.file_modified = m;
        let ghost before = entry_views(out@);
        out.push(e);
        assert(entry_views(out@) =~= before.push(entry_view(e)));
        assert(stamped(orig.take(i + 1), opt_i(m)) =~= stamped(orig.take(i as int), opt_i(m)).push(EntryView { file_modified: opt_i(m), ..orig[i as int] }));
        i += 1;
    }
    assert(orig.take(orig.len() as int) =~= orig);
    *es = out;
}

/// Process one file's content in year `year`: assign a profile (detection,
/// else plain-text), parse, fall back to plain-text when the assigned profile
/// finds nothing in non-blank content, stamp the file's modification time on
/// the entries and summarise the file.
pub fn process_file_in_year(content: &str, file: &DiscoveredFile, profiles: &Vec<FormatProfile>, config: &ParseConfig, year: i32) -> (r: FileOutcome)
    requires
        lines_spec(content@).len() <= u64::MAX,
    ensures
        exists|samples: Seq<String>| samples.map_values(|s: String| s@) == first_n(lines_spec(content@), SAMPLE_LINES as nat)
            && outcome_spec(r, content@, *file, profiles@, *config, year as int, samples),
{
    let chars = chars_of(content);
    let lines = split_lines(&chars);
    let mut samples: Vec<String> = Vec::new();
    let n = if lines.len() < SAMPLE_LINES { lines.len() } else { SAMPLE_LINES };
    let mut i: usize = 0;
    while i < n
        invariant
            i <= n <= lines.len(),
            n <= SAMPLE_LINES,
            views_of(lines@) == lines_spec(content@),
            samples@.map_values(|s: String| s@) == lines_spec(content@).take(i as int),
        decreases n - i,
    {
        let s = string_of(&lines[i]);
        let ghost before = samples@.map_values(|s: String| s@);
        samples.push(s);
        assert(samples@.map_values(|s: String| s@) =~= before.push(s@));
        assert(views_of(lines@)[i as int] == lines@[i as int]@);
        assert(lines_spec(content@).take(i + 1) =~= lines_spec(content@).take(i as int).push(lines@[i as int]@));
        i += 1;
    }
    assert(samples@.map_values(|s: String| s@) =~= first_n(lines_spec(content@), SAMPLE_LINES as nat));
    let name = match file_name(file.path.as_str()) {
        Some(nm) => nm,
        None => String::new(),
    };
    let ghost gname = match file_name_spec(file.path@) { Some(nm) => nm, None => Seq::empty() };
    assert(name@ == gname);
    let plain_idx = find_profile_exec(profiles, "plain-text");
    proof { reveal_strlit("plain-text"); }
    let detected = auto_detect(name.as_str(), &samples, profiles);
    let (pid, conf) = match detected {
        Some(d) => (d.profile_id, d.confidence),
        None => match plain_idx {
            Some(_) => ("plain-text".to_string(), Confidence { numerator: 0, denominator: 1 }),
            None => {
                let mut msg = String::new();
                push_str(&mut msg, "'");
                push_str(&mut msg, file.path.as_str());
                push_str(&mut msg, "': no format profile could be assigned (even plain-text was unavailable), file skipped");
                proof {
                    reveal_strlit("'");
                    reveal_strlit("': no format profile could be assigned (even plain-text was unavailable), file skipped");
                }
                let warnings = vec![msg];
                assert(warnings@.map_values(|w: String| w@) =~= seq![unassigned_warning(file.path@)]);
                let out = FileOutcome {
                    profile_id: None,
                    detection_confidence: Confidence { numerator: 0, denominator: 1 },
                    entries: Vec::new(),
                    summary: None,
                    warnings,
                    error_count: 0,
                };
                assert(assigned(profiles@, gname, samples@) is None);
                assert(outcome_spec(out, content@, *file, profiles@, *config, year as int, samples@));
                return out;
            },
        },
    };
    let k = match find_profile_exec(profiles, pid.as_str()) {
        Some(k) => k,
        None => {
            let out = FileOutcome {
                profile_id: Some(pid),
                detection_confidence: conf,
                entries: Vec::new(),
                summary: None,
                warnings: Vec::new(),
                error_count: 0,
            };
            assert(assigned(profiles@, gname, samples@) == Some((pid@, conf)));
            assert(outcome_spec(out, content@, *file, profiles@, *config, year as int, samples@));
            return out;
        },
    };
    proof {
        crate::parser::lemma_nonblank_bound(lines_spec(content@));
    }
    let mut result = parse_content_in_year(content, file.path.as_str(), &profiles[k], config, 0, year);
    let mut f: usize = k;
    if result.entries.len() == 0 && chars_of(trim(content).as_str()).len() > 0 {
        if let Some(q) = plain_idx {
            if !crate::text::str_eq(profiles[q].id.as_str(), profiles[k].id.as_str()) {
                result = parse_content_in_year(content, file.path.as_str(), &profiles[q], config, 0, year);
                f = q;
            }
        }
    }
    assert(f as int == final_profile(content@, file.path@, profiles@, *config, year as int, k as int));
    stamp_entries(&mut result.entries, file.modified);
    let (earliest, latest) = time_span(&result.entries);
    let entry_count = result.entries.len();
    let error_count = result.errors.len();
    let summary = FileSummary {
        path: file.path.clone(),
        profile_id: profiles[f].id.clone(),
        entry_count,
        error_count,
        earliest,
        latest,
    };
    let out = FileOutcome {
        profile_id: Some(profiles[f].id.clone()),
        detection_confidence: conf,
        entries: result.entries,
        summary: Some(summary),
        warnings: Vec::new(),
        error_count,
    };
    assert(assigned(profiles@, gname, samples@) == Some((pid@, conf)));
    assert(profile_named(profiles@, pid@) == Some(k as int));
    assert(outcome_spec(out, content@, *file, profiles@, *config, year as int, samples@));
    out
}


// ---------------------------------------------------------------------------
// All files
// ---------------------------------------------------------------------------

/// The entries numbered consecutively from `start`.
pub open spec fn renumbered(es: Seq<EntryView>, start: int) -> Seq<EntryView> {
    Seq::new(es.len(), |i: int| EntryView { id: (start + i) as u64, ..es[i] })
}

/// Warning given when the entry cap cuts a scan short.
pub open spec fn cap_message(cap: usize) -> Seq<char> {
    "Entry limit reached: "@ + decimal(cap as nat)
        + " entries loaded. Remaining files in this scan have been skipped to prevent an out-of-memory crash. Use the date filter or reduce the max-files limit to target a smaller dataset."@
}

/// What assembling the per-file outcomes has gathered.
pub struct AssemblyView {
    pub entries: Seq<EntryView>,
    pub summaries: Seq<FileSummary>,
    pub warnings: Seq<Seq<char>>,
    pub total_errors: int,
    pub files_with_entries: int,
    pub cap_reached: bool,
    pub next_id: int,
}


/// Assemble the outcomes in file order: files that were not parsed are left
/// out; each parsed file's entries are numbered on from the previous ones,
/// its errors and warnings counted and its summary kept; entries are taken
/// while the total stays within `max`, and once a file does not fit the rest
/// of it is cut, a warning added and later files ignored.
pub open spec fn assemble_fold(rs: Seq<FileOutcome>, max: usize, start: u64) -> AssemblyView
    decreases rs.len(),
{
    if rs.len() == 0 {
        AssemblyView {
            entries: Seq::empty(),
            summaries: Seq::empty(),
            warnings: Seq::empty(),
            total_errors: 0,
            files_with_entries: 0,
            cap_reached: false,
            next_id: start as int,
        }
    } else {
        let a = assemble_fold(rs.drop_last(), max, start);
        let r = rs.last();
        if r.summary is None || a.cap_reached {
            a
        } else {
            let es = renumbered(entry_views(r.entries@), a.next_id);
            let room = if max > a.entries.len() { max - a.entries.len() } else { 0 };
            let base = AssemblyView {
                summaries: a.summaries.push(r.summary->Some_0),
                warnings: a.warnings + string_views(r.warnings@),
                total_errors: a.total_errors + r.error_count,
                files_with_entries: a.files_with_entries + if es.len() > 0 { 1int } else { 0int },
                next_id: a.next_id + es.len(),
                ..a
            };
            if room == 0 {
                base
            } else if es.len() <= room {
                AssemblyView { entries: a.entries + es, ..base }
            } else {
                AssemblyView { entries: a.entries + es.take(room), cap_reached: true, warnings: base.warnings.push(cap_message(max)), ..base }
            }
        }
    }
}

/// Entries of all outcomes together.
pub open spec fn total_entries(rs: Seq<FileOutcome>) -> nat
    decreases rs.len(),
{
    if rs.len() == 0 { 0 } else { total_entries(rs.drop_last()) + rs.last().entries@.len() }
}

/// Errors of all outcomes together.
pub open spec fn total_errors(rs: Seq<FileOutcome>) -> nat
    decreases rs.len(),
{
    if rs.len() == 0 { 0 } else { total_errors(rs.drop_last()) + rs.last().error_count as nat }
}

proof fn lemma_fold_bounds(rs: Seq<FileOutcome>, max: usize, start: u64)
    ensures
        assemble_fold(rs, max, start).next_id <= start + total_entries(rs),
        assemble_fold(rs, max, start).next_id >= start,
        0 <= assemble_fold(rs, max, start).total_errors <= total_errors(rs),
        0 <= assemble_fold(rs, max, start).files_with_entries <= rs.len(),
        assemble_fold(rs, max, start).entries.len() <= max,
        assemble_fold(rs, max, start).summaries.len() <= rs.len(),
    decreases rs.len(),
{
    if rs.len() > 0 {
        lemma_fold_bounds(rs.drop_last(), max, start);
    }
}

/// Entries, summaries and counts gathered from the per-file outcomes.
#[derive(Debug)]
pub struct Assembled {
    /// Entries in timeline order.
    pub entries: Vec<LogEntry>,
    pub file_summaries: Vec<FileSummary>,
    pub warnings: Vec<String>,
    pub total_errors: usize,
    pub files_with_entries: usize,
    pub cap_reached: bool,
}

/// Assemble the per-file outcomes (see `assemble_fold`), then put the
/// entries in timeline order (by timestamp, entries without one last, the
/// gathering order kept among equals).
pub fn assemble_results(results: &Vec<FileOutcome>, max_total_entries: usize, entry_id_start: u64) -> (r: Assembled)
    requires
        entry_id_start + total_entries(results@) <= u64::MAX,
        total_errors(results@) <= usize::MAX,
    ensures
        ({
            let a = assemble_fold(results@, max_total_entries, entry_id_start);
            &&& exists|gathered: Seq<LogEntry>, p: Seq<usize>| entry_views(gathered) == a.entries
                && crate::state::is_timeline(gathered, p) && r.entries@ == crate::state::reordered(gathered, p)
            &&& r.file_summaries@ == a.summaries
            &&& string_views(r.warnings@) == a.warnings
            &&& r.total_errors == a.total_errors
            &&& r.files_with_entries == a.files_with_entries
            &&& r.cap_reached == a.cap_reached
        }),
{
    let mut all: Vec<LogEntry> = Vec::new();
    let mut summaries: Vec<FileSummary> = Vec::new();
    let mut warnings: Vec<String> = Vec::new();
    let mut errors_sum: usize = 0;
    let mut with_entries: usize = 0;
    let mut cap_reached = false;
    let mut next_id: u64 = entry_id_start;
    let mut i: usize = 0;
    while i < results.len()
        invariant
            i <= results.len(),
            entry_id_start + total_entries(results@) <= u64::MAX,
            total_errors(results@) <= usize::MAX,
            ({
                let a = assemble_fold(results@.take(i as int), max_total_entries, entry_id_start);
                &&& entry_views(all@) == a.entries
                &&& summaries@ == a.summaries
                &&& string_views(warnings@) == a.warnings
                &&& errors_sum == a.total_errors
                &&& with_entries == a.files_with_entries
                &&& cap_reached == a.cap_reached
                &&& next_id == a.next_id
            }),
        decreases results.len() - i,
    {
        let ghost t = results@.take(i + 1);
        assert(t.drop_last() =~= results@.take(i as int));
        assert(t.last() == results@[i as int]);
        proof {
            lemma_fold_bounds(results@.take(i as int), max_total_entries, entry_id_start);
            lemma_totals_prefix(results@, i as int);
        }
        let r = &results[i];
        if r.summary.is_some() && !cap_reached {
            let count = r.entries.len();
            let room: usize = if max_total_entries > all.len() { max_total_entries - all.len() } else { 0 };
            let ghost es = renumbered(entry_views(r.entries@), next_id as int);
            let ghost before = entry_views(all@);
            let take: usize = if count <= room { count } else { room };
            let mut j: usize = 0;
            while j < take
                invariant
                    j <= take <= count == r.entries@.len(),
                    next_id + count <= u64::MAX,
                    es == renumbered(entry_views(r.entries@), next_id as int),
                    entry_views(all@) == before + es.take(j as int),
                decreases take - j,
            {
                let mut e = r.entries[j].clone();
                e.id = next_id + j as u64;
                let ghost prev = entry_views(all@);
                all.push(e);
                assert(entry_views(all@) =~= prev.push(entry_view(e)));
                assert(es.take(j + 1) =~= es.take(j as int).push(es[j as int]));
                j += 1;
            }
            if let Some(sm) = &r.summary {
                summaries.push(sm.clone());
            }
            let ghost wbefore = string_views(warnings@);
            let mut w: usize = 0;
            while w < r.warnings.len()
                invariant
                    w <= r.warnings.len(),
                    string_views(warnings@) == wbefore + string_views(r.warnings@).take(w as int),
                decreases r.warnings.len() - w,
            {
                let ghost pw = string_views(warnings@);
                warnings.push(r.warnings[w].clone());
                assert(string_views(warnings@) =~= pw.push(r.warnings@[w as int]@));
                assert(string_views(r.warnings@).take(w + 1) =~= string_views(r.warnings@).take(w as int).push(r.warnings@[w as int]@));
                w += 1;
            }
            assert(string_views(r.warnings@).take(r.warnings@.len() as int) =~= string_views(r.warnings@));
            errors_sum = errors_sum + r.error_count;
            if count > 0 {
                with_entries = with_entries + 1;
            }
            next_id = next_id + count as u64;
            if room > 0 && take < count {
                cap_reached = true;
                let mut msg = String::new();
                push_str(&mut msg, "Entry limit reached: ");
                crate::text::push_decimal(&mut msg, max_total_entries as u64);
                push_str(&mut msg, " entries loaded. Remaining files in this scan have been skipped to prevent an out-of-memory crash. Use the date filter or reduce the max-files limit to target a smaller dataset.");
                proof {
                    reveal_strlit("Entry limit reached: ");
                    reveal_strlit(" entries loaded. Remaining files in this scan have been skipped to prevent an out-of-memory crash. Use the date filter or reduce the max-files limit to target a smaller dataset.");
                }
                let ghost pw = string_views(warnings@);
                warnings.push(msg);
                assert(string_views(warnings@) =~= pw.push(cap_message(max_total_entries)));
            } else if room > 0 {
                assert(es.take(count as int) =~= es);
            } else {
                assert(es.take(0) =~= Seq::<EntryView>::empty());
                assert(before + Seq::<EntryView>::empty() =~= before);
            }
            proof {
                let a = assemble_fold(t, max_total_entries, entry_id_start);
                assert(summaries@ == a.summaries);
                assert(errors_sum == a.total_errors);
                assert(with_entries == a.files_with_entries);
                assert(next_id == a.next_id);
                assert(cap_reached == a.cap_reached);
                assert(string_views(warnings@) == a.warnings);
                assert(entry_views(all@) == a.entries);
            }
        }
        i += 1;
    }
    assert(results@.take(results@.len() as int) =~= results@);
    let ghost gathered = all@;
    let order = crate::state::timeline_order(&all);
    let mut sorted: Vec<LogEntry> = Vec::new();
    let mut k: usize = 0;
    while k < order.len()
        invariant
            k <= order.len(),
            crate::state::is_timeline(all@, order@),
            sorted@ == order@.take(k as int).map_values(|q: usize| all@[q as int]),
        decreases order.len() - k,
    {
        sorted.push(all[order[k]].clone());
        assert(sorted@ =~= order@.take(k + 1).map_values(|q: usize| all@[q as int]));
        k += 1;
    }
    assert(order@.take(order@.len() as int) =~= order@);
    assert(sorted@ == crate::state::reordered(gathered, order@));
    Assembled {
        entries: sorted,
        file_summaries: summaries,
        warnings,
        total_errors: errors_sum,
        files_with_entries: with_entries,
        cap_reached,
    }
}

proof fn lemma_totals_prefix(rs: Seq<FileOutcome>, i: int)
    requires
        0 <= i < rs.len(),
    ensures
        total_entries(rs.take(i + 1)) <= total_entries(rs),
        total_errors(rs.take(i + 1)) <= total_errors(rs),
        total_entries(rs.take(i + 1)) == total_entries(rs.take(i)) + rs[i].entries@.len(),
        total_errors(rs.take(i + 1)) == total_errors(rs.take(i)) + rs[i].error_count,
    decreases rs.len() - i,
{
    assert(rs.take(i + 1).drop_last() =~= rs.take(i));
    if i + 1 < rs.len() {
        lemma_totals_prefix(rs, i + 1);
    } else {
        assert(rs.take(i + 1) =~= rs);
    }
}

/// Number of summaries with at least one error.
pub open spec fn count_with_errors(v: Seq<FileSummary>) -> nat
    decreases v.len(),
{
    if v.len() == 0 { 0 } else { count_with_errors(v.drop_last()) + if v.last().error_count > 0 { 1nat } else { 0nat } }
}

/// The summary of a finished scan: files discovered, entries loaded, parse
/// errors, files that gave entries, files with errors, per-file summaries and
/// the elapsed time.
pub fn scan_summary(total_files: usize, assembled: Assembled, duration_ms: u64) -> (r: (ScanSummary, Vec<LogEntry>))
    ensures
        r.0.total_files_discovered == total_files,
        r.0.total_entries == assembled.entries@.len(),
        r.0.total_parse_errors == assembled.total_errors,
        r.0.files_matched == assembled.files_with_entries,
        r.0.files_with_errors == count_with_errors(assembled.file_summaries@),
        r.0.file_summaries@ == assembled.file_summaries@,
        r.0.entries_by_severity@.len() == 0,
        r.0.duration_ms == duration_ms,
        r.1@ == assembled.entries@,
{
    let mut with_errors: usize = 0;
    let mut i: usize = 0;
    while i < assembled.file_summaries.len()
        invariant
            i <= assembled.file_summaries.len(),
            with_errors == count_with_errors(assembled.file_summaries@.take(i as int)),
            with_errors <= i,
        decreases assembled.file_summaries.len() - i,
    {
        assert(assembled.file_summaries@.take(i + 1).drop_last() =~= assembled.file_summaries@.take(i as int));
        if assembled.file_summaries[i].error_count > 0 {
            with_errors += 1;
        }
        i += 1;
    }
    assert(assembled.file_summaries@.take(assembled.file_summaries@.len() as int) =~= assembled.file_summaries@);
    let total = assembled.entries.len();
    let summary = ScanSummary {
        total_files_discovered: total_files,
        files_matched: assembled.files_with_entries,
        files_with_errors: with_errors,
        total_entries: total,
        entries_by_severity: Vec::new(),
        total_parse_errors: assembled.total_errors,
        file_summaries: assembled.file_summaries,
        duration_ms,
    };
    (summary, assembled.entries)
}

/// Split entries into batches of at most `size`, in order.
pub fn into_batches(entries: Vec<LogEntry>, size: usize) -> (r: Vec<Vec<LogEntry>>)
    requires
        size > 0,
    ensures
        r@.map_values(|b: Vec<LogEntry>| b@).flatten() == entries@,
        forall|k: int| 0 <= k < r@.len() ==> 0 < (#[trigger] r@[k])@.len() <= size,
{
    let mut out: Vec<Vec<LogEntry>> = Vec::new();
    let mut cur: Vec<LogEntry> = Vec::new();
    let mut i: usize = 0;
    while i < entries.len()
        invariant
            i <= entries.len(),
            size > 0,
            out@.map_values(|b: Vec<LogEntry>| b@).flatten() + cur@ == entries@.take(i as int),
            forall|k: int| 0 <= k < out@.len() ==> 0 < (#[trigger] out@[k])@.len() <= size,
            cur@.len() < size,
        decreases entries.len() - i,
    {
        cur.push(entries[i].clone());
        if cur.len() == size {
            let ghost prev = out@.map_values(|b: Vec<LogEntry>| b@);
            let full = cur;
            cur = Vec::new();
            out.push(full);
            proof {
                assert(out@.map_values(|b: Vec<LogEntry>| b@) =~= prev.push(full@));
                prev.lemma_flatten_push(full@);
            }
        }
        assert(entries@.take(i + 1) =~= entries@.take(i as int).push(entries@[i as int]));
        i += 1;
    }
    if cur.len() > 0 {
        let ghost prev = out@.map_values(|b: Vec<LogEntry>| b@);
        let last = cur;
        out.push(last);
        proof {
            assert(out@.map_values(|b: Vec<LogEntry>| b@) =~= prev.push(last@));
            prev.lemma_flatten_push(last@);
        }
    } else {
        assert(cur@ =~= Seq::<LogEntry>::empty());
    }
    assert(entries@.take(entries@.len() as int) =~= entries@);
    out
}


// ---------------------------------------------------------------------------
// Laws
// ---------------------------------------------------------------------------

/// The entry IDs handed out by a scan are strictly increasing in gathering
/// order (so no two entries share one), all at least `start` and below the
/// next free ID; and no more than `max` entries are ever gathered.
pub proof fn law_scan_ids_unique_and_capped(rs: Seq<FileOutcome>, max: usize, start: u64)
    requires
        start + total_entries(rs) <= u64::MAX,
    ensures
        ({
            let a = assemble_fold(rs, max, start);
            &&& a.entries.len() <= max
            &&& forall|i: int, j: int| 0 <= i < j < a.entries.len() ==> (#[trigger] a.entries[i]).id < (#[trigger] a.entries[j]).id
            &&& forall|i: int| 0 <= i < a.entries.len() ==> start <= (#[trigger] a.entries[i]).id < a.next_id
        }),
    decreases rs.len(),
{
    lemma_fold_bounds(rs, max, start);
    if rs.len() > 0 {
        let d = rs.drop_last();
        assert(total_entries(rs) == total_entries(d) + rs.last().entries@.len());
        law_scan_ids_unique_and_capped(d, max, start);
        lemma_fold_bounds(d, max, start);
        let a0 = assemble_fold(d, max, start);
        let a = assemble_fold(rs, max, start);
        let r = rs.last();
        if !(r.summary is None || a0.cap_reached) {
            let es = renumbered(entry_views(r.entries@), a0.next_id);
            assert(a0.next_id + es.len() <= u64::MAX);
            assert forall|i: int, j: int| 0 <= i < j < a.entries.len() implies (#[trigger] a.entries[i]).id < (#[trigger] a.entries[j]).id by {
                if j >= a0.entries.len() {
                    assert(a.entries[j] == es[j - a0.entries.len()]);
                    if i >= a0.entries.len() {
                        assert(a.entries[i] == es[i - a0.entries.len()]);
                    } else {
                        assert(a.entries[i] == a0.entries[i]);
                    }
                } else {
                    assert(a.entries[i] == a0.entries[i] && a.entries[j] == a0.entries[j]);
                }
            }
            assert forall|i: int| 0 <= i < a.entries.len() implies start <= (#[trigger] a.entries[i]).id < a.next_id by {
                if i >= a0.entries.len() {
                    assert(a.entries[i] == es[i - a0.entries.len()]);
                } else {
                    assert(a.entries[i] == a0.entries[i]);
                }
            }
        }
    }
}

} // verus!
