//! Choosing the Windows Event Viewer log files to open: the `.evtx` files of
//! the log directory that could be opened, sorted, and counts of those that
//! could not.  Listing the directory and opening the files is the caller's
//! part.
use vstd::prelude::*;
use crate::profile_mgr::{extension_exec, extension_spec};
use crate::text::{ascii_lower, char_lower, chars_of, lemma_lex_total, lemma_lex_trans, lex_le, push_str, str_lex_le, string_views};

verus! {

/// What happened when a listed file was opened.
#[derive(Clone, Copy, Debug, PartialEq, Eq, Structural)]
pub enum OpenOutcome {
    Opened,
    PermissionDenied,
    Failed,
}

/// One entry of the log directory.
pub struct EventLogCandidate {
    /// Full path of the entry.
    pub path: String,
    /// Its file name.
    pub file_name: String,
    /// Result of opening it.
    pub outcome: OpenOutcome,
}

/// The Event Viewer logs chosen from a directory.
#[derive(Debug, Clone)]
pub struct EventViewerLogSelection {
    pub dir: String,
    /// Paths of the `.evtx` files that could be opened, sorted.
    pub files: Vec<String>,
    /// `.evtx` files refused for lack of permission.
    pub access_denied: usize,
    /// `.evtx` files that could not be opened for another reason.
    pub unreadable: usize,
}

/// The file name has the extension `evtx`, in any ASCII case.
pub open spec fn is_evtx_name(name: Seq<char>) -> bool {
    match extension_spec(name) {
        Some(e) => e.map_values(|c: char| ascii_lower(c)) == "evtx"@,
        None => false,
    }
}

/// Paths of the `.evtx` candidates with the given outcome, in listing order.
pub open spec fn evtx_with(l: Seq<EventLogCandidate>, o: OpenOutcome) -> Seq<Seq<char>>
    decreases l.len(),
{
    if l.len() == 0 {
        Seq::empty()
    } else {
        let r = evtx_with(l.drop_last(), o);
        let c = l.last();
        if is_evtx_name(c.file_name@) && c.outcome == o {
            r.push(c.path@)
        } else {
            r
        }
    }
}

/// Strings in ascending order (repeats allowed).
pub open spec fn lex_sorted(v: Seq<Seq<char>>) -> bool {
    forall|i: int, j: int| 0 <= i < j < v.len() ==> lex_le(#[trigger] v[i], #[trigger] v[j])
}

/// The selection made from `listing` in `dir`.
pub open spec fn selection_of(r: &EventViewerLogSelection, dir: Seq<char>, listing: Seq<EventLogCandidate>) -> bool {
    &&& r.dir@ == dir
    &&& lex_sorted(string_views(r.files@))
    &&& string_views(r.files@).to_multiset() == evtx_with(listing, OpenOutcome::Opened).to_multiset()
    &&& r.access_denied == evtx_with(listing, OpenOutcome::PermissionDenied).len()
    &&& r.unreadable == evtx_with(listing, OpenOutcome::Failed).len()
}

fn is_evtx(name: &str) -> (r: bool)
    ensures
        r == is_evtx_name(name@),
{
    match extension_exec(name) {
        Some(e) => {
            let v = chars_of(e.as_str());
            proof {
                reveal_strlit("evtx");
            }
            if v.len() != 4 {
                assert(e@.map_values(|c: char| ascii_lower(c)).len() != "evtx"@.len());
                return false;
            }
            let mut i: usize = 0;
            let target = ['e', 'v', 't', 'x'];
            assert(target@ =~= "evtx"@);
            while i < 4
                invariant
                    i <= 4,
                    v@ == e@,
                    extension_spec(name@) == Some(e@),
                    v.len() == 4,
                    target@ == "evtx"@,
                    forall|k: int| 0 <= k < i ==> ascii_lower(#[trigger] v@[k]) == target@[k],
                decreases 4 - i,
            {
                let c = v[i];
                #[verifier::truncate]
                let cu = c as u32;
                let lower = if 65 <= cu && cu <= 90 { char_lower(c) } else { c };
                assert(lower == ascii_lower(c));
                if lower != target[i] {
                    let ghost m = e@.map_values(|c: char| ascii_lower(c));
                    assert(m[i as int] == ascii_lower(v@[i as int]));
                    assert(m[i as int] != "evtx"@[i as int]);
                    assert(m != "evtx"@);
                    return false;
                }
                i += 1;
            }
            assert(e@.map_values(|c: char| ascii_lower(c)) =~= "evtx"@);
            true
        },
        None => false,
    }
}

/// Where `x` goes in the sorted strings `v`: after every string that sorts
/// before or with it.
fn insert_position(v: &Vec<String>, x: &str) -> (j: usize)
    ensures
        j <= v@.len(),
        forall|k: int| 0 <= k < j ==> lex_le(#[trigger] string_views(v@)[k], x@),
        j < v@.len() ==> !lex_le(string_views(v@)[j as int], x@),
{
    let mut j: usize = 0;
    while j < v.len()
        invariant
            j <= v.len(),
            forall|k: int| 0 <= k < j ==> lex_le(#[trigger] string_views(v@)[k], x@),
        decreases v.len() - j,
    {
        assert(string_views(v@)[j as int] == v@[j as int]@);
        if !str_lex_le(v[j].as_str(), x) {
            return j;
        }
        j += 1;
    }
    j
}

/// Sort strings into ascending order.
fn sort_strings(v: Vec<String>) -> (r: Vec<String>)
    ensures
        lex_sorted(string_views(r@)),
        string_views(r@).to_multiset() == string_views(v@).to_multiset(),
{
    broadcast use vstd::seq_lib::group_to_multiset_ensures, vstd::multiset::group_multiset_axioms;
    let mut out: Vec<String> = Vec::new();
    let mut i: usize = 0;
    while i < v.len()
        invariant
            i <= v.len(),
            lex_sorted(string_views(out@)),
            string_views(out@).to_multiset() == string_views(v@).take(i as int).to_multiset(),
        decreases v.len() - i,
    {
        let x = v[i].clone();
        let ghost xv = x@;
        let ghost before = string_views(out@);
        assert(xv == string_views(v@)[i as int]);
        let j = insert_position(&out, x.as_str());
        out.insert(j, x);
        proof {
            let now = string_views(out@);
            assert(now =~= before.insert(j as int, xv));
            if (j as int) < before.len() {
                lemma_lex_total(before[j as int], xv);
            }
            assert forall|a: int, b: int| 0 <= a < b < now.len() implies lex_le(#[trigger] now[a], #[trigger] now[b]) by {
                if b < j {
                    assert(now[a] == before[a] && now[b] == before[b]);
                } else if b == j {
                    assert(now[a] == before[a]);
                } else if a < j {
                    assert(now[a] == before[a] && now[b] == before[b - 1]);
                    if j < b - 1 {
                        lemma_lex_trans(xv, before[j as int], before[b - 1]);
                    }
                    lemma_lex_trans(before[a], xv, before[b - 1]);
                } else if a == j {
                    assert(now[b] == before[b - 1]);
                    if j < b - 1 {
                        lemma_lex_trans(xv, before[j as int], before[b - 1]);
                    }
                } else {
                    assert(now[a] == before[a - 1] && now[b] == before[b - 1]);
                }
            }
            let pa = before.subrange(0, j as int);
            let pb = before.subrange(j as int, before.len() as int);
            pa.to_multiset_ensures();
            string_views(v@).take(i as int).to_multiset_ensures();
            assert(before.insert(j as int, xv) =~= pa.push(xv) + pb);
            vstd::seq_lib::lemma_multiset_commutative(pa.push(xv), pb);
            vstd::seq_lib::lemma_multiset_commutative(pa, pb);
            assert(before =~= pa + pb);
            assert(string_views(v@).take(i + 1) =~= string_views(v@).take(i as int).push(xv));
            assert(pa.to_multiset().insert(xv).add(pb.to_multiset()) =~= pa.to_multiset().add(pb.to_multiset()).insert(xv));
        }
        i += 1;
    }
    assert(string_views(v@).take(v@.len() as int) =~= string_views(v@));
    out
}

/// Choose the logs from a directory listing (see `selection_of`).
pub fn select_event_logs(dir: String, listing: Vec<EventLogCandidate>) -> (r: EventViewerLogSelection)
    ensures
        selection_of(&r, dir@, listing@),
{
    let mut opened: Vec<String> = Vec::new();
    let mut denied: usize = 0;
    let mut failed: usize = 0;
    let mut i: usize = 0;
    while i < listing.len()
        invariant
            i <= listing.len(),
            string_views(opened@) == evtx_with(listing@.take(i as int), OpenOutcome::Opened),
            denied == evtx_with(listing@.take(i as int), OpenOutcome::PermissionDenied).len(),
            failed == evtx_with(listing@.take(i as int), OpenOutcome::Failed).len(),
            denied <= i,
            failed <= i,
        decreases listing.len() - i,
    {
        let ghost t = listing@.take(i + 1);
        proof {
            assert(t.drop_last() =~= listing@.take(i as int));
            assert(t.last() == listing@[i as int]);
        }
        let c = &listing[i];
        if is_evtx(c.file_name.as_str()) {
            match c.outcome {
                OpenOutcome::Opened => {
                    let ghost before = string_views(opened@);
                    opened.push(c.path.clone());
                    assert(string_views(opened@) =~= before.push(c.path@));
                },
                OpenOutcome::PermissionDenied => {
                    denied += 1;
                },
                OpenOutcome::Failed => {
                    failed += 1;
                },
            }
        }
        i += 1;
    }
    assert(listing@.take(listing@.len() as int) =~= listing@);
    let files = sort_strings(opened);
    EventViewerLogSelection { dir, files, access_denied: denied, unreadable: failed }
}

/// `root\System32\winevt\Logs`, the Event Viewer log directory under the
/// Windows directory (`SystemRoot`, else `WINDIR`); `None` when neither is
/// set.
pub fn default_event_log_dir(system_root: Option<String>, windir: Option<String>) -> (r: Option<String>)
    ensures
        match (system_root, windir) {
            (Some(s), _) => r matches Some(p) && p@ == log_dir_under(s@),
            (None, Some(w)) => r matches Some(p) && p@ == log_dir_under(w@),
            (None, None) => r is None,
        },
{
    let root = match system_root {
        Some(s) => s,
        None => match windir {
            Some(w) => w,
            None => return None,
        },
    };
    let mut p = String::new();
    push_str(&mut p, root.as_str());
    let v = chars_of(root.as_str());
    if v.len() > 0 && v[v.len() - 1] != '\\' && v[v.len() - 1] != '/' && !(v.len() == 2 && v[1] == ':') {
        p.push('\\');
    }
    push_str(&mut p, "System32\\winevt\\Logs");
    proof {
        reveal_strlit("System32\\winevt\\Logs");
    }
    assert(p@ =~= log_dir_under(root@));
    Some(p)
}

/// The log directory under a Windows directory, joined as `PathBuf::push`
/// does on Windows: a separator is added unless the root is empty, ends
/// with one, or is a bare drive such as `C:`.
pub open spec fn log_dir_under(root: Seq<char>) -> Seq<char> {
    let drive_only = root.len() == 2 && root[1] == ':';
    let sep = if root.len() > 0 && root.last() != '\\' && root.last() != '/' && !drive_only { seq!['\\'] } else { Seq::empty() };
    root + sep + "System32\\winevt\\Logs"@
}

} // verus!
