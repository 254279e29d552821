//! Multi-term search: many include terms combined with ANY / ALL / threshold
//! logic, optional NOT terms, and match highlighting.
use vstd::prelude::*;
use crate::pattern::{CompiledRegex, regex_escape, regex_set_error, spec_regex_build, spec_regex_set_build, spec_regex_escape, spec_regex_find_all, spec_regex_is_match};
use crate::text::{chars_of, decimal, decimal_string, is_blank, lines_spec, push_chars, push_str, split_lines, split_on_char, split_spec, string_views, trim_spec, trim_vec, vec_char_eq, views_of};

verus! {

/// Largest number of terms (include and exclude together) that `compile`
/// accepts.
pub const MAX_MULTI_SEARCH_TERMS: usize = 200;

/// How include terms combine.
#[derive(Clone, Copy, Debug, PartialEq, Eq, Structural)]
pub enum MultiSearchMode {
    /// At least one include term must match.
    Any,
    /// Every include term must match.
    All,
}

impl MultiSearchMode {
    /// Label for display.
    pub fn label(self) -> (r: &'static str)
        ensures
            r@ == (match self {
                MultiSearchMode::Any => "ANY (OR)"@,
                MultiSearchMode::All => "ALL (AND)"@,
            }),
    {
        match self {
            MultiSearchMode::Any => "ANY (OR)",
            MultiSearchMode::All => "ALL (AND)",
        }
    }

    /// All variants in display order.
    pub fn all() -> (r: Vec<MultiSearchMode>)
        ensures
            r@ == seq![MultiSearchMode::Any, MultiSearchMode::All],
    {
        let r = vec![MultiSearchMode::Any, MultiSearchMode::All];
        assert(r@ =~= seq![MultiSearchMode::Any, MultiSearchMode::All]);
        r
    }
}

impl Default for MultiSearchMode {
    fn default() -> (r: Self)
        ensures
            r == MultiSearchMode::Any,
    {
        MultiSearchMode::Any
    }
}

/// Compiled include and exclude patterns, one per term, in term order.
pub struct CompiledMultiSearch {
    pub include_patterns: Vec<CompiledRegex>,
    pub exclude_patterns: Vec<CompiledRegex>,
}

/// Why `compile` rejected the terms.
#[derive(Debug)]
pub struct MultiSearchError {
    /// What went wrong.
    pub message: String,
    /// Zero-based index of the offending term (include terms first, then
    /// exclude terms), when one term is to blame.
    pub term_index: Option<usize>,
}

/// The display text of an error: `Term {n}: {message}` with the one-based
/// term number, or the bare message.
pub open spec fn error_text(e: &MultiSearchError) -> Seq<char> {
    match e.term_index {
        Some(i) => "Term "@ + decimal((i + 1) as nat) + ": "@ + e.message@,
        None => e.message@,
    }
}

impl MultiSearchError {
    /// The display text of the error.
    pub fn to_text(&self) -> (r: String)
        requires
            self.term_index matches Some(i) ==> i < u64::MAX,
        ensures
            r@ == error_text(self),
    {
        match self.term_index {
            Some(i) => {
                let mut s = String::new();
                push_str(&mut s, "Term ");
                let n = decimal_string((i as u64) + 1);
                push_str(&mut s, n.as_str());
                push_str(&mut s, ": ");
                push_str(&mut s, self.message.as_str());
                proof {
                    reveal_strlit("Term ");
                    reveal_strlit(": ");
                }
                assert(s@ =~= error_text(self));
                s
            },
            None => self.message.clone(),
        }
    }
}

/// Multi-term search settings, with the patterns compiled from them.
pub struct MultiSearch {
    pub mode: MultiSearchMode,
    pub include_terms: Vec<String>,
    pub exclude_terms: Vec<String>,
    /// Least number of include terms that must match; `None` is the mode's
    /// default (one for ANY, all for ALL).
    pub min_match: Option<usize>,
    pub case_insensitive: bool,
    /// Wrap each term in word boundaries.
    pub whole_word: bool,
    /// Treat terms as regular expressions rather than literal text.
    pub regex_mode: bool,
    /// Patterns from the last successful `compile`.
    pub compiled: Option<CompiledMultiSearch>,
    /// Error from the last failed `compile`.
    pub compile_err: Option<MultiSearchError>,
}

impl Default for MultiSearch {
    fn default() -> (r: Self)
        ensures
            r.mode == MultiSearchMode::Any,
            r.include_terms@.len() == 0,
            r.exclude_terms@.len() == 0,
            r.min_match is None,
            r.case_insensitive,
            !r.whole_word,
            !r.regex_mode,
            r.compiled is None,
            r.compile_err is None,
    {
        MultiSearch {
            mode: MultiSearchMode::Any,
            include_terms: Vec::new(),
            exclude_terms: Vec::new(),
            min_match: None,
            case_insensitive: true,
            whole_word: false,
            regex_mode: false,
            compiled: None,
            compile_err: None,
        }
    }
}

// ---------------------------------------------------------------------------
// Term parsing
// ---------------------------------------------------------------------------

/// Concatenation of a sequence of sequences, left to right.
pub open spec fn concat_all<A>(s: Seq<Seq<A>>) -> Seq<A>
    decreases s.len(),
{
    if s.len() == 0 {
        Seq::empty()
    } else {
        concat_all(s.drop_last()) + s.last()
    }
}

/// Every comma-separated token of every line of the input.
pub open spec fn input_tokens(input: Seq<char>) -> Seq<Seq<char>> {
    concat_all(lines_spec(input).map_values(|l: Seq<char>| split_spec(l, ',')))
}

/// What one token contributes: `Some((true, t))` for a NOT term `t`
/// (prefix `-` or `!`), `Some((false, t))` for an include term, `None` for a
/// blank token or a bare prefix.
pub open spec fn classify_token(tok: Seq<char>) -> Option<(bool, Seq<char>)> {
    let t = trim_spec(tok);
    if t.len() == 0 {
        None
    } else if t[0] == '-' || t[0] == '!' {
        let rest = trim_spec(t.drop_first());
        if rest.len() == 0 {
            None
        } else {
            Some((true, rest))
        }
    } else {
        Some((false, t))
    }
}

/// Include and exclude terms of a token sequence: distinct, in order of
/// first occurrence.
pub open spec fn collect_terms(toks: Seq<Seq<char>>) -> (Seq<Seq<char>>, Seq<Seq<char>>)
    decreases toks.len(),
{
    if toks.len() == 0 {
        (Seq::empty(), Seq::empty())
    } else {
        let (inc, exc) = collect_terms(toks.drop_last());
        match classify_token(toks.last()) {
            Some((true, t)) => if exc.contains(t) {
                (inc, exc)
            } else {
                (inc, exc.push(t))
            },
            Some((false, t)) => if inc.contains(t) {
                (inc, exc)
            } else {
                (inc.push(t), exc)
            },
            None => (inc, exc),
        }
    }
}


fn contains_term(v: &Vec<String>, t: &Vec<char>) -> (b: bool)
    ensures
        b == string_views(v@).contains(t@),
{
    let mut i: usize = 0;
    while i < v.len()
        invariant
            i <= v.len(),
            forall|k: int| 0 <= k < i ==> string_views(v@)[k] != t@,
        decreases v.len() - i,
    {
        let cv = chars_of(v[i].as_str());
        if vec_char_eq(&cv, t) {
            assert(string_views(v@)[i as int] == t@);
            return true;
        }
        assert(string_views(v@)[i as int] == v@[i as int]@);
        i += 1;
    }
    false
}

fn classify(tok: &Vec<char>) -> (r: Option<(bool, Vec<char>)>)
    ensures
        match r {
            Some((b, t)) => classify_token(tok@) == Some((b, t@)),
            None => classify_token(tok@) is None,
        },
{
    let t = trim_vec(tok);
    if t.len() == 0 {
        return None;
    }
    if t[0] == '-' || t[0] == '!' {
        let mut rest: Vec<char> = Vec::new();
        let mut i: usize = 1;
        while i < t.len()
            invariant
                1 <= i <= t.len(),
                rest@ == t@.subrange(1, i as int),
            decreases t.len() - i,
        {
            rest.push(t[i]);
            i += 1;
            assert(rest@ == t@.subrange(1, i as int));
        }
        assert(rest@ == t@.drop_first());
        let r = trim_vec(&rest);
        if r.len() == 0 {
            None
        } else {
            Some((true, r))
        }
    } else {
        Some((false, t))
    }
}

proof fn lemma_concat_push<A>(s: Seq<Seq<A>>, x: Seq<A>)
    ensures
        concat_all(s.push(x)) == concat_all(s) + x,
{
    assert(s.push(x).drop_last() =~= s);
}

impl MultiSearch {
    /// No terms at all.
    pub open spec fn is_empty_spec(&self) -> bool {
        self.include_terms@.len() == 0 && self.exclude_terms@.len() == 0
    }

    /// True when no terms are configured.
    pub fn is_empty(&self) -> (r: bool)
        ensures
            r == self.is_empty_spec(),
    {
        self.include_terms.len() == 0 && self.exclude_terms.len() == 0
    }

    /// True when compiled patterns are present.
    pub fn is_active(&self) -> (r: bool)
        ensures
            r == self.compiled is Some,
    {
        self.compiled.is_some()
    }

    /// Split raw input into include and NOT terms: one term per line or per
    /// comma, surrounding whitespace trimmed, a `-` or `!` prefix marking a
    /// NOT term, blank tokens and bare prefixes skipped, repeats dropped.
    pub fn parse_terms(input: &str) -> (r: (Vec<String>, Vec<String>))
        ensures
            (string_views(r.0@), string_views(r.1@)) == collect_terms(input_tokens(input@)),
    {
        let chars = chars_of(input);
        let lines = split_lines(&chars);
        let mut inc_terms: Vec<String> = Vec::new();
        let mut exc_terms: Vec<String> = Vec::new();
        let ghost all_lines = lines_spec(input@);
        let ghost pieces = all_lines.map_values(|l: Seq<char>| split_spec(l, ','));
        let mut li: usize = 0;
        while li < lines.len()
            invariant
                li <= lines.len(),
                views_of(lines@) == all_lines,
                all_lines == lines_spec(input@),
                pieces == all_lines.map_values(|l: Seq<char>| split_spec(l, ',')),
                (string_views(inc_terms@), string_views(exc_terms@)) == collect_terms(concat_all(pieces.take(li as int))),
            decreases lines.len() - li,
        {
            let toks = split_on_char(&lines[li], ',');
            let ghost before = concat_all(pieces.take(li as int));
            assert(views_of(toks@) == pieces[li as int]) by {
                assert(views_of(lines@)[li as int] == lines@[li as int]@);
            }
            let mut ti: usize = 0;
            while ti < toks.len()
                invariant
                    ti <= toks.len(),
                    (string_views(inc_terms@), string_views(exc_terms@)) == collect_terms(before + views_of(toks@).take(ti as int)),
                decreases toks.len() - ti,
            {
                let ghost prev = before + views_of(toks@).take(ti as int);
                let ghost next = before + views_of(toks@).take(ti + 1);
                assert(next.drop_last() =~= prev);
                assert(next.last() == toks@[ti as int]@);
                match classify(&toks[ti]) {
                    Some((true, t)) => {
                        if !contains_term(&exc_terms, &t) {
                            let ghost old_ex = string_views(exc_terms@);
                            exc_terms.push(crate::text::string_of(&t));
                            assert(string_views(exc_terms@) =~= old_ex.push(t@));
                        }
                    },
                    Some((false, t)) => {
                        if !contains_term(&inc_terms, &t) {
                            let ghost old_in = string_views(inc_terms@);
                            inc_terms.push(crate::text::string_of(&t));
                            assert(string_views(inc_terms@) =~= old_in.push(t@));
                        }
                    },
                    None => {},
                }
                ti += 1;
            }
            proof {
                assert(views_of(toks@).take(toks@.len() as int) =~= views_of(toks@));
                assert(pieces.take(li + 1) =~= pieces.take(li as int).push(pieces[li as int]));
                lemma_concat_push(pieces.take(li as int), pieces[li as int]);
            }
            li += 1;
        }
        proof {
            assert(pieces.take(lines@.len() as int) =~= pieces);
        }
        (inc_terms, exc_terms)
    }
}

// ---------------------------------------------------------------------------
// Compilation
// ---------------------------------------------------------------------------

/// The regex source built for one term.
pub open spec fn built_pattern(regex_mode: bool, whole_word: bool, term: Seq<char>) -> Seq<char> {
    let base = if regex_mode {
        term
    } else {
        spec_regex_escape(term)
    };
    if whole_word {
        "\\b"@ + base + "\\b"@
    } else {
        base
    }
}

/// The regex sources built for a list of terms.
pub open spec fn built_patterns(regex_mode: bool, whole_word: bool, terms: Seq<String>) -> Seq<Seq<char>> {
    terms.map_values(|t: String| built_pattern(regex_mode, whole_word, t@))
}

/// The sources of compiled patterns.
pub open spec fn sources_of(v: Seq<CompiledRegex>) -> Seq<Seq<char>> {
    v.map_values(|p: CompiledRegex| p.source_spec())
}

/// Every pattern in `v` ignores case exactly when `ci`.
pub open spec fn all_ci(v: Seq<CompiledRegex>, ci: bool) -> bool {
    forall|i: int| 0 <= i < v.len() ==> (#[trigger] v[i]).ci_spec() == ci
}

/// Every source in `pats` builds.
pub open spec fn all_build(pats: Seq<Seq<char>>, ci: bool) -> bool {
    forall|i: int| 0 <= i < pats.len() ==> spec_regex_build(#[trigger] pats[i], ci) is None
}

/// `i` is the first source of `pats` that fails to build.
pub open spec fn first_bad(pats: Seq<Seq<char>>, ci: bool, i: int) -> bool {
    &&& 0 <= i < pats.len()
    &&& spec_regex_build(pats[i], ci) is Some
    &&& all_build(pats.take(i), ci)
}

/// Message for a term that failed to compile.
pub open spec fn invalid_term_message(prefix: Seq<char>, term: Seq<char>, pat: Seq<char>, ci: bool) -> Seq<char> {
    prefix + term + "': "@ + spec_regex_build(pat, ci)->Some_0
}

/// Message when there are too many terms.
pub open spec fn too_many_message(total: nat) -> Seq<char> {
    "Too many terms ("@ + decimal(total) + "). Maximum is 200."@
}

/// The settings part of a multi-search (everything `compile` reads).
pub open spec fn same_settings(a: &MultiSearch, b: &MultiSearch) -> bool {
    &&& a.mode == b.mode
    &&& a.include_terms@ == b.include_terms@
    &&& a.exclude_terms@ == b.exclude_terms@
    &&& a.min_match == b.min_match
    &&& a.case_insensitive == b.case_insensitive
    &&& a.whole_word == b.whole_word
    &&& a.regex_mode == b.regex_mode
}

impl MultiSearch {
    /// The regex source for one term under the current options.
    fn build_pattern(&self, term: &str) -> (r: String)
        ensures
            r@ == built_pattern(self.regex_mode, self.whole_word, term@),
    {
        let base = if self.regex_mode {
            term.to_owned()
        } else {
            regex_escape(term)
        };
        if self.whole_word {
            let mut s = String::new();
            push_str(&mut s, "\\b");
            push_str(&mut s, base.as_str());
            push_str(&mut s, "\\b");
            s
        } else {
            base
        }
    }

    /// Compile a list of terms; on failure the index of the first bad term
    /// and the error text.
    fn compile_terms(&self, terms: &Vec<String>) -> (r: Result<Vec<CompiledRegex>, (usize, String)>)
        ensures
            r matches Ok(v) ==> {
                &&& all_build(built_patterns(self.regex_mode, self.whole_word, terms@), self.case_insensitive)
                &&& sources_of(v@) == built_patterns(self.regex_mode, self.whole_word, terms@)
                &&& all_ci(v@, self.case_insensitive)
            },
            r matches Err((i, m)) ==> {
                &&& first_bad(built_patterns(self.regex_mode, self.whole_word, terms@), self.case_insensitive, i as int)
                &&& m@ == spec_regex_build(built_patterns(self.regex_mode, self.whole_word, terms@)[i as int], self.case_insensitive)->Some_0
            },
    {
        let ghost pats = built_patterns(self.regex_mode, self.whole_word, terms@);
        let mut out: Vec<CompiledRegex> = Vec::new();
        let mut i: usize = 0;
        while i < terms.len()
            invariant
                i <= terms.len(),
                pats == built_patterns(self.regex_mode, self.whole_word, terms@),
                all_build(pats.take(i as int), self.case_insensitive),
                sources_of(out@) == pats.take(i as int),
                all_ci(out@, self.case_insensitive),
            decreases terms.len() - i,
        {
            let pat = self.build_pattern(terms[i].as_str());
            assert(pat@ == pats[i as int]);
            match CompiledRegex::new(pat.as_str(), self.case_insensitive) {
                Ok(p) => {
                    let ghost before = out@;
                    let ghost ps = p.source_spec();
                    out.push(p);
                    assert(sources_of(out@) =~= sources_of(before).push(ps));
                    assert(sources_of(out@) =~= pats.take(i + 1));
                    assert(pats.take(i + 1).take(i as int) =~= pats.take(i as int));
                },
                Err(m) => {
                    return Err((i, m));
                },
            }
            i += 1;
        }
        assert(pats.take(terms@.len() as int) =~= pats);
        Ok(out)
    }

    /// Compile every term.  Afterwards exactly one of `compiled` and
    /// `compile_err` is set, unless there are no terms (both cleared).
    pub fn compile(&mut self)
        requires
            old(self).include_terms@.len() + old(self).exclude_terms@.len() <= usize::MAX,
        ensures
            same_settings(final(self), old(self)),
            ({
                let s = *final(self);
                let ci = s.case_insensitive;
                let total = s.include_terms@.len() + s.exclude_terms@.len();
                let inc = built_patterns(s.regex_mode, s.whole_word, s.include_terms@);
                let exc = built_patterns(s.regex_mode, s.whole_word, s.exclude_terms@);
                if total > MAX_MULTI_SEARCH_TERMS {
                    &&& s.compiled is None
                    &&& s.compile_err matches Some(e) && e.term_index is None
                        && e.message@ == too_many_message(total)
                } else if total == 0 {
                    s.compiled is None && s.compile_err is None
                } else if !all_build(inc, ci) {
                    &&& s.compiled is None
                    &&& s.compile_err matches Some(e) && e.term_index matches Some(i)
                        && first_bad(inc, ci, i as int)
                        && e.message@ == invalid_term_message("Invalid pattern '"@, s.include_terms@[i as int]@, inc[i as int], ci)
                } else if spec_regex_set_build(inc, ci) is Some {
                    &&& s.compiled is None
                    &&& s.compile_err matches Some(e) && e.term_index is None
                        && e.message@ == "Failed to compile include pattern set: "@ + spec_regex_set_build(inc, ci)->Some_0
                } else if !all_build(exc, ci) {
                    &&& s.compiled is None
                    &&& s.compile_err matches Some(e) && e.term_index matches Some(k)
                        && k >= s.include_terms@.len()
                        && first_bad(exc, ci, k - s.include_terms@.len())
                        && e.message@ == invalid_term_message("Invalid exclude pattern '"@,
                            s.exclude_terms@[k - s.include_terms@.len()]@, exc[k - s.include_terms@.len()], ci)
                } else if spec_regex_set_build(exc, ci) is Some {
                    &&& s.compiled is None
                    &&& s.compile_err matches Some(e) && e.term_index is None
                        && e.message@ == "Failed to compile exclude pattern set: "@ + spec_regex_set_build(exc, ci)->Some_0
                } else {
                    &&& s.compile_err is None
                    &&& s.compiled matches Some(c)
                        && sources_of(c.include_patterns@) == inc
                        && sources_of(c.exclude_patterns@) == exc
                        && all_ci(c.include_patterns@, ci)
                        && all_ci(c.exclude_patterns@, ci)
                }
            }),
    {
        self.compiled = None;
        self.compile_err = None;
        let total = self.include_terms.len() + self.exclude_terms.len();
        if total > MAX_MULTI_SEARCH_TERMS {
            let mut m = String::new();
            push_str(&mut m, "Too many terms (");
            let n = decimal_string(total as u64);
            push_str(&mut m, n.as_str());
            push_str(&mut m, "). Maximum is 200.");
            proof {
                reveal_strlit("Too many terms (");
                reveal_strlit("). Maximum is 200.");
            }
            assert(m@ =~= too_many_message(total as nat));
            self.compile_err = Some(MultiSearchError { message: m, term_index: None });
            return;
        }
        if total == 0 {
            return;
        }
        let inc = match self.compile_terms(&self.include_terms) {
            Ok(v) => v,
            Err((i, e)) => {
                let mut m = String::new();
                push_str(&mut m, "Invalid pattern '");
                push_str(&mut m, self.include_terms[i].as_str());
                push_str(&mut m, "': ");
                push_str(&mut m, e.as_str());
                proof {
                    reveal_strlit("Invalid pattern '");
                    reveal_strlit("': ");
                }
                let ghost inc_pats = built_patterns(self.regex_mode, self.whole_word, self.include_terms@);
                assert(m@ =~= invalid_term_message("Invalid pattern '"@, self.include_terms@[i as int]@, inc_pats[i as int], self.case_insensitive));
                assert(!all_build(inc_pats, self.case_insensitive));
                self.compile_err = Some(MultiSearchError { message: m, term_index: Some(i) });
                return;
            },
        };
        let inc_sources = pattern_sources(&inc);
        if let Some(e) = regex_set_error(&inc_sources, self.case_insensitive) {
            let mut m = String::new();
            push_str(&mut m, "Failed to compile include pattern set: ");
            push_str(&mut m, e.as_str());
            proof {
                reveal_strlit("Failed to compile include pattern set: ");
            }
            self.compile_err = Some(MultiSearchError { message: m, term_index: None });
            return;
        }
        let exc = match self.compile_terms(&self.exclude_terms) {
            Ok(v) => v,
            Err((i, e)) => {
                let mut m = String::new();
                push_str(&mut m, "Invalid exclude pattern '");
                push_str(&mut m, self.exclude_terms[i].as_str());
                push_str(&mut m, "': ");
                push_str(&mut m, e.as_str());
                proof {
                    reveal_strlit("Invalid exclude pattern '");
                    reveal_strlit("': ");
                }
                let ghost exc_pats = built_patterns(self.regex_mode, self.whole_word, self.exclude_terms@);
                assert(m@ =~= invalid_term_message("Invalid exclude pattern '"@, self.exclude_terms@[i as int]@, exc_pats[i as int], self.case_insensitive));
                assert(!all_build(exc_pats, self.case_insensitive));
                let k = self.include_terms.len() + i;
                self.compile_err = Some(MultiSearchError { message: m, term_index: Some(k) });
                return;
            },
        };
        let exc_sources = pattern_sources(&exc);
        if let Some(e) = regex_set_error(&exc_sources, self.case_insensitive) {
            let mut m = String::new();
            push_str(&mut m, "Failed to compile exclude pattern set: ");
            push_str(&mut m, e.as_str());
            proof {
                reveal_strlit("Failed to compile exclude pattern set: ");
            }
            self.compile_err = Some(MultiSearchError { message: m, term_index: None });
            return;
        }
        self.compiled = Some(CompiledMultiSearch { include_patterns: inc, exclude_patterns: exc });
    }
}

/// The pattern texts of compiled patterns, in order.
fn pattern_sources(v: &Vec<CompiledRegex>) -> (r: Vec<String>)
    ensures
        string_views(r@) == sources_of(v@),
{
    let mut out: Vec<String> = Vec::new();
    let mut i: usize = 0;
    while i < v.len()
        invariant
            i <= v.len(),
            string_views(out@) == sources_of(v@.take(i as int)),
        decreases v.len() - i,
    {
        let ghost before = string_views(out@);
        out.push(v[i].source().to_owned());
        assert(string_views(out@) =~= before.push(v@[i as int].source_spec()));
        assert(sources_of(v@.take(i + 1)) =~= sources_of(v@.take(i as int)).push(v@[i as int].source_spec()));
        i += 1;
    }
    assert(v@.take(v@.len() as int) =~= v@);
    out
}

// ---------------------------------------------------------------------------
// Matching
// ---------------------------------------------------------------------------

/// Whether pattern `p` matches `text`.
pub open spec fn pat_matches(p: CompiledRegex, text: Seq<char>) -> bool {
    spec_regex_is_match(p.source_spec(), p.ci_spec(), text)
}

/// How many patterns of `v` match `text`.
pub open spec fn count_matching(v: Seq<CompiledRegex>, text: Seq<char>) -> nat
    decreases v.len(),
{
    if v.len() == 0 {
        0
    } else {
        count_matching(v.drop_last(), text) + if pat_matches(v.last(), text) { 1nat } else { 0nat }
    }
}

/// Some pattern of `v` matches `text`.
pub open spec fn any_matching(v: Seq<CompiledRegex>, text: Seq<char>) -> bool {
    exists|i: int| 0 <= i < v.len() && pat_matches(#[trigger] v[i], text)
}

/// Number of include matches required: `min_match` clamped to
/// `1..=n_include`, or the mode's default.
pub open spec fn required_matches(mode: MultiSearchMode, min_match: Option<usize>, n_include: nat) -> int {
    match min_match {
        Some(n) => {
            let m = if n < n_include { n as int } else { n_include as int };
            if m < 1 { 1 } else { m }
        },
        None => match mode {
            MultiSearchMode::Any => 1,
            MultiSearchMode::All => n_include as int,
        },
    }
}

/// Whether `text` passes the multi-search: no exclude pattern matches it and
/// enough include patterns do (always, when nothing is compiled or there are
/// no include patterns).
pub open spec fn text_passes(ms: &MultiSearch, text: Seq<char>) -> bool {
    match ms.compiled {
        None => true,
        Some(c) => {
            &&& !any_matching(c.exclude_patterns@, text)
            &&& (c.include_patterns@.len() == 0 || count_matching(c.include_patterns@, text)
                >= required_matches(ms.mode, ms.min_match, c.include_patterns@.len()))
        },
    }
}

/// The text searched for an entry: the message, then ` | ` and the thread,
/// then ` | ` and the component, for the fields present.
pub open spec fn combined_fields(message: Seq<char>, thread: Option<Seq<char>>, component: Option<Seq<char>>) -> Seq<char> {
    let a = match thread {
        Some(t) => message + " | "@ + t,
        None => message,
    };
    match component {
        Some(c) => a + " | "@ + c,
        None => a,
    }
}

pub open spec fn opt_str_view(o: Option<&str>) -> Option<Seq<char>> {
    match o {
        Some(s) => Some(s@),
        None => None,
    }
}

fn count_matches_exec(v: &Vec<CompiledRegex>, text: &str) -> (r: usize)
    ensures
        r == count_matching(v@, text@),
{
    let mut n: usize = 0;
    let mut i: usize = 0;
    while i < v.len()
        invariant
            i <= v.len(),
            n == count_matching(v@.take(i as int), text@),
            n <= i,
        decreases v.len() - i,
    {
        assert(v@.take(i + 1).drop_last() =~= v@.take(i as int));
        if v[i].is_match(text) {
            n += 1;
        }
        i += 1;
    }
    assert(v@.take(v@.len() as int) =~= v@);
    n
}

fn any_matches_exec(v: &Vec<CompiledRegex>, text: &str) -> (r: bool)
    ensures
        r == any_matching(v@, text@),
{
    let mut i: usize = 0;
    while i < v.len()
        invariant
            i <= v.len(),
            forall|k: int| 0 <= k < i ==> !pat_matches(#[trigger] v@[k], text@),
        decreases v.len() - i,
    {
        if v[i].is_match(text) {
            assert(pat_matches(v@[i as int], text@));
            return true;
        }
        i += 1;
    }
    false
}

impl MultiSearch {
    /// Whether `text` passes: see `text_passes`.
    pub fn matches_text(&self, text: &str) -> (r: bool)
        ensures
            r == text_passes(self, text@),
    {
        match &self.compiled {
            None => true,
            Some(c) => {
                if any_matches_exec(&c.exclude_patterns, text) {
                    return false;
                }
                if c.include_patterns.len() == 0 {
                    return true;
                }
                let count = count_matches_exec(&c.include_patterns, text);
                let n = c.include_patterns.len();
                let required: usize = match self.min_match {
                    Some(m) => {
                        let k = if m < n { m } else { n };
                        if k < 1 { 1 } else { k }
                    },
                    None => match self.mode {
                        MultiSearchMode::Any => 1,
                        MultiSearchMode::All => n,
                    },
                };
                count >= required
            },
        }
    }

    /// Whether an entry passes, searching its message, thread and component
    /// joined by ` | `.
    pub fn matches_entry(&self, message: &str, thread: Option<&str>, component: Option<&str>) -> (r: bool)
        ensures
            r == text_passes(self, combined_fields(message@, opt_str_view(thread), opt_str_view(component))),
    {
        if self.compiled.is_none() {
            return true;
        }
        let mut combined = String::new();
        push_str(&mut combined, message);
        match thread {
            Some(t) => {
                push_str(&mut combined, " | ");
                push_str(&mut combined, t);
            },
            None => {},
        }
        match component {
            Some(c) => {
                push_str(&mut combined, " | ");
                push_str(&mut combined, c);
            },
            None => {},
        }
        proof {
            reveal_strlit(" | ");
        }
        assert(combined@ =~= combined_fields(message@, opt_str_view(thread), opt_str_view(component)));
        self.matches_text(combined.as_str())
    }
}

// ---------------------------------------------------------------------------
// Highlighting
// ---------------------------------------------------------------------------

/// Lexicographic order on ranges.
pub open spec fn range_le(a: (int, int), b: (int, int)) -> bool {
    a.0 < b.0 || (a.0 == b.0 && a.1 <= b.1)
}

/// Ranges in lexicographic order.
pub open spec fn ranges_sorted(s: Seq<(int, int)>) -> bool {
    forall|i: int, j: int| 0 <= i < j < s.len() ==> range_le(#[trigger] s[i], #[trigger] s[j])
}

/// All match ranges of the patterns in `v`, pattern by pattern.
pub open spec fn all_ranges(v: Seq<CompiledRegex>, text: Seq<char>) -> Seq<(int, int)>
    decreases v.len(),
{
    if v.len() == 0 {
        Seq::empty()
    } else {
        all_ranges(v.drop_last(), text) + spec_regex_find_all(v.last().source_spec(), v.last().ci_spec(), text)
    }
}

/// Merge sorted ranges, starting from the open range `cur`: a range that
/// starts at or before the end of `cur` extends it.
pub open spec fn merge_from(cur: (int, int), rest: Seq<(int, int)>) -> Seq<(int, int)>
    decreases rest.len(),
{
    if rest.len() == 0 {
        seq![cur]
    } else if rest[0].0 <= cur.1 {
        let end = if rest[0].1 > cur.1 { rest[0].1 } else { cur.1 };
        merge_from((cur.0, end), rest.drop_first())
    } else {
        seq![cur] + merge_from(rest[0], rest.drop_first())
    }
}

/// Merge a sorted sequence of ranges.
pub open spec fn merge_ranges(s: Seq<(int, int)>) -> Seq<(int, int)> {
    if s.len() == 0 {
        Seq::empty()
    } else {
        merge_from(s[0], s.drop_first())
    }
}

pub open spec fn range_views(v: Seq<(usize, usize)>) -> Seq<(int, int)> {
    v.map_values(|p: (usize, usize)| (p.0 as int, p.1 as int))
}

/// Sort ranges lexicographically (insertion sort).
fn sort_ranges(v: Vec<(usize, usize)>) -> (r: Vec<(usize, usize)>)
    ensures
        ranges_sorted(range_views(r@)),
        range_views(r@).to_multiset() == range_views(v@).to_multiset(),
{
    let mut out: Vec<(usize, usize)> = Vec::new();
    let mut i: usize = 0;
    broadcast use vstd::seq_lib::group_to_multiset_ensures, vstd::multiset::group_multiset_axioms;
    while i < v.len()
        invariant
            i <= v.len(),
            ranges_sorted(range_views(out@)),
            range_views(out@).to_multiset() == range_views(v@.take(i as int)).to_multiset(),
        decreases v.len() - i,
    {
        let x = v[i];
        let mut j: usize = 0;
        while j < out.len() && (out[j].0 < x.0 || (out[j].0 == x.0 && out[j].1 <= x.1))
            invariant
                j <= out.len(),
                forall|k: int| 0 <= k < j ==> range_le(#[trigger] range_views(out@)[k], (x.0 as int, x.1 as int)),
            decreases out.len() - j,
        {
            j += 1;
        }
        let ghost before = range_views(out@);
        let ghost xv = (x.0 as int, x.1 as int);
        out.insert(j, x);
        proof {
            assert(range_views(out@) =~= before.insert(j as int, xv));
            assert(before.insert(j as int, xv) =~= before.subrange(0, j as int).push(xv) + before.subrange(j as int, before.len() as int));
            vstd::seq_lib::lemma_multiset_commutative(before.subrange(0, j as int).push(xv), before.subrange(j as int, before.len() as int));
            vstd::seq_lib::lemma_multiset_commutative(before.subrange(0, j as int), before.subrange(j as int, before.len() as int));
            assert(before =~= before.subrange(0, j as int) + before.subrange(j as int, before.len() as int));
            assert(range_views(v@.take(i + 1)) =~= range_views(v@.take(i as int)).push(xv));
            assert forall|a: int, b: int| 0 <= a < b < range_views(out@).len() implies
                #[trigger] range_le(range_views(out@)[a], range_views(out@)[b]) by {
                let s = range_views(out@);
                if b < j {
                    assert(s[a] == before[a] && s[b] == before[b]);
                } else if b == j {
                    assert(s[a] == before[a]);
                    assert(range_le(before[a], xv));
                } else if a < j {
                    assert(s[a] == before[a] && s[b] == before[b - 1]);
                    assert(range_le(before[a], before[b - 1]));
                } else if a == j {
                    assert(s[b] == before[b - 1]);
                    assert(!range_le(before[j as int], xv));
                    if j < b - 1 {
                        assert(range_le(before[j as int], before[b - 1]));
                    }
                } else {
                    assert(s[a] == before[a - 1] && s[b] == before[b - 1]);
                    assert(range_le(before[a - 1], before[b - 1]));
                }
            }
            let ghost pa = before.subrange(0, j as int);
            let ghost pb = before.subrange(j as int, before.len() as int);
            pa.to_multiset_ensures();
            range_views(v@.take(i as int)).to_multiset_ensures();
            assert(pa.push(xv).to_multiset() =~= pa.to_multiset().insert(xv));
            assert(range_views(out@).to_multiset() =~= pa.to_multiset().insert(xv).add(pb.to_multiset()));
            assert(before.to_multiset() =~= pa.to_multiset().add(pb.to_multiset()));
            assert(range_views(v@.take(i + 1)).to_multiset() =~= before.to_multiset().insert(xv));
            assert(pa.to_multiset().insert(xv).add(pb.to_multiset()) =~= pa.to_multiset().add(pb.to_multiset()).insert(xv));
            assert(range_views(out@).to_multiset() =~= range_views(v@.take(i + 1)).to_multiset());
        }
        i += 1;
    }
    assert(v@.take(v@.len() as int) =~= v@);
    out
}

impl MultiSearch {
    /// Byte ranges of every include match in `text`, sorted and with
    /// overlapping or touching ranges merged.  Empty when nothing is compiled.
    pub fn highlight_matches(&self, text: &str) -> (r: Vec<(usize, usize)>)
        ensures
            match self.compiled {
                None => r@.len() == 0,
                Some(c) => exists|s: Seq<(int, int)>|
                    ranges_sorted(s)
                    && s.to_multiset() == all_ranges(c.include_patterns@, text@).to_multiset()
                    && range_views(r@) == merge_ranges(s),
            },
    {
        match &self.compiled {
            None => Vec::new(),
            Some(c) => {
                let mut ranges: Vec<(usize, usize)> = Vec::new();
                let mut i: usize = 0;
                while i < c.include_patterns.len()
                    invariant
                        i <= c.include_patterns.len(),
                        range_views(ranges@) == all_ranges(c.include_patterns@.take(i as int), text@),
                    decreases c.include_patterns.len() - i,
                {
                    let found = c.include_patterns[i].find_all(text);
                    let ghost before = range_views(ranges@);
                    let mut k: usize = 0;
                    while k < found.len()
                        invariant
                            k <= found.len(),
                            range_views(ranges@) == before + range_views(found@.take(k as int)),
                        decreases found.len() - k,
                    {
                        let ghost rv_old = range_views(ranges@);
                        ranges.push(found[k]);
                        assert(range_views(ranges@) =~= rv_old.push((found@[k as int].0 as int, found@[k as int].1 as int)));
                        assert(range_views(found@.take(k + 1)) =~= range_views(found@.take(k as int)).push((found@[k as int].0 as int, found@[k as int].1 as int)));
                        assert(range_views(ranges@) =~= before + range_views(found@.take(k + 1)));
                        k += 1;
                    }
                    assert(found@.take(found@.len() as int) =~= found@);
                    assert(c.include_patterns@.take(i + 1).drop_last() =~= c.include_patterns@.take(i as int));
                    i += 1;
                }
                assert(c.include_patterns@.take(c.include_patterns@.len() as int) =~= c.include_patterns@);
                let sorted = sort_ranges(ranges);
                let ghost s = range_views(sorted@);
                if sorted.len() == 0 {
                    let empty: Vec<(usize, usize)> = Vec::new();
                    assert(range_views(empty@) =~= merge_ranges(s));
                    return empty;
                }
                let mut merged: Vec<(usize, usize)> = Vec::new();
                let mut current = sorted[0];
                let mut j: usize = 1;
                while j < sorted.len()
                    invariant
                        1 <= j <= sorted.len(),
                        s == range_views(sorted@),
                        range_views(merged@) + merge_from((current.0 as int, current.1 as int), s.subrange(j as int, s.len() as int))
                            == merge_ranges(s),
                    decreases sorted.len() - j,
                {
                    let ghost rest = s.subrange(j as int, s.len() as int);
                    assert(rest.drop_first() =~= s.subrange(j + 1, s.len() as int));
                    let (start, end) = sorted[j];
                    if start <= current.1 {
                        if end > current.1 {
                            current.1 = end;
                        }
                    } else {
                        let ghost before = range_views(merged@);
                        let ghost cv = (current.0 as int, current.1 as int);
                        merged.push(current);
                        assert(range_views(merged@) =~= before.push(cv));
                        current = (start, end);
                        assert(range_views(merged@) + merge_from((current.0 as int, current.1 as int), s.subrange(j + 1, s.len() as int))
                            =~= before + (seq![cv] + merge_from(rest[0], rest.drop_first())));
                    }
                    j += 1;
                }
                let ghost before = range_views(merged@);
                let ghost cv = (current.0 as int, current.1 as int);
                merged.push(current);
                assert(range_views(merged@) =~= before + seq![cv]);
                merged
            },
        }
    }
}


// ---------------------------------------------------------------------------
// Laws
// ---------------------------------------------------------------------------

/// The terms parsed from a token sequence are distinct, and a text is an
/// include (or exclude) term exactly when some token yields it as one; a
/// term is never empty.
pub proof fn law_parsed_terms_are_distinct_and_complete(toks: Seq<Seq<char>>)
    ensures
        collect_terms(toks).0.no_duplicates(),
        collect_terms(toks).1.no_duplicates(),
        forall|t: Seq<char>| #[trigger] collect_terms(toks).0.contains(t) <==>
            exists|i: int| 0 <= i < toks.len() && classify_token(#[trigger] toks[i]) == Some((false, t)),
        forall|t: Seq<char>| #[trigger] collect_terms(toks).1.contains(t) <==>
            exists|i: int| 0 <= i < toks.len() && classify_token(#[trigger] toks[i]) == Some((true, t)),
        forall|j: int| 0 <= j < collect_terms(toks).0.len() ==> (#[trigger] collect_terms(toks).0[j]).len() > 0,
        forall|j: int| 0 <= j < collect_terms(toks).1.len() ==> (#[trigger] collect_terms(toks).1[j]).len() > 0,
    decreases toks.len(),
{
    if toks.len() > 0 {
        let d = toks.drop_last();
        law_parsed_terms_are_distinct_and_complete(d);
        let (inc0, exc0) = collect_terms(d);
        let (inc, exc) = collect_terms(toks);
        let last = toks.last();
        assert forall|i: int| 0 <= i < d.len() implies #[trigger] d[i] == toks[i] by {}
        match classify_token(last) {
            Some((true, t)) => {
                assert(t.len() > 0);
            },
            Some((false, t)) => {
                assert(t.len() > 0);
            },
            None => {},
        }
        assert forall|t: Seq<char>| #[trigger] inc.contains(t) <==>
            exists|i: int| 0 <= i < toks.len() && classify_token(#[trigger] toks[i]) == Some((false, t)) by {
            if inc.contains(t) {
                if inc0.contains(t) {
                    let i = choose|i: int| 0 <= i < d.len() && classify_token(#[trigger] d[i]) == Some((false, t));
                    assert(toks[i] == d[i]);
                } else {
                    assert(classify_token(toks[toks.len() - 1]) == Some((false, t)));
                }
            }
            if exists|i: int| 0 <= i < toks.len() && classify_token(#[trigger] toks[i]) == Some((false, t)) {
                let i = choose|i: int| 0 <= i < toks.len() && classify_token(#[trigger] toks[i]) == Some((false, t));
                if i < d.len() {
                    assert(d[i] == toks[i]);
                    assert(inc0.contains(t));
                    let j = choose|j: int| 0 <= j < inc0.len() && inc0[j] == t;
                    assert(inc[j] == t);
                } else if !inc0.contains(t) {
                    assert(inc[inc.len() - 1] == t);
                }
            }
        }
        assert forall|t: Seq<char>| #[trigger] exc.contains(t) <==>
            exists|i: int| 0 <= i < toks.len() && classify_token(#[trigger] toks[i]) == Some((true, t)) by {
            if exc.contains(t) {
                if exc0.contains(t) {
                    let i = choose|i: int| 0 <= i < d.len() && classify_token(#[trigger] d[i]) == Some((true, t));
                    assert(toks[i] == d[i]);
                } else {
                    assert(classify_token(toks[toks.len() - 1]) == Some((true, t)));
                }
            }
            if exists|i: int| 0 <= i < toks.len() && classify_token(#[trigger] toks[i]) == Some((true, t)) {
                let i = choose|i: int| 0 <= i < toks.len() && classify_token(#[trigger] toks[i]) == Some((true, t));
                if i < d.len() {
                    assert(d[i] == toks[i]);
                    assert(exc0.contains(t));
                    let j = choose|j: int| 0 <= j < exc0.len() && exc0[j] == t;
                    assert(exc[j] == t);
                } else if !exc0.contains(t) {
                    assert(exc[exc.len() - 1] == t);
                }
            }
        }
        assert forall|j: int| 0 <= j < inc.len() implies (#[trigger] inc[j]).len() > 0 by {
            if j < inc0.len() {
                assert(inc[j] == inc0[j]);
            }
        }
        assert forall|j: int| 0 <= j < exc.len() implies (#[trigger] exc[j]).len() > 0 by {
            if j < exc0.len() {
                assert(exc[j] == exc0[j]);
            }
        }
    }
}

/// Each range starts no later than it ends.
pub open spec fn ranges_wf(s: Seq<(int, int)>) -> bool {
    forall|i: int| 0 <= i < s.len() ==> (#[trigger] s[i]).0 <= s[i].1
}

/// Ranges that neither touch nor overlap, in increasing order.
pub open spec fn ranges_separated(s: Seq<(int, int)>) -> bool {
    forall|i: int, j: int| 0 <= i < j < s.len() ==> (#[trigger] s[i]).1 < (#[trigger] s[j]).0
}

/// Range `a` lies inside range `b`.
pub open spec fn range_within(a: (int, int), b: (int, int)) -> bool {
    b.0 <= a.0 && a.1 <= b.1
}

proof fn lemma_merge_from(cur: (int, int), rest: Seq<(int, int)>)
    requires
        cur.0 <= cur.1,
        ranges_sorted(rest),
        ranges_wf(rest),
        forall|i: int| 0 <= i < rest.len() ==> cur.0 <= (#[trigger] rest[i]).0,
    ensures
        merge_from(cur, rest).len() > 0,
        merge_from(cur, rest)[0].0 == cur.0,
        range_within(cur, merge_from(cur, rest)[0]),
        ranges_wf(merge_from(cur, rest)),
        ranges_separated(merge_from(cur, rest)),
        forall|i: int| 0 <= i < merge_from(cur, rest).len() ==> cur.0 <= (#[trigger] merge_from(cur, rest)[i]).0,
        forall|i: int| 0 <= i < rest.len() ==> exists|j: int| 0 <= j < merge_from(cur, rest).len()
            && range_within(#[trigger] rest[i], #[trigger] merge_from(cur, rest)[j]),
    decreases rest.len(),
{
    let r = merge_from(cur, rest);
    if rest.len() > 0 {
        let tail = rest.drop_first();
        assert(ranges_sorted(tail)) by {
            assert forall|i: int, j: int| 0 <= i < j < tail.len() implies range_le(#[trigger] tail[i], #[trigger] tail[j]) by {
                assert(tail[i] == rest[i + 1] && tail[j] == rest[j + 1]);
            }
        }
        assert(ranges_wf(tail)) by {
            assert forall|i: int| 0 <= i < tail.len() implies (#[trigger] tail[i]).0 <= tail[i].1 by {
                assert(tail[i] == rest[i + 1]);
            }
        }
        assert(rest[0].0 <= rest[0].1);
        if rest[0].0 <= cur.1 {
            let end = if rest[0].1 > cur.1 { rest[0].1 } else { cur.1 };
            let c2 = (cur.0, end);
            assert forall|i: int| 0 <= i < tail.len() implies c2.0 <= (#[trigger] tail[i]).0 by {
                assert(tail[i] == rest[i + 1]);
            }
            lemma_merge_from(c2, tail);
            assert(r == merge_from(c2, tail));
            assert forall|i: int| 0 <= i < rest.len() implies exists|j: int| 0 <= j < r.len()
                && range_within(#[trigger] rest[i], #[trigger] r[j]) by {
                if i == 0 {
                    assert(range_within(rest[0], r[0]));
                } else {
                    assert(rest[i] == tail[i - 1]);
                    let j = choose|j: int| 0 <= j < r.len() && range_within(#[trigger] tail[i - 1], #[trigger] r[j]);
                    assert(range_within(rest[i], r[j]));
                }
            }
        } else {
            assert forall|i: int| 0 <= i < tail.len() implies rest[0].0 <= (#[trigger] tail[i]).0 by {
                assert(tail[i] == rest[i + 1]);
                assert(range_le(rest[0], rest[i + 1]));
            }
            lemma_merge_from(rest[0], tail);
            let t = merge_from(rest[0], tail);
            assert(r == seq![cur] + t);
            assert forall|i: int| 0 <= i < r.len() implies (#[trigger] r[i]).0 <= r[i].1 by {
                if i > 0 {
                    assert(r[i] == t[i - 1]);
                }
            }
            assert forall|i: int, j: int| 0 <= i < j < r.len() implies (#[trigger] r[i]).1 < (#[trigger] r[j]).0 by {
                assert(r[j] == t[j - 1]);
                if i > 0 {
                    assert(r[i] == t[i - 1]);
                } else {
                    assert(rest[0].0 <= t[j - 1].0);
                }
            }
            assert forall|i: int| 0 <= i < r.len() implies cur.0 <= (#[trigger] r[i]).0 by {
                if i > 0 {
                    assert(r[i] == t[i - 1]);
                }
            }
            assert forall|i: int| 0 <= i < rest.len() implies exists|j: int| 0 <= j < r.len()
                && range_within(#[trigger] rest[i], #[trigger] r[j]) by {
                if i == 0 {
                    assert(range_within(rest[0], t[0]));
                    assert(r[1] == t[0]);
                } else {
                    assert(rest[i] == tail[i - 1]);
                    let j = choose|j: int| 0 <= j < t.len() && range_within(#[trigger] tail[i - 1], #[trigger] t[j]);
                    assert(r[j + 1] == t[j]);
                    assert(range_within(rest[i], r[j + 1]));
                }
            }
        }
    }
}

/// Point `x` lies in one of the (half-open) ranges of `s`.
pub open spec fn covers(s: Seq<(int, int)>, x: int) -> bool {
    exists|i: int| 0 <= i < s.len() && (#[trigger] s[i]).0 <= x && x < s[i].1
}

proof fn lemma_merge_from_points(cur: (int, int), rest: Seq<(int, int)>, x: int)
    requires
        covers(merge_from(cur, rest), x),
    ensures
        (cur.0 <= x && x < cur.1) || covers(rest, x),
    decreases rest.len(),
{
    let m = merge_from(cur, rest);
    if rest.len() == 0 {
        let j = choose|j: int| 0 <= j < m.len() && (#[trigger] m[j]).0 <= x && x < m[j].1;
        assert(m[j] == cur);
    } else {
        let tail = rest.drop_first();
        if rest[0].0 <= cur.1 {
            let end = if rest[0].1 > cur.1 { rest[0].1 } else { cur.1 };
            lemma_merge_from_points((cur.0, end), tail, x);
            if covers(tail, x) {
                let i = choose|i: int| 0 <= i < tail.len() && (#[trigger] tail[i]).0 <= x && x < tail[i].1;
                assert(rest[i + 1] == tail[i]);
            } else if !(cur.0 <= x && x < cur.1) {
                assert(rest[0].0 <= x && x < rest[0].1);
            }
        } else {
            let t = merge_from(rest[0], tail);
            assert(m == seq![cur] + t);
            let j = choose|j: int| 0 <= j < m.len() && (#[trigger] m[j]).0 <= x && x < m[j].1;
            if j > 0 {
                assert(t[j - 1] == m[j]);
                assert(covers(t, x));
                lemma_merge_from_points(rest[0], tail, x);
                if covers(tail, x) {
                    let i = choose|i: int| 0 <= i < tail.len() && (#[trigger] tail[i]).0 <= x && x < tail[i].1;
                    assert(rest[i + 1] == tail[i]);
                } else {
                    assert(rest[0].0 <= x && x < rest[0].1);
                }
            } else {
                assert(m[0] == cur);
            }
        }
    }
}

/// Merging covers exactly the points of the input ranges: a point lies in
/// a merged range exactly when it lies in an input range.
pub proof fn law_merged_ranges_cover_exactly(s: Seq<(int, int)>, x: int)
    requires
        ranges_sorted(s),
        ranges_wf(s),
    ensures
        covers(merge_ranges(s), x) <==> covers(s, x),
{
    law_merged_ranges_are_separated_and_cover(s);
    let m = merge_ranges(s);
    if covers(s, x) {
        let i = choose|i: int| 0 <= i < s.len() && (#[trigger] s[i]).0 <= x && x < s[i].1;
        let j = choose|j: int| 0 <= j < m.len() && range_within(#[trigger] s[i], #[trigger] m[j]);
        assert(m[j].0 <= x && x < m[j].1);
    }
    if covers(m, x) {
        lemma_merge_from_points(s[0], s.drop_first(), x);
        if !(s[0].0 <= x && x < s[0].1) {
            let i = choose|i: int| 0 <= i < s.drop_first().len() && (#[trigger] s.drop_first()[i]).0 <= x && x < s.drop_first()[i].1;
            assert(s[i + 1] == s.drop_first()[i]);
        }
    }
}

/// Merging sorted, well-formed ranges gives well-formed ranges in increasing
/// order that neither overlap nor touch, and every input range lies inside
/// one of them.
pub proof fn law_merged_ranges_are_separated_and_cover(s: Seq<(int, int)>)
    requires
        ranges_sorted(s),
        ranges_wf(s),
    ensures
        ranges_wf(merge_ranges(s)),
        ranges_separated(merge_ranges(s)),
        forall|i: int| 0 <= i < s.len() ==> exists|j: int| 0 <= j < merge_ranges(s).len()
            && range_within(#[trigger] s[i], #[trigger] merge_ranges(s)[j]),
{
    if s.len() > 0 {
        let tail = s.drop_first();
        assert(ranges_sorted(tail)) by {
            assert forall|i: int, j: int| 0 <= i < j < tail.len() implies range_le(#[trigger] tail[i], #[trigger] tail[j]) by {
                assert(tail[i] == s[i + 1] && tail[j] == s[j + 1]);
            }
        }
        assert(ranges_wf(tail)) by {
            assert forall|i: int| 0 <= i < tail.len() implies (#[trigger] tail[i]).0 <= tail[i].1 by {
                assert(tail[i] == s[i + 1]);
            }
        }
        assert(s[0].0 <= s[0].1);
        assert forall|i: int| 0 <= i < tail.len() implies s[0].0 <= (#[trigger] tail[i]).0 by {
            assert(tail[i] == s[i + 1]);
            assert(range_le(s[0], s[i + 1]));
        }
        lemma_merge_from(s[0], tail);
        let m = merge_ranges(s);
        assert forall|i: int| 0 <= i < s.len() implies exists|j: int| 0 <= j < m.len()
            && range_within(#[trigger] s[i], #[trigger] m[j]) by {
            if i == 0 {
                assert(range_within(s[0], m[0]));
            } else {
                assert(s[i] == tail[i - 1]);
                let j = choose|j: int| 0 <= j < m.len() && range_within(#[trigger] tail[i - 1], #[trigger] m[j]);
            }
        }
    }
}

proof fn lemma_all_ranges_has_each(v: Seq<CompiledRegex>, text: Seq<char>, i: int, r: (int, int))
    requires
        0 <= i < v.len(),
        spec_regex_find_all(v[i].source_spec(), v[i].ci_spec(), text).contains(r),
    ensures
        all_ranges(v, text).contains(r),
    decreases v.len(),
{
    let prev = all_ranges(v.drop_last(), text);
    let last = spec_regex_find_all(v.last().source_spec(), v.last().ci_spec(), text);
    assert(all_ranges(v, text) == prev + last);
    if i == v.len() - 1 {
        let q = choose|q: int| 0 <= q < last.len() && last[q] == r;
        assert((prev + last)[prev.len() + q] == r);
    } else {
        assert(v.drop_last()[i] == v[i]);
        lemma_all_ranges_has_each(v.drop_last(), text, i, r);
        let q = choose|q: int| 0 <= q < prev.len() && prev[q] == r;
        assert((prev + last)[q] == r);
    }
}

proof fn lemma_all_ranges_wf(v: Seq<CompiledRegex>, text: Seq<char>)
    requires
        forall|k: int| 0 <= k < v.len() ==> ranges_wf(#[trigger] spec_regex_find_all(v[k].source_spec(), v[k].ci_spec(), text)),
    ensures
        ranges_wf(all_ranges(v, text)),
    decreases v.len(),
{
    if v.len() > 0 {
        let d = v.drop_last();
        assert forall|k: int| 0 <= k < d.len() implies ranges_wf(#[trigger] spec_regex_find_all(d[k].source_spec(), d[k].ci_spec(), text)) by {
            assert(d[k] == v[k]);
        }
        lemma_all_ranges_wf(d, text);
        let prev = all_ranges(d, text);
        let last = spec_regex_find_all(v.last().source_spec(), v.last().ci_spec(), text);
        assert(ranges_wf(last)) by {
            assert(v.last() == v[v.len() - 1]);
        }
        let a = all_ranges(v, text);
        assert(a == prev + last);
        assert forall|i: int| 0 <= i < a.len() implies (#[trigger] a[i]).0 <= a[i].1 by {
            if i < prev.len() {
                assert(a[i] == prev[i]);
            } else {
                assert(a[i] == last[i - prev.len()]);
            }
        }
    }
}

/// Highlighting covers every include term: given the match ranges of the
/// include patterns (well-formed, as the regex crate gives them), every
/// match range of every include pattern lies inside one of the merged
/// ranges that `highlight_matches` returns.
pub proof fn law_highlight_covers_every_include_match(v: Seq<CompiledRegex>, text: Seq<char>, s: Seq<(int, int)>,
    i: int, r: (int, int))
    requires
        forall|k: int| 0 <= k < v.len() ==> ranges_wf(#[trigger] spec_regex_find_all(v[k].source_spec(), v[k].ci_spec(), text)),
        ranges_sorted(s),
        s.to_multiset() == all_ranges(v, text).to_multiset(),
        0 <= i < v.len(),
        spec_regex_find_all(v[i].source_spec(), v[i].ci_spec(), text).contains(r),
    ensures
        exists|j: int| 0 <= j < merge_ranges(s).len() && range_within(r, #[trigger] merge_ranges(s)[j]),
{
    broadcast use vstd::seq_lib::group_to_multiset_ensures;
    lemma_all_ranges_has_each(v, text, i, r);
    lemma_all_ranges_wf(v, text);
    let a = all_ranges(v, text);
    s.to_multiset_ensures();
    a.to_multiset_ensures();
    assert(a.to_multiset().count(r) > 0);
    assert(s.contains(r));
    assert(ranges_wf(s)) by {
        assert forall|q: int| 0 <= q < s.len() implies (#[trigger] s[q]).0 <= s[q].1 by {
            assert(s.contains(s[q]));
            assert(s.to_multiset().count(s[q]) > 0);
            assert(a.contains(s[q]));
            let p = choose|p: int| 0 <= p < a.len() && a[p] == s[q];
        }
    }
    law_merged_ranges_are_separated_and_cover(s);
    let q = choose|q: int| 0 <= q < s.len() && s[q] == r;
    let j = choose|j: int| 0 <= j < merge_ranges(s).len() && range_within(#[trigger] s[q], #[trigger] merge_ranges(s)[j]);
    assert(range_within(r, merge_ranges(s)[j]));
}

} // verus!
