//! Compiled regular expressions.  Matching itself is done by the `regex`
//! crate; this module keeps each compiled expression together with the
//! source text and flags it was built from, so that contracts can speak of
//! the results in terms of those plain values.
use vstd::prelude::*;
use vstd::string::StringSliceAdditionalSpecFns;

verus! {

#[verifier::external_type_specification]
#[verifier::external_body]
pub struct ExRegex(regex::Regex);

/// Outcome of building a regex from `pattern` with the given case flag:
/// `None` when `regex::RegexBuilder::build` accepts it, otherwise the text of
/// the error it reports.
pub uninterp spec fn spec_regex_build(pattern: Seq<char>, case_insensitive: bool) -> Option<Seq<char>>;

/// `Regex::is_match` of the regex built from `pattern` on `text`.
pub uninterp spec fn spec_regex_is_match(pattern: Seq<char>, case_insensitive: bool, text: Seq<char>) -> bool;

/// `Regex::capture_names` of the regex built from `pattern`: one entry per
/// capture group, group 0 (the whole match) first.
pub uninterp spec fn spec_regex_group_names(pattern: Seq<char>, case_insensitive: bool) -> Seq<Option<Seq<char>>>;

/// `Regex::captures` of the regex built from `pattern` on `text`: `None` when
/// there is no match, otherwise the text of every group (`None` for a group
/// that did not participate).
pub uninterp spec fn spec_regex_captures(pattern: Seq<char>, case_insensitive: bool, text: Seq<char>) -> Option<Seq<Option<Seq<char>>>>;

/// `Regex::captures_iter` of the regex built from `pattern` on `text`: the
/// groups of each successive non-overlapping match.
pub uninterp spec fn spec_regex_captures_all(pattern: Seq<char>, case_insensitive: bool, text: Seq<char>) -> Seq<Seq<Option<Seq<char>>>>;

/// `Regex::find_iter` of the regex built from `pattern` on `text`: byte
/// offsets `(start, end)` of each successive non-overlapping match.
pub uninterp spec fn spec_regex_find_all(pattern: Seq<char>, case_insensitive: bool, text: Seq<char>) -> Seq<(int, int)>;

/// `Regex::replace_all(text, replacement)` of the regex built from `pattern`.
pub uninterp spec fn spec_regex_replace_all(pattern: Seq<char>, case_insensitive: bool, text: Seq<char>, replacement: Seq<char>) -> Seq<char>;

/// `Regex::find` of the regex built from `pattern` on `text`: the text of
/// the leftmost-first match, if any.
pub uninterp spec fn spec_regex_find(pattern: Seq<char>, case_insensitive: bool, text: Seq<char>) -> Option<Seq<char>>;

/// `regex::escape(text)`: `text` with every regex meta character escaped.
pub uninterp spec fn spec_regex_escape(text: Seq<char>) -> Seq<char>;

/// `regex::RegexSetBuilder::new(patterns).case_insensitive(ci).build()`:
/// the error text, or `None` when the set builds.
pub uninterp spec fn spec_regex_set_build(patterns: Seq<Seq<char>>, case_insensitive: bool) -> Option<Seq<char>>;

/// Wraps `regex::RegexSetBuilder::new(patterns).case_insensitive(ci).build()`,
/// giving the error's display text when the set cannot be built (for
/// patterns that each build alone, only its size limits can refuse it).
/// The contract says only that the outcome is the one named by
/// `spec_regex_set_build`.
#[verifier::external_body]
pub(crate) fn regex_set_error(patterns: &Vec<String>, case_insensitive: bool) -> (r: Option<String>)
    ensures
        opt_view(r) == spec_regex_set_build(crate::text::string_views(patterns@), case_insensitive),
{
    regex::RegexSetBuilder::new(patterns).case_insensitive(case_insensitive).build().err().map(|e| e.to_string())
}

/// Wraps `regex::RegexBuilder::new(pattern).case_insensitive(ci).build()`,
/// turning the error into its display text.  The contract says only that
/// the outcome is the one named by `spec_regex_build`.
#[verifier::external_body]
fn build_regex(pattern: &str, case_insensitive: bool) -> (r: Result<regex::Regex, String>)
    ensures
        r is Ok <==> spec_regex_build(pattern@, case_insensitive) is None,
        r matches Err(m) ==> spec_regex_build(pattern@, case_insensitive) == Some(m@),
{
    regex::RegexBuilder::new(pattern).case_insensitive(case_insensitive).build().map_err(|e| e.to_string())
}

/// Wraps `regex::escape`.
#[verifier::external_body]
pub fn regex_escape(text: &str) -> (r: String)
    ensures
        r@ == spec_regex_escape(text@),
{
    regex::escape(text)
}

/// A compiled regular expression together with the pattern text and case
/// flag it was built from.  The fields are private and only `CompiledRegex::new`
/// fills them, so `compiled` is always the regex built from `source` and
/// `case_insensitive`.
pub struct CompiledRegex {
    source: String,
    case_insensitive: bool,
    compiled: regex::Regex,
}

impl CompiledRegex {
    /// The pattern text.
    pub closed spec fn source_spec(&self) -> Seq<char> {
        self.source@
    }

    /// Whether matching ignores case.
    pub closed spec fn ci_spec(&self) -> bool {
        self.case_insensitive
    }

    /// Compile `source`; on failure the error text of the regex crate.
    pub fn new(source: &str, case_insensitive: bool) -> (r: Result<CompiledRegex, String>)
        ensures
            r is Ok <==> spec_regex_build(source@, case_insensitive) is None,
            r matches Ok(p) ==> p.source_spec() == source@ && p.ci_spec() == case_insensitive,
            r matches Err(m) ==> spec_regex_build(source@, case_insensitive) == Some(m@),
    {
        match build_regex(source, case_insensitive) {
            Ok(compiled) => Ok(CompiledRegex { source: source.to_owned(), case_insensitive, compiled }),
            Err(m) => Err(m),
        }
    }

    /// The pattern text.
    pub fn source(&self) -> (r: &str)
        ensures
            r@ == self.source_spec(),
    {
        self.source.as_str()
    }

    /// Whether matching ignores case.
    pub fn case_insensitive(&self) -> (r: bool)
        ensures
            r == self.ci_spec(),
    {
        self.case_insensitive
    }

    /// Wraps `Regex::is_match`.
    #[verifier::external_body]
    pub fn is_match(&self, text: &str) -> (b: bool)
        ensures
            b == spec_regex_is_match(self.source_spec(), self.ci_spec(), text@),
    {
        self.compiled.is_match(text)
    }

    /// Wraps `Regex::find`, giving the matched text.
    #[verifier::external_body]
    pub fn find(&self, text: &str) -> (r: Option<String>)
        ensures
            opt_view(r) == spec_regex_find(self.source_spec(), self.ci_spec(), text@),
    {
        self.compiled.find(text).map(|m| m.as_str().to_string())
    }

    /// Wraps `Regex::capture_names`.
    #[verifier::external_body]
    pub fn group_names(&self) -> (r: Vec<Option<String>>)
        ensures
            r@.map_values(|o: Option<String>| opt_view(o)) == spec_regex_group_names(self.source_spec(), self.ci_spec()),
    {
        self.compiled.capture_names().map(|n| n.map(|s| s.to_string())).collect()
    }

    /// Wraps `Regex::captures`; `captures.get(i)` for every group.
    #[verifier::external_body]
    pub fn captures(&self, text: &str) -> (r: Option<Vec<Option<String>>>)
        ensures
            r is Some <==> spec_regex_is_match(self.source_spec(), self.ci_spec(), text@),
            spec_regex_captures(self.source_spec(), self.ci_spec(), text@) == match r {
                Some(v) => Some(v@.map_values(|o: Option<String>| opt_view(o))),
                None => None,
            },
    {
        self.compiled.captures(text).map(|c| c.iter().map(|m| m.map(|m| m.as_str().to_string())).collect())
    }

    /// Wraps `Regex::captures_iter`.
    #[verifier::external_body]
    pub fn captures_all(&self, text: &str) -> (r: Vec<Vec<Option<String>>>)
        ensures
            r@.map_values(|g: Vec<Option<String>>| g@.map_values(|o: Option<String>| opt_view(o)))
                == spec_regex_captures_all(self.source_spec(), self.ci_spec(), text@),
    {
        self.compiled.captures_iter(text).map(|c| c.iter().map(|m| m.map(|m| m.as_str().to_string())).collect()).collect()
    }

    /// Wraps `Regex::find_iter`, giving the byte offsets of each match.
    #[verifier::external_body]
    pub fn find_all(&self, text: &str) -> (r: Vec<(usize, usize)>)
        ensures
            r@.map_values(|p: (usize, usize)| (p.0 as int, p.1 as int)) == spec_regex_find_all(self.source_spec(), self.ci_spec(), text@),
            forall|i: int| 0 <= i < r.len() ==> (#[trigger] r@[i]).0 <= r@[i].1 <= text.spec_bytes().len(),
    {
        self.compiled.find_iter(text).map(|m| (m.start(), m.end())).collect()
    }

    /// Wraps `Regex::replace_all`: every match replaced by `replacement`, in
    /// which `$name` / `${name}` / `$1` expand to the match's groups as the
    /// regex crate defines it.
    #[verifier::external_body]
    pub fn replace_all(&self, text: &str, replacement: &str) -> (r: String)
        ensures
            r@ == spec_regex_replace_all(self.source_spec(), self.ci_spec(), text@, replacement@),
    {
        self.compiled.replace_all(text, replacement).into_owned()
    }
}

/// The view of an optional string.
pub open spec fn opt_view(o: Option<String>) -> Option<Seq<char>> {
    match o {
        Some(s) => Some(s@),
        None => None,
    }
}

#[verifier::external_type_specification]
#[verifier::external_body]
pub struct ExGlobPattern(glob::Pattern);

/// `glob::Pattern::new(pattern)` succeeds.
pub uninterp spec fn spec_glob_valid(pattern: Seq<char>) -> bool;

/// `glob::Pattern::matches(name)` of the glob built from `pattern`.
pub uninterp spec fn spec_glob_matches(pattern: Seq<char>, name: Seq<char>) -> bool;

/// Wraps `glob::Pattern::new`; the outcome is named by `spec_glob_valid`.
#[verifier::external_body]
fn build_glob(pattern: &str) -> (r: Option<glob::Pattern>)
    ensures
        r is Some <==> spec_glob_valid(pattern@),
{
    glob::Pattern::new(pattern).ok()
}

/// A compiled glob together with its source text.
pub struct Glob {
    source: String,
    compiled: glob::Pattern,
}

impl Glob {
    /// The glob text.
    pub closed spec fn source_spec(&self) -> Seq<char> {
        self.source@
    }

    /// Compile `source`; `None` when it is not a valid glob.
    pub fn new(source: &str) -> (r: Option<Glob>)
        ensures
            r is Some <==> spec_glob_valid(source@),
            r matches Some(g) ==> g.source_spec() == source@,
    {
        match build_glob(source) {
            Some(compiled) => Some(Glob { source: source.to_owned(), compiled }),
            None => None,
        }
    }

    /// The glob text (what `glob::Pattern::as_str` gives).
    pub fn source(&self) -> (r: &str)
        ensures
            r@ == self.source_spec(),
    {
        self.source.as_str()
    }

    /// Wraps `glob::Pattern::matches`.
    #[verifier::external_body]
    pub fn matches(&self, name: &str) -> (b: bool)
        ensures
            b == spec_glob_matches(self.source_spec(), name@),
    {
        self.compiled.matches(name)
    }
}

} // verus!
