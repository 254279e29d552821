//! Format profiles: validation of a profile definition, compilation of its
//! regexes, and auto-detection of a file's format from sample lines.
use vstd::prelude::*;
use crate::constants::{AUTO_DETECT_MIN_CONFIDENCE_DEN, AUTO_DETECT_MIN_CONFIDENCE_NUM, MAX_REGEX_PATTERN_LENGTH};
use crate::filter::utf8_len;
use crate::model::{Confidence, FormatProfile, MultilineMode, SeverityMapping};
use crate::text::string_views;
use crate::pattern::{CompiledRegex, Glob, spec_glob_matches, spec_glob_valid, spec_regex_build, spec_regex_is_match};

verus! {

/// `[profile]` table of a profile definition.
pub struct ProfileMeta {
    pub id: String,
    pub name: String,
    pub version: String,
    pub description: String,
}

/// `[detection]` table.
pub struct DetectionDef {
    pub file_patterns: Vec<String>,
    pub content_match: String,
}

/// `[parsing]` table.
pub struct ParsingDef {
    pub line_pattern: String,
    pub timestamp_format: String,
    pub multiline_mode: MultilineMode,
}

/// `[severity_mapping]` table.
pub struct SeverityMappingDef {
    pub critical: Vec<String>,
    pub error: Vec<String>,
    pub warning: Vec<String>,
    pub info: Vec<String>,
    pub debug: Vec<String>,
}

impl Default for SeverityMappingDef {
    fn default() -> (r: Self)
        ensures
            r.critical@.len() == 0 && r.error@.len() == 0 && r.warning@.len() == 0
                && r.info@.len() == 0 && r.debug@.len() == 0,
    {
        SeverityMappingDef { critical: Vec::new(), error: Vec::new(), warning: Vec::new(), info: Vec::new(), debug: Vec::new() }
    }
}

/// A profile as written in its TOML file, before validation.
pub struct ProfileDefinition {
    pub profile: ProfileMeta,
    pub detection: DetectionDef,
    pub parsing: ParsingDef,
    pub severity_mapping: SeverityMappingDef,
}

/// The version a definition gets when it names none.
pub fn default_version() -> (r: String)
    ensures
        r@ == "1.0"@,
{
    "1.0".to_owned()
}

/// Why a profile could not be loaded.
#[derive(Debug)]
pub enum ProfileError {
    /// The file is not valid TOML for a profile.
    TomlParse { path: String, message: String },
    /// A required field is empty.
    MissingField { profile_id: String, field: &'static str },
    /// A regex source is longer than allowed.
    RegexTooLong { profile_id: String, field: &'static str, length: usize, max_length: usize },
    /// A regex does not compile.
    InvalidRegex { profile_id: String, field: &'static str, pattern: String, message: String },
    /// The file could not be read.
    Io { path: String, message: String },
    /// The file is larger than allowed.
    FileTooLarge { path: String, size: u64, max_size: u64 },
    /// More profiles than allowed were loaded.
    TooManyProfiles { count: usize, max: usize },
}

// ---------------------------------------------------------------------------
// Validation
// ---------------------------------------------------------------------------

/// Outcome of compiling one regex field: `None` when it compiles, otherwise
/// which error.
pub open spec fn regex_field_error(pattern: Seq<char>) -> Option<bool> {
    if utf8_len(pattern) > MAX_REGEX_PATTERN_LENGTH {
        Some(true)
    } else if spec_regex_build(pattern, false) is Some {
        Some(false)
    } else {
        None
    }
}

/// `e` is the error for regex field `field` with source `pattern`.
pub open spec fn is_regex_error(e: ProfileError, id: Seq<char>, field: Seq<char>, pattern: Seq<char>) -> bool {
    match e {
        ProfileError::RegexTooLong { profile_id, field: f, length, max_length } => {
            &&& regex_field_error(pattern) == Some(true)
            &&& profile_id@ == id && f@ == field
            &&& length == utf8_len(pattern) && max_length == MAX_REGEX_PATTERN_LENGTH
        },
        ProfileError::InvalidRegex { profile_id, field: f, pattern: p, message } => {
            &&& regex_field_error(pattern) == Some(false)
            &&& profile_id@ == id && f@ == field && p@ == pattern
            &&& Some(message@) == spec_regex_build(pattern, false)
        },
        _ => false,
    }
}

/// `e` reports the empty required field `field`.
pub open spec fn is_missing(e: ProfileError, id: Seq<char>, field: Seq<char>) -> bool {
    e matches ProfileError::MissingField { profile_id, field: f } && profile_id@ == id && f@ == field
}

/// The runtime profile holds the definition's values and compiled regexes.
pub open spec fn compiled_from(p: &FormatProfile, def: &ProfileDefinition, is_builtin: bool) -> bool {
    &&& p.id@ == def.profile.id@
    &&& p.name@ == def.profile.name@
    &&& p.version@ == def.profile.version@
    &&& p.description@ == def.profile.description@
    &&& string_views(p.file_patterns@) == string_views(def.detection.file_patterns@)
    &&& p.content_match.source_spec() == def.detection.content_match@ && !p.content_match.ci_spec()
    &&& p.line_pattern.source_spec() == def.parsing.line_pattern@ && !p.line_pattern.ci_spec()
    &&& p.timestamp_format@ == def.parsing.timestamp_format@
    &&& p.multiline_mode == def.parsing.multiline_mode
    &&& string_views(p.severity_mapping.critical@) == string_views(def.severity_mapping.critical@)
    &&& string_views(p.severity_mapping.error@) == string_views(def.severity_mapping.error@)
    &&& string_views(p.severity_mapping.warning@) == string_views(def.severity_mapping.warning@)
    &&& string_views(p.severity_mapping.info@) == string_views(def.severity_mapping.info@)
    &&& string_views(p.severity_mapping.debug@) == string_views(def.severity_mapping.debug@)
    &&& p.is_builtin == is_builtin
}

/// Compile one regex field, rejecting sources longer than the limit.
fn compile_regex(profile_id: &str, field: &'static str, pattern: &str) -> (r: Result<CompiledRegex, ProfileError>)
    ensures
        r is Ok <==> regex_field_error(pattern@) is None,
        r matches Ok(c) ==> c.source_spec() == pattern@ && !c.ci_spec(),
        r matches Err(e) ==> is_regex_error(e, profile_id@, field@, pattern@),
{
    if pattern.len() > MAX_REGEX_PATTERN_LENGTH {
        return Err(ProfileError::RegexTooLong {
            profile_id: profile_id.to_owned(),
            field,
            length: pattern.len(),
            max_length: MAX_REGEX_PATTERN_LENGTH,
        });
    }
    match CompiledRegex::new(pattern, false) {
        Ok(c) => Ok(c),
        Err(m) => Err(ProfileError::InvalidRegex {
            profile_id: profile_id.to_owned(),
            field,
            pattern: pattern.to_owned(),
            message: m,
        }),
    }
}

/// Validate a definition and compile it.  Checked in order: the ID, name,
/// content regex, line regex and timestamp format must be non-empty (the
/// error names the field, and the profile by ID or `(empty)`); then the
/// content regex and the line regex must be within the length limit and
/// compile.
pub fn validate_and_compile(def: ProfileDefinition, source_path: &str, is_builtin: bool) -> (r: Result<FormatProfile, ProfileError>)
    ensures
        ({
            let id = def.profile.id@;
            let cm = def.detection.content_match@;
            let lp = def.parsing.line_pattern@;
            if id.len() == 0 {
                r matches Err(e) && is_missing(e, "(empty)"@, "profile.id"@)
            } else if def.profile.name@.len() == 0 {
                r matches Err(e) && is_missing(e, id, "profile.name"@)
            } else if cm.len() == 0 {
                r matches Err(e) && is_missing(e, id, "detection.content_match"@)
            } else if lp.len() == 0 {
                r matches Err(e) && is_missing(e, id, "parsing.line_pattern"@)
            } else if def.parsing.timestamp_format@.len() == 0 {
                r matches Err(e) && is_missing(e, id, "parsing.timestamp_format"@)
            } else if regex_field_error(cm) is Some {
                r matches Err(e) && is_regex_error(e, id, "detection.content_match"@, cm)
            } else if regex_field_error(lp) is Some {
                r matches Err(e) && is_regex_error(e, id, "parsing.line_pattern"@, lp)
            } else {
                r matches Ok(p) && compiled_from(&p, &def, is_builtin)
            }
        }),
{
    if def.profile.id.as_str().is_empty() {
        return Err(ProfileError::MissingField { profile_id: "(empty)".to_owned(), field: "profile.id" });
    }
    if def.profile.name.as_str().is_empty() {
        return Err(ProfileError::MissingField { profile_id: def.profile.id.clone(), field: "profile.name" });
    }
    if def.detection.content_match.as_str().is_empty() {
        return Err(ProfileError::MissingField { profile_id: def.profile.id.clone(), field: "detection.content_match" });
    }
    if def.parsing.line_pattern.as_str().is_empty() {
        return Err(ProfileError::MissingField { profile_id: def.profile.id.clone(), field: "parsing.line_pattern" });
    }
    if def.parsing.timestamp_format.as_str().is_empty() {
        return Err(ProfileError::MissingField { profile_id: def.profile.id.clone(), field: "parsing.timestamp_format" });
    }
    let content_match = match compile_regex(def.profile.id.as_str(), "detection.content_match", def.detection.content_match.as_str()) {
        Ok(c) => c,
        Err(e) => return Err(e),
    };
    let line_pattern = match compile_regex(def.profile.id.as_str(), "parsing.line_pattern", def.parsing.line_pattern.as_str()) {
        Ok(c) => c,
        Err(e) => return Err(e),
    };
    let ghost d = def;
    let ProfileDefinition { profile, detection, parsing, severity_mapping } = def;
    let p = FormatProfile {
        id: profile.id,
        name: profile.name,
        version: profile.version,
        description: profile.description,
        file_patterns: detection.file_patterns,
        content_match,
        line_pattern,
        timestamp_format: parsing.timestamp_format,
        multiline_mode: parsing.multiline_mode,
        severity_mapping: SeverityMapping {
            critical: severity_mapping.critical,
            error: severity_mapping.error,
            warning: severity_mapping.warning,
            info: severity_mapping.info,
            debug: severity_mapping.debug,
        },
        is_builtin,
    };
    assert(compiled_from(&p, &d, is_builtin));
    Ok(p)
}

// ---------------------------------------------------------------------------
// Auto-detection
// ---------------------------------------------------------------------------

/// The best profile for a file and how confident the choice is.
#[derive(Debug)]
pub struct DetectionResult {
    pub profile_id: String,
    pub confidence: Confidence,
}

/// Number of sample lines the regex matches.
pub open spec fn lines_matching(c: CompiledRegex, lines: Seq<String>) -> nat
    decreases lines.len(),
{
    if lines.len() == 0 {
        0
    } else {
        lines_matching(c, lines.drop_last()) + if spec_regex_is_match(c.source_spec(), c.ci_spec(), lines.last()@) { 1nat } else { 0nat }
    }
}

/// One of the file-name globs is valid and matches `name`.
pub open spec fn name_matches(globs: Seq<String>, name: Seq<char>) -> bool {
    exists|i: int| 0 <= i < globs.len() && spec_glob_valid(#[trigger] globs[i]@) && spec_glob_matches(globs[i]@, name)
}

/// Confidence in tenths of a sample line: ten per matching line, plus
/// two per sample line (0.2) for a file-name match, at most ten per sample
/// line (1.0).  The confidence is this over `10 * n`.
pub open spec fn score(p: &FormatProfile, name: Seq<char>, lines: Seq<String>) -> nat {
    let n = lines.len();
    let s = 10 * lines_matching(p.content_match, lines) + if name_matches(p.file_patterns@, name) { 2 * n } else { 0 };
    if s > 10 * n { 10 * n } else { s }
}

/// The profile takes part and reaches the minimum confidence.
pub open spec fn eligible(p: &FormatProfile, name: Seq<char>, lines: Seq<String>) -> bool {
    &&& p.id@ != "plain-text"@
    &&& score(p, name, lines) * AUTO_DETECT_MIN_CONFIDENCE_DEN >= AUTO_DETECT_MIN_CONFIDENCE_NUM * 10 * lines.len()
}

/// Index of the best of the first `k` profiles: the first eligible one
/// with the highest score.
pub open spec fn best_of(ps: Seq<FormatProfile>, name: Seq<char>, lines: Seq<String>, k: nat) -> Option<int>
    decreases k,
{
    if k == 0 {
        None
    } else {
        let b = best_of(ps, name, lines, (k - 1) as nat);
        let j = k - 1;
        if eligible(&ps[j], name, lines) && (b is None || score(&ps[j], name, lines) > score(&ps[b->Some_0], name, lines)) {
            Some(j)
        } else {
            b
        }
    }
}

fn count_matching_lines(c: &CompiledRegex, lines: &Vec<String>) -> (r: u64)
    requires
        lines@.len() < 0x0100_0000_0000_0000,
    ensures
        r == lines_matching(*c, lines@),
        r <= lines@.len(),
{
    let mut n: u64 = 0;
    let mut i: usize = 0;
    while i < lines.len()
        invariant
            i <= lines.len(),
            n == lines_matching(*c, lines@.take(i as int)),
            n <= i,
            lines@.len() < 0x0100_0000_0000_0000,
        decreases lines.len() - i,
    {
        assert(lines@.take(i + 1).drop_last() =~= lines@.take(i as int));
        if c.is_match(lines[i].as_str()) {
            n += 1;
        }
        i += 1;
    }
    assert(lines@.take(lines@.len() as int) =~= lines@);
    n
}

fn any_glob_matches(globs: &Vec<String>, name: &str) -> (r: bool)
    ensures
        r == name_matches(globs@, name@),
{
    let mut i: usize = 0;
    while i < globs.len()
        invariant
            i <= globs.len(),
            forall|k: int| 0 <= k < i ==> !(spec_glob_valid(#[trigger] globs@[k]@) && spec_glob_matches(globs@[k]@, name@)),
        decreases globs.len() - i,
    {
        match Glob::new(globs[i].as_str()) {
            Some(g) => {
                if g.matches(name) {
                    return true;
                }
            },
            None => {},
        }
        i += 1;
    }
    false
}

/// Pick the profile whose content regex matches the most sample lines (with
/// a bonus for a file-name glob match), skipping `plain-text`, among those
/// reaching the minimum confidence; the first wins a tie.  `None` when there
/// are no sample lines or profiles, or none qualifies.
pub fn auto_detect(file_name: &str, sample_lines: &Vec<String>, profiles: &Vec<FormatProfile>) -> (r: Option<DetectionResult>)
    requires
        sample_lines@.len() < 0x0100_0000_0000_0000,
    ensures
        sample_lines@.len() == 0 || profiles@.len() == 0 ==> r is None,
        sample_lines@.len() > 0 && profiles@.len() > 0 ==> match best_of(profiles@, file_name@, sample_lines@, profiles@.len()) {
            None => r is None,
            Some(j) => r matches Some(d) && d.profile_id@ == profiles@[j].id@
                && d.confidence.numerator == score(&profiles@[j], file_name@, sample_lines@)
                && d.confidence.denominator == 10 * sample_lines@.len(),
        },
{
    if sample_lines.len() == 0 || profiles.len() == 0 {
        return None;
    }
    let n: u64 = sample_lines.len() as u64;
    let den: u64 = 10 * n;
    proof {
        reveal_strlit("plain-text");
    }
    let mut best: Option<usize> = None;
    let mut best_score: u64 = 0;
    let mut k: usize = 0;
    while k < profiles.len()
        invariant
            k <= profiles.len(),
            n == sample_lines@.len(),
            den == 10 * n,
            n < 0x0100_0000_0000_0000,
            opt_usize(best) == best_of(profiles@, file_name@, sample_lines@, k as nat),
            best matches Some(b) ==> b < k && best_score == score(&profiles@[b as int], file_name@, sample_lines@),
        decreases profiles.len() - k,
    {
        let p = &profiles[k];
        let m = count_matching_lines(&p.content_match, sample_lines);
        let bonus = any_glob_matches(&p.file_patterns, file_name);
        let raw: u64 = 10 * m + if bonus { 2 * n } else { 0 };
        let s: u64 = if raw > den { den } else { raw };
        let skip = crate::text::str_eq(p.id.as_str(), "plain-text");
        let ok = !skip && s * AUTO_DETECT_MIN_CONFIDENCE_DEN >= AUTO_DETECT_MIN_CONFIDENCE_NUM * den;
        if ok {
            let better = match best {
                None => true,
                Some(_) => s > best_score,
            };
            if better {
                best = Some(k);
                best_score = s;
            }
        }
        k += 1;
    }
    match best {
        None => None,
        Some(b) => Some(DetectionResult {
            profile_id: profiles[b].id.clone(),
            confidence: Confidence { numerator: best_score, denominator: den },
        }),
    }
}

pub open spec fn opt_usize(o: Option<usize>) -> Option<int> {
    match o {
        Some(x) => Some(x as int),
        None => None,
    }
}

/// Built-in profile `veeam_vbr.toml`.
pub const VEEAM_VBR_TOML: &'static str = r#"[profile]
id = "veeam-vbr"
name = "Veeam Backup & Replication"
version = "1.0"
description = "Veeam Backup & Replication service and job logs"

[detection]
file_patterns = ["Svc.*.log", "Job.*.log", "Task.*.log", "Agent.*.log"]
content_match = '^\[\d{2}\.\d{2}\.\d{4} \d{2}:\d{2}:\d{2}'

[parsing]
line_pattern = '^\[(?P<timestamp>\d{2}\.\d{2}\.\d{4} \d{2}:\d{2}:\d{2}(?:\.\d+)?)\]\s*<\s*(?P<thread>\d+)>\s+(?:(?P<level>Error|Warning|Info|Debug)\s+)?(?P<message>.*)$'
timestamp_format = "%d.%m.%Y %H:%M:%S%.f"
multiline_mode = "continuation"

[severity_mapping]
critical = ["Fatal"]
error = ["Error", "ERR", "Failed"]
warning = ["Warning", "WARN"]
info = ["Info", "INFO"]
debug = ["Debug", "DBG"]
"#;

/// Built-in profile `veeam_vbo365.toml`.
pub const VEEAM_VBO365_TOML: &'static str = r#"[profile]
id = "veeam-vbo365"
name = "Veeam Backup for Microsoft 365"
version = "1.0"
description = "Veeam Backup for Microsoft 365 service logs"

[detection]
file_patterns = ["Veeam.Archiver.*.log", "Veeam.Backup365.*.log"]
content_match = '^\[\d{2}\.\d{2}\.\d{4} \d{2}:\d{2}:\d{2}(?:\.\d+)?\] \d+ \('

[parsing]
line_pattern = '^\[(?P<timestamp>\d{2}\.\d{2}\.\d{4} \d{2}:\d{2}:\d{2}(?:\.\d+)?)\] (?P<thread>\d+) \((?P<component>[^)]*)\) (?P<message>.*)$'
timestamp_format = "%d.%m.%Y %H:%M:%S%.f"
multiline_mode = "continuation"

[severity_mapping]
error = ["Error", "Failed", "Exception"]
warning = ["Warning"]
info = ["Info"]
"#;

/// Built-in profile `iis_w3c.toml`.
pub const IIS_W3C_TOML: &'static str = r#"[profile]
id = "iis-w3c"
name = "IIS W3C"
version = "1.0"
description = "Microsoft IIS web server W3C extended logs"

[detection]
file_patterns = ["u_ex*.log", "ex*.log"]
content_match = '^(?:#Software: Microsoft Internet Information Services|\d{4}-\d{2}-\d{2} \d{2}:\d{2}:\d{2} )'

[parsing]
line_pattern = '^(?P<timestamp>\d{4}-\d{2}-\d{2} \d{2}:\d{2}:\d{2}) (?P<message>.*)$'
timestamp_format = "%Y-%m-%d %H:%M:%S"
multiline_mode = "skip"

[severity_mapping]
error = [" 500 ", " 502 ", " 503 "]
warning = [" 404 ", " 401 ", " 403 "]
"#;

/// Built-in profile `syslog_rfc3164.toml`.
pub const SYSLOG_RFC3164_TOML: &'static str = r#"[profile]
id = "syslog-rfc3164"
name = "Syslog (RFC 3164)"
version = "1.0"
description = "BSD syslog as written by rsyslog and syslog-ng"

[detection]
file_patterns = ["syslog*", "messages*", "*.syslog"]
content_match = '^[A-Z][a-z]{2} [ \d]\d \d{2}:\d{2}:\d{2} \S+ '

[parsing]
line_pattern = '^(?P<timestamp>[A-Z][a-z]{2} [ \d]\d \d{2}:\d{2}:\d{2}) (?P<component>\S+) (?P<thread>[^:\s]+): (?P<message>.*)$'
timestamp_format = "%b %e %H:%M:%S"
multiline_mode = "continuation"

[severity_mapping]
critical = ["panic", "emerg", "alert", "crit"]
error = ["error", "err", "failed"]
warning = ["warning", "warn"]
debug = ["debug"]
"#;

/// Built-in profile `syslog_rfc5424.toml`.
pub const SYSLOG_RFC5424_TOML: &'static str = r#"[profile]
id = "syslog-rfc5424"
name = "Syslog (RFC 5424)"
version = "1.0"
description = "IETF structured syslog"

[detection]
file_patterns = ["*.syslog"]
content_match = '^<\d{1,3}>1 \d{4}-\d{2}-\d{2}T'

[parsing]
line_pattern = '^<\d{1,3}>1 (?P<timestamp>\S+) (?P<component>\S+) (?P<thread>\S+) \S+ \S+ (?:-|\[[^\]]*\])\s?(?P<message>.*)$'
timestamp_format = "%Y-%m-%dT%H:%M:%S%.f%:z"
multiline_mode = "continuation"

[severity_mapping]
critical = ["panic", "emerg", "alert", "crit"]
error = ["error", "err", "failed"]
warning = ["warning", "warn"]
debug = ["debug"]
"#;

/// Built-in profile `json_lines.toml`.
pub const JSON_LINES_TOML: &'static str = r#"[profile]
id = "json-lines"
name = "JSON Lines"
version = "1.0"
description = "Newline-delimited JSON logs"

[detection]
file_patterns = ["*.jsonl", "*.ndjson", "*.json.log"]
content_match = '^\s*\{.*\}\s*$'

[parsing]
line_pattern = '^\s*\{.*?"(?:timestamp|time|@timestamp|ts)"\s*:\s*"(?P<timestamp>[^"]+)".*?"(?:level|severity|lvl)"\s*:\s*"(?P<level>[^"]+)".*?"(?:message|msg)"\s*:\s*"(?P<message>(?:[^"\\]|\\.)*)".*\}\s*$'
timestamp_format = "%Y-%m-%dT%H:%M:%S%.fZ"
multiline_mode = "raw"

[severity_mapping]
critical = ["fatal", "critical", "panic"]
error = ["error", "err"]
warning = ["warning", "warn"]
info = ["info", "information"]
debug = ["debug", "trace"]
"#;

/// Built-in profile `log4j_default.toml`.
pub const LOG4J_DEFAULT_TOML: &'static str = r#"[profile]
id = "log4j-default"
name = "Log4j / Logback"
version = "1.0"
description = "Standard Java logging output"

[detection]
file_patterns = ["*.log"]
content_match = '^\d{4}-\d{2}-\d{2} \d{2}:\d{2}:\d{2}[,.]\d{3} +(?:TRACE|DEBUG|INFO|WARN|ERROR|FATAL) '

[parsing]
line_pattern = '^(?P<timestamp>\d{4}-\d{2}-\d{2} \d{2}:\d{2}:\d{2}[,.]\d{3}) +(?P<level>TRACE|DEBUG|INFO|WARN|ERROR|FATAL) +(?:\[(?P<thread>[^\]]+)\] +)?(?:(?P<component>[\w.$]+) +- +)?(?P<message>.*)$'
timestamp_format = "%Y-%m-%d %H:%M:%S,%3f"
multiline_mode = "continuation"

[severity_mapping]
critical = ["FATAL"]
error = ["ERROR"]
warning = ["WARN"]
info = ["INFO"]
debug = ["DEBUG", "TRACE"]
"#;

/// Built-in profile `generic_timestamp.toml`.
pub const GENERIC_TIMESTAMP_TOML: &'static str = r#"[profile]
id = "generic-timestamp"
name = "Generic Timestamp"
version = "1.0"
description = "Fallback for lines starting with an ISO timestamp"

[detection]
content_match = '^\[?\d{4}[-/]\d{2}[-/]\d{2}[T ]\d{2}:\d{2}:\d{2}'

[parsing]
line_pattern = '^\[?(?P<timestamp>\d{4}[-/]\d{2}[-/]\d{2}[T ]\d{2}:\d{2}:\d{2})(?:[.,]\d+)?\]?\s+(?:\[?(?P<level>[A-Za-z]+)\]?\s+)?(?P<message>.*)$'
timestamp_format = "%Y-%m-%d %H:%M:%S"
multiline_mode = "continuation"

[severity_mapping]
critical = ["CRITICAL", "FATAL", "CRIT"]
error = ["ERROR", "ERR"]
warning = ["WARNING", "WARN"]
info = ["INFO"]
debug = ["DEBUG", "TRACE", "DBG"]
"#;

/// Built-in profile `plain_text.toml`.
pub const PLAIN_TEXT_TOML: &'static str = r#"[profile]
id = "plain-text"
name = "Plain Text"
version = "1.0"
description = "Fallback for unrecognised formats"

[detection]
content_match = '\S'

[parsing]
line_pattern = '^(?P<message>.+)$'
timestamp_format = "%Y-%m-%d %H:%M:%S"
multiline_mode = "raw"

[severity_mapping]
critical = ["critical", "fatal"]
error = ["error", "failed", "exception"]
warning = ["warning", "warn"]
debug = ["debug"]
"#;

/// The built-in profiles: file name and TOML text of each.
pub open spec fn builtin_sources() -> Seq<(Seq<char>, Seq<char>)> {
    seq![("veeam_vbr.toml"@, VEEAM_VBR_TOML@), ("veeam_vbo365.toml"@, VEEAM_VBO365_TOML@), ("iis_w3c.toml"@, IIS_W3C_TOML@), ("syslog_rfc3164.toml"@, SYSLOG_RFC3164_TOML@), ("syslog_rfc5424.toml"@, SYSLOG_RFC5424_TOML@), ("json_lines.toml"@, JSON_LINES_TOML@), ("log4j_default.toml"@, LOG4J_DEFAULT_TOML@), ("generic_timestamp.toml"@, GENERIC_TIMESTAMP_TOML@), ("plain_text.toml"@, PLAIN_TEXT_TOML@)]
}

pub open spec fn source_views(v: Seq<(&str, &str)>) -> Seq<(Seq<char>, Seq<char>)> {
    v.map_values(|p: (&str, &str)| (p.0@, p.1@))
}

/// File name and TOML text of every built-in profile.
pub fn builtin_profile_sources() -> (r: Vec<(&'static str, &'static str)>)
    ensures
        source_views(r@) == builtin_sources(),
{
    let r = vec![
        ("veeam_vbr.toml", VEEAM_VBR_TOML),
        ("veeam_vbo365.toml", VEEAM_VBO365_TOML),
        ("iis_w3c.toml", IIS_W3C_TOML),
        ("syslog_rfc3164.toml", SYSLOG_RFC3164_TOML),
        ("syslog_rfc5424.toml", SYSLOG_RFC5424_TOML),
        ("json_lines.toml", JSON_LINES_TOML),
        ("log4j_default.toml", LOG4J_DEFAULT_TOML),
        ("generic_timestamp.toml", GENERIC_TIMESTAMP_TOML),
        ("plain_text.toml", PLAIN_TEXT_TOML),
    ];
    assert(source_views(r@) =~= builtin_sources());
    r
}

/// Auto-detection picks the first of the best: the chosen profile is
/// eligible, no eligible profile scores higher, and every eligible profile
/// before it scores strictly lower (a tie goes to the earlier profile).
/// When nothing is chosen, no profile is eligible.
pub proof fn law_detection_picks_first_highest(ps: Seq<FormatProfile>, name: Seq<char>, lines: Seq<String>, k: nat)
    requires
        k <= ps.len(),
    ensures
        match best_of(ps, name, lines, k) {
            Some(b) => {
                &&& 0 <= b < k
                &&& eligible(&ps[b], name, lines)
                &&& forall|j: int| 0 <= j < k && eligible(&ps[j], name, lines) ==>
                    score(&ps[j], name, lines) <= score(&ps[b], name, lines)
                &&& forall|j: int| 0 <= j < b && eligible(&ps[j], name, lines) ==>
                    score(&ps[j], name, lines) < score(&ps[b], name, lines)
            },
            None => forall|j: int| 0 <= j < k ==> !eligible(&ps[j], name, lines),
        },
    decreases k,
{
    if k > 0 {
        law_detection_picks_first_highest(ps, name, lines, (k - 1) as nat);
    }
}

} // verus!
