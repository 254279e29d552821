//! `config.toml`: the settings it may hold, their validation against the
//! allowed ranges (each bad value is reported and replaced by its default),
//! and where the file and the profile directory live.
use vstd::prelude::*;
use crate::text::string_views;
use crate::constants::{ABSOLUTE_MAX_DEPTH, ABSOLUTE_MAX_FILES, DEFAULT_CORRELATION_WINDOW_SECS, DEFAULT_MAX_DEPTH, DEFAULT_MAX_FILES, MAX_CORRELATION_WINDOW_SECS, MIN_CORRELATION_WINDOW_SECS, MIN_MAX_FILES};
use crate::session::{join_path, join_spec};
use crate::text::{chars_of, decimal, push_decimal, push_i64, push_str, signed_decimal, spec_str_lower, str_lower};

verus! {

/// Name of the configuration file.
pub open spec fn config_file_name() -> Seq<char> {
    "config.toml"@
}

/// Name of the user profile directory.
pub open spec fn profiles_dir_name() -> Seq<char> {
    "profiles"@
}

/// `[discovery]` section.
#[derive(Debug, Default)]
pub struct DiscoverySection {
    pub max_depth: Option<usize>,
    pub max_files: Option<usize>,
    pub include_patterns: Option<Vec<String>>,
    pub exclude_patterns: Option<Vec<String>>,
}

/// `[parsing]` section.
#[derive(Debug, Default)]
pub struct ParsingSection {
    pub chunk_size_bytes: Option<usize>,
    pub max_entry_size_bytes: Option<usize>,
    pub large_file_threshold_bytes: Option<u64>,
    pub worker_threads: Option<usize>,
    pub content_detection_lines: Option<usize>,
}

/// `[ui]` section (the font size, a float, is checked by the caller).
#[derive(Debug, Default)]
pub struct UiSection {
    pub theme: Option<String>,
    pub correlation_window_seconds: Option<i64>,
    pub filter_debounce_ms: Option<u64>,
}

/// `[export]` section.
#[derive(Debug, Default)]
pub struct ExportSection {
    pub large_export_warning_threshold: Option<usize>,
}

/// `[profiles]` section.
#[derive(Debug, Default)]
pub struct ProfilesSection {
    pub user_profile_directory: Option<String>,
}

/// `[logging]` section.
#[derive(Debug, Default)]
pub struct LoggingSection {
    pub level: Option<String>,
    pub file: Option<String>,
}

/// The settings read from `config.toml`, unchecked.
#[derive(Debug, Default)]
pub struct RawConfig {
    pub discovery: DiscoverySection,
    pub parsing: ParsingSection,
    pub ui: UiSection,
    pub export: ExportSection,
    pub profiles: ProfilesSection,
    pub logging: LoggingSection,
}

/// Checked settings.
#[derive(Debug)]
pub struct AppConfig {
    pub max_depth: usize,
    pub max_files: usize,
    pub dark_mode: bool,
    pub correlation_window_secs: i64,
    pub log_level: Option<String>,
    pub log_file: Option<String>,
}

pub open spec fn is_default_config(c: &AppConfig) -> bool {
    &&& c.max_depth == DEFAULT_MAX_DEPTH
    &&& c.max_files == DEFAULT_MAX_FILES
    &&& c.dark_mode
    &&& c.correlation_window_secs == DEFAULT_CORRELATION_WINDOW_SECS
    &&& c.log_level is None
    &&& c.log_file is None
}

impl Default for AppConfig {
    fn default() -> (r: Self)
        ensures
            is_default_config(&r),
    {
        AppConfig {
            max_depth: DEFAULT_MAX_DEPTH,
            max_files: DEFAULT_MAX_FILES,
            dark_mode: true,
            correlation_window_secs: DEFAULT_CORRELATION_WINDOW_SECS,
            log_level: None,
            log_file: None,
        }
    }
}

pub open spec fn depth_warning(d: usize) -> Seq<char> {
    "[discovery] max_depth = "@ + decimal(d as nat) + " is out of range (1-"@ + decimal(ABSOLUTE_MAX_DEPTH as nat)
        + "). Using default ("@ + decimal(DEFAULT_MAX_DEPTH as nat) + ")."@
}

pub open spec fn files_warning(f: usize) -> Seq<char> {
    "[discovery] max_files = "@ + decimal(f as nat) + " is out of range ("@ + decimal(MIN_MAX_FILES as nat) + "-"@
        + decimal(ABSOLUTE_MAX_FILES as nat) + "). Using default ("@ + decimal(DEFAULT_MAX_FILES as nat) + ")."@
}

pub open spec fn theme_warning(lower: Seq<char>) -> Seq<char> {
    "[ui] theme = \""@ + lower + "\" is not recognised. Expected \"dark\" or \"light\". Using default (dark)."@
}

pub open spec fn window_warning(secs: i64) -> Seq<char> {
    "[ui] correlation_window_seconds = "@ + signed_decimal(secs as int) + " is out of range ("@
        + signed_decimal(MIN_CORRELATION_WINDOW_SECS as int) + "-"@ + signed_decimal(MAX_CORRELATION_WINDOW_SECS as int)
        + "). Using default ("@ + signed_decimal(DEFAULT_CORRELATION_WINDOW_SECS as int) + ")."@
}

pub open spec fn level_warning(level: Seq<char>) -> Seq<char> {
    "[logging] level = \""@ + level + "\" is not recognised. Valid values: error, warn, info, debug, trace. Using default (info)."@
}

/// A known log level name.
pub open spec fn known_level(l: Seq<char>) -> bool {
    l == "error"@ || l == "warn"@ || l == "info"@ || l == "debug"@ || l == "trace"@
}

/// `[w]` for `Some(w)`, nothing for `None`.
pub open spec fn opt_seq(o: Option<Seq<char>>) -> Seq<Seq<char>> {
    match o {
        Some(w) => seq![w],
        None => Seq::empty(),
    }
}


/// The checked settings and, in order, the warnings for the values that
/// were out of range or not recognised (the font-size warning, if any, comes
/// after the correlation window's).
pub open spec fn validated(raw: &RawConfig, font_warning: Option<Seq<char>>) -> (AppConfig, Seq<Seq<char>>) {
    let depth_ok = raw.discovery.max_depth matches Some(d) && 1 <= d <= ABSOLUTE_MAX_DEPTH;
    let files_ok = raw.discovery.max_files matches Some(f) && MIN_MAX_FILES <= f <= ABSOLUTE_MAX_FILES;
    let w1 = match raw.discovery.max_depth { Some(d) => if depth_ok { None } else { Some(depth_warning(d)) }, None => None };
    let w2 = match raw.discovery.max_files { Some(f) => if files_ok { None } else { Some(files_warning(f)) }, None => None };
    let theme = match raw.ui.theme { Some(t) => Some(spec_str_lower(t@)), None => None };
    let w3 = match theme { Some(t) => if t == "dark"@ || t == "light"@ { None } else { Some(theme_warning(t)) }, None => None };
    let win_ok = raw.ui.correlation_window_seconds matches Some(s)
        && MIN_CORRELATION_WINDOW_SECS <= s <= MAX_CORRELATION_WINDOW_SECS;
    let w4 = match raw.ui.correlation_window_seconds { Some(s) => if win_ok { None } else { Some(window_warning(s)) }, None => None };
    let level_ok = raw.logging.level matches Some(l) && known_level(spec_str_lower(l@));
    let w6 = match raw.logging.level { Some(l) => if level_ok { None } else { Some(level_warning(l@)) }, None => None };
    let c = AppConfig {
        max_depth: if depth_ok { raw.discovery.max_depth->Some_0 } else { DEFAULT_MAX_DEPTH },
        max_files: if files_ok { raw.discovery.max_files->Some_0 } else { DEFAULT_MAX_FILES },
        dark_mode: if theme == Some("light"@) { false } else { true },
        correlation_window_secs: if win_ok { raw.ui.correlation_window_seconds->Some_0 } else { DEFAULT_CORRELATION_WINDOW_SECS },
        log_level: if level_ok { raw.logging.level } else { None },
        log_file: match raw.logging.file { Some(f) => if f@.len() > 0 { Some(f) } else { None }, None => None },
    };
    (c, opt_seq(w1) + opt_seq(w2) + opt_seq(w3) + opt_seq(w4) + opt_seq(font_warning) + opt_seq(w6))
}

fn push_opt_warning(ws: &mut Vec<String>, w: Option<String>)
    ensures
        string_views(final(ws)@) == string_views(old(ws)@) + opt_seq(match w { Some(x) => Some(x@), None => None }),
{
    match w {
        Some(x) => {
            let ghost before = string_views(ws@);
            ws.push(x);
            assert(string_views(ws@) =~= before + seq![x@]);
        },
        None => {
            assert(string_views(ws@) =~= string_views(ws@) + Seq::<Seq<char>>::empty());
        },
    }
}

fn eq_lit(a: &str, b: &str) -> (r: bool)
    ensures
        r == (a@ == b@),
{
    crate::text::str_eq(a, b)
}

/// Check the raw settings: in-range values are taken, others reported and
/// replaced by their defaults.  `font_warning` is the caller's verdict on the
/// font size.
pub fn validate_config(raw: &RawConfig, font_warning: Option<String>) -> (r: (AppConfig, Vec<String>))
    ensures
        ({
            let v = validated(raw, crate::pattern::opt_view(font_warning));
            &&& r.0 == v.0
            &&& string_views(r.1@) == v.1
        }),
{
    let ghost fw = crate::pattern::opt_view(font_warning);
    let mut config = AppConfig::default();
    let mut warnings: Vec<String> = Vec::new();
    let mut w1: Option<String> = None;
    if let Some(depth) = raw.discovery.max_depth {
        if 1 <= depth && depth <= ABSOLUTE_MAX_DEPTH {
            config.max_depth = depth;
        } else {
            let mut m = String::new();
            push_str(&mut m, "[discovery] max_depth = ");
            push_decimal(&mut m, depth as u64);
            push_str(&mut m, " is out of range (1-");
            push_decimal(&mut m, ABSOLUTE_MAX_DEPTH as u64);
            push_str(&mut m, "). Using default (");
            push_decimal(&mut m, DEFAULT_MAX_DEPTH as u64);
            push_str(&mut m, ").");
            proof {
                reveal_strlit("[discovery] max_depth = ");
                reveal_strlit(" is out of range (1-");
                reveal_strlit("). Using default (");
                reveal_strlit(").");
            }
            w1 = Some(m);
        }
    }
    push_opt_warning(&mut warnings, w1);
    let mut w2: Option<String> = None;
    if let Some(files) = raw.discovery.max_files {
        if MIN_MAX_FILES <= files && files <= ABSOLUTE_MAX_FILES {
            config.max_files = files;
        } else {
            let mut m = String::new();
            push_str(&mut m, "[discovery] max_files = ");
            push_decimal(&mut m, files as u64);
            push_str(&mut m, " is out of range (");
            push_decimal(&mut m, MIN_MAX_FILES as u64);
            push_str(&mut m, "-");
            push_decimal(&mut m, ABSOLUTE_MAX_FILES as u64);
            push_str(&mut m, "). Using default (");
            push_decimal(&mut m, DEFAULT_MAX_FILES as u64);
            push_str(&mut m, ").");
            proof {
                reveal_strlit("[discovery] max_files = ");
                reveal_strlit(" is out of range (");
                reveal_strlit("-");
                reveal_strlit("). Using default (");
                reveal_strlit(").");
            }
            w2 = Some(m);
        }
    }
    push_opt_warning(&mut warnings, w2);
    let mut w3: Option<String> = None;
    if let Some(theme) = &raw.ui.theme {
        let lower = str_lower(theme.as_str());
        proof {
            reveal_strlit("dark");
            reveal_strlit("light");
        }
        if eq_lit(lower.as_str(), "dark") {
            config.dark_mode = true;
            proof {
                reveal_strlit("dark");
                reveal_strlit("light");
                assert("dark"@.len() == 4);
                assert("light"@.len() == 5);
            }
            assert(lower@ != "light"@);
        } else if eq_lit(lower.as_str(), "light") {
            config.dark_mode = false;
        } else {
            assert(config.dark_mode);
            let mut m = String::new();
            push_str(&mut m, "[ui] theme = \"");
            push_str(&mut m, lower.as_str());
            push_str(&mut m, "\" is not recognised. Expected \"dark\" or \"light\". Using default (dark).");
            proof {
                reveal_strlit("[ui] theme = \"");
                reveal_strlit("\" is not recognised. Expected \"dark\" or \"light\". Using default (dark).");
            }
            w3 = Some(m);
        }
    }
    push_opt_warning(&mut warnings, w3);
    let mut w4: Option<String> = None;
    if let Some(secs) = raw.ui.correlation_window_seconds {
        if MIN_CORRELATION_WINDOW_SECS <= secs && secs <= MAX_CORRELATION_WINDOW_SECS {
            config.correlation_window_secs = secs;
        } else {
            let mut m = String::new();
            push_str(&mut m, "[ui] correlation_window_seconds = ");
            push_i64(&mut m, secs);
            push_str(&mut m, " is out of range (");
            push_i64(&mut m, MIN_CORRELATION_WINDOW_SECS);
            push_str(&mut m, "-");
            push_i64(&mut m, MAX_CORRELATION_WINDOW_SECS);
            push_str(&mut m, "). Using default (");
            push_i64(&mut m, DEFAULT_CORRELATION_WINDOW_SECS);
            push_str(&mut m, ").");
            proof {
                reveal_strlit("[ui] correlation_window_seconds = ");
                reveal_strlit(" is out of range (");
                reveal_strlit("-");
                reveal_strlit("). Using default (");
                reveal_strlit(").");
            }
            w4 = Some(m);
        }
    }
    push_opt_warning(&mut warnings, w4);
    push_opt_warning(&mut warnings, font_warning);
    let mut w6: Option<String> = None;
    if let Some(level) = &raw.logging.level {
        let lower = str_lower(level.as_str());
        let l = lower.as_str();
        if eq_lit(l, "error") || eq_lit(l, "warn") || eq_lit(l, "info") || eq_lit(l, "debug") || eq_lit(l, "trace") {
            config.log_level = Some(level.clone());
        } else {
            let mut m = String::new();
            push_str(&mut m, "[logging] level = \"");
            push_str(&mut m, level.as_str());
            push_str(&mut m, "\" is not recognised. Valid values: error, warn, info, debug, trace. Using default (info).");
            proof {
                reveal_strlit("[logging] level = \"");
                reveal_strlit("\" is not recognised. Valid values: error, warn, info, debug, trace. Using default (info).");
            }
            w6 = Some(m);
        }
    }
    push_opt_warning(&mut warnings, w6);
    if let Some(file) = &raw.logging.file {
        if chars_of(file.as_str()).len() > 0 {
            config.log_file = Some(file.clone());
        }
    }
    proof {
        let v = validated(raw, fw);
        assert(config.max_depth == v.0.max_depth);
        assert(config.max_files == v.0.max_files);
        assert(config.dark_mode == v.0.dark_mode);
        assert(config.correlation_window_secs == v.0.correlation_window_secs);
        assert(config.log_level == v.0.log_level);
        assert(config.log_file == v.0.log_file);
        assert(string_views(warnings@) =~= v.1);
    }
    (config, warnings)
}

/// Warning when the configuration file cannot be read.
pub open spec fn read_failure(path: Seq<char>, err: Seq<char>) -> Seq<char> {
    "Could not read config file '"@ + path + "': "@ + err + ". Using defaults."@
}

/// Warning when the configuration file cannot be parsed.
pub open spec fn parse_failure(path: Seq<char>, err: Seq<char>) -> Seq<char> {
    "Failed to parse config file '"@ + path + "': "@ + err + ". Using defaults. See config.example.toml for the expected format."@
}

/// The warning for a configuration file that could not be read.
pub fn read_failure_warning(path: &str, err: &str) -> (r: String)
    ensures
        r@ == read_failure(path@, err@),
{
    let mut m = String::new();
    push_str(&mut m, "Could not read config file '");
    push_str(&mut m, path);
    push_str(&mut m, "': ");
    push_str(&mut m, err);
    push_str(&mut m, ". Using defaults.");
    proof {
        reveal_strlit("Could not read config file '");
        reveal_strlit("': ");
        reveal_strlit(". Using defaults.");
    }
    m
}

/// The warning for a configuration file that could not be parsed.
pub fn parse_failure_warning(path: &str, err: &str) -> (r: String)
    ensures
        r@ == parse_failure(path@, err@),
{
    let mut m = String::new();
    push_str(&mut m, "Failed to parse config file '");
    push_str(&mut m, path);
    push_str(&mut m, "': ");
    push_str(&mut m, err);
    push_str(&mut m, ". Using defaults. See config.example.toml for the expected format.");
    proof {
        reveal_strlit("Failed to parse config file '");
        reveal_strlit("': ");
        reveal_strlit(". Using defaults. See config.example.toml for the expected format.");
    }
    m
}


// ---------------------------------------------------------------------------
// Paths
// ---------------------------------------------------------------------------

/// End of `s.take(e)` once trailing `/` are dropped.
pub open spec fn trim_end_idx(s: Seq<char>, e: int) -> int
    decreases e,
{
    if e > 0 && e <= s.len() && s[e - 1] == '/' { trim_end_idx(s, e - 1) } else { e }
}

/// Index of the last `/` before `e`.
pub open spec fn last_slash_idx(s: Seq<char>, e: int) -> Option<int>
    decreases e,
{
    if e <= 0 || e > s.len() {
        None
    } else if s[e - 1] == '/' {
        Some(e - 1)
    } else {
        last_slash_idx(s, e - 1)
    }
}

/// `Path::parent` for `/`-separated paths: the path without its last
/// component and the separators before it; `/` for a component right under
/// the root; empty for a single relative component; none for the root or
/// an empty path.
pub open spec fn parent_spec(p: Seq<char>) -> Option<Seq<char>> {
    let e = trim_end_idx(p, p.len() as int);
    if e <= 0 {
        None
    } else {
        match last_slash_idx(p, e) {
            None => Some(Seq::empty()),
            Some(i) => {
                let h = trim_end_idx(p, i);
                if h <= 0 {
                    if p[0] == '/' { Some(seq!['/']) } else { Some(Seq::empty()) }
                } else {
                    Some(p.take(h))
                }
            },
        }
    }
}

fn trim_end_exec(v: &Vec<char>, e: usize) -> (r: usize)
    requires
        e <= v.len(),
    ensures
        r as int == trim_end_idx(v@, e as int),
        r <= e,
{
    let mut k = e;
    while k > 0 && v[k - 1] == '/'
        invariant
            k <= e <= v.len(),
            trim_end_idx(v@, k as int) == trim_end_idx(v@, e as int),
        decreases k,
    {
        k -= 1;
    }
    k
}

fn last_slash_exec(v: &Vec<char>, e: usize) -> (r: Option<usize>)
    requires
        e <= v.len(),
    ensures
        match r {
            Some(i) => last_slash_idx(v@, e as int) == Some(i as int) && i < e,
            None => last_slash_idx(v@, e as int) is None,
        },
{
    let mut k = e;
    while k > 0 && v[k - 1] != '/'
        invariant
            k <= e <= v.len(),
            last_slash_idx(v@, k as int) == last_slash_idx(v@, e as int),
        decreases k,
    {
        k -= 1;
    }
    if k == 0 { None } else { Some(k - 1) }
}

/// The parent of a `/`-separated path (see `parent_spec`).
pub fn parent_path(p: &str) -> (r: Option<String>)
    ensures
        crate::pattern::opt_view(r) == parent_spec(p@),
{
    let v = chars_of(p);
    let e = trim_end_exec(&v, v.len());
    if e == 0 {
        return None;
    }
    match last_slash_exec(&v, e) {
        None => Some(String::new()),
        Some(i) => {
            let h = trim_end_exec(&v, i);
            if h == 0 {
                if v[0] == '/' {
                    let mut s = String::new();
                    s.push('/');
                    Some(s)
                } else {
                    Some(String::new())
                }
            } else {
                let r = crate::text::string_of_range(&v, 0, h);
                assert(v@.subrange(0, h as int) =~= v@.take(h as int));
                Some(r)
            }
        },
    }
}

/// Where `config.toml` lives: beside the configuration directory (in its
/// parent, or in the directory itself when it has none).
pub open spec fn config_file_spec(config_dir: Seq<char>) -> Seq<char> {
    let base = match parent_spec(config_dir) { Some(p) => p, None => config_dir };
    join_spec(base, config_file_name())
}

/// Path of `config.toml` for the given configuration directory.
pub fn config_file_path(config_dir: &str) -> (r: String)
    ensures
        r@ == config_file_spec(config_dir@),
{
    proof { reveal_strlit("config.toml"); }
    match parent_path(config_dir) {
        Some(p) => join_path(p.as_str(), "config.toml"),
        None => join_path(config_dir, "config.toml"),
    }
}

/// Directories of the application.
#[derive(Debug)]
pub struct PlatformPaths {
    pub config_dir: String,
    /// Profiles live beside the configuration directory.
    pub user_profiles_dir: String,
    pub data_dir: String,
}

/// Wraps `directories::ProjectDirs::from("", "", "LogSleuth")`, giving its
/// configuration and data directories.  What it returns depends on the
/// platform and the environment, so nothing is claimed of it.
#[verifier::external_body]
fn project_dirs() -> (r: Option<(String, String)>)
{
    directories::ProjectDirs::from("", "", "LogSleuth").map(|d| (
        d.config_dir().to_string_lossy().into_owned(),
        d.data_dir().to_string_lossy().into_owned(),
    ))
}

/// The platform's directories for the given configuration and data
/// directories (or the current directory when there are none): profiles go
/// in `profiles` beside the configuration directory.
pub open spec fn paths_spec(dirs: Option<(Seq<char>, Seq<char>)>) -> (Seq<char>, Seq<char>, Seq<char>) {
    match dirs {
        Some((c, d)) => {
            let base = match parent_spec(c) { Some(p) => p, None => c };
            (c, join_spec(base, profiles_dir_name()), d)
        },
        None => ("."@, join_spec("."@, profiles_dir_name()), "."@),
    }
}

impl PlatformPaths {
    /// Build the paths from the platform's configuration and data
    /// directories, if known.
    pub fn from_dirs(dirs: Option<(String, String)>) -> (r: PlatformPaths)
        ensures
            (r.config_dir@, r.user_profiles_dir@, r.data_dir@) == paths_spec(match dirs {
                Some((c, d)) => Some((c@, d@)),
                None => None,
            }),
    {
        proof {
            reveal_strlit("profiles");
        }
        match dirs {
            Some((config_dir, data_dir)) => {
                let base = match parent_path(config_dir.as_str()) {
                    Some(p) => p,
                    None => config_dir.clone(),
                };
                let user_profiles_dir = join_path(base.as_str(), "profiles");
                PlatformPaths { config_dir, user_profiles_dir, data_dir }
            },
            None => {
                let user_profiles_dir = join_path(".", "profiles");
                PlatformPaths { config_dir: ".".to_string(), user_profiles_dir, data_dir: ".".to_string() }
            },
        }
    }

    /// Resolve the platform's directories (see `from_dirs`).
    pub fn resolve() -> (r: PlatformPaths)
        ensures
            exists|dirs: Option<(Seq<char>, Seq<char>)>| (r.config_dir@, r.user_profiles_dir@, r.data_dir@) == paths_spec(dirs),
    {
        let dirs = project_dirs();
        PlatformPaths::from_dirs(dirs)
    }
}

} // verus!
