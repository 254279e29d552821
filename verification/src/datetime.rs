//! Timestamp parsing: a profile's format string with fallbacks, and
//! "sniffing" of any recognisable timestamp inside a line.  Calendar
//! arithmetic is done by the `chrono` crate.
use vstd::prelude::*;
use crate::model::{UtcNanos, nanos_of, timestamp_from_parts};
use crate::pattern::{CompiledRegex, spec_regex_build, spec_regex_find};
use crate::text::{chars_of, collapse_whitespace, collapse_ws, contains_infix, is_infix, parse_i64, parse_i64_spec, parse_u32, parse_u32_spec, push_chars, push_signed_decimal, push_str, replace_char, replace_char_vec, signed_decimal, split_on_char, split_spec, string_of, trim, trim_spec};

verus! {

// ---------------------------------------------------------------------------
// chrono
// ---------------------------------------------------------------------------

/// `NaiveDateTime::parse_from_str(s, fmt)`, read as UTC: whole seconds since
/// the epoch and the sub-second nanoseconds.
pub uninterp spec fn spec_naive_datetime_parse(s: Seq<char>, fmt: Seq<char>) -> Option<(int, int)>;

/// `NaiveDate::parse_from_str(s, fmt)` at midnight UTC, in seconds since the
/// epoch.
pub uninterp spec fn spec_naive_date_parse(s: Seq<char>, fmt: Seq<char>) -> Option<int>;

/// `DateTime::parse_from_rfc3339(s)`: the instant in UTC seconds and
/// sub-second nanoseconds.
pub uninterp spec fn spec_rfc3339_parse(s: Seq<char>) -> Option<(int, int)>;

/// `DateTime::parse_from_str(s, fmt)` (a format with an offset): the instant
/// in UTC seconds and sub-second nanoseconds.
pub uninterp spec fn spec_datetime_tz_parse(s: Seq<char>, fmt: Seq<char>) -> Option<(int, int)>;

pub open spec fn opt_pair(o: Option<(i64, u32)>) -> Option<(int, int)> {
    match o {
        Some(p) => Some((p.0 as int, p.1 as int)),
        None => None,
    }
}

pub open spec fn opt_int(o: Option<i64>) -> Option<int> {
    match o {
        Some(x) => Some(x as int),
        None => None,
    }
}

/// Wraps `chrono::NaiveDateTime::parse_from_str`, converting the result to
/// UTC seconds and nanoseconds.  The outcome is named by
/// `spec_naive_datetime_parse`.
#[verifier::external_body]
pub(crate) fn naive_datetime_parse(s: &str, fmt: &str) -> (r: Option<(i64, u32)>)
    ensures
        opt_pair(r) == spec_naive_datetime_parse(s@, fmt@),
{
    chrono::NaiveDateTime::parse_from_str(s, fmt).ok().map(|n| (n.and_utc().timestamp(), n.and_utc().timestamp_subsec_nanos()))
}

/// Wraps `chrono::NaiveDate::parse_from_str`, taking midnight of the date
/// as UTC seconds.  The outcome is named by `spec_naive_date_parse`.
#[verifier::external_body]
pub(crate) fn naive_date_parse(s: &str, fmt: &str) -> (r: Option<i64>)
    ensures
        opt_int(r) == spec_naive_date_parse(s@, fmt@),
{
    chrono::NaiveDate::parse_from_str(s, fmt).ok().and_then(|d| d.and_hms_opt(0, 0, 0)).map(|n| n.and_utc().timestamp())
}

/// Wraps `chrono::DateTime::parse_from_rfc3339`, converting the instant to
/// UTC seconds and nanoseconds.  The outcome is named by
/// `spec_rfc3339_parse`.
#[verifier::external_body]
fn rfc3339_parse(s: &str) -> (r: Option<(i64, u32)>)
    ensures
        opt_pair(r) == spec_rfc3339_parse(s@),
{
    chrono::DateTime::parse_from_rfc3339(s).ok().map(|d| (d.timestamp(), d.timestamp_subsec_nanos()))
}

/// Wraps `chrono::DateTime::parse_from_str`, converting the instant to UTC
/// seconds and nanoseconds.  The outcome is named by
/// `spec_datetime_tz_parse`.
#[verifier::external_body]
fn datetime_tz_parse(s: &str, fmt: &str) -> (r: Option<(i64, u32)>)
    ensures
        opt_pair(r) == spec_datetime_tz_parse(s@, fmt@),
{
    chrono::DateTime::parse_from_str(s, fmt).ok().map(|d| (d.timestamp(), d.timestamp_subsec_nanos()))
}

/// `DateTime::from_timestamp(secs, 0)`, as seconds since the epoch.
pub uninterp spec fn spec_from_timestamp(secs: int) -> Option<int>;

/// Wraps `chrono::DateTime::from_timestamp(secs, 0)`, giving back the
/// instant's seconds: when it exists they are `secs`, and every `secs`
/// below `10^10` (before the year 2287) is in chrono's range.
#[verifier::external_body]
fn datetime_from_secs(secs: i64) -> (r: Option<i64>)
    ensures
        opt_int(r) == spec_from_timestamp(secs as int),
        r matches Some(t) ==> t == secs,
        0 <= secs < 10_000_000_000 ==> r == Some(secs),
{
    chrono::DateTime::from_timestamp(secs, 0).map(|d| d.timestamp())
}

/// Wraps `chrono::Utc::now().year()`: the current UTC year.  Nothing is
/// stated of it, as it depends on the clock.
#[verifier::external_body]
pub fn current_year() -> (r: i32) {
    chrono::Datelike::year(&chrono::Utc::now())
}

pub open spec fn pair_nanos(p: (int, int)) -> int {
    nanos_of(p.0, p.1)
}

fn pair_to_nanos(p: (i64, u32)) -> (r: UtcNanos)
    ensures
        r == pair_nanos((p.0 as int, p.1 as int)),
{
    timestamp_from_parts(p.0, p.1)
}

// ---------------------------------------------------------------------------
// Parsing with a profile's format
// ---------------------------------------------------------------------------

/// `s` with `/` turned into `-` and `T` into a space.
pub open spec fn normalise_separators(s: Seq<char>) -> Seq<char> {
    replace_char(replace_char(s, '/', '-'), 'T', ' ')
}

/// The format mentions no year field (`%Y`, `%y` or `%C`).
pub open spec fn yearless(fmt: Seq<char>) -> bool {
    !is_infix("%Y"@, fmt) && !is_infix("%y"@, fmt) && !is_infix("%C"@, fmt)
}

/// Error text for a timestamp that cannot be parsed.
pub open spec fn ts_error(t: Seq<char>, fmt: Seq<char>) -> Seq<char> {
    "cannot parse '"@ + t + "' with format '"@ + fmt + "'"@
}

/// Parse `raw` (trimmed) with the chrono format `fmt`, trying in order: a
/// date-time; a date at midnight; RFC 3339; the same two after turning `/`
/// into `-` and `T` into a space (when that changes the text); and, for
/// formats without a year, the text with `year` prepended.  The result is
/// in UTC nanoseconds.
pub open spec fn parse_ts_spec(raw: Seq<char>, fmt: Seq<char>, year: int) -> Result<int, Seq<char>> {
    let t = trim_spec(raw);
    let n = normalise_separators(t);
    let wy = signed_decimal(year) + seq![' '] + t;
    let yf = "%Y "@ + fmt;
    if spec_naive_datetime_parse(t, fmt) is Some {
        Ok(pair_nanos(spec_naive_datetime_parse(t, fmt)->Some_0))
    } else if spec_naive_date_parse(t, fmt) is Some {
        Ok(spec_naive_date_parse(t, fmt)->Some_0 * 1_000_000_000)
    } else if spec_rfc3339_parse(t) is Some {
        Ok(pair_nanos(spec_rfc3339_parse(t)->Some_0))
    } else if n != t && spec_naive_datetime_parse(n, fmt) is Some {
        Ok(pair_nanos(spec_naive_datetime_parse(n, fmt)->Some_0))
    } else if n != t && spec_naive_date_parse(n, fmt) is Some {
        Ok(spec_naive_date_parse(n, fmt)->Some_0 * 1_000_000_000)
    } else if yearless(fmt) && spec_naive_datetime_parse(wy, yf) is Some {
        Ok(pair_nanos(spec_naive_datetime_parse(wy, yf)->Some_0))
    } else {
        Err(ts_error(t, fmt))
    }
}

pub open spec fn ts_result_view(r: Result<UtcNanos, String>) -> Result<int, Seq<char>> {
    match r {
        Ok(t) => Ok(t as int),
        Err(m) => Err(m@),
    }
}

/// Parse a raw timestamp with a format string, taking `year` as the current
/// year for formats that have none.
pub fn parse_timestamp_in_year(raw: &str, format: &str, year: i32) -> (r: Result<UtcNanos, String>)
    ensures
        ts_result_view(r) == parse_ts_spec(raw@, format@, year as int),
{
    let trimmed = trim(raw);
    let t = trimmed.as_str();
    if let Some(p) = naive_datetime_parse(t, format) {
        return Ok(pair_to_nanos(p));
    }
    if let Some(s) = naive_date_parse(t, format) {
        return Ok((s as i128) * 1_000_000_000);
    }
    if let Some(p) = rfc3339_parse(t) {
        return Ok(pair_to_nanos(p));
    }
    let tv = chars_of(t);
    let nv = replace_char_vec(&replace_char_vec(&tv, '/', '-'), 'T', ' ');
    if !crate::text::vec_char_eq(&nv, &tv) {
        let n = string_of(&nv);
        if let Some(p) = naive_datetime_parse(n.as_str(), format) {
            return Ok(pair_to_nanos(p));
        }
        if let Some(s) = naive_date_parse(n.as_str(), format) {
            return Ok((s as i128) * 1_000_000_000);
        }
    }
    let fv = chars_of(format);
    let yy = chars_of("%Y");
    let ly = chars_of("%y");
    let cy = chars_of("%C");
    proof {
        reveal_strlit("%Y");
        reveal_strlit("%y");
        reveal_strlit("%C");
        reveal_strlit("%Y ");
    }
    if !contains_infix(&yy, &fv) && !contains_infix(&ly, &fv) && !contains_infix(&cy, &fv) {
        let mut with_year = String::new();
        push_signed_decimal(&mut with_year, year);
        with_year.push(' ');
        push_str(&mut with_year, t);
        let mut year_format = String::new();
        push_str(&mut year_format, "%Y ");
        push_str(&mut year_format, format);
        assert(with_year@ =~= signed_decimal(year as int) + seq![' '] + t@);
        if let Some(p) = naive_datetime_parse(with_year.as_str(), year_format.as_str()) {
            return Ok(pair_to_nanos(p));
        }
    }
    let mut m = String::new();
    push_str(&mut m, "cannot parse '");
    push_str(&mut m, t);
    push_str(&mut m, "' with format '");
    push_str(&mut m, format);
    push_str(&mut m, "'");
    proof {
        reveal_strlit("cannot parse '");
        reveal_strlit("' with format '");
        reveal_strlit("'");
    }
    assert(m@ =~= ts_error(t@, format@));
    Err(m)
}

/// Parse a raw timestamp with a format string (see `parse_ts_spec`), using
/// the current UTC year for formats without one.
pub fn parse_timestamp(raw: &str, format: &str) -> (r: Result<UtcNanos, String>)
    ensures
        exists|y: i32| ts_result_view(r) == parse_ts_spec(raw@, format@, y as int),
{
    let y = current_year();
    parse_timestamp_in_year(raw, format, y)
}

// ---------------------------------------------------------------------------
// Sniffing
// ---------------------------------------------------------------------------

/// RFC 3339 with an explicit zone.
pub open spec fn t1_src() -> Seq<char> { "\\d{4}-\\d{2}-\\d{2}T\\d{2}:\\d{2}:\\d{2}(?:[.,]\\d+)?(?:Z|[+-]\\d{2}:?\\d{2})"@ }
/// ISO with comma milliseconds.
pub open spec fn t2_src() -> Seq<char> { "\\d{4}-\\d{2}-\\d{2}[T ]\\d{2}:\\d{2}:\\d{2},\\d+"@ }
/// ISO without zone, optional dot fraction.
pub open spec fn t3_src() -> Seq<char> { "\\d{4}-\\d{2}-\\d{2}[T ]\\d{2}:\\d{2}:\\d{2}(?:\\.\\d+)?"@ }
/// Slash year-first.
pub open spec fn t4_src() -> Seq<char> { "\\d{4}/\\d{2}/\\d{2}[ T]\\d{2}:\\d{2}:\\d{2}(?:\\.\\d+)?"@ }
/// Dot day-first.
pub open spec fn t5_src() -> Seq<char> { "\\d{2}\\.\\d{2}\\.\\d{4} \\d{2}:\\d{2}:\\d{2}(?:\\.\\d+)?"@ }
/// Apache combined log.
pub open spec fn t6_src() -> Seq<char> { "\\d{2}/[A-Za-z]{3}/\\d{4}:\\d{2}:\\d{2}:\\d{2} [+-]\\d{4}"@ }
/// Slash date with four-digit year.
pub open spec fn t7_src() -> Seq<char> { "\\d{2}/\\d{2}/\\d{4} \\d{2}:\\d{2}:\\d{2}"@ }
/// Slash date with two-digit year and a comma before the time.
pub open spec fn t8_src() -> Seq<char> { "\\d{2}/\\d{2}/\\d{2},\\d{2}:\\d{2}:\\d{2}"@ }
/// Month name with a four-digit year.
pub open spec fn t9_src() -> Seq<char> { "[A-Z][a-z]{2,8} \\d{1,2},? \\d{4} \\d{2}:\\d{2}:\\d{2}"@ }
/// BSD syslog without a year.
pub open spec fn t10_src() -> Seq<char> { "[A-Z][a-z]{2} [ \\d]\\d \\d{2}:\\d{2}:\\d{2}"@ }
/// Compact ISO.
pub open spec fn t11_src() -> Seq<char> { "\\d{8}[T ]\\d{6}"@ }
/// Unix epoch seconds at the start of the line.
pub open spec fn t12_src() -> Seq<char> { "^\\d{10}(?:\\.\\d+)?"@ }

/// The sources of the twelve sniffing patterns, most precise first.
pub open spec fn sniff_sources() -> Seq<Seq<char>> {
    seq![t1_src(), t2_src(), t3_src(), t4_src(), t5_src(), t6_src(), t7_src(), t8_src(), t9_src(), t10_src(), t11_src(), t12_src()]
}

/// Every sniffing pattern compiles.
pub open spec fn sniffers_build() -> bool {
    forall|i: int| 0 <= i < 12 ==> spec_regex_build(#[trigger] sniff_sources()[i], false) is None
}

/// Date-time parse in UTC nanoseconds.
pub open spec fn ndt(s: Seq<char>, fmt: Seq<char>) -> Option<int> {
    match spec_naive_datetime_parse(s, fmt) {
        Some(p) => Some(pair_nanos(p)),
        None => None,
    }
}

/// First of two parses that succeeds.
pub open spec fn or_else(a: Option<int>, b: Option<int>) -> Option<int> {
    if a is Some { a } else { b }
}

/// RFC 3339 text with a `+HHMM` / `-HHMM` tail normalised to `+HH:MM` /
/// `-HH:MM`, so the offset is read and applied at this tier.
pub open spec fn t1_fixed(s: Seq<char>) -> Seq<char> {
    if s.len() > 20 {
        let tail = s.subrange(s.len() - 5, s.len() as int);
        if !tail.contains(':') && (tail[0] == '+' || tail[0] == '-') {
            s.subrange(0, s.len() - 5) + tail.subrange(0, 3) + seq![':'] + tail.subrange(3, 5)
        } else {
            s
        }
    } else {
        s
    }
}

/// The first two `/`-separated fields of `s` as numbers.
pub open spec fn slash_fields(s: Seq<char>) -> Option<(u32, u32)> {
    let p = split_spec(s, '/');
    if p.len() >= 2 && parse_u32_spec(p[0]) is Some && parse_u32_spec(p[1]) is Some {
        Some((parse_u32_spec(p[0])->Some_0, parse_u32_spec(p[1])->Some_0))
    } else {
        None
    }
}

/// A slash date: day first when the first field exceeds 12, month first when
/// the second does, otherwise month first with day first as the fallback.
pub open spec fn slash_date(s: Seq<char>, dmy: Seq<char>, mdy: Seq<char>) -> Option<int> {
    match slash_fields(s) {
        None => None,
        Some((a, b)) => if a > 12 {
            ndt(s, dmy)
        } else if b > 12 {
            ndt(s, mdy)
        } else {
            or_else(ndt(s, mdy), ndt(s, dmy))
        },
    }
}

/// What tier `k` (0-based) makes of its matched text `s`.
pub open spec fn tier_parse(k: int, s: Seq<char>, year: int) -> Option<int> {
    if k == 0 {
        match spec_rfc3339_parse(t1_fixed(s)) {
            Some(p) => Some(pair_nanos(p)),
            None => None,
        }
    } else if k == 1 {
        ndt(replace_char(replace_char(s, ',', '.'), 'T', ' '), "%Y-%m-%d %H:%M:%S%.f"@)
    } else if k == 2 {
        let s2 = replace_char(s, 'T', ' ');
        or_else(ndt(s2, "%Y-%m-%d %H:%M:%S%.f"@), ndt(s2, "%Y-%m-%d %H:%M:%S"@))
    } else if k == 3 {
        let s2 = replace_char(replace_char(s, '/', '-'), 'T', ' ');
        or_else(ndt(s2, "%Y-%m-%d %H:%M:%S%.f"@), ndt(s2, "%Y-%m-%d %H:%M:%S"@))
    } else if k == 4 {
        or_else(ndt(s, "%d.%m.%Y %H:%M:%S%.f"@), ndt(s, "%d.%m.%Y %H:%M:%S"@))
    } else if k == 5 {
        match spec_datetime_tz_parse(s, "%d/%b/%Y:%H:%M:%S %z"@) {
            Some(p) => Some(pair_nanos(p)),
            None => None,
        }
    } else if k == 6 {
        slash_date(s, "%d/%m/%Y %H:%M:%S"@, "%m/%d/%Y %H:%M:%S"@)
    } else if k == 7 {
        slash_date(s, "%d/%m/%y,%H:%M:%S"@, "%m/%d/%y,%H:%M:%S"@)
    } else if k == 8 {
        ndt(collapse_ws(replace_char(s, ',', ' ')), "%b %d %Y %H:%M:%S"@)
    } else if k == 9 {
        ndt(signed_decimal(year) + seq![' '] + s, "%Y %b %e %H:%M:%S"@)
    } else if k == 10 {
        ndt(replace_char(s, ' ', 'T'), "%Y%m%dT%H%M%S"@)
    } else {
        match parse_i64_spec(split_spec(s, '.')[0]) {
            Some(secs) => match spec_from_timestamp(secs as int) {
                Some(t) => Some(t * 1_000_000_000),
                None => None,
            },
            None => None,
        }
    }
}

/// Sniff from tier `k` on: the first tier whose pattern finds text that the
/// tier can parse.
pub open spec fn sniff_from(raw: Seq<char>, year: int, k: int) -> Option<int>
    decreases 12 - k,
{
    if k < 0 || k >= 12 {
        None
    } else {
        match spec_regex_find(sniff_sources()[k], false, raw) {
            Some(m) => match tier_parse(k, m, year) {
                Some(t) => Some(t),
                None => sniff_from(raw, year, k + 1),
            },
            None => sniff_from(raw, year, k + 1),
        }
    }
}

pub open spec fn opt_nanos(o: Option<UtcNanos>) -> Option<int> {
    match o {
        Some(t) => Some(t as int),
        None => None,
    }
}

/// The twelve compiled sniffing patterns.
pub struct Sniffers {
    pats: Vec<CompiledRegex>,
}

impl Sniffers {
    pub closed spec fn wf(&self) -> bool {
        &&& self.pats@.len() == 12
        &&& forall|i: int| 0 <= i < 12 ==> (#[trigger] self.pats@[i]).source_spec() == sniff_sources()[i]
            && !self.pats@[i].ci_spec()
    }

    /// Compile the patterns; `None` if one of them does not compile.
    pub fn new() -> (r: Option<Sniffers>)
        ensures
            r is Some <==> sniffers_build(),
            r matches Some(s) ==> s.wf(),
    {
        let srcs: [&str; 12] = [
            "\\d{4}-\\d{2}-\\d{2}T\\d{2}:\\d{2}:\\d{2}(?:[.,]\\d+)?(?:Z|[+-]\\d{2}:?\\d{2})",
            "\\d{4}-\\d{2}-\\d{2}[T ]\\d{2}:\\d{2}:\\d{2},\\d+",
            "\\d{4}-\\d{2}-\\d{2}[T ]\\d{2}:\\d{2}:\\d{2}(?:\\.\\d+)?",
            "\\d{4}/\\d{2}/\\d{2}[ T]\\d{2}:\\d{2}:\\d{2}(?:\\.\\d+)?",
            "\\d{2}\\.\\d{2}\\.\\d{4} \\d{2}:\\d{2}:\\d{2}(?:\\.\\d+)?",
            "\\d{2}/[A-Za-z]{3}/\\d{4}:\\d{2}:\\d{2}:\\d{2} [+-]\\d{4}",
            "\\d{2}/\\d{2}/\\d{4} \\d{2}:\\d{2}:\\d{2}",
            "\\d{2}/\\d{2}/\\d{2},\\d{2}:\\d{2}:\\d{2}",
            "[A-Z][a-z]{2,8} \\d{1,2},? \\d{4} \\d{2}:\\d{2}:\\d{2}",
            "[A-Z][a-z]{2} [ \\d]\\d \\d{2}:\\d{2}:\\d{2}",
            "\\d{8}[T ]\\d{6}",
            "^\\d{10}(?:\\.\\d+)?",
        ];
        assert(forall|i: int| 0 <= i < 12 ==> (#[trigger] srcs@[i])@ == sniff_sources()[i]);
        let mut pats: Vec<CompiledRegex> = Vec::new();
        let mut i: usize = 0;
        while i < 12
            invariant
                i <= 12,
                forall|k: int| 0 <= k < 12 ==> (#[trigger] srcs@[k])@ == sniff_sources()[k],
                pats@.len() == i,
                forall|k: int| 0 <= k < i ==> (#[trigger] pats@[k]).source_spec() == sniff_sources()[k] && !pats@[k].ci_spec(),
                forall|k: int| 0 <= k < i ==> spec_regex_build(#[trigger] sniff_sources()[k], false) is None,
            decreases 12 - i,
        {
            match CompiledRegex::new(srcs[i], false) {
                Ok(p) => pats.push(p),
                Err(_) => {
                    assert(spec_regex_build(sniff_sources()[i as int], false) is Some);
                    return None;
                },
            }
            i += 1;
        }
        Some(Sniffers { pats })
    }

    /// The first timestamp found in `raw` (see `sniff_from`), taking `year`
    /// as the current year.
    pub fn sniff(&self, raw: &str, year: i32) -> (r: Option<UtcNanos>)
        requires
            self.wf(),
        ensures
            opt_nanos(r) == sniff_from(raw@, year as int, 0),
    {
        let mut k: usize = 0;
        while k < 12
            invariant
                k <= 12,
                self.wf(),
                sniff_from(raw@, year as int, 0) == sniff_from(raw@, year as int, k as int),
            decreases 12 - k,
        {
            let p = &self.pats[k];
            assert(self.pats@[k as int].source_spec() == sniff_sources()[k as int]);
            if let Some(m) = p.find(raw) {
                let r = tier_parse_exec(k, m.as_str(), year);
                if r.is_some() {
                    return r;
                }
            }
            k += 1;
        }
        None
    }
}

fn ndt_exec(s: &str, fmt: &str) -> (r: Option<UtcNanos>)
    ensures
        opt_nanos(r) == ndt(s@, fmt@),
{
    match naive_datetime_parse(s, fmt) {
        Some(p) => Some(pair_to_nanos(p)),
        None => None,
    }
}

fn ndt_vec(v: &Vec<char>, fmt: &str) -> (r: Option<UtcNanos>)
    ensures
        opt_nanos(r) == ndt(v@, fmt@),
{
    let s = string_of(v);
    ndt_exec(s.as_str(), fmt)
}

fn slash_date_exec(s: &str, dmy: &str, mdy: &str) -> (r: Option<UtcNanos>)
    ensures
        opt_nanos(r) == slash_date(s@, dmy@, mdy@),
{
    let v = chars_of(s);
    let parts = split_on_char(&v, '/');
    if parts.len() < 2 {
        return None;
    }
    assert(crate::text::views_of(parts@)[0] == parts@[0]@);
    assert(crate::text::views_of(parts@)[1] == parts@[1]@);
    let a = match parse_u32(&parts[0]) {
        Some(a) => a,
        None => return None,
    };
    let b = match parse_u32(&parts[1]) {
        Some(b) => b,
        None => return None,
    };
    if a > 12 {
        ndt_exec(s, dmy)
    } else if b > 12 {
        ndt_exec(s, mdy)
    } else {
        let us = ndt_exec(s, mdy);
        if us.is_some() {
            us
        } else {
            ndt_exec(s, dmy)
        }
    }
}

fn tier_parse_exec(k: usize, s: &str, year: i32) -> (r: Option<UtcNanos>)
    requires
        k < 12,
    ensures
        opt_nanos(r) == tier_parse(k as int, s@, year as int),
{
    let v = chars_of(s);
    proof {
        reveal_strlit("%Y-%m-%d %H:%M:%S%.f");
        reveal_strlit("%Y-%m-%d %H:%M:%S");
    }
    if k == 0 {
        let n = v.len();
        let fixed: Vec<char> = if n > 20 {
            let tail = crate::text::slice_vec(&v, n - 5, n);
            if !crate::text::vec_contains_char(&tail, ':') && (tail[0] == '+' || tail[0] == '-') {
                let mut f = crate::text::slice_vec(&v, 0, n - 5);
                f.push(tail[0]);
                f.push(tail[1]);
                f.push(tail[2]);
                f.push(':');
                f.push(tail[3]);
                f.push(tail[4]);
                assert(f@ =~= t1_fixed(v@));
                f
            } else {
                v
            }
        } else {
            v
        };
        let fs = string_of(&fixed);
        match rfc3339_parse(fs.as_str()) {
            Some(p) => Some(pair_to_nanos(p)),
            None => None,
        }
    } else if k == 1 {
        let s2 = replace_char_vec(&replace_char_vec(&v, ',', '.'), 'T', ' ');
        ndt_vec(&s2, "%Y-%m-%d %H:%M:%S%.f")
    } else if k == 2 || k == 3 {
        let s1 = if k == 3 { replace_char_vec(&v, '/', '-') } else { v };
        let s2 = replace_char_vec(&s1, 'T', ' ');
        let a = ndt_vec(&s2, "%Y-%m-%d %H:%M:%S%.f");
        if a.is_some() {
            a
        } else {
            ndt_vec(&s2, "%Y-%m-%d %H:%M:%S")
        }
    } else if k == 4 {
        let a = ndt_exec(s, "%d.%m.%Y %H:%M:%S%.f");
        if a.is_some() {
            a
        } else {
            ndt_exec(s, "%d.%m.%Y %H:%M:%S")
        }
    } else if k == 5 {
        match datetime_tz_parse(s, "%d/%b/%Y:%H:%M:%S %z") {
            Some(p) => Some(pair_to_nanos(p)),
            None => None,
        }
    } else if k == 6 {
        slash_date_exec(s, "%d/%m/%Y %H:%M:%S", "%m/%d/%Y %H:%M:%S")
    } else if k == 7 {
        slash_date_exec(s, "%d/%m/%y,%H:%M:%S", "%m/%d/%y,%H:%M:%S")
    } else if k == 8 {
        let c = collapse_whitespace(&replace_char_vec(&v, ',', ' '));
        ndt_vec(&c, "%b %d %Y %H:%M:%S")
    } else if k == 9 {
        let mut w = String::new();
        push_signed_decimal(&mut w, year);
        w.push(' ');
        push_str(&mut w, s);
        assert(w@ =~= signed_decimal(year as int) + seq![' '] + s@);
        ndt_exec(w.as_str(), "%Y %b %e %H:%M:%S")
    } else if k == 10 {
        let s2 = replace_char_vec(&v, ' ', 'T');
        ndt_vec(&s2, "%Y%m%dT%H%M%S")
    } else {
        let parts = split_on_char(&v, '.');
        proof {
            crate::text::lemma_split_nonempty(v@, '.', Seq::empty());
        }
        assert(crate::text::views_of(parts@)[0] == parts@[0]@);
        match parse_i64(&parts[0]) {
            Some(secs) => match datetime_from_secs(secs) {
                Some(t) => Some((t as i128) * 1_000_000_000),
                None => None,
            },
            None => None,
        }
    }
}

/// Find and parse any recognisable timestamp in `raw_line`, trying the
/// tiers from most to least precise, with the current UTC year for the
/// year-less syslog form.  `None` when no tier succeeds (or the patterns
/// do not compile).
pub fn sniff_timestamp(raw_line: &str) -> (r: Option<UtcNanos>)
    ensures
        sniffers_build() ==> exists|y: i32| opt_nanos(r) == sniff_from(raw_line@, y as int, 0),
        !sniffers_build() ==> r is None,
{
    match Sniffers::new() {
        Some(s) => {
            let y = current_year();
            s.sniff(raw_line, y)
        },
        None => None,
    }
}


// ---------------------------------------------------------------------------
// Date inputs typed by the user
// ---------------------------------------------------------------------------

/// A typed date-time, trimmed, as a naive wall-clock time (seconds and
/// nanoseconds): `YYYY-MM-DD HH:MM:SS`, else `YYYY-MM-DD HH:MM`, else
/// `YYYY-MM-DD` at midnight; `None` for blank or unrecognised text.
pub open spec fn filter_datetime_spec(s: Seq<char>) -> Option<(int, int)> {
    let t = trim_spec(s);
    if t.len() == 0 {
        None
    } else {
        match spec_naive_datetime_parse(t, "%Y-%m-%d %H:%M:%S"@) {
            Some(p) => Some(p),
            None => match spec_naive_datetime_parse(t, "%Y-%m-%d %H:%M"@) {
                Some(p) => Some(p),
                None => match spec_naive_date_parse(t, "%Y-%m-%d"@) {
                    Some(d) => Some((d, 0)),
                    None => None,
                },
            },
        }
    }
}

/// Read a typed date-time as a naive wall-clock time (see
/// `filter_datetime_spec`).
pub fn parse_naive_filter_datetime(s: &str) -> (r: Option<(i64, u32)>)
    ensures
        opt_pair(r) == filter_datetime_spec(s@),
{
    let t = trim(s);
    if chars_of(t.as_str()).len() == 0 {
        return None;
    }
    if let Some(p) = naive_datetime_parse(t.as_str(), "%Y-%m-%d %H:%M:%S") {
        return Some(p);
    }
    if let Some(p) = naive_datetime_parse(t.as_str(), "%Y-%m-%d %H:%M") {
        return Some(p);
    }
    match naive_date_parse(t.as_str(), "%Y-%m-%d") {
        Some(d) => Some((d, 0)),
        None => None,
    }
}

/// Read a typed date-time in the machine's local time zone and give its
/// UTC instant (a local time that is ambiguous or skipped is read as UTC):
/// the wall-clock time moved by the zone's offset, a whole number of
/// seconds less than a day either way.
pub fn parse_filter_datetime(s: &str) -> (r: Option<UtcNanos>)
    ensures
        r is Some <==> filter_datetime_spec(s@) is Some,
        r matches Some(t) ==> exists|d: int| -86_400 < d < 86_400
            && t == #[trigger] nanos_of(filter_datetime_spec(s@)->Some_0.0 + d, filter_datetime_spec(s@)->Some_0.1),
{
    match parse_naive_filter_datetime(s) {
        Some((secs, nanos)) => {
            let t = crate::clock::local_to_utc(secs, nanos);
            proof {
                let d = choose|d: int| -86_400 < d < 86_400 && t == #[trigger] nanos_of(secs + d, nanos as int);
                assert(filter_datetime_spec(s@)->Some_0 == (secs as int, nanos as int));
                assert(t == nanos_of(filter_datetime_spec(s@)->Some_0.0 + d, filter_datetime_spec(s@)->Some_0.1));
            }
            Some(t)
        },
        None => None,
    }
}

} // verus!
