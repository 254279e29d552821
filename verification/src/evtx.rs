//! Windows Event Log (`.evtx`) records: decoding the binary file is the
//! `evtx` crate's work; turning each record's XML into a log entry (severity,
//! provider, process, a one-line message from the event payload) is done
//! here.
use vstd::prelude::*;
use crate::text::string_views;
use crate::filter::utf8_len;
use crate::model::{LogEntry, Severity, nanos_of};
use crate::parser::{EntryView, ParseError, ParseResult, cap_string, cap_text, entry_view, entry_views, prefix_within, prefix_within_exec};
use crate::constants::EVTX_MAX_DATA_PAIRS;
use crate::pattern::{CompiledRegex, opt_view, spec_regex_build, spec_regex_captures, spec_regex_captures_all, spec_regex_replace_all};
use crate::text::{chars_of, collapse_whitespace, collapse_ws, decimal, push_chars, push_decimal, push_str, string_of, trim, trim_spec};

verus! {

// ---------------------------------------------------------------------------
// Text helpers
// ---------------------------------------------------------------------------

/// Every non-overlapping occurrence of `from` in `s`, scanning from the
/// left, replaced by `to` (what `str::replace` does for a non-empty `from`).
pub open spec fn replace_lit(s: Seq<char>, from: Seq<char>, to: Seq<char>) -> Seq<char>
    decreases s.len(),
{
    if from.len() == 0 || s.len() < from.len() {
        s
    } else if s.take(from.len() as int) == from {
        to + replace_lit(s.skip(from.len() as int), from, to)
    } else {
        seq![s[0]] + replace_lit(s.drop_first(), from, to)
    }
}

fn starts_at(v: &Vec<char>, at: usize, pat: &Vec<char>) -> (r: bool)
    requires
        at <= v.len(),
    ensures
        r == (at + pat.len() <= v.len() && v@.skip(at as int).take(pat.len() as int) == pat@),
{
    if pat.len() > v.len() - at {
        return false;
    }
    let mut k: usize = 0;
    while k < pat.len()
        invariant
            at + pat.len() <= v.len(),
            k <= pat.len(),
            forall|j: int| 0 <= j < k ==> v@[at + j] == pat@[j],
        decreases pat.len() - k,
    {
        if v[at + k] != pat[k] {
            assert(v@.skip(at as int).take(pat.len() as int)[k as int] == v@[at + k]);
            return false;
        }
        k += 1;
    }
    assert(v@.skip(at as int).take(pat.len() as int) =~= pat@);
    true
}

/// Replace every occurrence of the non-empty text `from` by `to`.
pub fn replace_text(s: &str, from: &str, to: &str) -> (r: String)
    requires
        from@.len() > 0,
    ensures
        r@ == replace_lit(s@, from@, to@),
{
    let v = chars_of(s);
    let f = chars_of(from);
    let t = chars_of(to);
    let mut out: Vec<char> = Vec::new();
    let mut i: usize = 0;
    assert(v@.skip(0) =~= v@);
    while i < v.len()
        invariant
            i <= v.len(),
            f@ == from@,
            t@ == to@,
            f@.len() > 0,
            out@ + replace_lit(v@.skip(i as int), f@, t@) == replace_lit(v@, f@, t@),
        decreases v.len() - i,
    {
        let ghost rest = v@.skip(i as int);
        if starts_at(&v, i, &f) {
            assert(rest.skip(f@.len() as int) =~= v@.skip(i + f@.len()));
            let ghost before = out@;
            let mut k: usize = 0;
            while k < t.len()
                invariant
                    k <= t.len(),
                    out@ == before + t@.take(k as int),
                decreases t.len() - k,
            {
                out.push(t[k]);
                assert(out@ =~= before + t@.take(k + 1));
                k += 1;
            }
            assert(t@.take(t@.len() as int) =~= t@);
            assert(before + replace_lit(rest, f@, t@) =~= out@ + replace_lit(v@.skip(i + f@.len()), f@, t@));
            i = i + f.len();
        } else {
            proof {
                if rest.len() >= f@.len() {
                    assert(rest.take(f@.len() as int) != f@);
                }
            }
            assert(rest.drop_first() =~= v@.skip(i + 1));
            let ghost before = out@;
            out.push(v[i]);
            assert(before + replace_lit(rest, f@, t@) =~= out@ + replace_lit(v@.skip(i + 1), f@, t@));
            i += 1;
        }
    }
    assert(v@.skip(v@.len() as int).len() == 0);
    assert(out@ + replace_lit(v@.skip(v@.len() as int), f@, t@) =~= out@);
    string_of(&out)
}

/// The five predefined XML entities decoded, `&amp;` last.
pub open spec fn decode_entities(s: Seq<char>) -> Seq<char> {
    replace_lit(replace_lit(replace_lit(replace_lit(replace_lit(
        s, "&lt;"@, "<"@), "&gt;"@, ">"@), "&quot;"@, "\""@), "&apos;"@, "'"@), "&amp;"@, "&"@)
}

/// Decode `&lt;`, `&gt;`, `&quot;`, `&apos;` and then `&amp;`.
pub fn decode_xml_entities(s: &str) -> (r: String)
    ensures
        r@ == decode_entities(s@),
{
    proof {
        reveal_strlit("&lt;");
        reveal_strlit("&gt;");
        reveal_strlit("&quot;");
        reveal_strlit("&apos;");
        reveal_strlit("&amp;");
    }
    let a = replace_text(s, "&lt;", "<");
    let b = replace_text(a.as_str(), "&gt;", ">");
    let c = replace_text(b.as_str(), "&quot;", "\"");
    let d = replace_text(c.as_str(), "&apos;", "'");
    replace_text(d.as_str(), "&amp;", "&")
}

/// Collapse runs of whitespace into single spaces, dropping it at both ends.
pub fn normalise_whitespace(s: &str) -> (r: String)
    ensures
        r@ == collapse_ws(s@),
{
    let v = chars_of(s);
    let w = collapse_whitespace(&v);
    string_of(&w)
}

/// The largest char boundary of `s` at or below `max_bytes`.
pub open spec fn boundary_at_most(s: Seq<char>, max_bytes: usize) -> usize {
    if max_bytes >= utf8_len(s) {
        utf8_len(s)
    } else {
        utf8_len(prefix_within(s, max_bytes as int))
    }
}

/// The largest byte index not above `max_bytes` that falls on a character
/// boundary of `s` (the whole length when `max_bytes` reaches past it).
pub fn truncate_to_char_boundary(s: &str, max_bytes: usize) -> (r: usize)
    ensures
        r == boundary_at_most(s@, max_bytes),
{
    if max_bytes >= s.len() {
        return s.len();
    }
    let v = chars_of(s);
    let p = prefix_within_exec(&v, max_bytes);
    let t = string_of(&p);
    t.as_str().len()
}

/// The parts joined with `sep` between neighbours.
pub open spec fn join_with(parts: Seq<Seq<char>>, sep: Seq<char>) -> Seq<char>
    decreases parts.len(),
{
    if parts.len() == 0 {
        Seq::empty()
    } else if parts.len() == 1 {
        parts[0]
    } else {
        join_with(parts.drop_last(), sep) + sep + parts.last()
    }
}


/// Join the strings with `sep` between neighbours.
pub fn join_strings(parts: &Vec<String>, sep: &str) -> (r: String)
    ensures
        r@ == join_with(string_views(parts@), sep@),
{
    let mut out = String::new();
    let mut k: usize = 0;
    while k < parts.len()
        invariant
            k <= parts.len(),
            out@ == join_with(string_views(parts@).take(k as int), sep@),
        decreases parts.len() - k,
    {
        let ghost prev = out@;
        if k > 0 {
            push_str(&mut out, sep);
        }
        push_str(&mut out, parts[k].as_str());
        let ghost ws = string_views(parts@);
        assert(ws.take(k + 1).drop_last() =~= ws.take(k as int));
        assert(ws[k as int] == parts@[k as int]@);
        if k == 0 {
            assert(out@ =~= join_with(ws.take(1), sep@));
        } else {
            assert(out@ =~= join_with(ws.take(k as int), sep@) + sep@ + ws[k as int]);
        }
        k += 1;
    }
    assert(string_views(parts@).take(parts@.len() as int) =~= string_views(parts@));
    out
}


// ---------------------------------------------------------------------------
// Patterns
// ---------------------------------------------------------------------------

pub open spec fn event_id_pat() -> Seq<char> { "<EventID[^>]*>(\\d+)</EventID>"@ }
pub open spec fn level_pat() -> Seq<char> { "<Level>(\\d+)</Level>"@ }
pub open spec fn provider_pat() -> Seq<char> { "<Provider[^>]*\\bName=(?:'([^']+)'|\"([^\"]+)\")"@ }
pub open spec fn channel_pat() -> Seq<char> { "<Channel>([^<]+)</Channel>"@ }
pub open spec fn computer_pat() -> Seq<char> { "<Computer>([^<]+)</Computer>"@ }
pub open spec fn process_id_pat() -> Seq<char> { "ProcessID=(?:'(\\d+)'|\"(\\d+)\")"@ }
pub open spec fn thread_id_pat() -> Seq<char> { "ThreadID=(?:'(\\d+)'|\"(\\d+)\")"@ }
pub open spec fn event_data_pat() -> Seq<char> { "<Data(?:\\s+Name=(?:'([^']*)'|\"([^\"]*)\"))?[^>]*>([^<]*)</Data>"@ }
pub open spec fn rendered_pat() -> Seq<char> { "(?s)<RenderingInfo[^>]*>.*?<Message>(.*?)</Message>"@ }
pub open spec fn user_block_pat() -> Seq<char> { "(?s)<UserData[^>]*>(.*?)</UserData>"@ }
pub open spec fn user_field_pat() -> Seq<char> { "(?s)<([A-Za-z0-9_:\\.-]+)[^>]*>([^<]+)</([A-Za-z0-9_:\\.-]+)>"@ }
pub open spec fn xml_tag_pat() -> Seq<char> { "(?s)<[^>]+>"@ }

/// Every pattern used on event XML compiles (case-sensitive).
pub open spec fn evtx_patterns_build() -> bool {
    &&& spec_regex_build(event_id_pat(), false) is None
    &&& spec_regex_build(level_pat(), false) is None
    &&& spec_regex_build(provider_pat(), false) is None
    &&& spec_regex_build(channel_pat(), false) is None
    &&& spec_regex_build(computer_pat(), false) is None
    &&& spec_regex_build(process_id_pat(), false) is None
    &&& spec_regex_build(thread_id_pat(), false) is None
    &&& spec_regex_build(event_data_pat(), false) is None
    &&& spec_regex_build(rendered_pat(), false) is None
    &&& spec_regex_build(user_block_pat(), false) is None
    &&& spec_regex_build(user_field_pat(), false) is None
    &&& spec_regex_build(xml_tag_pat(), false) is None
}

/// The compiled patterns that pick fields out of event XML.
pub struct EvtxPatterns {
    event_id: CompiledRegex,
    level: CompiledRegex,
    provider: CompiledRegex,
    channel: CompiledRegex,
    computer: CompiledRegex,
    process_id: CompiledRegex,
    thread_id: CompiledRegex,
    event_data: CompiledRegex,
    rendered: CompiledRegex,
    user_block: CompiledRegex,
    user_field: CompiledRegex,
    xml_tag: CompiledRegex,
}

impl EvtxPatterns {
    pub closed spec fn wf(&self) -> bool {
        &&& self.event_id.source_spec() == event_id_pat() && !self.event_id.ci_spec()
        &&& self.level.source_spec() == level_pat() && !self.level.ci_spec()
        &&& self.provider.source_spec() == provider_pat() && !self.provider.ci_spec()
        &&& self.channel.source_spec() == channel_pat() && !self.channel.ci_spec()
        &&& self.computer.source_spec() == computer_pat() && !self.computer.ci_spec()
        &&& self.process_id.source_spec() == process_id_pat() && !self.process_id.ci_spec()
        &&& self.thread_id.source_spec() == thread_id_pat() && !self.thread_id.ci_spec()
        &&& self.event_data.source_spec() == event_data_pat() && !self.event_data.ci_spec()
        &&& self.rendered.source_spec() == rendered_pat() && !self.rendered.ci_spec()
        &&& self.user_block.source_spec() == user_block_pat() && !self.user_block.ci_spec()
        &&& self.user_field.source_spec() == user_field_pat() && !self.user_field.ci_spec()
        &&& self.xml_tag.source_spec() == xml_tag_pat() && !self.xml_tag.ci_spec()
    }

    /// Compile every pattern; `None` if one of them does not compile.
    pub fn new() -> (r: Option<EvtxPatterns>)
        ensures
            r is Some <==> evtx_patterns_build(),
            r matches Some(p) ==> p.wf(),
    {
        let event_id = CompiledRegex::new("<EventID[^>]*>(\\d+)</EventID>", false);
        let level = CompiledRegex::new("<Level>(\\d+)</Level>", false);
        let provider = CompiledRegex::new("<Provider[^>]*\\bName=(?:'([^']+)'|\"([^\"]+)\")", false);
        let channel = CompiledRegex::new("<Channel>([^<]+)</Channel>", false);
        let computer = CompiledRegex::new("<Computer>([^<]+)</Computer>", false);
        let process_id = CompiledRegex::new("ProcessID=(?:'(\\d+)'|\"(\\d+)\")", false);
        let thread_id = CompiledRegex::new("ThreadID=(?:'(\\d+)'|\"(\\d+)\")", false);
        let event_data = CompiledRegex::new("<Data(?:\\s+Name=(?:'([^']*)'|\"([^\"]*)\"))?[^>]*>([^<]*)</Data>", false);
        let rendered = CompiledRegex::new("(?s)<RenderingInfo[^>]*>.*?<Message>(.*?)</Message>", false);
        let user_block = CompiledRegex::new("(?s)<UserData[^>]*>(.*?)</UserData>", false);
        let user_field = CompiledRegex::new("(?s)<([A-Za-z0-9_:\\.-]+)[^>]*>([^<]+)</([A-Za-z0-9_:\\.-]+)>", false);
        let xml_tag = CompiledRegex::new("(?s)<[^>]+>", false);
        match (event_id, level, provider, channel, computer, process_id) {
            (Ok(event_id), Ok(level), Ok(provider), Ok(channel), Ok(computer), Ok(process_id)) => {
                match (thread_id, event_data, rendered, user_block, user_field, xml_tag) {
                    (Ok(thread_id), Ok(event_data), Ok(rendered), Ok(user_block), Ok(user_field), Ok(xml_tag)) => {
                        Some(EvtxPatterns {
                            event_id, level, provider, channel, computer, process_id,
                            thread_id, event_data, rendered, user_block, user_field, xml_tag,
                        })
                    },
                    _ => None,
                }
            },
            _ => None,
        }
    }
}

// ---------------------------------------------------------------------------
// Field extraction
// ---------------------------------------------------------------------------

/// The views of a match's groups.
pub open spec fn groups_view(c: Seq<Option<String>>) -> Seq<Option<Seq<char>>> {
    c.map_values(|o: Option<String>| opt_view(o))
}

/// Group `i` of a match, `None` when absent.
pub open spec fn cap_group(c: Seq<Option<Seq<char>>>, i: int) -> Option<Seq<char>> {
    if 0 <= i < c.len() { c[i] } else { None }
}

/// The first group whose trimmed text is not empty, trimmed.
pub open spec fn first_nonblank(gs: Seq<Option<Seq<char>>>) -> Option<Seq<char>>
    decreases gs.len(),
{
    if gs.len() == 0 {
        None
    } else {
        match gs[0] {
            Some(g) => if trim_spec(g).len() > 0 { Some(trim_spec(g)) } else { first_nonblank(gs.drop_first()) },
            None => first_nonblank(gs.drop_first()),
        }
    }
}

/// The first non-blank capture group (trimmed) of the first match of `pat`.
pub open spec fn extract_spec(pat: Seq<char>, xml: Seq<char>) -> Option<Seq<char>> {
    match spec_regex_captures(pat, false, xml) {
        None => None,
        Some(c) => if c.len() == 0 { None } else { first_nonblank(c.drop_first()) },
    }
}

fn group_at(c: &Vec<Option<String>>, i: usize) -> (r: Option<String>)
    ensures
        opt_view(r) == cap_group(groups_view(c@), i as int),
{
    if i < c.len() {
        match &c[i] {
            Some(g) => Some(g.clone()),
            None => None,
        }
    } else {
        None
    }
}

/// The first non-blank capture group of the first match, trimmed.
pub fn extract_match(re: &CompiledRegex, xml: &str) -> (r: Option<String>)
    requires
        !re.ci_spec(),
    ensures
        opt_view(r) == extract_spec(re.source_spec(), xml@),
{
    match re.captures(xml) {
        None => None,
        Some(c) => {
            let ghost cv = groups_view(c@);
            assert(cv == c@.map_values(|o: Option<String>| opt_view(o)));
            if c.len() == 0 {
                return None;
            }
            let mut i: usize = 1;
            assert(cv.skip(1) =~= cv.drop_first());
            while i < c.len()
                invariant
                    1 <= i <= c.len(),
                    cv == groups_view(c@),
                    !re.ci_spec(),
                    spec_regex_captures(re.source_spec(), false, xml@) == Some(cv),
                    first_nonblank(cv.skip(i as int)) == first_nonblank(cv.drop_first()),
                decreases c.len() - i,
            {
                let ghost rest = cv.skip(i as int);
                assert(rest.drop_first() =~= cv.skip(i + 1));
                assert(rest[0] == opt_view(c@[i as int]));
                if let Some(g) = &c[i] {
                    let t = trim(g.as_str());
                    if nonempty(t.as_str()) {
                        assert(rest[0] == Some(g@));
                        assert(first_nonblank(rest) == Some(t@));
                        assert(spec_regex_captures(re.source_spec(), false, xml@) == Some(cv));
                        return Some(t);
                    }
                }
                i += 1;
            }
            None
        },
    }
}

/// At most the first `n` items.
pub open spec fn take_at_most<A>(s: Seq<A>, n: nat) -> Seq<A> {
    if s.len() <= n { s } else { s.take(n as int) }
}

/// The key of one `<Data>` element: its `Name` (single- or double-quoted),
/// trimmed, unless that is absent or blank.
pub open spec fn data_key(c: Seq<Option<Seq<char>>>) -> Option<Seq<char>> {
    let k = if cap_group(c, 1) is Some { cap_group(c, 1) } else { cap_group(c, 2) };
    match k {
        Some(x) => if trim_spec(x).len() > 0 { Some(trim_spec(x)) } else { None },
        None => None,
    }
}

/// The text of an optional group, empty when absent.
pub open spec fn group_text(c: Seq<Option<Seq<char>>>, i: int) -> Seq<char> {
    match cap_group(c, i) {
        Some(v) => v,
        None => Seq::empty(),
    }
}

/// `key=value` for each `<Data>` match; an element without a usable name is
/// called `Data{n}` with `n` counting such elements from `counter`; a pair
/// ending in `=` is dropped.
pub open spec fn event_pairs(caps: Seq<Seq<Option<Seq<char>>>>, counter: nat) -> Seq<Seq<char>>
    decreases caps.len(),
{
    if caps.len() == 0 {
        Seq::empty()
    } else {
        let c = caps[0];
        let key = match data_key(c) {
            Some(k) => k,
            None => "Data"@ + decimal(counter),
        };
        let next = if data_key(c) is Some { counter } else { counter + 1 };
        let kv = key + "="@ + collapse_ws(decode_entities(group_text(c, 3)));
        let rest = event_pairs(caps.drop_first(), next);
        if kv.last() == '=' { rest } else { seq![kv] + rest }
    }
}

/// The `<EventData>` summary: up to the first pairs, joined with `, `.
pub open spec fn event_data_spec(xml: Seq<char>) -> Seq<char> {
    join_with(event_pairs(take_at_most(spec_regex_captures_all(event_data_pat(), false, xml),
        EVTX_MAX_DATA_PAIRS as nat), 1), ", "@)
}

fn text_of(o: Option<String>) -> (r: String)
    ensures
        r@ == match opt_view(o) { Some(v) => v, None => Seq::<char>::empty() },
{
    match o {
        Some(s) => s,
        None => String::new(),
    }
}

/// Summarise the `<EventData>` section as `Key=Value` pairs joined with `, `.
pub fn extract_event_data(xml: &str, pats: &EvtxPatterns) -> (r: String)
    requires
        pats.wf(),
    ensures
        r@ == event_data_spec(xml@),
{
    let all = pats.event_data.captures_all(xml);
    let ghost caps = all@.map_values(|g: Vec<Option<String>>| g@.map_values(|o: Option<String>| opt_view(o)));
    let n: usize = if all.len() <= EVTX_MAX_DATA_PAIRS { all.len() } else { EVTX_MAX_DATA_PAIRS };
    let ghost taken = take_at_most(caps, EVTX_MAX_DATA_PAIRS as nat);
    assert(taken =~= caps.take(n as int));
    let mut counter: usize = 1;
    let mut pairs: Vec<String> = Vec::new();
    let mut i: usize = 0;
    assert(taken.subrange(0, n as int) =~= taken);
    while i < n
        invariant
            i <= n <= all.len(),
            n <= EVTX_MAX_DATA_PAIRS,
            counter <= i + 1,
            taken == caps.take(n as int),
            caps == all@.map_values(|g: Vec<Option<String>>| g@.map_values(|o: Option<String>| opt_view(o))),
            string_views(pairs@) + event_pairs(taken.subrange(i as int, n as int), counter as nat) == event_pairs(taken, 1),
        decreases n - i,
    {
        let ghost rest = taken.subrange(i as int, n as int);
        let ghost c = rest[0];
        assert(rest.drop_first() =~= taken.subrange(i + 1, n as int));
        assert(c == groups_view(all@[i as int]@));
        let g1 = group_at(&all[i], 1);
        let g2 = group_at(&all[i], 2);
        let g3 = group_at(&all[i], 3);
        let kraw = if g1.is_some() { g1 } else { g2 };
        let mut key_opt: Option<String> = None;
        if let Some(k) = kraw {
            let t = trim(k.as_str());
            if nonempty(t.as_str()) {
                key_opt = Some(t);
            }
        }
        assert(opt_view(key_opt) == data_key(c));
        let generated = key_opt.is_none();
        let mut kv = match key_opt {
            Some(k) => k,
            None => {
                let mut g = String::new();
                push_str(&mut g, "Data");
                push_decimal(&mut g, counter as u64);
                proof { reveal_strlit("Data"); }
                g
            },
        };
        push_str(&mut kv, "=");
        let decoded = decode_xml_entities(text_of(g3).as_str());
        let value = normalise_whitespace(decoded.as_str());
        push_str(&mut kv, value.as_str());
        proof { reveal_strlit("="); }
        let ghost before = string_views(pairs@);
        let last_is_eq = ends_with_char(kv.as_str(), '=');
        if !last_is_eq {
            pairs.push(kv);
            assert(string_views(pairs@) =~= before.push(kv@));
            assert(before.push(kv@) + event_pairs(rest.drop_first(), if generated { (counter + 1) as nat } else { counter as nat })
                =~= before + (seq![kv@] + event_pairs(rest.drop_first(), if generated { (counter + 1) as nat } else { counter as nat })));
        }
        if generated {
            counter = counter + 1;
        }
        i += 1;
    }
    assert(taken.subrange(n as int, n as int) =~= Seq::<Seq<Option<Seq<char>>>>::empty());
    assert(string_views(pairs@) + Seq::<Seq<char>>::empty() =~= string_views(pairs@));
    join_strings(&pairs, ", ")
}

/// Whether `s` has a character.
fn nonempty(s: &str) -> (r: bool)
    ensures
        r == (s@.len() > 0),
{
    chars_of(s).len() > 0
}

/// Whether the last character of `s` is `c`.
fn ends_with_char(s: &str, c: char) -> (r: bool)
    ensures
        r == (s@.len() > 0 && s@.last() == c),
{
    let v = chars_of(s);
    v.len() > 0 && v[v.len() - 1] == c
}


/// The part of an element name after its last `:` (the whole name when it
/// has none).
pub open spec fn key_tail(k: Seq<char>) -> Seq<char>
    decreases k.len(),
{
    if k.len() == 0 {
        k
    } else if k.last() == ':' {
        Seq::empty()
    } else {
        key_tail(k.drop_last()).push(k.last())
    }
}

fn key_tail_exec(k: &str) -> (r: String)
    ensures
        r@ == key_tail(k@),
{
    let v = chars_of(k);
    let mut start: usize = v.len();
    assert(v@.take(v@.len() as int) =~= v@);
    assert(v@.skip(v@.len() as int) =~= Seq::<char>::empty());
    assert(key_tail(v@) + Seq::<char>::empty() =~= key_tail(v@));
    while start > 0 && v[start - 1] != ':'
        invariant
            start <= v.len(),
            key_tail(v@) == key_tail(v@.take(start as int)) + v@.skip(start as int),
        decreases start,
    {
        let ghost t = v@.take(start as int);
        assert(t.drop_last() =~= v@.take(start - 1));
        assert(t.last() == v@[start - 1]);
        assert(v@.skip(start - 1) =~= seq![v@[start - 1]] + v@.skip(start as int));
        assert(key_tail(t) == key_tail(t.drop_last()).push(t.last()));
        assert(key_tail(t.drop_last()).push(t.last()) + v@.skip(start as int)
            =~= key_tail(v@.take(start - 1)) + v@.skip(start - 1));
        start -= 1;
    }
    proof {
        assert(v@.take(v@.len() as int) =~= v@);
        if start > 0 {
            assert(v@.take(start as int).last() == ':');
        }
        assert(key_tail(v@.take(start as int)) =~= Seq::<char>::empty());
        assert(Seq::<char>::empty() + v@.skip(start as int) =~= v@.skip(start as int));
        assert(v@.skip(start as int) =~= v@.subrange(start as int, v@.len() as int));
    }
    crate::text::string_of_range(&v, start, v.len())
}

/// `key=value` for each `<Field>value</Field>` match whose opening and
/// closing names agree, the key being the name after its last `:`, trimmed;
/// pairs with an empty key or value are dropped.
pub open spec fn user_pairs(caps: Seq<Seq<Option<Seq<char>>>>) -> Seq<Seq<char>>
    decreases caps.len(),
{
    if caps.len() == 0 {
        Seq::empty()
    } else {
        let c = caps[0];
        let rest = user_pairs(caps.drop_first());
        if group_text(c, 1) != group_text(c, 3) {
            rest
        } else {
            let key = trim_spec(key_tail(group_text(c, 1)));
            let value = collapse_ws(decode_entities(group_text(c, 2)));
            if key.len() > 0 && value.len() > 0 { seq![key + "="@ + value] + rest } else { rest }
        }
    }
}

/// The `<UserData>` summary: its field pairs joined with `, `, or else its
/// text with the tags taken out; empty when there is no (non-blank) block.
pub open spec fn user_data_spec(xml: Seq<char>) -> Seq<char> {
    match extract_spec(user_block_pat(), xml) {
        None => Seq::empty(),
        Some(block) => {
            let pairs = user_pairs(take_at_most(spec_regex_captures_all(user_field_pat(), false, block),
                EVTX_MAX_DATA_PAIRS as nat));
            if pairs.len() > 0 {
                join_with(pairs, ", "@)
            } else {
                collapse_ws(decode_entities(spec_regex_replace_all(xml_tag_pat(), false, block, " "@)))
            }
        },
    }
}

/// Summarise the `<UserData>` section as `Key=Value` pairs joined with `, `,
/// falling back to its plain text.
pub fn extract_user_data(xml: &str, pats: &EvtxPatterns) -> (r: String)
    requires
        pats.wf(),
    ensures
        r@ == user_data_spec(xml@),
{
    let block = match extract_match(&pats.user_block, xml) {
        None => return String::new(),
        Some(b) => b,
    };
    let all = pats.user_field.captures_all(block.as_str());
    let ghost caps = all@.map_values(|g: Vec<Option<String>>| g@.map_values(|o: Option<String>| opt_view(o)));
    let n: usize = if all.len() <= EVTX_MAX_DATA_PAIRS { all.len() } else { EVTX_MAX_DATA_PAIRS };
    let ghost taken = take_at_most(caps, EVTX_MAX_DATA_PAIRS as nat);
    assert(taken =~= caps.take(n as int));
    let mut pairs: Vec<String> = Vec::new();
    let mut i: usize = 0;
    assert(taken.subrange(0, n as int) =~= taken);
    while i < n
        invariant
            i <= n <= all.len(),
            taken == caps.take(n as int),
            caps == all@.map_values(|g: Vec<Option<String>>| g@.map_values(|o: Option<String>| opt_view(o))),
            string_views(pairs@) + user_pairs(taken.subrange(i as int, n as int)) == user_pairs(taken),
        decreases n - i,
    {
        let ghost rest = taken.subrange(i as int, n as int);
        let ghost c = rest[0];
        assert(rest.drop_first() =~= taken.subrange(i + 1, n as int));
        assert(c == groups_view(all@[i as int]@));
        let open_name = text_of(group_at(&all[i], 1));
        let close_name = text_of(group_at(&all[i], 3));
        if crate::text::str_eq(open_name.as_str(), close_name.as_str()) {
            let tail = key_tail_exec(open_name.as_str());
            let key = trim(tail.as_str());
            let decoded = decode_xml_entities(text_of(group_at(&all[i], 2)).as_str());
            let value = normalise_whitespace(decoded.as_str());
            if nonempty(key.as_str()) && nonempty(value.as_str()) {
                let mut kv = key;
                push_str(&mut kv, "=");
                push_str(&mut kv, value.as_str());
                proof { reveal_strlit("="); }
                let ghost before = string_views(pairs@);
                pairs.push(kv);
                assert(string_views(pairs@) =~= before.push(kv@));
                assert(before.push(kv@) + user_pairs(rest.drop_first())
                    =~= before + (seq![kv@] + user_pairs(rest.drop_first())));
            }
        }
        i += 1;
    }
    assert(taken.subrange(n as int, n as int) =~= Seq::<Seq<Option<Seq<char>>>>::empty());
    assert(string_views(pairs@) + Seq::<Seq<char>>::empty() =~= string_views(pairs@));
    if pairs.len() > 0 {
        join_strings(&pairs, ", ")
    } else {
        let plain = pats.xml_tag.replace_all(block.as_str(), " ");
        let decoded = decode_xml_entities(plain.as_str());
        normalise_whitespace(decoded.as_str())
    }
}

/// `[x]` for `Some(x)`, nothing for `None`.
pub open spec fn opt_part(o: Option<Seq<char>>) -> Seq<Seq<char>> {
    match o {
        Some(x) => seq![x],
        None => Seq::empty(),
    }
}

/// `[s]` for a non-empty `s`, nothing otherwise.
pub open spec fn nonempty_part(s: Seq<char>) -> Seq<Seq<char>> {
    if s.len() > 0 { seq![s] } else { Seq::empty() }
}

/// At most the first 200 bytes of the XML, cut at a character boundary.
pub open spec fn xml_snippet(xml: Seq<char>) -> Seq<char> {
    if utf8_len(xml) <= 200 { xml } else { prefix_within(xml, 200) }
}

/// The one-line message of an event: the rendered message when the record
/// has a non-blank one; otherwise `EventID {id} | {provider} | {channel} |
/// {computer} | {payload}` with the parts that are present (the payload is
/// the event-data and user-data summaries, joined with ` | `); a record with
/// none of these gives the start of its XML.
pub open spec fn message_spec(event_id: Option<Seq<char>>, provider: Option<Seq<char>>, channel: Option<Seq<char>>,
    computer: Option<Seq<char>>, xml: Seq<char>) -> Seq<char>
{
    let rendered = match extract_spec(rendered_pat(), xml) {
        Some(r) => collapse_ws(decode_entities(r)),
        None => Seq::empty(),
    };
    if rendered.len() > 0 {
        rendered
    } else {
        let head = opt_part(match event_id { Some(id) => Some("EventID "@ + id), None => None })
            + opt_part(provider) + opt_part(channel) + opt_part(computer);
        let payload = nonempty_part(event_data_spec(xml)) + nonempty_part(user_data_spec(xml));
        let parts = if payload.len() > 0 { head.push(join_with(payload, " | "@)) } else { head };
        if parts.len() == 0 { xml_snippet(xml) } else { join_with(parts, " | "@) }
    }
}

fn push_opt(parts: &mut Vec<String>, o: Option<&str>)
    ensures
        string_views(final(parts)@) == string_views(old(parts)@) + opt_part(match o { Some(x) => Some(x@), None => None }),
{
    if let Some(x) = o {
        let ghost before = string_views(parts@);
        parts.push(x.to_string());
        assert(string_views(parts@) =~= before + seq![x@]);
    } else {
        assert(string_views(parts@) =~= string_views(parts@) + Seq::<Seq<char>>::empty());
    }
}

pub open spec fn opt_str(o: Option<&str>) -> Option<Seq<char>> {
    match o {
        Some(x) => Some(x@),
        None => None,
    }
}

/// Build the one-line message of an event from its extracted fields and XML.
pub fn build_message(event_id: Option<&str>, provider: Option<&str>, channel: Option<&str>, computer: Option<&str>,
    xml: &str, pats: &EvtxPatterns) -> (r: String)
    requires
        pats.wf(),
    ensures
        r@ == message_spec(opt_str(event_id), opt_str(provider), opt_str(channel), opt_str(computer), xml@),
{
    if let Some(rendered) = extract_match(&pats.rendered, xml) {
        let decoded = decode_xml_entities(rendered.as_str());
        let text = normalise_whitespace(decoded.as_str());
        if nonempty(text.as_str()) {
            return text;
        }
    }
    let mut parts: Vec<String> = Vec::new();
    let ghost ev = match event_id { Some(id) => Some("EventID "@ + id@), None => None };
    if let Some(id) = event_id {
        let mut p = String::new();
        push_str(&mut p, "EventID ");
        push_str(&mut p, id);
        proof { reveal_strlit("EventID "); }
        parts.push(p);
        assert(string_views(parts@) =~= opt_part(ev));
    } else {
        assert(string_views(parts@) =~= opt_part(ev));
    }
    push_opt(&mut parts, provider);
    push_opt(&mut parts, channel);
    push_opt(&mut parts, computer);
    let ed = extract_event_data(xml, pats);
    let ud = extract_user_data(xml, pats);
    let mut payload: Vec<String> = Vec::new();
    if nonempty(ed.as_str()) {
        payload.push(ed);
    }
    let ghost p1 = string_views(payload@);
    if nonempty(ud.as_str()) {
        payload.push(ud);
    }
    assert(string_views(payload@) =~= nonempty_part(event_data_spec(xml@)) + nonempty_part(user_data_spec(xml@)));
    if payload.len() > 0 {
        let joined = join_strings(&payload, " | ");
        let ghost before = string_views(parts@);
        parts.push(joined);
        assert(string_views(parts@) =~= before.push(joined@));
    }
    if parts.len() == 0 {
        if xml.len() <= 200 {
            return xml.to_string();
        }
        let v = chars_of(xml);
        let p = prefix_within_exec(&v, 200);
        return string_of(&p);
    }
    join_strings(&parts, " | ")
}


// ---------------------------------------------------------------------------
// Records
// ---------------------------------------------------------------------------

/// One event record as the `evtx` crate renders it: its record ID, its
/// timestamp (whole seconds since the epoch and the signed nanoseconds past
/// them) and its XML.
#[derive(Debug)]
pub struct EvtxRecord {
    pub event_record_id: u64,
    pub seconds: i64,
    pub subsec_nanos: i32,
    pub xml: String,
}

/// Profile ID given to entries read from event logs.
pub open spec fn evtx_profile_id_spec() -> Seq<char> {
    "windows-evtx"@
}

/// Profile ID given to entries read from event logs.
pub fn evtx_profile_id() -> (r: &'static str)
    ensures
        r@ == evtx_profile_id_spec(),
{
    "windows-evtx"
}

/// Severity of a `<Level>` value: 1 Critical, 2 Error, 3 Warning, 0 and 4
/// Info, 5 Debug, anything else Unknown.
pub open spec fn level_severity(level: Option<Seq<char>>) -> Severity {
    if level == Some("1"@) {
        Severity::Critical
    } else if level == Some("2"@) {
        Severity::Error
    } else if level == Some("3"@) {
        Severity::Warning
    } else if level == Some("4"@) || level == Some("0"@) {
        Severity::Info
    } else if level == Some("5"@) {
        Severity::Debug
    } else {
        Severity::Unknown
    }
}

fn level_severity_exec(level: &Option<String>) -> (r: Severity)
    ensures
        r == level_severity(opt_view(*level)),
{
    proof {
        reveal_strlit("0");
        reveal_strlit("1");
        reveal_strlit("2");
        reveal_strlit("3");
        reveal_strlit("4");
        reveal_strlit("5");
    }
    match level {
        None => Severity::Unknown,
        Some(l) => {
            let v = chars_of(l.as_str());
            if v.len() != 1 {
                assert(l@ != "1"@ && l@ != "2"@ && l@ != "3"@ && l@ != "4"@ && l@ != "0"@ && l@ != "5"@);
                return Severity::Unknown;
            }
            let c = v[0];
            assert(l@ =~= seq![c]);
            if c == '1' {
                assert(l@ =~= "1"@);
                Severity::Critical
            } else if c == '2' {
                assert(l@ =~= "2"@);
                Severity::Error
            } else if c == '3' {
                assert(l@ =~= "3"@);
                Severity::Warning
            } else if c == '4' || c == '0' {
                assert(l@ =~= "4"@ || l@ =~= "0"@);
                Severity::Info
            } else if c == '5' {
                assert(l@ =~= "5"@);
                Severity::Debug
            } else {
                assert(l@ != "1"@ && l@ != "2"@ && l@ != "3"@ && l@ != "4"@ && l@ != "0"@ && l@ != "5"@);
                Severity::Unknown
            }
        },
    }
}

/// The entry made from one record: ID `id`, the record's timestamp, the
/// severity of its level, the provider as component, the process ID (else
/// the thread ID) as thread, the record ID as line number, the event message,
/// and the XML (capped at `max_entry` bytes) as raw text.
pub open spec fn record_entry(rec: EvtxRecord, file: Seq<char>, max_entry: usize, id: u64) -> EntryView {
    let xml = rec.xml@;
    let provider = extract_spec(provider_pat(), xml);
    EntryView {
        id,
        timestamp: Some(nanos_of(rec.seconds as int, rec.subsec_nanos as int)),
        severity: level_severity(extract_spec(level_pat(), xml)),
        source_file: file,
        line_number: rec.event_record_id,
        thread: match extract_spec(process_id_pat(), xml) {
            Some(p) => Some(p),
            None => extract_spec(thread_id_pat(), xml),
        },
        component: provider,
        message: message_spec(extract_spec(event_id_pat(), xml), provider, extract_spec(channel_pat(), xml),
            extract_spec(computer_pat(), xml), xml),
        raw_text: cap_text(xml, max_entry),
        profile_id: evtx_profile_id_spec(),
        file_modified: None,
    }
}

fn opt_as_str(o: &Option<String>) -> (r: Option<&str>)
    ensures
        opt_str(r) == opt_view(*o),
{
    match o {
        Some(s) => Some(s.as_str()),
        None => None,
    }
}

/// Turn one record into a log entry with ID `id`.
pub fn record_to_entry(rec: &EvtxRecord, file: &str, max_entry_size: usize, id: u64, pats: &EvtxPatterns) -> (r: LogEntry)
    requires
        pats.wf(),
    ensures
        entry_view(r) == record_entry(*rec, file@, max_entry_size, id),
{
    let xml = rec.xml.as_str();
    let event_id = extract_match(&pats.event_id, xml);
    let level = extract_match(&pats.level, xml);
    let provider = extract_match(&pats.provider, xml);
    let channel = extract_match(&pats.channel, xml);
    let computer = extract_match(&pats.computer, xml);
    let process_id = extract_match(&pats.process_id, xml);
    let thread_id = extract_match(&pats.thread_id, xml);
    let severity = level_severity_exec(&level);
    let message = build_message(opt_as_str(&event_id), opt_as_str(&provider), opt_as_str(&channel),
        opt_as_str(&computer), xml, pats);
    let thread = match process_id {
        Some(p) => Some(p),
        None => thread_id,
    };
    let raw_text = cap_string(rec.xml.clone(), max_entry_size);
    let timestamp = (rec.seconds as i128) * 1_000_000_000 + (rec.subsec_nanos as i128);
    LogEntry {
        id,
        timestamp: Some(timestamp),
        severity,
        source_file: file.to_string(),
        line_number: rec.event_record_id,
        thread,
        component: provider,
        message,
        raw_text,
        profile_id: evtx_profile_id().to_string(),
        file_modified: None,
    }
}

/// Reason recorded for a record the `evtx` crate could not decode.
pub open spec fn record_error_reason(e: Seq<char>) -> Seq<char> {
    "Failed to parse event record: "@ + e
}

/// Entries and errors (line number, reason) from the records: each decoded
/// record becomes the next entry, IDs counting up from `id_start`; each
/// failed record adds an error naming its position (counting from 1) while
/// fewer than `max_errors` have been recorded.
pub open spec fn evtx_fold(rs: Seq<Result<EvtxRecord, String>>, file: Seq<char>, max_entry: usize, max_errors: usize,
    id_start: u64) -> (Seq<EntryView>, Seq<(u64, Seq<char>)>)
    decreases rs.len(),
{
    if rs.len() == 0 {
        (Seq::empty(), Seq::empty())
    } else {
        let prev = evtx_fold(rs.drop_last(), file, max_entry, max_errors, id_start);
        match rs.last() {
            Ok(rec) => (prev.0.push(record_entry(rec, file, max_entry, (id_start + prev.0.len()) as u64)), prev.1),
            Err(e) => (prev.0, if prev.1.len() < max_errors {
                prev.1.push((rs.len() as u64, record_error_reason(e@)))
            } else {
                prev.1
            }),
        }
    }
}

proof fn lemma_fold_len(rs: Seq<Result<EvtxRecord, String>>, file: Seq<char>, max_entry: usize, max_errors: usize, id_start: u64)
    ensures
        evtx_fold(rs, file, max_entry, max_errors, id_start).0.len() <= rs.len(),
    decreases rs.len(),
{
    if rs.len() > 0 {
        lemma_fold_len(rs.drop_last(), file, max_entry, max_errors, id_start);
    }
}

/// A record error as (line number, reason), with the file it names.
pub open spec fn line_error(e: ParseError) -> Option<(u64, Seq<char>)> {
    match e {
        ParseError::LineParse { line_number, reason, .. } => Some((line_number, reason@)),
        _ => None,
    }
}

pub open spec fn error_file(e: ParseError) -> Seq<char> {
    match e {
        ParseError::TimestampParse { file, .. } => file@,
        ParseError::LineParse { file, .. } => file@,
        ParseError::Io { file, .. } => file@,
    }
}

/// Entries and errors for a sequence of records (see `evtx_fold`); every
/// record counts as a processed line.
pub fn parse_evtx_records(records: &Vec<Result<EvtxRecord, String>>, file: &str, max_entry_size: usize,
    max_parse_errors: usize, id_start: u64, pats: &EvtxPatterns) -> (r: ParseResult)
    requires
        pats.wf(),
        id_start + records.len() <= u64::MAX,
    ensures
        entry_views(r.entries@) == evtx_fold(records@, file@, max_entry_size, max_parse_errors, id_start).0,
        r.errors@.map_values(|e: ParseError| line_error(e)) == evtx_fold(records@, file@, max_entry_size,
            max_parse_errors, id_start).1.map_values(|p: (u64, Seq<char>)| Some(p)),
        forall|k: int| 0 <= k < r.errors@.len() ==> error_file(#[trigger] r.errors@[k]) == file@,
        r.lines_processed == records.len(),
{
    let mut entries: Vec<LogEntry> = Vec::new();
    let mut errors: Vec<ParseError> = Vec::new();
    let mut i: usize = 0;
    while i < records.len()
        invariant
            i <= records.len(),
            pats.wf(),
            id_start + records.len() <= u64::MAX,
            entry_views(entries@) == evtx_fold(records@.take(i as int), file@, max_entry_size, max_parse_errors, id_start).0,
            errors@.map_values(|e: ParseError| line_error(e)) == evtx_fold(records@.take(i as int), file@, max_entry_size,
                max_parse_errors, id_start).1.map_values(|p: (u64, Seq<char>)| Some(p)),
            forall|k: int| 0 <= k < errors@.len() ==> error_file(#[trigger] errors@[k]) == file@,
        decreases records.len() - i,
    {
        let ghost t = records@.take(i + 1);
        assert(t.drop_last() =~= records@.take(i as int));
        assert(t.last() == records@[i as int]);
        proof {
            lemma_fold_len(records@.take(i as int), file@, max_entry_size, max_parse_errors, id_start);
        }
        match &records[i] {
            Ok(rec) => {
                let id = id_start + entries.len() as u64;
                let e = record_to_entry(rec, file, max_entry_size, id, pats);
                let ghost before = entry_views(entries@);
                entries.push(e);
                assert(entry_views(entries@) =~= before.push(entry_view(e)));
            },
            Err(msg) => {
                if errors.len() < max_parse_errors {
                    let mut reason = String::new();
                    push_str(&mut reason, "Failed to parse event record: ");
                    push_str(&mut reason, msg.as_str());
                    proof { reveal_strlit("Failed to parse event record: "); }
                    let ghost before = errors@;
                    errors.push(ParseError::LineParse { file: file.to_string(), line_number: (i + 1) as u64, reason });
                    assert(errors@.map_values(|e: ParseError| line_error(e)) =~= before.map_values(|e: ParseError| line_error(e))
                        .push(Some(((i + 1) as u64, record_error_reason(msg@)))));
                    assert forall|k: int| 0 <= k < errors@.len() implies error_file(#[trigger] errors@[k]) == file@ by {
                        if k < before.len() {
                            assert(errors@[k] == before[k]);
                        }
                    }
                }
            },
        }
        proof {
            let f0 = evtx_fold(records@.take(i as int), file@, max_entry_size, max_parse_errors, id_start).1;
            let f1 = evtx_fold(t, file@, max_entry_size, max_parse_errors, id_start).1;
            assert(f0.map_values(|p: (u64, Seq<char>)| Some(p)).len() == f0.len());
            if f1.len() > f0.len() {
                assert(f1 == f0.push(f1.last()));
                assert(f1.map_values(|p: (u64, Seq<char>)| Some(p)) =~= f0.map_values(|p: (u64, Seq<char>)| Some(p)).push(Some(f1.last())));
            }
        }
        i += 1;
    }
    assert(records@.take(records@.len() as int) =~= records@);
    ParseResult { entries, errors, lines_processed: records.len() as u64 }
}

/// What `evtx::EvtxParser::from_buffer(bytes)` followed by `records()` gives
/// for a file image: the header error's text, or each record in file order,
/// decoded as (record ID, seconds, nanoseconds, XML) or as its error's text.
pub uninterp spec fn spec_evtx_records(bytes: Seq<u8>) -> Result<Seq<Result<(u64, i64, i32, Seq<char>), Seq<char>>>, Seq<char>>;

pub open spec fn record_view(r: Result<EvtxRecord, String>) -> Result<(u64, i64, i32, Seq<char>), Seq<char>> {
    match r {
        Ok(rec) => Ok((rec.event_record_id, rec.seconds, rec.subsec_nanos, rec.xml@)),
        Err(e) => Err(e@),
    }
}

pub open spec fn records_view(r: Result<Vec<Result<EvtxRecord, String>>, String>) -> Result<Seq<Result<(u64, i64, i32, Seq<char>), Seq<char>>>, Seq<char>> {
    match r {
        Ok(v) => Ok(v@.map_values(|x: Result<EvtxRecord, String>| record_view(x))),
        Err(e) => Err(e@),
    }
}

/// Wraps `evtx::EvtxParser::from_buffer` and `records()`: the records of the
/// file image in order, each error turned into its display text.  The
/// contract claims only that the outcome is the one named by
/// `spec_evtx_records`.  It does not claim that every byte image is parsed
/// without a panic: the crate reports the header and record failures it
/// detects as errors, but its record pipeline re-raises a panic from a
/// worker, and which malformed images could reach one is not shown by its
/// source; such a panic is not caught here.
#[verifier::external_body]
fn read_evtx_records(bytes: Vec<u8>) -> (r: Result<Vec<Result<EvtxRecord, String>>, String>)
    ensures
        records_view(r) == spec_evtx_records(bytes@),
{
    match evtx::EvtxParser::from_buffer(bytes) {
        Err(e) => Err(e.to_string()),
        Ok(mut parser) => Ok(parser.records().map(|rec| match rec {
            Ok(x) => Ok(EvtxRecord {
                event_record_id: x.event_record_id,
                seconds: x.timestamp.as_second(),
                subsec_nanos: x.timestamp.subsec_nanosecond(),
                xml: x.data,
            }),
            Err(e) => Err(e.to_string()),
        }).collect()),
    }
}

/// Reason recorded when the file image is refused.
pub open spec fn open_error_message(e: Seq<char>) -> Seq<char> {
    "Failed to open .evtx file: "@ + e
}

/// Parse the bytes of an `.evtx` file: a refused image gives one I/O error
/// and nothing else; otherwise see `parse_evtx_records`.
pub fn parse_evtx_bytes(bytes: Vec<u8>, file: &str, max_entry_size: usize, max_parse_errors: usize, id_start: u64,
    pats: &EvtxPatterns) -> (r: Option<ParseResult>)
    requires
        pats.wf(),
    ensures
        match spec_evtx_records(bytes@) {
            Err(msg) => r matches Some(p) && p.entries@.len() == 0 && p.lines_processed == 0
                && p.errors@.len() == 1 && (p.errors@[0] matches ParseError::Io { file: f, message }
                    && f@ == file@ && message@ == open_error_message(msg)),
            Ok(recs) => if id_start + recs.len() <= u64::MAX {
                r matches Some(p) && p.lines_processed == recs.len()
                    && exists|v: Seq<Result<EvtxRecord, String>>| v.map_values(|x: Result<EvtxRecord, String>| record_view(x)) == recs
                        && entry_views(p.entries@) == evtx_fold(v, file@, max_entry_size, max_parse_errors, id_start).0
                        && p.errors@.map_values(|e: ParseError| line_error(e)) == evtx_fold(v, file@, max_entry_size,
                            max_parse_errors, id_start).1.map_values(|q: (u64, Seq<char>)| Some(q))
            } else {
                r is None
            },
        },
{
    match read_evtx_records(bytes) {
        Err(e) => {
            let mut message = String::new();
            push_str(&mut message, "Failed to open .evtx file: ");
            push_str(&mut message, e.as_str());
            proof { reveal_strlit("Failed to open .evtx file: "); }
            let errors = vec![ParseError::Io { file: file.to_string(), message }];
            Some(ParseResult { entries: Vec::new(), errors, lines_processed: 0 })
        },
        Ok(records) => {
            if records.len() as u64 > u64::MAX - id_start {
                return None;
            }
            let r = parse_evtx_records(&records, file, max_entry_size, max_parse_errors, id_start, pats);
            Some(r)
        },
    }
}

} // verus!
