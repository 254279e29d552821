//! Character-level string helpers shared by the filter, search and parser
//! modules.  Strings are handled as sequences of `char` (their view).
use vstd::prelude::*;
use vstd::utf8::*;

verus! {

pub assume_specification[ String::push ](s: &mut String, ch: char)
    ensures
        final(s)@ == old(s)@.push(ch),
;

/// ASCII-only lowercasing of one character (what `to_ascii_lowercase` does).
pub open spec fn ascii_lower(c: char) -> char {
    if 'A' <= c && c <= 'Z' {
        ((c as u32) + 32) as char
    } else {
        c
    }
}

/// Every character of `s` is ASCII.
pub open spec fn all_ascii(s: Seq<char>) -> bool {
    forall|i: int| 0 <= i < s.len() ==> (#[trigger] s[i]) as u32 <= 0x7f
}

/// The first character of the full Unicode lowercase mapping of `c`
/// (`c.to_lowercase().next()`).
pub uninterp spec fn spec_char_lower(c: char) -> char;

/// The Unicode lowercase form of a non-empty string (`str::to_lowercase`).
pub uninterp spec fn spec_str_lower_nonempty(s: Seq<char>) -> Seq<char>;

/// The Unicode lowercase form of a string (`str::to_lowercase`): the empty
/// string stays empty; any other is named by `spec_str_lower_nonempty`.
pub open spec fn spec_str_lower(s: Seq<char>) -> Seq<char> {
    if s.len() == 0 { Seq::empty() } else { spec_str_lower_nonempty(s) }
}

/// Wraps `char::to_lowercase`; keeps the first character of the mapping,
/// falling back to `c` itself.  For ASCII input std documents that the
/// mapping is the ASCII one, which the contract states.
#[verifier::external_body]
pub fn char_lower(c: char) -> (r: char)
    ensures
        r == spec_char_lower(c),
        (c as u32) <= 0x7f ==> r == ascii_lower(c),
{
    c.to_lowercase().next().unwrap_or(c)
}

/// Wraps `str::to_lowercase`.  The lowercase of the empty string is empty;
/// for an all-ASCII string the result is the ASCII lowercase of each
/// character, as std documents.
#[verifier::external_body]
pub fn str_lower(s: &str) -> (r: String)
    ensures
        r@ == spec_str_lower(s@),
        s@.len() > 0 ==> r@ == spec_str_lower_nonempty(s@),
        all_ascii(s@) ==> r@ == s@.map_values(|c: char| ascii_lower(c)),
{
    s.to_lowercase()
}

/// The characters of `s`, in order.
pub fn chars_of(s: &str) -> (v: Vec<char>)
    ensures
        v@ == s@,
{
    let mut v: Vec<char> = Vec::new();
    for c in it: s.chars()
        invariant
            v@ == it.seq().take(it.index() as int),
            it.seq() == s@,
    {
        v.push(c);
    }
    v
}

/// A string made of the characters `v[from..to]`.
pub fn string_of_range(v: &Vec<char>, from: usize, to: usize) -> (s: String)
    requires
        from <= to <= v.len(),
    ensures
        s@ == v@.subrange(from as int, to as int),
{
    let mut s = String::new();
    let mut i: usize = from;
    while i < to
        invariant
            from <= i <= to <= v.len(),
            s@ == v@.subrange(from as int, i as int),
        decreases to - i,
    {
        s.push(v[i]);
        i += 1;
        assert(s@ == v@.subrange(from as int, i as int));
    }
    s
}

/// A string made of all characters of `v`.
pub fn string_of(v: &Vec<char>) -> (s: String)
    ensures
        s@ == v@,
{
    let s = string_of_range(v, 0, v.len());
    assert(v@.subrange(0, v@.len() as int) == v@);
    s
}

/// Append the characters of `t` to `s`.
pub fn push_str(s: &mut String, t: &str)
    ensures
        final(s)@ == old(s)@ + t@,
{
    let ghost s0 = s@;
    for c in it: t.chars()
        invariant
            s@ == s0 + it.seq().take(it.index() as int),
            it.seq() == t@,
    {
        s.push(c);
        assert(s@ == s0 + it.seq().take(it.index() + 1));
    }
    assert(t@.take(t@.len() as int) == t@);
}

/// `n` occurs as a contiguous run in `h`.
pub open spec fn is_infix(n: Seq<char>, h: Seq<char>) -> bool {
    exists|i: int| 0 <= i && i + n.len() <= h.len() && #[trigger] h.subrange(i, i + n.len()) == n
}

/// `h[at..at + n.len()]` equals `n`.
pub open spec fn occurs_at(n: Seq<char>, h: Seq<char>, at: int) -> bool {
    0 <= at && at + n.len() <= h.len() && h.subrange(at, at + n.len()) == n
}

/// True when `n` occurs at position `at` of `h`.
pub fn matches_at(n: &Vec<char>, h: &Vec<char>, at: usize) -> (b: bool)
    requires
        at + n.len() <= h.len(),
    ensures
        b == occurs_at(n@, h@, at as int),
{
    let mut j: usize = 0;
    while j < n.len()
        invariant
            j <= n.len(),
            at + n.len() <= h.len(),
            forall|k: int| 0 <= k < j ==> h@[at + k] == n@[k],
        decreases n.len() - j,
    {
        if h[at + j] != n[j] {
            assert(h@.subrange(at as int, at + n.len())[j as int] != n@[j as int]);
            return false;
        }
        j += 1;
    }
    assert(h@.subrange(at as int, at + n.len()) =~= n@);
    true
}

/// Whether `n` occurs anywhere in `h`.
pub fn contains_infix(n: &Vec<char>, h: &Vec<char>) -> (b: bool)
    ensures
        b == is_infix(n@, h@),
{
    if n.len() > h.len() {
        return false;
    }
    let mut i: usize = 0;
    let last = h.len() - n.len();
    while i < last
        invariant
            n.len() <= h.len(),
            i <= last,
            last == h.len() - n.len(),
            forall|k: int| 0 <= k < i ==> !occurs_at(n@, h@, k),
        decreases last - i,
    {
        if matches_at(n, h, i) {
            return true;
        }
        i += 1;
    }
    if matches_at(n, h, last) {
        return true;
    }
    assert forall|k: int| 0 <= k && k + n.len() <= h.len() implies #[trigger] h@.subrange(k, k + n.len()) != n@ by {
        assert(!occurs_at(n@, h@, k));
    }
    false
}

/// Character-wise equality of a string and a literal.
pub fn str_eq(a: &str, b: &str) -> (r: bool)
    ensures
        r == (a@ == b@),
{
    let va = chars_of(a);
    let vb = chars_of(b);
    if va.len() != vb.len() {
        assert(a@.len() != b@.len());
        return false;
    }
    let mut i: usize = 0;
    while i < va.len()
        invariant
            va.len() == vb.len(),
            va@ == a@,
            vb@ == b@,
            forall|k: int| 0 <= k < i ==> va@[k] == vb@[k],
        decreases va.len() - i,
    {
        if va[i] != vb[i] {
            assert(a@[i as int] != b@[i as int]);
            return false;
        }
        i += 1;
    }
    assert(va@ =~= vb@);
    true
}

/// Unicode `White_Space` property, as used by `char::is_whitespace`.
pub open spec fn is_ws(c: char) -> bool {
    ||| ('\t' <= c && c <= '\r')
    ||| c == ' '
    ||| c == '\u{85}'
    ||| c == '\u{A0}'
    ||| c == '\u{1680}'
    ||| ('\u{2000}' <= c && c <= '\u{200A}')
    ||| c == '\u{2028}'
    ||| c == '\u{2029}'
    ||| c == '\u{202F}'
    ||| c == '\u{205F}'
    ||| c == '\u{3000}'
}

pub fn is_whitespace(c: char) -> (b: bool)
    ensures
        b == is_ws(c),
{
    ('\t' <= c && c <= '\r') || c == ' ' || c == '\u{85}' || c == '\u{A0}' || c == '\u{1680}'
        || ('\u{2000}' <= c && c <= '\u{200A}') || c == '\u{2028}' || c == '\u{2029}'
        || c == '\u{202F}' || c == '\u{205F}' || c == '\u{3000}'
}

/// Number of leading whitespace characters of `s`.
pub open spec fn lead_ws(s: Seq<char>) -> nat
    decreases s.len(),
{
    if s.len() > 0 && is_ws(s[0]) {
        1 + lead_ws(s.drop_first())
    } else {
        0
    }
}

/// Number of trailing whitespace characters of `s`.
pub open spec fn trail_ws(s: Seq<char>) -> nat
    decreases s.len(),
{
    if s.len() > 0 && is_ws(s.last()) {
        1 + trail_ws(s.drop_last())
    } else {
        0
    }
}

/// `str::trim`: `s` without leading and trailing whitespace.
pub open spec fn trim_spec(s: Seq<char>) -> Seq<char> {
    let t = s.subrange(lead_ws(s) as int, s.len() as int);
    t.subrange(0, t.len() - trail_ws(t))
}

proof fn lemma_lead_ws_bound(s: Seq<char>)
    ensures
        lead_ws(s) <= s.len(),
        forall|k: int| 0 <= k < lead_ws(s) ==> is_ws(#[trigger] s[k]),
        lead_ws(s) < s.len() ==> !is_ws(s[lead_ws(s) as int]),
    decreases s.len(),
{
    if s.len() > 0 && is_ws(s[0]) {
        lemma_lead_ws_bound(s.drop_first());
        assert forall|k: int| 0 <= k < lead_ws(s) implies is_ws(#[trigger] s[k]) by {
            if k > 0 {
                assert(s[k] == s.drop_first()[k - 1]);
            }
        }
    }
}

proof fn lemma_trail_ws_bound(s: Seq<char>)
    ensures
        trail_ws(s) <= s.len(),
        forall|k: int| s.len() - trail_ws(s) <= k < s.len() ==> is_ws(#[trigger] s[k]),
        trail_ws(s) < s.len() ==> !is_ws(s[s.len() - trail_ws(s) - 1]),
    decreases s.len(),
{
    if s.len() > 0 && is_ws(s.last()) {
        lemma_trail_ws_bound(s.drop_last());
        assert forall|k: int| s.len() - trail_ws(s) <= k < s.len() implies is_ws(#[trigger] s[k]) by {
            if k < s.len() - 1 {
                assert(s[k] == s.drop_last()[k]);
            }
        }
    }
}

proof fn lemma_lead_ws_char(s: Seq<char>, n: nat)
    requires
        n <= s.len(),
        forall|k: int| 0 <= k < n ==> is_ws(#[trigger] s[k]),
        n < s.len() ==> !is_ws(s[n as int]),
    ensures
        lead_ws(s) == n,
    decreases s.len(),
{
    if n > 0 {
        assert(is_ws(s[0]));
        assert forall|k: int| 0 <= k < (n - 1) as nat implies is_ws(#[trigger] s.drop_first()[k]) by {
            assert(s.drop_first()[k] == s[k + 1]);
        }
        lemma_lead_ws_char(s.drop_first(), (n - 1) as nat);
    }
}

proof fn lemma_trail_ws_char(s: Seq<char>, n: nat)
    requires
        n <= s.len(),
        forall|k: int| s.len() - n <= k < s.len() ==> is_ws(#[trigger] s[k]),
        n < s.len() ==> !is_ws(s[s.len() - n - 1]),
    ensures
        trail_ws(s) == n,
    decreases s.len(),
{
    if n > 0 {
        assert(is_ws(s.last()));
        let t = s.drop_last();
        assert forall|k: int| t.len() - (n - 1) <= k < t.len() implies is_ws(#[trigger] t[k]) by {
            assert(t[k] == s[k]);
        }
        lemma_trail_ws_char(t, (n - 1) as nat);
    }
}

/// Bounds `[start, end)` of `trim_spec(v)` inside `v`.
pub fn trim_bounds(v: &Vec<char>) -> (r: (usize, usize))
    ensures
        r.0 <= r.1 <= v.len(),
        v@.subrange(r.0 as int, r.1 as int) == trim_spec(v@),
{
    let mut a: usize = 0;
    while a < v.len() && is_whitespace(v[a])
        invariant
            a <= v.len(),
            forall|k: int| 0 <= k < a ==> is_ws(#[trigger] v@[k]),
        decreases v.len() - a,
    {
        a += 1;
    }
    proof {
        lemma_lead_ws_char(v@, a as nat);
    }
    let mut b: usize = v.len();
    while b > a && is_whitespace(v[b - 1])
        invariant
            a <= b <= v.len(),
            forall|k: int| b <= k < v.len() ==> is_ws(#[trigger] v@[k]),
        decreases b,
    {
        b -= 1;
    }
    proof {
        let t = v@.subrange(a as int, v.len() as int);
        let n = (v.len() - b) as nat;
        assert forall|k: int| t.len() - n <= k < t.len() implies is_ws(#[trigger] t[k]) by {
            assert(t[k] == v@[a + k]);
        }
        if n < t.len() {
            assert(t[t.len() - n - 1] == v@[b - 1]);
        }
        lemma_trail_ws_char(t, n);
        assert(t.subrange(0, t.len() - n) =~= v@.subrange(a as int, b as int));
    }
    (a, b)
}

/// `str::trim` on a character sequence.
pub fn trim(s: &str) -> (r: String)
    ensures
        r@ == trim_spec(s@),
{
    let v = chars_of(s);
    let (a, b) = trim_bounds(&v);
    string_of_range(&v, a, b)
}

/// Whether a string is empty or whitespace only (`s.trim().is_empty()`).
pub fn is_blank(v: &Vec<char>) -> (b: bool)
    ensures
        b == (trim_spec(v@).len() == 0),
{
    let (a, b) = trim_bounds(v);
    a == b
}

/// One line without a trailing carriage return when the line was ended by
/// `\r\n`.
pub open spec fn strip_cr(line: Seq<char>) -> Seq<char> {
    if line.len() > 0 && line.last() == '\r' {
        line.drop_last()
    } else {
        line
    }
}

/// `str::lines` with the current partial line `cur`: lines end at `\n`
/// (a `\r` right before it is dropped); a last line without `\n` is kept
/// when it is non-empty.
pub open spec fn lines_acc(s: Seq<char>, cur: Seq<char>) -> Seq<Seq<char>>
    decreases s.len(),
{
    if s.len() == 0 {
        if cur.len() == 0 {
            Seq::empty()
        } else {
            seq![cur]
        }
    } else if s[0] == '\n' {
        seq![strip_cr(cur)] + lines_acc(s.drop_first(), Seq::empty())
    } else {
        lines_acc(s.drop_first(), cur.push(s[0]))
    }
}

/// The lines of `s`, as `str::lines` yields them.
pub open spec fn lines_spec(s: Seq<char>) -> Seq<Seq<char>> {
    lines_acc(s, Seq::empty())
}

pub open spec fn views_of(v: Seq<Vec<char>>) -> Seq<Seq<char>> {
    v.map_values(|x: Vec<char>| x@)
}

/// Split text into lines, as `str::lines` does.
pub fn split_lines(s: &Vec<char>) -> (r: Vec<Vec<char>>)
    ensures
        views_of(r@) == lines_spec(s@),
{
    let mut out: Vec<Vec<char>> = Vec::new();
    let mut cur: Vec<char> = Vec::new();
    let mut i: usize = 0;
    assert(s@.subrange(0, s@.len() as int) == s@);
    while i < s.len()
        invariant
            i <= s.len(),
            views_of(out@) + lines_acc(s@.subrange(i as int, s@.len() as int), cur@) == lines_spec(s@),
        decreases s.len() - i,
    {
        let ghost rest = s@.subrange(i as int, s@.len() as int);
        assert(rest.drop_first() == s@.subrange(i + 1, s@.len() as int));
        let c = s[i];
        if c == '\n' {
            let mut line = cur;
            if line.len() > 0 && line[line.len() - 1] == '\r' {
                line.pop();
            }
            assert(line@ == strip_cr(cur@));
            let ghost before = views_of(out@);
            out.push(line);
            assert(views_of(out@) == before.push(line@));
            cur = Vec::new();
            assert(views_of(out@) + lines_acc(s@.subrange(i + 1, s@.len() as int), cur@)
                =~= before + (seq![line@] + lines_acc(rest.drop_first(), Seq::empty())));
        } else {
            cur.push(c);
        }
        i += 1;
    }
    if cur.len() > 0 {
        let ghost before = views_of(out@);
        let ghost last = cur@;
        out.push(cur);
        assert(views_of(out@) == before.push(last));
        assert(views_of(out@) =~= before + seq![last]);
    } else {
        assert(views_of(out@) =~= views_of(out@) + Seq::<Seq<char>>::empty());
    }
    out
}

/// Decimal digits of `n` (what `Display` prints for an unsigned integer).
pub open spec fn decimal(n: nat) -> Seq<char>
    decreases n,
{
    if n < 10 {
        seq![digit_char(n)]
    } else {
        decimal(n / 10).push(digit_char(n % 10))
    }
}

pub open spec fn digit_char(d: nat) -> char {
    (('0' as u32) + d) as char
}

/// Append the decimal form of `n` to `s`.
pub fn push_decimal(s: &mut String, n: u64)
    ensures
        final(s)@ == old(s)@ + decimal(n as nat),
    decreases n,
{
    if n >= 10 {
        push_decimal(s, n / 10);
    }
    let d = (n % 10) as u32;
    let c = char_from_digit(d);
    s.push(c);
}

fn char_from_digit(d: u32) -> (c: char)
    requires
        d < 10,
    ensures
        c == digit_char(d as nat),
{
    match d {
        0 => '0',
        1 => '1',
        2 => '2',
        3 => '3',
        4 => '4',
        5 => '5',
        6 => '6',
        7 => '7',
        8 => '8',
        _ => '9',
    }
}

/// `s` followed by the decimal digits of `n`.
pub fn decimal_string(n: u64) -> (r: String)
    ensures
        r@ == decimal(n as nat),
{
    let mut s = String::new();
    push_decimal(&mut s, n);
    assert(s@ =~= decimal(n as nat));
    s
}

/// `str::split` on one separator character, as a sequence of pieces with
/// the current piece `cur`: an empty input still yields one (empty) piece.
pub open spec fn split_acc(s: Seq<char>, sep: char, cur: Seq<char>) -> Seq<Seq<char>>
    decreases s.len(),
{
    if s.len() == 0 {
        seq![cur]
    } else if s[0] == sep {
        seq![cur] + split_acc(s.drop_first(), sep, Seq::empty())
    } else {
        split_acc(s.drop_first(), sep, cur.push(s[0]))
    }
}

pub proof fn lemma_split_nonempty(s: Seq<char>, sep: char, cur: Seq<char>)
    ensures
        split_acc(s, sep, cur).len() >= 1,
    decreases s.len(),
{
    if s.len() > 0 {
        if s[0] == sep {
            lemma_split_nonempty(s.drop_first(), sep, Seq::empty());
        } else {
            lemma_split_nonempty(s.drop_first(), sep, cur.push(s[0]));
        }
    }
}

/// The pieces of `s` between occurrences of `sep` (`str::split(sep)`).
pub open spec fn split_spec(s: Seq<char>, sep: char) -> Seq<Seq<char>> {
    split_acc(s, sep, Seq::empty())
}

/// Split a character vector at every `sep`, as `str::split` does.
pub fn split_on_char(s: &Vec<char>, sep: char) -> (r: Vec<Vec<char>>)
    ensures
        views_of(r@) == split_spec(s@, sep),
{
    let mut out: Vec<Vec<char>> = Vec::new();
    let mut cur: Vec<char> = Vec::new();
    let mut i: usize = 0;
    assert(s@.subrange(0, s@.len() as int) == s@);
    while i < s.len()
        invariant
            i <= s.len(),
            views_of(out@) + split_acc(s@.subrange(i as int, s@.len() as int), sep, cur@) == split_spec(s@, sep),
        decreases s.len() - i,
    {
        let ghost rest = s@.subrange(i as int, s@.len() as int);
        assert(rest.drop_first() == s@.subrange(i + 1, s@.len() as int));
        let c = s[i];
        if c == sep {
            let ghost before = views_of(out@);
            let ghost piece = cur@;
            out.push(cur);
            assert(views_of(out@) == before.push(piece));
            cur = Vec::new();
            assert(views_of(out@) + split_acc(s@.subrange(i + 1, s@.len() as int), sep, cur@)
                =~= before + (seq![piece] + split_acc(rest.drop_first(), sep, Seq::empty())));
        } else {
            cur.push(c);
        }
        i += 1;
    }
    let ghost before = views_of(out@);
    let ghost last = cur@;
    out.push(cur);
    assert(views_of(out@) == before.push(last));
    assert(views_of(out@) =~= before + seq![last]);
    out
}

/// The characters `v[a..b]` as a new vector.
pub fn slice_vec(v: &Vec<char>, a: usize, b: usize) -> (r: Vec<char>)
    requires
        a <= b <= v.len(),
    ensures
        r@ == v@.subrange(a as int, b as int),
{
    let mut r: Vec<char> = Vec::new();
    let mut i: usize = a;
    while i < b
        invariant
            a <= i <= b <= v.len(),
            r@ == v@.subrange(a as int, i as int),
        decreases b - i,
    {
        r.push(v[i]);
        i += 1;
        assert(r@ == v@.subrange(a as int, i as int));
    }
    r
}

/// `trim` on a character vector.
pub fn trim_vec(v: &Vec<char>) -> (r: Vec<char>)
    ensures
        r@ == trim_spec(v@),
{
    let (a, b) = trim_bounds(v);
    slice_vec(v, a, b)
}

/// Whether `v` contains `c`.
pub fn vec_contains_char(v: &Vec<char>, c: char) -> (b: bool)
    ensures
        b == v@.contains(c),
{
    let mut i: usize = 0;
    while i < v.len()
        invariant
            i <= v.len(),
            forall|k: int| 0 <= k < i ==> v@[k] != c,
        decreases v.len() - i,
    {
        if v[i] == c {
            return true;
        }
        i += 1;
    }
    false
}

/// Equality of two character vectors.
pub fn vec_char_eq(a: &Vec<char>, b: &Vec<char>) -> (r: bool)
    ensures
        r == (a@ == b@),
{
    if a.len() != b.len() {
        return false;
    }
    let mut i: usize = 0;
    while i < a.len()
        invariant
            a.len() == b.len(),
            forall|k: int| 0 <= k < i ==> a@[k] == b@[k],
        decreases a.len() - i,
    {
        if a[i] != b[i] {
            return false;
        }
        i += 1;
    }
    assert(a@ =~= b@);
    true
}

/// Append the characters of `t` to `s`.
pub fn push_chars(s: &mut String, t: &Vec<char>)
    ensures
        final(s)@ == old(s)@ + t@,
{
    let ghost s0 = s@;
    let mut i: usize = 0;
    while i < t.len()
        invariant
            i <= t.len(),
            s@ == s0 + t@.subrange(0, i as int),
        decreases t.len() - i,
    {
        s.push(t[i]);
        i += 1;
        assert(s@ == s0 + t@.subrange(0, i as int));
    }
    assert(t@.subrange(0, t@.len() as int) == t@);
}

/// `s` with every `a` replaced by `b` (`str::replace` with one-character
/// patterns).
pub open spec fn replace_char(s: Seq<char>, a: char, b: char) -> Seq<char> {
    s.map_values(|c: char| if c == a { b } else { c })
}

/// Replace every `a` by `b`.
pub fn replace_char_vec(v: &Vec<char>, a: char, b: char) -> (r: Vec<char>)
    ensures
        r@ == replace_char(v@, a, b),
{
    let mut r: Vec<char> = Vec::new();
    let mut i: usize = 0;
    while i < v.len()
        invariant
            i <= v.len(),
            r@ == replace_char(v@.take(i as int), a, b),
        decreases v.len() - i,
    {
        let c = v[i];
        r.push(if c == a { b } else { c });
        assert(replace_char(v@.take(i + 1), a, b) =~= replace_char(v@.take(i as int), a, b).push(if c == a { b } else { c }));
        i += 1;
    }
    assert(v@.take(v@.len() as int) =~= v@);
    r
}

/// Decimal form of a signed integer (a leading `-` when negative).
pub open spec fn signed_decimal(n: int) -> Seq<char> {
    if n < 0 {
        seq!['-'] + decimal((-n) as nat)
    } else {
        decimal(n as nat)
    }
}

/// Append the decimal form of `n` to `s`.
pub fn push_signed_decimal(s: &mut String, n: i32)
    ensures
        final(s)@ == old(s)@ + signed_decimal(n as int),
{
    if n < 0 {
        let ghost s0 = s@;
        s.push('-');
        let m: i64 = -(n as i64);
        push_decimal(s, m as u64);
        assert(s@ =~= s0 + signed_decimal(n as int));
    } else {
        push_decimal(s, n as u64);
    }
}

/// Append the decimal form of a 64-bit signed integer to `s`.
pub fn push_i64(s: &mut String, n: i64)
    ensures
        final(s)@ == old(s)@ + signed_decimal(n as int),
{
    if n < 0 {
        let ghost s0 = s@;
        s.push('-');
        let m: i128 = -(n as i128);
        push_decimal(s, m as u64);
        assert(s@ =~= s0 + signed_decimal(n as int));
    } else {
        push_decimal(s, n as u64);
    }
}

/// `String::from_utf8_lossy(bytes)`: the bytes decoded as UTF-8, each
/// invalid sequence replaced by U+FFFD.
pub uninterp spec fn spec_utf8_lossy(bytes: Seq<u8>) -> Seq<char>;

/// Wraps `String::from_utf8_lossy`.  Its documentation promises the text
/// unchanged for valid UTF-8; for other bytes the result is only named.
#[verifier::external_body]
pub fn utf8_lossy(bytes: &[u8]) -> (r: String)
    ensures
        r@ == spec_utf8_lossy(bytes@),
        forall|s: Seq<char>| #[trigger] encode_utf8(s) == bytes@ ==> r@ == s,
{
    String::from_utf8_lossy(bytes).into_owned()
}

/// `String::from_utf16_lossy(units)`: the units decoded as UTF-16, each
/// unpaired surrogate replaced by U+FFFD.
pub uninterp spec fn spec_utf16_lossy(units: Seq<u16>) -> Seq<char>;

/// No unit is a surrogate.
pub open spec fn no_surrogates(units: Seq<u16>) -> bool {
    forall|i: int| 0 <= i < units.len() ==> !(0xD800 <= #[trigger] units[i] <= 0xDFFF)
}

/// Wraps `String::from_utf16_lossy`.  Without surrogates, UTF-16 decoding
/// maps each unit to the character of that code point, which the contract
/// states; otherwise the result is only named.
#[verifier::external_body]
pub fn utf16_lossy(units: &[u16]) -> (r: String)
    ensures
        r@ == spec_utf16_lossy(units@),
        no_surrogates(units@) ==> r@ == units@.map_values(|u: u16| u as char),
{
    String::from_utf16_lossy(units)
}

/// Value of a string of ASCII digits.
pub open spec fn digits_value(d: Seq<char>) -> nat
    decreases d.len(),
{
    if d.len() == 0 {
        0
    } else {
        digits_value(d.drop_last()) * 10 + ((d.last() as u32) - ('0' as u32)) as nat
    }
}

/// Every character is an ASCII digit.
pub open spec fn all_digits(d: Seq<char>) -> bool {
    forall|i: int| 0 <= i < d.len() ==> '0' <= #[trigger] d[i] && d[i] <= '9'
}

/// `str::parse::<u32>`: an optional `+`, then one or more ASCII digits whose
/// value fits.
pub open spec fn parse_u32_spec(s: Seq<char>) -> Option<u32> {
    let d = if s.len() > 0 && s[0] == '+' { s.drop_first() } else { s };
    if d.len() == 0 || !all_digits(d) || digits_value(d) > u32::MAX {
        None
    } else {
        Some(digits_value(d) as u32)
    }
}

/// `str::parse::<i64>`: an optional sign, then one or more ASCII digits whose
/// signed value fits.
pub open spec fn parse_i64_spec(s: Seq<char>) -> Option<i64> {
    let neg = s.len() > 0 && s[0] == '-';
    let d = if s.len() > 0 && (s[0] == '+' || s[0] == '-') { s.drop_first() } else { s };
    if d.len() == 0 || !all_digits(d) {
        None
    } else if neg {
        if digits_value(d) > 9223372036854775808 {
            None
        } else {
            Some((-(digits_value(d) as int)) as i64)
        }
    } else if digits_value(d) > i64::MAX {
        None
    } else {
        Some(digits_value(d) as i64)
    }
}

proof fn lemma_digits_value_mono(d: Seq<char>, k: int)
    requires
        0 <= k <= d.len(),
    ensures
        digits_value(d.take(k)) <= digits_value(d),
    decreases d.len() - k,
{
    if k < d.len() {
        lemma_digits_value_mono(d, k + 1);
        assert(d.take(k + 1).drop_last() =~= d.take(k));
    } else {
        assert(d.take(k) =~= d);
    }
}

/// Value of the ASCII digits `v[from..]`, or `None` when one is not a digit,
/// there are none, or the value exceeds `limit`.
fn digits_upto(v: &Vec<char>, from: usize, limit: u64) -> (r: Option<u64>)
    requires
        from <= v.len(),
    ensures
        ({
            let d = v@.subrange(from as int, v@.len() as int);
            match r {
                Some(x) => d.len() > 0 && all_digits(d) && x == digits_value(d) && x <= limit,
                None => d.len() == 0 || !all_digits(d) || digits_value(d) > limit,
            }
        }),
{
    let ghost d = v@.subrange(from as int, v@.len() as int);
    if from == v.len() {
        return None;
    }
    let mut i: usize = from;
    let mut x: u64 = 0;
    while i < v.len()
        invariant
            from <= i <= v.len(),
            d == v@.subrange(from as int, v@.len() as int),
            all_digits(d.take(i - from)),
            x == digits_value(d.take(i - from)),
            x <= limit,
        decreases v.len() - i,
    {
        let c = v[i];
        if c < '0' || c > '9' {
            assert(d[i - from] == c);
            return None;
        }
        let dg: u64 = ((c as u32) - ('0' as u32)) as u64;
        assert(d.take(i - from + 1).drop_last() =~= d.take(i - from));
        assert(d.take(i - from + 1).last() == c);
        if x > limit / 10 || (x == limit / 10 && dg > limit % 10) {
            proof {
                assert(digits_value(d.take(i - from + 1)) == x * 10 + dg);
                assert(x * 10 + dg > limit) by (nonlinear_arith)
                    requires x > limit / 10 || (x == limit / 10 && dg > limit % 10), dg < 10;
                lemma_digits_value_mono(d, i - from + 1);
            }
            return None;
        }
        assert(x * 10 + dg <= limit) by (nonlinear_arith)
            requires !(x > limit / 10 || (x == limit / 10 && dg > limit % 10)), dg < 10;
        x = x * 10 + dg;
        i += 1;
    }
    assert(d.take(d.len() as int) =~= d);
    Some(x)
}

/// `str::parse::<u32>` on a character vector.
pub fn parse_u32(v: &Vec<char>) -> (r: Option<u32>)
    ensures
        r == parse_u32_spec(v@),
{
    let from: usize = if v.len() > 0 && v[0] == '+' { 1 } else { 0 };
    assert(v@.subrange(from as int, v@.len() as int) == (if v@.len() > 0 && v@[0] == '+' { v@.drop_first() } else { v@ }));
    match digits_upto(v, from, 4294967295) {
        Some(x) => Some(x as u32),
        None => None,
    }
}

/// `str::parse::<i64>` on a character vector.
pub fn parse_i64(v: &Vec<char>) -> (r: Option<i64>)
    ensures
        r == parse_i64_spec(v@),
{
    let neg = v.len() > 0 && v[0] == '-';
    let from: usize = if v.len() > 0 && (v[0] == '+' || v[0] == '-') { 1 } else { 0 };
    assert(v@.subrange(from as int, v@.len() as int) == (if v@.len() > 0 && (v@[0] == '+' || v@[0] == '-') { v@.drop_first() } else { v@ }));
    if neg {
        match digits_upto(v, from, 9223372036854775808) {
            Some(x) => {
                if x == 9223372036854775808 {
                    Some(i64::MIN)
                } else {
                    Some(-(x as i64))
                }
            },
            None => None,
        }
    } else {
        match digits_upto(v, from, 9223372036854775807) {
            Some(x) => Some(x as i64),
            None => None,
        }
    }
}

/// Whitespace-separated words of `s`, with the current word `cur`
/// (`str::split_whitespace`).
pub open spec fn words_acc(s: Seq<char>, cur: Seq<char>) -> Seq<Seq<char>>
    decreases s.len(),
{
    if s.len() == 0 {
        if cur.len() > 0 { seq![cur] } else { Seq::empty() }
    } else if is_ws(s[0]) {
        (if cur.len() > 0 { seq![cur] } else { Seq::empty() }) + words_acc(s.drop_first(), Seq::empty())
    } else {
        words_acc(s.drop_first(), cur.push(s[0]))
    }
}

/// Words joined by single spaces.
pub open spec fn join_words(w: Seq<Seq<char>>) -> Seq<char>
    decreases w.len(),
{
    if w.len() == 0 {
        Seq::empty()
    } else if w.len() == 1 {
        w[0]
    } else {
        join_words(w.drop_last()) + seq![' '] + w.last()
    }
}

/// `s.split_whitespace().collect::<Vec<_>>().join(" ")`.
pub open spec fn collapse_ws(s: Seq<char>) -> Seq<char> {
    join_words(words_acc(s, Seq::empty()))
}

/// Collapse runs of whitespace into single spaces and drop leading and
/// trailing whitespace.
pub fn collapse_whitespace(s: &Vec<char>) -> (r: Vec<char>)
    ensures
        r@ == collapse_ws(s@),
{
    let mut words: Vec<Vec<char>> = Vec::new();
    let mut cur: Vec<char> = Vec::new();
    let mut i: usize = 0;
    assert(s@.subrange(0, s@.len() as int) == s@);
    while i < s.len()
        invariant
            i <= s.len(),
            views_of(words@) + words_acc(s@.subrange(i as int, s@.len() as int), cur@) == words_acc(s@, Seq::empty()),
        decreases s.len() - i,
    {
        let ghost rest = s@.subrange(i as int, s@.len() as int);
        assert(rest.drop_first() == s@.subrange(i + 1, s@.len() as int));
        let c = s[i];
        if is_whitespace(c) {
            if cur.len() > 0 {
                let ghost before = views_of(words@);
                let ghost w = cur@;
                words.push(cur);
                assert(views_of(words@) == before.push(w));
                cur = Vec::new();
                assert(views_of(words@) + words_acc(s@.subrange(i + 1, s@.len() as int), cur@)
                    =~= before + (seq![w] + words_acc(rest.drop_first(), Seq::empty())));
            } else {
                assert(cur@ =~= Seq::<char>::empty());
                assert(views_of(words@) + words_acc(s@.subrange(i + 1, s@.len() as int), cur@)
                    =~= views_of(words@) + (Seq::<Seq<char>>::empty() + words_acc(rest.drop_first(), Seq::empty())));
            }
        } else {
            cur.push(c);
        }
        i += 1;
    }
    if cur.len() > 0 {
        let ghost before = views_of(words@);
        let ghost w = cur@;
        words.push(cur);
        assert(views_of(words@) =~= before + seq![w]);
    } else {
        assert(views_of(words@) =~= views_of(words@) + Seq::<Seq<char>>::empty());
    }
    let ghost ws = views_of(words@);
    let mut out: Vec<char> = Vec::new();
    let mut k: usize = 0;
    while k < words.len()
        invariant
            k <= words.len(),
            ws == views_of(words@),
            out@ == join_words(ws.take(k as int)),
        decreases words.len() - k,
    {
        let ghost prev = out@;
        if k > 0 {
            out.push(' ');
        }
        let mut j: usize = 0;
        let ghost mid = out@;
        while j < words[k].len()
            invariant
                k < words.len(),
                j <= words[k as int].len(),
                out@ == mid + words[k as int]@.take(j as int),
            decreases words[k as int].len() - j,
        {
            out.push(words[k][j]);
            assert(out@ =~= mid + words[k as int]@.take(j + 1));
            j += 1;
        }
        assert(words[k as int]@.take(words[k as int]@.len() as int) =~= words[k as int]@);
        assert(ws[k as int] == words[k as int]@);
        assert(ws.take(k + 1).drop_last() =~= ws.take(k as int));
        if k == 0 {
            assert(out@ =~= join_words(ws.take(1)));
        } else {
            assert(out@ =~= join_words(ws.take(k as int)) + seq![' '] + ws[k as int]);
        }
        k += 1;
    }
    assert(ws.take(ws.len() as int) =~= ws);
    out
}

/// The views of a sequence of strings.
pub open spec fn string_views(v: Seq<String>) -> Seq<Seq<char>> {
    v.map_values(|s: String| s@)
}

/// The last path component that is a name (`Path::file_name`): empty and
/// `.` components are skipped; `None` when there is none or it is `..`.
pub open spec fn last_name(pieces: Seq<Seq<char>>) -> Option<Seq<char>>
    decreases pieces.len(),
{
    if pieces.len() == 0 {
        None
    } else {
        let l = pieces.last();
        if l.len() == 0 || l == seq!['.'] {
            last_name(pieces.drop_last())
        } else if l == seq!['.', '.'] {
            None
        } else {
            Some(l)
        }
    }
}

/// `Path::file_name` of a `/`-separated path.
pub open spec fn file_name_spec(path: Seq<char>) -> Option<Seq<char>> {
    last_name(split_spec(path, '/'))
}

/// The file name of a path (see `file_name_spec`).
pub fn file_name(path: &str) -> (r: Option<String>)
    ensures
        opt_seq(r) == file_name_spec(path@),
{
    let v = chars_of(path);
    let pieces = split_on_char(&v, '/');
    let mut k: usize = pieces.len();
    assert(views_of(pieces@).take(pieces@.len() as int) =~= views_of(pieces@));
    while k > 0
        invariant
            k <= pieces.len(),
            last_name(views_of(pieces@)) == last_name(views_of(pieces@).take(k as int)),
            last_name(views_of(pieces@)) == file_name_spec(path@),
        decreases k,
    {
        let ghost t = views_of(pieces@).take(k as int);
        assert(t.drop_last() =~= views_of(pieces@).take(k - 1));
        assert(t.last() == pieces@[k - 1]@);
        let l = &pieces[k - 1];
        if l.len() == 0 || (l.len() == 1 && l[0] == '.') {
            assert(l.len() == 1 ==> l@ =~= seq!['.']);
            k -= 1;
        } else if l.len() == 2 && l[0] == '.' && l[1] == '.' {
            assert(l@ =~= seq!['.', '.']);
            assert(l@ != seq!['.']);
            assert(last_name(t) == None::<Seq<char>>);
            return None;
        } else {
            assert(l@.len() != 1 || l@[0] != '.');
            assert(l@ != seq!['.']) by {
                if l@ == seq!['.'] {
                    assert(l@.len() == 1 && l@[0] == '.');
                }
            }
            assert(l@ != seq!['.', '.']) by {
                if l@ == seq!['.', '.'] {
                    assert(l@.len() == 2 && l@[0] == '.' && l@[1] == '.');
                }
            }
            assert(last_name(t) == Some(l@));
            return Some(string_of(l));
        }
    }
    assert(views_of(pieces@).take(0) =~= Seq::<Seq<char>>::empty());
    None
}

pub open spec fn opt_seq(o: Option<String>) -> Option<Seq<char>> {
    match o {
        Some(s) => Some(s@),
        None => None,
    }
}

/// `a` sorts before or with `b`, comparing characters by code point.
pub open spec fn lex_le(a: Seq<char>, b: Seq<char>) -> bool
    decreases a.len(),
{
    if a.len() == 0 {
        true
    } else if b.len() == 0 {
        false
    } else if a[0] != b[0] {
        (a[0] as u32) < (b[0] as u32)
    } else {
        lex_le(a.drop_first(), b.drop_first())
    }
}

/// Lexicographic comparison of two strings.
pub fn str_lex_le(a: &str, b: &str) -> (r: bool)
    ensures
        r == lex_le(a@, b@),
{
    let va = chars_of(a);
    let vb = chars_of(b);
    let mut i: usize = 0;
    assert(va@.skip(0) =~= va@);
    assert(vb@.skip(0) =~= vb@);
    while i < va.len()
        invariant
            i <= va.len(),
            va@ == a@,
            vb@ == b@,
            i <= vb.len(),
            lex_le(a@, b@) == lex_le(va@.skip(i as int), vb@.skip(i as int)),
        decreases va.len() - i,
    {
        if i >= vb.len() {
            return false;
        }
        assert(va@.skip(i as int)[0] == va@[i as int]);
        assert(vb@.skip(i as int)[0] == vb@[i as int]);
        if va[i] != vb[i] {
            return (va[i] as u32) < (vb[i] as u32);
        }
        assert(va@.skip(i as int).drop_first() =~= va@.skip(i + 1));
        assert(vb@.skip(i as int).drop_first() =~= vb@.skip(i + 1));
        i += 1;
    }
    true
}

pub proof fn lemma_lex_total(a: Seq<char>, b: Seq<char>)
    ensures
        lex_le(a, b) || lex_le(b, a),
    decreases a.len(),
{
    if a.len() > 0 && b.len() > 0 {
        if a[0] == b[0] {
            lemma_lex_total(a.drop_first(), b.drop_first());
        } else {
            vstd::utf8::char_u32_cast(a[0], a[0] as u32);
            vstd::utf8::char_u32_cast(b[0], b[0] as u32);
            assert((a[0] as u32) != (b[0] as u32));
        }
    }
}

pub proof fn lemma_lex_trans(a: Seq<char>, b: Seq<char>, c: Seq<char>)
    requires
        lex_le(a, b),
        lex_le(b, c),
    ensures
        lex_le(a, c),
    decreases a.len(),
{
    if a.len() > 0 && b.len() > 0 && c.len() > 0 && a[0] == b[0] && b[0] == c[0] {
        lemma_lex_trans(a.drop_first(), b.drop_first(), c.drop_first());
    }
}

pub proof fn lemma_lex_antisym(a: Seq<char>, b: Seq<char>)
    requires
        lex_le(a, b),
        lex_le(b, a),
    ensures
        a == b,
    decreases a.len(),
{
    if a.len() > 0 && b.len() > 0 {
        lemma_lex_antisym(a.drop_first(), b.drop_first());
        assert(a =~= seq![a[0]] + a.drop_first());
        assert(b =~= seq![b[0]] + b.drop_first());
    }
}

/// Strings strictly increasing (sorted, no repeats).
pub open spec fn strictly_sorted(v: Seq<Seq<char>>) -> bool {
    forall|i: int, j: int| 0 <= i < j < v.len() ==> lex_le(#[trigger] v[i], #[trigger] v[j]) && v[i] != v[j]
}

/// Insert `x` (not yet present) into a strictly sorted vector.
pub fn insert_sorted(v: &mut Vec<String>, x: String)
    requires
        strictly_sorted(string_views(old(v)@)),
        !string_views(old(v)@).contains(x@),
    ensures
        strictly_sorted(string_views(final(v)@)),
        forall|c: Seq<char>| #[trigger] string_views(final(v)@).contains(c)
            <==> (string_views(old(v)@).contains(c) || c == x@),
{
    let ghost ov = string_views(v@);
    let mut j: usize = 0;
    while j < v.len() && str_lex_le(v[j].as_str(), x.as_str())
        invariant
            j <= v.len(),
            string_views(v@) == ov,
            forall|k: int| 0 <= k < j ==> lex_le(#[trigger] ov[k], x@),
        decreases v.len() - j,
    {
        assert(ov[j as int] == v@[j as int]@);
        j += 1;
    }
    let ghost xv = x@;
    v.insert(j, x);
    proof {
        let nv = string_views(v@);
        assert(nv =~= ov.insert(j as int, xv));
        if (j as int) < ov.len() {
            assert(ov[j as int] == old(v)@[j as int]@);
            assert(!lex_le(ov[j as int], xv));
            lemma_lex_total(ov[j as int], xv);
        }
        assert forall|a: int, b: int| 0 <= a < b < nv.len() implies lex_le(#[trigger] nv[a], #[trigger] nv[b]) && nv[a] != nv[b] by {
            if b < j {
                assert(nv[a] == ov[a] && nv[b] == ov[b]);
            } else if b == j {
                assert(nv[a] == ov[a]);
                assert(ov.contains(ov[a]));
            } else if a < j {
                assert(nv[a] == ov[a] && nv[b] == ov[b - 1]);
            } else if a == j {
                assert(nv[b] == ov[b - 1]);
                assert(ov.contains(ov[b - 1]));
                if j < b - 1 {
                    lemma_lex_trans(xv, ov[j as int], ov[b - 1]);
                }
            } else {
                assert(nv[a] == ov[a - 1] && nv[b] == ov[b - 1]);
            }
        }
        assert forall|c: Seq<char>| #[trigger] nv.contains(c) <==> (ov.contains(c) || c == xv) by {
            if ov.contains(c) {
                let k = choose|k: int| 0 <= k < ov.len() && ov[k] == c;
                if k < j { assert(nv[k] == c); } else { assert(nv[k + 1] == c); }
            }
            if c == xv {
                assert(nv[j as int] == c);
            }
            if nv.contains(c) {
                let k = choose|k: int| 0 <= k < nv.len() && nv[k] == c;
                if k < j { assert(ov[k] == c); } else if k > j { assert(ov[k - 1] == c); }
            }
        }
    }
}

} // verus!
