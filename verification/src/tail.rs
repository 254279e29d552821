//! Live tail: per-file read positions, rotation handling and the
//! partial-line buffer.  Polling, reading bytes and sending entries are the
//! caller's part; each step here takes what was read and says what to do.
use vstd::prelude::*;
use crate::model::FormatProfile;
use crate::parser::{ParseConfig, ParseResult, entry_views, error_views, parse_content, parse_errors, parsed_entries};
use crate::text::{chars_of, lines_spec, push_str, spec_utf8_lossy, string_of_range, utf8_lossy};

verus! {

/// Milliseconds between cancellation checks while waiting.
pub const TAIL_CANCEL_CHECK_INTERVAL_MS: u64 = 100;

/// Most bytes read from one file in one poll.
pub const MAX_TAIL_READ_BYTES_PER_TICK: usize = 4194304;

/// One watched file.
pub struct TailFileState {
    pub path: String,
    pub profile: FormatProfile,
    /// Bytes of the file examined so far.
    pub offset: u64,
    /// Text after the last newline read: a line still being written.
    pub partial: String,
}

impl TailFileState {
    /// Start watching a file at its current size (only later writes count).
    pub fn new(path: String, profile: FormatProfile, current_size: u64) -> (r: TailFileState)
        ensures
            r.path == path,
            r.profile == profile,
            r.offset == current_size,
            r.partial@.len() == 0,
    {
        TailFileState { path, profile, offset: current_size, partial: String::new() }
    }

    /// How many bytes to read now, given the file's current size: a file
    /// smaller than the position was truncated or rotated, so reading starts
    /// again from the beginning with an empty partial line; at most the cap
    /// is read; zero when there is nothing new.
    pub fn plan_read(&mut self, current_size: u64) -> (r: usize)
        ensures
            current_size < old(self).offset ==> final(self).offset == 0 && final(self).partial@.len() == 0,
            current_size >= old(self).offset ==> final(self).offset == old(self).offset && final(self).partial@ == old(self).partial@,
            final(self).path == old(self).path,
            final(self).profile == old(self).profile,
            r as int == if current_size - final(self).offset < MAX_TAIL_READ_BYTES_PER_TICK {
                current_size - final(self).offset
            } else {
                MAX_TAIL_READ_BYTES_PER_TICK as int
            },
    {
        if current_size < self.offset {
            self.offset = 0;
            self.partial = String::new();
        }
        let avail = current_size - self.offset;
        if avail < MAX_TAIL_READ_BYTES_PER_TICK as u64 {
            avail as usize
        } else {
            MAX_TAIL_READ_BYTES_PER_TICK
        }
    }

    /// Take in `read` newly read bytes decoded as `text`: the position
    /// advances by `read`; the text joins the partial line; everything up to
    /// and including its last newline is returned for parsing, the rest is
    /// kept as the new partial line (nothing is returned when there is no
    /// newline yet).
    pub fn absorb(&mut self, text: &str, read: u64) -> (r: Option<String>)
        requires
            old(self).offset + read <= u64::MAX,
        ensures
            final(self).offset == old(self).offset + read,
            final(self).path == old(self).path,
            final(self).profile == old(self).profile,
            ({
                let all = old(self).partial@ + text@;
                match last_newline(all) {
                    None => r is None && final(self).partial@ == all,
                    Some(i) => r matches Some(c) && c@ == all.take(i + 1) && final(self).partial@ == all.skip(i + 1),
                }
            }),
    {
        self.offset = self.offset + read;
        let mut all = String::new();
        push_str(&mut all, self.partial.as_str());
        push_str(&mut all, text);
        let v = chars_of(all.as_str());
        let mut k: usize = v.len();
        assert(v@.take(v@.len() as int) =~= v@);
        while k > 0 && v[k - 1] != '\n'
            invariant
                k <= v.len(),
                last_newline(v@) == last_newline(v@.take(k as int)),
            decreases k,
        {
            proof {
                assert(v@.take(k as int).drop_last() =~= v@.take(k - 1));
            }
            k -= 1;
        }
        if k == 0 {
            assert(v@.take(0) =~= Seq::<char>::empty());
            self.partial = all;
            return None;
        }
        assert(last_newline(v@.take(k as int)) == Some(k - 1));
        let complete = string_of_range(&v, 0, k);
        let rest = string_of_range(&v, k, v.len());
        assert(v@.subrange(0, k as int) =~= v@.take(k as int));
        assert(v@.subrange(k as int, v@.len() as int) =~= v@.skip(k as int));
        self.partial = rest;
        Some(complete)
    }

    /// Take in newly read bytes (decoded as UTF-8, invalid sequences
    /// replaced); see `absorb`.
    pub fn absorb_bytes(&mut self, bytes: &[u8]) -> (r: Option<String>)
        requires
            old(self).offset + bytes@.len() <= u64::MAX,
        ensures
            final(self).offset == old(self).offset + bytes@.len(),
            final(self).path == old(self).path,
            final(self).profile == old(self).profile,
            ({
                let all = old(self).partial@ + spec_utf8_lossy(bytes@);
                match last_newline(all) {
                    None => r is None && final(self).partial@ == all,
                    Some(i) => r matches Some(c) && c@ == all.take(i + 1) && final(self).partial@ == all.skip(i + 1),
                }
            }),
    {
        let text = utf8_lossy(bytes);
        self.absorb(text.as_str(), bytes.len() as u64)
    }

    /// Parse complete lines read from this file, numbering entries from
    /// `next_id`.
    pub fn parse(&self, complete: &str, config: &ParseConfig, next_id: u64) -> (r: ParseResult)
        requires
            next_id + crate::parser::nonblank_count(lines_spec(complete@)) <= u64::MAX,
        ensures
            exists|y: i32| entry_views(r.entries@) == parsed_entries(complete@, self.path@, &self.profile, *config, next_id, y as int)
                && error_views(r.errors@) == parse_errors(complete@, self.path@, &self.profile, *config, next_id, y as int),
            r.lines_processed == lines_spec(complete@).len(),
    {
        parse_content(complete, self.path.as_str(), &self.profile, config, next_id)
    }
}

/// Position of the last newline.
pub open spec fn last_newline(s: Seq<char>) -> Option<int>
    decreases s.len(),
{
    if s.len() == 0 {
        None
    } else if s.last() == '\n' {
        Some(s.len() - 1)
    } else {
        last_newline(s.drop_last())
    }
}

/// Cancellation checks in one poll interval (at least one).
pub fn wait_slices(poll_interval_ms: u64, check_interval_ms: u64) -> (r: u64)
    requires
        check_interval_ms > 0,
    ensures
        r == if poll_interval_ms / check_interval_ms >= 1 { poll_interval_ms / check_interval_ms } else { 1 },
{
    let q = poll_interval_ms / check_interval_ms;
    if q >= 1 { q } else { 1 }
}


proof fn lemma_last_newline(s: Seq<char>)
    ensures
        match last_newline(s) {
            None => forall|k: int| 0 <= k < s.len() ==> s[k] != '\n',
            Some(i) => 0 <= i < s.len() && s[i] == '\n' && forall|k: int| i < k < s.len() ==> s[k] != '\n',
        },
    decreases s.len(),
{
    if s.len() > 0 && s.last() != '\n' {
        lemma_last_newline(s.drop_last());
        assert forall|k: int| 0 <= k < s.len() - 1 implies s.drop_last()[k] == s[k] by {}
    }
}

/// Splitting the buffered text at its last newline loses nothing: the part
/// handed to the parser ends with a newline, the part kept back holds none,
/// and together they are the buffered text.
pub proof fn law_tail_split_keeps_all_text(partial: Seq<char>, text: Seq<char>)
    ensures
        ({
            let all = partial + text;
            match last_newline(all) {
                None => !all.contains('\n'),
                Some(i) => all.take(i + 1) + all.skip(i + 1) == all
                    && all.take(i + 1).last() == '\n'
                    && !all.skip(i + 1).contains('\n'),
            }
        }),
{
    let all = partial + text;
    lemma_last_newline(all);
    match last_newline(all) {
        None => {},
        Some(i) => {
            assert(all.take(i + 1) + all.skip(i + 1) =~= all);
            let rest = all.skip(i + 1);
            if rest.contains('\n') {
                let k = choose|k: int| 0 <= k < rest.len() && #[trigger] rest[k] == '\n';
                assert(rest[k] == all[i + 1 + k]);
            }
        },
    }
}

} // verus!
