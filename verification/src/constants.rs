//! Named limits and defaults shared across the library.
use vstd::prelude::*;

verus! {

/// Read chunk size, in bytes.
pub const DEFAULT_CHUNK_SIZE: usize = 65536;

/// Largest message or raw text kept for one entry, in bytes.
pub const DEFAULT_MAX_ENTRY_SIZE: usize = 65536;

/// Parse errors recorded per file at most.
pub const MAX_PARSE_ERRORS_PER_FILE: usize = 1000;

/// Longest regex source a profile may use, in bytes.
pub const MAX_REGEX_PATTERN_LENGTH: usize = 1024;

/// Least auto-detection confidence for a profile to be chosen, as a fraction
/// `NUM / DEN`.
pub const AUTO_DETECT_MIN_CONFIDENCE_NUM: u64 = 3;
pub const AUTO_DETECT_MIN_CONFIDENCE_DEN: u64 = 10;

/// Directory recursion depth used by default, and the largest accepted.
pub const DEFAULT_MAX_DEPTH: usize = 10;
pub const ABSOLUTE_MAX_DEPTH: usize = 50;

/// Files discovered per scan by default, and the accepted range.
pub const DEFAULT_MAX_FILES: usize = 500;
pub const MIN_MAX_FILES: usize = 1;
pub const ABSOLUTE_MAX_FILES: usize = 10000;

/// Entries kept in memory across all files.
pub const MAX_TOTAL_ENTRIES: usize = 1000000;

/// Live-tail entries kept before the oldest are evicted.
pub const DEFAULT_MAX_TAIL_BUFFER_ENTRIES: usize = 100000;

/// Files larger than this many bytes are flagged as large.
pub const DEFAULT_LARGE_FILE_THRESHOLD: u64 = 104857600;

/// Correlation window, in seconds: default and accepted range.
pub const DEFAULT_CORRELATION_WINDOW_SECS: i64 = 30;
pub const MIN_CORRELATION_WINDOW_SECS: i64 = 1;
pub const MAX_CORRELATION_WINDOW_SECS: i64 = 3600;

/// Event-data name/value pairs shown per Windows event at most.
pub const EVTX_MAX_DATA_PAIRS: usize = 32;

/// Lines sampled from each file for format detection.
pub const SAMPLE_LINES: usize = 20;

} // verus!
