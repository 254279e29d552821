# logsleuth

A log viewer's engine, verified with Verus: discovery of log files under a
directory, detection of their format from profiles, parsing into entries,
filtering, deduplication and multi-term search, live tailing, directory
watching, session persistence, reports and export.

## Layout

- `src/` — the library. Every function carries a `requires` / `ensures`
  contract that Verus proves; laws that span several functions stand as
  public proof functions (named `law_...`). Calls into outside crates
  (regex, glob, chrono, csv, serde_json, evtx, directories) and a few std
  functions go through small trusted wrappers whose doc comments say what
  their contracts claim.
- `tests/` — ordinary Rust tests of the library on concrete values.
- `app/` — the command-line program around the library: argument handling,
  file and network I/O, background threads, serde copies of the library's
  types, and the Windows share connection.

The library is verified by running Verus on `src/lib.rs`.
