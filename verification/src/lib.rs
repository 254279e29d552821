//! Log discovery, parsing, filtering and search engine of LogSleuth.
pub mod clock;
pub mod config;
pub mod constants;
pub mod datetime;
pub mod dir_watch;
pub mod discovery;
pub mod event_logs;
pub mod evtx;
pub mod export;
pub mod filter;
pub mod model;
pub mod multi_search;
pub mod parser;
pub mod pattern;
pub mod persistence;
pub mod profile;
pub mod progress;
pub mod profile_mgr;
pub mod report;
pub mod scan;
pub mod session;
pub mod state;
pub mod tail;
pub mod text;
pub mod unc;
