//! Extracts structured records from free-form media-watching log lines.
//!
//! Lines are matched, in priority order, against a configurable list of
//! regular expressions with named capture groups; an independent list of
//! expressions decides whether an entry represents a finished state.
//! Matches are normalized into typed records and deduplicated across runs
//! through a content-addressed cache.

pub mod cache_db;
pub mod codec;
pub mod datatype;
pub mod hashkey;
pub mod logger;
pub mod numerals;
pub mod parser;
pub mod parser_task_manager;
pub mod pattern;
pub mod stats;
pub mod temporal;

pub use numerals::parse_number;
