//! A regular-expression library with verified pattern handling, match
//! bookkeeping and iteration, built around an ECMAScript-compatible engine.

pub mod encoding;
pub mod engine;
pub mod error;
pub mod flags;
pub mod pattern;
pub mod regex;
pub mod safe;

pub use encoding::{decode_pattern, encode_utf8, encode_utf8_surrogate};
pub use error::{RegexError, Result};
pub use flags::{
    RegexFlags, LRE_FLAG_DOTALL, LRE_FLAG_GLOBAL, LRE_FLAG_IGNORECASE, LRE_FLAG_INDICES,
    LRE_FLAG_MULTILINE, LRE_FLAG_NAMED_GROUPS, LRE_FLAG_STICKY, LRE_FLAG_UNICODE,
    LRE_FLAG_UNICODE_SETS,
};
pub use regex::{CaptureMatches, Captures, Match, Matches, Regex, Split};
pub use safe::{compile, exec_bytes, get_group_names, MatchResult, RegexInfo};
