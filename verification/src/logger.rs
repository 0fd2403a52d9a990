//! Reading the configured log level.

use vstd::prelude::*;
use crate::error::{GatewayError, GatewayResult};
use crate::text::{chars_of, matches_word, equals_ignoring_case};

verus! {

/// The verbosity levels of the gateway's log.
#[derive(Clone, Copy, Debug, PartialEq, Eq, Structural)]
pub enum LogLevel {
    Trace,
    Debug,
    Info,
    Warn,
    Error,
}

/// The level that a configured name denotes, without regard to the case of
/// ASCII letters.
pub open spec fn level_for_name(n: Seq<char>) -> Option<LogLevel> {
    if equals_ignoring_case(n, seq!['t', 'r', 'a', 'c', 'e']) {
        Some(LogLevel::Trace)
    } else if equals_ignoring_case(n, seq!['d', 'e', 'b', 'u', 'g']) {
        Some(LogLevel::Debug)
    } else if equals_ignoring_case(n, seq!['i', 'n', 'f', 'o']) {
        Some(LogLevel::Info)
    } else if equals_ignoring_case(n, seq!['w', 'a', 'r', 'n']) {
        Some(LogLevel::Warn)
    } else if equals_ignoring_case(n, seq!['e', 'r', 'r', 'o', 'r']) {
        Some(LogLevel::Error)
    } else {
        None
    }
}

/// Level names are read without regard to case: a name and its lower-case
/// form denote the same level, and the five lower-case names denote, in
/// turn, trace, debug, info, warn and error.
pub proof fn law_level_names_ignore_case(n: Seq<char>)
    ensures
        level_for_name(n) == level_for_name(crate::text::ascii_lowercase(n)),
        level_for_name(seq!['t', 'r', 'a', 'c', 'e']) == Some(LogLevel::Trace),
        level_for_name(seq!['d', 'e', 'b', 'u', 'g']) == Some(LogLevel::Debug),
        level_for_name(seq!['i', 'n', 'f', 'o']) == Some(LogLevel::Info),
        level_for_name(seq!['w', 'a', 'r', 'n']) == Some(LogLevel::Warn),
        level_for_name(seq!['e', 'r', 'r', 'o', 'r']) == Some(LogLevel::Error),
{
    let l = crate::text::ascii_lowercase(n);
    assert forall|i: int| 0 <= i < n.len() implies crate::text::ascii_lower(#[trigger] l[i]) == crate::text::ascii_lower(n[i]) by {
        let c = n[i];
        if 'A' <= c && c <= 'Z' {
            assert(((c as u32) + 32) as char == crate::text::ascii_lower(c));
        }
    }
    let words = seq![seq!['t', 'r', 'a', 'c', 'e'], seq!['d', 'e', 'b', 'u', 'g'], seq!['i', 'n', 'f', 'o'], seq!['w', 'a', 'r', 'n'],
        seq!['e', 'r', 'r', 'o', 'r']];
    assert forall|k: int| 0 <= k < 5 implies (equals_ignoring_case(n, #[trigger] words[k]) == equals_ignoring_case(l, words[k])) by {
        if equals_ignoring_case(l, words[k]) {
            assert forall|i: int| 0 <= i < n.len() implies crate::text::ascii_lower(#[trigger] n[i]) == words[k][i] by {
                assert(crate::text::ascii_lower(l[i]) == crate::text::ascii_lower(n[i]));
            }
        }
    }
    assert(words[0] == seq!['t', 'r', 'a', 'c', 'e']);
    assert(words[1] == seq!['d', 'e', 'b', 'u', 'g']);
    assert(words[2] == seq!['i', 'n', 'f', 'o']);
    assert(words[3] == seq!['w', 'a', 'r', 'n']);
    assert(words[4] == seq!['e', 'r', 'r', 'o', 'r']);
    let t = seq!['t', 'r', 'a', 'c', 'e'];
    let d = seq!['d', 'e', 'b', 'u', 'g'];
    let f = seq!['i', 'n', 'f', 'o'];
    let w = seq!['w', 'a', 'r', 'n'];
    let e = seq!['e', 'r', 'r', 'o', 'r'];
    assert(equals_ignoring_case(t, t));
    assert(!equals_ignoring_case(d, t) && equals_ignoring_case(d, d));
    assert(!equals_ignoring_case(f, t) && !equals_ignoring_case(f, d) && equals_ignoring_case(f, f));
    assert(!equals_ignoring_case(w, t) && !equals_ignoring_case(w, d) && !equals_ignoring_case(w, f) && equals_ignoring_case(w, w));
    assert(!equals_ignoring_case(e, t) && !equals_ignoring_case(e, d) && !equals_ignoring_case(e, f) && !equals_ignoring_case(e, w)
        && equals_ignoring_case(e, e));
}

/// The level that a configured name denotes, such as `info` or `DEBUG`.
pub fn log_level_for_name(level: &str) -> (r: Option<LogLevel>)
    ensures
        r == level_for_name(level@),
{
    let n = chars_of(level);
    if matches_word(n.as_slice(), &['t', 'r', 'a', 'c', 'e']) {
        Some(LogLevel::Trace)
    } else if matches_word(n.as_slice(), &['d', 'e', 'b', 'u', 'g']) {
        Some(LogLevel::Debug)
    } else if matches_word(n.as_slice(), &['i', 'n', 'f', 'o']) {
        Some(LogLevel::Info)
    } else if matches_word(n.as_slice(), &['w', 'a', 'r', 'n']) {
        Some(LogLevel::Warn)
    } else if matches_word(n.as_slice(), &['e', 'r', 'r', 'o', 'r']) {
        Some(LogLevel::Error)
    } else {
        None
    }
}

/// Reads a configured log level: `trace`, `debug`, `info`, `warn` or `error`
/// in any ASCII case; anything else is a parse error.
pub fn parse_log_level(level: &str) -> (r: GatewayResult<LogLevel>)
    ensures
        r is Ok <==> level_for_name(level@) is Some,
        r matches Ok(l) ==> level_for_name(level@) == Some(l),
        r matches Err(e) ==> e.kind() == 0 && e.message() == "Invalid log level"@,
{
    match log_level_for_name(level) {
        Some(l) => Ok(l),
        None => Err(GatewayError::Parse(String::from_str("Invalid log level"))),
    }
}

} // verus!
