//! Taking the play-time counter out of the text of a player's stats file.
//!
//! The file is JSON in shape, but the key of the counter changed its prefix
//! between game versions, so the text is searched rather than parsed: the
//! counter is the number that follows the first key ending in `inute"`.

use vstd::prelude::*;
use crate::clock::{decimal_value, is_decimal, is_digit};

verus! {

/// Game ticks to one second of play.
pub const TICKS_PER_SECOND: u64 = 20;

/// The search pattern for the counter: the end of its key, a colon with any
/// white space around it, and, as the second group, the digits of its value.
pub const PLAY_TIME_PATTERN: &'static str = "(inute\"\\s*:\\s*)(\\d+)";

/// The characters of the search pattern.
pub open spec fn play_time_pattern() -> Seq<char> {
    PLAY_TIME_PATTERN@
}

/// The text that group number `group` of the regular expression `pattern`
/// holds in the first match within `text`; `None` where the `regex`
/// crate refuses `pattern`, where nothing in `text` matches it, or where
/// the group took no part in the match.
pub uninterp spec fn regex_group(pattern: Seq<char>, text: Seq<char>, group: int) -> Option<
    Seq<char>,
>;

/// Runs the `regex` crate: compiles `pattern` with `Regex::new`, searches
/// `text` with `Regex::captures`, asks `Captures::get` for `group` and
/// copies out the text that `Match::as_str` gives. Nothing of this is
/// proved; the contract only gives the outcome its name, `regex_group`, as a
/// function of the three arguments.
#[verifier::external_body]
fn capture_group(pattern: &str, text: &str, group: usize) -> (found: Option<String>)
    ensures
        match found {
            Some(s) => regex_group(pattern@, text@, group as int) == Some(s@),
            None => regex_group(pattern@, text@, group as int) is None,
        },
{
    let re = regex::Regex::new(pattern).ok()?;
    let caps = re.captures(text)?;
    let m = caps.get(group)?;
    Some(m.as_str().to_string())
}

/// The tick count that a run of digits denotes: none where the text is not
/// a non-empty run of the digits `0` to `9`, or where the number does not
/// fit in 64 bits.
pub open spec fn ticks_of_digits(digits: Seq<char>) -> Option<u64> {
    if is_decimal(digits) && decimal_value(digits) <= u64::MAX {
        Some(decimal_value(digits) as u64)
    } else {
        None
    }
}

/// The tick count for what the search found.
pub open spec fn ticks_of_capture(capture: Option<Seq<char>>) -> Option<u64> {
    match capture {
        Some(digits) => ticks_of_digits(digits),
        None => None,
    }
}

/// The whole seconds of play in `ticks` game ticks.
pub open spec fn seconds_of_ticks(ticks: nat) -> nat {
    ticks / (TICKS_PER_SECOND as nat)
}

/// The value of a prefix never exceeds the value of the whole.
proof fn lemma_prefix_value(s: Seq<char>, k: int)
    requires
        0 <= k <= s.len(),
    ensures
        decimal_value(s.subrange(0, k)) <= decimal_value(s),
    decreases s.len() - k,
{
    if k == s.len() {
        assert(s.subrange(0, k) =~= s);
    } else {
        lemma_prefix_value(s.drop_last(), k);
        assert(s.drop_last().subrange(0, k) =~= s.subrange(0, k));
    }
}

/// Reads a decimal number. Succeeds exactly on a non-empty run of the
/// digits `0` to `9` whose value fits in 64 bits.
pub fn parse_ticks(digits: &str) -> (ticks: Option<u64>)
    ensures
        ticks == ticks_of_digits(digits@),
{
    let n: usize = digits.unicode_len();
    if n == 0 {
        return None;
    }
    let mut value: u64 = 0;
    let mut i: usize = 0;
    while i < n
        invariant
            n == digits@.len(),
            i <= n,
            value == decimal_value(digits@.subrange(0, i as int)),
            forall|j: int| 0 <= j < i ==> is_digit(#[trigger] digits@[j]),
        decreases n - i,
    {
        let c: char = digits.get_char(i);
        if !(c >= '0' && c <= '9') {
            return None;
        }
        let d: u64 = (c as u32 - 48) as u64;
        proof {
            let next = digits@.subrange(0, i + 1);
            assert(next.drop_last() =~= digits@.subrange(0, i as int));
            assert(next.last() == c);
            assert(decimal_value(next) == value * 10 + d);
            lemma_prefix_value(digits@, i + 1);
        }
        if value > (u64::MAX - d) / 10 {
            return None;
        }
        value = value * 10 + d;
        i = i + 1;
    }
    assert(digits@.subrange(0, n as int) =~= digits@);
    Some(value)
}

/// The tick count for what the search found: the number that the found
/// digits denote, and none where nothing was found or the digits do not
/// make a 64-bit number.
pub fn ticks_from_capture(capture: Option<&str>) -> (ticks: Option<u64>)
    ensures
        ticks == match capture {
            Some(digits) => ticks_of_digits(digits@),
            None => None,
        },
{
    match capture {
        Some(digits) => parse_ticks(digits),
        None => None,
    }
}

/// Finds the play-time counter in the text of a stats file: the number that
/// follows the first key ending in `inute"`, whatever prefix the key has.
/// The result is in game ticks. It is none where the text holds no such key
/// with a number after it, and where the number does not fit in 64 bits.
pub fn get_ticks_played_from_stats(file: &str) -> (ticks: Option<u64>)
    ensures
        ticks == ticks_of_capture(regex_group(play_time_pattern(), file@, 2)),
        regex_group(play_time_pattern(), file@, 2) is None ==> ticks is None,
{
    let found = capture_group(PLAY_TIME_PATTERN, file, 2);
    match found {
        Some(digits) => parse_ticks(digits.as_str()),
        None => None,
    }
}

/// The whole seconds of play in `ticks` game ticks, at twenty to the second.
pub fn ticks_to_seconds(ticks: u64) -> (seconds: u64)
    ensures
        seconds == seconds_of_ticks(ticks as nat),
{
    ticks / TICKS_PER_SECOND
}

} // verus!
