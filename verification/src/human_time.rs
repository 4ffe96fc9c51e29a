//! Spans of time as people write them, such as `1h` or `2h 30min`.

use vstd::prelude::*;
use vstd::string::StringExecFns;
use crate::error::ModelError;
use crate::text::chars_of;

verus! {

/// A span of time: whole seconds and the nanoseconds beyond them.
#[derive(Clone, Copy, Debug, PartialEq, Eq, Structural)]
pub struct Duration {
    pub secs: u64,
    pub nanos: u32,
}

impl Duration {
    /// The empty span of time.
    pub fn zero() -> (d: Self)
        ensures
            d == (Duration { secs: 0, nanos: 0 }),
    {
        Duration { secs: 0, nanos: 0 }
    }
}

impl Default for Duration {
    fn default() -> (d: Self)
        ensures
            d == (Duration { secs: 0, nanos: 0 }),
    {
        Duration { secs: 0, nanos: 0 }
    }
}

#[verifier::external_type_specification]
#[verifier::external_body]
pub struct ExDurationError(humantime::DurationError);

/// What `humantime::parse_duration` makes of a text: the span of time that
/// it reads from the text, or nothing where it rejects the text.
pub uninterp spec fn human_duration(text: Seq<char>) -> Option<Duration>;

/// The number of decimal digits among the characters of a text.
pub open spec fn digit_count(text: Seq<char>) -> nat
    decreases text.len(),
{
    if text.len() == 0 {
        0
    } else {
        digit_count(text.drop_last()) + if '0' <= text.last() <= '9' {
            1nat
        } else {
            0nat
        }
    }
}

/// The most digits that a text may hold to be read as a span of time.
pub const MAX_DURATION_DIGITS: usize = 11;

/// Calls `humantime::parse_duration`, which reads a text as a sum of
/// numbers with units of time, and hands out the seconds and nanoseconds of
/// what it returns.
///
/// Trusted: the result is that of the outside function, which depends on
/// the text alone. The text may hold eleven digits at most: the numbers in
/// it then stay below ten to the eleventh, their products with the units
/// (the largest is a year of 31 557 600 seconds) stay far below the largest
/// number of seconds, and so the outside function cannot reach the one
/// place where it does not return, the carry of a full second of
/// nanoseconds into a count of seconds that is already the largest.
#[verifier::external_body]
fn humantime_parse(text: &str) -> (r: Result<Duration, humantime::DurationError>)
    requires
        digit_count(text@) <= MAX_DURATION_DIGITS,
    ensures
        match r {
            Ok(d) => human_duration(text@) == Some(d),
            Err(_) => human_duration(text@) is None,
        },
{
    match humantime::parse_duration(text) {
        Ok(d) => Ok(Duration { secs: d.as_secs(), nanos: d.subsec_nanos() }),
        Err(e) => Err(e),
    }
}

/// Counts the decimal digits of a text.
fn count_digits(text: &str) -> (n: usize)
    ensures
        n == digit_count(text@),
{
    let chars = chars_of(text);
    let mut n: usize = 0;
    let mut i: usize = 0;
    proof {
        assert(chars@.take(0) =~= Seq::empty());
    }
    while i < chars.len()
        invariant
            i <= chars@.len(),
            n == digit_count(chars@.take(i as int)),
            n <= i,
        decreases chars@.len() - i,
    {
        let c = chars[i];
        proof {
            assert(chars@.take(i + 1).drop_last() =~= chars@.take(i as int));
            assert(chars@.take(i + 1).last() == c);
        }
        if '0' <= c && c <= '9' {
            n += 1;
        }
        i += 1;
    }
    proof {
        assert(chars@.take(i as int) =~= chars@);
    }
    n
}

/// The span of time that a text stands for, if it stands for one: what
/// `humantime::parse_duration` reads from a text of eleven digits at most.
pub open spec fn human_time(text: Seq<char>) -> Option<Duration> {
    if digit_count(text) <= MAX_DURATION_DIGITS {
        human_duration(text)
    } else {
        None
    }
}

/// The message of the error for a text that stands for no span of time.
pub open spec fn invalid_duration_message(text: Seq<char>) -> Seq<char> {
    "Invalid time specification: "@ + text
}

/// What is returned for a text once it has been read: the span of time, or
/// the error that names the text.
pub fn resolve_human_time(text: &str, read: Option<Duration>) -> (r: Result<Duration, ModelError>)
    ensures
        match read {
            Some(d) => r == Ok::<Duration, ModelError>(d),
            None => r matches Err(ModelError::DeserializationError(message)) && message@
                == invalid_duration_message(text@),
        },
{
    match read {
        Some(d) => Ok(d),
        None => {
            let mut message = "Invalid time specification: ".to_owned();
            message.append(text);
            Err(ModelError::DeserializationError(message))
        },
    }
}

/// Reads a span of time as people write it: numbers with units, such as
/// `1h`, `30m` or `2h 30min`. A text with more than eleven digits is
/// rejected.
pub fn parse_human_time(text: &str) -> (r: Result<Duration, ModelError>)
    ensures
        match human_time(text@) {
            Some(d) => r == Ok::<Duration, ModelError>(d),
            None => r matches Err(ModelError::DeserializationError(message)) && message@
                == invalid_duration_message(text@),
        },
{
    let read = if count_digits(text) <= MAX_DURATION_DIGITS {
        match humantime_parse(text) {
            Ok(d) => Some(d),
            Err(_) => None,
        }
    } else {
        None
    };
    resolve_human_time(text, read)
}

} // verus!
