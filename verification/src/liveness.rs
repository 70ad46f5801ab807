//! Settings of the liveness probe.

use crate::footprint::{is_space, space};
use crate::text::{chars_of, is_digit};
use vstd::prelude::*;

verus! {

/// Reported when a liveness timeout under one millisecond is asked for.
pub struct TimeoutIsTooShortError;

impl TimeoutIsTooShortError {
    /// The message that the error is reported with.
    pub fn message(&self) -> (r: &'static str)
        ensures
            r@ == "liveness probe timeout is too short"@,
    {
        "liveness probe timeout is too short"
    }
}

/// The timeout used where the configured one does not parse: five seconds.
pub const DEFAULT_TIMEOUT_SECS: u64 = 5;

/// Nanoseconds in the shortest timeout accepted without a warning (1 ms).
pub const MIN_TIMEOUT_NANOS: u32 = 1_000_000;

/// What `humantime::parse_duration` reads from the text: whole seconds and
/// nanoseconds, or nothing where the text is not a duration.
pub uninterp spec fn humantime_duration(text: Seq<char>) -> Option<(u64, u32)>;

/// Largest number weight (see `number_weight`) of a timeout text that is
/// parsed: a year, the longest unit, is 31,557,600 seconds, and this many
/// of them still fit in a `u64` of seconds.
pub const MAX_NUMBER_WEIGHT: u64 = 584_542_046_090;

/// Scanning the text: the weight of the numbers ended so far, and the value
/// of the number being read, if any. Whitespace inside a number is skipped,
/// as the duration parser skips it; any other character ends the number.
pub open spec fn number_scan(text: Seq<char>) -> (nat, Option<nat>)
    decreases text.len(),
{
    if text.len() == 0 {
        (0, None)
    } else {
        let (done, current) = number_scan(text.drop_last());
        let c = text.last();
        if is_digit(c) {
            let prev: nat = match current {
                Some(v) => v,
                None => 0,
            };
            (done, Some(prev * 10 + (c as nat - 48) as nat))
        } else if is_space(c) {
            (done, current)
        } else {
            match current {
                Some(v) => (done + v + 1, None),
                None => (done, None),
            }
        }
    }
}

/// The number weight of a text: each number in it (its digits read
/// together across whitespace) counts its value plus one. Every span that
/// the duration parser reads adds at most a year per unit of this weight,
/// carries of whole seconds included.
pub open spec fn number_weight(text: Seq<char>) -> nat {
    let (done, current) = number_scan(text);
    done + match current {
        Some(v) => v + 1,
        None => 0,
    }
}

/// The weight never drops as the text goes on.
proof fn lemma_number_weight_grows(text: Seq<char>, i: int)
    requires
        0 <= i <= text.len(),
    ensures
        number_weight(text.take(i)) <= number_weight(text),
    decreases text.len() - i,
{
    if i < text.len() {
        lemma_number_weight_grows(text, i + 1);
        assert(text.take(i + 1).drop_last() =~= text.take(i));
    } else {
        assert(text.take(i) =~= text);
    }
}

/// Whether the number weight of the text is at most `MAX_NUMBER_WEIGHT`.
fn weight_fits(text: &str) -> (r: bool)
    ensures
        r == (number_weight(text@) <= MAX_NUMBER_WEIGHT),
{
    let cs = chars_of(text);
    let mut done: u64 = 0;
    let mut in_number: bool = false;
    let mut current: u64 = 0;
    let mut i: usize = 0;
    while i < cs.len()
        invariant
            i <= cs@.len(),
            cs@ == text@,
            number_scan(cs@.take(i as int)) == (done as nat, if in_number {
                Some(current as nat)
            } else {
                None::<nat>
            }),
            number_weight(cs@.take(i as int)) <= MAX_NUMBER_WEIGHT,
        decreases cs@.len() - i,
    {
        proof {
            assert(cs@.take(i + 1).drop_last() =~= cs@.take(i as int));
            assert(cs@.take(i + 1).last() == cs@[i as int]);
        }
        let c = cs[i];
        if '0' <= c && c <= '9' {
            let d: u64 = (c as u32 - 48) as u64;
            if !in_number {
                current = 0;
            }
            current = current * 10 + d;
            in_number = true;
        } else if space(c) {
        } else if in_number {
            done = done + current + 1;
            in_number = false;
            current = 0;
        }
        i = i + 1;
        let w: u64 = if in_number {
            done + current + 1
        } else {
            done
        };
        if w > MAX_NUMBER_WEIGHT {
            proof {
                lemma_number_weight_grows(cs@, i as int);
            }
            return false;
        }
    }
    proof {
        assert(cs@.take(i as int) =~= cs@);
    }
    true
}

/// Calls `humantime::parse_duration` and splits the duration into whole
/// seconds and the nanoseconds under a second. The parser panics when its
/// seconds reach `u64::MAX` with a whole second still to carry, which needs
/// a total of 2^64 seconds; texts of a number weight above
/// `MAX_NUMBER_WEIGHT` are left out, which keeps every total below that.
#[verifier::external_body]
fn parse_duration(text: &str) -> (r: Option<(u64, u32)>)
    requires
        number_weight(text@) <= MAX_NUMBER_WEIGHT,
    ensures
        r == humantime_duration(text@),
{
    match humantime::parse_duration(text) {
        Ok(d) => Some((d.as_secs(), d.subsec_nanos())),
        Err(_) => None,
    }
}

/// Liveness probe settings.
pub struct Config {
    /// Timeout written as a duration, such as `5s` or `10ms`.
    pub timeout: String,
}

impl Config {
    /// Settings with a five-second timeout.
    pub fn new() -> (r: Self)
        ensures
            r.timeout@ == "5s"@,
    {
        Config { timeout: String::from_str("5s") }
    }

    /// The timeout as whole seconds and nanoseconds: the configured one
    /// where it parses, else five seconds. A text whose numbers weigh more
    /// than `MAX_NUMBER_WEIGHT` (more than about 18,500 years' worth) is not
    /// handed to the parser, which can panic on such totals, and gives five
    /// seconds too.
    pub fn liveness_timeout(&self) -> (r: (u64, u32))
        ensures
            number_weight(self.timeout@) <= MAX_NUMBER_WEIGHT ==> r == match humantime_duration(
                self.timeout@,
            ) {
                Some(d) => d,
                None => (DEFAULT_TIMEOUT_SECS, 0u32),
            },
            number_weight(self.timeout@) > MAX_NUMBER_WEIGHT ==> r == (DEFAULT_TIMEOUT_SECS, 0u32),
    {
        if !weight_fits(self.timeout.as_str()) {
            return (DEFAULT_TIMEOUT_SECS, 0);
        }
        match parse_duration(self.timeout.as_str()) {
            Some(d) => d,
            None => (DEFAULT_TIMEOUT_SECS, 0),
        }
    }
}

impl Default for Config {
    fn default() -> (r: Self)
        ensures
            r.timeout@ == "5s"@,
    {
        Config::new()
    }
}

/// Whether a timeout is under one millisecond (the probe keeps it, with a
/// warning).
pub fn timeout_is_too_short(secs: u64, nanos: u32) -> (r: bool)
    ensures
        r == (secs == 0 && nanos < MIN_TIMEOUT_NANOS),
{
    secs == 0 && nanos < MIN_TIMEOUT_NANOS
}

/// The timeout a probe uses where the configured one is under one
/// millisecond: ten milliseconds.
pub const FALLBACK_TIMEOUT_NANOS: u32 = 10_000_000;

/// The timeout the probe runs with: the given one, or ten milliseconds
/// where the given one is under one millisecond.
pub fn probe_timeout(secs: u64, nanos: u32) -> (r: (u64, u32))
    ensures
        r == (if secs == 0 && nanos < MIN_TIMEOUT_NANOS {
            (0u64, FALLBACK_TIMEOUT_NANOS)
        } else {
            (secs, nanos)
        }),
{
    if timeout_is_too_short(secs, nanos) {
        (0, FALLBACK_TIMEOUT_NANOS)
    } else {
        (secs, nanos)
    }
}

/// A probe is alive when every watched service is (and with none watched).
pub open spec fn all_alive(results: Seq<bool>) -> bool {
    forall|i: int| 0 <= i < results.len() ==> results[i]
}

/// Whether every watched service answered alive.
pub fn check_services(results: &Vec<bool>) -> (r: bool)
    ensures
        r == all_alive(results@),
        r <==> forall|i: int| 0 <= i < results@.len() ==> #[trigger] results@[i],
        forall|i: int| 0 <= i < results@.len() && !#[trigger] results@[i] ==> !r,
{
    let mut i: usize = 0;
    while i < results.len()
        invariant
            i <= results@.len(),
            forall|k: int| 0 <= k < i ==> results@[k],
        decreases results@.len() - i,
    {
        if !results[i] {
            return false;
        }
        i = i + 1;
    }
    true
}

/// The probe is alive exactly when no watched service answered not alive,
/// wherever that service stands among them; with none watched it is alive.
pub proof fn law_alive_only_if_all_alive(results: Seq<bool>, down: int)
    ensures
        all_alive(results) <==> forall|i: int| 0 <= i < results.len() ==> #[trigger] results[i],
        0 <= down < results.len() && !results[down] ==> !all_alive(results),
        results.len() == 0 ==> all_alive(results),
{
}

} // verus!
