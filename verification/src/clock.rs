//! Times of day.

use crate::text::{push_two_digits, two_digits};
use vstd::arithmetic::div_mod::{lemma_hoist_over_denominator, lemma_mod_multiples_vanish};
use vstd::prelude::*;

verus! {

#[verifier::external_type_specification]
#[verifier::external_body]
pub struct ExSystemTime(std::time::SystemTime);

/// The nanoseconds from the Unix epoch to a time that is not before it.
pub uninterp spec fn epoch_nanos(t: std::time::SystemTime) -> Option<u128>;

/// `SystemTime::duration_since` with the Unix epoch: how long after it a time
/// is, here in nanoseconds, and nothing for a time before it.
#[verifier::external_body]
fn nanos_since_epoch(t: std::time::SystemTime) -> (nanos: Option<u128>)
    ensures
        nanos == epoch_nanos(t),
{
    t.duration_since(std::time::UNIX_EPOCH).ok().map(|d| d.as_nanos())
}

/// The time of day of a moment, in UTC, as HH:MM:SS.
pub open spec fn clock(seconds: nat) -> Seq<char> {
    two_digits((seconds / 3600) % 24) + seq![':'] + two_digits((seconds / 60) % 60) + seq![':']
        + two_digits(seconds % 60)
}

/// Writes the time of day of a moment, in seconds since the Unix epoch.
pub fn format_clock(seconds: u128) -> (text: String)
    ensures
        text@ == clock(seconds as nat),
{
    let mut text = String::new();
    push_two_digits(&mut text, ((seconds / 3600) % 24) as u64);
    text.push(':');
    push_two_digits(&mut text, ((seconds / 60) % 60) as u64);
    text.push(':');
    push_two_digits(&mut text, (seconds % 60) as u64);
    assert(text@ =~= clock(seconds as nat));
    text
}

/// Writes a time as HH:MM:SS in UTC; a time before the Unix epoch as the epoch.
pub fn format_timestamp_at(t: std::time::SystemTime) -> (text: String)
    ensures
        text@ == clock(
            match epoch_nanos(t) {
                Some(nanos) => nanos as nat / 1_000_000_000,
                None => 0,
            },
        ),
{
    let nanos: u128 = match nanos_since_epoch(t) {
        Some(nanos) => nanos,
        None => 0,
    };
    format_clock(nanos / 1_000_000_000)
}

/// The clock starts over every day.
pub proof fn clock_repeats_daily(seconds: nat)
    ensures
        clock(seconds + 86_400) == clock(seconds),
{
    let s = seconds as int;
    lemma_hoist_over_denominator(s, 24, 3600);
    lemma_hoist_over_denominator(s, 1440, 60);
    lemma_mod_multiples_vanish(1, s / 3600, 24);
    lemma_mod_multiples_vanish(24, s / 60, 60);
    lemma_mod_multiples_vanish(1440, s, 60);
}

/// The clock is hours, minutes and seconds in two digits each with colons between
/// them, and they make up the seconds of the day.
pub proof fn clock_shows_the_seconds_of_the_day(seconds: nat)
    ensures
        exists|h: nat, m: nat, s: nat|
            h < 24 && m < 60 && s < 60 && 3600 * h + 60 * m + s == seconds % 86_400 && clock(seconds)
                == #[trigger] two_digits(h) + seq![':'] + #[trigger] two_digits(m) + seq![':']
                + #[trigger] two_digits(s),
{
    let h = (seconds / 3600) % 24;
    let m = (seconds / 60) % 60;
    let s = seconds % 60;
    let minutes = seconds / 60;
    let hours = seconds / 3600;
    assert(hours == minutes / 60);
    assert(seconds == 60 * minutes + s);
    assert(minutes == 60 * hours + m);
    assert(hours == 24 * (hours / 24) + h);
    assert(seconds == 86_400 * (hours / 24) + (3600 * h + 60 * m + s));
    lemma_mod_multiples_vanish((hours / 24) as int, (3600 * h + 60 * m + s) as int, 86_400);
    assert(clock(seconds) == two_digits(h) + seq![':'] + two_digits(m) + seq![':'] + two_digits(s));
}

} // verus!
