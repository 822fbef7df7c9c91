//! Wall-clock time: reading it, and printing its time of day.
//!
//! A timestamp is a count of seconds since the Unix epoch. Only its time of
//! day (UTC) is ever printed, as `HH:MM:SS`.

use vstd::prelude::*;

verus! {

/// Seconds in a day.
pub const SECONDS_PER_DAY: i64 = 86_400;

/// Seconds since midnight (UTC) at `timestamp`: always in `0..86_400`, also
/// for instants before the epoch.
pub open spec fn spec_second_of_day(timestamp: int) -> int {
    timestamp % 86_400
}

/// The decimal digit `d` as a character, for `0 <= d <= 9`.
pub open spec fn digit_char(d: int) -> char {
    seq!['0', '1', '2', '3', '4', '5', '6', '7', '8', '9'][d]
}

/// `n` as two decimal digits, zero-padded, for `0 <= n <= 99`.
pub open spec fn two_digits(n: int) -> Seq<char> {
    seq![digit_char(n / 10), digit_char(n % 10)]
}

/// `HH:MM:SS` for a number of seconds since midnight below 86 400.
pub open spec fn clock_text(second_of_day: int) -> Seq<char> {
    two_digits(second_of_day / 3600) + seq![':'] + two_digits((second_of_day / 60) % 60)
        + seq![':'] + two_digits(second_of_day % 60)
}

/// Seconds since midnight (UTC) at `timestamp`.
pub fn second_of_day(timestamp: i64) -> (second: u32)
    ensures
        second as int == spec_second_of_day(timestamp as int),
        second < 86_400,
{
    let within: i64 = timestamp % SECONDS_PER_DAY;
    let second: i64 = if within < 0 {
        within + SECONDS_PER_DAY
    } else {
        within
    };
    second as u32
}

/// The current time in seconds since the Unix epoch; negative where the
/// system clock stands before it.
///
/// Trusted: reads the clock with `std::time::SystemTime::now` and converts
/// the reading with chrono's `From<SystemTime> for DateTime<Utc>` and
/// `DateTime::timestamp`. The result depends on the system clock, so nothing
/// is claimed of it. The conversion takes a reading before the epoch as a
/// negative count; it fails only on a reading outside the years that chrono
/// can hold, some 262 000 either side of the epoch.
#[verifier::external_body]
pub(crate) fn unix_now() -> (timestamp: i64) {
    chrono::DateTime::<chrono::Utc>::from(std::time::SystemTime::now()).timestamp()
}

/// `HH:MM:SS` for a number of seconds since midnight.
///
/// Trusted: builds a chrono `NaiveTime` with
/// `from_num_seconds_from_midnight_opt` (which is `Some` for every count
/// below 86 400 with zero nanoseconds) and prints it with
/// `NaiveTime::format("%H:%M:%S")`. chrono prints each of the three fields
/// as two zero-padded decimal digits, the hour being the count divided by
/// 3600, the minute the count of whole minutes modulo 60, and the second the
/// count modulo 60.
#[verifier::external_body]
pub(crate) fn format_clock(second_of_day: u32) -> (text: String)
    requires
        second_of_day < 86_400,
    ensures
        text@ == clock_text(second_of_day as int),
{
    chrono::NaiveTime::from_num_seconds_from_midnight_opt(second_of_day, 0)
        .unwrap()
        .format("%H:%M:%S")
        .to_string()
}

/// The time of day (UTC) at `timestamp`, as `HH:MM:SS`.
pub fn time_of_day_text(timestamp: i64) -> (text: String)
    ensures
        text@ == clock_text(spec_second_of_day(timestamp as int)),
{
    format_clock(second_of_day(timestamp))
}

} // verus!
