use vstd::prelude::*;
use crate::types::{valid_time, TIME_MAX, TIME_MIN};

verus! {

pub const SECONDS_PER_DAY: i64 = 86_400;

/// Last second of the day on which a position may be entered: 11:30:00.
pub const ENTRY_WINDOW_END: i64 = 41_400;

/// Second of the day from which an open position is closed: 14:00:00.
pub const TIME_EXIT_SECOND: i64 = 50_400;

/// Seconds from 0000-01-01 00:00:00 to 1970-01-01 00:00:00, a whole number
/// of days.
pub const EPOCH_SHIFT: i64 = 62_167_219_200;

/// The calendar day of an instant, as a count of days from 1970-01-01.
pub open spec fn day_of(t: i64) -> int {
    t as int / 86_400
}

/// Seconds since midnight, from 0 to 86399.
pub open spec fn second_of_day(t: i64) -> int {
    t as int % 86_400
}

/// The entry window runs from midnight to 11:30:00, both included: an
/// instant is in it where its time of day is before 11:30:00, or is 11:30:00
/// with no fraction of a second behind it.
pub open spec fn in_entry_window(t: i64, nanos: u32) -> bool {
    second_of_day(t) < 41_400 || (second_of_day(t) == 41_400 && nanos == 0)
}

/// Whether instant `t` is at or after 14:00:00 of the day of `entry`.
pub open spec fn time_exit_due(entry: i64, t: i64) -> bool {
    t >= day_of(entry) * 86_400 + 50_400
}

/// Nanoseconds from the first instant to the second.
pub open spec fn nanos_between(from: i64, from_nanos: u32, to: i64, to_nanos: u32) -> int {
    (to - from) * 1_000_000_000 + (to_nanos - from_nanos)
}

/// Whole minutes from the first instant to the second, rounded toward zero.
pub open spec fn minutes_between(from: i64, from_nanos: u32, to: i64, to_nanos: u32) -> int {
    let d = nanos_between(from, from_nanos, to, to_nanos);
    if d >= 0 {
        d / 60_000_000_000
    } else {
        -((-d) / 60_000_000_000)
    }
}

/// Day of a valid instant, counted from 0000-01-01.
pub fn day_number(t: i64) -> (r: i64)
    requires
        valid_time(t),
    ensures
        r == day_of(t) + 719_528,
        0 <= r < 3_652_425,
{
    (t + EPOCH_SHIFT) / SECONDS_PER_DAY
}

/// Seconds since midnight of a valid instant.
pub fn seconds_since_midnight(t: i64) -> (r: i64)
    requires
        valid_time(t),
    ensures
        r == second_of_day(t),
        0 <= r < 86_400,
{
    (t + EPOCH_SHIFT) % SECONDS_PER_DAY
}

/// Whether a position may be entered at the instant: its time of day is
/// 11:30:00 sharp or earlier. Anything later, by a second or by a fraction of
/// one, is outside.
pub fn is_entry_window(t: i64, nanos: u32) -> (r: bool)
    requires
        valid_time(t),
    ensures
        r == in_entry_window(t, nanos),
        r == (t as int % 86_400 < 41_400 || (t as int % 86_400 == 41_400 && nanos == 0)),
{
    let second: i64 = seconds_since_midnight(t);
    second < ENTRY_WINDOW_END || (second == ENTRY_WINDOW_END && nanos == 0)
}

/// Whether `t` has reached the cut-off time of the day of `entry`.
pub fn is_time_exit(entry: i64, t: i64) -> (r: bool)
    requires
        valid_time(entry),
        valid_time(t),
    ensures
        r == time_exit_due(entry, t),
{
    let midnight: i64 = entry - seconds_since_midnight(entry);
    t >= midnight + TIME_EXIT_SECOND
}

/// Whole minutes from the first instant to the second, rounded toward zero.
pub fn whole_minutes(from: i64, from_nanos: u32, to: i64, to_nanos: u32) -> (r: i64)
    requires
        valid_time(from),
        valid_time(to),
        from_nanos < 1_000_000_000,
        to_nanos < 1_000_000_000,
    ensures
        r == minutes_between(from, from_nanos, to, to_nanos),
{
    let d: i128 = (to as i128 - from as i128) * 1_000_000_000 + (to_nanos as i128
        - from_nanos as i128);
    if d >= 0 {
        (d / 60_000_000_000) as i64
    } else {
        -(((-d) / 60_000_000_000) as i64)
    }
}

/// The text of an instant to the minute, as chrono writes it with the
/// pattern `%Y-%m-%d %H:%M`: year, month and day, a space, hour and minute.
pub uninterp spec fn minute_text(t: i64) -> Seq<char>;

/// Formats an instant with chrono: `DateTime::from_timestamp` makes the date
/// and time from the seconds, and `format` with the pattern `%Y-%m-%d %H:%M`
/// writes them. The contract names the text that chrono gives; the instants
/// admitted are those of the years 0000 to 9999, all of which chrono holds.
#[verifier::external_body]
pub(crate) fn fmt_time(t: i64) -> (r: String)
    requires
        valid_time(t),
    ensures
        r@ == minute_text(t),
{
    match chrono::DateTime::from_timestamp(t, 0) {
        Some(at) => at.naive_utc().format("%Y-%m-%d %H:%M").to_string(),
        None => String::new(),
    }
}

/// What chrono reads from `text` under the strftime pattern `pattern`: the
/// whole seconds from 1970-01-01 00:00:00 and the nanoseconds behind them, as
/// chrono counts both; none where chrono rejects the text.
pub uninterp spec fn parsed_instant(text: Seq<char>, pattern: Seq<char>) -> Option<(i64, u32)>;

/// Parses a date and time with chrono's `NaiveDateTime::parse_from_str` and
/// hands back the instant it read as chrono's `timestamp` and
/// `timestamp_subsec_nanos` give it. The contract names what chrono gives for
/// this text and this pattern.
#[verifier::external_body]
pub(crate) fn parse_instant(text: &[char], pattern: &str) -> (r: Option<(i64, u32)>)
    ensures
        r == parsed_instant(text@, pattern@),
{
    let s: String = text.iter().collect();
    match chrono::NaiveDateTime::parse_from_str(&s, pattern) {
        Ok(at) => Some((at.and_utc().timestamp(), at.and_utc().timestamp_subsec_nanos())),
        Err(_) => None,
    }
}

} // verus!
