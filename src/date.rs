//! Calendar dates: month names, validity and seconds since the Unix epoch.

use vstd::prelude::*;

verus! {

/// The hour of the day given to every note's timestamp.
pub const NOTE_HOUR: u32 = 12;

/// The minute of the hour given to every note's timestamp.
pub const NOTE_MINUTE: u32 = 12;

/// The second of the minute given to every note's timestamp.
pub const NOTE_SECOND: u32 = 12;

/// Largest year that a four-digit heading can hold.
pub const MAX_YEAR: u32 = 9999;

/// The month number (1 to 12) of a three-letter English abbreviation,
/// matched case-sensitively.
pub open spec fn month_of(t: Seq<char>) -> Option<u32> {
    if t =~= seq!['J', 'a', 'n'] {
        Some(1)
    } else if t =~= seq!['F', 'e', 'b'] {
        Some(2)
    } else if t =~= seq!['M', 'a', 'r'] {
        Some(3)
    } else if t =~= seq!['A', 'p', 'r'] {
        Some(4)
    } else if t =~= seq!['M', 'a', 'y'] {
        Some(5)
    } else if t =~= seq!['J', 'u', 'n'] {
        Some(6)
    } else if t =~= seq!['J', 'u', 'l'] {
        Some(7)
    } else if t =~= seq!['A', 'u', 'g'] {
        Some(8)
    } else if t =~= seq!['S', 'e', 'p'] {
        Some(9)
    } else if t =~= seq!['O', 'c', 't'] {
        Some(10)
    } else if t =~= seq!['N', 'o', 'v'] {
        Some(11)
    } else if t =~= seq!['D', 'e', 'c'] {
        Some(12)
    } else {
        None
    }
}

/// Leap years of the proleptic Gregorian calendar.
pub open spec fn is_leap_year(y: int) -> bool {
    (y % 4 == 0 && y % 100 != 0) || y % 400 == 0
}

pub open spec fn days_in_month(y: int, m: int) -> int {
    if m == 2 {
        if is_leap_year(y) {
            29
        } else {
            28
        }
    } else if m == 4 || m == 6 || m == 9 || m == 11 {
        30
    } else {
        31
    }
}

/// `d` is a day of month `m` of year `y`.
pub open spec fn is_valid_date(y: int, m: int, d: int) -> bool {
    1 <= m <= 12 && 1 <= d <= days_in_month(y, m)
}

/// Days from 0000-01-01 to the first of January of year `y`, for `y >= 0`.
pub open spec fn days_before_year(y: int) -> int {
    365 * y + (y + 3) / 4 - (y + 99) / 100 + (y + 399) / 400
}

/// Days from the first of January of year `y` to the first of month `m`.
pub open spec fn days_before_month(y: int, m: int) -> int {
    let common: int = if m == 1 {
        0
    } else if m == 2 {
        31
    } else if m == 3 {
        59
    } else if m == 4 {
        90
    } else if m == 5 {
        120
    } else if m == 6 {
        151
    } else if m == 7 {
        181
    } else if m == 8 {
        212
    } else if m == 9 {
        243
    } else if m == 10 {
        273
    } else if m == 11 {
        304
    } else {
        334
    };
    if m > 2 && is_leap_year(y) {
        common + 1
    } else {
        common
    }
}

/// Days from 0000-01-01 to 1970-01-01.
pub open spec fn epoch_day() -> int {
    719528
}

/// Days from 1970-01-01 to the date `y`-`m`-`d`.
pub open spec fn days_since_epoch(y: int, m: int, d: int) -> int {
    days_before_year(y) + days_before_month(y, m) + d - 1 - epoch_day()
}

/// Seconds from 1970-01-01T00:00:00Z to the given UTC date and time.
pub open spec fn epoch_seconds(y: int, m: int, d: int, hh: int, mm: int, ss: int) -> int {
    days_since_epoch(y, m, d) * 86400 + hh * 3600 + mm * 60 + ss
}

/// The timestamp that a note dated `y`-`m`-`d` carries.
pub open spec fn note_timestamp(y: int, m: int, d: int) -> int {
    epoch_seconds(y, m, d, NOTE_HOUR as int, NOTE_MINUTE as int, NOTE_SECOND as int)
}

/// Relies on chrono's `NaiveDate::from_ymd_opt`, `NaiveDate::and_hms_opt`,
/// `NaiveDateTime::and_utc` and `DateTime::timestamp`: a date and time exist
/// exactly when the month is 1 to 12, the day lies in that month (leap years
/// of the proleptic Gregorian calendar) and the time is a valid one without a
/// leap second; the timestamp counts whole days of 86 400 seconds since
/// 1970-01-01 plus the seconds since midnight.
#[verifier::external_body]
fn utc_timestamp(year: i32, month: u32, day: u32, hour: u32, minute: u32, second: u32) -> (r:
    Option<i64>)
    requires
        0 <= year <= MAX_YEAR,
    ensures
        r is Some <==> (is_valid_date(year as int, month as int, day as int) && hour < 24 && minute
            < 60 && second < 60),
        r matches Some(t) ==> t == epoch_seconds(
            year as int,
            month as int,
            day as int,
            hour as int,
            minute as int,
            second as int,
        ),
{
    let date = chrono::NaiveDate::from_ymd_opt(year, month, day)?;
    let time = date.and_hms_opt(hour, minute, second)?;
    Some(time.and_utc().timestamp())
}

/// The month number of a three-letter abbreviation, or `None` for any other
/// token (matching is case-sensitive: `jan` is no month).
pub fn month_number(token: &str) -> (r: Option<u32>)
    ensures
        r == month_of(token@),
{
    if token.unicode_len() != 3 {
        return None;
    }
    let a = token.get_char(0);
    let b = token.get_char(1);
    let c = token.get_char(2);
    let r = if a == 'J' && b == 'a' && c == 'n' {
        Some(1)
    } else if a == 'F' && b == 'e' && c == 'b' {
        Some(2)
    } else if a == 'M' && b == 'a' && c == 'r' {
        Some(3)
    } else if a == 'A' && b == 'p' && c == 'r' {
        Some(4)
    } else if a == 'M' && b == 'a' && c == 'y' {
        Some(5)
    } else if a == 'J' && b == 'u' && c == 'n' {
        Some(6)
    } else if a == 'J' && b == 'u' && c == 'l' {
        Some(7)
    } else if a == 'A' && b == 'u' && c == 'g' {
        Some(8)
    } else if a == 'S' && b == 'e' && c == 'p' {
        Some(9)
    } else if a == 'O' && b == 'c' && c == 't' {
        Some(10)
    } else if a == 'N' && b == 'o' && c == 'v' {
        Some(11)
    } else if a == 'D' && b == 'e' && c == 'c' {
        Some(12)
    } else {
        None
    };
    r
}

/// The timestamp of a note dated `year`-`month`-`day`, at the fixed time of
/// day `NOTE_HOUR:NOTE_MINUTE:NOTE_SECOND` UTC; `None` where no such date
/// exists.
pub fn date_timestamp(year: u32, month: u32, day: u32) -> (r: Option<i64>)
    requires
        year <= MAX_YEAR,
    ensures
        r is Some <==> is_valid_date(year as int, month as int, day as int),
        r matches Some(t) ==> t == note_timestamp(year as int, month as int, day as int),
{
    utc_timestamp(year as i32, month, day, NOTE_HOUR, NOTE_MINUTE, NOTE_SECOND)
}

} // verus!
