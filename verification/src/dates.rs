//! Calendar values: dates of the proleptic Gregorian calendar with a
//! four-digit year, and 24-hour times of day, with their validity rules,
//! ordering, and fixed-width text rendering (`YYYY-MM-DD`, `HH:MM:SS`).
use vstd::prelude::*;

verus! {

/// A calendar date. A well-formed value satisfies [`valid_date`].
#[derive(Clone, Copy, PartialEq, Eq, Structural, Debug)]
pub struct Date {
    pub year: u16,
    pub month: u8,
    pub day: u8,
}

/// A time of day. A well-formed value satisfies [`valid_time`].
#[derive(Clone, Copy, PartialEq, Eq, Structural, Debug)]
pub struct Time {
    pub hour: u8,
    pub minute: u8,
    pub second: u8,
}

pub open spec fn is_leap_year(y: int) -> bool {
    (y % 4 == 0 && y % 100 != 0) || y % 400 == 0
}

pub open spec fn days_in_month(y: int, m: int) -> int {
    if m == 2 {
        if is_leap_year(y) {
            29
        } else {
            28
        }
    } else if m == 4 || m == 6 || m == 9 || m == 11 {
        30
    } else {
        31
    }
}

/// A valid (year, month, day) combination; the year is capped at four
/// digits so that every valid date renders as `YYYY-MM-DD`.
pub open spec fn valid_ymd(y: int, m: int, d: int) -> bool {
    0 <= y <= 9999 && 1 <= m <= 12 && 1 <= d <= days_in_month(y, m)
}

pub open spec fn valid_date(d: Date) -> bool {
    valid_ymd(d.year as int, d.month as int, d.day as int)
}

pub open spec fn valid_time(t: Time) -> bool {
    t.hour < 24 && t.minute < 60 && t.second < 60
}

/// The sentinel date used before extraction fills in a real one.
pub open spec fn sentinel_date() -> Date {
    Date { year: 1970, month: 1, day: 1 }
}

/// The sentinel time used before extraction fills in a real one.
pub open spec fn sentinel_time() -> Time {
    Time { hour: 0, minute: 0, second: 0 }
}

/// Composes a calendar date, or reports that the combination is invalid.
pub fn make_date(y: u32, m: u32, d: u32) -> (r: Option<Date>)
    ensures
        valid_ymd(y as int, m as int, d as int) ==> (r matches Some(dt) && dt.year == y
            && dt.month == m && dt.day == d),
        !valid_ymd(y as int, m as int, d as int) ==> r is None,
{
    if y > 9999 || m < 1 || m > 12 || d < 1 {
        return None;
    }
    let leap = (y % 4 == 0 && y % 100 != 0) || y % 400 == 0;
    let max_day: u32 = if m == 2 {
        if leap {
            29
        } else {
            28
        }
    } else if m == 4 || m == 6 || m == 9 || m == 11 {
        30
    } else {
        31
    };
    if d > max_day {
        return None;
    }
    Some(Date { year: y as u16, month: m as u8, day: d as u8 })
}

/// Composes a time of day from hour and minute, or reports that one of
/// them is out of range; the second is zero.
pub fn make_time(h: u32, m: u32) -> (r: Option<Time>)
    ensures
        h < 24 && m < 60 ==> (r matches Some(t) && t.hour == h && t.minute == m && t.second
            == 0),
        !(h < 24 && m < 60) ==> r is None,
{
    if h < 24 && m < 60 {
        Some(Time { hour: h as u8, minute: m as u8, second: 0 })
    } else {
        None
    }
}

/// Chronological order on dates: lexicographic on (year, month, day).
pub open spec fn date_le(a: Date, b: Date) -> bool {
    a.year < b.year || (a.year == b.year && (a.month < b.month || (a.month == b.month && a.day
        <= b.day)))
}

/// Order on times of day: lexicographic on (hour, minute, second).
pub open spec fn time_le(a: Time, b: Time) -> bool {
    a.hour < b.hour || (a.hour == b.hour && (a.minute < b.minute || (a.minute == b.minute
        && a.second <= b.second)))
}

/// The decimal digit character for a value below ten.
pub open spec fn digit_char(d: int) -> char {
    ((48 + d) as u8) as char
}

/// Two-digit zero-padded rendering of a value below one hundred.
pub open spec fn num2(n: int) -> Seq<char> {
    seq![digit_char(n / 10), digit_char(n % 10)]
}

/// Four-digit zero-padded rendering of a value below ten thousand.
pub open spec fn num4(n: int) -> Seq<char> {
    seq![digit_char(n / 1000), digit_char((n / 100) % 10), digit_char((n / 10) % 10), digit_char(
        n % 10,
    )]
}

/// The `YYYY-MM-DD` rendering of a date.
pub open spec fn date_chars(d: Date) -> Seq<char> {
    num4(d.year as int) + seq!['-'] + num2(d.month as int) + seq!['-'] + num2(d.day as int)
}

/// The `HH:MM:SS` rendering of a time.
pub open spec fn time_chars(t: Time) -> Seq<char> {
    num2(t.hour as int) + seq![':'] + num2(t.minute as int) + seq![':'] + num2(t.second as int)
}

/// Appends the two-digit rendering of `n` to `out`.
pub fn push_num2(out: &mut Vec<char>, n: u32)
    requires
        n < 100,
    ensures
        final(out)@ == old(out)@ + num2(n as int),
{
    let d0 = (48 + n / 10) as u8 as char;
    let d1 = (48 + n % 10) as u8 as char;
    out.push(d0);
    out.push(d1);
    proof {
        assert(final(out)@ =~= old(out)@ + num2(n as int));
    }
}

/// Appends the four-digit rendering of `n` to `out`.
pub fn push_num4(out: &mut Vec<char>, n: u32)
    requires
        n < 10000,
    ensures
        final(out)@ == old(out)@ + num4(n as int),
{
    let d0 = (48 + n / 1000) as u8 as char;
    let d1 = (48 + (n / 100) % 10) as u8 as char;
    let d2 = (48 + (n / 10) % 10) as u8 as char;
    let d3 = (48 + n % 10) as u8 as char;
    out.push(d0);
    out.push(d1);
    out.push(d2);
    out.push(d3);
    proof {
        assert(final(out)@ =~= old(out)@ + num4(n as int));
    }
}

/// Appends the `YYYY-MM-DD` rendering of a date to `out`.
pub fn push_date_chars(out: &mut Vec<char>, d: &Date)
    requires
        valid_date(*d),
    ensures
        final(out)@ == old(out)@ + date_chars(*d),
{
    push_num4(out, d.year as u32);
    out.push('-');
    push_num2(out, d.month as u32);
    out.push('-');
    push_num2(out, d.day as u32);
    proof {
        assert(final(out)@ =~= old(out)@ + date_chars(*d));
    }
}

/// Appends the `HH:MM:SS` rendering of a time to `out`.
pub fn push_time_chars(out: &mut Vec<char>, t: &Time)
    requires
        valid_time(*t),
    ensures
        final(out)@ == old(out)@ + time_chars(*t),
{
    push_num2(out, t.hour as u32);
    out.push(':');
    push_num2(out, t.minute as u32);
    out.push(':');
    push_num2(out, t.second as u32);
    proof {
        assert(final(out)@ =~= old(out)@ + time_chars(*t));
    }
}

} // verus!
