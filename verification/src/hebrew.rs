//! The date/time normalizer: parses Hebrew-language date text
//! ("weekday, day month-name year") and time text (an optional Hebrew
//! "at" prefix followed by 24-hour `HH:MM`) into calendar values.
use vstd::prelude::*;

use crate::dates::{make_date, make_time, valid_ymd, Date, Time};
use crate::errors::ParseError;
use crate::text::{
    char_vec_eq, count_char, count_char_exec, digits_val, find_char, find_char_exec,
    is_digit_seq, lemma_count_char_all_diff, lemma_digits_val_two, lemma_find_char_props,
    parse_u32_digits, split_ws, split_ws_exec, starts_with_chars, subvec, to_char_vec,
};

verus! {

/// The Hebrew name of month `m` (1-indexed, January through December).
pub open spec fn month_name(m: int) -> Seq<char> {
    if m == 1 {
        "ינואר"@
    } else if m == 2 {
        "פברואר"@
    } else if m == 3 {
        "מרץ"@
    } else if m == 4 {
        "אפריל"@
    } else if m == 5 {
        "מאי"@
    } else if m == 6 {
        "יוני"@
    } else if m == 7 {
        "יולי"@
    } else if m == 8 {
        "אוגוסט"@
    } else if m == 9 {
        "ספטמבר"@
    } else if m == 10 {
        "אוקטובר"@
    } else if m == 11 {
        "נובמבר"@
    } else {
        "דצמבר"@
    }
}

/// The month number named by a token, if any.
pub open spec fn month_of_token(t: Seq<char>) -> Option<int> {
    if t == month_name(1) {
        Some(1int)
    } else if t == month_name(2) {
        Some(2int)
    } else if t == month_name(3) {
        Some(3int)
    } else if t == month_name(4) {
        Some(4int)
    } else if t == month_name(5) {
        Some(5int)
    } else if t == month_name(6) {
        Some(6int)
    } else if t == month_name(7) {
        Some(7int)
    } else if t == month_name(8) {
        Some(8int)
    } else if t == month_name(9) {
        Some(9int)
    } else if t == month_name(10) {
        Some(10int)
    } else if t == month_name(11) {
        Some(11int)
    } else if t == month_name(12) {
        Some(12int)
    } else {
        None
    }
}

/// The value of a token read as an unsigned decimal number, if it is one.
pub open spec fn token_u32(t: Seq<char>) -> Option<int> {
    if is_digit_seq(t) && digits_val(t) <= u32::MAX {
        Some(digits_val(t))
    } else {
        None
    }
}

/// What `parse_date` returns: the text must hold exactly one comma; the
/// part after it must hold exactly three whitespace-separated tokens,
/// read as day, Hebrew month name, and year, which must compose a valid
/// calendar date.
pub open spec fn spec_parse_date(s: Seq<char>) -> Result<Date, ParseError> {
    if count_char(s, ',') != 1 {
        Err(ParseError::InvalidDateFormat)
    } else {
        let toks = split_ws(s.subrange(find_char(s, ',') + 1, s.len() as int));
        if toks.len() != 3 {
            Err(ParseError::InvalidDateFormat)
        } else {
            match token_u32(toks[0]) {
                None => Err(ParseError::InvalidDay),
                Some(day) => match month_of_token(toks[1]) {
                    None => Err(ParseError::InvalidMonth),
                    Some(m) => match token_u32(toks[2]) {
                        None => Err(ParseError::InvalidYear),
                        Some(y) => if valid_ymd(y, m, day) {
                            Ok(Date { year: y as u16, month: m as u8, day: day as u8 })
                        } else {
                            Err(ParseError::InvalidDate)
                        },
                    },
                },
            }
        }
    }
}

/// The Hebrew "at" phrase that may precede a time.
pub open spec fn time_prefix() -> Seq<char> {
    "בשעה "@
}

/// `s` with the leading "at" phrase removed, if it is there.
pub open spec fn strip_time_prefix(s: Seq<char>) -> Seq<char> {
    if s.len() >= time_prefix().len() && s.subrange(0, time_prefix().len() as int)
        == time_prefix() {
        s.subrange(time_prefix().len() as int, s.len() as int)
    } else {
        s
    }
}

/// What `parse_time` returns: after stripping the optional prefix, the
/// text must be one or two digits of hour, a colon, and one or two
/// digits of minute, with the hour below 24 and the minute below 60.
pub open spec fn spec_parse_time(s: Seq<char>) -> Result<Time, ParseError> {
    let t = strip_time_prefix(s);
    let i = find_char(t, ':');
    if 1 <= i <= 2 && i < t.len() {
        let h = t.subrange(0, i);
        let m = t.subrange(i + 1, t.len() as int);
        if is_digit_seq(h) && 1 <= m.len() <= 2 && is_digit_seq(m) && digits_val(h) < 24
            && digits_val(m) < 60 {
            Ok(Time { hour: digits_val(h) as u8, minute: digits_val(m) as u8, second: 0 })
        } else {
            Err(ParseError::InvalidTimeFormat)
        }
    } else {
        Err(ParseError::InvalidTimeFormat)
    }
}

/// Looks a token up in the fixed table of Hebrew month names.
fn month_lookup(t: &Vec<char>) -> (r: Option<u32>)
    ensures
        month_of_token(t@) matches Some(m) ==> r == Some(m as u32),
        month_of_token(t@) is None ==> r is None,
{
    if char_vec_eq(t, &to_char_vec("ינואר")) {
        Some(1)
    } else if char_vec_eq(t, &to_char_vec("פברואר")) {
        Some(2)
    } else if char_vec_eq(t, &to_char_vec("מרץ")) {
        Some(3)
    } else if char_vec_eq(t, &to_char_vec("אפריל")) {
        Some(4)
    } else if char_vec_eq(t, &to_char_vec("מאי")) {
        Some(5)
    } else if char_vec_eq(t, &to_char_vec("יוני")) {
        Some(6)
    } else if char_vec_eq(t, &to_char_vec("יולי")) {
        Some(7)
    } else if char_vec_eq(t, &to_char_vec("אוגוסט")) {
        Some(8)
    } else if char_vec_eq(t, &to_char_vec("ספטמבר")) {
        Some(9)
    } else if char_vec_eq(t, &to_char_vec("אוקטובר")) {
        Some(10)
    } else if char_vec_eq(t, &to_char_vec("נובמבר")) {
        Some(11)
    } else if char_vec_eq(t, &to_char_vec("דצמבר")) {
        Some(12)
    } else {
        None
    }
}

/// Parses Hebrew date text such as "רביעי, 5 מאי 2027" into a calendar
/// date, per [`spec_parse_date`].
pub fn parse_date(s: &str) -> (r: Result<Date, ParseError>)
    ensures
        r == spec_parse_date(s@),
{
    let v = to_char_vec(s);
    parse_date_chars(&v)
}

/// The character-level core of [`parse_date`].
pub fn parse_date_chars(v: &Vec<char>) -> (r: Result<Date, ParseError>)
    ensures
        r == spec_parse_date(v@),
{
    let n = v.len();
    if count_char_exec(&v, ',') != 1 {
        return Err(ParseError::InvalidDateFormat);
    }
    let idx = find_char_exec(&v, ',');
    proof {
        lemma_find_char_props(v@, ',');
        if idx == v@.len() {
            lemma_count_char_all_diff(v@, ',');
        }
    }
    let rest = subvec(&v, idx + 1, n);
    let toks = split_ws_exec(&rest);
    let ghost tokviews = split_ws(rest@);
    proof {
        assert(toks@.map_values(|t: Vec<char>| t@).len() == toks@.len());
    }
    if toks.len() != 3 {
        return Err(ParseError::InvalidDateFormat);
    }
    proof {
        assert(tokviews[0] == toks@[0]@);
        assert(tokviews[1] == toks@[1]@);
        assert(tokviews[2] == toks@[2]@);
    }
    let day = match parse_u32_digits(&toks[0]) {
        Some(n) => n,
        None => {
            return Err(ParseError::InvalidDay);
        },
    };
    let mon = match month_lookup(&toks[1]) {
        Some(m) => m,
        None => {
            return Err(ParseError::InvalidMonth);
        },
    };
    let year = match parse_u32_digits(&toks[2]) {
        Some(n) => n,
        None => {
            return Err(ParseError::InvalidYear);
        },
    };
    match make_date(year, mon, day) {
        Some(d) => Ok(d),
        None => Err(ParseError::InvalidDate),
    }
}

/// Parses time text such as "בשעה 20:30" into a time of day, per
/// [`spec_parse_time`].
pub fn parse_time(s: &str) -> (r: Result<Time, ParseError>)
    ensures
        r == spec_parse_time(s@),
{
    let v = to_char_vec(s);
    parse_time_chars(&v)
}

/// The character-level core of [`parse_time`].
pub fn parse_time_chars(v: &Vec<char>) -> (r: Result<Time, ParseError>)
    ensures
        r == spec_parse_time(v@),
{
    let p = to_char_vec("בשעה ");
    let t = if starts_with_chars(&v, &p) {
        subvec(&v, p.len(), v.len())
    } else {
        subvec(&v, 0, v.len())
    };
    proof {
        assert(v@.subrange(0, v@.len() as int) =~= v@);
        assert(t@ == strip_time_prefix(v@));
    }
    let idx = find_char_exec(&t, ':');
    proof {
        lemma_find_char_props(t@, ':');
    }
    if idx < 1 || idx > 2 || idx >= t.len() {
        return Err(ParseError::InvalidTimeFormat);
    }
    let h = subvec(&t, 0, idx);
    let m = subvec(&t, idx + 1, t.len());
    if m.len() < 1 || m.len() > 2 {
        return Err(ParseError::InvalidTimeFormat);
    }
    proof {
        if is_digit_seq(h@) {
            lemma_digits_val_two(h@);
        }
        if is_digit_seq(m@) {
            lemma_digits_val_two(m@);
        }
    }
    let hn = match parse_u32_digits(&h) {
        Some(n) => n,
        None => {
            return Err(ParseError::InvalidTimeFormat);
        },
    };
    let mn = match parse_u32_digits(&m) {
        Some(n) => n,
        None => {
            return Err(ParseError::InvalidTimeFormat);
        },
    };
    match make_time(hn, mn) {
        Some(t) => Ok(t),
        None => Err(ParseError::InvalidTimeFormat),
    }
}

} // verus!
