//! Calendar dates as plain values: validity, the `YYYY-MM-DD` text form, and
//! the date part of a date slug (everything before the slug's first comma).

use vstd::prelude::*;
use crate::text::{find_from, is_digit, digit_val, lemma_find_from};

verus! {

/// A Gregorian calendar date, held as plain numbers.
#[derive(Clone, Copy, Debug, PartialEq, Eq, Structural)]
pub struct LogDate {
    pub year: u16,
    pub month: u8,
    pub day: u8,
}

pub open spec fn is_leap_year(y: int) -> bool {
    (y % 4 == 0 && y % 100 != 0) || y % 400 == 0
}

pub open spec fn days_in_month(y: int, m: int) -> int {
    if m == 2 {
        if is_leap_year(y) {
            29
        } else {
            28
        }
    } else if m == 4 || m == 6 || m == 9 || m == 11 {
        30
    } else {
        31
    }
}

/// A real calendar date with a four-digit year.
pub open spec fn valid_date(d: LogDate) -> bool {
    &&& d.year <= 9999
    &&& 1 <= d.month <= 12
    &&& 1 <= d.day <= days_in_month(d.year as int, d.month as int)
}

/// `s` has the shape `YYYY-MM-DD`, all digits in place.
pub open spec fn is_date_text(s: Seq<char>) -> bool {
    &&& s.len() == 10
    &&& is_digit(s[0])
    &&& is_digit(s[1])
    &&& is_digit(s[2])
    &&& is_digit(s[3])
    &&& s[4] == '-'
    &&& is_digit(s[5])
    &&& is_digit(s[6])
    &&& s[7] == '-'
    &&& is_digit(s[8])
    &&& is_digit(s[9])
}

/// The date written in a `YYYY-MM-DD` text.
pub open spec fn date_of_text(s: Seq<char>) -> LogDate {
    LogDate {
        year: (digit_val(s[0]) * 1000 + digit_val(s[1]) * 100 + digit_val(s[2]) * 10 + digit_val(
            s[3],
        )) as u16,
        month: (digit_val(s[5]) * 10 + digit_val(s[6])) as u8,
        day: (digit_val(s[8]) * 10 + digit_val(s[9])) as u8,
    }
}

/// The date denoted by a `YYYY-MM-DD` text, if it is shaped so and names a
/// real calendar day.
pub open spec fn parsed_date(s: Seq<char>) -> Option<LogDate> {
    if is_date_text(s) && valid_date(date_of_text(s)) {
        Some(date_of_text(s))
    } else {
        None
    }
}

/// The date part of a date slug: everything before the first comma; nothing
/// if the slug has no comma at all.
pub open spec fn slug_date_text(s: Seq<char>) -> Option<Seq<char>> {
    let e = find_from(s, 0, ',');
    if e >= s.len() {
        None
    } else {
        Some(s.subrange(0, e))
    }
}

/// The date a slug names: its part before the first comma must be a valid
/// `YYYY-MM-DD` text; a slug without a comma names nothing.
pub open spec fn parsed_slug_date(s: Seq<char>) -> Option<LogDate> {
    match slug_date_text(s) {
        None => None,
        Some(t) => parsed_date(t),
    }
}

/// Days in a month, as `days_in_month` names it.
pub fn month_length(y: u16, m: u8) -> (r: u8)
    ensures
        r == days_in_month(y as int, m as int),
{
    if m == 2 {
        if (y % 4 == 0 && y % 100 != 0) || y % 400 == 0 {
            29
        } else {
            28
        }
    } else if m == 4 || m == 6 || m == 9 || m == 11 {
        30
    } else {
        31
    }
}

/// The digit value at position `i` of `s`, if a digit stands there.
fn digit_code(s: &str, i: usize) -> (r: Option<u32>)
    requires
        i < s@.len(),
    ensures
        match r {
            Some(v) => is_digit(s@[i as int]) && v == digit_val(s@[i as int]),
            None => !is_digit(s@[i as int]),
        },
{
    let code = s.get_char(i) as u32;
    if 48 <= code && code <= 57 {
        Some(code - 48)
    } else {
        None
    }
}

/// Reads a `YYYY-MM-DD` text as a date, exactly as `parsed_date` describes.
pub fn parse_date(s: &str) -> (r: Option<LogDate>)
    ensures
        r == parsed_date(s@),
{
    let n = s.unicode_len();
    if n != 10 {
        return None;
    }
    if s.get_char(4) != '-' || s.get_char(7) != '-' {
        return None;
    }
    let d0 = match digit_code(s, 0) {
        Some(v) => v,
        None => return None,
    };
    let d1 = match digit_code(s, 1) {
        Some(v) => v,
        None => return None,
    };
    let d2 = match digit_code(s, 2) {
        Some(v) => v,
        None => return None,
    };
    let d3 = match digit_code(s, 3) {
        Some(v) => v,
        None => return None,
    };
    let d4 = match digit_code(s, 5) {
        Some(v) => v,
        None => return None,
    };
    let d5 = match digit_code(s, 6) {
        Some(v) => v,
        None => return None,
    };
    let d6 = match digit_code(s, 8) {
        Some(v) => v,
        None => return None,
    };
    let d7 = match digit_code(s, 9) {
        Some(v) => v,
        None => return None,
    };
    let year = d0 * 1000 + d1 * 100 + d2 * 10 + d3;
    let month = d4 * 10 + d5;
    let day = d6 * 10 + d7;
    let d = LogDate { year: year as u16, month: month as u8, day: day as u8 };
    assert(d == date_of_text(s@));
    if month < 1 || month > 12 {
        return None;
    }
    if day < 1 || day > month_length(d.year, d.month) as u32 {
        return None;
    }
    Some(d)
}

} // verus!

verus! {

use crate::errors::ArchiveError;
use crate::errors::is_parse_error;

/// Reads the date out of a date slug: the text before the slug's first comma
/// must be a valid `YYYY-MM-DD`; a slug without a comma, or with a malformed
/// or impossible date, is a `ParseError` carrying the slug itself.
pub fn parse_date_slug(slug: &str) -> (r: Result<LogDate, ArchiveError>)
    ensures
        match parsed_slug_date(slug@) {
            Some(d) => r is Ok && r->Ok_0 == d,
            None => r is Err && is_parse_error(r->Err_0, slug@),
        },
{
    let n = slug.unicode_len();
    let e = crate::text::find_char(slug, 0, ',');
    if e == n {
        return Err(ArchiveError::ParseError(slug.to_owned()));
    }
    let t = slug.substring_char(0, e);
    proof {
        lemma_find_from(slug@, 0, ',');
        assert(t@ =~= slug_date_text(slug@)->0);
    }
    match parse_date(t) {
        Some(d) => Ok(d),
        None => Err(ArchiveError::ParseError(slug.to_owned())),
    }
}

} // verus!
