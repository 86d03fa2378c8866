//! The preferred HTTP date layout: `Wkd, DD Mon YYYY HH:MM:SS GMT`, with a
//! three-letter weekday, a two-digit day, a three-letter month, a four-digit
//! year, a zero-padded time and the literal zone `GMT`.

use vstd::prelude::*;

use crate::ParseError;
use crate::date::{
    DateVal, HttpDate, check_day2, dec_val2, is_day2, is_time8, is_weekday_abbrev, month_days,
    month_num, month_of, scan_time, valid_date, weekday_abbrev,
};
use crate::text::{
    copy_range, dec_val, digit_val_char, is_digit, is_digit_char, lemma_dec_val_4,
    str_to_chars,
};

verus! {

/// Character layout of this grammar: the string is exactly 29 characters,
/// with every field in its fixed place.
pub open spec fn rfc1123_shape(s: Seq<char>) -> bool {
    &&& s.len() == 29
    &&& is_weekday_abbrev(s.subrange(0, 3))
    &&& s[3] == ','
    &&& s[4] == ' '
    &&& is_day2(s[5], s[6])
    &&& s[7] == ' '
    &&& month_of(s.subrange(8, 11)) >= 1
    &&& s[11] == ' '
    &&& is_digit(s[12]) && is_digit(s[13]) && is_digit(s[14]) && is_digit(s[15])
    &&& s[16] == ' '
    &&& is_time8(s.subrange(17, 25))
    &&& s[25] == ' '
    &&& s[26] == 'G'
    &&& s[27] == 'M'
    &&& s[28] == 'T'
}

/// The six date fields read off a string of this shape.
pub open spec fn rfc1123_fields(s: Seq<char>) -> DateVal {
    DateVal {
        year: dec_val(s.subrange(12, 16)),
        month: month_of(s.subrange(8, 11)),
        day: dec_val2(s[5], s[6]),
        hour: dec_val2(s[17], s[18]),
        minute: dec_val2(s[20], s[21]),
        second: dec_val2(s[23], s[24]),
    }
}

/// The date denoted by a string of this grammar: present exactly when the
/// string has the layout and its fields name a real calendar date and time.
pub open spec fn rfc1123_date_spec(s: Seq<char>) -> Option<DateVal> {
    if rfc1123_shape(s) && valid_date(rfc1123_fields(s)) {
        Some(rfc1123_fields(s))
    } else {
        None
    }
}

/// Scans `v` as a date of this grammar.
pub(crate) fn rfc1123_chars(v: &[char]) -> (r: Option<HttpDate>)
    ensures
        r is Some <==> rfc1123_date_spec(v@) is Some,
        r matches Some(d) ==> rfc1123_date_spec(v@) == Some(d@),
{
    if v.len() != 29 {
        return None;
    }
    let wd = copy_range(v, 0, 3);
    if !weekday_abbrev(wd.as_slice()) {
        return None;
    }
    if !(v[3] == ',' && v[4] == ' ') {
        return None;
    }
    if !check_day2(v[5], v[6]) {
        return None;
    }
    let day = digit_val_char(v[5]) * 10 + digit_val_char(v[6]);
    if v[7] != ' ' {
        return None;
    }
    let mon_chars = copy_range(v, 8, 11);
    let month = month_num(mon_chars.as_slice());
    if month == 0 {
        return None;
    }
    if v[11] != ' ' {
        return None;
    }
    if !(is_digit_char(v[12]) && is_digit_char(v[13]) && is_digit_char(v[14]) && is_digit_char(
        v[15],
    )) {
        return None;
    }
    let year = ((digit_val_char(v[12]) as u16) * 10 + (digit_val_char(v[13]) as u16)) * 10 + (
    digit_val_char(v[14]) as u16);
    let year = year * 10 + (digit_val_char(v[15]) as u16);
    proof {
        lemma_dec_val_4(v@.subrange(12, 16));
        assert(v@.subrange(12, 16)[0] == v@[12]);
        assert(v@.subrange(12, 16)[1] == v@[13]);
        assert(v@.subrange(12, 16)[2] == v@[14]);
        assert(v@.subrange(12, 16)[3] == v@[15]);
    }
    if v[16] != ' ' {
        return None;
    }
    let time = scan_time(v, 17);
    proof {
        assert(v@.subrange(17, 25) =~= v@.subrange(17int, 17int + 8));
    }
    let (hour, minute, second) = match time {
        None => {
            return None;
        },
        Some(t) => t,
    };
    proof {
        assert(v@.subrange(17, 25)[0] == v@[17]);
        assert(v@.subrange(17, 25)[1] == v@[18]);
        assert(v@.subrange(17, 25)[3] == v@[20]);
        assert(v@.subrange(17, 25)[4] == v@[21]);
        assert(v@.subrange(17, 25)[6] == v@[23]);
        assert(v@.subrange(17, 25)[7] == v@[24]);
    }
    if !(v[25] == ' ' && v[26] == 'G' && v[27] == 'M' && v[28] == 'T') {
        return None;
    }
    if day < 1 || day > month_days(year, month) {
        return None;
    }
    Some(HttpDate::from_parts(year, month, day, hour, minute, second))
}

/// Parses a date of this grammar, for example `Sun, 06 Nov 1994 08:49:37
/// GMT`. A string that does not have the layout, or whose fields do not name
/// a real calendar date and time, is rejected.
pub fn parse_rfc_1123_date(date: &str) -> (r: Result<HttpDate, ParseError>)
    ensures
        r matches Ok(d) ==> rfc1123_date_spec(date@) == Some(d@),
        r is Err <==> rfc1123_date_spec(date@) is None,
        r matches Err(e) ==> e@ == "Invalid date"@,
{
    let v = str_to_chars(date);
    match rfc1123_chars(v.as_slice()) {
        Some(d) => Ok(d),
        None => Err(ParseError::from_msg("Invalid date")),
    }
}

} // verus!
