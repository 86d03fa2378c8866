//! The legacy HTTP date layout with an extension: `Weekday, DD-Mon-YY
//! HH:MM:SS GMT`, where the weekday may be written in full or abbreviated and
//! the year may have two or four digits. A two-digit year is moved into
//! 2000..2069 or 1970..1999 by the classic pivot at 70.

use vstd::prelude::*;

use crate::ParseError;
use crate::date::{
    DateVal, HttpDate, check_day2, dec_val2, is_day2, is_time8, is_weekday_abbrev, is_weekday_full,
    month_days, month_num, month_of, scan_time, valid_date, weekday_abbrev, weekday_full,
};
use crate::text::{
    all_digits, copy_range, dec_val, digit_val_char, find_ch, find_char, is_digit,
    is_digit_char, lemma_dec_val_2, lemma_dec_val_4, lemma_find_ch, str_to_chars,
};

verus! {

/// The two-digit-year pivot: values below 70 land in the 2000s, values below
/// 100 in the 1900s, and anything else is left as written.
pub open spec fn corrected_year(y: int) -> int {
    if y < 70 {
        y + 2000
    } else if y < 100 {
        y + 1900
    } else {
        y
    }
}

/// Character layout of everything after the comma: ` DD-Mon-YY HH:MM:SS GMT`
/// with a two- or four-digit year.
pub open spec fn rfc850_rest_shape(s: Seq<char>) -> bool {
    let yd = s.len() - 21;
    &&& (s.len() == 23 || s.len() == 25)
    &&& s[0] == ' '
    &&& is_day2(s[1], s[2])
    &&& s[3] == '-'
    &&& month_of(s.subrange(4, 7)) >= 1
    &&& s[7] == '-'
    &&& all_digits(s.subrange(8, 8 + yd))
    &&& s[8 + yd] == ' '
    &&& is_time8(s.subrange(9 + yd, 17 + yd))
    &&& s[17 + yd] == ' '
    &&& s[18 + yd] == 'G'
    &&& s[19 + yd] == 'M'
    &&& s[20 + yd] == 'T'
}

/// The six date fields read off the part after the comma, with the year
/// correction applied.
pub open spec fn rfc850_fields_rest(s: Seq<char>) -> DateVal {
    let yd = s.len() - 21;
    DateVal {
        year: corrected_year(dec_val(s.subrange(8, 8 + yd))),
        month: month_of(s.subrange(4, 7)),
        day: dec_val2(s[1], s[2]),
        hour: dec_val2(s[9 + yd], s[10 + yd]),
        minute: dec_val2(s[12 + yd], s[13 + yd]),
        second: dec_val2(s[15 + yd], s[16 + yd]),
    }
}

/// The date denoted by a string of this grammar: the part before the first
/// comma must be a weekday name, written in full or abbreviated, and the rest
/// must have the fixed layout and name a real calendar date and time.
pub open spec fn rfc850_date_spec(s: Seq<char>) -> Option<DateVal> {
    match find_ch(s, ',') {
        None => None,
        Some(i) => {
            let name = s.subrange(0, i);
            let rest = s.subrange(i + 1, s.len() as int);
            if (is_weekday_full(name) || is_weekday_abbrev(name)) && rfc850_rest_shape(rest)
                && valid_date(rfc850_fields_rest(rest)) {
                Some(rfc850_fields_rest(rest))
            } else {
                None
            }
        },
    }
}

/// Scans `v` as a date of this grammar.
pub(crate) fn rfc850_chars(v: &[char]) -> (r: Option<HttpDate>)
    ensures
        r is Some <==> rfc850_date_spec(v@) is Some,
        r matches Some(d) ==> rfc850_date_spec(v@) == Some(d@),
{
    let n = v.len();
    let comma = match find_char(v, ',') {
        None => {
            return None;
        },
        Some(i) => i,
    };
    proof {
        lemma_find_ch(v@, ',');
    }
    let name = copy_range(v, 0, comma);
    if !(weekday_full(name.as_slice()) || weekday_abbrev(name.as_slice())) {
        return None;
    }
    let base = comma + 1;
    let ghost rest = v@.subrange(base as int, v@.len() as int);
    proof {
        assert forall|k: int| 0 <= k < rest.len() implies rest[k] == v@[base + k] by {}
    }
    let rlen = v.len() - base;
    if !(rlen == 23 || rlen == 25) {
        return None;
    }
    let yd = rlen - 21;
    if v[base] != ' ' {
        return None;
    }
    if !check_day2(v[base + 1], v[base + 2]) {
        return None;
    }
    let day = digit_val_char(v[base + 1]) * 10 + digit_val_char(v[base + 2]);
    if v[base + 3] != '-' {
        return None;
    }
    let mon_chars = copy_range(v, base + 4, base + 7);
    proof {
        assert(mon_chars@ =~= rest.subrange(4, 7));
    }
    let month = month_num(mon_chars.as_slice());
    if month == 0 {
        return None;
    }
    if v[base + 7] != '-' {
        return None;
    }
    let ghost ydigits = rest.subrange(8, 8 + (yd as int));
    proof {
        assert forall|k: int| 0 <= k < yd implies ydigits[k] == v@[base + 8 + k] by {}
    }
    let raw_year: u16 = if yd == 2 {
        if !(is_digit_char(v[base + 8]) && is_digit_char(v[base + 9])) {
            proof {
                if all_digits(ydigits) {
                    assert(is_digit(ydigits[0]));
                    assert(is_digit(ydigits[1]));
                }
            }
            return None;
        }
        proof {
            lemma_dec_val_2(ydigits);
        }
        (digit_val_char(v[base + 8]) as u16) * 10 + (digit_val_char(v[base + 9]) as u16)
    } else {
        if !(is_digit_char(v[base + 8]) && is_digit_char(v[base + 9]) && is_digit_char(v[base + 10])
            && is_digit_char(v[base + 11])) {
            proof {
                if all_digits(ydigits) {
                    assert(is_digit(ydigits[0]));
                    assert(is_digit(ydigits[1]));
                    assert(is_digit(ydigits[2]));
                    assert(is_digit(ydigits[3]));
                }
            }
            return None;
        }
        proof {
            lemma_dec_val_4(ydigits);
        }
        ((digit_val_char(v[base + 8]) as u16) * 10 + (digit_val_char(v[base + 9]) as u16)) * 100 + (
        digit_val_char(v[base + 10]) as u16) * 10 + (digit_val_char(v[base + 11]) as u16)
    };
    let year: u16 = if raw_year < 70 {
        raw_year + 2000
    } else if raw_year < 100 {
        raw_year + 1900
    } else {
        raw_year
    };
    if v[base + 8 + yd] != ' ' {
        return None;
    }
    let time = scan_time(v, base + 9 + yd);
    proof {
        assert(rest.subrange(9 + yd as int, 17 + yd as int) =~= v@.subrange(
            (base + 9 + yd) as int,
            (base + 9 + yd) as int + 8,
        ));
    }
    let (hour, minute, second) = match time {
        None => {
            return None;
        },
        Some(t) => t,
    };
    proof {
        let rt = rest.subrange(9 + yd as int, 17 + yd as int);
        assert(rt[0] == rest[9 + yd as int]);
        assert(rt[1] == rest[10 + yd as int]);
        assert(rt[3] == rest[12 + yd as int]);
        assert(rt[4] == rest[13 + yd as int]);
        assert(rt[6] == rest[15 + yd as int]);
        assert(rt[7] == rest[16 + yd as int]);
    }
    if !(v[base + 17 + yd] == ' ' && v[base + 18 + yd] == 'G' && v[base + 19 + yd] == 'M' && v[base
        + 20 + yd] == 'T') {
        return None;
    }
    if day < 1 || day > month_days(year, month) {
        return None;
    }
    Some(HttpDate::from_parts(year, month, day, hour, minute, second))
}

/// Parses a date of this grammar, for example `Wed, 15-Nov-23 09:13:29 GMT`
/// or `Sunday, 06-Nov-1994 08:49:37 GMT`. A string that does not have the
/// layout, or whose fields do not name a real calendar date and time, is
/// rejected.
pub fn parse_rfc_850_date(date: &str) -> (r: Result<HttpDate, ParseError>)
    ensures
        r matches Ok(d) ==> rfc850_date_spec(date@) == Some(d@),
        r is Err <==> rfc850_date_spec(date@) is None,
        r matches Err(e) ==> e@ == "Invalid date"@,
{
    let v = str_to_chars(date);
    match rfc850_chars(v.as_slice()) {
        Some(d) => Ok(d),
        None => Err(ParseError::from_msg("Invalid date")),
    }
}

} // verus!
