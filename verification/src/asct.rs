//! The C-library date layout: `Wkd Mon D HH:MM:SS YYYY`, with no comma and no
//! zone field. The day takes one or two digits and may be padded with an
//! extra space, so the month and day are separated by one or two spaces.

use vstd::prelude::*;

use crate::ParseError;
use crate::date::{
    DateVal, HttpDate, check_day2, dec_val2, is_day2, is_time8, is_weekday_abbrev, month_days,
    month_num, month_of, scan_time, valid_date, weekday_abbrev,
};
use crate::text::{
    copy_range, dec_val, digit_val, digit_val_char, is_digit, is_digit_char, lemma_dec_val_4,
    str_to_chars,
};

verus! {

/// The stretch between the month and the space before the time: one or two
/// spaces followed by a one- or two-digit day.
pub open spec fn asct_mid_ok(m: Seq<char>) -> bool {
    if m.len() == 2 {
        m[0] == ' ' && is_digit(m[1]) && m[1] != '0'
    } else if m.len() == 3 {
        (m[0] == ' ' && m[1] == ' ' && is_digit(m[2]) && m[2] != '0') || (m[0] == ' ' && is_day2(
            m[1],
            m[2],
        ))
    } else if m.len() == 4 {
        m[0] == ' ' && m[1] == ' ' && is_day2(m[2], m[3])
    } else {
        false
    }
}

/// The day named by that stretch.
pub open spec fn asct_mid_day(m: Seq<char>) -> int {
    if m.len() == 2 {
        digit_val(m[1])
    } else if m.len() == 3 {
        if m[1] == ' ' {
            digit_val(m[2])
        } else {
            dec_val2(m[1], m[2])
        }
    } else {
        dec_val2(m[2], m[3])
    }
}

/// Character layout of this grammar, with every field placed from the two
/// ends of the string around the variable-width day stretch.
pub open spec fn asct_shape(s: Seq<char>) -> bool {
    &&& 23 <= s.len() <= 25
    &&& is_weekday_abbrev(s.subrange(0, 3))
    &&& s[3] == ' '
    &&& month_of(s.subrange(4, 7)) >= 1
    &&& asct_mid_ok(s.subrange(7, s.len() - 14))
    &&& s[s.len() - 14] == ' '
    &&& is_time8(s.subrange(s.len() - 13, s.len() - 5))
    &&& s[s.len() - 5] == ' '
    &&& is_digit(s[s.len() - 4]) && is_digit(s[s.len() - 3]) && is_digit(s[s.len() - 2])
        && is_digit(s[s.len() - 1])
}

/// The six date fields read off a string of this shape.
pub open spec fn asct_fields(s: Seq<char>) -> DateVal {
    DateVal {
        year: dec_val(s.subrange(s.len() - 4, s.len() as int)),
        month: month_of(s.subrange(4, 7)),
        day: asct_mid_day(s.subrange(7, s.len() - 14)),
        hour: dec_val2(s[s.len() - 13], s[s.len() - 12]),
        minute: dec_val2(s[s.len() - 10], s[s.len() - 9]),
        second: dec_val2(s[s.len() - 7], s[s.len() - 6]),
    }
}

/// The date denoted by a string of this grammar: present exactly when the
/// string has the layout and its fields name a real calendar date and time.
pub open spec fn asct_date_spec(s: Seq<char>) -> Option<DateVal> {
    if asct_shape(s) && valid_date(asct_fields(s)) {
        Some(asct_fields(s))
    } else {
        None
    }
}

/// Scans `v` as a date of this grammar.
pub(crate) fn asct_chars(v: &[char]) -> (r: Option<HttpDate>)
    ensures
        r is Some <==> asct_date_spec(v@) is Some,
        r matches Some(d) ==> asct_date_spec(v@) == Some(d@),
{
    let n = v.len();
    if n < 23 || n > 25 {
        return None;
    }
    let wd = copy_range(v, 0, 3);
    if !weekday_abbrev(wd.as_slice()) {
        return None;
    }
    if v[3] != ' ' {
        return None;
    }
    let mon_chars = copy_range(v, 4, 7);
    let month = month_num(mon_chars.as_slice());
    if month == 0 {
        return None;
    }
    let ghost mid = v@.subrange(7, n as int - 14);
    proof {
        assert forall|k: int| 0 <= k < mid.len() implies mid[k] == v@[7 + k] by {}
    }
    let mlen = n - 21;
    let day: u8 = if mlen == 2 {
        if !(v[7] == ' ' && is_digit_char(v[8]) && v[8] != '0') {
            return None;
        }
        digit_val_char(v[8])
    } else if mlen == 3 {
        if v[7] != ' ' {
            return None;
        }
        if v[8] == ' ' {
            if !(is_digit_char(v[9]) && v[9] != '0') {
                return None;
            }
            digit_val_char(v[9])
        } else {
            if !check_day2(v[8], v[9]) {
                return None;
            }
            digit_val_char(v[8]) * 10 + digit_val_char(v[9])
        }
    } else {
        if !(v[7] == ' ' && v[8] == ' ') {
            return None;
        }
        if !check_day2(v[9], v[10]) {
            return None;
        }
        digit_val_char(v[9]) * 10 + digit_val_char(v[10])
    };
    if v[n - 14] != ' ' {
        return None;
    }
    let time = scan_time(v, n - 13);
    proof {
        assert(v@.subrange(n as int - 13, n as int - 5) =~= v@.subrange(
            (n - 13) as int,
            (n - 13) as int + 8,
        ));
    }
    let (hour, minute, second) = match time {
        None => {
            return None;
        },
        Some(t) => t,
    };
    proof {
        let ts = v@.subrange(n as int - 13, n as int - 5);
        assert(ts[0] == v@[n as int - 13]);
        assert(ts[1] == v@[n as int - 12]);
        assert(ts[3] == v@[n as int - 10]);
        assert(ts[4] == v@[n as int - 9]);
        assert(ts[6] == v@[n as int - 7]);
        assert(ts[7] == v@[n as int - 6]);
    }
    if v[n - 5] != ' ' {
        return None;
    }
    if !(is_digit_char(v[n - 4]) && is_digit_char(v[n - 3]) && is_digit_char(v[n - 2])
        && is_digit_char(v[n - 1])) {
        return None;
    }
    let year = ((digit_val_char(v[n - 4]) as u16) * 10 + (digit_val_char(v[n - 3]) as u16)) * 10 + (
    digit_val_char(v[n - 2]) as u16);
    let year = year * 10 + (digit_val_char(v[n - 1]) as u16);
    proof {
        let ys = v@.subrange(n as int - 4, n as int);
        lemma_dec_val_4(ys);
        assert(ys[0] == v@[n as int - 4]);
        assert(ys[1] == v@[n as int - 3]);
        assert(ys[2] == v@[n as int - 2]);
        assert(ys[3] == v@[n as int - 1]);
    }
    if day < 1 || day > month_days(year, month) {
        return None;
    }
    Some(HttpDate::from_parts(year, month, day, hour, minute, second))
}

/// Parses a date of this grammar, for example `Sun Nov  6 08:49:37 1994`. A
/// string that does not have the layout, or whose fields do not name a real
/// calendar date and time, is rejected.
pub fn parse_asct_date(date: &str) -> (r: Result<HttpDate, ParseError>)
    ensures
        r matches Ok(d) ==> asct_date_spec(date@) == Some(d@),
        r is Err <==> asct_date_spec(date@) is None,
        r matches Err(e) ==> e@ == "Invalid date"@,
{
    let v = str_to_chars(date);
    match asct_chars(v.as_slice()) {
        Some(d) => Ok(d),
        None => Err(ParseError::from_msg("Invalid date")),
    }
}

} // verus!
