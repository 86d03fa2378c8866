//! The calendar model behind HTTP dates: a date-and-time value with its
//! validity rules, month and weekday name tables shared by the date grammars,
//! and the two facts that chrono supplies (seconds since the Unix epoch and
//! the day of the week).

use vstd::prelude::*;

use crate::text::chars_eq_str;
use chrono::Datelike;

verus! {

/// Mathematical view of an HTTP date: a Gregorian calendar date with a time
/// of day, all in UTC.
pub struct DateVal {
    pub year: int,
    pub month: int,
    pub day: int,
    pub hour: int,
    pub minute: int,
    pub second: int,
}

/// Gregorian leap-year rule.
pub open spec fn is_leap_year(y: int) -> bool {
    y % 4 == 0 && (y % 100 != 0 || y % 400 == 0)
}

/// Number of days in a month of the Gregorian calendar.
pub open spec fn days_in_month(y: int, m: int) -> int {
    if m == 2 {
        if is_leap_year(y) {
            29
        } else {
            28
        }
    } else if m == 4 || m == 6 || m == 9 || m == 11 {
        30
    } else {
        31
    }
}

/// A real calendar date with a four-digit year.
pub open spec fn valid_ymd(y: int, m: int, d: int) -> bool {
    0 <= y <= 9999 && 1 <= m <= 12 && 1 <= d <= days_in_month(y, m)
}

/// A real calendar date together with a real time of day.
pub open spec fn valid_date(d: DateVal) -> bool {
    valid_ymd(d.year, d.month, d.day) && 0 <= d.hour < 24 && 0 <= d.minute < 60 && 0 <= d.second
        < 60
}

/// An absolute HTTP timestamp: a valid Gregorian calendar date with a time of
/// day, in UTC. Values of this type are always valid; the constructor rejects
/// anything else.
#[derive(Debug, Clone, Copy, PartialEq, Eq, Structural, Hash)]
pub struct HttpDate {
    year: u16,
    month: u8,
    day: u8,
    hour: u8,
    minute: u8,
    second: u8,
}

impl View for HttpDate {
    type V = DateVal;

    closed spec fn view(&self) -> DateVal {
        DateVal {
            year: self.year as int,
            month: self.month as int,
            day: self.day as int,
            hour: self.hour as int,
            minute: self.minute as int,
            second: self.second as int,
        }
    }
}

/// Runtime check for [`is_leap_year`].
pub fn leap_year(y: u16) -> (r: bool)
    ensures
        r == is_leap_year(y as int),
{
    y % 4 == 0 && (y % 100 != 0 || y % 400 == 0)
}

/// Runtime computation of [`days_in_month`].
pub fn month_days(y: u16, m: u8) -> (r: u8)
    ensures
        r == days_in_month(y as int, m as int),
{
    if m == 2 {
        if leap_year(y) {
            29
        } else {
            28
        }
    } else if m == 4 || m == 6 || m == 9 || m == 11 {
        30
    } else {
        31
    }
}

impl HttpDate {
    #[verifier::type_invariant]
    spec fn wf(self) -> bool {
        valid_date(self@)
    }

    /// Builds a timestamp from its six fields, rejecting anything that is not
    /// a real calendar date and time.
    pub fn new(year: u16, month: u8, day: u8, hour: u8, minute: u8, second: u8) -> (r: Option<
        HttpDate,
    >)
        ensures
            r is Some <==> valid_date(
                DateVal {
                    year: year as int,
                    month: month as int,
                    day: day as int,
                    hour: hour as int,
                    minute: minute as int,
                    second: second as int,
                },
            ),
            r matches Some(d) ==> d@ == (DateVal {
                year: year as int,
                month: month as int,
                day: day as int,
                hour: hour as int,
                minute: minute as int,
                second: second as int,
            }),
    {
        if year <= 9999 && 1 <= month && month <= 12 && 1 <= day && day <= month_days(year, month)
            && hour < 24 && minute < 60 && second < 60 {
            Some(HttpDate { year, month, day, hour, minute, second })
        } else {
            None
        }
    }

    /// Crate-internal constructor for fields already known to form a valid
    /// date.
    pub(crate) fn from_parts(year: u16, month: u8, day: u8, hour: u8, minute: u8, second: u8) -> (r:
        HttpDate)
        requires
            valid_date(
                DateVal {
                    year: year as int,
                    month: month as int,
                    day: day as int,
                    hour: hour as int,
                    minute: minute as int,
                    second: second as int,
                },
            ),
        ensures
            r@ == (DateVal {
                year: year as int,
                month: month as int,
                day: day as int,
                hour: hour as int,
                minute: minute as int,
                second: second as int,
            }),
    {
        HttpDate { year, month, day, hour, minute, second }
    }

    /// The year, `0` to `9999`.
    pub fn year(&self) -> (r: u16)
        ensures
            r == self@.year,
    {
        self.year
    }

    /// The month, `1` to `12`.
    pub fn month(&self) -> (r: u8)
        ensures
            r == self@.month,
    {
        self.month
    }

    /// The day of the month, `1` to `31`.
    pub fn day(&self) -> (r: u8)
        ensures
            r == self@.day,
    {
        self.day
    }

    /// The hour, `0` to `23`.
    pub fn hour(&self) -> (r: u8)
        ensures
            r == self@.hour,
    {
        self.hour
    }

    /// The minute, `0` to `59`.
    pub fn minute(&self) -> (r: u8)
        ensures
            r == self@.minute,
    {
        self.minute
    }

    /// The second, `0` to `59`.
    pub fn second(&self) -> (r: u8)
        ensures
            r == self@.second,
    {
        self.second
    }

    /// Seconds since the Unix epoch of this instant; negative exactly when it
    /// lies before 1970.
    pub fn epoch_seconds(&self) -> (r: i64)
        ensures
            r == epoch_seconds_of(
                self@.year,
                self@.month,
                self@.day,
                self@.hour,
                self@.minute,
                self@.second,
            ),
            r < 0 <==> self@.year < 1970,
    {
        proof {
            use_type_invariant(*self);
        }
        chrono_epoch_seconds(self.year, self.month, self.day, self.hour, self.minute, self.second)
    }

    /// Day of the week of this date, counted from Monday as `0` to Sunday as
    /// `6`.
    pub fn weekday(&self) -> (r: u8)
        ensures
            r == weekday_of(self@.year, self@.month, self@.day),
            r < 7,
    {
        proof {
            use_type_invariant(*self);
        }
        chrono_weekday(self.year, self.month, self.day)
    }
}

/// The number of non-leap seconds between 1970-01-01 00:00:00 UTC and the
/// given calendar instant, as chrono computes it.
pub uninterp spec fn epoch_seconds_of(
    year: int,
    month: int,
    day: int,
    hour: int,
    minute: int,
    second: int,
) -> int;

/// The day of the week of the given calendar date, counted from Monday as 0,
/// as chrono computes it.
pub uninterp spec fn weekday_of(year: int, month: int, day: int) -> int;

/// Relies on chrono's `NaiveDate::from_ymd_opt`, `NaiveDate::and_hms_opt`,
/// `NaiveDateTime::and_utc` and `DateTime::timestamp`: for a valid calendar
/// date and time, `timestamp` returns the number of non-leap seconds since
/// 1970-01-01 00:00:00 UTC, a function of the six fields alone, and it is
/// negative exactly for instants before that epoch.
#[verifier::external_body]
fn chrono_epoch_seconds(year: u16, month: u8, day: u8, hour: u8, minute: u8, second: u8) -> (r: i64)
    requires
        valid_date(
            DateVal {
                year: year as int,
                month: month as int,
                day: day as int,
                hour: hour as int,
                minute: minute as int,
                second: second as int,
            },
        ),
    ensures
        r == epoch_seconds_of(
            year as int,
            month as int,
            day as int,
            hour as int,
            minute as int,
            second as int,
        ),
        r < 0 <==> year < 1970,
{
    let date = chrono::NaiveDate::from_ymd_opt(year as i32, month as u32, day as u32).unwrap();
    let time = date.and_hms_opt(hour as u32, minute as u32, second as u32).unwrap();
    time.and_utc().timestamp()
}

/// Relies on chrono's `NaiveDate::from_ymd_opt`, `Datelike::weekday` and
/// `Weekday::num_days_from_monday`: the day of the week of a valid calendar
/// date, counted from Monday as 0, a function of the date alone.
#[verifier::external_body]
fn chrono_weekday(year: u16, month: u8, day: u8) -> (r: u8)
    requires
        valid_ymd(year as int, month as int, day as int),
    ensures
        r == weekday_of(year as int, month as int, day as int),
        r < 7,
{
    let date = chrono::NaiveDate::from_ymd_opt(year as i32, month as u32, day as u32).unwrap();
    date.weekday().num_days_from_monday() as u8
}

/// Value of a two-digit decimal number given by its characters.
pub open spec fn dec_val2(c0: char, c1: char) -> int {
    crate::text::digit_val(c0) * 10 + crate::text::digit_val(c1)
}

/// A two-digit day field: `01` to `09` or `10` to `39`.
pub open spec fn is_day2(c0: char, c1: char) -> bool {
    crate::text::is_digit(c0) && crate::text::is_digit(c1) && c0 <= '3' && !(c0 == '0' && c1
        == '0')
}

/// Runtime check for [`is_day2`].
pub fn check_day2(c0: char, c1: char) -> (r: bool)
    ensures
        r == is_day2(c0, c1),
{
    crate::text::is_digit_char(c0) && crate::text::is_digit_char(c1) && c0 <= '3' && !(c0 == '0'
        && c1 == '0')
}

/// A zero-padded `HH:MM:SS` time field with the hour below 24 and minute and
/// second below 60.
pub open spec fn is_time8(s: Seq<char>) -> bool {
    &&& s.len() == 8
    &&& crate::text::is_digit(s[0]) && crate::text::is_digit(s[1])
    &&& s[2] == ':'
    &&& crate::text::is_digit(s[3]) && crate::text::is_digit(s[4])
    &&& s[5] == ':'
    &&& crate::text::is_digit(s[6]) && crate::text::is_digit(s[7])
    &&& dec_val2(s[0], s[1]) <= 23
    &&& dec_val2(s[3], s[4]) <= 59
    &&& dec_val2(s[6], s[7]) <= 59
}

/// Scans the eight characters of `v` starting at `at` as an `HH:MM:SS` time
/// of day, returning hour, minute and second.
pub fn scan_time(v: &[char], at: usize) -> (r: Option<(u8, u8, u8)>)
    requires
        at + 8 <= v@.len(),
    ensures
        r is Some <==> is_time8(v@.subrange(at as int, at + 8)),
        r matches Some(t) ==> ({
            let s = v@.subrange(at as int, at + 8);
            t.0 == dec_val2(s[0], s[1]) && t.1 == dec_val2(s[3], s[4]) && t.2 == dec_val2(
                s[6],
                s[7],
            ) && t.0 <= 23 && t.1 <= 59 && t.2 <= 59
        }),
{
    let ghost s = v@.subrange(at as int, at + 8);
    proof {
        assert forall|k: int| 0 <= k < 8 implies s[k] == v@[at + k] by {}
    }
    let c0 = v[at];
    let c1 = v[at + 1];
    let c3 = v[at + 3];
    let c4 = v[at + 4];
    let c6 = v[at + 6];
    let c7 = v[at + 7];
    if !(crate::text::is_digit_char(c0) && crate::text::is_digit_char(c1) && v[at + 2] == ':'
        && crate::text::is_digit_char(c3) && crate::text::is_digit_char(c4) && v[at + 5] == ':'
        && crate::text::is_digit_char(c6) && crate::text::is_digit_char(c7)) {
        return None;
    }
    let hour = crate::text::digit_val_char(c0) * 10 + crate::text::digit_val_char(c1);
    let minute = crate::text::digit_val_char(c3) * 10 + crate::text::digit_val_char(c4);
    let second = crate::text::digit_val_char(c6) * 10 + crate::text::digit_val_char(c7);
    if hour <= 23 && minute <= 59 && second <= 59 {
        Some((hour, minute, second))
    } else {
        None
    }
}

/// Three-letter name of a weekday counted from Monday as 0.
pub open spec fn weekday_abbrev_str(w: int) -> Seq<char> {
    if w == 0 {
        "Mon"@
    } else if w == 1 {
        "Tue"@
    } else if w == 2 {
        "Wed"@
    } else if w == 3 {
        "Thu"@
    } else if w == 4 {
        "Fri"@
    } else if w == 5 {
        "Sat"@
    } else {
        "Sun"@
    }
}

/// Appends the three-letter weekday name to `out`.
pub fn push_weekday_abbrev(w: u8, out: &mut Vec<char>)
    requires
        w < 7,
    ensures
        final(out)@ == old(out)@ + weekday_abbrev_str(w as int),
{
    match w {
        0 => crate::text::push_str_chars(out, "Mon"),
        1 => crate::text::push_str_chars(out, "Tue"),
        2 => crate::text::push_str_chars(out, "Wed"),
        3 => crate::text::push_str_chars(out, "Thu"),
        4 => crate::text::push_str_chars(out, "Fri"),
        5 => crate::text::push_str_chars(out, "Sat"),
        _ => crate::text::push_str_chars(out, "Sun"),
    }
}

/// Three-letter name of a month.
pub open spec fn month_name_str(m: int) -> Seq<char> {
    if m == 1 {
        "Jan"@
    } else if m == 2 {
        "Feb"@
    } else if m == 3 {
        "Mar"@
    } else if m == 4 {
        "Apr"@
    } else if m == 5 {
        "May"@
    } else if m == 6 {
        "Jun"@
    } else if m == 7 {
        "Jul"@
    } else if m == 8 {
        "Aug"@
    } else if m == 9 {
        "Sep"@
    } else if m == 10 {
        "Oct"@
    } else if m == 11 {
        "Nov"@
    } else {
        "Dec"@
    }
}

/// Appends the three-letter month name to `out`.
pub fn push_month_name(m: u8, out: &mut Vec<char>)
    requires
        1 <= m <= 12,
    ensures
        final(out)@ == old(out)@ + month_name_str(m as int),
{
    match m {
        1 => crate::text::push_str_chars(out, "Jan"),
        2 => crate::text::push_str_chars(out, "Feb"),
        3 => crate::text::push_str_chars(out, "Mar"),
        4 => crate::text::push_str_chars(out, "Apr"),
        5 => crate::text::push_str_chars(out, "May"),
        6 => crate::text::push_str_chars(out, "Jun"),
        7 => crate::text::push_str_chars(out, "Jul"),
        8 => crate::text::push_str_chars(out, "Aug"),
        9 => crate::text::push_str_chars(out, "Sep"),
        10 => crate::text::push_str_chars(out, "Oct"),
        11 => crate::text::push_str_chars(out, "Nov"),
        _ => crate::text::push_str_chars(out, "Dec"),
    }
}

/// The header rendering of a date: `Wkd, DD-Mon-YYYY HH:MM:SS GMT`, with the
/// weekday computed from the date, a zero-padded day, and the year written
/// without padding.
pub open spec fn render_date(d: DateVal) -> Seq<char> {
    weekday_abbrev_str(weekday_of(d.year, d.month, d.day)) + ", "@ + crate::text::dec2_str(d.day)
        + "-"@ + month_name_str(d.month) + "-"@ + crate::text::dec_str(d.year) + " "@
        + crate::text::dec2_str(d.hour) + ":"@ + crate::text::dec2_str(d.minute) + ":"@
        + crate::text::dec2_str(d.second) + " GMT"@
}

/// Appends the header rendering of `d` to `out`.
pub fn push_date(d: &HttpDate, out: &mut Vec<char>)
    ensures
        final(out)@ == old(out)@ + render_date(d@),
{
    proof {
        use_type_invariant(*d);
    }
    let w = d.weekday();
    push_weekday_abbrev(w, out);
    crate::text::push_str_chars(out, ", ");
    crate::text::push_dec2(d.day() as u64, out);
    crate::text::push_str_chars(out, "-");
    push_month_name(d.month(), out);
    crate::text::push_str_chars(out, "-");
    crate::text::push_dec(d.year() as u64, out);
    crate::text::push_str_chars(out, " ");
    crate::text::push_dec2(d.hour() as u64, out);
    crate::text::push_str_chars(out, ":");
    crate::text::push_dec2(d.minute() as u64, out);
    crate::text::push_str_chars(out, ":");
    crate::text::push_dec2(d.second() as u64, out);
    crate::text::push_str_chars(out, " GMT");
    proof {
        assert(out@ =~= old(out)@ + render_date(d@));
    }
}

/// Month number named by a three-letter abbreviation, or `0` when the
/// abbreviation is not a month name.
pub open spec fn month_of(s: Seq<char>) -> int {
    if s == "Jan"@ {
        1
    } else if s == "Feb"@ {
        2
    } else if s == "Mar"@ {
        3
    } else if s == "Apr"@ {
        4
    } else if s == "May"@ {
        5
    } else if s == "Jun"@ {
        6
    } else if s == "Jul"@ {
        7
    } else if s == "Aug"@ {
        8
    } else if s == "Sep"@ {
        9
    } else if s == "Oct"@ {
        10
    } else if s == "Nov"@ {
        11
    } else if s == "Dec"@ {
        12
    } else {
        0
    }
}

/// Looks a three-letter month abbreviation up; `0` stands for no match.
pub fn month_num(v: &[char]) -> (r: u8)
    ensures
        r == month_of(v@),
        r <= 12,
{
    if chars_eq_str(v, "Jan") {
        1
    } else if chars_eq_str(v, "Feb") {
        2
    } else if chars_eq_str(v, "Mar") {
        3
    } else if chars_eq_str(v, "Apr") {
        4
    } else if chars_eq_str(v, "May") {
        5
    } else if chars_eq_str(v, "Jun") {
        6
    } else if chars_eq_str(v, "Jul") {
        7
    } else if chars_eq_str(v, "Aug") {
        8
    } else if chars_eq_str(v, "Sep") {
        9
    } else if chars_eq_str(v, "Oct") {
        10
    } else if chars_eq_str(v, "Nov") {
        11
    } else if chars_eq_str(v, "Dec") {
        12
    } else {
        0
    }
}

/// Three-letter weekday abbreviation, as the date grammars accept it.
pub open spec fn is_weekday_abbrev(s: Seq<char>) -> bool {
    s == "Mon"@ || s == "Tue"@ || s == "Wed"@ || s == "Thu"@ || s == "Fri"@ || s == "Sat"@ || s
        == "Sun"@
}

/// Runtime check for [`is_weekday_abbrev`].
pub fn weekday_abbrev(v: &[char]) -> (r: bool)
    ensures
        r == is_weekday_abbrev(v@),
{
    chars_eq_str(v, "Mon") || chars_eq_str(v, "Tue") || chars_eq_str(v, "Wed") || chars_eq_str(
        v,
        "Thu",
    ) || chars_eq_str(v, "Fri") || chars_eq_str(v, "Sat") || chars_eq_str(v, "Sun")
}

/// Full weekday name, as the extended legacy date grammar accepts it.
pub open spec fn is_weekday_full(s: Seq<char>) -> bool {
    s == "Monday"@ || s == "Tuesday"@ || s == "Wednesday"@ || s == "Thursday"@ || s == "Friday"@
        || s == "Saturday"@ || s == "Sunday"@
}

/// Runtime check for [`is_weekday_full`].
pub fn weekday_full(v: &[char]) -> (r: bool)
    ensures
        r == is_weekday_full(v@),
{
    chars_eq_str(v, "Monday") || chars_eq_str(v, "Tuesday") || chars_eq_str(v, "Wednesday")
        || chars_eq_str(v, "Thursday") || chars_eq_str(v, "Friday") || chars_eq_str(v, "Saturday")
        || chars_eq_str(v, "Sunday")
}

} // verus!
