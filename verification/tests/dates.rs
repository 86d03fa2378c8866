//! Tests for the legacy date grammar: both weekday spellings, two- and
//! four-digit years, and out-of-range fields.

use wcookie::date::HttpDate;
use wcookie::parse_rfc_850_date;

fn right_date1() -> HttpDate {
    HttpDate::new(2023, 11, 15, 9, 13, 29).unwrap()
}

fn right_date2() -> HttpDate {
    HttpDate::new(2023, 11, 8, 9, 13, 29).unwrap()
}

#[test]
fn test_date1() {
    let str_date = "Wednesday, 15-Nov-23 09:13:29 GMT";

    let result = parse_rfc_850_date(str_date);

    assert!(result.is_ok());

    let date = result.unwrap();

    assert_eq!(right_date1(), date);
}

#[test]
fn test_date2() {
    let str_date = "Wednesday, 08-Nov-23 09:13:29 GMT";

    let result = parse_rfc_850_date(str_date);

    assert!(result.is_ok());

    let date = result.unwrap();

    assert_eq!(right_date2(), date);
}

#[test]
fn test_date3() {
    let str_date = "Wednesday, 15-Nov-2023 09:13:29 GMT";

    let result = parse_rfc_850_date(str_date);

    assert!(result.is_ok());

    let date = result.unwrap();

    assert_eq!(right_date1(), date);
}

#[test]
fn test_date4() {
    let str_date = "Wednesday, 08-Nov-2023 09:13:29 GMT";

    let result = parse_rfc_850_date(str_date);

    assert!(result.is_ok());

    let date = result.unwrap();

    assert_eq!(right_date2(), date);
}

#[test]
fn test_date5() {
    let str_date = "Wed, 15-Nov-23 09:13:29 GMT";

    let result = parse_rfc_850_date(str_date);

    assert!(result.is_ok());

    let date = result.unwrap();

    assert_eq!(right_date1(), date);
}

#[test]
fn test_date6() {
    let str_date = "Wed, 08-Nov-23 09:13:29 GMT";

    let result = parse_rfc_850_date(str_date);

    assert!(result.is_ok());

    let date = result.unwrap();

    assert_eq!(right_date2(), date);
}

#[test]
fn test_date7() {
    let str_date = "Wed, 15-Nov-2023 09:13:29 GMT";

    let result = parse_rfc_850_date(str_date);

    assert!(result.is_ok());

    let date = result.unwrap();

    assert_eq!(right_date1(), date);
}

#[test]
fn test_date8() {
    let str_date = "Wed, 08-Nov-2023 09:13:29 GMT";

    let result = parse_rfc_850_date(str_date);

    assert!(result.is_ok());

    let date = result.unwrap();

    assert_eq!(right_date2(), date);
}

#[test]
fn test_error_date1() {
    let str_date = "Wednesday, 15-Nov-23 29:13:29 GMT";

    let result = parse_rfc_850_date(str_date);

    assert!(result.is_err());
}

#[test]
fn test_error_date2() {
    let str_date = "Wednesday, 15-Nov-23 09:73:29 GMT";

    let result = parse_rfc_850_date(str_date);

    assert!(result.is_err());
}

#[test]
fn test_error_date3() {
    let str_date = "Wednesday, 15-Nov-23 09:13:99 GMT";

    let result = parse_rfc_850_date(str_date);

    assert!(result.is_err());
}

#[test]
fn test_error_date4() {
    let str_date = "Wednesday, 15-Nov-23 09:13:29 GNT";

    let result = parse_rfc_850_date(str_date);

    assert!(result.is_err());
}

#[test]
fn test_day1() {
    let date_right = HttpDate::new(2023, 11, 13, 9, 13, 29).unwrap();

    let str_date = "Mon, 13-Nov-23 09:13:29 GMT";

    let result = parse_rfc_850_date(str_date);

    assert!(result.is_ok());

    let date = result.unwrap();

    assert_eq!(date_right, date);
}

#[test]
fn test_day2() {
    let date_right = HttpDate::new(2023, 11, 14, 9, 13, 29).unwrap();

    let str_date = "Tue, 14-Nov-23 09:13:29 GMT";

    let result = parse_rfc_850_date(str_date);

    assert!(result.is_ok());

    let date = result.unwrap();

    assert_eq!(date_right, date);
}

#[test]
fn test_day3() {
    let date_right = HttpDate::new(2023, 11, 15, 9, 13, 29).unwrap();

    let str_date = "Wed, 15-Nov-23 09:13:29 GMT";

    let result = parse_rfc_850_date(str_date);

    assert!(result.is_ok());

    let date = result.unwrap();

    assert_eq!(date_right, date);
}

#[test]
fn test_day4() {
    let date_right = HttpDate::new(2023, 11, 16, 9, 13, 29).unwrap();

    let str_date = "Thu, 16-Nov-23 09:13:29 GMT";

    let result = parse_rfc_850_date(str_date);

    assert!(result.is_ok());

    let date = result.unwrap();

    assert_eq!(date_right, date);
}

#[test]
fn test_day5() {
    let date_right = HttpDate::new(2023, 11, 17, 9, 13, 29).unwrap();

    let str_date = "Fri, 17-Nov-23 09:13:29 GMT";

    let result = parse_rfc_850_date(str_date);

    assert!(result.is_ok());

    let date = result.unwrap();

    assert_eq!(date_right, date);
}

#[test]
fn test_day6() {
    let date_right = HttpDate::new(2023, 11, 18, 9, 13, 29).unwrap();

    let str_date = "Sat, 18-Nov-23 09:13:29 GMT";

    let result = parse_rfc_850_date(str_date);

    assert!(result.is_ok());

    let date = result.unwrap();

    assert_eq!(date_right, date);
}

#[test]
fn test_day7() {
    let date_right = HttpDate::new(2023, 11, 13, 9, 13, 29).unwrap();

    let str_date = "Sun, 13-Nov-23 09:13:29 GMT";

    let result = parse_rfc_850_date(str_date);

    assert!(result.is_ok());

    let date = result.unwrap();

    assert_eq!(date_right, date);
}

#[test]
fn test_wrong_day1() {
    // Weekday names are case sensitive
    let str_date = "mon, 13-Nov-23 09:13:29 GMT";

    let result = parse_rfc_850_date(str_date);

    assert!(result.is_err());
}
