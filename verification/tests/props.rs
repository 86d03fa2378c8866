//! Tests for the header-level behaviour: defaults, precedence, the two-digit
//! year pivot, path matching, round-tripping, rejection messages, rendering,
//! and the applicability predicate end to end.

use wcookie::date::HttpDate;
use wcookie::parse_asct_date;
use wcookie::parse_rfc_1123_date;
use wcookie::parse_rfc_850_date;
use wcookie::SameSiteValue;
use wcookie::SetCookie;

#[test]
fn minimal_pair_defaults() {
    let cookie = SetCookie::from_str("name=value").unwrap();
    assert_eq!(cookie.name.as_str(), "name");
    assert_eq!(cookie.value.as_str(), "value");
    assert!(cookie.domain.is_none());
    assert!(cookie.path.is_none());
    assert!(cookie.expires.is_none());
    assert!(cookie.max_age.is_none());
    assert_eq!(cookie.same_site, SameSiteValue::Lax);
    assert!(!cookie.secure);
    assert!(!cookie.http_only);
    assert!(cookie.extensions.is_empty());
}

#[test]
fn samesite_strict_header() {
    let cookie = SetCookie::from_str("name=value; SameSite=Strict").unwrap();
    assert_eq!(cookie.same_site, SameSiteValue::Strict);
}

#[test]
fn samesite_case_insensitive_header() {
    let a = SetCookie::from_str("name=value; samesite=lax").unwrap();
    let b = SetCookie::from_str("name=value; SameSite=Lax").unwrap();
    assert_eq!(a.same_site, SameSiteValue::Lax);
    assert_eq!(b.same_site, SameSiteValue::Lax);
}

#[test]
fn max_age_takes_precedence_over_expires() {
    let cookie = SetCookie::from_str(
        "id=a3fWa; Max-Age=3600; Expires=Wed, 21 Oct 2065 07:28:00 GMT",
    ).unwrap();
    assert!(cookie.expires.is_some());
    assert_eq!(cookie.max_age, Some(3600));
    assert_eq!(cookie.expire_time(), Some(cookie.created + 3600));
}

#[test]
fn two_digit_year_pivot() {
    let low = parse_rfc_850_date("Sunday, 06-Nov-94 08:49:37 GMT").unwrap();
    assert_eq!(low.year(), 1994);
    let high = parse_rfc_850_date("Wednesday, 15-Nov-23 09:13:29 GMT").unwrap();
    assert_eq!(high.year(), 2023);
    let boundary = parse_rfc_850_date("Wednesday, 15-Nov-69 09:13:29 GMT").unwrap();
    assert_eq!(boundary.year(), 2069);
    let pivot = parse_rfc_850_date("Wednesday, 15-Nov-70 09:13:29 GMT").unwrap();
    assert_eq!(pivot.year(), 1970);
}

#[test]
fn path_match_root_and_prefix() {
    let mut root = SetCookie::new("a", "b");
    root.path = Some(String::from("/"));
    assert!(root.use_in_request_path("/"));
    assert!(root.use_in_request_path("/anything"));
    assert!(root.use_in_request_path("/x/y"));

    let mut foo = SetCookie::new("a", "b");
    foo.path = Some(String::from("/foo"));
    assert!(foo.use_in_request_path("/foo"));
    assert!(foo.use_in_request_path("/foo/bar"));
    assert!(!foo.use_in_request_path("/foobar"));
    assert!(!foo.use_in_request_path("/fo"));
}

#[test]
fn path_defaults_to_root() {
    let cookie = SetCookie::from_str("a=b").unwrap();
    assert_eq!(cookie.path_or_default(), "/");
    assert!(cookie.use_in_request_path("/whatever"));
}

#[test]
fn request_cookie_round_trip() {
    let set_cookie = SetCookie::from_str("cookie1=122343; Max-Age=12000; Domain=b.a").unwrap();
    assert!(set_cookie.use_in_request("c.b.a", "/", true));
    let cookie = set_cookie.to_cookie();
    assert_eq!(cookie.name.as_str(), "cookie1");
    assert_eq!(cookie.value.as_str(), "122343");
    assert_eq!(cookie.to_string(), "cookie1=122343");
}

#[test]
fn rejects_pair_without_equals() {
    let result = SetCookie::from_str("name:value");
    assert!(result.is_err());
    assert_eq!(result.err().unwrap().message(), "Malformed HTTP cookie: name:value");
}

#[test]
fn rejects_directive_only_header() {
    let result = SetCookie::from_str("Max-Age=-1200");
    assert!(result.is_err());
    assert_eq!(result.err().unwrap().message(), "Cookie has not got name/value");

    let flag_only = SetCookie::from_str("Secure");
    assert!(flag_only.is_err());
    assert_eq!(flag_only.err().unwrap().message(), "Cookie has not got name/value");
}

#[test]
fn rejects_bad_max_age_inside_header() {
    let result = SetCookie::from_str("id=1; Max-Age=-1200");
    assert!(result.is_err());
    assert_eq!(result.err().unwrap().message(), "Cannot parse Max-age");
}

#[test]
fn rejects_max_age_overflow() {
    let result = SetCookie::from_str("id=1; Max-Age=18446744073709551615");
    assert!(result.is_ok());
    assert_eq!(result.unwrap().max_age, Some(u64::MAX));
    let over = SetCookie::from_str("id=1; Max-Age=18446744073709551616");
    assert!(over.is_err());
}

#[test]
fn rejects_empty_directive_value() {
    let result = SetCookie::from_str("id=1; Domain=");
    assert!(result.is_err());
    assert_eq!(result.err().unwrap().message(), "Directive domain value must not be empty");
}

#[test]
fn rejects_bare_value_directive() {
    let result = SetCookie::from_str("id=1; Path");
    assert!(result.is_err());
    assert_eq!(result.err().unwrap().message(), "Directive path needs a value");
}

#[test]
fn rejects_bad_samesite_inside_header() {
    let result = SetCookie::from_str("id=1; SameSite=Void");
    assert!(result.is_err());
    assert_eq!(result.err().unwrap().message(), "Invalid SameSite cookie directive value: void");
}

#[test]
fn rejects_bad_date_inside_header() {
    let result = SetCookie::from_str("id=1; Expires=tomorrow");
    assert!(result.is_err());
    assert_eq!(result.err().unwrap().message(), "Invalid date");
}

#[test]
fn rejects_empty_cookie_value() {
    let result = SetCookie::from_str("name=   ");
    assert!(result.is_err());
    assert_eq!(result.err().unwrap().message(), "Cookie value must not be empty");
}

#[test]
fn applies_end_to_end() {
    let mut cookie = SetCookie::from_str(
        "id=a3fWa; Expires=Wed, 26 Jan 2022 07:28:00 GMT; Secure",
    ).unwrap();
    cookie.domain = Some(String::from("example.com"));
    assert!(cookie.use_in_request("www.example.com", "/", true));
    assert!(!cookie.use_in_request("www.example.com", "/", false));
}

#[test]
fn applies_needs_domain() {
    let cookie = SetCookie::from_str("id=a3fWa").unwrap();
    assert!(!cookie.use_in_request("example.com", "/", true));
}

#[test]
fn strict_same_site_needs_exact_domain() {
    let cookie = SetCookie::from_str("id=1; Domain=example.com; SameSite=Strict").unwrap();
    assert!(cookie.use_in_request("example.com", "/", true));
    assert!(!cookie.use_in_request("www.example.com", "/", true));
}

#[test]
fn none_same_site_needs_secure_request() {
    let plain = SetCookie::from_str("id=1; Domain=example.com; SameSite=None").unwrap();
    assert!(plain.use_in_request("example.com", "/", true));
    assert!(!plain.use_in_request("example.com", "/", false));
    let secure = SetCookie::from_str("id=1; Domain=example.com; SameSite=None; Secure").unwrap();
    assert!(secure.use_in_request("example.com", "/", true));
    assert!(!secure.use_in_request("example.com", "/", false));
}

#[test]
fn domain_leading_dot_is_stripped() {
    let cookie = SetCookie::from_str("id=1; Domain=.example.com").unwrap();
    assert_eq!(cookie.domain.as_deref(), Some("example.com"));
}

#[test]
fn flags_and_extensions() {
    let cookie = SetCookie::from_str("id=1; SECURE; HttpOnly; Color=blue; partitioned").unwrap();
    assert!(cookie.secure);
    assert!(cookie.http_only);
    assert_eq!(cookie.extensions.len(), 2);
    assert_eq!(cookie.extensions[0].0.as_str(), "color");
    assert_eq!(cookie.extensions[0].1.as_deref(), Some("blue"));
    assert_eq!(cookie.extensions[1].0.as_str(), "partitioned");
    assert_eq!(cookie.extensions[1].1, None);
}

#[test]
fn duplicate_extension_key_last_wins() {
    let cookie = SetCookie::from_str("id=1; color=blue; color=red").unwrap();
    assert_eq!(cookie.extensions.len(), 1);
    assert_eq!(cookie.extensions[0].1.as_deref(), Some("red"));
}

#[test]
fn renders_attributes_in_fixed_order() {
    let cookie = SetCookie::from_str(
        "id=1; Domain=example.com; Path=/a; Max-Age=5; SameSite=Strict; Secure; HttpOnly; x=y",
    ).unwrap();
    assert_eq!(
        cookie.to_string(),
        "id=1, Domain=example.com, Path=/a, Max-Age=5, SameSite=Strict, Secure, HttpOnly, x=y",
    );
}

#[test]
fn renders_expires_with_weekday() {
    let cookie = SetCookie::from_str("id=1; Expires=Wed, 15-Nov-2023 09:13:29 GMT").unwrap();
    assert_eq!(cookie.to_string(), "id=1, Expires=Wed, 15-Nov-2023 09:13:29 GMT");
}

#[test]
fn renders_max_age_over_expires() {
    let cookie = SetCookie::from_str(
        "id=1; Max-Age=60; Expires=Wed, 15-Nov-2023 09:13:29 GMT",
    ).unwrap();
    assert_eq!(cookie.to_string(), "id=1, Max-Age=60");
}

#[test]
fn renders_same_site_none() {
    let cookie = SetCookie::from_str("id=1; SameSite=None; Secure").unwrap();
    assert_eq!(cookie.to_string(), "id=1, SameSite=None, Secure");
}

#[test]
fn epoch_seconds_of_epoch_start() {
    let date = parse_rfc_1123_date("Thu, 01 Jan 1970 00:00:00 GMT").unwrap();
    assert_eq!(date.epoch_seconds(), 0);
    assert_eq!(date.weekday(), 3);
}

#[test]
fn epoch_seconds_of_known_instant() {
    let date = parse_rfc_1123_date("Fri, 15 May 2015 00:00:00 GMT").unwrap();
    assert_eq!(date.epoch_seconds(), 1431648000);
}

#[test]
fn expire_time_from_expires() {
    let mut cookie = SetCookie::new("a", "b");
    cookie.expires = HttpDate::new(1970, 1, 1, 0, 1, 0);
    assert_eq!(cookie.expire_time(), Some(60));
}

#[test]
fn expire_time_before_epoch_reads_as_created() {
    let mut cookie = SetCookie::new("a", "b");
    cookie.expires = HttpDate::new(1969, 12, 31, 23, 59, 0);
    assert_eq!(cookie.expire_time(), Some(cookie.created));
}

#[test]
fn expire_time_stops_at_the_limit() {
    let mut cookie = SetCookie::new("a", "b");
    cookie.max_age = Some(u64::MAX);
    assert_eq!(cookie.expire_time(), Some(u64::MAX));
}

#[test]
fn expired_against_given_instant() {
    let mut cookie = SetCookie::new("a", "b");
    cookie.max_age = Some(10);
    assert!(!cookie.expired_at(cookie.created + 10));
    assert!(cookie.expired_at(cookie.created + 11));
    let eternal = SetCookie::new("a", "b");
    assert!(!eternal.expired());
}

#[test]
fn calendar_validation() {
    assert!(HttpDate::new(2023, 2, 29, 0, 0, 0).is_none());
    assert!(HttpDate::new(2024, 2, 29, 0, 0, 0).is_some());
    assert!(HttpDate::new(1900, 2, 29, 0, 0, 0).is_none());
    assert!(HttpDate::new(2000, 2, 29, 0, 0, 0).is_some());
    assert!(HttpDate::new(2023, 4, 31, 0, 0, 0).is_none());
    assert!(parse_rfc_1123_date("Sun, 31 Feb 2023 08:49:37 GMT").is_err());
    assert!(parse_rfc_850_date("Thursday, 29-Feb-23 08:49:37 GMT").is_err());
    assert!(parse_asct_date("Thu Feb 29 08:49:37 2023").is_err());
}

#[test]
fn asct_day_paddings() {
    let single = parse_asct_date("Sun Nov 6 08:49:37 1994").unwrap();
    assert_eq!(single.day(), 6);
    let padded = parse_asct_date("Sun Nov  6 08:49:37 1994").unwrap();
    assert_eq!(padded.day(), 6);
    let zero = parse_asct_date("Sun Nov 06 08:49:37 1994").unwrap();
    assert_eq!(zero.day(), 6);
    let double = parse_asct_date("Tue Nov 15 08:49:37 1994").unwrap();
    assert_eq!(double.day(), 15);
    assert!(parse_asct_date("Sun Nov 0 08:49:37 1994").is_err());
}

#[test]
fn same_site_value_words() {
    assert_eq!(SameSiteValue::from_str("strict").unwrap(), SameSiteValue::Strict);
    assert_eq!(SameSiteValue::from_str("lax").unwrap(), SameSiteValue::Lax);
    assert_eq!(SameSiteValue::from_str("none").unwrap(), SameSiteValue::NoneValue);
    let bad = SameSiteValue::from_str("sometimes");
    assert!(bad.is_err());
    assert_eq!(
        bad.err().unwrap().message(),
        "Invalid SameSite cookie directive value: sometimes",
    );
}
