//! The directive classifier: it turns one semicolon-delimited `Set-Cookie`
//! attribute token into a typed directive. Keys are matched without regard to
//! case; the known value-carrying keys are `expires`, `max-age`, `domain`,
//! `path` and `samesite`, the known flags are `secure` and `httponly`, and
//! everything else is kept as an extension attribute.

use vstd::prelude::*;

use crate::asct::{asct_chars, asct_date_spec};
use crate::date::{DateVal, HttpDate};
use crate::rfc_1123::{rfc1123_chars, rfc1123_date_spec};
use crate::rfc_850::{rfc850_chars, rfc850_date_spec};
use crate::text::{
    all_digits, chars_eq_str, chars_to_string, copy_range, dec_val, find_ch, find_char,
    lemma_find_ch, lower_chars, lower_seq, parse_u64, str_to_chars, trim_chars, trim_spec,
};
use crate::{same_site_of, ParseError, SameSiteValue};

verus! {

/// One parsed `Set-Cookie` attribute.
pub enum CookieDirective {
    Expires(HttpDate),
    MaxAge(u64),
    Domain(String),
    Path(String),
    SameSite(SameSiteValue),
    Secure,
    HttpOnly,
    Extension(String, Option<String>),
}

/// Mathematical mirror of a parsed directive, over character sequences.
pub enum DirectiveView {
    Expires(DateVal),
    MaxAge(u64),
    Domain(Seq<char>),
    Path(Seq<char>),
    SameSite(SameSiteValue),
    Secure,
    HttpOnly,
    Extension(Seq<char>, Option<Seq<char>>),
}

impl View for CookieDirective {
    type V = DirectiveView;

    open spec fn view(&self) -> DirectiveView {
        match self {
            CookieDirective::Expires(d) => DirectiveView::Expires(d@),
            CookieDirective::MaxAge(n) => DirectiveView::MaxAge(*n),
            CookieDirective::Domain(s) => DirectiveView::Domain(s@),
            CookieDirective::Path(s) => DirectiveView::Path(s@),
            CookieDirective::SameSite(v) => DirectiveView::SameSite(*v),
            CookieDirective::Secure => DirectiveView::Secure,
            CookieDirective::HttpOnly => DirectiveView::HttpOnly,
            CookieDirective::Extension(k, ov) => DirectiveView::Extension(
                k@,
                match ov {
                    Some(v) => Some(v@),
                    None => None,
                },
            ),
        }
    }
}

/// The date denoted by an `Expires` value: the three grammars are tried in
/// order and the first that matches decides.
pub open spec fn date_spec(s: Seq<char>) -> Option<DateVal> {
    match rfc1123_date_spec(s) {
        Some(d) => Some(d),
        None => match rfc850_date_spec(s) {
            Some(d) => Some(d),
            None => asct_date_spec(s),
        },
    }
}

/// What classifying one attribute token yields: a directive, or the message
/// of the error that rejects it.
pub open spec fn classify_spec(seg: Seq<char>) -> Result<DirectiveView, Seq<char>> {
    match find_ch(seg, '=') {
        Some(i) => {
            let key = lower_seq(trim_spec(seg.subrange(0, i)));
            let value = trim_spec(seg.subrange(i + 1, seg.len() as int));
            if value.len() == 0 {
                Err("Directive "@ + key + " value must not be empty"@)
            } else if key == "expires"@ {
                match date_spec(value) {
                    Some(d) => Ok(DirectiveView::Expires(d)),
                    None => Err("Invalid date"@),
                }
            } else if key == "max-age"@ {
                if all_digits(value) && dec_val(value) <= u64::MAX {
                    Ok(DirectiveView::MaxAge(dec_val(value) as u64))
                } else {
                    Err("Cannot parse Max-age"@)
                }
            } else if key == "domain"@ {
                Ok(DirectiveView::Domain(value))
            } else if key == "path"@ {
                Ok(DirectiveView::Path(value))
            } else if key == "samesite"@ {
                match same_site_of(lower_seq(value)) {
                    Some(v) => Ok(DirectiveView::SameSite(v)),
                    None => Err("Invalid SameSite cookie directive value: "@ + lower_seq(value)),
                }
            } else {
                Ok(DirectiveView::Extension(key, Some(value)))
            }
        },
        None => {
            let word = lower_seq(trim_spec(seg));
            if word == "secure"@ {
                Ok(DirectiveView::Secure)
            } else if word == "httponly"@ {
                Ok(DirectiveView::HttpOnly)
            } else if word == "domain"@ || word == "expires"@ || word == "max-age"@ || word
                == "path"@ || word == "samesite"@ {
                Err("Directive "@ + word + " needs a value"@)
            } else {
                Ok(DirectiveView::Extension(word, None))
            }
        },
    }
}

/// A key, with or without a value, that names one of the standard directives.
pub open spec fn is_known_key(s: Seq<char>) -> bool {
    s == "expires"@ || s == "max-age"@ || s == "domain"@ || s == "path"@ || s == "samesite"@ || s
        == "secure"@ || s == "httponly"@
}

/// Runtime check for [`is_known_key`].
pub(crate) fn known_key(v: &[char]) -> (r: bool)
    ensures
        r == is_known_key(v@),
{
    chars_eq_str(v, "expires") || chars_eq_str(v, "max-age") || chars_eq_str(v, "domain")
        || chars_eq_str(v, "path") || chars_eq_str(v, "samesite") || chars_eq_str(v, "secure")
        || chars_eq_str(v, "httponly")
}

/// Tries the three date grammars in order on `v`.
pub(crate) fn parse_date_chars(v: &[char]) -> (r: Option<HttpDate>)
    ensures
        r is Some <==> date_spec(v@) is Some,
        r matches Some(d) ==> date_spec(v@) == Some(d@),
{
    match rfc1123_chars(v) {
        Some(d) => Some(d),
        None => match rfc850_chars(v) {
            Some(d) => Some(d),
            None => asct_chars(v),
        },
    }
}

impl CookieDirective {
    /// Chars-level worker behind [`CookieDirective::from_str`].
    pub(crate) fn from_chars(v: &[char]) -> (r: Result<CookieDirective, ParseError>)
        ensures
            r matches Ok(d) ==> classify_spec(v@) == Ok::<DirectiveView, Seq<char>>(d@),
            r is Err <==> classify_spec(v@) is Err,
            r matches Err(e) ==> classify_spec(v@) == Err::<DirectiveView, Seq<char>>(e@),
    {
        let n = v.len();
        match find_char(v, '=') {
            Some(i) => {
                proof {
                    lemma_find_ch(v@, '=');
                }
                let raw_key = copy_range(v, 0, i);
                let trimmed_key = trim_chars(raw_key.as_slice());
                let key = lower_chars(trimmed_key.as_slice());
                let raw_value = copy_range(v, i + 1, n);
                let value = trim_chars(raw_value.as_slice());
                if value.len() == 0 {
                    return Err(
                        ParseError::from_parts(
                            "Directive ",
                            key.as_slice(),
                            " value must not be empty",
                        ),
                    );
                }
                if chars_eq_str(key.as_slice(), "expires") {
                    match parse_date_chars(value.as_slice()) {
                        Some(d) => Ok(CookieDirective::Expires(d)),
                        None => Err(ParseError::from_msg("Invalid date")),
                    }
                } else if chars_eq_str(key.as_slice(), "max-age") {
                    match parse_u64(value.as_slice()) {
                        Some(n) => Ok(CookieDirective::MaxAge(n)),
                        None => Err(ParseError::from_msg("Cannot parse Max-age")),
                    }
                } else if chars_eq_str(key.as_slice(), "domain") {
                    Ok(CookieDirective::Domain(chars_to_string(value.as_slice())))
                } else if chars_eq_str(key.as_slice(), "path") {
                    Ok(CookieDirective::Path(chars_to_string(value.as_slice())))
                } else if chars_eq_str(key.as_slice(), "samesite") {
                    let lv = lower_chars(value.as_slice());
                    match SameSiteValue::from_lower_chars(lv.as_slice()) {
                        Ok(site) => Ok(CookieDirective::SameSite(site)),
                        Err(e) => Err(e),
                    }
                } else {
                    Ok(
                        CookieDirective::Extension(
                            chars_to_string(key.as_slice()),
                            Some(chars_to_string(value.as_slice())),
                        ),
                    )
                }
            },
            None => {
                let trimmed = trim_chars(v);
                let word = lower_chars(trimmed.as_slice());
                if chars_eq_str(word.as_slice(), "secure") {
                    Ok(CookieDirective::Secure)
                } else if chars_eq_str(word.as_slice(), "httponly") {
                    Ok(CookieDirective::HttpOnly)
                } else if chars_eq_str(word.as_slice(), "domain") || chars_eq_str(
                    word.as_slice(),
                    "expires",
                ) || chars_eq_str(word.as_slice(), "max-age") || chars_eq_str(
                    word.as_slice(),
                    "path",
                ) || chars_eq_str(word.as_slice(), "samesite") {
                    Err(ParseError::from_parts("Directive ", word.as_slice(), " needs a value"))
                } else {
                    Ok(CookieDirective::Extension(chars_to_string(word.as_slice()), None))
                }
            },
        }
    }

    /// Classifies one `Set-Cookie` attribute token. A key is read without
    /// regard to case; an empty value, a value-carrying key given bare, an
    /// unreadable date, a non-numeric `Max-Age` and an unrecognized
    /// `SameSite` value are each rejected with a message naming the problem.
    pub fn from_str(s: &str) -> (r: Result<CookieDirective, ParseError>)
        ensures
            r matches Ok(d) ==> classify_spec(s@) == Ok::<DirectiveView, Seq<char>>(d@),
            r is Err <==> classify_spec(s@) is Err,
            r matches Err(e) ==> classify_spec(s@) == Err::<DirectiveView, Seq<char>>(e@),
    {
        let v = str_to_chars(s);
        Self::from_chars(v.as_slice())
    }
}

} // verus!
