//! HTTP cookie handling: parsing of `Set-Cookie` header values into a typed
//! attribute model, deciding whether a cookie applies to an outgoing request
//! (domain, path, secure and same-site rules), and rendering cookies back to
//! header text.

use vstd::prelude::*;

pub mod asct;
pub mod date;
pub mod directive;
pub mod laws;
pub mod rfc_1123;
pub mod rfc_850;
pub mod text;

pub use asct::parse_asct_date;
pub use directive::CookieDirective;
pub use rfc_1123::parse_rfc_1123_date;
pub use rfc_850::parse_rfc_850_date;

use crate::text::chars_to_string;
use vstd::string::StringExecFns;

verus! {

/// Error produced while parsing a cookie or a date; it carries a message
/// naming what was wrong. Its view is the message text.
#[derive(Debug)]
pub struct ParseError {
    details: String,
}

impl View for ParseError {
    type V = Seq<char>;

    closed spec fn view(&self) -> Seq<char> {
        self.details@
    }
}

impl ParseError {
    /// Constructor from a message.
    pub fn new(msg: String) -> (r: ParseError)
        ensures
            r@ == msg@,
    {
        ParseError { details: msg }
    }

    /// Constructor from a fixed message.
    pub(crate) fn from_msg(msg: &str) -> (r: ParseError)
        ensures
            r@ == msg@,
    {
        ParseError { details: String::from_str(msg) }
    }

    /// Constructor for a message that embeds an offending token.
    pub(crate) fn from_parts(prefix: &str, detail: &[char], suffix: &str) -> (r: ParseError)
        ensures
            r@ == prefix@ + detail@ + suffix@,
    {
        let mut details = String::from_str(prefix);
        let d = chars_to_string(detail);
        details.append(d.as_str());
        details.append(suffix);
        ParseError { details }
    }

    /// Constructor for a message that ends with the offending token.
    pub(crate) fn from_prefix(prefix: &str, detail: &[char]) -> (r: ParseError)
        ensures
            r@ == prefix@ + detail@,
    {
        let mut details = String::from_str(prefix);
        let d = chars_to_string(detail);
        details.append(d.as_str());
        ParseError { details }
    }

    /// The error message.
    pub fn message(&self) -> (r: &str)
        ensures
            r@ == self@,
    {
        self.details.as_str()
    }
}

/// Enum with the possible values of the `SameSite` cookie attribute.
#[derive(Debug, Copy, Clone, PartialEq, Eq, Structural, Hash)]
pub enum SameSiteValue {
    Strict,
    Lax,
    NoneValue,
}

/// The same-site policy named by a lower-cased directive value; only the
/// three exact words `strict`, `lax` and `none` name one.
pub open spec fn same_site_of(s: Seq<char>) -> Option<SameSiteValue> {
    if s == "strict"@ {
        Some(SameSiteValue::Strict)
    } else if s == "lax"@ {
        Some(SameSiteValue::Lax)
    } else if s == "none"@ {
        Some(SameSiteValue::NoneValue)
    } else {
        None
    }
}

impl SameSiteValue {
    /// Parses an already lower-cased `SameSite` directive value; anything but
    /// the three recognized words is rejected, with a message naming the
    /// offending value.
    pub fn from_str(s: &str) -> (r: Result<SameSiteValue, ParseError>)
        ensures
            r matches Ok(v) ==> same_site_of(s@) == Some(v),
            r is Err <==> same_site_of(s@) is None,
            r matches Err(e) ==> e@ == "Invalid SameSite cookie directive value: "@ + s@,
    {
        let v = text::str_to_chars(s);
        Self::from_lower_chars(v.as_slice())
    }

    /// Chars-level worker behind [`SameSiteValue::from_str`].
    pub(crate) fn from_lower_chars(v: &[char]) -> (r: Result<SameSiteValue, ParseError>)
        ensures
            r matches Ok(x) ==> same_site_of(v@) == Some(x),
            r is Err <==> same_site_of(v@) is None,
            r matches Err(e) ==> e@ == "Invalid SameSite cookie directive value: "@ + v@,
    {
        if text::chars_eq_str(v, "strict") {
            Ok(SameSiteValue::Strict)
        } else if text::chars_eq_str(v, "lax") {
            Ok(SameSiteValue::Lax)
        } else if text::chars_eq_str(v, "none") {
            Ok(SameSiteValue::NoneValue)
        } else {
            Err(ParseError::from_prefix("Invalid SameSite cookie directive value: ", v))
        }
    }
}

/// View of an optional string.
pub open spec fn opt_str_view(o: Option<String>) -> Option<Seq<char>> {
    match o {
        Some(s) => Some(s@),
        None => None,
    }
}

/// View of a list of extension attributes.
pub open spec fn exts_view(s: Seq<(String, Option<String>)>) -> Seq<(Seq<char>, Option<Seq<char>>)> {
    s.map(|_i: int, p: (String, Option<String>)| (p.0@, opt_str_view(p.1)))
}

/// Pointwise description of [`exts_view`].
pub proof fn lemma_exts_view(s: Seq<(String, Option<String>)>)
    ensures
        exts_view(s).len() == s.len(),
        forall|i: int|
            0 <= i < s.len() ==> #[trigger] exts_view(s)[i] == (s[i].0@, opt_str_view(s[i].1)),
{
}

/// The mapping that a list of extension attributes denotes; a key that occurs
/// twice takes its last value.
pub open spec fn ext_map(s: Seq<(Seq<char>, Option<Seq<char>>)>) -> Map<
    Seq<char>,
    Option<Seq<char>>,
>
    decreases s.len(),
{
    if s.len() == 0 {
        Map::empty()
    } else {
        ext_map(s.drop_last()).insert(s.last().0, s.last().1)
    }
}

/// No extension key occurs twice.
pub open spec fn ext_keys_unique(s: Seq<(Seq<char>, Option<Seq<char>>)>) -> bool {
    forall|i: int, j: int| 0 <= i < j < s.len() ==> s[i].0 != s[j].0
}

/// Replacing the value of the one entry that carries a key inserts into the
/// denoted mapping.
pub proof fn lemma_ext_map_update(
    s: Seq<(Seq<char>, Option<Seq<char>>)>,
    p: int,
    k: Seq<char>,
    v: Option<Seq<char>>,
)
    requires
        ext_keys_unique(s),
        0 <= p < s.len(),
        s[p].0 == k,
    ensures
        ext_map(s.update(p, (k, v))) == ext_map(s).insert(k, v),
    decreases s.len(),
{
    let t = s.update(p, (k, v));
    let head = s.drop_last();
    if p == s.len() - 1 {
        assert(t.drop_last() =~= head);
        assert(t.last() == (k, v));
        assert(ext_map(head).insert(k, s.last().1).insert(k, v) =~= ext_map(head).insert(k, v));
    } else {
        assert(ext_keys_unique(head));
        assert(head[p].0 == k);
        lemma_ext_map_update(head, p, k, v);
        assert(t.drop_last() =~= head.update(p, (k, v)));
        assert(t.last() == s.last());
        assert(s[p].0 != s[s.len() - 1].0);
        assert(ext_map(head).insert(k, v).insert(s.last().0, s.last().1) =~= ext_map(head).insert(
            s.last().0,
            s.last().1,
        ).insert(k, v));
    }
}

/// Inserts an extension attribute: the last occurrence of a key wins, and the
/// entry keeps its original position.
fn ext_insert(exts: &mut Vec<(String, Option<String>)>, key: String, value: Option<String>)
    requires
        ext_keys_unique(exts_view(old(exts)@)),
    ensures
        ext_keys_unique(exts_view(final(exts)@)),
        ext_map(exts_view(final(exts)@)) == ext_map(exts_view(old(exts)@)).insert(
            key@,
            opt_str_view(value),
        ),
{
    let ghost orig = exts_view(exts@);
    let n = exts.len();
    let mut i: usize = 0;
    while i < n
        invariant
            i <= n,
            n == exts@.len(),
            exts@ == old(exts)@,
            orig == exts_view(exts@),
            ext_keys_unique(orig),
            forall|j: int| 0 <= j < i ==> exts@[j].0@ != key@,
        decreases n - i,
    {
        if exts[i].0 == key {
            proof {
                lemma_exts_view(exts@);
                assert(orig[i as int].0 == key@);
            }
            let ghost kv = key@;
            let ghost vv = opt_str_view(value);
            exts.set(i, (key, value));
            proof {
                lemma_exts_view(exts@);
                assert(exts_view(exts@) =~~= orig.update(i as int, (kv, vv)));
                lemma_ext_map_update(orig, i as int, kv, vv);
                let nv = exts_view(exts@);
                assert forall|a: int, b: int| 0 <= a < b < nv.len() implies nv[a].0 != nv[b].0 by {
                    assert(orig[a].0 != orig[b].0);
                    assert(nv[a].0 == orig[a].0);
                    assert(nv[b].0 == orig[b].0);
                }
            }
            return ;
        }
        i = i + 1;
    }
    let ghost kv = key@;
    let ghost vv = opt_str_view(value);
    exts.push((key, value));
    proof {
        lemma_exts_view(exts@);
        lemma_exts_view(old(exts)@);
        let now = exts_view(exts@);
        assert(now.drop_last() =~~= orig);
        assert(now.last() == (kv, vv));
        assert(ext_map(now) == ext_map(orig).insert(kv, vv));
        assert forall|a: int, b: int| 0 <= a < b < now.len() implies now[a].0 != now[b].0 by {
            if b < now.len() - 1 {
                assert(orig[a].0 == now[a].0);
                assert(orig[b].0 == now[b].0);
            } else {
                assert(now[a].0 == orig[a].0);
                assert(orig[a] == (exts@[a].0@, opt_str_view(exts@[a].1)));
            }
        }
    }
}

/// Represents a cookie sent in a `Cookie` header of an HTTP request.
#[derive(Debug, Hash)]
pub struct Cookie {
    /// Cookie name
    pub name: String,
    /// Cookie value as a character string
    pub value: String,
}

impl Cookie {
    /// `Request Cookie` constructor
    pub fn new(name: &str, value: &str) -> (r: Cookie)
        ensures
            r.name@ == name@,
            r.value@ == value@,
    {
        Cookie { name: name.to_owned(), value: value.to_owned() }
    }

    /// Parses a minimal `name=value` pair into a request cookie.
    pub fn from_str(s: &str) -> (r: Result<Cookie, ParseError>)
        ensures
            r matches Ok(c) ==> pair_spec(s@) == Ok::<(Seq<char>, Seq<char>), Seq<char>>(
                (c.name@, c.value@),
            ),
            r is Err <==> pair_spec(s@) is Err,
            r matches Err(e) ==> pair_spec(s@) == Err::<(Seq<char>, Seq<char>), Seq<char>>(e@),
    {
        match parse_cookie_value(s) {
            Ok((name, value)) => Ok(Cookie { name, value }),
            Err(e) => Err(e),
        }
    }

    /// Writes the cookie in the `name=value` form of a `Cookie` header.
    pub fn to_string(&self) -> (r: String)
        ensures
            r@ == self.name@ + "="@ + self.value@,
    {
        let mut out = self.name.clone();
        out.append("=");
        out.append(self.value.as_str());
        out
    }
}

/// Mathematical view of the attribute fields of a server cookie.
pub struct CookieModel {
    pub name: Seq<char>,
    pub value: Seq<char>,
    pub domain: Option<Seq<char>>,
    pub path: Option<Seq<char>>,
    pub expires: Option<date::DateVal>,
    pub max_age: Option<u64>,
    pub same_site: SameSiteValue,
    pub secure: bool,
    pub http_only: bool,
    pub extensions: Map<Seq<char>, Option<Seq<char>>>,
}

/// The cookie a freshly parsed name and value denote: every optional
/// attribute unset, same-site defaulting to `Lax`, both flags off and no
/// extensions.
pub open spec fn init_model(name: Seq<char>, value: Seq<char>) -> CookieModel {
    CookieModel {
        name,
        value,
        domain: None,
        path: None,
        expires: None,
        max_age: None,
        same_site: SameSiteValue::Lax,
        secure: false,
        http_only: false,
        extensions: Map::empty(),
    }
}

/// A domain value with one leading dot removed; the dot is informational
/// only.
pub open spec fn strip_leading_dot(d: Seq<char>) -> Seq<char> {
    if d.len() > 0 && d[0] == '.' {
        d.subrange(1, d.len() as int)
    } else {
        d
    }
}

/// How one classified directive changes the cookie under construction.
pub open spec fn apply_directive(m: CookieModel, d: directive::DirectiveView) -> CookieModel {
    match d {
        directive::DirectiveView::Expires(dv) => CookieModel { expires: Some(dv), ..m },
        directive::DirectiveView::MaxAge(n) => CookieModel { max_age: Some(n), ..m },
        directive::DirectiveView::Domain(s) => CookieModel {
            domain: Some(strip_leading_dot(s)),
            ..m
        },
        directive::DirectiveView::Path(s) => CookieModel { path: Some(s), ..m },
        directive::DirectiveView::SameSite(v) => CookieModel { same_site: v, ..m },
        directive::DirectiveView::Secure => CookieModel { secure: true, ..m },
        directive::DirectiveView::HttpOnly => CookieModel { http_only: true, ..m },
        directive::DirectiveView::Extension(k, v) => CookieModel {
            extensions: m.extensions.insert(k, v),
            ..m
        },
    }
}

/// Folds a run of attribute tokens into the cookie under construction,
/// stopping at the first token the classifier rejects.
pub open spec fn fold_directives(m: CookieModel, segs: Seq<Seq<char>>) -> Result<
    CookieModel,
    Seq<char>,
>
    decreases segs.len(),
{
    if segs.len() == 0 {
        Ok(m)
    } else {
        match directive::classify_spec(segs[0]) {
            Err(e) => Err(e),
            Ok(d) => fold_directives(apply_directive(m, d), segs.subrange(1, segs.len() as int)),
        }
    }
}

/// What parsing a `name=value` pair yields: the trimmed name and value, or
/// the message of the error that rejects the text. A pair needs an `=`, a
/// non-empty name and a non-empty value.
pub open spec fn pair_spec(s: Seq<char>) -> Result<(Seq<char>, Seq<char>), Seq<char>> {
    match text::find_ch(s, '=') {
        None => Err("Malformed HTTP cookie: "@ + s),
        Some(i) => {
            let key = text::trim_spec(s.subrange(0, i));
            let value = text::trim_spec(s.subrange(i + 1, s.len() as int));
            if value.len() == 0 {
                Err("Cookie value must not be empty"@)
            } else if key.len() == 0 {
                Err("Malformed HTTP cookie: "@ + s)
            } else {
                Ok((key, value))
            }
        },
    }
}

/// A token whose key — the part before `=`, or the whole token — names one of
/// the standard directives, once trimmed and lower-cased.
pub open spec fn directive_shaped(s: Seq<char>) -> bool {
    match text::find_ch(s, '=') {
        Some(i) => directive::is_known_key(text::lower_seq(text::trim_spec(s.subrange(0, i)))),
        None => directive::is_known_key(text::lower_seq(text::trim_spec(s))),
    }
}

/// What parsing a whole `Set-Cookie` header value yields: the cookie model,
/// or the message of the first error. The text splits at every `;`; the first
/// token must be the `name=value` pair — unless it is the only token and
/// names a standard directive, which means the cookie has no name — and every
/// later token goes through the classifier.
pub open spec fn set_cookie_spec(s: Seq<char>) -> Result<CookieModel, Seq<char>> {
    let segs = text::split_ch(s, ';');
    if segs.len() == 1 && directive_shaped(s) {
        Err("Cookie has not got name/value"@)
    } else {
        match pair_spec(segs[0]) {
            Err(e) => Err(e),
            Ok((k, v)) => fold_directives(init_model(k, v), segs.subrange(1, segs.len() as int)),
        }
    }
}

/// Chars-level worker behind [`parse_cookie_value`].
pub(crate) fn pair_from_chars(v: &[char]) -> (r: Result<(String, String), ParseError>)
    ensures
        r matches Ok(p) ==> pair_spec(v@) == Ok::<(Seq<char>, Seq<char>), Seq<char>>(
            (p.0@, p.1@),
        ),
        r is Err <==> pair_spec(v@) is Err,
        r matches Err(e) ==> pair_spec(v@) == Err::<(Seq<char>, Seq<char>), Seq<char>>(e@),
{
    let n = v.len();
    match text::find_char(v, '=') {
        None => Err(ParseError::from_prefix("Malformed HTTP cookie: ", v)),
        Some(i) => {
            proof {
                text::lemma_find_ch(v@, '=');
            }
            let raw_key = text::copy_range(v, 0, i);
            let key = text::trim_chars(raw_key.as_slice());
            let raw_value = text::copy_range(v, i + 1, n);
            let value = text::trim_chars(raw_value.as_slice());
            if value.len() == 0 {
                Err(ParseError::from_msg("Cookie value must not be empty"))
            } else if key.len() == 0 {
                Err(ParseError::from_prefix("Malformed HTTP cookie: ", v))
            } else {
                Ok((chars_to_string(key.as_slice()), chars_to_string(value.as_slice())))
            }
        },
    }
}

/// Parses a `name=value` pair: the name and value are trimmed of surrounding
/// whitespace, and both must be non-empty. Text without `=` is malformed.
pub fn parse_cookie_value(cookie: &str) -> (r: Result<(String, String), ParseError>)
    ensures
        r matches Ok(p) ==> pair_spec(cookie@) == Ok::<(Seq<char>, Seq<char>), Seq<char>>(
            (p.0@, p.1@),
        ),
        r is Err <==> pair_spec(cookie@) is Err,
        r matches Err(e) ==> pair_spec(cookie@) == Err::<(Seq<char>, Seq<char>), Seq<char>>(e@),
{
    let v = text::str_to_chars(cookie);
    pair_from_chars(v.as_slice())
}

/// Represents a cookie created from a `Set-Cookie` response header, or built
/// directly at server side with [`SetCookie::new`] and field updates.
#[derive(Debug, Clone)]
pub struct SetCookie {
    /// Cookie name
    pub name: String,
    /// Cookie value
    pub value: String,
    /// Cookie domain; by default the originating domain of the request
    pub domain: Option<String>,
    /// Cookie path; by default the request's path
    pub path: Option<String>,
    /// When the cookie expires; `None` means it never expires. `Max-Age`
    /// takes precedence over this value when both are set.
    pub expires: Option<date::HttpDate>,
    /// Lifetime in whole seconds from the moment the cookie was created
    pub max_age: Option<u64>,
    /// When the cookie was received or created, in seconds since the Unix
    /// epoch; `Max-Age` counts from here
    pub created: u64,
    /// Cookie same-site policy
    pub same_site: SameSiteValue,
    /// Cookie requires HTTPS
    pub secure: bool,
    /// Browsers do not allow script access to this cookie
    pub http_only: bool,
    /// Other `Set-Cookie` extension attributes, in order of first appearance,
    /// each key at most once
    pub extensions: Vec<(String, Option<String>)>,
}

impl SetCookie {
    /// The attribute fields as a mathematical value. The creation instant
    /// stands apart: it names a moment, not an attribute.
    pub open spec fn model(&self) -> CookieModel {
        CookieModel {
            name: self.name@,
            value: self.value@,
            domain: opt_str_view(self.domain),
            path: opt_str_view(self.path),
            expires: match self.expires {
                Some(d) => Some(d@),
                None => None,
            },
            max_age: self.max_age,
            same_site: self.same_site,
            secure: self.secure,
            http_only: self.http_only,
            extensions: ext_map(exts_view(self.extensions@)),
        }
    }

    /// Constructor with the mandatory fields `name` and `value`; every other
    /// attribute starts at its default, and the creation instant is read from
    /// the clock.
    pub fn new(name: &str, value: &str) -> (r: SetCookie)
        ensures
            r.model() == init_model(name@, value@),
            r.extensions@.len() == 0,
    {
        let r = SetCookie {
            name: name.to_owned(),
            value: value.to_owned(),
            domain: None,
            path: None,
            expires: None,
            max_age: None,
            created: now_epoch_seconds(),
            same_site: SameSiteValue::Lax,
            secure: false,
            http_only: false,
            extensions: Vec::new(),
        };
        proof {
            assert(exts_view(r.extensions@) =~= Seq::<(Seq<char>, Option<Seq<char>>)>::empty());
            assert(r.model() == init_model(name@, value@)) by {
                assert(r.model().extensions =~= init_model(name@, value@).extensions);
            }
        }
        r
    }

    /// Parses a whole `Set-Cookie` header value. The text splits at every
    /// `;`; the first token must be the `name=value` pair — unless it is the
    /// only token and names a standard directive, in which case the cookie
    /// has no name — and every later token is classified as a directive and
    /// folded into the cookie. The first rejected token aborts the parse.
    pub fn from_str(s: &str) -> (r: Result<SetCookie, ParseError>)
        ensures
            r matches Ok(c) ==> set_cookie_spec(s@) == Ok::<CookieModel, Seq<char>>(c.model())
                && ext_keys_unique(exts_view(c.extensions@)),
            r is Err <==> set_cookie_spec(s@) is Err,
            r matches Err(e) ==> set_cookie_spec(s@) == Err::<CookieModel, Seq<char>>(e@),
    {
        let v = text::str_to_chars(s);
        let segs = text::split_chars(v.as_slice(), ';');
        let ghost segsv = text::split_ch(s@, ';');
        let seg_count = segs.len();
        if seg_count == 1 {
            let shaped = match text::find_char(v.as_slice(), '=') {
                Some(i) => {
                    proof {
                        text::lemma_find_ch(v@, '=');
                    }
                    let raw_key = text::copy_range(v.as_slice(), 0, i);
                    let trimmed = text::trim_chars(raw_key.as_slice());
                    let key = text::lower_chars(trimmed.as_slice());
                    directive::known_key(key.as_slice())
                },
                None => {
                    let trimmed = text::trim_chars(v.as_slice());
                    let word = text::lower_chars(trimmed.as_slice());
                    directive::known_key(word.as_slice())
                },
            };
            if shaped {
                return Err(ParseError::from_msg("Cookie has not got name/value"));
            }
        }
        let first = &segs[0];
        proof {
            assert(first@ =~= segs.deep_view()[0]);
            assert(first@ == segsv[0]);
        }
        let (name, value) = match pair_from_chars(first.as_slice()) {
            Err(e) => {
                return Err(e);
            },
            Ok(p) => p,
        };
        let mut cookie = SetCookie::new(name.as_str(), value.as_str());
        proof {
            assert(set_cookie_spec(s@) == fold_directives(
                cookie.model(),
                segsv.subrange(1, segsv.len() as int),
            ));
        }
        let mut idx: usize = 1;
        while idx < seg_count
            invariant
                1 <= idx <= seg_count,
                seg_count == segs@.len(),
                segs.deep_view() == segsv,
                ext_keys_unique(exts_view(cookie.extensions@)),
                set_cookie_spec(s@) == fold_directives(
                    cookie.model(),
                    segsv.subrange(idx as int, segsv.len() as int),
                ),
            decreases seg_count - idx,
        {
            let ghost rem = segsv.subrange(idx as int, segsv.len() as int);
            let seg = &segs[idx];
            proof {
                assert(seg@ =~= segs.deep_view()[idx as int]);
                assert(rem[0] == segsv[idx as int]);
                assert(rem.subrange(1, rem.len() as int) =~= segsv.subrange(
                    idx + 1,
                    segsv.len() as int,
                ));
            }
            match CookieDirective::from_chars(seg.as_slice()) {
                Err(e) => {
                    return Err(e);
                },
                Ok(d) => {
                    let ghost pre = cookie.model();
                    let ghost dv = d@;
                    match d {
                        CookieDirective::Expires(date) => {
                            cookie.expires = Some(date);
                        },
                        CookieDirective::MaxAge(seconds) => {
                            cookie.max_age = Some(seconds);
                        },
                        CookieDirective::Domain(url) => {
                            let uc = text::str_to_chars(url.as_str());
                            let stripped = if uc.len() > 0 && uc[0] == '.' {
                                let tail = text::copy_range(uc.as_slice(), 1, uc.len());
                                chars_to_string(tail.as_slice())
                            } else {
                                url
                            };
                            cookie.domain = Some(stripped);
                        },
                        CookieDirective::Path(path) => {
                            cookie.path = Some(path);
                        },
                        CookieDirective::SameSite(val) => {
                            cookie.same_site = val;
                        },
                        CookieDirective::Secure => {
                            cookie.secure = true;
                        },
                        CookieDirective::HttpOnly => {
                            cookie.http_only = true;
                        },
                        CookieDirective::Extension(ext_name, ext_value) => {
                            ext_insert(&mut cookie.extensions, ext_name, ext_value);
                        },
                    }
                    proof {
                        assert(cookie.model() == apply_directive(pre, dv)) by {
                            assert(cookie.model().extensions =~= apply_directive(
                                pre,
                                dv,
                            ).extensions);
                        }
                    }
                    idx = idx + 1;
                },
            }
        }
        proof {
            assert(segsv.subrange(idx as int, segsv.len() as int) =~= Seq::<Seq<char>>::empty());
        }
        Ok(cookie)
    }
}

/// The path-match rule: the request path is covered by the cookie path when
/// the cookie path is a prefix of it and the prefix ends at a path boundary —
/// the two are identical, or the cookie path ends with `/`, or the request
/// path goes on with `/`.
pub open spec fn path_match(cookie_path: Seq<char>, req_path: Seq<char>) -> bool {
    &&& req_path.len() >= cookie_path.len()
    &&& req_path.subrange(0, cookie_path.len() as int) == cookie_path
    &&& (req_path.len() == cookie_path.len() || cookie_path[cookie_path.len() - 1] == '/'
        || req_path[cookie_path.len() as int] == '/')
}

/// The domain-match rule: the request domain equals the cookie domain, or
/// ends with it right after a `.` — that is, it lies under the cookie domain
/// as a subdomain. A domain that merely ends with the same letters, such as
/// `xb.a` against `b.a`, does not match.
pub open spec fn domain_match(cookie_domain: Seq<char>, req_domain: Seq<char>) -> bool {
    ||| req_domain == cookie_domain
    ||| (req_domain.len() > cookie_domain.len() && req_domain.subrange(
        req_domain.len() - cookie_domain.len(),
        req_domain.len() as int,
    ) == cookie_domain && req_domain[req_domain.len() - cookie_domain.len() - 1] == '.')
}

impl SetCookie {
    /// The effective cookie path: the `path` attribute, or `/` when unset.
    pub open spec fn spec_path(&self) -> Seq<char> {
        match self.path {
            Some(p) => p@,
            None => "/"@,
        }
    }

    /// Domain-match against the cookie's domain; false when no domain is set.
    pub open spec fn spec_domain_match(&self, req_domain: Seq<char>) -> bool {
        match self.domain {
            Some(d) => domain_match(d@, req_domain),
            None => false,
        }
    }

    /// When the cookie stops being sent: the creation instant plus `Max-Age`
    /// when that is set — `Max-Age` always takes precedence, and a sum beyond
    /// the largest representable second count stops there — else the
    /// `Expires` instant, read as the creation instant when it lies before
    /// the Unix epoch; a cookie with neither attribute never expires.
    pub open spec fn expire_time_spec(&self) -> Option<int> {
        match self.max_age {
            Some(secs) => Some(
                if self.created + secs <= u64::MAX {
                    self.created + secs
                } else {
                    u64::MAX as int
                },
            ),
            None => match self.expires {
                Some(d) => {
                    let t = date::epoch_seconds_of(
                        d@.year,
                        d@.month,
                        d@.day,
                        d@.hour,
                        d@.minute,
                        d@.second,
                    );
                    if t >= 0 {
                        Some(t)
                    } else {
                        Some(self.created as int)
                    }
                },
                None => None,
            },
        }
    }

    /// Whether the cookie reads as expired against the given instant: its
    /// expiry time, if it has one, lies strictly before that instant.
    pub open spec fn expired_at_spec(&self, now: int) -> bool {
        match self.expire_time_spec() {
            Some(t) => t < now,
            None => false,
        }
    }

    /// Whether the cookie may be attached to a request: a domain must be set;
    /// a secure cookie needs a secure request; under `Strict` the request
    /// domain must equal the cookie domain exactly; under `Lax` it must
    /// domain-match; under `None` the request itself must be secure; and the
    /// request path must path-match.
    pub open spec fn spec_use_in_request(
        &self,
        req_domain: Seq<char>,
        req_path: Seq<char>,
        secure: bool,
    ) -> bool {
        &&& self.domain is Some
        &&& (self.secure ==> secure)
        &&& (self.same_site == SameSiteValue::Strict ==> match self.domain {
            Some(d) => d@ == req_domain,
            None => false,
        })
        &&& (self.same_site == SameSiteValue::Lax ==> self.spec_domain_match(req_domain))
        &&& (self.same_site == SameSiteValue::NoneValue ==> secure)
        &&& path_match(self.spec_path(), req_path)
    }

    /// Generates a [`Cookie`] to be used in an HTTP request.
    pub fn to_cookie(&self) -> (r: Cookie)
        ensures
            r.name@ == self.name@,
            r.value@ == self.value@,
    {
        Cookie { name: self.name.clone(), value: self.value.clone() }
    }

    /// Gets the cookie path, or the default value `/` when none is set.
    pub fn path_or_default(&self) -> (r: &str)
        ensures
            r@ == self.spec_path(),
    {
        match &self.path {
            Some(p) => p.as_str(),
            None => "/",
        }
    }

    /// Gets the instant when the cookie expires, in seconds since the Unix
    /// epoch, or `None` when it never expires. `Max-Age` counts from the
    /// creation instant and takes precedence over `Expires`.
    pub fn expire_time(&self) -> (r: Option<u64>)
        ensures
            match r {
                Some(t) => self.expire_time_spec() == Some(t as int),
                None => self.expire_time_spec() is None,
            },
    {
        match self.max_age {
            Some(secs) => Some(self.created.saturating_add(secs)),
            None => match &self.expires {
                Some(d) => {
                    let t = d.epoch_seconds();
                    if t >= 0 {
                        Some(t as u64)
                    } else {
                        Some(self.created)
                    }
                },
                None => None,
            },
        }
    }

    /// Checks whether the cookie has expired by the given instant, in seconds
    /// since the Unix epoch.
    pub fn expired_at(&self, now: u64) -> (r: bool)
        ensures
            r == self.expired_at_spec(now as int),
    {
        match self.expire_time() {
            Some(t) => t < now,
            None => false,
        }
    }

    /// Checks whether the cookie has expired against the wall clock. What the
    /// clock reads is no function of the cookie; all that holds of every
    /// outcome is that a cookie without an expiry never reads as expired.
    pub fn expired(&self) -> (r: bool)
        ensures
            self.expire_time_spec() is None ==> r == false,
    {
        let now = now_epoch_seconds();
        self.expired_at(now)
    }

    /// Checks whether the request path matches the cookie path, following the
    /// path-match rule; the effective cookie path defaults to `/`.
    pub fn use_in_request_path(&self, path: &str) -> (r: bool)
        requires
            self.path matches Some(p) ==> p@.len() > 0,
        ensures
            r == path_match(self.spec_path(), path@),
    {
        proof {
            reveal_strlit("/");
        }
        let cp = text::str_to_chars(self.path_or_default());
        let rp = text::str_to_chars(path);
        if !text::has_prefix(rp.as_slice(), cp.as_slice()) {
            return false;
        }
        if rp.len() == cp.len() {
            return true;
        }
        if cp[cp.len() - 1] == '/' {
            return true;
        }
        if rp[cp.len()] == '/' {
            return true;
        }
        false
    }

    /// Checks whether the cookie can be sent to the request domain, following
    /// the domain-match rule. When the `domain` field is unset this always
    /// returns false: assign the originating domain first.
    pub fn use_in_request_domain(&self, request_domain: &str) -> (r: bool)
        ensures
            r == self.spec_domain_match(request_domain@),
    {
        match &self.domain {
            None => false,
            Some(d) => {
                let dc = text::str_to_chars(d.as_str());
                let rq = text::str_to_chars(request_domain);
                if text::chars_eq(rq.as_slice(), dc.as_slice()) {
                    return true;
                }
                if rq.len() > dc.len() && text::has_suffix(rq.as_slice(), dc.as_slice()) {
                    if rq[rq.len() - dc.len() - 1] == '.' {
                        return true;
                    }
                }
                false
            },
        }
    }

    /// Checks whether the cookie can be used on a request to the given
    /// domain and path, over HTTPS when `secure` is set. A cookie whose
    /// `domain` field is unset never applies: assign the originating domain
    /// first.
    pub fn use_in_request(&self, request_domain: &str, request_path: &str, secure: bool) -> (r:
        bool)
        requires
            self.path matches Some(p) ==> p@.len() > 0,
        ensures
            r == self.spec_use_in_request(request_domain@, request_path@, secure),
    {
        if self.domain.is_none() {
            return false;
        }
        if self.secure && !secure {
            return false;
        }
        if self.same_site == SameSiteValue::Strict {
            match &self.domain {
                Some(d) => {
                    if !text::str_eq(d.as_str(), request_domain) {
                        return false;
                    }
                },
                None => {},
            }
        }
        if self.same_site == SameSiteValue::Lax && !self.use_in_request_domain(request_domain) {
            return false;
        }
        if self.same_site == SameSiteValue::NoneValue && !secure {
            return false;
        }
        self.use_in_request_path(request_path)
    }
}

/// The rendering of one extension attribute, with its leading separator.
pub open spec fn render_ext(p: (Seq<char>, Option<Seq<char>>)) -> Seq<char> {
    match p.1 {
        Some(v) => ", "@ + p.0 + "="@ + v,
        None => ", "@ + p.0,
    }
}

/// The rendering of a run of extension attributes, in order.
pub open spec fn render_exts(s: Seq<(Seq<char>, Option<Seq<char>>)>) -> Seq<char>
    decreases s.len(),
{
    if s.len() == 0 {
        Seq::empty()
    } else {
        render_ext(s[0]) + render_exts(s.subrange(1, s.len() as int))
    }
}

impl SetCookie {
    /// The `Set-Cookie` header rendering: `name=value`, then each attribute
    /// that is set, in a fixed order. `Max-Age` and `Expires` are mutually
    /// exclusive in the output, `Max-Age` winning when both are set, and a
    /// `Lax` same-site policy, being the default, is not written.
    pub open spec fn render_spec(&self) -> Seq<char> {
        self.name@ + "="@ + self.value@ + (match self.domain {
            Some(d) => ", Domain="@ + d@,
            None => Seq::<char>::empty(),
        }) + (match self.path {
            Some(p) => ", Path="@ + p@,
            None => Seq::<char>::empty(),
        }) + (match self.max_age {
            Some(m) => ", Max-Age="@ + text::dec_str(m as int),
            None => match self.expires {
                Some(d) => ", Expires="@ + date::render_date(d@),
                None => Seq::<char>::empty(),
            },
        }) + (match self.same_site {
            SameSiteValue::NoneValue => ", SameSite=None"@,
            SameSiteValue::Strict => ", SameSite=Strict"@,
            SameSiteValue::Lax => Seq::<char>::empty(),
        }) + (if self.secure {
            ", Secure"@
        } else {
            Seq::<char>::empty()
        }) + (if self.http_only {
            ", HttpOnly"@
        } else {
            Seq::<char>::empty()
        }) + render_exts(exts_view(self.extensions@))
    }

    /// Writes the cookie in `Set-Cookie` header form.
    pub fn to_string(&self) -> (r: String)
        ensures
            r@ == self.render_spec(),
    {
        let mut out: Vec<char> = Vec::new();
        text::push_str_chars(&mut out, self.name.as_str());
        text::push_str_chars(&mut out, "=");
        text::push_str_chars(&mut out, self.value.as_str());
        let ghost part1 = self.name@ + "="@ + self.value@;
        proof {
            assert(out@ =~= part1);
        }
        match &self.domain {
            Some(d) => {
                text::push_str_chars(&mut out, ", Domain=");
                text::push_str_chars(&mut out, d.as_str());
            },
            None => {},
        }
        let ghost part2 = part1 + (match &self.domain {
            Some(d) => ", Domain="@ + d@,
            None => Seq::<char>::empty(),
        });
        proof {
            assert(out@ =~= part2);
        }
        match &self.path {
            Some(p) => {
                text::push_str_chars(&mut out, ", Path=");
                text::push_str_chars(&mut out, p.as_str());
            },
            None => {},
        }
        let ghost part3 = part2 + (match &self.path {
            Some(p) => ", Path="@ + p@,
            None => Seq::<char>::empty(),
        });
        proof {
            assert(out@ =~= part3);
        }
        match self.max_age {
            Some(m) => {
                text::push_str_chars(&mut out, ", Max-Age=");
                text::push_dec(m, &mut out);
            },
            None => {
                match &self.expires {
                    Some(d) => {
                        text::push_str_chars(&mut out, ", Expires=");
                        date::push_date(d, &mut out);
                    },
                    None => {},
                }
            },
        }
        let ghost part4 = part3 + (match self.max_age {
            Some(m) => ", Max-Age="@ + text::dec_str(m as int),
            None => match self.expires {
                Some(d) => ", Expires="@ + date::render_date(d@),
                None => Seq::<char>::empty(),
            },
        });
        proof {
            assert(out@ =~= part4);
        }
        match self.same_site {
            SameSiteValue::NoneValue => text::push_str_chars(&mut out, ", SameSite=None"),
            SameSiteValue::Strict => text::push_str_chars(&mut out, ", SameSite=Strict"),
            SameSiteValue::Lax => {},
        }
        if self.secure {
            text::push_str_chars(&mut out, ", Secure");
        }
        if self.http_only {
            text::push_str_chars(&mut out, ", HttpOnly");
        }
        let ghost part7 = part4 + (match self.same_site {
            SameSiteValue::NoneValue => ", SameSite=None"@,
            SameSiteValue::Strict => ", SameSite=Strict"@,
            SameSiteValue::Lax => Seq::<char>::empty(),
        }) + (if self.secure {
            ", Secure"@
        } else {
            Seq::<char>::empty()
        }) + (if self.http_only {
            ", HttpOnly"@
        } else {
            Seq::<char>::empty()
        });
        proof {
            assert(out@ =~= part7);
        }
        let ghost ev = exts_view(self.extensions@);
        proof {
            assert(ev.subrange(0, ev.len() as int) =~= ev);
            lemma_exts_view(self.extensions@);
        }
        let count = self.extensions.len();
        let mut i: usize = 0;
        while i < count
            invariant
                i <= count,
                count == self.extensions@.len(),
                ev == exts_view(self.extensions@),
                part7 + render_exts(ev) == out@ + render_exts(
                    ev.subrange(i as int, ev.len() as int),
                ),
            decreases count - i,
        {
            let ghost rem = ev.subrange(i as int, ev.len() as int);
            proof {
                lemma_exts_view(self.extensions@);
                assert(rem[0] == ev[i as int]);
                assert(rem.subrange(1, rem.len() as int) =~= ev.subrange(i + 1, ev.len() as int));
            }
            let pair = &self.extensions[i];
            text::push_str_chars(&mut out, ", ");
            text::push_str_chars(&mut out, pair.0.as_str());
            match &pair.1 {
                Some(val) => {
                    text::push_str_chars(&mut out, "=");
                    text::push_str_chars(&mut out, val.as_str());
                },
                None => {},
            }
            proof {
                assert(render_exts(rem) == render_ext(ev[i as int]) + render_exts(
                    ev.subrange(i + 1, ev.len() as int),
                ));
                assert(part7 + render_exts(ev) =~= out@ + render_exts(
                    ev.subrange(i + 1, ev.len() as int),
                ));
            }
            i = i + 1;
        }
        proof {
            assert(ev.subrange(count as int, ev.len() as int) =~= Seq::<(
                Seq<char>,
                Option<Seq<char>>,
            )>::empty());
            assert(out@ =~= self.render_spec());
        }
        chars_to_string(out.as_slice())
    }
}

impl PartialEq for SetCookie {
    /// Two server cookies are the same cookie when they agree on name, value,
    /// domain and path; the remaining attributes do not take part in
    /// identity.
    fn eq(&self, other: &Self) -> (r: bool) {
        self.name == other.name && self.value == other.value && opt_str_eq(
            &self.domain,
            &other.domain,
        ) && opt_str_eq(&self.path, &other.path)
    }
}

impl Eq for SetCookie {

}

impl vstd::std_specs::cmp::PartialEqSpecImpl for SetCookie {
    open spec fn obeys_eq_spec() -> bool {
        true
    }

    open spec fn eq_spec(&self, other: &Self) -> bool {
        self.name@ == other.name@ && self.value@ == other.value@ && opt_str_view(self.domain)
            == opt_str_view(other.domain) && opt_str_view(self.path) == opt_str_view(other.path)
    }
}

impl PartialEq for Cookie {
    /// Two request cookies are equal when they agree on name and value.
    fn eq(&self, other: &Self) -> (r: bool) {
        self.name == other.name && self.value == other.value
    }
}

impl vstd::std_specs::cmp::PartialEqSpecImpl for Cookie {
    open spec fn obeys_eq_spec() -> bool {
        true
    }

    open spec fn eq_spec(&self, other: &Self) -> bool {
        self.name@ == other.name@ && self.value@ == other.value@
    }
}

/// True when the two optional strings hold the same text, or both are unset.
fn opt_str_eq(a: &Option<String>, b: &Option<String>) -> (r: bool)
    ensures
        r == (opt_str_view(*a) == opt_str_view(*b)),
{
    match (a, b) {
        (None, None) => true,
        (Some(x), Some(y)) => text::str_eq(x.as_str(), y.as_str()),
        _ => false,
    }
}

/// Relies on std's `SystemTime::now` and `SystemTime::duration_since`: the
/// wall-clock time at the call, in whole seconds since the Unix epoch. A
/// clock standing before the epoch reads as zero. Nothing can be promised of
/// a clock value.
#[verifier::external_body]
fn now_epoch_seconds() -> u64 {
    match std::time::SystemTime::now().duration_since(std::time::UNIX_EPOCH) {
        Ok(d) => d.as_secs(),
        Err(_) => 0,
    }
}

} // verus!
