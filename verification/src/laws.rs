//! Laws of the library, each proved once and for all inputs: what a minimal
//! `name=value` header parses to, that `SameSite` is read without regard to
//! case, that `Max-Age` always takes precedence over `Expires`, the two-digit
//! year pivot, and that the root cookie path covers every request path.

use vstd::prelude::*;

use crate::date::DateVal;
use crate::directive::{classify_spec, is_known_key, DirectiveView};
use crate::rfc_850::{corrected_year, rfc850_date_spec};
use crate::text::{
    all_digits, dec_val, find_ch, is_space, lemma_dec_val_2, lemma_find_ch_is, lemma_find_ch_none,
    lemma_lower_trim, lemma_split_ch_first, lemma_trim_id, lower_seq, split_ch, trim_spec,
};
use crate::{
    init_model, pair_spec, path_match, set_cookie_spec, CookieModel, SameSiteValue, SetCookie,
};

verus! {

/// Parsing a plain `name=value` header — the name and value already trimmed,
/// free of `;`, the name free of `=` and not the name of a standard directive
/// — succeeds, and yields that name and value with every optional attribute
/// unset, same-site defaulting to `Lax`, both flags off and no extensions.
pub proof fn lemma_minimal_pair_parse(name: Seq<char>, value: Seq<char>)
    requires
        name.len() > 0,
        value.len() > 0,
        forall|i: int| 0 <= i < name.len() ==> name[i] != '=' && name[i] != ';',
        forall|i: int| 0 <= i < value.len() ==> value[i] != ';',
        !is_space(name[0]) && !is_space(name[name.len() - 1]),
        !is_space(value[0]) && !is_space(value[value.len() - 1]),
        !is_known_key(lower_seq(trim_spec(name))),
    ensures
        set_cookie_spec(name + seq!['='] + value) == Ok::<CookieModel, Seq<char>>(
            init_model(name, value),
        ),
{
    let s = name + seq!['='] + value;
    let nl = name.len() as int;
    assert forall|j: int| 0 <= j < s.len() implies s[j] != ';' by {
        if j < nl {
            assert(s[j] == name[j]);
        } else if j > nl {
            assert(s[j] == value[j - nl - 1]);
        }
    }
    lemma_find_ch_none(s, ';');
    lemma_split_ch_first(s, ';');
    let segs = split_ch(s, ';');
    assert(segs == seq![s]);
    assert(s[nl] == '=');
    assert forall|j: int| 0 <= j < nl implies s[j] != '=' by {
        assert(s[j] == name[j]);
    }
    lemma_find_ch_is(s, '=', nl);
    assert(s.subrange(0, nl) =~= name);
    assert(s.subrange(nl + 1, s.len() as int) =~= value);
    lemma_trim_id(name);
    lemma_trim_id(value);
    assert(!crate::directive_shaped(s));
    assert(pair_spec(s) == Ok::<(Seq<char>, Seq<char>), Seq<char>>((name, value)));
    assert(segs.subrange(1, segs.len() as int) =~= Seq::<Seq<char>>::empty());
    assert(crate::fold_directives(init_model(name, value), segs.subrange(1, segs.len() as int))
        == Ok::<CookieModel, Seq<char>>(init_model(name, value)));
}

/// The `SameSite` directive is read without regard to case: two attribute
/// tokens that agree up to ASCII case, one of which classifies as a
/// `SameSite` directive, classify as the same directive.
pub proof fn lemma_samesite_case_insensitive(a: Seq<char>, b: Seq<char>, v: SameSiteValue)
    requires
        lower_seq(a) == lower_seq(b),
        classify_spec(a) == Ok::<DirectiveView, Seq<char>>(DirectiveView::SameSite(v)),
    ensures
        classify_spec(b) == Ok::<DirectiveView, Seq<char>>(DirectiveView::SameSite(v)),
{
    crate::text::lemma_lower_seq(a);
    crate::text::lemma_lower_seq(b);
    assert(a.len() == b.len());
    assert(find_ch(b, '=') == find_ch(a, '=')) by {
        lemma_find_eq_lower(a, b);
    }
    crate::text::lemma_find_ch(a, '=');
    match find_ch(a, '=') {
        None => {
            assert(false);
        },
        Some(i) => {
            let key_a = lower_seq(trim_spec(a.subrange(0, i)));
            let key_b = lower_seq(trim_spec(b.subrange(0, i)));
            assert(key_b == key_a) by {
                lemma_lower_trim(a.subrange(0, i));
                lemma_lower_trim(b.subrange(0, i));
                assert(lower_seq(a.subrange(0, i)) =~= lower_seq(a).subrange(0, i));
                assert(lower_seq(b.subrange(0, i)) =~= lower_seq(b).subrange(0, i));
                lemma_lower_idempotent(trim_spec(lower_seq(a).subrange(0, i)));
            }
            let va = trim_spec(a.subrange(i + 1, a.len() as int));
            let vb = trim_spec(b.subrange(i + 1, b.len() as int));
            assert(lower_seq(vb) == lower_seq(va) && vb.len() == va.len()) by {
                lemma_lower_trim(a.subrange(i + 1, a.len() as int));
                lemma_lower_trim(b.subrange(i + 1, b.len() as int));
                assert(lower_seq(a.subrange(i + 1, a.len() as int)) =~= lower_seq(a).subrange(
                    i + 1,
                    a.len() as int,
                ));
                assert(lower_seq(b.subrange(i + 1, b.len() as int)) =~= lower_seq(b).subrange(
                    i + 1,
                    b.len() as int,
                ));
                crate::text::lemma_lower_seq(va);
                crate::text::lemma_lower_seq(vb);
            }
        },
    }
}

/// Positions of `=` agree on two sequences that agree up to ASCII case,
/// because lower-casing never makes or unmakes an `=`.
pub proof fn lemma_find_eq_lower(a: Seq<char>, b: Seq<char>)
    requires
        lower_seq(a) == lower_seq(b),
    ensures
        find_ch(b, '=') == find_ch(a, '='),
{
    crate::text::lemma_lower_seq(a);
    crate::text::lemma_lower_seq(b);
    assert(a.len() == b.len());
    assert forall|j: int| 0 <= j < a.len() implies (a[j] == '=') == (b[j] == '=') by {
        crate::text::lemma_lower_seq(a);
        crate::text::lemma_lower_seq(b);
        assert(lower_seq(a)[j] == lower_seq(b)[j]);
        assert(lower_seq(a)[j] == crate::text::lower_char(a[j]));
        assert(lower_seq(b)[j] == crate::text::lower_char(b[j]));
        assert(crate::text::lower_char(a[j]) == crate::text::lower_char(b[j]));
        if a[j] == '=' {
            assert(crate::text::lower_char(b[j]) == '=');
        }
        if b[j] == '=' {
            assert(crate::text::lower_char(a[j]) == '=');
        }
    }
    crate::text::lemma_find_ch(a, '=');
    match find_ch(a, '=') {
        None => {
            lemma_find_ch_none(b, '=');
        },
        Some(i) => {
            lemma_find_ch_is(b, '=', i);
        },
    }
}

/// Lower-casing twice is lower-casing once.
pub proof fn lemma_lower_idempotent(s: Seq<char>)
    ensures
        lower_seq(lower_seq(s)) == lower_seq(s),
{
    crate::text::lemma_lower_seq(s);
    crate::text::lemma_lower_seq(lower_seq(s));
    assert(lower_seq(lower_seq(s)) =~= lower_seq(s));
}

/// `Max-Age` precedence: whenever `Max-Age` is set, the expiry instant is the
/// creation instant plus it, whatever `Expires` holds. The one excluded case
/// is a sum beyond the largest representable second count, where the expiry
/// stops at that limit.
pub proof fn lemma_max_age_precedence(c: &SetCookie, secs: u64)
    requires
        c.max_age == Some(secs),
        c.created + secs <= u64::MAX,
    ensures
        c.expire_time_spec() == Some(c.created + secs as int),
{
}

/// The two-digit-year pivot: in the legacy date grammar, a year written with
/// two digits lands in 2000 through 2069 when it reads below 70, and in 1970
/// through 1999 otherwise.
pub proof fn lemma_two_digit_year_rule(s: Seq<char>, i: int, d: DateVal)
    requires
        find_ch(s, ',') == Some(i),
        s.len() == i + 24,
        rfc850_date_spec(s) == Some(d),
    ensures
        ({
            let yy = dec_val(s.subrange(i + 9, i + 11));
            &&& 0 <= yy < 100
            &&& d.year == corrected_year(yy)
            &&& (yy < 70 ==> d.year == 2000 + yy)
            &&& (70 <= yy ==> d.year == 1900 + yy)
        }),
{
    crate::text::lemma_find_ch(s, ',');
    let rest = s.subrange(i + 1, s.len() as int);
    assert(rest.len() == 23);
    let ydigits = rest.subrange(8, 10);
    assert(rest.subrange(8, 8 + (rest.len() - 21)) =~= ydigits);
    assert(all_digits(ydigits));
    lemma_dec_val_2(ydigits);
    assert(ydigits =~= s.subrange(i + 9, i + 11));
}

/// The root cookie path `/` covers every request path that starts with `/`.
pub proof fn lemma_root_path_matches(req: Seq<char>)
    requires
        req.len() > 0,
        req[0] == '/',
    ensures
        path_match("/"@, req),
{
    reveal_strlit("/");
    assert(req.subrange(0, 1) =~= "/"@);
}

} // verus!

