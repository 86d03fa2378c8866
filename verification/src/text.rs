//! Character-level utilities shared by the cookie and date parsers: ASCII
//! whitespace trimming, ASCII lower-casing, first-occurrence search, splitting
//! on a separator, decimal numbers, and conversions between `&str`, `Vec<char>`
//! and `String`.

use vstd::prelude::*;

verus! {

/// ASCII whitespace, the characters stripped from the ends of cookie tokens.
pub open spec fn is_space(c: char) -> bool {
    c == ' ' || c == '\t' || c == '\n' || c == '\r' || c == '\x0c'
}

/// Runtime check for [`is_space`].
pub fn is_space_char(c: char) -> (r: bool)
    ensures
        r == is_space(c),
{
    c == ' ' || c == '\t' || c == '\n' || c == '\r' || c == '\x0c'
}

/// ASCII lower-casing of a single character; everything outside `A`..`Z` is
/// left unchanged.
pub open spec fn lower_char(c: char) -> char {
    match c {
        'A' => 'a',
        'B' => 'b',
        'C' => 'c',
        'D' => 'd',
        'E' => 'e',
        'F' => 'f',
        'G' => 'g',
        'H' => 'h',
        'I' => 'i',
        'J' => 'j',
        'K' => 'k',
        'L' => 'l',
        'M' => 'm',
        'N' => 'n',
        'O' => 'o',
        'P' => 'p',
        'Q' => 'q',
        'R' => 'r',
        'S' => 's',
        'T' => 't',
        'U' => 'u',
        'V' => 'v',
        'W' => 'w',
        'X' => 'x',
        'Y' => 'y',
        'Z' => 'z',
        _ => c,
    }
}

/// Runtime computation of [`lower_char`].
pub fn lower_char_exec(c: char) -> (r: char)
    ensures
        r == lower_char(c),
{
    match c {
        'A' => 'a',
        'B' => 'b',
        'C' => 'c',
        'D' => 'd',
        'E' => 'e',
        'F' => 'f',
        'G' => 'g',
        'H' => 'h',
        'I' => 'i',
        'J' => 'j',
        'K' => 'k',
        'L' => 'l',
        'M' => 'm',
        'N' => 'n',
        'O' => 'o',
        'P' => 'p',
        'Q' => 'q',
        'R' => 'r',
        'S' => 's',
        'T' => 't',
        'U' => 'u',
        'V' => 'v',
        'W' => 'w',
        'X' => 'x',
        'Y' => 'y',
        'Z' => 'z',
        _ => c,
    }
}

/// ASCII lower-casing of a whole sequence.
pub open spec fn lower_seq(s: Seq<char>) -> Seq<char> {
    s.map(|_i: int, c: char| lower_char(c))
}

/// Lower-cases every character of `v`.
pub fn lower_chars(v: &[char]) -> (r: Vec<char>)
    ensures
        r@ == lower_seq(v@),
{
    let mut r: Vec<char> = Vec::new();
    let mut i: usize = 0;
    while i < v.len()
        invariant
            i <= v@.len(),
            r@.len() == i,
            forall|j: int| 0 <= j < i ==> r@[j] == lower_char(v@[j]),
        decreases v@.len() - i,
    {
        r.push(lower_char_exec(v[i]));
        i = i + 1;
    }
    proof {
        assert(r@ =~= lower_seq(v@));
    }
    r
}

/// Pointwise description of [`lower_seq`].
pub proof fn lemma_lower_seq(s: Seq<char>)
    ensures
        lower_seq(s).len() == s.len(),
        forall|i: int|
            #![trigger lower_seq(s)[i]]
            0 <= i < s.len() ==> lower_seq(s)[i] == lower_char(s[i]),
{
}

/// Lower-casing touches no whitespace character.
pub proof fn lemma_lower_space(c: char)
    ensures
        is_space(lower_char(c)) == is_space(c),
{
}

/// Lower-casing and trimming commute: the whitespace at the ends is the same
/// either way.
pub proof fn lemma_lower_trim(s: Seq<char>)
    ensures
        lower_seq(trim_spec(s)) == trim_spec(lower_seq(s)),
{
    lemma_lower_trim_start(s);
    lemma_lower_trim_end(trim_start_spec(s));
}

/// Lower-casing commutes with trimming at the front.
pub proof fn lemma_lower_trim_start(s: Seq<char>)
    ensures
        lower_seq(trim_start_spec(s)) == trim_start_spec(lower_seq(s)),
    decreases s.len(),
{
    lemma_lower_seq(s);
    if s.len() > 0 && is_space(s[0]) {
        lemma_lower_space(s[0]);
        let tail = s.subrange(1, s.len() as int);
        lemma_lower_trim_start(tail);
        lemma_lower_seq(tail);
        assert(lower_seq(tail) =~= lower_seq(s).subrange(1, s.len() as int));
    } else if s.len() > 0 {
        lemma_lower_space(s[0]);
        assert(lower_seq(trim_start_spec(s)) =~= trim_start_spec(lower_seq(s)));
    } else {
        assert(lower_seq(trim_start_spec(s)) =~= trim_start_spec(lower_seq(s)));
    }
}

/// Lower-casing commutes with trimming at the back.
pub proof fn lemma_lower_trim_end(s: Seq<char>)
    ensures
        lower_seq(trim_end_spec(s)) == trim_end_spec(lower_seq(s)),
    decreases s.len(),
{
    lemma_lower_seq(s);
    if s.len() > 0 && is_space(s[s.len() - 1]) {
        lemma_lower_space(s[s.len() - 1]);
        let head = s.subrange(0, s.len() - 1);
        lemma_lower_trim_end(head);
        lemma_lower_seq(head);
        assert(lower_seq(head) =~= lower_seq(s).subrange(0, s.len() - 1));
    } else if s.len() > 0 {
        lemma_lower_space(s[s.len() - 1]);
        assert(lower_seq(trim_end_spec(s)) =~= trim_end_spec(lower_seq(s)));
    } else {
        assert(lower_seq(trim_end_spec(s)) =~= trim_end_spec(lower_seq(s)));
    }
}

/// Decimal digit test.
pub open spec fn is_digit(c: char) -> bool {
    '0' <= c && c <= '9'
}

/// Numeric value of a decimal digit.
pub open spec fn digit_val(c: char) -> int {
    c as int - '0' as int
}

/// Runtime check for [`is_digit`].
pub fn is_digit_char(c: char) -> (r: bool)
    ensures
        r == is_digit(c),
{
    '0' <= c && c <= '9'
}

/// Runtime computation of [`digit_val`] for an actual digit.
pub fn digit_val_char(c: char) -> (r: u8)
    requires
        is_digit(c),
    ensures
        r == digit_val(c),
        r < 10,
{
    (c as u8) - ('0' as u8)
}

/// Index of the first occurrence of `c` in `s`, if any.
pub open spec fn find_ch(s: Seq<char>, c: char) -> Option<int>
    decreases s.len(),
{
    if s.len() == 0 {
        None
    } else if s[0] == c {
        Some(0)
    } else {
        match find_ch(s.subrange(1, s.len() as int), c) {
            None => None,
            Some(i) => Some(i + 1),
        }
    }
}

/// What [`find_ch`] returns: the first index holding `c`, or nothing when `c`
/// does not occur.
pub proof fn lemma_find_ch(s: Seq<char>, c: char)
    ensures
        match find_ch(s, c) {
            Some(i) => 0 <= i < s.len() && s[i] == c && forall|j: int| 0 <= j < i ==> s[j] != c,
            None => forall|j: int| 0 <= j < s.len() ==> s[j] != c,
        },
    decreases s.len(),
{
    if s.len() == 0 {
    } else if s[0] == c {
    } else {
        let tail = s.subrange(1, s.len() as int);
        lemma_find_ch(tail, c);
        match find_ch(tail, c) {
            None => {
                assert forall|j: int| 0 <= j < s.len() implies s[j] != c by {
                    if j > 0 {
                        assert(tail[j - 1] == s[j]);
                    }
                }
            },
            Some(i) => {
                assert forall|j: int| 0 <= j < i + 1 implies s[j] != c by {
                    if j > 0 {
                        assert(tail[j - 1] == s[j]);
                    }
                }
            },
        }
    }
}

/// A position that holds `c` with no occurrence before it is exactly what
/// [`find_ch`] returns.
pub proof fn lemma_find_ch_is(s: Seq<char>, c: char, i: int)
    requires
        0 <= i < s.len(),
        s[i] == c,
        forall|j: int| 0 <= j < i ==> s[j] != c,
    ensures
        find_ch(s, c) == Some(i),
    decreases i,
{
    if i == 0 {
    } else {
        let tail = s.subrange(1, s.len() as int);
        assert(tail[i - 1] == s[i]);
        assert forall|j: int| 0 <= j < i - 1 implies tail[j] != c by {
            assert(tail[j] == s[j + 1]);
        }
        lemma_find_ch_is(tail, c, i - 1);
    }
}

/// When `c` occurs nowhere in `s`, [`find_ch`] finds nothing.
pub proof fn lemma_find_ch_none(s: Seq<char>, c: char)
    requires
        forall|j: int| 0 <= j < s.len() ==> s[j] != c,
    ensures
        find_ch(s, c) == None::<int>,
    decreases s.len(),
{
    if s.len() > 0 {
        let tail = s.subrange(1, s.len() as int);
        assert forall|j: int| 0 <= j < tail.len() implies tail[j] != c by {
            assert(tail[j] == s[j + 1]);
        }
        lemma_find_ch_none(tail, c);
    }
}

/// Finds the first occurrence of `c` in `v`.
pub fn find_char(v: &[char], c: char) -> (r: Option<usize>)
    ensures
        match r {
            Some(i) => find_ch(v@, c) == Some(i as int),
            None => find_ch(v@, c) == None::<int>,
        },
{
    let mut i: usize = 0;
    while i < v.len()
        invariant
            i <= v@.len(),
            forall|j: int| 0 <= j < i ==> v@[j] != c,
        decreases v@.len() - i,
    {
        if v[i] == c {
            proof {
                lemma_find_ch_is(v@, c, i as int);
            }
            return Some(i);
        }
        i = i + 1;
    }
    proof {
        lemma_find_ch_none(v@, c);
    }
    None
}

/// True when the view of `v` equals the view of `s`.
pub fn chars_eq_str(v: &[char], s: &str) -> (r: bool)
    ensures
        r == (v@ == s@),
{
    let n = s.unicode_len();
    if v.len() != n {
        return false;
    }
    let mut i: usize = 0;
    while i < n
        invariant
            i <= n,
            n == s@.len(),
            v@.len() == n,
            forall|j: int| 0 <= j < i ==> v@[j] == s@[j],
        decreases n - i,
    {
        if v[i] != s.get_char(i) {
            return false;
        }
        i = i + 1;
    }
    proof {
        assert(v@ =~= s@);
    }
    true
}

/// True when the two character slices hold the same text.
pub fn chars_eq(a: &[char], b: &[char]) -> (r: bool)
    ensures
        r == (a@ == b@),
{
    if a.len() != b.len() {
        return false;
    }
    let mut i: usize = 0;
    while i < a.len()
        invariant
            i <= a@.len(),
            a@.len() == b@.len(),
            forall|j: int| 0 <= j < i ==> a@[j] == b@[j],
        decreases a@.len() - i,
    {
        if a[i] != b[i] {
            return false;
        }
        i = i + 1;
    }
    proof {
        assert(a@ =~= b@);
    }
    true
}

/// True when `p` is a suffix of `v`.
pub fn has_suffix(v: &[char], p: &[char]) -> (r: bool)
    ensures
        r == (v@.len() >= p@.len() && v@.subrange(v@.len() - p@.len(), v@.len() as int) == p@),
{
    if v.len() < p.len() {
        return false;
    }
    let off = v.len() - p.len();
    let mut i: usize = 0;
    while i < p.len()
        invariant
            i <= p@.len() <= v@.len(),
            v@.len() <= usize::MAX,
            off == v@.len() - p@.len(),
            forall|j: int| 0 <= j < i ==> v@[off + j] == p@[j],
        decreases p@.len() - i,
    {
        if v[off + i] != p[i] {
            proof {
                assert(v@.subrange(v@.len() - p@.len(), v@.len() as int)[i as int] != p@[i as int]);
            }
            return false;
        }
        i = i + 1;
    }
    proof {
        assert(v@.subrange(v@.len() - p@.len(), v@.len() as int) =~= p@);
    }
    true
}

/// True when the two strings hold the same text.
pub fn str_eq(a: &str, b: &str) -> (r: bool)
    ensures
        r == (a@ == b@),
{
    let va = str_to_chars(a);
    chars_eq_str(va.as_slice(), b)
}

/// Appends every character of `src` to `out`.
pub fn push_all(out: &mut Vec<char>, src: &[char])
    ensures
        final(out)@ == old(out)@ + src@,
{
    let ghost base = out@;
    let mut i: usize = 0;
    while i < src.len()
        invariant
            i <= src@.len(),
            out@ == base + src@.subrange(0, i as int),
        decreases src@.len() - i,
    {
        out.push(src[i]);
        proof {
            assert(out@ =~= base + src@.subrange(0, i + 1));
        }
        i = i + 1;
    }
    proof {
        assert(src@.subrange(0, src@.len() as int) =~= src@);
    }
}

/// Appends every character of `s` to `out`.
pub fn push_str_chars(out: &mut Vec<char>, s: &str)
    ensures
        final(out)@ == old(out)@ + s@,
{
    let v = str_to_chars(s);
    push_all(out, v.as_slice());
}

/// Copies the range `a..b` of `v` into a fresh vector.
pub fn copy_range(v: &[char], a: usize, b: usize) -> (r: Vec<char>)
    requires
        a <= b <= v@.len(),
    ensures
        r@ == v@.subrange(a as int, b as int),
{
    let mut r: Vec<char> = Vec::new();
    let mut i: usize = a;
    while i < b
        invariant
            a <= i <= b <= v@.len(),
            r@.len() == i - a,
            forall|j: int| 0 <= j < r@.len() ==> r@[j] == v@[a + j],
        decreases b - i,
    {
        r.push(v[i]);
        i = i + 1;
    }
    proof {
        assert(r@ =~= v@.subrange(a as int, b as int));
    }
    r
}

/// Collects the characters of `s` into a vector.
pub fn str_to_chars(s: &str) -> (r: Vec<char>)
    ensures
        r@ == s@,
{
    let n = s.unicode_len();
    let mut r: Vec<char> = Vec::new();
    let mut i: usize = 0;
    while i < n
        invariant
            i <= n,
            n == s@.len(),
            r@.len() == i,
            forall|j: int| 0 <= j < i ==> r@[j] == s@[j],
        decreases n - i,
    {
        r.push(s.get_char(i));
        i = i + 1;
    }
    proof {
        assert(r@ =~= s@);
    }
    r
}

/// Relies on std's `FromIterator<char> for String`: collecting an iterator of
/// characters yields the string of exactly those characters, in order.
#[verifier::external_body]
pub fn chars_to_string(v: &[char]) -> (r: String)
    ensures
        r@ == v@,
{
    v.iter().collect()
}

/// `s` without its leading ASCII whitespace.
pub open spec fn trim_start_spec(s: Seq<char>) -> Seq<char>
    decreases s.len(),
{
    if s.len() > 0 && is_space(s[0]) {
        trim_start_spec(s.subrange(1, s.len() as int))
    } else {
        s
    }
}

/// `s` without its trailing ASCII whitespace.
pub open spec fn trim_end_spec(s: Seq<char>) -> Seq<char>
    decreases s.len(),
{
    if s.len() > 0 && is_space(s[s.len() - 1]) {
        trim_end_spec(s.subrange(0, s.len() - 1))
    } else {
        s
    }
}

/// `s` without leading and trailing ASCII whitespace.
pub open spec fn trim_spec(s: Seq<char>) -> Seq<char> {
    trim_end_spec(trim_start_spec(s))
}

/// Characterizes [`trim_start_spec`] by the position of the first
/// non-whitespace character.
pub proof fn lemma_trim_start_at(s: Seq<char>, i: int)
    requires
        0 <= i <= s.len(),
        forall|k: int| 0 <= k < i ==> is_space(s[k]),
        i == s.len() || !is_space(s[i]),
    ensures
        trim_start_spec(s) == s.subrange(i, s.len() as int),
    decreases i,
{
    if i == 0 {
        assert(s.subrange(0, s.len() as int) =~= s);
    } else {
        let tail = s.subrange(1, s.len() as int);
        assert(is_space(s[0]));
        assert forall|k: int| 0 <= k < i - 1 implies is_space(tail[k]) by {
            assert(tail[k] == s[k + 1]);
        }
        if i < s.len() {
            assert(tail[i - 1] == s[i]);
        }
        lemma_trim_start_at(tail, i - 1);
        assert(tail.subrange(i - 1, tail.len() as int) =~= s.subrange(i, s.len() as int));
    }
}

/// Characterizes [`trim_end_spec`] by the position after the last
/// non-whitespace character.
pub proof fn lemma_trim_end_at(s: Seq<char>, j: int)
    requires
        0 <= j <= s.len(),
        forall|k: int| j <= k < s.len() ==> is_space(s[k]),
        j == 0 || !is_space(s[j - 1]),
    ensures
        trim_end_spec(s) == s.subrange(0, j),
    decreases s.len() - j,
{
    if j == s.len() {
        if s.len() == 0 || !is_space(s[s.len() - 1]) {
            assert(s.subrange(0, j) =~= s);
        } else {
            assert(false);
        }
    } else {
        assert(is_space(s[s.len() - 1]));
        let head = s.subrange(0, s.len() - 1);
        assert forall|k: int| j <= k < head.len() implies is_space(head[k]) by {
            assert(head[k] == s[k]);
        }
        if j > 0 {
            assert(head[j - 1] == s[j - 1]);
        }
        lemma_trim_end_at(head, j);
        assert(head.subrange(0, j) =~= s.subrange(0, j));
    }
}

/// A sequence whose first and last characters are not whitespace is its own
/// trimmed form.
pub proof fn lemma_trim_id(s: Seq<char>)
    requires
        s.len() > 0 ==> !is_space(s[0]) && !is_space(s[s.len() - 1]),
    ensures
        trim_spec(s) == s,
{
    lemma_trim_start_at(s, 0);
    assert(s.subrange(0, s.len() as int) =~= s);
    lemma_trim_end_at(s, s.len() as int);
}

/// Strips leading and trailing ASCII whitespace from `v`.
pub fn trim_chars(v: &[char]) -> (r: Vec<char>)
    ensures
        r@ == trim_spec(v@),
{
    let mut a: usize = 0;
    while a < v.len() && (v[a] == ' ' || v[a] == '\t' || v[a] == '\n' || v[a] == '\r' || v[a]
        == '\x0c')
        invariant
            a <= v@.len(),
            forall|k: int| 0 <= k < a ==> is_space(v@[k]),
        decreases v@.len() - a,
    {
        a = a + 1;
    }
    proof {
        lemma_trim_start_at(v@, a as int);
    }
    let ghost t = v@.subrange(a as int, v@.len() as int);
    let mut b: usize = v.len();
    while b > a && (v[b - 1] == ' ' || v[b - 1] == '\t' || v[b - 1] == '\n' || v[b - 1] == '\r'
        || v[b - 1] == '\x0c')
        invariant
            a <= b <= v@.len(),
            forall|k: int| b <= k < v@.len() ==> is_space(v@[k]),
        decreases b,
    {
        b = b - 1;
    }
    proof {
        assert forall|k: int| (b - a) <= k < t.len() implies is_space(t[k]) by {
            assert(t[k] == v@[a + k]);
        }
        if b > a {
            assert(t[b - a - 1] == v@[b - 1]);
        }
        lemma_trim_end_at(t, b - a);
        assert(t.subrange(0, b - a) =~= v@.subrange(a as int, b as int));
    }
    copy_range(v, a, b)
}

/// All characters of `s` are decimal digits.
pub open spec fn all_digits(s: Seq<char>) -> bool {
    forall|i: int| 0 <= i < s.len() ==> is_digit(s[i])
}

/// Numeric value of a sequence of decimal digits, most significant first.
pub open spec fn dec_val(s: Seq<char>) -> int
    decreases s.len(),
{
    if s.len() == 0 {
        0
    } else {
        dec_val(s.subrange(0, s.len() - 1)) * 10 + digit_val(s[s.len() - 1])
    }
}

/// The value of a digit string is never negative.
pub proof fn lemma_dec_val_nonneg(s: Seq<char>)
    requires
        all_digits(s),
    ensures
        dec_val(s) >= 0,
    decreases s.len(),
{
    if s.len() > 0 {
        let head = s.subrange(0, s.len() - 1);
        assert(all_digits(head)) by {
            assert(forall|i: int| 0 <= i < head.len() ==> head[i] == s[i]);
        }
        lemma_dec_val_nonneg(head);
    }
}

/// Extending a digit string on the right can only increase its value.
pub proof fn lemma_dec_val_prefix_le(s: Seq<char>, i: int)
    requires
        all_digits(s),
        0 <= i <= s.len(),
    ensures
        dec_val(s.subrange(0, i)) <= dec_val(s),
    decreases s.len() - i,
{
    if i < s.len() {
        let p = s.subrange(0, s.len() - 1);
        assert(all_digits(p)) by {
            assert(forall|k: int| 0 <= k < p.len() ==> p[k] == s[k]);
        }
        lemma_dec_val_prefix_le(p, i);
        assert(p.subrange(0, i) =~= s.subrange(0, i));
        lemma_dec_val_nonneg(p);
    } else {
        assert(s.subrange(0, i) =~= s);
    }
}

/// Value of a two-character digit string, spelled out.
pub proof fn lemma_dec_val_2(s: Seq<char>)
    requires
        s.len() == 2,
    ensures
        dec_val(s) == digit_val(s[0]) * 10 + digit_val(s[1]),
{
    let s1 = s.subrange(0, 1);
    assert(dec_val(s1.subrange(0, 0)) == 0);
    assert(dec_val(s1) == digit_val(s1[0]));
    assert(s1[0] == s[0]);
}

/// Value of a four-character digit string, spelled out.
pub proof fn lemma_dec_val_4(s: Seq<char>)
    requires
        s.len() == 4,
    ensures
        dec_val(s) == ((digit_val(s[0]) * 10 + digit_val(s[1])) * 10 + digit_val(s[2])) * 10
            + digit_val(s[3]),
{
    let s3 = s.subrange(0, 3);
    let s2 = s.subrange(0, 2);
    assert(s3.subrange(0, 2) =~= s2);
    lemma_dec_val_2(s2);
    assert(dec_val(s3) == dec_val(s2) * 10 + digit_val(s3[2]));
    assert(dec_val(s) == dec_val(s3) * 10 + digit_val(s[3]));
}

/// Parses a non-empty, all-digit string as a `u64`; anything else, and any
/// value that does not fit, is rejected.
pub fn parse_u64(v: &[char]) -> (r: Option<u64>)
    ensures
        r is Some <==> v@.len() > 0 && all_digits(v@) && dec_val(v@) <= u64::MAX,
        r matches Some(n) ==> n == dec_val(v@),
{
    if v.len() == 0 {
        return None;
    }
    let mut acc: u64 = 0;
    let mut i: usize = 0;
    while i < v.len()
        invariant
            i <= v@.len(),
            forall|j: int| 0 <= j < i ==> is_digit(v@[j]),
            acc == dec_val(v@.subrange(0, i as int)),
        decreases v@.len() - i,
    {
        let c = v[i];
        if !is_digit_char(c) {
            return None;
        }
        let d = digit_val_char(c);
        let ghost pref = v@.subrange(0, i as int);
        let ghost pref1 = v@.subrange(0, i + 1);
        proof {
            assert(pref1.subrange(0, pref1.len() - 1) =~= pref);
            assert(dec_val(pref1) == acc * 10 + d);
        }
        match acc.checked_mul(10) {
            None => {
                proof {
                    if all_digits(v@) {
                        lemma_dec_val_prefix_le(v@, i + 1);
                    }
                }
                return None;
            },
            Some(m) => {
                match m.checked_add(d as u64) {
                    None => {
                        proof {
                            if all_digits(v@) {
                                lemma_dec_val_prefix_le(v@, i + 1);
                            }
                        }
                        return None;
                    },
                    Some(n) => {
                        acc = n;
                    },
                }
            },
        }
        i = i + 1;
    }
    proof {
        assert(v@.subrange(0, v@.len() as int) =~= v@);
    }
    Some(acc)
}

/// Decimal rendering of a non-negative number, without leading zeroes (the
/// number zero renders as the single digit `0`).
pub open spec fn dec_str(n: int) -> Seq<char>
    decreases n,
{
    if n <= 0 {
        seq!['0']
    } else if n < 10 {
        seq![digit_char(n)]
    } else {
        dec_str(n / 10) + seq![digit_char(n % 10)]
    }
}

/// The character for a digit value.
pub open spec fn digit_char(d: int) -> char {
    if d == 0 {
        '0'
    } else if d == 1 {
        '1'
    } else if d == 2 {
        '2'
    } else if d == 3 {
        '3'
    } else if d == 4 {
        '4'
    } else if d == 5 {
        '5'
    } else if d == 6 {
        '6'
    } else if d == 7 {
        '7'
    } else if d == 8 {
        '8'
    } else {
        '9'
    }
}

/// Runtime computation of [`digit_char`] for a digit value.
pub fn digit_char_exec(d: u64) -> (r: char)
    requires
        d < 10,
    ensures
        r == digit_char(d as int),
{
    match d {
        0 => '0',
        1 => '1',
        2 => '2',
        3 => '3',
        4 => '4',
        5 => '5',
        6 => '6',
        7 => '7',
        8 => '8',
        _ => '9',
    }
}

/// Appends the decimal rendering of `n` to `out`.
pub fn push_dec(n: u64, out: &mut Vec<char>)
    ensures
        final(out)@ == old(out)@ + dec_str(n as int),
    decreases n,
{
    if n < 10 {
        out.push(digit_char_exec(n));
        proof {
            assert(out@ =~= old(out)@ + dec_str(n as int));
        }
    } else {
        push_dec(n / 10, out);
        out.push(digit_char_exec(n % 10));
        proof {
            assert(out@ =~= old(out)@ + dec_str(n as int));
        }
    }
}

/// Zero-padded two-digit decimal rendering of `n < 100`.
pub open spec fn dec2_str(n: int) -> Seq<char> {
    seq![digit_char(n / 10), digit_char(n % 10)]
}

/// Appends the zero-padded two-digit rendering of `n` to `out`.
pub fn push_dec2(n: u64, out: &mut Vec<char>)
    requires
        n < 100,
    ensures
        final(out)@ == old(out)@ + dec2_str(n as int),
{
    out.push(digit_char_exec(n / 10));
    out.push(digit_char_exec(n % 10));
    proof {
        assert(out@ =~= old(out)@ + dec2_str(n as int));
    }
}

/// True when `p` is a prefix of `v`.
pub fn has_prefix(v: &[char], p: &[char]) -> (r: bool)
    ensures
        r == (v@.len() >= p@.len() && v@.subrange(0, p@.len() as int) == p@),
{
    if v.len() < p.len() {
        return false;
    }
    let mut i: usize = 0;
    while i < p.len()
        invariant
            i <= p@.len() <= v@.len(),
            forall|j: int| 0 <= j < i ==> v@[j] == p@[j],
        decreases p@.len() - i,
    {
        if v[i] != p[i] {
            assert(v@.subrange(0, p@.len() as int)[i as int] != p@[i as int]);
            return false;
        }
        i = i + 1;
    }
    proof {
        assert(v@.subrange(0, p@.len() as int) =~= p@);
    }
    true
}

/// Splits `s` at every occurrence of `c`. The result always holds at least
/// one segment; the separators themselves are dropped.
pub open spec fn split_ch(s: Seq<char>, c: char) -> Seq<Seq<char>>
    decreases s.len(),
{
    if s.len() == 0 {
        seq![s]
    } else if s[0] == c {
        seq![Seq::<char>::empty()] + split_ch(s.subrange(1, s.len() as int), c)
    } else {
        let r = split_ch(s.subrange(1, s.len() as int), c);
        seq![seq![s[0]] + r[0]] + r.subrange(1, r.len() as int)
    }
}

/// Splitting yields at least one segment.
pub proof fn lemma_split_ch_len(s: Seq<char>, c: char)
    ensures
        split_ch(s, c).len() >= 1,
    decreases s.len(),
{
    if s.len() > 0 {
        lemma_split_ch_len(s.subrange(1, s.len() as int), c);
    }
}

/// Unfolds [`split_ch`] at the first occurrence of the separator: the head
/// segment runs up to it, and the rest is the split of what follows.
pub proof fn lemma_split_ch_first(s: Seq<char>, c: char)
    ensures
        match find_ch(s, c) {
            None => split_ch(s, c) == seq![s],
            Some(i) => split_ch(s, c) == seq![s.subrange(0, i)] + split_ch(
                s.subrange(i + 1, s.len() as int),
                c,
            ),
        },
    decreases s.len(),
{
    lemma_find_ch(s, c);
    if s.len() == 0 {
    } else if s[0] == c {
        assert(find_ch(s, c) == Some(0int));
        assert(s.subrange(0, 0) =~= Seq::<char>::empty());
        assert(seq![s.subrange(0, 0)] + split_ch(s.subrange(1, s.len() as int), c) =~= seq![
            Seq::<char>::empty(),
        ] + split_ch(s.subrange(1, s.len() as int), c));
    } else {
        let tail = s.subrange(1, s.len() as int);
        lemma_split_ch_first(tail, c);
        lemma_split_ch_len(tail, c);
        match find_ch(s, c) {
            None => {
                assert forall|j: int| 0 <= j < tail.len() implies tail[j] != c by {
                    assert(tail[j] == s[j + 1]);
                }
                lemma_find_ch_none(tail, c);
                let r = split_ch(tail, c);
                assert(r == seq![tail]);
                assert(seq![s[0]] + tail =~= s);
                assert(r.subrange(1, r.len() as int) =~= Seq::<Seq<char>>::empty());
                assert(split_ch(s, c) =~= seq![s]);
            },
            Some(i) => {
                assert(i >= 1);
                assert(find_ch(tail, c) == Some(i - 1)) by {
                    assert(tail[i - 1] == s[i]);
                    assert forall|j: int| 0 <= j < i - 1 implies tail[j] != c by {
                        assert(tail[j] == s[j + 1]);
                    }
                    lemma_find_ch_is(tail, c, i - 1);
                }
                let r = split_ch(tail, c);
                assert(r == seq![tail.subrange(0, i - 1)] + split_ch(
                    tail.subrange(i, tail.len() as int),
                    c,
                ));
                assert(seq![s[0]] + r[0] =~= s.subrange(0, i)) by {
                    assert(r[0] == tail.subrange(0, i - 1));
                }
                assert(tail.subrange(i, tail.len() as int) =~= s.subrange(i + 1, s.len() as int));
                let rest = split_ch(s.subrange(i + 1, s.len() as int), c);
                assert(r.subrange(1, r.len() as int) =~= rest);
                assert(split_ch(s, c) =~= seq![s.subrange(0, i)] + rest);
            },
        }
    }
}

/// Splits `v` at every occurrence of `c`.
pub fn split_chars(v: &[char], c: char) -> (r: Vec<Vec<char>>)
    ensures
        r.deep_view() == split_ch(v@, c),
        r.len() >= 1,
{
    let mut r: Vec<Vec<char>> = Vec::new();
    let mut pos: usize = 0;
    proof {
        assert(v@.subrange(0, v@.len() as int) =~= v@);
        assert(r.deep_view() + split_ch(v@.subrange(0, v@.len() as int), c) =~~= split_ch(v@, c));
    }
    loop
        invariant
            pos <= v@.len(),
            split_ch(v@, c) == r.deep_view() + split_ch(v@.subrange(pos as int, v@.len() as int), c),
        decreases v@.len() - pos,
    {
        let ghost rest = v@.subrange(pos as int, v@.len() as int);
        let n = v.len();
        let mut i: usize = pos;
        while i < n && v[i] != c
            invariant
                pos <= i <= n,
                n == v@.len(),
                forall|k: int| pos <= k < i ==> v@[k] != c,
            decreases n - i,
        {
            i = i + 1;
        }
        let seg = copy_range(v, pos, i);
        proof {
            assert forall|k: int| 0 <= k < (i - pos) implies rest[k] != c by {
                assert(rest[k] == v@[pos + k]);
            }
            lemma_split_ch_first(rest, c);
        }
        let ghost prev = r.deep_view();
        if i < n {
            proof {
                assert(rest[i - pos] == v@[i as int]);
                lemma_find_ch_is(rest, c, i - pos);
                assert(seg@ == rest.subrange(0, i - pos));
                assert(rest.subrange(i - pos + 1, rest.len() as int) =~= v@.subrange(
                    i + 1,
                    v@.len() as int,
                ));
            }
            let ghost segv = seg@;
            r.push(seg);
            pos = i + 1;
            proof {
                assert(r.deep_view() =~~= prev.push(segv));
                assert(split_ch(v@, c) =~~= r.deep_view() + split_ch(
                    v@.subrange(pos as int, v@.len() as int),
                    c,
                ));
            }
        } else {
            proof {
                lemma_find_ch_none(rest, c);
                assert(seg@ =~= rest);
            }
            let ghost segv = seg@;
            r.push(seg);
            proof {
                assert(r.deep_view() =~~= prev.push(segv));
                assert(split_ch(rest, c) == seq![rest]);
                assert(split_ch(v@, c) =~~= r.deep_view());
            }
            return r;
        }
    }
}

} // verus!
