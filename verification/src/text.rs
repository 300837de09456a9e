//! Character-level text helpers shared by the format, file-name and HTTP
//! header rules: ASCII case folding, trimming, decimal numbers, and the
//! handful of Unicode character classes std decides.
use vstd::prelude::*;
use vstd::string::StrSliceExecFns;

verus! {

/// `c` with an ASCII capital letter folded to lower case.
pub open spec fn ascii_lower_char(c: char) -> char {
    if 'A' <= c && c <= 'Z' {
        ((c as u32) + 32) as char
    } else {
        c
    }
}

/// `s` with every ASCII capital folded to lower case.
pub open spec fn ascii_lower(s: Seq<char>) -> Seq<char> {
    s.map_values(|c: char| ascii_lower_char(c))
}

/// Whether `c` is an ASCII letter or digit.
pub open spec fn is_ascii_alnum(c: char) -> bool {
    ('a' <= c && c <= 'z') || ('A' <= c && c <= 'Z') || ('0' <= c && c <= '9')
}

/// Whether `c` is an ASCII decimal digit.
pub open spec fn is_digit(c: char) -> bool {
    '0' <= c && c <= '9'
}

/// Fold an ASCII capital letter to lower case.
pub fn lower_ascii_char(c: char) -> (r: char)
    ensures
        r == ascii_lower_char(c),
{
    if 'A' <= c && c <= 'Z' {
        let code: u32 = (c as u32) + 32;
        assert(0x61 <= code <= 0x7a);
        let b: u8 = code as u8;
        b as char
    } else {
        c
    }
}

/// Whether `c` is an ASCII letter or digit.
pub fn ascii_alnum(c: char) -> (r: bool)
    ensures
        r == is_ascii_alnum(c),
{
    ('a' <= c && c <= 'z') || ('A' <= c && c <= 'Z') || ('0' <= c && c <= '9')
}

/// The characters of a string slice.
pub fn chars_of(s: &str) -> (v: Vec<char>)
    ensures
        v@ == s@,
{
    let n = s.unicode_len();
    let mut v: Vec<char> = Vec::new();
    let mut i: usize = 0;
    while i < n
        invariant
            n == s@.len(),
            i <= n,
            v@ == s@.take(i as int),
        decreases n - i,
    {
        v.push(s.get_char(i));
        i = i + 1;
        assert(v@ =~= s@.take(i as int));
    }
    assert(s@.take(n as int) =~= s@);
    v
}

/// Append one character to a `String` (`String::push`).
#[verifier::external_body]
fn push_char(s: &mut String, c: char)
    ensures
        final(s)@ == old(s)@.push(c),
{
    s.push(c);
}

/// A `String` holding exactly the characters `cs`.
pub fn string_of(cs: &[char]) -> (s: String)
    ensures
        s@ == cs@,
{
    let mut s = String::new();
    let mut i: usize = 0;
    while i < cs.len()
        invariant
            i <= cs@.len(),
            s@ == cs@.take(i as int),
        decreases cs@.len() - i,
    {
        push_char(&mut s, cs[i]);
        i = i + 1;
        assert(s@ =~= cs@.take(i as int));
    }
    assert(cs@.take(cs@.len() as int) =~= cs@);
    s
}

/// Whether `v` spells exactly `lit`.
pub fn eq_str(v: &[char], lit: &str) -> (r: bool)
    ensures
        r == (v@ == lit@),
{
    let n = lit.unicode_len();
    if v.len() != n {
        return false;
    }
    let mut i: usize = 0;
    while i < n
        invariant
            n == lit@.len(),
            n == v@.len(),
            i <= n,
            v@.take(i as int) == lit@.take(i as int),
        decreases n - i,
    {
        if v[i] != lit.get_char(i) {
            assert(v@[i as int] != lit@[i as int]);
            return false;
        }
        i = i + 1;
        assert(v@.take(i as int) =~= lit@.take(i as int)) by {
            assert(v@.take(i as int) =~= v@.take(i - 1).push(v@[i - 1]));
            assert(lit@.take(i as int) =~= lit@.take(i - 1).push(lit@[i - 1]));
        }
    }
    assert(v@ =~= v@.take(n as int));
    assert(lit@ =~= lit@.take(n as int));
    true
}

/// Whether `v` and `lit` are equal once ASCII letters are case-folded.
pub fn eq_ignore_ascii_case(v: &[char], lit: &str) -> (r: bool)
    ensures
        r == (ascii_lower(v@) == ascii_lower(lit@)),
{
    let n = lit.unicode_len();
    if v.len() != n {
        assert(ascii_lower(v@).len() != ascii_lower(lit@).len());
        return false;
    }
    let mut i: usize = 0;
    while i < n
        invariant
            n == lit@.len(),
            n == v@.len(),
            i <= n,
            forall|j: int| 0 <= j < i ==> ascii_lower_char(v@[j]) == ascii_lower_char(lit@[j]),
        decreases n - i,
    {
        if lower_ascii_char(v[i]) != lower_ascii_char(lit.get_char(i)) {
            assert(ascii_lower(v@)[i as int] != ascii_lower(lit@)[i as int]);
            return false;
        }
        i = i + 1;
    }
    assert(ascii_lower(v@) =~= ascii_lower(lit@));
    true
}

/// Fold every ASCII capital letter of `v` to lower case.
pub fn lower_ascii(v: &[char]) -> (r: Vec<char>)
    ensures
        r@ == ascii_lower(v@),
{
    let mut r: Vec<char> = Vec::new();
    let mut i: usize = 0;
    while i < v.len()
        invariant
            i <= v@.len(),
            r@ == ascii_lower(v@.take(i as int)),
        decreases v@.len() - i,
    {
        r.push(lower_ascii_char(v[i]));
        i = i + 1;
        assert(r@ =~= ascii_lower(v@.take(i as int)));
    }
    assert(v@.take(v@.len() as int) =~= v@);
    r
}

/// The characters `from..to` of `v`.
pub fn slice_chars(v: &[char], from: usize, to: usize) -> (r: Vec<char>)
    requires
        from <= to <= v@.len(),
    ensures
        r@ == v@.subrange(from as int, to as int),
{
    let mut r: Vec<char> = Vec::new();
    let mut i: usize = from;
    while i < to
        invariant
            from <= i <= to <= v@.len(),
            r@ == v@.subrange(from as int, i as int),
        decreases to - i,
    {
        r.push(v[i]);
        i = i + 1;
        assert(r@ =~= v@.subrange(from as int, i as int));
    }
    r
}

/// `s` without the leading characters equal to `c`.
pub open spec fn trim_start_char(s: Seq<char>, c: char) -> Seq<char>
    decreases s.len(),
{
    if s.len() > 0 && s[0] == c {
        trim_start_char(s.drop_first(), c)
    } else {
        s
    }
}

/// Count of the leading characters of `s` equal to `c`.
pub open spec fn leading_count(s: Seq<char>, c: char) -> nat
    decreases s.len(),
{
    if s.len() > 0 && s[0] == c {
        1 + leading_count(s.drop_first(), c)
    } else {
        0
    }
}

/// `trim_start_char` drops the leading run of `c` and keeps the rest.
pub proof fn lemma_trim_start_char(s: Seq<char>, c: char)
    ensures
        leading_count(s, c) <= s.len(),
        trim_start_char(s, c) == s.subrange(leading_count(s, c) as int, s.len() as int),
        forall|j: int| 0 <= j < leading_count(s, c) ==> s[j] == c,
        leading_count(s, c) < s.len() ==> s[leading_count(s, c) as int] != c,
    decreases s.len(),
{
    if s.len() > 0 && s[0] == c {
        lemma_trim_start_char(s.drop_first(), c);
        assert(s.drop_first().subrange(
            leading_count(s.drop_first(), c) as int,
            s.drop_first().len() as int,
        ) =~= s.subrange(leading_count(s, c) as int, s.len() as int));
        assert forall|j: int| 0 <= j < leading_count(s, c) implies s[j] == c by {
            if j > 0 {
                assert(s[j] == s.drop_first()[j - 1]);
            }
        }
    } else {
        assert(s.subrange(0, s.len() as int) =~= s);
    }
}

/// Append the characters of `s` to `out`.
pub fn push_str(out: &mut Vec<char>, s: &str)
    ensures
        final(out)@ == old(out)@ + s@,
{
    let mut tail = chars_of(s);
    out.append(&mut tail);
}

/// Whether `v` begins with `lit`.
pub fn starts_with_str(v: &[char], lit: &str) -> (r: bool)
    ensures
        r == (lit@.len() <= v@.len() && v@.take(lit@.len() as int) == lit@),
{
    let n = lit.unicode_len();
    if v.len() < n {
        return false;
    }
    let head = slice_chars(v, 0, n);
    assert(head@ =~= v@.take(n as int));
    eq_str(&head, lit)
}

/// Drop the leading characters of `v` equal to `c` (`trim_start_matches`).
pub fn trim_start_matching(v: &[char], c: char) -> (r: Vec<char>)
    ensures
        r@ == trim_start_char(v@, c),
{
    proof {
        lemma_trim_start_char(v@, c);
    }
    let mut i: usize = 0;
    while i < v.len() && v[i] == c
        invariant
            i <= v@.len(),
            i <= leading_count(v@, c),
            forall|j: int| 0 <= j < leading_count(v@, c) ==> v@[j] == c,
            leading_count(v@, c) < v@.len() ==> v@[leading_count(v@, c) as int] != c,
            leading_count(v@, c) <= v@.len(),
        decreases v@.len() - i,
    {
        i = i + 1;
    }
    slice_chars(v, i, v.len())
}

/// Decimal digit character for `d < 10`.
pub open spec fn digit_char(d: int) -> char {
    (('0' as u32) + d) as char
}

/// Decimal spelling of `n`, without leading zeros.
pub open spec fn decimal(n: nat) -> Seq<char>
    decreases n,
{
    if n < 10 {
        seq![digit_char(n as int)]
    } else {
        decimal(n / 10).push(digit_char((n % 10) as int))
    }
}

/// Append the decimal spelling of `n`.
pub fn push_decimal(out: &mut Vec<char>, n: u64)
    ensures
        final(out)@ == old(out)@ + decimal(n as nat),
    decreases n,
{
    if n >= 10 {
        push_decimal(out, n / 10);
    }
    let d: u8 = (n % 10) as u8;
    let c: char = (48u8 + d) as char;
    assert(c == digit_char((n % 10) as int));
    out.push(c);
    if n < 10 {
        assert(old(out)@ + decimal(n as nat) =~= old(out)@.push(c));
    } else {
        assert(old(out)@ + decimal(n as nat) =~= (old(out)@ + decimal((n / 10) as nat)).push(c));
    }
}

/// Value of a run of decimal digits.
pub open spec fn digits_value(s: Seq<char>) -> nat
    decreases s.len(),
{
    if s.len() == 0 {
        0
    } else {
        digits_value(s.drop_last()) * 10 + ((s.last() as u32) - ('0' as u32)) as nat
    }
}

/// The text after an optional leading `+`.
pub open spec fn unsigned_digits(s: Seq<char>) -> Seq<char> {
    if s.len() > 0 && s[0] == '+' {
        s.drop_first()
    } else {
        s
    }
}

/// What `str::parse::<u64>` accepts: an optional `+`, then one or more
/// decimal digits whose value fits in a `u64`.
pub open spec fn parse_u64_spec(s: Seq<char>) -> Option<u64> {
    let d = unsigned_digits(s);
    if d.len() == 0 {
        None
    } else if exists|i: int| 0 <= i < d.len() && !is_digit(#[trigger] d[i]) {
        None
    } else if digits_value(d) > u64::MAX {
        None
    } else {
        Some(digits_value(d) as u64)
    }
}

proof fn lemma_digits_value_monotone(s: Seq<char>, i: int)
    requires
        0 <= i <= s.len(),
        forall|j: int| 0 <= j < s.len() ==> is_digit(#[trigger] s[j]),
    ensures
        digits_value(s.take(i)) <= digits_value(s),
    decreases s.len() - i,
{
    if i < s.len() {
        lemma_digits_value_monotone(s, i + 1);
        assert(s.take(i + 1).drop_last() =~= s.take(i));
        let v = digits_value(s.take(i));
        let w = digits_value(s.take(i + 1));
        assert(w == v * 10 + ((s[i] as u32) - ('0' as u32)) as nat);
        assert(v <= w) by (nonlinear_arith)
            requires
                w == v * 10 + ((s[i] as u32) - ('0' as u32)) as nat,
        ;
    } else {
        assert(s.take(i) =~= s);
    }
}

/// Parse a `u64` the way `str::parse::<u64>` does.
pub fn parse_u64(s: &[char]) -> (r: Option<u64>)
    ensures
        r == parse_u64_spec(s@),
{
    let start: usize = if s.len() > 0 && s[0] == '+' {
        1
    } else {
        0
    };
    let ghost d = unsigned_digits(s@);
    assert(d =~= s@.subrange(start as int, s@.len() as int));
    if start == s.len() {
        return None;
    }
    let mut value: u64 = 0;
    let mut i: usize = start;
    while i < s.len()
        invariant
            start <= i <= s@.len(),
            d == s@.subrange(start as int, s@.len() as int),
            forall|j: int| 0 <= j < i - start ==> is_digit(#[trigger] d[j]),
            value == digits_value(d.take(i - start)),
            d == unsigned_digits(s@),
            d.len() > 0,
        decreases s@.len() - i,
    {
        let c = s[i];
        if !('0' <= c && c <= '9') {
            assert(!is_digit(d[i - start]));
            return None;
        }
        let digit: u64 = ((c as u32) - 48) as u64;
        assert(d.take(i - start + 1).drop_last() =~= d.take(i - start));
        assert(d.take(i - start + 1).last() == c);
        let ghost k = i - start;
        let ghost all_digits = forall|j: int| 0 <= j < d.len() ==> is_digit(#[trigger] d[j]);
        assert(digits_value(d.take(k + 1)) == value * 10 + digit);
        let overflow = match value.checked_mul(10) {
            Some(scaled) => match scaled.checked_add(digit) {
                Some(next) => {
                    value = next;
                    false
                },
                None => true,
            },
            None => true,
        };
        if overflow {
            proof {
                if all_digits {
                    lemma_digits_value_monotone(d, k + 1);
                    assert(digits_value(d) > u64::MAX);
                } else {
                    assert(exists|j: int| 0 <= j < d.len() && !is_digit(#[trigger] d[j]));
                }
            }
            return None;
        }
        i = i + 1;
    }
    assert(d.take(d.len() as int) =~= d);
    Some(value)
}

/// Whether `c` has the Unicode `White_Space` property, as
/// `char::is_whitespace` documents it: tab, line feed, vertical tab, form
/// feed, carriage return, space, U+0085, U+00A0, U+1680, U+2000 to U+200A,
/// U+2028, U+2029, U+202F, U+205F and U+3000.
pub open spec fn unicode_white_space(c: char) -> bool {
    let x = c as u32;
    (0x9 <= x && x <= 0xd) || x == 0x20 || x == 0x85 || x == 0xa0 || x == 0x1680 || (0x2000 <= x
        && x <= 0x200a) || x == 0x2028 || x == 0x2029 || x == 0x202f || x == 0x205f || x == 0x3000
}

/// Whether `c` has the Unicode `White_Space` property (`char::is_whitespace`).
pub fn is_whitespace(c: char) -> (r: bool)
    ensures
        r == unicode_white_space(c),
{
    let x = c as u32;
    (0x9 <= x && x <= 0xd) || x == 0x20 || x == 0x85 || x == 0xa0 || x == 0x1680 || (0x2000 <= x
        && x <= 0x200a) || x == 0x2028 || x == 0x2029 || x == 0x202f || x == 0x205f || x == 0x3000
}

/// `s` without leading white space.
pub open spec fn trim_start_ws(s: Seq<char>) -> Seq<char>
    decreases s.len(),
{
    if s.len() > 0 && unicode_white_space(s[0]) {
        trim_start_ws(s.drop_first())
    } else {
        s
    }
}

/// `s` without trailing white space.
pub open spec fn trim_end_ws(s: Seq<char>) -> Seq<char>
    decreases s.len(),
{
    if s.len() > 0 && unicode_white_space(s.last()) {
        trim_end_ws(s.drop_last())
    } else {
        s
    }
}

/// `s` without leading or trailing white space (`str::trim`).
pub open spec fn trim_ws(s: Seq<char>) -> Seq<char> {
    trim_end_ws(trim_start_ws(s))
}

/// Remove leading and trailing white space (`str::trim`).
pub fn trim(v: &[char]) -> (r: Vec<char>)
    ensures
        r@ == trim_ws(v@),
{
    let mut a: usize = 0;
    assert(v@.subrange(0, v@.len() as int) =~= v@);
    while a < v.len() && is_whitespace(v[a])
        invariant
            a <= v@.len(),
            trim_start_ws(v@) == trim_start_ws(v@.subrange(a as int, v@.len() as int)),
        decreases v@.len() - a,
    {
        assert(v@.subrange(a as int, v@.len() as int).drop_first() =~= v@.subrange(
            a + 1,
            v@.len() as int,
        ));
        a = a + 1;
    }
    assert(trim_start_ws(v@) == v@.subrange(a as int, v@.len() as int));
    let ghost t = v@.subrange(a as int, v@.len() as int);
    let mut b: usize = v.len();
    assert(t =~= v@.subrange(a as int, b as int));
    while b > a && is_whitespace(v[b - 1])
        invariant
            a <= b <= v@.len(),
            t == v@.subrange(a as int, v@.len() as int),
            trim_end_ws(t) == trim_end_ws(v@.subrange(a as int, b as int)),
        decreases b,
    {
        assert(v@.subrange(a as int, b as int).drop_last() =~= v@.subrange(a as int, b - 1));
        b = b - 1;
    }
    slice_chars(v, a, b)
}

/// Index of the first character of `s` that `sep` accepts, from `i` on.
pub open spec fn first_index_from(s: Seq<char>, i: int, c1: char, c2: char, c3: char) -> Option<
    int,
>
    decreases s.len() - i,
{
    if i < 0 || i >= s.len() {
        None
    } else if s[i] == c1 || s[i] == c2 || s[i] == c3 {
        Some(i)
    } else {
        first_index_from(s, i + 1, c1, c2, c3)
    }
}

/// `s` split around its first character equal to `c1`, `c2` or `c3`
/// (`str::split_once` with a character pattern).
pub open spec fn split_once3(s: Seq<char>, c1: char, c2: char, c3: char) -> Option<
    (Seq<char>, Seq<char>),
> {
    match first_index_from(s, 0, c1, c2, c3) {
        None => None,
        Some(i) => Some((s.take(i), s.subrange(i + 1, s.len() as int))),
    }
}

/// `s` split around its first `c`.
pub open spec fn split_once(s: Seq<char>, c: char) -> Option<(Seq<char>, Seq<char>)> {
    split_once3(s, c, c, c)
}

/// Split `v` around its first character equal to `c1`, `c2` or `c3`.
pub fn split_once_any(v: &[char], c1: char, c2: char, c3: char) -> (r: Option<
    (Vec<char>, Vec<char>),
>)
    ensures
        match split_once3(v@, c1, c2, c3) {
            None => r is None,
            Some((a, b)) => r matches Some((x, y)) && x@ == a && y@ == b,
        },
{
    let mut i: usize = 0;
    while i < v.len()
        invariant
            i <= v@.len(),
            first_index_from(v@, 0, c1, c2, c3) == first_index_from(v@, i as int, c1, c2, c3),
        decreases v@.len() - i,
    {
        let c = v[i];
        if c == c1 || c == c2 || c == c3 {
            let a = slice_chars(v, 0, i);
            let b = slice_chars(v, i + 1, v.len());
            assert(a@ =~= v@.take(i as int));
            return Some((a, b));
        }
        i = i + 1;
    }
    None
}

/// Whether `c` is in the Unicode general category `Cc`, as
/// `char::is_control` documents it: U+0000 to U+001F and U+007F to U+009F.
pub open spec fn unicode_control(c: char) -> bool {
    let x = c as u32;
    x <= 0x1f || (0x7f <= x && x <= 0x9f)
}

/// Whether `c` is alphabetic or numeric in Unicode (`char::is_alphanumeric`).
pub uninterp spec fn unicode_alphanumeric(c: char) -> bool;

/// Whether `c` is a control character (`char::is_control`).
pub fn is_control(c: char) -> (r: bool)
    ensures
        r == unicode_control(c),
{
    let x = c as u32;
    x <= 0x1f || (0x7f <= x && x <= 0x9f)
}

/// Whether `c` is alphanumeric: among ASCII characters exactly the letters
/// and digits, beyond ASCII as Unicode classes it.
pub open spec fn alphanumeric(c: char) -> bool {
    if (c as u32) < 128 {
        is_ascii_alnum(c)
    } else {
        unicode_alphanumeric(c)
    }
}

/// `char::is_alphanumeric`: whether `c` is alphabetic or numeric in
/// Unicode. Among ASCII characters that is exactly the letters `a`-`z`,
/// `A`-`Z` and the digits `0`-`9` (std documents these as the ASCII
/// alphabetic and numeric characters); beyond ASCII the result is named.
#[verifier::external_body]
pub(crate) fn is_alphanumeric(c: char) -> (r: bool)
    ensures
        r == if (c as u32) < 128 {
            is_ascii_alnum(c)
        } else {
            unicode_alphanumeric(c)
        },
{
    c.is_alphanumeric()
}

/// Bytes `c` takes in UTF-8.
pub open spec fn utf8_width(c: char) -> nat {
    if (c as u32) < 0x80 {
        1
    } else if (c as u32) < 0x800 {
        2
    } else if (c as u32) < 0x10000 {
        3
    } else {
        4
    }
}

/// Bytes `s` takes in UTF-8.
pub open spec fn utf8_len(s: Seq<char>) -> nat
    decreases s.len(),
{
    if s.len() == 0 {
        0
    } else {
        utf8_len(s.drop_last()) + utf8_width(s.last())
    }
}

/// Bytes `c` takes in UTF-8 (`char::len_utf8`).
pub fn char_width(c: char) -> (r: usize)
    ensures
        r == utf8_width(c),
{
    let code = c as u32;
    if code < 0x80 {
        1
    } else if code < 0x800 {
        2
    } else if code < 0x10000 {
        3
    } else {
        4
    }
}

/// The text of each string in a list.
pub open spec fn texts(v: Seq<String>) -> Seq<Seq<char>> {
    v.map_values(|s: String| s@)
}

/// Appending a string appends its text.
pub proof fn lemma_texts_push(v: Seq<String>, s: String)
    ensures
        texts(v.push(s)) == texts(v).push(s@),
{
    assert(texts(v.push(s)) =~= texts(v).push(s@));
}

/// Whether `needle` occurs in `text`.
pub open spec fn occurs(text: Seq<char>, needle: Seq<char>) -> bool {
    exists|i: int|
        0 <= i <= text.len() - needle.len() && #[trigger] text.subrange(i, i + needle.len())
            == needle
}

/// Whether `needle` occurs in `text` (`str::contains`).
pub fn contains_text(text: &[char], needle: &[char]) -> (r: bool)
    ensures
        r == occurs(text@, needle@),
{
    let n = needle;
    if text.len() < n.len() {
        assert forall|i: int| 0 <= i <= text@.len() - needle@.len() implies #[trigger] text@.subrange(
            i,
            i + needle@.len(),
        ) != needle@ by {}
        return false;
    }
    let tl = text.len();
    let mut i: usize = 0;
    while i <= tl - n.len()
        invariant
            tl == text@.len(),
            n@ == needle@,
            n@.len() <= text@.len(),
            i <= text@.len() - n@.len() + 1,
            forall|j: int| 0 <= j < i ==> #[trigger] text@.subrange(j, j + n@.len()) != n@,
        decreases text@.len() - n@.len() + 1 - i,
    {
        let mut k: usize = 0;
        let mut same = true;
        while k < n.len()
            invariant
                tl == text@.len(),
                n@.len() <= text@.len(),
                i + n@.len() <= tl,
                k <= n@.len(),
                same <==> forall|j: int| 0 <= j < k ==> text@[i + j] == n@[j],
            decreases n@.len() - k,
        {
            let at: usize = i + k;
            if text[at] != n[k] {
                same = false;
            }
            k = k + 1;
        }
        if same {
            assert(text@.subrange(i as int, i + n@.len()) =~= n@);
            return true;
        } else {
            assert(text@.subrange(i as int, i + n@.len()) != n@) by {
                let j = choose|j: int| 0 <= j < n@.len() && text@[i + j] != n@[j];
                assert(text@.subrange(i as int, i + n@.len())[j] != n@[j]);
            }
        }
        i = i + 1;
    }
    false
}

} // verus!
