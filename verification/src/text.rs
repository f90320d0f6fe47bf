//! Character-level primitives over `Seq<char>` and the few standard-library
//! character operations the library relies on.

use vstd::prelude::*;

verus! {

broadcast use vstd::string::group_string_axioms;

/// Collects the characters of `s` into a vector.
pub fn chars_of(s: &str) -> (v: Vec<char>)
    ensures
        v@ == s@,
{
    let mut v: Vec<char> = Vec::new();
    for c in it: s.chars()
        invariant
            v@ == it.seq().take(it.index()),
    {
        v.push(c);
    }
    v
}

} // verus!

verus! {

/// `c` is an ASCII uppercase letter.
pub open spec fn is_ascii_upper(c: char) -> bool {
    'A' <= c && c <= 'Z'
}

/// `c` is an ASCII lowercase letter.
pub open spec fn is_ascii_lower(c: char) -> bool {
    'a' <= c && c <= 'z'
}

/// `c` is an ASCII decimal digit.
pub open spec fn is_ascii_digit(c: char) -> bool {
    '0' <= c && c <= '9'
}

/// `c` is an ASCII letter or digit.
pub open spec fn is_ascii_alnum(c: char) -> bool {
    is_ascii_upper(c) || is_ascii_lower(c) || is_ascii_digit(c)
}

/// `c` lies in the ASCII range.
pub open spec fn is_ascii_char(c: char) -> bool {
    (c as u32) < 128
}

/// ASCII lowercase mapping: `'A'..='Z'` go to `'a'..='z'`, every other
/// character is unchanged.
pub open spec fn ascii_lower(c: char) -> char {
    if is_ascii_upper(c) {
        ((c as u32) + 32) as char
    } else {
        c
    }
}

/// ASCII uppercase mapping: `'a'..='z'` go to `'A'..='Z'`, every other
/// character is unchanged.
pub open spec fn ascii_upper(c: char) -> char {
    if is_ascii_lower(c) {
        ((c as u32) - 32) as char
    } else {
        c
    }
}

/// Exec form of [`ascii_lower`] (the behaviour of `char::to_ascii_lowercase`).
pub fn to_ascii_lowercase(c: char) -> (r: char)
    ensures
        r == ascii_lower(c),
{
    if 'A' <= c && c <= 'Z' {
        let code: u8 = c as u8;
        (code + 32) as char
    } else {
        c
    }
}

} // verus!

verus! {

/// Whether `c` has the Unicode `Alphabetic` or `Numeric` property, the
/// answer of `char::is_alphanumeric`.
pub uninterp spec fn unicode_alphanumeric(c: char) -> bool;

/// The Unicode uppercase mapping of `c`, the characters that
/// `char::to_uppercase` yields.
pub uninterp spec fn unicode_uppercase(c: char) -> Seq<char>;

/// Whether `c` is a letter or digit in the sense of `char::is_alphanumeric`:
/// for ASCII exactly the letters and digits, beyond ASCII the Unicode
/// properties named by [`unicode_alphanumeric`].
pub open spec fn alphanumeric(c: char) -> bool {
    if is_ascii_char(c) {
        is_ascii_alnum(c)
    } else {
        unicode_alphanumeric(c)
    }
}

/// The uppercase mapping of `c` in the sense of `char::to_uppercase`: for
/// ASCII the single character [`ascii_upper`] of it, beyond ASCII the Unicode
/// mapping named by [`unicode_uppercase`].
pub open spec fn uppercase(c: char) -> Seq<char> {
    if is_ascii_char(c) {
        seq![ascii_upper(c)]
    } else {
        unicode_uppercase(c)
    }
}

/// Calls `char::is_alphanumeric`. Trusted: its answer is
/// [`unicode_alphanumeric`] of `c`, and on ASCII input it is true exactly for
/// ASCII letters and digits, as the standard library documents. Which
/// non-ASCII characters qualify is left unstated.
#[verifier::external_body]
pub(crate) fn char_is_alphanumeric(c: char) -> (r: bool)
    ensures
        r == unicode_alphanumeric(c),
        is_ascii_char(c) ==> (r == is_ascii_alnum(c)),
{
    c.is_alphanumeric()
}

/// Calls `char::to_uppercase` and collects what it yields. Trusted: the
/// result is [`unicode_uppercase`] of `c`; an ASCII character maps to the
/// single character [`ascii_upper`] of it. The mapping of non-ASCII
/// characters is left unstated.
#[verifier::external_body]
pub(crate) fn char_to_uppercase(c: char) -> (r: Vec<char>)
    ensures
        r@ == unicode_uppercase(c),
        is_ascii_char(c) ==> r@ == seq![ascii_upper(c)],
{
    c.to_uppercase().collect()
}

/// Builds a `String` from a vector of characters (`FromIterator<char>` for
/// `String`). Trusted: the string holds exactly those characters, in order.
#[verifier::external_body]
pub(crate) fn string_from_chars(chars: &Vec<char>) -> (s: String)
    ensures
        s@ == chars@,
{
    chars.iter().collect()
}

/// `a` and `b` are equal up to ASCII case: the same length, and equal
/// characters at every position once ASCII uppercase is lowered.
pub open spec fn eq_ignoring_ascii_case(a: Seq<char>, b: Seq<char>) -> bool {
    a.len() == b.len() && forall|i: int| 0 <= i < a.len() ==> #[trigger] ascii_lower(a[i]) == ascii_lower(b[i])
}

/// Case-insensitive comparison in the sense of `str::eq_ignore_ascii_case`.
pub fn eq_ignore_ascii_case(a: &str, b: &str) -> (r: bool)
    ensures
        r == eq_ignoring_ascii_case(a@, b@),
{
    let x = chars_of(a);
    let y = chars_of(b);
    if x.len() != y.len() {
        return false;
    }
    let n = x.len();
    for i in 0..n
        invariant
            x@ == a@,
            y@ == b@,
            n == x.len() == y.len(),
            forall|j: int| 0 <= j < i ==> #[trigger] ascii_lower(x@[j]) == ascii_lower(y@[j]),
    {
        if to_ascii_lowercase(x[i]) != to_ascii_lowercase(y[i]) {
            return false;
        }
    }
    true
}

/// The text `s` with ASCII uppercase letters lowered.
pub open spec fn lowered(s: Seq<char>) -> Seq<char> {
    s.map_values(|c: char| ascii_lower(c))
}

/// Case-insensitive equality is equality after ASCII lowercasing: two texts
/// match exactly when lowering their ASCII letters makes them identical, so
/// every position counts, the first and the last included.
pub proof fn lemma_eq_ignoring_ascii_case_is_lowered_equality(a: Seq<char>, b: Seq<char>)
    ensures
        eq_ignoring_ascii_case(a, b) <==> lowered(a) == lowered(b),
{
    if eq_ignoring_ascii_case(a, b) {
        assert(lowered(a) =~= lowered(b));
    }
    if lowered(a) == lowered(b) {
        assert(a.len() == lowered(a).len());
        assert forall|i: int| 0 <= i < a.len() implies #[trigger] ascii_lower(a[i]) == ascii_lower(b[i]) by {
            assert(lowered(a)[i] == ascii_lower(a[i]));
            assert(lowered(b)[i] == ascii_lower(b[i]));
        }
    }
}

} // verus!
