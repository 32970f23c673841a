use vstd::prelude::*;
use vstd::utf8::encode_utf8;

verus! {

/// Whether two string slices hold the same text.
///
/// Trusted: calls std's `<str as PartialEq>::eq`, which compares the two
/// strings' contents; the contract says the result is the equality of the
/// two character sequences.
#[verifier::external_body]
pub fn str_eq(a: &str, b: &str) -> (r: bool)
    ensures
        r == (a@ == b@),
{
    a == b
}

/// Whether `s` begins with `prefix`.
///
/// Trusted: calls std's `str::starts_with` with a `&str` pattern, which is
/// documented to return true exactly when `prefix` is a prefix of `s`.
#[verifier::external_body]
pub fn starts_with(s: &str, prefix: &str) -> (r: bool)
    ensures
        r == prefix@.is_prefix_of(s@),
{
    s.starts_with(prefix)
}

/// `s` without its leading `prefix`, or `None` when `s` does not begin with it.
///
/// Trusted: calls std's `str::strip_prefix` with a `&str` pattern, which is
/// documented to return the rest of `s` after `prefix` when `s` begins with
/// `prefix`, and `None` otherwise.
#[verifier::external_body]
pub fn strip_prefix<'a>(s: &'a str, prefix: &str) -> (r: Option<&'a str>)
    ensures
        r is Some <==> prefix@.is_prefix_of(s@),
        r matches Some(rest) ==> rest@ == s@.skip(prefix@.len() as int),
{
    s.strip_prefix(prefix)
}

/// The characters of `s`, in order.
///
/// Trusted: calls std's `str::chars` and collects what it yields, which the
/// std documentation describes as the `char`s of the string in order.
#[verifier::external_body]
pub fn chars_of(s: &str) -> (r: Vec<char>)
    ensures
        r@ == s@,
{
    s.chars().collect()
}

/// The string made of the characters `cs`, in order.
///
/// Trusted: calls std's `String::from_iter` over `char`s, which pushes each
/// character in turn onto an empty string.
#[verifier::external_body]
pub fn string_from_chars(cs: &[char]) -> (r: String)
    ensures
        r@ == cs@,
{
    String::from_iter(cs.iter())
}

/// Whether `c` has the Unicode general category `Cc` (control), which holds
/// exactly the code points U+0000 to U+001F and U+007F to U+009F.
pub open spec fn spec_is_control(c: char) -> bool {
    (c as u32) <= 0x1f || (0x7f <= (c as u32) && (c as u32) <= 0x9f)
}

/// Whether `c` is a control character (see [`spec_is_control`]).
pub fn is_control(c: char) -> (r: bool)
    ensures
        r == spec_is_control(c),
{
    let n = c as u32;
    n <= 0x1f || (0x7f <= n && n <= 0x9f)
}

/// The character sequences of a list of strings.
pub open spec fn strings_view(v: Seq<String>) -> Seq<Seq<char>> {
    v.map_values(|s: String| s@)
}

/// The number of bytes that `s` takes in UTF-8.
///
/// Trusted: calls std's `str::len`, documented as the length of the string
/// in bytes; a string in memory is never longer than `usize::MAX` bytes.
#[verifier::external_body]
pub fn byte_len(s: &str) -> (r: usize)
    ensures
        r as int == encode_utf8(s@).len(),
{
    s.len()
}

/// The text that `{:?}` gives for a list of strings: `["a", "b"]`, with
/// each string quoted and escaped as std's `Debug` for `str` does.
pub uninterp spec fn debug_text_of_strs(items: Seq<Seq<char>>) -> Seq<char>;

/// The `{:?}` text of a list of strings.
///
/// Trusted: calls std's `format!("{:?}", ..)` on the slice; what that gives
/// is named by [`debug_text_of_strs`].
#[verifier::external_body]
pub fn debug_strs(items: &[&str]) -> (r: String)
    ensures
        r@ == debug_text_of_strs(items@.map_values(|x: &str| x@)),
{
    format!("{:?}", items)
}

/// Whether `c` is an ASCII decimal digit.
pub open spec fn is_digit(c: char) -> bool {
    '0' <= c && c <= '9'
}

/// The value of the decimal digits `ds`.
pub open spec fn digits_value(ds: Seq<char>) -> int
    decreases ds.len(),
{
    if ds.len() == 0 {
        0
    } else {
        digits_value(ds.drop_last()) * 10 + ((ds.last() as int) - ('0' as int))
    }
}

/// The length of the sign in front of the digits of `s`: 1 where `s`
/// starts with `+` or `-`, else 0.
pub open spec fn sign_len(s: Seq<char>) -> int {
    if s.len() > 0 && (s[0] == '-' || s[0] == '+') {
        1
    } else {
        0
    }
}

/// Whether every character of `ds` is a decimal digit.
pub open spec fn all_digits(ds: Seq<char>) -> bool {
    forall|i: int| 0 <= i < ds.len() ==> #[trigger] is_digit(ds[i])
}

/// The `i64` that `s` denotes as std's `i64::from_str` reads it: an optional
/// `+` or `-`, then one or more decimal digits, with a value in the range of
/// `i64`; `None` for any other text.
pub open spec fn spec_parse_i64(s: Seq<char>) -> Option<i64> {
    let ds = s.skip(sign_len(s));
    let v = if s.len() > 0 && s[0] == '-' {
        -digits_value(ds)
    } else {
        digits_value(ds)
    };
    if ds.len() > 0 && all_digits(ds) && i64::MIN <= v <= i64::MAX {
        Some(v as i64)
    } else {
        None
    }
}

/// The magnitude beyond which no `i64` lies.
const MAGNITUDE_CAP: u128 = 9223372036854775809;

/// Reads `s` as a decimal `i64` (see [`spec_parse_i64`]).
pub fn parse_i64(s: &str) -> (r: Option<i64>)
    ensures
        r == spec_parse_i64(s@),
{
    let cs = chars_of(s);
    let neg = cs.len() > 0 && cs[0] == '-';
    let start: usize = if cs.len() > 0 && (cs[0] == '-' || cs[0] == '+') {
        1
    } else {
        0
    };
    let ghost ds = cs@.skip(start as int);
    assert(start as int == sign_len(s@));
    if start >= cs.len() {
        return None;
    }
    let mut acc: u128 = 0;
    let mut i: usize = start;
    while i < cs.len()
        invariant
            start <= i <= cs@.len(),
            cs@ == s@,
            start as int == sign_len(s@),
            neg == (s@.len() > 0 && s@[0] == '-'),
            ds == cs@.skip(start as int),
            forall|j: int| 0 <= j < i - start ==> #[trigger] is_digit(ds[j]),
            acc as int == if digits_value(ds.take(i - start)) < MAGNITUDE_CAP as int {
                digits_value(ds.take(i - start))
            } else {
                MAGNITUDE_CAP as int
            },
            digits_value(ds.take(i - start)) >= 0,
        decreases cs@.len() - i,
    {
        let c = cs[i];
        if !('0' <= c && c <= '9') {
            assert(!is_digit(ds[i - start]));
            return None;
        }
        let d = (c as u32) - ('0' as u32);
        proof {
            assert(ds.take(i - start + 1).drop_last() =~= ds.take(i - start));
            assert(ds.take(i - start + 1).last() == c);
        }
        let next = acc * 10 + (d as u128);
        acc = if next < MAGNITUDE_CAP {
            next
        } else {
            MAGNITUDE_CAP
        };
        i = i + 1;
    }
    proof {
        assert(ds.take(ds.len() as int) =~= ds);
    }
    if neg {
        if acc < 9223372036854775808 {
            Some(-(acc as i64))
        } else if acc == 9223372036854775808 {
            Some(i64::MIN)
        } else {
            None
        }
    } else {
        if acc <= 9223372036854775807 {
            Some(acc as i64)
        } else {
            None
        }
    }
}

/// The view of an optional string slice.
pub open spec fn opt_str_view(r: Option<&str>) -> Option<Seq<char>> {
    match r {
        Some(s) => Some(s@),
        None => None,
    }
}

} // verus!
