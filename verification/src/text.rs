//! Byte classes of the HTTP/1.1 grammar and the small text routines the
//! parser and the request accessors share.

use vstd::prelude::*;
use vstd::utf8::*;

verus! {

/// `tchar` of RFC 9110: a digit, an ASCII letter, or one of
/// ``! # $ % & ' * + - . ^ _ ` | ~``.
pub open spec fn tchar(b: u8) -> bool {
    ||| (0x30 <= b && b <= 0x39)
    ||| (0x41 <= b && b <= 0x5A)
    ||| (0x61 <= b && b <= 0x7A)
    ||| b == 0x21
    ||| b == 0x23
    ||| b == 0x24
    ||| b == 0x25
    ||| b == 0x26
    ||| b == 0x27
    ||| b == 0x2A
    ||| b == 0x2B
    ||| b == 0x2D
    ||| b == 0x2E
    ||| b == 0x5E
    ||| b == 0x5F
    ||| b == 0x60
    ||| b == 0x7C
    ||| b == 0x7E
}

/// SP, HTAB, VCHAR (0x21..=0x7E) or obs-text (0x80..=0xFF).
pub open spec fn field_content(b: u8) -> bool {
    b == 0x20 || b == 0x09 || (0x21 <= b && b <= 0x7E) || b >= 0x80
}

/// `0-9`, `a-f` or `A-F`.
pub open spec fn hex_digit(b: u8) -> bool {
    (0x30 <= b && b <= 0x39) || (0x41 <= b && b <= 0x46) || (0x61 <= b && b <= 0x66)
}

/// Optional whitespace: SP or HTAB.
pub open spec fn ows(b: u8) -> bool {
    b == 0x20 || b == 0x09
}

/// Whether `b` may appear in a method token or a header name.
pub fn is_tchar(b: u8) -> (r: bool)
    ensures
        r == tchar(b),
{
    (0x30 <= b && b <= 0x39) || (0x41 <= b && b <= 0x5A) || (0x61 <= b && b <= 0x7A) || b == 0x21
        || b == 0x23 || b == 0x24 || b == 0x25 || b == 0x26 || b == 0x27 || b == 0x2A || b == 0x2B
        || b == 0x2D || b == 0x2E || b == 0x5E || b == 0x5F || b == 0x60 || b == 0x7C || b == 0x7E
}

/// Whether `b` may appear in a header field value.
pub fn is_field_content_byte(b: u8) -> (r: bool)
    ensures
        r == field_content(b),
{
    b == 0x20 || b == 0x09 || (0x21 <= b && b <= 0x7E) || b >= 0x80
}

/// Whether `b` is an ASCII hexadecimal digit.
pub fn is_hex_digit(b: u8) -> (r: bool)
    ensures
        r == hex_digit(b),
{
    (0x30 <= b && b <= 0x39) || (0x41 <= b && b <= 0x46) || (0x61 <= b && b <= 0x66)
}

/// `b` with an upper-case ASCII letter folded to lower case.
pub open spec fn lower(b: u8) -> u8 {
    if 0x41 <= b && b <= 0x5A {
        (b + 32) as u8
    } else {
        b
    }
}

/// Folds an upper-case ASCII letter to lower case.
pub fn to_lower(b: u8) -> (r: u8)
    ensures
        r == lower(b),
{
    if 0x41 <= b && b <= 0x5A {
        b + 32
    } else {
        b
    }
}

/// Equality of two byte strings up to the case of ASCII letters.
pub open spec fn eq_ignore_case(a: Seq<u8>, b: Seq<u8>) -> bool {
    a.len() == b.len() && forall|i: int| 0 <= i < a.len() ==> lower(#[trigger] a[i]) == lower(b[i])
}

/// Compares two byte strings up to the case of ASCII letters.
pub fn bytes_eq_ignore_case(a: &[u8], b: &[u8]) -> (r: bool)
    ensures
        r == eq_ignore_case(a@, b@),
{
    if a.len() != b.len() {
        return false;
    }
    let mut i: usize = 0;
    while i < a.len()
        invariant
            a.len() == b.len(),
            i <= a.len(),
            forall|k: int| 0 <= k < i ==> lower(#[trigger] a@[k]) == lower(b@[k]),
        decreases a.len() - i,
    {
        if to_lower(a[i]) != to_lower(b[i]) {
            return false;
        }
        i += 1;
    }
    true
}

/// Compares two byte strings byte for byte.
pub fn bytes_eq(a: &[u8], b: &[u8]) -> (r: bool)
    ensures
        r == (a@ == b@),
{
    if a.len() != b.len() {
        return false;
    }
    let mut i: usize = 0;
    while i < a.len()
        invariant
            a.len() == b.len(),
            i <= a.len(),
            forall|k: int| 0 <= k < i ==> a@[k] == b@[k],
        decreases a.len() - i,
    {
        if a[i] != b[i] {
            return false;
        }
        i += 1;
    }
    assert(a@ =~= b@);
    true
}

/// Whether `needle` occurs at offset `at` of `hay` once `hay` is folded to
/// lower case.
pub open spec fn lowered_match_at(hay: Seq<u8>, needle: Seq<u8>, at: int) -> bool {
    &&& 0 <= at
    &&& at + needle.len() <= hay.len()
    &&& forall|j: int| 0 <= j < needle.len() ==> lower(#[trigger] hay[at + j]) == needle[j]
}

/// Whether `needle` is a substring of the lower-case folding of `hay`.
pub open spec fn contains_lowered(hay: Seq<u8>, needle: Seq<u8>) -> bool {
    exists|at: int| lowered_match_at(hay, needle, at)
}

fn lowered_matches_at(hay: &[u8], needle: &[u8], at: usize) -> (r: bool)
    requires
        at + needle@.len() <= hay@.len(),
    ensures
        r == lowered_match_at(hay@, needle@, at as int),
{
    let hay_len: usize = hay.len();
    let mut j: usize = 0;
    while j < needle.len()
        invariant
            at + needle@.len() <= hay@.len(),
            hay@.len() == hay_len,
            j <= needle.len(),
            forall|k: int| 0 <= k < j ==> lower(#[trigger] hay@[at + k]) == needle@[k],
        decreases needle.len() - j,
    {
        if to_lower(hay[at + j]) != needle[j] {
            return false;
        }
        j += 1;
    }
    true
}

/// Searches the lower-case folding of `hay` for `needle`.
pub fn bytes_contain_lowered(hay: &[u8], needle: &[u8]) -> (r: bool)
    ensures
        r == contains_lowered(hay@, needle@),
{
    if needle.len() > hay.len() {
        assert(forall|at: int| !lowered_match_at(hay@, needle@, at));
        return false;
    }
    let last: usize = hay.len() - needle.len();
    let mut at: usize = 0;
    while at < last
        invariant
            last == hay@.len() - needle@.len(),
            at <= last,
            forall|k: int| 0 <= k < at ==> !lowered_match_at(hay@, needle@, k),
        decreases last - at,
    {
        if lowered_matches_at(hay, needle, at) {
            return true;
        }
        at += 1;
    }
    let found = lowered_matches_at(hay, needle, last);
    assert(!found ==> forall|k: int| !lowered_match_at(hay@, needle@, k));
    found
}

/// The number that the ASCII decimal digits `digits` write, most
/// significant digit first.
pub open spec fn decimal_value(digits: Seq<u8>) -> nat
    decreases digits.len(),
{
    if digits.len() == 0 {
        0
    } else {
        decimal_value(digits.drop_last()) * 10 + (digits.last() - 0x30) as nat
    }
}

/// Whether every byte is an ASCII decimal digit.
pub open spec fn all_decimal(digits: Seq<u8>) -> bool {
    forall|i: int| 0 <= i < digits.len() ==> 0x30 <= #[trigger] digits[i] <= 0x39
}

/// The `usize` that `text` writes in decimal: one or more ASCII digits
/// and nothing else, of a value that fits.
pub open spec fn parse_decimal(text: Seq<u8>) -> Option<usize> {
    if text.len() > 0 && all_decimal(text) && decimal_value(text) <= usize::MAX {
        Some(decimal_value(text) as usize)
    } else {
        None
    }
}

/// A number is at least what any front part of its digits writes.
pub proof fn decimal_value_grows(digits: Seq<u8>, n: int)
    requires
        all_decimal(digits),
        0 <= n <= digits.len(),
    ensures
        decimal_value(digits.take(n)) <= decimal_value(digits),
    decreases digits.len() - n,
{
    if n < digits.len() {
        decimal_value_grows(digits, n + 1);
        assert(digits.take(n + 1).drop_last() =~= digits.take(n));
    } else {
        assert(digits.take(n) =~= digits);
    }
}

/// Reads a decimal number: digits alone, at least one, of a value that
/// fits a `usize`.
pub fn bytes_parse_decimal(text: &[u8]) -> (r: Option<usize>)
    ensures
        r == parse_decimal(text@),
{
    if text.len() == 0 {
        return None;
    }
    let mut value: usize = 0;
    let mut i: usize = 0;
    while i < text.len()
        invariant
            i <= text.len(),
            all_decimal(text@.take(i as int)),
            value == decimal_value(text@.take(i as int)),
        decreases text.len() - i,
    {
        let b: u8 = text[i];
        proof {
            assert(text@.take(i + 1).drop_last() =~= text@.take(i as int));
            assert(text@.take(i + 1).last() == b);
        }
        if !(0x30 <= b && b <= 0x39) {
            return None;
        }
        let d: usize = (b - 0x30) as usize;
        proof {
            if all_decimal(text@) {
                decimal_value_grows(text@, i + 1);
            }
        }
        if value > (usize::MAX - d) / 10 {
            proof {
                assert(value * 10 + d > usize::MAX) by (nonlinear_arith)
                    requires
                        value > (usize::MAX - d) / 10,
                        d <= usize::MAX,
                ;
            }
            return None;
        }
        assert(value * 10 + d <= usize::MAX) by (nonlinear_arith)
            requires
                value <= (usize::MAX - d) / 10,
                d <= usize::MAX,
        ;
        value = value * 10 + d;
        i += 1;
    }
    assert(text@.take(i as int) =~= text@);
    Some(value)
}

/// The value of one ASCII hexadecimal digit.
pub open spec fn hex_digit_value(b: u8) -> nat {
    if 0x30 <= b && b <= 0x39 {
        (b - 0x30) as nat
    } else if 0x41 <= b && b <= 0x46 {
        (b - 0x41 + 10) as nat
    } else {
        (b - 0x61 + 10) as nat
    }
}

/// The number that the ASCII hexadecimal digits `digits` write.
pub open spec fn hex_value(digits: Seq<u8>) -> nat
    decreases digits.len(),
{
    if digits.len() == 0 {
        0
    } else {
        hex_value(digits.drop_last()) * 16 + hex_digit_value(digits.last())
    }
}

/// Whether every byte is an ASCII hexadecimal digit.
pub open spec fn all_hex(digits: Seq<u8>) -> bool {
    forall|i: int| 0 <= i < digits.len() ==> hex_digit(#[trigger] digits[i])
}

/// The `usize` that `text` writes in hexadecimal: one or more hex digits
/// and nothing else, of a value that fits.
pub open spec fn parse_hex(text: Seq<u8>) -> Option<usize> {
    if text.len() > 0 && all_hex(text) && hex_value(text) <= usize::MAX {
        Some(hex_value(text) as usize)
    } else {
        None
    }
}

/// A number is at least what any front part of its hex digits writes.
pub proof fn hex_value_grows(digits: Seq<u8>, n: int)
    requires
        0 <= n <= digits.len(),
    ensures
        hex_value(digits.take(n)) <= hex_value(digits),
    decreases digits.len() - n,
{
    if n < digits.len() {
        hex_value_grows(digits, n + 1);
        assert(digits.take(n + 1).drop_last() =~= digits.take(n));
    } else {
        assert(digits.take(n) =~= digits);
    }
}

/// Reads a hexadecimal number: hex digits alone, at least one, of a
/// value that fits a `usize`.
pub fn bytes_parse_hex(text: &[u8]) -> (r: Option<usize>)
    ensures
        r == parse_hex(text@),
{
    if text.len() == 0 {
        return None;
    }
    let mut value: usize = 0;
    let mut i: usize = 0;
    while i < text.len()
        invariant
            i <= text.len(),
            all_hex(text@.take(i as int)),
            value == hex_value(text@.take(i as int)),
        decreases text.len() - i,
    {
        let b: u8 = text[i];
        proof {
            assert(text@.take(i + 1).drop_last() =~= text@.take(i as int));
            assert(text@.take(i + 1).last() == b);
        }
        if !is_hex_digit(b) {
            return None;
        }
        let d: usize = if 0x30 <= b && b <= 0x39 {
            (b - 0x30) as usize
        } else if 0x41 <= b && b <= 0x46 {
            (b - 0x41 + 10) as usize
        } else {
            (b - 0x61 + 10) as usize
        };
        proof {
            hex_value_grows(text@, i + 1);
        }
        if value > (usize::MAX - d) / 16 {
            proof {
                assert(value * 16 + d > usize::MAX) by (nonlinear_arith)
                    requires
                        value > (usize::MAX - d) / 16,
                        d <= usize::MAX,
                ;
            }
            return None;
        }
        assert(value * 16 + d <= usize::MAX) by (nonlinear_arith)
            requires
                value <= (usize::MAX - d) / 16,
                d <= usize::MAX,
        ;
        value = value * 16 + d;
        i += 1;
    }
    assert(text@.take(i as int) =~= text@);
    Some(value)
}

/// `text` without the SP and HTAB bytes at its end.
pub open spec fn strip_trailing_ows(text: Seq<u8>) -> Seq<u8>
    decreases text.len(),
{
    if text.len() > 0 && ows(text.last()) {
        strip_trailing_ows(text.drop_last())
    } else {
        text
    }
}

/// Removes the SP and HTAB bytes at the end of `text`.
pub fn trim_trailing_ows(text: &mut Vec<u8>)
    ensures
        final(text)@ == strip_trailing_ows(old(text)@),
{
    while text.len() > 0 && (text[text.len() - 1] == 0x20 || text[text.len() - 1] == 0x09)
        invariant
            strip_trailing_ows(text@) == strip_trailing_ows(old(text)@),
        decreases text.len(),
    {
        assert(strip_trailing_ows(text@) == strip_trailing_ows(text@.drop_last()));
        let ghost before = text@;
        text.pop();
        assert(text@ =~= before.drop_last());
    }
}

/// The text that `bytes` decode to when every malformed UTF-8 sequence is
/// replaced by U+FFFD.
pub uninterp spec fn utf8_lossy(bytes: Seq<u8>) -> Seq<char>;

/// Calls `String::from_utf8_lossy` and takes ownership of what it gives.
/// The result is named `utf8_lossy`; of well-formed UTF-8 it is the text
/// that the bytes encode.
#[verifier::external_body]
pub(crate) fn lossy_string(bytes: &[u8]) -> (s: String)
    ensures
        s@ == utf8_lossy(bytes@),
        valid_utf8(bytes@) ==> s@ == decode_utf8(bytes@),
{
    String::from_utf8_lossy(bytes).into_owned()
}

/// Calls `core::str::from_utf8`: the bytes as text where they are
/// well-formed UTF-8, nothing where they are not.
#[verifier::external_body]
pub(crate) fn utf8_text(bytes: &[u8]) -> (r: Option<&str>)
    ensures
        r.is_some() == valid_utf8(bytes@),
        r matches Some(s) ==> s@ == decode_utf8(bytes@),
{
    core::str::from_utf8(bytes).ok()
}

/// White_Space of Unicode, which is what `char::is_whitespace` tests.
pub open spec fn whitespace(c: char) -> bool {
    let u = c as u32;
    ||| (0x09 <= u && u <= 0x0D)
    ||| u == 0x20
    ||| u == 0x85
    ||| u == 0xA0
    ||| u == 0x1680
    ||| (0x2000 <= u && u <= 0x200A)
    ||| u == 0x2028
    ||| u == 0x2029
    ||| u == 0x202F
    ||| u == 0x205F
    ||| u == 0x3000
}

/// `text` without the whitespace at its start.
pub open spec fn skip_leading_whitespace(text: Seq<char>) -> Seq<char>
    decreases text.len(),
{
    if text.len() > 0 && whitespace(text.first()) {
        skip_leading_whitespace(text.drop_first())
    } else {
        text
    }
}

/// `text` without the whitespace at its end.
pub open spec fn drop_trailing_whitespace(text: Seq<char>) -> Seq<char>
    decreases text.len(),
{
    if text.len() > 0 && whitespace(text.last()) {
        drop_trailing_whitespace(text.drop_last())
    } else {
        text
    }
}

/// `text` without the whitespace at its start and at its end.
pub open spec fn trim_whitespace(text: Seq<char>) -> Seq<char> {
    drop_trailing_whitespace(skip_leading_whitespace(text))
}

/// Calls `str::trim`, which removes leading and trailing White_Space.
#[verifier::external_body]
pub(crate) fn trimmed(text: &str) -> (r: &str)
    ensures
        r@ == trim_whitespace(text@),
{
    text.trim()
}

/// Calls `String::push`, which appends one character.
#[verifier::external_body]
pub(crate) fn push_char(text: &mut String, c: char)
    ensures
        final(text)@ == old(text)@.push(c),
{
    text.push(c)
}

/// Two texts are equal exactly when their UTF-8 encodings are.
pub proof fn encoding_is_injective(a: Seq<char>, b: Seq<char>)
    ensures
        (encode_utf8(a) == encode_utf8(b)) == (a == b),
{
    encode_utf8_decode_utf8(a);
    encode_utf8_decode_utf8(b);
}

} // verus!
