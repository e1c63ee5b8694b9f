//! Text encodings: URL-safe Base64 (through `base64`), hyphenated UUIDs
//! (through `uuid`), UTF-8 decoding and unsigned decimal parsing.

use vstd::prelude::*;
use vstd::utf8::{decode_utf8, valid_utf8};

use base64::Engine;

use crate::text::{decimal, digit_char};

verus! {

/// The URL-safe Base64 alphabet: letters, digits, `-` and `_`.
pub open spec fn is_base64url_char(c: char) -> bool {
    ('A' <= c <= 'Z') || ('a' <= c <= 'z') || ('0' <= c <= '9') || c == '-' || c == '_'
}

/// Unpadded URL-safe Base64 text of a byte string.
pub uninterp spec fn base64url(bytes: Seq<u8>) -> Seq<char>;

/// The bytes that unpadded URL-safe Base64 decoding yields for a text, or
/// `None` when the text is not valid unpadded URL-safe Base64.
pub uninterp spec fn base64url_decoded(text: Seq<char>) -> Option<Seq<u8>>;

/// Calls `base64::engine::general_purpose::URL_SAFE_NO_PAD.encode`. Claimed:
/// the text is `base64url` of the bytes, uses only the URL-safe alphabet, and
/// decodes back to the same bytes with the same engine.
#[verifier::external_body]
pub(crate) fn base64url_encode(bytes: &[u8]) -> (text: String)
    ensures
        text@ == base64url(bytes@),
        forall|i: int| 0 <= i < text@.len() ==> is_base64url_char(#[trigger] text@[i]),
        base64url_decoded(text@) == Some(bytes@),
{
    base64::engine::general_purpose::URL_SAFE_NO_PAD.encode(bytes)
}

/// Calls `base64::engine::general_purpose::URL_SAFE_NO_PAD.decode`. Claimed:
/// the result is `base64url_decoded` of the text.
#[verifier::external_body]
pub(crate) fn base64url_decode(text: &str) -> (bytes: Option<Vec<u8>>)
    ensures
        match base64url_decoded(text@) {
            Some(expected) => bytes matches Some(b) && b@ == expected,
            None => bytes is None,
        },
{
    match base64::engine::general_purpose::URL_SAFE_NO_PAD.decode(text) {
        Ok(bytes) => Some(bytes),
        Err(_) => None,
    }
}

/// A lowercase hexadecimal digit.
pub open spec fn hex_char(n: int) -> char {
    if n < 10 {
        digit_char(n)
    } else {
        ('a' as int + (n - 10)) as char
    }
}

/// The last `count` hexadecimal digits of a number, most significant first.
pub open spec fn hex_digits(value: nat, count: nat) -> Seq<char>
    decreases count,
{
    if count == 0 {
        Seq::empty()
    } else {
        hex_digits(value / 16, (count - 1) as nat).push(hex_char((value % 16) as int))
    }
}

/// The hyphenated lowercase text of a UUID: 8-4-4-4-12 hexadecimal digits.
pub open spec fn uuid_text(value: u128) -> Seq<char> {
    let h = hex_digits(value as nat, 32);
    h.subrange(0, 8) + seq!['-'] + h.subrange(8, 12) + seq!['-'] + h.subrange(12, 16) + seq!['-']
        + h.subrange(16, 20) + seq!['-'] + h.subrange(20, 32)
}

/// The UUID that `uuid::Uuid::parse_str` reads from a text, if any.
pub uninterp spec fn uuid_parsed(text: Seq<char>) -> Option<u128>;

/// Formats a UUID with `uuid::Uuid`'s `Display` (hyphenated lowercase).
/// Claimed: the text is `uuid_text` of the bits, and `parse_str` reads the
/// same bits back from it.
#[verifier::external_body]
pub(crate) fn uuid_string(value: u128) -> (text: String)
    ensures
        text@ == uuid_text(value),
        uuid_parsed(text@) == Some(value),
{
    uuid::Uuid::from_u128(value).to_string()
}

/// Calls `uuid::Uuid::parse_str`. Claimed: the result is `uuid_parsed` of the text.
#[verifier::external_body]
pub(crate) fn parse_uuid(text: &str) -> (value: Option<u128>)
    ensures
        value == uuid_parsed(text@),
{
    match uuid::Uuid::parse_str(text) {
        Ok(uuid) => Some(uuid.as_u128()),
        Err(_) => None,
    }
}

/// Calls `String::from_utf8`. Claimed, as its documentation states: it
/// succeeds exactly on valid UTF-8, with the decoded characters.
#[verifier::external_body]
pub(crate) fn utf8_text(bytes: Vec<u8>) -> (text: Option<String>)
    ensures
        text is Some <==> valid_utf8(bytes@),
        text matches Some(t) ==> t@ == decode_utf8(bytes@),
{
    match String::from_utf8(bytes) {
        Ok(text) => Some(text),
        Err(_) => None,
    }
}

proof fn lemma_hex_digits_len(value: nat, count: nat)
    ensures
        hex_digits(value, count).len() == count,
    decreases count,
{
    if count > 0 {
        lemma_hex_digits_len(value / 16, (count - 1) as nat);
    }
}

proof fn lemma_hex_digits_no_colon(value: nat, count: nat)
    ensures
        forall|i: int| 0 <= i < hex_digits(value, count).len() ==> #[trigger] hex_digits(value, count)[i] != ':',
    decreases count,
{
    if count > 0 {
        lemma_hex_digits_no_colon(value / 16, (count - 1) as nat);
        let d = (value % 16) as int;
        assert(hex_char(d) != ':');
        let prev = hex_digits(value / 16, (count - 1) as nat);
        assert(hex_digits(value, count) == prev.push(hex_char(d)));
        assert forall|i: int| 0 <= i < hex_digits(value, count).len() implies #[trigger] hex_digits(value, count)[i] != ':' by {
            if i < prev.len() {
                assert(hex_digits(value, count)[i] == prev[i]);
            } else {
                assert(hex_digits(value, count)[i] == hex_char(d));
            }
        }
    }
}

/// The text of a UUID is 36 characters long and holds no colon.
pub proof fn lemma_uuid_text_shape(value: u128)
    ensures
        uuid_text(value).len() == 36,
        forall|i: int| 0 <= i < 36 ==> #[trigger] uuid_text(value)[i] != ':',
{
    lemma_hex_digits_len(value as nat, 32);
    lemma_hex_digits_no_colon(value as nat, 32);
    let h = hex_digits(value as nat, 32);
    assert forall|i: int| 0 <= i < 36 implies #[trigger] uuid_text(value)[i] != ':' by {
        let t = uuid_text(value);
        if i < 8 {
            assert(t[i] == h[i]);
        } else if i == 8 || i == 13 || i == 18 || i == 23 {
        } else if i < 13 {
            assert(t[i] == h[i - 1]);
        } else if i < 18 {
            assert(t[i] == h[i - 2]);
        } else if i < 23 {
            assert(t[i] == h[i - 3]);
        } else {
            assert(t[i] == h[i - 4]);
        }
    }
}

/// Whether a character is an ASCII decimal digit.
pub open spec fn is_digit(c: char) -> bool {
    '0' <= c <= '9'
}

/// Whether every character of a text is a decimal digit.
pub open spec fn all_digits(s: Seq<char>) -> bool {
    forall|i: int| 0 <= i < s.len() ==> is_digit(#[trigger] s[i])
}

/// The value of a string of decimal digits.
pub open spec fn digits_value(digits: Seq<char>) -> nat
    decreases digits.len(),
{
    if digits.len() == 0 {
        0
    } else {
        digits_value(digits.drop_last()) * 10 + ((digits[digits.len() - 1] as int) - ('0' as int)) as nat
    }
}

/// A text without its leading `+`, if it has one.
pub open spec fn unsigned_body(text: Seq<char>) -> Seq<char> {
    if text.len() > 0 && text[0] == '+' {
        text.drop_first()
    } else {
        text
    }
}

/// What `str::parse::<u64>` yields: an optional `+`, then at least one
/// decimal digit and nothing else, of a value that fits in 64 bits.
pub open spec fn parsed_u64(text: Seq<char>) -> Option<u64> {
    let body = unsigned_body(text);
    if body.len() == 0 || !all_digits(body) {
        None
    } else if digits_value(body) > u64::MAX {
        None
    } else {
        Some(digits_value(body) as u64)
    }
}

proof fn lemma_digits_value_grows(digits: Seq<char>, n: int)
    requires
        0 <= n <= digits.len(),
        all_digits(digits),
    ensures
        digits_value(digits.take(n)) <= digits_value(digits),
    decreases digits.len() - n,
{
    if n < digits.len() {
        lemma_digits_value_grows(digits, n + 1);
        assert(digits.take(n + 1).drop_last() =~= digits.take(n));
    } else {
        assert(digits.take(n) =~= digits);
    }
}

proof fn lemma_decimal_digits(n: nat)
    ensures
        decimal(n).len() > 0,
        all_digits(decimal(n)),
        digits_value(decimal(n)) == n,
    decreases n,
{
    if n >= 10 {
        lemma_decimal_digits(n / 10);
        let d = decimal(n);
        assert(d.drop_last() =~= decimal(n / 10));
        assert((d[d.len() - 1] as int) - ('0' as int) == n % 10);
        assert((n / 10) * 10 + n % 10 == n) by (nonlinear_arith);
        assert(digits_value(d) == digits_value(d.drop_last()) * 10 + n % 10);
        assert(digits_value(d.drop_last()) == n / 10);
        assert forall|i: int| 0 <= i < d.len() implies is_digit(#[trigger] d[i]) by {
            if i < d.len() - 1 {
                assert(d[i] == decimal(n / 10)[i]);
            }
        }
    } else {
        let d = decimal(n);
        assert(d.drop_last() =~= Seq::<char>::empty());
        assert((d[0] as int) - ('0' as int) == n);
        assert(digits_value(d) == digits_value(d.drop_last()) * 10 + n);
    }
}

/// Parsing the decimal text of a number gives the number back.
pub proof fn lemma_parse_decimal(n: u64)
    ensures
        parsed_u64(decimal(n as nat)) == Some(n),
{
    lemma_decimal_digits(n as nat);
    let d = decimal(n as nat);
    assert(is_digit(d[0]));
    assert(unsigned_body(d) == d);
}

/// Unsigned decimal parsing, as `str::parse::<u64>`.
pub fn parse_u64(text: &str) -> (value: Option<u64>)
    ensures
        value == parsed_u64(text@),
{
    let chars = crate::text::chars_of(text);
    let start: usize = if chars.len() > 0 && chars[0] == '+' { 1 } else { 0 };
    let ghost body = unsigned_body(text@);
    if start == chars.len() {
        return None;
    }
    let mut value: u64 = 0;
    let mut i: usize = start;
    while i < chars.len()
        invariant
            chars@ == text@,
            start <= i <= chars@.len(),
            start < chars@.len(),
            body == unsigned_body(text@),
            body == chars@.subrange(start as int, chars@.len() as int),
            forall|k: int| start <= k < i ==> is_digit(#[trigger] chars@[k]),
            value == digits_value(chars@.subrange(start as int, i as int)),
        decreases chars.len() - i,
    {
        let c = chars[i];
        if !('0' <= c && c <= '9') {
            proof {
                assert(body[i - start] == c);
                assert(!all_digits(body));
                assert(parsed_u64(text@) is None);
            }
            return None;
        }
        let d = (c as u32 - '0' as u32) as u64;
        proof {
            assert(chars@.subrange(start as int, i + 1).drop_last() =~= chars@.subrange(start as int, i as int));
        }
        if value > 1844674407370955161u64 || (value == 1844674407370955161u64 && d > 5) {
            proof {
                let upto = chars@.subrange(start as int, i + 1);
                assert(digits_value(upto) > u64::MAX);
                if all_digits(body) {
                    lemma_digits_value_grows(body, i + 1 - start);
                    assert(body.take(i + 1 - start) =~= upto);
                }
                assert(parsed_u64(text@) is None);
            }
            return None;
        }
        value = value * 10 + d;
        i = i + 1;
    }
    Some(value)
}

} // verus!
