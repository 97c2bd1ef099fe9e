//! Percent-encoding of what goes into a URL.
use vstd::prelude::*;
use vstd::utf8::{encode_utf8, encode_utf8_decode_utf8};

use crate::text::is_free_of;

verus! {

/// Whether a byte stands for itself in a URL: alphanumerics and `-`, `_`, `.`,
/// `~`.
pub open spec fn is_unreserved(byte: u8) -> bool {
    ||| 48 <= byte <= 57
    ||| 65 <= byte <= 90
    ||| 97 <= byte <= 122
    ||| byte == 45
    ||| byte == 95
    ||| byte == 46
    ||| byte == 126
}

/// The character of a hexadecimal digit.
pub open spec fn hex_char(digit: u8) -> char {
    if digit < 10 {
        (48 + digit) as char
    } else {
        (55 + digit) as char
    }
}

/// A byte in a URL: itself, or `%` and its two hexadecimal digits.
pub open spec fn percent_encoded_byte(byte: u8) -> Seq<char> {
    if is_unreserved(byte) {
        seq![byte as char]
    } else {
        seq!['%', hex_char(byte / 16), hex_char(byte % 16)]
    }
}

/// Bytes in a URL.
pub open spec fn percent_encoded(bytes: Seq<u8>) -> Seq<char>
    decreases bytes.len(),
{
    if bytes.len() == 0 {
        Seq::empty()
    } else {
        percent_encoded_byte(bytes[0]) + percent_encoded(bytes.drop_first())
    }
}

/// A text in a URL.
pub open spec fn url_encoded(text: Seq<char>) -> Seq<char> {
    percent_encoded(encode_utf8(text))
}

/// Calls `urlencoding::encode`.
///
/// Claimed of it: every byte of the text stands for itself if it is unreserved,
/// and is percent-encoded otherwise, with digits in upper case.
#[verifier::external_body]
pub(crate) fn encode(text: &str) -> (r: String)
    ensures
        r@ == url_encoded(text@),
{
    urlencoding::encode(text).into_owned()
}

proof fn lemma_percent_encoded_is_free_of(bytes: Seq<u8>, c: char)
    requires
        c < '\u{80}',
        !is_unreserved(c as u8),
        c != '%',
    ensures
        is_free_of(percent_encoded(bytes), c),
    decreases bytes.len(),
{
    if bytes.len() > 0 {
        let byte = bytes[0];
        lemma_percent_encoded_is_free_of(bytes.drop_first(), c);
        assert(byte / 16 < 16 && byte % 16 < 16);
        let first = percent_encoded_byte(byte);
        assert forall|i: int| 0 <= i < first.len() implies #[trigger] first[i] != c by {}
        let rest = percent_encoded(bytes.drop_first());
        assert forall|i: int| 0 <= i < (first + rest).len() implies #[trigger] (first + rest)[i]
            != c by {
            if i >= first.len() {
                assert((first + rest)[i] == rest[i - first.len()]);
            }
        }
    }
}

/// An encoded text holds none of the characters that have a meaning in a URL, so
/// it cannot end the parameter that it stands in.
pub proof fn encoded_text_stays_in_its_parameter(text: Seq<char>, c: char)
    requires
        c == '&' || c == '=' || c == '?' || c == '#' || c == '/' || c == ':' || c == '+' || c == ' ',
    ensures
        is_free_of(url_encoded(text), c),
{
    lemma_percent_encoded_is_free_of(encode_utf8(text), c);
}

proof fn lemma_percent_encoded_injective(a: Seq<u8>, b: Seq<u8>)
    requires
        percent_encoded(a) == percent_encoded(b),
    ensures
        a == b,
    decreases a.len(),
{
    if a.len() == 0 {
        if b.len() > 0 {
            assert(percent_encoded(b).len() > 0);
        }
        assert(a =~= b);
    } else if b.len() == 0 {
        assert(percent_encoded(a).len() > 0);
    } else {
        let first_a = percent_encoded_byte(a[0]);
        let first_b = percent_encoded_byte(b[0]);
        let rest_a = percent_encoded(a.drop_first());
        let rest_b = percent_encoded(b.drop_first());
        assert((first_a + rest_a)[0] == first_a[0]);
        assert((first_b + rest_b)[0] == first_b[0]);
        if !is_unreserved(a[0]) && !is_unreserved(b[0]) {
            assert((first_a + rest_a)[1] == first_a[1] && (first_a + rest_a)[2] == first_a[2]);
            assert((first_b + rest_b)[1] == first_b[1] && (first_b + rest_b)[2] == first_b[2]);
            assert(a[0] / 16 < 16 && a[0] % 16 < 16 && b[0] / 16 < 16 && b[0] % 16 < 16);
        }
        assert(a[0] == b[0]);
        assert(rest_a =~= (first_a + rest_a).skip(first_a.len() as int));
        assert(rest_b =~= (first_b + rest_b).skip(first_b.len() as int));
        lemma_percent_encoded_injective(a.drop_first(), b.drop_first());
        assert(a =~= seq![a[0]] + a.drop_first());
        assert(b =~= seq![b[0]] + b.drop_first());
    }
}

/// Different texts are encoded differently.
pub proof fn encoding_loses_nothing(a: Seq<char>, b: Seq<char>)
    requires
        url_encoded(a) == url_encoded(b),
    ensures
        a == b,
{
    lemma_percent_encoded_injective(encode_utf8(a), encode_utf8(b));
    encode_utf8_decode_utf8(a);
    encode_utf8_decode_utf8(b);
}

} // verus!
