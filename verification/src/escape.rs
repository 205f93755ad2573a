//! Percent-encoding of URL text, done by the `url_escape` crate.

use vstd::prelude::*;
use vstd::utf8::{
    char_is_scalar, char_u32_cast, decode_utf8, encode_scalar, encode_utf8, encode_utf8_decode_utf8,
    encode_utf8_valid_utf8, has_width_1_encoding, has_width_2_encoding, has_width_3_encoding,
    is_scalar, last_continuation_byte,
    leading_byte_width_1, leading_byte_width_2, leading_byte_width_3, leading_byte_width_4,
    second_last_continuation_byte, third_last_continuation_byte, valid_utf8,
};

verus! {

/// The text that `url_escape::decode` makes of `text`: each `%` that two
/// hexadecimal digits follow gives one byte, and the bytes are read as UTF-8,
/// with U+FFFD in place of what is not.
pub uninterp spec fn url_decoded(text: Seq<char>) -> Seq<char>;

/// The value of the byte `b` read as a hexadecimal digit, of either case.
pub open spec fn hex_value(b: u8) -> Option<int> {
    if 0x30 <= b <= 0x39 {
        Some(b - 0x30)
    } else if 0x41 <= b <= 0x46 {
        Some(b - 0x41 + 10)
    } else if 0x61 <= b <= 0x66 {
        Some(b - 0x61 + 10)
    } else {
        None
    }
}

/// Do a `%` and two hexadecimal digits stand at the start of `bytes`?
pub open spec fn starts_escaped(bytes: Seq<u8>) -> bool {
    bytes.len() >= 3 && bytes[0] == 0x25 && hex_value(bytes[1]) is Some && hex_value(bytes[2]) is Some
}

/// `bytes` percent-decoded: from left to right, a `%` and the two hexadecimal
/// digits after it give the byte that the digits write, and every other byte
/// stays as it is.
pub open spec fn percent_decoded(bytes: Seq<u8>) -> Seq<u8>
    decreases bytes.len(),
{
    if bytes.len() == 0 {
        Seq::empty()
    } else if starts_escaped(bytes) {
        seq![(hex_value(bytes[1]).unwrap() * 16 + hex_value(bytes[2]).unwrap()) as u8]
            + percent_decoded(bytes.skip(3))
    } else {
        seq![bytes[0]] + percent_decoded(bytes.skip(1))
    }
}

/// The text whose UTF-8 form the bytes of `text` are once percent-decoded, if
/// they are the UTF-8 form of a text.
pub open spec fn percent_decoded_text(text: Seq<char>) -> Option<Seq<char>> {
    let bytes = percent_decoded(encode_utf8(text));
    if valid_utf8(bytes) {
        Some(decode_utf8(bytes))
    } else {
        None
    }
}

/// Bytes without a `%` stay as they are.
pub proof fn lemma_percent_decoded_plain(bytes: Seq<u8>)
    requires
        !bytes.contains(0x25u8),
    ensures
        percent_decoded(bytes) == bytes,
    decreases bytes.len(),
{
    if bytes.len() > 0 {
        assert(bytes[0] != 0x25u8);
        let rest = bytes.skip(1);
        assert(!rest.contains(0x25u8)) by {
            if rest.contains(0x25u8) {
                let i = choose|i: int| 0 <= i < rest.len() && rest[i] == 0x25u8;
                assert(bytes[i + 1] == 0x25u8);
            }
        }
        lemma_percent_decoded_plain(rest);
        assert(seq![bytes[0]] + rest =~= bytes);
    }
}

/// No byte of the UTF-8 form of a character other than `%` is the byte of
/// `%`.
proof fn lemma_scalar_without_percent(c: u32)
    requires
        c != 0x25,
        is_scalar(c),
    ensures
        !encode_scalar(c).contains(0x25u8),
{
    assert(has_width_1_encoding(c) ==> leading_byte_width_1(c) != 0x25u8) by (bit_vector)
        requires
            c != 0x25,
    ;
    assert(leading_byte_width_2(c) >= 0x80u8) by (bit_vector);
    assert(leading_byte_width_3(c) >= 0x80u8) by (bit_vector);
    assert(leading_byte_width_4(c) >= 0x80u8) by (bit_vector);
    assert(last_continuation_byte(c) >= 0x80u8) by (bit_vector);
    assert(second_last_continuation_byte(c) >= 0x80u8) by (bit_vector);
    assert(third_last_continuation_byte(c) >= 0x80u8) by (bit_vector);
    let bytes = encode_scalar(c);
    if bytes.contains(0x25u8) {
        let i = choose|i: int| 0 <= i < bytes.len() && bytes[i] == 0x25u8;
        if has_width_1_encoding(c) {
            assert(bytes[i] == leading_byte_width_1(c));
        } else if has_width_2_encoding(c) {
            assert(bytes[i] >= 0x80u8);
        } else if has_width_3_encoding(c) {
            assert(bytes[i] >= 0x80u8);
        } else {
            assert(bytes[i] >= 0x80u8);
        }
    }
}

/// The UTF-8 form of a text without a `%` holds no byte of `%`.
proof fn lemma_utf8_without_percent(text: Seq<char>)
    requires
        !text.contains('%'),
    ensures
        !encode_utf8(text).contains(0x25u8),
    decreases text.len(),
{
    if text.len() > 0 {
        let first = encode_scalar(text[0] as u32);
        let rest = encode_utf8(text.drop_first());
        assert(text[0] != '%');
        char_is_scalar(text[0]);
        assert(text[0] as u32 != 0x25) by {
            if text[0] as u32 == 0x25 {
                char_u32_cast(text[0], 0x25u32);
                char_u32_cast('%', 0x25u32);
            }
        }
        lemma_scalar_without_percent(text[0] as u32);
        assert(!text.drop_first().contains('%')) by {
            if text.drop_first().contains('%') {
                let i = choose|i: int|
                    0 <= i < text.drop_first().len() && text.drop_first()[i] == '%';
                assert(text[i + 1] == '%');
            }
        }
        lemma_utf8_without_percent(text.drop_first());
        let bytes = first + rest;
        if bytes.contains(0x25u8) {
            let i = choose|i: int| 0 <= i < bytes.len() && bytes[i] == 0x25u8;
            if i < first.len() {
                assert(first[i] == 0x25u8);
            } else {
                assert(rest[i - first.len()] == 0x25u8);
            }
        }
    }
}

/// A text without a `%` is its own percent-decoding.
pub proof fn lemma_percent_decoded_text_plain(text: Seq<char>)
    requires
        !text.contains('%'),
    ensures
        percent_decoded_text(text) == Some(text),
{
    lemma_utf8_without_percent(text);
    lemma_percent_decoded_plain(encode_utf8(text));
    encode_utf8_valid_utf8(text);
    encode_utf8_decode_utf8(text);
}

/// A byte that percent-encoding leaves as it is: an ASCII letter or digit.
pub open spec fn is_unreserved(b: u8) -> bool {
    (0x30 <= b <= 0x39) || (0x41 <= b <= 0x5A) || (0x61 <= b <= 0x7A)
}

/// The upper-case hexadecimal digit for `n`, which is below 16.
pub open spec fn hex_upper(n: int) -> char {
    "0123456789ABCDEF"@[n]
}

/// One byte, percent-encoded: itself where it is unreserved, else `%` and its
/// two hexadecimal digits.
pub open spec fn encoded_byte(b: u8) -> Seq<char> {
    if is_unreserved(b) {
        seq![b as char]
    } else {
        seq!['%', hex_upper(b as int / 16), hex_upper(b as int % 16)]
    }
}

/// The bytes of a text, percent-encoded one after the other.
pub open spec fn percent_encoded(bytes: Seq<u8>) -> Seq<char>
    decreases bytes.len(),
{
    if bytes.len() == 0 {
        Seq::empty()
    } else {
        percent_encoded(bytes.drop_last()) + encoded_byte(bytes.last())
    }
}

/// Calls `url_escape::decode`, which percent-decodes the bytes of `text` and
/// reads them as UTF-8, lossily. The contract names the result, which is a
/// function of `text` alone, and claims what it is where the decoded bytes are
/// UTF-8: the text that they encode.
#[verifier::external_body]
pub(crate) fn url_decode(text: &str) -> (r: String)
    ensures
        r@ == url_decoded(text@),
        percent_decoded_text(text@) matches Some(decoded) ==> r@ == decoded,
{
    url_escape::decode(text).into_owned()
}

/// Calls `url_escape::encode` with the set `NON_ALPHANUMERIC`. The contract
/// claims that every byte of the UTF-8 form of `text` that is not an ASCII
/// letter or digit comes out as `%` and two upper-case hexadecimal digits, and
/// every other byte as itself.
#[verifier::external_body]
pub(crate) fn url_encode(text: &str) -> (r: String)
    ensures
        r@ == percent_encoded(encode_utf8(text@)),
{
    url_escape::encode(text, url_escape::NON_ALPHANUMERIC).into_owned()
}

} // verus!
