//! Percent-encoding of query text: unreserved ASCII bytes pass through,
//! every other byte of the UTF-8 form becomes `%` followed by two
//! uppercase hexadecimal digits.

use vstd::prelude::*;
use vstd::string::StringSliceAdditionalSpecFns;

verus! {

/// Bytes that pass through unencoded: ASCII letters, digits, and
/// `-`, `_`, `.`, `~`.
pub open spec fn is_unreserved_byte(b: u8) -> bool {
    (48 <= b <= 57) || (65 <= b <= 90) || (97 <= b <= 122) || b == 45 || b == 95 || b == 46 || b
        == 126
}

/// Uppercase hexadecimal digit for a value below 16.
pub open spec fn hex_digit(d: u8) -> u8
    recommends
        d < 16,
{
    if d < 10 {
        (48 + d) as u8
    } else {
        (55 + d) as u8
    }
}

/// Encoding of one byte: itself if unreserved, else `%` (byte 37) and its
/// two hexadecimal digits.
pub open spec fn encoded_byte(b: u8) -> Seq<u8> {
    if is_unreserved_byte(b) {
        seq![b]
    } else {
        seq![37u8, hex_digit(b / 16), hex_digit(b % 16)]
    }
}

/// Percent-encoding of a whole byte sequence, byte by byte, in order.
pub open spec fn percent_encoded(bytes: Seq<u8>) -> Seq<u8>
    decreases bytes.len(),
{
    if bytes.len() == 0 {
        Seq::empty()
    } else {
        encoded_byte(bytes[0]) + percent_encoded(bytes.drop_first())
    }
}

/// The characters of an all-ASCII byte sequence, one per byte.
pub open spec fn ascii_chars_of(bytes: Seq<u8>) -> Seq<char> {
    Seq::new(bytes.len(), |i: int| bytes[i] as char)
}

/// Encoding a sequence extended by one byte appends that byte's encoding.
pub proof fn lemma_percent_encoded_snoc(bytes: Seq<u8>, b: u8)
    ensures
        percent_encoded(bytes.push(b)) =~= percent_encoded(bytes) + encoded_byte(b),
    decreases bytes.len(),
{
    if bytes.len() == 0 {
        assert(bytes.push(b)[0] == b);
        assert(bytes.push(b).drop_first() =~= Seq::<u8>::empty());
        assert(percent_encoded(Seq::<u8>::empty()) =~= Seq::<u8>::empty());
    } else {
        assert(bytes.push(b)[0] == bytes[0]);
        assert(bytes.push(b).drop_first() =~= bytes.drop_first().push(b));
        lemma_percent_encoded_snoc(bytes.drop_first(), b);
        assert(encoded_byte(bytes[0]) + (percent_encoded(bytes.drop_first()) + encoded_byte(b))
            =~= (encoded_byte(bytes[0]) + percent_encoded(bytes.drop_first())) + encoded_byte(b));
    }
}

/// Every byte of a percent-encoded sequence is ASCII (below 128).
pub proof fn lemma_percent_encoded_is_ascii(bytes: Seq<u8>)
    ensures
        forall|i: int|
            0 <= i < percent_encoded(bytes).len() ==> #[trigger] percent_encoded(bytes)[i] < 128,
    decreases bytes.len(),
{
    if bytes.len() > 0 {
        lemma_percent_encoded_is_ascii(bytes.drop_first());
        assert forall|i: int| 0 <= i < percent_encoded(bytes).len() implies #[trigger] percent_encoded(
            bytes,
        )[i] < 128 by {
            let head = encoded_byte(bytes[0]);
            if i < head.len() {
                assert(percent_encoded(bytes)[i] == head[i]);
            } else {
                assert(percent_encoded(bytes)[i] == percent_encoded(bytes.drop_first())[i
                    - head.len()]);
            }
        }
    }
}

/// Uppercase hexadecimal digit of a value below 16.
fn hex_digit_char(d: u8) -> (h: u8)
    requires
        d < 16,
    ensures
        h == hex_digit(d),
{
    if d < 10 {
        48 + d
    } else {
        55 + d
    }
}

/// Percent-encodes a byte sequence.
pub fn encode_bytes(bytes: &[u8]) -> (out: Vec<u8>)
    ensures
        out@ =~= percent_encoded(bytes@),
{
    let n = bytes.len();
    let mut out: Vec<u8> = Vec::new();
    let mut i: usize = 0;
    while i < n
        invariant
            n == bytes@.len(),
            i <= n,
            out@ =~= percent_encoded(bytes@.take(i as int)),
        decreases n - i,
    {
        let b = bytes[i];
        if (48 <= b && b <= 57) || (65 <= b && b <= 90) || (97 <= b && b <= 122) || b == 45 || b
            == 95 || b == 46 || b == 126 {
            out.push(b);
        } else {
            out.push(37);
            out.push(hex_digit_char(b / 16));
            out.push(hex_digit_char(b % 16));
        }
        proof {
            assert(bytes@.take(i + 1) =~= bytes@.take(i as int).push(bytes@[i as int]));
            lemma_percent_encoded_snoc(bytes@.take(i as int), bytes@[i as int]);
        }
        i = i + 1;
    }
    proof {
        assert(bytes@.take(n as int) =~= bytes@);
    }
    out
}

/// Relies on `String::from_utf8`: bytes that form valid UTF-8 become the
/// string of the characters they encode, and bytes below 128 each encode
/// exactly one character, the code point of the byte itself.
#[verifier::external_body]
fn string_from_ascii_bytes(bytes: Vec<u8>) -> (text: String)
    requires
        forall|i: int| 0 <= i < bytes@.len() ==> bytes@[i] < 128,
    ensures
        text@ == ascii_chars_of(bytes@),
{
    String::from_utf8(bytes).unwrap_or_default()
}

/// Percent-encodes free-form text for use in a URL query: unreserved
/// ASCII characters stay as they are, and every other byte of the text's
/// UTF-8 form becomes `%` followed by its two uppercase hexadecimal
/// digits.
pub fn encode(s: &str) -> (encoded: String)
    ensures
        encoded@ == ascii_chars_of(percent_encoded(s.spec_bytes())),
{
    let bytes = s.as_bytes();
    let out = encode_bytes(bytes);
    proof {
        lemma_percent_encoded_is_ascii(bytes@);
    }
    string_from_ascii_bytes(out)
}

} // verus!
