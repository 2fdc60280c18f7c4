//! Length-prefixed UTF-8 strings.
//!
//! A string on the wire is a 16-bit length and that many bytes of UTF-8. The
//! protocol adds one rule to UTF-8: no string holds the character U+0000.

use vstd::prelude::*;
use vstd::string::StringSliceAdditionalSpecFns;
use vstd::utf8::{
    char_u32_cast, decode_first_scalar, decode_utf8, decode_utf8_encode_utf8,
    decode_utf8_first_scalar, encode_utf8, encode_utf8_decode_utf8, encode_utf8_valid_utf8,
    length_of_first_scalar, pop_first_scalar, take_first_scalar, valid_utf8,
};

use super::values::{
    copy_to_front, encode_prefixed, encode_u16, lemma_bytes_reencode, lemma_bytes_round_trip,
    parse_u16, spec_encode_bytes, spec_parse_bytes, spec_u16,
};
use super::{
    decoded_view, decoded_within, encode_fixed, encoded, prefix_agrees, Decodable, Decoded,
    Encodable,
};
use crate::error::{DecodeError, EncodeError};
use crate::status::Status;

verus! {

/// The strings that can go on the wire and come back: those without U+0000
/// whose UTF-8 form has at most 65535 bytes.
pub open spec fn valid_string(chars: Seq<char>) -> bool {
    &&& !chars.contains('\0')
    &&& encode_utf8(chars).len() <= 65535
}

/// A 16-bit length and that many bytes, which must be the UTF-8 form of a
/// string without U+0000.
#[verifier::opaque]
pub open spec fn spec_parse_string(bytes: Seq<u8>) -> Decoded<Seq<char>> {
    if bytes.len() < 2 {
        Ok(Status::Partial((2 - bytes.len()) as usize))
    } else {
        let len = spec_u16(bytes[0], bytes[1]);
        if bytes.len() < 2 + len {
            Ok(Status::Partial((2 + len - bytes.len()) as usize))
        } else {
            let body = bytes.subrange(2, 2 + len);
            if !valid_utf8(body) || decode_utf8(body).contains('\0') {
                Err(DecodeError::Utf8)
            } else {
                Ok(Status::Complete(((2 + len) as usize, decode_utf8(body))))
            }
        }
    }
}

/// The length of the UTF-8 form of `chars` in two bytes, then that form.
pub open spec fn spec_encode_string(chars: Seq<char>) -> Seq<u8> {
    spec_encode_bytes(encode_utf8(chars))
}

/// Calls `core::str::from_utf8`. The contract claims what the documentation
/// of that function says: the call succeeds if and only if the bytes are
/// valid UTF-8, and the string it returns is made of exactly these bytes.
#[verifier::external_body]
fn from_utf8(bytes: &[u8]) -> (r: Result<&str, core::str::Utf8Error>)
    ensures
        r is Ok <==> valid_utf8(bytes@),
        r matches Ok(s) ==> s.spec_bytes() == bytes@,
{
    core::str::from_utf8(bytes)
}

/// In valid UTF-8 a zero byte stands for the character U+0000 and for
/// nothing else: every byte of a longer sequence has its top bit set, and no
/// longer sequence encodes a character that one byte can hold.
pub proof fn lemma_nul_byte_is_nul_char(bytes: Seq<u8>)
    requires
        valid_utf8(bytes),
    ensures
        bytes.contains(0u8) <==> decode_utf8(bytes).contains('\0'),
    decreases bytes.len(),
{
    if bytes.len() > 0 {
        let n = length_of_first_scalar(bytes);
        let rest = pop_first_scalar(bytes);
        let first = decode_first_scalar(bytes);
        let chars = decode_utf8(bytes);
        let b0 = bytes[0];
        lemma_nul_byte_is_nul_char(rest);
        assert(b0 <= 0x7f ==> b0 & 0x7f == b0) by (bit_vector);
        assert(chars == seq![first as char] + decode_utf8(rest));
        assert(first == 0 <==> b0 == 0);
        assert(first as char == '\0' <==> first == 0) by {
            char_u32_cast('\0', 0u32);
            if first as char == '\0' {
                decode_utf8_first_scalar(bytes);
                assert(0u32 & 0x7f == 0) by (bit_vector);
                assert(take_first_scalar(bytes) == seq![0u8]);
                assert(take_first_scalar(bytes)[0] == b0);
            }
        }
        assert(forall|i: int| 0 < i < n ==> bytes[i] != 0);
        if bytes.contains(0u8) {
            let i = choose|i: int| 0 <= i < bytes.len() && bytes[i] == 0u8;
            if i == 0 {
                assert(chars[0] == '\0');
            } else {
                assert(rest[i - n] == 0u8);
                assert(rest.contains(0u8));
                let j = choose|j: int|
                    0 <= j < decode_utf8(rest).len() && decode_utf8(rest)[j] == '\0';
                assert(chars[j + 1] == '\0');
            }
        }
        if chars.contains('\0') {
            let j = choose|j: int| 0 <= j < chars.len() && chars[j] == '\0';
            if j == 0 {
                assert(bytes[0] == 0u8);
            } else {
                assert(decode_utf8(rest)[j - 1] == '\0');
                assert(decode_utf8(rest).contains('\0'));
                let i = choose|i: int| 0 <= i < rest.len() && rest[i] == 0u8;
                assert(bytes[i + n] == 0u8);
            }
        }
    } else {
        assert(decode_utf8(bytes) =~= Seq::<char>::empty());
    }
}

/// Whether some byte of `bytes` is zero.
fn contains_nul(bytes: &[u8]) -> (r: bool)
    ensures
        r == bytes@.contains(0u8),
{
    let mut i: usize = 0;
    while i < bytes.len()
        invariant
            i <= bytes@.len(),
            forall|j: int| 0 <= j < i ==> bytes@[j] != 0u8,
        decreases bytes@.len() - i,
    {
        if bytes[i] == 0 {
            return true;
        }
        i += 1;
    }
    false
}

impl<'buf> Decodable<'buf> for &'buf str {
    open spec fn spec_decode(bytes: Seq<u8>) -> Decoded<Seq<char>> {
        spec_parse_string(bytes)
    }

    fn decode(bytes: &'buf [u8]) -> (r: Decoded<&'buf str>) {
        parse_string(bytes)
    }
}

impl Encodable for str {
    open spec fn encoding(&self) -> Seq<u8> {
        spec_encode_string(self@)
    }

    open spec fn encode_result(&self, capacity: usize) -> Result<usize, EncodeError> {
        encode_prefixed(encode_utf8(self@).len(), capacity)
    }

    fn encoded_len(&self) -> (n: usize) {
        2 + self.as_bytes().len()
    }

    fn encode(&self, bytes: &mut [u8]) -> (r: Result<usize, EncodeError>) {
        encode_string(self, bytes)
    }
}

/// Decodes a length-prefixed string. The result borrows from `bytes`.
pub fn parse_string(bytes: &[u8]) -> (r: Decoded<&str>)
    ensures
        decoded_view(r) == spec_parse_string(bytes@),
        decoded_within(r, bytes@.len()),
{
    reveal(spec_parse_string);
    let (offset, string_len) = match parse_u16(bytes) {
        Ok(Status::Complete(v)) => v,
        Ok(Status::Partial(n)) => return Ok(Status::Partial(n)),
        Err(e) => return Err(e),
    };

    let available = bytes.len() - offset;
    if available < string_len as usize {
        return Ok(Status::Partial(string_len as usize - available));
    }

    // A string slice never holds a code point between U+D800 and U+DFFF, and
    // a byte order mark is a character like any other: both rules of the
    // protocol come with UTF-8 itself.
    let body = &bytes[2..2 + string_len as usize];
    let val = match from_utf8(body) {
        Ok(s) => s,
        Err(e) => return Err(DecodeError::from(e)),
    };

    proof {
        lemma_nul_byte_is_nul_char(body@);
        encode_utf8_decode_utf8(val@);
    }

    // The protocol allows no U+0000 in a string.
    if contains_nul(body) {
        return Err(DecodeError::Utf8);
    }

    Ok(Status::Complete((2 + string_len as usize, val)))
}

/// Writes a string behind the length of its UTF-8 form.
pub fn encode_string(string: &str, bytes: &mut [u8]) -> (r: Result<usize, EncodeError>)
    ensures
        encoded(
            old(bytes)@,
            final(bytes)@,
            r,
            encode_prefixed(encode_utf8(string@).len(), old(bytes).len()),
            spec_encode_string(string@),
        ),
{
    let src = string.as_bytes();
    let size = match u16::try_from(src.len()) {
        Err(_) => return Err(EncodeError::ValueTooBig),
        Ok(s) => s,
    };

    if bytes.len() < 2 + size as usize {
        return Err(EncodeError::OutOfSpace);
    }

    match encode_u16(size, bytes) {
        Ok(_) => {},
        Err(e) => return Err(e),
    }
    let (_, rest) = bytes.split_at_mut(2);
    copy_to_front(src, rest);
    assert(bytes@ =~= spec_encode_string(string@) + old(bytes)@.skip(2 + size));

    Ok(2 + size as usize)
}

/// A valid string that is written and read back is the same string,
/// whatever follows it in the buffer.
pub proof fn lemma_string_round_trip(chars: Seq<char>, rest: Seq<u8>)
    requires
        valid_string(chars),
    ensures
        spec_encode_string(chars).len() == 2 + encode_utf8(chars).len(),
        spec_parse_string(spec_encode_string(chars) + rest) == Ok::<_, DecodeError>(
            Status::Complete(((2 + encode_utf8(chars).len()) as usize, chars)),
        ),
{
    reveal(spec_parse_string);
    reveal(spec_parse_bytes);
    let body = encode_utf8(chars);
    lemma_bytes_round_trip(body, rest);
    encode_utf8_valid_utf8(chars);
    encode_utf8_decode_utf8(chars);
}

/// A string that was read is valid, and it is written as the bytes it was
/// read from.
pub proof fn lemma_string_reencode(bytes: Seq<u8>)
    ensures
        spec_parse_string(bytes) matches Ok(Status::Complete((n, chars))) ==> {
            &&& valid_string(chars)
            &&& 2 <= n <= bytes.len()
            &&& n <= 65537
            &&& n == 2 + encode_utf8(chars).len()
            &&& spec_encode_string(chars) == bytes.subrange(0, n as int)
        },
{
    reveal(spec_parse_string);
    reveal(spec_parse_bytes);
    if let Ok(Status::Complete((n, chars))) = spec_parse_string(bytes) {
        lemma_bytes_reencode(bytes);
        decode_utf8_encode_utf8(bytes.subrange(2, n as int));
    }
}

/// The first `k` bytes of a buffer decode as the whole buffer does, or ask
/// for more: see [`prefix_agrees`].
pub proof fn lemma_parse_string_prefix(bytes: Seq<u8>, k: int)
    requires
        0 <= k <= bytes.len(),
    ensures
        prefix_agrees(spec_parse_string(bytes), spec_parse_string(bytes.subrange(0, k)), k),
{
    reveal(spec_parse_string);
    if let Ok(Status::Complete((n, chars))) = spec_parse_string(bytes) {
        if k >= n {
            assert(bytes.subrange(0, k).subrange(2, n as int) =~= bytes.subrange(2, n as int));
        }
    }
}

/// The rules of strings, for bytes that hold the whole of what their first
/// two bytes announce: the bytes behind the length are refused if and only
/// if they are not valid UTF-8 or hold a zero byte, which in valid UTF-8 is
/// the character U+0000 and nothing else; and a length of zero gives the
/// empty string.
pub proof fn lemma_string_policy(bytes: Seq<u8>)
    requires
        bytes.len() >= 2,
        bytes.len() >= 2 + spec_u16(bytes[0], bytes[1]),
    ensures
        ({
            let body = bytes.subrange(2, 2 + spec_u16(bytes[0], bytes[1]));
            &&& spec_parse_string(bytes) is Err <==> !valid_utf8(body) || body.contains(0u8)
            &&& spec_parse_string(bytes) is Err ==> spec_parse_string(bytes) == Err::<
                Status<(usize, Seq<char>)>,
                _,
            >(DecodeError::Utf8)
            &&& spec_parse_string(bytes) is Ok ==> spec_parse_string(bytes) == Ok::<
                _,
                DecodeError,
            >(Status::Complete(((2 + body.len()) as usize, decode_utf8(body))))
            &&& body.len() == 0 ==> spec_parse_string(bytes) == Ok::<_, DecodeError>(
                Status::Complete((2usize, Seq::<char>::empty())),
            )
        }),
{
    reveal(spec_parse_string);
    let body = bytes.subrange(2, 2 + spec_u16(bytes[0], bytes[1]));
    if valid_utf8(body) {
        lemma_nul_byte_is_nul_char(body);
    }
    if body.len() == 0 {
        assert(decode_utf8(body) =~= Seq::<char>::empty());
    }
}

/// A valid string is written into every buffer that has room for it.
pub proof fn lemma_string_encodes(chars: Seq<char>, capacity: usize)
    requires
        valid_string(chars),
    ensures
        encode_prefixed(encode_utf8(chars).len(), capacity) == encode_fixed(
            spec_encode_string(chars).len(),
            capacity,
        ),
        spec_encode_string(chars).len() == 2 + encode_utf8(chars).len(),
{
}

} // verus!
