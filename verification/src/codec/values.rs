//! Fixed-width integers and length-prefixed byte strings.

use vstd::prelude::*;

use super::{
    decoded_view, decoded_within, encode_fixed, encoded, prefix_agrees, Decodable, Decoded,
    Encodable,
};
use crate::error::EncodeError;
use crate::status::Status;

verus! {

/// The number whose big-endian bytes are `hi` and `lo`.
pub open spec fn spec_u16(hi: u8, lo: u8) -> u16 {
    (hi as int * 256 + lo as int) as u16
}

/// The two bytes of `value`, most significant first.
pub open spec fn spec_encode_u16(value: u16) -> Seq<u8> {
    seq![(value / 256) as u8, (value % 256) as u8]
}

/// One byte, once there is one.
pub open spec fn spec_parse_u8(bytes: Seq<u8>) -> Decoded<u8> {
    if bytes.len() < 1 {
        Ok(Status::Partial(1))
    } else {
        Ok(Status::Complete((1, bytes[0])))
    }
}

/// A big-endian 16-bit number, once there are two bytes.
pub open spec fn spec_parse_u16(bytes: Seq<u8>) -> Decoded<u16> {
    if bytes.len() < 2 {
        Ok(Status::Partial((2 - bytes.len()) as usize))
    } else {
        Ok(Status::Complete((2, spec_u16(bytes[0], bytes[1]))))
    }
}

/// A 16-bit length and that many bytes: the bytes stand for themselves.
#[verifier::opaque]
pub open spec fn spec_parse_bytes(bytes: Seq<u8>) -> Decoded<Seq<u8>> {
    if bytes.len() < 2 {
        Ok(Status::Partial((2 - bytes.len()) as usize))
    } else {
        let len = spec_u16(bytes[0], bytes[1]);
        if bytes.len() < 2 + len {
            Ok(Status::Partial((2 + len - bytes.len()) as usize))
        } else {
            Ok(Status::Complete(((2 + len) as usize, bytes.subrange(2, 2 + len))))
        }
    }
}

/// The length of `value` in two bytes, then `value`. Only a value of at
/// most 65535 bytes is ever written so.
pub open spec fn spec_encode_bytes(value: Seq<u8>) -> Seq<u8> {
    spec_encode_u16((value.len() % 65536) as u16) + value
}

/// What writing a length-prefixed field of `len` bytes into a buffer of
/// `capacity` bytes returns: a field over 65535 bytes is refused whatever
/// the buffer.
pub open spec fn encode_prefixed(len: nat, capacity: usize) -> Result<usize, EncodeError> {
    if len > 65535 {
        Err(EncodeError::ValueTooBig)
    } else {
        encode_fixed(2 + len, capacity)
    }
}

/// Calls `byteorder::BigEndian::read_u16`. The contract claims that it
/// returns the number whose most significant byte is the first byte of the
/// buffer and whose least significant byte is the second. The call panics on
/// a buffer of fewer than two bytes.
#[verifier::external_body]
fn read_u16(bytes: &[u8]) -> (r: u16)
    requires
        bytes@.len() >= 2,
    ensures
        r == spec_u16(bytes@[0], bytes@[1]),
{
    <byteorder::BigEndian as byteorder::ByteOrder>::read_u16(bytes)
}

/// Calls `byteorder::BigEndian::write_u16`. The contract claims that it
/// writes the most significant byte of `value` to the first byte of the
/// buffer and the least significant byte to the second, and leaves the rest
/// of the buffer alone. The call panics on a buffer of fewer than two bytes.
#[verifier::external_body]
fn write_u16(bytes: &mut [u8], value: u16)
    requires
        old(bytes)@.len() >= 2,
    ensures
        final(bytes)@ == old(bytes)@.update(0, (value / 256) as u8).update(1, (value % 256) as u8),
{
    <byteorder::BigEndian as byteorder::ByteOrder>::write_u16(bytes, value)
}

/// Decodes one byte.
pub fn parse_u8(bytes: &[u8]) -> (r: Decoded<u8>)
    ensures
        r == spec_parse_u8(bytes@),
        decoded_within(r, bytes@.len()),
{
    if bytes.len() < 1 {
        return Ok(Status::Partial(1));
    }
    Ok(Status::Complete((1, bytes[0])))
}

/// Writes one byte.
pub fn encode_u8(value: u8, bytes: &mut [u8]) -> (r: Result<usize, EncodeError>)
    ensures
        encoded(
            old(bytes)@,
            final(bytes)@,
            r,
            encode_fixed(1, old(bytes).len()),
            seq![value],
        ),
{
    if bytes.len() < 1 {
        return Err(EncodeError::OutOfSpace);
    }
    bytes[0] = value;
    assert(bytes@ =~= seq![value] + old(bytes)@.skip(1));
    Ok(1)
}

/// Decodes a big-endian 16-bit number.
pub fn parse_u16(bytes: &[u8]) -> (r: Decoded<u16>)
    ensures
        r == spec_parse_u16(bytes@),
        decoded_within(r, bytes@.len()),
{
    if bytes.len() < 2 {
        return Ok(Status::Partial(2 - bytes.len()));
    }
    Ok(Status::Complete((2, read_u16(bytes))))
}

/// Writes a 16-bit number, most significant byte first.
pub fn encode_u16(value: u16, bytes: &mut [u8]) -> (r: Result<usize, EncodeError>)
    ensures
        encoded(
            old(bytes)@,
            final(bytes)@,
            r,
            encode_fixed(2, old(bytes).len()),
            spec_encode_u16(value),
        ),
{
    if bytes.len() < 2 {
        return Err(EncodeError::OutOfSpace);
    }
    write_u16(bytes, value);
    assert(bytes@ =~= spec_encode_u16(value) + old(bytes)@.skip(2));
    Ok(2)
}

impl<'buf> Decodable<'buf> for &'buf [u8] {
    open spec fn spec_decode(bytes: Seq<u8>) -> Decoded<Seq<u8>> {
        spec_parse_bytes(bytes)
    }

    fn decode(bytes: &'buf [u8]) -> (r: Decoded<&'buf [u8]>) {
        parse_bytes(bytes)
    }
}

impl Encodable for [u8] {
    open spec fn encoding(&self) -> Seq<u8> {
        spec_encode_bytes(self@)
    }

    open spec fn encode_result(&self, capacity: usize) -> Result<usize, EncodeError> {
        encode_prefixed(self@.len(), capacity)
    }

    fn encoded_len(&self) -> (n: usize) {
        2 + self.len()
    }

    fn encode(&self, bytes: &mut [u8]) -> (r: Result<usize, EncodeError>) {
        encode_bytes(self, bytes)
    }
}

/// Decodes a length-prefixed byte string. The result borrows from `bytes`.
pub fn parse_bytes(bytes: &[u8]) -> (r: Decoded<&[u8]>)
    ensures
        decoded_view(r) == spec_parse_bytes(bytes@),
        decoded_within(r, bytes@.len()),
{
    reveal(spec_parse_bytes);
    let (offset, len) = match parse_u16(bytes) {
        Ok(Status::Complete(v)) => v,
        Ok(Status::Partial(n)) => return Ok(Status::Partial(n)),
        Err(e) => return Err(e),
    };
    let available = bytes.len() - offset;
    if available < len as usize {
        return Ok(Status::Partial(len as usize - available));
    }
    let payload = &bytes[offset..offset + len as usize];

    Ok(Status::Complete((offset + len as usize, payload)))
}

/// The bytes of `bytes` from `offset` on.
pub(crate) fn skip(bytes: &[u8], offset: usize) -> (r: &[u8])
    requires
        offset <= bytes@.len(),
    ensures
        r@ == bytes@.skip(offset as int),
{
    &bytes[offset..bytes.len()]
}

/// Copies `src` to the front of `dst`.
pub(crate) fn copy_to_front(src: &[u8], dst: &mut [u8])
    requires
        src@.len() <= old(dst)@.len(),
    ensures
        final(dst)@ == src@ + old(dst)@.skip(src@.len() as int),
{
    let n = src.len();
    let mut i: usize = 0;
    while i < n
        invariant
            n == src@.len(),
            i <= n,
            dst@.len() == old(dst)@.len(),
            n <= dst@.len(),
            forall|j: int| 0 <= j < i ==> dst@[j] == src@[j],
            forall|j: int| i <= j < dst@.len() ==> dst@[j] == old(dst)@[j],
        decreases n - i,
    {
        dst[i] = src[i];
        i += 1;
    }
    assert(dst@ =~= src@ + old(dst)@.skip(n as int));
}

/// Writes a byte string behind its length.
pub fn encode_bytes(value: &[u8], bytes: &mut [u8]) -> (r: Result<usize, EncodeError>)
    ensures
        encoded(
            old(bytes)@,
            final(bytes)@,
            r,
            encode_prefixed(value@.len(), old(bytes).len()),
            spec_encode_bytes(value@),
        ),
{
    let size = match u16::try_from(value.len()) {
        Err(_) => return Err(EncodeError::ValueTooBig),
        Ok(s) => s,
    };

    let offset = match encode_u16(size, bytes) {
        Err(e) => return Err(e),
        Ok(o) => o,
    };

    let payload_size = value.len();
    if offset + payload_size > bytes.len() {
        return Err(EncodeError::OutOfSpace);
    }
    let (_, rest) = bytes.split_at_mut(offset);
    copy_to_front(value, rest);
    assert(bytes@ =~= spec_encode_bytes(value@) + old(bytes)@.skip(2 + payload_size));

    Ok(offset + payload_size)
}

/// The two bytes of a number are read back as that number, and two bytes are
/// the bytes of the number that they are read as.
pub proof fn lemma_u16_round_trip(value: u16, hi: u8, lo: u8)
    ensures
        spec_u16((value / 256) as u8, (value % 256) as u8) == value,
        spec_encode_u16(spec_u16(hi, lo)) == seq![hi, lo],
{
    assert(spec_encode_u16(spec_u16(hi, lo)) =~= seq![hi, lo]);
}

/// A byte string of at most 65535 bytes that is written and read back is the
/// same byte string, whatever follows it in the buffer.
pub proof fn lemma_bytes_round_trip(value: Seq<u8>, rest: Seq<u8>)
    requires
        value.len() <= 65535,
    ensures
        spec_encode_bytes(value).len() == 2 + value.len(),
        spec_parse_bytes(spec_encode_bytes(value) + rest) == Ok::<_, crate::error::DecodeError>(
            Status::Complete(((2 + value.len()) as usize, value)),
        ),
{
    reveal(spec_parse_bytes);
    let bytes = spec_encode_bytes(value) + rest;
    lemma_u16_round_trip(value.len() as u16, 0, 0);
    assert(bytes[0] == (value.len() / 256) as u8);
    assert(bytes[1] == (value.len() % 256) as u8);
    assert(bytes.subrange(2, 2 + value.len() as int) =~= value);
}

/// A byte string that was read is written as the bytes it was read from.
pub proof fn lemma_bytes_reencode(bytes: Seq<u8>)
    ensures
        spec_parse_bytes(bytes) matches Ok(Status::Complete((n, value))) ==> {
            &&& value.len() <= 65535
            &&& 2 <= n <= bytes.len()
            &&& n <= 65537
            &&& n == 2 + value.len()
            &&& spec_encode_bytes(value) == bytes.subrange(0, n as int)
        },
{
    reveal(spec_parse_bytes);
    if let Ok(Status::Complete((n, value))) = spec_parse_bytes(bytes) {
        lemma_u16_round_trip(0, bytes[0], bytes[1]);
        assert(spec_encode_bytes(value) =~= bytes.subrange(0, n as int));
    }
}

/// The first `k` bytes of a buffer decode as the whole buffer does, or ask
/// for more: see [`prefix_agrees`].
pub proof fn lemma_parse_u8_prefix(bytes: Seq<u8>, k: int)
    requires
        0 <= k <= bytes.len(),
    ensures
        prefix_agrees(spec_parse_u8(bytes), spec_parse_u8(bytes.subrange(0, k)), k),
{
}

/// The first `k` bytes of a buffer decode as the whole buffer does, or ask
/// for more: see [`prefix_agrees`].
pub proof fn lemma_parse_u16_prefix(bytes: Seq<u8>, k: int)
    requires
        0 <= k <= bytes.len(),
    ensures
        prefix_agrees(spec_parse_u16(bytes), spec_parse_u16(bytes.subrange(0, k)), k),
{
}

/// The first `k` bytes of a buffer decode as the whole buffer does, or ask
/// for more: see [`prefix_agrees`].
pub proof fn lemma_parse_bytes_prefix(bytes: Seq<u8>, k: int)
    requires
        0 <= k <= bytes.len(),
    ensures
        prefix_agrees(spec_parse_bytes(bytes), spec_parse_bytes(bytes.subrange(0, k)), k),
{
    reveal(spec_parse_bytes);
    if let Ok(Status::Complete((n, value))) = spec_parse_bytes(bytes) {
        if k >= n {
            assert(bytes.subrange(0, k).subrange(2, n as int) =~= bytes.subrange(2, n as int));
        }
    }
}

/// A length-prefixed field takes two bytes more than it holds.
pub proof fn lemma_encode_bytes_len(value: Seq<u8>)
    ensures
        spec_encode_bytes(value).len() == 2 + value.len(),
{
}

} // verus!
