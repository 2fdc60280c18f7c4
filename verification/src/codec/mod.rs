//! The two capabilities that every part of a packet has, and the shared
//! codecs of the values that packets are made of.

use vstd::prelude::*;

use crate::error::{DecodeError, EncodeError};
use crate::status::Status;

pub mod string;
pub mod values;

verus! {

/// What one decode attempt gives: the bytes consumed and the value, or the
/// number of bytes still needed, or the reason why no value will come.
pub type Decoded<T> = Result<Status<(usize, T)>, DecodeError>;

/// A decoding with the decoded value replaced by its view.
pub open spec fn decoded_view<T: View>(r: Decoded<T>) -> Decoded<T::V> {
    match r {
        Ok(Status::Complete((n, v))) => Ok(Status::Complete((n, v@))),
        Ok(Status::Partial(n)) => Ok(Status::Partial(n)),
        Err(e) => Err(e),
    }
}

/// What holds of every decoding of a buffer of `len` bytes: a value took no
/// more bytes than there are, and where bytes are asked for, at least one
/// is.
pub open spec fn decoded_within<T>(r: Decoded<T>, len: nat) -> bool {
    match r {
        Ok(Status::Complete((n, _))) => n <= len,
        Ok(Status::Partial(m)) => m > 0,
        Err(_) => true,
    }
}

/// How the decoding `part` of the first `k` bytes of a buffer agrees with the
/// decoding `full` of the whole buffer, where that one is complete: once the
/// `k` bytes hold the whole value, `part` is `full`; before that, `part` asks
/// for more bytes, at least one and no more than the value still lacks. So a
/// truncated value never decodes to another value, nor to an error.
pub open spec fn prefix_agrees<V>(full: Decoded<V>, part: Decoded<V>, k: int) -> bool {
    full matches Ok(Status::Complete((n, _))) ==> if k >= n {
        part == full
    } else {
        part matches Ok(Status::Partial(m)) && 0 < m && k + m <= n
    }
}

/// A value that can be read from the front of a byte buffer.
pub trait Decodable<'a>: Sized + View {
    /// What decoding from `bytes` gives.
    spec fn spec_decode(bytes: Seq<u8>) -> Decoded<Self::V>;

    /// Decodes a value from the front of `bytes`. The value borrows from
    /// `bytes` whatever it holds of variable length.
    fn decode(bytes: &'a [u8]) -> (r: Decoded<Self>)
        ensures
            decoded_view(r) == Self::spec_decode(bytes@),
            decoded_within(r, bytes@.len()),
    ;
}

/// The capacity that is left of `capacity` once `used` bytes are written.
pub open spec fn space_left(capacity: usize, used: nat) -> usize {
    if used <= capacity {
        (capacity - used) as usize
    } else {
        0
    }
}

/// The outcome of writing a fixed number of bytes into a buffer.
pub open spec fn encode_fixed(len: nat, capacity: usize) -> Result<usize, EncodeError> {
    if capacity < len {
        Err(EncodeError::OutOfSpace)
    } else {
        Ok(len as usize)
    }
}

/// The outcome of two writes, one after the other: the first error, or the
/// bytes written by both.
pub open spec fn encode_then(
    first: Result<usize, EncodeError>,
    second: Result<usize, EncodeError>,
) -> Result<usize, EncodeError> {
    match first {
        Err(e) => Err(e),
        Ok(a) => match second {
            Err(e) => Err(e),
            Ok(b) => Ok((a + b) as usize),
        },
    }
}

/// What every encoder promises of the buffer `before` and `after` the call
/// and of its result `r`: the result is `expected`; the buffer keeps its
/// length; and where `n` bytes were written, they are `encoding`, and the
/// rest of the buffer is as it was.
pub open spec fn encoded(
    before: Seq<u8>,
    after: Seq<u8>,
    r: Result<usize, EncodeError>,
    expected: Result<usize, EncodeError>,
    encoding: Seq<u8>,
) -> bool {
    &&& after.len() == before.len()
    &&& r == expected
    &&& r matches Ok(n) ==> {
        &&& n == encoding.len()
        &&& n <= before.len()
        &&& after == encoding + before.skip(n as int)
    }
}

/// A value that can be written to the front of a byte buffer.
pub trait Encodable {
    /// The bytes that the value is written as.
    spec fn encoding(&self) -> Seq<u8>;

    /// What writing the value into a buffer of `capacity` bytes returns.
    spec fn encode_result(&self, capacity: usize) -> Result<usize, EncodeError>;

    /// The number of bytes that the value is written as.
    fn encoded_len(&self) -> (n: usize)
        requires
            self.encoding().len() <= usize::MAX,
        ensures
            n == self.encoding().len(),
    ;

    /// Writes the value to the front of `bytes` and returns the number of
    /// bytes written. After an error the buffer holds nothing of use.
    fn encode(&self, bytes: &mut [u8]) -> (r: Result<usize, EncodeError>)
        ensures
            encoded(
                old(bytes)@,
                final(bytes)@,
                r,
                self.encode_result(old(bytes).len()),
                self.encoding(),
            ),
    ;
}

/// Writes `value` into `bytes` from `offset` on, behind the `written` bytes
/// that earlier writes have put at the front of the buffer `before`.
pub(crate) fn encode_at<T: Encodable + ?Sized>(
    value: &T,
    bytes: &mut [u8],
    offset: usize,
    Ghost(before): Ghost<Seq<u8>>,
    Ghost(written): Ghost<Seq<u8>>,
) -> (r: Result<usize, EncodeError>)
    requires
        written.len() == offset,
        offset <= before.len(),
        old(bytes)@ == written + before.skip(offset as int),
    ensures
        final(bytes)@.len() == before.len(),
        r == value.encode_result((before.len() - offset) as usize),
        r matches Ok(n) ==> {
            &&& n == value.encoding().len()
            &&& offset + n <= before.len()
            &&& final(bytes)@ == (written + value.encoding()) + before.skip(offset + n)
        },
{
    let (_, rest) = bytes.split_at_mut(offset);
    let r = value.encode(rest);
    proof {
        if let Ok(n) = r {
            assert(bytes@ =~= (written + value.encoding()) + before.skip(offset + n));
        }
    }
    r
}

/// A decoding of something that is there only if `present`: where it is
/// not, nothing is read.
pub open spec fn spec_optional<V>(present: bool, r: Decoded<V>) -> Decoded<Option<V>> {
    if present {
        match r {
            Ok(Status::Complete((n, v))) => Ok(Status::Complete((n, Some(v)))),
            Ok(Status::Partial(n)) => Ok(Status::Partial(n)),
            Err(e) => Err(e),
        }
    } else {
        Ok(Status::Complete((0, None)))
    }
}

/// The number of bytes that a decoding took, where it is complete.
pub open spec fn spec_consumed<V>(r: Decoded<V>) -> int {
    match r {
        Ok(Status::Complete((n, _))) => n as int,
        _ => 0,
    }
}

/// The decoding of two values that stand one behind the other, from the
/// decoding `first` of the one and the decoding `second` of the other, which
/// starts where the first ended. What `first` lacks, or finds wrong, decides;
/// `second` counts only where `first` is complete.
pub open spec fn spec_then<A, B>(first: Decoded<A>, second: Decoded<B>) -> Decoded<(A, B)> {
    match first {
        Err(e) => Err(e),
        Ok(Status::Partial(n)) => Ok(Status::Partial(n)),
        Ok(Status::Complete((n, a))) => match second {
            Err(e) => Err(e),
            Ok(Status::Partial(m)) => Ok(Status::Partial(m)),
            Ok(Status::Complete((m, b))) => Ok(Status::Complete(((n + m) as usize, (a, b)))),
        },
    }
}

/// A decoding with the decoded value replaced by what `wrap` makes of it.
pub open spec fn spec_map<A, B>(r: Decoded<A>, wrap: spec_fn(A) -> B) -> Decoded<B> {
    match r {
        Ok(Status::Complete((n, v))) => Ok(Status::Complete((n, wrap(v)))),
        Ok(Status::Partial(n)) => Ok(Status::Partial(n)),
        Err(e) => Err(e),
    }
}

/// Two values that stand one behind the other decode from a truncated buffer
/// as [`prefix_agrees`] says, if each of them does.
pub proof fn lemma_then_prefix<A, B>(
    full1: Decoded<A>,
    full2: Decoded<B>,
    part1: Decoded<A>,
    part2: Decoded<B>,
    k: int,
)
    requires
        prefix_agrees(full1, part1, k),
        full1 matches Ok(Status::Complete((n, _))) ==> k >= n ==> prefix_agrees(
            full2,
            part2,
            k - n,
        ),
        spec_consumed(full1) + spec_consumed(full2) <= usize::MAX,
    ensures
        prefix_agrees(spec_then(full1, full2), spec_then(part1, part2), k),
{
}

/// A value that may not be there decodes from a truncated buffer as
/// [`prefix_agrees`] says, if it does so where it is there.
pub proof fn lemma_optional_prefix<V>(present: bool, full: Decoded<V>, part: Decoded<V>, k: int)
    requires
        0 <= k,
        present ==> prefix_agrees(full, part, k),
    ensures
        prefix_agrees(spec_optional(present, full), spec_optional(present, part), k),
{
}

/// Replacing the decoded value changes nothing of how a truncated buffer
/// decodes.
pub proof fn lemma_map_prefix<A, B>(
    full: Decoded<A>,
    part: Decoded<A>,
    wrap: spec_fn(A) -> B,
    k: int,
)
    requires
        prefix_agrees(full, part, k),
    ensures
        prefix_agrees(spec_map(full, wrap), spec_map(part, wrap), k),
{
}

} // verus!
