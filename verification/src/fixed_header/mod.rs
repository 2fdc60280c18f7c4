//! The fixed header that every packet starts with: one byte that holds the
//! packet type and four flags, and the remaining length, a number in one to
//! four bytes that says how many bytes of the packet follow.

use vstd::prelude::*;

use crate::codec::values::{copy_to_front, encode_u8};
use crate::codec::{
    decoded_within, encode_fixed, prefix_agrees, Decodable, Decoded, Encodable,
};
use crate::error::{DecodeError, EncodeError};
use crate::status::Status;

mod packet_flags;
mod packet_type;

pub use self::packet_flags::{
    lemma_publish_flags_view, spec_dup, spec_publish_flags, spec_publish_qos, spec_retain,
    PacketFlags, PublishFlags,
};
pub use self::packet_type::{spec_packet_type, spec_required_flags, spec_type_code, PacketType};

verus! {

/// The largest remaining length: what four bytes of seven bits each can hold.
pub const MAX_REMAINING_LENGTH: u32 = 268_435_455;

/// The fixed header of a packet.
#[derive(Copy, Clone, PartialEq, Eq, Debug)]
pub struct FixedHeader {
    packet_type: PacketType,
    flags: PacketFlags,
    len: u32,
}

/// What a fixed header holds.
pub struct FixedHeaderView {
    pub packet_type: PacketType,
    pub flags: u8,
    pub len: u32,
}

impl View for FixedHeader {
    type V = FixedHeaderView;

    closed spec fn view(&self) -> FixedHeaderView {
        FixedHeaderView { packet_type: self.packet_type, flags: self.flags.0, len: self.len }
    }
}

impl FixedHeaderView {
    /// The header can be written and read back: its flags are four bits and
    /// are those that its type prescribes, and its length fits four digits.
    pub open spec fn valid(self) -> bool {
        &&& self.flags < 16
        &&& spec_required_flags(self.packet_type) matches Some(f) ==> f == self.flags
        &&& self.len <= MAX_REMAINING_LENGTH
    }

    /// The bytes of the header: the type and flags, then the length.
    pub open spec fn encoding(self) -> Seq<u8> {
        seq![spec_encode_packet_type(self.packet_type, PacketFlags(self.flags))]
            + spec_encode_remaining_length(self.len as nat)
    }
}

/// The first byte of a packet: the type in the high four bits, the flags in
/// the low four.
pub open spec fn spec_encode_packet_type(packet_type: PacketType, flags: PacketFlags) -> u8 {
    (spec_type_code(packet_type) << 4) | flags.0
}

/// The flags stand if the packet type prescribes none or these.
pub open spec fn spec_validate_flag(packet_type: PacketType, flags: PacketFlags) -> Result<
    (PacketType, PacketFlags),
    DecodeError,
> {
    match spec_required_flags(packet_type) {
        Some(f) if f != flags.0 => Err(DecodeError::PacketFlag),
        _ => Ok((packet_type, flags)),
    }
}

/// The flags stand unless the packet type is one of `types` and the flags
/// are not `expected_flags`.
pub open spec fn spec_validate_flag_val(
    packet_type: PacketType,
    flags: PacketFlags,
    types: Seq<PacketType>,
    expected_flags: PacketFlags,
) -> Result<(PacketType, PacketFlags), DecodeError> {
    if types.contains(packet_type) && flags != expected_flags {
        Err(DecodeError::PacketFlag)
    } else {
        Ok((packet_type, flags))
    }
}

/// The packet type and flags of a first byte: the high four bits must be
/// the number of a packet type, and the low four bits the flags that this
/// type prescribes.
pub open spec fn spec_parse_packet_type(inp: u8) -> Result<(PacketType, PacketFlags), DecodeError> {
    match spec_packet_type(inp / 16) {
        None => Err(DecodeError::PacketType),
        Some(packet_type) => spec_validate_flag(packet_type, PacketFlags(inp % 16)),
    }
}

/// A number in base 128, least significant digit first, one digit to a byte.
/// The top bit of a byte says that another digit follows. At most `digits`
/// digits are read: where all of them announce another, the number is
/// malformed.
pub open spec fn spec_parse_digits(bytes: Seq<u8>, digits: nat) -> Decoded<u32>
    decreases digits,
{
    if digits == 0 {
        Err(DecodeError::RemainingLength)
    } else if bytes.len() == 0 {
        Ok(Status::Partial(1))
    } else if bytes[0] < 128 {
        Ok(Status::Complete((1, bytes[0] as u32)))
    } else {
        match spec_parse_digits(bytes.skip(1), (digits - 1) as nat) {
            Ok(Status::Complete((n, high))) => Ok(
                Status::Complete(((n + 1) as usize, (bytes[0] - 128 + 128 * high) as u32)),
            ),
            other => other,
        }
    }
}

/// The remaining length at the front of `bytes`: a number of at most four
/// digits.
pub open spec fn spec_parse_remaining_length(bytes: Seq<u8>) -> Decoded<u32> {
    spec_parse_digits(bytes, 4)
}

/// The digits of `len` in base 128, least significant first, each but the
/// last with its top bit set. No digit more is written than the number needs.
pub open spec fn spec_encode_remaining_length(len: nat) -> Seq<u8>
    decreases len,
{
    if len < 128 {
        seq![len as u8]
    } else {
        seq![(len % 128 + 128) as u8] + spec_encode_remaining_length(len / 128)
    }
}

/// A fixed header at the front of `bytes`.
#[verifier::opaque]
pub open spec fn spec_decode_fixed_header(bytes: Seq<u8>) -> Decoded<FixedHeaderView> {
    if bytes.len() < 2 {
        Ok(Status::Partial((2 - bytes.len()) as usize))
    } else {
        match spec_parse_packet_type(bytes[0]) {
            Err(e) => Err(e),
            Ok((packet_type, flags)) => match spec_parse_remaining_length(bytes.skip(1)) {
                Err(e) => Err(e),
                Ok(Status::Partial(n)) => Ok(Status::Partial(n)),
                Ok(Status::Complete((n, len))) => Ok(
                    Status::Complete(
                        ((1 + n) as usize, FixedHeaderView { packet_type, flags: flags.0, len }),
                    ),
                ),
            },
        }
    }
}

impl FixedHeader {
    /// The remaining length is one that four digits hold.
    #[verifier::type_invariant]
    spec fn length_fits(self) -> bool {
        self.len <= MAX_REMAINING_LENGTH
    }

    /// A fixed header of the given type and flags for a packet of which
    /// `len` bytes follow the header.
    pub fn new(packet_type: PacketType, flags: PacketFlags, len: u32) -> (r: Self)
        requires
            len <= MAX_REMAINING_LENGTH,
        ensures
            r@ == (FixedHeaderView { packet_type, flags: flags.0, len }),
    {
        FixedHeader { packet_type, flags, len }
    }

    /// The type of the packet.
    pub fn packet_type(&self) -> (r: PacketType)
        ensures
            r == self@.packet_type,
    {
        self.packet_type
    }

    /// The four flags of the packet.
    pub fn flags(&self) -> (r: PacketFlags)
        ensures
            r.0 == self@.flags,
    {
        self.flags
    }

    /// The number of bytes that follow the header.
    pub fn len(&self) -> (r: u32)
        ensures
            r == self@.len,
            r <= MAX_REMAINING_LENGTH,
    {
        proof {
            use_type_invariant(self);
        }
        self.len
    }
}

impl<'buf> Decodable<'buf> for FixedHeader {
    open spec fn spec_decode(bytes: Seq<u8>) -> Decoded<FixedHeaderView> {
        spec_decode_fixed_header(bytes)
    }

    fn decode(bytes: &'buf [u8]) -> (r: Decoded<Self>) {
        reveal(spec_decode_fixed_header);
        // "bytes" must be at least 2 bytes long to be a valid fixed header
        if bytes.len() < 2 {
            return Ok(Status::Partial(2 - bytes.len()));
        }
        let (packet_type, flags) = match parse_packet_type(bytes[0]) {
            Ok(v) => v,
            Err(e) => return Err(e),
        };

        let rest = &bytes[1..bytes.len()];
        let (offset, len) = match parse_remaining_length(rest) {
            Ok(Status::Complete(v)) => v,
            Ok(Status::Partial(n)) => return Ok(Status::Partial(n)),
            Err(e) => return Err(e),
        };
        proof {
            lemma_parse_remaining_length_bounds(rest@);
        }

        Ok(Status::Complete((1 + offset, Self { packet_type, flags, len })))
    }
}

impl Encodable for FixedHeader {
    open spec fn encoding(&self) -> Seq<u8> {
        self@.encoding()
    }

    open spec fn encode_result(&self, capacity: usize) -> Result<usize, EncodeError> {
        encode_fixed(self@.encoding().len(), capacity)
    }

    fn encoded_len(&self) -> (n: usize) {
        proof {
            use_type_invariant(self);
        }
        let mut buf = [0u8; 4];
        let u = encode_remaining_length(self.len, &mut buf);
        1 + u
    }

    fn encode(&self, bytes: &mut [u8]) -> (r: Result<usize, EncodeError>) {
        proof {
            use_type_invariant(self);
        }
        let mut remaining_length = [0u8; 4];
        let o = encode_remaining_length(self.len, &mut remaining_length);
        if bytes.len() < 1 + o {
            return Err(EncodeError::OutOfSpace);
        }
        let first = encode_packet_type(self.packet_type, self.flags);
        match encode_u8(first, bytes) {
            Ok(_) => {},
            Err(e) => return Err(e),
        }
        let digits = remaining_length.as_slice();
        let (_, rest) = bytes.split_at_mut(1);
        copy_to_front(&digits[0..o], rest);
        assert(bytes@ =~= self@.encoding() + old(bytes)@.skip(1 + o));
        Ok(1 + o)
    }
}

/// How the digits read so far and the digits still to come make up the
/// number: `value` counts as it is, and what follows counts `multiplier`
/// times.
spec fn spec_join_digits(rest: Decoded<u32>, index: usize, value: u32, multiplier: u32) -> Decoded<
    u32,
> {
    match rest {
        Ok(Status::Complete((n, high))) => Ok(
            Status::Complete(((index + n) as usize, (value + multiplier * high) as u32)),
        ),
        other => other,
    }
}

/// Decodes a remaining length.
pub fn parse_remaining_length(bytes: &[u8]) -> (r: Decoded<u32>)
    ensures
        r == spec_parse_remaining_length(bytes@),
        decoded_within(r, bytes@.len()),
{
    let mut multiplier: u32 = 1;
    let mut value: u32 = 0u32;
    let mut index: usize = 0;

    assert(bytes@.skip(0) =~= bytes@);
    loop
        invariant
            index <= 4,
            index <= bytes@.len(),
            index == 0 ==> multiplier == 1,
            index == 1 ==> multiplier == 128,
            index == 2 ==> multiplier == 128 * 128,
            index == 3 ==> multiplier == 128 * 128 * 128,
            index == 4 ==> multiplier == 128 * 128 * 128 * 128,
            value < multiplier,
            spec_parse_remaining_length(bytes@) == spec_join_digits(
                spec_parse_digits(bytes@.skip(index as int), (4 - index) as nat),
                index,
                value,
                multiplier,
            ),
        decreases 4 - index,
    {
        if multiplier > 128 * 128 * 128 {
            return Err(DecodeError::RemainingLength);
        }
        if index >= bytes.len() {
            return Ok(Status::Partial(1));
        }
        let byte = bytes[index];
        assert(byte & 0b01111111 == byte % 128) by (bit_vector);
        assert((byte & 128 == 0) == (byte < 128)) by (bit_vector);
        proof {
            let tail = bytes@.skip(index as int);
            let digit = (byte % 128) as int;
            assert(tail[0] == byte);
            assert(tail.skip(1) =~= bytes@.skip(index + 1));
            assert(digit * multiplier == multiplier * digit && 0 <= digit * multiplier <= 127
                * multiplier) by (nonlinear_arith)
                requires
                    0 <= digit <= 127,
                    0 <= multiplier,
            ;
            let next = spec_parse_digits(tail.skip(1), (3 - index) as nat);
            if byte >= 128 {
                if let Ok(Status::Complete((n, high))) = next {
                    assert(multiplier * (digit + 128 * high) == digit * multiplier + (multiplier
                        * 128) * high) by (nonlinear_arith);
                    lemma_parse_digits_bounds(tail.skip(1), (3 - index) as nat);
                }
            }
        }
        index += 1;

        value += (byte & 0b01111111) as u32 * multiplier;

        multiplier *= 128;

        if byte & 128 == 0 {
            return Ok(Status::Complete((index, value)));
        }
    }
}

/// A number of at most `digits` digits is below 128 to the power of
/// `digits`, and it takes at least one byte and at most `digits`.
pub proof fn lemma_parse_digits_bounds(bytes: Seq<u8>, digits: nat)
    requires
        digits <= 4,
    ensures
        spec_parse_digits(bytes, digits) matches Ok(Status::Complete((n, value))) ==> {
            &&& 1 <= n <= digits
            &&& n <= bytes.len()
            &&& digits == 1 ==> value < 128
            &&& digits == 2 ==> value < 128 * 128
            &&& digits == 3 ==> value < 128 * 128 * 128
            &&& digits == 4 ==> value < 128 * 128 * 128 * 128
        },
        spec_parse_digits(bytes, digits) matches Ok(Status::Partial(m)) ==> m == 1,
    decreases digits,
{
    if digits > 0 && bytes.len() > 0 && bytes[0] >= 128 {
        lemma_parse_digits_bounds(bytes.skip(1), (digits - 1) as nat);
    }
}

/// A remaining length that was read is at most [`MAX_REMAINING_LENGTH`] and
/// took one to four bytes.
pub proof fn lemma_parse_remaining_length_bounds(bytes: Seq<u8>)
    ensures
        spec_parse_remaining_length(bytes) matches Ok(Status::Complete((n, value))) ==> {
            &&& 1 <= n <= 4
            &&& n <= bytes.len()
            &&& value <= MAX_REMAINING_LENGTH
        },
        spec_parse_remaining_length(bytes) matches Ok(Status::Partial(m)) ==> m == 1,
{
    lemma_parse_digits_bounds(bytes, 4);
}

/// Writes a remaining length to the front of `buf` and returns the number
/// of bytes it took. The rest of `buf` stays as it was.
pub fn encode_remaining_length(len: u32, buf: &mut [u8; 4]) -> (r: usize)
    requires
        len <= MAX_REMAINING_LENGTH,
    ensures
        1 <= r <= 4,
        r == spec_encode_remaining_length(len as nat).len(),
        final(buf)@.subrange(0, r as int) == spec_encode_remaining_length(len as nat),
        final(buf)@.subrange(r as int, 4) == old(buf)@.subrange(r as int, 4),
{
    let mut rest = len;
    let mut index: usize = 0;
    assert(buf@.subrange(0, 0) + spec_encode_remaining_length(rest as nat)
        =~= spec_encode_remaining_length(len as nat));
    loop
        invariant
            index < 4,
            index == 0 ==> rest < 128 * 128 * 128 * 128,
            index == 1 ==> rest < 128 * 128 * 128,
            index == 2 ==> rest < 128 * 128,
            index == 3 ==> rest < 128,
            buf@.subrange(0, index as int) + spec_encode_remaining_length(rest as nat)
                == spec_encode_remaining_length(len as nat),
            buf@.subrange(index as int, 4) == old(buf)@.subrange(index as int, 4),
        decreases 4 - index,
    {
        let ghost before = buf@;
        let ghost digits = rest;
        let mut byte = (rest % 128) as u8;
        rest /= 128;
        if rest > 0 {
            assert(byte < 128 ==> byte | 128 == byte + 128) by (bit_vector);
            byte |= 128;
        }
        buf[index] = byte;
        index = index + 1;
        proof {
            assert(buf@.subrange(0, index as int) =~= before.subrange(0, index - 1) + seq![byte]);
            assert(buf@.subrange(index as int, 4) =~= old(buf)@.subrange(index as int, 4)) by {
                assert(forall|i: int|
                    index <= i < 4 ==> buf@[i] == before.subrange(index - 1, 4)[i - (index - 1)]);
            }
            if rest == 0 {
                assert(spec_encode_remaining_length(digits as nat) =~= seq![byte]);
                assert(buf@.subrange(0, index as int) == spec_encode_remaining_length(len as nat));
            } else {
                assert(spec_encode_remaining_length(digits as nat) =~= seq![byte]
                    + spec_encode_remaining_length(rest as nat));
                assert(buf@.subrange(0, index as int) + spec_encode_remaining_length(rest as nat)
                    =~= before.subrange(0, index - 1) + spec_encode_remaining_length(
                    digits as nat,
                ));
            }
        }

        if rest == 0 {
            return index;
        }
    }
}

/// Decodes the first byte of a packet.
pub fn parse_packet_type(inp: u8) -> (r: Result<(PacketType, PacketFlags), DecodeError>)
    ensures
        r == spec_parse_packet_type(inp),
{
    assert((inp & 0xF0) >> 4 == inp / 16) by (bit_vector);
    assert(inp & 0xF == inp % 16) by (bit_vector);
    // high 4 bits are the packet type
    let packet_type = match (inp & 0xF0) >> 4 {
        1 => PacketType::Connect,
        2 => PacketType::Connack,
        3 => PacketType::Publish,
        4 => PacketType::Puback,
        5 => PacketType::Pubrec,
        6 => PacketType::Pubrel,
        7 => PacketType::Pubcomp,
        8 => PacketType::Subscribe,
        9 => PacketType::Suback,
        10 => PacketType::Unsubscribe,
        11 => PacketType::Unsuback,
        12 => PacketType::Pingreq,
        13 => PacketType::Pingresp,
        14 => PacketType::Disconnect,
        _ => return Err(DecodeError::PacketType),
    };

    // low 4 bits represent control flags
    let flags = PacketFlags(inp & 0xF);

    validate_flag(packet_type, flags)
}

/// The first byte of a packet of the given type and flags.
pub fn encode_packet_type(packet_type: PacketType, flags: PacketFlags) -> (r: u8)
    ensures
        r == spec_encode_packet_type(packet_type, flags),
        flags.0 < 16 ==> r == spec_type_code(packet_type) * 16 + flags.0,
{
    let packet_type: u8 = match packet_type {
        PacketType::Connect => 1,
        PacketType::Connack => 2,
        PacketType::Publish => 3,
        PacketType::Puback => 4,
        PacketType::Pubrec => 5,
        PacketType::Pubrel => 6,
        PacketType::Pubcomp => 7,
        PacketType::Subscribe => 8,
        PacketType::Suback => 9,
        PacketType::Unsubscribe => 10,
        PacketType::Unsuback => 11,
        PacketType::Pingreq => 12,
        PacketType::Pingresp => 13,
        PacketType::Disconnect => 14,
    };
    proof {
        if flags.0 < 16 {
            lemma_encode_packet_type(packet_type, flags.0);
        }
    }

    (packet_type << 4) | flags.0
}

/// With a type number of four bits and flags of four bits, the first byte
/// of a packet holds the one above the other.
pub proof fn lemma_encode_packet_type(code: u8, flags: u8)
    by (bit_vector)
    requires
        code < 16,
        flags < 16,
    ensures
        (code << 4) | flags == code * 16 + flags,
        ((code << 4) | flags) / 16 == code,
        ((code << 4) | flags) % 16 == flags,
{
}

/// Checks the flags against those that the packet type prescribes.
pub fn validate_flag(packet_type: PacketType, flags: PacketFlags) -> (r: Result<
    (PacketType, PacketFlags),
    DecodeError,
>)
    ensures
        r == spec_validate_flag(packet_type, flags),
{
    // for the following packet types, the control flag MUST be zero
    let zero_types = [
        PacketType::Connect,
        PacketType::Connack,
        PacketType::Puback,
        PacketType::Pubrec,
        PacketType::Pubcomp,
        PacketType::Suback,
        PacketType::Unsuback,
        PacketType::Pingreq,
        PacketType::Pingresp,
        PacketType::Disconnect,
    ];
    // for the following packet types, the control flag MUST be 0b0010
    let one_types = [PacketType::Pubrel, PacketType::Subscribe, PacketType::Unsubscribe];

    proof {
        let zero = zero_types@;
        let one = one_types@;
        assert(zero.contains(packet_type) <==> spec_required_flags(packet_type) == Some(0u8)) by {
            if spec_required_flags(packet_type) == Some(0u8) {
                let i = choose|i: int| 0 <= i < 10 && zero_types@[i] == packet_type;
                assert(zero[i] == packet_type);
            }
        }
        assert(one.contains(packet_type) <==> spec_required_flags(packet_type) == Some(2u8)) by {
            if spec_required_flags(packet_type) == Some(2u8) {
                let i = choose|i: int| 0 <= i < 3 && one_types@[i] == packet_type;
                assert(one[i] == packet_type);
            }
        }
    }

    match validate_flag_val(packet_type, flags, zero_types.as_slice(), PacketFlags(0b0000)) {
        Err(e) => Err(e),
        Ok(_) => validate_flag_val(packet_type, flags, one_types.as_slice(), PacketFlags(0b0010)),
    }
}

/// Checks the flags against `expected_flags` if the packet type is one of
/// `types`.
pub fn validate_flag_val(
    packet_type: PacketType,
    flags: PacketFlags,
    types: &[PacketType],
    expected_flags: PacketFlags,
) -> (r: Result<(PacketType, PacketFlags), DecodeError>)
    ensures
        r == spec_validate_flag_val(packet_type, flags, types@, expected_flags),
{
    let mut i: usize = 0;
    let mut found = false;
    while i < types.len() && !found
        invariant
            i <= types@.len(),
            found ==> types@.contains(packet_type),
            !found ==> forall|j: int| 0 <= j < i ==> types@[j] != packet_type,
        decreases types@.len() - i + (if found { 0int } else { 1int }),
    {
        if types[i] == packet_type {
            found = true;
        } else {
            i += 1;
        }
    }
    if found {
        if flags.0 != expected_flags.0 {
            return Err(DecodeError::PacketFlag);
        }
    }
    Ok((packet_type, flags))
}

/// The number of digits that a remaining length is written in: as few as
/// hold it.
pub open spec fn spec_remaining_length_digits(len: nat) -> nat {
    if len < 128 {
        1
    } else if len < 128 * 128 {
        2
    } else if len < 128 * 128 * 128 {
        3
    } else if len < 128 * 128 * 128 * 128 {
        4
    } else {
        5
    }
}

/// A length below 128 to the power of `digits` is written in as few digits
/// as hold it, and reading at most `digits` digits gives the length back,
/// whatever follows it in the buffer.
proof fn lemma_digits_round_trip(len: nat, digits: nat, rest: Seq<u8>)
    requires
        1 <= digits <= 4,
        digits == 1 ==> len < 128,
        digits == 2 ==> len < 128 * 128,
        digits == 3 ==> len < 128 * 128 * 128,
        digits == 4 ==> len < 128 * 128 * 128 * 128,
    ensures
        spec_encode_remaining_length(len).len() == spec_remaining_length_digits(len),
        spec_parse_digits(spec_encode_remaining_length(len) + rest, digits) == Ok::<
            _,
            DecodeError,
        >(Status::Complete((spec_remaining_length_digits(len) as usize, len as u32))),
    decreases digits,
{
    let bytes = spec_encode_remaining_length(len) + rest;
    if len >= 128 {
        lemma_digits_round_trip(len / 128, (digits - 1) as nat, rest);
        assert(bytes.skip(1) =~= spec_encode_remaining_length(len / 128) + rest);
        assert(bytes[0] == (len % 128 + 128) as u8);
    } else {
        assert(bytes[0] == len as u8);
    }
}

/// A remaining length of at most [`MAX_REMAINING_LENGTH`] that is written
/// and read back is the same length, and reading takes the bytes that
/// writing gave: as few digits as hold the length.
pub proof fn lemma_remaining_length_round_trip(len: u32, rest: Seq<u8>)
    requires
        len <= MAX_REMAINING_LENGTH,
    ensures
        spec_encode_remaining_length(len as nat).len() == spec_remaining_length_digits(len as nat),
        spec_parse_remaining_length(spec_encode_remaining_length(len as nat) + rest) == Ok::<
            _,
            DecodeError,
        >(Status::Complete((spec_remaining_length_digits(len as nat) as usize, len))),
{
    lemma_digits_round_trip(len as nat, 4, rest);
}

/// Four bytes that each announce another digit are no remaining length,
/// whatever follows them.
pub proof fn lemma_remaining_length_five_digits(bytes: Seq<u8>)
    requires
        bytes.len() >= 4,
        bytes[0] >= 128,
        bytes[1] >= 128,
        bytes[2] >= 128,
        bytes[3] >= 128,
    ensures
        spec_parse_remaining_length(bytes) == Err::<Status<(usize, u32)>, _>(
            DecodeError::RemainingLength,
        ),
{
    reveal_with_fuel(spec_parse_digits, 5);
    assert(bytes.skip(1)[0] == bytes[1]);
    assert(bytes.skip(1).skip(1)[0] == bytes[2]);
    assert(bytes.skip(1).skip(1).skip(1)[0] == bytes[3]);
}

/// A length above [`MAX_REMAINING_LENGTH`] has more than four digits, and
/// its digits are read as no remaining length.
pub proof fn lemma_remaining_length_too_big(len: nat, rest: Seq<u8>)
    requires
        len > MAX_REMAINING_LENGTH,
    ensures
        spec_parse_remaining_length(spec_encode_remaining_length(len) + rest) == Err::<
            Status<(usize, u32)>,
            _,
        >(DecodeError::RemainingLength),
{
    reveal_with_fuel(spec_encode_remaining_length, 5);
    let bytes = spec_encode_remaining_length(len) + rest;
    assert(len / 128 / 128 / 128 / 128 >= 1);
    assert(bytes[0] == spec_encode_remaining_length(len)[0]);
    assert(bytes[1] == spec_encode_remaining_length(len)[1]);
    assert(bytes[2] == spec_encode_remaining_length(len)[2]);
    assert(bytes[3] == spec_encode_remaining_length(len)[3]);
    lemma_remaining_length_five_digits(bytes);
}

/// The first `k` bytes of a buffer decode as the whole buffer does, or ask
/// for more: see [`prefix_agrees`].
pub proof fn lemma_parse_digits_prefix(bytes: Seq<u8>, digits: nat, k: int)
    requires
        0 <= k <= bytes.len(),
        digits <= 4,
    ensures
        prefix_agrees(
            spec_parse_digits(bytes, digits),
            spec_parse_digits(bytes.subrange(0, k), digits),
            k,
        ),
    decreases digits,
{
    let part = bytes.subrange(0, k);
    if digits > 0 && bytes.len() > 0 && k > 0 {
        assert(part[0] == bytes[0]);
        if bytes[0] >= 128 {
            lemma_parse_digits_prefix(bytes.skip(1), (digits - 1) as nat, k - 1);
            lemma_parse_digits_bounds(bytes.skip(1), (digits - 1) as nat);
            assert(part.skip(1) =~= bytes.skip(1).subrange(0, k - 1));
        }
    } else if digits > 0 && bytes.len() > 0 {
        lemma_parse_digits_bounds(bytes, digits);
    }
}

/// Which first bytes of a packet stand. The high four bits must be a number
/// from 1 to 14, else the packet type is invalid. For Publish every value
/// of the low four bits stands. For every other type exactly one value
/// stands, `0b0010` for Pubrel, Subscribe and Unsubscribe and `0b0000` for
/// the rest, and each of the fifteen others is an invalid flag.
pub proof fn lemma_flag_table(inp: u8)
    ensures
        spec_parse_packet_type(inp) == Err::<(PacketType, PacketFlags), _>(DecodeError::PacketType)
            <==> (inp / 16 == 0 || inp / 16 == 15),
        spec_packet_type(inp / 16) matches Some(t) ==> {
            &&& spec_type_code(t) == inp / 16
            &&& t == PacketType::Publish ==> spec_parse_packet_type(inp) == Ok::<_, DecodeError>(
                (t, PacketFlags(inp % 16)),
            )
            &&& (t == PacketType::Pubrel || t == PacketType::Subscribe || t
                == PacketType::Unsubscribe) ==> spec_parse_packet_type(inp) == (if inp % 16 == 2 {
                Ok((t, PacketFlags(2)))
            } else {
                Err(DecodeError::PacketFlag)
            })
            &&& (t != PacketType::Publish && t != PacketType::Pubrel && t != PacketType::Subscribe
                && t != PacketType::Unsubscribe) ==> spec_parse_packet_type(inp) == (if inp % 16
                == 0 {
                Ok((t, PacketFlags(0)))
            } else {
                Err(DecodeError::PacketFlag)
            })
        },
{
}

/// A valid fixed header that is written and read back is the same header,
/// whatever follows it in the buffer.
pub proof fn lemma_fixed_header_round_trip(header: FixedHeaderView, rest: Seq<u8>)
    requires
        header.valid(),
    ensures
        header.encoding().len() == 1 + spec_remaining_length_digits(header.len as nat),
        spec_decode_fixed_header(header.encoding() + rest) == Ok::<_, DecodeError>(
            Status::Complete((header.encoding().len() as usize, header)),
        ),
{
    reveal(spec_decode_fixed_header);
    let bytes = header.encoding() + rest;
    lemma_remaining_length_round_trip(header.len, rest);
    lemma_encode_packet_type(spec_type_code(header.packet_type), header.flags);
    assert(bytes.skip(1) =~= spec_encode_remaining_length(header.len as nat) + rest);
    assert(bytes[0] == spec_encode_packet_type(header.packet_type, PacketFlags(header.flags)));
}

/// A fixed header that was read is valid where its flags are prescribed,
/// and it took two to five bytes.
pub proof fn lemma_fixed_header_bounds(bytes: Seq<u8>)
    ensures
        spec_decode_fixed_header(bytes) matches Ok(Status::Complete((n, header))) ==> {
            &&& 2 <= n <= 5
            &&& n <= bytes.len()
            &&& header.valid()
        },
        spec_decode_fixed_header(bytes) matches Ok(Status::Partial(m)) ==> 1 <= m <= 2,
{
    reveal(spec_decode_fixed_header);
    if bytes.len() >= 2 {
        lemma_parse_remaining_length_bounds(bytes.skip(1));
    }
}

/// The first `k` bytes of a buffer decode as the whole buffer does, or ask
/// for more: see [`prefix_agrees`].
pub proof fn lemma_fixed_header_prefix(bytes: Seq<u8>, k: int)
    requires
        0 <= k <= bytes.len(),
    ensures
        prefix_agrees(
            spec_decode_fixed_header(bytes),
            spec_decode_fixed_header(bytes.subrange(0, k)),
            k,
        ),
{
    reveal(spec_decode_fixed_header);
    if bytes.len() >= 2 && k >= 2 {
        lemma_parse_digits_prefix(bytes.skip(1), 4, k - 1);
        lemma_parse_remaining_length_bounds(bytes.skip(1));
        assert(bytes.subrange(0, k).skip(1) =~= bytes.skip(1).subrange(0, k - 1));
    } else if bytes.len() >= 2 {
        lemma_parse_remaining_length_bounds(bytes.skip(1));
    }
}

} // verus!
