use vstd::prelude::*;
use vstd::std_specs::cmp::PartialEqSpecImpl;
use vstd::std_specs::convert::{FromSpecImpl, TryFromSpecImpl};

use crate::bits;
use crate::bits::spec_weight;
use crate::codec::{encode_fixed, Decodable, Decoded, Encodable};
use crate::error::{DecodeError, EncodeError};
use crate::qos;
use crate::qos::{spec_qos, spec_qos_bits};
use crate::status::Status;

verus! {

/// The answer of the server to one subscription: bit 7 says that it failed,
/// bits 1 and 0 hold the quality of service that was granted.
#[derive(PartialEq, Eq, Clone, Copy, Debug)]
pub struct ReturnCode(u8);

impl View for ReturnCode {
    type V = u8;

    closed spec fn view(&self) -> u8 {
        self.0
    }
}

/// The failure bit of a return code.
pub open spec fn spec_failure(code: u8) -> bool {
    code / 128 % 2 == 1
}

/// The quality of service that a return code grants.
pub open spec fn spec_max_qos(code: u8) -> Result<qos::QoS, qos::Error> {
    spec_qos((code % 4) as u8)
}

/// The bytes that are return codes: bits 6 to 2 are not set, the failure
/// bit is not set together with a bit of the quality of service, and bits 1
/// and 0 hold a quality of service. These are the failure alone and the
/// three qualities of service alone.
pub open spec fn spec_valid_return_code(code: u8) -> bool {
    &&& code / 4 % 32 == 0
    &&& !(code % 4 != 0 && code / 128 % 2 == 1)
    &&& spec_max_qos(code) is Ok
}

/// The return code that is the byte `code`.
pub closed spec fn spec_return_code(code: u8) -> ReturnCode {
    ReturnCode(code)
}

/// A return code is its byte and nothing else.
pub broadcast proof fn lemma_return_code_view(code: u8)
    ensures
        #[trigger] spec_return_code(code)@ == code,
{
}

impl ReturnCode {
    pub const SUCCESS_QOS_0: u8 = 0b0000_0000;

    pub const SUCCESS_QOS_1: u8 = 0b0000_0001;

    pub const SUCCESS_QOS_2: u8 = 0b0000_0010;

    pub const FAILURE: u8 = 0b1000_0000;

    /// Whether the subscription failed.
    pub fn failure(&self) -> (r: bool)
        ensures
            r == spec_failure(self@),
    {
        proof {
            bits::lemma_bit(self.0);
        }
        bits::bit(self.0, 7)
    }

    /// Sets the failure bit and leaves the others.
    pub fn set_failure(&mut self, value: bool)
        ensures
            final(self)@ == old(self)@ - spec_weight(spec_failure(old(self)@), 128) + spec_weight(
                value,
                128,
            ),
            spec_failure(final(self)@) == value,
    {
        proof {
            bits::lemma_bit(self.0);
            bits::lemma_set_bit(self.0, value);
        }
        bits::set_bit(&mut self.0, 7, value)
    }

    /// The quality of service that was granted, unless both of its bits are
    /// set.
    pub fn max_qos(&self) -> (r: Result<qos::QoS, qos::Error>)
        ensures
            r == spec_max_qos(self@),
    {
        proof {
            bits::lemma_bit_range(self.0);
        }
        let qos_bits: u8 = bits::bit_range(self.0, 1, 0);
        qos::QoS::try_from(qos_bits)
    }

    /// Sets the quality of service and leaves the other bits.
    #[allow(dead_code)]
    pub fn set_max_qos(&mut self, qos: qos::QoS)
        ensures
            final(self)@ == old(self)@ - old(self)@ % 4 + spec_qos_bits(qos),
            spec_max_qos(final(self)@) == Ok::<qos::QoS, qos::Error>(qos),
    {
        let field = u8::from(qos);
        proof {
            bits::lemma_set_bit_range(self.0, field);
        }
        bits::set_bit_range(&mut self.0, 1, 0, field)
    }
}

impl From<ReturnCode> for u8 {
    fn from(val: ReturnCode) -> (r: u8) {
        val.0
    }
}

impl FromSpecImpl<ReturnCode> for u8 {
    open spec fn obeys_from_spec() -> bool {
        true
    }

    open spec fn from_spec(val: ReturnCode) -> u8 {
        val@
    }
}

impl TryFrom<u8> for ReturnCode {
    type Error = ();

    fn try_from(val: u8) -> (r: Result<Self, Self::Error>) {
        assert((0b0111_1100 & val != 0) == (val / 4 % 32 != 0)) by (bit_vector);
        assert((0b1000_0000 & val != 0) == (val / 128 % 2 == 1)) by (bit_vector);
        assert(0b0000_0011 & val == val % 4) by (bit_vector);
        if 0b0111_1100 & val != 0 {
            return Err(());
        }
        let failure = 0b1000_0000 & val;
        let success = 0b0000_0011 & val;

        if (success != 0) && (failure != 0) {
            return Err(());
        }
        // What is granted must be a quality of service.
        if qos::QoS::try_from(success).is_err() {
            return Err(());
        }
        Ok(ReturnCode(val))
    }
}

impl TryFromSpecImpl<u8> for ReturnCode {
    open spec fn obeys_try_from_spec() -> bool {
        true
    }

    open spec fn try_from_spec(val: u8) -> Result<Self, Self::Error> {
        if spec_valid_return_code(val) {
            Ok(spec_return_code(val))
        } else {
            Err(())
        }
    }
}

/// The return codes of a payload, which are either given one by one or
/// stand in a buffer that was checked byte by byte.
#[derive(Debug, Clone, Copy)]
enum Codes<'a> {
    Given(&'a [ReturnCode]),
    Checked(&'a [u8]),
}

/// The payload of a Suback packet: one return code for each subscription
/// that was asked for.
#[derive(Debug)]
pub struct Suback<'a> {
    return_codes: Codes<'a>,
}

impl<'a> View for Suback<'a> {
    type V = Seq<u8>;

    /// The return codes, each as its byte.
    closed spec fn view(&self) -> Seq<u8> {
        match self.return_codes {
            Codes::Given(codes) => Seq::new(codes@.len(), |i: int| codes@[i]@),
            Codes::Checked(bytes) => bytes@,
        }
    }
}

/// The view of return codes that are given one by one.
pub open spec fn spec_codes(return_codes: Seq<ReturnCode>) -> Seq<u8> {
    Seq::new(return_codes.len(), |i: int| return_codes[i]@)
}

/// Whether every byte is a return code.
pub open spec fn spec_valid_return_codes(codes: Seq<u8>) -> bool {
    forall|i: int| 0 <= i < codes.len() ==> spec_valid_return_code(#[trigger] codes[i])
}

/// The payload of a Suback packet, which is all of `bytes`: every byte must
/// be a return code.
pub open spec fn spec_decode_suback(bytes: Seq<u8>) -> Decoded<Seq<u8>> {
    if spec_valid_return_codes(bytes) {
        Ok(Status::Complete((bytes.len() as usize, bytes)))
    } else {
        Err(DecodeError::InvalidSubackReturnCode)
    }
}

impl<'a> Suback<'a> {
    /// The payload that holds the given return codes.
    pub fn new(return_codes: &'a [ReturnCode]) -> (r: Self)
        ensures
            r@ == spec_codes(return_codes@),
    {
        Self { return_codes: Codes::Given(return_codes) }
    }

    /// The number of return codes.
    pub fn len(&self) -> (n: usize)
        ensures
            n == self@.len(),
    {
        match self.return_codes {
            Codes::Given(codes) => codes.len(),
            Codes::Checked(bytes) => bytes.len(),
        }
    }

    /// The byte of the return code at `index`.
    fn byte_at(&self, index: usize) -> (r: u8)
        requires
            index < self@.len(),
        ensures
            r == self@[index as int],
    {
        match self.return_codes {
            Codes::Given(codes) => codes[index].0,
            Codes::Checked(bytes) => bytes[index],
        }
    }

    /// The return code at `index`, if there are that many.
    pub fn get(&self, index: usize) -> (r: Option<ReturnCode>)
        ensures
            index < self@.len() ==> (r matches Some(code) && code@ == self@[index as int]),
            index >= self@.len() ==> r is None,
    {
        if index < self.len() {
            Some(ReturnCode(self.byte_at(index)))
        } else {
            None
        }
    }
}

impl<'a> PartialEq for Suback<'a> {
    fn eq(&self, other: &Self) -> (r: bool) {
        let n = self.len();
        if n != other.len() {
            return false;
        }
        let mut i: usize = 0;
        while i < n
            invariant
                n == self@.len(),
                n == other@.len(),
                i <= n,
                forall|j: int| 0 <= j < i ==> self@[j] == other@[j],
            decreases n - i,
        {
            if self.byte_at(i) != other.byte_at(i) {
                return false;
            }
            i += 1;
        }
        assert(self@ =~= other@);
        true
    }
}

impl<'a> PartialEqSpecImpl for Suback<'a> {
    open spec fn obeys_eq_spec() -> bool {
        true
    }

    open spec fn eq_spec(&self, other: &Self) -> bool {
        self@ == other@
    }
}

impl<'a> Decodable<'a> for Suback<'a> {
    open spec fn spec_decode(bytes: Seq<u8>) -> Decoded<Seq<u8>> {
        spec_decode_suback(bytes)
    }

    fn decode(bytes: &'a [u8]) -> (r: Decoded<Self>) {
        // Check all the bytes are valid return codes
        let mut i: usize = 0;
        while i < bytes.len()
            invariant
                i <= bytes@.len(),
                forall|j: int| 0 <= j < i ==> spec_valid_return_code(#[trigger] bytes@[j]),
            decreases bytes@.len() - i,
        {
            if ReturnCode::try_from(bytes[i]).is_err() {
                return Err(DecodeError::InvalidSubackReturnCode);
            }
            i += 1;
        }

        Ok(Status::Complete((bytes.len(), Self { return_codes: Codes::Checked(bytes) })))
    }
}

impl<'a> Encodable for Suback<'a> {
    open spec fn encoding(&self) -> Seq<u8> {
        self@
    }

    open spec fn encode_result(&self, capacity: usize) -> Result<usize, EncodeError> {
        encode_fixed(self@.len(), capacity)
    }

    fn encoded_len(&self) -> (n: usize) {
        self.len()
    }

    fn encode(&self, bytes: &mut [u8]) -> (r: Result<usize, EncodeError>) {
        let n = self.len();
        if bytes.len() < n {
            return Err(EncodeError::OutOfSpace);
        }
        let mut i: usize = 0;
        while i < n
            invariant
                n == self@.len(),
                i <= n,
                bytes@.len() == old(bytes)@.len(),
                n <= bytes@.len(),
                forall|j: int| 0 <= j < i ==> bytes@[j] == self@[j],
                forall|j: int| i <= j < bytes@.len() ==> bytes@[j] == old(bytes)@[j],
            decreases n - i,
        {
            bytes[i] = self.byte_at(i);
            i += 1;
        }
        assert(bytes@ =~= self@ + old(bytes)@.skip(n as int));

        Ok(n)
    }
}

/// Return codes that are written and read back are the same return codes,
/// if each of them is valid.
pub proof fn lemma_suback_round_trip(codes: Seq<u8>)
    requires
        spec_valid_return_codes(codes),
    ensures
        spec_decode_suback(codes) == Ok::<_, DecodeError>(
            Status::Complete((codes.len() as usize, codes)),
        ),
{
}

/// The four return codes of the protocol are valid and no other byte is:
/// not a byte with one of bits 6 to 2, not one with the failure bit and a
/// bit of the quality of service, and not one with both bits of the quality
/// of service.
pub proof fn lemma_valid_return_codes(code: u8)
    ensures
        spec_valid_return_code(code) <==> (code == 0 || code == 1 || code == 2 || code == 128),
{
}

} // verus!
