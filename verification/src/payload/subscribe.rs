use vstd::prelude::*;
use vstd::utf8::encode_utf8;

use crate::codec::string::{
    lemma_string_encodes, lemma_string_reencode, lemma_string_round_trip, parse_string,
    spec_encode_string, spec_parse_string, valid_string,
};
use crate::codec::values::{encode_prefixed, encode_u8, lemma_encode_bytes_len, parse_u8, skip};
use crate::codec::{
    decoded_view, decoded_within, encode_at, encode_fixed, encode_then, space_left,
    spec_consumed, spec_then,
    Decodable, Decoded, Encodable,
};
use crate::error::{DecodeError, EncodeError};
use crate::qos;
use crate::qos::{spec_qos, spec_qos_bits};
use crate::seqs::{lemma_concat_assoc, lemma_skip_concat, lemma_skip_skip, lemma_split};
use crate::status::Status;

verus! {

/// One subscription as a value of the model: a topic filter and the
/// quality of service that is asked for.
pub type Topic = (Seq<char>, qos::QoS);

/// A quality of service in one byte at the front of `bytes`. The two low
/// bits count, and both of them set are no quality of service.
pub open spec fn spec_parse_qos(bytes: Seq<u8>) -> Decoded<qos::QoS> {
    if bytes.len() < 1 {
        Ok(Status::Partial(1))
    } else {
        match spec_qos(bytes[0]) {
            Ok(q) => Ok(Status::Complete((1, q))),
            Err(e) => Err(DecodeError::InvalidQoS(e)),
        }
    }
}

/// One subscription at the front of `bytes`: a topic filter, and behind it
/// a quality of service.
pub open spec fn spec_parse_subscription(bytes: Seq<u8>) -> Decoded<Topic> {
    let topic = spec_parse_string(bytes);
    let qos = spec_parse_qos(bytes.skip(spec_consumed(topic)));
    spec_then(topic, qos)
}

/// The subscriptions that `bytes` hold one behind the other, as far as they
/// can be read.
pub open spec fn spec_topics(bytes: Seq<u8>) -> Seq<Topic>
    decreases bytes.len(),
{
    if bytes.len() == 0 {
        Seq::empty()
    } else {
        match spec_parse_subscription(bytes) {
            Ok(Status::Complete((n, topic))) => if 0 < n <= bytes.len() {
                seq![topic] + spec_topics(bytes.skip(n as int))
            } else {
                Seq::empty()
            },
            _ => Seq::empty(),
        }
    }
}

/// Whether `bytes` are subscriptions one behind the other and nothing else.
/// The first subscription that is invalid gives its error; one that the
/// bytes end in the middle of gives `InvalidLength`.
pub open spec fn spec_check_subscriptions(bytes: Seq<u8>) -> Result<(), DecodeError>
    decreases bytes.len(),
{
    if bytes.len() == 0 {
        Ok(())
    } else {
        match spec_parse_subscription(bytes) {
            Err(e) => Err(e),
            Ok(Status::Partial(_)) => Err(DecodeError::InvalidLength),
            Ok(Status::Complete((n, _))) => if 0 < n <= bytes.len() {
                spec_check_subscriptions(bytes.skip(n as int))
            } else {
                Err(DecodeError::InvalidLength)
            },
        }
    }
}

/// The payload of a Subscribe packet, which is all of `bytes`.
pub open spec fn spec_decode_subscribe(bytes: Seq<u8>) -> Decoded<Seq<Topic>> {
    match spec_check_subscriptions(bytes) {
        Err(e) => Err(e),
        Ok(()) => Ok(Status::Complete((bytes.len() as usize, spec_topics(bytes)))),
    }
}

/// The bytes of subscriptions one behind the other: each is its topic
/// filter and one byte for its quality of service.
pub open spec fn spec_encode_topics(topics: Seq<Topic>) -> Seq<u8>
    decreases topics.len(),
{
    if topics.len() == 0 {
        Seq::empty()
    } else {
        spec_encode_topic(topics[0]) + spec_encode_topics(topics.drop_first())
    }
}

/// The bytes of one subscription.
pub open spec fn spec_encode_topic(topic: Topic) -> Seq<u8> {
    spec_encode_string(topic.0) + seq![spec_qos_bits(topic.1)]
}

/// What writing one subscription into a buffer of `capacity` bytes returns.
pub open spec fn spec_encode_topic_result(topic: Topic, capacity: usize) -> Result<
    usize,
    EncodeError,
> {
    let len = encode_utf8(topic.0).len();
    encode_then(encode_prefixed(len, capacity), encode_fixed(1, space_left(capacity, 2 + len)))
}

/// What writing subscriptions one behind the other into a buffer of
/// `capacity` bytes returns: the first that is too big or finds no room
/// decides.
pub open spec fn spec_encode_topics_result(topics: Seq<Topic>, capacity: usize) -> Result<
    usize,
    EncodeError,
>
    decreases topics.len(),
{
    if topics.len() == 0 {
        Ok(0)
    } else {
        encode_then(
            spec_encode_topic_result(topics[0], capacity),
            spec_encode_topics_result(
                topics.drop_first(),
                space_left(capacity, spec_encode_topic(topics[0]).len()),
            ),
        )
    }
}

/// Whether every topic filter is a valid string.
pub open spec fn spec_valid_topics(topics: Seq<Topic>) -> bool {
    forall|i: int| 0 <= i < topics.len() ==> valid_string((#[trigger] topics[i]).0)
}

/// The subscriptions of a payload that is given as a list.
pub open spec fn spec_listed(topics: Seq<(&str, qos::QoS)>) -> Seq<Topic> {
    Seq::new(topics.len(), |i: int| (topics[i].0@, topics[i].1))
}

/// A cursor over the subscriptions of a payload.
pub struct Iter<'a> {
    offset: usize,
    sub: &'a Subscribe<'a>,
}

/// The payload of a Subscribe packet. It is either a list of subscriptions
/// to be written, or the bytes of a payload that was read, which are
/// interpreted anew each time they are walked.
#[derive(Debug)]
pub enum Subscribe<'a> {
    Encode(&'a [(&'a str, qos::QoS)]),
    Decode(&'a [u8]),
}

impl<'a> View for Subscribe<'a> {
    type V = Seq<Topic>;

    open spec fn view(&self) -> Seq<Topic> {
        match self {
            Subscribe::Encode(topics) => spec_listed(topics@),
            Subscribe::Decode(bytes) => spec_topics(bytes@),
        }
    }
}

impl<'a> Iter<'a> {
    /// The subscriptions that the cursor has not yet handed out.
    pub closed spec fn remaining(&self) -> Seq<Topic> {
        match self.sub {
            Subscribe::Encode(topics) => if self.offset >= topics@.len() {
                Seq::empty()
            } else {
                spec_listed(topics@).skip(self.offset as int)
            },
            Subscribe::Decode(bytes) => if self.offset >= bytes@.len() {
                Seq::empty()
            } else {
                spec_topics(bytes@.skip(self.offset as int))
            },
        }
    }

    /// A cursor at the first subscription of `sub`.
    fn new(sub: &'a Subscribe<'a>) -> (r: Self)
        ensures
            r.remaining() == sub@,
    {
        proof {
            match sub {
                Subscribe::Encode(topics) => {
                    assert(spec_listed(topics@).skip(0) =~= spec_listed(topics@));
                    if topics@.len() == 0 {
                        assert(spec_listed(topics@) =~= Seq::empty());
                    }
                },
                Subscribe::Decode(bytes) => {
                    assert(bytes@.skip(0) =~= bytes@);
                },
            }
        }
        Iter { offset: 0, sub }
    }

    /// Hands out the next subscription, or `None` once there is none left.
    pub fn next(&mut self) -> (r: Option<(&'a str, qos::QoS)>)
        ensures
            match r {
                Some(item) => {
                    &&& old(self).remaining().len() > 0
                    &&& item@ == old(self).remaining()[0]
                    &&& final(self).remaining() == old(self).remaining().drop_first()
                },
                None => old(self).remaining().len() == 0 && final(self).remaining().len() == 0,
            },
    {
        match self.sub {
            Subscribe::Encode(topics) => {
                // Offset is an index into the encode slice
                if self.offset >= topics.len() {
                    return None;
                }
                let item = topics[self.offset];
                proof {
                    let listed = spec_listed(topics@);
                    assert(listed.skip(self.offset as int).drop_first() =~= listed.skip(
                        self.offset + 1,
                    ));
                    if self.offset + 1 >= topics@.len() {
                        assert(listed.skip(self.offset + 1) =~= Seq::empty());
                    }
                }
                self.offset += 1;

                Some(item)
            },
            Subscribe::Decode(bytes) => {
                // Offset is a byte offset in the byte slice
                if self.offset >= bytes.len() {
                    return None;
                }
                // &bytes[offset..] points to a length, string and QoS

                let ghost tail = bytes@.skip(self.offset as int);
                proof {
                    lemma_subscription_bounds(tail);
                }
                let (o, item) = match parse_subscription(skip(bytes, self.offset)) {
                    Ok(Status::Complete(v)) => v,
                    _ => return None,
                };
                proof {
                    lemma_skip_skip(bytes@, self.offset as int, o as int);
                    assert(spec_topics(tail).drop_first() =~= spec_topics(tail.skip(o as int)));
                }
                self.offset += o;

                Some(item)
            },
        }
    }
}

impl<'a> Subscribe<'a> {
    /// The payload that asks for the given subscriptions.
    pub fn new(topics: &'a [(&'a str, qos::QoS)]) -> (r: Self)
        ensures
            r@ == spec_listed(topics@),
    {
        Subscribe::Encode(topics)
    }

    /// A cursor at the first subscription of the payload.
    pub fn topics(&self) -> (r: Iter<'_>)
        ensures
            r.remaining() == self@,
    {
        Iter::new(self)
    }
}

/// Decodes one subscription.
pub fn parse_subscription<'a>(bytes: &'a [u8]) -> (r: Decoded<(&'a str, qos::QoS)>)
    ensures
        decoded_view(r) == spec_parse_subscription(bytes@),
        decoded_within(r, bytes@.len()),
{
    let (offset, topic) = match parse_string(bytes) {
        Ok(Status::Complete(v)) => v,
        Ok(Status::Partial(n)) => return Ok(Status::Partial(n)),
        Err(e) => return Err(e),
    };
    proof {
        lemma_string_reencode(bytes@);
    }

    let (o, qos) = match parse_u8(skip(bytes, offset)) {
        Ok(Status::Complete(v)) => v,
        Ok(Status::Partial(n)) => return Ok(Status::Partial(n)),
        Err(e) => return Err(e),
    };
    let qos = match qos::QoS::try_from(qos) {
        Ok(q) => q,
        Err(e) => return Err(DecodeError::from(e)),
    };

    Ok(Status::Complete((offset + o, (topic, qos))))
}

impl<'a> Decodable<'a> for Subscribe<'a> {
    open spec fn spec_decode(bytes: Seq<u8>) -> Decoded<Seq<Topic>> {
        spec_decode_subscribe(bytes)
    }

    fn decode(bytes: &'a [u8]) -> (r: Decoded<Self>) {
        let mut offset: usize = 0;
        proof {
            lemma_skip_skip(bytes@, 0, 0);
        }
        while offset < bytes.len()
            invariant
                offset <= bytes@.len(),
                spec_check_subscriptions(bytes@) == spec_check_subscriptions(
                    bytes@.skip(offset as int),
                ),
            decreases bytes@.len() - offset,
        {
            proof {
                lemma_subscription_bounds(bytes@.skip(offset as int));
            }
            let o = match parse_subscription(skip(bytes, offset)) {
                Err(e) => return Err(e),
                Ok(Status::Partial(..)) => return Err(DecodeError::InvalidLength),
                Ok(Status::Complete((o, _))) => o,
            };
            proof {
                lemma_skip_skip(bytes@, offset as int, o as int);
            }
            offset += o;
        }

        Ok(Status::Complete((bytes.len(), Subscribe::Decode(bytes))))
    }
}

impl<'a> Encodable for Subscribe<'a> {
    open spec fn encoding(&self) -> Seq<u8> {
        spec_encode_topics(self@)
    }

    open spec fn encode_result(&self, capacity: usize) -> Result<usize, EncodeError> {
        spec_encode_topics_result(self@, capacity)
    }

    fn encoded_len(&self) -> (n: usize) {
        let mut iter = self.topics();
        let mut len: usize = 0;
        loop
            invariant
                len + spec_encode_topics(iter.remaining()).len() == spec_encode_topics(
                    self@,
                ).len(),
                spec_encode_topics(self@).len() <= usize::MAX,
            decreases iter.remaining().len(),
        {
            match iter.next() {
                None => {
                    return len;
                },
                Some((topic, _)) => {
                    proof {
                        lemma_encode_bytes_len(encode_utf8(topic@));
                    }
                    len += topic.encoded_len() + 1;
                },
            }
        }
    }

    fn encode(&self, bytes: &mut [u8]) -> (r: Result<usize, EncodeError>) {
        let ghost before = bytes@;
        let ghost capacity = bytes.len();
        let ghost mut written = Seq::<u8>::empty();
        let mut iter = self.topics();
        let mut offset: usize = 0;
        proof {
            lemma_skip_skip(before, 0, 0);
            lemma_split(before, 0, 0);
            lemma_split(spec_encode_topics(self@), 0, 0);
        }
        loop
            invariant
                before == old(bytes)@,
                bytes@.len() == before.len(),
                capacity == before.len(),
                offset <= capacity,
                written.len() == offset,
                bytes@ == written + before.skip(offset as int),
                written + spec_encode_topics(iter.remaining()) == spec_encode_topics(self@),
                spec_encode_topics_result(self@, capacity) == encode_then(
                    Ok(offset),
                    spec_encode_topics_result(iter.remaining(), (capacity - offset) as usize),
                ),
            decreases iter.remaining().len(),
        {
            let ghost left = iter.remaining();
            match iter.next() {
                None => {
                    proof {
                        lemma_split(written, 0, 0);
                        assert(written == spec_encode_topics(self@));
                    }
                    return Ok(offset);
                },
                Some((topic, qos)) => {
                    let ghost prior = written;
                    let ghost space = (capacity - offset) as usize;
                    let ghost one_result = spec_encode_topic_result(left[0], space);
                    let ghost others_result = spec_encode_topics_result(
                        left.drop_first(),
                        space_left(space, spec_encode_topic(left[0]).len()),
                    );
                    proof {
                        lemma_encode_bytes_len(encode_utf8(topic@));
                    }
                    let first = encode_at(topic, bytes, offset, Ghost(before), Ghost(written));
                    offset += match first {
                        Ok(o) => o,
                        Err(e) => {
                            assert(one_result == Err::<usize, _>(e));
                            return Err(e);
                        },
                    };
                    proof {
                        written = written + spec_encode_string(topic@);
                    }
                    let (_, rest) = bytes.split_at_mut(offset);
                    let second = encode_u8(u8::from(qos), rest);
                    offset += match second {
                        Ok(o) => o,
                        Err(e) => {
                            assert(one_result == Err::<usize, _>(e));
                            return Err(e);
                        },
                    };
                    proof {
                        let byte = seq![spec_qos_bits(qos)];
                        let one = spec_encode_topic(left[0]);
                        let others = spec_encode_topics(left.drop_first());
                        assert(bytes@ =~= (written + byte) + before.skip(offset as int));
                        lemma_concat_assoc(prior, spec_encode_string(topic@), byte);
                        lemma_concat_assoc(prior, one, others);
                        written = written + byte;
                        assert(one.len() == 3 + encode_utf8(left[0].0).len());
                        assert(one_result == Ok::<usize, EncodeError>(one.len() as usize));
                        assert(space_left(space, one.len()) == (capacity - offset) as usize);
                        lemma_encode_topics_result(
                            left.drop_first(),
                            (capacity - offset) as usize,
                        );
                    }
                },
            }
        }
    }
}

/// Where subscriptions are written, they take as many bytes as their
/// encoding has, and no more than the buffer holds.
pub proof fn lemma_encode_topics_result(topics: Seq<Topic>, capacity: usize)
    ensures
        spec_encode_topics_result(topics, capacity) matches Ok(n) ==> n == spec_encode_topics(
            topics,
        ).len() && n <= capacity,
    decreases topics.len(),
{
    if topics.len() > 0 {
        let one = spec_encode_topic(topics[0]);
        lemma_encode_bytes_len(encode_utf8(topics[0].0));
        lemma_encode_topics_result(topics.drop_first(), space_left(capacity, one.len()));
    }
}

/// A subscription that was read took at least three bytes and no more than
/// there are, its topic filter is valid, and it is written in as many bytes
/// as it was read from. The bytes may differ: of the byte that holds the
/// quality of service only the two low bits are read.
pub proof fn lemma_subscription_bounds(bytes: Seq<u8>)
    ensures
        spec_parse_subscription(bytes) matches Ok(Status::Complete((n, topic))) ==> {
            &&& 3 <= n <= bytes.len()
            &&& n <= 65538
            &&& valid_string(topic.0)
            &&& spec_encode_topic(topic).len() == n
        },
{
    if let Ok(Status::Complete((n, topic))) = spec_parse_subscription(bytes) {
        lemma_string_reencode(bytes);
        lemma_encode_bytes_len(encode_utf8(topic.0));
    }
}

/// A subscription with a valid topic filter that is written and read back
/// is the same subscription, whatever follows it in the buffer.
pub proof fn lemma_subscription_round_trip(topic: Topic, rest: Seq<u8>)
    requires
        valid_string(topic.0),
    ensures
        spec_parse_subscription(spec_encode_topic(topic) + rest) == Ok::<_, DecodeError>(
            Status::Complete((spec_encode_topic(topic).len() as usize, topic)),
        ),
        3 <= spec_encode_topic(topic).len() <= 65538,
{
    let e1 = spec_encode_string(topic.0);
    let e2 = seq![spec_qos_bits(topic.1)];
    lemma_concat_assoc(e1, e2, rest);
    lemma_string_round_trip(topic.0, e2 + rest);
    lemma_skip_concat(e1, e2 + rest);
    assert((e2 + rest)[0] == spec_qos_bits(topic.1));
}

/// Subscriptions with valid topic filters that are written and read back
/// are the same subscriptions.
pub proof fn lemma_subscribe_round_trip(topics: Seq<Topic>)
    requires
        spec_valid_topics(topics),
    ensures
        spec_check_subscriptions(spec_encode_topics(topics)) == Ok::<(), DecodeError>(()),
        spec_topics(spec_encode_topics(topics)) == topics,
    decreases topics.len(),
{
    if topics.len() > 0 {
        let rest = spec_encode_topics(topics.drop_first());
        let one = spec_encode_topic(topics[0]);
        assert(spec_valid_topics(topics.drop_first())) by {
            assert forall|i: int| 0 <= i < topics.drop_first().len() implies valid_string(
                (#[trigger] topics.drop_first()[i]).0,
            ) by {
                assert(topics.drop_first()[i] == topics[i + 1]);
            }
        }
        lemma_subscribe_round_trip(topics.drop_first());
        lemma_subscription_round_trip(topics[0], rest);
        lemma_skip_concat(one, rest);
        assert(seq![topics[0]] + topics.drop_first() =~= topics);
    } else {
        assert(topics =~= Seq::empty());
    }
}

/// Subscriptions that were read have valid topic filters, and they are
/// written in as many bytes as they were read from.
pub proof fn lemma_subscribe_reencode(bytes: Seq<u8>)
    requires
        spec_check_subscriptions(bytes) is Ok,
    ensures
        spec_valid_topics(spec_topics(bytes)),
        spec_encode_topics(spec_topics(bytes)).len() == bytes.len(),
    decreases bytes.len(),
{
    if bytes.len() > 0 {
        lemma_subscription_bounds(bytes);
        let n = spec_consumed(spec_parse_subscription(bytes));
        let topics = spec_topics(bytes);
        lemma_subscribe_reencode(bytes.skip(n));
        assert(topics.drop_first() =~= spec_topics(bytes.skip(n)));
        assert forall|i: int| 0 <= i < topics.len() implies valid_string(
            (#[trigger] topics[i]).0,
        ) by {
            if i > 0 {
                assert(topics[i] == topics.drop_first()[i - 1]);
            }
        }
    }
}

/// Subscriptions with valid topic filters are written into every buffer
/// that has room for them.
pub proof fn lemma_subscribe_encodes(topics: Seq<Topic>, capacity: usize)
    requires
        spec_valid_topics(topics),
    ensures
        spec_encode_topics_result(topics, capacity) == encode_fixed(
            spec_encode_topics(topics).len(),
            capacity,
        ),
    decreases topics.len(),
{
    if topics.len() > 0 {
        let one = spec_encode_topic(topics[0]);
        lemma_string_encodes(topics[0].0, capacity);
        assert(spec_valid_topics(topics.drop_first())) by {
            assert forall|i: int| 0 <= i < topics.drop_first().len() implies valid_string(
                (#[trigger] topics.drop_first()[i]).0,
            ) by {
                assert(topics.drop_first()[i] == topics[i + 1]);
            }
        }
        lemma_subscribe_encodes(topics.drop_first(), space_left(capacity, one.len()));
    }
}

} // verus!
