use vstd::prelude::*;
use vstd::utf8::encode_utf8;

use crate::codec::string::{
    lemma_parse_string_prefix, lemma_string_encodes, lemma_string_reencode,
    lemma_string_round_trip, parse_string, spec_encode_string, spec_parse_string, valid_string,
};
use crate::codec::values::{
    encode_prefixed, lemma_bytes_reencode, lemma_bytes_round_trip, lemma_encode_bytes_len,
    lemma_parse_bytes_prefix, parse_bytes, skip, spec_encode_bytes, spec_parse_bytes,
};
use crate::codec::{
    decoded_view, decoded_within, encode_at, encode_fixed, encode_then, lemma_map_prefix,
    lemma_optional_prefix, lemma_then_prefix, prefix_agrees, space_left, spec_consumed,
    spec_map, spec_optional, spec_then, Decodable, Decoded, Encodable,
};
use crate::error::{DecodeError, EncodeError};
use crate::seqs::{
    lemma_concat_assoc, lemma_prefix_skip, lemma_skip_concat, lemma_skip_skip, lemma_split,
};
use crate::status::Status;
use crate::variable_header::connect::{
    spec_has_password, spec_has_username, spec_has_will, Flags,
};

verus! {

/// The message that the server publishes when the client is lost.
#[derive(Debug)]
pub struct Will<'buf> {
    topic: &'buf str,
    message: &'buf [u8],
}

/// What a will holds.
pub struct WillView {
    pub topic: Seq<char>,
    pub message: Seq<u8>,
}

impl<'buf> View for Will<'buf> {
    type V = WillView;

    closed spec fn view(&self) -> WillView {
        WillView { topic: self.topic@, message: self.message@ }
    }
}

impl WillView {
    /// The topic, then the message behind its length.
    pub open spec fn encoding(self) -> Seq<u8> {
        spec_encode_string(self.topic) + spec_encode_bytes(self.message)
    }

    /// What writing the will into a buffer of `capacity` bytes returns.
    pub open spec fn encode_result(self, capacity: usize) -> Result<usize, EncodeError> {
        let topic_len = encode_utf8(self.topic).len();
        encode_then(
            encode_prefixed(topic_len, capacity),
            encode_prefixed(self.message.len(), space_left(capacity, 2 + topic_len)),
        )
    }

    /// The will can be written and read back: its topic is a valid string
    /// and its message has at most 65535 bytes.
    pub open spec fn valid(self) -> bool {
        &&& valid_string(self.topic)
        &&& self.message.len() <= 65535
    }
}

/// A will at the front of `bytes`: a topic, and a message behind it.
pub open spec fn spec_decode_will(bytes: Seq<u8>) -> Decoded<WillView> {
    let topic = spec_parse_string(bytes);
    let message = spec_parse_bytes(bytes.skip(spec_consumed(topic)));
    spec_map(
        spec_then(topic, message),
        |t: (Seq<char>, Seq<u8>)| WillView { topic: t.0, message: t.1 },
    )
}

impl<'buf> Decodable<'buf> for Will<'buf> {
    open spec fn spec_decode(bytes: Seq<u8>) -> Decoded<WillView> {
        spec_decode_will(bytes)
    }

    fn decode(bytes: &'buf [u8]) -> (r: Decoded<Will<'buf>>) {
        let (offset, topic) = match parse_string(bytes) {
            Ok(Status::Complete(v)) => v,
            Ok(Status::Partial(n)) => return Ok(Status::Partial(n)),
            Err(e) => return Err(e),
        };
        proof {
            lemma_string_reencode(bytes@);
            lemma_bytes_reencode(bytes@.skip(offset as int));
            lemma_skip_skip(bytes@, offset as int, 0);
        }
        let (o, message) = match parse_bytes(skip(bytes, offset)) {
            Ok(Status::Complete(v)) => v,
            Ok(Status::Partial(n)) => return Ok(Status::Partial(n)),
            Err(e) => return Err(e),
        };

        Ok(Status::Complete((offset + o, Will { topic, message })))
    }
}

impl<'buf> Encodable for Will<'buf> {
    open spec fn encoding(&self) -> Seq<u8> {
        self@.encoding()
    }

    open spec fn encode_result(&self, capacity: usize) -> Result<usize, EncodeError> {
        self@.encode_result(capacity)
    }

    fn encoded_len(&self) -> (n: usize) {
        2 + self.topic.as_bytes().len() + 2 + self.message.len()
    }

    fn encode(&self, bytes: &mut [u8]) -> (r: Result<usize, EncodeError>) {
        let ghost before = bytes@;
        let ghost mut written = Seq::<u8>::empty();
        let mut offset: usize = 0;
        proof {
            lemma_encode_bytes_len(encode_utf8(self@.topic));
            assert(bytes@ =~= written + before.skip(0));
        }
        offset += match encode_at(self.topic, bytes, offset, Ghost(before), Ghost(written)) {
            Ok(o) => o,
            Err(e) => return Err(e),
        };
        proof {
            written = written + spec_encode_string(self@.topic);
        }
        offset += match encode_at(self.message, bytes, offset, Ghost(before), Ghost(written)) {
            Ok(o) => o,
            Err(e) => return Err(e),
        };
        proof {
            written = written + spec_encode_bytes(self@.message);
            assert(written =~= self@.encoding());
        }
        Ok(offset)
    }
}

impl<'buf> Will<'buf> {
    /// A will that publishes `message` to `topic`.
    pub fn new(topic: &'buf str, message: &'buf [u8]) -> (r: Self)
        ensures
            r@ == (WillView { topic: topic@, message: message@ }),
    {
        Will { topic, message }
    }

    /// The topic that the will is published to.
    pub fn topic(&self) -> (r: &'buf str)
        ensures
            r@ == self@.topic,
    {
        self.topic
    }

    /// The message of the will.
    pub fn message(&self) -> (r: &'buf [u8])
        ensures
            r@ == self@.message,
    {
        self.message
    }
}

/// The payload of a Connect packet.
#[derive(Debug)]
pub struct Connect<'buf> {
    client_id: &'buf str,
    will: Option<Will<'buf>>,
    username: Option<&'buf str>,
    password: Option<&'buf [u8]>,
}

/// What the payload of a Connect packet holds.
pub struct ConnectView {
    pub client_id: Seq<char>,
    pub will: Option<WillView>,
    pub username: Option<Seq<char>>,
    pub password: Option<Seq<u8>>,
}

/// The view of a will that may not be there.
pub open spec fn spec_will_view(will: Option<Will>) -> Option<WillView> {
    match will {
        Some(w) => Some(w@),
        None => None,
    }
}

/// The view of a string that may not be there.
pub open spec fn spec_str_view(s: Option<&str>) -> Option<Seq<char>> {
    match s {
        Some(s) => Some(s@),
        None => None,
    }
}

/// The view of a byte string that may not be there.
pub open spec fn spec_bytes_view(s: Option<&[u8]>) -> Option<Seq<u8>> {
    match s {
        Some(s) => Some(s@),
        None => None,
    }
}

impl<'buf> View for Connect<'buf> {
    type V = ConnectView;

    closed spec fn view(&self) -> ConnectView {
        ConnectView {
            client_id: self.client_id@,
            will: spec_will_view(self.will),
            username: spec_str_view(self.username),
            password: spec_bytes_view(self.password),
        }
    }
}

impl ConnectView {
    /// The bytes of the will, if there is one.
    pub open spec fn will_encoding(self) -> Seq<u8> {
        match self.will {
            Some(w) => w.encoding(),
            None => Seq::empty(),
        }
    }

    /// The bytes of the user name, if there is one.
    pub open spec fn username_encoding(self) -> Seq<u8> {
        match self.username {
            Some(u) => spec_encode_string(u),
            None => Seq::empty(),
        }
    }

    /// The bytes of the password, if there is one.
    pub open spec fn password_encoding(self) -> Seq<u8> {
        match self.password {
            Some(p) => spec_encode_bytes(p),
            None => Seq::empty(),
        }
    }

    /// The client identifier, then the will, the user name and the
    /// password, as far as they are there.
    pub open spec fn encoding(self) -> Seq<u8> {
        spec_encode_string(self.client_id) + self.will_encoding() + self.username_encoding()
            + self.password_encoding()
    }

    /// What writing the payload into a buffer of `capacity` bytes returns:
    /// the fields are written in their order, and the first that is too big
    /// or finds no room decides.
    pub open spec fn encode_result(self, capacity: usize) -> Result<usize, EncodeError> {
        let a = spec_encode_string(self.client_id).len();
        let b = self.will_encoding().len();
        let c = self.username_encoding().len();
        encode_then(
            encode_prefixed(encode_utf8(self.client_id).len(), capacity),
            encode_then(
                match self.will {
                    Some(w) => w.encode_result(space_left(capacity, a)),
                    None => Ok(0),
                },
                encode_then(
                    match self.username {
                        Some(u) => encode_prefixed(
                            encode_utf8(u).len(),
                            space_left(capacity, a + b),
                        ),
                        None => Ok(0),
                    },
                    match self.password {
                        Some(p) => encode_prefixed(p.len(), space_left(capacity, a + b + c)),
                        None => Ok(0),
                    },
                ),
            ),
        )
    }

    /// The payload can be written and read back under the Connect flags
    /// `flags`: every field is valid, and the flags announce exactly the
    /// fields that are there.
    pub open spec fn valid(self, flags: u8) -> bool {
        &&& valid_string(self.client_id)
        &&& self.will matches Some(w) ==> w.valid()
        &&& self.username matches Some(u) ==> valid_string(u)
        &&& self.password matches Some(p) ==> p.len() <= 65535
        &&& spec_has_will(flags) == (self.will is Some)
        &&& spec_has_username(flags) == (self.username is Some)
        &&& spec_has_password(flags) == (self.password is Some)
    }
}

/// The fields of a Connect payload as they are decoded, one behind the
/// other.
pub type ConnectFields = (Seq<char>, (Option<WillView>, (Option<Seq<char>>, Option<Seq<u8>>)));

/// The payload that is made of the given fields.
pub open spec fn spec_connect_payload(fields: ConnectFields) -> ConnectView {
    ConnectView {
        client_id: fields.0,
        will: fields.1.0,
        username: fields.1.1.0,
        password: fields.1.1.1,
    }
}

/// The user name and the password at the front of `bytes`, each only where
/// the Connect flags `flags` announce it.
pub open spec fn spec_decode_credentials(flags: u8, bytes: Seq<u8>) -> Decoded<
    (Option<Seq<char>>, Option<Seq<u8>>),
> {
    let username = spec_optional(spec_has_username(flags), spec_parse_string(bytes));
    let password = spec_optional(
        spec_has_password(flags),
        spec_parse_bytes(bytes.skip(spec_consumed(username))),
    );
    spec_then(username, password)
}

/// The will, the user name and the password at the front of `bytes`, each
/// only where the Connect flags `flags` announce it.
pub open spec fn spec_decode_announced(flags: u8, bytes: Seq<u8>) -> Decoded<
    (Option<WillView>, (Option<Seq<char>>, Option<Seq<u8>>)),
> {
    let will = spec_optional(spec_has_will(flags), spec_decode_will(bytes));
    let credentials = spec_decode_credentials(flags, bytes.skip(spec_consumed(will)));
    spec_then(will, credentials)
}

/// The payload of a Connect packet whose variable header has the flags
/// `flags`: the client identifier, then a will, a user name and a password,
/// each only where the flags announce it. The fields stand in this order,
/// and each starts where the one before it ended.
pub open spec fn spec_decode_connect_payload(flags: u8, bytes: Seq<u8>) -> Decoded<ConnectView> {
    let client_id = spec_parse_string(bytes);
    let announced = spec_decode_announced(flags, bytes.skip(spec_consumed(client_id)));
    spec_map(spec_then(client_id, announced), |fields: ConnectFields| spec_connect_payload(fields))
}

impl<'buf> Connect<'buf> {
    /// A payload of the given fields.
    pub fn new(
        client_id: &'buf str,
        will: Option<Will<'buf>>,
        username: Option<&'buf str>,
        password: Option<&'buf [u8]>,
    ) -> (r: Self)
        ensures
            r@ == (ConnectView {
                client_id: client_id@,
                will: spec_will_view(will),
                username: spec_str_view(username),
                password: spec_bytes_view(password),
            }),
    {
        Connect { client_id, will, username, password }
    }

    /// The identifier of the client.
    pub fn client_id(&self) -> (r: &'buf str)
        ensures
            r@ == self@.client_id,
    {
        self.client_id
    }

    /// The will, if the client left one.
    pub fn will(&self) -> (r: &Option<Will<'buf>>)
        ensures
            spec_will_view(*r) == self@.will,
    {
        &self.will
    }

    /// The user name, if the client gave one.
    pub fn username(&self) -> (r: Option<&'buf str>)
        ensures
            spec_str_view(r) == self@.username,
    {
        self.username
    }

    /// The password, if the client gave one.
    pub fn password(&self) -> (r: Option<&'buf [u8]>)
        ensures
            spec_bytes_view(r) == self@.password,
    {
        self.password
    }
}

impl<'buf> Connect<'buf> {
    /// Decodes the payload of a Connect packet whose variable header has
    /// the flags `flags` from the front of `bytes`.
    pub fn decode(flags: Flags, bytes: &'buf [u8]) -> (r: Decoded<Self>)
        ensures
            decoded_view(r) == spec_decode_connect_payload(flags@, bytes@),
            decoded_within(r, bytes@.len()),
    {
        let (offset, client_id) = match parse_string(bytes) {
            Ok(Status::Complete(v)) => v,
            Ok(Status::Partial(n)) => return Ok(Status::Partial(n)),
            Err(e) => return Err(e),
        };
        let ghost a = offset as int;
        proof {
            lemma_string_reencode(bytes@);
        }

        let (offset, will) = if flags.has_will() {
            proof {
                lemma_will_reencode(bytes@.skip(a));
            }
            let (o, will) = match Will::decode(skip(bytes, offset)) {
                Ok(Status::Complete(v)) => v,
                Ok(Status::Partial(n)) => return Ok(Status::Partial(n)),
                Err(e) => return Err(e),
            };
            (offset + o, Some(will))
        } else {
            (offset, None)
        };
        let ghost b = offset - a;
        proof {
            lemma_skip_skip(bytes@, a, b);
        }

        let (offset, username) = if flags.has_username() {
            proof {
                lemma_string_reencode(bytes@.skip(a + b));
            }
            let (o, username) = match parse_string(skip(bytes, offset)) {
                Ok(Status::Complete(v)) => v,
                Ok(Status::Partial(n)) => return Ok(Status::Partial(n)),
                Err(e) => return Err(e),
            };
            (offset + o, Some(username))
        } else {
            (offset, None)
        };
        let ghost c = offset - a - b;
        proof {
            lemma_skip_skip(bytes@.skip(a), b, c);
            lemma_skip_skip(bytes@, a, b + c);
        }

        let (offset, password) = if flags.has_password() {
            proof {
                lemma_bytes_reencode(bytes@.skip(a + b + c));
            }
            let (o, password) = match parse_bytes(skip(bytes, offset)) {
                Ok(Status::Complete(v)) => v,
                Ok(Status::Partial(n)) => return Ok(Status::Partial(n)),
                Err(e) => return Err(e),
            };
            (offset + o, Some(password))
        } else {
            (offset, None)
        };

        Ok(Status::Complete((offset, Connect { client_id, will, username, password })))
    }
}

impl<'buf> Encodable for Connect<'buf> {
    open spec fn encoding(&self) -> Seq<u8> {
        self@.encoding()
    }

    open spec fn encode_result(&self, capacity: usize) -> Result<usize, EncodeError> {
        self@.encode_result(capacity)
    }

    fn encoded_len(&self) -> (n: usize) {
        let mut len: usize = self.client_id.encoded_len();
        if let Some(will) = &self.will {
            len += will.encoded_len();
        }
        if let Some(username) = self.username {
            len += username.encoded_len();
        }
        if let Some(password) = self.password {
            len += 2 + password.len();
        }
        len
    }

    fn encode(&self, bytes: &mut [u8]) -> (r: Result<usize, EncodeError>) {
        let ghost before = bytes@;
        let ghost capacity = bytes.len();
        let ghost view = self@;
        let ghost a = spec_encode_string(view.client_id).len();
        let ghost b = view.will_encoding().len();
        let ghost c = view.username_encoding().len();
        let ghost r1 = encode_prefixed(encode_utf8(view.client_id).len(), capacity);
        let ghost r2 = match view.will {
            Some(w) => w.encode_result(space_left(capacity, a)),
            None => Ok(0),
        };
        let ghost r3 = match view.username {
            Some(u) => encode_prefixed(encode_utf8(u).len(), space_left(capacity, a + b)),
            None => Ok(0),
        };
        let ghost r4 = match view.password {
            Some(p) => encode_prefixed(p.len(), space_left(capacity, a + b + c)),
            None => Ok(0),
        };
        let ghost mut written = Seq::<u8>::empty();
        let mut offset: usize = 0;
        proof {
            assert(view.encode_result(capacity) == encode_then(
                r1,
                encode_then(r2, encode_then(r3, r4)),
            ));
            lemma_encode_bytes_len(encode_utf8(view.client_id));
            lemma_skip_skip(before, 0, 0);
            lemma_split(before, 0, 0);
        }

        let first = encode_at(self.client_id, bytes, offset, Ghost(before), Ghost(written));
        assert(first == r1);
        offset += match first {
            Ok(o) => o,
            Err(e) => return Err(e),
        };
        proof {
            written = written + spec_encode_string(view.client_id);
            assert(offset == a);
        }

        if let Some(will) = &self.will {
            let second = encode_at(will, bytes, offset, Ghost(before), Ghost(written));
            assert(second == r2);
            offset += match second {
                Ok(o) => o,
                Err(e) => return Err(e),
            };
        }
        proof {
            lemma_split(written, 0, 0);
            written = written + view.will_encoding();
            assert(offset == a + b);
        }

        if let Some(username) = self.username {
            proof {
                lemma_encode_bytes_len(encode_utf8(username@));
            }
            let third = encode_at(username, bytes, offset, Ghost(before), Ghost(written));
            assert(third == r3);
            offset += match third {
                Ok(o) => o,
                Err(e) => return Err(e),
            };
        }
        proof {
            lemma_split(written, 0, 0);
            written = written + view.username_encoding();
            assert(offset == a + b + c);
        }

        if let Some(password) = self.password {
            let fourth = encode_at(password, bytes, offset, Ghost(before), Ghost(written));
            assert(fourth == r4);
            offset += match fourth {
                Ok(o) => o,
                Err(e) => return Err(e),
            };
        }
        proof {
            lemma_split(written, 0, 0);
            written = written + view.password_encoding();
            assert(written == view.encoding());
        }

        Ok(offset)
    }
}

/// A valid will that is written and read back is the same will, whatever
/// follows it in the buffer.
pub proof fn lemma_will_round_trip(will: WillView, rest: Seq<u8>)
    requires
        will.valid(),
    ensures
        spec_decode_will(will.encoding() + rest) == Ok::<_, DecodeError>(
            Status::Complete((will.encoding().len() as usize, will)),
        ),
        will.encoding().len() == 4 + encode_utf8(will.topic).len() + will.message.len(),
{
    let e1 = spec_encode_string(will.topic);
    let e2 = spec_encode_bytes(will.message);
    lemma_concat_assoc(e1, e2, rest);
    lemma_string_round_trip(will.topic, e2 + rest);
    lemma_bytes_round_trip(will.message, rest);
    lemma_skip_concat(e1, e2 + rest);
}

/// A will that was read is valid, and it is written as the bytes it was
/// read from.
pub proof fn lemma_will_reencode(bytes: Seq<u8>)
    ensures
        spec_decode_will(bytes) matches Ok(Status::Complete((n, will))) ==> {
            &&& will.valid()
            &&& n <= bytes.len()
            &&& n <= 131074
            &&& will.encoding() == bytes.subrange(0, n as int)
        },
{
    if let Ok(Status::Complete((n, will))) = spec_decode_will(bytes) {
        lemma_string_reencode(bytes);
        let a = spec_consumed(spec_parse_string(bytes));
        lemma_bytes_reencode(bytes.skip(a));
        lemma_split(bytes, a, n - a);
    }
}

/// The first `k` bytes of a buffer decode as the whole buffer does, or ask
/// for more: see [`prefix_agrees`].
pub proof fn lemma_will_prefix(bytes: Seq<u8>, k: int)
    requires
        0 <= k <= bytes.len(),
    ensures
        prefix_agrees(spec_decode_will(bytes), spec_decode_will(bytes.subrange(0, k)), k),
{
    let part = bytes.subrange(0, k);
    let full1 = spec_parse_string(bytes);
    let a = spec_consumed(full1);
    let full2 = spec_parse_bytes(bytes.skip(a));
    let part1 = spec_parse_string(part);
    let part2 = spec_parse_bytes(part.skip(spec_consumed(part1)));
    lemma_parse_string_prefix(bytes, k);
    lemma_string_reencode(bytes);
    lemma_bytes_reencode(bytes.skip(a));
    if k >= a {
        lemma_prefix_skip(bytes, k, a);
        lemma_parse_bytes_prefix(bytes.skip(a), k - a);
    }
    lemma_then_prefix(full1, full2, part1, part2, k);
    lemma_map_prefix(
        spec_then(full1, full2),
        spec_then(part1, part2),
        |t: (Seq<char>, Seq<u8>)| WillView { topic: t.0, message: t.1 },
        k,
    );
}

impl ConnectView {
    /// The bytes of the user name and the password.
    pub open spec fn credentials_encoding(self) -> Seq<u8> {
        self.username_encoding() + self.password_encoding()
    }

    /// The bytes of the will, the user name and the password.
    pub open spec fn announced_encoding(self) -> Seq<u8> {
        self.will_encoding() + self.credentials_encoding()
    }
}

/// The payload is its client identifier and what the flags announce, and
/// its fields take 2 bytes each beside what they hold.
proof fn lemma_connect_payload_encoding(payload: ConnectView)
    ensures
        payload.encoding() == spec_encode_string(payload.client_id) + payload.announced_encoding(),
{
    lemma_concat_assoc(
        spec_encode_string(payload.client_id) + payload.will_encoding(),
        payload.username_encoding(),
        payload.password_encoding(),
    );
    lemma_concat_assoc(
        spec_encode_string(payload.client_id),
        payload.will_encoding(),
        payload.credentials_encoding(),
    );
}

/// The user name and the password of a valid payload, written and read
/// back, are the same, whatever follows them in the buffer.
proof fn lemma_credentials_round_trip(payload: ConnectView, flags: u8, rest: Seq<u8>)
    requires
        payload.valid(flags),
    ensures
        spec_decode_credentials(flags, payload.credentials_encoding() + rest) == Ok::<
            _,
            DecodeError,
        >(
            Status::Complete(
                (
                    payload.credentials_encoding().len() as usize,
                    (payload.username, payload.password),
                ),
            ),
        ),
        payload.credentials_encoding().len() <= 131074,
{
    let e3 = payload.username_encoding();
    let e4 = payload.password_encoding();
    lemma_concat_assoc(e3, e4, rest);
    lemma_skip_concat(e3, e4 + rest);
    if let Some(u) = payload.username {
        lemma_string_round_trip(u, e4 + rest);
    }
    if let Some(p) = payload.password {
        lemma_bytes_round_trip(p, rest);
    }
}

/// The will, the user name and the password of a valid payload, written
/// and read back, are the same, whatever follows them in the buffer.
proof fn lemma_announced_round_trip(payload: ConnectView, flags: u8, rest: Seq<u8>)
    requires
        payload.valid(flags),
    ensures
        spec_decode_announced(flags, payload.announced_encoding() + rest) == Ok::<_, DecodeError>(
            Status::Complete(
                (
                    payload.announced_encoding().len() as usize,
                    (payload.will, (payload.username, payload.password)),
                ),
            ),
        ),
        payload.announced_encoding().len() <= 262148,
{
    let e2 = payload.will_encoding();
    let e34 = payload.credentials_encoding();
    lemma_concat_assoc(e2, e34, rest);
    lemma_skip_concat(e2, e34 + rest);
    if let Some(w) = payload.will {
        lemma_will_round_trip(w, e34 + rest);
    }
    lemma_credentials_round_trip(payload, flags, rest);
}

/// A valid Connect payload that is written and read back, under flags that
/// announce its fields, is the same payload, whatever follows it in the
/// buffer.
pub proof fn lemma_connect_payload_round_trip(payload: ConnectView, flags: u8, rest: Seq<u8>)
    requires
        payload.valid(flags),
    ensures
        spec_decode_connect_payload(flags, payload.encoding() + rest) == Ok::<_, DecodeError>(
            Status::Complete((payload.encoding().len() as usize, payload)),
        ),
        payload.encoding().len() <= 327685,
{
    let e1 = spec_encode_string(payload.client_id);
    let e234 = payload.announced_encoding();
    lemma_connect_payload_encoding(payload);
    lemma_concat_assoc(e1, e234, rest);
    lemma_skip_concat(e1, e234 + rest);
    lemma_string_round_trip(payload.client_id, e234 + rest);
    lemma_announced_round_trip(payload, flags, rest);
}

/// A user name and a password that were read are valid, they are there
/// where the flags announce them, and they are written as the bytes they
/// were read from.
proof fn lemma_credentials_reencode(flags: u8, bytes: Seq<u8>)
    ensures
        spec_decode_credentials(flags, bytes) matches Ok(
            Status::Complete((n, (username, password))),
        ) ==> {
            let payload = ConnectView { client_id: Seq::empty(), will: None, username, password };
            &&& username matches Some(u) ==> valid_string(u)
            &&& password matches Some(p) ==> p.len() <= 65535
            &&& spec_has_username(flags) == (username is Some)
            &&& spec_has_password(flags) == (password is Some)
            &&& n <= bytes.len()
            &&& n <= 131074
            &&& payload.credentials_encoding() == bytes.subrange(0, n as int)
        },
{
    if let Ok(Status::Complete((n, (username, password)))) = spec_decode_credentials(flags, bytes) {
        let c = spec_consumed(spec_optional(spec_has_username(flags), spec_parse_string(bytes)));
        lemma_string_reencode(bytes);
        lemma_bytes_reencode(bytes.skip(c));
        lemma_split(bytes, c, n - c);
    }
}

/// A will, a user name and a password that were read are valid, they are
/// there where the flags announce them, and they are written as the bytes
/// they were read from.
proof fn lemma_announced_reencode(flags: u8, bytes: Seq<u8>)
    ensures
        spec_decode_announced(flags, bytes) matches Ok(
            Status::Complete((n, (will, (username, password)))),
        ) ==> {
            let payload = ConnectView { client_id: Seq::empty(), will, username, password };
            &&& will matches Some(w) ==> w.valid()
            &&& username matches Some(u) ==> valid_string(u)
            &&& password matches Some(p) ==> p.len() <= 65535
            &&& spec_has_will(flags) == (will is Some)
            &&& spec_has_username(flags) == (username is Some)
            &&& spec_has_password(flags) == (password is Some)
            &&& n <= bytes.len()
            &&& n <= 262148
            &&& payload.announced_encoding() == bytes.subrange(0, n as int)
        },
{
    if let Ok(Status::Complete((n, (will, (username, password))))) = spec_decode_announced(
        flags,
        bytes,
    ) {
        let b = spec_consumed(spec_optional(spec_has_will(flags), spec_decode_will(bytes)));
        lemma_will_reencode(bytes);
        lemma_credentials_reencode(flags, bytes.skip(b));
        lemma_split(bytes, b, n - b);
    }
}

/// A Connect payload that was read is valid under the flags it was read
/// under, and it is written as the bytes it was read from.
pub proof fn lemma_connect_payload_reencode(flags: u8, bytes: Seq<u8>)
    ensures
        spec_decode_connect_payload(flags, bytes) matches Ok(Status::Complete((n, payload))) ==> {
            &&& payload.valid(flags)
            &&& n <= bytes.len()
            &&& n <= 327685
            &&& payload.encoding() == bytes.subrange(0, n as int)
        },
{
    if let Ok(Status::Complete((n, payload))) = spec_decode_connect_payload(flags, bytes) {
        let a = spec_consumed(spec_parse_string(bytes));
        lemma_string_reencode(bytes);
        lemma_announced_reencode(flags, bytes.skip(a));
        lemma_split(bytes, a, n - a);
        lemma_connect_payload_encoding(payload);
        let shell = ConnectView { client_id: Seq::empty(), ..payload };
        assert(shell.announced_encoding() == payload.announced_encoding());
    }
}

/// The first `k` bytes of a buffer decode as the whole buffer does, or ask
/// for more: see [`prefix_agrees`].
proof fn lemma_credentials_prefix(flags: u8, bytes: Seq<u8>, k: int)
    requires
        0 <= k <= bytes.len(),
    ensures
        prefix_agrees(
            spec_decode_credentials(flags, bytes),
            spec_decode_credentials(flags, bytes.subrange(0, k)),
            k,
        ),
{
    let part = bytes.subrange(0, k);
    let full1 = spec_optional(spec_has_username(flags), spec_parse_string(bytes));
    let c = spec_consumed(full1);
    let full2 = spec_optional(spec_has_password(flags), spec_parse_bytes(bytes.skip(c)));
    let part1 = spec_optional(spec_has_username(flags), spec_parse_string(part));
    let part2 = spec_optional(
        spec_has_password(flags),
        spec_parse_bytes(part.skip(spec_consumed(part1))),
    );
    lemma_parse_string_prefix(bytes, k);
    lemma_optional_prefix(
        spec_has_username(flags),
        spec_parse_string(bytes),
        spec_parse_string(part),
        k,
    );
    lemma_string_reencode(bytes);
    lemma_bytes_reencode(bytes.skip(c));
    if k >= c {
        lemma_prefix_skip(bytes, k, c);
        lemma_parse_bytes_prefix(bytes.skip(c), k - c);
        lemma_optional_prefix(
            spec_has_password(flags),
            spec_parse_bytes(bytes.skip(c)),
            spec_parse_bytes(part.skip(c)),
            k - c,
        );
    }
    lemma_then_prefix(full1, full2, part1, part2, k);
}

/// The first `k` bytes of a buffer decode as the whole buffer does, or ask
/// for more: see [`prefix_agrees`].
proof fn lemma_announced_prefix(flags: u8, bytes: Seq<u8>, k: int)
    requires
        0 <= k <= bytes.len(),
    ensures
        prefix_agrees(
            spec_decode_announced(flags, bytes),
            spec_decode_announced(flags, bytes.subrange(0, k)),
            k,
        ),
{
    let part = bytes.subrange(0, k);
    let full1 = spec_optional(spec_has_will(flags), spec_decode_will(bytes));
    let b = spec_consumed(full1);
    let full2 = spec_decode_credentials(flags, bytes.skip(b));
    let part1 = spec_optional(spec_has_will(flags), spec_decode_will(part));
    let part2 = spec_decode_credentials(flags, part.skip(spec_consumed(part1)));
    lemma_will_prefix(bytes, k);
    lemma_optional_prefix(spec_has_will(flags), spec_decode_will(bytes), spec_decode_will(part), k);
    lemma_will_reencode(bytes);
    lemma_credentials_reencode(flags, bytes.skip(b));
    if k >= b {
        lemma_prefix_skip(bytes, k, b);
        lemma_credentials_prefix(flags, bytes.skip(b), k - b);
    }
    lemma_then_prefix(full1, full2, part1, part2, k);
}

/// The first `k` bytes of a buffer decode as the whole buffer does, or ask
/// for more: see [`prefix_agrees`].
pub proof fn lemma_connect_payload_prefix(flags: u8, bytes: Seq<u8>, k: int)
    requires
        0 <= k <= bytes.len(),
    ensures
        prefix_agrees(
            spec_decode_connect_payload(flags, bytes),
            spec_decode_connect_payload(flags, bytes.subrange(0, k)),
            k,
        ),
{
    let part = bytes.subrange(0, k);
    let full1 = spec_parse_string(bytes);
    let a = spec_consumed(full1);
    let full2 = spec_decode_announced(flags, bytes.skip(a));
    let part1 = spec_parse_string(part);
    let part2 = spec_decode_announced(flags, part.skip(spec_consumed(part1)));
    lemma_parse_string_prefix(bytes, k);
    lemma_string_reencode(bytes);
    lemma_announced_reencode(flags, bytes.skip(a));
    if k >= a {
        lemma_prefix_skip(bytes, k, a);
        lemma_announced_prefix(flags, bytes.skip(a), k - a);
    }
    lemma_then_prefix(full1, full2, part1, part2, k);
    lemma_map_prefix(
        spec_then(full1, full2),
        spec_then(part1, part2),
        |fields: ConnectFields| spec_connect_payload(fields),
        k,
    );
}

/// A valid will is written into every buffer that has room for it.
pub proof fn lemma_will_encodes(will: WillView, capacity: usize)
    requires
        will.valid(),
    ensures
        will.encode_result(capacity) == encode_fixed(will.encoding().len(), capacity),
        will.encoding().len() == 4 + encode_utf8(will.topic).len() + will.message.len(),
{
    lemma_string_encodes(will.topic, capacity);
    lemma_encode_bytes_len(will.message);
}

/// A valid Connect payload is written into every buffer that has room for
/// it.
pub proof fn lemma_connect_payload_encodes(payload: ConnectView, flags: u8, capacity: usize)
    requires
        payload.valid(flags),
    ensures
        payload.encode_result(capacity) == encode_fixed(payload.encoding().len(), capacity),
{
    let a = spec_encode_string(payload.client_id).len();
    let b = payload.will_encoding().len();
    let c = payload.username_encoding().len();
    let d = payload.password_encoding().len();
    lemma_string_encodes(payload.client_id, capacity);
    if let Some(w) = payload.will {
        lemma_will_encodes(w, space_left(capacity, a));
    }
    if let Some(u) = payload.username {
        lemma_string_encodes(u, space_left(capacity, a + b));
    }
    if let Some(p) = payload.password {
        lemma_encode_bytes_len(p);
    }
    assert(payload.encoding().len() == a + b + c + d);
}

} // verus!
