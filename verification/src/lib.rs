//! A codec for MQTT 3.1.1 control packets.
//!
//! The crate turns a byte buffer into a [`packet::Packet`] and a packet back
//! into bytes. It performs no I/O and keeps no state between calls: a buffer
//! that does not yet hold a whole packet decodes to
//! [`status::Status::Partial`], and the caller tries again once more bytes
//! have arrived.
//!
//! Every function carries a contract that is stated over the wire format as a
//! mathematical object: a `spec_*` function says which value a byte sequence
//! decodes to, an `encoding` function says which bytes a value is written as,
//! and the proof functions in [`packet`] relate the two.

pub mod status;
pub mod error;
pub mod qos;

pub mod bits;
pub mod seqs;
pub mod codec;

pub mod packet;
pub mod fixed_header;
pub mod variable_header;
pub mod payload;
