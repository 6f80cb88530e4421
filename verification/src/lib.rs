//! A verified MQTT 3.1.1 client session core.
//!
//! The crate is organised bottom-up:
//! - [`wire`] holds the primitive wire encodings: big-endian 16-bit
//!   integers, the variable-length remaining-length field, and UTF-8
//!   validation of string fields.
//! - [`codec`] encodes and decodes whole control packets, with proofs
//!   that decoding inverts encoding and that a truncated buffer is
//!   reported as incomplete rather than misread.
//! - [`qos`] and [`error`] hold the delivery-guarantee levels and the
//!   structured error type that every public operation returns.
//! - [`tracker`] tracks outbound QoS 1/2 publishes awaiting their
//!   acknowledgment handshake, with a proof that no two in-flight
//!   entries ever share a packet identifier.
//! - [`session`] is the connection state machine and client facade:
//!   connect/publish/subscribe/disconnect, inbound packet handling,
//!   keepalive supervision and retransmission.
//!
//! All I/O (sockets, clocks) stays outside the crate: callers feed
//! received bytes and the current time in, and write the returned
//! bytes out.

pub mod codec;
pub mod error;
pub mod qos;
pub mod session;
pub mod tracker;
pub mod wire;
