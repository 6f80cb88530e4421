//! The wire codec: encodes and decodes MQTT 3.1.1 control packets.
//!
//! `spec_encode` and `spec_decode` are the mathematical statement of
//! the packet format; `encode` and `decode` are the executable codec,
//! each proved to match its specification. Decoding is resumable: a
//! buffer that ends before the packet does is reported as `Incomplete`
//! without consuming anything, so a caller can append more bytes and
//! retry.

use crate::qos::QoS;
use crate::wire::{
    be16_bytes, be16_value, decode_remlen, encode_remlen, is_utf8, is_valid_utf8,
    lemma_be16_round_trip, lemma_remlen_prefix_incomplete, lemma_remlen_round_trip, push_be16,
    read_be16, remlen_bytes, remlen_width, spec_decode_remlen, RemLen, RemLenS, MAX_REMAINING_LEN,
};
use vstd::prelude::*;
use vstd::slice::{slice_subrange, slice_to_vec};

verus! {

/// An MQTT control packet, as this client core sends and receives them.
///
/// `packet_id` of a `Publish` is 0 exactly when its QoS is
/// `AtMostOnce`, which sends no identifier on the wire.
#[derive(Debug, Clone, PartialEq, Eq)]
pub enum Packet {
    Connect { client_id: Vec<u8>, keepalive: u16, clean_session: bool },
    Connack { session_present: bool, return_code: u8 },
    Publish { dup: bool, qos: QoS, retain: bool, topic: Vec<u8>, packet_id: u16, payload: Vec<u8> },
    Puback { packet_id: u16 },
    Pubrec { packet_id: u16 },
    Pubrel { packet_id: u16 },
    Pubcomp { packet_id: u16 },
    Subscribe { packet_id: u16, filter: Vec<u8>, qos: QoS },
    Suback { packet_id: u16, return_code: u8 },
    Pingreq,
    Pingresp,
    Disconnect,
}

/// The mathematical model of a control packet: byte fields as sequences.
#[verifier::ext_equal]
pub enum PacketS {
    Connect { client_id: Seq<u8>, keepalive: u16, clean_session: bool },
    Connack { session_present: bool, return_code: u8 },
    Publish { dup: bool, qos: QoS, retain: bool, topic: Seq<u8>, packet_id: u16, payload: Seq<u8> },
    Puback { packet_id: u16 },
    Pubrec { packet_id: u16 },
    Pubrel { packet_id: u16 },
    Pubcomp { packet_id: u16 },
    Subscribe { packet_id: u16, filter: Seq<u8>, qos: QoS },
    Suback { packet_id: u16, return_code: u8 },
    Pingreq,
    Pingresp,
    Disconnect,
}

impl View for Packet {
    type V = PacketS;

    open spec fn view(&self) -> PacketS {
        match *self {
            Packet::Connect { client_id, keepalive, clean_session } => PacketS::Connect {
                client_id: client_id@,
                keepalive,
                clean_session,
            },
            Packet::Connack { session_present, return_code } => PacketS::Connack {
                session_present,
                return_code,
            },
            Packet::Publish { dup, qos, retain, topic, packet_id, payload } => PacketS::Publish {
                dup,
                qos,
                retain,
                topic: topic@,
                packet_id,
                payload: payload@,
            },
            Packet::Puback { packet_id } => PacketS::Puback { packet_id },
            Packet::Pubrec { packet_id } => PacketS::Pubrec { packet_id },
            Packet::Pubrel { packet_id } => PacketS::Pubrel { packet_id },
            Packet::Pubcomp { packet_id } => PacketS::Pubcomp { packet_id },
            Packet::Subscribe { packet_id, filter, qos } => PacketS::Subscribe {
                packet_id,
                filter: filter@,
                qos,
            },
            Packet::Suback { packet_id, return_code } => PacketS::Suback {
                packet_id,
                return_code,
            },
            Packet::Pingreq => PacketS::Pingreq,
            Packet::Pingresp => PacketS::Pingresp,
            Packet::Disconnect => PacketS::Disconnect,
        }
    }
}

impl PacketS {
    /// Well-formedness: every field within the bounds its wire encoding
    /// can carry, string fields valid UTF-8, packet identifiers nonzero
    /// where the handshake needs them.
    pub open spec fn wf(self) -> bool {
        match self {
            PacketS::Connect { client_id, .. } => is_valid_utf8(client_id) && client_id.len()
                <= 0xFFFF,
            PacketS::Connack { .. } => true,
            PacketS::Publish { qos, topic, packet_id, payload, .. } => {
                &&& is_valid_utf8(topic)
                &&& 1 <= topic.len() <= 0xFFFF
                &&& (qos is AtMostOnce <==> packet_id == 0)
                &&& 2 + topic.len() + (if qos is AtMostOnce { 0int } else { 2int }) + payload.len()
                    <= MAX_REMAINING_LEN
            },
            PacketS::Puback { packet_id } => packet_id != 0,
            PacketS::Pubrec { packet_id } => packet_id != 0,
            PacketS::Pubrel { packet_id } => packet_id != 0,
            PacketS::Pubcomp { packet_id } => packet_id != 0,
            PacketS::Subscribe { packet_id, filter, .. } => packet_id != 0 && is_valid_utf8(filter)
                && 1 <= filter.len() <= 0xFFFF,
            PacketS::Suback { packet_id, .. } => packet_id != 0,
            PacketS::Pingreq => true,
            PacketS::Pingresp => true,
            PacketS::Disconnect => true,
        }
    }

    /// The first byte of the fixed header: packet type in the high
    /// nibble, flags in the low one.
    pub open spec fn header_byte(self) -> u8 {
        match self {
            PacketS::Connect { .. } => 0x10,
            PacketS::Connack { .. } => 0x20,
            PacketS::Publish { dup, qos, retain, .. } => (0x30 + (if dup {
                8int
            } else {
                0int
            }) + 2 * qos.spec_level() + (if retain {
                1int
            } else {
                0int
            })) as u8,
            PacketS::Puback { .. } => 0x40,
            PacketS::Pubrec { .. } => 0x50,
            PacketS::Pubrel { .. } => 0x62,
            PacketS::Pubcomp { .. } => 0x70,
            PacketS::Subscribe { .. } => 0x82,
            PacketS::Suback { .. } => 0x90,
            PacketS::Pingreq => 0xC0,
            PacketS::Pingresp => 0xD0,
            PacketS::Disconnect => 0xE0,
        }
    }

    /// Variable header and payload of the packet: everything after the
    /// fixed header.
    pub open spec fn body_bytes(self) -> Seq<u8> {
        match self {
            PacketS::Connect { client_id, keepalive, clean_session } => seq![
                0u8,
                4u8,
                0x4Du8,
                0x51u8,
                0x54u8,
                0x54u8,
                4u8,
                if clean_session {
                    2u8
                } else {
                    0u8
                },
            ] + be16_bytes(keepalive) + be16_bytes(client_id.len() as u16) + client_id,
            PacketS::Connack { session_present, return_code } => seq![
                if session_present {
                    1u8
                } else {
                    0u8
                },
                return_code,
            ],
            PacketS::Publish { qos, topic, packet_id, payload, .. } => be16_bytes(
                topic.len() as u16,
            ) + topic + (if qos is AtMostOnce {
                Seq::<u8>::empty()
            } else {
                be16_bytes(packet_id)
            }) + payload,
            PacketS::Puback { packet_id } => be16_bytes(packet_id),
            PacketS::Pubrec { packet_id } => be16_bytes(packet_id),
            PacketS::Pubrel { packet_id } => be16_bytes(packet_id),
            PacketS::Pubcomp { packet_id } => be16_bytes(packet_id),
            PacketS::Subscribe { packet_id, filter, qos } => be16_bytes(packet_id) + be16_bytes(
                filter.len() as u16,
            ) + filter + seq![qos.spec_level() as u8],
            PacketS::Suback { packet_id, return_code } => be16_bytes(packet_id) + seq![return_code],
            PacketS::Pingreq => Seq::empty(),
            PacketS::Pingresp => Seq::empty(),
            PacketS::Disconnect => Seq::empty(),
        }
    }
}

/// A well-formed packet's body fits the remaining-length field.
pub proof fn lemma_wf_body_len(p: PacketS)
    requires
        p.wf(),
    ensures
        p.body_bytes().len() <= MAX_REMAINING_LEN,
{
}

/// The full wire form of a packet: fixed header byte, remaining-length
/// field, then the body.
pub open spec fn spec_encode(p: PacketS) -> Seq<u8> {
    seq![p.header_byte()] + remlen_bytes(p.body_bytes().len() as int) + p.body_bytes()
}

/// Appends every byte of `s` to `out`.
pub(crate) fn push_bytes(out: &mut Vec<u8>, s: &[u8])
    ensures
        final(out)@ == old(out)@ + s@,
{
    let ghost base = out@;
    let n: usize = s.len();
    let mut i: usize = 0;
    proof {
        assert(base + s@.take(0) =~= base);
    }
    while i < n
        invariant
            i <= n,
            n == s@.len(),
            out@ == base + s@.take(i as int),
        decreases n - i,
    {
        out.push(s[i]);
        proof {
            assert(base + s@.take(i as int) + seq![s@[i as int]] =~= base + s@.take(i as int + 1));
        }
        i = i + 1;
    }
    proof {
        assert(base + s@.take(n as int) =~= base + s@);
    }
}

/// The fixed-header byte of `p`.
fn header_byte_of(p: &Packet) -> (r: u8)
    ensures
        r == p@.header_byte(),
{
    match p {
        Packet::Connect { .. } => 0x10,
        Packet::Connack { .. } => 0x20,
        Packet::Publish { dup, qos, retain, .. } => {
            let mut h: u8 = 0x30;
            if *dup {
                h = h + 8;
            }
            h = h + 2 * qos.level_byte();
            if *retain {
                h = h + 1;
            }
            h
        },
        Packet::Puback { .. } => 0x40,
        Packet::Pubrec { .. } => 0x50,
        Packet::Pubrel { .. } => 0x62,
        Packet::Pubcomp { .. } => 0x70,
        Packet::Subscribe { .. } => 0x82,
        Packet::Suback { .. } => 0x90,
        Packet::Pingreq => 0xC0,
        Packet::Pingresp => 0xD0,
        Packet::Disconnect => 0xE0,
    }
}

/// Builds the body (variable header and payload) of `p`.
fn encode_body(p: &Packet) -> (r: Vec<u8>)
    requires
        p@.wf(),
    ensures
        r@ == p@.body_bytes(),
{
    let mut b: Vec<u8> = Vec::new();
    match p {
        Packet::Connect { client_id, keepalive, clean_session } => {
            b.push(0);
            b.push(4);
            b.push(0x4D);
            b.push(0x51);
            b.push(0x54);
            b.push(0x54);
            b.push(4);
            b.push(if *clean_session { 2 } else { 0 });
            push_be16(&mut b, *keepalive);
            push_be16(&mut b, client_id.len() as u16);
            push_bytes(&mut b, client_id.as_slice());
        },
        Packet::Connack { session_present, return_code } => {
            b.push(if *session_present { 1 } else { 0 });
            b.push(*return_code);
        },
        Packet::Publish { qos, topic, packet_id, payload, .. } => {
            push_be16(&mut b, topic.len() as u16);
            push_bytes(&mut b, topic.as_slice());
            if !matches!(qos, QoS::AtMostOnce) {
                push_be16(&mut b, *packet_id);
            }
            push_bytes(&mut b, payload.as_slice());
        },
        Packet::Puback { packet_id } => {
            push_be16(&mut b, *packet_id);
        },
        Packet::Pubrec { packet_id } => {
            push_be16(&mut b, *packet_id);
        },
        Packet::Pubrel { packet_id } => {
            push_be16(&mut b, *packet_id);
        },
        Packet::Pubcomp { packet_id } => {
            push_be16(&mut b, *packet_id);
        },
        Packet::Subscribe { packet_id, filter, qos } => {
            push_be16(&mut b, *packet_id);
            push_be16(&mut b, filter.len() as u16);
            push_bytes(&mut b, filter.as_slice());
            b.push(qos.level_byte());
        },
        Packet::Suback { packet_id, return_code } => {
            push_be16(&mut b, *packet_id);
            b.push(*return_code);
        },
        Packet::Pingreq => {},
        Packet::Pingresp => {},
        Packet::Disconnect => {},
    }
    proof {
        assert(b@ =~= p@.body_bytes());
    }
    b
}

/// Encodes `p` into its wire form.
pub fn encode(p: &Packet) -> (r: Vec<u8>)
    requires
        p@.wf(),
    ensures
        r@ == spec_encode(p@),
{
    let mut body = encode_body(p);
    proof {
        lemma_wf_body_len(p@);
    }
    let mut out: Vec<u8> = Vec::new();
    out.push(header_byte_of(p));
    encode_remlen(&mut out, body.len() as u32);
    out.append(&mut body);
    proof {
        assert(out@ =~= spec_encode(p@));
    }
    out
}

// ---------------------------------------------------------------------
// Decoding
// ---------------------------------------------------------------------

/// Why a byte buffer was rejected as malformed.
#[derive(Clone, Copy, Debug, PartialEq, Eq, Structural)]
pub enum MalformedKind {
    /// Unknown packet type or illegal fixed-header flags.
    InvalidControlByte,
    /// A fifth continuation byte in the remaining-length field.
    RemainingLengthTooLarge,
    /// The body is shorter or longer than its fields declare.
    LengthMismatch,
    /// A CONNECT whose protocol name or level is not MQTT 3.1.1.
    InvalidProtocolHeader,
    /// A CONNECT asking for features this core does not speak.
    UnsupportedFeature,
    /// A CONNACK with acknowledge flags other than 0 or 1.
    InvalidAckFlags,
    /// An empty topic or topic filter.
    InvalidTopic,
    /// A string field that is not well-formed UTF-8.
    InvalidUtf8,
    /// A zero packet identifier where the handshake needs one.
    InvalidPacketId,
    /// A requested QoS above 2.
    InvalidQos,
}

/// The mathematical outcome of decoding a byte buffer.
#[verifier::ext_equal]
pub enum DecodeS {
    /// A full packet, and how many bytes of the buffer it took.
    Decoded { packet: PacketS, consumed: int },
    /// The buffer ends before the packet does; nothing is consumed.
    Incomplete,
    /// The buffer cannot be a packet.
    Malformed { kind: MalformedKind },
}

/// Outcome of decoding a byte buffer.
#[derive(Debug, PartialEq, Eq)]
pub enum DecodeResult {
    /// A full packet, and how many bytes of the buffer it took.
    Decoded(Packet, usize),
    /// The buffer ends before the packet does; nothing is consumed.
    Incomplete,
    /// The buffer cannot be a packet.
    Malformed(MalformedKind),
}

impl View for DecodeResult {
    type V = DecodeS;

    open spec fn view(&self) -> DecodeS {
        match *self {
            DecodeResult::Decoded(p, c) => DecodeS::Decoded { packet: p@, consumed: c as int },
            DecodeResult::Incomplete => DecodeS::Incomplete,
            DecodeResult::Malformed(k) => DecodeS::Malformed { kind: k },
        }
    }
}

/// Whether `h` is a legal fixed-header byte: a packet type this core
/// speaks, with the flags MQTT 3.1.1 fixes for it (PUBLISH flags are
/// free except QoS 3).
pub open spec fn valid_header_byte(h: u8) -> bool {
    let t = h / 16;
    let f = h % 16;
    if t == 1 || t == 2 || t == 4 || t == 5 || t == 7 || t == 9 || t == 12 || t == 13 || t == 14 {
        f == 0
    } else if t == 3 {
        (h / 2) % 4 != 3
    } else if t == 6 || t == 8 {
        f == 2
    } else {
        false
    }
}

/// The QoS at numeric level `l`, reading anything but 1 and 2 as 0.
pub open spec fn qos_at_level(l: int) -> QoS {
    if l == 1 {
        QoS::AtLeastOnce
    } else if l == 2 {
        QoS::ExactlyOnce
    } else {
        QoS::AtMostOnce
    }
}

/// Reads a CONNECT body.
pub open spec fn spec_decode_connect(body: Seq<u8>, consumed: int) -> DecodeS {
    if body.len() < 12 {
        DecodeS::Malformed { kind: MalformedKind::LengthMismatch }
    } else if !(body[0] == 0 && body[1] == 4 && body[2] == 0x4D && body[3] == 0x51 && body[4]
        == 0x54 && body[5] == 0x54 && body[6] == 4) {
        DecodeS::Malformed { kind: MalformedKind::InvalidProtocolHeader }
    } else if body[7] != 0 && body[7] != 2 {
        DecodeS::Malformed { kind: MalformedKind::UnsupportedFeature }
    } else {
        let idlen = be16_value(body[10], body[11]);
        if body.len() != 12 + idlen {
            DecodeS::Malformed { kind: MalformedKind::LengthMismatch }
        } else if !is_valid_utf8(body.skip(12)) {
            DecodeS::Malformed { kind: MalformedKind::InvalidUtf8 }
        } else {
            DecodeS::Decoded {
                packet: PacketS::Connect {
                    client_id: body.skip(12),
                    keepalive: be16_value(body[8], body[9]) as u16,
                    clean_session: body[7] == 2,
                },
                consumed,
            }
        }
    }
}

/// Reads a CONNACK body.
pub open spec fn spec_decode_connack(body: Seq<u8>, consumed: int) -> DecodeS {
    if body.len() != 2 {
        DecodeS::Malformed { kind: MalformedKind::LengthMismatch }
    } else if body[0] > 1 {
        DecodeS::Malformed { kind: MalformedKind::InvalidAckFlags }
    } else {
        DecodeS::Decoded {
            packet: PacketS::Connack { session_present: body[0] == 1, return_code: body[1] },
            consumed,
        }
    }
}

/// Reads a PUBLISH body, with the flags of its fixed-header byte `h`.
pub open spec fn spec_decode_publish(h: u8, body: Seq<u8>, consumed: int) -> DecodeS {
    let qos_n = (h / 2) % 4;
    let idw: int = if qos_n == 0 {
        0
    } else {
        2
    };
    if body.len() < 2 {
        DecodeS::Malformed { kind: MalformedKind::LengthMismatch }
    } else {
        let tl = be16_value(body[0], body[1]);
        if tl == 0 {
            DecodeS::Malformed { kind: MalformedKind::InvalidTopic }
        } else if body.len() < 2 + tl + idw {
            DecodeS::Malformed { kind: MalformedKind::LengthMismatch }
        } else if !is_valid_utf8(body.subrange(2, 2 + tl)) {
            DecodeS::Malformed { kind: MalformedKind::InvalidUtf8 }
        } else {
            let pid: int = if qos_n == 0 {
                0
            } else {
                be16_value(body[2 + tl], body[3 + tl])
            };
            if qos_n != 0 && pid == 0 {
                DecodeS::Malformed { kind: MalformedKind::InvalidPacketId }
            } else {
                DecodeS::Decoded {
                    packet: PacketS::Publish {
                        dup: (h / 8) % 2 == 1,
                        qos: qos_at_level(qos_n as int),
                        retain: h % 2 == 1,
                        topic: body.subrange(2, 2 + tl),
                        packet_id: pid as u16,
                        payload: body.skip(2 + tl + idw),
                    },
                    consumed,
                }
            }
        }
    }
}

/// Reads the two-byte packet-identifier body shared by PUBACK, PUBREC,
/// PUBREL and PUBCOMP; `t` is the packet type.
pub open spec fn spec_decode_ack(t: u8, body: Seq<u8>, consumed: int) -> DecodeS {
    if body.len() != 2 {
        DecodeS::Malformed { kind: MalformedKind::LengthMismatch }
    } else {
        let id = be16_value(body[0], body[1]);
        if id == 0 {
            DecodeS::Malformed { kind: MalformedKind::InvalidPacketId }
        } else {
            let packet = if t == 4 {
                PacketS::Puback { packet_id: id as u16 }
            } else if t == 5 {
                PacketS::Pubrec { packet_id: id as u16 }
            } else if t == 6 {
                PacketS::Pubrel { packet_id: id as u16 }
            } else {
                PacketS::Pubcomp { packet_id: id as u16 }
            };
            DecodeS::Decoded { packet, consumed }
        }
    }
}

/// Reads a SUBSCRIBE body carrying one topic filter.
pub open spec fn spec_decode_subscribe(body: Seq<u8>, consumed: int) -> DecodeS {
    if body.len() < 4 {
        DecodeS::Malformed { kind: MalformedKind::LengthMismatch }
    } else {
        let id = be16_value(body[0], body[1]);
        let fl = be16_value(body[2], body[3]);
        if id == 0 {
            DecodeS::Malformed { kind: MalformedKind::InvalidPacketId }
        } else if fl == 0 {
            DecodeS::Malformed { kind: MalformedKind::InvalidTopic }
        } else if body.len() != 5 + fl {
            DecodeS::Malformed { kind: MalformedKind::LengthMismatch }
        } else if !is_valid_utf8(body.subrange(4, 4 + fl)) {
            DecodeS::Malformed { kind: MalformedKind::InvalidUtf8 }
        } else if body[4 + fl] > 2 {
            DecodeS::Malformed { kind: MalformedKind::InvalidQos }
        } else {
            DecodeS::Decoded {
                packet: PacketS::Subscribe {
                    packet_id: id as u16,
                    filter: body.subrange(4, 4 + fl),
                    qos: qos_at_level(body[4 + fl] as int),
                },
                consumed,
            }
        }
    }
}

/// Reads a SUBACK body carrying one return code.
pub open spec fn spec_decode_suback(body: Seq<u8>, consumed: int) -> DecodeS {
    if body.len() != 3 {
        DecodeS::Malformed { kind: MalformedKind::LengthMismatch }
    } else {
        let id = be16_value(body[0], body[1]);
        if id == 0 {
            DecodeS::Malformed { kind: MalformedKind::InvalidPacketId }
        } else {
            DecodeS::Decoded {
                packet: PacketS::Suback { packet_id: id as u16, return_code: body[2] },
                consumed,
            }
        }
    }
}

/// Reads one of the bodiless packets (PINGREQ, PINGRESP, DISCONNECT).
pub open spec fn spec_decode_empty(t: u8, body: Seq<u8>, consumed: int) -> DecodeS {
    if body.len() != 0 {
        DecodeS::Malformed { kind: MalformedKind::LengthMismatch }
    } else {
        let packet = if t == 12 {
            PacketS::Pingreq
        } else if t == 13 {
            PacketS::Pingresp
        } else {
            PacketS::Disconnect
        };
        DecodeS::Decoded { packet, consumed }
    }
}

/// Reads the body of a packet whose fixed-header byte is `h`.
pub open spec fn spec_decode_body(h: u8, body: Seq<u8>, consumed: int) -> DecodeS {
    let t = h / 16;
    if t == 1 {
        spec_decode_connect(body, consumed)
    } else if t == 2 {
        spec_decode_connack(body, consumed)
    } else if t == 3 {
        spec_decode_publish(h, body, consumed)
    } else if t == 4 || t == 5 || t == 6 || t == 7 {
        spec_decode_ack(t, body, consumed)
    } else if t == 8 {
        spec_decode_subscribe(body, consumed)
    } else if t == 9 {
        spec_decode_suback(body, consumed)
    } else {
        spec_decode_empty(t, body, consumed)
    }
}

/// Reads one packet from the front of `b`: the statement decoding is
/// proved against.
pub open spec fn spec_decode(b: Seq<u8>) -> DecodeS {
    if b.len() == 0 {
        DecodeS::Incomplete
    } else if !valid_header_byte(b[0]) {
        DecodeS::Malformed { kind: MalformedKind::InvalidControlByte }
    } else {
        match spec_decode_remlen(b.skip(1)) {
            RemLenS::Incomplete => DecodeS::Incomplete,
            RemLenS::Overflow => DecodeS::Malformed {
                kind: MalformedKind::RemainingLengthTooLarge,
            },
            RemLenS::Value { n, w } => {
                if b.len() < 1 + w + n {
                    DecodeS::Incomplete
                } else {
                    spec_decode_body(b[0], b.subrange(1 + w, 1 + w + n), 1 + w + n)
                }
            },
        }
    }
}

/// The fixed-header byte of a well-formed packet is legal, its type
/// nibble names the packet's type, and for PUBLISH its flag bits read
/// back as the dup, QoS and retain fields they were built from.
proof fn lemma_header_byte_fields(p: PacketS)
    requires
        p.wf(),
    ensures
        valid_header_byte(p.header_byte()),
        p.header_byte() / 16 == match p {
            PacketS::Connect { .. } => 1int,
            PacketS::Connack { .. } => 2,
            PacketS::Publish { .. } => 3,
            PacketS::Puback { .. } => 4,
            PacketS::Pubrec { .. } => 5,
            PacketS::Pubrel { .. } => 6,
            PacketS::Pubcomp { .. } => 7,
            PacketS::Subscribe { .. } => 8,
            PacketS::Suback { .. } => 9,
            PacketS::Pingreq => 12,
            PacketS::Pingresp => 13,
            PacketS::Disconnect => 14,
        },
        p matches PacketS::Publish { dup, qos, retain, .. } ==> {
            let h = p.header_byte();
            &&& ((h / 8) % 2 == 1) == dup
            &&& (h / 2) % 4 == qos.spec_level()
            &&& (h % 2 == 1) == retain
        },
{
    match p {
        PacketS::Publish { dup, qos, retain, .. } => {
            let d: int = if dup {
                1
            } else {
                0
            };
            let r: int = if retain {
                1
            } else {
                0
            };
            let q = qos.spec_level();
            let h = p.header_byte();
            assert(h == 48 + 8 * d + 2 * q + r);
            assert(h / 16 == 3);
            assert((h / 8) % 2 == d);
            assert((h / 2) % 4 == q);
            assert(h % 2 == r);
        },
        _ => {},
    }
}

/// Decoding the body written for a well-formed packet gives the packet
/// back.
proof fn lemma_decode_body_inverts(p: PacketS, consumed: int)
    requires
        p.wf(),
    ensures
        spec_decode_body(p.header_byte(), p.body_bytes(), consumed) == (DecodeS::Decoded {
            packet: p,
            consumed,
        }),
{
    let h = p.header_byte();
    let body = p.body_bytes();
    lemma_header_byte_fields(p);
    match p {
        PacketS::Connect { client_id, keepalive, clean_session } => {
            lemma_be16_round_trip(keepalive);
            lemma_be16_round_trip(client_id.len() as u16);
            assert(body.len() == 12 + client_id.len());
            assert(be16_value(body[8], body[9]) == keepalive);
            assert(be16_value(body[10], body[11]) == client_id.len());
            assert(body.skip(12) =~= client_id);
        },
        PacketS::Connack { .. } => {},
        PacketS::Publish { dup, qos, retain, topic, packet_id, payload } => {
            let tl = topic.len() as int;
            let qos_n = (h / 2) % 4;
            let idw: int = if qos_n == 0 {
                0
            } else {
                2
            };
            lemma_be16_round_trip(topic.len() as u16);
            assert(be16_value(body[0], body[1]) == tl);
            assert(body.len() == 2 + tl + idw + payload.len());
            assert(body.subrange(2, 2 + tl) =~= topic);
            if qos_n != 0 {
                lemma_be16_round_trip(packet_id);
                assert(body[2 + tl] == be16_bytes(packet_id)[0]);
                assert(body[3 + tl] == be16_bytes(packet_id)[1]);
                assert(be16_value(body[2 + tl], body[3 + tl]) == packet_id);
            }
            assert(body.skip(2 + tl + idw) =~= payload);
            assert(qos_at_level(qos_n as int) == qos);
        },
        PacketS::Puback { packet_id } => {
            lemma_be16_round_trip(packet_id);
        },
        PacketS::Pubrec { packet_id } => {
            lemma_be16_round_trip(packet_id);
        },
        PacketS::Pubrel { packet_id } => {
            lemma_be16_round_trip(packet_id);
        },
        PacketS::Pubcomp { packet_id } => {
            lemma_be16_round_trip(packet_id);
        },
        PacketS::Subscribe { packet_id, filter, qos } => {
            let fl = filter.len() as int;
            lemma_be16_round_trip(packet_id);
            lemma_be16_round_trip(filter.len() as u16);
            assert(be16_value(body[0], body[1]) == packet_id);
            assert(be16_value(body[2], body[3]) == fl);
            assert(body.len() == 5 + fl);
            assert(body.subrange(4, 4 + fl) =~= filter);
            assert(body[4 + fl] == qos.spec_level() as u8);
            assert(qos_at_level(body[4 + fl] as int) == qos);
        },
        PacketS::Suback { packet_id, .. } => {
            lemma_be16_round_trip(packet_id);
            assert(be16_value(body[0], body[1]) == packet_id);
        },
        PacketS::Pingreq => {},
        PacketS::Pingresp => {},
        PacketS::Disconnect => {},
    }
}

/// Decoding inverts encoding: reading a buffer that starts with the
/// wire form of any well-formed packet gives that packet back and
/// consumes exactly its wire form, whatever bytes follow it.
pub proof fn lemma_round_trip(p: PacketS, rest: Seq<u8>)
    requires
        p.wf(),
    ensures
        spec_decode(spec_encode(p) + rest) == (DecodeS::Decoded {
            packet: p,
            consumed: spec_encode(p).len() as int,
        }),
        spec_encode(p).len() == 1 + remlen_width(p.body_bytes().len() as int)
            + p.body_bytes().len(),
{
    let h = p.header_byte();
    let body = p.body_bytes();
    let n = body.len() as int;
    lemma_wf_body_len(p);
    let rl = remlen_bytes(n);
    let w = remlen_width(n);
    let b = spec_encode(p) + rest;
    assert(rl.len() == w);
    assert(b[0] == h);
    lemma_header_byte_fields(p);
    assert(b.skip(1) =~= rl + (body + rest));
    lemma_remlen_round_trip(n, body + rest);
    assert(spec_decode_remlen(b.skip(1)) == (RemLenS::Value { n, w }));
    assert(b.len() == 1 + w + n + rest.len());
    assert(b.subrange(1 + w, 1 + w + n) =~= body);
    lemma_decode_body_inverts(p, 1 + w + n);
}

/// A buffer cut before the packet's full wire form decodes as
/// `Incomplete`, never as a packet or as malformed.
pub proof fn lemma_truncated_incomplete(p: PacketS, k: int)
    requires
        p.wf(),
        0 <= k < spec_encode(p).len(),
    ensures
        spec_decode(spec_encode(p).take(k)) == DecodeS::Incomplete,
{
    let h = p.header_byte();
    let body = p.body_bytes();
    let n = body.len() as int;
    lemma_wf_body_len(p);
    let rl = remlen_bytes(n);
    let w = remlen_width(n);
    let e = spec_encode(p);
    let t = e.take(k);
    assert(rl.len() == w);
    assert(e.len() == 1 + w + n);
    if k == 0 {
        assert(t.len() == 0);
    } else {
        assert(t[0] == h);
        lemma_header_byte_fields(p);
        if k - 1 < w {
            assert(t.skip(1) =~= rl.take(k - 1));
            lemma_remlen_prefix_incomplete(n, k - 1);
        } else {
            assert(t.skip(1) =~= rl + body.take(k - 1 - w));
            lemma_remlen_round_trip(n, body.take(k - 1 - w));
            assert(spec_decode_remlen(t.skip(1)) == (RemLenS::Value { n, w }));
            assert(t.len() < 1 + w + n);
        }
    }
}

/// A decoded packet consumes at least its header byte and at most the
/// whole buffer.
pub proof fn lemma_decode_consumed(b: Seq<u8>)
    ensures
        spec_decode(b) matches DecodeS::Decoded { consumed, .. } ==> 1 <= consumed <= b.len(),
{
}

/// A remaining-length field that runs to a fifth byte — four
/// continuation bytes in a row — is rejected as malformed.
pub proof fn lemma_remlen_overrun_malformed(b: Seq<u8>)
    requires
        b.len() >= 5,
        valid_header_byte(b[0]),
        b[1] >= 128,
        b[2] >= 128,
        b[3] >= 128,
        b[4] >= 128,
    ensures
        spec_decode(b) == (DecodeS::Malformed { kind: MalformedKind::RemainingLengthTooLarge }),
{
    let s = b.skip(1);
    assert(s[0] == b[1] && s[1] == b[2] && s[2] == b[3] && s[3] == b[4]);
}

/// Whether `h` is a legal fixed-header byte.
fn valid_header(h: u8) -> (r: bool)
    ensures
        r == valid_header_byte(h),
{
    let t: u8 = h / 16;
    let f: u8 = h % 16;
    if t == 1 || t == 2 || t == 4 || t == 5 || t == 7 || t == 9 || t == 12 || t == 13 || t == 14 {
        f == 0
    } else if t == 3 {
        (h / 2) % 4 != 3
    } else if t == 6 || t == 8 {
        f == 2
    } else {
        false
    }
}

/// Reads a CONNECT body.
fn decode_connect(body: &[u8], consumed: usize) -> (r: DecodeResult)
    ensures
        r@ == spec_decode_connect(body@, consumed as int),
{
    if body.len() < 12 {
        return DecodeResult::Malformed(MalformedKind::LengthMismatch);
    }
    if !(body[0] == 0 && body[1] == 4 && body[2] == 0x4D && body[3] == 0x51 && body[4] == 0x54
        && body[5] == 0x54 && body[6] == 4) {
        return DecodeResult::Malformed(MalformedKind::InvalidProtocolHeader);
    }
    let flags: u8 = body[7];
    if flags != 0 && flags != 2 {
        return DecodeResult::Malformed(MalformedKind::UnsupportedFeature);
    }
    let keepalive: u16 = read_be16(body, 8);
    let idlen: usize = read_be16(body, 10) as usize;
    if body.len() != 12 + idlen {
        return DecodeResult::Malformed(MalformedKind::LengthMismatch);
    }
    let cid = slice_subrange(body, 12, 12 + idlen);
    proof {
        assert(cid@ =~= body@.skip(12));
    }
    if !is_utf8(cid) {
        return DecodeResult::Malformed(MalformedKind::InvalidUtf8);
    }
    DecodeResult::Decoded(
        Packet::Connect { client_id: slice_to_vec(cid), keepalive, clean_session: flags == 2 },
        consumed,
    )
}

/// Reads a CONNACK body.
fn decode_connack(body: &[u8], consumed: usize) -> (r: DecodeResult)
    ensures
        r@ == spec_decode_connack(body@, consumed as int),
{
    if body.len() != 2 {
        return DecodeResult::Malformed(MalformedKind::LengthMismatch);
    }
    if body[0] > 1 {
        return DecodeResult::Malformed(MalformedKind::InvalidAckFlags);
    }
    DecodeResult::Decoded(
        Packet::Connack { session_present: body[0] == 1, return_code: body[1] },
        consumed,
    )
}

/// Reads a PUBLISH body, with the flags of its fixed-header byte `h`.
fn decode_publish(h: u8, body: &[u8], consumed: usize) -> (r: DecodeResult)
    ensures
        r@ == spec_decode_publish(h, body@, consumed as int),
{
    let qos_n: u8 = (h / 2) % 4;
    let idw: usize = if qos_n == 0 {
        0
    } else {
        2
    };
    if body.len() < 2 {
        return DecodeResult::Malformed(MalformedKind::LengthMismatch);
    }
    let tl: usize = read_be16(body, 0) as usize;
    if tl == 0 {
        return DecodeResult::Malformed(MalformedKind::InvalidTopic);
    }
    if body.len() < 2 + tl + idw {
        return DecodeResult::Malformed(MalformedKind::LengthMismatch);
    }
    let topic = slice_subrange(body, 2, 2 + tl);
    if !is_utf8(topic) {
        return DecodeResult::Malformed(MalformedKind::InvalidUtf8);
    }
    let pid: u16 = if qos_n == 0 {
        0
    } else {
        read_be16(body, 2 + tl)
    };
    if qos_n != 0 && pid == 0 {
        return DecodeResult::Malformed(MalformedKind::InvalidPacketId);
    }
    let payload = slice_subrange(body, 2 + tl + idw, body.len());
    proof {
        assert(payload@ =~= body@.skip(2 + tl as int + idw as int));
    }
    let qos = match QoS::from_level(qos_n) {
        Some(q) => q,
        None => QoS::AtMostOnce,
    };
    DecodeResult::Decoded(
        Packet::Publish {
            dup: (h / 8) % 2 == 1,
            qos,
            retain: h % 2 == 1,
            topic: slice_to_vec(topic),
            packet_id: pid,
            payload: slice_to_vec(payload),
        },
        consumed,
    )
}

/// Reads the two-byte packet-identifier body shared by PUBACK, PUBREC,
/// PUBREL and PUBCOMP; `t` is the packet type.
fn decode_ack(t: u8, body: &[u8], consumed: usize) -> (r: DecodeResult)
    requires
        t == 4 || t == 5 || t == 6 || t == 7,
    ensures
        r@ == spec_decode_ack(t, body@, consumed as int),
{
    if body.len() != 2 {
        return DecodeResult::Malformed(MalformedKind::LengthMismatch);
    }
    let id: u16 = read_be16(body, 0);
    if id == 0 {
        return DecodeResult::Malformed(MalformedKind::InvalidPacketId);
    }
    let packet = if t == 4 {
        Packet::Puback { packet_id: id }
    } else if t == 5 {
        Packet::Pubrec { packet_id: id }
    } else if t == 6 {
        Packet::Pubrel { packet_id: id }
    } else {
        Packet::Pubcomp { packet_id: id }
    };
    DecodeResult::Decoded(packet, consumed)
}

/// Reads a SUBSCRIBE body carrying one topic filter.
fn decode_subscribe(body: &[u8], consumed: usize) -> (r: DecodeResult)
    ensures
        r@ == spec_decode_subscribe(body@, consumed as int),
{
    if body.len() < 4 {
        return DecodeResult::Malformed(MalformedKind::LengthMismatch);
    }
    let id: u16 = read_be16(body, 0);
    let fl: usize = read_be16(body, 2) as usize;
    if id == 0 {
        return DecodeResult::Malformed(MalformedKind::InvalidPacketId);
    }
    if fl == 0 {
        return DecodeResult::Malformed(MalformedKind::InvalidTopic);
    }
    if body.len() != 5 + fl {
        return DecodeResult::Malformed(MalformedKind::LengthMismatch);
    }
    let filter = slice_subrange(body, 4, 4 + fl);
    if !is_utf8(filter) {
        return DecodeResult::Malformed(MalformedKind::InvalidUtf8);
    }
    let qb: u8 = body[4 + fl];
    if qb > 2 {
        return DecodeResult::Malformed(MalformedKind::InvalidQos);
    }
    let qos = match QoS::from_level(qb) {
        Some(q) => q,
        None => QoS::AtMostOnce,
    };
    DecodeResult::Decoded(
        Packet::Subscribe { packet_id: id, filter: slice_to_vec(filter), qos },
        consumed,
    )
}

/// Reads a SUBACK body carrying one return code.
fn decode_suback(body: &[u8], consumed: usize) -> (r: DecodeResult)
    ensures
        r@ == spec_decode_suback(body@, consumed as int),
{
    if body.len() != 3 {
        return DecodeResult::Malformed(MalformedKind::LengthMismatch);
    }
    let id: u16 = read_be16(body, 0);
    if id == 0 {
        return DecodeResult::Malformed(MalformedKind::InvalidPacketId);
    }
    DecodeResult::Decoded(Packet::Suback { packet_id: id, return_code: body[2] }, consumed)
}

/// Reads one of the bodiless packets (PINGREQ, PINGRESP, DISCONNECT).
fn decode_empty(t: u8, body: &[u8], consumed: usize) -> (r: DecodeResult)
    requires
        t == 12 || t == 13 || t == 14,
    ensures
        r@ == spec_decode_empty(t, body@, consumed as int),
{
    if body.len() != 0 {
        return DecodeResult::Malformed(MalformedKind::LengthMismatch);
    }
    let packet = if t == 12 {
        Packet::Pingreq
    } else if t == 13 {
        Packet::Pingresp
    } else {
        Packet::Disconnect
    };
    DecodeResult::Decoded(packet, consumed)
}

/// Reads one packet from the front of `buf`. Returns `Incomplete`
/// whenever the buffer ends before the packet does, so callers can
/// append bytes and retry; nothing is consumed until a full packet is
/// present.
pub fn decode(buf: &[u8]) -> (r: DecodeResult)
    ensures
        r@ == spec_decode(buf@),
{
    if buf.len() == 0 {
        return DecodeResult::Incomplete;
    }
    let h: u8 = buf[0];
    if !valid_header(h) {
        return DecodeResult::Malformed(MalformedKind::InvalidControlByte);
    }
    match decode_remlen(buf, 1) {
        RemLen::Incomplete => DecodeResult::Incomplete,
        RemLen::Overflow => DecodeResult::Malformed(MalformedKind::RemainingLengthTooLarge),
        RemLen::Value { value, width } => {
            let n: usize = value as usize;
            let w: usize = width;
            proof {
                assert(spec_decode_remlen(buf@.skip(1)) == (RemLenS::Value {
                    n: n as int,
                    w: w as int,
                }));
            }
            if buf.len() < 1 + w || buf.len() - (1 + w) < n {
                return DecodeResult::Incomplete;
            }
            let body = slice_subrange(buf, 1 + w, 1 + w + n);
            let consumed: usize = 1 + w + n;
            let t: u8 = h / 16;
            if t == 1 {
                decode_connect(body, consumed)
            } else if t == 2 {
                decode_connack(body, consumed)
            } else if t == 3 {
                decode_publish(h, body, consumed)
            } else if t == 4 || t == 5 || t == 6 || t == 7 {
                decode_ack(t, body, consumed)
            } else if t == 8 {
                decode_subscribe(body, consumed)
            } else if t == 9 {
                decode_suback(body, consumed)
            } else {
                decode_empty(t, body, consumed)
            }
        },
    }
}

} // verus!
