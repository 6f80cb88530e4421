//! The connection state machine and client facade.
//!
//! A `Connection` owns no socket and no clock: the caller (a network
//! loop) feeds received bytes and the current time in milliseconds in,
//! writes the returned byte strings out, and delivers the returned
//! notices. Publishes at QoS above 0 are asynchronous: the call
//! returns a packet-identifier handle at once and completion arrives
//! later as a notice.

use crate::codec::{
    decode, encode, push_bytes, spec_decode, spec_encode, DecodeResult, DecodeS, Packet, PacketS,
};
use crate::error::MosqError;
use crate::qos::QoS;
use crate::tracker::{
    deadline_add, spec_deadline, HandshakeStage, PendingPublish, PublishTracker,
};
use crate::wire::{is_utf8, is_valid_utf8, MAX_REMAINING_LEN};
use vstd::prelude::*;
use vstd::slice::{slice_subrange, slice_to_vec};

verus! {

/// Lifecycle of one connection.
#[derive(Clone, Copy, Debug, PartialEq, Eq, Structural)]
pub enum ConnectionState {
    Disconnected,
    Connecting,
    Connected,
    Disconnecting,
    Lost,
}

/// What a connection reports back to its driver: handshake outcomes,
/// publish completions and failures, and delivered messages.
#[derive(Debug, Clone, PartialEq, Eq)]
pub enum Notice {
    ConnectAccepted { session_present: bool },
    ConnectRefused { return_code: u8 },
    ConnectTimedOut,
    PublishCompleted { packet_id: u16 },
    PublishFailed { packet_id: u16, error: MosqError },
    SubscribeAcknowledged { packet_id: u16, return_code: u8 },
    MessageReceived { topic: Vec<u8>, payload: Vec<u8>, qos: QoS, retain: bool },
    ConnectionLost { error: MosqError },
}

/// Reply bytes owed to the broker, and notices owed to the caller.
pub struct HandleOut {
    pub reply: Option<Vec<u8>>,
    pub notices: Vec<Notice>,
}

/// One decoded inbound packet, or the notices of a failed decode.
pub struct PollOut {
    pub packet: Option<Packet>,
    pub notices: Vec<Notice>,
}

/// A successfully issued publish: the bytes to write, and the
/// packet-identifier handle its completion will name (0 for QoS 0,
/// which completes at once).
pub struct PublishOut {
    pub packet_id: u16,
    pub bytes: Vec<u8>,
}

/// A successfully issued subscribe: the bytes to write, and the
/// packet identifier its SUBACK will name.
pub struct SubscribeOut {
    pub packet_id: u16,
    pub bytes: Vec<u8>,
}

/// How long a CONNECT may wait for its CONNACK before the handshake
/// is abandoned.
pub const CONNECT_TIMEOUT_MS: u64 = 30000;

/// Whether `t` can stand as a topic or topic filter on the wire.
pub open spec fn topic_ok(t: Seq<u8>) -> bool {
    is_valid_utf8(t) && 1 <= t.len() <= 0xFFFF
}

/// Whether a PUBLISH of topic `t` and payload `p` at QoS `qos` fits
/// the remaining-length field.
pub open spec fn publish_fits(t: Seq<u8>, p: Seq<u8>, qos: QoS) -> bool {
    2 + t.len() + (if qos is AtMostOnce {
        0int
    } else {
        2int
    }) + p.len() <= MAX_REMAINING_LEN
}

/// The failure notices owed for dropped in-flight publishes, in entry
/// order.
pub open spec fn spec_fail_notices(s: Seq<PendingPublish>) -> Seq<Notice> {
    s.map_values(
        |e: PendingPublish| Notice::PublishFailed { packet_id: e.packet_id, error: MosqError::ConnLost },
    )
}

/// One MQTT client connection: its configuration, lifecycle state,
/// in-flight publishes, receive buffer and keepalive supervision.
pub struct Connection {
    pub host: Vec<u8>,
    pub port: u16,
    pub client_id: Vec<u8>,
    pub clean_session: bool,
    pub keepalive: u16,
    pub retry_interval: u64,
    pub state: ConnectionState,
    pub tracker: PublishTracker,
    pub recv_buf: Vec<u8>,
    pub ping_outstanding: bool,
    pub ping_deadline: u64,
    pub next_ping_at: u64,
    pub connect_deadline: u64,
}

impl Connection {
    /// Well-formedness: the tracker's invariant holds, the client
    /// identifier is a legal string field, and a connection that is
    /// down holds no in-flight publishes.
    pub open spec fn wf(self) -> bool {
        &&& self.tracker.wf()
        &&& is_valid_utf8(self.client_id@)
        &&& self.client_id@.len() <= 0xFFFF
        &&& (self.state is Disconnected || self.state is Lost) ==> self.tracker.entries@.len()
            == 0
    }

    /// The configuration fields `self` shares with `other`.
    pub open spec fn same_config(self, other: Connection) -> bool {
        &&& self.host@ == other.host@
        &&& self.port == other.port
        &&& self.client_id@ == other.client_id@
        &&& self.clean_session == other.clean_session
        &&& self.retry_interval == other.retry_interval
    }

    /// Creates a connection to `host:port`, not yet connected.
    /// Rejected with `Inval` exactly when the client identifier cannot
    /// stand as a wire string field.
    pub fn new(
        host: Vec<u8>,
        port: u16,
        client_id: Vec<u8>,
        clean_session: bool,
        retry_interval: u64,
    ) -> (r: Result<Connection, MosqError>)
        ensures
            r is Ok <==> (is_valid_utf8(client_id@) && client_id@.len() <= 0xFFFF),
            r matches Err(e) ==> e is Inval,
            r matches Ok(c) ==> {
                &&& c.wf()
                &&& c.host@ == host@
                &&& c.port == port
                &&& c.client_id@ == client_id@
                &&& c.clean_session == clean_session
                &&& c.retry_interval == retry_interval
                &&& c.state is Disconnected
                &&& c.tracker.entries@.len() == 0
                &&& c.tracker.next_id == 1
                &&& c.recv_buf@.len() == 0
                &&& !c.ping_outstanding
            },
    {
        if client_id.len() > 0xFFFF {
            return Err(MosqError::Inval);
        }
        if !is_utf8(client_id.as_slice()) {
            return Err(MosqError::Inval);
        }
        Ok(
            Connection {
                host,
                port,
                client_id,
                clean_session,
                keepalive: 0,
                retry_interval,
                state: ConnectionState::Disconnected,
                tracker: PublishTracker::new(),
                recv_buf: Vec::new(),
                ping_outstanding: false,
                ping_deadline: 0,
                next_ping_at: 0,
                connect_deadline: 0,
            },
        )
    }

    /// Starts the connection handshake: allowed only while
    /// disconnected, and returns the CONNECT bytes to write. A
    /// handshake already under way is reported as `ConnPending`, any
    /// other state as `Inval`.
    pub fn connect(&mut self, keepalive: u16, now: u64) -> (r: Result<Vec<u8>, MosqError>)
        requires
            old(self).wf(),
        ensures
            final(self).wf(),
            final(self).same_config(*old(self)),
            r is Ok <==> old(self).state is Disconnected,
            old(self).state is Connecting ==> (r matches Err(e) && e is ConnPending),
            !(old(self).state is Disconnected) && !(old(self).state is Connecting) ==> (r matches Err(e)
                && e is Inval),
            r is Err ==> *final(self) == *old(self),
            r matches Ok(bytes) ==> {
                &&& bytes@ == spec_encode(
                    PacketS::Connect {
                        client_id: old(self).client_id@,
                        keepalive,
                        clean_session: old(self).clean_session,
                    },
                )
                &&& final(self).state is Connecting
                &&& final(self).keepalive == keepalive
                &&& final(self).tracker == old(self).tracker
                &&& final(self).recv_buf@.len() == 0
                &&& !final(self).ping_outstanding
                &&& final(self).next_ping_at == spec_deadline(now, (keepalive * 1000) as u64)
                &&& final(self).connect_deadline == spec_deadline(now, CONNECT_TIMEOUT_MS)
            },
    {
        match self.state {
            ConnectionState::Disconnected => {
                self.keepalive = keepalive;
                self.state = ConnectionState::Connecting;
                self.ping_outstanding = false;
                self.next_ping_at = deadline_add(now, (keepalive as u64) * 1000);
                self.connect_deadline = deadline_add(now, CONNECT_TIMEOUT_MS);
                self.recv_buf = Vec::new();
                let pkt = Packet::Connect {
                    client_id: slice_to_vec(self.client_id.as_slice()),
                    keepalive,
                    clean_session: self.clean_session,
                };
                proof {
                    assert(pkt@.wf());
                }
                Ok(encode(&pkt))
            },
            ConnectionState::Connecting => Err(MosqError::ConnPending),
            _ => Err(MosqError::Inval),
        }
    }

    /// Issues a publish. Fails fast with `NoConn` outside the
    /// connected state — nothing is queued and no bytes are produced.
    /// A QoS 0 publish is fire-and-forget; a higher QoS allocates a
    /// packet identifier, records the in-flight entry and returns the
    /// identifier as the completion handle. `NoMem` reports exhaustion
    /// of the whole identifier space.
    pub fn publish(
        &mut self,
        topic: &[u8],
        payload: &[u8],
        qos: QoS,
        retain: bool,
        now: u64,
    ) -> (r: Result<PublishOut, MosqError>)
        requires
            old(self).wf(),
        ensures
            final(self).wf(),
            final(self).same_config(*old(self)),
            final(self).state == old(self).state,
            final(self).recv_buf@ == old(self).recv_buf@,
            r is Err ==> *final(self) == *old(self),
            !(old(self).state is Connected) ==> (r matches Err(e) && e is NoConn),
            old(self).state is Connected && !topic_ok(topic@) ==> (r matches Err(e) && e is Inval),
            old(self).state is Connected && topic_ok(topic@) && !publish_fits(topic@, payload@, qos)
                ==> (r matches Err(e) && e is PayloadSize),
            old(self).state is Connected && topic_ok(topic@) && publish_fits(topic@, payload@, qos)
                ==> {
                &&& qos is AtMostOnce ==> (r matches Ok(out) && out.packet_id == 0
                    && *final(self) == *old(self))
                &&& !(qos is AtMostOnce) ==> {
                    &&& (r matches Err(e) ==> e is NoMem && (forall|id: u16|
                        id != 0 ==> old(self).tracker.in_flight(id)))
                    &&& (r is Err <==> (forall|id: u16| id != 0 ==> old(self).tracker.in_flight(id)))
                    &&& (r matches Ok(out) ==> {
                        &&& out.packet_id != 0
                        &&& !old(self).tracker.in_flight(out.packet_id)
                        &&& final(self).tracker.entries@.len() == old(self).tracker.entries@.len()
                            + 1
                        &&& final(self).tracker.entries@.take(
                            old(self).tracker.entries@.len() as int,
                        ) == old(self).tracker.entries@
                        &&& {
                            let e = final(self).tracker.entries@.last();
                            &&& e.packet_id == out.packet_id
                            &&& e.qos == qos
                            &&& e.topic@ == topic@
                            &&& e.payload@ == payload@
                            &&& e.retain == retain
                            &&& e.retry_count == 0
                            &&& e.next_retry_at == spec_deadline(now, old(self).retry_interval)
                            &&& e.stage is Sent
                        }
                    })
                }
            },
            r matches Ok(out) ==> out.bytes@ == spec_encode(
                PacketS::Publish {
                    dup: false,
                    qos,
                    retain,
                    topic: topic@,
                    packet_id: out.packet_id,
                    payload: payload@,
                },
            ),
    {
        if !(self.state == ConnectionState::Connected) {
            return Err(MosqError::NoConn);
        }
        if topic.len() == 0 || topic.len() > 0xFFFF {
            return Err(MosqError::Inval);
        }
        if !is_utf8(topic) {
            return Err(MosqError::Inval);
        }
        let idw: u64 = if qos == QoS::AtMostOnce {
            0
        } else {
            2
        };
        let overhead: u64 = 2 + topic.len() as u64 + idw;
        if payload.len() as u64 > MAX_REMAINING_LEN as u64 - overhead {
            return Err(MosqError::PayloadSize);
        }
        if qos == QoS::AtMostOnce {
            let pkt = Packet::Publish {
                dup: false,
                qos,
                retain,
                topic: slice_to_vec(topic),
                packet_id: 0,
                payload: slice_to_vec(payload),
            };
            proof {
                assert(pkt@.wf());
            }
            let bytes = encode(&pkt);
            return Ok(PublishOut { packet_id: 0, bytes });
        }
        match self.tracker.allocate() {
            None => Err(MosqError::NoMem),
            Some(id) => {
                let entry = PendingPublish {
                    packet_id: id,
                    qos,
                    topic: slice_to_vec(topic),
                    payload: slice_to_vec(payload),
                    retain,
                    retry_count: 0,
                    next_retry_at: deadline_add(now, self.retry_interval),
                    stage: HandshakeStage::Sent,
                };
                proof {
                    assert(entry.wf());
                }
                self.tracker.track(entry);
                let pkt = Packet::Publish {
                    dup: false,
                    qos,
                    retain,
                    topic: slice_to_vec(topic),
                    packet_id: id,
                    payload: slice_to_vec(payload),
                };
                proof {
                    assert(pkt@.wf());
                }
                let bytes = encode(&pkt);
                Ok(PublishOut { packet_id: id, bytes })
            },
        }
    }

    /// Issues a subscribe for one topic filter. Fails fast with
    /// `NoConn` outside the connected state; the SUBACK will carry the
    /// returned packet identifier.
    pub fn subscribe(&mut self, filter: &[u8], qos: QoS) -> (r: Result<SubscribeOut, MosqError>)
        requires
            old(self).wf(),
        ensures
            final(self).wf(),
            final(self).same_config(*old(self)),
            final(self).state == old(self).state,
            final(self).recv_buf@ == old(self).recv_buf@,
            final(self).tracker.entries@ == old(self).tracker.entries@,
            r is Err ==> *final(self) == *old(self),
            !(old(self).state is Connected) ==> (r matches Err(e) && e is NoConn),
            old(self).state is Connected && !topic_ok(filter@) ==> (r matches Err(e) && e is Inval),
            old(self).state is Connected && topic_ok(filter@) ==> {
                &&& (r is Err <==> (forall|id: u16| id != 0 ==> old(self).tracker.in_flight(id)))
                &&& (r matches Err(e) ==> e is NoMem)
                &&& (r matches Ok(out) ==> out.packet_id != 0 && !old(self).tracker.in_flight(
                    out.packet_id,
                ) && out.bytes@ == spec_encode(
                    PacketS::Subscribe { packet_id: out.packet_id, filter: filter@, qos },
                ))
            },
    {
        if !(self.state == ConnectionState::Connected) {
            return Err(MosqError::NoConn);
        }
        if filter.len() == 0 || filter.len() > 0xFFFF {
            return Err(MosqError::Inval);
        }
        if !is_utf8(filter) {
            return Err(MosqError::Inval);
        }
        match self.tracker.allocate() {
            None => Err(MosqError::NoMem),
            Some(id) => {
                let pkt = Packet::Subscribe { packet_id: id, filter: slice_to_vec(filter), qos };
                proof {
                    assert(pkt@.wf());
                }
                let bytes = encode(&pkt);
                Ok(SubscribeOut { packet_id: id, bytes })
            },
        }
    }

    /// Starts a graceful disconnect: allowed only while connected, and
    /// returns the DISCONNECT bytes to write before the socket is
    /// closed.
    pub fn disconnect(&mut self) -> (r: Result<Vec<u8>, MosqError>)
        requires
            old(self).wf(),
        ensures
            final(self).wf(),
            final(self).same_config(*old(self)),
            r is Ok <==> old(self).state is Connected,
            r matches Err(e) ==> (e is NoConn && *final(self) == *old(self)),
            r matches Ok(bytes) ==> {
                &&& bytes@ == spec_encode(PacketS::Disconnect)
                &&& final(self).state is Disconnecting
                &&& final(self).tracker == old(self).tracker
                &&& final(self).recv_buf@ == old(self).recv_buf@
            },
    {
        if !(self.state == ConnectionState::Connected) {
            return Err(MosqError::NoConn);
        }
        self.state = ConnectionState::Disconnecting;
        Ok(encode(&Packet::Disconnect))
    }

    /// Appends bytes read from the socket to the receive buffer.
    pub fn feed_bytes(&mut self, chunk: &[u8])
        requires
            old(self).wf(),
        ensures
            final(self).wf(),
            final(self).recv_buf@ == old(self).recv_buf@ + chunk@,
            final(self).same_config(*old(self)),
            final(self).state == old(self).state,
            final(self).tracker == old(self).tracker,
            final(self).keepalive == old(self).keepalive,
            final(self).ping_outstanding == old(self).ping_outstanding,
            final(self).ping_deadline == old(self).ping_deadline,
            final(self).next_ping_at == old(self).next_ping_at,
    {
        push_bytes(&mut self.recv_buf, chunk);
    }

    /// Routes one decoded inbound packet. A CONNACK answers the
    /// handshake, with a refusal returning the state to Disconnected;
    /// PUBACK, PUBREC and PUBCOMP drive the outbound QoS handshakes;
    /// PINGRESP settles the keepalive; an inbound PUBLISH is delivered
    /// and acknowledged by its QoS; anything else — server-bound
    /// packets, or traffic outside the state that expects it — is
    /// ignored without effect.
    #[verifier::rlimit(80)]
    pub fn handle_packet(&mut self, p: &Packet, now: u64) -> (out: HandleOut)
        requires
            old(self).wf(),
        ensures
            final(self).wf(),
            final(self).same_config(*old(self)),
            final(self).recv_buf@ == old(self).recv_buf@,
            final(self).keepalive == old(self).keepalive,
            old(self).state is Connecting ==> (p@ matches PacketS::Connack {
                session_present,
                return_code,
            } ==> {
                &&& out.reply is None
                &&& return_code == 0 ==> {
                    &&& final(self).state is Connected
                    &&& final(self).tracker == old(self).tracker
                    &&& !final(self).ping_outstanding
                    &&& final(self).next_ping_at == spec_deadline(
                        now,
                        (old(self).keepalive * 1000) as u64,
                    )
                    &&& out.notices@ == seq![Notice::ConnectAccepted { session_present }]
                }
                &&& return_code != 0 ==> {
                    &&& final(self).state is Disconnected
                    &&& final(self).tracker.entries@.len() == 0
                    &&& out.notices@ == spec_fail_notices(old(self).tracker.entries@).push(
                        Notice::ConnectRefused { return_code },
                    )
                }
            }),
            old(self).state is Connected ==> (p@ matches PacketS::Puback { packet_id } ==> {
                &&& out.reply is None
                &&& final(self).state is Connected
                &&& {
                    let completed = exists|i: int|
                        0 <= i < old(self).tracker.entries@.len() && {
                            let e = #[trigger] old(self).tracker.entries@[i];
                            e.packet_id == packet_id && e.qos is AtLeastOnce && e.stage is Sent
                        };
                    &&& completed ==> {
                        &&& !final(self).tracker.in_flight(packet_id)
                        &&& final(self).tracker.entries@.len() == old(
                            self,
                        ).tracker.entries@.len() - 1
                        &&& out.notices@ == seq![Notice::PublishCompleted { packet_id }]
                    }
                    &&& !completed ==> *final(self) == *old(self) && out.notices@.len() == 0
                }
            }),
            old(self).state is Connected ==> (p@ matches PacketS::Pubcomp { packet_id } ==> {
                &&& out.reply is None
                &&& final(self).state is Connected
                &&& {
                    let completed = exists|i: int|
                        0 <= i < old(self).tracker.entries@.len() && {
                            let e = #[trigger] old(self).tracker.entries@[i];
                            e.packet_id == packet_id && e.qos is ExactlyOnce
                                && e.stage is ReleaseSent
                        };
                    &&& completed ==> {
                        &&& !final(self).tracker.in_flight(packet_id)
                        &&& final(self).tracker.entries@.len() == old(
                            self,
                        ).tracker.entries@.len() - 1
                        &&& out.notices@ == seq![Notice::PublishCompleted { packet_id }]
                    }
                    &&& !completed ==> *final(self) == *old(self) && out.notices@.len() == 0
                }
            }),
            old(self).state is Connected ==> (p@ matches PacketS::Pubrec { packet_id } ==> {
                &&& out.notices@.len() == 0
                &&& final(self).state is Connected
                &&& {
                    let matched = exists|i: int|
                        0 <= i < old(self).tracker.entries@.len() && {
                            let e = #[trigger] old(self).tracker.entries@[i];
                            e.packet_id == packet_id && e.qos is ExactlyOnce && e.stage is Sent
                        };
                    &&& matched ==> {
                        &&& (out.reply matches Some(b) && b@ == spec_encode(
                            PacketS::Pubrel { packet_id },
                        ))
                        &&& exists|i: int|
                            0 <= i < old(self).tracker.entries@.len() && {
                                let e = #[trigger] old(self).tracker.entries@[i];
                                e.packet_id == packet_id && final(self).tracker.entries@ == old(
                                    self,
                                ).tracker.entries@.remove(i).push(
                                    PendingPublish { stage: HandshakeStage::ReleaseSent, ..e },
                                )
                            }
                        &&& (forall|x: u16|
                            final(self).tracker.in_flight(x) <==> old(self).tracker.in_flight(x))
                    }
                    &&& !matched ==> *final(self) == *old(self) && out.reply is None
                }
            }),
            old(self).state is Connected && p@ is Pingresp ==> {
                &&& out.reply is None
                &&& out.notices@.len() == 0
                &&& final(self).state is Connected
                &&& final(self).tracker == old(self).tracker
                &&& !final(self).ping_outstanding
                &&& final(self).next_ping_at == spec_deadline(
                    now,
                    (old(self).keepalive * 1000) as u64,
                )
            },
            old(self).state is Connected ==> (p@ matches PacketS::Publish {
                qos,
                retain,
                topic,
                packet_id,
                payload,
                ..
            } ==> {
                &&& *final(self) == *old(self)
                &&& out.notices@.len() == 1
                &&& (out.notices@[0] matches Notice::MessageReceived {
                    topic: t,
                    payload: l,
                    qos: q,
                    retain: r2,
                } && t@ == topic && l@ == payload && q == qos && r2 == retain)
                &&& (qos is AtLeastOnce && packet_id != 0 ==> (out.reply matches Some(b) && b@
                    == spec_encode(PacketS::Puback { packet_id })))
                &&& (qos is ExactlyOnce && packet_id != 0 ==> (out.reply matches Some(b) && b@
                    == spec_encode(PacketS::Pubrec { packet_id })))
                &&& (qos is AtMostOnce || packet_id == 0 ==> out.reply is None)
            }),
            old(self).state is Connected ==> (p@ matches PacketS::Pubrel { packet_id } ==> {
                &&& *final(self) == *old(self)
                &&& out.notices@.len() == 0
                &&& (packet_id != 0 ==> (out.reply matches Some(b) && b@ == spec_encode(
                    PacketS::Pubcomp { packet_id },
                )))
                &&& (packet_id == 0 ==> out.reply is None)
            }),
            old(self).state is Connected ==> (p@ matches PacketS::Suback {
                packet_id,
                return_code,
            } ==> {
                &&& *final(self) == *old(self)
                &&& out.reply is None
                &&& out.notices@ == seq![Notice::SubscribeAcknowledged { packet_id, return_code }]
            }),
            !((old(self).state is Connecting && p@ is Connack) || (old(self).state is Connected && (
            p@ is Puback || p@ is Pubrec || p@ is Pubcomp || p@ is Pingresp || p@ is Publish
                || p@ is Pubrel || p@ is Suback))) ==> (*final(self) == *old(self)
                && out.reply is None && out.notices@.len() == 0),
    {
        if self.state == ConnectionState::Connecting {
            return match p {
                Packet::Connack { session_present, return_code } => {
                    if *return_code == 0 {
                        self.state = ConnectionState::Connected;
                        self.ping_outstanding = false;
                        self.next_ping_at = deadline_add(now, (self.keepalive as u64) * 1000);
                        let mut notices: Vec<Notice> = Vec::new();
                        notices.push(
                            Notice::ConnectAccepted { session_present: *session_present },
                        );
                        proof {
                            assert(notices@ =~= seq![
                                Notice::ConnectAccepted { session_present: *session_present },
                            ]);
                        }
                        HandleOut { reply: None, notices }
                    } else {
                        self.state = ConnectionState::Disconnected;
                        let ids = self.tracker.fail_all();
                        let mut notices: Vec<Notice> = Vec::new();
                        push_failure_notices(&mut notices, &ids);
                        proof {
                            assert(notices@ =~= spec_fail_notices(old(self).tracker.entries@));
                        }
                        notices.push(Notice::ConnectRefused { return_code: *return_code });
                        HandleOut { reply: None, notices }
                    }
                },
                _ => HandleOut { reply: None, notices: Vec::new() },
            };
        }
        if !(self.state == ConnectionState::Connected) {
            return HandleOut { reply: None, notices: Vec::new() };
        }
        match p {
            Packet::Puback { packet_id } => {
                let completed = self.tracker.on_puback(*packet_id);
                let mut notices: Vec<Notice> = Vec::new();
                if completed {
                    notices.push(Notice::PublishCompleted { packet_id: *packet_id });
                    proof {
                        assert(notices@ =~= seq![
                            Notice::PublishCompleted { packet_id: *packet_id },
                        ]);
                    }
                }
                HandleOut { reply: None, notices }
            },
            Packet::Pubcomp { packet_id } => {
                let completed = self.tracker.on_pubcomp(*packet_id);
                let mut notices: Vec<Notice> = Vec::new();
                if completed {
                    notices.push(Notice::PublishCompleted { packet_id: *packet_id });
                    proof {
                        assert(notices@ =~= seq![
                            Notice::PublishCompleted { packet_id: *packet_id },
                        ]);
                    }
                }
                HandleOut { reply: None, notices }
            },
            Packet::Pubrec { packet_id } => {
                let id: u16 = *packet_id;
                let matched = self.tracker.on_pubrec(id);
                if matched {
                    let ghost olds = old(self).tracker.entries@;
                    let ghost t1 = self.tracker;
                    proof {
                        let i = choose|i: int|
                            0 <= i < olds.len() && {
                                let e = #[trigger] olds[i];
                                e.packet_id == id && t1.entries@ == olds.remove(i).push(
                                    PendingPublish { stage: HandshakeStage::Received, ..e },
                                )
                            };
                        assert(t1.entries@.len() == olds.len());
                        assert(t1.entries@.last() == PendingPublish {
                            stage: HandshakeStage::Received,
                            ..olds[i]
                        });
                        let i0 = choose|i0: int|
                            0 <= i0 < olds.len() && {
                                let e = #[trigger] olds[i0];
                                e.packet_id == id && e.qos is ExactlyOnce && e.stage is Sent
                            };
                        assert(i0 == i);
                        assert(t1.entries@.last().qos is ExactlyOnce);
                        assert(t1.entries@.last().stage is Received);
                        assert(t1.entries@.last().packet_id == id);
                        assert(t1.in_flight(id));
                    }
                    let sent = self.tracker.pubrel_sent(id);
                    proof {
                        assert(sent);
                        let i = choose|i: int|
                            0 <= i < olds.len() && {
                                let e = #[trigger] olds[i];
                                e.packet_id == id && t1.entries@ == olds.remove(i).push(
                                    PendingPublish { stage: HandshakeStage::Received, ..e },
                                )
                            };
                        let j = choose|j: int|
                            0 <= j < t1.entries@.len() && {
                                let e = #[trigger] t1.entries@[j];
                                e.packet_id == id && self.tracker.entries@ == t1.entries@.remove(
                                    j,
                                ).push(PendingPublish { stage: HandshakeStage::ReleaseSent, ..e })
                            };
                        assert(j == t1.entries@.len() - 1) by {
                            if j < t1.entries@.len() - 1 {
                                assert(t1.entries@[j].packet_id == t1.entries@[t1.entries@.len()
                                    - 1].packet_id);
                                assert(false);
                            }
                        }
                        assert(t1.entries@.remove(t1.entries@.len() - 1) =~= olds.remove(i));
                        assert(self.tracker.entries@ == olds.remove(i).push(
                            PendingPublish { stage: HandshakeStage::ReleaseSent, ..olds[i] },
                        ));
                        assert(olds[i].wf());
                        assert(id != 0);
                    }
                    let pkt = Packet::Pubrel { packet_id: id };
                    proof {
                        assert(pkt@.wf());
                    }
                    let bytes = encode(&pkt);
                    HandleOut { reply: Some(bytes), notices: Vec::new() }
                } else {
                    HandleOut { reply: None, notices: Vec::new() }
                }
            },
            Packet::Pingresp => {
                self.ping_outstanding = false;
                self.next_ping_at = deadline_add(now, (self.keepalive as u64) * 1000);
                HandleOut { reply: None, notices: Vec::new() }
            },
            Packet::Publish { qos, retain, topic, packet_id, payload, .. } => {
                let mut notices: Vec<Notice> = Vec::new();
                notices.push(
                    Notice::MessageReceived {
                        topic: slice_to_vec(topic.as_slice()),
                        payload: slice_to_vec(payload.as_slice()),
                        qos: *qos,
                        retain: *retain,
                    },
                );
                let reply: Option<Vec<u8>> = if *packet_id != 0 && *qos == QoS::AtLeastOnce {
                    let pk = Packet::Puback { packet_id: *packet_id };
                    proof {
                        assert(pk@.wf());
                    }
                    Some(encode(&pk))
                } else if *packet_id != 0 && *qos == QoS::ExactlyOnce {
                    let pk = Packet::Pubrec { packet_id: *packet_id };
                    proof {
                        assert(pk@.wf());
                    }
                    Some(encode(&pk))
                } else {
                    None
                };
                HandleOut { reply, notices }
            },
            Packet::Pubrel { packet_id } => {
                if *packet_id != 0 {
                    let pk = Packet::Pubcomp { packet_id: *packet_id };
                    proof {
                        assert(pk@.wf());
                    }
                    HandleOut { reply: Some(encode(&pk)), notices: Vec::new() }
                } else {
                    HandleOut { reply: None, notices: Vec::new() }
                }
            },
            Packet::Suback { packet_id, return_code } => {
                let mut notices: Vec<Notice> = Vec::new();
                notices.push(
                    Notice::SubscribeAcknowledged {
                        packet_id: *packet_id,
                        return_code: *return_code,
                    },
                );
                proof {
                    assert(notices@ =~= seq![
                        Notice::SubscribeAcknowledged {
                            packet_id: *packet_id,
                            return_code: *return_code,
                        },
                    ]);
                }
                HandleOut { reply: None, notices }
            },
            _ => HandleOut { reply: None, notices: Vec::new() },
        }
    }

    /// Supervises the timers at time `now`. While connected: once the
    /// next ping is due and none is outstanding, returns the PINGREQ
    /// bytes and starts the 1.5×keepalive answer window; if an
    /// outstanding ping's window has passed without a PINGRESP, the
    /// connection is lost and every in-flight publish fails with
    /// `ConnLost`. While connecting: a handshake still unanswered at
    /// its deadline is abandoned back to Disconnected.
    pub fn check_keepalive(&mut self, now: u64) -> (out: HandleOut)
        requires
            old(self).wf(),
        ensures
            final(self).wf(),
            final(self).same_config(*old(self)),
            !(old(self).state is Connected) && !(old(self).state is Connecting) ==> (*final(self)
                == *old(self) && out.reply is None && out.notices@.len() == 0),
            old(self).state is Connecting && now >= old(self).connect_deadline ==> {
                &&& final(self).state is Disconnected
                &&& final(self).tracker.entries@.len() == 0
                &&& out.notices@ == spec_fail_notices(old(self).tracker.entries@).push(
                    Notice::ConnectTimedOut,
                )
                &&& out.reply is None
            },
            old(self).state is Connecting && now < old(self).connect_deadline ==> (*final(self)
                == *old(self) && out.reply is None && out.notices@.len() == 0),
            old(self).state is Connected && old(self).ping_outstanding && now >= old(
                self,
            ).ping_deadline ==> {
                &&& final(self).state is Lost
                &&& final(self).tracker.entries@.len() == 0
                &&& out.notices@ == spec_fail_notices(old(self).tracker.entries@).push(
                    Notice::ConnectionLost { error: MosqError::ConnLost },
                )
                &&& out.reply is None
            },
            old(self).state is Connected && old(self).ping_outstanding && now < old(
                self,
            ).ping_deadline ==> (*final(self) == *old(self) && out.reply is None
                && out.notices@.len() == 0),
            old(self).state is Connected && !old(self).ping_outstanding && now >= old(
                self,
            ).next_ping_at ==> {
                &&& (out.reply matches Some(b) && b@ == spec_encode(PacketS::Pingreq))
                &&& out.notices@.len() == 0
                &&& final(self).state is Connected
                &&& final(self).tracker == old(self).tracker
                &&& final(self).ping_outstanding
                &&& final(self).ping_deadline == spec_deadline(
                    now,
                    (old(self).keepalive * 1500) as u64,
                )
            },
            old(self).state is Connected && !old(self).ping_outstanding && now < old(
                self,
            ).next_ping_at ==> (*final(self) == *old(self) && out.reply is None
                && out.notices@.len() == 0),
    {
        if self.state == ConnectionState::Connecting {
            if now >= self.connect_deadline {
                self.state = ConnectionState::Disconnected;
                let ids = self.tracker.fail_all();
                let mut notices: Vec<Notice> = Vec::new();
                push_failure_notices(&mut notices, &ids);
                proof {
                    assert(notices@ =~= spec_fail_notices(old(self).tracker.entries@));
                }
                notices.push(Notice::ConnectTimedOut);
                return HandleOut { reply: None, notices };
            }
            return HandleOut { reply: None, notices: Vec::new() };
        }
        if !(self.state == ConnectionState::Connected) {
            return HandleOut { reply: None, notices: Vec::new() };
        }
        if self.ping_outstanding {
            if now >= self.ping_deadline {
                self.state = ConnectionState::Lost;
                let ids = self.tracker.fail_all();
                let mut notices: Vec<Notice> = Vec::new();
                push_failure_notices(&mut notices, &ids);
                proof {
                    assert(notices@ =~= spec_fail_notices(old(self).tracker.entries@));
                }
                notices.push(Notice::ConnectionLost { error: MosqError::ConnLost });
                return HandleOut { reply: None, notices };
            }
            return HandleOut { reply: None, notices: Vec::new() };
        }
        if now >= self.next_ping_at {
            self.ping_outstanding = true;
            self.ping_deadline = deadline_add(now, (self.keepalive as u64) * 1500);
            return HandleOut { reply: Some(encode(&Packet::Pingreq)), notices: Vec::new() };
        }
        HandleOut { reply: None, notices: Vec::new() }
    }

    /// Reports that the socket failed or closed. A graceful disconnect
    /// completes into Disconnected; any other live state becomes Lost,
    /// with a `ConnectionLost` notice. Either way every in-flight
    /// publish fails with `ConnLost`.
    pub fn on_socket_error(&mut self) -> (notices: Vec<Notice>)
        requires
            old(self).wf(),
        ensures
            final(self).wf(),
            final(self).same_config(*old(self)),
            (old(self).state is Disconnected || old(self).state is Lost) ==> (*final(self) == *old(
                self,
            ) && notices@.len() == 0),
            old(self).state is Disconnecting ==> {
                &&& final(self).state is Disconnected
                &&& final(self).tracker.entries@.len() == 0
                &&& notices@ == spec_fail_notices(old(self).tracker.entries@)
            },
            (old(self).state is Connected || old(self).state is Connecting) ==> {
                &&& final(self).state is Lost
                &&& final(self).tracker.entries@.len() == 0
                &&& notices@ == spec_fail_notices(old(self).tracker.entries@).push(
                    Notice::ConnectionLost { error: MosqError::ConnLost },
                )
            },
    {
        match self.state {
            ConnectionState::Disconnected => Vec::new(),
            ConnectionState::Lost => Vec::new(),
            ConnectionState::Disconnecting => {
                self.state = ConnectionState::Disconnected;
                let ids = self.tracker.fail_all();
                let mut notices: Vec<Notice> = Vec::new();
                push_failure_notices(&mut notices, &ids);
                proof {
                    assert(notices@ =~= spec_fail_notices(old(self).tracker.entries@));
                }
                notices
            },
            _ => {
                self.state = ConnectionState::Lost;
                let ids = self.tracker.fail_all();
                let mut notices: Vec<Notice> = Vec::new();
                push_failure_notices(&mut notices, &ids);
                proof {
                    assert(notices@ =~= spec_fail_notices(old(self).tracker.entries@));
                }
                notices.push(Notice::ConnectionLost { error: MosqError::ConnLost });
                notices
            },
        }
    }

    /// Takes the next complete packet out of the receive buffer.
    /// An incomplete buffer consumes nothing; a malformed one is a
    /// protocol violation, which loses the connection and fails every
    /// in-flight publish.
    pub fn poll_packet(&mut self) -> (out: PollOut)
        requires
            old(self).wf(),
        ensures
            final(self).wf(),
            final(self).same_config(*old(self)),
            spec_decode(old(self).recv_buf@) is Incomplete ==> (*final(self) == *old(self)
                && out.packet is None && out.notices@.len() == 0),
            spec_decode(old(self).recv_buf@) matches DecodeS::Decoded { packet, consumed } ==> {
                &&& (out.packet matches Some(q) && q@ == packet)
                &&& final(self).recv_buf@ == old(self).recv_buf@.skip(consumed)
                &&& out.notices@.len() == 0
                &&& final(self).state == old(self).state
                &&& final(self).tracker == old(self).tracker
                &&& final(self).ping_outstanding == old(self).ping_outstanding
                &&& final(self).ping_deadline == old(self).ping_deadline
                &&& final(self).next_ping_at == old(self).next_ping_at
                &&& final(self).keepalive == old(self).keepalive
            },
            spec_decode(old(self).recv_buf@) is Malformed ==> {
                &&& out.packet is None
                &&& final(self).state is Lost
                &&& final(self).tracker.entries@.len() == 0
                &&& final(self).recv_buf@.len() == 0
                &&& out.notices@ == spec_fail_notices(old(self).tracker.entries@).push(
                    Notice::ConnectionLost { error: MosqError::Protocol },
                )
            },
    {
        proof {
            crate::codec::lemma_decode_consumed(self.recv_buf@);
        }
        match decode(self.recv_buf.as_slice()) {
            DecodeResult::Incomplete => PollOut { packet: None, notices: Vec::new() },
            DecodeResult::Decoded(q, consumed) => {
                let rest = slice_to_vec(
                    slice_subrange(self.recv_buf.as_slice(), consumed, self.recv_buf.len()),
                );
                proof {
                    assert(rest@ =~= old(self).recv_buf@.skip(consumed as int));
                }
                self.recv_buf = rest;
                PollOut { packet: Some(q), notices: Vec::new() }
            },
            DecodeResult::Malformed(_) => {
                self.state = ConnectionState::Lost;
                let ids = self.tracker.fail_all();
                let mut notices: Vec<Notice> = Vec::new();
                push_failure_notices(&mut notices, &ids);
                proof {
                    assert(notices@ =~= spec_fail_notices(old(self).tracker.entries@));
                }
                notices.push(Notice::ConnectionLost { error: MosqError::Protocol });
                self.recv_buf = Vec::new();
                PollOut { packet: None, notices }
            },
        }
    }

    /// One retransmission sweep at time `now`: every in-flight publish
    /// past its deadline is rescheduled and its current handshake
    /// packet — the PUBLISH with the duplicate flag, or the PUBREL —
    /// is returned, encoded, for resending.
    pub fn retransmit_due(&mut self, now: u64) -> (resends: Vec<Vec<u8>>)
        requires
            old(self).wf(),
        ensures
            final(self).wf(),
            final(self).same_config(*old(self)),
            final(self).state == old(self).state,
            final(self).recv_buf@ == old(self).recv_buf@,
            final(self).tracker.entries@.len() == old(self).tracker.entries@.len(),
            forall|i: int|
                0 <= i < old(self).tracker.entries@.len() ==> crate::tracker::entry_after_sweep(
                    final(self).tracker.entries@[i],
                    #[trigger] old(self).tracker.entries@[i],
                    now,
                    old(self).retry_interval,
                ),
            resends@.map_values(|b: Vec<u8>| b@) == crate::tracker::spec_resends(
                old(self).tracker.entries@,
                now,
            ).map_values(|q: PacketS| spec_encode(q)),
    {
        let pkts = self.tracker.sweep(now, self.retry_interval);
        let ghost goal = crate::tracker::spec_resends(old(self).tracker.entries@, now);
        let n: usize = pkts.len();
        let mut resends: Vec<Vec<u8>> = Vec::new();
        let mut i: usize = 0;
        while i < n
            invariant
                i <= n,
                n == pkts@.len(),
                pkts@.map_values(|q: Packet| q@) == goal,
                forall|j: int| 0 <= j < n ==> (#[trigger] pkts@[j])@.wf(),
                resends@.len() == i,
                forall|j: int|
                    0 <= j < i ==> (#[trigger] resends@[j])@ == spec_encode(pkts@[j]@),
            decreases n - i,
        {
            let b = encode(&pkts[i]);
            resends.push(b);
            i = i + 1;
        }
        proof {
            assert(goal.len() == n);
            assert forall|j: int| 0 <= j < n implies #[trigger] goal[j] == pkts@[j]@ by {
                assert(pkts@.map_values(|q: Packet| q@)[j] == pkts@[j]@);
            }
            assert(resends@.map_values(|b: Vec<u8>| b@) =~= goal.map_values(
                |q: PacketS| spec_encode(q),
            ));
        }
        resends
    }
}

/// Appends one `PublishFailed` notice per dropped identifier.
fn push_failure_notices(notices: &mut Vec<Notice>, ids: &Vec<u16>)
    ensures
        final(notices)@ == old(notices)@ + ids@.map_values(
            |id: u16| Notice::PublishFailed { packet_id: id, error: MosqError::ConnLost },
        ),
{
    let ghost base = notices@;
    let n: usize = ids.len();
    let mut i: usize = 0;
    proof {
        assert(base + ids@.take(0).map_values(
            |id: u16| Notice::PublishFailed { packet_id: id, error: MosqError::ConnLost },
        ) =~= base);
    }
    while i < n
        invariant
            i <= n,
            n == ids@.len(),
            notices@ == base + ids@.take(i as int).map_values(
                |id: u16| Notice::PublishFailed { packet_id: id, error: MosqError::ConnLost },
            ),
        decreases n - i,
    {
        notices.push(Notice::PublishFailed { packet_id: ids[i], error: MosqError::ConnLost });
        proof {
            assert(notices@ =~= base + ids@.take(i as int + 1).map_values(
                |id: u16| Notice::PublishFailed { packet_id: id, error: MosqError::ConnLost },
            ));
        }
        i = i + 1;
    }
    proof {
        assert(ids@.take(n as int) =~= ids@);
    }
}

} // verus!
