use mqtt_core::codec::{decode, DecodeResult, Packet};
use mqtt_core::error::MosqError;
use mqtt_core::qos::QoS;
use mqtt_core::session::{Connection, ConnectionState, Notice};

fn fresh() -> Connection {
    Connection::new(b"broker.local".to_vec(), 1883, b"client-1".to_vec(), true, 1000).unwrap()
}

/// Drives a fresh connection through an accepted CONNACK.
fn connected() -> Connection {
    let mut c = fresh();
    let connect_bytes = c.connect(60, 0).unwrap();
    assert_eq!(connect_bytes[0], 0x10);
    c.feed_bytes(&[0x20, 2, 0, 0]);
    let polled = c.poll_packet();
    let p = polled.packet.unwrap();
    let out = c.handle_packet(&p, 0);
    assert!(out.reply.is_none());
    assert_eq!(
        out.notices,
        vec![Notice::ConnectAccepted {
            session_present: false
        }]
    );
    assert_eq!(c.state, ConnectionState::Connected);
    c
}

#[test]
fn client_id_must_be_a_legal_string_field() {
    let bad = Connection::new(b"h".to_vec(), 1883, vec![0xFF, 0xFE], true, 1000);
    assert_eq!(bad.err(), Some(MosqError::Inval));
}

#[test]
fn publish_and_subscribe_fail_fast_without_a_connection() {
    let mut c = fresh();
    let r = c.publish(b"t", b"x", QoS::AtLeastOnce, false, 0);
    assert_eq!(r.err(), Some(MosqError::NoConn));
    let r = c.subscribe(b"t/#", QoS::AtMostOnce);
    assert_eq!(r.err(), Some(MosqError::NoConn));
    assert_eq!(c.state, ConnectionState::Disconnected);

    // the same while the handshake is still under way
    c.connect(60, 0).unwrap();
    let r = c.publish(b"t", b"x", QoS::AtLeastOnce, false, 0);
    assert_eq!(r.err(), Some(MosqError::NoConn));
    assert_eq!(c.state, ConnectionState::Connecting);
}

#[test]
fn connect_twice_reports_pending() {
    let mut c = fresh();
    c.connect(60, 0).unwrap();
    assert_eq!(c.connect(60, 0).err(), Some(MosqError::ConnPending));
}

#[test]
fn unanswered_connect_times_out_to_disconnected() {
    let mut c = fresh();
    c.connect(60, 0).unwrap();
    let waiting = c.check_keepalive(29999);
    assert!(waiting.reply.is_none() && waiting.notices.is_empty());
    assert_eq!(c.state, ConnectionState::Connecting);
    let out = c.check_keepalive(30000);
    assert_eq!(out.notices, vec![Notice::ConnectTimedOut]);
    assert_eq!(c.state, ConnectionState::Disconnected);
}

#[test]
fn connack_refusal_returns_to_disconnected() {
    let mut c = fresh();
    c.connect(60, 0).unwrap();
    let out = c.handle_packet(
        &Packet::Connack {
            session_present: false,
            return_code: 5,
        },
        0,
    );
    assert_eq!(out.notices, vec![Notice::ConnectRefused { return_code: 5 }]);
    assert_eq!(c.state, ConnectionState::Disconnected);
}

#[test]
fn qos0_publish_is_fire_and_forget() {
    let mut c = connected();
    let out = c.publish(b"t", b"hi", QoS::AtMostOnce, false, 0).unwrap();
    assert_eq!(out.packet_id, 0);
    assert_eq!(out.bytes, vec![0x30, 5, 0, 1, 116, 104, 105]);
    assert_eq!(c.tracker.entries.len(), 0);
}

#[test]
fn qos1_publish_completes_on_matching_puback() {
    let mut c = connected();
    let out = c.publish(b"t", b"hello", QoS::AtLeastOnce, false, 0).unwrap();
    assert_eq!(out.packet_id, 1);
    assert_eq!(
        out.bytes,
        vec![0x32, 10, 0, 1, 116, 0, 1, 104, 101, 108, 108, 111]
    );
    assert!(c.tracker.contains_id(1));

    // a stale acknowledgment for an unknown identifier is ignored
    let out2 = c.handle_packet(&Packet::Puback { packet_id: 9 }, 0);
    assert!(out2.notices.is_empty());
    assert!(c.tracker.contains_id(1));

    let out3 = c.handle_packet(&Packet::Puback { packet_id: 1 }, 0);
    assert_eq!(out3.notices, vec![Notice::PublishCompleted { packet_id: 1 }]);
    assert!(!c.tracker.contains_id(1));
    assert_eq!(c.tracker.entries.len(), 0);
}

#[test]
fn qos2_publish_runs_the_full_handshake() {
    let mut c = connected();
    // consume identifiers 1..=6 so the next publish takes 7
    for _ in 0..6 {
        c.publish(b"t", b"x", QoS::AtLeastOnce, false, 0).unwrap();
    }
    let out = c.publish(b"t", b"x", QoS::ExactlyOnce, false, 0).unwrap();
    assert_eq!(out.packet_id, 7);

    let rec = c.handle_packet(&Packet::Pubrec { packet_id: 7 }, 0);
    assert_eq!(rec.reply, Some(vec![0x62, 2, 0, 7]));
    assert!(rec.notices.is_empty());
    assert!(c.tracker.contains_id(7));

    let comp = c.handle_packet(&Packet::Pubcomp { packet_id: 7 }, 0);
    assert!(comp.reply.is_none());
    assert_eq!(comp.notices, vec![Notice::PublishCompleted { packet_id: 7 }]);
    assert!(!c.tracker.contains_id(7));
}

#[test]
fn packet_identifiers_are_never_shared() {
    let mut c = connected();
    let a = c.publish(b"t", b"x", QoS::AtLeastOnce, false, 0).unwrap();
    let b = c.publish(b"t", b"y", QoS::ExactlyOnce, false, 0).unwrap();
    let d = c.publish(b"t", b"z", QoS::AtLeastOnce, false, 0).unwrap();
    assert_ne!(a.packet_id, b.packet_id);
    assert_ne!(a.packet_id, d.packet_id);
    assert_ne!(b.packet_id, d.packet_id);
}

#[test]
fn oversized_payload_is_rejected_before_any_io() {
    let mut c = connected();
    // QoS 1 overhead for a one-byte topic is 2 + 1 + 2 bytes, so the
    // largest payload the remaining-length field can carry is
    // 268435450 bytes: one byte more is rejected up front
    let r = c.publish(b"t", &vec![0u8; 268435451], QoS::AtLeastOnce, false, 0);
    assert_eq!(r.err(), Some(MosqError::PayloadSize));
    assert_eq!(c.state, ConnectionState::Connected);
    assert_eq!(c.tracker.entries.len(), 0);
}

#[test]
fn missed_pingresp_loses_the_connection_and_fails_pending_publishes() {
    let mut c = connected();
    let out = c.publish(b"t", b"x", QoS::AtLeastOnce, false, 0).unwrap();
    let id = out.packet_id;

    // keepalive 60 s: the first ping is due at 60000 ms
    let idle = c.check_keepalive(59999);
    assert!(idle.reply.is_none());
    let ping = c.check_keepalive(60000);
    assert_eq!(ping.reply, Some(vec![0xC0, 0x00]));

    // no PINGRESP within 1.5x keepalive (90 s) after the PINGREQ
    let still = c.check_keepalive(149999);
    assert!(still.reply.is_none());
    assert_eq!(c.state, ConnectionState::Connected);
    let lost = c.check_keepalive(150000);
    assert!(lost.reply.is_none());
    assert_eq!(
        lost.notices,
        vec![
            Notice::PublishFailed {
                packet_id: id,
                error: MosqError::ConnLost
            },
            Notice::ConnectionLost {
                error: MosqError::ConnLost
            },
        ]
    );
    assert_eq!(c.state, ConnectionState::Lost);
    assert_eq!(c.tracker.entries.len(), 0);
}

#[test]
fn pingresp_settles_the_keepalive() {
    let mut c = connected();
    c.check_keepalive(60000);
    let out = c.handle_packet(&Packet::Pingresp, 61000);
    assert!(out.reply.is_none());
    assert!(!c.ping_outstanding);
    // the next ping is due one keepalive after the response
    assert!(c.check_keepalive(120999).reply.is_none());
    assert!(c.check_keepalive(121000).reply.is_some());
}

#[test]
fn malformed_input_loses_the_connection() {
    let mut c = connected();
    let out = c.publish(b"t", b"x", QoS::AtLeastOnce, false, 0).unwrap();
    c.feed_bytes(&[0x00, 0x00]);
    let polled = c.poll_packet();
    assert!(polled.packet.is_none());
    assert_eq!(
        polled.notices,
        vec![
            Notice::PublishFailed {
                packet_id: out.packet_id,
                error: MosqError::ConnLost
            },
            Notice::ConnectionLost {
                error: MosqError::Protocol
            },
        ]
    );
    assert_eq!(c.state, ConnectionState::Lost);
}

#[test]
fn partial_reads_resume_without_consuming() {
    let mut c = connected();
    c.feed_bytes(&[0xD0]);
    assert!(c.poll_packet().packet.is_none());
    assert_eq!(c.recv_buf.len(), 1);
    c.feed_bytes(&[0x00]);
    let polled = c.poll_packet();
    assert_eq!(polled.packet, Some(Packet::Pingresp));
    assert_eq!(c.recv_buf.len(), 0);
}

#[test]
fn inbound_publishes_are_delivered_and_acknowledged() {
    let mut c = connected();
    let inbound = Packet::Publish {
        dup: false,
        qos: QoS::AtLeastOnce,
        retain: false,
        topic: b"news".to_vec(),
        packet_id: 33,
        payload: b"data".to_vec(),
    };
    let out = c.handle_packet(&inbound, 0);
    assert_eq!(out.reply, Some(vec![0x40, 2, 0, 33]));
    assert_eq!(
        out.notices,
        vec![Notice::MessageReceived {
            topic: b"news".to_vec(),
            payload: b"data".to_vec(),
            qos: QoS::AtLeastOnce,
            retain: false
        }]
    );
}

#[test]
fn subscribe_round_trip_with_suback() {
    let mut c = connected();
    let sub = c.subscribe(b"sensors/#", QoS::AtLeastOnce).unwrap();
    assert_eq!(sub.packet_id, 1);
    match decode(sub.bytes.as_slice()) {
        DecodeResult::Decoded(p, _) => assert_eq!(
            p,
            Packet::Subscribe {
                packet_id: 1,
                filter: b"sensors/#".to_vec(),
                qos: QoS::AtLeastOnce
            }
        ),
        other => panic!("subscribe bytes decoded as {:?}", other),
    }
    let out = c.handle_packet(
        &Packet::Suback {
            packet_id: 1,
            return_code: 1,
        },
        0,
    );
    assert_eq!(
        out.notices,
        vec![Notice::SubscribeAcknowledged {
            packet_id: 1,
            return_code: 1
        }]
    );
}

#[test]
fn disconnect_is_graceful() {
    let mut c = connected();
    let bytes = c.disconnect().unwrap();
    assert_eq!(bytes, vec![0xE0, 0x00]);
    assert_eq!(c.state, ConnectionState::Disconnecting);
    let notices = c.on_socket_error();
    assert!(notices.is_empty());
    assert_eq!(c.state, ConnectionState::Disconnected);
    assert_eq!(c.disconnect().err(), Some(MosqError::NoConn));
}

#[test]
fn socket_error_fails_pending_publishes() {
    let mut c = connected();
    let out = c.publish(b"t", b"x", QoS::ExactlyOnce, false, 0).unwrap();
    let notices = c.on_socket_error();
    assert_eq!(
        notices,
        vec![
            Notice::PublishFailed {
                packet_id: out.packet_id,
                error: MosqError::ConnLost
            },
            Notice::ConnectionLost {
                error: MosqError::ConnLost
            },
        ]
    );
    assert_eq!(c.state, ConnectionState::Lost);
}

#[test]
fn retransmission_resends_with_the_duplicate_flag() {
    let mut c = connected();
    let out = c.publish(b"t", b"x", QoS::AtLeastOnce, false, 0).unwrap();
    // the retry interval is 1000 ms
    assert!(c.retransmit_due(999).is_empty());
    let resends = c.retransmit_due(1000);
    assert_eq!(resends.len(), 1);
    match decode(resends[0].as_slice()) {
        DecodeResult::Decoded(
            Packet::Publish {
                dup,
                qos,
                packet_id,
                ..
            },
            _,
        ) => {
            assert!(dup);
            assert_eq!(qos, QoS::AtLeastOnce);
            assert_eq!(packet_id, out.packet_id);
        }
        other => panic!("resend decoded as {:?}", other),
    }
    // rescheduled one interval out
    assert!(c.retransmit_due(1999).is_empty());
    assert_eq!(c.retransmit_due(2000).len(), 1);
}

#[test]
fn retransmission_resends_pubrel_after_pubrec() {
    let mut c = connected();
    let out = c.publish(b"t", b"x", QoS::ExactlyOnce, false, 0).unwrap();
    c.handle_packet(
        &Packet::Pubrec {
            packet_id: out.packet_id,
        },
        500,
    );
    let resends = c.retransmit_due(1000);
    assert_eq!(resends.len(), 1);
    assert_eq!(resends[0], vec![0x62, 2, 0, 1]);
}
