use mqtt_core::codec::{decode, encode, DecodeResult, MalformedKind, Packet};
use mqtt_core::qos::QoS;
use mqtt_core::wire::{decode_remlen, RemLen};

fn round_trips(p: Packet) {
    let bytes = encode(&p);
    match decode(bytes.as_slice()) {
        DecodeResult::Decoded(q, consumed) => {
            assert_eq!(q, p);
            assert_eq!(consumed, bytes.len());
        }
        other => panic!("expected a decoded packet, got {:?}", other),
    }
}

#[test]
fn it_works() {
    assert_eq!(2 + 2, 4);
}

#[test]
fn round_trip_every_packet_type() {
    round_trips(Packet::Connect {
        client_id: b"client-1".to_vec(),
        keepalive: 60,
        clean_session: true,
    });
    round_trips(Packet::Connack {
        session_present: true,
        return_code: 0,
    });
    round_trips(Packet::Publish {
        dup: false,
        qos: QoS::AtMostOnce,
        retain: false,
        topic: b"a/b".to_vec(),
        packet_id: 0,
        payload: b"hello".to_vec(),
    });
    round_trips(Packet::Publish {
        dup: true,
        qos: QoS::ExactlyOnce,
        retain: true,
        topic: b"a/b/c".to_vec(),
        packet_id: 700,
        payload: Vec::new(),
    });
    round_trips(Packet::Puback { packet_id: 5 });
    round_trips(Packet::Pubrec { packet_id: 7 });
    round_trips(Packet::Pubrel { packet_id: 7 });
    round_trips(Packet::Pubcomp { packet_id: 7 });
    round_trips(Packet::Subscribe {
        packet_id: 11,
        filter: b"sensors/#".to_vec(),
        qos: QoS::AtLeastOnce,
    });
    round_trips(Packet::Suback {
        packet_id: 11,
        return_code: 1,
    });
    round_trips(Packet::Pingreq);
    round_trips(Packet::Pingresp);
    round_trips(Packet::Disconnect);
}

#[test]
fn round_trip_large_payload_uses_two_byte_remaining_length() {
    let p = Packet::Publish {
        dup: false,
        qos: QoS::AtLeastOnce,
        retain: false,
        topic: b"t".to_vec(),
        packet_id: 9,
        payload: vec![0xAB; 300],
    };
    let bytes = encode(&p);
    // header byte, two remaining-length bytes, then the body
    assert!(bytes[1] >= 0x80);
    assert!(bytes[2] < 0x80);
    round_trips(p);
}

#[test]
fn exact_bytes_of_known_packets() {
    assert_eq!(encode(&Packet::Pingreq), vec![0xC0, 0x00]);
    assert_eq!(encode(&Packet::Pingresp), vec![0xD0, 0x00]);
    assert_eq!(encode(&Packet::Disconnect), vec![0xE0, 0x00]);
    assert_eq!(encode(&Packet::Puback { packet_id: 0x0102 }), vec![0x40, 2, 1, 2]);
    assert_eq!(encode(&Packet::Pubrel { packet_id: 7 }), vec![0x62, 2, 0, 7]);
    let p = Packet::Publish {
        dup: false,
        qos: QoS::AtMostOnce,
        retain: false,
        topic: b"a".to_vec(),
        packet_id: 0,
        payload: vec![1, 2, 3],
    };
    assert_eq!(encode(&p), vec![0x30, 6, 0x00, 0x01, 0x61, 1, 2, 3]);
    let c = Packet::Connect {
        client_id: b"c".to_vec(),
        keepalive: 60,
        clean_session: true,
    };
    assert_eq!(
        encode(&c),
        vec![0x10, 13, 0, 4, 77, 81, 84, 84, 4, 2, 0, 60, 0, 1, 99]
    );
}

#[test]
fn truncated_buffers_return_incomplete() {
    let p = Packet::Publish {
        dup: false,
        qos: QoS::AtLeastOnce,
        retain: true,
        topic: b"room/1".to_vec(),
        packet_id: 42,
        payload: b"payload-bytes".to_vec(),
    };
    let bytes = encode(&p);
    for cut in 0..bytes.len() {
        match decode(&bytes[..cut]) {
            DecodeResult::Incomplete => {}
            other => panic!("prefix of {} bytes decoded as {:?}", cut, other),
        }
    }
}

#[test]
fn remaining_length_overrun_is_malformed() {
    // a valid PUBLISH control byte followed by four continuation bytes
    let bytes = [0x30u8, 0x80, 0x80, 0x80, 0x80, 0x01];
    match decode(&bytes) {
        DecodeResult::Malformed(k) => assert_eq!(k, MalformedKind::RemainingLengthTooLarge),
        other => panic!("expected malformed, got {:?}", other),
    }
}

#[test]
fn three_continuation_bytes_are_still_incomplete() {
    let bytes = [0x30u8, 0x80, 0x80, 0x80];
    assert!(matches!(decode(&bytes), DecodeResult::Incomplete));
}

#[test]
fn remaining_length_field_values() {
    assert!(matches!(
        decode_remlen(&[0x00], 0),
        RemLen::Value { value: 0, width: 1 }
    ));
    assert!(matches!(
        decode_remlen(&[0x7F], 0),
        RemLen::Value { value: 127, width: 1 }
    ));
    assert!(matches!(
        decode_remlen(&[0xC8, 0x01], 0),
        RemLen::Value { value: 200, width: 2 }
    ));
    assert!(matches!(
        decode_remlen(&[0xFF, 0xFF, 0xFF, 0x7F], 0),
        RemLen::Value {
            value: 268435455,
            width: 4
        }
    ));
    assert!(matches!(decode_remlen(&[0x80], 0), RemLen::Incomplete));
    assert!(matches!(
        decode_remlen(&[0x80, 0x80, 0x80, 0x80], 0),
        RemLen::Overflow
    ));
}

#[test]
fn invalid_control_bytes_are_malformed() {
    // type 0 and type 15 do not exist; PUBLISH with QoS 3 is illegal;
    // PUBREL must carry flags 0b0010
    for h in [0x00u8, 0xF0, 0x36, 0x60] {
        match decode(&[h, 0x00]) {
            DecodeResult::Malformed(k) => assert_eq!(k, MalformedKind::InvalidControlByte),
            other => panic!("header {:#x} decoded as {:?}", h, other),
        }
    }
}

#[test]
fn invalid_utf8_topic_is_malformed() {
    // PUBLISH, remaining length 4: topic length 2, bytes 0xC3 0x28 (a
    // bad continuation), no payload
    let bytes = [0x30u8, 4, 0, 2, 0xC3, 0x28];
    match decode(&bytes) {
        DecodeResult::Malformed(k) => assert_eq!(k, MalformedKind::InvalidUtf8),
        other => panic!("expected malformed, got {:?}", other),
    }
    // the same topic bytes as valid UTF-8 pass: 0xC3 0xA9 is é
    let ok = [0x30u8, 4, 0, 2, 0xC3, 0xA9];
    assert!(matches!(decode(&ok), DecodeResult::Decoded(_, 6)));
}

#[test]
fn empty_topic_is_malformed() {
    let bytes = [0x30u8, 2, 0, 0];
    match decode(&bytes) {
        DecodeResult::Malformed(k) => assert_eq!(k, MalformedKind::InvalidTopic),
        other => panic!("expected malformed, got {:?}", other),
    }
}

#[test]
fn zero_packet_id_is_malformed_where_one_is_required() {
    let bytes = [0x40u8, 2, 0, 0];
    match decode(&bytes) {
        DecodeResult::Malformed(k) => assert_eq!(k, MalformedKind::InvalidPacketId),
        other => panic!("expected malformed, got {:?}", other),
    }
}

#[test]
fn decode_leaves_trailing_bytes_for_the_next_packet() {
    let mut bytes = encode(&Packet::Pingresp);
    bytes.extend_from_slice(&encode(&Packet::Disconnect));
    match decode(bytes.as_slice()) {
        DecodeResult::Decoded(p, consumed) => {
            assert_eq!(p, Packet::Pingresp);
            assert_eq!(consumed, 2);
        }
        other => panic!("expected a decoded packet, got {:?}", other),
    }
}
