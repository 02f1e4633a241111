//! Wire codec: round trips, golden bytes, and every rejection path.

use fastproto::error::ProtocolError;
use fastproto::packet::{Packet, PacketFlags, PacketType};
use fastproto::{MAX_PACKET_SIZE, PROTOCOL_VERSION};

#[test]
fn test_packet_serialization() {
    let packet = Packet::new_data(b"/test".to_vec(), b"hello world".to_vec(), 42);

    let serialized = packet.serialize().unwrap();
    let deserialized = Packet::deserialize(&serialized).unwrap();

    assert_eq!(packet.version, deserialized.version);
    assert_eq!(packet.packet_type, deserialized.packet_type);
    assert_eq!(packet.sequence, deserialized.sequence);
    assert_eq!(packet.route, deserialized.route);
    assert_eq!(packet.payload, deserialized.payload);
}

#[test]
fn round_trip_keeps_every_field_and_flag() {
    for &(encrypted, compressed, requires_ack) in &[
        (false, false, false),
        (true, false, false),
        (false, true, false),
        (false, false, true),
        (true, true, true),
    ] {
        let packet = Packet {
            version: PROTOCOL_VERSION,
            packet_type: PacketType::Data,
            flags: PacketFlags {
                encrypted,
                compressed,
                requires_ack,
            },
            sequence: 0xdead_beef,
            timestamp: 0x0123_4567_89ab_cdef,
            route: b"/r".to_vec(),
            payload: vec![0u8, 1, 2, 255],
        };
        let bytes = packet.serialize().unwrap();
        let back = Packet::deserialize(&bytes).unwrap();
        assert_eq!(back.version, PROTOCOL_VERSION);
        assert_eq!(back.packet_type, PacketType::Data);
        assert_eq!(back.flags.encrypted, encrypted);
        assert_eq!(back.flags.compressed, compressed);
        assert_eq!(back.flags.requires_ack, requires_ack);
        assert_eq!(back.sequence, 0xdead_beef);
        assert_eq!(back.timestamp, 0x0123_4567_89ab_cdef);
        assert_eq!(back.route, b"/r".to_vec());
        assert_eq!(back.payload, vec![0u8, 1, 2, 255]);
    }
}

#[test]
fn serialization_is_byte_exact_big_endian() {
    let packet = Packet::new_data_at(b"/a".to_vec(), b"xy".to_vec(), 0x01020304, 0x05060708090a0b0c);
    let bytes = packet.serialize().unwrap();
    let expected: Vec<u8> = vec![
        1, // version
        0, // type Data
        0b100, // flags: requires_ack only
        1, 2, 3, 4, // sequence, big-endian
        5, 6, 7, 8, 9, 10, 11, 12, // timestamp, big-endian
        0, 2, // route length
        b'/', b'a', // route
        0, 0, 0, 2, // payload length
        b'x', b'y', // payload
    ];
    assert_eq!(bytes, expected);
}

#[test]
fn empty_route_and_payload_round_trip() {
    let packet = Packet::new_ack_at(7, 9);
    let bytes = packet.serialize().unwrap();
    assert_eq!(bytes.len(), 21);
    let back = Packet::deserialize(&bytes).unwrap();
    assert_eq!(back.packet_type, PacketType::Ack);
    assert_eq!(back.sequence, 7);
    assert_eq!(back.route.len(), 0);
    assert_eq!(back.payload.len(), 0);
}

#[test]
fn every_wrong_version_is_a_version_mismatch() {
    let packet = Packet::new_data_at(b"/v".to_vec(), b"p".to_vec(), 1, 2);
    let mut bytes = packet.serialize().unwrap();
    for version in 0..=255u8 {
        if version == PROTOCOL_VERSION {
            continue;
        }
        bytes[0] = version;
        match Packet::deserialize(&bytes) {
            Err(ProtocolError::VersionMismatch { expected, actual }) => {
                assert_eq!(expected, PROTOCOL_VERSION);
                assert_eq!(actual, version);
            }
            other => panic!("version {} gave {:?}", version, other),
        }
    }
}

#[test]
fn every_unknown_type_byte_is_invalid() {
    let packet = Packet::new_data_at(b"/t".to_vec(), b"p".to_vec(), 1, 2);
    let mut bytes = packet.serialize().unwrap();
    for type_byte in 8..=255u8 {
        bytes[1] = type_byte;
        match Packet::deserialize(&bytes) {
            Err(ProtocolError::InvalidPacket(_)) => {}
            other => panic!("type byte {} gave {:?}", type_byte, other),
        }
    }
}

#[test]
fn reserved_flag_bits_are_rejected() {
    let packet = Packet::new_data_at(b"/f".to_vec(), b"p".to_vec(), 1, 2);
    let mut bytes = packet.serialize().unwrap();
    bytes[2] |= 0b1000;
    assert!(matches!(
        Packet::deserialize(&bytes),
        Err(ProtocolError::InvalidPacket(_))
    ));
}

#[test]
fn every_truncation_is_invalid() {
    let packet = Packet::new_data_at(b"/trunc".to_vec(), b"payload bytes".to_vec(), 3, 4);
    let bytes = packet.serialize().unwrap();
    for keep in 0..bytes.len() {
        match Packet::deserialize(&bytes[..keep]) {
            Err(ProtocolError::InvalidPacket(_)) => {}
            other => panic!("truncation to {} bytes gave {:?}", keep, other),
        }
    }
}

#[test]
fn invalid_route_utf8_is_rejected() {
    let packet = Packet::new_data_at(vec![0xff, 0xfe], b"p".to_vec(), 1, 2);
    let bytes = packet.serialize().unwrap();
    assert!(matches!(
        Packet::deserialize(&bytes),
        Err(ProtocolError::InvalidPacket(_))
    ));
}

#[test]
fn multibyte_utf8_route_round_trips() {
    let route = "/héllo/世界/🚀".as_bytes().to_vec();
    let packet = Packet::new_data_at(route.clone(), b"p".to_vec(), 1, 2);
    let bytes = packet.serialize().unwrap();
    let back = Packet::deserialize(&bytes).unwrap();
    assert_eq!(back.route, route);
}

#[test]
fn oversized_route_fails_to_serialize() {
    let packet = Packet::new_data_at(vec![b'a'; 65536], b"p".to_vec(), 1, 2);
    assert!(matches!(
        packet.serialize(),
        Err(ProtocolError::InvalidPacket(_))
    ));
}

#[test]
fn trailing_bytes_after_payload_are_ignored() {
    let packet = Packet::new_data_at(b"/x".to_vec(), b"body".to_vec(), 1, 2);
    let mut bytes = packet.serialize().unwrap();
    bytes.extend_from_slice(b"garbage");
    let back = Packet::deserialize(&bytes).unwrap();
    assert_eq!(back.payload, b"body".to_vec());
}

#[test]
fn largest_datagram_constant_is_udp_limit() {
    assert_eq!(MAX_PACKET_SIZE, 65507);
    // a packet that fills the limit exactly still round-trips
    let payload = vec![7u8; MAX_PACKET_SIZE - 21];
    let packet = Packet::new_data_at(Vec::new(), payload.clone(), 1, 2);
    let bytes = packet.serialize().unwrap();
    assert_eq!(bytes.len(), MAX_PACKET_SIZE);
    let back = Packet::deserialize(&bytes).unwrap();
    assert_eq!(back.payload, payload);
}

#[test]
fn flag_bytes_encode_the_documented_bits() {
    let flags = PacketFlags {
        encrypted: true,
        compressed: false,
        requires_ack: true,
    };
    assert_eq!(flags.to_byte(), 0b101);
    let back = PacketFlags::from_byte(0b101);
    assert!(back.encrypted && !back.compressed && back.requires_ack);
    assert_eq!(PacketFlags::default().to_byte(), 0);
}

#[test]
fn packet_type_bytes_round_trip() {
    let all = [
        (PacketType::Data, 0u8),
        (PacketType::Ack, 1),
        (PacketType::Nack, 2),
        (PacketType::Heartbeat, 3),
        (PacketType::Connect, 4),
        (PacketType::ConnectAck, 5),
        (PacketType::Disconnect, 6),
        (PacketType::Batch, 7),
    ];
    for (t, b) in all {
        assert_eq!(t.to_byte(), b);
        assert_eq!(PacketType::from_byte(b).unwrap(), t);
    }
    assert!(PacketType::from_byte(8).is_err());
}
