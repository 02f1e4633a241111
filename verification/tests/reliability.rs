//! Reliable delivery: retransmission budget, single-loss recovery, sequence
//! allocation, and negative acknowledgments.

use fastproto::packet::{Packet, PacketType};
use fastproto::transport::{Addr, Transport, TransportConfig};
use fastproto::{DEFAULT_ACK_TIMEOUT_MS, MAX_RETRANSMIT_ATTEMPTS};

fn test_config() -> TransportConfig {
    TransportConfig {
        ack_timeout_ms: 100,
        max_retransmit: 3,
        heartbeat_interval_ms: 30000,
        enable_encryption: false,
        enable_compression: false,
    }
}

fn peer() -> Addr {
    Addr {
        ip: 0x7f00_0001,
        port: 9000,
        v6: false,
    }
}

#[test]
fn default_config_matches_the_protocol_constants() {
    let config = TransportConfig::default();
    assert_eq!(config.ack_timeout_ms, DEFAULT_ACK_TIMEOUT_MS);
    assert_eq!(config.max_retransmit, MAX_RETRANSMIT_ATTEMPTS);
    assert_eq!(config.heartbeat_interval_ms, 30_000);
    assert!(!config.enable_encryption);
    assert!(!config.enable_compression);
}

#[test]
fn total_ack_loss_emits_exactly_one_plus_max_retransmit_copies() {
    let mut transport = Transport::new(test_config());
    let (seq, wire) = transport
        .send_reliable(b"/r".to_vec(), b"payload".to_vec(), peer(), 0)
        .unwrap();
    let mut copies = 1; // the original transmission
    let mut now = 0u64;
    let mut sweeps_after_eviction = 0;
    while sweeps_after_eviction < 3 {
        now += 150;
        let emits = transport.sweep_retransmissions(now);
        for (bytes, dest) in &emits {
            assert_eq!(bytes, &wire, "every retransmission is byte-identical");
            assert_eq!(*dest, peer());
            copies += 1;
        }
        if !transport.has_pending(seq) && emits.is_empty() {
            sweeps_after_eviction += 1;
        }
    }
    assert_eq!(copies, 1 + 3);
    assert_eq!(transport.pending_len(), 0, "the pending entry was evicted");
}

#[test]
fn unexpired_entries_are_left_alone() {
    let mut transport = Transport::new(test_config());
    let (seq, _) = transport
        .send_reliable(b"/r".to_vec(), b"p".to_vec(), peer(), 1000)
        .unwrap();
    // 100 ms timeout not yet over at t = 1100
    let emits = transport.sweep_retransmissions(1100);
    assert!(emits.is_empty());
    assert!(transport.has_pending(seq));
}

#[test]
fn single_loss_is_recovered_by_one_retransmission_then_ack_evicts() {
    let sender_config = test_config();
    let mut sender = Transport::new(sender_config);
    let receiver = Transport::new(test_config());

    let (seq, first_copy) = sender
        .send_reliable(b"/echo".to_vec(), b"hello".to_vec(), peer(), 0)
        .unwrap();
    // the first copy is lost in transit; the sweep re-emits identical bytes
    let emits = sender.sweep_retransmissions(200);
    assert_eq!(emits.len(), 1);
    assert_eq!(emits[0].0, first_copy);

    // the second copy arrives and the receiver auto-acknowledges it
    let (packet, ack) = receiver.process_incoming(&emits[0].0, 200).unwrap();
    assert_eq!(packet.packet_type, PacketType::Data);
    assert_eq!(packet.sequence, seq);
    assert_eq!(packet.payload, b"hello".to_vec());
    let ack_bytes = ack.expect("a data packet demanding an ack yields one");

    // the ack reaches the sender and evicts the pending entry
    let (ack_packet, no_ack) = sender.process_incoming(&ack_bytes, 201).unwrap();
    assert_eq!(ack_packet.packet_type, PacketType::Ack);
    assert_eq!(ack_packet.sequence, seq);
    assert!(no_ack.is_none(), "acknowledgments are not themselves acked");
    sender.handle_ack(ack_packet.sequence);
    assert!(!sender.has_pending(seq));
    assert_eq!(sender.pending_len(), 0);

    // the core does not deduplicate: a duplicate data packet reaches the
    // application again
    let (dup, dup_ack) = receiver.process_incoming(&emits[0].0, 300).unwrap();
    assert_eq!(dup.payload, b"hello".to_vec());
    assert!(dup_ack.is_some());
}

#[test]
fn sequences_are_allocated_in_order_and_pending_entries_stay_distinct() {
    let mut transport = Transport::new(test_config());
    let (s0, _) = transport
        .send_reliable(b"/a".to_vec(), b"1".to_vec(), peer(), 0)
        .unwrap();
    let (s1, _) = transport
        .send_reliable(b"/b".to_vec(), b"2".to_vec(), peer(), 0)
        .unwrap();
    let (s2, _) = transport
        .send_reliable(b"/c".to_vec(), b"3".to_vec(), peer(), 0)
        .unwrap();
    assert_eq!((s0, s1, s2), (0, 1, 2));
    assert_eq!(transport.pending_len(), 3);
    assert!(transport.has_pending(s0) && transport.has_pending(s1) && transport.has_pending(s2));
    transport.handle_ack(s1);
    assert_eq!(transport.pending_len(), 2);
    assert!(transport.has_pending(s0) && !transport.has_pending(s1) && transport.has_pending(s2));
}

#[test]
fn a_sweep_touches_only_the_entries_whose_timer_ran_out() {
    let mut transport = Transport::new(test_config());
    let (old_seq, old_wire) = transport
        .send_reliable(b"/old".to_vec(), b"1".to_vec(), peer(), 0)
        .unwrap();
    let (new_seq, _) = transport
        .send_reliable(b"/new".to_vec(), b"2".to_vec(), peer(), 190)
        .unwrap();
    // at t = 200 only the first entry's 100 ms timer has run out
    let emits = transport.sweep_retransmissions(200);
    assert_eq!(emits.len(), 1);
    assert_eq!(emits[0].0, old_wire);
    assert!(transport.has_pending(old_seq) && transport.has_pending(new_seq));
}

#[test]
fn unknown_ack_is_silently_ignored() {
    let mut transport = Transport::new(test_config());
    let (seq, _) = transport
        .send_reliable(b"/r".to_vec(), b"p".to_vec(), peer(), 0)
        .unwrap();
    transport.handle_ack(9999);
    transport.handle_ack(9999);
    assert!(transport.has_pending(seq));
}

#[test]
fn nack_resets_the_timer_and_spends_an_attempt() {
    let mut transport = Transport::new(test_config());
    let (seq, wire) = transport
        .send_reliable(b"/r".to_vec(), b"p".to_vec(), peer(), 0)
        .unwrap();
    // the peer reports the packet missing at t = 10
    transport.handle_nack(seq, 10);
    // the refreshed timer is not over at t = 105 (10 + 100 timeout)
    assert!(transport.sweep_retransmissions(105).is_empty());
    // but it is at t = 150, and the same bytes go out again
    let emits = transport.sweep_retransmissions(150);
    assert_eq!(emits.len(), 1);
    assert_eq!(emits[0].0, wire);
    // the nack and the sweep spent two of three attempts; two more expiries
    // exhaust the budget and evict
    let emits = transport.sweep_retransmissions(300);
    assert_eq!(emits.len(), 1);
    assert!(transport.sweep_retransmissions(450).is_empty());
    assert_eq!(transport.pending_len(), 0);
}

#[test]
fn nack_on_an_exhausted_entry_still_resets_the_timer() {
    let mut transport = Transport::new(test_config());
    let (seq, _) = transport
        .send_reliable(b"/r".to_vec(), b"p".to_vec(), peer(), 0)
        .unwrap();
    // three expired sweeps spend the whole retransmission budget
    assert_eq!(transport.sweep_retransmissions(150).len(), 1);
    assert_eq!(transport.sweep_retransmissions(300).len(), 1);
    assert_eq!(transport.sweep_retransmissions(450).len(), 1);
    assert!(transport.has_pending(seq));
    // a nack still spends an attempt and resets the timer, deferring the
    // eviction past the fresh timeout
    transport.handle_nack(seq, 500);
    assert!(transport.sweep_retransmissions(550).is_empty());
    assert!(transport.has_pending(seq));
    // once the fresh timer runs out, the exhausted entry is evicted, not
    // re-emitted
    assert!(transport.sweep_retransmissions(700).is_empty());
    assert_eq!(transport.pending_len(), 0);
}

#[test]
fn reply_reuses_the_request_sequence_and_is_tracked() {
    let mut server = Transport::new(test_config());
    let reply_wire = server
        .send_reply(b"/echo".to_vec(), b"resp".to_vec(), peer(), 41, 0)
        .unwrap();
    let reply = Packet::deserialize(&reply_wire).unwrap();
    assert_eq!(reply.sequence, 41);
    assert_eq!(reply.packet_type, PacketType::Data);
    assert!(reply.flags.requires_ack);
    assert!(server.has_pending(41));
}

#[test]
fn heartbeat_and_connect_packets_are_plain_control_packets() {
    let heartbeat = Packet::new_heartbeat();
    assert_eq!(heartbeat.packet_type, PacketType::Heartbeat);
    assert!(!heartbeat.flags.requires_ack);
    let connect = Packet::new_connect();
    assert_eq!(connect.packet_type, PacketType::Connect);
    let connect_ack = Packet::new_connect_ack();
    assert_eq!(connect_ack.packet_type, PacketType::ConnectAck);
    assert_eq!(connect_ack.timestamp, 0);
    assert_eq!(connect_ack.sequence, 0);
    assert!(connect_ack.route.is_empty() && connect_ack.payload.is_empty());
}
