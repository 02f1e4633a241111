//! Route dispatch and request/response correlation, exercised end to end
//! through the verified cores with an in-memory wire.

use fastproto::client::{classify_client_packet, ClientAction, PendingRequests};
use fastproto::crypto::CryptoProvider;
use fastproto::compression::CompressionProvider;
use fastproto::error::ProtocolError;
use fastproto::middleware::{Context, Response};
use fastproto::packet::{Packet, PacketType};
use fastproto::server::{classify_server_packet, dispatch_reply_payload, RouteTable, ServerAction};
use fastproto::transport::{Addr, Transport, TransportConfig};

type Handler = fn(&[u8]) -> Result<Vec<u8>, String>;

fn client_addr() -> Addr {
    Addr {
        ip: 0x7f00_0001,
        port: 9001,
        v6: false,
    }
}

fn server_addr() -> Addr {
    Addr {
        ip: 0x7f00_0001,
        port: 9000,
        v6: false,
    }
}

/// Carries one request through both cores: client reliable send, server
/// receive with auto-ack, dispatch, reliable reply with the request's
/// sequence, client receive, and slot delivery. Returns the reply payload.
fn exchange(
    client: &mut Transport,
    server: &mut Transport,
    routes: &RouteTable<Handler>,
    route: &[u8],
    payload: &[u8],
) -> Vec<u8> {
    let now = 1_000u64;
    let (seq, request_wire) = client
        .send_reliable(route.to_vec(), payload.to_vec(), server_addr(), now)
        .unwrap();
    let mut slots: PendingRequests<u32> = PendingRequests::new();
    slots.insert(seq, seq);

    // server side: receive, auto-ack, dispatch
    let (request, auto_ack) = server.process_incoming(&request_wire, now).unwrap();
    let ack_bytes = auto_ack.expect("data packets demanding an ack are auto-acked");
    assert_eq!(classify_server_packet(request.packet_type), ServerAction::Dispatch);
    let outcome = routes
        .get(&request.route)
        .map(|handler| handler(&request.payload).map_err(String::into_bytes));
    let reply_payload = dispatch_reply_payload(outcome, &request.route);
    let reply_wire = server
        .send_reply(request.route.clone(), reply_payload, client_addr(), request.sequence, now)
        .unwrap();

    // client side: the transport-level ack evicts the pending request packet
    let (ack_packet, none) = client.process_incoming(&ack_bytes, now).unwrap();
    assert!(none.is_none());
    assert_eq!(classify_client_packet(ack_packet.packet_type), ClientAction::AckPending);
    client.handle_ack(ack_packet.sequence);
    assert!(!client.has_pending(seq));

    // client side: the reply is correlated to the parked slot by sequence
    let (reply, reply_ack) = client.process_incoming(&reply_wire, now).unwrap();
    assert_eq!(classify_client_packet(reply.packet_type), ClientAction::DeliverResponse);
    assert_eq!(reply.sequence, seq, "the reply reuses the request sequence");
    assert_eq!(slots.take(reply.sequence), Some(seq));

    // and the client's auto-ack lets the server evict its reply entry
    let (server_ack, _) = server
        .process_incoming(&reply_ack.expect("reliable replies are auto-acked"), now)
        .unwrap();
    server.handle_ack(server_ack.sequence);
    assert!(!server.has_pending(seq));

    reply.payload
}

fn ping_handler(_payload: &[u8]) -> Result<Vec<u8>, String> {
    Ok(b"pong".to_vec())
}

fn echo_handler(payload: &[u8]) -> Result<Vec<u8>, String> {
    Ok(payload.to_vec())
}

fn uppercase_handler(payload: &[u8]) -> Result<Vec<u8>, String> {
    Ok(payload.to_ascii_uppercase())
}

fn standard_routes() -> RouteTable<Handler> {
    let mut routes: RouteTable<Handler> = RouteTable::new();
    routes.on(b"/ping".to_vec(), ping_handler);
    routes.on(b"/echo".to_vec(), echo_handler);
    routes.on(b"/uppercase".to_vec(), uppercase_handler);
    routes
}

#[test]
fn ping_returns_pong() {
    let mut client = Transport::new(TransportConfig::default());
    let mut server = Transport::new(TransportConfig::default());
    let routes = standard_routes();
    let reply = exchange(&mut client, &mut server, &routes, b"/ping", b"");
    assert_eq!(reply, b"pong".to_vec());
}

#[test]
fn echo_returns_its_input() {
    let mut client = Transport::new(TransportConfig::default());
    let mut server = Transport::new(TransportConfig::default());
    let routes = standard_routes();
    let reply = exchange(&mut client, &mut server, &routes, b"/echo", b"Hello, World!");
    assert_eq!(reply, b"Hello, World!".to_vec());
}

#[test]
fn uppercase_transforms_its_input() {
    let mut client = Transport::new(TransportConfig::default());
    let mut server = Transport::new(TransportConfig::default());
    let routes = standard_routes();
    let reply = exchange(&mut client, &mut server, &routes, b"/uppercase", b"hello world");
    assert_eq!(reply, b"HELLO WORLD".to_vec());
}

#[test]
fn unknown_route_replies_with_the_route_not_found_text() {
    let mut client = Transport::new(TransportConfig::default());
    let mut server = Transport::new(TransportConfig::default());
    let routes = standard_routes();
    let reply = exchange(&mut client, &mut server, &routes, b"/nope", b"");
    assert!(reply.starts_with(b"Route not found: /nope"));
    assert_eq!(reply, b"Route not found: /nope".to_vec());
}

#[test]
fn failing_handler_replies_with_the_error_text() {
    fn failing(_payload: &[u8]) -> Result<Vec<u8>, String> {
        Err("handler broke".to_string())
    }
    let mut client = Transport::new(TransportConfig::default());
    let mut server = Transport::new(TransportConfig::default());
    let mut routes: RouteTable<Handler> = RouteTable::new();
    routes.on(b"/fail".to_vec(), failing);
    let reply = exchange(&mut client, &mut server, &routes, b"/fail", b"");
    assert_eq!(reply, b"Error: handler broke".to_vec());
}

#[test]
fn compressed_and_encrypted_exchange_succeeds_and_hides_the_plaintext() {
    let key = CryptoProvider::generate_key();
    let config = TransportConfig {
        enable_encryption: true,
        enable_compression: true,
        ..TransportConfig::default()
    };
    let mut client = Transport::new(config);
    client.set_crypto(CryptoProvider::new_chacha(&key));
    client.set_compression(CompressionProvider::new_zstd(3));
    let mut server = Transport::new(config);
    server.set_crypto(CryptoProvider::new_chacha(&key));
    server.set_compression(CompressionProvider::new_zstd(3));

    // the bytes on the wire carry a transformed payload, not the plaintext
    let (_, wire) = client
        .send_reliable(b"/echo".to_vec(), b"Hello, World!".to_vec(), server_addr(), 5)
        .unwrap();
    let on_the_wire = Packet::deserialize(&wire).unwrap();
    assert!(on_the_wire.flags.encrypted && on_the_wire.flags.compressed);
    assert_ne!(on_the_wire.payload, b"Hello, World!".to_vec());

    let routes = standard_routes();
    let mut client = client;
    let reply = exchange(&mut client, &mut server, &routes, b"/echo", b"Hello, World!");
    assert_eq!(reply, b"Hello, World!".to_vec());
}

#[test]
fn sending_with_a_transform_enabled_but_no_provider_fails() {
    // encryption enabled, no crypto provider installed
    let mut transport = Transport::new(TransportConfig {
        enable_encryption: true,
        ..TransportConfig::default()
    });
    assert!(matches!(
        transport.send_reliable(b"/r".to_vec(), b"p".to_vec(), server_addr(), 0),
        Err(ProtocolError::Encryption(_))
    ));
    assert_eq!(transport.pending_len(), 0);

    // compression enabled, no compression provider installed
    let mut transport = Transport::new(TransportConfig {
        enable_compression: true,
        ..TransportConfig::default()
    });
    assert!(matches!(
        transport.send_reliable(b"/r".to_vec(), b"p".to_vec(), server_addr(), 0),
        Err(ProtocolError::Compression(_))
    ));

    // both enabled and both missing: the compression stage is reached first
    let mut transport = Transport::new(TransportConfig {
        enable_compression: true,
        enable_encryption: true,
        ..TransportConfig::default()
    });
    assert!(matches!(
        transport.send_reliable(b"/r".to_vec(), b"p".to_vec(), server_addr(), 0),
        Err(ProtocolError::Compression(_))
    ));
}

#[test]
fn encrypted_packet_without_a_provider_is_an_encryption_error() {
    let key = CryptoProvider::generate_key();
    let config = TransportConfig {
        enable_encryption: true,
        ..TransportConfig::default()
    };
    let mut sender = Transport::new(config);
    sender.set_crypto(CryptoProvider::new_aes(&key));
    let (_, wire) = sender
        .send_reliable(b"/r".to_vec(), b"secret".to_vec(), server_addr(), 0)
        .unwrap();
    let receiver = Transport::new(TransportConfig::default());
    assert!(matches!(
        receiver.process_incoming(&wire, 0),
        Err(ProtocolError::Encryption(_))
    ));
}

#[test]
fn compressed_packet_without_a_provider_is_a_compression_error() {
    let config = TransportConfig {
        enable_compression: true,
        ..TransportConfig::default()
    };
    let mut sender = Transport::new(config);
    sender.set_compression(CompressionProvider::new_lz4(1));
    let (_, wire) = sender
        .send_reliable(b"/r".to_vec(), b"data".to_vec(), server_addr(), 0)
        .unwrap();
    let receiver = Transport::new(TransportConfig::default());
    assert!(matches!(
        receiver.process_incoming(&wire, 0),
        Err(ProtocolError::Compression(_))
    ));
}

#[test]
fn concurrent_requests_on_distinct_routes_stay_uncontaminated() {
    let mut client = Transport::new(TransportConfig::default());
    let mut server = Transport::new(TransportConfig::default());
    let routes = standard_routes();
    let now = 0u64;

    // two requests go out before either reply arrives
    let (seq_a, wire_a) = client
        .send_reliable(b"/echo".to_vec(), b"first payload".to_vec(), server_addr(), now)
        .unwrap();
    let (seq_b, wire_b) = client
        .send_reliable(b"/uppercase".to_vec(), b"second".to_vec(), server_addr(), now)
        .unwrap();
    assert_ne!(seq_a, seq_b);
    let mut slots: PendingRequests<&'static str> = PendingRequests::new();
    slots.insert(seq_a, "first");
    slots.insert(seq_b, "second");

    let make_reply = |server: &mut Transport, wire: &[u8]| {
        let (request, _) = server.process_incoming(wire, now).unwrap();
        let handler = routes.get(&request.route).unwrap();
        let data = handler(&request.payload).unwrap();
        server
            .send_reply(request.route.clone(), data, client_addr(), request.sequence, now)
            .unwrap()
    };
    let reply_a = make_reply(&mut server, &wire_a);
    let reply_b = make_reply(&mut server, &wire_b);

    // replies arrive out of order; each is matched to its own slot
    let (packet_b, _) = client.process_incoming(&reply_b, now).unwrap();
    assert_eq!(slots.take(packet_b.sequence), Some("second"));
    assert_eq!(packet_b.payload, b"SECOND".to_vec());

    let (packet_a, _) = client.process_incoming(&reply_a, now).unwrap();
    assert_eq!(slots.take(packet_a.sequence), Some("first"));
    assert_eq!(packet_a.payload, b"first payload".to_vec());

    // a late duplicate finds no slot and is discarded
    assert_eq!(slots.take(packet_a.sequence), None);
    assert_eq!(slots.len(), 0);
}

#[test]
fn a_timed_out_request_removes_its_slot_and_a_late_reply_is_orphaned() {
    let mut slots: PendingRequests<u32> = PendingRequests::new();
    slots.insert(17, 17);
    // the caller's deadline elapses: the slot is removed on the timeout path
    assert_eq!(slots.take(17), Some(17));
    // the reply that arrives afterwards finds nothing and is discarded
    assert_eq!(slots.take(17), None);
    assert_eq!(slots.len(), 0);
}

#[test]
fn parking_a_slot_twice_replaces_it() {
    let mut slots: PendingRequests<&'static str> = PendingRequests::new();
    slots.insert(5, "stale");
    slots.insert(5, "fresh");
    assert_eq!(slots.len(), 1);
    assert_eq!(slots.take(5), Some("fresh"));
    assert_eq!(slots.take(5), None);
}

#[test]
fn registering_a_route_twice_replaces_the_handler() {
    let mut routes: RouteTable<Handler> = RouteTable::new();
    routes.on(b"/r".to_vec(), ping_handler);
    routes.on(b"/r".to_vec(), echo_handler);
    assert_eq!(routes.len(), 1);
    let handler = routes.get(b"/r").unwrap();
    assert_eq!(handler(b"in").unwrap(), b"in".to_vec());
    assert!(routes.get(b"/absent").is_none());
}

#[test]
fn context_parses_utf8_payloads_and_rejects_others() {
    let packet = Packet::new_data(b"/t".to_vec(), "héllo".as_bytes().to_vec(), 1);
    let context = Context {
        route: packet.route.clone(),
        payload: packet.payload.clone(),
        remote_addr: client_addr(),
        packet,
    };
    assert_eq!(context.text().unwrap(), "héllo".to_string());

    let bad = Context {
        route: b"/t".to_vec(),
        payload: vec![0xff, 0x80],
        remote_addr: client_addr(),
        packet: Packet::new_data(b"/t".to_vec(), vec![0xff, 0x80], 2),
    };
    assert!(matches!(bad.text(), Err(ProtocolError::Other(_))));
}

#[test]
fn responses_carry_bytes_or_encoded_text() {
    let from_bytes = Response::new(vec![1, 2, 3]);
    assert_eq!(from_bytes.data, vec![1, 2, 3]);
    let from_text = Response::text("pong".to_string());
    assert_eq!(from_text.data, b"pong".to_vec());
    let non_ascii = Response::text("héllo".to_string());
    assert_eq!(non_ascii.data, "héllo".as_bytes().to_vec());
}

#[test]
fn protocol_envelopes_record_success_and_failure() {
    let ok: fastproto::protocol::Response<u32> =
        fastproto::protocol::Response::success("id-1".to_string(), 42);
    assert!(ok.success);
    assert_eq!(ok.data, Some(42));
    assert_eq!(ok.error, None);

    let bad: fastproto::protocol::Response<u32> =
        fastproto::protocol::Response::error("id-2".to_string(), "boom".to_string());
    assert!(!bad.success);
    assert_eq!(bad.data, None);
    assert_eq!(bad.error, Some("boom".to_string()));

    let request = fastproto::protocol::Request {
        id: "id-3".to_string(),
        data: "hello".to_string(),
    };
    assert_eq!(request.id, "id-3");
    assert_eq!(request.data, "hello");
}
