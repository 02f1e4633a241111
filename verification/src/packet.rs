//! The wire packet: its model, serializer, and deserializer.
//!
//! Wire layout, all multi-byte integers big-endian: version (1 byte), packet
//! type (1), flags (1), sequence (4), timestamp (8), route length (2), route
//! bytes, payload length (4), payload bytes. The header prefix before the
//! route length is 15 bytes; the smallest complete packet is 21 bytes.

use vstd::prelude::*;
use vstd::slice::{slice_index_get, slice_subrange, slice_to_vec};
use vstd::utf8::valid_utf8;

use crate::encoding::is_valid_utf8;
use crate::error::ProtocolError;
use crate::wire::{
    push_u16_be, push_u32_be, push_u64_be, read_u16_be, read_u32_be, read_u64_be,
    spec_u16_from_be_bytes, spec_u16_to_be_bytes, spec_u32_from_be_bytes, spec_u32_to_be_bytes,
    spec_u64_from_be_bytes, spec_u64_to_be_bytes,
};
use crate::{MAX_PACKET_SIZE, PROTOCOL_VERSION};

verus! {

/// Kinds of packet the protocol exchanges.
#[derive(Debug, Clone, Copy, PartialEq, Eq, Structural)]
pub enum PacketType {
    /// Application data, dispatched by route.
    Data,
    /// Acknowledgment of a reliable packet.
    Ack,
    /// Negative acknowledgment requesting retransmission.
    Nack,
    /// Keep-alive probe.
    Heartbeat,
    /// Connection request.
    Connect,
    /// Connection response.
    ConnectAck,
    /// Disconnection notice.
    Disconnect,
    /// Batch of packets.
    Batch,
}

impl PacketType {
    /// The wire byte of this packet type.
    pub open spec fn spec_byte(self) -> u8 {
        match self {
            PacketType::Data => 0,
            PacketType::Ack => 1,
            PacketType::Nack => 2,
            PacketType::Heartbeat => 3,
            PacketType::Connect => 4,
            PacketType::ConnectAck => 5,
            PacketType::Disconnect => 6,
            PacketType::Batch => 7,
        }
    }

    /// The packet type a wire byte denotes, if any.
    pub open spec fn spec_from_byte(b: u8) -> Option<PacketType> {
        if b == 0 {
            Some(PacketType::Data)
        } else if b == 1 {
            Some(PacketType::Ack)
        } else if b == 2 {
            Some(PacketType::Nack)
        } else if b == 3 {
            Some(PacketType::Heartbeat)
        } else if b == 4 {
            Some(PacketType::Connect)
        } else if b == 5 {
            Some(PacketType::ConnectAck)
        } else if b == 6 {
            Some(PacketType::Disconnect)
        } else if b == 7 {
            Some(PacketType::Batch)
        } else {
            None
        }
    }

    /// Writes this packet type as its wire byte.
    pub fn to_byte(&self) -> (r: u8)
        ensures
            r == self.spec_byte(),
    {
        match self {
            PacketType::Data => 0,
            PacketType::Ack => 1,
            PacketType::Nack => 2,
            PacketType::Heartbeat => 3,
            PacketType::Connect => 4,
            PacketType::ConnectAck => 5,
            PacketType::Disconnect => 6,
            PacketType::Batch => 7,
        }
    }

    /// Reads a packet type from its wire byte; an unknown byte is an
    /// `InvalidPacket` error.
    pub fn from_byte(b: u8) -> (r: Result<PacketType, ProtocolError>)
        ensures
            r matches Ok(t) ==> Self::spec_from_byte(b) == Some(t),
            r is Err ==> Self::spec_from_byte(b) is None && r->Err_0 is InvalidPacket,
            r is Ok <==> Self::spec_from_byte(b) is Some,
    {
        match b {
            0 => Ok(PacketType::Data),
            1 => Ok(PacketType::Ack),
            2 => Ok(PacketType::Nack),
            3 => Ok(PacketType::Heartbeat),
            4 => Ok(PacketType::Connect),
            5 => Ok(PacketType::ConnectAck),
            6 => Ok(PacketType::Disconnect),
            7 => Ok(PacketType::Batch),
            _ => Err(ProtocolError::InvalidPacket("unknown packet type".to_owned())),
        }
    }
}

/// The three flag bits a packet can carry. All other bits are reserved and
/// must be zero on the wire.
#[derive(Debug, Clone, Copy, PartialEq, Eq, Structural)]
pub struct PacketFlags {
    /// The payload is AEAD-encrypted.
    pub encrypted: bool,
    /// The payload is compressed.
    pub compressed: bool,
    /// The receiver must answer with an `Ack` carrying the same sequence.
    pub requires_ack: bool,
}

/// The wire byte that encodes the given flags: bit 0 encrypted, bit 1
/// compressed, bit 2 requires-ack.
pub open spec fn spec_flags_byte(f: PacketFlags) -> u8 {
    ((if f.encrypted {
        1int
    } else {
        0int
    }) + (if f.compressed {
        2int
    } else {
        0int
    }) + (if f.requires_ack {
        4int
    } else {
        0int
    })) as u8
}

/// The flags a wire byte denotes; reserved bits are ignored here and rejected
/// separately by the deserializer.
pub open spec fn spec_flags_from_byte(b: u8) -> PacketFlags {
    PacketFlags {
        encrypted: b % 2 == 1,
        compressed: (b / 2) % 2 == 1,
        requires_ack: (b / 4) % 2 == 1,
    }
}

impl PacketFlags {
    /// No flag set.
    pub fn none() -> (r: PacketFlags)
        ensures
            r == (PacketFlags { encrypted: false, compressed: false, requires_ack: false }),
    {
        PacketFlags { encrypted: false, compressed: false, requires_ack: false }
    }

    /// Writes the flags as their wire byte.
    pub fn to_byte(&self) -> (r: u8)
        ensures
            r == spec_flags_byte(*self),
    {
        let mut byte: u8 = 0;
        if self.encrypted {
            byte = byte + 1;
        }
        if self.compressed {
            byte = byte + 2;
        }
        if self.requires_ack {
            byte = byte + 4;
        }
        byte
    }

    /// Reads flags from a wire byte, ignoring the reserved bits.
    pub fn from_byte(byte: u8) -> (r: PacketFlags)
        ensures
            r == spec_flags_from_byte(byte),
    {
        PacketFlags {
            encrypted: byte % 2 == 1,
            compressed: (byte / 2) % 2 == 1,
            requires_ack: (byte / 4) % 2 == 1,
        }
    }
}

impl Default for PacketFlags {
    /// No flag set.
    fn default() -> (r: PacketFlags)
        ensures
            r == (PacketFlags { encrypted: false, compressed: false, requires_ack: false }),
    {
        PacketFlags { encrypted: false, compressed: false, requires_ack: false }
    }
}

/// Reading back the wire byte of any flags recovers them, and the byte never
/// touches a reserved bit.
pub proof fn lemma_flags_byte_round_trip(f: PacketFlags)
    ensures
        spec_flags_from_byte(spec_flags_byte(f)) == f,
        spec_flags_byte(f) < 8,
{
}

/// The mathematical value of a packet: every field, with the route and the
/// payload as byte sequences.
#[verifier::ext_equal]
pub struct PacketModel {
    /// Protocol version byte.
    pub version: u8,
    /// Kind of packet.
    pub packet_type: PacketType,
    /// Flag bits.
    pub flags: PacketFlags,
    /// Sequence number.
    pub sequence: u32,
    /// Milliseconds since the Unix epoch when the packet was built.
    pub timestamp: u64,
    /// Route bytes.
    pub route: Seq<u8>,
    /// Payload bytes.
    pub payload: Seq<u8>,
}

impl PacketModel {
    /// True when the packet fits the wire format: the route length fits its
    /// 16-bit field, the payload length its 32-bit field, and the whole
    /// serialization fits in memory.
    pub open spec fn wf_wire(self) -> bool {
        &&& self.route.len() <= 0xffff
        &&& self.payload.len() <= 0xffff_ffff
        &&& 21 + self.route.len() + self.payload.len() <= usize::MAX
    }

    /// True when the packet satisfies every invariant of the data model:
    /// it fits the wire format, carries the supported version, stays within
    /// the datagram size limit, its route is UTF-8, routes appear only on
    /// `Data` packets, and only `Data` packets demand acknowledgment.
    pub open spec fn valid(self) -> bool {
        &&& self.wf_wire()
        &&& self.version == PROTOCOL_VERSION
        &&& 21 + self.route.len() + self.payload.len() <= MAX_PACKET_SIZE
        &&& valid_utf8(self.route)
        &&& self.packet_type != PacketType::Data ==> self.route.len() == 0
        &&& self.flags.requires_ack ==> self.packet_type == PacketType::Data
    }
}

/// The sole wire object.
#[derive(Debug)]
pub struct Packet {
    /// Protocol version byte; always `PROTOCOL_VERSION` when built here.
    pub version: u8,
    /// Kind of packet.
    pub packet_type: PacketType,
    /// Flag bits.
    pub flags: PacketFlags,
    /// Sequence number, assigned by the sending transport.
    pub sequence: u32,
    /// Milliseconds since the Unix epoch when the packet was built.
    pub timestamp: u64,
    /// Route bytes; UTF-8, and empty on every type but `Data`.
    pub route: Vec<u8>,
    /// Opaque payload bytes.
    pub payload: Vec<u8>,
}

impl Clone for Packet {
    /// An identical packet.
    fn clone(&self) -> (r: Packet)
        ensures
            r@ == self@,
    {
        broadcast use vstd::std_specs::vec::vec_clone_deep_view_proof;

        let r = Packet {
            version: self.version,
            packet_type: self.packet_type,
            flags: self.flags,
            sequence: self.sequence,
            timestamp: self.timestamp,
            route: self.route.clone(),
            payload: self.payload.clone(),
        };
        proof {
            assert(r.route@ =~= self.route@);
            assert(r.payload@ =~= self.payload@);
        }
        r
    }
}

impl View for Packet {
    type V = PacketModel;

    open spec fn view(&self) -> PacketModel {
        PacketModel {
            version: self.version,
            packet_type: self.packet_type,
            flags: self.flags,
            sequence: self.sequence,
            timestamp: self.timestamp,
            route: self.route@,
            payload: self.payload@,
        }
    }
}

/// The serialization of a packet: the fields of the model in wire order.
pub open spec fn spec_serialize(m: PacketModel) -> Seq<u8>
    recommends
        m.wf_wire(),
{
    seq![m.version, m.packet_type.spec_byte(), spec_flags_byte(m.flags)]
        + spec_u32_to_be_bytes(m.sequence) + spec_u64_to_be_bytes(m.timestamp)
        + spec_u16_to_be_bytes(m.route.len() as u16) + m.route + spec_u32_to_be_bytes(
        m.payload.len() as u32,
    ) + m.payload
}

/// True when the input is long enough to read a version byte but carries the
/// wrong one: the only condition `deserialize` reports as `VersionMismatch`.
pub open spec fn spec_version_rejected(d: Seq<u8>) -> bool {
    d.len() >= 20 && d[0] != PROTOCOL_VERSION
}

/// The packet encoded at the front of `d`, if `d` frames one: the header must
/// be complete, the version supported, the type byte known, the reserved flag
/// bits clear, the route and payload complete with the route valid UTF-8.
/// Trailing bytes after the payload are ignored.
pub open spec fn spec_parse(d: Seq<u8>) -> Option<PacketModel> {
    if d.len() < 20 {
        None
    } else if d[0] != PROTOCOL_VERSION {
        None
    } else if PacketType::spec_from_byte(d[1]) is None {
        None
    } else if d[2] >= 8 {
        None
    } else {
        let rl = spec_u16_from_be_bytes(d.subrange(15, 17)) as int;
        if d.len() < 17 + rl {
            None
        } else if !valid_utf8(d.subrange(17, 17 + rl)) {
            None
        } else if d.len() < 21 + rl {
            None
        } else {
            let pl = spec_u32_from_be_bytes(d.subrange(17 + rl, 21 + rl)) as int;
            if d.len() < 21 + rl + pl {
                None
            } else {
                Some(
                    PacketModel {
                        version: d[0],
                        packet_type: PacketType::spec_from_byte(d[1]).unwrap(),
                        flags: spec_flags_from_byte(d[2]),
                        sequence: spec_u32_from_be_bytes(d.subrange(3, 7)),
                        timestamp: spec_u64_from_be_bytes(d.subrange(7, 15)),
                        route: d.subrange(17, 17 + rl),
                        payload: d.subrange(21 + rl, 21 + rl + pl),
                    },
                )
            }
        }
    }
}

impl Packet {
    /// Serializes the packet into wire bytes. Fails, with `InvalidPacket`,
    /// exactly when a length field would overflow: a route over 65,535 bytes,
    /// a payload over 4,294,967,295 bytes, or a total that cannot fit in
    /// memory.
    pub fn serialize(&self) -> (r: Result<Vec<u8>, ProtocolError>)
        ensures
            r is Ok <==> self@.wf_wire(),
            r matches Ok(v) ==> v@ == spec_serialize(self@),
            r is Err ==> r->Err_0 is InvalidPacket,
    {
        if self.route.len() > 0xffff {
            return Err(ProtocolError::InvalidPacket("route too long".to_owned()));
        }
        if self.payload.len() as u64 > 0xffff_ffffu64 {
            return Err(ProtocolError::InvalidPacket("payload too long".to_owned()));
        }
        if (self.route.len() as u64) + (self.payload.len() as u64) > (usize::MAX as u64) - 21 {
            return Err(ProtocolError::InvalidPacket("packet too large".to_owned()));
        }
        let mut out: Vec<u8> = Vec::new();
        out.push(self.version);
        out.push(self.packet_type.to_byte());
        out.push(self.flags.to_byte());
        push_u32_be(&mut out, self.sequence);
        push_u64_be(&mut out, self.timestamp);
        push_u16_be(&mut out, self.route.len() as u16);
        let mut i: usize = 0;
        while i < self.route.len()
            invariant
                i <= self.route.len(),
                out@ == seq![
                    self.version,
                    self.packet_type.spec_byte(),
                    spec_flags_byte(self.flags),
                ] + spec_u32_to_be_bytes(self.sequence) + spec_u64_to_be_bytes(self.timestamp)
                    + spec_u16_to_be_bytes(self.route@.len() as u16) + self.route@.take(i as int),
            decreases self.route.len() - i,
        {
            out.push(self.route[i]);
            proof {
                assert(self.route@.take(i + 1) =~= self.route@.take(i as int).push(
                    self.route@[i as int],
                ));
            }
            i = i + 1;
        }
        proof {
            assert(self.route@.take(self.route@.len() as int) =~= self.route@);
        }
        push_u32_be(&mut out, self.payload.len() as u32);
        let mut j: usize = 0;
        while j < self.payload.len()
            invariant
                j <= self.payload.len(),
                out@ == seq![
                    self.version,
                    self.packet_type.spec_byte(),
                    spec_flags_byte(self.flags),
                ] + spec_u32_to_be_bytes(self.sequence) + spec_u64_to_be_bytes(self.timestamp)
                    + spec_u16_to_be_bytes(self.route@.len() as u16) + self.route@
                    + spec_u32_to_be_bytes(self.payload@.len() as u32) + self.payload@.take(
                    j as int,
                ),
            decreases self.payload.len() - j,
        {
            out.push(self.payload[j]);
            proof {
                assert(self.payload@.take(j + 1) =~= self.payload@.take(j as int).push(
                    self.payload@[j as int],
                ));
            }
            j = j + 1;
        }
        proof {
            assert(self.payload@.take(self.payload@.len() as int) =~= self.payload@);
            assert(out@ =~= spec_serialize(self@));
        }
        Ok(out)
    }

    /// Reads a packet from wire bytes. Succeeds exactly when the bytes frame a
    /// packet per `spec_parse`; a readable header with the wrong version is a
    /// `VersionMismatch`, every other failure an `InvalidPacket`.
    pub fn deserialize(data: &[u8]) -> (r: Result<Packet, ProtocolError>)
        ensures
            r is Ok <==> spec_parse(data@) is Some,
            r matches Ok(p) ==> spec_parse(data@) == Some(p@),
            r is Err && spec_version_rejected(data@) ==> r->Err_0.is_version_mismatch(data@[0]),
            r is Err && !spec_version_rejected(data@) ==> r->Err_0 is InvalidPacket,
    {
        let n = data.len();
        if n < 20 {
            return Err(ProtocolError::InvalidPacket("packet too small".to_owned()));
        }
        let version = *slice_index_get(data, 0);
        if version != PROTOCOL_VERSION {
            return Err(
                ProtocolError::VersionMismatch { expected: PROTOCOL_VERSION, actual: version },
            );
        }
        let packet_type = match PacketType::from_byte(*slice_index_get(data, 1)) {
            Ok(t) => t,
            Err(e) => {
                return Err(e);
            },
        };
        let flags_byte = *slice_index_get(data, 2);
        if flags_byte >= 8 {
            return Err(ProtocolError::InvalidPacket("reserved flag bits set".to_owned()));
        }
        let flags = PacketFlags::from_byte(flags_byte);
        let sequence = read_u32_be(data, 3);
        let timestamp = read_u64_be(data, 7);
        let route_len = read_u16_be(data, 15) as usize;
        if n - 17 < route_len {
            return Err(ProtocolError::InvalidPacket("invalid route length".to_owned()));
        }
        let route_slice = slice_subrange(data, 17, 17 + route_len);
        if !is_valid_utf8(route_slice) {
            return Err(ProtocolError::InvalidPacket("route is not valid UTF-8".to_owned()));
        }
        if n - 17 - route_len < 4 {
            return Err(ProtocolError::InvalidPacket("invalid payload length".to_owned()));
        }
        let payload_len = read_u32_be(data, 17 + route_len) as usize;
        if n - 21 - route_len < payload_len {
            return Err(ProtocolError::InvalidPacket("invalid payload data".to_owned()));
        }
        let route = slice_to_vec(route_slice);
        let payload = slice_to_vec(
            slice_subrange(data, 21 + route_len, 21 + route_len + payload_len),
        );
        let packet = Packet { version, packet_type, flags, sequence, timestamp, route, payload };
        proof {
            assert(spec_parse(data@) == Some(packet@));
        }
        Ok(packet)
    }

    /// Builds a data packet for the given route, payload, and sequence,
    /// demanding acknowledgment and stamped with the given clock reading.
    pub fn new_data_at(route: Vec<u8>, payload: Vec<u8>, sequence: u32, timestamp: u64) -> (r:
        Packet)
        ensures
            r@ == (PacketModel {
                version: PROTOCOL_VERSION,
                packet_type: PacketType::Data,
                flags: PacketFlags { encrypted: false, compressed: false, requires_ack: true },
                sequence,
                timestamp,
                route: route@,
                payload: payload@,
            }),
    {
        Packet {
            version: PROTOCOL_VERSION,
            packet_type: PacketType::Data,
            flags: PacketFlags { encrypted: false, compressed: false, requires_ack: true },
            sequence,
            timestamp,
            route,
            payload,
        }
    }

    /// Builds a data packet stamped with the current wall clock.
    pub fn new_data(route: Vec<u8>, payload: Vec<u8>, sequence: u32) -> (r: Packet)
        ensures
            r@ == (PacketModel { timestamp: r@.timestamp, ..Packet::spec_data_model(
                route@,
                payload@,
                sequence,
            ) }),
    {
        let timestamp = current_timestamp();
        Packet::new_data_at(route, payload, sequence, timestamp)
    }

    /// The model of a data packet with timestamp zero; constructors pin every
    /// other field to this shape.
    pub open spec fn spec_data_model(route: Seq<u8>, payload: Seq<u8>, sequence: u32) -> PacketModel {
        PacketModel {
            version: PROTOCOL_VERSION,
            packet_type: PacketType::Data,
            flags: PacketFlags { encrypted: false, compressed: false, requires_ack: true },
            sequence,
            timestamp: 0,
            route,
            payload,
        }
    }

    /// The model of a control packet: empty route and payload, no flags.
    pub open spec fn spec_control_model(t: PacketType, sequence: u32, timestamp: u64) -> PacketModel {
        PacketModel {
            version: PROTOCOL_VERSION,
            packet_type: t,
            flags: PacketFlags { encrypted: false, compressed: false, requires_ack: false },
            sequence,
            timestamp,
            route: Seq::empty(),
            payload: Seq::empty(),
        }
    }

    /// Builds the acknowledgment for the given sequence, stamped with the
    /// given clock reading.
    pub fn new_ack_at(sequence: u32, timestamp: u64) -> (r: Packet)
        ensures
            r@ == Packet::spec_control_model(PacketType::Ack, sequence, timestamp),
    {
        let r = Packet {
            version: PROTOCOL_VERSION,
            packet_type: PacketType::Ack,
            flags: PacketFlags::none(),
            sequence,
            timestamp,
            route: Vec::new(),
            payload: Vec::new(),
        };
        proof {
            assert(r@ =~= Packet::spec_control_model(PacketType::Ack, sequence, timestamp));
        }
        r
    }

    /// Builds the acknowledgment for the given sequence, stamped with the
    /// current wall clock.
    pub fn new_ack(sequence: u32) -> (r: Packet)
        ensures
            r@ == Packet::spec_control_model(PacketType::Ack, sequence, r@.timestamp),
    {
        let timestamp = current_timestamp();
        Packet::new_ack_at(sequence, timestamp)
    }

    /// Builds a negative acknowledgment for the given sequence.
    pub fn new_nack(sequence: u32) -> (r: Packet)
        ensures
            r@ == Packet::spec_control_model(PacketType::Nack, sequence, r@.timestamp),
    {
        let timestamp = current_timestamp();
        let r = Packet {
            version: PROTOCOL_VERSION,
            packet_type: PacketType::Nack,
            flags: PacketFlags::none(),
            sequence,
            timestamp,
            route: Vec::new(),
            payload: Vec::new(),
        };
        proof {
            assert(r@ =~= Packet::spec_control_model(PacketType::Nack, sequence, timestamp));
        }
        r
    }

    /// Builds a keep-alive packet.
    pub fn new_heartbeat() -> (r: Packet)
        ensures
            r@ == Packet::spec_control_model(PacketType::Heartbeat, 0, r@.timestamp),
    {
        let timestamp = current_timestamp();
        let r = Packet {
            version: PROTOCOL_VERSION,
            packet_type: PacketType::Heartbeat,
            flags: PacketFlags::none(),
            sequence: 0,
            timestamp,
            route: Vec::new(),
            payload: Vec::new(),
        };
        proof {
            assert(r@ =~= Packet::spec_control_model(PacketType::Heartbeat, 0, timestamp));
        }
        r
    }

    /// Builds a connection request.
    pub fn new_connect() -> (r: Packet)
        ensures
            r@ == Packet::spec_control_model(PacketType::Connect, 0, r@.timestamp),
    {
        let timestamp = current_timestamp();
        let r = Packet {
            version: PROTOCOL_VERSION,
            packet_type: PacketType::Connect,
            flags: PacketFlags::none(),
            sequence: 0,
            timestamp,
            route: Vec::new(),
            payload: Vec::new(),
        };
        proof {
            assert(r@ =~= Packet::spec_control_model(PacketType::Connect, 0, timestamp));
        }
        r
    }

    /// Builds the reply to a connection request, stamped with timestamp zero.
    pub fn new_connect_ack() -> (r: Packet)
        ensures
            r@ == Packet::spec_control_model(PacketType::ConnectAck, 0, 0),
    {
        let r = Packet {
            version: PROTOCOL_VERSION,
            packet_type: PacketType::ConnectAck,
            flags: PacketFlags::none(),
            sequence: 0,
            timestamp: 0,
            route: Vec::new(),
            payload: Vec::new(),
        };
        proof {
            assert(r@ =~= Packet::spec_control_model(PacketType::ConnectAck, 0, 0));
        }
        r
    }
}

/// Relies on `std::time::SystemTime`: milliseconds elapsed since the Unix
/// epoch, or zero if the system clock reads earlier than the epoch. Nothing
/// can be promised of a clock reading.
#[verifier::external_body]
fn current_timestamp() -> u64 {
    match std::time::SystemTime::now().duration_since(std::time::UNIX_EPOCH) {
        Ok(d) => d.as_millis() as u64,
        Err(_) => 0,
    }
}

/// The serialization of a well-formed packet, decomposed field by field.
proof fn lemma_serialize_shape(m: PacketModel)
    requires
        m.wf_wire(),
    ensures
        ({
            let d = spec_serialize(m);
            let rl = m.route.len() as int;
            let pl = m.payload.len() as int;
            &&& d.len() == 21 + rl + pl
            &&& d[0] == m.version
            &&& d[1] == m.packet_type.spec_byte()
            &&& d[2] == spec_flags_byte(m.flags)
            &&& d.subrange(3, 7) == spec_u32_to_be_bytes(m.sequence)
            &&& d.subrange(7, 15) == spec_u64_to_be_bytes(m.timestamp)
            &&& d.subrange(15, 17) == spec_u16_to_be_bytes(m.route.len() as u16)
            &&& d.subrange(17, 17 + rl) == m.route
            &&& d.subrange(17 + rl, 21 + rl) == spec_u32_to_be_bytes(m.payload.len() as u32)
            &&& d.subrange(21 + rl, 21 + rl + pl) == m.payload
        }),
{
    let d = spec_serialize(m);
    let rl = m.route.len() as int;
    let pl = m.payload.len() as int;
    assert(d.subrange(3, 7) =~= spec_u32_to_be_bytes(m.sequence));
    assert(d.subrange(7, 15) =~= spec_u64_to_be_bytes(m.timestamp));
    assert(d.subrange(15, 17) =~= spec_u16_to_be_bytes(m.route.len() as u16));
    assert(d.subrange(17, 17 + rl) =~= m.route);
    assert(d.subrange(17 + rl, 21 + rl) =~= spec_u32_to_be_bytes(m.payload.len() as u32));
    assert(d.subrange(21 + rl, 21 + rl + pl) =~= m.payload);
}

/// Codec round-trip law: parsing the serialization of any packet that fits
/// the wire format, carries the supported version, and has a UTF-8 route
/// recovers the packet exactly, every flag bit and byte included.
pub proof fn lemma_codec_round_trip(m: PacketModel)
    requires
        m.wf_wire(),
        m.version == PROTOCOL_VERSION,
        valid_utf8(m.route),
    ensures
        spec_parse(spec_serialize(m)) == Some(m),
{
    let d = spec_serialize(m);
    let rl = m.route.len() as int;
    let pl = m.payload.len() as int;
    lemma_serialize_shape(m);
    lemma_flags_byte_round_trip(m.flags);
    crate::wire::lemma_u16_be_round_trip(m.route.len() as u16);
    crate::wire::lemma_u32_be_round_trip(m.sequence);
    crate::wire::lemma_u32_be_round_trip(m.payload.len() as u32);
    crate::wire::lemma_u64_be_round_trip(m.timestamp);
    assert(spec_u16_from_be_bytes(d.subrange(15, 17)) as int == rl);
    assert(spec_u32_from_be_bytes(d.subrange(17 + rl, 21 + rl)) as int == pl);
    assert(spec_parse(d) matches Some(p) && p =~= m);
}

/// The round-trip law holds in particular of every packet satisfying the
/// full data-model invariant.
pub proof fn lemma_codec_round_trip_valid(m: PacketModel)
    requires
        m.valid(),
    ensures
        spec_parse(spec_serialize(m)) == Some(m),
{
    lemma_codec_round_trip(m);
}

/// Codec rejection law, wrong version: any input long enough to read a header
/// whose version byte is not the supported one fails to parse, and is the
/// very condition `deserialize` reports as `VersionMismatch`.
pub proof fn lemma_version_rejected(d: Seq<u8>)
    requires
        d.len() >= 20,
        d[0] != PROTOCOL_VERSION,
    ensures
        spec_parse(d) is None,
        spec_version_rejected(d),
{
}

/// Codec rejection law, unknown type: any input long enough to read a header,
/// with the supported version but a type byte outside the known set, fails to
/// parse without being a version mismatch, so `deserialize` reports
/// `InvalidPacket`.
pub proof fn lemma_unknown_type_rejected(d: Seq<u8>)
    requires
        d.len() >= 20,
        d[0] == PROTOCOL_VERSION,
        PacketType::spec_from_byte(d[1]) is None,
    ensures
        spec_parse(d) is None,
        !spec_version_rejected(d),
{
}

/// Codec rejection law, truncation: cutting any positive number of bytes off
/// the end of a valid serialization leaves bytes that fail to parse without
/// being a version mismatch, so `deserialize` reports `InvalidPacket`.
pub proof fn lemma_truncation_rejected(m: PacketModel, k: int)
    requires
        m.wf_wire(),
        m.version == PROTOCOL_VERSION,
        valid_utf8(m.route),
        1 <= k <= spec_serialize(m).len(),
    ensures
        spec_parse(spec_serialize(m).take(spec_serialize(m).len() - k)) is None,
        !spec_version_rejected(spec_serialize(m).take(spec_serialize(m).len() - k)),
{
    let d = spec_serialize(m);
    let rl = m.route.len() as int;
    let pl = m.payload.len() as int;
    let t = d.take(d.len() - k);
    lemma_serialize_shape(m);
    lemma_flags_byte_round_trip(m.flags);
    crate::wire::lemma_u16_be_round_trip(m.route.len() as u16);
    crate::wire::lemma_u32_be_round_trip(m.payload.len() as u32);
    assert(t.len() == d.len() - k);
    assert forall|i: int| 0 <= i < t.len() implies t[i] == d[i] by {}
    if t.len() < 20 {
        assert(spec_parse(t) is None);
    } else {
        assert(t[0] == PROTOCOL_VERSION);
        assert(t.subrange(15, 17) =~= d.subrange(15, 17));
        assert(spec_u16_from_be_bytes(t.subrange(15, 17)) as int == rl);
        if t.len() < 17 + rl {
            assert(spec_parse(t) is None);
        } else {
            assert(t.subrange(17, 17 + rl) =~= m.route);
            if t.len() < 21 + rl {
                assert(spec_parse(t) is None);
            } else {
                assert(t.subrange(17 + rl, 21 + rl) =~= d.subrange(17 + rl, 21 + rl));
                assert(spec_u32_from_be_bytes(t.subrange(17 + rl, 21 + rl)) as int == pl);
                assert(t.len() < 21 + rl + pl);
                assert(spec_parse(t) is None);
            }
        }
    }
}

} // verus!
