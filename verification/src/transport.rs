//! Reliable-send bookkeeping over an unreliable datagram link.
//!
//! The transport here is the protocol state machine alone: it allocates
//! sequence numbers, applies the send and receive transform pipelines,
//! records pending packets awaiting acknowledgment, and decides what the
//! retransmission sweep re-emits. It never touches a socket; every function
//! turns plain bytes and a clock reading into plain bytes and new state, so
//! the I/O shell around it only transmits what it is handed.

use vstd::prelude::*;
use vstd::utf8::valid_utf8;

use crate::compression::{spec_decompress, CompressionModel, CompressionProvider};
use crate::crypto::{spec_decrypt, CryptoModel, CryptoProvider};
use crate::error::ProtocolError;
use crate::packet::{
    spec_parse, spec_serialize, spec_version_rejected, Packet, PacketFlags, PacketModel,
    PacketType,
};
use crate::{DEFAULT_ACK_TIMEOUT_MS, MAX_RETRANSMIT_ATTEMPTS, PROTOCOL_VERSION};

verus! {

/// A datagram endpoint: numeric host address and port. IPv4 addresses occupy
/// the low 32 bits of `ip`.
#[derive(Debug, Clone, Copy, PartialEq, Eq, Structural)]
pub struct Addr {
    /// The host address as an integer.
    pub ip: u128,
    /// The UDP port.
    pub port: u16,
    /// True for an IPv6 address.
    pub v6: bool,
}

/// Tunables of one transport.
#[derive(Debug, Clone, Copy, PartialEq, Eq, Structural)]
pub struct TransportConfig {
    /// How long to wait for an acknowledgment before retransmitting, in
    /// milliseconds.
    pub ack_timeout_ms: u64,
    /// How many retransmission attempts a pending packet gets before it is
    /// dropped.
    pub max_retransmit: u8,
    /// How often the heartbeat task emits, in milliseconds.
    pub heartbeat_interval_ms: u64,
    /// Encrypt outgoing reliable payloads when a crypto provider is present.
    pub enable_encryption: bool,
    /// Compress outgoing reliable payloads when a compression provider is
    /// present.
    pub enable_compression: bool,
}

impl Default for TransportConfig {
    /// One-second acknowledgment timeout, three retransmissions, 30-second
    /// heartbeat, both transforms off.
    fn default() -> (r: TransportConfig)
        ensures
            r == (TransportConfig {
                ack_timeout_ms: DEFAULT_ACK_TIMEOUT_MS,
                max_retransmit: MAX_RETRANSMIT_ATTEMPTS,
                heartbeat_interval_ms: 30000,
                enable_encryption: false,
                enable_compression: false,
            }),
    {
        TransportConfig {
            ack_timeout_ms: DEFAULT_ACK_TIMEOUT_MS,
            max_retransmit: MAX_RETRANSMIT_ATTEMPTS,
            heartbeat_interval_ms: 30000,
            enable_encryption: false,
            enable_compression: false,
        }
    }
}

/// The mathematical value of a pending packet.
#[verifier::ext_equal]
pub struct PendingModel {
    /// The packet exactly as it went out, transforms applied, so that a
    /// retransmission is byte-identical.
    pub packet: PacketModel,
    /// Where it was sent.
    pub dest: Addr,
    /// Clock reading, in milliseconds, when it was last transmitted.
    pub sent_at: u64,
    /// Retransmissions already spent on it.
    pub attempts: u8,
}

/// A packet awaiting acknowledgment, keyed by its sequence number.
pub struct PendingPacket {
    /// The packet exactly as it went out, transforms applied.
    pub packet: Packet,
    /// Where it was sent.
    pub dest: Addr,
    /// Clock reading, in milliseconds, when it was last transmitted.
    pub sent_at: u64,
    /// Retransmissions already spent on it.
    pub attempts: u8,
}

impl View for PendingPacket {
    type V = PendingModel;

    open spec fn view(&self) -> PendingModel {
        PendingModel {
            packet: self.packet@,
            dest: self.dest,
            sent_at: self.sent_at,
            attempts: self.attempts,
        }
    }
}

/// The mathematical value of a transport: its configuration, the next
/// sequence number, the pending packets in insertion order, and the models of
/// its optional transform providers.
#[verifier::ext_equal]
pub struct TransportModel {
    /// Tunables.
    pub config: TransportConfig,
    /// The sequence number the next reliable send will use.
    pub sequence: u32,
    /// Packets awaiting acknowledgment, oldest first.
    pub pending: Seq<PendingModel>,
    /// The crypto provider, if one was set.
    pub crypto: Option<CryptoModel>,
    /// The compression provider, if one was set.
    pub compression: Option<CompressionModel>,
}

/// The reliable-send state machine.
pub struct Transport {
    config: TransportConfig,
    sequence: u32,
    pending_acks: Vec<PendingPacket>,
    crypto: Option<CryptoProvider>,
    compression: Option<CompressionProvider>,
}

/// The models of the given pending packets, in order.
pub open spec fn spec_views(s: Seq<PendingPacket>) -> Seq<PendingModel> {
    s.map_values(|e: PendingPacket| e@)
}

impl View for Transport {
    type V = TransportModel;

    closed spec fn view(&self) -> TransportModel {
        TransportModel {
            config: self.config,
            sequence: self.sequence,
            pending: spec_views(self.pending_acks@),
            crypto: match self.crypto {
                Some(c) => Some(c@),
                None => None,
            },
            compression: match self.compression {
                Some(c) => Some(c@),
                None => None,
            },
        }
    }
}

/// True when some pending entry carries the given sequence.
pub open spec fn spec_has_seq(s: Seq<PendingModel>, sequence: u32) -> bool {
    exists|i: int| 0 <= i < s.len() && s[i].packet.sequence == sequence
}

/// The pending entries with every entry of the given sequence removed,
/// order otherwise kept.
pub open spec fn spec_remove_seq(s: Seq<PendingModel>, sequence: u32) -> Seq<PendingModel>
    decreases s.len(),
{
    if s.len() == 0 {
        Seq::empty()
    } else if s[0].packet.sequence == sequence {
        spec_remove_seq(s.drop_first(), sequence)
    } else {
        seq![s[0]] + spec_remove_seq(s.drop_first(), sequence)
    }
}

/// Well-formed pending state: sequences are pairwise distinct — at most one
/// in-flight entry per active sequence — and every recorded packet fits the
/// wire format.
pub open spec fn spec_pending_wf(s: Seq<PendingModel>, cfg: TransportConfig) -> bool {
    &&& forall|i: int, j: int|
        0 <= i < j < s.len() ==> (#[trigger] s[i].packet).sequence != (
        #[trigger] s[j].packet).sequence
    &&& forall|i: int| 0 <= i < s.len() ==> (#[trigger] s[i].packet).wf_wire()
}

/// Removing a sequence that no entry carries changes nothing.
proof fn lemma_remove_seq_absent(s: Seq<PendingModel>, sequence: u32)
    requires
        !spec_has_seq(s, sequence),
    ensures
        spec_remove_seq(s, sequence) == s,
    decreases s.len(),
{
    if s.len() > 0 {
        assert(s[0].packet.sequence != sequence);
        assert(!spec_has_seq(s.drop_first(), sequence)) by {
            assert(forall|i: int|
                0 <= i < s.drop_first().len() ==> s.drop_first()[i] == s[i + 1]);
        }
        lemma_remove_seq_absent(s.drop_first(), sequence);
        assert(spec_remove_seq(s, sequence) =~= s);
    } else {
        assert(spec_remove_seq(s, sequence) =~= s);
    }
}

/// When sequences are pairwise distinct and entry `i` carries the sequence,
/// removing the sequence removes exactly entry `i`.
proof fn lemma_remove_seq_at(s: Seq<PendingModel>, sequence: u32, i: int)
    requires
        forall|a: int, b: int|
            0 <= a < b < s.len() ==> (#[trigger] s[a].packet).sequence != (
            #[trigger] s[b].packet).sequence,
        0 <= i < s.len(),
        s[i].packet.sequence == sequence,
    ensures
        spec_remove_seq(s, sequence) == s.remove(i),
    decreases s.len(),
{
    if i == 0 {
        assert(!spec_has_seq(s.drop_first(), sequence)) by {
            assert(forall|k: int|
                0 <= k < s.drop_first().len() ==> s.drop_first()[k] == s[k + 1]);
        }
        lemma_remove_seq_absent(s.drop_first(), sequence);
        assert(spec_remove_seq(s, sequence) =~= s.remove(0));
    } else {
        assert(s[0].packet.sequence != sequence);
        lemma_remove_seq_at(s.drop_first(), sequence, i - 1);
        assert(spec_remove_seq(s, sequence) =~= s.remove(i)) by {
            assert(s.drop_first().remove(i - 1) =~= s.remove(i).drop_first());
        }
    }
}

/// Every entry that survives a removal was present before.
proof fn lemma_remove_seq_contains(s: Seq<PendingModel>, sequence: u32)
    ensures
        forall|x: PendingModel| #[trigger]
            spec_remove_seq(s, sequence).contains(x) ==> s.contains(x)
                && x.packet.sequence != sequence,
    decreases s.len(),
{
    if s.len() > 0 {
        lemma_remove_seq_contains(s.drop_first(), sequence);
        let r = spec_remove_seq(s, sequence);
        let rt = spec_remove_seq(s.drop_first(), sequence);
        assert forall|x: PendingModel| #[trigger] r.contains(x) implies s.contains(x)
            && x.packet.sequence != sequence by {
            if s[0].packet.sequence == sequence {
                assert(r == rt);
                assert(rt.contains(x));
                assert(s.drop_first().contains(x));
                let m = choose|m: int| 0 <= m < s.drop_first().len() && s.drop_first()[m] == x;
                assert(s[m + 1] == x);
                assert(s.contains(x));
            } else {
                assert(r == seq![s[0]] + rt);
                let k = choose|k: int| 0 <= k < r.len() && r[k] == x;
                if k == 0 {
                    assert(s[0] == x);
                    assert(s.contains(x));
                } else {
                    assert(rt[k - 1] == x);
                    assert(rt.contains(x));
                    assert(s.drop_first().contains(x));
                    let m = choose|m: int| 0 <= m < s.drop_first().len() && s.drop_first()[m] == x;
                    assert(s[m + 1] == x);
                    assert(s.contains(x));
                }
            }
        }
    }
}

/// Removal preserves well-formedness and leaves no entry with the sequence.
proof fn lemma_remove_seq_wf(s: Seq<PendingModel>, sequence: u32, cfg: TransportConfig)
    requires
        spec_pending_wf(s, cfg),
    ensures
        spec_pending_wf(spec_remove_seq(s, sequence), cfg),
        !spec_has_seq(spec_remove_seq(s, sequence), sequence),
    decreases s.len(),
{
    lemma_remove_seq_contains(s, sequence);
    let r = spec_remove_seq(s, sequence);
    assert forall|i: int| 0 <= i < r.len() implies (#[trigger] r[i]).packet.wf_wire() by {
        assert(r.contains(r[i]));
        let k = choose|k: int| 0 <= k < s.len() && s[k] == r[i];
    }
    assert forall|i: int| 0 <= i < r.len() implies (#[trigger] r[i]).packet.sequence != sequence by {
        assert(r.contains(r[i]));
    }
    if s.len() > 0 {
        assert(spec_pending_wf(s.drop_first(), cfg)) by {
            assert(forall|k: int|
                0 <= k < s.drop_first().len() ==> s.drop_first()[k] == s[k + 1]);
        }
        lemma_remove_seq_wf(s.drop_first(), sequence, cfg);
        if s[0].packet.sequence != sequence {
            let rt = spec_remove_seq(s.drop_first(), sequence);
            lemma_remove_seq_contains(s.drop_first(), sequence);
            assert forall|a: int, b: int| 0 <= a < b < r.len() implies (
            #[trigger] r[a].packet).sequence != (#[trigger] r[b].packet).sequence by {
                if a == 0 {
                    assert(r[b] == rt[b - 1]);
                    assert(rt.contains(rt[b - 1]));
                    let m = choose|m: int|
                        0 <= m < s.drop_first().len() && s.drop_first()[m] == rt[b - 1];
                    assert(s[m + 1] == rt[b - 1]);
                    assert(s[0].packet.sequence != s[m + 1].packet.sequence);
                } else {
                    assert(r[a] == rt[a - 1] && r[b] == rt[b - 1]);
                }
            }
        }
    }
}

impl Transport {
    /// Well-formed transport state.
    pub open spec fn wf(self) -> bool {
        spec_pending_wf(self@.pending, self@.config)
    }

    /// A fresh transport: sequence counter at zero, nothing pending, no
    /// transform providers.
    pub fn new(config: TransportConfig) -> (r: Transport)
        ensures
            r.wf(),
            r@ == (TransportModel {
                config,
                sequence: 0,
                pending: Seq::<PendingModel>::empty(),
                crypto: None::<CryptoModel>,
                compression: None::<CompressionModel>,
            }),
    {
        let r = Transport {
            config,
            sequence: 0,
            pending_acks: Vec::new(),
            crypto: None,
            compression: None,
        };
        proof {
            assert(r@.pending =~= Seq::<PendingModel>::empty());
            assert(r@ =~= (TransportModel {
                config,
                sequence: 0,
                pending: Seq::<PendingModel>::empty(),
                crypto: None::<CryptoModel>,
                compression: None::<CompressionModel>,
            }));
        }
        r
    }

    /// Installs the encryption provider.
    pub fn set_crypto(&mut self, crypto: CryptoProvider)
        requires
            old(self).wf(),
        ensures
            final(self).wf(),
            final(self)@ == (TransportModel { crypto: Some(crypto@), ..old(self)@ }),
    {
        let ghost c = crypto@;
        self.crypto = Some(crypto);
        proof {
            assert(final(self)@ =~= (TransportModel { crypto: Some(c), ..old(self)@ }));
        }
    }

    /// Installs the compression provider.
    pub fn set_compression(&mut self, compression: CompressionProvider)
        requires
            old(self).wf(),
        ensures
            final(self).wf(),
            final(self)@ == (TransportModel { compression: Some(compression@), ..old(self)@ }),
    {
        let ghost c = compression@;
        self.compression = Some(compression);
        proof {
            assert(final(self)@ =~= (TransportModel { compression: Some(c), ..old(self)@ }));
        }
    }

    /// The transport's configuration.
    pub fn config(&self) -> (r: TransportConfig)
        ensures
            r == self@.config,
    {
        self.config
    }

    /// How many packets are awaiting acknowledgment.
    pub fn pending_len(&self) -> (r: usize)
        ensures
            r == self@.pending.len(),
    {
        self.pending_acks.len()
    }

    /// True when a packet with the given sequence is awaiting acknowledgment.
    pub fn has_pending(&self, sequence: u32) -> (r: bool)
        ensures
            r == spec_has_seq(self@.pending, sequence),
    {
        match self.find_pending(sequence) {
            Some(_) => true,
            None => false,
        }
    }

    /// The index of the pending entry carrying the sequence, if any.
    fn find_pending(&self, sequence: u32) -> (r: Option<usize>)
        ensures
            r matches Some(i) ==> i < self@.pending.len() && self@.pending[i as int].packet.sequence
                == sequence,
            r is None ==> !spec_has_seq(self@.pending, sequence),
    {
        let mut i: usize = 0;
        while i < self.pending_acks.len()
            invariant
                i <= self@.pending.len(),
                self@.pending.len() == self.pending_acks@.len(),
                forall|k: int| 0 <= k < i ==> self@.pending[k].packet.sequence != sequence,
            decreases self.pending_acks@.len() - i,
        {
            if self.pending_acks[i].packet.sequence == sequence {
                return Some(i);
            }
            i = i + 1;
        }
        None
    }

    /// Acknowledgment handling: drops the pending entry carrying the
    /// sequence. A sequence with no entry is ignored, so repeated
    /// acknowledgments are harmless.
    pub fn handle_ack(&mut self, sequence: u32)
        requires
            old(self).wf(),
        ensures
            final(self).wf(),
            final(self)@ == (TransportModel {
                pending: spec_remove_seq(old(self)@.pending, sequence),
                ..old(self)@
            }),
            !spec_has_seq(final(self)@.pending, sequence),
    {
        let found = self.find_pending(sequence);
        proof {
            lemma_remove_seq_wf(self@.pending, sequence, self@.config);
        }
        match found {
            Some(i) => {
                self.pending_acks.remove(i);
                proof {
                    lemma_remove_seq_at(old(self)@.pending, sequence, i as int);
                    assert(spec_views(self.pending_acks@) =~= old(self)@.pending.remove(i as int));
                    assert(final(self)@ =~= (TransportModel {
                        pending: spec_remove_seq(old(self)@.pending, sequence),
                        ..old(self)@
                    }));
                }
            },
            None => {
                proof {
                    lemma_remove_seq_absent(self@.pending, sequence);
                    assert(final(self)@ =~= (TransportModel {
                        pending: spec_remove_seq(old(self)@.pending, sequence),
                        ..old(self)@
                    }));
                }
            },
        }
    }

    /// Negative-acknowledgment handling: whenever an entry with the sequence
    /// exists, spends one retransmission attempt on it — saturating at the
    /// counter's limit — and resets its timer, so the next sweep re-emits it
    /// while attempts remain and evicts it otherwise. An unknown sequence is
    /// ignored.
    pub fn handle_nack(&mut self, sequence: u32, now_ms: u64)
        requires
            old(self).wf(),
        ensures
            final(self).wf(),
            final(self)@.config == old(self)@.config,
            final(self)@.sequence == old(self)@.sequence,
            final(self)@.crypto == old(self)@.crypto,
            final(self)@.compression == old(self)@.compression,
            forall|i: int|
                0 <= i < old(self)@.pending.len()
                    && old(self)@.pending[i].packet.sequence == sequence
                    ==> final(self)@.pending == old(self)@.pending.update(
                    i,
                    (PendingModel {
                        sent_at: now_ms,
                        attempts: (if old(self)@.pending[i].attempts < 255 {
                            (old(self)@.pending[i].attempts + 1) as u8
                        } else {
                            255u8
                        }),
                        ..old(self)@.pending[i]
                    }),
                ),
            !spec_has_seq(old(self)@.pending, sequence) ==> final(self)@.pending == old(
                self,
            )@.pending,
    {
        let found = self.find_pending(sequence);
        match found {
            Some(i) => {
                let mut entry = self.pending_acks.remove(i);
                if entry.attempts < 255 {
                    entry.attempts = entry.attempts + 1;
                }
                entry.sent_at = now_ms;
                self.pending_acks.insert(i, entry);
                proof {
                    assert(spec_views(self.pending_acks@) =~= old(self)@.pending.update(
                        i as int,
                        (PendingModel {
                            sent_at: now_ms,
                            attempts: (if old(self)@.pending[i as int].attempts < 255 {
                                (old(self)@.pending[i as int].attempts + 1) as u8
                            } else {
                                255u8
                            }),
                            ..old(self)@.pending[i as int]
                        }),
                    ));
                    assert forall|a: int|
                        0 <= a < old(self)@.pending.len() && old(self)@.pending[a].packet.sequence
                            == sequence implies a == i as int by {
                        if a != i as int {
                            assert(old(self)@.pending[a].packet.sequence != old(
                                self,
                            )@.pending[i as int].packet.sequence);
                        }
                    }
                }
            },
            None => {
                proof {
                    assert(spec_views(self.pending_acks@) =~= old(self)@.pending);
                }
            },
        }
    }
}

/// The payload after undoing the encryption stage: the payload itself when
/// the encrypted flag is clear, otherwise what the provider's cipher opens —
/// and nothing without a provider.
pub open spec fn spec_decrypt_stage(
    flags: PacketFlags,
    payload: Seq<u8>,
    crypto: Option<CryptoModel>,
) -> Option<Seq<u8>> {
    if !flags.encrypted {
        Some(payload)
    } else {
        match crypto {
            Some(c) => spec_decrypt(c.algorithm, c.key, payload),
            None => None,
        }
    }
}

/// The payload after undoing the compression stage: the bytes themselves when
/// the compressed flag is clear, otherwise what the provider's codec inflates
/// — and nothing without a provider.
pub open spec fn spec_decompress_stage(
    flags: PacketFlags,
    payload: Seq<u8>,
    compression: Option<CompressionModel>,
) -> Option<Seq<u8>> {
    if !flags.compressed {
        Some(payload)
    } else {
        match compression {
            Some(c) => spec_decompress(c.algorithm, payload),
            None => None,
        }
    }
}

/// The original payload recovered from a transformed one: decrypt, then
/// decompress, as the flags demand.
pub open spec fn spec_recover_result(
    flags: PacketFlags,
    payload: Seq<u8>,
    crypto: Option<CryptoModel>,
    compression: Option<CompressionModel>,
) -> Option<Seq<u8>> {
    match spec_decrypt_stage(flags, payload, crypto) {
        Some(mid) => spec_decompress_stage(flags, mid, compression),
        None => None,
    }
}

/// True when every enabled transform has its provider: the configuration a
/// send requires before it will build a packet.
pub open spec fn spec_transforms_ready(t: TransportModel) -> bool {
    &&& t.config.enable_compression ==> t.compression is Some
    &&& t.config.enable_encryption ==> t.crypto is Some
}

impl Transport {
    /// Builds the transformed data packet for one reliable send, serializes
    /// it, and records it pending under `sequence`, replacing any entry
    /// already there. Returns the wire bytes for the shell to transmit.
    /// An enabled transform whose provider is missing is an error, not a
    /// silent skip.
    fn enqueue_data(
        &mut self,
        route: Vec<u8>,
        payload: Vec<u8>,
        dest: Addr,
        sequence: u32,
        now_ms: u64,
    ) -> (r: Result<Vec<u8>, ProtocolError>)
        requires
            old(self).wf(),
            valid_utf8(route@),
        ensures
            final(self).wf(),
            final(self)@.config == old(self)@.config,
            final(self)@.sequence == old(self)@.sequence,
            final(self)@.crypto == old(self)@.crypto,
            final(self)@.compression == old(self)@.compression,
            (spec_transforms_ready(old(self)@) && !old(self)@.config.enable_compression
                && route@.len() <= 0xffff && payload@.len() + (if old(
                self,
            )@.config.enable_encryption {
                28int
            } else {
                0int
            }) <= 0xffff_ffff && 21 + route@.len() + payload@.len() + (if old(
                self,
            )@.config.enable_encryption {
                28int
            } else {
                0int
            }) <= usize::MAX) ==> r is Ok,
            old(self)@.config.enable_compression && old(self)@.compression is None ==> (r matches
            Err(e) && e is Compression),
            !(old(self)@.config.enable_compression && old(self)@.compression is None) && old(
                self,
            )@.config.enable_encryption && old(self)@.crypto is None ==> (r matches Err(e)
                && e is Encryption),
            spec_transforms_ready(old(self)@) && r is Err ==> r->Err_0 is Encryption
                || r->Err_0 is InvalidPacket,
            r matches Ok(w) ==> ({
                let pm = spec_parse(w@).unwrap();
                &&& spec_parse(w@) is Some
                &&& w@ == spec_serialize(pm)
                &&& pm.version == PROTOCOL_VERSION
                &&& pm.packet_type == PacketType::Data
                &&& pm.flags.requires_ack
                &&& pm.flags.encrypted == old(self)@.config.enable_encryption
                &&& pm.flags.compressed == old(self)@.config.enable_compression
                &&& pm.sequence == sequence
                &&& pm.timestamp == now_ms
                &&& pm.route == route@
                &&& spec_recover_result(pm.flags, pm.payload, old(self)@.crypto, old(
                    self,
                )@.compression) == Some(payload@)
                &&& final(self)@.pending == spec_remove_seq(old(self)@.pending, sequence).push(
                    (PendingModel { packet: pm, dest, sent_at: now_ms, attempts: 0 }),
                )
            }),
            r is Err ==> final(self)@.pending == old(self)@.pending && (r->Err_0 is Compression
                || r->Err_0 is Encryption || r->Err_0 is InvalidPacket),
    {
        let mut data = payload;
        let mut compressed = false;
        let mut encrypted = false;
        if self.config.enable_compression {
            match &self.compression {
                Some(provider) => {
                    match provider.compress(data.as_slice()) {
                        Ok(c) => {
                            data = c;
                            compressed = true;
                        },
                        Err(e) => {
                            return Err(e);
                        },
                    }
                },
                None => {
                    return Err(
                        ProtocolError::Compression(
                            "compression enabled but no provider".to_owned(),
                        ),
                    );
                },
            }
        }
        if self.config.enable_encryption {
            match &self.crypto {
                Some(provider) => {
                    match provider.encrypt(data.as_slice()) {
                        Ok(c) => {
                            data = c;
                            encrypted = true;
                        },
                        Err(e) => {
                            return Err(e);
                        },
                    }
                },
                None => {
                    return Err(
                        ProtocolError::Encryption(
                            "encryption enabled but no provider".to_owned(),
                        ),
                    );
                },
            }
        }
        let packet = Packet {
            version: PROTOCOL_VERSION,
            packet_type: PacketType::Data,
            flags: PacketFlags { encrypted, compressed, requires_ack: true },
            sequence,
            timestamp: now_ms,
            route,
            payload: data,
        };
        let wire = match packet.serialize() {
            Ok(w) => w,
            Err(e) => {
                return Err(e);
            },
        };
        proof {
            crate::packet::lemma_codec_round_trip(packet@);
            lemma_remove_seq_wf(self@.pending, sequence, self@.config);
        }
        match self.find_pending(sequence) {
            Some(i) => {
                self.pending_acks.remove(i);
                proof {
                    lemma_remove_seq_at(old(self)@.pending, sequence, i as int);
                    assert(spec_views(self.pending_acks@) =~= old(self)@.pending.remove(i as int));
                }
            },
            None => {
                proof {
                    lemma_remove_seq_absent(self@.pending, sequence);
                }
            },
        }
        let entry = PendingPacket { packet, dest, sent_at: now_ms, attempts: 0 };
        self.pending_acks.push(entry);
        proof {
            assert(spec_views(self.pending_acks@) =~= spec_remove_seq(
                old(self)@.pending,
                sequence,
            ).push(entry@));
        }
        Ok(wire)
    }

    /// The send pipeline: allocates the next sequence number — monotonic
    /// modulo 2^32 — builds a data packet demanding acknowledgment, applies
    /// the enabled transforms (compress, then encrypt; an enabled transform
    /// whose provider is missing is an error), serializes it, and
    /// records it pending for retransmission. Returns the sequence and the
    /// wire bytes for the shell to transmit. That the route is UTF-8 is the
    /// caller's invariant.
    pub fn send_reliable(
        &mut self,
        route: Vec<u8>,
        payload: Vec<u8>,
        dest: Addr,
        now_ms: u64,
    ) -> (r: Result<(u32, Vec<u8>), ProtocolError>)
        requires
            old(self).wf(),
            valid_utf8(route@),
        ensures
            final(self).wf(),
            final(self)@.config == old(self)@.config,
            final(self)@.crypto == old(self)@.crypto,
            final(self)@.compression == old(self)@.compression,
            final(self)@.sequence == ((old(self)@.sequence + 1) % 0x1_0000_0000) as u32,
            (spec_transforms_ready(old(self)@) && !old(self)@.config.enable_compression
                && route@.len() <= 0xffff && payload@.len() + (if old(
                self,
            )@.config.enable_encryption {
                28int
            } else {
                0int
            }) <= 0xffff_ffff && 21 + route@.len() + payload@.len() + (if old(
                self,
            )@.config.enable_encryption {
                28int
            } else {
                0int
            }) <= usize::MAX) ==> r is Ok,
            old(self)@.config.enable_compression && old(self)@.compression is None ==> (r matches
            Err(e) && e is Compression),
            !(old(self)@.config.enable_compression && old(self)@.compression is None) && old(
                self,
            )@.config.enable_encryption && old(self)@.crypto is None ==> (r matches Err(e)
                && e is Encryption),
            spec_transforms_ready(old(self)@) && r is Err ==> r->Err_0 is Encryption
                || r->Err_0 is InvalidPacket,
            r matches Ok((s, w)) ==> s == old(self)@.sequence && ({
                let pm = spec_parse(w@).unwrap();
                &&& spec_parse(w@) is Some
                &&& w@ == spec_serialize(pm)
                &&& pm.version == PROTOCOL_VERSION
                &&& pm.packet_type == PacketType::Data
                &&& pm.flags.requires_ack
                &&& pm.flags.encrypted == old(self)@.config.enable_encryption
                &&& pm.flags.compressed == old(self)@.config.enable_compression
                &&& pm.sequence == s
                &&& pm.timestamp == now_ms
                &&& pm.route == route@
                &&& spec_recover_result(pm.flags, pm.payload, old(self)@.crypto, old(
                    self,
                )@.compression) == Some(payload@)
                &&& final(self)@.pending == spec_remove_seq(old(self)@.pending, s).push(
                    (PendingModel { packet: pm, dest, sent_at: now_ms, attempts: 0 }),
                )
            }),
            r is Err ==> final(self)@.pending == old(self)@.pending && (r->Err_0 is Compression
                || r->Err_0 is Encryption || r->Err_0 is InvalidPacket),
    {
        let sequence = self.sequence;
        self.sequence = self.sequence.wrapping_add(1);
        match self.enqueue_data(route, payload, dest, sequence, now_ms) {
            Ok(w) => Ok((sequence, w)),
            Err(e) => Err(e),
        }
    }

    /// The reply pipeline: like `send_reliable`, transforms and
    /// missing-provider errors included, but reuses the given sequence — the
    /// reply to a request carries the request's sequence, which is the
    /// protocol's only correlation primitive — and allocates nothing from
    /// the counter.
    pub fn send_reply(
        &mut self,
        route: Vec<u8>,
        payload: Vec<u8>,
        dest: Addr,
        sequence: u32,
        now_ms: u64,
    ) -> (r: Result<Vec<u8>, ProtocolError>)
        requires
            old(self).wf(),
            valid_utf8(route@),
        ensures
            final(self).wf(),
            final(self)@.config == old(self)@.config,
            final(self)@.sequence == old(self)@.sequence,
            final(self)@.crypto == old(self)@.crypto,
            final(self)@.compression == old(self)@.compression,
            (spec_transforms_ready(old(self)@) && !old(self)@.config.enable_compression
                && route@.len() <= 0xffff && payload@.len() + (if old(
                self,
            )@.config.enable_encryption {
                28int
            } else {
                0int
            }) <= 0xffff_ffff && 21 + route@.len() + payload@.len() + (if old(
                self,
            )@.config.enable_encryption {
                28int
            } else {
                0int
            }) <= usize::MAX) ==> r is Ok,
            old(self)@.config.enable_compression && old(self)@.compression is None ==> (r matches
            Err(e) && e is Compression),
            !(old(self)@.config.enable_compression && old(self)@.compression is None) && old(
                self,
            )@.config.enable_encryption && old(self)@.crypto is None ==> (r matches Err(e)
                && e is Encryption),
            spec_transforms_ready(old(self)@) && r is Err ==> r->Err_0 is Encryption
                || r->Err_0 is InvalidPacket,
            r matches Ok(w) ==> ({
                let pm = spec_parse(w@).unwrap();
                &&& spec_parse(w@) is Some
                &&& w@ == spec_serialize(pm)
                &&& pm.version == PROTOCOL_VERSION
                &&& pm.packet_type == PacketType::Data
                &&& pm.flags.requires_ack
                &&& pm.flags.encrypted == old(self)@.config.enable_encryption
                &&& pm.flags.compressed == old(self)@.config.enable_compression
                &&& pm.sequence == sequence
                &&& pm.timestamp == now_ms
                &&& pm.route == route@
                &&& spec_recover_result(pm.flags, pm.payload, old(self)@.crypto, old(
                    self,
                )@.compression) == Some(payload@)
                &&& final(self)@.pending == spec_remove_seq(old(self)@.pending, sequence).push(
                    (PendingModel { packet: pm, dest, sent_at: now_ms, attempts: 0 }),
                )
            }),
            r is Err ==> final(self)@.pending == old(self)@.pending && (r->Err_0 is Compression
                || r->Err_0 is Encryption || r->Err_0 is InvalidPacket),
    {
        self.enqueue_data(route, payload, dest, sequence, now_ms)
    }

    /// The receive pipeline: deserializes one datagram, undoes the transforms
    /// its flags announce — failing with `Encryption` or `Compression` when a
    /// stage fails or its provider is missing — and, for a data packet that
    /// demands acknowledgment, also returns the serialized `Ack` carrying the
    /// same sequence for the shell to transmit best-effort.
    pub fn process_incoming(&self, datagram: &[u8], now_ms: u64) -> (r: Result<
        (Packet, Option<Vec<u8>>),
        ProtocolError,
    >)
        ensures
            r is Ok <==> (spec_parse(datagram@) matches Some(pm) && spec_recover_result(
                pm.flags,
                pm.payload,
                self@.crypto,
                self@.compression,
            ) is Some),
            r matches Ok((p, ack)) ==> ({
                let pm = spec_parse(datagram@).unwrap();
                &&& p@.version == pm.version
                &&& p@.packet_type == pm.packet_type
                &&& p@.flags == pm.flags
                &&& p@.sequence == pm.sequence
                &&& p@.timestamp == pm.timestamp
                &&& p@.route == pm.route
                &&& Some(p@.payload) == spec_recover_result(
                    pm.flags,
                    pm.payload,
                    self@.crypto,
                    self@.compression,
                )
                &&& (ack is Some <==> pm.packet_type == PacketType::Data && pm.flags.requires_ack)
                &&& ack matches Some(b) ==> b@ == spec_serialize(
                    Packet::spec_control_model(PacketType::Ack, pm.sequence, now_ms),
                )
            }),
            r is Err && spec_parse(datagram@) is None ==> ((spec_version_rejected(datagram@)
                ==> r->Err_0.is_version_mismatch(datagram@[0])) && (!spec_version_rejected(
                datagram@,
            ) ==> r->Err_0 is InvalidPacket)),
            r is Err && spec_parse(datagram@) is Some ==> ({
                let pm = spec_parse(datagram@).unwrap();
                &&& spec_decrypt_stage(pm.flags, pm.payload, self@.crypto) is None
                    ==> r->Err_0 is Encryption
                &&& spec_decrypt_stage(pm.flags, pm.payload, self@.crypto) is Some
                    ==> r->Err_0 is Compression
            }),
    {
        let mut packet = match Packet::deserialize(datagram) {
            Ok(p) => p,
            Err(e) => {
                return Err(e);
            },
        };
        if packet.flags.encrypted {
            match &self.crypto {
                Some(provider) => {
                    match provider.decrypt(packet.payload.as_slice()) {
                        Ok(plain) => {
                            packet.payload = plain;
                        },
                        Err(e) => {
                            return Err(e);
                        },
                    }
                },
                None => {
                    return Err(
                        ProtocolError::Encryption(
                            "received encrypted packet but no crypto provider".to_owned(),
                        ),
                    );
                },
            }
        }
        if packet.flags.compressed {
            match &self.compression {
                Some(provider) => {
                    match provider.decompress(packet.payload.as_slice()) {
                        Ok(plain) => {
                            packet.payload = plain;
                        },
                        Err(e) => {
                            return Err(e);
                        },
                    }
                },
                None => {
                    return Err(
                        ProtocolError::Compression(
                            "received compressed packet but no compression provider".to_owned(),
                        ),
                    );
                },
            }
        }
        let ack = if packet.flags.requires_ack && packet.packet_type == PacketType::Data {
            let ack_packet = Packet::new_ack_at(packet.sequence, now_ms);
            match ack_packet.serialize() {
                Ok(bytes) => Some(bytes),
                Err(_) => {
                    proof {
                        assert(false);
                    }
                    None
                },
            }
        } else {
            None
        };
        Ok((packet, ack))
    }
}

/// True when the entry's acknowledgment timer has run out at `now`.
pub open spec fn spec_expired(e: PendingModel, now: u64, cfg: TransportConfig) -> bool {
    now > e.sent_at + cfg.ack_timeout_ms
}

/// True when one sweep at `now` re-emits the entry: its timer ran out and it
/// still has a retransmission attempt left.
pub open spec fn spec_entry_emits(e: PendingModel, now: u64, cfg: TransportConfig) -> bool {
    spec_expired(e, now, cfg) && e.attempts < cfg.max_retransmit
}

/// What one sweep at `now` leaves of the entry: untouched while its timer
/// runs; re-emitted with one more attempt spent and a fresh timer while
/// attempts remain; evicted once they are spent.
pub open spec fn spec_entry_after(e: PendingModel, now: u64, cfg: TransportConfig) -> Option<
    PendingModel,
> {
    if !spec_expired(e, now, cfg) {
        Some(e)
    } else if e.attempts >= cfg.max_retransmit {
        None
    } else {
        Some(PendingModel { sent_at: now, attempts: (e.attempts + 1) as u8, ..e })
    }
}

/// The pending entries one sweep leaves, in order.
pub open spec fn spec_sweep_pending(
    s: Seq<PendingModel>,
    now: u64,
    cfg: TransportConfig,
) -> Seq<PendingModel>
    decreases s.len(),
{
    if s.len() == 0 {
        Seq::empty()
    } else {
        match spec_entry_after(s[0], now, cfg) {
            Some(e2) => seq![e2] + spec_sweep_pending(s.drop_first(), now, cfg),
            None => spec_sweep_pending(s.drop_first(), now, cfg),
        }
    }
}

/// The entries one sweep re-emits, in order, as they were recorded — the
/// retransmitted bytes are the recorded packet's serialization.
pub open spec fn spec_sweep_emits(
    s: Seq<PendingModel>,
    now: u64,
    cfg: TransportConfig,
) -> Seq<PendingModel>
    decreases s.len(),
{
    if s.len() == 0 {
        Seq::empty()
    } else {
        (if spec_entry_emits(s[0], now, cfg) {
            seq![s[0]]
        } else {
            Seq::empty()
        }) + spec_sweep_emits(s.drop_first(), now, cfg)
    }
}

/// One sweep of a sequence ending in `e` is the sweep of the front followed
/// by `e`'s own outcome.
proof fn lemma_sweep_snoc(s: Seq<PendingModel>, e: PendingModel, now: u64, cfg: TransportConfig)
    ensures
        spec_sweep_pending(s.push(e), now, cfg) == spec_sweep_pending(s, now, cfg) + (match
            spec_entry_after(e, now, cfg) {
            Some(e2) => seq![e2],
            None => Seq::<PendingModel>::empty(),
        }),
        spec_sweep_emits(s.push(e), now, cfg) == spec_sweep_emits(s, now, cfg) + (if
            spec_entry_emits(e, now, cfg) {
            seq![e]
        } else {
            Seq::<PendingModel>::empty()
        }),
    decreases s.len(),
{
    if s.len() == 0 {
        assert(s.push(e)[0] == e);
        assert(s.push(e).drop_first() =~= Seq::<PendingModel>::empty());
        assert(s =~= Seq::<PendingModel>::empty());
        assert(spec_sweep_pending(s.push(e).drop_first(), now, cfg) == spec_sweep_pending(
            s,
            now,
            cfg,
        ));
        assert(spec_sweep_pending(s, now, cfg) =~= Seq::<PendingModel>::empty());
        assert(spec_sweep_emits(s.push(e).drop_first(), now, cfg) == spec_sweep_emits(s, now, cfg));
        assert(spec_sweep_emits(s, now, cfg) =~= Seq::<PendingModel>::empty());
        match spec_entry_after(e, now, cfg) {
            Some(e2) => {
                assert(spec_sweep_pending(s.push(e), now, cfg) =~= spec_sweep_pending(s, now, cfg)
                    + seq![e2]);
            },
            None => {
                assert(spec_sweep_pending(s.push(e), now, cfg) =~= spec_sweep_pending(
                    s,
                    now,
                    cfg,
                ));
            },
        }
        if spec_entry_emits(e, now, cfg) {
            assert(spec_sweep_emits(s.push(e), now, cfg) =~= spec_sweep_emits(s, now, cfg)
                + seq![e]);
        } else {
            assert(spec_sweep_emits(s.push(e), now, cfg) =~= spec_sweep_emits(s, now, cfg));
        }
    } else {
        assert(s.push(e)[0] == s[0]);
        assert(s.push(e).drop_first() =~= s.drop_first().push(e));
        lemma_sweep_snoc(s.drop_first(), e, now, cfg);
        match spec_entry_after(s[0], now, cfg) {
            Some(h2) => {
                assert(spec_sweep_pending(s.push(e), now, cfg) =~= spec_sweep_pending(s, now, cfg)
                    + (match spec_entry_after(e, now, cfg) {
                    Some(e2) => seq![e2],
                    None => Seq::<PendingModel>::empty(),
                }));
            },
            None => {
                assert(spec_sweep_pending(s.push(e), now, cfg) =~= spec_sweep_pending(s, now, cfg)
                    + (match spec_entry_after(e, now, cfg) {
                    Some(e2) => seq![e2],
                    None => Seq::<PendingModel>::empty(),
                }));
            },
        }
        assert(spec_sweep_emits(s.push(e), now, cfg) =~= spec_sweep_emits(s, now, cfg) + (if
            spec_entry_emits(e, now, cfg) {
            seq![e]
        } else {
            Seq::<PendingModel>::empty()
        }));
    }
}

/// Every entry a sweep keeps stems from an entry of the input with the same
/// packet.
proof fn lemma_sweep_contains(s: Seq<PendingModel>, now: u64, cfg: TransportConfig)
    ensures
        forall|x: PendingModel| #[trigger]
            spec_sweep_pending(s, now, cfg).contains(x) ==> exists|i: int|
                0 <= i < s.len() && (#[trigger] s[i]).packet == x.packet && x.attempts
                    >= s[i].attempts,
    decreases s.len(),
{
    if s.len() > 0 {
        lemma_sweep_contains(s.drop_first(), now, cfg);
        let r = spec_sweep_pending(s, now, cfg);
        let rt = spec_sweep_pending(s.drop_first(), now, cfg);
        assert forall|x: PendingModel| #[trigger] r.contains(x) implies exists|i: int|
            0 <= i < s.len() && (#[trigger] s[i]).packet == x.packet && x.attempts
                >= s[i].attempts by {
            match spec_entry_after(s[0], now, cfg) {
                Some(h2) => {
                    let k = choose|k: int| 0 <= k < r.len() && r[k] == x;
                    if k == 0 {
                        assert(s[0].packet == x.packet && x.attempts >= s[0].attempts);
                    } else {
                        assert(rt[k - 1] == x);
                        assert(rt.contains(x));
                        let m = choose|m: int|
                            0 <= m < s.drop_first().len() && (#[trigger] s.drop_first()[m]).packet
                                == x.packet && x.attempts >= s.drop_first()[m].attempts;
                        assert(s[m + 1].packet == x.packet && x.attempts >= s[m + 1].attempts);
                    }
                },
                None => {
                    assert(r == rt);
                    assert(rt.contains(x));
                    let m = choose|m: int|
                        0 <= m < s.drop_first().len() && (#[trigger] s.drop_first()[m]).packet
                            == x.packet && x.attempts >= s.drop_first()[m].attempts;
                    assert(s[m + 1].packet == x.packet && x.attempts >= s[m + 1].attempts);
                },
            }
        }
    }
}

/// Every entry a sweep keeps is the outcome of exactly one input entry.
proof fn lemma_sweep_origin(s: Seq<PendingModel>, now: u64, cfg: TransportConfig)
    ensures
        forall|x: PendingModel| #[trigger]
            spec_sweep_pending(s, now, cfg).contains(x) ==> exists|k: int|
                0 <= k < s.len() && spec_entry_after(#[trigger] s[k], now, cfg) == Some(x),
    decreases s.len(),
{
    if s.len() > 0 {
        lemma_sweep_origin(s.drop_first(), now, cfg);
        let r = spec_sweep_pending(s, now, cfg);
        let rt = spec_sweep_pending(s.drop_first(), now, cfg);
        assert forall|x: PendingModel| #[trigger] r.contains(x) implies exists|k: int|
            0 <= k < s.len() && spec_entry_after(#[trigger] s[k], now, cfg) == Some(x) by {
            match spec_entry_after(s[0], now, cfg) {
                Some(h2) => {
                    let k = choose|k: int| 0 <= k < r.len() && r[k] == x;
                    if k == 0 {
                        assert(spec_entry_after(s[0], now, cfg) == Some(x));
                    } else {
                        assert(rt[k - 1] == x);
                        assert(rt.contains(x));
                        let m = choose|m: int|
                            0 <= m < s.drop_first().len() && spec_entry_after(
                                #[trigger] s.drop_first()[m],
                                now,
                                cfg,
                            ) == Some(x);
                        assert(spec_entry_after(s[m + 1], now, cfg) == Some(x));
                    }
                },
                None => {
                    assert(r == rt);
                    assert(rt.contains(x));
                    let m = choose|m: int|
                        0 <= m < s.drop_first().len() && spec_entry_after(
                            #[trigger] s.drop_first()[m],
                            now,
                            cfg,
                        ) == Some(x);
                    assert(spec_entry_after(s[m + 1], now, cfg) == Some(x));
                },
            }
        }
    }
}

/// Each entry's fate under one sweep, seen at the table level: what the
/// sweep keeps of the entry is its own outcome, an evicted entry leaves no
/// trace of its sequence, and a re-emitted entry appears among the
/// re-emissions.
pub proof fn lemma_sweep_entry_fate(s: Seq<PendingModel>, now: u64, cfg: TransportConfig, i: int)
    requires
        spec_pending_wf(s, cfg),
        0 <= i < s.len(),
    ensures
        spec_entry_after(s[i], now, cfg) matches Some(e2) ==> spec_sweep_pending(
            s,
            now,
            cfg,
        ).contains(e2),
        spec_entry_after(s[i], now, cfg) is None ==> !spec_has_seq(
            spec_sweep_pending(s, now, cfg),
            s[i].packet.sequence,
        ),
        spec_entry_emits(s[i], now, cfg) ==> spec_sweep_emits(s, now, cfg).contains(s[i]),
    decreases s.len(),
{
    let r = spec_sweep_pending(s, now, cfg);
    let rt = spec_sweep_pending(s.drop_first(), now, cfg);
    if i == 0 {
        match spec_entry_after(s[0], now, cfg) {
            Some(e2) => {
                assert(r[0] == e2);
                assert(r.contains(e2));
            },
            None => {
                lemma_sweep_origin(s, now, cfg);
                if spec_has_seq(r, s[0].packet.sequence) {
                    let j = choose|j: int|
                        0 <= j < r.len() && r[j].packet.sequence == s[0].packet.sequence;
                    assert(r.contains(r[j]));
                    let k = choose|k: int|
                        0 <= k < s.len() && spec_entry_after(#[trigger] s[k], now, cfg) == Some(
                            r[j],
                        );
                    assert(r[j].packet == s[k].packet);
                    assert(k == 0);
                    assert(false);
                }
            },
        }
        if spec_entry_emits(s[0], now, cfg) {
            assert(spec_sweep_emits(s, now, cfg)[0] == s[0]);
            assert(spec_sweep_emits(s, now, cfg).contains(s[0]));
        }
    } else {
        assert(spec_pending_wf(s.drop_first(), cfg)) by {
            assert(forall|k: int|
                0 <= k < s.drop_first().len() ==> s.drop_first()[k] == s[k + 1]);
        }
        lemma_sweep_entry_fate(s.drop_first(), now, cfg, i - 1);
        assert(s.drop_first()[i - 1] == s[i]);
        match spec_entry_after(s[i], now, cfg) {
            Some(e2) => {
                assert(rt.contains(e2));
                let m = choose|m: int| 0 <= m < rt.len() && rt[m] == e2;
                match spec_entry_after(s[0], now, cfg) {
                    Some(h2) => {
                        assert(r[m + 1] == e2);
                        assert(r.contains(e2));
                    },
                    None => {
                        assert(r.contains(e2));
                    },
                }
            },
            None => {
                assert(!spec_has_seq(rt, s[i].packet.sequence));
                if spec_has_seq(r, s[i].packet.sequence) {
                    let j = choose|j: int|
                        0 <= j < r.len() && r[j].packet.sequence == s[i].packet.sequence;
                    match spec_entry_after(s[0], now, cfg) {
                        Some(h2) => {
                            if j == 0 {
                                assert(h2.packet == s[0].packet);
                                assert(s[0].packet.sequence != s[i].packet.sequence);
                                assert(false);
                            } else {
                                assert(rt[j - 1] == r[j]);
                                assert(spec_has_seq(rt, s[i].packet.sequence));
                                assert(false);
                            }
                        },
                        None => {
                            assert(rt[j] == r[j]);
                            assert(spec_has_seq(rt, s[i].packet.sequence));
                            assert(false);
                        },
                    }
                }
            },
        }
        if spec_entry_emits(s[i], now, cfg) {
            let et = spec_sweep_emits(s.drop_first(), now, cfg);
            let e = spec_sweep_emits(s, now, cfg);
            assert(et.contains(s[i]));
            let m = choose|m: int| 0 <= m < et.len() && et[m] == s[i];
            if spec_entry_emits(s[0], now, cfg) {
                assert(e[m + 1] == s[i]);
                assert(e.contains(s[i]));
            } else {
                assert(e[m] == s[i]);
                assert(e.contains(s[i]));
            }
        }
    }
}

/// A sweep preserves well-formedness.
proof fn lemma_sweep_wf(s: Seq<PendingModel>, now: u64, cfg: TransportConfig)
    requires
        spec_pending_wf(s, cfg),
    ensures
        spec_pending_wf(spec_sweep_pending(s, now, cfg), cfg),
    decreases s.len(),
{
    lemma_sweep_contains(s, now, cfg);
    let r = spec_sweep_pending(s, now, cfg);
    assert forall|i: int| 0 <= i < r.len() implies (#[trigger] r[i]).packet.wf_wire() by {
        assert(r.contains(r[i]));
        if s.len() > 0 {
            match spec_entry_after(s[0], now, cfg) {
                Some(h2) => {
                    if i == 0 {
                    } else {
                        let rt = spec_sweep_pending(s.drop_first(), now, cfg);
                        assert(spec_pending_wf(s.drop_first(), cfg)) by {
                            assert(forall|k: int|
                                0 <= k < s.drop_first().len() ==> s.drop_first()[k] == s[k + 1]);
                        }
                        lemma_sweep_wf(s.drop_first(), now, cfg);
                        assert(rt[i - 1] == r[i]);
                    }
                },
                None => {
                    assert(spec_pending_wf(s.drop_first(), cfg)) by {
                        assert(forall|k: int|
                            0 <= k < s.drop_first().len() ==> s.drop_first()[k] == s[k + 1]);
                    }
                    lemma_sweep_wf(s.drop_first(), now, cfg);
                },
            }
        }
    }
    if s.len() > 0 {
        assert(spec_pending_wf(s.drop_first(), cfg)) by {
            assert(forall|k: int|
                0 <= k < s.drop_first().len() ==> s.drop_first()[k] == s[k + 1]);
        }
        lemma_sweep_wf(s.drop_first(), now, cfg);
        lemma_sweep_contains(s.drop_first(), now, cfg);
        let rt = spec_sweep_pending(s.drop_first(), now, cfg);
        assert forall|a: int, b: int| 0 <= a < b < r.len() implies (#[trigger] r[a].packet).sequence
            != (#[trigger] r[b].packet).sequence by {
            match spec_entry_after(s[0], now, cfg) {
                Some(h2) => {
                    if a == 0 {
                        assert(r[b] == rt[b - 1]);
                        assert(rt.contains(rt[b - 1]));
                        let m = choose|m: int|
                            0 <= m < s.drop_first().len() && (#[trigger] s.drop_first()[m]).packet
                                == rt[b - 1].packet && rt[b - 1].attempts >= s.drop_first()[
                                m].attempts;
                        assert(s[m + 1].packet == rt[b - 1].packet);
                        assert(s[0].packet.sequence != s[m + 1].packet.sequence);
                    } else {
                        assert(r[a] == rt[a - 1] && r[b] == rt[b - 1]);
                    }
                },
                None => {
                    assert(r[a] == rt[a] && r[b] == rt[b]);
                },
            }
        }
    }
}

impl Transport {
    /// The retransmission sweep, run by the shell's timer: every entry whose
    /// acknowledgment timer has run out is re-emitted — the recorded bytes,
    /// unchanged — with one more attempt spent and a fresh timer, unless its
    /// attempts are already spent, in which case it is evicted with no signal
    /// to the caller; the caller's own timeout governs that path. Returns the
    /// wire bytes and destinations to re-transmit, in order.
    pub fn sweep_retransmissions(&mut self, now_ms: u64) -> (r: Vec<(Vec<u8>, Addr)>)
        requires
            old(self).wf(),
        ensures
            final(self).wf(),
            final(self)@.config == old(self)@.config,
            final(self)@.sequence == old(self)@.sequence,
            final(self)@.crypto == old(self)@.crypto,
            final(self)@.compression == old(self)@.compression,
            final(self)@.pending == spec_sweep_pending(
                old(self)@.pending,
                now_ms,
                old(self)@.config,
            ),
            r@.len() == spec_sweep_emits(old(self)@.pending, now_ms, old(self)@.config).len(),
            forall|i: int|
                0 <= i < r@.len() ==> (#[trigger] r@[i]).0@ == spec_serialize(
                    spec_sweep_emits(old(self)@.pending, now_ms, old(self)@.config)[i].packet,
                ) && r@[i].1 == spec_sweep_emits(old(self)@.pending, now_ms, old(
                    self,
                )@.config)[i].dest,
    {
        let ghost orig = self@.pending;
        let ghost cfg = self@.config;
        let ghost mut consumed: int = 0;
        let mut kept: Vec<PendingPacket> = Vec::new();
        let mut emits: Vec<(Vec<u8>, Addr)> = Vec::new();
        proof {
            assert(orig.take(0) =~= Seq::<PendingModel>::empty());
            assert(orig.skip(0) =~= orig);
        }
        while self.pending_acks.len() > 0
            invariant
                0 <= consumed <= orig.len(),
                spec_pending_wf(orig, cfg),
                self.config == old(self).config,
                self.sequence == old(self).sequence,
                self@.crypto == old(self)@.crypto,
                self@.compression == old(self)@.compression,
                self@.config == cfg,
                spec_views(self.pending_acks@) == orig.skip(consumed),
                spec_views(kept@) == spec_sweep_pending(orig.take(consumed), now_ms, cfg),
                emits@.len() == spec_sweep_emits(orig.take(consumed), now_ms, cfg).len(),
                forall|i: int|
                    0 <= i < emits@.len() ==> (#[trigger] emits@[i]).0@ == spec_serialize(
                        spec_sweep_emits(orig.take(consumed), now_ms, cfg)[i].packet,
                    ) && emits@[i].1 == spec_sweep_emits(orig.take(consumed), now_ms, cfg)[i].dest,
            decreases self.pending_acks@.len(),
        {
            let ghost before = self.pending_acks@;
            let entry = self.pending_acks.remove(0);
            proof {
                assert(spec_views(before).len() == before.len());
                assert(orig.skip(consumed).len() == orig.len() - consumed);
                assert(orig.skip(consumed)[0] == orig[consumed]);
                assert(entry@ == orig[consumed]);
                assert(spec_views(self.pending_acks@) =~= orig.skip(consumed + 1)) by {
                    assert(self.pending_acks@ == before.remove(0));
                    assert(orig.skip(consumed).drop_first() =~= orig.skip(consumed + 1));
                    assert(forall|k: int|
                        0 <= k < before.remove(0).len() ==> before.remove(0)[k] == before[k + 1]);
                }
                assert(orig.take(consumed + 1) =~= orig.take(consumed).push(orig[consumed]));
                lemma_sweep_snoc(orig.take(consumed), orig[consumed], now_ms, cfg);
            }
            let expired = (now_ms as u128) > (entry.sent_at as u128) + (
            self.config.ack_timeout_ms as u128);
            if !expired {
                kept.push(entry);
                proof {
                    assert(spec_views(kept@) =~= spec_sweep_pending(
                        orig.take(consumed + 1),
                        now_ms,
                        cfg,
                    ));
                    assert(spec_sweep_emits(orig.take(consumed + 1), now_ms, cfg)
                        =~= spec_sweep_emits(orig.take(consumed), now_ms, cfg));
                }
            } else if entry.attempts >= self.config.max_retransmit {
                proof {
                    assert(spec_views(kept@) =~= spec_sweep_pending(
                        orig.take(consumed + 1),
                        now_ms,
                        cfg,
                    ));
                    assert(spec_sweep_emits(orig.take(consumed + 1), now_ms, cfg)
                        =~= spec_sweep_emits(orig.take(consumed), now_ms, cfg));
                }
            } else {
                let wire = match entry.packet.serialize() {
                    Ok(w) => w,
                    Err(_) => {
                        proof {
                            assert(false);
                        }
                        Vec::new()
                    },
                };
                emits.push((wire, entry.dest));
                let touched = PendingPacket {
                    packet: entry.packet,
                    dest: entry.dest,
                    sent_at: now_ms,
                    attempts: entry.attempts + 1,
                };
                kept.push(touched);
                proof {
                    assert(touched@ == spec_entry_after(orig[consumed], now_ms, cfg).unwrap());
                    assert(spec_views(kept@) =~= spec_sweep_pending(
                        orig.take(consumed + 1),
                        now_ms,
                        cfg,
                    ));
                    assert(spec_sweep_emits(orig.take(consumed + 1), now_ms, cfg)
                        =~= spec_sweep_emits(orig.take(consumed), now_ms, cfg).push(
                        orig[consumed],
                    ));
                }
            }
            proof {
                consumed = consumed + 1;
            }
        }
        proof {
            assert(consumed == orig.len());
            assert(orig.take(consumed) =~= orig);
        }
        self.pending_acks = kept;
        proof {
            lemma_sweep_wf(orig, now_ms, cfg);
        }
        emits
    }
}

/// What remains of one pending entry after a run of sweeps at the given
/// instants, each tick applied to what the previous one left.
pub open spec fn spec_entry_after_sweeps(
    e: PendingModel,
    times: Seq<u64>,
    cfg: TransportConfig,
) -> Option<PendingModel>
    decreases times.len(),
{
    if times.len() == 0 {
        Some(e)
    } else {
        match spec_entry_after(e, times[0], cfg) {
            Some(e2) => spec_entry_after_sweeps(e2, times.drop_first(), cfg),
            None => None,
        }
    }
}

/// How many times a run of sweeps at the given instants re-emits the entry.
pub open spec fn spec_emit_count(e: PendingModel, times: Seq<u64>, cfg: TransportConfig) -> nat
    decreases times.len(),
{
    if times.len() == 0 {
        0
    } else {
        (if spec_entry_emits(e, times[0], cfg) {
            1nat
        } else {
            0nat
        }) + (match spec_entry_after(e, times[0], cfg) {
            Some(e2) => spec_emit_count(e2, times.drop_first(), cfg),
            None => 0,
        })
    }
}

/// True when every sweep instant finds the entry's timer expired — no
/// acknowledgment ever arrives in time.
pub open spec fn spec_ticks_expired(e: PendingModel, times: Seq<u64>, cfg: TransportConfig) -> bool
    decreases times.len(),
{
    times.len() == 0 || (spec_expired(e, times[0], cfg) && (match spec_entry_after(
        e,
        times[0],
        cfg,
    ) {
        Some(e2) => spec_ticks_expired(e2, times.drop_first(), cfg),
        None => true,
    }))
}

/// Under sweeps that always find the timer expired, an entry with `a`
/// attempts spent is re-emitted once per sweep until its budget of
/// `max_retransmit` is spent, and the next such sweep evicts it.
proof fn lemma_expiring_sweeps(e: PendingModel, times: Seq<u64>, cfg: TransportConfig)
    requires
        e.attempts <= cfg.max_retransmit,
        spec_ticks_expired(e, times, cfg),
    ensures
        times.len() <= cfg.max_retransmit - e.attempts ==> (spec_entry_after_sweeps(
            e,
            times,
            cfg,
        ) matches Some(e2) && e2.attempts == e.attempts + times.len() && spec_emit_count(
            e,
            times,
            cfg,
        ) == times.len()),
        times.len() > cfg.max_retransmit - e.attempts ==> (spec_entry_after_sweeps(
            e,
            times,
            cfg,
        ) is None && spec_emit_count(e, times, cfg) == cfg.max_retransmit - e.attempts),
    decreases times.len(),
{
    if times.len() > 0 {
        if e.attempts >= cfg.max_retransmit {
            assert(spec_entry_after(e, times[0], cfg) is None);
        } else {
            let e2 = spec_entry_after(e, times[0], cfg).unwrap();
            lemma_expiring_sweeps(e2, times.drop_first(), cfg);
        }
    }
}

/// Reliable delivery under total acknowledgment loss: starting from a fresh
/// pending entry, a run of more than `max_retransmit` sweeps that always
/// find its timer expired re-emits the recorded packet exactly
/// `max_retransmit` times and then evicts the entry — together with the
/// original transmission, the sender emits exactly `1 + max_retransmit`
/// copies.
pub proof fn lemma_ack_loss_retransmission_bound(
    e: PendingModel,
    times: Seq<u64>,
    cfg: TransportConfig,
)
    requires
        e.attempts == 0,
        spec_ticks_expired(e, times, cfg),
        times.len() > cfg.max_retransmit,
    ensures
        spec_entry_after_sweeps(e, times, cfg) is None,
        spec_emit_count(e, times, cfg) == cfg.max_retransmit,
{
    lemma_expiring_sweeps(e, times, cfg);
}

/// Reliable delivery under a single loss: one sweep that finds a fresh
/// entry's timer expired re-emits exactly the recorded packet — the
/// retransmission is byte-identical — keeps the entry with one attempt
/// spent, and the acknowledgment that answers the retransmission then
/// evicts it.
pub proof fn lemma_single_loss_retransmit_then_ack(e: PendingModel, now: u64, cfg: TransportConfig)
    requires
        e.attempts == 0,
        cfg.max_retransmit > 0,
        spec_expired(e, now, cfg),
    ensures
        spec_entry_emits(e, now, cfg),
        spec_entry_after(e, now, cfg) matches Some(e2) && e2.packet == e.packet && e2.attempts == 1,
        spec_remove_seq(seq![spec_entry_after(e, now, cfg).unwrap()], e.packet.sequence)
            == Seq::<PendingModel>::empty(),
{
    let e2 = spec_entry_after(e, now, cfg).unwrap();
    assert(seq![e2].drop_first() =~= Seq::<PendingModel>::empty());
    assert(seq![e2][0] == e2 && e2.packet.sequence == e.packet.sequence);
    assert(spec_remove_seq(Seq::<PendingModel>::empty(), e.packet.sequence)
        =~= Seq::<PendingModel>::empty());
    assert(spec_remove_seq(seq![e2].drop_first(), e.packet.sequence) == spec_remove_seq(
        Seq::<PendingModel>::empty(),
        e.packet.sequence,
    ));
    assert(spec_remove_seq(seq![e2], e.packet.sequence) =~= Seq::<PendingModel>::empty());
}

/// Sequence uniqueness over the bounded window: in a well-formed transport
/// there is at most one in-flight pending entry per sequence; the counter
/// itself advances by exactly one, modulo 2^32, on every reliable send, as
/// `send_reliable` ensures.
pub proof fn lemma_pending_sequence_unique(t: TransportModel, i: int, j: int)
    requires
        spec_pending_wf(t.pending, t.config),
        0 <= i < t.pending.len(),
        0 <= j < t.pending.len(),
        i != j,
    ensures
        t.pending[i].packet.sequence != t.pending[j].packet.sequence,
{
}

} // verus!
