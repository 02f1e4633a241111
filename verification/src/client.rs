//! Client-side correlation of responses to in-flight requests.
//!
//! A request parks a one-shot delivery slot in this table under the sequence
//! its reliable send was assigned; the receive loop takes the slot back out
//! when a data packet with that sequence returns. The slot value itself is
//! opaque here — the I/O shell stores its channel endpoints in it.

use vstd::prelude::*;

use crate::packet::PacketType;

verus! {

/// The value stored under `key` in the table, scanning oldest entry first.
pub open spec fn spec_slot_lookup<S>(s: Seq<(u32, S)>, key: u32) -> Option<S>
    decreases s.len(),
{
    if s.len() == 0 {
        None
    } else if s[0].0 == key {
        Some(s[0].1)
    } else {
        spec_slot_lookup(s.drop_first(), key)
    }
}

/// True when no two entries share a sequence.
pub open spec fn spec_slot_keys_unique<S>(s: Seq<(u32, S)>) -> bool {
    forall|i: int, j: int| 0 <= i < j < s.len() ==> (#[trigger] s[i]).0 != (#[trigger] s[j]).0
}

/// A lookup succeeds exactly when some entry carries the key.
proof fn lemma_slot_lookup_some<S>(s: Seq<(u32, S)>, key: u32)
    ensures
        spec_slot_lookup(s, key) is Some <==> exists|i: int| 0 <= i < s.len() && (#[trigger] s[i]).0
            == key,
    decreases s.len(),
{
    if s.len() > 0 {
        lemma_slot_lookup_some(s.drop_first(), key);
        if s[0].0 == key {
        } else {
            if spec_slot_lookup(s, key) is Some {
                let k = choose|k: int|
                    0 <= k < s.drop_first().len() && (#[trigger] s.drop_first()[k]).0 == key;
                assert(s[k + 1].0 == key);
            }
            if exists|i: int| 0 <= i < s.len() && (#[trigger] s[i]).0 == key {
                let i = choose|i: int| 0 <= i < s.len() && (#[trigger] s[i]).0 == key;
                assert(s.drop_first()[i - 1].0 == key);
            }
        }
    }
}

/// Appending a fresh key binds it and leaves every other key's binding alone.
proof fn lemma_slot_lookup_push<S>(s: Seq<(u32, S)>, key: u32, value: S)
    requires
        spec_slot_lookup(s, key) is None,
    ensures
        spec_slot_lookup(s.push((key, value)), key) == Some(value),
        forall|k2: u32|
            k2 != key ==> spec_slot_lookup(s.push((key, value)), k2) == spec_slot_lookup(s, k2),
    decreases s.len(),
{
    if s.len() == 0 {
        assert(s.push((key, value))[0] == (key, value));
        assert(s.push((key, value)).drop_first() =~= Seq::<(u32, S)>::empty());
        assert forall|k2: u32| k2 != key implies spec_slot_lookup(s.push((key, value)), k2)
            == spec_slot_lookup(s, k2) by {
            assert(spec_slot_lookup(s.push((key, value)).drop_first(), k2) == spec_slot_lookup(
                Seq::<(u32, S)>::empty(),
                k2,
            ));
        }
    } else {
        assert(s[0].0 != key);
        assert(s.push((key, value))[0] == s[0]);
        assert(s.push((key, value)).drop_first() =~= s.drop_first().push((key, value)));
        lemma_slot_lookup_push(s.drop_first(), key, value);
        assert forall|k2: u32| k2 != key implies spec_slot_lookup(s.push((key, value)), k2)
            == spec_slot_lookup(s, k2) by {
            assert(spec_slot_lookup(s.drop_first().push((key, value)), k2) == spec_slot_lookup(
                s.drop_first(),
                k2,
            ));
        }
    }
}

/// Overwriting the entry that holds a key rebinds it and leaves every other
/// key's binding alone.
proof fn lemma_slot_lookup_update<S>(s: Seq<(u32, S)>, i: int, key: u32, value: S)
    requires
        0 <= i < s.len(),
        s[i].0 == key,
        forall|j: int| 0 <= j < i ==> (#[trigger] s[j]).0 != key,
    ensures
        spec_slot_lookup(s.update(i, (key, value)), key) == Some(value),
        forall|k2: u32|
            k2 != key ==> spec_slot_lookup(s.update(i, (key, value)), k2) == spec_slot_lookup(
                s,
                k2,
            ),
    decreases s.len(),
{
    let u = s.update(i, (key, value));
    if i == 0 {
        assert(u[0] == (key, value));
        assert(u.drop_first() =~= s.drop_first());
    } else {
        assert(u[0] == s[0]);
        assert(s[0].0 != key);
        assert(u.drop_first() =~= s.drop_first().update(i - 1, (key, value)));
        lemma_slot_lookup_update(s.drop_first(), i - 1, key, value);
        assert forall|k2: u32| k2 != key implies spec_slot_lookup(u, k2) == spec_slot_lookup(
            s,
            k2,
        ) by {
            assert(spec_slot_lookup(s.drop_first().update(i - 1, (key, value)), k2)
                == spec_slot_lookup(s.drop_first(), k2));
        }
    }
}

/// Removing the entry that holds a key — when keys are unique — unbinds it
/// and leaves every other key's binding alone.
proof fn lemma_slot_lookup_remove<S>(s: Seq<(u32, S)>, i: int, key: u32)
    requires
        0 <= i < s.len(),
        s[i].0 == key,
        spec_slot_keys_unique(s),
    ensures
        spec_slot_lookup(s.remove(i), key) is None,
        forall|k2: u32|
            k2 != key ==> spec_slot_lookup(s.remove(i), k2) == spec_slot_lookup(s, k2),
    decreases s.len(),
{
    let r = s.remove(i);
    if i == 0 {
        assert(r =~= s.drop_first());
        lemma_slot_lookup_some(s.drop_first(), key);
        if spec_slot_lookup(s.drop_first(), key) is Some {
            let k = choose|k: int|
                0 <= k < s.drop_first().len() && (#[trigger] s.drop_first()[k]).0 == key;
            assert(s[k + 1].0 == key && s[0].0 == key);
            assert(false);
        }
    } else {
        assert(r[0] == s[0]);
        assert(s[0].0 != key);
        assert(r.drop_first() =~= s.drop_first().remove(i - 1));
        assert(spec_slot_keys_unique(s.drop_first())) by {
            assert(forall|k: int|
                0 <= k < s.drop_first().len() ==> s.drop_first()[k] == s[k + 1]);
        }
        assert(s.drop_first()[i - 1] == s[i]);
        lemma_slot_lookup_remove(s.drop_first(), i - 1, key);
        assert forall|k2: u32| k2 != key implies spec_slot_lookup(r, k2) == spec_slot_lookup(
            s,
            k2,
        ) by {
            assert(spec_slot_lookup(s.drop_first().remove(i - 1), k2) == spec_slot_lookup(
                s.drop_first(),
                k2,
            ));
        }
    }
}

/// The pending-request table: one-shot delivery slots keyed by the sequence
/// number of the request awaiting them.
pub struct PendingRequests<S> {
    slots: Vec<(u32, S)>,
}

impl<S> View for PendingRequests<S> {
    type V = Seq<(u32, S)>;

    closed spec fn view(&self) -> Seq<(u32, S)> {
        self.slots@
    }
}

impl<S> PendingRequests<S> {
    /// Each sequence has at most one slot.
    pub open spec fn wf(self) -> bool {
        spec_slot_keys_unique(self@)
    }

    /// An empty table.
    pub fn new() -> (r: PendingRequests<S>)
        ensures
            r.wf(),
            r@ == Seq::<(u32, S)>::empty(),
            forall|k: u32| spec_slot_lookup(r@, k) is None,
    {
        let r = PendingRequests { slots: Vec::new() };
        proof {
            assert(r@ =~= Seq::<(u32, S)>::empty());
        }
        r
    }

    /// How many requests are in flight.
    pub fn len(&self) -> (r: usize)
        ensures
            r == self@.len(),
    {
        self.slots.len()
    }

    /// The index of the slot under `sequence`, if any.
    fn find(&self, sequence: u32) -> (r: Option<usize>)
        ensures
            r matches Some(i) ==> i < self@.len() && self@[i as int].0 == sequence && forall|j: int|
                0 <= j < i ==> (#[trigger] self@[j]).0 != sequence,
            r is None ==> forall|j: int| 0 <= j < self@.len() ==> (#[trigger] self@[j]).0
                != sequence,
    {
        let mut i: usize = 0;
        while i < self.slots.len()
            invariant
                i <= self@.len(),
                self@.len() == self.slots@.len(),
                forall|j: int| 0 <= j < i ==> (#[trigger] self@[j]).0 != sequence,
            decreases self.slots@.len() - i,
        {
            if self.slots[i].0 == sequence {
                return Some(i);
            }
            i = i + 1;
        }
        None
    }

    /// Parks `slot` under `sequence`, replacing any slot already there: the
    /// sequence is bound to this slot and no other binding moves.
    pub fn insert(&mut self, sequence: u32, slot: S)
        requires
            old(self).wf(),
        ensures
            final(self).wf(),
            spec_slot_lookup(final(self)@, sequence) == Some(slot),
            forall|k2: u32|
                k2 != sequence ==> spec_slot_lookup(final(self)@, k2) == spec_slot_lookup(
                    old(self)@,
                    k2,
                ),
    {
        match self.find(sequence) {
            Some(i) => {
                self.slots.remove(i);
                self.slots.insert(i, (sequence, slot));
                proof {
                    assert(self@ =~= old(self)@.update(i as int, (sequence, slot)));
                    lemma_slot_lookup_update(old(self)@, i as int, sequence, slot);
                    assert forall|a: int, b: int| 0 <= a < b < self@.len() implies (
                    #[trigger] self@[a]).0 != (#[trigger] self@[b]).0 by {
                        assert(self@[a].0 == old(self)@[a].0 && self@[b].0 == old(self)@[b].0);
                    }
                }
            },
            None => {
                self.slots.push((sequence, slot));
                proof {
                    lemma_slot_lookup_some(old(self)@, sequence);
                    lemma_slot_lookup_push(old(self)@, sequence, slot);
                    assert forall|a: int, b: int| 0 <= a < b < self@.len() implies (
                    #[trigger] self@[a]).0 != (#[trigger] self@[b]).0 by {
                        if b < old(self)@.len() {
                            assert(self@[a] == old(self)@[a] && self@[b] == old(self)@[b]);
                        } else {
                            assert(self@[a] == old(self)@[a] && self@[b] == (sequence, slot));
                        }
                    }
                }
            },
        }
    }

    /// Takes the slot under `sequence` out of the table, if one is there:
    /// afterwards the sequence is unbound and no other binding moves. Taking
    /// an unknown sequence — an orphan response, a response after timeout —
    /// yields nothing and changes nothing.
    pub fn take(&mut self, sequence: u32) -> (r: Option<S>)
        requires
            old(self).wf(),
        ensures
            final(self).wf(),
            r == spec_slot_lookup(old(self)@, sequence),
            spec_slot_lookup(final(self)@, sequence) is None,
            forall|k2: u32|
                k2 != sequence ==> spec_slot_lookup(final(self)@, k2) == spec_slot_lookup(
                    old(self)@,
                    k2,
                ),
    {
        match self.find(sequence) {
            Some(i) => {
                let (_, slot) = self.slots.remove(i);
                proof {
                    lemma_slot_lookup_remove(old(self)@, i as int, sequence);
                    lemma_slot_lookup_at(old(self)@, i as int, sequence);
                    assert forall|a: int, b: int| 0 <= a < b < self@.len() implies (
                    #[trigger] self@[a]).0 != (#[trigger] self@[b]).0 by {
                        let a0 = if a < i as int {
                            a
                        } else {
                            a + 1
                        };
                        let b0 = if b < i as int {
                            b
                        } else {
                            b + 1
                        };
                        assert(self@[a] == old(self)@[a0] && self@[b] == old(self)@[b0]);
                    }
                }
                Some(slot)
            },
            None => {
                proof {
                    lemma_slot_lookup_some(self@, sequence);
                }
                None
            },
        }
    }
}

/// The first matching entry is what a lookup returns.
proof fn lemma_slot_lookup_at<S>(s: Seq<(u32, S)>, i: int, key: u32)
    requires
        0 <= i < s.len(),
        s[i].0 == key,
        forall|j: int| 0 <= j < i ==> (#[trigger] s[j]).0 != key,
    ensures
        spec_slot_lookup(s, key) == Some(s[i].1),
    decreases i,
{
    if i == 0 {
    } else {
        assert(s.drop_first()[i - 1] == s[i]);
        assert(forall|j: int| 0 <= j < i - 1 ==> s.drop_first()[j] == s[j + 1]);
        lemma_slot_lookup_at(s.drop_first(), i - 1, key);
    }
}

/// What the client receive loop does with one incoming packet.
#[derive(Debug, Clone, Copy, PartialEq, Eq, Structural)]
pub enum ClientAction {
    /// A data packet: deliver its payload to the slot parked under its
    /// sequence, discarding it if none is there.
    DeliverResponse,
    /// An acknowledgment: evict the pending entry with its sequence.
    AckPending,
    /// A negative acknowledgment: schedule that entry for retransmission.
    NackPending,
    /// Heartbeats and everything else: note it and move on.
    Ignore,
}

/// Decides what the client receive loop does with a packet of the given
/// type, per the correlator's rules: data packets are matched to pending
/// requests by sequence, acknowledgments go to the transport, the rest is
/// ignored.
pub fn classify_client_packet(packet_type: PacketType) -> (r: ClientAction)
    ensures
        r == ClientAction::DeliverResponse <==> packet_type == PacketType::Data,
        r == ClientAction::AckPending <==> packet_type == PacketType::Ack,
        r == ClientAction::NackPending <==> packet_type == PacketType::Nack,
        r == ClientAction::Ignore <==> !(packet_type == PacketType::Data || packet_type
            == PacketType::Ack || packet_type == PacketType::Nack),
{
    match packet_type {
        PacketType::Data => ClientAction::DeliverResponse,
        PacketType::Ack => ClientAction::AckPending,
        PacketType::Nack => ClientAction::NackPending,
        _ => ClientAction::Ignore,
    }
}

/// Request/response correlation law: two requests in flight at once, under
/// distinct sequences, each get their own slot back — delivering to one
/// leaves the other parked untouched.
pub proof fn lemma_request_correlation<S>(
    t0: Seq<(u32, S)>,
    s1: u32,
    s2: u32,
    a: S,
    b: S,
    t1: Seq<(u32, S)>,
    t2: Seq<(u32, S)>,
)
    requires
        s1 != s2,
        // the table after parking the first request's slot
        spec_slot_lookup(t1, s1) == Some(a),
        forall|k: u32| k != s1 ==> spec_slot_lookup(t1, k) == spec_slot_lookup(t0, k),
        // the table after parking the second request's slot
        spec_slot_lookup(t2, s2) == Some(b),
        forall|k: u32| k != s2 ==> spec_slot_lookup(t2, k) == spec_slot_lookup(t1, k),
    ensures
        spec_slot_lookup(t2, s1) == Some(a),
        spec_slot_lookup(t2, s2) == Some(b),
{
}

} // verus!
