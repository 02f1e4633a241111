//! Server-side dispatch: the route table and the decisions the dispatcher
//! takes for each packet type.
//!
//! Handlers themselves are opaque values here — the I/O shell stores its
//! callable of choice in the table; what is verified is the binding of routes
//! to handlers, the dispatch decision, and the reply payloads the protocol
//! prescribes for handler failures and unknown routes.

use vstd::prelude::*;
use vstd::utf8::encode_utf8;

use crate::packet::PacketType;

verus! {

/// Byte-wise equality of two slices.
fn bytes_eq(a: &[u8], b: &[u8]) -> (r: bool)
    ensures
        r == (a@ == b@),
{
    if a.len() != b.len() {
        return false;
    }
    let mut i: usize = 0;
    while i < a.len()
        invariant
            i <= a@.len(),
            a@.len() == b@.len(),
            forall|j: int| 0 <= j < i ==> a@[j] == b@[j],
        decreases a@.len() - i,
    {
        if *vstd::slice::slice_index_get(a, i) != *vstd::slice::slice_index_get(b, i) {
            return false;
        }
        i = i + 1;
    }
    proof {
        assert(a@ =~= b@);
    }
    true
}

/// The handler bound to `route` in the table, scanning oldest entry first.
pub open spec fn spec_route_lookup<H>(s: Seq<(Seq<u8>, H)>, route: Seq<u8>) -> Option<H>
    decreases s.len(),
{
    if s.len() == 0 {
        None
    } else if s[0].0 == route {
        Some(s[0].1)
    } else {
        spec_route_lookup(s.drop_first(), route)
    }
}

/// True when no two entries bind the same route.
pub open spec fn spec_routes_unique<H>(s: Seq<(Seq<u8>, H)>) -> bool {
    forall|i: int, j: int| 0 <= i < j < s.len() ==> (#[trigger] s[i]).0 != (#[trigger] s[j]).0
}

/// A lookup succeeds exactly when some entry binds the route.
proof fn lemma_route_lookup_some<H>(s: Seq<(Seq<u8>, H)>, route: Seq<u8>)
    ensures
        spec_route_lookup(s, route) is Some <==> exists|i: int|
            0 <= i < s.len() && (#[trigger] s[i]).0 == route,
    decreases s.len(),
{
    if s.len() > 0 {
        lemma_route_lookup_some(s.drop_first(), route);
        if s[0].0 == route {
        } else {
            if spec_route_lookup(s, route) is Some {
                let k = choose|k: int|
                    0 <= k < s.drop_first().len() && (#[trigger] s.drop_first()[k]).0 == route;
                assert(s[k + 1].0 == route);
            }
            if exists|i: int| 0 <= i < s.len() && (#[trigger] s[i]).0 == route {
                let i = choose|i: int| 0 <= i < s.len() && (#[trigger] s[i]).0 == route;
                assert(s.drop_first()[i - 1].0 == route);
            }
        }
    }
}

/// Appending a fresh route binds it and leaves every other binding alone.
proof fn lemma_route_lookup_push<H>(s: Seq<(Seq<u8>, H)>, route: Seq<u8>, handler: H)
    requires
        spec_route_lookup(s, route) is None,
    ensures
        spec_route_lookup(s.push((route, handler)), route) == Some(handler),
        forall|r2: Seq<u8>|
            r2 != route ==> spec_route_lookup(s.push((route, handler)), r2) == spec_route_lookup(
                s,
                r2,
            ),
    decreases s.len(),
{
    if s.len() == 0 {
        assert(s.push((route, handler))[0] == (route, handler));
        assert(s.push((route, handler)).drop_first() =~= Seq::<(Seq<u8>, H)>::empty());
        assert forall|r2: Seq<u8>| r2 != route implies spec_route_lookup(
            s.push((route, handler)),
            r2,
        ) == spec_route_lookup(s, r2) by {
            assert(spec_route_lookup(s.push((route, handler)).drop_first(), r2)
                == spec_route_lookup(Seq::<(Seq<u8>, H)>::empty(), r2));
        }
    } else {
        assert(s[0].0 != route);
        assert(s.push((route, handler))[0] == s[0]);
        assert(s.push((route, handler)).drop_first() =~= s.drop_first().push((route, handler)));
        lemma_route_lookup_push(s.drop_first(), route, handler);
        assert forall|r2: Seq<u8>| r2 != route implies spec_route_lookup(
            s.push((route, handler)),
            r2,
        ) == spec_route_lookup(s, r2) by {
            assert(spec_route_lookup(s.drop_first().push((route, handler)), r2)
                == spec_route_lookup(s.drop_first(), r2));
        }
    }
}

/// Overwriting the entry that binds a route rebinds it and leaves every other
/// binding alone.
proof fn lemma_route_lookup_update<H>(s: Seq<(Seq<u8>, H)>, i: int, route: Seq<u8>, handler: H)
    requires
        0 <= i < s.len(),
        s[i].0 == route,
        forall|j: int| 0 <= j < i ==> (#[trigger] s[j]).0 != route,
    ensures
        spec_route_lookup(s.update(i, (route, handler)), route) == Some(handler),
        forall|r2: Seq<u8>|
            r2 != route ==> spec_route_lookup(s.update(i, (route, handler)), r2)
                == spec_route_lookup(s, r2),
    decreases s.len(),
{
    let u = s.update(i, (route, handler));
    if i == 0 {
        assert(u[0] == (route, handler));
        assert(u.drop_first() =~= s.drop_first());
    } else {
        assert(u[0] == s[0]);
        assert(s[0].0 != route);
        assert(u.drop_first() =~= s.drop_first().update(i - 1, (route, handler)));
        lemma_route_lookup_update(s.drop_first(), i - 1, route, handler);
        assert forall|r2: Seq<u8>| r2 != route implies spec_route_lookup(u, r2)
            == spec_route_lookup(s, r2) by {
            assert(spec_route_lookup(s.drop_first().update(i - 1, (route, handler)), r2)
                == spec_route_lookup(s.drop_first(), r2));
        }
    }
}

/// The first matching entry is what a lookup returns.
proof fn lemma_route_lookup_at<H>(s: Seq<(Seq<u8>, H)>, i: int, route: Seq<u8>)
    requires
        0 <= i < s.len(),
        s[i].0 == route,
        forall|j: int| 0 <= j < i ==> (#[trigger] s[j]).0 != route,
    ensures
        spec_route_lookup(s, route) == Some(s[i].1),
    decreases i,
{
    if i > 0 {
        assert(s.drop_first()[i - 1] == s[i]);
        assert(forall|j: int| 0 <= j < i - 1 ==> s.drop_first()[j] == s[j + 1]);
        lemma_route_lookup_at(s.drop_first(), i - 1, route);
    }
}

/// The models of the given route entries, in order.
pub open spec fn spec_route_views<H>(s: Seq<(Vec<u8>, H)>) -> Seq<(Seq<u8>, H)> {
    s.map_values(|e: (Vec<u8>, H)| (e.0@, e.1))
}

/// The route table: handlers keyed by route bytes. Registration replaces any
/// existing binding for the route; keys are unique and order is irrelevant.
pub struct RouteTable<H> {
    entries: Vec<(Vec<u8>, H)>,
}

impl<H> View for RouteTable<H> {
    type V = Seq<(Seq<u8>, H)>;

    closed spec fn view(&self) -> Seq<(Seq<u8>, H)> {
        spec_route_views(self.entries@)
    }
}

impl<H> RouteTable<H> {
    /// Each route has at most one handler.
    pub open spec fn wf(self) -> bool {
        spec_routes_unique(self@)
    }

    /// An empty table.
    pub fn new() -> (r: RouteTable<H>)
        ensures
            r.wf(),
            r@ == Seq::<(Seq<u8>, H)>::empty(),
            forall|k: Seq<u8>| spec_route_lookup(r@, k) is None,
    {
        let r = RouteTable { entries: Vec::new() };
        proof {
            assert(r@ =~= Seq::<(Seq<u8>, H)>::empty());
        }
        r
    }

    /// How many routes are registered.
    pub fn len(&self) -> (r: usize)
        ensures
            r == self@.len(),
    {
        self.entries.len()
    }

    /// The index of the entry binding `route`, if any.
    fn find(&self, route: &[u8]) -> (r: Option<usize>)
        ensures
            r matches Some(i) ==> i < self@.len() && self@[i as int].0 == route@ && forall|j: int|
                0 <= j < i ==> (#[trigger] self@[j]).0 != route@,
            r is None ==> forall|j: int| 0 <= j < self@.len() ==> (#[trigger] self@[j]).0
                != route@,
    {
        let mut i: usize = 0;
        while i < self.entries.len()
            invariant
                i <= self@.len(),
                self@.len() == self.entries@.len(),
                forall|k: int| 0 <= k < self@.len() ==> (#[trigger] self@[k]).0
                    == self.entries@[k].0@,
                forall|j: int| 0 <= j < i ==> (#[trigger] self@[j]).0 != route@,
            decreases self.entries@.len() - i,
        {
            if bytes_eq(self.entries[i].0.as_slice(), route) {
                return Some(i);
            }
            i = i + 1;
        }
        None
    }

    /// Registers `handler` for `route`, replacing any existing binding: the
    /// route is bound to this handler and no other binding moves.
    pub fn on(&mut self, route: Vec<u8>, handler: H)
        requires
            old(self).wf(),
        ensures
            final(self).wf(),
            spec_route_lookup(final(self)@, route@) == Some(handler),
            forall|r2: Seq<u8>|
                r2 != route@ ==> spec_route_lookup(final(self)@, r2) == spec_route_lookup(
                    old(self)@,
                    r2,
                ),
    {
        let ghost route_view = route@;
        match self.find(route.as_slice()) {
            Some(i) => {
                self.entries.remove(i);
                self.entries.insert(i, (route, handler));
                proof {
                    assert(self@ =~= old(self)@.update(i as int, (route_view, handler)));
                    lemma_route_lookup_update(old(self)@, i as int, route_view, handler);
                    assert forall|a: int, b: int| 0 <= a < b < self@.len() implies (
                    #[trigger] self@[a]).0 != (#[trigger] self@[b]).0 by {
                        assert(self@[a].0 == old(self)@[a].0 && self@[b].0 == old(self)@[b].0);
                    }
                }
            },
            None => {
                self.entries.push((route, handler));
                proof {
                    assert(self@ =~= old(self)@.push((route_view, handler)));
                    lemma_route_lookup_some(old(self)@, route_view);
                    lemma_route_lookup_push(old(self)@, route_view, handler);
                    assert forall|a: int, b: int| 0 <= a < b < self@.len() implies (
                    #[trigger] self@[a]).0 != (#[trigger] self@[b]).0 by {
                        if b < old(self)@.len() {
                            assert(self@[a] == old(self)@[a] && self@[b] == old(self)@[b]);
                        } else {
                            assert(self@[a] == old(self)@[a] && self@[b] == (
                            route_view,
                            handler,
                            ));
                        }
                    }
                }
            },
        }
    }

    /// The handler registered for `route`, if any.
    pub fn get(&self, route: &[u8]) -> (r: Option<&H>)
        ensures
            r matches Some(h) ==> spec_route_lookup(self@, route@) == Some(*h),
            r is None ==> spec_route_lookup(self@, route@) is None,
    {
        match self.find(route) {
            Some(i) => {
                proof {
                    lemma_route_lookup_at(self@, i as int, route@);
                }
                Some(&self.entries[i].1)
            },
            None => {
                proof {
                    lemma_route_lookup_some(self@, route@);
                }
                None
            },
        }
    }
}

/// What the server dispatcher does with one incoming packet.
#[derive(Debug, Clone, Copy, PartialEq, Eq, Structural)]
pub enum ServerAction {
    /// A data packet: look its route up and run the handler, replying
    /// reliably with the handler's response, its error text, or the
    /// route-not-found text.
    Dispatch,
    /// An acknowledgment: evict the pending entry with its sequence.
    AckPending,
    /// A negative acknowledgment: schedule that entry for retransmission.
    NackPending,
    /// A heartbeat: answer with a heartbeat, sent raw.
    HeartbeatReply,
    /// A connection request: answer with a connect acknowledgment, sent raw.
    ConnectAckReply,
    /// Disconnects, stray connect acknowledgments, batches: note and drop.
    Ignore,
}

/// Decides what the dispatcher does with a packet of the given type, per the
/// protocol's per-type rules.
pub fn classify_server_packet(packet_type: PacketType) -> (r: ServerAction)
    ensures
        r == ServerAction::Dispatch <==> packet_type == PacketType::Data,
        r == ServerAction::AckPending <==> packet_type == PacketType::Ack,
        r == ServerAction::NackPending <==> packet_type == PacketType::Nack,
        r == ServerAction::HeartbeatReply <==> packet_type == PacketType::Heartbeat,
        r == ServerAction::ConnectAckReply <==> packet_type == PacketType::Connect,
        r == ServerAction::Ignore <==> (packet_type == PacketType::Disconnect || packet_type
            == PacketType::ConnectAck || packet_type == PacketType::Batch),
{
    match packet_type {
        PacketType::Data => ServerAction::Dispatch,
        PacketType::Ack => ServerAction::AckPending,
        PacketType::Nack => ServerAction::NackPending,
        PacketType::Heartbeat => ServerAction::HeartbeatReply,
        PacketType::Connect => ServerAction::ConnectAckReply,
        PacketType::Disconnect => ServerAction::Ignore,
        PacketType::ConnectAck => ServerAction::Ignore,
        PacketType::Batch => ServerAction::Ignore,
    }
}

/// The text that prefixes every unknown-route reply, as UTF-8 bytes.
pub open spec fn spec_route_not_found_prefix() -> Seq<u8> {
    encode_utf8("Route not found: "@)
}

/// The text that prefixes every handler-failure reply, as UTF-8 bytes.
pub open spec fn spec_handler_error_prefix() -> Seq<u8> {
    encode_utf8("Error: "@)
}

/// Appends `tail` to `out`.
fn push_bytes(out: &mut Vec<u8>, tail: &[u8])
    ensures
        final(out)@ == old(out)@ + tail@,
{
    let mut i: usize = 0;
    while i < tail.len()
        invariant
            i <= tail@.len(),
            out@ == old(out)@ + tail@.take(i as int),
        decreases tail@.len() - i,
    {
        out.push(*vstd::slice::slice_index_get(tail, i));
        proof {
            assert(tail@.take(i + 1) =~= tail@.take(i as int).push(tail@[i as int]));
        }
        i = i + 1;
    }
    proof {
        assert(tail@.take(tail@.len() as int) =~= tail@);
    }
}

/// The reply payload the dispatcher owes for a data packet, from the
/// handler's outcome: the response data when the handler succeeded, its
/// message behind the error text when it failed, and the route-not-found
/// text when no handler is bound to the route. All three are sent back
/// reliably on the request's own route and sequence.
pub fn dispatch_reply_payload(outcome: Option<Result<Vec<u8>, Vec<u8>>>, route: &[u8]) -> (r: Vec<
    u8,
>)
    ensures
        outcome matches Some(Ok(data)) ==> r@ == data@,
        outcome matches Some(Err(message)) ==> r@ == spec_handler_error_prefix() + message@,
        outcome is None ==> r@ == spec_route_not_found_prefix() + route@,
{
    match outcome {
        Some(Ok(data)) => data,
        Some(Err(message)) => handler_error_reply(message.as_slice()),
        None => route_not_found_reply(route),
    }
}

/// The reply payload for a request whose route no handler is bound to: the
/// route-not-found text followed by the route itself.
pub fn route_not_found_reply(route: &[u8]) -> (r: Vec<u8>)
    ensures
        r@ == spec_route_not_found_prefix() + route@,
{
    let prefix: &str = "Route not found: ";
    let mut out = vstd::slice::slice_to_vec(prefix.as_bytes());
    push_bytes(&mut out, route);
    out
}

/// The reply payload for a request whose handler failed: the error text
/// followed by the handler's message.
pub fn handler_error_reply(message: &[u8]) -> (r: Vec<u8>)
    ensures
        r@ == spec_handler_error_prefix() + message@,
{
    let prefix: &str = "Error: ";
    let mut out = vstd::slice::slice_to_vec(prefix.as_bytes());
    push_bytes(&mut out, message);
    out
}

} // verus!
