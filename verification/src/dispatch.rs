//! The dispatcher and acceptor decisions: identifier assignment, the
//! sentinel test, and what each inbound event does to the registry.
//!
//! The event loop around this crate owns the sockets. It calls
//! [`Relay::connect`] when a connection is accepted and
//! [`Relay::handle_event`] for each inbound event, then carries out the
//! returned [`Action`] on its own vector of writable halves, which it keeps
//! in the same order as the registry.

use crate::registry::{fanout_ok, lemma_filter_push, removal_ok, unique_ids, Registry};

use vstd::prelude::*;

verus! {

/// A message whose first byte equals this value asks the relay to drop the
/// sending connection instead of being fanned out.
pub const STOP_BYTE: u8 = 10;

/// Whether a message is the disconnect sentinel: non-empty and opening with
/// the reserved byte. Whatever follows the first byte is ignored.
pub open spec fn is_sentinel(msg: Seq<u8>) -> bool {
    msg.len() > 0 && msg[0] == STOP_BYTE
}

/// What the event loop must do with its writable halves after one inbound
/// event.
pub enum Action {
    /// Drop the writable half kept at this position, if any; dropping it
    /// closes that peer's socket.
    Disconnect(Option<usize>),
    /// Write the message to the writable halves kept at these positions.
    Fanout(Vec<usize>),
}

/// The relay's decision state: the registry of live connections and the
/// acceptor's identifier counter.
pub struct Relay {
    registry: Registry,
    next_id: u16,
}

impl Relay {
    /// The identifiers of the live connections, in registration order.
    pub closed spec fn ids(&self) -> Seq<u16> {
        self.registry@
    }

    /// The identifier the next accepted connection will get.
    pub closed spec fn next(&self) -> u16 {
        self.next_id
    }

    /// No two live entries share an identifier, and every live identifier
    /// is below the counter — so no identifier is ever assigned twice.
    pub open spec fn wf(&self) -> bool {
        &&& unique_ids(self.ids())
        &&& forall|i: int| 0 <= i < self.ids().len() ==> #[trigger] self.ids()[i] < self.next()
    }

    /// A relay with no connections; the first client gets identifier 0.
    pub fn new() -> (r: Relay)
        ensures
            r.wf(),
            r.ids() == Seq::<u16>::empty(),
            r.next() == 0,
    {
        Relay { registry: Registry::new(), next_id: 0 }
    }

    /// Accept a new connection: assign it the next identifier and register
    /// it. The caller pushes the connection's writable half onto its own
    /// vector at the same time. The identifier is fresh: it was never
    /// assigned before, to a live or to a since-removed connection.
    pub fn connect(&mut self) -> (id: u16)
        requires
            old(self).wf(),
            old(self).next() < u16::MAX,
        ensures
            final(self).wf(),
            id == old(self).next(),
            final(self).next() == old(self).next() + 1,
            final(self).ids() == old(self).ids().push(id),
            !old(self).ids().contains(id),
    {
        let id = self.next_id;
        proof {
            if self.registry@.contains(id) {
                let w = choose|w: int| 0 <= w < self.registry@.len() && self.registry@[w] == id;
                assert(false);
            }
        }
        self.registry.insert(id);
        self.next_id = self.next_id + 1;
        proof {
            assert forall|i: int| 0 <= i < self.ids().len() implies #[trigger] self.ids()[i]
                < self.next() by {
                if i < self.ids().len() - 1 {
                    assert(self.ids()[i] == old(self).ids()[i]);
                }
            }
        }
        id
    }

    /// The identifier the next accepted connection will get. When it has
    /// reached the last representable value the identifier space is
    /// exhausted and no further connection can be accepted.
    pub fn next_id(&self) -> (n: u16)
        ensures
            n == self.next(),
    {
        self.next_id
    }

    /// The identifier registered at a position, if the position is live.
    pub fn peer_id(&self, i: usize) -> (r: Option<u16>)
        ensures
            i < self.ids().len() ==> r == Some(self.ids()[i as int]),
            i >= self.ids().len() ==> r is None,
    {
        self.registry.get(i)
    }

    /// Drop a connection without a sentinel message: how the dispatcher
    /// treats a peer whose socket failed during a fanout write. Removes the
    /// sender's entry, if any, and reports its position so the caller can
    /// drop the writable half kept there.
    pub fn disconnect(&mut self, sender_id: u16) -> (removed: Option<usize>)
        requires
            old(self).wf(),
        ensures
            final(self).wf(),
            final(self).next() == old(self).next(),
            removal_ok(old(self).ids(), final(self).ids(), sender_id, removed),
            !final(self).ids().contains(sender_id),
    {
        let removed = self.registry.disconnect_socket(sender_id);
        proof {
            match removed {
                Some(i) => {
                    old(self).ids().remove_ensures(i as int);
                    assert forall|a: int| 0 <= a < self.ids().len() implies #[trigger] self
                        .ids()[a] < self.next() by {
                        let a0: int = if a < i { a } else { a + 1 };
                        assert(self.ids()[a] == old(self).ids()[a0]);
                    }
                },
                None => {},
            }
        }
        removed
    }

    /// Apply one inbound event, as the dispatcher does. A sentinel message
    /// removes the sender's entry and is not fanned out; any other message
    /// leaves the registry unchanged and is fanned out, unchanged, to every
    /// registered connection but the sender.
    pub fn handle_event(&mut self, sender_id: u16, msg: &Vec<u8>) -> (action: Action)
        requires
            old(self).wf(),
        ensures
            final(self).wf(),
            final(self).next() == old(self).next(),
            is_sentinel(msg@) ==> (action matches Action::Disconnect(removed)
                && removal_ok(old(self).ids(), final(self).ids(), sender_id, removed)),
            is_sentinel(msg@) ==> !final(self).ids().contains(sender_id),
            !is_sentinel(msg@) ==> final(self).ids() == old(self).ids(),
            !is_sentinel(msg@) ==> (action matches Action::Fanout(targets)
                && fanout_ok(old(self).ids(), sender_id, targets@)),
    {
        if msg.len() > 0 && msg[0] == STOP_BYTE {
            Action::Disconnect(self.disconnect(sender_id))
        } else {
            Action::Fanout(self.registry.fanout(sender_id))
        }
    }
}

/// The mathematical value of an inbound event: the sender's identifier and
/// the message bytes.
pub open spec fn event_view(e: (u16, Vec<u8>)) -> (u16, Seq<u8>) {
    (e.0, e.1@)
}

/// The mathematical value of a queue of inbound events, in arrival order.
pub open spec fn events_view(es: Seq<(u16, Vec<u8>)>) -> Seq<(u16, Seq<u8>)> {
    es.map_values(|e: (u16, Vec<u8>)| event_view(e))
}

/// The events the dispatcher fans out rather than treating as disconnects.
pub open spec fn broadcast_events() -> spec_fn((u16, Seq<u8>)) -> bool {
    |e: (u16, Seq<u8>)| !is_sentinel(e.1)
}

/// The events a queue fans out: all non-sentinel events, in arrival order,
/// each with its message unchanged.
pub open spec fn fanout_log(events: Seq<(u16, Seq<u8>)>) -> Seq<(u16, Seq<u8>)> {
    events.filter(broadcast_events())
}

/// The events of one sender.
pub open spec fn from_sender(a: u16) -> spec_fn((u16, Seq<u8>)) -> bool {
    |e: (u16, Seq<u8>)| e.0 == a
}

/// The message bytes of an event.
pub open spec fn payload_of() -> spec_fn((u16, Seq<u8>)) -> Seq<u8> {
    |e: (u16, Seq<u8>)| e.1
}

/// The messages one sender contributed to a queue of events, in the order
/// that sender sent them.
pub open spec fn sent_by(events: Seq<(u16, Seq<u8>)>, a: u16) -> Seq<Seq<u8>> {
    events.filter(from_sender(a)).map_values(payload_of())
}

/// The messages that are not the disconnect sentinel.
pub open spec fn broadcast_messages() -> spec_fn(Seq<u8>) -> bool {
    |m: Seq<u8>| !is_sentinel(m)
}

/// Appending one event to a queue appends its message to its sender's
/// messages and leaves every other sender's messages unchanged.
proof fn lemma_sent_by_push(es: Seq<(u16, Seq<u8>)>, z: (u16, Seq<u8>), a: u16)
    ensures
        sent_by(es.push(z), a) == (if z.0 == a {
            sent_by(es, a).push(z.1)
        } else {
            sent_by(es, a)
        }),
{
    lemma_filter_push(es, from_sender(a), z);
    if z.0 == a {
        assert(es.filter(from_sender(a)).push(z).map_values(payload_of()) =~= es.filter(
            from_sender(a),
        ).map_values(payload_of()).push(z.1));
    }
}

/// Ordering law: for any sender, the messages fanned out on that sender's
/// behalf are exactly that sender's non-sentinel messages, in the order the
/// sender sent them — the dispatcher never reorders one sender's stream.
pub proof fn lemma_sender_order(events: Seq<(u16, Seq<u8>)>, a: u16)
    ensures
        sent_by(fanout_log(events), a) == sent_by(events, a).filter(broadcast_messages()),
    decreases events.len(),
{
    reveal(Seq::filter);
    if events.len() == 0 {
        assert(sent_by(fanout_log(events), a) =~= Seq::<Seq<u8>>::empty());
        assert(sent_by(events, a).filter(broadcast_messages()) =~= Seq::<Seq<u8>>::empty());
    } else {
        let es = events.drop_last();
        let z = events.last();
        lemma_sender_order(es, a);
        assert(events =~= es.push(z));
        lemma_filter_push(es, broadcast_events(), z);
        lemma_sent_by_push(es, z, a);
        if !is_sentinel(z.1) {
            lemma_sent_by_push(fanout_log(es), z, a);
        }
        if z.0 == a {
            lemma_filter_push(sent_by(es, a), broadcast_messages(), z.1);
        }
    }
}

/// An owned copy of a message's bytes.
fn copy_bytes(v: &Vec<u8>) -> (r: Vec<u8>)
    ensures
        r@ == v@,
{
    let mut r: Vec<u8> = Vec::new();
    let mut i: usize = 0;
    while i < v.len()
        invariant
            i <= v@.len(),
            r@ == v@.take(i as int),
        decreases v@.len() - i,
    {
        r.push(v[i]);
        proof {
            assert(r@ =~= v@.take(i as int + 1));
        }
        i += 1;
    }
    proof {
        assert(v@.take(v@.len() as int) =~= v@);
    }
    r
}

impl Relay {
    /// Drain a queue of inbound events in arrival order, as the dispatcher
    /// does, applying each to the registry in turn. Returns the events that
    /// were fanned out: exactly the non-sentinel events, in arrival order,
    /// each with its message unchanged. Together with [`lemma_sender_order`]
    /// this gives the ordering guarantee: one sender's messages reach the
    /// peers in the order they were sent.
    pub fn dispatch_all(&mut self, events: &Vec<(u16, Vec<u8>)>) -> (log: Vec<(u16, Vec<u8>)>)
        requires
            old(self).wf(),
        ensures
            final(self).wf(),
            events_view(log@) == fanout_log(events_view(events@)),
    {
        let ghost ev = events_view(events@);
        let mut log: Vec<(u16, Vec<u8>)> = Vec::new();
        let mut k: usize = 0;
        while k < events.len()
            invariant
                self.wf(),
                k <= events@.len(),
                ev == events_view(events@),
                events_view(log@) == fanout_log(ev.take(k as int)),
            decreases events@.len() - k,
        {
            let e = &events[k];
            let sender_id = e.0;
            proof {
                assert(ev.take(k as int + 1) =~= ev.take(k as int).push(ev[k as int]));
                lemma_filter_push(ev.take(k as int), broadcast_events(), ev[k as int]);
            }
            let action = self.handle_event(sender_id, &e.1);
            match action {
                Action::Disconnect(_) => {},
                Action::Fanout(_) => {
                    let msg = copy_bytes(&e.1);
                    let ghost log0 = log@;
                    log.push((sender_id, msg));
                    proof {
                        assert(events_view(log@) =~= events_view(log0).push(ev[k as int]));
                    }
                },
            }
            k += 1;
        }
        proof {
            assert(ev.take(ev.len() as int) =~= ev);
        }
        log
    }
}

/// Identifier law: no two live entries share an identifier; and because
/// every identifier ever assigned was strictly below the counter when it
/// was assigned, and the counter never decreases, the identifier assigned
/// next differs from every one assigned before it, live or since removed.
pub proof fn lemma_identifier_fresh(r: Relay, assigned: u16)
    requires
        r.wf(),
        assigned < r.next(),
    ensures
        forall|i: int, j: int| 0 <= i < j < r.ids().len() ==> r.ids()[i] != r.ids()[j],
        r.next() != assigned,
        forall|i: int| 0 <= i < r.ids().len() ==> #[trigger] r.ids()[i] < r.next(),
{
}

} // verus!
