//! The connection registry: the identifiers of all live connections, in
//! registration order.
//!
//! The caller owns the writable halves of the sockets and keeps them in a
//! vector of its own, in the same order as the identifiers here: the indices
//! that [`Registry::fanout`] and [`Registry::disconnect_socket`] return are
//! positions in both.

use vstd::prelude::*;

verus! {

/// No identifier occurs twice in `s`.
pub open spec fn unique_ids(s: Seq<u16>) -> bool {
    forall|i: int, j: int| #![trigger s[i], s[j]] 0 <= i < j < s.len() ==> s[i] != s[j]
}

/// The predicate a fanout keeps: every identifier but the sender's.
pub open spec fn not_id(sender: u16) -> spec_fn(u16) -> bool {
    |x: u16| x != sender
}

/// The identifier found at a position of `ids`.
pub open spec fn id_at(ids: Seq<u16>) -> spec_fn(usize) -> u16 {
    |t: usize| ids[t as int]
}

/// The identifiers of `s` that differ from `sender`, in registry order:
/// the peers a message from `sender` is fanned out to.
pub open spec fn peers(s: Seq<u16>, sender: u16) -> Seq<u16> {
    s.filter(not_id(sender))
}

/// How a removal relates the registry before (`before`) and after (`after`):
/// the first entry equal to `id` is gone, and `removed` tells the caller
/// which position it held, or `None` when no entry matched.
pub open spec fn removal_ok(
    before: Seq<u16>,
    after: Seq<u16>,
    id: u16,
    removed: Option<usize>,
) -> bool {
    match removed {
        Some(i) => {
            &&& 0 <= i < before.len()
            &&& before[i as int] == id
            &&& forall|k: int| 0 <= k < i ==> before[k] != id
            &&& after == before.remove(i as int)
        },
        None => !before.contains(id) && after == before,
    }
}

/// How a fanout target list relates to the registry `ids` it was computed
/// from: `targets` are positions into `ids`, strictly increasing, covering
/// every entry whose identifier differs from `sender`, and the identifiers
/// they point at are exactly the peers of `sender` in registry order.
pub open spec fn fanout_ok(ids: Seq<u16>, sender: u16, targets: Seq<usize>) -> bool {
    &&& forall|j: int| 0 <= j < targets.len() ==> (#[trigger] targets[j]) < ids.len()
    &&& forall|a: int, b: int| 0 <= a < b < targets.len() ==> targets[a] < targets[b]
    &&& forall|i: int|
        0 <= i < ids.len() && ids[i] != sender ==> targets.contains(i as usize)
    &&& targets.map_values(id_at(ids)) == peers(ids, sender)
}

/// Filtering a sequence extended by one element keeps the old result and
/// appends the element exactly when the predicate holds of it.
pub proof fn lemma_filter_push<A>(s: Seq<A>, p: spec_fn(A) -> bool, z: A)
    ensures
        s.push(z).filter(p) == (if p(z) {
            s.filter(p).push(z)
        } else {
            s.filter(p)
        }),
{
    reveal(Seq::filter);
    assert(s.push(z).drop_last() =~= s);
    assert(s.push(z).last() == z);
}

/// Taking one more entry of `s` extends its peer list by that entry's
/// identifier exactly when the identifier differs from the sender.
proof fn lemma_peers_take_step(s: Seq<u16>, sender: u16, i: int)
    requires
        0 <= i < s.len(),
    ensures
        peers(s.take(i + 1), sender) == (if s[i] != sender {
            peers(s.take(i), sender).push(s[i])
        } else {
            peers(s.take(i), sender)
        }),
{
    let t = s.take(i);
    assert(s.take(i + 1) =~= t.push(s[i]));
    lemma_filter_push(t, not_id(sender), s[i]);
}

/// The live connections, each entry one identifier, in registration order.
pub struct Registry {
    ids: Vec<u16>,
}

impl View for Registry {
    type V = Seq<u16>;

    closed spec fn view(&self) -> Seq<u16> {
        self.ids@
    }
}

impl Registry {
    /// At most one entry per identifier.
    pub open spec fn wf(&self) -> bool {
        unique_ids(self@)
    }

    /// An empty registry.
    pub fn new() -> (r: Registry)
        ensures
            r@ == Seq::<u16>::empty(),
            r.wf(),
    {
        let r = Registry { ids: Vec::new() };
        proof {
            assert(r@ =~= Seq::<u16>::empty());
        }
        r
    }

    /// The number of live connections.
    pub fn len(&self) -> (n: usize)
        ensures
            n == self@.len(),
    {
        self.ids.len()
    }

    /// Whether `id` is a live connection.
    pub fn contains(&self, id: u16) -> (r: bool)
        ensures
            r == self@.contains(id),
    {
        let mut i: usize = 0;
        while i < self.ids.len()
            invariant
                i <= self@.len(),
                forall|k: int| 0 <= k < i ==> self@[k] != id,
            decreases self@.len() - i,
        {
            if self.ids[i] == id {
                return true;
            }
            i += 1;
        }
        false
    }

    /// The identifier registered at a position, if the position is live.
    pub fn get(&self, i: usize) -> (r: Option<u16>)
        ensures
            i < self@.len() ==> r == Some(self@[i as int]),
            i >= self@.len() ==> r is None,
    {
        if i < self.ids.len() {
            Some(self.ids[i])
        } else {
            None
        }
    }

    /// Register a new connection. The caller pushes the matching writable
    /// half onto its own vector at the same time, so both stay aligned.
    pub fn insert(&mut self, id: u16)
        requires
            old(self).wf(),
            !old(self)@.contains(id),
        ensures
            final(self)@ == old(self)@.push(id),
            final(self).wf(),
    {
        self.ids.push(id);
        proof {
            assert forall|i: int, j: int| 0 <= i < j < self@.len() implies self@[i] != self@[j] by {
                if j == self@.len() - 1 {
                    assert(old(self)@[i] == self@[i]);
                }
            }
        }
    }

    /// Drop the first entry whose identifier equals `sender_id`, if any, and
    /// report its position so the caller can drop the writable half kept at
    /// the same position; dropping that half closes the socket. Absent
    /// identifiers are a no-op, observable as "already disconnected".
    pub fn disconnect_socket(&mut self, sender_id: u16) -> (removed: Option<usize>)
        requires
            old(self).wf(),
        ensures
            final(self).wf(),
            removal_ok(old(self)@, final(self)@, sender_id, removed),
            old(self)@.contains(sender_id) ==> removed is Some,
            !final(self)@.contains(sender_id),
    {
        let mut idx: usize = 0;
        while idx < self.ids.len()
            invariant
                idx <= self@.len(),
                self@ == old(self)@,
                unique_ids(old(self)@),
                forall|k: int| 0 <= k < idx ==> self@[k] != sender_id,
            decreases self@.len() - idx,
        {
            if self.ids[idx] == sender_id {
                self.ids.remove(idx);
                proof {
                    let s0 = old(self)@;
                    s0.remove_ensures(idx as int);
                    assert forall|a: int, b: int| 0 <= a < b < self@.len() implies self@[a]
                        != self@[b] by {
                        let a0: int = if a < idx { a } else { a + 1 };
                        let b0: int = if b < idx { b } else { b + 1 };
                        assert(self@[a] == s0[a0]);
                        assert(self@[b] == s0[b0]);
                        assert(0 <= a0 < b0 < s0.len());
                        assert(s0[a0] != s0[b0]);
                    }
                    assert forall|a: int| 0 <= a < self@.len() implies self@[a] != sender_id by {
                        let a0: int = if a < idx { a } else { a + 1 };
                        assert(self@[a] == s0[a0]);
                        assert(s0[idx as int] == sender_id);
                        if a0 < idx {
                            assert(s0[a0] != s0[idx as int]);
                        } else {
                            assert(s0[idx as int] != s0[a0]);
                        }
                    }
                    if self@.contains(sender_id) {
                        let w = choose|w: int| 0 <= w < self@.len() && self@[w] == sender_id;
                        assert(false);
                    }
                }
                return Some(idx);
            }
            idx += 1;
        }
        proof {
            if self@.contains(sender_id) {
                let w = choose|w: int| 0 <= w < self@.len() && self@[w] == sender_id;
                assert(false);
            }
        }
        None
    }

    /// The positions a message from `sender_id` is fanned out to: every
    /// entry whose identifier differs from the sender, in registry order.
    /// The caller writes the message to the writable half it keeps at each
    /// returned position.
    pub fn fanout(&self, sender_id: u16) -> (targets: Vec<usize>)
        ensures
            fanout_ok(self@, sender_id, targets@),
    {
        let s = &self.ids;
        let mut targets: Vec<usize> = Vec::new();
        let mut i: usize = 0;
        while i < s.len()
            invariant
                s == &self.ids,
                i <= self@.len(),
                forall|j: int| 0 <= j < targets@.len() ==> (#[trigger] targets@[j]) < i,
                forall|a: int, b: int| 0 <= a < b < targets@.len() ==> targets@[a] < targets@[b],
                forall|k: int|
                    0 <= k < i && self@[k] != sender_id ==> targets@.contains(k as usize),
                targets@.map_values(id_at(self@)) == peers(self@.take(i as int), sender_id),
            decreases self@.len() - i,
        {
            proof {
                lemma_peers_take_step(self@, sender_id, i as int);
            }
            if s[i] != sender_id {
                let ghost ts0 = targets@;
                targets.push(i);
                proof {
                    assert forall|k: int|
                        0 <= k < i + 1 && self@[k] != sender_id implies targets@.contains(
                        k as usize,
                    ) by {
                        if k < i {
                            let j = choose|j: int|
                                0 <= j < ts0.len() && ts0[j] == k as usize;
                            assert(targets@[j] == k as usize);
                        } else {
                            assert(targets@[targets@.len() - 1] == i as usize);
                        }
                    }
                    assert(targets@.map_values(id_at(self@)) =~= ts0.map_values(
                        id_at(self@),
                    ).push(self@[i as int]));
                }
            }
            i += 1;
        }
        proof {
            assert(self@.take(self@.len() as int) =~= self@);
        }
        targets
    }
}

/// Fanout law: a fanout never targets the sender, targets every other
/// registered identifier, and targets no identifier twice. With the
/// message handed to each target unchanged, every currently registered
/// peer of the sender receives it exactly once and the sender does not.
pub proof fn lemma_fanout_complete(ids: Seq<u16>, sender: u16, targets: Seq<usize>)
    requires
        unique_ids(ids),
        fanout_ok(ids, sender, targets),
        ids.len() <= usize::MAX,
    ensures
        forall|j: int| 0 <= j < targets.len() ==> ids[#[trigger] targets[j] as int] != sender,
        forall|id: u16|
            ids.contains(id) && id != sender ==> exists|j: int|
                0 <= j < targets.len() && ids[#[trigger] targets[j] as int] == id,
        forall|a: int, b: int|
            0 <= a < b < targets.len() ==> ids[targets[a] as int] != ids[targets[b] as int],
{
    let mapped = targets.map_values(id_at(ids));
    assert forall|j: int| 0 <= j < targets.len() implies ids[#[trigger] targets[j] as int]
        != sender by {
        ids.lemma_filter_pred(not_id(sender), j);
        assert(ids[targets[j] as int] == mapped[j]);
        assert(not_id(sender)(peers(ids, sender)[j]));
    }
    assert forall|id: u16| ids.contains(id) && id != sender implies exists|j: int|
        0 <= j < targets.len() && ids[#[trigger] targets[j] as int] == id by {
        let i = choose|i: int| 0 <= i < ids.len() && ids[i] == id;
        assert(targets.contains(i as usize));
        let j = choose|j: int| 0 <= j < targets.len() && targets[j] == i as usize;
        assert(ids[targets[j] as int] == id);
    }
}

} // verus!
