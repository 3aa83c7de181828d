//! How many connections each tunnel has.
use vstd::multiset::Multiset;
use vstd::prelude::*;

use crate::error::GatewayError;
use crate::table::Table;

verus! {

/// The connections of a tunnel; none where the tunnel is not listed.
pub open spec fn connections_of(counts: Map<Seq<char>, usize>, key: Seq<char>) -> usize {
    if counts.contains_key(key) {
        counts[key]
    } else {
        0
    }
}

/// The counts after a request for one more connection: it is granted below the limit, and a tunnel
/// is listed from its first request on.
pub open spec fn after_request(
    counts: Map<Seq<char>, usize>,
    key: Seq<char>,
    limit: usize,
) -> Map<Seq<char>, usize> {
    let count = connections_of(counts, key);
    if count >= limit {
        counts.insert(key, count)
    } else {
        counts.insert(key, (count + 1) as usize)
    }
}

/// The counts when a connection has gone: a tunnel without connections is no longer listed.
pub open spec fn after_release(
    counts: Map<Seq<char>, usize>,
    key: Seq<char>,
) -> Map<Seq<char>, usize> {
    if !counts.contains_key(key) {
        counts
    } else if counts[key] <= 1 {
        counts.remove(key)
    } else {
        counts.insert(key, (counts[key] - 1) as usize)
    }
}

/// Each listed tunnel has a connection, and none has more than the limit.
pub open spec fn within_limit(counts: Map<Seq<char>, usize>, limit: usize) -> bool {
    forall|key: Seq<char>| #[trigger] counts.contains_key(key) ==> 1 <= counts[key] <= limit
}

/// The connections of all tunnels together.
pub open spec fn total(counts: Map<Seq<char>, usize>) -> nat
    decreases counts.dom().len(),
    when counts.dom().finite()
{
    if counts.dom().len() == 0 {
        0
    } else {
        let key = counts.dom().choose();
        counts[key] as nat + total(counts.remove(key))
    }
}

/// The total is that of any one tunnel and of the others.
proof fn lemma_total_without(counts: Map<Seq<char>, usize>, key: Seq<char>)
    requires
        counts.dom().finite(),
        counts.contains_key(key),
    ensures
        total(counts) == counts[key] as nat + total(counts.remove(key)),
    decreases counts.dom().len(),
{
    let first = counts.dom().choose();
    assert(counts.dom().contains(first));
    if first != key {
        lemma_total_without(counts.remove(first), key);
        lemma_total_without(counts.remove(key), first);
        assert(counts.remove(first).remove(key) =~= counts.remove(key).remove(first));
    }
}

/// How many connections each tunnel has, by the tunnel's key.
pub struct ConnectionCounts {
    counts: Table<usize>,
}

impl View for ConnectionCounts {
    type V = Map<Seq<char>, usize>;

    closed spec fn view(&self) -> Map<Seq<char>, usize> {
        self.counts@
    }
}

impl ConnectionCounts {
    /// No tunnel is listed twice.
    pub closed spec fn wf(self) -> bool {
        self.counts.wf()
    }

    /// No connections.
    pub fn new() -> (r: Self)
        ensures
            r.wf(),
            r@ == Map::<Seq<char>, usize>::empty(),
    {
        ConnectionCounts { counts: Table::new() }
    }

    /// Asks for one more connection of a tunnel.
    pub fn acquire(&mut self, key: &str, limit: usize) -> (r: Result<(), GatewayError>)
        requires
            old(self).wf(),
        ensures
            final(self).wf(),
            r == (if connections_of(old(self)@, key@) >= limit {
                Err(GatewayError::TunnelConnectionLimit)
            } else {
                Ok(())
            }),
            final(self)@ == after_request(old(self)@, key@, limit),
    {
        let count: usize = match self.counts.get(key) {
            Some(count) => *count,
            None => 0,
        };
        if count >= limit {
            self.counts.insert(key, count);
            return Err(GatewayError::TunnelConnectionLimit);
        }
        self.counts.insert(key, count + 1);
        Ok(())
    }

    /// Gives a connection of a tunnel back.
    pub fn release(&mut self, key: &str)
        requires
            old(self).wf(),
        ensures
            final(self).wf(),
            final(self)@ == after_release(old(self)@, key@),
    {
        let count: usize = match self.counts.get(key) {
            Some(count) => *count,
            None => {
                return;
            },
        };
        if count <= 1 {
            let _ = self.counts.remove(key);
        } else {
            self.counts.insert(key, count - 1);
        }
    }

    /// The connections of all tunnels together; `None` where a `usize` does not hold the number.
    pub fn sum(&self) -> (r: Option<usize>)
        requires
            self.wf(),
        ensures
            r == (if total(self@) <= usize::MAX {
                Some(total(self@) as usize)
            } else {
                None
            }),
    {
        let mut sum: usize = 0;
        let mut i: usize = 0;
        let ghost mut rest = self@;
        proof {
            self.counts.lemma_keys();
        }
        while i < self.counts.len()
            invariant
                self.wf(),
                i <= self.counts.keys().len(),
                rest.dom().finite(),
                rest.len() + i == self.counts.keys().len(),
                forall|k: int|
                    i <= k < self.counts.keys().len() ==> rest.contains_key(
                        #[trigger] self.counts.keys()[k],
                    ),
                forall|key: Seq<char>| #[trigger] rest.contains_key(key) ==> rest[key] == self@[key],
                sum + total(rest) == total(self@),
            decreases self.counts.keys().len() - i,
        {
            let ghost key = self.counts.keys()[i as int];
            let count: usize = *self.counts.value_at(i);
            proof {
                lemma_total_without(rest, key);
                rest = rest.remove(key);
            }
            match sum.checked_add(count) {
                Some(next) => {
                    sum = next;
                },
                None => {
                    return None;
                },
            }
            i = i + 1;
        }
        Some(sum)
    }
}

/// Asking for a connection keeps every tunnel within its limit.
pub proof fn law_acquire_keeps_the_limit(
    counts: Map<Seq<char>, usize>,
    key: Seq<char>,
    limit: usize,
)
    requires
        within_limit(counts, limit),
        limit >= 1,
    ensures
        within_limit(after_request(counts, key, limit), limit),
{
}

/// Giving a connection back keeps every tunnel within its limit.
pub proof fn law_release_keeps_the_limit(
    counts: Map<Seq<char>, usize>,
    key: Seq<char>,
    limit: usize,
)
    requires
        within_limit(counts, limit),
    ensures
        within_limit(after_release(counts, key), limit),
{
}

/// A connection that is granted and given back leaves the counts as they were.
pub proof fn law_release_undoes_acquire(
    counts: Map<Seq<char>, usize>,
    key: Seq<char>,
    limit: usize,
)
    requires
        within_limit(counts, limit),
        connections_of(counts, key) < limit,
    ensures
        after_release(after_request(counts, key, limit), key) == counts,
{
    assert(after_release(after_request(counts, key, limit), key) =~= counts);
}

/// A connection that is granted adds one to the total.
pub proof fn law_acquire_adds_one(counts: Map<Seq<char>, usize>, key: Seq<char>, limit: usize)
    requires
        counts.dom().finite(),
        connections_of(counts, key) < limit,
    ensures
        total(after_request(counts, key, limit)) == total(counts) + 1,
{
    let after = after_request(counts, key, limit);
    lemma_total_without(after, key);
    assert(after.remove(key) =~= counts.remove(key));
    if counts.contains_key(key) {
        lemma_total_without(counts, key);
    } else {
        assert(counts.remove(key) =~= counts);
    }
}

/// The connections of one tunnel do not bear on those of another.
pub proof fn law_tunnels_are_counted_apart(
    counts: Map<Seq<char>, usize>,
    key: Seq<char>,
    other: Seq<char>,
    limit: usize,
)
    requires
        key != other,
    ensures
        connections_of(after_request(counts, key, limit), other) == connections_of(counts, other),
        connections_of(after_release(counts, key), other) == connections_of(counts, other),
{
}

/// A connection that is given back takes one from the total.
pub proof fn law_release_takes_one(counts: Map<Seq<char>, usize>, key: Seq<char>)
    requires
        counts.dom().finite(),
        connections_of(counts, key) >= 1,
    ensures
        total(after_release(counts, key)) == total(counts) - 1,
{
    let after = after_release(counts, key);
    lemma_total_without(counts, key);
    if counts[key] > 1 {
        lemma_total_without(after, key);
        assert(after.remove(key) =~= counts.remove(key));
    }
}

/// What happens to the connections of a gateway, each of a tunnel given by its key.
pub enum SlotEvent {
    /// A connection is asked for; `served` tells whether there is such a tunnel.
    Asked { key: Seq<char>, served: bool },
    /// A connection that its tunnel has admitted asks for one of the gateway's slots.
    Claimed { key: Seq<char> },
    /// A connection ends, however it ends.
    Ended { key: Seq<char> },
}

/// The connections of a gateway: what its counters hold, how many slots are free, and which
/// connections are admitted by their tunnels only, or have a slot and are live.
pub struct Occupancy {
    pub counts: Map<Seq<char>, usize>,
    pub free: nat,
    pub admitted: Multiset<Seq<char>>,
    pub live: Multiset<Seq<char>>,
}

impl Occupancy {
    /// A gateway without connections.
    pub open spec fn fresh(slots: nat) -> Self {
        Occupancy {
            counts: Map::empty(),
            free: slots,
            admitted: Multiset::empty(),
            live: Multiset::empty(),
        }
    }

    /// Only an admitted connection asks for a slot, and only a live one ends.
    pub open spec fn allows(self, event: SlotEvent) -> bool {
        match event {
            SlotEvent::Asked { .. } => true,
            SlotEvent::Claimed { key } => self.admitted.count(key) > 0,
            SlotEvent::Ended { key } => self.live.count(key) > 0,
        }
    }

    /// The connections after an event, with at most `limit` of them for each tunnel. The counters
    /// change as they do when traffic is processed, a slot is claimed and a connection is released.
    pub open spec fn after(self, event: SlotEvent, limit: usize) -> Self {
        match event {
            SlotEvent::Asked { key, served } => if served && connections_of(self.counts, key)
                < limit {
                Occupancy {
                    counts: after_request(self.counts, key, limit),
                    admitted: self.admitted.insert(key),
                    ..self
                }
            } else {
                self
            },
            SlotEvent::Claimed { key } => if self.free > 0 {
                Occupancy {
                    free: (self.free - 1) as nat,
                    admitted: self.admitted.remove(key),
                    live: self.live.insert(key),
                    ..self
                }
            } else {
                Occupancy {
                    counts: after_release(self.counts, key),
                    admitted: self.admitted.remove(key),
                    ..self
                }
            },
            SlotEvent::Ended { key } => Occupancy {
                counts: after_release(self.counts, key),
                free: self.free + 1,
                live: self.live.remove(key),
                ..self
            },
        }
    }

    /// The connections after a history.
    pub open spec fn after_all(self, history: Seq<SlotEvent>, limit: usize) -> Self
        decreases history.len(),
    {
        if history.len() == 0 {
            self
        } else {
            self.after_all(history.drop_last(), limit).after(history.last(), limit)
        }
    }

    /// Each event of a history can happen where it stands.
    pub open spec fn allows_all(self, history: Seq<SlotEvent>, limit: usize) -> bool
        decreases history.len(),
    {
        history.len() == 0 || (self.allows_all(history.drop_last(), limit) && self.after_all(
            history.drop_last(),
            limit,
        ).allows(history.last()))
    }

    /// Each live connection holds one of the slots, each connection is counted once for its tunnel,
    /// and no tunnel has more than its limit.
    pub open spec fn balanced(self, slots: nat, limit: usize) -> bool {
        &&& self.free + self.live.len() == slots
        &&& self.counts.dom().finite()
        &&& within_limit(self.counts, limit)
        &&& forall|key: Seq<char>|
            #![trigger connections_of(self.counts, key)]
            connections_of(self.counts, key) == self.admitted.count(key) + self.live.count(key)
        &&& total(self.counts) == self.admitted.len() + self.live.len()
    }
}

/// An event that can happen keeps the connections balanced.
proof fn lemma_balance_is_kept(before: Occupancy, event: SlotEvent, slots: nat, limit: usize)
    requires
        before.balanced(slots, limit),
        before.allows(event),
    ensures
        before.after(event, limit).balanced(slots, limit),
{
    let after = before.after(event, limit);
    match event {
        SlotEvent::Asked { key, served } => {
            if served && connections_of(before.counts, key) < limit {
                law_acquire_adds_one(before.counts, key, limit);
                law_acquire_keeps_the_limit(before.counts, key, limit);
                assert forall|other: Seq<char>|
                    #![trigger connections_of(after.counts, other)]
                    connections_of(after.counts, other) == after.admitted.count(other)
                        + after.live.count(other) by {
                    assert(connections_of(before.counts, other) == before.admitted.count(other)
                        + before.live.count(other));
                }
            }
        },
        SlotEvent::Claimed { key } => {
            assert(connections_of(before.counts, key) == before.admitted.count(key)
                + before.live.count(key));
            assert forall|other: Seq<char>|
                #![trigger connections_of(after.counts, other)]
                connections_of(after.counts, other) == after.admitted.count(other)
                    + after.live.count(other) by {
                assert(connections_of(before.counts, other) == before.admitted.count(other)
                    + before.live.count(other));
            }
            if before.free == 0 {
                law_release_takes_one(before.counts, key);
                law_release_keeps_the_limit(before.counts, key, limit);
            }
        },
        SlotEvent::Ended { key } => {
            assert(connections_of(before.counts, key) == before.admitted.count(key)
                + before.live.count(key));
            assert forall|other: Seq<char>|
                #![trigger connections_of(after.counts, other)]
                connections_of(after.counts, other) == after.admitted.count(other)
                    + after.live.count(other) by {
                assert(connections_of(before.counts, other) == before.admitted.count(other)
                    + before.live.count(other));
            }
            law_release_takes_one(before.counts, key);
            law_release_keeps_the_limit(before.counts, key, limit);
        },
    }
}

/// The connections of a gateway are balanced after every history.
proof fn lemma_always_balanced(history: Seq<SlotEvent>, slots: nat, limit: usize)
    requires
        Occupancy::fresh(slots).allows_all(history, limit),
    ensures
        Occupancy::fresh(slots).after_all(history, limit).balanced(slots, limit),
    decreases history.len(),
{
    let fresh = Occupancy::fresh(slots);
    if history.len() > 0 {
        lemma_always_balanced(history.drop_last(), slots, limit);
        lemma_balance_is_kept(
            fresh.after_all(history.drop_last(), limit),
            history.last(),
            slots,
            limit,
        );
    }
}

/// Whatever connections are asked for and however they end, at every moment at most as many are live
/// as the gateway has slots, and at most as many of one tunnel as its limit. Each live connection
/// holds one slot, and one count of its tunnel; the end of a connection frees both, so that
/// without connections every slot is free and no tunnel is listed.
pub proof fn law_gateway_stays_within_its_slots(
    history: Seq<SlotEvent>,
    slots: nat,
    limit: usize,
)
    requires
        Occupancy::fresh(slots).allows_all(history, limit),
    ensures
        ({
            let now = Occupancy::fresh(slots).after_all(history, limit);
            &&& now.live.len() <= slots
            &&& now.free == slots - now.live.len()
            &&& forall|key: Seq<char>| #[trigger] now.live.count(key) <= limit
            &&& forall|key: Seq<char>|
                #![trigger connections_of(now.counts, key)]
                connections_of(now.counts, key) == now.admitted.count(key) + now.live.count(key)
            &&& total(now.counts) == now.admitted.len() + now.live.len()
            &&& now.admitted.len() == 0 ==> total(now.counts) <= slots
            &&& now.admitted.len() == 0 && now.live.len() == 0 ==> now.free == slots && now.counts
                == Map::<Seq<char>, usize>::empty()
        }),
{
    lemma_always_balanced(history, slots, limit);
    let now = Occupancy::fresh(slots).after_all(history, limit);
    assert forall|key: Seq<char>| #[trigger] now.live.count(key) <= limit by {
        assert(connections_of(now.counts, key) == now.admitted.count(key) + now.live.count(key));
    }
    if now.admitted.len() == 0 && now.live.len() == 0 {
        assert forall|key: Seq<char>| !#[trigger] now.counts.contains_key(key) by {
            assert(connections_of(now.counts, key) == now.admitted.count(key) + now.live.count(key));
            assert(now.admitted.count(key) <= now.admitted.len());
            assert(now.live.count(key) <= now.live.len());
        }
        assert(now.counts =~= Map::empty());
    }
}

/// A tunnel below its limit gets one connection more, its first one where it is not listed; at its
/// limit its connections stay what they are. No other tunnel is touched.
pub proof fn law_one_connection_more(
    counts: Map<Seq<char>, usize>,
    key: Seq<char>,
    other: Seq<char>,
    limit: usize,
)
    requires
        limit >= 1,
    ensures
        ({
            let after = after_request(counts, key, limit);
            &&& !counts.contains_key(key) ==> after.contains_key(key) && after[key] == 1
            &&& counts.contains_key(key) && counts[key] < limit ==> after.contains_key(key)
                && after[key] == counts[key] + 1
            &&& counts.contains_key(key) && counts[key] >= limit ==> after == counts
            &&& other != key ==> after.contains_key(other) == counts.contains_key(other)
            &&& other != key && counts.contains_key(other) ==> after[other] == counts[other]
        }),
        connections_of(counts, key) == (if counts.contains_key(key) {
            counts[key] as int
        } else {
            0
        }),
{
    if counts.contains_key(key) && counts[key] >= limit {
        assert(after_request(counts, key, limit) =~= counts);
    }
}

/// A tunnel that gives a connection back has one less, and is not listed any more after its last
/// one. No other tunnel is touched.
pub proof fn law_one_connection_less(
    counts: Map<Seq<char>, usize>,
    key: Seq<char>,
    other: Seq<char>,
)
    ensures
        ({
            let after = after_release(counts, key);
            &&& !counts.contains_key(key) ==> after == counts
            &&& counts.contains_key(key) && counts[key] <= 1 ==> !after.contains_key(key)
            &&& counts.contains_key(key) && counts[key] > 1 ==> after.contains_key(key)
                && after[key] == counts[key] - 1
            &&& other != key ==> after.contains_key(other) == counts.contains_key(other)
            &&& other != key && counts.contains_key(other) ==> after[other] == counts[other]
        }),
{
}

/// The total is the sum over all tunnels: each tunnel that is listed adds its connections.
pub proof fn law_total_is_the_sum(counts: Map<Seq<char>, usize>, key: Seq<char>, count: usize)
    requires
        counts.dom().finite(),
        !counts.contains_key(key),
    ensures
        total(Map::empty()) == 0,
        total(counts.insert(key, count)) == total(counts) + count,
{
    lemma_total_without(counts.insert(key, count), key);
    assert(counts.insert(key, count).remove(key) =~= counts);
    assert(Map::<Seq<char>, usize>::empty().dom().len() == 0);
}

/// Counts within a limit are of listed tunnels with at least one connection and no more than the
/// limit each.
pub proof fn law_within_limit(counts: Map<Seq<char>, usize>, key: Seq<char>, limit: usize)
    requires
        within_limit(counts, limit),
    ensures
        counts.contains_key(key) ==> 1 <= counts[key] <= limit,
        connections_of(counts, key) <= limit,
{
}

} // verus!
