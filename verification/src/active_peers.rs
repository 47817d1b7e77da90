use vstd::prelude::*;

use crate::ids::{id_lt, lemma_id_order_total, PeerId};
use crate::registry::{find_key, has_key, keys_unique, lemma_find_at, lemma_find_has,
    lemma_find_none, lemma_find_push, lemma_find_remove, lemma_find_update_same, Keyed};
use crate::types::{Connection, ConnectionOrigin, DisconnectReason, PeerEvent};

verus! {

impl Keyed for Connection {
    open spec fn key(&self) -> PeerId {
        self.peer_id
    }
}

/// The origin that survives a duplicate connection to `remote`: the side with
/// the lower identity keeps its outbound-dialed link, the side with the
/// higher identity keeps its inbound-accepted one.
pub open spec fn preferred_origin(local: PeerId, remote: PeerId) -> ConnectionOrigin {
    if id_lt(local, remote) {
        ConnectionOrigin::Outbound
    } else {
        ConnectionOrigin::Inbound
    }
}

/// The tie-break is side-independent: between two distinct nodes, the side
/// that keeps its outbound-dialed connection is exactly the side whose peer
/// keeps its inbound-accepted one, so both ends converge on the same
/// surviving link without coordination.
pub proof fn lemma_tie_break_converges(a: PeerId, b: PeerId)
    requires
        a != b,
    ensures
        preferred_origin(a, b) == ConnectionOrigin::Outbound <==> preferred_origin(b, a)
            == ConnectionOrigin::Inbound,
{
    lemma_id_order_total(a, b);
}

struct Subscriber {
    events: Vec<PeerEvent>,
    delivered: usize,
}

/// The actual-state registry: the currently live connections, keyed by peer
/// identity, with a publish/subscribe feed of membership changes. Each
/// subscriber receives every event from the moment of its subscription
/// onward, in the order the registry applied them, and never a past event.
///
/// The registry itself retains events without bound; the process embedding it
/// forwards them into a bounded broadcast channel (capacity 128) whose fixed
/// overflow policy is to let a subscriber that falls behind observe an
/// explicit lag error rather than lose events silently.
pub struct ActivePeers {
    connections: Vec<Connection>,
    subscribers: Vec<Subscriber>,
}

impl ActivePeers {
    /// The live connections, in storage order.
    pub closed spec fn conns(&self) -> Seq<Connection> {
        self.connections@
    }

    /// How many subscribers have registered.
    pub closed spec fn sub_count(&self) -> int {
        self.subscribers@.len() as int
    }

    /// All events published to subscriber `i` since it subscribed.
    pub closed spec fn events_of(&self, i: int) -> Seq<PeerEvent> {
        self.subscribers@[i].events@
    }

    /// How many of subscriber `i`'s events it has already received.
    pub closed spec fn delivered_of(&self, i: int) -> int {
        self.subscribers@[i].delivered as int
    }

    /// At most one connection per peer identity, and no subscriber has
    /// received more events than were published to it.
    pub open spec fn wf(&self) -> bool {
        &&& keys_unique(self.conns())
        &&& forall|i: int| #![trigger self.delivered_of(i)] #![trigger self.events_of(i)]
            0 <= i < self.sub_count() ==> 0 <= self.delivered_of(i) <= self.events_of(i).len()
    }

    /// An empty registry with no subscribers.
    pub fn new() -> (r: ActivePeers)
        ensures
            r.wf(),
            r.conns() == Seq::<Connection>::empty(),
            r.sub_count() == 0,
    {
        ActivePeers { connections: Vec::new(), subscribers: Vec::new() }
    }

    /// The index of the connection stored under `peer_id`, if any.
    fn conn_index(&self, peer_id: &PeerId) -> (r: Option<usize>)
        ensures
            match r {
                Some(i) => i < self.conns().len() && self.conns()[i as int].peer_id == *peer_id
                    && forall|j: int| 0 <= j < i ==> self.conns()[j].peer_id != *peer_id,
                None => !has_key(self.conns(), *peer_id),
            },
    {
        let mut k: usize = 0;
        while k < self.connections.len()
            invariant
                k <= self.connections.len(),
                forall|j: int| 0 <= j < k ==> self.conns()[j].peer_id != *peer_id,
            decreases self.connections.len() - k,
        {
            if self.connections[k].peer_id == *peer_id {
                return Some(k);
            }
            k += 1;
        }
        None
    }

    /// The live connection to `peer_id`, if any.
    pub fn get(&self, peer_id: &PeerId) -> (r: Option<Connection>)
        ensures
            r == find_key(self.conns(), *peer_id),
    {
        match self.conn_index(peer_id) {
            Some(i) => {
                proof {
                    lemma_find_at(self.conns(), *peer_id, i as int);
                }
                Some(self.connections[i])
            },
            None => {
                proof {
                    lemma_find_none(self.conns(), *peer_id);
                }
                None
            },
        }
    }

    /// A snapshot of the current membership.
    pub fn peers(&self) -> (r: Vec<PeerId>)
        ensures
            r@ == self.conns().map_values(|c: Connection| c.peer_id),
    {
        let mut r: Vec<PeerId> = Vec::new();
        let mut k: usize = 0;
        while k < self.connections.len()
            invariant
                k <= self.connections.len(),
                r@ == self.conns().subrange(0, k as int).map_values(|c: Connection| c.peer_id),
            decreases self.connections.len() - k,
        {
            r.push(self.connections[k].peer_id);
            proof {
                assert(r@ =~= self.conns().subrange(0, k as int + 1).map_values(
                    |c: Connection| c.peer_id,
                ));
            }
            k += 1;
        }
        proof {
            assert(self.conns().subrange(0, self.conns().len() as int) =~= self.conns());
        }
        r
    }

    /// Register a new independent subscriber and return its index. It starts
    /// with an empty feed: a late subscriber never receives past events.
    pub fn subscribe(&mut self) -> (idx: usize)
        requires
            old(self).wf(),
        ensures
            final(self).wf(),
            idx == old(self).sub_count(),
            final(self).sub_count() == old(self).sub_count() + 1,
            final(self).conns() == old(self).conns(),
            final(self).events_of(idx as int) == Seq::<PeerEvent>::empty(),
            final(self).delivered_of(idx as int) == 0,
            forall|i: int| 0 <= i < old(self).sub_count() ==> final(self).events_of(i) == old(
                self,
            ).events_of(i) && final(self).delivered_of(i) == old(self).delivered_of(i),
    {
        let ghost s0 = *self;
        let idx = self.subscribers.len();
        self.subscribers.push(Subscriber { events: Vec::new(), delivered: 0 });
        proof {
            assert forall|i: int| #![trigger self.delivered_of(i)] #![trigger self.events_of(i)]
                0 <= i < self.sub_count() implies 0 <= self.delivered_of(i) <= self.events_of(
                i,
            ).len() by {
                if i < s0.sub_count() {
                    assert(self.subscribers@[i] == s0.subscribers@[i]);
                    assert(s0.delivered_of(i) <= s0.events_of(i).len());
                } else {
                    assert(self.subscribers@[i].delivered == 0);
                }
            }
        }
        idx
    }

    /// The next event for subscriber `idx` that it has not yet received, in
    /// publication order, or nothing if it has seen them all.
    pub fn recv(&mut self, idx: usize) -> (r: Option<PeerEvent>)
        requires
            old(self).wf(),
            idx < old(self).sub_count(),
        ensures
            final(self).wf(),
            final(self).conns() == old(self).conns(),
            final(self).sub_count() == old(self).sub_count(),
            forall|i: int| 0 <= i < old(self).sub_count() && i != idx ==> final(self).events_of(i)
                == old(self).events_of(i) && final(self).delivered_of(i) == old(self).delivered_of(
                i,
            ),
            final(self).events_of(idx as int) == old(self).events_of(idx as int),
            if old(self).delivered_of(idx as int) < old(self).events_of(idx as int).len() {
                r == Some(old(self).events_of(idx as int)[old(self).delivered_of(idx as int)])
                    && final(self).delivered_of(idx as int) == old(self).delivered_of(idx as int)
                    + 1
            } else {
                r == None::<PeerEvent> && final(self).delivered_of(idx as int) == old(
                    self,
                ).delivered_of(idx as int)
            },
    {
        let ghost s0 = *self;
        let sub = &mut self.subscribers[idx];
        let r = if sub.delivered < sub.events.len() {
            let e = sub.events[sub.delivered];
            sub.delivered = sub.delivered + 1;
            Some(e)
        } else {
            None
        };
        proof {
            assert forall|i: int| #![trigger self.delivered_of(i)] #![trigger self.events_of(i)]
                0 <= i < self.sub_count() implies 0 <= self.delivered_of(i) <= self.events_of(
                i,
            ).len() by {
                if i != idx {
                    assert(self.subscribers@[i] == s0.subscribers@[i]);
                }
                assert(s0.delivered_of(i) <= s0.events_of(i).len());
            }
        }
        r
    }

    /// Append `e` to every subscriber's feed.
    fn publish(&mut self, e: PeerEvent)
        requires
            old(self).wf(),
        ensures
            final(self).wf(),
            final(self).conns() == old(self).conns(),
            published(*old(self), *final(self), e),
    {
        let ghost s0 = *self;
        let n = self.subscribers.len();
        let mut k: usize = 0;
        while k < n
            invariant
                k <= n,
                n == self.subscribers@.len(),
                self.connections@ == s0.connections@,
                self.subscribers@.len() == s0.subscribers@.len(),
                forall|i: int| 0 <= i < k ==> self.subscribers@[i].events@
                    == s0.subscribers@[i].events@.push(e) && self.subscribers@[i].delivered
                    == s0.subscribers@[i].delivered,
                forall|i: int| k <= i < n ==> self.subscribers@[i] == s0.subscribers@[i],
            decreases n - k,
        {
            let sub = &mut self.subscribers[k];
            sub.events.push(e);
            k += 1;
        }
        proof {
            assert forall|i: int| #![trigger self.delivered_of(i)]
                0 <= i < s0.sub_count() implies 0 <= self.delivered_of(i) <= self.events_of(
                i,
            ).len() by {
                assert(s0.delivered_of(i) <= s0.events_of(i).len());
            }
        }
    }
}

proof fn lemma_subs_same(a: ActivePeers, b: ActivePeers)
    requires
        a.subscribers@ == b.subscribers@,
    ensures
        b.sub_count() == a.sub_count(),
        forall|i: int| #![trigger b.events_of(i)] #![trigger b.delivered_of(i)]
            0 <= i < a.sub_count() ==> b.events_of(i) == a.events_of(i) && b.delivered_of(i)
                == a.delivered_of(i),
        subs_unchanged(a, b),
        a.wf() && keys_unique(b.conns()) ==> b.wf(),
{
    assert forall|i: int| #![trigger b.events_of(i)] #![trigger b.delivered_of(i)]
        0 <= i < a.sub_count() implies b.events_of(i) == a.events_of(i) && b.delivered_of(i)
        == a.delivered_of(i) by {}
    if a.wf() && keys_unique(b.conns()) {
        assert forall|i: int| #![trigger b.delivered_of(i)] #![trigger b.events_of(i)]
            0 <= i < b.sub_count() implies 0 <= b.delivered_of(i) <= b.events_of(i).len() by {
            assert(a.delivered_of(i) <= a.events_of(i).len());
        }
    }
}

/// Every subscriber registered in `a` has, in `b`, exactly the event `e`
/// appended to its feed, and nothing else about the subscribers changed.
pub open spec fn published(a: ActivePeers, b: ActivePeers, e: PeerEvent) -> bool {
    &&& b.sub_count() == a.sub_count()
    &&& forall|i: int| #![trigger b.events_of(i)] #![trigger b.delivered_of(i)]
        0 <= i < a.sub_count() ==> b.events_of(i) == a.events_of(i).push(e) && b.delivered_of(i)
            == a.delivered_of(i)
}

/// No subscriber's feed or position changed between `a` and `b`.
pub open spec fn subs_unchanged(a: ActivePeers, b: ActivePeers) -> bool {
    &&& b.sub_count() == a.sub_count()
    &&& forall|i: int| #![trigger b.events_of(i)] #![trigger b.delivered_of(i)]
        0 <= i < a.sub_count() ==> b.events_of(i) == a.events_of(i) && b.delivered_of(i)
            == a.delivered_of(i)
}

/// What `ActivePeers::insert` did with the offered connection. The payload of
/// `Rejected` and `Replaced` is the losing connection, which the caller must
/// close.
#[derive(Clone, Copy, PartialEq, Eq, Structural, Debug)]
pub enum InsertOutcome {
    /// The peer had no live connection; the offered one was installed.
    Added,
    /// An existing connection of the preferred origin survives; the offered
    /// one lost the tie-break.
    Rejected(Connection),
    /// The offered connection has the preferred origin; the existing one it
    /// displaced lost the tie-break.
    Replaced(Connection),
}

impl ActivePeers {
    /// Install a connection for its peer, resolving a duplicate by the
    /// deterministic tie-break: the connection whose origin is
    /// `preferred_origin(local_id, peer)` survives. A fresh insertion
    /// publishes exactly one `NewPeer` event; resolving a duplicate is not a
    /// membership change and publishes nothing.
    pub fn insert(&mut self, local_id: PeerId, conn: Connection) -> (outcome: InsertOutcome)
        requires
            old(self).wf(),
        ensures
            final(self).wf(),
            final(self).sub_count() == old(self).sub_count(),
            match find_key(old(self).conns(), conn.peer_id) {
                None => outcome == InsertOutcome::Added && final(self).conns() == old(
                    self,
                ).conns().push(conn) && published(
                    *old(self),
                    *final(self),
                    PeerEvent::NewPeer(conn.peer_id),
                ),
                Some(ex) => if ex.origin == preferred_origin(local_id, conn.peer_id) {
                    outcome == InsertOutcome::Rejected(conn) && final(self).conns() == old(
                        self,
                    ).conns() && subs_unchanged(*old(self), *final(self))
                } else {
                    outcome == InsertOutcome::Replaced(ex) && find_key(
                        final(self).conns(),
                        conn.peer_id,
                    ) == Some(conn) && (forall|p: PeerId|
                        p != conn.peer_id ==> find_key(final(self).conns(), p) == find_key(
                            old(self).conns(),
                            p,
                        )) && final(self).conns().len() == old(self).conns().len()
                        && subs_unchanged(*old(self), *final(self))
                },
            },
    {
        let ghost s0 = *self;
        match self.conn_index(&conn.peer_id) {
            Some(i) => {
                proof {
                    lemma_find_at(s0.conns(), conn.peer_id, i as int);
                }
                let existing = self.connections[i];
                let keep_existing = if local_id.lt(&conn.peer_id) {
                    matches!(existing.origin, ConnectionOrigin::Outbound)
                } else {
                    matches!(existing.origin, ConnectionOrigin::Inbound)
                };
                if keep_existing {
                    InsertOutcome::Rejected(conn)
                } else {
                    proof {
                        lemma_find_update_same(s0.conns(), i as int, conn);
                    }
                    let _ = self.connections.remove(i);
                    self.connections.insert(i, conn);
                    proof {
                        assert(self.conns() =~= s0.conns().update(i as int, conn));
                        lemma_subs_same(s0, *self);
                    }
                    InsertOutcome::Replaced(existing)
                }
            },
            None => {
                proof {
                    lemma_find_none(s0.conns(), conn.peer_id);
                    lemma_find_push(s0.conns(), conn);
                }
                self.connections.push(conn);
                proof {
                    lemma_subs_same(s0, *self);
                }
                let ghost s1 = *self;
                self.publish(PeerEvent::NewPeer(conn.peer_id));
                proof {
                    assert(subs_unchanged(s0, s1));
                    assert(published(s1, *self, PeerEvent::NewPeer(conn.peer_id)));
                }
                InsertOutcome::Added
            },
        }
    }

    /// Remove the connection to `peer_id` if one is live, returning it for
    /// the caller to close, and publish exactly one `LostPeer` event with the
    /// given reason. Removing an absent peer is a no-op: no event, no error,
    /// no change.
    pub fn remove(&mut self, peer_id: &PeerId, reason: DisconnectReason) -> (r: Option<Connection>)
        requires
            old(self).wf(),
        ensures
            final(self).wf(),
            final(self).sub_count() == old(self).sub_count(),
            match find_key(old(self).conns(), *peer_id) {
                Some(ex) => r == Some(ex) && !has_key(final(self).conns(), *peer_id) && (forall|
                    p: PeerId,
                |
                    p != *peer_id ==> find_key(final(self).conns(), p) == find_key(
                        old(self).conns(),
                        p,
                    )) && final(self).conns().len() == old(self).conns().len() - 1 && published(
                    *old(self),
                    *final(self),
                    PeerEvent::LostPeer(*peer_id, reason),
                ),
                None => r == None::<Connection> && final(self).conns() == old(self).conns()
                    && subs_unchanged(*old(self), *final(self)),
            },
    {
        let ghost s0 = *self;
        match self.conn_index(peer_id) {
            Some(i) => {
                proof {
                    lemma_find_at(s0.conns(), *peer_id, i as int);
                    lemma_find_remove(s0.conns(), i as int);
                }
                let ex = self.connections.remove(i);
                proof {
                    lemma_find_has(self.conns(), *peer_id);
                    lemma_subs_same(s0, *self);
                }
                let ghost s1 = *self;
                self.publish(PeerEvent::LostPeer(*peer_id, reason));
                proof {
                    assert(subs_unchanged(s0, s1));
                    assert(published(s1, *self, PeerEvent::LostPeer(*peer_id, reason)));
                }
                Some(ex)
            },
            None => {
                proof {
                    lemma_find_none(s0.conns(), *peer_id);
                }
                None
            },
        }
    }
}

/// A membership change reaches every subscriber registered at its time
/// exactly once: each feed grows by exactly the one event of that change,
/// behind an unchanged history.
pub proof fn lemma_published_exactly_once(a: ActivePeers, b: ActivePeers, e: PeerEvent, i: int)
    requires
        published(a, b, e),
        0 <= i < a.sub_count(),
    ensures
        b.events_of(i).len() == a.events_of(i).len() + 1,
        b.events_of(i).last() == e,
        b.events_of(i).take(a.events_of(i).len() as int) == a.events_of(i),
{
    assert(b.events_of(i).take(a.events_of(i).len() as int) =~= a.events_of(i));
}

/// The central invariant of the registry: at any instant it holds at most one
/// connection per peer identity — distinct entries are to distinct peers.
pub proof fn lemma_at_most_one_connection(ap: ActivePeers, i: int, j: int)
    requires
        ap.wf(),
        0 <= i < ap.conns().len(),
        0 <= j < ap.conns().len(),
        i != j,
    ensures
        ap.conns()[i].peer_id != ap.conns()[j].peer_id,
{
}

} // verus!
