use vstd::prelude::*;

use crate::active_peers::{published, subs_unchanged, ActivePeers};
use crate::ids::PeerId;
use crate::known_peers::KnownPeers;
use crate::registry::{find_key, has_key, lemma_find_has};
use crate::types::{Connection, DisconnectReason, NetworkError, PeerAffinity, PeerEvent, PeerInfo,
    PeerInfoView};

verus! {

/// The connection manager owns every connection-establishment decision: which
/// known peers to dial, which duplicate link survives (`ActivePeers::insert`),
/// and whether a transport loss notice still concerns the live session. The
/// task that runs it multiplexes the transport's accepted connections, the
/// explicit connect commands and a periodic reconciliation trigger, and calls
/// these functions for every decision.

/// Whether reconciliation must dial `info`: it asks for a persistent
/// connection (`High` affinity) and no connection to it is live. `Low`
/// affinity peers are never dialed proactively.
pub open spec fn needs_dial(active: Seq<Connection>, info: PeerInfoView) -> bool {
    info.affinity == PeerAffinity::High && !has_key(active, info.peer_id)
}

/// The desired peers that reconciliation must dial, in registry order.
pub open spec fn dials_spec(known: Seq<PeerInfo>, active: Seq<Connection>) -> Seq<PeerInfoView>
    decreases known.len(),
{
    if known.len() == 0 {
        Seq::empty()
    } else {
        dials_spec(known.drop_last(), active) + (if needs_dial(active, known.last()@) {
            seq![known.last()@]
        } else {
            Seq::empty()
        })
    }
}

/// The reconciliation list is sound and complete: everything on it is a
/// desired peer that needs a dial, and every desired peer that needs a dial
/// is on it.
pub proof fn lemma_dials_spec_members(known: Seq<PeerInfo>, active: Seq<Connection>)
    ensures
        forall|j: int| #![trigger dials_spec(known, active)[j]]
            0 <= j < dials_spec(known, active).len() ==> needs_dial(
                active,
                dials_spec(known, active)[j],
            ) && (exists|i: int| 0 <= i < known.len() && known[i]@ == dials_spec(known, active)[j]),
        forall|i: int| #![trigger needs_dial(active, known[i]@)]
            0 <= i < known.len() && needs_dial(active, known[i]@) ==> dials_spec(
                known,
                active,
            ).contains(known[i]@),
    decreases known.len(),
{
    if known.len() == 0 {
    } else {
        let prefix = known.drop_last();
        lemma_dials_spec_members(prefix, active);
        let d = dials_spec(known, active);
        let dp = dials_spec(prefix, active);
        assert forall|j: int| 0 <= j < d.len() implies needs_dial(active, d[j]) && (exists|i: int|
            0 <= i < known.len() && known[i]@ == d[j]) by {
            if j < dp.len() {
                assert(d[j] == dp[j]);
                let i = choose|i: int| 0 <= i < prefix.len() && prefix[i]@ == dp[j];
                assert(known[i] == prefix[i]);
                assert(known[i]@ == d[j]);
            } else {
                assert(needs_dial(active, known.last()@));
                assert(d[j] == known.last()@);
                assert(known[known.len() - 1]@ == d[j]);
            }
        }
        assert forall|i: int| 0 <= i < known.len() && needs_dial(active, known[i]@) implies
            d.contains(known[i]@) by {
            if i < known.len() - 1 {
                assert(prefix[i] == known[i]);
                assert(dp.contains(known[i]@));
                let j = choose|j: int| 0 <= j < dp.len() && dp[j] == known[i]@;
                assert(d[j] == known[i]@);
            } else {
                assert(needs_dial(active, known.last()@));
                assert(d[d.len() - 1] == known[i]@);
            }
        }
    }
}

/// One reconciliation pass: compare the desired peers against the live
/// connections and return exactly the entries that must be dialed — the
/// `High`-affinity peers with no live connection, in registry order.
pub fn dials_needed(known: &KnownPeers, active: &ActivePeers) -> (r: Vec<PeerInfo>)
    ensures
        r@.map_values(|pi: PeerInfo| pi@) == dials_spec(known@, active.conns()),
{
    let infos = known.infos();
    let mut r: Vec<PeerInfo> = Vec::new();
    let mut k: usize = 0;
    while k < infos.len()
        invariant
            k <= known@.len(),
            infos@ == known@,
            r@.map_values(|pi: PeerInfo| pi@) == dials_spec(
                known@.subrange(0, k as int),
                active.conns(),
            ),
        decreases known@.len() - k,
    {
        let info = &infos[k];
        let high = matches!(info.affinity, PeerAffinity::High);
        let existing = active.get(&info.peer_id);
        proof {
            lemma_find_has(active.conns(), info.peer_id);
        }
        if high && existing.is_none() {
            r.push(info.clone());
        }
        proof {
            let sub1 = known@.subrange(0, k as int + 1);
            assert(sub1.drop_last() =~= known@.subrange(0, k as int));
            assert(sub1.last() == known@[k as int]);
            if needs_dial(active.conns(), known@[k as int]@) {
                assert(r@.map_values(|pi: PeerInfo| pi@) =~= dials_spec(
                    known@.subrange(0, k as int),
                    active.conns(),
                ) + seq![known@[k as int]@]);
            } else {
                assert(r@.map_values(|pi: PeerInfo| pi@) =~= dials_spec(
                    known@.subrange(0, k as int),
                    active.conns(),
                ));
            }
        }
        k += 1;
    }
    proof {
        assert(known@.subrange(0, known@.len() as int) =~= known@);
    }
    r
}

/// React to a transport-detected loss of session `session` to `peer_id`:
/// remove the connection and publish `LostPeer(_, ConnectionLost)` — unless
/// the peer was already removed, or that session was already replaced by a
/// newer connection, in which case the stale notice changes nothing.
pub fn handle_connection_lost(active: &mut ActivePeers, peer_id: &PeerId, session: u64) -> (r:
    Option<Connection>)
    requires
        old(active).wf(),
    ensures
        final(active).wf(),
        final(active).sub_count() == old(active).sub_count(),
        match find_key(old(active).conns(), *peer_id) {
            Some(ex) => if ex.session == session {
                r == Some(ex) && !has_key(final(active).conns(), *peer_id) && (forall|p: PeerId|
                    p != *peer_id ==> find_key(final(active).conns(), p) == find_key(
                        old(active).conns(),
                        p,
                    )) && published(
                    *old(active),
                    *final(active),
                    PeerEvent::LostPeer(*peer_id, DisconnectReason::ConnectionLost),
                )
            } else {
                r == None::<Connection> && final(active).conns() == old(active).conns()
                    && subs_unchanged(*old(active), *final(active))
            },
            None => r == None::<Connection> && final(active).conns() == old(active).conns()
                && subs_unchanged(*old(active), *final(active)),
        },
{
    match active.get(peer_id) {
        Some(c) => {
            if c.session == session {
                active.remove(peer_id, DisconnectReason::ConnectionLost)
            } else {
                None
            }
        },
        None => None,
    }
}

/// Resolve the target of an `rpc` call: the live connection to `peer_id`, or
/// the `NotConnected` error surfaced to that caller alone. Success is owed
/// exactly when the peer is live.
pub fn rpc_target(active: &ActivePeers, peer_id: &PeerId) -> (r: Result<
    Connection,
    NetworkError,
>)
    ensures
        match r {
            Ok(c) => find_key(active.conns(), *peer_id) == Some(c),
            Err(e) => e == NetworkError::NotConnected(*peer_id) && !has_key(
                active.conns(),
                *peer_id,
            ),
        },
{
    match active.get(peer_id) {
        Some(c) => Ok(c),
        None => {
            proof {
                lemma_find_has(active.conns(), *peer_id);
            }
            Err(NetworkError::NotConnected(*peer_id))
        },
    }
}

} // verus!
