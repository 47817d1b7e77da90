//! End-to-end connection flows, replayed on the library's core: the tests
//! play the role of the transport (delivering dialed and accepted
//! connections, stream bytes and loss notices) while every decision and every
//! byte of framing goes through the library.

use peernet::active_peers::ActivePeers;
use peernet::connection_manager::{dials_needed, handle_connection_lost, rpc_target};
use peernet::ids::PeerId;
use peernet::known_peers::KnownPeers;
use peernet::types::{
    Address, Connection, ConnectionOrigin, DisconnectReason, NetworkError, PeerAffinity,
    PeerEvent, PeerInfo,
};
use peernet::wire::{decode_response, deframe, encode_response_ok, frame};

fn pid(lo: u128) -> PeerId {
    PeerId { hi: 0, lo }
}

/// The remote side of one RPC exchange: deframe the request, run the echo
/// handler, frame its reply.
fn echo_dispatch(wire_request: &Vec<u8>) -> Vec<u8> {
    let request = deframe(wire_request).expect("well-formed request frame");
    encode_response_ok(&request)
}

/// One full RPC exchange against an echoing remote.
fn rpc_echo(active: &ActivePeers, peer: &PeerId, payload: &[u8]) -> Result<Vec<u8>, NetworkError> {
    let _connection = rpc_target(active, peer)?;
    let wire_request = frame(&payload.to_vec());
    let wire_response = echo_dispatch(&wire_request);
    decode_response(&wire_response)
}

#[test]
fn rpc_round_trips_in_both_directions() {
    let id1 = pid(1);
    let id2 = pid(2);
    let mut ap1 = ActivePeers::new();
    let mut ap2 = ActivePeers::new();

    // Node 1 dials node 2; node 2 accepts the same transport session.
    ap1.insert(id1, Connection { peer_id: id2, origin: ConnectionOrigin::Outbound, session: 1 });
    ap2.insert(id2, Connection { peer_id: id1, origin: ConnectionOrigin::Inbound, session: 1 });

    let msg = b"The Way of Kings";
    let response = rpc_echo(&ap1, &id2, msg).unwrap();
    assert_eq!(response, msg.to_vec());

    let msg = b"Words of Radiance";
    let response = rpc_echo(&ap2, &id1, msg).unwrap();
    assert_eq!(response, msg.to_vec());
}

#[test]
fn reconciliation_dials_high_affinity_absent_peers() {
    let mut kp = KnownPeers::new();
    let ap = ActivePeers::new();

    kp.insert(PeerInfo {
        peer_id: pid(2),
        affinity: PeerAffinity::High,
        address: vec![Address { ip: 2, port: 2000 }],
    });
    kp.insert(PeerInfo {
        peer_id: pid(3),
        affinity: PeerAffinity::Low,
        address: vec![Address { ip: 3, port: 3000 }],
    });
    kp.insert(PeerInfo {
        peer_id: pid(4),
        affinity: PeerAffinity::High,
        address: vec![Address { ip: 4, port: 4000 }],
    });

    // Low-affinity peers are never dialed proactively.
    let dials = dials_needed(&kp, &ap);
    let ids: Vec<PeerId> = dials.iter().map(|pi| pi.peer_id).collect();
    assert_eq!(ids, vec![pid(2), pid(4)]);
    assert_eq!(dials[0].address, vec![Address { ip: 2, port: 2000 }]);

    // A live connection satisfies the desired entry: nothing left to dial.
    let mut ap = ap;
    ap.insert(pid(1), Connection { peer_id: pid(2), origin: ConnectionOrigin::Outbound, session: 1 });
    let dials = dials_needed(&kp, &ap);
    let ids: Vec<PeerId> = dials.iter().map(|pi| pi.peer_id).collect();
    assert_eq!(ids, vec![pid(4)]);
}

#[test]
fn connectivity_converges_and_tears_down() {
    // Node 1 learns of node 2 (affinity High) without node 2 knowing node 1.
    let id1 = pid(1);
    let id2 = pid(2);

    let mut kp1 = KnownPeers::new();
    let mut ap1 = ActivePeers::new();
    let mut ap2 = ActivePeers::new();
    let sub1 = ap1.subscribe();
    let sub2 = ap2.subscribe();

    kp1.insert(PeerInfo {
        peer_id: id2,
        affinity: PeerAffinity::High,
        address: vec![Address { ip: 2, port: 2000 }],
    });

    // Reconciliation on node 1 finds the missing peer and dials it; the
    // transport completes the handshake and both sides install the session.
    let dials = dials_needed(&kp1, &ap1);
    assert_eq!(dials.len(), 1);
    assert_eq!(dials[0].peer_id, id2);
    let session = 7u64;
    ap1.insert(id1, Connection { peer_id: id2, origin: ConnectionOrigin::Outbound, session });
    ap2.insert(id2, Connection { peer_id: id1, origin: ConnectionOrigin::Inbound, session });

    // Both registries converged and each published the other's arrival.
    assert_eq!(ap1.recv(sub1), Some(PeerEvent::NewPeer(id2)));
    assert_eq!(ap2.recv(sub2), Some(PeerEvent::NewPeer(id1)));
    assert!(dials_needed(&kp1, &ap1).is_empty());

    // Node 1 forgets the peer and explicitly disconnects; node 2 sees the
    // transport drop.
    kp1.remove(&id2).unwrap();
    ap1.remove(&id2, DisconnectReason::Requested);
    let lost = handle_connection_lost(&mut ap2, &id1, session);
    assert!(lost.is_some());

    assert_eq!(
        ap1.recv(sub1),
        Some(PeerEvent::LostPeer(id2, DisconnectReason::Requested))
    );
    assert_eq!(
        ap2.recv(sub2),
        Some(PeerEvent::LostPeer(id1, DisconnectReason::ConnectionLost))
    );
    // Nothing to redial: the desired entry is gone too.
    assert!(dials_needed(&kp1, &ap1).is_empty());
}

#[test]
fn lost_connection_fails_later_rpc_calls() {
    let id1 = pid(1);
    let id2 = pid(2);
    let mut ap1 = ActivePeers::new();
    let session = 3u64;
    ap1.insert(id1, Connection { peer_id: id2, origin: ConnectionOrigin::Outbound, session });

    let msg = b"The Way of Kings";
    assert_eq!(rpc_echo(&ap1, &id2, msg).unwrap(), msg.to_vec());

    // The remote endpoint closes; the idle timeout surfaces as a loss.
    let lost = handle_connection_lost(&mut ap1, &id2, session);
    assert_eq!(lost.map(|c| c.session), Some(session));

    // Any further call on that peer fails instead of hanging.
    assert_eq!(
        rpc_echo(&ap1, &id2, msg),
        Err(NetworkError::NotConnected(id2))
    );

    // A stale loss notice for the already-removed session changes nothing.
    assert_eq!(handle_connection_lost(&mut ap1, &id2, session), None);
}

#[test]
fn stale_loss_notice_spares_replacement_session() {
    // The dispatch loop of a displaced connection reports its termination
    // after the tie-break already installed a replacement: the replacement
    // must survive the notice.
    let id1 = pid(1);
    let id9 = pid(9);
    let mut ap = ActivePeers::new();
    let first = Connection { peer_id: id9, origin: ConnectionOrigin::Inbound, session: 1 };
    let replacement = Connection { peer_id: id9, origin: ConnectionOrigin::Outbound, session: 2 };
    ap.insert(id1, first);
    ap.insert(id1, replacement);
    assert_eq!(ap.get(&id9), Some(replacement));

    assert_eq!(handle_connection_lost(&mut ap, &id9, first.session), None);
    assert_eq!(ap.get(&id9), Some(replacement));

    assert!(handle_connection_lost(&mut ap, &id9, replacement.session).is_some());
    assert_eq!(ap.get(&id9), None);
}
