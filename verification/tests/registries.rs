use peernet::active_peers::{ActivePeers, InsertOutcome};
use peernet::ids::PeerId;
use peernet::known_peers::KnownPeers;
use peernet::types::{
    Address, Connection, ConnectionOrigin, DisconnectReason, PeerAffinity, PeerEvent, PeerInfo,
};

fn pid(lo: u128) -> PeerId {
    PeerId { hi: 0, lo }
}

fn addr(port: u16) -> Address {
    Address { ip: 1, port }
}

fn info(lo: u128, affinity: PeerAffinity, port: u16) -> PeerInfo {
    PeerInfo { peer_id: pid(lo), affinity, address: vec![addr(port)] }
}

#[test]
fn known_peers_insert_get_remove() {
    let mut kp = KnownPeers::new();
    assert_eq!(kp.len(), 0);
    assert!(kp.get(&pid(7)).is_none());

    assert!(kp.insert(info(7, PeerAffinity::High, 1000)).is_none());
    assert_eq!(kp.len(), 1);
    let got = kp.get(&pid(7)).unwrap();
    assert_eq!(got.peer_id, pid(7));
    assert_eq!(got.affinity, PeerAffinity::High);
    assert_eq!(got.address, vec![addr(1000)]);

    let removed = kp.remove(&pid(7)).unwrap();
    assert_eq!(removed.peer_id, pid(7));
    assert_eq!(kp.len(), 0);
    assert!(kp.get(&pid(7)).is_none());
}

#[test]
fn known_peers_insert_is_upsert() {
    let mut kp = KnownPeers::new();
    assert!(kp.insert(info(7, PeerAffinity::Low, 1000)).is_none());
    let prev = kp.insert(info(7, PeerAffinity::High, 2000)).unwrap();
    assert_eq!(prev.affinity, PeerAffinity::Low);
    assert_eq!(prev.address, vec![addr(1000)]);
    assert_eq!(kp.len(), 1);
    let got = kp.get(&pid(7)).unwrap();
    assert_eq!(got.affinity, PeerAffinity::High);
    assert_eq!(got.address, vec![addr(2000)]);
}

#[test]
fn known_peers_remove_absent_is_none() {
    let mut kp = KnownPeers::new();
    kp.insert(info(1, PeerAffinity::High, 1000));
    assert!(kp.remove(&pid(2)).is_none());
    assert_eq!(kp.len(), 1);
}

#[test]
fn active_peers_insert_and_get() {
    let me = pid(1);
    let mut ap = ActivePeers::new();
    assert!(ap.peers().is_empty());
    let c = Connection { peer_id: pid(9), origin: ConnectionOrigin::Outbound, session: 1 };
    assert_eq!(ap.insert(me, c), InsertOutcome::Added);
    assert_eq!(ap.get(&pid(9)), Some(c));
    assert_eq!(ap.peers(), vec![pid(9)]);
    assert!(ap.get(&pid(8)).is_none());
}

#[test]
fn active_peers_one_connection_per_peer() {
    // The invariant behind the tie-break: offering a second connection to a
    // peer never yields a second entry, whichever side wins.
    let me = pid(1);
    let mut ap = ActivePeers::new();
    let c1 = Connection { peer_id: pid(9), origin: ConnectionOrigin::Outbound, session: 1 };
    let c2 = Connection { peer_id: pid(9), origin: ConnectionOrigin::Inbound, session: 2 };
    ap.insert(me, c1);
    ap.insert(me, c2);
    assert_eq!(ap.peers().len(), 1);
    let c3 = Connection { peer_id: pid(9), origin: ConnectionOrigin::Outbound, session: 3 };
    ap.insert(me, c3);
    assert_eq!(ap.peers().len(), 1);
}

#[test]
fn active_peers_remove_publishes_once() {
    let me = pid(1);
    let mut ap = ActivePeers::new();
    let sub = ap.subscribe();
    let c = Connection { peer_id: pid(9), origin: ConnectionOrigin::Inbound, session: 4 };
    ap.insert(me, c);
    assert_eq!(ap.recv(sub), Some(PeerEvent::NewPeer(pid(9))));
    assert_eq!(ap.recv(sub), None);

    assert_eq!(ap.remove(&pid(9), DisconnectReason::Requested), Some(c));
    assert_eq!(
        ap.recv(sub),
        Some(PeerEvent::LostPeer(pid(9), DisconnectReason::Requested))
    );
    assert_eq!(ap.recv(sub), None);
}

#[test]
fn active_peers_remove_absent_is_noop() {
    // Removing an absent peer: no event, no error, no change.
    let me = pid(1);
    let mut ap = ActivePeers::new();
    let sub = ap.subscribe();
    let c = Connection { peer_id: pid(9), origin: ConnectionOrigin::Inbound, session: 4 };
    ap.insert(me, c);
    assert_eq!(ap.recv(sub), Some(PeerEvent::NewPeer(pid(9))));

    assert_eq!(ap.remove(&pid(5), DisconnectReason::Requested), None);
    assert_eq!(ap.recv(sub), None);
    assert_eq!(ap.peers(), vec![pid(9)]);

    // A second removal of a peer already gone is equally silent.
    ap.remove(&pid(9), DisconnectReason::Requested);
    assert_eq!(
        ap.recv(sub),
        Some(PeerEvent::LostPeer(pid(9), DisconnectReason::Requested))
    );
    assert_eq!(ap.remove(&pid(9), DisconnectReason::Requested), None);
    assert_eq!(ap.recv(sub), None);
}

#[test]
fn late_subscriber_sees_no_past_events() {
    let me = pid(1);
    let mut ap = ActivePeers::new();
    let early = ap.subscribe();
    let c = Connection { peer_id: pid(9), origin: ConnectionOrigin::Inbound, session: 4 };
    ap.insert(me, c);

    let late = ap.subscribe();
    assert_eq!(ap.recv(late), None);
    assert_eq!(ap.recv(early), Some(PeerEvent::NewPeer(pid(9))));

    // From its subscription onward the late subscriber sees every event.
    ap.remove(&pid(9), DisconnectReason::Requested);
    assert_eq!(
        ap.recv(late),
        Some(PeerEvent::LostPeer(pid(9), DisconnectReason::Requested))
    );
    assert_eq!(
        ap.recv(early),
        Some(PeerEvent::LostPeer(pid(9), DisconnectReason::Requested))
    );
}

#[test]
fn duplicate_resolution_publishes_no_event() {
    let me = pid(1);
    let mut ap = ActivePeers::new();
    let c1 = Connection { peer_id: pid(9), origin: ConnectionOrigin::Outbound, session: 1 };
    ap.insert(me, c1);
    let sub = ap.subscribe();
    let c2 = Connection { peer_id: pid(9), origin: ConnectionOrigin::Inbound, session: 2 };
    ap.insert(me, c2);
    // Membership did not change, so no subscriber hears anything.
    assert_eq!(ap.recv(sub), None);
}
