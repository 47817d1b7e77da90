use vstd::prelude::*;

use crate::ids::PeerId;

verus! {

/// A reachable network address: the IP as a 128-bit value (a v4 address is
/// carried in its mapped form) and the port. The registries only store and
/// hand these out; the process that owns the transport dials them.
#[derive(Clone, Copy, PartialEq, Eq, Structural, Hash, Debug)]
pub struct Address {
    pub ip: u128,
    pub port: u16,
}

/// How aggressively the connection manager keeps a known peer connected.
/// `High` means dial and persistently re-dial whenever no live connection
/// exists; `Low` means connect opportunistically and do not retry after loss.
#[derive(Clone, Copy, PartialEq, Eq, Structural, Debug)]
pub enum PeerAffinity {
    High,
    Low,
}

/// Why a live connection was removed. `Requested` is an explicit local
/// disconnect; `ConnectionLost` is a transport-detected failure or timeout.
#[derive(Clone, Copy, PartialEq, Eq, Structural, Debug)]
pub enum DisconnectReason {
    Requested,
    ConnectionLost,
}

/// A membership change of the live-connection registry, published once per
/// state transition to every subscriber registered at that moment.
#[derive(Clone, Copy, PartialEq, Eq, Structural, Debug)]
pub enum PeerEvent {
    NewPeer(PeerId),
    LostPeer(PeerId, DisconnectReason),
}

/// Which side initiated a connection. The tie-break between duplicate
/// connections to one peer is decided by origin.
#[derive(Clone, Copy, PartialEq, Eq, Structural, Debug)]
pub enum ConnectionOrigin {
    Inbound,
    Outbound,
}

/// A live authenticated transport session to exactly one peer. The `session`
/// number identifies the underlying transport connection, so that a loss
/// notice for an already-replaced session is recognised as stale.
#[derive(Clone, Copy, PartialEq, Eq, Structural, Debug)]
pub struct Connection {
    pub peer_id: PeerId,
    pub origin: ConnectionOrigin,
    pub session: u64,
}

/// A desired peer: its identity, the connection policy for it, and the
/// addresses to try in order when dialing it.
pub struct PeerInfo {
    pub peer_id: PeerId,
    pub affinity: PeerAffinity,
    pub address: Vec<Address>,
}

/// The mathematical value of a `PeerInfo`: the same fields with the address
/// list as a sequence.
pub struct PeerInfoView {
    pub peer_id: PeerId,
    pub affinity: PeerAffinity,
    pub address: Seq<Address>,
}

impl View for PeerInfo {
    type V = PeerInfoView;

    open spec fn view(&self) -> PeerInfoView {
        PeerInfoView { peer_id: self.peer_id, affinity: self.affinity, address: self.address@ }
    }
}

impl Clone for PeerInfo {
    fn clone(&self) -> (r: Self)
        ensures
            r@ == self@,
    {
        PeerInfo {
            peer_id: self.peer_id,
            affinity: self.affinity,
            address: clone_addresses(&self.address),
        }
    }
}

fn clone_addresses(v: &Vec<Address>) -> (r: Vec<Address>)
    ensures
        r@ == v@,
{
    let mut r: Vec<Address> = Vec::new();
    let mut k: usize = 0;
    while k < v.len()
        invariant
            k <= v.len(),
            r@ == v@.subrange(0, k as int),
        decreases v.len() - k,
    {
        r.push(v[k]);
        proof {
            assert(r@ =~= v@.subrange(0, k as int + 1));
        }
        k += 1;
    }
    proof {
        assert(r@ =~= v@);
    }
    r
}

/// The error taxonomy of the library. A failure is surfaced to the caller it
/// concerns and never crosses to unrelated streams or peers.
#[derive(Clone, Copy, PartialEq, Eq, Structural, Debug)]
pub enum NetworkError {
    /// The request's target has no live connection.
    NotConnected(PeerId),
    /// An address was unreachable or the handshake failed or timed out.
    DialFailed,
    /// The connection failed mid-session or hit its idle timeout.
    ConnectionLost,
    /// A received frame was not a well-formed request or response.
    MalformedFrame,
    /// The remote application handler reported a failure for this request.
    HandlerError,
}

} // verus!
