use vstd::prelude::*;

verus! {

/// Stable identity of a node, derived from its cryptographic identity by the
/// transport layer. It is held here as a 256-bit value in two halves; the
/// library only relies on it being comparable and totally ordered (the order
/// decides tie-breaks between duplicate connections).
#[derive(Clone, Copy, PartialEq, Eq, Structural, Hash, Debug)]
pub struct PeerId {
    pub hi: u128,
    pub lo: u128,
}

/// The strict order on peer identities: by the high half, then the low half.
pub open spec fn id_lt(a: PeerId, b: PeerId) -> bool {
    a.hi < b.hi || (a.hi == b.hi && a.lo < b.lo)
}

impl PeerId {
    /// Whether this identity is strictly lower than `other`.
    pub fn lt(&self, other: &PeerId) -> (r: bool)
        ensures
            r == id_lt(*self, *other),
    {
        self.hi < other.hi || (self.hi == other.hi && self.lo < other.lo)
    }
}

/// The order on peer identities is a strict total order: it is irreflexive,
/// and of two distinct identities exactly one is the lower.
pub proof fn lemma_id_order_total(a: PeerId, b: PeerId)
    ensures
        !id_lt(a, a),
        a != b ==> (id_lt(a, b) <==> !id_lt(b, a)),
{
}

} // verus!
