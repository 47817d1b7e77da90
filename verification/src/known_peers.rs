use vstd::prelude::*;

use crate::ids::PeerId;
use crate::registry::{find_key, has_key, keys_unique, lemma_find_at, lemma_find_has,
    lemma_find_none, lemma_find_push, lemma_find_remove, lemma_find_update_same, Keyed};
use crate::types::PeerInfo;

verus! {

impl Keyed for PeerInfo {
    open spec fn key(&self) -> PeerId {
        self.peer_id
    }
}

/// The desired-state registry: the peers this node intends to be connected
/// to, with the metadata guiding connection policy. Entries are created,
/// replaced and removed only by explicit calls of the owning process; the
/// connection manager reads it when reconciling. Removing an entry does not
/// by itself tear down a live connection.
pub struct KnownPeers {
    entries: Vec<PeerInfo>,
}

impl View for KnownPeers {
    type V = Seq<PeerInfo>;

    closed spec fn view(&self) -> Seq<PeerInfo> {
        self.entries@
    }
}

impl KnownPeers {
    /// At most one entry per peer identity.
    pub open spec fn wf(&self) -> bool {
        keys_unique(self@)
    }

    /// An empty registry.
    pub fn new() -> (r: KnownPeers)
        ensures
            r@ == Seq::<PeerInfo>::empty(),
            r.wf(),
    {
        KnownPeers { entries: Vec::new() }
    }

    /// The index of the entry stored under `peer_id`, if any.
    fn index_of(&self, peer_id: &PeerId) -> (r: Option<usize>)
        ensures
            match r {
                Some(i) => i < self@.len() && self@[i as int].peer_id == *peer_id && forall|j: int|
                    0 <= j < i ==> self@[j].peer_id != *peer_id,
                None => !has_key(self@, *peer_id),
            },
    {
        let mut k: usize = 0;
        while k < self.entries.len()
            invariant
                k <= self.entries.len(),
                forall|j: int| 0 <= j < k ==> self@[j].peer_id != *peer_id,
            decreases self.entries.len() - k,
        {
            if self.entries[k].peer_id == *peer_id {
                return Some(k);
            }
            k += 1;
        }
        None
    }

    /// Insert or replace: after the call the registry holds exactly `info`
    /// under its peer identity, every other entry is untouched, and the entry
    /// previously stored under that identity (if any) is returned.
    pub fn insert(&mut self, info: PeerInfo) -> (prev: Option<PeerInfo>)
        requires
            old(self).wf(),
        ensures
            final(self).wf(),
            find_key(final(self)@, info.peer_id) == Some(info),
            has_key(final(self)@, info.peer_id),
            forall|p: PeerId| p != info.peer_id ==> find_key(final(self)@, p) == find_key(
                old(self)@,
                p,
            ),
            match prev {
                Some(e) => find_key(old(self)@, info.peer_id) == Some(e) && final(self)@.len()
                    == old(self)@.len(),
                None => !has_key(old(self)@, info.peer_id) && final(self)@.len() == old(
                    self,
                )@.len() + 1,
            },
    {
        let ghost s0 = self@;
        match self.index_of(&info.peer_id) {
            Some(i) => {
                proof {
                    lemma_find_at(s0, info.peer_id, i as int);
                    lemma_find_update_same(s0, i as int, info);
                }
                let prev = self.entries.remove(i);
                self.entries.insert(i, info);
                proof {
                    assert(self@ =~= s0.update(i as int, info));
                    lemma_find_has(self@, info.peer_id);
                }
                Some(prev)
            },
            None => {
                proof {
                    lemma_find_push(s0, info);
                }
                self.entries.push(info);
                proof {
                    lemma_find_has(self@, info.peer_id);
                }
                None
            },
        }
    }

    /// Remove the entry stored under `peer_id` and return it; on an absent
    /// identity the registry is unchanged and nothing is returned.
    pub fn remove(&mut self, peer_id: &PeerId) -> (r: Option<PeerInfo>)
        requires
            old(self).wf(),
        ensures
            final(self).wf(),
            !has_key(final(self)@, *peer_id),
            forall|p: PeerId| p != *peer_id ==> find_key(final(self)@, p) == find_key(
                old(self)@,
                p,
            ),
            match r {
                Some(e) => find_key(old(self)@, *peer_id) == Some(e) && final(self)@.len() == old(
                    self,
                )@.len() - 1,
                None => !has_key(old(self)@, *peer_id) && final(self)@ == old(self)@,
            },
    {
        let ghost s0 = self@;
        match self.index_of(peer_id) {
            Some(i) => {
                proof {
                    lemma_find_at(s0, *peer_id, i as int);
                    lemma_find_remove(s0, i as int);
                }
                let e = self.entries.remove(i);
                proof {
                    lemma_find_has(self@, *peer_id);
                }
                Some(e)
            },
            None => {
                proof {
                    lemma_find_none(s0, *peer_id);
                }
                None
            },
        }
    }

    /// The entry stored under `peer_id`, if any.
    pub fn get(&self, peer_id: &PeerId) -> (r: Option<&PeerInfo>)
        ensures
            match r {
                Some(e) => find_key(self@, *peer_id) == Some(*e),
                None => !has_key(self@, *peer_id),
            },
    {
        match self.index_of(peer_id) {
            Some(i) => {
                proof {
                    lemma_find_at(self@, *peer_id, i as int);
                }
                Some(&self.entries[i])
            },
            None => {
                proof {
                    lemma_find_none(self@, *peer_id);
                }
                None
            },
        }
    }

    /// All entries, in storage order.
    pub fn infos(&self) -> (r: &Vec<PeerInfo>)
        ensures
            r@ == self@,
    {
        &self.entries
    }

    /// How many peers are desired.
    pub fn len(&self) -> (n: usize)
        ensures
            n == self@.len(),
    {
        self.entries.len()
    }
}

} // verus!
