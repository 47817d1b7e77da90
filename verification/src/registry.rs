use vstd::prelude::*;

use crate::ids::PeerId;

verus! {

/// An entry of a registry keyed by peer identity.
pub trait Keyed {
    /// The peer identity this entry is stored under.
    spec fn key(&self) -> PeerId;
}

/// No two entries share a key: the registry is a map in sequence clothing.
pub open spec fn keys_unique<T: Keyed>(s: Seq<T>) -> bool {
    forall|i: int, j: int| 0 <= i < j < s.len() ==> s[i].key() != s[j].key()
}

/// Whether some entry is stored under `id`.
pub open spec fn has_key<T: Keyed>(s: Seq<T>, id: PeerId) -> bool {
    exists|i: int| 0 <= i < s.len() && s[i].key() == id
}

/// The first entry stored under `id`, if any. With `keys_unique` it is the
/// only one.
pub open spec fn find_key<T: Keyed>(s: Seq<T>, id: PeerId) -> Option<T>
    decreases s.len(),
{
    if s.len() == 0 {
        None
    } else if s[0].key() == id {
        Some(s[0])
    } else {
        find_key(s.skip(1), id)
    }
}

/// `find_key` returns the entry at the first index whose key is `id`.
pub proof fn lemma_find_at<T: Keyed>(s: Seq<T>, id: PeerId, i: int)
    requires
        0 <= i < s.len(),
        s[i].key() == id,
        forall|j: int| 0 <= j < i ==> s[j].key() != id,
    ensures
        find_key(s, id) == Some(s[i]),
    decreases i,
{
    if i == 0 {
    } else {
        assert(s[0].key() != id);
        assert forall|j: int| 0 <= j < i - 1 implies s.skip(1)[j].key() != id by {
            assert(s.skip(1)[j] == s[j + 1]);
        }
        assert(s.skip(1)[i - 1] == s[i]);
        lemma_find_at(s.skip(1), id, i - 1);
    }
}

/// Where no entry has key `id`, `find_key` returns nothing.
pub proof fn lemma_find_none<T: Keyed>(s: Seq<T>, id: PeerId)
    requires
        forall|i: int| 0 <= i < s.len() ==> s[i].key() != id,
    ensures
        find_key(s, id) == None::<T>,
    decreases s.len(),
{
    if s.len() == 0 {
    } else {
        assert forall|j: int| 0 <= j < s.len() - 1 implies s.skip(1)[j].key() != id by {
            assert(s.skip(1)[j] == s[j + 1]);
        }
        lemma_find_none(s.skip(1), id);
    }
}

/// `find_key` decides membership, and what it finds is an entry of the
/// sequence stored under the key looked up.
pub proof fn lemma_find_has<T: Keyed>(s: Seq<T>, id: PeerId)
    ensures
        match find_key(s, id) {
            Some(e) => has_key(s, id) && e.key() == id && exists|i: int|
                0 <= i < s.len() && s[i] == e,
            None => !has_key(s, id),
        },
    decreases s.len(),
{
    if s.len() == 0 {
    } else if s[0].key() == id {
        assert(has_key(s, id)) by {
            assert(0 <= 0 < s.len() && s[0].key() == id);
        }
    } else {
        lemma_find_has(s.skip(1), id);
        match find_key(s.skip(1), id) {
            Some(e) => {
                let i = choose|i: int| 0 <= i < s.skip(1).len() && s.skip(1)[i] == e;
                assert(s[i + 1] == s.skip(1)[i]);
                let w = choose|i: int| 0 <= i < s.skip(1).len() && s.skip(1)[i].key() == id;
                assert(s[w + 1] == s.skip(1)[w]);
                assert(has_key(s, id));
            },
            None => {
                assert forall|i: int| 0 <= i < s.len() implies s[i].key() != id by {
                    if i > 0 {
                        assert(s.skip(1)[i - 1] == s[i]);
                        assert(!has_key(s.skip(1), id));
                        if s[i].key() == id {
                            assert(0 <= i - 1 < s.skip(1).len() && s.skip(1)[i - 1].key() == id);
                        }
                    }
                }
            },
        }
    }
}

/// Two sequences that agree everywhere an entry with key `p` could sit have
/// the same `find_key` result for `p`.
pub proof fn lemma_find_agree<T: Keyed>(s1: Seq<T>, s2: Seq<T>, p: PeerId)
    requires
        s1.len() == s2.len(),
        forall|i: int| 0 <= i < s1.len() ==> s1[i] == s2[i] || (s1[i].key() != p && s2[i].key()
            != p),
    ensures
        find_key(s1, p) == find_key(s2, p),
    decreases s1.len(),
{
    if s1.len() == 0 {
    } else {
        assert(s1[0] == s2[0] || (s1[0].key() != p && s2[0].key() != p));
        if s1[0] == s2[0] && s1[0].key() == p {
        } else {
            assert forall|i: int| 0 <= i < s1.skip(1).len() implies s1.skip(1)[i] == s2.skip(1)[i]
                || (s1.skip(1)[i].key() != p && s2.skip(1)[i].key() != p) by {
                assert(s1.skip(1)[i] == s1[i + 1]);
                assert(s2.skip(1)[i] == s2[i + 1]);
            }
            lemma_find_agree(s1.skip(1), s2.skip(1), p);
        }
    }
}

/// Replacing the entry at `i` by one with the same key keeps the keys unique,
/// stores the new entry under that key, and leaves every other key's lookup
/// unchanged.
pub proof fn lemma_find_update_same<T: Keyed>(s: Seq<T>, i: int, e: T)
    requires
        keys_unique(s),
        0 <= i < s.len(),
        e.key() == s[i].key(),
    ensures
        keys_unique(s.update(i, e)),
        find_key(s.update(i, e), e.key()) == Some(e),
        forall|p: PeerId| p != e.key() ==> find_key(s.update(i, e), p) == find_key(s, p),
{
    let t = s.update(i, e);
    assert(keys_unique(t)) by {
        assert forall|a: int, b: int| 0 <= a < b < t.len() implies t[a].key() != t[b].key() by {
            assert(s[a].key() != s[b].key());
        }
    }
    assert(find_key(t, e.key()) == Some(e)) by {
        assert forall|j: int| 0 <= j < i implies t[j].key() != e.key() by {
            assert(s[j].key() != s[i].key());
        }
        lemma_find_at(t, e.key(), i);
    }
    assert forall|p: PeerId| p != e.key() implies find_key(t, p) == find_key(s, p) by {
        assert forall|k: int| 0 <= k < s.len() implies s[k] == t[k] || (s[k].key() != p
            && t[k].key() != p) by {
            if k == i {
                assert(s[k].key() == e.key() && t[k].key() == e.key());
            }
        }
        lemma_find_agree(t, s, p);
    }
}

/// Appending an entry with a fresh key keeps the keys unique, stores the new
/// entry under its key, and leaves every other key's lookup unchanged.
pub proof fn lemma_find_push<T: Keyed>(s: Seq<T>, e: T)
    requires
        keys_unique(s),
        !has_key(s, e.key()),
    ensures
        keys_unique(s.push(e)),
        find_key(s.push(e), e.key()) == Some(e),
        forall|p: PeerId| p != e.key() ==> find_key(s.push(e), p) == find_key(s, p),
{
    let t = s.push(e);
    assert(keys_unique(t)) by {
        assert forall|a: int, b: int| 0 <= a < b < t.len() implies t[a].key() != t[b].key() by {
            if b == s.len() {
                assert(t[a] == s[a]);
                if s[a].key() == e.key() {
                    assert(has_key(s, e.key()));
                }
            } else {
                assert(s[a].key() != s[b].key());
            }
        }
    }
    assert(find_key(t, e.key()) == Some(e)) by {
        assert forall|j: int| 0 <= j < s.len() implies t[j].key() != e.key() by {
            if s[j].key() == e.key() {
                assert(has_key(s, e.key()));
            }
        }
        assert(t[s.len() as int] == e);
        lemma_find_at(t, e.key(), s.len() as int);
    }
    assert forall|p: PeerId| p != e.key() implies find_key(t, p) == find_key(s, p) by {
        lemma_find_push_other(s, e, p);
    }
}

/// Appending an entry does not change the lookup of any other key.
pub proof fn lemma_find_push_other<T: Keyed>(s: Seq<T>, e: T, p: PeerId)
    requires
        p != e.key(),
    ensures
        find_key(s.push(e), p) == find_key(s, p),
    decreases s.len(),
{
    let t = s.push(e);
    if s.len() == 0 {
        assert(t[0] == e);
        assert(t.skip(1) =~= Seq::<T>::empty());
        assert(find_key(t, p) == find_key(t.skip(1), p));
        assert(find_key(t.skip(1), p) == None::<T>);
        assert(find_key(s, p) == None::<T>);
    } else {
        assert(t[0] == s[0]);
        if s[0].key() == p {
        } else {
            assert(t.skip(1) =~= s.skip(1).push(e));
            lemma_find_push_other(s.skip(1), e, p);
        }
    }
}

/// Removing the entry at `i` keeps the keys unique, removes its key from the
/// registry, and leaves every other key's lookup unchanged.
pub proof fn lemma_find_remove<T: Keyed>(s: Seq<T>, i: int)
    requires
        keys_unique(s),
        0 <= i < s.len(),
    ensures
        keys_unique(s.remove(i)),
        find_key(s.remove(i), s[i].key()) == None::<T>,
        forall|p: PeerId| p != s[i].key() ==> find_key(s.remove(i), p) == find_key(s, p),
{
    let t = s.remove(i);
    assert(keys_unique(t)) by {
        assert forall|a: int, b: int| 0 <= a < b < t.len() implies t[a].key() != t[b].key() by {
            let a0 = if a < i { a } else { a + 1 };
            let b0 = if b < i { b } else { b + 1 };
            assert(t[a] == s[a0] && t[b] == s[b0]);
            assert(s[a0].key() != s[b0].key());
        }
    }
    assert(find_key(t, s[i].key()) == None::<T>) by {
        assert forall|j: int| 0 <= j < t.len() implies t[j].key() != s[i].key() by {
            let j0 = if j < i { j } else { j + 1 };
            assert(t[j] == s[j0]);
            assert(j0 != i);
            if j0 < i {
                assert(s[j0].key() != s[i].key());
            } else {
                assert(s[i].key() != s[j0].key());
            }
        }
        lemma_find_none(t, s[i].key());
    }
    assert forall|p: PeerId| p != s[i].key() implies find_key(t, p) == find_key(s, p) by {
        lemma_find_remove_other(s, i, p);
    }
}

/// Removing an entry of a different key does not change a key's lookup.
pub proof fn lemma_find_remove_other<T: Keyed>(s: Seq<T>, i: int, p: PeerId)
    requires
        0 <= i < s.len(),
        p != s[i].key(),
    ensures
        find_key(s.remove(i), p) == find_key(s, p),
    decreases s.len(),
{
    let t = s.remove(i);
    if i == 0 {
        assert(t =~= s.skip(1));
        assert(s[0].key() != p);
    } else {
        assert(t[0] == s[0]);
        if s[0].key() == p {
        } else {
            assert(t.skip(1) =~= s.skip(1).remove(i - 1));
            assert(s.skip(1)[i - 1] == s[i]);
            lemma_find_remove_other(s.skip(1), i - 1, p);
        }
    }
}

} // verus!
