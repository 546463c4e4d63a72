//! The identities that a segment already has a row for.

use std::collections::HashMap;
use vstd::prelude::*;

verus! {

broadcast use vstd::std_specs::hash::group_hash_axioms;

/// An identity at some hour: the peer, the digest of the identity, the hour.
pub ghost struct IdentityKey {
    pub peer: Seq<u8>,
    pub digest: Seq<u8>,
    pub hour: int,
}

/// An [`IdentityKey`] that is kept.
#[derive(Debug)]
pub struct SeenIdentity {
    pub peer: [u8; 16],
    pub digest: [u8; 32],
    pub hour: i64,
}

impl View for SeenIdentity {
    type V = IdentityKey;

    open spec fn view(&self) -> IdentityKey {
        IdentityKey { peer: self.peer@, digest: self.digest@, hour: self.hour as int }
    }
}

/// A set of identities. They are kept in buckets by the start of the peer.
#[derive(Debug)]
pub struct Seen {
    pub buckets: HashMap<u64, Vec<SeenIdentity>>,
    pub count: usize,
}

/// The bucket that a peer belongs to.
pub open spec fn bucket_of(peer: Seq<u8>) -> u64 {
    (peer[0] * 0x100_0000 + peer[1] * 0x1_0000 + peer[2] * 0x100 + peer[3]) as u64
}

/// Whether an identity is in a list.
pub open spec fn listed(list: Seq<SeenIdentity>, key: IdentityKey) -> bool {
    exists|i: int| 0 <= i < list.len() && (#[trigger] list[i])@ == key
}

proof fn listed_pushed(list: Seq<SeenIdentity>, entry: SeenIdentity, key: IdentityKey)
    ensures
        listed(list.push(entry), key) <==> listed(list, key) || entry@ == key,
{
    let all = list.push(entry);
    if listed(list, key) {
        let i = choose|i: int| 0 <= i < list.len() && (#[trigger] list[i])@ == key;
        assert(all[i]@ == key);
    }
    if entry@ == key {
        assert(all[list.len() as int]@ == key);
    }
    if listed(all, key) {
        let i = choose|i: int| 0 <= i < all.len() && (#[trigger] all[i])@ == key;
        if i < list.len() {
            assert(list[i]@ == key);
        }
    }
}

impl Seen {
    /// Whether an identity is in the set.
    pub open spec fn holds(self, key: IdentityKey) -> bool {
        self.buckets@.contains_key(bucket_of(key.peer)) && listed(
            self.buckets@[bucket_of(key.peer)]@,
            key,
        )
    }

    /// An empty set.
    pub fn new() -> (r: Seen)
        ensures
            r.count == 0,
            forall|key: IdentityKey| !r.holds(key),
    {
        Seen { buckets: HashMap::new(), count: 0 }
    }

    /// Takes every identity out.
    pub fn clear(&mut self)
        ensures
            final(self).count == 0,
            forall|key: IdentityKey| !final(self).holds(key),
    {
        self.buckets.clear();
        self.count = 0;
    }

    /// Puts an identity in. Says whether it was not there.
    pub fn insert(&mut self, peer: [u8; 16], digest: [u8; 32], hour: i64) -> (r: bool)
        requires
            old(self).count < usize::MAX,
        ensures
            r == !old(self).holds(
                (IdentityKey { peer: peer@, digest: digest@, hour: hour as int }),
            ),
            forall|key: IdentityKey| #[trigger]
                final(self).holds(key) <==> old(self).holds(key) || key == (IdentityKey {
                    peer: peer@,
                    digest: digest@,
                    hour: hour as int,
                }),
            final(self).count == old(self).count + (if r {
                1int
            } else {
                0
            }),
    {
        let ghost key = IdentityKey { peer: peer@, digest: digest@, hour: hour as int };
        let bucket: u64 = peer[0] as u64 * 0x100_0000 + peer[1] as u64 * 0x1_0000 + peer[2] as u64
            * 0x100 + peer[3] as u64;
        assert(bucket == bucket_of(peer@));
        let mut list = match self.buckets.remove(&bucket) {
            Some(list) => list,
            None => Vec::new(),
        };
        let ghost before = list@;
        assert(self.buckets@ =~= old(self).buckets@.remove(bucket));
        assert(old(self).buckets@.contains_key(bucket) ==> before == old(self).buckets@[bucket]@);
        assert(!old(self).buckets@.contains_key(bucket) ==> before == Seq::<SeenIdentity>::empty());
        let mut found = false;
        let mut i: usize = 0;
        while i < list.len()
            invariant
                i <= list.len(),
                list@ == before,
                key == (IdentityKey { peer: peer@, digest: digest@, hour: hour as int }),
                found <==> exists|k: int| 0 <= k < i && (#[trigger] list@[k])@ == key,
            decreases list.len() - i,
        {
            let entry = &list[i];
            if entry.hour == hour && crate::wire::same_octets(
                entry.peer.as_slice(),
                peer.as_slice(),
            ) && crate::wire::same_octets(entry.digest.as_slice(), digest.as_slice()) {
                assert(list@[i as int]@ == key);
                found = true;
            }
            i += 1;
        }
        if !found {
            list.push(SeenIdentity { peer, digest, hour });
            assert(list@[before.len() as int]@ == key);
            self.count = self.count + 1;
        }
        let ghost after = list@;
        self.buckets.insert(bucket, list);
        proof {
            assert(self.buckets@ =~= old(self).buckets@.insert(bucket, list));
            assert(found <==> listed(before, key));
            assert forall|other: IdentityKey| #[trigger]
                self.holds(other) <==> old(self).holds(other) || other == key by {
                let b = bucket_of(other.peer);
                if b == bucket {
                    assert(self.buckets@[b]@ == after);
                    if !found {
                        listed_pushed(before, after.last(), other);
                        assert(before.push(after.last()) =~= after);
                    }
                } else {
                    assert(self.buckets@[b] == old(self).buckets@[b]);
                }
            }
        }
        !found
    }
}

} // verus!
