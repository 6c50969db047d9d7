//! An index from chunk hashes to block addresses.
use crate::bytes;
use std::collections::HashMap;
use vstd::prelude::*;

verus! {

/// A stored chunk.
struct Entry {
    hash: [u8; 32],
    blkaddr: u64,
    /// The entry before this one whose hash starts with the same eight bytes.
    prev: Option<usize>,
}

/// Maps 32-byte hashes to block addresses.
///
/// Entries whose hashes start with the same eight bytes form a chain, latest
/// entry first; `heads` holds the start of each chain.
pub struct DedupIndex {
    heads: HashMap<u64, usize>,
    entries: Vec<Entry>,
}

/// The first eight bytes of a hash, as an integer.
pub open spec fn hash_key(hash: Seq<u8>) -> u64 {
    bytes::get64(hash, 0)
}

impl DedupIndex {
    spec fn key(self, i: int) -> u64 {
        hash_key(self.entries@[i].hash@)
    }

    spec fn holds(self, i: int, hash: Seq<u8>) -> bool {
        &&& 0 <= i < self.entries@.len()
        &&& self.entries@[i].hash@ == hash
    }

    spec fn chained(self) -> bool {
        &&& forall|j: int|
            0 <= j < self.entries@.len() ==> match (#[trigger] self.entries@[j]).prev {
                Some(p) => p < j && self.key(p as int) == self.key(j),
                None => true,
            }
        &&& forall|i: int, j: int|
            #![trigger self.key(i), self.key(j)]
            0 <= i < j < self.entries@.len() && self.key(i) == self.key(j) ==> match self.entries@[j].prev {
                Some(p) => i <= p,
                None => false,
            }
    }

    spec fn headed(self) -> bool {
        &&& forall|k: u64|
            #[trigger] self.heads@.dom().contains(k) ==> self.heads@[k] < self.entries@.len()
                && self.key(self.heads@[k] as int) == k
        &&& forall|i: int|
            0 <= i < self.entries@.len() ==> self.heads@.dom().contains(#[trigger] self.key(i)) && i
                <= self.heads@[self.key(i)]
    }

    /// Chains are complete, and no hash occurs twice.
    pub closed spec fn wf(self) -> bool {
        &&& self.chained()
        &&& self.headed()
        &&& forall|i: int, j: int|
            #![trigger self.entries@[i], self.entries@[j]]
            0 <= i < j < self.entries@.len() ==> self.entries@[i].hash@ != self.entries@[j].hash@
    }
}

impl View for DedupIndex {
    type V = Map<Seq<u8>, u64>;

    closed spec fn view(&self) -> Map<Seq<u8>, u64> {
        Map::new(
            |hash: Seq<u8>| exists|i: int| self.holds(i, hash),
            |hash: Seq<u8>| self.entries@[choose|i: int| self.holds(i, hash)].blkaddr,
        )
    }
}

/// Compare two hashes.
fn same_hash(a: &[u8; 32], b: &[u8; 32]) -> (r: bool)
    ensures
        r == (a@ == b@),
{
    let mut i: usize = 0;
    while i < 32
        invariant
            i <= 32,
            forall|j: int| 0 <= j < i ==> a@[j] == b@[j],
        decreases 32 - i,
    {
        if a[i] != b[i] {
            assert(a@[i as int] != b@[i as int]);
            return false;
        }
        i += 1;
    }
    assert(a@ =~= b@);
    true
}

impl DedupIndex {
    /// An index without entries.
    pub fn new() -> (r: DedupIndex)
        ensures
            r.wf(),
            r@ == Map::<Seq<u8>, u64>::empty(),
    {
        let r = DedupIndex { heads: HashMap::new(), entries: Vec::new() };
        assert(r@ =~= Map::<Seq<u8>, u64>::empty());
        r
    }

    /// The address stored for `hash`.
    pub fn get(&self, hash: &[u8; 32]) -> (r: Option<u64>)
        requires
            self.wf(),
        ensures
            match r {
                Some(blkaddr) => self@.dom().contains(hash@) && self@[hash@] == blkaddr,
                None => !self@.dom().contains(hash@),
            },
    {
        broadcast use vstd::std_specs::hash::group_hash_axioms;

        let key: u64 = bytes::read_u64(hash, 0);
        let mut cursor: Option<usize> = match self.heads.get(&key) {
            Some(head) => Some(*head),
            None => None,
        };
        assert(forall|i: int| 0 <= i < self.entries@.len() && self.key(i) == key ==> {
            &&& cursor is Some
            &&& i <= cursor->0
        });
        while cursor.is_some()
            invariant
                self.wf(),
                key == hash_key(hash@),
                cursor matches Some(c) ==> c < self.entries@.len() && self.key(c as int) == key,
                forall|i: int|
                    0 <= i < self.entries@.len() && self.key(i) == key
                        && self.entries@[i].hash@ == hash@ ==> cursor is Some && i <= cursor->0,
            decreases
                    (match cursor {
                        Some(c) => c + 1,
                        None => 0,
                    }),
        {
            let at: usize = cursor.unwrap();
            let entry = &self.entries[at];
            if same_hash(&entry.hash, hash) {
                proof {
                    assert(self.holds(at as int, hash@));
                    let i = choose|i: int| self.holds(i, hash@);
                    assert(self.holds(i, hash@));
                    if i < at {
                        assert(self.entries@[i].hash@ != self.entries@[at as int].hash@);
                    } else if at < i {
                        assert(self.entries@[at as int].hash@ != self.entries@[i].hash@);
                    }
                    assert(i == at);
                }
                return Some(entry.blkaddr);
            }
            cursor = entry.prev;
            assert forall|i: int|
                0 <= i < self.entries@.len() && self.key(i) == key && self.entries@[i].hash@
                    == hash@ implies cursor is Some && i <= cursor->0 by {
                assert(i <= at);
                assert(i != at);
                assert(self.key(i) == self.key(at as int));
            }
        }
        proof {
            assert forall|i: int| !self.holds(i, hash@) by {
                if self.holds(i, hash@) {
                    assert(self.key(i) == key);
                }
            }
        }
        None
    }

    /// Store the address of a chunk with a hash that the index does not hold.
    pub fn insert(&mut self, hash: &[u8; 32], blkaddr: u64)
        requires
            old(self).wf(),
            !old(self)@.dom().contains(hash@),
        ensures
            final(self).wf(),
            final(self)@ == old(self)@.insert(hash@, blkaddr),
    {
        broadcast use vstd::std_specs::hash::group_hash_axioms;

        let key: u64 = bytes::read_u64(hash, 0);
        let prev: Option<usize> = match self.heads.get(&key) {
            Some(head) => Some(*head),
            None => None,
        };
        let at: usize = self.entries.len();
        self.entries.push(Entry { hash: *hash, blkaddr, prev });
        self.heads.insert(key, at);
        proof {
            let before = *old(self);
            assert(self.entries@.len() == before.entries@.len() + 1);
            assert(forall|i: int|
                0 <= i < before.entries@.len() ==> self.entries@[i] == before.entries@[i]);
            assert(forall|i: int|
                0 <= i < before.entries@.len() ==> #[trigger] self.key(i) == before.key(i));
            assert(self.key(at as int) == key);
            assert forall|i: int| 0 <= i < before.entries@.len() implies before.entries@[i].hash@
                != hash@ by {
                if before.entries@[i].hash@ == hash@ {
                    assert(before.holds(i, hash@));
                }
            }
            assert(self.chained());
            assert(self.headed());
            assert forall|h: Seq<u8>| #[trigger]
                self@.dom().contains(h) == before@.insert(hash@, blkaddr).dom().contains(h) by {
                if before@.dom().contains(h) {
                    let i = choose|i: int| before.holds(i, h);
                    assert(self.holds(i, h));
                }
                assert(self.holds(at as int, hash@));
                if self@.dom().contains(h) {
                    let i = choose|i: int| self.holds(i, h);
                    if i < at {
                        assert(before.holds(i, h));
                    }
                }
            }
            assert forall|h: Seq<u8>| self@.dom().contains(h) implies #[trigger] self@[h]
                == before@.insert(hash@, blkaddr)[h] by {
                let i = choose|i: int| self.holds(i, h);
                assert(self.holds(i, h));
                if h != hash@ {
                    assert(before.holds(i, h));
                    let j = choose|j: int| before.holds(j, h);
                    assert(before.holds(j, h));
                    if i < j {
                        assert(before.entries@[i].hash@ != before.entries@[j].hash@);
                    } else if j < i {
                        assert(before.entries@[j].hash@ != before.entries@[i].hash@);
                    }
                }
            }
            assert(self@ =~= before@.insert(hash@, blkaddr));
        }
    }
}

} // verus!
