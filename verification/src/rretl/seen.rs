//! The images seen so far in a run, each with the source it came from.

use vstd::prelude::*;
use std::collections::HashMap;
use crate::bytes::{copy_bytes, get_le, le_value, same_bytes};

verus! {

/// One remembered image and its source.
struct Image {
    key: Vec<u8>,
    source: Vec<u8>,
}

/// A map from 32-byte image keys to source bytes, in buckets by the key's
/// first eight bytes.
pub(crate) struct SeenImages {
    buckets: HashMap<u64, Vec<Image>>,
    count: usize,
    contents: Ghost<Map<Seq<u8>, Seq<u8>>>,
}

/// The bucket of a key.
spec fn bucket_of(key: Seq<u8>) -> u64 {
    le_value(key.subrange(0, 8)) as u64
}

/// Entry `i` of a bucket is the one for `key`.
spec fn is_entry(b: Seq<Image>, key: Seq<u8>, i: int) -> bool {
    0 <= i < b.len() && b[i].key@ == key
}

impl SeenImages {
    /// The remembered sources by image key.
    pub(crate) closed spec fn view(&self) -> Map<Seq<u8>, Seq<u8>> {
        self.contents@
    }

    /// A key is remembered exactly where its bucket has it, and the count is
    /// the number of keys.
    pub(crate) closed spec fn wf(&self) -> bool {
        &&& self.contents@.dom().finite()
        &&& self.count == self.contents@.dom().len()
        &&& forall|key: Seq<u8>| #[trigger] self.contents@.dom().contains(key) ==> key.len() == 32 && self.buckets@.dom().contains(
            bucket_of(key),
        ) && exists|i: int| #[trigger] is_entry(self.buckets@[bucket_of(key)]@, key, i)
        &&& forall|h: u64, i: int|
            self.buckets@.dom().contains(h) && 0 <= i < self.buckets@[h]@.len() ==> {
                let e = #[trigger] self.buckets@[h]@[i];
                &&& self.contents@.dom().contains(e.key@)
                &&& self.contents@[e.key@] == e.source@
            }
    }

    pub(crate) fn new() -> (s: SeenImages)
        ensures
            s.wf(),
            s.view() == Map::<Seq<u8>, Seq<u8>>::empty(),
    {
        broadcast use vstd::std_specs::hash::group_hash_axioms;

        let buckets: HashMap<u64, Vec<Image>> = HashMap::new();
        SeenImages { buckets, count: 0, contents: Ghost(Map::empty()) }
    }

    /// How many images are remembered.
    pub(crate) fn len(&self) -> (n: usize)
        requires
            self.wf(),
        ensures
            n == self.view().dom().len(),
    {
        self.count
    }

    /// Whether an image is remembered with another source; `None` when it is
    /// not remembered.
    pub(crate) fn differs(&self, key: &[u8], source: &[u8]) -> (r: Option<bool>)
        requires
            self.wf(),
            key@.len() == 32,
        ensures
            match r {
                Some(d) => self.view().dom().contains(key@) && d == (self.view()[key@] != source@),
                None => !self.view().dom().contains(key@),
            },
    {
        broadcast use vstd::std_specs::hash::group_hash_axioms;

        let h: u64 = get_le(key, 0, 8);
        let b = match self.buckets.get(&h) {
            Some(b) => b,
            None => {
                return None;
            },
        };
        let mut i: usize = 0;
        while i < b.len()
            invariant
                i <= b@.len(),
                self.wf(),
                key@.len() == 32,
                h == bucket_of(key@),
                self.buckets@.dom().contains(h),
                self.buckets@[h] == *b,
                forall|j: int| 0 <= j < i ==> (#[trigger] b@[j]).key@ != key@,
            decreases b@.len() - i,
        {
            if same_bytes(b[i].key.as_slice(), key) {
                proof {
                    let e = self.buckets@[h]@[i as int];
                    assert(self.contents@.dom().contains(e.key@));
                }
                return Some(!same_bytes(b[i].source.as_slice(), source));
            }
            i += 1;
        }
        proof {
            if self.contents@.dom().contains(key@) {
                let k = choose|k: int| #[trigger] is_entry(self.buckets@[h]@, key@, k);
                assert(b@[k].key@ == key@);
            }
        }
        None
    }

    /// Remember a new image.
    pub(crate) fn insert(&mut self, key: &[u8], source: &[u8])
        requires
            old(self).wf(),
            key@.len() == 32,
            !old(self).view().dom().contains(key@),
            old(self).view().dom().len() < usize::MAX,
        ensures
            final(self).wf(),
            final(self).view() == old(self).view().insert(key@, source@),
            final(self).view().dom().len() == old(self).view().dom().len() + 1,
    {
        broadcast use vstd::std_specs::hash::group_hash_axioms;

        let h: u64 = get_le(key, 0, 8);
        let ghost before = self.buckets@;
        let ghost known = self.contents@;
        let mut b: Vec<Image> = match self.buckets.remove(&h) {
            Some(b) => b,
            None => Vec::new(),
        };
        let ghost b0 = b@;
        let e = Image { key: copy_bytes(key), source: copy_bytes(source) };
        b.push(e);
        self.buckets.insert(h, b);
        self.count = self.count + 1;
        proof {
            let more = known.insert(key@, source@);
            self.contents = Ghost(more);
            assert(before.dom().contains(h) ==> b0 == before[h]@);
            assert(!before.dom().contains(h) ==> b0.len() == 0);
            assert forall|k: Seq<u8>| #[trigger] more.dom().contains(k) implies k.len() == 32 && self.buckets@.dom().contains(
                bucket_of(k),
            ) && exists|i: int| #[trigger] is_entry(self.buckets@[bucket_of(k)]@, k, i) by {
                let g = bucket_of(k);
                if k == key@ {
                    assert(is_entry(self.buckets@[h]@, k, b0.len() as int));
                } else {
                    assert(known.dom().contains(k));
                    let i = choose|i: int| #[trigger] is_entry(before[g]@, k, i);
                    assert(is_entry(self.buckets@[g]@, k, i));
                }
            }
            assert forall|g: u64, i: int|
                self.buckets@.dom().contains(g) && 0 <= i < self.buckets@[g]@.len() implies {
                let e = #[trigger] self.buckets@[g]@[i];
                &&& more.dom().contains(e.key@)
                &&& more[e.key@] == e.source@
            } by {
                if g == h {
                    if i < b0.len() {
                        assert(self.buckets@[g]@[i] == before[h]@[i]);
                    }
                } else {
                    assert(self.buckets@[g]@[i] == before[g]@[i]);
                }
            }
        }
    }
}

} // verus!
