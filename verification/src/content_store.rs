use vstd::prelude::*;
use vstd::slice::slice_to_vec;
use crate::assoc::{
    assoc_distinct, assoc_map, lemma_assoc_domain, lemma_assoc_index, lemma_assoc_push_fresh,
    lemma_assoc_update,
};
use crate::hash_pointer::{hash_of, HashPointer};

verus! {

/// Put/get of opaque byte blobs keyed by the hash of their contents. The
/// store is a mapping from hash bytes to blob bytes; a put binds the hash of
/// the new bytes, and a second put of identical bytes changes nothing.
pub trait ContentStore: Sized {
    /// The blobs currently held, keyed by hash bytes.
    spec fn contents(&self) -> Map<Seq<u8>, Seq<u8>>;

    /// The store's own well-formedness.
    spec fn inv(&self) -> bool;

    /// Stores a blob under the hash of its bytes and returns that hash.
    fn add_content(&mut self, content: &[u8]) -> (r: HashPointer)
        requires
            old(self).inv(),
        ensures
            final(self).inv(),
            r@ == hash_of(content@),
            final(self).contents() == old(self).contents().insert(hash_of(content@), content@),
    ;

    /// Returns the blob stored under a hash, or empty bytes if absent.
    fn get_content(&self, hash: &HashPointer) -> (r: Vec<u8>)
        requires
            self.inv(),
        ensures
            self.contents().contains_key(hash@) ==> r@ == self.contents()[hash@],
            !self.contents().contains_key(hash@) ==> r@ == Seq::<u8>::empty(),
    ;

    /// Whether a blob is stored under the hash.
    fn contains_content(&self, hash: &HashPointer) -> (r: bool)
        requires
            self.inv(),
        ensures
            r == self.contents().contains_key(hash@),
    ;
}

/// The in-memory backing used by tests: an association of hash to bytes.
#[derive(Debug)]
pub struct InMemoryContentStore {
    store: Vec<(HashPointer, Vec<u8>)>,
}

impl InMemoryContentStore {
    pub closed spec fn store_view(&self) -> Seq<(Seq<u8>, Seq<u8>)> {
        self.store@.map_values(|p: (HashPointer, Vec<u8>)| (p.0@, p.1@))
    }

    pub fn new() -> (r: Self)
        ensures
            r.contents() == Map::<Seq<u8>, Seq<u8>>::empty(),
            r.inv(),
    {
        let r = InMemoryContentStore { store: Vec::new() };
        proof {
            assert(r.store_view() =~= Seq::<(Seq<u8>, Seq<u8>)>::empty());
        }
        r
    }

    fn find(&self, hash: &HashPointer) -> (r: Option<usize>)
        requires
            self.inv(),
        ensures
            match r {
                Some(i) => i < self.store_view().len() && self.store_view()[i as int].0 == hash@
                    && self.contents().contains_key(hash@) && self.contents()[hash@]
                    == self.store_view()[i as int].1,
                None => !self.contents().contains_key(hash@),
            },
    {
        let n = self.store.len();
        let mut i: usize = 0;
        while i < n
            invariant
                0 <= i <= n,
                n == self.store@.len(),
                self.inv(),
                forall|j: int| 0 <= j < i ==> self.store_view()[j].0 != hash@,
            decreases n - i,
        {
            if self.store[i].0.eq_hash(hash) {
                proof {
                    lemma_assoc_index(self.store_view(), i as int);
                }
                return Some(i);
            }
            i += 1;
        }
        proof {
            if self.contents().contains_key(hash@) {
                lemma_assoc_domain(self.store_view(), hash@);
            }
        }
        None
    }
}

impl Default for InMemoryContentStore {
    /// An empty store.
    fn default() -> (r: Self)
        ensures
            r.contents() == Map::<Seq<u8>, Seq<u8>>::empty(),
            r.inv(),
    {
        InMemoryContentStore::new()
    }
}

impl ContentStore for InMemoryContentStore {
    closed spec fn contents(&self) -> Map<Seq<u8>, Seq<u8>> {
        assoc_map(self.store_view())
    }

    closed spec fn inv(&self) -> bool {
        assoc_distinct(self.store_view())
    }

    fn add_content(&mut self, content: &[u8]) -> (r: HashPointer) {
        let hash = HashPointer::hash_bytes(content);
        let found = self.find(&hash);
        match found {
            Some(i) => {
                let ghost before = self.store_view();
                proof {
                    lemma_assoc_update(before, i as int, content@);
                }
                self.store.set(i, (hash, slice_to_vec(content)));
                proof {
                    assert(self.store_view() =~= before.update(
                        i as int,
                        (before[i as int].0, content@),
                    ));
                }
            },
            None => {
                let ghost before = self.store_view();
                proof {
                    lemma_assoc_push_fresh(before, hash@, content@);
                }
                self.store.push((hash, slice_to_vec(content)));
                proof {
                    assert(self.store_view() =~= before.push((hash@, content@)));
                }
            },
        }
        hash
    }

    fn get_content(&self, hash: &HashPointer) -> (r: Vec<u8>) {
        match self.find(hash) {
            Some(i) => slice_to_vec(self.store[i].1.as_slice()),
            None => Vec::new(),
        }
    }

    fn contains_content(&self, hash: &HashPointer) -> (r: bool) {
        self.find(hash).is_some()
    }
}

/// Content addressing: a put binds the hash of the bytes to exactly those
/// bytes, so a get of hash_of(bytes) right after put(bytes) returns bytes.
/// This is phrased over the store contracts: add_content ensures the
/// contents become the insertion below, and get_content returns the mapping.
pub proof fn lemma_content_addressing(m: Map<Seq<u8>, Seq<u8>>, bytes: Seq<u8>)
    ensures
        m.insert(hash_of(bytes), bytes).contains_key(hash_of(bytes)),
        m.insert(hash_of(bytes), bytes)[hash_of(bytes)] == bytes,
{
}

} // verus!
