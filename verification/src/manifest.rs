use vstd::prelude::*;
use crate::assoc::{
    assoc_distinct, assoc_map, lemma_assoc_domain, lemma_assoc_index, lemma_assoc_push_fresh,
    lemma_assoc_remove, lemma_assoc_update, lemma_map_remove_absent,
};
use crate::hash_pointer::HashPointer;

verus! {

/// A reference count raised by one, staying put at the ceiling.
pub open spec fn bump(m: Map<Seq<u8>, u64>, k: Seq<u8>) -> Map<Seq<u8>, u64> {
    if m.contains_key(k) {
        if m[k] < u64::MAX {
            m.insert(k, (m[k] + 1) as u64)
        } else {
            m
        }
    } else {
        m.insert(k, 1u64)
    }
}

/// A reference count lowered by one; the entry leaves at zero, and an absent
/// key is left alone.
pub open spec fn unbump(m: Map<Seq<u8>, u64>, k: Seq<u8>) -> Map<Seq<u8>, u64> {
    if m.contains_key(k) {
        if m[k] <= 1 {
            m.remove(k)
        } else {
            m.insert(k, (m[k] - 1) as u64)
        }
    } else {
        m
    }
}

/// Reference counts lowered by one for each listed hash, in order.
pub open spec fn unbump_all(m: Map<Seq<u8>, u64>, ks: Seq<Seq<u8>>) -> Map<Seq<u8>, u64>
    decreases ks.len(),
{
    if ks.len() == 0 {
        m
    } else {
        unbump_all(unbump(m, ks[0]), ks.drop_first())
    }
}

/// The multiset of live references: how many logical slots across live
/// records hold each hash. Kept as counted entries with distinct keys.
#[derive(Debug)]
pub struct Manifest {
    references: Vec<(HashPointer, u64)>,
}

impl Manifest {
    pub closed spec fn refs_view(&self) -> Seq<(Seq<u8>, u64)> {
        self.references@.map_values(|p: (HashPointer, u64)| (p.0@, p.1))
    }

    /// The mapping from hash bytes to reference counts.
    pub closed spec fn refs(&self) -> Map<Seq<u8>, u64> {
        assoc_map(self.refs_view())
    }

    /// Well-formed: keys distinct and no entry holds a zero count.
    pub closed spec fn wf(&self) -> bool {
        &&& assoc_distinct(self.refs_view())
        &&& forall|i: int| 0 <= i < self.refs_view().len() ==> #[trigger] self.refs_view()[i].1 >= 1
    }

    pub fn new() -> (r: Self)
        ensures
            r.refs() == Map::<Seq<u8>, u64>::empty(),
            r.wf(),
    {
        let r = Manifest { references: Vec::new() };
        proof {
            assert(r.refs_view() =~= Seq::<(Seq<u8>, u64)>::empty());
        }
        r
    }

    fn find(&self, reference: &HashPointer) -> (r: Option<usize>)
        requires
            self.wf(),
        ensures
            match r {
                Some(i) => i < self.refs_view().len() && self.refs_view()[i as int].0 == reference@
                    && self.refs().contains_key(reference@) && self.refs()[reference@]
                    == self.refs_view()[i as int].1,
                None => !self.refs().contains_key(reference@),
            },
    {
        let n = self.references.len();
        let mut i: usize = 0;
        while i < n
            invariant
                0 <= i <= n,
                n == self.references@.len(),
                self.wf(),
                forall|j: int| 0 <= j < i ==> self.refs_view()[j].0 != reference@,
            decreases n - i,
        {
            if self.references[i].0.eq_hash(reference) {
                proof {
                    lemma_assoc_index(self.refs_view(), i as int);
                }
                return Some(i);
            }
            i += 1;
        }
        proof {
            if self.refs().contains_key(reference@) {
                lemma_assoc_domain(self.refs_view(), reference@);
            }
        }
        None
    }

    /// Raises the count for a hash, starting it at one when it is new.
    pub fn add_reference(&mut self, reference: HashPointer)
        requires
            old(self).wf(),
        ensures
            final(self).wf(),
            final(self).refs() == bump(old(self).refs(), reference@),
    {
        let found = self.find(&reference);
        match found {
            Some(i) => {
                let count = self.references[i].1;
                if count < u64::MAX {
                    let ghost before = self.refs_view();
                    proof {
                        lemma_assoc_update(before, i as int, (count + 1) as u64);
                    }
                    self.references.set(i, (reference, count + 1));
                    proof {
                        assert(self.refs_view() =~= before.update(
                            i as int,
                            (before[i as int].0, (count + 1) as u64),
                        ));
                    }
                }
            },
            None => {
                let ghost before = self.refs_view();
                proof {
                    lemma_assoc_push_fresh(before, reference@, 1u64);
                }
                self.references.push((reference, 1));
                proof {
                    assert(self.refs_view() =~= before.push((reference@, 1u64)));
                }
            },
        }
    }

    /// Lowers the count for a hash; the entry leaves at zero. Lowering an
    /// absent hash is a no-op, so retries stay idempotent.
    pub fn remove_reference(&mut self, reference: HashPointer)
        requires
            old(self).wf(),
        ensures
            final(self).wf(),
            final(self).refs() == unbump(old(self).refs(), reference@),
    {
        let found = self.find(&reference);
        match found {
            Some(i) => {
                let count = self.references[i].1;
                let ghost before = self.refs_view();
                if count <= 1 {
                    proof {
                        lemma_assoc_remove(before, i as int);
                    }
                    self.references.remove(i);
                    proof {
                        assert(self.refs_view() =~= before.remove(i as int));
                    }
                } else {
                    proof {
                        lemma_assoc_update(before, i as int, (count - 1) as u64);
                    }
                    self.references.set(i, (reference, count - 1));
                    proof {
                        assert(self.refs_view() =~= before.update(
                            i as int,
                            (before[i as int].0, (count - 1) as u64),
                        ));
                    }
                }
            },
            None => {
                proof {
                    lemma_map_remove_absent(self.refs(), reference@);
                }
            },
        }
    }

    /// Whether any live slot still references the hash.
    pub fn has_reference(&self, reference: &HashPointer) -> (r: bool)
        requires
            self.wf(),
        ensures
            r == self.refs().contains_key(reference@),
    {
        self.find(reference).is_some()
    }

    /// All referenced hashes, in storage order.
    pub fn references(&self) -> (r: Vec<HashPointer>)
        requires
            self.wf(),
        ensures
            r@.len() == self.refs_view().len(),
            forall|i: int| 0 <= i < r@.len() ==> r@[i]@ == self.refs_view()[i].0,
    {
        let mut out: Vec<HashPointer> = Vec::new();
        let n = self.references.len();
        let mut i: usize = 0;
        while i < n
            invariant
                0 <= i <= n,
                n == self.references@.len(),
                out@.len() == i,
                forall|j: int| 0 <= j < i ==> out@[j]@ == self.refs_view()[j].0,
            decreases n - i,
        {
            out.push(self.references[i].0);
            i += 1;
        }
        out
    }
}

impl Default for Manifest {
    /// An empty manifest.
    fn default() -> (r: Self)
        ensures
            r.refs() == Map::<Seq<u8>, u64>::empty(),
            r.wf(),
    {
        Manifest::new()
    }
}

} // verus!
