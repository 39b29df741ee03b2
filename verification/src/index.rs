use vstd::prelude::*;
use crate::assoc::{
    assoc_distinct, assoc_map, assoc_pos, lemma_assoc_domain, lemma_assoc_index, lemma_assoc_pos,
    lemma_assoc_push_fresh, lemma_assoc_remove, lemma_assoc_update, lemma_map_remove_absent,
};
use crate::file_record::Record;
use crate::hash_pointer::TypedHashPointer;
use crate::inode::INode;

verus! {

/// The snapshot mapping inode numbers to the typed hash of their current
/// record. At construction it holds exactly the root inode; the next
/// allocatable inode starts at 2 and only ever grows.
pub struct INodeIndex {
    pub next_inode: INode,
    pub inode_mapping: Vec<(INode, TypedHashPointer<Record>)>,
}

impl INodeIndex {
    /// The inode-to-hash pairs this snapshot holds, in storage order.
    pub open spec fn mapping_view(&self) -> Seq<(u64, Seq<u8>)> {
        self.inode_mapping@.map_values(|p: (INode, TypedHashPointer<Record>)| (p.0@, p.1@))
    }

    /// The mapping from inode numbers to record hashes.
    pub open spec fn mapping(&self) -> Map<u64, Seq<u8>> {
        assoc_map(self.mapping_view())
    }

    /// The next inode number this snapshot would allocate.
    pub open spec fn next(&self) -> u64 {
        self.next_inode@
    }

    /// Well-formed: inodes are pairwise distinct and all below the allocation
    /// counter, so a fresh allocation can never collide or reuse.
    pub open spec fn wf(&self) -> bool {
        &&& assoc_distinct(self.mapping_view())
        &&& forall|i: int|
            0 <= i < self.mapping_view().len() ==> #[trigger] self.mapping_view()[i].0
                < self.next()
    }

    pub fn new(root_inode: INode, root: TypedHashPointer<Record>) -> (r: Self)
        requires
            root_inode@ < 2,
        ensures
            r.next() == 2,
            r.mapping() == Map::<u64, Seq<u8>>::empty().insert(root_inode@, root@),
            r.mapping_view() == Seq::<(u64, Seq<u8>)>::empty().push((root_inode@, root@)),
            r.wf(),
    {
        let mut inode_mapping: Vec<(INode, TypedHashPointer<Record>)> = Vec::new();
        inode_mapping.push((root_inode, root));
        let r = INodeIndex { next_inode: INode::default(), inode_mapping };
        proof {
            assert(r.mapping_view() =~= Seq::<(u64, Seq<u8>)>::empty().push(
                (root_inode@, root@),
            ));
            assert(r.mapping_view().drop_last() =~= Seq::<(u64, Seq<u8>)>::empty());
            assert(assoc_map(Seq::<(u64, Seq<u8>)>::empty()) =~= Map::<u64, Seq<u8>>::empty());
            assert(r.mapping() =~= Map::<u64, Seq<u8>>::empty().insert(root_inode@, root@));
        }
        r
    }

    /// Allocates the next inode, binds it to the given record hash, and
    /// advances the allocation counter. Inodes are never reused.
    pub fn insert_new_inode(&mut self, hash: TypedHashPointer<Record>) -> (r: INode)
        requires
            old(self).wf(),
            old(self).next() < u64::MAX,
        ensures
            final(self).wf(),
            r@ == old(self).next(),
            final(self).next() == old(self).next() + 1,
            final(self).mapping() == old(self).mapping().insert(r@, hash@),
            final(self).mapping_view() == old(self).mapping_view().push((r@, hash@)),
            !old(self).mapping().contains_key(r@),
    {
        let inode = self.next_inode;
        proof {
            if self.mapping().contains_key(inode@) {
                lemma_assoc_domain(self.mapping_view(), inode@);
            }
            lemma_assoc_push_fresh(self.mapping_view(), inode@, hash@);
        }
        let ghost before = self.mapping_view();
        self.inode_mapping.push((inode, hash));
        self.next_inode = self.next_inode.next_inode();
        proof {
            assert(self.mapping_view() =~= before.push((inode@, hash@)));
        }
        inode
    }

    /// Rebinds an existing inode to a new record hash. Returns false, and
    /// changes nothing, if the inode is absent.
    pub fn update_inode(&mut self, inode: INode, hash: TypedHashPointer<Record>) -> (r: bool)
        requires
            old(self).wf(),
        ensures
            final(self).wf(),
            final(self).next() == old(self).next(),
            r == old(self).mapping().contains_key(inode@),
            r ==> final(self).mapping() == old(self).mapping().insert(inode@, hash@)
                && final(self).mapping_view() == old(self).mapping_view().update(
                assoc_pos(old(self).mapping_view(), inode@),
                (inode@, hash@),
            ),
            !r ==> *final(self) == *old(self),
    {
        let n = self.inode_mapping.len();
        let mut i: usize = 0;
        while i < n
            invariant
                0 <= i <= n,
                n == self.inode_mapping@.len(),
                self == old(self),
                old(self).wf(),
                forall|j: int| 0 <= j < i ==> self.mapping_view()[j].0 != inode@,
            decreases n - i,
        {
            if self.inode_mapping[i].0.get() == inode.get() {
                let ghost before = self.mapping_view();
                proof {
                    lemma_assoc_index(before, i as int);
                    lemma_assoc_pos(before, inode@, i as int);
                    lemma_assoc_update(before, i as int, hash@);
                }
                self.inode_mapping.set(i, (inode, hash));
                proof {
                    assert(self.mapping_view() =~= before.update(i as int, (inode@, hash@)));
                    assert(before.update(i as int, (inode@, hash@)) =~= before.update(
                        i as int,
                        (before[i as int].0, hash@),
                    ));
                }
                return true;
            }
            i += 1;
        }
        proof {
            if self.mapping().contains_key(inode@) {
                lemma_assoc_domain(self.mapping_view(), inode@);
            }
        }
        false
    }

    /// Unbinds an inode, as the removal operations require; absent inodes are
    /// left alone.
    pub fn remove_inode(&mut self, inode: INode)
        requires
            old(self).wf(),
        ensures
            final(self).wf(),
            final(self).next() == old(self).next(),
            final(self).mapping() == old(self).mapping().remove(inode@),
            old(self).mapping().contains_key(inode@) ==> final(self).mapping_view() == old(
                self,
            ).mapping_view().remove(assoc_pos(old(self).mapping_view(), inode@)),
            !old(self).mapping().contains_key(inode@) ==> *final(self) == *old(self),
    {
        let n = self.inode_mapping.len();
        let mut i: usize = 0;
        while i < n
            invariant
                0 <= i <= n,
                n == self.inode_mapping@.len(),
                self == old(self),
                old(self).wf(),
                forall|j: int| 0 <= j < i ==> self.mapping_view()[j].0 != inode@,
            decreases n - i,
        {
            if self.inode_mapping[i].0.get() == inode.get() {
                let ghost before = self.mapping_view();
                proof {
                    lemma_assoc_index(before, i as int);
                    lemma_assoc_pos(before, inode@, i as int);
                    lemma_assoc_remove(before, i as int);
                }
                self.inode_mapping.remove(i);
                proof {
                    assert(self.mapping_view() =~= before.remove(i as int));
                }
                return ;
            }
            i += 1;
        }
        proof {
            if self.mapping().contains_key(inode@) {
                lemma_assoc_domain(self.mapping_view(), inode@);
            }
            lemma_map_remove_absent(self.mapping(), inode@);
        }
    }

    /// Resolves an inode to the hash of its current record.
    pub fn lookup_inode(&self, inode: &INode) -> (r: Option<&TypedHashPointer<Record>>)
        requires
            self.wf(),
        ensures
            match r {
                Some(h) => self.mapping().contains_key(inode@) && h@ == self.mapping()[inode@],
                None => !self.mapping().contains_key(inode@),
            },
    {
        let n = self.inode_mapping.len();
        let mut i: usize = 0;
        while i < n
            invariant
                0 <= i <= n,
                n == self.inode_mapping@.len(),
                self.wf(),
                forall|j: int| 0 <= j < i ==> self.mapping_view()[j].0 != inode@,
            decreases n - i,
        {
            if self.inode_mapping[i].0.get() == inode.get() {
                proof {
                    lemma_assoc_index(self.mapping_view(), i as int);
                }
                return Some(&self.inode_mapping[i].1);
            }
            i += 1;
        }
        proof {
            if self.mapping().contains_key(inode@) {
                lemma_assoc_domain(self.mapping_view(), inode@);
            }
        }
        None
    }
}

} // verus!
