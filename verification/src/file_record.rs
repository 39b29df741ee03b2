use vstd::prelude::*;
use crate::assoc::{
    assoc_distinct, assoc_map, assoc_pos, lemma_assoc_domain, lemma_assoc_index, lemma_assoc_len,
    lemma_assoc_pos, lemma_assoc_push_fresh, lemma_assoc_remove, lemma_map_remove_absent,
};
use crate::data_block::DataBlock;
use crate::filename::{bytes_eq, Filename};
use crate::hash_pointer::TypedHashPointer;
use crate::inode::INode;

verus! {

/// Relies on std::time::SystemTime::now and duration_since: the current time
/// as nanoseconds since the epoch. Nothing is assumed of the value returned.
#[verifier::external_body]
pub fn now_nanos() -> u64 {
    match std::time::SystemTime::now().duration_since(std::time::SystemTime::UNIX_EPOCH) {
        Ok(d) => d.as_nanos() as u64,
        Err(_) => 0,
    }
}

/// Attributes that are shared between files and directories. Timestamps are
/// nanoseconds since the epoch.
#[derive(Clone, Copy, PartialEq, Eq, Structural, Debug)]
pub struct CommonAttrs {
    pub perm: u16,
    pub uid: u32,
    pub gid: u32,
    pub atime: u64,
    pub mtime: u64,
    pub ctime: u64,
    pub crtime: u64,
}

impl CommonAttrs {
    pub fn new(perm: u16, uid: u32, gid: u32, atime: u64, mtime: u64, ctime: u64, crtime: u64) -> (r: Self)
        ensures
            r == (CommonAttrs { perm, uid, gid, atime, mtime, ctime, crtime }),
    {
        CommonAttrs { perm, uid, gid, atime, mtime, ctime, crtime }
    }

    /// The stock attributes with all four timestamps set to the given time.
    pub fn with_times(now: u64) -> (r: Self)
        ensures
            r == (CommonAttrs {
                perm: 0o755u16,
                uid: 501u32,
                gid: 20u32,
                atime: now,
                mtime: now,
                ctime: now,
                crtime: now,
            }),
    {
        CommonAttrs { perm: 0o755, uid: 501, gid: 20, atime: now, mtime: now, ctime: now, crtime: now }
    }
}

impl Default for CommonAttrs {
    /// The stock attributes, timestamped at construction.
    fn default() -> (r: Self)
        ensures
            r.perm == 0o755,
            r.uid == 501,
            r.gid == 20,
    {
        let now = now_nanos();
        CommonAttrs::with_times(now)
    }
}

/// One directory entry: a name bound to an inode.
#[derive(Debug)]
pub struct IndexMapping {
    pub inode: INode,
    pub name: Filename,
}

impl View for IndexMapping {
    type V = (Seq<u8>, u64);

    open spec fn view(&self) -> (Seq<u8>, u64) {
        (self.name@, self.inode@)
    }
}

impl Clone for IndexMapping {
    fn clone(&self) -> (r: Self)
        ensures
            r@ == self@,
    {
        IndexMapping { inode: self.inode, name: self.name.clone() }
    }
}

/// The name-to-inode pairs that a sequence of directory entries denotes.
pub open spec fn entries_view(s: Seq<IndexMapping>) -> Seq<(Seq<u8>, u64)> {
    s.map_values(|e: IndexMapping| e@)
}

/// The name-to-inode mapping that a sequence of directory entries denotes.
pub open spec fn entries_map(s: Seq<IndexMapping>) -> Map<Seq<u8>, u64> {
    assoc_map(entries_view(s))
}

/// Entries carry pairwise distinct names.
pub open spec fn entries_distinct(s: Seq<IndexMapping>) -> bool {
    assoc_distinct(entries_view(s))
}

/// A directory record: named children, shared attributes, and the inode of
/// the containing directory (the root's parent is the root itself).
#[derive(Debug)]
pub struct DirectoryRecord {
    pub children: Vec<IndexMapping>,
    pub common_attrs: CommonAttrs,
    pub parent: INode,
}

impl Clone for DirectoryRecord {
    fn clone(&self) -> (r: Self)
        ensures
            entries_view(r.children@) == entries_view(self.children@),
            r.common_attrs == self.common_attrs,
            r.parent == self.parent,
    {
        DirectoryRecord {
            children: clone_entries(&self.children),
            common_attrs: self.common_attrs,
            parent: self.parent,
        }
    }
}

/// Clones a sequence of directory entries, preserving names and inodes.
fn clone_entries(entries: &Vec<IndexMapping>) -> (r: Vec<IndexMapping>)
    ensures
        entries_view(r@) == entries_view(entries@),
{
    let mut out: Vec<IndexMapping> = Vec::new();
    let n = entries.len();
    let mut i: usize = 0;
    while i < n
        invariant
            0 <= i <= n,
            n == entries@.len(),
            out@.len() == i,
            forall|j: int| 0 <= j < i ==> out@[j]@ == entries@[j]@,
        decreases n - i,
    {
        out.push(entries[i].clone());
        i += 1;
    }
    assert(entries_view(out@) =~= entries_view(entries@));
    out
}

impl DirectoryRecord {
    /// The mapping from child names to inodes that this directory denotes.
    pub open spec fn children_map(&self) -> Map<Seq<u8>, u64> {
        entries_map(self.children@)
    }

    /// Well-formed: child names are pairwise distinct.
    pub open spec fn wf(&self) -> bool {
        entries_distinct(self.children@)
    }

    pub fn new(common_attrs: CommonAttrs, parent: INode) -> (r: Self)
        ensures
            r.children@.len() == 0,
            r.children_map() == Map::<Seq<u8>, u64>::empty(),
            r.common_attrs == common_attrs,
            r.parent == parent,
            r.wf(),
    {
        let r = DirectoryRecord { children: Vec::new(), common_attrs, parent };
        assert(entries_view(r.children@) =~= Seq::<(Seq<u8>, u64)>::empty());
        r
    }

    /// Finds the position of a name among the children.
    fn find(&self, filename: &Filename) -> (r: Option<usize>)
        requires
            self.wf(),
        ensures
            match r {
                Some(i) => i < self.children@.len() && self.children@[i as int].name@ == filename@
                    && self.children_map().contains_key(filename@),
                None => !self.children_map().contains_key(filename@),
            },
    {
        let n = self.children.len();
        let mut i: usize = 0;
        while i < n
            invariant
                0 <= i <= n,
                n == self.children@.len(),
                self.wf(),
                forall|j: int| 0 <= j < i ==> self.children@[j].name@ != filename@,
            decreases n - i,
        {
            if bytes_eq(self.children[i].name.name.as_slice(), filename.name.as_slice()) {
                proof {
                    lemma_assoc_index(entries_view(self.children@), i as int);
                }
                return Some(i);
            }
            i += 1;
        }
        proof {
            if self.children_map().contains_key(filename@) {
                lemma_assoc_domain(entries_view(self.children@), filename@);
                let j = choose|j: int|
                    0 <= j < entries_view(self.children@).len() && entries_view(self.children@)[j].0
                        == filename@;
                assert(self.children@[j].name@ == filename@);
            }
        }
        None
    }

    /// Binds a new name to an inode. The caller has checked that the name is
    /// absent, as the engine's duplicate check requires.
    pub fn insert(&mut self, filename: Filename, inode: INode)
        requires
            old(self).wf(),
            !old(self).children_map().contains_key(filename@),
        ensures
            final(self).wf(),
            final(self).children_map() == old(self).children_map().insert(filename@, inode@),
            entries_view(final(self).children@) == entries_view(old(self).children@).push(
                (filename@, inode@),
            ),
            final(self).common_attrs == old(self).common_attrs,
            final(self).parent == old(self).parent,
    {
        proof {
            lemma_assoc_push_fresh(entries_view(self.children@), filename@, inode@);
        }
        let ghost before = self.children@;
        self.children.push(IndexMapping { inode, name: filename });
        proof {
            assert(entries_view(self.children@) =~= entries_view(before).push(
                (self.children@.last().name@, inode@),
            ));
        }
    }

    /// Unbinds a name; returns the inode it was bound to, or None if absent.
    pub fn remove(&mut self, filename: &Filename) -> (r: Option<INode>)
        requires
            old(self).wf(),
        ensures
            final(self).wf(),
            final(self).children_map() == old(self).children_map().remove(filename@),
            old(self).children_map().contains_key(filename@) ==> entries_view(
                final(self).children@,
            ) == entries_view(old(self).children@).remove(
                assoc_pos(entries_view(old(self).children@), filename@),
            ),
            !old(self).children_map().contains_key(filename@) ==> *final(self) == *old(self),
            final(self).common_attrs == old(self).common_attrs,
            final(self).parent == old(self).parent,
            match r {
                Some(ino) => old(self).children_map().contains_key(filename@) && ino@ == old(
                    self,
                ).children_map()[filename@],
                None => !old(self).children_map().contains_key(filename@),
            },
    {
        let found = self.find(filename);
        match found {
            Some(i) => {
                let entry = self.children.remove(i);
                proof {
                    lemma_assoc_index(entries_view(old(self).children@), i as int);
                    lemma_assoc_pos(entries_view(old(self).children@), filename@, i as int);
                    lemma_assoc_remove(entries_view(old(self).children@), i as int);
                    assert(entries_view(self.children@) =~= entries_view(
                        old(self).children@,
                    ).remove(i as int));
                }
                Some(entry.inode)
            },
            None => {
                proof {
                    lemma_map_remove_absent(self.children_map(), filename@);
                }
                None
            },
        }
    }

    /// Looks a name up among the children.
    pub fn get(&self, filename: &Filename) -> (r: Option<&INode>)
        requires
            self.wf(),
        ensures
            match r {
                Some(ino) => self.children_map().contains_key(filename@) && ino@
                    == self.children_map()[filename@],
                None => !self.children_map().contains_key(filename@),
            },
    {
        match self.find(filename) {
            Some(i) => {
                proof {
                    lemma_assoc_index(entries_view(self.children@), i as int);
                }
                Some(&self.children[i].inode)
            },
            None => None,
        }
    }

    /// The number of children.
    pub fn size(&self) -> (r: usize)
        requires
            self.wf(),
        ensures
            r == self.children@.len(),
            r == self.children_map().len(),
    {
        proof {
            lemma_assoc_len(entries_view(self.children@));
        }
        self.children.len()
    }

    /// All children, as name-inode pairs, in listing order.
    pub fn list_children(&self) -> (r: Vec<IndexMapping>)
        ensures
            entries_view(r@) == entries_view(self.children@),
    {
        clone_entries(&self.children)
    }
}

/// A file record: the hash of its payload, the payload's length, and the
/// shared attributes. The size always equals the payload's byte length.
#[derive(Debug)]
pub struct FileRecord {
    pub content_hash: TypedHashPointer<DataBlock>,
    pub size: u64,
    pub common_attrs: CommonAttrs,
}

impl Clone for FileRecord {
    fn clone(&self) -> (r: Self)
        ensures
            r.content_hash@ == self.content_hash@,
            r.size == self.size,
            r.common_attrs == self.common_attrs,
    {
        FileRecord {
            content_hash: self.content_hash.clone(),
            size: self.size,
            common_attrs: self.common_attrs,
        }
    }
}

impl FileRecord {
    pub fn new(content_hash: TypedHashPointer<DataBlock>, size: u64, common_attrs: CommonAttrs) -> (r: Self)
        ensures
            r.content_hash@ == content_hash@,
            r.size == size,
            r.common_attrs == common_attrs,
    {
        FileRecord { content_hash, size, common_attrs }
    }
}

/// A record is a file or a directory; the variant is part of the value.
#[derive(Debug)]
pub enum Record {
    File(FileRecord),
    Directory(DirectoryRecord),
}

impl Clone for Record {
    fn clone(&self) -> (r: Self)
        ensures
            record_eq(&r, self),
    {
        match self {
            Record::File(f) => Record::File(f.clone()),
            Record::Directory(d) => Record::Directory(d.clone()),
        }
    }
}

/// Structural equality of records up to views: variants, attributes, sizes,
/// hashes, children and parents all agree.
pub open spec fn record_eq(a: &Record, b: &Record) -> bool {
    match (a, b) {
        (Record::File(fa), Record::File(fb)) => fa.content_hash@ == fb.content_hash@ && fa.size
            == fb.size && fa.common_attrs == fb.common_attrs,
        (Record::Directory(da), Record::Directory(db)) => entries_view(da.children@)
            == entries_view(db.children@) && da.common_attrs == db.common_attrs && da.parent
            == db.parent,
        _ => false,
    }
}

impl Record {
    /// The shared attributes, whichever variant holds them.
    pub open spec fn spec_common_attrs(&self) -> CommonAttrs {
        match self {
            Record::File(f) => f.common_attrs,
            Record::Directory(d) => d.common_attrs,
        }
    }

    /// This record with its shared attributes replaced; nothing else changes.
    pub open spec fn spec_with_attrs(&self, attrs: CommonAttrs) -> Record {
        match self {
            Record::File(f) => Record::File(FileRecord { common_attrs: attrs, ..*f }),
            Record::Directory(d) => Record::Directory(
                DirectoryRecord { common_attrs: attrs, ..*d },
            ),
        }
    }

    pub open spec fn is_file(&self) -> bool {
        self is File
    }

    pub open spec fn is_directory(&self) -> bool {
        self is Directory
    }

    pub fn common_attrs(&self) -> (r: &CommonAttrs)
        ensures
            *r == self.spec_common_attrs(),
    {
        match self {
            Record::File(f) => &f.common_attrs,
            Record::Directory(d) => &d.common_attrs,
        }
    }

    /// Overwrites the shared attributes, preserving the variant and every
    /// other field.
    pub fn set_attrs(&mut self, attrs: CommonAttrs)
        ensures
            *final(self) == old(self).spec_with_attrs(attrs),
    {
        match self {
            Record::File(f) => f.common_attrs = attrs,
            Record::Directory(d) => d.common_attrs = attrs,
        }
    }

    /// Borrows the shared attributes mutably, preserving the variant and
    /// every other field.
    pub fn mut_attrs(&mut self) -> (r: &mut CommonAttrs)
        ensures
            *r == old(self).spec_common_attrs(),
            *final(self) == old(self).spec_with_attrs(*final(r)),
    {
        match self {
            Record::File(f) => &mut f.common_attrs,
            Record::Directory(d) => &mut d.common_attrs,
        }
    }
}

} // verus!
