//! The filesystem operations engine: every operation loads the current root
//! hash, decodes the inode-index snapshot, works on decoded records, and (for
//! mutations) stores the rewritten records and advances the root in a single
//! final pointer swap.
//!
//! Every operation preserves the engine invariant: the root resolves to a
//! well-formed snapshot in which every record hash resolves and decodes, and
//! every file's payload resolves to a block of exactly the file's size. Every
//! operation that returns an error leaves the root where it was: a failed
//! precondition check leaves the whole state untouched, and a refused store
//! (a hash already bound to different bytes) leaves at most unreferenced
//! blobs behind, never a changed tree.
use vstd::prelude::*;
use vstd::slice::{slice_subrange, slice_to_vec};
use crate::codec::{
    dec_block, dec_index, dec_record, enc_block, enc_index, enc_record, index_map,
    lemma_index_len_ok, lemma_index_round_trip, lemma_record_len_ok, lemma_record_round_trip,
    DirV, FileV, IndexV, RecordV,
};
use crate::assoc::{assoc_distinct, assoc_map, assoc_pos};
use crate::content_store::ContentStore;
use crate::counting_store::{put_clean, CountingStore};
use crate::data_block::DataBlock;
use crate::file_record::{CommonAttrs, DirectoryRecord, FileRecord, Record};
use crate::filename::{spec_valid_name, Filename};
use crate::hash_pointer::{hash_of, TypedHashPointer, TypedHashPointerReference};
use crate::index::INodeIndex;
use crate::inode::INode;
use crate::counting_store::outgoing_of;
use crate::manifest::{bump, unbump, unbump_all, Manifest};
use crate::response::{
    FileOperationError, INodeResponse, ListDirectoryEntry, ListDirectoryResponse,
    ReadFileResponse,
};

verus! {

/// The reserved root inode.
pub const ROOT_INODE: u64 = 1;

/// A decoded file record resolves in the store: its payload is present,
/// decodes, and has exactly the record's size.
pub open spec fn file_ok(f: FileV, m: Map<Seq<u8>, Seq<u8>>) -> bool {
    &&& m.contains_key(f.content_hash)
    &&& dec_block(m[f.content_hash]) is Some
    &&& dec_block(m[f.content_hash]).unwrap().len() == f.size
}

/// The blob under a record hash is present and decodes; files resolve, and
/// directories carry distinct names and never list the root as a child.
pub open spec fn record_ok(h: Seq<u8>, m: Map<Seq<u8>, Seq<u8>>) -> bool {
    &&& m.contains_key(h)
    &&& dec_record(m[h]) is Some
    &&& match dec_record(m[h]).unwrap() {
        RecordV::File(f) => file_ok(f, m),
        RecordV::Directory(d) => assoc_distinct(d.children) && (forall|i: int|
            0 <= i < d.children.len() ==> #[trigger] d.children[i].1 != ROOT_INODE),
    }
}

/// The directory an inode resolves to, reduced to what the tree structure
/// reads of it: its name-to-inode mapping and its parent. None for files and
/// unmapped inodes.
pub open spec fn dir_shape(x: IndexV, m: Map<Seq<u8>, Seq<u8>>, ino: u64) -> Option<
    (Map<Seq<u8>, u64>, u64),
> {
    if index_map(x).contains_key(ino) && m.contains_key(index_map(x)[ino]) {
        match dec_record(m[index_map(x)[ino]]) {
            Some(RecordV::Directory(d)) => Some((assoc_map(d.children), d.parent)),
            _ => None,
        }
    } else {
        None
    }
}

/// The tree structure of a snapshot is sound: every directory's children and
/// parent resolve in the index, every parent is itself a directory, no inode
/// is listed by two slots, and every directory but the root is listed by its
/// own parent.
pub open spec fn topology_ok(x: IndexV, m: Map<Seq<u8>, Seq<u8>>) -> bool {
    &&& (forall|ino: u64, n: Seq<u8>|
        dir_shape(x, m, ino) is Some && #[trigger] dir_shape(x, m, ino).unwrap().0.contains_key(n)
            ==> index_map(x).contains_key(dir_shape(x, m, ino).unwrap().0[n]))
    &&& (forall|ino: u64| #[trigger]
        dir_shape(x, m, ino) is Some ==> dir_shape(
            x,
            m,
            dir_shape(x, m, ino).unwrap().1,
        ) is Some)
    &&& (forall|i1: u64, n1: Seq<u8>, i2: u64, n2: Seq<u8>|
        dir_shape(x, m, i1) is Some && dir_shape(x, m, i2) is Some && #[trigger] dir_shape(
            x,
            m,
            i1,
        ).unwrap().0.contains_key(n1) && #[trigger] dir_shape(x, m, i2).unwrap().0.contains_key(n2)
            && dir_shape(x, m, i1).unwrap().0[n1] == dir_shape(x, m, i2).unwrap().0[n2] ==> i1
            == i2 && n1 == n2)
    &&& (forall|ino: u64| #[trigger]
        dir_shape(x, m, ino) is Some && ino != ROOT_INODE ==> exists|n: Seq<u8>|
            #[trigger] dir_shape(x, m, dir_shape(x, m, ino).unwrap().1).unwrap().0.contains_key(n)
                && dir_shape(x, m, dir_shape(x, m, ino).unwrap().1).unwrap().0[n] == ino)
    &&& (dir_shape(x, m, ROOT_INODE) is Some ==> dir_shape(x, m, ROOT_INODE).unwrap().1
        == ROOT_INODE)
}

/// Snapshots with pointwise equal shapes and domains carry the same tree
/// structure.
pub proof fn lemma_topology_pointwise(
    x0: IndexV,
    m0: Map<Seq<u8>, Seq<u8>>,
    x2: IndexV,
    m2: Map<Seq<u8>, Seq<u8>>,
)
    requires
        topology_ok(x0, m0),
        forall|ino: u64| #[trigger] dir_shape(x2, m2, ino) == dir_shape(x0, m0, ino),
        forall|ino: u64| #[trigger]
            index_map(x2).contains_key(ino) == index_map(x0).contains_key(ino),
    ensures
        topology_ok(x2, m2),
{
    assert forall|ino: u64| #[trigger]
        dir_shape(x2, m2, ino) is Some && ino != ROOT_INODE implies exists|n: Seq<u8>|
        #[trigger] dir_shape(x2, m2, dir_shape(x2, m2, ino).unwrap().1).unwrap().0.contains_key(n)
            && dir_shape(x2, m2, dir_shape(x2, m2, ino).unwrap().1).unwrap().0[n] == ino by {
        assert(dir_shape(x0, m0, ino) is Some);
        let pf = dir_shape(x0, m0, ino).unwrap().1;
        let n0 = choose|n: Seq<u8>|
            #[trigger] dir_shape(x0, m0, pf).unwrap().0.contains_key(n) && dir_shape(
                x0,
                m0,
                pf,
            ).unwrap().0[n] == ino;
        assert(dir_shape(x2, m2, pf).unwrap().0.contains_key(n0));
    }
}

/// The index snapshot is well-formed over the store: inodes distinct and
/// below the allocation counter, the root present and a directory, every
/// mapped record hash resolving, and the tree structure sound.
pub open spec fn index_ok(x: IndexV, m: Map<Seq<u8>, Seq<u8>>) -> bool {
    &&& assoc_distinct(x.mapping)
    &&& forall|i: int| 0 <= i < x.mapping.len() ==> #[trigger] x.mapping[i].0 < x.next
    &&& x.next >= 2
    &&& index_map(x).contains_key(ROOT_INODE)
    &&& forall|ino: u64| #[trigger]
        index_map(x).contains_key(ino) ==> record_ok(index_map(x)[ino], m)
    &&& dec_record(m[index_map(x)[ROOT_INODE]]).unwrap() is Directory
    &&& topology_ok(x, m)
}

/// The index snapshot the root hash addresses, if it resolves.
pub open spec fn state_index(m: Map<Seq<u8>, Seq<u8>>, root: Seq<u8>) -> Option<IndexV> {
    if m.contains_key(root) {
        dec_index(m[root])
    } else {
        None
    }
}

/// Well-formedness of a whole state: the root resolves to an index snapshot
/// that is well-formed over the store. This is the no-dangling-hash
/// invariant every operation preserves.
pub open spec fn state_wf(m: Map<Seq<u8>, Seq<u8>>, root: Seq<u8>) -> bool {
    &&& state_index(m, root) is Some
    &&& index_ok(state_index(m, root).unwrap(), m)
}

/// The filesystem engine: the root reference and the accounting store.
#[derive(Debug)]
pub struct BridgeFS<IndexHashT: TypedHashPointerReference<INodeIndex>, StoreT: ContentStore> {
    index_hash: IndexHashT,
    store: CountingStore<StoreT>,
}

impl<IndexHashT: TypedHashPointerReference<INodeIndex>, StoreT: ContentStore> BridgeFS<
    IndexHashT,
    StoreT,
> {
    /// The blobs currently stored, keyed by hash bytes.
    pub closed spec fn contents(&self) -> Map<Seq<u8>, Seq<u8>> {
        self.store.contents()
    }

    /// The bytes of the current root hash.
    pub closed spec fn root(&self) -> Seq<u8> {
        self.index_hash.pointer()
    }

    /// The reference counts currently held.
    pub closed spec fn refs(&self) -> Map<Seq<u8>, u64> {
        self.store.refs()
    }

    pub closed spec fn store_inv(&self) -> bool {
        self.store.inv()
    }

    /// The engine's invariant: the backing store is well-formed and the
    /// current root resolves to a well-formed snapshot.
    pub open spec fn inv(&self) -> bool {
        &&& self.store_inv()
        &&& state_wf(self.contents(), self.root())
    }

    /// The current index snapshot.
    pub open spec fn fs_index(&self) -> IndexV {
        state_index(self.contents(), self.root()).unwrap()
    }

    /// Whether an inode is currently mapped.
    pub open spec fn has_inode(&self, ino: u64) -> bool {
        index_map(self.fs_index()).contains_key(ino)
    }

    /// The record an inode currently resolves to.
    pub open spec fn fs_record(&self, ino: u64) -> Option<RecordV> {
        let x = self.fs_index();
        if index_map(x).contains_key(ino) && self.contents().contains_key(index_map(x)[ino]) {
            dec_record(self.contents()[index_map(x)[ino]])
        } else {
            None
        }
    }

    /// The payload bytes of the file an inode currently resolves to.
    pub open spec fn fs_content(&self, ino: u64) -> Option<Seq<u8>> {
        match self.fs_record(ino) {
            Some(RecordV::File(f)) => if self.contents().contains_key(f.content_hash) {
                dec_block(self.contents()[f.content_hash])
            } else {
                None
            },
            _ => None,
        }
    }

    /// Whether two engine values hold the very same state.
    pub open spec fn unchanged_from(&self, other: &Self) -> bool {
        &&& self.contents() == other.contents()
        &&& self.root() == other.root()
        &&& self.refs() == other.refs()
    }

    /// What resolving an inode as a directory yields: the directory, or the
    /// error the engine owes.
    pub open spec fn dir_check(&self, ino: u64) -> Result<DirV, FileOperationError> {
        match self.fs_record(ino) {
            None => Err(FileOperationError::NotFound),
            Some(RecordV::File(_)) => Err(FileOperationError::NotADirectory),
            Some(RecordV::Directory(d)) => Ok(d),
        }
    }

    /// What resolving an inode as a file yields.
    pub open spec fn file_check(&self, ino: u64) -> Result<FileV, FileOperationError> {
        match self.fs_record(ino) {
            None => Err(FileOperationError::NotFound),
            Some(RecordV::Directory(_)) => Err(FileOperationError::IsADirectory),
            Some(RecordV::File(f)) => Ok(f),
        }
    }

    /// What resolving a name under a parent yields: the child inode, or the
    /// error the engine owes. Under the invariant a present name always
    /// resolves: its child inode is mapped.
    pub open spec fn name_check(&self, parent: u64, name: Seq<u8>) -> Result<
        u64,
        FileOperationError,
    > {
        match self.dir_check(parent) {
            Err(e) => Err(e),
            Ok(d) => if !assoc_map(d.children).contains_key(name) {
                Err(FileOperationError::NotFound)
            } else {
                Ok(assoc_map(d.children)[name])
            },
        }
    }

    pub fn new(index_hash: IndexHashT, store: StoreT) -> (r: Self)
        ensures
            r.contents() == store.contents(),
            r.root() == index_hash.pointer(),
            r.refs() == Map::<Seq<u8>, u64>::empty(),
            store.inv() && state_wf(store.contents(), index_hash.pointer()) ==> r.inv(),
    {
        let store = CountingStore::new(store, Manifest::default());
        BridgeFS { index_hash, store }
    }

    /// Loads the current root hash and decodes the index snapshot.
    pub fn get_index(&mut self) -> (r: (TypedHashPointer<INodeIndex>, INodeIndex))
        requires
            old(self).inv(),
        ensures
            final(self).inv(),
            final(self).unchanged_from(old(self)),
            r.0@ == old(self).root(),
            r.1@ == old(self).fs_index(),
            r.1.wf(),
    {
        let index_hash = self.index_hash.get_typed();
        match self.store.get_index(&index_hash) {
            Ok(inode_index) => {
                proof {
                    assert(inode_index@ == self.fs_index());
                    assert(assoc_distinct(inode_index.mapping_view()));
                }
                (index_hash, inode_index)
            },
            Err(_) => {
                proof {
                    assert(false);
                }
                vstd::pervasive::unreached()
            },
        }
    }

    /// Resolves an inode to its record hash and decoded record.
    pub fn get_record_by_inode(&mut self, inode: INode) -> (r: Option<
        (TypedHashPointer<Record>, Record),
    >)
        requires
            old(self).inv(),
        ensures
            final(self).inv(),
            final(self).unchanged_from(old(self)),
            match r {
                Some((h, v)) => old(self).has_inode(inode@) && h@ == index_map(
                    old(self).fs_index(),
                )[inode@] && Some(v@) == old(self).fs_record(inode@),
                None => !old(self).has_inode(inode@),
            },
    {
        let (_, index) = self.get_index();
        let record_hash = match index.lookup_inode(&inode) {
            Some(h) => h.clone(),
            None => {
                return None;
            },
        };
        match self.store.get_record(&record_hash) {
            Ok(record) => Some((record_hash, record)),
            Err(_) => {
                proof {
                    assert(record_ok(record_hash@, self.contents()));
                    assert(false);
                }
                vstd::pervasive::unreached()
            },
        }
    }

    /// Resolves an inode to its record; absent inodes are NotFound.
    pub fn lookup_record_by_inode(&mut self, inode: INode) -> (r: Result<
        INodeResponse<Record, Record>,
        FileOperationError,
    >)
        requires
            old(self).inv(),
        ensures
            final(self).inv(),
            final(self).unchanged_from(old(self)),
            match r {
                Ok(resp) => old(self).has_inode(inode@) && Some(resp.inner@) == old(
                    self,
                ).fs_record(inode@) && resp.inode == inode && resp.source@ == index_map(
                    old(self).fs_index(),
                )[inode@],
                Err(e) => e == FileOperationError::NotFound && !old(self).has_inode(inode@),
            },
    {
        match self.get_record_by_inode(inode) {
            Some((source, inner)) => Ok(INodeResponse::new(inner, inode, source)),
            None => Err(FileOperationError::NotFound),
        }
    }

    /// Resolves an inode that must name a file.
    pub fn lookup_file_by_inode(&mut self, inode: INode) -> (r: Result<
        INodeResponse<FileRecord, Record>,
        FileOperationError,
    >)
        requires
            old(self).inv(),
        ensures
            final(self).inv(),
            final(self).unchanged_from(old(self)),
            match r {
                Ok(resp) => old(self).file_check(inode@) == Ok::<FileV, FileOperationError>(
                    resp.inner@,
                ) && resp.inode == inode && resp.source@ == index_map(
                    old(self).fs_index(),
                )[inode@],
                Err(e) => old(self).file_check(inode@) == Err::<FileV, FileOperationError>(e),
            },
    {
        let record = self.lookup_record_by_inode(inode)?;
        match record.inner {
            Record::File(file) => Ok(INodeResponse::new(file, record.inode, record.source)),
            _ => Err(FileOperationError::IsADirectory),
        }
    }

    /// Resolves an inode that must name a directory.
    pub fn lookup_directory_by_inode(&mut self, inode: INode) -> (r: Result<
        INodeResponse<DirectoryRecord, Record>,
        FileOperationError,
    >)
        requires
            old(self).inv(),
        ensures
            final(self).inv(),
            final(self).unchanged_from(old(self)),
            match r {
                Ok(resp) => old(self).dir_check(inode@) == Ok::<DirV, FileOperationError>(
                    resp.inner@,
                ) && resp.inode == inode && resp.source@ == index_map(
                    old(self).fs_index(),
                )[inode@] && resp.inner.wf(),
                Err(e) => old(self).dir_check(inode@) == Err::<DirV, FileOperationError>(e),
            },
    {
        let record = self.lookup_record_by_inode(inode)?;
        match record.inner {
            Record::Directory(directory) => {
                proof {
                    assert(record_ok(index_map(old(self).fs_index())[inode@], self.contents()));
                }
                Ok(INodeResponse::new(directory, record.inode, record.source))
            },
            _ => Err(FileOperationError::NotADirectory),
        }
    }

    /// Resolves a name under a parent directory to the child's record.
    pub fn lookup_record_by_name(&mut self, parent: INode, name: &Filename) -> (r: Result<
        INodeResponse<Record, Record>,
        FileOperationError,
    >)
        requires
            old(self).inv(),
        ensures
            final(self).inv(),
            final(self).unchanged_from(old(self)),
            match r {
                Ok(resp) => old(self).name_check(parent@, name@) == Ok::<u64, FileOperationError>(
                    resp.inode@,
                ) && Some(resp.inner@) == old(self).fs_record(resp.inode@) && resp.source@
                    == index_map(old(self).fs_index())[resp.inode@],
                Err(e) => old(self).name_check(parent@, name@) == Err::<u64, FileOperationError>(
                    e,
                ),
            },
    {
        let parent_resp = self.lookup_directory_by_inode(parent)?;
        match parent_resp.inner.get(name) {
            Some(inode) => {
                let child = *inode;
                proof {
                    let x = old(self).fs_index();
                    let m = old(self).contents();
                    assert(dir_shape(x, m, parent@) == Some(
                        (assoc_map(parent_resp.inner@.children), parent_resp.inner@.parent),
                    ));
                    assert(dir_shape(x, m, parent@).unwrap().0.contains_key(name@));
                    assert(old(self).has_inode(child@));
                }
                self.lookup_record_by_inode(child)
            },
            None => Err(FileOperationError::NotFound),
        }
    }

    /// Resolves a name that must lead to a directory.
    pub fn lookup_directory_by_name(&mut self, parent: INode, name: &Filename) -> (r: Result<
        INodeResponse<DirectoryRecord, Record>,
        FileOperationError,
    >)
        requires
            old(self).inv(),
        ensures
            final(self).inv(),
            final(self).unchanged_from(old(self)),
            match r {
                Ok(resp) => old(self).name_check(parent@, name@) == Ok::<u64, FileOperationError>(
                    resp.inode@,
                ) && old(self).fs_record(resp.inode@) == Some(RecordV::Directory(resp.inner@))
                    && resp.source@ == index_map(old(self).fs_index())[resp.inode@]
                    && resp.inner.wf(),
                Err(e) => match old(self).name_check(parent@, name@) {
                    Err(e2) => e == e2,
                    Ok(child) => e == FileOperationError::NotADirectory && old(self).fs_record(
                        child,
                    ) matches Some(RecordV::File(_)),
                },
            },
    {
        let record = self.lookup_record_by_name(parent, name)?;
        match record.inner {
            Record::Directory(directory) => {
                proof {
                    assert(record_ok(index_map(old(self).fs_index())[record.inode@], self.contents()));
                }
                Ok(INodeResponse::new(directory, record.inode, record.source))
            },
            _ => Err(FileOperationError::NotADirectory),
        }
    }

    /// Resolves a name that must lead to a file.
    pub fn lookup_file_by_name(&mut self, parent: INode, name: &Filename) -> (r: Result<
        INodeResponse<FileRecord, Record>,
        FileOperationError,
    >)
        requires
            old(self).inv(),
        ensures
            final(self).inv(),
            final(self).unchanged_from(old(self)),
            match r {
                Ok(resp) => old(self).name_check(parent@, name@) == Ok::<u64, FileOperationError>(
                    resp.inode@,
                ) && old(self).fs_record(resp.inode@) == Some(RecordV::File(resp.inner@))
                    && resp.source@ == index_map(old(self).fs_index())[resp.inode@],
                Err(e) => match old(self).name_check(parent@, name@) {
                    Err(e2) => e == e2,
                    Ok(child) => e == FileOperationError::IsADirectory && old(self).fs_record(
                        child,
                    ) matches Some(RecordV::Directory(_)),
                },
            },
    {
        let record = self.lookup_record_by_name(parent, name)?;
        match record.inner {
            Record::File(file) => Ok(INodeResponse::new(file, record.inode, record.source)),
            _ => Err(FileOperationError::IsADirectory),
        }
    }

    /// Reads up to `size` bytes of a file from `offset`, clamped to the
    /// payload's end; reads past the end yield empty bytes.
    pub fn read_file_data_by_inode(&mut self, inode: INode, offset: usize, size: usize) -> (r:
        Result<ReadFileResponse, FileOperationError>)
        requires
            old(self).inv(),
        ensures
            final(self).inv(),
            final(self).unchanged_from(old(self)),
            match r {
                Ok(resp) => old(self).file_check(inode@) == Ok::<FileV, FileOperationError>(
                    resp.file.inner@,
                ) && resp.file.inode == inode && resp.datablock@ == read_slice(
                    old(self).fs_content(inode@).unwrap(),
                    offset as int,
                    size as int,
                ),
                Err(e) => old(self).file_check(inode@) == Err::<FileV, FileOperationError>(e),
            },
    {
        let file = self.lookup_file_by_inode(inode)?;
        let data = match self.store.get_block(&file.inner.content_hash) {
            Ok(d) => d,
            Err(_) => {
                proof {
                    assert(record_ok(index_map(old(self).fs_index())[inode@], self.contents()));
                    assert(false);
                }
                vstd::pervasive::unreached()
            },
        };
        let data_len = data.len();
        let start = offset;
        if start >= data_len {
            return Ok(ReadFileResponse { file, datablock: DataBlock::default() });
        }
        let end = if size < data_len - start {
            start + size
        } else {
            data_len
        };
        let bytes = slice_to_vec(slice_subrange(data.data.as_slice(), start, end));
        Ok(ReadFileResponse { file, datablock: DataBlock::new(bytes) })
    }

    /// Lists a directory: one entry per child in listing order, then "."
    /// bound to the directory itself and ".." bound to its parent's record.
    pub fn list_directory_by_inode(&mut self, inode: INode) -> (r: Result<
        ListDirectoryResponse,
        FileOperationError,
    >)
        requires
            old(self).inv(),
        ensures
            final(self).inv(),
            final(self).unchanged_from(old(self)),
            match r {
                Ok(resp) => {
                    let d = old(self).dir_check(inode@).unwrap();
                    let n = d.children.len() as int;
                    &&& old(self).dir_check(inode@) is Ok
                    &&& resp.directory.inner@ == d
                    &&& resp.directory.inode == inode
                    &&& resp.entries@.len() == n + 2
                    &&& (forall|i: int|
                        0 <= i < n ==> #[trigger] resp.entries@[i].name@ == d.children[i].0
                            && resp.entries@[i].record.inode@ == d.children[i].1 && Some(
                            resp.entries@[i].record.inner@,
                        ) == old(self).fs_record(d.children[i].1))
                    &&& resp.entries@[n].name@ == seq![46u8]
                    &&& resp.entries@[n].record.inode == inode
                    &&& resp.entries@[n].record.inner@ == RecordV::Directory(d)
                    &&& resp.entries@[n + 1].name@ == seq![46u8, 46u8]
                    &&& resp.entries@[n + 1].record.inode@ == d.parent
                    &&& Some(resp.entries@[n + 1].record.inner@) == old(self).fs_record(d.parent)
                },
                Err(e) => old(self).dir_check(inode@) == Err::<DirV, FileOperationError>(e),
            },
    {
        let directory = self.lookup_directory_by_inode(inode)?;
        let ghost d = directory.inner@;
        let children = directory.inner.list_children();
        let mut entries: Vec<ListDirectoryEntry> = Vec::new();
        let n = children.len();
        let mut i: usize = 0;
        while i < n
            invariant
                0 <= i <= n,
                n == children@.len(),
                crate::file_record::entries_view(children@) == d.children,
                entries@.len() == i,
                forall|j: int|
                    0 <= j < i ==> #[trigger] entries@[j].name@ == d.children[j].0
                        && entries@[j].record.inode@ == d.children[j].1 && Some(
                        entries@[j].record.inner@,
                    ) == old(self).fs_record(d.children[j].1),
                self.inv(),
                self.unchanged_from(old(self)),
                old(self).inv(),
                old(self).dir_check(inode@) == Ok::<DirV, FileOperationError>(d),
                directory.inner@ == d,
                directory.inode == inode,
            decreases n - i,
        {
            let child_inode = children[i].inode;
            proof {
                assert(children@[i as int]@ == d.children[i as int]);
            }
            let record = match self.lookup_record_by_inode(child_inode) {
                Ok(rec) => rec,
                Err(e) => {
                    proof {
                        let x = old(self).fs_index();
                        let m = old(self).contents();
                        assert(dir_shape(x, m, inode@) == Some((assoc_map(d.children), d.parent)));
                        crate::assoc::lemma_assoc_index(d.children, i as int);
                        assert(dir_shape(x, m, inode@).unwrap().0.contains_key(
                            d.children[i as int].0,
                        ));
                        assert(old(self).has_inode(d.children[i as int].1));
                        assert(false);
                    }
                    vstd::pervasive::unreached()
                },
            };
            let name = children[i].name.clone();
            entries.push(ListDirectoryEntry { name, record });
            i += 1;
        }
        let inner_clone = directory.inner.clone();
        proof {
            assert(inner_clone@ == d);
        }
        let dot_record = INodeResponse::new(
            Record::Directory(inner_clone),
            directory.inode,
            directory.source.clone(),
        );
        entries.push(ListDirectoryEntry { name: Filename::from_bytes(vec![46u8]), record: dot_record });
        let parent_record = match self.lookup_record_by_inode(directory.inner.parent) {
            Ok(rec) => rec,
            Err(e) => {
                proof {
                    let x = old(self).fs_index();
                    let m = old(self).contents();
                    assert(dir_shape(x, m, inode@) == Some((assoc_map(d.children), d.parent)));
                    assert(dir_shape(x, m, d.parent) is Some);
                    assert(old(self).has_inode(d.parent));
                    assert(false);
                }
                vstd::pervasive::unreached()
            },
        };
        entries.push(
            ListDirectoryEntry { name: Filename::from_bytes(vec![46u8, 46u8]), record: parent_record },
        );
        proof {
            assert(seq![46u8].len() == 1);
            assert(seq![46u8, 46u8].len() == 2);
            assert(entries@[n as int].name@ =~= seq![46u8]);
            assert(entries@[n as int + 1].name@ =~= seq![46u8, 46u8]);
        }
        Ok(ListDirectoryResponse { directory, entries })
    }

    /// No dangling hashes: under the engine invariant, every record hash in
    /// the current snapshot resolves in the store and decodes, and every
    /// file's payload resolves to a block of exactly the file's size.
    pub proof fn lemma_no_dangling_hash(&self)
        requires
            self.inv(),
        ensures
            forall|ino: u64| #[trigger]
                self.has_inode(ino) ==> record_ok(index_map(self.fs_index())[ino], self.contents()),
            forall|ino: u64| #[trigger] self.has_inode(ino) ==> self.fs_record(ino) is Some,
            forall|ino: u64|
                match #[trigger] self.fs_record(ino) {
                    Some(RecordV::File(f)) => self.fs_content(ino) is Some && self.fs_content(
                        ino,
                    ).unwrap().len() == f.size,
                    _ => true,
                },
    {
        assert forall|ino: u64|
            match #[trigger] self.fs_record(ino) {
                Some(RecordV::File(f)) => self.fs_content(ino) is Some && self.fs_content(
                    ino,
                ).unwrap().len() == f.size,
                _ => true,
            } by {
            if self.fs_record(ino) is Some {
                assert(record_ok(index_map(self.fs_index())[ino], self.contents()));
            }
        }
    }

    /// Create-then-lookup: a successful creation binds the returned inode to
    /// exactly the created record, so a lookup of that inode in the resulting
    /// state returns it, variant check included.
    pub proof fn lemma_create_then_lookup(&self, ino: u64, r: RecordV)
        requires
            self.inv(),
            self.fs_record(ino) == Some(r),
        ensures
            match r {
                RecordV::File(f) => self.file_check(ino) == Ok::<FileV, FileOperationError>(f),
                RecordV::Directory(d) => self.dir_check(ino) == Ok::<DirV, FileOperationError>(d),
            },
    {
    }

    /// The allocation counter of the current snapshot: the number the next
    /// creation would allocate. Lets unverified callers test the creates'
    /// machine-limit precondition.
    pub fn next_inode_number(&mut self) -> (r: u64)
        requires
            old(self).inv(),
        ensures
            final(self).inv(),
            final(self).unchanged_from(old(self)),
            r == old(self).fs_index().next,
    {
        let (_, index) = self.get_index();
        index.next_inode.get()
    }

    /// Two records of the same variant whose tree structure agrees: a rebind
    /// that satisfies this cannot change what the directory tree looks like.
    pub open spec fn same_shape(a: RecordV, b: RecordV) -> bool {
        match (a, b) {
            (RecordV::File(_), RecordV::File(_)) => true,
            (RecordV::Directory(da), RecordV::Directory(db)) => assoc_map(da.children)
                == assoc_map(db.children) && da.parent == db.parent,
            _ => false,
        }
    }

    /// Whether a record may be bound under an inode without breaking the
    /// invariant: a file's payload already resolves; a directory's names are
    /// distinct and never list the root.
    pub open spec fn record_fits(&self, r: RecordV) -> bool {
        match r {
            RecordV::File(f) => file_ok(f, self.contents()),
            RecordV::Directory(d) => assoc_distinct(d.children) && (forall|i: int|
                0 <= i < d.children.len() ==> #[trigger] d.children[i].1 != ROOT_INODE),
        }
    }

    /// The tree two states agree on: the same snapshot, records and file
    /// payloads. A failed rewrite leaves at most orphan blobs behind.
    pub open spec fn same_tree(&self, other: &Self) -> bool {
        &&& self.fs_index() == other.fs_index()
        &&& forall|ino: u64| #[trigger] self.fs_record(ino) == other.fs_record(ino)
        &&& forall|ino: u64| #[trigger] self.fs_content(ino) == other.fs_content(ino)
    }

    /// A directory with one more child bound at the end of its listing.
    pub open spec fn child_dir(d: DirV, name: Seq<u8>, ino: u64) -> DirV {
        DirV { children: d.children.push((name, ino)), attrs: d.attrs, parent: d.parent }
    }

    /// The snapshot after allocating a fresh inode and rebinding the parent.
    pub open spec fn add_child_index(x: IndexV, h_rec: Seq<u8>, parent: u64, h_par: Seq<u8>) -> IndexV {
        updated_index(
            IndexV { next: (x.next + 1) as u64, mapping: x.mapping.push((x.next, h_rec)) },
            parent,
            h_par,
        )
    }

    /// The blobs a child creation writes: the new record, the rewritten
    /// parent, and the new snapshot.
    pub open spec fn add_child_blobs(x: IndexV, d: DirV, parent: u64, name: Seq<u8>, r: RecordV) -> Seq<Seq<u8>> {
        let b1 = enc_record(r);
        let b2 = enc_record(RecordV::Directory(Self::child_dir(d, name, x.next)));
        let b3 = enc_index(Self::add_child_index(x, hash_of(b1), parent, hash_of(b2)));
        seq![b1, b2, b3]
    }

    /// Stores a new record, allocates it a fresh inode, binds the name in
    /// the parent directory, and advances the root: the shared creation path.
    pub fn add_child(&mut self, parent_inode: INode, filename: Filename, record: Record) -> (r:
        Result<(TypedHashPointer<Record>, INode), FileOperationError>)
        requires
            old(self).inv(),
            old(self).fs_index().next < u64::MAX,
            old(self).record_fits(record@),
            spec_valid_name(filename@),
            match record@ {
                RecordV::Directory(nd) => nd.children.len() == 0 && nd.parent == parent_inode@,
                RecordV::File(_) => true,
            },
        ensures
            final(self).inv(),
            match r {
                Ok((h, ino)) => {
                    let d = old(self).dir_check(parent_inode@).unwrap();
                    let d2 = Self::child_dir(d, filename@, ino@);
                    &&& old(self).dir_check(parent_inode@) is Ok
                    &&& !assoc_map(d.children).contains_key(filename@)
                    &&& !old(self).has_inode(ino@)
                    &&& ino@ == old(self).fs_index().next
                    &&& h@ == hash_of(enc_record(record@))
                    &&& final(self).fs_index() == Self::add_child_index(
                        old(self).fs_index(),
                        h@,
                        parent_inode@,
                        hash_of(enc_record(RecordV::Directory(d2))),
                    )
                    &&& final(self).fs_index().next == old(self).fs_index().next + 1
                    &&& index_map(final(self).fs_index()) == index_map(
                        old(self).fs_index(),
                    ).insert(ino@, h@).insert(
                        parent_inode@,
                        hash_of(enc_record(RecordV::Directory(d2))),
                    )
                    &&& final(self).fs_record(ino@) == Some(record@)
                    &&& final(self).fs_record(parent_inode@) == Some(RecordV::Directory(d2))
                    &&& (forall|i2: u64|
                        i2 != ino@ && i2 != parent_inode@ ==> #[trigger] final(self).fs_record(i2)
                            == old(self).fs_record(i2))
                    &&& (forall|i2: u64|
                        i2 != ino@ && i2 != parent_inode@ ==> #[trigger] final(self).fs_content(
                            i2,
                        ) == old(self).fs_content(i2))
                    &&& (match record@ {
                        RecordV::File(f) => final(self).fs_content(ino@) == dec_block(
                            old(self).contents()[f.content_hash],
                        ),
                        RecordV::Directory(_) => final(self).fs_content(ino@) is None,
                    })
                    &&& final(self).fs_content(parent_inode@) is None
                    &&& final(self).refs() == Self::add_child_refs(
                        old(self).refs(),
                        old(self).fs_index(),
                        old(self).root(),
                        parent_inode@,
                        d,
                        filename@,
                        record@,
                    )
                    &&& extends(old(self).contents(), final(self).contents())
                },
                Err(e) => {
                    &&& final(self).root() == old(self).root()
                    &&& ((e == FileOperationError::NotFound || e
                        == FileOperationError::NotADirectory) ==> final(self).unchanged_from(
                        old(self),
                    ) && old(self).dir_check(parent_inode@) == Err::<DirV, FileOperationError>(e))
                    &&& (e == FileOperationError::AlreadyExists ==> final(self).unchanged_from(
                        old(self),
                    ) && old(self).dir_check(parent_inode@) is Ok && assoc_map(
                        old(self).dir_check(parent_inode@).unwrap().children,
                    ).contains_key(filename@))
                    &&& (e == FileOperationError::CorruptBlob ==> final(self).same_tree(old(self))
                        && old(self).dir_check(parent_inode@) is Ok && !assoc_map(
                        old(self).dir_check(parent_inode@).unwrap().children,
                    ).contains_key(filename@) && !chain_clean(
                        old(self).contents(),
                        Self::add_child_blobs(
                            old(self).fs_index(),
                            old(self).dir_check(parent_inode@).unwrap(),
                            parent_inode@,
                            filename@,
                            record@,
                        ),
                    ))
                    &&& (e == FileOperationError::NotFound || e == FileOperationError::NotADirectory
                        || e == FileOperationError::AlreadyExists || e
                        == FileOperationError::CorruptBlob)
                },
            },
    {
        let ghost m0 = self.contents();
        let ghost x0 = self.fs_index();
        let ghost d = self.dir_check(parent_inode@).unwrap();
        let ghost blobs = Self::add_child_blobs(x0, d, parent_inode@, filename@, record@);
        let parent_resp = self.lookup_directory_by_inode(parent_inode)?;
        let mut parent_dir = parent_resp.inner;
        if parent_dir.get(&filename).is_some() {
            return Err(FileOperationError::AlreadyExists);
        }
        let (prev_index_hash, mut index) = self.get_index();
        proof {
            lemma_record_len_ok(&record);
        }
        let ghost b1 = enc_record(record@);
        let record_hash = match self.store.store_record(&record) {
            Ok(h) => h,
            Err(e) => {
                proof {
                    assert(blobs[0] == b1);
                    assert(!put_clean(m0, b1));
                    assert(self.unchanged_from(old(self)));
                }
                return Err(FileOperationError::CorruptBlob);
            },
        };
        let ghost m1 = self.contents();
        proof {
            assert(m1 == m0.insert(hash_of(b1), b1));
            lemma_extends_insert_clean(m0, b1);
        }
        let inode = index.insert_new_inode(record_hash.clone());
        parent_dir.insert(filename, inode);
        let new_parent_record = Record::Directory(parent_dir);
        let ghost d2 = Self::child_dir(d, filename@, inode@);
        proof {
            assert(new_parent_record@ == RecordV::Directory(d2));
            lemma_record_len_ok(&new_parent_record);
        }
        let ghost b2 = enc_record(RecordV::Directory(d2));
        proof {
            assert(record_ok(index_map(x0)[parent_inode@], m0));
            assert(m1[parent_resp.source@] == m0[parent_resp.source@]);
            assert(dec_record(m1[parent_resp.source@]) == Some(RecordV::Directory(d)));
        }
        let new_parent_hash = match self.store.replace_record(&parent_resp.source, &new_parent_record) {
            Ok(h) => h,
            Err(e) => {
                proof {
                    assert(e == FileOperationError::CorruptBlob);
                    assert(!put_clean(m1, b2));
                    assert(blobs[0] == b1);
                    assert(blobs.drop_first()[0] == b2);
                    assert(m0.insert(hash_of(blobs[0]), blobs[0]) == m1);
                    assert(chain_clean(m1, blobs.drop_first()) ==> put_clean(m1, b2));
                    assert(!chain_clean(m0, blobs));
                    self.lemma_same_tree_extends(old(self), m0, x0);
                }
                return Err(FileOperationError::CorruptBlob);
            },
        };
        let ghost m2 = self.contents();
        proof {
            assert(m2 == m1.insert(hash_of(b2), b2));
            lemma_extends_insert_clean(m1, b2);
        }
        let updated = index.update_inode(parent_inode, new_parent_hash.clone());
        proof {
            assert(index_map(x0).contains_key(parent_inode@));
            assert(updated);
            assert(index@ == Self::add_child_index(x0, hash_of(b1), parent_inode@, hash_of(b2)));
            lemma_index_len_ok(&index);
        }
        let ghost b3 = enc_index(index@);
        let new_index_hash = match self.store.replace_index(&prev_index_hash, &index) {
            Ok(h) => h,
            Err(e) => {
                proof {
                    assert(e == FileOperationError::CorruptBlob);
                    assert(!put_clean(m2, b3));
                    assert(blobs[0] == b1);
                    assert(blobs.drop_first()[0] == b2);
                    assert(blobs.drop_first().drop_first()[0] == b3);
                    assert(m0.insert(hash_of(blobs[0]), blobs[0]) == m1);
                    assert(m1.insert(hash_of(blobs.drop_first()[0]), blobs.drop_first()[0]) == m2);
                    assert(chain_clean(m2, blobs.drop_first().drop_first()) ==> put_clean(m2, b3));
                    assert(chain_clean(m1, blobs.drop_first()) ==> chain_clean(
                        m2,
                        blobs.drop_first().drop_first(),
                    ));
                    assert(!chain_clean(m0, blobs));
                    assert(extends(m0, m2));
                    self.lemma_same_tree_extends(old(self), m0, x0);
                }
                return Err(FileOperationError::CorruptBlob);
            },
        };
        let ghost m3 = self.contents();
        proof {
            assert(m3 == m2.insert(hash_of(b3), b3));
            lemma_extends_insert_clean(m2, b3);
        }
        self.index_hash.set_typed(&new_index_hash);
        proof {
            self.lemma_add_commit(old(self), parent_inode@, filename@, &record, inode@, m0, x0, d, m1, m2, m3);
        }
        Ok((record_hash, inode))
    }

    /// A state whose store only grew, with the same root, shows the same
    /// tree.
    proof fn lemma_same_tree_extends(&self, prev: &Self, m0: Map<Seq<u8>, Seq<u8>>, x0: IndexV)
        requires
            prev.inv(),
            prev.contents() == m0,
            prev.fs_index() == x0,
            self.root() == prev.root(),
            extends(m0, self.contents()),
        ensures
            self.same_tree(prev),
            self.inv() <== self.store_inv(),
    {
        assert(m0.contains_key(prev.root()));
        assert(self.contents()[prev.root()] == m0[prev.root()]);
        assert(self.fs_index() == x0);
        assert forall|ino: u64| #[trigger] self.fs_record(ino) == prev.fs_record(ino) by {
            if index_map(x0).contains_key(ino) {
                assert(record_ok(index_map(x0)[ino], m0));
                assert(self.contents()[index_map(x0)[ino]] == m0[index_map(x0)[ino]]);
            }
        }
        assert forall|ino: u64| #[trigger] self.fs_content(ino) == prev.fs_content(ino) by {
            if prev.fs_record(ino) is Some {
                match prev.fs_record(ino).unwrap() {
                    RecordV::File(f) => {
                        assert(record_ok(index_map(x0)[ino], m0));
                        assert(m0.contains_key(f.content_hash));
                        assert(self.contents()[f.content_hash] == m0[f.content_hash]);
                    },
                    RecordV::Directory(_) => {
                    },
                }
            }
        }
        assert forall|ino: u64| #[trigger]
            index_map(x0).contains_key(ino) implies record_ok(index_map(x0)[ino], self.contents()) by {
            lemma_record_ok_mono(index_map(x0)[ino], m0, self.contents());
        }
        assert forall|ino: u64| #[trigger] dir_shape(x0, self.contents(), ino) == dir_shape(
            x0,
            m0,
            ino,
        ) by {
            if index_map(x0).contains_key(ino) {
                assert(record_ok(index_map(x0)[ino], m0));
                assert(self.contents()[index_map(x0)[ino]] == m0[index_map(x0)[ino]]);
            }
        }
        if self.store_inv() {
            lemma_topology_pointwise(x0, m0, x0, self.contents());
        }
    }

    /// The closing argument of a child creation: the committed state is
    /// well-formed and holds exactly the grown tree.
    proof fn lemma_add_commit(
        &self,
        prev: &Self,
        parent: u64,
        name: Seq<u8>,
        record: &Record,
        ino: u64,
        m0: Map<Seq<u8>, Seq<u8>>,
        x0: IndexV,
        d: DirV,
        m1: Map<Seq<u8>, Seq<u8>>,
        m2: Map<Seq<u8>, Seq<u8>>,
        m3: Map<Seq<u8>, Seq<u8>>,
    )
        requires
            self.store_inv(),
            prev.inv(),
            prev.contents() == m0,
            prev.fs_index() == x0,
            prev.dir_check(parent) == Ok::<DirV, FileOperationError>(d),
            prev.record_fits(record@),
            !assoc_map(d.children).contains_key(name),
            ino == x0.next,
            x0.next < u64::MAX,
            put_clean(m0, enc_record(record@)),
            m1 == m0.insert(hash_of(enc_record(record@)), enc_record(record@)),
            put_clean(m1, enc_record(RecordV::Directory(Self::child_dir(d, name, ino)))),
            m2 == m1.insert(
                hash_of(enc_record(RecordV::Directory(Self::child_dir(d, name, ino)))),
                enc_record(RecordV::Directory(Self::child_dir(d, name, ino))),
            ),
            put_clean(
                m2,
                enc_index(
                    Self::add_child_index(
                        x0,
                        hash_of(enc_record(record@)),
                        parent,
                        hash_of(enc_record(RecordV::Directory(Self::child_dir(d, name, ino)))),
                    ),
                ),
            ),
            m3 == m2.insert(
                hash_of(
                    enc_index(
                        Self::add_child_index(
                            x0,
                            hash_of(enc_record(record@)),
                            parent,
                            hash_of(enc_record(RecordV::Directory(Self::child_dir(d, name, ino)))),
                        ),
                    ),
                ),
                enc_index(
                    Self::add_child_index(
                        x0,
                        hash_of(enc_record(record@)),
                        parent,
                        hash_of(enc_record(RecordV::Directory(Self::child_dir(d, name, ino)))),
                    ),
                ),
            ),
            self.contents() == m3,
            self.root() == hash_of(
                enc_index(
                    Self::add_child_index(
                        x0,
                        hash_of(enc_record(record@)),
                        parent,
                        hash_of(enc_record(RecordV::Directory(Self::child_dir(d, name, ino)))),
                    ),
                ),
            ),
            assoc_distinct(
                Self::add_child_index(
                    x0,
                    hash_of(enc_record(record@)),
                    parent,
                    hash_of(enc_record(RecordV::Directory(Self::child_dir(d, name, ino)))),
                ).mapping,
            ),
            forall|i: int|
                0 <= i < Self::add_child_index(
                    x0,
                    hash_of(enc_record(record@)),
                    parent,
                    hash_of(enc_record(RecordV::Directory(Self::child_dir(d, name, ino)))),
                ).mapping.len() ==> #[trigger] Self::add_child_index(
                    x0,
                    hash_of(enc_record(record@)),
                    parent,
                    hash_of(enc_record(RecordV::Directory(Self::child_dir(d, name, ino)))),
                ).mapping[i].0 < Self::add_child_index(
                    x0,
                    hash_of(enc_record(record@)),
                    parent,
                    hash_of(enc_record(RecordV::Directory(Self::child_dir(d, name, ino)))),
                ).next,
            index_map(
                Self::add_child_index(
                    x0,
                    hash_of(enc_record(record@)),
                    parent,
                    hash_of(enc_record(RecordV::Directory(Self::child_dir(d, name, ino)))),
                ),
            ) == index_map(x0).insert(ino, hash_of(enc_record(record@))).insert(
                parent,
                hash_of(enc_record(RecordV::Directory(Self::child_dir(d, name, ino)))),
            ),
            index_len_ok_holds(
                Self::add_child_index(
                    x0,
                    hash_of(enc_record(record@)),
                    parent,
                    hash_of(enc_record(RecordV::Directory(Self::child_dir(d, name, ino)))),
                ),
            ),
            entries_distinct_of(Self::child_dir(d, name, ino)),
            !index_map(x0).contains_key(ino),
            crate::codec::record_len_ok(record@),
            crate::codec::record_len_ok(RecordV::Directory(Self::child_dir(d, name, ino))),
            match record@ {
                RecordV::Directory(nd) => nd.children.len() == 0 && nd.parent == parent,
                RecordV::File(_) => true,
            },
        ensures
            self.inv(),
            self.fs_index() == Self::add_child_index(
                x0,
                hash_of(enc_record(record@)),
                parent,
                hash_of(enc_record(RecordV::Directory(Self::child_dir(d, name, ino)))),
            ),
            self.fs_record(ino) == Some(record@),
            self.fs_record(parent) == Some(RecordV::Directory(Self::child_dir(d, name, ino))),
            forall|i2: u64|
                i2 != ino && i2 != parent ==> #[trigger] self.fs_record(i2) == prev.fs_record(i2),
            forall|i2: u64|
                i2 != ino && i2 != parent ==> #[trigger] self.fs_content(i2) == prev.fs_content(
                    i2,
                ),
            match record@ {
                RecordV::File(f) => self.fs_content(ino) == dec_block(m0[f.content_hash]),
                RecordV::Directory(_) => self.fs_content(ino) is None,
            },
            self.fs_content(parent) is None,
            extends(m0, m3),
    {
        let b1 = enc_record(record@);
        let h1 = hash_of(b1);
        let d2 = Self::child_dir(d, name, ino);
        let b2 = enc_record(RecordV::Directory(d2));
        let h2 = hash_of(b2);
        let x2 = Self::add_child_index(x0, h1, parent, h2);
        let b3 = enc_index(x2);
        let h3 = hash_of(b3);
        lemma_extends_insert_clean(m0, b1);
        lemma_extends_insert_clean(m1, b2);
        lemma_extends_insert_clean(m2, b3);
        lemma_record_round_trip(record@);
        lemma_record_round_trip(RecordV::Directory(d2));
        lemma_index_round_trip(x2);
        assert(m3.contains_key(h3) && m3[h3] == b3);
        assert(dec_index(b3) == Some(x2));
        assert(state_index(m3, self.root()) == Some(x2));
        assert(m1.contains_key(h1) && m1[h1] == b1);
        assert(m3.contains_key(h1) && m3[h1] == b1);
        assert(m2.contains_key(h2) && m2[h2] == b2);
        assert(m3.contains_key(h2) && m3[h2] == b2);
        // the root stays a directory
        assert(index_map(x2).contains_key(ROOT_INODE));
        assert(ino != ROOT_INODE);
        // every mapped inode resolves
        assert forall|i2: u64| #[trigger]
            index_map(x2).contains_key(i2) implies record_ok(index_map(x2)[i2], m3) by {
            if i2 == parent {
                assert(forall|i: int|
                    0 <= i < d2.children.len() ==> #[trigger] d2.children[i].1 != ROOT_INODE) by {
                    assert(record_ok(index_map(x0)[parent], m0));
                    assert(forall|i: int|
                        0 <= i < d.children.len() ==> #[trigger] d.children[i].1 != ROOT_INODE);
                    assert(forall|i: int|
                        0 <= i < d.children.len() ==> d2.children[i] == d.children[i]);
                    assert(d2.children[d.children.len() as int].1 == ino);
                }
                assert(record_ok(h2, m3));
            } else if i2 == ino {
                match record@ {
                    RecordV::File(f) => {
                        assert(m0.contains_key(f.content_hash));
                        assert(m3[f.content_hash] == m0[f.content_hash]);
                    },
                    RecordV::Directory(_) => {
                    },
                }
            } else {
                assert(index_map(x0).contains_key(i2));
                assert(record_ok(index_map(x0)[i2], m0));
                lemma_record_ok_mono(index_map(x0)[i2], m0, m3);
            }
        }
        if parent == ROOT_INODE {
            assert(dec_record(m3[index_map(x2)[ROOT_INODE]]).unwrap() is Directory);
        } else {
            assert(index_map(x2)[ROOT_INODE] == index_map(x0)[ROOT_INODE]);
            assert(record_ok(index_map(x0)[ROOT_INODE], m0));
            assert(m3[index_map(x0)[ROOT_INODE]] == m0[index_map(x0)[ROOT_INODE]]);
        }
        // tree structure: the parent gains one slot bound to the fresh inode;
        // the new record lists nothing; everything else keeps its shape
        assert(record_ok(index_map(x0)[parent], m0));
        crate::assoc::lemma_assoc_push_fresh(d.children, name, ino);
        let pm_old = assoc_map(d.children);
        let pm_new = pm_old.insert(name, ino);
        assert(assoc_map(d2.children) == pm_new);
        assert(dir_shape(x0, m0, parent) == Some((pm_old, d.parent)));
        assert(dir_shape(x2, m3, parent) == Some((pm_new, d.parent)));
        assert forall|i: u64| i != ino && i != parent implies #[trigger] dir_shape(x2, m3, i)
            == dir_shape(x0, m0, i) by {
            if index_map(x0).contains_key(i) {
                assert(record_ok(index_map(x0)[i], m0));
                assert(m3[index_map(x0)[i]] == m0[index_map(x0)[i]]);
            }
        }
        match record@ {
            RecordV::Directory(nd) => {
                assert(nd.children =~= Seq::<(Seq<u8>, u64)>::empty());
                assert(assoc_map(nd.children) =~= Map::<Seq<u8>, u64>::empty());
                assert(dir_shape(x2, m3, ino) == Some((Map::<Seq<u8>, u64>::empty(), parent)));
            },
            RecordV::File(_) => {
                assert(dir_shape(x2, m3, ino) is None);
            },
        }
        assert(forall|i: u64| #[trigger]
            index_map(x2).contains_key(i) == (index_map(x0).contains_key(i) || i == ino));
        // every slot of the new tree either existed before or is the new one
        assert forall|i: u64, n: Seq<u8>|
            dir_shape(x2, m3, i) is Some && #[trigger] dir_shape(x2, m3, i).unwrap().0.contains_key(
                n,
            ) implies (if i == parent && n == name {
            dir_shape(x2, m3, i).unwrap().0[n] == ino
        } else {
            dir_shape(x0, m0, i) is Some && dir_shape(x0, m0, i).unwrap().0.contains_key(n)
                && dir_shape(x0, m0, i).unwrap().0[n] == dir_shape(x2, m3, i).unwrap().0[n]
                && index_map(x0).contains_key(dir_shape(x2, m3, i).unwrap().0[n])
        }) by {
            if i == ino {
                assert(!dir_shape(x2, m3, i).unwrap().0.contains_key(n));
            } else if i == parent {
                if n != name {
                    assert(pm_new[n] == pm_old[n]);
                }
            }
        }
        // children resolve
        assert forall|i: u64, n: Seq<u8>|
            dir_shape(x2, m3, i) is Some && #[trigger] dir_shape(x2, m3, i).unwrap().0.contains_key(
                n,
            ) implies index_map(x2).contains_key(dir_shape(x2, m3, i).unwrap().0[n]) by {
            if i == parent && n == name {
            } else {
                assert(index_map(x0).contains_key(dir_shape(x2, m3, i).unwrap().0[n]));
            }
        }
        // parents stay directories
        assert forall|i: u64| #[trigger] dir_shape(x2, m3, i) is Some implies dir_shape(
            x2,
            m3,
            dir_shape(x2, m3, i).unwrap().1,
        ) is Some by {
            if i == ino {
                assert(dir_shape(x2, m3, parent) is Some);
            } else {
                assert(dir_shape(x0, m0, i) is Some);
                let pf = dir_shape(x0, m0, i).unwrap().1;
                assert(dir_shape(x0, m0, pf) is Some);
                assert(pf != ino);
                if pf == parent {
                } else {
                    assert(dir_shape(x2, m3, pf) == dir_shape(x0, m0, pf));
                }
            }
        }
        // no inode gains a second slot
        assert forall|i1: u64, n1: Seq<u8>, i2: u64, n2: Seq<u8>|
            dir_shape(x2, m3, i1) is Some && dir_shape(x2, m3, i2) is Some && #[trigger] dir_shape(
                x2,
                m3,
                i1,
            ).unwrap().0.contains_key(n1) && #[trigger] dir_shape(x2, m3, i2).unwrap().0.contains_key(
                n2,
            ) && dir_shape(x2, m3, i1).unwrap().0[n1] == dir_shape(x2, m3, i2).unwrap().0[n2]
            implies i1 == i2 && n1 == n2 by {
            let v = dir_shape(x2, m3, i1).unwrap().0[n1];
            if i1 == parent && n1 == name {
                if !(i2 == parent && n2 == name) {
                    assert(index_map(x0).contains_key(dir_shape(x2, m3, i2).unwrap().0[n2]));
                    assert(false);
                }
            } else {
                assert(index_map(x0).contains_key(v));
                if i2 == parent && n2 == name {
                    assert(false);
                } else {
                    assert(dir_shape(x0, m0, i1).unwrap().0.contains_key(n1));
                    assert(dir_shape(x0, m0, i2).unwrap().0.contains_key(n2));
                }
            }
        }
        // every directory but the root is listed by its parent
        assert forall|i: u64| #[trigger]
            dir_shape(x2, m3, i) is Some && i != ROOT_INODE implies exists|n: Seq<u8>|
            #[trigger] dir_shape(x2, m3, dir_shape(x2, m3, i).unwrap().1).unwrap().0.contains_key(n)
                && dir_shape(x2, m3, dir_shape(x2, m3, i).unwrap().1).unwrap().0[n] == i by {
            if i == ino {
                assert(dir_shape(x2, m3, i).unwrap().1 == parent);
                assert(dir_shape(x2, m3, dir_shape(x2, m3, i).unwrap().1).unwrap().0.contains_key(
                    name,
                ) && dir_shape(x2, m3, dir_shape(x2, m3, i).unwrap().1).unwrap().0[name] == i);
            } else {
                assert(dir_shape(x0, m0, i) is Some);
                let pf = dir_shape(x0, m0, i).unwrap().1;
                assert(dir_shape(x2, m3, i).unwrap().1 == pf);
                let n0 = choose|n: Seq<u8>|
                    #[trigger] dir_shape(x0, m0, pf).unwrap().0.contains_key(n) && dir_shape(
                        x0,
                        m0,
                        pf,
                    ).unwrap().0[n] == i;
                assert(pf != ino);
                if pf == parent {
                    assert(n0 != name);
                    assert(pm_new.contains_key(n0) && pm_new[n0] == i);
                } else {
                    assert(dir_shape(x2, m3, pf) == dir_shape(x0, m0, pf));
                }
                assert(dir_shape(x2, m3, dir_shape(x2, m3, i).unwrap().1).unwrap().0.contains_key(
                    n0,
                ) && dir_shape(x2, m3, dir_shape(x2, m3, i).unwrap().1).unwrap().0[n0] == i);
            }
        }
        assert(topology_ok(x2, m3));
        assert(index_ok(x2, m3));
        assert(self.fs_record(ino) == Some(record@));
        assert(self.fs_record(parent) == Some(RecordV::Directory(d2)));
        assert forall|i2: u64| i2 != ino && i2 != parent implies #[trigger] self.fs_record(i2)
            == prev.fs_record(i2) by {
            if index_map(x0).contains_key(i2) {
                assert(record_ok(index_map(x0)[i2], m0));
                assert(m3[index_map(x0)[i2]] == m0[index_map(x0)[i2]]);
            }
        }
        assert forall|i2: u64| i2 != ino && i2 != parent implies #[trigger] self.fs_content(i2)
            == prev.fs_content(i2) by {
            if prev.fs_record(i2) is Some {
                match prev.fs_record(i2).unwrap() {
                    RecordV::File(f) => {
                        assert(record_ok(index_map(x0)[i2], m0));
                        assert(m0.contains_key(f.content_hash));
                        assert(m3[f.content_hash] == m0[f.content_hash]);
                    },
                    RecordV::Directory(_) => {
                    },
                }
            }
        }
        match record@ {
            RecordV::File(f) => {
                assert(m3[f.content_hash] == m0[f.content_hash]);
            },
            RecordV::Directory(_) => {
            },
        }
    }

    /// The reference counts after a rebind: the old record's count falls and
    /// its outgoing references cascade, the new record's count rises, and the
    /// snapshot replacement swaps the root's reference.
    pub open spec fn update_refs(
        refs: Map<Seq<u8>, u64>,
        x: IndexV,
        root: Seq<u8>,
        ino: u64,
        old_rec: RecordV,
        r: RecordV,
    ) -> Map<Seq<u8>, u64> {
        let h_rec = hash_of(enc_record(r));
        let h_idx = hash_of(enc_index(updated_index(x, ino, h_rec)));
        bump(
            unbump(
                bump(unbump_all(unbump(refs, index_map(x)[ino]), outgoing_of(old_rec)), h_rec),
                root,
            ),
            h_idx,
        )
    }

    /// The reference counts after a child creation: the new record's count
    /// rises, the parent's record is swapped, and the snapshot replacement
    /// swaps the root's reference.
    pub open spec fn add_child_refs(
        refs: Map<Seq<u8>, u64>,
        x: IndexV,
        root: Seq<u8>,
        parent: u64,
        d: DirV,
        name: Seq<u8>,
        r: RecordV,
    ) -> Map<Seq<u8>, u64> {
        let h_rec = hash_of(enc_record(r));
        let d2 = Self::child_dir(d, name, x.next);
        let h_par = hash_of(enc_record(RecordV::Directory(d2)));
        let h_idx = hash_of(enc_index(Self::add_child_index(x, h_rec, parent, h_par)));
        bump(
            unbump(
                bump(
                    unbump_all(
                        unbump(bump(refs, h_rec), index_map(x)[parent]),
                        outgoing_of(RecordV::Directory(d)),
                    ),
                    h_par,
                ),
                root,
            ),
            h_idx,
        )
    }

    /// The reference counts after a name removal: the parent's record is
    /// swapped and the snapshot replacement swaps the root's reference. The
    /// removed record's own release happens before this chain.
    pub open spec fn remove_entry_refs(
        refs: Map<Seq<u8>, u64>,
        x: IndexV,
        root: Seq<u8>,
        parent: u64,
        d: DirV,
        name: Seq<u8>,
        target: u64,
    ) -> Map<Seq<u8>, u64> {
        let d2 = Self::removed_dir(d, name);
        let h_par = hash_of(enc_record(RecordV::Directory(d2)));
        let h_idx = hash_of(enc_index(Self::remove_index(x, parent, h_par, target)));
        bump(
            unbump(
                bump(
                    unbump_all(
                        unbump(refs, index_map(x)[parent]),
                        outgoing_of(RecordV::Directory(d)),
                    ),
                    h_par,
                ),
                root,
            ),
            h_idx,
        )
    }

    /// Rebinds an existing inode to a rewritten record and advances the root
    /// to the rewritten snapshot: the tail of every rewrite chain.
    pub fn update_index(&mut self, inode: INode, record: Record) -> (r: Result<
        (),
        FileOperationError,
    >)
        requires
            old(self).inv(),
            old(self).has_inode(inode@),
            old(self).record_fits(record@),
            Self::same_shape(old(self).fs_record(inode@).unwrap(), record@),
        ensures
            final(self).inv(),
            match r {
                Ok(_) => {
                    &&& final(self).fs_index() == updated_index(
                        old(self).fs_index(),
                        inode@,
                        hash_of(enc_record(record@)),
                    )
                    &&& index_map(final(self).fs_index()) == index_map(
                        old(self).fs_index(),
                    ).insert(inode@, hash_of(enc_record(record@)))
                    &&& final(self).fs_record(inode@) == Some(record@)
                    &&& (forall|ino: u64|
                        ino != inode@ ==> #[trigger] final(self).fs_record(ino) == old(
                            self,
                        ).fs_record(ino))
                    &&& (forall|ino: u64|
                        ino != inode@ ==> #[trigger] final(self).fs_content(ino) == old(
                            self,
                        ).fs_content(ino))
                    &&& (match record@ {
                        RecordV::File(f) => final(self).fs_content(inode@) == dec_block(
                            old(self).contents()[f.content_hash],
                        ),
                        RecordV::Directory(_) => final(self).fs_content(inode@) is None,
                    })
                    &&& final(self).refs() == Self::update_refs(
                        old(self).refs(),
                        old(self).fs_index(),
                        old(self).root(),
                        inode@,
                        old(self).fs_record(inode@).unwrap(),
                        record@,
                    )
                    &&& extends(old(self).contents(), final(self).contents())
                },
                Err(e) => {
                    &&& e == FileOperationError::CorruptBlob
                    &&& final(self).root() == old(self).root()
                    &&& final(self).same_tree(old(self))
                    &&& extends(old(self).contents(), final(self).contents())
                    &&& !chain_clean(
                        old(self).contents(),
                        update_index_blobs(old(self).fs_index(), inode@, record@),
                    )
                },
            },
    {
        let ghost m0 = self.contents();
        let ghost x0 = self.fs_index();
        let ghost blobs = update_index_blobs(x0, inode@, record@);
        let (prev_index_hash, mut index) = self.get_index();
        let prev_inode_hash = match index.lookup_inode(&inode) {
            Some(h) => h.clone(),
            None => {
                proof {
                    assert(false);
                }
                vstd::pervasive::unreached()
            },
        };
        proof {
            assert(record_ok(prev_inode_hash@, m0));
            lemma_record_len_ok(&record);
        }
        let new_inode_hash = match self.store.replace_record(&prev_inode_hash, &record) {
            Ok(h) => h,
            Err(e) => {
                proof {
                    assert(e == FileOperationError::CorruptBlob);
                    assert(!put_clean(m0, enc_record(record@)));
                    assert(blobs[0] == enc_record(record@));
                    assert(self.same_tree(old(self)));
                }
                return Err(FileOperationError::CorruptBlob);
            },
        };
        let ghost m1 = self.contents();
        let ghost b1 = enc_record(record@);
        proof {
            assert(m1 == m0.insert(hash_of(b1), b1));
            lemma_extends_insert_clean(m0, b1);
        }
        let updated = index.update_inode(inode, new_inode_hash.clone());
        proof {
            assert(updated);
            assert(index@ == updated_index(x0, inode@, hash_of(b1)));
            lemma_index_len_ok(&index);
        }
        let ghost b2 = enc_index(index@);
        let new_index_hash = match self.store.replace_index(&prev_index_hash, &index) {
            Ok(h) => h,
            Err(e) => {
                proof {
                    assert(e == FileOperationError::CorruptBlob);
                    assert(!put_clean(m1, b2));
                    assert(blobs[0] == b1);
                    assert(blobs.drop_first()[0] == b2);
                    assert(m0.insert(hash_of(blobs[0]), blobs[0]) == m1);
                    assert(chain_clean(m1, blobs.drop_first()) ==> put_clean(m1, b2));
                    assert(!chain_clean(m0, blobs));
                    assert(extends(m0, self.contents()));
                    self.lemma_same_tree_extends(old(self), m0, x0);
                }
                return Err(FileOperationError::CorruptBlob);
            },
        };
        let ghost m2 = self.contents();
        proof {
            assert(m2 == m1.insert(hash_of(b2), b2));
            lemma_extends_insert_clean(m1, b2);
            assert(extends(m0, m2));
        }
        self.index_hash.set_typed(&new_index_hash);
        proof {
            self.lemma_update_commit(old(self), inode@, record, m0, x0, m1, m2);
        }
        Ok(())
    }

    /// Creates an empty file under a parent directory: stores the empty
    /// payload, the file record, the grown parent, and the new snapshot.
    pub fn create_file(&mut self, parent: INode, name: Filename, attributes: CommonAttrs) -> (r:
        Result<INodeResponse<FileRecord, Record>, FileOperationError>)
        requires
            old(self).inv(),
            old(self).fs_index().next < u64::MAX,
            spec_valid_name(name@),
        ensures
            final(self).inv(),
            match r {
                Ok(resp) => {
                    let d = old(self).dir_check(parent@).unwrap();
                    let fv = FileV {
                        content_hash: hash_of(enc_block(Seq::<u8>::empty())),
                        size: 0u64,
                        attrs: attributes,
                    };
                    &&& old(self).dir_check(parent@) is Ok
                    &&& !assoc_map(d.children).contains_key(name@)
                    &&& !old(self).has_inode(resp.inode@)
                    &&& resp.inode@ == old(self).fs_index().next
                    &&& resp.inner@ == fv
                    &&& resp.source@ == hash_of(enc_record(RecordV::File(fv)))
                    &&& final(self).fs_record(resp.inode@) == Some(RecordV::File(fv))
                    &&& final(self).fs_content(resp.inode@) == Some(Seq::<u8>::empty())
                    &&& final(self).fs_record(parent@) == Some(
                        RecordV::Directory(Self::child_dir(d, name@, resp.inode@)),
                    )
                    &&& final(self).fs_index().next == old(self).fs_index().next + 1
                    &&& index_map(final(self).fs_index()) == index_map(
                        old(self).fs_index(),
                    ).insert(resp.inode@, resp.source@).insert(
                        parent@,
                        hash_of(
                            enc_record(
                                RecordV::Directory(Self::child_dir(d, name@, resp.inode@)),
                            ),
                        ),
                    )
                    &&& (forall|i2: u64|
                        i2 != resp.inode@ && i2 != parent@ ==> #[trigger] final(self).fs_record(
                            i2,
                        ) == old(self).fs_record(i2))
                    &&& (forall|i2: u64|
                        i2 != resp.inode@ && i2 != parent@ ==> #[trigger] final(self).fs_content(
                            i2,
                        ) == old(self).fs_content(i2))
                    &&& final(self).refs() == Self::add_child_refs(
                        bump(old(self).refs(), hash_of(enc_block(Seq::<u8>::empty()))),
                        old(self).fs_index(),
                        old(self).root(),
                        parent@,
                        d,
                        name@,
                        RecordV::File(fv),
                    )
                    &&& extends(old(self).contents(), final(self).contents())
                },
                Err(e) => {
                    &&& final(self).root() == old(self).root()
                    &&& final(self).same_tree(old(self))
                    &&& ((e == FileOperationError::NotFound || e
                        == FileOperationError::NotADirectory) ==> final(self).unchanged_from(
                        old(self),
                    ) && old(self).dir_check(parent@) == Err::<DirV, FileOperationError>(e))
                    &&& (e == FileOperationError::AlreadyExists ==> final(self).unchanged_from(
                        old(self),
                    ) && old(self).dir_check(parent@) is Ok && assoc_map(
                        old(self).dir_check(parent@).unwrap().children,
                    ).contains_key(name@))
                    &&& (e == FileOperationError::CorruptBlob ==> old(self).dir_check(
                        parent@,
                    ) is Ok && !assoc_map(
                        old(self).dir_check(parent@).unwrap().children,
                    ).contains_key(name@) && !chain_clean(
                        old(self).contents(),
                        Self::create_file_blobs(
                            old(self).contents(),
                            old(self).fs_index(),
                            old(self).dir_check(parent@).unwrap(),
                            parent@,
                            name@,
                            attributes,
                        ),
                    ))
                    &&& (e == FileOperationError::NotFound || e == FileOperationError::NotADirectory
                        || e == FileOperationError::AlreadyExists || e
                        == FileOperationError::CorruptBlob)
                },
            },
    {
        let ghost m0 = self.contents();
        let ghost x0 = self.fs_index();
        let ghost d = self.dir_check(parent@).unwrap();
        let parent_resp = self.lookup_directory_by_inode(parent)?;
        if parent_resp.inner.get(&name).is_some() {
            return Err(FileOperationError::AlreadyExists);
        }
        let empty_data = DataBlock::default();
        let ghost b0 = enc_block(Seq::<u8>::empty());
        let content_hash = match self.store.store_block(&empty_data) {
            Ok(h) => h,
            Err(e) => {
                proof {
                    assert(!put_clean(m0, b0));
                    assert(Self::create_file_blobs(m0, x0, d, parent@, name@, attributes)[0] == b0);
                }
                return Err(FileOperationError::CorruptBlob);
            },
        };
        let ghost m1 = self.contents();
        proof {
            assert(m1 == m0.insert(hash_of(b0), b0));
            lemma_extends_insert_clean(m0, b0);
            self.lemma_same_tree_extends(old(self), m0, x0);
            crate::codec::lemma_block_round_trip(Seq::<u8>::empty());
        }
        let file_record = FileRecord::new(content_hash, 0, attributes);
        let response_record = file_record.clone();
        let ghost fv = file_record@;
        match self.add_child(parent, name, Record::File(file_record)) {
            Ok((source, inode)) => {
                proof {
                    assert(old(self).dir_check(parent@) == Ok::<DirV, FileOperationError>(d));
                    assert(final(self).fs_content(inode@) == dec_block(m1[fv.content_hash]));
                    assert(m1[hash_of(b0)] == b0);
                }
                Ok(INodeResponse::new(response_record, inode, source))
            },
            Err(e) => {
                proof {
                    assert(e == FileOperationError::CorruptBlob) by {
                        assert(self.dir_check(parent@) == Ok::<DirV, FileOperationError>(d));
                        assert(!assoc_map(d.children).contains_key(name@));
                    }
                    let blobs = Self::create_file_blobs(m0, x0, d, parent@, name@, attributes);
                    assert(blobs[0] == b0);
                    assert(blobs.drop_first() =~= Self::add_child_blobs(
                        x0,
                        d,
                        parent@,
                        name@,
                        RecordV::File(fv),
                    ));
                    assert(m0.insert(hash_of(blobs[0]), blobs[0]) == m1);
                    assert(!chain_clean(m0, blobs));
                }
                Err(e)
            },
        }
    }

    /// The blobs a file creation writes: the empty payload, then the
    /// creation chain.
    pub open spec fn create_file_blobs(
        m: Map<Seq<u8>, Seq<u8>>,
        x: IndexV,
        d: DirV,
        parent: u64,
        name: Seq<u8>,
        attrs: CommonAttrs,
    ) -> Seq<Seq<u8>> {
        let b0 = enc_block(Seq::<u8>::empty());
        let fv = FileV { content_hash: hash_of(b0), size: 0u64, attrs };
        seq![b0] + Self::add_child_blobs(x, d, parent, name, RecordV::File(fv))
    }

    /// Creates an empty directory under a parent directory.
    pub fn create_directory(&mut self, parent: INode, name: Filename, attributes: CommonAttrs) -> (r:
        Result<INodeResponse<DirectoryRecord, Record>, FileOperationError>)
        requires
            old(self).inv(),
            old(self).fs_index().next < u64::MAX,
            spec_valid_name(name@),
        ensures
            final(self).inv(),
            match r {
                Ok(resp) => {
                    let d = old(self).dir_check(parent@).unwrap();
                    let dv = DirV { children: Seq::empty(), attrs: attributes, parent: parent@ };
                    &&& old(self).dir_check(parent@) is Ok
                    &&& !assoc_map(d.children).contains_key(name@)
                    &&& !old(self).has_inode(resp.inode@)
                    &&& resp.inode@ == old(self).fs_index().next
                    &&& resp.inner@ == dv
                    &&& resp.source@ == hash_of(enc_record(RecordV::Directory(dv)))
                    &&& final(self).fs_record(resp.inode@) == Some(RecordV::Directory(dv))
                    &&& final(self).fs_record(parent@) == Some(
                        RecordV::Directory(Self::child_dir(d, name@, resp.inode@)),
                    )
                    &&& final(self).fs_index().next == old(self).fs_index().next + 1
                    &&& index_map(final(self).fs_index()) == index_map(
                        old(self).fs_index(),
                    ).insert(resp.inode@, resp.source@).insert(
                        parent@,
                        hash_of(
                            enc_record(
                                RecordV::Directory(Self::child_dir(d, name@, resp.inode@)),
                            ),
                        ),
                    )
                    &&& (forall|i2: u64|
                        i2 != resp.inode@ && i2 != parent@ ==> #[trigger] final(self).fs_record(
                            i2,
                        ) == old(self).fs_record(i2))
                    &&& (forall|i2: u64|
                        i2 != resp.inode@ && i2 != parent@ ==> #[trigger] final(self).fs_content(
                            i2,
                        ) == old(self).fs_content(i2))
                    &&& final(self).refs() == Self::add_child_refs(
                        old(self).refs(),
                        old(self).fs_index(),
                        old(self).root(),
                        parent@,
                        d,
                        name@,
                        RecordV::Directory(dv),
                    )
                    &&& extends(old(self).contents(), final(self).contents())
                },
                Err(e) => {
                    &&& final(self).root() == old(self).root()
                    &&& final(self).same_tree(old(self))
                    &&& ((e == FileOperationError::NotFound || e
                        == FileOperationError::NotADirectory) ==> final(self).unchanged_from(
                        old(self),
                    ) && old(self).dir_check(parent@) == Err::<DirV, FileOperationError>(e))
                    &&& (e == FileOperationError::AlreadyExists ==> final(self).unchanged_from(
                        old(self),
                    ) && old(self).dir_check(parent@) is Ok && assoc_map(
                        old(self).dir_check(parent@).unwrap().children,
                    ).contains_key(name@))
                    &&& (e == FileOperationError::CorruptBlob ==> old(self).dir_check(
                        parent@,
                    ) is Ok && !assoc_map(
                        old(self).dir_check(parent@).unwrap().children,
                    ).contains_key(name@) && !chain_clean(
                        old(self).contents(),
                        Self::add_child_blobs(
                            old(self).fs_index(),
                            old(self).dir_check(parent@).unwrap(),
                            parent@,
                            name@,
                            RecordV::Directory(
                                DirV { children: Seq::empty(), attrs: attributes, parent: parent@ },
                            ),
                        ),
                    ))
                    &&& (e == FileOperationError::NotFound || e == FileOperationError::NotADirectory
                        || e == FileOperationError::AlreadyExists || e
                        == FileOperationError::CorruptBlob)
                },
            },
    {
        let directory_record = DirectoryRecord::new(attributes, parent);
        let response_record = directory_record.clone();
        let ghost dv = directory_record@;
        proof {
            assert(dv.children =~= Seq::<(Seq<u8>, u64)>::empty());
            assert(dv == DirV { children: Seq::<(Seq<u8>, u64)>::empty(), attrs: attributes, parent: parent@ });
        }
        match self.add_child(parent, name, Record::Directory(directory_record)) {
            Ok((source, inode)) => Ok(INodeResponse::new(response_record, inode, source)),
            Err(e) => Err(e),
        }
    }

    /// Overwrites the shared attributes of a record, preserving its variant,
    /// its payload and its children, and advances the root.
    pub fn update_attributes_by_inode(&mut self, inode: INode, attributes: CommonAttrs) -> (r:
        Result<INodeResponse<Record, Record>, FileOperationError>)
        requires
            old(self).inv(),
        ensures
            final(self).inv(),
            match r {
                Ok(resp) => {
                    let updated = old(self).fs_record(inode@).unwrap().with_attrs(attributes);
                    &&& old(self).has_inode(inode@)
                    &&& resp.inner@ == updated
                    &&& resp.inode == inode
                    &&& resp.source@ == index_map(old(self).fs_index())[inode@]
                    &&& final(self).fs_record(inode@) == Some(updated)
                    &&& final(self).fs_content(inode@) == old(self).fs_content(inode@)
                    &&& final(self).fs_index().next == old(self).fs_index().next
                    &&& index_map(final(self).fs_index()) == index_map(
                        old(self).fs_index(),
                    ).insert(inode@, hash_of(enc_record(updated)))
                    &&& (forall|i2: u64|
                        i2 != inode@ ==> #[trigger] final(self).fs_record(i2) == old(
                            self,
                        ).fs_record(i2))
                    &&& (forall|i2: u64|
                        i2 != inode@ ==> #[trigger] final(self).fs_content(i2) == old(
                            self,
                        ).fs_content(i2))
                    &&& final(self).refs() == Self::update_refs(
                        old(self).refs(),
                        old(self).fs_index(),
                        old(self).root(),
                        inode@,
                        old(self).fs_record(inode@).unwrap(),
                        updated,
                    )
                    &&& extends(old(self).contents(), final(self).contents())
                },
                Err(e) => {
                    &&& final(self).root() == old(self).root()
                    &&& final(self).same_tree(old(self))
                    &&& (e == FileOperationError::NotFound ==> final(self).unchanged_from(
                        old(self),
                    ) && !old(self).has_inode(inode@))
                    &&& (e == FileOperationError::CorruptBlob ==> old(self).has_inode(inode@)
                        && !chain_clean(
                        old(self).contents(),
                        update_index_blobs(
                            old(self).fs_index(),
                            inode@,
                            old(self).fs_record(inode@).unwrap().with_attrs(attributes),
                        ),
                    ))
                    &&& (e == FileOperationError::NotFound || e == FileOperationError::CorruptBlob)
                },
            },
    {
        let ghost x0 = self.fs_index();
        let mut record = self.lookup_record_by_inode(inode)?;
        record.inner.set_attrs(attributes);
        let updated_record = record.inner.clone();
        proof {
            assert(updated_record@ == old(self).fs_record(inode@).unwrap().with_attrs(attributes));
            assert(record_ok(index_map(x0)[inode@], self.contents()));
            assert(Self::same_shape(old(self).fs_record(inode@).unwrap(), updated_record@));
        }
        match self.update_index(inode, updated_record) {
            Ok(_) => Ok(record),
            Err(e) => Err(e),
        }
    }

    /// The blobs a write stamps into the store: the new payload, the
    /// rewritten file record, and the new snapshot.
    pub open spec fn write_blobs(
        x: IndexV,
        ino: u64,
        f: FileV,
        content: Seq<u8>,
        offset: int,
        data: Seq<u8>,
        now: u64,
    ) -> Seq<Seq<u8>> {
        let c2 = spliced(content, offset, data);
        let b1 = enc_block(c2);
        let f2 = FileV {
            content_hash: hash_of(b1),
            size: c2.len() as u64,
            attrs: CommonAttrs { mtime: now, ctime: now, ..f.attrs },
        };
        seq![b1] + update_index_blobs(x, ino, RecordV::File(f2))
    }

    /// Writes bytes at an offset with the given timestamp: the payload is
    /// zero-extended up to the offset if needed, the data overwrites in
    /// place, and the file's mtime and ctime become `now`.
    pub fn write_to_file_at(&mut self, inode: INode, offset: usize, data: &[u8], now: u64) -> (r:
        Result<usize, FileOperationError>)
        requires
            old(self).inv(),
            offset + data@.len() <= usize::MAX,
        ensures
            final(self).inv(),
            match r {
                Ok(n) => {
                    let f = old(self).file_check(inode@).unwrap();
                    let c2 = spliced(old(self).fs_content(inode@).unwrap(), offset as int, data@);
                    let f2 = FileV {
                        content_hash: hash_of(enc_block(c2)),
                        size: c2.len() as u64,
                        attrs: CommonAttrs { mtime: now, ctime: now, ..f.attrs },
                    };
                    &&& old(self).file_check(inode@) is Ok
                    &&& n == data@.len()
                    &&& final(self).fs_record(inode@) == Some(RecordV::File(f2))
                    &&& final(self).fs_content(inode@) == Some(c2)
                    &&& final(self).fs_index().next == old(self).fs_index().next
                    &&& index_map(final(self).fs_index()) == index_map(
                        old(self).fs_index(),
                    ).insert(inode@, hash_of(enc_record(RecordV::File(f2))))
                    &&& (forall|i2: u64|
                        i2 != inode@ ==> #[trigger] final(self).fs_record(i2) == old(
                            self,
                        ).fs_record(i2))
                    &&& (forall|i2: u64|
                        i2 != inode@ ==> #[trigger] final(self).fs_content(i2) == old(
                            self,
                        ).fs_content(i2))
                    &&& final(self).refs() == Self::update_refs(
                        bump(
                            unbump(old(self).refs(), f.content_hash),
                            hash_of(enc_block(c2)),
                        ),
                        old(self).fs_index(),
                        old(self).root(),
                        inode@,
                        RecordV::File(f),
                        RecordV::File(f2),
                    )
                    &&& extends(old(self).contents(), final(self).contents())
                },
                Err(e) => {
                    &&& final(self).root() == old(self).root()
                    &&& final(self).same_tree(old(self))
                    &&& ((e == FileOperationError::NotFound || e
                        == FileOperationError::IsADirectory) ==> final(self).unchanged_from(
                        old(self),
                    ) && old(self).file_check(inode@) == Err::<FileV, FileOperationError>(e))
                    &&& (e == FileOperationError::CorruptBlob ==> old(self).file_check(
                        inode@,
                    ) is Ok && !chain_clean(
                        old(self).contents(),
                        Self::write_blobs(
                            old(self).fs_index(),
                            inode@,
                            old(self).file_check(inode@).unwrap(),
                            old(self).fs_content(inode@).unwrap(),
                            offset as int,
                            data@,
                            now,
                        ),
                    ))
                    &&& (e == FileOperationError::NotFound || e == FileOperationError::IsADirectory
                        || e == FileOperationError::CorruptBlob)
                },
            },
    {
        let ghost m0 = self.contents();
        let ghost x0 = self.fs_index();
        let original_file = self.lookup_file_by_inode(inode)?;
        let existing = match self.store.get_block(&original_file.inner.content_hash) {
            Ok(d) => d,
            Err(_) => {
                proof {
                    assert(record_ok(index_map(x0)[inode@], m0));
                    assert(false);
                }
                vstd::pervasive::unreached()
            },
        };
        let new_bytes = splice_bytes(existing.data.as_slice(), offset, data);
        let new_block = DataBlock::new(new_bytes);
        let ghost c2 = new_block@;
        let ghost b1 = enc_block(c2);
        let ghost f0 = old(self).file_check(inode@).unwrap();
        let ghost blobs = Self::write_blobs(
            x0,
            inode@,
            f0,
            old(self).fs_content(inode@).unwrap(),
            offset as int,
            data@,
            now,
        );
        proof {
            assert(c2 == spliced(old(self).fs_content(inode@).unwrap(), offset as int, data@));
            assert(blobs[0] == b1);
        }
        let new_content_hash = match self.store.replace_block(
            &original_file.inner.content_hash,
            &new_block,
        ) {
            Ok(h) => h,
            Err(e) => {
                proof {
                    assert(!put_clean(m0, b1));
                    assert(self.unchanged_from(old(self)));
                }
                return Err(FileOperationError::CorruptBlob);
            },
        };
        let ghost m1 = self.contents();
        proof {
            assert(m1 == m0.insert(hash_of(b1), b1));
            lemma_extends_insert_clean(m0, b1);
            self.lemma_same_tree_extends(old(self), m0, x0);
            crate::codec::lemma_block_round_trip(c2);
        }
        let new_size = new_block.len() as u64;
        let old_attrs = original_file.inner.common_attrs;
        let new_attrs = CommonAttrs {
            mtime: now,
            ctime: now,
            ..old_attrs
        };
        let new_file = FileRecord::new(new_content_hash, new_size, new_attrs);
        let new_record = Record::File(new_file);
        proof {
            assert(self.record_fits(new_record@));
            assert(Self::same_shape(old(self).fs_record(inode@).unwrap(), new_record@));
        }
        proof {
            assert(new_record@ == RecordV::File(
                FileV {
                    content_hash: hash_of(b1),
                    size: c2.len() as u64,
                    attrs: CommonAttrs { mtime: now, ctime: now, ..f0.attrs },
                },
            ));
            assert(blobs.drop_first() =~= update_index_blobs(x0, inode@, new_record@));
        }
        match self.update_index(inode, new_record) {
            Ok(_) => Ok(data.len()),
            Err(e) => {
                proof {
                    assert(!chain_clean(m1, update_index_blobs(x0, inode@, new_record@)));
                    assert(m0.insert(hash_of(blobs[0]), blobs[0]) == m1);
                    assert(!chain_clean(m0, blobs));
                    self.lemma_same_tree_extends(old(self), m0, x0);
                }
                Err(e)
            },
        }
    }

    /// Writes bytes at an offset, stamping the modification time from the
    /// clock. Returns the number of bytes written.
    pub fn write_to_file(&mut self, inode: INode, offset: usize, data: &[u8]) -> (r: Result<
        usize,
        FileOperationError,
    >)
        requires
            old(self).inv(),
            offset + data@.len() <= usize::MAX,
        ensures
            final(self).inv(),
            match r {
                Ok(n) => {
                    let c2 = spliced(old(self).fs_content(inode@).unwrap(), offset as int, data@);
                    &&& old(self).file_check(inode@) is Ok
                    &&& n == data@.len()
                    &&& final(self).fs_content(inode@) == Some(c2)
                    &&& (match final(self).fs_record(inode@) {
                        Some(RecordV::File(f2)) => {
                            let f = old(self).file_check(inode@).unwrap();
                            &&& f2.content_hash == hash_of(enc_block(c2))
                            &&& f2.size == c2.len()
                            &&& f2.attrs.perm == f.attrs.perm
                            &&& f2.attrs.uid == f.attrs.uid
                            &&& f2.attrs.gid == f.attrs.gid
                            &&& f2.attrs.atime == f.attrs.atime
                            &&& f2.attrs.crtime == f.attrs.crtime
                            &&& f2.attrs.mtime == f2.attrs.ctime
                        },
                        _ => false,
                    })
                    &&& final(self).fs_index().next == old(self).fs_index().next
                    &&& (forall|i2: u64|
                        i2 != inode@ ==> #[trigger] final(self).fs_record(i2) == old(
                            self,
                        ).fs_record(i2))
                    &&& (forall|i2: u64|
                        i2 != inode@ ==> #[trigger] final(self).fs_content(i2) == old(
                            self,
                        ).fs_content(i2))
                    &&& extends(old(self).contents(), final(self).contents())
                },
                Err(e) => {
                    &&& final(self).root() == old(self).root()
                    &&& final(self).same_tree(old(self))
                    &&& ((e == FileOperationError::NotFound || e
                        == FileOperationError::IsADirectory) ==> final(self).unchanged_from(
                        old(self),
                    ) && old(self).file_check(inode@) == Err::<FileV, FileOperationError>(e))
                    &&& (e == FileOperationError::CorruptBlob ==> old(self).file_check(
                        inode@,
                    ) is Ok && (exists|now: u64|
                        !chain_clean(
                            old(self).contents(),
                            #[trigger] Self::write_blobs(
                                old(self).fs_index(),
                                inode@,
                                old(self).file_check(inode@).unwrap(),
                                old(self).fs_content(inode@).unwrap(),
                                offset as int,
                                data@,
                                now,
                            ),
                        )))
                    &&& (e == FileOperationError::NotFound || e == FileOperationError::IsADirectory
                        || e == FileOperationError::CorruptBlob)
                },
            },
    {
        let now = crate::file_record::now_nanos();
        let r = self.write_to_file_at(inode, offset, data, now);
        proof {
            match r {
                Ok(_) => {
                },
                Err(e) => {
                    if e == FileOperationError::CorruptBlob {
                        assert(!chain_clean(
                            old(self).contents(),
                            Self::write_blobs(
                                old(self).fs_index(),
                                inode@,
                                old(self).file_check(inode@).unwrap(),
                                old(self).fs_content(inode@).unwrap(),
                                offset as int,
                                data@,
                                now,
                            ),
                        ));
                    }
                },
            }
        }
        r
    }

    /// A directory with one name unbound.
    pub open spec fn removed_dir(d: DirV, name: Seq<u8>) -> DirV {
        DirV { children: d.children.remove(assoc_pos(d.children, name)), attrs: d.attrs, parent: d.parent }
    }

    /// The snapshot after rebinding the parent and purging the removed
    /// child's inode.
    pub open spec fn remove_index(x: IndexV, parent: u64, h_par: Seq<u8>, target: u64) -> IndexV {
        let upd = updated_index(x, parent, h_par);
        IndexV { next: upd.next, mapping: upd.mapping.remove(assoc_pos(upd.mapping, target)) }
    }

    /// The blobs a removal writes: the shrunken parent, then the new
    /// snapshot.
    pub open spec fn remove_blobs(x: IndexV, d: DirV, parent: u64, name: Seq<u8>, target: u64) -> Seq<Seq<u8>> {
        let b1 = enc_record(RecordV::Directory(Self::removed_dir(d, name)));
        seq![b1, enc_index(Self::remove_index(x, parent, hash_of(b1), target))]
    }

    /// Unbinds a name from the parent, purges the target's inode from the
    /// snapshot, and advances the root: the shared removal path.
    fn remove_entry(
        &mut self,
        parent_inode: INode,
        name: &Filename,
        parent_resp: INodeResponse<DirectoryRecord, Record>,
        target: INode,
        Ghost(m0): Ghost<Map<Seq<u8>, Seq<u8>>>,
        Ghost(x0): Ghost<IndexV>,
    ) -> (r: Result<(), FileOperationError>)
        requires
            old(self).inv(),
            old(self).contents() == m0,
            old(self).fs_index() == x0,
            old(self).dir_check(parent_inode@) == Ok::<DirV, FileOperationError>(parent_resp.inner@),
            parent_resp.inner.wf(),
            parent_resp.source@ == index_map(x0)[parent_inode@],
            assoc_map(parent_resp.inner@.children).contains_key(name@),
            assoc_map(parent_resp.inner@.children)[name@] == target@,
            target@ != parent_inode@,
            old(self).has_inode(target@),
            match old(self).fs_record(target@) {
                Some(RecordV::File(_)) => true,
                Some(RecordV::Directory(td)) => td.children.len() == 0,
                None => false,
            },
        ensures
            final(self).inv(),
            match r {
                Ok(_) => {
                    let d = parent_resp.inner@;
                    let d2 = Self::removed_dir(d, name@);
                    &&& final(self).fs_index() == Self::remove_index(
                        x0,
                        parent_inode@,
                        hash_of(enc_record(RecordV::Directory(d2))),
                        target@,
                    )
                    &&& final(self).fs_index().next == x0.next
                    &&& index_map(final(self).fs_index()) == index_map(x0).insert(
                        parent_inode@,
                        hash_of(enc_record(RecordV::Directory(d2))),
                    ).remove(target@)
                    &&& !final(self).has_inode(target@)
                    &&& final(self).fs_record(target@) is None
                    &&& final(self).fs_record(parent_inode@) == Some(RecordV::Directory(d2))
                    &&& assoc_map(d2.children) == assoc_map(d.children).remove(name@)
                    &&& (forall|i2: u64|
                        i2 != target@ && i2 != parent_inode@ ==> #[trigger] final(self).fs_record(
                            i2,
                        ) == old(self).fs_record(i2))
                    &&& (forall|i2: u64|
                        i2 != target@ && i2 != parent_inode@ ==> #[trigger] final(self).fs_content(
                            i2,
                        ) == old(self).fs_content(i2))
                    &&& final(self).refs() == Self::remove_entry_refs(
                        old(self).refs(),
                        x0,
                        old(self).root(),
                        parent_inode@,
                        parent_resp.inner@,
                        name@,
                        target@,
                    )
                    &&& extends(old(self).contents(), final(self).contents())
                },
                Err(e) => {
                    &&& e == FileOperationError::CorruptBlob
                    &&& final(self).root() == old(self).root()
                    &&& final(self).same_tree(old(self))
                    &&& !chain_clean(
                        m0,
                        Self::remove_blobs(x0, parent_resp.inner@, parent_inode@, name@, target@),
                    )
                },
            },
    {
        let ghost d = parent_resp.inner@;
        let ghost blobs = Self::remove_blobs(x0, d, parent_inode@, name@, target@);
        let mut parent_dir = parent_resp.inner;
        let _ = parent_dir.remove(name);
        let new_parent_record = Record::Directory(parent_dir);
        let ghost d2 = Self::removed_dir(d, name@);
        proof {
            assert(new_parent_record@ == RecordV::Directory(d2));
            assert(assoc_map(d2.children) == assoc_map(d.children).remove(name@));
            lemma_record_len_ok(&new_parent_record);
        }
        let ghost b1 = enc_record(RecordV::Directory(d2));
        let (prev_index_hash, mut index) = self.get_index();
        proof {
            assert(record_ok(index_map(x0)[parent_inode@], m0));
            assert(dec_record(m0[parent_resp.source@]) == Some(RecordV::Directory(d)));
        }
        let new_parent_hash = match self.store.replace_record(&parent_resp.source, &new_parent_record) {
            Ok(h) => h,
            Err(e) => {
                proof {
                    assert(record_ok(index_map(x0)[parent_inode@], m0));
                    assert(e == FileOperationError::CorruptBlob);
                    assert(blobs[0] == b1);
                    assert(!put_clean(m0, b1));
                    assert(self.unchanged_from(old(self)));
                }
                return Err(FileOperationError::CorruptBlob);
            },
        };
        let ghost m1 = self.contents();
        proof {
            assert(m1 == m0.insert(hash_of(b1), b1));
            lemma_extends_insert_clean(m0, b1);
        }
        let updated = index.update_inode(parent_inode, new_parent_hash.clone());
        proof {
            assert(index_map(x0).contains_key(parent_inode@));
            assert(updated);
        }
        index.remove_inode(target);
        proof {
            assert(index@ == Self::remove_index(x0, parent_inode@, hash_of(b1), target@));
            lemma_index_len_ok(&index);
        }
        let ghost b2 = enc_index(index@);
        let new_index_hash = match self.store.replace_index(&prev_index_hash, &index) {
            Ok(h) => h,
            Err(e) => {
                proof {
                    assert(e == FileOperationError::CorruptBlob);
                    assert(!put_clean(m1, b2));
                    assert(blobs[0] == b1);
                    assert(blobs.drop_first()[0] == b2);
                    assert(m0.insert(hash_of(blobs[0]), blobs[0]) == m1);
                    assert(chain_clean(m1, blobs.drop_first()) ==> put_clean(m1, b2));
                    assert(!chain_clean(m0, blobs));
                    self.lemma_same_tree_extends(old(self), m0, x0);
                }
                return Err(FileOperationError::CorruptBlob);
            },
        };
        let ghost m2 = self.contents();
        proof {
            assert(m2 == m1.insert(hash_of(b2), b2));
            lemma_extends_insert_clean(m1, b2);
        }
        self.index_hash.set_typed(&new_index_hash);
        proof {
            self.lemma_remove_commit(old(self), parent_inode@, name@, target@, d, m0, x0, m1, m2);
        }
        Ok(())
    }

    /// The closing argument of a removal: the committed state is well-formed
    /// and holds exactly the shrunken tree.
    #[verifier::rlimit(50)]
    proof fn lemma_remove_commit(
        &self,
        prev: &Self,
        parent: u64,
        name: Seq<u8>,
        target: u64,
        d: DirV,
        m0: Map<Seq<u8>, Seq<u8>>,
        x0: IndexV,
        m1: Map<Seq<u8>, Seq<u8>>,
        m2: Map<Seq<u8>, Seq<u8>>,
    )
        requires
            self.store_inv(),
            prev.inv(),
            prev.contents() == m0,
            prev.fs_index() == x0,
            prev.dir_check(parent) == Ok::<DirV, FileOperationError>(d),
            assoc_map(d.children).contains_key(name),
            assoc_map(d.children)[name] == target,
            target != parent,
            index_map(x0).contains_key(target),
            match dec_record(m0[index_map(x0)[target]]) {
                Some(RecordV::File(_)) => true,
                Some(RecordV::Directory(td)) => td.children.len() == 0,
                _ => false,
            },
            put_clean(m0, enc_record(RecordV::Directory(Self::removed_dir(d, name)))),
            m1 == m0.insert(
                hash_of(enc_record(RecordV::Directory(Self::removed_dir(d, name)))),
                enc_record(RecordV::Directory(Self::removed_dir(d, name))),
            ),
            put_clean(
                m1,
                enc_index(
                    Self::remove_index(
                        x0,
                        parent,
                        hash_of(enc_record(RecordV::Directory(Self::removed_dir(d, name)))),
                        target,
                    ),
                ),
            ),
            m2 == m1.insert(
                hash_of(
                    enc_index(
                        Self::remove_index(
                            x0,
                            parent,
                            hash_of(enc_record(RecordV::Directory(Self::removed_dir(d, name)))),
                            target,
                        ),
                    ),
                ),
                enc_index(
                    Self::remove_index(
                        x0,
                        parent,
                        hash_of(enc_record(RecordV::Directory(Self::removed_dir(d, name)))),
                        target,
                    ),
                ),
            ),
            self.contents() == m2,
            self.root() == hash_of(
                enc_index(
                    Self::remove_index(
                        x0,
                        parent,
                        hash_of(enc_record(RecordV::Directory(Self::removed_dir(d, name)))),
                        target,
                    ),
                ),
            ),
            assoc_distinct(
                Self::remove_index(
                    x0,
                    parent,
                    hash_of(enc_record(RecordV::Directory(Self::removed_dir(d, name)))),
                    target,
                ).mapping,
            ),
            forall|i: int|
                0 <= i < Self::remove_index(
                    x0,
                    parent,
                    hash_of(enc_record(RecordV::Directory(Self::removed_dir(d, name)))),
                    target,
                ).mapping.len() ==> #[trigger] Self::remove_index(
                    x0,
                    parent,
                    hash_of(enc_record(RecordV::Directory(Self::removed_dir(d, name)))),
                    target,
                ).mapping[i].0 < Self::remove_index(
                    x0,
                    parent,
                    hash_of(enc_record(RecordV::Directory(Self::removed_dir(d, name)))),
                    target,
                ).next,
            index_map(
                Self::remove_index(
                    x0,
                    parent,
                    hash_of(enc_record(RecordV::Directory(Self::removed_dir(d, name)))),
                    target,
                ),
            ) == index_map(x0).insert(
                parent,
                hash_of(enc_record(RecordV::Directory(Self::removed_dir(d, name)))),
            ).remove(target),
            index_len_ok_holds(
                Self::remove_index(
                    x0,
                    parent,
                    hash_of(enc_record(RecordV::Directory(Self::removed_dir(d, name)))),
                    target,
                ),
            ),
            entries_distinct_of(Self::removed_dir(d, name)),
            crate::codec::record_len_ok(RecordV::Directory(Self::removed_dir(d, name))),
        ensures
            self.inv(),
            self.fs_index() == Self::remove_index(
                x0,
                parent,
                hash_of(enc_record(RecordV::Directory(Self::removed_dir(d, name)))),
                target,
            ),
            !self.has_inode(target),
            self.fs_record(target) is None,
            self.fs_record(parent) == Some(RecordV::Directory(Self::removed_dir(d, name))),
            forall|i2: u64|
                i2 != target && i2 != parent ==> #[trigger] self.fs_record(i2) == prev.fs_record(
                    i2,
                ),
            forall|i2: u64|
                i2 != target && i2 != parent ==> #[trigger] self.fs_content(i2)
                    == prev.fs_content(i2),
            extends(m0, m2),
    {
        let d2 = Self::removed_dir(d, name);
        let b1 = enc_record(RecordV::Directory(d2));
        let h1 = hash_of(b1);
        let x2 = Self::remove_index(x0, parent, h1, target);
        let b2 = enc_index(x2);
        let h2 = hash_of(b2);
        lemma_extends_insert_clean(m0, b1);
        lemma_extends_insert_clean(m1, b2);
        lemma_record_round_trip(RecordV::Directory(d2));
        lemma_index_round_trip(x2);
        assert(m2.contains_key(h2) && m2[h2] == b2);
        assert(state_index(m2, self.root()) == Some(x2));
        assert(m1.contains_key(h1) && m1[h1] == b1);
        assert(m2.contains_key(h1) && m2[h1] == b1);
        // the target was never the root
        assert(record_ok(index_map(x0)[parent], m0));
        assert(target != ROOT_INODE) by {
            crate::assoc::lemma_assoc_domain(d.children, name);
            crate::assoc::lemma_assoc_pos_in_range(d.children, name);
            let i = assoc_pos(d.children, name);
            crate::assoc::lemma_assoc_index(d.children, i);
            assert(d.children[i].1 != ROOT_INODE);
        }
        assert(index_map(x2).contains_key(ROOT_INODE));
        assert forall|i2: u64| #[trigger]
            index_map(x2).contains_key(i2) implies record_ok(index_map(x2)[i2], m2) by {
            if i2 == parent {
                assert forall|i: int|
                    0 <= i < d2.children.len() implies #[trigger] d2.children[i].1 != ROOT_INODE by {
                    crate::assoc::lemma_assoc_domain(d.children, name);
                    crate::assoc::lemma_assoc_pos_in_range(d.children, name);
                    let pos = assoc_pos(d.children, name);
                    if i < pos {
                        assert(d2.children[i] == d.children[i]);
                    } else {
                        assert(d2.children[i] == d.children[i + 1]);
                    }
                }
                assert(record_ok(h1, m2));
            } else {
                assert(index_map(x0).contains_key(i2));
                assert(record_ok(index_map(x0)[i2], m0));
                lemma_record_ok_mono(index_map(x0)[i2], m0, m2);
            }
        }
        if parent == ROOT_INODE {
            assert(dec_record(m2[index_map(x2)[ROOT_INODE]]).unwrap() is Directory);
        } else {
            assert(index_map(x2)[ROOT_INODE] == index_map(x0)[ROOT_INODE]);
            assert(record_ok(index_map(x0)[ROOT_INODE], m0));
            assert(m2[index_map(x0)[ROOT_INODE]] == m0[index_map(x0)[ROOT_INODE]]);
        }
        // tree structure: the parent loses one slot; the purged inode was a
        // leaf (a file, or a directory with no children) and its only slot
        // was the removed one, so nothing else can dangle
        crate::assoc::lemma_assoc_domain(d.children, name);
        crate::assoc::lemma_assoc_pos_in_range(d.children, name);
        crate::assoc::lemma_assoc_remove(d.children, assoc_pos(d.children, name));
        let pm_old = assoc_map(d.children);
        let pm_new = pm_old.remove(name);
        assert(assoc_map(d2.children) == pm_new);
        assert(dir_shape(x0, m0, parent) == Some((pm_old, d.parent)));
        assert(dir_shape(x2, m2, parent) == Some((pm_new, d.parent)));
        assert(dir_shape(x2, m2, target) is None);
        assert(record_ok(index_map(x0)[target], m0));
        assert forall|i: u64| i != target && i != parent implies #[trigger] dir_shape(x2, m2, i)
            == dir_shape(x0, m0, i) by {
            if index_map(x0).contains_key(i) {
                assert(record_ok(index_map(x0)[i], m0));
                assert(m2[index_map(x0)[i]] == m0[index_map(x0)[i]]);
            }
        }
        assert(forall|i: u64| #[trigger]
            index_map(x2).contains_key(i) == (index_map(x0).contains_key(i) && i != target));
        // the purged inode lists nothing and is nobody's parent
        assert(match dir_shape(x0, m0, target) {
            Some(s) => s.0 =~= Map::<Seq<u8>, u64>::empty(),
            None => true,
        }) by {
            match dec_record(m0[index_map(x0)[target]]).unwrap() {
                RecordV::Directory(td) => {
                    assert(td.children =~= Seq::<(Seq<u8>, u64)>::empty());
                },
                RecordV::File(_) => {
                },
            }
        }
        assert forall|i: u64| #[trigger]
            dir_shape(x2, m2, i) is Some implies dir_shape(x0, m0, i) is Some && dir_shape(
            x0,
            m0,
            i,
        ).unwrap().1 == dir_shape(x2, m2, i).unwrap().1 && dir_shape(x0, m0, i).unwrap().1
            != target by {
            assert(dir_shape(x0, m0, i) is Some);
            let pf = dir_shape(x0, m0, i).unwrap().1;
            assert(dir_shape(x0, m0, pf) is Some);
            if pf == target {
                if i == ROOT_INODE {
                    assert(false);
                } else {
                    let n0 = choose|n: Seq<u8>|
                        #[trigger] dir_shape(x0, m0, pf).unwrap().0.contains_key(n) && dir_shape(
                            x0,
                            m0,
                            pf,
                        ).unwrap().0[n] == i;
                    assert(false);
                }
            }
        }
        // every slot of the new tree is an old slot other than the removed one
        assert forall|i: u64, n: Seq<u8>|
            dir_shape(x2, m2, i) is Some && #[trigger] dir_shape(x2, m2, i).unwrap().0.contains_key(
                n,
            ) implies dir_shape(x0, m0, i) is Some && dir_shape(x0, m0, i).unwrap().0.contains_key(
            n,
        ) && dir_shape(x0, m0, i).unwrap().0[n] == dir_shape(x2, m2, i).unwrap().0[n] && !(i
            == parent && n == name) by {
            if i == parent {
                assert(!pm_new.contains_key(name));
                assert(pm_new[n] == pm_old[n]);
            }
        }
        // children resolve
        assert forall|i: u64, n: Seq<u8>|
            dir_shape(x2, m2, i) is Some && #[trigger] dir_shape(x2, m2, i).unwrap().0.contains_key(
                n,
            ) implies index_map(x2).contains_key(dir_shape(x2, m2, i).unwrap().0[n]) by {
            let v = dir_shape(x2, m2, i).unwrap().0[n];
            assert(index_map(x0).contains_key(v));
            if v == target {
                assert(dir_shape(x0, m0, parent).unwrap().0.contains_key(name));
                assert(dir_shape(x0, m0, parent).unwrap().0[name] == target);
                assert(i == parent && n == name);
                assert(false);
            }
        }
        // parents stay directories
        assert forall|i: u64| #[trigger] dir_shape(x2, m2, i) is Some implies dir_shape(
            x2,
            m2,
            dir_shape(x2, m2, i).unwrap().1,
        ) is Some by {
            let pf = dir_shape(x2, m2, i).unwrap().1;
            assert(pf != target);
            if pf == parent {
            } else {
                assert(dir_shape(x2, m2, pf) == dir_shape(x0, m0, pf));
            }
        }
        // no inode gains a second slot
        assert forall|i1: u64, n1: Seq<u8>, i2: u64, n2: Seq<u8>|
            dir_shape(x2, m2, i1) is Some && dir_shape(x2, m2, i2) is Some && #[trigger] dir_shape(
                x2,
                m2,
                i1,
            ).unwrap().0.contains_key(n1) && #[trigger] dir_shape(x2, m2, i2).unwrap().0.contains_key(
                n2,
            ) && dir_shape(x2, m2, i1).unwrap().0[n1] == dir_shape(x2, m2, i2).unwrap().0[n2]
            implies i1 == i2 && n1 == n2 by {
            assert(dir_shape(x0, m0, i1).unwrap().0.contains_key(n1));
            assert(dir_shape(x0, m0, i2).unwrap().0.contains_key(n2));
        }
        // every directory but the root is listed by its parent
        assert forall|i: u64| #[trigger]
            dir_shape(x2, m2, i) is Some && i != ROOT_INODE implies exists|n: Seq<u8>|
            #[trigger] dir_shape(x2, m2, dir_shape(x2, m2, i).unwrap().1).unwrap().0.contains_key(n)
                && dir_shape(x2, m2, dir_shape(x2, m2, i).unwrap().1).unwrap().0[n] == i by {
            let pf = dir_shape(x0, m0, i).unwrap().1;
            assert(dir_shape(x2, m2, i).unwrap().1 == pf);
            let n0 = choose|n: Seq<u8>|
                #[trigger] dir_shape(x0, m0, pf).unwrap().0.contains_key(n) && dir_shape(
                    x0,
                    m0,
                    pf,
                ).unwrap().0[n] == i;
            if pf == parent {
                assert(i != target);
                assert(n0 != name);
                assert(pm_new.contains_key(n0) && pm_new[n0] == i);
            } else {
                assert(dir_shape(x2, m2, pf) == dir_shape(x0, m0, pf));
            }
            assert(dir_shape(x2, m2, dir_shape(x2, m2, i).unwrap().1).unwrap().0.contains_key(n0)
                && dir_shape(x2, m2, dir_shape(x2, m2, i).unwrap().1).unwrap().0[n0] == i);
        }
        assert(dir_shape(x2, m2, ROOT_INODE).unwrap().1 == ROOT_INODE);
        assert(topology_ok(x2, m2));
        assert(index_ok(x2, m2));
        assert(self.fs_record(parent) == Some(RecordV::Directory(d2)));
        assert forall|i2: u64| i2 != target && i2 != parent implies #[trigger] self.fs_record(i2)
            == prev.fs_record(i2) by {
            if index_map(x0).contains_key(i2) {
                assert(record_ok(index_map(x0)[i2], m0));
                assert(m2[index_map(x0)[i2]] == m0[index_map(x0)[i2]]);
            }
        }
        assert forall|i2: u64| i2 != target && i2 != parent implies #[trigger] self.fs_content(i2)
            == prev.fs_content(i2) by {
            if prev.fs_record(i2) is Some {
                match prev.fs_record(i2).unwrap() {
                    RecordV::File(f) => {
                        assert(record_ok(index_map(x0)[i2], m0));
                        assert(m0.contains_key(f.content_hash));
                        assert(m2[f.content_hash] == m0[f.content_hash]);
                    },
                    RecordV::Directory(_) => {
                    },
                }
            }
        }
    }

    /// Removes a file by name: lowers its reference counts (cascading into
    /// its payload), unbinds the name, and purges its inode.
    pub fn remove_file_by_name(&mut self, parent: INode, name: &Filename) -> (r: Result<
        (),
        FileOperationError,
    >)
        requires
            old(self).inv(),
        ensures
            final(self).inv(),
            match r {
                Ok(_) => {
                    let target = old(self).name_check(parent@, name@).unwrap();
                    let d = old(self).dir_check(parent@).unwrap();
                    let d2 = Self::removed_dir(d, name@);
                    &&& old(self).name_check(parent@, name@) is Ok
                    &&& old(self).fs_record(target) matches Some(RecordV::File(_))
                    &&& !final(self).has_inode(target)
                    &&& final(self).fs_record(target) is None
                    &&& final(self).fs_record(parent@) == Some(RecordV::Directory(d2))
                    &&& !assoc_map(d2.children).contains_key(name@)
                    &&& final(self).fs_index().next == old(self).fs_index().next
                    &&& (forall|i2: u64|
                        i2 != target && i2 != parent@ ==> #[trigger] final(self).fs_record(i2)
                            == old(self).fs_record(i2))
                    &&& (forall|i2: u64|
                        i2 != target && i2 != parent@ ==> #[trigger] final(self).fs_content(i2)
                            == old(self).fs_content(i2))
                    &&& final(self).refs() == Self::remove_entry_refs(
                        unbump_all(
                            unbump(old(self).refs(), index_map(old(self).fs_index())[target]),
                            outgoing_of(old(self).fs_record(target).unwrap()),
                        ),
                        old(self).fs_index(),
                        old(self).root(),
                        parent@,
                        d,
                        name@,
                        target,
                    )
                    &&& extends(old(self).contents(), final(self).contents())
                },
                Err(e) => {
                    &&& final(self).root() == old(self).root()
                    &&& final(self).same_tree(old(self))
                    &&& (e != FileOperationError::CorruptBlob ==> final(self).unchanged_from(
                        old(self),
                    ) && (match old(self).name_check(parent@, name@) {
                        Err(e2) => e == e2,
                        Ok(child) => e == FileOperationError::IsADirectory && old(self).fs_record(
                            child,
                        ) matches Some(RecordV::Directory(_)),
                    }))
                    &&& (e == FileOperationError::CorruptBlob ==> old(self).name_check(
                        parent@,
                        name@,
                    ) is Ok && (old(self).fs_record(
                        old(self).name_check(parent@, name@).unwrap(),
                    ) matches Some(RecordV::File(_))) && !chain_clean(
                        old(self).contents(),
                        Self::remove_blobs(
                            old(self).fs_index(),
                            old(self).dir_check(parent@).unwrap(),
                            parent@,
                            name@,
                            old(self).name_check(parent@, name@).unwrap(),
                        ),
                    ))
                },
            },
    {
        let ghost m0 = self.contents();
        let ghost x0 = self.fs_index();
        let deleted_file = self.lookup_file_by_name(parent, name)?;
        match self.store.delete_record(&deleted_file.source) {
            Ok(_) => {
            },
            Err(_) => {
                proof {
                    assert(record_ok(index_map(x0)[deleted_file.inode@], m0));
                    assert(false);
                }
            },
        };
        let parent_resp = match self.lookup_directory_by_inode(parent) {
            Ok(p) => p,
            Err(_) => {
                proof {
                    assert(false);
                }
                vstd::pervasive::unreached()
            },
        };
        proof {
            assert(deleted_file.inode@ != parent@) by {
                assert(old(self).fs_record(deleted_file.inode@) matches Some(RecordV::File(_)));
                assert(old(self).fs_record(parent@) matches Some(RecordV::Directory(_)));
            }
        }
        self.remove_entry(
            parent,
            name,
            parent_resp,
            deleted_file.inode,
            Ghost(m0),
            Ghost(x0),
        )
    }

    /// Removes an empty directory by name: unbinds the name and purges its
    /// inode; a non-empty target is refused.
    pub fn remove_directory_by_name(&mut self, parent: INode, name: &Filename) -> (r: Result<
        (),
        FileOperationError,
    >)
        requires
            old(self).inv(),
        ensures
            final(self).inv(),
            match r {
                Ok(_) => {
                    let target = old(self).name_check(parent@, name@).unwrap();
                    let d = old(self).dir_check(parent@).unwrap();
                    let d2 = Self::removed_dir(d, name@);
                    &&& old(self).name_check(parent@, name@) is Ok
                    &&& (match old(self).fs_record(target) {
                        Some(RecordV::Directory(td)) => td.children.len() == 0,
                        _ => false,
                    })
                    &&& !final(self).has_inode(target)
                    &&& final(self).fs_record(target) is None
                    &&& final(self).fs_record(parent@) == Some(RecordV::Directory(d2))
                    &&& !assoc_map(d2.children).contains_key(name@)
                    &&& final(self).fs_index().next == old(self).fs_index().next
                    &&& (forall|i2: u64|
                        i2 != target && i2 != parent@ ==> #[trigger] final(self).fs_record(i2)
                            == old(self).fs_record(i2))
                    &&& (forall|i2: u64|
                        i2 != target && i2 != parent@ ==> #[trigger] final(self).fs_content(i2)
                            == old(self).fs_content(i2))
                    &&& final(self).refs() == Self::remove_entry_refs(
                        unbump_all(
                            unbump(old(self).refs(), index_map(old(self).fs_index())[target]),
                            outgoing_of(old(self).fs_record(target).unwrap()),
                        ),
                        old(self).fs_index(),
                        old(self).root(),
                        parent@,
                        d,
                        name@,
                        target,
                    )
                    &&& extends(old(self).contents(), final(self).contents())
                },
                Err(e) => {
                    &&& final(self).root() == old(self).root()
                    &&& final(self).same_tree(old(self))
                    &&& (e != FileOperationError::CorruptBlob ==> final(self).unchanged_from(
                        old(self),
                    ) && (match old(self).name_check(parent@, name@) {
                        Err(e2) => e == e2,
                        Ok(child) => (e == FileOperationError::NotADirectory && old(
                            self,
                        ).fs_record(child) matches Some(RecordV::File(_))) || (e
                            == FileOperationError::DirectoryNotEmpty && (match old(
                            self,
                        ).fs_record(child) {
                            Some(RecordV::Directory(td)) => td.children.len() > 0,
                            _ => false,
                        })),
                    }))
                    &&& (e == FileOperationError::CorruptBlob ==> old(self).name_check(
                        parent@,
                        name@,
                    ) is Ok && (match old(self).fs_record(
                        old(self).name_check(parent@, name@).unwrap(),
                    ) {
                        Some(RecordV::Directory(td)) => td.children.len() == 0,
                        _ => false,
                    }) && !chain_clean(
                        old(self).contents(),
                        Self::remove_blobs(
                            old(self).fs_index(),
                            old(self).dir_check(parent@).unwrap(),
                            parent@,
                            name@,
                            old(self).name_check(parent@, name@).unwrap(),
                        ),
                    ))
                },
            },
    {
        let ghost m0 = self.contents();
        let ghost x0 = self.fs_index();
        let target = self.lookup_directory_by_name(parent, name)?;
        if target.inner.size() > 0 {
            return Err(FileOperationError::DirectoryNotEmpty);
        }
        match self.store.delete_record(&target.source) {
            Ok(_) => {
            },
            Err(_) => {
                proof {
                    assert(record_ok(index_map(x0)[target.inode@], m0));
                    assert(false);
                }
            },
        };
        let parent_resp = match self.lookup_directory_by_inode(parent) {
            Ok(p) => p,
            Err(_) => {
                proof {
                    assert(false);
                }
                vstd::pervasive::unreached()
            },
        };
        proof {
            assert(target.inode@ != parent@) by {
                let d = old(self).dir_check(parent@).unwrap();
                if target.inode@ == parent@ {
                    assert(old(self).fs_record(parent@) == Some(
                        RecordV::Directory(target.inner@),
                    ));
                    assert(target.inner@.children.len() == 0);
                    assert(assoc_map(d.children).contains_key(name@));
                    crate::assoc::lemma_assoc_domain(d.children, name@);
                }
            }
        }
        self.remove_entry(parent, name, parent_resp, target.inode, Ghost(m0), Ghost(x0))
    }

    /// The closing argument of a rebind: the committed state is well-formed
    /// and holds exactly the rewritten tree.
    proof fn lemma_update_commit(
        &self,
        prev: &Self,
        ino: u64,
        record: Record,
        m0: Map<Seq<u8>, Seq<u8>>,
        x0: IndexV,
        m1: Map<Seq<u8>, Seq<u8>>,
        m2: Map<Seq<u8>, Seq<u8>>,
    )
        requires
            self.store_inv(),
            prev.inv(),
            prev.contents() == m0,
            prev.fs_index() == x0,
            index_map(x0).contains_key(ino),
            prev.record_fits(record@),
            Self::same_shape(dec_record(m0[index_map(x0)[ino]]).unwrap(), record@),
            put_clean(m0, enc_record(record@)),
            m1 == m0.insert(hash_of(enc_record(record@)), enc_record(record@)),
            put_clean(m1, enc_index(updated_index(x0, ino, hash_of(enc_record(record@))))),
            m2 == m1.insert(
                hash_of(enc_index(updated_index(x0, ino, hash_of(enc_record(record@))))),
                enc_index(updated_index(x0, ino, hash_of(enc_record(record@)))),
            ),
            self.contents() == m2,
            self.root() == hash_of(enc_index(updated_index(x0, ino, hash_of(enc_record(record@))))),
            assoc_distinct(updated_index(x0, ino, hash_of(enc_record(record@))).mapping),
            forall|i: int|
                0 <= i < updated_index(x0, ino, hash_of(enc_record(record@))).mapping.len()
                    ==> #[trigger] updated_index(
                    x0,
                    ino,
                    hash_of(enc_record(record@)),
                ).mapping[i].0 < updated_index(x0, ino, hash_of(enc_record(record@))).next,
            index_map(updated_index(x0, ino, hash_of(enc_record(record@)))) == index_map(
                x0,
            ).insert(ino, hash_of(enc_record(record@))),
            index_len_ok_holds(updated_index(x0, ino, hash_of(enc_record(record@)))),
        ensures
            self.inv(),
            self.fs_index() == updated_index(x0, ino, hash_of(enc_record(record@))),
            self.fs_record(ino) == Some(record@),
            forall|i2: u64| i2 != ino ==> #[trigger] self.fs_record(i2) == prev.fs_record(i2),
            forall|i2: u64| i2 != ino ==> #[trigger] self.fs_content(i2) == prev.fs_content(i2),
            match record@ {
                RecordV::File(f) => self.fs_content(ino) == dec_block(m0[f.content_hash]),
                RecordV::Directory(_) => self.fs_content(ino) is None,
            },
    {
        let b1 = enc_record(record@);
        let h1 = hash_of(b1);
        let x2 = updated_index(x0, ino, h1);
        let b2 = enc_index(x2);
        let h2 = hash_of(b2);
        lemma_extends_insert_clean(m0, b1);
        lemma_extends_insert_clean(m1, b2);
        lemma_record_round_trip_applied(record);
        lemma_index_round_trip(x2);
        assert(m2.contains_key(h2) && m2[h2] == b2);
        assert(state_index(m2, self.root()) == Some(x2));
        // the record blob survives the snapshot put
        assert(m2.contains_key(h1) && m2[h1] == b1);
        assert(dec_record(m2[h1]) == Some(record@));
        // every mapped inode still resolves
        assert forall|i2: u64| #[trigger]
            index_map(x2).contains_key(i2) implies record_ok(index_map(x2)[i2], m2) by {
            if i2 == ino {
                match record@ {
                    RecordV::File(f) => {
                        assert(m2[f.content_hash] == m0[f.content_hash]);
                    },
                    RecordV::Directory(_) => {
                    },
                }
            } else {
                assert(index_map(x0).contains_key(i2));
                assert(record_ok(index_map(x0)[i2], m0));
                lemma_record_ok_mono(index_map(x0)[i2], m0, m2);
            }
        }
        assert(index_map(x2).contains_key(ROOT_INODE));
        assert(record_ok(index_map(x0)[ino], m0));
        if ino == ROOT_INODE {
            assert(dec_record(m0[index_map(x0)[ino]]).unwrap() is Directory);
            assert(dec_record(m2[index_map(x2)[ROOT_INODE]]).unwrap() is Directory);
        } else {
            assert(index_map(x2)[ROOT_INODE] == index_map(x0)[ROOT_INODE]);
            assert(record_ok(index_map(x0)[ROOT_INODE], m0));
            assert(m2[index_map(x0)[ROOT_INODE]] == m0[index_map(x0)[ROOT_INODE]]);
        }
        // the tree structure is untouched: the rebound record has the same
        // shape, and every other binding is byte-identical
        assert forall|i2: u64| #[trigger] dir_shape(x2, m2, i2) == dir_shape(x0, m0, i2) by {
            if i2 == ino {
                assert(m2[h1] == b1);
                assert(dec_record(m2[index_map(x2)[ino]]) == Some(record@));
            } else if index_map(x0).contains_key(i2) {
                assert(record_ok(index_map(x0)[i2], m0));
                assert(m2[index_map(x0)[i2]] == m0[index_map(x0)[i2]]);
            }
        }
        assert(forall|i2: u64| #[trigger]
            index_map(x2).contains_key(i2) == index_map(x0).contains_key(i2));
        lemma_topology_pointwise(x0, m0, x2, m2);
        assert(index_ok(x2, m2));
        // the rewritten tree
        assert(self.fs_record(ino) == Some(record@));
        assert forall|i2: u64| i2 != ino implies #[trigger] self.fs_record(i2) == prev.fs_record(
            i2,
        ) by {
            if index_map(x0).contains_key(i2) {
                assert(record_ok(index_map(x0)[i2], m0));
                assert(m2[index_map(x0)[i2]] == m0[index_map(x0)[i2]]);
            }
        }
        assert forall|i2: u64| i2 != ino implies #[trigger] self.fs_content(i2)
            == prev.fs_content(i2) by {
            if prev.fs_record(i2) is Some {
                match prev.fs_record(i2).unwrap() {
                    RecordV::File(f) => {
                        assert(record_ok(index_map(x0)[i2], m0));
                        assert(m2[f.content_hash] == m0[f.content_hash]);
                    },
                    RecordV::Directory(_) => {
                    },
                }
            }
        }
        match record@ {
            RecordV::File(f) => {
                assert(m2[f.content_hash] == m0[f.content_hash]);
            },
            RecordV::Directory(_) => {
            },
        }
    }
}

/// The window a read returns: empty past the end, otherwise the bytes from
/// `offset` to the lesser of `offset + size` and the payload's end.
pub open spec fn read_slice(c: Seq<u8>, offset: int, size: int) -> Seq<u8> {
    if offset >= c.len() {
        Seq::empty()
    } else if offset + size <= c.len() {
        c.subrange(offset, offset + size)
    } else {
        c.subrange(offset, c.len() as int)
    }
}

/// One store extends another: every blob of the first is held unchanged by
/// the second. Checked puts only ever extend the store.
pub open spec fn extends(m1: Map<Seq<u8>, Seq<u8>>, m2: Map<Seq<u8>, Seq<u8>>) -> bool {
    forall|k: Seq<u8>| #[trigger]
        m1.contains_key(k) ==> m2.contains_key(k) && m2[k] == m1[k]
}

/// A clean put extends the store.
pub proof fn lemma_extends_insert_clean(m: Map<Seq<u8>, Seq<u8>>, b: Seq<u8>)
    requires
        put_clean(m, b),
    ensures
        extends(m, m.insert(hash_of(b), b)),
{
}

/// Resolution facts survive store extension.
pub proof fn lemma_record_ok_mono(h: Seq<u8>, m1: Map<Seq<u8>, Seq<u8>>, m2: Map<Seq<u8>, Seq<u8>>)
    requires
        record_ok(h, m1),
        extends(m1, m2),
    ensures
        record_ok(h, m2),
{
    assert(m2[h] == m1[h]);
    match dec_record(m1[h]).unwrap() {
        RecordV::File(f) => {
            assert(m2[f.content_hash] == m1[f.content_hash]);
        },
        RecordV::Directory(_) => {
        },
    }
}

/// A run of puts, each clean in the store the previous ones produced.
pub open spec fn chain_clean(m: Map<Seq<u8>, Seq<u8>>, blobs: Seq<Seq<u8>>) -> bool
    decreases blobs.len(),
{
    if blobs.len() == 0 {
        true
    } else {
        put_clean(m, blobs[0]) && chain_clean(m.insert(hash_of(blobs[0]), blobs[0]), blobs.drop_first())
    }
}

/// The snapshot after rebinding one inode to a new record hash.
pub open spec fn updated_index(x: IndexV, ino: u64, h: Seq<u8>) -> IndexV {
    IndexV { next: x.next, mapping: x.mapping.update(assoc_pos(x.mapping, ino), (ino, h)) }
}

/// The blobs a record rebind writes: the record, then the new snapshot.
pub open spec fn update_index_blobs(x: IndexV, ino: u64, r: RecordV) -> Seq<Seq<u8>> {
    let b1 = enc_record(r);
    seq![b1, enc_index(updated_index(x, ino, hash_of(b1)))]
}

/// The payload after a write: zero-extended up to the offset if the old
/// payload is shorter, with the data overwriting from the offset on, and the
/// rest of the old payload kept.
pub open spec fn spliced(c: Seq<u8>, offset: int, d: Seq<u8>) -> Seq<u8> {
    let len = if offset + d.len() > c.len() {
        offset + d.len()
    } else {
        c.len() as int
    };
    Seq::new(
        len as nat,
        |i: int|
            if offset <= i < offset + d.len() {
                d[i - offset]
            } else if i < c.len() {
                c[i]
            } else {
                0u8
            },
    )
}

/// Builds the spliced payload.
pub fn splice_bytes(c: &[u8], offset: usize, d: &[u8]) -> (out: Vec<u8>)
    requires
        offset + d@.len() <= usize::MAX,
    ensures
        out@ == spliced(c@, offset as int, d@),
{
    let total: usize = if offset + d.len() > c.len() {
        offset + d.len()
    } else {
        c.len()
    };
    let mut out: Vec<u8> = Vec::new();
    let mut i: usize = 0;
    while i < total
        invariant
            0 <= i <= total,
            out@.len() == i,
            total == spliced(c@, offset as int, d@).len(),
            offset + d@.len() <= usize::MAX,
            forall|j: int| 0 <= j < i ==> out@[j] == spliced(c@, offset as int, d@)[j],
        decreases total - i,
    {
        let byte: u8 = if offset <= i && i < offset + d.len() {
            d[i - offset]
        } else if i < c.len() {
            c[i]
        } else {
            0u8
        };
        out.push(byte);
        i += 1;
    }
    assert(out@ =~= spliced(c@, offset as int, d@));
    out
}

/// Inode monotonicity: in a well-formed snapshot every mapped inode lies
/// strictly below the allocation counter, so the next allocation can never
/// reuse a live inode; creation returns the counter and advances it, so
/// allocated inodes are strictly increasing across any sequence of creates.
pub proof fn lemma_next_inode_fresh(x: IndexV, m: Map<Seq<u8>, Seq<u8>>)
    requires
        index_ok(x, m),
    ensures
        !index_map(x).contains_key(x.next),
        forall|ino: u64| #[trigger] index_map(x).contains_key(ino) ==> ino < x.next,
{
    assert forall|ino: u64| #[trigger] index_map(x).contains_key(ino) implies ino < x.next by {
        crate::assoc::lemma_assoc_domain(x.mapping, ino);
    }
}

/// Distinct child names, restated for directory models.
pub open spec fn entries_distinct_of(d: DirV) -> bool {
    assoc_distinct(d.children)
}

/// The codec's length side conditions, restated for index snapshots.
pub open spec fn index_len_ok_holds(x: IndexV) -> bool {
    crate::codec::index_len_ok(x)
}

/// Round trip at the record level, phrased over an executable record.
pub proof fn lemma_record_round_trip_applied(record: Record)
    ensures
        dec_record(enc_record(record@)) == Some(record@),
{
    lemma_record_len_ok(&record);
    lemma_record_round_trip(record@);
}

} // verus!
