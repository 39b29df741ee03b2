use vstd::prelude::*;
use crate::codec::{
    dec_block, dec_index, dec_record, decode_block, decode_index, decode_record, enc_block,
    enc_index, enc_record, encode_block, encode_index, encode_record, RecordV,
};
use crate::content_store::ContentStore;
use crate::data_block::DataBlock;
use crate::file_record::Record;
use crate::filename::bytes_eq;
use crate::hash_pointer::{hash_of, HashPointer, TypedHashPointer};
use crate::index::INodeIndex;
use crate::manifest::{bump, unbump, unbump_all, Manifest};
use crate::response::FileOperationError;

verus! {

/// Whether storing these bytes leaves every existing blob intact: the hash
/// is either fresh or already bound to the same bytes. Content addressing
/// guarantees this unless the hash collides.
pub open spec fn put_clean(m: Map<Seq<u8>, Seq<u8>>, bytes: Seq<u8>) -> bool {
    m.contains_key(hash_of(bytes)) ==> m[hash_of(bytes)] == bytes
}

/// The outgoing references of a record: the hashes its deletion releases.
pub open spec fn outgoing_of(r: RecordV) -> Seq<Seq<u8>> {
    match r {
        RecordV::File(f) => seq![f.content_hash],
        RecordV::Directory(_) => Seq::empty(),
    }
}

/// A stored value's delete-references policy: which reference counts its
/// deletion lowers.
pub trait HasReferences: Sized {
    /// The hashes this value references, in release order.
    spec fn outgoing_refs(&self) -> Seq<Seq<u8>>;

    /// Releases this value's outgoing references.
    fn delete_references(&self, manifest: &mut Manifest)
        requires
            old(manifest).wf(),
        ensures
            final(manifest).wf(),
            final(manifest).refs() == unbump_all(old(manifest).refs(), self.outgoing_refs()),
    ;
}

impl HasReferences for DataBlock {
    /// A data block is a leaf: it references nothing.
    open spec fn outgoing_refs(&self) -> Seq<Seq<u8>> {
        Seq::empty()
    }

    fn delete_references(&self, manifest: &mut Manifest) {
    }
}

impl HasReferences for Record {
    /// A file references its payload; a directory's children are referenced
    /// through the inode index, not directly, so it releases nothing here.
    open spec fn outgoing_refs(&self) -> Seq<Seq<u8>> {
        outgoing_of(self@)
    }

    fn delete_references(&self, manifest: &mut Manifest) {
        match self {
            Record::File(f) => {
                manifest.remove_reference(f.content_hash.untyped());
                proof {
                    let ks = self.outgoing_refs();
                    assert(ks[0] == f.content_hash@);
                    assert(ks.drop_first() =~= Seq::<Seq<u8>>::empty());
                    assert(unbump_all(unbump(old(manifest).refs(), ks[0]), ks.drop_first())
                        == unbump(old(manifest).refs(), ks[0]));
                }
            },
            Record::Directory(_) => {
            },
        }
    }
}

impl HasReferences for INodeIndex {
    /// Each mapping entry stands for a still-live inode whose replacement is
    /// driven one record at a time, so replacing a snapshot releases nothing.
    open spec fn outgoing_refs(&self) -> Seq<Seq<u8>> {
        Seq::empty()
    }

    fn delete_references(&self, manifest: &mut Manifest) {
    }
}

/// The accounting store: a blob store and the reference manifest, moved in
/// step. Stores raise counts; deletions and replacements lower the old
/// count, cascade per the value's policy, and raise the new count.
#[derive(Debug)]
pub struct CountingStore<T: ContentStore> {
    store: T,
    manifest: Manifest,
}

impl<T: ContentStore> CountingStore<T> {
    /// The blobs currently held, keyed by hash bytes.
    pub closed spec fn contents(&self) -> Map<Seq<u8>, Seq<u8>> {
        self.store.contents()
    }

    /// The reference counts currently held.
    pub closed spec fn refs(&self) -> Map<Seq<u8>, u64> {
        self.manifest.refs()
    }

    pub closed spec fn inv(&self) -> bool {
        &&& self.store.inv()
        &&& self.manifest.wf()
    }

    pub fn new(store: T, manifest: Manifest) -> (r: CountingStore<T>)
        ensures
            r.contents() == store.contents(),
            r.refs() == manifest.refs(),
            store.inv() && manifest.wf() ==> r.inv(),
    {
        CountingStore { store, manifest }
    }

    /// Stores bytes under their hash and raises the count, refusing to
    /// disturb an existing blob whose bytes differ.
    fn put_checked(&mut self, bytes: &[u8]) -> (r: Result<HashPointer, FileOperationError>)
        requires
            old(self).inv(),
        ensures
            final(self).inv(),
            match r {
                Ok(h) => h@ == hash_of(bytes@) && final(self).contents() == old(
                    self,
                ).contents().insert(hash_of(bytes@), bytes@) && final(self).refs() == bump(
                    old(self).refs(),
                    hash_of(bytes@),
                ) && put_clean(old(self).contents(), bytes@),
                Err(e) => e == FileOperationError::CorruptBlob && *final(self) == *old(self)
                    && !put_clean(old(self).contents(), bytes@),
            },
    {
        let hash = HashPointer::hash_bytes(bytes);
        if self.store.contains_content(&hash) {
            let existing = self.store.get_content(&hash);
            if !bytes_eq(existing.as_slice(), bytes) {
                return Err(FileOperationError::CorruptBlob);
            }
        }
        let stored = self.store.add_content(bytes);
        self.manifest.add_reference(stored);
        Ok(stored)
    }

    /// Encodes and stores a record; the count of its hash rises by one.
    pub fn store_record(&mut self, value: &Record) -> (r: Result<
        TypedHashPointer<Record>,
        FileOperationError,
    >)
        requires
            old(self).inv(),
        ensures
            final(self).inv(),
            match r {
                Ok(h) => h@ == hash_of(enc_record(value@)) && final(self).contents() == old(
                    self,
                ).contents().insert(h@, enc_record(value@)) && final(self).refs() == bump(
                    old(self).refs(),
                    h@,
                ) && put_clean(old(self).contents(), enc_record(value@)),
                Err(e) => e == FileOperationError::CorruptBlob && *final(self) == *old(self)
                    && !put_clean(old(self).contents(), enc_record(value@)),
            },
    {
        let bytes = encode_record(value);
        match self.put_checked(bytes.as_slice()) {
            Ok(h) => Ok(TypedHashPointer::new(h)),
            Err(e) => Err(e),
        }
    }

    /// Encodes and stores a data block; the count of its hash rises by one.
    pub fn store_block(&mut self, value: &DataBlock) -> (r: Result<
        TypedHashPointer<DataBlock>,
        FileOperationError,
    >)
        requires
            old(self).inv(),
        ensures
            final(self).inv(),
            match r {
                Ok(h) => h@ == hash_of(enc_block(value@)) && final(self).contents() == old(
                    self,
                ).contents().insert(h@, enc_block(value@)) && final(self).refs() == bump(
                    old(self).refs(),
                    h@,
                ) && put_clean(old(self).contents(), enc_block(value@)),
                Err(e) => e == FileOperationError::CorruptBlob && *final(self) == *old(self)
                    && !put_clean(old(self).contents(), enc_block(value@)),
            },
    {
        let bytes = encode_block(value);
        match self.put_checked(bytes.as_slice()) {
            Ok(h) => Ok(TypedHashPointer::new(h)),
            Err(e) => Err(e),
        }
    }

    /// Encodes and stores an index snapshot; the count of its hash rises by
    /// one.
    pub fn store_index(&mut self, value: &INodeIndex) -> (r: Result<
        TypedHashPointer<INodeIndex>,
        FileOperationError,
    >)
        requires
            old(self).inv(),
        ensures
            final(self).inv(),
            match r {
                Ok(h) => h@ == hash_of(enc_index(value@)) && final(self).contents() == old(
                    self,
                ).contents().insert(h@, enc_index(value@)) && final(self).refs() == bump(
                    old(self).refs(),
                    h@,
                ) && put_clean(old(self).contents(), enc_index(value@)),
                Err(e) => e == FileOperationError::CorruptBlob && *final(self) == *old(self)
                    && !put_clean(old(self).contents(), enc_index(value@)),
            },
    {
        let bytes = encode_index(value);
        match self.put_checked(bytes.as_slice()) {
            Ok(h) => Ok(TypedHashPointer::new(h)),
            Err(e) => Err(e),
        }
    }

    /// Loads and decodes the record stored under a hash.
    pub fn get_record(&self, hash: &TypedHashPointer<Record>) -> (r: Result<
        Record,
        FileOperationError,
    >)
        requires
            self.inv(),
        ensures
            match r {
                Ok(v) => self.contents().contains_key(hash@) && dec_record(self.contents()[hash@])
                    == Some(v@),
                Err(e) => (e == FileOperationError::MissingBlob && !self.contents().contains_key(
                    hash@,
                )) || (e == FileOperationError::CorruptBlob && self.contents().contains_key(hash@)
                    && dec_record(self.contents()[hash@]) is None),
            },
    {
        let h = hash.untyped();
        if !self.store.contains_content(&h) {
            return Err(FileOperationError::MissingBlob);
        }
        let bytes = self.store.get_content(&h);
        match decode_record(bytes.as_slice()) {
            Some(v) => Ok(v),
            None => Err(FileOperationError::CorruptBlob),
        }
    }

    /// Loads and decodes the data block stored under a hash.
    pub fn get_block(&self, hash: &TypedHashPointer<DataBlock>) -> (r: Result<
        DataBlock,
        FileOperationError,
    >)
        requires
            self.inv(),
        ensures
            match r {
                Ok(v) => self.contents().contains_key(hash@) && dec_block(self.contents()[hash@])
                    == Some(v@),
                Err(e) => (e == FileOperationError::MissingBlob && !self.contents().contains_key(
                    hash@,
                )) || (e == FileOperationError::CorruptBlob && self.contents().contains_key(hash@)
                    && dec_block(self.contents()[hash@]) is None),
            },
    {
        let h = hash.untyped();
        if !self.store.contains_content(&h) {
            return Err(FileOperationError::MissingBlob);
        }
        let bytes = self.store.get_content(&h);
        match decode_block(bytes.as_slice()) {
            Some(v) => Ok(v),
            None => Err(FileOperationError::CorruptBlob),
        }
    }

    /// Loads and decodes the index snapshot stored under a hash.
    pub fn get_index(&self, hash: &TypedHashPointer<INodeIndex>) -> (r: Result<
        INodeIndex,
        FileOperationError,
    >)
        requires
            self.inv(),
        ensures
            match r {
                Ok(v) => self.contents().contains_key(hash@) && dec_index(self.contents()[hash@])
                    == Some(v@),
                Err(e) => (e == FileOperationError::MissingBlob && !self.contents().contains_key(
                    hash@,
                )) || (e == FileOperationError::CorruptBlob && self.contents().contains_key(hash@)
                    && dec_index(self.contents()[hash@]) is None),
            },
    {
        let h = hash.untyped();
        if !self.store.contains_content(&h) {
            return Err(FileOperationError::MissingBlob);
        }
        let bytes = self.store.get_content(&h);
        match decode_index(bytes.as_slice()) {
            Some(v) => Ok(v),
            None => Err(FileOperationError::CorruptBlob),
        }
    }

    /// Lowers the count of a record's hash and cascades into its outgoing
    /// references. Blobs are never physically removed here.
    pub fn delete_record(&mut self, hash: &TypedHashPointer<Record>) -> (r: Result<
        (),
        FileOperationError,
    >)
        requires
            old(self).inv(),
        ensures
            final(self).inv(),
            final(self).contents() == old(self).contents(),
            match r {
                Ok(_) => old(self).contents().contains_key(hash@) && dec_record(
                    old(self).contents()[hash@],
                ) is Some && final(self).refs() == unbump_all(
                    unbump(old(self).refs(), hash@),
                    outgoing_of(dec_record(old(self).contents()[hash@]).unwrap()),
                ),
                Err(e) => *final(self) == *old(self) && ((e == FileOperationError::MissingBlob
                    && !old(self).contents().contains_key(hash@)) || (e
                    == FileOperationError::CorruptBlob && old(self).contents().contains_key(hash@)
                    && dec_record(old(self).contents()[hash@]) is None)),
            },
    {
        let item = match self.get_record(hash) {
            Ok(v) => v,
            Err(e) => {
                return Err(e);
            },
        };
        self.manifest.remove_reference(hash.untyped());
        item.delete_references(&mut self.manifest);
        Ok(())
    }

    /// Replaces a record: lowers the old count, cascades, stores the new
    /// value and raises its count; all of it or none of it.
    pub fn replace_record(&mut self, previous: &TypedHashPointer<Record>, value: &Record) -> (r:
        Result<TypedHashPointer<Record>, FileOperationError>)
        requires
            old(self).inv(),
        ensures
            final(self).inv(),
            match r {
                Ok(h) => h@ == hash_of(enc_record(value@)) && old(self).contents().contains_key(
                    previous@,
                ) && dec_record(old(self).contents()[previous@]) is Some && final(self).contents()
                    == old(self).contents().insert(h@, enc_record(value@)) && final(self).refs()
                    == bump(
                    unbump_all(
                        unbump(old(self).refs(), previous@),
                        outgoing_of(dec_record(old(self).contents()[previous@]).unwrap()),
                    ),
                    h@,
                ) && put_clean(old(self).contents(), enc_record(value@)),
                Err(e) => *final(self) == *old(self) && ((e == FileOperationError::CorruptBlob
                    && !put_clean(old(self).contents(), enc_record(value@))) || (e
                    == FileOperationError::MissingBlob && !old(self).contents().contains_key(
                    previous@,
                )) || (e == FileOperationError::CorruptBlob && old(self).contents().contains_key(
                    previous@,
                ) && dec_record(old(self).contents()[previous@]) is None)),
            },
    {
        let bytes = encode_record(value);
        let hash = HashPointer::hash_bytes(bytes.as_slice());
        if self.store.contains_content(&hash) {
            let existing = self.store.get_content(&hash);
            if !bytes_eq(existing.as_slice(), bytes.as_slice()) {
                return Err(FileOperationError::CorruptBlob);
            }
        }
        let item = match self.get_record(previous) {
            Ok(v) => v,
            Err(e) => {
                return Err(e);
            },
        };
        self.manifest.remove_reference(previous.untyped());
        item.delete_references(&mut self.manifest);
        match self.put_checked(bytes.as_slice()) {
            Ok(h) => Ok(TypedHashPointer::new(h)),
            Err(e) => {
                proof {
                    assert(false);
                }
                Err(e)
            },
        }
    }

    /// Replaces a data block, as replace_record does; blocks have no
    /// outgoing references to cascade into.
    pub fn replace_block(&mut self, previous: &TypedHashPointer<DataBlock>, value: &DataBlock) -> (r:
        Result<TypedHashPointer<DataBlock>, FileOperationError>)
        requires
            old(self).inv(),
        ensures
            final(self).inv(),
            match r {
                Ok(h) => h@ == hash_of(enc_block(value@)) && final(self).contents() == old(
                    self,
                ).contents().insert(h@, enc_block(value@)) && final(self).refs() == bump(
                    unbump(old(self).refs(), previous@),
                    h@,
                ) && put_clean(old(self).contents(), enc_block(value@)),
                Err(e) => e == FileOperationError::CorruptBlob && *final(self) == *old(self)
                    && !put_clean(old(self).contents(), enc_block(value@)),
            },
    {
        let bytes = encode_block(value);
        let hash = HashPointer::hash_bytes(bytes.as_slice());
        if self.store.contains_content(&hash) {
            let existing = self.store.get_content(&hash);
            if !bytes_eq(existing.as_slice(), bytes.as_slice()) {
                return Err(FileOperationError::CorruptBlob);
            }
        }
        self.manifest.remove_reference(previous.untyped());
        match self.put_checked(bytes.as_slice()) {
            Ok(h) => Ok(TypedHashPointer::new(h)),
            Err(e) => {
                proof {
                    assert(false);
                }
                Err(e)
            },
        }
    }

    /// Replaces an index snapshot, as replace_record does; snapshots do not
    /// cascade into the records they map.
    pub fn replace_index(&mut self, previous: &TypedHashPointer<INodeIndex>, value: &INodeIndex) -> (r:
        Result<TypedHashPointer<INodeIndex>, FileOperationError>)
        requires
            old(self).inv(),
        ensures
            final(self).inv(),
            match r {
                Ok(h) => h@ == hash_of(enc_index(value@)) && final(self).contents() == old(
                    self,
                ).contents().insert(h@, enc_index(value@)) && final(self).refs() == bump(
                    unbump(old(self).refs(), previous@),
                    h@,
                ) && put_clean(old(self).contents(), enc_index(value@)),
                Err(e) => e == FileOperationError::CorruptBlob && *final(self) == *old(self)
                    && !put_clean(old(self).contents(), enc_index(value@)),
            },
    {
        let bytes = encode_index(value);
        let hash = HashPointer::hash_bytes(bytes.as_slice());
        if self.store.contains_content(&hash) {
            let existing = self.store.get_content(&hash);
            if !bytes_eq(existing.as_slice(), bytes.as_slice()) {
                return Err(FileOperationError::CorruptBlob);
            }
        }
        self.manifest.remove_reference(previous.untyped());
        match self.put_checked(bytes.as_slice()) {
            Ok(h) => Ok(TypedHashPointer::new(h)),
            Err(e) => {
                proof {
                    assert(false);
                }
                Err(e)
            },
        }
    }
}

} // verus!
