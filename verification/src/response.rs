use vstd::prelude::*;
use crate::data_block::DataBlock;
use crate::file_record::{DirectoryRecord, FileRecord, Record};
use crate::filename::Filename;
use crate::hash_pointer::TypedHashPointer;
use crate::inode::INode;

verus! {

/// The closed error taxonomy the core surfaces to callers. The first five
/// are precondition failures; the last two are fatal integrity failures.
#[derive(Clone, Copy, Debug, PartialEq, Eq, Structural)]
pub enum FileOperationError {
    NotFound,
    NotADirectory,
    IsADirectory,
    DirectoryNotEmpty,
    AlreadyExists,
    CorruptBlob,
    MissingBlob,
}

/// A record handed back to a caller, together with the inode it answers for
/// and the typed hash it was loaded from.
#[derive(Debug)]
pub struct INodeResponse<T, U> {
    pub inner: T,
    pub inode: INode,
    pub source: TypedHashPointer<U>,
}

impl<T, U> INodeResponse<T, U> {
    pub fn new(inner: T, inode: INode, source: TypedHashPointer<U>) -> (r: Self)
        ensures
            r.inner == inner,
            r.inode == inode,
            r.source@ == source@,
    {
        INodeResponse { inner, inode, source }
    }

    /// The same response about a different payload.
    pub fn swap_inner<V>(self, item: V) -> (r: INodeResponse<V, U>)
        ensures
            r.inner == item,
            r.inode == self.inode,
            r.source@ == self.source@,
    {
        INodeResponse { inner: item, inode: self.inode, source: self.source }
    }
}

impl INodeResponse<DirectoryRecord, Record> {
    /// Widens the payload back into the record sum type.
    pub fn convert_inner(self) -> (r: INodeResponse<Record, Record>)
        ensures
            r.inner == Record::Directory(self.inner),
            r.inode == self.inode,
            r.source@ == self.source@,
    {
        INodeResponse { inner: Record::Directory(self.inner), inode: self.inode, source: self.source }
    }
}

/// The payload a read returns: the file record consulted and the bytes read.
#[derive(Debug)]
pub struct ReadFileResponse {
    pub file: INodeResponse<FileRecord, Record>,
    pub datablock: DataBlock,
}

/// One directory listing entry.
#[derive(Debug)]
pub struct ListDirectoryEntry {
    pub name: Filename,
    pub record: INodeResponse<Record, Record>,
}

/// A whole directory listing: the directory itself and its entries, the
/// children first, then "." and "..".
#[derive(Debug)]
pub struct ListDirectoryResponse {
    pub directory: INodeResponse<DirectoryRecord, Record>,
    pub entries: Vec<ListDirectoryEntry>,
}

} // verus!
