//! BridgeFS: a user-space filesystem core whose entire state is a
//! content-addressed object store plus a single mutable root pointer.
//!
//! Every record is serialized by a deterministic codec, hashed, and stored
//! under that hash; mutations allocate new objects and advance the root
//! pointer to a new inode-index snapshot.

pub mod assoc;
pub mod bridgefs;
pub mod codec;
pub mod content_store;
pub mod counting_store;
pub mod data_block;
pub mod file_record;
pub mod filename;
pub mod fuse_store_ext;
pub mod hash_pointer;
pub mod index;
pub mod manifest;
pub mod inode;
pub mod response;
