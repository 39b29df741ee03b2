use bridgefs::bridgefs::BridgeFS;
use bridgefs::content_store::InMemoryContentStore;
use bridgefs::file_record::{CommonAttrs, Record};
use bridgefs::filename::Filename;
use bridgefs::fuse_store_ext::FuseStoreExt;
use bridgefs::hash_pointer::InMemoryHashPointerReference;
use bridgefs::inode::INode;
use bridgefs::response::FileOperationError;

fn root() -> INode {
    INode::new(1)
}

fn name(s: &str) -> Filename {
    Filename::from_text(s)
}

fn fresh_fs() -> BridgeFS<InMemoryHashPointerReference, InMemoryContentStore> {
    let mut store = InMemoryContentStore::default();
    let initial_index_hash = store.empty_root_dir().expect("bootstrap");
    let pointer = InMemoryHashPointerReference::new(initial_index_hash.untyped());
    BridgeFS::new(pointer, store)
}

#[test]
fn empty_root_listing_has_exactly_dot_and_dotdot() {
    let mut fs = fresh_fs();
    let listing = fs.list_directory_by_inode(root()).expect("list root");
    assert_eq!(listing.entries.len(), 2);
    let first = &listing.entries[0];
    let second = &listing.entries[1];
    assert_eq!(first.name.name, b".".to_vec());
    assert_eq!(second.name.name, b"..".to_vec());
    // both resolve to the root directory record
    assert_eq!(first.record.inode.get(), 1);
    assert_eq!(second.record.inode.get(), 1);
    assert!(matches!(first.record.inner, Record::Directory(_)));
    assert!(matches!(second.record.inner, Record::Directory(_)));
}

#[test]
fn create_then_lookup_by_name() {
    let mut fs = fresh_fs();
    let created = fs
        .create_file(root(), name("a"), CommonAttrs::default())
        .expect("create");
    assert_eq!(created.inode.get(), 2);

    let looked_up = fs.lookup_record_by_name(root(), &name("a")).expect("lookup");
    match looked_up.inner {
        Record::File(f) => assert_eq!(f.size, 0),
        Record::Directory(_) => panic!("expected a file"),
    }

    let listing = fs.list_directory_by_inode(root()).expect("list root");
    assert_eq!(listing.entries.len(), 3);
    let mut names: Vec<String> = listing
        .entries
        .into_iter()
        .map(|e| String::from_utf8(e.name.name).unwrap())
        .collect();
    names.sort();
    assert_eq!(names, vec![".".to_string(), "..".to_string(), "a".to_string()]);
}

#[test]
fn write_then_read_returns_exact_bytes() {
    let mut fs = fresh_fs();
    let created = fs
        .create_file(root(), name("a"), CommonAttrs::default())
        .expect("create");
    assert_eq!(created.inode.get(), 2);

    let written = fs
        .write_to_file(created.inode, 0, b"Hello, BridgeFS!")
        .expect("write");
    assert_eq!(written, 16);

    let read = fs
        .read_file_data_by_inode(created.inode, 0, 1024)
        .expect("read");
    assert_eq!(read.datablock.data, b"Hello, BridgeFS!".to_vec());
    assert_eq!(read.file.inner.size, 16);

    let record = fs.lookup_file_by_inode(created.inode).expect("lookup");
    assert_eq!(record.inner.size, 16);
}

#[test]
fn sparse_extend_write_zero_fills_the_gap() {
    let mut fs = fresh_fs();
    let created = fs
        .create_file(root(), name("sparse"), CommonAttrs::default())
        .expect("create");

    let written = fs.write_to_file(created.inode, 5, b"abc").expect("write");
    assert_eq!(written, 3);

    let read = fs
        .read_file_data_by_inode(created.inode, 0, 1024)
        .expect("read");
    assert_eq!(read.datablock.data, vec![0u8, 0, 0, 0, 0, b'a', b'b', b'c']);

    let record = fs.lookup_file_by_inode(created.inode).expect("lookup");
    assert_eq!(record.inner.size, 8);
}

#[test]
fn nested_directory_write_read_and_nonempty_removal_refused() {
    let mut fs = fresh_fs();
    let dir = fs
        .create_directory(root(), name("d"), CommonAttrs::default())
        .expect("mkdir");
    assert_eq!(dir.inode.get(), 2);
    let file = fs
        .create_file(dir.inode, name("f"), CommonAttrs::default())
        .expect("create");
    assert_eq!(file.inode.get(), 3);

    fs.write_to_file(file.inode, 0, b"File under directory")
        .expect("write");
    let read = fs
        .read_file_data_by_inode(file.inode, 0, 1024)
        .expect("read");
    assert_eq!(read.datablock.data, b"File under directory".to_vec());

    let listing = fs.list_directory_by_inode(dir.inode).expect("list");
    assert_eq!(listing.entries.len(), 3);
    let names: Vec<String> = listing
        .entries
        .into_iter()
        .map(|e| String::from_utf8(e.name.name).unwrap())
        .collect();
    assert!(names.contains(&"f".to_string()));

    let removal = fs.remove_directory_by_name(root(), &name("d"));
    assert_eq!(removal.unwrap_err(), FileOperationError::DirectoryNotEmpty);
}

#[test]
fn remove_then_recreate_never_reuses_the_inode() {
    let mut fs = fresh_fs();
    let first = fs
        .create_file(root(), name("x"), CommonAttrs::default())
        .expect("create");
    assert_eq!(first.inode.get(), 2);

    fs.remove_file_by_name(root(), &name("x")).expect("remove");
    let gone = fs.lookup_record_by_name(root(), &name("x"));
    assert_eq!(gone.unwrap_err(), FileOperationError::NotFound);

    let second = fs
        .create_file(root(), name("x"), CommonAttrs::default())
        .expect("recreate");
    assert_eq!(second.inode.get(), 3);
}

#[test]
fn duplicate_create_is_refused() {
    let mut fs = fresh_fs();
    fs.create_file(root(), name("x"), CommonAttrs::default())
        .expect("create");

    let again = fs.create_file(root(), name("x"), CommonAttrs::default());
    assert_eq!(again.unwrap_err(), FileOperationError::AlreadyExists);

    let as_dir = fs.create_directory(root(), name("x"), CommonAttrs::default());
    assert_eq!(as_dir.unwrap_err(), FileOperationError::AlreadyExists);
}

#[test]
fn variant_errors_on_file_and_directory() {
    let mut fs = fresh_fs();
    let created = fs
        .create_file(root(), name("x"), CommonAttrs::default())
        .expect("create");
    assert_eq!(created.inode.get(), 2);

    let rmdir = fs.remove_directory_by_name(root(), &name("x"));
    assert_eq!(rmdir.unwrap_err(), FileOperationError::NotADirectory);

    let read_root = fs.read_file_data_by_inode(root(), 0, 16);
    assert_eq!(read_root.unwrap_err(), FileOperationError::IsADirectory);
}

#[test]
fn set_attrs_preserves_content() {
    let mut fs = fresh_fs();
    let created = fs
        .create_file(root(), name("keep"), CommonAttrs::default())
        .expect("create");
    fs.write_to_file(created.inode, 0, b"Hello, BridgeFS!")
        .expect("write");

    let new_attrs = CommonAttrs {
        uid: 1000,
        gid: 1000,
        perm: 0o644,
        ..Default::default()
    };
    fs.update_attributes_by_inode(created.inode, new_attrs)
        .expect("set attrs");

    let read = fs
        .read_file_data_by_inode(created.inode, 0, 1024)
        .expect("read");
    assert_eq!(read.datablock.data, b"Hello, BridgeFS!".to_vec());

    let record = fs.lookup_record_by_inode(created.inode).expect("lookup");
    let attrs = record.inner.common_attrs();
    assert_eq!(attrs.uid, 1000);
    assert_eq!(attrs.gid, 1000);
    assert_eq!(attrs.perm, 0o644);
}

#[test]
fn allocated_inodes_strictly_increase() {
    let mut fs = fresh_fs();
    let a = fs
        .create_file(root(), name("a"), CommonAttrs::default())
        .expect("create");
    let b = fs
        .create_directory(root(), name("b"), CommonAttrs::default())
        .expect("mkdir");
    let c = fs
        .create_file(root(), name("c"), CommonAttrs::default())
        .expect("create");
    assert!(a.inode.get() < b.inode.get());
    assert!(b.inode.get() < c.inode.get());
    fs.remove_file_by_name(root(), &name("c")).expect("remove");
    let d = fs
        .create_file(root(), name("d"), CommonAttrs::default())
        .expect("create");
    assert!(c.inode.get() < d.inode.get());
}

#[test]
fn read_clamps_to_the_payload_end() {
    let mut fs = fresh_fs();
    let created = fs
        .create_file(root(), name("clamp"), CommonAttrs::default())
        .expect("create");
    fs.write_to_file(created.inode, 0, b"Hello, BridgeFS!")
        .expect("write");

    let middle = fs
        .read_file_data_by_inode(created.inode, 7, 5)
        .expect("read middle");
    assert_eq!(middle.datablock.data, b"Bridg".to_vec());

    let tail = fs
        .read_file_data_by_inode(created.inode, 10, 1000)
        .expect("read tail");
    assert_eq!(tail.datablock.data, b"dgeFS!".to_vec());

    let past_end = fs
        .read_file_data_by_inode(created.inode, 100, 10)
        .expect("read past end");
    assert_eq!(past_end.datablock.data, Vec::<u8>::new());
}

#[test]
fn overwrite_keeps_the_tail() {
    let mut fs = fresh_fs();
    let created = fs
        .create_file(root(), name("tail"), CommonAttrs::default())
        .expect("create");
    fs.write_to_file(created.inode, 0, b"Hello, BridgeFS!")
        .expect("first write");
    let written = fs.write_to_file(created.inode, 0, b"Bye").expect("second write");
    assert_eq!(written, 3);

    let read = fs
        .read_file_data_by_inode(created.inode, 0, 1024)
        .expect("read");
    assert_eq!(read.datablock.data, b"Byelo, BridgeFS!".to_vec());
    assert_eq!(read.file.inner.size, 16);
}

#[test]
fn allocation_counter_is_observable() {
    let mut fs = fresh_fs();
    assert_eq!(fs.next_inode_number(), 2);
    fs.create_file(root(), name("a"), CommonAttrs::default())
        .expect("create");
    assert_eq!(fs.next_inode_number(), 3);
}
