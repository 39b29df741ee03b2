use bridgefs::bridgefs::BridgeFS;
use bridgefs::content_store::InMemoryContentStore;
use bridgefs::file_record::CommonAttrs;
use bridgefs::filename::Filename;
use bridgefs::fuse_store_ext::FuseStoreExt;
use bridgefs::hash_pointer::InMemoryHashPointerReference;
use bridgefs::inode::INode;
use bridgefs::response::FileOperationError;

fn root() -> INode {
    INode::new(1)
}

fn name(s: &str) -> Filename {
    Filename::from_text(s)
}

fn empty_in_memory_bridgefs() -> BridgeFS<InMemoryHashPointerReference, InMemoryContentStore> {
    let mut store = InMemoryContentStore::default();
    let initial_index_hash = store.empty_root_dir().expect("Failed to bootstrap");
    let pointer = InMemoryHashPointerReference::new(initial_index_hash.untyped());
    BridgeFS::new(pointer, store)
}

fn in_memory_bridgefs() -> BridgeFS<InMemoryHashPointerReference, InMemoryContentStore> {
    let mut bridgefs = empty_in_memory_bridgefs();
    bridgefs
        .create_file(root(), name("empty_file"), CommonAttrs::default())
        .expect("Failed to create file");

    let content_file = bridgefs
        .create_file(root(), name("file"), CommonAttrs::default())
        .expect("Failed to create file");
    let data = b"Hello, BridgeFS!";
    bridgefs
        .write_to_file(content_file.inode, 0, data)
        .expect("Failed to write data");

    let dir = bridgefs
        .create_directory(root(), name("dir"), CommonAttrs::default())
        .expect("Failed to create directory");
    let file_under_dir = bridgefs
        .create_file(dir.inode, name("file_under_dir"), CommonAttrs::default())
        .expect("Failed to create file under directory");
    bridgefs
        .write_to_file(file_under_dir.inode, 0, b"File under directory")
        .expect("Failed to write data to file under directory");

    bridgefs
        .create_directory(root(), name("empty_dir"), CommonAttrs::default())
        .expect("Failed to create empty directory");
    bridgefs
}

fn listing_names(
    bridgefs: &mut BridgeFS<InMemoryHashPointerReference, InMemoryContentStore>,
    inode: INode,
) -> Vec<String> {
    let entries = bridgefs
        .list_directory_by_inode(inode)
        .expect("Failed to list directory");
    entries
        .entries
        .into_iter()
        .map(|e| String::from_utf8(e.name.name).unwrap())
        .collect()
}

#[test]
fn test_lookup_by_name_missing_file() {
    let mut bridgefs = empty_in_memory_bridgefs();
    let record = bridgefs.lookup_record_by_name(root(), &name("nonexistent"));

    assert!(record.is_err());
    assert_eq!(record.unwrap_err(), FileOperationError::NotFound);
}

#[test]
fn test_lookup_by_name_in_missing_parent_directory() {
    let mut bridgefs = empty_in_memory_bridgefs();
    let record = bridgefs.lookup_record_by_name(INode::new(42), &name("file"));

    assert!(record.is_err());
    assert_eq!(record.unwrap_err(), FileOperationError::NotFound);
}

#[test]
fn test_lookup_by_inode_missing_file() {
    let mut bridgefs = empty_in_memory_bridgefs();
    let record = bridgefs.lookup_record_by_inode(INode::new(42));

    assert!(record.is_err());
    assert_eq!(record.unwrap_err(), FileOperationError::NotFound);
}

#[test]
fn test_read_by_inode_missing_file() {
    let mut bridgefs = empty_in_memory_bridgefs();
    let read_result = bridgefs.read_file_data_by_inode(INode::new(42), 0, 1024);

    assert!(read_result.is_err());
    assert_eq!(read_result.unwrap_err(), FileOperationError::NotFound);
}

#[test]
fn test_lookup_by_name_existing_file() {
    let mut bridgefs = in_memory_bridgefs();
    let record = bridgefs.lookup_record_by_name(root(), &name("empty_file"));
    assert!(record.is_ok());
}

#[test]
fn test_read_by_inode_empty_file() {
    let mut bridgefs = in_memory_bridgefs();
    let record = bridgefs.lookup_record_by_name(root(), &name("empty_file"));
    assert!(record.is_ok());
    let inode = record.unwrap().inode;

    let read_result = bridgefs.read_file_data_by_inode(inode, 0, 1024);
    assert!(read_result.is_ok());
    let data = read_result.unwrap();
    assert!(data.datablock.is_empty());
}

#[test]
fn test_read_by_inode_file_with_content() {
    let mut bridgefs = in_memory_bridgefs();
    let record = bridgefs.lookup_record_by_name(root(), &name("file"));
    assert!(record.is_ok());
    let inode = record.unwrap().inode;

    let read_result = bridgefs.read_file_data_by_inode(inode, 0, 1024);
    assert!(read_result.is_ok());
    let data = read_result.unwrap();
    assert_eq!(data.datablock.data, b"Hello, BridgeFS!".to_vec());
}

#[test]
fn test_read_file_under_directory() {
    let mut bridgefs = in_memory_bridgefs();
    let dir_record = bridgefs.lookup_record_by_name(root(), &name("dir"));
    assert!(dir_record.is_ok());
    let dir_inode = dir_record.unwrap().inode;

    let file_record = bridgefs.lookup_record_by_name(dir_inode, &name("file_under_dir"));
    assert!(file_record.is_ok());
    let file_inode = file_record.unwrap().inode;

    let read_result = bridgefs.read_file_data_by_inode(file_inode, 0, 1024);
    assert!(read_result.is_ok());
    let data = read_result.unwrap();
    assert_eq!(data.datablock.data, b"File under directory".to_vec());
}

#[test]
fn test_list_root_directory() {
    let mut bridgefs = in_memory_bridgefs();
    let names = listing_names(&mut bridgefs, root());

    assert!(names.contains(&".".to_string()));
    assert!(names.contains(&"..".to_string()));
    assert!(names.contains(&"empty_file".to_string()));
    assert!(names.contains(&"file".to_string()));
    assert!(names.contains(&"dir".to_string()));
    assert!(names.contains(&"empty_dir".to_string()));
    assert_eq!(names.len(), 6);
}

#[test]
fn test_list_subdirectory() {
    let mut bridgefs = in_memory_bridgefs();
    let dir_record = bridgefs.lookup_record_by_name(root(), &name("dir"));
    assert!(dir_record.is_ok());
    let dir_inode = dir_record.unwrap().inode;

    let names = listing_names(&mut bridgefs, dir_inode);

    assert!(names.contains(&".".to_string()));
    assert!(names.contains(&"..".to_string()));
    assert!(names.contains(&"file_under_dir".to_string()));
    assert_eq!(names.len(), 3);
}

#[test]
fn test_remove_directory_non_empty() {
    let mut bridgefs = in_memory_bridgefs();
    let remove_result = bridgefs.remove_directory_by_name(root(), &name("dir"));
    assert!(remove_result.is_err());
    assert_eq!(
        remove_result.unwrap_err(),
        FileOperationError::DirectoryNotEmpty
    );

    // Ensure the directory still exists
    let dir_record_after = bridgefs.lookup_record_by_name(root(), &name("dir"));
    assert!(dir_record_after.is_ok());
}

#[test]
fn test_remove_directory_empty() {
    let mut bridgefs = in_memory_bridgefs();
    let remove_result = bridgefs.remove_directory_by_name(root(), &name("empty_dir"));
    assert!(remove_result.is_ok());

    // Ensure the directory is removed
    let dir_record_after = bridgefs.lookup_record_by_name(root(), &name("empty_dir"));
    assert!(dir_record_after.is_err());
    assert_eq!(dir_record_after.unwrap_err(), FileOperationError::NotFound);
}

#[test]
fn test_remove_directory_on_file() {
    let mut bridgefs = in_memory_bridgefs();
    let remove_result = bridgefs.remove_directory_by_name(root(), &name("file"));
    assert!(remove_result.is_err());
    assert_eq!(
        remove_result.unwrap_err(),
        FileOperationError::NotADirectory
    );

    // Ensure the file still exists
    let file_record_after = bridgefs.lookup_record_by_name(root(), &name("file"));
    assert!(file_record_after.is_ok());
}

#[test]
fn test_remove_file() {
    let mut bridgefs = in_memory_bridgefs();
    let remove_result = bridgefs.remove_file_by_name(root(), &name("file"));
    assert!(remove_result.is_ok());

    // Ensure the file is removed
    let file_record_after = bridgefs.lookup_record_by_name(root(), &name("file"));
    assert!(file_record_after.is_err());
    assert_eq!(file_record_after.unwrap_err(), FileOperationError::NotFound);
}

#[test]
fn test_remove_file_on_directory() {
    let mut bridgefs = in_memory_bridgefs();
    let remove_result = bridgefs.remove_file_by_name(root(), &name("dir"));
    assert!(remove_result.is_err());
    assert_eq!(remove_result.unwrap_err(), FileOperationError::IsADirectory);

    // Ensure the directory still exists
    let dir_record_after = bridgefs.lookup_record_by_name(root(), &name("dir"));
    assert!(dir_record_after.is_ok());
}

#[test]
fn test_update_attributes_on_file() {
    let mut bridgefs = in_memory_bridgefs();
    let record = bridgefs.lookup_record_by_name(root(), &name("file"));
    assert!(record.is_ok());
    let inode = record.unwrap().inode;

    let new_attrs = CommonAttrs {
        uid: 1000,
        gid: 1000,
        perm: 0o644,
        ..Default::default()
    };
    let update_result = bridgefs.update_attributes_by_inode(inode, new_attrs);
    assert!(update_result.is_ok());

    let updated_record = bridgefs.lookup_record_by_inode(inode);
    assert!(updated_record.is_ok());
    let updated_record = updated_record.unwrap().inner;
    let updated_attrs = updated_record.common_attrs();
    assert_eq!(updated_attrs.uid, 1000);
    assert_eq!(updated_attrs.gid, 1000);
    assert_eq!(updated_attrs.perm, 0o644);
}

#[test]
fn test_read_after_update_attributes() {
    let mut bridgefs = in_memory_bridgefs();
    let record = bridgefs.lookup_record_by_name(root(), &name("file"));
    assert!(record.is_ok());
    let inode = record.unwrap().inode;

    let new_attrs = CommonAttrs {
        uid: 1000,
        gid: 1000,
        perm: 0o644,
        ..Default::default()
    };
    let update_result = bridgefs.update_attributes_by_inode(inode, new_attrs);
    assert!(update_result.is_ok());

    let read_result = bridgefs.read_file_data_by_inode(inode, 0, 1024);
    assert!(read_result.is_ok());
    let data = read_result.unwrap();
    assert_eq!(data.datablock.data, b"Hello, BridgeFS!".to_vec());
}

#[test]
fn test_create_file_already_exists() {
    let mut bridgefs = in_memory_bridgefs();
    let result = bridgefs.create_file(root(), name("empty_file"), CommonAttrs::default());
    assert!(result.is_err());
    assert_eq!(result.unwrap_err(), FileOperationError::AlreadyExists);
}

#[test]
fn test_create_directory_already_exists() {
    let mut bridgefs = in_memory_bridgefs();
    let result = bridgefs.create_directory(root(), name("dir"), CommonAttrs::default());
    assert!(result.is_err());
    assert_eq!(result.unwrap_err(), FileOperationError::AlreadyExists);
}
