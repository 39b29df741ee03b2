use bridgefs::codec::{
    decode_block, decode_index, decode_record, encode_block, encode_index, encode_record,
};
use bridgefs::content_store::{ContentStore, InMemoryContentStore};
use bridgefs::counting_store::CountingStore;
use bridgefs::data_block::DataBlock;
use bridgefs::file_record::{CommonAttrs, DirectoryRecord, FileRecord, Record};
use bridgefs::filename::{bytes_eq, Filename};
use bridgefs::hash_pointer::{HashPointer, TypedHashPointer};
use bridgefs::index::INodeIndex;
use bridgefs::inode::INode;
use bridgefs::manifest::Manifest;
use bridgefs::fuse_store_ext::FuseStoreExt;
use bridgefs::response::FileOperationError;

fn sample_attrs() -> CommonAttrs {
    CommonAttrs::new(0o640, 7, 8, 100, 200, 300, 400)
}

#[test]
fn codec_block_round_trip() {
    let block = DataBlock::new(vec![1u8, 2, 3, 255, 0, 42]);
    let bytes = encode_block(&block);
    let decoded = decode_block(bytes.as_slice()).expect("decode");
    assert_eq!(decoded, block);

    let empty = DataBlock::default();
    let bytes = encode_block(&empty);
    assert_eq!(decode_block(bytes.as_slice()).expect("decode"), empty);
}

#[test]
fn codec_file_record_round_trip() {
    let hash = TypedHashPointer::new(HashPointer::from_bytes([9u8; 32]));
    let record = Record::File(FileRecord::new(hash, 77, sample_attrs()));
    let bytes = encode_record(&record);
    let decoded = decode_record(bytes.as_slice()).expect("decode");
    match decoded {
        Record::File(f) => {
            assert_eq!(f.content_hash.untyped().to_bytes(), [9u8; 32]);
            assert_eq!(f.size, 77);
            assert_eq!(f.common_attrs, sample_attrs());
        },
        Record::Directory(_) => panic!("expected a file record"),
    }
}

#[test]
fn codec_directory_record_round_trip() {
    let mut dir = DirectoryRecord::new(sample_attrs(), INode::new(1));
    dir.insert(Filename::from_text("alpha"), INode::new(2));
    dir.insert(Filename::from_text("beta"), INode::new(3));
    let record = Record::Directory(dir);
    let bytes = encode_record(&record);
    let decoded = decode_record(bytes.as_slice()).expect("decode");
    match decoded {
        Record::Directory(d) => {
            assert_eq!(d.common_attrs, sample_attrs());
            assert_eq!(d.parent.get(), 1);
            assert_eq!(d.children.len(), 2);
            assert_eq!(d.children[0].name.name, b"alpha".to_vec());
            assert_eq!(d.children[0].inode.get(), 2);
            assert_eq!(d.children[1].name.name, b"beta".to_vec());
            assert_eq!(d.children[1].inode.get(), 3);
        },
        Record::File(_) => panic!("expected a directory record"),
    }
}

#[test]
fn codec_encoding_is_deterministic() {
    let hash = TypedHashPointer::new(HashPointer::from_bytes([5u8; 32]));
    let record = Record::File(FileRecord::new(hash, 10, sample_attrs()));
    let first = encode_record(&record);
    let second = encode_record(&record);
    assert_eq!(first, second);
    let h1 = HashPointer::hash_bytes(first.as_slice());
    let h2 = HashPointer::hash_bytes(second.as_slice());
    assert_eq!(h1.to_bytes(), h2.to_bytes());
}

#[test]
fn codec_index_round_trip() {
    let root_hash: TypedHashPointer<Record> = TypedHashPointer::new(HashPointer::from_bytes(
        [3u8; 32],
    ));
    let mut index = INodeIndex::new(INode::new(1), root_hash);
    let other: TypedHashPointer<Record> = TypedHashPointer::new(HashPointer::from_bytes([4u8; 32]));
    let allocated = index.insert_new_inode(other);
    assert_eq!(allocated.get(), 2);

    let bytes = encode_index(&index);
    let decoded = decode_index(bytes.as_slice()).expect("decode");
    let root_entry = decoded.lookup_inode(&INode::new(1)).expect("root entry");
    assert_eq!(root_entry.untyped().to_bytes(), [3u8; 32]);
    let second_entry = decoded.lookup_inode(&INode::new(2)).expect("second entry");
    assert_eq!(second_entry.untyped().to_bytes(), [4u8; 32]);
    assert!(decoded.lookup_inode(&INode::new(3)).is_none());
}

#[test]
fn codec_rejects_garbage() {
    assert!(decode_record(&[0xFFu8, 1, 2]).is_none());
    assert!(decode_record(&[]).is_none());
    assert!(decode_block(&[1u8]).is_none());
    assert!(decode_index(&[9u8, 9]).is_none());
}

#[test]
fn content_store_put_get_round_trip() {
    let mut store = InMemoryContentStore::default();
    let h1 = store.add_content(b"alpha");
    let h2 = store.add_content(b"beta");
    assert_ne!(h1.to_bytes(), h2.to_bytes());
    assert!(store.contains_content(&h1));
    assert!(store.contains_content(&h2));
    assert_eq!(store.get_content(&h1), b"alpha".to_vec());
    assert_eq!(store.get_content(&h2), b"beta".to_vec());

    // a second put of identical bytes yields the same id and no new entry
    let h3 = store.add_content(b"alpha");
    assert_eq!(h1.to_bytes(), h3.to_bytes());
    assert_eq!(store.get_content(&h3), b"alpha".to_vec());

    let absent = HashPointer::from_bytes([0u8; 32]);
    assert!(!store.contains_content(&absent));
    assert_eq!(store.get_content(&absent), Vec::<u8>::new());
}

#[test]
fn manifest_counts_references() {
    let mut manifest = Manifest::new();
    let a = HashPointer::from_bytes([1u8; 32]);
    let b = HashPointer::from_bytes([2u8; 32]);

    assert!(!manifest.has_reference(&a));
    manifest.add_reference(a);
    manifest.add_reference(a);
    manifest.add_reference(b);
    assert!(manifest.has_reference(&a));
    assert!(manifest.has_reference(&b));
    assert_eq!(manifest.references().len(), 2);

    manifest.remove_reference(a);
    assert!(manifest.has_reference(&a));
    manifest.remove_reference(a);
    assert!(!manifest.has_reference(&a));

    // lowering an absent reference is a no-op
    manifest.remove_reference(a);
    assert!(!manifest.has_reference(&a));
    assert!(manifest.has_reference(&b));
}

#[test]
fn counting_store_reports_missing_and_corrupt_blobs() {
    let mut store = CountingStore::new(InMemoryContentStore::default(), Manifest::new());
    let absent: TypedHashPointer<Record> = TypedHashPointer::new(HashPointer::from_bytes(
        [7u8; 32],
    ));
    assert_eq!(
        store.get_record(&absent).unwrap_err(),
        FileOperationError::MissingBlob
    );

    let block = DataBlock::new(vec![0xFFu8, 0xFF]);
    let stored = store.store_block(&block).expect("store");
    let as_record: TypedHashPointer<Record> = TypedHashPointer::new(stored.untyped());
    assert_eq!(
        store.get_record(&as_record).unwrap_err(),
        FileOperationError::CorruptBlob
    );
    let back = store.get_block(&stored).expect("get");
    assert_eq!(back, block);
}

#[test]
fn directory_record_binds_and_unbinds_names() {
    let mut dir = DirectoryRecord::new(sample_attrs(), INode::new(1));
    assert_eq!(dir.size(), 0);
    dir.insert(Filename::from_text("one"), INode::new(2));
    dir.insert(Filename::from_text("two"), INode::new(3));
    assert_eq!(dir.size(), 2);
    assert_eq!(dir.get(&Filename::from_text("one")).unwrap().get(), 2);
    assert!(dir.get(&Filename::from_text("three")).is_none());

    let listed = dir.list_children();
    assert_eq!(listed.len(), 2);
    assert_eq!(listed[0].name.name, b"one".to_vec());

    let removed = dir.remove(&Filename::from_text("one"));
    assert_eq!(removed.unwrap().get(), 2);
    assert!(dir.get(&Filename::from_text("one")).is_none());
    assert_eq!(dir.size(), 1);
    assert!(dir.remove(&Filename::from_text("one")).is_none());
}

#[test]
fn hash_pointer_base64_rendering() {
    let zero = HashPointer::from_bytes([0u8; 32]);
    assert_eq!(
        zero.to_base64(),
        "AAAAAAAAAAAAAAAAAAAAAAAAAAAAAAAAAAAAAAAAAAA="
    );
    let other = HashPointer::from_bytes([255u8; 32]);
    assert_ne!(other.to_base64(), zero.to_base64());
}

#[test]
fn bytes_eq_compares_by_content() {
    assert!(bytes_eq(b"abc", b"abc"));
    assert!(!bytes_eq(b"abc", b"abd"));
    assert!(!bytes_eq(b"abc", b"ab"));
    assert!(bytes_eq(b"", b""));
    let a = Filename::from_text("same");
    let b = Filename::from_bytes(b"same".to_vec());
    assert!(a.eq_name(&b));
}

#[test]
fn record_attrs_are_shared_between_variants() {
    let hash = TypedHashPointer::new(HashPointer::from_bytes([1u8; 32]));
    let mut file = Record::File(FileRecord::new(hash, 5, sample_attrs()));
    assert_eq!(file.common_attrs().uid, 7);
    let replacement = CommonAttrs::new(0o600, 42, 43, 1, 2, 3, 4);
    file.set_attrs(replacement);
    assert_eq!(file.common_attrs().uid, 42);
    match &file {
        Record::File(f) => assert_eq!(f.size, 5),
        Record::Directory(_) => panic!("variant changed"),
    }

    let mut dir = Record::Directory(DirectoryRecord::new(sample_attrs(), INode::new(1)));
    let attrs = dir.mut_attrs();
    attrs.gid = 99;
    assert_eq!(dir.common_attrs().gid, 99);
}

#[test]
fn filename_validity_for_binding() {
    assert!(Filename::from_text("a").is_valid());
    assert!(Filename::from_text("..hidden").is_valid());
    assert!(Filename::from_text(".x").is_valid());
    assert!(!Filename::from_text("").is_valid());
    assert!(!Filename::from_text(".").is_valid());
    assert!(!Filename::from_text("..").is_valid());
}

#[test]
fn bootstrap_is_deterministic_per_timestamp() {
    let mut store_a = InMemoryContentStore::default();
    let mut store_b = InMemoryContentStore::default();
    let h_a = store_a.empty_root_dir_at(7).expect("bootstrap");
    let h_b = store_b.empty_root_dir_at(7).expect("bootstrap");
    assert_eq!(h_a.untyped().to_bytes(), h_b.untyped().to_bytes());
    let h_c = store_a.empty_root_dir_at(8).expect("bootstrap");
    assert_ne!(h_a.untyped().to_bytes(), h_c.untyped().to_bytes());
}
