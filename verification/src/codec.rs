//! The deterministic binary codec: length-prefixed, little-endian, no
//! headers. The same logical value always serializes to the same bytes, and
//! every record type round-trips with byte-level equality.
use vstd::prelude::*;
use vstd::bytes::{
    lemma_auto_spec_u16_to_from_le_bytes, lemma_auto_spec_u32_to_from_le_bytes,
    lemma_auto_spec_u64_to_from_le_bytes, spec_u16_from_le_bytes, spec_u16_to_le_bytes,
    spec_u32_from_le_bytes, spec_u32_to_le_bytes, spec_u64_from_le_bytes, spec_u64_to_le_bytes,
    u16_from_le_bytes, u16_to_le_bytes, u32_from_le_bytes, u32_to_le_bytes, u64_from_le_bytes,
    u64_to_le_bytes,
};
use vstd::slice::{slice_subrange, slice_to_vec};
use crate::assoc::assoc_map;
use crate::data_block::DataBlock;
use crate::file_record::{entries_view, CommonAttrs, DirectoryRecord, FileRecord, IndexMapping, Record};
use crate::filename::Filename;
use crate::hash_pointer::{HashPointer, TypedHashPointer};
use crate::index::INodeIndex;
use crate::inode::INode;

verus! {

broadcast use vstd::std_specs::vec::group_vec_axioms;

// ---------------------------------------------------------------------------
// Mathematical models of the stored values
// ---------------------------------------------------------------------------
/// The model of a file record: the digest of its payload, the payload's
/// length, and the shared attributes.
pub struct FileV {
    pub content_hash: Seq<u8>,
    pub size: u64,
    pub attrs: CommonAttrs,
}

/// The model of a directory record: name-to-inode pairs in listing order,
/// the shared attributes, and the parent inode.
pub struct DirV {
    pub children: Seq<(Seq<u8>, u64)>,
    pub attrs: CommonAttrs,
    pub parent: u64,
}

/// The model of a record.
pub enum RecordV {
    File(FileV),
    Directory(DirV),
}

/// The model of an inode-index snapshot.
pub struct IndexV {
    pub next: u64,
    pub mapping: Seq<(u64, Seq<u8>)>,
}

impl RecordV {
    pub open spec fn with_attrs(self, attrs: CommonAttrs) -> RecordV {
        match self {
            RecordV::File(f) => RecordV::File(FileV { attrs, ..f }),
            RecordV::Directory(d) => RecordV::Directory(DirV { attrs, ..d }),
        }
    }
}

/// The inode-to-hash mapping an index model denotes.
pub open spec fn index_map(x: IndexV) -> Map<u64, Seq<u8>> {
    assoc_map(x.mapping)
}

impl View for FileRecord {
    type V = FileV;

    open spec fn view(&self) -> FileV {
        FileV { content_hash: self.content_hash@, size: self.size, attrs: self.common_attrs }
    }
}

impl View for DirectoryRecord {
    type V = DirV;

    open spec fn view(&self) -> DirV {
        DirV { children: entries_view(self.children@), attrs: self.common_attrs, parent: self.parent@ }
    }
}

impl View for Record {
    type V = RecordV;

    open spec fn view(&self) -> RecordV {
        match self {
            Record::File(f) => RecordV::File(f@),
            Record::Directory(d) => RecordV::Directory(d@),
        }
    }
}

impl View for INodeIndex {
    type V = IndexV;

    open spec fn view(&self) -> IndexV {
        IndexV { next: self.next_inode@, mapping: self.mapping_view() }
    }
}

// ---------------------------------------------------------------------------
// Specification-level encodings
// ---------------------------------------------------------------------------
/// A byte string prefixed with its length as a little-endian u64.
pub open spec fn enc_bytes(s: Seq<u8>) -> Seq<u8> {
    spec_u64_to_le_bytes(s.len() as u64) + s
}

/// The fixed 42-byte encoding of the shared attributes.
pub open spec fn enc_attrs(a: CommonAttrs) -> Seq<u8> {
    spec_u16_to_le_bytes(a.perm) + (spec_u32_to_le_bytes(a.uid) + (spec_u32_to_le_bytes(a.gid)
        + (spec_u64_to_le_bytes(a.atime) + (spec_u64_to_le_bytes(a.mtime) + (spec_u64_to_le_bytes(
        a.ctime,
    ) + spec_u64_to_le_bytes(a.crtime))))))
}

/// One directory entry: the name, then the inode.
pub open spec fn enc_pair(p: (Seq<u8>, u64)) -> Seq<u8> {
    enc_bytes(p.0) + spec_u64_to_le_bytes(p.1)
}

/// Directory entries, in listing order.
pub open spec fn enc_pairs(s: Seq<(Seq<u8>, u64)>) -> Seq<u8>
    decreases s.len(),
{
    if s.len() == 0 {
        Seq::empty()
    } else {
        enc_pair(s[0]) + enc_pairs(s.drop_first())
    }
}

/// A file record: content hash, size, attributes.
pub open spec fn enc_file(f: FileV) -> Seq<u8> {
    f.content_hash + (spec_u64_to_le_bytes(f.size) + enc_attrs(f.attrs))
}

/// A directory record: entry count, entries, attributes, parent.
pub open spec fn enc_dir(d: DirV) -> Seq<u8> {
    spec_u64_to_le_bytes(d.children.len() as u64) + (enc_pairs(d.children) + (enc_attrs(d.attrs)
        + spec_u64_to_le_bytes(d.parent)))
}

/// A record: a one-byte variant tag, then the variant's encoding.
pub open spec fn enc_record(r: RecordV) -> Seq<u8> {
    match r {
        RecordV::File(f) => seq![0u8] + enc_file(f),
        RecordV::Directory(d) => seq![1u8] + enc_dir(d),
    }
}

/// A data block: its payload, length-prefixed.
pub open spec fn enc_block(s: Seq<u8>) -> Seq<u8> {
    enc_bytes(s)
}

/// One index entry: the inode, then the 32-byte record hash.
pub open spec fn enc_ipair(p: (u64, Seq<u8>)) -> Seq<u8> {
    spec_u64_to_le_bytes(p.0) + p.1
}

/// Index entries, in storage order.
pub open spec fn enc_ipairs(s: Seq<(u64, Seq<u8>)>) -> Seq<u8>
    decreases s.len(),
{
    if s.len() == 0 {
        Seq::empty()
    } else {
        enc_ipair(s[0]) + enc_ipairs(s.drop_first())
    }
}

/// An index snapshot: allocation counter, entry count, entries.
pub open spec fn enc_index(x: IndexV) -> Seq<u8> {
    spec_u64_to_le_bytes(x.next) + (spec_u64_to_le_bytes(x.mapping.len() as u64) + enc_ipairs(
        x.mapping,
    ))
}

// ---------------------------------------------------------------------------
// Length side conditions under which the codec is faithful. Every value built
// from executable data satisfies them.
// ---------------------------------------------------------------------------
pub open spec fn pairs_len_ok(s: Seq<(Seq<u8>, u64)>) -> bool {
    &&& s.len() <= u64::MAX
    &&& forall|i: int| 0 <= i < s.len() ==> #[trigger] s[i].0.len() <= u64::MAX
}

pub open spec fn record_len_ok(r: RecordV) -> bool {
    match r {
        RecordV::File(f) => f.content_hash.len() == 32,
        RecordV::Directory(d) => pairs_len_ok(d.children),
    }
}

pub open spec fn block_len_ok(s: Seq<u8>) -> bool {
    s.len() <= u64::MAX
}

pub open spec fn index_len_ok(x: IndexV) -> bool {
    &&& x.mapping.len() <= u64::MAX
    &&& forall|i: int| 0 <= i < x.mapping.len() ==> #[trigger] x.mapping[i].1.len() == 32
}

// ---------------------------------------------------------------------------
// Specification-level decoding: a cursor over the byte sequence
// ---------------------------------------------------------------------------
pub open spec fn dec_u16_at(b: Seq<u8>, pos: int) -> Option<(u16, int)> {
    if 0 <= pos && pos + 2 <= b.len() {
        Some((spec_u16_from_le_bytes(b.subrange(pos, pos + 2)), pos + 2))
    } else {
        None
    }
}

pub open spec fn dec_u32_at(b: Seq<u8>, pos: int) -> Option<(u32, int)> {
    if 0 <= pos && pos + 4 <= b.len() {
        Some((spec_u32_from_le_bytes(b.subrange(pos, pos + 4)), pos + 4))
    } else {
        None
    }
}

pub open spec fn dec_u64_at(b: Seq<u8>, pos: int) -> Option<(u64, int)> {
    if 0 <= pos && pos + 8 <= b.len() {
        Some((spec_u64_from_le_bytes(b.subrange(pos, pos + 8)), pos + 8))
    } else {
        None
    }
}

pub open spec fn dec_bytes_at(b: Seq<u8>, pos: int) -> Option<(Seq<u8>, int)> {
    match dec_u64_at(b, pos) {
        Some((n, p)) => if p + n <= b.len() {
            Some((b.subrange(p, p + n), p + n))
        } else {
            None
        },
        None => None,
    }
}

pub open spec fn dec_hash_at(b: Seq<u8>, pos: int) -> Option<(Seq<u8>, int)> {
    if 0 <= pos && pos + 32 <= b.len() {
        Some((b.subrange(pos, pos + 32), pos + 32))
    } else {
        None
    }
}

pub open spec fn dec_attrs_at(b: Seq<u8>, pos: int) -> Option<(CommonAttrs, int)> {
    match dec_u16_at(b, pos) {
        Some((perm, p1)) => match dec_u32_at(b, p1) {
            Some((uid, p2)) => match dec_u32_at(b, p2) {
                Some((gid, p3)) => match dec_u64_at(b, p3) {
                    Some((atime, p4)) => match dec_u64_at(b, p4) {
                        Some((mtime, p5)) => match dec_u64_at(b, p5) {
                            Some((ctime, p6)) => match dec_u64_at(b, p6) {
                                Some((crtime, p7)) => Some(
                                    (CommonAttrs { perm, uid, gid, atime, mtime, ctime, crtime }, p7),
                                ),
                                None => None,
                            },
                            None => None,
                        },
                        None => None,
                    },
                    None => None,
                },
                None => None,
            },
            None => None,
        },
        None => None,
    }
}

pub open spec fn dec_pair_at(b: Seq<u8>, pos: int) -> Option<((Seq<u8>, u64), int)> {
    match dec_bytes_at(b, pos) {
        Some((name, p1)) => match dec_u64_at(b, p1) {
            Some((ino, p2)) => Some(((name, ino), p2)),
            None => None,
        },
        None => None,
    }
}

pub open spec fn dec_pairs_at(b: Seq<u8>, pos: int, n: nat) -> Option<(Seq<(Seq<u8>, u64)>, int)>
    decreases n,
{
    if n == 0 {
        Some((Seq::empty(), pos))
    } else {
        match dec_pair_at(b, pos) {
            Some((p, pos2)) => match dec_pairs_at(b, pos2, (n - 1) as nat) {
                Some((rest, pos3)) => Some((seq![p] + rest, pos3)),
                None => None,
            },
            None => None,
        }
    }
}

pub open spec fn dec_file_at(b: Seq<u8>, pos: int) -> Option<(FileV, int)> {
    match dec_hash_at(b, pos) {
        Some((h, p1)) => match dec_u64_at(b, p1) {
            Some((size, p2)) => match dec_attrs_at(b, p2) {
                Some((attrs, p3)) => Some((FileV { content_hash: h, size, attrs }, p3)),
                None => None,
            },
            None => None,
        },
        None => None,
    }
}

pub open spec fn dec_dir_at(b: Seq<u8>, pos: int) -> Option<(DirV, int)> {
    match dec_u64_at(b, pos) {
        Some((n, p1)) => match dec_pairs_at(b, p1, n as nat) {
            Some((children, p2)) => match dec_attrs_at(b, p2) {
                Some((attrs, p3)) => match dec_u64_at(b, p3) {
                    Some((parent, p4)) => Some((DirV { children, attrs, parent }, p4)),
                    None => None,
                },
                None => None,
            },
            None => None,
        },
        None => None,
    }
}

/// Decodes a whole blob as a record; trailing bytes are refused.
pub open spec fn dec_record(b: Seq<u8>) -> Option<RecordV> {
    if b.len() < 1 {
        None
    } else if b[0] == 0u8 {
        match dec_file_at(b, 1) {
            Some((f, p)) => if p == b.len() {
                Some(RecordV::File(f))
            } else {
                None
            },
            None => None,
        }
    } else if b[0] == 1u8 {
        match dec_dir_at(b, 1) {
            Some((d, p)) => if p == b.len() {
                Some(RecordV::Directory(d))
            } else {
                None
            },
            None => None,
        }
    } else {
        None
    }
}

/// Decodes a whole blob as a data block; trailing bytes are refused.
pub open spec fn dec_block(b: Seq<u8>) -> Option<Seq<u8>> {
    match dec_bytes_at(b, 0) {
        Some((s, p)) => if p == b.len() {
            Some(s)
        } else {
            None
        },
        None => None,
    }
}

pub open spec fn dec_ipair_at(b: Seq<u8>, pos: int) -> Option<((u64, Seq<u8>), int)> {
    match dec_u64_at(b, pos) {
        Some((ino, p1)) => match dec_hash_at(b, p1) {
            Some((h, p2)) => Some(((ino, h), p2)),
            None => None,
        },
        None => None,
    }
}

pub open spec fn dec_ipairs_at(b: Seq<u8>, pos: int, n: nat) -> Option<(Seq<(u64, Seq<u8>)>, int)>
    decreases n,
{
    if n == 0 {
        Some((Seq::empty(), pos))
    } else {
        match dec_ipair_at(b, pos) {
            Some((p, pos2)) => match dec_ipairs_at(b, pos2, (n - 1) as nat) {
                Some((rest, pos3)) => Some((seq![p] + rest, pos3)),
                None => None,
            },
            None => None,
        }
    }
}

/// Decodes a whole blob as an index snapshot; trailing bytes are refused.
pub open spec fn dec_index(b: Seq<u8>) -> Option<IndexV> {
    match dec_u64_at(b, 0) {
        Some((next, p1)) => match dec_u64_at(b, p1) {
            Some((n, p2)) => match dec_ipairs_at(b, p2, n as nat) {
                Some((mapping, p3)) => if p3 == b.len() {
                    Some(IndexV { next, mapping })
                } else {
                    None
                },
                None => None,
            },
            None => None,
        },
        None => None,
    }
}

// ---------------------------------------------------------------------------
// Round-trip proofs: decoding an encoding yields the value back
// ---------------------------------------------------------------------------
/// Splits an embedded concatenation into its two embedded parts.
proof fn lemma_split2(b: Seq<u8>, pos: int, x: Seq<u8>, y: Seq<u8>)
    requires
        0 <= pos,
        pos + x.len() + y.len() <= b.len(),
        b.subrange(pos, pos + x.len() + y.len()) == x + y,
    ensures
        b.subrange(pos, pos + x.len()) == x,
        b.subrange(pos + x.len(), pos + x.len() + y.len()) == y,
{
    let n = x.len() as int;
    let m = y.len() as int;
    assert forall|i: int| 0 <= i < n implies b[pos + i] == x[i] by {
        assert(b.subrange(pos, pos + n + m)[i] == (x + y)[i]);
    }
    assert forall|i: int| 0 <= i < m implies b[pos + n + i] == y[i] by {
        assert(b.subrange(pos, pos + n + m)[n + i] == (x + y)[n + i]);
    }
    assert(b.subrange(pos, pos + n) =~= x);
    assert(b.subrange(pos + n, pos + n + m) =~= y);
}

proof fn lemma_dec_u16_embed(x: u16, b: Seq<u8>, pos: int)
    requires
        0 <= pos,
        pos + 2 <= b.len(),
        b.subrange(pos, pos + 2) == spec_u16_to_le_bytes(x),
    ensures
        dec_u16_at(b, pos) == Some((x, pos + 2)),
{
    lemma_auto_spec_u16_to_from_le_bytes();
    assert(spec_u16_to_le_bytes(x).len() == 2);
    assert(spec_u16_from_le_bytes(spec_u16_to_le_bytes(x)) == x);
}

proof fn lemma_dec_u32_embed(x: u32, b: Seq<u8>, pos: int)
    requires
        0 <= pos,
        pos + 4 <= b.len(),
        b.subrange(pos, pos + 4) == spec_u32_to_le_bytes(x),
    ensures
        dec_u32_at(b, pos) == Some((x, pos + 4)),
{
    lemma_auto_spec_u32_to_from_le_bytes();
    assert(spec_u32_to_le_bytes(x).len() == 4);
    assert(spec_u32_from_le_bytes(spec_u32_to_le_bytes(x)) == x);
}

proof fn lemma_dec_u64_embed(x: u64, b: Seq<u8>, pos: int)
    requires
        0 <= pos,
        pos + 8 <= b.len(),
        b.subrange(pos, pos + 8) == spec_u64_to_le_bytes(x),
    ensures
        dec_u64_at(b, pos) == Some((x, pos + 8)),
{
    lemma_auto_spec_u64_to_from_le_bytes();
    assert(spec_u64_to_le_bytes(x).len() == 8);
    assert(spec_u64_from_le_bytes(spec_u64_to_le_bytes(x)) == x);
}

proof fn lemma_dec_bytes_embed(s: Seq<u8>, b: Seq<u8>, pos: int)
    requires
        s.len() <= u64::MAX,
        0 <= pos,
        pos + enc_bytes(s).len() <= b.len(),
        b.subrange(pos, pos + enc_bytes(s).len()) == enc_bytes(s),
    ensures
        enc_bytes(s).len() == 8 + s.len(),
        dec_bytes_at(b, pos) == Some((s, pos + enc_bytes(s).len())),
{
    lemma_auto_spec_u64_to_from_le_bytes();
    lemma_split2(b, pos, spec_u64_to_le_bytes(s.len() as u64), s);
    lemma_dec_u64_embed(s.len() as u64, b, pos);
}

proof fn lemma_dec_hash_embed(h: Seq<u8>, b: Seq<u8>, pos: int)
    requires
        h.len() == 32,
        0 <= pos,
        pos + 32 <= b.len(),
        b.subrange(pos, pos + 32) == h,
    ensures
        dec_hash_at(b, pos) == Some((h, pos + 32)),
{
}

pub proof fn lemma_enc_attrs_len(a: CommonAttrs)
    ensures
        enc_attrs(a).len() == 42,
{
    lemma_auto_spec_u16_to_from_le_bytes();
    lemma_auto_spec_u32_to_from_le_bytes();
    lemma_auto_spec_u64_to_from_le_bytes();
}

proof fn lemma_dec_attrs_embed(a: CommonAttrs, b: Seq<u8>, pos: int)
    requires
        0 <= pos,
        pos + enc_attrs(a).len() <= b.len(),
        b.subrange(pos, pos + enc_attrs(a).len()) == enc_attrs(a),
    ensures
        enc_attrs(a).len() == 42,
        dec_attrs_at(b, pos) == Some((a, pos + 42)),
{
    lemma_auto_spec_u16_to_from_le_bytes();
    lemma_auto_spec_u32_to_from_le_bytes();
    lemma_auto_spec_u64_to_from_le_bytes();
    let e1 = spec_u16_to_le_bytes(a.perm);
    let e2 = spec_u32_to_le_bytes(a.uid);
    let e3 = spec_u32_to_le_bytes(a.gid);
    let e4 = spec_u64_to_le_bytes(a.atime);
    let e5 = spec_u64_to_le_bytes(a.mtime);
    let e6 = spec_u64_to_le_bytes(a.ctime);
    let e7 = spec_u64_to_le_bytes(a.crtime);
    lemma_split2(b, pos, e1, e2 + (e3 + (e4 + (e5 + (e6 + e7)))));
    lemma_dec_u16_embed(a.perm, b, pos);
    lemma_split2(b, pos + 2, e2, e3 + (e4 + (e5 + (e6 + e7))));
    lemma_dec_u32_embed(a.uid, b, pos + 2);
    lemma_split2(b, pos + 6, e3, e4 + (e5 + (e6 + e7)));
    lemma_dec_u32_embed(a.gid, b, pos + 6);
    lemma_split2(b, pos + 10, e4, e5 + (e6 + e7));
    lemma_dec_u64_embed(a.atime, b, pos + 10);
    lemma_split2(b, pos + 18, e5, e6 + e7);
    lemma_dec_u64_embed(a.mtime, b, pos + 18);
    lemma_split2(b, pos + 26, e6, e7);
    lemma_dec_u64_embed(a.ctime, b, pos + 26);
    lemma_dec_u64_embed(a.crtime, b, pos + 34);
}

proof fn lemma_dec_pair_embed(p: (Seq<u8>, u64), b: Seq<u8>, pos: int)
    requires
        p.0.len() <= u64::MAX,
        0 <= pos,
        pos + enc_pair(p).len() <= b.len(),
        b.subrange(pos, pos + enc_pair(p).len()) == enc_pair(p),
    ensures
        enc_pair(p).len() == 16 + p.0.len(),
        dec_pair_at(b, pos) == Some((p, pos + enc_pair(p).len())),
{
    lemma_auto_spec_u64_to_from_le_bytes();
    lemma_split2(b, pos, enc_bytes(p.0), spec_u64_to_le_bytes(p.1));
    lemma_dec_bytes_embed(p.0, b, pos);
    lemma_dec_u64_embed(p.1, b, pos + 8 + p.0.len());
}

proof fn lemma_dec_pairs_embed(s: Seq<(Seq<u8>, u64)>, b: Seq<u8>, pos: int)
    requires
        pairs_len_ok(s),
        0 <= pos,
        pos + enc_pairs(s).len() <= b.len(),
        b.subrange(pos, pos + enc_pairs(s).len()) == enc_pairs(s),
    ensures
        dec_pairs_at(b, pos, s.len() as nat) == Some((s, pos + enc_pairs(s).len())),
    decreases s.len(),
{
    if s.len() == 0 {
        assert(s =~= Seq::<(Seq<u8>, u64)>::empty());
    } else {
        let rest = s.drop_first();
        lemma_split2(b, pos, enc_pair(s[0]), enc_pairs(rest));
        lemma_dec_pair_embed(s[0], b, pos);
        assert(pairs_len_ok(rest)) by {
            assert(forall|i: int|
                0 <= i < rest.len() ==> #[trigger] rest[i].0.len() == s[i + 1].0.len());
        }
        lemma_dec_pairs_embed(rest, b, pos + enc_pair(s[0]).len());
        assert(seq![s[0]] + rest =~= s);
    }
}

proof fn lemma_dec_file_embed(f: FileV, b: Seq<u8>, pos: int)
    requires
        f.content_hash.len() == 32,
        0 <= pos,
        pos + enc_file(f).len() <= b.len(),
        b.subrange(pos, pos + enc_file(f).len()) == enc_file(f),
    ensures
        enc_file(f).len() == 82,
        dec_file_at(b, pos) == Some((f, pos + 82)),
{
    lemma_auto_spec_u64_to_from_le_bytes();
    lemma_enc_attrs_len(f.attrs);
    lemma_split2(b, pos, f.content_hash, spec_u64_to_le_bytes(f.size) + enc_attrs(f.attrs));
    lemma_dec_hash_embed(f.content_hash, b, pos);
    lemma_split2(b, pos + 32, spec_u64_to_le_bytes(f.size), enc_attrs(f.attrs));
    lemma_dec_u64_embed(f.size, b, pos + 32);
    lemma_dec_attrs_embed(f.attrs, b, pos + 40);
}

proof fn lemma_dec_dir_embed(d: DirV, b: Seq<u8>, pos: int)
    requires
        pairs_len_ok(d.children),
        0 <= pos,
        pos + enc_dir(d).len() <= b.len(),
        b.subrange(pos, pos + enc_dir(d).len()) == enc_dir(d),
    ensures
        dec_dir_at(b, pos) == Some((d, pos + enc_dir(d).len())),
{
    lemma_auto_spec_u64_to_from_le_bytes();
    lemma_enc_attrs_len(d.attrs);
    let cnt = spec_u64_to_le_bytes(d.children.len() as u64);
    let pairs = enc_pairs(d.children);
    let attrs = enc_attrs(d.attrs);
    let parent = spec_u64_to_le_bytes(d.parent);
    lemma_split2(b, pos, cnt, pairs + (attrs + parent));
    lemma_dec_u64_embed(d.children.len() as u64, b, pos);
    lemma_split2(b, pos + 8, pairs, attrs + parent);
    lemma_dec_pairs_embed(d.children, b, pos + 8);
    lemma_split2(b, pos + 8 + pairs.len(), attrs, parent);
    lemma_dec_attrs_embed(d.attrs, b, pos + 8 + pairs.len());
    lemma_dec_u64_embed(d.parent, b, pos + 8 + pairs.len() + 42);
}

/// Codec round trip for records: decoding an encoding yields the value.
pub proof fn lemma_record_round_trip(r: RecordV)
    requires
        record_len_ok(r),
    ensures
        dec_record(enc_record(r)) == Some(r),
{
    let b = enc_record(r);
    match r {
        RecordV::File(f) => {
            assert(b[0] == 0u8);
            assert(b.subrange(1, 1 + enc_file(f).len() as int) =~= enc_file(f));
            lemma_dec_file_embed(f, b, 1);
        },
        RecordV::Directory(d) => {
            assert(b[0] == 1u8);
            assert(b.subrange(1, 1 + enc_dir(d).len() as int) =~= enc_dir(d));
            lemma_dec_dir_embed(d, b, 1);
        },
    }
}

/// Codec round trip for data blocks.
pub proof fn lemma_block_round_trip(s: Seq<u8>)
    requires
        block_len_ok(s),
    ensures
        dec_block(enc_block(s)) == Some(s),
{
    let b = enc_block(s);
    assert(b.subrange(0, enc_bytes(s).len() as int) =~= enc_bytes(s));
    lemma_dec_bytes_embed(s, b, 0);
}

proof fn lemma_dec_ipair_embed(p: (u64, Seq<u8>), b: Seq<u8>, pos: int)
    requires
        p.1.len() == 32,
        0 <= pos,
        pos + enc_ipair(p).len() <= b.len(),
        b.subrange(pos, pos + enc_ipair(p).len()) == enc_ipair(p),
    ensures
        enc_ipair(p).len() == 40,
        dec_ipair_at(b, pos) == Some((p, pos + 40)),
{
    lemma_auto_spec_u64_to_from_le_bytes();
    lemma_split2(b, pos, spec_u64_to_le_bytes(p.0), p.1);
    lemma_dec_u64_embed(p.0, b, pos);
    lemma_dec_hash_embed(p.1, b, pos + 8);
}

proof fn lemma_dec_ipairs_embed(s: Seq<(u64, Seq<u8>)>, b: Seq<u8>, pos: int)
    requires
        forall|i: int| 0 <= i < s.len() ==> #[trigger] s[i].1.len() == 32,
        0 <= pos,
        pos + enc_ipairs(s).len() <= b.len(),
        b.subrange(pos, pos + enc_ipairs(s).len()) == enc_ipairs(s),
    ensures
        dec_ipairs_at(b, pos, s.len() as nat) == Some((s, pos + enc_ipairs(s).len())),
    decreases s.len(),
{
    if s.len() == 0 {
        assert(s =~= Seq::<(u64, Seq<u8>)>::empty());
    } else {
        let rest = s.drop_first();
        lemma_split2(b, pos, enc_ipair(s[0]), enc_ipairs(rest));
        lemma_dec_ipair_embed(s[0], b, pos);
        assert(forall|i: int| 0 <= i < rest.len() ==> #[trigger] rest[i].1.len() == 32) by {
            assert(forall|i: int|
                0 <= i < rest.len() ==> #[trigger] rest[i].1.len() == s[i + 1].1.len());
        }
        lemma_dec_ipairs_embed(rest, b, pos + enc_ipair(s[0]).len());
        assert(seq![s[0]] + rest =~= s);
    }
}

/// Codec round trip for index snapshots.
pub proof fn lemma_index_round_trip(x: IndexV)
    requires
        index_len_ok(x),
    ensures
        dec_index(enc_index(x)) == Some(x),
{
    lemma_auto_spec_u64_to_from_le_bytes();
    let b = enc_index(x);
    let nxt = spec_u64_to_le_bytes(x.next);
    let cnt = spec_u64_to_le_bytes(x.mapping.len() as u64);
    let body = enc_ipairs(x.mapping);
    assert(b.subrange(0, b.len() as int) =~= b);
    lemma_split2(b, 0, nxt, cnt + body);
    lemma_dec_u64_embed(x.next, b, 0);
    lemma_split2(b, 8, cnt, body);
    lemma_dec_u64_embed(x.mapping.len() as u64, b, 8);
    lemma_dec_ipairs_embed(x.mapping, b, 16);
}

// ---------------------------------------------------------------------------
// Executable encoding
// ---------------------------------------------------------------------------
fn put_u16(out: &mut Vec<u8>, x: u16)
    ensures
        final(out)@ == old(out)@ + spec_u16_to_le_bytes(x),
{
    let mut b = u16_to_le_bytes(x);
    out.append(&mut b);
}

fn put_u32(out: &mut Vec<u8>, x: u32)
    ensures
        final(out)@ == old(out)@ + spec_u32_to_le_bytes(x),
{
    let mut b = u32_to_le_bytes(x);
    out.append(&mut b);
}

fn put_u64(out: &mut Vec<u8>, x: u64)
    ensures
        final(out)@ == old(out)@ + spec_u64_to_le_bytes(x),
{
    let mut b = u64_to_le_bytes(x);
    out.append(&mut b);
}

fn put_slice(out: &mut Vec<u8>, s: &[u8])
    ensures
        final(out)@ == old(out)@ + s@,
{
    let mut b = slice_to_vec(s);
    out.append(&mut b);
}

fn put_bytes(out: &mut Vec<u8>, s: &[u8])
    ensures
        final(out)@ == old(out)@ + enc_bytes(s@),
{
    put_u64(out, s.len() as u64);
    put_slice(out, s);
    assert(final(out)@ == old(out)@ + (spec_u64_to_le_bytes(s@.len() as u64) + s@));
}

fn put_attrs(out: &mut Vec<u8>, a: &CommonAttrs)
    ensures
        final(out)@ == old(out)@ + enc_attrs(*a),
{
    put_u16(out, a.perm);
    put_u32(out, a.uid);
    put_u32(out, a.gid);
    put_u64(out, a.atime);
    put_u64(out, a.mtime);
    put_u64(out, a.ctime);
    put_u64(out, a.crtime);
    assert(final(out)@ =~= old(out)@ + enc_attrs(*a));
}

fn put_hash(out: &mut Vec<u8>, h: &HashPointer)
    ensures
        final(out)@ == old(out)@ + h@,
{
    let arr = h.to_bytes();
    put_slice(out, arr.as_slice());
}

/// The snoc form of the entry encoding, used to verify the encoding loop.
proof fn lemma_enc_pairs_snoc(s: Seq<(Seq<u8>, u64)>, p: (Seq<u8>, u64))
    ensures
        enc_pairs(s.push(p)) == enc_pairs(s) + enc_pair(p),
    decreases s.len(),
{
    if s.len() == 0 {
        assert(s.push(p).drop_first() =~= Seq::<(Seq<u8>, u64)>::empty());
        assert(enc_pairs(Seq::<(Seq<u8>, u64)>::empty()) =~= Seq::<u8>::empty());
        assert(enc_pairs(s.push(p)) =~= enc_pairs(s) + enc_pair(p));
    } else {
        lemma_enc_pairs_snoc(s.drop_first(), p);
        assert(s.push(p).drop_first() =~= s.drop_first().push(p));
        assert(s.push(p)[0] == s[0]);
        assert(enc_pair(s[0]) + (enc_pairs(s.drop_first()) + enc_pair(p)) =~= (enc_pair(s[0])
            + enc_pairs(s.drop_first())) + enc_pair(p));
    }
}

proof fn lemma_enc_ipairs_snoc(s: Seq<(u64, Seq<u8>)>, p: (u64, Seq<u8>))
    ensures
        enc_ipairs(s.push(p)) == enc_ipairs(s) + enc_ipair(p),
    decreases s.len(),
{
    if s.len() == 0 {
        assert(s.push(p).drop_first() =~= Seq::<(u64, Seq<u8>)>::empty());
        assert(enc_ipairs(Seq::<(u64, Seq<u8>)>::empty()) =~= Seq::<u8>::empty());
        assert(enc_ipairs(s.push(p)) =~= enc_ipairs(s) + enc_ipair(p));
    } else {
        lemma_enc_ipairs_snoc(s.drop_first(), p);
        assert(s.push(p).drop_first() =~= s.drop_first().push(p));
        assert(s.push(p)[0] == s[0]);
        assert(enc_ipair(s[0]) + (enc_ipairs(s.drop_first()) + enc_ipair(p)) =~= (enc_ipair(s[0])
            + enc_ipairs(s.drop_first())) + enc_ipair(p));
    }
}

/// Encodes a data block.
pub fn encode_block(d: &DataBlock) -> (out: Vec<u8>)
    ensures
        out@ == enc_block(d@),
{
    let mut out: Vec<u8> = Vec::new();
    put_bytes(&mut out, d.data.as_slice());
    assert(out@ =~= enc_block(d@));
    out
}

/// Encodes a record, with its one-byte variant tag.
pub fn encode_record(r: &Record) -> (out: Vec<u8>)
    ensures
        out@ == enc_record(r@),
{
    let mut out: Vec<u8> = Vec::new();
    match r {
        Record::File(f) => {
            out.push(0u8);
            let ghost base = out@;
            assert(base =~= seq![0u8]);
            let arr = f.content_hash.untyped();
            put_hash(&mut out, &arr);
            put_u64(&mut out, f.size);
            put_attrs(&mut out, &f.common_attrs);
            assert(out@ =~= enc_record(r@));
        },
        Record::Directory(d) => {
            out.push(1u8);
            assert(out@ =~= seq![1u8]);
            put_u64(&mut out, d.children.len() as u64);
            let ghost base = out@;
            let n = d.children.len();
            let mut i: usize = 0;
            while i < n
                invariant
                    0 <= i <= n,
                    n == d.children@.len(),
                    out@ == base + enc_pairs(entries_view(d.children@).take(i as int)),
                decreases n - i,
            {
                let entry = &d.children[i];
                put_bytes(&mut out, entry.name.name.as_slice());
                put_u64(&mut out, entry.inode.get());
                proof {
                    let ev = entries_view(d.children@);
                    lemma_enc_pairs_snoc(ev.take(i as int), ev[i as int]);
                    assert(ev.take(i as int).push(ev[i as int]) =~= ev.take(i + 1 as int));
                    assert(out@ =~= base + enc_pairs(ev.take(i + 1 as int)));
                }
                i += 1;
            }
            proof {
                assert(entries_view(d.children@).take(n as int) =~= entries_view(d.children@));
            }
            put_attrs(&mut out, &d.common_attrs);
            put_u64(&mut out, d.parent.get());
            assert(out@ =~= enc_record(r@));
        },
    }
    out
}

/// Encodes an index snapshot.
pub fn encode_index(x: &INodeIndex) -> (out: Vec<u8>)
    ensures
        out@ == enc_index(x@),
{
    let mut out: Vec<u8> = Vec::new();
    put_u64(&mut out, x.next_inode.get());
    put_u64(&mut out, x.inode_mapping.len() as u64);
    let ghost base = out@;
    let n = x.inode_mapping.len();
    let mut i: usize = 0;
    while i < n
        invariant
            0 <= i <= n,
            n == x.inode_mapping@.len(),
            out@ == base + enc_ipairs(x.mapping_view().take(i as int)),
        decreases n - i,
    {
        let ino = x.inode_mapping[i].0.get();
        put_u64(&mut out, ino);
        let h = x.inode_mapping[i].1.untyped();
        put_hash(&mut out, &h);
        proof {
            let mv = x.mapping_view();
            lemma_enc_ipairs_snoc(mv.take(i as int), mv[i as int]);
            assert(mv.take(i as int).push(mv[i as int]) =~= mv.take(i + 1 as int));
            assert(out@ =~= base + enc_ipairs(mv.take(i + 1 as int)));
        }
        i += 1;
    }
    proof {
        assert(x.mapping_view().take(n as int) =~= x.mapping_view());
    }
    assert(out@ =~= enc_index(x@));
    out
}

// ---------------------------------------------------------------------------
// Executable decoding: each reader matches the specification cursor exactly
// ---------------------------------------------------------------------------
fn read_u16(b: &[u8], pos: usize) -> (r: Option<(u16, usize)>)
    ensures
        match r {
            Some((x, p)) => dec_u16_at(b@, pos as int) == Some((x, p as int)),
            None => dec_u16_at(b@, pos as int) is None,
        },
{
    if pos <= b.len() && b.len() - pos >= 2 {
        let x = u16_from_le_bytes(slice_subrange(b, pos, pos + 2));
        Some((x, pos + 2))
    } else {
        None
    }
}

fn read_u32(b: &[u8], pos: usize) -> (r: Option<(u32, usize)>)
    ensures
        match r {
            Some((x, p)) => dec_u32_at(b@, pos as int) == Some((x, p as int)),
            None => dec_u32_at(b@, pos as int) is None,
        },
{
    if pos <= b.len() && b.len() - pos >= 4 {
        let x = u32_from_le_bytes(slice_subrange(b, pos, pos + 4));
        Some((x, pos + 4))
    } else {
        None
    }
}

fn read_u64(b: &[u8], pos: usize) -> (r: Option<(u64, usize)>)
    ensures
        match r {
            Some((x, p)) => dec_u64_at(b@, pos as int) == Some((x, p as int)),
            None => dec_u64_at(b@, pos as int) is None,
        },
{
    if pos <= b.len() && b.len() - pos >= 8 {
        let x = u64_from_le_bytes(slice_subrange(b, pos, pos + 8));
        Some((x, pos + 8))
    } else {
        None
    }
}

fn read_bytes(b: &[u8], pos: usize) -> (r: Option<(Vec<u8>, usize)>)
    ensures
        match r {
            Some((v, p)) => dec_bytes_at(b@, pos as int) == Some((v@, p as int)),
            None => dec_bytes_at(b@, pos as int) is None,
        },
{
    match read_u64(b, pos) {
        Some((n, p)) => {
            if n <= (b.len() - p) as u64 {
                let k = n as usize;
                let v = slice_to_vec(slice_subrange(b, p, p + k));
                Some((v, p + k))
            } else {
                None
            }
        },
        None => None,
    }
}

fn read_hash(b: &[u8], pos: usize) -> (r: Option<(HashPointer, usize)>)
    ensures
        match r {
            Some((h, p)) => dec_hash_at(b@, pos as int) == Some((h@, p as int)),
            None => dec_hash_at(b@, pos as int) is None,
        },
{
    if pos <= b.len() && b.len() - pos >= 32 {
        let h = HashPointer::from_slice(slice_subrange(b, pos, pos + 32));
        Some((h, pos + 32))
    } else {
        None
    }
}

fn read_attrs(b: &[u8], pos: usize) -> (r: Option<(CommonAttrs, usize)>)
    ensures
        match r {
            Some((a, p)) => dec_attrs_at(b@, pos as int) == Some((a, p as int)),
            None => dec_attrs_at(b@, pos as int) is None,
        },
{
    let (perm, p1) = match read_u16(b, pos) {
        Some(x) => x,
        None => {
            return None;
        },
    };
    let (uid, p2) = match read_u32(b, p1) {
        Some(x) => x,
        None => {
            return None;
        },
    };
    let (gid, p3) = match read_u32(b, p2) {
        Some(x) => x,
        None => {
            return None;
        },
    };
    let (atime, p4) = match read_u64(b, p3) {
        Some(x) => x,
        None => {
            return None;
        },
    };
    let (mtime, p5) = match read_u64(b, p4) {
        Some(x) => x,
        None => {
            return None;
        },
    };
    let (ctime, p6) = match read_u64(b, p5) {
        Some(x) => x,
        None => {
            return None;
        },
    };
    let (crtime, p7) = match read_u64(b, p6) {
        Some(x) => x,
        None => {
            return None;
        },
    };
    Some((CommonAttrs { perm, uid, gid, atime, mtime, ctime, crtime }, p7))
}

/// Decodes a whole blob as a data block.
pub fn decode_block(b: &[u8]) -> (r: Option<DataBlock>)
    ensures
        match r {
            Some(v) => dec_block(b@) == Some(v@),
            None => dec_block(b@) is None,
        },
{
    match read_bytes(b, 0) {
        Some((v, p)) => {
            if p == b.len() {
                Some(DataBlock::new(v))
            } else {
                None
            }
        },
        None => None,
    }
}

/// Decodes a whole blob as a record.
pub fn decode_record(b: &[u8]) -> (r: Option<Record>)
    ensures
        match r {
            Some(v) => dec_record(b@) == Some(v@),
            None => dec_record(b@) is None,
        },
{
    if b.len() < 1 {
        return None;
    }
    let tag = b[0];
    if tag == 0 {
        let (h, p1) = match read_hash(b, 1) {
            Some(x) => x,
            None => {
                return None;
            },
        };
        let (size, p2) = match read_u64(b, p1) {
            Some(x) => x,
            None => {
                return None;
            },
        };
        let (attrs, p3) = match read_attrs(b, p2) {
            Some(x) => x,
            None => {
                return None;
            },
        };
        if p3 == b.len() {
            Some(Record::File(FileRecord::new(TypedHashPointer::new(h), size, attrs)))
        } else {
            None
        }
    } else if tag == 1 {
        let (n, p1) = match read_u64(b, 1) {
            Some(x) => x,
            None => {
                return None;
            },
        };
        let (children, p2) = match read_entries(b, p1, n) {
            Some(x) => x,
            None => {
                return None;
            },
        };
        let (attrs, p3) = match read_attrs(b, p2) {
            Some(x) => x,
            None => {
                return None;
            },
        };
        let (parent, p4) = match read_u64(b, p3) {
            Some(x) => x,
            None => {
                return None;
            },
        };
        if p4 == b.len() {
            Some(Record::Directory(DirectoryRecord {
                children,
                common_attrs: attrs,
                parent: INode::new(parent),
            }))
        } else {
            None
        }
    } else {
        None
    }
}

/// Reads a run of directory entries, matching the specification cursor.
fn read_entries(b: &[u8], pos: usize, n: u64) -> (r: Option<(Vec<IndexMapping>, usize)>)
    ensures
        match r {
            Some((v, p)) => dec_pairs_at(b@, pos as int, n as nat) == Some(
                (entries_view(v@), p as int),
            ),
            None => dec_pairs_at(b@, pos as int, n as nat) is None,
        },
{
    let mut out: Vec<IndexMapping> = Vec::new();
    let mut cur: usize = pos;
    let mut remaining: u64 = n;
    proof {
        if dec_pairs_at(b@, pos as int, n as nat) is Some {
            let t0 = dec_pairs_at(b@, pos as int, n as nat).unwrap();
            assert(entries_view(out@) + t0.0 =~= t0.0);
        }
    }
    loop
        invariant
            dec_pairs_at(b@, pos as int, n as nat) == (match dec_pairs_at(
                b@,
                cur as int,
                remaining as nat,
            ) {
                Some((rest, p)) => Some::<(Seq<(Seq<u8>, u64)>, int)>(
                    (entries_view(out@) + rest, p),
                ),
                None => None::<(Seq<(Seq<u8>, u64)>, int)>,
            }),
        decreases remaining,
    {
        if remaining == 0 {
            proof {
                assert(dec_pairs_at(b@, cur as int, 0nat) == Some(
                    (Seq::<(Seq<u8>, u64)>::empty(), cur as int),
                ));
                assert(entries_view(out@) + Seq::<(Seq<u8>, u64)>::empty() =~= entries_view(
                    out@,
                ));
            }
            return Some((out, cur));
        }
        let (name, p1) = match read_bytes(b, cur) {
            Some(x) => x,
            None => {
                return None;
            },
        };
        let (ino, p2) = match read_u64(b, p1) {
            Some(x) => x,
            None => {
                return None;
            },
        };
        let ghost prev_out = out@;
        let ghost prev_cur = cur as int;
        let ghost prev_remaining = remaining as nat;
        let ghost pair = (name@, ino);
        out.push(IndexMapping { inode: INode::new(ino), name: Filename::from_bytes(name) });
        cur = p2;
        remaining = remaining - 1;
        proof {
            assert(dec_pair_at(b@, prev_cur) == Some((pair, cur as int)));
            assert(entries_view(out@) =~= entries_view(prev_out).push(pair));
            let res = dec_pairs_at(b@, cur as int, remaining as nat);
            if res is Some {
                let tr = res.unwrap();
                let rest = tr.0;
                assert(dec_pairs_at(b@, prev_cur, prev_remaining) == Some(
                    (seq![pair] + rest, tr.1),
                ));
                assert(entries_view(prev_out) + (seq![pair] + rest) =~= entries_view(out@)
                    + rest);
            } else {
                assert(dec_pairs_at(b@, prev_cur, prev_remaining) is None);
            }
        }
    }
}

/// Reads a run of index entries, matching the specification cursor.
fn read_ientries(b: &[u8], pos: usize, n: u64) -> (r: Option<
    (Vec<(INode, TypedHashPointer<Record>)>, usize),
>)
    ensures
        match r {
            Some((v, p)) => dec_ipairs_at(b@, pos as int, n as nat) == Some(
                (
                    v@.map_values(|q: (INode, TypedHashPointer<Record>)| (q.0@, q.1@)),
                    p as int,
                ),
            ),
            None => dec_ipairs_at(b@, pos as int, n as nat) is None,
        },
{
    let ghost f = |q: (INode, TypedHashPointer<Record>)| (q.0@, q.1@);
    let mut out: Vec<(INode, TypedHashPointer<Record>)> = Vec::new();
    let mut cur: usize = pos;
    let mut remaining: u64 = n;
    proof {
        if dec_ipairs_at(b@, pos as int, n as nat) is Some {
            let t0 = dec_ipairs_at(b@, pos as int, n as nat).unwrap();
            assert(out@.map_values(f) + t0.0 =~= t0.0);
        }
    }
    loop
        invariant
            f == (|q: (INode, TypedHashPointer<Record>)| (q.0@, q.1@)),
            dec_ipairs_at(b@, pos as int, n as nat) == (match dec_ipairs_at(
                b@,
                cur as int,
                remaining as nat,
            ) {
                Some((rest, p)) => Some::<(Seq<(u64, Seq<u8>)>, int)>(
                    (out@.map_values(f) + rest, p),
                ),
                None => None::<(Seq<(u64, Seq<u8>)>, int)>,
            }),
        decreases remaining,
    {
        if remaining == 0 {
            proof {
                assert(dec_ipairs_at(b@, cur as int, 0nat) == Some(
                    (Seq::<(u64, Seq<u8>)>::empty(), cur as int),
                ));
                assert(out@.map_values(f) + Seq::<(u64, Seq<u8>)>::empty() =~= out@.map_values(
                    f,
                ));
            }
            return Some((out, cur));
        }
        let (ino, p1) = match read_u64(b, cur) {
            Some(x) => x,
            None => {
                return None;
            },
        };
        let (h, p2) = match read_hash(b, p1) {
            Some(x) => x,
            None => {
                return None;
            },
        };
        let ghost prev_out = out@;
        let ghost prev_cur = cur as int;
        let ghost prev_remaining = remaining as nat;
        let ghost pair = (ino, h@);
        out.push((INode::new(ino), TypedHashPointer::new(h)));
        cur = p2;
        remaining = remaining - 1;
        proof {
            assert(dec_ipair_at(b@, prev_cur) == Some((pair, cur as int)));
            assert(out@.map_values(f) =~= prev_out.map_values(f).push(pair));
            let res = dec_ipairs_at(b@, cur as int, remaining as nat);
            if res is Some {
                let tr = res.unwrap();
                let rest = tr.0;
                assert(dec_ipairs_at(b@, prev_cur, prev_remaining) == Some(
                    (seq![pair] + rest, tr.1),
                ));
                assert(prev_out.map_values(f) + (seq![pair] + rest) =~= out@.map_values(f)
                    + rest);
            } else {
                assert(dec_ipairs_at(b@, prev_cur, prev_remaining) is None);
            }
        }
    }
}

/// Decodes a whole blob as an index snapshot.
pub fn decode_index(b: &[u8]) -> (r: Option<INodeIndex>)
    ensures
        match r {
            Some(v) => dec_index(b@) == Some(v@),
            None => dec_index(b@) is None,
        },
{
    let (next, p1) = match read_u64(b, 0) {
        Some(x) => x,
        None => {
            return None;
        },
    };
    let (n, p2) = match read_u64(b, p1) {
        Some(x) => x,
        None => {
            return None;
        },
    };
    let (mapping, p3) = match read_ientries(b, p2, n) {
        Some(x) => x,
        None => {
            return None;
        },
    };
    if p3 == b.len() {
        Some(INodeIndex { next_inode: INode::new(next), inode_mapping: mapping })
    } else {
        None
    }
}

/// Every record built from executable data meets the codec's length side
/// conditions.
pub proof fn lemma_record_len_ok(r: &Record)
    ensures
        record_len_ok(r@),
{
    match r {
        Record::File(f) => {
            f.content_hash.lemma_len();
        },
        Record::Directory(d) => {
            assert(vstd::std_specs::vec::spec_vec_len(&d.children) == d.children@.len());
            assert forall|i: int| 0 <= i < entries_view(d.children@).len() implies #[trigger]
                entries_view(d.children@)[i].0.len() <= u64::MAX by {
                assert(entries_view(d.children@)[i].0 == d.children@[i].name@);
                assert(vstd::std_specs::vec::spec_vec_len(&d.children@[i].name.name)
                    == d.children@[i].name.name@.len());
            }
        },
    }
}

/// Every index snapshot built from executable data meets the codec's length
/// side conditions.
pub proof fn lemma_index_len_ok(x: &INodeIndex)
    ensures
        index_len_ok(x@),
{
    assert(vstd::std_specs::vec::spec_vec_len(&x.inode_mapping) == x.inode_mapping@.len());
    assert forall|i: int| 0 <= i < x.mapping_view().len() implies #[trigger] x.mapping_view()[i].1.len()
        == 32 by {
        assert(x.mapping_view()[i].1 == x.inode_mapping@[i].1@);
        x.inode_mapping@[i].1.lemma_len();
    }
}

} // verus!

