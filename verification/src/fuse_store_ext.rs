use vstd::prelude::*;
use vstd::bytes::lemma_auto_spec_u64_to_from_le_bytes;
use crate::bridgefs::{chain_clean, state_index, state_wf, ROOT_INODE};
use crate::codec::{
    dec_record, enc_index, enc_record, encode_index, encode_record, lemma_enc_attrs_len, DirV,
    IndexV, RecordV,
};
use crate::content_store::ContentStore;
use crate::counting_store::put_clean;
use crate::file_record::{now_nanos, CommonAttrs, DirectoryRecord, Record};
use crate::filename::bytes_eq;
use crate::hash_pointer::{hash_of, HashPointer, TypedHashPointer};
use crate::index::INodeIndex;
use crate::inode::INode;
use crate::response::FileOperationError;

verus! {

/// The record of the initial root directory: no children, the stock
/// attributes stamped at `now`, and the root as its own parent.
pub open spec fn initial_root_record(now: u64) -> RecordV {
    RecordV::Directory(
        DirV {
            children: Seq::empty(),
            attrs: CommonAttrs {
                perm: 0o755u16,
                uid: 501u32,
                gid: 20u32,
                atime: now,
                mtime: now,
                ctime: now,
                crtime: now,
            },
            parent: ROOT_INODE,
        },
    )
}

/// The initial index snapshot: exactly the root inode, bound to the initial
/// root record's hash, with the allocation counter at 2.
pub open spec fn initial_index(now: u64) -> IndexV {
    IndexV {
        next: 2u64,
        mapping: seq![(ROOT_INODE, hash_of(enc_record(initial_root_record(now))))],
    }
}

/// The two blobs bootstrapping writes: the root record, then the snapshot.
pub open spec fn bootstrap_blobs(now: u64) -> Seq<Seq<u8>> {
    seq![enc_record(initial_root_record(now)), enc_index(initial_index(now))]
}

/// What a successful bootstrap at time `now` leaves behind: the store has
/// gained exactly the two blobs, the returned hash addresses the initial
/// snapshot, and the root inode resolves to the initial empty directory.
pub open spec fn bootstrapped(
    m0: Map<Seq<u8>, Seq<u8>>,
    m1: Map<Seq<u8>, Seq<u8>>,
    h: Seq<u8>,
    now: u64,
) -> bool {
    let b1 = enc_record(initial_root_record(now));
    let b2 = enc_index(initial_index(now));
    &&& chain_clean(m0, bootstrap_blobs(now))
    &&& h == hash_of(b2)
    &&& m1 == m0.insert(hash_of(b1), b1).insert(hash_of(b2), b2)
    &&& state_index(m1, h) == Some(initial_index(now))
    &&& dec_record(m1[hash_of(b1)]) == Some(initial_root_record(now))
    &&& state_wf(m1, h)
}

/// Bootstrapping a fresh filesystem in a bare content store.
pub trait FuseStoreExt: ContentStore {
    /// Bootstraps with the stock attributes stamped at the given time.
    /// Succeeds unless one of the two bootstrap hashes is already bound to
    /// different bytes; in particular, on an empty store it must succeed,
    /// and a refusal leaves the store untouched.
    fn empty_root_dir_at(&mut self, now: u64) -> (r: Result<
        TypedHashPointer<INodeIndex>,
        FileOperationError,
    >)
        requires
            old(self).inv(),
        ensures
            final(self).inv(),
            match r {
                Ok(h) => bootstrapped(old(self).contents(), final(self).contents(), h@, now),
                Err(e) => e == FileOperationError::CorruptBlob && final(self).contents() == old(
                    self,
                ).contents() && !chain_clean(old(self).contents(), bootstrap_blobs(now)),
            },
    ;

    /// Bootstraps with the stock attributes stamped from the clock: stores
    /// an empty root directory record and the initial index snapshot that
    /// maps the root inode to it, and returns the snapshot's hash.
    fn empty_root_dir(&mut self) -> (r: Result<TypedHashPointer<INodeIndex>, FileOperationError>)
        requires
            old(self).inv(),
        ensures
            final(self).inv(),
            match r {
                Ok(h) => state_wf(final(self).contents(), h@) && state_index(
                    final(self).contents(),
                    h@,
                ).unwrap().next == 2 && (exists|now: u64|
                    bootstrapped(old(self).contents(), final(self).contents(), h@, now)),
                Err(e) => e == FileOperationError::CorruptBlob && final(self).contents() == old(
                    self,
                ).contents() && (exists|now: u64|
                    !chain_clean(old(self).contents(), #[trigger] bootstrap_blobs(now))),
            },
    ;
}

/// The two bootstrap encodings have different lengths, so they are never the
/// same bytes: a hash bound to one can never cleanly take the other.
proof fn lemma_bootstrap_blobs_differ(now: u64)
    requires
        hash_of(enc_record(initial_root_record(now))).len() == 32,
    ensures
        enc_record(initial_root_record(now)).len() == 59,
        enc_index(initial_index(now)).len() == 56,
        enc_record(initial_root_record(now)) != enc_index(initial_index(now)),
{
    lemma_auto_spec_u64_to_from_le_bytes();
    let rv = initial_root_record(now);
    match rv {
        RecordV::Directory(d) => {
            lemma_enc_attrs_len(d.attrs);
            assert(crate::codec::enc_pairs(d.children) =~= Seq::<u8>::empty());
        },
        RecordV::File(_) => {
        },
    }
    let x = initial_index(now);
    assert(x.mapping.drop_first() =~= Seq::<(u64, Seq<u8>)>::empty());
    assert(crate::codec::enc_ipairs(x.mapping.drop_first()) =~= Seq::<u8>::empty());
    assert(crate::codec::enc_ipair(x.mapping[0]).len() == 40);
}

impl<T: ContentStore> FuseStoreExt for T {
    fn empty_root_dir_at(&mut self, now: u64) -> (r: Result<
        TypedHashPointer<INodeIndex>,
        FileOperationError,
    >) {
        let ghost m0 = self.contents();
        let root_directory = DirectoryRecord::new(CommonAttrs::with_times(now), INode::new(1));
        let record = Record::Directory(root_directory);
        let bytes = encode_record(&record);
        let ghost dv = record@;
        proof {
            match dv {
                RecordV::Directory(d) => {
                    assert(d.children =~= Seq::<(Seq<u8>, u64)>::empty());
                },
                RecordV::File(_) => {
                },
            }
            assert(dv == initial_root_record(now));
            crate::codec::lemma_record_len_ok(&record);
            crate::codec::lemma_record_round_trip(dv);
        }
        let hash = HashPointer::hash_bytes(bytes.as_slice());
        let root_hash: TypedHashPointer<Record> = TypedHashPointer::new(hash);
        let index = INodeIndex::new(INode::new(1), root_hash);
        let ibytes = encode_index(&index);
        let ghost xv = index@;
        proof {
            hash.lemma_len();
            lemma_bootstrap_blobs_differ(now);
            assert(xv.mapping =~= seq![
                (ROOT_INODE, hash_of(enc_record(initial_root_record(now)))),
            ]);
            assert(xv == initial_index(now));
            crate::codec::lemma_index_len_ok(&index);
            crate::codec::lemma_index_round_trip(xv);
        }
        let ihash = HashPointer::hash_bytes(ibytes.as_slice());
        // integrity checks on both blobs before anything is written: a hash
        // already bound to different bytes refuses the whole bootstrap
        if self.contains_content(&hash) {
            let existing = self.get_content(&hash);
            if !bytes_eq(existing.as_slice(), bytes.as_slice()) {
                proof {
                    assert(!put_clean(m0, bytes@));
                    assert(bootstrap_blobs(now)[0] == bytes@);
                    assert(!chain_clean(m0, bootstrap_blobs(now)));
                }
                return Err(FileOperationError::CorruptBlob);
            }
        }
        if ihash.eq_hash(&hash) {
            proof {
                let blobs = bootstrap_blobs(now);
                let m1 = m0.insert(hash@, bytes@);
                assert(m1[ihash@] == bytes@);
                assert(!put_clean(m1, ibytes@));
                assert(blobs[0] == bytes@);
                assert(blobs.drop_first()[0] == ibytes@);
                assert(m0.insert(hash_of(blobs[0]), blobs[0]) == m1);
                assert(chain_clean(m1, blobs.drop_first()) ==> put_clean(m1, ibytes@));
                assert(!chain_clean(m0, blobs));
            }
            return Err(FileOperationError::CorruptBlob);
        }
        if self.contains_content(&ihash) {
            let existing = self.get_content(&ihash);
            if !bytes_eq(existing.as_slice(), ibytes.as_slice()) {
                proof {
                    let blobs = bootstrap_blobs(now);
                    let m1 = m0.insert(hash@, bytes@);
                    assert(m1[ihash@] == m0[ihash@]);
                    assert(!put_clean(m1, ibytes@));
                    assert(blobs[0] == bytes@);
                    assert(blobs.drop_first()[0] == ibytes@);
                    assert(m0.insert(hash_of(blobs[0]), blobs[0]) == m1);
                    assert(chain_clean(m1, blobs.drop_first()) ==> put_clean(m1, ibytes@));
                    assert(!chain_clean(m0, blobs));
                }
                return Err(FileOperationError::CorruptBlob);
            }
        }
        let record_hash = self.add_content(bytes.as_slice());
        let index_hash = self.add_content(ibytes.as_slice());
        proof {
            let m2 = self.contents();
            let m1 = m0.insert(hash@, bytes@);
            assert(m2 == m1.insert(ihash@, ibytes@));
            assert(put_clean(m0, bytes@));
            assert(put_clean(m1, ibytes@));
            assert(m2.contains_key(ihash@) && m2[ihash@] == ibytes@);
            assert(m2.contains_key(hash@) && m2[hash@] == bytes@);
            assert(crate::codec::dec_index(m2[ihash@]) == Some(xv));
            assert(crate::assoc::assoc_distinct(xv.mapping));
            assert(xv.mapping[0].0 == ROOT_INODE && xv.mapping[0].1 == hash@);
            assert(crate::codec::index_map(xv).contains_key(ROOT_INODE)
                && crate::codec::index_map(xv)[ROOT_INODE] == hash@) by {
                crate::assoc::lemma_assoc_index(xv.mapping, 0);
            }
            assert forall|ino: u64| #[trigger]
                crate::codec::index_map(xv).contains_key(ino) implies crate::bridgefs::record_ok(
                crate::codec::index_map(xv)[ino],
                m2,
            ) by {
                crate::assoc::lemma_assoc_domain(xv.mapping, ino);
                assert(ino == ROOT_INODE);
                assert(dec_record(m2[hash@]) == Some(dv));
                assert(match dv {
                    RecordV::Directory(d) => d.children.len() == 0,
                    _ => false,
                });
            }
            assert(crate::bridgefs::index_ok(xv, m2));
            assert(state_wf(m2, ihash@));
            let blobs = bootstrap_blobs(now);
            assert(blobs[0] == bytes@);
            assert(blobs.drop_first()[0] == ibytes@);
            assert(put_clean(m0, bytes@));
            assert(m1[ihash@] == m0[ihash@]);
            assert(put_clean(m1, ibytes@));
            assert(m0.insert(hash_of(blobs[0]), blobs[0]) == m1);
            assert(m1.insert(hash_of(blobs.drop_first()[0]), blobs.drop_first()[0]) == m2);
            assert(blobs.drop_first().drop_first() =~= Seq::<Seq<u8>>::empty());
            assert(chain_clean(m2, blobs.drop_first().drop_first()));
            assert(chain_clean(m1, blobs.drop_first()));
            assert(chain_clean(m0, blobs));
            assert(bootstrapped(m0, m2, ihash@, now));
        }
        Ok(TypedHashPointer::new(index_hash))
    }

    fn empty_root_dir(&mut self) -> (r: Result<TypedHashPointer<INodeIndex>, FileOperationError>) {
        let now = now_nanos();
        let r = self.empty_root_dir_at(now);
        proof {
            if r is Ok {
                assert(bootstrapped(old(self).contents(), self.contents(), r.unwrap()@, now));
            } else {
                assert(!chain_clean(old(self).contents(), bootstrap_blobs(now)));
            }
        }
        r
    }
}

} // verus!
