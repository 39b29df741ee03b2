use vstd::prelude::*;
use core::marker::PhantomData;

verus! {

/// The digest that the content hash assigns to a byte sequence.
/// It is a function of those bytes alone; nothing else is assumed of it.
pub uninterp spec fn hash_of(bytes: Seq<u8>) -> Seq<u8>;

/// The standard base64 rendering of a byte sequence.
pub uninterp spec fn base64_of(bytes: Seq<u8>) -> Seq<char>;

/// A 32-byte identifier equal to the cryptographic hash of the exact encoded
/// byte sequence of some blob.
#[derive(Clone, Copy, Debug)]
pub struct HashPointer {
    bytes: [u8; 32],
}

impl View for HashPointer {
    type V = Seq<u8>;

    closed spec fn view(&self) -> Seq<u8> {
        self.bytes@
    }
}

impl HashPointer {
    /// Relies on blake3::hash: a 32-byte digest that is a function of the
    /// input bytes alone.
    #[verifier::external_body]
    pub fn hash_bytes(content: &[u8]) -> (r: HashPointer)
        ensures
            r@ == hash_of(content@),
    {
        HashPointer { bytes: *blake3::hash(content).as_bytes() }
    }

    pub fn from_bytes(bytes: [u8; 32]) -> (r: HashPointer)
        ensures
            r@ == bytes@,
    {
        HashPointer { bytes }
    }

    /// Builds a HashPointer from a 32-byte slice.
    pub fn from_slice(bytes: &[u8]) -> (r: HashPointer)
        requires
            bytes@.len() == 32,
        ensures
            r@ == bytes@,
    {
        let mut arr = [0u8; 32];
        let mut i: usize = 0;
        while i < 32
            invariant
                0 <= i <= 32,
                bytes@.len() == 32,
                arr@.len() == 32,
                forall|j: int| 0 <= j < i ==> arr@[j] == bytes@[j],
            decreases 32 - i,
        {
            arr[i] = bytes[i];
            i += 1;
        }
        assert(arr@ =~= bytes@);
        HashPointer { bytes: arr }
    }

    pub fn to_bytes(&self) -> (r: [u8; 32])
        ensures
            r@ == self@,
    {
        self.bytes
    }

    pub proof fn lemma_len(&self)
        ensures
            self@.len() == 32,
    {
    }

    /// Relies on the base64 crate's standard engine: the rendering is a
    /// function of the input bytes alone.
    #[verifier::external_body]
    pub fn to_base64(&self) -> (r: String)
        ensures
            r@ == base64_of(self@),
    {
        base64::Engine::encode(&base64::engine::general_purpose::STANDARD, self.bytes)
    }

    pub fn eq_hash(&self, other: &HashPointer) -> (r: bool)
        ensures
            r == (self@ == other@),
    {
        let mut i: usize = 0;
        while i < 32
            invariant
                0 <= i <= 32,
                forall|j: int| 0 <= j < i ==> self.bytes@[j] == other.bytes@[j],
            decreases 32 - i,
        {
            if self.bytes[i] != other.bytes[i] {
                assert(self@ != other@);
                return false;
            }
            i += 1;
        }
        assert(self@ =~= other@);
        true
    }
}

/// A HashPointer tagged at the type level with the kind of record it
/// addresses. The tag is a compile-time discipline, not part of the bytes.
#[derive(Debug)]
pub struct TypedHashPointer<T> {
    hash_pointer: HashPointer,
    _marker: PhantomData<T>,
}

impl<T> View for TypedHashPointer<T> {
    type V = Seq<u8>;

    closed spec fn view(&self) -> Seq<u8> {
        self.hash_pointer@
    }
}

impl<T> Clone for TypedHashPointer<T> {
    fn clone(&self) -> (r: Self)
        ensures
            r@ == self@,
    {
        TypedHashPointer { hash_pointer: self.hash_pointer, _marker: PhantomData }
    }
}

impl<T> TypedHashPointer<T> {
    pub fn new(hash_pointer: HashPointer) -> (r: Self)
        ensures
            r@ == hash_pointer@,
    {
        TypedHashPointer { hash_pointer, _marker: PhantomData }
    }

    pub fn untyped(&self) -> (r: HashPointer)
        ensures
            r@ == self@,
    {
        self.hash_pointer
    }

    pub proof fn lemma_len(&self)
        ensures
            self@.len() == 32,
    {
    }

    pub fn eq_hash(&self, other: &TypedHashPointer<T>) -> (r: bool)
        ensures
            r == (self@ == other@),
    {
        self.hash_pointer.eq_hash(&other.hash_pointer)
    }
}

/// A single mutable slot holding a HashPointer: the root reference.
pub trait HashPointerReference: Sized {
    /// The bytes of the hash currently held by the slot.
    spec fn pointer(&self) -> Seq<u8>;

    fn set(&mut self, value: &HashPointer)
        ensures
            final(self).pointer() == value@,
    ;

    fn get(&mut self) -> (r: HashPointer)
        ensures
            r@ == old(self).pointer(),
            final(self).pointer() == old(self).pointer(),
    ;
}

/// A root reference read and written through typed hash pointers. The tag
/// names the record type the slot's hash addresses.
pub trait TypedHashPointerReference<T>: HashPointerReference {
    fn set_typed(&mut self, value: &TypedHashPointer<T>)
        ensures
            final(self).pointer() == value@,
    {
        self.set(&value.untyped())
    }

    fn get_typed(&mut self) -> (r: TypedHashPointer<T>)
        ensures
            r@ == old(self).pointer(),
            final(self).pointer() == old(self).pointer(),
    {
        TypedHashPointer::new(self.get())
    }
}

impl<U, T: HashPointerReference> TypedHashPointerReference<U> for T {

}

/// An in-memory single-slot root reference.
pub struct InMemoryHashPointerReference {
    value: HashPointer,
}

impl InMemoryHashPointerReference {
    pub fn new(value: HashPointer) -> (r: Self)
        ensures
            r.pointer() == value@,
    {
        InMemoryHashPointerReference { value }
    }
}

impl HashPointerReference for InMemoryHashPointerReference {
    closed spec fn pointer(&self) -> Seq<u8> {
        self.value@
    }

    fn set(&mut self, value: &HashPointer) {
        self.value = *value;
    }

    fn get(&mut self) -> (r: HashPointer) {
        self.value
    }
}

} // verus!
