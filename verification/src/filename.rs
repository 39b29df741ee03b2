use vstd::prelude::*;
use vstd::slice::slice_to_vec;
use vstd::string::StringSliceAdditionalSpecFns;

verus! {

/// Compares two byte slices for element-wise equality.
pub fn bytes_eq(a: &[u8], b: &[u8]) -> (r: bool)
    ensures
        r == (a@ == b@),
{
    if a.len() != b.len() {
        assert(a@ != b@);
        return false;
    }
    let n = a.len();
    let mut i: usize = 0;
    while i < n
        invariant
            0 <= i <= n,
            n == a@.len() == b@.len(),
            forall|j: int| 0 <= j < i ==> a@[j] == b@[j],
        decreases n - i,
    {
        if a[i] != b[i] {
            assert(a@ != b@);
            return false;
        }
        i += 1;
    }
    assert(a@ =~= b@);
    true
}

/// A name may be bound in a directory only if it is non-empty and is not one
/// of the two reserved listing names.
pub open spec fn spec_valid_name(s: Seq<u8>) -> bool {
    &&& s.len() > 0
    &&& s != seq![46u8]
    &&& s != seq![46u8, 46u8]
}

/// A name under which a directory lists a child: a byte sequence with no
/// interpretation of encoding. Equality is bytewise.
#[derive(Debug, PartialEq, Eq, Hash)]
pub struct Filename {
    pub name: Vec<u8>,
}

impl View for Filename {
    type V = Seq<u8>;

    open spec fn view(&self) -> Seq<u8> {
        self.name@
    }
}

impl Clone for Filename {
    fn clone(&self) -> (r: Self)
        ensures
            r@ == self@,
    {
        Filename { name: slice_to_vec(self.name.as_slice()) }
    }
}

impl Filename {
    pub fn from_bytes(name: Vec<u8>) -> (r: Self)
        ensures
            r@ == name@,
    {
        Filename { name }
    }

    pub fn from_text(s: &str) -> (r: Self)
        ensures
            r@ == s.spec_bytes(),
    {
        Filename { name: slice_to_vec(s.as_bytes()) }
    }

    /// Whether the name may be bound in a directory: non-empty and not a
    /// reserved listing name.
    pub fn is_valid(&self) -> (r: bool)
        ensures
            r == spec_valid_name(self@),
    {
        let n = self.name.len();
        if n == 0 {
            return false;
        }
        if n == 1 && self.name[0] == 46 {
            proof {
                assert(self@ =~= seq![46u8]);
            }
            return false;
        }
        if n == 2 && self.name[0] == 46 && self.name[1] == 46 {
            proof {
                assert(self@ =~= seq![46u8, 46u8]);
            }
            return false;
        }
        proof {
            assert(seq![46u8].len() == 1);
            assert(seq![46u8, 46u8].len() == 2);
            if self@ == seq![46u8] {
                assert(self@[0] == 46u8);
            }
            if self@ == seq![46u8, 46u8] {
                assert(self@[0] == 46u8 && self@[1] == 46u8);
            }
        }
        true
    }

    pub fn eq_name(&self, other: &Filename) -> (r: bool)
        ensures
            r == (self@ == other@),
    {
        bytes_eq(self.name.as_slice(), other.name.as_slice())
    }
}

} // verus!
