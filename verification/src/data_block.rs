use vstd::prelude::*;
use vstd::slice::slice_to_vec;

verus! {

/// The opaque byte payload of a file: the leaf of the content graph.
#[derive(Debug, PartialEq, Eq)]
pub struct DataBlock {
    pub data: Vec<u8>,
}

impl View for DataBlock {
    type V = Seq<u8>;

    open spec fn view(&self) -> Seq<u8> {
        self.data@
    }
}

impl Clone for DataBlock {
    fn clone(&self) -> (r: Self)
        ensures
            r@ == self@,
    {
        DataBlock { data: slice_to_vec(self.data.as_slice()) }
    }
}

impl Default for DataBlock {
    /// An empty payload.
    fn default() -> (r: Self)
        ensures
            r@ == Seq::<u8>::empty(),
    {
        DataBlock { data: Vec::new() }
    }
}

impl DataBlock {
    pub fn new(data: Vec<u8>) -> (r: Self)
        ensures
            r@ == data@,
    {
        DataBlock { data }
    }

    pub fn len(&self) -> (r: usize)
        ensures
            r == self@.len(),
    {
        self.data.len()
    }

    pub fn is_empty(&self) -> (r: bool)
        ensures
            r == (self@.len() == 0),
    {
        self.data.len() == 0
    }
}

} // verus!
