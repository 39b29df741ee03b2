use vstd::prelude::*;

verus! {

/// A 64-bit opaque identifier for a file or directory. The root directory is
/// inode 1; the first allocatable inode is 2.
#[derive(Clone, Copy, PartialEq, Eq, Structural, Debug, Hash)]
pub struct INode(u64);

impl View for INode {
    type V = u64;

    closed spec fn view(&self) -> u64 {
        self.0
    }
}

impl INode {
    pub fn new(inode: u64) -> (r: Self)
        ensures
            r@ == inode,
    {
        INode(inode)
    }

    pub fn get(&self) -> (r: u64)
        ensures
            r == self@,
    {
        self.0
    }

    /// The inode that follows this one in allocation order.
    pub fn next_inode(&self) -> (r: INode)
        requires
            self@ < u64::MAX,
        ensures
            r@ == self@ + 1,
    {
        INode(self.0 + 1)
    }
}

impl Default for INode {
    /// The first allocatable inode.
    fn default() -> (r: Self)
        ensures
            r@ == 2,
    {
        INode(2)
    }
}

} // verus!
