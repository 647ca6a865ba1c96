//! Compact, bounded unsigned representations for positional identifiers, and
//! the typed node/edge identifier wrappers built on them.

use vstd::prelude::*;

verus! {

/// The default integer type for node and edge indices. `u32` keeps the
/// graph's data small while still admitting large graphs.
pub type DefIndex = u32;

/// An unsigned integer type used as the compact representation of node and
/// edge indices. Its largest value doubles as the reserved "end" sentinel.
pub trait IndexType: Sized + Copy + PartialEq + Eq {
    /// The position this value stands for.
    spec fn index_spec(self) -> usize;

    /// The largest position the width can represent.
    spec fn max_spec() -> usize;

    /// Converts a position to the compact representation. Positions above
    /// the width's maximum are excluded rather than truncated.
    fn new(x: usize) -> (r: Self)
        requires
            x <= Self::max_spec(),
        ensures
            r.index_spec() == x,
    ;

    /// The position this value stands for.
    fn index(&self) -> (r: usize)
        ensures
            r == self.index_spec(),
    ;

    /// The largest representable value, reserved as the "end" sentinel.
    fn max() -> (r: Self)
        ensures
            r.index_spec() == Self::max_spec(),
    ;

    fn zero() -> (r: Self)
        ensures
            r.index_spec() == 0,
    ;

    fn one() -> (r: Self)
        ensures
            r.index_spec() == 1,
    ;
}

impl IndexType for usize {
    open spec fn index_spec(self) -> usize {
        self
    }

    open spec fn max_spec() -> usize {
        usize::MAX
    }

    #[inline(always)]
    fn new(x: usize) -> usize {
        x
    }

    #[inline(always)]
    fn index(&self) -> usize {
        *self
    }

    #[inline(always)]
    fn max() -> usize {
        usize::MAX
    }

    #[inline(always)]
    fn zero() -> usize {
        0
    }

    #[inline(always)]
    fn one() -> usize {
        1
    }
}

impl IndexType for u32 {
    open spec fn index_spec(self) -> usize {
        self as usize
    }

    open spec fn max_spec() -> usize {
        u32::MAX as usize
    }

    #[inline(always)]
    fn new(x: usize) -> u32 {
        x as u32
    }

    #[inline(always)]
    fn index(&self) -> usize {
        *self as usize
    }

    #[inline(always)]
    fn max() -> u32 {
        u32::MAX
    }

    #[inline(always)]
    fn zero() -> u32 {
        0
    }

    #[inline(always)]
    fn one() -> u32 {
        1
    }
}

impl IndexType for u16 {
    open spec fn index_spec(self) -> usize {
        self as usize
    }

    open spec fn max_spec() -> usize {
        u16::MAX as usize
    }

    #[inline(always)]
    fn new(x: usize) -> u16 {
        x as u16
    }

    #[inline(always)]
    fn index(&self) -> usize {
        *self as usize
    }

    #[inline(always)]
    fn max() -> u16 {
        u16::MAX
    }

    #[inline(always)]
    fn zero() -> u16 {
        0
    }

    #[inline(always)]
    fn one() -> u16 {
        1
    }
}

impl IndexType for u8 {
    open spec fn index_spec(self) -> usize {
        self as usize
    }

    open spec fn max_spec() -> usize {
        u8::MAX as usize
    }

    #[inline(always)]
    fn new(x: usize) -> u8 {
        x as u8
    }

    #[inline(always)]
    fn index(&self) -> usize {
        *self as usize
    }

    #[inline(always)]
    fn max() -> u8 {
        u8::MAX
    }

    #[inline(always)]
    fn zero() -> u8 {
        0
    }

    #[inline(always)]
    fn one() -> u8 {
        1
    }
}

/// Node identifier: the node's position in the node-weight array and in the
/// adjacency arrays.
#[derive(Copy, Clone, Debug, PartialEq, PartialOrd, Eq, Ord, Hash)]
pub struct NodeIndex<Ix>(Ix);

impl<Ix: IndexType> NodeIndex<Ix> {
    /// The position this identifier denotes.
    pub closed spec fn idx(self) -> usize {
        self.0.index_spec()
    }

    #[inline]
    pub fn new(x: usize) -> (r: Self)
        requires
            x <= Ix::max_spec(),
        ensures
            r.idx() == x,
    {
        NodeIndex(Ix::new(x))
    }

    #[inline]
    pub fn index(self) -> (r: usize)
        ensures
            r == self.idx(),
    {
        self.0.index()
    }

    /// The sentinel identifier: the width's maximum, denoting "end"/unset.
    #[inline]
    pub fn end() -> (r: Self)
        ensures
            r.idx() == Ix::max_spec(),
    {
        NodeIndex(Ix::max())
    }
}

/// Edge identifier: the edge's position in the edge-weight array, assigned
/// in creation order starting at 0.
#[derive(Copy, Clone, Debug, PartialEq, PartialOrd, Eq, Ord, Hash)]
pub struct EdgeIndex<Ix>(Ix);

impl<Ix: IndexType> EdgeIndex<Ix> {
    /// The position this identifier denotes.
    pub closed spec fn idx(self) -> usize {
        self.0.index_spec()
    }

    #[inline]
    pub fn new(x: usize) -> (r: Self)
        requires
            x <= Ix::max_spec(),
        ensures
            r.idx() == x,
    {
        EdgeIndex(Ix::new(x))
    }

    #[inline]
    pub fn index(self) -> (r: usize)
        ensures
            r == self.idx(),
    {
        self.0.index()
    }

    /// The sentinel identifier: the width's maximum, denoting "end"/unset.
    #[inline]
    pub fn end() -> (r: Self)
        ensures
            r.idx() == Ix::max_spec(),
    {
        EdgeIndex(Ix::max())
    }
}

} // verus!
