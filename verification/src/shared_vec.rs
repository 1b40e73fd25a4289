//! The bookkeeping of a vector that is to be backed by a named shared-memory
//! region: it keeps its elements, the size that region must have (whole
//! pages), and whether it was
//! written to since it was made.
use vstd::prelude::*;

verus! {

/// Size of a memory page in bytes (huge pages are not used).
pub const PAGE_SIZE: usize = 4096;

/// The smallest multiple of the page size that is at least `sz`.
pub open spec fn spec_round_to_pages(sz: int) -> int {
    ((sz + PAGE_SIZE - 1) / (PAGE_SIZE as int)) * (PAGE_SIZE as int)
}

/// Rounds a buffer size up to whole pages.
pub fn round_to_pages(buffer_size: usize) -> (res: usize)
    requires
        buffer_size + (PAGE_SIZE - 1) <= usize::MAX,
    ensures
        res == spec_round_to_pages(buffer_size as int),
        res % PAGE_SIZE == 0,
        buffer_size <= res < buffer_size + PAGE_SIZE,
{
    let res: usize = (buffer_size + (PAGE_SIZE - 1)) & !(PAGE_SIZE - 1);
    let x: usize = buffer_size + (PAGE_SIZE - 1);
    assert(x & !(4095usize) == x - x % 4096 && (x - x % 4096) % 4096 == 0) by (bit_vector);
    assert((x / 4096) * 4096 == x - x % 4096) by (nonlinear_arith);
    res
}

/// A vector together with the size of the shared-memory region (whole pages)
/// that is to back it. Mapping the region is left to the caller.
pub struct SharedVec<T> {
    vec: Vec<T>,
    shared_size: usize,
    modified: bool,
}

impl<T> SharedVec<T> {
    /// The elements.
    pub closed spec fn spec_elements(&self) -> Seq<T> {
        self.vec@
    }

    /// The size the shared region must have, in bytes.
    pub closed spec fn spec_shared_size(&self) -> usize {
        self.shared_size
    }

    /// Whether an element was handed out for writing.
    pub closed spec fn spec_modified(&self) -> bool {
        self.modified
    }

    /// An empty vector with room for `capacity` elements, whose shared region
    /// is to be `capacity` bytes rounded up to whole pages.
    pub fn new_with_capacity(capacity: usize) -> (v: SharedVec<T>)
        requires
            capacity + (PAGE_SIZE - 1) <= usize::MAX,
            capacity * vstd::layout::size_of::<T>() <= isize::MAX,
        ensures
            v.spec_elements() == Seq::<T>::empty(),
            v.spec_shared_size() == spec_round_to_pages(capacity as int),
            !v.spec_modified(),
    {
        let capacity_pages: usize = round_to_pages(capacity);
        SharedVec { vec: Vec::with_capacity(capacity), shared_size: capacity_pages, modified: false }
    }

    /// The size the shared region must have, in bytes.
    pub fn shared_size(&self) -> (n: usize)
        ensures
            n == self.spec_shared_size(),
    {
        self.shared_size
    }

    /// Whether an element was handed out for writing.
    pub fn is_modified(&self) -> (b: bool)
        ensures
            b == self.spec_modified(),
    {
        self.modified
    }

    /// The number of elements.
    pub fn len(&self) -> (n: usize)
        ensures
            n == self.spec_elements().len(),
    {
        self.vec.len()
    }

    /// Appends an element.
    pub fn push(&mut self, value: T)
        ensures
            final(self).spec_elements() == old(self).spec_elements().push(value),
            final(self).spec_shared_size() == old(self).spec_shared_size(),
            final(self).spec_modified() == old(self).spec_modified(),
    {
        self.vec.push(value);
    }

    /// All elements, as a slice.
    pub fn borrow(&self) -> (s: &[T])
        ensures
            s@ == self.spec_elements(),
    {
        self.vec.as_slice()
    }

    /// The element at `index`.
    pub fn index(&self, index: usize) -> (r: &T)
        requires
            index < self.spec_elements().len(),
        ensures
            *r == self.spec_elements()[index as int],
    {
        &self.vec[index]
    }

    /// The element at `index`, for writing; the vector counts as modified.
    pub fn index_mut(&mut self, index: usize) -> (r: &mut T)
        requires
            index < old(self).spec_elements().len(),
        ensures
            *r == old(self).spec_elements()[index as int],
            final(self).spec_elements() == old(self).spec_elements().update(index as int, *final(r)),
            final(self).spec_shared_size() == old(self).spec_shared_size(),
            final(self).spec_modified(),
    {
        self.modified = true;
        &mut self.vec[index]
    }

    /// The elements from `start` up to (not including) `end`.
    pub fn index_range(&self, start: usize, end: usize) -> (s: &[T])
        requires
            start <= end <= self.spec_elements().len(),
        ensures
            s@ == self.spec_elements().subrange(start as int, end as int),
    {
        &self.vec.as_slice()[start..end]
    }

    /// The elements before `end`.
    pub fn index_to(&self, end: usize) -> (s: &[T])
        requires
            end <= self.spec_elements().len(),
        ensures
            s@ == self.spec_elements().subrange(0, end as int),
    {
        &self.vec.as_slice()[0..end]
    }

    /// The elements from `start` on.
    pub fn index_from(&self, start: usize) -> (s: &[T])
        requires
            start <= self.spec_elements().len(),
        ensures
            s@ == self.spec_elements().subrange(start as int, self.spec_elements().len() as int),
    {
        let n: usize = self.vec.len();
        &self.vec.as_slice()[start..n]
    }
}

} // verus!
