//! A chain of separately allocated byte buffers.
use crate::space::vec::zeroes;
use vstd::prelude::*;

verus! {

/// The bytes of all chunks, one after the other.
pub open spec fn concat(chunks: Seq<Seq<u8>>) -> Seq<u8>
    decreases chunks.len(),
{
    if chunks.len() == 0 {
        seq![]
    } else {
        concat(chunks.drop_last()) + chunks.last()
    }
}

/// A chain of zero-initialised byte buffers ("chunks").
///
/// The elements of the chain are numbered: element 0 is the list itself, and element `i + 1`
/// is the one created with chunk `i`. A new chunk can only be appended after the last
/// element.
pub struct SpaceList {
    chunks: Vec<Vec<u8>>,
}

impl SpaceList {
    /// The chunks, in the order they were allocated.
    pub closed spec fn chunks(&self) -> Seq<Seq<u8>> {
        self.chunks@.map_values(|c: Vec<u8>| c@)
    }

    /// Appends a zeroed chunk of `size` bytes after the given element, if that element is the
    /// last one, and returns the number of the new element.
    fn allocate_after(&mut self, element: usize, size: usize) -> (r: Option<usize>)
        requires
            element <= old(self).chunks().len(),
        ensures
            element < old(self).chunks().len() ==> r is None && final(self).chunks() == old(self).chunks(),
            element == old(self).chunks().len() ==> r == Some((element + 1) as usize)
                && final(self).chunks() == old(self).chunks().push(zeroes(size as nat)),
    {
        if element < self.chunks.len() {
            return None;
        }
        let new_data = vec![0u8; size];
        assert(new_data@ =~= zeroes(size as nat));
        self.chunks.push(new_data);
        assert(self.chunks() =~= old(self).chunks().push(zeroes(size as nat)));
        Some(self.chunks.len())
    }

    /// Appends a zeroed chunk of `size` bytes after the list itself, if it has no chunk yet,
    /// and returns the number of the new element.
    pub fn allocate(&mut self, size: usize) -> (r: Option<usize>)
        ensures
            old(self).chunks().len() > 0 ==> r is None && final(self).chunks() == old(self).chunks(),
            old(self).chunks().len() == 0 ==> r == Some(1usize) && final(self).chunks() == seq![
                zeroes(size as nat),
            ],
    {
        let r = self.allocate_after(0, size);
        assert(old(self).chunks().len() == 0 ==> old(self).chunks().push(zeroes(size as nat))
            =~= seq![zeroes(size as nat)]);
        r
    }

    /// The bytes of all chunks, one after the other.
    pub fn to_vec(&self) -> (r: Vec<u8>)
        ensures
            r@ == concat(self.chunks()),
    {
        let mut r: Vec<u8> = Vec::new();
        let mut i: usize = 0;
        while i < self.chunks.len()
            invariant
                0 <= i <= self.chunks@.len(),
                r@ == concat(self.chunks().subrange(0, i as int)),
            decreases self.chunks@.len() - i,
        {
            let mut chunk = self.chunks[i].clone();
            r.append(&mut chunk);
            proof {
                let s = self.chunks().subrange(0, i + 1);
                assert(s.drop_last() =~= self.chunks().subrange(0, i as int));
                assert(s.last() == self.chunks@[i as int]@);
            }
            i = i + 1;
        }
        assert(self.chunks().subrange(0, self.chunks@.len() as int) =~= self.chunks());
        r
    }

    /// The chunks, in the order they were allocated.
    pub fn iter(&self) -> (r: Vec<&[u8]>)
        ensures
            r@.len() == self.chunks().len(),
            forall|i: int| 0 <= i < r@.len() ==> #[trigger] r@[i]@ == self.chunks()[i],
    {
        let mut r: Vec<&[u8]> = Vec::new();
        let mut i: usize = 0;
        while i < self.chunks.len()
            invariant
                0 <= i <= self.chunks@.len(),
                r@.len() == i,
                forall|k: int| 0 <= k < i ==> #[trigger] r@[k]@ == self.chunks()[k],
            decreases self.chunks@.len() - i,
        {
            r.push(self.chunks[i].as_slice());
            i = i + 1;
        }
        r
    }
}

impl Default for SpaceList {
    fn default() -> (r: Self)
        ensures
            r.chunks() == Seq::<Seq<u8>>::empty(),
    {
        let r = SpaceList { chunks: Vec::new() };
        assert(r.chunks() =~= Seq::<Seq<u8>>::empty());
        r
    }
}

/// A writer that allocates each piece of data as a new chunk at the end of a [`SpaceList`].
pub struct SpaceHead<'a> {
    list: &'a mut SpaceList,
    element: Option<usize>,
    allocated_space: usize,
}

impl<'a> SpaceHead<'a> {
    /// The chunks of the list.
    pub closed spec fn chunks(&self) -> Seq<Seq<u8>> {
        self.list.chunks()
    }

    /// The element after which the next chunk is appended, or `None` once an allocation
    /// failed.
    pub closed spec fn element(&self) -> Option<usize> {
        self.element
    }

    /// The number of bytes allocated so far.
    pub closed spec fn allocated(&self) -> nat {
        self.allocated_space as nat
    }

    pub open spec fn wf(&self) -> bool {
        self.element() matches Some(e) ==> e <= self.chunks().len()
    }

    /// Creates a writer that appends chunks after the given list.
    pub fn new(element: &'a mut SpaceList) -> (r: Self)
        ensures
            r.wf(),
            r.chunks() == old(element).chunks(),
            r.element() == Some(0usize),
            r.allocated() == 0,
    {
        SpaceHead { list: element, element: Some(0), allocated_space: 0 }
    }

    /// Allocates a zeroed chunk of `size` bytes after the current element and returns its
    /// index.
    ///
    /// Returns `None` if the writer failed before or the current element already has a
    /// successor; the writer fails for good then.
    pub fn allocate_unaligned(&mut self, size: usize) -> (r: Option<usize>)
        requires
            old(self).wf(),
            old(self).allocated() + size <= usize::MAX,
        ensures
            final(self).wf(),
            match old(self).element() {
                Some(e) if e == old(self).chunks().len() => {
                    &&& r == Some(e)
                    &&& final(self).element() == Some((e + 1) as usize)
                    &&& final(self).chunks() == old(self).chunks().push(zeroes(size as nat))
                    &&& final(self).allocated() == old(self).allocated() + size
                },
                _ => {
                    &&& r is None
                    &&& final(self).element() is None
                    &&& final(self).chunks() == old(self).chunks()
                    &&& final(self).allocated() == old(self).allocated()
                },
            },
    {
        let element = match self.element {
            Some(e) => e,
            None => {
                return None;
            },
        };
        self.element = None;
        let new_element = self.list.allocate_after(element, size)?;
        self.element = Some(new_element);
        self.allocated_space = self.allocated_space + size;
        Some(element)
    }

    /// The bytes of the head itself: none.
    pub fn as_bytes(&self) -> (r: &[u8])
        ensures
            r@.len() == 0,
    {
        &[]
    }
}

} // verus!
