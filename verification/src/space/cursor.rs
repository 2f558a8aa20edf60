//! A writer over a fixed, caller-provided byte buffer.
use crate::space::allocator::{SpaceAllocator, SpaceWriterSplitAllocation, Whole};
use crate::space::error::AtomWriteError;
use crate::space::model::{splice, SpaceView};
use vstd::prelude::*;

verus! {

/// A lightweight writer that allocates consecutive byte ranges of a mutable byte buffer.
///
/// The cursor never grows the buffer: if its capacity is exceeded, an
/// [`AtomWriteError::OutOfSpace`] error is returned.
pub struct SpaceCursor<'a> {
    data: &'a mut [u8],
    allocated_length: usize,
}

impl<'a> SpaceCursor<'a> {
    /// Creates a new cursor at the start of the given buffer.
    pub fn new(data: &'a mut [u8]) -> (r: Self)
        ensures
            r.inv(),
            final(r.target()).whole() == final(data)@,
            r@ == (SpaceView { bytes: old(data)@, allocated: 0, headers: seq![], grow_unit: 0 }),
    {
        SpaceCursor { data, allocated_length: 0 }
    }

    /// Once the cursor is no longer used, its buffer is left holding the cursor's bytes.
    pub proof fn lemma_resolved(&self)
        requires
            self.inv(),
        ensures
            has_resolved(*self) ==> final(self.target()).whole() == self@.bytes,
            self@.headers.len() == 0,
            self@.grow_unit == 0,
    {
    }
}

impl<'a> Whole for SpaceCursor<'a> {
    type W = Self;

    open spec fn whole(&self) -> Self {
        *self
    }
}

impl<'a> SpaceAllocator for SpaceCursor<'a> {
    closed spec fn view(&self) -> SpaceView {
        SpaceView {
            bytes: self.data@,
            allocated: self.allocated_length as nat,
            headers: seq![],
            grow_unit: 0,
        }
    }

    closed spec fn inv(&self) -> bool {
        self.allocated_length <= self.data@.len()
    }

    proof fn lemma_whole(&self) {
    }

    proof fn lemma_inv(&self) {
    }

    type Target = [u8];

    closed spec fn target(&self) -> &mut [u8] {
        self.data
    }

    open spec fn can_allocate(&self, size: nat) -> bool {
        true
    }

    proof fn lemma_can_allocate(&self, size: nat) {
    }

    fn allocate_and_split(&mut self, size: usize) -> (r: Result<
        SpaceWriterSplitAllocation,
        AtomWriteError,
    >) {
        let allocated_length = self.allocated_length;
        let data_len = self.data.len();
        if size > data_len - allocated_length {
            return Err(
                AtomWriteError::OutOfSpace {
                    used: allocated_length,
                    capacity: data_len,
                    requested: size,
                },
            );
        }
        self.allocated_length = allocated_length + size;
        Ok(SpaceWriterSplitAllocation { previous: allocated_length, allocated: size })
    }

    fn rewind(&mut self, byte_count: usize) -> (r: Result<(), AtomWriteError>) {
        if self.allocated_length < byte_count {
            return Err(
                AtomWriteError::RewindBeyondAllocated {
                    requested: byte_count,
                    allocated: self.allocated_length,
                },
            );
        }
        self.allocated_length = self.allocated_length - byte_count;
        Ok(())
    }

    fn allocated_bytes(&self) -> (r: &[u8]) {
        vstd::slice::slice_subrange(&*self.data, 0, self.allocated_length)
    }

    fn remaining_bytes(&self) -> (r: &[u8]) {
        vstd::slice::slice_subrange(&*self.data, self.allocated_length, self.data.len())
    }

    fn write_at(&mut self, pos: usize, data: &[u8]) {
        let mut i: usize = 0;
        while i < data.len()
            invariant
                self.allocated_length == old(self).allocated_length,
                pos + data@.len() <= old(self).allocated_length <= old(self).data@.len(),
                0 <= i <= data@.len(),
                self.data@ == splice(old(self).data@, pos as int, data@.subrange(0, i as int)),
                final(self.target()).whole() == final(old(self).target()).whole(),
            decreases data@.len() - i,
        {
            self.data[pos + i] = data[i];
            i = i + 1;
            assert(self.data@ =~= splice(old(self).data@, pos as int, data@.subrange(0, i as int)));
        }
        assert(data@.subrange(0, data@.len() as int) =~= data@);
    }
}

} // verus!
