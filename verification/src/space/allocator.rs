//! The interface of everything that atoms can be written into.
use crate::space::error::AtomWriteError;
use crate::space::model::{add_to_sizes, after_alloc, splice, SpaceView};
use vstd::prelude::*;

verus! {

/// The result of an allocation: how many bytes were allocated before it, and how many bytes it
/// added. The new bytes start right where the previously allocated ones end.
#[derive(Debug, Clone, Copy, PartialEq, Eq)]
pub struct SpaceWriterSplitAllocation {
    pub previous: usize,
    pub allocated: usize,
}

/// The error reported when an allocation of `size` bytes does not fit.
pub open spec fn out_of_space(v: SpaceView, size: nat) -> AtomWriteError {
    AtomWriteError::OutOfSpace {
        used: v.allocated as usize,
        capacity: v.bytes.len() as usize,
        requested: size as usize,
    }
}

/// What a borrowed value amounts to for the writers that borrow it: the whole value of a
/// writer, the bytes of a byte buffer.
pub trait Whole {
    type W;

    spec fn whole(&self) -> Self::W;
}

impl Whole for [u8] {
    type W = Seq<u8>;

    open spec fn whole(&self) -> Seq<u8> {
        self@
    }
}

/// A contiguous buffer that hands out ("allocates") consecutive byte ranges to write atoms into.
///
/// Every allocation also grows the body size recorded in the header of each atom that is still
/// being written (see [`SpaceView::headers`]).
pub trait SpaceAllocator: Sized + Whole<W = Self> {
    /// The buffer, the number of allocated bytes and the open atom headers.
    spec fn view(&self) -> SpaceView;

    /// Invariant of the implementing type; it implies that the view is well formed.
    spec fn inv(&self) -> bool;

    proof fn lemma_inv(&self)
        requires
            self.inv(),
        ensures
            self@.wf(),
    ;

    /// An allocator is all there is to it.
    proof fn lemma_whole(&self)
        ensures
            self.whole() == *self,
    ;

    /// The type of what the allocator borrows and writes through.
    type Target: ?Sized + Whole;

    /// The borrow the allocator writes through. Every operation keeps what it will finally
    /// hold.
    spec fn target(&self) -> &mut Self::Target;

    /// Whether an allocation of `size` bytes can be requested: it then returns either the
    /// bytes or an error.
    spec fn can_allocate(&self, size: nat) -> bool;

    /// Any allocation that keeps the number of allocated bytes within `usize` can be requested.
    proof fn lemma_can_allocate(&self, size: nat)
        requires
            self.inv(),
            self@.allocated + size <= usize::MAX,
        ensures
            self.can_allocate(size),
    ;

    /// Allocates `size` new bytes right after the previously allocated ones.
    ///
    /// On success, the body size of every open atom grows by `size`.
    fn allocate_and_split(&mut self, size: usize) -> (r: Result<
        SpaceWriterSplitAllocation,
        AtomWriteError,
    >)
        requires
            old(self).inv(),
            old(self).can_allocate(size as nat),
        ensures
            final(self).inv(),
            final(final(self).target()).whole() == final(old(self).target()).whole(),
            match after_alloc(old(self)@, size as nat) {
                Some(v) => {
                    &&& r == Ok::<SpaceWriterSplitAllocation, AtomWriteError>(
                        SpaceWriterSplitAllocation {
                            previous: old(self)@.allocated as usize,
                            allocated: size,
                        },
                    )
                    &&& final(self)@ == v
                },
                None => {
                    &&& r == Err::<SpaceWriterSplitAllocation, AtomWriteError>(
                        out_of_space(old(self)@, size as nat),
                    )
                    &&& final(self)@ == old(self)@
                },
            },
    ;

    /// Gives back the last `byte_count` allocated bytes, so they can be allocated again.
    ///
    /// On success, the body size of every open atom shrinks by `byte_count`.
    fn rewind(&mut self, byte_count: usize) -> (r: Result<(), AtomWriteError>)
        requires
            old(self).inv(),
            old(self)@.bodies_at_least(byte_count as nat),
            old(self)@.headers.len() > 0 ==> old(self)@.body_start() + byte_count
                <= old(self)@.allocated,
        ensures
            final(self).inv(),
            final(final(self).target()).whole() == final(old(self).target()).whole(),
            if byte_count <= old(self)@.allocated {
                &&& r == Ok::<(), AtomWriteError>(())
                &&& final(self)@ == (SpaceView {
                    bytes: add_to_sizes(old(self)@.bytes, old(self)@.headers, -byte_count),
                    allocated: (old(self)@.allocated - byte_count) as nat,
                    headers: old(self)@.headers,
                    grow_unit: old(self)@.grow_unit,
                })
            } else {
                &&& r == Err::<(), AtomWriteError>(
                    AtomWriteError::RewindBeyondAllocated {
                        allocated: old(self)@.allocated as usize,
                        requested: byte_count,
                    },
                )
                &&& final(self)@ == old(self)@
            },
    ;

    /// The previously allocated bytes.
    fn allocated_bytes(&self) -> (r: &[u8])
        requires
            self.inv(),
        ensures
            r@ == self@.bytes.subrange(0, self@.allocated as int),
    ;

    /// The bytes that can still be allocated without growing the buffer.
    fn remaining_bytes(&self) -> (r: &[u8])
        requires
            self.inv(),
        ensures
            r@ == self@.bytes.subrange(self@.allocated as int, self@.bytes.len() as int),
    ;

    /// Overwrites allocated bytes that belong to the innermost open atom (or to no atom).
    fn write_at(&mut self, pos: usize, data: &[u8])
        requires
            old(self).inv(),
            old(self)@.body_start() <= pos,
            pos + data@.len() <= old(self)@.allocated,
        ensures
            final(self).inv(),
            final(final(self).target()).whole() == final(old(self).target()).whole(),
            final(self)@ == (SpaceView {
                bytes: splice(old(self)@.bytes, pos as int, data@),
                ..old(self)@
            }),
    ;
}

} // verus!
