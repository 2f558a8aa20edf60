//! An atom holding bytes of unspecified meaning.
use crate::space::aligned::AtomSpace;
use crate::space::allocator::SpaceAllocator;
use crate::space::atom_writer::AtomWriter;
use crate::space::error::{AtomReadError, AtomWriteError};
use vstd::prelude::*;

verus! {

/// An atom whose body is a chunk of bytes.
///
/// Hosts use it, for example, to announce the size of a writable atom port.
pub struct Chunk;

impl Chunk {
    /// The bytes of a chunk: its whole body.
    pub fn read<'a>(body: &AtomSpace<'a>) -> (r: Result<AtomSpace<'a>, AtomReadError>)
        requires
            body.wf(),
        ensures
            r matches Ok(s) && s.wf() && s.bytes() == body.bytes() && s.addr() == body.addr(),
    {
        Ok(AtomSpace::from_bytes_unchecked(body.as_bytes(), body.address()))
    }

    /// The writer of a chunk is the atom's writer itself: everything allocated through it
    /// belongs to the chunk.
    pub fn write<'a, A: SpaceAllocator>(frame: AtomWriter<'a, A>) -> (r: Result<
        AtomWriter<'a, A>,
        AtomWriteError,
    >)
        requires
            frame.inv(),
        ensures
            r matches Ok(w) && w == frame,
    {
        Ok(frame)
    }
}

} // verus!
