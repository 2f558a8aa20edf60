//! An atom containing a series of other atoms.
use crate::encoding::{Layout, Pod};
use crate::header::AtomHeader;
use crate::space::aligned::AtomSpace;
use crate::space::allocator::{SpaceAllocator, Whole};
use crate::space::atom_writer::AtomWriter;
use crate::space::error::{AtomReadError, AtomWriteError};
use crate::space::model::SpaceView;
use crate::space::reader::{spec_atom_read, SpaceReader};
use crate::space::writer::{after_aligned_write, aligned_out_of_space, SpaceWriter};
use crate::unidentified::UnidentifiedAtom;
use crate::util::padding_for;
use vstd::prelude::*;

verus! {

/// An atom whose body is a series of atoms of any types.
pub struct Tuple;

impl Tuple {
    /// Returns an iterator over the atoms of a tuple.
    pub fn read<'a>(body: &AtomSpace<'a>) -> (r: Result<TupleIterator<'a>, AtomReadError>)
        requires
            body.wf(),
        ensures
            r matches Ok(it) && it.wf() && it.bytes() == body.bytes() && it.addr() == body.addr(),
    {
        Ok(TupleIterator { reader: body.read() })
    }

    /// Returns the handle that writes the atoms of a new tuple.
    pub fn write<'a, A: SpaceAllocator>(frame: AtomWriter<'a, A>) -> (r: Result<
        TupleWriter<'a, A>,
        AtomWriteError,
    >)
        requires
            frame.inv(),
        ensures
            r matches Ok(w) && w.inv() && w@ == frame@ && w.frame() == frame,
    {
        Ok(TupleWriter { frame })
    }
}

/// An iterator over the atoms of a tuple.
pub struct TupleIterator<'a> {
    reader: SpaceReader<'a>,
}

impl<'a> TupleIterator<'a> {
    /// The bytes that are still to be read.
    pub closed spec fn bytes(&self) -> Seq<u8> {
        self.reader.bytes()
    }

    /// The position of the next byte to be read.
    pub closed spec fn addr(&self) -> nat {
        self.reader.addr()
    }

    pub open spec fn wf(&self) -> bool {
        self.addr() + self.bytes().len() <= usize::MAX
    }

    /// Returns the next atom, or `None` if the remaining bytes do not hold a whole atom.
    pub fn next(&mut self) -> (r: Option<UnidentifiedAtom<'a>>)
        requires
            old(self).wf(),
        ensures
            final(self).wf(),
            match spec_atom_read(old(self).bytes(), old(self).addr()) {
                Ok((pad, len)) => (r matches Some(a) && a.wf()
                    && a.bytes() == old(self).bytes().subrange(pad as int, (pad + len) as int)
                    && a.addr() == old(self).addr() + pad
                    && final(self).bytes() == old(self).bytes().subrange(
                        (pad + len) as int,
                        old(self).bytes().len() as int,
                    )
                    && final(self).addr() == old(self).addr() + pad + len),
                Err(_) => r is None && final(self).bytes() == old(self).bytes()
                    && final(self).addr() == old(self).addr(),
            },
    {
        match self.reader.next_atom() {
            Ok(atom) => Some(atom),
            Err(_) => None,
        }
    }
}

/// The handle that writes the atoms of a tuple.
pub struct TupleWriter<'a, A: SpaceAllocator> {
    frame: AtomWriter<'a, A>,
}

impl<'a, A: SpaceAllocator> TupleWriter<'a, A> {
    /// The state of the tuple's writer.
    pub closed spec fn view(&self) -> SpaceView {
        self.frame@
    }

    /// The writer of the atom.
    pub closed spec fn frame(&self) -> AtomWriter<'a, A> {
        self.frame
    }

    /// The state and invariant are those of the atom's writer, and once this writer is no
    /// longer used, neither is the atom's writer.
    pub proof fn lemma_resolved(&self)
        requires
            self.inv(),
        ensures
            self.frame().inv(),
            self.frame()@ == self@,
            has_resolved(*self) ==> has_resolved(self.frame()),
    {
    }

    pub closed spec fn inv(&self) -> bool {
        self.frame.inv()
    }

    /// Writes the header of a new atom of the given type into the tuple, and returns the
    /// writer of its body.
    ///
    /// # Errors
    ///
    /// Returns [`AtomWriteError::OutOfSpace`] if the buffer has no room for the header.
    pub fn init<'b>(&'b mut self, child_urid: u32) -> (r: Result<
        AtomWriter<'b, AtomWriter<'a, A>>,
        AtomWriteError,
    >)
        requires
            old(self).inv(),
            old(self)@.allocated + 16 <= usize::MAX,
        ensures
            match after_aligned_write(
                old(self)@,
                8,
                8,
                (AtomHeader { size: 0, type_: child_urid }).spec_encode(),
            ) {
                Some(v) => (r matches Ok(w) && w.inv() && w.header_index() == old(self)@.allocated
                    + padding_for(old(self)@.allocated, 8) && w@ == (SpaceView {
                    headers: v.headers.push(w.header_index()),
                    ..v
                }) && final(w.target()).whole() == final(self).frame()),
                None => (r matches Err(e) && e == aligned_out_of_space(old(self)@, 8, 8))
                    && final(self)@ == old(self)@ && final(self).inv()
                    && final(final(self).frame().target()).whole() == final(old(self).frame().target()).whole(),
            },
    {
        self.frame.write_atom(child_urid)
    }
}

} // verus!
