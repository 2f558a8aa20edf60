//! Atom ports: the buffers through which a plugin reads and writes atoms.
use crate::encoding::{Layout, Pod};
use crate::header::AtomHeader;
use crate::space::aligned::AtomSpace;
use crate::space::allocator::{SpaceAllocator, Whole};
use crate::space::atom_writer::AtomWriter;
use crate::space::cursor::SpaceCursor;
use crate::space::model::SpaceView;
use crate::space::reader::{spec_atom_read, SpaceReader};
use crate::space::writer::{after_aligned_write, SpaceWriter};
use crate::space::error::UriKind;
use crate::unidentified::UnidentifiedAtom;
use vstd::prelude::*;

verus! {

/// The reading side of an atom port: the atom the host put into the port's buffer.
pub struct PortReader<'a> {
    atom: Option<UnidentifiedAtom<'a>>,
}

impl<'a> PortReader<'a> {
    /// The atom of the port, or `None` if the buffer does not start with a whole atom.
    pub closed spec fn atom(&self) -> Option<UnidentifiedAtom<'a>> {
        self.atom
    }

    /// Creates the reader of a port whose buffer starts at an aligned position.
    pub fn new(space: &'a [u8]) -> (r: Self)
        requires
            space@.len() <= usize::MAX,
        ensures
            match spec_atom_read(space@, 0) {
                Ok((pad, len)) => (r.atom() matches Some(a) && a.wf() && a.addr() == 0 && a.bytes()
                    == space@.subrange(0, len as int)),
                Err(_) => r.atom() is None,
            },
    {
        let mut reader = SpaceReader::new(space, 0);
        PortReader { atom: reader.next_atom().ok() }
    }

    /// The body of the port's atom, if the atom has the type with URID `urid`.
    pub fn read(&self, kind: UriKind, urid: u32) -> (r: Option<AtomSpace<'a>>)
        requires
            self.atom() matches Some(a) ==> a.wf() && a.spec_header().type_ != 0,
        ensures
            match self.atom() {
                Some(a) => if a.spec_header().type_ == urid {
                    r matches Some(b) && b.wf() && b.bytes() == a.spec_body() && b.addr() == a.addr() + 8
                } else {
                    r is None
                },
                None => r is None,
            },
    {
        match &self.atom {
            Some(atom) => atom.read(kind, urid).ok(),
            None => None,
        }
    }
}

/// The writing side of an atom port: a buffer into which one atom can be written.
pub struct PortWriter<'a> {
    space: SpaceCursor<'a>,
    has_been_written: bool,
}

impl<'a> PortWriter<'a> {
    /// The state of the port's buffer.
    pub closed spec fn view(&self) -> SpaceView {
        self.space@
    }

    /// Whether an atom was written already.
    pub closed spec fn has_been_written(&self) -> bool {
        self.has_been_written
    }

    pub closed spec fn inv(&self) -> bool {
        self.space.inv()
    }

    /// The cursor over the port's buffer.
    pub closed spec fn cursor(&self) -> SpaceCursor<'a> {
        self.space
    }

    /// The state and invariant are those of the cursor, and once this writer is no longer
    /// used, neither is the cursor.
    pub proof fn lemma_resolved(&self)
        requires
            self.inv(),
        ensures
            self.cursor().inv(),
            self.cursor()@ == self@,
            has_resolved(*self) ==> has_resolved(self.cursor()),
    {
    }

    /// Creates the writer of a port whose buffer starts at an aligned position.
    pub fn new(space: &'a mut [u8]) -> (r: Self)
        ensures
            r.inv(),
            r@ == (SpaceView { bytes: old(space)@, allocated: 0, headers: seq![], grow_unit: 0 }),
            !r.has_been_written(),
            final(r.cursor().target()).whole() == final(space)@,
    {
        PortWriter { space: SpaceCursor::new(space), has_been_written: false }
    }

    /// Writes the header of the port's atom, of the given type, and returns the writer of its
    /// body. Only one atom can be written: later calls return `None`.
    pub fn init<'b>(&'b mut self, urid: u32) -> (r: Option<AtomWriter<'b, SpaceCursor<'a>>>)
        requires
            old(self).inv(),
            old(self)@.allocated + 16 <= usize::MAX,
        ensures
            final(self).has_been_written(),
            old(self).has_been_written() ==> r is None && final(self)@ == old(self)@ && final(self).inv()
                && final(final(self).cursor().target()).whole() == final(old(self).cursor().target()).whole(),
            !old(self).has_been_written() ==> match after_aligned_write(
                old(self)@,
                8,
                8,
                (AtomHeader { size: 0, type_: urid }).spec_encode(),
            ) {
                Some(v) => (r matches Some(w) && w.inv() && w@ == (SpaceView {
                    headers: v.headers.push(w.header_index()),
                    ..v
                }) && final(w.target()).whole() == final(self).cursor()),
                None => r is None && final(self)@ == old(self)@ && final(self).inv() && final(final(self).cursor().target()).whole()
                    == final(old(self).cursor().target()).whole(),
            },
    {
        if !self.has_been_written {
            self.has_been_written = true;
            self.space.write_atom(urid).ok()
        } else {
            None
        }
    }
}

} // verus!
