//! Atoms whose type is not known yet.
use crate::encoding::{Layout, Pod};
use crate::header::AtomHeader;
use crate::space::aligned::AtomSpace;
use crate::space::error::{AtomReadError, UriKind};
use crate::space::reader::spec_atom_read;
use vstd::prelude::*;

verus! {

/// An atom of yet unknown type: its header and its body.
#[derive(Clone, Copy)]
pub struct UnidentifiedAtom<'a> {
    data: &'a [u8],
    addr: usize,
}

impl<'a> UnidentifiedAtom<'a> {
    /// The bytes of the whole atom, header and body.
    pub closed spec fn bytes(&self) -> Seq<u8> {
        self.data@
    }

    /// The position of the atom's header.
    pub closed spec fn addr(&self) -> nat {
        self.addr as nat
    }

    /// The atom's header.
    pub open spec fn spec_header(&self) -> AtomHeader {
        AtomHeader::spec_decode(self.bytes().subrange(0, 8))
    }

    /// The bytes of the atom's body.
    pub open spec fn spec_body(&self) -> Seq<u8> {
        self.bytes().subrange(8, self.bytes().len() as int)
    }

    pub open spec fn wf(&self) -> bool {
        &&& self.addr() % 8 == 0
        &&& self.addr() + self.bytes().len() <= usize::MAX
        &&& 8 <= self.bytes().len()
        &&& self.bytes().len() == 8 + self.spec_header().size
    }

    /// Creates an atom from its bytes, which start with a header whose body size matches.
    pub(crate) fn from_parts(data: &'a [u8], addr: usize) -> (r: Self)
        requires
            addr % 8 == 0,
            addr + data@.len() <= usize::MAX,
            8 <= data@.len(),
            data@.len() == 8 + AtomHeader::spec_decode(data@.subrange(0, 8)).size,
        ensures
            r.wf(),
            r.bytes() == data@,
            r.addr() == addr,
    {
        UnidentifiedAtom { data, addr }
    }

    /// Reads the atom at the start of an atom space.
    ///
    /// # Errors
    ///
    /// Returns [`AtomReadError::ReadingOutOfBounds`] if the space is too short for the header
    /// or for the body the header announces.
    pub fn from_space(space: &AtomSpace<'a>) -> (r: Result<Self, AtomReadError>)
        requires
            space.wf(),
        ensures
            match spec_atom_read(space.bytes(), space.addr()) {
                Ok((pad, len)) => (r matches Ok(a) && a.wf() && a.bytes() == space.bytes().subrange(
                    0,
                    len as int,
                ) && a.addr() == space.addr()),
                Err(e) => r == Err::<Self, AtomReadError>(e),
            },
    {
        proof {
            crate::util::lemma_padding_at_atom_boundary(space.addr(), 8);
        }
        let mut reader = space.read();
        reader.next_atom()
    }

    /// The bytes of the atom's body.
    fn body_bytes(&self) -> (r: &'a [u8])
        requires
            self.wf(),
        ensures
            r@ == self.spec_body(),
    {
        vstd::slice::slice_subrange(self.data, 8, self.data.len())
    }

    /// The atom's header.
    pub fn header(&self) -> (r: AtomHeader)
        requires
            self.wf(),
        ensures
            r == self.spec_header(),
    {
        AtomHeader::decode(vstd::slice::slice_subrange(self.data, 0, 8))
    }

    /// The space occupied by the whole atom, header and body.
    pub fn atom_space(&self) -> (r: AtomSpace<'a>)
        requires
            self.wf(),
        ensures
            r.wf(),
            r.bytes() == self.bytes(),
            r.addr() == self.addr(),
    {
        AtomSpace::from_bytes_unchecked(self.data, self.addr)
    }

    /// The space occupied by the atom's body.
    pub fn body(&self) -> (r: AtomSpace<'a>)
        requires
            self.wf(),
        ensures
            r.wf(),
            r.bytes() == self.spec_body(),
            r.addr() == self.addr() + 8,
    {
        AtomSpace::from_bytes_unchecked(self.body_bytes(), self.addr + 8)
    }

    /// Checks that the atom has the type with URID `urid` and returns its body.
    ///
    /// # Errors
    ///
    /// Returns [`AtomReadError::InvalidAtomUrid`] if the atom has another type.
    pub fn read(&self, kind: UriKind, urid: u32) -> (r: Result<AtomSpace<'a>, AtomReadError>)
        requires
            self.wf(),
            self.spec_header().type_ != 0,
        ensures
            self.spec_header().type_ == urid ==> (r matches Ok(b) && b.wf() && b.bytes()
                == self.spec_body() && b.addr() == self.addr() + 8),
            self.spec_header().type_ != urid ==> r == Err::<AtomSpace<'a>, AtomReadError>(
                AtomReadError::InvalidAtomUrid {
                    expected: kind,
                    expected_urid: urid,
                    found_urid: self.spec_header().type_,
                },
            ),
    {
        self.header().check_urid(kind, urid)?;
        Ok(self.body())
    }
}

} // verus!
