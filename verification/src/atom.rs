//! Iteration over a series of atoms, each optionally preceded by a fixed-size pre-header.
use crate::encoding::{Layout, Pod};
use crate::header::AtomHeader;
use core::marker::PhantomData;
use vstd::prelude::*;

verus! {

/// A fixed-size record that precedes every atom of a series.
pub trait PreHeader {
    spec fn spec_size() -> nat;

    /// The size of the pre-header in bytes.
    fn size() -> (r: usize)
        ensures
            r == Self::spec_size(),
    ;
}

/// No pre-header.
impl PreHeader for () {
    open spec fn spec_size() -> nat {
        0
    }

    fn size() -> usize {
        0
    }
}

/// The outcome of one step of an [`AtomIter`] over `data` at position `pos` with pre-headers
/// of `hs` bytes: the position afterwards, and, if an item was read, the position of its
/// pre-header and its atom header.
///
/// Each read first checks that more than `hs` bytes remain after the position, then reads at
/// the position and advances by `hs`; the atom's body is skipped if more bytes than its size
/// remain.
pub open spec fn atom_iter_step(data: Seq<u8>, pos: nat, hs: nat) -> (nat, Option<(nat, AtomHeader)>) {
    if !(pos + hs < data.len() && hs <= data.len() - pos) {
        (pos, None)
    } else {
        let p1 = pos + hs;
        if !(p1 + hs < data.len() && 8 <= data.len() - p1) {
            (p1, None)
        } else {
            let header = AtomHeader::spec_decode(data.subrange(p1 as int, (p1 + 8) as int));
            let p2 = p1 + hs;
            if p2 + header.size < data.len() {
                ((p2 + header.size) as nat, Some((pos, header)))
            } else {
                (p2, None)
            }
        }
    }
}

/// An iterator over atoms stored one after the other, each preceded by a pre-header of type
/// `H`.
pub struct AtomIter<'a, H> {
    data: &'a [u8],
    position: usize,
    pre_header: PhantomData<H>,
}

impl<'a, H: PreHeader> AtomIter<'a, H> {
    /// The bytes iterated over.
    pub closed spec fn data(&self) -> Seq<u8> {
        self.data@
    }

    /// The position of the next read.
    pub closed spec fn position(&self) -> nat {
        self.position as nat
    }

    pub open spec fn wf(&self) -> bool {
        &&& self.position() <= self.data().len()
        &&& self.data().len() <= usize::MAX
    }

    /// Creates an iterator from the start of the given bytes.
    pub fn new(data: &'a [u8]) -> (r: Self)
        ensures
            r.wf(),
            r.data() == data@,
            r.position() == 0,
    {
        let _ = data.len();
        AtomIter { data, position: 0, pre_header: PhantomData }
    }

    /// Whether more than `size` bytes remain after the position.
    fn has_space(&self, size: usize) -> (r: bool)
        requires
            self.wf(),
        ensures
            r == (self.position() + size < self.data().len()),
    {
        size < self.data.len() - self.position
    }

    /// Returns the `size` bytes at the position, and advances by the pre-header size, if more
    /// than a pre-header's size remains and the bytes fit.
    fn retrieve(&mut self, size: usize) -> (r: Option<&'a [u8]>)
        requires
            old(self).wf(),
        ensures
            final(self).wf(),
            final(self).data() == old(self).data(),
            ({
                let pos = old(self).position();
                let len = old(self).data().len();
                if pos + H::spec_size() < len && size <= len - pos {
                    &&& r matches Some(b) && b@ == old(self).data().subrange(pos as int, pos + size)
                    &&& final(self).position() == pos + H::spec_size()
                } else {
                    r is None && final(self).position() == pos
                }
            }),
    {
        if self.has_space(H::size()) && size <= self.data.len() - self.position {
            let bytes = vstd::slice::slice_subrange(self.data, self.position, self.position + size);
            self.position = self.position + H::size();
            Some(bytes)
        } else {
            None
        }
    }

    /// Returns the next pre-header (its bytes) and atom header, skipping the atom's body.
    pub fn next(&mut self) -> (r: Option<(&'a [u8], AtomHeader)>)
        requires
            old(self).wf(),
        ensures
            final(self).wf(),
            final(self).data() == old(self).data(),
            ({
                let (pos, item) = atom_iter_step(
                    old(self).data(),
                    old(self).position(),
                    H::spec_size(),
                );
                &&& final(self).position() == pos
                &&& match item {
                    Some((p, header)) => (r matches Some((pre, h)) && h == header && pre@
                        == old(self).data().subrange(p as int, (p + H::spec_size()) as int)),
                    None => r is None,
                }
            }),
    {
        let pre_header = self.retrieve(H::size())?;
        let atom = self.retrieve(8)?;
        let header = AtomHeader::decode(atom);
        let size = header.size_of_body();
        if self.has_space(size) {
            self.position = self.position + size;
            Some((pre_header, header))
        } else {
            None
        }
    }
}

} // verus!
