//! The header that starts every atom.
use crate::encoding::{Layout, decode_u32, encode_u32, lemma_u32_roundtrip, u32_bytes, Pod};
use crate::space::error::{AtomReadError, UriKind};
use vstd::bytes::u32_from_le_bytes;
use vstd::prelude::*;

verus! {

/// The header of an atom: the size of the atom's body in bytes, and the URID of its type.
///
/// A header occupies 8 bytes and is aligned to 8 bytes.
#[derive(Debug, Clone, Copy, PartialEq, Eq)]
pub struct AtomHeader {
    pub size: u32,
    pub type_: u32,
}

impl AtomHeader {
    /// A header of an empty atom of the given type.
    pub fn new(atom_type: u32) -> (r: Self)
        ensures
            r.size == 0,
            r.type_ == atom_type,
    {
        AtomHeader { size: 0, type_: atom_type }
    }

    /// Sets the size of the atom's body, keeping the low 32 bits of `size`.
    pub fn set_size_of_body(&mut self, size: usize)
        ensures
            final(self).size == size as u32,
            final(self).type_ == old(self).type_,
    {
        self.size = size as u32;
    }

    /// The size of the atom's body, in bytes.
    pub fn size_of_body(self) -> (r: usize)
        ensures
            r == self.size,
    {
        self.size as usize
    }

    /// The size of the whole atom (header and body), in bytes.
    pub fn size_of_atom(self) -> (r: usize)
        requires
            self.size + 8 <= usize::MAX,
        ensures
            r == self.size + 8,
    {
        self.size as usize + 8
    }

    /// The URID of the atom's type.
    pub fn urid(self) -> (r: u32)
        requires
            self.type_ != 0,
        ensures
            r == self.type_,
    {
        self.type_
    }

    /// Checks that the atom has the given type.
    pub fn check_urid(self, kind: UriKind, other: u32) -> (r: Result<(), AtomReadError>)
        requires
            self.type_ != 0,
        ensures
            r is Ok <==> self.type_ == other,
            r is Err ==> r == Err::<(), AtomReadError>(
                AtomReadError::InvalidAtomUrid {
                    expected: kind,
                    expected_urid: other,
                    found_urid: self.type_,
                },
            ),
    {
        if other == self.urid() {
            Ok(())
        } else {
            Err(
                AtomReadError::InvalidAtomUrid {
                    expected: kind,
                    expected_urid: other,
                    found_urid: self.urid(),
                },
            )
        }
    }
}

impl Layout for AtomHeader {
    open spec fn spec_size() -> nat {
        8
    }

    open spec fn spec_align() -> nat {
        8
    }

    proof fn lemma_align() {
    }

    fn size() -> usize {
        8
    }

    fn align() -> usize {
        8
    }
}

impl Pod for AtomHeader {
    open spec fn spec_encode(self) -> Seq<u8> {
        encode_u32(self.size) + encode_u32(self.type_)
    }

    open spec fn spec_decode(bytes: Seq<u8>) -> AtomHeader {
        AtomHeader {
            size: decode_u32(bytes.subrange(0, 4)),
            type_: decode_u32(bytes.subrange(4, 8)),
        }
    }

    proof fn lemma_roundtrip(v: AtomHeader) {
        lemma_u32_roundtrip(v.size);
        lemma_u32_roundtrip(v.type_);
        let e = v.spec_encode();
        assert(e.len() == 8);
        assert(e.len() == AtomHeader::spec_size());
        assert(e.subrange(0, 4) =~= encode_u32(v.size));
        assert(e.subrange(4, 8) =~= encode_u32(v.type_));
        let d = AtomHeader::spec_decode(e);
        assert(d.size == v.size);
        assert(d.type_ == v.type_);
    }

    proof fn lemma_bytes_roundtrip(bytes: Seq<u8>) {
        vstd::bytes::lemma_auto_spec_u32_to_from_le_bytes();
        let a = bytes.subrange(0, 4);
        let b = bytes.subrange(4, 8);
        assert(encode_u32(decode_u32(a)) == a);
        assert(encode_u32(decode_u32(b)) == b);
        assert(a + b =~= bytes);
    }

    proof fn lemma_layout() {
    }

    fn encode(&self) -> Vec<u8> {
        let mut r = u32_bytes(self.size);
        let mut t = u32_bytes(self.type_);
        r.append(&mut t);
        r
    }

    fn decode(bytes: &[u8]) -> AtomHeader {
        let size = u32_from_le_bytes(vstd::slice::slice_subrange(bytes, 0, 4));
        let type_ = u32_from_le_bytes(vstd::slice::slice_subrange(bytes, 4, 8));
        AtomHeader { size, type_ }
    }
}

} // verus!
