//! A writer that tracks the size of the atom it writes in the atom's header.
use crate::encoding::{lemma_u32_roundtrip, read_u32_at, u32_bytes, Pod, Layout};
use crate::header::AtomHeader;
use crate::space::allocator::{SpaceAllocator, SpaceWriterSplitAllocation, Whole};
use crate::space::error::AtomWriteError;
use crate::space::model::{header_size, lemma_add_to_sizes_read, read_u32, SpaceView};
use crate::space::writer::{after_aligned_write, aligned_out_of_space, SpaceWriter};
use crate::util::{padding_for, try_padding_for};
use vstd::prelude::*;

verus! {

/// A [`SpaceAllocator`] that writes into its parent and adds every allocated byte to the body
/// size in the header of the atom it writes.
///
/// This allows writing variable-size atoms without tracking their size manually.
pub struct AtomWriter<'a, A: SpaceAllocator> {
    atom_header_index: usize,
    parent: &'a mut A,
}

impl<'a, A: SpaceAllocator> AtomWriter<'a, A> {
    /// Position of the header of the atom being written.
    pub closed spec fn header_index(&self) -> nat {
        self.atom_header_index as nat
    }

    /// Retrieves a copy of the header this writer is currently tracking.
    pub fn atom_header(&self) -> (r: AtomHeader)
        requires
            self.inv(),
        ensures
            r == AtomHeader::spec_decode(
                self@.bytes.subrange(self.header_index() as int, self.header_index() + 8int),
            ),
    {
        proof {
            self.parent.lemma_inv();
        }
        let previous = self.parent.allocated_bytes();
        let h = self.atom_header_index;
        proof {
            assert(previous@.len() == self.parent@.allocated);
            assert(previous@.subrange(h as int, h + 8int) =~= self@.bytes.subrange(
                h as int,
                h + 8int,
            ));
        }
        assert(h + 8 <= previous.len());
        AtomHeader::decode(vstd::slice::slice_subrange(previous, h, h + 8))
    }

    /// Writes an empty atom header of the given type into the parent, and returns a writer that
    /// adds everything written through it to that header's body size.
    pub fn write_new(parent: &'a mut A, urid: u32) -> (r: Result<Self, AtomWriteError>)
        requires
            old(parent).inv(),
            old(parent)@.allocated + 16 <= usize::MAX,
        ensures
            match after_aligned_write(old(parent)@, 8, 8, (AtomHeader { size: 0, type_: urid }).spec_encode()) {
                Some(v) => r matches Ok(w) && w.inv() && w.header_index() == old(parent)@.allocated
                    + padding_for(old(parent)@.allocated, 8) && w@ == (SpaceView {
                    headers: v.headers.push(w.header_index()),
                    ..v
                }) && final(w.target()).whole() == final(parent).whole(),
                None => (r matches Err(e) && e == aligned_out_of_space(old(parent)@, 8, 8))
                    && final(parent)@ == old(parent)@ && final(parent).inv()
                    && final(final(parent).target()).whole() == final(old(parent).target()).whole(),
            },
    {
        proof {
            AtomHeader::lemma_roundtrip(AtomHeader { size: 0, type_: urid });
            old(parent).lemma_inv();
        }
        let atom = AtomHeader::new(urid);
        let start = parent.allocated_bytes().len();
        let padding = try_padding_for::<AtomHeader>(start);
        proof {
            parent.lemma_can_allocate((padding + 8) as nat);
        }
        let alloc = parent.allocate_and_split(padding + 8)?;
        let atom_header_index = alloc.previous + padding;
        proof {
            parent.lemma_inv();
        }
        let bytes = atom.encode();
        parent.write_at(atom_header_index, bytes.as_slice());
        proof {
            parent.lemma_inv();
        }
        Ok(AtomWriter { atom_header_index, parent })
    }

    /// Once the writer is no longer used, its parent is left well formed, with the bytes of
    /// the writer and the atom closed.
    pub proof fn lemma_resolved(&self)
        requires
            self.inv(),
        ensures
            has_resolved(*self) ==> {
                let p = final(self.target()).whole();
                &&& p.inv()
                &&& p@ == (SpaceView { headers: self@.headers.drop_last(), ..self@ })
            },
    {
        assert(self@.headers.drop_last() =~= self.parent@.headers);
        self.parent.lemma_whole();
    }
}

impl<'a, A: SpaceAllocator> Whole for AtomWriter<'a, A> {
    type W = Self;

    open spec fn whole(&self) -> Self {
        *self
    }
}

impl<'a, A: SpaceAllocator> SpaceAllocator for AtomWriter<'a, A> {
    closed spec fn view(&self) -> SpaceView {
        SpaceView {
            headers: self.parent@.headers.push(self.atom_header_index as nat),
            ..self.parent@
        }
    }

    closed spec fn inv(&self) -> bool {
        &&& self.parent.inv()
        &&& self.atom_header_index + header_size() <= self.parent@.allocated
        &&& self.parent@.body_start() <= self.atom_header_index
    }

    type Target = A;

    closed spec fn target(&self) -> &mut A {
        self.parent
    }

    closed spec fn can_allocate(&self, size: nat) -> bool {
        self.parent.can_allocate(size)
    }

    proof fn lemma_can_allocate(&self, size: nat) {
        self.parent.lemma_can_allocate(size);
    }

    proof fn lemma_whole(&self) {
    }

    proof fn lemma_inv(&self) {
        self.parent.lemma_inv();
        let v = self@;
        let p = self.parent@;
        assert forall|i: int, j: int| 0 <= i < j < v.headers.len() implies #[trigger] v.headers[i]
            + header_size() <= #[trigger] v.headers[j] by {
            if j == v.headers.len() - 1 {
                assert(p.headers[i] + header_size() <= p.headers.last() + header_size());
            }
        }
    }

    fn allocate_and_split(&mut self, size: usize) -> (r: Result<
        SpaceWriterSplitAllocation,
        AtomWriteError,
    >) {
        proof {
            self.lemma_inv();
            self.parent.lemma_inv();
        }
        let ghost own = self@;
        let ghost old_parent = self.parent@;
        proof {
            assert(own.headers.drop_last() =~= old_parent.headers);
            assert(own.headers.last() == self.atom_header_index);
        }
        let alloc = self.parent.allocate_and_split(size)?;
        proof {
            self.parent.lemma_inv();
        }
        let h = self.atom_header_index;
        let allocated = self.parent.allocated_bytes();
        let old_size = read_u32_at(allocated, h);
        let new_size = (old_size as u128 + size as u128) as u32;
        proof {
            let b = self.parent@.bytes;
            assert(allocated@.subrange(h as int, h + 4) =~= b.subrange(h as int, h + 4));
            lemma_u32_roundtrip(new_size);
        }
        let bytes = u32_bytes(new_size);
        self.parent.write_at(h, bytes.as_slice());
        Ok(alloc)
    }

    fn rewind(&mut self, byte_count: usize) -> (r: Result<(), AtomWriteError>) {
        proof {
            self.lemma_inv();
            self.parent.lemma_inv();
        }
        let ghost old_parent = self.parent@;
        let ghost own = self@;
        let h = self.atom_header_index;
        proof {
            let p = old_parent;
            assert(own.headers.last() == h);
            assert forall|i: int| 0 <= i < p.headers.len() implies read_u32(
                p.bytes,
                #[trigger] p.headers[i] as int,
            ) >= byte_count by {
                assert(own.headers[i] == p.headers[i]);
            }
            assert(own.headers[own.headers.len() - 1] == h);
            assert(read_u32(p.bytes, h as int) >= byte_count);
        }
        self.parent.rewind(byte_count)?;
        proof {
            self.parent.lemma_inv();
            let p = old_parent;
            assert forall|i: int| 0 <= i < p.headers.len() implies #[trigger] p.headers[i] + 4
                <= p.bytes.len() by {}
            assert forall|i: int| 0 <= i < p.headers.len() implies h + 4 <= #[trigger] p.headers[i]
                || p.headers[i] + 4 <= h by {
                assert(p.headers[i] + header_size() <= p.headers.last() + header_size());
            }
            lemma_add_to_sizes_read(p.bytes, p.headers, -byte_count, h as int);
        }
        let allocated = self.parent.allocated_bytes();
        let old_size = read_u32_at(allocated, h);
        proof {
            let b = self.parent@.bytes;
            assert(allocated@.subrange(h as int, h + 4) =~= b.subrange(h as int, h + 4));
        }
        let new_size = old_size - byte_count as u32;
        proof {
            assert(own.headers.drop_last() =~= old_parent.headers);
        }
        let bytes = u32_bytes(new_size);
        self.parent.write_at(h, bytes.as_slice());
        Ok(())
    }

    fn allocated_bytes(&self) -> (r: &[u8]) {
        self.parent.allocated_bytes()
    }

    fn remaining_bytes(&self) -> (r: &[u8]) {
        self.parent.remaining_bytes()
    }

    fn write_at(&mut self, pos: usize, data: &[u8]) {
        self.parent.write_at(pos, data);
    }
}

} // verus!

verus! {

/// The writer of an atom, under the name older atom types use for it.
pub type AtomSpaceWriter<'a, A> = AtomWriter<'a, A>;

impl<'a, A: SpaceAllocator> AtomSpaceWriter<'a, A> {
    /// The header of the atom being written.
    pub fn atom(&self) -> (r: AtomHeader)
        requires
            self.inv(),
        ensures
            r == AtomHeader::spec_decode(
                self@.bytes.subrange(self.header_index() as int, self.header_index() + 8int),
            ),
    {
        self.atom_header()
    }
}

} // verus!
