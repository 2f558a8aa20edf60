//! Helpers to write values, bytes and atoms into any [`SpaceAllocator`].
use crate::encoding::{encode_all, encode_values, lemma_encode_all_len, Pod, Layout};
use crate::header::AtomHeader;
use crate::space::atom_writer::AtomWriter;
use crate::space::terminated::Terminated;
use crate::unidentified::UnidentifiedAtom;
use crate::space::allocator::{out_of_space, SpaceAllocator, Whole};
use crate::space::error::AtomWriteError;
use crate::space::model::{after_alloc, splice, SpaceView};
use crate::util::{padding_for, try_padding_for};
use vstd::prelude::*;

verus! {

/// The state after allocating `size` bytes preceded by the padding for alignment `align`, and
/// writing `data` at the aligned start; `None` if the allocation does not fit.
pub open spec fn after_aligned_write(v: SpaceView, align: nat, size: nat, data: Seq<u8>) -> Option<
    SpaceView,
> {
    let pad = padding_for(v.allocated, align);
    match after_alloc(v, pad + size) {
        Some(w) => Some(SpaceView { bytes: splice(w.bytes, (v.allocated + pad) as int, data), ..w }),
        None => None,
    }
}

/// The error reported when `size` bytes aligned for `align` do not fit.
pub open spec fn aligned_out_of_space(v: SpaceView, align: nat, size: nat) -> AtomWriteError {
    out_of_space(v, padding_for(v.allocated, align) + size)
}

/// Writing helpers available on every [`SpaceAllocator`].
pub trait SpaceWriter: SpaceAllocator {
    /// Allocates `size` new bytes and returns the position of the first one.
    fn allocate(&mut self, size: usize) -> (r: Result<usize, AtomWriteError>)
        requires
            old(self).inv(),
            old(self)@.allocated + size <= usize::MAX,
        ensures
            final(self).inv(),
            final(final(self).target()).whole() == final(old(self).target()).whole(),
            match after_alloc(old(self)@, size as nat) {
                Some(v) => r == Ok::<usize, AtomWriteError>(old(self)@.allocated as usize)
                    && final(self)@ == v,
                None => r == Err::<usize, AtomWriteError>(out_of_space(old(self)@, size as nat))
                    && final(self)@ == old(self)@,
            },
    {
        proof {
            self.lemma_can_allocate(size as nat);
        }
        let a = self.allocate_and_split(size)?;
        Ok(a.previous)
    }

    /// Allocates the padding bytes that align the next allocation for `T`.
    fn allocate_padding_for<T: Pod>(&mut self) -> (r: Result<(), AtomWriteError>)
        requires
            old(self).inv(),
            old(self)@.allocated + 8 <= usize::MAX,
        ensures
            final(self).inv(),
            final(final(self).target()).whole() == final(old(self).target()).whole(),
            ({
                let pad = padding_for(old(self)@.allocated, T::spec_align());
                match after_alloc(old(self)@, pad) {
                    Some(v) => r == Ok::<(), AtomWriteError>(()) && final(self)@ == v,
                    None => r == Err::<(), AtomWriteError>(out_of_space(old(self)@, pad))
                        && final(self)@ == old(self)@,
                }
            }),
    {
        proof {
            T::lemma_layout();
        }
        let start = self.remaining_start();
        let required_padding = try_padding_for::<T>(start);
        self.allocate(required_padding)?;
        Ok(())
    }

    /// Allocates `byte_size` bytes whose first one is aligned for `T`, skipping the padding that
    /// this requires, and returns the position of the aligned first byte.
    fn allocate_aligned<T: Pod>(&mut self, byte_size: usize) -> (r: Result<usize, AtomWriteError>)
        requires
            old(self).inv(),
            old(self)@.allocated + byte_size + 8 <= usize::MAX,
        ensures
            final(self).inv(),
            final(final(self).target()).whole() == final(old(self).target()).whole(),
            ({
                let pad = padding_for(old(self)@.allocated, T::spec_align());
                match after_alloc(old(self)@, (pad + byte_size) as nat) {
                    Some(v) => r == Ok::<usize, AtomWriteError>((old(self)@.allocated + pad) as usize)
                        && final(self)@ == v,
                    None => r == Err::<usize, AtomWriteError>(
                        out_of_space(old(self)@, (pad + byte_size) as nat),
                    ) && final(self)@ == old(self)@,
                }
            }),
    {
        proof {
            T::lemma_layout();
        }
        let start = self.remaining_start();
        let required_padding = try_padding_for::<T>(start);
        let raw = self.allocate(byte_size + required_padding)?;
        Ok(raw + required_padding)
    }

    /// The position where the next allocation starts.
    fn remaining_start(&self) -> (r: usize)
        requires
            self.inv(),
        ensures
            r == self@.allocated,
    {
        proof {
            self.lemma_inv();
        }
        self.allocated_bytes().len()
    }

    /// Allocates room for one value of type `T` and returns its position.
    fn allocate_value<T: Pod>(&mut self) -> (r: Result<usize, AtomWriteError>)
        requires
            old(self).inv(),
            old(self)@.allocated + 16 <= usize::MAX,
        ensures
            final(self).inv(),
            final(final(self).target()).whole() == final(old(self).target()).whole(),
            ({
                let pad = padding_for(old(self)@.allocated, T::spec_align());
                match after_alloc(old(self)@, pad + T::spec_size()) {
                    Some(v) => r == Ok::<usize, AtomWriteError>((old(self)@.allocated + pad) as usize)
                        && final(self)@ == v,
                    None => r == Err::<usize, AtomWriteError>(
                        out_of_space(old(self)@, pad + T::spec_size()),
                    ) && final(self)@ == old(self)@,
                }
            }),
    {
        proof {
            T::lemma_layout();
        }
        self.allocate_aligned::<T>(T::size())
    }

    /// Allocates room for `count` values of type `T` and returns the position of the first.
    fn allocate_values<T: Pod>(&mut self, count: usize) -> (r: Result<usize, AtomWriteError>)
        requires
            old(self).inv(),
            old(self)@.allocated + count * T::spec_size() + 8 <= usize::MAX,
        ensures
            final(self).inv(),
            final(final(self).target()).whole() == final(old(self).target()).whole(),
            ({
                let pad = padding_for(old(self)@.allocated, T::spec_align());
                match after_alloc(old(self)@, (pad + count * T::spec_size()) as nat) {
                    Some(v) => r == Ok::<usize, AtomWriteError>((old(self)@.allocated + pad) as usize)
                        && final(self)@ == v,
                    None => r == Err::<usize, AtomWriteError>(
                        out_of_space(old(self)@, (pad + count * T::spec_size()) as nat),
                    ) && final(self)@ == old(self)@,
                }
            }),
    {
        self.allocate_aligned::<T>(count * T::size())
    }

    /// Copies the given bytes into newly allocated space and returns their position.
    fn write_bytes(&mut self, bytes: &[u8]) -> (r: Result<usize, AtomWriteError>)
        requires
            old(self).inv(),
            old(self)@.allocated + bytes@.len() <= usize::MAX,
        ensures
            final(self).inv(),
            final(final(self).target()).whole() == final(old(self).target()).whole(),
            match after_alloc(old(self)@, bytes@.len()) {
                Some(v) => r == Ok::<usize, AtomWriteError>(old(self)@.allocated as usize)
                    && final(self)@ == (SpaceView {
                    bytes: splice(v.bytes, old(self)@.allocated as int, bytes@),
                    ..v
                }),
                None => r == Err::<usize, AtomWriteError>(
                    out_of_space(old(self)@, bytes@.len()),
                ) && final(self)@ == old(self)@,
            },
    {
        proof {
            self.lemma_inv();
        }
        let pos = self.allocate(bytes.len())?;
        self.write_at(pos, bytes);
        Ok(pos)
    }

    /// Writes a value, aligned for its type, and returns its position.
    fn write_value<T: Pod>(&mut self, value: T) -> (r: Result<usize, AtomWriteError>)
        requires
            old(self).inv(),
            old(self)@.allocated + 16 <= usize::MAX,
        ensures
            final(self).inv(),
            final(final(self).target()).whole() == final(old(self).target()).whole(),
            match after_aligned_write(
                old(self)@,
                T::spec_align(),
                T::spec_size(),
                value.spec_encode(),
            ) {
                Some(v) => r == Ok::<usize, AtomWriteError>(
                    (old(self)@.allocated + padding_for(old(self)@.allocated, T::spec_align()))
                        as usize,
                ) && final(self)@ == v,
                None => r == Err::<usize, AtomWriteError>(
                    out_of_space(
                        old(self)@,
                        padding_for(old(self)@.allocated, T::spec_align()) + T::spec_size(),
                    ),
                ) && final(self)@ == old(self)@,
            },
    {
        proof {
            T::lemma_layout();
            T::lemma_roundtrip(value);
            self.lemma_inv();
        }
        let pos = self.allocate_aligned::<T>(T::size())?;
        let bytes = value.encode();
        self.write_at(pos, bytes.as_slice());
        Ok(pos)
    }

    /// Writes values one after the other, aligned for their type, and returns the position of
    /// the first.
    fn write_values<T: Pod>(&mut self, values: &[T]) -> (r: Result<usize, AtomWriteError>)
        requires
            old(self).inv(),
            old(self)@.allocated + values@.len() * T::spec_size() + 8 <= usize::MAX,
        ensures
            final(self).inv(),
            final(final(self).target()).whole() == final(old(self).target()).whole(),
            match after_aligned_write(
                old(self)@,
                T::spec_align(),
                (values@.len() * T::spec_size()) as nat,
                encode_all(values@),
            ) {
                Some(v) => r == Ok::<usize, AtomWriteError>(
                    (old(self)@.allocated + padding_for(old(self)@.allocated, T::spec_align()))
                        as usize,
                ) && final(self)@ == v,
                None => r == Err::<usize, AtomWriteError>(
                    out_of_space(
                        old(self)@,
                        (padding_for(old(self)@.allocated, T::spec_align()) + values@.len()
                            * T::spec_size()) as nat,
                    ),
                ) && final(self)@ == old(self)@,
            },
    {
        proof {
            T::lemma_layout();
            lemma_encode_all_len(values@);
            self.lemma_inv();
        }
        let pos = self.allocate_aligned::<T>(values.len() * T::size())?;
        let bytes = encode_values(values);
        self.write_at(pos, bytes.as_slice());
        Ok(pos)
    }

    /// Writes the header of a new atom of the given type, and returns a writer for its body
    /// that tracks the body's size in the header.
    fn write_atom<'a>(&'a mut self, urid: u32) -> (r: Result<AtomWriter<'a, Self>, AtomWriteError>)
        requires
            old(self).inv(),
            old(self)@.allocated + 16 <= usize::MAX,
        ensures
            match after_aligned_write(
                old(self)@,
                8,
                8,
                (AtomHeader { size: 0, type_: urid }).spec_encode(),
            ) {
                Some(v) => (r matches Ok(w) && w.inv() && w.header_index() == old(self)@.allocated
                    + padding_for(old(self)@.allocated, 8) && w@ == (SpaceView {
                    headers: v.headers.push(w.header_index()),
                    ..v
                }) && final(w.target()).whole() == final(self).whole()),
                None => (r matches Err(e) && e == aligned_out_of_space(old(self)@, 8, 8))
                    && final(self)@ == old(self)@ && final(self).inv()
                    && final(final(self).target()).whole() == final(old(self).target()).whole(),
            },
    {
        AtomWriter::write_new(self, urid)
    }

    /// Copies a whole atom, header and body, unchanged and aligned for an atom header, and
    /// returns the position of the copy.
    fn copy_atom(&mut self, atom: &UnidentifiedAtom) -> (r: Result<usize, AtomWriteError>)
        requires
            old(self).inv(),
            atom.wf(),
            old(self)@.allocated + atom.bytes().len() + 8 <= usize::MAX,
        ensures
            final(self).inv(),
            final(final(self).target()).whole() == final(old(self).target()).whole(),
            match after_aligned_write(old(self)@, 8, atom.bytes().len(), atom.bytes()) {
                Some(v) => r == Ok::<usize, AtomWriteError>(
                    (old(self)@.allocated + padding_for(old(self)@.allocated, 8)) as usize,
                ) && final(self)@ == v,
                None => r == Err::<usize, AtomWriteError>(
                    out_of_space(
                        old(self)@,
                        padding_for(old(self)@.allocated, 8) + atom.bytes().len(),
                    ),
                ) && final(self)@ == old(self)@,
            },
    {
        proof {
            self.lemma_inv();
        }
        let bytes = atom.atom_space().as_bytes();
        let pos = self.allocate_aligned::<AtomHeader>(bytes.len())?;
        self.write_at(pos, bytes);
        Ok(pos)
    }

    /// Wraps this writer so that everything written through it is followed by `terminator`.
    fn terminated(self, terminator: u8) -> (r: Terminated<Self>)
        requires
            self.inv(),
        ensures
            r.inv(),
            r.inner() == self,
            r.terminator() == terminator,
            !r.wrote(),
    {
        Terminated::new(self, terminator)
    }
}

impl<H: SpaceAllocator> SpaceWriter for H {

}

} // verus!
