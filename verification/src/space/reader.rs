//! A cursor to read consecutive values and atoms from a byte slice.
use crate::encoding::{Layout, Pod};
use crate::header::AtomHeader;
use crate::space::aligned::{cannot_realign, decode_values, AlignedSpace};
use crate::space::error::{AlignmentError, AtomReadError};
use crate::unidentified::UnidentifiedAtom;
use crate::util::{lemma_padding, padding_for};
use vstd::prelude::*;

verus! {

/// The error reported when `requested` bytes are read from a slice of `available` bytes.
pub open spec fn out_of_bounds(available: nat, requested: nat) -> AtomReadError {
    AtomReadError::ReadingOutOfBounds {
        available: available as usize,
        requested: requested as usize,
    }
}

/// The outcome of reading `size` bytes aligned for `align` from `bytes` at position `addr`:
/// the position of the aligned start (relative to `bytes`), or the error.
pub open spec fn spec_aligned_read(bytes: Seq<u8>, addr: nat, align: nat, size: nat) -> Result<
    nat,
    AtomReadError,
> {
    let pad = padding_for(addr, align);
    if pad > bytes.len() {
        Err(AtomReadError::AlignmentError(cannot_realign(addr, align, bytes.len())))
    } else if pad + size > bytes.len() {
        Err(out_of_bounds((bytes.len() - pad) as nat, size))
    } else {
        Ok(pad)
    }
}

/// The outcome of reading an atom from `bytes` at position `addr`: the position (relative to
/// `bytes`) of the aligned atom header and the atom's total size, or the error.
pub open spec fn spec_atom_read(bytes: Seq<u8>, addr: nat) -> Result<(nat, nat), AtomReadError> {
    let pad = padding_for(addr, 8);
    if pad > bytes.len() {
        Err(AtomReadError::AlignmentError(cannot_realign(addr, 8, bytes.len())))
    } else if pad + 8 > bytes.len() {
        Err(out_of_bounds((bytes.len() - pad) as nat, 8))
    } else {
        let size = AtomHeader::spec_decode(bytes.subrange(pad as int, (pad + 8) as int)).size;
        if pad + 8 + size > bytes.len() {
            Err(out_of_bounds((bytes.len() - pad) as nat, (size + 8) as nat))
        } else {
            Ok((pad, (size + 8) as nat))
        }
    }
}

/// Splits an aligned space after its first `bytes` bytes.
///
/// # Errors
///
/// Returns [`AtomReadError::ReadingOutOfBounds`] if the space is shorter than `bytes`.
pub fn split_space<'a, T: Pod>(space: &AlignedSpace<'a, T>, bytes: usize) -> (r: Result<
    (AlignedSpace<'a, T>, &'a [u8]),
    AtomReadError,
>)
    requires
        space.wf(),
    ensures
        bytes <= space.bytes().len() ==> (r matches Ok((a, b)) && a.wf() && a.bytes()
            == space.bytes().subrange(0, bytes as int) && a.addr() == space.addr() && b@
            == space.bytes().subrange(bytes as int, space.bytes().len() as int)),
        bytes > space.bytes().len() ==> r == Err::<(AlignedSpace<'a, T>, &'a [u8]), AtomReadError>(
            out_of_bounds(space.bytes().len(), bytes as nat),
        ),
{
    match space.split_at(bytes) {
        Some(parts) => Ok(parts),
        None => Err(
            AtomReadError::ReadingOutOfBounds { requested: bytes, available: space.bytes_len() },
        ),
    }
}

/// A cursor-like reader over contiguous bytes that hold values and atoms.
#[derive(Clone, Copy)]
pub struct SpaceReader<'a> {
    space: &'a [u8],
    addr: usize,
}

impl<'a> SpaceReader<'a> {
    /// The bytes that are still to be read.
    pub closed spec fn bytes(&self) -> Seq<u8> {
        self.space@
    }

    /// The position of the next byte to be read.
    pub closed spec fn addr(&self) -> nat {
        self.addr as nat
    }

    pub open spec fn wf(&self) -> bool {
        self.addr() + self.bytes().len() <= usize::MAX
    }

    /// Creates a reader over `space`, whose first byte is at position `addr`.
    pub fn new(space: &'a [u8], addr: usize) -> (r: Self)
        requires
            addr + space@.len() <= usize::MAX,
        ensures
            r.wf(),
            r.bytes() == space@,
            r.addr() == addr,
    {
        SpaceReader { space, addr }
    }

    /// Skips the first `n` remaining bytes.
    fn advance(&mut self, n: usize)
        requires
            old(self).wf(),
            n <= old(self).bytes().len(),
        ensures
            final(self).wf(),
            final(self).bytes() == old(self).bytes().subrange(n as int, old(self).bytes().len() as int),
            final(self).addr() == old(self).addr() + n,
    {
        self.space = vstd::slice::slice_subrange(self.space, n, self.space.len());
        self.addr = self.addr + n;
    }

    /// Locates `size` bytes aligned for `align`, without advancing.
    fn locate(&self, align: usize, size: usize) -> (r: Result<usize, AtomReadError>)
        requires
            self.wf(),
            align == 1 || align == 2 || align == 4 || align == 8,
        ensures
            match spec_aligned_read(self.bytes(), self.addr(), align as nat, size as nat) {
                Ok(p) => r == Ok::<usize, AtomReadError>(p as usize),
                Err(e) => r == Err::<usize, AtomReadError>(e),
            },
    {
        proof {
            lemma_padding(self.addr as nat, align as nat);
        }
        let rem = self.addr % align;
        let padding = if rem == 0 {
            0
        } else {
            align - rem
        };
        if padding > self.space.len() {
            return Err(
                AtomReadError::AlignmentError(
                    AlignmentError(
                        crate::space::error::AlignmentErrorKind::NotEnoughSpaceToRealign {
                            addr: self.addr,
                            align,
                            required_padding: padding + 1,
                            available_size: self.space.len(),
                        },
                    ),
                ),
            );
        }
        let available = self.space.len() - padding;
        if size > available {
            return Err(AtomReadError::ReadingOutOfBounds { available, requested: size });
        }
        Ok(padding)
    }

    /// Returns the bytes of the next value of type `T`, skipping the padding before it.
    fn next_uninit_value<T: Pod>(&mut self) -> (r: Result<&'a [u8], AtomReadError>)
        requires
            old(self).wf(),
        ensures
            final(self).wf(),
            match spec_aligned_read(old(self).bytes(), old(self).addr(), T::spec_align(), T::spec_size()) {
                Ok(pad) => (r matches Ok(v)
                    && v@ == old(self).bytes().subrange(pad as int, (pad + T::spec_size()) as int)
                    && final(self).bytes() == old(self).bytes().subrange(
                        (pad + T::spec_size()) as int,
                        old(self).bytes().len() as int,
                    )
                    && final(self).addr() == old(self).addr() + pad + T::spec_size()),
                Err(e) => r == Err::<&'a [u8], AtomReadError>(e) && *final(self) == *old(self),
            },
    {
        proof {
            T::lemma_layout();
        }
        let space = match AlignedSpace::<T>::align_from_bytes(self.space, self.addr) {
            Ok(space) => space,
            Err(e) => {
                return Err(AtomReadError::AlignmentError(e));
            },
        };
        let (value, remaining) = split_space(&space, T::size())?;
        self.addr = space.address() + T::size();
        self.space = remaining;
        proof {
            let pad = padding_for(old(self).addr(), T::spec_align()) as int;
            assert(value.bytes() =~= old(self).bytes().subrange(pad, pad + T::spec_size()));
            assert(self.space@ =~= old(self).bytes().subrange(
                pad + T::spec_size(),
                old(self).bytes().len() as int,
            ));
        }
        Ok(value.as_bytes())
    }

    /// Returns the bytes of the next `length` values of type `T`, skipping the padding before
    /// them.
    fn next_uninit_value_slice<T: Pod>(&mut self, length: usize) -> (r: Result<
        &'a [u8],
        AtomReadError,
    >)
        requires
            old(self).wf(),
            length * T::spec_size() <= usize::MAX,
        ensures
            final(self).wf(),
            match spec_aligned_read(
                old(self).bytes(),
                old(self).addr(),
                T::spec_align(),
                (length * T::spec_size()) as nat,
            ) {
                Ok(pad) => (r matches Ok(v) && v@ == old(self).bytes().subrange(
                    pad as int,
                    pad + length * T::spec_size(),
                ) && final(self).bytes() == old(self).bytes().subrange(
                    pad + length * T::spec_size(),
                    old(self).bytes().len() as int,
                ) && final(self).addr() == old(self).addr() + pad + length * T::spec_size()),
                Err(e) => r == Err::<&'a [u8], AtomReadError>(e) && *final(self) == *old(self),
            },
    {
        proof {
            T::lemma_layout();
        }
        let space = match AlignedSpace::<T>::align_from_bytes(self.space, self.addr) {
            Ok(space) => space,
            Err(e) => {
                return Err(AtomReadError::AlignmentError(e));
            },
        };
        let split_point = crate::util::value_index_to_byte_index::<T>(length);
        let (data, remaining) = split_space(&space, split_point)?;
        self.addr = space.address() + split_point;
        self.space = remaining;
        proof {
            let pad = padding_for(old(self).addr(), T::spec_align()) as int;
            assert(data.bytes() =~= old(self).bytes().subrange(pad, pad + split_point));
            assert(self.space@ =~= old(self).bytes().subrange(
                pad + split_point,
                old(self).bytes().len() as int,
            ));
        }
        Ok(data.as_bytes())
    }

    /// Returns the remaining bytes after the padding that aligns them for `T`, without
    /// advancing.
    fn as_uninit_slice<T: Pod>(&self) -> (r: Result<&'a [u8], AlignmentError>)
        requires
            self.wf(),
        ensures
            ({
                let pad = padding_for(self.addr(), T::spec_align());
                &&& pad <= self.bytes().len() ==> (r matches Ok(v) && v@ == self.bytes().subrange(
                    pad as int,
                    self.bytes().len() as int,
                ))
                &&& pad > self.bytes().len() ==> r == Err::<&'a [u8], AlignmentError>(
                    cannot_realign(self.addr(), T::spec_align(), self.bytes().len()),
                )
            }),
    {
        let space = AlignedSpace::<T>::align_from_bytes(self.space, self.addr)?;
        Ok(space.as_bytes())
    }

    /// Reads the next value of type `T`, skipping the padding before it.
    ///
    /// # Errors
    ///
    /// Returns an error if the remaining bytes cannot be aligned for `T` or are too few for a
    /// value. The reader is not advanced then.
    pub fn next_value<T: Pod>(&mut self) -> (r: Result<T, AtomReadError>)
        requires
            old(self).wf(),
        ensures
            final(self).wf(),
            match spec_aligned_read(old(self).bytes(), old(self).addr(), T::spec_align(), T::spec_size()) {
                Ok(pad) => {
                    &&& r == Ok::<T, AtomReadError>(
                        T::spec_decode(old(self).bytes().subrange(pad as int, (pad + T::spec_size()) as int)),
                    )
                    &&& final(self).bytes() == old(self).bytes().subrange(
                        (pad + T::spec_size()) as int,
                        old(self).bytes().len() as int,
                    )
                    &&& final(self).addr() == old(self).addr() + pad + T::spec_size()
                },
                Err(e) => r == Err::<T, AtomReadError>(e) && *final(self) == *old(self),
            },
    {
        let bytes = self.next_uninit_value::<T>()?;
        Ok(T::decode(bytes))
    }

    /// Reads the next `length` values of type `T`, skipping the padding before them.
    ///
    /// # Errors
    ///
    /// Returns an error if the remaining bytes cannot be aligned for `T` or are too few. The
    /// reader is not advanced then.
    pub fn next_values<T: Pod>(&mut self, length: usize) -> (r: Result<Vec<T>, AtomReadError>)
        requires
            old(self).wf(),
            length * T::spec_size() <= usize::MAX,
        ensures
            final(self).wf(),
            match spec_aligned_read(
                old(self).bytes(),
                old(self).addr(),
                T::spec_align(),
                (length * T::spec_size()) as nat,
            ) {
                Ok(pad) => r matches Ok(v) && v@.len() == length && (forall|i: int|
                    0 <= i < length ==> #[trigger] v@[i] == T::spec_decode(
                        old(self).bytes().subrange(
                            pad + i * T::spec_size(),
                            pad + (i + 1) * T::spec_size(),
                        ),
                    )) && final(self).bytes() == old(self).bytes().subrange(
                    pad + length * T::spec_size(),
                    old(self).bytes().len() as int,
                ) && final(self).addr() == old(self).addr() + pad + length * T::spec_size(),
                Err(e) => r == Err::<Vec<T>, AtomReadError>(e) && *final(self) == *old(self),
            },
    {
        proof {
            T::lemma_layout();
        }
        let data = self.next_uninit_value_slice::<T>(length)?;
        let values = decode_values::<T>(data);
        proof {
            let size = T::spec_size();
            let pad = padding_for(old(self).addr(), T::spec_align()) as int;
            assert(data@.len() as int / size as int == length) by (nonlinear_arith)
                requires
                    data@.len() == length * size,
                    size >= 1,
            ;
            assert forall|i: int| 0 <= i < length implies #[trigger] values@[i] == T::spec_decode(
                old(self).bytes().subrange(pad + i * size, pad + (i + 1) * size),
            ) by {
                assert((i + 1) * size <= length * size) by (nonlinear_arith)
                    requires
                        i < length,
                        size >= 1,
                ;
                assert(0 <= i * size) by (nonlinear_arith)
                    requires
                        0 <= i,
                ;
                assert((i + 1) * size == i * size + size) by (nonlinear_arith);
                assert(data@.subrange(i * size, (i + 1) * size) =~= old(self).bytes().subrange(
                    pad + i * size,
                    pad + (i + 1) * size,
                ));
            }
        }
        Ok(values)
    }

    /// Reads all remaining whole values of type `T`, skipping the padding before them, without
    /// advancing.
    ///
    /// # Errors
    ///
    /// Returns an error if the remaining bytes cannot be aligned for `T`.
    pub fn as_slice<T: Pod>(&self) -> (r: Result<Vec<T>, AlignmentError>)
        requires
            self.wf(),
        ensures
            ({
                let pad = padding_for(self.addr(), T::spec_align());
                &&& pad <= self.bytes().len() ==> (r matches Ok(v) && v@.len() == (self.bytes().len()
                    - pad) / (T::spec_size() as int) && (forall|i: int|
                    0 <= i < v@.len() ==> #[trigger] v@[i] == T::spec_decode(
                        self.bytes().subrange(
                            pad + i * T::spec_size(),
                            pad + (i + 1) * T::spec_size(),
                        ),
                    )))
                &&& pad > self.bytes().len() ==> r == Err::<Vec<T>, AlignmentError>(
                    cannot_realign(self.addr(), T::spec_align(), self.bytes().len()),
                )
            }),
    {
        let data = self.as_uninit_slice::<T>()?;
        let values = decode_values::<T>(data);
        proof {
            let pad = padding_for(self.addr(), T::spec_align());
            let size = T::spec_size();
            T::lemma_layout();
            assert forall|i: int| 0 <= i < values@.len() implies #[trigger] values@[i]
                == T::spec_decode(self.bytes().subrange(pad + i * size, pad + (i + 1) * size)) by {
                assert((i + 1) * size <= values@.len() * size) by (nonlinear_arith)
                    requires
                        i < values@.len(),
                        size >= 1,
                ;
                assert(values@.len() * size <= data@.len()) by (nonlinear_arith)
                    requires
                        values@.len() == data@.len() as int / (size as int),
                        size >= 1,
                ;
                assert(0 <= i * size) by (nonlinear_arith)
                    requires
                        0 <= i,
                ;
                assert((i + 1) * size == i * size + size) by (nonlinear_arith);
                assert(data@.subrange(i * size, (i + 1) * size) =~= self.bytes().subrange(
                    pad + i * size,
                    pad + (i + 1) * size,
                ));
            }
        }
        Ok(values)
    }

    /// Returns the next `length` bytes.
    ///
    /// # Errors
    ///
    /// Returns an error if fewer than `length` bytes remain; the reader is not advanced then.
    pub fn next_bytes(&mut self, length: usize) -> (r: Result<&'a [u8], AtomReadError>)
        requires
            old(self).wf(),
        ensures
            final(self).wf(),
            length <= old(self).bytes().len() ==> (r matches Ok(b) && b@ == old(self).bytes().subrange(
                0,
                length as int,
            ) && final(self).bytes() == old(self).bytes().subrange(
                length as int,
                old(self).bytes().len() as int,
            ) && final(self).addr() == old(self).addr() + length),
            length > old(self).bytes().len() ==> r == Err::<&'a [u8], AtomReadError>(
                out_of_bounds(old(self).bytes().len(), length as nat),
            ) && *final(self) == *old(self),
    {
        if length > self.space.len() {
            return Err(
                AtomReadError::ReadingOutOfBounds { requested: length, available: self.space.len() },
            );
        }
        let bytes = vstd::slice::slice_subrange(self.space, 0, length);
        self.advance(length);
        Ok(bytes)
    }

    /// Returns the next atom (its header and body), skipping the padding before it.
    ///
    /// # Errors
    ///
    /// Returns an error if the remaining bytes cannot be aligned for an atom header, are too few
    /// for the header, or too few for the body the header announces. The reader is not
    /// advanced then.
    pub fn next_atom(&mut self) -> (r: Result<UnidentifiedAtom<'a>, AtomReadError>)
        requires
            old(self).wf(),
        ensures
            final(self).wf(),
            match spec_atom_read(old(self).bytes(), old(self).addr()) {
                Ok((pad, len)) => r matches Ok(a) && a.wf() && a.bytes() == old(self).bytes().subrange(
                    pad as int,
                    (pad + len) as int,
                ) && a.addr() == old(self).addr() + pad && final(self).bytes() == old(
                    self,
                ).bytes().subrange((pad + len) as int, old(self).bytes().len() as int) && final(self).addr()
                    == old(self).addr() + pad + len,
                Err(e) => r == Err::<UnidentifiedAtom<'a>, AtomReadError>(e) && *final(self) == *old(
                    self,
                ),
            },
    {
        let pad = self.locate(8, 8)?;
        let header = AtomHeader::decode(vstd::slice::slice_subrange(self.space, pad, pad + 8));
        let available = self.space.len() - pad;
        if header.size_of_body() > available - 8 {
            return Err(
                AtomReadError::ReadingOutOfBounds {
                    available,
                    requested: (header.size as u64 + 8) as usize,
                },
            );
        }
        let len = header.size_of_body() + 8;
        let atom_bytes = vstd::slice::slice_subrange(self.space, pad, pad + len);
        proof {
            assert(atom_bytes@.subrange(0, 8) =~= self.space@.subrange(pad as int, pad + 8));
            lemma_padding(self.addr as nat, 8);
        }
        let atom = UnidentifiedAtom::from_parts(atom_bytes, self.addr + pad);
        self.advance(pad + len);
        Ok(atom)
    }

    /// The bytes that are still to be read.
    pub fn remaining_bytes(&self) -> (r: &'a [u8])
        ensures
            r@ == self.bytes(),
    {
        self.space
    }

    /// The position of the next byte to be read.
    pub fn address(&self) -> (r: usize)
        ensures
            r == self.addr(),
    {
        self.addr
    }
}

} // verus!
