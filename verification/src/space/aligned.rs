//! Byte slices whose start is aligned for a given type.
use crate::encoding::{Layout, Pod};
use crate::space::error::{AlignmentError, AlignmentErrorKind};
use crate::space::reader::SpaceReader;
use crate::util::{lemma_padding, padding_for, try_padding_for};
use core::marker::PhantomData;
use vstd::prelude::*;

verus! {

/// The error reported when a buffer at `addr` does not start at a multiple of `align`.
pub open spec fn unaligned(addr: nat, align: nat) -> AlignmentError {
    AlignmentError(AlignmentErrorKind::UnalignedBuffer { addr: addr as usize, align: align as usize })
}

/// The error reported when a buffer of `len` bytes at `addr` is too short to be aligned to
/// `align`.
pub open spec fn cannot_realign(addr: nat, align: nat, len: nat) -> AlignmentError {
    AlignmentError(
        AlignmentErrorKind::NotEnoughSpaceToRealign {
            addr: addr as usize,
            align: align as usize,
            required_padding: (padding_for(addr, align) + 1) as usize,
            available_size: len as usize,
        },
    )
}

/// A slice of bytes whose first byte is aligned for values of type `T`.
///
/// Positions ("addresses") are counted from the start of the root buffer the slice belongs
/// to; root buffers are aligned for every atom type. Only the start of the slice is aligned,
/// so the slice may hold bytes after the last whole value of `T`.
pub struct AlignedSpace<'a, T> {
    data: &'a [u8],
    addr: usize,
    _type: PhantomData<T>,
}

/// A space aligned for atoms.
pub type AtomSpace<'a> = AlignedSpace<'a, crate::header::AtomHeader>;

impl<'a, T: Layout> AlignedSpace<'a, T> {
    /// The bytes of the space.
    pub closed spec fn bytes(&self) -> Seq<u8> {
        self.data@
    }

    /// The position of the first byte.
    pub closed spec fn addr(&self) -> nat {
        self.addr as nat
    }

    pub open spec fn wf(&self) -> bool {
        &&& self.addr() % T::spec_align() == 0
        &&& self.addr() + self.bytes().len() <= usize::MAX
    }

    /// Creates a space from a slice whose first byte is at position `addr`.
    ///
    /// # Errors
    ///
    /// Returns an [`AlignmentError`] if `addr` is not a multiple of `T`'s alignment.
    pub fn from_bytes(data: &'a [u8], addr: usize) -> (r: Result<Self, AlignmentError>)
        requires
            addr + data@.len() <= usize::MAX,
        ensures
            addr as nat % T::spec_align() == 0 ==> (r matches Ok(s) && s.wf() && s.bytes() == data@
                && s.addr() == addr),
            addr as nat % T::spec_align() != 0 ==> r == Err::<Self, AlignmentError>(
                unaligned(addr as nat, T::spec_align()),
            ),
    {
        check_alignment::<T>(addr)?;
        Ok(AlignedSpace { data, addr, _type: PhantomData })
    }

    /// Creates a space from a slice whose first byte is at position `addr`, skipping the
    /// bytes before the first aligned position.
    ///
    /// # Errors
    ///
    /// Returns an [`AlignmentError`] if the slice is too short to hold the padding.
    pub fn align_from_bytes(data: &'a [u8], addr: usize) -> (r: Result<Self, AlignmentError>)
        requires
            addr + data@.len() <= usize::MAX,
        ensures
            ({
                let pad = padding_for(addr as nat, T::spec_align());
                &&& pad <= data@.len() ==> (r matches Ok(s) && s.wf() && s.bytes() == data@.subrange(
                    pad as int,
                    data@.len() as int,
                ) && s.addr() == addr + pad)
                &&& pad > data@.len() ==> r == Err::<Self, AlignmentError>(
                    cannot_realign(addr as nat, T::spec_align(), data@.len()),
                )
            }),
    {
        proof {
            T::lemma_align();
            lemma_padding(addr as nat, T::spec_align());
        }
        let padding = try_padding_for::<T>(addr);
        if padding > data.len() {
            return Err(
                AlignmentError(
                    AlignmentErrorKind::NotEnoughSpaceToRealign {
                        addr,
                        align: T::align(),
                        required_padding: padding + 1,
                        available_size: data.len(),
                    },
                ),
            );
        }
        let data = vstd::slice::slice_subrange(data, padding, data.len());
        Ok(AlignedSpace { data, addr: addr + padding, _type: PhantomData })
    }

    /// Creates a space from a slice that is known to be aligned.
    pub fn from_bytes_unchecked(data: &'a [u8], addr: usize) -> (r: Self)
        requires
            addr as nat % T::spec_align() == 0,
            addr + data@.len() <= usize::MAX,
        ensures
            r.wf(),
            r.bytes() == data@,
            r.addr() == addr,
    {
        AlignedSpace { data, addr, _type: PhantomData }
    }

    /// Splits the space at `mid`; the first part stays aligned.
    pub fn split_at(&self, mid: usize) -> (r: Option<(Self, &'a [u8])>)
        requires
            self.wf(),
        ensures
            mid <= self.bytes().len() ==> (r matches Some((a, b)) && a.wf() && a.bytes()
                == self.bytes().subrange(0, mid as int) && a.addr() == self.addr() && b@
                == self.bytes().subrange(mid as int, self.bytes().len() as int)),
            mid > self.bytes().len() ==> r is None,
    {
        if mid > self.data.len() {
            return None;
        }
        let start = vstd::slice::slice_subrange(self.data, 0, mid);
        let end = vstd::slice::slice_subrange(self.data, mid, self.data.len());
        Some((AlignedSpace { data: start, addr: self.addr, _type: PhantomData }, end))
    }

    /// The bytes of the space.
    pub fn as_bytes(&self) -> (r: &'a [u8])
        ensures
            r@ == self.bytes(),
    {
        self.data
    }

    /// The position of the first byte of the space.
    pub fn address(&self) -> (r: usize)
        ensures
            r == self.addr(),
    {
        self.addr
    }

    /// The length of the space, in bytes.
    pub fn bytes_len(&self) -> (r: usize)
        ensures
            r == self.bytes().len(),
    {
        self.data.len()
    }

    /// The number of whole values of `T` that fit in the space; `usize::MAX` for a type that
    /// occupies no bytes.
    pub fn values_len(&self) -> (r: usize)
        ensures
            r == if T::spec_size() == 0 {
                usize::MAX as int
            } else {
                self.bytes().len() as int / T::spec_size() as int
            },
    {
        let size = T::size();
        if size == 0 {
            usize::MAX
        } else {
            self.data.len() / size
        }
    }

    /// A reader over the contents of the space.
    pub fn read(&self) -> (r: SpaceReader<'a>)
        requires
            self.wf(),
        ensures
            r.bytes() == self.bytes(),
            r.addr() == self.addr(),
    {
        SpaceReader::new(self.data, self.addr)
    }
}

impl<'a, T: Pod> AlignedSpace<'a, T> {
    /// Reads all whole values of `T` in the space.
    pub fn assume_init_slice(&self) -> (r: Vec<T>)
        ensures
            r@.len() == self.bytes().len() / T::spec_size(),
            forall|i: int|
                0 <= i < r@.len() ==> #[trigger] r@[i] == T::spec_decode(
                    self.bytes().subrange(i * T::spec_size(), (i + 1) * T::spec_size()),
                ),
    {
        decode_values(self.data)
    }
}

/// Decodes all whole values of `T` at the start of `data`.
pub fn decode_values<T: Pod>(data: &[u8]) -> (r: Vec<T>)
    ensures
        r@.len() == data@.len() / T::spec_size(),
        forall|i: int|
            0 <= i < r@.len() ==> #[trigger] r@[i] == T::spec_decode(
                data@.subrange(i * T::spec_size(), (i + 1) * T::spec_size()),
            ),
{
    proof {
        T::lemma_layout();
    }
    let size = T::size();
    let len = data.len();
    let count = len / size;
    let mut r: Vec<T> = Vec::new();
    let mut i: usize = 0;
    while i < count
        invariant
            size == T::spec_size(),
            1 <= size <= 8,
            len == data@.len(),
            count == len / size,
            0 <= i <= count,
            r@.len() == i,
            forall|k: int|
                0 <= k < i ==> #[trigger] r@[k] == T::spec_decode(
                    data@.subrange(k * T::spec_size(), (k + 1) * T::spec_size()),
                ),
        decreases count - i,
    {
        proof {
            assert((i + 1) * size <= count * size) by (nonlinear_arith)
                requires
                    i < count,
                    size >= 1,
            ;
            assert(count * size <= len) by (nonlinear_arith)
                requires
                    count == len / size,
                    size >= 1,
            ;
            assert((i + 1) * size == i * size + size) by (nonlinear_arith);
        }
        let v = T::decode(vstd::slice::slice_subrange(data, i * size, (i + 1) * size));
        r.push(v);
        i = i + 1;
    }
    r
}

/// Checks that position `addr` is aligned for `T`.
fn check_alignment<T: Layout>(addr: usize) -> (r: Result<(), AlignmentError>)
    ensures
        addr as nat % T::spec_align() == 0 ==> r is Ok,
        addr as nat % T::spec_align() != 0 ==> r == Err::<(), AlignmentError>(
            unaligned(addr as nat, T::spec_align()),
        ),
{
    proof {
        T::lemma_align();
    }
    if addr % T::align() != 0 {
        return Err(AlignmentError(AlignmentErrorKind::UnalignedBuffer { addr, align: T::align() }));
    }
    Ok(())
}

} // verus!
