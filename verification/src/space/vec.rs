//! A growable, heap-allocated byte buffer whose start is aligned for a given type.
use crate::encoding::{encode_all, encode_values, lemma_encode_all_len, Pod, Layout};
use crate::space::aligned::{decode_values, AlignedSpace};
use crate::space::allocator::{SpaceAllocator, SpaceWriterSplitAllocation, Whole};
use crate::space::boxed::BoxedSpace;
use crate::space::error::AtomWriteError;
use crate::space::model::{round_up, splice, SpaceView};
use crate::util::byte_index_to_value_index;
use core::marker::PhantomData;
use vstd::prelude::*;

verus! {

/// The bytes of `len` zeroes.
pub open spec fn zeroes(len: nat) -> Seq<u8> {
    Seq::new(len, |i: int| 0u8)
}

/// The bytes of `old` resized to `len`: truncated, or extended with zeroes.
pub open spec fn resized(old: Seq<u8>, len: nat) -> Seq<u8> {
    if len <= old.len() {
        old.subrange(0, len as int)
    } else {
        old + zeroes((len - old.len()) as nat)
    }
}

/// A heap-allocated, growable buffer of whole values of type `T`, seen as bytes.
///
/// The buffer always holds a whole number of values, so its length in bytes is a multiple of
/// the size of `T`. Its first byte is the origin of every position computed in it, and is
/// aligned for `T`.
pub struct AlignedVec<T> {
    inner: Vec<u8>,
    _type: PhantomData<T>,
}

impl<T: Pod> Default for AlignedVec<T> {
    /// An empty buffer.
    fn default() -> (r: Self)
        ensures
            r.wf(),
            r.bytes() == Seq::<u8>::empty(),
    {
        Self::new()
    }
}

impl<T: Pod> Clone for AlignedVec<T> {
    /// A buffer with the same bytes.
    fn clone(&self) -> (r: Self)
        ensures
            r.bytes() == self.bytes(),
    {
        let inner = self.inner.clone();
        assert(inner@ =~= self.inner@);
        AlignedVec { inner, _type: PhantomData }
    }
}

impl<T: Pod> AlignedVec<T> {
    /// The bytes of the buffer.
    pub closed spec fn bytes(&self) -> Seq<u8> {
        self.inner@
    }

    pub open spec fn wf(&self) -> bool {
        &&& self.bytes().len() % T::spec_size() == 0
        &&& self.bytes().len() <= usize::MAX
    }

    /// Creates a new, empty buffer.
    pub fn new() -> (r: Self)
        ensures
            r.wf(),
            r.bytes() == Seq::<u8>::empty(),
    {
        proof {
            T::lemma_layout();
            vstd::arithmetic::div_mod::lemma_small_mod(0, T::spec_size());
        }
        AlignedVec { inner: Vec::new(), _type: PhantomData }
    }

    /// Creates a new buffer of `capacity` zeroed values.
    pub fn new_with_capacity(capacity: usize) -> (r: Self)
        requires
            capacity * T::spec_size() <= usize::MAX,
        ensures
            r.wf(),
            r.bytes() == zeroes((capacity * T::spec_size()) as nat),
    {
        proof {
            T::lemma_layout();
            vstd::arithmetic::div_mod::lemma_mod_multiples_basic(
                capacity as int,
                T::spec_size() as int,
            );
        }
        let n = capacity * T::size();
        let inner = vec![0u8; n];
        assert(inner@ =~= zeroes(n as nat));
        AlignedVec { inner, _type: PhantomData }
    }

    /// Resizes the buffer to `new_len` values, truncating it or adding zeroed values.
    pub fn resize(&mut self, new_len: usize)
        requires
            old(self).wf(),
            new_len * T::spec_size() <= usize::MAX,
        ensures
            final(self).wf(),
            final(self).bytes() == resized(old(self).bytes(), (new_len * T::spec_size()) as nat),
    {
        proof {
            T::lemma_layout();
            vstd::arithmetic::div_mod::lemma_mod_multiples_basic(
                new_len as int,
                T::spec_size() as int,
            );
        }
        let n = new_len * T::size();
        self.inner.resize(n, 0u8);
        assert(self.inner@ =~= resized(old(self).bytes(), n as nat));
    }

    /// The buffer as an aligned space, starting at position 0.
    pub fn as_space(&self) -> (r: AlignedSpace<'_, T>)
        requires
            self.wf(),
        ensures
            r.wf(),
            r.bytes() == self.bytes(),
            r.addr() == 0,
    {
        proof {
            T::lemma_layout();
        }
        let _ = self.inner.len();
        AlignedSpace::from_bytes_unchecked(self.inner.as_slice(), 0)
    }

    /// The bytes of the buffer.
    pub fn as_bytes(&self) -> (r: &[u8])
        ensures
            r@ == self.bytes(),
    {
        self.inner.as_slice()
    }

    /// The bytes of the buffer, to be modified in place.
    pub fn as_bytes_mut(&mut self) -> (r: &mut [u8])
        ensures
            r@ == old(self).bytes(),
            final(self).bytes() == final(r)@,
    {
        self.inner.as_mut_slice()
    }

    /// Makes the bytes `start..end` available, growing the buffer by whole zeroed values if
    /// it is shorter than `end`.
    ///
    /// # Errors
    ///
    /// Returns [`AtomWriteError::OutOfSpace`] if the grown buffer would not be addressable.
    fn reallocate_bytes_mut(&mut self, start: usize, end: usize) -> (r: Result<
        SpaceWriterSplitAllocation,
        AtomWriteError,
    >)
        requires
            old(self).wf(),
            start <= end,
        ensures
            final(self).wf(),
            ({
                let v = SpaceView {
                    bytes: old(self).bytes(),
                    allocated: start as nat,
                    headers: seq![],
                    grow_unit: T::spec_size(),
                };
                match v.grow(end as nat) {
                    Some(g) => r == Ok::<SpaceWriterSplitAllocation, AtomWriteError>(
                        SpaceWriterSplitAllocation { previous: start, allocated: (end - start) as usize },
                    ) && final(self).bytes() == g,
                    None => r == Err::<SpaceWriterSplitAllocation, AtomWriteError>(
                        AtomWriteError::OutOfSpace {
                            used: start,
                            capacity: old(self).bytes().len() as usize,
                            requested: (end - start) as usize,
                        },
                    ) && final(self).bytes() == old(self).bytes(),
                }
            }),
    {
        proof {
            T::lemma_layout();
        }
        let byte_len = self.inner.len();
        if end > byte_len {
            let size = T::size();
            let new_size = byte_index_to_value_index::<T>(end);
            proof {
                let q = end as int / size as int;
                let m = end as int % size as int;
                vstd::arithmetic::div_mod::lemma_fundamental_div_mod(end as int, size as int);
                assert(new_size * size == round_up(end as nat, size as nat)) by (nonlinear_arith)
                    requires
                        end == size * q + m,
                        0 <= m < size,
                        new_size == q + if m > 0 {
                            1int
                        } else {
                            0int
                        },
                        round_up(end as nat, size as nat) == if end as int % size as int == 0 {
                            end as int
                        } else {
                            end - end as int % size as int + size
                        },
                        m == end as int % size as int,
                ;
            }
            match new_size.checked_mul(size) {
                None => {
                    return Err(
                        AtomWriteError::OutOfSpace {
                            used: start,
                            capacity: byte_len,
                            requested: end - start,
                        },
                    );
                },
                Some(n) => {
                    proof {
                        vstd::arithmetic::div_mod::lemma_mod_multiples_basic(
                            new_size as int,
                            size as int,
                        );
                    }
                    self.inner.resize(n, 0u8);
                    assert(self.inner@ =~= old(self).bytes() + Seq::new(
                        (n - byte_len) as nat,
                        |i: int| 0u8,
                    ));
                },
            }
        }
        Ok(SpaceWriterSplitAllocation { previous: start, allocated: end - start })
    }

    /// A writer that allocates the buffer from its start, growing it as needed.
    pub fn write(&mut self) -> (r: AlignedVecCursor<'_, T>)
        requires
            old(self).wf(),
        ensures
            r.inv(),
            final(r.target()).whole() == final(self).bytes(),
            r@ == (SpaceView {
                bytes: old(self).bytes(),
                allocated: 0,
                headers: seq![],
                grow_unit: T::spec_size(),
            }),
    {
        AlignedVecCursor { vec: self, allocated_length: 0 }
    }

    /// Turns the buffer into a fixed-size boxed space.
    pub fn into_boxed_space(self) -> (r: BoxedSpace<T>)
        requires
            self.wf(),
        ensures
            r.wf(),
            r.bytes() == self.bytes(),
    {
        BoxedSpace::from_bytes(self.inner)
    }

    /// The values held by the buffer.
    pub fn into_vec(self) -> (r: Vec<T>)
        requires
            self.wf(),
        ensures
            r@.len() == self.bytes().len() / T::spec_size(),
            encode_all(r@) == self.bytes(),
    {
        let values = decode_values::<T>(self.inner.as_slice());
        proof {
            lemma_decode_encode_all::<T>(self.bytes(), values@);
        }
        values
    }

    /// Creates a buffer that holds the given values.
    pub fn from_vec(vec: Vec<T>) -> (r: Self)
        requires
            vec@.len() * T::spec_size() <= usize::MAX,
        ensures
            r.wf(),
            r.bytes() == encode_all(vec@),
    {
        proof {
            T::lemma_layout();
            lemma_encode_all_len(vec@);
            vstd::arithmetic::div_mod::lemma_mod_multiples_basic(
                vec@.len() as int,
                T::spec_size() as int,
            );
        }
        AlignedVec { inner: encode_values(vec.as_slice()), _type: PhantomData }
    }
}

/// Decoding all values of a buffer whose length is a multiple of the value size, and encoding
/// them again, gives the buffer back.
proof fn lemma_decode_encode_all<T: Pod>(bytes: Seq<u8>, values: Seq<T>)
    requires
        bytes.len() % T::spec_size() == 0,
        values.len() == bytes.len() / T::spec_size(),
        forall|i: int|
            0 <= i < values.len() ==> #[trigger] values[i] == T::spec_decode(
                bytes.subrange(i * T::spec_size(), (i + 1) * T::spec_size()),
            ),
    ensures
        encode_all(values) == bytes,
    decreases values.len(),
{
    T::lemma_layout();
    let size = T::spec_size();
    if values.len() == 0 {
        assert(bytes.len() == 0) by (nonlinear_arith)
            requires
                bytes.len() % size == 0,
                bytes.len() / size == 0,
                size >= 1,
        ;
        assert(bytes =~= seq![]);
    } else {
        let n = values.len();
        let last = (n - 1) * size;
        assert(bytes.len() == n * size) by (nonlinear_arith)
            requires
                bytes.len() % size == 0,
                n == bytes.len() / size,
                size >= 1,
        ;
        assert(last + size == n * size) by (nonlinear_arith)
            requires
                last == (n - 1) * size,
        ;
        assert(0 <= last) by (nonlinear_arith)
            requires
                n >= 1,
                last == (n - 1) * size,
        ;
        let front = bytes.subrange(0, last);
        assert(front.len() % size == 0 && front.len() / size == n - 1) by (nonlinear_arith)
            requires
                front.len() == (n - 1) * size,
                size >= 1,
                n >= 1,
        {
            vstd::arithmetic::div_mod::lemma_mod_multiples_basic(n - 1, size as int);
            vstd::arithmetic::div_mod::lemma_div_multiples_vanish(n - 1, size as int);
        }
        assert forall|i: int| 0 <= i < n - 1 implies #[trigger] values.drop_last()[i]
            == T::spec_decode(front.subrange(i * size, (i + 1) * size)) by {
            assert((i + 1) * size <= (n - 1) * size) by (nonlinear_arith)
                requires
                    i < n - 1,
                    size >= 1,
            ;
            assert(0 <= i * size && (i + 1) * size == i * size + size) by (nonlinear_arith)
                requires
                    0 <= i,
            ;
            assert(front.subrange(i * size, (i + 1) * size) =~= bytes.subrange(
                i * size,
                (i + 1) * size,
            ));
        }
        lemma_decode_encode_all::<T>(front, values.drop_last());
        let tail = bytes.subrange(last, (n * size) as int);
        assert(values[n - 1] == T::spec_decode(tail));
        lemma_encode_decode::<T>(tail);
        assert(bytes =~= front + tail);
    }
}

/// For a type whose every byte pattern of the right size is a value, encoding the decoded
/// value gives the bytes back.
proof fn lemma_encode_decode<T: Pod>(bytes: Seq<u8>)
    requires
        bytes.len() == T::spec_size(),
    ensures
        T::spec_decode(bytes).spec_encode() == bytes,
{
    T::lemma_bytes_roundtrip(bytes);
}

/// A writer that allocates an [`AlignedVec`] from its start, growing it by whole zeroed values
/// when an allocation needs room.
pub struct AlignedVecCursor<'vec, T> {
    vec: &'vec mut AlignedVec<T>,
    allocated_length: usize,
}

impl<'vec, T: Pod> Whole for AlignedVecCursor<'vec, T> {
    type W = Self;

    open spec fn whole(&self) -> Self {
        *self
    }
}

impl<'vec, T: Pod> AlignedVecCursor<'vec, T> {
    /// Once the cursor is no longer used, its buffer is left holding the cursor's bytes.
    pub proof fn lemma_resolved(&self)
        requires
            self.inv(),
        ensures
            has_resolved(*self) ==> final(self.target()).whole() == self@.bytes,
            self@.headers.len() == 0,
            self@.grow_unit == T::spec_size(),
    {
    }
}

impl<T: Pod> Whole for AlignedVec<T> {
    type W = Seq<u8>;

    open spec fn whole(&self) -> Seq<u8> {
        self.bytes()
    }
}

impl<'vec, T: Pod> SpaceAllocator for AlignedVecCursor<'vec, T> {
    closed spec fn view(&self) -> SpaceView {
        SpaceView {
            bytes: self.vec.bytes(),
            allocated: self.allocated_length as nat,
            headers: seq![],
            grow_unit: T::spec_size(),
        }
    }

    closed spec fn inv(&self) -> bool {
        &&& self.vec.wf()
        &&& self.allocated_length <= self.vec.bytes().len()
    }

    proof fn lemma_whole(&self) {
    }

    proof fn lemma_inv(&self) {
    }

    type Target = AlignedVec<T>;

    closed spec fn target(&self) -> &mut AlignedVec<T> {
        self.vec
    }

    open spec fn can_allocate(&self, size: nat) -> bool {
        self@.allocated + size <= usize::MAX
    }

    proof fn lemma_can_allocate(&self, size: nat) {
    }

    fn allocate_and_split(&mut self, size: usize) -> (r: Result<
        SpaceWriterSplitAllocation,
        AtomWriteError,
    >) {
        let end = self.allocated_length + size;
        let result = self.vec.reallocate_bytes_mut(self.allocated_length, end);
        if result.is_ok() {
            self.allocated_length = end;
        }
        result
    }

    fn rewind(&mut self, byte_count: usize) -> (r: Result<(), AtomWriteError>) {
        if self.allocated_length < byte_count {
            return Err(
                AtomWriteError::RewindBeyondAllocated {
                    requested: byte_count,
                    allocated: self.allocated_length,
                },
            );
        }
        self.allocated_length = self.allocated_length - byte_count;
        Ok(())
    }

    fn allocated_bytes(&self) -> (r: &[u8]) {
        vstd::slice::slice_subrange(self.vec.inner.as_slice(), 0, self.allocated_length)
    }

    fn remaining_bytes(&self) -> (r: &[u8]) {
        vstd::slice::slice_subrange(
            self.vec.inner.as_slice(),
            self.allocated_length,
            self.vec.inner.len(),
        )
    }

    fn write_at(&mut self, pos: usize, data: &[u8]) {
        let mut i: usize = 0;
        while i < data.len()
            invariant
                self.allocated_length == old(self).allocated_length,
                pos + data@.len() <= old(self).allocated_length <= old(self).vec.bytes().len(),
                0 <= i <= data@.len(),
                self.vec.bytes() == splice(
                    old(self).vec.bytes(),
                    pos as int,
                    data@.subrange(0, i as int),
                ),
                final(self.target()).whole() == final(old(self).target()).whole(),
            decreases data@.len() - i,
        {
            self.vec.inner.set(pos + i, data[i]);
            i = i + 1;
            assert(self.vec.bytes() =~= splice(
                old(self).vec.bytes(),
                pos as int,
                data@.subrange(0, i as int),
            ));
        }
        assert(data@.subrange(0, data@.len() as int) =~= data@);
    }
}

} // verus!
