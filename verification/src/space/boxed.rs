//! Fixed-size, heap-allocated byte buffers whose start is aligned for a given type.
use crate::encoding::{Layout, Pod};
use crate::space::aligned::AlignedSpace;
use crate::space::vec::zeroes;
use crate::util::byte_index_to_value_index;
use core::marker::PhantomData;
use vstd::prelude::*;

verus! {

/// A heap-allocated buffer of whole values of type `T`, seen as bytes, whose length does not
/// change.
pub struct BoxedSpace<T> {
    inner: Vec<u8>,
    _type: PhantomData<T>,
}

impl<T: Pod> BoxedSpace<T> {
    /// The bytes of the buffer.
    pub closed spec fn bytes(&self) -> Seq<u8> {
        self.inner@
    }

    pub open spec fn wf(&self) -> bool {
        self.bytes().len() % T::spec_size() == 0
    }

    /// Creates a zeroed buffer of the fewest whole values of `T` that hold `size` bytes.
    pub fn new_zeroed(size: usize) -> (r: Self)
        requires
            size + 8 <= usize::MAX,
        ensures
            r.wf(),
            r.bytes() == zeroes(
                ((size as int / T::spec_size() as int + if size as int % T::spec_size() as int
                    > 0 {
                    1int
                } else {
                    0int
                }) * T::spec_size()) as nat,
            ),
    {
        proof {
            T::lemma_layout();
        }
        let values = byte_index_to_value_index::<T>(size);
        let type_size = T::size();
        proof {
            vstd::arithmetic::div_mod::lemma_fundamental_div_mod(size as int, type_size as int);
            assert(values * type_size <= size + 8) by (nonlinear_arith)
                requires
                    size == type_size * (size as int / type_size as int) + size as int % type_size as int,
                    0 <= size as int % type_size as int,
                    1 <= type_size <= 8,
                    values == size as int / type_size as int + if size as int % type_size as int > 0 {
                        1int
                    } else {
                        0int
                    },
            ;
            vstd::arithmetic::div_mod::lemma_mod_multiples_basic(values as int, type_size as int);
        }
        let n = values * type_size;
        let inner = vec![0u8; n];
        assert(inner@ =~= zeroes(n as nat));
        BoxedSpace { inner, _type: PhantomData }
    }

    /// Takes a buffer of whole values.
    pub(crate) fn from_bytes(inner: Vec<u8>) -> (r: Self)
        requires
            inner@.len() % T::spec_size() == 0,
        ensures
            r.wf(),
            r.bytes() == inner@,
    {
        BoxedSpace { inner, _type: PhantomData }
    }

    /// The buffer as an aligned space, starting at position 0.
    pub fn as_space(&self) -> (r: AlignedSpace<'_, T>)
        ensures
            r.wf(),
            r.bytes() == self.bytes(),
            r.addr() == 0,
    {
        proof {
            T::lemma_layout();
        }
        let _ = self.inner.len();
        AlignedSpace::from_bytes_unchecked(self.inner.as_slice(), 0)
    }

    /// The bytes of the buffer.
    pub fn as_bytes(&self) -> (r: &[u8])
        ensures
            r@ == self.bytes(),
    {
        self.inner.as_slice()
    }

    /// The bytes of the buffer, to be modified in place.
    pub fn as_bytes_mut(&mut self) -> (r: &mut [u8])
        ensures
            r@ == old(self).bytes(),
            final(self).bytes() == final(r)@,
    {
        self.inner.as_mut_slice()
    }
}

} // verus!
