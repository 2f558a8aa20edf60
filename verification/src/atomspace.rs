//! A read-only space of atoms that hands out consecutive, 8-byte aligned pieces.
use crate::encoding::{Layout, Pod};
use crate::util::{lemma_padding, padding_for};
use vstd::prelude::*;

verus! {

/// A slice of bytes at an 8-byte aligned position, from which consecutive pieces are taken.
///
/// After each piece, the space skips the padding up to the next multiple of 8 bytes; if the
/// padding does not fit, the space is exhausted.
pub struct AtomSpace<'a> {
    data: Option<&'a [u8]>,
    addr: usize,
}

impl<'a> AtomSpace<'a> {
    /// The remaining bytes, or `None` once the space is exhausted.
    pub closed spec fn data(&self) -> Option<Seq<u8>> {
        match self.data {
            Some(d) => Some(d@),
            None => None,
        }
    }

    /// The position of the first remaining byte.
    pub closed spec fn addr(&self) -> nat {
        self.addr as nat
    }

    pub open spec fn wf(&self) -> bool {
        &&& self.addr() % 8 == 0
        &&& self.data() matches Some(d) ==> self.addr() + d.len() <= usize::MAX
    }

    /// Creates a space over the given bytes, whose first byte is at the 8-byte aligned
    /// position `addr`.
    pub fn new(data: &'a [u8], addr: usize) -> (r: Self)
        requires
            addr % 8 == 0,
            addr + data@.len() <= usize::MAX,
        ensures
            r.wf(),
            r.data() == Some(data@),
            r.addr() == addr,
    {
        AtomSpace { data: Some(data), addr }
    }

    /// Takes the next `size` bytes, then skips the padding to the next multiple of 8 bytes.
    ///
    /// Returns `None`, leaving the space as it is, if the space is exhausted or shorter than
    /// `size`. The space is exhausted afterwards if the padding does not fit.
    pub fn retrieve_raw(&mut self, size: usize) -> (r: Option<&'a [u8]>)
        requires
            old(self).wf(),
        ensures
            final(self).wf(),
            match old(self).data() {
                Some(d) if size <= d.len() => {
                    let pad = padding_for(size as nat, 8);
                    &&& r matches Some(piece) && piece@ == d.subrange(0, size as int)
                    &&& final(self).data() == if size + pad <= d.len() {
                        Some(d.subrange(size + pad, d.len() as int))
                    } else {
                        None::<Seq<u8>>
                    }
                    &&& size + pad <= d.len() ==> final(self).addr() == old(self).addr() + size + pad
                },
                _ => r is None && final(self).data() == old(self).data() && final(self).addr() == old(self).addr(),
            },
    {
        let data = match self.data {
            Some(data) => data,
            None => {
                return None;
            },
        };
        if size > data.len() {
            return None;
        }
        let lower_space = vstd::slice::slice_subrange(data, 0, size);
        let upper_len = data.len() - size;
        let padding = if size % 8 == 0 {
            0
        } else {
            8 - size % 8
        };
        proof {
            lemma_padding(size as nat, 8);
        }
        if padding <= upper_len {
            self.data = Some(vstd::slice::slice_subrange(data, size + padding, data.len()));
            proof {
                assert((self.addr + size + padding) % 8 == 0) by (nonlinear_arith)
                    requires
                        self.addr % 8 == 0,
                        (size + padding) % 8 == 0,
                ;
            }
            self.addr = self.addr + size + padding;
        } else {
            self.data = None;
        }
        Some(lower_space)
    }

    /// Takes the next `size` bytes as a space of their own, like [`AtomSpace::retrieve_raw`].
    pub fn retrieve_space(&mut self, size: usize) -> (r: Option<Self>)
        requires
            old(self).wf(),
        ensures
            final(self).wf(),
            match old(self).data() {
                Some(d) if size <= d.len() => {
                    let pad = padding_for(size as nat, 8);
                    &&& r matches Some(s) && s.wf() && s.data() == Some(d.subrange(0, size as int))
                        && s.addr() == old(self).addr()
                    &&& final(self).data() == if size + pad <= d.len() {
                        Some(d.subrange(size + pad, d.len() as int))
                    } else {
                        None::<Seq<u8>>
                    }
                    &&& size + pad <= d.len() ==> final(self).addr() == old(self).addr() + size + pad
                },
                _ => r is None && final(self).data() == old(self).data() && final(self).addr() == old(self).addr(),
            },
    {
        let addr = self.addr;
        let space = self.retrieve_raw(size)?;
        Some(AtomSpace::new(space, addr))
    }

    /// Reads a value of type `T` from the next bytes, like [`AtomSpace::retrieve_raw`].
    pub fn retrieve_type<T: Pod>(&mut self) -> (r: Option<T>)
        requires
            old(self).wf(),
        ensures
            final(self).wf(),
            match old(self).data() {
                Some(d) if T::spec_size() <= d.len() => {
                    let pad = padding_for(T::spec_size(), 8);
                    &&& r == Some(T::spec_decode(d.subrange(0, T::spec_size() as int)))
                    &&& final(self).data() == if T::spec_size() + pad <= d.len() {
                        Some(d.subrange((T::spec_size() + pad) as int, d.len() as int))
                    } else {
                        None::<Seq<u8>>
                    }
                },
                _ => r is None && final(self).data() == old(self).data(),
            },
    {
        proof {
            T::lemma_layout();
        }
        let space = self.retrieve_raw(T::size())?;
        Some(T::decode(space))
    }
}

} // verus!
