//! Scalar, single-value atoms.
//!
//! A scalar atom's body holds one value of its internal type, padded to 8 bytes. Floating
//! point values are held by their bit patterns (`u32` for [`Float`], `u64` for [`Double`]).
use crate::encoding::{Layout, Pod};
use crate::header::AtomHeader;
use crate::space::aligned::AtomSpace;
use crate::space::allocator::{out_of_space, SpaceAllocator, Whole};
use crate::space::atom_writer::AtomWriter;
use crate::space::error::{AtomReadError, AtomWriteError, UriKind};
use crate::space::model::SpaceView;
use crate::space::reader::out_of_bounds;
use crate::space::writer::{after_aligned_write, SpaceWriter};
use crate::util::{lemma_padding_at_atom_boundary, padding_for};
use core::marker::PhantomData;
use vstd::prelude::*;

verus! {

/// The outcome of reading one value of type `T` from the start of an atom body.
pub open spec fn read_value_result<T: Pod>(body: Seq<u8>) -> Result<T, AtomReadError> {
    if T::spec_size() <= body.len() {
        Ok(T::spec_decode(body.subrange(0, T::spec_size() as int)))
    } else {
        Err(out_of_bounds(body.len(), T::spec_size()))
    }
}

/// The eight bytes that hold a scalar value in an atom body: the value, then zeroes.
pub open spec fn padded_scalar<T: Pod>(value: T) -> Seq<u8> {
    value.spec_encode() + Seq::new((8 - T::spec_size()) as nat, |i: int| 0u8)
}

/// An atom type whose body is a single value.
pub trait ScalarAtom {
    /// The type of the value.
    type InternalType: Pod;

    /// The atom type, as named in errors.
    spec fn spec_kind() -> UriKind;

    fn kind() -> (r: UriKind)
        ensures
            r == Self::spec_kind(),
    ;

    /// Reads the value from the body of an atom.
    ///
    /// # Errors
    ///
    /// Returns [`AtomReadError::ReadingOutOfBounds`] if the body is too short for a value.
    fn read_scalar(body: &AtomSpace) -> (r: Result<Self::InternalType, AtomReadError>)
        requires
            body.wf(),
        ensures
            r == read_value_result::<Self::InternalType>(body.bytes()),
    {
        proof {
            Self::InternalType::lemma_layout();
            lemma_padding_at_atom_boundary(body.addr(), Self::InternalType::spec_align());
        }
        let mut reader = body.read();
        reader.next_value::<Self::InternalType>()
    }

    /// Returns the handle that writes the value of a new atom of this type.
    fn write_scalar<'a, A: SpaceAllocator>(frame: AtomWriter<'a, A>) -> (r: ScalarWriter<
        'a,
        A,
        Self::InternalType,
    >)
        requires
            frame.inv(),
        ensures
            r.inv(),
            r@ == frame@,
            r.frame() == frame,
    {
        ScalarWriter { frame, _type: PhantomData }
    }
}

/// The handle that writes the value of a scalar atom.
pub struct ScalarWriter<'a, A: SpaceAllocator, T> {
    frame: AtomWriter<'a, A>,
    _type: PhantomData<T>,
}

impl<'a, A: SpaceAllocator, T: Pod> ScalarWriter<'a, A, T> {
    /// The state of the atom's writer.
    pub closed spec fn view(&self) -> SpaceView {
        self.frame@
    }

    /// The writer of the atom.
    pub closed spec fn frame(&self) -> AtomWriter<'a, A> {
        self.frame
    }

    /// The state and invariant are those of the atom's writer, and once this writer is no
    /// longer used, neither is the atom's writer.
    pub proof fn lemma_resolved(&self)
        requires
            self.inv(),
        ensures
            self.frame().inv(),
            self.frame()@ == self@,
            has_resolved(*self) ==> has_resolved(self.frame()),
    {
    }

    pub closed spec fn inv(&self) -> bool {
        self.frame.inv()
    }

    /// Writes the value, padded to 8 bytes, and returns its position.
    ///
    /// # Errors
    ///
    /// Returns [`AtomWriteError::OutOfSpace`] if the buffer has no room for the value.
    pub fn set(&mut self, value: T) -> (r: Result<usize, AtomWriteError>)
        requires
            old(self).inv(),
            old(self)@.allocated + 16 <= usize::MAX,
        ensures
            final(self).inv(),
            final(final(self).frame().target()).whole() == final(old(self).frame().target()).whole(),
            match after_aligned_write(old(self)@, 8, 8, padded_scalar(value)) {
                Some(v) => r == Ok::<usize, AtomWriteError>(
                    (old(self)@.allocated + padding_for(old(self)@.allocated, 8)) as usize,
                ) && final(self)@ == v,
                None => r == Err::<usize, AtomWriteError>(
                    out_of_space(old(self)@, padding_for(old(self)@.allocated, 8) + 8),
                ) && final(self)@ == old(self)@,
            },
    {
        proof {
            T::lemma_layout();
            T::lemma_roundtrip(value);
            self.frame.lemma_inv();
        }
        let pos = self.frame.allocate_aligned::<AtomHeader>(8)?;
        let mut bytes = value.encode();
        let mut i: usize = T::size();
        while i < 8
            invariant
                T::spec_size() <= i <= 8,
                bytes@ == value.spec_encode() + Seq::new((i - T::spec_size()) as nat, |k: int| 0u8),
            decreases 8 - i,
        {
            bytes.push(0u8);
            i = i + 1;
            assert(bytes@ =~= value.spec_encode() + Seq::new(
                (i - T::spec_size()) as nat,
                |k: int| 0u8,
            ));
        }
        proof {
            self.frame.lemma_inv();
        }
        self.frame.write_at(pos, bytes.as_slice());
        Ok(pos)
    }
}

/// A 64-bit floating point number, held by its bit pattern.
pub struct Double;

/// A 32-bit floating point number, held by its bit pattern.
pub struct Float;

/// A 64-bit signed integer.
pub struct Long;

/// A 32-bit signed integer.
pub struct Int;

/// A boolean, held as a 32-bit integer (0 is false).
pub struct Bool;

/// A URID.
pub struct AtomURID;

impl ScalarAtom for Double {
    type InternalType = u64;

    open spec fn spec_kind() -> UriKind {
        UriKind::Double
    }

    fn kind() -> UriKind {
        UriKind::Double
    }
}

impl ScalarAtom for Float {
    type InternalType = u32;

    open spec fn spec_kind() -> UriKind {
        UriKind::Float
    }

    fn kind() -> UriKind {
        UriKind::Float
    }
}

impl ScalarAtom for Long {
    type InternalType = i64;

    open spec fn spec_kind() -> UriKind {
        UriKind::Long
    }

    fn kind() -> UriKind {
        UriKind::Long
    }
}

impl ScalarAtom for Int {
    type InternalType = i32;

    open spec fn spec_kind() -> UriKind {
        UriKind::Int
    }

    fn kind() -> UriKind {
        UriKind::Int
    }
}

impl ScalarAtom for Bool {
    type InternalType = i32;

    open spec fn spec_kind() -> UriKind {
        UriKind::Bool
    }

    fn kind() -> UriKind {
        UriKind::Bool
    }
}

impl ScalarAtom for AtomURID {
    type InternalType = u32;

    open spec fn spec_kind() -> UriKind {
        UriKind::Urid
    }

    fn kind() -> UriKind {
        UriKind::Urid
    }
}

} // verus!
