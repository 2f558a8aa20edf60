//! Errors reported while reading or writing atoms.
use vstd::prelude::*;

verus! {

/// The URI-bound types of this library, used to say which type an error is about.
#[derive(Debug, Clone, Copy, PartialEq, Eq)]
pub enum UriKind {
    Blank,
    Double,
    Float,
    Int,
    Long,
    Urid,
    Bool,
    Vector,
    Chunk,
    Literal,
    Object,
    Property,
    String,
    Tuple,
    Sequence,
    Beat,
    Frame,
}

/// The reason an alignment could not be satisfied.
#[derive(Debug, Clone, Copy, PartialEq, Eq)]
pub enum AlignmentErrorKind {
    /// The buffer does not start at a multiple of the required alignment.
    UnalignedBuffer { addr: usize, align: usize },
    /// The buffer is too small to skip the padding that aligns it.
    NotEnoughSpaceToRealign {
        addr: usize,
        align: usize,
        required_padding: usize,
        available_size: usize,
    },
}

/// An alignment error, returned when a byte buffer is unaligned or could not be aligned.
#[derive(Debug, Clone, Copy, PartialEq, Eq)]
pub struct AlignmentError(pub AlignmentErrorKind);

/// Errors that can occur while writing atoms to a byte buffer.
#[derive(Debug, Clone, Copy, PartialEq, Eq)]
pub enum AtomWriteError {
    /// There is not enough space in the buffer for the requested allocation.
    OutOfSpace { used: usize, capacity: usize, requested: usize },
    /// A writer was asked to rewind beyond the amount of already allocated bytes.
    RewindBeyondAllocated { allocated: usize, requested: usize },
    /// A write tried to occur outside of the buffer's bounds.
    WritingOutOfBounds { available: usize, requested: usize },
    /// The requested write would leave the atom in an invalid state.
    WritingIllegalState { writing_type: UriKind },
    /// The buffer could not be aligned for the written value.
    AlignmentError(AlignmentError),
}

/// Errors that can occur while reading atoms from a byte buffer.
#[derive(Debug, Clone, Copy, PartialEq, Eq)]
pub enum AtomReadError {
    /// The atom has a different type than the one expected.
    InvalidAtomUrid { expected: UriKind, expected_urid: u32, found_urid: u32 },
    /// A URID stored in the atom is not the expected one.
    InvalidUrid { expected: UriKind, expected_urid: u32, found_urid: u32 },
    /// The read would go past the end of the buffer.
    ReadingOutOfBounds { available: usize, requested: usize },
    /// The atom's contents are malformed.
    InvalidAtomValue { reading_type: UriKind, error_message: &'static str },
    /// The buffer could not be aligned for the read value.
    AlignmentError(AlignmentError),
}

/// Either a read or a write error.
#[derive(Debug, Clone, Copy, PartialEq, Eq)]
pub enum AtomError {
    ReadError(AtomReadError),
    WriteError(AtomWriteError),
}

impl From<AlignmentError> for AtomWriteError {
    fn from(error: AlignmentError) -> (r: Self) {
        AtomWriteError::AlignmentError(error)
    }
}

impl vstd::std_specs::convert::FromSpecImpl<AlignmentError> for AtomWriteError {
    open spec fn obeys_from_spec() -> bool {
        true
    }

    open spec fn from_spec(v: AlignmentError) -> Self {
        AtomWriteError::AlignmentError(v)
    }
}

impl From<AlignmentError> for AtomReadError {
    fn from(error: AlignmentError) -> (r: Self) {
        AtomReadError::AlignmentError(error)
    }
}

impl vstd::std_specs::convert::FromSpecImpl<AlignmentError> for AtomReadError {
    open spec fn obeys_from_spec() -> bool {
        true
    }

    open spec fn from_spec(v: AlignmentError) -> Self {
        AtomReadError::AlignmentError(v)
    }
}

impl From<AtomReadError> for AtomError {
    fn from(error: AtomReadError) -> (r: Self) {
        AtomError::ReadError(error)
    }
}

impl vstd::std_specs::convert::FromSpecImpl<AtomReadError> for AtomError {
    open spec fn obeys_from_spec() -> bool {
        true
    }

    open spec fn from_spec(v: AtomReadError) -> Self {
        AtomError::ReadError(v)
    }
}

impl From<AtomWriteError> for AtomError {
    fn from(error: AtomWriteError) -> (r: Self) {
        AtomError::WriteError(error)
    }
}

impl vstd::std_specs::convert::FromSpecImpl<AtomWriteError> for AtomError {
    open spec fn obeys_from_spec() -> bool {
        true
    }

    open spec fn from_spec(v: AtomWriteError) -> Self {
        AtomError::WriteError(v)
    }
}

} // verus!
