//! An atom containing an array of scalar atom bodies.
use crate::atoms::bodies::VectorBody;
use crate::atoms::scalar::{read_value_result, ScalarAtom};
use crate::encoding::{encode_all, Pod, Layout};
use crate::space::aligned::AtomSpace;
use crate::space::allocator::{out_of_space, SpaceAllocator, Whole};
use crate::space::atom_writer::AtomWriter;
use crate::space::error::{AtomReadError, AtomWriteError, UriKind};
use crate::space::model::{after_alloc, SpaceView};
use crate::space::reader::SpaceReader;
use crate::space::writer::{after_aligned_write, aligned_out_of_space, SpaceWriter};
use crate::util::{lemma_padding_at_atom_boundary, padding_for};
use core::marker::PhantomData;
use vstd::prelude::*;

verus! {

/// All whole values of type `T` stored one after the other at the start of `bytes`.
pub open spec fn decode_all<T: Pod>(bytes: Seq<u8>) -> Seq<T> {
    Seq::new(
        (bytes.len() as int / T::spec_size() as int) as nat,
        |i: int| T::spec_decode(bytes.subrange(i * T::spec_size(), (i + 1) * T::spec_size())),
    )
}

/// The outcome of reading the children of a vector as values of the scalar type `C`, whose
/// URID is `atom_type`: the vector's header must name that type and its size.
pub open spec fn vector_children_result<C: ScalarAtom>(
    header: VectorBody,
    children: Seq<u8>,
    atom_type: u32,
) -> Result<Seq<C::InternalType>, AtomReadError> {
    if header.child_type != atom_type {
        if header.child_type == 0 {
            Err(
                AtomReadError::InvalidAtomValue {
                    reading_type: UriKind::Vector,
                    error_message: "Invalid child type URID (0)",
                },
            )
        } else {
            Err(
                AtomReadError::InvalidAtomUrid {
                    expected: C::spec_kind(),
                    expected_urid: atom_type,
                    found_urid: header.child_type,
                },
            )
        }
    } else if header.child_size != C::InternalType::spec_size() {
        Err(
            AtomReadError::InvalidAtomValue {
                reading_type: UriKind::Vector,
                error_message: "child_size value does not match actual size of type",
            },
        )
    } else {
        Ok(decode_all::<C::InternalType>(children))
    }
}

/// An atom containing an array of scalar atom bodies, all of one type.
pub struct Vector;

impl Vector {
    /// Reads the header of a vector and returns a reader for its children.
    ///
    /// # Errors
    ///
    /// Returns [`AtomReadError::ReadingOutOfBounds`] if the body is too short for the header.
    pub fn read<'a>(body: &AtomSpace<'a>) -> (r: Result<VectorReader<'a>, AtomReadError>)
        requires
            body.wf(),
        ensures
            match read_value_result::<VectorBody>(body.bytes()) {
                Ok(h) => (r matches Ok(v) && v.wf() && v.header() == h && v.children()
                    == body.bytes().subrange(8, body.bytes().len() as int) && v.addr()
                    == body.addr() + 8),
                Err(e) => r == Err::<VectorReader<'a>, AtomReadError>(e),
            },
    {
        proof {
            lemma_padding_at_atom_boundary(body.addr(), 4);
        }
        let mut reader = body.read();
        let header = reader.next_value::<VectorBody>()?;
        Ok(VectorReader { reader, header })
    }

    /// Returns the handle that writes a new vector: it first asks for the children's type.
    pub fn write<'a, A: SpaceAllocator>(frame: AtomWriter<'a, A>) -> (r: Result<
        VectorTypeWriter<'a, A>,
        AtomWriteError,
    >)
        requires
            frame.inv(),
        ensures
            r matches Ok(w) && w.inv() && w@ == frame@ && w.frame() == frame,
    {
        Ok(VectorTypeWriter { writer: frame })
    }
}

/// The reader of a vector's children.
pub struct VectorReader<'a> {
    reader: SpaceReader<'a>,
    header: VectorBody,
}

impl<'a> VectorReader<'a> {
    /// The header of the vector.
    pub closed spec fn header(&self) -> VectorBody {
        self.header
    }

    /// The bytes of the children.
    pub closed spec fn children(&self) -> Seq<u8> {
        self.reader.bytes()
    }

    /// The position of the first child.
    pub closed spec fn addr(&self) -> nat {
        self.reader.addr()
    }

    pub open spec fn wf(&self) -> bool {
        &&& self.addr() % 8 == 0
        &&& self.addr() + self.children().len() <= usize::MAX
    }

    /// Reads the children as values of the scalar type `C`, whose URID is `atom_type`.
    ///
    /// # Errors
    ///
    /// Returns [`AtomReadError::InvalidAtomUrid`] if the vector holds another type, and
    /// [`AtomReadError::InvalidAtomValue`] if its child type is 0 or its child size is not the
    /// size of `C`'s values.
    pub fn of_type<C: ScalarAtom>(self, atom_type: u32) -> (r: Result<
        Vec<C::InternalType>,
        AtomReadError,
    >)
        requires
            self.wf(),
            atom_type != 0,
        ensures
            match vector_children_result::<C>(self.header(), self.children(), atom_type) {
                Ok(values) => (r matches Ok(v) && v@ == values),
                Err(e) => r == Err::<Vec<C::InternalType>, AtomReadError>(e),
            },
    {
        if self.header.child_type != atom_type {
            if self.header.child_type == 0 {
                return Err(
                    AtomReadError::InvalidAtomValue {
                        reading_type: UriKind::Vector,
                        error_message: "Invalid child type URID (0)",
                    },
                );
            }
            return Err(
                AtomReadError::InvalidAtomUrid {
                    expected: C::kind(),
                    expected_urid: atom_type,
                    found_urid: self.header.child_type,
                },
            );
        }
        proof {
            C::InternalType::lemma_layout();
        }
        if self.header.child_size as usize != C::InternalType::size() {
            return Err(
                AtomReadError::InvalidAtomValue {
                    reading_type: UriKind::Vector,
                    error_message: "child_size value does not match actual size of type",
                },
            );
        }
        proof {
            lemma_padding_at_atom_boundary(self.addr(), C::InternalType::spec_align());
        }
        match self.reader.as_slice::<C::InternalType>() {
            Ok(values) => {
                proof {
                    let size = C::InternalType::spec_size();
                    assert(values@ =~= decode_all::<C::InternalType>(self.children())) by {
                        assert(self.children().subrange(0, self.children().len() as int)
                            =~= self.children());
                    }
                }
                Ok(values)
            },
            Err(e) => Err(AtomReadError::AlignmentError(e)),
        }
    }

    /// The number of whole children, or 0 if the child size is 0.
    pub open spec fn child_count(&self) -> nat {
        if self.header().child_size == 0 {
            0
        } else {
            self.children().len() / (self.header().child_size as nat)
        }
    }

    /// The number of children, or 0 if the child size is 0.
    pub fn len(&self) -> (r: usize)
        ensures
            r == self.child_count(),
    {
        let size = self.header.child_size as usize;
        match self.reader.remaining_bytes().len().checked_div(size) {
            Some(n) => n,
            None => 0,
        }
    }

    /// Whether the vector has no children.
    pub fn is_empty(&self) -> (r: bool)
        ensures
            r == (self.child_count() == 0),
    {
        self.len() == 0
    }
}

/// The handle that writes a new vector, before the type of its children is known.
pub struct VectorTypeWriter<'a, A: SpaceAllocator> {
    writer: AtomWriter<'a, A>,
}

impl<'a, A: SpaceAllocator> VectorTypeWriter<'a, A> {
    /// The state of the atom's writer.
    pub closed spec fn view(&self) -> SpaceView {
        self.writer@
    }

    /// The writer of the atom.
    pub closed spec fn frame(&self) -> AtomWriter<'a, A> {
        self.writer
    }

    /// The state and invariant are those of the atom's writer, and once this writer is no
    /// longer used, neither is the atom's writer.
    pub proof fn lemma_resolved(&self)
        requires
            self.inv(),
        ensures
            self.frame().inv(),
            self.frame()@ == self@,
            has_resolved(*self) ==> has_resolved(self.frame()),
    {
    }

    pub closed spec fn inv(&self) -> bool {
        self.writer.inv()
    }

    /// Writes the vector's header for children of the scalar type `C`, whose URID is
    /// `atom_type`, and returns the writer of the children.
    ///
    /// # Errors
    ///
    /// Returns [`AtomWriteError::OutOfSpace`] if the buffer has no room for the header.
    pub fn of_type<C: ScalarAtom>(self, atom_type: u32) -> (r: Result<
        VectorWriter<'a, A, C>,
        AtomWriteError,
    >)
        requires
            self.inv(),
            self@.allocated + 16 <= usize::MAX,
        ensures
            match after_aligned_write(
                self@,
                4,
                8,
                (VectorBody {
                    child_size: C::InternalType::spec_size() as u32,
                    child_type: atom_type,
                }).spec_encode(),
            ) {
                Some(v) => (r matches Ok(w) && w.inv() && w@ == v && final(w.frame().target()).whole()
                    == final(self.frame().target()).whole()),
                None => (r matches Err(e) && e == aligned_out_of_space(self@, 4, 8)) && ({
                    let p = final(self.frame().target()).whole();
                    &&& p.inv()
                    &&& p@ == (SpaceView { headers: self@.headers.drop_last(), ..self@ })
                }),
            },
    {
        proof {
            C::InternalType::lemma_layout();
        }
        let mut writer = self.writer;
        let body = VectorBody { child_size: C::InternalType::size() as u32, child_type: atom_type };
        match writer.write_value(body) {
            Ok(_) => {},
            Err(e) => {
                proof {
                    writer.lemma_resolved();
                }
                return Err(e);
            },
        }
        Ok(VectorWriter { writer, _type: PhantomData })
    }
}

/// The writer of a vector's children, values of the scalar type `C`.
pub struct VectorWriter<'a, A: SpaceAllocator, C> {
    writer: AtomWriter<'a, A>,
    _type: PhantomData<C>,
}

impl<'a, A: SpaceAllocator, C: ScalarAtom> VectorWriter<'a, A, C> {
    /// The state of the atom's writer.
    pub closed spec fn view(&self) -> SpaceView {
        self.writer@
    }

    /// The writer of the atom.
    pub closed spec fn frame(&self) -> AtomWriter<'a, A> {
        self.writer
    }

    /// The state and invariant are those of the atom's writer, and once this writer is no
    /// longer used, neither is the atom's writer.
    pub proof fn lemma_resolved(&self)
        requires
            self.inv(),
        ensures
            self.frame().inv(),
            self.frame()@ == self@,
            has_resolved(*self) ==> has_resolved(self.frame()),
    {
    }

    pub closed spec fn inv(&self) -> bool {
        self.writer.inv()
    }

    /// Appends one child and returns its position.
    ///
    /// # Errors
    ///
    /// Returns [`AtomWriteError::OutOfSpace`] if the buffer has no room for it.
    pub fn push(&mut self, child: C::InternalType) -> (r: Result<usize, AtomWriteError>)
        requires
            old(self).inv(),
            old(self)@.allocated + 16 <= usize::MAX,
        ensures
            final(self).inv(),
            final(final(self).frame().target()).whole() == final(old(self).frame().target()).whole(),
            match after_aligned_write(
                old(self)@,
                C::InternalType::spec_align(),
                C::InternalType::spec_size(),
                child.spec_encode(),
            ) {
                Some(v) => r == Ok::<usize, AtomWriteError>(
                    (old(self)@.allocated + padding_for(
                        old(self)@.allocated,
                        C::InternalType::spec_align(),
                    )) as usize,
                ) && final(self)@ == v,
                None => r == Err::<usize, AtomWriteError>(
                    aligned_out_of_space(
                        old(self)@,
                        C::InternalType::spec_align(),
                        C::InternalType::spec_size(),
                    ),
                ) && final(self)@ == old(self)@,
            },
    {
        self.writer.write_value(child)
    }

    /// Allocates room for `count` children, without writing them, and returns the position of
    /// the first.
    ///
    /// # Errors
    ///
    /// Returns [`AtomWriteError::OutOfSpace`] if the buffer has no room for them.
    pub fn allocate_uninit(&mut self, count: usize) -> (r: Result<usize, AtomWriteError>)
        requires
            old(self).inv(),
            old(self)@.allocated + count * C::InternalType::spec_size() + 8 <= usize::MAX,
        ensures
            final(self).inv(),
            final(final(self).frame().target()).whole() == final(old(self).frame().target()).whole(),
            ({
                let pad = padding_for(old(self)@.allocated, C::InternalType::spec_align());
                match after_alloc(
                    old(self)@,
                    (pad + count * C::InternalType::spec_size()) as nat,
                ) {
                    Some(v) => r == Ok::<usize, AtomWriteError>(
                        (old(self)@.allocated + pad) as usize,
                    ) && final(self)@ == v,
                    None => r == Err::<usize, AtomWriteError>(
                        out_of_space(
                            old(self)@,
                            (pad + count * C::InternalType::spec_size()) as nat,
                        ),
                    ) && final(self)@ == old(self)@,
                }
            }),
    {
        self.writer.allocate_values::<C::InternalType>(count)
    }

    /// Appends the given children and returns the position of the first.
    ///
    /// # Errors
    ///
    /// Returns [`AtomWriteError::OutOfSpace`] if the buffer has no room for them.
    pub fn append(&mut self, data: &[C::InternalType]) -> (r: Result<usize, AtomWriteError>)
        requires
            old(self).inv(),
            old(self)@.allocated + data@.len() * C::InternalType::spec_size() + 8 <= usize::MAX,
        ensures
            final(self).inv(),
            final(final(self).frame().target()).whole() == final(old(self).frame().target()).whole(),
            match after_aligned_write(
                old(self)@,
                C::InternalType::spec_align(),
                (data@.len() * C::InternalType::spec_size()) as nat,
                encode_all(data@),
            ) {
                Some(v) => r == Ok::<usize, AtomWriteError>(
                    (old(self)@.allocated + padding_for(
                        old(self)@.allocated,
                        C::InternalType::spec_align(),
                    )) as usize,
                ) && final(self)@ == v,
                None => r == Err::<usize, AtomWriteError>(
                    aligned_out_of_space(
                        old(self)@,
                        C::InternalType::spec_align(),
                        (data@.len() * C::InternalType::spec_size()) as nat,
                    ),
                ) && final(self)@ == old(self)@,
            },
    {
        self.writer.write_values(data)
    }
}

} // verus!
