//! An atom containing multiple key-value pairs.
//!
//! An object has a type and an optional id, followed by properties: each has a key, an
//! optional context, and a value, which is an atom of any type.
use crate::atoms::bodies::{ObjectBody, PropertyBody};
use crate::atoms::scalar::read_value_result;
use crate::encoding::{Layout, Pod};
use crate::header::AtomHeader;
use crate::space::aligned::AtomSpace;
use crate::space::allocator::{out_of_space, SpaceAllocator, Whole};
use crate::space::atom_writer::AtomWriter;
use crate::space::error::{AtomReadError, AtomWriteError, UriKind};
use crate::space::model::SpaceView;
use crate::space::reader::{spec_aligned_read, spec_atom_read, SpaceReader};
use crate::space::writer::{after_aligned_write, aligned_out_of_space, SpaceWriter};
use crate::unidentified::UnidentifiedAtom;
use crate::util::{lemma_padding_at_atom_boundary, padding_for};
use vstd::prelude::*;

verus! {

/// The header of an object: its optional id and its type.
#[derive(Debug, Clone, Copy, PartialEq, Eq)]
pub struct ObjectHeader {
    pub id: Option<u32>,
    pub otype: u32,
}

/// The header of a property: its key and its optional context.
#[derive(Debug, Clone, Copy, PartialEq, Eq)]
pub struct PropertyHeader {
    pub key: u32,
    pub context: Option<u32>,
}

/// A URID field where 0 stands for "none".
pub open spec fn optional_urid(urid: u32) -> Option<u32> {
    if urid == 0 {
        None
    } else {
        Some(urid)
    }
}

/// The raw value of an optional URID field.
pub open spec fn raw_urid(urid: Option<u32>) -> u32 {
    match urid {
        Some(u) => u,
        None => 0,
    }
}

/// The header of an object as stored in its body.
pub open spec fn object_header_of(body: ObjectBody) -> Result<ObjectHeader, AtomReadError> {
    if body.otype == 0 {
        Err(
            AtomReadError::InvalidAtomValue {
                reading_type: UriKind::Object,
                error_message: "Invalid object type URID: 0",
            },
        )
    } else {
        Ok(ObjectHeader { id: optional_urid(body.id), otype: body.otype })
    }
}

/// The outcome of reading a property from `bytes` at position `addr`: its header, and the
/// start (relative to `bytes`) and length of its value atom; or the error.
pub open spec fn spec_property_read(bytes: Seq<u8>, addr: nat) -> Result<
    (PropertyHeader, nat, nat),
    AtomReadError,
> {
    match spec_aligned_read(bytes, addr, 8, 8) {
        Err(e) => Err(e),
        Ok(pad) => {
            let body = PropertyBody::spec_decode(bytes.subrange(pad as int, (pad + 8) as int));
            if body.key == 0 {
                Err(
                    AtomReadError::InvalidAtomValue {
                        reading_type: UriKind::Property,
                        error_message: "Invalid object property key URID: 0",
                    },
                )
            } else {
                let start = pad + 8;
                match spec_atom_read(bytes.subrange(start as int, bytes.len() as int), addr + start) {
                    Err(e) => Err(e),
                    Ok((pad2, len)) => Ok(
                        (
                            PropertyHeader { key: body.key, context: optional_urid(body.context) },
                            (start + pad2) as nat,
                            len,
                        ),
                    ),
                }
            }
        },
    }
}

/// An atom containing multiple key-value pairs.
pub struct Object;

/// An object that is not meant to be referred to from outside; read and written like
/// [`Object`].
pub struct Blank;

/// A key-value pair of an object.
pub struct Property;

impl Object {
    /// Reads the header of an object and returns it with an iterator over its properties.
    ///
    /// # Errors
    ///
    /// Returns [`AtomReadError::ReadingOutOfBounds`] if the body is too short for the header,
    /// and [`AtomReadError::InvalidAtomValue`] if the object's type is 0.
    pub fn read<'a>(body: &AtomSpace<'a>) -> (r: Result<
        (ObjectHeader, ObjectReader<'a>),
        AtomReadError,
    >)
        requires
            body.wf(),
        ensures
            match read_value_result::<ObjectBody>(body.bytes()) {
                Ok(b) => match object_header_of(b) {
                    Ok(h) => (r matches Ok((h2, it)) && h2 == h && it.wf() && it.bytes()
                        == body.bytes().subrange(8, body.bytes().len() as int) && it.addr()
                        == body.addr() + 8),
                    Err(e) => r == Err::<(ObjectHeader, ObjectReader<'a>), AtomReadError>(e),
                },
                Err(e) => r == Err::<(ObjectHeader, ObjectReader<'a>), AtomReadError>(e),
            },
    {
        proof {
            lemma_padding_at_atom_boundary(body.addr(), 4);
        }
        let mut reader = body.read();
        let header = reader.next_value::<ObjectBody>()?;
        if header.otype == 0 {
            return Err(
                AtomReadError::InvalidAtomValue {
                    reading_type: UriKind::Object,
                    error_message: "Invalid object type URID: 0",
                },
            );
        }
        let id = if header.id == 0 {
            None
        } else {
            Some(header.id)
        };
        Ok((ObjectHeader { id, otype: header.otype }, ObjectReader { reader }))
    }

    /// Returns the handle that writes a new object: it first asks for the object's header.
    pub fn write<'a, A: SpaceAllocator>(frame: AtomWriter<'a, A>) -> (r: Result<
        ObjectHeaderWriter<'a, A>,
        AtomWriteError,
    >)
        requires
            frame.inv(),
        ensures
            r matches Ok(w) && w.inv() && w@ == frame@ && w.frame() == frame,
    {
        Ok(ObjectHeaderWriter { frame })
    }
}

impl Blank {
    /// Reads a blank object, like [`Object::read`].
    pub fn read<'a>(body: &AtomSpace<'a>) -> (r: Result<
        (ObjectHeader, ObjectReader<'a>),
        AtomReadError,
    >)
        requires
            body.wf(),
        ensures
            match read_value_result::<ObjectBody>(body.bytes()) {
                Ok(b) => match object_header_of(b) {
                    Ok(h) => (r matches Ok((h2, it)) && h2 == h && it.wf() && it.bytes()
                        == body.bytes().subrange(8, body.bytes().len() as int) && it.addr()
                        == body.addr() + 8),
                    Err(e) => r == Err::<(ObjectHeader, ObjectReader<'a>), AtomReadError>(e),
                },
                Err(e) => r == Err::<(ObjectHeader, ObjectReader<'a>), AtomReadError>(e),
            },
    {
        Object::read(body)
    }

    /// Writes a blank object, like [`Object::write`].
    pub fn write<'a, A: SpaceAllocator>(frame: AtomWriter<'a, A>) -> (r: Result<
        ObjectHeaderWriter<'a, A>,
        AtomWriteError,
    >)
        requires
            frame.inv(),
        ensures
            r matches Ok(w) && w.inv() && w@ == frame@ && w.frame() == frame,
    {
        Object::write(frame)
    }
}

impl Property {
    /// Reads a property: its header, then its value atom.
    fn read_body<'a>(reader: &mut SpaceReader<'a>) -> (r: Result<
        (PropertyHeader, UnidentifiedAtom<'a>),
        AtomReadError,
    >)
        requires
            old(reader).wf(),
        ensures
            final(reader).wf(),
            match spec_property_read(old(reader).bytes(), old(reader).addr()) {
                Ok((h, start, len)) => (r matches Ok((h2, a)) && h2 == h && a.wf()
                    && a.bytes() == old(reader).bytes().subrange(start as int, (start + len) as int)
                    && a.addr() == old(reader).addr() + start
                    && final(reader).bytes() == old(reader).bytes().subrange(
                        (start + len) as int,
                        old(reader).bytes().len() as int,
                    )
                    && final(reader).addr() == old(reader).addr() + start + len),
                Err(e) => r == Err::<(PropertyHeader, UnidentifiedAtom<'a>), AtomReadError>(e),
            },
    {
        let header = reader.next_value::<PropertyBody>()?;
        if header.key == 0 {
            return Err(
                AtomReadError::InvalidAtomValue {
                    reading_type: UriKind::Property,
                    error_message: "Invalid object property key URID: 0",
                },
            );
        }
        let context = if header.context == 0 {
            None
        } else {
            Some(header.context)
        };
        let ghost mid = *reader;
        let atom = reader.next_atom()?;
        proof {
            let b = old(reader).bytes();
            let pad = padding_for(old(reader).addr(), 8) as int;
            assert(mid.bytes() == b.subrange(pad + 8, b.len() as int));
            let (pad2, len) = spec_atom_read(mid.bytes(), mid.addr()).unwrap();
            assert(atom.bytes() =~= b.subrange(pad + 8 + pad2, pad + 8 + pad2 + len as int));
            assert(reader.bytes() =~= b.subrange(pad + 8 + pad2 + len as int, b.len() as int));
        }
        Ok((PropertyHeader { key: header.key, context }, atom))
    }

    /// Writes the header of a property.
    fn write_header<W: SpaceWriter>(space: &mut W, key: u32, context: Option<u32>) -> (r: Result<
        (),
        AtomWriteError,
    >)
        requires
            old(space).inv(),
            old(space)@.allocated + 16 <= usize::MAX,
        ensures
            final(space).inv(),
            match after_aligned_write(
                old(space)@,
                8,
                8,
                (PropertyBody { key, context: raw_urid(context) }).spec_encode(),
            ) {
                Some(v) => r is Ok && final(space)@ == v,
                None => r == Err::<(), AtomWriteError>(
                    out_of_space(old(space)@, padding_for(old(space)@.allocated, 8) + 8),
                ) && final(space)@ == old(space)@,
            },
    {
        let context = match context {
            Some(c) => c,
            None => 0,
        };
        space.write_value(PropertyBody { key, context })?;
        Ok(())
    }
}

/// An iterator over the properties of an object.
pub struct ObjectReader<'a> {
    reader: SpaceReader<'a>,
}

impl<'a> ObjectReader<'a> {
    /// The bytes that are still to be read.
    pub closed spec fn bytes(&self) -> Seq<u8> {
        self.reader.bytes()
    }

    /// The position of the next byte to be read.
    pub closed spec fn addr(&self) -> nat {
        self.reader.addr()
    }

    pub open spec fn wf(&self) -> bool {
        self.addr() + self.bytes().len() <= usize::MAX
    }

    /// Returns the next property, or `None` if the remaining bytes do not hold a valid one; the
    /// iterator does not advance then.
    pub fn next(&mut self) -> (r: Option<(PropertyHeader, UnidentifiedAtom<'a>)>)
        requires
            old(self).wf(),
        ensures
            final(self).wf(),
            match spec_property_read(old(self).bytes(), old(self).addr()) {
                Ok((h, start, len)) => (r matches Some((h2, a)) && h2 == h && a.wf()
                    && a.bytes() == old(self).bytes().subrange(start as int, (start + len) as int)
                    && a.addr() == old(self).addr() + start
                    && final(self).bytes() == old(self).bytes().subrange(
                        (start + len) as int,
                        old(self).bytes().len() as int,
                    )
                    && final(self).addr() == old(self).addr() + start + len),
                Err(_) => r is None && final(self).bytes() == old(self).bytes()
                    && final(self).addr() == old(self).addr(),
            },
    {
        let mut attempt = self.reader;
        match Property::read_body(&mut attempt) {
            Ok(property) => {
                self.reader = attempt;
                Some(property)
            },
            Err(_) => None,
        }
    }
}

/// The handle that writes a new object, before its header is known.
pub struct ObjectHeaderWriter<'a, A: SpaceAllocator> {
    frame: AtomWriter<'a, A>,
}

impl<'a, A: SpaceAllocator> ObjectHeaderWriter<'a, A> {
    /// The state of the object's writer.
    pub closed spec fn view(&self) -> SpaceView {
        self.frame@
    }

    /// The writer of the atom.
    pub closed spec fn frame(&self) -> AtomWriter<'a, A> {
        self.frame
    }

    /// The state and invariant are those of the atom's writer, and once this writer is no
    /// longer used, neither is the atom's writer.
    pub proof fn lemma_resolved(&self)
        requires
            self.inv(),
        ensures
            self.frame().inv(),
            self.frame()@ == self@,
            has_resolved(*self) ==> has_resolved(self.frame()),
    {
    }

    pub closed spec fn inv(&self) -> bool {
        self.frame.inv()
    }

    /// Writes the object's header and returns the writer of its properties.
    ///
    /// # Errors
    ///
    /// Returns [`AtomWriteError::OutOfSpace`] if the buffer has no room for the header.
    pub fn write_header(self, header: ObjectHeader) -> (r: Result<ObjectWriter<'a, A>, AtomWriteError>)
        requires
            self.inv(),
            self@.allocated + 16 <= usize::MAX,
        ensures
            match after_aligned_write(
                self@,
                4,
                8,
                (ObjectBody { id: raw_urid(header.id), otype: header.otype }).spec_encode(),
            ) {
                Some(v) => (r matches Ok(w) && w.inv() && w@ == v && final(w.frame().target()).whole()
                    == final(self.frame().target()).whole()),
                None => (r matches Err(e) && e == aligned_out_of_space(self@, 4, 8)) && ({
                    let p = final(self.frame().target()).whole();
                    &&& p.inv()
                    &&& p@ == (SpaceView { headers: self@.headers.drop_last(), ..self@ })
                }),
            },
    {
        let mut frame = self.frame;
        let id = match header.id {
            Some(id) => id,
            None => 0,
        };
        match frame.write_value(ObjectBody { id, otype: header.otype }) {
            Ok(_) => {},
            Err(e) => {
                proof {
                    frame.lemma_resolved();
                }
                return Err(e);
            },
        }
        Ok(ObjectWriter { frame })
    }
}

/// The writer of an object's properties.
pub struct ObjectWriter<'a, A: SpaceAllocator> {
    frame: AtomWriter<'a, A>,
}

/// The state after writing a property header and the header of its value atom, with the
/// position of the value atom's header; `None` if the buffer has no room.
pub open spec fn after_property(v: SpaceView, key: u32, context: u32, atom_type: u32) -> Option<
    (SpaceView, nat),
> {
    match after_aligned_write(v, 8, 8, (PropertyBody { key, context }).spec_encode()) {
        Some(v1) => match after_aligned_write(
            v1,
            8,
            8,
            (AtomHeader { size: 0, type_: atom_type }).spec_encode(),
        ) {
            Some(v2) => {
                let h = v1.allocated + padding_for(v1.allocated, 8);
                Some((SpaceView { headers: v2.headers.push(h), ..v2 }, h))
            },
            None => None,
        },
        None => None,
    }
}

/// The error reported when a property header, or the header of its value atom, does not fit.
pub open spec fn property_error(v: SpaceView, key: u32, context: u32) -> AtomWriteError {
    match after_aligned_write(v, 8, 8, (PropertyBody { key, context }).spec_encode()) {
        Some(v1) => aligned_out_of_space(v1, 8, 8),
        None => aligned_out_of_space(v, 8, 8),
    }
}

impl<'a, A: SpaceAllocator> ObjectWriter<'a, A> {
    /// The state of the object's writer.
    pub closed spec fn view(&self) -> SpaceView {
        self.frame@
    }

    /// The writer of the atom.
    pub closed spec fn frame(&self) -> AtomWriter<'a, A> {
        self.frame
    }

    /// The state and invariant are those of the atom's writer, and once this writer is no
    /// longer used, neither is the atom's writer.
    pub proof fn lemma_resolved(&self)
        requires
            self.inv(),
        ensures
            self.frame().inv(),
            self.frame()@ == self@,
            has_resolved(*self) ==> has_resolved(self.frame()),
    {
    }

    pub closed spec fn inv(&self) -> bool {
        self.frame.inv()
    }

    /// Writes the header of a property with a context, and the header of its value atom of the
    /// given type, and returns the writer of the value's body.
    ///
    /// # Errors
    ///
    /// Returns [`AtomWriteError::OutOfSpace`] if the buffer has no room for the headers.
    pub fn new_property_with_context<'b>(
        &'b mut self,
        key: u32,
        context: u32,
        atom_type: u32,
    ) -> (r: Result<AtomWriter<'b, AtomWriter<'a, A>>, AtomWriteError>)
        requires
            old(self).inv(),
            old(self)@.allocated + 40 <= usize::MAX,
        ensures
            match after_property(old(self)@, key, context, atom_type) {
                Some((v, h)) => (r matches Ok(w) && w.inv() && w.header_index() == h && w@ == v
                    && final(w.target()).whole() == final(self).frame()),
                None => (r matches Err(e) && e == property_error(old(self)@, key, context)),
            },
    {
        proof {
            self.frame.lemma_inv();
        }
        Property::write_header(&mut self.frame, key, Some(context))?;
        proof {
            self.frame.lemma_inv();
        }
        self.frame.write_atom(atom_type)
    }

    /// Writes the header of a property without context, and the header of its value atom of
    /// the given type, and returns the writer of the value's body.
    ///
    /// # Errors
    ///
    /// Returns [`AtomWriteError::OutOfSpace`] if the buffer has no room for the headers.
    pub fn new_property<'b>(&'b mut self, key: u32, atom_type: u32) -> (r: Result<
        AtomWriter<'b, AtomWriter<'a, A>>,
        AtomWriteError,
    >)
        requires
            old(self).inv(),
            old(self)@.allocated + 40 <= usize::MAX,
        ensures
            match after_property(old(self)@, key, 0, atom_type) {
                Some((v, h)) => (r matches Ok(w) && w.inv() && w.header_index() == h && w@ == v
                    && final(w.target()).whole() == final(self).frame()),
                None => (r matches Err(e) && e == property_error(old(self)@, key, 0)),
            },
    {
        proof {
            self.frame.lemma_inv();
        }
        Property::write_header(&mut self.frame, key, None)?;
        proof {
            self.frame.lemma_inv();
        }
        self.frame.write_atom(atom_type)
    }
}

} // verus!
