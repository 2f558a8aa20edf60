//! String atoms: plain, null-terminated UTF-8 strings, and literals, strings with a language or
//! a datatype.
use crate::atoms::bodies::LiteralBody;
use crate::atoms::scalar::read_value_result;
use crate::encoding::{Layout, Pod};
use crate::space::aligned::AtomSpace;
use crate::space::allocator::{SpaceAllocator, Whole};
use crate::space::atom_writer::AtomWriter;
use crate::space::error::{AtomReadError, AtomWriteError, UriKind};
use crate::space::model::SpaceView;
use crate::space::terminated::{after_terminated_alloc, terminated_request, terminated_start, Terminated};
use crate::space::model::splice;
use crate::space::writer::{after_aligned_write, aligned_out_of_space, SpaceWriter};
use crate::space::allocator::out_of_space;
use crate::util::lemma_padding_at_atom_boundary;
use vstd::prelude::*;
use vstd::string::StringSliceAdditionalSpecFns;
use vstd::utf8::valid_utf8;

verus! {

/// `std::str::from_utf8`: the bytes as a string slice if they are valid UTF-8, or else the
/// length of their longest valid prefix (the error's `valid_up_to`).
///
/// Claimed of it, as its documentation states: the result is `Ok` exactly when the bytes are
/// valid UTF-8, and then the string consists of these bytes; otherwise the returned length is
/// the largest `n` such that the first `n` bytes are valid UTF-8.
#[verifier::external_body]
fn str_from_utf8<'a>(bytes: &'a [u8]) -> (r: Result<&'a str, usize>)
    ensures
        match r {
            Ok(s) => valid_utf8(bytes@) && s.spec_bytes() == bytes@,
            Err(n) => !valid_utf8(bytes@) && longest_valid_prefix(bytes@, n as nat),
        },
{
    match std::str::from_utf8(bytes) {
        Ok(s) => Ok(s),
        Err(e) => Err(e.valid_up_to()),
    }
}

/// `n` is the length of the longest prefix of `bytes` that is valid UTF-8.
pub open spec fn longest_valid_prefix(bytes: Seq<u8>, n: nat) -> bool {
    &&& n <= bytes.len()
    &&& valid_utf8(bytes.subrange(0, n as int))
    &&& forall|m: int| n < m <= bytes.len() ==> !valid_utf8(#[trigger] bytes.subrange(0, m))
}

/// The bytes end with a zero byte, and no other byte is zero.
pub open spec fn nul_terminated(bytes: Seq<u8>) -> bool {
    &&& bytes.len() > 0
    &&& bytes.last() == 0
    &&& forall|i: int| 0 <= i < bytes.len() - 1 ==> #[trigger] bytes[i] != 0
}

/// Either the language or the datatype of a literal.
#[derive(Debug, Clone, Copy, PartialEq, Eq)]
pub enum LiteralInfo {
    Language(u32),
    Datatype(u32),
}

/// The information of a literal as stored in its header: the language if it is set, else the
/// datatype if it is set.
pub open spec fn literal_info_of(body: LiteralBody) -> Result<LiteralInfo, &'static str> {
    if body.lang != 0 {
        Ok(LiteralInfo::Language(body.lang))
    } else if body.datatype != 0 {
        Ok(LiteralInfo::Datatype(body.datatype))
    } else {
        Err("Invalid Literal header: neither lang or datatype URIDs are set")
    }
}

/// The header that stores the information of a literal.
pub open spec fn literal_body_of(info: LiteralInfo) -> LiteralBody {
    match info {
        LiteralInfo::Language(lang) => LiteralBody { lang, datatype: 0 },
        LiteralInfo::Datatype(datatype) => LiteralBody { lang: 0, datatype },
    }
}

impl LiteralInfo {
    fn try_from_raw(header: &LiteralBody) -> (r: Result<Self, &'static str>)
        ensures
            r == literal_info_of(*header),
    {
        if header.lang != 0 {
            Ok(LiteralInfo::Language(header.lang))
        } else if header.datatype != 0 {
            Ok(LiteralInfo::Datatype(header.datatype))
        } else {
            Err("Invalid Literal header: neither lang or datatype URIDs are set")
        }
    }

    fn into_raw(self) -> (r: LiteralBody)
        ensures
            r == literal_body_of(self),
    {
        match self {
            LiteralInfo::Language(lang) => LiteralBody { lang, datatype: 0 },
            LiteralInfo::Datatype(datatype) => LiteralBody { lang: 0, datatype },
        }
    }
}

/// An atom containing a literal: a null-terminated UTF-8 string with a language or a datatype.
pub struct Literal;

/// An atom containing a null-terminated UTF-8 string.
pub struct String;

/// The body of a literal can be read without panicking: it is too short for the header, its
/// header is invalid, or it holds at least the terminator byte after the header.
pub open spec fn literal_readable(body: Seq<u8>) -> bool {
    body.len() >= 8 && literal_info_of(LiteralBody::spec_decode(body.subrange(0, 8))) is Ok
        ==> body.len() > 8
}

impl Literal {
    /// Reads the information and the text of a literal.
    ///
    /// The text is the body after the header, without its last byte (the terminator). Where
    /// it is not valid UTF-8, its longest valid prefix is returned.
    ///
    /// # Errors
    ///
    /// Returns [`AtomReadError::ReadingOutOfBounds`] if the body is too short for the header,
    /// and [`AtomReadError::InvalidAtomValue`] if neither language nor datatype is set.
    pub fn read<'a>(body: &AtomSpace<'a>) -> (r: Result<(LiteralInfo, &'a str), AtomReadError>)
        requires
            body.wf(),
            literal_readable(body.bytes()),
        ensures
            match read_value_result::<LiteralBody>(body.bytes()) {
                Ok(h) => match literal_info_of(h) {
                    Ok(info) => {
                        let text = body.bytes().subrange(8, body.bytes().len() - 1);
                        r matches Ok((i, s)) && i == info && longest_valid_prefix(
                            text,
                            s.spec_bytes().len(),
                        ) && s.spec_bytes() == text.subrange(0, s.spec_bytes().len() as int)
                    },
                    Err(message) => r == Err::<(LiteralInfo, &'a str), AtomReadError>(
                        AtomReadError::InvalidAtomValue {
                            reading_type: UriKind::Literal,
                            error_message: message,
                        },
                    ),
                },
                Err(e) => r == Err::<(LiteralInfo, &'a str), AtomReadError>(e),
            },
    {
        proof {
            lemma_padding_at_atom_boundary(body.addr(), 4);
        }
        let mut reader = body.read();
        let header = reader.next_value::<LiteralBody>()?;
        let info = match LiteralInfo::try_from_raw(&header) {
            Ok(info) => info,
            Err(message) => {
                return Err(
                    AtomReadError::InvalidAtomValue {
                        reading_type: UriKind::Literal,
                        error_message: message,
                    },
                );
            },
        };
        let data = reader.remaining_bytes();
        assert(data@ =~= body.bytes().subrange(8, body.bytes().len() as int));
        let text = vstd::slice::slice_subrange(data, 0, data.len() - 1);
        assert(text@ =~= body.bytes().subrange(8, body.bytes().len() - 1));
        let string = match str_from_utf8(text) {
            Ok(s) => {
                assert(text@.subrange(0, text@.len() as int) =~= text@);
                s
            },
            Err(valid_up_to) => match str_from_utf8(
                vstd::slice::slice_subrange(text, 0, valid_up_to),
            ) {
                Ok(s) => {
                    assert(s.spec_bytes().len() == valid_up_to);
                    s
                },
                Err(_) => {
                    return Err(
                        AtomReadError::InvalidAtomValue {
                            reading_type: UriKind::Literal,
                            error_message: "Literal contents are invalid UTF-8",
                        },
                    );
                },
            },
        };
        Ok((info, string))
    }

    /// Returns the handle that writes a new literal: it first asks for the literal's
    /// information.
    pub fn write<'a, A: SpaceAllocator>(frame: AtomWriter<'a, A>) -> (r: Result<
        LiteralInfoWriter<'a, A>,
        AtomWriteError,
    >)
        requires
            frame.inv(),
        ensures
            r matches Ok(w) && w.inv() && w@ == frame@ && w.frame() == frame,
    {
        Ok(LiteralInfoWriter { writer: frame })
    }
}

impl String {
    /// Reads the text of a string: its body without the terminating zero byte.
    ///
    /// # Errors
    ///
    /// Returns [`AtomReadError::InvalidAtomValue`] if the body is not a null-terminated string
    /// without inner zero bytes, or if the text is not valid UTF-8.
    pub fn read<'a>(body: &AtomSpace<'a>) -> (r: Result<&'a str, AtomReadError>)
        requires
            body.wf(),
        ensures
            !nul_terminated(body.bytes()) ==> r == Err::<&'a str, AtomReadError>(
                AtomReadError::InvalidAtomValue {
                    reading_type: UriKind::String,
                    error_message: "String value is not null-terminated",
                },
            ),
            nul_terminated(body.bytes()) ==> {
                let text = body.bytes().drop_last();
                &&& valid_utf8(text) ==> (r matches Ok(s) && s.spec_bytes() == text)
                &&& !valid_utf8(text) ==> r == Err::<&'a str, AtomReadError>(
                    AtomReadError::InvalidAtomValue {
                        reading_type: UriKind::String,
                        error_message: "String contents are invalid UTF-8",
                    },
                )
            },
    {
        let bytes = body.as_bytes();
        let len = bytes.len();
        let mut i: usize = 0;
        while i < len && bytes[i] != 0
            invariant
                len == bytes@.len(),
                0 <= i <= len,
                forall|k: int| 0 <= k < i ==> #[trigger] bytes@[k] != 0,
            decreases len - i,
        {
            i = i + 1;
        }
        if i >= len || i != len - 1 {
            return Err(
                AtomReadError::InvalidAtomValue {
                    reading_type: UriKind::String,
                    error_message: "String value is not null-terminated",
                },
            );
        }
        let text = vstd::slice::slice_subrange(bytes, 0, i);
        assert(text@ =~= bytes@.drop_last());
        match str_from_utf8(text) {
            Ok(s) => Ok(s),
            Err(_) => Err(
                AtomReadError::InvalidAtomValue {
                    reading_type: UriKind::String,
                    error_message: "String contents are invalid UTF-8",
                },
            ),
        }
    }

    /// Returns the handle that appends text to a new string.
    pub fn write<'a, A: SpaceAllocator>(frame: AtomWriter<'a, A>) -> (r: Result<
        StringWriter<'a, A>,
        AtomWriteError,
    >)
        requires
            frame.inv(),
        ensures
            r matches Ok(w) && w.inv() && w@ == frame@ && !w.wrote() && w.frame() == frame,
    {
        Ok(StringWriter { writer: frame.terminated(0) })
    }
}

/// The handle that writes a new literal, before its information is known.
pub struct LiteralInfoWriter<'a, A: SpaceAllocator> {
    writer: AtomWriter<'a, A>,
}

impl<'a, A: SpaceAllocator> LiteralInfoWriter<'a, A> {
    /// The state of the literal's writer.
    pub closed spec fn view(&self) -> SpaceView {
        self.writer@
    }

    /// The writer of the atom.
    pub closed spec fn frame(&self) -> AtomWriter<'a, A> {
        self.writer
    }

    /// The state and invariant are those of the atom's writer, and once this writer is no
    /// longer used, neither is the atom's writer.
    pub proof fn lemma_resolved(&self)
        requires
            self.inv(),
        ensures
            self.frame().inv(),
            self.frame()@ == self@,
            has_resolved(*self) ==> has_resolved(self.frame()),
    {
    }

    pub closed spec fn inv(&self) -> bool {
        self.writer.inv()
    }

    /// Writes the literal's information and returns the handle that appends its text.
    ///
    /// # Errors
    ///
    /// Returns [`AtomWriteError::OutOfSpace`] if the buffer has no room for the header.
    pub fn write_info(self, info: LiteralInfo) -> (r: Result<StringWriter<'a, A>, AtomWriteError>)
        requires
            self.inv(),
            self@.allocated + 16 <= usize::MAX,
        ensures
            match after_aligned_write(self@, 4, 8, literal_body_of(info).spec_encode()) {
                Some(v) => (r matches Ok(w) && w.inv() && w@ == v && !w.wrote()
                    && final(w.frame().target()).whole() == final(self.frame().target()).whole()),
                None => (r matches Err(e) && e == aligned_out_of_space(self@, 4, 8)) && ({
                    let p = final(self.frame().target()).whole();
                    &&& p.inv()
                    &&& p@ == (SpaceView { headers: self@.headers.drop_last(), ..self@ })
                }),
            },
    {
        let mut writer = self.writer;
        match writer.write_value(info.into_raw()) {
            Ok(_) => {},
            Err(e) => {
                proof {
                    writer.lemma_resolved();
                }
                return Err(e);
            },
        }
        Ok(StringWriter { writer: writer.terminated(0) })
    }
}

/// The writer of the text of a literal.
pub type LiteralWriter<'a, A> = StringWriter<'a, A>;

/// The handle that appends text to a string or a literal, keeping it null-terminated.
pub struct StringWriter<'a, A: SpaceAllocator> {
    writer: Terminated<AtomWriter<'a, A>>,
}

impl<'a, A: SpaceAllocator> StringWriter<'a, A> {
    /// The state of the atom's writer, terminator included.
    pub closed spec fn view(&self) -> SpaceView {
        self.writer.inner_view()
    }

    /// The writer of the atom.
    pub closed spec fn frame(&self) -> AtomWriter<'a, A> {
        self.writer.inner()
    }

    /// The state and invariant are those of the atom's writer, and once this writer is no
    /// longer used, neither is the atom's writer.
    pub proof fn lemma_resolved(&self)
        requires
            self.inv(),
        ensures
            self.frame().inv(),
            self.frame()@ == self@,
            has_resolved(*self) ==> has_resolved(self.frame()),
    {
        self.writer.lemma_resolved();
    }

    /// Whether the terminator was written already.
    pub closed spec fn wrote(&self) -> bool {
        self.writer.wrote()
    }

    pub closed spec fn inv(&self) -> bool {
        &&& self.writer.inv()
        &&& self.writer.terminator() == 0
    }

    /// Appends text, followed by the terminator (which replaces the previous one), and returns
    /// the position of the text.
    ///
    /// # Errors
    ///
    /// Returns [`AtomWriteError::OutOfSpace`] if the buffer has no room for the text and the
    /// terminator; nothing is changed then.
    pub fn append(&mut self, string: &str) -> (r: Result<usize, AtomWriteError>)
        requires
            old(self).inv(),
            old(self)@.allocated + string.spec_bytes().len() + 1 <= usize::MAX,
            old(self)@.sizes_fit((string.spec_bytes().len() + 1) as nat),
        ensures
            final(self).inv(),
            final(final(self).frame().target()).whole() == final(old(self).frame().target()).whole(),
            ({
                let start = terminated_start(old(self)@, old(self).wrote());
                match after_terminated_alloc(old(self)@, old(self).wrote(), string.spec_bytes().len(), 0) {
                    Some(v) => {
                        &&& r == Ok::<usize, AtomWriteError>(start as usize)
                        &&& final(self).wrote()
                        &&& final(self)@ == (SpaceView {
                            bytes: splice(v.bytes, start as int, string.spec_bytes()),
                            ..v
                        })
                    },
                    None => {
                        &&& r == Err::<usize, AtomWriteError>(
                            out_of_space(old(self)@, terminated_request(old(self).wrote(), string.spec_bytes().len())),
                        )
                        &&& final(self)@ == old(self)@
                        &&& final(self).wrote() == old(self).wrote()
                    },
                }
            }),
    {
        self.writer.write_bytes(string.as_bytes())
    }
}

} // verus!
