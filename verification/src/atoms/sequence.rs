//! An atom containing a sequence of time-stamped events.
//!
//! A sequence starts with the URID of the unit of its time stamps; each event is a time stamp
//! (8 bytes) followed by an atom. Time stamps in frames are 64-bit integers; time stamps in
//! beats are 64-bit floating point numbers, held here by their bit patterns.
use crate::atoms::bodies::SequenceBody;
use crate::atoms::scalar::read_value_result;
use crate::encoding::{Layout, Pod};
use crate::header::AtomHeader;
use crate::space::aligned::AtomSpace;
use crate::space::allocator::{SpaceAllocator, Whole};
use crate::space::atom_writer::AtomWriter;
use crate::space::error::{AtomReadError, AtomWriteError, UriKind};
use crate::space::model::SpaceView;
use crate::space::reader::{spec_aligned_read, spec_atom_read, SpaceReader};
use crate::space::writer::{after_aligned_write, aligned_out_of_space, SpaceWriter};
use crate::unidentified::UnidentifiedAtom;
use crate::util::{lemma_padding_at_atom_boundary, padding_for};
use vstd::prelude::*;

verus! {

/// The unit of the time stamps of a sequence.
#[derive(Debug, Clone, Copy, PartialEq, Eq)]
pub enum SequenceUnitType {
    Beat,
    Frame,
}

/// The atom type that names a time stamp unit in errors.
pub open spec fn unit_kind(unit: SequenceUnitType) -> UriKind {
    match unit {
        SequenceUnitType::Beat => UriKind::Beat,
        SequenceUnitType::Frame => UriKind::Frame,
    }
}

/// The outcome of reading an event from `bytes` at position `addr`: its raw time stamp, and
/// the start (relative to `bytes`) and length of its atom; or the error.
pub open spec fn spec_event_read(bytes: Seq<u8>, addr: nat) -> Result<(u64, nat, nat), AtomReadError> {
    match spec_aligned_read(bytes, addr, 8, 8) {
        Err(e) => Err(e),
        Ok(pad) => {
            let stamp = u64::spec_decode(bytes.subrange(pad as int, (pad + 8) as int));
            let start = pad + 8;
            match spec_atom_read(bytes.subrange(start as int, bytes.len() as int), addr + start) {
                Err(e) => Err(e),
                Ok((pad2, len)) => Ok((stamp, (start + pad2) as nat, len)),
            }
        },
    }
}

/// The outcome of checking the unit of a sequence whose header names `found`: a sequence in
/// frames may leave its unit at 0.
pub open spec fn unit_check(found: u32, unit: SequenceUnitType, unit_urid: u32) -> Result<
    (),
    AtomReadError,
> {
    if (found == 0 && unit == SequenceUnitType::Frame) || found == unit_urid {
        Ok(())
    } else {
        Err(
            AtomReadError::InvalidUrid {
                expected: unit_kind(unit),
                expected_urid: unit_urid,
                found_urid: found,
            },
        )
    }
}

/// An atom containing a sequence of time-stamped events.
pub struct Sequence;

impl Sequence {
    /// Reads the header of a sequence and returns a reader that checks its unit.
    ///
    /// # Errors
    ///
    /// Returns [`AtomReadError::ReadingOutOfBounds`] if the body is too short for the header.
    pub fn read<'a>(body: &AtomSpace<'a>) -> (r: Result<SequenceHeaderReader<'a>, AtomReadError>)
        requires
            body.wf(),
        ensures
            match read_value_result::<SequenceBody>(body.bytes()) {
                Ok(h) => (r matches Ok(s) && s.wf() && s.header() == h && s.bytes()
                    == body.bytes().subrange(8, body.bytes().len() as int) && s.addr()
                    == body.addr() + 8),
                Err(e) => r == Err::<SequenceHeaderReader<'a>, AtomReadError>(e),
            },
    {
        proof {
            lemma_padding_at_atom_boundary(body.addr(), 8);
        }
        let mut reader = body.read();
        let header = reader.next_value::<SequenceBody>()?;
        Ok(SequenceHeaderReader { header, reader })
    }

    /// Returns the handle that writes a new sequence: it first asks for the time stamp unit.
    pub fn write<'a, A: SpaceAllocator>(frame: AtomWriter<'a, A>) -> (r: Result<
        SequenceHeaderWriter<'a, A>,
        AtomWriteError,
    >)
        requires
            frame.inv(),
        ensures
            r matches Ok(w) && w.inv() && w@ == frame@ && w.frame() == frame,
    {
        Ok(SequenceHeaderWriter { writer: frame })
    }
}

/// The reader of a sequence, before its unit is checked.
pub struct SequenceHeaderReader<'a> {
    header: SequenceBody,
    reader: SpaceReader<'a>,
}

impl<'a> SequenceHeaderReader<'a> {
    /// The header of the sequence.
    pub closed spec fn header(&self) -> SequenceBody {
        self.header
    }

    /// The bytes of the events.
    pub closed spec fn bytes(&self) -> Seq<u8> {
        self.reader.bytes()
    }

    /// The position of the first event.
    pub closed spec fn addr(&self) -> nat {
        self.reader.addr()
    }

    pub open spec fn wf(&self) -> bool {
        self.addr() + self.bytes().len() <= usize::MAX
    }

    /// Checks that the sequence's time stamps are in the given unit, whose URID is
    /// `unit_urid`, and returns an iterator over its events.
    ///
    /// # Errors
    ///
    /// Returns [`AtomReadError::InvalidUrid`] if the sequence uses another unit.
    pub fn with_unit(self, unit: SequenceUnitType, unit_urid: u32) -> (r: Result<
        SequenceIterator<'a>,
        AtomReadError,
    >)
        requires
            self.wf(),
            unit_urid != 0,
        ensures
            match unit_check(self.header().unit, unit, unit_urid) {
                Ok(_) => (r matches Ok(it) && it.wf() && it.bytes() == self.bytes() && it.addr()
                    == self.addr() && it.unit() == unit),
                Err(e) => r == Err::<SequenceIterator<'a>, AtomReadError>(e),
            },
    {
        let is_frame = match unit {
            SequenceUnitType::Frame => true,
            SequenceUnitType::Beat => false,
        };
        if (self.header.unit == 0 && is_frame) || self.header.unit == unit_urid {
            Ok(SequenceIterator { reader: self.reader, unit })
        } else {
            let expected = match unit {
                SequenceUnitType::Beat => UriKind::Beat,
                SequenceUnitType::Frame => UriKind::Frame,
            };
            Err(
                AtomReadError::InvalidUrid {
                    expected,
                    expected_urid: unit_urid,
                    found_urid: self.header.unit,
                },
            )
        }
    }
}

/// An iterator over the events of a sequence.
pub struct SequenceIterator<'a> {
    reader: SpaceReader<'a>,
    unit: SequenceUnitType,
}

impl<'a> SequenceIterator<'a> {
    /// The bytes that are still to be read.
    pub closed spec fn bytes(&self) -> Seq<u8> {
        self.reader.bytes()
    }

    /// The position of the next byte to be read.
    pub closed spec fn addr(&self) -> nat {
        self.reader.addr()
    }

    /// The unit of the time stamps.
    pub closed spec fn unit(&self) -> SequenceUnitType {
        self.unit
    }

    pub open spec fn wf(&self) -> bool {
        self.addr() + self.bytes().len() <= usize::MAX
    }

    /// The unit of the time stamps.
    pub fn unit_type(&self) -> (r: SequenceUnitType)
        ensures
            r == self.unit(),
    {
        self.unit
    }

    fn read_event(reader: &mut SpaceReader<'a>) -> (r: Result<(u64, UnidentifiedAtom<'a>), AtomReadError>)
        requires
            old(reader).wf(),
        ensures
            final(reader).wf(),
            match spec_event_read(old(reader).bytes(), old(reader).addr()) {
                Ok((stamp, start, len)) => (r matches Ok((t, a)) && t == stamp && a.wf()
                    && a.bytes() == old(reader).bytes().subrange(start as int, (start + len) as int)
                    && a.addr() == old(reader).addr() + start
                    && final(reader).bytes() == old(reader).bytes().subrange(
                        (start + len) as int,
                        old(reader).bytes().len() as int,
                    )
                    && final(reader).addr() == old(reader).addr() + start + len),
                Err(e) => r == Err::<(u64, UnidentifiedAtom<'a>), AtomReadError>(e),
            },
    {
        let stamp = reader.next_value::<u64>()?;
        let ghost mid = *reader;
        let atom = reader.next_atom()?;
        proof {
            let b = old(reader).bytes();
            let pad = padding_for(old(reader).addr(), 8) as int;
            assert(mid.bytes() == b.subrange(pad + 8, b.len() as int));
            let (pad2, len) = spec_atom_read(mid.bytes(), mid.addr()).unwrap();
            assert(atom.bytes() =~= b.subrange(pad + 8 + pad2, pad + 8 + pad2 + len as int));
            assert(reader.bytes() =~= b.subrange(pad + 8 + pad2 + len as int, b.len() as int));
        }
        Ok((stamp, atom))
    }

    /// Returns the next event, its raw time stamp and its atom, or `None` if the remaining
    /// bytes do not hold a whole event; the iterator does not advance then.
    pub fn next(&mut self) -> (r: Option<(u64, UnidentifiedAtom<'a>)>)
        requires
            old(self).wf(),
        ensures
            final(self).wf(),
            final(self).unit() == old(self).unit(),
            match spec_event_read(old(self).bytes(), old(self).addr()) {
                Ok((stamp, start, len)) => (r matches Some((t, a)) && t == stamp && a.wf()
                    && a.bytes() == old(self).bytes().subrange(start as int, (start + len) as int)
                    && a.addr() == old(self).addr() + start
                    && final(self).bytes() == old(self).bytes().subrange(
                        (start + len) as int,
                        old(self).bytes().len() as int,
                    )
                    && final(self).addr() == old(self).addr() + start + len),
                Err(_) => r is None && final(self).bytes() == old(self).bytes()
                    && final(self).addr() == old(self).addr(),
            },
    {
        let mut attempt = self.reader;
        match Self::read_event(&mut attempt) {
            Ok(event) => {
                self.reader = attempt;
                Some(event)
            },
            Err(_) => None,
        }
    }
}

/// The handle that writes a new sequence, before its unit is known.
pub struct SequenceHeaderWriter<'a, A: SpaceAllocator> {
    writer: AtomWriter<'a, A>,
}

impl<'a, A: SpaceAllocator> SequenceHeaderWriter<'a, A> {
    /// The state of the sequence's writer.
    pub closed spec fn view(&self) -> SpaceView {
        self.writer@
    }

    /// The writer of the atom.
    pub closed spec fn frame(&self) -> AtomWriter<'a, A> {
        self.writer
    }

    /// The state and invariant are those of the atom's writer, and once this writer is no
    /// longer used, neither is the atom's writer.
    pub proof fn lemma_resolved(&self)
        requires
            self.inv(),
        ensures
            self.frame().inv(),
            self.frame()@ == self@,
            has_resolved(*self) ==> has_resolved(self.frame()),
    {
    }

    pub closed spec fn inv(&self) -> bool {
        self.writer.inv()
    }

    /// Writes the header of a sequence whose time stamps are frames, with the unit's URID, and
    /// returns the writer of its events.
    ///
    /// # Errors
    ///
    /// Returns [`AtomWriteError::OutOfSpace`] if the buffer has no room for the header.
    pub fn with_unit(self, unit_urid: u32) -> (r: Result<SequenceWriter<'a, A>, AtomWriteError>)
        requires
            self.inv(),
            self@.allocated + 16 <= usize::MAX,
        ensures
            match after_aligned_write(
                self@,
                8,
                8,
                (SequenceBody { unit: unit_urid, pad: 0 }).spec_encode(),
            ) {
                Some(v) => (r matches Ok(w) && w.inv() && w@ == v && w.last_stamp() is None
                    && final(w.frame().target()).whole() == final(self.frame().target()).whole()),
                None => (r matches Err(e) && e == aligned_out_of_space(self@, 8, 8)) && ({
                    let p = final(self.frame().target()).whole();
                    &&& p.inv()
                    &&& p@ == (SpaceView { headers: self@.headers.drop_last(), ..self@ })
                }),
            },
    {
        let mut writer = self.writer;
        match writer.write_value(SequenceBody { unit: unit_urid, pad: 0 }) {
            Ok(_) => {},
            Err(e) => {
                proof {
                    writer.lemma_resolved();
                }
                return Err(e);
            },
        }
        Ok(SequenceWriter { writer, last_stamp: None })
    }

    /// Writes the header of a sequence whose time stamps are frames, leaving the unit at 0,
    /// and returns the writer of its events.
    ///
    /// # Errors
    ///
    /// Returns [`AtomWriteError::OutOfSpace`] if the buffer has no room for the header.
    pub fn with_frame_unit(self) -> (r: Result<SequenceWriter<'a, A>, AtomWriteError>)
        requires
            self.inv(),
            self@.allocated + 16 <= usize::MAX,
        ensures
            match after_aligned_write(self@, 8, 8, (SequenceBody { unit: 0, pad: 0 }).spec_encode()) {
                Some(v) => (r matches Ok(w) && w.inv() && w@ == v && w.last_stamp() is None
                    && final(w.frame().target()).whole() == final(self.frame().target()).whole()),
                None => (r matches Err(e) && e == aligned_out_of_space(self@, 8, 8)) && ({
                    let p = final(self.frame().target()).whole();
                    &&& p.inv()
                    &&& p@ == (SpaceView { headers: self@.headers.drop_last(), ..self@ })
                }),
            },
    {
        self.with_unit(0)
    }
}

/// The writer of the events of a sequence in frames.
///
/// Time stamps must not decrease from one event to the next.
pub struct SequenceWriter<'a, A: SpaceAllocator> {
    writer: AtomWriter<'a, A>,
    last_stamp: Option<i64>,
}

/// The state after writing an event's time stamp and the header of its atom, with the
/// position of the atom's header; `None` if the buffer has no room.
pub open spec fn after_event(v: SpaceView, time_stamp: i64, urid: u32) -> Option<(SpaceView, nat)> {
    match after_aligned_write(v, 8, 8, time_stamp.spec_encode()) {
        Some(v1) => match after_aligned_write(
            v1,
            8,
            8,
            (AtomHeader { size: 0, type_: urid }).spec_encode(),
        ) {
            Some(v2) => {
                let h = v1.allocated + padding_for(v1.allocated, 8);
                Some((SpaceView { headers: v2.headers.push(h), ..v2 }, h))
            },
            None => None,
        },
        None => None,
    }
}

/// The error reported when an event's time stamp, or the header of its atom, does not fit.
pub open spec fn event_error(v: SpaceView, time_stamp: i64) -> AtomWriteError {
    match after_aligned_write(v, 8, 8, time_stamp.spec_encode()) {
        Some(v1) => aligned_out_of_space(v1, 8, 8),
        None => aligned_out_of_space(v, 8, 8),
    }
}

/// A time stamp may follow the previous one if it is not smaller.
pub open spec fn stamp_in_order(last: Option<i64>, time_stamp: i64) -> bool {
    match last {
        Some(l) => l <= time_stamp,
        None => true,
    }
}

impl<'a, A: SpaceAllocator> SequenceWriter<'a, A> {
    /// The state of the sequence's writer.
    pub closed spec fn view(&self) -> SpaceView {
        self.writer@
    }

    /// The writer of the atom.
    pub closed spec fn frame(&self) -> AtomWriter<'a, A> {
        self.writer
    }

    /// The state and invariant are those of the atom's writer, and once this writer is no
    /// longer used, neither is the atom's writer.
    pub proof fn lemma_resolved(&self)
        requires
            self.inv(),
        ensures
            self.frame().inv(),
            self.frame()@ == self@,
            has_resolved(*self) ==> has_resolved(self.frame()),
    {
    }

    /// The time stamp of the last event, if any.
    pub closed spec fn last_stamp(&self) -> Option<i64> {
        self.last_stamp
    }

    pub closed spec fn inv(&self) -> bool {
        self.writer.inv()
    }

    fn write_time_stamp(&mut self, time_stamp: i64) -> (r: Result<(), AtomWriteError>)
        requires
            old(self).inv(),
            old(self)@.allocated + 16 <= usize::MAX,
        ensures
            final(self).inv(),
            final(final(self).frame().target()).whole() == final(old(self).frame().target()).whole(),
            !stamp_in_order(old(self).last_stamp(), time_stamp) ==> r == Err::<(), AtomWriteError>(
                AtomWriteError::WritingIllegalState { writing_type: UriKind::Sequence },
            ) && final(self)@ == old(self)@ && final(self).last_stamp() == old(self).last_stamp(),
            stamp_in_order(old(self).last_stamp(), time_stamp) ==> match after_aligned_write(
                old(self)@,
                8,
                8,
                time_stamp.spec_encode(),
            ) {
                Some(v) => r is Ok && final(self)@ == v && final(self).last_stamp() == Some(time_stamp),
                None => r == Err::<(), AtomWriteError>(aligned_out_of_space(old(self)@, 8, 8))
                    && final(self)@ == old(self)@ && final(self).last_stamp() == old(self).last_stamp(),
            },
    {
        if let Some(last_stamp) = self.last_stamp {
            if last_stamp > time_stamp {
                return Err(AtomWriteError::WritingIllegalState { writing_type: UriKind::Sequence });
            }
        }
        self.writer.write_value(time_stamp)?;
        self.last_stamp = Some(time_stamp);
        Ok(())
    }

    /// Writes an event's time stamp and the header of its atom of the given type, and returns
    /// the writer of the atom's body.
    ///
    /// # Errors
    ///
    /// Returns [`AtomWriteError::WritingIllegalState`] if the time stamp is smaller than the
    /// last written one, and [`AtomWriteError::OutOfSpace`] if the buffer has no room. A time
    /// stamp becomes the last written one once it is written.
    pub fn new_event<'b>(&'b mut self, time_stamp: i64, urid: u32) -> (r: Result<
        AtomWriter<'b, AtomWriter<'a, A>>,
        AtomWriteError,
    >)
        requires
            old(self).inv(),
            old(self)@.allocated + 40 <= usize::MAX,
        ensures
            !stamp_in_order(old(self).last_stamp(), time_stamp) ==> r == Err::<
                AtomWriter<'b, AtomWriter<'a, A>>,
                AtomWriteError,
            >(AtomWriteError::WritingIllegalState { writing_type: UriKind::Sequence })
                && final(self).inv() && final(self)@ == old(self)@ && final(self).last_stamp()
                == old(self).last_stamp() && final(final(self).frame().target()).whole() == final(old(self).frame().target()).whole(),
            stamp_in_order(old(self).last_stamp(), time_stamp) ==> final(self).last_stamp() == if after_aligned_write(
                old(self)@,
                8,
                8,
                time_stamp.spec_encode(),
            ) is Some {
                Some(time_stamp)
            } else {
                old(self).last_stamp()
            },
            stamp_in_order(old(self).last_stamp(), time_stamp) ==> match after_event(
                old(self)@,
                time_stamp,
                urid,
            ) {
                Some((v, h)) => (r matches Ok(w) && w.inv() && w.header_index() == h && w@ == v
                    && final(w.target()).whole() == final(self).frame()),
                None => (r matches Err(e) && e == event_error(old(self)@, time_stamp))
                    && final(self).inv() && final(self)@ == match after_aligned_write(
                    old(self)@,
                    8,
                    8,
                    time_stamp.spec_encode(),
                ) {
                    Some(v1) => v1,
                    None => old(self)@,
                } && final(final(self).frame().target()).whole() == final(old(self).frame().target()).whole(),
            },
    {
        proof {
            self.writer.lemma_inv();
        }
        self.write_time_stamp(time_stamp)?;
        proof {
            self.writer.lemma_inv();
        }
        self.writer.write_atom(urid)
    }

    /// Writes an event's time stamp and a copy of the given atom.
    ///
    /// # Errors
    ///
    /// Returns [`AtomWriteError::WritingIllegalState`] if the time stamp is smaller than the
    /// last written one, and [`AtomWriteError::OutOfSpace`] if the buffer has no room. A time
    /// stamp becomes the last written one once it is written.
    pub fn forward(&mut self, time_stamp: i64, atom: &UnidentifiedAtom) -> (r: Result<
        (),
        AtomWriteError,
    >)
        requires
            old(self).inv(),
            atom.wf(),
            old(self)@.allocated + atom.bytes().len() + 40 <= usize::MAX,
        ensures
            final(self).inv(),
            final(final(self).frame().target()).whole() == final(old(self).frame().target()).whole(),
            !stamp_in_order(old(self).last_stamp(), time_stamp) ==> r == Err::<(), AtomWriteError>(
                AtomWriteError::WritingIllegalState { writing_type: UriKind::Sequence },
            ) && final(self)@ == old(self)@
                && final(self).last_stamp() == old(self).last_stamp(),
            stamp_in_order(old(self).last_stamp(), time_stamp) ==> {
                &&& final(self).last_stamp() == if after_aligned_write(
                    old(self)@,
                    8,
                    8,
                    time_stamp.spec_encode(),
                ) is Some {
                    Some(time_stamp)
                } else {
                    old(self).last_stamp()
                }
                &&& match after_aligned_write(old(self)@, 8, 8, time_stamp.spec_encode()) {
                    Some(v1) => match after_aligned_write(v1, 8, atom.bytes().len(), atom.bytes()) {
                        Some(v2) => r is Ok && final(self)@ == v2,
                        None => r == Err::<(), AtomWriteError>(
                            aligned_out_of_space(v1, 8, atom.bytes().len()),
                        ) && final(self)@ == v1,
                    },
                    None => r == Err::<(), AtomWriteError>(aligned_out_of_space(old(self)@, 8, 8))
                        && final(self)@ == old(self)@,
                }
            },
    {
        proof {
            self.writer.lemma_inv();
        }
        self.write_time_stamp(time_stamp)?;
        proof {
            self.writer.lemma_inv();
        }
        self.writer.copy_atom(atom)?;
        Ok(())
    }
}

} // verus!

verus! {

/// The event read from an iterator at `bytes`, `addr` is `event`: the atom's bytes and
/// position, and the time stamp, are those that [`spec_event_read`] gives.
pub open spec fn is_event_at(event: (u64, UnidentifiedAtom), bytes: Seq<u8>, addr: nat) -> bool {
    match spec_event_read(bytes, addr) {
        Ok((stamp, start, len)) => {
            &&& event.0 == stamp
            &&& event.1.wf()
            &&& event.1.bytes() == bytes.subrange(start as int, (start + len) as int)
            &&& event.1.addr() == addr + start
        },
        Err(_) => false,
    }
}

/// The held event `held` of a zipped iterator is refilled from its iterator at `bytes`, `addr`
/// if it is empty, giving `event`.
pub open spec fn refilled(
    event: Option<(u64, UnidentifiedAtom)>,
    held: Option<(u64, UnidentifiedAtom)>,
    bytes: Seq<u8>,
    addr: nat,
) -> bool {
    match held {
        Some(e) => event == Some(e),
        None => match spec_event_read(bytes, addr) {
            Ok(_) => event matches Some(e) && is_event_at(e, bytes, addr),
            Err(_) => event is None,
        },
    }
}

/// The time stamp of the held event after refilling, if there is one.
pub open spec fn refilled_stamp(held: Option<(u64, UnidentifiedAtom)>, bytes: Seq<u8>, addr: nat) -> Option<
    u64,
> {
    match held {
        Some(e) => Some(e.0),
        None => match spec_event_read(bytes, addr) {
            Ok((stamp, _, _)) => Some(stamp),
            Err(_) => None,
        },
    }
}

/// The bytes left to an iterator at `bytes`, `addr` after refilling the held event.
pub open spec fn refilled_rest(held: Option<(u64, UnidentifiedAtom)>, bytes: Seq<u8>, addr: nat) -> (
    Seq<u8>,
    nat,
) {
    match held {
        Some(_) => (bytes, addr),
        None => match spec_event_read(bytes, addr) {
            Ok((_, start, len)) => (
                bytes.subrange((start + len) as int, bytes.len() as int),
                addr + start + len,
            ),
            Err(_) => (bytes, addr),
        },
    }
}

/// Whether the next event of two zipped sequences in frames comes from the first one: both
/// have an event, and the first one's time stamp is not larger.
pub open spec fn first_goes_first(s1: Option<u64>, s2: Option<u64>) -> bool {
    match (s1, s2) {
        (Some(a), Some(b)) => (a as i64) <= (b as i64),
        _ => false,
    }
}

/// An iterator over the events of two sequences in frames, merged by time stamp.
///
/// Of two events with equal time stamps, the one of the first sequence comes first. Once the
/// second sequence is exhausted, the iterator ends.
pub struct ZipSequence<'a> {
    first: SequenceIterator<'a>,
    second: SequenceIterator<'a>,
    last_value_from_first: Option<(u64, UnidentifiedAtom<'a>)>,
    last_value_from_second: Option<(u64, UnidentifiedAtom<'a>)>,
}

impl<'a> SequenceIterator<'a> {
    /// Merges the events of this sequence and of another one, both in frames, by time stamp.
    ///
    /// Sequences in beats, whose time stamps are floating point values, are not merged here.
    pub fn zip_sequence(self, other: SequenceIterator<'a>) -> (r: ZipSequence<'a>)
        requires
            self.wf(),
            other.wf(),
            self.unit() == SequenceUnitType::Frame,
            other.unit() == SequenceUnitType::Frame,
        ensures
            r.wf(),
            r.first_bytes() == self.bytes(),
            r.first_addr() == self.addr(),
            r.second_bytes() == other.bytes(),
            r.second_addr() == other.addr(),
            r.held_first() is None,
            r.held_second() is None,
    {
        ZipSequence {
            first: self,
            second: other,
            last_value_from_first: None,
            last_value_from_second: None,
        }
    }
}

impl<'a> ZipSequence<'a> {
    pub closed spec fn first_bytes(&self) -> Seq<u8> {
        self.first.bytes()
    }

    pub closed spec fn first_addr(&self) -> nat {
        self.first.addr()
    }

    pub closed spec fn second_bytes(&self) -> Seq<u8> {
        self.second.bytes()
    }

    pub closed spec fn second_addr(&self) -> nat {
        self.second.addr()
    }

    /// The event read from the first sequence and not returned yet.
    pub closed spec fn held_first(&self) -> Option<(u64, UnidentifiedAtom<'a>)> {
        self.last_value_from_first
    }

    /// The event read from the second sequence and not returned yet.
    pub closed spec fn held_second(&self) -> Option<(u64, UnidentifiedAtom<'a>)> {
        self.last_value_from_second
    }

    pub open spec fn wf(&self) -> bool {
        &&& self.first_addr() + self.first_bytes().len() <= usize::MAX
        &&& self.second_addr() + self.second_bytes().len() <= usize::MAX
    }

    /// Returns the next event of the two sequences: each sequence's next event is read if
    /// none is held, and the one with the smaller time stamp is returned (the first one's on
    /// equal time stamps). Ends when the second sequence has no event left.
    pub fn next(&mut self) -> (r: Option<(u64, UnidentifiedAtom<'a>)>)
        requires
            old(self).wf(),
        ensures
            final(self).wf(),
            ({
                let s1 = refilled_stamp(old(self).held_first(), old(self).first_bytes(), old(self).first_addr());
                let s2 = refilled_stamp(old(self).held_second(), old(self).second_bytes(), old(self).second_addr());
                let rest1 = refilled_rest(old(self).held_first(), old(self).first_bytes(), old(self).first_addr());
                let rest2 = refilled_rest(old(self).held_second(), old(self).second_bytes(), old(self).second_addr());
                &&& s2 is None ==> r is None
                &&& final(self).first_bytes() == rest1.0
                &&& final(self).first_addr() == rest1.1
                &&& final(self).second_bytes() == rest2.0
                &&& final(self).second_addr() == rest2.1
                &&& first_goes_first(s1, s2) ==> {
                    &&& refilled(r, old(self).held_first(), old(self).first_bytes(), old(self).first_addr())
                    &&& final(self).held_first() is None
                    &&& refilled(final(self).held_second(), old(self).held_second(), old(self).second_bytes(), old(self).second_addr())
                }
                &&& !first_goes_first(s1, s2) ==> {
                    &&& refilled(r, old(self).held_second(), old(self).second_bytes(), old(self).second_addr())
                    &&& final(self).held_second() is None
                    &&& refilled(final(self).held_first(), old(self).held_first(), old(self).first_bytes(), old(self).first_addr())
                }
            }),
    {
        if self.last_value_from_first.is_none() {
            self.last_value_from_first = self.first.next();
        }
        if self.last_value_from_second.is_none() {
            self.last_value_from_second = self.second.next();
        }
        let take_first = match (&self.last_value_from_first, &self.last_value_from_second) {
            (Some((t_first, _)), Some((t_second, _))) => (*t_first as i64) <= (*t_second as i64),
            _ => false,
        };
        if take_first {
            let r = self.last_value_from_first;
            self.last_value_from_first = None;
            r
        } else {
            let r = self.last_value_from_second;
            self.last_value_from_second = None;
            r
        }
    }
}

} // verus!
