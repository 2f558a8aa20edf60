//! Writing frames: writers that copy raw data into a buffer, each piece padded to 8 bytes.
use crate::encoding::{encode_u32, lemma_u32_roundtrip, read_u32_at, u32_bytes, Pod, Layout};
use crate::header::AtomHeader;
use crate::space::model::{
    add_to_sizes, header_size, headers_apart, lemma_add_to_sizes, lemma_splice_len, read_u32,
    splice,
};
use crate::util::padding_for;
use vstd::prelude::*;

verus! {

/// The state of a writing frame: the whole buffer, the position of the next write, whether
/// writing can go on, and the positions of the headers of the atoms being written (outermost
/// first).
pub struct FrameView {
    pub bytes: Seq<u8>,
    pub pos: nat,
    pub open: bool,
    pub headers: Seq<nat>,
}

impl FrameView {
    pub open spec fn wf(self) -> bool {
        &&& self.pos <= self.bytes.len()
        &&& headers_apart(self.bytes, self.headers)
        &&& forall|i: int| 0 <= i < self.headers.len() ==> #[trigger] self.headers[i] + header_size()
            <= self.bytes.len()
        &&& self.open ==> forall|i: int|
            0 <= i < self.headers.len() ==> #[trigger] self.headers[i] + header_size() <= self.pos
    }

    /// Adding `n` to the body size of every open atom does not overflow its `u32` size field.
    pub open spec fn sizes_fit(self, n: nat) -> bool {
        forall|i: int|
            0 <= i < self.headers.len() ==> read_u32(self.bytes, #[trigger] self.headers[i] as int)
                + n <= u32::MAX
    }
}

/// The state after writing `data`, and the position it was written at (`None` if it was not
/// written).
///
/// Nothing is written once the frame is closed. Data that does not fit closes the frame.
/// Written data is followed by the padding to a multiple of 8 bytes; if no byte would remain
/// after that padding, the frame is closed. The body size of every open atom grows by the
/// length of the data.
pub open spec fn after_frame_write(v: FrameView, data: Seq<u8>) -> (FrameView, Option<nat>) {
    if !v.open {
        (v, None)
    } else if data.len() > v.bytes.len() - v.pos {
        (FrameView { open: false, ..v }, None)
    } else {
        let rest = v.bytes.len() - v.pos - data.len();
        let pad = padding_for(data.len(), 8);
        let bytes = add_to_sizes(splice(v.bytes, v.pos as int, data), v.headers, data.len() as int);
        if pad < rest {
            (FrameView { bytes, pos: v.pos + data.len() + pad, open: true, headers: v.headers }, Some(v.pos))
        } else {
            (FrameView { bytes, pos: v.pos, open: false, headers: v.headers }, Some(v.pos))
        }
    }
}

/// A writer that copies raw data into a buffer, padding each piece to 8 bytes.
pub trait WritingFrame: Sized {
    spec fn view(&self) -> FrameView;

    spec fn inv(&self) -> bool;

    proof fn lemma_inv(&self)
        requires
            self.inv(),
        ensures
            self@.wf(),
    ;

    /// Copies `data` into the buffer and returns its position, or `None` if it was not
    /// written.
    fn write_raw(&mut self, data: &[u8]) -> (r: Option<usize>)
        requires
            old(self).inv(),
            old(self)@.sizes_fit(data@.len()),
        ensures
            final(self).inv(),
            final(self)@ == after_frame_write(old(self)@, data@).0,
            r matches Some(p) ==> after_frame_write(old(self)@, data@).1 == Some(p as nat),
            r is None ==> after_frame_write(old(self)@, data@).1 is None,
    ;

    /// The whole buffer.
    fn as_bytes(&self) -> (r: &[u8])
        requires
            self.inv(),
        ensures
            r@ == self@.bytes,
    ;

    /// Overwrites four bytes after the headers of all open atoms with a `u32` value.
    fn set_u32(&mut self, pos: usize, value: u32)
        requires
            old(self).inv(),
            pos + 4 <= old(self)@.bytes.len(),
            forall|i: int|
                0 <= i < old(self)@.headers.len() ==> #[trigger] old(self)@.headers[i]
                    + header_size() <= pos,
        ensures
            final(self).inv(),
            final(self)@ == (FrameView {
                bytes: splice(old(self)@.bytes, pos as int, encode_u32(value)),
                ..old(self)@
            }),
    ;

    /// Copies the bytes of a value into the buffer and returns its position.
    fn write<T: Pod>(&mut self, instance: &T) -> (r: Option<usize>)
        requires
            old(self).inv(),
            old(self)@.sizes_fit(T::spec_size()),
        ensures
            final(self).inv(),
            final(self)@ == after_frame_write(old(self)@, instance.spec_encode()).0,
            r matches Some(p) ==> after_frame_write(old(self)@, instance.spec_encode()).1 == Some(
                p as nat,
            ),
            r is None ==> after_frame_write(old(self)@, instance.spec_encode()).1 is None,
    {
        proof {
            T::lemma_roundtrip(*instance);
        }
        let bytes = instance.encode();
        self.write_raw(bytes.as_slice())
    }
}

/// Writes the header of an empty atom of the given type into the frame, and returns a frame
/// that adds everything written through it to that header's body size.
pub fn create_atom_frame<F: WritingFrame>(parent: &mut F, urid: u32) -> (r: Option<
    AtomWritingFrame<'_, F>,
>)
    requires
        old(parent).inv(),
        old(parent)@.sizes_fit(8),
    ensures
        ({
            let header = (AtomHeader { size: 0, type_: urid }).spec_encode();
            let (v, p) = after_frame_write(old(parent)@, header);
            match p {
                Some(h) => (r matches Some(f) && f.inv() && f.header_index() == h && f@ == (FrameView {
                    headers: v.headers.push(h),
                    ..v
                })),
                None => r is None && final(parent)@ == v,
            }
        }),
{
    proof {
        AtomHeader::lemma_roundtrip(AtomHeader { size: 0, type_: urid });
        parent.lemma_inv();
    }
    let header_pos = parent.write(&AtomHeader::new(urid))?;
    proof {
        parent.lemma_inv();
        let v = parent@;
        let old_v = old(parent)@;
        let header = (AtomHeader { size: 0, type_: urid }).spec_encode();
        lemma_splice_len(old_v.bytes, header_pos as int, header);
        lemma_add_to_sizes(
            splice(old_v.bytes, header_pos as int, header),
            old_v.headers,
            8,
            0,
        );
    }
    Some(AtomWritingFrame { header_pos, parent })
}

/// A frame that writes into a caller-provided buffer.
pub struct RootWritingFrame<'a> {
    data: &'a mut [u8],
    pos: usize,
    open: bool,
}

impl<'a> RootWritingFrame<'a> {
    /// Creates a frame that writes from the start of the given buffer.
    pub fn new(space: &'a mut [u8]) -> (r: Self)
        ensures
            r.inv(),
            r@ == (FrameView { bytes: old(space)@, pos: 0, open: true, headers: seq![] }),
    {
        RootWritingFrame { data: space, pos: 0, open: true }
    }

    /// A root frame writes into no atom.
    pub proof fn lemma_no_headers(&self)
        ensures
            self@.headers == Seq::<nat>::empty(),
    {
    }
}

impl<'a> WritingFrame for RootWritingFrame<'a> {
    closed spec fn view(&self) -> FrameView {
        FrameView { bytes: self.data@, pos: self.pos as nat, open: self.open, headers: seq![] }
    }

    closed spec fn inv(&self) -> bool {
        self.pos <= self.data@.len()
    }

    proof fn lemma_inv(&self) {
    }

    fn write_raw(&mut self, raw_data: &[u8]) -> (r: Option<usize>) {
        if !self.open {
            return None;
        }
        let remaining = self.data.len() - self.pos;
        if raw_data.len() > remaining {
            self.open = false;
            return None;
        }
        let start = self.pos;
        let mut i: usize = 0;
        while i < raw_data.len()
            invariant
                start == old(self).pos,
                self.pos == start,
                self.open == old(self).open,
                start + raw_data@.len() <= usize::MAX,
                start + raw_data@.len() <= old(self).data@.len(),
                0 <= i <= raw_data@.len(),
                self.data@ == splice(old(self).data@, start as int, raw_data@.subrange(0, i as int)),
            decreases raw_data@.len() - i,
        {
            self.data[start + i] = raw_data[i];
            i = i + 1;
            assert(self.data@ =~= splice(
                old(self).data@,
                start as int,
                raw_data@.subrange(0, i as int),
            ));
        }
        assert(raw_data@.subrange(0, raw_data@.len() as int) =~= raw_data@);
        assert(add_to_sizes(self.data@, seq![], raw_data@.len() as int) == self.data@);
        let upper = remaining - raw_data.len();
        let padding = if raw_data.len() % 8 == 0 {
            0
        } else {
            8 - raw_data.len() % 8
        };
        if padding < upper {
            self.pos = start + raw_data.len() + padding;
        } else {
            self.open = false;
        }
        proof {
            lemma_splice_len(old(self).data@, start as int, raw_data@);
        }
        Some(start)
    }

    fn as_bytes(&self) -> (r: &[u8]) {
        &*self.data
    }

    fn set_u32(&mut self, pos: usize, value: u32) {
        let bytes = u32_bytes(value);
        proof {
            lemma_u32_roundtrip(value);
        }
        let _ = self.data.len();
        let mut i: usize = 0;
        while i < 4
            invariant
                pos + 4 <= usize::MAX,
                self.pos == old(self).pos,
                self.open == old(self).open,
                pos + 4 <= old(self).data@.len(),
                bytes@ == encode_u32(value),
                bytes@.len() == 4,
                0 <= i <= 4,
                self.data@ == splice(old(self).data@, pos as int, bytes@.subrange(0, i as int)),
            decreases 4 - i,
        {
            self.data[pos + i] = bytes[i];
            i = i + 1;
            assert(self.data@ =~= splice(old(self).data@, pos as int, bytes@.subrange(0, i as int)));
        }
        assert(bytes@.subrange(0, 4) =~= bytes@);
    }
}

/// A frame that writes into its parent frame and adds the length of everything written to
/// the body size in the header of the atom it writes.
pub struct AtomWritingFrame<'b, F> {
    header_pos: usize,
    parent: &'b mut F,
}

impl<'b, F: WritingFrame> AtomWritingFrame<'b, F> {
    /// Position of the header of the atom being written.
    pub closed spec fn header_index(&self) -> nat {
        self.header_pos as nat
    }
}

impl<'b, F: WritingFrame> WritingFrame for AtomWritingFrame<'b, F> {
    closed spec fn view(&self) -> FrameView {
        FrameView { headers: self.parent@.headers.push(self.header_pos as nat), ..self.parent@ }
    }

    closed spec fn inv(&self) -> bool {
        &&& self.parent.inv()
        &&& self.header_pos + header_size() <= self.parent@.bytes.len()
        &&& self.parent@.open ==> self.header_pos + header_size() <= self.parent@.pos
        &&& forall|i: int|
            0 <= i < self.parent@.headers.len() ==> #[trigger] self.parent@.headers[i]
                + header_size() <= self.header_pos
    }

    proof fn lemma_inv(&self) {
        self.parent.lemma_inv();
    }

    fn write_raw(&mut self, data: &[u8]) -> (r: Option<usize>) {
        proof {
            self.parent.lemma_inv();
            let v = self@;
            assert(v.headers[v.headers.len() - 1] == self.header_pos);
            assert forall|i: int| 0 <= i < self.parent@.headers.len() implies read_u32(
                self.parent@.bytes,
                #[trigger] self.parent@.headers[i] as int,
            ) + data@.len() <= u32::MAX by {
                assert(v.headers[i] == self.parent@.headers[i]);
            }
        }
        let ghost before = self.parent@;
        let r = self.parent.write_raw(data);
        match r {
            None => None,
            Some(p) => {
                proof {
                    self.parent.lemma_inv();
                }
                let h = self.header_pos;
                let bytes = self.parent.as_bytes();
                let old_size = read_u32_at(bytes, h);
                proof {
                    let v = old(self)@;
                    assert(v.headers[v.headers.len() - 1] == h);
                    let b1 = splice(before.bytes, p as int, data@);
                    lemma_splice_len(before.bytes, p as int, data@);
                    assert forall|i: int| 0 <= i < before.headers.len() implies h + 4
                        <= #[trigger] before.headers[i] || before.headers[i] + 4 <= h by {}
                    crate::space::model::lemma_add_to_sizes_read(
                        b1,
                        before.headers,
                        data@.len() as int,
                        h as int,
                    );
                    assert(b1.subrange(h as int, h + 4) =~= before.bytes.subrange(h as int, h + 4));
                }
                let new_size = old_size + data.len() as u32;
                self.parent.set_u32(h, new_size);
                proof {
                    let v = old(self)@;
                    let b1 = splice(before.bytes, p as int, data@);
                    assert(v.headers.drop_last() =~= before.headers);
                    assert(add_to_sizes(b1, v.headers, data@.len() as int) == splice(
                        add_to_sizes(b1, before.headers, data@.len() as int),
                        h as int,
                        encode_u32(new_size),
                    ));
                }
                Some(p)
            },
        }
    }

    fn as_bytes(&self) -> (r: &[u8]) {
        self.parent.as_bytes()
    }

    fn set_u32(&mut self, pos: usize, value: u32) {
        proof {
            let v = self@;
            assert(v.headers[v.headers.len() - 1] == self.header_pos);
            assert forall|i: int| 0 <= i < self.parent@.headers.len() implies #[trigger] self.parent@.headers[i]
                + header_size() <= pos by {
                assert(v.headers[i] == self.parent@.headers[i]);
            }
        }
        self.parent.set_u32(pos, value);
    }
}

} // verus!
