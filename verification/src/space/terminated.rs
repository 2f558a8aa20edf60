//! A writer that keeps everything it writes followed by a terminator byte.
use crate::space::allocator::{out_of_space, SpaceAllocator, SpaceWriterSplitAllocation, Whole};
use crate::space::error::AtomWriteError;
use crate::space::model::{
    after_alloc, lemma_after_alloc_sizes, lemma_rewound_sizes, lemma_splice_len, read_u32, splice,
    SpaceView,
};
use vstd::prelude::*;

verus! {

/// The position where the bytes of a terminated allocation start: on the previous terminator
/// byte, if there is one, so that it is overwritten.
pub open spec fn terminated_start(inner: SpaceView, wrote: bool) -> nat {
    if wrote {
        (inner.allocated - 1) as nat
    } else {
        inner.allocated
    }
}

/// How many bytes the wrapped writer allocates for a terminated allocation of `size` bytes:
/// the previous terminator byte, if any, is reused, and one new byte is appended.
pub open spec fn terminated_request(wrote: bool, size: nat) -> nat {
    if wrote {
        size
    } else {
        size + 1
    }
}

/// The inner writer after a terminated allocation of `size` bytes: the allocated bytes grow
/// so that `size` bytes start at [`terminated_start`], followed by the terminator.
pub open spec fn after_terminated_alloc(
    inner: SpaceView,
    wrote: bool,
    size: nat,
    terminator: u8,
) -> Option<SpaceView> {
    match after_alloc(inner, terminated_request(wrote, size)) {
        Some(v1) => Some(
            SpaceView {
                bytes: splice(v1.bytes, (terminated_start(inner, wrote) + size) as int, seq![terminator]),
                ..v1
            },
        ),
        None => None,
    }
}

/// A writer that wraps another one and makes sure that everything written is followed by a
/// terminator byte.
///
/// Each allocation overwrites the previous terminator byte and appends a new one, so the
/// allocated bytes always end with exactly one terminator added by this writer. This is how
/// null-terminated strings are written.
pub struct Terminated<W> {
    inner: W,
    terminator: u8,
    wrote_terminator_byte: bool,
}

impl<W: SpaceAllocator> Terminated<W> {
    /// The wrapped writer.
    pub closed spec fn inner(&self) -> W {
        self.inner
    }

    /// The state of the wrapped writer.
    pub open spec fn inner_view(&self) -> SpaceView {
        self.inner()@
    }

    /// The byte appended after every write.
    pub closed spec fn terminator(&self) -> u8 {
        self.terminator
    }

    /// Whether a terminator byte was appended already.
    pub closed spec fn wrote(&self) -> bool {
        self.wrote_terminator_byte
    }

    pub closed spec fn inv(&self) -> bool {
        &&& self.inner.inv()
        &&& self.wrote_terminator_byte ==> {
            &&& self.inner@.body_start() + 1 <= self.inner@.allocated
            &&& self.inner@.bodies_at_least(1)
        }
    }

    /// Wraps a writer; the terminator byte is written with the first allocation.
    pub fn new(inner: W, terminator: u8) -> (r: Self)
        requires
            inner.inv(),
        ensures
            r.inv(),
            r.inner() == inner,
            r.terminator() == terminator,
            !r.wrote(),
    {
        Terminated { inner, terminator, wrote_terminator_byte: false }
    }

    /// The wrapped writer keeps its invariant, and once this writer is no longer used,
    /// neither is the wrapped one.
    pub proof fn lemma_resolved(&self)
        requires
            self.inv(),
        ensures
            self.inner().inv(),
            has_resolved(*self) ==> has_resolved(self.inner()),
    {
    }

    /// Unwraps the writer.
    pub fn into_inner(self) -> (r: W)
        requires
            self.inv(),
        ensures
            r.inv(),
            r == self.inner(),
    {
        self.inner
    }

    /// Allocates `size` bytes followed by the terminator byte, reusing the previous
    /// terminator byte, and returns the allocation without the terminator.
    ///
    /// # Errors
    ///
    /// Returns the error of the wrapped writer if it ran out of space; nothing is changed then,
    /// so the allocated bytes still end with the terminator.
    pub fn allocate_and_split(&mut self, size: usize) -> (r: Result<
        SpaceWriterSplitAllocation,
        AtomWriteError,
    >)
        requires
            old(self).inv(),
            old(self).inner_view().allocated + size + 1 <= usize::MAX,
            old(self).inner_view().sizes_fit((size + 1) as nat),
        ensures
            final(self).inv(),
            final(self).terminator() == old(self).terminator(),
            final(final(self).inner().target()).whole() == final(old(self).inner().target()).whole(),
            match after_terminated_alloc(
                old(self).inner_view(),
                old(self).wrote(),
                size as nat,
                old(self).terminator(),
            ) {
                Some(v) => {
                    &&& r == Ok::<SpaceWriterSplitAllocation, AtomWriteError>(
                        SpaceWriterSplitAllocation {
                            previous: terminated_start(old(self).inner_view(), old(self).wrote())
                                as usize,
                            allocated: size,
                        },
                    )
                    &&& final(self).wrote()
                    &&& final(self).inner_view() == v
                },
                None => {
                    &&& r == Err::<SpaceWriterSplitAllocation, AtomWriteError>(
                        out_of_space(
                            old(self).inner_view(),
                            terminated_request(old(self).wrote(), size as nat),
                        ),
                    )
                    &&& final(self).inner_view() == old(self).inner_view()
                    &&& final(self).wrote() == old(self).wrote()
                },
            },
    {
        proof {
            self.inner.lemma_inv();
        }
        let ghost v0 = self.inner@;
        let wrote = self.wrote_terminator_byte;
        let request = if wrote {
            size
        } else {
            size + 1
        };
        proof {
            assert(v0.sizes_fit(request as nat)) by {
                assert forall|i: int| 0 <= i < v0.headers.len() implies read_u32(
                    v0.bytes,
                    #[trigger] v0.headers[i] as int,
                ) + request <= u32::MAX by {
                    assert(read_u32(v0.bytes, v0.headers[i] as int) + size + 1 <= u32::MAX);
                }
            }
        }
        proof {
            self.inner.lemma_can_allocate(request as nat);
        }
        let alloc = self.inner.allocate_and_split(request)?;
        proof {
            self.inner.lemma_inv();
            lemma_after_alloc_sizes(v0, request as nat);
        }
        let start = if wrote {
            alloc.previous - 1
        } else {
            alloc.previous
        };
        let terminator = [self.terminator];
        let terminator_bytes = terminator.as_slice();
        assert(terminator_bytes@ =~= seq![self.terminator]);
        self.inner.write_at(start + size, terminator_bytes);
        self.wrote_terminator_byte = true;
        proof {
            self.inner.lemma_inv();
            let v = self.inner@;
            let w = after_alloc(v0, request as nat).unwrap();
            lemma_splice_len(w.bytes, (start + size) as int, seq![self.terminator]);
            assert forall|i: int| 0 <= i < v.headers.len() implies read_u32(
                v.bytes,
                #[trigger] v.headers[i] as int,
            ) >= 1 by {
                let h = v.headers[i] as int;
                assert(w.headers[i] == v0.headers[i]);
                assert(h + 8 <= v0.body_start());
                assert(v.bytes.subrange(h, h + 4) =~= w.bytes.subrange(h, h + 4));
                if wrote {
                    assert(read_u32(v0.bytes, v0.headers[i] as int) >= 1);
                }
            }
        }
        Ok(SpaceWriterSplitAllocation { previous: start, allocated: size })
    }

    /// Copies the given bytes into newly allocated space, followed by the terminator byte, and
    /// returns their position.
    ///
    /// # Errors
    ///
    /// Returns the error of the wrapped writer if it ran out of space; nothing is changed then.
    pub fn write_bytes(&mut self, bytes: &[u8]) -> (r: Result<usize, AtomWriteError>)
        requires
            old(self).inv(),
            old(self).inner_view().allocated + bytes@.len() + 1 <= usize::MAX,
            old(self).inner_view().sizes_fit((bytes@.len() + 1) as nat),
        ensures
            final(self).inv(),
            final(self).terminator() == old(self).terminator(),
            final(final(self).inner().target()).whole() == final(old(self).inner().target()).whole(),
            ({
                let start = terminated_start(old(self).inner_view(), old(self).wrote());
                match after_terminated_alloc(
                    old(self).inner_view(),
                    old(self).wrote(),
                    bytes@.len(),
                    old(self).terminator(),
                ) {
                    Some(v) => {
                        &&& r == Ok::<usize, AtomWriteError>(start as usize)
                        &&& final(self).wrote()
                        &&& final(self).inner_view() == (SpaceView {
                            bytes: splice(v.bytes, start as int, bytes@),
                            ..v
                        })
                    },
                    None => {
                        &&& r == Err::<usize, AtomWriteError>(
                            out_of_space(
                                old(self).inner_view(),
                                terminated_request(old(self).wrote(), bytes@.len()),
                            ),
                        )
                        &&& final(self).inner_view() == old(self).inner_view()
                        &&& final(self).wrote() == old(self).wrote()
                    },
                }
            }),
    {
        proof {
            self.inner.lemma_inv();
        }
        let alloc = self.allocate_and_split(bytes.len())?;
        proof {
            self.inner.lemma_inv();
        }
        let ghost before = self.inner@;
        self.inner.write_at(alloc.previous, bytes);
        proof {
            self.inner.lemma_inv();
            let v = self.inner@;
            lemma_splice_len(before.bytes, alloc.previous as int, bytes@);
            assert forall|i: int| 0 <= i < v.headers.len() implies read_u32(
                v.bytes,
                #[trigger] v.headers[i] as int,
            ) >= 1 by {
                let h = v.headers[i] as int;
                assert(before.headers[i] == v.headers[i]);
                assert(h + 8 <= before.body_start());
                assert(v.bytes.subrange(h, h + 4) =~= before.bytes.subrange(h, h + 4));
            }
        }
        Ok(alloc.previous)
    }

    /// Gives back the last `byte_count` allocated bytes of the wrapped writer.
    pub fn rewind(&mut self, byte_count: usize) -> (r: Result<(), AtomWriteError>)
        requires
            old(self).inv(),
            old(self).inner_view().bodies_at_least(byte_count as nat),
            old(self).inner_view().headers.len() > 0 ==> old(self).inner_view().body_start()
                + byte_count <= old(self).inner_view().allocated,
            old(self).wrote() ==> old(self).inner_view().bodies_at_least((byte_count + 1) as nat),
            old(self).wrote() ==> old(self).inner_view().body_start() + byte_count + 1
                <= old(self).inner_view().allocated,
        ensures
            final(self).inv(),
            final(self).terminator() == old(self).terminator(),
            final(final(self).inner().target()).whole() == final(old(self).inner().target()).whole(),
            final(self).wrote() == old(self).wrote(),
            if byte_count <= old(self).inner_view().allocated {
                &&& r == Ok::<(), AtomWriteError>(())
                &&& final(self).inner_view() == old(self).inner_view().rewound(byte_count as nat)
            } else {
                &&& r == Err::<(), AtomWriteError>(
                    AtomWriteError::RewindBeyondAllocated {
                        allocated: old(self).inner_view().allocated as usize,
                        requested: byte_count,
                    },
                )
                &&& final(self).inner_view() == old(self).inner_view()
            },
    {
        proof {
            self.inner.lemma_inv();
            if byte_count <= self.inner@.allocated {
                lemma_rewound_sizes(self.inner@, byte_count as nat);
            }
        }
        self.inner.rewind(byte_count)
    }

    /// The bytes allocated by the wrapped writer, terminator included.
    pub fn allocated_bytes(&self) -> (r: &[u8])
        requires
            self.inv(),
        ensures
            r@ == self.inner_view().bytes.subrange(0, self.inner_view().allocated as int),
    {
        self.inner.allocated_bytes()
    }

    /// The bytes that the wrapped writer can still allocate without growing.
    pub fn remaining_bytes(&self) -> (r: &[u8])
        requires
            self.inv(),
        ensures
            r@ == self.inner_view().bytes.subrange(
                self.inner_view().allocated as int,
                self.inner_view().bytes.len() as int,
            ),
    {
        self.inner.remaining_bytes()
    }
}

} // verus!
