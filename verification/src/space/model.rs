//! The mathematical model of a buffer that atoms are written into.
use crate::encoding::{decode_u32, encode_u32, lemma_u32_roundtrip, Layout};
use vstd::prelude::*;

verus! {

/// Size of an atom header in bytes (a `u32` body size followed by a `u32` type URID).
pub open spec fn header_size() -> nat {
    8
}

/// Replaces the bytes at `pos..pos + data.len()` with `data`.
pub open spec fn splice(bytes: Seq<u8>, pos: int, data: Seq<u8>) -> Seq<u8> {
    bytes.subrange(0, pos) + data + bytes.subrange(pos + data.len(), bytes.len() as int)
}

/// The `u32` stored at `pos`.
pub open spec fn read_u32(bytes: Seq<u8>, pos: int) -> u32 {
    decode_u32(bytes.subrange(pos, pos + 4))
}

/// Adds `delta` to the body size stored in every listed atom header (outermost first), with the
/// wrap-around of a `u32` size field.
pub open spec fn add_to_sizes(bytes: Seq<u8>, headers: Seq<nat>, delta: int) -> Seq<u8>
    decreases headers.len(),
{
    if headers.len() == 0 {
        bytes
    } else {
        let b = add_to_sizes(bytes, headers.drop_last(), delta);
        let h = headers.last() as int;
        splice(b, h, encode_u32(#[verifier::truncate] ((read_u32(b, h) + delta) as u32)))
    }
}

/// The state of a writer: the whole buffer, how many bytes of it are allocated, and the
/// positions of the headers of all atoms that are still being written (outermost first).
pub struct SpaceView {
    pub bytes: Seq<u8>,
    pub allocated: nat,
    pub headers: Seq<nat>,
    /// Zero for a buffer that cannot grow; otherwise the buffer grows (with zero bytes) to a
    /// multiple of this many bytes when an allocation needs room, as long as that multiple is
    /// an addressable length.
    pub grow_unit: nat,
}

/// The smallest multiple of `unit` that is at least `n`.
pub open spec fn round_up(n: nat, unit: nat) -> nat
    recommends
        unit > 0,
{
    if n % unit == 0 {
        n
    } else {
        (n - n % unit + unit) as nat
    }
}

impl SpaceView {
    pub open spec fn wf(self) -> bool {
        &&& self.allocated <= self.bytes.len()
        &&& forall|i: int|
            0 <= i < self.headers.len() ==> #[trigger] self.headers[i] + header_size()
                <= self.allocated
        &&& forall|i: int, j: int|
            0 <= i < j < self.headers.len() ==> #[trigger] self.headers[i] + header_size()
                <= #[trigger] self.headers[j]
    }

    /// Position from which the innermost open atom's body may be written.
    pub open spec fn body_start(self) -> nat {
        if self.headers.len() == 0 {
            0
        } else {
            self.headers.last() + header_size()
        }
    }

    /// The buffer contents after making room for `end` bytes, or `None` if there is no room.
    pub open spec fn grow(self, end: nat) -> Option<Seq<u8>> {
        if end <= self.bytes.len() {
            Some(self.bytes)
        } else if self.grow_unit == 0 || round_up(end, self.grow_unit) > usize::MAX {
            None
        } else {
            Some(
                self.bytes + Seq::new(
                    (round_up(end, self.grow_unit) - self.bytes.len()) as nat,
                    |i: int| 0u8,
                ),
            )
        }
    }

    /// Every open atom has at least `n` bytes of body.
    pub open spec fn bodies_at_least(self, n: nat) -> bool {
        forall|i: int|
            0 <= i < self.headers.len() ==> read_u32(self.bytes, #[trigger] self.headers[i] as int)
                >= n
    }
}

/// The state after a successful allocation of `size` bytes, or `None` if there is no room.
pub open spec fn after_alloc(v: SpaceView, size: nat) -> Option<SpaceView> {
    match v.grow(v.allocated + size) {
        Some(g) => Some(
            SpaceView {
                bytes: add_to_sizes(g, v.headers, size as int),
                allocated: v.allocated + size,
                headers: v.headers,
                grow_unit: v.grow_unit,
            },
        ),
        None => None,
    }
}

/// The bytes outside of the headers' size fields are not touched by [`add_to_sizes`].
pub proof fn lemma_add_to_sizes_frame(bytes: Seq<u8>, headers: Seq<nat>, delta: int, p: int)
    requires
        forall|i: int| 0 <= i < headers.len() ==> #[trigger] headers[i] + 4 <= bytes.len(),
        forall|i: int|
            0 <= i < headers.len() ==> p < #[trigger] headers[i] || headers[i] + 4 <= p,
        0 <= p < bytes.len(),
    ensures
        add_to_sizes(bytes, headers, delta)[p] == bytes[p],
        add_to_sizes(bytes, headers, delta).len() == bytes.len(),
    decreases headers.len(),
{
    if headers.len() > 0 {
        let b = add_to_sizes(bytes, headers.drop_last(), delta);
        lemma_add_to_sizes_frame(bytes, headers.drop_last(), delta, p);
        let h = headers.last() as int;
        assert(headers[headers.len() - 1] == h);
        let v = #[verifier::truncate] ((read_u32(b, h) + delta) as u32);
        lemma_u32_roundtrip(v);
        lemma_splice_len(b, h, encode_u32(v));
    }
}

/// Reading four bytes that lie outside of every header's size field gives the same value
/// after [`add_to_sizes`].
pub proof fn lemma_add_to_sizes_read(bytes: Seq<u8>, headers: Seq<nat>, delta: int, p: int)
    requires
        forall|i: int| 0 <= i < headers.len() ==> #[trigger] headers[i] + 4 <= bytes.len(),
        forall|i: int|
            0 <= i < headers.len() ==> p + 4 <= #[trigger] headers[i] || headers[i] + 4 <= p,
        0 <= p,
        p + 4 <= bytes.len(),
    ensures
        read_u32(add_to_sizes(bytes, headers, delta), p) == read_u32(bytes, p),
{
    let b2 = add_to_sizes(bytes, headers, delta);
    assert forall|k: int| p <= k < p + 4 implies b2[k] == bytes[k] by {
        lemma_add_to_sizes_frame(bytes, headers, delta, k);
    }
    lemma_add_to_sizes_frame(bytes, headers, delta, p);
    assert(b2.subrange(p, p + 4) =~= bytes.subrange(p, p + 4));
}

pub proof fn lemma_grow(v: SpaceView, end: nat)
    ensures
        v.grow(end) matches Some(g) ==> {
            &&& end <= g.len()
            &&& v.bytes.len() <= g.len()
            &&& g.subrange(0, v.bytes.len() as int) == v.bytes
        },
{
    if end > v.bytes.len() && v.grow_unit > 0 && round_up(end, v.grow_unit) <= usize::MAX {
        let g = v.grow(end).unwrap();
        assert(g.subrange(0, v.bytes.len() as int) =~= v.bytes);
        let u = v.grow_unit;
        if end % u != 0 {
            assert(end % u < u);
        }
    } else if end <= v.bytes.len() {
        assert(v.bytes.subrange(0, v.bytes.len() as int) =~= v.bytes);
    }
}

pub proof fn lemma_splice_len(bytes: Seq<u8>, pos: int, data: Seq<u8>)
    requires
        0 <= pos,
        pos + data.len() <= bytes.len(),
    ensures
        splice(bytes, pos, data).len() == bytes.len(),
        forall|i: int| 0 <= i < pos ==> #[trigger] splice(bytes, pos, data)[i] == bytes[i],
        forall|i: int|
            pos + data.len() <= i < bytes.len() ==> #[trigger] splice(bytes, pos, data)[i]
                == bytes[i],
        forall|i: int| 0 <= i < data.len() ==> #[trigger] splice(bytes, pos, data)[pos + i] == data[i],
        splice(bytes, pos, data).subrange(pos, pos + data.len()) == data,
{
    assert(splice(bytes, pos, data).subrange(pos, pos + data.len()) =~= data);
}

/// Adding to the header sizes keeps the length of the buffer and all bytes outside the
/// headers' size fields.
pub proof fn lemma_add_to_sizes(bytes: Seq<u8>, headers: Seq<nat>, delta: int, lo: nat)
    requires
        lo <= bytes.len(),
        forall|i: int| 0 <= i < headers.len() ==> lo <= #[trigger] headers[i],
        forall|i: int| 0 <= i < headers.len() ==> #[trigger] headers[i] + 4 <= bytes.len(),
    ensures
        add_to_sizes(bytes, headers, delta).len() == bytes.len(),
        add_to_sizes(bytes, headers, delta).subrange(0, lo as int) == bytes.subrange(0, lo as int),
    decreases headers.len(),
{
    if headers.len() > 0 {
        let b = add_to_sizes(bytes, headers.drop_last(), delta);
        lemma_add_to_sizes(bytes, headers.drop_last(), delta, lo);
        let h = headers.last() as int;
        assert(headers[headers.len() - 1] == h);
        assert(lo <= h);
        let v = #[verifier::truncate] ((read_u32(b, h) + delta) as u32);
        lemma_u32_roundtrip(v);
        lemma_splice_len(b, h, encode_u32(v));
        assert(add_to_sizes(bytes, headers, delta) == splice(b, h, encode_u32(v)));
        assert(add_to_sizes(bytes, headers, delta).subrange(0, lo as int) =~= b.subrange(0, lo as int));
    }
}

} // verus!

verus! {

impl SpaceView {
    /// Adding `n` to the body size of every open atom does not overflow its `u32` size field.
    pub open spec fn sizes_fit(self, n: nat) -> bool {
        forall|i: int|
            0 <= i < self.headers.len() ==> read_u32(self.bytes, #[trigger] self.headers[i] as int)
                + n <= u32::MAX
    }

    /// The state after giving back the last `n` allocated bytes.
    pub open spec fn rewound(self, n: nat) -> SpaceView {
        SpaceView {
            bytes: add_to_sizes(self.bytes, self.headers, -n),
            allocated: (self.allocated - n) as nat,
            headers: self.headers,
            grow_unit: self.grow_unit,
        }
    }
}

} // verus!

verus! {

/// The headers' size fields lie inside `bytes` and do not overlap, outermost first.
pub open spec fn headers_apart(bytes: Seq<u8>, headers: Seq<nat>) -> bool {
    &&& forall|i: int| 0 <= i < headers.len() ==> #[trigger] headers[i] + 4 <= bytes.len()
    &&& forall|i: int, j: int|
        0 <= i < j < headers.len() ==> #[trigger] headers[i] + 4 <= #[trigger] headers[j]
}

/// [`add_to_sizes`] adds `delta` (with wrap-around) to the size stored in each header.
pub proof fn lemma_add_to_sizes_at(bytes: Seq<u8>, headers: Seq<nat>, delta: int, i: int)
    requires
        headers_apart(bytes, headers),
        0 <= i < headers.len(),
    ensures
        read_u32(add_to_sizes(bytes, headers, delta), headers[i] as int) == #[verifier::truncate] (
        (read_u32(bytes, headers[i] as int) + delta) as u32),
    decreases headers.len(),
{
    let n = headers.len();
    let front = headers.drop_last();
    let b = add_to_sizes(bytes, front, delta);
    let h = headers.last() as int;
    assert(headers[n - 1] == h);
    assert(headers_apart(bytes, front)) by {
        assert forall|k: int, l: int| 0 <= k < l < front.len() implies #[trigger] front[k] + 4
            <= #[trigger] front[l] by {
            assert(headers[k] + 4 <= headers[l]);
        }
    }
    lemma_add_to_sizes(bytes, front, delta, 0);
    assert forall|k: int| 0 <= k < front.len() implies h + 4 <= #[trigger] front[k] || front[k]
        + 4 <= h by {
        assert(headers[k] + 4 <= headers[n - 1]);
    }
    lemma_add_to_sizes_read(bytes, front, delta, h);
    let v = #[verifier::truncate] ((read_u32(b, h) + delta) as u32);
    lemma_u32_roundtrip(v);
    lemma_splice_len(b, h, encode_u32(v));
    let out = splice(b, h, encode_u32(v));
    assert(add_to_sizes(bytes, headers, delta) == out);
    if i == n - 1 {
        assert(out.subrange(h, h + 4) =~= encode_u32(v));
    } else {
        lemma_add_to_sizes_at(bytes, front, delta, i);
        let p = headers[i] as int;
        assert(front[i] == headers[i]);
        assert(headers[i] + 4 <= headers[n - 1]);
        assert(out.subrange(p, p + 4) =~= b.subrange(p, p + 4));
    }
}

/// After an allocation of `n` bytes, every open atom's body size has grown by `n`, if that does
/// not overflow.
pub proof fn lemma_after_alloc_sizes(v: SpaceView, n: nat)
    requires
        v.wf(),
        v.sizes_fit(n),
        after_alloc(v, n) is Some,
    ensures
        after_alloc(v, n).unwrap().wf(),
        forall|i: int|
            0 <= i < v.headers.len() ==> read_u32(after_alloc(v, n).unwrap().bytes, #[trigger] v.headers[i] as int)
                == read_u32(v.bytes, v.headers[i] as int) + n,
{
    let g = v.grow(v.allocated + n).unwrap();
    lemma_grow(v, v.allocated + n);
    let w = after_alloc(v, n).unwrap();
    assert(headers_apart(g, v.headers));
    lemma_add_to_sizes(g, v.headers, n as int, 0);
    assert forall|i: int| 0 <= i < v.headers.len() implies read_u32(w.bytes, #[trigger] v.headers[i] as int)
        == read_u32(v.bytes, v.headers[i] as int) + n by {
        let h = v.headers[i] as int;
        lemma_add_to_sizes_at(g, v.headers, n as int, i);
        assert(g.subrange(h, h + 4) =~= v.bytes.subrange(h, h + 4));
    }
}

/// After giving back `n` bytes, every open atom's body size has shrunk by `n`.
pub proof fn lemma_rewound_sizes(v: SpaceView, n: nat)
    requires
        v.wf(),
        v.bodies_at_least(n),
        n <= v.allocated,
    ensures
        forall|i: int|
            0 <= i < v.headers.len() ==> read_u32(v.rewound(n).bytes, #[trigger] v.headers[i] as int)
                == read_u32(v.bytes, v.headers[i] as int) - n,
        v.rewound(n).bytes.len() == v.bytes.len(),
{
    lemma_add_to_sizes(v.bytes, v.headers, -n, 0);
    assert forall|i: int| 0 <= i < v.headers.len() implies read_u32(v.rewound(n).bytes, #[trigger] v.headers[i] as int)
        == read_u32(v.bytes, v.headers[i] as int) - n by {
        lemma_add_to_sizes_at(v.bytes, v.headers, -n, i);
    }
}

} // verus!

verus! {

impl SpaceView {
    /// The body size recorded in the header of every open atom counts exactly the bytes
    /// allocated after that header.
    pub open spec fn sizes_consistent(self) -> bool {
        forall|i: int|
            0 <= i < self.headers.len() ==> read_u32(self.bytes, #[trigger] self.headers[i] as int)
                + self.headers[i] + header_size() == self.allocated
    }
}

} // verus!
