//! Properties that relate the operations of the library to each other.
use crate::atoms::scalar::{padded_scalar, read_value_result};
use crate::atoms::vector::decode_all;
use crate::encoding::{encode_all, lemma_encode_all_len, Pod, Layout};
use crate::header::AtomHeader;
use crate::space::model::{
    after_alloc, header_size, lemma_add_to_sizes, lemma_add_to_sizes_at, lemma_add_to_sizes_frame,
    lemma_after_alloc_sizes, lemma_grow, lemma_rewound_sizes, lemma_splice_len, read_u32, splice,
    SpaceView,
};
use crate::space::reader::spec_atom_read;
use crate::space::terminated::{after_terminated_alloc, terminated_start};
use crate::space::writer::after_aligned_write;
use crate::util::{lemma_padding, padding_for, values_for_bytes};
use crate::atoms::sequence::stamp_in_order;
use vstd::prelude::*;

verus! {

/// After every allocation through a terminated writer, the allocated bytes end with the
/// terminator, right after the requested bytes, which start on the previous terminator if
/// there was one.
pub proof fn law_terminated_ends_with_terminator(
    inner: SpaceView,
    wrote: bool,
    size: nat,
    terminator: u8,
)
    requires
        inner.wf(),
        wrote ==> 1 <= inner.allocated,
        after_terminated_alloc(inner, wrote, size, terminator) is Some,
    ensures
        ({
            let w = after_terminated_alloc(inner, wrote, size, terminator).unwrap();
            &&& w.allocated == terminated_start(inner, wrote) + size + 1
            &&& w.bytes[w.allocated - 1] == terminator
        }),
{
    let n = if wrote { size } else { size + 1 };
    let v1 = after_alloc(inner, n).unwrap();
    lemma_grow(inner, inner.allocated + n);
    let g = inner.grow(inner.allocated + n).unwrap();
    assert(forall|i: int| 0 <= i < inner.headers.len() ==> #[trigger] inner.headers[i] + 4 <= g.len())
        by {
        assert forall|i: int| 0 <= i < inner.headers.len() implies #[trigger] inner.headers[i] + 4
            <= g.len() by {
            assert(inner.headers[i] + header_size() <= inner.allocated);
        }
    }
    lemma_add_to_sizes(g, inner.headers, n as int, 0);
    lemma_splice_len(v1.bytes, (terminated_start(inner, wrote) + size) as int, seq![terminator]);
}

/// Giving back the bytes of an allocation restores the number of allocated bytes and the body
/// size of every open atom.
pub proof fn law_rewind_undoes_allocate(v: SpaceView, n: nat)
    requires
        v.wf(),
        v.sizes_fit(n),
        after_alloc(v, n) is Some,
    ensures
        ({
            let w = after_alloc(v, n).unwrap();
            &&& w.rewound(n).allocated == v.allocated
            &&& w.rewound(n).headers == v.headers
            &&& forall|i: int|
                0 <= i < v.headers.len() ==> read_u32(w.rewound(n).bytes, #[trigger] v.headers[i] as int)
                    == read_u32(v.bytes, v.headers[i] as int)
        }),
{
    let w = after_alloc(v, n).unwrap();
    lemma_after_alloc_sizes(v, n);
    assert(w.bodies_at_least(n)) by {
        assert forall|i: int| 0 <= i < w.headers.len() implies read_u32(
            w.bytes,
            #[trigger] w.headers[i] as int,
        ) >= n by {
            assert(w.headers[i] == v.headers[i]);
        }
    }
    lemma_rewound_sizes(w, n);
    assert forall|i: int| 0 <= i < v.headers.len() implies read_u32(
        w.rewound(n).bytes,
        #[trigger] v.headers[i] as int,
    ) == read_u32(v.bytes, v.headers[i] as int) by {
        assert(w.headers[i] == v.headers[i]);
    }
}

/// Decoding the bytes of several values, stored one after the other, gives the values back.
pub proof fn law_decode_all_encode_all<T: Pod>(values: Seq<T>)
    ensures
        decode_all::<T>(encode_all(values)) == values,
    decreases values.len(),
{
    T::lemma_layout();
    let size = T::spec_size();
    let bytes = encode_all(values);
    lemma_encode_all_len(values);
    let n = values.len();
    assert((n * size) as int / size as int == n) by (nonlinear_arith)
        requires
            size >= 1,
    ;
    assert forall|i: int| 0 <= i < n implies #[trigger] decode_all::<T>(bytes)[i] == values[i] by {
        lemma_encode_all_at(values, i);
        T::lemma_roundtrip(values[i]);
    }
    assert(decode_all::<T>(bytes) =~= values);
}

/// The bytes of value `i` among several values stored one after the other.
proof fn lemma_encode_all_at<T: Pod>(values: Seq<T>, i: int)
    requires
        0 <= i < values.len(),
    ensures
        0 <= i * T::spec_size(),
        (i + 1) * T::spec_size() <= encode_all(values).len(),
        encode_all(values).subrange(i * T::spec_size(), (i + 1) * T::spec_size())
            == values[i].spec_encode(),
    decreases values.len(),
{
    T::lemma_layout();
    let size = T::spec_size();
    let n = values.len();
    let front = values.drop_last();
    lemma_encode_all_len(values);
    lemma_encode_all_len(front);
    T::lemma_roundtrip(values.last());
    assert(0 <= i * size && (i + 1) * size == i * size + size) by (nonlinear_arith)
        requires
            0 <= i,
    ;
    assert((i + 1) * size <= n * size) by (nonlinear_arith)
        requires
            i < n,
            size >= 1,
    ;
    let all = encode_all(values);
    assert(all == encode_all(front) + values.last().spec_encode());
    if i == n - 1 {
        assert((n - 1) * size == n * size - size) by (nonlinear_arith);
        assert(all.subrange(i * size, (i + 1) * size) =~= values.last().spec_encode());
    } else {
        lemma_encode_all_at(front, i);
        assert((i + 1) * size <= (n - 1) * size) by (nonlinear_arith)
            requires
                i < n - 1,
                size >= 1,
        ;
        assert(all.subrange(i * size, (i + 1) * size) =~= encode_all(front).subrange(
            i * size,
            (i + 1) * size,
        ));
        assert(front[i] == values[i]);
    }
}

/// Values that are stored the same way are the same.
pub proof fn law_encode_all_injective<T: Pod>(a: Seq<T>, b: Seq<T>)
    requires
        encode_all(a) == encode_all(b),
    ensures
        a == b,
{
    T::lemma_layout();
    lemma_encode_all_len(a);
    lemma_encode_all_len(b);
    assert(a.len() == b.len()) by (nonlinear_arith)
        requires
            a.len() * T::spec_size() == b.len() * T::spec_size(),
            T::spec_size() >= 1,
    ;
    law_decode_all_encode_all(a);
    law_decode_all_encode_all(b);
}

} // verus!

verus! {

/// An allocation keeps the body sizes of the open atoms consistent with the allocated bytes,
/// as long as they fit their `u32` fields.
pub proof fn law_allocate_keeps_sizes_consistent(v: SpaceView, n: nat)
    requires
        v.wf(),
        v.sizes_consistent(),
        v.allocated + n <= u32::MAX,
        after_alloc(v, n) is Some,
    ensures
        after_alloc(v, n).unwrap().wf(),
        after_alloc(v, n).unwrap().sizes_consistent(),
{
    assert(v.sizes_fit(n)) by {
        assert forall|i: int| 0 <= i < v.headers.len() implies read_u32(
            v.bytes,
            #[trigger] v.headers[i] as int,
        ) + n <= u32::MAX by {
            assert(read_u32(v.bytes, v.headers[i] as int) + v.headers[i] + header_size()
                == v.allocated);
        }
    }
    lemma_after_alloc_sizes(v, n);
    let w = after_alloc(v, n).unwrap();
    assert forall|i: int| 0 <= i < w.headers.len() implies read_u32(
        w.bytes,
        #[trigger] w.headers[i] as int,
    ) + w.headers[i] + header_size() == w.allocated by {
        assert(w.headers[i] == v.headers[i]);
        assert(read_u32(v.bytes, v.headers[i] as int) + v.headers[i] + header_size()
            == v.allocated);
    }
}

/// Giving back allocated bytes keeps the body sizes of the open atoms consistent with the
/// allocated bytes.
pub proof fn law_rewind_keeps_sizes_consistent(v: SpaceView, n: nat)
    requires
        v.wf(),
        v.sizes_consistent(),
        n <= v.allocated,
        v.bodies_at_least(n),
    ensures
        v.rewound(n).sizes_consistent(),
{
    lemma_rewound_sizes(v, n);
    let w = v.rewound(n);
    assert forall|i: int| 0 <= i < w.headers.len() implies read_u32(
        w.bytes,
        #[trigger] w.headers[i] as int,
    ) + w.headers[i] + header_size() == w.allocated by {
        assert(read_u32(v.bytes, v.headers[i] as int) + v.headers[i] + header_size()
            == v.allocated);
        assert(read_u32(v.bytes, v.headers[i] as int) >= n);
    }
}

/// Writing into the body of the innermost open atom keeps the body sizes consistent.
pub proof fn law_write_keeps_sizes_consistent(v: SpaceView, pos: nat, data: Seq<u8>)
    requires
        v.wf(),
        v.sizes_consistent(),
        v.body_start() <= pos,
        pos + data.len() <= v.allocated,
    ensures
        (SpaceView { bytes: splice(v.bytes, pos as int, data), ..v }).sizes_consistent(),
{
    let w = SpaceView { bytes: splice(v.bytes, pos as int, data), ..v };
    lemma_splice_len(v.bytes, pos as int, data);
    assert forall|i: int| 0 <= i < w.headers.len() implies read_u32(
        w.bytes,
        #[trigger] w.headers[i] as int,
    ) + w.headers[i] + header_size() == w.allocated by {
        let h = v.headers[i] as int;
        assert(v.headers[i] + header_size() <= v.headers.last() + header_size());
        assert(w.bytes.subrange(h, h + 4) =~= v.bytes.subrange(h, h + 4));
    }
}

/// Writing the header of a new, empty atom makes it an open atom whose body size is
/// consistent with the allocated bytes, and keeps the other body sizes consistent.
pub proof fn law_new_atom_sizes_consistent(v: SpaceView, urid: u32)
    requires
        v.wf(),
        v.sizes_consistent(),
        v.allocated + 16 <= u32::MAX,
        after_aligned_write(v, 8, 8, (AtomHeader { size: 0, type_: urid }).spec_encode()) is Some,
    ensures
        ({
            let v1 = after_aligned_write(
                v,
                8,
                8,
                (AtomHeader { size: 0, type_: urid }).spec_encode(),
            ).unwrap();
            let h = v.allocated + padding_for(v.allocated, 8);
            (SpaceView { headers: v1.headers.push(h), ..v1 }).sizes_consistent()
        }),
{
    let header = AtomHeader { size: 0, type_: urid };
    AtomHeader::lemma_roundtrip(header);
    lemma_padding(v.allocated, 8);
    let pad = padding_for(v.allocated, 8);
    law_allocate_keeps_sizes_consistent(v, pad + 8);
    let w = after_alloc(v, pad + 8).unwrap();
    let h = v.allocated + pad;
    law_write_keeps_sizes_consistent(w, h, header.spec_encode());
    let v1 = SpaceView { bytes: splice(w.bytes, h as int, header.spec_encode()), ..w };
    let v2 = SpaceView { headers: v1.headers.push(h), ..v1 };
    lemma_splice_len(w.bytes, h as int, header.spec_encode());
    assert forall|i: int| 0 <= i < v2.headers.len() implies read_u32(
        v2.bytes,
        #[trigger] v2.headers[i] as int,
    ) + v2.headers[i] + header_size() == v2.allocated by {
        if i == v2.headers.len() - 1 {
            assert(v2.bytes.subrange(h as int, (h + 4) as int) =~= header.spec_encode().subrange(0, 4));
        } else {
            assert(v2.headers[i] == v1.headers[i]);
        }
    }
}

} // verus!

verus! {

/// The state after writing the header of a new, empty atom of type `urid`, with that atom
/// open.
pub open spec fn after_new_atom(v: SpaceView, urid: u32) -> Option<SpaceView> {
    match after_aligned_write(v, 8, 8, (AtomHeader { size: 0, type_: urid }).spec_encode()) {
        Some(v1) => Some(
            SpaceView {
                headers: v1.headers.push(v.allocated + padding_for(v.allocated, 8)),
                ..v1
            },
        ),
        None => None,
    }
}

/// Writing a scalar atom, its header and then its value, at an aligned position outside of
/// any open atom, and reading the atom back from there gives its type and its value.
pub proof fn law_scalar_roundtrip<T: Pod>(v: SpaceView, urid: u32, value: T)
    requires
        v.wf(),
        v.headers.len() == 0,
        v.allocated % 8 == 0,
        after_new_atom(v, urid) is Some,
        after_aligned_write(after_new_atom(v, urid).unwrap(), 8, 8, padded_scalar(value)) is Some,
    ensures
        ({
            let w = after_aligned_write(
                after_new_atom(v, urid).unwrap(),
                8,
                8,
                padded_scalar(value),
            ).unwrap();
            let a = v.allocated as int;
            let atom = w.bytes.subrange(a, a + 16);
            &&& w.allocated == a + 16
            &&& spec_atom_read(atom, a as nat) == Ok::<(nat, nat), crate::space::error::AtomReadError>((0nat, 16nat))
            &&& AtomHeader::spec_decode(atom.subrange(0, 8)) == (AtomHeader { size: 8, type_: urid })
            &&& read_value_result::<T>(atom.subrange(8, 16)) == Ok::<T, crate::space::error::AtomReadError>(value)
        }),
{
    T::lemma_layout();
    T::lemma_roundtrip(value);
    let a = v.allocated;
    let ai = a as int;
    let h0 = AtomHeader { size: 0, type_: urid };
    AtomHeader::lemma_roundtrip(h0);
    let h0e = h0.spec_encode();
    crate::util::lemma_padding_at_atom_boundary(a, 8);
    crate::util::lemma_padding_at_atom_boundary(a + 8, 8);
    // The header.
    let g1 = v.grow(a + 8).unwrap();
    lemma_grow(v, a + 8);
    let w0 = after_alloc(v, 8).unwrap();
    assert(w0.bytes == g1);
    let v1 = SpaceView { bytes: splice(g1, a as int, h0e), ..w0 };
    lemma_splice_len(g1, a as int, h0e);
    let w1 = after_new_atom(v, urid).unwrap();
    assert(w1.bytes == v1.bytes);
    assert(w1.headers =~= seq![a]);
    assert(w1.allocated == a + 8);
    // The value.
    let p = padded_scalar(value);
    assert(p.len() == 8);
    let g2 = w1.grow(a + 16).unwrap();
    lemma_grow(w1, a + 16);
    assert(g2.subrange(ai, ai + 8) =~= h0e) by {
        assert(w1.bytes.subrange(ai, ai + 8) =~= h0e);
    }
    let b2 = crate::space::model::add_to_sizes(g2, w1.headers, 8);
    assert(crate::space::model::headers_apart(g2, w1.headers));
    lemma_add_to_sizes_at(g2, w1.headers, 8, 0);
    assert(read_u32(g2, ai) == 0) by {
        assert(g2.subrange(ai, ai + 4) =~= h0e.subrange(0, 4));
    }
    assert(read_u32(b2, ai) == 8);
    lemma_add_to_sizes(g2, w1.headers, 8, 0);
    assert forall|k: int| a + 4 <= k < a + 8 implies b2[k] == g2[k] by {
        lemma_add_to_sizes_frame(g2, w1.headers, 8, k);
    }
    let w = after_aligned_write(w1, 8, 8, p).unwrap();
    assert(w.bytes == splice(b2, ai + 8, p));
    lemma_splice_len(b2, ai + 8, p);
    let atom = w.bytes.subrange(ai, ai + 16);
    assert(atom.subrange(0, 4) =~= b2.subrange(ai, ai + 4));
    assert(atom.subrange(4, 8) =~= h0e.subrange(4, 8));
    assert(atom.subrange(8, 16) =~= p);
    assert(atom.subrange(8, 16).subrange(0, T::spec_size() as int) =~= value.spec_encode());
    assert(AtomHeader::spec_decode(atom.subrange(0, 8)).size == 8) by {
        assert(atom.subrange(0, 8).subrange(0, 4) =~= atom.subrange(0, 4));
    }
    assert(AtomHeader::spec_decode(atom.subrange(0, 8)).type_ == urid) by {
        assert(atom.subrange(0, 8).subrange(4, 8) =~= atom.subrange(4, 8));
        crate::encoding::lemma_u32_roundtrip(0);
        crate::encoding::lemma_u32_roundtrip(urid);
        assert(h0e.subrange(4, 8) =~= crate::encoding::encode_u32(urid));
    }
}

} // verus!

verus! {

/// Writing an atom, its header and then the bytes of its body, at an aligned position outside
/// of any open atom, and reading the atom back from there gives its type, its size and its
/// body.
pub proof fn law_atom_roundtrip(v: SpaceView, urid: u32, body: Seq<u8>)
    requires
        v.wf(),
        v.headers.len() == 0,
        v.allocated % 8 == 0,
        body.len() <= u32::MAX,
        after_new_atom(v, urid) is Some,
        after_alloc(after_new_atom(v, urid).unwrap(), body.len()) is Some,
    ensures
        ({
            let w1 = after_new_atom(v, urid).unwrap();
            let w2 = after_alloc(w1, body.len()).unwrap();
            let bytes = splice(w2.bytes, w1.allocated as int, body);
            let a = v.allocated as int;
            let atom = bytes.subrange(a, a + 8 + body.len());
            &&& w1.allocated == a + 8
            &&& w2.allocated == a + 8 + body.len()
            &&& spec_atom_read(atom, a as nat) == Ok::<(nat, nat), crate::space::error::AtomReadError>((0nat, (body.len() + 8) as nat))
            &&& AtomHeader::spec_decode(atom.subrange(0, 8)) == (AtomHeader { size: body.len() as u32, type_: urid })
            &&& atom.subrange(8, atom.len() as int) == body
        }),
{
    let a = v.allocated;
    let ai = a as int;
    let n = body.len();
    let h0 = AtomHeader { size: 0, type_: urid };
    AtomHeader::lemma_roundtrip(h0);
    let h0e = h0.spec_encode();
    crate::util::lemma_padding_at_atom_boundary(a, 8);
    crate::encoding::lemma_u32_roundtrip(0);
    crate::encoding::lemma_u32_roundtrip(urid);
    crate::encoding::lemma_u32_roundtrip(n as u32);
    // The header.
    let g1 = v.grow(a + 8).unwrap();
    lemma_grow(v, a + 8);
    lemma_splice_len(g1, ai, h0e);
    let w1 = after_new_atom(v, urid).unwrap();
    assert(w1.headers =~= seq![a]);
    assert(w1.bytes.subrange(ai, ai + 8) =~= h0e);
    // The body.
    let g2 = w1.grow(a + 8 + n).unwrap();
    lemma_grow(w1, a + 8 + n);
    assert(g2.subrange(ai, ai + 8) =~= h0e) by {
        assert(g2.subrange(ai, ai + 8) =~= w1.bytes.subrange(ai, ai + 8));
    }
    let b2 = crate::space::model::add_to_sizes(g2, w1.headers, n as int);
    assert(crate::space::model::headers_apart(g2, w1.headers));
    lemma_add_to_sizes_at(g2, w1.headers, n as int, 0);
    assert(read_u32(g2, ai) == 0) by {
        assert(g2.subrange(ai, ai + 4) =~= h0e.subrange(0, 4));
    }
    assert(read_u32(b2, ai) == n);
    lemma_add_to_sizes(g2, w1.headers, n as int, 0);
    assert forall|k: int| ai + 4 <= k < ai + 8 implies b2[k] == g2[k] by {
        lemma_add_to_sizes_frame(g2, w1.headers, n as int, k);
    }
    let w2 = after_alloc(w1, n).unwrap();
    assert(w2.bytes == b2);
    let bytes = splice(b2, ai + 8, body);
    lemma_splice_len(b2, ai + 8, body);
    let atom = bytes.subrange(ai, ai + 8 + n);
    assert(atom.subrange(0, 4) =~= b2.subrange(ai, ai + 4));
    assert(atom.subrange(4, 8) =~= h0e.subrange(4, 8));
    assert(atom.subrange(8, atom.len() as int) =~= body);
    assert(AtomHeader::spec_decode(atom.subrange(0, 8)).size == n) by {
        assert(atom.subrange(0, 8).subrange(0, 4) =~= atom.subrange(0, 4));
    }
    assert(AtomHeader::spec_decode(atom.subrange(0, 8)).type_ == urid) by {
        assert(atom.subrange(0, 8).subrange(4, 8) =~= atom.subrange(4, 8));
        assert(h0e.subrange(4, 8) =~= crate::encoding::encode_u32(urid));
    }
}

/// Reading the children of a vector body made of a vector header for values of the scalar
/// type `C` and the stored values gives the values back.
pub proof fn law_vector_children_roundtrip<C: crate::atoms::scalar::ScalarAtom>(
    atom_type: u32,
    values: Seq<C::InternalType>,
)
    ensures
        ({
            let header = crate::atoms::bodies::VectorBody {
                child_size: C::InternalType::spec_size() as u32,
                child_type: atom_type,
            };
            let body = header.spec_encode() + encode_all(values);
            &&& crate::atoms::bodies::VectorBody::spec_decode(body.subrange(0, 8)) == header
            &&& crate::atoms::vector::vector_children_result::<C>(
                header,
                body.subrange(8, body.len() as int),
                atom_type,
            ) == Ok::<Seq<C::InternalType>, crate::space::error::AtomReadError>(values)
        }),
{
    C::InternalType::lemma_layout();
    let header = crate::atoms::bodies::VectorBody {
        child_size: C::InternalType::spec_size() as u32,
        child_type: atom_type,
    };
    crate::atoms::bodies::VectorBody::lemma_roundtrip(header);
    let body = header.spec_encode() + encode_all(values);
    assert(body.subrange(0, 8) =~= header.spec_encode());
    assert(body.subrange(8, body.len() as int) =~= encode_all(values));
    law_decode_all_encode_all(values);
}

/// A text without zero bytes, followed by a zero byte, is read back as a string: the body is
/// null-terminated and the text is everything before the terminator.
pub proof fn law_string_body_roundtrip(text: Seq<u8>)
    requires
        forall|i: int| 0 <= i < text.len() ==> #[trigger] text[i] != 0,
    ensures
        crate::atoms::string::nul_terminated(text.push(0)),
        text.push(0).drop_last() == text,
{
    assert(text.push(0).drop_last() =~= text);
    assert forall|i: int| 0 <= i < text.push(0).len() - 1 implies #[trigger] text.push(0)[i] != 0 by {
        assert(text.push(0)[i] == text[i]);
    }
}

} // verus!

verus! {

/// The bytes of a whole atom whose header announces a body of `body.len()` bytes.
pub open spec fn atom_bytes(urid: u32, body: Seq<u8>) -> Seq<u8> {
    (AtomHeader { size: body.len() as u32, type_: urid }).spec_encode() + body
}

/// Reading a whole atom that starts at an aligned position gives the whole atom.
proof fn lemma_atom_bytes_read(urid: u32, body: Seq<u8>, rest: Seq<u8>, addr: nat)
    requires
        addr % 8 == 0,
        body.len() <= u32::MAX,
    ensures
        spec_atom_read(atom_bytes(urid, body) + rest, addr) == Ok::<
            (nat, nat),
            crate::space::error::AtomReadError,
        >((0nat, (body.len() + 8) as nat)),
{
    let h = AtomHeader { size: body.len() as u32, type_: urid };
    AtomHeader::lemma_roundtrip(h);
    crate::util::lemma_padding_at_atom_boundary(addr, 8);
    let all = atom_bytes(urid, body) + rest;
    assert(all.subrange(0, 8) =~= h.spec_encode());
}

/// Reading a property made of its header and a whole atom gives back the key, the context (0
/// for none) and the atom.
pub proof fn law_property_roundtrip(key: u32, context: u32, urid: u32, body: Seq<u8>, rest: Seq<u8>, addr: nat)
    requires
        addr % 8 == 0,
        key != 0,
        body.len() <= u32::MAX,
    ensures
        ({
            let bytes = (crate::atoms::bodies::PropertyBody { key, context }).spec_encode()
                + atom_bytes(urid, body) + rest;
            crate::atoms::object::spec_property_read(bytes, addr) == Ok::<
                (crate::atoms::object::PropertyHeader, nat, nat),
                crate::space::error::AtomReadError,
            >(
                (
                    crate::atoms::object::PropertyHeader {
                        key,
                        context: crate::atoms::object::optional_urid(context),
                    },
                    8nat,
                    (body.len() + 8) as nat,
                ),
            )
        }),
{
    let pb = crate::atoms::bodies::PropertyBody { key, context };
    crate::atoms::bodies::PropertyBody::lemma_roundtrip(pb);
    crate::util::lemma_padding_at_atom_boundary(addr, 8);
    let bytes = pb.spec_encode() + atom_bytes(urid, body) + rest;
    assert(bytes.subrange(0, 8) =~= pb.spec_encode());
    assert(bytes.subrange(8, bytes.len() as int) =~= atom_bytes(urid, body) + rest);
    lemma_atom_bytes_read(urid, body, rest, addr + 8);
}

/// Reading an event made of its time stamp and a whole atom gives back the time stamp and the
/// atom.
pub proof fn law_event_roundtrip(time_stamp: i64, urid: u32, body: Seq<u8>, rest: Seq<u8>, addr: nat)
    requires
        addr % 8 == 0,
        body.len() <= u32::MAX,
    ensures
        ({
            let bytes = time_stamp.spec_encode() + atom_bytes(urid, body) + rest;
            crate::atoms::sequence::spec_event_read(bytes, addr) == Ok::<
                (u64, nat, nat),
                crate::space::error::AtomReadError,
            >((time_stamp as u64, 8nat, (body.len() + 8) as nat))
        }),
{
    i64::lemma_roundtrip(time_stamp);
    u64::lemma_roundtrip(time_stamp as u64);
    crate::util::lemma_padding_at_atom_boundary(addr, 8);
    let bytes = time_stamp.spec_encode() + atom_bytes(urid, body) + rest;
    assert(bytes.subrange(0, 8) =~= time_stamp.spec_encode());
    assert(bytes.subrange(8, bytes.len() as int) =~= atom_bytes(urid, body) + rest);
    lemma_atom_bytes_read(urid, body, rest, addr + 8);
}

/// The header of an object is read back as it was written, if its type is not 0 and its id,
/// if any, is not 0.
pub proof fn law_object_header_roundtrip(header: crate::atoms::object::ObjectHeader)
    requires
        header.otype != 0,
        header.id != Some(0u32),
    ensures
        crate::atoms::object::object_header_of(
            crate::atoms::bodies::ObjectBody::spec_decode(
                (crate::atoms::bodies::ObjectBody {
                    id: crate::atoms::object::raw_urid(header.id),
                    otype: header.otype,
                }).spec_encode(),
            ),
        ) == Ok::<crate::atoms::object::ObjectHeader, crate::space::error::AtomReadError>(header),
{
    crate::atoms::bodies::ObjectBody::lemma_roundtrip(
        crate::atoms::bodies::ObjectBody {
            id: crate::atoms::object::raw_urid(header.id),
            otype: header.otype,
        },
    );
}

/// The information of a literal is read back as it was written, if its URID is not 0.
pub proof fn law_literal_info_roundtrip(info: crate::atoms::string::LiteralInfo)
    requires
        match info {
            crate::atoms::string::LiteralInfo::Language(u) => u != 0,
            crate::atoms::string::LiteralInfo::Datatype(u) => u != 0,
        },
    ensures
        crate::atoms::string::literal_info_of(
            crate::atoms::bodies::LiteralBody::spec_decode(
                crate::atoms::string::literal_body_of(info).spec_encode(),
            ),
        ) == Ok::<crate::atoms::string::LiteralInfo, &'static str>(info),
{
    crate::atoms::bodies::LiteralBody::lemma_roundtrip(crate::atoms::string::literal_body_of(info));
}

} // verus!

verus! {

/// Whether each time stamp of `stamps` may follow the one before it, the first one following
/// `start`.
pub open spec fn stamps_in_order(start: Option<i64>, stamps: Seq<i64>) -> bool {
    forall|i: int|
        0 <= i < stamps.len() ==> stamp_in_order(
            if i == 0 {
                start
            } else {
                Some(stamps[i - 1])
            },
            #[trigger] stamps[i],
        )
}

/// Time stamps that each follow the one before are in order from any one to any later one.
proof fn lemma_stamps_chain(stamps: Seq<i64>, i: int, j: int)
    requires
        forall|k: int| 0 < k < stamps.len() ==> stamps[k - 1] <= #[trigger] stamps[k],
        0 <= i <= j < stamps.len(),
    ensures
        stamps[i] <= stamps[j],
    decreases j - i,
{
    if i < j {
        lemma_stamps_chain(stamps, i, j - 1);
        assert(stamps[j - 1] <= stamps[j]);
    }
}

/// The time stamps written into a sequence, one after the other, never decrease, and none is
/// smaller than the last one written before them.
pub proof fn law_written_stamps_never_decrease(start: Option<i64>, stamps: Seq<i64>)
    requires
        stamps_in_order(start, stamps),
    ensures
        forall|i: int, j: int| 0 <= i <= j < stamps.len() ==> stamps[i] <= stamps[j],
        start matches Some(l) ==> forall|i: int| 0 <= i < stamps.len() ==> l <= #[trigger] stamps[i],
{
    assert forall|k: int| 0 < k < stamps.len() implies stamps[k - 1] <= #[trigger] stamps[k] by {
        assert(stamp_in_order(Some(stamps[k - 1]), stamps[k]));
    }
    assert forall|i: int, j: int| 0 <= i <= j < stamps.len() implies stamps[i] <= stamps[j] by {
        lemma_stamps_chain(stamps, i, j);
    }
    if start is Some && stamps.len() > 0 {
        assert(stamp_in_order(start, stamps[0]));
        assert forall|i: int| 0 <= i < stamps.len() implies start.unwrap() <= #[trigger] stamps[i] by {
            lemma_stamps_chain(stamps, 0, i);
        }
    }
}

/// The state after a series of allocations of the given sizes, if each of them fits.
pub open spec fn after_allocs(v: SpaceView, sizes: Seq<nat>) -> Option<SpaceView>
    decreases sizes.len(),
{
    if sizes.len() == 0 {
        Some(v)
    } else {
        match after_allocs(v, sizes.drop_last()) {
            Some(w) => after_alloc(w, sizes.last()),
            None => None,
        }
    }
}

/// The sum of the given sizes.
pub open spec fn total(sizes: Seq<nat>) -> nat
    decreases sizes.len(),
{
    if sizes.len() == 0 {
        0
    } else {
        total(sizes.drop_last()) + sizes.last()
    }
}

/// An allocation keeps the type in the header of every atom being written.
proof fn lemma_alloc_keeps_types(v: SpaceView, n: nat)
    requires
        v.wf(),
        after_alloc(v, n) is Some,
    ensures
        forall|i: int|
            0 <= i < v.headers.len() ==> read_u32(after_alloc(v, n).unwrap().bytes, #[trigger] v.headers[i] + 4int)
                == read_u32(v.bytes, v.headers[i] + 4int),
{
    let g = v.grow(v.allocated + n).unwrap();
    lemma_grow(v, v.allocated + n);
    let w = after_alloc(v, n).unwrap();
    assert forall|i: int| 0 <= i < v.headers.len() implies read_u32(w.bytes, #[trigger] v.headers[i] + 4int)
        == read_u32(v.bytes, v.headers[i] + 4int) by {
        let h = v.headers[i] as int;
        assert forall|k: int| h + 4 <= k < h + 8 implies #[trigger] w.bytes[k] == v.bytes[k] by {
            assert forall|j: int| 0 <= j < v.headers.len() implies k < #[trigger] v.headers[j]
                || v.headers[j] + 4 <= k by {
                if j < i {
                    assert(v.headers[j] + header_size() <= v.headers[i]);
                } else if j > i {
                    assert(v.headers[i] + header_size() <= v.headers[j]);
                }
            }
            assert forall|j: int| 0 <= j < v.headers.len() implies #[trigger] v.headers[j] + 4
                <= g.len() by {
                assert(v.headers[j] + header_size() <= v.allocated);
            }
            lemma_add_to_sizes_frame(g, v.headers, n as int, k);
            assert(h + 8 <= v.allocated);
            assert(g.subrange(0, v.bytes.len() as int)[k] == v.bytes[k]);
        }
        assert(w.bytes[h + 4] == v.bytes[h + 4]);
        assert(h + 8 <= v.allocated);
        assert(g.len() >= v.bytes.len());
        assert(w.bytes.len() == g.len()) by {
            assert forall|j: int| 0 <= j < v.headers.len() implies #[trigger] v.headers[j] + 4
                <= g.len() by {
                assert(v.headers[j] + header_size() <= v.allocated);
            }
            assert forall|j: int| 0 <= j < v.headers.len() implies h + 4 < #[trigger] v.headers[j]
                || v.headers[j] + 4 <= h + 4 by {
                if j < i {
                    assert(v.headers[j] + header_size() <= v.headers[i]);
                } else if j > i {
                    assert(v.headers[i] + header_size() <= v.headers[j]);
                }
            }
            lemma_add_to_sizes_frame(g, v.headers, n as int, h + 4);
        }
        assert(w.bytes.subrange(h + 4, h + 8) =~= v.bytes.subrange(h + 4, h + 8));
    }
}

/// After a series of allocations that all succeed, the body size in the header of every atom
/// being written has grown by their total, as long as that fits its `u32` field, and its type
/// is kept.
pub proof fn law_allocations_add_up(v: SpaceView, sizes: Seq<nat>)
    requires
        v.wf(),
        after_allocs(v, sizes) is Some,
        forall|i: int|
            0 <= i < v.headers.len() ==> read_u32(v.bytes, #[trigger] v.headers[i] as int)
                + total(sizes) <= u32::MAX,
    ensures
        ({
            let w = after_allocs(v, sizes).unwrap();
            &&& w.wf()
            &&& w.headers == v.headers
            &&& w.allocated == v.allocated + total(sizes)
            &&& forall|i: int|
                0 <= i < v.headers.len() ==> read_u32(w.bytes, #[trigger] v.headers[i] as int)
                    == read_u32(v.bytes, v.headers[i] as int) + total(sizes)
            &&& forall|i: int|
                0 <= i < v.headers.len() ==> read_u32(w.bytes, #[trigger] v.headers[i] + 4int)
                    == read_u32(v.bytes, v.headers[i] + 4int)
        }),
    decreases sizes.len(),
{
    if sizes.len() > 0 {
        let front = sizes.drop_last();
        let n = sizes.last();
        assert(total(sizes) == total(front) + n);
        law_allocations_add_up(v, front);
        let w0 = after_allocs(v, front).unwrap();
        assert(w0.sizes_fit(n)) by {
            assert forall|i: int| 0 <= i < w0.headers.len() implies read_u32(
                w0.bytes,
                #[trigger] w0.headers[i] as int,
            ) + n <= u32::MAX by {
                assert(w0.headers[i] == v.headers[i]);
            }
        }
        lemma_after_alloc_sizes(w0, n);
        lemma_alloc_keeps_types(w0, n);
        let w = after_alloc(w0, n).unwrap();
        assert forall|i: int| 0 <= i < v.headers.len() implies read_u32(
            w.bytes,
            #[trigger] v.headers[i] as int,
        ) == read_u32(v.bytes, v.headers[i] as int) + total(sizes) by {
            assert(w0.headers[i] == v.headers[i]);
        }
        assert forall|i: int| 0 <= i < v.headers.len() implies read_u32(
            w.bytes,
            #[trigger] v.headers[i] + 4int,
        ) == read_u32(v.bytes, v.headers[i] + 4int) by {
            assert(w0.headers[i] == v.headers[i]);
        }
    }
}

/// Counting bytes back into values undoes counting values into bytes, and the count of values
/// for a number of bytes is the least that holds them.
pub proof fn law_index_conversions(n: nat, bytes: nat, size: nat)
    requires
        size > 0,
    ensures
        values_for_bytes(n * size, size) == n,
        values_for_bytes(bytes, size) * size >= bytes,
        values_for_bytes(bytes, size) > 0 ==> (values_for_bytes(bytes, size) - 1) * size < bytes,
{
    let s = size as int;
    vstd::arithmetic::div_mod::lemma_div_multiples_vanish(n as int, s);
    vstd::arithmetic::div_mod::lemma_mod_multiples_basic(n as int, s);
    assert((n * size) as int == s * n && (n * size) as int == n * s) by (nonlinear_arith)
        requires
            s == size,
    ;
    vstd::arithmetic::div_mod::lemma_fundamental_div_mod(bytes as int, s);
    let q = bytes as int / s;
    let r = bytes as int % s;
    assert(values_for_bytes(bytes, size) * size >= bytes
        && (values_for_bytes(bytes, size) > 0 ==> (values_for_bytes(bytes, size) - 1) * size < bytes))
        by (nonlinear_arith)
        requires
            bytes == s * q + r,
            0 <= r < s,
            q >= 0,
            values_for_bytes(bytes, size) == q + if r > 0 { 1int } else { 0int },
    ;
}

} // verus!

verus! {

/// The inner writer's state after a terminated write of `data`, as `Terminated::write_bytes`
/// leaves it when it succeeds.
pub open spec fn after_terminated_write(v: SpaceView, wrote: bool, data: Seq<u8>, terminator: u8) -> Option<
    SpaceView,
> {
    match after_terminated_alloc(v, wrote, data.len(), terminator) {
        Some(w) => Some(SpaceView { bytes: splice(w.bytes, terminated_start(v, wrote) as int, data), ..w }),
        None => None,
    }
}

/// The inner writer's state after terminated writes of the given pieces, one after the other,
/// starting from a writer that has not written its terminator yet; `None` if one fails.
pub open spec fn after_terminated_writes(v: SpaceView, pieces: Seq<Seq<u8>>, terminator: u8) -> Option<
    SpaceView,
>
    decreases pieces.len(),
{
    if pieces.len() == 0 {
        Some(v)
    } else {
        match after_terminated_writes(v, pieces.drop_last(), terminator) {
            Some(w) => after_terminated_write(w, pieces.len() > 1, pieces.last(), terminator),
            None => None,
        }
    }
}

/// The pieces, one after the other.
pub open spec fn joined(pieces: Seq<Seq<u8>>) -> Seq<u8>
    decreases pieces.len(),
{
    if pieces.len() == 0 {
        Seq::empty()
    } else {
        joined(pieces.drop_last()) + pieces.last()
    }
}

/// After terminated writes of some pieces into a writer outside of any atom, the allocated
/// bytes are those allocated before, the pieces one after the other, and a single terminator.
pub proof fn law_terminated_writes(v: SpaceView, pieces: Seq<Seq<u8>>, terminator: u8)
    requires
        v.wf(),
        v.headers.len() == 0,
        pieces.len() > 0,
        after_terminated_writes(v, pieces, terminator) is Some,
    ensures
        ({
            let w = after_terminated_writes(v, pieces, terminator).unwrap();
            &&& w.wf()
            &&& w.headers.len() == 0
            &&& w.allocated == v.allocated + joined(pieces).len() + 1
            &&& w.bytes.subrange(0, w.allocated as int) == v.bytes.subrange(0, v.allocated as int)
                + joined(pieces) + seq![terminator]
        }),
    decreases pieces.len(),
{
    let front = pieces.drop_last();
    let d = pieces.last();
    let p = v.bytes.subrange(0, v.allocated as int);
    if pieces.len() == 1 {
        assert(front.len() == 0);
        assert(joined(pieces) == joined(front) + d);
        assert(joined(front) =~= Seq::<u8>::empty());
        assert(after_terminated_writes(v, front, terminator) == Some(v));
        let n = (d.len() + 1) as nat;
        lemma_grow(v, v.allocated + n);
        let g = v.grow(v.allocated + n).unwrap();
        let a = after_alloc(v, n).unwrap();
        assert(a.bytes == g);
        let b1 = splice(a.bytes, (v.allocated + d.len()) as int, seq![terminator]);
        lemma_splice_len(a.bytes, (v.allocated + d.len()) as int, seq![terminator]);
        let b2 = splice(b1, v.allocated as int, d);
        lemma_splice_len(b1, v.allocated as int, d);
        let w = after_terminated_writes(v, pieces, terminator).unwrap();
        assert(w.bytes == b2);
        assert(w.allocated == v.allocated + n);
        assert(w.bytes.subrange(0, w.allocated as int) =~= p + joined(pieces) + seq![terminator]) by {
            assert forall|k: int| 0 <= k < w.allocated implies #[trigger] w.bytes[k] == (p + joined(
                pieces,
            ) + seq![terminator])[k] by {
                if k < v.allocated {
                    assert(b2[k] == b1[k]);
                    assert(b1[k] == g[k]);
                    assert(g.subrange(0, v.bytes.len() as int)[k] == v.bytes[k]);
                } else if k < v.allocated + d.len() {
                    assert(b2[v.allocated + (k - v.allocated)] == d[k - v.allocated]);
                } else {
                    assert(b1[(v.allocated + d.len()) as int + 0] == terminator);
                }
            }
        }
    } else {
        law_terminated_writes(v, front, terminator);
        let w0 = after_terminated_writes(v, front, terminator).unwrap();
        assert(joined(pieces) == joined(front) + d);
        let a0 = w0.allocated;
        let start = (a0 - 1) as nat;
        let n = d.len();
        lemma_grow(w0, a0 + n);
        let g = w0.grow(a0 + n).unwrap();
        let a = after_alloc(w0, n).unwrap();
        assert(a.bytes == g);
        let b1 = splice(a.bytes, (start + n) as int, seq![terminator]);
        lemma_splice_len(a.bytes, (start + n) as int, seq![terminator]);
        let b2 = splice(b1, start as int, d);
        lemma_splice_len(b1, start as int, d);
        let w = after_terminated_writes(v, pieces, terminator).unwrap();
        assert(w.bytes == b2);
        assert(w.allocated == a0 + n);
        let prev = p + joined(front);
        assert(w0.bytes.subrange(0, a0 as int) == prev + seq![terminator]);
        assert(w.bytes.subrange(0, w.allocated as int) =~= p + joined(pieces) + seq![terminator]) by {
            assert forall|k: int| 0 <= k < w.allocated implies #[trigger] w.bytes[k] == (p + joined(
                pieces,
            ) + seq![terminator])[k] by {
                if k < start {
                    assert(b2[k] == b1[k]);
                    assert(b1[k] == g[k]);
                    assert(g.subrange(0, w0.bytes.len() as int)[k] == w0.bytes[k]);
                    assert(w0.bytes.subrange(0, a0 as int)[k] == w0.bytes[k]);
                    assert((prev + seq![terminator])[k] == prev[k]);
                } else if k < start + n {
                    assert(b2[start + (k - start)] == d[k - start]);
                } else {
                    assert(b1[(start + n) as int + 0] == terminator);
                }
            }
        }
    }
}

} // verus!

verus! {

/// A collection built from a list of URIDs holds them in the order of its fields.
pub proof fn law_collection_from_urids(urids: Seq<u32>)
    requires
        urids.len() == 15,
    ensures
        crate::atoms::AtomURIDCollection::spec_from_urids(urids).blank == urids[0],
        crate::atoms::AtomURIDCollection::spec_from_urids(urids).double == urids[1],
        crate::atoms::AtomURIDCollection::spec_from_urids(urids).float == urids[2],
        crate::atoms::AtomURIDCollection::spec_from_urids(urids).int == urids[3],
        crate::atoms::AtomURIDCollection::spec_from_urids(urids).long == urids[4],
        crate::atoms::AtomURIDCollection::spec_from_urids(urids).urid == urids[5],
        crate::atoms::AtomURIDCollection::spec_from_urids(urids).bool == urids[6],
        crate::atoms::AtomURIDCollection::spec_from_urids(urids).vector == urids[7],
        crate::atoms::AtomURIDCollection::spec_from_urids(urids).chunk == urids[8],
        crate::atoms::AtomURIDCollection::spec_from_urids(urids).literal == urids[9],
        crate::atoms::AtomURIDCollection::spec_from_urids(urids).object == urids[10],
        crate::atoms::AtomURIDCollection::spec_from_urids(urids).property == urids[11],
        crate::atoms::AtomURIDCollection::spec_from_urids(urids).string == urids[12],
        crate::atoms::AtomURIDCollection::spec_from_urids(urids).tuple == urids[13],
        crate::atoms::AtomURIDCollection::spec_from_urids(urids).sequence == urids[14],
{
}

/// The collection built from what a mapper maps the URIs of the atom types to holds, in each
/// field, the URID of that field's own atom type.
pub proof fn law_collection_from_mapper(mapped: Map<Seq<char>, u32>)
    ensures
        ({
            let c = crate::atoms::AtomURIDCollection::spec_from_urids(
                Seq::new(15, |j: int| mapped[crate::atoms::atom_uri(j)]),
            );
            &&& c.blank == mapped["http://lv2plug.in/ns/ext/atom#Blank"@]
            &&& c.double == mapped["http://lv2plug.in/ns/ext/atom#Double"@]
            &&& c.float == mapped["http://lv2plug.in/ns/ext/atom#Float"@]
            &&& c.int == mapped["http://lv2plug.in/ns/ext/atom#Int"@]
            &&& c.long == mapped["http://lv2plug.in/ns/ext/atom#Long"@]
            &&& c.urid == mapped["http://lv2plug.in/ns/ext/atom#URID"@]
            &&& c.bool == mapped["http://lv2plug.in/ns/ext/atom#Bool"@]
            &&& c.vector == mapped["http://lv2plug.in/ns/ext/atom#Vector"@]
            &&& c.chunk == mapped["http://lv2plug.in/ns/ext/atom#Chunk"@]
            &&& c.literal == mapped["http://lv2plug.in/ns/ext/atom#Literal"@]
            &&& c.object == mapped["http://lv2plug.in/ns/ext/atom#Object"@]
            &&& c.property == mapped["http://lv2plug.in/ns/ext/atom#Property"@]
            &&& c.string == mapped["http://lv2plug.in/ns/ext/atom#String"@]
            &&& c.tuple == mapped["http://lv2plug.in/ns/ext/atom#Tuple"@]
            &&& c.sequence == mapped["http://lv2plug.in/ns/ext/atom#Sequence"@]
        }),
{
    assert(crate::atoms::atom_uri(0) == "http://lv2plug.in/ns/ext/atom#Blank"@);
    assert(crate::atoms::atom_uri(1) == "http://lv2plug.in/ns/ext/atom#Double"@);
    assert(crate::atoms::atom_uri(2) == "http://lv2plug.in/ns/ext/atom#Float"@);
    assert(crate::atoms::atom_uri(3) == "http://lv2plug.in/ns/ext/atom#Int"@);
    assert(crate::atoms::atom_uri(4) == "http://lv2plug.in/ns/ext/atom#Long"@);
    assert(crate::atoms::atom_uri(5) == "http://lv2plug.in/ns/ext/atom#URID"@);
    assert(crate::atoms::atom_uri(6) == "http://lv2plug.in/ns/ext/atom#Bool"@);
    assert(crate::atoms::atom_uri(7) == "http://lv2plug.in/ns/ext/atom#Vector"@);
    assert(crate::atoms::atom_uri(8) == "http://lv2plug.in/ns/ext/atom#Chunk"@);
    assert(crate::atoms::atom_uri(9) == "http://lv2plug.in/ns/ext/atom#Literal"@);
    assert(crate::atoms::atom_uri(10) == "http://lv2plug.in/ns/ext/atom#Object"@);
    assert(crate::atoms::atom_uri(11) == "http://lv2plug.in/ns/ext/atom#Property"@);
    assert(crate::atoms::atom_uri(12) == "http://lv2plug.in/ns/ext/atom#String"@);
    assert(crate::atoms::atom_uri(13) == "http://lv2plug.in/ns/ext/atom#Tuple"@);
    assert(crate::atoms::atom_uri(14) == "http://lv2plug.in/ns/ext/atom#Sequence"@);
}

/// Two zipped sequences end once the second one has no event left: the first one's events
/// never go first then.
pub proof fn law_zip_ends_with_second(first: Option<u64>)
    ensures
        !crate::atoms::sequence::first_goes_first(first, None),
{
}

} // verus!
