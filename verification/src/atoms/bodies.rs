//! The fixed-size records that start the bodies of the structured atom types.
use crate::encoding::{Layout, decode_u32, encode_u32, lemma_u32_roundtrip, read_u32_at, u32_bytes, Pod};
use vstd::prelude::*;

verus! {

/// The bytes of two `u32` values, one after the other.
pub open spec fn pair_bytes(first: u32, second: u32) -> Seq<u8> {
    encode_u32(first) + encode_u32(second)
}

/// The first of two `u32` values stored in eight bytes.
pub open spec fn pair_first(bytes: Seq<u8>) -> u32 {
    decode_u32(bytes.subrange(0, 4))
}

/// The second of two `u32` values stored in eight bytes.
pub open spec fn pair_second(bytes: Seq<u8>) -> u32 {
    decode_u32(bytes.subrange(4, 8))
}

proof fn lemma_pair_roundtrip(first: u32, second: u32)
    ensures
        pair_bytes(first, second).len() == 8,
        pair_first(pair_bytes(first, second)) == first,
        pair_second(pair_bytes(first, second)) == second,
{
    lemma_u32_roundtrip(first);
    lemma_u32_roundtrip(second);
    let e = pair_bytes(first, second);
    assert(e.subrange(0, 4) =~= encode_u32(first));
    assert(e.subrange(4, 8) =~= encode_u32(second));
}

proof fn lemma_pair_bytes(bytes: Seq<u8>)
    requires
        bytes.len() == 8,
    ensures
        pair_bytes(pair_first(bytes), pair_second(bytes)) == bytes,
{
    vstd::bytes::lemma_auto_spec_u32_to_from_le_bytes();
    let a = bytes.subrange(0, 4);
    let b = bytes.subrange(4, 8);
    assert(encode_u32(decode_u32(a)) == a);
    assert(encode_u32(decode_u32(b)) == b);
    assert(a + b =~= bytes);
}

fn encode_pair(first: u32, second: u32) -> (r: Vec<u8>)
    ensures
        r@ == pair_bytes(first, second),
{
    let mut r = u32_bytes(first);
    let mut s = u32_bytes(second);
    r.append(&mut s);
    r
}

fn decode_pair(bytes: &[u8]) -> (r: (u32, u32))
    requires
        bytes@.len() == 8,
    ensures
        r.0 == pair_first(bytes@),
        r.1 == pair_second(bytes@),
{
    (read_u32_at(bytes, 0), read_u32_at(bytes, 4))
}

/// The record that starts the body of a vector: the size and the type of its children.
#[derive(Debug, Clone, Copy, PartialEq, Eq)]
pub struct VectorBody {
    pub child_size: u32,
    pub child_type: u32,
}

impl Layout for VectorBody {
    open spec fn spec_size() -> nat {
        8
    }

    open spec fn spec_align() -> nat {
        4
    }

    proof fn lemma_align() {
    }

    fn size() -> usize {
        8
    }

    fn align() -> usize {
        4
    }
}

impl Pod for VectorBody {
    open spec fn spec_encode(self) -> Seq<u8> {
        pair_bytes(self.child_size, self.child_type)
    }

    open spec fn spec_decode(bytes: Seq<u8>) -> VectorBody {
        VectorBody { child_size: pair_first(bytes), child_type: pair_second(bytes) }
    }

    proof fn lemma_roundtrip(v: VectorBody) {
        lemma_pair_roundtrip(v.child_size, v.child_type);
    }

    proof fn lemma_bytes_roundtrip(bytes: Seq<u8>) {
        lemma_pair_bytes(bytes);
    }

    proof fn lemma_layout() {
    }

    fn encode(&self) -> Vec<u8> {
        encode_pair(self.child_size, self.child_type)
    }

    fn decode(bytes: &[u8]) -> VectorBody {
        let (child_size, child_type) = decode_pair(bytes);
        VectorBody { child_size, child_type }
    }
}

/// The record that starts the body of an object: its id (0 for none) and its type.
#[derive(Debug, Clone, Copy, PartialEq, Eq)]
pub struct ObjectBody {
    pub id: u32,
    pub otype: u32,
}

impl Layout for ObjectBody {
    open spec fn spec_size() -> nat {
        8
    }

    open spec fn spec_align() -> nat {
        4
    }

    proof fn lemma_align() {
    }

    fn size() -> usize {
        8
    }

    fn align() -> usize {
        4
    }
}

impl Pod for ObjectBody {
    open spec fn spec_encode(self) -> Seq<u8> {
        pair_bytes(self.id, self.otype)
    }

    open spec fn spec_decode(bytes: Seq<u8>) -> ObjectBody {
        ObjectBody { id: pair_first(bytes), otype: pair_second(bytes) }
    }

    proof fn lemma_roundtrip(v: ObjectBody) {
        lemma_pair_roundtrip(v.id, v.otype);
    }

    proof fn lemma_bytes_roundtrip(bytes: Seq<u8>) {
        lemma_pair_bytes(bytes);
    }

    proof fn lemma_layout() {
    }

    fn encode(&self) -> Vec<u8> {
        encode_pair(self.id, self.otype)
    }

    fn decode(bytes: &[u8]) -> ObjectBody {
        let (id, otype) = decode_pair(bytes);
        ObjectBody { id, otype }
    }
}

/// The record that starts a property of an object: its key and its context (0 for none).
/// It is aligned like an atom header, so the property's value atom follows it directly.
#[derive(Debug, Clone, Copy, PartialEq, Eq)]
pub struct PropertyBody {
    pub key: u32,
    pub context: u32,
}

impl Layout for PropertyBody {
    open spec fn spec_size() -> nat {
        8
    }

    open spec fn spec_align() -> nat {
        8
    }

    proof fn lemma_align() {
    }

    fn size() -> usize {
        8
    }

    fn align() -> usize {
        8
    }
}

impl Pod for PropertyBody {
    open spec fn spec_encode(self) -> Seq<u8> {
        pair_bytes(self.key, self.context)
    }

    open spec fn spec_decode(bytes: Seq<u8>) -> PropertyBody {
        PropertyBody { key: pair_first(bytes), context: pair_second(bytes) }
    }

    proof fn lemma_roundtrip(v: PropertyBody) {
        lemma_pair_roundtrip(v.key, v.context);
    }

    proof fn lemma_bytes_roundtrip(bytes: Seq<u8>) {
        lemma_pair_bytes(bytes);
    }

    proof fn lemma_layout() {
    }

    fn encode(&self) -> Vec<u8> {
        encode_pair(self.key, self.context)
    }

    fn decode(bytes: &[u8]) -> PropertyBody {
        let (key, context) = decode_pair(bytes);
        PropertyBody { key, context }
    }
}

/// The record that starts the body of a literal: its language and its datatype (0 for none).
#[derive(Debug, Clone, Copy, PartialEq, Eq)]
pub struct LiteralBody {
    pub lang: u32,
    pub datatype: u32,
}

impl Layout for LiteralBody {
    open spec fn spec_size() -> nat {
        8
    }

    open spec fn spec_align() -> nat {
        4
    }

    proof fn lemma_align() {
    }

    fn size() -> usize {
        8
    }

    fn align() -> usize {
        4
    }
}

impl Pod for LiteralBody {
    open spec fn spec_encode(self) -> Seq<u8> {
        pair_bytes(self.lang, self.datatype)
    }

    open spec fn spec_decode(bytes: Seq<u8>) -> LiteralBody {
        LiteralBody { lang: pair_first(bytes), datatype: pair_second(bytes) }
    }

    proof fn lemma_roundtrip(v: LiteralBody) {
        lemma_pair_roundtrip(v.lang, v.datatype);
    }

    proof fn lemma_bytes_roundtrip(bytes: Seq<u8>) {
        lemma_pair_bytes(bytes);
    }

    proof fn lemma_layout() {
    }

    fn encode(&self) -> Vec<u8> {
        encode_pair(self.lang, self.datatype)
    }

    fn decode(bytes: &[u8]) -> LiteralBody {
        let (lang, datatype) = decode_pair(bytes);
        LiteralBody { lang, datatype }
    }
}

/// The record that starts the body of a sequence: the URID of its time stamps' unit (0 for
/// frames), and padding.
#[derive(Debug, Clone, Copy, PartialEq, Eq)]
pub struct SequenceBody {
    pub unit: u32,
    pub pad: u32,
}

impl Layout for SequenceBody {
    open spec fn spec_size() -> nat {
        8
    }

    open spec fn spec_align() -> nat {
        8
    }

    proof fn lemma_align() {
    }

    fn size() -> usize {
        8
    }

    fn align() -> usize {
        8
    }
}

impl Pod for SequenceBody {
    open spec fn spec_encode(self) -> Seq<u8> {
        pair_bytes(self.unit, self.pad)
    }

    open spec fn spec_decode(bytes: Seq<u8>) -> SequenceBody {
        SequenceBody { unit: pair_first(bytes), pad: pair_second(bytes) }
    }

    proof fn lemma_roundtrip(v: SequenceBody) {
        lemma_pair_roundtrip(v.unit, v.pad);
    }

    proof fn lemma_bytes_roundtrip(bytes: Seq<u8>) {
        lemma_pair_bytes(bytes);
    }

    proof fn lemma_layout() {
    }

    fn encode(&self) -> Vec<u8> {
        encode_pair(self.unit, self.pad)
    }

    fn decode(bytes: &[u8]) -> SequenceBody {
        let (unit, pad) = decode_pair(bytes);
        SequenceBody { unit, pad }
    }
}

} // verus!
