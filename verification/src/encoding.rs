//! Plain values and their byte representation in an atom buffer.
//!
//! Every value that is stored in an atom buffer is a fixed-size, fixed-alignment record of
//! bytes. Multi-byte integers are stored in little-endian order, the byte order of every target
//! this library supports.
use vstd::bytes::*;
use vstd::prelude::*;

verus! {

/// The size and alignment of the values of a type in an atom buffer.
pub trait Layout {
    /// Number of bytes a value occupies; 0 for a type without data.
    spec fn spec_size() -> nat;

    /// Alignment required for the first byte of a value, relative to the buffer origin.
    spec fn spec_align() -> nat;

    /// Alignments are small powers of two, and sizes are small.
    proof fn lemma_align()
        ensures
            Self::spec_size() <= 8,
            Self::spec_align() == 1 || Self::spec_align() == 2 || Self::spec_align() == 4
                || Self::spec_align() == 8,
    ;

    fn size() -> (r: usize)
        ensures
            r == Self::spec_size(),
    ;

    fn align() -> (r: usize)
        ensures
            r == Self::spec_align(),
    ;
}

/// A type without data, which occupies no bytes.
impl Layout for () {
    open spec fn spec_size() -> nat {
        0
    }

    open spec fn spec_align() -> nat {
        1
    }

    proof fn lemma_align() {
    }

    fn size() -> usize {
        0
    }

    fn align() -> usize {
        1
    }
}

/// A type whose values are stored in an atom buffer as a fixed-size run of bytes.
pub trait Pod: Layout + Sized + Copy {

    /// The bytes that represent `self`.
    spec fn spec_encode(self) -> Seq<u8>;

    /// The value represented by the given bytes.
    spec fn spec_decode(bytes: Seq<u8>) -> Self;

    /// Encoding has the declared length and decoding it gives the value back.
    proof fn lemma_roundtrip(v: Self)
        ensures
            v.spec_encode().len() == Self::spec_size(),
            Self::spec_decode(v.spec_encode()) == v,
    ;

    /// Every run of bytes of the right length is the encoding of the value it decodes to.
    proof fn lemma_bytes_roundtrip(bytes: Seq<u8>)
        requires
            bytes.len() == Self::spec_size(),
        ensures
            Self::spec_decode(bytes).spec_encode() == bytes,
    ;

    /// Sizes and alignments of stored values are small powers of two (or a multiple of the
    /// alignment for the size).
    proof fn lemma_layout()
        ensures
            1 <= Self::spec_size() <= 8,
            Self::spec_align() == 1 || Self::spec_align() == 2 || Self::spec_align() == 4
                || Self::spec_align() == 8,
    ;

    fn encode(&self) -> (r: Vec<u8>)
        ensures
            r@ == self.spec_encode(),
    ;

    fn decode(bytes: &[u8]) -> (r: Self)
        requires
            bytes@.len() == Self::spec_size(),
        ensures
            r == Self::spec_decode(bytes@),
    ;
}

/// Little-endian encoding of a `u32`.
pub open spec fn encode_u32(x: u32) -> Seq<u8> {
    spec_u32_to_le_bytes(x)
}

/// Decoding of four little-endian bytes into a `u32`.
pub open spec fn decode_u32(b: Seq<u8>) -> u32 {
    spec_u32_from_le_bytes(b)
}

/// Little-endian encoding of a `u64`.
pub open spec fn encode_u64(x: u64) -> Seq<u8> {
    spec_u64_to_le_bytes(x)
}

/// Decoding of eight little-endian bytes into a `u64`.
pub open spec fn decode_u64(b: Seq<u8>) -> u64 {
    spec_u64_from_le_bytes(b)
}

pub proof fn lemma_u32_roundtrip(x: u32)
    ensures
        encode_u32(x).len() == 4,
        decode_u32(encode_u32(x)) == x,
{
    lemma_auto_spec_u32_to_from_le_bytes();
    assert(spec_u32_to_le_bytes(x).len() == 4);
}

pub proof fn lemma_u64_roundtrip(x: u64)
    ensures
        encode_u64(x).len() == 8,
        decode_u64(encode_u64(x)) == x,
{
    lemma_auto_spec_u64_to_from_le_bytes();
    assert(spec_u64_to_le_bytes(x).len() == 8);
}

/// Writes a `u32` as four little-endian bytes.
pub fn u32_bytes(x: u32) -> (r: Vec<u8>)
    ensures
        r@ == encode_u32(x),
        r@.len() == 4,
{
    u32_to_le_bytes(x)
}

/// Reads four little-endian bytes starting at `pos`.
pub fn read_u32_at(bytes: &[u8], pos: usize) -> (r: u32)
    requires
        pos + 4 <= bytes.len(),
    ensures
        r == decode_u32(bytes@.subrange(pos as int, pos + 4)),
{
    let s = vstd::slice::slice_subrange(bytes, pos, pos + 4);
    u32_from_le_bytes(s)
}

impl Layout for u8 {
    open spec fn spec_size() -> nat {
        1
    }

    open spec fn spec_align() -> nat {
        1
    }

    proof fn lemma_align() {
    }

    fn size() -> usize {
        1
    }

    fn align() -> usize {
        1
    }
}

impl Pod for u8 {
    open spec fn spec_encode(self) -> Seq<u8> {
        seq![self]
    }

    open spec fn spec_decode(bytes: Seq<u8>) -> u8 {
        bytes[0]
    }

    proof fn lemma_roundtrip(v: u8) {
    }

    proof fn lemma_bytes_roundtrip(bytes: Seq<u8>) {
        assert(seq![bytes[0]] =~= bytes);
    }

    proof fn lemma_layout() {
    }

    fn encode(&self) -> Vec<u8> {
        let mut v = Vec::new();
        v.push(*self);
        v
    }

    fn decode(bytes: &[u8]) -> u8 {
        bytes[0]
    }
}

impl Layout for u16 {
    open spec fn spec_size() -> nat {
        2
    }

    open spec fn spec_align() -> nat {
        2
    }

    proof fn lemma_align() {
    }

    fn size() -> usize {
        2
    }

    fn align() -> usize {
        2
    }
}

impl Pod for u16 {
    open spec fn spec_encode(self) -> Seq<u8> {
        spec_u16_to_le_bytes(self)
    }

    open spec fn spec_decode(bytes: Seq<u8>) -> u16 {
        spec_u16_from_le_bytes(bytes)
    }

    proof fn lemma_roundtrip(v: u16) {
        lemma_auto_spec_u16_to_from_le_bytes();
        assert(spec_u16_to_le_bytes(v).len() == 2);
    }

    proof fn lemma_bytes_roundtrip(bytes: Seq<u8>) {
        lemma_auto_spec_u16_to_from_le_bytes();
    }

    proof fn lemma_layout() {
    }

    fn encode(&self) -> Vec<u8> {
        u16_to_le_bytes(*self)
    }

    fn decode(bytes: &[u8]) -> u16 {
        u16_from_le_bytes(bytes)
    }
}

impl Layout for u32 {
    open spec fn spec_size() -> nat {
        4
    }

    open spec fn spec_align() -> nat {
        4
    }

    proof fn lemma_align() {
    }

    fn size() -> usize {
        4
    }

    fn align() -> usize {
        4
    }
}

impl Pod for u32 {
    open spec fn spec_encode(self) -> Seq<u8> {
        encode_u32(self)
    }

    open spec fn spec_decode(bytes: Seq<u8>) -> u32 {
        decode_u32(bytes)
    }

    proof fn lemma_roundtrip(v: u32) {
        lemma_u32_roundtrip(v);
    }

    proof fn lemma_bytes_roundtrip(bytes: Seq<u8>) {
        lemma_auto_spec_u32_to_from_le_bytes();
    }

    proof fn lemma_layout() {
    }

    fn encode(&self) -> Vec<u8> {
        u32_bytes(*self)
    }

    fn decode(bytes: &[u8]) -> u32 {
        u32_from_le_bytes(bytes)
    }
}

impl Layout for i32 {
    open spec fn spec_size() -> nat {
        4
    }

    open spec fn spec_align() -> nat {
        4
    }

    proof fn lemma_align() {
    }

    fn size() -> usize {
        4
    }

    fn align() -> usize {
        4
    }
}

impl Pod for i32 {
    open spec fn spec_encode(self) -> Seq<u8> {
        encode_u32(self as u32)
    }

    open spec fn spec_decode(bytes: Seq<u8>) -> i32 {
        decode_u32(bytes) as i32
    }

    proof fn lemma_roundtrip(v: i32) {
        lemma_u32_roundtrip(v as u32);
        assert((v as u32) as i32 == v) by (bit_vector);
    }

    proof fn lemma_bytes_roundtrip(bytes: Seq<u8>) {
        lemma_auto_spec_u32_to_from_le_bytes();
        let x = decode_u32(bytes);
        assert((x as i32) as u32 == x) by (bit_vector);
    }

    proof fn lemma_layout() {
    }

    fn encode(&self) -> Vec<u8> {
        u32_bytes(*self as u32)
    }

    fn decode(bytes: &[u8]) -> i32 {
        u32_from_le_bytes(bytes) as i32
    }
}

impl Layout for u64 {
    open spec fn spec_size() -> nat {
        8
    }

    open spec fn spec_align() -> nat {
        8
    }

    proof fn lemma_align() {
    }

    fn size() -> usize {
        8
    }

    fn align() -> usize {
        8
    }
}

impl Pod for u64 {
    open spec fn spec_encode(self) -> Seq<u8> {
        encode_u64(self)
    }

    open spec fn spec_decode(bytes: Seq<u8>) -> u64 {
        decode_u64(bytes)
    }

    proof fn lemma_roundtrip(v: u64) {
        lemma_u64_roundtrip(v);
    }

    proof fn lemma_bytes_roundtrip(bytes: Seq<u8>) {
        lemma_auto_spec_u64_to_from_le_bytes();
        assert(spec_u64_to_le_bytes(spec_u64_from_le_bytes(bytes)) == bytes);
    }

    proof fn lemma_layout() {
    }

    fn encode(&self) -> Vec<u8> {
        u64_to_le_bytes(*self)
    }

    fn decode(bytes: &[u8]) -> u64 {
        u64_from_le_bytes(bytes)
    }
}

impl Layout for i64 {
    open spec fn spec_size() -> nat {
        8
    }

    open spec fn spec_align() -> nat {
        8
    }

    proof fn lemma_align() {
    }

    fn size() -> usize {
        8
    }

    fn align() -> usize {
        8
    }
}

impl Pod for i64 {
    open spec fn spec_encode(self) -> Seq<u8> {
        encode_u64(self as u64)
    }

    open spec fn spec_decode(bytes: Seq<u8>) -> i64 {
        decode_u64(bytes) as i64
    }

    proof fn lemma_roundtrip(v: i64) {
        lemma_u64_roundtrip(v as u64);
        assert((v as u64) as i64 == v) by (bit_vector);
    }

    proof fn lemma_bytes_roundtrip(bytes: Seq<u8>) {
        lemma_auto_spec_u64_to_from_le_bytes();
        let x = decode_u64(bytes);
        assert((x as i64) as u64 == x) by (bit_vector);
        assert(spec_u64_to_le_bytes(spec_u64_from_le_bytes(bytes)) == bytes);
    }

    proof fn lemma_layout() {
    }

    fn encode(&self) -> Vec<u8> {
        u64_to_le_bytes(*self as u64)
    }

    fn decode(bytes: &[u8]) -> i64 {
        u64_from_le_bytes(bytes) as i64
    }
}

} // verus!

verus! {

/// The bytes of several values stored one after the other.
pub open spec fn encode_all<T: Pod>(values: Seq<T>) -> Seq<u8>
    decreases values.len(),
{
    if values.len() == 0 {
        seq![]
    } else {
        encode_all(values.drop_last()) + values.last().spec_encode()
    }
}

pub proof fn lemma_encode_all_len<T: Pod>(values: Seq<T>)
    ensures
        encode_all(values).len() == values.len() * T::spec_size(),
    decreases values.len(),
{
    if values.len() > 0 {
        lemma_encode_all_len(values.drop_last());
        T::lemma_roundtrip(values.last());
        assert((values.len() - 1) * T::spec_size() + T::spec_size() == values.len() * T::spec_size())
            by (nonlinear_arith);
    }
}

/// Encodes all values, one after the other.
pub fn encode_values<T: Pod>(values: &[T]) -> (r: Vec<u8>)
    ensures
        r@ == encode_all(values@),
{
    let mut r: Vec<u8> = Vec::new();
    let mut i: usize = 0;
    while i < values.len()
        invariant
            0 <= i <= values@.len(),
            r@ == encode_all(values@.subrange(0, i as int)),
        decreases values@.len() - i,
    {
        let mut e = values[i].encode();
        r.append(&mut e);
        proof {
            let s = values@.subrange(0, i + 1);
            assert(s.drop_last() =~= values@.subrange(0, i as int));
            assert(s.last() == values@[i as int]);
        }
        i = i + 1;
    }
    assert(values@.subrange(0, values@.len() as int) =~= values@);
    r
}

} // verus!
