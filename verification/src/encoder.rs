//! Writing values: the encoder capability, the in-memory encoder, and the
//! types that know how to write themselves.

use crate::common::{digits_of, ByteEndian, MapEntry};
use crate::digits::{le_digits, pow256};
use crate::scalar::EndianValue;
use crate::maps::{entries_of, is_listing, lemma_wire_of_entries, listed};
use crate::text::{utf16_encode, utf16_units};
use std::collections::HashMap;
use std::hash::Hash;
use vstd::prelude::*;
use vstd::std_specs::hash::obeys_key_model;

verus! {

/// The bytes of a scalar on the wire: the digits of its image, in the order
/// that the operation was started with.
pub open spec fn scalar_wire<T: EndianValue<SIZE>, const SIZE: usize>(
    value: T,
    endian: ByteEndian,
) -> Seq<u8> {
    digits_of(value.image(), SIZE as nat, endian)
}

/// The byte of a boolean: one for true, zero for false.
pub open spec fn bool_wire(value: bool) -> Seq<u8> {
    seq![if value { 1u8 } else { 0u8 }]
}

/// The bytes of an element count: always the eight-byte form.
pub open spec fn count_wire(count: nat, endian: ByteEndian) -> Seq<u8> {
    digits_of(count, 8, endian)
}

/// Something that scalars can be written to, one after the other.
///
/// `written` is all that went out so far; every operation appends to it and
/// leaves the byte order alone.
pub trait Encoder: Sized {
    spec fn written(&self) -> Seq<u8>;

    spec fn endian(&self) -> ByteEndian;

    fn encode_u8(&mut self, value: u8)
        ensures
            final(self).written() == old(self).written() + scalar_wire::<u8, 1>(
                value,
                old(self).endian(),
            ),
            final(self).endian() == old(self).endian(),
    ;

    fn encode_u16(&mut self, value: u16)
        ensures
            final(self).written() == old(self).written() + scalar_wire::<u16, 2>(
                value,
                old(self).endian(),
            ),
            final(self).endian() == old(self).endian(),
    ;

    fn encode_u32(&mut self, value: u32)
        ensures
            final(self).written() == old(self).written() + scalar_wire::<u32, 4>(
                value,
                old(self).endian(),
            ),
            final(self).endian() == old(self).endian(),
    ;

    fn encode_u64(&mut self, value: u64)
        ensures
            final(self).written() == old(self).written() + scalar_wire::<u64, 8>(
                value,
                old(self).endian(),
            ),
            final(self).endian() == old(self).endian(),
    ;

    fn encode_u128(&mut self, value: u128)
        ensures
            final(self).written() == old(self).written() + scalar_wire::<u128, 16>(
                value,
                old(self).endian(),
            ),
            final(self).endian() == old(self).endian(),
    ;

    fn encode_usize(&mut self, value: usize)
        ensures
            final(self).written() == old(self).written() + scalar_wire::<usize, 8>(
                value,
                old(self).endian(),
            ),
            final(self).endian() == old(self).endian(),
    {
        self.encode_u64(value as u64);
    }

    fn encode_i8(&mut self, value: i8)
        ensures
            final(self).written() == old(self).written() + scalar_wire::<i8, 1>(
                value,
                old(self).endian(),
            ),
            final(self).endian() == old(self).endian(),
    ;

    fn encode_i16(&mut self, value: i16)
        ensures
            final(self).written() == old(self).written() + scalar_wire::<i16, 2>(
                value,
                old(self).endian(),
            ),
            final(self).endian() == old(self).endian(),
    ;

    fn encode_i32(&mut self, value: i32)
        ensures
            final(self).written() == old(self).written() + scalar_wire::<i32, 4>(
                value,
                old(self).endian(),
            ),
            final(self).endian() == old(self).endian(),
    ;

    fn encode_i64(&mut self, value: i64)
        ensures
            final(self).written() == old(self).written() + scalar_wire::<i64, 8>(
                value,
                old(self).endian(),
            ),
            final(self).endian() == old(self).endian(),
    ;

    fn encode_i128(&mut self, value: i128)
        ensures
            final(self).written() == old(self).written() + scalar_wire::<i128, 16>(
                value,
                old(self).endian(),
            ),
            final(self).endian() == old(self).endian(),
    ;

    fn encode_isize(&mut self, value: isize)
        ensures
            final(self).written() == old(self).written() + scalar_wire::<isize, 8>(
                value,
                old(self).endian(),
            ),
            final(self).endian() == old(self).endian(),
    {
        self.encode_i64(value as i64);
    }

    fn encode_bool(&mut self, value: bool)
        ensures
            final(self).written() == old(self).written() + bool_wire(value),
            final(self).endian() == old(self).endian(),
    {
        let byte: u8 = if value {
            1
        } else {
            0
        };
        proof {
            lemma_single_digit(byte, self.endian());
        }
        self.encode_u8(byte);
    }
}

/// One byte is its own image in either byte order.
pub proof fn lemma_single_digit(byte: u8, endian: ByteEndian)
    ensures
        scalar_wire::<u8, 1>(byte, endian) == seq![byte],
{
    assert(pow256(0) == 1);
    let digits = le_digits(byte as nat, 1);
    assert(digits[0] == ((byte as nat / pow256(0)) % 256) as u8);
    assert(digits =~= seq![byte]);
    assert(digits.reverse() =~= seq![byte]);
}

/// A value that can write itself to any encoder.
///
/// `wire` says which bytes stand for the value, and `encode` appends
/// exactly those.
pub trait Serializer {
    /// The bytes that stand for `self` under `endian`. Unless an impl says
    /// otherwise there are none, as for a type without fields.
    open spec fn wire(&self, endian: ByteEndian) -> Seq<u8> {
        Seq::empty()
    }

    /// Appends the bytes of `self` and leaves the byte order alone.
    fn encode<Enc: Encoder>(&self, encoder: &mut Enc)
        ensures
            final(encoder).written() == old(encoder).written() + self.wire(old(encoder).endian()),
            final(encoder).endian() == old(encoder).endian(),
    ;
}

/// The bytes of `items`, each in its own encoding, in order.
pub open spec fn wire_seq<T: Serializer>(items: Seq<T>, endian: ByteEndian) -> Seq<u8>
    decreases items.len(),
{
    if items.len() == 0 {
        Seq::empty()
    } else {
        wire_seq(items.drop_last(), endian) + items.last().wire(endian)
    }
}

/// A sequence on the wire: its element count, then its elements.
pub open spec fn wire_slice<T: Serializer>(items: Seq<T>, endian: ByteEndian) -> Seq<u8> {
    count_wire(items.len(), endian) + wire_seq(items, endian)
}

/// Text on the wire: the sequence of its UTF-16 code units.
pub open spec fn wire_text(chars: Seq<char>, endian: ByteEndian) -> Seq<u8> {
    wire_slice::<u16>(utf16_encode(chars), endian)
}

/// What every encoder can do once it can write scalars.
pub trait EncoderExt: Encoder {
    /// Writes the element count and then each element.
    fn encode_slice<T: Serializer>(&mut self, value: &[T])
        ensures
            final(self).written() == old(self).written() + wire_slice(value@, old(self).endian()),
            final(self).endian() == old(self).endian(),
    {
        self.encode_usize(value.len());
        let mut i: usize = 0;
        while i < value.len()
            invariant
                i <= value.len(),
                self.endian() == old(self).endian(),
                self.written() == old(self).written() + count_wire(
                    value@.len(),
                    old(self).endian(),
                ) + wire_seq(value@.take(i as int), old(self).endian()),
            decreases value.len() - i,
        {
            value[i].encode(self);
            proof {
                assert(value@.take(i + 1).drop_last() == value@.take(i as int));
            }
            i += 1;
        }
        proof {
            assert(value@.take(i as int) == value@);
        }
    }

    /// Writes text as the sequence of its UTF-16 code units.
    fn encode_string(&mut self, value: &str)
        ensures
            final(self).written() == old(self).written() + wire_text(value@, old(self).endian()),
            final(self).endian() == old(self).endian(),
    {
        let units = utf16_units(value);
        self.encode_slice(units.as_slice());
    }

    /// Writes a map as the sequence of its entries, each a key and its
    /// value, in the order in which the map hands them out.
    fn encode_map<K: Serializer + Eq + Hash, V: Serializer>(&mut self, value: &HashMap<K, V>)
        requires
            obeys_key_model::<K>(),
        ensures
            exists|entries: Seq<(K, V)>| #[trigger]
                is_listing(entries, value@) && final(self).written() == old(self).written()
                    + wire_slice(entries, old(self).endian()),
            final(self).endian() == old(self).endian(),
    {
        let entries = entries_of(value);
        self.encode_slice(entries.as_slice());
        proof {
            lemma_wire_of_entries(entries@, self.endian());
            assert(is_listing(listed(entries@), value@));
        }
    }

    /// Writes one value in its own encoding.
    fn encode_value<T: Serializer>(&mut self, value: &T)
        ensures
            final(self).written() == old(self).written() + value.wire(old(self).endian()),
            final(self).endian() == old(self).endian(),
    {
        value.encode(self);
    }
}

impl<Enc: Encoder> EncoderExt for Enc {

}

/// Remembers how long a buffer was, to tell later how much was added.
pub struct ByteTracker {
    pub start: usize,
}

impl ByteTracker {
    /// Remembers the length that `bytes` has now.
    pub fn begin(bytes: &Vec<u8>) -> (tracker: Self)
        ensures
            tracker.start == bytes@.len(),
    {
        ByteTracker { start: bytes.len() }
    }

    /// The number of bytes that `new_bytes` has beyond the remembered length.
    pub fn end(&self, new_bytes: &Vec<u8>) -> (added: usize)
        requires
            self.start <= new_bytes@.len(),
        ensures
            added == new_bytes@.len() - self.start,
    {
        new_bytes.len() - self.start
    }
}

/// An encoder that grows a byte buffer in memory.
pub struct ByteEncoder {
    bytes: Vec<u8>,
    endian: ByteEndian,
}

impl ByteEncoder {
    /// An encoder that has written nothing yet.
    pub fn new(endian: ByteEndian) -> (encoder: Self)
        ensures
            encoder.written() == Seq::<u8>::empty(),
            encoder.endian() == endian,
    {
        Self { bytes: Vec::new(), endian }
    }

    /// All that was written so far.
    pub fn bytes(&self) -> (bytes: &Vec<u8>)
        ensures
            bytes@ == self.written(),
    {
        &self.bytes
    }

    /// Gives up the encoder for what it wrote.
    pub fn into_bytes(self) -> (bytes: Vec<u8>)
        ensures
            bytes@ == self.written(),
    {
        self.bytes
    }

    /// Appends the bytes of one scalar in this encoder's byte order.
    pub fn write<T: EndianValue<SIZE>, const SIZE: usize>(&mut self, value: T)
        ensures
            final(self).written() == old(self).written() + scalar_wire::<T, SIZE>(
                value,
                old(self).endian(),
            ),
            final(self).endian() == old(self).endian(),
    {
        let digits = value.to_bytes_of(self.endian);
        self.bytes.extend_from_slice(digits.as_slice());
    }
}

impl Encoder for ByteEncoder {
    closed spec fn written(&self) -> Seq<u8> {
        self.bytes@
    }

    closed spec fn endian(&self) -> ByteEndian {
        self.endian
    }

    fn encode_u8(&mut self, value: u8) {
        self.write::<u8, 1>(value);
    }

    fn encode_u16(&mut self, value: u16) {
        self.write::<u16, 2>(value);
    }

    fn encode_u32(&mut self, value: u32) {
        self.write::<u32, 4>(value);
    }

    fn encode_u64(&mut self, value: u64) {
        self.write::<u64, 8>(value);
    }

    fn encode_u128(&mut self, value: u128) {
        self.write::<u128, 16>(value);
    }

    fn encode_i8(&mut self, value: i8) {
        self.write::<i8, 1>(value);
    }

    fn encode_i16(&mut self, value: i16) {
        self.write::<i16, 2>(value);
    }

    fn encode_i32(&mut self, value: i32) {
        self.write::<i32, 4>(value);
    }

    fn encode_i64(&mut self, value: i64) {
        self.write::<i64, 8>(value);
    }

    fn encode_i128(&mut self, value: i128) {
        self.write::<i128, 16>(value);
    }
}

/// Encoding a whole value into a fresh buffer.
pub trait ToBytes: Serializer {
    /// The bytes of `self` under `endian`, and nothing else.
    fn to_bytes(&self, endian: ByteEndian) -> (bytes: Vec<u8>)
        ensures
            bytes@ == self.wire(endian),
    {
        let mut encoder = ByteEncoder::new(endian);
        self.encode(&mut encoder);
        encoder.into_bytes()
    }
}

impl<T: Serializer> ToBytes for T {

}

impl Serializer for &str {
    open spec fn wire(&self, endian: ByteEndian) -> Seq<u8> {
        wire_text(self@, endian)
    }

    fn encode<Enc: Encoder>(&self, encoder: &mut Enc) {
        encoder.encode_string(self);
    }
}

impl Serializer for String {
    open spec fn wire(&self, endian: ByteEndian) -> Seq<u8> {
        wire_text(self@, endian)
    }

    fn encode<Enc: Encoder>(&self, encoder: &mut Enc) {
        encoder.encode_string(self.as_str());
    }
}

impl<T: Serializer> Serializer for &[T] {
    open spec fn wire(&self, endian: ByteEndian) -> Seq<u8> {
        wire_slice(self@, endian)
    }

    fn encode<Enc: Encoder>(&self, encoder: &mut Enc) {
        encoder.encode_slice(*self);
    }
}

impl<T: Serializer> Serializer for [T] {
    open spec fn wire(&self, endian: ByteEndian) -> Seq<u8> {
        wire_slice(self@, endian)
    }

    fn encode<Enc: Encoder>(&self, encoder: &mut Enc) {
        encoder.encode_slice(self);
    }
}

impl<T: Serializer, const N: usize> Serializer for [T; N] {
    open spec fn wire(&self, endian: ByteEndian) -> Seq<u8> {
        wire_slice(self@, endian)
    }

    fn encode<Enc: Encoder>(&self, encoder: &mut Enc) {
        encoder.encode_slice(self.as_slice());
    }
}

impl<T: Serializer> Serializer for Vec<T> {
    open spec fn wire(&self, endian: ByteEndian) -> Seq<u8> {
        wire_slice(self@, endian)
    }

    fn encode<Enc: Encoder>(&self, encoder: &mut Enc) {
        encoder.encode_slice(self.as_slice());
    }
}

impl<K: Serializer + Eq + Hash, V: Serializer> Serializer for MapEntry<&K, &V> {
    open spec fn wire(&self, endian: ByteEndian) -> Seq<u8> {
        self.0.wire(endian) + self.1.wire(endian)
    }

    fn encode<Enc: Encoder>(&self, encoder: &mut Enc) {
        self.0.encode(encoder);
        self.1.encode(encoder);
    }
}

impl Serializer for u8 {
    open spec fn wire(&self, endian: ByteEndian) -> Seq<u8> {
        scalar_wire::<u8, 1>(*self, endian)
    }

    fn encode<Enc: Encoder>(&self, encoder: &mut Enc) {
        encoder.encode_u8(*self);
    }
}

impl Serializer for u16 {
    open spec fn wire(&self, endian: ByteEndian) -> Seq<u8> {
        scalar_wire::<u16, 2>(*self, endian)
    }

    fn encode<Enc: Encoder>(&self, encoder: &mut Enc) {
        encoder.encode_u16(*self);
    }
}

impl Serializer for u32 {
    open spec fn wire(&self, endian: ByteEndian) -> Seq<u8> {
        scalar_wire::<u32, 4>(*self, endian)
    }

    fn encode<Enc: Encoder>(&self, encoder: &mut Enc) {
        encoder.encode_u32(*self);
    }
}

impl Serializer for u64 {
    open spec fn wire(&self, endian: ByteEndian) -> Seq<u8> {
        scalar_wire::<u64, 8>(*self, endian)
    }

    fn encode<Enc: Encoder>(&self, encoder: &mut Enc) {
        encoder.encode_u64(*self);
    }
}

impl Serializer for u128 {
    open spec fn wire(&self, endian: ByteEndian) -> Seq<u8> {
        scalar_wire::<u128, 16>(*self, endian)
    }

    fn encode<Enc: Encoder>(&self, encoder: &mut Enc) {
        encoder.encode_u128(*self);
    }
}

impl Serializer for usize {
    open spec fn wire(&self, endian: ByteEndian) -> Seq<u8> {
        scalar_wire::<usize, 8>(*self, endian)
    }

    fn encode<Enc: Encoder>(&self, encoder: &mut Enc) {
        encoder.encode_usize(*self);
    }
}

impl Serializer for i8 {
    open spec fn wire(&self, endian: ByteEndian) -> Seq<u8> {
        scalar_wire::<i8, 1>(*self, endian)
    }

    fn encode<Enc: Encoder>(&self, encoder: &mut Enc) {
        encoder.encode_i8(*self);
    }
}

impl Serializer for i16 {
    open spec fn wire(&self, endian: ByteEndian) -> Seq<u8> {
        scalar_wire::<i16, 2>(*self, endian)
    }

    fn encode<Enc: Encoder>(&self, encoder: &mut Enc) {
        encoder.encode_i16(*self);
    }
}

impl Serializer for i32 {
    open spec fn wire(&self, endian: ByteEndian) -> Seq<u8> {
        scalar_wire::<i32, 4>(*self, endian)
    }

    fn encode<Enc: Encoder>(&self, encoder: &mut Enc) {
        encoder.encode_i32(*self);
    }
}

impl Serializer for i64 {
    open spec fn wire(&self, endian: ByteEndian) -> Seq<u8> {
        scalar_wire::<i64, 8>(*self, endian)
    }

    fn encode<Enc: Encoder>(&self, encoder: &mut Enc) {
        encoder.encode_i64(*self);
    }
}

impl Serializer for i128 {
    open spec fn wire(&self, endian: ByteEndian) -> Seq<u8> {
        scalar_wire::<i128, 16>(*self, endian)
    }

    fn encode<Enc: Encoder>(&self, encoder: &mut Enc) {
        encoder.encode_i128(*self);
    }
}

impl Serializer for isize {
    open spec fn wire(&self, endian: ByteEndian) -> Seq<u8> {
        scalar_wire::<isize, 8>(*self, endian)
    }

    fn encode<Enc: Encoder>(&self, encoder: &mut Enc) {
        encoder.encode_isize(*self);
    }
}

impl Serializer for bool {
    open spec fn wire(&self, endian: ByteEndian) -> Seq<u8> {
        bool_wire(*self)
    }

    fn encode<Enc: Encoder>(&self, encoder: &mut Enc) {
        encoder.encode_bool(*self);
    }
}

} // verus!
