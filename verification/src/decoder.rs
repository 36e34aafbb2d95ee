//! Reading values: the failures, the decoder capability, the in-memory
//! decoder, and the types that know how to read themselves.

use crate::common::{value_of, ByteEndian, MapEntry};
use crate::digits::{lemma_le_value_bound, lemma_pow256_widths, pow256};
use crate::scalar::{image_of_i64, isize_of_image, usize_of_image, EndianValue};
use crate::text::{
    block_label, block_label_text, shortfall_message, shortfall_text, text_of_utf16, utf16_decode,
};
use crate::maps::{collect_map, map_of, owned};
use std::collections::HashMap;
use std::hash::Hash;
use vstd::prelude::*;
use vstd::std_specs::hash::obeys_key_model;

verus! {

/// Why a decoding stopped, as a mathematical value.
pub enum Failure {
    /// The input ended before a value of the named type was complete; `index`
    /// is where its first byte was looked for.
    NotEnoughBytes { type_label: Seq<char>, index: nat },
    /// The code units of a text do not form UTF-16.
    InvalidUTF16,
    /// A variant index names no variant of the enum.
    InvalidEnumVariant,
}

/// Why a decoding stopped.
#[derive(Debug, PartialEq, Eq)]
pub enum DecoderError {
    NotEnoughBytes { type_label: String, index: usize },
    InvalidUTF16,
    InvalidEnumVariant,
}

pub type DecoderResult<T> = Result<T, DecoderError>;

impl View for DecoderError {
    type V = Failure;

    open spec fn view(&self) -> Failure {
        match self {
            DecoderError::NotEnoughBytes { type_label, index } => Failure::NotEnoughBytes {
                type_label: type_label@,
                index: *index as nat,
            },
            DecoderError::InvalidUTF16 => Failure::InvalidUTF16,
            DecoderError::InvalidEnumVariant => Failure::InvalidEnumVariant,
        }
    }
}

/// What a failure says of itself.
pub open spec fn message_of(failure: Failure) -> Seq<char> {
    match failure {
        Failure::NotEnoughBytes { type_label, index } => shortfall_text(type_label, index),
        Failure::InvalidUTF16 => "invalid utf-16: lone surrogate found"@,
        Failure::InvalidEnumVariant => "Invalid Enum"@,
    }
}

impl DecoderError {
    /// The failure in words, as it is shown to a reader.
    pub fn message(&self) -> (text: String)
        ensures
            text@ == message_of(self@),
    {
        match self {
            DecoderError::NotEnoughBytes { type_label, index } => shortfall_message(
                type_label.as_str(),
                *index,
            ),
            DecoderError::InvalidUTF16 => "invalid utf-16: lone surrogate found".to_owned(),
            DecoderError::InvalidEnumVariant => "Invalid Enum".to_owned(),
        }
    }

    /// The failure that tells that the input ended before a value of the
    /// named type, looked for at `index`, was complete.
    pub fn not_enough_bytes(type_label: &str, index: usize) -> (error: Self)
        ensures
            error@ == (Failure::NotEnoughBytes { type_label: type_label@, index: index as nat }),
    {
        Self::NotEnoughBytes { type_label: type_label.to_owned(), index }
    }
}

/// What reading a scalar of `SIZE` bytes at `at` gives: the value that the
/// bytes `at .. at + SIZE` denote and the place behind them, or the failure
/// that names the type and `at` where fewer than `SIZE` bytes are left.
pub open spec fn scalar_parse<T: EndianValue<SIZE>, const SIZE: usize>(
    input: Seq<u8>,
    at: nat,
    endian: ByteEndian,
    type_label: Seq<char>,
) -> Result<(T, nat), Failure> {
    if at + SIZE <= input.len() {
        Ok(
            (
                T::from_image(value_of(input.subrange(at as int, at + SIZE), endian)),
                (at + SIZE) as nat,
            ),
        )
    } else {
        Err(Failure::NotEnoughBytes { type_label, index: at })
    }
}

/// What reading a boolean at `at` gives: any byte but zero is true.
pub open spec fn bool_parse(input: Seq<u8>, at: nat) -> Result<(bool, nat), Failure> {
    if at < input.len() {
        Ok((input[at as int] != 0, at + 1))
    } else {
        Err(Failure::NotEnoughBytes { type_label: "u8"@, index: at })
    }
}

/// `parsed` with its value handed through `wrap`.
pub open spec fn wrapped<A, B>(parsed: Result<(A, nat), Failure>, wrap: spec_fn(A) -> B) -> Result<
    (B, nat),
    Failure,
> {
    match parsed {
        Ok((value, end)) => Ok((wrap(value), end)),
        Err(failure) => Err(failure),
    }
}

/// `result` and the place `end` where the decoder stands are what `parsed`
/// says: the same value and place, or the same failure.
pub open spec fn read_as<T>(
    result: Result<T, DecoderError>,
    end: nat,
    parsed: Result<(T, nat), Failure>,
) -> bool {
    match result {
        Ok(value) => parsed == Ok::<(T, nat), Failure>((value, end)),
        Err(error) => parsed == Err::<(T, nat), Failure>(error@),
    }
}

/// Something that scalars can be read from, one after the other.
///
/// `input` and `endian` never change; `position` is where the next read
/// starts. A scalar read that fails leaves the position where it was.
pub trait Decoder: Sized {
    spec fn input(&self) -> Seq<u8>;

    spec fn position(&self) -> nat;

    spec fn endian(&self) -> ByteEndian;

    fn decode_u8(&mut self) -> (result: DecoderResult<u8>)
        ensures
            final(self).input() == old(self).input(),
            final(self).endian() == old(self).endian(),
            result is Err ==> final(self).position() == old(self).position(),
            read_as(
                result,
                final(self).position(),
                scalar_parse::<u8, 1>(
                    old(self).input(),
                    old(self).position(),
                    old(self).endian(),
                    "u8"@,
                ),
            ),
    ;

    fn decode_u16(&mut self) -> (result: DecoderResult<u16>)
        ensures
            final(self).input() == old(self).input(),
            final(self).endian() == old(self).endian(),
            result is Err ==> final(self).position() == old(self).position(),
            read_as(
                result,
                final(self).position(),
                scalar_parse::<u16, 2>(
                    old(self).input(),
                    old(self).position(),
                    old(self).endian(),
                    "u16"@,
                ),
            ),
    ;

    fn decode_u32(&mut self) -> (result: DecoderResult<u32>)
        ensures
            final(self).input() == old(self).input(),
            final(self).endian() == old(self).endian(),
            result is Err ==> final(self).position() == old(self).position(),
            read_as(
                result,
                final(self).position(),
                scalar_parse::<u32, 4>(
                    old(self).input(),
                    old(self).position(),
                    old(self).endian(),
                    "u32"@,
                ),
            ),
    ;

    fn decode_u64(&mut self) -> (result: DecoderResult<u64>)
        ensures
            final(self).input() == old(self).input(),
            final(self).endian() == old(self).endian(),
            result is Err ==> final(self).position() == old(self).position(),
            read_as(
                result,
                final(self).position(),
                scalar_parse::<u64, 8>(
                    old(self).input(),
                    old(self).position(),
                    old(self).endian(),
                    "u64"@,
                ),
            ),
    ;

    fn decode_u128(&mut self) -> (result: DecoderResult<u128>)
        ensures
            final(self).input() == old(self).input(),
            final(self).endian() == old(self).endian(),
            result is Err ==> final(self).position() == old(self).position(),
            read_as(
                result,
                final(self).position(),
                scalar_parse::<u128, 16>(
                    old(self).input(),
                    old(self).position(),
                    old(self).endian(),
                    "u128"@,
                ),
            ),
    ;

    fn decode_usize(&mut self) -> (result: DecoderResult<usize>)
        ensures
            final(self).input() == old(self).input(),
            final(self).endian() == old(self).endian(),
            result is Err ==> final(self).position() == old(self).position(),
            read_as(
                result,
                final(self).position(),
                scalar_parse::<usize, 8>(
                    old(self).input(),
                    old(self).position(),
                    old(self).endian(),
                    "u64"@,
                ),
            ),
    {
        proof {
            lemma_pow256_widths();
            if self.position() + 8 <= self.input().len() {
                let digits = self.input().subrange(
                    self.position() as int,
                    self.position() as int + 8,
                );
                lemma_le_value_bound(digits);
                lemma_le_value_bound(digits.reverse());
            }
        }
        match self.decode_u64() {
            Ok(wide) => Ok(usize_of_image(wide as u128)),
            Err(error) => Err(error),
        }
    }

    fn decode_i8(&mut self) -> (result: DecoderResult<i8>)
        ensures
            final(self).input() == old(self).input(),
            final(self).endian() == old(self).endian(),
            result is Err ==> final(self).position() == old(self).position(),
            read_as(
                result,
                final(self).position(),
                scalar_parse::<i8, 1>(
                    old(self).input(),
                    old(self).position(),
                    old(self).endian(),
                    "i8"@,
                ),
            ),
    ;

    fn decode_i16(&mut self) -> (result: DecoderResult<i16>)
        ensures
            final(self).input() == old(self).input(),
            final(self).endian() == old(self).endian(),
            result is Err ==> final(self).position() == old(self).position(),
            read_as(
                result,
                final(self).position(),
                scalar_parse::<i16, 2>(
                    old(self).input(),
                    old(self).position(),
                    old(self).endian(),
                    "i16"@,
                ),
            ),
    ;

    fn decode_i32(&mut self) -> (result: DecoderResult<i32>)
        ensures
            final(self).input() == old(self).input(),
            final(self).endian() == old(self).endian(),
            result is Err ==> final(self).position() == old(self).position(),
            read_as(
                result,
                final(self).position(),
                scalar_parse::<i32, 4>(
                    old(self).input(),
                    old(self).position(),
                    old(self).endian(),
                    "i32"@,
                ),
            ),
    ;

    fn decode_i64(&mut self) -> (result: DecoderResult<i64>)
        ensures
            final(self).input() == old(self).input(),
            final(self).endian() == old(self).endian(),
            result is Err ==> final(self).position() == old(self).position(),
            read_as(
                result,
                final(self).position(),
                scalar_parse::<i64, 8>(
                    old(self).input(),
                    old(self).position(),
                    old(self).endian(),
                    "i64"@,
                ),
            ),
    ;

    fn decode_i128(&mut self) -> (result: DecoderResult<i128>)
        ensures
            final(self).input() == old(self).input(),
            final(self).endian() == old(self).endian(),
            result is Err ==> final(self).position() == old(self).position(),
            read_as(
                result,
                final(self).position(),
                scalar_parse::<i128, 16>(
                    old(self).input(),
                    old(self).position(),
                    old(self).endian(),
                    "i128"@,
                ),
            ),
    ;

    fn decode_isize(&mut self) -> (result: DecoderResult<isize>)
        ensures
            final(self).input() == old(self).input(),
            final(self).endian() == old(self).endian(),
            result is Err ==> final(self).position() == old(self).position(),
            read_as(
                result,
                final(self).position(),
                scalar_parse::<isize, 8>(
                    old(self).input(),
                    old(self).position(),
                    old(self).endian(),
                    "i64"@,
                ),
            ),
    {
        proof {
            lemma_pow256_widths();
            if self.position() + 8 <= self.input().len() {
                let digits = self.input().subrange(
                    self.position() as int,
                    self.position() as int + 8,
                );
                lemma_le_value_bound(digits);
                lemma_le_value_bound(digits.reverse());
            }
        }
        match self.decode_i64() {
            Ok(wide) => Ok(isize_of_image(image_of_i64(wide))),
            Err(error) => Err(error),
        }
    }

    fn decode_bool(&mut self) -> (result: DecoderResult<bool>)
        ensures
            final(self).input() == old(self).input(),
            final(self).endian() == old(self).endian(),
            result is Err ==> final(self).position() == old(self).position(),
            read_as(result, final(self).position(), bool_parse(old(self).input(), old(self).position())),
    {
        proof {
            if self.position() < self.input().len() {
                crate::digits::lemma_single_byte(
                    self.input().subrange(self.position() as int, self.position() as int + 1),
                );
            }
        }
        match self.decode_u8() {
            Ok(byte) => Ok(byte != 0),
            Err(error) => Err(error),
        }
    }
}

/// A value that can read itself from any decoder.
///
/// `parse` says what the bytes at some place mean, and `decode` returns
/// exactly that: on success a value whose model is the one `parse` names,
/// with the decoder right behind it; on failure the failure `parse` names.
pub trait Deserializer: Sized {
    /// The mathematical value that a decoded `Self` stands for.
    type Model;

    /// The model of `self`.
    open spec fn model(&self) -> Self::Model {
        arbitrary()
    }

    /// What decoding at `at` gives: the value and the place behind it, or the
    /// first failure on the way. Unless an impl says otherwise nothing is
    /// read, as for a type without fields.
    open spec fn parse(input: Seq<u8>, at: nat, endian: ByteEndian) -> Result<(Self::Model, nat), Failure> {
        Ok((arbitrary(), at))
    }

    /// Reads one value where the decoder stands.
    fn decode<Dec: Decoder>(decoder: &mut Dec) -> (result: DecoderResult<Self>)
        ensures
            final(decoder).input() == old(decoder).input(),
            final(decoder).endian() == old(decoder).endian(),
            match result {
                Ok(value) => Self::parse(
                    old(decoder).input(),
                    old(decoder).position(),
                    old(decoder).endian(),
                ) == Ok::<(Self::Model, nat), Failure>((value.model(), final(decoder).position())),
                Err(error) => Self::parse(
                    old(decoder).input(),
                    old(decoder).position(),
                    old(decoder).endian(),
                ) == Err::<(Self::Model, nat), Failure>(error@),
            },
    ;
}

/// The models of `items`, in order.
pub open spec fn models<T: Deserializer>(items: Seq<T>) -> Seq<T::Model> {
    items.map_values(|item: T| item.model())
}

/// What reading `count` values of `T` one after the other gives: all of them
/// and the place behind the last, or the first failure.
pub open spec fn parse_items<T: Deserializer>(
    input: Seq<u8>,
    at: nat,
    endian: ByteEndian,
    count: nat,
) -> Result<(Seq<T::Model>, nat), Failure>
    decreases count,
{
    if count == 0 {
        Ok((Seq::empty(), at))
    } else {
        match parse_items::<T>(input, at, endian, (count - 1) as nat) {
            Ok((items, next)) => match T::parse(input, next, endian) {
                Ok((item, end)) => Ok((items.push(item), end)),
                Err(failure) => Err(failure),
            },
            Err(failure) => Err(failure),
        }
    }
}

/// What reading a sequence gives: the element count in its eight-byte form,
/// then that many elements.
pub open spec fn parse_slice<T: Deserializer>(input: Seq<u8>, at: nat, endian: ByteEndian) -> Result<
    (Seq<T::Model>, nat),
    Failure,
> {
    match scalar_parse::<usize, 8>(input, at, endian, "u64"@) {
        Ok((count, next)) => parse_items::<T>(input, next, endian, count as nat),
        Err(failure) => Err(failure),
    }
}

/// What reading text gives: a sequence of code units that must be UTF-16.
pub open spec fn parse_text(input: Seq<u8>, at: nat, endian: ByteEndian) -> Result<
    (Seq<char>, nat),
    Failure,
> {
    match parse_slice::<u16>(input, at, endian) {
        Ok((units, end)) => match utf16_decode(units) {
            Some(chars) => Ok((chars, end)),
            None => Err(Failure::InvalidUTF16),
        },
        Err(failure) => Err(failure),
    }
}

/// What reading the index of a variant gives: the index, or the refusal of
/// one that is not below `variants`.
pub open spec fn variant_parse(input: Seq<u8>, at: nat, endian: ByteEndian, variants: nat) -> Result<
    (usize, nat),
    Failure,
> {
    match scalar_parse::<usize, 8>(input, at, endian, "u64"@) {
        Ok((index, next)) => if index < variants {
            Ok((index, next))
        } else {
            Err(Failure::InvalidEnumVariant)
        },
        Err(failure) => Err(failure),
    }
}

/// What every decoder can do once it can read scalars.
pub trait DecoderExt: Decoder {
    /// Reads the element count and then that many elements; the first
    /// element that fails ends the whole read with its failure.
    fn decode_slice<T: Deserializer>(&mut self) -> (result: DecoderResult<Vec<T>>)
        ensures
            final(self).input() == old(self).input(),
            final(self).endian() == old(self).endian(),
            match result {
                Ok(values) => parse_slice::<T>(
                    old(self).input(),
                    old(self).position(),
                    old(self).endian(),
                ) == Ok::<(Seq<T::Model>, nat), Failure>((models(values@), final(self).position())),
                Err(error) => parse_slice::<T>(
                    old(self).input(),
                    old(self).position(),
                    old(self).endian(),
                ) == Err::<(Seq<T::Model>, nat), Failure>(error@),
            },
    {
        let len = match self.decode_usize() {
            Ok(len) => len,
            Err(error) => {
                return Err(error);
            },
        };
        let ghost start = self.position();
        let mut values: Vec<T> = Vec::new();
        let mut i: usize = 0;
        proof {
            assert(models(values@) =~= Seq::<T::Model>::empty());
        }
        while i < len
            invariant
                i <= len,
                self.input() == old(self).input(),
                self.endian() == old(self).endian(),
                values@.len() == i,
                scalar_parse::<usize, 8>(
                    old(self).input(),
                    old(self).position(),
                    old(self).endian(),
                    "u64"@,
                ) == Ok::<(usize, nat), Failure>((len, start)),
                parse_items::<T>(self.input(), start, self.endian(), i as nat) == Ok::<
                    (Seq<T::Model>, nat),
                    Failure,
                >((models(values@), self.position())),
            decreases len - i,
        {
            let ghost before = models(values@);
            match T::decode(self) {
                Ok(value) => {
                    values.push(value);
                    proof {
                        assert(models(values@) =~= before.push(value.model()));
                    }
                },
                Err(error) => {
                    proof {
                        lemma_parse_items_fails::<T>(
                            self.input(),
                            start,
                            self.endian(),
                            (i + 1) as nat,
                            len as nat,
                        );
                    }
                    return Err(error);
                },
            }
            i += 1;
        }
        Ok(values)
    }

    /// Reads text: a sequence of UTF-16 code units, checked to be well formed.
    fn decode_string(&mut self) -> (result: DecoderResult<String>)
        ensures
            final(self).input() == old(self).input(),
            final(self).endian() == old(self).endian(),
            match result {
                Ok(text) => parse_text(old(self).input(), old(self).position(), old(self).endian())
                    == Ok::<(Seq<char>, nat), Failure>((text@, final(self).position())),
                Err(error) => parse_text(old(self).input(), old(self).position(), old(self).endian())
                    == Err::<(Seq<char>, nat), Failure>(error@),
            },
    {
        let units = match self.decode_slice::<u16>() {
            Ok(units) => units,
            Err(error) => {
                return Err(error);
            },
        };
        proof {
            assert(models(units@) =~= units@);
        }
        match text_of_utf16(units.as_slice()) {
            Some(text) => Ok(text),
            None => Err(DecoderError::InvalidUTF16),
        }
    }

    /// Reads a map: a sequence of entries, inserted in the order in which
    /// they come, so that of two entries with one key the later stays.
    fn decode_map<K: Deserializer + Eq + Hash, V: Deserializer>(&mut self) -> (result:
        DecoderResult<HashMap<K, V>>)
        requires
            obeys_key_model::<K>(),
        ensures
            final(self).input() == old(self).input(),
            final(self).endian() == old(self).endian(),
            match result {
                Ok(map) => exists|entries: Seq<MapEntry<K, V>>|
                    map@ == #[trigger] map_of(owned(entries)) && parse_slice::<MapEntry<K, V>>(
                        old(self).input(),
                        old(self).position(),
                        old(self).endian(),
                    ) == Ok::<(Seq<(K::Model, V::Model)>, nat), Failure>(
                        (models(entries), final(self).position()),
                    ),
                Err(error) => parse_slice::<MapEntry<K, V>>(
                    old(self).input(),
                    old(self).position(),
                    old(self).endian(),
                ) == Err::<(Seq<(K::Model, V::Model)>, nat), Failure>(error@),
            },
    {
        let entries = match self.decode_slice::<MapEntry<K, V>>() {
            Ok(entries) => entries,
            Err(error) => {
                return Err(error);
            },
        };
        Ok(collect_map(entries))
    }

    /// Reads the index of a variant of an enum with `variants` variants. An
    /// index that names none of them is refused as such.
    fn decode_variant(&mut self, variants: usize) -> (result: DecoderResult<usize>)
        ensures
            final(self).input() == old(self).input(),
            final(self).endian() == old(self).endian(),
            read_as(
                result,
                final(self).position(),
                variant_parse(
                    old(self).input(),
                    old(self).position(),
                    old(self).endian(),
                    variants as nat,
                ),
            ),
    {
        match self.decode_usize() {
            Ok(index) => if index < variants {
                Ok(index)
            } else {
                Err(DecoderError::InvalidEnumVariant)
            },
            Err(error) => Err(error),
        }
    }

    /// Reads one value in its own encoding.
    fn decode_value<T: Deserializer>(&mut self) -> (result: DecoderResult<T>)
        ensures
            final(self).input() == old(self).input(),
            final(self).endian() == old(self).endian(),
            match result {
                Ok(value) => T::parse(old(self).input(), old(self).position(), old(self).endian())
                    == Ok::<(T::Model, nat), Failure>((value.model(), final(self).position())),
                Err(error) => T::parse(old(self).input(), old(self).position(), old(self).endian())
                    == Err::<(T::Model, nat), Failure>(error@),
            },
    {
        T::decode(self)
    }
}

impl<Dec: Decoder> DecoderExt for Dec {

}

/// Once some element fails, reading more elements fails in the same way.
pub proof fn lemma_parse_items_fails<T: Deserializer>(
    input: Seq<u8>,
    at: nat,
    endian: ByteEndian,
    reached: nat,
    count: nat,
)
    requires
        reached <= count,
        parse_items::<T>(input, at, endian, reached) is Err,
    ensures
        parse_items::<T>(input, at, endian, count) == parse_items::<T>(input, at, endian, reached),
    decreases count,
{
    if reached < count {
        lemma_parse_items_fails::<T>(input, at, endian, reached, (count - 1) as nat);
    }
}

/// A scalar whose bytes in memory are its bytes on the wire, byte order
/// aside: only runs of such scalars may be read as one block.
pub trait Primitive<const SIZE: usize>: EndianValue<SIZE> + Deserializer {
    /// The name of the type in failures.
    spec fn label_of() -> Seq<char>;

    fn label() -> (label: &'static str)
        ensures
            label@ == Self::label_of(),
    ;

    /// Every image of `SIZE` bytes is the image of the scalar it is read
    /// as: no two images are read alike.
    proof fn lemma_image_read(image: nat)
        requires
            image < pow256(SIZE as nat),
        ensures
            Self::from_image(image).image() == image,
    ;

    /// Read by itself, the scalar is what its `SIZE` bytes denote, and
    /// these are at least one and at most sixteen.
    proof fn lemma_parse(input: Seq<u8>, at: nat, endian: ByteEndian)
        ensures
            0 < SIZE <= 16,
            Self::parse(input, at, endian) == wrapped(
                scalar_parse::<Self, SIZE>(input, at, endian, Self::label_of()),
                |value: Self| value.model(),
            ),
    ;
}

/// The scalar that the `i`-th group of `SIZE` bytes from `at` denotes.
pub open spec fn block_item<T: EndianValue<SIZE>, const SIZE: usize>(
    input: Seq<u8>,
    at: nat,
    endian: ByteEndian,
    i: int,
) -> T {
    T::from_image(value_of(input.subrange(at + i * SIZE, at + (i + 1) * SIZE), endian))
}

/// What reading a run of scalars as one block gives: the count, then, where
/// the input holds `count * SIZE` more bytes, all the scalars; else the
/// failure that names the whole run and the place behind the count.
pub open spec fn block_parse<T: Primitive<SIZE>, const SIZE: usize>(
    input: Seq<u8>,
    at: nat,
    endian: ByteEndian,
) -> Result<(Seq<T>, nat), Failure> {
    match scalar_parse::<usize, 8>(input, at, endian, "u64"@) {
        Ok((count, next)) => if next + count * SIZE <= input.len() {
            Ok(
                (
                    Seq::new(count as nat, |i: int| block_item::<T, SIZE>(input, next, endian, i)),
                    (next + count * SIZE) as nat,
                ),
            )
        } else {
            Err(
                Failure::NotEnoughBytes {
                    type_label: block_label(T::label_of(), count as nat),
                    index: next,
                },
            )
        },
        Err(failure) => Err(failure),
    }
}

/// A decoder over a byte buffer in memory.
pub struct ByteDecoder<'a> {
    bytes: &'a [u8],
    endian: ByteEndian,
    index: usize,
}

impl<'a> ByteDecoder<'a> {
    /// The cursor never leaves the buffer.
    #[verifier::type_invariant]
    spec fn in_bounds(self) -> bool {
        self.index <= self.bytes@.len()
    }

    /// A decoder that stands at the start of `bytes`.
    pub fn new(bytes: &'a [u8], endian: ByteEndian) -> (decoder: Self)
        ensures
            decoder.input() == bytes@,
            decoder.position() == 0,
            decoder.endian() == endian,
    {
        Self { bytes, endian, index: 0 }
    }

    /// The whole input, read or not.
    pub fn bytes(&self) -> (bytes: &[u8])
        ensures
            bytes@ == self.input(),
    {
        self.bytes
    }

    /// The number of bytes behind the cursor.
    pub fn remaining(&self) -> (left: usize)
        ensures
            left == self.input().len() - self.position(),
            self.position() <= self.input().len() <= usize::MAX,
    {
        proof {
            use_type_invariant(self);
        }
        self.bytes.len() - self.index
    }

    /// Takes the next `N` bytes, or fails without moving where fewer are left.
    pub fn read_bytes<const N: usize>(&mut self, type_label: &str) -> (result: DecoderResult<[u8; N]>)
        ensures
            final(self).input() == old(self).input(),
            final(self).endian() == old(self).endian(),
            match result {
                Ok(taken) => {
                    &&& old(self).position() + N <= old(self).input().len()
                    &&& final(self).position() == old(self).position() + N
                    &&& taken@ == old(self).input().subrange(
                        old(self).position() as int,
                        old(self).position() + N,
                    )
                },
                Err(error) => {
                    &&& old(self).position() + N > old(self).input().len()
                    &&& final(self).position() == old(self).position()
                    &&& error@ == (Failure::NotEnoughBytes {
                        type_label: type_label@,
                        index: old(self).position(),
                    })
                },
            },
    {
        proof {
            use_type_invariant(&*self);
        }
        if N > self.bytes.len() - self.index {
            return Err(DecoderError::not_enough_bytes(type_label, self.index));
        }
        let mut taken = [0u8; N];
        let mut i: usize = 0;
        while i < N
            invariant
                i <= N,
                self.index + N <= self.bytes@.len() <= usize::MAX,
                taken@.len() == N,
                forall|j: int| 0 <= j < i ==> taken@[j] == self.bytes@[self.index + j],
            decreases N - i,
        {
            taken[i] = self.bytes[self.index + i];
            i += 1;
        }
        proof {
            assert(taken@ =~= self.bytes@.subrange(self.index as int, self.index + N));
        }
        self.index += N;
        Ok(taken)
    }

    /// Reads a run of scalars with one bounds check for the whole run.
    ///
    /// Where the byte order is the machine's own, the scalars are taken
    /// straight from the block; otherwise they are read one by one. Either
    /// way the result is the same.
    pub fn decode_block<T: Primitive<SIZE>, const SIZE: usize>(&mut self) -> (result: DecoderResult<
        Vec<T>,
    >)
        ensures
            final(self).input() == old(self).input(),
            final(self).endian() == old(self).endian(),
            match result {
                Ok(values) => block_parse::<T, SIZE>(
                    old(self).input(),
                    old(self).position(),
                    old(self).endian(),
                ) == Ok::<(Seq<T>, nat), Failure>((values@, final(self).position())),
                Err(error) => block_parse::<T, SIZE>(
                    old(self).input(),
                    old(self).position(),
                    old(self).endian(),
                ) == Err::<(Seq<T>, nat), Failure>(error@),
            },
    {
        proof {
            T::lemma_parse(self.input(), self.position(), self.endian());
        }
        let count = match self.decode_usize() {
            Ok(count) => count,
            Err(error) => {
                return Err(error);
            },
        };
        let left = self.remaining();
        let fits = match count.checked_mul(SIZE) {
            Some(total) => total <= left,
            None => false,
        };
        if !fits {
            let label = block_label_text(T::label(), count);
            return Err(DecoderError::NotEnoughBytes { type_label: label, index: self.index });
        }
        let ghost start = self.position();
        let native = self.endian.is_native();
        let mut values: Vec<T> = Vec::new();
        let mut i: usize = 0;
        while i < count
            invariant
                0 < SIZE <= 16,
                i <= count,
                self.input() == old(self).input(),
                self.endian() == old(self).endian(),
                start + count * SIZE <= self.input().len() <= usize::MAX,
                self.position() == if native {
                    start
                } else {
                    (start + i * SIZE) as nat
                },
                values@.len() == i,
                forall|j: int|
                    0 <= j < i ==> values@[j] == block_item::<T, SIZE>(
                        self.input(),
                        start,
                        self.endian(),
                        j,
                    ),
            decreases count - i,
        {
            proof {
                lemma_block_steps(i as nat, count as nat, SIZE as nat);
                assert(0 <= i * SIZE) by (nonlinear_arith);
            }
            let taken = if native {
                self.peek_bytes::<SIZE>(i * SIZE)
            } else {
                match self.read_bytes::<SIZE>(T::label()) {
                    Ok(taken) => taken,
                    Err(error) => {
                        return Err(error);
                    },
                }
            };
            values.push(T::from_bytes_of(self.endian, taken));
            i += 1;
        }
        if native {
            proof {
                assert(0 <= count * SIZE) by (nonlinear_arith);
            }
            self.index += count * SIZE;
        }
        proof {
            assert(values@ =~= Seq::new(
                count as nat,
                |i: int| block_item::<T, SIZE>(self.input(), start, self.endian(), i),
            ));
        }
        Ok(values)
    }

    /// Copies the `N` bytes that start `offset` bytes behind the cursor,
    /// without moving the cursor.
    fn peek_bytes<const N: usize>(&self, offset: usize) -> (taken: [u8; N])
        requires
            self.position() + offset + N <= self.input().len(),
        ensures
            taken@ == self.input().subrange(
                self.position() + offset,
                self.position() + offset + N,
            ),
    {
        let mut taken = [0u8; N];
        let mut i: usize = 0;
        let len = self.bytes.len();
        while i < N
            invariant
                i <= N,
                self.index + offset + N <= self.bytes@.len() == len,
                taken@.len() == N,
                forall|j: int| 0 <= j < i ==> taken@[j] == self.bytes@[self.index + offset + j],
            decreases N - i,
        {
            taken[i] = self.bytes[self.index + offset + i];
            i += 1;
        }
        proof {
            assert(taken@ =~= self.bytes@.subrange(
                self.index + offset,
                self.index + offset + N,
            ));
        }
        taken
    }
}

/// The `i`-th of `count` groups of `size` bytes ends within all of them.
pub proof fn lemma_block_steps(i: nat, count: nat, size: nat)
    requires
        i < count,
    ensures
        i * size + size == (i + 1) * size,
        (i + 1) * size <= count * size,
{
    assert(i * size + size == (i + 1) * size) by (nonlinear_arith);
    assert((i + 1) * size <= count * size) by (nonlinear_arith)
        requires
            i + 1 <= count,
    ;
}

impl<'a> Decoder for ByteDecoder<'a> {
    closed spec fn input(&self) -> Seq<u8> {
        self.bytes@
    }

    closed spec fn position(&self) -> nat {
        self.index as nat
    }

    closed spec fn endian(&self) -> ByteEndian {
        self.endian
    }

    fn decode_u8(&mut self) -> (result: DecoderResult<u8>) {
        match self.read_bytes::<1>("u8") {
            Ok(taken) => Ok(u8::from_bytes_of(self.endian, taken)),
            Err(error) => Err(error),
        }
    }

    fn decode_u16(&mut self) -> (result: DecoderResult<u16>) {
        match self.read_bytes::<2>("u16") {
            Ok(taken) => Ok(u16::from_bytes_of(self.endian, taken)),
            Err(error) => Err(error),
        }
    }

    fn decode_u32(&mut self) -> (result: DecoderResult<u32>) {
        match self.read_bytes::<4>("u32") {
            Ok(taken) => Ok(u32::from_bytes_of(self.endian, taken)),
            Err(error) => Err(error),
        }
    }

    fn decode_u64(&mut self) -> (result: DecoderResult<u64>) {
        match self.read_bytes::<8>("u64") {
            Ok(taken) => Ok(u64::from_bytes_of(self.endian, taken)),
            Err(error) => Err(error),
        }
    }

    fn decode_u128(&mut self) -> (result: DecoderResult<u128>) {
        match self.read_bytes::<16>("u128") {
            Ok(taken) => Ok(u128::from_bytes_of(self.endian, taken)),
            Err(error) => Err(error),
        }
    }

    fn decode_i8(&mut self) -> (result: DecoderResult<i8>) {
        match self.read_bytes::<1>("i8") {
            Ok(taken) => Ok(i8::from_bytes_of(self.endian, taken)),
            Err(error) => Err(error),
        }
    }

    fn decode_i16(&mut self) -> (result: DecoderResult<i16>) {
        match self.read_bytes::<2>("i16") {
            Ok(taken) => Ok(i16::from_bytes_of(self.endian, taken)),
            Err(error) => Err(error),
        }
    }

    fn decode_i32(&mut self) -> (result: DecoderResult<i32>) {
        match self.read_bytes::<4>("i32") {
            Ok(taken) => Ok(i32::from_bytes_of(self.endian, taken)),
            Err(error) => Err(error),
        }
    }

    fn decode_i64(&mut self) -> (result: DecoderResult<i64>) {
        match self.read_bytes::<8>("i64") {
            Ok(taken) => Ok(i64::from_bytes_of(self.endian, taken)),
            Err(error) => Err(error),
        }
    }

    fn decode_i128(&mut self) -> (result: DecoderResult<i128>) {
        match self.read_bytes::<16>("i128") {
            Ok(taken) => Ok(i128::from_bytes_of(self.endian, taken)),
            Err(error) => Err(error),
        }
    }
}

/// What `parsed` says of the value alone.
pub open spec fn parsed_value<M>(parsed: Result<(M, nat), Failure>) -> Result<M, Failure> {
    match parsed {
        Ok((value, _)) => Ok(value),
        Err(failure) => Err(failure),
    }
}

/// Decoding a whole value from the front of a buffer.
pub trait FromBytes: Deserializer + Sized {
    /// Reads one value at the start of `bytes`; what follows it is ignored.
    fn from_bytes(bytes: &[u8], endian: ByteEndian) -> (result: DecoderResult<Self>)
        ensures
            match result {
                Ok(value) => parsed_value(Self::parse(bytes@, 0, endian)) == Ok::<
                    Self::Model,
                    Failure,
                >(value.model()),
                Err(error) => parsed_value(Self::parse(bytes@, 0, endian)) == Err::<
                    Self::Model,
                    Failure,
                >(error@),
            },
    {
        let mut decoder = ByteDecoder::new(bytes, endian);
        Self::decode(&mut decoder)
    }
}

impl<T: Deserializer> FromBytes for T {

}

impl<T: Deserializer> Deserializer for Vec<T> {
    type Model = Seq<T::Model>;

    open spec fn model(&self) -> Seq<T::Model> {
        models(self@)
    }

    open spec fn parse(input: Seq<u8>, at: nat, endian: ByteEndian) -> Result<
        (Seq<T::Model>, nat),
        Failure,
    > {
        parse_slice::<T>(input, at, endian)
    }

    fn decode<Dec: Decoder>(decoder: &mut Dec) -> (result: DecoderResult<Self>) {
        decoder.decode_slice::<T>()
    }
}

impl Deserializer for String {
    type Model = Seq<char>;

    open spec fn model(&self) -> Seq<char> {
        self@
    }

    open spec fn parse(input: Seq<u8>, at: nat, endian: ByteEndian) -> Result<
        (Seq<char>, nat),
        Failure,
    > {
        parse_text(input, at, endian)
    }

    fn decode<Dec: Decoder>(decoder: &mut Dec) -> (result: DecoderResult<Self>) {
        decoder.decode_string()
    }
}

impl<K: Deserializer + Eq + Hash, V: Deserializer> Deserializer for MapEntry<K, V> {
    type Model = (K::Model, V::Model);

    open spec fn model(&self) -> (K::Model, V::Model) {
        (self.0.model(), self.1.model())
    }

    open spec fn parse(input: Seq<u8>, at: nat, endian: ByteEndian) -> Result<
        ((K::Model, V::Model), nat),
        Failure,
    > {
        match K::parse(input, at, endian) {
            Ok((key, next)) => match V::parse(input, next, endian) {
                Ok((value, end)) => Ok(((key, value), end)),
                Err(failure) => Err(failure),
            },
            Err(failure) => Err(failure),
        }
    }

    fn decode<Dec: Decoder>(decoder: &mut Dec) -> (result: DecoderResult<Self>) {
        let key = match K::decode(decoder) {
            Ok(key) => key,
            Err(error) => {
                return Err(error);
            },
        };
        let value = match V::decode(decoder) {
            Ok(value) => value,
            Err(error) => {
                return Err(error);
            },
        };
        Ok(MapEntry(key, value))
    }
}

impl Deserializer for u8 {
    type Model = u8;

    open spec fn model(&self) -> u8 {
        *self
    }

    open spec fn parse(input: Seq<u8>, at: nat, endian: ByteEndian) -> Result<(u8, nat), Failure> {
        scalar_parse::<u8, 1>(input, at, endian, "u8"@)
    }

    fn decode<Dec: Decoder>(decoder: &mut Dec) -> (result: DecoderResult<Self>) {
        decoder.decode_u8()
    }
}

impl Deserializer for u16 {
    type Model = u16;

    open spec fn model(&self) -> u16 {
        *self
    }

    open spec fn parse(input: Seq<u8>, at: nat, endian: ByteEndian) -> Result<(u16, nat), Failure> {
        scalar_parse::<u16, 2>(input, at, endian, "u16"@)
    }

    fn decode<Dec: Decoder>(decoder: &mut Dec) -> (result: DecoderResult<Self>) {
        decoder.decode_u16()
    }
}

impl Deserializer for u32 {
    type Model = u32;

    open spec fn model(&self) -> u32 {
        *self
    }

    open spec fn parse(input: Seq<u8>, at: nat, endian: ByteEndian) -> Result<(u32, nat), Failure> {
        scalar_parse::<u32, 4>(input, at, endian, "u32"@)
    }

    fn decode<Dec: Decoder>(decoder: &mut Dec) -> (result: DecoderResult<Self>) {
        decoder.decode_u32()
    }
}

impl Deserializer for u64 {
    type Model = u64;

    open spec fn model(&self) -> u64 {
        *self
    }

    open spec fn parse(input: Seq<u8>, at: nat, endian: ByteEndian) -> Result<(u64, nat), Failure> {
        scalar_parse::<u64, 8>(input, at, endian, "u64"@)
    }

    fn decode<Dec: Decoder>(decoder: &mut Dec) -> (result: DecoderResult<Self>) {
        decoder.decode_u64()
    }
}

impl Deserializer for u128 {
    type Model = u128;

    open spec fn model(&self) -> u128 {
        *self
    }

    open spec fn parse(input: Seq<u8>, at: nat, endian: ByteEndian) -> Result<(u128, nat), Failure> {
        scalar_parse::<u128, 16>(input, at, endian, "u128"@)
    }

    fn decode<Dec: Decoder>(decoder: &mut Dec) -> (result: DecoderResult<Self>) {
        decoder.decode_u128()
    }
}

impl Deserializer for usize {
    type Model = usize;

    open spec fn model(&self) -> usize {
        *self
    }

    open spec fn parse(input: Seq<u8>, at: nat, endian: ByteEndian) -> Result<(usize, nat), Failure> {
        scalar_parse::<usize, 8>(input, at, endian, "u64"@)
    }

    fn decode<Dec: Decoder>(decoder: &mut Dec) -> (result: DecoderResult<Self>) {
        decoder.decode_usize()
    }
}

impl Deserializer for i8 {
    type Model = i8;

    open spec fn model(&self) -> i8 {
        *self
    }

    open spec fn parse(input: Seq<u8>, at: nat, endian: ByteEndian) -> Result<(i8, nat), Failure> {
        scalar_parse::<i8, 1>(input, at, endian, "i8"@)
    }

    fn decode<Dec: Decoder>(decoder: &mut Dec) -> (result: DecoderResult<Self>) {
        decoder.decode_i8()
    }
}

impl Deserializer for i16 {
    type Model = i16;

    open spec fn model(&self) -> i16 {
        *self
    }

    open spec fn parse(input: Seq<u8>, at: nat, endian: ByteEndian) -> Result<(i16, nat), Failure> {
        scalar_parse::<i16, 2>(input, at, endian, "i16"@)
    }

    fn decode<Dec: Decoder>(decoder: &mut Dec) -> (result: DecoderResult<Self>) {
        decoder.decode_i16()
    }
}

impl Deserializer for i32 {
    type Model = i32;

    open spec fn model(&self) -> i32 {
        *self
    }

    open spec fn parse(input: Seq<u8>, at: nat, endian: ByteEndian) -> Result<(i32, nat), Failure> {
        scalar_parse::<i32, 4>(input, at, endian, "i32"@)
    }

    fn decode<Dec: Decoder>(decoder: &mut Dec) -> (result: DecoderResult<Self>) {
        decoder.decode_i32()
    }
}

impl Deserializer for i64 {
    type Model = i64;

    open spec fn model(&self) -> i64 {
        *self
    }

    open spec fn parse(input: Seq<u8>, at: nat, endian: ByteEndian) -> Result<(i64, nat), Failure> {
        scalar_parse::<i64, 8>(input, at, endian, "i64"@)
    }

    fn decode<Dec: Decoder>(decoder: &mut Dec) -> (result: DecoderResult<Self>) {
        decoder.decode_i64()
    }
}

impl Deserializer for i128 {
    type Model = i128;

    open spec fn model(&self) -> i128 {
        *self
    }

    open spec fn parse(input: Seq<u8>, at: nat, endian: ByteEndian) -> Result<(i128, nat), Failure> {
        scalar_parse::<i128, 16>(input, at, endian, "i128"@)
    }

    fn decode<Dec: Decoder>(decoder: &mut Dec) -> (result: DecoderResult<Self>) {
        decoder.decode_i128()
    }
}

impl Deserializer for isize {
    type Model = isize;

    open spec fn model(&self) -> isize {
        *self
    }

    open spec fn parse(input: Seq<u8>, at: nat, endian: ByteEndian) -> Result<(isize, nat), Failure> {
        scalar_parse::<isize, 8>(input, at, endian, "i64"@)
    }

    fn decode<Dec: Decoder>(decoder: &mut Dec) -> (result: DecoderResult<Self>) {
        decoder.decode_isize()
    }
}

impl Deserializer for bool {
    type Model = bool;

    open spec fn model(&self) -> bool {
        *self
    }

    open spec fn parse(input: Seq<u8>, at: nat, endian: ByteEndian) -> Result<(bool, nat), Failure> {
        bool_parse(input, at)
    }

    fn decode<Dec: Decoder>(decoder: &mut Dec) -> (result: DecoderResult<Self>) {
        decoder.decode_bool()
    }
}

impl Primitive<1> for u8 {
    open spec fn label_of() -> Seq<char> {
        "u8"@
    }

    proof fn lemma_image_read(image: nat) {
        lemma_pow256_widths();
    }

    fn label() -> (label: &'static str) {
        "u8"
    }

    proof fn lemma_parse(input: Seq<u8>, at: nat, endian: ByteEndian) {
    }
}

impl Primitive<2> for u16 {
    open spec fn label_of() -> Seq<char> {
        "u16"@
    }

    proof fn lemma_image_read(image: nat) {
        lemma_pow256_widths();
    }

    fn label() -> (label: &'static str) {
        "u16"
    }

    proof fn lemma_parse(input: Seq<u8>, at: nat, endian: ByteEndian) {
    }
}

impl Primitive<4> for u32 {
    open spec fn label_of() -> Seq<char> {
        "u32"@
    }

    proof fn lemma_image_read(image: nat) {
        lemma_pow256_widths();
    }

    fn label() -> (label: &'static str) {
        "u32"
    }

    proof fn lemma_parse(input: Seq<u8>, at: nat, endian: ByteEndian) {
    }
}

impl Primitive<8> for u64 {
    open spec fn label_of() -> Seq<char> {
        "u64"@
    }

    proof fn lemma_image_read(image: nat) {
        lemma_pow256_widths();
    }

    fn label() -> (label: &'static str) {
        "u64"
    }

    proof fn lemma_parse(input: Seq<u8>, at: nat, endian: ByteEndian) {
    }
}

impl Primitive<16> for u128 {
    open spec fn label_of() -> Seq<char> {
        "u128"@
    }

    proof fn lemma_image_read(image: nat) {
        lemma_pow256_widths();
    }

    fn label() -> (label: &'static str) {
        "u128"
    }

    proof fn lemma_parse(input: Seq<u8>, at: nat, endian: ByteEndian) {
    }
}

impl Primitive<1> for i8 {
    open spec fn label_of() -> Seq<char> {
        "i8"@
    }

    proof fn lemma_image_read(image: nat) {
        lemma_pow256_widths();
    }

    fn label() -> (label: &'static str) {
        "i8"
    }

    proof fn lemma_parse(input: Seq<u8>, at: nat, endian: ByteEndian) {
    }
}

impl Primitive<2> for i16 {
    open spec fn label_of() -> Seq<char> {
        "i16"@
    }

    proof fn lemma_image_read(image: nat) {
        lemma_pow256_widths();
    }

    fn label() -> (label: &'static str) {
        "i16"
    }

    proof fn lemma_parse(input: Seq<u8>, at: nat, endian: ByteEndian) {
    }
}

impl Primitive<4> for i32 {
    open spec fn label_of() -> Seq<char> {
        "i32"@
    }

    proof fn lemma_image_read(image: nat) {
        lemma_pow256_widths();
    }

    fn label() -> (label: &'static str) {
        "i32"
    }

    proof fn lemma_parse(input: Seq<u8>, at: nat, endian: ByteEndian) {
    }
}

impl Primitive<8> for i64 {
    open spec fn label_of() -> Seq<char> {
        "i64"@
    }

    proof fn lemma_image_read(image: nat) {
        lemma_pow256_widths();
    }

    fn label() -> (label: &'static str) {
        "i64"
    }

    proof fn lemma_parse(input: Seq<u8>, at: nat, endian: ByteEndian) {
    }
}

impl Primitive<16> for i128 {
    open spec fn label_of() -> Seq<char> {
        "i128"@
    }

    proof fn lemma_image_read(image: nat) {
        lemma_pow256_widths();
    }

    fn label() -> (label: &'static str) {
        "i128"
    }

    proof fn lemma_parse(input: Seq<u8>, at: nat, endian: ByteEndian) {
    }
}

} // verus!
