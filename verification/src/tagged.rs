//! Scalars that carry their type with them.

use crate::common::ByteEndian;
use crate::decoder::{wrapped, Decoder, DecoderResult, Deserializer, Failure};
use crate::encoder::{Encoder, Serializer};
use crate::laws::{is_shortfall, Lawful};
use vstd::prelude::*;

verus! {

/// The scalar types of the wire format.
#[derive(Copy, Clone, Debug, PartialEq, Eq, Structural)]
pub enum ScalarKind {
    U8,
    U16,
    U32,
    U64,
    U128,
    Usize,
    I8,
    I16,
    I32,
    I64,
    I128,
    Isize,
    Bool,
}

/// A scalar together with its type.
#[derive(Copy, Clone, Debug, PartialEq, Eq, Structural)]
pub enum Scalar {
    U8(u8),
    U16(u16),
    U32(u32),
    U64(u64),
    U128(u128),
    Usize(usize),
    I8(i8),
    I16(i16),
    I32(i32),
    I64(i64),
    I128(i128),
    Isize(isize),
    Bool(bool),
}

impl Scalar {
    /// The type of this scalar.
    pub open spec fn kind_of(self) -> ScalarKind {
        match self {
            Scalar::U8(_) => ScalarKind::U8,
            Scalar::U16(_) => ScalarKind::U16,
            Scalar::U32(_) => ScalarKind::U32,
            Scalar::U64(_) => ScalarKind::U64,
            Scalar::U128(_) => ScalarKind::U128,
            Scalar::Usize(_) => ScalarKind::Usize,
            Scalar::I8(_) => ScalarKind::I8,
            Scalar::I16(_) => ScalarKind::I16,
            Scalar::I32(_) => ScalarKind::I32,
            Scalar::I64(_) => ScalarKind::I64,
            Scalar::I128(_) => ScalarKind::I128,
            Scalar::Isize(_) => ScalarKind::Isize,
            Scalar::Bool(_) => ScalarKind::Bool,
        }
    }

    pub fn kind(&self) -> (kind: ScalarKind)
        ensures
            kind == self.kind_of(),
    {
        match self {
            Scalar::U8(_) => ScalarKind::U8,
            Scalar::U16(_) => ScalarKind::U16,
            Scalar::U32(_) => ScalarKind::U32,
            Scalar::U64(_) => ScalarKind::U64,
            Scalar::U128(_) => ScalarKind::U128,
            Scalar::Usize(_) => ScalarKind::Usize,
            Scalar::I8(_) => ScalarKind::I8,
            Scalar::I16(_) => ScalarKind::I16,
            Scalar::I32(_) => ScalarKind::I32,
            Scalar::I64(_) => ScalarKind::I64,
            Scalar::I128(_) => ScalarKind::I128,
            Scalar::Isize(_) => ScalarKind::Isize,
            Scalar::Bool(_) => ScalarKind::Bool,
        }
    }

    /// A scalar that was written is read back as the same scalar of the
    /// same type, whatever stands around it.
    pub proof fn lemma_round_trip(self, endian: ByteEndian, before: Seq<u8>, after: Seq<u8>)
        ensures
            self.kind_of().parse(before + self.wire(endian) + after, before.len(), endian) == Ok::<
                (Scalar, nat),
                Failure,
            >((self, before.len() + self.wire(endian).len())),
    {
        match self {
            Scalar::U8(value) => value.lemma_round_trip(endian, before, after),
            Scalar::U16(value) => value.lemma_round_trip(endian, before, after),
            Scalar::U32(value) => value.lemma_round_trip(endian, before, after),
            Scalar::U64(value) => value.lemma_round_trip(endian, before, after),
            Scalar::U128(value) => value.lemma_round_trip(endian, before, after),
            Scalar::Usize(value) => value.lemma_round_trip(endian, before, after),
            Scalar::I8(value) => value.lemma_round_trip(endian, before, after),
            Scalar::I16(value) => value.lemma_round_trip(endian, before, after),
            Scalar::I32(value) => value.lemma_round_trip(endian, before, after),
            Scalar::I64(value) => value.lemma_round_trip(endian, before, after),
            Scalar::I128(value) => value.lemma_round_trip(endian, before, after),
            Scalar::Isize(value) => value.lemma_round_trip(endian, before, after),
            Scalar::Bool(value) => value.lemma_round_trip(endian, before, after),
        }
    }

    /// A scalar that lost bytes is reported as cut off.
    pub proof fn lemma_truncated(self, endian: ByteEndian, before: Seq<u8>, kept: nat)
        requires
            kept < self.wire(endian).len(),
        ensures
            self.kind_of().parse(before + self.wire(endian).take(kept as int), before.len(), endian) matches Err(
                failure,
            ) && is_shortfall(failure),
    {
        match self {
            Scalar::U8(value) => value.lemma_truncated(endian, before, kept),
            Scalar::U16(value) => value.lemma_truncated(endian, before, kept),
            Scalar::U32(value) => value.lemma_truncated(endian, before, kept),
            Scalar::U64(value) => value.lemma_truncated(endian, before, kept),
            Scalar::U128(value) => value.lemma_truncated(endian, before, kept),
            Scalar::Usize(value) => value.lemma_truncated(endian, before, kept),
            Scalar::I8(value) => value.lemma_truncated(endian, before, kept),
            Scalar::I16(value) => value.lemma_truncated(endian, before, kept),
            Scalar::I32(value) => value.lemma_truncated(endian, before, kept),
            Scalar::I64(value) => value.lemma_truncated(endian, before, kept),
            Scalar::I128(value) => value.lemma_truncated(endian, before, kept),
            Scalar::Isize(value) => value.lemma_truncated(endian, before, kept),
            Scalar::Bool(value) => value.lemma_truncated(endian, before, kept),
        }
    }
}

impl Serializer for Scalar {
    open spec fn wire(&self, endian: ByteEndian) -> Seq<u8> {
        match self {
            Scalar::U8(value) => value.wire(endian),
            Scalar::U16(value) => value.wire(endian),
            Scalar::U32(value) => value.wire(endian),
            Scalar::U64(value) => value.wire(endian),
            Scalar::U128(value) => value.wire(endian),
            Scalar::Usize(value) => value.wire(endian),
            Scalar::I8(value) => value.wire(endian),
            Scalar::I16(value) => value.wire(endian),
            Scalar::I32(value) => value.wire(endian),
            Scalar::I64(value) => value.wire(endian),
            Scalar::I128(value) => value.wire(endian),
            Scalar::Isize(value) => value.wire(endian),
            Scalar::Bool(value) => value.wire(endian),
        }
    }

    fn encode<Enc: Encoder>(&self, encoder: &mut Enc) {
        match self {
            Scalar::U8(value) => encoder.encode_u8(*value),
            Scalar::U16(value) => encoder.encode_u16(*value),
            Scalar::U32(value) => encoder.encode_u32(*value),
            Scalar::U64(value) => encoder.encode_u64(*value),
            Scalar::U128(value) => encoder.encode_u128(*value),
            Scalar::Usize(value) => encoder.encode_usize(*value),
            Scalar::I8(value) => encoder.encode_i8(*value),
            Scalar::I16(value) => encoder.encode_i16(*value),
            Scalar::I32(value) => encoder.encode_i32(*value),
            Scalar::I64(value) => encoder.encode_i64(*value),
            Scalar::I128(value) => encoder.encode_i128(*value),
            Scalar::Isize(value) => encoder.encode_isize(*value),
            Scalar::Bool(value) => encoder.encode_bool(*value),
        }
    }
}

impl ScalarKind {
    /// What reading a scalar of this type at `at` gives.
    pub open spec fn parse(self, input: Seq<u8>, at: nat, endian: ByteEndian) -> Result<
        (Scalar, nat),
        Failure,
    > {
        match self {
            ScalarKind::U8 => wrapped(u8::parse(input, at, endian), |value: u8| Scalar::U8(value)),
            ScalarKind::U16 => wrapped(u16::parse(input, at, endian), |value: u16| Scalar::U16(value)),
            ScalarKind::U32 => wrapped(u32::parse(input, at, endian), |value: u32| Scalar::U32(value)),
            ScalarKind::U64 => wrapped(u64::parse(input, at, endian), |value: u64| Scalar::U64(value)),
            ScalarKind::U128 => wrapped(u128::parse(input, at, endian), |value: u128| Scalar::U128(value)),
            ScalarKind::Usize => wrapped(usize::parse(input, at, endian), |value: usize| Scalar::Usize(value)),
            ScalarKind::I8 => wrapped(i8::parse(input, at, endian), |value: i8| Scalar::I8(value)),
            ScalarKind::I16 => wrapped(i16::parse(input, at, endian), |value: i16| Scalar::I16(value)),
            ScalarKind::I32 => wrapped(i32::parse(input, at, endian), |value: i32| Scalar::I32(value)),
            ScalarKind::I64 => wrapped(i64::parse(input, at, endian), |value: i64| Scalar::I64(value)),
            ScalarKind::I128 => wrapped(i128::parse(input, at, endian), |value: i128| Scalar::I128(value)),
            ScalarKind::Isize => wrapped(isize::parse(input, at, endian), |value: isize| Scalar::Isize(value)),
            ScalarKind::Bool => wrapped(bool::parse(input, at, endian), |value: bool| Scalar::Bool(value)),
        }
    }

    /// Reads one scalar of this type.
    pub fn decode<Dec: Decoder>(&self, decoder: &mut Dec) -> (result: DecoderResult<Scalar>)
        ensures
            final(decoder).input() == old(decoder).input(),
            final(decoder).endian() == old(decoder).endian(),
            result is Err ==> final(decoder).position() == old(decoder).position(),
            match result {
                Ok(scalar) => self.parse(
                    old(decoder).input(),
                    old(decoder).position(),
                    old(decoder).endian(),
                ) == Ok::<(Scalar, nat), Failure>((scalar, final(decoder).position())),
                Err(error) => self.parse(
                    old(decoder).input(),
                    old(decoder).position(),
                    old(decoder).endian(),
                ) == Err::<(Scalar, nat), Failure>(error@),
            },
    {
        match self {
            ScalarKind::U8 => match decoder.decode_u8() {
                Ok(value) => Ok(Scalar::U8(value)),
                Err(error) => Err(error),
            },
            ScalarKind::U16 => match decoder.decode_u16() {
                Ok(value) => Ok(Scalar::U16(value)),
                Err(error) => Err(error),
            },
            ScalarKind::U32 => match decoder.decode_u32() {
                Ok(value) => Ok(Scalar::U32(value)),
                Err(error) => Err(error),
            },
            ScalarKind::U64 => match decoder.decode_u64() {
                Ok(value) => Ok(Scalar::U64(value)),
                Err(error) => Err(error),
            },
            ScalarKind::U128 => match decoder.decode_u128() {
                Ok(value) => Ok(Scalar::U128(value)),
                Err(error) => Err(error),
            },
            ScalarKind::Usize => match decoder.decode_usize() {
                Ok(value) => Ok(Scalar::Usize(value)),
                Err(error) => Err(error),
            },
            ScalarKind::I8 => match decoder.decode_i8() {
                Ok(value) => Ok(Scalar::I8(value)),
                Err(error) => Err(error),
            },
            ScalarKind::I16 => match decoder.decode_i16() {
                Ok(value) => Ok(Scalar::I16(value)),
                Err(error) => Err(error),
            },
            ScalarKind::I32 => match decoder.decode_i32() {
                Ok(value) => Ok(Scalar::I32(value)),
                Err(error) => Err(error),
            },
            ScalarKind::I64 => match decoder.decode_i64() {
                Ok(value) => Ok(Scalar::I64(value)),
                Err(error) => Err(error),
            },
            ScalarKind::I128 => match decoder.decode_i128() {
                Ok(value) => Ok(Scalar::I128(value)),
                Err(error) => Err(error),
            },
            ScalarKind::Isize => match decoder.decode_isize() {
                Ok(value) => Ok(Scalar::Isize(value)),
                Err(error) => Err(error),
            },
            ScalarKind::Bool => match decoder.decode_bool() {
                Ok(value) => Ok(Scalar::Bool(value)),
                Err(error) => Err(error),
            },
        }
    }
}

} // verus!
