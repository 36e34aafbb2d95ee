use binary_serializer::common::ByteEndian;
use binary_serializer::decoder::{
    Decoder, DecoderError, DecoderExt, DecoderResult, Deserializer, FromBytes,
};
use binary_serializer::encoder::{Encoder, EncoderExt, Serializer, ToBytes};
use std::fmt::Debug;

#[derive(Debug, PartialEq)]
struct Unit;

#[derive(Debug, PartialEq)]
struct Tuple(u32, u32);

#[derive(Debug, PartialEq)]
struct Fields {
    unit: Unit,
    tuple: Tuple,
    enums: Vec<Enum>,
}

#[derive(Debug, PartialEq)]
enum Enum {
    Unit,
    Tuple(u32, u32),
    Struct { x: u32, y: u32 },
}

impl Serializer for Unit {
    fn encode<Enc: Encoder>(&self, _encoder: &mut Enc) {}
}

impl Deserializer for Unit {
    type Model = Unit;

    fn decode<Dec: Decoder>(_decoder: &mut Dec) -> DecoderResult<Self> {
        Ok(Self)
    }
}

impl Serializer for Tuple {
    fn encode<Enc: Encoder>(&self, encoder: &mut Enc) {
        encoder.encode_value(&self.0);
        encoder.encode_value(&self.1);
    }
}

impl Deserializer for Tuple {
    type Model = Tuple;

    fn decode<Dec: Decoder>(decoder: &mut Dec) -> DecoderResult<Self> {
        Ok(Self(decoder.decode_value()?, decoder.decode_value()?))
    }
}

impl Serializer for Fields {
    fn encode<Enc: Encoder>(&self, encoder: &mut Enc) {
        encoder.encode_value(&self.unit);
        encoder.encode_value(&self.tuple);
        encoder.encode_value(&self.enums);
    }
}

impl Deserializer for Fields {
    type Model = Fields;

    fn decode<Dec: Decoder>(decoder: &mut Dec) -> DecoderResult<Self> {
        Ok(Self {
            unit: decoder.decode_value()?,
            tuple: decoder.decode_value()?,
            enums: decoder.decode_value()?,
        })
    }
}

impl Serializer for Enum {
    fn encode<Enc: Encoder>(&self, encoder: &mut Enc) {
        let index: usize = match self {
            Self::Unit => 0,
            Self::Tuple(_, _) => 1,
            Self::Struct { .. } => 2,
        };

        encoder.encode_value(&index);

        match self {
            Self::Unit => {}
            Self::Tuple(_0, _1) => {
                encoder.encode_value(_0);
                encoder.encode_value(_1);
            }
            Self::Struct { x, y } => {
                encoder.encode_value(x);
                encoder.encode_value(y);
            }
        }
    }
}

impl Deserializer for Enum {
    type Model = Enum;

    fn decode<Dec: Decoder>(decoder: &mut Dec) -> DecoderResult<Self> {
        let index: usize = decoder.decode_value()?;

        Ok(match index {
            0 => Self::Unit,
            1 => Self::Tuple(decoder.decode_value()?, decoder.decode_value()?),
            2 => Self::Struct { x: decoder.decode_value()?, y: decoder.decode_value()? },
            _ => return Err(DecoderError::InvalidEnumVariant),
        })
    }
}

fn test_valid<T: Serializer + Deserializer + PartialEq + Debug>(source: T) {
    let bytes = source.to_bytes(ByteEndian::Little);
    let parsed_le = T::from_bytes(&bytes, ByteEndian::Little);

    let bytes = source.to_bytes(ByteEndian::Big);
    let parsed_be = T::from_bytes(&bytes, ByteEndian::Big);

    let source = Ok(source);

    assert_eq!(source, parsed_le);
    assert_eq!(source, parsed_be);
}

fn test_invalid<T: Serializer + Deserializer + PartialEq + Debug>(source: T) {
    let bytes = source.to_bytes(ByteEndian::Big);
    let parsed_le = T::from_bytes(&bytes, ByteEndian::Little);

    let bytes = source.to_bytes(ByteEndian::Little);
    let parsed_be = T::from_bytes(&bytes, ByteEndian::Big);

    let source = Ok(source);

    assert_ne!(source, parsed_le);
    assert_ne!(source, parsed_be);
}

#[test]
fn valid() {
    test_valid(Enum::Unit);
    test_valid(Enum::Tuple(69, 420));
    test_valid(Enum::Struct { x: 69, y: 420 });

    test_valid(Unit);
    test_valid(Tuple(69, 420));
    test_valid(Fields {
        unit: Unit,
        tuple: Tuple(69, 420),
        enums: vec![Enum::Tuple(69, 420), Enum::Struct { x: 69, y: 420 }],
    });
}

#[test]
fn invalid() {
    test_invalid(Enum::Tuple(69, 420));
    test_invalid(Enum::Struct { x: 69, y: 420 });
    test_invalid(Tuple(69, 420));
    test_invalid(Fields {
        unit: Unit,
        tuple: Tuple(69, 420),
        enums: vec![Enum::Tuple(69, 420), Enum::Struct { x: 69, y: 420 }],
    });
}
