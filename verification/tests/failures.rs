use binary_serializer::common::ByteEndian;
use binary_serializer::decoder::{
    ByteDecoder, Decoder, DecoderError, DecoderExt, DecoderResult, Deserializer, FromBytes,
};
use binary_serializer::encoder::{Encoder, EncoderExt, Serializer, ToBytes};

#[derive(Debug, Eq, PartialEq, Clone)]
struct Data {
    text: String,
    number: u32,
    list: Vec<u8>,
}

impl Serializer for Data {
    fn encode<Enc: Encoder>(&self, encoder: &mut Enc) {
        encoder.encode_value(&self.text);
        encoder.encode_value(&self.number);
        encoder.encode_value(&self.list);
    }
}

impl Deserializer for Data {
    type Model = Data;

    fn decode<Dec: Decoder>(decoder: &mut Dec) -> DecoderResult<Self> {
        Ok(Self {
            text: decoder.decode_value()?,
            number: decoder.decode_value()?,
            list: decoder.decode_value()?,
        })
    }
}

#[derive(Debug, PartialEq)]
enum Choice {
    A,
    B(u32, u32),
    C { x: u32, y: u32 },
}

impl Serializer for Choice {
    fn encode<Enc: Encoder>(&self, encoder: &mut Enc) {
        let index: usize = match self {
            Self::A => 0,
            Self::B(_, _) => 1,
            Self::C { .. } => 2,
        };
        encoder.encode_value(&index);
        match self {
            Self::A => {}
            Self::B(_0, _1) => {
                encoder.encode_value(_0);
                encoder.encode_value(_1);
            }
            Self::C { x, y } => {
                encoder.encode_value(x);
                encoder.encode_value(y);
            }
        }
    }
}

impl Deserializer for Choice {
    type Model = Choice;

    fn decode<Dec: Decoder>(decoder: &mut Dec) -> DecoderResult<Self> {
        Ok(match decoder.decode_variant(3)? {
            0 => Self::A,
            1 => Self::B(decoder.decode_value()?, decoder.decode_value()?),
            _ => Self::C { x: decoder.decode_value()?, y: decoder.decode_value()? },
        })
    }
}

fn sample() -> Data {
    Data { text: "Text".to_string(), number: 69, list: vec![4, 2, 0] }
}

#[test]
fn a_struct_is_its_fields_in_order() {
    let bytes = sample().to_bytes(ByteEndian::Little);
    assert_eq!(
        bytes,
        vec![
            4, 0, 0, 0, 0, 0, 0, 0, b'T', 0, b'e', 0, b'x', 0, b't', 0, // text
            69, 0, 0, 0, // number
            3, 0, 0, 0, 0, 0, 0, 0, 4, 2, 0, // list
        ]
    );
    assert_eq!(Data::from_bytes(&bytes, ByteEndian::Little), Ok(sample()));
    let bytes = sample().to_bytes(ByteEndian::Big);
    assert_eq!(Data::from_bytes(&bytes, ByteEndian::Big), Ok(sample()));
}

#[test]
fn a_variant_is_its_index_and_its_fields() {
    let bytes = Choice::B(2, 3).to_bytes(ByteEndian::Little);
    assert_eq!(bytes, vec![1, 0, 0, 0, 0, 0, 0, 0, 2, 0, 0, 0, 3, 0, 0, 0]);
    assert_eq!(Choice::from_bytes(&bytes, ByteEndian::Little), Ok(Choice::B(2, 3)));
    let bytes = Choice::B(2, 3).to_bytes(ByteEndian::Big);
    assert_eq!(bytes, vec![0, 0, 0, 0, 0, 0, 0, 1, 0, 0, 0, 2, 0, 0, 0, 3]);
    assert_eq!(Choice::from_bytes(&bytes, ByteEndian::Big), Ok(Choice::B(2, 3)));
    assert_eq!(Choice::A.to_bytes(ByteEndian::Big), vec![0; 8]);
    assert_eq!(Choice::from_bytes(&[0; 8], ByteEndian::Big), Ok(Choice::A));
    let bytes = Choice::C { x: 1, y: 2 }.to_bytes(ByteEndian::Big);
    assert_eq!(bytes, vec![0, 0, 0, 0, 0, 0, 0, 2, 0, 0, 0, 1, 0, 0, 0, 2]);
    assert_eq!(Choice::from_bytes(&bytes, ByteEndian::Big), Ok(Choice::C { x: 1, y: 2 }));
}

#[test]
fn an_index_that_names_no_variant_is_refused() {
    let at_count = [0, 0, 0, 0, 0, 0, 0, 3, 0, 0, 0, 0, 0, 0, 0, 0];
    assert_eq!(
        Choice::from_bytes(&at_count, ByteEndian::Big),
        Err(DecoderError::InvalidEnumVariant)
    );
    let beyond = [0xFF; 16];
    assert_eq!(Choice::from_bytes(&beyond, ByteEndian::Big), Err(DecoderError::InvalidEnumVariant));
    // the index of one byte order read in the other
    let bytes = Choice::B(2, 3).to_bytes(ByteEndian::Big);
    assert_eq!(
        Choice::from_bytes(&bytes, ByteEndian::Little),
        Err(DecoderError::InvalidEnumVariant)
    );
    let mut decoder = ByteDecoder::new(&at_count, ByteEndian::Big);
    assert_eq!(decoder.decode_variant(3), Err(DecoderError::InvalidEnumVariant));
    let mut decoder = ByteDecoder::new(&at_count, ByteEndian::Big);
    assert_eq!(decoder.decode_variant(4), Ok(3));
    let mut decoder = ByteDecoder::new(&at_count, ByteEndian::Big);
    assert_eq!(decoder.decode_variant(0), Err(DecoderError::InvalidEnumVariant));
}

#[test]
fn an_index_cut_off_is_a_shortfall_not_a_bad_variant() {
    assert_eq!(
        Choice::from_bytes(&[0xFF; 7], ByteEndian::Big),
        Err(DecoderError::NotEnoughBytes { type_label: "u64".to_string(), index: 0 })
    );
    let mut decoder = ByteDecoder::new(&[0xFF; 7], ByteEndian::Big);
    assert_eq!(
        decoder.decode_variant(3),
        Err(DecoderError::NotEnoughBytes { type_label: "u64".to_string(), index: 0 })
    );
}

#[test]
fn every_strict_prefix_fails_for_want_of_bytes() {
    for endian in [ByteEndian::Big, ByteEndian::Little] {
        let bytes = sample().to_bytes(endian);
        for kept in 0..bytes.len() {
            match Data::from_bytes(&bytes[..kept], endian) {
                Err(DecoderError::NotEnoughBytes { index, .. }) => assert!(index <= kept),
                other => panic!("prefix of {} bytes gave {:?}", kept, other),
            }
        }
        let bytes = Choice::C { x: 1, y: 2 }.to_bytes(endian);
        for kept in 0..bytes.len() {
            assert!(matches!(
                Choice::from_bytes(&bytes[..kept], endian),
                Err(DecoderError::NotEnoughBytes { .. })
            ));
        }
        let nested = vec![("ab".to_string(), vec![1u16, 2]), ("".to_string(), vec![])];
        let bytes = nested.to_bytes(endian);
        for kept in 0..bytes.len() {
            assert!(matches!(
                Vec::<(String, Vec<u16>)>::from_bytes(&bytes[..kept], endian),
                Err(DecoderError::NotEnoughBytes { .. })
            ));
        }
    }
}

#[test]
fn a_prefix_names_the_place_of_the_shortfall() {
    let bytes = sample().to_bytes(ByteEndian::Little);
    // cut inside the number, which starts at byte 16
    assert_eq!(
        Data::from_bytes(&bytes[..18], ByteEndian::Little),
        Err(DecoderError::NotEnoughBytes { type_label: "u32".to_string(), index: 16 })
    );
    // cut inside the count of the list, which starts at byte 20
    assert_eq!(
        Data::from_bytes(&bytes[..27], ByteEndian::Little),
        Err(DecoderError::NotEnoughBytes { type_label: "u64".to_string(), index: 20 })
    );
    // cut before the last element of the list
    assert_eq!(
        Data::from_bytes(&bytes[..30], ByteEndian::Little),
        Err(DecoderError::NotEnoughBytes { type_label: "u8".to_string(), index: 30 })
    );
    // cut inside the text
    assert_eq!(
        Data::from_bytes(&bytes[..11], ByteEndian::Little),
        Err(DecoderError::NotEnoughBytes { type_label: "u16".to_string(), index: 10 })
    );
}

#[test]
fn sixteen_zero_bytes_are_too_few() {
    // two words and a byte need seventeen
    assert_eq!(
        <(u64, u64, u8)>::from_bytes(&[0; 16], ByteEndian::Big),
        Err(DecoderError::NotEnoughBytes { type_label: "u8".to_string(), index: 16 })
    );
    assert_eq!(
        <(u128, u8)>::from_bytes(&[0; 16], ByteEndian::Little),
        Err(DecoderError::NotEnoughBytes { type_label: "u8".to_string(), index: 16 })
    );
    // an empty text, an empty list and the number between them need twenty
    assert_eq!(
        Data::from_bytes(&[0; 16], ByteEndian::Little),
        Err(DecoderError::NotEnoughBytes { type_label: "u64".to_string(), index: 12 })
    );
}

#[test]
fn failures_in_words() {
    assert_eq!(
        DecoderError::not_enough_bytes("u32", 16).message(),
        "not enough bytes left to decode `u32` starting at index `16`"
    );
    assert_eq!(
        DecoderError::not_enough_bytes("[u8; 3]", 0).message(),
        "not enough bytes left to decode `[u8; 3]` starting at index `0`"
    );
    assert_eq!(
        DecoderError::not_enough_bytes("", 1234567890).message(),
        "not enough bytes left to decode `` starting at index `1234567890`"
    );
    assert_eq!(DecoderError::InvalidUTF16.message(), "invalid utf-16: lone surrogate found");
    assert_eq!(DecoderError::InvalidEnumVariant.message(), "Invalid Enum");
    let error = String::from_utf16(&[0xD800]).unwrap_err();
    assert_eq!(DecoderError::InvalidUTF16.message(), format!("{}", error));
}

#[test]
fn not_enough_bytes_keeps_its_arguments() {
    assert_eq!(
        DecoderError::not_enough_bytes("Data", 7),
        DecoderError::NotEnoughBytes { type_label: "Data".to_string(), index: 7 }
    );
}
