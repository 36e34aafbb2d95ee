use binary_serializer::common::ByteEndian;
use binary_serializer::decoder::{Decoder, DecoderExt, DecoderResult, Deserializer, FromBytes};
use binary_serializer::encoder::{Encoder, EncoderExt, Serializer, ToBytes};

#[derive(Debug, Eq, PartialEq)]
struct Data {
    text: String,
    number: u32,
    list: Vec<u8>,
}

impl Serializer for Data {
    fn encode<Enc: Encoder>(&self, encoder: &mut Enc) {
        encoder.encode_value(&self.text);
        encoder.encode_value(&self.number);
        encoder.encode_value(&self.list);
    }
}

impl Deserializer for Data {
    type Model = Data;

    fn decode<Dec: Decoder>(decoder: &mut Dec) -> DecoderResult<Self> {
        Ok(Self {
            text: decoder.decode_value()?,
            number: decoder.decode_value()?,
            list: decoder.decode_value()?,
        })
    }
}

#[test]
fn run() {
    let data = Data { text: "Text".to_string(), number: 69, list: vec![4, 2, 0] };

    let bytes = data.to_bytes(ByteEndian::Little);
    let data2 = Data::from_bytes(&bytes, ByteEndian::Little).unwrap();

    println!("Serialized Bytes {:?}", &bytes);
    println!("Original {:?}", data);
    println!("Deserialized {:?}", data2);
    assert_eq!(data, data2);
}
