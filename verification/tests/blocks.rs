use binary_serializer::common::ByteEndian;
use binary_serializer::decoder::{ByteDecoder, DecoderError, DecoderExt, FromBytes, Primitive};
use binary_serializer::encoder::ToBytes;

#[test]
fn a_block_is_what_its_elements_are() {
    for endian in [ByteEndian::Big, ByteEndian::Little] {
        let source = [69u32; 10];
        let bytes = source.to_bytes(endian);
        let mut decoder = ByteDecoder::new(&bytes, endian);
        let block = decoder.decode_block::<u32, 4>();
        assert_eq!(block, Ok(source.to_vec()));
        assert_eq!(decoder.remaining(), 0);
        assert_eq!(block, Vec::<u32>::from_bytes(&bytes, endian));

        let source: Vec<i64> = vec![i64::MIN, -1, 0, 1, i64::MAX];
        let bytes = source.to_bytes(endian);
        let mut decoder = ByteDecoder::new(&bytes, endian);
        assert_eq!(decoder.decode_block::<i64, 8>(), Ok(source.clone()));
        let mut decoder = ByteDecoder::new(&bytes, endian);
        assert_eq!(decoder.decode_slice::<i64>(), Ok(source));

        let source: Vec<u128> = vec![0, 1, u128::MAX, 0x0102_0304_0506_0708_090A_0B0C_0D0E_0F10];
        let bytes = source.to_bytes(endian);
        let mut decoder = ByteDecoder::new(&bytes, endian);
        assert_eq!(decoder.decode_block::<u128, 16>(), Ok(source));
    }
}

#[test]
fn blocks_of_every_width() {
    let bytes = vec![1u8, 2, 3].to_bytes(ByteEndian::Big);
    let mut decoder = ByteDecoder::new(&bytes, ByteEndian::Big);
    assert_eq!(decoder.decode_block::<u8, 1>(), Ok(vec![1, 2, 3]));
    let bytes = vec![-1i8, 2].to_bytes(ByteEndian::Little);
    let mut decoder = ByteDecoder::new(&bytes, ByteEndian::Little);
    assert_eq!(decoder.decode_block::<i8, 1>(), Ok(vec![-1, 2]));
    let bytes = vec![0x0102u16, 0x0304].to_bytes(ByteEndian::Big);
    let mut decoder = ByteDecoder::new(&bytes, ByteEndian::Big);
    assert_eq!(decoder.decode_block::<u16, 2>(), Ok(vec![0x0102, 0x0304]));
    let mut decoder = ByteDecoder::new(&bytes, ByteEndian::Little);
    assert_eq!(decoder.decode_block::<u16, 2>(), Err(DecoderError::NotEnoughBytes {
        type_label: "[u16; 144115188075855872]".to_string(),
        index: 8,
    }));
    let bytes = vec![-2i16].to_bytes(ByteEndian::Little);
    let mut decoder = ByteDecoder::new(&bytes, ByteEndian::Little);
    assert_eq!(decoder.decode_block::<i16, 2>(), Ok(vec![-2]));
    let bytes = vec![-2i32, 5].to_bytes(ByteEndian::Big);
    let mut decoder = ByteDecoder::new(&bytes, ByteEndian::Big);
    assert_eq!(decoder.decode_block::<i32, 4>(), Ok(vec![-2, 5]));
    let bytes = vec![7u64].to_bytes(ByteEndian::Big);
    let mut decoder = ByteDecoder::new(&bytes, ByteEndian::Big);
    assert_eq!(decoder.decode_block::<u64, 8>(), Ok(vec![7]));
    let bytes = vec![-7i128].to_bytes(ByteEndian::Little);
    let mut decoder = ByteDecoder::new(&bytes, ByteEndian::Little);
    assert_eq!(decoder.decode_block::<i128, 16>(), Ok(vec![-7]));
}

#[test]
fn a_block_leaves_what_follows() {
    let mut bytes = vec![1u16, 2].to_bytes(ByteEndian::Little);
    bytes.extend_from_slice(&[9, 8]);
    let mut decoder = ByteDecoder::new(&bytes, ByteEndian::Little);
    assert_eq!(decoder.decode_block::<u16, 2>(), Ok(vec![1, 2]));
    assert_eq!(decoder.remaining(), 2);
    assert_eq!(decoder.decode_block::<u8, 1>(), Err(DecoderError::NotEnoughBytes {
        type_label: "u64".to_string(),
        index: 12,
    }));
}

#[test]
fn a_block_cut_off_names_the_whole_run() {
    for endian in [ByteEndian::Big, ByteEndian::Little] {
        let bytes = [69u32; 10].to_bytes(endian);
        for kept in 8..bytes.len() {
            let mut decoder = ByteDecoder::new(&bytes[..kept], endian);
            assert_eq!(
                decoder.decode_block::<u32, 4>(),
                Err(DecoderError::NotEnoughBytes {
                    type_label: "[u32; 10]".to_string(),
                    index: 8
                })
            );
            // element by element the same input fails too, at the element that is cut
            assert!(matches!(
                Vec::<u32>::from_bytes(&bytes[..kept], endian),
                Err(DecoderError::NotEnoughBytes { .. })
            ));
        }
        for kept in 0..8 {
            let mut decoder = ByteDecoder::new(&bytes[..kept], endian);
            assert_eq!(
                decoder.decode_block::<u32, 4>(),
                Err(DecoderError::NotEnoughBytes { type_label: "u64".to_string(), index: 0 })
            );
        }
    }
}

#[test]
fn an_empty_block() {
    let mut decoder = ByteDecoder::new(&[0; 8], ByteEndian::Big);
    assert_eq!(decoder.decode_block::<u64, 8>(), Ok(vec![]));
    assert_eq!(decoder.remaining(), 0);
}

#[test]
fn a_count_that_overflows_is_a_shortfall() {
    let bytes = [0xFF; 12];
    let mut decoder = ByteDecoder::new(&bytes, ByteEndian::Big);
    assert_eq!(
        decoder.decode_block::<u64, 8>(),
        Err(DecoderError::NotEnoughBytes {
            type_label: format!("[u64; {}]", usize::MAX),
            index: 8
        })
    );
}

#[test]
fn labels_of_the_primitives() {
    assert_eq!(<u8 as Primitive<1>>::label(), "u8");
    assert_eq!(<u16 as Primitive<2>>::label(), "u16");
    assert_eq!(<u32 as Primitive<4>>::label(), "u32");
    assert_eq!(<u64 as Primitive<8>>::label(), "u64");
    assert_eq!(<u128 as Primitive<16>>::label(), "u128");
    assert_eq!(<i8 as Primitive<1>>::label(), "i8");
    assert_eq!(<i16 as Primitive<2>>::label(), "i16");
    assert_eq!(<i32 as Primitive<4>>::label(), "i32");
    assert_eq!(<i64 as Primitive<8>>::label(), "i64");
    assert_eq!(<i128 as Primitive<16>>::label(), "i128");
}
