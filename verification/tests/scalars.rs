use binary_serializer::common::{join, split, ByteEndian, EndianValue};
use binary_serializer::decoder::{ByteDecoder, Decoder, DecoderError, FromBytes};
use binary_serializer::encoder::{ByteEncoder, ByteTracker, Encoder, ToBytes};

#[test]
fn u32_little_and_big() {
    assert_eq!(69u32.to_bytes(ByteEndian::Little), vec![69, 0, 0, 0]);
    assert_eq!(69u32.to_bytes(ByteEndian::Big), vec![0, 0, 0, 69]);
    assert_eq!(0x0102_0304u32.to_bytes(ByteEndian::Little), vec![4, 3, 2, 1]);
    assert_eq!(0x0102_0304u32.to_bytes(ByteEndian::Big), vec![1, 2, 3, 4]);
}

#[test]
fn widths_of_every_scalar() {
    assert_eq!(1u8.to_bytes(ByteEndian::Big).len(), 1);
    assert_eq!(1i8.to_bytes(ByteEndian::Big).len(), 1);
    assert_eq!(true.to_bytes(ByteEndian::Big).len(), 1);
    assert_eq!(1u16.to_bytes(ByteEndian::Big).len(), 2);
    assert_eq!(1i16.to_bytes(ByteEndian::Big).len(), 2);
    assert_eq!(1u32.to_bytes(ByteEndian::Big).len(), 4);
    assert_eq!(1i32.to_bytes(ByteEndian::Big).len(), 4);
    assert_eq!(1u64.to_bytes(ByteEndian::Big).len(), 8);
    assert_eq!(1i64.to_bytes(ByteEndian::Big).len(), 8);
    assert_eq!(1usize.to_bytes(ByteEndian::Big).len(), 8);
    assert_eq!(1isize.to_bytes(ByteEndian::Big).len(), 8);
    assert_eq!(1u128.to_bytes(ByteEndian::Big).len(), 16);
    assert_eq!(1i128.to_bytes(ByteEndian::Big).len(), 16);
}

#[test]
fn scalars_agree_with_the_standard_library() {
    assert_eq!(0xBEEFu16.to_bytes(ByteEndian::Little), 0xBEEFu16.to_le_bytes().to_vec());
    assert_eq!(0xBEEFu16.to_bytes(ByteEndian::Big), 0xBEEFu16.to_be_bytes().to_vec());
    let wide = 0x0123_4567_89AB_CDEFu64;
    assert_eq!(wide.to_bytes(ByteEndian::Little), wide.to_le_bytes().to_vec());
    assert_eq!(wide.to_bytes(ByteEndian::Big), wide.to_be_bytes().to_vec());
    let huge = 0x0011_2233_4455_6677_8899_AABB_CCDD_EEFFu128;
    assert_eq!(huge.to_bytes(ByteEndian::Little), huge.to_le_bytes().to_vec());
    assert_eq!(huge.to_bytes(ByteEndian::Big), huge.to_be_bytes().to_vec());
    assert_eq!(u128::MAX.to_bytes(ByteEndian::Big), vec![0xFF; 16]);
}

#[test]
fn signed_scalars_are_twos_complement() {
    assert_eq!((-1i8).to_bytes(ByteEndian::Little), vec![0xFF]);
    assert_eq!((-2i16).to_bytes(ByteEndian::Little), vec![0xFE, 0xFF]);
    assert_eq!((-2i16).to_bytes(ByteEndian::Big), vec![0xFF, 0xFE]);
    assert_eq!(i32::MIN.to_bytes(ByteEndian::Big), vec![0x80, 0, 0, 0]);
    assert_eq!(i64::MIN.to_bytes(ByteEndian::Little), i64::MIN.to_le_bytes().to_vec());
    assert_eq!((-3i64).to_bytes(ByteEndian::Big), (-3i64).to_be_bytes().to_vec());
    assert_eq!(i128::MIN.to_bytes(ByteEndian::Big), i128::MIN.to_be_bytes().to_vec());
    assert_eq!((-1i128).to_bytes(ByteEndian::Little), vec![0xFF; 16]);
    assert_eq!(i128::MAX.to_bytes(ByteEndian::Little), i128::MAX.to_le_bytes().to_vec());
}

#[test]
fn signed_scalars_come_back() {
    for value in [i8::MIN, -1, 0, 1, i8::MAX] {
        let bytes = value.to_bytes(ByteEndian::Big);
        assert_eq!(i8::from_bytes(&bytes, ByteEndian::Big), Ok(value));
    }
    for value in [i16::MIN, -300, -1, 0, 1, 300, i16::MAX] {
        let bytes = value.to_bytes(ByteEndian::Big);
        assert_eq!(i16::from_bytes(&bytes, ByteEndian::Big), Ok(value));
    }
    for value in [i32::MIN, -70000, -1, 0, 1, 70000, i32::MAX] {
        let bytes = value.to_bytes(ByteEndian::Little);
        assert_eq!(i32::from_bytes(&bytes, ByteEndian::Little), Ok(value));
    }
    for value in [i64::MIN, -1, 0, 1, i64::MAX] {
        let bytes = value.to_bytes(ByteEndian::Little);
        assert_eq!(i64::from_bytes(&bytes, ByteEndian::Little), Ok(value));
    }
    for value in [i128::MIN, -1, 0, 1, i128::MAX] {
        let bytes = value.to_bytes(ByteEndian::Big);
        assert_eq!(i128::from_bytes(&bytes, ByteEndian::Big), Ok(value));
    }
}

#[test]
fn word_sized_scalars_travel_as_eight_bytes() {
    assert_eq!(5usize.to_bytes(ByteEndian::Little), vec![5, 0, 0, 0, 0, 0, 0, 0]);
    assert_eq!(5usize.to_bytes(ByteEndian::Big), vec![0, 0, 0, 0, 0, 0, 0, 5]);
    assert_eq!((-1isize).to_bytes(ByteEndian::Big), vec![0xFF; 8]);
    assert_eq!((-2isize).to_bytes(ByteEndian::Little), vec![0xFE, 0xFF, 0xFF, 0xFF, 0xFF, 0xFF, 0xFF, 0xFF]);
    for value in [0usize, 1, 1000, usize::MAX] {
        let bytes = value.to_bytes(ByteEndian::Big);
        assert_eq!(usize::from_bytes(&bytes, ByteEndian::Big), Ok(value));
    }
    for value in [isize::MIN, -1000, -1, 0, 1, 1000, isize::MAX] {
        let bytes = value.to_bytes(ByteEndian::Little);
        assert_eq!(isize::from_bytes(&bytes, ByteEndian::Little), Ok(value));
    }
}

#[test]
fn booleans() {
    assert_eq!(true.to_bytes(ByteEndian::Little), vec![1]);
    assert_eq!(false.to_bytes(ByteEndian::Big), vec![0]);
    assert_eq!(bool::from_bytes(&[0], ByteEndian::Little), Ok(false));
    assert_eq!(bool::from_bytes(&[1], ByteEndian::Little), Ok(true));
    assert_eq!(bool::from_bytes(&[2], ByteEndian::Big), Ok(true));
    assert_eq!(bool::from_bytes(&[255], ByteEndian::Big), Ok(true));
    assert_eq!(
        bool::from_bytes(&[], ByteEndian::Big),
        Err(DecoderError::NotEnoughBytes { type_label: "u8".to_string(), index: 0 })
    );
}

#[test]
fn single_bytes_ignore_the_byte_order() {
    for value in [0u8, 1, 127, 128, 255] {
        let bytes = value.to_bytes(ByteEndian::Little);
        assert_eq!(bytes, value.to_bytes(ByteEndian::Big));
        assert_eq!(u8::from_bytes(&bytes, ByteEndian::Big), Ok(value));
        assert_eq!(u8::from_bytes(&bytes, ByteEndian::Little), Ok(value));
    }
    for value in [i8::MIN, -1, 0, 1, i8::MAX] {
        let bytes = value.to_bytes(ByteEndian::Big);
        assert_eq!(bytes, value.to_bytes(ByteEndian::Little));
        assert_eq!(i8::from_bytes(&bytes, ByteEndian::Little), Ok(value));
    }
    for value in [false, true] {
        let bytes = value.to_bytes(ByteEndian::Big);
        assert_eq!(bool::from_bytes(&bytes, ByteEndian::Little), Ok(value));
    }
}

#[test]
fn the_other_byte_order_reverses_the_digits() {
    let bytes = 1u16.to_bytes(ByteEndian::Little);
    assert_eq!(u16::from_bytes(&bytes, ByteEndian::Big), Ok(256));
    let bytes = 0x0102_0304u32.to_bytes(ByteEndian::Big);
    assert_eq!(u32::from_bytes(&bytes, ByteEndian::Little), Ok(0x0403_0201));
    // digits that read the same from both ends come back unchanged
    let bytes = 0x0102_0201u32.to_bytes(ByteEndian::Big);
    assert_eq!(u32::from_bytes(&bytes, ByteEndian::Little), Ok(0x0102_0201));
    let bytes = 1i16.to_bytes(ByteEndian::Big);
    assert_eq!(i16::from_bytes(&bytes, ByteEndian::Little), Ok(256));
    let bytes = 0x00FFu16.to_bytes(ByteEndian::Big);
    assert_eq!(i16::from_bytes(&bytes, ByteEndian::Little), Ok(-256));
}

#[test]
fn endian_value_arrays() {
    assert_eq!(0x0102u16.to_bytes_le(), [2, 1]);
    assert_eq!(0x0102u16.to_bytes_be(), [1, 2]);
    assert_eq!(0x0102u16.to_bytes_of(ByteEndian::Little), [2, 1]);
    assert_eq!(0x0102u16.to_bytes_of(ByteEndian::Big), [1, 2]);
    assert_eq!(u16::from_bytes_le([2, 1]), 0x0102);
    assert_eq!(u16::from_bytes_be([2, 1]), 0x0201);
    assert_eq!(u16::from_bytes_of(ByteEndian::Little, [2, 1]), 0x0102);
    assert_eq!(u16::from_bytes_of(ByteEndian::Big, [2, 1]), 0x0201);
    assert_eq!((-2i32).to_bytes_be(), [0xFF, 0xFF, 0xFF, 0xFE]);
    assert_eq!(i32::from_bytes_be([0xFF, 0xFF, 0xFF, 0xFE]), -2);
    assert_eq!(i32::from_bytes_le([0xFE, 0xFF, 0xFF, 0xFF]), -2);
    assert_eq!(7usize.to_bytes_le(), [7, 0, 0, 0, 0, 0, 0, 0]);
    assert_eq!(usize::from_bytes_be([0, 0, 0, 0, 0, 0, 1, 0]), 256);
    assert_eq!((-1isize).to_bytes_le(), [0xFF; 8]);
    assert_eq!(isize::from_bytes_le([0xFF; 8]), -1);
    assert_eq!(u8::from_bytes_le([9]), 9);
    assert_eq!(i8::from_bytes_be([0x80]), i8::MIN);
    assert_eq!(u64::from_bytes_le(77u64.to_le_bytes()), 77);
    assert_eq!(i64::from_bytes_be((-77i64).to_be_bytes()), -77);
    assert_eq!(u128::from_bytes_be(u128::MAX.to_be_bytes()), u128::MAX);
    assert_eq!(i128::from_bytes_le(i128::MIN.to_le_bytes()), i128::MIN);
}

#[test]
fn digits_split_and_join() {
    assert_eq!(split::<4>(0x0A0B_0C0D, ByteEndian::Little), [0x0D, 0x0C, 0x0B, 0x0A]);
    assert_eq!(split::<4>(0x0A0B_0C0D, ByteEndian::Big), [0x0A, 0x0B, 0x0C, 0x0D]);
    // digits beyond the width fall away
    assert_eq!(split::<2>(0x0A0B_0C0D, ByteEndian::Big), [0x0C, 0x0D]);
    assert_eq!(split::<0>(5, ByteEndian::Big), [0u8; 0]);
    assert_eq!(join(&[0x0D, 0x0C, 0x0B, 0x0A], ByteEndian::Little), 0x0A0B_0C0D);
    assert_eq!(join(&[0x0D, 0x0C, 0x0B, 0x0A], ByteEndian::Big), 0x0D0C_0B0A);
    assert_eq!(join(&[0xFF; 16], ByteEndian::Big), u128::MAX);
    assert_eq!(join(&[0u8; 0], ByteEndian::Little), 0);
}

#[test]
fn native_is_one_of_the_two() {
    let native = ByteEndian::native();
    assert!(native.is_native());
    assert!(native.is_native_on(native));
    let other = match native {
        ByteEndian::Big => ByteEndian::Little,
        ByteEndian::Little => ByteEndian::Big,
    };
    assert!(!other.is_native());
    assert!(!other.is_native_on(native));
    assert_eq!(ByteEndian::Little.is_native(), 1u16.to_ne_bytes() == [1, 0]);
    assert_eq!(ByteEndian::Big.is_native(), 1u16.to_ne_bytes() == [0, 1]);
    // scalars in the native order lie on the wire as they lie in memory
    assert_eq!(0x0102_0304u32.to_bytes(native), 0x0102_0304u32.to_ne_bytes().to_vec());
}

#[test]
fn encoder_appends_in_program_order() {
    let mut encoder = ByteEncoder::new(ByteEndian::Big);
    assert!(encoder.bytes().is_empty());
    encoder.encode_u8(1);
    encoder.encode_u16(2);
    encoder.encode_u32(3);
    encoder.encode_bool(true);
    encoder.encode_usize(4);
    encoder.encode_i8(-1);
    encoder.write::<u16, 2>(0x0506);
    assert_eq!(
        encoder.bytes(),
        &vec![1, 0, 2, 0, 0, 0, 3, 1, 0, 0, 0, 0, 0, 0, 0, 4, 0xFF, 5, 6]
    );
    assert_eq!(encoder.into_bytes().len(), 19);
}

#[test]
fn encoder_writes_every_scalar() {
    let mut encoder = ByteEncoder::new(ByteEndian::Little);
    encoder.encode_u64(1);
    encoder.encode_u128(2);
    encoder.encode_i16(-2);
    encoder.encode_i32(-3);
    encoder.encode_i64(-4);
    encoder.encode_i128(-5);
    encoder.encode_isize(-6);
    let mut expected = Vec::new();
    expected.extend_from_slice(&1u64.to_le_bytes());
    expected.extend_from_slice(&2u128.to_le_bytes());
    expected.extend_from_slice(&(-2i16).to_le_bytes());
    expected.extend_from_slice(&(-3i32).to_le_bytes());
    expected.extend_from_slice(&(-4i64).to_le_bytes());
    expected.extend_from_slice(&(-5i128).to_le_bytes());
    expected.extend_from_slice(&(-6i64).to_le_bytes());
    assert_eq!(encoder.bytes(), &expected);

    let mut decoder = ByteDecoder::new(&expected, ByteEndian::Little);
    assert_eq!(decoder.decode_u64(), Ok(1));
    assert_eq!(decoder.decode_u128(), Ok(2));
    assert_eq!(decoder.decode_i16(), Ok(-2));
    assert_eq!(decoder.decode_i32(), Ok(-3));
    assert_eq!(decoder.decode_i64(), Ok(-4));
    assert_eq!(decoder.decode_i128(), Ok(-5));
    assert_eq!(decoder.decode_isize(), Ok(-6));
    assert_eq!(decoder.remaining(), 0);
}

#[test]
fn tracker_counts_what_was_added() {
    let mut bytes = vec![1u8, 2, 3];
    let tracker = ByteTracker::begin(&bytes);
    assert_eq!(tracker.start, 3);
    assert_eq!(tracker.end(&bytes), 0);
    bytes.extend_from_slice(&[4, 5]);
    assert_eq!(tracker.end(&bytes), 2);
}

#[test]
fn decoder_advances_by_the_width() {
    let bytes = [1u8, 0, 2, 0, 0, 0, 3, 9];
    let mut decoder = ByteDecoder::new(&bytes, ByteEndian::Big);
    assert_eq!(decoder.bytes(), &bytes);
    assert_eq!(decoder.remaining(), 8);
    assert_eq!(decoder.decode_u8(), Ok(1));
    assert_eq!(decoder.remaining(), 7);
    assert_eq!(decoder.decode_u16(), Ok(2));
    assert_eq!(decoder.remaining(), 5);
    assert_eq!(decoder.decode_u32(), Ok(3));
    assert_eq!(decoder.remaining(), 1);
    // a read that fails leaves the cursor where it was
    assert_eq!(
        decoder.decode_u16(),
        Err(DecoderError::NotEnoughBytes { type_label: "u16".to_string(), index: 7 })
    );
    assert_eq!(decoder.remaining(), 1);
    assert_eq!(decoder.decode_bool(), Ok(true));
    assert_eq!(decoder.remaining(), 0);
    assert_eq!(
        decoder.decode_u8(),
        Err(DecoderError::NotEnoughBytes { type_label: "u8".to_string(), index: 8 })
    );
}

#[test]
fn read_bytes_takes_or_refuses() {
    let bytes = [1u8, 2, 3, 4, 5];
    let mut decoder = ByteDecoder::new(&bytes, ByteEndian::Little);
    assert_eq!(decoder.read_bytes::<2>("pair"), Ok([1, 2]));
    assert_eq!(decoder.read_bytes::<0>("none"), Ok([]));
    assert_eq!(
        decoder.read_bytes::<4>("quad"),
        Err(DecoderError::NotEnoughBytes { type_label: "quad".to_string(), index: 2 })
    );
    assert_eq!(decoder.read_bytes::<3>("three"), Ok([3, 4, 5]));
    assert_eq!(
        decoder.read_bytes::<1>("one"),
        Err(DecoderError::NotEnoughBytes { type_label: "one".to_string(), index: 5 })
    );
}

#[test]
fn word_sized_scalars_are_named_by_their_wire_type() {
    assert_eq!(
        usize::from_bytes(&[0; 7], ByteEndian::Big),
        Err(DecoderError::NotEnoughBytes { type_label: "u64".to_string(), index: 0 })
    );
    assert_eq!(
        isize::from_bytes(&[0; 7], ByteEndian::Big),
        Err(DecoderError::NotEnoughBytes { type_label: "i64".to_string(), index: 0 })
    );
    assert_eq!(
        u128::from_bytes(&[0; 15], ByteEndian::Big),
        Err(DecoderError::NotEnoughBytes { type_label: "u128".to_string(), index: 0 })
    );
    assert_eq!(
        i128::from_bytes(&[0; 15], ByteEndian::Little),
        Err(DecoderError::NotEnoughBytes { type_label: "i128".to_string(), index: 0 })
    );
}

#[test]
fn floats_travel_as_their_bits() {
    for value in [0.0f32, -0.0, 1.5, -2.25, f32::MAX, f32::MIN_POSITIVE, f32::INFINITY] {
        assert_eq!(value.to_bits().to_bytes(ByteEndian::Little), value.to_le_bytes().to_vec());
        assert_eq!(value.to_bits().to_bytes(ByteEndian::Big), value.to_be_bytes().to_vec());
        let bytes = value.to_bits().to_bytes(ByteEndian::Big);
        let back = u32::from_bytes(&bytes, ByteEndian::Big).map(f32::from_bits);
        assert_eq!(back.map(f32::to_bits), Ok(value.to_bits()));
    }
    for value in [0.0f64, 1.5, -2.25, f64::MAX, f64::EPSILON, f64::NEG_INFINITY] {
        assert_eq!(value.to_bits().to_bytes(ByteEndian::Little), value.to_le_bytes().to_vec());
        assert_eq!(value.to_bits().to_bytes(ByteEndian::Big), value.to_be_bytes().to_vec());
        let bytes = value.to_bits().to_bytes(ByteEndian::Little);
        let back = u64::from_bytes(&bytes, ByteEndian::Little).map(f64::from_bits);
        assert_eq!(back, Ok(value));
    }
    let bytes = f64::NAN.to_bits().to_bytes(ByteEndian::Big);
    assert!(u64::from_bytes(&bytes, ByteEndian::Big).map(f64::from_bits).unwrap().is_nan());
}

#[test]
fn the_order_is_read_from_the_probe() {
    assert_eq!(ByteEndian::order_in([1, 0]), ByteEndian::Little);
    assert_eq!(ByteEndian::order_in([0, 1]), ByteEndian::Big);
    assert_eq!(ByteEndian::order_in(1u16.to_le_bytes()), ByteEndian::Little);
    assert_eq!(ByteEndian::order_in(1u16.to_be_bytes()), ByteEndian::Big);
    // the probe is the number one in the order that is read from it
    for probe in [[1u8, 0u8], [0u8, 1u8]] {
        assert_eq!(split::<2>(1, ByteEndian::order_in(probe)), probe);
    }
    assert_eq!(ByteEndian::order_in(1u16.to_ne_bytes()), ByteEndian::native());
    // whatever does not start with a one is taken for big
    assert_eq!(ByteEndian::order_in([7, 7]), ByteEndian::Big);
}
