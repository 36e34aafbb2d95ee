use binary_serializer::common::{ByteEndian, MapEntry};
use binary_serializer::decoder::{ByteDecoder, DecoderError, DecoderExt, FromBytes};
use binary_serializer::encoder::{ByteEncoder, EncoderExt, ToBytes};
use binary_serializer::maps::{collect_map, entries_of};
use std::collections::HashMap;

#[test]
fn text_is_a_sequence_of_utf16_units() {
    let bytes = "Text".to_bytes(ByteEndian::Little);
    assert_eq!(
        bytes,
        vec![4, 0, 0, 0, 0, 0, 0, 0, b'T', 0, b'e', 0, b'x', 0, b't', 0]
    );
    let bytes = "Text".to_string().to_bytes(ByteEndian::Big);
    assert_eq!(
        bytes,
        vec![0, 0, 0, 0, 0, 0, 0, 4, 0, b'T', 0, b'e', 0, b'x', 0, b't']
    );
    assert_eq!(String::from_bytes(&bytes, ByteEndian::Big), Ok("Text".to_string()));
    assert_eq!("".to_bytes(ByteEndian::Big), vec![0; 8]);
    assert_eq!(String::from_bytes(&[0; 8], ByteEndian::Big), Ok(String::new()));
}

#[test]
fn text_beyond_the_basic_plane_uses_surrogate_pairs() {
    // U+1F600 is the pair D83D DE00; U+00E9 and U+20AC are single units
    let text = "\u{1F600}\u{e9}\u{20AC}";
    let bytes = text.to_bytes(ByteEndian::Big);
    assert_eq!(
        bytes,
        vec![0, 0, 0, 0, 0, 0, 0, 4, 0xD8, 0x3D, 0xDE, 0x00, 0x00, 0xE9, 0x20, 0xAC]
    );
    assert_eq!(String::from_bytes(&bytes, ByteEndian::Big), Ok(text.to_string()));
    let bytes = text.to_bytes(ByteEndian::Little);
    assert_eq!(String::from_bytes(&bytes, ByteEndian::Little), Ok(text.to_string()));
    // the highest and the lowest character of the upper planes
    for text in ["\u{10000}", "\u{10FFFF}", "\u{D7FF}\u{E000}\u{FFFF}"] {
        let bytes = text.to_bytes(ByteEndian::Little);
        assert_eq!(String::from_bytes(&bytes, ByteEndian::Little), Ok(text.to_string()));
    }
}

#[test]
fn ill_formed_utf16_is_refused() {
    // a high surrogate alone
    let lone_high = [0, 0, 0, 0, 0, 0, 0, 1, 0xD8, 0x00];
    assert_eq!(String::from_bytes(&lone_high, ByteEndian::Big), Err(DecoderError::InvalidUTF16));
    // a low surrogate alone
    let lone_low = [0, 0, 0, 0, 0, 0, 0, 1, 0xDC, 0x00];
    assert_eq!(String::from_bytes(&lone_low, ByteEndian::Big), Err(DecoderError::InvalidUTF16));
    // a high surrogate followed by a plain unit
    let broken = [0, 0, 0, 0, 0, 0, 0, 2, 0xD8, 0x00, 0x00, 0x41];
    assert_eq!(String::from_bytes(&broken, ByteEndian::Big), Err(DecoderError::InvalidUTF16));
    // the pair in the wrong order
    let swapped = [0, 0, 0, 0, 0, 0, 0, 2, 0xDE, 0x00, 0xD8, 0x3D];
    assert_eq!(String::from_bytes(&swapped, ByteEndian::Big), Err(DecoderError::InvalidUTF16));
}

#[test]
fn sequences_are_length_prefixed() {
    let source: Vec<u16> = vec![1, 2, 3];
    let bytes = source.to_bytes(ByteEndian::Big);
    assert_eq!(bytes, vec![0, 0, 0, 0, 0, 0, 0, 3, 0, 1, 0, 2, 0, 3]);
    assert_eq!(Vec::<u16>::from_bytes(&bytes, ByteEndian::Big), Ok(source.clone()));
    assert_eq!(source.as_slice().to_bytes(ByteEndian::Big), bytes);
    assert_eq!([1u16, 2, 3].to_bytes(ByteEndian::Big), bytes);
    let empty: Vec<u64> = vec![];
    assert_eq!(empty.to_bytes(ByteEndian::Little), vec![0; 8]);
    assert_eq!(Vec::<u64>::from_bytes(&[0; 8], ByteEndian::Little), Ok(vec![]));
}

#[test]
fn sequences_nest() {
    let source: Vec<Vec<String>> =
        vec![vec!["a".to_string(), "bc".to_string()], vec![], vec!["".to_string()]];
    for endian in [ByteEndian::Big, ByteEndian::Little] {
        let bytes = source.to_bytes(endian);
        assert_eq!(Vec::<Vec<String>>::from_bytes(&bytes, endian), Ok(source.clone()));
    }
    let bytes = source.to_bytes(ByteEndian::Little);
    assert_eq!(bytes.len(), 8 + (8 + (8 + 2) + (8 + 4)) + 8 + (8 + 8));
}

#[test]
fn what_follows_a_value_is_ignored() {
    let mut bytes = 7u16.to_bytes(ByteEndian::Big);
    bytes.extend_from_slice(&[9, 9, 9]);
    assert_eq!(u16::from_bytes(&bytes, ByteEndian::Big), Ok(7));
}

#[test]
fn tuples_are_their_parts_in_order() {
    let pair = (1u8, 0x0203u16);
    assert_eq!(pair.to_bytes(ByteEndian::Big), vec![1, 2, 3]);
    assert_eq!(<(u8, u16)>::from_bytes(&[1, 2, 3], ByteEndian::Big), Ok(pair));
    let triple = (true, -1i8, "x".to_string());
    let bytes = triple.to_bytes(ByteEndian::Little);
    assert_eq!(bytes, vec![1, 0xFF, 1, 0, 0, 0, 0, 0, 0, 0, b'x', 0]);
    assert_eq!(<(bool, i8, String)>::from_bytes(&bytes, ByteEndian::Little), Ok(triple));
    let nine = (1u8, 2u16, 3u32, 4u64, 5u128, 6usize, -7i8, -8i16, vec![9u8]);
    for endian in [ByteEndian::Big, ByteEndian::Little] {
        let bytes = nine.to_bytes(endian);
        assert_eq!(bytes.len(), 1 + 2 + 4 + 8 + 16 + 8 + 1 + 2 + 9);
        assert_eq!(
            <(u8, u16, u32, u64, u128, usize, i8, i16, Vec<u8>)>::from_bytes(&bytes, endian),
            Ok(nine.clone())
        );
    }
    let four = (1u8, 2u8, 3u8, 4u8);
    assert_eq!(four.to_bytes(ByteEndian::Big), vec![1, 2, 3, 4]);
    let five = (1u8, 2u8, 3u8, 4u8, 5u8);
    assert_eq!(<(u8, u8, u8, u8, u8)>::from_bytes(&[1, 2, 3, 4, 5], ByteEndian::Big), Ok(five));
    let six = (1u8, 2u8, 3u8, 4u8, 5u8, 6u8);
    assert_eq!(six.to_bytes(ByteEndian::Big), vec![1, 2, 3, 4, 5, 6]);
    let seven = (1u8, 2u8, 3u8, 4u8, 5u8, 6u8, 7u8);
    assert_eq!(
        <(u8, u8, u8, u8, u8, u8, u8)>::from_bytes(&[1, 2, 3, 4, 5, 6, 7], ByteEndian::Big),
        Ok(seven)
    );
    let eight = (1u8, 2u8, 3u8, 4u8, 5u8, 6u8, 7u8, 8u8);
    assert_eq!(eight.to_bytes(ByteEndian::Little), vec![1, 2, 3, 4, 5, 6, 7, 8]);
}

#[test]
fn a_tuple_fails_at_its_first_missing_part() {
    assert_eq!(
        <(u16, u32)>::from_bytes(&[0, 1, 2, 3], ByteEndian::Big),
        Err(DecoderError::NotEnoughBytes { type_label: "u32".to_string(), index: 2 })
    );
    assert_eq!(
        <(u16, u32)>::from_bytes(&[0], ByteEndian::Big),
        Err(DecoderError::NotEnoughBytes { type_label: "u16".to_string(), index: 0 })
    );
}

#[test]
fn map_entries_are_key_then_value() {
    let key = 7u8;
    let value = 0x0102u16;
    let entry = MapEntry(&key, &value);
    assert_eq!(entry.to_bytes(ByteEndian::Big), vec![7, 1, 2]);
    let back = MapEntry::<u8, u16>::from_bytes(&[7, 1, 2], ByteEndian::Big).unwrap();
    assert_eq!((back.0, back.1), (7, 0x0102));
}

#[test]
fn maps_come_back() {
    let mut source: HashMap<u32, String> = HashMap::new();
    source.insert(1, "one".to_string());
    source.insert(2, "two".to_string());
    source.insert(30, "thirty".to_string());
    for endian in [ByteEndian::Big, ByteEndian::Little] {
        let mut encoder = ByteEncoder::new(endian);
        encoder.encode_map(&source);
        let bytes = encoder.into_bytes();
        assert_eq!(bytes.len(), 8 + 3 * (4 + 8) + 2 * (3 + 3 + 6));
        let mut decoder = ByteDecoder::new(&bytes, endian);
        assert_eq!(decoder.decode_map::<u32, String>(), Ok(source.clone()));
        assert_eq!(decoder.remaining(), 0);
    }
}

#[test]
fn a_map_of_one_entry_has_known_bytes() {
    let mut source: HashMap<u8, u16> = HashMap::new();
    source.insert(5, 0x0607);
    let mut encoder = ByteEncoder::new(ByteEndian::Big);
    encoder.encode_map(&source);
    assert_eq!(encoder.bytes(), &vec![0, 0, 0, 0, 0, 0, 0, 1, 5, 6, 7]);
    let empty: HashMap<u8, u16> = HashMap::new();
    let mut encoder = ByteEncoder::new(ByteEndian::Big);
    encoder.encode_map(&empty);
    assert_eq!(encoder.bytes(), &vec![0; 8]);
}

#[test]
fn of_two_entries_with_one_key_the_later_stays() {
    // three entries: 1 => 10, 2 => 20, 1 => 11
    let bytes = [0, 0, 0, 0, 0, 0, 0, 3, 1, 10, 2, 20, 1, 11];
    let mut decoder = ByteDecoder::new(&bytes, ByteEndian::Big);
    let map = decoder.decode_map::<u8, u8>().unwrap();
    assert_eq!(map.len(), 2);
    assert_eq!(map[&1], 11);
    assert_eq!(map[&2], 20);
}

#[test]
fn a_map_cut_off_is_reported() {
    let bytes = [0, 0, 0, 0, 0, 0, 0, 2, 1, 10, 2];
    let mut decoder = ByteDecoder::new(&bytes, ByteEndian::Big);
    assert_eq!(
        decoder.decode_map::<u8, u8>(),
        Err(DecoderError::NotEnoughBytes { type_label: "u8".to_string(), index: 11 })
    );
}

#[test]
fn listing_and_rebuilding_a_map() {
    let mut source: HashMap<u8, u8> = HashMap::new();
    for key in 0..20u8 {
        source.insert(key, key.wrapping_mul(3));
    }
    let entries = entries_of(&source);
    assert_eq!(entries.len(), 20);
    let mut seen: Vec<u8> = entries.iter().map(|entry| *entry.0).collect();
    seen.sort();
    assert_eq!(seen, (0..20u8).collect::<Vec<u8>>());
    let owned: Vec<MapEntry<u8, u8>> =
        entries.iter().map(|entry| MapEntry(*entry.0, *entry.1)).collect();
    assert_eq!(collect_map(owned), source);
}

#[test]
fn values_and_slices_through_the_encoder() {
    let mut encoder = ByteEncoder::new(ByteEndian::Big);
    encoder.encode_value(&0x0102u16);
    encoder.encode_slice(&[3u8, 4]);
    encoder.encode_string("A");
    let bytes = encoder.into_bytes();
    assert_eq!(
        bytes,
        vec![1, 2, 0, 0, 0, 0, 0, 0, 0, 2, 3, 4, 0, 0, 0, 0, 0, 0, 0, 1, 0, b'A']
    );
    let mut decoder = ByteDecoder::new(&bytes, ByteEndian::Big);
    assert_eq!(decoder.decode_value::<u16>(), Ok(0x0102));
    assert_eq!(decoder.decode_slice::<u8>(), Ok(vec![3, 4]));
    assert_eq!(decoder.decode_string(), Ok("A".to_string()));
    assert_eq!(decoder.remaining(), 0);
}

#[test]
fn a_count_beyond_the_input_fails_without_allocating() {
    // the count claims 2^56 elements
    let bytes = [1, 0, 0, 0, 0, 0, 0, 0, 7];
    assert_eq!(
        Vec::<u8>::from_bytes(&bytes, ByteEndian::Big),
        Err(DecoderError::NotEnoughBytes { type_label: "u8".to_string(), index: 9 })
    );
}
