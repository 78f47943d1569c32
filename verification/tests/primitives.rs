use locres::bytes::{read_bytes, read_i32_le, read_i64_le, read_string, read_u32_le, read_u64_le};
use locres::text::trim_end_nuls;
use locres::{Error, Reader};

fn string_field(len: i32, payload: &[u8]) -> Vec<u8> {
    let mut buf = Vec::new();
    buf.extend_from_slice(&len.to_le_bytes());
    buf.extend_from_slice(payload);
    buf
}

#[test]
fn reader_starts_at_zero_and_seeks_anywhere() {
    let data = [1u8, 2, 3];
    let mut reader = Reader::new(&data);
    assert_eq!(reader.position(), 0);
    reader.seek(2);
    assert_eq!(reader.position(), 2);
    reader.seek(1000);
    assert_eq!(reader.position(), 1000);
    assert_eq!(reader.take(1).err(), Some(Error::Io));
    assert_eq!(reader.position(), 1000);
    reader.rewind();
    assert_eq!(reader.position(), 0);
    assert_eq!(reader.data, &data[..]);
}

#[test]
fn take_hands_out_the_next_bytes() {
    let data = [10u8, 20, 30, 40, 50];
    let mut reader = Reader::new(&data);
    assert_eq!(reader.take(2).unwrap(), &[10u8, 20][..]);
    assert_eq!(reader.position(), 2);
    assert_eq!(reader.take(0).unwrap(), &[0u8; 0][..]);
    assert_eq!(reader.position(), 2);
    assert_eq!(reader.take(3).unwrap(), &[30u8, 40, 50][..]);
    assert_eq!(reader.position(), 5);
    assert_eq!(reader.take(0).unwrap(), &[0u8; 0][..]);
}

#[test]
fn take_past_the_end_fails_and_stays() {
    let data = [10u8, 20, 30];
    let mut reader = Reader::new(&data);
    reader.seek(1);
    assert_eq!(reader.take(3).err(), Some(Error::Io));
    assert_eq!(reader.position(), 1);
    assert_eq!(reader.take(u64::MAX).err(), Some(Error::Io));
    assert_eq!(reader.position(), 1);
    reader.seek(u64::MAX);
    assert_eq!(reader.take(1).err(), Some(Error::Io));
    assert_eq!(reader.position(), u64::MAX);
}

#[test]
fn reading_no_bytes_succeeds_anywhere() {
    let data = [10u8, 20, 30];
    let mut reader = Reader::new(&data);
    reader.seek(3);
    assert_eq!(reader.take(0).unwrap(), &[0u8; 0][..]);
    reader.seek(4);
    assert_eq!(reader.take(0).unwrap(), &[0u8; 0][..]);
    assert_eq!(reader.position(), 4);
    reader.seek(u64::MAX);
    assert_eq!(reader.take(0).unwrap(), &[0u8; 0][..]);
    assert_eq!(reader.position(), u64::MAX);
    let none: [u8; 0] = read_bytes::<0>(&mut reader).unwrap();
    assert_eq!(none, []);
}

#[test]
fn read_bytes_fills_a_fixed_buffer() {
    let data = [0xAAu8, 0xBB, 0xCC, 0xDD, 0xEE];
    let mut reader = Reader::new(&data);
    let first: [u8; 2] = read_bytes::<2>(&mut reader).unwrap();
    assert_eq!(first, [0xAA, 0xBB]);
    let rest: [u8; 3] = read_bytes::<3>(&mut reader).unwrap();
    assert_eq!(rest, [0xCC, 0xDD, 0xEE]);
    let none: [u8; 0] = read_bytes::<0>(&mut reader).unwrap();
    assert_eq!(none, []);
    assert_eq!(read_bytes::<1>(&mut reader).err(), Some(Error::Io));
}

#[test]
fn read_u32_le_is_little_endian() {
    let data = [0x78u8, 0x56, 0x34, 0x12, 0xFF, 0xFF, 0xFF, 0xFF];
    let mut reader = Reader::new(&data);
    assert_eq!(read_u32_le(&mut reader).unwrap(), 0x12345678);
    assert_eq!(reader.position(), 4);
    assert_eq!(read_u32_le(&mut reader).unwrap(), u32::MAX);
    assert_eq!(reader.position(), 8);
    assert_eq!(read_u32_le(&mut reader).err(), Some(Error::Io));
}

#[test]
fn read_i32_le_is_twos_complement() {
    let mut data = Vec::new();
    for v in [0i32, 1, -1, -4, i32::MAX, i32::MIN, 0x12345678, -0x12345678] {
        data.extend_from_slice(&v.to_le_bytes());
    }
    let mut reader = Reader::new(&data);
    for v in [0i32, 1, -1, -4, i32::MAX, i32::MIN, 0x12345678, -0x12345678] {
        assert_eq!(read_i32_le(&mut reader).unwrap(), v);
    }
    assert_eq!(read_i32_le(&mut reader).err(), Some(Error::Io));
    let explicit = [0xFCu8, 0xFF, 0xFF, 0xFF];
    assert_eq!(read_i32_le(&mut Reader::new(&explicit)).unwrap(), -4);
}

#[test]
fn read_u64_le_is_little_endian() {
    let data = [0xEFu8, 0xCD, 0xAB, 0x89, 0x67, 0x45, 0x23, 0x01];
    let mut reader = Reader::new(&data);
    assert_eq!(read_u64_le(&mut reader).unwrap(), 0x0123456789ABCDEF);
    assert_eq!(reader.position(), 8);
    let all = [0xFFu8; 8];
    assert_eq!(read_u64_le(&mut Reader::new(&all)).unwrap(), u64::MAX);
    assert_eq!(read_u64_le(&mut Reader::new(&all[..7])).err(), Some(Error::Io));
}

#[test]
fn read_i64_le_is_twos_complement() {
    let mut data = Vec::new();
    for v in [0i64, -1, i64::MAX, i64::MIN, 0x0123456789ABCDEF, -0x0123456789ABCDEF] {
        data.extend_from_slice(&v.to_le_bytes());
    }
    let mut reader = Reader::new(&data);
    for v in [0i64, -1, i64::MAX, i64::MIN, 0x0123456789ABCDEF, -0x0123456789ABCDEF] {
        assert_eq!(read_i64_le(&mut reader).unwrap(), v);
    }
    assert_eq!(read_i64_le(&mut reader).err(), Some(Error::Io));
}

#[test]
fn a_short_integer_is_an_io_error() {
    let data = [1u8, 2, 3];
    assert_eq!(read_u32_le(&mut Reader::new(&data)).err(), Some(Error::Io));
    assert_eq!(read_i32_le(&mut Reader::new(&data)).err(), Some(Error::Io));
    assert_eq!(read_u64_le(&mut Reader::new(&data)).err(), Some(Error::Io));
    assert_eq!(read_i64_le(&mut Reader::new(&data)).err(), Some(Error::Io));
}

#[test]
fn string_with_length_zero_is_empty() {
    let data = string_field(0, b"rest");
    let mut reader = Reader::new(&data);
    assert_eq!(read_string(&mut reader).unwrap(), "");
    assert_eq!(reader.position(), 4);
}

#[test]
fn string_with_positive_length_is_strict_utf8() {
    let text = "Grüße, 世界";
    let data = string_field(text.len() as i32, text.as_bytes());
    let mut reader = Reader::new(&data);
    assert_eq!(read_string(&mut reader).unwrap(), text);
    assert_eq!(reader.position(), data.len() as u64);
}

#[test]
fn string_with_invalid_utf8_fails_on_the_strict_path() {
    let data = string_field(3, &[b'a', 0xFF, b'b']);
    assert_eq!(read_string(&mut Reader::new(&data)).err(), Some(Error::StringParsingFailed));
    let truncated_sequence = string_field(2, &[0xE4, 0xB8]);
    assert_eq!(
        read_string(&mut Reader::new(&truncated_sequence)).err(),
        Some(Error::StringParsingFailed)
    );
}

#[test]
fn string_with_negative_length_reads_twice_as_many_bytes() {
    let data = string_field(-2, b"abcdXY");
    let mut reader = Reader::new(&data);
    assert_eq!(read_string(&mut reader).unwrap(), "abcd");
    assert_eq!(reader.position(), 8);
}

#[test]
fn string_with_negative_length_tolerates_invalid_bytes() {
    let payload = [b'H', b'i', 0xFF, 0xFE, 0xC0, b'!', 0x80, b'?'];
    let data = string_field(-4, &payload);
    let mut reader = Reader::new(&data);
    let text = read_string(&mut reader).unwrap();
    assert_eq!(text, "Hi\u{FFFD}\u{FFFD}\u{FFFD}!\u{FFFD}?");
    assert_eq!(reader.position(), 12);
}

#[test]
fn string_with_negative_length_keeps_inner_nuls() {
    let data = string_field(-2, &[b'A', 0, b'B', 0]);
    assert_eq!(read_string(&mut Reader::new(&data)).unwrap(), "A\0B");
}

#[test]
fn trailing_nuls_are_trimmed() {
    let data = string_field(5, b"OK\0\0\0");
    let mut reader = Reader::new(&data);
    assert_eq!(read_string(&mut reader).unwrap(), "OK");
    assert_eq!(reader.position(), 9);
    let only_nuls = string_field(3, &[0, 0, 0]);
    assert_eq!(read_string(&mut Reader::new(&only_nuls)).unwrap(), "");
    let inner = string_field(4, b"a\0b\0");
    assert_eq!(read_string(&mut Reader::new(&inner)).unwrap(), "a\0b");
    let lenient = string_field(-2, &[b'x', 0xFF, 0, 0]);
    assert_eq!(read_string(&mut Reader::new(&lenient)).unwrap(), "x\u{FFFD}");
}

#[test]
fn a_short_string_is_an_io_error() {
    assert_eq!(read_string(&mut Reader::new(&[5u8, 0])).err(), Some(Error::Io));
    let short = string_field(5, b"abcd");
    assert_eq!(read_string(&mut Reader::new(&short)).err(), Some(Error::Io));
    let short_lenient = string_field(-3, b"abcde");
    assert_eq!(read_string(&mut Reader::new(&short_lenient)).err(), Some(Error::Io));
    let most_negative = string_field(i32::MIN, b"abcd");
    assert_eq!(read_string(&mut Reader::new(&most_negative)).err(), Some(Error::Io));
    let most_positive = string_field(i32::MAX, b"abcd");
    assert_eq!(read_string(&mut Reader::new(&most_positive)).err(), Some(Error::Io));
}

#[test]
fn a_short_string_is_reported_before_its_encoding() {
    let data = string_field(4, &[0xFF, 0xFF]);
    assert_eq!(read_string(&mut Reader::new(&data)).err(), Some(Error::Io));
}

#[test]
fn trim_end_nuls_removes_only_nuls_at_the_end() {
    assert_eq!(trim_end_nuls(""), "");
    assert_eq!(trim_end_nuls("\0"), "");
    assert_eq!(trim_end_nuls("\0\0\0"), "");
    assert_eq!(trim_end_nuls("abc"), "abc");
    assert_eq!(trim_end_nuls("abc\0"), "abc");
    assert_eq!(trim_end_nuls("\0abc\0\0"), "\0abc");
    assert_eq!(trim_end_nuls("a\0b"), "a\0b");
    assert_eq!(trim_end_nuls("世界\0"), "世界");
    assert_eq!(trim_end_nuls("é\0\0"), "é");
    assert_eq!(trim_end_nuls("abc "), "abc ");
}
