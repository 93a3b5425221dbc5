use squircle::error::MapError;
use squircle::io::{BinaryReader, BinaryWriter, SeekFrom};
use squircle::types::{StoredVec2, StoredVec3};

#[test]
fn reads_little_endian_integers() {
    let mut r = BinaryReader::new(vec![
        0x01, 0x34, 0x12, 0x78, 0x56, 0x34, 0x12, 0x08, 0x07, 0x06, 0x05, 0x04, 0x03, 0x02, 0x01,
    ]);
    assert_eq!(r.read_u8(), Ok(0x01));
    assert_eq!(r.read_u16(), Ok(0x1234));
    assert_eq!(r.read_u32(), Ok(0x1234_5678));
    assert_eq!(r.read_u64(), Ok(0x0102_0304_0506_0708));
    assert_eq!(r.stream_position(), Ok(15));
}

#[test]
fn reading_past_the_end_fails_and_moves_to_the_end() {
    let mut r = BinaryReader::new(vec![1, 2, 3]);
    assert_eq!(r.read_u32(), Err(MapError::UnexpectedEof));
    assert_eq!(r.stream_position(), Ok(3));
    assert_eq!(r.read_u8(), Err(MapError::UnexpectedEof));
}

#[test]
fn a_boolean_is_true_only_for_one() {
    let mut r = BinaryReader::new(vec![1, 0, 2, 0xFF]);
    assert_eq!(r.read_bool(), Ok(true));
    assert_eq!(r.read_bool(), Ok(false));
    assert_eq!(r.read_bool(), Ok(false));
    assert_eq!(r.read_bool(), Ok(false));
}

#[test]
fn reads_length_prefixed_strings() {
    let mut r = BinaryReader::new(vec![3, 0, b'a', b'b', b'c', 2, 0, 0, 0, b'h', b'i']);
    assert_eq!(r.read_string(), Ok(String::from("abc")));
    assert_eq!(r.read_long_string(), Ok(String::from("hi")));
}

#[test]
fn rejects_invalid_utf8() {
    let mut r = BinaryReader::new(vec![2, 0, 0xC3, 0x28]);
    assert_eq!(r.read_string(), Err(MapError::InvalidUtf8));
    assert_eq!(r.stream_position(), Ok(4));
}

#[test]
fn a_string_longer_than_its_data_fails() {
    let mut r = BinaryReader::new(vec![9, 0, b'a']);
    assert_eq!(r.read_string(), Err(MapError::UnexpectedEof));
}

#[test]
fn reads_lines() {
    let mut r = BinaryReader::new(b"ab\ncd".to_vec());
    assert_eq!(r.read_newline_string(), Ok(String::from("ab")));
    assert_eq!(r.read_newline_string(), Ok(String::from("cd")));
    assert_eq!(r.read_newline_string(), Ok(String::new()));
    assert_eq!(r.stream_position(), Ok(5));
}

#[test]
fn reads_digests_and_exact_buffers() {
    let data: Vec<u8> = (0u8..25).collect();
    let mut r = BinaryReader::new(data);
    let digest = r.read_sha1().unwrap();
    assert_eq!(digest[0], 0);
    assert_eq!(digest[19], 19);
    let mut buf = [9u8; 3];
    assert_eq!(r.read_exact(&mut buf), Ok(()));
    assert_eq!(buf, [20, 21, 22]);
    let mut big = [7u8; 5];
    assert_eq!(r.read_exact(&mut big), Err(MapError::UnexpectedEof));
    assert_eq!(big, [7u8; 5]);
}

#[test]
fn reads_stored_positions() {
    let mut r = BinaryReader::new(vec![0, 3, 4, 1, 1, 0, 0, 0, 2, 0, 0, 0, 0, 5, 6, 7]);
    assert_eq!(r.read_vec2(), Ok(StoredVec2::Grid(3, 4)));
    assert_eq!(r.read_vec2(), Ok(StoredVec2::Quantum(1, 2)));
    assert_eq!(r.read_vec3(), Ok(StoredVec3::Grid(5, 6, 7)));
}

#[test]
fn seeks_and_refuses_negative_positions() {
    let mut r = BinaryReader::new(vec![10, 20, 30, 40]);
    assert_eq!(r.seek(SeekFrom::End(-1)), Ok(3));
    assert_eq!(r.read_u8(), Ok(40));
    assert_eq!(r.seek(SeekFrom::Current(-2)), Ok(2));
    assert_eq!(r.read_u8(), Ok(30));
    assert_eq!(r.seek(SeekFrom::Current(-10)), Err(MapError::InvalidSeek));
    assert_eq!(r.stream_position(), Ok(3));
    assert_eq!(r.seek(SeekFrom::Start(100)), Ok(100));
    assert_eq!(r.read_u8(), Err(MapError::UnexpectedEof));
    assert_eq!(r.stream_position(), Ok(4));
}

#[test]
fn writes_little_endian_values() {
    let mut w = BinaryWriter::new(Vec::new());
    w.write_bool(true).unwrap();
    w.write_bool(false).unwrap();
    w.write_u8(7).unwrap();
    w.write_u16(0x1234).unwrap();
    w.write_u32(0x0102_0304).unwrap();
    w.write_u64(1).unwrap();
    w.write_sha1(&[0xAA; 20]).unwrap();
    let out = w.into_inner();
    assert_eq!(&out[0..9], &[1, 0, 7, 0x34, 0x12, 4, 3, 2, 1]);
    assert_eq!(&out[9..17], &[1, 0, 0, 0, 0, 0, 0, 0]);
    assert_eq!(&out[17..], &[0xAA; 20]);
}

#[test]
fn writes_strings_with_their_length() {
    let mut w = BinaryWriter::new(Vec::new());
    w.write_string("hé").unwrap();
    w.write_long_string("x").unwrap();
    assert_eq!(w.into_inner(), vec![3, 0, b'h', 0xC3, 0xA9, 1, 0, 0, 0, b'x']);
}

#[test]
fn a_string_length_wraps_at_sixteen_bits() {
    let long = "a".repeat(65537);
    let mut w = BinaryWriter::new(Vec::new());
    w.write_string(&long).unwrap();
    let out = w.into_inner();
    assert_eq!(out.len(), 65539);
    assert_eq!(&out[0..2], &[1, 0]);
}

#[test]
fn writing_past_the_end_pads_with_zeros_and_overwrites() {
    let mut w = BinaryWriter::new(vec![1, 2, 3]);
    assert_eq!(w.seek(SeekFrom::Start(5)), Ok(5));
    w.write_u8(9).unwrap();
    assert_eq!(w.seek(SeekFrom::Start(1)), Ok(1));
    w.write_u8(8).unwrap();
    assert_eq!(w.stream_position(), Ok(2));
    assert_eq!(w.seek(SeekFrom::End(0)), Ok(6));
    assert_eq!(w.into_inner(), vec![1, 8, 3, 0, 0, 9]);
}

#[test]
fn what_is_written_reads_back() {
    let mut w = BinaryWriter::new(Vec::new());
    w.write_u16(65535).unwrap();
    w.write_u32(123_456).unwrap();
    w.write_u64(u64::MAX).unwrap();
    w.write_string("map name").unwrap();
    w.write_long_string("long name").unwrap();
    w.write_bool(true).unwrap();
    let mut r = BinaryReader::new(w.into_inner());
    assert_eq!(r.read_u16(), Ok(65535));
    assert_eq!(r.read_u32(), Ok(123_456));
    assert_eq!(r.read_u64(), Ok(u64::MAX));
    assert_eq!(r.read_string(), Ok(String::from("map name")));
    assert_eq!(r.read_long_string(), Ok(String::from("long name")));
    assert_eq!(r.read_bool(), Ok(true));
}
