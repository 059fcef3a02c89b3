use rdss::{BinaryError, Field};

#[test]
fn write_u8_appends_one_byte() {
    let mut out = vec![9u8];
    rdss::write::u8(&mut out, 0xAB);
    assert_eq!(out, vec![9, 0xAB]);
}

#[test]
fn write_u32_is_little_endian() {
    let mut out = Vec::new();
    rdss::write::u32(&mut out, 0x0102_0304);
    assert_eq!(out, vec![4, 3, 2, 1]);
}

#[test]
fn write_u64_is_little_endian() {
    let mut out = Vec::new();
    rdss::write::u64(&mut out, 0x0102_0304_0506_0708);
    assert_eq!(out, vec![8, 7, 6, 5, 4, 3, 2, 1]);
}

#[test]
fn write_string_prefixes_byte_length() {
    let mut out = Vec::new();
    rdss::write::string(&mut out, "hé");
    assert_eq!(out, vec![3, 0, 0, 0, b'h', 0xC3, 0xA9]);
}

#[test]
fn write_string_raw_has_no_prefix() {
    let mut out = Vec::new();
    rdss::write::string_raw(&mut out, "RASS");
    assert_eq!(out, b"RASS".to_vec());
}

#[test]
fn write_array_prefixes_length() {
    let mut out = Vec::new();
    rdss::write::array(&mut out, &[0xFF, 0x00]);
    assert_eq!(out, vec![2, 0, 0, 0, 0xFF, 0x00]);
}

#[test]
fn write_array_raw_copies_bytes() {
    let mut out = vec![1u8];
    rdss::write::array_raw(&mut out, &[2, 3]);
    assert_eq!(out, vec![1, 2, 3]);
}

#[test]
fn read_integers_advance_cursor() {
    let data = [7u8, 4, 3, 2, 1, 8, 7, 6, 5, 4, 3, 2, 1];
    let mut pos: usize = 0;
    assert_eq!(rdss::read::u8(&data, &mut pos).unwrap(), 7);
    assert_eq!(pos, 1);
    assert_eq!(rdss::read::u32(&data, &mut pos).unwrap(), 0x0102_0304);
    assert_eq!(pos, 5);
    assert_eq!(rdss::read::u64(&data, &mut pos).unwrap(), 0x0102_0304_0506_0708);
    assert_eq!(pos, 13);
}

#[test]
fn read_past_end_fails_and_keeps_cursor() {
    let data = [1u8, 2, 3];
    let mut pos: usize = 1;
    assert_eq!(rdss::read::u32(&data, &mut pos), Err(BinaryError::UnexpectedEndOfInput));
    assert_eq!(pos, 1);
    assert_eq!(rdss::read::u64(&data, &mut pos), Err(BinaryError::UnexpectedEndOfInput));
    let mut end: usize = 3;
    assert_eq!(rdss::read::u8(&data, &mut end), Err(BinaryError::UnexpectedEndOfInput));
    assert_eq!(end, 3);
}

#[test]
fn string_round_trip() {
    let mut out = Vec::new();
    rdss::write::string(&mut out, "line one\nline two ✓");
    out.push(0xEE);
    let mut pos: usize = 0;
    let s = rdss::read::string(&out, &mut pos).unwrap();
    assert_eq!(s, "line one\nline two ✓");
    assert_eq!(pos, out.len() - 1);
}

#[test]
fn string_with_invalid_utf8_fails() {
    let data = [2u8, 0, 0, 0, 0xFF, 0xFE];
    let mut pos: usize = 0;
    assert_eq!(rdss::read::string(&data, &mut pos), Err(BinaryError::InvalidEncoding));
    assert_eq!(pos, 0);
}

#[test]
fn string_shorter_than_its_length_fails() {
    let data = [5u8, 0, 0, 0, b'a', b'b'];
    let mut pos: usize = 0;
    assert_eq!(rdss::read::string(&data, &mut pos), Err(BinaryError::UnexpectedEndOfInput));
    assert_eq!(pos, 0);
}

#[test]
fn string_raw_reads_fixed_width() {
    let data = b"RASSxyz";
    let mut pos: usize = 0;
    assert_eq!(rdss::read::string_raw(data, &mut pos, 4).unwrap(), "RASS");
    assert_eq!(pos, 4);
}

#[test]
fn array_round_trip() {
    let mut out = Vec::new();
    rdss::write::array(&mut out, &[0xFF, 0x00, 0x10]);
    let mut pos: usize = 0;
    assert_eq!(rdss::read::array(&out, &mut pos).unwrap(), vec![0xFF, 0x00, 0x10]);
    assert_eq!(pos, 7);
}

#[test]
fn array_too_short_fails() {
    let data = [4u8, 0, 0, 0, 1];
    let mut pos: usize = 0;
    assert_eq!(rdss::read::array(&data, &mut pos), Err(BinaryError::UnexpectedEndOfInput));
    assert_eq!(pos, 0);
}

#[test]
fn skip_stops_at_end() {
    let data = [0u8; 10];
    let mut pos: usize = 2;
    rdss::read::skip(&data, &mut pos, 5);
    assert_eq!(pos, 7);
    rdss::read::skip(&data, &mut pos, 100);
    assert_eq!(pos, 10);
    rdss::read::skip(&data, &mut pos, u64::MAX);
    assert_eq!(pos, 10);
}

#[test]
fn exact_fills_whole_buffer() {
    let data = [1u8, 2, 3, 4];
    let mut pos: usize = 1;
    let mut buf = [0u8; 2];
    assert_eq!(rdss::read::exact(&data, &mut pos, &mut buf), Ok(()));
    assert_eq!(buf, [2, 3]);
    assert_eq!(pos, 3);
}

#[test]
fn exact_short_read_fails_untouched() {
    let data = [1u8, 2, 3, 4];
    let mut pos: usize = 3;
    let mut buf = [9u8; 2];
    assert_eq!(
        rdss::read::exact(&data, &mut pos, &mut buf),
        Err(BinaryError::UnexpectedEndOfInput)
    );
    assert_eq!(buf, [9, 9]);
    assert_eq!(pos, 3);
}

#[test]
fn field_names_are_distinct() {
    assert_ne!(Field::Magic, Field::Producer);
    assert_ne!(BinaryError::SyntaxError(Field::EntryPath), BinaryError::SyntaxError(Field::EntrySize));
}
