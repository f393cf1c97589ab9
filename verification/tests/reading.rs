use idat_decoder::errors::IdatError;
use idat_decoder::fields::FieldKind;
use idat_decoder::reading_function::{
    _read_unknown_bytes, get_index_of_element, get_offset_for_field, read_byte, read_byte_vec,
    read_bytes_to_read, read_int, read_int_vec, read_long, read_magic, read_short, read_short_vec,
    read_string, read_version,
};

#[test]
fn read_byte_reads_and_advances() {
    let buf: Vec<u8> = vec![7, 8, 9];
    let mut head: usize = 1;
    assert_eq!(read_byte(&buf, &mut head), Ok(8));
    assert_eq!(head, 2);
}

#[test]
fn read_byte_past_end_is_out_of_bounds() {
    let buf: Vec<u8> = vec![7];
    let mut head: usize = 1;
    assert_eq!(read_byte(&buf, &mut head), Err(IdatError::OutOfBounds));
    assert_eq!(head, 1);
}

#[test]
fn read_short_is_little_endian() {
    let buf: Vec<u8> = vec![0x34, 0x12];
    let mut head: usize = 0;
    assert_eq!(read_short(&buf, &mut head), Ok(0x1234));
    assert_eq!(head, 2);
}

#[test]
fn read_short_out_of_bounds_leaves_cursor() {
    let buf: Vec<u8> = vec![0x34];
    let mut head: usize = 0;
    assert_eq!(read_short(&buf, &mut head), Err(IdatError::OutOfBounds));
    assert_eq!(head, 0);
}

#[test]
fn read_int_is_little_endian() {
    let buf: Vec<u8> = vec![0x78, 0x56, 0x34, 0x12];
    let mut head: usize = 0;
    assert_eq!(read_int(&buf, &mut head), Ok(0x12345678));
    assert_eq!(head, 4);
}

#[test]
fn read_long_reads_small_value() {
    let buf: Vec<u8> = vec![3, 0, 0, 0, 0, 0, 0, 0];
    let mut head: usize = 0;
    assert_eq!(read_long(&buf, &mut head), Ok(3));
    assert_eq!(head, 8);
}

#[test]
fn read_long_reads_negative_value() {
    let buf: Vec<u8> = vec![0xFF; 8];
    let mut head: usize = 0;
    assert_eq!(read_long(&buf, &mut head), Ok(-1));
}

#[test]
fn read_version_reads_long_at_cursor() {
    let mut buf: Vec<u8> = vec![0, 0, 0, 0];
    buf.extend_from_slice(&3i64.to_le_bytes());
    let mut head: usize = 4;
    assert_eq!(read_version(&buf, &mut head), Ok(3));
    assert_eq!(head, 12);
}

#[test]
fn read_int_vec_reads_values_in_file_order() {
    let mut buf: Vec<u8> = Vec::new();
    buf.extend_from_slice(&111u32.to_le_bytes());
    buf.extend_from_slice(&222u32.to_le_bytes());
    let mut head: usize = 0;
    assert_eq!(read_int_vec(&buf, &mut head, 2), Ok(vec![111, 222]));
    assert_eq!(head, 8);
}

#[test]
fn read_int_vec_checks_whole_run_before_reading() {
    let mut buf: Vec<u8> = Vec::new();
    buf.extend_from_slice(&111u32.to_le_bytes());
    buf.extend_from_slice(&222u32.to_le_bytes());
    let mut head: usize = 0;
    assert_eq!(read_int_vec(&buf, &mut head, 3), Err(IdatError::OutOfBounds));
    assert_eq!(head, 0);
}

#[test]
fn read_short_vec_reads_values() {
    let mut buf: Vec<u8> = Vec::new();
    buf.extend_from_slice(&10u16.to_le_bytes());
    buf.extend_from_slice(&20u16.to_le_bytes());
    let mut head: usize = 0;
    assert_eq!(read_short_vec(&buf, &mut head, 2), Ok(vec![10, 20]));
    assert_eq!(head, 4);
}

#[test]
fn read_byte_vec_reads_values() {
    let buf: Vec<u8> = vec![5, 6, 7];
    let mut head: usize = 1;
    assert_eq!(read_byte_vec(&buf, &mut head, 2), Ok(vec![6, 7]));
    assert_eq!(head, 3);
}

#[test]
fn varint_round_trip_boundaries() {
    // The encodings of 0, 1, 127, 128 and 16384: the boundary crossings of
    // the seven-bit continuation scheme, decoded back to the same values.
    let cases: Vec<(Vec<u8>, u64)> = vec![
        (vec![0], 0),
        (vec![1], 1),
        (vec![127], 127),
        (vec![0x80, 0x01], 128),
        (vec![0x80, 0x80, 0x01], 16384),
    ];
    for (bytes, expected) in cases {
        let mut head: usize = 0;
        let expected_len = bytes.len();
        assert_eq!(read_bytes_to_read(&bytes, &mut head), Ok(expected));
        assert_eq!(head, expected_len);
    }
}

#[test]
fn varint_without_terminator_is_out_of_bounds() {
    let buf: Vec<u8> = vec![0x80, 0x80];
    let mut head: usize = 0;
    assert_eq!(read_bytes_to_read(&buf, &mut head), Err(IdatError::OutOfBounds));
    assert_eq!(head, 0);
}

#[test]
fn read_string_decodes_ascii() {
    let buf: Vec<u8> = vec![3, b'a', b'b', b'c', b'z'];
    let mut head: usize = 0;
    assert_eq!(read_string(&buf, &mut head), Ok(String::from("abc")));
    assert_eq!(head, 4);
}

#[test]
fn read_string_decodes_multibyte_utf8() {
    // Two payload bytes decode to the single character they encode.
    let buf: Vec<u8> = vec![2, 0xC3, 0xA9];
    let mut head: usize = 0;
    let s = read_string(&buf, &mut head).unwrap();
    assert_eq!(s, "\u{e9}");
    assert_eq!(s.chars().count(), 1);
    assert_eq!(head, 3);
}

#[test]
fn read_string_rejects_invalid_utf8() {
    let buf: Vec<u8> = vec![2, 0xFF, 0xFE];
    let mut head: usize = 0;
    assert_eq!(read_string(&buf, &mut head), Err(IdatError::InvalidEncoding));
    assert_eq!(head, 0);
}

#[test]
fn read_string_with_truncated_payload_is_out_of_bounds() {
    let buf: Vec<u8> = vec![5, b'a'];
    let mut head: usize = 0;
    assert_eq!(read_string(&buf, &mut head), Err(IdatError::OutOfBounds));
    assert_eq!(head, 0);
}

#[test]
fn read_magic_returns_leading_text() {
    let buf: Vec<u8> = vec![b'I', b'D', b'A', b'T', 9, 9];
    let mut head: usize = 0;
    assert_eq!(read_magic(&buf, &mut head), Ok(String::from("IDAT")));
    assert_eq!(head, 4);
}

#[test]
fn read_magic_on_short_buffer_is_out_of_bounds() {
    let buf: Vec<u8> = vec![b'I', b'D'];
    let mut head: usize = 0;
    assert_eq!(read_magic(&buf, &mut head), Err(IdatError::OutOfBounds));
    assert_eq!(head, 0);
}

#[test]
fn read_unknown_bytes_returns_count_and_tag() {
    let buf: Vec<u8> = vec![2, 7, 9, 4];
    let mut head: usize = 0;
    assert_eq!(_read_unknown_bytes(&buf, &mut head), Ok((2, 7)));
    assert_eq!(head, 3);
}

#[test]
fn get_index_of_element_finds_first_occurrence() {
    let v = vec![FieldKind::Mean, FieldKind::Barcode, FieldKind::Barcode];
    assert_eq!(get_index_of_element(&v, FieldKind::Barcode), Ok(1));
}

#[test]
fn get_index_of_element_missing_is_missing_field() {
    let v = vec![FieldKind::Mean];
    assert_eq!(get_index_of_element(&v, FieldKind::Barcode), Err(IdatError::MissingField));
}

#[test]
fn get_offset_for_field_returns_paired_offset() {
    let fields = vec![FieldKind::Mean, FieldKind::Barcode];
    let offsets: Vec<i64> = vec![40, 77];
    assert_eq!(get_offset_for_field(&fields, &offsets, FieldKind::Barcode), Ok(77));
}

#[test]
fn get_offset_for_field_missing_is_missing_field() {
    let fields = vec![FieldKind::Mean];
    let offsets: Vec<i64> = vec![40];
    assert_eq!(
        get_offset_for_field(&fields, &offsets, FieldKind::Barcode),
        Err(IdatError::MissingField)
    );
}

#[test]
fn get_offset_for_field_negative_offset_is_out_of_bounds() {
    let fields = vec![FieldKind::Mean];
    let offsets: Vec<i64> = vec![-8];
    assert_eq!(
        get_offset_for_field(&fields, &offsets, FieldKind::Mean),
        Err(IdatError::OutOfBounds)
    );
}
