use idat_decoder::errors::IdatError;
use idat_decoder::idat::{decode, Channel};

/// Lays out a buffer with the `IDAT` magic, the given version, a directory of
/// one entry per field, and each field's payload at the offset its entry
/// declares.
fn build_buffer(version: i64, fields: &[(u16, Vec<u8>)]) -> Vec<u8> {
    let n = fields.len();
    let mut offset = 16 + 10 * n;
    let mut buf: Vec<u8> = Vec::new();
    buf.extend_from_slice(b"IDAT");
    buf.extend_from_slice(&version.to_le_bytes());
    buf.extend_from_slice(&(n as u32).to_le_bytes());
    for (code, payload) in fields {
        buf.extend_from_slice(&code.to_le_bytes());
        buf.extend_from_slice(&(offset as i64).to_le_bytes());
        offset += payload.len();
    }
    for (_, payload) in fields {
        buf.extend_from_slice(payload);
    }
    buf
}

/// A string payload: a one-byte varint length prefix and the UTF-8 bytes.
fn string_payload(s: &str) -> Vec<u8> {
    let mut v = vec![s.len() as u8];
    v.extend_from_slice(s.as_bytes());
    v
}

/// The nine required fields of a well-formed file holding two beads.
fn standard_fields() -> Vec<(u16, Vec<u8>)> {
    let mut ids: Vec<u8> = Vec::new();
    ids.extend_from_slice(&111u32.to_le_bytes());
    ids.extend_from_slice(&222u32.to_le_bytes());
    let mut means: Vec<u8> = Vec::new();
    means.extend_from_slice(&10u16.to_le_bytes());
    means.extend_from_slice(&20u16.to_le_bytes());
    let mut sds: Vec<u8> = Vec::new();
    sds.extend_from_slice(&1u16.to_le_bytes());
    sds.extend_from_slice(&2u16.to_le_bytes());
    vec![
        (1000, 2u32.to_le_bytes().to_vec()),
        (102, ids),
        (104, means),
        (103, sds),
        (107, vec![5, 6]),
        (402, string_payload("8675")),
        (403, string_payload("BeadChip")),
        (404, string_payload("R01C01")),
        (400, 0u32.to_le_bytes().to_vec()),
    ]
}

#[test]
fn decode_valid_buffer_extracts_every_field() {
    let buf = build_buffer(3, &standard_fields());
    let rec = decode(&buf, Channel::Green).unwrap();
    assert_eq!(rec.bead_count, 2);
    assert_eq!(rec.illumina_id, vec![111, 222]);
    assert_eq!(rec.mean, vec![10, 20]);
    assert_eq!(rec.sd, vec![1, 2]);
    assert_eq!(rec.n_beads, vec![5, 6]);
    assert_eq!(rec.barcode, "8675");
    assert_eq!(rec.chip_type, "BeadChip");
    assert_eq!(rec.position, "R01C01");
    assert_eq!(rec.channel, Channel::Green);
    assert!(rec.is_valid);
}

#[test]
fn decode_is_deterministic() {
    let buf = build_buffer(3, &standard_fields());
    let a = decode(&buf, Channel::Red).unwrap();
    let b = decode(&buf, Channel::Red).unwrap();
    assert_eq!(a.bead_count, b.bead_count);
    assert_eq!(a.illumina_id, b.illumina_id);
    assert_eq!(a.mean, b.mean);
    assert_eq!(a.sd, b.sd);
    assert_eq!(a.n_beads, b.n_beads);
    assert_eq!(a.barcode, b.barcode);
    assert_eq!(a.chip_type, b.chip_type);
    assert_eq!(a.position, b.position);
    assert_eq!(a.channel, b.channel);
    assert_eq!(a.is_valid, b.is_valid);
}

#[test]
fn decode_bead_count_matches_every_array_length() {
    let buf = build_buffer(3, &standard_fields());
    let rec = decode(&buf, Channel::Red).unwrap();
    assert_eq!(rec.illumina_id.len(), rec.bead_count as usize);
    assert_eq!(rec.mean.len(), rec.bead_count as usize);
    assert_eq!(rec.sd.len(), rec.bead_count as usize);
    assert_eq!(rec.n_beads.len(), rec.bead_count as usize);
}

#[test]
fn decode_zero_beads_yields_empty_arrays() {
    // nSNPsRead holds zero: the count is authoritative and every array is
    // empty, and decoding succeeds rather than failing.
    let fields = vec![
        (1000, 0u32.to_le_bytes().to_vec()),
        (102, Vec::new()),
        (104, Vec::new()),
        (103, Vec::new()),
        (107, Vec::new()),
        (402, string_payload("8675")),
        (403, string_payload("BeadChip")),
        (404, string_payload("R01C01")),
        (400, 0u32.to_le_bytes().to_vec()),
    ];
    let buf = build_buffer(3, &fields);
    let rec = decode(&buf, Channel::Red).unwrap();
    assert_eq!(rec.bead_count, 0);
    assert!(rec.illumina_id.is_empty());
    assert!(rec.mean.is_empty());
    assert!(rec.sd.is_empty());
    assert!(rec.n_beads.is_empty());
}

#[test]
fn decode_count_field_alone_is_missing_field() {
    // A directory declaring only nSNPsRead lacks the required array fields:
    // the assembler has no alternate source for them and must fail.
    let fields = vec![(1000, 0u32.to_le_bytes().to_vec())];
    let buf = build_buffer(3, &fields);
    assert_eq!(decode(&buf, Channel::Red), Err(IdatError::MissingField));
}

#[test]
fn decode_rejects_bad_magic() {
    let mut buf = build_buffer(3, &standard_fields());
    buf[0] = b'X';
    assert_eq!(decode(&buf, Channel::Red), Err(IdatError::InvalidMagic));
}

#[test]
fn decode_rejects_garbage_regardless_of_contents() {
    let buf: Vec<u8> = vec![0xAB; 64];
    assert_eq!(decode(&buf, Channel::Red), Err(IdatError::InvalidMagic));
}

#[test]
fn decode_rejects_old_version() {
    let buf = build_buffer(2, &standard_fields());
    assert_eq!(decode(&buf, Channel::Red), Err(IdatError::UnsupportedVersion));
}

#[test]
fn decode_rejects_tiny_buffer() {
    let buf: Vec<u8> = vec![b'I', b'D'];
    assert_eq!(decode(&buf, Channel::Red), Err(IdatError::OutOfBounds));
}

#[test]
fn decode_rejects_truncated_directory() {
    let mut buf = build_buffer(3, &standard_fields());
    buf.truncate(20);
    assert_eq!(decode(&buf, Channel::Red), Err(IdatError::OutOfBounds));
}

#[test]
fn decode_rejects_truncated_payload() {
    let full = build_buffer(3, &standard_fields());
    let mut buf = full.clone();
    buf.truncate(full.len() - 2);
    assert_eq!(decode(&buf, Channel::Red), Err(IdatError::OutOfBounds));
}

#[test]
fn decode_rejects_unknown_field_code_before_any_payload() {
    // The bogus code sits in the directory; no payload follows at all, so the
    // failure can only come from the directory walk itself.
    let n: usize = 2;
    let mut buf: Vec<u8> = Vec::new();
    buf.extend_from_slice(b"IDAT");
    buf.extend_from_slice(&3i64.to_le_bytes());
    buf.extend_from_slice(&(n as u32).to_le_bytes());
    buf.extend_from_slice(&1000u16.to_le_bytes());
    buf.extend_from_slice(&36i64.to_le_bytes());
    buf.extend_from_slice(&9999u16.to_le_bytes());
    buf.extend_from_slice(&36i64.to_le_bytes());
    assert_eq!(decode(&buf, Channel::Red), Err(IdatError::UnknownFieldCode));
}

#[test]
fn decode_missing_barcode_is_missing_field() {
    let fields: Vec<(u16, Vec<u8>)> = standard_fields()
        .into_iter()
        .filter(|(code, _)| *code != 402)
        .collect();
    let buf = build_buffer(3, &fields);
    assert_eq!(decode(&buf, Channel::Red), Err(IdatError::MissingField));
}

#[test]
fn decode_negative_offset_is_out_of_bounds() {
    let mut buf = build_buffer(3, &standard_fields());
    // Overwrite the first entry's offset (bytes 18..26) with -1.
    buf[18..26].copy_from_slice(&(-1i64).to_le_bytes());
    assert_eq!(decode(&buf, Channel::Red), Err(IdatError::OutOfBounds));
}

#[test]
fn decode_duplicate_entry_uses_first_occurrence() {
    // Two nSNPsRead entries with different values: the assembler takes the
    // offset of the first.
    let mut ids: Vec<u8> = Vec::new();
    ids.extend_from_slice(&111u32.to_le_bytes());
    let fields = vec![
        (1000, 1u32.to_le_bytes().to_vec()),
        (1000, 9u32.to_le_bytes().to_vec()),
        (102, ids),
        (104, 10u16.to_le_bytes().to_vec()),
        (103, 1u16.to_le_bytes().to_vec()),
        (107, vec![5]),
        (402, string_payload("8675")),
        (403, string_payload("BeadChip")),
        (404, string_payload("R01C01")),
        (400, 0u32.to_le_bytes().to_vec()),
    ];
    let buf = build_buffer(3, &fields);
    let rec = decode(&buf, Channel::Red).unwrap();
    assert_eq!(rec.bead_count, 1);
    assert_eq!(rec.illumina_id, vec![111]);
}
