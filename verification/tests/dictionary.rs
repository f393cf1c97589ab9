use idat_decoder::errors::IdatError;
use idat_decoder::fields::{code_of, field_of_code, known_codes, known_codes_reverse, FieldKind};
use idat_decoder::source::{check_acquired_bytes, pick_source, SourceKind};

#[test]
fn known_codes_lists_the_whole_dictionary() {
    let codes = known_codes();
    assert_eq!(codes.len(), 19);
    assert_eq!(codes[0], (FieldKind::NSnpsRead, 1000));
    assert!(codes.contains(&(FieldKind::Barcode, 402)));
    assert!(codes.contains(&(FieldKind::IlluminaId, 102)));
    assert!(codes.contains(&(FieldKind::Unknown7, 510)));
}

#[test]
fn known_codes_reverse_flips_every_pair() {
    let codes = known_codes();
    let reversed = known_codes_reverse();
    assert_eq!(codes.len(), reversed.len());
    for (i, (field, code)) in codes.into_iter().enumerate() {
        assert_eq!(reversed[i], (code, field));
    }
}

#[test]
fn field_of_code_inverts_code_of() {
    for (field, code) in known_codes() {
        assert_eq!(code_of(field), code);
        assert_eq!(field_of_code(code), Ok(field));
    }
}

#[test]
fn field_of_code_rejects_unknown_code() {
    assert_eq!(field_of_code(9999), Err(IdatError::UnknownFieldCode));
    assert_eq!(field_of_code(0), Err(IdatError::UnknownFieldCode));
}

#[test]
fn pick_source_prefers_the_plain_file() {
    assert_eq!(pick_source(true, true), Ok(SourceKind::Plain));
    assert_eq!(pick_source(true, false), Ok(SourceKind::Plain));
}

#[test]
fn pick_source_falls_back_to_gzip() {
    assert_eq!(pick_source(false, true), Ok(SourceKind::Gzip));
}

#[test]
fn pick_source_with_neither_file_is_not_found() {
    assert_eq!(pick_source(false, false), Err(IdatError::FileNotFound));
}

#[test]
fn check_acquired_bytes_rejects_empty_input() {
    let empty: Vec<u8> = Vec::new();
    assert_eq!(check_acquired_bytes(&empty), Err(IdatError::EmptyFile));
    let full: Vec<u8> = vec![1];
    assert_eq!(check_acquired_bytes(&full), Ok(()));
}
