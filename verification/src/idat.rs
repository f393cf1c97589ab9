use vstd::prelude::*;

use crate::errors::IdatError;
use crate::fields::{
    field_of_code, lemma_dictionary_invertible, spec_code_known, spec_code_of, FieldKind,
};
use crate::reading_function::{
    get_offset_for_field, i64_at, read_byte_vec, read_int, read_int_vec, read_long, read_short,
    read_short_vec, read_string, read_version, spec_first_index, string_at, u16_at, u32_at,
};

verus! {

/// One of the two fluorescence channels an array is measured on.
#[derive(Clone, Copy, Debug, PartialEq, Eq, Structural)]
pub enum Channel {
    Red,
    Green,
}

/// The decoded contents of one IDAT file: the four parallel per-bead arrays
/// (row `i` across all four describes the same physical bead) and the scalar
/// chip metadata.
#[derive(Clone, Debug, PartialEq)]
pub struct DecodedRecord {
    /// The authoritative bead count, taken from the `nSNPsRead` field; it
    /// supersedes the field count read from the header.
    pub bead_count: u32,
    pub illumina_id: Vec<u32>,
    pub mean: Vec<u16>,
    pub sd: Vec<u16>,
    pub n_beads: Vec<u8>,
    pub barcode: String,
    pub chip_type: String,
    pub position: String,
    pub channel: Channel,
    /// True only after the magic and version checks have passed; a returned
    /// record always carries it.
    pub is_valid: bool,
}

/// The mathematical shape of a decoded record.
#[verifier::ext_equal]
pub struct RecordModel {
    pub bead_count: u32,
    pub illumina_id: Seq<u32>,
    pub mean: Seq<u16>,
    pub sd: Seq<u16>,
    pub n_beads: Seq<u8>,
    pub barcode: Seq<char>,
    pub chip_type: Seq<char>,
    pub position: Seq<char>,
    pub channel: Channel,
    pub is_valid: bool,
}

impl View for DecodedRecord {
    type V = RecordModel;

    open spec fn view(&self) -> RecordModel {
        RecordModel {
            bead_count: self.bead_count,
            illumina_id: self.illumina_id@,
            mean: self.mean@,
            sd: self.sd@,
            n_beads: self.n_beads@,
            barcode: self.barcode@,
            chip_type: self.chip_type@,
            position: self.position@,
            channel: self.channel,
            is_valid: self.is_valid,
        }
    }
}

// ---------------------------------------------------------------------------
// The file layout: magic, version, field count, then the directory of
// (code, absolute offset) pairs, each entry two bytes of code and eight of
// offset, followed by the field payloads wherever their offsets point.
// ---------------------------------------------------------------------------

/// Whether the buffer opens with the `IDAT` magic bytes.
pub open spec fn magic_ok(b: Seq<u8>) -> bool {
    b.len() >= 4 && b[0] == 73u8 && b[1] == 68u8 && b[2] == 65u8 && b[3] == 84u8
}

/// The eight-byte version number after the magic.
pub open spec fn spec_version(b: Seq<u8>) -> int {
    i64_at(b, 4)
}

/// The four-byte field count after the version.
pub open spec fn spec_field_count(b: Seq<u8>) -> int {
    u32_at(b, 12)
}

/// The numeric code of directory entry `i`.
pub open spec fn spec_entry_code(b: Seq<u8>, i: int) -> int {
    u16_at(b, 16 + 10 * i)
}

/// The absolute offset of directory entry `i`.
pub open spec fn spec_entry_offset(b: Seq<u8>, i: int) -> int {
    i64_at(b, 18 + 10 * i)
}

/// Walks the directory entries from `i` up to `n` in file order: the first
/// entry that does not fit the buffer is `OutOfBounds`, the first code
/// outside the dictionary is `UnknownFieldCode`.
pub open spec fn spec_directory_check(b: Seq<u8>, i: int, n: int) -> Result<(), IdatError>
    decreases n - i,
{
    if i >= n {
        Ok(())
    } else if 26 + 10 * i > b.len() {
        Err(IdatError::OutOfBounds)
    } else if !spec_code_known(spec_entry_code(b, i)) {
        Err(IdatError::UnknownFieldCode)
    } else {
        spec_directory_check(b, i + 1, n)
    }
}

/// The offset of the first directory entry carrying the code of `f`, among
/// entries `i` up to `n`.
pub open spec fn spec_dir_offset(b: Seq<u8>, n: int, f: FieldKind, i: int) -> Option<int>
    decreases n - i,
{
    if i >= n {
        None
    } else if spec_entry_code(b, i) == spec_code_of(f) {
        Some(spec_entry_offset(b, i))
    } else {
        spec_dir_offset(b, n, f, i + 1)
    }
}

/// A four-byte scalar read at an absolute offset.
pub open spec fn spec_u32_at_offset(b: Seq<u8>, off: int) -> Result<int, IdatError> {
    if off < 0 || off + 4 > b.len() {
        Err(IdatError::OutOfBounds)
    } else {
        Ok(u32_at(b, off))
    }
}

/// A required four-byte scalar field: looked up in the directory, then read.
pub open spec fn spec_scalar_field(b: Seq<u8>, n: int, f: FieldKind) -> Result<int, IdatError> {
    match spec_dir_offset(b, n, f, 0) {
        None => Err(IdatError::MissingField),
        Some(off) => spec_u32_at_offset(b, off),
    }
}

/// A required array of `cnt` four-byte values at the field's offset.
pub open spec fn spec_u32_array_field(b: Seq<u8>, n: int, f: FieldKind, cnt: int) -> Result<
    Seq<u32>,
    IdatError,
> {
    match spec_dir_offset(b, n, f, 0) {
        None => Err(IdatError::MissingField),
        Some(off) => if off < 0 || off + 4 * cnt > b.len() {
            Err(IdatError::OutOfBounds)
        } else {
            Ok(Seq::new(cnt as nat, |i: int| u32_at(b, off + 4 * i) as u32))
        },
    }
}

/// A required array of `cnt` two-byte values at the field's offset.
pub open spec fn spec_u16_array_field(b: Seq<u8>, n: int, f: FieldKind, cnt: int) -> Result<
    Seq<u16>,
    IdatError,
> {
    match spec_dir_offset(b, n, f, 0) {
        None => Err(IdatError::MissingField),
        Some(off) => if off < 0 || off + 2 * cnt > b.len() {
            Err(IdatError::OutOfBounds)
        } else {
            Ok(Seq::new(cnt as nat, |i: int| u16_at(b, off + 2 * i) as u16))
        },
    }
}

/// A required array of `cnt` single bytes at the field's offset.
pub open spec fn spec_u8_array_field(b: Seq<u8>, n: int, f: FieldKind, cnt: int) -> Result<
    Seq<u8>,
    IdatError,
> {
    match spec_dir_offset(b, n, f, 0) {
        None => Err(IdatError::MissingField),
        Some(off) => if off < 0 || off + cnt > b.len() {
            Err(IdatError::OutOfBounds)
        } else {
            Ok(b.subrange(off, off + cnt))
        },
    }
}

/// A required length-prefixed string field at the field's offset.
pub open spec fn spec_string_field(b: Seq<u8>, n: int, f: FieldKind) -> Result<
    Seq<char>,
    IdatError,
> {
    match spec_dir_offset(b, n, f, 0) {
        None => Err(IdatError::MissingField),
        Some(off) => string_at(b, off),
    }
}

/// Assembles the record from a checked directory of `n` entries: each
/// required field is looked up and decoded in the assembler's fixed order,
/// and the first failure is the result. The `RedGreen` scalar is read only to
/// validate its offset; any value is accepted.
pub open spec fn spec_assemble(b: Seq<u8>, n: int, channel: Channel) -> Result<
    RecordModel,
    IdatError,
> {
    match spec_scalar_field(b, n, FieldKind::NSnpsRead) {
        Err(e) => Err(e),
        Ok(cnt) => match spec_u32_array_field(b, n, FieldKind::IlluminaId, cnt) {
            Err(e) => Err(e),
            Ok(ids) => match spec_u16_array_field(b, n, FieldKind::Mean, cnt) {
                Err(e) => Err(e),
                Ok(means) => match spec_u16_array_field(b, n, FieldKind::Sd, cnt) {
                    Err(e) => Err(e),
                    Ok(sds) => match spec_u8_array_field(b, n, FieldKind::NBeads, cnt) {
                        Err(e) => Err(e),
                        Ok(counts) => match spec_string_field(b, n, FieldKind::Barcode) {
                            Err(e) => Err(e),
                            Ok(bar) => match spec_string_field(b, n, FieldKind::ChipType) {
                                Err(e) => Err(e),
                                Ok(chip) => match spec_string_field(b, n, FieldKind::MostlyA) {
                                    Err(e) => Err(e),
                                    Ok(pos) => match spec_scalar_field(b, n, FieldKind::RedGreen) {
                                        Err(e) => Err(e),
                                        Ok(_red_green) => Ok(
                                            RecordModel {
                                                bead_count: cnt as u32,
                                                illumina_id: ids,
                                                mean: means,
                                                sd: sds,
                                                n_beads: counts,
                                                barcode: bar,
                                                chip_type: chip,
                                                position: pos,
                                                channel: channel,
                                                is_valid: true,
                                            },
                                        ),
                                    },
                                },
                            },
                        },
                    },
                },
            },
        },
    }
}

/// What decoding a buffer must yield: the record, or the error raised at the
/// first failing step. The magic is checked first, then the version, then the
/// directory entry by entry, then the fields in the assembler's order.
pub open spec fn spec_decode(b: Seq<u8>, channel: Channel) -> Result<RecordModel, IdatError> {
    if b.len() < 4 {
        Err(IdatError::OutOfBounds)
    } else if !magic_ok(b) {
        Err(IdatError::InvalidMagic)
    } else if b.len() < 12 {
        Err(IdatError::OutOfBounds)
    } else if spec_version(b) < 3 {
        Err(IdatError::UnsupportedVersion)
    } else if b.len() < 16 {
        Err(IdatError::OutOfBounds)
    } else {
        let n = spec_field_count(b);
        match spec_directory_check(b, 0, n) {
            Err(e) => Err(e),
            Ok(()) => spec_assemble(b, n, channel),
        }
    }
}

// ---------------------------------------------------------------------------
// Proof helpers connecting the executable directory to the specification.
// ---------------------------------------------------------------------------

/// Directory entry `i` fits the buffer and carries a known code.
pub open spec fn spec_entry_good(b: Seq<u8>, i: int) -> bool {
    26 + 10 * i <= b.len() && spec_code_known(spec_entry_code(b, i))
}

/// Entries already checked good do not change the directory walk's outcome.
proof fn lemma_directory_check_skip(b: Seq<u8>, j: int, i: int, n: int)
    requires
        0 <= j <= i <= n,
        forall|k: int| j <= k < i ==> #[trigger] spec_entry_good(b, k),
    ensures
        spec_directory_check(b, j, n) == spec_directory_check(b, i, n),
    decreases i - j,
{
    if j < i {
        assert(spec_entry_good(b, j));
        lemma_directory_check_skip(b, j + 1, i, n);
    }
}

/// The lookup over the decoded (name, offset) vectors agrees with the lookup
/// over the raw directory bytes.
proof fn lemma_lookup_matches(
    b: Seq<u8>,
    fields: Seq<FieldKind>,
    offsets: Seq<i64>,
    n: int,
    f: FieldKind,
    i: int,
)
    requires
        0 <= i <= n,
        fields.len() == n,
        offsets.len() == n,
        forall|j: int| 0 <= j < n ==> spec_code_of(#[trigger] fields[j]) == spec_entry_code(b, j),
        forall|j: int| 0 <= j < n ==> #[trigger] offsets[j] as int == spec_entry_offset(b, j),
    ensures
        spec_dir_offset(b, n, f, i) == match spec_first_index(fields, f, i) {
            None => None::<int>,
            Some(k) => Some(offsets[k] as int),
        },
    decreases n - i,
{
    if i < n {
        if spec_entry_code(b, i) == spec_code_of(f) {
            lemma_dictionary_invertible(fields[i], f);
        } else {
            assert(fields[i] != f);
            lemma_lookup_matches(b, fields, offsets, n, f, i + 1);
        }
    }
}

// ---------------------------------------------------------------------------
// The decoder.
// ---------------------------------------------------------------------------

/// Decodes one fully materialized IDAT buffer into a record for the given
/// channel: checks the magic and version, reads the field directory, then
/// seeks to each required field's absolute offset and extracts it. The result
/// is exactly what [`spec_decode`] assigns to the buffer; on the first
/// failing step the specific error is returned and nothing is decoded.
#[verifier::rlimit(50)]
pub fn decode(full_binary: &Vec<u8>, channel: Channel) -> (r: Result<DecodedRecord, IdatError>)
    ensures
        match r {
            Ok(rec) => {
                &&& spec_decode(full_binary@, channel) == Ok::<RecordModel, IdatError>(rec@)
                &&& rec.illumina_id@.len() == rec.bead_count as int
                &&& rec.mean@.len() == rec.bead_count as int
                &&& rec.sd@.len() == rec.bead_count as int
                &&& rec.n_beads@.len() == rec.bead_count as int
                &&& rec.channel == channel
                &&& rec.is_valid
            },
            Err(e) => spec_decode(full_binary@, channel) == Err::<RecordModel, IdatError>(e),
        },
{
    let ghost b = full_binary@;
    let len = full_binary.len();
    if len < 4 {
        return Err(IdatError::OutOfBounds);
    }
    if !(full_binary[0] == 73 && full_binary[1] == 68 && full_binary[2] == 65 && full_binary[3]
        == 84) {
        return Err(IdatError::InvalidMagic);
    }
    let mut reader_head: usize = 4;
    let version = match read_version(full_binary, &mut reader_head) {
        Err(_) => {
            return Err(IdatError::OutOfBounds);
        },
        Ok(v) => v,
    };
    if version < 3 {
        return Err(IdatError::UnsupportedVersion);
    }
    let n_fields = match read_int(full_binary, &mut reader_head) {
        Err(_) => {
            return Err(IdatError::OutOfBounds);
        },
        Ok(v) => v,
    };
    let ghost n = n_fields as int;

    // Read the directory: one (code, offset) pair per declared field, in file
    // order; the first truncated entry or unknown code ends the decode.
    let mut code_vector: Vec<FieldKind> = Vec::new();
    let mut offset_vector: Vec<i64> = Vec::new();
    let mut i: u32 = 0;
    while i < n_fields
        invariant
            b == full_binary@,
            len == b.len(),
            n == n_fields as int,
            magic_ok(b),
            len >= 16,
            spec_version(b) >= 3,
            spec_field_count(b) == n,
            i <= n_fields,
            reader_head == 16 + 10 * (i as int),
            code_vector@.len() == i as int,
            offset_vector@.len() == i as int,
            forall|j: int| 0 <= j < i as int ==> #[trigger] spec_entry_good(b, j),
            forall|j: int|
                0 <= j < i as int ==> spec_code_of(#[trigger] code_vector@[j]) == spec_entry_code(
                    b,
                    j,
                ),
            forall|j: int|
                0 <= j < i as int ==> #[trigger] offset_vector@[j] as int == spec_entry_offset(
                    b,
                    j,
                ),
        decreases n_fields - i,
    {
        let code = match read_short(full_binary, &mut reader_head) {
            Err(_) => {
                proof {
                    lemma_directory_check_skip(b, 0, i as int, n);
                    assert(spec_directory_check(b, i as int, n) == Err::<(), IdatError>(
                        IdatError::OutOfBounds,
                    ));
                }
                return Err(IdatError::OutOfBounds);
            },
            Ok(c) => c,
        };
        let offset = match read_long(full_binary, &mut reader_head) {
            Err(_) => {
                proof {
                    lemma_directory_check_skip(b, 0, i as int, n);
                    assert(spec_directory_check(b, i as int, n) == Err::<(), IdatError>(
                        IdatError::OutOfBounds,
                    ));
                }
                return Err(IdatError::OutOfBounds);
            },
            Ok(o) => o,
        };
        let field = match field_of_code(code) {
            Err(_) => {
                proof {
                    lemma_directory_check_skip(b, 0, i as int, n);
                    assert(spec_directory_check(b, i as int, n) == Err::<(), IdatError>(
                        IdatError::UnknownFieldCode,
                    ));
                }
                return Err(IdatError::UnknownFieldCode);
            },
            Ok(f) => f,
        };
        code_vector.push(field);
        offset_vector.push(offset);
        i = i + 1;
    }
    proof {
        lemma_directory_check_skip(b, 0, n, n);
        assert(spec_directory_check(b, 0, n) == Ok::<(), IdatError>(()));
    }

    // The authoritative bead count: the nSNPsRead field supersedes the field
    // count read from the header.
    proof {
        lemma_lookup_matches(b, code_vector@, offset_vector@, n, FieldKind::NSnpsRead, 0);
    }
    let off_nsnps = match get_offset_for_field(&code_vector, &offset_vector, FieldKind::NSnpsRead) {
        Err(e) => {
            proof {
                assert(spec_scalar_field(b, n, FieldKind::NSnpsRead) == Err::<int, IdatError>(e));
            }
            return Err(e);
        },
        Ok(o) => o,
    };
    let mut cur = off_nsnps;
    let bead_count = match read_int(full_binary, &mut cur) {
        Err(e) => {
            proof {
                assert(spec_scalar_field(b, n, FieldKind::NSnpsRead) == Err::<int, IdatError>(e));
            }
            return Err(e);
        },
        Ok(v) => v,
    };
    let ghost cnt = bead_count as int;
    proof {
        assert(spec_scalar_field(b, n, FieldKind::NSnpsRead) == Ok::<int, IdatError>(cnt));
    }

    // The four parallel bead arrays, each bead_count entries long.
    proof {
        lemma_lookup_matches(b, code_vector@, offset_vector@, n, FieldKind::IlluminaId, 0);
    }
    let off_ids = match get_offset_for_field(&code_vector, &offset_vector, FieldKind::IlluminaId) {
        Err(e) => {
            proof {
                assert(spec_u32_array_field(b, n, FieldKind::IlluminaId, cnt) == Err::<
                    Seq<u32>,
                    IdatError,
                >(e));
            }
            return Err(e);
        },
        Ok(o) => o,
    };
    let mut cur = off_ids;
    let illumina_id = match read_int_vec(full_binary, &mut cur, bead_count) {
        Err(e) => {
            proof {
                assert(spec_u32_array_field(b, n, FieldKind::IlluminaId, cnt) == Err::<
                    Seq<u32>,
                    IdatError,
                >(e));
            }
            return Err(e);
        },
        Ok(v) => v,
    };
    proof {
        assert(illumina_id@ =~= Seq::new(cnt as nat, |k: int| u32_at(b, off_ids + 4 * k) as u32));
        assert(spec_u32_array_field(b, n, FieldKind::IlluminaId, cnt) == Ok::<Seq<u32>, IdatError>(
            illumina_id@,
        ));
    }

    proof {
        lemma_lookup_matches(b, code_vector@, offset_vector@, n, FieldKind::Mean, 0);
    }
    let off_mean = match get_offset_for_field(&code_vector, &offset_vector, FieldKind::Mean) {
        Err(e) => {
            proof {
                assert(spec_u16_array_field(b, n, FieldKind::Mean, cnt) == Err::<
                    Seq<u16>,
                    IdatError,
                >(e));
            }
            return Err(e);
        },
        Ok(o) => o,
    };
    let mut cur = off_mean;
    let mean = match read_short_vec(full_binary, &mut cur, bead_count) {
        Err(e) => {
            proof {
                assert(spec_u16_array_field(b, n, FieldKind::Mean, cnt) == Err::<
                    Seq<u16>,
                    IdatError,
                >(e));
            }
            return Err(e);
        },
        Ok(v) => v,
    };
    proof {
        assert(mean@ =~= Seq::new(cnt as nat, |k: int| u16_at(b, off_mean + 2 * k) as u16));
        assert(spec_u16_array_field(b, n, FieldKind::Mean, cnt) == Ok::<Seq<u16>, IdatError>(
            mean@,
        ));
    }

    proof {
        lemma_lookup_matches(b, code_vector@, offset_vector@, n, FieldKind::Sd, 0);
    }
    let off_sd = match get_offset_for_field(&code_vector, &offset_vector, FieldKind::Sd) {
        Err(e) => {
            proof {
                assert(spec_u16_array_field(b, n, FieldKind::Sd, cnt) == Err::<Seq<u16>, IdatError>(
                    e,
                ));
            }
            return Err(e);
        },
        Ok(o) => o,
    };
    let mut cur = off_sd;
    let sd = match read_short_vec(full_binary, &mut cur, bead_count) {
        Err(e) => {
            proof {
                assert(spec_u16_array_field(b, n, FieldKind::Sd, cnt) == Err::<Seq<u16>, IdatError>(
                    e,
                ));
            }
            return Err(e);
        },
        Ok(v) => v,
    };
    proof {
        assert(sd@ =~= Seq::new(cnt as nat, |k: int| u16_at(b, off_sd + 2 * k) as u16));
        assert(spec_u16_array_field(b, n, FieldKind::Sd, cnt) == Ok::<Seq<u16>, IdatError>(sd@));
    }

    proof {
        lemma_lookup_matches(b, code_vector@, offset_vector@, n, FieldKind::NBeads, 0);
    }
    let off_nb = match get_offset_for_field(&code_vector, &offset_vector, FieldKind::NBeads) {
        Err(e) => {
            proof {
                assert(spec_u8_array_field(b, n, FieldKind::NBeads, cnt) == Err::<
                    Seq<u8>,
                    IdatError,
                >(e));
            }
            return Err(e);
        },
        Ok(o) => o,
    };
    let mut cur = off_nb;
    let n_beads = match read_byte_vec(full_binary, &mut cur, bead_count) {
        Err(e) => {
            proof {
                assert(spec_u8_array_field(b, n, FieldKind::NBeads, cnt) == Err::<
                    Seq<u8>,
                    IdatError,
                >(e));
            }
            return Err(e);
        },
        Ok(v) => v,
    };
    proof {
        assert(n_beads@ =~= b.subrange(off_nb as int, off_nb + cnt));
        assert(spec_u8_array_field(b, n, FieldKind::NBeads, cnt) == Ok::<Seq<u8>, IdatError>(
            n_beads@,
        ));
    }

    // The scalar metadata strings.
    proof {
        lemma_lookup_matches(b, code_vector@, offset_vector@, n, FieldKind::Barcode, 0);
    }
    let off_bar = match get_offset_for_field(&code_vector, &offset_vector, FieldKind::Barcode) {
        Err(e) => {
            proof {
                assert(spec_string_field(b, n, FieldKind::Barcode) == Err::<Seq<char>, IdatError>(
                    e,
                ));
            }
            return Err(e);
        },
        Ok(o) => o,
    };
    let mut cur = off_bar;
    let barcode = match read_string(full_binary, &mut cur) {
        Err(e) => {
            proof {
                assert(spec_string_field(b, n, FieldKind::Barcode) == Err::<Seq<char>, IdatError>(
                    e,
                ));
            }
            return Err(e);
        },
        Ok(s) => s,
    };
    proof {
        assert(spec_string_field(b, n, FieldKind::Barcode) == Ok::<Seq<char>, IdatError>(barcode@));
    }

    proof {
        lemma_lookup_matches(b, code_vector@, offset_vector@, n, FieldKind::ChipType, 0);
    }
    let off_chip = match get_offset_for_field(&code_vector, &offset_vector, FieldKind::ChipType) {
        Err(e) => {
            proof {
                assert(spec_string_field(b, n, FieldKind::ChipType) == Err::<Seq<char>, IdatError>(
                    e,
                ));
            }
            return Err(e);
        },
        Ok(o) => o,
    };
    let mut cur = off_chip;
    let chip_type = match read_string(full_binary, &mut cur) {
        Err(e) => {
            proof {
                assert(spec_string_field(b, n, FieldKind::ChipType) == Err::<Seq<char>, IdatError>(
                    e,
                ));
            }
            return Err(e);
        },
        Ok(s) => s,
    };
    proof {
        assert(spec_string_field(b, n, FieldKind::ChipType) == Ok::<Seq<char>, IdatError>(
            chip_type@,
        ));
    }

    proof {
        lemma_lookup_matches(b, code_vector@, offset_vector@, n, FieldKind::MostlyA, 0);
    }
    let off_pos = match get_offset_for_field(&code_vector, &offset_vector, FieldKind::MostlyA) {
        Err(e) => {
            proof {
                assert(spec_string_field(b, n, FieldKind::MostlyA) == Err::<Seq<char>, IdatError>(
                    e,
                ));
            }
            return Err(e);
        },
        Ok(o) => o,
    };
    let mut cur = off_pos;
    let position = match read_string(full_binary, &mut cur) {
        Err(e) => {
            proof {
                assert(spec_string_field(b, n, FieldKind::MostlyA) == Err::<Seq<char>, IdatError>(
                    e,
                ));
            }
            return Err(e);
        },
        Ok(s) => s,
    };
    proof {
        assert(spec_string_field(b, n, FieldKind::MostlyA) == Ok::<Seq<char>, IdatError>(
            position@,
        ));
    }

    // The RedGreen scalar is read only to validate its offset; any value is
    // accepted and none is kept.
    proof {
        lemma_lookup_matches(b, code_vector@, offset_vector@, n, FieldKind::RedGreen, 0);
    }
    let off_rg = match get_offset_for_field(&code_vector, &offset_vector, FieldKind::RedGreen) {
        Err(e) => {
            proof {
                assert(spec_scalar_field(b, n, FieldKind::RedGreen) == Err::<int, IdatError>(e));
            }
            return Err(e);
        },
        Ok(o) => o,
    };
    let mut cur = off_rg;
    let _red_green = match read_int(full_binary, &mut cur) {
        Err(e) => {
            proof {
                assert(spec_scalar_field(b, n, FieldKind::RedGreen) == Err::<int, IdatError>(e));
            }
            return Err(e);
        },
        Ok(v) => v,
    };
    proof {
        assert(spec_scalar_field(b, n, FieldKind::RedGreen) == Ok::<int, IdatError>(
            _red_green as int,
        ));
    }

    // Each array must be exactly bead_count long; a mismatch would mean the
    // record was assembled wrongly and must not be returned.
    let count = bead_count as usize;
    if illumina_id.len() != count || mean.len() != count || sd.len() != count || n_beads.len()
        != count {
        return Err(IdatError::MalformedRecord);
    }

    let rec = DecodedRecord {
        bead_count,
        illumina_id,
        mean,
        sd,
        n_beads,
        barcode,
        chip_type,
        position,
        channel,
        is_valid: true,
    };
    proof {
        assert(spec_assemble(b, n, channel) == Ok::<RecordModel, IdatError>(rec@));
    }
    Ok(rec)
}

// ---------------------------------------------------------------------------
// Laws of the decoder.
// ---------------------------------------------------------------------------

/// Decoding is deterministic and idempotent: one buffer and channel decode to
/// exactly one record, so two decodes of the same bytes agree bit for bit.
pub proof fn lemma_decode_deterministic(
    b: Seq<u8>,
    channel: Channel,
    r1: RecordModel,
    r2: RecordModel,
)
    requires
        spec_decode(b, channel) == Ok::<RecordModel, IdatError>(r1),
        spec_decode(b, channel) == Ok::<RecordModel, IdatError>(r2),
    ensures
        r1 == r2,
{
}

/// A buffer whose first four bytes are not the `IDAT` magic always fails with
/// `InvalidMagic`, whatever the rest of its contents.
pub proof fn lemma_invalid_magic(b: Seq<u8>, channel: Channel)
    requires
        b.len() >= 4,
        !magic_ok(b),
    ensures
        spec_decode(b, channel) == Err::<RecordModel, IdatError>(IdatError::InvalidMagic),
{
}

/// A directory the buffer cannot hold whole fails with `OutOfBounds`, as long
/// as no entry that does fit fails earlier with an unknown code.
pub proof fn lemma_truncated_directory(b: Seq<u8>, channel: Channel)
    requires
        magic_ok(b),
        b.len() >= 16,
        spec_version(b) >= 3,
        b.len() < 16 + 10 * spec_field_count(b),
        forall|i: int|
            0 <= i < spec_field_count(b) && 26 + 10 * i <= b.len() ==> spec_code_known(
                #[trigger] spec_entry_code(b, i),
            ),
    ensures
        spec_decode(b, channel) == Err::<RecordModel, IdatError>(IdatError::OutOfBounds),
{
    lemma_directory_check_truncated(b, 0, spec_field_count(b));
}

/// Some entry of a truncated directory does not fit the buffer, and the walk
/// stops at the first such entry with `OutOfBounds`.
proof fn lemma_directory_check_truncated(b: Seq<u8>, i: int, n: int)
    requires
        0 <= i < n,
        b.len() < 16 + 10 * n,
        forall|k: int|
            i <= k < n && 26 + 10 * k <= b.len() ==> spec_code_known(
                #[trigger] spec_entry_code(b, k),
            ),
    ensures
        spec_directory_check(b, i, n) == Err::<(), IdatError>(IdatError::OutOfBounds),
    decreases n - i,
{
    if 26 + 10 * i <= b.len() {
        assert(spec_code_known(spec_entry_code(b, i)));
        assert(i + 1 < n);
        lemma_directory_check_truncated(b, i + 1, n);
    }
}

} // verus!
