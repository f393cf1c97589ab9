use vstd::prelude::*;

use crate::errors::IdatError;

verus! {

/// The symbolic names of the closed, compile-time-known set of field codes
/// this decoder understands. An IDAT directory entry carries the numeric
/// code; the assembler addresses fields by these names.
#[derive(Clone, Copy, Debug, PartialEq, Eq, Structural)]
pub enum FieldKind {
    NSnpsRead,
    IlluminaId,
    Sd,
    Mean,
    NBeads,
    MidBlock,
    RunInfo,
    RedGreen,
    MostlyNull,
    Barcode,
    ChipType,
    MostlyA,
    Unknown1,
    Unknown2,
    Unknown3,
    Unknown4,
    Unknown5,
    Unknown6,
    Unknown7,
}

/// The 16-bit numeric code of each field, as the format defines it.
pub open spec fn spec_code_of(f: FieldKind) -> int {
    match f {
        FieldKind::NSnpsRead => 1000,
        FieldKind::IlluminaId => 102,
        FieldKind::Sd => 103,
        FieldKind::Mean => 104,
        FieldKind::NBeads => 107,
        FieldKind::MidBlock => 200,
        FieldKind::RunInfo => 300,
        FieldKind::RedGreen => 400,
        FieldKind::MostlyNull => 401,
        FieldKind::Barcode => 402,
        FieldKind::ChipType => 403,
        FieldKind::MostlyA => 404,
        FieldKind::Unknown1 => 405,
        FieldKind::Unknown2 => 406,
        FieldKind::Unknown3 => 407,
        FieldKind::Unknown4 => 408,
        FieldKind::Unknown5 => 409,
        FieldKind::Unknown6 => 410,
        FieldKind::Unknown7 => 510,
    }
}

/// Whether a numeric code belongs to the dictionary.
pub open spec fn spec_code_known(c: int) -> bool {
    ||| c == 102
    ||| c == 103
    ||| c == 104
    ||| c == 107
    ||| c == 200
    ||| c == 300
    ||| c == 400
    ||| c == 401
    ||| c == 402
    ||| c == 403
    ||| c == 404
    ||| c == 405
    ||| c == 406
    ||| c == 407
    ||| c == 408
    ||| c == 409
    ||| c == 410
    ||| c == 510
    ||| c == 1000
}

/// The numeric code of a field name.
pub fn code_of(f: FieldKind) -> (r: u16)
    ensures
        r as int == spec_code_of(f),
{
    match f {
        FieldKind::NSnpsRead => 1000,
        FieldKind::IlluminaId => 102,
        FieldKind::Sd => 103,
        FieldKind::Mean => 104,
        FieldKind::NBeads => 107,
        FieldKind::MidBlock => 200,
        FieldKind::RunInfo => 300,
        FieldKind::RedGreen => 400,
        FieldKind::MostlyNull => 401,
        FieldKind::Barcode => 402,
        FieldKind::ChipType => 403,
        FieldKind::MostlyA => 404,
        FieldKind::Unknown1 => 405,
        FieldKind::Unknown2 => 406,
        FieldKind::Unknown3 => 407,
        FieldKind::Unknown4 => 408,
        FieldKind::Unknown5 => 409,
        FieldKind::Unknown6 => 410,
        FieldKind::Unknown7 => 510,
    }
}

/// Resolves a numeric code against the dictionary: the matching field name,
/// or `UnknownFieldCode` for any code outside the fixed set.
pub fn field_of_code(c: u16) -> (r: Result<FieldKind, IdatError>)
    ensures
        match r {
            Ok(f) => spec_code_known(c as int) && spec_code_of(f) == c as int,
            Err(e) => e == IdatError::UnknownFieldCode && !spec_code_known(c as int),
        },
{
    match c {
        1000 => Ok(FieldKind::NSnpsRead),
        102 => Ok(FieldKind::IlluminaId),
        103 => Ok(FieldKind::Sd),
        104 => Ok(FieldKind::Mean),
        107 => Ok(FieldKind::NBeads),
        200 => Ok(FieldKind::MidBlock),
        300 => Ok(FieldKind::RunInfo),
        400 => Ok(FieldKind::RedGreen),
        401 => Ok(FieldKind::MostlyNull),
        402 => Ok(FieldKind::Barcode),
        403 => Ok(FieldKind::ChipType),
        404 => Ok(FieldKind::MostlyA),
        405 => Ok(FieldKind::Unknown1),
        406 => Ok(FieldKind::Unknown2),
        407 => Ok(FieldKind::Unknown3),
        408 => Ok(FieldKind::Unknown4),
        409 => Ok(FieldKind::Unknown5),
        410 => Ok(FieldKind::Unknown6),
        510 => Ok(FieldKind::Unknown7),
        _ => Err(IdatError::UnknownFieldCode),
    }
}

/// The dictionary as a list of (name, code) pairs, in the format's order.
pub open spec fn spec_known_codes() -> Seq<(FieldKind, u16)> {
    seq![
        (FieldKind::NSnpsRead, 1000u16),
        (FieldKind::IlluminaId, 102u16),
        (FieldKind::Sd, 103u16),
        (FieldKind::Mean, 104u16),
        (FieldKind::NBeads, 107u16),
        (FieldKind::MidBlock, 200u16),
        (FieldKind::RunInfo, 300u16),
        (FieldKind::RedGreen, 400u16),
        (FieldKind::MostlyNull, 401u16),
        (FieldKind::Barcode, 402u16),
        (FieldKind::ChipType, 403u16),
        (FieldKind::MostlyA, 404u16),
        (FieldKind::Unknown1, 405u16),
        (FieldKind::Unknown2, 406u16),
        (FieldKind::Unknown3, 407u16),
        (FieldKind::Unknown4, 408u16),
        (FieldKind::Unknown5, 409u16),
        (FieldKind::Unknown6, 410u16),
        (FieldKind::Unknown7, 510u16),
    ]
}

/// The full name-to-code table of the dictionary.
pub fn known_codes() -> (r: Vec<(FieldKind, u16)>)
    ensures
        r@ == spec_known_codes(),
        forall|i: int| 0 <= i < r@.len() ==> spec_code_of(r@[i].0) == r@[i].1 as int,
{
    let mut v: Vec<(FieldKind, u16)> = Vec::new();
    v.push((FieldKind::NSnpsRead, 1000));
    v.push((FieldKind::IlluminaId, 102));
    v.push((FieldKind::Sd, 103));
    v.push((FieldKind::Mean, 104));
    v.push((FieldKind::NBeads, 107));
    v.push((FieldKind::MidBlock, 200));
    v.push((FieldKind::RunInfo, 300));
    v.push((FieldKind::RedGreen, 400));
    v.push((FieldKind::MostlyNull, 401));
    v.push((FieldKind::Barcode, 402));
    v.push((FieldKind::ChipType, 403));
    v.push((FieldKind::MostlyA, 404));
    v.push((FieldKind::Unknown1, 405));
    v.push((FieldKind::Unknown2, 406));
    v.push((FieldKind::Unknown3, 407));
    v.push((FieldKind::Unknown4, 408));
    v.push((FieldKind::Unknown5, 409));
    v.push((FieldKind::Unknown6, 410));
    v.push((FieldKind::Unknown7, 510));
    proof {
        assert(v@ =~= spec_known_codes());
    }
    v
}

/// The full code-to-name table: the dictionary with each pair flipped.
pub fn known_codes_reverse() -> (r: Vec<(u16, FieldKind)>)
    ensures
        r@.len() == spec_known_codes().len(),
        forall|i: int| 0 <= i < r@.len() ==> r@[i] == ((#[trigger] spec_known_codes()[i]).1, spec_known_codes()[i].0),
{
    let mut v: Vec<(u16, FieldKind)> = Vec::new();
    let codes = known_codes();
    let mut i: usize = 0;
    while i < codes.len()
        invariant
            codes@ == spec_known_codes(),
            i <= codes@.len(),
            v@.len() == i as int,
            forall|j: int| 0 <= j < i as int ==> v@[j] == ((#[trigger] spec_known_codes()[j]).1, spec_known_codes()[j].0),
        decreases codes@.len() - i,
    {
        let (f, c) = codes[i];
        v.push((c, f));
        i = i + 1;
    }
    v
}

/// The dictionary is invertible: no two field names share a numeric code.
pub proof fn lemma_dictionary_invertible(f: FieldKind, g: FieldKind)
    requires
        spec_code_of(f) == spec_code_of(g),
    ensures
        f == g,
{
}

} // verus!
