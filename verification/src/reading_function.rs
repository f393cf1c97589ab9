use vstd::prelude::*;

use crate::errors::IdatError;
use crate::fields::FieldKind;

verus! {

// ---------------------------------------------------------------------------
// Byte-level models: what the fixed-width little-endian encodings mean.
// ---------------------------------------------------------------------------

/// The unsigned little-endian value of the two bytes at `pos`.
pub open spec fn u16_at(b: Seq<u8>, pos: int) -> int {
    b[pos] + 0x100 * b[pos + 1]
}

/// The unsigned little-endian value of the four bytes at `pos`.
pub open spec fn u32_at(b: Seq<u8>, pos: int) -> int {
    b[pos] + 0x100 * b[pos + 1] + 0x1_0000 * b[pos + 2] + 0x100_0000 * b[pos + 3]
}

/// The unsigned little-endian value of the eight bytes at `pos`.
pub open spec fn u64_at(b: Seq<u8>, pos: int) -> int {
    u32_at(b, pos) + 0x1_0000_0000 * u32_at(b, pos + 4)
}

/// The signed (two's complement) little-endian value of the eight bytes at `pos`.
pub open spec fn i64_at(b: Seq<u8>, pos: int) -> int {
    if u64_at(b, pos) < 0x8000_0000_0000_0000 {
        u64_at(b, pos)
    } else {
        u64_at(b, pos) - 0x1_0000_0000_0000_0000
    }
}

// ---------------------------------------------------------------------------
// The variable-length (continuation-bit) length encoding: each byte
// contributes its low seven bits, scaled by 128 for every byte before it,
// and a byte with its high bit clear ends the run.
// ---------------------------------------------------------------------------

/// Whether a complete varint starts at `pos`: some byte with a clear high bit
/// follows before the buffer ends.
pub open spec fn varint_terminates(b: Seq<u8>, pos: int) -> bool
    decreases b.len() - pos,
{
    if pos < 0 || pos >= b.len() {
        false
    } else if b[pos] < 128 {
        true
    } else {
        varint_terminates(b, pos + 1)
    }
}

/// The number of bytes the varint starting at `pos` occupies.
pub open spec fn varint_len(b: Seq<u8>, pos: int) -> int
    decreases b.len() - pos,
{
    if pos < 0 || pos >= b.len() {
        0
    } else if b[pos] < 128 {
        1
    } else {
        1 + varint_len(b, pos + 1)
    }
}

/// The value the varint starting at `pos` encodes.
pub open spec fn varint_value(b: Seq<u8>, pos: int) -> int
    decreases b.len() - pos,
{
    if pos < 0 || pos >= b.len() {
        0
    } else if b[pos] < 128 {
        b[pos] as int
    } else {
        (b[pos] - 128) + 128 * varint_value(b, pos + 1)
    }
}

/// A varint never encodes a negative value.
pub proof fn lemma_varint_value_nonneg(b: Seq<u8>, pos: int)
    ensures
        varint_value(b, pos) >= 0,
    decreases b.len() - pos,
{
    if 0 <= pos < b.len() && b[pos] >= 128 {
        lemma_varint_value_nonneg(b, pos + 1);
    }
}

/// A terminated varint lies entirely inside the buffer.
pub proof fn lemma_varint_len_in_bounds(b: Seq<u8>, pos: int)
    requires
        varint_terminates(b, pos),
    ensures
        1 <= varint_len(b, pos),
        pos + varint_len(b, pos) <= b.len(),
    decreases b.len() - pos,
{
    if b[pos] >= 128 {
        lemma_varint_len_in_bounds(b, pos + 1);
    }
}

// ---------------------------------------------------------------------------
// UTF-8 string payloads.
// ---------------------------------------------------------------------------

/// What `String::from_utf8` decodes a byte sequence to: `Some` of the
/// character sequence when the bytes are valid UTF-8, `None` otherwise.
pub uninterp spec fn utf8_of(bytes: Seq<u8>) -> Option<Seq<char>>;

/// Relies on `String::from_utf8`: it returns `Ok` exactly when the bytes are
/// valid UTF-8, and the returned string is their decoding.
#[verifier::external_body]
fn bytes_to_string(bytes: Vec<u8>) -> (r: Option<String>)
    ensures
        match r {
            Some(s) => utf8_of(bytes@) == Some(s@),
            None => utf8_of(bytes@) is None,
        },
{
    match String::from_utf8(bytes) {
        Ok(s) => Some(s),
        Err(_) => None,
    }
}

/// What decoding a length-prefixed string at `pos` yields: the text, or the
/// error the attempt must raise.
pub open spec fn string_at(b: Seq<u8>, pos: int) -> Result<Seq<char>, IdatError> {
    if !varint_terminates(b, pos) {
        Err(IdatError::OutOfBounds)
    } else {
        let n = varint_value(b, pos);
        let start = pos + varint_len(b, pos);
        if start + n > b.len() {
            Err(IdatError::OutOfBounds)
        } else {
            match utf8_of(b.subrange(start, start + n)) {
                Some(s) => Ok(s),
                None => Err(IdatError::InvalidEncoding),
            }
        }
    }
}

// ---------------------------------------------------------------------------
// Fixed-width positional reads. Each decodes one value at the cursor and
// advances it by the bytes consumed; on an error the cursor is unchanged.
// ---------------------------------------------------------------------------

/// Reads one byte at the cursor.
pub fn read_byte(full_binary: &Vec<u8>, reader_head: &mut usize) -> (r: Result<u8, IdatError>)
    ensures
        match r {
            Ok(v) => {
                &&& *old(reader_head) + 1 <= full_binary@.len()
                &&& *final(reader_head) == *old(reader_head) + 1
                &&& v == full_binary@[*old(reader_head) as int]
            },
            Err(e) => {
                &&& e == IdatError::OutOfBounds
                &&& *old(reader_head) + 1 > full_binary@.len()
                &&& *final(reader_head) == *old(reader_head)
            },
        },
{
    let h = *reader_head;
    if h >= full_binary.len() {
        return Err(IdatError::OutOfBounds);
    }
    let v = full_binary[h];
    *reader_head = h + 1;
    Ok(v)
}

/// Reads a two-byte little-endian unsigned integer at the cursor.
pub fn read_short(full_binary: &Vec<u8>, reader_head: &mut usize) -> (r: Result<u16, IdatError>)
    ensures
        match r {
            Ok(v) => {
                &&& *old(reader_head) + 2 <= full_binary@.len()
                &&& *final(reader_head) == *old(reader_head) + 2
                &&& v as int == u16_at(full_binary@, *old(reader_head) as int)
            },
            Err(e) => {
                &&& e == IdatError::OutOfBounds
                &&& *old(reader_head) + 2 > full_binary@.len()
                &&& *final(reader_head) == *old(reader_head)
            },
        },
{
    let h = *reader_head;
    let len = full_binary.len();
    if len < 2 || h > len - 2 {
        return Err(IdatError::OutOfBounds);
    }
    let b0 = full_binary[h] as u16;
    let b1 = full_binary[h + 1] as u16;
    *reader_head = h + 2;
    Ok(b0 + b1 * 0x100)
}

/// Reads a four-byte little-endian unsigned integer at the cursor.
pub fn read_int(full_binary: &Vec<u8>, reader_head: &mut usize) -> (r: Result<u32, IdatError>)
    ensures
        match r {
            Ok(v) => {
                &&& *old(reader_head) + 4 <= full_binary@.len()
                &&& *final(reader_head) == *old(reader_head) + 4
                &&& v as int == u32_at(full_binary@, *old(reader_head) as int)
            },
            Err(e) => {
                &&& e == IdatError::OutOfBounds
                &&& *old(reader_head) + 4 > full_binary@.len()
                &&& *final(reader_head) == *old(reader_head)
            },
        },
{
    let h = *reader_head;
    let len = full_binary.len();
    if len < 4 || h > len - 4 {
        return Err(IdatError::OutOfBounds);
    }
    let b0 = full_binary[h] as u32;
    let b1 = full_binary[h + 1] as u32;
    let b2 = full_binary[h + 2] as u32;
    let b3 = full_binary[h + 3] as u32;
    *reader_head = h + 4;
    Ok(b0 + b1 * 0x100 + b2 * 0x1_0000 + b3 * 0x100_0000)
}

/// Reads an eight-byte little-endian signed integer at the cursor.
pub fn read_long(full_binary: &Vec<u8>, reader_head: &mut usize) -> (r: Result<i64, IdatError>)
    ensures
        match r {
            Ok(v) => {
                &&& *old(reader_head) + 8 <= full_binary@.len()
                &&& *final(reader_head) == *old(reader_head) + 8
                &&& v as int == i64_at(full_binary@, *old(reader_head) as int)
            },
            Err(e) => {
                &&& e == IdatError::OutOfBounds
                &&& *old(reader_head) + 8 > full_binary@.len()
                &&& *final(reader_head) == *old(reader_head)
            },
        },
{
    let h = *reader_head;
    let len = full_binary.len();
    if len < 8 || h > len - 8 {
        return Err(IdatError::OutOfBounds);
    }
    let b0 = full_binary[h] as u64;
    let b1 = full_binary[h + 1] as u64;
    let b2 = full_binary[h + 2] as u64;
    let b3 = full_binary[h + 3] as u64;
    let b4 = full_binary[h + 4] as u64;
    let b5 = full_binary[h + 5] as u64;
    let b6 = full_binary[h + 6] as u64;
    let b7 = full_binary[h + 7] as u64;
    let u: u64 = b0 + b1 * 0x100 + b2 * 0x1_0000 + b3 * 0x100_0000 + b4 * 0x1_0000_0000 + b5
        * 0x100_0000_0000 + b6 * 0x1_0000_0000_0000 + b7 * 0x100_0000_0000_0000;
    proof {
        assert(u as int == u64_at(full_binary@, h as int));
    }
    let v: i64 = if u < 0x8000_0000_0000_0000 {
        u as i64
    } else {
        -((u64::MAX - u) as i64) - 1
    };
    *reader_head = h + 8;
    Ok(v)
}

/// Reads the eight-byte version number at the cursor.
pub fn read_version(full_binary: &Vec<u8>, reader_head: &mut usize) -> (r: Result<i64, IdatError>)
    ensures
        match r {
            Ok(v) => {
                &&& *old(reader_head) + 8 <= full_binary@.len()
                &&& *final(reader_head) == *old(reader_head) + 8
                &&& v as int == i64_at(full_binary@, *old(reader_head) as int)
            },
            Err(e) => {
                &&& e == IdatError::OutOfBounds
                &&& *old(reader_head) + 8 > full_binary@.len()
                &&& *final(reader_head) == *old(reader_head)
            },
        },
{
    read_long(full_binary, reader_head)
}

// ---------------------------------------------------------------------------
// Fixed-width vector reads: `n` consecutive values in file order. The whole
// run is bounds-checked before any element is read, so no partial result is
// ever exposed.
// ---------------------------------------------------------------------------

/// Reads `n` consecutive bytes at the cursor.
pub fn read_byte_vec(full_binary: &Vec<u8>, reader_head: &mut usize, n: u32) -> (r: Result<
    Vec<u8>,
    IdatError,
>)
    ensures
        match r {
            Ok(v) => {
                &&& *old(reader_head) + n as int <= full_binary@.len()
                &&& *final(reader_head) == *old(reader_head) + n as int
                &&& v@.len() == n as int
                &&& forall|i: int|
                    0 <= i < n as int ==> v@[i] == full_binary@[*old(reader_head) + i]
            },
            Err(e) => {
                &&& e == IdatError::OutOfBounds
                &&& *old(reader_head) + n as int > full_binary@.len()
                &&& *final(reader_head) == *old(reader_head)
            },
        },
{
    let h = *reader_head;
    let len = full_binary.len();
    if h > len || (n as u64) > (len - h) as u64 {
        return Err(IdatError::OutOfBounds);
    }
    let mut out: Vec<u8> = Vec::new();
    let mut i: usize = 0;
    let count = n as usize;
    while i < count
        invariant
            len == full_binary@.len(),
            count == n as int,
            h + count <= len,
            i <= count,
            out@.len() == i as int,
            forall|j: int| 0 <= j < i as int ==> out@[j] == full_binary@[h + j],
        decreases count - i,
    {
        out.push(full_binary[h + i]);
        i = i + 1;
    }
    *reader_head = h + count;
    Ok(out)
}

/// Reads `n` consecutive two-byte little-endian values at the cursor.
pub fn read_short_vec(full_binary: &Vec<u8>, reader_head: &mut usize, n: u32) -> (r: Result<
    Vec<u16>,
    IdatError,
>)
    ensures
        match r {
            Ok(v) => {
                &&& *old(reader_head) + 2 * n as int <= full_binary@.len()
                &&& *final(reader_head) == *old(reader_head) + 2 * n as int
                &&& v@.len() == n as int
                &&& forall|i: int|
                    0 <= i < n as int ==> v@[i] as int == u16_at(
                        full_binary@,
                        *old(reader_head) + 2 * i,
                    )
            },
            Err(e) => {
                &&& e == IdatError::OutOfBounds
                &&& *old(reader_head) + 2 * n as int > full_binary@.len()
                &&& *final(reader_head) == *old(reader_head)
            },
        },
{
    let h = *reader_head;
    let len = full_binary.len();
    if h > len || (n as u64) * 2 > (len - h) as u64 {
        return Err(IdatError::OutOfBounds);
    }
    let mut out: Vec<u16> = Vec::new();
    let mut i: usize = 0;
    let count = n as usize;
    while i < count
        invariant
            len == full_binary@.len(),
            count == n as int,
            h + 2 * count <= len,
            i <= count,
            out@.len() == i as int,
            forall|j: int| 0 <= j < i as int ==> out@[j] as int == u16_at(full_binary@, h + 2 * j),
        decreases count - i,
    {
        let p = h + 2 * i;
        let b0 = full_binary[p] as u16;
        let b1 = full_binary[p + 1] as u16;
        out.push(b0 + b1 * 0x100);
        i = i + 1;
    }
    *reader_head = h + 2 * count;
    Ok(out)
}

/// Reads `n` consecutive four-byte little-endian values at the cursor.
pub fn read_int_vec(full_binary: &Vec<u8>, reader_head: &mut usize, n: u32) -> (r: Result<
    Vec<u32>,
    IdatError,
>)
    ensures
        match r {
            Ok(v) => {
                &&& *old(reader_head) + 4 * n as int <= full_binary@.len()
                &&& *final(reader_head) == *old(reader_head) + 4 * n as int
                &&& v@.len() == n as int
                &&& forall|i: int|
                    0 <= i < n as int ==> v@[i] as int == u32_at(
                        full_binary@,
                        *old(reader_head) + 4 * i,
                    )
            },
            Err(e) => {
                &&& e == IdatError::OutOfBounds
                &&& *old(reader_head) + 4 * n as int > full_binary@.len()
                &&& *final(reader_head) == *old(reader_head)
            },
        },
{
    let h = *reader_head;
    let len = full_binary.len();
    if h > len || (n as u64) * 4 > (len - h) as u64 {
        return Err(IdatError::OutOfBounds);
    }
    let mut out: Vec<u32> = Vec::new();
    let mut i: usize = 0;
    let count = n as usize;
    while i < count
        invariant
            len == full_binary@.len(),
            count == n as int,
            h + 4 * count <= len,
            i <= count,
            out@.len() == i as int,
            forall|j: int| 0 <= j < i as int ==> out@[j] as int == u32_at(full_binary@, h + 4 * j),
        decreases count - i,
    {
        let p = h + 4 * i;
        let b0 = full_binary[p] as u32;
        let b1 = full_binary[p + 1] as u32;
        let b2 = full_binary[p + 2] as u32;
        let b3 = full_binary[p + 3] as u32;
        out.push(b0 + b1 * 0x100 + b2 * 0x1_0000 + b3 * 0x100_0000);
        i = i + 1;
    }
    *reader_head = h + 4 * count;
    Ok(out)
}

// ---------------------------------------------------------------------------
// Variable-length reads.
// ---------------------------------------------------------------------------

/// Decodes the varint starting at `pos`, returning its value and byte length.
fn read_varint_at(full_binary: &Vec<u8>, pos: usize) -> (r: Result<(u64, usize), IdatError>)
    ensures
        match r {
            Ok(p) => {
                &&& varint_terminates(full_binary@, pos as int)
                &&& p.0 as int == varint_value(full_binary@, pos as int)
                &&& p.1 as int == varint_len(full_binary@, pos as int)
                &&& 1 <= p.1
                &&& pos + p.1 <= full_binary@.len()
            },
            Err(e) => {
                &&& e == IdatError::OutOfBounds
                &&& (!varint_terminates(full_binary@, pos as int) || varint_value(
                    full_binary@,
                    pos as int,
                ) > u64::MAX)
            },
        },
    decreases full_binary@.len() - pos,
{
    if pos >= full_binary.len() {
        return Err(IdatError::OutOfBounds);
    }
    let b0 = full_binary[pos];
    if b0 < 128 {
        return Ok((b0 as u64, 1));
    }
    match read_varint_at(full_binary, pos + 1) {
        Err(e) => {
            proof {
                lemma_varint_value_nonneg(full_binary@, pos as int + 1);
            }
            Err(e)
        },
        Ok((v, l)) => {
            let d = (b0 - 128) as u64;
            let limit = (u64::MAX - d) / 128;
            if v > limit {
                proof {
                    assert((u64::MAX - d) as int == 128 * limit as int + (u64::MAX - d) as int % 128)
                        by {
                        vstd::arithmetic::div_mod::lemma_fundamental_div_mod(
                            (u64::MAX - d) as int,
                            128,
                        );
                    }
                }
                return Err(IdatError::OutOfBounds);
            }
            proof {
                assert((u64::MAX - d) as int == 128 * limit as int + (u64::MAX - d) as int % 128)
                    by {
                    vstd::arithmetic::div_mod::lemma_fundamental_div_mod((u64::MAX - d) as int, 128);
                }
            }
            Ok((d + 128 * v, l + 1))
        },
    }
}

/// Reads the varint length prefix at the cursor and advances past it.
pub fn read_bytes_to_read(full_binary: &Vec<u8>, reader_head: &mut usize) -> (r: Result<
    u64,
    IdatError,
>)
    ensures
        match r {
            Ok(v) => {
                &&& varint_terminates(full_binary@, *old(reader_head) as int)
                &&& v as int == varint_value(full_binary@, *old(reader_head) as int)
                &&& *final(reader_head) == *old(reader_head) + varint_len(
                    full_binary@,
                    *old(reader_head) as int,
                )
            },
            Err(e) => {
                &&& e == IdatError::OutOfBounds
                &&& (!varint_terminates(full_binary@, *old(reader_head) as int) || varint_value(
                    full_binary@,
                    *old(reader_head) as int,
                ) > u64::MAX)
                &&& *final(reader_head) == *old(reader_head)
            },
        },
{
    let len = full_binary.len();
    match read_varint_at(full_binary, *reader_head) {
        Err(e) => Err(e),
        Ok((v, l)) => {
            proof {
                assert(*reader_head + l <= len);
            }
            *reader_head = *reader_head + l;
            Ok(v)
        },
    }
}

/// Reads a length-prefixed UTF-8 string at the cursor: a varint byte count,
/// then exactly that many bytes of text.
pub fn read_string(full_binary: &Vec<u8>, reader_head: &mut usize) -> (r: Result<
    String,
    IdatError,
>)
    ensures
        match r {
            Ok(s) => {
                &&& string_at(full_binary@, *old(reader_head) as int) == Ok::<Seq<char>, IdatError>(
                    s@,
                )
                &&& *final(reader_head) == *old(reader_head) + varint_len(
                    full_binary@,
                    *old(reader_head) as int,
                ) + varint_value(full_binary@, *old(reader_head) as int)
            },
            Err(e) => {
                &&& string_at(full_binary@, *old(reader_head) as int) == Err::<
                    Seq<char>,
                    IdatError,
                >(e)
                &&& *final(reader_head) == *old(reader_head)
            },
        },
{
    let h = *reader_head;
    let len = full_binary.len();
    let (n, vlen) = match read_varint_at(full_binary, h) {
        Err(e) => {
            proof {
                lemma_varint_value_nonneg(full_binary@, h as int);
                if varint_terminates(full_binary@, h as int) {
                    lemma_varint_len_in_bounds(full_binary@, h as int);
                }
            }
            return Err(IdatError::OutOfBounds);
        },
        Ok(p) => p,
    };
    let start = h + vlen;
    if n > (len - start) as u64 {
        return Err(IdatError::OutOfBounds);
    }
    let count = n as usize;
    let mut bytes: Vec<u8> = Vec::new();
    let mut i: usize = 0;
    while i < count
        invariant
            len == full_binary@.len(),
            start + count <= len,
            i <= count,
            bytes@.len() == i as int,
            forall|j: int| 0 <= j < i as int ==> bytes@[j] == full_binary@[start + j],
        decreases count - i,
    {
        bytes.push(full_binary[start + i]);
        i = i + 1;
    }
    proof {
        assert(bytes@ =~= full_binary@.subrange(start as int, start + count));
    }
    match bytes_to_string(bytes) {
        Some(s) => {
            *reader_head = start + count;
            Ok(s)
        },
        None => Err(IdatError::InvalidEncoding),
    }
}

/// Reads the four magic bytes at the start of the buffer as UTF-8 text and
/// advances the cursor by four, wherever it stands.
pub fn read_magic(full_binary: &Vec<u8>, reader_head: &mut usize) -> (r: Result<String, IdatError>)
    ensures
        match r {
            Ok(s) => {
                &&& full_binary@.len() >= 4
                &&& utf8_of(full_binary@.subrange(0, 4)) == Some(s@)
                &&& *old(reader_head) + 4 <= usize::MAX
                &&& *final(reader_head) == *old(reader_head) + 4
            },
            Err(e) => {
                &&& *final(reader_head) == *old(reader_head)
                &&& ((e == IdatError::OutOfBounds && (full_binary@.len() < 4 || *old(reader_head)
                    + 4 > usize::MAX)) || (e == IdatError::InvalidEncoding && full_binary@.len()
                    >= 4 && *old(reader_head) + 4 <= usize::MAX && utf8_of(
                    full_binary@.subrange(0, 4),
                ) is None))
            },
        },
{
    if full_binary.len() < 4 || *reader_head > usize::MAX - 4 {
        return Err(IdatError::OutOfBounds);
    }
    let mut bytes: Vec<u8> = Vec::new();
    bytes.push(full_binary[0]);
    bytes.push(full_binary[1]);
    bytes.push(full_binary[2]);
    bytes.push(full_binary[3]);
    proof {
        assert(bytes@ =~= full_binary@.subrange(0, 4));
    }
    match bytes_to_string(bytes) {
        Some(s) => {
            *reader_head = *reader_head + 4;
            Ok(s)
        },
        None => Err(IdatError::InvalidEncoding),
    }
}

/// Reads an unknown field: its varint count, the byte after it, and skips one
/// trailing byte, leaving the cursor just past the skipped byte.
pub fn _read_unknown_bytes(full_binary: &Vec<u8>, reader_head: &mut usize) -> (r: Result<
    (u32, u8),
    IdatError,
>)
    ensures
        match r {
            Ok(p) => {
                &&& varint_terminates(full_binary@, *old(reader_head) as int)
                &&& p.0 as int == varint_value(full_binary@, *old(reader_head) as int) % 0x1_0000_0000
                &&& p.1 == full_binary@[*old(reader_head) + varint_len(
                    full_binary@,
                    *old(reader_head) as int,
                )]
                &&& *final(reader_head) == *old(reader_head) + varint_len(
                    full_binary@,
                    *old(reader_head) as int,
                ) + 2
                &&& *final(reader_head) <= full_binary@.len()
            },
            Err(e) => {
                &&& e == IdatError::OutOfBounds
                &&& (!varint_terminates(full_binary@, *old(reader_head) as int) || varint_value(
                    full_binary@,
                    *old(reader_head) as int,
                ) > u64::MAX || *old(reader_head) + varint_len(
                    full_binary@,
                    *old(reader_head) as int,
                ) + 2 > full_binary@.len())
                &&& *final(reader_head) == *old(reader_head)
            },
        },
{
    let h = *reader_head;
    let len = full_binary.len();
    let (n, vlen) = match read_varint_at(full_binary, h) {
        Err(e) => {
            return Err(IdatError::OutOfBounds);
        },
        Ok(p) => p,
    };
    if len - (h + vlen) < 2 {
        return Err(IdatError::OutOfBounds);
    }
    let tag = full_binary[h + vlen];
    *reader_head = h + vlen + 2;
    proof {
        lemma_varint_value_nonneg(full_binary@, h as int);
    }
    Ok(((n % 0x1_0000_0000) as u32, tag))
}

// ---------------------------------------------------------------------------
// Directory lookups: finding a field's entry among the decoded pairs.
// ---------------------------------------------------------------------------

/// The first position at or after `i` where `target` occurs, if any.
pub open spec fn spec_first_index(s: Seq<FieldKind>, target: FieldKind, i: int) -> Option<int>
    decreases s.len() - i,
{
    if i < 0 || i >= s.len() {
        None
    } else if s[i] == target {
        Some(i)
    } else {
        spec_first_index(s, target, i + 1)
    }
}

/// A found first index lies in the sequence and holds the target.
pub proof fn lemma_first_index_in_range(s: Seq<FieldKind>, target: FieldKind, i: int, k: int)
    requires
        spec_first_index(s, target, i) == Some(k),
    ensures
        i <= k < s.len(),
        s[k] == target,
    decreases s.len() - i,
{
    if 0 <= i < s.len() && s[i] != target {
        lemma_first_index_in_range(s, target, i + 1, k);
    }
}

/// Scanning past positions that miss the target does not change the result.
pub proof fn lemma_first_index_skip(s: Seq<FieldKind>, target: FieldKind, j: int, i: int)
    requires
        0 <= j <= i <= s.len(),
        forall|k: int| j <= k < i ==> s[k] != target,
    ensures
        spec_first_index(s, target, j) == spec_first_index(s, target, i),
    decreases i - j,
{
    if j < i {
        lemma_first_index_skip(s, target, j + 1, i);
    }
}

/// The position of the first occurrence of `s` in the vector, or
/// `MissingField` when it never occurs.
pub fn get_index_of_element(search_vector: &Vec<FieldKind>, s: FieldKind) -> (r: Result<
    usize,
    IdatError,
>)
    ensures
        match r {
            Ok(i) => spec_first_index(search_vector@, s, 0) == Some(i as int),
            Err(e) => {
                &&& e == IdatError::MissingField
                &&& spec_first_index(search_vector@, s, 0) is None
            },
        },
{
    let mut i: usize = 0;
    let len = search_vector.len();
    while i < len
        invariant
            len == search_vector@.len(),
            i <= len,
            forall|j: int| 0 <= j < i as int ==> search_vector@[j] != s,
        decreases len - i,
    {
        if search_vector[i] == s {
            proof {
                lemma_first_index_skip(search_vector@, s, 0, i as int);
            }
            return Ok(i);
        }
        i = i + 1;
    }
    proof {
        lemma_first_index_skip(search_vector@, s, 0, len as int);
    }
    Err(IdatError::MissingField)
}

/// The offset paired with the first directory entry for `target`: `None` when
/// the field is absent.
pub open spec fn spec_first_offset(
    fields: Seq<FieldKind>,
    offsets: Seq<i64>,
    target: FieldKind,
) -> Option<int> {
    match spec_first_index(fields, target, 0) {
        None => None,
        Some(i) => Some(offsets[i] as int),
    }
}

/// Looks the field up among the decoded (name, offset) pairs and returns its
/// absolute offset as a cursor position. A field that never occurs is
/// `MissingField`; an offset that cannot be a position into any buffer held
/// in memory (negative, or above the address range) is `OutOfBounds`.
pub fn get_offset_for_field(
    code_vector: &Vec<FieldKind>,
    offset_vector: &Vec<i64>,
    thing_to_search: FieldKind,
) -> (r: Result<usize, IdatError>)
    requires
        code_vector@.len() == offset_vector@.len(),
    ensures
        ({
            let fo = spec_first_offset(code_vector@, offset_vector@, thing_to_search);
            match r {
                Ok(off) => fo == Some(off as int),
                Err(e) => match fo {
                    None => e == IdatError::MissingField,
                    Some(o) => e == IdatError::OutOfBounds && !(0 <= o <= usize::MAX),
                },
            }
        }),
{
    let i = match get_index_of_element(code_vector, thing_to_search) {
        Err(e) => {
            return Err(e);
        },
        Ok(i) => i,
    };
    proof {
        lemma_first_index_in_range(code_vector@, thing_to_search, 0, i as int);
    }
    let off = offset_vector[i];
    if off < 0 || off as u64 > usize::MAX as u64 {
        return Err(IdatError::OutOfBounds);
    }
    Ok(off as usize)
}

// ---------------------------------------------------------------------------
// The varint encoding of a length, and the round trip through the decoder.
// ---------------------------------------------------------------------------

/// The bytes that encode `n` in the continuation-bit scheme: the low seven
/// bits of each byte carry the value, and a set high bit says more follow.
pub open spec fn spec_varint_encode(n: nat) -> Seq<u8>
    decreases n,
{
    if n < 128 {
        seq![n as u8]
    } else {
        seq![(128 + n % 128) as u8] + spec_varint_encode(n / 128)
    }
}

/// Decoding at a position past a prefix reads the same varint as decoding the
/// suffix alone.
pub proof fn lemma_varint_shift(prefix: Seq<u8>, s: Seq<u8>, pos: int)
    requires
        0 <= pos,
    ensures
        varint_terminates(prefix + s, prefix.len() + pos) == varint_terminates(s, pos),
        varint_len(prefix + s, prefix.len() + pos) == varint_len(s, pos),
        varint_value(prefix + s, prefix.len() + pos) == varint_value(s, pos),
    decreases s.len() - pos,
{
    if pos < s.len() && s[pos] >= 128 {
        lemma_varint_shift(prefix, s, pos + 1);
    }
}

/// Round trip of the length-prefix encoding: the bytes that encode a length
/// decode back to exactly that length, whole and alone, for every length.
pub proof fn lemma_varint_round_trip(n: nat)
    ensures
        varint_terminates(spec_varint_encode(n), 0),
        varint_len(spec_varint_encode(n), 0) == spec_varint_encode(n).len(),
        varint_value(spec_varint_encode(n), 0) == n,
    decreases n,
{
    if n < 128 {
        assert(spec_varint_encode(n) == seq![n as u8]);
    } else {
        lemma_varint_round_trip(n / 128);
        let b0 = (128 + n % 128) as u8;
        let e = spec_varint_encode(n);
        let rest = spec_varint_encode(n / 128);
        assert(e == seq![b0] + rest);
        lemma_varint_shift(seq![b0], rest, 0);
        assert(e[0] == b0);
        vstd::arithmetic::div_mod::lemma_fundamental_div_mod(n as int, 128);
    }
}

} // verus!
