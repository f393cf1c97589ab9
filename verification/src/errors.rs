use vstd::prelude::*;

verus! {

/// The failure kinds of the decoder. Every check fails fast with the specific
/// kind at the point of detection; no error is ever downgraded to a default
/// value. `FileNotFound` and `EmptyFile` belong to source acquisition, which
/// runs outside the decoder but reports through the same taxonomy.
#[derive(Clone, Copy, Debug, PartialEq, Eq, Structural)]
pub enum IdatError {
    /// The first four bytes are not the `IDAT` magic.
    InvalidMagic,
    /// The version field is below the oldest supported layout.
    UnsupportedVersion,
    /// A directory entry carries a code outside the fixed dictionary.
    UnknownFieldCode,
    /// A field the assembler requires is absent from the directory.
    MissingField,
    /// A read demands more bytes than the buffer holds.
    OutOfBounds,
    /// A string payload is not valid UTF-8.
    InvalidEncoding,
    /// The assembled bead arrays disagree with the bead count.
    MalformedRecord,
    /// Neither the plain nor the compressed source file exists.
    FileNotFound,
    /// The resolved source bytes are zero-length.
    EmptyFile,
}

} // verus!
