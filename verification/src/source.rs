use vstd::prelude::*;

use crate::errors::IdatError;

verus! {

/// How an IDAT source on disk stores its bytes.
#[derive(Clone, Copy, Debug, PartialEq, Eq, Structural)]
pub enum SourceKind {
    /// The plain `.idat` file.
    Plain,
    /// The gzip-compressed `.idat.gz` variant.
    Gzip,
}

/// Decides which variant of a source to read, preferring the plain file over
/// the compressed one; the caller reports which of the two candidate paths
/// exist. When neither does, the source cannot be acquired.
pub fn pick_source(plain_exists: bool, gzip_exists: bool) -> (r: Result<SourceKind, IdatError>)
    ensures
        match r {
            Ok(k) => {
                &&& (k == SourceKind::Plain <==> plain_exists)
                &&& (k == SourceKind::Gzip <==> (!plain_exists && gzip_exists))
            },
            Err(e) => {
                &&& e == IdatError::FileNotFound
                &&& !plain_exists
                &&& !gzip_exists
            },
        },
{
    if plain_exists {
        Ok(SourceKind::Plain)
    } else if gzip_exists {
        Ok(SourceKind::Gzip)
    } else {
        Err(IdatError::FileNotFound)
    }
}

/// Accepts acquired source bytes only when there are any: a source that
/// resolves or decompresses to nothing is `EmptyFile`.
pub fn check_acquired_bytes(bytes: &Vec<u8>) -> (r: Result<(), IdatError>)
    ensures
        match r {
            Ok(u) => bytes@.len() > 0,
            Err(e) => {
                &&& e == IdatError::EmptyFile
                &&& bytes@.len() == 0
            },
        },
{
    if bytes.len() == 0 {
        Err(IdatError::EmptyFile)
    } else {
        Ok(())
    }
}

} // verus!

