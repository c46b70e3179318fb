//! The error taxonomy of the library. Every recoverable failure surfaces
//! to the caller as one of these variants; a failed signature check is
//! reported on the returned resource instead, never as an error.

use vstd::prelude::*;
use vstd::string::StrSliceExecFns;

verus! {

/// The head of an id, as error payloads carry it: at most the first 25
/// characters.
pub fn id_preview(id: &str) -> (r: String)
    ensures
        r@ == (if id@.len() <= 25 {
            id@
        } else {
            id@.subrange(0, 25)
        }),
{
    let n = id.unicode_len();
    if n <= 25 {
        id.to_owned()
    } else {
        id.substring_char(0, 25).to_owned()
    }
}

/// All errors produced by the library.
#[derive(Debug)]
pub enum InternalError {
    /// The source is not an archive: bad magic, truncated header or
    /// registry, or a data range past the end of the source.
    MalformedArchiveSource(String),
    /// The header's format version does not match the library's.
    IncompatibleArchiveVersionError(u16),
    /// A fetch of an id the registry does not hold.
    MissingResourceError(String),
    /// The operation needs a key and none was configured.
    NoKeypairError,
    /// A caller tried to set a reserved flag bit.
    RestrictedFlagAccessError,
    /// An entry id longer than the registry's id-length field can carry;
    /// holds a truncated preview of the id and its actual byte length.
    IDSizeOverflowError(String, usize),
    /// The symmetric cipher refused to encrypt or decrypt.
    CipherError(String),
    /// An entry flagged as compressed names no known algorithm.
    MalformedEntry(String),
    /// A compressed entry's bytes could not be decompressed.
    DecompressionError(String),
    /// A decoder-level failure, such as invalid key bytes.
    ParseError(String),
    /// Any other failure, such as an archive too large to lay out.
    OtherError(String),
}

/// The result type of the library.
pub type InternalResult<T = ()> = Result<T, InternalError>;

} // verus!
