//! A content-addressed archive format: many named byte blobs ("entries")
//! packed into one file behind a small header and a per-entry directory.
//! Entries may be independently compressed, authenticated with a detached
//! signature, and encrypted; readers fetch single entries at random access.

use vstd::prelude::*;

pub mod archive;
pub mod builder;
pub mod compressor;
pub mod crypto;
pub mod errors;
pub mod flags;
pub mod format;
pub mod header;
pub mod laws;
pub mod leaf;
pub mod pipeline;
pub mod reg_entry;
pub mod resource;

verus! {

/// Number of bytes in an archive's magic tag.
pub const MAGIC_LENGTH: usize = 5;

/// The default magic tag: `b"VfACH"`.
pub const DEFAULT_MAGIC: [u8; 5] = [86u8, 102u8, 65u8, 67u8, 72u8];

/// Number of bytes in a detached signature.
pub const SIGNATURE_LENGTH: usize = 64;

/// Number of bytes in a verifying (public) key.
pub const PUBLIC_KEY_LENGTH: usize = 32;

/// Number of bytes in a signing (secret) key.
pub const SECRET_KEY_LENGTH: usize = 32;

/// Number of bytes in a keypair file: secret key followed by public key.
pub const KEYPAIR_LENGTH: usize = 64;

/// The format version written into and expected from archive headers.
pub const VERSION: u16 = 1;

} // verus!
