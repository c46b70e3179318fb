//! The fixed 13-byte prelude of every archive — magic, archive-wide
//! flags, format version, entry count — and the reader's configuration:
//! the magic it expects and the verifying key it may bring.

use vstd::prelude::*;
use crate::errors::{InternalError, InternalResult};
use crate::flags::Flags;
use crate::format::{
    header_bytes, parse_header, read_u16_le, read_u32_le, write_u16_le, write_u32_le, HeaderModel,
    push_bytes,
};

verus! {

/// The fixed prelude of an archive.
#[derive(Debug)]
pub struct Header {
    /// The archive's 5-byte magic tag.
    pub magic: [u8; 5],
    /// Archive-wide flags.
    pub flags: Flags,
    /// The format version the archive was written with.
    pub arch_version: u16,
    /// Number of entries in the registry.
    pub capacity: u16,
}

impl View for Header {
    type V = HeaderModel;

    open spec fn view(&self) -> HeaderModel {
        HeaderModel {
            magic: self.magic@,
            flags: self.flags@,
            arch_version: self.arch_version,
            capacity: self.capacity,
        }
    }
}

impl Header {
    /// Size in bytes of the serialized header.
    pub const BASE_SIZE: usize = 13;

    /// The header's canonical 13 bytes.
    pub fn bytes(&self) -> (r: Vec<u8>)
        ensures
            r@ == header_bytes(self@),
            r@.len() == 13,
    {
        let mut out: Vec<u8> = Vec::new();
        push_bytes(&mut out, self.magic.as_slice());
        write_u32_le(&mut out, self.flags.bits());
        write_u16_le(&mut out, self.arch_version);
        write_u16_le(&mut out, self.capacity);
        proof {
            assert(out@ =~= header_bytes(self@));
        }
        out
    }

    /// Reads a header from the front of a source; fails when fewer than
    /// 13 bytes are there.
    pub fn from_bytes(b: &[u8]) -> (r: InternalResult<Header>)
        ensures
            match parse_header(b@) {
                Some(h) => r matches Ok(v) && v@ == h,
                None => r matches Err(e) && e is MalformedArchiveSource,
            },
    {
        let n = b.len();
        if n < 13 {
            return Err(
                InternalError::MalformedArchiveSource(
                    "the source is too short to hold a header".to_owned(),
                ),
            );
        }
        let magic: [u8; 5] = [
            *vstd::slice::slice_index_get(b, 0),
            *vstd::slice::slice_index_get(b, 1),
            *vstd::slice::slice_index_get(b, 2),
            *vstd::slice::slice_index_get(b, 3),
            *vstd::slice::slice_index_get(b, 4),
        ];
        let flags = Flags::from_bits(read_u32_le(b, 5));
        let arch_version = read_u16_le(b, 9);
        let capacity = read_u16_le(b, 11);
        let header = Header { magic, flags, arch_version, capacity };
        proof {
            assert(magic@ =~= b@.subrange(0, 5));
            assert(header@ == parse_header(b@)->Some_0);
        }
        Ok(header)
    }

    /// Checks a header against a reader's configuration: the magic must
    /// match the configured magic, the version must be the library's.
    pub fn validate(config: &ArchiveConfig, header: &Header) -> (r: InternalResult<()>)
        ensures
            r is Ok <==> (header@.magic == config@.magic && header@.arch_version
                == crate::VERSION),
            header@.magic != config@.magic ==> (r matches Err(e) && e is MalformedArchiveSource),
            (header@.magic == config@.magic && header@.arch_version != crate::VERSION) ==> (
            r matches Err(e) && e matches InternalError::IncompatibleArchiveVersionError(v) && v
                == header@.arch_version),
    {
        if !crate::format::bytes_eq(header.magic.as_slice(), config.magic.as_slice()) {
            return Err(
                InternalError::MalformedArchiveSource(
                    "the source's magic is not this archive's".to_owned(),
                ),
            );
        }
        if header.arch_version != crate::VERSION {
            return Err(InternalError::IncompatibleArchiveVersionError(header.arch_version));
        }
        Ok(())
    }
}

impl Default for Header {
    /// An empty header under the default magic.
    fn default() -> (r: Header)
        ensures
            r@.magic == crate::DEFAULT_MAGIC@,
            r@.flags == 0u32,
            r@.arch_version == crate::VERSION,
            r@.capacity == 0u16,
    {
        Header {
            magic: crate::DEFAULT_MAGIC,
            flags: Flags::empty(),
            arch_version: crate::VERSION,
            capacity: 0,
        }
    }
}

/// The model of a reader's configuration.
pub ghost struct ArchiveConfigModel {
    pub magic: Seq<u8>,
    pub public_key: Option<Seq<u8>>,
}

/// What a reader expects of a source: the magic tag, and the verifying
/// key that authenticates signatures and keys the decryptor.
#[derive(Debug)]
pub struct ArchiveConfig {
    /// The magic the source must open with.
    pub magic: [u8; 5],
    /// The verifying key's 32 bytes, when the caller brings one.
    pub public_key: Option<Vec<u8>>,
}

impl View for ArchiveConfig {
    type V = ArchiveConfigModel;

    open spec fn view(&self) -> ArchiveConfigModel {
        ArchiveConfigModel {
            magic: self.magic@,
            public_key: match self.public_key {
                Some(ref k) => Some(k@),
                None => None,
            },
        }
    }
}

impl ArchiveConfig {
    /// A key, when present, has a verifying key's 32 bytes.
    pub open spec fn wf(&self) -> bool {
        self@.public_key matches Some(k) ==> k.len() == 32
    }

    /// A configuration expecting the given magic, with a key if given.
    pub fn new(magic: [u8; 5], public_key: Option<Vec<u8>>) -> (r: ArchiveConfig)
        requires
            public_key matches Some(k) ==> k@.len() == 32,
        ensures
            r@.magic == magic@,
            r@.public_key == match public_key {
                Some(k) => Some(k@),
                None => None::<Seq<u8>>,
            },
            r.wf(),
    {
        ArchiveConfig { magic, public_key }
    }

    /// Replaces the expected magic.
    pub fn magic(self, magic: [u8; 5]) -> (r: ArchiveConfig)
        ensures
            r@.magic == magic@,
            r@.public_key == self@.public_key,
    {
        ArchiveConfig { magic, ..self }
    }

    /// Loads a verifying key from its 32 bytes; any other length is
    /// refused.
    pub fn load_public_key(&mut self, bytes: &[u8]) -> (r: InternalResult<()>)
        ensures
            bytes@.len() == 32 ==> (r is Ok && final(self)@.public_key == Some(bytes@)
                && final(self)@.magic == old(self)@.magic),
            bytes@.len() != 32 ==> (r matches Err(e) && e is ParseError && final(self)@ == old(
                self,
            )@),
    {
        if bytes.len() != 32 {
            return Err(
                InternalError::ParseError("a verifying key is exactly 32 bytes long".to_owned()),
            );
        }
        self.public_key = Some(vstd::slice::slice_to_vec(bytes));
        Ok(())
    }
}

impl Default for ArchiveConfig {
    /// The default magic and no key.
    fn default() -> (r: ArchiveConfig)
        ensures
            r@.magic == crate::DEFAULT_MAGIC@,
            r@.public_key is None,
            r.wf(),
    {
        ArchiveConfig { magic: crate::DEFAULT_MAGIC, public_key: None }
    }
}

} // verus!
