//! Stand-alone metadata for one archived entry: its flags, content
//! version, the absolute location and byte length of its stored data,
//! its detached signature when it carries one, and its id. Fetchable
//! without touching the entry's data.

use vstd::prelude::*;
use crate::errors::{InternalError, InternalResult};
use crate::flags::Flags;
use crate::format::{
    entry_id_bytes, entry_record_bytes, parse_entry, read_u16_le, read_u32_le, read_u64_le,
    string_from_utf8, unsigned_view, write_u16_le, write_u32_le, write_u64_le, EntryModel,
    push_bytes,
};

verus! {

/// Copies a byte vector.
pub fn clone_bytes(v: &Vec<u8>) -> (r: Vec<u8>)
    ensures
        r@ == v@,
{
    vstd::slice::slice_to_vec(v.as_slice())
}

/// The metadata record of one entry in an archive's registry.
#[derive(Debug)]
pub struct RegistryEntry {
    /// The entry's flags: format bits above, caller bits below.
    pub flags: Flags,
    /// The caller's version counter for the entry's content.
    pub content_version: u8,
    /// Absolute byte offset of the entry's stored data in the archive.
    pub location: u64,
    /// Number of stored bytes, as they lie on disk.
    pub offset: u64,
    /// The 64-byte detached signature, on a signed entry.
    pub signature: Option<Vec<u8>>,
    /// The id the entry is fetched by.
    pub id: String,
}

impl View for RegistryEntry {
    type V = EntryModel;

    open spec fn view(&self) -> EntryModel {
        EntryModel {
            flags: self.flags@,
            content_version: self.content_version,
            location: self.location,
            offset: self.offset,
            signature: match self.signature {
                Some(ref s) => Some(s@),
                None => None,
            },
            id: self.id@,
        }
    }
}

impl Clone for RegistryEntry {
    /// An exact copy of the record.
    fn clone(&self) -> (r: Self)
        ensures
            r@ == self@,
    {
        RegistryEntry {
            flags: self.flags,
            content_version: self.content_version,
            location: self.location,
            offset: self.offset,
            signature: match &self.signature {
                Some(v) => Some(clone_bytes(v)),
                None => None,
            },
            id: self.id.clone(),
        }
    }
}

impl RegistryEntry {
    /// Number of bytes of an entry record before its signature and id.
    pub const MIN_SIZE: usize = 23;

    /// An entry with nothing set: empty flags and id, zero everywhere.
    pub fn empty() -> (r: RegistryEntry)
        ensures
            r@.flags == 0u32,
            r@.content_version == 0u8,
            r@.location == 0u64,
            r@.offset == 0u64,
            r@.signature is None,
            r@.id == Seq::<char>::empty(),
    {
        RegistryEntry {
            flags: Flags::empty(),
            content_version: 0,
            location: 0,
            offset: 0,
            signature: None,
            id: String::new(),
        }
    }

    /// The record's canonical serialization, id bytes appended; the
    /// signature is written only when asked for and present. Fails only
    /// when the id's bytes outgrow the registry's two-byte length field
    /// altogether: this serializer handles every record the registry
    /// can carry — a parsed record's id may reach `u16::MAX` bytes, and
    /// the reader's signature check re-serializes such records. The
    /// writer's stricter boundary (an id of `u16::MAX` bytes or more is
    /// refused) is enforced by `Builder::dump` before anything is
    /// serialized.
    pub fn bytes(&self, include_signature: bool) -> (r: InternalResult<Vec<u8>>)
        ensures
            entry_id_bytes(self@).len() < 0x10000 ==> (r matches Ok(v) && v@
                == entry_record_bytes(self@, include_signature)),
            entry_id_bytes(self@).len() >= 0x10000 ==> (r matches Err(e)
                && e is IDSizeOverflowError),
    {
        let id_bytes: &[u8] = self.id.as_str().as_bytes();
        if id_bytes.len() >= 65536 {
            return Err(
                InternalError::IDSizeOverflowError(
                    crate::errors::id_preview(self.id.as_str()),
                    id_bytes.len(),
                ),
            );
        }
        let mut out: Vec<u8> = Vec::new();
        write_u32_le(&mut out, self.flags.bits());
        out.push(self.content_version);
        write_u64_le(&mut out, self.location);
        write_u64_le(&mut out, self.offset);
        write_u16_le(&mut out, id_bytes.len() as u16);
        if include_signature {
            match &self.signature {
                Some(sig) => push_bytes(&mut out, sig.as_slice()),
                None => (),
            }
        }
        push_bytes(&mut out, id_bytes);
        proof {
            assert(out@ =~= entry_record_bytes(self@, include_signature));
        }
        Ok(out)
    }

    /// The record as a signature covers it: SIGNED cleared, signature
    /// left out, id bytes appended.
    pub fn unsigned_record_bytes(&self) -> (r: InternalResult<Vec<u8>>)
        ensures
            entry_id_bytes(self@).len() < 0x10000 ==> (r matches Ok(v) && v@
                == entry_record_bytes(unsigned_view(self@), false)),
            entry_id_bytes(self@).len() >= 0x10000 ==> (r matches Err(e)
                && e is IDSizeOverflowError),
    {
        let stripped = RegistryEntry {
            flags: Flags::from_bits(self.flags.bits() & !Flags::SIGNED_FLAG),
            content_version: self.content_version,
            location: self.location,
            offset: self.offset,
            signature: None,
            id: self.id.clone(),
        };
        proof {
            assert(stripped@ == unsigned_view(self@));
        }
        stripped.bytes(false)
    }

    /// Reads one entry record at `pos` of a source: the fixed prefix,
    /// then the signature if the SIGNED bit is set, then the id. Fails
    /// where the model parse fails: bytes run out, or the id is not
    /// UTF-8.
    pub fn from_bytes(b: &[u8], pos: usize) -> (r: InternalResult<(RegistryEntry, usize)>)
        ensures
            match parse_entry(b@, pos as int) {
                Some(p) => r matches Ok(v) && v.0@ == p.0 && v.1 == p.1,
                None => r matches Err(e) && e is MalformedArchiveSource,
            },
    {
        let n = b.len();
        if pos > n || n - pos < 23 {
            return Err(
                InternalError::MalformedArchiveSource(
                    "the registry runs past the end of the source".to_owned(),
                ),
            );
        }
        let flags_bits = read_u32_le(b, pos);
        let content_version = *vstd::slice::slice_index_get(b, pos + 4);
        let location = read_u64_le(b, pos + 5);
        let offset = read_u64_le(b, pos + 13);
        let id_len = read_u16_le(b, pos + 21) as usize;
        let signed = flags_bits & Flags::SIGNED_FLAG != 0;
        let sig_len: usize = if signed {
            64
        } else {
            0
        };
        let after_prefix = n - (pos + 23);
        if sig_len > after_prefix || id_len > after_prefix - sig_len {
            return Err(
                InternalError::MalformedArchiveSource(
                    "the registry runs past the end of the source".to_owned(),
                ),
            );
        }
        let id_start = pos + 23 + sig_len;
        let signature = if signed {
            Some(vstd::slice::slice_to_vec(vstd::slice::slice_subrange(b, pos + 23, pos + 87)))
        } else {
            None
        };
        let id_bytes = vstd::slice::slice_to_vec(
            vstd::slice::slice_subrange(b, id_start, id_start + id_len),
        );
        match string_from_utf8(id_bytes) {
            Some(id) => {
                let entry = RegistryEntry {
                    flags: Flags::from_bits(flags_bits),
                    content_version,
                    location,
                    offset,
                    signature,
                    id,
                };
                proof {
                    assert(parse_entry(b@, pos as int) matches Some(p) && entry@ == p.0 && (
                    id_start + id_len) as int == p.1);
                }
                Ok((entry, id_start + id_len))
            },
            None => Err(
                InternalError::MalformedArchiveSource(
                    "an entry id is not valid UTF-8".to_owned(),
                ),
            ),
        }
    }
}

impl Default for RegistryEntry {
    /// The empty entry.
    fn default() -> (r: RegistryEntry)
        ensures
            r@.flags == 0u32,
            r@.content_version == 0u8,
            r@.location == 0u64,
            r@.offset == 0u64,
            r@.signature is None,
            r@.id == Seq::<char>::empty(),
    {
        RegistryEntry::empty()
    }
}

} // verus!
