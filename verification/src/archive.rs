//! The read engine: wraps an in-memory source, parses and validates the
//! header, ingests the registry into an id-keyed directory (a repeated
//! id replaces its earlier entry), and fetches one resource at a time —
//! slice the raw bytes, then verify, decrypt and decompress off the
//! source. What every query returns is pinned to the parse of the
//! source's bytes.

use vstd::prelude::*;
use crate::compressor::CompressionAlgorithm;
use crate::crypto::Encryptor;
use crate::errors::{InternalError, InternalResult};
use crate::flags::Flags;
use crate::format::{
    dedup_entries, entry_wf, find_entry, lookup_entry, parse_archive, parse_entries, with_entry,
    ArchiveParse, EntryModel, HeaderModel,
};
use crate::format::{
    lemma_find_entry, lemma_parse_entries_fail, lemma_parse_entries_snoc, lemma_parse_entry_wf,
};
use crate::crypto::{cipher_key_of, cipher_nonce_of};
use crate::header::{ArchiveConfig, Header};
use crate::pipeline::{decode_entry, DecodeOutcome};
use crate::reg_entry::{clone_bytes, RegistryEntry};
use crate::resource::{Resource, ResourceModel};

verus! {

/// The models of a run of registry entries, in order.
pub open spec fn entries_view(v: Seq<RegistryEntry>) -> Seq<EntryModel> {
    Seq::new(v.len(), |i: int| v[i]@)
}

/// The model of a loaded archive.
pub ghost struct ArchiveModel {
    /// The source's bytes.
    pub source: Seq<u8>,
    /// The magic the archive was validated against.
    pub magic: Seq<u8>,
    /// The configured verifying key, if any.
    pub key: Option<Seq<u8>>,
    /// The parsed header.
    pub header: HeaderModel,
    /// The directory: the parsed registry with later duplicates
    /// replacing earlier ones.
    pub entries: Seq<EntryModel>,
}

/// What `fetch` yields for an id.
pub ghost enum FetchOutcome {
    /// The decoded resource.
    Fetched(ResourceModel),
    /// No entry has the id.
    Missing,
    /// The entry's data range runs past the end of the source.
    OutOfRange,
    /// The entry is encrypted and no key is configured.
    NeedsKey,
    /// The cipher refused the stored bytes.
    CipherRefused,
    /// COMPRESSED is set but no algorithm bit is.
    NoAlgorithm,
    /// The decompressor refused the bytes.
    Corrupt,
}

/// The whole read path for one id: look the entry up, slice its raw
/// bytes out of the source, run the pipeline.
pub open spec fn fetch_of(am: ArchiveModel, id: Seq<char>) -> FetchOutcome {
    match lookup_entry(am.entries, id) {
        None => FetchOutcome::Missing,
        Some(e) => if e.location + e.offset <= am.source.len() {
            match decode_entry(
                e,
                am.source.subrange(e.location as int, e.location + e.offset),
                am.key,
                am.magic,
            ) {
                DecodeOutcome::Decoded(d, auth) => FetchOutcome::Fetched(
                    ResourceModel {
                        data: d,
                        flags: e.flags,
                        content_version: e.content_version,
                        authenticated: auth,
                    },
                ),
                DecodeOutcome::NeedsKey => FetchOutcome::NeedsKey,
                DecodeOutcome::CipherRefused => FetchOutcome::CipherRefused,
                DecodeOutcome::NoAlgorithm => FetchOutcome::NoAlgorithm,
                DecodeOutcome::Corrupt => FetchOutcome::Corrupt,
            }
        } else {
            FetchOutcome::OutOfRange
        },
    }
}

/// A loader for archive sources: parses the prelude once, then yields
/// entries and resources by id. Holding the source as plain bytes keeps
/// every fetch a read-only slice, so shared references may fetch from
/// many threads at once.
pub struct Archive {
    source: Vec<u8>,
    header: Header,
    entries: Vec<RegistryEntry>,
    key: Option<Vec<u8>>,
    decryptor: Option<Encryptor>,
}

impl View for Archive {
    type V = ArchiveModel;

    closed spec fn view(&self) -> ArchiveModel {
        ArchiveModel {
            source: self.source@,
            magic: self.header.magic@,
            key: match self.key {
                Some(ref k) => Some(k@),
                None => None,
            },
            header: self.header@,
            entries: entries_view(self.entries@),
        }
    }
}

impl Archive {
    /// The loader's invariant: the key has a verifying key's size, the
    /// decryptor is derived from exactly that key and the archive's
    /// magic, and every directory entry is well-formed.
    pub closed spec fn wf(&self) -> bool {
        &&& (self@.key matches Some(k) ==> k.len() == 32)
        &&& (self.key is Some <==> self.decryptor is Some)
        &&& (self.decryptor matches Some(d) ==> d.wf() && d@ == (
        cipher_key_of(self@.key->Some_0, self@.magic),
        cipher_nonce_of(self@.key->Some_0),
        ))
        &&& forall|i: int| 0 <= i < self@.entries.len() ==> entry_wf(#[trigger] self@.entries[i])
    }

    /// Replaces the directory's entry with this id, or appends one.
    #[verifier::loop_isolation(false)]
    fn insert_entry(entries: &mut Vec<RegistryEntry>, entry: RegistryEntry)
        ensures
            entries_view(final(entries)@) == with_entry(entries_view(old(entries)@), entry@),
    {
        let ghost es = entries_view(old(entries)@);
        proof {
            lemma_find_entry(es, entry@.id);
        }
        let mut j: usize = 0;
        while j < entries.len()
            invariant
                es == entries_view(entries@),
                j <= entries@.len(),
                forall|k: int| 0 <= k < j ==> (#[trigger] es[k]).id != entry@.id,
            decreases entries@.len() - j,
        {
            if entries[j].id == entry.id {
                proof {
                    assert(es[j as int].id == entry@.id);
                    assert(find_entry(es, entry@.id) == j as int);
                }
                entries[j] = entry;
                proof {
                    assert(entries_view(entries@) =~= es.update(j as int, entry@));
                }
                return ;
            }
            j = j + 1;
        }
        proof {
            assert(find_entry(es, entry@.id) < 0);
        }
        entries.push(entry);
        proof {
            assert(entries_view(entries@) =~= es.push(entry@));
        }
    }

    /// Parses and validates a source against a configuration. On
    /// success the archive holds the source, the parsed header, the
    /// directory with later duplicate ids replacing earlier ones, and
    /// the configured key.
    #[verifier::loop_isolation(false)]
    pub fn with_config(source: Vec<u8>, config: &ArchiveConfig) -> (r: InternalResult<Archive>)
        requires
            config.wf(),
        ensures
            match parse_archive(source@, config@.magic) {
                ArchiveParse::Parsed(h, es) => r matches Ok(a) && a@ == (ArchiveModel {
                    source: source@,
                    magic: config@.magic,
                    key: config@.public_key,
                    header: h,
                    entries: dedup_entries(es),
                }) && a.wf(),
                ArchiveParse::Truncated => r matches Err(e) && e is MalformedArchiveSource,
                ArchiveParse::BadMagic(_) => r matches Err(e) && e is MalformedArchiveSource,
                ArchiveParse::BadVersion(v) => r matches Err(e) && (
                e matches InternalError::IncompatibleArchiveVersionError(x) && x == v),
            },
    {
        let header = match Header::from_bytes(source.as_slice()) {
            Ok(h) => h,
            Err(e) => {
                return Err(e);
            },
        };
        match Header::validate(config, &header) {
            Ok(()) => (),
            Err(e) => {
                return Err(e);
            },
        }
        let ghost b = source@;
        let mut entries: Vec<RegistryEntry> = Vec::new();
        let mut pos: usize = 13;
        let mut k: u16 = 0;
        let ghost mut parsed: Seq<EntryModel> = Seq::empty();
        proof {
            assert(parse_entries(b, 13, 0) == Some((parsed, 13int)));
            assert(dedup_entries(parsed) =~= entries_view(entries@));
        }
        while k < header.capacity
            invariant
                header@.capacity == header.capacity,
                b == source@,
                k <= header.capacity,
                13 <= pos,
                parse_entries(b, 13, k as int) == Some((parsed, pos as int)),
                entries_view(entries@) == dedup_entries(parsed),
                forall|i: int|
                    0 <= i < entries_view(entries@).len() ==> entry_wf(
                        #[trigger] entries_view(entries@)[i],
                    ),
                forall|i: int| 0 <= i < parsed.len() ==> entry_wf(#[trigger] parsed[i]),
            decreases header.capacity - k,
        {
            let (entry, next) = match RegistryEntry::from_bytes(source.as_slice(), pos) {
                Ok(p) => p,
                Err(e) => {
                    proof {
                        lemma_parse_entries_fail(b, 13, k as int, header.capacity as int);
                    }
                    return Err(e);
                },
            };
            proof {
                lemma_parse_entry_wf(b, pos as int);
                lemma_parse_entries_snoc(b, 13, k as int);
                let older = parsed;
                parsed = parsed.push(entry@);
                assert(parsed.drop_last() =~= older);
                assert(dedup_entries(parsed) == with_entry(dedup_entries(older), entry@));
                crate::format::lemma_dedup_entries(older);
                crate::format::lemma_with_entry_unique(dedup_entries(older), entry@);
            }
            let ghost before = entries_view(entries@);
            Archive::insert_entry(&mut entries, entry);
            proof {
                let now = entries_view(entries@);
                let fi = find_entry(before, parsed.last().id);
                lemma_find_entry(before, parsed.last().id);
                assert forall|i: int| 0 <= i < now.len() implies entry_wf(#[trigger] now[i]) by {
                    if fi >= 0 {
                        assert(now == before.update(fi, parsed.last()));
                        if i != fi {
                            assert(now[i] == before[i]);
                        }
                    } else {
                        assert(now == before.push(parsed.last()));
                        if i < before.len() {
                            assert(now[i] == before[i]);
                        }
                    }
                }
            }
            pos = next;
            k = k + 1;
        }
        let archive = Archive {
            source,
            header,
            entries,
            key: match &config.public_key {
                Some(kb) => Some(clone_bytes(kb)),
                None => None,
            },
            decryptor: match &config.public_key {
                Some(kb) => Some(Encryptor::new(kb.as_slice(), &config.magic)),
                None => None,
            },
        };
        proof {
            assert(parse_archive(b, config@.magic) == ArchiveParse::Parsed(header@, parsed));
            assert(archive@.magic == config@.magic);
        }
        Ok(archive)
    }

    /// Loads an archive under the default configuration: the default
    /// magic, no key.
    pub fn new(source: Vec<u8>) -> (r: InternalResult<Archive>)
        ensures
            match parse_archive(source@, crate::DEFAULT_MAGIC@) {
                ArchiveParse::Parsed(h, es) => r matches Ok(a) && a@ == (ArchiveModel {
                    source: source@,
                    magic: crate::DEFAULT_MAGIC@,
                    key: None,
                    header: h,
                    entries: dedup_entries(es),
                }) && a.wf(),
                ArchiveParse::Truncated => r matches Err(e) && e is MalformedArchiveSource,
                ArchiveParse::BadMagic(_) => r matches Err(e) && e is MalformedArchiveSource,
                ArchiveParse::BadVersion(v) => r matches Err(e) && (
                e matches InternalError::IncompatibleArchiveVersionError(x) && x == v),
            },
    {
        let config = ArchiveConfig::default();
        Archive::with_config(source, &config)
    }

    /// Consumes the archive and returns the underlying source bytes.
    pub fn into_inner(self) -> (r: Vec<u8>)
        ensures
            r@ == self@.source,
    {
        self.source
    }

    /// The directory: one entry per id, in first-appearance order.
    pub fn entries(&self) -> (r: &Vec<RegistryEntry>)
        ensures
            entries_view(r@) == self@.entries,
    {
        &self.entries
    }

    /// The archive-wide flags from the header.
    pub fn flags(&self) -> (r: &Flags)
        ensures
            r@ == self@.header.flags,
    {
        &self.header.flags
    }

    /// Looks an id's entry up in the directory; a cheap metadata query
    /// that touches no data bytes.
    #[verifier::loop_isolation(false)]
    pub fn fetch_entry(&self, id: &str) -> (r: Option<RegistryEntry>)
        ensures
            match lookup_entry(self@.entries, id@) {
                Some(e) => r matches Some(v) && v@ == e,
                None => r is None,
            },
    {
        let ghost es = self@.entries;
        proof {
            lemma_find_entry(es, id@);
        }
        let key: String = id.to_owned();
        let mut j: usize = 0;
        while j < self.entries.len()
            invariant
                es == entries_view(self.entries@),
                key@ == id@,
                j <= self.entries@.len(),
                forall|k: int| 0 <= k < j ==> (#[trigger] es[k]).id != id@,
            decreases self.entries@.len() - j,
        {
            if self.entries[j].id == key {
                proof {
                    assert(es[j as int].id == id@);
                    assert(find_entry(es, id@) == j as int);
                }
                return Some(self.entries[j].clone());
            }
            j = j + 1;
        }
        proof {
            assert(find_entry(es, id@) < 0);
        }
        None
    }

    /// Runs the reader's pipeline over one entry's raw stored bytes:
    /// signature verification first — advisory, a failure only clears
    /// `authenticated` — then decryption, then decompression.
    fn process(&self, entry: &RegistryEntry, raw: Vec<u8>) -> (r: InternalResult<(Vec<u8>, bool)>)
        requires
            self.wf(),
            entry_wf(entry@),
        ensures
            match decode_entry(entry@, raw@, self@.key, self@.magic) {
                DecodeOutcome::Decoded(d, auth) => r matches Ok(p) && p.0@ == d && p.1 == auth,
                DecodeOutcome::NeedsKey => r matches Err(e) && e is NoKeypairError,
                DecodeOutcome::CipherRefused => r matches Err(e) && e is CipherError,
                DecodeOutcome::NoAlgorithm => r matches Err(e) && e is MalformedEntry,
                DecodeOutcome::Corrupt => r matches Err(e) && e is DecompressionError,
            },
    {
        let mut authenticated = false;
        match &self.key {
            Some(key) => {
                match &entry.signature {
                    Some(sig) => {
                        let record = match entry.unsigned_record_bytes() {
                            Ok(v) => v,
                            Err(e) => {
                                proof {
                                    assert(false);
                                }
                                return Err(e);
                            },
                        };
                        let mut message = clone_bytes(&raw);
                        crate::format::push_bytes(&mut message, record.as_slice());
                        authenticated = crate::crypto::verify_message(
                            key.as_slice(),
                            message.as_slice(),
                            sig.as_slice(),
                        );
                    },
                    None => (),
                }
            },
            None => (),
        }
        proof {
            assert(authenticated == crate::pipeline::authenticated_of(entry@, raw@, self@.key));
        }
        let decrypted: Vec<u8>;
        if entry.flags.bits() & Flags::ENCRYPTED_FLAG != 0 {
            match &self.decryptor {
                Some(dc) => {
                    match dc.decrypt(raw.as_slice()) {
                        Ok(d) => {
                            decrypted = d;
                        },
                        Err(e) => {
                            return Err(e);
                        },
                    }
                },
                None => {
                    return Err(InternalError::NoKeypairError);
                },
            }
        } else {
            decrypted = raw;
        }
        let bits = entry.flags.bits();
        if bits & Flags::COMPRESSED_FLAG != 0 {
            let out = if bits & Flags::LZ4_COMPRESSED != 0 {
                crate::compressor::decompress(CompressionAlgorithm::LZ4, decrypted.as_slice())
            } else if bits & Flags::BROTLI_COMPRESSED != 0 {
                crate::compressor::decompress(CompressionAlgorithm::Brotli(0), decrypted.as_slice())
            } else if bits & Flags::SNAPPY_COMPRESSED != 0 {
                crate::compressor::decompress(CompressionAlgorithm::Snappy, decrypted.as_slice())
            } else {
                return Err(
                    InternalError::MalformedEntry(
                        "the entry names no known compression algorithm".to_owned(),
                    ),
                );
            };
            match out {
                Ok(data) => Ok((data, authenticated)),
                Err(e) => Err(e),
            }
        } else {
            Ok((decrypted, authenticated))
        }
    }

    /// Slices one entry's raw stored bytes out of the source; fails
    /// when the entry's recorded range runs past the source's end.
    fn read_raw(source: &[u8], entry: &RegistryEntry) -> (r: InternalResult<Vec<u8>>)
        ensures
            entry@.location + entry@.offset <= source@.len() ==> (r matches Ok(v) && v@
                == source@.subrange(entry@.location as int, entry@.location + entry@.offset)),
            entry@.location + entry@.offset > source@.len() ==> (r matches Err(e)
                && e is MalformedArchiveSource),
    {
        let n = source.len();
        if entry.location > n as u64 || entry.offset > (n as u64) - entry.location {
            return Err(
                InternalError::MalformedArchiveSource(
                    "the entry's data range runs past the end of the source".to_owned(),
                ),
            );
        }
        let start = entry.location as usize;
        let end = start + entry.offset as usize;
        Ok(vstd::slice::slice_to_vec(vstd::slice::slice_subrange(source, start, end)))
    }

    /// Fetches the resource stored under `id`: slices its raw bytes out
    /// of the source, then verifies, decrypts and decompresses them.
    pub fn fetch(&self, id: &str) -> (r: InternalResult<Resource>)
        requires
            self.wf(),
        ensures
            match fetch_of(self@, id@) {
                FetchOutcome::Fetched(rm) => r matches Ok(res) && res@ == rm,
                FetchOutcome::Missing => r matches Err(e) && (
                e matches InternalError::MissingResourceError(s) && s@ == id@),
                FetchOutcome::OutOfRange => r matches Err(e) && e is MalformedArchiveSource,
                FetchOutcome::NeedsKey => r matches Err(e) && e is NoKeypairError,
                FetchOutcome::CipherRefused => r matches Err(e) && e is CipherError,
                FetchOutcome::NoAlgorithm => r matches Err(e) && e is MalformedEntry,
                FetchOutcome::Corrupt => r matches Err(e) && e is DecompressionError,
            },
    {
        match self.fetch_entry(id) {
            None => Err(InternalError::MissingResourceError(id.to_owned())),
            Some(entry) => {
                let raw = match Archive::read_raw(self.source.as_slice(), &entry) {
                    Ok(v) => v,
                    Err(e) => {
                        return Err(e);
                    },
                };
                proof {
                    lemma_find_entry(self@.entries, id@);
                }
                match self.process(&entry, raw) {
                    Ok((data, authenticated)) => Ok(
                        Resource {
                            data,
                            flags: entry.flags,
                            content_version: entry.content_version,
                            authenticated,
                        },
                    ),
                    Err(e) => Err(e),
                }
            },
        }
    }

    /// The same read path behind an exclusive borrow; callers holding
    /// the archive mutably skip all sharing.
    pub fn fetch_mut(&mut self, id: &str) -> (r: InternalResult<Resource>)
        requires
            old(self).wf(),
        ensures
            *final(self) == *old(self),
            match fetch_of(old(self)@, id@) {
                FetchOutcome::Fetched(rm) => r matches Ok(res) && res@ == rm,
                FetchOutcome::Missing => r matches Err(e) && (
                e matches InternalError::MissingResourceError(s) && s@ == id@),
                FetchOutcome::OutOfRange => r matches Err(e) && e is MalformedArchiveSource,
                FetchOutcome::NeedsKey => r matches Err(e) && e is NoKeypairError,
                FetchOutcome::CipherRefused => r matches Err(e) && e is CipherError,
                FetchOutcome::NoAlgorithm => r matches Err(e) && e is MalformedEntry,
                FetchOutcome::Corrupt => r matches Err(e) && e is DecompressionError,
            },
    {
        self.fetch(id)
    }
}

} // verus!
