//! The write engine: collects leaves, then lays the archive out in two
//! passes — sizes first, then bytes. Each leaf streams through
//! compression, encryption and signing; the registry row and the data
//! glob land at precomputed offsets. What `dump` emits is pinned byte
//! for byte to the layout model, along with every fact a reader needs
//! to get the original bytes back.

use vstd::prelude::*;
use vstd::utf8::encode_utf8;
use crate::compressor::{compress_of, decompress_of};
use crate::crypto::{
    cipher_key_of, cipher_nonce_of, decrypt_under, derive_verifying_key, sign_message, Encryptor,
    MAX_PLAINTEXT_LENGTH,
};
use crate::errors::{InternalError, InternalResult};
use crate::flags::Flags;
use crate::format::{push_bytes, rows_bytes_of};
use crate::header::Header;
use crate::leaf::{CompressMode, Leaf, LeafModel};
use crate::pipeline::{
    archive_bytes_of, capacity_fits, dump_ok, entries_of, entry_at, entry_flags_of, entry_of,
    ids_fit, is_signed, keys_ok, plains_fit, plain_of, reg_prefix_of, reg_size_of,
    round_trip_fact_at, round_trip_facts, sig_message_of, size_fits, stored_of, stored_prefix_of,
    unsigned_entry_of, writer_vk, BuilderConfigModel,
};
use crate::pipeline::{lemma_entry_flags, lemma_reg_prefix_total, lemma_stored_prefix_nonneg};
use crate::reg_entry::{clone_bytes, RegistryEntry};

verus! {

/// `x` with no further bits set is `x`.
proof fn lemma_or_zero(x: u32)
    ensures
        x | 0u32 == x,
{
    assert(x | 0u32 == x) by (bit_vector);
}

/// The writer's configuration: the magic to stamp, archive-wide flags,
/// and the signing key when entries are to be signed or encrypted.
#[derive(Debug)]
pub struct BuilderConfig {
    /// The magic the archive opens with.
    pub magic: [u8; 5],
    /// Archive-wide flags; SIGNED is forced on when a key is present.
    pub flags: Flags,
    /// The signing key's 32 bytes, when configured.
    pub keypair: Option<Vec<u8>>,
}

impl View for BuilderConfig {
    type V = BuilderConfigModel;

    open spec fn view(&self) -> BuilderConfigModel {
        BuilderConfigModel {
            magic: self.magic@,
            flags: self.flags@,
            keypair: match self.keypair {
                Some(ref k) => Some(k@),
                None => None,
            },
        }
    }
}

impl BuilderConfig {
    /// Replaces the magic.
    pub fn magic(self, magic: [u8; 5]) -> (r: BuilderConfig)
        ensures
            r@ == (BuilderConfigModel { magic: magic@, ..self@ }),
    {
        BuilderConfig { magic, ..self }
    }

    /// Installs a signing key from its 32 bytes.
    pub fn keypair(self, keypair: Vec<u8>) -> (r: BuilderConfig)
        requires
            keypair@.len() == 32,
        ensures
            r@ == (BuilderConfigModel { keypair: Some(keypair@), ..self@ }),
            r@.wf(),
    {
        BuilderConfig { keypair: Some(keypair), ..self }
    }

    /// Loads a signing key from a keypair file's 64 bytes — the secret
    /// key first, the public key after it; any other length is refused.
    pub fn load_keypair(&mut self, bytes: &[u8]) -> (r: InternalResult<()>)
        ensures
            bytes@.len() == crate::KEYPAIR_LENGTH ==> (r is Ok && final(self)@ == (
            BuilderConfigModel { keypair: Some(bytes@.subrange(0, 32)), ..old(self)@ })),
            bytes@.len() != crate::KEYPAIR_LENGTH ==> (r matches Err(e) && e is ParseError
                && final(self)@ == old(self)@),
    {
        if bytes.len() != crate::KEYPAIR_LENGTH {
            return Err(
                InternalError::ParseError(
                    "a keypair file is exactly 64 bytes: secret key, then public key".to_owned(),
                ),
            );
        }
        self.keypair = Some(vstd::slice::slice_to_vec(vstd::slice::slice_subrange(bytes, 0, 32)));
        Ok(())
    }
}

impl Default for BuilderConfig {
    /// The default magic, no flags, no key.
    fn default() -> (r: BuilderConfig)
        ensures
            r@.magic == crate::DEFAULT_MAGIC@,
            r@.flags == 0u32,
            r@.keypair is None,
            r@.wf(),
    {
        BuilderConfig { magic: crate::DEFAULT_MAGIC, flags: Flags::empty(), keypair: None }
    }
}

/// The model of a builder: its queued leaves and its template.
pub ghost struct BuilderModel {
    pub leaves: Seq<LeafModel>,
    pub template: Option<LeafModel>,
}

/// The archive builder: queues leaves, then writes them all out.
pub struct Builder {
    /// The processing queue, in insertion order.
    pub leafs: Vec<Leaf>,
    template: Option<Leaf>,
}

impl View for Builder {
    type V = BuilderModel;

    closed spec fn view(&self) -> BuilderModel {
        BuilderModel {
            leaves: Seq::new(self.leafs@.len(), |i: int| self.leafs@[i]@),
            template: match self.template {
                Some(ref t) => Some(t@),
                None => None,
            },
        }
    }
}

impl Builder {
    /// A builder with an empty queue and no template.
    pub fn new() -> (r: Builder)
        ensures
            r@.leaves == Seq::<LeafModel>::empty(),
            r@.template is None,
    {
        Builder { leafs: Vec::new(), template: None }
    }

    /// Installs a template: every leaf queued through `add` copies its
    /// configuration.
    pub fn template(self, template: Leaf) -> (r: Builder)
        ensures
            r@.leaves == self@.leaves,
            r@.template == Some(template@),
    {
        Builder { template: Some(template), ..self }
    }

    /// Queues source bytes under an id. The leaf takes the template's
    /// configuration when one is installed, the default otherwise.
    pub fn add(&mut self, data: Vec<u8>, id: &str) -> (r: InternalResult<()>)
        ensures
            r is Ok,
            final(self)@.template == old(self)@.template,
            final(self)@.leaves.len() == old(self)@.leaves.len() + 1,
            final(self)@.leaves.drop_last() == old(self)@.leaves,
            ({
                let l = final(self)@.leaves.last();
                &&& l.data == data@
                &&& l.id == id@
                &&& match old(self)@.template {
                    Some(t) => l == (LeafModel { data: data@, id: id@, ..t }),
                    None => l == (LeafModel {
                        data: data@,
                        id: id@,
                        content_version: 0u8,
                        compress: CompressMode::Never,
                        compression_algo: crate::compressor::CompressionAlgorithm::LZ4,
                        flags: 0u32,
                        encrypt: false,
                        sign: false,
                    }),
                }
            }),
    {
        let leaf = Leaf::from_handle(data).id(id);
        let leaf = match &self.template {
            Some(t) => leaf.template(t),
            None => leaf,
        };
        self.add_leaf(leaf);
        proof {
            assert(self@.leaves.drop_last() =~= old(self)@.leaves);
        }
        Ok(())
    }

    /// Queues a preconfigured leaf.
    pub fn add_leaf(&mut self, leaf: Leaf)
        ensures
            final(self)@.template == old(self)@.template,
            final(self)@.leaves == old(self)@.leaves.push(leaf@),
    {
        self.leafs.push(leaf);
        proof {
            assert(self@.leaves =~= old(self)@.leaves.push(leaf@));
        }
    }


    /// Processes one leaf at its known location: seals its bytes when
    /// asked, commits the entry's flags, and signs over the stored
    /// bytes and the entry's canonical unsigned record.
    fn process_leaf(
        leaf: &Leaf,
        plain: &Vec<u8>,
        kept_i: bool,
        config: &BuilderConfig,
        encryptor_opt: &Option<Encryptor>,
        vk: &Vec<u8>,
        location: u64,
    ) -> (r: (RegistryEntry, Vec<u8>))
        requires
            config@.wf(),
            plain@ == plain_of(leaf@),
            kept_i == crate::pipeline::keeps_compressed(leaf@),
            leaf@.encrypt ==> config@.keypair is Some && plain_of(leaf@).len()
                < MAX_PLAINTEXT_LENGTH,
            encode_utf8(leaf@.id).len() < 0x10000,
            config@.keypair is Some ==> vk@ == writer_vk(config@) && (encryptor_opt matches Some(e)
                && e.wf() && e@ == (
            cipher_key_of(writer_vk(config@), config@.magic),
            cipher_nonce_of(writer_vk(config@)),
            )),
        ensures
            r.1@ == stored_of(leaf@, config@),
            r.0@ == entry_of(leaf@, config@, location),
            crate::format::entry_wf(r.0@),
            leaf@.encrypt ==> crate::crypto::decrypt_under(
                writer_vk(config@),
                config@.magic,
                stored_of(leaf@, config@),
            ) == Some(plain_of(leaf@)),
            is_signed(leaf@, config@) ==> crate::crypto::ed_verify_of(
                writer_vk(config@),
                sig_message_of(leaf@, config@, location),
                crate::crypto::ed_sign_of(
                    config@.keypair->Some_0,
                    sig_message_of(leaf@, config@, location),
                ),
            ),
    {
        let ghost l = leaf@;
        let ghost cfg = config@;

        // Encryption stage.
        let stored: Vec<u8> = if leaf.encrypt {
            match encryptor_opt {
                Some(enc) => {
                    match enc.encrypt(plain.as_slice()) {
                        Ok(c) => c,
                        Err(_) => {
                            proof {
                                assert(false);
                            }
                            (Vec::new())
                        },
                    }
                },
                None => {
                    proof {
                        assert(false);
                    }
                    (Vec::new())
                },
            }
        } else {
            clone_bytes(plain)
        };
        proof {
            assert(stored@ == stored_of(l, cfg));
        }
        let stored_len = stored.len();

        // The entry's flags: the caller's lower half plus the format
        // bits the pipeline earned.
        let lo = leaf.flags.bits() & 0x0000FFFF;
        let albit: u32 = match leaf.compression_algo {
            crate::compressor::CompressionAlgorithm::LZ4 => Flags::LZ4_COMPRESSED,
            crate::compressor::CompressionAlgorithm::Brotli(_) => Flags::BROTLI_COMPRESSED,
            crate::compressor::CompressionAlgorithm::Snappy => Flags::SNAPPY_COMPRESSED,
        };
        let fl: u32 = lo | (if kept_i {
            Flags::COMPRESSED_FLAG
        } else {
            0
        }) | (if kept_i {
            albit
        } else {
            0
        }) | (if leaf.encrypt {
            Flags::ENCRYPTED_FLAG
        } else {
            0
        });
        proof {
            lemma_or_zero(fl);
            assert(fl == entry_flags_of(l, false));
        }

        let mut entry = RegistryEntry {
            flags: Flags::from_bits(fl),
            content_version: leaf.content_version,
            location,
            offset: stored_len as u64,
            signature: None,
            id: leaf.id.clone(),
        };
        proof {
            assert(entry@ == unsigned_entry_of(l, cfg, location));
        }

        // Signing stage: over the stored bytes and the canonical
        // unsigned record, binding payload and directory position.
        let will_sign = leaf.sign && config.keypair.is_some();
        if will_sign {
            let record = match entry.bytes(false) {
                Ok(v) => v,
                Err(_) => {
                    proof {
                        assert(false);
                    }
                    (Vec::new())
                },
            };
            let mut message = clone_bytes(&stored);
            push_bytes(&mut message, record.as_slice());
            proof {
                assert(message@ == sig_message_of(l, cfg, location));
            }
            let sig = match &config.keypair {
                Some(sk) => sign_message(sk.as_slice(), message.as_slice()),
                None => {
                    proof {
                        assert(false);
                    }
                    (Vec::new())
                },
            };
            let fl_signed = fl | Flags::SIGNED_FLAG;
            proof {
                lemma_or_zero(fl);
                assert(fl_signed == entry_flags_of(l, true));
            }
            entry = RegistryEntry {
                flags: Flags::from_bits(fl_signed),
                signature: Some(sig),
                ..entry
            };
            proof {
                assert(entry@ == entry_of(l, cfg, location));
            }
        } else {
            proof {
                assert(entry@ == entry_of(l, cfg, location));
            }
        }
        proof {
            lemma_entry_flags(l, is_signed(l, cfg));
            assert(crate::format::entry_wf(entry@));
        }
        (entry, stored)
    }

    /// Writes every queued leaf out as one archive and returns its
    /// bytes: the header, the registry in insertion order, then each
    /// leaf's stored bytes at its recorded location.
    ///
    /// On success the output is byte-for-byte the layout model's, and
    /// carries every fact needed to prove that reading any entry back
    /// yields the bytes that went in. Each error comes exactly when its
    /// condition holds, checked in this order: an id of `u16::MAX` bytes
    /// or more, more leaves than the header's capacity field carries,
    /// encryption requested without a key, a plaintext past the
    /// cipher's cap, an archive too large to address.
    #[verifier::loop_isolation(false)]
    #[verifier::rlimit(100)]
    pub fn dump(&self, config: &BuilderConfig) -> (r: InternalResult<Vec<u8>>)
        requires
            config@.wf(),
        ensures
            r matches Ok(out) ==> (dump_ok(self@.leaves, config@) && out@ == archive_bytes_of(
                self@.leaves,
                config@,
            ) && round_trip_facts(self@.leaves, config@)),
            r is Err <==> !dump_ok(self@.leaves, config@),
            !ids_fit(self@.leaves) ==> (r matches Err(e) && e is IDSizeOverflowError),
            ids_fit(self@.leaves) && !capacity_fits(self@.leaves) ==> (r matches Err(e)
                && e is OtherError),
            ids_fit(self@.leaves) && capacity_fits(self@.leaves) && !keys_ok(
                self@.leaves,
                config@,
            ) ==> (r matches Err(e) && e is NoKeypairError),
            ids_fit(self@.leaves) && capacity_fits(self@.leaves) && keys_ok(self@.leaves, config@)
                && !plains_fit(self@.leaves) ==> (r matches Err(e) && e is CipherError),
            ids_fit(self@.leaves) && capacity_fits(self@.leaves) && keys_ok(self@.leaves, config@)
                && plains_fit(self@.leaves) && !size_fits(self@.leaves, config@) ==> (
            r matches Err(e) && e is OtherError),
    {
        let ghost ls = self@.leaves;
        let ghost cfg = config@;
        let n = self.leafs.len();

        // Every id must fit the registry's two-byte length field.
        let mut i: usize = 0;
        while i < n
            invariant
                i <= n,
                forall|j: int| 0 <= j < i ==> encode_utf8((#[trigger] ls[j]).id).len() < 0xFFFF,
            decreases n - i,
        {
            let id_bytes: &[u8] = self.leafs[i].id.as_str().as_bytes();
            if id_bytes.len() >= 65535 {
                proof {
                    assert(!ids_fit(ls)) by {
                        assert(encode_utf8(ls[i as int].id).len() >= 0xFFFF);
                    }
                }
                return Err(
                    InternalError::IDSizeOverflowError(
                        crate::errors::id_preview(self.leafs[i].id.as_str()),
                        id_bytes.len(),
                    ),
                );
            }
            i = i + 1;
        }
        proof {
            assert(ids_fit(ls));
        }

        // The leaf count must fit the header's capacity field.
        if n > 65535 {
            return Err(
                InternalError::OtherError(
                    "the archive cannot hold more than 65535 entries".to_owned(),
                ),
            );
        }
        proof {
            assert(capacity_fits(ls));
        }

        // Encryption needs a key to derive the cipher from.
        i = 0;
        while i < n
            invariant
                i <= n,
                forall|j: int| 0 <= j < i ==> ((#[trigger] ls[j]).encrypt ==> cfg.keypair is Some),
            decreases n - i,
        {
            if self.leafs[i].encrypt && config.keypair.is_none() {
                proof {
                    assert(!keys_ok(ls, cfg)) by {
                        assert(ls[i as int].encrypt && cfg.keypair is None);
                    }
                }
                return Err(InternalError::NoKeypairError);
            }
            i = i + 1;
        }
        proof {
            assert(keys_ok(ls, cfg));
        }

        // Compression stage: settle each leaf's post-compression bytes
        // and whether the compressed form is kept.
        let mut plains: Vec<Vec<u8>> = Vec::new();
        let mut kept: Vec<bool> = Vec::new();
        i = 0;
        while i < n
            invariant
                i <= n,
                plains@.len() == i,
                kept@.len() == i,
                forall|j: int| 0 <= j < i ==> (#[trigger] plains@[j])@ == plain_of(ls[j]),
                forall|j: int|
                    0 <= j < i ==> (#[trigger] kept@[j]) == crate::pipeline::keeps_compressed(
                        ls[j],
                    ),
                forall|j: int|
                    0 <= j < i ==> (crate::pipeline::keeps_compressed(#[trigger] ls[j])
                        ==> decompress_of(
                        ls[j].compression_algo,
                        compress_of(ls[j].compression_algo, ls[j].data),
                    ) == Some(ls[j].data)),
                forall|j: int|
                    0 <= j < i ==> ((#[trigger] ls[j]).encrypt ==> plain_of(ls[j]).len()
                        < MAX_PLAINTEXT_LENGTH),
            decreases n - i,
        {
            let leaf = &self.leafs[i];
            let mode = leaf.compress;
            let pair: (Vec<u8>, bool) = match mode {
                CompressMode::Never => (clone_bytes(&leaf.handle), false),
                CompressMode::Always => (
                    crate::compressor::compress(leaf.compression_algo, leaf.handle.as_slice()),
                    true,
                ),
                CompressMode::Detect => {
                    let c = crate::compressor::compress(
                        leaf.compression_algo,
                        leaf.handle.as_slice(),
                    );
                    if c.len() < leaf.handle.len() {
                        (c, true)
                    } else {
                        (clone_bytes(&leaf.handle), false)
                    }
                },
            };
            let (p, k) = pair;
            if leaf.encrypt && (p.len() as u64) >= MAX_PLAINTEXT_LENGTH {
                proof {
                    assert(!plains_fit(ls)) by {
                        assert(ls[i as int].encrypt && plain_of(ls[i as int]).len()
                            >= MAX_PLAINTEXT_LENGTH);
                    }
                }
                return Err(
                    InternalError::CipherError(
                        "an entry's bytes outgrow the cipher's length cap".to_owned(),
                    ),
                );
            }
            plains.push(p);
            kept.push(k);
            i = i + 1;
        }
        proof {
            assert(plains_fit(ls));
        }

        // Derive the verifying key and the cipher once, when a key is
        // configured.
        let mut vk: Vec<u8> = Vec::new();
        let mut encryptor_opt: Option<Encryptor> = None;
        match &config.keypair {
            Some(sk) => {
                vk = derive_verifying_key(sk.as_slice());
                encryptor_opt = Some(Encryptor::new(vk.as_slice(), &config.magic));
            },
            None => (),
        }
        proof {
            assert(cfg.keypair is Some ==> vk@ == writer_vk(cfg) && (encryptor_opt matches Some(e)
                && e.wf() && e@ == (cipher_key_of(writer_vk(cfg), cfg.magic), cipher_nonce_of(
                writer_vk(cfg),
            ))));
        }

        // First pass: the registry's size, so data locations are known
        // before any row is written.
        let mut reg_size: u64 = 0;
        i = 0;
        while i < n
            invariant
                i <= n,
                reg_size as int == reg_prefix_of(ls, cfg, i as int),
                reg_size <= 65622 * (i as u64),
            decreases n - i,
        {
            let leaf = &self.leafs[i];
            let id_len = leaf.id.as_str().as_bytes().len();
            proof {
                assert(encode_utf8(ls[i as int].id).len() < 0xFFFF);
                assert(id_len < 0xFFFF);
            }
            let will_sign = leaf.sign && config.keypair.is_some();
            let row: u64 = 23 + (if will_sign {
                64
            } else {
                0
            }) + (id_len as u64);
            reg_size = reg_size + row;
            i = i + 1;
        }
        proof {
            lemma_reg_prefix_total(ls, cfg, n as int);
            assert(reg_size as int == reg_size_of(ls, cfg));
        }
        let data_start: u64 = 13 + reg_size;
        if data_start > (usize::MAX as u64) {
            proof {
                lemma_stored_prefix_nonneg(ls, cfg, n as int);
                assert(!size_fits(ls, cfg));
            }
            return Err(
                InternalError::OtherError(
                    "the archive would outgrow addressable memory".to_owned(),
                ),
            );
        }

        // Second pass: process every leaf, write its row and its data.
        let mut rows_buf: Vec<u8> = Vec::new();
        let mut data_buf: Vec<u8> = Vec::new();
        i = 0;
        while i < n
            invariant
                i <= n,
                data_buf@.len() == stored_prefix_of(ls, cfg, i as int),
                data_buf@ == crate::pipeline::globs_bytes_of(ls, cfg, i as int),
                rows_buf@ == rows_bytes_of(entries_of(ls, cfg).take(i as int)),
                data_start as int + data_buf@.len() <= usize::MAX,
                forall|j: int| 0 <= j < i ==> round_trip_fact_at(ls, cfg, j),
            decreases n - i,
        {
            let leaf = &self.leafs[i];
            let ghost l = ls[i as int];

            // Compute the leaf's location, then process it: encrypt,
            // commit flags, sign.
            let location: u64 = data_start + (data_buf.len() as u64);
            let pair = Builder::process_leaf(
                leaf,
                &plains[i],
                kept[i],
                config,
                &encryptor_opt,
                &vk,
                location,
            );
            let (entry, stored) = pair;
            let stored_len = stored.len();
            proof {
                assert(stored@ == stored_of(l, cfg));
                assert(location as int == crate::pipeline::location_of(ls, cfg, i as int));
            }
            if (stored_len as u64) > (usize::MAX as u64) - location {
                proof {
                    crate::pipeline::lemma_stored_prefix_mono(ls, cfg, i as int + 1, n as int);
                    assert(stored_prefix_of(ls, cfg, i as int + 1) == stored_prefix_of(
                        ls,
                        cfg,
                        i as int,
                    ) + stored@.len());
                    assert(!size_fits(ls, cfg));
                }
                return Err(
                    InternalError::OtherError(
                        "the archive would outgrow addressable memory".to_owned(),
                    ),
                );
            }

            // Write the row and the data glob.
            let row = match entry.bytes(true) {
                Ok(v) => v,
                Err(e) => {
                    proof {
                        assert(false);
                    }
                    return Err(e);
                },
            };
            push_bytes(&mut rows_buf, row.as_slice());
            push_bytes(&mut data_buf, stored.as_slice());
            proof {
                assert(entry@ == entry_at(ls, cfg, i as int));
                crate::format::lemma_rows_bytes_push(
                    entries_of(ls, cfg).take(i as int),
                    entry@,
                );
                assert(entries_of(ls, cfg).take(i as int + 1) =~= entries_of(ls, cfg).take(
                    i as int,
                ).push(entry@));
                lemma_entry_flags(l, is_signed(l, cfg));
                assert(crate::format::entry_wf(entry@));
                assert(round_trip_fact_at(ls, cfg, i as int));
            }
            i = i + 1;
        }

        // Assemble: header, registry, data.
        let mut header_flags = config.flags;
        if config.keypair.is_some() {
            header_flags.force_set(Flags::SIGNED_FLAG, true);
        }
        let header = Header {
            magic: config.magic,
            flags: header_flags,
            arch_version: crate::VERSION,
            capacity: n as u16,
        };
        let mut out = header.bytes();
        push_bytes(&mut out, rows_buf.as_slice());
        push_bytes(&mut out, data_buf.as_slice());
        proof {
            assert(header@ == crate::pipeline::header_of(ls, cfg));
            assert(entries_of(ls, cfg).take(n as int) =~= entries_of(ls, cfg));
            assert(out@ == archive_bytes_of(ls, cfg));
            assert(size_fits(ls, cfg));
            assert(round_trip_facts(ls, cfg));
        }
        Ok(out)
    }
}

impl Default for Builder {
    /// The empty builder.
    fn default() -> (r: Builder)
        ensures
            r@.leaves == Seq::<LeafModel>::empty(),
            r@.template is None,
    {
        Builder::new()
    }
}

} // verus!
