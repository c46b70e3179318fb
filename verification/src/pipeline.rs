//! The transformation pipeline both sides share, as mathematics: what
//! the writer stores for each leaf (compress, then encrypt, then sign),
//! the exact bytes `dump` lays out, and what the reader's pipeline
//! (verify, decrypt, decompress) yields for an entry's raw bytes.

use vstd::prelude::*;
use vstd::utf8::encode_utf8;
use crate::compressor::{compress_of, decompress_of, CompressionAlgorithm};
use crate::crypto::{
    aead_encrypt_of, cipher_key_of, cipher_nonce_of, decrypt_under, ed_sign_of, ed_verify_of,
    ed_vk_of, MAX_PLAINTEXT_LENGTH,
};
use crate::flags::Flags;
use crate::format::{
    entry_record_bytes, entry_wf, header_bytes, rows_bytes_of, unsigned_view, EntryModel,
    HeaderModel,
};
use crate::leaf::{CompressMode, LeafModel};

verus! {

/// The model of the writer's configuration: the magic written, the
/// archive-wide flags, and the signing key when one is configured.
pub ghost struct BuilderConfigModel {
    pub magic: Seq<u8>,
    pub flags: u32,
    pub keypair: Option<Seq<u8>>,
}

impl BuilderConfigModel {
    /// A magic of five bytes; a signing key, when present, of 32.
    pub open spec fn wf(&self) -> bool {
        &&& self.magic.len() == 5
        &&& (self.keypair matches Some(k) ==> k.len() == 32)
    }
}

/// The verifying key the writer's signing key derives to.
pub open spec fn writer_vk(cfg: BuilderConfigModel) -> Seq<u8> {
    ed_vk_of(cfg.keypair->Some_0)
}

/// Whether the compressed form is kept for this leaf: always, never,
/// or — under Detect — exactly when strictly smaller than the original.
pub open spec fn keeps_compressed(l: LeafModel) -> bool {
    match l.compress {
        CompressMode::Always => true,
        CompressMode::Never => false,
        CompressMode::Detect => compress_of(l.compression_algo, l.data).len() < l.data.len(),
    }
}

/// The leaf's bytes after the compression stage.
pub open spec fn plain_of(l: LeafModel) -> Seq<u8> {
    if keeps_compressed(l) {
        compress_of(l.compression_algo, l.data)
    } else {
        l.data
    }
}

/// Whether the entry is signed: the leaf asks and a key is configured.
pub open spec fn is_signed(l: LeafModel, cfg: BuilderConfigModel) -> bool {
    l.sign && cfg.keypair is Some
}

/// The bytes stored on disk for the leaf: the compression stage's
/// output, sealed when the leaf asks for encryption.
pub open spec fn stored_of(l: LeafModel, cfg: BuilderConfigModel) -> Seq<u8> {
    if l.encrypt {
        aead_encrypt_of(
            cipher_key_of(writer_vk(cfg), cfg.magic),
            cipher_nonce_of(writer_vk(cfg)),
            plain_of(l),
        )
    } else {
        plain_of(l)
    }
}

/// The flag bit of the leaf's compression algorithm.
pub open spec fn algo_bit(a: CompressionAlgorithm) -> u32 {
    match a {
        CompressionAlgorithm::LZ4 => Flags::LZ4_COMPRESSED,
        CompressionAlgorithm::Brotli(_) => Flags::BROTLI_COMPRESSED,
        CompressionAlgorithm::Snappy => Flags::SNAPPY_COMPRESSED,
    }
}

/// `m` when `b` holds, else no bits.
pub open spec fn or_if(b: bool, m: u32) -> u32 {
    if b {
        m
    } else {
        0
    }
}

/// The flags committed on the leaf's entry: the caller's lower half,
/// and the format bits the pipeline earned.
pub open spec fn entry_flags_of(l: LeafModel, signed: bool) -> u32 {
    (l.flags & 0x0000FFFF) | or_if(keeps_compressed(l), Flags::COMPRESSED_FLAG) | or_if(
        keeps_compressed(l),
        algo_bit(l.compression_algo),
    ) | or_if(l.encrypt, Flags::ENCRYPTED_FLAG) | or_if(signed, Flags::SIGNED_FLAG)
}

/// The entry as it stands before signing: SIGNED clear, no signature.
pub open spec fn unsigned_entry_of(l: LeafModel, cfg: BuilderConfigModel, location: u64) -> EntryModel {
    EntryModel {
        flags: entry_flags_of(l, false),
        content_version: l.content_version,
        location,
        offset: stored_of(l, cfg).len() as u64,
        signature: None,
        id: l.id,
    }
}

/// What a signature covers: the stored bytes, then the canonical record
/// of the unsigned entry — so it binds payload and directory position.
pub open spec fn sig_message_of(l: LeafModel, cfg: BuilderConfigModel, location: u64) -> Seq<u8> {
    stored_of(l, cfg) + entry_record_bytes(unsigned_entry_of(l, cfg, location), false)
}

/// The entry the writer commits for the leaf at the given location.
pub open spec fn entry_of(l: LeafModel, cfg: BuilderConfigModel, location: u64) -> EntryModel {
    let u = unsigned_entry_of(l, cfg, location);
    if is_signed(l, cfg) {
        EntryModel {
            flags: entry_flags_of(l, true),
            signature: Some(ed_sign_of(cfg.keypair->Some_0, sig_message_of(l, cfg, location))),
            ..u
        }
    } else {
        u
    }
}

// ---------------------------------------------------------------------------
// Layout: sizes, locations, and the file's exact bytes
// ---------------------------------------------------------------------------

/// Bytes the leaf's registry row takes: the fixed prefix, a signature
/// when one will be written, and the id.
pub open spec fn row_size_of(l: LeafModel, cfg: BuilderConfigModel) -> int {
    23 + (if is_signed(l, cfg) {
        64int
    } else {
        0int
    }) + encode_utf8(l.id).len()
}

/// Bytes the registry takes from the `from`-th leaf on.
pub open spec fn reg_size_from(ls: Seq<LeafModel>, cfg: BuilderConfigModel, from: int) -> int
    decreases ls.len() - from,
{
    if from < 0 || from >= ls.len() {
        0
    } else {
        row_size_of(ls[from], cfg) + reg_size_from(ls, cfg, from + 1)
    }
}

/// Bytes the whole registry takes.
pub open spec fn reg_size_of(ls: Seq<LeafModel>, cfg: BuilderConfigModel) -> int {
    reg_size_from(ls, cfg, 0)
}

/// Where the data glob begins: after the header and the registry.
pub open spec fn data_start_of(ls: Seq<LeafModel>, cfg: BuilderConfigModel) -> int {
    13 + reg_size_of(ls, cfg)
}

/// Stored bytes of the first `i` leaves together.
pub open spec fn stored_prefix_of(ls: Seq<LeafModel>, cfg: BuilderConfigModel, i: int) -> int
    decreases i,
{
    if i <= 0 {
        0
    } else {
        stored_prefix_of(ls, cfg, i - 1) + stored_of(ls[i - 1], cfg).len()
    }
}

/// The absolute location of the `i`-th leaf's stored bytes.
pub open spec fn location_of(ls: Seq<LeafModel>, cfg: BuilderConfigModel, i: int) -> int {
    data_start_of(ls, cfg) + stored_prefix_of(ls, cfg, i)
}

/// The entry the writer commits for the `i`-th leaf.
pub open spec fn entry_at(ls: Seq<LeafModel>, cfg: BuilderConfigModel, i: int) -> EntryModel {
    entry_of(ls[i], cfg, location_of(ls, cfg, i) as u64)
}

/// All committed entries, in leaf-insertion order.
pub open spec fn entries_of(ls: Seq<LeafModel>, cfg: BuilderConfigModel) -> Seq<EntryModel> {
    Seq::new(ls.len(), |i: int| entry_at(ls, cfg, i))
}

/// The data glob: every leaf's stored bytes, in order, first `i` leaves.
pub open spec fn globs_bytes_of(ls: Seq<LeafModel>, cfg: BuilderConfigModel, i: int) -> Seq<u8>
    decreases i,
{
    if i <= 0 {
        Seq::empty()
    } else {
        globs_bytes_of(ls, cfg, i - 1) + stored_of(ls[i - 1], cfg)
    }
}

/// The header the writer emits: the configured magic and flags — with
/// SIGNED forced on when a signing key is configured — the library's
/// version, and the leaf count.
pub open spec fn header_of(ls: Seq<LeafModel>, cfg: BuilderConfigModel) -> HeaderModel {
    HeaderModel {
        magic: cfg.magic,
        flags: if cfg.keypair is Some {
            cfg.flags | Flags::SIGNED_FLAG
        } else {
            cfg.flags
        },
        arch_version: crate::VERSION,
        capacity: ls.len() as u16,
    }
}

/// Every byte `dump` emits: header, registry rows, data globs.
pub open spec fn archive_bytes_of(ls: Seq<LeafModel>, cfg: BuilderConfigModel) -> Seq<u8> {
    header_bytes(header_of(ls, cfg)) + rows_bytes_of(entries_of(ls, cfg)) + globs_bytes_of(
        ls,
        cfg,
        ls.len() as int,
    )
}

/// The file's total size.
pub open spec fn total_size_of(ls: Seq<LeafModel>, cfg: BuilderConfigModel) -> int {
    data_start_of(ls, cfg) + stored_prefix_of(ls, cfg, ls.len() as int)
}

/// Bytes the registry's first `i` rows take.
pub open spec fn reg_prefix_of(ls: Seq<LeafModel>, cfg: BuilderConfigModel, i: int) -> int
    decreases i,
{
    if i <= 0 {
        0
    } else {
        reg_prefix_of(ls, cfg, i - 1) + row_size_of(ls[i - 1], cfg)
    }
}

/// A registry prefix and the matching suffix make the whole registry.
pub proof fn lemma_reg_prefix_total(ls: Seq<LeafModel>, cfg: BuilderConfigModel, i: int)
    requires
        0 <= i <= ls.len(),
    ensures
        reg_prefix_of(ls, cfg, i) + reg_size_from(ls, cfg, i) == reg_size_of(ls, cfg),
    decreases i,
{
    if i > 0 {
        lemma_reg_prefix_total(ls, cfg, i - 1);
    }
}

// ---------------------------------------------------------------------------
// The conditions under which dump succeeds
// ---------------------------------------------------------------------------

/// Every id is strictly shorter than u16::MAX bytes — the writer's
/// boundary, one under what the registry's length field could carry.
pub open spec fn ids_fit(ls: Seq<LeafModel>) -> bool {
    forall|i: int| 0 <= i < ls.len() ==> encode_utf8((#[trigger] ls[i]).id).len() < 0xFFFF
}

/// Every leaf that asks for encryption has a key to derive from.
pub open spec fn keys_ok(ls: Seq<LeafModel>, cfg: BuilderConfigModel) -> bool {
    forall|i: int| 0 <= i < ls.len() ==> ((#[trigger] ls[i]).encrypt ==> cfg.keypair is Some)
}

/// Every plaintext handed to the cipher is under its length cap.
pub open spec fn plains_fit(ls: Seq<LeafModel>) -> bool {
    forall|i: int|
        0 <= i < ls.len() ==> ((#[trigger] ls[i]).encrypt ==> plain_of(ls[i]).len()
            < MAX_PLAINTEXT_LENGTH)
}

/// The leaf count fits the header's two-byte capacity field.
pub open spec fn capacity_fits(ls: Seq<LeafModel>) -> bool {
    ls.len() <= 0xFFFF
}

/// The laid-out file fits addressable memory.
pub open spec fn size_fits(ls: Seq<LeafModel>, cfg: BuilderConfigModel) -> bool {
    total_size_of(ls, cfg) <= usize::MAX
}

/// Everything `dump` checks before it succeeds.
pub open spec fn dump_ok(ls: Seq<LeafModel>, cfg: BuilderConfigModel) -> bool {
    &&& ids_fit(ls)
    &&& keys_ok(ls, cfg)
    &&& plains_fit(ls)
    &&& capacity_fits(ls)
    &&& size_fits(ls, cfg)
}

/// The facts the writer earns for the `i`-th leaf at its compression,
/// encryption and signing calls — everything reading the entry back
/// rests on.
pub open spec fn round_trip_fact_at(ls: Seq<LeafModel>, cfg: BuilderConfigModel, i: int) -> bool {
    let l = ls[i];
    &&& entry_wf(entry_at(ls, cfg, i))
    &&& (keeps_compressed(l) ==> decompress_of(
        l.compression_algo,
        compress_of(l.compression_algo, l.data),
    ) == Some(l.data))
    &&& (l.encrypt ==> cfg.keypair is Some && decrypt_under(
        writer_vk(cfg),
        cfg.magic,
        stored_of(l, cfg),
    ) == Some(plain_of(l)))
    &&& (is_signed(l, cfg) ==> ed_verify_of(
        writer_vk(cfg),
        sig_message_of(l, cfg, location_of(ls, cfg, i) as u64),
        ed_sign_of(cfg.keypair->Some_0, sig_message_of(l, cfg, location_of(ls, cfg, i) as u64)),
    ))
}

/// The writer's facts, for every leaf.
pub open spec fn round_trip_facts(ls: Seq<LeafModel>, cfg: BuilderConfigModel) -> bool {
    forall|i: int| 0 <= i < ls.len() ==> round_trip_fact_at(ls, cfg, i)
}

// ---------------------------------------------------------------------------
// The committed flags, bit by bit
// ---------------------------------------------------------------------------

/// COMPRESSED is set exactly when one algorithm bit is set.
pub open spec fn compression_flags_wf(f: u32) -> bool {
    (f & Flags::COMPRESSED_FLAG != 0) <==> ((f & Flags::LZ4_COMPRESSED != 0 && f
        & Flags::BROTLI_COMPRESSED == 0 && f & Flags::SNAPPY_COMPRESSED == 0) || (f
        & Flags::LZ4_COMPRESSED == 0 && f & Flags::BROTLI_COMPRESSED != 0 && f
        & Flags::SNAPPY_COMPRESSED == 0) || (f & Flags::LZ4_COMPRESSED == 0 && f
        & Flags::BROTLI_COMPRESSED == 0 && f & Flags::SNAPPY_COMPRESSED != 0))
}

/// How each format bit of the committed flags reads back.
pub proof fn lemma_entry_flags(l: LeafModel, signed: bool)
    ensures
        entry_flags_of(l, signed) & Flags::COMPRESSED_FLAG != 0 <==> keeps_compressed(l),
        entry_flags_of(l, signed) & Flags::LZ4_COMPRESSED != 0 <==> (keeps_compressed(l)
            && l.compression_algo is LZ4),
        entry_flags_of(l, signed) & Flags::BROTLI_COMPRESSED != 0 <==> (keeps_compressed(l)
            && l.compression_algo is Brotli),
        entry_flags_of(l, signed) & Flags::SNAPPY_COMPRESSED != 0 <==> (keeps_compressed(l)
            && l.compression_algo is Snappy),
        entry_flags_of(l, signed) & Flags::ENCRYPTED_FLAG != 0 <==> l.encrypt,
        entry_flags_of(l, signed) & Flags::SIGNED_FLAG != 0 <==> signed,
        entry_flags_of(l, signed) & !Flags::SIGNED_FLAG == entry_flags_of(l, false),
        entry_flags_of(l, signed) & 0x0000FFFF == l.flags & 0x0000FFFF,
        compression_flags_wf(entry_flags_of(l, signed)),
{
    let lf: u32 = l.flags;
    let lo = lf & 0x0000FFFF;
    let cm = or_if(keeps_compressed(l), Flags::COMPRESSED_FLAG);
    let al = or_if(keeps_compressed(l), algo_bit(l.compression_algo));
    let en = or_if(l.encrypt, Flags::ENCRYPTED_FLAG);
    let sg = or_if(signed, Flags::SIGNED_FLAG);
    let f = entry_flags_of(l, signed);
    assert(f == lo | cm | al | en | sg);
    assert(lo & 0xFFFF0000u32 == 0) by (bit_vector)
        requires
            lo == lf & 0x0000FFFFu32,
    ;
    assert((lo | cm | al | en | sg) & 0x80000000u32 == cm && (lo | cm | al | en | sg)
        & 0x04000000u32 == en && (lo | cm | al | en | sg) & 0x08000000u32 == sg && ((al
        == 0x40000000u32 ==> (lo | cm | al | en | sg) & 0x40000000u32 == 0x40000000u32) && (al
        != 0x40000000u32 ==> (lo | cm | al | en | sg) & 0x40000000u32 == 0u32)) && ((al
        == 0x20000000u32 ==> (lo | cm | al | en | sg) & 0x20000000u32 == 0x20000000u32) && (al
        != 0x20000000u32 ==> (lo | cm | al | en | sg) & 0x20000000u32 == 0u32)) && ((al
        == 0x10000000u32 ==> (lo | cm | al | en | sg) & 0x10000000u32 == 0x10000000u32) && (al
        != 0x10000000u32 ==> (lo | cm | al | en | sg) & 0x10000000u32 == 0u32)) && (lo | cm | al
        | en | sg) & !0x08000000u32 == (lo | cm | al | en | 0u32) && (lo | cm | al | en | sg)
        & 0x0000FFFFu32 == lo) by (bit_vector)
        requires
            lo & 0xFFFF0000u32 == 0,
            cm == 0u32 || cm == 0x80000000u32,
            al == 0u32 || al == 0x40000000u32 || al == 0x20000000u32 || al == 0x10000000u32,
            en == 0u32 || en == 0x04000000u32,
            sg == 0u32 || sg == 0x08000000u32,
    ;
    assert(lo & 0x0000FFFFu32 == lo) by (bit_vector)
        requires
            lo & 0xFFFF0000u32 == 0,
    ;
    assert(entry_flags_of(l, false) == lo | cm | al | en | or_if(false, Flags::SIGNED_FLAG));
}

// ---------------------------------------------------------------------------
// The reader's pipeline, as mathematics
// ---------------------------------------------------------------------------

/// What the reader's pipeline yields for one entry's raw bytes.
pub ghost enum DecodeOutcome {
    /// The decoded bytes and whether the signature verified.
    Decoded(Seq<u8>, bool),
    /// The entry is encrypted and no key is configured.
    NeedsKey,
    /// The cipher refused the stored bytes.
    CipherRefused,
    /// COMPRESSED is set but no algorithm bit is.
    NoAlgorithm,
    /// The decompressor refused the bytes.
    Corrupt,
}

/// Whether the entry authenticates: a key is configured, the entry
/// carries a signature, and it verifies over the raw bytes followed by
/// the entry's canonical unsigned record.
pub open spec fn authenticated_of(e: EntryModel, raw: Seq<u8>, key: Option<Seq<u8>>) -> bool {
    &&& key is Some
    &&& e.signature is Some
    &&& ed_verify_of(
        key->Some_0,
        raw + entry_record_bytes(unsigned_view(e), false),
        e.signature->Some_0,
    )
}

/// The decompression stage: picks the algorithm from the entry's bits.
pub open spec fn decode_stage2(e: EntryModel, d: Seq<u8>, auth: bool) -> DecodeOutcome {
    if e.flags & Flags::COMPRESSED_FLAG != 0 {
        if e.flags & Flags::LZ4_COMPRESSED != 0 {
            match crate::compressor::lz4_decompressed(d) {
                Some(x) => DecodeOutcome::Decoded(x, auth),
                None => DecodeOutcome::Corrupt,
            }
        } else if e.flags & Flags::BROTLI_COMPRESSED != 0 {
            match crate::compressor::brotli_decompressed(d) {
                Some(x) => DecodeOutcome::Decoded(x, auth),
                None => DecodeOutcome::Corrupt,
            }
        } else if e.flags & Flags::SNAPPY_COMPRESSED != 0 {
            match crate::compressor::snappy_decompressed(d) {
                Some(x) => DecodeOutcome::Decoded(x, auth),
                None => DecodeOutcome::Corrupt,
            }
        } else {
            DecodeOutcome::NoAlgorithm
        }
    } else {
        DecodeOutcome::Decoded(d, auth)
    }
}

/// The whole reader pipeline over one entry's raw stored bytes:
/// signature verification first (advisory, never an error), then
/// decryption, then decompression.
pub open spec fn decode_entry(
    e: EntryModel,
    raw: Seq<u8>,
    key: Option<Seq<u8>>,
    magic: Seq<u8>,
) -> DecodeOutcome {
    let auth = authenticated_of(e, raw, key);
    if e.flags & Flags::ENCRYPTED_FLAG != 0 {
        match key {
            None => DecodeOutcome::NeedsKey,
            Some(k) => match decrypt_under(k, magic, raw) {
                None => DecodeOutcome::CipherRefused,
                Some(d) => decode_stage2(e, d, auth),
            },
        }
    } else {
        decode_stage2(e, raw, auth)
    }
}

/// Reading back what the writer stored yields the original bytes, with
/// `authenticated` exactly on signed entries read under a key.
///
/// The round-trip `requires` are the facts the writer gathers at its
/// compression, encryption and signing calls.
pub proof fn lemma_decode_of_encoded(
    l: LeafModel,
    cfg: BuilderConfigModel,
    location: u64,
    rkey: Option<Seq<u8>>,
)
    requires
        keeps_compressed(l) ==> decompress_of(l.compression_algo, compress_of(l.compression_algo, l.data))
            == Some(l.data),
        l.encrypt ==> cfg.keypair is Some && decrypt_under(writer_vk(cfg), cfg.magic, stored_of(l, cfg))
            == Some(plain_of(l)),
        is_signed(l, cfg) ==> ed_verify_of(
            writer_vk(cfg),
            sig_message_of(l, cfg, location),
            ed_sign_of(cfg.keypair->Some_0, sig_message_of(l, cfg, location)),
        ),
        rkey == Some(writer_vk(cfg)) || (rkey is None && !l.encrypt),
    ensures
        decode_entry(entry_of(l, cfg, location), stored_of(l, cfg), rkey, cfg.magic)
            == DecodeOutcome::Decoded(l.data, rkey is Some && is_signed(l, cfg)),
{
    let e = entry_of(l, cfg, location);
    let u = unsigned_entry_of(l, cfg, location);
    let stored = stored_of(l, cfg);
    let signed = is_signed(l, cfg);
    lemma_entry_flags(l, signed);
    assert(e.flags == entry_flags_of(l, signed));
    assert(unsigned_view(e) == u);
    let auth = authenticated_of(e, stored, rkey);
    if signed {
        assert(stored + entry_record_bytes(u, false) == sig_message_of(l, cfg, location));
        assert(auth == (rkey is Some));
    } else {
        assert(e.signature is None);
        assert(!auth);
    }
    if l.encrypt {
        assert(e.flags & Flags::ENCRYPTED_FLAG != 0);
        assert(rkey == Some(writer_vk(cfg)));
        assert(decrypt_under(writer_vk(cfg), cfg.magic, stored) == Some(plain_of(l)));
        assert(decode_entry(e, stored, rkey, cfg.magic) == decode_stage2(e, plain_of(l), auth));
    } else {
        assert(e.flags & Flags::ENCRYPTED_FLAG == 0);
        assert(decode_entry(e, stored, rkey, cfg.magic) == decode_stage2(e, stored, auth));
        assert(stored == plain_of(l));
    }
    if keeps_compressed(l) {
        assert(e.flags & Flags::COMPRESSED_FLAG != 0);
        match l.compression_algo {
            CompressionAlgorithm::LZ4 => {
                assert(e.flags & Flags::LZ4_COMPRESSED != 0);
            },
            CompressionAlgorithm::Brotli(_) => {
                assert(e.flags & Flags::LZ4_COMPRESSED == 0);
                assert(e.flags & Flags::BROTLI_COMPRESSED != 0);
            },
            CompressionAlgorithm::Snappy => {
                assert(e.flags & Flags::LZ4_COMPRESSED == 0);
                assert(e.flags & Flags::BROTLI_COMPRESSED == 0);
                assert(e.flags & Flags::SNAPPY_COMPRESSED != 0);
            },
        }
        assert(decode_stage2(e, plain_of(l), auth) == DecodeOutcome::Decoded(l.data, auth));
    } else {
        assert(e.flags & Flags::COMPRESSED_FLAG == 0);
        assert(decode_stage2(e, plain_of(l), auth) == DecodeOutcome::Decoded(l.data, auth));
    }
}

// ---------------------------------------------------------------------------
// The laid-out file parses back to exactly what was written
// ---------------------------------------------------------------------------

/// Registry tails take no negative room.
pub proof fn lemma_reg_size_nonneg(ls: Seq<LeafModel>, cfg: BuilderConfigModel, from: int)
    ensures
        reg_size_from(ls, cfg, from) >= 0,
    decreases ls.len() - from,
{
    if 0 <= from && from < ls.len() {
        lemma_reg_size_nonneg(ls, cfg, from + 1);
    }
}

/// Stored prefixes take no negative room.
pub proof fn lemma_stored_prefix_nonneg(ls: Seq<LeafModel>, cfg: BuilderConfigModel, i: int)
    ensures
        stored_prefix_of(ls, cfg, i) >= 0,
    decreases i,
{
    if i > 0 {
        lemma_stored_prefix_nonneg(ls, cfg, i - 1);
    }
}

/// Stored prefixes grow with the index.
pub proof fn lemma_stored_prefix_mono(ls: Seq<LeafModel>, cfg: BuilderConfigModel, i: int, j: int)
    requires
        i <= j,
    ensures
        stored_prefix_of(ls, cfg, i) <= stored_prefix_of(ls, cfg, j),
    decreases j - i,
{
    if i < j {
        lemma_stored_prefix_mono(ls, cfg, i, j - 1);
    }
}

/// The data glob's first `i` segments take exactly the prefix sum.
pub proof fn lemma_globs_len(ls: Seq<LeafModel>, cfg: BuilderConfigModel, i: int)
    ensures
        globs_bytes_of(ls, cfg, i).len() == if i <= 0 {
            0int
        } else {
            stored_prefix_of(ls, cfg, i)
        },
    decreases i,
{
    if i > 0 {
        lemma_globs_len(ls, cfg, i - 1);
    }
}

/// The registry rows from the `k`-th entry on take exactly the room the
/// writer precomputed for them.
pub proof fn lemma_rows_len_from(ls: Seq<LeafModel>, cfg: BuilderConfigModel, k: int)
    requires
        0 <= k <= ls.len(),
        forall|i: int| 0 <= i < ls.len() ==> entry_wf(#[trigger] entry_at(ls, cfg, i)),
    ensures
        rows_bytes_of(entries_of(ls, cfg).skip(k)).len() == reg_size_from(ls, cfg, k),
    decreases ls.len() - k,
{
    let es = entries_of(ls, cfg);
    if k == ls.len() {
        assert(es.skip(k) =~= Seq::<EntryModel>::empty());
    } else {
        let e = entry_at(ls, cfg, k);
        assert(es.skip(k)[0] == es[k]);
        assert(es.skip(k).drop_first() =~= es.skip(k + 1));
        lemma_rows_len_from(ls, cfg, k + 1);
        assert(entry_record_bytes(e, true).len() == row_size_of(ls[k], cfg)) by {
            if is_signed(ls[k], cfg) {
                assert(e.signature matches Some(s) && s.len() == 64);
            } else {
                assert(e.signature is None);
            }
        }
    }
}

/// The `i`-th stored segment lies in the glob at its prefix offset.
pub proof fn lemma_glob_slice(ls: Seq<LeafModel>, cfg: BuilderConfigModel, i: int, n: int)
    requires
        0 <= i < n,
    ensures
        globs_bytes_of(ls, cfg, n).subrange(
            stored_prefix_of(ls, cfg, i),
            stored_prefix_of(ls, cfg, i) + stored_of(ls[i], cfg).len(),
        ) =~= stored_of(ls[i], cfg),
    decreases n,
{
    lemma_stored_prefix_nonneg(ls, cfg, i);
    let g = globs_bytes_of(ls, cfg, n);
    let gprev = globs_bytes_of(ls, cfg, n - 1);
    if i == n - 1 {
        lemma_globs_len(ls, cfg, n - 1);
        assert(g =~= gprev + stored_of(ls[i], cfg) + Seq::<u8>::empty());
        crate::format::lemma_concat_field(g, gprev, stored_of(ls[i], cfg), Seq::empty());
    } else {
        lemma_glob_slice(ls, cfg, i, n - 1);
        lemma_globs_len(ls, cfg, n - 1);
        lemma_stored_prefix_mono(ls, cfg, i + 1, n - 1);
        crate::format::lemma_concat_subrange_left(
            gprev,
            stored_of(ls[n - 1], cfg),
            stored_prefix_of(ls, cfg, i),
            stored_prefix_of(ls, cfg, i) + stored_of(ls[i], cfg).len(),
        );
    }
}

/// The whole file parses back: the header, then every committed entry,
/// and each entry's stored bytes lie exactly at its recorded location.
pub proof fn lemma_archive_bytes_parse(ls: Seq<LeafModel>, cfg: BuilderConfigModel)
    requires
        cfg.wf(),
        capacity_fits(ls),
        forall|i: int| 0 <= i < ls.len() ==> entry_wf(#[trigger] entry_at(ls, cfg, i)),
    ensures
        crate::format::parse_archive(archive_bytes_of(ls, cfg), cfg.magic)
            == crate::format::ArchiveParse::Parsed(header_of(ls, cfg), entries_of(ls, cfg)),
        archive_bytes_of(ls, cfg).len() == total_size_of(ls, cfg),
        forall|i: int|
            0 <= i < ls.len() ==> archive_bytes_of(ls, cfg).subrange(
                location_of(ls, cfg, i),
                location_of(ls, cfg, i) + stored_of(ls[i], cfg).len(),
            ) == stored_of(ls[i], cfg),
{
    let b = archive_bytes_of(ls, cfg);
    let h = header_of(ls, cfg);
    let hb = header_bytes(h);
    let es = entries_of(ls, cfg);
    let rows = rows_bytes_of(es);
    let globs = globs_bytes_of(ls, cfg, ls.len() as int);
    assert(hb.len() == 13);
    lemma_rows_len_from(ls, cfg, 0);
    assert(es.skip(0) =~= es);
    assert(rows.len() == reg_size_of(ls, cfg));
    lemma_globs_len(ls, cfg, ls.len() as int);
    lemma_stored_prefix_nonneg(ls, cfg, ls.len() as int);
    lemma_reg_size_nonneg(ls, cfg, 0);
    assert(b.len() == total_size_of(ls, cfg));

    assert(b =~= Seq::<u8>::empty() + hb + (rows + globs));
    crate::format::lemma_concat_field(b, Seq::empty(), hb, rows + globs);
    crate::format::lemma_parse_header_of_bytes(b, h);
    assert(h.capacity as int == ls.len());

    assert(b =~= hb + rows + globs);
    crate::format::lemma_concat_field(b, hb, rows, globs);
    crate::format::lemma_parse_entries_of_rows(b, 13, es);

    assert(b =~= (hb + rows) + globs + Seq::<u8>::empty());
    crate::format::lemma_concat_field(b, hb + rows, globs, Seq::empty());
    let gpos = 13 + reg_size_of(ls, cfg);
    assert((hb + rows).len() == gpos);
    assert forall|i: int| 0 <= i < ls.len() implies b.subrange(
        location_of(ls, cfg, i),
        location_of(ls, cfg, i) + stored_of(ls[i], cfg).len(),
    ) == stored_of(ls[i], cfg) by {
        let pre = stored_prefix_of(ls, cfg, i);
        let slen = stored_of(ls[i], cfg).len() as int;
        lemma_glob_slice(ls, cfg, i, ls.len() as int);
        lemma_stored_prefix_nonneg(ls, cfg, i);
        lemma_stored_prefix_mono(ls, cfg, i + 1, ls.len() as int);
        crate::format::lemma_subrange_of_equal_range(b, globs, gpos, pre, pre + slen);
    }
}

/// Law: what the reader reports as `authenticated` is exactly the
/// signature check — a key is configured, the entry carries a
/// signature, and it verifies over the raw stored bytes followed by the
/// entry's canonical unsigned record. A failed check never blocks
/// decoding; it only clears the bit.
pub proof fn lemma_authentication_is_signature_check(
    e: EntryModel,
    raw: Seq<u8>,
    key: Option<Seq<u8>>,
    magic: Seq<u8>,
)
    ensures
        decode_entry(e, raw, key, magic) matches DecodeOutcome::Decoded(d, auth) ==> auth
            == authenticated_of(e, raw, key),
{
}

/// Law: every entry the writer commits has COMPRESSED set exactly when
/// exactly one compression algorithm bit is set.
pub proof fn lemma_compression_flag_invariant(
    l: LeafModel,
    cfg: BuilderConfigModel,
    location: u64,
)
    ensures
        compression_flags_wf(entry_of(l, cfg, location).flags),
{
    lemma_entry_flags(l, is_signed(l, cfg));
}

/// Law: an unencrypted Detect-compressed entry stores strictly fewer
/// bytes than its original exactly when COMPRESSED is set, and exactly
/// the original bytes otherwise. (Encryption adds the cipher's 16-byte
/// tag on top, so the law is stated of unencrypted entries.)
pub proof fn lemma_detect_policy(l: LeafModel, cfg: BuilderConfigModel, location: u64)
    requires
        l.compress is Detect,
        !l.encrypt,
    ensures
        entry_of(l, cfg, location).flags & Flags::COMPRESSED_FLAG != 0 ==> stored_of(l, cfg).len()
            < l.data.len(),
        entry_of(l, cfg, location).flags & Flags::COMPRESSED_FLAG == 0 ==> stored_of(l, cfg)
            == l.data,
{
    lemma_entry_flags(l, is_signed(l, cfg));
}

} // verus!
