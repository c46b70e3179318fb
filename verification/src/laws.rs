//! The library's laws, stated across the writer and the reader: the
//! archive the builder emits parses back whole, every entry fetched
//! returns the bytes that went in, signed entries authenticate under
//! the writer's public key, and the directory holds exactly one entry
//! per distinct id. The per-function laws stand with their subjects:
//! flag access with `Flags::set` and `Flags::force_set`, the Detect
//! policy and the compression-flag invariant beside the pipeline model.

use vstd::prelude::*;
use crate::archive::{fetch_of, ArchiveModel, FetchOutcome};
use crate::format::{
    dedup_entries, ids_of, last_index_of_id, lemma_dedup_count, lemma_last_index_of,
    lemma_lookup_dedup, lookup_entry, parse_archive, ArchiveParse,
};
use crate::leaf::LeafModel;
use crate::pipeline::{
    archive_bytes_of, dump_ok, entries_of, entry_at, header_of, is_signed, lemma_archive_bytes_parse,
    lemma_decode_of_encoded, lemma_reg_size_nonneg, lemma_stored_prefix_mono,
    lemma_stored_prefix_nonneg, location_of, round_trip_fact_at, round_trip_facts, stored_of,
    total_size_of, writer_vk, BuilderConfigModel,
};
use crate::resource::ResourceModel;

verus! {

/// The ids of the queued leaves, in order.
pub open spec fn leaf_ids_of(ls: Seq<LeafModel>) -> Seq<Seq<char>> {
    ls.map(|i: int, l: LeafModel| l.id)
}

/// The archive a reader holds after loading what the builder wrote:
/// the emitted bytes under the writer's magic, with the reader's key.
pub open spec fn written_archive(
    ls: Seq<LeafModel>,
    cfg: BuilderConfigModel,
    rkey: Option<Seq<u8>>,
) -> ArchiveModel {
    ArchiveModel {
        source: archive_bytes_of(ls, cfg),
        magic: cfg.magic,
        key: rkey,
        header: header_of(ls, cfg),
        entries: dedup_entries(entries_of(ls, cfg)),
    }
}

/// Law: the round trip. Load what the builder wrote — under the same
/// magic, and under the writer's public key or, for unencrypted
/// entries, no key — and fetching the id of any leaf yields exactly
/// that leaf's original bytes, whatever combination of compression
/// algorithm, compression mode, encryption and signing it asked for.
/// `authenticated` is true exactly on signed entries read under a key.
/// On a repeated id the last leaf added wins; `i` is that leaf's index.
///
/// The `requires` are just what `Builder::dump` ensures on success.
pub proof fn lemma_builder_read_back(
    ls: Seq<LeafModel>,
    cfg: BuilderConfigModel,
    rkey: Option<Seq<u8>>,
    i: int,
)
    requires
        cfg.wf(),
        dump_ok(ls, cfg),
        round_trip_facts(ls, cfg),
        0 <= i < ls.len(),
        forall|j: int| i < j < ls.len() ==> (#[trigger] ls[j]).id != ls[i].id,
        rkey == Some(writer_vk(cfg)) || (rkey is None && !ls[i].encrypt),
    ensures
        parse_archive(archive_bytes_of(ls, cfg), cfg.magic) == ArchiveParse::Parsed(
            header_of(ls, cfg),
            entries_of(ls, cfg),
        ),
        fetch_of(written_archive(ls, cfg, rkey), ls[i].id) == FetchOutcome::Fetched(
            ResourceModel {
                data: ls[i].data,
                flags: entry_at(ls, cfg, i).flags,
                content_version: ls[i].content_version,
                authenticated: rkey is Some && is_signed(ls[i], cfg),
            },
        ),
{
    assert forall|j: int| 0 <= j < ls.len() implies crate::format::entry_wf(
        #[trigger] entry_at(ls, cfg, j),
    ) by {
        assert(round_trip_fact_at(ls, cfg, j));
    }
    lemma_archive_bytes_parse(ls, cfg);
    let es = entries_of(ls, cfg);
    let id = ls[i].id;

    assert(last_index_of_id(es, id) == i) by {
        lemma_last_index_of(es, id);
        assert(es[i].id == id);
        let last = last_index_of_id(es, id);
        if last < i {
            assert(es[i].id != id);
        }
        if last > i {
            assert(ls[last].id != id);
            assert(es[last].id == ls[last].id);
        }
    }
    lemma_lookup_dedup(es, id);
    let e = entry_at(ls, cfg, i);
    assert(lookup_entry(dedup_entries(es), id) == Some(e));

    lemma_reg_size_nonneg(ls, cfg, 0);
    lemma_stored_prefix_nonneg(ls, cfg, i);
    lemma_stored_prefix_mono(ls, cfg, i + 1, ls.len() as int);
    assert(location_of(ls, cfg, i) + stored_of(ls[i], cfg).len() <= total_size_of(ls, cfg));
    assert(e.location as int == location_of(ls, cfg, i));
    assert(e.offset as int == stored_of(ls[i], cfg).len());
    let am = written_archive(ls, cfg, rkey);
    assert(am.source.subrange(e.location as int, e.location + e.offset) == stored_of(
        ls[i],
        cfg,
    ));

    assert(round_trip_fact_at(ls, cfg, i));
    lemma_decode_of_encoded(ls[i], cfg, e.location, rkey);
}

/// Law: authentication. For an archive the builder wrote under a
/// signing key, reading under the derived verifying key yields
/// `authenticated == true` for exactly the leaves that asked to be
/// signed: a signed, untampered entry authenticates, an unsigned one
/// never does. (That any tampering clears the bit is Ed25519
/// unforgeability, which no contract here can soundly state; the test
/// suite exercises it at run time.)
pub proof fn lemma_signed_entries_authenticate(
    ls: Seq<LeafModel>,
    cfg: BuilderConfigModel,
    i: int,
)
    requires
        cfg.wf(),
        cfg.keypair is Some,
        dump_ok(ls, cfg),
        round_trip_facts(ls, cfg),
        0 <= i < ls.len(),
        forall|j: int| i < j < ls.len() ==> (#[trigger] ls[j]).id != ls[i].id,
    ensures
        fetch_of(written_archive(ls, cfg, Some(writer_vk(cfg))), ls[i].id)
            matches FetchOutcome::Fetched(rm) && rm.authenticated == ls[i].sign,
{
    lemma_builder_read_back(ls, cfg, Some(writer_vk(cfg)), i);
}

/// Law: directory size. The loaded directory holds exactly one entry
/// per distinct id among the leaves the builder wrote.
pub proof fn lemma_entry_count(ls: Seq<LeafModel>, cfg: BuilderConfigModel)
    ensures
        dedup_entries(entries_of(ls, cfg)).len() == leaf_ids_of(ls).to_set().len(),
{
    lemma_dedup_count(entries_of(ls, cfg));
    assert(ids_of(entries_of(ls, cfg)) =~= leaf_ids_of(ls));
}

} // verus!
