//! The byte-exact model of the on-disk format: little-endian integer
//! codecs, the mathematical models of headers and registry entries, the
//! serialization of each, and the parse functions the reader is proved
//! against. Serialization and parsing are proved inverse here.

use vstd::prelude::*;
use vstd::utf8::{encode_utf8, decode_utf8, valid_utf8};
use crate::flags::Flags;

verus! {

// ---------------------------------------------------------------------------
// Little-endian integer codecs
// ---------------------------------------------------------------------------

/// The two little-endian bytes of `x`.
pub open spec fn u16_le(x: u16) -> Seq<u8> {
    seq![(x & 0xff) as u8, ((x >> 8) & 0xff) as u8]
}

/// The four little-endian bytes of `x`.
pub open spec fn u32_le(x: u32) -> Seq<u8> {
    seq![
        (x & 0xff) as u8,
        ((x >> 8) & 0xff) as u8,
        ((x >> 16) & 0xff) as u8,
        ((x >> 24) & 0xff) as u8,
    ]
}

/// The eight little-endian bytes of `x`.
pub open spec fn u64_le(x: u64) -> Seq<u8> {
    seq![
        (x & 0xff) as u8,
        ((x >> 8) & 0xff) as u8,
        ((x >> 16) & 0xff) as u8,
        ((x >> 24) & 0xff) as u8,
        ((x >> 32) & 0xff) as u8,
        ((x >> 40) & 0xff) as u8,
        ((x >> 48) & 0xff) as u8,
        ((x >> 56) & 0xff) as u8,
    ]
}

/// The `u16` read little-endian from two bytes.
pub open spec fn u16_of_le(b: Seq<u8>) -> u16
    recommends
        b.len() == 2,
{
    (b[0] as u16) | ((b[1] as u16) << 8)
}

/// The `u32` read little-endian from four bytes.
pub open spec fn u32_of_le(b: Seq<u8>) -> u32
    recommends
        b.len() == 4,
{
    (b[0] as u32) | ((b[1] as u32) << 8) | ((b[2] as u32) << 16) | ((b[3] as u32) << 24)
}

/// The `u64` read little-endian from eight bytes.
pub open spec fn u64_of_le(b: Seq<u8>) -> u64
    recommends
        b.len() == 8,
{
    (b[0] as u64) | ((b[1] as u64) << 8) | ((b[2] as u64) << 16) | ((b[3] as u64) << 24)
        | ((b[4] as u64) << 32) | ((b[5] as u64) << 40) | ((b[6] as u64) << 48)
        | ((b[7] as u64) << 56)
}

/// Reading back the little-endian bytes of a `u16` recovers it.
pub proof fn lemma_u16_le_round_trip(x: u16)
    ensures
        u16_of_le(u16_le(x)) == x,
{
    assert((((x & 0xff) as u8) as u16) | (((((x >> 8) & 0xff) as u8) as u16) << 8) == x)
        by (bit_vector);
}

/// Reading back the little-endian bytes of a `u32` recovers it.
pub proof fn lemma_u32_le_round_trip(x: u32)
    ensures
        u32_of_le(u32_le(x)) == x,
{
    assert((((x & 0xff) as u8) as u32) | (((((x >> 8) & 0xff) as u8) as u32) << 8)
        | (((((x >> 16) & 0xff) as u8) as u32) << 16) | (((((x >> 24) & 0xff) as u8) as u32) << 24)
        == x) by (bit_vector);
}

/// Reading back the little-endian bytes of a `u64` recovers it.
pub proof fn lemma_u64_le_round_trip(x: u64)
    ensures
        u64_of_le(u64_le(x)) == x,
{
    assert((((x & 0xff) as u8) as u64) | (((((x >> 8) & 0xff) as u8) as u64) << 8)
        | (((((x >> 16) & 0xff) as u8) as u64) << 16) | (((((x >> 24) & 0xff) as u8) as u64) << 24)
        | (((((x >> 32) & 0xff) as u8) as u64) << 32) | (((((x >> 40) & 0xff) as u8) as u64) << 40)
        | (((((x >> 48) & 0xff) as u8) as u64) << 48) | (((((x >> 56) & 0xff) as u8) as u64) << 56)
        == x) by (bit_vector);
}

// ---------------------------------------------------------------------------
// Models of the header and of a registry entry
// ---------------------------------------------------------------------------

/// The mathematical model of an archive header.
pub ghost struct HeaderModel {
    pub magic: Seq<u8>,
    pub flags: u32,
    pub arch_version: u16,
    pub capacity: u16,
}

/// The mathematical model of one registry entry, id included.
pub ghost struct EntryModel {
    pub flags: u32,
    pub content_version: u8,
    pub location: u64,
    pub offset: u64,
    pub signature: Option<Seq<u8>>,
    pub id: Seq<char>,
}

/// The UTF-8 bytes of an entry's id, as written to the registry.
pub open spec fn entry_id_bytes(e: EntryModel) -> Seq<u8> {
    encode_utf8(e.id)
}

/// Structural well-formedness of an entry: the id fits the registry's
/// two-byte length field, and the SIGNED bit and the signature agree.
pub open spec fn entry_wf(e: EntryModel) -> bool {
    &&& entry_id_bytes(e).len() < 0x10000
    &&& (e.flags & Flags::SIGNED_FLAG != 0 <==> e.signature is Some)
    &&& (e.signature matches Some(s) ==> s.len() == 64)
}

/// The canonical serialization of an entry record followed by its id
/// bytes. With `include_signature` false the signature bytes are left
/// out; this is the form a signature is computed over.
pub open spec fn entry_record_bytes(e: EntryModel, include_signature: bool) -> Seq<u8> {
    u32_le(e.flags) + seq![e.content_version] + u64_le(e.location) + u64_le(e.offset)
        + u16_le(entry_id_bytes(e).len() as u16)
        + (if include_signature && e.signature is Some {
            e.signature->Some_0
        } else {
            Seq::<u8>::empty()
        }) + entry_id_bytes(e)
}

/// The entry as a signature covers it: SIGNED cleared, no signature.
pub open spec fn unsigned_view(e: EntryModel) -> EntryModel {
    EntryModel { flags: e.flags & !Flags::SIGNED_FLAG, signature: None, ..e }
}

/// The serialization of a header: magic, flags, version, capacity.
pub open spec fn header_bytes(h: HeaderModel) -> Seq<u8>
    recommends
        h.magic.len() == 5,
{
    h.magic + u32_le(h.flags) + u16_le(h.arch_version) + u16_le(h.capacity)
}

// ---------------------------------------------------------------------------
// Parsing
// ---------------------------------------------------------------------------

/// Parses the fixed header from the front of `b`; `None` when `b` is
/// too short to hold one.
pub open spec fn parse_header(b: Seq<u8>) -> Option<HeaderModel> {
    if b.len() >= 13 {
        Some(HeaderModel {
            magic: b.subrange(0, 5),
            flags: u32_of_le(b.subrange(5, 9)),
            arch_version: u16_of_le(b.subrange(9, 11)),
            capacity: u16_of_le(b.subrange(11, 13)),
        })
    } else {
        None
    }
}

/// Parses one registry entry at `pos`: the fixed prefix, then the
/// signature when the SIGNED bit is set, then the id. `None` when the
/// bytes run out or the id is not UTF-8.
pub open spec fn parse_entry(b: Seq<u8>, pos: int) -> Option<(EntryModel, int)> {
    if 0 <= pos && pos + 23 <= b.len() {
        let flags = u32_of_le(b.subrange(pos, pos + 4));
        let content_version = b[pos + 4];
        let location = u64_of_le(b.subrange(pos + 5, pos + 13));
        let offset = u64_of_le(b.subrange(pos + 13, pos + 21));
        let id_len = u16_of_le(b.subrange(pos + 21, pos + 23)) as int;
        let sig_len: int = if flags & Flags::SIGNED_FLAG != 0 {
            64
        } else {
            0
        };
        let id_start = pos + 23 + sig_len;
        if id_start + id_len <= b.len() {
            let signature = if flags & Flags::SIGNED_FLAG != 0 {
                Some(b.subrange(pos + 23, pos + 87))
            } else {
                None::<Seq<u8>>
            };
            let id_bytes = b.subrange(id_start, id_start + id_len);
            if valid_utf8(id_bytes) {
                Some((
                    EntryModel {
                        flags,
                        content_version,
                        location,
                        offset,
                        signature,
                        id: decode_utf8(id_bytes),
                    },
                    id_start + id_len,
                ))
            } else {
                None
            }
        } else {
            None
        }
    } else {
        None
    }
}

/// Parses `n` registry entries in sequence starting at `pos`.
pub open spec fn parse_entries(b: Seq<u8>, pos: int, n: int) -> Option<(Seq<EntryModel>, int)>
    decreases n,
{
    if n <= 0 {
        Some((Seq::empty(), pos))
    } else {
        match parse_entry(b, pos) {
            None => None,
            Some((e, p)) => match parse_entries(b, p, n - 1) {
                None => None,
                Some((rest, q)) => Some((seq![e] + rest, q)),
            },
        }
    }
}

/// Whatever parses is well-formed: the id read back fits the length
/// field it was read by, and the SIGNED bit matches the signature.
pub proof fn lemma_parse_entry_wf(b: Seq<u8>, pos: int)
    requires
        parse_entry(b, pos) is Some,
    ensures
        entry_wf(parse_entry(b, pos)->Some_0.0),
{
    broadcast use vstd::utf8::decode_utf8_encode_utf8;

    let e = parse_entry(b, pos)->Some_0.0;
    let id_len = u16_of_le(b.subrange(pos + 21, pos + 23)) as int;
    let sig_len: int = if e.flags & Flags::SIGNED_FLAG != 0 {
        64
    } else {
        0
    };
    let id_start = pos + 23 + sig_len;
    let id_bytes = b.subrange(id_start, id_start + id_len);
    assert(encode_utf8(decode_utf8(id_bytes)) == id_bytes);
    assert(entry_id_bytes(e).len() == id_len);
}

/// One more entry parses onto the end of a parsed run.
pub proof fn lemma_parse_entries_snoc(b: Seq<u8>, pos: int, n: int)
    requires
        n >= 0,
        parse_entries(b, pos, n) is Some,
        parse_entry(b, parse_entries(b, pos, n)->Some_0.1) is Some,
    ensures
        parse_entries(b, pos, n + 1) matches Some(w) && w.0 == parse_entries(
            b,
            pos,
            n,
        )->Some_0.0.push(parse_entry(b, parse_entries(b, pos, n)->Some_0.1)->Some_0.0) && w.1
            == parse_entry(b, parse_entries(b, pos, n)->Some_0.1)->Some_0.1,
    decreases n,
{
    let (es, q) = parse_entries(b, pos, n)->Some_0;
    let (e, q2) = parse_entry(b, q)->Some_0;
    if n == 0 {
        assert(es == Seq::<EntryModel>::empty() && q == pos);
        assert(parse_entries(b, q2, 0) == Some((Seq::<EntryModel>::empty(), q2)));
        assert(parse_entries(b, pos, 1) == Some((seq![e] + Seq::<EntryModel>::empty(), q2)));
        assert(seq![e] + Seq::<EntryModel>::empty() =~= es.push(e));
    } else {
        let (e0, p1) = parse_entry(b, pos)->Some_0;
        let (rest, _) = parse_entries(b, p1, n - 1)->Some_0;
        assert(es == seq![e0] + rest);
        lemma_parse_entries_snoc(b, p1, n - 1);
        assert(parse_entries(b, pos, n + 1) matches Some(w2) && w2.0 == seq![e0] + rest.push(e)
            && w2.1 == q2);
        assert(seq![e0] + rest.push(e) =~= (seq![e0] + rest).push(e));
    }
}

/// A run that parses up to a failing entry fails as a whole.
pub proof fn lemma_parse_entries_fail(b: Seq<u8>, pos: int, n: int, m: int)
    requires
        0 <= n < m,
        parse_entries(b, pos, n) is Some,
        parse_entry(b, parse_entries(b, pos, n)->Some_0.1) is None,
    ensures
        parse_entries(b, pos, m) is None,
    decreases n,
{
    let (es, q) = parse_entries(b, pos, n)->Some_0;
    if n == 0 {
        assert(q == pos);
    } else {
        let (e0, p1) = parse_entry(b, pos)->Some_0;
        lemma_parse_entries_fail(b, p1, n - 1, m - 1);
    }
}

/// The registry as written: each entry's record and id, in order.
pub open spec fn rows_bytes_of(es: Seq<EntryModel>) -> Seq<u8>
    decreases es.len(),
{
    if es.len() == 0 {
        Seq::empty()
    } else {
        entry_record_bytes(es[0], true) + rows_bytes_of(es.drop_first())
    }
}

/// The middle field of a three-way concatenation is the subrange at
/// the front part's length.
pub proof fn lemma_concat_field<A>(whole: Seq<A>, front: Seq<A>, fld: Seq<A>, back: Seq<A>)
    requires
        whole == front + fld + back,
    ensures
        whole.subrange(front.len() as int, front.len() as int + fld.len() as int) =~= fld,
{
}

/// When a range of `b` holds `r`, corresponding subranges agree.
pub proof fn lemma_subrange_of_equal_range<A>(b: Seq<A>, r: Seq<A>, pos: int, i: int, j: int)
    requires
        0 <= pos,
        pos + r.len() <= b.len(),
        b.subrange(pos, pos + r.len()) == r,
        0 <= i <= j <= r.len(),
    ensures
        b.subrange(pos + i, pos + j) =~= r.subrange(i, j),
{
    assert forall|k: int| 0 <= k < j - i implies b.subrange(pos + i, pos + j)[k] == r.subrange(
        i,
        j,
    )[k] by {
        assert(b.subrange(pos + i, pos + j)[k] == b[pos + i + k]);
        assert(r.subrange(i, j)[k] == r[i + k]);
        assert(b.subrange(pos, pos + r.len())[i + k] == b[pos + (i + k)]);
    }
}

/// A subrange lying in the left part of a concatenation.
pub proof fn lemma_concat_subrange_left<A>(a: Seq<A>, b: Seq<A>, i: int, j: int)
    requires
        0 <= i <= j <= a.len(),
    ensures
        (a + b).subrange(i, j) =~= a.subrange(i, j),
{
}

/// Parsing the front of a source holding a header's serialization
/// recovers exactly that header.
pub proof fn lemma_parse_header_of_bytes(b: Seq<u8>, h: HeaderModel)
    requires
        h.magic.len() == 5,
        13 <= b.len(),
        b.subrange(0, 13) =~= header_bytes(h),
    ensures
        parse_header(b) == Some(h),
{
    let r = header_bytes(h);
    let a2 = u32_le(h.flags);
    let a3 = u16_le(h.arch_version);
    let a4 = u16_le(h.capacity);
    assert(r == h.magic + a2 + a3 + a4);
    assert(r.len() == 13);

    assert(r =~= Seq::<u8>::empty() + h.magic + (a2 + a3 + a4));
    lemma_concat_field(r, Seq::empty(), h.magic, a2 + a3 + a4);
    lemma_subrange_of_equal_range(b, r, 0, 0, 5);
    assert(b.subrange(0, 5) == h.magic);

    assert(r =~= h.magic + a2 + (a3 + a4));
    lemma_concat_field(r, h.magic, a2, a3 + a4);
    lemma_subrange_of_equal_range(b, r, 0, 5, 9);
    lemma_u32_le_round_trip(h.flags);
    assert(u32_of_le(b.subrange(5, 9)) == h.flags);

    assert(r =~= (h.magic + a2) + a3 + a4);
    lemma_concat_field(r, h.magic + a2, a3, a4);
    lemma_subrange_of_equal_range(b, r, 0, 9, 11);
    lemma_u16_le_round_trip(h.arch_version);
    assert(u16_of_le(b.subrange(9, 11)) == h.arch_version);

    assert(r =~= (h.magic + a2 + a3) + a4 + Seq::<u8>::empty());
    lemma_concat_field(r, h.magic + a2 + a3, a4, Seq::empty());
    lemma_subrange_of_equal_range(b, r, 0, 11, 13);
    lemma_u16_le_round_trip(h.capacity);
    assert(u16_of_le(b.subrange(11, 13)) == h.capacity);
}

/// Parsing at a position holding a well-formed entry's serialization
/// recovers exactly that entry.
pub proof fn lemma_parse_entry_of_record(b: Seq<u8>, pos: int, e: EntryModel)
    requires
        entry_wf(e),
        0 <= pos,
        pos + entry_record_bytes(e, true).len() <= b.len(),
        b.subrange(pos, pos + entry_record_bytes(e, true).len()) =~= entry_record_bytes(e, true),
    ensures
        parse_entry(b, pos) == Some((e, pos + entry_record_bytes(e, true).len())),
{
    broadcast use vstd::utf8::encode_utf8_valid_utf8, vstd::utf8::encode_utf8_decode_utf8;

    let r = entry_record_bytes(e, true);
    let idb = entry_id_bytes(e);
    let sig: Seq<u8> = if e.signature is Some {
        e.signature->Some_0
    } else {
        Seq::empty()
    };
    let sig_len = sig.len() as int;
    let id_len = idb.len() as int;
    let a1 = u32_le(e.flags);
    let a2 = seq![e.content_version];
    let a3 = u64_le(e.location);
    let a4 = u64_le(e.offset);
    let a5 = u16_le(idb.len() as u16);
    assert(r == a1 + a2 + a3 + a4 + a5 + sig + idb);
    assert(r.len() == 23 + sig_len + id_len);

    assert(r =~= Seq::<u8>::empty() + a1 + (a2 + a3 + a4 + a5 + sig + idb));
    lemma_concat_field(r, Seq::empty(), a1, a2 + a3 + a4 + a5 + sig + idb);
    lemma_subrange_of_equal_range(b, r, pos, 0, 4);
    lemma_u32_le_round_trip(e.flags);
    assert(u32_of_le(b.subrange(pos, pos + 4)) == e.flags);

    assert(r =~= a1 + a2 + (a3 + a4 + a5 + sig + idb));
    lemma_concat_field(r, a1, a2, a3 + a4 + a5 + sig + idb);
    lemma_subrange_of_equal_range(b, r, pos, 4, 5);
    assert(b.subrange(pos + 4, pos + 5)[0] == b[pos + 4]);
    assert(b[pos + 4] == e.content_version);

    assert(r =~= (a1 + a2) + a3 + (a4 + a5 + sig + idb));
    lemma_concat_field(r, a1 + a2, a3, a4 + a5 + sig + idb);
    lemma_subrange_of_equal_range(b, r, pos, 5, 13);
    lemma_u64_le_round_trip(e.location);
    assert(u64_of_le(b.subrange(pos + 5, pos + 13)) == e.location);

    assert(r =~= (a1 + a2 + a3) + a4 + (a5 + sig + idb));
    lemma_concat_field(r, a1 + a2 + a3, a4, a5 + sig + idb);
    lemma_subrange_of_equal_range(b, r, pos, 13, 21);
    lemma_u64_le_round_trip(e.offset);
    assert(u64_of_le(b.subrange(pos + 13, pos + 21)) == e.offset);

    assert(r =~= (a1 + a2 + a3 + a4) + a5 + (sig + idb));
    lemma_concat_field(r, a1 + a2 + a3 + a4, a5, sig + idb);
    lemma_subrange_of_equal_range(b, r, pos, 21, 23);
    lemma_u16_le_round_trip(idb.len() as u16);
    assert(u16_of_le(b.subrange(pos + 21, pos + 23)) as int == id_len);

    let id_start = pos + 23 + sig_len;
    assert(id_start + id_len <= b.len());
    if e.signature is Some {
        assert(e.flags & Flags::SIGNED_FLAG != 0);
        assert(r =~= (a1 + a2 + a3 + a4 + a5) + sig + idb);
        lemma_concat_field(r, a1 + a2 + a3 + a4 + a5, sig, idb);
        lemma_subrange_of_equal_range(b, r, pos, 23, 87);
        assert(b.subrange(pos + 23, pos + 87) == sig);
    } else {
        assert(e.flags & Flags::SIGNED_FLAG == 0);
    }

    assert(r =~= (a1 + a2 + a3 + a4 + a5 + sig) + idb + Seq::<u8>::empty());
    lemma_concat_field(r, a1 + a2 + a3 + a4 + a5 + sig, idb, Seq::empty());
    lemma_subrange_of_equal_range(b, r, pos, 23 + sig_len, 23 + sig_len + id_len);
    assert(b.subrange(id_start, id_start + id_len) == idb);
    assert(valid_utf8(idb));
    assert(decode_utf8(idb) == e.id);
    let parsed = parse_entry(b, pos);
    assert(parsed matches Some(p) && p.0 == e && p.1 == pos + r.len());
}

/// Parsing a run of serialized well-formed entries recovers them all.
pub proof fn lemma_parse_entries_of_rows(b: Seq<u8>, pos: int, es: Seq<EntryModel>)
    requires
        forall|i: int| 0 <= i < es.len() ==> entry_wf(#[trigger] es[i]),
        0 <= pos,
        pos + rows_bytes_of(es).len() <= b.len(),
        b.subrange(pos, pos + rows_bytes_of(es).len()) =~= rows_bytes_of(es),
    ensures
        parse_entries(b, pos, es.len() as int) == Some((es, pos + rows_bytes_of(es).len())),
    decreases es.len(),
{
    if es.len() == 0 {
        assert(es =~= Seq::<EntryModel>::empty());
    } else {
        let rows = rows_bytes_of(es);
        let r0 = entry_record_bytes(es[0], true);
        let tail = es.drop_first();
        let rest = rows_bytes_of(tail);
        assert(rows == r0 + rest);
        assert(rows =~= Seq::<u8>::empty() + r0 + rest);
        lemma_concat_field(rows, Seq::empty(), r0, rest);
        lemma_subrange_of_equal_range(b, rows, pos, 0, r0.len() as int);
        lemma_parse_entry_of_record(b, pos, es[0]);
        assert(rows =~= r0 + rest + Seq::<u8>::empty());
        lemma_concat_field(rows, r0, rest, Seq::empty());
        lemma_subrange_of_equal_range(b, rows, pos, r0.len() as int, rows.len() as int);
        lemma_parse_entries_of_rows(b, pos + r0.len(), tail);
        assert(seq![es[0]] + tail =~= es);
    }
}

/// Appending an entry appends its record to the registry's bytes.
pub proof fn lemma_rows_bytes_push(es: Seq<EntryModel>, e: EntryModel)
    ensures
        rows_bytes_of(es.push(e)) == rows_bytes_of(es) + entry_record_bytes(e, true),
    decreases es.len(),
{
    if es.len() == 0 {
        assert(es.push(e)[0] == e);
        assert(es.push(e).drop_first() =~= Seq::<EntryModel>::empty());
        assert(rows_bytes_of(es.push(e)) == entry_record_bytes(e, true) + rows_bytes_of(
            Seq::<EntryModel>::empty(),
        ));
        assert(rows_bytes_of(es) =~= Seq::<u8>::empty());
        assert(entry_record_bytes(e, true) + Seq::<u8>::empty() =~= Seq::<u8>::empty()
            + entry_record_bytes(e, true));
    } else {
        assert(es.push(e)[0] == es[0]);
        assert(es.push(e).drop_first() =~= es.drop_first().push(e));
        lemma_rows_bytes_push(es.drop_first(), e);
        assert(rows_bytes_of(es.push(e)) == entry_record_bytes(es[0], true) + (rows_bytes_of(
            es.drop_first(),
        ) + entry_record_bytes(e, true)));
        assert(entry_record_bytes(es[0], true) + (rows_bytes_of(es.drop_first())
            + entry_record_bytes(e, true)) =~= (entry_record_bytes(es[0], true) + rows_bytes_of(
            es.drop_first(),
        )) + entry_record_bytes(e, true));
    }
}

/// What reading an archive prelude yields: the parsed header and raw
/// registry, or the reason the source was refused.
pub ghost enum ArchiveParse {
    Parsed(HeaderModel, Seq<EntryModel>),
    Truncated,
    BadMagic(Seq<u8>),
    BadVersion(u16),
}

/// Parses and validates a whole archive prelude against the expected
/// magic: header first, then `capacity` registry entries.
pub open spec fn parse_archive(b: Seq<u8>, magic: Seq<u8>) -> ArchiveParse {
    match parse_header(b) {
        None => ArchiveParse::Truncated,
        Some(h) => if h.magic != magic {
            ArchiveParse::BadMagic(h.magic)
        } else if h.arch_version != crate::VERSION {
            ArchiveParse::BadVersion(h.arch_version)
        } else {
            match parse_entries(b, 13, h.capacity as int) {
                None => ArchiveParse::Truncated,
                Some((es, _)) => ArchiveParse::Parsed(h, es),
            }
        },
    }
}

// ---------------------------------------------------------------------------
// Executable byte readers and writers
// ---------------------------------------------------------------------------

/// Appends all of `data` to `out`.
pub fn push_bytes(out: &mut Vec<u8>, data: &[u8])
    ensures
        final(out)@ == old(out)@ + data@,
{
    let mut i: usize = 0;
    while i < data.len()
        invariant
            i <= data@.len(),
            out@ == old(out)@ + data@.subrange(0, i as int),
        decreases data@.len() - i,
    {
        let b = *vstd::slice::slice_index_get(data, i);
        out.push(b);
        i = i + 1;
        proof {
            assert(out@ =~= old(out)@ + data@.subrange(0, i as int));
        }
    }
    proof {
        assert(data@.subrange(0, data@.len() as int) =~= data@);
    }
}

/// Appends the two little-endian bytes of `x` to `out`.
pub fn write_u16_le(out: &mut Vec<u8>, x: u16)
    ensures
        final(out)@ == old(out)@ + u16_le(x),
{
    out.push((x & 0xff) as u8);
    out.push(((x >> 8) & 0xff) as u8);
    proof {
        assert(out@ =~= old(out)@ + u16_le(x));
    }
}

/// Appends the four little-endian bytes of `x` to `out`.
pub fn write_u32_le(out: &mut Vec<u8>, x: u32)
    ensures
        final(out)@ == old(out)@ + u32_le(x),
{
    out.push((x & 0xff) as u8);
    out.push(((x >> 8) & 0xff) as u8);
    out.push(((x >> 16) & 0xff) as u8);
    out.push(((x >> 24) & 0xff) as u8);
    proof {
        assert(out@ =~= old(out)@ + u32_le(x));
    }
}

/// Appends the eight little-endian bytes of `x` to `out`.
pub fn write_u64_le(out: &mut Vec<u8>, x: u64)
    ensures
        final(out)@ == old(out)@ + u64_le(x),
{
    out.push((x & 0xff) as u8);
    out.push(((x >> 8) & 0xff) as u8);
    out.push(((x >> 16) & 0xff) as u8);
    out.push(((x >> 24) & 0xff) as u8);
    out.push(((x >> 32) & 0xff) as u8);
    out.push(((x >> 40) & 0xff) as u8);
    out.push(((x >> 48) & 0xff) as u8);
    out.push(((x >> 56) & 0xff) as u8);
    proof {
        assert(out@ =~= old(out)@ + u64_le(x));
    }
}

/// Reads the `u16` stored little-endian at `pos`.
pub fn read_u16_le(b: &[u8], pos: usize) -> (r: u16)
    requires
        pos + 2 <= b@.len(),
    ensures
        r == u16_of_le(b@.subrange(pos as int, pos as int + 2)),
{
    let n = b.len();
    let b0 = *vstd::slice::slice_index_get(b, pos);
    let b1 = *vstd::slice::slice_index_get(b, pos + 1);
    proof {
        let s = b@.subrange(pos as int, pos as int + 2);
        assert(s[0] == b@[pos as int] && s[1] == b@[pos as int + 1]);
    }
    (b0 as u16) | ((b1 as u16) << 8u16)
}

/// Reads the `u32` stored little-endian at `pos`.
pub fn read_u32_le(b: &[u8], pos: usize) -> (r: u32)
    requires
        pos + 4 <= b@.len(),
    ensures
        r == u32_of_le(b@.subrange(pos as int, pos as int + 4)),
{
    let n = b.len();
    let b0 = *vstd::slice::slice_index_get(b, pos);
    let b1 = *vstd::slice::slice_index_get(b, pos + 1);
    let b2 = *vstd::slice::slice_index_get(b, pos + 2);
    let b3 = *vstd::slice::slice_index_get(b, pos + 3);
    proof {
        let s = b@.subrange(pos as int, pos as int + 4);
        assert(s[0] == b@[pos as int] && s[1] == b@[pos as int + 1] && s[2] == b@[pos as int + 2]
            && s[3] == b@[pos as int + 3]);
    }
    (b0 as u32) | ((b1 as u32) << 8u32) | ((b2 as u32) << 16u32) | ((b3 as u32) << 24u32)
}

/// Reads the `u64` stored little-endian at `pos`.
pub fn read_u64_le(b: &[u8], pos: usize) -> (r: u64)
    requires
        pos + 8 <= b@.len(),
    ensures
        r == u64_of_le(b@.subrange(pos as int, pos as int + 8)),
{
    let n = b.len();
    let b0 = *vstd::slice::slice_index_get(b, pos);
    let b1 = *vstd::slice::slice_index_get(b, pos + 1);
    let b2 = *vstd::slice::slice_index_get(b, pos + 2);
    let b3 = *vstd::slice::slice_index_get(b, pos + 3);
    let b4 = *vstd::slice::slice_index_get(b, pos + 4);
    let b5 = *vstd::slice::slice_index_get(b, pos + 5);
    let b6 = *vstd::slice::slice_index_get(b, pos + 6);
    let b7 = *vstd::slice::slice_index_get(b, pos + 7);
    proof {
        let s = b@.subrange(pos as int, pos as int + 8);
        assert(s[0] == b@[pos as int] && s[1] == b@[pos as int + 1] && s[2] == b@[pos as int + 2]
            && s[3] == b@[pos as int + 3] && s[4] == b@[pos as int + 4] && s[5] == b@[pos as int
            + 5] && s[6] == b@[pos as int + 6] && s[7] == b@[pos as int + 7]);
    }
    (b0 as u64) | ((b1 as u64) << 8u64) | ((b2 as u64) << 16u64) | ((b3 as u64) << 24u64) | ((
    b4 as u64) << 32u64) | ((b5 as u64) << 40u64) | ((b6 as u64) << 48u64) | ((b7 as u64)
        << 56u64)
}

/// Whether two byte slices hold the same bytes.
pub fn bytes_eq(a: &[u8], b: &[u8]) -> (r: bool)
    ensures
        r == (a@ == b@),
{
    if a.len() != b.len() {
        proof {
            assert(a@.len() != b@.len());
        }
        return false;
    }
    let mut i: usize = 0;
    while i < a.len()
        invariant
            a@.len() == b@.len(),
            i <= a@.len(),
            forall|k: int| 0 <= k < i ==> a@[k] == b@[k],
        decreases a@.len() - i,
    {
        if *vstd::slice::slice_index_get(a, i) != *vstd::slice::slice_index_get(b, i) {
            return false;
        }
        i = i + 1;
    }
    proof {
        assert(a@ =~= b@);
    }
    true
}

/// Relies on String::from_utf8: accepts exactly the byte runs that are
/// valid UTF-8 and decodes them.
#[verifier::external_body]
pub fn string_from_utf8(bytes: Vec<u8>) -> (r: Option<String>)
    ensures
        r is Some <==> valid_utf8(bytes@),
        r matches Some(s) ==> s@ == decode_utf8(bytes@),
{
    String::from_utf8(bytes).ok()
}

// ---------------------------------------------------------------------------
// The registry as a directory: find, insert-or-replace, last-wins
// ---------------------------------------------------------------------------

/// The first index whose entry has `id`, or -1 when none does.
pub open spec fn find_entry(es: Seq<EntryModel>, id: Seq<char>) -> int
    decreases es.len(),
{
    if es.len() == 0 {
        -1
    } else if es[0].id == id {
        0
    } else {
        let r = find_entry(es.drop_first(), id);
        if r < 0 {
            -1
        } else {
            r + 1
        }
    }
}

/// What `find_entry` returns: -1 when absent, else the first index with
/// the id.
pub proof fn lemma_find_entry(es: Seq<EntryModel>, id: Seq<char>)
    ensures
        find_entry(es, id) < 0 ==> forall|i: int| 0 <= i < es.len() ==> (#[trigger] es[i]).id
            != id,
        find_entry(es, id) >= 0 ==> find_entry(es, id) < es.len() && es[find_entry(es, id)].id
            == id && (forall|i: int|
            0 <= i < find_entry(es, id) ==> (#[trigger] es[i]).id != id),
    decreases es.len(),
{
    if es.len() > 0 && es[0].id != id {
        lemma_find_entry(es.drop_first(), id);
        let tail = es.drop_first();
        assert(forall|i: int| 1 <= i < es.len() ==> #[trigger] es[i] == tail[i - 1]);
    }
}

/// The directory after recording `e`: the entry with the same id is
/// replaced in place, or `e` is appended.
pub open spec fn with_entry(es: Seq<EntryModel>, e: EntryModel) -> Seq<EntryModel> {
    let i = find_entry(es, e.id);
    if i >= 0 {
        es.update(i, e)
    } else {
        es.push(e)
    }
}

/// The directory built from a raw registry in order: on a repeated id
/// the later entry wins.
pub open spec fn dedup_entries(es: Seq<EntryModel>) -> Seq<EntryModel>
    decreases es.len(),
{
    if es.len() == 0 {
        Seq::empty()
    } else {
        with_entry(dedup_entries(es.drop_last()), es.last())
    }
}

/// The entry the directory holds under `id`, if any.
pub open spec fn lookup_entry(es: Seq<EntryModel>, id: Seq<char>) -> Option<EntryModel> {
    let i = find_entry(es, id);
    if i >= 0 {
        Some(es[i])
    } else {
        None
    }
}

/// The ids of a run of entries, in order.
pub open spec fn ids_of(es: Seq<EntryModel>) -> Seq<Seq<char>> {
    es.map(|i: int, e: EntryModel| e.id)
}

/// No two entries share an id.
pub open spec fn unique_ids(es: Seq<EntryModel>) -> bool {
    forall|i: int, j: int|
        0 <= i < j < es.len() ==> (#[trigger] es[i]).id != (#[trigger] es[j]).id
}

/// Recording an entry keeps ids unique.
pub proof fn lemma_with_entry_unique(es: Seq<EntryModel>, e: EntryModel)
    requires
        unique_ids(es),
    ensures
        unique_ids(with_entry(es, e)),
        ids_of(with_entry(es, e)).to_set() == ids_of(es).to_set().insert(e.id),
        lookup_entry(with_entry(es, e), e.id) == Some(e),
        forall|id: Seq<char>|
            id != e.id ==> #[trigger] lookup_entry(with_entry(es, e), id) == lookup_entry(es, id),
{
    lemma_find_entry(es, e.id);
    let i = find_entry(es, e.id);
    let w = with_entry(es, e);
    assert(ids_of(w).to_set() =~= ids_of(es).to_set().insert(e.id)) by {
        if i >= 0 {
            assert forall|x: Seq<char>| ids_of(es).to_set().insert(e.id).contains(x)
                implies ids_of(w).to_set().contains(x) by {
                if x == e.id {
                    assert(ids_of(w)[i] == x);
                } else {
                    let j = choose|j: int| 0 <= j < es.len() && ids_of(es)[j] == x;
                    assert(ids_of(w)[j] == x);
                }
            }
            assert forall|x: Seq<char>| ids_of(w).to_set().contains(x) implies ids_of(
                es,
            ).to_set().insert(e.id).contains(x) by {
                let j = choose|j: int| 0 <= j < w.len() && ids_of(w)[j] == x;
                if j != i {
                    assert(ids_of(es)[j] == x);
                }
            }
        } else {
            assert forall|x: Seq<char>| ids_of(es).to_set().insert(e.id).contains(x)
                implies ids_of(w).to_set().contains(x) by {
                if x == e.id {
                    assert(ids_of(w)[es.len() as int] == x);
                } else {
                    let j = choose|j: int| 0 <= j < es.len() && ids_of(es)[j] == x;
                    assert(ids_of(w)[j] == x);
                }
            }
            assert forall|x: Seq<char>| ids_of(w).to_set().contains(x) implies ids_of(
                es,
            ).to_set().insert(e.id).contains(x) by {
                let j = choose|j: int| 0 <= j < w.len() && ids_of(w)[j] == x;
                if j != es.len() {
                    assert(ids_of(es)[j] == x);
                }
            }
        }
    }
    lemma_find_entry(w, e.id);
    assert(lookup_entry(w, e.id) == Some(e)) by {
        let k = find_entry(w, e.id);
        if i >= 0 {
            assert(w[i].id == e.id);
            lemma_find_entry(w, e.id);
            assert(k >= 0);
            if k != i {
                assert(w[k] == es[k]);
            }
        } else {
            assert(w[es.len() as int].id == e.id);
            assert(k >= 0);
            if k < es.len() {
                assert(es[k].id == e.id);
            }
        }
    }
    assert forall|id: Seq<char>| id != e.id implies #[trigger] lookup_entry(w, id)
        == lookup_entry(es, id) by {
        lemma_find_entry(w, id);
        lemma_find_entry(es, id);
        let k = find_entry(w, id);
        let k0 = find_entry(es, id);
        if k0 >= 0 {
            assert(k0 != i);
            assert(w[k0].id == id);
            assert(k >= 0);
            assert(w[k].id == id);
            assert(k != i && if i >= 0 { true } else { k < es.len() });
            assert(es[k].id == id);
            assert(k >= k0);
            assert(forall|m: int| 0 <= m < k0 ==> (#[trigger] es[m]).id != id);
            assert(forall|m: int| 0 <= m < k0 && m != i ==> (#[trigger] w[m]).id != id);
            assert(k <= k0);
            assert(w[k0] == es[k0]);
        } else {
            if k >= 0 {
                assert(w[k].id == id);
                assert(k != i && if i >= 0 { true } else { k < es.len() });
                assert(es[k].id == id);
                assert(false);
            }
        }
    }
}

/// The directory's ids are unique, and they are exactly the raw
/// registry's ids.
pub proof fn lemma_dedup_entries(es: Seq<EntryModel>)
    ensures
        unique_ids(dedup_entries(es)),
        ids_of(dedup_entries(es)).to_set() == ids_of(es).to_set(),
    decreases es.len(),
{
    if es.len() == 0 {
        assert(ids_of(dedup_entries(es)) =~= ids_of(es));
    } else {
        let front = es.drop_last();
        lemma_dedup_entries(front);
        lemma_with_entry_unique(dedup_entries(front), es.last());
        assert(ids_of(es).to_set() =~= ids_of(front).to_set().insert(es.last().id)) by {
            assert forall|x: Seq<char>| ids_of(es).to_set().contains(x) implies ids_of(
                front,
            ).to_set().insert(es.last().id).contains(x) by {
                let j = choose|j: int| 0 <= j < es.len() && ids_of(es)[j] == x;
                if j < es.len() - 1 {
                    assert(ids_of(front)[j] == x);
                }
            }
            assert forall|x: Seq<char>| ids_of(front).to_set().insert(es.last().id).contains(x)
                implies ids_of(es).to_set().contains(x) by {
                if x == es.last().id {
                    assert(ids_of(es)[es.len() - 1] == x);
                } else {
                    let j = choose|j: int| 0 <= j < front.len() && ids_of(front)[j] == x;
                    assert(ids_of(es)[j] == x);
                }
            }
        }
    }
}

/// The index of the last entry with `id`, or -1 when none has it.
pub open spec fn last_index_of_id(es: Seq<EntryModel>, id: Seq<char>) -> int
    decreases es.len(),
{
    if es.len() == 0 {
        -1
    } else if es.last().id == id {
        es.len() - 1
    } else {
        last_index_of_id(es.drop_last(), id)
    }
}

/// What `last_index_of_id` returns: -1 when absent, else the last
/// index with the id.
pub proof fn lemma_last_index_of(es: Seq<EntryModel>, id: Seq<char>)
    ensures
        last_index_of_id(es, id) < 0 ==> forall|j: int| 0 <= j < es.len() ==> (#[trigger] es[j]).id
            != id,
        last_index_of_id(es, id) >= 0 ==> last_index_of_id(es, id) < es.len()
            && es[last_index_of_id(es, id)].id == id && (forall|j: int|
            last_index_of_id(es, id) < j < es.len() ==> (#[trigger] es[j]).id != id),
    decreases es.len(),
{
    if es.len() > 0 && es.last().id != id {
        lemma_last_index_of(es.drop_last(), id);
        assert(forall|j: int| 0 <= j < es.len() - 1 ==> #[trigger] es[j] == es.drop_last()[j]);
    }
}

/// Looking an id up in the directory returns the last raw entry that
/// carried it: later entries replace earlier ones.
pub proof fn lemma_lookup_dedup(es: Seq<EntryModel>, id: Seq<char>)
    ensures
        last_index_of_id(es, id) < 0 ==> lookup_entry(dedup_entries(es), id) is None,
        last_index_of_id(es, id) >= 0 ==> last_index_of_id(es, id) < es.len() && lookup_entry(
            dedup_entries(es),
            id,
        ) == Some(es[last_index_of_id(es, id)]) && es[last_index_of_id(es, id)].id == id,
    decreases es.len(),
{
    if es.len() == 0 {
        lemma_find_entry(dedup_entries(es), id);
    } else {
        let front = es.drop_last();
        let e = es.last();
        lemma_dedup_entries(front);
        lemma_with_entry_unique(dedup_entries(front), e);
        lemma_lookup_dedup(front, id);
        if e.id == id {
            assert(lookup_entry(dedup_entries(es), id) == Some(e));
        } else {
            assert(lookup_entry(dedup_entries(es), id) == lookup_entry(dedup_entries(front), id));
            if last_index_of_id(front, id) >= 0 {
                assert(es[last_index_of_id(front, id)] == front[last_index_of_id(front, id)]);
            }
        }
    }
}

/// The directory holds exactly one entry per distinct id in the raw
/// registry.
pub proof fn lemma_dedup_count(es: Seq<EntryModel>)
    ensures
        dedup_entries(es).len() == ids_of(es).to_set().len(),
{
    lemma_dedup_entries(es);
    let d = dedup_entries(es);
    assert(ids_of(d).no_duplicates()) by {
        assert(forall|i: int, j: int|
            0 <= i < j < d.len() ==> ids_of(d)[i] == (#[trigger] d[i]).id && ids_of(d)[j] == (
            #[trigger] d[j]).id);
    }
    ids_of(d).unique_seq_to_set();
    assert(ids_of(d).len() == d.len());
}

} // verus!
