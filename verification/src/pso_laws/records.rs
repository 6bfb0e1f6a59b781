//! The records of a PSO file come back.

use vstd::prelude::*;

use crate::pso::PsoBlock;
use crate::schema::{PsoEntryDef, PsoEnumDefView, PsoStructDefView};

verus! {

broadcast use crate::bytes::group_big_endian_reads;

// ─── blocks ──────────────────────────────────────────────────────────────────

/// Each block stands at its place among the others.
pub proof fn lemma_block_data(blocks: Seq<(u32, Seq<u8>)>, n: nat, i: int)
    requires
        0 <= i < n <= blocks.len(),
    ensures
        ({
            let all = crate::pso_write::blocks_data(blocks, n);
            let from = crate::pso_write::blocks_data(blocks, i as nat).len() as int;
            let to = from + blocks[i].1.len();
            &&& to <= all.len()
            &&& all.subrange(from, to) == blocks[i].1
        }),
    decreases n,
{
    let all = crate::pso_write::blocks_data(blocks, n);
    let before = crate::pso_write::blocks_data(blocks, (n - 1) as nat);
    let from = crate::pso_write::blocks_data(blocks, i as nat).len() as int;
    let to = from + blocks[i].1.len();
    if i < n - 1 {
        lemma_block_data(blocks, (n - 1) as nat, i);
        assert(all.subrange(from, to) =~= before.subrange(from, to));
    } else {
        assert(all.subrange(from, to) =~= blocks[i].1);
    }
}

/// A block as the table has it.
pub open spec fn block_info(blocks: Seq<(u32, Seq<u8>)>, i: int) -> PsoBlock {
    PsoBlock {
        name_hash: blocks[i].0,
        offset: (16 + crate::pso_write::blocks_data(blocks, i as nat).len()) as u32,
        length: blocks[i].1.len() as u32,
    }
}

/// The record of a block.
pub open spec fn block_record(blocks: Seq<(u32, Seq<u8>)>, i: int) -> Seq<u8> {
    let b = block_info(blocks, i);
    crate::bytes::be32_bytes(b.name_hash) + crate::bytes::be32_bytes(b.offset)
        + crate::bytes::zeros(4) + crate::bytes::be32_bytes(b.length)
}

proof fn lemma_block_record(blocks: Seq<(u32, Seq<u8>)>, i: int)
    ensures
        block_record(blocks, i).len() == 16,
        crate::pso::block_at(block_record(blocks, i), 0) == block_info(blocks, i),
{
    let b = block_info(blocks, i);
    let r = block_record(blocks, i);
    assert(r.subrange(0, 4) =~= crate::bytes::be32_bytes(b.name_hash));
    assert(r.subrange(4, 8) =~= crate::bytes::be32_bytes(b.offset));
    assert(r.subrange(12, 16) =~= crate::bytes::be32_bytes(b.length));
    crate::bytes::law_u32_round_trip(b.name_hash);
    crate::bytes::law_u32_round_trip(b.offset);
    crate::bytes::law_u32_round_trip(b.length);
}

/// The block table has a record for each block.
pub proof fn lemma_block_table(blocks: Seq<(u32, Seq<u8>)>, k: nat)
    requires
        k <= blocks.len(),
    ensures
        crate::pso_write::block_records(blocks, k).len() == 16 * k,
        forall|i: int|
            0 <= i < k ==> #[trigger] crate::pso_write::block_records(blocks, k).subrange(
                16 * i,
                16 * i + 16,
            ) == block_record(blocks, i),
    decreases k,
{
    if k > 0 {
        lemma_block_table(blocks, (k - 1) as nat);
        let s = crate::pso_write::block_records(blocks, k);
        let before = crate::pso_write::block_records(blocks, (k - 1) as nat);
        let last = block_record(blocks, k - 1);
        lemma_block_record(blocks, k - 1);
        assert(s =~= before + last);
        assert forall|i: int| 0 <= i < k implies #[trigger] s.subrange(16 * i, 16 * i + 16)
            == block_record(blocks, i) by {
            if i < k - 1 {
                assert(s.subrange(16 * i, 16 * i + 16) =~= before.subrange(16 * i, 16 * i + 16));
            } else {
                assert(s.subrange(16 * i, 16 * i + 16) =~= last);
            }
        }
    }
}

/// The blocks come back from the table that follows some header.
pub proof fn lemma_blocks(blocks: Seq<(u32, Seq<u8>)>, s: Seq<u8>, at: int)
    requires
        0 <= at,
        s.len() == at + 16 * blocks.len(),
        s.subrange(at, s.len() as int) == crate::pso_write::block_records(blocks, blocks.len()),
    ensures
        crate::pso::blocks_at(s, at, blocks.len()) == Seq::new(
            blocks.len(),
            |i: int| block_info(blocks, i),
        ),
{
    let n = blocks.len();
    let t = crate::pso_write::block_records(blocks, n);
    lemma_block_table(blocks, n);
    assert forall|i: int| 0 <= i < n implies crate::pso::blocks_at(s, at, n)[i] == block_info(
        blocks,
        i,
    ) by {
        let r = t.subrange(16 * i, 16 * i + 16);
        assert(r == block_record(blocks, i));
        lemma_block_record(blocks, i);
        let from = at + 16 * i;
        assert(s.subrange(from, from + 16) =~= r);
        let w = s.subrange(from, from + 16);
        assert(crate::bytes::be32(w, 0) == crate::bytes::be32(s, from));
        assert(crate::bytes::be32(w, 4) == crate::bytes::be32(s, from + 4));
        assert(crate::bytes::be32(w, 12) == crate::bytes::be32(s, from + 12));
    }
    assert(crate::pso::blocks_at(s, at, n) =~= Seq::new(n, |i: int| block_info(blocks, i)));
}

// ─── members ─────────────────────────────────────────────────────────────────

/// The record of a member.
spec fn member_record(e: PsoEntryDef) -> Seq<u8> {
    crate::bytes::be32_bytes(e.name) + seq![e.ty, e.subtype] + crate::bytes::be16_bytes(e.offset)
        + crate::bytes::be32_bytes(e.ref_key)
}

proof fn lemma_member_record(e: PsoEntryDef)
    ensures
        member_record(e).len() == 12,
        crate::schema::pso_def_at(member_record(e), 0) == e,
{
    let r = member_record(e);
    assert(r.subrange(0, 4) =~= crate::bytes::be32_bytes(e.name));
    assert(r[4] == e.ty && r[5] == e.subtype);
    assert(r.subrange(6, 8) =~= crate::bytes::be16_bytes(e.offset));
    assert(r.subrange(8, 12) =~= crate::bytes::be32_bytes(e.ref_key));
    crate::bytes::law_u32_round_trip(e.name);
    crate::bytes::law_u16_round_trip(e.offset);
    crate::bytes::law_u32_round_trip(e.ref_key);
}

proof fn lemma_member_table(entries: Seq<PsoEntryDef>, k: nat)
    requires
        k <= entries.len(),
    ensures
        crate::pso_write::member_records(entries, k).len() == 12 * k,
        forall|i: int|
            0 <= i < k ==> #[trigger] crate::pso_write::member_records(entries, k).subrange(
                12 * i,
                12 * i + 12,
            ) == member_record(entries[i]),
    decreases k,
{
    if k > 0 {
        lemma_member_table(entries, (k - 1) as nat);
        let s = crate::pso_write::member_records(entries, k);
        let before = crate::pso_write::member_records(entries, (k - 1) as nat);
        let last = member_record(entries[k - 1]);
        lemma_member_record(entries[k - 1]);
        assert(s =~= before + last);
        assert forall|i: int| 0 <= i < k implies #[trigger] s.subrange(12 * i, 12 * i + 12)
            == member_record(entries[i]) by {
            if i < k - 1 {
                assert(s.subrange(12 * i, 12 * i + 12) =~= before.subrange(12 * i, 12 * i + 12));
            } else {
                assert(s.subrange(12 * i, 12 * i + 12) =~= last);
            }
        }
    }
}

/// The members of a structure come back from where their records stand.
pub proof fn lemma_members(d: PsoStructDefView, s: Seq<u8>, at: int)
    requires
        0 <= at,
        at + 12 * d.entries.len() <= s.len(),
        s.subrange(at, at + 12 * d.entries.len()) == crate::pso_write::member_records(
            d.entries,
            d.entries.len(),
        ),
    ensures
        crate::schema::pso_defs_at(s, at, d.entries.len()) == d.entries,
        crate::pso::entries_at(s, at, d.entries.len()) == crate::pso_laws::fits::info_of(d).entries,
{
    let n = d.entries.len();
    let t = crate::pso_write::member_records(d.entries, n);
    lemma_member_table(d.entries, n);
    assert forall|i: int| 0 <= i < n implies #[trigger] crate::schema::pso_def_at(s, at + 12 * i)
        == d.entries[i] && crate::pso::entry_at(s, at + 12 * i)
        == crate::pso_laws::fits::info_entry(d.entries[i]) by {
        let r = t.subrange(12 * i, 12 * i + 12);
        assert(r == member_record(d.entries[i]));
        lemma_member_record(d.entries[i]);
        let from = at + 12 * i;
        let w = s.subrange(from, from + 12);
        assert(w =~= r);
        assert(crate::bytes::be32(w, 0) == crate::bytes::be32(s, from));
        assert(w[4] == s[from + 4] && w[5] == s[from + 5]);
        assert(crate::bytes::be16(w, 6) == crate::bytes::be16(s, from + 6));
        assert(crate::bytes::be32(w, 8) == crate::bytes::be32(s, from + 8));
    }
    assert(crate::schema::pso_defs_at(s, at, n) =~= d.entries);
    assert forall|i: int| 0 <= i < n implies crate::pso::entries_at(s, at, n)[i]
        == crate::pso_laws::fits::info_of(d).entries[i] by {
        assert(crate::schema::pso_def_at(s, at + 12 * i) == d.entries[i]);
    }
    assert(crate::pso::entries_at(s, at, n) =~= crate::pso_laws::fits::info_of(d).entries);
}

// ─── enum members ────────────────────────────────────────────────────────────

proof fn lemma_value(x: i32)
    ensures
        (x as u32) as i32 == x,
{
    assert((x as u32) as i32 == x) by (bit_vector);
}

spec fn enumerator_record(e: (u32, i32)) -> Seq<u8> {
    crate::bytes::be32_bytes(e.0) + crate::bytes::be32_bytes(e.1 as u32)
}

proof fn lemma_enumerator_record(e: (u32, i32))
    ensures
        enumerator_record(e).len() == 8,
        crate::pso::enumerator_at(enumerator_record(e), 0) == e,
{
    let r = enumerator_record(e);
    assert(r.subrange(0, 4) =~= crate::bytes::be32_bytes(e.0));
    assert(r.subrange(4, 8) =~= crate::bytes::be32_bytes(e.1 as u32));
    crate::bytes::law_u32_round_trip(e.0);
    crate::bytes::law_u32_round_trip(e.1 as u32);
    lemma_value(e.1);
}

proof fn lemma_enumerator_table(entries: Seq<(u32, i32)>, k: nat)
    requires
        k <= entries.len(),
    ensures
        crate::pso_write::enumerator_records(entries, k).len() == 8 * k,
        forall|i: int|
            0 <= i < k ==> #[trigger] crate::pso_write::enumerator_records(entries, k).subrange(
                8 * i,
                8 * i + 8,
            ) == enumerator_record(entries[i]),
    decreases k,
{
    if k > 0 {
        lemma_enumerator_table(entries, (k - 1) as nat);
        let s = crate::pso_write::enumerator_records(entries, k);
        let before = crate::pso_write::enumerator_records(entries, (k - 1) as nat);
        let last = enumerator_record(entries[k - 1]);
        lemma_enumerator_record(entries[k - 1]);
        assert(s =~= before + last);
        assert forall|i: int| 0 <= i < k implies #[trigger] s.subrange(8 * i, 8 * i + 8)
            == enumerator_record(entries[i]) by {
            if i < k - 1 {
                assert(s.subrange(8 * i, 8 * i + 8) =~= before.subrange(8 * i, 8 * i + 8));
            } else {
                assert(s.subrange(8 * i, 8 * i + 8) =~= last);
            }
        }
    }
}

/// The members of an enum come back from where their records stand.
pub proof fn lemma_enumerators(entries: Seq<(u32, i32)>, s: Seq<u8>, at: int)
    requires
        0 <= at,
        at + 8 * entries.len() <= s.len(),
        s.subrange(at, at + 8 * entries.len()) == crate::pso_write::enumerator_records(
            entries,
            entries.len(),
        ),
    ensures
        crate::pso::enumerators_at(s, at, entries.len()) == entries,
{
    let n = entries.len();
    let t = crate::pso_write::enumerator_records(entries, n);
    lemma_enumerator_table(entries, n);
    assert forall|i: int| 0 <= i < n implies crate::pso::enumerators_at(s, at, n)[i]
        == entries[i] by {
        let r = t.subrange(8 * i, 8 * i + 8);
        assert(r == enumerator_record(entries[i]));
        lemma_enumerator_record(entries[i]);
        let from = at + 8 * i;
        let w = s.subrange(from, from + 8);
        assert(w =~= r);
        assert(crate::bytes::be32(w, 0) == crate::bytes::be32(s, from));
        assert(crate::bytes::be32(w, 4) == crate::bytes::be32(s, from + 4));
    }
    assert(crate::pso::enumerators_at(s, at, n) =~= entries);
}

// ─── definitions ─────────────────────────────────────────────────────────────

proof fn lemma_struct_word(unk: u32, n: u32)
    requires
        unk <= 0xFF,
        n <= 0xFFFF,
    ensures
        ({
            let word = ((0x1_0000 * unk) as u32) | n;
            &&& word / 0x100_0000 == 0
            &&& word % 0x1_0000 == n
            &&& word / 0x1_0000 % 0x100 == unk
        }),
{
    let a = (0x1_0000 * unk) as u32;
    assert((a | n) == a + n) by (bit_vector)
        requires
            a % 0x1_0000 == 0,
            n <= 0xFFFF,
    ;
}

proof fn lemma_enum_word(n: u32)
    requires
        n < 0x100_0000,
    ensures
        ({
            let word = 0x100_0000u32 | n;
            &&& word / 0x100_0000 == 1
            &&& word % 0x100_0000 == n
        }),
{
    assert((0x100_0000u32 | n) == 0x100_0000 + n) by (bit_vector)
        requires
            n < 0x100_0000,
    ;
}

/// What the record of a structure definition says, where it stands.
pub proof fn lemma_struct_record(d: PsoStructDefView, s: Seq<u8>, at: int)
    requires
        0 <= at,
        d.entries.len() <= 0xFFFF,
        at + crate::pso_write::struct_record(d).len() <= s.len(),
        s.subrange(at, at + crate::pso_write::struct_record(d).len())
            == crate::pso_write::struct_record(d),
    ensures
        ({
            let word = crate::bytes::be32(s, at);
            &&& crate::pso_write::struct_record(d).len() == 12 + 12 * d.entries.len()
            &&& word / 0x100_0000 == 0
            &&& word % 0x1_0000 == d.entries.len()
            &&& word / 0x1_0000 % 0x100 == d.unk
            &&& crate::bytes::be32(s, at + 4) == d.size
            &&& crate::schema::pso_defs_at(s, at + 12, d.entries.len()) == d.entries
            &&& crate::pso::entries_at(s, at + 12, d.entries.len())
                == crate::pso_laws::fits::info_of(d).entries
        }),
{
    let n = d.entries.len();
    let r = crate::pso_write::struct_record(d);
    let word = ((0x1_0000 * d.unk) as u32) | (n as u32);
    let t = crate::pso_write::member_records(d.entries, n);
    lemma_member_table(d.entries, n);
    lemma_struct_word(d.unk as u32, n as u32);
    assert(r.len() == 12 + 12 * n);
    assert(r.subrange(0, 4) =~= crate::bytes::be32_bytes(word));
    assert(r.subrange(4, 8) =~= crate::bytes::be32_bytes(d.size));
    assert(r.subrange(12, 12int + 12 * n) =~= t);
    crate::bytes::law_u32_round_trip(word);
    crate::bytes::law_u32_round_trip(d.size);
    assert(s.subrange(at, at + 4) =~= r.subrange(0, 4));
    assert(s.subrange(at + 4, at + 8) =~= r.subrange(4, 8));
    assert(crate::bytes::be32(s.subrange(at, at + 4), 0) == crate::bytes::be32(s, at));
    assert(crate::bytes::be32(s.subrange(at + 4, at + 8), 0) == crate::bytes::be32(s, at + 4));
    assert(s.subrange(at + 12, at + 12 + 12 * n) =~= r.subrange(12, 12int + 12 * n));
    lemma_members(d, s, at + 12);
}

/// What the record of an enum definition says, where it stands.
pub proof fn lemma_enum_record(d: PsoEnumDefView, s: Seq<u8>, at: int)
    requires
        0 <= at,
        d.entries.len() < 0x100_0000,
        at + crate::pso_write::enum_record(d).len() <= s.len(),
        s.subrange(at, at + crate::pso_write::enum_record(d).len())
            == crate::pso_write::enum_record(d),
    ensures
        ({
            let word = crate::bytes::be32(s, at);
            &&& crate::pso_write::enum_record(d).len() == 4 + 8 * d.entries.len()
            &&& word / 0x100_0000 == 1
            &&& word % 0x100_0000 == d.entries.len()
            &&& crate::pso::enumerators_at(s, at + 4, d.entries.len()) == d.entries
        }),
{
    let n = d.entries.len();
    let r = crate::pso_write::enum_record(d);
    let word = 0x100_0000u32 | (n as u32);
    let t = crate::pso_write::enumerator_records(d.entries, n);
    lemma_enumerator_table(d.entries, n);
    lemma_enum_word(n as u32);
    assert(r.len() == 4 + 8 * n);
    assert(r.subrange(0, 4) =~= crate::bytes::be32_bytes(word));
    assert(r.subrange(4, 4int + 8 * n) =~= t);
    crate::bytes::law_u32_round_trip(word);
    assert(s.subrange(at, at + 4) =~= r.subrange(0, 4));
    assert(crate::bytes::be32(s.subrange(at, at + 4), 0) == crate::bytes::be32(s, at));
    assert(s.subrange(at + 4, at + 4 + 8 * n) =~= r.subrange(4, 4int + 8 * n));
    lemma_enumerators(d.entries, s, at + 4);
}

// ─── the index ───────────────────────────────────────────────────────────────

/// Where definition `i` of a schema section stands.
pub open spec fn part_at(parts: Seq<(u32, Seq<u8>)>, i: int) -> int {
    12int + 8 * parts.len() + crate::pso_write::blocks_data(parts, i as nat).len()
}

/// The index entry of a definition.
pub open spec fn index_record(parts: Seq<(u32, Seq<u8>)>, i: int) -> Seq<u8> {
    crate::bytes::be32_bytes(parts[i].0) + crate::bytes::be32_bytes(
        ((12 + 8 * parts.len()) as u32).wrapping_add(
            crate::pso_write::blocks_data(parts, i as nat).len() as u32,
        ),
    )
}

pub proof fn lemma_index_table(parts: Seq<(u32, Seq<u8>)>, k: nat)
    requires
        k <= parts.len(),
    ensures
        crate::pso_write::index_records(parts, k).len() == 8 * k,
        forall|i: int|
            0 <= i < k ==> #[trigger] crate::pso_write::index_records(parts, k).subrange(
                8 * i,
                8 * i + 8,
            ) == index_record(parts, i),
    decreases k,
{
    if k > 0 {
        lemma_index_table(parts, (k - 1) as nat);
        let s = crate::pso_write::index_records(parts, k);
        let before = crate::pso_write::index_records(parts, (k - 1) as nat);
        let last = index_record(parts, k - 1);
        assert(last.len() == 8);
        assert(s =~= before + last);
        assert forall|i: int| 0 <= i < k implies #[trigger] s.subrange(8 * i, 8 * i + 8)
            == index_record(parts, i) by {
            if i < k - 1 {
                assert(s.subrange(8 * i, 8 * i + 8) =~= before.subrange(8 * i, 8 * i + 8));
            } else {
                assert(s.subrange(8 * i, 8 * i + 8) =~= last);
            }
        }
    }
}

/// A schema section: the header, the count, the index and the definitions.
pub open spec fn schema_section(parts: Seq<(u32, Seq<u8>)>) -> Seq<u8> {
    crate::pso_write::section(
        crate::pso_write::SECTION_PSCH,
        crate::bytes::be32_bytes(parts.len() as u32) + crate::pso_write::index_records(
            parts,
            parts.len(),
        ) + crate::pso_write::blocks_data(parts, parts.len()),
    )
}

pub proof fn lemma_schema_count(parts: Seq<(u32, Seq<u8>)>)
    requires
        schema_section(parts).len() <= u32::MAX,
    ensures
        schema_section(parts).len() == 12 + 8 * parts.len() + crate::pso_write::blocks_data(
            parts,
            parts.len(),
        ).len(),
        crate::bytes::be32(schema_section(parts), 8) == parts.len(),
{
    let s = schema_section(parts);
    lemma_index_table(parts, parts.len());
    assert(s.subrange(8, 12) =~= crate::bytes::be32_bytes(parts.len() as u32));
    crate::bytes::law_u32_round_trip(parts.len() as u32);
    assert(crate::bytes::be32(s.subrange(8, 12), 0) == crate::bytes::be32(s, 8));
}

/// The index of a schema section names each definition and says where it
/// stands.
pub proof fn lemma_schema_index(parts: Seq<(u32, Seq<u8>)>, i: int)
    requires
        schema_section(parts).len() <= u32::MAX,
        0 <= i < parts.len(),
    ensures
        ({
            let s = schema_section(parts);
            let at = part_at(parts, i);
            let to = at + parts[i].1.len();
            &&& 20 + 8 * i <= s.len()
            &&& crate::bytes::be32(s, 12 + 8 * i) == parts[i].0
            &&& crate::bytes::be32(s, 16 + 8 * i) == at
            &&& to <= s.len()
            &&& s.subrange(at, to) == parts[i].1
        }),
{
    let s = schema_section(parts);
    let n = parts.len();
    let index = crate::pso_write::index_records(parts, n);
    let all = crate::pso_write::blocks_data(parts, n);
    let at = part_at(parts, i);
    let to = at + parts[i].1.len();
    lemma_schema_count(parts);
    lemma_index_table(parts, n);
    lemma_block_data(parts, n, i);
    let head = 12 + 8 * n;
    let r = index.subrange(8 * i, 8 * i + 8);
    assert(r == index_record(parts, i));
    let from = crate::pso_write::blocks_data(parts, i as nat).len() as int;
    let offset = ((12 + 8 * n) as u32).wrapping_add(from as u32);
    assert(offset == at);
    assert(s.subrange(12 + 8 * i, 16 + 8 * i) =~= r.subrange(0, 4));
    assert(s.subrange(16 + 8 * i, 20 + 8 * i) =~= r.subrange(4, 8));
    assert(r.subrange(0, 4) =~= crate::bytes::be32_bytes(parts[i].0));
    assert(r.subrange(4, 8) =~= crate::bytes::be32_bytes(offset));
    crate::bytes::law_u32_round_trip(parts[i].0);
    crate::bytes::law_u32_round_trip(offset);
    assert(crate::bytes::be32(s.subrange(12 + 8 * i, 16 + 8 * i), 0) == crate::bytes::be32(
        s,
        12 + 8 * i,
    ));
    assert(crate::bytes::be32(s.subrange(16 + 8 * i, 20 + 8 * i), 0) == crate::bytes::be32(
        s,
        16 + 8 * i,
    ));
    assert(s.subrange(at, to) =~= all.subrange(from, from + parts[i].1.len()));
}

} // verus!
