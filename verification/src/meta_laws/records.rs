//! The records of a Meta file come back.

use vstd::prelude::*;

use crate::meta_write::Parts;
use crate::schema::{MetaEntryDef, MetaEnumDefView, MetaStructDefView};

verus! {

broadcast use crate::bytes::group_subrange_reads;

/// The record of a structure.
pub open spec fn struct_record(d: MetaStructDefView, at: u64) -> Seq<u8> {
    crate::bytes::le32_bytes(d.name) + crate::bytes::le32_bytes(d.key) + crate::bytes::le32_bytes(
        d.unk8,
    ) + crate::bytes::zeros(4) + crate::bytes::le64_bytes(at) + crate::bytes::le32_bytes(d.size)
        + crate::bytes::zeros(2) + crate::bytes::le16_bytes(d.entries.len() as u16)
}

pub proof fn lemma_struct_record(d: MetaStructDefView, at: u64)
    requires
        d.entries.len() <= 0xFFFF,
    ensures
        ({
            let r = struct_record(d, at);
            &&& r.len() == 32
            &&& crate::bytes::le32(r, 0) == d.name
            &&& crate::bytes::le32(r, 4) == d.key
            &&& crate::bytes::le32(r, 8) == d.unk8
            &&& crate::bytes::le64(r, 0x10) == at
            &&& crate::bytes::le32(r, 0x18) == d.size
            &&& crate::bytes::le16(r, 0x1E) == d.entries.len()
        }),
{
    let r = struct_record(d, at);
    let n = d.entries.len() as u16;
    assert(r.subrange(0, 4) =~= crate::bytes::le32_bytes(d.name));
    assert(r.subrange(4, 8) =~= crate::bytes::le32_bytes(d.key));
    assert(r.subrange(8, 12) =~= crate::bytes::le32_bytes(d.unk8));
    assert(r.subrange(0x10, 0x18) =~= crate::bytes::le64_bytes(at));
    assert(r.subrange(0x18, 0x1C) =~= crate::bytes::le32_bytes(d.size));
    assert(r.subrange(0x1E, 0x20) =~= crate::bytes::le16_bytes(n));
    crate::bytes::law_u32_round_trip(d.name);
    crate::bytes::law_u32_round_trip(d.key);
    crate::bytes::law_u32_round_trip(d.unk8);
    crate::bytes::law_u64_round_trip(at);
    crate::bytes::law_u32_round_trip(d.size);
    crate::bytes::law_u16_round_trip(n);
}

/// Where the members of structure `i` stand.
pub open spec fn members_address(p: Parts, starts: Seq<int>, i: int) -> u64 {
    crate::meta_write::address_unless(p.structs[i].entries.len() == 0, starts[i + 3])
}

pub proof fn lemma_struct_table(p: Parts, starts: Seq<int>, k: nat, i: int)
    requires
        0 <= i < k,
    ensures
        crate::meta_write::struct_records(p, starts, k).len() == 32 * k,
        crate::meta_write::struct_records(p, starts, k).subrange(32 * i, 32 * i + 32)
            == struct_record(p.structs[i], members_address(p, starts, i)),
    decreases k,
{
    let s = crate::meta_write::struct_records(p, starts, k);
    let before = crate::meta_write::struct_records(p, starts, (k - 1) as nat);
    let last = struct_record(p.structs[k - 1], members_address(p, starts, k - 1));
    assert(last.len() == 32);
    assert(s == before + last);
    if k > 1 {
        lemma_struct_table(
            p,
            starts,
            (k - 1) as nat,
            if i < k - 1 {
                i
            } else {
                0
            },
        );
    }
    if i < k - 1 {
        assert(s.subrange(32 * i, 32 * i + 32) =~= before.subrange(32 * i, 32 * i + 32));
    } else {
        assert(s.subrange(32 * i, 32 * i + 32) =~= last);
    }
}

/// The record of a member.
pub open spec fn member_record(e: MetaEntryDef) -> Seq<u8> {
    crate::bytes::le32_bytes(e.name) + crate::bytes::le32_bytes(e.offset) + seq![e.ty, e.unk9]
        + crate::bytes::le16_bytes(e.ref_index as u16) + crate::bytes::le32_bytes(e.ref_key)
}

proof fn lemma_index(x: i16)
    ensures
        (x as u16) as i16 == x,
{
    assert((x as u16) as i16 == x) by (bit_vector);
}

pub proof fn lemma_member_record(e: MetaEntryDef)
    ensures
        member_record(e).len() == 16,
        crate::schema::meta_def_at(member_record(e), 0) == e,
        crate::meta_schema::entry_at(member_record(e), 0) == crate::meta_laws::fits::info_entry(e),
{
    let r = member_record(e);
    assert(r.subrange(0, 4) =~= crate::bytes::le32_bytes(e.name));
    assert(r.subrange(4, 8) =~= crate::bytes::le32_bytes(e.offset));
    assert(r[8] == e.ty && r[9] == e.unk9);
    assert(r.subrange(10, 12) =~= crate::bytes::le16_bytes(e.ref_index as u16));
    assert(r.subrange(12, 16) =~= crate::bytes::le32_bytes(e.ref_key));
    crate::bytes::law_u32_round_trip(e.name);
    crate::bytes::law_u32_round_trip(e.offset);
    crate::bytes::law_u16_round_trip(e.ref_index as u16);
    crate::bytes::law_u32_round_trip(e.ref_key);
    lemma_index(e.ref_index);
}

proof fn lemma_member_table(entries: Seq<MetaEntryDef>, k: nat, i: int)
    requires
        0 <= i < k,
    ensures
        crate::meta_write::member_records(entries, k).len() == 16 * k,
        crate::meta_write::member_records(entries, k).subrange(16 * i, 16 * i + 16)
            == member_record(entries[i]),
    decreases k,
{
    let s = crate::meta_write::member_records(entries, k);
    let before = crate::meta_write::member_records(entries, (k - 1) as nat);
    let last = member_record(entries[k - 1]);
    assert(last.len() == 16);
    assert(s == before + last);
    if k > 1 {
        lemma_member_table(
            entries,
            (k - 1) as nat,
            if i < k - 1 {
                i
            } else {
                0
            },
        );
    }
    if i < k - 1 {
        assert(s.subrange(16 * i, 16 * i + 16) =~= before.subrange(16 * i, 16 * i + 16));
    } else {
        assert(s.subrange(16 * i, 16 * i + 16) =~= last);
    }
}

/// The members of a structure come back.
pub proof fn lemma_members(d: MetaStructDefView)
    ensures
        ({
            let s = crate::meta_write::member_records(d.entries, d.entries.len());
            &&& s.len() == 16 * d.entries.len()
            &&& crate::schema::meta_defs_at(s, d.entries.len()) == d.entries
            &&& crate::meta_schema::entries_at(s, d.entries.len())
                == crate::meta_laws::fits::info_of(d).entries
        }),
{
    let n = d.entries.len();
    let s = crate::meta_write::member_records(d.entries, n);
    if n > 0 {
        lemma_member_table(d.entries, n, 0);
    }
    assert forall|i: int| 0 <= i < n implies #[trigger] crate::schema::meta_def_at(s, 16 * i)
        == d.entries[i] && crate::meta_schema::entry_at(s, 16 * i)
        == crate::meta_laws::fits::info_entry(d.entries[i]) by {
        lemma_member_table(d.entries, n, i);
        lemma_member_record(d.entries[i]);
        lemma_member_window(s, 16 * i);
    }
    assert(crate::schema::meta_defs_at(s, n) =~= d.entries);
    assert forall|i: int| 0 <= i < n implies crate::meta_schema::entries_at(s, n)[i]
        == crate::meta_laws::fits::info_of(d).entries[i] by {
        assert(crate::schema::meta_def_at(s, 16 * i) == d.entries[i]);
    }
    assert(crate::meta_schema::entries_at(s, n) =~= crate::meta_laws::fits::info_of(d).entries);
}

proof fn lemma_member_window(s: Seq<u8>, at: int)
    requires
        0 <= at,
        at + 16 <= s.len(),
    ensures
        crate::schema::meta_def_at(s, at) == crate::schema::meta_def_at(
            s.subrange(at, at + 16),
            0,
        ),
        crate::meta_schema::entry_at(s, at) == crate::meta_schema::entry_at(
            s.subrange(at, at + 16),
            0,
        ),
{
    let w = s.subrange(at, at + 16);
    assert(crate::bytes::le32(w, 0) == crate::bytes::le32(s, at));
    assert(crate::bytes::le32(w, 4) == crate::bytes::le32(s, at + 4));
    assert(w[8] == s[at + 8] && w[9] == s[at + 9]);
    assert(crate::bytes::le16(w, 10) == crate::bytes::le16(s, at + 10));
    assert(crate::bytes::le32(w, 12) == crate::bytes::le32(s, at + 12));
}

/// The record of an enum.
pub open spec fn enum_record(d: MetaEnumDefView, at: u64) -> Seq<u8> {
    crate::bytes::le32_bytes(d.name) + crate::bytes::le32_bytes(d.key) + crate::bytes::le64_bytes(
        at,
    ) + crate::bytes::le32_bytes(d.entries.len() as u32) + crate::bytes::zeros(4)
}

pub proof fn lemma_enum_record(d: MetaEnumDefView, at: u64)
    requires
        d.entries.len() <= u32::MAX,
    ensures
        ({
            let r = enum_record(d, at);
            &&& r.len() == 24
            &&& crate::bytes::le32(r, 0) == d.name
            &&& crate::bytes::le32(r, 4) == d.key
            &&& crate::bytes::le64(r, 8) == at
            &&& crate::bytes::le32(r, 0x10) == d.entries.len()
        }),
{
    let r = enum_record(d, at);
    let n = d.entries.len() as u32;
    assert(r.subrange(0, 4) =~= crate::bytes::le32_bytes(d.name));
    assert(r.subrange(4, 8) =~= crate::bytes::le32_bytes(d.key));
    assert(r.subrange(8, 16) =~= crate::bytes::le64_bytes(at));
    assert(r.subrange(16, 20) =~= crate::bytes::le32_bytes(n));
    crate::bytes::law_u32_round_trip(d.name);
    crate::bytes::law_u32_round_trip(d.key);
    crate::bytes::law_u64_round_trip(at);
    crate::bytes::law_u32_round_trip(n);
}

/// Where the members of enum `i` stand.
pub open spec fn enumerators_address(p: Parts, starts: Seq<int>, i: int) -> u64 {
    crate::meta_write::address_unless(
        p.enums[i].entries.len() == 0,
        starts[crate::meta_write::enum_table(p) + i + 1],
    )
}

pub proof fn lemma_enum_table(p: Parts, starts: Seq<int>, k: nat, i: int)
    requires
        0 <= i < k,
    ensures
        crate::meta_write::enum_records(p, starts, k).len() == 24 * k,
        crate::meta_write::enum_records(p, starts, k).subrange(24 * i, 24 * i + 24) == enum_record(
            p.enums[i],
            enumerators_address(p, starts, i),
        ),
    decreases k,
{
    let s = crate::meta_write::enum_records(p, starts, k);
    let before = crate::meta_write::enum_records(p, starts, (k - 1) as nat);
    let last = enum_record(p.enums[k - 1], enumerators_address(p, starts, k - 1));
    assert(last.len() == 24);
    assert(crate::meta_write::enum_table(p) + (k - 1) + 1 == crate::meta_write::enum_table(p) + k);
    assert(s == before + last);
    if k > 1 {
        lemma_enum_table(
            p,
            starts,
            (k - 1) as nat,
            if i < k - 1 {
                i
            } else {
                0
            },
        );
    }
    if i < k - 1 {
        assert(s.subrange(24 * i, 24 * i + 24) =~= before.subrange(24 * i, 24 * i + 24));
    } else {
        assert(s.subrange(24 * i, 24 * i + 24) =~= last);
    }
}

proof fn lemma_value(x: i32)
    ensures
        (x as u32) as i32 == x,
{
    assert((x as u32) as i32 == x) by (bit_vector);
}

proof fn lemma_enumerator(entries: Seq<(u32, i32)>, k: nat, i: int)
    requires
        0 <= i < k,
    ensures
        ({
            let s = crate::meta_write::enumerator_records(entries, k);
            &&& s.len() == 8 * k
            &&& crate::bytes::le32(s, 8 * i) == entries[i].0
            &&& crate::bytes::le32(s, 8 * i + 4) as i32 == entries[i].1
        }),
    decreases k,
{
    let s = crate::meta_write::enumerator_records(entries, k);
    let before = crate::meta_write::enumerator_records(entries, (k - 1) as nat);
    if k > 1 {
        lemma_enumerator(
            entries,
            (k - 1) as nat,
            if i < k - 1 {
                i
            } else {
                0
            },
        );
    }
    if i < k - 1 {
        let head = s.subrange(0, before.len() as int);
        assert(head =~= before);
        assert(crate::bytes::le32(head, 8 * i) == crate::bytes::le32(s, 8 * i));
        assert(crate::bytes::le32(head, 8 * i + 4) == crate::bytes::le32(s, 8 * i + 4));
    } else {
        assert(s.subrange(8 * i, 8 * i + 4) =~= crate::bytes::le32_bytes(entries[i].0));
        assert(s.subrange(8 * i + 4, 8 * i + 8) =~= crate::bytes::le32_bytes(
            entries[i].1 as u32,
        ));
        crate::bytes::law_u32_round_trip(entries[i].0);
        crate::bytes::law_u32_round_trip(entries[i].1 as u32);
        lemma_value(entries[i].1);
    }
}

/// The members of an enum come back.
pub proof fn lemma_enumerators(entries: Seq<(u32, i32)>)
    ensures
        ({
            let s = crate::meta_write::enumerator_records(entries, entries.len());
            &&& s.len() == 8 * entries.len()
            &&& crate::meta_schema::enumerators_at(s, entries.len()) == entries
        }),
{
    let s = crate::meta_write::enumerator_records(entries, entries.len());
    if entries.len() > 0 {
        lemma_enumerator(entries, entries.len(), 0);
    }
    assert forall|i: int| 0 <= i < entries.len() implies crate::meta_schema::enumerators_at(
        s,
        entries.len(),
    )[i] == entries[i] by {
        lemma_enumerator(entries, entries.len(), i);
    }
    assert(crate::meta_schema::enumerators_at(s, entries.len()) =~= entries);
}

/// The record of a block comes back.
pub proof fn lemma_block_record(p: Parts, starts: Seq<int>, k: nat, i: int)
    requires
        0 <= i < k,
        p.blocks[i].1.len() <= u32::MAX,
    ensures
        ({
            let s = crate::meta_write::block_records(p, starts, k);
            &&& s.len() == 16 * k
            &&& crate::bytes::le32(s, 16 * i) == p.blocks[i].0
            &&& crate::bytes::le32(s, 16 * i + 4) == p.blocks[i].1.len()
            &&& crate::bytes::le64(s, 16 * i + 8) == crate::meta_write::address(
                starts[crate::meta_write::block_table(p) + i + 1],
            )
        }),
    decreases k,
{
    let s = crate::meta_write::block_records(p, starts, k);
    let before = crate::meta_write::block_records(p, starts, (k - 1) as nat);
    lemma_block_length(p, starts, k);
    if i < k - 1 {
        lemma_block_record(p, starts, (k - 1) as nat, i);
        let head = s.subrange(0, before.len() as int);
        assert(head =~= before);
        assert(crate::bytes::le32(head, 16 * i) == crate::bytes::le32(s, 16 * i));
        assert(crate::bytes::le32(head, 16 * i + 4) == crate::bytes::le32(s, 16 * i + 4));
        assert(crate::bytes::le64(head, 16 * i + 8) == crate::bytes::le64(s, 16 * i + 8));
    } else {
        lemma_block_length(p, starts, (k - 1) as nat);
        let b = p.blocks[i];
        let at = crate::meta_write::address(starts[crate::meta_write::block_table(p) + i + 1]);
        assert(crate::meta_write::block_table(p) + i + 1 == crate::meta_write::block_table(p) + k);
        assert(s.subrange(16 * i, 16 * i + 4) =~= crate::bytes::le32_bytes(b.0));
        assert(s.subrange(16 * i + 4, 16 * i + 8) =~= crate::bytes::le32_bytes(
            b.1.len() as u32,
        ));
        assert(s.subrange(16 * i + 8, 16 * i + 16) =~= crate::bytes::le64_bytes(at));
        crate::bytes::law_u32_round_trip(b.0);
        crate::bytes::law_u32_round_trip(b.1.len() as u32);
        crate::bytes::law_u64_round_trip(at);
    }
}

proof fn lemma_block_length(p: Parts, starts: Seq<int>, k: nat)
    ensures
        crate::meta_write::block_records(p, starts, k).len() == 16 * k,
    decreases k,
{
    if k > 0 {
        lemma_block_length(p, starts, (k - 1) as nat);
    }
}

/// What the header of a file says.
pub proof fn lemma_header(p: Parts, starts: Seq<int>)
    requires
        p.structs.len() <= 0xFFFF,
        p.enums.len() <= 0xFFFF,
        p.blocks.len() <= 0xFFFF,
    ensures
        ({
            let h = crate::meta_write::header(p, starts);
            &&& h.len() == 0x70
            &&& crate::bytes::le32(h, 0x10) == 0x5052_4430
            &&& crate::bytes::le32(h, 0x1C) == 1
            &&& crate::bytes::le64(h, 0x20) == crate::meta_write::address_unless(
                p.structs.len() == 0,
                starts[2],
            )
            &&& crate::bytes::le64(h, 0x28) == crate::meta_write::address_unless(
                p.enums.len() == 0,
                starts[crate::meta_write::enum_table(p)],
            )
            &&& crate::bytes::le64(h, 0x30) == crate::meta_write::address(
                starts[crate::meta_write::block_table(p)],
            )
            &&& crate::bytes::le16(h, 0x48) == p.structs.len()
            &&& crate::bytes::le16(h, 0x4A) == p.enums.len()
            &&& crate::bytes::le16(h, 0x4C) == p.blocks.len()
        }),
{
    let h = crate::meta_write::header(p, starts);
    let a = crate::bytes::le32_bytes(0x405b_c808) + crate::bytes::le32_bytes(1)
        + crate::bytes::le64_bytes(crate::meta_write::address(starts[1]))
        + crate::bytes::le32_bytes(0x5052_4430) + crate::bytes::le16_bytes(0x0079)
        + crate::bytes::zeros(6) + crate::bytes::le32_bytes(1);
    assert(a.len() == 0x20);
    assert(a.subrange(0x10, 0x14) =~= crate::bytes::le32_bytes(0x5052_4430));
    assert(a.subrange(0x1C, 0x20) =~= crate::bytes::le32_bytes(1));
    crate::bytes::law_u32_round_trip(0x5052_4430);
    crate::bytes::law_u32_round_trip(1);
    assert(crate::bytes::le32(a, 0x10) == 0x5052_4430);
    assert(crate::bytes::le32(a, 0x1C) == 1);
    let structs = crate::meta_write::address_unless(p.structs.len() == 0, starts[2]);
    let enums = crate::meta_write::address_unless(
        p.enums.len() == 0,
        starts[crate::meta_write::enum_table(p)],
    );
    let blocks = crate::meta_write::address(starts[crate::meta_write::block_table(p)]);
    lemma_header_rest(
        a,
        structs,
        enums,
        blocks,
        p.structs.len() as u16,
        p.enums.len() as u16,
        p.blocks.len() as u16,
    );
}

proof fn lemma_header_rest(
    a: Seq<u8>,
    structs: u64,
    enums: u64,
    blocks: u64,
    n: u16,
    m: u16,
    k: u16,
)
    requires
        a.len() == 0x20,
    ensures
        ({
            let h = a + crate::bytes::le64_bytes(structs) + crate::bytes::le64_bytes(enums)
                + crate::bytes::le64_bytes(blocks) + crate::bytes::zeros(16)
                + crate::bytes::le16_bytes(n) + crate::bytes::le16_bytes(m)
                + crate::bytes::le16_bytes(k) + crate::bytes::zeros(0x22);
            &&& h.len() == 0x70
            &&& crate::bytes::le32(h, 0x10) == crate::bytes::le32(a, 0x10)
            &&& crate::bytes::le32(h, 0x1C) == crate::bytes::le32(a, 0x1C)
            &&& crate::bytes::le64(h, 0x20) == structs
            &&& crate::bytes::le64(h, 0x28) == enums
            &&& crate::bytes::le64(h, 0x30) == blocks
            &&& crate::bytes::le16(h, 0x48) == n
            &&& crate::bytes::le16(h, 0x4A) == m
            &&& crate::bytes::le16(h, 0x4C) == k
        }),
{
    let h = a + crate::bytes::le64_bytes(structs) + crate::bytes::le64_bytes(enums)
        + crate::bytes::le64_bytes(blocks) + crate::bytes::zeros(16) + crate::bytes::le16_bytes(n)
        + crate::bytes::le16_bytes(m) + crate::bytes::le16_bytes(k) + crate::bytes::zeros(0x22);
    let w = h.subrange(0, 0x20);
    assert(w =~= a);
    assert(crate::bytes::le32(w, 0x10) == crate::bytes::le32(h, 0x10));
    assert(crate::bytes::le32(w, 0x1C) == crate::bytes::le32(h, 0x1C));
    assert(h.subrange(0x20, 0x28) =~= crate::bytes::le64_bytes(structs));
    assert(h.subrange(0x28, 0x30) =~= crate::bytes::le64_bytes(enums));
    assert(h.subrange(0x30, 0x38) =~= crate::bytes::le64_bytes(blocks));
    assert(h.subrange(0x48, 0x4A) =~= crate::bytes::le16_bytes(n));
    assert(h.subrange(0x4A, 0x4C) =~= crate::bytes::le16_bytes(m));
    assert(h.subrange(0x4C, 0x4E) =~= crate::bytes::le16_bytes(k));
    crate::bytes::law_u64_round_trip(structs);
    crate::bytes::law_u64_round_trip(enums);
    crate::bytes::law_u64_round_trip(blocks);
    crate::bytes::law_u16_round_trip(n);
    crate::bytes::law_u16_round_trip(m);
    crate::bytes::law_u16_round_trip(k);
}

} // verus!
