//! PSO files come back as they were put together.

use vstd::prelude::*;

use crate::pso::{PsoEnumView, PsoError, PsoStructView, PsoView};
use crate::pso_laws::spots::World;
use crate::pso_write::{BuildState, Context, SECTION_PMAP, SECTION_PSCH, SECTION_PSIN};
use crate::schema::{PsoEnumDefView, PsoStructDefView, SchemaErrorView, SchemaView};
use crate::value::{StructView, ValueView};

verus! {

broadcast use crate::bytes::group_big_endian_reads;

// ─── what a file says ────────────────────────────────────────────────────────

/// The definitions of the first `k` used structures.
pub open spec fn structs_of(c: Context, used: Seq<u32>, k: nat) -> Seq<PsoStructDefView>
    decreases k,
{
    if k == 0 {
        Seq::empty()
    } else {
        let before = structs_of(c, used, (k - 1) as nat);
        if c.schema.pso_structs.contains_key(used[k - 1]) {
            before.push(c.schema.pso_structs[used[k - 1]])
        } else {
            before
        }
    }
}

/// The definitions of the first `k` used enums.
pub open spec fn enums_of(c: Context, used: Seq<u32>, k: nat) -> Seq<PsoEnumDefView>
    decreases k,
{
    if k == 0 {
        Seq::empty()
    } else {
        let before = enums_of(c, used, (k - 1) as nat);
        if c.schema.pso_enums.contains_key(used[k - 1]) {
            before.push(c.schema.pso_enums[used[k - 1]])
        } else {
            before
        }
    }
}

/// The structures that a file carries.
pub open spec fn carried_structs(c: Context, st: BuildState) -> Seq<PsoStructDefView> {
    structs_of(c, st.used_structs, st.used_structs.len())
}

/// The enums that a file carries.
pub open spec fn carried_enums(c: Context, st: BuildState) -> Seq<PsoEnumDefView> {
    enums_of(c, st.used_enums, st.used_enums.len())
}

/// The first `k` structures as a file describes them: of two of one name the
/// first counts.
pub open spec fn infos(defs: Seq<PsoStructDefView>, k: nat) -> Map<u32, PsoStructView>
    decreases k,
{
    if k == 0 {
        Map::empty()
    } else {
        crate::pso::or_insert(
            infos(defs, (k - 1) as nat),
            defs[k - 1].name,
            crate::pso_laws::fits::info_of(defs[k - 1]),
        )
    }
}

/// The first `k` enums as a file describes them.
pub open spec fn enum_infos(defs: Seq<PsoEnumDefView>, k: nat) -> Map<u32, PsoEnumView>
    decreases k,
{
    if k == 0 {
        Map::empty()
    } else {
        crate::pso::or_insert(
            enum_infos(defs, (k - 1) as nat),
            defs[k - 1].name,
            PsoEnumView { name_hash: defs[k - 1].name, entries: defs[k - 1].entries },
        )
    }
}

/// The data section.
pub open spec fn data_section(blocks: Seq<(u32, Seq<u8>)>) -> Seq<u8> {
    crate::pso_write::section(
        SECTION_PSIN,
        crate::bytes::zeros(8) + crate::pso_write::blocks_data(blocks, blocks.len()),
    )
}

/// The block table.
pub open spec fn map_section(blocks: Seq<(u32, Seq<u8>)>, root_id: u32) -> Seq<u8> {
    crate::pso_write::section(
        SECTION_PMAP,
        crate::bytes::be32_bytes(root_id) + crate::bytes::be16_bytes(blocks.len() as u16)
            + crate::bytes::be16_bytes(0x7070) + crate::pso_write::block_records(
            blocks,
            blocks.len(),
        ),
    )
}

/// What a file says that was put together.
pub open spec fn view_of(c: Context, st: BuildState, root_id: u32) -> PsoView {
    let structs = carried_structs(c, st);
    let enums = carried_enums(c, st);
    PsoView {
        data: data_section(st.blocks),
        root_id,
        blocks: Seq::new(
            st.blocks.len(),
            |i: int| crate::pso_laws::records::block_info(st.blocks, i),
        ),
        structs: infos(structs, structs.len()),
        enums: enum_infos(enums, enums.len()),
    }
}

/// Whether the counts of a file fit their fields.
pub open spec fn countable(c: Context, st: BuildState) -> bool {
    &&& 0 < st.blocks.len() < 0x8000
    &&& data_section(st.blocks).len() <= u32::MAX
    &&& map_section(st.blocks, 0).len() <= u32::MAX
    &&& crate::pso_laws::records::schema_section(crate::pso_write::schema_parts(c, st)).len()
        <= u32::MAX
    &&& forall|i: int|
        0 <= i < carried_structs(c, st).len() ==> (#[trigger] carried_structs(
            c,
            st,
        )[i]).entries.len() <= 0xFFFF
    &&& forall|i: int|
        0 <= i < carried_enums(c, st).len() ==> (#[trigger] carried_enums(c, st)[i]).entries.len()
            < 0x100_0000
}

// ─── the parts of the schema section ─────────────────────────────────────────

proof fn lemma_struct_parts(c: Context, used: Seq<u32>, k: nat)
    ensures
        ({
            let parts = crate::pso_write::struct_parts(c, used, k);
            let defs = structs_of(c, used, k);
            &&& parts.len() == defs.len()
            &&& forall|i: int|
                0 <= i < defs.len() ==> #[trigger] parts[i] == (
                    defs[i].name,
                    crate::pso_write::struct_record(defs[i]),
                )
        }),
    decreases k,
{
    if k > 0 {
        lemma_struct_parts(c, used, (k - 1) as nat);
    }
}

proof fn lemma_enum_parts(c: Context, used: Seq<u32>, k: nat)
    ensures
        ({
            let parts = crate::pso_write::enum_parts(c, used, k);
            let defs = enums_of(c, used, k);
            &&& parts.len() == defs.len()
            &&& forall|i: int|
                0 <= i < defs.len() ==> #[trigger] parts[i] == (
                    defs[i].name,
                    crate::pso_write::enum_record(defs[i]),
                )
        }),
    decreases k,
{
    if k > 0 {
        lemma_enum_parts(c, used, (k - 1) as nat);
    }
}

/// What part `i` of a schema is.
proof fn lemma_part(c: Context, st: BuildState, i: int)
    requires
        0 <= i < crate::pso_write::schema_parts(c, st).len(),
    ensures
        ({
            let parts = crate::pso_write::schema_parts(c, st);
            let structs = carried_structs(c, st);
            let enums = carried_enums(c, st);
            &&& parts.len() == structs.len() + enums.len()
            &&& i < structs.len() ==> parts[i] == (
                structs[i].name,
                crate::pso_write::struct_record(structs[i]),
            )
            &&& i >= structs.len() ==> parts[i] == (
                enums[i - structs.len()].name,
                crate::pso_write::enum_record(enums[i - structs.len()]),
            )
        }),
{
    lemma_struct_parts(c, st.used_structs, st.used_structs.len());
    lemma_enum_parts(c, st.used_enums, st.used_enums.len());
}

/// A file with the first `i` definitions read.
spec fn read_defs(f: PsoView, c: Context, st: BuildState, i: int) -> PsoView {
    let structs = carried_structs(c, st);
    let enums = carried_enums(c, st);
    PsoView {
        structs: infos(structs, crate::resource::least(i, structs.len() as int) as nat),
        enums: enum_infos(
            enums,
            if i > structs.len() {
                (i - structs.len()) as nat
            } else {
                0
            },
        ),
        ..f
    }
}

proof fn lemma_definition(f: PsoView, c: Context, st: BuildState, i: int)
    requires
        countable(c, st),
        0 <= i < crate::pso_write::schema_parts(c, st).len(),
    ensures
        ({
            let s = crate::pso_laws::records::schema_section(crate::pso_write::schema_parts(c, st));
            crate::pso::with_definition(read_defs(f, c, st, i), s, i) == Ok::<PsoView, PsoError>(
                read_defs(f, c, st, i + 1),
            )
        }),
{
    let parts = crate::pso_write::schema_parts(c, st);
    let s = crate::pso_laws::records::schema_section(parts);
    let structs = carried_structs(c, st);
    let enums = carried_enums(c, st);
    let at = crate::pso_laws::records::part_at(parts, i);
    crate::pso_laws::records::lemma_schema_index(parts, i);
    lemma_part(c, st, i);
    if i < structs.len() {
        let d = structs[i];
        assert(d.entries.len() <= 0xFFFF);
        crate::pso_laws::records::lemma_struct_record(d, s, at);
        assert(crate::pso_laws::fits::info_of(d) == PsoStructView {
            name_hash: d.name,
            size: d.size,
            entries: crate::pso::entries_at(s, at + 12, d.entries.len()),
        });
    } else {
        let d = enums[i - structs.len()];
        assert(d.entries.len() < 0x100_0000);
        crate::pso_laws::records::lemma_enum_record(d, s, at);
        assert(enum_infos(enums, (i + 1 - structs.len()) as nat) == crate::pso::or_insert(
            enum_infos(enums, (i - structs.len()) as nat),
            d.name,
            PsoEnumView { name_hash: d.name, entries: d.entries },
        ));
    }
}

proof fn lemma_definitions(f: PsoView, c: Context, st: BuildState, i: int)
    requires
        countable(c, st),
        0 <= i <= crate::pso_write::schema_parts(c, st).len(),
    ensures
        ({
            let parts = crate::pso_write::schema_parts(c, st);
            let s = crate::pso_laws::records::schema_section(parts);
            crate::pso::with_definitions(read_defs(f, c, st, i), s, i, parts.len() as int) == Ok::<
                PsoView,
                PsoError,
            >(read_defs(f, c, st, parts.len() as int))
        }),
    decreases crate::pso_write::schema_parts(c, st).len() - i,
{
    if i < crate::pso_write::schema_parts(c, st).len() {
        lemma_definition(f, c, st, i);
        lemma_definitions(f, c, st, i + 1);
    }
}

proof fn lemma_schema_reads(f: PsoView, c: Context, st: BuildState, root_id: u32)
    requires
        countable(c, st),
        f.structs == Map::<u32, PsoStructView>::empty(),
        f.enums == Map::<u32, PsoEnumView>::empty(),
    ensures
        ({
            let s = crate::pso_laws::records::schema_section(crate::pso_write::schema_parts(c, st));
            let v = view_of(c, st, root_id);
            crate::pso::with_psch(f, s) == Ok::<PsoView, PsoError>(
                PsoView { structs: v.structs, enums: v.enums, ..f },
            )
        }),
{
    let parts = crate::pso_write::schema_parts(c, st);
    crate::pso_laws::records::lemma_schema_count(parts);
    lemma_definitions(f, c, st, 0);
    lemma_struct_parts(c, st.used_structs, st.used_structs.len());
    lemma_enum_parts(c, st.used_enums, st.used_enums.len());
    assert(read_defs(f, c, st, 0) == f);
}

// ─── the block table ─────────────────────────────────────────────────────────

proof fn lemma_map_reads(f: PsoView, blocks: Seq<(u32, Seq<u8>)>, root_id: u32)
    requires
        0 < blocks.len() < 0x8000,
        f.blocks.len() == 0,
    ensures
        crate::pso::with_pmap(f, map_section(blocks, root_id)) == Ok::<PsoView, PsoError>(
            PsoView {
                root_id,
                blocks: Seq::new(
                    blocks.len(),
                    |i: int| crate::pso_laws::records::block_info(blocks, i),
                ),
                ..f
            },
        ),
{
    let s = map_section(blocks, root_id);
    let n = blocks.len() as u16;
    let t = crate::pso_write::block_records(blocks, blocks.len());
    crate::pso_laws::records::lemma_block_table(blocks, blocks.len());
    assert(s.len() == 16 + 16 * blocks.len());
    assert(s.subrange(8, 12) =~= crate::bytes::be32_bytes(root_id));
    assert(s.subrange(12, 14) =~= crate::bytes::be16_bytes(n));
    crate::bytes::law_u32_round_trip(root_id);
    crate::bytes::law_u16_round_trip(n);
    assert(crate::bytes::be32(s.subrange(8, 12), 0) == crate::bytes::be32(s, 8));
    assert(crate::bytes::be16(s.subrange(12, 14), 0) == crate::bytes::be16(s, 12));
    assert(s.subrange(16, s.len() as int) =~= t);
    crate::pso_laws::records::lemma_blocks(blocks, s, 16);
    let read = crate::pso::blocks_at(s, 16, blocks.len());
    assert(f.blocks + read =~= read);
}

// ─── the sections ────────────────────────────────────────────────────────────

proof fn lemma_section(ident: u32, body: Seq<u8>, before: Seq<u8>, rest: Seq<u8>)
    requires
        8 + body.len() <= u32::MAX,
    ensures
        ({
            let s = crate::pso_write::section(ident, body);
            let data = before + s + rest;
            let pos = before.len() as int;
            &&& s.len() == 8 + body.len()
            &&& crate::bytes::be32(data, pos) == ident
            &&& crate::bytes::be32(data, pos + 4) == s.len()
            &&& pos + s.len() <= data.len()
            &&& data.subrange(pos, pos + s.len()) == s
        }),
{
    let s = crate::pso_write::section(ident, body);
    let data = before + s + rest;
    let pos = before.len() as int;
    let n = (8 + body.len()) as u32;
    assert(data.subrange(pos, pos + 4) =~= crate::bytes::be32_bytes(ident));
    assert(data.subrange(pos + 4, pos + 8) =~= crate::bytes::be32_bytes(n));
    crate::bytes::law_u32_round_trip(ident);
    crate::bytes::law_u32_round_trip(n);
    assert(crate::bytes::be32(data.subrange(pos, pos + 4), 0) == crate::bytes::be32(data, pos));
    assert(crate::bytes::be32(data.subrange(pos + 4, pos + 8), 0) == crate::bytes::be32(
        data,
        pos + 4,
    ));
    assert(data.subrange(pos, pos + s.len()) =~= s);
}

/// Where the three sections of a file stand, and that nothing follows.
proof fn lemma_sections(c: Context, st: BuildState, root_id: u32)
    requires
        countable(c, st),
    ensures
        ({
            let data = crate::pso_write::assembled(c, st, root_id);
            let a = data_section(st.blocks);
            let b = map_section(st.blocks, root_id);
            let s = crate::pso_laws::records::schema_section(crate::pso_write::schema_parts(c, st));
            let ab = (a.len() + b.len()) as int;
            &&& a.len() >= 16 && b.len() >= 16 && s.len() >= 12
            &&& data.len() == a.len() + b.len() + s.len()
            &&& crate::bytes::be32(data, 0) == SECTION_PSIN
            &&& crate::bytes::be32(data, 4) == a.len()
            &&& data.subrange(0, a.len() as int) == a
            &&& crate::bytes::be32(data, a.len() as int) == SECTION_PMAP
            &&& crate::bytes::be32(data, a.len() + 4int) == b.len()
            &&& data.subrange(a.len() as int, ab) == b
            &&& crate::bytes::be32(data, ab) == SECTION_PSCH
            &&& crate::bytes::be32(data, ab + 4) == s.len()
            &&& data.subrange(ab, ab + s.len()) == s
        }),
{
    let data = crate::pso_write::assembled(c, st, root_id);
    let parts = crate::pso_write::schema_parts(c, st);
    let a = data_section(st.blocks);
    let b = map_section(st.blocks, root_id);
    let s = crate::pso_laws::records::schema_section(parts);
    let none = Seq::<u8>::empty();
    crate::pso_laws::records::lemma_block_table(st.blocks, st.blocks.len());
    crate::pso_laws::records::lemma_schema_count(parts);
    assert(map_section(st.blocks, 0).len() == b.len());
    lemma_section(
        SECTION_PSIN,
        crate::bytes::zeros(8) + crate::pso_write::blocks_data(st.blocks, st.blocks.len()),
        none,
        b + s,
    );
    assert(data =~= none + a + (b + s));
    lemma_section(
        SECTION_PMAP,
        crate::bytes::be32_bytes(root_id) + crate::bytes::be16_bytes(st.blocks.len() as u16)
            + crate::bytes::be16_bytes(0x7070) + crate::pso_write::block_records(
            st.blocks,
            st.blocks.len(),
        ),
        a,
        s,
    );
    assert(data =~= a + b + s);
    lemma_section(
        SECTION_PSCH,
        crate::bytes::be32_bytes(parts.len() as u32) + crate::pso_write::index_records(
            parts,
            parts.len(),
        ) + crate::pso_write::blocks_data(parts, parts.len()),
        a + b,
        none,
    );
    assert(data =~= a + b + s + none);
}

/// How a section is read.
proof fn lemma_next_section(f: PsoView, saw: bool, data: Seq<u8>, pos: int, s: Seq<u8>)
    requires
        0 <= pos,
        s.len() >= 8,
        pos + s.len() <= data.len(),
        crate::bytes::be32(data, pos + 4) == s.len(),
        data.subrange(pos, pos + s.len()) == s,
    ensures
        crate::pso::with_sections(f, saw, data, pos) == match crate::pso::with_section(
            f,
            crate::bytes::be32(data, pos),
            s,
        ) {
            Ok(g) => crate::pso::with_sections(
                g,
                saw || crate::bytes::be32(data, pos) == SECTION_PMAP,
                data,
                pos + s.len(),
            ),
            Err(e) => Err(e),
        },
{
}

/// A file that was put together says on reading what was put into it: the
/// data, the blocks and the definitions.
pub proof fn law_assembled_files_read_back(c: Context, st: BuildState, root_id: u32)
    requires
        countable(c, st),
    ensures
        crate::pso::parsed(crate::pso_write::assembled(c, st, root_id)) == Ok::<PsoView, PsoError>(
            view_of(c, st, root_id),
        ),
{
    let data = crate::pso_write::assembled(c, st, root_id);
    let a = data_section(st.blocks);
    let b = map_section(st.blocks, root_id);
    let s = crate::pso_laws::records::schema_section(crate::pso_write::schema_parts(c, st));
    let v = view_of(c, st, root_id);
    lemma_sections(c, st, root_id);
    let f0 = crate::pso::blank();
    let f1 = PsoView { data: a, ..f0 };
    let f2 = PsoView { root_id, blocks: v.blocks, ..f1 };
    lemma_next_section(f0, false, data, 0, a);
    lemma_next_section(f1, false, data, a.len() as int, b);
    lemma_map_reads(f1, st.blocks, root_id);
    lemma_next_section(f2, true, data, (a.len() + b.len()) as int, s);
    lemma_schema_reads(f2, c, st, root_id);
    assert(crate::pso::with_sections(v, true, data, data.len() as int) == Ok::<
        (PsoView, bool),
        PsoError,
    >((v, true)));
}

// ─── the schema ──────────────────────────────────────────────────────────────

/// The first `k` structures by name: of two of one name the last counts.
pub open spec fn struct_defs(defs: Seq<PsoStructDefView>, k: nat) -> Map<u32, PsoStructDefView>
    decreases k,
{
    if k == 0 {
        Map::empty()
    } else {
        struct_defs(defs, (k - 1) as nat).insert(
            defs[k - 1].name,
            PsoStructDefView { ty: 0, ..defs[k - 1] },
        )
    }
}

/// The first `k` enums by name.
pub open spec fn enum_defs(defs: Seq<PsoEnumDefView>, k: nat) -> Map<u32, PsoEnumDefView>
    decreases k,
{
    if k == 0 {
        Map::empty()
    } else {
        enum_defs(defs, (k - 1) as nat).insert(
            defs[k - 1].name,
            PsoEnumDefView { ty: 1, ..defs[k - 1] },
        )
    }
}

/// A schema with the first `i` definitions read.
spec fn learned(c: Context, st: BuildState, i: int) -> SchemaView {
    let structs = carried_structs(c, st);
    let enums = carried_enums(c, st);
    SchemaView {
        pso_structs: struct_defs(structs, crate::resource::least(i, structs.len() as int) as nat),
        pso_enums: enum_defs(
            enums,
            if i > structs.len() {
                (i - structs.len()) as nat
            } else {
                0
            },
        ),
        ..crate::schema::no_schema()
    }
}

proof fn lemma_learned(c: Context, st: BuildState, i: int)
    requires
        countable(c, st),
        0 <= i < crate::pso_write::schema_parts(c, st).len(),
    ensures
        ({
            let s = crate::pso_laws::records::schema_section(crate::pso_write::schema_parts(c, st));
            crate::schema::with_pso_definition(learned(c, st, i), s, i) == Ok::<
                SchemaView,
                SchemaErrorView,
            >(learned(c, st, i + 1))
        }),
{
    let parts = crate::pso_write::schema_parts(c, st);
    let s = crate::pso_laws::records::schema_section(parts);
    let structs = carried_structs(c, st);
    let enums = carried_enums(c, st);
    let at = crate::pso_laws::records::part_at(parts, i);
    crate::pso_laws::records::lemma_schema_index(parts, i);
    lemma_part(c, st, i);
    if i < structs.len() {
        let d = structs[i];
        assert(d.entries.len() <= 0xFFFF);
        crate::pso_laws::records::lemma_struct_record(d, s, at);
    } else {
        let d = enums[i - structs.len()];
        assert(d.entries.len() < 0x100_0000);
        crate::pso_laws::records::lemma_enum_record(d, s, at);
        assert(enum_defs(enums, (i + 1 - structs.len()) as nat) == enum_defs(
            enums,
            (i - structs.len()) as nat,
        ).insert(d.name, PsoEnumDefView { ty: 1, ..d }));
    }
}

proof fn lemma_all_learned(c: Context, st: BuildState, i: int)
    requires
        countable(c, st),
        0 <= i <= crate::pso_write::schema_parts(c, st).len(),
    ensures
        ({
            let parts = crate::pso_write::schema_parts(c, st);
            let s = crate::pso_laws::records::schema_section(parts);
            crate::schema::with_pso_definitions(learned(c, st, i), s, i, parts.len() as int)
                == Ok::<SchemaView, SchemaErrorView>(learned(c, st, parts.len() as int))
        }),
    decreases crate::pso_write::schema_parts(c, st).len() - i,
{
    if i < crate::pso_write::schema_parts(c, st).len() {
        lemma_learned(c, st, i);
        lemma_all_learned(c, st, i + 1);
    }
}

/// The schema that is learnt from a file is the part of its writer's schema
/// that the file uses.
pub proof fn law_assembled_schemas_read_back(c: Context, st: BuildState, root_id: u32)
    requires
        countable(c, st),
    ensures
        ({
            let structs = carried_structs(c, st);
            let enums = carried_enums(c, st);
            crate::schema::with_pso_sections(
                crate::schema::no_schema(),
                crate::pso_write::assembled(c, st, root_id),
                0,
            ) == Ok::<SchemaView, SchemaErrorView>(
                SchemaView {
                    pso_structs: struct_defs(structs, structs.len()),
                    pso_enums: enum_defs(enums, enums.len()),
                    ..crate::schema::no_schema()
                },
            )
        }),
{
    let data = crate::pso_write::assembled(c, st, root_id);
    let a = data_section(st.blocks);
    let b = map_section(st.blocks, root_id);
    let parts = crate::pso_write::schema_parts(c, st);
    let ab = (a.len() + b.len()) as int;
    let none = crate::schema::no_schema();
    lemma_sections(c, st, root_id);
    crate::pso_laws::records::lemma_schema_count(parts);
    lemma_struct_parts(c, st.used_structs, st.used_structs.len());
    lemma_enum_parts(c, st.used_enums, st.used_enums.len());
    lemma_all_learned(c, st, 0);
    let all = learned(c, st, parts.len() as int);
    assert(learned(c, st, 0) == none);
    assert(crate::schema::with_pso_sections(all, data, data.len() as int) == Ok::<
        SchemaView,
        SchemaErrorView,
    >(all));
    assert(crate::schema::with_pso_sections(none, data, ab) == Ok::<SchemaView, SchemaErrorView>(
        all,
    ));
    assert(crate::schema::with_pso_sections(none, data, a.len() as int)
        == crate::schema::with_pso_sections(none, data, ab));
}

// ─── the tree ────────────────────────────────────────────────────────────────

/// Whether every structure of a schema is known by its own name.
pub open spec fn well_named(s: SchemaView) -> bool {
    forall|key: u32| #[trigger]
        s.pso_structs.contains_key(key) ==> s.pso_structs[key].name == key
}

proof fn lemma_infos_prefix(a: Seq<PsoStructDefView>, b: Seq<PsoStructDefView>, k: nat)
    requires
        k <= a.len() <= b.len(),
        forall|i: int| 0 <= i < k ==> #[trigger] b[i] == a[i],
    ensures
        infos(a, k) == infos(b, k),
    decreases k,
{
    if k > 0 {
        lemma_infos_prefix(a, b, (k - 1) as nat);
        assert(b[k - 1] == a[k - 1]);
    }
}

/// Every structure that a file describes is one of the schema.
proof fn lemma_infos_sound(c: Context, names: Seq<u32>, n: nat)
    requires
        well_named(c.schema),
        n <= names.len(),
    ensures
        ({
            let defs = structs_of(c, names, n);
            let m = infos(defs, defs.len());
            forall|key: u32| #[trigger]
                m.contains_key(key) ==> c.schema.pso_structs.contains_key(key) && m[key]
                    == crate::pso_laws::fits::info_of(c.schema.pso_structs[key])
        }),
    decreases n,
{
    let defs = structs_of(c, names, n);
    if n > 0 {
        lemma_infos_sound(c, names, (n - 1) as nat);
        let before = structs_of(c, names, (n - 1) as nat);
        let last = names[n - 1];
        if c.schema.pso_structs.contains_key(last) {
            assert(defs == before.push(c.schema.pso_structs[last]));
            lemma_infos_prefix(before, defs, before.len());
        }
    }
}

/// Every structure that was used is described.
proof fn lemma_infos(c: Context, names: Seq<u32>, n: nat, key: u32)
    requires
        well_named(c.schema),
        n <= names.len(),
        names.take(n as int).contains(key),
        c.schema.pso_structs.contains_key(key),
    ensures
        ({
            let defs = structs_of(c, names, n);
            let m = infos(defs, defs.len());
            &&& m.contains_key(key)
            &&& m[key] == crate::pso_laws::fits::info_of(c.schema.pso_structs[key])
        }),
    decreases n,
{
    let defs = structs_of(c, names, n);
    let i = choose|i: int| 0 <= i < n && names.take(n as int)[i] == key;
    let before = structs_of(c, names, (n - 1) as nat);
    let last = names[n - 1];
    lemma_infos_sound(c, names, n);
    if i < n - 1 {
        assert(names.take(n - 1)[i] == key);
        lemma_infos(c, names, (n - 1) as nat, key);
    }
    if c.schema.pso_structs.contains_key(last) {
        assert(defs == before.push(c.schema.pso_structs[last]));
        lemma_infos_prefix(before, defs, before.len());
    }
}

/// A file shows what its writer put together.
proof fn lemma_shows(c: Context, st: BuildState, root_id: u32)
    requires
        well_named(c.schema),
        countable(c, st),
        st.blocks.len() <= 0xFFF,
    ensures
        crate::pso_laws::fits::shows(view_of(c, st, root_id), c, st),
{
    let f = view_of(c, st, root_id);
    let names = st.used_structs;
    let n = st.blocks.len();
    let all = crate::pso_write::blocks_data(st.blocks, n);
    assert(names.take(names.len() as int) =~= names);
    assert forall|key: u32|
        st.used_structs.contains(key) && c.schema.pso_structs.contains_key(key) implies (
    #[trigger] f.structs.contains_key(key)) && f.structs[key] == crate::pso_laws::fits::info_of(
        c.schema.pso_structs[key],
    ) by {
        lemma_infos(c, names, names.len(), key);
    }
    assert(f.data.len() == 16 + all.len());
    assert forall|i: int| 0 <= i < n implies {
        let b = #[trigger] f.blocks[i];
        &&& b.name_hash == st.blocks[i].0
        &&& b.offset + st.blocks[i].1.len() <= f.data.len()
        &&& f.data.subrange(b.offset as int, b.offset + st.blocks[i].1.len()) == st.blocks[i].1
    } by {
        crate::pso_laws::records::lemma_block_data(st.blocks, n, i);
        let from = crate::pso_write::blocks_data(st.blocks, i as nat).len() as int;
        let to = from + st.blocks[i].1.len();
        assert(f.blocks[i] == crate::pso_laws::records::block_info(st.blocks, i));
        assert(f.data.subrange(16 + from, 16 + to) =~= all.subrange(from, to));
    }
}

/// What is written of a tree, before its root is stored.
pub open spec fn before_root(c: Context, root: StructView) -> (Seq<u8>, BuildState) {
    crate::pso_write::write_struct(
        c,
        root.type_hash,
        Some(root.fields),
        crate::pso_write::fresh(),
        crate::pso_write::full_fuel(c.schema),
    )
}

/// What is written of a whole tree, and the pointer to its root.
pub open spec fn whole(c: Context, root: StructView) -> (BuildState, u32) {
    let r = before_root(c, root);
    crate::pso_write::add_item(r.1, c.schema.pso_structs[root.type_hash].name, r.0)
}

/// A tree that fits its schema comes back whole from the file that is built
/// of it: reading the file gives the same tree, and nothing to warn of. The
/// root has to stand at the start of its block, where readers look for it.
pub proof fn law_built_trees_read_back(c: Context, root: StructView)
    requires
        well_named(c.schema),
        countable(c, whole(c, root).0),
        whole(c, root).0.blocks.len() <= 0xFFF,
        crate::pso_laws::grow::offset_at(
            before_root(c, root).1,
            root.type_hash,
            before_root(c, root).0,
        ) == 0,
        crate::pso_laws::fits::fits_struct(
            view_of(c, whole(c, root).0, (whole(c, root).1 % 0x1000) as u32),
            c.schema,
            root.type_hash,
            root.fields,
            0,
        ),
    ensures
        ({
            let f = crate::pso::parsed(crate::pso_write::built(c, root).0);
            &&& f is Ok
            &&& crate::pso::walked(f->Ok_0) == crate::pso::plain(ValueView::Struct(root))
        }),
{
    let key = root.type_hash;
    let r = before_root(c, root);
    let end = whole(c, root).0;
    let root_id = (whole(c, root).1 % 0x1000) as u32;
    let f = view_of(c, end, root_id);
    let w = World { f, c, end };
    law_assembled_files_read_back(c, end, root_id);
    lemma_shows(c, end, root_id);
    crate::pso_laws::tree::lemma_known(w, key, root.fields, 0);
    crate::pso_laws::grow::lemma_add(r.1, key, r.0);
    let block = crate::pso_laws::grow::block_at(r.1, key, r.0);
    assert(crate::pso_laws::grow::grows(end, end));
    crate::pso_laws::spots::lemma_has(w, end, block, 0, key, r.0);
    assert(crate::pso::pointee(f, whole(c, root).1) == Some(
        (f.blocks[block], w.target(block, 0)),
    ));
    assert(crate::pso::block_of(f, root_id) == Some(f.blocks[block]));
    crate::pso_laws::tree::lemma_struct_reads(
        w,
        key,
        root.fields,
        crate::pso_write::fresh(),
        crate::pso_write::full_fuel(c.schema),
        f.blocks[block].offset as int,
        0,
    );
    assert(root == StructView { type_hash: key, fields: root.fields });
}

} // verus!
