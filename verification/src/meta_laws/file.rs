//! A Meta file comes back: its definitions, its blocks and its tree.

use vstd::prelude::*;

use crate::meta_block::{BlockView, MetaError};
use crate::meta_laws::spots::World;
use crate::meta_schema::{EnumInfoView, MetaView, StructInfoView};
use crate::meta_write::{Parts, MAX_PAGES, MAX_ROUNDS};
use crate::pso_write::{BuildState, Context};
use crate::resource::ResourceError;
use crate::schema::{MetaEnumDefView, MetaStructDefView, SchemaView};
use crate::value::{StructView, ValueView};

verus! {

broadcast use crate::bytes::group_subrange_reads;

/// The structures that a file describes, the first of each name.
pub open spec fn infos(defs: Seq<MetaStructDefView>, k: nat) -> Map<u32, StructInfoView>
    decreases k,
{
    if k == 0 {
        Map::empty()
    } else {
        crate::meta_schema::or_insert(
            infos(defs, (k - 1) as nat),
            defs[k - 1].name,
            crate::meta_laws::fits::info_of(defs[k - 1]),
        )
    }
}

/// The enums that a file describes, the first of each name.
pub open spec fn enum_infos(defs: Seq<MetaEnumDefView>, k: nat) -> Map<u32, EnumInfoView>
    decreases k,
{
    if k == 0 {
        Map::empty()
    } else {
        crate::meta_schema::or_insert(
            enum_infos(defs, (k - 1) as nat),
            defs[k - 1].name,
            EnumInfoView { name_hash: defs[k - 1].name, entries: defs[k - 1].entries },
        )
    }
}

/// The definitions of some structures, the last of each name.
pub open spec fn struct_defs(defs: Seq<MetaStructDefView>, k: nat) -> Map<u32, MetaStructDefView>
    decreases k,
{
    if k == 0 {
        Map::empty()
    } else {
        struct_defs(defs, (k - 1) as nat).insert(defs[k - 1].name, defs[k - 1])
    }
}

/// The definitions of some enums, the last of each name.
pub open spec fn enum_defs(defs: Seq<MetaEnumDefView>, k: nat) -> Map<u32, MetaEnumDefView>
    decreases k,
{
    if k == 0 {
        Map::empty()
    } else {
        enum_defs(defs, (k - 1) as nat).insert(defs[k - 1].name, defs[k - 1])
    }
}

/// Where the pieces of a file stand, in the pages that hold them.
pub open spec fn starts_of(p: Parts) -> Seq<int> {
    let l = crate::meta_write::layout_of(
        p,
        crate::meta_write::settled(p, 1, MAX_ROUNDS as nat)->0,
    )->0;
    l.1
}

/// What a file is read as.
pub open spec fn view_of(p: Parts) -> MetaView {
    MetaView {
        root_block: 0,
        structs: infos(p.structs, p.structs.len()),
        enums: enum_infos(p.enums, p.enums.len()),
        blocks: Seq::new(
            p.blocks.len(),
            |i: int|
                BlockView {
                    name_hash: p.blocks[i].0,
                    data: p.blocks[i].1,
                    system_offset: Some(
                        starts_of(p)[crate::meta_write::block_table(p) + i + 1] as u64,
                    ),
                },
        ),
    }
}

/// Whether the counts of a file fit the fields they are stored in, and every
/// place has an address of its own.
pub open spec fn countable(p: Parts) -> bool {
    &&& p.structs.len() <= 0xFFFF
    &&& p.enums.len() <= 0xFFFF
    &&& 0 < p.blocks.len() <= 0xFFFF
    &&& forall|i: int|
        0 <= i < p.structs.len() ==> (#[trigger] p.structs[i]).entries.len() <= 0xFFFF
    &&& forall|i: int| 0 <= i < starts_of(p).len() ==> #[trigger] starts_of(p)[i] < 0x1000_0000
}

struct Laid {
    p: Parts,
    pages: int,
    starts: Seq<int>,
    system: Seq<u8>,
}

impl Laid {
    spec fn piece(self, i: int) -> Seq<u8> {
        crate::meta_write::piece(self.p, self.pages, self.starts, i)
    }

    /// Every piece stands in its place, and has an address.
    spec fn stands(self) -> bool {
        &&& self.starts.len() == crate::meta_write::piece_count(self.p)
        &&& self.starts[0] == 0
        &&& self.pages >= 0
        &&& forall|i: int|
            0 <= i < self.starts.len() ==> {
                &&& 0 <= #[trigger] self.starts[i] < 0x1000_0000
                &&& self.starts[i] + self.piece(i).len() <= self.system.len()
                &&& self.system.subrange(
                    self.starts[i],
                    self.starts[i] + self.piece(i).len(),
                ) == self.piece(i)
            }
    }

    spec fn usable(self) -> bool {
        &&& self.stands()
        &&& self.p.structs.len() <= 0xFFFF
        &&& self.p.enums.len() <= 0xFFFF
        &&& 0 < self.p.blocks.len() <= 0xFFFF
        &&& forall|i: int|
            0 <= i < self.p.structs.len() ==> (#[trigger] self.p.structs[i]).entries.len()
                <= 0xFFFF
        &&& forall|i: int|
            0 <= i < self.p.enums.len() ==> (#[trigger] self.p.enums[i]).entries.len() <= u32::MAX
        &&& forall|i: int|
            0 <= i < self.p.blocks.len() ==> (#[trigger] self.p.blocks[i]).1.len() <= u32::MAX
    }
}

proof fn lemma_piece_resolves(d: Laid, graphics: Seq<u8>, i: int)
    requires
        d.stands(),
        0 <= i < d.starts.len(),
    ensures
        crate::resource::resolved(
            d.system,
            graphics,
            crate::meta_write::address(d.starts[i]),
            d.piece(i).len() as int,
        ) == Some(d.piece(i)),
        crate::meta_write::address(d.starts[i]) != 0,
        crate::meta_write::address(d.starts[i]) == crate::resource::SYSTEM_BASE + d.starts[i],
{
    crate::ytd_laws::law_system_addresses(d.starts[i]);
    assert(crate::ytd_write::address(d.starts[i]) == crate::meta_write::address(d.starts[i]));
}

// ─── definitions ─────────────────────────────────────────────────────────────

/// What the record of structure `i` says, and the members it points at.
#[verifier::rlimit(60)]
#[verifier::spinoff_prover]
proof fn lemma_struct_reads(d: Laid, graphics: Seq<u8>, i: int)
    requires
        d.usable(),
        0 <= i < d.p.structs.len(),
    ensures
        ({
            let table = d.piece(2);
            let s = d.p.structs[i];
            let at = 32 * i;
            &&& crate::bytes::le32(table, at) == s.name
            &&& crate::bytes::le32(table, at + 4) == s.key
            &&& crate::bytes::le32(table, at + 8) == s.unk8
            &&& crate::bytes::le32(table, at + 0x18) == s.size
            &&& crate::bytes::le16(table, at + 0x1E) == s.entries.len()
            &&& crate::meta_schema::table_at(
                d.system,
                graphics,
                crate::bytes::le64(table, at + 0x10),
                s.entries.len() as int,
                16,
            ) is Some
            &&& ({
                let b = crate::meta_schema::table_at(
                    d.system,
                    graphics,
                    crate::bytes::le64(table, at + 0x10),
                    s.entries.len() as int,
                    16,
                )->0;
                &&& crate::meta_schema::entries_at(b, s.entries.len())
                    == crate::meta_laws::fits::info_of(s).entries
                &&& crate::schema::meta_defs_at(b, s.entries.len()) == s.entries
            })
        }),
{
    let table = d.piece(2);
    let s = d.p.structs[i];
    let at = 32 * i;
    let va = crate::meta_laws::records::members_address(d.p, d.starts, i);
    crate::meta_laws::records::lemma_struct_table(d.p, d.starts, d.p.structs.len(), i);
    crate::meta_laws::records::lemma_struct_record(s, va);
    let w = table.subrange(at, at + 32);
    assert(crate::bytes::le32(w, 0) == crate::bytes::le32(table, at));
    assert(crate::bytes::le32(w, 4) == crate::bytes::le32(table, at + 4));
    assert(crate::bytes::le32(w, 8) == crate::bytes::le32(table, at + 8));
    assert(crate::bytes::le64(w, 0x10) == crate::bytes::le64(table, at + 0x10));
    assert(crate::bytes::le32(w, 0x18) == crate::bytes::le32(table, at + 0x18));
    assert(crate::bytes::le16(w, 0x1E) == crate::bytes::le16(table, at + 0x1E));
    crate::meta_laws::records::lemma_members(s);
    lemma_piece_resolves(d, graphics, i + 3);
    let bytes = crate::meta_write::member_records(s.entries, s.entries.len());
    assert(d.piece(i + 3) == bytes);
    if s.entries.len() == 0 {
        assert(bytes =~= Seq::<u8>::empty());
    }
}

proof fn lemma_structs_read(d: Laid, graphics: Seq<u8>, k: nat)
    requires
        d.usable(),
        k <= d.p.structs.len(),
    ensures
        crate::meta_schema::structs_upto(d.system, graphics, d.piece(2), k) == Ok::<
            Map<u32, StructInfoView>,
            MetaError,
        >(infos(d.p.structs, k)),
        crate::schema::meta_structs_upto(d.system, graphics, d.piece(2), k) == Ok::<
            Map<u32, MetaStructDefView>,
            MetaError,
        >(struct_defs(d.p.structs, k)),
    decreases k,
{
    if k > 0 {
        lemma_structs_read(d, graphics, (k - 1) as nat);
        lemma_struct_reads(d, graphics, k - 1);
    }
}

/// What the record of enum `i` says, and the members it points at.
#[verifier::rlimit(60)]
#[verifier::spinoff_prover]
proof fn lemma_enum_reads(d: Laid, graphics: Seq<u8>, i: int)
    requires
        d.usable(),
        0 <= i < d.p.enums.len(),
    ensures
        ({
            let table = d.piece(crate::meta_write::enum_table(d.p));
            let s = d.p.enums[i];
            let at = 24 * i;
            &&& crate::bytes::le32(table, at) == s.name
            &&& crate::bytes::le32(table, at + 4) == s.key
            &&& crate::bytes::le32(table, at + 0x10) == s.entries.len()
            &&& crate::meta_schema::table_at(
                d.system,
                graphics,
                crate::bytes::le64(table, at + 8),
                s.entries.len() as int,
                8,
            ) is Some
            &&& crate::meta_schema::enumerators_at(
                crate::meta_schema::table_at(
                    d.system,
                    graphics,
                    crate::bytes::le64(table, at + 8),
                    s.entries.len() as int,
                    8,
                )->0,
                s.entries.len(),
            ) == s.entries
        }),
{
    let n = crate::meta_write::enum_table(d.p);
    let table = d.piece(n);
    let s = d.p.enums[i];
    let at = 24 * i;
    let va = crate::meta_laws::records::enumerators_address(d.p, d.starts, i);
    crate::meta_laws::records::lemma_enum_table(d.p, d.starts, d.p.enums.len(), i);
    crate::meta_laws::records::lemma_enum_record(s, va);
    let w = table.subrange(at, at + 24);
    assert(crate::bytes::le32(w, 0) == crate::bytes::le32(table, at));
    assert(crate::bytes::le32(w, 4) == crate::bytes::le32(table, at + 4));
    assert(crate::bytes::le64(w, 8) == crate::bytes::le64(table, at + 8));
    assert(crate::bytes::le32(w, 0x10) == crate::bytes::le32(table, at + 0x10));
    crate::meta_laws::records::lemma_enumerators(s.entries);
    lemma_piece_resolves(d, graphics, n + i + 1);
    let bytes = crate::meta_write::enumerator_records(s.entries, s.entries.len());
    assert(d.piece(n + i + 1) == bytes);
    if s.entries.len() == 0 {
        assert(bytes =~= Seq::<u8>::empty());
    }
}

proof fn lemma_enums_read(d: Laid, graphics: Seq<u8>, k: nat)
    requires
        d.usable(),
        k <= d.p.enums.len(),
    ensures
        crate::meta_schema::enums_upto(
            d.system,
            graphics,
            d.piece(crate::meta_write::enum_table(d.p)),
            k,
        ) == Ok::<Map<u32, EnumInfoView>, MetaError>(enum_infos(d.p.enums, k)),
        crate::schema::meta_enums_upto(
            d.system,
            graphics,
            d.piece(crate::meta_write::enum_table(d.p)),
            k,
        ) == Ok::<Map<u32, MetaEnumDefView>, MetaError>(enum_defs(d.p.enums, k)),
    decreases k,
{
    if k > 0 {
        lemma_enums_read(d, graphics, (k - 1) as nat);
        lemma_enum_reads(d, graphics, k - 1);
    }
}

/// The header of a file that is laid out.
proof fn lemma_header_resolves(d: Laid, graphics: Seq<u8>)
    requires
        d.usable(),
    ensures
        crate::resource::resolved(d.system, graphics, crate::resource::SYSTEM_BASE, 0x70) == Some(
            d.piece(0),
        ),
        d.piece(0) == crate::meta_write::header(d.p, d.starts),
{
    crate::meta_laws::records::lemma_header(d.p, d.starts);
    lemma_piece_resolves(d, graphics, 0);
}

proof fn lemma_tables_resolve(d: Laid, graphics: Seq<u8>)
    requires
        d.usable(),
    ensures
        ({
            let header = d.piece(0);
            let n = d.p.structs.len() as int;
            let m = d.p.enums.len() as int;
            &&& crate::meta_schema::table_at(
                d.system,
                graphics,
                crate::bytes::le64(header, 0x20),
                n,
                32,
            ) == Some(d.piece(2))
            &&& crate::meta_schema::table_at(
                d.system,
                graphics,
                crate::bytes::le64(header, 0x28),
                m,
                24,
            ) == Some(d.piece(crate::meta_write::enum_table(d.p)))
        }),
{
    crate::meta_laws::records::lemma_header(d.p, d.starts);
    let e = crate::meta_write::enum_table(d.p);
    lemma_piece_resolves(d, graphics, 2);
    lemma_piece_resolves(d, graphics, e);
    if d.p.structs.len() == 0 {
        assert(d.piece(2) =~= Seq::<u8>::empty());
    } else {
        crate::meta_laws::records::lemma_struct_table(d.p, d.starts, d.p.structs.len(), 0);
    }
    if d.p.enums.len() == 0 {
        assert(d.piece(e) =~= Seq::<u8>::empty());
    } else {
        crate::meta_laws::records::lemma_enum_table(d.p, d.starts, d.p.enums.len(), 0);
    }
}

// ─── blocks ──────────────────────────────────────────────────────────────────

proof fn lemma_block_reads(d: Laid, graphics: Seq<u8>, i: int)
    requires
        d.usable(),
        0 <= i < d.p.blocks.len(),
    ensures
        crate::meta_block::block_from(
            d.system,
            graphics,
            d.piece(crate::meta_write::block_table(d.p)),
            i,
        ) == (BlockView {
            name_hash: d.p.blocks[i].0,
            data: d.p.blocks[i].1,
            system_offset: Some(
                d.starts[crate::meta_write::block_table(d.p) + i + 1] as u64,
            ),
        }),
{
    let n = crate::meta_write::block_table(d.p);
    crate::meta_laws::records::lemma_block_record(d.p, d.starts, d.p.blocks.len(), i);
    lemma_piece_resolves(d, graphics, n + i + 1);
    assert(d.piece(n + i + 1) == d.p.blocks[i].1);
}

proof fn lemma_blocks_read(d: Laid, graphics: Seq<u8>)
    requires
        d.usable(),
    ensures
        crate::meta_block::blocks_of(d.system, graphics) == Ok::<Seq<BlockView>, MetaError>(
            Seq::new(
                d.p.blocks.len(),
                |i: int|
                    BlockView {
                        name_hash: d.p.blocks[i].0,
                        data: d.p.blocks[i].1,
                        system_offset: Some(
                            d.starts[crate::meta_write::block_table(d.p) + i + 1] as u64,
                        ),
                    },
            ),
        ),
{
    let n = crate::meta_write::block_table(d.p);
    lemma_header_resolves(d, graphics);
    crate::meta_laws::records::lemma_header(d.p, d.starts);
    lemma_piece_resolves(d, graphics, n);
    crate::meta_laws::records::lemma_block_record(d.p, d.starts, d.p.blocks.len(), 0);
    let got = crate::meta_block::blocks_of(d.system, graphics);
    let want = Seq::new(
        d.p.blocks.len(),
        |i: int|
            BlockView {
                name_hash: d.p.blocks[i].0,
                data: d.p.blocks[i].1,
                system_offset: Some(
                    d.starts[crate::meta_write::block_table(d.p) + i + 1] as u64,
                ),
            },
    );
    assert(got is Ok);
    assert forall|i: int| 0 <= i < want.len() implies got->Ok_0[i] == want[i] by {
        lemma_block_reads(d, graphics, i);
    }
    assert(got->Ok_0 =~= want);
}

// ─── the file ────────────────────────────────────────────────────────────────

proof fn lemma_laid(p: Parts, pages: int, k: nat)
    requires
        crate::meta_write::layout_of(p, pages) is Some,
        k <= crate::meta_write::piece_count(p),
    ensures
        ({
            let l = crate::meta_write::layout_of(p, pages)->0;
            let pieces = Seq::new(
                crate::meta_write::piece_count(p),
                |i: int| crate::meta_write::piece(p, pages, l.1, i),
            );
            crate::meta_write::image(p, pages, k) == crate::paging::laid(l.2, l.1, pieces, k)
        }),
    decreases k,
{
    if k > 0 {
        lemma_laid(p, pages, (k - 1) as nat);
    }
}

proof fn lemma_settled(p: Parts, pages: int, rounds: nat)
    requires
        crate::meta_write::settled(p, pages, rounds) is Some,
    ensures
        crate::meta_write::layout_of(p, crate::meta_write::settled(p, pages, rounds)->0) is Some,
        pages >= 0 ==> crate::meta_write::settled(p, pages, rounds)->0 >= 0,
    decreases rounds,
{
    reveal(crate::resource::page_count);
    let l = crate::meta_write::layout_of(p, pages)->0;
    if crate::resource::page_count(l.0) != pages {
        lemma_settled(p, crate::resource::page_count(l.0), (rounds - 1) as nat);
    }
}

/// A file that was assembled, laid out.
spec fn laid_of(p: Parts) -> Laid {
    let pages = crate::meta_write::settled(p, 1, MAX_ROUNDS as nat)->0;
    Laid {
        p,
        pages,
        starts: starts_of(p),
        system: crate::meta_write::system_of(p, pages),
    }
}

proof fn lemma_apart(p: Parts, pages: int)
    requires
        crate::meta_write::layout_of(p, pages) is Some,
        pages >= 0,
    ensures
        ({
            let l = crate::meta_write::layout_of(p, pages)->0;
            let n = crate::meta_write::piece_count(p);
            let pieces = Seq::new(n, |i: int| crate::meta_write::piece(p, pages, l.1, i));
            crate::paging::apart(l.2, l.1, pieces) && l.2 >= 0
        }),
{
    let l = crate::meta_write::layout_of(p, pages)->0;
    let n = crate::meta_write::piece_count(p);
    let pieces = Seq::new(n, |i: int| crate::meta_write::piece(p, pages, l.1, i));
    crate::meta_write::lemma_piece_places(p, pages, 0, 0);
    assert forall|i: int| 0 <= i < pieces.len() implies 0 <= #[trigger] l.1[i] && l.1[i]
        + pieces[i].len() <= l.2 by {
        crate::meta_write::lemma_piece_places(p, pages, i, i);
    }
    assert forall|i: int, j: int| 0 <= i < j < pieces.len() implies #[trigger] l.1[i]
        + pieces[i].len() <= #[trigger] l.1[j] by {
        crate::meta_write::lemma_piece_places(p, pages, i, j);
    }
    assert(0 <= l.1[0] && l.1[0] + pieces[0].len() <= l.2);
}

proof fn lemma_stands(p: Parts)
    requires
        crate::meta_write::settled(p, 1, MAX_ROUNDS as nat) is Some,
        countable(p),
    ensures
        laid_of(p).stands(),
{
    let d = laid_of(p);
    let pages = d.pages;
    lemma_settled(p, 1, MAX_ROUNDS as nat);
    let l = crate::meta_write::layout_of(p, pages)->0;
    let n = crate::meta_write::piece_count(p);
    let pieces = Seq::new(n, |i: int| crate::meta_write::piece(p, pages, l.1, i));
    lemma_apart(p, pages);
    lemma_laid(p, pages, n);
    assert forall|i: int| 0 <= i < d.starts.len() implies {
        &&& 0 <= #[trigger] d.starts[i] < 0x1000_0000
        &&& d.starts[i] + d.piece(i).len() <= d.system.len()
        &&& d.system.subrange(d.starts[i], d.starts[i] + d.piece(i).len()) == d.piece(i)
    } by {
        assert(pieces[i] == d.piece(i));
        crate::paging::law_pieces_read_back(l.2, l.1, pieces, n, i);
        assert(starts_of(p)[i] < 0x1000_0000);
        assert(0 <= l.1[i]);
    }
    crate::paging::lemma_first_start(
        crate::meta_write::piece_sizes(p, pages),
        MAX_PAGES as int,
    );
}

proof fn lemma_sizes(p: Parts, pages: int, k: int)
    requires
        crate::meta_write::layout_of(p, pages) is Some,
        0 <= k < crate::meta_write::piece_count(p),
    ensures
        crate::meta_write::piece_size(p, pages, k) <= 0x4000_0000,
{
    let sizes = crate::meta_write::piece_sizes(p, pages);
    crate::paging::lemma_layout_bounds(sizes, MAX_PAGES as int);
    assert(sizes[k] == crate::meta_write::capped(crate::meta_write::piece_size(p, pages, k)));
    assert(sizes[k] <= 0x4000_0000);
}

proof fn lemma_usable(p: Parts)
    requires
        crate::meta_write::settled(p, 1, MAX_ROUNDS as nat) is Some,
        countable(p),
    ensures
        laid_of(p).usable(),
{
    let pages = laid_of(p).pages;
    lemma_stands(p);
    lemma_settled(p, 1, MAX_ROUNDS as nat);
    assert forall|i: int| 0 <= i < p.enums.len() implies (#[trigger] p.enums[i]).entries.len()
        <= u32::MAX by {
        lemma_sizes(p, pages, crate::meta_write::enum_table(p) + i + 1);
    }
    assert forall|i: int| 0 <= i < p.blocks.len() implies (#[trigger] p.blocks[i]).1.len()
        <= u32::MAX by {
        lemma_sizes(p, pages, crate::meta_write::block_table(p) + i + 1);
    }
}

/// A file that was assembled of some parts is read as those parts.
pub proof fn law_assembled_files_read_back(
    p: Parts,
    r: Result<Vec<u8>, ResourceError>,
    sections: Result<(Seq<u8>, Seq<u8>), ResourceError>,
)
    requires
        crate::meta_write::assembles_to(p, r),
        r is Ok,
        crate::resource::unpacks_to(r->Ok_0@, sections),
        countable(p),
    ensures
        crate::meta_schema::parsed_file(sections) == Ok::<MetaView, MetaError>(view_of(p)),
{
    let d = laid_of(p);
    let graphics = Seq::<u8>::empty();
    lemma_usable(p);
    assert(sections == Ok::<(Seq<u8>, Seq<u8>), ResourceError>((d.system, graphics)));
    lemma_header_resolves(d, graphics);
    lemma_tables_resolve(d, graphics);
    crate::meta_laws::records::lemma_header(p, d.starts);
    lemma_structs_read(d, graphics, p.structs.len());
    lemma_enums_read(d, graphics, p.enums.len());
    lemma_blocks_read(d, graphics);
}

/// The definitions that a file was assembled with can be read from it, with
/// every field.
pub proof fn law_assembled_schemas_read_back(
    p: Parts,
    r: Result<Vec<u8>, ResourceError>,
    sections: Result<(Seq<u8>, Seq<u8>), ResourceError>,
)
    requires
        crate::meta_write::assembles_to(p, r),
        r is Ok,
        crate::resource::unpacks_to(r->Ok_0@, sections),
        countable(p),
    ensures
        sections is Ok,
        ({
            let (system, graphics) = sections->Ok_0;
            crate::schema::meta_schema_of(system, graphics) == Ok::<SchemaView, MetaError>(
                SchemaView {
                    meta_structs: struct_defs(p.structs, p.structs.len()),
                    meta_enums: enum_defs(p.enums, p.enums.len()),
                    ..crate::schema::no_schema()
                },
            )
        }),
{
    let d = laid_of(p);
    let graphics = Seq::<u8>::empty();
    lemma_usable(p);
    assert(sections == Ok::<(Seq<u8>, Seq<u8>), ResourceError>((d.system, graphics)));
    lemma_schema_reads(d, graphics);
}

proof fn lemma_header_says(d: Laid)
    requires
        d.usable(),
    ensures
        ({
            let h = d.piece(0);
            &&& crate::bytes::le32(h, 0x10) == 0x5052_4430
            &&& crate::bytes::le16(h, 0x48) == d.p.structs.len()
            &&& crate::bytes::le16(h, 0x4A) == d.p.enums.len()
        }),
{
    crate::meta_laws::records::lemma_header(d.p, d.starts);
}

#[verifier::rlimit(40)]
proof fn lemma_schema_reads(d: Laid, graphics: Seq<u8>)
    requires
        d.usable(),
    ensures
        crate::schema::meta_schema_of(d.system, graphics) == Ok::<SchemaView, MetaError>(
            SchemaView {
                meta_structs: struct_defs(d.p.structs, d.p.structs.len()),
                meta_enums: enum_defs(d.p.enums, d.p.enums.len()),
                ..crate::schema::no_schema()
            },
        ),
{
    lemma_header_resolves(d, graphics);
    lemma_header_says(d);
    lemma_tables_resolve(d, graphics);
    lemma_structs_read(d, graphics, d.p.structs.len());
    lemma_enums_read(d, graphics, d.p.enums.len());
}

// ─── the tree ────────────────────────────────────────────────────────────────

/// Whether every structure of a schema is known by its own name.
pub open spec fn well_named(s: SchemaView) -> bool {
    forall|key: u32| #[trigger]
        s.meta_structs.contains_key(key) ==> s.meta_structs[key].name == key
}

proof fn lemma_infos(c: Context, names: Seq<u32>, n: nat, key: u32)
    requires
        well_named(c.schema),
        n <= names.len(),
        names.take(n as int).contains(key),
        c.schema.meta_structs.contains_key(key),
    ensures
        ({
            let defs = crate::meta_write::used_structs(c, names, n);
            let m = infos(defs, defs.len());
            &&& m.contains_key(key)
            &&& m[key] == crate::meta_laws::fits::info_of(c.schema.meta_structs[key])
        }),
    decreases n,
{
    let defs = crate::meta_write::used_structs(c, names, n);
    let i = choose|i: int| 0 <= i < n && names.take(n as int)[i] == key;
    let before = crate::meta_write::used_structs(c, names, (n - 1) as nat);
    let last = names[n - 1];
    lemma_infos_sound(c, names, n);
    if i < n - 1 {
        assert(names.take(n - 1)[i] == key);
        lemma_infos(c, names, (n - 1) as nat, key);
    }
    if c.schema.meta_structs.contains_key(last) {
        assert(defs == before.push(c.schema.meta_structs[last]));
        lemma_infos_prefix(before, defs, before.len());
    }
}

proof fn lemma_infos_prefix(a: Seq<MetaStructDefView>, b: Seq<MetaStructDefView>, k: nat)
    requires
        k <= a.len() <= b.len(),
        forall|i: int| 0 <= i < k ==> #[trigger] b[i] == a[i],
    ensures
        infos(a, k) == infos(b, k),
    decreases k,
{
    if k > 0 {
        lemma_infos_prefix(a, b, (k - 1) as nat);
        assert(b[k - 1] == a[k - 1]);
    }
}

/// Every structure that a file describes is one of the schema.
proof fn lemma_infos_sound(c: Context, names: Seq<u32>, n: nat)
    requires
        well_named(c.schema),
        n <= names.len(),
    ensures
        ({
            let defs = crate::meta_write::used_structs(c, names, n);
            let m = infos(defs, defs.len());
            forall|key: u32| #[trigger]
                m.contains_key(key) ==> c.schema.meta_structs.contains_key(key) && m[key]
                    == crate::meta_laws::fits::info_of(c.schema.meta_structs[key])
        }),
    decreases n,
{
    let defs = crate::meta_write::used_structs(c, names, n);
    if n > 0 {
        lemma_infos_sound(c, names, (n - 1) as nat);
        let before = crate::meta_write::used_structs(c, names, (n - 1) as nat);
        let last = names[n - 1];
        if c.schema.meta_structs.contains_key(last) {
            assert(defs == before.push(c.schema.meta_structs[last]));
            lemma_infos_prefix(before, defs, before.len());
        }
    }
}

/// A file shows what its writer put together.
proof fn lemma_shows(c: Context, st: BuildState)
    requires
        well_named(c.schema),
        st.blocks.len() <= 0xFFF,
        forall|i: int| 0 <= i < st.blocks.len() ==> (#[trigger] st.blocks[i]).1.len() <= u32::MAX,
    ensures
        crate::meta_laws::fits::shows(view_of(crate::meta_write::parts_of(c, st)), c, st),
{
    let p = crate::meta_write::parts_of(c, st);
    let f = view_of(p);
    let names = st.used_structs;
    assert(names.take(names.len() as int) =~= names);
    assert forall|key: u32|
        st.used_structs.contains(key) && c.schema.meta_structs.contains_key(key) implies (
    #[trigger] f.structs.contains_key(key)) && f.structs[key]
        == crate::meta_laws::fits::info_of(c.schema.meta_structs[key]) by {
        lemma_infos(c, names, names.len(), key);
    }
}

/// A tree that fits its schema comes back whole from the file that is built
/// of it: reading the file gives the same tree, and nothing to warn of.
pub proof fn law_built_trees_read_back(
    c: Context,
    root: StructView,
    r: Result<Vec<u8>, ResourceError>,
    sections: Result<(Seq<u8>, Seq<u8>), ResourceError>,
)
    requires
        well_named(c.schema),
        ({
            let p = crate::meta_write::parts_of(c, crate::meta_write::written(c, root));
            &&& crate::meta_write::assembles_to(p, r)
            &&& countable(p)
            &&& p.blocks.len() <= 0xFFF
            &&& crate::meta_laws::fits::fits_struct(
                view_of(p),
                c.schema,
                root.type_hash,
                root.fields,
                0,
            )
        }),
        r is Ok,
        crate::resource::unpacks_to(r->Ok_0@, sections),
    ensures
        crate::meta_schema::parsed_file(sections) is Ok,
        crate::meta_schema::walked(crate::meta_schema::parsed_file(sections)->Ok_0)
            == crate::meta_schema::plain(ValueView::Struct(root)),
{
    let end = crate::meta_write::written(c, root);
    let p = crate::meta_write::parts_of(c, end);
    law_assembled_files_read_back(p, r, sections);
    lemma_usable(p);
    lemma_shows(c, end);
    let w = World { f: view_of(p), c, end };
    let key = root.type_hash;
    let full = crate::meta_write::full_fuel(c.schema);
    let st = crate::meta_write::fresh(key);
    crate::meta_laws::tree::lemma_known(w, key, root.fields, 0);
    let out = crate::meta_write::write_struct(c, key, Some(root.fields), st, full);
    crate::meta_laws::grow::lemma_struct_steps(c, key, Some(root.fields), st, full);
    assert(end.blocks == out.1.blocks.update(0, (key, crate::meta_write::padded16(out.0))));
    assert(out.1.blocks[0] == st.blocks[0]);
    assert(crate::meta_laws::grow::grows(out.1, end)) by {
        assert forall|i: int| 0 <= i < out.1.blocks.len() implies (#[trigger] end.blocks[i]).0
            == out.1.blocks[i].0 && crate::meta_laws::grow::begins(
            end.blocks[i].1,
            out.1.blocks[i].1,
        ) by {
            if i == 0 {
                assert(out.1.blocks[0].1.len() == 0);
            }
        }
    }
    let data = crate::meta_write::padded16(out.0);
    assert(w.f.blocks[0].data == data);
    assert(data.subrange(0, out.0.len() as int) =~= out.0);
    assert(end.blocks[0].1.len() <= u32::MAX);
    crate::meta_laws::tree::lemma_struct_reads(w, key, root.fields, st, full, 0, 0, 0);
    assert(root == StructView { type_hash: key, fields: root.fields });
}

} // verus!
