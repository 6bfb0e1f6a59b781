//! Why files are refused, and what is left of those that lack something.

use vstd::prelude::*;

use crate::dds::DdsError;
use crate::layout::stands;
use crate::meta_block::{BlockView, MetaError, PointerList};
use crate::resource::ResourceError;
use crate::ybn::{BoundErrorView, BoundFault, BoundView, GeometryView};
use crate::ybn_laws::{header_says, GeometryHeader};
use crate::ymap::{YmapEntity, YmapError};
use crate::ytd::{TextureFormat, TextureView, YtdReadError};

verus! {

broadcast use crate::layout::group_fields_stand;

// ─── resource files ──────────────────────────────────────────────────────────

/// A file of fewer than sixteen bytes is too short; a longer one that does not
/// begin with the letters RSC7 is refused with the word that it begins with.
pub proof fn law_why_headers_are_refused(data: Seq<u8>, first: u32)
    ensures
        data.len() < 16 <==> crate::resource::header_of(data) == Err::<
            (u32, u32),
            ResourceError,
        >(ResourceError::TooShort),
        data.len() >= 16 && stands(data, 0, crate::bytes::le32_bytes(first)) ==> (first
            == 0x3743_5352 <==> crate::resource::header_of(data) is Ok) && (first != 0x3743_5352
            ==> crate::resource::header_of(data) == Err::<(u32, u32), ResourceError>(
            ResourceError::BadMagic(first),
        )),
{
}

// ─── Meta files ──────────────────────────────────────────────────────────────

proof fn lemma_no_block(blocks: Seq<BlockView>, name: u32, from: int)
    requires
        0 <= from,
    ensures
        crate::meta_block::block_named(blocks, name, from) is None <==> forall|i: int|
            from <= i < blocks.len() ==> (#[trigger] blocks[i]).name_hash != name,
    decreases blocks.len() - from,
{
    if from < blocks.len() && blocks[from].name_hash != name {
        lemma_no_block(blocks, name, from + 1);
    }
}

/// A list has no root exactly where no block has the root's name.
pub proof fn law_lists_without_a_root(blocks: Seq<BlockView>, root: u32, off: int)
    ensures
        crate::meta_block::listed(blocks, root, off) == PointerList::NoRoot <==> forall|i: int|
            0 <= i < blocks.len() ==> (#[trigger] blocks[i]).name_hash != root,
{
    lemma_no_block(blocks, root, 0);
}

/// A root too small for its list, a null pointer, a pointer past the last block
/// and one whose items run past their block are told apart.
pub proof fn law_why_lists_are_empty(
    blocks: Seq<BlockView>,
    root: u32,
    off: int,
    raw: u64,
    count: u16,
)
    requires
        blocks.len() > 0,
        blocks[0].name_hash == root,
        0 <= off,
    ensures
        ({
            let data = blocks[0].data;
            let found = crate::meta_block::listed(blocks, root, off);
            let b = raw % 0x1000 - 1;
            let at = (raw / 0x1000 % 0x10_0000) as int;
            &&& data.len() < off + 16 <==> found == PointerList::RootSmall
            &&& data.len() >= off + 16 && stands(data, off, crate::bytes::le64_bytes(raw))
                && stands(data, off + 8, crate::bytes::le16_bytes(count)) ==> {
                &&& raw % 0x1000 == 0 <==> found == PointerList::Empty
                &&& b >= blocks.len() <==> found == PointerList::NoBlock
                &&& 0 <= b < blocks.len() && at + 8 * count > blocks[b].data.len() ==> found
                    == PointerList::Bounds
                &&& 0 <= b < blocks.len() && at + 8 * count <= blocks[b].data.len() ==> found
                    == PointerList::Pointers(blocks[b].data.subrange(at, at + 8 * count))
            }
        }),
{
}

/// A map and a file of archetypes say of the same lack what it is a lack of.
pub proof fn law_why_maps_are_refused(
    system: Seq<u8>,
    graphics: Seq<u8>,
    blocks: Seq<BlockView>,
)
    requires
        crate::meta_block::blocks_of(system, graphics) == Ok::<Seq<BlockView>, MetaError>(blocks),
    ensures
        (forall|i: int|
            0 <= i < blocks.len() ==> (#[trigger] blocks[i]).name_hash
                != crate::ymap::HASH_CMAPDATA) <==> crate::ymap::parsed(system, graphics) == Err::<
            Seq<YmapEntity>,
            YmapError,
        >(YmapError::List(MetaError::NoMapData)),
        (forall|i: int|
            0 <= i < blocks.len() ==> (#[trigger] blocks[i]).name_hash
                != crate::ytyp::HASH_CMAPTYPES) <==> crate::ytyp::parsed(system, graphics) == Err::<
            crate::ytyp::YtypView,
            MetaError,
        >(MetaError::NoMapTypes),
        blocks.len() > 0 && blocks[0].name_hash == crate::ymap::HASH_CMAPDATA
            && blocks[0].data.len() < 112 ==> crate::ymap::parsed(system, graphics) == Err::<
            Seq<YmapEntity>,
            YmapError,
        >(YmapError::List(MetaError::MapDataSmall)),
        blocks.len() > 0 && blocks[0].name_hash == crate::ytyp::HASH_CMAPTYPES
            && blocks[0].data.len() < 40 ==> crate::ytyp::parsed(system, graphics) == Err::<
            crate::ytyp::YtypView,
            MetaError,
        >(MetaError::MapTypesSmall),
{
    lemma_no_block(blocks, crate::ymap::HASH_CMAPDATA, 0);
    lemma_no_block(blocks, crate::ytyp::HASH_CMAPTYPES, 0);
}

/// A section without room for a header has no blocks to list; one whose header
/// names no table or counts none has none either, and says so.
pub proof fn law_why_blocks_are_missing(
    system: Seq<u8>,
    graphics: Seq<u8>,
    table: u64,
    count: u16,
)
    ensures
        system.len() < 0x70 <==> crate::meta_block::blocks_of(system, graphics) == Err::<
            Seq<BlockView>,
            MetaError,
        >(MetaError::BlockHeader),
        system.len() >= 0x70 && stands(
            system.take(0x70),
            0x30,
            crate::bytes::le64_bytes(table),
        ) && stands(system.take(0x70), 0x4C, crate::bytes::le16_bytes(count)) ==> {
            &&& table == 0 || count == 0 <==> crate::meta_block::blocks_of(system, graphics)
                == Err::<Seq<BlockView>, MetaError>(MetaError::NoBlocks)
            &&& table != 0 && count > 0 && crate::resource::resolved(
                system,
                graphics,
                table,
                16 * count,
            ) is None <==> crate::meta_block::blocks_of(system, graphics) == Err::<
                Seq<BlockView>,
                MetaError,
            >(MetaError::BlockArray)
        },
{
    lemma_header_window(system, graphics);
}

proof fn lemma_header_window(system: Seq<u8>, graphics: Seq<u8>)
    ensures
        crate::resource::resolved(system, graphics, crate::resource::SYSTEM_BASE, 0x70) == (
        if system.len() < 0x70 {
            None
        } else {
            Some(system.take(0x70))
        }),
{
    crate::ytd_laws::law_system_addresses(0);
    if system.len() >= 0x70 {
        assert(system.subrange(0, 0x70) =~= system.take(0x70));
    }
}

// ─── collisions ──────────────────────────────────────────────────────────────

/// A geometry without the vertices or the polygons that it counts is refused,
/// the vertices first. One that counts none has none; without its materials it
/// is read without any.
pub proof fn law_what_geometries_lack(
    s: (Seq<u8>, Seq<u8>),
    b: Seq<u8>,
    h: GeometryHeader,
)
    requires
        header_says(b, h),
    ensures
        ({
            let r = crate::ybn::geometry_in(s, b);
            let no_vertices = h.vertex_count > 0 && crate::resource::resolved(
                s.0,
                s.1,
                h.vertices,
                6 * h.vertex_count,
            ) is None;
            let no_polygons = h.polygon_count > 0 && crate::resource::resolved(
                s.0,
                s.1,
                h.polygons,
                16 * h.polygon_count,
            ) is None;
            &&& no_vertices <==> r == Err::<GeometryView, BoundFault>(BoundFault::Vertices)
            &&& !no_vertices && no_polygons <==> r == Err::<GeometryView, BoundFault>(
                BoundFault::Polygons,
            )
            &&& !no_vertices && !no_polygons ==> {
                &&& r is Ok
                &&& (r->Ok_0).vertices.len() == h.vertex_count
                &&& (r->Ok_0).triangles.len() + (r->Ok_0).primitive_count == h.polygon_count
                &&& h.material_count >= 4 && crate::resource::resolved(
                    s.0,
                    s.1,
                    h.materials,
                    8 * h.material_count,
                ) is None ==> (r->Ok_0).materials.len() == 0
            }
        }),
{
}

/// A bound that is not there, or lies too deep, is refused where it stands; a
/// fault in a child is told with the way to it.
pub proof fn law_why_bounds_are_refused(s: (Seq<u8>, Seq<u8>), va: u64, depth: int, i: int, e: BoundErrorView)
    requires
        0 <= i <= usize::MAX,
    ensures
        depth > 8 ==> crate::ybn::bound_at(s, va, depth) == Err::<BoundView, BoundErrorView>(
            BoundErrorView { path: Seq::empty(), fault: BoundFault::TooDeep },
        ),
        0 <= depth <= 8 && crate::resource::resolved(s.0, s.1, va, 0x70) is None
            ==> crate::ybn::bound_at(s, va, depth) == Err::<BoundView, BoundErrorView>(
            BoundErrorView { path: Seq::empty(), fault: BoundFault::Header(va) },
        ),
        crate::ybn::from_child(i, e).fault == e.fault,
        crate::ybn::from_child(i, e).path.len() == e.path.len() + 1,
        crate::ybn::from_child(i, e).path[0] == i,
        crate::ybn::from_child(i, e).path.skip(1) == e.path,
{
    assert(crate::ybn::from_child(i, e).path.skip(1) =~= e.path);
}

// ─── textures ────────────────────────────────────────────────────────────────

/// A dictionary that is not there is refused, and one whose list of textures is
/// not there with the address that it gives; one that counts none is empty.
pub proof fn law_why_dictionaries_are_refused(
    system: Seq<u8>,
    graphics: Seq<u8>,
    va: u64,
    d: Seq<u8>,
    count: u16,
    list: u64,
)
    ensures
        crate::resource::resolved(system, graphics, va, 0x40) is None
            <==> crate::ytd::dictionary_at(system, graphics, va) == Err::<
            Seq<TextureView>,
            YtdReadError,
        >(YtdReadError::NoDictionary),
        crate::resource::resolved(system, graphics, va, 0x40) == Some(d) && stands(
            d,
            0x38,
            crate::bytes::le16_bytes(count),
        ) && stands(d, 0x30, crate::bytes::le64_bytes(list)) ==> {
            &&& count == 0 ==> crate::ytd::dictionary_at(system, graphics, va) == Ok::<
                Seq<TextureView>,
                YtdReadError,
            >(Seq::empty())
            &&& count > 0 && crate::resource::resolved(system, graphics, list, 8 * count) is None
                <==> crate::ytd::dictionary_at(system, graphics, va) == Err::<
                Seq<TextureView>,
                YtdReadError,
            >(YtdReadError::NoPointers(list))
        },
{
}

/// A picture is refused for the first thing that is wrong with it: its first
/// letters, the size of its header, a side that is nothing or too long, and
/// sides that do not come in whole blocks where its format needs them.
pub proof fn law_why_pictures_are_refused(
    d: Seq<u8>,
    size: u32,
    width: u32,
    height: u32,
    f: TextureFormat,
    start: int,
)
    requires
        d.len() >= 128,
        stands(d, 0, crate::bytes::le32_bytes(0x2053_4444)),
        stands(d, 4, crate::bytes::le32_bytes(size)),
        stands(d, 12, crate::bytes::le32_bytes(height)),
        stands(d, 16, crate::bytes::le32_bytes(width)),
    ensures
        size != 124 <==> crate::dds::parsed(d) == Err::<TextureView, DdsError>(
            DdsError::HeaderSize(size),
        ),
        size == 124 && crate::dds::format_in(d) == Ok::<(TextureFormat, int), DdsError>((f, start))
            ==> {
            &&& width == 0 || height == 0 || width > 0xFFFF || height > 0xFFFF
                <==> crate::dds::parsed(d) == Err::<TextureView, DdsError>(
                DdsError::Size { width, height },
            )
            &&& 0 < width <= 0xFFFF && 0 < height <= 0xFFFF && crate::ytd::in_blocks(f) && (width
                % 4 != 0 || height % 4 != 0) && crate::dds::optional_count(d, 0x80_0000, 24)
                <= 0xFFFF && crate::dds::optional_count(d, 0x2_0000, 28) <= 0xFF
                ==> crate::dds::parsed(d) == Err::<TextureView, DdsError>(
                DdsError::NotWholeBlocks { format: f, width, height },
            )
        },
{
}

/// Depth and levels are one where the header does not say that it counts them,
/// or counts none, and what it counts otherwise.
pub proof fn law_counts_that_are_optional(d: Seq<u8>, flags: u32, depth: u32, levels: u32)
    requires
        stands(d, 8, crate::bytes::le32_bytes(flags)),
        stands(d, 24, crate::bytes::le32_bytes(depth)),
        stands(d, 28, crate::bytes::le32_bytes(levels)),
    ensures
        flags / 0x80_0000 % 2 == 0 || depth == 0 ==> crate::dds::optional_count(d, 0x80_0000, 24)
            == 1,
        flags / 0x80_0000 % 2 == 1 && depth > 0 ==> crate::dds::optional_count(d, 0x80_0000, 24)
            == depth,
        flags / 0x2_0000 % 2 == 0 || levels == 0 ==> crate::dds::optional_count(d, 0x2_0000, 28)
            == 1,
        flags / 0x2_0000 % 2 == 1 && levels > 0 ==> crate::dds::optional_count(d, 0x2_0000, 28)
            == levels,
{
}

} // verus!
