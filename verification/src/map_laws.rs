//! What the records of map files mean, byte by byte.

use vstd::prelude::*;

use crate::layout::{quad_bytes, stands, triple_bytes};
use crate::meta_block::{BlockView, PointerList};
use crate::ymap::YmapEntity;
use crate::ytyp::{Archetype, PortalView, RoomView, YtypView};

verus! {

broadcast use crate::layout::group_fields_stand;

// ─── blocks and lists ────────────────────────────────────────────────────────

/// Whether a record holds a list: where it starts, and how many it has.
pub open spec fn list_stands(rec: Seq<u8>, off: int, block: int, at: int, count: int) -> bool {
    &&& 0 <= block < 0xFFF
    &&& 0 <= at < 0x10_0000
    &&& 0 <= count <= 0xFFFF
    &&& stands(rec, off, crate::bytes::le64_bytes(crate::meta_block::packed(block, at)))
    &&& stands(rec, off + 8, crate::bytes::le16_bytes(count as u16))
}

/// Whether some items stand one after the other in a block.
pub open spec fn items_stand(data: Seq<u8>, at: int, stride: int, items: Seq<Seq<u8>>) -> bool {
    forall|i: int|
        0 <= i < items.len() ==> (#[trigger] items[i]).len() == stride && stands(
            data,
            at + i * stride,
            items[i],
        )
}

/// A list field reads as the items that stand where it points, in order.
pub proof fn law_lists_read_back(
    blocks: Seq<BlockView>,
    rec: Seq<u8>,
    off: int,
    stride: int,
    block: int,
    at: int,
    items: Seq<Seq<u8>>,
)
    requires
        0 < stride,
        block < blocks.len(),
        at <= blocks[block].data.len(),
        list_stands(rec, off, block, at, items.len() as int),
        items_stand(blocks[block].data, at, stride, items),
    ensures
        crate::meta_block::records(blocks, rec, off, stride) == items,
{
    let data = blocks[block].data;
    let n = items.len() as int;
    crate::meta_block::law_pointer_round_trip(block, at);
    let read = crate::meta_block::records(blocks, rec, off, stride);
    let room = data.len() - at;
    assert(n * stride <= room) by {
        if n > 0 {
            assert(items[n - 1].len() == stride);
            assert((n - 1) * stride + stride == n * stride) by (nonlinear_arith);
        } else {
            assert(n * stride == 0) by (nonlinear_arith)
                requires
                    n == 0,
            ;
        }
    }
    assert(n <= room / stride) by (nonlinear_arith)
        requires
            n * stride <= room,
            stride > 0,
    ;
    assert(read.len() == n);
    assert forall|i: int| 0 <= i < n implies read[i] == items[i] by {
        assert(items[i].len() == stride);
        assert((i + 1) * stride == i * stride + stride) by (nonlinear_arith);
        assert(read[i] == data.subrange(at + i * stride, at + (i + 1) * stride));
    }
    assert(read =~= items);
}

/// A block of a file has the name, the length and the bytes that its record
/// in the block table says.
pub proof fn law_blocks_read_back(
    system: Seq<u8>,
    graphics: Seq<u8>,
    headers: Seq<u8>,
    i: int,
    name: u32,
    data: Seq<u8>,
    va: u64,
)
    requires
        0 <= i,
        data.len() <= u32::MAX,
        stands(headers, 16 * i, crate::bytes::le32_bytes(name)),
        stands(headers, 16 * i + 4, crate::bytes::le32_bytes(data.len() as u32)),
        stands(headers, 16 * i + 8, crate::bytes::le64_bytes(va)),
        crate::resource::resolved(system, graphics, va, data.len() as int) == Some(data),
    ensures
        crate::meta_block::block_from(system, graphics, headers, i).name_hash == name,
        crate::meta_block::block_from(system, graphics, headers, i).data == data,
{
}

/// The block table of a file stands where its header points, and has as many
/// records as the header counts.
pub proof fn law_block_tables(
    system: Seq<u8>,
    graphics: Seq<u8>,
    table: u64,
    count: u16,
    headers: Seq<u8>,
)
    requires
        system.len() >= 0x70,
        count > 0,
        table != 0,
        stands(system, 0x30, crate::bytes::le64_bytes(table)),
        stands(system, 0x4C, crate::bytes::le16_bytes(count)),
        crate::resource::resolved(system, graphics, table, 16 * count as int) == Some(headers),
    ensures
        ({
            let r = crate::meta_block::blocks_of(system, graphics);
            &&& r is Ok
            &&& r->Ok_0.len() == count
            &&& forall|i: int|
                0 <= i < count ==> #[trigger] r->Ok_0[i] == crate::meta_block::block_from(
                    system,
                    graphics,
                    headers,
                    i,
                )
        }),
{
    broadcast use crate::bytes::group_subrange_reads;

    let va = crate::resource::SYSTEM_BASE;
    assert(va & 0x6000_0000 != 0x6000_0000 && va & 0x5000_0000 == 0x5000_0000) by (bit_vector)
        requires
            va == 0x5000_0000u64,
    ;
    let header = system.subrange(0, 0x70);
    assert(crate::resource::resolved(system, graphics, va, 0x70) == Some(header));
    assert(crate::bytes::le64(header, 0x30) == table);
    assert(crate::bytes::le16(header, 0x4C) == count);
}

// ─── entities ────────────────────────────────────────────────────────────────

/// Whether the bytes of a `CEntityDef` describe an entity.
pub open spec fn entity_says(e: Seq<u8>, v: YmapEntity) -> bool {
    &&& stands(e, 8, crate::bytes::le32_bytes(v.archetype_hash))
    &&& stands(e, 12, crate::bytes::le32_bytes(v.flags))
    &&& stands(e, 16, crate::bytes::le32_bytes(v.guid))
    &&& stands(e, 32, triple_bytes(v.position))
    &&& stands(e, 48, quad_bytes(v.rotation))
    &&& stands(e, 64, crate::bytes::le32_bytes(v.scale_xy))
    &&& stands(e, 68, crate::bytes::le32_bytes(v.scale_z))
    &&& stands(e, 72, crate::bytes::le32_bytes(v.parent_index as u32))
    &&& stands(e, 76, crate::bytes::le32_bytes(v.lod_dist))
}

/// An entity is read from the fields that stand in its record, each at its
/// own place, whatever their values.
pub proof fn law_entities_read_back(e: Seq<u8>, v: YmapEntity)
    requires
        entity_says(e, v),
    ensures
        crate::ymap::entity_of(e, v.is_mlo_instance) == v,
{
    crate::layout::lemma_signed_word(v.parent_index);
}

/// Where an entity stands.
pub struct Place {
    pub block: int,
    pub at: int,
}

/// Whether a place holds an entity, under the name of its kind of record.
pub open spec fn holds_entity(blocks: Seq<BlockView>, p: Place, v: YmapEntity) -> bool {
    &&& 0 <= p.block < blocks.len()
    &&& p.block < 0xFFF
    &&& 0 <= p.at < 0x10_0000
    &&& p.at + 128 <= blocks[p.block].data.len()
    &&& entity_says(blocks[p.block].data.subrange(p.at, p.at + 128), v)
    &&& blocks[p.block].name_hash == (if v.is_mlo_instance {
        crate::ymap::HASH_CMLOINSTANCEDEF
    } else {
        crate::ymap::HASH_CENTITYDEF
    })
}

/// A list of pointers to entities reads as these entities, in order, an
/// interior told from any other by the name of its block.
pub proof fn law_placed_entities_read_back(
    blocks: Seq<BlockView>,
    pointers: Seq<u8>,
    places: Seq<Place>,
    vs: Seq<YmapEntity>,
    n: nat,
)
    requires
        n <= places.len(),
        places.len() == vs.len(),
        forall|i: int|
            0 <= i < places.len() ==> holds_entity(blocks, #[trigger] places[i], vs[i]) && stands(
                pointers,
                8 * i,
                crate::bytes::le64_bytes(
                    crate::meta_block::packed(places[i].block, places[i].at),
                ),
            ),
    ensures
        crate::ymap::placed_upto(blocks, pointers, n) == vs.take(n as int),
    decreases n,
{
    if n > 0 {
        let p = places[n - 1];
        law_placed_entities_read_back(blocks, pointers, places, vs, (n - 1) as nat);
        crate::meta_block::law_pointer_round_trip(p.block, p.at);
        assert(holds_entity(blocks, p, vs[n - 1]));
        law_entities_read_back(blocks[p.block].data.subrange(p.at, p.at + 128), vs[n - 1]);
        assert(vs.take(n as int) =~= vs.take(n - 1).push(vs[n - 1]));
    } else {
        assert(vs.take(0) =~= Seq::empty());
    }
}

/// The list of a map is the one at byte 96 of its first `CMapData`, that of an
/// archetype file the one at byte 24 of its first `CMapTypes`.
pub proof fn law_roots_list_their_pointers(
    blocks: Seq<BlockView>,
    root: u32,
    off: int,
    r: int,
    block: int,
    at: int,
    count: int,
)
    requires
        0 <= r < blocks.len(),
        blocks[r].name_hash == root,
        forall|i: int| 0 <= i < r ==> (#[trigger] blocks[i]).name_hash != root,
        0 <= off,
        off + 16 <= blocks[r].data.len(),
        list_stands(blocks[r].data, off, block, at, count),
        block < blocks.len(),
        at + 8 * count <= blocks[block].data.len(),
    ensures
        crate::meta_block::listed(blocks, root, off) == PointerList::Pointers(
            blocks[block].data.subrange(at, at + 8 * count),
        ),
        crate::ymap::ENTITIES_OFFSET == 96,
        crate::ytyp::ARCHETYPES_OFFSET == 24,
{
    lemma_first_block(blocks, root, r, 0);
    crate::meta_block::law_pointer_round_trip(block, at);
}

proof fn lemma_first_block(blocks: Seq<BlockView>, root: u32, r: int, from: int)
    requires
        0 <= from <= r < blocks.len(),
        blocks[r].name_hash == root,
        forall|i: int| from <= i < r ==> (#[trigger] blocks[i]).name_hash != root,
    ensures
        crate::meta_block::block_named(blocks, root, from) == Some(r),
    decreases r - from,
{
    if from < r {
        assert(blocks[from].name_hash != root);
        lemma_first_block(blocks, root, r, from + 1);
    }
}

// ─── archetypes ──────────────────────────────────────────────────────────────

/// Whether the bytes of an archetype describe it; `name` is its own name.
pub open spec fn archetype_says(b: Seq<u8>, v: Archetype, name: u32) -> bool {
    &&& stands(b, 8, crate::bytes::le32_bytes(v.lod_dist))
    &&& stands(b, 32, triple_bytes(v.bb_min))
    &&& stands(b, 48, triple_bytes(v.bb_max))
    &&& stands(b, 88, crate::bytes::le32_bytes(name))
    &&& stands(b, 92, crate::bytes::le32_bytes(v.texture_dict_hash))
    &&& stands(b, 100, crate::bytes::le32_bytes(v.drawable_dictionary_hash))
    &&& stands(b, 108, crate::bytes::le32_bytes(v.asset_type))
    &&& stands(b, 112, crate::bytes::le32_bytes(v.asset_name_hash))
    &&& v.name_hash == (if name == 0 {
        v.asset_name_hash
    } else {
        name
    })
}

/// An archetype is read from the fields that stand in its record, and goes by
/// its asset's name where it has none of its own.
pub proof fn law_archetypes_read_back(b: Seq<u8>, v: Archetype, name: u32)
    requires
        archetype_says(b, v, name),
    ensures
        crate::ytyp::archetype_of(b, v.is_mlo) == v,
{
}

/// Whether the bytes of a room describe it, its name and its list aside.
pub open spec fn room_says(r: Seq<u8>, v: RoomView) -> bool {
    &&& stands(r, 32, triple_bytes(v.bb_min))
    &&& stands(r, 48, triple_bytes(v.bb_max))
    &&& stands(r, 76, crate::bytes::le32_bytes(v.flags))
    &&& stands(r, 84, crate::bytes::le32_bytes(v.floor_id as u32))
}

proof fn lemma_words_list(
    blocks: Seq<BlockView>,
    rec: Seq<u8>,
    off: int,
    block: int,
    at: int,
    words: Seq<u32>,
)
    requires
        block < blocks.len(),
        at <= blocks[block].data.len(),
        list_stands(rec, off, block, at, words.len() as int),
        items_stand(
            blocks[block].data,
            at,
            4,
            Seq::new(words.len(), |i: int| crate::bytes::le32_bytes(words[i])),
        ),
    ensures
        crate::meta_block::u32_records(blocks, rec, off) == words,
{
    let items = Seq::new(words.len(), |i: int| crate::bytes::le32_bytes(words[i]));
    law_lists_read_back(blocks, rec, off, 4, block, at, items);
    assert forall|i: int| 0 <= i < words.len() implies crate::bytes::le32(items[i], 0)
        == words[i] by {
        crate::bytes::law_u32_round_trip(words[i]);
    }
    assert(crate::meta_block::u32_records(blocks, rec, off) =~= words);
}

/// A room is read from the fields that stand in its record, and owns the
/// entities of the list at byte 96.
pub proof fn law_rooms_read_back(
    blocks: Seq<BlockView>,
    r: Seq<u8>,
    v: RoomView,
    block: int,
    at: int,
)
    requires
        room_says(r, v),
        block < blocks.len(),
        at <= blocks[block].data.len(),
        list_stands(r, 96, block, at, v.attached_objects.len() as int),
        items_stand(
            blocks[block].data,
            at,
            4,
            Seq::new(
                v.attached_objects.len(),
                |i: int| crate::bytes::le32_bytes(v.attached_objects[i]),
            ),
        ),
    ensures
        ({
            let room = crate::ytyp::room_of(blocks, r);
            &&& room.bb_min == v.bb_min
            &&& room.bb_max == v.bb_max
            &&& room.flags == v.flags
            &&& room.floor_id == v.floor_id
            &&& room.attached_objects == v.attached_objects
        }),
{
    crate::layout::lemma_signed_word(v.floor_id);
    lemma_words_list(blocks, r, 96, block, at, v.attached_objects);
}

/// The name of a room is the text that the pointer at byte 8 leads to, up to
/// its end mark.
pub proof fn law_room_names(
    blocks: Seq<BlockView>,
    r: Seq<u8>,
    block: int,
    at: int,
    len: int,
)
    requires
        0 <= block < blocks.len(),
        list_stands(r, 8, block, at, len),
        at + len <= blocks[block].data.len(),
    ensures
        crate::ytyp::room_of(blocks, r).name == crate::text::nul_text(
            blocks[block].data.subrange(at, at + len),
        ),
{
    crate::meta_block::law_pointer_round_trip(block, at);
}

/// Whether the bytes of a portal describe it, its lists aside.
pub open spec fn portal_says(p: Seq<u8>, v: PortalView) -> bool {
    &&& stands(p, 8, crate::bytes::le32_bytes(v.room_from))
    &&& stands(p, 12, crate::bytes::le32_bytes(v.room_to))
    &&& stands(p, 16, crate::bytes::le32_bytes(v.flags))
    &&& stands(p, 20, crate::bytes::le32_bytes(v.mirror_priority))
    &&& stands(p, 24, crate::bytes::le32_bytes(v.opacity))
    &&& stands(p, 28, crate::bytes::le32_bytes(v.audio_occlusion))
}

/// A portal is read from the fields that stand in its record; its corners are
/// those of the list at byte 32, a fourth single after each left out, and the
/// entities attached to it those of the list at byte 48.
pub proof fn law_portals_read_back(
    blocks: Seq<BlockView>,
    p: Seq<u8>,
    v: PortalView,
    pads: Seq<u32>,
    corners: (int, int),
    attached: (int, int),
)
    requires
        portal_says(p, v),
        pads.len() == v.corners.len(),
        corners.0 < blocks.len(),
        attached.0 < blocks.len(),
        corners.1 <= blocks[corners.0].data.len(),
        attached.1 <= blocks[attached.0].data.len(),
        list_stands(p, 32, corners.0, corners.1, v.corners.len() as int),
        list_stands(p, 48, attached.0, attached.1, v.attached_objects.len() as int),
        items_stand(
            blocks[corners.0].data,
            corners.1,
            16,
            Seq::new(
                v.corners.len(),
                |i: int| triple_bytes(v.corners[i]) + crate::bytes::le32_bytes(pads[i]),
            ),
        ),
        items_stand(
            blocks[attached.0].data,
            attached.1,
            4,
            Seq::new(
                v.attached_objects.len(),
                |i: int| crate::bytes::le32_bytes(v.attached_objects[i]),
            ),
        ),
    ensures
        crate::ytyp::portal_of(blocks, p) == v,
{
    lemma_corners(blocks, p, v.corners, pads, corners.0, corners.1);
    lemma_words_list(blocks, p, 48, attached.0, attached.1, v.attached_objects);
    lemma_portal_words(blocks, p, v);
    assert(crate::ytyp::portal_of(blocks, p) =~= v);
}

proof fn lemma_portal_words(blocks: Seq<BlockView>, p: Seq<u8>, v: PortalView)
    requires
        portal_says(p, v),
    ensures
        ({
            let r = crate::ytyp::portal_of(blocks, p);
            &&& r.room_from == v.room_from
            &&& r.room_to == v.room_to
            &&& r.flags == v.flags
            &&& r.mirror_priority == v.mirror_priority
            &&& r.opacity == v.opacity
            &&& r.audio_occlusion == v.audio_occlusion
        }),
{
}

proof fn lemma_corners(
    blocks: Seq<BlockView>,
    p: Seq<u8>,
    corners: Seq<crate::math::Vec3>,
    pads: Seq<u32>,
    block: int,
    at: int,
)
    requires
        pads.len() == corners.len(),
        block < blocks.len(),
        at <= blocks[block].data.len(),
        list_stands(p, 32, block, at, corners.len() as int),
        items_stand(
            blocks[block].data,
            at,
            16,
            Seq::new(
                corners.len(),
                |i: int| triple_bytes(corners[i]) + crate::bytes::le32_bytes(pads[i]),
            ),
        ),
    ensures
        crate::ytyp::portal_of(blocks, p).corners == corners,
{
    let items = Seq::new(
        corners.len(),
        |i: int| triple_bytes(corners[i]) + crate::bytes::le32_bytes(pads[i]),
    );
    law_lists_read_back(blocks, p, 32, 16, block, at, items);
    assert forall|i: int| 0 <= i < corners.len() implies crate::resource::vec3_at(items[i], 0)
        == corners[i] by {
        lemma_corner(corners[i], pads[i]);
    }
    assert(crate::ytyp::portal_of(blocks, p).corners =~= corners);
}

proof fn lemma_corner(c: crate::math::Vec3, pad: u32)
    ensures
        crate::resource::vec3_at(triple_bytes(c) + crate::bytes::le32_bytes(pad), 0) == c,
{
    let b = triple_bytes(c) + crate::bytes::le32_bytes(pad);
    assert(b.subrange(0, 12) =~= triple_bytes(c));
    assert(stands(b, 0, triple_bytes(c)));
}

/// An entity set goes by the name at byte 8; the rooms of its entities are
/// those of the list at byte 16.
pub proof fn law_entity_sets_read_back(
    blocks: Seq<BlockView>,
    s: Seq<u8>,
    name: u32,
    locations: Seq<u32>,
    block: int,
    at: int,
)
    requires
        stands(s, 8, crate::bytes::le32_bytes(name)),
        block < blocks.len(),
        at <= blocks[block].data.len(),
        list_stands(s, 16, block, at, locations.len() as int),
        items_stand(
            blocks[block].data,
            at,
            4,
            Seq::new(locations.len(), |i: int| crate::bytes::le32_bytes(locations[i])),
        ),
    ensures
        crate::ytyp::entity_set_of(blocks, s).name_hash == name,
        crate::ytyp::entity_set_of(blocks, s).locations == locations,
{
    lemma_words_list(blocks, s, 16, block, at, locations);
}

proof fn lemma_entities(
    blocks: Seq<BlockView>,
    recs: Seq<Seq<u8>>,
    places: Seq<Place>,
    vs: Seq<YmapEntity>,
    n: nat,
)
    requires
        n <= places.len(),
        places.len() == vs.len() == recs.len(),
        forall|i: int|
            0 <= i < places.len() ==> {
                &&& holds_entity(blocks, #[trigger] places[i], vs[i])
                &&& !vs[i].is_mlo_instance
                &&& recs[i] == crate::bytes::le64_bytes(
                    crate::meta_block::packed(places[i].block, places[i].at),
                )
            },
    ensures
        crate::ytyp::entities_upto(blocks, recs, n) == vs.take(n as int),
    decreases n,
{
    if n > 0 {
        let p = places[n - 1];
        lemma_entities(blocks, recs, places, vs, (n - 1) as nat);
        crate::meta_block::law_pointer_round_trip(p.block, p.at);
        assert(holds_entity(blocks, p, vs[n - 1]));
        crate::bytes::law_u64_round_trip(crate::meta_block::packed(p.block, p.at));
        law_entities_read_back(blocks[p.block].data.subrange(p.at, p.at + 128), vs[n - 1]);
        assert(vs.take(n as int) =~= vs.take(n - 1).push(vs[n - 1]));
    } else {
        assert(vs.take(0) =~= Seq::empty());
    }
}

/// The bytes of the pointers to some places.
pub open spec fn pointer_items(places: Seq<Place>) -> Seq<Seq<u8>> {
    Seq::new(
        places.len(),
        |i: int|
            crate::bytes::le64_bytes(crate::meta_block::packed(places[i].block, places[i].at)),
    )
}

/// A list of pointers to entities inside an interior reads as these entities,
/// in order: the list at byte 152 of the interior, and the one at byte 32 of
/// an entity set.
pub proof fn law_interior_entities_read_back(
    blocks: Seq<BlockView>,
    rec: Seq<u8>,
    off: int,
    name: u32,
    block: int,
    at: int,
    places: Seq<Place>,
    vs: Seq<YmapEntity>,
)
    requires
        places.len() == vs.len(),
        block < blocks.len(),
        at <= blocks[block].data.len(),
        list_stands(rec, off, block, at, places.len() as int),
        items_stand(blocks[block].data, at, 8, pointer_items(places)),
        forall|i: int|
            0 <= i < places.len() ==> holds_entity(blocks, #[trigger] places[i], vs[i])
                && !vs[i].is_mlo_instance,
    ensures
        off == 152 ==> crate::ytyp::mlo_of(blocks, rec, name).entities == vs,
        off == 32 ==> crate::ytyp::entity_set_of(blocks, rec).entities == vs,
{
    let items = pointer_items(places);
    law_lists_read_back(blocks, rec, off, 8, block, at, items);
    lemma_entities(blocks, items, places, vs, places.len());
    assert(vs.take(vs.len() as int) =~= vs);
}

/// An interior has the rooms of the list at byte 168, the portals of the one
/// at byte 184 and the entity sets of the one at byte 200, each of its own
/// length.
pub proof fn law_interiors_read_back(
    blocks: Seq<BlockView>,
    m: Seq<u8>,
    name: u32,
    rooms: Seq<Seq<u8>>,
    portals: Seq<Seq<u8>>,
    sets: Seq<Seq<u8>>,
    at: ((int, int), (int, int), (int, int)),
)
    requires
        at.0.0 < blocks.len(),
        at.1.0 < blocks.len(),
        at.2.0 < blocks.len(),
        at.0.1 <= blocks[at.0.0].data.len(),
        at.1.1 <= blocks[at.1.0].data.len(),
        at.2.1 <= blocks[at.2.0].data.len(),
        list_stands(m, 168, at.0.0, at.0.1, rooms.len() as int),
        list_stands(m, 184, at.1.0, at.1.1, portals.len() as int),
        list_stands(m, 200, at.2.0, at.2.1, sets.len() as int),
        items_stand(blocks[at.0.0].data, at.0.1, 112, rooms),
        items_stand(blocks[at.1.0].data, at.1.1, 64, portals),
        items_stand(blocks[at.2.0].data, at.2.1, 48, sets),
    ensures
        ({
            let v = crate::ytyp::mlo_of(blocks, m, name);
            &&& v.name_hash == name
            &&& v.rooms.len() == rooms.len()
            &&& v.portals.len() == portals.len()
            &&& v.entity_sets.len() == sets.len()
            &&& forall|i: int|
                0 <= i < rooms.len() ==> #[trigger] v.rooms[i] == crate::ytyp::room_of(
                    blocks,
                    rooms[i],
                )
            &&& forall|i: int|
                0 <= i < portals.len() ==> #[trigger] v.portals[i] == crate::ytyp::portal_of(
                    blocks,
                    portals[i],
                )
            &&& forall|i: int|
                0 <= i < sets.len() ==> #[trigger] v.entity_sets[i] == crate::ytyp::entity_set_of(
                    blocks,
                    sets[i],
                )
        }),
{
    law_lists_read_back(blocks, m, 168, 112, at.0.0, at.0.1, rooms);
    law_lists_read_back(blocks, m, 184, 64, at.1.0, at.1.1, portals);
    law_lists_read_back(blocks, m, 200, 48, at.2.0, at.2.1, sets);
}

/// A pointer to an archetype adds it; one to an interior that is there whole
/// adds the interior too, under the same name; one to anything else adds
/// nothing.
pub proof fn law_pointers_add_archetypes(
    y: YtypView,
    blocks: Seq<BlockView>,
    p: Place,
    v: Archetype,
    name: u32,
)
    requires
        0 <= p.block < blocks.len(),
        p.block < 0xFFF,
        0 <= p.at < 0x10_0000,
        p.at + 144 <= blocks[p.block].data.len(),
        archetype_says(blocks[p.block].data.subrange(p.at, p.at + 144), v, name),
        v.is_mlo <==> blocks[p.block].name_hash == crate::ytyp::HASH_CMLO_ARCHETYPE_DEF,
    ensures
        ({
            let kind = blocks[p.block].name_hash;
            let after = crate::ytyp::with_pointer(
                y,
                blocks,
                crate::meta_block::packed(p.block, p.at),
            );
            let known = v.is_mlo || kind == crate::ytyp::HASH_CBASE_ARCHETYPE_DEF || kind
                == crate::ytyp::HASH_CTIME_ARCHETYPE_DEF;
            &&& !known ==> after == y
            &&& known ==> after.archetypes == y.archetypes.push(v)
            &&& known && !v.is_mlo ==> after.mlos == y.mlos
            &&& v.is_mlo && p.at + 240 <= blocks[p.block].data.len() ==> {
                &&& after.mlos.len() == y.mlos.len() + 1
                &&& after.mlos.drop_last() == y.mlos
                &&& after.mlos.last().name_hash == v.name_hash
                &&& after.mlos.last() == crate::ytyp::mlo_of(
                    blocks,
                    blocks[p.block].data.subrange(p.at, p.at + 240),
                    v.name_hash,
                )
            }
        }),
{
    crate::meta_block::law_pointer_round_trip(p.block, p.at);
    law_archetypes_read_back(blocks[p.block].data.subrange(p.at, p.at + 144), v, name);
    let after = crate::ytyp::with_pointer(y, blocks, crate::meta_block::packed(p.block, p.at));
    if v.is_mlo && p.at + 240 <= blocks[p.block].data.len() {
        assert(after.mlos.drop_last() =~= y.mlos);
    }
}

} // verus!
