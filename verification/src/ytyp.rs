//! Archetype definitions (`.ytyp`, RSC7 "Meta" format): which texture
//! dictionary an archetype (prop/model) references, its bounds, and the MLO
//! definitions with their entities, rooms, portals and entity sets.
//!
//! `CBaseArchetypeDef.textureDictionary` is keyed by the archetype's `name`
//! (or `assetName` when `name` is 0), matching how the game's own renderer
//! picks a texture dictionary for a drawable. The three archetype structures
//! share the same 144-byte layout, differing only in what follows.
//!
//! Byte layout from CodeWalker.Core (Meta.cs, MetaTypes.cs, YtypFile.cs).

use vstd::prelude::*;
use vstd::string::*;

use crate::math::Vec3;
use crate::meta_block::{
    list_pointers, meta_array_records, read_meta_blocks, read_meta_string, read_meta_u32_array,
    resolve_target, BlockView, Listed, MetaBlock, MetaError, PointerList,
};
use crate::resource::{
    f32_le, prepare_rsc7, u32_le, u64_le, vec3_le, ResReader, ResourceError,
};
use crate::ymap::{read_entity, YmapEntity, HASH_CENTITYDEF};

verus! {

broadcast use {vstd::slice::group_slice_axioms, crate::bytes::group_subrange_reads};

/// Structure-name hashes: the RAGE Jenkins hash of the exact-case structure
/// name (unlike texture/file names elsewhere in this crate, these are *not*
/// lowercased first).
pub const HASH_CMAPTYPES: u32 = 3_649_811_809;
pub const HASH_CBASE_ARCHETYPE_DEF: u32 = 2_195_127_427;
pub const HASH_CTIME_ARCHETYPE_DEF: u32 = 1_991_296_364;
pub const HASH_CMLO_ARCHETYPE_DEF: u32 = 273_704_021;
// The structure names an MLO's own blocks carry. A block reached through an
// `Array_Structure` (rooms, portals, entity sets) or a `CharPointer` (a room
// name, into a `STRING` block) is read by pointer and stride, so the parser
// never has to match on these.
pub const HASH_CMLO_ROOM_DEF: u32 = 186_126_833;
pub const HASH_CMLO_PORTAL_DEF: u32 = 2_572_186_314;
pub const HASH_CMLO_ENTITY_SET: u32 = 3_601_308_153;
pub const HASH_STRING: u32 = 3_358_528_679;

/// Where the archetypes stand in a `CMapTypes`.
pub const ARCHETYPES_OFFSET: usize = 24;

/// One archetype's texture-dictionary binding.
#[derive(Debug, Clone, Copy, PartialEq, Eq, Structural)]
pub struct ArchetypeTxd {
    /// `name` (or `assetName` when `name` is 0), the archetype's own
    /// lowercase-JOAAT name hash, the same hash space as a drawable's file
    /// stem.
    pub name_hash: u32,
    /// `textureDictionary`, 0 when the archetype names none.
    pub texture_dict_hash: u32,
}

/// An archetype's placement-relevant fields.
#[derive(Debug, Clone, Copy, PartialEq, Eq, Structural)]
pub struct Archetype {
    /// `name` (or `assetName` when `name` is 0), lowercase JOAAT.
    pub name_hash: u32,
    pub bb_min: Vec3,
    pub bb_max: Vec3,
    /// The bits of a single.
    pub lod_dist: u32,
    /// `textureDictionary` hash, 0 when none.
    pub texture_dict_hash: u32,
    /// `drawableDictionary` hash: the `.ydd` holding the model when
    /// `asset_type` says so; 0 otherwise.
    pub drawable_dictionary_hash: u32,
    /// `assetName` hash: the model's own name (its `.ydr`/`.yft` stem, or
    /// its member name inside the drawable dictionary).
    pub asset_name_hash: u32,
    /// `assetType` as stored: see the `ASSET_TYPE_*` constants.
    pub asset_type: u32,
    pub is_mlo: bool,
}

pub const ASSET_TYPE_UNINITIALIZED: u32 = 0;
pub const ASSET_TYPE_FRAGMENT: u32 = 1;
pub const ASSET_TYPE_DRAWABLE: u32 = 2;
pub const ASSET_TYPE_DRAWABLEDICTIONARY: u32 = 3;
pub const ASSET_TYPE_ASSETLESS: u32 = 4;

impl Archetype {
    /// Whether the model lives inside a dictionary.
    pub open spec fn from_dictionary(self) -> bool {
        self.asset_type == ASSET_TYPE_DRAWABLEDICTIONARY && self.drawable_dictionary_hash != 0
    }

    /// Whether the model is a fragment.
    pub open spec fn from_fragment(self) -> bool {
        self.asset_type == ASSET_TYPE_FRAGMENT
    }

    /// The hash of what holds the model.
    pub open spec fn model(self) -> u32 {
        if self.asset_name_hash != 0 {
            self.asset_name_hash
        } else {
            self.name_hash
        }
    }

    /// The model lives inside a `.ydd` named by `drawable_dictionary_hash`.
    pub fn in_drawable_dictionary(&self) -> (r: bool)
        ensures
            r == (self.asset_type == ASSET_TYPE_DRAWABLEDICTIONARY && self.drawable_dictionary_hash
                != 0),
            r == self.from_dictionary(),
    {
        self.asset_type == ASSET_TYPE_DRAWABLEDICTIONARY && self.drawable_dictionary_hash != 0
    }

    /// The model is a fragment (`.yft`).
    pub fn is_fragment(&self) -> (r: bool)
        ensures
            r == (self.asset_type == ASSET_TYPE_FRAGMENT),
            r == self.from_fragment(),
    {
        self.asset_type == ASSET_TYPE_FRAGMENT
    }

    /// The hash of the file (or dictionary member) that holds the model:
    /// `assetName` when set, else the archetype's own name.
    pub fn model_hash(&self) -> (r: u32)
        ensures
            r == (if self.asset_name_hash != 0 {
                self.asset_name_hash
            } else {
                self.name_hash
            }),
            r == self.model(),
    {
        if self.asset_name_hash != 0 {
            self.asset_name_hash
        } else {
            self.name_hash
        }
    }
}

/// A room of an MLO, in MLO-local space.
#[derive(Debug, PartialEq, Eq)]
pub struct MloRoom {
    /// The room's own name, e.g. "limbo" or "Kitchen", empty when the file's
    /// string block doesn't resolve.
    pub name: String,
    pub bb_min: Vec3,
    pub bb_max: Vec3,
    pub flags: u32,
    pub floor_id: i32,
    /// Indices into the MLO's `entities` list of the entities this room owns.
    pub attached_objects: Vec<u32>,
}

/// A doorway (or window, or any other see-through join) between two of an
/// MLO's rooms, as a quad of corners in MLO-local space.
#[derive(Debug, PartialEq, Eq)]
pub struct MloPortal {
    /// Index into the MLO's `rooms`; room 0 is "limbo", the world outside.
    pub room_from: u32,
    pub room_to: u32,
    pub flags: u32,
    pub mirror_priority: u32,
    /// 0..=255; how much the portal occludes what is behind it. Stored as an
    /// integer in the Meta layout, unlike the PSO form of the same field.
    pub opacity: u32,
    pub audio_occlusion: u32,
    /// The portal's corners, normally four, in winding order.
    pub corners: Vec<Vec3>,
    /// Indices into the MLO's `entities` list (doors, glass) attached here.
    pub attached_objects: Vec<u32>,
}

/// Whether one of two rooms is the world outside.
pub open spec fn leads_out(from: u32, to: u32) -> bool {
    from == 0 || to == 0
}

impl MloPortal {
    /// True when the portal opens onto room 0 ("limbo"), i.e. it is a way in
    /// or out of the interior rather than a join between two of its rooms.
    pub fn is_exterior(&self) -> (r: bool)
        ensures
            r == (self.room_from == 0 || self.room_to == 0),
            r == leads_out(self.room_from, self.room_to),
    {
        self.room_from == 0 || self.room_to == 0
    }
}

/// A named, separately streamed group of an MLO's entities (a "DLC" furniture
/// set, a destroyed variant…) that the game switches on and off as a unit.
#[derive(Debug, PartialEq, Eq)]
pub struct MloEntitySet {
    /// Lowercase JOAAT of the set's name.
    pub name_hash: u32,
    /// One room index per entity, telling which room each of `entities` is in.
    pub locations: Vec<u32>,
    pub entities: Vec<YmapEntity>,
}

/// A `CMloArchetypeDef`: the interior's own entities (props, doors,
/// furniture) placed relative to the MLO origin, its rooms, the portals
/// between them and its switchable entity sets.
#[derive(Debug, PartialEq, Eq)]
pub struct MloDef {
    pub name_hash: u32,
    pub entities: Vec<YmapEntity>,
    pub rooms: Vec<MloRoom>,
    pub portals: Vec<MloPortal>,
    pub entity_sets: Vec<MloEntitySet>,
}

/// Everything a `.ytyp` declares that placement work needs.
#[derive(Debug, PartialEq, Eq)]
pub struct Ytyp {
    pub archetypes: Vec<Archetype>,
    pub mlos: Vec<MloDef>,
}

impl Default for Ytyp {
    fn default() -> (r: Self)
        ensures
            r.archetypes@ == Seq::<Archetype>::empty(),
            r.mlos@ == Seq::<MloDef>::empty(),
    {
        Ytyp { archetypes: Vec::new(), mlos: Vec::new() }
    }
}

// ─── the models ──────────────────────────────────────────────────────────────

/// The model of a [`MloRoom`].
#[verifier::ext_equal]
pub struct RoomView {
    pub name: Seq<char>,
    pub bb_min: Vec3,
    pub bb_max: Vec3,
    pub flags: u32,
    pub floor_id: i32,
    pub attached_objects: Seq<u32>,
}

/// The model of a [`MloPortal`].
#[verifier::ext_equal]
pub struct PortalView {
    pub room_from: u32,
    pub room_to: u32,
    pub flags: u32,
    pub mirror_priority: u32,
    pub opacity: u32,
    pub audio_occlusion: u32,
    pub corners: Seq<Vec3>,
    pub attached_objects: Seq<u32>,
}

/// The model of a [`MloEntitySet`].
#[verifier::ext_equal]
pub struct EntitySetView {
    pub name_hash: u32,
    pub locations: Seq<u32>,
    pub entities: Seq<YmapEntity>,
}

/// The model of a [`MloDef`].
#[verifier::ext_equal]
pub struct MloView {
    pub name_hash: u32,
    pub entities: Seq<YmapEntity>,
    pub rooms: Seq<RoomView>,
    pub portals: Seq<PortalView>,
    pub entity_sets: Seq<EntitySetView>,
}

/// The model of a [`Ytyp`].
#[verifier::ext_equal]
pub struct YtypView {
    pub archetypes: Seq<Archetype>,
    pub mlos: Seq<MloView>,
}

impl View for MloRoom {
    type V = RoomView;

    open spec fn view(&self) -> RoomView {
        RoomView {
            name: self.name@,
            bb_min: self.bb_min,
            bb_max: self.bb_max,
            flags: self.flags,
            floor_id: self.floor_id,
            attached_objects: self.attached_objects@,
        }
    }
}

impl View for MloPortal {
    type V = PortalView;

    open spec fn view(&self) -> PortalView {
        PortalView {
            room_from: self.room_from,
            room_to: self.room_to,
            flags: self.flags,
            mirror_priority: self.mirror_priority,
            opacity: self.opacity,
            audio_occlusion: self.audio_occlusion,
            corners: self.corners@,
            attached_objects: self.attached_objects@,
        }
    }
}

impl View for MloEntitySet {
    type V = EntitySetView;

    open spec fn view(&self) -> EntitySetView {
        EntitySetView {
            name_hash: self.name_hash,
            locations: self.locations@,
            entities: self.entities@,
        }
    }
}

impl View for MloDef {
    type V = MloView;

    open spec fn view(&self) -> MloView {
        MloView {
            name_hash: self.name_hash,
            entities: self.entities@,
            rooms: Seq::new(self.rooms@.len(), |i: int| self.rooms@[i]@),
            portals: Seq::new(self.portals@.len(), |i: int| self.portals@[i]@),
            entity_sets: Seq::new(self.entity_sets@.len(), |i: int| self.entity_sets@[i]@),
        }
    }
}

impl View for Ytyp {
    type V = YtypView;

    open spec fn view(&self) -> YtypView {
        YtypView {
            archetypes: self.archetypes@,
            mlos: Seq::new(self.mlos@.len(), |i: int| self.mlos@[i]@),
        }
    }
}

// ─── what a file says ────────────────────────────────────────────────────────

/// The hash of an archetype: its name, or its asset name where that is 0.
pub open spec fn archetype_hash(base: Seq<u8>) -> u32 {
    if crate::bytes::le32(base, 88) == 0 {
        crate::bytes::le32(base, 112)
    } else {
        crate::bytes::le32(base, 88)
    }
}

/// Whether a structure is an archetype.
pub open spec fn is_archetype(name: u32) -> bool {
    name == HASH_CBASE_ARCHETYPE_DEF || name == HASH_CTIME_ARCHETYPE_DEF || name
        == HASH_CMLO_ARCHETYPE_DEF
}

/// The texture dictionaries of the archetypes that the first `k` of some
/// pointers lead to.
pub open spec fn txds_upto(blocks: Seq<BlockView>, pointers: Seq<u8>, k: nat) -> Seq<ArchetypeTxd>
    decreases k,
{
    if k == 0 {
        Seq::empty()
    } else {
        let before = txds_upto(blocks, pointers, (k - 1) as nat);
        match crate::meta_block::target(blocks, crate::bytes::le64(pointers, 8 * (k - 1)), 144) {
            Some((name, base)) => if is_archetype(name) {
                before.push(
                    ArchetypeTxd {
                        name_hash: archetype_hash(base),
                        texture_dict_hash: crate::bytes::le32(base, 92),
                    },
                )
            } else {
                before
            },
            None => before,
        }
    }
}

/// The archetype that a structure of 144 bytes describes.
pub open spec fn archetype_of(base: Seq<u8>, is_mlo: bool) -> Archetype {
    Archetype {
        name_hash: archetype_hash(base),
        bb_min: crate::resource::vec3_at(base, 32),
        bb_max: crate::resource::vec3_at(base, 48),
        lod_dist: crate::bytes::le32(base, 8),
        texture_dict_hash: crate::bytes::le32(base, 92),
        drawable_dictionary_hash: crate::bytes::le32(base, 100),
        asset_name_hash: crate::bytes::le32(base, 112),
        asset_type: crate::bytes::le32(base, 108),
        is_mlo,
    }
}

/// The entities that the first `k` of some pointer records lead to.
pub open spec fn entities_upto(blocks: Seq<BlockView>, recs: Seq<Seq<u8>>, k: nat) -> Seq<
    YmapEntity,
>
    decreases k,
{
    if k == 0 {
        Seq::empty()
    } else {
        let before = entities_upto(blocks, recs, (k - 1) as nat);
        match crate::meta_block::target(blocks, crate::bytes::le64(recs[k - 1], 0), 128) {
            Some((name, e)) => if name == HASH_CENTITYDEF {
                before.push(crate::ymap::entity_of(e, false))
            } else {
                before
            },
            None => before,
        }
    }
}

/// The entities of a list of pointers at `off` in a record.
pub open spec fn entities_at(blocks: Seq<BlockView>, rec: Seq<u8>, off: int) -> Seq<YmapEntity> {
    let recs = crate::meta_block::records(blocks, rec, off, 8);
    entities_upto(blocks, recs, recs.len())
}

/// A room.
pub open spec fn room_of(blocks: Seq<BlockView>, r: Seq<u8>) -> RoomView {
    RoomView {
        name: match crate::meta_block::string_at(blocks, r, 8) {
            Some(t) => t,
            None => Seq::empty(),
        },
        bb_min: crate::resource::vec3_at(r, 32),
        bb_max: crate::resource::vec3_at(r, 48),
        flags: crate::bytes::le32(r, 76),
        floor_id: crate::bytes::le32(r, 84) as i32,
        attached_objects: crate::meta_block::u32_records(blocks, r, 96),
    }
}

/// A portal. Its corners are stored with four components, the last of which
/// is padding.
pub open spec fn portal_of(blocks: Seq<BlockView>, p: Seq<u8>) -> PortalView {
    let corners = crate::meta_block::records(blocks, p, 32, 16);
    PortalView {
        room_from: crate::bytes::le32(p, 8),
        room_to: crate::bytes::le32(p, 12),
        flags: crate::bytes::le32(p, 16),
        mirror_priority: crate::bytes::le32(p, 20),
        opacity: crate::bytes::le32(p, 24),
        audio_occlusion: crate::bytes::le32(p, 28),
        corners: Seq::new(corners.len(), |i: int| crate::resource::vec3_at(corners[i], 0)),
        attached_objects: crate::meta_block::u32_records(blocks, p, 48),
    }
}

/// An entity set.
pub open spec fn entity_set_of(blocks: Seq<BlockView>, s: Seq<u8>) -> EntitySetView {
    EntitySetView {
        name_hash: crate::bytes::le32(s, 8),
        locations: crate::meta_block::u32_records(blocks, s, 16),
        entities: entities_at(blocks, s, 32),
    }
}

/// An MLO.
pub open spec fn mlo_of(blocks: Seq<BlockView>, m: Seq<u8>, name_hash: u32) -> MloView {
    let rooms = crate::meta_block::records(blocks, m, 168, 112);
    let portals = crate::meta_block::records(blocks, m, 184, 64);
    let sets = crate::meta_block::records(blocks, m, 200, 48);
    MloView {
        name_hash,
        entities: entities_at(blocks, m, 152),
        rooms: Seq::new(rooms.len(), |i: int| room_of(blocks, rooms[i])),
        portals: Seq::new(portals.len(), |i: int| portal_of(blocks, portals[i])),
        entity_sets: Seq::new(sets.len(), |i: int| entity_set_of(blocks, sets[i])),
    }
}

/// What one pointer adds: its archetype, and its MLO where it is one that is
/// there whole.
pub open spec fn with_pointer(y: YtypView, blocks: Seq<BlockView>, raw: u64) -> YtypView {
    match crate::meta_block::target(blocks, raw, 144) {
        Some((name, base)) => if is_archetype(name) {
            let is_mlo = name == HASH_CMLO_ARCHETYPE_DEF;
            YtypView {
                archetypes: y.archetypes.push(archetype_of(base, is_mlo)),
                mlos: match crate::meta_block::target(blocks, raw, 240) {
                    Some((_, m)) => if is_mlo {
                        y.mlos.push(mlo_of(blocks, m, archetype_hash(base)))
                    } else {
                        y.mlos
                    },
                    None => y.mlos,
                },
            }
        } else {
            y
        },
        None => y,
    }
}

/// What the first `k` of some pointers lead to.
pub open spec fn ytyp_upto(blocks: Seq<BlockView>, pointers: Seq<u8>, k: nat) -> YtypView
    decreases k,
{
    if k == 0 {
        YtypView { archetypes: Seq::empty(), mlos: Seq::empty() }
    } else {
        with_pointer(
            ytyp_upto(blocks, pointers, (k - 1) as nat),
            blocks,
            crate::bytes::le64(pointers, 8 * (k - 1)),
        )
    }
}

/// The blocks of a file and its pointers to archetypes, `None` where it has
/// none.
pub open spec fn archetype_pointers(system: Seq<u8>, graphics: Seq<u8>) -> Result<
    (Seq<BlockView>, Option<Seq<u8>>),
    MetaError,
> {
    match crate::meta_block::blocks_of(system, graphics) {
        Err(e) => Err(e),
        Ok(blocks) => match crate::meta_block::listed(blocks, HASH_CMAPTYPES, ARCHETYPES_OFFSET as int) {
            PointerList::NoRoot => Err(MetaError::NoMapTypes),
            PointerList::RootSmall => Err(MetaError::MapTypesSmall),
            PointerList::Empty => Ok((blocks, None)),
            PointerList::NoBlock => Err(MetaError::ArchetypesBlock),
            PointerList::Bounds => Err(MetaError::ArchetypesArray),
            PointerList::Pointers(p) => Ok((blocks, Some(p))),
        },
    }
}

/// The texture dictionaries that two sections bind.
pub open spec fn parsed_txds(system: Seq<u8>, graphics: Seq<u8>) -> Result<
    Seq<ArchetypeTxd>,
    MetaError,
> {
    match archetype_pointers(system, graphics) {
        Err(e) => Err(e),
        Ok((blocks, Some(p))) => Ok(txds_upto(blocks, p, (p.len() / 8) as nat)),
        Ok((_, None)) => Ok(Seq::empty()),
    }
}

/// The definitions that two sections hold.
pub open spec fn parsed(system: Seq<u8>, graphics: Seq<u8>) -> Result<YtypView, MetaError> {
    match archetype_pointers(system, graphics) {
        Err(e) => Err(e),
        Ok((blocks, Some(p))) => Ok(ytyp_upto(blocks, p, (p.len() / 8) as nat)),
        Ok((_, None)) => Ok(YtypView { archetypes: Seq::empty(), mlos: Seq::empty() }),
    }
}

// ─── reading ─────────────────────────────────────────────────────────────────

fn base_hash(base: &[u8]) -> (r: u32)
    requires
        base@.len() == 144,
    ensures
        r == archetype_hash(base@),
{
    let name = u32_le(base, 88);
    if name == 0 {
        u32_le(base, 112)
    } else {
        name
    }
}

fn archetype_name(name: u32) -> (r: bool)
    ensures
        r == is_archetype(name),
{
    name == HASH_CBASE_ARCHETYPE_DEF || name == HASH_CTIME_ARCHETYPE_DEF || name
        == HASH_CMLO_ARCHETYPE_DEF
}

spec fn pointers_view(r: Result<Option<Vec<u8>>, MetaError>) -> Result<Option<Seq<u8>>, MetaError> {
    match r {
        Ok(Some(p)) => Ok(Some(p@)),
        Ok(None) => Ok(None),
        Err(e) => Err(e),
    }
}

fn read_pointers(blocks: &Vec<MetaBlock>) -> (r: Result<Option<Vec<u8>>, MetaError>)
    ensures
        pointers_view(r) == (match crate::meta_block::listed(
            crate::meta_block::blocks_view(blocks@),
            HASH_CMAPTYPES,
            ARCHETYPES_OFFSET as int,
        ) {
            PointerList::NoRoot => Err::<Option<Seq<u8>>, MetaError>(MetaError::NoMapTypes),
            PointerList::RootSmall => Err(MetaError::MapTypesSmall),
            PointerList::Empty => Ok(None),
            PointerList::NoBlock => Err(MetaError::ArchetypesBlock),
            PointerList::Bounds => Err(MetaError::ArchetypesArray),
            PointerList::Pointers(p) => Ok(Some(p)),
        }),
{
    match list_pointers(blocks, HASH_CMAPTYPES, ARCHETYPES_OFFSET) {
        Listed::NoRoot => Err(MetaError::NoMapTypes),
        Listed::RootSmall => Err(MetaError::MapTypesSmall),
        Listed::Empty => Ok(None),
        Listed::NoBlock => Err(MetaError::ArchetypesBlock),
        Listed::Bounds => Err(MetaError::ArchetypesArray),
        Listed::Pointers(p) => Ok(Some(crate::bytes::to_vec(p))),
    }
}

/// Extracts every archetype's `(name hash, texture dictionary hash)` from the
/// sections of a `.ytyp`.
pub fn parse_archetype_txds_from_reader(reader: &ResReader) -> (r: Result<
    Vec<ArchetypeTxd>,
    MetaError,
>)
    ensures
        (match r {
            Ok(v) => Ok::<Seq<ArchetypeTxd>, MetaError>(v@),
            Err(e) => Err(e),
        }) == parsed_txds(reader.system@, reader.graphics@),
{
    let blocks = match read_meta_blocks(reader) {
        Ok(b) => b,
        Err(e) => {
            return Err(e);
        },
    };
    let pointers = match read_pointers(&blocks) {
        Ok(Some(p)) => p,
        Ok(None) => {
            return Ok(Vec::new());
        },
        Err(e) => {
            return Err(e);
        },
    };
    let n = pointers.len() / 8;
    let mut out: Vec<ArchetypeTxd> = Vec::new();
    let mut k: usize = 0;
    while k < n
        invariant
            k <= n == pointers@.len() / 8,
            out@ == txds_upto(crate::meta_block::blocks_view(blocks@), pointers@, k as nat),
        decreases n - k,
    {
        assert(8 * k + 8 <= pointers.len());
        match resolve_target(&blocks, u64_le(pointers.as_slice(), 8 * k), 144) {
            Some((name, base)) => {
                if archetype_name(name) {
                    out.push(
                        ArchetypeTxd {
                            name_hash: base_hash(base),
                            texture_dict_hash: u32_le(base, 92),
                        },
                    );
                }
            },
            None => {},
        }
        k += 1;
    }
    Ok(out)
}

/// Extracts every archetype's `(name hash, texture dictionary hash)` from a
/// .ytyp's raw bytes.
pub fn parse_archetype_txds(data: &[u8]) -> (r: Result<Vec<ArchetypeTxd>, MetaError>)
    ensures
        exists|sections: Result<(Seq<u8>, Seq<u8>), ResourceError>|
            #[trigger] crate::resource::unpacks_to(data@, sections) && (match r {
                Ok(v) => Ok::<Seq<ArchetypeTxd>, MetaError>(v@),
                Err(e) => Err(e),
            }) == (match sections {
                Ok((system, graphics)) => parsed_txds(system, graphics),
                Err(e) => Err(MetaError::Resource(e)),
            }),
{
    let prepared = prepare_rsc7(data);
    let ghost sections = crate::resource::sections_view(prepared);
    assert(crate::resource::unpacks_to(data@, sections));
    match prepared {
        Ok((system, graphics)) => {
            let reader = ResReader { system: system.as_slice(), graphics: graphics.as_slice() };
            parse_archetype_txds_from_reader(&reader)
        },
        Err(e) => Err(MetaError::Resource(e)),
    }
}

fn read_entity_pointers(blocks: &Vec<MetaBlock>, rec: &[u8], off: usize) -> (out: Vec<YmapEntity>)
    requires
        off + 10 <= rec@.len(),
    ensures
        out@ == entities_at(crate::meta_block::blocks_view(blocks@), rec@, off as int),
{
    let ghost bv = crate::meta_block::blocks_view(blocks@);
    let ghost all = crate::meta_block::records(bv, rec@, off as int, 8);
    let recs = meta_array_records(blocks, rec, off, 8);
    proof {
        crate::meta_block::lemma_record_len(bv, rec@, off as int, 8);
    }
    let mut out: Vec<YmapEntity> = Vec::new();
    let mut k: usize = 0;
    while k < recs.len()
        invariant
            k <= recs@.len(),
            bv == crate::meta_block::blocks_view(blocks@),
            crate::meta_block::slices_view(recs@) == all,
            forall|i: int| 0 <= i < all.len() ==> (#[trigger] all[i]).len() == 8,
            out@ == entities_upto(bv, all, k as nat),
        decreases recs@.len() - k,
    {
        assert(crate::meta_block::slices_view(recs@)[k as int] == recs@[k as int]@);
        assert(all[k as int].len() == 8);
        match resolve_target(blocks, u64_le(recs[k], 0), 128) {
            Some((name, e)) => {
                if name == HASH_CENTITYDEF {
                    out.push(read_entity(e, false));
                }
            },
            None => {},
        }
        k += 1;
    }
    out
}

fn read_room(blocks: &Vec<MetaBlock>, r: &[u8]) -> (room: MloRoom)
    requires
        r@.len() == 112,
    ensures
        room@ == room_of(crate::meta_block::blocks_view(blocks@), r@),
{
    let name = match read_meta_string(blocks, r, 8) {
        Some(s) => s,
        None => String::new(),
    };
    let room = MloRoom {
        name,
        bb_min: vec3_le(r, 32),
        bb_max: vec3_le(r, 48),
        flags: u32_le(r, 76),
        floor_id: u32_le(r, 84) as i32,
        attached_objects: read_meta_u32_array(blocks, r, 96),
    };
    assert(room@.name =~= room_of(crate::meta_block::blocks_view(blocks@), r@).name);
    room
}

fn read_corners(blocks: &Vec<MetaBlock>, p: &[u8]) -> (out: Vec<Vec3>)
    requires
        p@.len() == 64,
    ensures
        out@ == portal_of(crate::meta_block::blocks_view(blocks@), p@).corners,
{
    let ghost bv = crate::meta_block::blocks_view(blocks@);
    let ghost all = crate::meta_block::records(bv, p@, 32, 16);
    let recs = meta_array_records(blocks, p, 32, 16);
    proof {
        crate::meta_block::lemma_record_len(bv, p@, 32, 16);
    }
    let mut out: Vec<Vec3> = Vec::new();
    let mut k: usize = 0;
    while k < recs.len()
        invariant
            k <= recs@.len(),
            crate::meta_block::slices_view(recs@) == all,
            forall|i: int| 0 <= i < all.len() ==> (#[trigger] all[i]).len() == 16,
            out@ == Seq::new(k as nat, |i: int| crate::resource::vec3_at(all[i], 0)),
        decreases recs@.len() - k,
    {
        assert(crate::meta_block::slices_view(recs@)[k as int] == recs@[k as int]@);
        assert(all[k as int].len() == 16);
        out.push(vec3_le(recs[k], 0));
        k += 1;
        assert(out@ =~= Seq::new(k as nat, |i: int| crate::resource::vec3_at(all[i], 0)));
    }
    assert(out@ =~= portal_of(bv, p@).corners);
    out
}

fn read_portal(blocks: &Vec<MetaBlock>, p: &[u8]) -> (portal: MloPortal)
    requires
        p@.len() == 64,
    ensures
        portal@ == portal_of(crate::meta_block::blocks_view(blocks@), p@),
{
    MloPortal {
        room_from: u32_le(p, 8),
        room_to: u32_le(p, 12),
        flags: u32_le(p, 16),
        mirror_priority: u32_le(p, 20),
        opacity: u32_le(p, 24),
        audio_occlusion: u32_le(p, 28),
        corners: read_corners(blocks, p),
        attached_objects: read_meta_u32_array(blocks, p, 48),
    }
}

fn read_entity_set(blocks: &Vec<MetaBlock>, s: &[u8]) -> (set: MloEntitySet)
    requires
        s@.len() == 48,
    ensures
        set@ == entity_set_of(crate::meta_block::blocks_view(blocks@), s@),
{
    MloEntitySet {
        name_hash: u32_le(s, 8),
        locations: read_meta_u32_array(blocks, s, 16),
        entities: read_entity_pointers(blocks, s, 32),
    }
}

fn read_rooms(blocks: &Vec<MetaBlock>, m: &[u8]) -> (out: Vec<MloRoom>)
    requires
        m@.len() == 240,
    ensures
        ({
            let recs = crate::meta_block::records(crate::meta_block::blocks_view(blocks@), m@, 168, 112);
            &&& out@.len() == recs.len()
            &&& forall|i: int|
                0 <= i < recs.len() ==> (#[trigger] out@[i])@ == room_of(
                    crate::meta_block::blocks_view(blocks@),
                    recs[i],
                )
        }),
{
    let ghost bv = crate::meta_block::blocks_view(blocks@);
    let ghost all = crate::meta_block::records(bv, m@, 168, 112);
    let recs = meta_array_records(blocks, m, 168, 112);
    proof {
        crate::meta_block::lemma_record_len(bv, m@, 168, 112);
    }
    let mut out: Vec<MloRoom> = Vec::new();
    let mut k: usize = 0;
    while k < recs.len()
        invariant
            k <= recs@.len(),
            bv == crate::meta_block::blocks_view(blocks@),
            crate::meta_block::slices_view(recs@) == all,
            forall|i: int| 0 <= i < all.len() ==> (#[trigger] all[i]).len() == 112,
            out@.len() == k,
            forall|i: int| 0 <= i < k ==> (#[trigger] out@[i])@ == room_of(bv, all[i]),
        decreases recs@.len() - k,
    {
        assert(crate::meta_block::slices_view(recs@)[k as int] == recs@[k as int]@);
        assert(all[k as int].len() == 112);
        out.push(read_room(blocks, recs[k]));
        k += 1;
    }
    out
}

fn read_portals(blocks: &Vec<MetaBlock>, m: &[u8]) -> (out: Vec<MloPortal>)
    requires
        m@.len() == 240,
    ensures
        ({
            let recs = crate::meta_block::records(crate::meta_block::blocks_view(blocks@), m@, 184, 64);
            &&& out@.len() == recs.len()
            &&& forall|i: int|
                0 <= i < recs.len() ==> (#[trigger] out@[i])@ == portal_of(
                    crate::meta_block::blocks_view(blocks@),
                    recs[i],
                )
        }),
{
    let ghost bv = crate::meta_block::blocks_view(blocks@);
    let ghost all = crate::meta_block::records(bv, m@, 184, 64);
    let recs = meta_array_records(blocks, m, 184, 64);
    proof {
        crate::meta_block::lemma_record_len(bv, m@, 184, 64);
    }
    let mut out: Vec<MloPortal> = Vec::new();
    let mut k: usize = 0;
    while k < recs.len()
        invariant
            k <= recs@.len(),
            bv == crate::meta_block::blocks_view(blocks@),
            crate::meta_block::slices_view(recs@) == all,
            forall|i: int| 0 <= i < all.len() ==> (#[trigger] all[i]).len() == 64,
            out@.len() == k,
            forall|i: int| 0 <= i < k ==> (#[trigger] out@[i])@ == portal_of(bv, all[i]),
        decreases recs@.len() - k,
    {
        assert(crate::meta_block::slices_view(recs@)[k as int] == recs@[k as int]@);
        assert(all[k as int].len() == 64);
        out.push(read_portal(blocks, recs[k]));
        k += 1;
    }
    out
}

fn read_entity_sets(blocks: &Vec<MetaBlock>, m: &[u8]) -> (out: Vec<MloEntitySet>)
    requires
        m@.len() == 240,
    ensures
        ({
            let recs = crate::meta_block::records(crate::meta_block::blocks_view(blocks@), m@, 200, 48);
            &&& out@.len() == recs.len()
            &&& forall|i: int|
                0 <= i < recs.len() ==> (#[trigger] out@[i])@ == entity_set_of(
                    crate::meta_block::blocks_view(blocks@),
                    recs[i],
                )
        }),
{
    let ghost bv = crate::meta_block::blocks_view(blocks@);
    let ghost all = crate::meta_block::records(bv, m@, 200, 48);
    let recs = meta_array_records(blocks, m, 200, 48);
    proof {
        crate::meta_block::lemma_record_len(bv, m@, 200, 48);
    }
    let mut out: Vec<MloEntitySet> = Vec::new();
    let mut k: usize = 0;
    while k < recs.len()
        invariant
            k <= recs@.len(),
            bv == crate::meta_block::blocks_view(blocks@),
            crate::meta_block::slices_view(recs@) == all,
            forall|i: int| 0 <= i < all.len() ==> (#[trigger] all[i]).len() == 48,
            out@.len() == k,
            forall|i: int| 0 <= i < k ==> (#[trigger] out@[i])@ == entity_set_of(bv, all[i]),
        decreases recs@.len() - k,
    {
        assert(crate::meta_block::slices_view(recs@)[k as int] == recs@[k as int]@);
        assert(all[k as int].len() == 48);
        out.push(read_entity_set(blocks, recs[k]));
        k += 1;
    }
    out
}

fn read_mlo(blocks: &Vec<MetaBlock>, m: &[u8], name_hash: u32) -> (mlo: MloDef)
    requires
        m@.len() == 240,
    ensures
        mlo@ == mlo_of(crate::meta_block::blocks_view(blocks@), m@, name_hash),
{
    let mlo = MloDef {
        name_hash,
        entities: read_entity_pointers(blocks, m, 152),
        rooms: read_rooms(blocks, m),
        portals: read_portals(blocks, m),
        entity_sets: read_entity_sets(blocks, m),
    };
    assert(mlo@ =~= mlo_of(crate::meta_block::blocks_view(blocks@), m@, name_hash));
    mlo
}

fn add_pointer(out: &mut Ytyp, blocks: &Vec<MetaBlock>, raw: u64)
    ensures
        final(out)@ == with_pointer(old(out)@, crate::meta_block::blocks_view(blocks@), raw),
{
    let ghost before = out@;
    let ghost had = out.mlos@;
    let (name, base) = match resolve_target(blocks, raw, 144) {
        Some(x) => x,
        None => {
            return;
        },
    };
    if !archetype_name(name) {
        return;
    }
    let name_hash = base_hash(base);
    let is_mlo = name == HASH_CMLO_ARCHETYPE_DEF;
    out.archetypes.push(
        Archetype {
            name_hash,
            bb_min: vec3_le(base, 32),
            bb_max: vec3_le(base, 48),
            lod_dist: f32_le(base, 8),
            texture_dict_hash: u32_le(base, 92),
            drawable_dictionary_hash: u32_le(base, 100),
            asset_type: u32_le(base, 108),
            asset_name_hash: u32_le(base, 112),
            is_mlo,
        },
    );
    assert(out@.mlos =~= before.mlos);
    if is_mlo {
        match resolve_target(blocks, raw, 240) {
            Some((_, m)) => {
                let mlo = read_mlo(blocks, m, name_hash);
                let ghost v = mlo@;
                out.mlos.push(mlo);
                assert(out@.mlos =~= before.mlos.push(v));
            },
            None => {},
        }
    }
}

/// The definitions of a file, from its two sections.
pub fn read_sections(system: &[u8], graphics: &[u8]) -> (r: Result<Ytyp, MetaError>)
    ensures
        (match r {
            Ok(y) => Ok::<YtypView, MetaError>(y@),
            Err(e) => Err(e),
        }) == parsed(system@, graphics@),
{
    let reader = ResReader { system, graphics };
    let mut out = Ytyp::default();
    assert(out@ =~= YtypView { archetypes: Seq::empty(), mlos: Seq::empty() });
    let blocks = match read_meta_blocks(&reader) {
        Ok(b) => b,
        Err(e) => {
            return Err(e);
        },
    };
    let pointers = match read_pointers(&blocks) {
        Ok(Some(p)) => p,
        Ok(None) => {
            return Ok(out);
        },
        Err(e) => {
            return Err(e);
        },
    };
    let n = pointers.len() / 8;
    let mut k: usize = 0;
    while k < n
        invariant
            k <= n == pointers@.len() / 8,
            out@ == ytyp_upto(crate::meta_block::blocks_view(blocks@), pointers@, k as nat),
        decreases n - k,
    {
        assert(8 * k + 8 <= pointers.len());
        add_pointer(&mut out, &blocks, u64_le(pointers.as_slice(), 8 * k));
        k += 1;
    }
    Ok(out)
}

/// Parses every archetype (with bounding box) and every MLO definition
/// (with its entities and rooms) out of a `.ytyp`.
pub fn parse_ytyp(data: &[u8]) -> (r: Result<Ytyp, MetaError>)
    ensures
        exists|sections: Result<(Seq<u8>, Seq<u8>), ResourceError>|
            #[trigger] crate::resource::unpacks_to(data@, sections) && (match r {
                Ok(y) => Ok::<YtypView, MetaError>(y@),
                Err(e) => Err(e),
            }) == (match sections {
                Ok((system, graphics)) => parsed(system, graphics),
                Err(e) => Err(MetaError::Resource(e)),
            }),
{
    let prepared = prepare_rsc7(data);
    let ghost sections = crate::resource::sections_view(prepared);
    assert(crate::resource::unpacks_to(data@, sections));
    match prepared {
        Ok((system, graphics)) => read_sections(system.as_slice(), graphics.as_slice()),
        Err(e) => Err(MetaError::Resource(e)),
    }
}

} // verus!
