//! Map placements (`.ymap`, RSC7 "Meta" format): the entities a map chunk
//! places (archetype, position, rotation, scale). This reads just the
//! `CMapData.entities` list, which is what's needed to put an MLO's
//! interior-local data (collision, rooms) into world space.
//!
//! Layout from CodeWalker.Core `MetaTypes.cs` (`CMapData`, `CEntityDef`,
//! `CMloInstanceDef`).

use vstd::prelude::*;
use vstd::string::*;

use crate::math::{Vec3, Vec4};
use crate::meta_block::{list_pointers, read_meta_blocks, resolve_target, Listed, MetaBlock, MetaError};
use crate::meta_block::{BlockView, PointerList};
use crate::resource::{
    f32_le, prepare_rsc7, u32_le, u64_le, vec3_le, vec4_le, ResReader, ResourceError,
};

verus! {

broadcast use {vstd::slice::group_slice_axioms, crate::bytes::group_subrange_reads};

/// `MetaName` hashes (exact-case Jenkins of the structure name).
pub const HASH_CMAPDATA: u32 = 3_545_841_574;
pub const HASH_CENTITYDEF: u32 = 3_461_354_627;
pub const HASH_CMLOINSTANCEDEF: u32 = 164_374_718;

/// Where the entities stand in a `CMapData`.
pub const ENTITIES_OFFSET: usize = 96;

/// One placed entity.
#[derive(Debug, Clone, Copy, PartialEq, Eq, Structural)]
pub struct YmapEntity {
    /// Lowercase JOAAT of the archetype name.
    pub archetype_hash: u32,
    pub flags: u32,
    pub guid: u32,
    pub position: Vec3,
    /// Quaternion as stored: x, y, z, w.
    pub rotation: Vec4,
    /// The bits of a single.
    pub scale_xy: u32,
    /// The bits of a single.
    pub scale_z: u32,
    pub parent_index: i32,
    /// The bits of a single.
    pub lod_dist: u32,
    /// True for a `CMloInstanceDef` (an interior placement).
    pub is_mlo_instance: bool,
}

/// Why the entities of a map could not be read.
#[derive(Debug, Clone, Copy, PartialEq, Eq, Structural)]
pub enum YmapError {
    Resource(ResourceError),
    /// The file holds no blocks.
    Blocks(MetaError),
    /// The blocks hold no list of entities.
    List(MetaError),
}

impl YmapError {
    /// The error in words.
    pub fn message(&self) -> (r: String)
        ensures
            r@ == self.text(),
    {
        let mut out = String::new();
        match self {
            YmapError::Resource(e) => {
                out = e.message();
            },
            YmapError::Blocks(_) => {
                out.append("ymap");
            },
            YmapError::List(e) => {
                out = e.message();
            },
        }
        assert(out@ =~= self.text());
        out
    }

    /// The error in words.
    pub open spec fn text(&self) -> Seq<char> {
        match self {
            YmapError::Resource(e) => e.text(),
            YmapError::Blocks(_) => "ymap"@,
            YmapError::List(e) => e.text(),
        }
    }
}

/// The entity that a `CEntityDef` describes.
pub open spec fn entity_of(e: Seq<u8>, is_mlo_instance: bool) -> YmapEntity {
    YmapEntity {
        archetype_hash: crate::bytes::le32(e, 8),
        flags: crate::bytes::le32(e, 12),
        guid: crate::bytes::le32(e, 16),
        position: crate::resource::vec3_at(e, 32),
        rotation: crate::resource::vec4_at(e, 48),
        scale_xy: crate::bytes::le32(e, 64),
        scale_z: crate::bytes::le32(e, 68),
        parent_index: crate::bytes::le32(e, 72) as i32,
        lod_dist: crate::bytes::le32(e, 76),
        is_mlo_instance,
    }
}

/// The entity that a packed pointer leads to, if it leads to one.
pub open spec fn placed_at(blocks: Seq<BlockView>, raw: u64) -> Option<YmapEntity> {
    match crate::meta_block::target(blocks, raw, 128) {
        Some((name, e)) => if name == HASH_CENTITYDEF {
            Some(entity_of(e, false))
        } else if name == HASH_CMLOINSTANCEDEF {
            Some(entity_of(e, true))
        } else {
            None
        },
        None => None,
    }
}

/// The entities that the first `k` of some pointers lead to.
pub open spec fn placed_upto(blocks: Seq<BlockView>, pointers: Seq<u8>, k: nat) -> Seq<YmapEntity>
    decreases k,
{
    if k == 0 {
        Seq::empty()
    } else {
        let before = placed_upto(blocks, pointers, (k - 1) as nat);
        match placed_at(blocks, crate::bytes::le64(pointers, 8 * (k - 1))) {
            Some(e) => before.push(e),
            None => before,
        }
    }
}

/// The entities of a map, given the sections of its file.
pub open spec fn parsed(system: Seq<u8>, graphics: Seq<u8>) -> Result<Seq<YmapEntity>, YmapError> {
    match crate::meta_block::blocks_of(system, graphics) {
        Err(e) => Err(YmapError::Blocks(e)),
        Ok(blocks) => match crate::meta_block::listed(blocks, HASH_CMAPDATA, ENTITIES_OFFSET as int) {
            PointerList::NoRoot => Err(YmapError::List(MetaError::NoMapData)),
            PointerList::RootSmall => Err(YmapError::List(MetaError::MapDataSmall)),
            PointerList::Empty => Ok(Seq::empty()),
            PointerList::NoBlock => Err(YmapError::List(MetaError::EntitiesBlock)),
            PointerList::Bounds => Err(YmapError::List(MetaError::EntitiesArray)),
            PointerList::Pointers(p) => Ok(placed_upto(blocks, p, (p.len() / 8) as nat)),
        },
    }
}

/// What a file says, given the two sections that it unpacks to.
pub open spec fn read_file(sections: Result<(Seq<u8>, Seq<u8>), ResourceError>) -> Result<
    Seq<YmapEntity>,
    YmapError,
> {
    match sections {
        Ok((system, graphics)) => parsed(system, graphics),
        Err(e) => Err(YmapError::Resource(e)),
    }
}

/// The outcome of reading a map, as a model.
pub open spec fn viewed(r: Result<Vec<YmapEntity>, YmapError>) -> Result<
    Seq<YmapEntity>,
    YmapError,
> {
    match r {
        Ok(v) => Ok(v@),
        Err(e) => Err(e),
    }
}

/// Decodes a `CEntityDef` (the first 128 bytes of a `CMloInstanceDef` too).
pub(crate) fn read_entity(e: &[u8], is_mlo_instance: bool) -> (r: YmapEntity)
    requires
        e@.len() >= 128,
    ensures
        r == entity_of(e@, is_mlo_instance),
{
    YmapEntity {
        archetype_hash: u32_le(e, 8),
        flags: u32_le(e, 12),
        guid: u32_le(e, 16),
        position: vec3_le(e, 32),
        rotation: vec4_le(e, 48),
        scale_xy: f32_le(e, 64),
        scale_z: f32_le(e, 68),
        parent_index: u32_le(e, 72) as i32,
        lod_dist: f32_le(e, 76),
        is_mlo_instance,
    }
}

fn read_placed(blocks: &Vec<MetaBlock>, pointers: &[u8]) -> (out: Vec<YmapEntity>)
    requires
        pointers@.len() % 8 == 0,
    ensures
        out@ == placed_upto(crate::meta_block::blocks_view(blocks@), pointers@, (pointers@.len() / 8) as nat),
{
    let mut out: Vec<YmapEntity> = Vec::new();
    let n = pointers.len() / 8;
    let mut k: usize = 0;
    while k < n
        invariant
            k <= n == pointers@.len() / 8,
            out@ == placed_upto(crate::meta_block::blocks_view(blocks@), pointers@, k as nat),
        decreases n - k,
    {
        assert(8 * k + 8 <= pointers.len());
        match resolve_target(blocks, u64_le(pointers, 8 * k), 128) {
            Some((name, e)) => {
                if name == HASH_CENTITYDEF {
                    out.push(read_entity(e, false));
                } else if name == HASH_CMLOINSTANCEDEF {
                    out.push(read_entity(e, true));
                }
            },
            None => {},
        }
        k += 1;
    }
    out
}

/// The entities of a map, from the two sections of its file.
pub fn read_sections(system: &[u8], graphics: &[u8]) -> (r: Result<Vec<YmapEntity>, YmapError>)
    ensures
        viewed(r) == parsed(system@, graphics@),
{
    let reader = ResReader { system, graphics };
    let blocks = match read_meta_blocks(&reader) {
        Ok(b) => b,
        Err(e) => {
            return Err(YmapError::Blocks(e));
        },
    };
    match list_pointers(&blocks, HASH_CMAPDATA, ENTITIES_OFFSET) {
        Listed::NoRoot => Err(YmapError::List(MetaError::NoMapData)),
        Listed::RootSmall => Err(YmapError::List(MetaError::MapDataSmall)),
        Listed::Empty => Ok(Vec::new()),
        Listed::NoBlock => Err(YmapError::List(MetaError::EntitiesBlock)),
        Listed::Bounds => Err(YmapError::List(MetaError::EntitiesArray)),
        Listed::Pointers(p) => Ok(read_placed(&blocks, p)),
    }
}

/// Parses the entity list of a `.ymap`.
pub fn parse_ymap_entities(data: &[u8]) -> (r: Result<Vec<YmapEntity>, YmapError>)
    ensures
        exists|sections: Result<(Seq<u8>, Seq<u8>), ResourceError>|
            #[trigger] crate::resource::unpacks_to(data@, sections) && viewed(r) == read_file(
                sections,
            ),
{
    let prepared = prepare_rsc7(data);
    let ghost sections = crate::resource::sections_view(prepared);
    assert(crate::resource::unpacks_to(data@, sections));
    match prepared {
        Ok((system, graphics)) => read_sections(system.as_slice(), graphics.as_slice()),
        Err(e) => Err(YmapError::Resource(e)),
    }
}

} // verus!
