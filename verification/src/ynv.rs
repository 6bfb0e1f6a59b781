//! Navmeshes (`.ynv`): a map cell's navmesh is a list of convex polygons over
//! quantised vertices, each polygon edge naming the neighbour it joins (in
//! this cell or an adjacent one), plus portals (climb/drop links), points and
//! a quadtree of sectors the game uses to look polygons up by position.
//!
//! Positions are held as the file holds them: three numbers of sixteen bits
//! each that say where in the cell's box a position lies.

use vstd::prelude::*;
use vstd::slice::*;
use vstd::string::*;

use crate::math::Vec3;
use crate::resource::{
    prepare_rsc7, u16_le, u32_le, u64_le, vec3_le, ResReader, ResourceError, SYSTEM_BASE,
};
use crate::text::push_decimal;

verus! {

broadcast use {vstd::slice::group_slice_axioms, crate::bytes::group_subrange_reads};

/// "No neighbour" on an edge: the 14-bit all-ones area/poly id.
pub const ADJACENT_NONE: u32 = 0x3FFF;

/// `NavMeshFlags` content bits.
pub const CONTENT_POLYGONS: u32 = 1;
pub const CONTENT_PORTALS: u32 = 2;
pub const CONTENT_VEHICLE: u32 = 4;

/// The `NavMesh` root vtable in retail GTA V files.
pub const NAVMESH_VFT: u32 = 0x4061_E7E8;

pub const POLY_SIZE: usize = 48;
pub const EDGE_SIZE: usize = 8;
pub const VERTEX_SIZE: usize = 6;
pub const INDEX_SIZE: usize = 2;
pub const PORTAL_SIZE: usize = 28;
pub const POINT_SIZE: usize = 8;
pub const NAVMESH_SIZE: usize = 368;
pub const LIST_SIZE: usize = 48;
pub const LIST_PART_SIZE: usize = 16;
pub const SECTOR_SIZE: usize = 96;
pub const SECTOR_DATA_SIZE: usize = 32;

/// The most sectors a tree is read through.
pub const MAX_SECTORS: usize = 4096;

/// Where in a cell's box a position lies, along each axis.
#[derive(Debug, Clone, Copy, PartialEq, Eq, Structural)]
pub struct NavVertex {
    pub x: u16,
    pub y: u16,
    pub z: u16,
}

/// One side of an edge record: which polygon lies across this edge.
#[derive(Debug, Clone, Copy, PartialEq, Eq, Structural)]
pub struct NavEdgeEnd {
    /// Area id of the neighbour's cell, or [`ADJACENT_NONE`].
    pub area_id: u32,
    /// Polygon index inside that cell, or [`ADJACENT_NONE`].
    pub poly: u32,
    pub unk2: u8,
    pub unk3: u16,
}

/// The side of an edge with nothing across it.
pub open spec fn no_end() -> NavEdgeEnd {
    NavEdgeEnd { area_id: ADJACENT_NONE, poly: ADJACENT_NONE, unk2: 0, unk3: 0 }
}

impl NavEdgeEnd {
    /// The side of an edge with nothing across it.
    pub fn none() -> (r: Self)
        ensures
            r == no_end(),
    {
        NavEdgeEnd { area_id: ADJACENT_NONE, poly: ADJACENT_NONE, unk2: 0, unk3: 0 }
    }

    /// The side of an edge with a polygon across it.
    pub fn neighbour(area_id: u32, poly: u32) -> (r: Self)
        ensures
            r == (NavEdgeEnd { area_id, poly, unk2: 0, unk3: 0 }),
    {
        NavEdgeEnd { area_id, poly, unk2: 0, unk3: 0 }
    }

    /// Whether nothing lies across.
    pub open spec fn joins_nothing(self) -> bool {
        self.poly == ADJACENT_NONE
    }

    /// Whether nothing lies across.
    pub fn is_none(&self) -> (r: bool)
        ensures
            r == (self.poly == ADJACENT_NONE),
            r == self.joins_nothing(),
    {
        self.poly == ADJACENT_NONE
    }
}

/// The edge leaving vertex `i` of a polygon (towards vertex `i+1`). Retail
/// files carry the same neighbour in both halves.
#[derive(Debug, Clone, Copy, PartialEq, Eq, Structural)]
pub struct NavEdge {
    pub a: NavEdgeEnd,
    pub b: NavEdgeEnd,
}

/// The edge with nothing across it.
pub open spec fn no_edge() -> NavEdge {
    NavEdge { a: no_end(), b: no_end() }
}

impl NavEdge {
    /// The edge with nothing across it.
    pub fn none() -> (r: Self)
        ensures
            r == no_edge(),
    {
        NavEdge { a: NavEdgeEnd::none(), b: NavEdgeEnd::none() }
    }

    /// The edge with the same polygon across it on both sides.
    pub fn neighbour(area_id: u32, poly: u32) -> (r: Self)
        ensures
            r.a == r.b,
            r.a == (NavEdgeEnd { area_id, poly, unk2: 0, unk3: 0 }),
    {
        let end = NavEdgeEnd::neighbour(area_id, poly);
        NavEdge { a: end, b: end }
    }
}

/// A navmesh polygon: its vertices, one edge record per vertex, and the three
/// raw flag words (accessors below name the known bits).
#[derive(Debug, PartialEq, Eq)]
pub struct NavPoly {
    pub vertices: Vec<NavVertex>,
    pub edges: Vec<NavEdge>,
    /// `PolyFlags0` (16 bits): avoid/footpath/underground/steep/water bits.
    pub flags0: u16,
    /// `PolyFlags1`: underground, path node, interior (bit 6), flat ground
    /// (bit 9), road, cell edge, train track, shallow water, footpath bits.
    pub flags1: u32,
    /// `PolyFlags2`: two bytes CodeWalker calls UnkX/UnkY, then slope
    /// direction bits from bit 16.
    pub flags2: u32,
    /// Indices into the file's portal-link table, one per portal this
    /// polygon touches.
    pub portal_links: Vec<u16>,
}

/// The model of a [`NavPoly`].
#[verifier::ext_equal]
pub struct PolyView {
    pub vertices: Seq<NavVertex>,
    pub edges: Seq<NavEdge>,
    pub flags0: u16,
    pub flags1: u32,
    pub flags2: u32,
    pub portal_links: Seq<u16>,
}

impl View for NavPoly {
    type V = PolyView;

    open spec fn view(&self) -> PolyView {
        PolyView {
            vertices: self.vertices@,
            edges: self.edges@,
            flags0: self.flags0,
            flags1: self.flags1,
            flags2: self.flags2,
            portal_links: self.portal_links@,
        }
    }
}

/// Whether bit `weight`, a power of two, is set in a word.
pub open spec fn has_bit(word: int, weight: int) -> bool {
    word / weight % 2 == 1
}

/// A word with bit `weight`, a power of two, set or cleared.
pub open spec fn with_bit(word: u32, weight: u32, on: bool) -> u32 {
    if has_bit(word as int, weight as int) == on {
        word
    } else if on {
        (word + weight) as u32
    } else {
        (word - weight) as u32
    }
}

fn set_bit(word: u32, weight: u32, on: bool) -> (r: u32)
    requires
        weight == 64 || weight == 512,
    ensures
        r == with_bit(word, weight, on),
        has_bit(r as int, weight as int) == on,
        forall|w: u32|
            (w == 64 || w == 512 || w == 1024 || w == 2048) && w != weight ==> #[trigger] has_bit(
                r as int,
                w as int,
            ) == has_bit(word as int, w as int),
{
    if weight == 64 {
        assert(word / 64 % 2 == 0 ==> word + 64 <= 0xFFFF_FFFF && (word + 64) as u32 / 64 % 2 == 1
            && (word + 64) as u32 / 512 % 2 == word / 512 % 2 && (word + 64) as u32 / 1024 % 2
            == word / 1024 % 2 && (word + 64) as u32 / 2048 % 2 == word / 2048 % 2)
            by (bit_vector);
        assert(word / 64 % 2 == 1 ==> word >= 64 && (word - 64) as u32 / 64 % 2 == 0 && (word
            - 64) as u32 / 512 % 2 == word / 512 % 2 && (word - 64) as u32 / 1024 % 2 == word
            / 1024 % 2 && (word - 64) as u32 / 2048 % 2 == word / 2048 % 2) by (bit_vector);
    } else {
        assert(word / 512 % 2 == 0 ==> word + 512 <= 0xFFFF_FFFF && (word + 512) as u32 / 512 % 2
            == 1 && (word + 512) as u32 / 64 % 2 == word / 64 % 2 && (word + 512) as u32 / 1024 % 2
            == word / 1024 % 2 && (word + 512) as u32 / 2048 % 2 == word / 2048 % 2)
            by (bit_vector);
        assert(word / 512 % 2 == 1 ==> word >= 512 && (word - 512) as u32 / 512 % 2 == 0 && (word
            - 512) as u32 / 64 % 2 == word / 64 % 2 && (word - 512) as u32 / 1024 % 2 == word
            / 1024 % 2 && (word - 512) as u32 / 2048 % 2 == word / 2048 % 2) by (bit_vector);
    }
    let have = word / weight % 2 == 1;
    if have == on {
        word
    } else if on {
        word + weight
    } else {
        word - weight
    }
}

impl PolyView {
    /// Whether the polygon lies inside a building.
    pub open spec fn interior(self) -> bool {
        has_bit(self.flags1 as int, 64)
    }

    /// Whether the polygon is level.
    pub open spec fn flat_ground(self) -> bool {
        has_bit(self.flags1 as int, 512)
    }

    /// Whether the polygon is part of a road.
    pub open spec fn road(self) -> bool {
        has_bit(self.flags1 as int, 1024)
    }

    /// Whether the polygon touches the edge of its cell.
    pub open spec fn cell_edge(self) -> bool {
        has_bit(self.flags1 as int, 2048)
    }

    /// Whether the polygon is part of a footpath.
    pub open spec fn footpath(self) -> bool {
        has_bit(self.flags0 as int, 4)
    }

    /// Whether the polygon is water.
    pub open spec fn water(self) -> bool {
        has_bit(self.flags0 as int, 128)
    }

    /// Whether the polygon is steep.
    pub open spec fn steep(self) -> bool {
        has_bit(self.flags0 as int, 64)
    }
}

impl NavPoly {
    /// A polygon with these vertices, no neighbour and no flag.
    pub fn new(vertices: Vec<NavVertex>) -> (r: Self)
        ensures
            r@ == (PolyView {
                vertices: vertices@,
                edges: Seq::new(vertices@.len(), |i: int| no_edge()),
                flags0: 0,
                flags1: 0,
                flags2: 0,
                portal_links: Seq::empty(),
            }),
    {
        let mut edges: Vec<NavEdge> = Vec::new();
        let mut i: usize = 0;
        while i < vertices.len()
            invariant
                i <= vertices@.len(),
                edges@ == Seq::new(i as nat, |i: int| no_edge()),
            decreases vertices@.len() - i,
        {
            edges.push(NavEdge::none());
            i += 1;
            assert(edges@ =~= Seq::new(i as nat, |i: int| no_edge()));
        }
        NavPoly {
            vertices,
            edges,
            flags0: 0,
            flags1: 0,
            flags2: 0,
            portal_links: Vec::new(),
        }
    }

    /// Whether the polygon lies inside a building.
    pub fn is_interior(&self) -> (r: bool)
        ensures
            r == has_bit(self.flags1 as int, 64),
            r == self@.interior(),
    {
        self.flags1 / 64 % 2 == 1
    }

    /// Says whether the polygon lies inside a building.
    pub fn set_interior(&mut self, on: bool)
        ensures
            final(self)@ == (PolyView { flags1: with_bit(old(self).flags1, 64, on), ..old(self)@ }),
            has_bit(final(self).flags1 as int, 64) == on,
            final(self)@.interior() == on,
    {
        self.flags1 = set_bit(self.flags1, 64, on);
    }

    /// Whether the polygon is level.
    pub fn is_flat_ground(&self) -> (r: bool)
        ensures
            r == has_bit(self.flags1 as int, 512),
            r == self@.flat_ground(),
    {
        self.flags1 / 512 % 2 == 1
    }

    /// Says whether the polygon is level.
    pub fn set_flat_ground(&mut self, on: bool)
        ensures
            final(self)@ == (PolyView { flags1: with_bit(old(self).flags1, 512, on), ..old(self)@ }),
            has_bit(final(self).flags1 as int, 512) == on,
            final(self)@.flat_ground() == on,
    {
        self.flags1 = set_bit(self.flags1, 512, on);
    }

    /// Whether the polygon is part of a road.
    pub fn is_road(&self) -> (r: bool)
        ensures
            r == has_bit(self.flags1 as int, 1024),
            r == self@.road(),
    {
        self.flags1 / 1024 % 2 == 1
    }

    /// Whether the polygon touches the edge of its cell.
    pub fn is_cell_edge(&self) -> (r: bool)
        ensures
            r == has_bit(self.flags1 as int, 2048),
            r == self@.cell_edge(),
    {
        self.flags1 / 2048 % 2 == 1
    }

    /// Whether the polygon is part of a footpath.
    pub fn is_footpath(&self) -> (r: bool)
        ensures
            r == has_bit(self.flags0 as int, 4),
            r == self@.footpath(),
    {
        self.flags0 / 4 % 2 == 1
    }

    /// Whether the polygon is water.
    pub fn is_water(&self) -> (r: bool)
        ensures
            r == has_bit(self.flags0 as int, 128),
            r == self@.water(),
    {
        self.flags0 / 128 % 2 == 1
    }

    /// Whether the polygon is steep.
    pub fn is_steep(&self) -> (r: bool)
        ensures
            r == has_bit(self.flags0 as int, 64),
            r == self@.steep(),
    {
        self.flags0 / 64 % 2 == 1
    }
}

/// A climb/drop/jump link between two polygons.
#[derive(Debug, Clone, Copy, PartialEq, Eq, Structural)]
pub struct NavPortal {
    pub kind: u8,
    pub angle: u8,
    pub flags_unk: u16,
    pub from: NavVertex,
    pub to: NavVertex,
    pub poly_from: u16,
    pub poly_to: u16,
    pub area_from: u16,
    pub area_to: u16,
    pub area_unk: u8,
}

/// A point of interest stored in the sector tree.
#[derive(Debug, Clone, Copy, PartialEq, Eq, Structural)]
pub struct NavPoint {
    pub position: NavVertex,
    pub angle: u8,
    pub kind: u8,
}

/// A navmesh file.
#[derive(Debug, PartialEq, Eq)]
pub struct Ynv {
    pub content_flags: u32,
    /// Grid cell index (`y * 100 + x`), or 10000 for a standalone (vehicle) mesh.
    pub area_id: u32,
    /// Sector-tree root box; vertices are quantised inside it.
    pub bb_min: Vec3,
    pub bb_max: Vec3,
    /// `AABBSize`: the quantisation extent (normally `bb_max - bb_min`).
    pub bb_size: Vec3,
    /// `VersionUnk2`: 0x85CB3561 for grid cells, 0 for vehicles.
    pub version_unk2: u32,
    /// The root block's vtable value; kept so a rewritten file matches.
    pub vft: u32,
    pub polys: Vec<NavPoly>,
    pub portals: Vec<NavPortal>,
    pub points: Vec<NavPoint>,
}

/// The model of a [`Ynv`].
#[verifier::ext_equal]
pub struct YnvView {
    pub content_flags: u32,
    pub area_id: u32,
    pub bb_min: Vec3,
    pub bb_max: Vec3,
    pub bb_size: Vec3,
    pub version_unk2: u32,
    pub vft: u32,
    pub polys: Seq<PolyView>,
    pub portals: Seq<NavPortal>,
    pub points: Seq<NavPoint>,
}

/// The polygons of a file.
pub open spec fn polys_view(polys: Seq<NavPoly>) -> Seq<PolyView> {
    Seq::new(polys.len(), |i: int| polys[i]@)
}

impl View for Ynv {
    type V = YnvView;

    open spec fn view(&self) -> YnvView {
        YnvView {
            content_flags: self.content_flags,
            area_id: self.area_id,
            bb_min: self.bb_min,
            bb_max: self.bb_max,
            bb_size: self.bb_size,
            version_unk2: self.version_unk2,
            vft: self.vft,
            polys: polys_view(self.polys@),
            portals: self.portals@,
            points: self.points@,
        }
    }
}

impl YnvView {
    /// Whether the mesh moves with a vehicle.
    pub open spec fn vehicle(self) -> bool {
        has_bit(self.content_flags as int, 4)
    }
}

/// The cell with an index, none from ten thousand on.
pub open spec fn cell_of(area_id: u32) -> Option<(u32, u32)> {
    if area_id >= 10000 {
        None
    } else {
        Some(((area_id % 100) as u32, (area_id / 100) as u32))
    }
}

impl Ynv {
    /// An empty grid-cell navmesh for `area_id` covering `bb_min..bb_max`,
    /// which is `bb_size` large.
    pub fn new_cell(area_id: u32, bb_min: Vec3, bb_max: Vec3, bb_size: Vec3) -> (r: Self)
        ensures
            r@ == (YnvView {
                content_flags: CONTENT_POLYGONS,
                area_id,
                bb_min,
                bb_max,
                bb_size,
                version_unk2: 0x85CB_3561,
                vft: NAVMESH_VFT,
                polys: Seq::empty(),
                portals: Seq::empty(),
                points: Seq::empty(),
            }),
    {
        let r = Ynv {
            content_flags: CONTENT_POLYGONS,
            area_id,
            bb_min,
            bb_max,
            bb_size,
            version_unk2: 0x85CB_3561,
            vft: NAVMESH_VFT,
            polys: Vec::new(),
            portals: Vec::new(),
            points: Vec::new(),
        };
        assert(r@.polys =~= Seq::empty());
        r
    }

    /// Whether the mesh moves with a vehicle.
    pub fn is_vehicle(&self) -> (r: bool)
        ensures
            r == has_bit(self.content_flags as int, 4),
            r == self@.vehicle(),
    {
        self.content_flags / 4 % 2 == 1
    }

    /// Grid cell coordinates for a map cell (`None` for standalone meshes).
    pub fn cell(&self) -> (r: Option<(u32, u32)>)
        ensures
            r == (if self.area_id >= 10000 {
                None
            } else {
                Some(((self.area_id % 100) as u32, (self.area_id / 100) as u32))
            }),
            r == cell_of(self.area_id),
    {
        if self.area_id >= 10000 {
            None
        } else {
            Some((self.area_id % 100, self.area_id / 100))
        }
    }
}

/// `navmesh[X][Y].ynv` for a cell. File names use the cell index times three.
pub fn cell_file_name(cx: u32, cy: u32) -> (r: String)
    requires
        cx <= 0x5555_5555,
        cy <= 0x5555_5555,
    ensures
        r@ == "navmesh["@ + crate::text::decimal((3 * cx) as nat) + "]["@ + crate::text::decimal((3 * cy) as nat) + "].ynv"@,
{
    let mut out = String::new();
    out.append("navmesh[");
    push_decimal(&mut out, 3 * cx as u64);
    out.append("][");
    push_decimal(&mut out, 3 * cy as u64);
    out.append("].ynv");
    assert(out@ =~= "navmesh["@ + crate::text::decimal((3 * cx) as nat) + "]["@ + crate::text::decimal((3 * cy) as nat)
        + "].ynv"@);
    out
}

/// One of the four lists of a navmesh.
#[derive(Debug, Clone, Copy, PartialEq, Eq, Structural)]
pub enum NavList {
    Vertices,
    Indices,
    Edges,
    Polys,
}

impl NavList {
    /// What the list holds.
    pub fn message(&self) -> (r: String)
        ensures
            r@ == self.text(),
    {
        let mut out = String::new();
        match self {
            NavList::Vertices => {
                out.append("vertices");
            },
            NavList::Indices => {
                out.append("indices");
            },
            NavList::Edges => {
                out.append("edges");
            },
            NavList::Polys => {
                out.append("polys");
            },
        }
        assert(out@ =~= self.text());
        out
    }

    /// What the list holds.
    pub open spec fn text(&self) -> Seq<char> {
        match self {
            NavList::Vertices => "vertices"@,
            NavList::Indices => "indices"@,
            NavList::Edges => "edges"@,
            NavList::Polys => "polys"@,
        }
    }
}

/// What is wrong with a list.
#[derive(Debug, Clone, Copy, PartialEq, Eq, Structural)]
pub enum ListFault {
    /// The header lies outside the file.
    NoHeader,
    /// The table of parts lies outside the file.
    NoParts,
    /// The items of a part lie outside the file.
    NoItems,
    /// The parts hold another number of bytes than the header says.
    Length { items: u32, bytes: usize },
}

/// Why a navmesh could not be read or written.
#[derive(Debug, Clone, Copy, PartialEq, Eq, Structural)]
pub enum YnvError {
    Resource(ResourceError),
    NoHeader,
    NoSectorTree,
    NoSectorRoot,
    NoSector,
    NoSectorData,
    NoSectorPoints,
    TooManySectors,
    List { list: NavList, fault: ListFault },
    NoPortals,
    PolyRange { poly: usize, start: usize, count: usize },
    VertexRange { poly: usize, vertex: u16 },
    TooManyPolys(usize),
    PolyVertices { poly: usize, count: usize },
    TooManyIndices,
    TooManyVertices,
    TooManyAreas,
    TooManyLinks(usize),
    BlockTooLarge(usize),
}

impl YnvError {
    /// The error in words.
    pub fn message(&self) -> (r: String)
        ensures
            r@ == self.text(),
    {
        let mut out = String::new();
        match self {
            YnvError::Resource(e) => {
                let inner = e.message();
                out.append(inner.as_str());
            },
            YnvError::NoHeader => {
                out.append("NavMesh header");
            },
            YnvError::NoSectorTree => {
                out.append("navmesh has no sector tree");
            },
            YnvError::NoSectorRoot => {
                out.append("sector root");
            },
            YnvError::NoSector => {
                out.append("sector");
            },
            YnvError::NoSectorData => {
                out.append("sector data");
            },
            YnvError::NoSectorPoints => {
                out.append("sector points");
            },
            YnvError::TooManySectors => {
                out.append("sector tree too large or cyclic");
            },
            YnvError::List { list, fault: _ } => {
                let inner = list.message();
                out.append(inner.as_str());
            },
            YnvError::NoPortals => {
                out.append("portals");
            },
            YnvError::PolyRange { poly, start, count } => {
                out.append("polygon ");
                push_decimal(&mut out, *poly as u64);
                out.append(" indexes past the index/edge lists (");
                push_decimal(&mut out, *start as u64);
                out.append("+");
                push_decimal(&mut out, *count as u64);
                out.append(")");
            },
            YnvError::VertexRange { poly, vertex } => {
                out.append("polygon ");
                push_decimal(&mut out, *poly as u64);
                out.append(": vertex ");
                push_decimal(&mut out, *vertex as u64);
                out.append(" out of range");
            },
            YnvError::TooManyPolys(n) => {
                push_decimal(&mut out, *n as u64);
                out.append(" polygons; a cell holds at most 16383");
            },
            YnvError::PolyVertices { poly, count } => {
                out.append("polygon ");
                push_decimal(&mut out, *poly as u64);
                out.append(" has ");
                push_decimal(&mut out, *count as u64);
                out.append(" vertices");
            },
            YnvError::TooManyIndices => {
                out.append("more than 65535 polygon vertices in one cell");
            },
            YnvError::TooManyVertices => {
                out.append("more than 65536 distinct vertices");
            },
            YnvError::TooManyAreas => {
                out.append("more than 32 distinct adjacent areas");
            },
            YnvError::TooManyLinks(poly) => {
                out.append("polygon ");
                push_decimal(&mut out, *poly as u64);
                out.append(" has more than 7 portal links");
            },
            YnvError::BlockTooLarge(size) => {
                out.append("block of ");
                push_decimal(&mut out, *size as u64);
                out.append(" bytes exceeds the 16384-byte page");
            },
        }
        assert(out@ =~= self.text());
        out
    }

    /// The error in words.
    pub open spec fn text(&self) -> Seq<char> {
        match self {
            YnvError::Resource(e) => e.text(),
            YnvError::NoHeader => "NavMesh header"@,
            YnvError::NoSectorTree => "navmesh has no sector tree"@,
            YnvError::NoSectorRoot => "sector root"@,
            YnvError::NoSector => "sector"@,
            YnvError::NoSectorData => "sector data"@,
            YnvError::NoSectorPoints => "sector points"@,
            YnvError::TooManySectors => "sector tree too large or cyclic"@,
            YnvError::List { list, fault: _ } => list.text(),
            YnvError::NoPortals => "portals"@,
            YnvError::PolyRange { poly, start, count } => "polygon "@ + crate::text::decimal(*poly as nat) + " indexes past the index/edge lists ("@ + crate::text::decimal(*start as nat) + "+"@ + crate::text::decimal(*count as nat) + ")"@,
            YnvError::VertexRange { poly, vertex } => "polygon "@ + crate::text::decimal(*poly as nat) + ": vertex "@ + crate::text::decimal(*vertex as nat) + " out of range"@,
            YnvError::TooManyPolys(n) => crate::text::decimal(*n as nat) + " polygons; a cell holds at most 16383"@,
            YnvError::PolyVertices { poly, count } => "polygon "@ + crate::text::decimal(*poly as nat) + " has "@ + crate::text::decimal(*count as nat) + " vertices"@,
            YnvError::TooManyIndices => "more than 65535 polygon vertices in one cell"@,
            YnvError::TooManyVertices => "more than 65536 distinct vertices"@,
            YnvError::TooManyAreas => "more than 32 distinct adjacent areas"@,
            YnvError::TooManyLinks(poly) => "polygon "@ + crate::text::decimal(*poly as nat) + " has more than 7 portal links"@,
            YnvError::BlockTooLarge(size) => "block of "@ + crate::text::decimal(*size as nat) + " bytes exceeds the 16384-byte page"@,
        }
    }
}

// ─── what a file says ────────────────────────────────────────────────────────

/// The position at `i`.
pub open spec fn vertex_at(s: Seq<u8>, i: int) -> NavVertex {
    NavVertex { x: crate::bytes::le16(s, i), y: crate::bytes::le16(s, i + 2), z: crate::bytes::le16(s, i + 4) }
}

/// The positions of a list.
pub open spec fn vertex_list(s: Seq<u8>) -> Seq<NavVertex> {
    Seq::new((s.len() / 6) as nat, |i: int| vertex_at(s, 6 * i))
}

/// One side of an edge, by its word. An area that the table does not have is
/// none.
pub open spec fn end_of(raw: u32, areas: Seq<u32>, count: u32) -> NavEdgeEnd {
    NavEdgeEnd {
        area_id: if raw % 32 < count {
            areas[(raw % 32) as int]
        } else {
            ADJACENT_NONE
        },
        poly: (raw / 32 % 0x4000) as u32,
        unk2: (raw / 0x8_0000 % 4) as u8,
        unk3: (raw / 0x20_0000 % 0x800) as u16,
    }
}

/// The edges of a list.
pub open spec fn edge_list(s: Seq<u8>, areas: Seq<u32>, count: u32) -> Seq<NavEdge> {
    Seq::new(
        (s.len() / 8) as nat,
        |i: int|
            NavEdge {
                a: end_of(crate::bytes::le32(s, 8 * i), areas, count),
                b: end_of(crate::bytes::le32(s, 8 * i + 4), areas, count),
            },
    )
}

/// The portal at `i`.
pub open spec fn portal_at(s: Seq<u8>, i: int) -> NavPortal {
    let flags = crate::bytes::le32(s, i + 24);
    NavPortal {
        kind: s[i],
        angle: s[i + 1],
        flags_unk: crate::bytes::le16(s, i + 2),
        from: vertex_at(s, i + 4),
        to: vertex_at(s, i + 10),
        poly_from: crate::bytes::le16(s, i + 16),
        poly_to: crate::bytes::le16(s, i + 20),
        area_from: (flags % 0x4000) as u16,
        area_to: (flags / 0x4000 % 0x4000) as u16,
        area_unk: (flags / 0x1000_0000 % 16) as u8,
    }
}

/// The point at `i`.
pub open spec fn point_at(s: Seq<u8>, i: int) -> NavPoint {
    NavPoint { position: vertex_at(s, i), angle: s[i + 6], kind: s[i + 7] }
}

/// The items of the first `k` parts of a list, one after the other.
pub open spec fn part_items(
    system: Seq<u8>,
    graphics: Seq<u8>,
    parts: Seq<u8>,
    item: int,
    k: nat,
) -> Result<Seq<u8>, ListFault>
    decreases k,
{
    if k == 0 {
        Ok(Seq::empty())
    } else {
        match part_items(system, graphics, parts, item, (k - 1) as nat) {
            Err(e) => Err(e),
            Ok(before) => {
                let ptr = crate::bytes::le64(parts, 16 * (k - 1));
                let count = crate::bytes::le32(parts, 16 * (k - 1) + 8);
                if count == 0 {
                    Ok(before)
                } else {
                    match crate::resource::resolved(system, graphics, ptr, count * item) {
                        None => Err(ListFault::NoItems),
                        Some(b) => Ok(before + b),
                    }
                }
            },
        }
    }
}

/// The items of a list at an address, an empty one at none.
#[verifier::opaque]
pub open spec fn list_items(system: Seq<u8>, graphics: Seq<u8>, va: u64, item: int) -> Result<
    Seq<u8>,
    ListFault,
> {
    if va == 0 {
        Ok(Seq::empty())
    } else {
        match crate::resource::resolved(system, graphics, va, LIST_SIZE as int) {
            None => Err(ListFault::NoHeader),
            Some(h) => {
                let count = crate::bytes::le32(h, 0x08);
                let parts = crate::bytes::le32(h, 0x20);
                let all = if parts == 0 {
                    Ok(Seq::empty())
                } else {
                    match crate::resource::resolved(system, graphics, crate::bytes::le64(h, 0x10), parts * 16) {
                        None => Err(ListFault::NoParts),
                        Some(p) => part_items(system, graphics, p, item, parts as nat),
                    }
                };
                match all {
                    Err(e) => Err(e),
                    Ok(b) => if b.len() != count * item {
                        Err(ListFault::Length { items: count, bytes: b.len() as usize })
                    } else {
                        Ok(b)
                    },
                }
            },
        }
    }
}

/// The points of one sector.
pub open spec fn sector_points(system: Seq<u8>, graphics: Seq<u8>, data: u64) -> Result<
    Seq<NavPoint>,
    YnvError,
> {
    if data == 0 {
        Ok(Seq::empty())
    } else {
        match crate::resource::resolved(system, graphics, data, SECTOR_DATA_SIZE as int) {
            None => Err(YnvError::NoSectorData),
            Some(d) => {
                let count = crate::bytes::le16(d, 0x1A);
                if count == 0 {
                    Ok(Seq::empty())
                } else {
                    match crate::resource::resolved(system, graphics, crate::bytes::le64(d, 0x10), count * 8) {
                        None => Err(YnvError::NoSectorPoints),
                        Some(b) => Ok(Seq::new(count as nat, |i: int| point_at(b, 8 * i))),
                    }
                }
            },
        }
    }
}

/// The addresses of the first `k` parts of a sector, where there are any.
pub open spec fn subsectors(sector: Seq<u8>, k: nat) -> Seq<u64>
    decreases k,
{
    if k == 0 {
        Seq::empty()
    } else {
        let before = subsectors(sector, (k - 1) as nat);
        let sub = crate::bytes::le64(sector, 0x34 + 8 * (k - 1));
        if sub != 0 {
            before.push(sub)
        } else {
            before
        }
    }
}

/// The points of the sectors on a stack and of all below them, the last on
/// the stack first.
pub open spec fn tree_points(
    system: Seq<u8>,
    graphics: Seq<u8>,
    stack: Seq<u64>,
    visited: nat,
    points: Seq<NavPoint>,
) -> Result<Seq<NavPoint>, YnvError>
    decreases MAX_SECTORS - visited,
{
    if stack.len() == 0 {
        Ok(points)
    } else if visited >= MAX_SECTORS {
        Err(YnvError::TooManySectors)
    } else {
        match crate::resource::resolved(system, graphics, stack.last(), SECTOR_SIZE as int) {
            None => Err(YnvError::NoSector),
            Some(s) => match sector_points(system, graphics, crate::bytes::le64(s, 0x2C)) {
                Err(e) => Err(e),
                Ok(more) => tree_points(
                    system,
                    graphics,
                    stack.drop_last() + subsectors(s, 4),
                    visited + 1,
                    points + more,
                ),
            },
        }
    }
}

/// The box of the root sector and every point in the tree.
pub open spec fn sector_tree(system: Seq<u8>, graphics: Seq<u8>, root: u64) -> Result<
    (Vec3, Vec3, Seq<NavPoint>),
    YnvError,
> {
    if root == 0 {
        Err(YnvError::NoSectorTree)
    } else {
        match crate::resource::resolved(system, graphics, root, SECTOR_SIZE as int) {
            None => Err(YnvError::NoSectorRoot),
            Some(s) => match tree_points(system, graphics, seq![root], 0, Seq::empty()) {
                Err(e) => Err(e),
                Ok(points) => Ok((crate::resource::vec3_at(s, 0), crate::resource::vec3_at(s, 16), points)),
            },
        }
    }
}

/// The vertices that the first `k` of some indices name.
pub open spec fn named_vertices(
    poly: int,
    indices: Seq<u16>,
    start: int,
    vertices: Seq<NavVertex>,
    k: nat,
) -> Result<Seq<NavVertex>, YnvError>
    decreases k,
{
    if k == 0 {
        Ok(Seq::empty())
    } else {
        match named_vertices(poly, indices, start, vertices, (k - 1) as nat) {
            Err(e) => Err(e),
            Ok(before) => {
                let v = indices[start + k - 1];
                if v < vertices.len() {
                    Ok(before.push(vertices[v as int]))
                } else {
                    Err(YnvError::VertexRange { poly: poly as usize, vertex: v })
                }
            },
        }
    }
}

/// The lists that polygon records refer to.
pub struct Lists {
    pub vertices: Seq<NavVertex>,
    pub indices: Seq<u16>,
    pub edges: Seq<NavEdge>,
    pub links: Seq<u16>,
}

/// The portal links of a polygon, none where they lie outside the table.
pub open spec fn poly_links(links: Seq<u16>, flags: u32) -> Seq<u16> {
    let count = (flags / 0x1000 % 8) as int;
    let start = (flags / 0x8000 % 0x2_0000) as int;
    if start + count <= links.len() {
        links.subrange(start, start + count)
    } else {
        Seq::empty()
    }
}

/// The polygon whose record stands at `i`.
pub open spec fn poly_at(s: Seq<u8>, i: int, lists: Lists, poly: int) -> Result<PolyView, YnvError> {
    let count = (crate::bytes::le16(s, i + 2) / 32) as int;
    let start = crate::bytes::le16(s, i + 4) as int;
    if start + count > lists.indices.len() || start + count > lists.edges.len() {
        Err(
            YnvError::PolyRange {
                poly: poly as usize,
                start: start as usize,
                count: count as usize,
            },
        )
    } else {
        match named_vertices(poly, lists.indices, start, lists.vertices, count as nat) {
            Err(e) => Err(e),
            Ok(vertices) => Ok(
                PolyView {
                    vertices,
                    edges: lists.edges.subrange(start, start + count),
                    flags0: crate::bytes::le16(s, i),
                    flags1: crate::bytes::le32(s, i + 0x24),
                    flags2: crate::bytes::le32(s, i + 0x28),
                    portal_links: poly_links(lists.links, crate::bytes::le32(s, i + 0x2C)),
                },
            ),
        }
    }
}

/// The first `k` polygons.
pub open spec fn poly_list(s: Seq<u8>, lists: Lists, k: nat) -> Result<Seq<PolyView>, YnvError>
    decreases k,
{
    if k == 0 {
        Ok(Seq::empty())
    } else {
        match poly_list(s, lists, (k - 1) as nat) {
            Err(e) => Err(e),
            Ok(before) => match poly_at(s, 48 * (k - 1), lists, k - 1) {
                Err(e) => Err(e),
                Ok(p) => Ok(before.push(p)),
            },
        }
    }
}

/// The table of adjacent areas.
pub open spec fn area_table(h: Seq<u8>) -> Seq<u32> {
    Seq::new(32, |i: int| crate::bytes::le32(h, 0x98 + 4 * i))
}

/// The portal links of a file, none where they lie outside it.
pub open spec fn link_list(system: Seq<u8>, graphics: Seq<u8>, va: u64, count: u32) -> Seq<u16> {
    match crate::resource::resolved(system, graphics, va, count * 2) {
        Some(b) => crate::resource::le16_list(b, count as nat),
        None => Seq::empty(),
    }
}

/// The portals of a file.
pub open spec fn portal_list(system: Seq<u8>, graphics: Seq<u8>, va: u64, count: u32) -> Result<
    Seq<NavPortal>,
    YnvError,
> {
    if count == 0 {
        Ok(Seq::empty())
    } else {
        match crate::resource::resolved(system, graphics, va, count * 28) {
            None => Err(YnvError::NoPortals),
            Some(b) => Ok(Seq::new(count as nat, |i: int| portal_at(b, 28 * i))),
        }
    }
}

/// A list that has to be there.
pub open spec fn needed(list: NavList, r: Result<Seq<u8>, ListFault>) -> Result<Seq<u8>, YnvError> {
    match r {
        Ok(b) => Ok(b),
        Err(fault) => Err(YnvError::List { list, fault }),
    }
}

/// The four lists of a file, as bytes, in the order in which they are read.
pub open spec fn read_lists(system: Seq<u8>, graphics: Seq<u8>, h: Seq<u8>) -> Result<
    (Seq<u8>, Seq<u8>, Seq<u8>, Seq<u8>),
    YnvError,
> {
    match needed(NavList::Vertices, list_items(system, graphics, crate::bytes::le64(h, 0x70), 6)) {
        Err(e) => Err(e),
        Ok(v) => match needed(NavList::Indices, list_items(system, graphics, crate::bytes::le64(h, 0x80), 2)) {
            Err(e) => Err(e),
            Ok(i) => match needed(NavList::Edges, list_items(system, graphics, crate::bytes::le64(h, 0x88), 8)) {
                Err(e) => Err(e),
                Ok(d) => match needed(
                    NavList::Polys,
                    list_items(system, graphics, crate::bytes::le64(h, 0x118), 48),
                ) {
                    Err(e) => Err(e),
                    Ok(p) => Ok((v, i, d, p)),
                },
            },
        },
    }
}

/// The navmesh that two sections hold.
pub open spec fn parsed(system: Seq<u8>, graphics: Seq<u8>) -> Result<YnvView, YnvError> {
    match crate::resource::resolved(system, graphics, SYSTEM_BASE, NAVMESH_SIZE as int) {
        None => Err(YnvError::NoHeader),
        Some(h) => match sector_tree(system, graphics, crate::bytes::le64(h, 0x120)) {
            Err(e) => Err(e),
            Ok((bb_min, bb_max, points)) => match read_lists(system, graphics, h) {
                Err(e) => Err(e),
                Ok((v, i, d, p)) => {
                    let lists = Lists {
                        vertices: vertex_list(v),
                        indices: crate::resource::le16_list(i, (i.len() / 2) as nat),
                        edges: edge_list(d, area_table(h), crate::bytes::le32(h, 0x94)),
                        links: link_list(system, graphics, crate::bytes::le64(h, 0x130), crate::bytes::le32(h, 0x150)),
                    };
                    match poly_list(p, lists, (p.len() / 48) as nat) {
                        Err(e) => Err(e),
                        Ok(polys) => match portal_list(
                            system,
                            graphics,
                            crate::bytes::le64(h, 0x128),
                            crate::bytes::le32(h, 0x14C),
                        ) {
                            Err(e) => Err(e),
                            Ok(portals) => Ok(
                                YnvView {
                                    content_flags: crate::bytes::le32(h, 0x10),
                                    area_id: crate::bytes::le32(h, 0x140),
                                    bb_min,
                                    bb_max,
                                    bb_size: crate::resource::vec3_at(h, 0x60),
                                    version_unk2: crate::bytes::le32(h, 0x160),
                                    vft: crate::bytes::le32(h, 0),
                                    polys,
                                    portals,
                                    points,
                                },
                            ),
                        },
                    }
                },
            },
        },
    }
}

/// The outcome of reading a file, as a model.
pub open spec fn viewed(r: Result<Ynv, YnvError>) -> Result<YnvView, YnvError> {
    match r {
        Ok(y) => Ok(y@),
        Err(e) => Err(e),
    }
}

/// What a file says, given the two sections that it unpacks to.
pub open spec fn read_file(
    sections: Result<(Seq<u8>, Seq<u8>), ResourceError>,
) -> Result<YnvView, YnvError> {
    match sections {
        Ok((system, graphics)) => parsed(system, graphics),
        Err(e) => Err(YnvError::Resource(e)),
    }
}

proof fn lemma_part_items_err(
    system: Seq<u8>,
    graphics: Seq<u8>,
    parts: Seq<u8>,
    item: int,
    j: nat,
    k: nat,
)
    requires
        j <= k,
        part_items(system, graphics, parts, item, j) is Err,
    ensures
        part_items(system, graphics, parts, item, k) == part_items(
            system,
            graphics,
            parts,
            item,
            j,
        ),
    decreases k,
{
    if j < k {
        lemma_part_items_err(system, graphics, parts, item, j, (k - 1) as nat);
    }
}

proof fn lemma_vertices_err(
    poly: int,
    indices: Seq<u16>,
    start: int,
    vertices: Seq<NavVertex>,
    j: nat,
    k: nat,
)
    requires
        j <= k,
        named_vertices(poly, indices, start, vertices, j) is Err,
    ensures
        named_vertices(poly, indices, start, vertices, k) == named_vertices(
            poly,
            indices,
            start,
            vertices,
            j,
        ),
    decreases k,
{
    if j < k {
        lemma_vertices_err(poly, indices, start, vertices, j, (k - 1) as nat);
    }
}

proof fn lemma_polys_err(s: Seq<u8>, lists: Lists, j: nat, k: nat)
    requires
        j <= k,
        poly_list(s, lists, j) is Err,
    ensures
        poly_list(s, lists, k) == poly_list(s, lists, j),
    decreases k,
{
    if j < k {
        lemma_polys_err(s, lists, j, (k - 1) as nat);
    }
}

// ─── reading ─────────────────────────────────────────────────────────────────

fn vertex_le(b: &[u8], off: usize) -> (r: NavVertex)
    requires
        off + 6 <= b@.len(),
    ensures
        r == vertex_at(b@, off as int),
{
    assert(off + 6 <= b.len());
    NavVertex { x: u16_le(b, off), y: u16_le(b, off + 2), z: u16_le(b, off + 4) }
}

spec fn bytes_of(r: Result<Vec<u8>, ListFault>) -> Result<Seq<u8>, ListFault> {
    match r {
        Ok(b) => Ok(b@),
        Err(e) => Err(e),
    }
}

/// Concatenated item bytes of a `NavMeshList<T>` (its parts in order).
fn read_list(r: &ResReader, va: u64, item: usize) -> (out: Result<Vec<u8>, ListFault>)
    requires
        0 < item <= 48,
    ensures
        bytes_of(out) == list_items(r.system@, r.graphics@, va, item as int),
{
    proof {
        reveal(list_items);
    }
    if va == 0 {
        return Ok(Vec::new());
    }
    let h = match r.resolve(va, LIST_SIZE) {
        Some(h) => h,
        None => {
            return Err(ListFault::NoHeader);
        },
    };
    let count = u32_le(h, 0x08);
    let parts_ptr = u64_le(h, 0x10);
    let parts_count = u32_le(h, 0x20);
    let mut out: Vec<u8> = Vec::new();
    if parts_count > 0 {
        let parts = match r.resolve_array(parts_ptr, parts_count as usize, LIST_PART_SIZE) {
            Some(p) => p,
            None => {
                return Err(ListFault::NoParts);
            },
        };
        let mut k: u32 = 0;
        while k < parts_count
            invariant
                k <= parts_count,
                0 < item <= 48,
                parts@.len() == 16 * parts_count,
                part_items(r.system@, r.graphics@, parts@, item as int, k as nat) == Ok::<
                    Seq<u8>,
                    ListFault,
                >(out@),
                list_items(r.system@, r.graphics@, va, item as int) == (match part_items(
                    r.system@,
                    r.graphics@,
                    parts@,
                    item as int,
                    parts_count as nat,
                ) {
                    Err(e) => Err::<Seq<u8>, ListFault>(e),
                    Ok(b) => if b.len() != count * item {
                        Err(ListFault::Length { items: count, bytes: b.len() as usize })
                    } else {
                        Ok(b)
                    },
                }),
            decreases parts_count - k,
        {
            assert(16 * k + 16 <= parts.len());
            let ptr = u64_le(parts, 16 * k as usize);
            let n = u32_le(parts, 16 * k as usize + 8);
            if n != 0 {
                match r.resolve_array(ptr, n as usize, item) {
                    Some(b) => {
                        crate::bytes::push_bytes(&mut out, b);
                    },
                    None => {
                        proof {
                            lemma_part_items_err(
                                r.system@,
                                r.graphics@,
                                parts@,
                                item as int,
                                (k + 1) as nat,
                                parts_count as nat,
                            );
                        }
                        return Err(ListFault::NoItems);
                    },
                }
            }
            k += 1;
        }
    }
    assert(count * item <= 0xFFFF_FFFF * 48) by (nonlinear_arith)
        requires
            item <= 48,
            count <= 0xFFFF_FFFF,
    ;
    if out.len() as u64 != count as u64 * item as u64 {
        return Err(ListFault::Length { items: count, bytes: out.len() });
    }
    Ok(out)
}

spec fn points_of(r: Result<Vec<NavPoint>, YnvError>) -> Result<Seq<NavPoint>, YnvError> {
    match r {
        Ok(b) => Ok(b@),
        Err(e) => Err(e),
    }
}

fn read_sector_points(r: &ResReader, data: u64) -> (out: Result<Vec<NavPoint>, YnvError>)
    ensures
        points_of(out) == sector_points(r.system@, r.graphics@, data),
{
    let mut out: Vec<NavPoint> = Vec::new();
    if data == 0 {
        return Ok(out);
    }
    let d = match r.resolve(data, SECTOR_DATA_SIZE) {
        Some(d) => d,
        None => {
            return Err(YnvError::NoSectorData);
        },
    };
    let ptr = u64_le(d, 0x10);
    let count = u16_le(d, 0x1A);
    if count == 0 {
        return Ok(out);
    }
    let b = match r.resolve_array(ptr, count as usize, POINT_SIZE) {
        Some(b) => b,
        None => {
            return Err(YnvError::NoSectorPoints);
        },
    };
    let mut i: u16 = 0;
    while i < count
        invariant
            i <= count,
            b@.len() == 8 * count,
            out@ == Seq::new(i as nat, |j: int| point_at(b@, 8 * j)),
        decreases count - i,
    {
        let at = 8 * i as usize;
        assert(at + 8 <= b.len());
        out.push(NavPoint { position: vertex_le(b, at), angle: b[at + 6], kind: b[at + 7] });
        i += 1;
        assert(out@ =~= Seq::new(i as nat, |j: int| point_at(b@, 8 * j)));
    }
    Ok(out)
}

/// Root box and every point in the sector tree (root first, then subtrees
/// 4,3,2,1, the order of a stack, kept so point indices agree).
fn read_sector_tree(r: &ResReader, root: u64) -> (out: Result<(Vec3, Vec3, Vec<NavPoint>), YnvError>)
    ensures
        (match out {
            Ok((a, b, p)) => Ok::<(Vec3, Vec3, Seq<NavPoint>), YnvError>((a, b, p@)),
            Err(e) => Err(e),
        }) == sector_tree(r.system@, r.graphics@, root),
{
    if root == 0 {
        return Err(YnvError::NoSectorTree);
    }
    let s = match r.resolve(root, SECTOR_SIZE) {
        Some(s) => s,
        None => {
            return Err(YnvError::NoSectorRoot);
        },
    };
    let bb_min = vec3_le(s, 0);
    let bb_max = vec3_le(s, 16);
    let mut points: Vec<NavPoint> = Vec::new();
    let mut stack: Vec<u64> = Vec::new();
    stack.push(root);
    assert(stack@ =~= seq![root]);
    let mut visited: usize = 0;
    while stack.len() > 0
        invariant
            visited <= MAX_SECTORS,
            tree_points(r.system@, r.graphics@, seq![root], 0, Seq::empty()) == tree_points(
                r.system@,
                r.graphics@,
                stack@,
                visited as nat,
                points@,
            ),
            sector_tree(r.system@, r.graphics@, root) == (match tree_points(
                r.system@,
                r.graphics@,
                seq![root],
                0,
                Seq::empty(),
            ) {
                Err(e) => Err::<(Vec3, Vec3, Seq<NavPoint>), YnvError>(e),
                Ok(points) => Ok((bb_min, bb_max, points)),
            }),
        decreases MAX_SECTORS - visited, (if stack@.len() > 0 { 1int } else { 0int }),
    {
        let ghost before = stack@;
        let va = stack[stack.len() - 1];
        stack.pop();
        assert(stack@ =~= before.drop_last());
        if visited >= MAX_SECTORS {
            return Err(YnvError::TooManySectors);
        }
        let s = match r.resolve(va, SECTOR_SIZE) {
            Some(s) => s,
            None => {
                return Err(YnvError::NoSector);
            },
        };
        let more = match read_sector_points(r, u64_le(s, 0x2C)) {
            Ok(p) => p,
            Err(e) => {
                return Err(e);
            },
        };
        let ghost had = points@;
        let mut i: usize = 0;
        while i < more.len()
            invariant
                i <= more@.len(),
                points@ == had + more@.take(i as int),
            decreases more@.len() - i,
        {
            points.push(more[i]);
            i += 1;
            assert(points@ =~= had + more@.take(i as int));
        }
        assert(points@ =~= had + more@);
        let ghost below = stack@;
        let mut k: usize = 0;
        while k < 4
            invariant
                k <= 4,
                s@.len() == SECTOR_SIZE,
                stack@ == below + subsectors(s@, k as nat),
            decreases 4 - k,
        {
            let ghost had = stack@;
            let sub = u64_le(s, 0x34 + 8 * k);
            if sub != 0 {
                stack.push(sub);
            }
            k += 1;
            assert(stack@ =~= below + subsectors(s@, k as nat));
        }
        visited += 1;
    }
    assert(stack@.len() == 0);
    Ok((bb_min, bb_max, points))
}

fn vertices_from(b: &Vec<u8>) -> (out: Vec<NavVertex>)
    ensures
        out@ == vertex_list(b@),
{
    let mut out: Vec<NavVertex> = Vec::new();
    let n = b.len() / 6;
    let mut i: usize = 0;
    while i < n
        invariant
            i <= n,
            n == b@.len() / 6,
            out@ == Seq::new(i as nat, |j: int| vertex_at(b@, 6 * j)),
        decreases n - i,
    {
        assert(6 * i + 6 <= b.len());
        out.push(vertex_le(b.as_slice(), 6 * i));
        i += 1;
        assert(out@ =~= Seq::new(i as nat, |j: int| vertex_at(b@, 6 * j)));
    }
    assert(out@ =~= vertex_list(b@));
    out
}

fn words_from(b: &[u8], n: usize) -> (out: Vec<u16>)
    requires
        2 * n <= b@.len(),
    ensures
        out@ == crate::resource::le16_list(b@, n as nat),
{
    let mut out: Vec<u16> = Vec::new();
    let mut i: usize = 0;
    while i < n
        invariant
            i <= n,
            2 * n <= b@.len(),
            out@ == crate::resource::le16_list(b@, i as nat),
        decreases n - i,
    {
        assert(2 * i + 2 <= b.len());
        out.push(u16_le(b, 2 * i));
        i += 1;
        assert(out@ =~= crate::resource::le16_list(b@, i as nat));
    }
    out
}

fn decode_end(raw: u32, areas: &Vec<u32>, count: u32) -> (r: NavEdgeEnd)
    requires
        areas@.len() == 32,
    ensures
        r == end_of(raw, areas@, count),
{
    let i = raw % 32;
    NavEdgeEnd {
        area_id: if i < count {
            areas[i as usize]
        } else {
            ADJACENT_NONE
        },
        poly: raw / 32 % 0x4000,
        unk2: (raw / 0x8_0000 % 4) as u8,
        unk3: (raw / 0x20_0000 % 0x800) as u16,
    }
}

fn edges_from(b: &Vec<u8>, areas: &Vec<u32>, count: u32) -> (out: Vec<NavEdge>)
    requires
        areas@.len() == 32,
    ensures
        out@ == edge_list(b@, areas@, count),
{
    let mut out: Vec<NavEdge> = Vec::new();
    let n = b.len() / 8;
    let ghost all = edge_list(b@, areas@, count);
    let mut i: usize = 0;
    while i < n
        invariant
            i <= n,
            n == b@.len() / 8,
            areas@.len() == 32,
            all == edge_list(b@, areas@, count),
            out@ == all.take(i as int),
        decreases n - i,
    {
        assert(8 * i + 8 <= b.len());
        let a = decode_end(u32_le(b.as_slice(), 8 * i), areas, count);
        let z = decode_end(u32_le(b.as_slice(), 8 * i + 4), areas, count);
        out.push(NavEdge { a, b: z });
        i += 1;
        assert(out@ =~= all.take(i as int));
    }
    assert(out@ =~= all);
    out
}

/// The lists that polygon records refer to.
struct ReadLists {
    vertices: Vec<NavVertex>,
    indices: Vec<u16>,
    edges: Vec<NavEdge>,
    links: Vec<u16>,
}

impl ReadLists {
    spec fn lists(self) -> Lists {
        Lists {
            vertices: self.vertices@,
            indices: self.indices@,
            edges: self.edges@,
            links: self.links@,
        }
    }

    fn links_for(&self, flags: u32) -> (out: Vec<u16>)
        ensures
            out@ == poly_links(self.links@, flags),
    {
        let count = (flags / 0x1000 % 8) as usize;
        let start = (flags / 0x8000 % 0x2_0000) as usize;
        let mut out: Vec<u16> = Vec::new();
        if start + count <= self.links.len() {
            let mut i: usize = 0;
            while i < count
                invariant
                    i <= count,
                    start + count <= self.links@.len(),
                    out@ == self.links@.subrange(start as int, start + i),
                decreases count - i,
            {
                assert(start + i < self.links.len());
                out.push(self.links[start + i]);
                i += 1;
                assert(out@ =~= self.links@.subrange(start as int, start + i));
            }
        }
        out
    }

    fn vertices_for(&self, poly: usize, start: usize, count: usize) -> (out: Result<
        Vec<NavVertex>,
        YnvError,
    >)
        requires
            start + count <= self.indices@.len(),
        ensures
            (match out {
                Ok(v) => Ok::<Seq<NavVertex>, YnvError>(v@),
                Err(e) => Err(e),
            }) == named_vertices(
                poly as int,
                self.indices@,
                start as int,
                self.vertices@,
                count as nat,
            ),
    {
        let mut out: Vec<NavVertex> = Vec::new();
        let mut i: usize = 0;
        while i < count
            invariant
                i <= count,
                start + count <= self.indices@.len(),
                named_vertices(
                    poly as int,
                    self.indices@,
                    start as int,
                    self.vertices@,
                    i as nat,
                ) == Ok::<Seq<NavVertex>, YnvError>(out@),
            decreases count - i,
        {
            assert(start + i < self.indices.len());
            let v = self.indices[start + i];
            if (v as usize) < self.vertices.len() {
                out.push(self.vertices[v as usize]);
            } else {
                proof {
                    lemma_vertices_err(
                        poly as int,
                        self.indices@,
                        start as int,
                        self.vertices@,
                        (i + 1) as nat,
                        count as nat,
                    );
                }
                return Err(YnvError::VertexRange { poly, vertex: v });
            }
            i += 1;
        }
        Ok(out)
    }

    fn edges_for(&self, start: usize, count: usize) -> (out: Vec<NavEdge>)
        requires
            start + count <= self.edges@.len(),
        ensures
            out@ == self.edges@.subrange(start as int, start + count),
    {
        let mut out: Vec<NavEdge> = Vec::new();
        let mut i: usize = 0;
        while i < count
            invariant
                i <= count,
                start + count <= self.edges@.len(),
                out@ == self.edges@.subrange(start as int, start + i),
            decreases count - i,
        {
            assert(start + i < self.edges.len());
            out.push(self.edges[start + i]);
            i += 1;
            assert(out@ =~= self.edges@.subrange(start as int, start + i));
        }
        out
    }

    fn poly(&self, b: &Vec<u8>, at: usize, poly: usize) -> (out: Result<NavPoly, YnvError>)
        requires
            at + 48 <= b@.len(),
        ensures
            (match out {
                Ok(p) => Ok::<PolyView, YnvError>(p@),
                Err(e) => Err(e),
            }) == poly_at(b@, at as int, self.lists(), poly as int),
    {
        assert(at + 48 <= b.len());
        let p = b.as_slice();
        let flags0 = u16_le(p, at);
        let count = (u16_le(p, at + 2) / 32) as usize;
        let start = u16_le(p, at + 4) as usize;
        let flags1 = u32_le(p, at + 0x24);
        let flags2 = u32_le(p, at + 0x28);
        let part_flags = u32_le(p, at + 0x2C);
        if start + count > self.indices.len() || start + count > self.edges.len() {
            return Err(YnvError::PolyRange { poly, start, count });
        }
        match self.vertices_for(poly, start, count) {
            Err(e) => Err(e),
            Ok(vertices) => Ok(
                NavPoly {
                    vertices,
                    edges: self.edges_for(start, count),
                    flags0,
                    flags1,
                    flags2,
                    portal_links: self.links_for(part_flags),
                },
            ),
        }
    }

    fn polys(&self, b: &Vec<u8>) -> (out: Result<Vec<NavPoly>, YnvError>)
        ensures
            (match out {
                Ok(p) => Ok::<Seq<PolyView>, YnvError>(polys_view(p@)),
                Err(e) => Err(e),
            }) == poly_list(b@, self.lists(), (b@.len() / 48) as nat),
    {
        let n = b.len() / 48;
        let mut out: Vec<NavPoly> = Vec::new();
        let mut k: usize = 0;
        assert(polys_view(out@) =~= Seq::<PolyView>::empty());
        while k < n
            invariant
                k <= n,
                n == b@.len() / 48,
                poly_list(b@, self.lists(), k as nat) == Ok::<Seq<PolyView>, YnvError>(
                    polys_view(out@),
                ),
            decreases n - k,
        {
            let ghost before = out@;
            assert(48 * k + 48 <= b.len());
            match self.poly(b, 48 * k, k) {
                Ok(p) => {
                    let ghost v = p@;
                    out.push(p);
                    assert(polys_view(out@) =~= polys_view(before).push(v));
                },
                Err(e) => {
                    proof {
                        lemma_polys_err(b@, self.lists(), (k + 1) as nat, n as nat);
                    }
                    return Err(e);
                },
            }
            k += 1;
        }
        Ok(out)
    }
}

fn read_portals(r: &ResReader, va: u64, count: u32) -> (out: Result<Vec<NavPortal>, YnvError>)
    ensures
        (match out {
            Ok(p) => Ok::<Seq<NavPortal>, YnvError>(p@),
            Err(e) => Err(e),
        }) == portal_list(r.system@, r.graphics@, va, count),
{
    let mut out: Vec<NavPortal> = Vec::new();
    if count == 0 {
        return Ok(out);
    }
    let b = match r.resolve_array(va, count as usize, PORTAL_SIZE) {
        Some(b) => b,
        None => {
            return Err(YnvError::NoPortals);
        },
    };
    let mut i: u32 = 0;
    while i < count
        invariant
            i <= count,
            b@.len() == 28 * count,
            out@ == Seq::new(i as nat, |j: int| portal_at(b@, 28 * j)),
        decreases count - i,
    {
        assert(28 * i + 28 <= b.len());
        let at = 28 * i as usize;
        let flags = u32_le(b, at + 24);
        out.push(
            NavPortal {
                kind: b[at],
                angle: b[at + 1],
                flags_unk: u16_le(b, at + 2),
                from: vertex_le(b, at + 4),
                to: vertex_le(b, at + 10),
                poly_from: u16_le(b, at + 16),
                poly_to: u16_le(b, at + 20),
                area_from: (flags % 0x4000) as u16,
                area_to: (flags / 0x4000 % 0x4000) as u16,
                area_unk: (flags / 0x1000_0000 % 16) as u8,
            },
        );
        i += 1;
        assert(out@ =~= Seq::new(i as nat, |j: int| portal_at(b@, 28 * j)));
    }
    Ok(out)
}

fn read_areas(h: &[u8]) -> (out: Vec<u32>)
    requires
        h@.len() == NAVMESH_SIZE,
    ensures
        out@ == area_table(h@),
{
    let mut out: Vec<u32> = Vec::new();
    let mut i: usize = 0;
    while i < 32
        invariant
            i <= 32,
            h@.len() == NAVMESH_SIZE,
            out@ == area_table(h@).take(i as int),
        decreases 32 - i,
    {
        out.push(u32_le(h, 0x98 + 4 * i));
        i += 1;
        assert(out@ =~= area_table(h@).take(i as int));
    }
    assert(out@ =~= area_table(h@));
    out
}

fn named(list: NavList, r: Result<Vec<u8>, ListFault>) -> (out: Result<Vec<u8>, YnvError>)
    ensures
        (match out {
            Ok(b) => Ok::<Seq<u8>, YnvError>(b@),
            Err(e) => Err(e),
        }) == needed(list, bytes_of(r)),
{
    match r {
        Ok(b) => Ok(b),
        Err(fault) => Err(YnvError::List { list, fault }),
    }
}

/// The navmesh that the two sections of a file hold.
pub fn read_sections(system: &[u8], graphics: &[u8]) -> (out: Result<Ynv, YnvError>)
    ensures
        viewed(out) == parsed(system@, graphics@),
{
    let r = ResReader { system, graphics };
    let h = match r.resolve(SYSTEM_BASE, NAVMESH_SIZE) {
        Some(h) => h,
        None => {
            return Err(YnvError::NoHeader);
        },
    };
    let (bb_min, bb_max, points) = match read_sector_tree(&r, u64_le(h, 0x120)) {
        Ok(x) => x,
        Err(e) => {
            return Err(e);
        },
    };
    let vertex_bytes = match named(NavList::Vertices, read_list(&r, u64_le(h, 0x70), VERTEX_SIZE)) {
        Ok(b) => b,
        Err(e) => {
            return Err(e);
        },
    };
    let index_bytes = match named(NavList::Indices, read_list(&r, u64_le(h, 0x80), INDEX_SIZE)) {
        Ok(b) => b,
        Err(e) => {
            return Err(e);
        },
    };
    let edge_bytes = match named(NavList::Edges, read_list(&r, u64_le(h, 0x88), EDGE_SIZE)) {
        Ok(b) => b,
        Err(e) => {
            return Err(e);
        },
    };
    let poly_bytes = match named(NavList::Polys, read_list(&r, u64_le(h, 0x118), POLY_SIZE)) {
        Ok(b) => b,
        Err(e) => {
            return Err(e);
        },
    };
    let areas = read_areas(h);
    let link_count = u32_le(h, 0x150);
    let links: Vec<u16> = match r.resolve_array(u64_le(h, 0x130), link_count as usize, 2) {
        Some(b) => words_from(b, link_count as usize),
        None => Vec::new(),
    };
    let lists = ReadLists {
        vertices: vertices_from(&vertex_bytes),
        indices: words_from(index_bytes.as_slice(), index_bytes.len() / 2),
        edges: edges_from(&edge_bytes, &areas, u32_le(h, 0x94)),
        links,
    };
    assert(lists.links@ == link_list(system@, graphics@, crate::bytes::le64(h@, 0x130), link_count));
    let polys = match lists.polys(&poly_bytes) {
        Ok(p) => p,
        Err(e) => {
            return Err(e);
        },
    };
    let portals = match read_portals(&r, u64_le(h, 0x128), u32_le(h, 0x14C)) {
        Ok(p) => p,
        Err(e) => {
            return Err(e);
        },
    };
    Ok(
        Ynv {
            content_flags: u32_le(h, 0x10),
            area_id: u32_le(h, 0x140),
            bb_min,
            bb_max,
            bb_size: vec3_le(h, 0x60),
            version_unk2: u32_le(h, 0x160),
            vft: u32_le(h, 0),
            polys,
            portals,
            points,
        },
    )
}

/// Parses a `.ynv` (RSC7 bytes, deflated or stored).
pub fn parse_ynv(data: &[u8]) -> (out: Result<Ynv, YnvError>)
    ensures
        exists|sections: Result<(Seq<u8>, Seq<u8>), ResourceError>|
            #[trigger] crate::resource::unpacks_to(data@, sections) && viewed(out) == read_file(
                sections,
            ),
{
    let prepared = prepare_rsc7(data);
    let ghost sections = crate::resource::sections_view(prepared);
    assert(crate::resource::unpacks_to(data@, sections));
    match prepared {
        Ok((system, graphics)) => read_sections(system.as_slice(), graphics.as_slice()),
        Err(e) => Err(YnvError::Resource(e)),
    }
}

} // verus!
