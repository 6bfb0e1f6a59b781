//! Writes navmeshes (`.ynv`), rebuilding the vertex/index/edge lists, the
//! adjacent-area table, the portal links and the sector tree from the
//! polygon data, as CodeWalker's `Save()` does.

use vstd::prelude::*;
use vstd::slice::*;

use std::collections::HashMap;

use crate::bytes::{push_bytes, push_u16_le, push_u32_le, push_u64_le, put_bytes};
use crate::math::Vec3;
use crate::resource::{build_rsc7_paged, ResourceError, SYSTEM_BASE};
use crate::single::single_at_least;
use crate::ynv::{
    NavEdge, NavEdgeEnd, NavPoint, NavPoly, NavPortal, NavVertex, PolyView, Ynv, YnvError, YnvView,
    ADJACENT_NONE, EDGE_SIZE, INDEX_SIZE, LIST_PART_SIZE, LIST_SIZE, NAVMESH_SIZE, POLY_SIZE,
    SECTOR_SIZE, VERTEX_SIZE,
};

verus! {

broadcast use {vstd::slice::group_slice_axioms, vstd::std_specs::hash::group_hash_axioms};

/// System-section page size used for written navmeshes. The game maps each
/// RSC7 page as its own allocation and relocates pointers page by page, so a
/// block must never straddle a page boundary; 16 KiB is the largest block a
/// navmesh list part can be.
pub const PAGE_SIZE: usize = 16384;

pub const LIST_VFT_VERTICES: u32 = 1080158456;
pub const LIST_VFT_INDICES: u32 = 1080158424;
pub const LIST_VFT_EDGES: u32 = 1080158440;
pub const LIST_VFT_POLYS: u32 = 1080158408;

/// The bits of the quiet "not a number" that retail files carry.
pub const NOT_A_NUMBER: u32 = 0x7FC0_0000;

/// The bits of the single 1.
pub const ONE: u32 = 0x3F80_0000;

/// The most adjacent areas a navmesh names.
pub const MAX_AREAS: usize = 32;

/// A box, in quarter metres.
#[derive(Debug, Clone, Copy, PartialEq, Eq, Structural)]
pub struct NavBox {
    pub min_x: i16,
    pub max_x: i16,
    pub min_y: i16,
    pub max_y: i16,
    pub min_z: i16,
    pub max_z: i16,
}

/// The box of a sector, as singles and in quarter metres, and its centre.
#[derive(Debug, Clone, Copy, PartialEq, Eq, Structural)]
pub struct SectorBox {
    pub min: Vec3,
    pub max: Vec3,
    pub centre: Vec3,
    pub cell: NavBox,
}

/// What a navmesh is written by, beside its own data: the boxes of its
/// polygons, where its points lie in the world, and the boxes of the sectors
/// of its tree, each before its four parts.
#[derive(Debug, PartialEq, Eq)]
pub struct NavPlan {
    pub cells: Vec<NavBox>,
    pub positions: Vec<Vec3>,
    pub sectors: Vec<SectorBox>,
}

/// The model of a [`NavPlan`].
pub struct PlanView {
    pub cells: Seq<NavBox>,
    pub positions: Seq<Vec3>,
    pub sectors: Seq<SectorBox>,
}

impl View for NavPlan {
    type V = PlanView;

    open spec fn view(&self) -> PlanView {
        PlanView {
            cells: self.cells@,
            positions: self.positions@,
            sectors: self.sectors@,
        }
    }
}

/// How deep the tree of a navmesh is: two levels of quadtree for map cells, a
/// single node for vehicles.
pub open spec fn depth_of(content_flags: u32) -> nat {
    if crate::ynv::has_bit(content_flags as int, 4) {
        0
    } else {
        2
    }
}

/// How many sectors a tree of some depth has.
pub open spec fn sector_count(depth: nat) -> nat
    decreases depth,
{
    if depth == 0 {
        1
    } else {
        1 + 4 * sector_count((depth - 1) as nat)
    }
}

/// The corners of the four parts of a sector, clockwise from +XY; the odd
/// heights are what retail files carry.
pub open spec fn part_of(b: SectorBox, k: int) -> (Vec3, Vec3) {
    if k == 0 {
        (b.centre, b.max)
    } else if k == 1 {
        (Vec3 { x: b.centre.x, y: b.min.y, z: 0 }, Vec3 { x: b.max.x, y: b.centre.y, z: 0 })
    } else if k == 2 {
        (b.min, b.centre)
    } else {
        (Vec3 { x: b.min.x, y: b.centre.y, z: 0 }, Vec3 { x: b.centre.x, y: b.max.y, z: 0 })
    }
}

/// The corners of part `k` of a sector.
pub fn sector_part(b: &SectorBox, k: usize) -> (r: (Vec3, Vec3))
    requires
        k < 4,
    ensures
        r == part_of(*b, k as int),
{
    if k == 0 {
        (b.centre, b.max)
    } else if k == 1 {
        (Vec3 { x: b.centre.x, y: b.min.y, z: 0 }, Vec3 { x: b.max.x, y: b.centre.y, z: 0 })
    } else if k == 2 {
        (b.min, b.centre)
    } else {
        (Vec3 { x: b.min.x, y: b.centre.y, z: 0 }, Vec3 { x: b.centre.x, y: b.max.y, z: 0 })
    }
}

/// Whether sector `i` has the given corners, and every sector below it those
/// of its part of the one above it.
pub open spec fn sectors_fit(
    s: Seq<SectorBox>,
    i: int,
    depth: nat,
    corners: (Vec3, Vec3),
) -> bool
    decreases depth,
{
    &&& s[i].min == corners.0
    &&& s[i].max == corners.1
    &&& depth > 0 ==> {
        let n = sector_count((depth - 1) as nat);
        &&& sectors_fit(s, i + 1, (depth - 1) as nat, part_of(s[i], 0))
        &&& sectors_fit(s, i + 1 + n, (depth - 1) as nat, part_of(s[i], 1))
        &&& sectors_fit(s, i + 1 + 2 * n, (depth - 1) as nat, part_of(s[i], 2))
        &&& sectors_fit(s, i + 1 + 3 * n, (depth - 1) as nat, part_of(s[i], 3))
    }
}

/// Whether a plan belongs to a navmesh: a box for every polygon, a position
/// for every point, and the sectors of the quadtree over its box.
pub open spec fn plan_fits(y: YnvView, plan: PlanView) -> bool {
    &&& plan.cells.len() == y.polys.len()
    &&& plan.positions.len() == y.points.len()
    &&& plan.sectors.len() == sector_count(depth_of(y.content_flags))
    &&& sectors_fit(plan.sectors, 0, depth_of(y.content_flags), (y.bb_min, y.bb_max))
}

fn check_sectors(s: &Vec<SectorBox>, i: usize, depth: usize, corners: (Vec3, Vec3)) -> (r: bool)
    requires
        depth <= 2,
        i + sector_count(depth as nat) <= s@.len() <= 21,
    ensures
        r == sectors_fit(s@, i as int, depth as nat, corners),
    decreases depth,
{
    proof {
        reveal_with_fuel(sector_count, 3);
    }
    let b = s[i];
    if b.min != corners.0 || b.max != corners.1 {
        return false;
    }
    if depth == 0 {
        return true;
    }
    let n: usize = if depth == 1 {
        1
    } else {
        5
    };
    check_sectors(s, i + 1, depth - 1, sector_part(&b, 0)) && check_sectors(
        s,
        i + 1 + n,
        depth - 1,
        sector_part(&b, 1),
    ) && check_sectors(s, i + 1 + 2 * n, depth - 1, sector_part(&b, 2)) && check_sectors(
        s,
        i + 1 + 3 * n,
        depth - 1,
        sector_part(&b, 3),
    )
}

/// Whether `plan` belongs to `y`, as [`serialize_ynv`] asks.
pub fn plan_is_fit(y: &Ynv, plan: &NavPlan) -> (r: bool)
    ensures
        r == plan_fits(y@, plan@),
{
    proof {
        reveal_with_fuel(sector_count, 3);
    }
    let (depth, count): (usize, usize) = if y.is_vehicle() {
        (0, 1)
    } else {
        (2, 21)
    };
    plan.cells.len() == y.polys.len() && plan.positions.len() == y.points.len()
        && plan.sectors.len() == count && check_sectors(
        &plan.sectors,
        0,
        depth,
        (y.bb_min, y.bb_max),
    )
}

// ─── polygons ────────────────────────────────────────────────────────────────

/// The first place of `x` from `i` on, or the end.
pub open spec fn place_of<T>(s: Seq<T>, x: T, i: int) -> int
    decreases s.len() - i,
{
    if i >= s.len() || i < 0 {
        s.len() as int
    } else if s[i] == x {
        i
    } else {
        place_of(s, x, i + 1)
    }
}

/// What the polygons are written as.
#[verifier::ext_equal]
pub struct Encoded {
    /// The adjacent areas.
    pub areas: Seq<u32>,
    /// The vertices, each once.
    pub vertices: Seq<NavVertex>,
    pub indices: Seq<u16>,
    /// The two words of each edge.
    pub edges: Seq<(u32, u32)>,
    pub links: Seq<u16>,
    /// The polygon records.
    pub records: Seq<u8>,
}

/// A table of areas with one more, unless it has it, and its place.
pub open spec fn with_area(areas: Seq<u32>, id: u32) -> Result<(Seq<u32>, int), YnvError> {
    let p = place_of(areas, id, 0);
    if p < areas.len() {
        Ok((areas, p))
    } else if areas.len() >= MAX_AREAS {
        Err(YnvError::TooManyAreas)
    } else {
        Ok((areas.push(id), p))
    }
}

/// The areas that every table starts with: the cell itself, none, and the
/// four neighbours.
pub open spec fn first_areas(a: u32) -> Seq<u32> {
    let t0 = seq![a];
    let t1 = (with_area(t0, ADJACENT_NONE)->Ok_0).0;
    let t2 = (with_area(t1, a.wrapping_sub(100))->Ok_0).0;
    let t3 = (with_area(t2, a.wrapping_sub(1))->Ok_0).0;
    let t4 = (with_area(t3, (a + 1) as u32)->Ok_0).0;
    (with_area(t4, (a + 100) as u32)->Ok_0).0
}

/// The word of one side of an edge, by the place of its area.
pub open spec fn end_word(place: int, end: NavEdgeEnd) -> u32 {
    (place % 32 + 32 * (end.poly % 0x4000) + 0x8_0000 * (end.unk2 % 4) + 0x20_0000 * (end.unk3
        % 0x800)) as u32
}

/// The edge that leaves a vertex, none where the polygon has none there.
pub open spec fn edge_at(edges: Seq<NavEdge>, i: int) -> NavEdge {
    if i < edges.len() {
        edges[i]
    } else {
        crate::ynv::no_edge()
    }
}

/// One more vertex and the edge that leaves it.
pub open spec fn with_corner(e: Encoded, v: NavVertex, edge: NavEdge) -> Result<Encoded, YnvError> {
    let p = place_of(e.vertices, v, 0);
    if p == e.vertices.len() && p > 0xFFFF {
        Err(YnvError::TooManyVertices)
    } else {
        match with_area(e.areas, edge.a.area_id) {
            Err(x) => Err(x),
            Ok((areas_a, at_a)) => match with_area(areas_a, edge.b.area_id) {
                Err(x) => Err(x),
                Ok((areas, at_b)) => Ok(
                    Encoded {
                        areas,
                        vertices: if p < e.vertices.len() {
                            e.vertices
                        } else {
                            e.vertices.push(v)
                        },
                        indices: e.indices.push(p as u16),
                        edges: e.edges.push((end_word(at_a, edge.a), end_word(at_b, edge.b))),
                        ..e
                    },
                ),
            },
        }
    }
}

/// The first `k` vertices of a polygon added.
pub open spec fn with_corners(e: Encoded, p: PolyView, k: nat) -> Result<Encoded, YnvError>
    decreases k,
{
    if k == 0 {
        Ok(e)
    } else {
        match with_corners(e, p, (k - 1) as nat) {
            Err(x) => Err(x),
            Ok(before) => with_corner(before, p.vertices[k - 1], edge_at(p.edges, k - 1)),
        }
    }
}

/// The bytes of a box.
pub open spec fn box_bytes(b: NavBox) -> Seq<u8> {
    crate::bytes::le16_bytes(b.min_x as u16) + crate::bytes::le16_bytes(b.max_x as u16) + crate::bytes::le16_bytes(b.min_y as u16)
        + crate::bytes::le16_bytes(b.max_y as u16) + crate::bytes::le16_bytes(b.min_z as u16) + crate::bytes::le16_bytes(b.max_z as u16)
}

/// The flags of a polygon that say where it stands and where its portal links
/// are.
pub open spec fn part_flags(poly: int, links: int, link_start: int) -> u32 {
    (16 * (poly / 341 % 0x100) + 0x1000 * (links % 8) + 0x8000 * (link_start % 0x2_0000)) as u32
}

/// The record of a polygon.
pub open spec fn poly_record(
    p: PolyView,
    area_id: u32,
    cell: NavBox,
    poly: int,
    start: int,
    link_start: int,
) -> Seq<u8> {
    crate::bytes::le16_bytes(p.flags0) + crate::bytes::le16_bytes((32 * p.vertices.len()) as u16) + crate::bytes::le16_bytes(start as u16)
        + crate::bytes::le16_bytes(area_id as u16) + crate::bytes::zeros(16) + box_bytes(cell) + crate::bytes::le32_bytes(p.flags1)
        + crate::bytes::le32_bytes(p.flags2) + crate::bytes::le32_bytes(
        part_flags(poly, p.portal_links.len() as int, link_start),
    )
}

/// One more polygon.
pub open spec fn with_poly(e: Encoded, p: PolyView, area_id: u32, cell: NavBox, poly: int) -> Result<
    Encoded,
    YnvError,
> {
    let count = p.vertices.len();
    if count < 3 || count > 0x7FF {
        Err(YnvError::PolyVertices { poly: poly as usize, count: count as usize })
    } else if e.indices.len() > 0xFFFF {
        Err(YnvError::TooManyIndices)
    } else {
        match with_corners(e, p, count) {
            Err(x) => Err(x),
            Ok(c) => if p.portal_links.len() > 7 {
                Err(YnvError::TooManyLinks(poly as usize))
            } else {
                Ok(
                    Encoded {
                        links: e.links + p.portal_links,
                        records: e.records + poly_record(
                            p,
                            area_id,
                            cell,
                            poly,
                            e.indices.len() as int,
                            e.links.len() as int,
                        ),
                        ..c
                    },
                )
            },
        }
    }
}

/// The first `k` polygons.
pub open spec fn with_polys(y: YnvView, plan: PlanView, k: nat) -> Result<Encoded, YnvError>
    decreases k,
{
    if k == 0 {
        Ok(
            Encoded {
                areas: first_areas(y.area_id),
                vertices: Seq::empty(),
                indices: Seq::empty(),
                edges: Seq::empty(),
                links: Seq::empty(),
                records: Seq::empty(),
            },
        )
    } else {
        match with_polys(y, plan, (k - 1) as nat) {
            Err(x) => Err(x),
            Ok(e) => with_poly(e, y.polys[k - 1], y.area_id, plan.cells[k - 1], k - 1),
        }
    }
}

/// The bytes of some vertices.
pub open spec fn vertex_bytes(v: Seq<NavVertex>, k: nat) -> Seq<u8>
    decreases k,
{
    if k == 0 {
        Seq::empty()
    } else {
        vertex_bytes(v, (k - 1) as nat) + position_bytes(v[k - 1])
    }
}

/// The bytes of a position.
pub open spec fn position_bytes(v: NavVertex) -> Seq<u8> {
    crate::bytes::le16_bytes(v.x) + crate::bytes::le16_bytes(v.y) + crate::bytes::le16_bytes(v.z)
}

/// The bytes of some numbers.
pub open spec fn word_bytes(v: Seq<u16>, k: nat) -> Seq<u8>
    decreases k,
{
    if k == 0 {
        Seq::empty()
    } else {
        word_bytes(v, (k - 1) as nat) + crate::bytes::le16_bytes(v[k - 1])
    }
}

/// The bytes of some edges.
pub open spec fn edge_bytes(v: Seq<(u32, u32)>, k: nat) -> Seq<u8>
    decreases k,
{
    if k == 0 {
        Seq::empty()
    } else {
        edge_bytes(v, (k - 1) as nat) + (crate::bytes::le32_bytes(v[k - 1].0) + crate::bytes::le32_bytes(v[k - 1].1))
    }
}

/// The bytes of some areas.
pub open spec fn area_bytes(v: Seq<u32>, k: nat) -> Seq<u8>
    decreases k,
{
    if k == 0 {
        Seq::empty()
    } else {
        area_bytes(v, (k - 1) as nat) + crate::bytes::le32_bytes(v[k - 1])
    }
}

/// The bytes of a portal.
pub open spec fn portal_bytes(p: NavPortal) -> Seq<u8> {
    seq![p.kind, p.angle] + crate::bytes::le16_bytes(p.flags_unk) + position_bytes(p.from) + position_bytes(p.to)
        + crate::bytes::le16_bytes(p.poly_from) + crate::bytes::le16_bytes(p.poly_from) + crate::bytes::le16_bytes(p.poly_to) + crate::bytes::le16_bytes(
        p.poly_to,
    ) + crate::bytes::le32_bytes(
        (p.area_from % 0x4000 + 0x4000 * (p.area_to % 0x4000) + 0x1000_0000 * (p.area_unk
            % 16)) as u32,
    )
}

/// The bytes of the first `k` portals.
pub open spec fn portals_bytes(v: Seq<NavPortal>, k: nat) -> Seq<u8>
    decreases k,
{
    if k == 0 {
        Seq::empty()
    } else {
        portals_bytes(v, (k - 1) as nat) + portal_bytes(v[k - 1])
    }
}

// ─── the layout ──────────────────────────────────────────────────────────────

/// Where a block of this size goes in a section that has grown to `len`
/// bytes: at the next multiple of sixteen, or at the next page where it would
/// straddle the boundary.
#[verifier::opaque]
pub open spec fn start_for(len: int, size: int) -> int {
    let aligned = (len + 15) / 16 * 16;
    if aligned % 0x4000 + size > 0x4000 {
        aligned - aligned % 0x4000 + 0x4000
    } else {
        aligned
    }
}

/// The section with a block of zeros added.
pub open spec fn grown(buf: Seq<u8>, size: int) -> Seq<u8> {
    buf + crate::bytes::zeros(start_for(buf.len() as int, size) + size - buf.len())
}

/// The section with a block added.
pub open spec fn put(buf: Seq<u8>, bytes: Seq<u8>) -> Seq<u8> {
    buf + crate::bytes::zeros(start_for(buf.len() as int, bytes.len() as int) - buf.len()) + bytes
}

/// The address of a place in the system section.
pub open spec fn address(offset: int) -> u64 {
    (SYSTEM_BASE + offset) as u64
}

/// How many bytes of items a part of a list holds.
#[verifier::opaque]
pub open spec fn part_size(item: int) -> int {
    16384int / item * item
}

/// How many parts a list has.
pub open spec fn part_count(len: int, item: int) -> nat {
    crate::resource::ceil_div(len, part_size(item)) as nat
}

/// The items of part `k`.
pub open spec fn part_at(items: Seq<u8>, item: int, k: int) -> Seq<u8> {
    items.subrange(
        k * part_size(item),
        crate::resource::least((k + 1) * part_size(item), items.len() as int),
    )
}

/// The section with the first `k` parts of a list added, their records, and
/// the number of the first item of each.
pub open spec fn with_parts(buf: Seq<u8>, items: Seq<u8>, item: int, k: nat) -> (
    Seq<u8>,
    Seq<u8>,
    Seq<u8>,
)
    decreases k,
{
    if k == 0 {
        (buf, Seq::empty(), Seq::empty())
    } else {
        let (before, records, firsts) = with_parts(buf, items, item, (k - 1) as nat);
        let part = part_at(items, item, k - 1);
        (
            put(before, part),
            records + (crate::bytes::le64_bytes(
                address(start_for(before.len() as int, part.len() as int)),
            ) + crate::bytes::le32_bytes((part.len() / (item as nat)) as u32) + crate::bytes::zeros(4)),
            firsts + crate::bytes::le32_bytes(((k - 1) * (16384int / item)) as u32),
        )
    }
}

/// The header of a list.
#[verifier::opaque]
pub open spec fn list_header(vft: u32, count: int, parts: u64, firsts: u64, part_count: int) -> Seq<
    u8,
> {
    crate::bytes::le32_bytes(vft) + crate::bytes::le32_bytes(1) + crate::bytes::le32_bytes(count as u32) + crate::bytes::zeros(4) + crate::bytes::le64_bytes(parts)
        + crate::bytes::le64_bytes(firsts) + crate::bytes::le32_bytes(part_count as u32) + crate::bytes::zeros(12)
}

/// The section with a list added: header, table of parts, parts of at most
/// 16 KiB, offsets table.
#[verifier::opaque]
pub open spec fn with_list(buf: Seq<u8>, vft: u32, items: Seq<u8>, item: int) -> Seq<u8> {
    let h = start_for(buf.len() as int, 48);
    let b1 = grown(buf, 48);
    let n = part_count(items.len() as int, item);
    let table = start_for(b1.len() as int, 16int * n);
    let b2 = grown(b1, 16int * n);
    let (b3, records, firsts) = with_parts(b2, items, item, n);
    let b4 = crate::bytes::splice(b3, table, records);
    let at = start_for(b4.len() as int, firsts.len() as int);
    let b5 = if n == 0 {
        b4
    } else {
        put(b4, firsts)
    };
    crate::bytes::splice(
        b5,
        h,
        list_header(
            vft,
            items.len() as int / item,
            address(table),
            if n == 0 {
                0
            } else {
                address(at)
            },
            n as int,
        ),
    )
}

// ─── the sector tree ─────────────────────────────────────────────────────────

/// Whether two boxes meet on the ground.
pub open spec fn boxes_meet(a: NavBox, b: NavBox) -> bool {
    a.max_x >= b.min_x && a.min_x <= b.max_x && a.max_y >= b.min_y && a.min_y <= b.max_y
}

/// The numbers of the first `k` polygons that meet a box.
pub open spec fn polys_in(cells: Seq<NavBox>, cell: NavBox, k: nat) -> Seq<u16>
    decreases k,
{
    if k == 0 {
        Seq::empty()
    } else {
        let before = polys_in(cells, cell, (k - 1) as nat);
        if boxes_meet(cells[k - 1], cell) {
            before.push((k - 1) as u16)
        } else {
            before
        }
    }
}

/// Whether a position lies over a box.
pub open spec fn lies_in(p: Vec3, b: SectorBox) -> bool {
    crate::single::at_least(p.x, b.min.x) && crate::single::at_least(b.max.x, p.x) && crate::single::at_least(p.y, b.min.y) && crate::single::at_least(
        b.max.y,
        p.y,
    )
}

/// The bytes of a point.
pub open spec fn point_bytes(p: NavPoint) -> Seq<u8> {
    position_bytes(p.position) + seq![p.angle, p.kind]
}

/// Which of the first `k` points go into a sector: those that lie over it and
/// are in none yet. Their bytes, and which points are in some sector then.
pub open spec fn points_in(
    points: Seq<NavPoint>,
    positions: Seq<Vec3>,
    b: SectorBox,
    used: Seq<bool>,
    k: nat,
) -> (Seq<NavPoint>, Seq<bool>)
    decreases k,
{
    if k == 0 {
        (Seq::empty(), used)
    } else {
        let (before, now) = points_in(points, positions, b, used, (k - 1) as nat);
        if !now[k - 1] && lies_in(positions[k - 1], b) {
            (before.push(points[k - 1]), now.update(k - 1, true))
        } else {
            (before, now)
        }
    }
}

/// The bytes of the first `k` points.
pub open spec fn points_bytes(v: Seq<NavPoint>, k: nat) -> Seq<u8>
    decreases k,
{
    if k == 0 {
        Seq::empty()
    } else {
        points_bytes(v, (k - 1) as nat) + point_bytes(v[k - 1])
    }
}

/// What has been written of the sector tree.
#[verifier::ext_equal]
pub struct TreeState {
    pub buf: Seq<u8>,
    /// Which points are in some sector.
    pub used: Seq<bool>,
    /// How many points are.
    pub points: int,
    /// How many bytes the tree takes, gaps left out.
    pub total: int,
}

/// The bytes of a vector.
pub open spec fn vec3_bytes(v: Vec3) -> Seq<u8> {
    crate::bytes::le32_bytes(v.x) + crate::bytes::le32_bytes(v.y) + crate::bytes::le32_bytes(v.z)
}

/// The first half of a sector: its box.
pub open spec fn sector_head(b: SectorBox) -> Seq<u8> {
    vec3_bytes(b.min) + crate::bytes::le32_bytes(NOT_A_NUMBER) + vec3_bytes(b.max) + crate::bytes::le32_bytes(NOT_A_NUMBER)
        + box_bytes(b.cell)
}

/// A sector: its box, where its data is, and where its parts are.
#[verifier::opaque]
pub open spec fn sector_bytes(b: SectorBox, data: u64, subs: Seq<u64>) -> Seq<u8> {
    sector_head(b) + crate::bytes::le64_bytes(data) + crate::bytes::le64_bytes(subs[0]) + crate::bytes::le64_bytes(subs[1]) + crate::bytes::le64_bytes(
        subs[2],
    ) + crate::bytes::le64_bytes(subs[3]) + crate::bytes::zeros(12)
}

/// The data of a sector.
pub open spec fn sector_data(first_point: int, ids: u64, points: u64, id_count: int, count: int) -> Seq<
    u8,
> {
    crate::bytes::le32_bytes(first_point as u32) + crate::bytes::zeros(4) + crate::bytes::le64_bytes(ids) + crate::bytes::le64_bytes(points) + crate::bytes::le16_bytes(
        id_count as u16,
    ) + crate::bytes::le16_bytes(count as u16) + crate::bytes::zeros(4)
}

/// A leaf of the tree, written at the end of the section.
#[verifier::opaque]
pub open spec fn with_leaf(y: YnvView, plan: PlanView, b: SectorBox, st: TreeState) -> Result<
    TreeState,
    YnvError,
> {
    let node = start_for(st.buf.len() as int, 96);
    let b1 = grown(st.buf, 96);
    let ids = polys_in(plan.cells, b.cell, plan.cells.len());
    let (points, used) = points_in(y.points, plan.positions, b, st.used, y.points.len());
    if 2 * ids.len() > PAGE_SIZE {
        Err(YnvError::BlockTooLarge((2 * ids.len()) as usize))
    } else if 8 * points.len() > PAGE_SIZE {
        Err(YnvError::BlockTooLarge((8 * points.len()) as usize))
    } else {
        let id_bytes = word_bytes(ids, ids.len());
        let at_bytes = points_bytes(points, points.len());
        let b2 = if ids.len() == 0 {
            b1
        } else {
            put(b1, id_bytes)
        };
        let b3 = if points.len() == 0 {
            b2
        } else {
            put(b2, at_bytes)
        };
        let data = sector_data(
            st.points,
            if ids.len() == 0 {
                0
            } else {
                address(start_for(b1.len() as int, id_bytes.len() as int))
            },
            if points.len() == 0 {
                0
            } else {
                address(start_for(b2.len() as int, at_bytes.len() as int))
            },
            ids.len() as int,
            points.len() as int,
        );
        let b4 = put(b3, data);
        Ok(
            TreeState {
                buf: crate::bytes::splice(
                    b4,
                    node,
                    sector_bytes(
                        b,
                        address(start_for(b3.len() as int, 32)),
                        seq![0, 0, 0, 0],
                    ),
                ),
                used,
                points: st.points + points.len(),
                total: st.total + 96 + 32 + 2 * ids.len() + 8 * points.len(),
            },
        )
    }
}

/// A sector and all below it, written at the end of the section.
pub open spec fn with_sector(
    y: YnvView,
    plan: PlanView,
    i: int,
    depth: nat,
    st: TreeState,
) -> Result<TreeState, YnvError>
    decreases depth, 5nat,
{
    let b = plan.sectors[i];
    if depth == 0 {
        with_leaf(y, plan, b, st)
    } else {
        let node = start_for(st.buf.len() as int, 96);
        let started = TreeState { buf: grown(st.buf, 96), total: st.total + 96, ..st };
        match with_quads(y, plan, i, depth, started, 4) {
            Err(e) => Err(e),
            Ok((end, subs)) => Ok(
                TreeState { buf: crate::bytes::splice(end.buf, node, sector_bytes(b, 0, subs)), ..end },
            ),
        }
    }
}

/// The first `k` parts of a sector, and their addresses.
pub open spec fn with_quads(
    y: YnvView,
    plan: PlanView,
    i: int,
    depth: nat,
    st: TreeState,
    k: nat,
) -> Result<(TreeState, Seq<u64>), YnvError>
    decreases depth, k,
{
    if k == 0 || depth == 0 || k > 4 {
        Ok((st, Seq::empty()))
    } else {
        match with_quads(y, plan, i, depth, st, (k - 1) as nat) {
            Err(e) => Err(e),
            Ok((before, subs)) => match with_sector(
                y,
                plan,
                i + 1 + (k - 1) * sector_count((depth - 1) as nat),
                (depth - 1) as nat,
                before,
            ) {
                Err(e) => Err(e),
                Ok(after) => Ok(
                    (after, subs.push(address(start_for(before.buf.len() as int, 96)))),
                ),
            },
        }
    }
}

// ─── the file ────────────────────────────────────────────────────────────────

/// One row of the identity transform, with no number in the last column.
pub open spec fn identity_row(row: int) -> Seq<u8> {
    crate::bytes::le32_bytes(
        if row == 0 {
            ONE
        } else {
            0
        },
    ) + crate::bytes::le32_bytes(
        if row == 1 {
            ONE
        } else {
            0
        },
    ) + crate::bytes::le32_bytes(
        if row == 2 {
            ONE
        } else {
            0
        },
    ) + crate::bytes::le32_bytes(NOT_A_NUMBER)
}

/// Where the blocks of a file stand.
pub struct Blocks {
    pub vertices: u64,
    pub indices: u64,
    pub edges: u64,
    pub polys: u64,
    pub sectors: u64,
    pub portals: u64,
    pub links: u64,
}

/// The first part of the header of a navmesh.
pub open spec fn header_front(y: YnvView) -> Seq<u8> {
    crate::bytes::le32_bytes(y.vft) + crate::bytes::le32_bytes(1) + crate::bytes::zeros(8) + crate::bytes::le32_bytes(y.content_flags) + crate::bytes::le32_bytes(
        0x0001_0011,
    ) + crate::bytes::zeros(8) + identity_row(0) + identity_row(1) + identity_row(2) + identity_row(3)
        + vec3_bytes(y.bb_size) + crate::bytes::le32_bytes(0x7F80_0001)
}

/// The lists of the header, and the adjacent areas.
pub open spec fn header_lists(e: Encoded, at: Blocks) -> Seq<u8> {
    crate::bytes::le64_bytes(at.vertices) + crate::bytes::zeros(8) + crate::bytes::le64_bytes(at.indices) + crate::bytes::le64_bytes(at.edges) + crate::bytes::le32_bytes(
        e.indices.len() as u32,
    ) + crate::bytes::le32_bytes(e.areas.len() as u32) + area_bytes(e.areas, e.areas.len()) + crate::bytes::zeros(
        128 - 4 * e.areas.len(),
    )
}

/// The rest of the header.
pub open spec fn header_rest(y: YnvView, e: Encoded, at: Blocks, total: int, points: int) -> Seq<u8> {
    (crate::bytes::le64_bytes(at.polys) + crate::bytes::le64_bytes(at.sectors)
        + crate::bytes::le64_bytes(at.portals) + crate::bytes::le64_bytes(at.links)) + (
    crate::bytes::le32_bytes(e.vertices.len() as u32) + crate::bytes::le32_bytes(
        y.polys.len() as u32,
    ) + crate::bytes::le32_bytes(y.area_id) + crate::bytes::le32_bytes(total as u32)
        + crate::bytes::le32_bytes(points as u32) + crate::bytes::le32_bytes(
        y.portals.len() as u32,
    ) + crate::bytes::le32_bytes(e.links.len() as u32)) + crate::bytes::zeros(12)
        + crate::bytes::le32_bytes(y.version_unk2) + crate::bytes::zeros(12)
}

/// The header of a navmesh.
pub open spec fn header(y: YnvView, e: Encoded, at: Blocks, total: int, points: int) -> Seq<u8> {
    header_front(y) + header_lists(e, at) + header_rest(y, e, at, total, points)
}

/// The section with its lists, and where they stand.
pub open spec fn with_lists(e: Encoded) -> (Seq<u8>, Blocks) {
    let v = vertex_bytes(e.vertices, e.vertices.len());
    let i = word_bytes(e.indices, e.indices.len());
    let d = edge_bytes(e.edges, e.edges.len());
    let b0 = grown(Seq::empty(), 368);
    let b1 = with_list(b0, LIST_VFT_VERTICES, v, 6);
    let b2 = with_list(b1, LIST_VFT_INDICES, i, 2);
    let b3 = with_list(b2, LIST_VFT_EDGES, d, 8);
    let b4 = with_list(b3, LIST_VFT_POLYS, e.records, 48);
    (
        b4,
        Blocks {
            vertices: address(start_for(b0.len() as int, 48)),
            indices: address(start_for(b1.len() as int, 48)),
            edges: address(start_for(b2.len() as int, 48)),
            polys: address(start_for(b3.len() as int, 48)),
            sectors: address(start_for(b4.len() as int, 96)),
            portals: 0,
            links: 0,
        },
    )
}

/// The section of the polygons, the tree and the portals.
pub open spec fn assembled(y: YnvView, plan: PlanView, e: Encoded) -> Result<Seq<u8>, YnvError> {
    let (b4, at) = with_lists(e);
    let start = TreeState {
        buf: b4,
        used: Seq::new(y.points.len(), |i: int| false),
        points: 0,
        total: 0,
    };
    match with_sector(y, plan, 0, depth_of(y.content_flags), start) {
        Err(x) => Err(x),
        Ok(tree) => {
            let portals = portals_bytes(y.portals, y.portals.len());
            let links = word_bytes(e.links, e.links.len());
            if 28 * y.portals.len() > PAGE_SIZE {
                Err(YnvError::BlockTooLarge((28 * y.portals.len()) as usize))
            } else if 2 * e.links.len() > PAGE_SIZE {
                Err(YnvError::BlockTooLarge((2 * e.links.len()) as usize))
            } else {
                let b5 = if y.portals.len() == 0 {
                    tree.buf
                } else {
                    put(tree.buf, portals)
                };
                let b6 = if e.links.len() == 0 {
                    b5
                } else {
                    put(b5, links)
                };
                let blocks = Blocks {
                    portals: if y.portals.len() == 0 {
                        0
                    } else {
                        address(start_for(tree.buf.len() as int, portals.len() as int))
                    },
                    links: if e.links.len() == 0 {
                        0
                    } else {
                        address(start_for(b5.len() as int, links.len() as int))
                    },
                    ..at
                };
                let total = tree.total + 6 * e.vertices.len() + 2 * e.indices.len() + 8
                    * e.edges.len() + e.records.len() + 28 * y.portals.len();
                Ok(crate::bytes::splice(b6, 0, header(y, e, blocks, total, tree.points)))
            }
        },
    }
}

/// The system section of a navmesh.
pub open spec fn image(y: YnvView, plan: PlanView) -> Result<Seq<u8>, YnvError> {
    if y.polys.len() > 0x3FFF {
        Err(YnvError::TooManyPolys(y.polys.len() as usize))
    } else {
        match with_polys(y, plan, y.polys.len()) {
            Err(x) => Err(x),
            Ok(e) => assembled(y, plan, e),
        }
    }
}

// ─── encoding polygons ───────────────────────────────────────────────────────

/// The key of a position: its three numbers side by side.
spec fn vertex_key(v: NavVertex) -> int {
    v.x + 0x1_0000 * v.y + 0x1_0000_0000 * v.z
}

/// Whether a map tells the place of every vertex by its key.
spec fn places(map: Map<u64, usize>, vertices: Seq<NavVertex>) -> bool {
    &&& forall|i: int|
        0 <= i < vertices.len() ==> map.contains_key(
            #[trigger] (vertex_key(vertices[i]) as u64),
        ) && map[vertex_key(vertices[i]) as u64] == i
    &&& forall|k: u64|
        #[trigger] map.contains_key(k) ==> map[k] < vertices.len() && vertex_key(
            vertices[map[k] as int],
        ) == k
}

proof fn lemma_key(a: NavVertex, b: NavVertex)
    ensures
        vertex_key(a) == vertex_key(b) ==> a == b,
        0 <= vertex_key(a) <= 0xFFFF_FFFF_FFFF,
{
    lemma_key_parts(a);
    lemma_key_parts(b);
}

proof fn lemma_key_parts(v: NavVertex)
    ensures
        vertex_key(v) % 0x1_0000 == v.x,
        vertex_key(v) / 0x1_0000 % 0x1_0000 == v.y,
        vertex_key(v) / 0x1_0000_0000 == v.z,
{
}

proof fn lemma_place<T>(s: Seq<T>, x: T, i: int)
    requires
        0 <= i <= s.len(),
    ensures
        i <= place_of(s, x, i) <= s.len(),
        place_of(s, x, i) < s.len() ==> s[place_of(s, x, i)] == x,
        forall|j: int| i <= j < place_of(s, x, i) ==> s[j] != x,
    decreases s.len() - i,
{
    if i < s.len() && s[i] != x {
        lemma_place(s, x, i + 1);
    }
}

struct Encoder {
    areas: Vec<u32>,
    vertices: Vec<NavVertex>,
    known: HashMap<u64, usize>,
    indices: Vec<u16>,
    edges: Vec<(u32, u32)>,
    links: Vec<u16>,
    records: Vec<u8>,
}

fn find_area(areas: &Vec<u32>, id: u32) -> (i: usize)
    ensures
        i == place_of(areas@, id, 0),
{
    let mut i: usize = 0;
    while i < areas.len()
        invariant
            i <= areas@.len(),
            place_of(areas@, id, 0) == place_of(areas@, id, i as int),
        decreases areas@.len() - i,
    {
        if areas[i] == id {
            return i;
        }
        i += 1;
    }
    i
}

/// The place of an area in the table, which gets it if it is new.
fn ensure_area(areas: &mut Vec<u32>, id: u32) -> (r: Result<usize, YnvError>)
    ensures
        match r {
            Ok(i) => with_area(old(areas)@, id) == Ok::<(Seq<u32>, int), YnvError>(
                (final(areas)@, i as int),
            ),
            Err(e) => with_area(old(areas)@, id) == Err::<(Seq<u32>, int), YnvError>(e),
        },
        r is Ok ==> r->Ok_0 < final(areas)@.len(),
        old(areas)@.len() <= 32 ==> final(areas)@.len() <= 32,
{
    let i = find_area(areas, id);
    proof {
        lemma_place(areas@, id, 0);
    }
    if i < areas.len() {
        Ok(i)
    } else if areas.len() >= MAX_AREAS {
        Err(YnvError::TooManyAreas)
    } else {
        areas.push(id);
        Ok(i)
    }
}

fn encode_end(place: usize, end: NavEdgeEnd) -> (r: u32)
    ensures
        r == end_word(place as int, end),
{
    (place % 32) as u32 + 32 * (end.poly % 0x4000) + 0x8_0000 * (end.unk2 % 4) as u32 + 0x20_0000
        * (end.unk3 % 0x800) as u32
}

fn push_box(out: &mut Vec<u8>, b: NavBox)
    ensures
        final(out)@ == old(out)@ + box_bytes(b),
{
    let ghost start = out@;
    push_u16_le(out, b.min_x as u16);
    push_u16_le(out, b.max_x as u16);
    push_u16_le(out, b.min_y as u16);
    push_u16_le(out, b.max_y as u16);
    push_u16_le(out, b.min_z as u16);
    push_u16_le(out, b.max_z as u16);
    assert(out@ =~= start + box_bytes(b));
}

fn push_zeros(out: &mut Vec<u8>, n: usize)
    ensures
        final(out)@ == old(out)@ + crate::bytes::zeros(n as int),
{
    let ghost start = out@;
    let mut i: usize = 0;
    while i < n
        invariant
            i <= n,
            out@ == start + crate::bytes::zeros(i as int),
        decreases n - i,
    {
        out.push(0);
        i += 1;
        assert(out@ =~= start + crate::bytes::zeros(i as int));
    }
    assert(out@ =~= start + crate::bytes::zeros(n as int));
}

impl Encoder {
    spec fn enc(self) -> Encoded {
        Encoded {
            areas: self.areas@,
            vertices: self.vertices@,
            indices: self.indices@,
            edges: self.edges@,
            links: self.links@,
            records: self.records@,
        }
    }

    spec fn ok(self) -> bool {
        &&& places(self.known@, self.vertices@)
        &&& self.vertices@.len() <= 0x1_0000
        &&& self.areas@.len() <= 32
    }

    fn new(area_id: u32) -> (r: Self)
        requires
            area_id <= 0xFFFF_FFFF - 100,
        ensures
            r.ok(),
            r.enc() == (Encoded {
                areas: first_areas(area_id),
                vertices: Seq::empty(),
                indices: Seq::empty(),
                edges: Seq::empty(),
                links: Seq::empty(),
                records: Seq::empty(),
            }),
    {
        let mut areas: Vec<u32> = Vec::new();
        areas.push(area_id);
        assert(areas@ =~= seq![area_id]);
        let _ = ensure_area(&mut areas, ADJACENT_NONE);
        let _ = ensure_area(&mut areas, area_id.wrapping_sub(100));
        let _ = ensure_area(&mut areas, area_id.wrapping_sub(1));
        let _ = ensure_area(&mut areas, area_id + 1);
        let _ = ensure_area(&mut areas, area_id + 100);
        Encoder {
            areas,
            vertices: Vec::new(),
            known: HashMap::new(),
            indices: Vec::new(),
            edges: Vec::new(),
            links: Vec::new(),
            records: Vec::new(),
        }
    }

    /// The place of a vertex in the list, which gets it if it is new.
    fn vertex(&mut self, v: NavVertex) -> (r: Result<usize, YnvError>)
        requires
            old(self).ok(),
        ensures
            final(self).ok(),
            ({
                let p = place_of(old(self).vertices@, v, 0);
                if p == old(self).vertices@.len() && p > 0xFFFF {
                    r == Err::<usize, YnvError>(YnvError::TooManyVertices)
                } else {
                    &&& r is Ok
                    &&& r->Ok_0 == p
                    &&& p <= 0xFFFF
                    &&& final(self).enc() == (Encoded {
                        vertices: if p < old(self).vertices@.len() {
                            old(self).vertices@
                        } else {
                            old(self).vertices@.push(v)
                        },
                        ..old(self).enc()
                    })
                }
            }),
    {
        let key: u64 = v.x as u64 + 0x1_0000 * v.y as u64 + 0x1_0000_0000 * v.z as u64;
        let ghost before = self.vertices@;
        proof {
            lemma_place(before, v, 0);
            lemma_key(v, v);
            assert forall|i: int| 0 <= i < before.len() && vertex_key(#[trigger] before[i])
                == key implies before[i] == v by {
                lemma_key(before[i], v);
            }
        }
        match self.known.get(&key) {
            Some(i) => {
                let at = *i;
                proof {
                    assert(self.known@.contains_key(key));
                    assert(before[at as int] == v);
                    let p = place_of(before, v, 0);
                    assert(p < before.len());
                    assert(before[p] == v);
                    assert(self.known@[vertex_key(before[p]) as u64] == p);
                }
                Ok(at)
            },
            None => {
                let at = self.vertices.len();
                proof {
                    let p = place_of(before, v, 0);
                    if p < before.len() {
                        assert(before[p] == v);
                        assert(self.known@.contains_key(vertex_key(before[p]) as u64));
                    }
                }
                if at > 0xFFFF {
                    return Err(YnvError::TooManyVertices);
                }
                let ghost was = self.known@;
                self.vertices.push(v);
                self.known.insert(key, at);
                proof {
                    let now = self.known@;
                    assert(now == was.insert(key, at));
                    assert forall|i: int| 0 <= i < self.vertices@.len() implies now.contains_key(
                        #[trigger] (vertex_key(self.vertices@[i]) as u64),
                    ) && now[vertex_key(self.vertices@[i]) as u64] == i by {
                        lemma_key(self.vertices@[i], v);
                        if i < before.len() {
                            assert(self.vertices@[i] == before[i]);
                            assert(was.contains_key(vertex_key(before[i]) as u64));
                        }
                    }
                    assert forall|k: u64| #[trigger] now.contains_key(k) implies now[k]
                        < self.vertices@.len() && vertex_key(self.vertices@[now[k] as int]) == k by {
                        if k != key {
                            assert(was.contains_key(k));
                            assert(self.vertices@[was[k] as int] == before[was[k] as int]);
                        }
                    }
                }
                Ok(at)
            },
        }
    }

    fn corner(&mut self, v: NavVertex, edge: NavEdge) -> (r: Result<(), YnvError>)
        requires
            old(self).ok(),
        ensures
            final(self).ok(),
            match r {
                Ok(_) => with_corner(old(self).enc(), v, edge) == Ok::<Encoded, YnvError>(
                    final(self).enc(),
                ),
                Err(e) => with_corner(old(self).enc(), v, edge) == Err::<Encoded, YnvError>(e),
            },
    {
        let i = match self.vertex(v) {
            Ok(i) => i,
            Err(e) => {
                return Err(e);
            },
        };
        self.indices.push(i as u16);
        let a = match ensure_area(&mut self.areas, edge.a.area_id) {
            Ok(a) => a,
            Err(e) => {
                return Err(e);
            },
        };
        let b = match ensure_area(&mut self.areas, edge.b.area_id) {
            Ok(b) => b,
            Err(e) => {
                return Err(e);
            },
        };
        self.edges.push((encode_end(a, edge.a), encode_end(b, edge.b)));
        Ok(())
    }

    fn corners(&mut self, p: &NavPoly) -> (r: Result<(), YnvError>)
        requires
            old(self).ok(),
        ensures
            final(self).ok(),
            match r {
                Ok(_) => with_corners(old(self).enc(), p@, p@.vertices.len()) == Ok::<
                    Encoded,
                    YnvError,
                >(final(self).enc()),
                Err(e) => with_corners(old(self).enc(), p@, p@.vertices.len()) == Err::<
                    Encoded,
                    YnvError,
                >(e),
            },
    {
        let ghost e0 = self.enc();
        let mut k: usize = 0;
        while k < p.vertices.len()
            invariant
                k <= p.vertices@.len(),
                self.ok(),
                e0 == old(self).enc(),
                with_corners(e0, p@, k as nat) == Ok::<Encoded, YnvError>(self.enc()),
            decreases p.vertices@.len() - k,
        {
            let edge = if k < p.edges.len() {
                p.edges[k]
            } else {
                NavEdge::none()
            };
            match self.corner(p.vertices[k], edge) {
                Ok(_) => {},
                Err(x) => {
                    proof {
                        lemma_corners_err(e0, p@, (k + 1) as nat, p@.vertices.len());
                    }
                    return Err(x);
                },
            }
            k += 1;
        }
        Ok(())
    }

    fn poly(&mut self, p: &NavPoly, area_id: u32, cell: NavBox, poly: usize) -> (r: Result<
        (),
        YnvError,
    >)
        requires
            old(self).ok(),
        ensures
            final(self).ok(),
            match r {
                Ok(_) => with_poly(old(self).enc(), p@, area_id, cell, poly as int) == Ok::<
                    Encoded,
                    YnvError,
                >(final(self).enc()),
                Err(e) => with_poly(old(self).enc(), p@, area_id, cell, poly as int) == Err::<
                    Encoded,
                    YnvError,
                >(e),
            },
    {
        let ghost e0 = self.enc();
        let count = p.vertices.len();
        if count < 3 || count > 0x7FF {
            return Err(YnvError::PolyVertices { poly, count });
        }
        let start = self.indices.len();
        if start > 0xFFFF {
            return Err(YnvError::TooManyIndices);
        }
        match self.corners(p) {
            Ok(_) => {},
            Err(e) => {
                return Err(e);
            },
        }
        let ghost c = self.enc();
        proof {
            lemma_corners_keep(e0, p@, p@.vertices.len());
        }
        let links = p.portal_links.len();
        if links > 7 {
            return Err(YnvError::TooManyLinks(poly));
        }
        let link_start = self.links.len();
        let mut i: usize = 0;
        while i < links
            invariant
                i <= links == p.portal_links@.len(),
                self.ok(),
                self.enc() == (Encoded { links: e0.links + p.portal_links@.take(i as int), ..c }),
            decreases links - i,
        {
            let ghost was = self.links@;
            self.links.push(p.portal_links[i]);
            i += 1;
            assert(self.links@ =~= e0.links + p.portal_links@.take(i as int));
        }
        assert(p.portal_links@.take(links as int) =~= p.portal_links@);
        let ghost had = self.records@;
        push_u16_le(&mut self.records, p.flags0);
        push_u16_le(&mut self.records, 32 * count as u16);
        push_u16_le(&mut self.records, start as u16);
        push_u16_le(&mut self.records, area_id as u16);
        push_zeros(&mut self.records, 16);
        push_box(&mut self.records, cell);
        push_u32_le(&mut self.records, p.flags1);
        push_u32_le(&mut self.records, p.flags2);
        let part = (poly / 341 % 0x100) as u32;
        let flags: u32 = 16 * part + 0x1000 * (links % 8) as u32 + 0x8000 * (link_start
            % 0x2_0000) as u32;
        push_u32_le(&mut self.records, flags);
        assert(flags == part_flags(poly as int, links as int, link_start as int));
        assert(self.records@ =~= had + poly_record(
            p@,
            area_id,
            cell,
            poly as int,
            start as int,
            link_start as int,
        ));
        Ok(())
    }
}

proof fn lemma_corners_err(e: Encoded, p: PolyView, j: nat, k: nat)
    requires
        j <= k,
        with_corners(e, p, j) is Err,
    ensures
        with_corners(e, p, k) == with_corners(e, p, j),
    decreases k,
{
    if j < k {
        lemma_corners_err(e, p, j, (k - 1) as nat);
    }
}

/// The corners of a polygon touch neither the links nor the records.
proof fn lemma_corners_keep(e: Encoded, p: PolyView, k: nat)
    requires
        with_corners(e, p, k) is Ok,
    ensures
        (with_corners(e, p, k)->Ok_0).links == e.links,
        (with_corners(e, p, k)->Ok_0).records == e.records,
    decreases k,
{
    if k > 0 {
        lemma_corners_keep(e, p, (k - 1) as nat);
    }
}

proof fn lemma_polys_err(y: YnvView, plan: PlanView, j: nat, k: nat)
    requires
        j <= k,
        with_polys(y, plan, j) is Err,
    ensures
        with_polys(y, plan, k) == with_polys(y, plan, j),
    decreases k,
{
    if j < k {
        lemma_polys_err(y, plan, j, (k - 1) as nat);
    }
}

fn encode_polys(y: &Ynv, plan: &NavPlan) -> (r: Result<Encoder, YnvError>)
    requires
        plan_fits(y@, plan@),
        y.area_id <= 0xFFFF_FFFF - 100,
    ensures
        match r {
            Ok(e) => e.ok() && with_polys(y@, plan@, y@.polys.len()) == Ok::<Encoded, YnvError>(
                e.enc(),
            ),
            Err(x) => with_polys(y@, plan@, y@.polys.len()) == Err::<Encoded, YnvError>(x),
        },
{
    let mut e = Encoder::new(y.area_id);
    let mut k: usize = 0;
    while k < y.polys.len()
        invariant
            k <= y.polys@.len(),
            plan_fits(y@, plan@),
            e.ok(),
            with_polys(y@, plan@, k as nat) == Ok::<Encoded, YnvError>(e.enc()),
        decreases y.polys@.len() - k,
    {
        assert(y@.polys[k as int] == y.polys@[k as int]@);
        match e.poly(&y.polys[k], y.area_id, plan.cells[k], k) {
            Ok(_) => {},
            Err(x) => {
                proof {
                    lemma_polys_err(y@, plan@, (k + 1) as nat, y@.polys.len());
                }
                return Err(x);
            },
        }
        k += 1;
    }
    Ok(e)
}

fn push_position(out: &mut Vec<u8>, v: NavVertex)
    ensures
        final(out)@ == old(out)@ + position_bytes(v),
{
    let ghost start = out@;
    push_u16_le(out, v.x);
    push_u16_le(out, v.y);
    push_u16_le(out, v.z);
    assert(out@ =~= start + position_bytes(v));
}

fn vertices_to_bytes(v: &Vec<NavVertex>) -> (out: Vec<u8>)
    ensures
        out@ == vertex_bytes(v@, v@.len()),
{
    let mut out: Vec<u8> = Vec::new();
    let mut k: usize = 0;
    while k < v.len()
        invariant
            k <= v@.len(),
            out@ == vertex_bytes(v@, k as nat),
        decreases v@.len() - k,
    {
        push_position(&mut out, v[k]);
        k += 1;
    }
    out
}

fn words_to_bytes(v: &Vec<u16>) -> (out: Vec<u8>)
    ensures
        out@ == word_bytes(v@, v@.len()),
{
    let mut out: Vec<u8> = Vec::new();
    let mut k: usize = 0;
    while k < v.len()
        invariant
            k <= v@.len(),
            out@ == word_bytes(v@, k as nat),
        decreases v@.len() - k,
    {
        push_u16_le(&mut out, v[k]);
        k += 1;
    }
    out
}

fn edges_to_bytes(v: &Vec<(u32, u32)>) -> (out: Vec<u8>)
    ensures
        out@ == edge_bytes(v@, v@.len()),
{
    let mut out: Vec<u8> = Vec::new();
    let mut k: usize = 0;
    while k < v.len()
        invariant
            k <= v@.len(),
            out@ == edge_bytes(v@, k as nat),
        decreases v@.len() - k,
    {
        push_u32_le(&mut out, v[k].0);
        push_u32_le(&mut out, v[k].1);
        k += 1;
        assert(out@ =~= edge_bytes(v@, k as nat));
    }
    out
}

fn portals_to_bytes(v: &Vec<NavPortal>) -> (out: Vec<u8>)
    ensures
        out@ == portals_bytes(v@, v@.len()),
{
    let mut out: Vec<u8> = Vec::new();
    let mut k: usize = 0;
    while k < v.len()
        invariant
            k <= v@.len(),
            out@ == portals_bytes(v@, k as nat),
        decreases v@.len() - k,
    {
        let p = v[k];
        let ghost before = out@;
        out.push(p.kind);
        out.push(p.angle);
        push_u16_le(&mut out, p.flags_unk);
        push_position(&mut out, p.from);
        push_position(&mut out, p.to);
        push_u16_le(&mut out, p.poly_from);
        push_u16_le(&mut out, p.poly_from);
        push_u16_le(&mut out, p.poly_to);
        push_u16_le(&mut out, p.poly_to);
        let flags: u32 = (p.area_from % 0x4000) as u32 + 0x4000 * (p.area_to % 0x4000) as u32
            + 0x1000_0000 * (p.area_unk % 16) as u32;
        push_u32_le(&mut out, flags);
        k += 1;
        assert(out@ =~= before + portal_bytes(p));
    }
    out
}

fn points_to_bytes(v: &Vec<NavPoint>) -> (out: Vec<u8>)
    ensures
        out@ == points_bytes(v@, v@.len()),
{
    let mut out: Vec<u8> = Vec::new();
    let mut k: usize = 0;
    while k < v.len()
        invariant
            k <= v@.len(),
            out@ == points_bytes(v@, k as nat),
        decreases v@.len() - k,
    {
        let ghost before = out@;
        push_position(&mut out, v[k].position);
        out.push(v[k].angle);
        out.push(v[k].kind);
        assert(out@ =~= before + point_bytes(v@[k as int]));
        k += 1;
    }
    out
}

// ─── laying blocks out ───────────────────────────────────────────────────────

/// Page-aware, 16-byte-aligned system-section layout with pointer patching.
struct BlockWriter {
    buf: Vec<u8>,
}

fn address_of(offset: usize) -> (r: u64)
    ensures
        r == address(offset as int),
{
    (SYSTEM_BASE as u128 + offset as u128) as u64
}

/// A block never straddles the boundary of a page, and overlaps nothing that
/// was written before it.
pub proof fn law_blocks_stay_in_pages(len: int, size: int)
    requires
        0 <= len,
        0 <= size <= 0x4000,
    ensures
        len <= start_for(len, size),
        start_for(len, size) % 16 == 0,
        start_for(len, size) % 0x4000 + size <= 0x4000,
        start_for(len, size) < len + 16 + 0x4000,
{
    reveal(start_for);
}

fn list_header_to_bytes(vft: u32, count: u32, parts: u64, firsts: u64, part_count: u32) -> (h: Vec<
    u8,
>)
    ensures
        h@ == list_header(vft, count as int, parts, firsts, part_count as int),
        h@.len() == 48,
{
    proof {
        reveal(list_header);
    }
    let mut h: Vec<u8> = Vec::new();
    push_u32_le(&mut h, vft);
    push_u32_le(&mut h, 1);
    push_u32_le(&mut h, count);
    push_u32_le(&mut h, 0);
    push_u64_le(&mut h, parts);
    push_u64_le(&mut h, firsts);
    push_u32_le(&mut h, part_count);
    push_zeros(&mut h, 12);
    assert(crate::bytes::le32_bytes(0) =~= crate::bytes::zeros(4));
    assert(h@ =~= list_header(vft, count as int, parts, firsts, part_count as int));
    h
}

impl BlockWriter {
    /// Reserves `size` zeroed bytes, never across a page boundary, and
    /// returns where they start.
    fn reserve(&mut self, size: usize) -> (start: usize)
        requires
            size <= PAGE_SIZE,
        ensures
            start == start_for(old(self).buf@.len() as int, size as int),
            final(self).buf@ == grown(old(self).buf@, size as int),
    {
        let ghost before = self.buf@;
        let ghost len = self.buf@.len() as int;
        proof {
            law_blocks_stay_in_pages(len, size as int);
            reveal(start_for);
        }
        let ghost aligned = (len + 15) / 16 * 16;
        while self.buf.len() % 16 != 0
            invariant
                len <= self.buf@.len() <= aligned,
                aligned == (len + 15) / 16 * 16,
                self.buf@ == before + crate::bytes::zeros(self.buf@.len() - len),
                before.len() == len,
            decreases aligned - self.buf@.len(),
        {
            self.buf.push(0);
            assert(self.buf@ =~= before + crate::bytes::zeros(self.buf@.len() - len));
        }
        assert(self.buf@.len() == aligned);
        let over = self.buf.len() % PAGE_SIZE;
        if over + size > PAGE_SIZE {
            let ghost top = aligned - over + 0x4000;
            while self.buf.len() % PAGE_SIZE != 0
                invariant
                    0 < over < 0x4000,
                    over == aligned % 0x4000,
                    top == aligned - over + 0x4000,
                    len <= aligned <= self.buf@.len() <= top,
                    self.buf@ == before + crate::bytes::zeros(self.buf@.len() - len),
                    before.len() == len,
                decreases top - self.buf@.len(),
            {
                self.buf.push(0);
                assert(self.buf@ =~= before + crate::bytes::zeros(self.buf@.len() - len));
            }
            assert(self.buf@.len() == top);
        }
        let start = self.buf.len();
        assert(start == start_for(len, size as int));
        push_zeros(&mut self.buf, size);
        assert(self.buf@ =~= grown(before, size as int));
        start
    }

    fn write_block(&mut self, bytes: &[u8]) -> (start: usize)
        requires
            bytes@.len() <= PAGE_SIZE,
        ensures
            start == start_for(old(self).buf@.len() as int, bytes@.len() as int),
            final(self).buf@ == put(old(self).buf@, bytes@),
    {
        let ghost before = self.buf@;
        let start = self.reserve(bytes.len());
        proof {
            law_blocks_stay_in_pages(before.len() as int, bytes@.len() as int);
        }
        put_bytes(&mut self.buf, start, bytes);
        assert(self.buf@ =~= put(before, bytes@));
        start
    }

    fn patch(&mut self, start: usize, bytes: &[u8])
        requires
            start + bytes@.len() <= old(self).buf@.len(),
        ensures
            final(self).buf@ == crate::bytes::splice(old(self).buf@, start as int, bytes@),
    {
        put_bytes(&mut self.buf, start, bytes);
    }

    /// The parts of a list, their records, and the number of the first item
    /// of each.
    #[verifier::rlimit(60)]
    fn write_parts(&mut self, items: &Vec<u8>, item: usize, size: usize, n: usize) -> (r: (
        Vec<u8>,
        Vec<u8>,
    ))
        requires
            item == 2 || item == 6 || item == 8 || item == 48,
            size == part_size(item as int),
            16368 <= size <= 16384,
            n <= 1024,
            n == part_count(items@.len() as int, item as int),
            items@.len() <= 0x100_0000,
        ensures
            (final(self).buf@, r.0@, r.1@) == with_parts(
                old(self).buf@,
                items@,
                item as int,
                n as nat,
            ),
            r.0@.len() == 16 * n,
            r.1@.len() == 4 * n,
            old(self).buf@.len() <= final(self).buf@.len(),
    {
        let ghost b2 = self.buf@;
        let per: usize = 16384 / item;
        proof {
            lemma_part_size(item as int);
            crate::resource::lemma_ceil_div(items@.len() as int, size as int);
            assert(n > 0 ==> (n - 1) * size < items@.len() <= n * size) by (nonlinear_arith)
                requires
                    items@.len() <= size * n < items@.len() + size,
            ;
        }
        let mut records: Vec<u8> = Vec::new();
        let mut firsts: Vec<u8> = Vec::new();
        let mut k: usize = 0;
        let mut at: usize = 0;
        while k < n
            invariant
                k <= n <= 1024,
                item == 2 || item == 6 || item == 8 || item == 48,
                size == part_size(item as int),
                16368 <= size <= 16384,
                per == 16384int / (item as int),
                0 < per <= 8192,
                n == part_count(items@.len() as int, item as int),
                at == k * size,
                n > 0 ==> (n - 1) * size < items@.len() <= n * size,
                items@.len() <= 0x100_0000,
                records@.len() == 16 * k,
                firsts@.len() == 4 * k,
                b2.len() <= self.buf@.len(),
                (self.buf@, records@, firsts@) == with_parts(b2, items@, item as int, k as nat),
            decreases n - k,
        {
            let ghost had = self.buf@;
            let ghost recs = records@;
            let ghost offs = firsts@;
            assert((k + 1) * size == k * size + size) by (nonlinear_arith);
            assert(k < n - 1 ==> (k + 1) * size <= (n - 1) * size) by (nonlinear_arith)
                requires
                    size > 0,
            ;
            assert(k <= n - 1 ==> k * size <= (n - 1) * size) by (nonlinear_arith)
                requires
                    size > 0,
            ;
            assert(at + size <= 1025 * 16384) by (nonlinear_arith)
                requires
                    at == k * size,
                    k <= 1024,
                    size <= 16384,
            ;
            let end: usize = if at + size < items.len() {
                at + size
            } else {
                items.len()
            };
            let part = slice_subrange(items.as_slice(), at, end);
            assert(part@ =~= part_at(items@, item as int, k as int));
            proof {
                law_blocks_stay_in_pages(had.len() as int, part@.len() as int);
            }
            let place = self.write_block(part);
            push_u64_le(&mut records, address_of(place));
            let count = part.len() / item;
            push_u32_le(&mut records, count as u32);
            push_u32_le(&mut records, 0);
            assert(k * per <= 1024 * 8192) by (nonlinear_arith)
                requires
                    k <= 1024,
                    per <= 8192,
            ;
            push_u32_le(&mut firsts, (k * per) as u32);
            assert(crate::bytes::le32_bytes(0) =~= crate::bytes::zeros(4));
            assert(records@ =~= recs + (crate::bytes::le64_bytes(address(place as int)) + crate::bytes::le32_bytes(count as u32)
                + crate::bytes::zeros(4)));
            at = at + size;
            k += 1;
        }
        (records, firsts)
    }

    /// A `NavMeshList<T>`: header, parts of at most 16 KiB, offsets table.
    #[verifier::rlimit(60)]
    fn write_list(&mut self, vft: u32, items: &Vec<u8>, item: usize) -> (start: usize)
        requires
            item == 2 || item == 6 || item == 8 || item == 48,
            items@.len() <= 0x100_0000 - 0x4000,
        ensures
            start == start_for(old(self).buf@.len() as int, 48),
            final(self).buf@ == with_list(old(self).buf@, vft, items@, item as int),
    {
        let ghost before = self.buf@;
        proof {
            reveal(with_list);
            law_blocks_stay_in_pages(before.len() as int, 48);
            lemma_part_size(item as int);
        }
        let header = self.reserve(LIST_SIZE);
        let ghost b1 = self.buf@;
        let size: usize = if item == 6 {
            16380
        } else if item == 48 {
            16368
        } else {
            16384
        };
        assert(size == part_size(item as int));
        let n: usize = (items.len() + (size - 1)) / size;
        assert(n == part_count(items@.len() as int, item as int)) by {
            crate::resource::lemma_ceil_div(items@.len() as int, size as int);
        }
        assert(n <= 1024) by (nonlinear_arith)
            requires
                n == (items@.len() + (size - 1)) / (size as int),
                items@.len() <= 0x100_0000 - 0x4000,
                16368 <= size <= 16384,
        ;
        proof {
            law_blocks_stay_in_pages(b1.len() as int, 16 * n);
        }
        let table = self.reserve(n * LIST_PART_SIZE);
        let ghost b2 = self.buf@;
        let (records, firsts) = self.write_parts(items, item, size, n);
        let ghost b3 = self.buf@;
        self.patch(table, records.as_slice());
        let ghost b4 = self.buf@;
        let mut firsts_at: u64 = 0;
        if n > 0 {
            proof {
                law_blocks_stay_in_pages(b4.len() as int, firsts@.len() as int);
            }
            let place = self.write_block(firsts.as_slice());
            firsts_at = address_of(place);
        }
        let ghost b5 = self.buf@;
        let count = items.len() / item;
        let h = list_header_to_bytes(vft, count as u32, address_of(table), firsts_at, n as u32);
        self.patch(header, h.as_slice());
        header
    }
}

/// How large the parts of the four lists are.
pub proof fn lemma_part_size(item: int)
    requires
        item == 2 || item == 6 || item == 8 || item == 48,
    ensures
        part_size(item) == (if item == 6 {
            16380int
        } else if item == 48 {
            16368
        } else {
            16384
        }),
        0 < 16384int / item <= 8192,
{
    reveal(part_size);
}

// ─── the sector tree ─────────────────────────────────────────────────────────

struct TreeWriter<'y> {
    y: &'y Ynv,
    plan: &'y NavPlan,
    w: BlockWriter,
    used: Vec<bool>,
    points: u32,
    total: u64,
}

fn ids_in(cells: &Vec<NavBox>, cell: NavBox) -> (out: Vec<u16>)
    ensures
        out@ == polys_in(cells@, cell, cells@.len()),
{
    let mut out: Vec<u16> = Vec::new();
    let mut k: usize = 0;
    while k < cells.len()
        invariant
            k <= cells@.len(),
            out@ == polys_in(cells@, cell, k as nat),
        decreases cells@.len() - k,
    {
        let b = cells[k];
        if b.max_x >= cell.min_x && b.min_x <= cell.max_x && b.max_y >= cell.min_y && b.min_y
            <= cell.max_y {
            out.push(k as u16);
        }
        k += 1;
    }
    out
}

fn push_vec3(out: &mut Vec<u8>, v: Vec3)
    ensures
        final(out)@ == old(out)@ + vec3_bytes(v),
{
    let ghost start = out@;
    push_u32_le(out, v.x);
    push_u32_le(out, v.y);
    push_u32_le(out, v.z);
    assert(out@ =~= start + vec3_bytes(v));
}

fn sector_to_bytes(b: SectorBox, data: u64, subs: &Vec<u64>) -> (out: Vec<u8>)
    requires
        subs@.len() == 4,
    ensures
        out@ == sector_bytes(b, data, subs@),
        out@.len() == 96,
{
    proof {
        reveal(sector_bytes);
    }
    let mut out: Vec<u8> = Vec::new();
    push_vec3(&mut out, b.min);
    push_u32_le(&mut out, NOT_A_NUMBER);
    push_vec3(&mut out, b.max);
    push_u32_le(&mut out, NOT_A_NUMBER);
    push_box(&mut out, b.cell);
    assert(out@ =~= sector_head(b));
    push_u64_le(&mut out, data);
    push_u64_le(&mut out, subs[0]);
    push_u64_le(&mut out, subs[1]);
    push_u64_le(&mut out, subs[2]);
    push_u64_le(&mut out, subs[3]);
    push_zeros(&mut out, 12);
    assert(out@ =~= sector_bytes(b, data, subs@));
    out
}

impl<'y> TreeWriter<'y> {
    spec fn st(self) -> TreeState {
        TreeState {
            buf: self.w.buf@,
            used: self.used@,
            points: self.points as int,
            total: self.total as int,
        }
    }

    /// Room for `left` more sectors.
    spec fn ok(self, left: int) -> bool {
        &&& plan_fits(self.y@, self.plan@)
        &&& self.used@.len() == self.y.points@.len()
        &&& 0 <= left
        &&& self.points + 0x1000 * left <= 0x100_0000
        &&& self.total + 0x1_0000 * left <= 0x1000_0000
    }

    spec fn kept(self, before: Self) -> bool {
        &&& self.y == before.y
        &&& self.plan == before.plan
    }

    /// The points that go into a sector.
    fn take_points(&mut self, b: SectorBox) -> (out: Vec<NavPoint>)
        requires
            plan_fits(old(self).y@, old(self).plan@),
            old(self).used@.len() == old(self).y.points@.len(),
        ensures
            final(self).kept(*old(self)),
            final(self).w == old(self).w,
            final(self).points == old(self).points,
            final(self).total == old(self).total,
            final(self).used@.len() == old(self).used@.len(),
            (out@, final(self).used@) == points_in(
                old(self).y@.points,
                old(self).plan@.positions,
                b,
                old(self).used@,
                old(self).y@.points.len(),
            ),
    {
        let ghost before = *self;
        let y = self.y;
        let plan = self.plan;
        let mut out: Vec<NavPoint> = Vec::new();
        let mut k: usize = 0;
        while k < y.points.len()
            invariant
                k <= y.points@.len(),
                y == before.y,
                plan == before.plan,
                self.kept(before),
                self.w == before.w,
                self.points == before.points,
                self.total == before.total,
                plan_fits(y@, plan@),
                self.used@.len() == y.points@.len(),
                (out@, self.used@) == points_in(
                    y.points@,
                    plan.positions@,
                    b,
                    before.used@,
                    k as nat,
                ),
            decreases y.points@.len() - k,
        {
            let p = plan.positions[k];
            if !self.used[k] && single_at_least(p.x, b.min.x) && single_at_least(b.max.x, p.x)
                && single_at_least(p.y, b.min.y) && single_at_least(b.max.y, p.y) {
                self.used.set(k, true);
                out.push(y.points[k]);
            }
            k += 1;
        }
        out
    }

    #[verifier::rlimit(60)]
    fn leaf(&mut self, b: SectorBox) -> (r: Result<(), YnvError>)
        requires
            old(self).ok(1),
            old(self).plan.cells@.len() <= 0x3FFF,
        ensures
            final(self).kept(*old(self)),
            match r {
                Ok(_) => {
                    &&& with_leaf(old(self).y@, old(self).plan@, b, old(self).st()) == Ok::<
                        TreeState,
                        YnvError,
                    >(final(self).st())
                    &&& final(self).used@.len() == old(self).used@.len()
                    &&& final(self).points <= old(self).points + 0x1000
                    &&& final(self).total <= old(self).total + 0x1_0000
                },
                Err(e) => with_leaf(old(self).y@, old(self).plan@, b, old(self).st()) == Err::<
                    TreeState,
                    YnvError,
                >(e),
            },
    {
        let ghost st0 = self.st();
        proof {
            reveal(with_leaf);
            law_blocks_stay_in_pages(self.w.buf@.len() as int, 96);
        }
        let node = self.w.reserve(SECTOR_SIZE);
        let ghost b1 = self.w.buf@;
        let ids = ids_in(&self.plan.cells, b.cell);
        let points = self.take_points(b);
        proof {
            lemma_ids_bound(self.plan.cells@, b.cell, self.plan.cells@.len());
            assert(ids@.len() <= 0x3FFF);
        }
        if 2 * ids.len() > PAGE_SIZE {
            return Err(YnvError::BlockTooLarge(2 * ids.len()));
        }
        if points.len() > PAGE_SIZE / 8 {
            proof {
                lemma_points_bound(
                    self.y.points@,
                    self.plan.positions@,
                    b,
                    st0.used,
                    self.y.points@.len(),
                );
            }
            return Err(
                YnvError::BlockTooLarge((8 * points.len() as u128) as usize),
            );
        }
        let id_bytes = words_to_bytes(&ids);
        let at_bytes = points_to_bytes(&points);
        proof {
            lemma_word_len(ids@, ids@.len());
            lemma_point_len(points@, points@.len());
        }
        let mut ids_at: u64 = 0;
        if ids.len() > 0 {
            proof {
                law_blocks_stay_in_pages(self.w.buf@.len() as int, id_bytes@.len() as int);
            }
            let place = self.w.write_block(id_bytes.as_slice());
            ids_at = address_of(place);
        }
        let ghost b2 = self.w.buf@;
        let mut points_at: u64 = 0;
        if points.len() > 0 {
            proof {
                law_blocks_stay_in_pages(self.w.buf@.len() as int, at_bytes@.len() as int);
            }
            let place = self.w.write_block(at_bytes.as_slice());
            points_at = address_of(place);
        }
        let ghost b3 = self.w.buf@;
        let mut d: Vec<u8> = Vec::new();
        push_u32_le(&mut d, self.points);
        push_u32_le(&mut d, 0);
        push_u64_le(&mut d, ids_at);
        push_u64_le(&mut d, points_at);
        push_u16_le(&mut d, ids.len() as u16);
        push_u16_le(&mut d, points.len() as u16);
        push_u32_le(&mut d, 0);
        assert(crate::bytes::le32_bytes(0) =~= crate::bytes::zeros(4));
        assert(d@ =~= sector_data(
            st0.points,
            ids_at,
            points_at,
            ids@.len() as int,
            points@.len() as int,
        ));
        proof {
            law_blocks_stay_in_pages(self.w.buf@.len() as int, 32);
        }
        let data = self.w.write_block(d.as_slice());
        let mut subs: Vec<u64> = Vec::new();
        subs.push(0);
        subs.push(0);
        subs.push(0);
        subs.push(0);
        assert(subs@ =~= seq![0u64, 0, 0, 0]);
        let s = sector_to_bytes(b, address_of(data), &subs);
        self.w.patch(node, s.as_slice());
        self.points = self.points + points.len() as u32;
        self.total = self.total + 96 + 32 + 2 * ids.len() as u64 + 8 * points.len() as u64;
        Ok(())
    }

    /// Writes a sector and all below it.
    #[verifier::rlimit(100)]
    fn sector(&mut self, i: usize, depth: u32) -> (r: Result<(), YnvError>)
        requires
            depth <= 2,
            old(self).ok(sector_count(depth as nat) as int),
            old(self).plan.cells@.len() <= 0x3FFF,
            i + sector_count(depth as nat) <= old(self).plan.sectors@.len() <= 21,
        ensures
            final(self).kept(*old(self)),
            match r {
                Ok(_) => {
                    &&& with_sector(
                        old(self).y@,
                        old(self).plan@,
                        i as int,
                        depth as nat,
                        old(self).st(),
                    ) == Ok::<TreeState, YnvError>(final(self).st())
                    &&& final(self).used@.len() == old(self).used@.len()
                    &&& old(self).w.buf@.len() <= final(self).w.buf@.len()
                    &&& final(self).points <= old(self).points + 0x1000 * sector_count(
                        depth as nat,
                    )
                    &&& final(self).total <= old(self).total + 0x1_0000 * sector_count(
                        depth as nat,
                    )
                },
                Err(e) => with_sector(
                    old(self).y@,
                    old(self).plan@,
                    i as int,
                    depth as nat,
                    old(self).st(),
                ) == Err::<TreeState, YnvError>(e),
            },
        decreases depth,
    {
        let ghost before = *self;
        let ghost y = self.y@;
        let ghost plan = self.plan@;
        proof {
            reveal_with_fuel(sector_count, 3);
            law_blocks_stay_in_pages(self.w.buf@.len() as int, 96);
        }
        let b = self.plan.sectors[i];
        if depth == 0 {
            let r = self.leaf(b);
            proof {
                if r is Ok {
                    lemma_leaf_grows(y, plan, b, before.st());
                }
            }
            return r;
        }
        let node = self.w.reserve(SECTOR_SIZE);
        self.total = self.total + 96;
        let ghost started = self.st();
        let ghost each = sector_count((depth - 1) as nat);
        let step: usize = if depth == 1 {
            1
        } else {
            5
        };
        let mut subs: Vec<u64> = Vec::new();
        let mut k: usize = 0;
        let mut done: usize = 0;
        while k < 4
            invariant
                k <= 4,
                1 <= depth <= 2,
                each == sector_count((depth - 1) as nat),
                each == step,
                step == 1 || step == 5,
                done == k * step,
                done <= 4 * step,
                y == before.y@,
                plan == before.plan@,
                self.kept(before),
                before == *old(self),
                started == (TreeState {
                    buf: grown(before.st().buf, 96),
                    total: before.st().total + 96,
                    ..before.st()
                }),
                i + 1 + 4 * step <= plan.sectors.len() <= 21,
                plan.cells.len() <= 0x3FFF,
                plan_fits(y, plan),
                self.used@.len() == y.points.len(),
                self.points <= before.points + 0x1000 * done,
                self.total <= before.total + 96 + 0x1_0000 * done,
                before.points + 0x1000 * (1 + 4 * step) <= 0x100_0000,
                before.total + 0x1_0000 * (1 + 4 * step) <= 0x1000_0000,
                subs@.len() == k,
                started.buf.len() <= self.w.buf@.len(),
                with_quads(y, plan, i as int, depth as nat, started, k as nat) == Ok::<
                    (TreeState, Seq<u64>),
                    YnvError,
                >((self.st(), subs@)),
            decreases 4 - k,
        {
            let ghost had = self.st();
            assert(k * step + step <= 4 * step && (k + 1) * step == k * step + step)
                by (nonlinear_arith)
                requires
                    k < 4,
                    step > 0,
            ;
            let place = self.w.buf.len();
            match self.sector(i + 1 + done, depth - 1) {
                Ok(_) => {},
                Err(e) => {
                    proof {
                        assert(with_quads(y, plan, i as int, depth as nat, started, (k + 1) as nat)
                            is Err);
                        lemma_quads_err(
                            y,
                            plan,
                            i as int,
                            depth as nat,
                            started,
                            (k + 1) as nat,
                            4,
                        );
                        assert(with_quads(y, plan, i as int, depth as nat, started, 4) == Err::<
                            (TreeState, Seq<u64>),
                            YnvError,
                        >(e));
                    }
                    return Err(e);
                },
            }
            subs.push(start_address(place, SECTOR_SIZE));
            k += 1;
            done = done + step;
        }
        let s = sector_to_bytes(b, 0, &subs);
        self.w.patch(node, s.as_slice());
        Ok(())
    }
}

/// The address at which a block of this size goes.
fn start_address(len: usize, size: usize) -> (r: u64)
    requires
        size <= PAGE_SIZE,
    ensures
        r == address(start_for(len as int, size as int)),
{
    proof {
        reveal(start_for);
    }
    let aligned: u128 = (len as u128 + 15) / 16 * 16;
    let over: u128 = aligned % 0x4000;
    let start: u128 = if over + size as u128 > 0x4000 {
        aligned - over + 0x4000
    } else {
        aligned
    };
    (SYSTEM_BASE as u128 + start) as u64
}

proof fn lemma_quads_err(
    y: YnvView,
    plan: PlanView,
    i: int,
    depth: nat,
    st: TreeState,
    j: nat,
    k: nat,
)
    requires
        j <= k <= 4,
        depth > 0,
        with_quads(y, plan, i, depth, st, j) is Err,
    ensures
        with_quads(y, plan, i, depth, st, k) == with_quads(y, plan, i, depth, st, j),
    decreases k,
{
    if j < k {
        lemma_quads_err(y, plan, i, depth, st, j, (k - 1) as nat);
    }
}

proof fn lemma_leaf_grows(y: YnvView, plan: PlanView, b: SectorBox, st: TreeState)
    requires
        with_leaf(y, plan, b, st) is Ok,
    ensures
        st.buf.len() <= (with_leaf(y, plan, b, st)->Ok_0).buf.len(),
{
    reveal(with_leaf);
    reveal(start_for);
    let ids = polys_in(plan.cells, b.cell, plan.cells.len());
    let (points, used) = points_in(y.points, plan.positions, b, st.used, y.points.len());
    lemma_word_len(ids, ids.len());
    lemma_point_len(points, points.len());
}

proof fn lemma_ids_bound(cells: Seq<NavBox>, cell: NavBox, k: nat)
    ensures
        polys_in(cells, cell, k).len() <= k,
    decreases k,
{
    if k > 0 {
        lemma_ids_bound(cells, cell, (k - 1) as nat);
    }
}

proof fn lemma_points_bound(
    points: Seq<NavPoint>,
    positions: Seq<Vec3>,
    b: SectorBox,
    used: Seq<bool>,
    k: nat,
)
    ensures
        (points_in(points, positions, b, used, k)).0.len() <= k,
    decreases k,
{
    if k > 0 {
        lemma_points_bound(points, positions, b, used, (k - 1) as nat);
    }
}

proof fn lemma_word_len(v: Seq<u16>, k: nat)
    ensures
        word_bytes(v, k).len() == 2 * k,
    decreases k,
{
    if k > 0 {
        lemma_word_len(v, (k - 1) as nat);
    }
}

proof fn lemma_point_len(v: Seq<NavPoint>, k: nat)
    ensures
        points_bytes(v, k).len() == 8 * k,
    decreases k,
{
    if k > 0 {
        lemma_point_len(v, (k - 1) as nat);
    }
}

// ─── the file ────────────────────────────────────────────────────────────────

fn push_row(out: &mut Vec<u8>, row: usize)
    requires
        row < 4,
    ensures
        final(out)@ == old(out)@ + identity_row(row as int),
{
    let ghost start = out@;
    push_u32_le(
        out,
        if row == 0 {
            ONE
        } else {
            0
        },
    );
    push_u32_le(
        out,
        if row == 1 {
            ONE
        } else {
            0
        },
    );
    push_u32_le(
        out,
        if row == 2 {
            ONE
        } else {
            0
        },
    );
    push_u32_le(out, NOT_A_NUMBER);
    assert(out@ =~= start + identity_row(row as int));
}

fn front_bytes(y: &Ynv) -> (out: Vec<u8>)
    ensures
        out@ == header_front(y@),
        out@.len() == 0x70,
{
    let mut out: Vec<u8> = Vec::new();
    push_u32_le(&mut out, y.vft);
    push_u32_le(&mut out, 1);
    push_zeros(&mut out, 8);
    push_u32_le(&mut out, y.content_flags);
    push_u32_le(&mut out, 0x0001_0011);
    push_zeros(&mut out, 8);
    push_row(&mut out, 0);
    push_row(&mut out, 1);
    push_row(&mut out, 2);
    push_row(&mut out, 3);
    push_vec3(&mut out, y.bb_size);
    push_u32_le(&mut out, 0x7F80_0001);
    assert(out@ =~= header_front(y@));
    out
}

proof fn lemma_area_len(v: Seq<u32>, k: nat)
    ensures
        area_bytes(v, k).len() == 4 * k,
    decreases k,
{
    if k > 0 {
        lemma_area_len(v, (k - 1) as nat);
    }
}

/// Where the blocks of a file stand.
struct Places {
    vertices: u64,
    indices: u64,
    edges: u64,
    polys: u64,
    sectors: u64,
    portals: u64,
    links: u64,
}

impl Places {
    spec fn blocks(self) -> Blocks {
        Blocks {
            vertices: self.vertices,
            indices: self.indices,
            edges: self.edges,
            polys: self.polys,
            sectors: self.sectors,
            portals: self.portals,
            links: self.links,
        }
    }
}

fn lists_bytes(e: &Encoder, at: &Places) -> (out: Vec<u8>)
    requires
        e.areas@.len() <= 32,
    ensures
        out@ == header_lists(e.enc(), at.blocks()),
        out@.len() == 0x118 - 0x70,
{
    let ghost areas = e.areas@;
    let mut out: Vec<u8> = Vec::new();
    push_u64_le(&mut out, at.vertices);
    push_zeros(&mut out, 8);
    push_u64_le(&mut out, at.indices);
    push_u64_le(&mut out, at.edges);
    push_u32_le(&mut out, e.indices.len() as u32);
    push_u32_le(&mut out, e.areas.len() as u32);
    let ghost head = out@;
    assert(head.len() == 40);
    let mut k: usize = 0;
    assert(out@ =~= head + area_bytes(areas, 0));
    while k < e.areas.len()
        invariant
            k <= e.areas@.len(),
            areas == e.areas@,
            out@ == head + area_bytes(areas, k as nat),
        decreases e.areas@.len() - k,
    {
        push_u32_le(&mut out, e.areas[k]);
        k += 1;
        assert(out@ =~= head + area_bytes(areas, k as nat));
    }
    proof {
        lemma_area_len(areas, areas.len());
    }
    push_zeros(&mut out, 128 - 4 * e.areas.len());
    assert(out@ =~= header_lists(e.enc(), at.blocks()));
    out
}

#[verifier::rlimit(60)]
#[verifier::spinoff_prover]
fn rest_bytes(y: &Ynv, e: &Encoder, at: &Places, total: u64, points: u32) -> (out: Vec<u8>)
    ensures
        out@ == header_rest(y@, e.enc(), at.blocks(), total as int, points as int),
        out@.len() == 368 - 0x118,
{
    let mut out: Vec<u8> = Vec::new();
    push_u64_le(&mut out, at.polys);
    assert(out@ =~= crate::bytes::le64_bytes(at.polys));
    push_u64_le(&mut out, at.sectors);
    push_u64_le(&mut out, at.portals);
    push_u64_le(&mut out, at.links);
    push_u32_le(&mut out, e.vertices.len() as u32);
    push_u32_le(&mut out, y.polys.len() as u32);
    push_u32_le(&mut out, y.area_id);
    push_u32_le(&mut out, total as u32);
    push_u32_le(&mut out, points);
    push_u32_le(&mut out, y.portals.len() as u32);
    push_u32_le(&mut out, e.links.len() as u32);
    push_zeros(&mut out, 12);
    push_u32_le(&mut out, y.version_unk2);
    push_zeros(&mut out, 12);
    assert(out@ == header_rest(y@, e.enc(), at.blocks(), total as int, points as int));
    out
}

fn header_bytes(y: &Ynv, e: &Encoder, at: &Places, total: u64, points: u32) -> (out: Vec<u8>)
    requires
        e.areas@.len() <= 32,
    ensures
        out@ == header(y@, e.enc(), at.blocks(), total as int, points as int),
        out@.len() == 368,
{
    let mut out = front_bytes(y);
    let lists = lists_bytes(e, at);
    let rest = rest_bytes(y, e, at, total, points);
    push_bytes(&mut out, lists.as_slice());
    push_bytes(&mut out, rest.as_slice());
    out
}

/// How much the polygons of a cell can come to.
proof fn lemma_encoded_bounds(y: YnvView, plan: PlanView, k: nat)
    requires
        with_polys(y, plan, k) is Ok,
    ensures
        ({
            let e = with_polys(y, plan, k)->Ok_0;
            &&& e.indices.len() <= 0xFFFF + 0x7FF
            &&& e.edges.len() == e.indices.len()
            &&& e.links.len() <= 7 * k
            &&& e.records.len() == 48 * k
        }),
    decreases k,
{
    if k > 0 {
        lemma_encoded_bounds(y, plan, (k - 1) as nat);
        let e = with_polys(y, plan, (k - 1) as nat)->Ok_0;
        let p = y.polys[k - 1];
        lemma_corners_grow(e, p, p.vertices.len());
        lemma_corners_keep(e, p, p.vertices.len());
    }
}

proof fn lemma_corners_grow(e: Encoded, p: PolyView, k: nat)
    requires
        with_corners(e, p, k) is Ok,
    ensures
        (with_corners(e, p, k)->Ok_0).indices.len() == e.indices.len() + k,
        (with_corners(e, p, k)->Ok_0).edges.len() == e.edges.len() + k,
    decreases k,
{
    if k > 0 {
        lemma_corners_grow(e, p, (k - 1) as nat);
    }
}

proof fn lemma_vertex_len(v: Seq<NavVertex>, k: nat)
    ensures
        vertex_bytes(v, k).len() == 6 * k,
    decreases k,
{
    if k > 0 {
        lemma_vertex_len(v, (k - 1) as nat);
    }
}

proof fn lemma_edge_len(v: Seq<(u32, u32)>, k: nat)
    ensures
        edge_bytes(v, k).len() == 8 * k,
    decreases k,
{
    if k > 0 {
        lemma_edge_len(v, (k - 1) as nat);
    }
}

proof fn lemma_portal_len(v: Seq<NavPortal>, k: nat)
    ensures
        portals_bytes(v, k).len() == 28 * k,
    decreases k,
{
    if k > 0 {
        lemma_portal_len(v, (k - 1) as nat);
    }
}

proof fn lemma_list_grows(buf: Seq<u8>, vft: u32, items: Seq<u8>, item: int)
    requires
        item == 2 || item == 6 || item == 8 || item == 48,
    ensures
        buf.len() <= with_list(buf, vft, items, item).len(),
{
    reveal(start_for);
    reveal(with_list);
    let b1 = grown(buf, 48);
    let n = part_count(items.len() as int, item);
    let b2 = grown(b1, 16int * n);
    lemma_parts_grow(b2, items, item, n);
}

proof fn lemma_parts_grow(buf: Seq<u8>, items: Seq<u8>, item: int, k: nat)
    ensures
        buf.len() <= (with_parts(buf, items, item, k)).0.len(),
    decreases k,
{
    if k > 0 {
        reveal(start_for);
        lemma_parts_grow(buf, items, item, (k - 1) as nat);
    }
}

/// The section of the header and the four lists, and where they stand.
fn write_lists(e: &Encoder) -> (r: (BlockWriter, Places))
    requires
        e.vertices@.len() <= 0x1_0000,
        e.indices@.len() <= 0x2_0000,
        e.edges@.len() <= 0x2_0000,
        e.records@.len() <= 48 * 0x4000,
    ensures
        (r.0.buf@, r.1.blocks()) == with_lists(e.enc()),
        r.0.buf@.len() >= 368,
{
    let ghost enc = e.enc();
    let vertex_bytes = vertices_to_bytes(&e.vertices);
    let index_bytes = words_to_bytes(&e.indices);
    let edge_bytes = edges_to_bytes(&e.edges);
    proof {
        lemma_vertex_len(e.vertices@, e.vertices@.len());
        lemma_word_len(e.indices@, e.indices@.len());
        lemma_edge_len(e.edges@, e.edges@.len());
        law_blocks_stay_in_pages(0, 368);
    }
    let mut w = BlockWriter { buf: Vec::new() };
    let ghost none = w.buf@;
    assert(none =~= Seq::<u8>::empty());
    let main = w.reserve(NAVMESH_SIZE);
    let ghost b0 = w.buf@;
    let vertices = w.write_list(LIST_VFT_VERTICES, &vertex_bytes, VERTEX_SIZE);
    let ghost b1 = w.buf@;
    let indices = w.write_list(LIST_VFT_INDICES, &index_bytes, INDEX_SIZE);
    let ghost b2 = w.buf@;
    let edges = w.write_list(LIST_VFT_EDGES, &edge_bytes, EDGE_SIZE);
    let ghost b3 = w.buf@;
    let polys = w.write_list(LIST_VFT_POLYS, &e.records, POLY_SIZE);
    proof {
        lemma_list_grows(b0, LIST_VFT_VERTICES, vertex_bytes@, 6);
        lemma_list_grows(b1, LIST_VFT_INDICES, index_bytes@, 2);
        lemma_list_grows(b2, LIST_VFT_EDGES, edge_bytes@, 8);
        lemma_list_grows(b3, LIST_VFT_POLYS, e.records@, 48);
    }
    let sectors = start_address(w.buf.len(), SECTOR_SIZE);
    let places = Places {
        vertices: address_of(vertices),
        indices: address_of(indices),
        edges: address_of(edges),
        polys: address_of(polys),
        sectors,
        portals: 0,
        links: 0,
    };
    (w, places)
}

fn no_points_used(n: usize) -> (out: Vec<bool>)
    ensures
        out@ == Seq::new(n as nat, |i: int| false),
{
    let mut out: Vec<bool> = Vec::new();
    let mut k: usize = 0;
    while k < n
        invariant
            k <= n,
            out@ == Seq::new(k as nat, |i: int| false),
        decreases n - k,
    {
        out.push(false);
        k += 1;
        assert(out@ =~= Seq::new(k as nat, |i: int| false));
    }
    out
}

#[verifier::rlimit(60)]
fn assemble(y: &Ynv, plan: &NavPlan, e: &Encoder) -> (r: Result<Vec<u8>, YnvError>)
    requires
        plan_fits(y@, plan@),
        y.polys@.len() <= 0x3FFF,
        with_polys(y@, plan@, y@.polys.len()) == Ok::<Encoded, YnvError>(e.enc()),
        e.ok(),
    ensures
        (match r {
            Ok(b) => Ok::<Seq<u8>, YnvError>(b@),
            Err(x) => Err(x),
        }) == assembled(y@, plan@, e.enc()),
{
    let ghost enc = e.enc();
    proof {
        lemma_encoded_bounds(y@, plan@, y@.polys.len());
        reveal_with_fuel(sector_count, 3);
    }
    let (w, mut places) = write_lists(e);
    let depth: u32 = if y.is_vehicle() {
        0
    } else {
        2
    };
    let ghost buf0 = w.buf@;
    let used = no_points_used(y.points.len());
    let mut t = TreeWriter { y, plan, w, used, points: 0, total: 0 };
    match t.sector(0, depth) {
        Ok(_) => {},
        Err(x) => {
            return Err(x);
        },
    }
    let ghost tree = t.st();
    let n = y.portals.len();
    if n > PAGE_SIZE / 28 {
        return Err(YnvError::BlockTooLarge((28 * n as u128) as usize));
    }
    let links = e.links.len();
    if links > PAGE_SIZE / 2 {
        return Err(YnvError::BlockTooLarge((2 * links as u128) as usize));
    }
    let portal_bytes = portals_to_bytes(&y.portals);
    let link_bytes = words_to_bytes(&e.links);
    proof {
        lemma_portal_len(y.portals@, y.portals@.len());
        lemma_word_len(e.links@, e.links@.len());
    }
    let total: u64 = t.total + 6 * e.vertices.len() as u64 + 2 * e.indices.len() as u64 + 8
        * e.edges.len() as u64 + e.records.len() as u64 + 28 * n as u64;
    let points = t.points;
    let mut w = t.w;
    if n > 0 {
        proof {
            law_blocks_stay_in_pages(w.buf@.len() as int, portal_bytes@.len() as int);
        }
        let place = w.write_block(portal_bytes.as_slice());
        places.portals = address_of(place);
    }
    let ghost b5 = w.buf@;
    if links > 0 {
        proof {
            law_blocks_stay_in_pages(w.buf@.len() as int, link_bytes@.len() as int);
        }
        let place = w.write_block(link_bytes.as_slice());
        places.links = address_of(place);
    }
    let h = header_bytes(y, e, &places, total, points);
    w.patch(0, h.as_slice());
    Ok(w.buf)
}

/// The file that a system section becomes: deflated, in pages of sixteen
/// kilobytes, of version 2.
pub open spec fn file_of(image: Seq<u8>, r: Result<Vec<u8>, YnvError>) -> bool {
    let pages = crate::resource::at_least_one(crate::resource::ceil_div(image.len() as int, PAGE_SIZE as int));
    if image.len() + PAGE_SIZE > usize::MAX {
        r == Err::<Vec<u8>, YnvError>(
            YnvError::Resource(ResourceError::TooLarge(image.len() as usize)),
        )
    } else {
        match (r, crate::resource::page_flags(PAGE_SIZE as int, pages)) {
            (Ok(file), Some(flags)) => {
                &&& file@ == crate::resource::file_bytes(
                    2,
                    crate::resource::versioned(flags, 0),
                    crate::resource::versioned(0, 2),
                    crate::resource::padded(image, PAGE_SIZE * pages),
                )
                &&& crate::resource::holds(
                    file@,
                    crate::resource::padded(image, PAGE_SIZE * pages),
                    Seq::<u8>::empty(),
                )
            },
            (Err(e), None) => e == YnvError::Resource(
                ResourceError::Pages { count: pages as usize, page_size: PAGE_SIZE },
            ),
            _ => false,
        }
    }
}

/// Wraps a system section.
fn wrap_section(section: &Vec<u8>) -> (r: Result<Vec<u8>, YnvError>)
    ensures
        file_of(section@, r),
{
    if section.len() > usize::MAX - PAGE_SIZE {
        return Err(YnvError::Resource(ResourceError::TooLarge(section.len())));
    }
    proof {
        crate::resource::lemma_ceil_div(section@.len() as int, PAGE_SIZE as int);
    }
    assert(2u32 / 16 % 16 == 0 && 2u32 % 16 == 2);
    match build_rsc7_paged(2, section.as_slice(), PAGE_SIZE) {
        Ok(file) => Ok(file),
        Err(x) => Err(YnvError::Resource(x)),
    }
}

/// Serialises `ynv` to RSC7 bytes (version 2, deflated). `plan` holds what
/// the file says of positions in the world.
pub fn serialize_ynv(ynv: &Ynv, plan: &NavPlan) -> (r: Result<Vec<u8>, YnvError>)
    requires
        plan_fits(ynv@, plan@),
        ynv.area_id <= 0xFFFF_FFFF - 100,
    ensures
        match image(ynv@, plan@) {
            Ok(section) => file_of(section, r),
            Err(e) => r == Err::<Vec<u8>, YnvError>(e),
        },
{
    if ynv.polys.len() > 0x3FFF {
        return Err(YnvError::TooManyPolys(ynv.polys.len()));
    }
    let e = match encode_polys(ynv, plan) {
        Ok(e) => e,
        Err(x) => {
            return Err(x);
        },
    };
    let section = match assemble(ynv, plan, &e) {
        Ok(s) => s,
        Err(x) => {
            return Err(x);
        },
    };
    wrap_section(&section)
}

} // verus!
