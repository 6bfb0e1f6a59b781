//! Collision bounds (`.ybn`), read only: the `phBound` tree a static map
//! piece or an MLO streams for physics. A file is one root bound, usually a
//! `phBoundComposite` whose children are `phBoundBVH`/`phBoundGeometry`
//! meshes (quantised vertices plus 16-byte polygon records), each placed by
//! a per-child transform. Only triangles are decoded; the primitive polygons
//! (spheres, capsules, boxes, cylinders) are counted and skipped for now.
//!
//! A vertex is kept as it is stored. Its place is each coordinate times the
//! geometry's `quantum`, plus its `center`, and then moved by the transforms
//! of the bounds above it.
//!
//! Byte layout from CodeWalker.Core `Bounds.cs` / `YbnFile.cs`.

use vstd::prelude::*;
use vstd::slice::*;

use crate::math::Vec3;
use crate::resource::{
    prepare_rsc7, u16_le, u32_le, u64_le, vec3_le, ResReader, ResourceError, SYSTEM_BASE,
};

verus! {

broadcast use {
    vstd::slice::group_slice_axioms,
    vstd::array::group_array_axioms,
    crate::bytes::group_subrange_reads,
};

/// `phBound` subclass, from the byte at 0x10 of every bound.
#[derive(Debug, Clone, Copy, PartialEq, Eq, Structural)]
pub enum BoundKind {
    Sphere,
    Capsule,
    Box,
    Geometry,
    GeometryBvh,
    Composite,
    Disc,
    Cylinder,
    Cloth,
    Unknown(u8),
}

/// The kind that a byte names.
pub open spec fn kind_of(b: u8) -> BoundKind {
    if b == 0 {
        BoundKind::Sphere
    } else if b == 1 {
        BoundKind::Capsule
    } else if b == 3 {
        BoundKind::Box
    } else if b == 4 {
        BoundKind::Geometry
    } else if b == 8 {
        BoundKind::GeometryBvh
    } else if b == 10 {
        BoundKind::Composite
    } else if b == 12 {
        BoundKind::Disc
    } else if b == 13 {
        BoundKind::Cylinder
    } else if b == 15 {
        BoundKind::Cloth
    } else {
        BoundKind::Unknown(b)
    }
}

impl BoundKind {
    pub fn from_byte(b: u8) -> (r: Self)
        ensures
            r == kind_of(b),
    {
        match b {
            0 => Self::Sphere,
            1 => Self::Capsule,
            3 => Self::Box,
            4 => Self::Geometry,
            8 => Self::GeometryBvh,
            10 => Self::Composite,
            12 => Self::Disc,
            13 => Self::Cylinder,
            15 => Self::Cloth,
            other => Self::Unknown(other),
        }
    }
}

/// The bits of one.
pub const ONE: u32 = 0x3F80_0000;

/// The bits of minus zero.
pub const MINUS_ZERO: u32 = 0x8000_0000;

/// A `Matrix4F_s`: three basis columns and a translation, applied as
/// `c1*x + c2*y + c3*z + c4`.
#[derive(Debug, Clone, Copy, PartialEq, Eq)]
pub struct BoundTransform {
    pub columns: [Vec3; 4],
}

impl View for BoundTransform {
    type V = Seq<Vec3>;

    open spec fn view(&self) -> Seq<Vec3> {
        self.columns@
    }
}

/// The columns of the transform that moves nothing.
pub open spec fn unit_columns() -> Seq<Vec3> {
    seq![
        Vec3 { x: ONE, y: 0, z: 0 },
        Vec3 { x: 0, y: ONE, z: 0 },
        Vec3 { x: 0, y: 0, z: ONE },
        Vec3 { x: 0, y: 0, z: 0 },
    ]
}

/// Whether two components are equal numbers, the second one being 0 or 1.
pub open spec fn component_is(b: u32, unit: u32) -> bool {
    b == unit || (unit == 0 && b == MINUS_ZERO)
}

/// Whether a column is equal, as numbers, to a column of the unit transform.
pub open spec fn column_is(v: Vec3, unit: Vec3) -> bool {
    component_is(v.x, unit.x) && component_is(v.y, unit.y) && component_is(v.z, unit.z)
}

fn same_component(b: u32, unit: u32) -> (r: bool)
    ensures
        r == component_is(b, unit),
{
    b == unit || (unit == 0 && b == MINUS_ZERO)
}

fn same_column(v: &Vec3, unit: &Vec3) -> (r: bool)
    ensures
        r == column_is(*v, *unit),
{
    same_component(v.x, unit.x) && same_component(v.y, unit.y) && same_component(v.z, unit.z)
}

impl BoundTransform {
    pub fn identity() -> (r: Self)
        ensures
            r@ == unit_columns(),
    {
        let r = Self {
            columns: [
                Vec3::new(ONE, 0, 0),
                Vec3::new(0, ONE, 0),
                Vec3::new(0, 0, ONE),
                Vec3::new(0, 0, 0),
            ],
        };
        assert(r@ =~= unit_columns());
        r
    }

    /// Whether the columns are equal, as numbers, to those of the identity:
    /// a zero may have either sign.
    pub fn is_identity(&self) -> (r: bool)
        ensures
            r == (forall|k: int| 0 <= k < 4 ==> #[trigger] column_is(self@[k], unit_columns()[k])),
    {
        let unit = Self::identity();
        let mut k: usize = 0;
        while k < 4
            invariant
                k <= 4,
                unit@ == unit_columns(),
                forall|j: int| 0 <= j < k ==> #[trigger] column_is(self@[j], unit_columns()[j]),
            decreases 4 - k,
        {
            if !same_column(&self.columns[k], &unit.columns[k]) {
                assert(!column_is(self@[k as int], unit_columns()[k as int]));
                return false;
            }
            k += 1;
        }
        true
    }
}

/// A vertex as a file stores it.
#[derive(Debug, Clone, Copy, PartialEq, Eq, Structural)]
pub struct QuantisedVertex {
    pub x: i16,
    pub y: i16,
    pub z: i16,
}

/// One triangle of a geometry bound, indices into [`BoundGeometry::vertices`].
#[derive(Debug, Clone, Copy, PartialEq, Eq)]
pub struct BoundTriangle {
    pub indices: [u16; 3],
    /// Index into [`BoundGeometry::materials`].
    pub material_index: u8,
}

/// The model of a [`BoundTriangle`].
#[verifier::ext_equal]
pub struct BoundTriangleView {
    pub indices: Seq<u16>,
    pub material_index: u8,
}

impl View for BoundTriangle {
    type V = BoundTriangleView;

    open spec fn view(&self) -> BoundTriangleView {
        BoundTriangleView { indices: self.indices@, material_index: self.material_index }
    }
}

/// A `phBoundGeometry` / `phBoundBVH`: a triangle soup in the bound's local
/// space.
#[derive(Debug, PartialEq, Eq)]
pub struct BoundGeometry {
    /// What one step of a stored coordinate is worth.
    pub quantum: Vec3,
    /// What is added to every vertex.
    pub center: Vec3,
    pub vertices: Vec<QuantisedVertex>,
    pub triangles: Vec<BoundTriangle>,
    /// Polygons that were not triangles (spheres, capsules, boxes, cylinders).
    pub primitive_count: usize,
    /// `BoundMaterial_s.Data1` per material; the low byte is the material type.
    pub materials: Vec<u32>,
}

/// The model of a [`BoundGeometry`].
#[verifier::ext_equal]
pub struct GeometryView {
    pub quantum: Vec3,
    pub center: Vec3,
    pub vertices: Seq<QuantisedVertex>,
    pub triangles: Seq<BoundTriangleView>,
    pub primitive_count: int,
    pub materials: Seq<u32>,
}

/// The triangles of a geometry.
pub open spec fn triangles_view(s: Seq<BoundTriangle>) -> Seq<BoundTriangleView> {
    Seq::new(s.len(), |i: int| s[i]@)
}

impl View for BoundGeometry {
    type V = GeometryView;

    open spec fn view(&self) -> GeometryView {
        GeometryView {
            quantum: self.quantum,
            center: self.center,
            vertices: self.vertices@,
            triangles: triangles_view(self.triangles@),
            primitive_count: self.primitive_count as int,
            materials: self.materials@,
        }
    }
}

/// One node of the bound tree.
#[derive(Debug, PartialEq, Eq)]
pub struct Bound {
    pub kind: BoundKind,
    pub box_min: Vec3,
    pub box_max: Vec3,
    /// Filled for `Geometry`/`GeometryBvh`.
    pub geometry: Option<BoundGeometry>,
    /// Filled for `Composite`: each child with its placement.
    pub children: Vec<(Bound, BoundTransform)>,
}

/// The model of a [`Bound`].
#[verifier::ext_equal]
pub struct BoundView {
    pub kind: BoundKind,
    pub box_min: Vec3,
    pub box_max: Vec3,
    pub geometry: Option<GeometryView>,
    pub children: Seq<(BoundView, Seq<Vec3>)>,
}

/// The model of an optional geometry.
pub open spec fn geometry_view(g: Option<BoundGeometry>) -> Option<GeometryView> {
    match g {
        Some(x) => Some(x@),
        None => None,
    }
}

/// The model of a bound.
pub open spec fn bound_view(b: Bound) -> BoundView
    decreases b,
{
    BoundView {
        kind: b.kind,
        box_min: b.box_min,
        box_max: b.box_max,
        geometry: geometry_view(b.geometry),
        children: Seq::new(
            b.children@.len(),
            |i: int|
                if 0 <= i < b.children@.len() {
                    (bound_view(b.children@[i].0), b.children@[i].1@)
                } else {
                    arbitrary()
                },
        ),
    }
}

impl View for Bound {
    type V = BoundView;

    open spec fn view(&self) -> BoundView {
        bound_view(*self)
    }
}

/// The models of a list of children.
pub open spec fn children_view(s: Seq<(Bound, BoundTransform)>) -> Seq<(BoundView, Seq<Vec3>)> {
    Seq::new(s.len(), |i: int| (bound_view(s[i].0), s[i].1@))
}

/// A parsed `.ybn`.
#[derive(Debug, PartialEq, Eq)]
pub struct Ybn {
    pub root: Bound,
}

/// A triangle flattened out of the bound tree, its vertices as stored.
#[derive(Debug, Clone, Copy, PartialEq, Eq)]
pub struct Triangle {
    pub vertices: [QuantisedVertex; 3],
    /// Material type (low byte of the material's `Data1`).
    pub material: u8,
}

/// The model of a [`Triangle`].
#[verifier::ext_equal]
pub struct TriangleView {
    pub vertices: Seq<QuantisedVertex>,
    pub material: u8,
}

impl View for Triangle {
    type V = TriangleView;

    open spec fn view(&self) -> TriangleView {
        TriangleView { vertices: self.vertices@, material: self.material }
    }
}

/// The triangles of one geometry and what places them: its own quantum and
/// center, then the transforms above it, innermost first.
#[derive(Debug, PartialEq, Eq)]
pub struct TriangleGroup {
    pub quantum: Vec3,
    pub center: Vec3,
    pub transforms: Vec<BoundTransform>,
    pub triangles: Vec<Triangle>,
}

/// The model of a [`TriangleGroup`].
#[verifier::ext_equal]
pub struct GroupView {
    pub quantum: Vec3,
    pub center: Vec3,
    pub transforms: Seq<Seq<Vec3>>,
    pub triangles: Seq<TriangleView>,
}

/// The models of a list of transforms.
pub open spec fn transforms_view(s: Seq<BoundTransform>) -> Seq<Seq<Vec3>> {
    Seq::new(s.len(), |i: int| s[i]@)
}

/// The models of a list of flattened triangles.
pub open spec fn flat_view(s: Seq<Triangle>) -> Seq<TriangleView> {
    Seq::new(s.len(), |i: int| s[i]@)
}

impl View for TriangleGroup {
    type V = GroupView;

    open spec fn view(&self) -> GroupView {
        GroupView {
            quantum: self.quantum,
            center: self.center,
            transforms: transforms_view(self.transforms@),
            triangles: flat_view(self.triangles@),
        }
    }
}

/// The models of a list of groups.
pub open spec fn groups_view(s: Seq<TriangleGroup>) -> Seq<GroupView> {
    Seq::new(s.len(), |i: int| s[i]@)
}

/// Why a bound could not be read.
#[derive(Debug, Clone, Copy, PartialEq, Eq, Structural)]
pub enum BoundFault {
    /// The tree is nested deeper than eight levels.
    TooDeep,
    /// The header at this address.
    Header(u64),
    GeometryHeader,
    Vertices,
    Polygons,
    CompositeHeader,
    ChildPointers,
}

/// Where in the tree a bound could not be read, and why: `path` holds the
/// number of the child at each level, from the root down.
#[derive(Debug, PartialEq, Eq)]
pub struct BoundError {
    pub path: Vec<usize>,
    pub fault: BoundFault,
}

/// The model of a [`BoundError`].
#[verifier::ext_equal]
pub struct BoundErrorView {
    pub path: Seq<usize>,
    pub fault: BoundFault,
}

impl View for BoundError {
    type V = BoundErrorView;

    open spec fn view(&self) -> BoundErrorView {
        BoundErrorView { path: self.path@, fault: self.fault }
    }
}

/// Why a collision file could not be read.
#[derive(Debug, PartialEq, Eq)]
pub enum YbnError {
    Resource(ResourceError),
    Bound(BoundError),
}

/// The model of a [`YbnError`].
#[verifier::ext_equal]
pub enum YbnErrorView {
    Resource(ResourceError),
    Bound(BoundErrorView),
}

impl View for YbnError {
    type V = YbnErrorView;

    open spec fn view(&self) -> YbnErrorView {
        match self {
            YbnError::Resource(e) => YbnErrorView::Resource(*e),
            YbnError::Bound(e) => YbnErrorView::Bound(e@),
        }
    }
}

impl YbnError {
    /// The error in words.
    pub open spec fn text(&self) -> Seq<char> {
        match self {
            YbnError::Resource(e) => e.text(),
            YbnError::Bound(_) => "root bound"@,
        }
    }

    /// The error in words.
    pub fn message(&self) -> (r: String)
        ensures
            r@ == self.text(),
    {
        match self {
            YbnError::Resource(e) => e.message(),
            YbnError::Bound(_) => "root bound".to_string(),
        }
    }
}

// ─── what a file says ────────────────────────────────────────────────────────

/// How many bytes the header of a bound takes.
pub const BOUND_HEADER: usize = 0x70;

/// How deep a tree may be nested.
pub const MAX_DEPTH: usize = 8;

/// The vertex at an offset.
pub open spec fn vertex_at(b: Seq<u8>, off: int) -> QuantisedVertex {
    QuantisedVertex {
        x: crate::bytes::le16(b, off) as i16,
        y: crate::bytes::le16(b, off + 2) as i16,
        z: crate::bytes::le16(b, off + 4) as i16,
    }
}

/// The vertices of a table.
pub open spec fn vertex_list(b: Seq<u8>, n: int) -> Seq<QuantisedVertex> {
    Seq::new(n as nat, |i: int| vertex_at(b, 6 * i))
}

/// The material words of a table.
pub open spec fn material_list(b: Seq<u8>, n: int) -> Seq<u32> {
    Seq::new(n as nat, |i: int| crate::bytes::le32(b, 8 * i))
}

/// A vertex index of a polygon: the top bit is no part of it.
pub open spec fn corner(b: Seq<u8>, off: int) -> u16 {
    crate::bytes::le16(b, off) & 0x7FFF
}

/// Whether polygon `i` of a table is a triangle.
pub open spec fn is_triangle(b: Seq<u8>, i: int) -> bool {
    b[16 * i] & 7 == 0
}

/// Polygon `i` of a table, read as a triangle.
pub open spec fn triangle_at(b: Seq<u8>, materials: Seq<u8>, i: int) -> BoundTriangleView {
    BoundTriangleView {
        indices: seq![corner(b, 16 * i + 4), corner(b, 16 * i + 6), corner(b, 16 * i + 8)],
        material_index: if i < materials.len() {
            materials[i]
        } else {
            0
        },
    }
}

/// The triangles among the first `n` polygons of a table.
pub open spec fn triangle_list(b: Seq<u8>, materials: Seq<u8>, n: int) -> Seq<BoundTriangleView>
    decreases n,
{
    if n <= 0 {
        Seq::empty()
    } else if is_triangle(b, n - 1) {
        triangle_list(b, materials, n - 1).push(triangle_at(b, materials, n - 1))
    } else {
        triangle_list(b, materials, n - 1)
    }
}

/// The bytes of an optional table: none where it cannot be read.
pub open spec fn table_or_none(t: Option<Seq<u8>>) -> Seq<u8> {
    match t {
        Some(s) => s,
        None => Seq::empty(),
    }
}

/// How many material slots are read: at least four.
pub open spec fn material_slots(count: int) -> int {
    if count < 4 {
        4
    } else {
        count
    }
}

/// The geometry whose header is `b`.
pub open spec fn geometry_in(s: (Seq<u8>, Seq<u8>), b: Seq<u8>) -> Result<GeometryView, BoundFault> {
    let vertex_count = crate::bytes::le32(b, 0xD0) as int;
    let polygon_count = crate::bytes::le32(b, 0xD4) as int;
    let slots = material_slots(b[0x120] as int);
    let vertices = crate::resource::resolved(s.0, s.1, crate::bytes::le64(b, 0xB0), vertex_count * 6);
    let polygons = crate::resource::resolved(s.0, s.1, crate::bytes::le64(b, 0x88), polygon_count * 16);
    let of_polygons = table_or_none(crate::resource::resolved(s.0, s.1, crate::bytes::le64(b, 0x118), polygon_count));
    if vertex_count > 0 && vertices is None {
        Err(BoundFault::Vertices)
    } else if polygon_count > 0 && polygons is None {
        Err(BoundFault::Polygons)
    } else {
        let triangles = if polygon_count > 0 {
            triangle_list(polygons->0, of_polygons, polygon_count)
        } else {
            Seq::empty()
        };
        Ok(
            GeometryView {
                quantum: crate::resource::vec3_at(b, 0x90),
                center: crate::resource::vec3_at(b, 0xA0),
                vertices: if vertex_count > 0 {
                    vertex_list(vertices->0, vertex_count)
                } else {
                    Seq::empty()
                },
                triangles,
                primitive_count: polygon_count - triangles.len(),
                materials: match crate::resource::resolved(s.0, s.1, crate::bytes::le64(b, 0xF0), slots * 8) {
                    Some(m) => material_list(m, slots),
                    None => Seq::empty(),
                },
            },
        )
    }
}

/// The geometry at an address.
pub open spec fn geometry_at(s: (Seq<u8>, Seq<u8>), va: u64) -> Result<GeometryView, BoundFault> {
    match crate::resource::resolved(s.0, s.1, va, 0x130) {
        None => Err(BoundFault::GeometryHeader),
        Some(b) => geometry_in(s, b),
    }
}

/// Transform `i` of a table.
pub open spec fn columns_at(b: Seq<u8>, i: int) -> Seq<Vec3> {
    seq![
        crate::resource::vec3_at(b, 64 * i),
        crate::resource::vec3_at(b, 64 * i + 16),
        crate::resource::vec3_at(b, 64 * i + 32),
        crate::resource::vec3_at(b, 64 * i + 48),
    ]
}

/// The placement of child `i`: the identity where there is no table.
pub open spec fn placement(table: Option<Seq<u8>>, i: int) -> Seq<Vec3> {
    match table {
        Some(b) => columns_at(b, i),
        None => unit_columns(),
    }
}

/// The error of a child, seen from its parent.
pub open spec fn from_child(i: int, e: BoundErrorView) -> BoundErrorView {
    BoundErrorView { path: seq![i as usize] + e.path, fault: e.fault }
}

/// The error of the bound itself.
pub open spec fn here(fault: BoundFault) -> BoundErrorView {
    BoundErrorView { path: Seq::empty(), fault }
}

/// The first `n` children of a composite. A null pointer stands for none.
pub open spec fn children_upto(
    s: (Seq<u8>, Seq<u8>),
    pointers: Seq<u64>,
    table: Option<Seq<u8>>,
    n: nat,
    depth: int,
) -> Result<Seq<(BoundView, Seq<Vec3>)>, BoundErrorView>
    decreases MAX_DEPTH + 1 - depth, n + 1,
{
    if n == 0 {
        Ok(Seq::empty())
    } else {
        let i = n - 1;
        match children_upto(s, pointers, table, (n - 1) as nat, depth) {
            Err(e) => Err(e),
            Ok(before) => if pointers[i] == 0 {
                Ok(before)
            } else if depth > MAX_DEPTH {
                Err(here(BoundFault::TooDeep))
            } else {
                match bound_at(s, pointers[i], depth + 1) {
                    Err(e) => Err(from_child(i, e)),
                    Ok(child) => Ok(before.push((child, placement(table, i)))),
                }
            },
        }
    }
}

/// The children of the composite at an address.
pub open spec fn children_at(s: (Seq<u8>, Seq<u8>), va: u64, depth: int) -> Result<
    Seq<(BoundView, Seq<Vec3>)>,
    BoundErrorView,
>
    decreases MAX_DEPTH + 1 - depth, 0x1_0002int,
{
    match crate::resource::resolved(s.0, s.1, va, 0xB0) {
        None => Err(here(BoundFault::CompositeHeader)),
        Some(b) => {
            let count = crate::bytes::le16(b, 0xA0) as int;
            if count == 0 {
                Ok(Seq::empty())
            } else if crate::bytes::le64(b, 0x70) == 0 {
                Ok(Seq::empty())
            } else {
                match crate::resource::resolved(s.0, s.1, crate::bytes::le64(b, 0x70), count * 8) {
                    None => Err(here(BoundFault::ChildPointers)),
                    Some(p) => children_upto(
                        s,
                        crate::resource::le64_list(p, count as nat),
                        crate::resource::resolved(s.0, s.1, crate::bytes::le64(b, 0x78), count * 64),
                        count as nat,
                        depth,
                    ),
                }
            }
        },
    }
}

/// The bound at an address, `depth` levels down.
pub open spec fn bound_at(s: (Seq<u8>, Seq<u8>), va: u64, depth: int) -> Result<
    BoundView,
    BoundErrorView,
>
    decreases MAX_DEPTH + 1 - depth, 0x1_0003int,
{
    if depth > MAX_DEPTH {
        Err(here(BoundFault::TooDeep))
    } else {
        match crate::resource::resolved(s.0, s.1, va, BOUND_HEADER as int) {
            None => Err(here(BoundFault::Header(va))),
            Some(head) => {
                let kind = kind_of(head[0x10]);
                let bare = BoundView {
                    kind,
                    box_min: crate::resource::vec3_at(head, 0x30),
                    box_max: crate::resource::vec3_at(head, 0x20),
                    geometry: None,
                    children: Seq::empty(),
                };
                if kind == BoundKind::Geometry || kind == BoundKind::GeometryBvh {
                    match geometry_at(s, va) {
                        Err(f) => Err(here(f)),
                        Ok(g) => Ok(BoundView { geometry: Some(g), ..bare }),
                    }
                } else if kind == BoundKind::Composite {
                    match children_at(s, va, depth) {
                        Err(e) => Err(e),
                        Ok(c) => Ok(BoundView { children: c, ..bare }),
                    }
                } else {
                    Ok(bare)
                }
            },
        }
    }
}

/// What a file's sections hold.
pub open spec fn read_file(sections: Result<(Seq<u8>, Seq<u8>), ResourceError>) -> Result<
    BoundView,
    YbnErrorView,
> {
    match sections {
        Err(e) => Err(YbnErrorView::Resource(e)),
        Ok(s) => match bound_at(s, SYSTEM_BASE, 0) {
            Err(e) => Err(YbnErrorView::Bound(e)),
            Ok(b) => Ok(b),
        },
    }
}

// ─── reading ─────────────────────────────────────────────────────────────────

fn read_vertices(b: &[u8], n: usize) -> (out: Vec<QuantisedVertex>)
    requires
        b@.len() == n * 6,
    ensures
        out@ == vertex_list(b@, n as int),
{
    let mut out: Vec<QuantisedVertex> = Vec::new();
    let mut i: usize = 0;
    let mut at: usize = 0;
    assert(b.len() == n * 6);
    while i < n
        invariant
            i <= n,
            at == 6 * i,
            b@.len() == n * 6,
            b@.len() <= usize::MAX,
            out@.len() == i,
            forall|k: int| 0 <= k < i ==> #[trigger] out@[k] == vertex_at(b@, 6 * k),
        decreases n - i,
    {
        out.push(
            QuantisedVertex {
                x: u16_le(b, at) as i16,
                y: u16_le(b, at + 2) as i16,
                z: u16_le(b, at + 4) as i16,
            },
        );
        at = at + 6;
        i += 1;
    }
    assert(out@ =~= vertex_list(b@, n as int));
    out
}

fn read_materials(b: &[u8], n: usize) -> (out: Vec<u32>)
    requires
        b@.len() == n * 8,
    ensures
        out@ == material_list(b@, n as int),
{
    let mut out: Vec<u32> = Vec::new();
    let mut i: usize = 0;
    let mut at: usize = 0;
    assert(b.len() == n * 8);
    while i < n
        invariant
            i <= n,
            at == 8 * i,
            b@.len() == n * 8,
            b@.len() <= usize::MAX,
            out@.len() == i,
            forall|k: int| 0 <= k < i ==> #[trigger] out@[k] == crate::bytes::le32(b@, 8 * k),
        decreases n - i,
    {
        out.push(u32_le(b, at));
        at = at + 8;
        i += 1;
    }
    assert(out@ =~= material_list(b@, n as int));
    out
}

proof fn lemma_triangle_count(b: Seq<u8>, materials: Seq<u8>, n: int)
    requires
        n >= 0,
    ensures
        triangle_list(b, materials, n).len() <= n,
    decreases n,
{
    if n > 0 {
        lemma_triangle_count(b, materials, n - 1);
    }
}

fn read_triangles(b: &[u8], materials: &[u8], n: usize) -> (out: Vec<BoundTriangle>)
    requires
        b@.len() == n * 16,
    ensures
        triangles_view(out@) == triangle_list(b@, materials@, n as int),
{
    let mut out: Vec<BoundTriangle> = Vec::new();
    let mut i: usize = 0;
    let mut at: usize = 0;
    assert(b.len() == n * 16);
    assert(triangles_view(out@) =~= triangle_list(b@, materials@, 0));
    while i < n
        invariant
            i <= n,
            at == 16 * i,
            b@.len() == n * 16,
            b@.len() <= usize::MAX,
            triangles_view(out@) == triangle_list(b@, materials@, i as int),
        decreases n - i,
    {
        if b[at] & 7 == 0 {
            let material_index: u8 = if i < materials.len() {
                materials[i]
            } else {
                0
            };
            let t = BoundTriangle {
                indices: [
                    u16_le(b, at + 4) & 0x7FFF,
                    u16_le(b, at + 6) & 0x7FFF,
                    u16_le(b, at + 8) & 0x7FFF,
                ],
                material_index,
            };
            let ghost had = triangles_view(out@);
            assert(t@.indices =~= triangle_at(b@, materials@, i as int).indices);
            out.push(t);
            assert(triangles_view(out@) =~= had.push(t@));
        }
        at = at + 16;
        i += 1;
    }
    out
}

spec fn geometry_of(r: Result<BoundGeometry, BoundFault>) -> Result<GeometryView, BoundFault> {
    match r {
        Ok(g) => Ok(g@),
        Err(f) => Err(f),
    }
}

#[verifier::rlimit(40)]
fn read_geometry(r: &ResReader<'_>, va: u64) -> (g: Result<BoundGeometry, BoundFault>)
    ensures
        geometry_of(g) == geometry_at((r.system@, r.graphics@), va),
{
    // The structure takes 304 bytes; the fields sit between 0x88 and 0x121.
    let b = match r.resolve(va, 0x130) {
        Some(b) => b,
        None => {
            return Err(BoundFault::GeometryHeader);
        },
    };
    assert(b@.len() == 0x130);
    let vertices_count = u32_le(b, 0xD0) as usize;
    let polygons_count = u32_le(b, 0xD4) as usize;
    let materials_count = b[0x120] as usize;
    let vertices: Vec<QuantisedVertex> = if vertices_count > 0 {
        match r.resolve_array(u64_le(b, 0xB0), vertices_count, 6) {
            Some(vb) => read_vertices(vb, vertices_count),
            None => {
                return Err(BoundFault::Vertices);
            },
        }
    } else {
        Vec::new()
    };
    // At least four material slots are there, whatever the count.
    let slots: usize = if materials_count < 4 {
        4
    } else {
        materials_count
    };
    let materials: Vec<u32> = match r.resolve_optional(u64_le(b, 0xF0), slots * 8) {
        Some(Some(mb)) => read_materials(mb, slots),
        _ => Vec::new(),
    };
    let empty: [u8; 0] = [];
    let none: &[u8] = &empty;
    assert(none@ =~= Seq::<u8>::empty());
    let of_polygons: &[u8] = match r.resolve_optional(u64_le(b, 0x118), polygons_count) {
        Some(Some(pm)) => pm,
        _ => none,
    };
    assert(of_polygons@ == table_or_none(r.at(crate::bytes::le64(b@, 0x118), polygons_count as int)));
    let triangles: Vec<BoundTriangle> = if polygons_count > 0 {
        match r.resolve_array(u64_le(b, 0x88), polygons_count, 16) {
            Some(pb) => read_triangles(pb, of_polygons, polygons_count),
            None => {
                return Err(BoundFault::Polygons);
            },
        }
    } else {
        Vec::new()
    };
    proof {
        if polygons_count > 0 {
            lemma_triangle_count(
                r.at(crate::bytes::le64(b@, 0x88), polygons_count * 16)->0,
                of_polygons@,
                polygons_count as int,
            );
            assert(triangles@.len() == triangles_view(triangles@).len());
        }
    }
    let g = BoundGeometry {
        quantum: vec3_le(b, 0x90),
        center: vec3_le(b, 0xA0),
        vertices,
        primitive_count: polygons_count - triangles.len(),
        triangles,
        materials,
    };
    assert(g@ =~= geometry_in((r.system@, r.graphics@), b@)->Ok_0);
    Ok(g)
}

fn read_transforms(table: Option<&[u8]>, n: usize) -> (out: Vec<BoundTransform>)
    requires
        table matches Some(b) ==> b@.len() == n * 64,
        n <= 0xFFFF,
    ensures
        out@.len() == n,
        forall|i: int|
            0 <= i < n ==> #[trigger] out@[i]@ == placement(crate::resource::view_of(table), i),
{
    let mut out: Vec<BoundTransform> = Vec::new();
    let mut i: usize = 0;
    let mut at: usize = 0;
    while i < n
        invariant
            i <= n <= 0xFFFF,
            at == 64 * i,
            table matches Some(b) ==> b@.len() == n * 64,
            out@.len() == i,
            forall|k: int|
                0 <= k < i ==> #[trigger] out@[k]@ == placement(crate::resource::view_of(table), k),
        decreases n - i,
    {
        let t = match table {
            Some(b) => {
                let t = BoundTransform {
                    columns: [
                        vec3_le(b, at),
                        vec3_le(b, at + 16),
                        vec3_le(b, at + 32),
                        vec3_le(b, at + 48),
                    ],
                };
                assert(t@ =~= columns_at(b@, i as int));
                t
            },
            None => BoundTransform::identity(),
        };
        out.push(t);
        at = at + 64;
        i += 1;
    }
    out
}

spec fn bound_of(r: Result<Bound, BoundError>) -> Result<BoundView, BoundErrorView> {
    match r {
        Ok(b) => Ok(b@),
        Err(e) => Err(e@),
    }
}

spec fn children_of(r: Result<Vec<(Bound, BoundTransform)>, BoundError>) -> Result<
    Seq<(BoundView, Seq<Vec3>)>,
    BoundErrorView,
> {
    match r {
        Ok(c) => Ok(children_view(c@)),
        Err(e) => Err(e@),
    }
}

fn fault(f: BoundFault) -> (e: BoundError)
    ensures
        e@ == here(f),
{
    let e = BoundError { path: Vec::new(), fault: f };
    assert(e@ =~= here(f));
    e
}

fn child_error(i: usize, e: BoundError) -> (r: BoundError)
    ensures
        r@ == from_child(i as int, e@),
{
    let mut path: Vec<usize> = Vec::new();
    path.push(i);
    let mut k: usize = 0;
    while k < e.path.len()
        invariant
            k <= e.path@.len(),
            path@ == seq![i] + e.path@.take(k as int),
        decreases e.path@.len() - k,
    {
        path.push(e.path[k]);
        assert(seq![i] + e.path@.take(k + 1) =~= (seq![i] + e.path@.take(k as int)).push(
            e.path@[k as int],
        ));
        k += 1;
    }
    let r = BoundError { path, fault: e.fault };
    assert(e.path@.take(e.path@.len() as int) =~= e.path@);
    assert(r@ =~= from_child(i as int, e@));
    r
}

proof fn lemma_children_err(
    s: (Seq<u8>, Seq<u8>),
    pointers: Seq<u64>,
    table: Option<Seq<u8>>,
    i: nat,
    n: nat,
    depth: int,
)
    requires
        i <= n,
        children_upto(s, pointers, table, i, depth) is Err,
    ensures
        children_upto(s, pointers, table, n, depth) == children_upto(s, pointers, table, i, depth),
    decreases n,
{
    if i < n {
        lemma_children_err(s, pointers, table, i, (n - 1) as nat, depth);
    }
}

fn read_composite_children(r: &ResReader<'_>, va: u64, depth: usize) -> (c: Result<
    Vec<(Bound, BoundTransform)>,
    BoundError,
>)
    requires
        depth <= MAX_DEPTH,
    ensures
        children_of(c) == children_at((r.system@, r.graphics@), va, depth as int),
    decreases MAX_DEPTH + 1 - depth, 0int,
{
    let ghost s = (r.system@, r.graphics@);
    let b = match r.resolve(va, 0xB0) {
        Some(b) => b,
        None => {
            return Err(fault(BoundFault::CompositeHeader));
        },
    };
    assert(b@.len() == 0xB0);
    let count = u16_le(b, 0xA0) as usize;
    let mut children: Vec<(Bound, BoundTransform)> = Vec::new();
    assert(children_view(children@) =~= Seq::empty());
    if count == 0 {
        return Ok(children);
    }
    let children_ptr = u64_le(b, 0x70);
    if children_ptr == 0 {
        return Ok(children);
    }
    let pointers = match r.read_u64_list(children_ptr, count) {
        Some(p) => p,
        None => {
            return Err(fault(BoundFault::ChildPointers));
        },
    };
    let table: Option<&[u8]> = match r.resolve_optional(u64_le(b, 0x78), count * 64) {
        Some(Some(tb)) => Some(tb),
        _ => None,
    };
    let transforms = read_transforms(table, count);
    let ghost t = crate::resource::view_of(table);
    assert(t == r.at(crate::bytes::le64(b@, 0x78), count * 64));
    let ghost all = children_at(s, va, depth as int);
    assert(all == children_upto(s, pointers@, t, count as nat, depth as int));
    let mut i: usize = 0;
    while i < count
        invariant
            i <= count,
            count == pointers@.len(),
            count == transforms@.len(),
            depth <= MAX_DEPTH,
            s == (r.system@, r.graphics@),
            all == children_at(s, va, depth as int),
            all == children_upto(s, pointers@, t, count as nat, depth as int),
            forall|k: int| 0 <= k < count ==> #[trigger] transforms@[k]@ == placement(t, k),
            children_upto(s, pointers@, t, i as nat, depth as int) == Ok::<
                Seq<(BoundView, Seq<Vec3>)>,
                BoundErrorView,
            >(children_view(children@)),
        decreases count - i,
    {
        let ptr = pointers[i];
        if ptr != 0 {
            match read_bound(r, ptr, depth + 1) {
                Err(e) => {
                    let e = child_error(i, e);
                    proof {
                        lemma_children_err(
                            s,
                            pointers@,
                            t,
                            (i + 1) as nat,
                            count as nat,
                            depth as int,
                        );
                    }
                    return Err(e);
                },
                Ok(child) => {
                    let ghost had = children_view(children@);
                    let ghost now = (child@, transforms@[i as int]@);
                    children.push((child, transforms[i]));
                    assert(children_view(children@) =~= had.push(now));
                },
            }
        }
        i += 1;
    }
    Ok(children)
}

fn read_bound(r: &ResReader<'_>, va: u64, depth: usize) -> (b: Result<Bound, BoundError>)
    requires
        depth <= MAX_DEPTH + 1,
    ensures
        bound_of(b) == bound_at((r.system@, r.graphics@), va, depth as int),
    decreases MAX_DEPTH + 1 - depth, 1int,
{
    if depth > MAX_DEPTH {
        return Err(fault(BoundFault::TooDeep));
    }
    let head = match r.resolve(va, BOUND_HEADER) {
        Some(h) => h,
        None => {
            return Err(fault(BoundFault::Header(va)));
        },
    };
    assert(head@.len() == 0x70);
    let kind = BoundKind::from_byte(head[0x10]);
    let box_max = vec3_le(head, 0x20);
    let box_min = vec3_le(head, 0x30);
    let mut geometry: Option<BoundGeometry> = None;
    let mut children: Vec<(Bound, BoundTransform)> = Vec::new();
    assert(children_view(children@) =~= Seq::<(BoundView, Seq<Vec3>)>::empty());
    match kind {
        BoundKind::Geometry | BoundKind::GeometryBvh => {
            match read_geometry(r, va) {
                Ok(g) => {
                    geometry = Some(g);
                },
                Err(f) => {
                    return Err(fault(f));
                },
            }
        },
        BoundKind::Composite => {
            match read_composite_children(r, va, depth) {
                Ok(c) => {
                    children = c;
                },
                Err(e) => {
                    return Err(e);
                },
            }
        },
        _ => {},
    }
    let bound = Bound { kind, box_min, box_max, geometry, children };
    assert(bound@.children =~= children_view(bound.children@));
    assert(bound@ =~= bound_at((r.system@, r.graphics@), va, depth as int)->Ok_0);
    Ok(bound)
}

/// Parses a `.ybn` (RSC7 bytes, deflated or stored).
pub fn parse_ybn(data: &[u8]) -> (r: Result<Ybn, YbnError>)
    ensures
        exists|sections: Result<(Seq<u8>, Seq<u8>), ResourceError>| #[trigger]
            crate::resource::unpacks_to(data@, sections) && (match r {
                Ok(y) => Ok::<BoundView, YbnErrorView>(y.root@),
                Err(e) => Err(e@),
            }) == read_file(sections),
{
    let unpacked = prepare_rsc7(data);
    let ghost sections = crate::resource::sections_view(unpacked);
    assert(crate::resource::unpacks_to(data@, sections));
    match unpacked {
        Err(e) => Err(YbnError::Resource(e)),
        Ok((system, graphics)) => {
            let reader = ResReader { system: system.as_slice(), graphics: graphics.as_slice() };
            match read_bound(&reader, SYSTEM_BASE, 0) {
                Err(e) => Err(YbnError::Bound(e)),
                Ok(root) => Ok(Ybn { root }),
            }
        },
    }
}

// ─── walking the tree ────────────────────────────────────────────────────────

/// The geometries of a tree, depth first, a bound before its children.
pub open spec fn geometries_in(b: BoundView) -> Seq<GeometryView>
    decreases b, b.children.len() + 1,
{
    (match b.geometry {
        Some(g) => seq![g],
        None => Seq::empty(),
    }) + geometries_below(b, b.children.len())
}

/// The geometries under the first `n` children of a bound.
pub open spec fn geometries_below(b: BoundView, n: nat) -> Seq<GeometryView>
    decreases b, n,
{
    if n == 0 || n > b.children.len() {
        Seq::empty()
    } else {
        proof {
            assert(decreases_to!(b => b.children));
            assert(decreases_to!(b.children => b.children[n - 1]));
            assert(decreases_to!(b.children[n - 1] => b.children[n - 1].0));
        }
        geometries_below(b, (n - 1) as nat) + geometries_in(b.children[n - 1].0)
    }
}

/// The models of a list of borrowed geometries.
pub open spec fn borrowed_view(s: Seq<&BoundGeometry>) -> Seq<GeometryView> {
    Seq::new(s.len(), |i: int| s[i]@)
}

fn walk<'a>(b: &'a Bound, out: &mut Vec<&'a BoundGeometry>)
    ensures
        borrowed_view(final(out)@) == borrowed_view(old(out)@) + geometries_in(b@),
    decreases b,
{
    let ghost had = borrowed_view(out@);
    if let Some(g) = &b.geometry {
        out.push(g);
        assert(borrowed_view(out@) =~= had + seq![g@]);
    } else {
        assert(borrowed_view(out@) =~= had + Seq::empty());
    }
    let ghost own = borrowed_view(out@);
    assert(b@.children =~= children_view(b.children@));
    let mut i: usize = 0;
    assert(own =~= own + geometries_below(b@, 0));
    while i < b.children.len()
        invariant
            i <= b.children@.len(),
            b@.children == children_view(b.children@),
            borrowed_view(out@) == own + geometries_below(b@, i as nat),
        decreases b.children@.len() - i,
    {
        proof {
            assert(decreases_to!(b => b.children));
            assert(decreases_to!(b.children => b.children@));
            assert(decreases_to!(b.children@ => b.children@[i as int]));
            assert(decreases_to!(b.children@[i as int] => b.children@[i as int].0));
        }
        walk(&b.children[i].0, out);
        assert(b@.children[i as int].0 == b.children@[i as int].0@);
        assert(borrowed_view(out@) =~= own + geometries_below(b@, (i + 1) as nat));
        i += 1;
    }
    assert(borrowed_view(out@) =~= had + geometries_in(b@));
}

/// The low byte of a triangle's material, or 0 where it has none.
pub open spec fn material_of(g: GeometryView, t: BoundTriangleView) -> u8 {
    if t.material_index < g.materials.len() {
        (g.materials[t.material_index as int] & 0xFF) as u8
    } else {
        0
    }
}

/// Whether every corner of a triangle is a vertex of the geometry.
pub open spec fn corners_exist(g: GeometryView, t: BoundTriangleView) -> bool {
    &&& t.indices[0] < g.vertices.len()
    &&& t.indices[1] < g.vertices.len()
    &&& t.indices[2] < g.vertices.len()
}

/// A triangle with its vertices in place of their numbers.
pub open spec fn flattened(g: GeometryView, t: BoundTriangleView) -> TriangleView {
    TriangleView {
        vertices: seq![
            g.vertices[t.indices[0] as int],
            g.vertices[t.indices[1] as int],
            g.vertices[t.indices[2] as int],
        ],
        material: material_of(g, t),
    }
}

/// The first `n` triangles of a geometry, without those whose corners are no
/// vertices.
pub open spec fn flat_triangles(g: GeometryView, n: nat) -> Seq<TriangleView>
    decreases n,
{
    if n == 0 {
        Seq::empty()
    } else {
        let before = flat_triangles(g, (n - 1) as nat);
        let t = g.triangles[n - 1];
        if corners_exist(g, t) {
            before.push(flattened(g, t))
        } else {
            before
        }
    }
}

/// A geometry's triangles under the transforms of the bounds above it,
/// outermost first.
pub open spec fn group_of(g: GeometryView, above: Seq<Seq<Vec3>>) -> GroupView {
    GroupView {
        quantum: g.quantum,
        center: g.center,
        transforms: above.reverse(),
        triangles: flat_triangles(g, g.triangles.len()),
    }
}

/// The triangles of a tree under the transforms above it, depth first, a
/// bound before its children.
pub open spec fn groups_in(b: BoundView, above: Seq<Seq<Vec3>>) -> Seq<GroupView>
    decreases b, b.children.len() + 1,
{
    (match b.geometry {
        Some(g) => seq![group_of(g, above)],
        None => Seq::empty(),
    }) + groups_below(b, above, b.children.len())
}

/// The triangles under the first `n` children of a bound.
pub open spec fn groups_below(b: BoundView, above: Seq<Seq<Vec3>>, n: nat) -> Seq<GroupView>
    decreases b, n,
{
    if n == 0 || n > b.children.len() {
        Seq::empty()
    } else {
        proof {
            assert(decreases_to!(b => b.children));
            assert(decreases_to!(b.children => b.children[n - 1]));
            assert(decreases_to!(b.children[n - 1] => b.children[n - 1].0));
        }
        groups_below(b, above, (n - 1) as nat) + groups_in(
            b.children[n - 1].0,
            above.push(b.children[n - 1].1),
        )
    }
}

fn flat_triangle(g: &BoundGeometry, t: &BoundTriangle) -> (r: Option<Triangle>)
    ensures
        match r {
            Some(x) => corners_exist(g@, t@) && x@ == flattened(g@, t@),
            None => !corners_exist(g@, t@),
        },
{
    let n = g.vertices.len();
    let a = t.indices[0] as usize;
    let b = t.indices[1] as usize;
    let c = t.indices[2] as usize;
    if a >= n || b >= n || c >= n {
        return None;
    }
    let m = t.material_index as usize;
    let material: u8 = if m < g.materials.len() {
        (g.materials[m] & 0xFF) as u8
    } else {
        0
    };
    let r = Triangle { vertices: [g.vertices[a], g.vertices[b], g.vertices[c]], material };
    assert(r@.vertices =~= flattened(g@, t@).vertices);
    Some(r)
}

fn group(g: &BoundGeometry, stack: &Vec<BoundTransform>) -> (r: TriangleGroup)
    ensures
        r@ == group_of(g@, transforms_view(stack@)),
{
    let mut triangles: Vec<Triangle> = Vec::new();
    assert(flat_view(triangles@) =~= flat_triangles(g@, 0));
    let mut i: usize = 0;
    while i < g.triangles.len()
        invariant
            i <= g.triangles@.len(),
            flat_view(triangles@) == flat_triangles(g@, i as nat),
        decreases g.triangles@.len() - i,
    {
        let ghost had = flat_view(triangles@);
        assert(g@.triangles[i as int] == g.triangles@[i as int]@);
        if let Some(t) = flat_triangle(g, &g.triangles[i]) {
            triangles.push(t);
            assert(flat_view(triangles@) =~= had.push(t@));
        }
        i += 1;
    }
    let mut transforms: Vec<BoundTransform> = Vec::new();
    let mut k: usize = stack.len();
    while k > 0
        invariant
            k <= stack@.len(),
            transforms@.len() == stack@.len() - k,
            forall|j: int|
                0 <= j < transforms@.len() ==> #[trigger] transforms@[j] == stack@[stack@.len() - 1
                    - j],
        decreases k,
    {
        k -= 1;
        transforms.push(stack[k]);
    }
    let r = TriangleGroup { quantum: g.quantum, center: g.center, transforms, triangles };
    assert(r@.transforms =~= transforms_view(stack@).reverse());
    assert(r@ =~= group_of(g@, transforms_view(stack@)));
    r
}

fn collect_triangles(
    bound: &Bound,
    stack: &mut Vec<BoundTransform>,
    out: &mut Vec<TriangleGroup>,
)
    ensures
        groups_view(final(out)@) == groups_view(old(out)@) + groups_in(
            bound@,
            transforms_view(old(stack)@),
        ),
        final(stack)@ == old(stack)@,
    decreases bound,
{
    let ghost above = transforms_view(stack@);
    let ghost kept = stack@;
    let ghost had = groups_view(out@);
    if let Some(g) = &bound.geometry {
        let t = group(g, stack);
        out.push(t);
        assert(groups_view(out@) =~= had + seq![t@]);
    } else {
        assert(groups_view(out@) =~= had + Seq::empty());
    }
    let ghost own = groups_view(out@);
    assert(bound@.children =~= children_view(bound.children@));
    let mut i: usize = 0;
    assert(own =~= own + groups_below(bound@, above, 0));
    while i < bound.children.len()
        invariant
            i <= bound.children@.len(),
            bound@.children == children_view(bound.children@),
            stack@ == kept,
            above == transforms_view(kept),
            groups_view(out@) == own + groups_below(bound@, above, i as nat),
        decreases bound.children@.len() - i,
    {
        proof {
            assert(decreases_to!(bound => bound.children));
            assert(decreases_to!(bound.children => bound.children@));
            assert(decreases_to!(bound.children@ => bound.children@[i as int]));
            assert(decreases_to!(bound.children@[i as int] => bound.children@[i as int].0));
        }
        stack.push(bound.children[i].1);
        assert(transforms_view(stack@) =~= above.push(bound.children@[i as int].1@));
        collect_triangles(&bound.children[i].0, stack, out);
        stack.pop();
        assert(stack@ =~= kept);
        assert(bound@.children[i as int] == (
            bound.children@[i as int].0@,
            bound.children@[i as int].1@,
        ));
        assert(groups_view(out@) =~= own + groups_below(bound@, above, (i + 1) as nat));
        i += 1;
    }
    assert(groups_view(out@) =~= had + groups_in(bound@, above));
}

impl Ybn {
    /// Every triangle in the file, with what places it.
    pub fn triangles(&self) -> (out: Vec<TriangleGroup>)
        ensures
            groups_view(out@) == groups_in(self.root@, Seq::empty()),
    {
        let mut out: Vec<TriangleGroup> = Vec::new();
        let mut stack: Vec<BoundTransform> = Vec::new();
        assert(transforms_view(stack@) =~= Seq::<Seq<Vec3>>::empty());
        assert(groups_view(out@) =~= Seq::<GroupView>::empty());
        collect_triangles(&self.root, &mut stack, &mut out);
        assert(groups_view(out@) =~= groups_in(self.root@, Seq::empty()));
        out
    }

    /// Every geometry bound in the tree, depth first.
    pub fn geometries(&self) -> (out: Vec<&BoundGeometry>)
        ensures
            borrowed_view(out@) == geometries_in(self.root@),
    {
        let mut out: Vec<&BoundGeometry> = Vec::new();
        assert(borrowed_view(out@) =~= Seq::<GeometryView>::empty());
        walk(&self.root, &mut out);
        assert(borrowed_view(out@) =~= geometries_in(self.root@));
        out
    }
}

// ─── laws ────────────────────────────────────────────────────────────────────

/// The flattened groups stand in the order of the geometries, one for each.
pub proof fn law_one_group_per_geometry(b: BoundView, above: Seq<Seq<Vec3>>)
    ensures
        groups_in(b, above).len() == geometries_in(b).len(),
        forall|i: int|
            0 <= i < geometries_in(b).len() ==> (#[trigger] groups_in(b, above)[i]).quantum
                == geometries_in(b)[i].quantum && groups_in(b, above)[i].triangles
                == flat_triangles(geometries_in(b)[i], geometries_in(b)[i].triangles.len()),
    decreases b, b.children.len() + 1,
{
    lemma_groups_below(b, above, b.children.len());
}

proof fn lemma_groups_below(b: BoundView, above: Seq<Seq<Vec3>>, n: nat)
    requires
        n <= b.children.len(),
    ensures
        groups_below(b, above, n).len() == geometries_below(b, n).len(),
        forall|i: int|
            0 <= i < geometries_below(b, n).len() ==> (#[trigger] groups_below(
                b,
                above,
                n,
            )[i]).quantum == geometries_below(b, n)[i].quantum && groups_below(
                b,
                above,
                n,
            )[i].triangles == flat_triangles(
                geometries_below(b, n)[i],
                geometries_below(b, n)[i].triangles.len(),
            ),
    decreases b, n,
{
    if n > 0 {
        lemma_groups_below(b, above, (n - 1) as nat);
        assert(decreases_to!(b => b.children));
        assert(decreases_to!(b.children => b.children[n - 1]));
        assert(decreases_to!(b.children[n - 1] => b.children[n - 1].0));
        law_one_group_per_geometry(b.children[n - 1].0, above.push(b.children[n - 1].1));
    }
}

} // verus!
