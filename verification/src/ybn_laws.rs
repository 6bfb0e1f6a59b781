//! What the bytes of a collision file mean.

use vstd::prelude::*;

use crate::layout::{stands, triple_bytes};
use crate::math::Vec3;
use crate::ybn::{BoundFault, BoundKind, BoundTriangleView, GeometryView, QuantisedVertex};

verus! {

broadcast use crate::layout::group_fields_stand;

/// What the header of a geometry says.
pub struct GeometryHeader {
    pub polygons: u64,
    pub quantum: Vec3,
    pub center: Vec3,
    pub vertices: u64,
    pub vertex_count: u32,
    pub polygon_count: u32,
    pub materials: u64,
    pub polygon_materials: u64,
    pub material_count: u8,
}

/// Whether a header's bytes say that, each field at its own place.
pub open spec fn header_says(b: Seq<u8>, h: GeometryHeader) -> bool {
    &&& b.len() == 0x130
    &&& stands(b, 0x88, crate::bytes::le64_bytes(h.polygons))
    &&& stands(b, 0x90, triple_bytes(h.quantum))
    &&& stands(b, 0xA0, triple_bytes(h.center))
    &&& stands(b, 0xB0, crate::bytes::le64_bytes(h.vertices))
    &&& stands(b, 0xD0, crate::bytes::le32_bytes(h.vertex_count))
    &&& stands(b, 0xD4, crate::bytes::le32_bytes(h.polygon_count))
    &&& stands(b, 0xF0, crate::bytes::le64_bytes(h.materials))
    &&& stands(b, 0x118, crate::bytes::le64_bytes(h.polygon_materials))
    &&& b[0x120] == h.material_count
}

/// The bytes of one stored coordinate.
pub open spec fn coordinate_bytes(c: i16) -> Seq<u8> {
    crate::bytes::le16_bytes(c as u16)
}

/// Whether the vertices stand one after the other, six bytes each, as their
/// `x`, `y` and `z`.
pub open spec fn vertices_stand(b: Seq<u8>, vs: Seq<QuantisedVertex>) -> bool {
    &&& b.len() == 6 * vs.len()
    &&& forall|i: int|
        0 <= i < vs.len() ==> stands(b, 6 * i, coordinate_bytes((#[trigger] vs[i]).x)) && stands(
            b,
            6 * i + 2,
            coordinate_bytes(vs[i].y),
        ) && stands(b, 6 * i + 4, coordinate_bytes(vs[i].z))
}

/// Whether the triangles stand one after the other, sixteen bytes each: no
/// kind bit set, then the three corners from the fifth byte on.
pub open spec fn triangles_stand(b: Seq<u8>, ts: Seq<BoundTriangleView>) -> bool {
    &&& b.len() == 16 * ts.len()
    &&& forall|i: int|
        0 <= i < ts.len() ==> {
            &&& (#[trigger] ts[i]).indices.len() == 3
            &&& b[16 * i] == 0
            &&& forall|j: int|
                0 <= j < 3 ==> (#[trigger] ts[i].indices[j]) < 0x8000 && stands(
                    b,
                    16 * i + 4 + 2 * j,
                    crate::bytes::le16_bytes(ts[i].indices[j]),
                )
        }
}

/// Whether the materials stand one after the other, a word and four bytes
/// that say nothing here each.
pub open spec fn materials_stand(b: Seq<u8>, ms: Seq<u32>) -> bool {
    &&& b.len() == 8 * ms.len()
    &&& forall|i: int|
        0 <= i < ms.len() ==> stands(b, 8 * i, crate::bytes::le32_bytes(#[trigger] ms[i]))
}

proof fn lemma_coordinate(c: i16)
    ensures
        (c as u16) as i16 == c,
{
    assert((c as u16) as i16 == c) by (bit_vector);
}

/// A corner is the half word that stands for it without its top bit, which says
/// something else.
pub proof fn law_corners_leave_their_top_bit_out(b: Seq<u8>, off: int, v: u16)
    requires
        stands(b, off, crate::bytes::le16_bytes(v)),
    ensures
        crate::ybn::corner(b, off) == v % 0x8000,
{
    assert(v & 0x7FFF == v % 0x8000) by (bit_vector);
}

proof fn lemma_triangles(b: Seq<u8>, ts: Seq<BoundTriangleView>, materials: Seq<u8>, n: int)
    requires
        triangles_stand(b, ts),
        materials.len() == ts.len(),
        forall|i: int| 0 <= i < ts.len() ==> (#[trigger] ts[i]).material_index == materials[i],
        0 <= n <= ts.len(),
    ensures
        crate::ybn::triangle_list(b, materials, n) == ts.take(n),
    decreases n,
{
    if n > 0 {
        let i = n - 1;
        lemma_triangles(b, ts, materials, i);
        let t = ts[i];
        assert(0u8 & 7u8 == 0u8) by (bit_vector);
        assert(crate::ybn::is_triangle(b, i));
        assert forall|j: int| 0 <= j < 3 implies crate::ybn::corner(b, 16 * i + 4 + 2 * j)
            == #[trigger] t.indices[j] by {
            let v = t.indices[j];
            law_corners_leave_their_top_bit_out(b, 16 * i + 4 + 2 * j, v);
        }
        let read = crate::ybn::triangle_at(b, materials, i);
        assert(crate::ybn::corner(b, 16 * i + 4) == t.indices[0]);
        assert(crate::ybn::corner(b, 16 * i + 6) == t.indices[1]);
        assert(crate::ybn::corner(b, 16 * i + 8) == t.indices[2]);
        assert(read.indices =~= t.indices);
        assert(read == t);
        assert(ts.take(n) =~= ts.take(i).push(t));
    } else {
        assert(ts.take(n) =~= Seq::empty());
    }
}

/// A geometry is read back from its bytes, whatever they are: the size of a
/// step and the centre each from their own place in the header, every vertex,
/// triangle and material from the table that the header points at.
pub proof fn law_geometries_read_back(
    s: (Seq<u8>, Seq<u8>),
    b: Seq<u8>,
    h: GeometryHeader,
    g: GeometryView,
    vertices: Seq<u8>,
    polygons: Seq<u8>,
    of_polygons: Seq<u8>,
    materials: Seq<u8>,
)
    requires
        header_says(b, h),
        h.quantum == g.quantum,
        h.center == g.center,
        h.vertex_count == g.vertices.len(),
        h.polygon_count == g.triangles.len(),
        g.primitive_count == 0,
        g.materials.len() >= 4,
        h.material_count == g.materials.len() || h.material_count < 4 && g.materials.len() == 4,
        crate::resource::resolved(s.0, s.1, h.vertices, 6 * g.vertices.len() as int) == Some(vertices),
        crate::resource::resolved(s.0, s.1, h.polygons, 16 * g.triangles.len() as int) == Some(polygons),
        crate::resource::resolved(s.0, s.1, h.polygon_materials, g.triangles.len() as int) == Some(
            of_polygons,
        ),
        crate::resource::resolved(s.0, s.1, h.materials, 8 * g.materials.len() as int) == Some(materials),
        vertices_stand(vertices, g.vertices),
        triangles_stand(polygons, g.triangles),
        of_polygons.len() == g.triangles.len(),
        forall|i: int|
            0 <= i < g.triangles.len() ==> (#[trigger] g.triangles[i]).material_index
                == of_polygons[i],
        materials_stand(materials, g.materials),
    ensures
        crate::ybn::geometry_in(s, b) == Ok::<GeometryView, BoundFault>(g),
{
    let n = g.vertices.len() as int;
    assert forall|i: int| 0 <= i < n implies #[trigger] crate::ybn::vertex_at(vertices, 6 * i)
        == g.vertices[i] by {
        let v = g.vertices[i];
        assert(stands(vertices, 6 * i, coordinate_bytes(v.x)));
        assert(stands(vertices, 6 * i, crate::bytes::le16_bytes(v.x as u16)));
        assert(stands(vertices, 6 * i + 2, crate::bytes::le16_bytes(v.y as u16)));
        assert(stands(vertices, 6 * i + 4, crate::bytes::le16_bytes(v.z as u16)));
        lemma_coordinate(v.x);
        lemma_coordinate(v.y);
        lemma_coordinate(v.z);
    }
    assert(crate::ybn::vertex_list(vertices, n) =~= g.vertices);
    lemma_triangles(polygons, g.triangles, of_polygons, g.triangles.len() as int);
    assert(g.triangles.take(g.triangles.len() as int) =~= g.triangles);
    let slots = g.materials.len() as int;
    assert(crate::ybn::material_slots(b[0x120] as int) == slots);
    assert(crate::ybn::material_list(materials, slots) =~= g.materials);
    let read = crate::ybn::geometry_in(s, b);
    assert(n > 0 || g.vertices =~= Seq::empty());
    assert(g.triangles.len() > 0 || g.triangles =~= Seq::empty());
    assert(read->Ok_0 =~= g);
}

/// The size of a step and the centre of a geometry come from their own places
/// in its header, for every header whose tables can be read.
pub proof fn law_quantum_and_center(
    s: (Seq<u8>, Seq<u8>),
    b: Seq<u8>,
    quantum: Vec3,
    center: Vec3,
)
    requires
        stands(b, 0x90, triple_bytes(quantum)),
        stands(b, 0xA0, triple_bytes(center)),
        crate::ybn::geometry_in(s, b) is Ok,
    ensures
        crate::ybn::geometry_in(s, b)->Ok_0.quantum == quantum,
        crate::ybn::geometry_in(s, b)->Ok_0.center == center,
{
}

/// Each kind of bound has one byte of its own, and every other byte is kept.
pub proof fn law_kind_bytes(b: u8)
    ensures
        crate::ybn::kind_of(0) == BoundKind::Sphere,
        crate::ybn::kind_of(1) == BoundKind::Capsule,
        crate::ybn::kind_of(3) == BoundKind::Box,
        crate::ybn::kind_of(4) == BoundKind::Geometry,
        crate::ybn::kind_of(8) == BoundKind::GeometryBvh,
        crate::ybn::kind_of(10) == BoundKind::Composite,
        crate::ybn::kind_of(12) == BoundKind::Disc,
        crate::ybn::kind_of(13) == BoundKind::Cylinder,
        crate::ybn::kind_of(15) == BoundKind::Cloth,
        forall|a: u8, c: u8| #[trigger]
            crate::ybn::kind_of(a) == #[trigger] crate::ybn::kind_of(c) ==> a == c,
        !set![0u8, 1, 3, 4, 8, 10, 12, 13, 15].contains(b) ==> crate::ybn::kind_of(b)
            == BoundKind::Unknown(b),
{
}

/// A bound has the kind and the box that stand in its header, the upper
/// corner before the lower one.
pub proof fn law_bound_headers(
    s: (Seq<u8>, Seq<u8>),
    va: u64,
    depth: int,
    head: Seq<u8>,
    min: Vec3,
    max: Vec3,
)
    requires
        crate::resource::resolved(s.0, s.1, va, 0x70) == Some(head),
        stands(head, 0x20, triple_bytes(max)),
        stands(head, 0x30, triple_bytes(min)),
        crate::ybn::bound_at(s, va, depth) is Ok,
    ensures
        crate::ybn::bound_at(s, va, depth)->Ok_0.box_min == min,
        crate::ybn::bound_at(s, va, depth)->Ok_0.box_max == max,
        crate::ybn::bound_at(s, va, depth)->Ok_0.kind == crate::ybn::kind_of(head[0x10]),
        crate::ybn::bound_at(s, va, depth)->Ok_0.geometry is Some <==> head[0x10] == 4
            || head[0x10] == 8,
        crate::ybn::bound_at(s, va, depth)->Ok_0.children.len() > 0 ==> head[0x10] == 10,
{
}

/// Among the polygons of a table the triangles are those whose low three bits
/// are zero. Each has its three corners in order, their top bits left out, and
/// the material byte of its own place; the others are only counted.
pub proof fn law_polygons_are_told_apart(b: Seq<u8>, materials: Seq<u8>, i: int, n: int)
    requires
        0 <= i < n,
        16 * n <= b.len(),
        materials.len() == n,
    ensures
        b[16 * i] % 8 != 0 ==> crate::ybn::triangle_list(b, materials, i + 1)
            == crate::ybn::triangle_list(b, materials, i),
        b[16 * i] % 8 == 0 ==> {
            let before = crate::ybn::triangle_list(b, materials, i);
            let after = crate::ybn::triangle_list(b, materials, i + 1);
            &&& after.len() == before.len() + 1
            &&& after.drop_last() == before
            &&& after.last().material_index == materials[i]
            &&& after.last().indices.len() == 3
            &&& forall|j: int|
                0 <= j < 3 ==> #[trigger] after.last().indices[j] == crate::bytes::le16(
                    b,
                    16 * i + 4 + 2 * j,
                ) % 0x8000
        },
{
    let k = b[16 * i];
    assert((k & 7 == 0) == (k % 8 == 0)) by (bit_vector);
    if k % 8 == 0 {
        let before = crate::ybn::triangle_list(b, materials, i);
        let after = crate::ybn::triangle_list(b, materials, i + 1);
        assert(after == before.push(crate::ybn::triangle_at(b, materials, i)));
        assert(after.drop_last() =~= before);
        assert forall|j: int| 0 <= j < 3 implies #[trigger] after.last().indices[j]
            == crate::bytes::le16(b, 16 * i + 4 + 2 * j) % 0x8000 by {
            let v = crate::bytes::le16(b, 16 * i + 4 + 2 * j);
            assert(v & 0x7FFF == v % 0x8000) by (bit_vector);
        }
    }
}

/// Where every corner is a vertex, each triangle of a geometry is flattened in
/// its turn: its three vertices are those that its corners number, in order,
/// and its material is the low byte of the word that its index picks.
pub proof fn law_triangles_are_flattened(g: GeometryView, n: nat)
    requires
        n <= g.triangles.len(),
        forall|k: int, j: int|
            0 <= k < g.triangles.len() && 0 <= j < 3 ==> (#[trigger] g.triangles[k].indices[j])
                < g.vertices.len(),
        forall|k: int|
            0 <= k < g.triangles.len() ==> (#[trigger] g.triangles[k]).material_index
                < g.materials.len(),
    ensures
        crate::ybn::flat_triangles(g, n).len() == n,
        forall|k: int, j: int|
            0 <= k < n && 0 <= j < 3 ==> #[trigger] crate::ybn::flat_triangles(
                g,
                n,
            )[k].vertices[j] == g.vertices[g.triangles[k].indices[j] as int],
        forall|k: int|
            0 <= k < n ==> (#[trigger] crate::ybn::flat_triangles(g, n)[k]).material
                == g.materials[g.triangles[k].material_index as int] % 0x100,
    decreases n,
{
    if n > 0 {
        law_triangles_are_flattened(g, (n - 1) as nat);
        let t = g.triangles[n - 1];
        assert(g.triangles[n - 1].indices[0] < g.vertices.len());
        assert(g.triangles[n - 1].indices[1] < g.vertices.len());
        assert(g.triangles[n - 1].indices[2] < g.vertices.len());
        assert(crate::ybn::corners_exist(g, t));
        let m = g.materials[t.material_index as int];
        assert((m & 0xFF) as u8 == m % 0x100) by (bit_vector);
    }
}

/// A geometry below a child stands under the child's transform and then under
/// those above: the transforms of a group come innermost first.
pub proof fn law_transforms_come_innermost_first(
    g: GeometryView,
    above: Seq<Seq<Vec3>>,
    own: Seq<Vec3>,
)
    ensures
        crate::ybn::group_of(g, above.push(own)).transforms == seq![own]
            + crate::ybn::group_of(g, above).transforms,
        crate::ybn::group_of(g, Seq::empty()).transforms.len() == 0,
        crate::ybn::group_of(g, above).quantum == g.quantum,
        crate::ybn::group_of(g, above).center == g.center,
{
    assert(above.push(own).reverse() =~= seq![own] + above.reverse());
}

/// A child's transform has the four columns that stand in its parent's table,
/// sixteen bytes apart; without a table it moves nothing.
pub proof fn law_transforms_read_back(table: Seq<u8>, i: int, columns: Seq<Vec3>)
    requires
        0 <= i,
        columns.len() == 4,
        forall|k: int|
            0 <= k < 4 ==> stands(table, 64 * i + 16 * k, triple_bytes(#[trigger] columns[k])),
    ensures
        crate::ybn::placement(Some(table), i) == columns,
        crate::ybn::placement(None, i).len() == 4,
        forall|k: int|
            0 <= k < 4 ==> {
                let c = #[trigger] crate::ybn::placement(None, i)[k];
                &&& c.x == (if k == 0 { 0x3F80_0000u32 } else { 0 })
                &&& c.y == (if k == 1 { 0x3F80_0000u32 } else { 0 })
                &&& c.z == (if k == 2 { 0x3F80_0000u32 } else { 0 })
            },
{
    assert(stands(table, 64 * i + 16 * 0, triple_bytes(columns[0])));
    assert(stands(table, 64 * i + 16 * 1, triple_bytes(columns[1])));
    assert(stands(table, 64 * i + 16 * 2, triple_bytes(columns[2])));
    assert(stands(table, 64 * i + 16 * 3, triple_bytes(columns[3])));
    assert(crate::ybn::placement(Some(table), i) =~= columns);
}

proof fn lemma_children(
    s: (Seq<u8>, Seq<u8>),
    pointers: Seq<u64>,
    table: Option<Seq<u8>>,
    n: nat,
    depth: int,
)
    requires
        n <= pointers.len(),
        forall|i: int| 0 <= i < pointers.len() ==> #[trigger] pointers[i] != 0,
        crate::ybn::children_upto(s, pointers, table, n, depth) is Ok,
    ensures
        crate::ybn::children_upto(s, pointers, table, n, depth)->Ok_0.len() == n,
        forall|i: int|
            0 <= i < n ==> Ok::<crate::ybn::BoundView, crate::ybn::BoundErrorView>(
                (#[trigger] crate::ybn::children_upto(s, pointers, table, n, depth)->Ok_0[i]).0,
            ) == crate::ybn::bound_at(s, pointers[i], depth + 1),
        forall|i: int|
            0 <= i < n ==> (#[trigger] crate::ybn::children_upto(
                s,
                pointers,
                table,
                n,
                depth,
            )->Ok_0[i]).1 == crate::ybn::placement(table, i),
    decreases n,
{
    if n > 0 {
        assert(pointers[n - 1] != 0);
        lemma_children(s, pointers, table, (n - 1) as nat, depth);
    }
}

/// A composite has one child for each pointer in the list that its header
/// points at, in that order: the bound at that address, placed by the
/// transform of the same number.
pub proof fn law_composites_read_back(
    s: (Seq<u8>, Seq<u8>),
    va: u64,
    depth: int,
    b: Seq<u8>,
    list: u64,
    transforms: u64,
    pointers: Seq<u64>,
    p: Seq<u8>,
)
    requires
        crate::resource::resolved(s.0, s.1, va, 0xB0) == Some(b),
        0 < pointers.len() <= 0xFFFF,
        list != 0,
        stands(b, 0x70, crate::bytes::le64_bytes(list)),
        stands(b, 0x78, crate::bytes::le64_bytes(transforms)),
        stands(b, 0xA0, crate::bytes::le16_bytes(pointers.len() as u16)),
        crate::resource::resolved(s.0, s.1, list, 8 * pointers.len() as int) == Some(p),
        forall|i: int|
            0 <= i < pointers.len() ==> #[trigger] pointers[i] != 0 && stands(
                p,
                8 * i,
                crate::bytes::le64_bytes(pointers[i]),
            ),
        crate::ybn::children_at(s, va, depth) is Ok,
    ensures
        crate::ybn::children_at(s, va, depth)->Ok_0.len() == pointers.len(),
        forall|i: int|
            0 <= i < pointers.len() ==> Ok::<crate::ybn::BoundView, crate::ybn::BoundErrorView>(
                (#[trigger] crate::ybn::children_at(s, va, depth)->Ok_0[i]).0,
            ) == crate::ybn::bound_at(s, pointers[i], depth + 1),
        forall|i: int|
            0 <= i < pointers.len() ==> (#[trigger] crate::ybn::children_at(s, va, depth)->Ok_0[i]).1
                == crate::ybn::placement(
                crate::resource::resolved(s.0, s.1, transforms, 64 * pointers.len() as int),
                i,
            ),
{
    let n = pointers.len();
    assert(crate::resource::le64_list(p, n) =~= pointers);
    let table = crate::resource::resolved(s.0, s.1, transforms, 64 * n as int);
    lemma_children(s, pointers, table, n, depth);
}

} // verus!
