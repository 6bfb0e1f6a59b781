use rage_formats::math::Vec3;
use rage_formats::ynv::{
    cell_file_name, parse_ynv, NavEdge, NavPoint, NavPoly, NavPortal, NavVertex, Ynv,
};
use rage_formats::ynv_write::{plan_is_fit, sector_part, serialize_ynv, NavBox, NavPlan, SectorBox};

#[derive(Clone, Copy, Debug)]
struct P {
    x: f32,
    y: f32,
    z: f32,
}

fn p(x: f32, y: f32, z: f32) -> P {
    P { x, y, z }
}

fn bits(v: P) -> Vec3 {
    Vec3::new(v.x.to_bits(), v.y.to_bits(), v.z.to_bits())
}

fn number(v: Vec3) -> P {
    p(f32::from_bits(v.x), f32::from_bits(v.y), f32::from_bits(v.z))
}

fn quantise(y: &Ynv, v: P) -> NavVertex {
    let (min, size) = (number(y.bb_min), number(y.bb_size));
    let q = |v: f32, min: f32, size: f32| ((v - min) / size * 65535.0).round().clamp(0.0, 65535.0) as u16;
    NavVertex { x: q(v.x, min.x, size.x), y: q(v.y, min.y, size.y), z: q(v.z, min.z, size.z) }
}

fn unquantise(y: &Ynv, v: NavVertex) -> P {
    let (min, size) = (number(y.bb_min), number(y.bb_size));
    let u = |v: u16, min: f32, size: f32| min + v as f32 / 65535.0 * size;
    p(u(v.x, min.x, size.x), u(v.y, min.y, size.y), u(v.z, min.z, size.z))
}

fn cell_box(min: P, max: P) -> NavBox {
    NavBox {
        min_x: (min.x * 4.0).floor() as i16,
        max_x: (max.x * 4.0).ceil() as i16,
        min_y: (min.y * 4.0).floor() as i16,
        max_y: (max.y * 4.0).ceil() as i16,
        min_z: (min.z * 4.0).floor() as i16,
        max_z: (max.z * 4.0).ceil() as i16,
    }
}

fn sectors(min: P, max: P, depth: u32, out: &mut Vec<SectorBox>) {
    let cen = p((min.x + max.x) * 0.5, (min.y + max.y) * 0.5, (min.z + max.z) * 0.5);
    out.push(SectorBox {
        min: bits(min),
        max: bits(max),
        centre: bits(cen),
        cell: cell_box(min, max),
    });
    if depth > 0 {
        for (a, b) in [
            (cen, max),
            (p(cen.x, min.y, 0.0), p(max.x, cen.y, 0.0)),
            (min, cen),
            (p(min.x, cen.y, 0.0), p(cen.x, max.y, 0.0)),
        ] {
            sectors(a, b, depth - 1, out);
        }
    }
}

/// The boxes and positions that a mesh is written by.
fn plan(y: &Ynv) -> NavPlan {
    let cells = y
        .polys
        .iter()
        .map(|poly| {
            let vs: Vec<P> = poly.vertices.iter().map(|v| unquantise(y, *v)).collect();
            let pick = |f: fn(f32, f32) -> f32| {
                vs.iter().copied().reduce(|a, b| p(f(a.x, b.x), f(a.y, b.y), f(a.z, b.z))).unwrap()
            };
            cell_box(pick(f32::min), pick(f32::max))
        })
        .collect();
    let positions = y.points.iter().map(|pt| bits(unquantise(y, pt.position))).collect();
    let mut out = Vec::new();
    sectors(number(y.bb_min), number(y.bb_max), if y.is_vehicle() { 0 } else { 2 }, &mut out);
    NavPlan { cells, positions, sectors: out }
}

fn new_cell(area: u32, min: P, max: P) -> Ynv {
    let size = p(max.x - min.x, max.y - min.y, max.z - min.z);
    Ynv::new_cell(area, bits(min), bits(max), bits(size))
}

fn corners(x: f32, y: f32, z: f32, s: f32) -> [P; 4] {
    [p(x, y, z), p(x + s, y, z), p(x + s, y + s, z), p(x, y + s, z)]
}

fn square(cell: &Ynv, x: f32, y: f32, z: f32, s: f32) -> Vec<NavVertex> {
    corners(x, y, z, s).iter().map(|v| quantise(cell, *v)).collect()
}

fn write(y: &Ynv) -> Vec<u8> {
    serialize_ynv(y, &plan(y)).unwrap_or_else(|e| panic!("{}", e.message()))
}

#[test]
fn two_polygons_round_trip() {
    let mut ynv = new_cell(3236, p(-600.0, -1200.0, -100.0), p(-450.0, -1050.0, 200.0));
    let mut a = NavPoly::new(square(&ynv, -580.0, -1070.0, 22.4, 2.0));
    let mut b = NavPoly::new(square(&ynv, -578.0, -1070.0, 22.4, 2.0));
    a.set_interior(true);
    a.set_flat_ground(true);
    b.flags0 = 4;
    a.edges[1] = NavEdge::neighbour(3236, 1);
    b.edges[3] = NavEdge::neighbour(3236, 0);
    b.edges[0] = NavEdge::neighbour(3136, 77);
    ynv.polys = vec![a, b];
    let at = quantise(&ynv, p(-579.0, -1069.0, 22.4));
    ynv.points.push(NavPoint { position: at, angle: 12, kind: 3 });
    ynv.portals.push(NavPortal {
        kind: 1,
        angle: 9,
        flags_unk: 0,
        from: at,
        to: quantise(&ynv, p(-577.0, -1069.0, 22.4)),
        poly_from: 0,
        poly_to: 1,
        area_from: 3236,
        area_to: 3236,
        area_unk: 0,
    });
    ynv.polys[0].portal_links = vec![0];

    let bytes = write(&ynv);
    let back = parse_ynv(&bytes).unwrap();

    assert_eq!(back.area_id, 3236);
    assert_eq!(back.content_flags, ynv.content_flags);
    assert_eq!(back.polys.len(), 2);
    assert!(back.polys[0].is_interior() && back.polys[0].is_flat_ground());
    assert_eq!(back.polys[1].flags0, 4);
    assert_eq!(back.polys[0].edges[1], NavEdge::neighbour(3236, 1));
    assert_eq!(back.polys[1].edges[0], NavEdge::neighbour(3136, 77));
    assert_eq!(back.polys[1].edges[1], NavEdge::none());
    assert_eq!(back.polys[0].portal_links, vec![0]);
    assert_eq!(back.points.len(), 1);
    assert_eq!(back.points[0].kind, 3);
    assert_eq!(back.portals.len(), 1);
    assert_eq!(back.portals[0].poly_to, 1);
    // Quantisation error inside a 150 m cell is well under 5 mm.
    let want = [square(&ynv, -580.0, -1070.0, 22.4, 2.0), square(&ynv, -578.0, -1070.0, 22.4, 2.0)];
    let exact = [corners(-580.0, -1070.0, 22.4, 2.0), corners(-578.0, -1070.0, 22.4, 2.0)];
    for (k, q) in back.polys.iter().enumerate() {
        assert_eq!(q.vertices, want[k]);
        assert_eq!(q.vertices.len(), exact[k].len());
        for (w, v) in q.vertices.iter().zip(&exact[k]) {
            let w = unquantise(&back, *w);
            let d = (v.x - w.x).hypot(v.y - w.y).hypot(v.z - w.z);
            assert!(d < 0.005, "{v:?} vs {w:?}");
        }
    }
    let v = unquantise(&back, back.points[0].position);
    assert!((v.x + 579.0).hypot(v.y + 1069.0).hypot(v.z - 22.4) < 0.01);

    // Shared vertices are written once.
    let again = write(&back);
    assert_eq!(parse_ynv(&again).unwrap().polys, back.polys);
}

#[test]
fn empty_cell_is_valid() {
    let ynv = new_cell(1, p(0.0, 0.0, 0.0), p(150.0, 150.0, 100.0));
    let back = parse_ynv(&write(&ynv)).unwrap();
    assert!(back.polys.is_empty());
    assert_eq!(back.bb_max, ynv.bb_max);
}

#[test]
fn a_large_mesh_spans_several_list_parts() {
    let mut ynv = new_cell(3236, p(-600.0, -1200.0, -100.0), p(-450.0, -1050.0, 200.0));
    for k in 0..800u16 {
        let v = |x: u16, y: u16| NavVertex { x: 80 * k + x, y, z: k };
        let mut poly = NavPoly::new(vec![v(0, 0), v(40, 0), v(40, 900), v(0, 900)]);
        poly.flags1 = k as u32;
        ynv.polys.push(poly);
    }
    let back = parse_ynv(&write(&ynv)).unwrap();
    assert_eq!(back.polys, ynv.polys);
    assert_eq!(back, ynv);
}

#[test]
fn polygons_that_cannot_be_written_are_refused() {
    let mut ynv = new_cell(5, p(0.0, 0.0, 0.0), p(150.0, 150.0, 100.0));
    let v = NavVertex { x: 1, y: 2, z: 3 };
    ynv.polys.push(NavPoly::new(vec![v, v]));
    let err = serialize_ynv(&ynv, &plan(&ynv)).unwrap_err();
    assert_eq!(err.message(), "polygon 0 has 2 vertices");
    ynv.polys[0] = NavPoly::new(vec![v, v, v]);
    ynv.polys[0].portal_links = vec![0; 8];
    let err = serialize_ynv(&ynv, &plan(&ynv)).unwrap_err();
    assert_eq!(err.message(), "polygon 0 has more than 7 portal links");
    ynv.polys[0].portal_links.clear();
    ynv.polys = (0..12)
        .map(|k| {
            let mut poly = NavPoly::new(vec![v, v, v]);
            for e in 0..3 {
                poly.edges[e] = NavEdge::neighbour(1000 + 3 * k + e as u32, 0);
            }
            poly
        })
        .collect();
    assert!(serialize_ynv(&ynv, &plan(&ynv)).is_err());
}

#[test]
fn cells_are_named_by_three_times_their_index() {
    assert_eq!(cell_file_name(36, 32), "navmesh[108][96].ynv");
    assert_eq!(new_cell(3236, p(0.0, 0.0, 0.0), p(1.0, 1.0, 1.0)).cell(), Some((36, 32)));
    assert_eq!(new_cell(10000, p(0.0, 0.0, 0.0), p(1.0, 1.0, 1.0)).cell(), None);
}

#[test]
fn a_second_write_gives_the_same_bytes() {
    let mut ynv = new_cell(3236, p(-600.0, -1200.0, -100.0), p(-450.0, -1050.0, 200.0));
    for k in 0..40u16 {
        let v = |x: u16, y: u16| NavVertex { x: 1600 * k + x, y: 700 * k + y, z: k };
        let mut poly = NavPoly::new(vec![v(0, 0), v(800, 0), v(800, 900)]);
        poly.edges[0] = NavEdge::neighbour(3236 + (k as u32 % 3), k as u32);
        ynv.polys.push(poly);
    }
    ynv.points.push(NavPoint { position: NavVertex { x: 9, y: 9, z: 9 }, angle: 1, kind: 2 });
    let boxes = plan(&ynv);
    let bytes = serialize_ynv(&ynv, &boxes).unwrap();
    let back = parse_ynv(&bytes).unwrap();
    assert_eq!(back, ynv);
    assert_eq!(serialize_ynv(&back, &boxes).unwrap(), bytes);
}

#[test]
fn sectors_are_parts_of_the_box() {
    let y = new_cell(7, p(0.0, 0.0, 0.0), p(150.0, 150.0, 40.0));
    let good = plan(&y);
    assert!(plan_is_fit(&y, &good));
    assert_eq!(good.sectors.len(), 21);
    let (min, max) = sector_part(&good.sectors[0], 1);
    assert_eq!(min, bits(p(75.0, 0.0, 0.0)));
    assert_eq!(max, bits(p(150.0, 75.0, 0.0)));
    assert_eq!((good.sectors[6].min, good.sectors[6].max), (min, max));
    let mut other = plan(&y);
    other.sectors[7].min = bits(p(1.0, 0.0, 0.0));
    assert!(!plan_is_fit(&y, &other));
    let mut moved = new_cell(7, p(0.0, 0.0, 0.0), p(150.0, 150.0, 40.0));
    moved.bb_min = bits(p(-1.0, 0.0, 0.0));
    assert!(!plan_is_fit(&moved, &good));
}
