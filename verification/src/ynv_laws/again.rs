//! A navmesh that was read and is written again stays the same.

use vstd::prelude::*;

use crate::math::Vec3;
use crate::ynv::{NavEdge, NavEdgeEnd, NavPoint, NavPortal, NavVertex, PolyView, YnvError, YnvView};
use crate::ynv_write::{Encoded, NavBox, PlanView, SectorBox, TreeState};

verus! {

// ─── what was read is as a file keeps it ─────────────────────────────────────

proof fn lemma_end_kept(raw: u32, areas: Seq<u32>, count: u32)
    ensures
        crate::ynv_laws::polys::kept_end(crate::ynv::end_of(raw, areas, count))
            == crate::ynv::end_of(raw, areas, count),
{
}

proof fn lemma_named_length(
    poly: int,
    indices: Seq<u16>,
    start: int,
    vertices: Seq<NavVertex>,
    k: nat,
)
    ensures
        match crate::ynv::named_vertices(poly, indices, start, vertices, k) {
            Ok(v) => v.len() == k,
            Err(_) => true,
        },
    decreases k,
{
    if k > 0 {
        lemma_named_length(poly, indices, start, vertices, (k - 1) as nat);
    }
}

/// Whether every edge of a list is as a file keeps it.
spec fn edges_kept(edges: Seq<NavEdge>) -> bool {
    forall|i: int|
        0 <= i < edges.len() ==> crate::ynv_laws::polys::kept_edge(#[trigger] edges[i])
            == edges[i]
}

proof fn lemma_poly_kept(s: Seq<u8>, i: int, lists: crate::ynv::Lists, poly: int)
    requires
        edges_kept(lists.edges),
    ensures
        match crate::ynv::poly_at(s, i, lists, poly) {
            Ok(p) => crate::ynv_laws::polys::kept_poly(p) == p,
            Err(_) => true,
        },
{
    let count = (crate::bytes::le16(s, i + 2) / 32) as int;
    let start = crate::bytes::le16(s, i + 4) as int;
    lemma_named_length(poly, lists.indices, start, lists.vertices, count as nat);
    match crate::ynv::poly_at(s, i, lists, poly) {
        Ok(p) => {
            let kept = crate::ynv_laws::polys::kept_poly(p);
            assert forall|j: int| 0 <= j < count implies kept.edges[j] == p.edges[j] by {
                assert(p.edges[j] == lists.edges[start + j]);
            }
            assert(kept.edges =~= p.edges);
        },
        Err(_) => {},
    }
}

proof fn lemma_polys_kept(s: Seq<u8>, lists: crate::ynv::Lists, k: nat)
    requires
        edges_kept(lists.edges),
    ensures
        match crate::ynv::poly_list(s, lists, k) {
            Ok(polys) => crate::ynv_laws::polys::kept_polys(polys) == polys,
            Err(_) => true,
        },
    decreases k,
{
    if k > 0 {
        lemma_polys_kept(s, lists, (k - 1) as nat);
        lemma_poly_kept(s, 48 * (k - 1), lists, k - 1);
        match crate::ynv::poly_list(s, lists, k) {
            Ok(polys) => {
                let before = crate::ynv::poly_list(s, lists, (k - 1) as nat)->Ok_0;
                let kept = crate::ynv_laws::polys::kept_polys(before);
                assert forall|i: int| 0 <= i < polys.len() implies
                    crate::ynv_laws::polys::kept_polys(polys)[i] == polys[i] by {
                    if i < before.len() {
                        assert(kept[i] == before[i]);
                    }
                }
                assert(crate::ynv_laws::polys::kept_polys(polys) =~= polys);
            },
            Err(_) => {},
        }
    } else {
        assert(crate::ynv_laws::polys::kept_polys(Seq::empty()) =~= Seq::<PolyView>::empty());
    }
}

proof fn lemma_edges_kept(d: Seq<u8>, areas: Seq<u32>, count: u32)
    ensures
        edges_kept(crate::ynv::edge_list(d, areas, count)),
{
    let edges = crate::ynv::edge_list(d, areas, count);
    assert forall|j: int| 0 <= j < edges.len() implies crate::ynv_laws::polys::kept_edge(
        #[trigger] edges[j],
    ) == edges[j] by {
        lemma_end_kept(crate::bytes::le32(d, 8 * j), areas, count);
        lemma_end_kept(crate::bytes::le32(d, 8 * j + 4), areas, count);
    }
}

proof fn lemma_portal_kept(b: Seq<u8>, i: int)
    ensures
        crate::ynv_laws::items::kept_portal(crate::ynv::portal_at(b, i))
            == crate::ynv::portal_at(b, i),
{
}

proof fn lemma_portals_kept(system: Seq<u8>, graphics: Seq<u8>, va: u64, count: u32)
    ensures
        match crate::ynv::portal_list(system, graphics, va, count) {
            Ok(portals) => crate::ynv_laws::items::kept_portals(portals) == portals,
            Err(_) => true,
        },
{
    match crate::ynv::portal_list(system, graphics, va, count) {
        Ok(portals) => {
            let kept = crate::ynv_laws::items::kept_portals(portals);
            if count > 0 {
                let b = crate::resource::resolved(system, graphics, va, count * 28)->0;
                assert forall|j: int| 0 <= j < kept.len() implies kept[j] == portals[j] by {
                    lemma_portal_kept(b, 28 * j);
                }
            }
            assert(kept =~= portals);
        },
        Err(_) => {},
    }
}

/// Every polygon, edge, flag and portal of a navmesh that was read fits the
/// bits that a file has for it: written and read again, they are the same.
pub proof fn law_read_navmeshes_survive(system: Seq<u8>, graphics: Seq<u8>, y: YnvView)
    requires
        crate::ynv::parsed(system, graphics) == Ok::<YnvView, YnvError>(y),
    ensures
        crate::ynv_laws::polys::kept_polys(y.polys) == y.polys,
        crate::ynv_laws::items::kept_portals(y.portals) == y.portals,
{
    let h = crate::resource::resolved(
        system,
        graphics,
        crate::resource::SYSTEM_BASE,
        crate::ynv::NAVMESH_SIZE as int,
    )->0;
    let (v, i, d, p) = crate::ynv::read_lists(system, graphics, h)->Ok_0;
    let lists = crate::ynv::Lists {
        vertices: crate::ynv::vertex_list(v),
        indices: crate::resource::le16_list(i, (i.len() / 2) as nat),
        edges: crate::ynv::edge_list(d, crate::ynv::area_table(h), crate::bytes::le32(h, 0x94)),
        links: crate::ynv::link_list(
            system,
            graphics,
            crate::bytes::le64(h, 0x130),
            crate::bytes::le32(h, 0x150),
        ),
    };
    lemma_edges_kept(d, crate::ynv::area_table(h), crate::bytes::le32(h, 0x94));
    lemma_polys_kept(p, lists, (p.len() / 48) as nat);
    lemma_portals_kept(
        system,
        graphics,
        crate::bytes::le64(h, 0x128),
        crate::bytes::le32(h, 0x14C),
    );
}

// ─── polygons ────────────────────────────────────────────────────────────────

proof fn lemma_word_kept(at: int, end: NavEdgeEnd)
    ensures
        crate::ynv_write::end_word(at, crate::ynv_laws::polys::kept_end(end))
            == crate::ynv_write::end_word(at, end),
{
}

proof fn lemma_corner_again(e: Encoded, v: NavVertex, edge: NavEdge)
    ensures
        crate::ynv_write::with_corner(e, v, crate::ynv_laws::polys::kept_edge(edge))
            == crate::ynv_write::with_corner(e, v, edge),
{
    match crate::ynv_write::with_area(e.areas, edge.a.area_id) {
        Err(_) => {},
        Ok((areas, at_a)) => {
            lemma_word_kept(at_a, edge.a);
            match crate::ynv_write::with_area(areas, edge.b.area_id) {
                Err(_) => {},
                Ok((_, at_b)) => {
                    lemma_word_kept(at_b, edge.b);
                },
            }
        },
    }
}

proof fn lemma_corners_again(e: Encoded, p: PolyView, k: nat)
    requires
        k <= p.vertices.len(),
    ensures
        crate::ynv_write::with_corners(e, crate::ynv_laws::polys::kept_poly(p), k)
            == crate::ynv_write::with_corners(e, p, k),
    decreases k,
{
    if k > 0 {
        lemma_corners_again(e, p, (k - 1) as nat);
        match crate::ynv_write::with_corners(e, p, (k - 1) as nat) {
            Err(_) => {},
            Ok(before) => {
                lemma_corner_again(
                    before,
                    p.vertices[k - 1],
                    crate::ynv_write::edge_at(p.edges, k - 1),
                );
            },
        }
    }
}

proof fn lemma_polys_again(y: YnvView, plan: PlanView, z: YnvView, plan2: PlanView, k: nat)
    requires
        z.polys == crate::ynv_laws::polys::kept_polys(y.polys),
        z.area_id == y.area_id,
        plan2.cells == plan.cells,
        k <= y.polys.len(),
    ensures
        crate::ynv_write::with_polys(z, plan2, k) == crate::ynv_write::with_polys(y, plan, k),
    decreases k,
{
    if k > 0 {
        lemma_polys_again(y, plan, z, plan2, (k - 1) as nat);
        match crate::ynv_write::with_polys(y, plan, (k - 1) as nat) {
            Err(_) => {},
            Ok(e) => {
                let p = y.polys[k - 1];
                lemma_corners_again(e, p, p.vertices.len());
                assert(z.polys[k - 1] == crate::ynv_laws::polys::kept_poly(p));
            },
        }
    }
}

proof fn lemma_portal_again(p: NavPortal)
    ensures
        crate::ynv_write::portal_bytes(crate::ynv_laws::items::kept_portal(p))
            == crate::ynv_write::portal_bytes(p),
{
    let q = crate::ynv_laws::items::kept_portal(p);
    assert(q.area_from % 0x4000 == p.area_from % 0x4000);
    assert(q.area_to % 0x4000 == p.area_to % 0x4000);
    assert(q.area_unk % 16 == p.area_unk % 16);
}

proof fn lemma_portals_again(v: Seq<NavPortal>, k: nat)
    requires
        k <= v.len(),
    ensures
        crate::ynv_write::portals_bytes(crate::ynv_laws::items::kept_portals(v), k)
            == crate::ynv_write::portals_bytes(v, k),
    decreases k,
{
    if k > 0 {
        lemma_portals_again(v, (k - 1) as nat);
        lemma_portal_again(v[k - 1]);
    }
}

// ─── points ──────────────────────────────────────────────────────────────────

/// The boxes of the leaves below a sector, in the order in which they are
/// written.
pub open spec fn leaves(plan: PlanView, i: int, depth: nat) -> Seq<SectorBox>
    decreases depth, 5nat,
{
    if depth == 0 {
        seq![plan.sectors[i]]
    } else {
        quad_leaves(plan, i, depth, 4)
    }
}

/// The boxes of the leaves below the first `k` parts of a sector.
pub open spec fn quad_leaves(plan: PlanView, i: int, depth: nat, k: nat) -> Seq<SectorBox>
    decreases depth, k,
{
    if k == 0 || depth == 0 || k > 4 {
        Seq::empty()
    } else {
        quad_leaves(plan, i, depth, (k - 1) as nat) + leaves(
            plan,
            i + 1 + (k - 1) * crate::ynv_write::sector_count((depth - 1) as nat),
            (depth - 1) as nat,
        )
    }
}

/// Whether a position lies over some box.
pub open spec fn covered(x: Vec3, done: Seq<SectorBox>) -> bool {
    exists|i: int| 0 <= i < done.len() && #[trigger] crate::ynv_write::lies_in(x, done[i])
}

spec fn goes_into(x: Vec3, done: Seq<SectorBox>, b: SectorBox) -> bool {
    crate::ynv_write::lies_in(x, b) && !covered(x, done)
}

/// The points that go into a leaf when some others are done.
spec fn picked(
    points: Seq<NavPoint>,
    place: spec_fn(NavVertex) -> Vec3,
    done: Seq<SectorBox>,
    b: SectorBox,
) -> Seq<NavPoint>
    decreases points.len(),
{
    if points.len() == 0 {
        Seq::empty()
    } else {
        let before = picked(points.drop_last(), place, done, b);
        if goes_into(place(points.last().position), done, b) {
            before.push(points.last())
        } else {
            before
        }
    }
}

/// The points in the order in which the leaves are read.
spec fn ordered(
    points: Seq<NavPoint>,
    place: spec_fn(NavVertex) -> Vec3,
    done: Seq<SectorBox>,
    boxes: Seq<SectorBox>,
) -> Seq<NavPoint>
    decreases boxes.len(),
{
    if boxes.len() == 0 {
        Seq::empty()
    } else {
        picked(points, place, done + boxes.drop_last(), boxes.last()) + ordered(
            points,
            place,
            done,
            boxes.drop_last(),
        )
    }
}

/// Whether the points are marked that lie over some boxes.
spec fn marked(
    points: Seq<NavPoint>,
    place: spec_fn(NavVertex) -> Vec3,
    used: Seq<bool>,
    done: Seq<SectorBox>,
) -> bool {
    &&& used.len() == points.len()
    &&& forall|j: int|
        0 <= j < points.len() ==> (#[trigger] used[j] <==> covered(
            place(points[j].position),
            done,
        ))
}

/// The positions of some points.
pub open spec fn placed(points: Seq<NavPoint>, place: spec_fn(NavVertex) -> Vec3) -> Seq<Vec3> {
    Seq::new(points.len(), |i: int| place(points[i].position))
}

proof fn lemma_covered_push(x: Vec3, done: Seq<SectorBox>, b: SectorBox)
    ensures
        covered(x, done.push(b)) <==> covered(x, done) || crate::ynv_write::lies_in(x, b),
{
    let all = done.push(b);
    if covered(x, done) {
        let i = choose|i: int|
            0 <= i < done.len() && #[trigger] crate::ynv_write::lies_in(x, done[i]);
        assert(crate::ynv_write::lies_in(x, all[i]));
    }
    if crate::ynv_write::lies_in(x, b) {
        assert(crate::ynv_write::lies_in(x, all[done.len() as int]));
    }
    if covered(x, all) {
        let i = choose|i: int|
            0 <= i < all.len() && #[trigger] crate::ynv_write::lies_in(x, all[i]);
        if i < done.len() {
            assert(crate::ynv_write::lies_in(x, done[i]));
        }
    }
}

proof fn lemma_points_picked(
    points: Seq<NavPoint>,
    place: spec_fn(NavVertex) -> Vec3,
    used: Seq<bool>,
    done: Seq<SectorBox>,
    b: SectorBox,
    k: nat,
)
    requires
        marked(points, place, used, done),
        k <= points.len(),
    ensures
        ({
            let (own, now) = crate::ynv_write::points_in(
                points,
                placed(points, place),
                b,
                used,
                k,
            );
            &&& own == picked(points.take(k as int), place, done, b)
            &&& now.len() == points.len()
            &&& forall|j: int|
                0 <= j < points.len() ==> (#[trigger] now[j] <==> if j < k {
                    covered(place(points[j].position), done.push(b))
                } else {
                    covered(place(points[j].position), done)
                })
        }),
    decreases k,
{
    if k > 0 {
        lemma_points_picked(points, place, used, done, b, (k - 1) as nat);
        let x = place(points[k - 1].position);
        lemma_covered_push(x, done, b);
        assert(points.take(k as int).drop_last() =~= points.take(k - 1));
        assert(points.take(k as int).last() == points[k - 1]);
        assert(placed(points, place)[k - 1] == x);
        let (own0, now0) = crate::ynv_write::points_in(
            points,
            placed(points, place),
            b,
            used,
            (k - 1) as nat,
        );
        assert(now0[k - 1] <==> covered(x, done));
    } else {
        assert(points.take(0) =~= Seq::<NavPoint>::empty());
    }
}

proof fn lemma_leaf_picked(
    points: Seq<NavPoint>,
    place: spec_fn(NavVertex) -> Vec3,
    used: Seq<bool>,
    done: Seq<SectorBox>,
    b: SectorBox,
)
    requires
        marked(points, place, used, done),
    ensures
        ({
            let (own, now) = crate::ynv_write::points_in(
                points,
                placed(points, place),
                b,
                used,
                points.len(),
            );
            own == picked(points, place, done, b) && marked(points, place, now, done.push(b))
        }),
{
    lemma_points_picked(points, place, used, done, b, points.len());
    assert(points.take(points.len() as int) =~= points);
}

proof fn lemma_ordered_split(
    points: Seq<NavPoint>,
    place: spec_fn(NavVertex) -> Vec3,
    done: Seq<SectorBox>,
    first: Seq<SectorBox>,
    rest: Seq<SectorBox>,
)
    ensures
        ordered(points, place, done, first + rest) == ordered(points, place, done + first, rest)
            + ordered(points, place, done, first),
    decreases rest.len(),
{
    let all = first + rest;
    if rest.len() == 0 {
        assert(all =~= first);
        assert(Seq::<NavPoint>::empty() + ordered(points, place, done, first) =~= ordered(
            points,
            place,
            done,
            first,
        ));
    } else {
        lemma_ordered_split(points, place, done, first, rest.drop_last());
        assert(all.drop_last() =~= first + rest.drop_last());
        assert(all.last() == rest.last());
        assert(done + all.drop_last() =~= done + first + rest.drop_last());
        let own = picked(points, place, done + first + rest.drop_last(), rest.last());
        let middle = ordered(points, place, done + first, rest.drop_last());
        let before = ordered(points, place, done, first);
        assert(own + (middle + before) =~= own + middle + before);
    }
}

proof fn lemma_tree_ordered(
    y: YnvView,
    plan: PlanView,
    i: int,
    depth: nat,
    place: spec_fn(NavVertex) -> Vec3,
    used: Seq<bool>,
    done: Seq<SectorBox>,
)
    requires
        plan.positions == placed(y.points, place),
        marked(y.points, place, used, done),
    ensures
        ({
            let (own, now) = crate::ynv_laws::tree::tree_order(y, plan, i, depth, used);
            &&& own == ordered(y.points, place, done, leaves(plan, i, depth))
            &&& marked(y.points, place, now, done + leaves(plan, i, depth))
        }),
    decreases depth, 5nat,
{
    if depth == 0 {
        let b = plan.sectors[i];
        lemma_leaf_picked(y.points, place, used, done, b);
        let one = leaves(plan, i, depth);
        assert(one =~= seq![b]);
        assert(one.drop_last() =~= Seq::<SectorBox>::empty());
        assert(done + one.drop_last() =~= done);
        assert(done + one =~= done.push(b));
        assert(ordered(y.points, place, done, one.drop_last()) =~= Seq::<NavPoint>::empty());
        assert(one.last() == b);
        let own = picked(y.points, place, done, b);
        assert(own + Seq::<NavPoint>::empty() =~= own);
    } else {
        lemma_quads_ordered(y, plan, i, depth, place, used, done, 4);
    }
}

proof fn lemma_quads_ordered(
    y: YnvView,
    plan: PlanView,
    i: int,
    depth: nat,
    place: spec_fn(NavVertex) -> Vec3,
    used: Seq<bool>,
    done: Seq<SectorBox>,
    k: nat,
)
    requires
        plan.positions == placed(y.points, place),
        marked(y.points, place, used, done),
        depth > 0,
        k <= 4,
    ensures
        ({
            let (own, now) = crate::ynv_laws::tree::quad_order(y, plan, i, depth, used, k);
            &&& own == ordered(y.points, place, done, quad_leaves(plan, i, depth, k))
            &&& marked(y.points, place, now, done + quad_leaves(plan, i, depth, k))
        }),
    decreases depth, k,
{
    if k == 0 {
        assert(done + quad_leaves(plan, i, depth, 0) =~= done);
    } else {
        lemma_quads_ordered(y, plan, i, depth, place, used, done, (k - 1) as nat);
        let (own0, now0) = crate::ynv_laws::tree::quad_order(
            y,
            plan,
            i,
            depth,
            used,
            (k - 1) as nat,
        );
        let first = quad_leaves(plan, i, depth, (k - 1) as nat);
        let at = i + 1 + (k - 1) * crate::ynv_write::sector_count((depth - 1) as nat);
        let rest = leaves(plan, at, (depth - 1) as nat);
        lemma_tree_ordered(y, plan, at, (depth - 1) as nat, place, now0, done + first);
        lemma_ordered_split(y.points, place, done, first, rest);
        assert(done + first + rest =~= done + (first + rest));
    }
}

proof fn lemma_picked_add(
    a: Seq<NavPoint>,
    b: Seq<NavPoint>,
    place: spec_fn(NavVertex) -> Vec3,
    done: Seq<SectorBox>,
    box_: SectorBox,
)
    ensures
        picked(a + b, place, done, box_) == picked(a, place, done, box_) + picked(
            b,
            place,
            done,
            box_,
        ),
    decreases b.len(),
{
    let left = picked(a, place, done, box_);
    if b.len() == 0 {
        assert(a + b =~= a);
        assert(left + Seq::<NavPoint>::empty() =~= left);
    } else {
        lemma_picked_add(a, b.drop_last(), place, done, box_);
        assert((a + b).drop_last() =~= a + b.drop_last());
        assert((a + b).last() == b.last());
        let right = picked(b.drop_last(), place, done, box_);
        assert((left + right).push(b.last()) =~= left + right.push(b.last()));
    }
}

/// What was picked for one leaf is picked for it again, and for no other.
proof fn lemma_picked_again(
    points: Seq<NavPoint>,
    place: spec_fn(NavVertex) -> Vec3,
    boxes: Seq<SectorBox>,
    j: int,
    k: int,
)
    requires
        0 <= j < boxes.len(),
        0 <= k < boxes.len(),
    ensures
        ({
            let group = picked(points, place, boxes.take(k), boxes[k]);
            picked(group, place, boxes.take(j), boxes[j]) == if j == k {
                group
            } else {
                Seq::<NavPoint>::empty()
            }
        }),
    decreases points.len(),
{
    if points.len() > 0 {
        lemma_picked_again(points.drop_last(), place, boxes, j, k);
        let x = place(points.last().position);
        let before = picked(points.drop_last(), place, boxes.take(k), boxes[k]);
        let group = picked(points, place, boxes.take(k), boxes[k]);
        if goes_into(x, boxes.take(k), boxes[k]) {
            assert(group.drop_last() =~= before);
            assert(group.last() == points.last());
            if j < k {
                assert(crate::ynv_write::lies_in(x, boxes[j]) ==> covered(x, boxes.take(k))) by {
                    if crate::ynv_write::lies_in(x, boxes[j]) {
                        assert(crate::ynv_write::lies_in(x, boxes.take(k)[j]));
                    }
                }
            } else if j > k {
                assert(covered(x, boxes.take(j))) by {
                    assert(crate::ynv_write::lies_in(x, boxes.take(j)[k]));
                }
            }
        }
    }
}

proof fn lemma_ordered_again(
    points: Seq<NavPoint>,
    place: spec_fn(NavVertex) -> Vec3,
    boxes: Seq<SectorBox>,
    j: int,
    n: int,
)
    requires
        0 <= j < boxes.len(),
        0 <= n <= boxes.len(),
    ensures
        picked(
            ordered(points, place, Seq::empty(), boxes.take(n)),
            place,
            boxes.take(j),
            boxes[j],
        ) == if j < n {
            picked(points, place, boxes.take(j), boxes[j])
        } else {
            Seq::<NavPoint>::empty()
        },
    decreases n,
{
    if n > 0 {
        lemma_ordered_again(points, place, boxes, j, n - 1);
        lemma_picked_again(points, place, boxes, j, n - 1);
        let all = boxes.take(n);
        assert(all.drop_last() =~= boxes.take(n - 1));
        assert(all.last() == boxes[n - 1]);
        assert(Seq::<SectorBox>::empty() + boxes.take(n - 1) =~= boxes.take(n - 1));
        let group = picked(points, place, boxes.take(n - 1), boxes[n - 1]);
        let rest = ordered(points, place, Seq::empty(), boxes.take(n - 1));
        lemma_picked_add(group, rest, place, boxes.take(j), boxes[j]);
        let own = picked(points, place, boxes.take(j), boxes[j]);
        assert(own + Seq::<NavPoint>::empty() =~= own);
        assert(Seq::<NavPoint>::empty() + own =~= own);
        assert(Seq::<NavPoint>::empty() + Seq::<NavPoint>::empty() =~= Seq::<NavPoint>::empty());
    }
}

// ─── the tree ────────────────────────────────────────────────────────────────

/// A navmesh and what was read of it, with their plans.
struct Pair {
    y: YnvView,
    plan: PlanView,
    z: YnvView,
    plan2: PlanView,
    place: spec_fn(NavVertex) -> Vec3,
    boxes: Seq<SectorBox>,
}

spec fn paired(p: Pair) -> bool {
    &&& p.plan2.cells == p.plan.cells
    &&& p.plan2.sectors == p.plan.sectors
    &&& p.plan.positions == placed(p.y.points, p.place)
    &&& p.plan2.positions == placed(p.z.points, p.place)
    &&& p.z.points == ordered(p.y.points, p.place, Seq::empty(), p.boxes)
}

/// Whether two states differ in nothing but in how the points are marked.
spec fn alike(p: Pair, a: TreeState, b: TreeState, done: Seq<SectorBox>) -> bool {
    &&& a.buf == b.buf
    &&& a.points == b.points
    &&& a.total == b.total
    &&& marked(p.y.points, p.place, a.used, done)
    &&& marked(p.z.points, p.place, b.used, done)
}

spec fn alike_results(
    p: Pair,
    a: Result<TreeState, YnvError>,
    b: Result<TreeState, YnvError>,
    done: Seq<SectorBox>,
) -> bool {
    match (a, b) {
        (Ok(x), Ok(y)) => alike(p, x, y, done),
        (Err(x), Err(y)) => x == y,
        _ => false,
    }
}

proof fn lemma_leaf_again(p: Pair, a: TreeState, b: TreeState, j: int)
    requires
        paired(p),
        0 <= j < p.boxes.len(),
        alike(p, a, b, p.boxes.take(j)),
    ensures
        alike_results(
            p,
            crate::ynv_write::with_leaf(p.y, p.plan, p.boxes[j], a),
            crate::ynv_write::with_leaf(p.z, p.plan2, p.boxes[j], b),
            p.boxes.take(j + 1),
        ),
{
    reveal(crate::ynv_write::with_leaf);
    let done = p.boxes.take(j);
    lemma_leaf_picked(p.y.points, p.place, a.used, done, p.boxes[j]);
    lemma_leaf_picked(p.z.points, p.place, b.used, done, p.boxes[j]);
    lemma_ordered_again(p.y.points, p.place, p.boxes, j, p.boxes.len() as int);
    assert(p.boxes.take(p.boxes.len() as int) =~= p.boxes);
    assert(done.push(p.boxes[j]) =~= p.boxes.take(j + 1));
}

proof fn lemma_sector_again(p: Pair, i: int, depth: nat, a: TreeState, b: TreeState, from: int)
    requires
        paired(p),
        0 <= from,
        from + leaves(p.plan, i, depth).len() <= p.boxes.len(),
        p.boxes.subrange(from, from + leaves(p.plan, i, depth).len()) == leaves(p.plan, i, depth),
        alike(p, a, b, p.boxes.take(from)),
    ensures
        alike_results(
            p,
            crate::ynv_write::with_sector(p.y, p.plan, i, depth, a),
            crate::ynv_write::with_sector(p.z, p.plan2, i, depth, b),
            p.boxes.take(from + leaves(p.plan, i, depth).len()),
        ),
    decreases depth, 5nat,
{
    let own = leaves(p.plan, i, depth);
    if depth == 0 {
        assert(p.boxes[from] == p.boxes.subrange(from, from + 1)[0]);
        lemma_leaf_again(p, a, b, from);
    } else {
        let a1 = TreeState {
            buf: crate::ynv_write::grown(a.buf, 96),
            total: a.total + 96,
            ..a
        };
        let b1 = TreeState {
            buf: crate::ynv_write::grown(b.buf, 96),
            total: b.total + 96,
            ..b
        };
        lemma_quads_again(p, i, depth, a1, b1, from, 4);
    }
}

proof fn lemma_quads_again(
    p: Pair,
    i: int,
    depth: nat,
    a: TreeState,
    b: TreeState,
    from: int,
    k: nat,
)
    requires
        paired(p),
        0 <= from,
        depth > 0,
        k <= 4,
        from + quad_leaves(p.plan, i, depth, k).len() <= p.boxes.len(),
        p.boxes.subrange(from, from + quad_leaves(p.plan, i, depth, k).len()) == quad_leaves(
            p.plan,
            i,
            depth,
            k,
        ),
        alike(p, a, b, p.boxes.take(from)),
    ensures
        match (
            crate::ynv_write::with_quads(p.y, p.plan, i, depth, a, k),
            crate::ynv_write::with_quads(p.z, p.plan2, i, depth, b, k),
        ) {
            (Ok(x), Ok(y)) => x.1 == y.1 && alike(
                p,
                x.0,
                y.0,
                p.boxes.take(from + quad_leaves(p.plan, i, depth, k).len()),
            ),
            (Err(x), Err(y)) => x == y,
            _ => false,
        },
    decreases depth, k,
{
    if k > 0 {
        let first = quad_leaves(p.plan, i, depth, (k - 1) as nat);
        let at = i + 1 + (k - 1) * crate::ynv_write::sector_count((depth - 1) as nat);
        let rest = leaves(p.plan, at, (depth - 1) as nat);
        let all = quad_leaves(p.plan, i, depth, k);
        assert(all == first + rest);
        let mid = from + first.len();
        assert(p.boxes.subrange(from, mid) =~= first) by {
            assert(p.boxes.subrange(from, mid) =~= p.boxes.subrange(
                from,
                from + all.len(),
            ).subrange(0, first.len() as int));
            assert(all.subrange(0, first.len() as int) =~= first);
        }
        assert(p.boxes.subrange(mid, mid + rest.len()) =~= rest) by {
            assert(p.boxes.subrange(mid, mid + rest.len()) =~= p.boxes.subrange(
                from,
                from + all.len(),
            ).subrange(first.len() as int, all.len() as int));
            assert(all.subrange(first.len() as int, all.len() as int) =~= rest);
        }
        lemma_quads_again(p, i, depth, a, b, from, (k - 1) as nat);
        match (
            crate::ynv_write::with_quads(p.y, p.plan, i, depth, a, (k - 1) as nat),
            crate::ynv_write::with_quads(p.z, p.plan2, i, depth, b, (k - 1) as nat),
        ) {
            (Ok(x), Ok(y)) => {
                lemma_sector_again(p, at, (depth - 1) as nat, x.0, y.0, mid);
            },
            _ => {},
        }
    }
}

/// How plans are made: the box of a polygon and the place of a point, each
/// from the corner and the size of the mesh's box, and of a sector its centre
/// and its box in quarter metres.
pub struct Planner {
    pub cell: spec_fn(Vec3, Vec3, Seq<NavVertex>) -> NavBox,
    pub place: spec_fn(Vec3, Vec3, NavVertex) -> Vec3,
    pub centre: spec_fn(Vec3, Vec3) -> Vec3,
    pub quarters: spec_fn(Vec3, Vec3) -> NavBox,
}

/// Where the points of a mesh lie.
pub open spec fn place_in(y: YnvView, made: Planner) -> spec_fn(NavVertex) -> Vec3 {
    |v: NavVertex| (made.place)(y.bb_min, y.bb_size, v)
}

/// Whether a sector is one that a planner makes.
pub open spec fn sector_made(b: SectorBox, made: Planner) -> bool {
    &&& b.centre == (made.centre)(b.min, b.max)
    &&& b.cell == (made.quarters)(b.min, b.max)
}

/// Whether a plan is the one that a planner makes of a mesh.
pub open spec fn planned(y: YnvView, plan: PlanView, made: Planner) -> bool {
    &&& crate::ynv_write::plan_fits(y, plan)
    &&& forall|i: int|
        0 <= i < y.polys.len() ==> #[trigger] plan.cells[i] == (made.cell)(
            y.bb_min,
            y.bb_size,
            y.polys[i].vertices,
        )
    &&& plan.positions == placed(y.points, place_in(y, made))
    &&& forall|i: int|
        0 <= i < plan.sectors.len() ==> sector_made(#[trigger] plan.sectors[i], made)
}

/// The sectors below one follow from its corners.
proof fn lemma_sectors_same(
    s: Seq<SectorBox>,
    t: Seq<SectorBox>,
    made: Planner,
    i: int,
    depth: nat,
    corners: (Vec3, Vec3),
)
    requires
        crate::ynv_write::sectors_fit(s, i, depth, corners),
        crate::ynv_write::sectors_fit(t, i, depth, corners),
        0 <= i,
        i + crate::ynv_write::sector_count(depth) <= s.len(),
        s.len() == t.len(),
        forall|k: int| 0 <= k < s.len() ==> sector_made(#[trigger] s[k], made),
        forall|k: int| 0 <= k < t.len() ==> sector_made(#[trigger] t[k], made),
    ensures
        forall|k: int|
            i <= k < i + crate::ynv_write::sector_count(depth) ==> #[trigger] s[k] == t[k],
    decreases depth,
{
    assert(crate::ynv_write::sector_count(depth) >= 1);
    assert(sector_made(s[i], made) && sector_made(t[i], made));
    assert(s[i] == t[i]);
    if depth > 0 {
        let d = (depth - 1) as nat;
        let n = crate::ynv_write::sector_count(d);
        let b = s[i];
        lemma_sectors_same(s, t, made, i + 1, d, crate::ynv_write::part_of(b, 0));
        lemma_sectors_same(s, t, made, i + 1 + n, d, crate::ynv_write::part_of(b, 1));
        lemma_sectors_same(s, t, made, i + 1 + 2 * n, d, crate::ynv_write::part_of(b, 2));
        lemma_sectors_same(s, t, made, i + 1 + 3 * n, d, crate::ynv_write::part_of(b, 3));
    }
}

/// A navmesh that was written and read, and is written again by its own plan,
/// gives the same bytes.
pub proof fn law_second_write_is_identical(
    y: YnvView,
    plan: PlanView,
    plan2: PlanView,
    made: Planner,
    first: Result<Vec<u8>, YnvError>,
    second: Result<Vec<u8>, YnvError>,
)
    requires
        planned(y, plan, made),
        planned(crate::ynv_laws::whole::read_back(y, plan), plan2, made),
        crate::ynv_write::image(y, plan) is Ok,
        crate::ynv_write::file_of(crate::ynv_write::image(y, plan)->Ok_0, first),
        first is Ok,
        match crate::ynv_write::image(crate::ynv_laws::whole::read_back(y, plan), plan2) {
            Ok(section) => crate::ynv_write::file_of(section, second),
            Err(e) => second == Err::<Vec<u8>, YnvError>(e),
        },
    ensures
        second is Ok,
        second->Ok_0@ == first->Ok_0@,
{
    let z = crate::ynv_laws::whole::read_back(y, plan);
    let place = place_in(y, made);
    assert(z.bb_min == y.bb_min);
    assert(plan2.cells =~= plan.cells) by {
        assert forall|i: int| 0 <= i < y.polys.len() implies #[trigger] plan2.cells[i]
            == plan.cells[i] by {
            assert(z.polys[i].vertices == y.polys[i].vertices);
        }
    }
    lemma_sectors_same(
        plan.sectors,
        plan2.sectors,
        made,
        0,
        crate::ynv_write::depth_of(y.content_flags),
        (y.bb_min, y.bb_max),
    );
    assert(plan2.sectors =~= plan.sectors);
    assert(plan2.positions =~= placed(z.points, place));
    lemma_second_image(y, plan, plan2, place);
}

/// The same places and boxes give the same section again.
proof fn lemma_second_image(
    y: YnvView,
    plan: PlanView,
    plan2: PlanView,
    place: spec_fn(NavVertex) -> Vec3,
)
    requires
        plan.positions == placed(y.points, place),
        plan2.cells == plan.cells,
        plan2.sectors == plan.sectors,
        plan2.positions == placed(crate::ynv_laws::whole::read_back(y, plan).points, place),
    ensures
        crate::ynv_write::image(crate::ynv_laws::whole::read_back(y, plan), plan2)
            == crate::ynv_write::image(y, plan),
{
    let z = crate::ynv_laws::whole::read_back(y, plan);
    let depth = crate::ynv_write::depth_of(y.content_flags);
    let boxes = leaves(plan, 0, depth);
    let p = Pair { y, plan, z, plan2, place, boxes };
    let fresh = Seq::new(y.points.len(), |i: int| false);
    let none = Seq::<SectorBox>::empty();
    lemma_polys_again(y, plan, z, plan2, y.polys.len());
    lemma_portals_again(y.portals, y.portals.len());
    assert(forall|x: Vec3| !covered(x, none));
    assert(marked(y.points, place, fresh, none));
    lemma_tree_ordered(y, plan, 0, depth, place, fresh, none);
    assert(paired(p));
    match crate::ynv_write::with_polys(y, plan, y.polys.len()) {
        Err(_) => {},
        Ok(e) => {
            let buf = crate::ynv_write::with_lists(e).0;
            let a = TreeState { buf, used: fresh, points: 0, total: 0 };
            let b = TreeState {
                buf,
                used: Seq::new(z.points.len(), |i: int| false),
                points: 0,
                total: 0,
            };
            assert(boxes.take(0) =~= none);
            assert(boxes.subrange(0, boxes.len() as int) =~= boxes);
            lemma_sector_again(p, 0, depth, a, b, 0);
        },
    }
}

proof fn lemma_ordered_push(
    points: Seq<NavPoint>,
    place: spec_fn(NavVertex) -> Vec3,
    boxes: Seq<SectorBox>,
    n: int,
)
    requires
        points.len() > 0,
        0 <= n <= boxes.len(),
    ensures
        ({
            let all = ordered(points, place, Seq::empty(), boxes.take(n)).to_multiset();
            let before = ordered(
                points.drop_last(),
                place,
                Seq::empty(),
                boxes.take(n),
            ).to_multiset();
            all == if covered(place(points.last().position), boxes.take(n)) {
                before.insert(points.last())
            } else {
                before
            }
        }),
    decreases n,
{
    broadcast use vstd::seq_lib::group_to_multiset_ensures;

    let p = points.last();
    let x = place(p.position);
    if n == 0 {
        assert(boxes.take(0).len() == 0);
    } else {
        lemma_ordered_push(points, place, boxes, n - 1);
        let taken = boxes.take(n);
        let done = boxes.take(n - 1);
        let b = boxes[n - 1];
        assert(taken.drop_last() =~= done);
        assert(taken =~= done.push(b));
        assert(Seq::<SectorBox>::empty() + done =~= done);
        lemma_covered_push(x, done, b);
        let own = picked(points, place, done, b);
        let own0 = picked(points.drop_last(), place, done, b);
        let rest = ordered(points, place, Seq::empty(), done);
        let rest0 = ordered(points.drop_last(), place, Seq::empty(), done);
        vstd::seq_lib::lemma_multiset_commutative(own, rest);
        vstd::seq_lib::lemma_multiset_commutative(own0, rest0);
        let all = ordered(points, place, Seq::empty(), taken).to_multiset();
        let before = ordered(points.drop_last(), place, Seq::empty(), taken).to_multiset();
        assert(all == own.to_multiset().add(rest.to_multiset()));
        assert(before == own0.to_multiset().add(rest0.to_multiset()));
        if goes_into(x, done, b) {
            assert(own == own0.push(p));
            assert(own.to_multiset() =~= own0.to_multiset().insert(p));
            assert(all =~= before.insert(p));
        } else if covered(x, done) {
            assert(all =~= before.insert(p));
        } else {
            assert(all =~= before);
        }
    }
}

proof fn lemma_ordered_multiset(
    points: Seq<NavPoint>,
    place: spec_fn(NavVertex) -> Vec3,
    boxes: Seq<SectorBox>,
)
    requires
        forall|i: int|
            0 <= i < points.len() ==> covered(place(#[trigger] points[i].position), boxes),
    ensures
        ordered(points, place, Seq::empty(), boxes).to_multiset() == points.to_multiset(),
    decreases points.len(),
{
    broadcast use vstd::seq_lib::group_to_multiset_ensures;

    let n = boxes.len() as int;
    assert(boxes.take(n) =~= boxes);
    if points.len() == 0 {
        lemma_ordered_empty(points, place, boxes);
        assert(ordered(points, place, Seq::empty(), boxes) =~= points);
    } else {
        let before = points.drop_last();
        assert forall|i: int| 0 <= i < before.len() implies covered(
            place(#[trigger] before[i].position),
            boxes,
        ) by {
            assert(before[i] == points[i]);
        }
        lemma_ordered_multiset(before, place, boxes);
        lemma_ordered_push(points, place, boxes, n);
        assert(covered(place(points[points.len() - 1].position), boxes));
        assert(before.push(points.last()) =~= points);
    }
}

proof fn lemma_ordered_empty(
    points: Seq<NavPoint>,
    place: spec_fn(NavVertex) -> Vec3,
    boxes: Seq<SectorBox>,
)
    requires
        points.len() == 0,
    ensures
        ordered(points, place, Seq::empty(), boxes).len() == 0,
    decreases boxes.len(),
{
    if boxes.len() > 0 {
        lemma_ordered_empty(points, place, boxes.drop_last());
    }
}

/// No point that lies over some leaf of the tree is lost, and none is read
/// twice.
pub proof fn law_points_survive(y: YnvView, plan: PlanView, place: spec_fn(NavVertex) -> Vec3)
    requires
        plan.positions == placed(y.points, place),
        forall|i: int|
            0 <= i < y.points.len() ==> covered(
                place(#[trigger] y.points[i].position),
                leaves(plan, 0, crate::ynv_write::depth_of(y.content_flags)),
            ),
    ensures
        crate::ynv_laws::whole::read_back(y, plan).points.to_multiset()
            == y.points.to_multiset(),
{
    let depth = crate::ynv_write::depth_of(y.content_flags);
    let fresh = Seq::new(y.points.len(), |i: int| false);
    let none = Seq::<SectorBox>::empty();
    assert(forall|x: Vec3| !covered(x, none));
    assert(marked(y.points, place, fresh, none));
    lemma_tree_ordered(y, plan, 0, depth, place, fresh, none);
    lemma_ordered_multiset(y.points, place, leaves(plan, 0, depth));
}

} // verus!
