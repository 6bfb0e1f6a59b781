//! Reading back the polygons of a navmesh.

use vstd::prelude::*;

use crate::ynv::{NavEdge, NavEdgeEnd, NavVertex, PolyView, YnvError, YnvView};
use crate::ynv_write::{Encoded, NavBox, PlanView};

verus! {

broadcast use crate::bytes::group_subrange_reads;

/// One side of an edge as a file keeps it, in the bits that it has.
pub open spec fn kept_end(end: NavEdgeEnd) -> NavEdgeEnd {
    NavEdgeEnd {
        area_id: end.area_id,
        poly: (end.poly % 0x4000) as u32,
        unk2: (end.unk2 % 4) as u8,
        unk3: (end.unk3 % 0x800) as u16,
    }
}

/// An edge as a file keeps it.
pub open spec fn kept_edge(edge: NavEdge) -> NavEdge {
    NavEdge { a: kept_end(edge.a), b: kept_end(edge.b) }
}

/// A polygon as a file keeps it: with one edge for every vertex.
pub open spec fn kept_poly(p: PolyView) -> PolyView {
    PolyView {
        edges: Seq::new(
            p.vertices.len(),
            |i: int| kept_edge(crate::ynv_write::edge_at(p.edges, i)),
        ),
        ..p
    }
}

/// The polygons as a file keeps them.
pub open spec fn kept_polys(polys: Seq<PolyView>) -> Seq<PolyView> {
    Seq::new(polys.len(), |i: int| kept_poly(polys[i]))
}

pub open spec fn starts<T>(all: Seq<T>, first: Seq<T>) -> bool {
    first.len() <= all.len() && forall|i: int|
        0 <= i < first.len() ==> #[trigger] all[i] == first[i]
}

/// Whether one encoding goes on from another.
pub open spec fn goes_on(f: Encoded, e: Encoded) -> bool {
    &&& starts(f.areas, e.areas)
    &&& starts(f.vertices, e.vertices)
    &&& starts(f.indices, e.indices)
    &&& starts(f.edges, e.edges)
    &&& starts(f.links, e.links)
    &&& starts(f.records, e.records)
}

pub open spec fn sane(e: Encoded) -> bool {
    &&& e.areas.len() <= 32
    &&& e.vertices.len() <= 0x1_0000
    &&& e.edges.len() == e.indices.len()
}

/// Whether index `j` names a vertex.
pub open spec fn names(e: Encoded, j: int, v: NavVertex) -> bool {
    &&& 0 <= j < e.indices.len()
    &&& e.indices[j] < e.vertices.len()
    &&& e.vertices[e.indices[j] as int] == v
}

/// What the word of one side of an edge means.
pub open spec fn means(areas: Seq<u32>, word: u32, end: NavEdgeEnd) -> bool {
    &&& word % 32 < areas.len()
    &&& crate::ynv::end_of(word, areas, areas.len() as u32) == kept_end(end)
}

pub open spec fn joins(e: Encoded, j: int, edge: NavEdge) -> bool {
    &&& 0 <= j < e.edges.len()
    &&& means(e.areas, e.edges[j].0, edge.a)
    &&& means(e.areas, e.edges[j].1, edge.b)
}

pub proof fn lemma_found<T>(s: Seq<T>, x: T, i: int)
    requires
        0 <= i <= s.len(),
    ensures
        i <= crate::ynv_write::place_of(s, x, i) <= s.len(),
        crate::ynv_write::place_of(s, x, i) < s.len() ==> s[crate::ynv_write::place_of(s, x, i)]
            == x,
    decreases s.len() - i,
{
    if i < s.len() && s[i] != x {
        lemma_found(s, x, i + 1);
    }
}

pub proof fn lemma_area(areas: Seq<u32>, id: u32)
    requires
        areas.len() <= 32,
    ensures
        areas.len() < 32 ==> crate::ynv_write::with_area(areas, id) is Ok,
        crate::ynv_write::with_area(areas, id) is Ok ==> ({
            let (after, at) = crate::ynv_write::with_area(areas, id)->Ok_0;
            &&& starts(after, areas)
            &&& after.len() <= areas.len() + 1
            &&& after.len() <= 32
            &&& 0 <= at < after.len()
            &&& after[at] == id
        }),
{
    lemma_found(areas, id, 0);
}

pub proof fn lemma_end_word(areas: Seq<u32>, at: int, end: NavEdgeEnd)
    requires
        0 <= at < areas.len() <= 32,
        areas[at] == end.area_id,
    ensures
        means(areas, crate::ynv_write::end_word(at, end), end),
{
    let w = crate::ynv_write::end_word(at, end);
    let p = (end.poly % 0x4000) as int;
    let u2 = (end.unk2 % 4) as int;
    let u3 = (end.unk3 % 0x800) as int;
    assert(w == at + 32 * p + 0x8_0000 * u2 + 0x20_0000 * u3);
    assert(w % 32 == at);
    assert(w / 32 == p + 0x4000 * u2 + 0x1_0000 * u3);
    assert(w / 0x8_0000 == u2 + 4 * u3);
    assert(w / 0x20_0000 == u3);
}

pub proof fn lemma_means_on(areas: Seq<u32>, after: Seq<u32>, word: u32, end: NavEdgeEnd)
    requires
        means(areas, word, end),
        starts(after, areas),
        after.len() <= 32,
    ensures
        means(after, word, end),
{
    assert(after[(word % 32) as int] == areas[(word % 32) as int]);
}

pub proof fn lemma_goes_on(e: Encoded, c: Encoded, f: Encoded)
    requires
        goes_on(c, e),
        goes_on(f, c),
    ensures
        goes_on(f, e),
{
    assert forall|i: int| 0 <= i < e.areas.len() implies #[trigger] f.areas[i] == e.areas[i] by {
        assert(f.areas[i] == c.areas[i]);
    }
    assert forall|i: int| 0 <= i < e.vertices.len() implies #[trigger] f.vertices[i]
        == e.vertices[i] by {
        assert(f.vertices[i] == c.vertices[i]);
    }
    assert forall|i: int| 0 <= i < e.indices.len() implies #[trigger] f.indices[i]
        == e.indices[i] by {
        assert(f.indices[i] == c.indices[i]);
    }
    assert forall|i: int| 0 <= i < e.edges.len() implies #[trigger] f.edges[i] == e.edges[i] by {
        assert(f.edges[i] == c.edges[i]);
    }
    assert forall|i: int| 0 <= i < e.links.len() implies #[trigger] f.links[i] == e.links[i] by {
        assert(f.links[i] == c.links[i]);
    }
    assert forall|i: int| 0 <= i < e.records.len() implies #[trigger] f.records[i]
        == e.records[i] by {
        assert(f.records[i] == c.records[i]);
    }
}

pub proof fn lemma_names_on(e: Encoded, f: Encoded, j: int, v: NavVertex)
    requires
        names(e, j, v),
        goes_on(f, e),
    ensures
        names(f, j, v),
{
    assert(f.indices[j] == e.indices[j]);
    assert(f.vertices[e.indices[j] as int] == e.vertices[e.indices[j] as int]);
}

pub proof fn lemma_joins_on(e: Encoded, f: Encoded, j: int, edge: NavEdge)
    requires
        joins(e, j, edge),
        goes_on(f, e),
        sane(f),
    ensures
        joins(f, j, edge),
{
    assert(f.edges[j] == e.edges[j]);
    lemma_means_on(e.areas, f.areas, e.edges[j].0, edge.a);
    lemma_means_on(e.areas, f.areas, e.edges[j].1, edge.b);
}

pub proof fn lemma_corner(e: Encoded, v: NavVertex, edge: NavEdge)
    requires
        sane(e),
        crate::ynv_write::with_corner(e, v, edge) is Ok,
    ensures
        ({
            let c = crate::ynv_write::with_corner(e, v, edge)->Ok_0;
            &&& sane(c)
            &&& goes_on(c, e)
            &&& c.indices.len() == e.indices.len() + 1
            &&& c.links == e.links
            &&& c.records == e.records
            &&& names(c, e.indices.len() as int, v)
            &&& joins(c, e.edges.len() as int, edge)
        }),
{
    let c = crate::ynv_write::with_corner(e, v, edge)->Ok_0;
    lemma_found(e.vertices, v, 0);
    lemma_area(e.areas, edge.a.area_id);
    let (areas_a, at_a) = crate::ynv_write::with_area(e.areas, edge.a.area_id)->Ok_0;
    lemma_area(areas_a, edge.b.area_id);
    let (areas, at_b) = crate::ynv_write::with_area(areas_a, edge.b.area_id)->Ok_0;
    lemma_end_word(areas_a, at_a, edge.a);
    lemma_means_on(areas_a, areas, crate::ynv_write::end_word(at_a, edge.a), edge.a);
    lemma_end_word(areas, at_b, edge.b);
    assert forall|i: int| 0 <= i < e.areas.len() implies #[trigger] c.areas[i] == e.areas[i] by {
        assert(areas_a[i] == e.areas[i]);
        assert(areas[i] == areas_a[i]);
    }
}

pub proof fn lemma_corners(e: Encoded, p: PolyView, k: nat)
    requires
        sane(e),
        crate::ynv_write::with_corners(e, p, k) is Ok,
    ensures
        ({
            let c = crate::ynv_write::with_corners(e, p, k)->Ok_0;
            &&& sane(c)
            &&& goes_on(c, e)
            &&& c.indices.len() == e.indices.len() + k
            &&& c.links == e.links
            &&& c.records == e.records
            &&& forall|i: int|
                0 <= i < k ==> names(c, e.indices.len() + i, #[trigger] p.vertices[i]) && joins(
                    c,
                    e.edges.len() + i,
                    crate::ynv_write::edge_at(p.edges, i),
                )
        }),
    decreases k,
{
    if k > 0 {
        lemma_corners(e, p, (k - 1) as nat);
        let b = crate::ynv_write::with_corners(e, p, (k - 1) as nat)->Ok_0;
        let c = crate::ynv_write::with_corners(e, p, k)->Ok_0;
        lemma_corner(b, p.vertices[k - 1], crate::ynv_write::edge_at(p.edges, k - 1));
        lemma_goes_on(e, b, c);
        assert forall|i: int| 0 <= i < k implies names(
            c,
            e.indices.len() + i,
            #[trigger] p.vertices[i],
        ) && joins(c, e.edges.len() + i, crate::ynv_write::edge_at(p.edges, i)) by {
            if i < k - 1 {
                lemma_names_on(b, c, e.indices.len() + i, p.vertices[i]);
                lemma_joins_on(
                    b,
                    c,
                    e.edges.len() + i,
                    crate::ynv_write::edge_at(p.edges, i),
                );
            }
        }
    }
}

/// The lists that a file of this encoding has, with a table of areas.
pub open spec fn lists_of(e: Encoded, table: Seq<u32>) -> crate::ynv::Lists {
    crate::ynv::Lists {
        vertices: e.vertices,
        indices: e.indices,
        edges: Seq::new(
            e.edges.len(),
            |i: int|
                NavEdge {
                    a: crate::ynv::end_of(e.edges[i].0, table, e.areas.len() as u32),
                    b: crate::ynv::end_of(e.edges[i].1, table, e.areas.len() as u32),
                },
        ),
        links: e.links,
    }
}

pub proof fn lemma_vertices_read(poly: int, f: Encoded, start: int, p: PolyView, k: nat)
    requires
        k <= p.vertices.len(),
        forall|i: int|
            0 <= i < p.vertices.len() ==> names(f, start + i, #[trigger] p.vertices[i]),
    ensures
        crate::ynv::named_vertices(poly, f.indices, start, f.vertices, k) == Ok::<
            Seq<NavVertex>,
            YnvError,
        >(p.vertices.take(k as int)),
    decreases k,
{
    if k == 0 {
        assert(p.vertices.take(0) =~= Seq::<NavVertex>::empty());
    } else {
        lemma_vertices_read(poly, f, start, p, (k - 1) as nat);
        assert(names(f, start + (k - 1), p.vertices[k - 1]));
        assert(p.vertices.take(k as int) =~= p.vertices.take(k - 1).push(p.vertices[k - 1]));
    }
}

pub proof fn lemma_part_flags(poly: int, links: int, link_start: int)
    requires
        0 <= poly,
        0 <= links <= 7,
        0 <= link_start < 0x2_0000,
    ensures
        ({
            let flags = crate::ynv_write::part_flags(poly, links, link_start);
            flags / 0x1000 % 8 == links && flags / 0x8000 % 0x2_0000 == link_start
        }),
{
    let flags = crate::ynv_write::part_flags(poly, links, link_start);
    let part = poly / 341 % 0x100;
    assert(flags == 16 * part + 0x1000 * links + 0x8000 * link_start);
    assert(flags / 0x1000 == links + 8 * link_start);
    assert(flags / 0x8000 == link_start);
}

#[verifier::rlimit(60)]
#[verifier::spinoff_prover]
pub proof fn lemma_poly_record_reads(
    p: PolyView,
    area_id: u32,
    cell: NavBox,
    poly: int,
    start: int,
    link_start: int,
)
    requires
        p.vertices.len() <= 0x7FF,
        0 <= start <= 0xFFFF,
        0 <= link_start < 0x2_0000,
        p.portal_links.len() <= 7,
        0 <= poly,
    ensures
        ({
            let r = crate::ynv_write::poly_record(p, area_id, cell, poly, start, link_start);
            &&& r.len() == 48
            &&& crate::bytes::le16(r, 0) == p.flags0
            &&& crate::bytes::le16(r, 2) / 32 == p.vertices.len()
            &&& crate::bytes::le16(r, 4) == start
            &&& crate::bytes::le32(r, 0x24) == p.flags1
            &&& crate::bytes::le32(r, 0x28) == p.flags2
            &&& crate::bytes::le32(r, 0x2C) / 0x1000 % 8 == p.portal_links.len()
            &&& crate::bytes::le32(r, 0x2C) / 0x8000 % 0x2_0000 == link_start
        }),
{
    let r = crate::ynv_write::poly_record(p, area_id, cell, poly, start, link_start);
    let count = (32 * p.vertices.len()) as u16;
    let flags = crate::ynv_write::part_flags(poly, p.portal_links.len() as int, link_start);
    assert(r.subrange(0, 2) =~= crate::bytes::le16_bytes(p.flags0));
    assert(r.subrange(2, 4) =~= crate::bytes::le16_bytes(count));
    assert(r.subrange(4, 6) =~= crate::bytes::le16_bytes(start as u16));
    assert(r.subrange(0x24, 0x28) =~= crate::bytes::le32_bytes(p.flags1));
    assert(r.subrange(0x28, 0x2C) =~= crate::bytes::le32_bytes(p.flags2));
    assert(r.subrange(0x2C, 0x30) =~= crate::bytes::le32_bytes(flags));
    crate::bytes::law_u16_round_trip(p.flags0);
    crate::bytes::law_u16_round_trip(count);
    crate::bytes::law_u16_round_trip(start as u16);
    crate::bytes::law_u32_round_trip(p.flags1);
    crate::bytes::law_u32_round_trip(p.flags2);
    crate::bytes::law_u32_round_trip(flags);
    lemma_part_flags(poly, p.portal_links.len() as int, link_start);
}

pub proof fn lemma_record_window(records: Seq<u8>, before: Seq<u8>, r: Seq<u8>)
    requires
        starts(records, before + r),
        r.len() == 48,
    ensures
        ({
            let at = before.len() as int;
            &&& crate::bytes::le16(records, at) == crate::bytes::le16(r, 0)
            &&& crate::bytes::le16(records, at + 2) == crate::bytes::le16(r, 2)
            &&& crate::bytes::le16(records, at + 4) == crate::bytes::le16(r, 4)
            &&& crate::bytes::le32(records, at + 0x24) == crate::bytes::le32(r, 0x24)
            &&& crate::bytes::le32(records, at + 0x28) == crate::bytes::le32(r, 0x28)
            &&& crate::bytes::le32(records, at + 0x2C) == crate::bytes::le32(r, 0x2C)
        }),
{
    let at = before.len() as int;
    let all = before + r;
    assert(records.subrange(at, at + 48) =~= r) by {
        assert forall|i: int| 0 <= i < 48 implies records.subrange(at, at + 48)[i] == r[i] by {
            assert(records[at + i] == all[at + i]);
        }
    }
}

pub proof fn lemma_edges_read(c: Encoded, f: Encoded, table: Seq<u32>, p: PolyView, start: int)
    requires
        sane(f),
        goes_on(f, c),
        table.len() == 32,
        starts(table, f.areas),
        0 <= start,
        start + p.vertices.len() <= c.edges.len(),
        forall|i: int|
            0 <= i < p.vertices.len() ==> joins(
                c,
                start + i,
                #[trigger] crate::ynv_write::edge_at(p.edges, i),
            ),
    ensures
        lists_of(f, table).edges.subrange(start, start + p.vertices.len()) == kept_poly(p).edges,
{
    let n = p.vertices.len();
    let edges = lists_of(f, table).edges;
    let kept = kept_poly(p).edges;
    assert forall|i: int| 0 <= i < n implies edges.subrange(start, start + n)[i] == kept[i] by {
        let edge = crate::ynv_write::edge_at(p.edges, i);
        assert(joins(c, start + i, edge));
        lemma_joins_on(c, f, start + i, edge);
        let w = f.edges[start + i];
        assert(table[(w.0 % 32) as int] == f.areas[(w.0 % 32) as int]);
        assert(table[(w.1 % 32) as int] == f.areas[(w.1 % 32) as int]);
    }
    assert(edges.subrange(start, start + n) =~= kept);
}

#[verifier::rlimit(40)]
pub proof fn lemma_poly_reads(
    e: Encoded,
    f: Encoded,
    table: Seq<u32>,
    p: PolyView,
    area_id: u32,
    cell: NavBox,
    poly: int,
)
    requires
        sane(e),
        sane(f),
        0 <= poly,
        crate::ynv_write::with_poly(e, p, area_id, cell, poly) is Ok,
        goes_on(f, crate::ynv_write::with_poly(e, p, area_id, cell, poly)->Ok_0),
        f.links.len() < 0x2_0000,
        table.len() == 32,
        starts(table, f.areas),
    ensures
        sane(crate::ynv_write::with_poly(e, p, area_id, cell, poly)->Ok_0),
        goes_on(crate::ynv_write::with_poly(e, p, area_id, cell, poly)->Ok_0, e),
        (crate::ynv_write::with_poly(e, p, area_id, cell, poly)->Ok_0).records.len()
            == e.records.len() + 48,
        crate::ynv::poly_at(f.records, e.records.len() as int, lists_of(f, table), poly) == Ok::<
            PolyView,
            YnvError,
        >(kept_poly(p)),
{
    let n = p.vertices.len();
    let c = crate::ynv_write::with_corners(e, p, n)->Ok_0;
    let g = crate::ynv_write::with_poly(e, p, area_id, cell, poly)->Ok_0;
    lemma_corners(e, p, n);
    let start = e.indices.len() as int;
    let at = e.records.len() as int;
    let link_start = e.links.len() as int;
    let r = crate::ynv_write::poly_record(p, area_id, cell, poly, start, link_start);
    lemma_poly_record_reads(p, area_id, cell, poly, start, link_start);
    assert(g.records == e.records + r);
    lemma_record_window(f.records, e.records, r);
    let lists = lists_of(f, table);
    assert(goes_on(f, c)) by {
        assert forall|i: int| 0 <= i < c.links.len() implies #[trigger] f.links[i]
            == c.links[i] by {
            assert(f.links[i] == g.links[i]);
        }
        assert forall|i: int| 0 <= i < c.records.len() implies #[trigger] f.records[i]
            == c.records[i] by {
            assert(f.records[i] == g.records[i]);
        }
    }
    assert forall|i: int| 0 <= i < n implies names(f, start + i, #[trigger] p.vertices[i]) by {
        lemma_names_on(c, f, start + i, p.vertices[i]);
    }
    assert forall|i: int| 0 <= i < n implies joins(
        c,
        start + i,
        #[trigger] crate::ynv_write::edge_at(p.edges, i),
    ) by {
        assert(names(c, start + i, p.vertices[i]));
    }
    lemma_vertices_read(poly, f, start, p, n);
    assert(p.vertices.take(n as int) =~= p.vertices);
    lemma_edges_read(c, f, table, p, start);
    let m = p.portal_links.len();
    assert(f.links.subrange(link_start, link_start + m) =~= p.portal_links) by {
        assert forall|i: int| 0 <= i < m implies f.links.subrange(link_start, link_start + m)[i]
            == p.portal_links[i] by {
            assert(f.links[link_start + i] == g.links[link_start + i]);
        }
    }
}

pub proof fn lemma_polys_sane(y: YnvView, plan: PlanView, k: nat)
    requires
        crate::ynv_write::with_polys(y, plan, k) is Ok,
    ensures
        sane(crate::ynv_write::with_polys(y, plan, k)->Ok_0),
        (crate::ynv_write::with_polys(y, plan, k)->Ok_0).records.len() == 48 * k,
        (crate::ynv_write::with_polys(y, plan, k)->Ok_0).indices.len() <= 0x1_07FE,
    decreases k,
{
    if k == 0 {
        let a = y.area_id;
        let t0 = seq![a];
        lemma_area(t0, crate::ynv::ADJACENT_NONE);
        let t1 = (crate::ynv_write::with_area(t0, crate::ynv::ADJACENT_NONE)->Ok_0).0;
        lemma_area(t1, a.wrapping_sub(100));
        let t2 = (crate::ynv_write::with_area(t1, a.wrapping_sub(100))->Ok_0).0;
        lemma_area(t2, a.wrapping_sub(1));
        let t3 = (crate::ynv_write::with_area(t2, a.wrapping_sub(1))->Ok_0).0;
        lemma_area(t3, (a + 1) as u32);
        let t4 = (crate::ynv_write::with_area(t3, (a + 1) as u32)->Ok_0).0;
        lemma_area(t4, (a + 100) as u32);
    } else {
        lemma_polys_sane(y, plan, (k - 1) as nat);
        let e = crate::ynv_write::with_polys(y, plan, (k - 1) as nat)->Ok_0;
        let p = y.polys[k - 1];
        lemma_corners(e, p, p.vertices.len());
    }
}

/// The polygons that were written read back.
pub proof fn lemma_polys_read(y: YnvView, plan: PlanView, f: Encoded, table: Seq<u32>, k: nat)
    requires
        crate::ynv_write::with_polys(y, plan, k) is Ok,
        goes_on(f, crate::ynv_write::with_polys(y, plan, k)->Ok_0),
        sane(f),
        f.links.len() < 0x2_0000,
        table.len() == 32,
        starts(table, f.areas),
        k <= y.polys.len(),
    ensures
        crate::ynv::poly_list(f.records, lists_of(f, table), k) == Ok::<Seq<PolyView>, YnvError>(
            kept_polys(y.polys).take(k as int),
        ),
    decreases k,
{
    let want = kept_polys(y.polys);
    if k == 0 {
        assert(want.take(0) =~= Seq::<PolyView>::empty());
    } else {
        let e = crate::ynv_write::with_polys(y, plan, (k - 1) as nat)->Ok_0;
        let g = crate::ynv_write::with_polys(y, plan, k)->Ok_0;
        lemma_polys_sane(y, plan, (k - 1) as nat);
        lemma_poly_reads(e, f, table, y.polys[k - 1], y.area_id, plan.cells[k - 1], k - 1);
        lemma_goes_on(e, g, f);
        lemma_polys_read(y, plan, f, table, (k - 1) as nat);
        assert(want.take(k as int) =~= want.take(k - 1).push(kept_poly(y.polys[k - 1])));
    }
}

} // verus!
