//! Where the fields of written records stand.

use vstd::prelude::*;

use crate::layout::{stands, triple_bytes};
use crate::math::Vec3;
use crate::meta_write::Parts;
use crate::ynv::{NavEdge, NavVertex, PolyView, YnvError, YnvView};
use crate::ynv_write::{Blocks, Encoded, NavBox, PlanView, SectorBox, TreeState};
use crate::ytd::TextureView;
use crate::ytd_write::WriteErrorView;

verus! {

/// What stands in the front of a run stands in the whole of it, and so does
/// the end.
pub broadcast proof fn lemma_stands_in_sum(x: Seq<u8>, y: Seq<u8>, off: int, s: Seq<u8>)
    requires
        stands(x, off, s) || off == x.len() && s == y,
    ensures
        #[trigger] stands(x + y, off, s),
{
    if stands(x, off, s) {
        assert((x + y).subrange(off, off + s.len()) =~= x.subrange(off, off + s.len()));
    } else {
        assert((x + y).subrange(off, off + s.len()) =~= y);
    }
}

// ─── resource files ──────────────────────────────────────────────────────────

/// A resource file begins with the letters RSC7, its version and the flags of
/// its two sections; the packed sections follow.
pub proof fn law_resource_headers(version: u32, sys_flags: u32, gfx_flags: u32, body: Seq<u8>)
    ensures
        ({
            let f = crate::resource::file_bytes(version, sys_flags, gfx_flags, body);
            &&& stands(f, 0, seq![0x52u8, 0x53, 0x43, 0x37])
            &&& stands(f, 4, crate::bytes::le32_bytes(version))
            &&& stands(f, 8, crate::bytes::le32_bytes(sys_flags))
            &&& stands(f, 12, crate::bytes::le32_bytes(gfx_flags))
            &&& f.skip(16) == crate::resource::deflated(body)
        }),
{
    broadcast use lemma_stands_in_sum;

    let f = crate::resource::file_bytes(version, sys_flags, gfx_flags, body);
    let a = crate::bytes::le32_bytes(crate::resource::RSC7_MAGIC);
    assert(a =~= seq![0x52u8, 0x53, 0x43, 0x37]);
    assert(stands(a, 0, a)) by {
        assert(a.subrange(0, 4) =~= a);
    }
    assert(f.skip(16) =~= crate::resource::deflated(body));
}

/// The sections of a file are cut from the front of what its body unpacks to:
/// the first is as long as asked for, and the second too unless nothing is left
/// over. A body that does not unpack at all is taken as it is.
pub proof fn law_sections_are_cut(
    body: Seq<u8>,
    out: Seq<u8>,
    sys_size: int,
    gfx_size: int,
)
    requires
        0 <= sys_size <= out.len(),
        0 <= gfx_size,
        out.len() > 0,
    ensures
        match crate::resource::sections(
            body,
            crate::resource::InflatedView::Done(out),
            sys_size,
            gfx_size,
        ) {
            Ok((system, graphics)) => {
                &&& system.len() == sys_size
                &&& graphics.len() <= gfx_size
                &&& system + graphics == out.take((system.len() + graphics.len()) as int)
                &&& graphics.len() < gfx_size ==> system + graphics == out
            },
            Err(_) => false,
        },
        crate::resource::sections(
            out,
            crate::resource::InflatedView::Failed(0),
            sys_size,
            gfx_size,
        ) == crate::resource::sections(
            body,
            crate::resource::InflatedView::Done(out),
            sys_size,
            gfx_size,
        ),
{
    match crate::resource::sections(
        body,
        crate::resource::InflatedView::Done(out),
        sys_size,
        gfx_size,
    ) {
        Ok((system, graphics)) => {
            assert(system + graphics =~= out.take((system.len() + graphics.len()) as int));
            if graphics.len() < gfx_size {
                assert(system + graphics =~= out);
            }
        },
        Err(_) => {},
    }
}

// ─── navmeshes ───────────────────────────────────────────────────────────────

/// The bytes of a box: for each axis where it begins and where it ends.
proof fn lemma_box(b: NavBox)
    ensures
        ({
            let s = crate::ynv_write::box_bytes(b);
            &&& s.len() == 12
            &&& stands(s, 0, crate::bytes::le16_bytes(b.min_x as u16))
            &&& stands(s, 2, crate::bytes::le16_bytes(b.max_x as u16))
            &&& stands(s, 4, crate::bytes::le16_bytes(b.min_y as u16))
            &&& stands(s, 6, crate::bytes::le16_bytes(b.max_y as u16))
            &&& stands(s, 8, crate::bytes::le16_bytes(b.min_z as u16))
            &&& stands(s, 10, crate::bytes::le16_bytes(b.max_z as u16))
        }),
{
    broadcast use lemma_stands_in_sum;

    let a = crate::bytes::le16_bytes(b.min_x as u16);
    assert(stands(a, 0, a)) by {
        assert(a.subrange(0, 2) =~= a);
    }
}

/// Whether a box stands in a record: for each axis where it begins and where it
/// ends.
pub open spec fn box_stands(s: Seq<u8>, off: int, b: NavBox) -> bool {
    &&& stands(s, off, crate::bytes::le16_bytes(b.min_x as u16))
    &&& stands(s, off + 2, crate::bytes::le16_bytes(b.max_x as u16))
    &&& stands(s, off + 4, crate::bytes::le16_bytes(b.min_y as u16))
    &&& stands(s, off + 6, crate::bytes::le16_bytes(b.max_y as u16))
    &&& stands(s, off + 8, crate::bytes::le16_bytes(b.min_z as u16))
    &&& stands(s, off + 10, crate::bytes::le16_bytes(b.max_z as u16))
}

proof fn lemma_box_stands(s: Seq<u8>, off: int, b: NavBox)
    requires
        stands(s, off, crate::ynv_write::box_bytes(b)),
    ensures
        box_stands(s, off, b),
{
    lemma_box(b);
    let t = crate::ynv_write::box_bytes(b);
    lemma_stands_within(s, off, t, 0, crate::bytes::le16_bytes(b.min_x as u16));
    lemma_stands_within(s, off, t, 2, crate::bytes::le16_bytes(b.max_x as u16));
    lemma_stands_within(s, off, t, 4, crate::bytes::le16_bytes(b.min_y as u16));
    lemma_stands_within(s, off, t, 6, crate::bytes::le16_bytes(b.max_y as u16));
    lemma_stands_within(s, off, t, 8, crate::bytes::le16_bytes(b.min_z as u16));
    lemma_stands_within(s, off, t, 10, crate::bytes::le16_bytes(b.max_z as u16));
}

proof fn lemma_stands_within(s: Seq<u8>, off: int, t: Seq<u8>, at: int, u: Seq<u8>)
    requires
        stands(s, off, t),
        stands(t, at, u),
    ensures
        stands(s, off + at, u),
{
    let w = s.subrange(off, off + t.len());
    assert(w == t);
    assert(s.subrange(off + at, off + at + u.len()) =~= w.subrange(at, at + u.len()));
}

/// A polygon's record has its first flags, its vertex count in units of
/// thirty-two, the place of its first index and its area; then, behind a gap,
/// its box, its other flags and where its links are.
pub proof fn law_polygon_records(
    p: PolyView,
    area_id: u32,
    cell: NavBox,
    poly: int,
    start: int,
    link_start: int,
)
    ensures
        ({
            let r = crate::ynv_write::poly_record(p, area_id, cell, poly, start, link_start);
            &&& r.len() == 48
            &&& stands(r, 0, crate::bytes::le16_bytes(p.flags0))
            &&& stands(r, 2, crate::bytes::le16_bytes((32 * p.vertices.len()) as u16))
            &&& stands(r, 4, crate::bytes::le16_bytes(start as u16))
            &&& stands(r, 6, crate::bytes::le16_bytes(area_id as u16))
            &&& box_stands(r, 24, cell)
            &&& stands(r, 36, crate::bytes::le32_bytes(p.flags1))
            &&& stands(r, 40, crate::bytes::le32_bytes(p.flags2))
            &&& stands(
                r,
                44,
                crate::bytes::le32_bytes(
                    crate::ynv_write::part_flags(poly, p.portal_links.len() as int, link_start),
                ),
            )
        }),
{
    broadcast use lemma_stands_in_sum;

    let r = crate::ynv_write::poly_record(p, area_id, cell, poly, start, link_start);
    let a = crate::bytes::le16_bytes(p.flags0);
    assert(stands(a, 0, a)) by {
        assert(a.subrange(0, 2) =~= a);
    }
    lemma_box(cell);
    assert(stands(r, 24, crate::ynv_write::box_bytes(cell)));
    lemma_box_stands(r, 24, cell);
}

/// The last flags of a polygon hold which part of its list it is in, 341 to a
/// part, how many links it has and where the first one is.
pub proof fn law_link_flags(poly: int, links: int, first: int)
    requires
        0 <= poly < 341 * 256,
        0 <= links < 8,
        0 <= first < 0x2_0000,
    ensures
        ({
            let f = crate::ynv_write::part_flags(poly, links, first);
            &&& f / 0x10 % 0x100 == poly / 341
            &&& f / 0x1000 % 8 == links
            &&& f / 0x8000 == first
            &&& f % 0x10 == 0
        }),
{
}

/// A sector's record has the corners of its box, each with no number behind
/// it, the box of its cells, and where its data and its four parts are.
pub proof fn law_sector_records(b: SectorBox, data: u64, subs: Seq<u64>)
    requires
        subs.len() == 4,
    ensures
        ({
            let r = crate::ynv_write::sector_bytes(b, data, subs);
            &&& r.len() == 96
            &&& stands(r, 0, triple_bytes(b.min))
            &&& stands(r, 12, crate::bytes::le32_bytes(0x7FC0_0000))
            &&& stands(r, 16, triple_bytes(b.max))
            &&& stands(r, 28, crate::bytes::le32_bytes(0x7FC0_0000))
            &&& box_stands(r, 32, b.cell)
            &&& stands(r, 44, crate::bytes::le64_bytes(data))
            &&& stands(r, 52, crate::bytes::le64_bytes(subs[0]))
            &&& stands(r, 60, crate::bytes::le64_bytes(subs[1]))
            &&& stands(r, 68, crate::bytes::le64_bytes(subs[2]))
            &&& stands(r, 76, crate::bytes::le64_bytes(subs[3]))
        }),
{
    broadcast use lemma_stands_in_sum;

    reveal(crate::ynv_write::sector_bytes);
    let r = crate::ynv_write::sector_bytes(b, data, subs);
    assert(crate::ynv_write::vec3_bytes(b.min) =~= triple_bytes(b.min));
    assert(crate::ynv_write::vec3_bytes(b.max) =~= triple_bytes(b.max));
    let a = triple_bytes(b.min);
    assert(stands(a, 0, a)) by {
        assert(a.subrange(0, 12) =~= a);
    }
    lemma_box(b.cell);
    assert(stands(r, 32, crate::ynv_write::box_bytes(b.cell)));
    lemma_box_stands(r, 32, b.cell);
}

/// The data of a sector: the number of its first point, where its polygons and
/// its points are listed, and how many of each there are.
pub proof fn law_sector_data_records(
    first: int,
    ids: u64,
    points: u64,
    id_count: int,
    count: int,
)
    ensures
        ({
            let r = crate::ynv_write::sector_data(first, ids, points, id_count, count);
            &&& r.len() == 32
            &&& stands(r, 0, crate::bytes::le32_bytes(first as u32))
            &&& stands(r, 8, crate::bytes::le64_bytes(ids))
            &&& stands(r, 16, crate::bytes::le64_bytes(points))
            &&& stands(r, 24, crate::bytes::le16_bytes(id_count as u16))
            &&& stands(r, 26, crate::bytes::le16_bytes(count as u16))
        }),
{
    broadcast use lemma_stands_in_sum;

    let a = crate::bytes::le32_bytes(first as u32);
    assert(stands(a, 0, a)) by {
        assert(a.subrange(0, 4) =~= a);
    }
}

/// The header of a list: its kind, a one, how many items it has, where its
/// parts and the numbers of their first items are, and how many parts.
pub proof fn law_list_headers(vft: u32, count: int, parts: u64, firsts: u64, part_count: int)
    ensures
        ({
            let r = crate::ynv_write::list_header(vft, count, parts, firsts, part_count);
            &&& r.len() == 48
            &&& stands(r, 0, crate::bytes::le32_bytes(vft))
            &&& stands(r, 4, crate::bytes::le32_bytes(1))
            &&& stands(r, 8, crate::bytes::le32_bytes(count as u32))
            &&& stands(r, 16, crate::bytes::le64_bytes(parts))
            &&& stands(r, 24, crate::bytes::le64_bytes(firsts))
            &&& stands(r, 32, crate::bytes::le32_bytes(part_count as u32))
        }),
{
    broadcast use lemma_stands_in_sum;

    reveal(crate::ynv_write::list_header);
    let a = crate::bytes::le32_bytes(vft);
    assert(stands(a, 0, a)) by {
        assert(a.subrange(0, 4) =~= a);
    }
}

/// The parts of a list are numbered by their first items, a full part of
/// sixteen kilobytes apart.
pub proof fn law_parts_know_their_first_items(buf: Seq<u8>, items: Seq<u8>, item: int, k: nat, j: int)
    requires
        item > 0,
        0 <= j < k,
    ensures
        ({
            let firsts = crate::ynv_write::with_parts(buf, items, item, k).2;
            &&& firsts.len() == 4 * k
            &&& stands(firsts, 4 * j, crate::bytes::le32_bytes((j * (16384int / item)) as u32))
        }),
    decreases k,
{
    broadcast use lemma_stands_in_sum;

    lemma_firsts_len(buf, items, item, (k - 1) as nat);
    if j < k - 1 {
        law_parts_know_their_first_items(buf, items, item, (k - 1) as nat, j);
    }
}

proof fn lemma_firsts_len(buf: Seq<u8>, items: Seq<u8>, item: int, k: nat)
    ensures
        crate::ynv_write::with_parts(buf, items, item, k).2.len() == 4 * k,
    decreases k,
{
    if k > 0 {
        lemma_firsts_len(buf, items, item, (k - 1) as nat);
    }
}

proof fn lemma_identity_row(row: int, col: int)
    requires
        0 <= row < 4,
        0 <= col < 3,
    ensures
        crate::ynv_write::identity_row(row).len() == 16,
        stands(
            crate::ynv_write::identity_row(row),
            4 * col,
            crate::bytes::le32_bytes(if row == col { 0x3F80_0000 } else { 0 }),
        ),
{
    broadcast use lemma_stands_in_sum;

    let a = crate::bytes::le32_bytes(if row == 0 { 0x3F80_0000 } else { 0 });
    assert(stands(a, 0, a)) by {
        assert(a.subrange(0, 4) =~= a);
    }
}

/// The front of a navmesh's header: its kind, its flags, an identity transform
/// and its size.
pub proof fn law_navmesh_header_fronts(y: YnvView, row: int, col: int)
    requires
        0 <= row < 4,
        0 <= col < 3,
    ensures
        ({
            let h = crate::ynv_write::header_front(y);
            &&& h.len() == 0x70
            &&& stands(h, 0, crate::bytes::le32_bytes(y.vft))
            &&& stands(h, 4, crate::bytes::le32_bytes(1))
            &&& stands(h, 0x10, crate::bytes::le32_bytes(y.content_flags))
            &&& stands(h, 0x14, crate::bytes::le32_bytes(0x0001_0011))
            &&& stands(
                h,
                0x20 + 16 * row + 4 * col,
                crate::bytes::le32_bytes(if row == col { 0x3F80_0000 } else { 0 }),
            )
            &&& stands(h, 0x60, triple_bytes(y.bb_size))
        }),
{
    broadcast use lemma_stands_in_sum;

    let h = crate::ynv_write::header_front(y);
    let a = crate::bytes::le32_bytes(y.vft);
    assert(stands(a, 0, a)) by {
        assert(a.subrange(0, 4) =~= a);
    }
    assert(crate::ynv_write::vec3_bytes(y.bb_size) =~= triple_bytes(y.bb_size));
    lemma_identity_row(0, 0);
    lemma_identity_row(1, 0);
    lemma_identity_row(2, 0);
    lemma_identity_row(3, 0);
    lemma_identity_row(row, col);
    assert(stands(h, 0x20, crate::ynv_write::identity_row(0)));
    assert(stands(h, 0x30, crate::ynv_write::identity_row(1)));
    assert(stands(h, 0x40, crate::ynv_write::identity_row(2)));
    assert(stands(h, 0x50, crate::ynv_write::identity_row(3)));
    assert(stands(h, 0x20 + 16 * row, crate::ynv_write::identity_row(row)));
    lemma_stands_within(
        h,
        0x20 + 16 * row,
        crate::ynv_write::identity_row(row),
        4 * col,
        crate::bytes::le32_bytes(if row == col { 0x3F80_0000 } else { 0 }),
    );
}

proof fn lemma_area_bytes(v: Seq<u32>, k: nat, i: int)
    requires
        k <= v.len(),
    ensures
        crate::ynv_write::area_bytes(v, k).len() == 4 * k,
        0 <= i < k ==> stands(
            crate::ynv_write::area_bytes(v, k),
            4 * i,
            crate::bytes::le32_bytes(v[i]),
        ),
    decreases k,
{
    broadcast use lemma_stands_in_sum;

    if k > 0 {
        lemma_area_bytes(v, (k - 1) as nat, i);
    }
}

/// The rest of a navmesh's header: where its lists are, the areas that it
/// touches, where its tree and its portals are, and its counts.
#[verifier::spinoff_prover]
#[verifier::rlimit(40)]
pub proof fn law_navmesh_headers(
    y: YnvView,
    e: Encoded,
    at: Blocks,
    total: int,
    points: int,
    i: int,
)
    requires
        e.areas.len() <= 32,
    ensures
        ({
            let h = crate::ynv_write::header(y, e, at, total, points);
            &&& h.len() == 0x170
            &&& stands(h, 0, crate::ynv_write::header_front(y))
            &&& stands(h, 0x70, crate::bytes::le64_bytes(at.vertices))
            &&& stands(h, 0x80, crate::bytes::le64_bytes(at.indices))
            &&& stands(h, 0x88, crate::bytes::le64_bytes(at.edges))
            &&& stands(h, 0x90, crate::bytes::le32_bytes(e.indices.len() as u32))
            &&& stands(h, 0x94, crate::bytes::le32_bytes(e.areas.len() as u32))
            &&& 0 <= i < e.areas.len() ==> stands(
                h,
                0x98 + 4 * i,
                crate::bytes::le32_bytes(e.areas[i]),
            )
            &&& stands(h, 0x118, crate::bytes::le64_bytes(at.polys))
            &&& stands(h, 0x120, crate::bytes::le64_bytes(at.sectors))
            &&& stands(h, 0x128, crate::bytes::le64_bytes(at.portals))
            &&& stands(h, 0x130, crate::bytes::le64_bytes(at.links))
            &&& stands(h, 0x138, crate::bytes::le32_bytes(e.vertices.len() as u32))
            &&& stands(h, 0x13C, crate::bytes::le32_bytes(y.polys.len() as u32))
            &&& stands(h, 0x140, crate::bytes::le32_bytes(y.area_id))
            &&& stands(h, 0x144, crate::bytes::le32_bytes(total as u32))
            &&& stands(h, 0x148, crate::bytes::le32_bytes(points as u32))
            &&& stands(h, 0x14C, crate::bytes::le32_bytes(y.portals.len() as u32))
            &&& stands(h, 0x150, crate::bytes::le32_bytes(e.links.len() as u32))
            &&& stands(h, 0x160, crate::bytes::le32_bytes(y.version_unk2))
        }),
{
    let f = crate::ynv_write::header_front(y);
    let l = crate::ynv_write::header_lists(e, at);
    let r = crate::ynv_write::header_rest(y, e, at, total, points);
    let h = crate::ynv_write::header(y, e, at, total, points);
    law_navmesh_header_fronts(y, 0, 0);
    lemma_header_lists(e, at, i);
    lemma_header_rest(y, e, at, total, points);
    lemma_stands_in_sum(f + l, r, 0x118, r);
    lemma_stands_in_sum(f, l, 0x70, l);
    lemma_stands_in_sum(f + l, r, 0x70, l);
    assert(f.subrange(0, 0x70) =~= f);
    lemma_stands_in_sum(f, l, 0, f);
    lemma_stands_in_sum(f + l, r, 0, f);
    assert(h == f + l + r);
    assert forall|off: int, s: Seq<u8>| #[trigger] stands(l, off, s) implies stands(
        h,
        0x70 + off,
        s,
    ) by {
        lemma_stands_within(h, 0x70, l, off, s);
    }
    assert forall|off: int, s: Seq<u8>| #[trigger] stands(r, off, s) implies stands(
        h,
        0x118 + off,
        s,
    ) by {
        lemma_stands_within(h, 0x118, r, off, s);
    }
}

proof fn lemma_header_lists(e: Encoded, at: Blocks, i: int)
    requires
        e.areas.len() <= 32,
    ensures
        ({
            let l = crate::ynv_write::header_lists(e, at);
            &&& l.len() == 0xA8
            &&& stands(l, 0, crate::bytes::le64_bytes(at.vertices))
            &&& stands(l, 0x10, crate::bytes::le64_bytes(at.indices))
            &&& stands(l, 0x18, crate::bytes::le64_bytes(at.edges))
            &&& stands(l, 0x20, crate::bytes::le32_bytes(e.indices.len() as u32))
            &&& stands(l, 0x24, crate::bytes::le32_bytes(e.areas.len() as u32))
            &&& 0 <= i < e.areas.len() ==> stands(
                l,
                0x28 + 4 * i,
                crate::bytes::le32_bytes(e.areas[i]),
            )
        }),
{
    broadcast use lemma_stands_in_sum;

    let l = crate::ynv_write::header_lists(e, at);
    let a = crate::bytes::le64_bytes(at.vertices);
    assert(stands(a, 0, a)) by {
        assert(a.subrange(0, 8) =~= a);
    }
    lemma_area_bytes(e.areas, e.areas.len(), i);
    let areas = crate::ynv_write::area_bytes(e.areas, e.areas.len());
    assert(stands(l, 0x28, areas));
    if 0 <= i < e.areas.len() {
        lemma_stands_within(l, 0x28, areas, 4 * i, crate::bytes::le32_bytes(e.areas[i]));
    }
}

/// Seven words after one another.
spec fn seven(w: Seq<u32>) -> Seq<u8> {
    crate::bytes::le32_bytes(w[0]) + crate::bytes::le32_bytes(w[1]) + crate::bytes::le32_bytes(
        w[2],
    ) + crate::bytes::le32_bytes(w[3]) + crate::bytes::le32_bytes(w[4])
        + crate::bytes::le32_bytes(w[5]) + crate::bytes::le32_bytes(w[6])
}

proof fn lemma_seven(w: Seq<u32>, r: Seq<u8>, off: int)
    requires
        stands(r, off, seven(w)),
    ensures
        seven(w).len() == 28,
        stands(r, off, crate::bytes::le32_bytes(w[0])),
        stands(r, off + 4, crate::bytes::le32_bytes(w[1])),
        stands(r, off + 8, crate::bytes::le32_bytes(w[2])),
        stands(r, off + 12, crate::bytes::le32_bytes(w[3])),
        stands(r, off + 16, crate::bytes::le32_bytes(w[4])),
        stands(r, off + 20, crate::bytes::le32_bytes(w[5])),
        stands(r, off + 24, crate::bytes::le32_bytes(w[6])),
{
    let t = seven(w);
    assert(t.len() == 28);
    assert forall|k: int| 0 <= k < 7 implies stands(
        t,
        4 * k,
        #[trigger] crate::bytes::le32_bytes(w[k]),
    ) by {
        assert(t.subrange(4 * k, 4 * k + 4) =~= crate::bytes::le32_bytes(w[k]));
    }
    lemma_stands_within(r, off, t, 0, crate::bytes::le32_bytes(w[0]));
    lemma_stands_within(r, off, t, 4, crate::bytes::le32_bytes(w[1]));
    lemma_stands_within(r, off, t, 8, crate::bytes::le32_bytes(w[2]));
    lemma_stands_within(r, off, t, 12, crate::bytes::le32_bytes(w[3]));
    lemma_stands_within(r, off, t, 16, crate::bytes::le32_bytes(w[4]));
    lemma_stands_within(r, off, t, 20, crate::bytes::le32_bytes(w[5]));
    lemma_stands_within(r, off, t, 24, crate::bytes::le32_bytes(w[6]));
}

proof fn lemma_places(at: Blocks, r: Seq<u8>, rest: Seq<u8>)
    requires
        r == (crate::bytes::le64_bytes(at.polys) + crate::bytes::le64_bytes(at.sectors)
            + crate::bytes::le64_bytes(at.portals) + crate::bytes::le64_bytes(at.links)) + rest,
    ensures
        r.len() == 0x20 + rest.len(),
        stands(r, 0, crate::bytes::le64_bytes(at.polys)),
        stands(r, 8, crate::bytes::le64_bytes(at.sectors)),
        stands(r, 0x10, crate::bytes::le64_bytes(at.portals)),
        stands(r, 0x18, crate::bytes::le64_bytes(at.links)),
        stands(r, 0x20, rest),
{
    broadcast use lemma_stands_in_sum;

    let a = crate::bytes::le64_bytes(at.polys);
    assert(stands(a, 0, a)) by {
        assert(a.subrange(0, 8) =~= a);
    }
}

proof fn lemma_header_rest(y: YnvView, e: Encoded, at: Blocks, total: int, points: int)
    ensures
        ({
            let r = crate::ynv_write::header_rest(y, e, at, total, points);
            &&& r.len() == 0x58
            &&& stands(r, 0, crate::bytes::le64_bytes(at.polys))
            &&& stands(r, 8, crate::bytes::le64_bytes(at.sectors))
            &&& stands(r, 0x10, crate::bytes::le64_bytes(at.portals))
            &&& stands(r, 0x18, crate::bytes::le64_bytes(at.links))
            &&& stands(r, 0x20, crate::bytes::le32_bytes(e.vertices.len() as u32))
            &&& stands(r, 0x24, crate::bytes::le32_bytes(y.polys.len() as u32))
            &&& stands(r, 0x28, crate::bytes::le32_bytes(y.area_id))
            &&& stands(r, 0x2C, crate::bytes::le32_bytes(total as u32))
            &&& stands(r, 0x30, crate::bytes::le32_bytes(points as u32))
            &&& stands(r, 0x34, crate::bytes::le32_bytes(y.portals.len() as u32))
            &&& stands(r, 0x38, crate::bytes::le32_bytes(e.links.len() as u32))
            &&& stands(r, 0x48, crate::bytes::le32_bytes(y.version_unk2))
        }),
{
    let r = crate::ynv_write::header_rest(y, e, at, total, points);
    let w = seq![
        e.vertices.len() as u32,
        y.polys.len() as u32,
        y.area_id,
        total as u32,
        points as u32,
        y.portals.len() as u32,
        e.links.len() as u32,
    ];
    let version = crate::bytes::le32_bytes(y.version_unk2);
    let gap = crate::bytes::zeros(12);
    let rest = seven(w) + gap + version + gap;
    let places = crate::bytes::le64_bytes(at.polys) + crate::bytes::le64_bytes(at.sectors)
        + crate::bytes::le64_bytes(at.portals) + crate::bytes::le64_bytes(at.links);
    assert(seven(w).len() == 28);
    assert(r =~= places + rest);
    lemma_places(at, r, rest);
    assert(rest.subrange(0, 28) =~= seven(w));
    assert(rest.subrange(40, 44) =~= version);
    lemma_stands_within(r, 0x20, rest, 0, seven(w));
    lemma_stands_within(r, 0x20, rest, 40, version);
    lemma_seven(w, r, 0x20);
}

/// How many leaves a tree of some depth has.
pub open spec fn leaf_count(depth: nat) -> nat
    decreases depth,
{
    if depth == 0 {
        1
    } else {
        4 * leaf_count((depth - 1) as nat)
    }
}

/// How many polygons the leaves of the first `k` parts of sector `i` list.
pub open spec fn ids_among(plan: PlanView, i: int, depth: nat, k: nat) -> nat
    decreases depth, k,
{
    if k == 0 || depth == 0 {
        0
    } else {
        ids_among(plan, i, depth, (k - 1) as nat) + ids_below(
            plan,
            i + 1 + (k - 1) * crate::ynv_write::sector_count((depth - 1) as nat),
            (depth - 1) as nat,
        )
    }
}

/// How many polygons the leaves of sector `i` list.
pub open spec fn ids_below(plan: PlanView, i: int, depth: nat) -> nat
    decreases depth, 5nat,
{
    if depth == 0 {
        crate::ynv_write::polys_in(plan.cells, plan.sectors[i].cell, plan.cells.len()).len()
    } else {
        ids_among(plan, i, depth, 4)
    }
}

/// The bytes that a tree is said to take are those of its sectors, of the data
/// of its leaves, and of the polygons and points that they list.
pub proof fn law_trees_say_their_size(
    y: YnvView,
    plan: PlanView,
    i: int,
    depth: nat,
    st: TreeState,
)
    requires
        crate::ynv_write::with_sector(y, plan, i, depth, st) is Ok,
    ensures
        ({
            let end = crate::ynv_write::with_sector(y, plan, i, depth, st)->Ok_0;
            end.total - st.total == 96 * crate::ynv_write::sector_count(depth) + 32 * leaf_count(
                depth,
            ) + 2 * ids_below(plan, i, depth) + 8 * (end.points - st.points)
        }),
    decreases depth, 5nat,
{
    if depth == 0 {
        reveal(crate::ynv_write::with_leaf);
    } else {
        let started = TreeState {
            buf: crate::ynv_write::grown(st.buf, 96),
            total: st.total + 96,
            ..st
        };
        lemma_quads_say_their_size(y, plan, i, depth, started, 4);
    }
}

proof fn lemma_quads_say_their_size(
    y: YnvView,
    plan: PlanView,
    i: int,
    depth: nat,
    st: TreeState,
    k: nat,
)
    requires
        depth > 0,
        k <= 4,
        crate::ynv_write::with_quads(y, plan, i, depth, st, k) is Ok,
    ensures
        ({
            let end = (crate::ynv_write::with_quads(y, plan, i, depth, st, k)->Ok_0).0;
            let below = (depth - 1) as nat;
            end.total - st.total == k * (96 * crate::ynv_write::sector_count(below) + 32
                * leaf_count(below)) + 2 * ids_among(plan, i, depth, k) + 8 * (end.points
                - st.points)
        }),
    decreases depth, k,
{
    let below = (depth - 1) as nat;
    let per = 96 * crate::ynv_write::sector_count(below) + 32 * leaf_count(below);
    if k > 0 {
        let j = (k - 1) as nat;
        lemma_quads_say_their_size(y, plan, i, depth, st, j);
        let before = (crate::ynv_write::with_quads(y, plan, i, depth, st, j)->Ok_0).0;
        law_trees_say_their_size(
            y,
            plan,
            i + 1 + j * crate::ynv_write::sector_count(below),
            below,
            before,
        );
        assert(k * per == j * per + per) by (nonlinear_arith)
            requires
                k == j + 1,
        ;
    } else {
        assert(k * per == 0) by (nonlinear_arith)
            requires
                k == 0,
        ;
    }
}

/// The four parts of a sector are its quarters on the ground: the first two
/// lie on its far side along x, the first and the last along y.
pub proof fn law_parts_are_quarters(b: SectorBox, k: int)
    requires
        0 <= k < 4,
    ensures
        ({
            let (low, high) = crate::ynv_write::part_of(b, k);
            &&& k < 2 ==> low.x == b.centre.x && high.x == b.max.x
            &&& k >= 2 ==> low.x == b.min.x && high.x == b.centre.x
            &&& k == 0 || k == 3 ==> low.y == b.centre.y && high.y == b.max.y
            &&& k == 1 || k == 2 ==> low.y == b.min.y && high.y == b.centre.y
        }),
{
}

/// A position lies over a box where neither axis of the ground takes it out,
/// however high it is; the corners of a box lie over it.
pub proof fn law_positions_over_boxes(p: Vec3, z: u32, b: SectorBox)
    ensures
        crate::ynv_write::lies_in(Vec3 { z, ..p }, b) == crate::ynv_write::lies_in(p, b),
        crate::single::at_least(b.max.x, b.min.x) && crate::single::at_least(b.max.y, b.min.y) ==> {
            &&& crate::ynv_write::lies_in(b.min, b)
            &&& crate::ynv_write::lies_in(b.max, b)
            &&& crate::ynv_write::lies_in(Vec3 { x: b.min.x, y: b.max.y, z }, b)
            &&& crate::ynv_write::lies_in(Vec3 { x: b.max.x, y: b.min.y, z }, b)
        },
        crate::ynv_write::lies_in(p, b) ==> crate::single::at_least(b.max.x, b.min.x)
            && crate::single::at_least(b.max.y, b.min.y),
        !crate::single::at_least(b.max.x, p.x) || !crate::single::at_least(b.max.y, p.y)
            || !crate::single::at_least(p.x, b.min.x) || !crate::single::at_least(p.y, b.min.y)
            ==> !crate::ynv_write::lies_in(p, b),
{
    crate::single::law_singles_are_ordered(b.max.x, p.x, b.min.x);
    crate::single::law_singles_are_ordered(b.max.y, p.y, b.min.y);
    crate::single::law_singles_are_ordered(b.max.x, b.min.x, b.min.x);
    crate::single::law_singles_are_ordered(b.max.y, b.min.y, b.min.y);
    crate::single::law_singles_are_ordered(b.max.x, b.max.x, b.min.x);
    crate::single::law_singles_are_ordered(b.max.y, b.max.y, b.min.y);
}

// ─── what polygons share ─────────────────────────────────────────────────────

/// The areas of a cell away from the edge of the grid begin with the cell
/// itself, none, and the cells below it, before it, behind it and above it.
pub proof fn law_first_areas(a: u32)
    requires
        101 <= a <= 9898,
    ensures
        crate::ynv_write::first_areas(a) == seq![
            a,
            0x3FFF,
            (a - 100) as u32,
            (a - 1) as u32,
            (a + 1) as u32,
            (a + 100) as u32,
        ],
{
    reveal_with_fuel(crate::ynv_write::place_of, 7);
    let none = crate::ynv::ADJACENT_NONE;
    let t0 = seq![a];
    let t1 = seq![a, none];
    let t2 = seq![a, none, (a - 100) as u32];
    let t3 = seq![a, none, (a - 100) as u32, (a - 1) as u32];
    let t4 = seq![a, none, (a - 100) as u32, (a - 1) as u32, (a + 1) as u32];
    assert(t0.push(none) =~= t1);
    assert(t1.push((a - 100) as u32) =~= t2);
    assert(t2.push((a - 1) as u32) =~= t3);
    assert(t3.push((a + 1) as u32) =~= t4);
    assert(crate::ynv_write::with_area(t0, none) == Ok::<(Seq<u32>, int), YnvError>((t1, 1)));
    assert(a.wrapping_sub(100) == (a - 100) as u32);
    assert(a.wrapping_sub(1) == (a - 1) as u32);
    assert(crate::ynv_write::with_area(t1, (a - 100) as u32) == Ok::<(Seq<u32>, int), YnvError>(
        (t2, 2),
    ));
    assert(crate::ynv_write::with_area(t2, (a - 1) as u32) == Ok::<(Seq<u32>, int), YnvError>(
        (t3, 3),
    ));
    assert(crate::ynv_write::with_area(t3, (a + 1) as u32) == Ok::<(Seq<u32>, int), YnvError>(
        (t4, 4),
    ));
    assert(t4.push((a + 100) as u32) =~= seq![
        a,
        0x3FFF,
        (a - 100) as u32,
        (a - 1) as u32,
        (a + 1) as u32,
        (a + 100) as u32,
    ]);
}

proof fn lemma_place<T>(s: Seq<T>, x: T, i: int)
    requires
        0 <= i <= s.len(),
    ensures
        i <= crate::ynv_write::place_of(s, x, i) <= s.len(),
        crate::ynv_write::place_of(s, x, i) < s.len() ==> s[crate::ynv_write::place_of(s, x, i)]
            == x,
        crate::ynv_write::place_of(s, x, i) == s.len() ==> forall|j: int|
            i <= j < s.len() ==> #[trigger] s[j] != x,
    decreases s.len() - i,
{
    if i < s.len() && s[i] != x {
        lemma_place(s, x, i + 1);
    }
}

/// An area takes a place of its own in the table, unless it has one; the table
/// holds thirty-two.
pub proof fn law_areas_are_listed_once(areas: Seq<u32>, id: u32)
    requires
        areas.no_duplicates(),
    ensures
        match crate::ynv_write::with_area(areas, id) {
            Ok((table, at)) => {
                &&& table.no_duplicates()
                &&& 0 <= at < table.len()
                &&& table[at] == id
                &&& table == areas || table == areas.push(id)
                &&& table.len() <= 32 || table == areas
            },
            Err(e) => areas.len() >= 32 && !areas.contains(id) && e == YnvError::TooManyAreas,
        },
{
    lemma_place(areas, id, 0);
}

/// A vertex is stored once, however many corners it is; each corner gives the
/// place of its vertex.
pub proof fn law_vertices_are_listed_once(e: Encoded, v: NavVertex, edge: NavEdge)
    requires
        e.vertices.no_duplicates(),
        e.vertices.len() <= 0x1_0000,
        crate::ynv_write::with_corner(e, v, edge) is Ok,
    ensures
        ({
            let c = crate::ynv_write::with_corner(e, v, edge)->Ok_0;
            &&& c.vertices.no_duplicates()
            &&& c.vertices == e.vertices || c.vertices == e.vertices.push(v)
            &&& c.indices.len() == e.indices.len() + 1
            &&& c.indices.drop_last() == e.indices
            &&& c.vertices[c.indices.last() as int] == v
            &&& c.edges.len() == e.edges.len() + 1
            &&& c.vertices.len() <= 0x1_0000
        }),
{
    lemma_place(e.vertices, v, 0);
    let c = crate::ynv_write::with_corner(e, v, edge)->Ok_0;
    assert(c.indices.drop_last() =~= e.indices);
}

/// A polygon has between three and 2047 vertices and at most seven links; no
/// other is written.
pub proof fn law_which_polygons_are_written(
    e: Encoded,
    p: PolyView,
    area_id: u32,
    cell: NavBox,
    poly: int,
)
    requires
        0 <= poly <= usize::MAX,
        p.vertices.len() <= usize::MAX,
    ensures
        p.vertices.len() < 3 || p.vertices.len() > 2047 ==> crate::ynv_write::with_poly(
            e,
            p,
            area_id,
            cell,
            poly,
        ) == Err::<Encoded, YnvError>(
            YnvError::PolyVertices { poly: poly as usize, count: p.vertices.len() as usize },
        ),
        3 <= p.vertices.len() <= 2047 && e.indices.len() > 65535 ==> crate::ynv_write::with_poly(
            e,
            p,
            area_id,
            cell,
            poly,
        ) == Err::<Encoded, YnvError>(YnvError::TooManyIndices),
        p.portal_links.len() > 7 ==> crate::ynv_write::with_poly(e, p, area_id, cell, poly) is Err,
        crate::ynv_write::with_poly(e, p, area_id, cell, poly) is Ok ==> 3 <= p.vertices.len()
            <= 2047 && p.portal_links.len() <= 7,
{
}

// ─── texture dictionaries ────────────────────────────────────────────────────

/// A dictionary has its page map, and for its hashes and its textures where
/// they are listed and how many there are.
pub proof fn law_dictionary_records(n: int, starts: Seq<int>)
    requires
        n > 0,
    ensures
        ({
            let d = crate::ytd_write::dictionary(n, starts);
            &&& d.len() == 0x40
            &&& stands(d, 4, crate::bytes::le32_bytes(1))
            &&& stands(d, 8, crate::bytes::le64_bytes((0x5000_0000 + starts[1]) as u64))
            &&& stands(d, 0x18, crate::bytes::le32_bytes(1))
            &&& stands(d, 0x20, crate::bytes::le64_bytes((0x5000_0000 + starts[2]) as u64))
            &&& stands(d, 0x28, crate::bytes::le16_bytes(n as u16))
            &&& stands(d, 0x2A, crate::bytes::le16_bytes(n as u16))
            &&& stands(d, 0x30, crate::bytes::le64_bytes((0x5000_0000 + starts[3]) as u64))
            &&& stands(d, 0x38, crate::bytes::le16_bytes(n as u16))
            &&& stands(d, 0x3A, crate::bytes::le16_bytes(n as u16))
        }),
{
    broadcast use lemma_stands_in_sum;

}

/// A page map has the numbers of the two kinds of pages behind its first eight
/// bytes, eight bytes for each page, and nothing else in it.
pub proof fn law_page_maps(pages: int, gfx: int, i: int)
    requires
        0 <= pages < 0x100,
        0 <= gfx < 0x100,
    ensures
        ({
            let m = crate::ytd_write::page_map(pages, gfx);
            &&& m.len() == 16 + 8 * (pages + gfx)
            &&& m[8] == pages
            &&& m[9] == gfx
            &&& 0 <= i < m.len() && i != 8 && i != 9 ==> m[i] == 0
        }),
        ({
            let m = crate::meta_write::page_map(pages);
            &&& m.len() == 16 + 8 * pages
            &&& m[8] == pages
            &&& 0 <= i < m.len() && i != 8 ==> m[i] == 0
        }),
{
}

/// The record of a texture: a one, its name, another one, its measures, its
/// format, its levels and its pixels.
pub proof fn law_written_texture_records(t: TextureView, name: u64, pixels: u64)
    ensures
        ({
            let r = crate::ytd_write::texture_record(t, name, pixels);
            &&& r.len() == 0x90
            &&& stands(r, 4, crate::bytes::le32_bytes(1))
            &&& stands(r, 0x28, crate::bytes::le64_bytes(name))
            &&& stands(r, 0x30, crate::bytes::le16_bytes(1))
            &&& stands(r, 0x50, crate::bytes::le16_bytes(t.width))
            &&& stands(r, 0x52, crate::bytes::le16_bytes(t.height))
            &&& t.depth > 0 ==> stands(r, 0x54, crate::bytes::le16_bytes(t.depth))
            &&& t.depth == 0 ==> stands(r, 0x54, crate::bytes::le16_bytes(1))
            &&& stands(r, 0x56, crate::bytes::le16_bytes(t.stride))
            &&& stands(r, 0x58, crate::bytes::le32_bytes(crate::ytd::format_code(t.format)))
            &&& r[0x5C] == 0
            &&& r[0x5D] == t.levels
            &&& stands(r, 0x70, crate::bytes::le64_bytes(pixels))
        }),
{
    broadcast use lemma_stands_in_sum;

    let r = crate::ytd_write::texture_record(t, name, pixels);
    assert(stands(r, 0x5C, seq![0u8, t.levels]));
    let s = r.subrange(0x5C, 0x5E);
    assert(s[0] == r[0x5C] && s[1] == r[0x5D]);
}

/// Whether a texture has the hash of the one behind it.
pub open spec fn shares_hash(es: Seq<TextureView>, k: int) -> bool {
    es[k].name_hash == es[k + 1].name_hash
}

proof fn lemma_shared(es: Seq<TextureView>, i: int)
    requires
        0 <= i,
    ensures
        match crate::ytd_write::first_shared(es, i) {
            Some(k) => i <= k && k + 1 < es.len() && shares_hash(es, k),
            None => forall|k: int|
                i <= k && k + 1 < es.len() ==> !#[trigger] shares_hash(es, k),
        },
    decreases es.len() - i,
{
    if i + 1 < es.len() && es[i].name_hash != es[i + 1].name_hash {
        lemma_shared(es, i + 1);
    }
}

proof fn lemma_short(es: Seq<TextureView>, i: int)
    requires
        0 <= i,
    ensures
        match crate::ytd_write::first_short(es, i) {
            Some(k) => i <= k < es.len() && es[k].pixel_data.len()
                < crate::ytd_write::pixel_bytes(es[k]),
            None => forall|k: int|
                i <= k < es.len() ==> (#[trigger] es[k]).pixel_data.len()
                    >= crate::ytd_write::pixel_bytes(es[k]),
        },
    decreases es.len() - i,
{
    if i < es.len() && es[i].pixel_data.len() >= crate::ytd_write::pixel_bytes(es[i]) {
        lemma_short(es, i + 1);
    }
}

/// Textures are written where no two neighbours share a hash, a half word
/// counts them and each has the pixels of its levels; else the error names the
/// textures that it is about.
pub proof fn law_which_textures_are_written(es: Seq<TextureView>)
    ensures
        match crate::ytd_write::refused(es) {
            None => {
                &&& es.len() <= 65535
                &&& forall|k: int|
                    0 <= k && k + 1 < es.len() ==> !#[trigger] shares_hash(es, k)
                &&& forall|k: int|
                    0 <= k < es.len() ==> (#[trigger] es[k]).pixel_data.len()
                        >= crate::ytd_write::pixel_bytes(es[k])
            },
            Some(WriteErrorView::SharedHash { first, second, hash }) => exists|k: int|
                0 <= k && k + 1 < es.len() && #[trigger] shares_hash(es, k) && es[k].name_hash
                    == hash && es[k].name == first && es[k + 1].name == second,
            Some(WriteErrorView::TooMany(n)) => es.len() > 65535 && n == es.len() as usize,
            Some(WriteErrorView::Short { name, width, height, format, levels, need, have }) =>
                exists|k: int|
                    0 <= k < es.len() && (#[trigger] es[k]).name == name && es[k].width == width
                        && es[k].height == height && es[k].format == format && es[k].levels
                        == levels && have == es[k].pixel_data.len() as usize && need
                        == crate::ytd_write::pixel_bytes(es[k]) as u64 && es[k].pixel_data.len()
                        < crate::ytd_write::pixel_bytes(es[k]),
            Some(WriteErrorView::Layout(_)) => false,
        },
{
    lemma_shared(es, 0);
    lemma_short(es, 0);
}

// ─── Meta files ──────────────────────────────────────────────────────────────

/// The header of a Meta file: its kind, its page map, two words that mark the
/// format, the number of its root block, its three tables and their counts.
#[verifier::spinoff_prover]
#[verifier::rlimit(40)]
pub proof fn law_meta_headers(p: Parts, starts: Seq<int>)
    requires
        p.structs.len() > 0,
        p.enums.len() > 0,
    ensures
        ({
            let h = crate::meta_write::header(p, starts);
            &&& h.len() == 0x70
            &&& stands(h, 0, crate::bytes::le32_bytes(0x405B_C808))
            &&& stands(h, 4, crate::bytes::le32_bytes(1))
            &&& stands(h, 8, crate::bytes::le64_bytes((0x5000_0000 + starts[1]) as u64))
            &&& stands(h, 0x10, crate::bytes::le32_bytes(0x5052_4430))
            &&& stands(h, 0x14, crate::bytes::le16_bytes(0x79))
            &&& stands(h, 0x1C, crate::bytes::le32_bytes(1))
            &&& stands(h, 0x20, crate::bytes::le64_bytes((0x5000_0000 + starts[2]) as u64))
            &&& stands(
                h,
                0x28,
                crate::bytes::le64_bytes(
                    (0x5000_0000 + starts[3 + p.structs.len() as int]) as u64,
                ),
            )
            &&& stands(
                h,
                0x30,
                crate::bytes::le64_bytes(
                    (0x5000_0000 + starts[4 + p.structs.len() as int + p.enums.len() as int])
                        as u64,
                ),
            )
            &&& stands(h, 0x48, crate::bytes::le16_bytes(p.structs.len() as u16))
            &&& stands(h, 0x4A, crate::bytes::le16_bytes(p.enums.len() as u16))
            &&& stands(h, 0x4C, crate::bytes::le16_bytes(p.blocks.len() as u16))
        }),
{
    broadcast use lemma_stands_in_sum;

    let a = crate::bytes::le32_bytes(0x405B_C808);
    assert(stands(a, 0, a)) by {
        assert(a.subrange(0, 4) =~= a);
    }
}

/// A counted pointer is the pointer, then the count twice; nothing else in the
/// record changes.
pub proof fn law_counted_pointers(buf: Seq<u8>, off: int, ptr: u64, count: int, i: int)
    requires
        0 <= off,
        off + 12 <= buf.len(),
    ensures
        ({
            let r = crate::meta_write::put_counted(buf, off, ptr, count);
            &&& r.len() == buf.len()
            &&& stands(r, off, crate::bytes::le64_bytes(ptr))
            &&& stands(r, off + 8, crate::bytes::le16_bytes(count as u16))
            &&& stands(r, off + 10, crate::bytes::le16_bytes(count as u16))
            &&& 0 <= i < off || off + 12 <= i < buf.len() ==> r[i] == buf[i]
        }),
{
    let r = crate::meta_write::put_counted(buf, off, ptr, count);
    assert(r.subrange(off, off + 8) =~= crate::bytes::le64_bytes(ptr));
    assert(r.subrange(off + 8, off + 10) =~= crate::bytes::le16_bytes(count as u16));
    assert(r.subrange(off + 10, off + 12) =~= crate::bytes::le16_bytes(count as u16));
}

// ─── PSO files ───────────────────────────────────────────────────────────────

/// A counted pointer is the pointer, a gap, then the count twice; nothing else
/// in the record changes.
pub proof fn law_pso_counted_pointers(buf: Seq<u8>, off: int, ptr: u32, count: int, i: int)
    requires
        0 <= off,
        off + 12 <= buf.len(),
    ensures
        ({
            let r = crate::pso_write::put_counted(buf, off, ptr, count);
            &&& r.len() == buf.len()
            &&& stands(r, off, crate::bytes::be32_bytes(ptr))
            &&& stands(r, off + 8, crate::bytes::be16_bytes(count as u16))
            &&& stands(r, off + 10, crate::bytes::be16_bytes(count as u16))
            &&& 0 <= i < off || off + 4 <= i < off + 8 || off + 12 <= i < buf.len() ==> r[i]
                == buf[i]
        }),
{
    let r = crate::pso_write::put_counted(buf, off, ptr, count);
    assert(r.subrange(off, off + 4) =~= crate::bytes::be32_bytes(ptr));
    assert(r.subrange(off + 8, off + 10) =~= crate::bytes::be16_bytes(count as u16));
    assert(r.subrange(off + 10, off + 12) =~= crate::bytes::be16_bytes(count as u16));
}

/// A section says how long it is, its own header counted, before its contents.
pub proof fn law_pso_sections(ident: u32, body: Seq<u8>)
    requires
        body.len() + 8 <= u32::MAX,
    ensures
        ({
            let s = crate::pso_write::section(ident, body);
            &&& s.len() == body.len() + 8
            &&& stands(s, 0, crate::bytes::be32_bytes(ident))
            &&& stands(s, 4, crate::bytes::be32_bytes(s.len() as u32))
            &&& stands(s, 8, body)
        }),
{
    broadcast use lemma_stands_in_sum;

    let a = crate::bytes::be32_bytes(ident);
    assert(stands(a, 0, a)) by {
        assert(a.subrange(0, 4) =~= a);
    }
}

} // verus!
