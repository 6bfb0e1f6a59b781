//! Reading back the header and the lists of a navmesh.

use vstd::prelude::*;

use crate::ynv::{ListFault, YnvView};
use crate::ynv_write::{Blocks, Encoded};

verus! {

broadcast use crate::bytes::group_subrange_reads;

pub proof fn lemma_front_reads(y: YnvView)
    ensures
        ({
            let f = crate::ynv_write::header_front(y);
            &&& f.len() == 112
            &&& crate::bytes::le32(f, 0) == y.vft
            &&& crate::bytes::le32(f, 0x10) == y.content_flags
            &&& f.subrange(0x60, 0x6C) == crate::ynv_write::vec3_bytes(y.bb_size)
        }),
{
    let f = crate::ynv_write::header_front(y);
    let a = crate::bytes::le32_bytes(y.vft) + crate::bytes::le32_bytes(1) + crate::bytes::zeros(8)
        + crate::bytes::le32_bytes(y.content_flags) + crate::bytes::le32_bytes(0x0001_0011)
        + crate::bytes::zeros(8);
    assert(a.len() == 32);
    assert(a.subrange(0, 4) =~= crate::bytes::le32_bytes(y.vft));
    assert(a.subrange(0x10, 0x14) =~= crate::bytes::le32_bytes(y.content_flags));
    let b = crate::ynv_write::identity_row(0) + crate::ynv_write::identity_row(1)
        + crate::ynv_write::identity_row(2) + crate::ynv_write::identity_row(3);
    assert(b.len() == 64);
    let c = crate::ynv_write::vec3_bytes(y.bb_size);
    assert(f =~= a + b + c + crate::bytes::le32_bytes(0x7F80_0001));
    lemma_front_parts(a, b, c, crate::bytes::le32_bytes(0x7F80_0001));
    crate::bytes::law_u32_round_trip(y.vft);
    crate::bytes::law_u32_round_trip(y.content_flags);
    assert(crate::bytes::le32(a, 0) == y.vft);
    assert(crate::bytes::le32(a, 0x10) == y.content_flags);
}

pub proof fn lemma_front_parts(a: Seq<u8>, b: Seq<u8>, c: Seq<u8>, d: Seq<u8>)
    requires
        a.len() == 32,
        b.len() == 64,
        c.len() == 12,
        d.len() == 4,
    ensures
        (a + b + c + d).len() == 112,
        crate::bytes::le32(a + b + c + d, 0) == crate::bytes::le32(a, 0),
        crate::bytes::le32(a + b + c + d, 0x10) == crate::bytes::le32(a, 0x10),
        (a + b + c + d).subrange(0x60, 0x6C) == c,
{
    let f = a + b + c + d;
    assert(f.subrange(0, 32) =~= a);
    assert(crate::bytes::le32(f.subrange(0, 32), 0) == crate::bytes::le32(f, 0));
    assert(crate::bytes::le32(f.subrange(0, 32), 0x10) == crate::bytes::le32(f, 0x10));
    assert(f.subrange(0x60, 0x6C) =~= c);
}

pub proof fn lemma_header_lists_read(e: Encoded, at: Blocks)
    requires
        e.areas.len() <= 32,
    ensures
        ({
            let l = crate::ynv_write::header_lists(e, at);
            &&& l.len() == 168
            &&& crate::bytes::le64(l, 0) == at.vertices
            &&& crate::bytes::le64(l, 0x10) == at.indices
            &&& crate::bytes::le64(l, 0x18) == at.edges
            &&& crate::bytes::le32(l, 0x24) == e.areas.len()
            &&& forall|i: int|
                0 <= i < e.areas.len() ==> crate::bytes::le32(l, 0x28 + 4 * i)
                    == #[trigger] e.areas[i]
        }),
{
    let n = e.areas.len();
    let table = crate::ynv_write::area_bytes(e.areas, n);
    if n > 0 {
        crate::ynv_laws::items::lemma_area_item(e.areas, n, 0);
    }
    let head = crate::bytes::le64_bytes(at.vertices) + crate::bytes::zeros(8)
        + crate::bytes::le64_bytes(at.indices) + crate::bytes::le64_bytes(at.edges)
        + crate::bytes::le32_bytes(e.indices.len() as u32) + crate::bytes::le32_bytes(n as u32);
    assert(head.len() == 40);
    lemma_list_words(at.vertices, at.indices, at.edges, e.indices.len() as u32, n as u32);
    lemma_list_table(head, table, crate::bytes::zeros(128 - 4 * n), e.areas);
}

pub proof fn lemma_list_table(head: Seq<u8>, table: Seq<u8>, tail: Seq<u8>, areas: Seq<u32>)
    requires
        head.len() == 40,
        table == crate::ynv_write::area_bytes(areas, areas.len()),
        table.len() == 4 * areas.len(),
        tail.len() == 128 - 4 * areas.len(),
    ensures
        ({
            let l = head + table + tail;
            &&& l.len() == 168
            &&& crate::bytes::le64(l, 0) == crate::bytes::le64(head, 0)
            &&& crate::bytes::le64(l, 0x10) == crate::bytes::le64(head, 0x10)
            &&& crate::bytes::le64(l, 0x18) == crate::bytes::le64(head, 0x18)
            &&& crate::bytes::le32(l, 0x24) == crate::bytes::le32(head, 0x24)
            &&& forall|i: int|
                0 <= i < areas.len() ==> crate::bytes::le32(l, 0x28 + 4 * i)
                    == #[trigger] areas[i]
        }),
{
    let l = head + table + tail;
    let n = areas.len();
    let w = l.subrange(0, 40);
    assert(w =~= head);
    assert(crate::bytes::le64(w, 0) == crate::bytes::le64(l, 0));
    assert(crate::bytes::le64(w, 0x10) == crate::bytes::le64(l, 0x10));
    assert(crate::bytes::le64(w, 0x18) == crate::bytes::le64(l, 0x18));
    assert(crate::bytes::le32(w, 0x24) == crate::bytes::le32(l, 0x24));
    let t = l.subrange(40, 40int + 4 * n);
    assert(t =~= table);
    assert forall|i: int| 0 <= i < n implies crate::bytes::le32(l, 0x28 + 4 * i)
        == #[trigger] areas[i] by {
        crate::ynv_laws::items::lemma_area_item(areas, n, i);
        assert(crate::bytes::le32(t, 4 * i) == crate::bytes::le32(l, 40 + 4 * i));
    }
}

pub proof fn lemma_list_words(vertices: u64, indices: u64, edges: u64, count: u32, n: u32)
    ensures
        ({
            let head = crate::bytes::le64_bytes(vertices) + crate::bytes::zeros(8)
                + crate::bytes::le64_bytes(indices) + crate::bytes::le64_bytes(edges)
                + crate::bytes::le32_bytes(count) + crate::bytes::le32_bytes(n);
            &&& crate::bytes::le64(head, 0) == vertices
            &&& crate::bytes::le64(head, 0x10) == indices
            &&& crate::bytes::le64(head, 0x18) == edges
            &&& crate::bytes::le32(head, 0x24) == n
        }),
{
    let head = crate::bytes::le64_bytes(vertices) + crate::bytes::zeros(8)
        + crate::bytes::le64_bytes(indices) + crate::bytes::le64_bytes(edges)
        + crate::bytes::le32_bytes(count) + crate::bytes::le32_bytes(n);
    assert(head.subrange(0, 8) =~= crate::bytes::le64_bytes(vertices));
    assert(head.subrange(0x10, 0x18) =~= crate::bytes::le64_bytes(indices));
    assert(head.subrange(0x18, 0x20) =~= crate::bytes::le64_bytes(edges));
    assert(head.subrange(0x24, 0x28) =~= crate::bytes::le32_bytes(n));
    crate::bytes::law_u64_round_trip(vertices);
    crate::bytes::law_u64_round_trip(indices);
    crate::bytes::law_u64_round_trip(edges);
    crate::bytes::law_u32_round_trip(n);
}

pub proof fn lemma_rest_reads(y: YnvView, e: Encoded, at: Blocks, total: int, points: int)
    requires
        y.portals.len() <= u32::MAX,
        e.links.len() <= u32::MAX,
    ensures
        ({
            let r = crate::ynv_write::header_rest(y, e, at, total, points);
            &&& r.len() == 88
            &&& crate::bytes::le64(r, 0) == at.polys
            &&& crate::bytes::le64(r, 8) == at.sectors
            &&& crate::bytes::le64(r, 0x10) == at.portals
            &&& crate::bytes::le64(r, 0x18) == at.links
            &&& crate::bytes::le32(r, 0x28) == y.area_id
            &&& crate::bytes::le32(r, 0x34) == y.portals.len()
            &&& crate::bytes::le32(r, 0x38) == e.links.len()
            &&& crate::bytes::le32(r, 0x48) == y.version_unk2
        }),
{
    let r = crate::ynv_write::header_rest(y, e, at, total, points);
    let a = crate::bytes::le64_bytes(at.polys) + crate::bytes::le64_bytes(at.sectors)
        + crate::bytes::le64_bytes(at.portals) + crate::bytes::le64_bytes(at.links);
    let b = crate::bytes::le32_bytes(e.vertices.len() as u32) + crate::bytes::le32_bytes(
        y.polys.len() as u32,
    ) + crate::bytes::le32_bytes(y.area_id) + crate::bytes::le32_bytes(total as u32)
        + crate::bytes::le32_bytes(points as u32) + crate::bytes::le32_bytes(
        y.portals.len() as u32,
    ) + crate::bytes::le32_bytes(e.links.len() as u32);
    let c = crate::bytes::le32_bytes(y.version_unk2);
    assert(a.len() == 32);
    assert(b.len() == 28);
    lemma_rest_addresses(at);
    lemma_rest_counts(
        e.vertices.len() as u32,
        y.polys.len() as u32,
        y.area_id,
        total as u32,
        points as u32,
        y.portals.len() as u32,
        e.links.len() as u32,
    );
    crate::bytes::law_u32_round_trip(y.version_unk2);
    assert(r == a + b + crate::bytes::zeros(12) + c + crate::bytes::zeros(12));
    lemma_rest_parts(a, b, crate::bytes::zeros(12), c, crate::bytes::zeros(12));
}

pub proof fn lemma_rest_addresses(at: Blocks)
    ensures
        ({
            let a = crate::bytes::le64_bytes(at.polys) + crate::bytes::le64_bytes(at.sectors)
                + crate::bytes::le64_bytes(at.portals) + crate::bytes::le64_bytes(at.links);
            &&& crate::bytes::le64(a, 0) == at.polys
            &&& crate::bytes::le64(a, 8) == at.sectors
            &&& crate::bytes::le64(a, 16) == at.portals
            &&& crate::bytes::le64(a, 24) == at.links
        }),
{
    let a = crate::bytes::le64_bytes(at.polys) + crate::bytes::le64_bytes(at.sectors)
        + crate::bytes::le64_bytes(at.portals) + crate::bytes::le64_bytes(at.links);
    assert(a.subrange(0, 8) =~= crate::bytes::le64_bytes(at.polys));
    assert(a.subrange(8, 16) =~= crate::bytes::le64_bytes(at.sectors));
    assert(a.subrange(16, 24) =~= crate::bytes::le64_bytes(at.portals));
    assert(a.subrange(24, 32) =~= crate::bytes::le64_bytes(at.links));
    crate::bytes::law_u64_round_trip(at.polys);
    crate::bytes::law_u64_round_trip(at.sectors);
    crate::bytes::law_u64_round_trip(at.portals);
    crate::bytes::law_u64_round_trip(at.links);
}

pub proof fn lemma_rest_counts(
    vertices: u32,
    polys: u32,
    area_id: u32,
    total: u32,
    points: u32,
    portals: u32,
    links: u32,
)
    ensures
        ({
            let b = crate::bytes::le32_bytes(vertices) + crate::bytes::le32_bytes(polys)
                + crate::bytes::le32_bytes(area_id) + crate::bytes::le32_bytes(total)
                + crate::bytes::le32_bytes(points) + crate::bytes::le32_bytes(portals)
                + crate::bytes::le32_bytes(links);
            &&& crate::bytes::le32(b, 8) == area_id
            &&& crate::bytes::le32(b, 20) == portals
            &&& crate::bytes::le32(b, 24) == links
        }),
{
    let b = crate::bytes::le32_bytes(vertices) + crate::bytes::le32_bytes(polys)
        + crate::bytes::le32_bytes(area_id) + crate::bytes::le32_bytes(total)
        + crate::bytes::le32_bytes(points) + crate::bytes::le32_bytes(portals)
        + crate::bytes::le32_bytes(links);
    assert(b.subrange(8, 12) =~= crate::bytes::le32_bytes(area_id));
    assert(b.subrange(20, 24) =~= crate::bytes::le32_bytes(portals));
    assert(b.subrange(24, 28) =~= crate::bytes::le32_bytes(links));
    crate::bytes::law_u32_round_trip(area_id);
    crate::bytes::law_u32_round_trip(portals);
    crate::bytes::law_u32_round_trip(links);
}

pub proof fn lemma_rest_parts(a: Seq<u8>, b: Seq<u8>, z: Seq<u8>, c: Seq<u8>, t: Seq<u8>)
    requires
        a.len() == 32,
        b.len() == 28,
        z.len() == 12,
        c.len() == 4,
        t.len() == 12,
    ensures
        ({
            let r = a + b + z + c + t;
            &&& r.len() == 88
            &&& crate::bytes::le64(r, 0) == crate::bytes::le64(a, 0)
            &&& crate::bytes::le64(r, 8) == crate::bytes::le64(a, 8)
            &&& crate::bytes::le64(r, 0x10) == crate::bytes::le64(a, 16)
            &&& crate::bytes::le64(r, 0x18) == crate::bytes::le64(a, 24)
            &&& crate::bytes::le32(r, 0x28) == crate::bytes::le32(b, 8)
            &&& crate::bytes::le32(r, 0x34) == crate::bytes::le32(b, 20)
            &&& crate::bytes::le32(r, 0x38) == crate::bytes::le32(b, 24)
            &&& crate::bytes::le32(r, 0x48) == crate::bytes::le32(c, 0)
        }),
{
    let r = a + b + z + c + t;
    let ra = r.subrange(0, 32);
    let rb = r.subrange(32, 60);
    let rc = r.subrange(72, 76);
    assert(ra =~= a);
    assert(rb =~= b);
    assert(rc =~= c);
    assert(crate::bytes::le64(ra, 0) == crate::bytes::le64(r, 0));
    assert(crate::bytes::le64(ra, 8) == crate::bytes::le64(r, 8));
    assert(crate::bytes::le64(ra, 16) == crate::bytes::le64(r, 16));
    assert(crate::bytes::le64(ra, 24) == crate::bytes::le64(r, 24));
    assert(crate::bytes::le32(rb, 8) == crate::bytes::le32(r, 40));
    assert(crate::bytes::le32(rb, 20) == crate::bytes::le32(r, 52));
    assert(crate::bytes::le32(rb, 24) == crate::bytes::le32(r, 56));
    assert(crate::bytes::le32(rc, 0) == crate::bytes::le32(r, 72));
}

/// What a header says.
pub open spec fn header_says(h: Seq<u8>, y: YnvView, e: Encoded, at: Blocks) -> bool {
    &&& h.len() == 368
    &&& crate::bytes::le32(h, 0) == y.vft
    &&& crate::bytes::le32(h, 0x10) == y.content_flags
    &&& crate::resource::vec3_at(h, 0x60) == y.bb_size
    &&& crate::bytes::le64(h, 0x70) == at.vertices
    &&& crate::bytes::le64(h, 0x80) == at.indices
    &&& crate::bytes::le64(h, 0x88) == at.edges
    &&& crate::bytes::le32(h, 0x94) == e.areas.len()
    &&& crate::ynv_laws::polys::starts(crate::ynv::area_table(h), e.areas)
    &&& crate::bytes::le64(h, 0x118) == at.polys
    &&& crate::bytes::le64(h, 0x120) == at.sectors
    &&& crate::bytes::le64(h, 0x128) == at.portals
    &&& crate::bytes::le64(h, 0x130) == at.links
    &&& crate::bytes::le32(h, 0x140) == y.area_id
    &&& crate::bytes::le32(h, 0x14C) == y.portals.len()
    &&& crate::bytes::le32(h, 0x150) == e.links.len()
    &&& crate::bytes::le32(h, 0x160) == y.version_unk2
}

pub proof fn lemma_header_parts(f: Seq<u8>, l: Seq<u8>, r: Seq<u8>)
    requires
        f.len() == 112,
        l.len() == 168,
        r.len() == 88,
    ensures
        ({
            let h = f + l + r;
            &&& h.len() == 368
            &&& forall|i: int|
                0 <= i <= 108 ==> #[trigger] crate::bytes::le32(h, i) == crate::bytes::le32(f, i)
            &&& h.subrange(0x60, 0x6C) == f.subrange(0x60, 0x6C)
            &&& forall|i: int|
                0 <= i <= 160 ==> #[trigger] crate::bytes::le64(l, i) == crate::bytes::le64(
                    h,
                    0x70 + i,
                )
            &&& forall|i: int|
                0 <= i <= 164 ==> #[trigger] crate::bytes::le32(l, i) == crate::bytes::le32(
                    h,
                    0x70 + i,
                )
            &&& forall|i: int|
                0 <= i <= 80 ==> #[trigger] crate::bytes::le64(r, i) == crate::bytes::le64(
                    h,
                    0x118 + i,
                )
            &&& forall|i: int|
                0 <= i <= 84 ==> #[trigger] crate::bytes::le32(r, i) == crate::bytes::le32(
                    h,
                    0x118 + i,
                )
        }),
{
    let h = f + l + r;
    let hf = h.subrange(0, 112);
    let hl = h.subrange(112, 280);
    let hr = h.subrange(280, 368);
    assert(hf =~= f);
    assert(hl =~= l);
    assert(hr =~= r);
    assert(h.subrange(0x60, 0x6C) =~= f.subrange(0x60, 0x6C));
    assert forall|i: int| 0 <= i <= 108 implies #[trigger] crate::bytes::le32(h, i)
        == crate::bytes::le32(f, i) by {
        assert(crate::bytes::le32(hf, i) == crate::bytes::le32(h, 0 + i));
    }
    assert forall|i: int| 0 <= i <= 160 implies #[trigger] crate::bytes::le64(l, i)
        == crate::bytes::le64(h, 0x70 + i) by {
        assert(crate::bytes::le64(hl, i) == crate::bytes::le64(h, 112 + i));
    }
    assert forall|i: int| 0 <= i <= 164 implies #[trigger] crate::bytes::le32(l, i)
        == crate::bytes::le32(h, 0x70 + i) by {
        assert(crate::bytes::le32(hl, i) == crate::bytes::le32(h, 112 + i));
    }
    assert forall|i: int| 0 <= i <= 80 implies #[trigger] crate::bytes::le64(r, i)
        == crate::bytes::le64(h, 0x118 + i) by {
        assert(crate::bytes::le64(hr, i) == crate::bytes::le64(h, 280 + i));
    }
    assert forall|i: int| 0 <= i <= 84 implies #[trigger] crate::bytes::le32(r, i)
        == crate::bytes::le32(h, 0x118 + i) by {
        assert(crate::bytes::le32(hr, i) == crate::bytes::le32(h, 280 + i));
    }
}

#[verifier::rlimit(60)]
#[verifier::spinoff_prover]
pub proof fn lemma_header_reads(y: YnvView, e: Encoded, at: Blocks, total: int, points: int)
    requires
        e.areas.len() <= 32,
        y.portals.len() <= u32::MAX,
        e.links.len() <= u32::MAX,
    ensures
        header_says(crate::ynv_write::header(y, e, at, total, points), y, e, at),
{
    let f = crate::ynv_write::header_front(y);
    let l = crate::ynv_write::header_lists(e, at);
    let r = crate::ynv_write::header_rest(y, e, at, total, points);
    lemma_front_reads(y);
    lemma_header_lists_read(e, at);
    lemma_rest_reads(y, e, at, total, points);
    lemma_header_says(f, l, r, y, e, at);
}

pub proof fn lemma_header_says(
    f: Seq<u8>,
    l: Seq<u8>,
    r: Seq<u8>,
    y: YnvView,
    e: Encoded,
    at: Blocks,
)
    requires
        f.len() == 112,
        crate::bytes::le32(f, 0) == y.vft,
        crate::bytes::le32(f, 0x10) == y.content_flags,
        f.subrange(0x60, 0x6C) == crate::ynv_write::vec3_bytes(y.bb_size),
        l.len() == 168,
        crate::bytes::le64(l, 0) == at.vertices,
        crate::bytes::le64(l, 0x10) == at.indices,
        crate::bytes::le64(l, 0x18) == at.edges,
        crate::bytes::le32(l, 0x24) == e.areas.len(),
        e.areas.len() <= 32,
        forall|i: int|
            0 <= i < e.areas.len() ==> crate::bytes::le32(l, 0x28 + 4 * i)
                == #[trigger] e.areas[i],
        r.len() == 88,
        crate::bytes::le64(r, 0) == at.polys,
        crate::bytes::le64(r, 8) == at.sectors,
        crate::bytes::le64(r, 0x10) == at.portals,
        crate::bytes::le64(r, 0x18) == at.links,
        crate::bytes::le32(r, 0x28) == y.area_id,
        crate::bytes::le32(r, 0x34) == y.portals.len(),
        crate::bytes::le32(r, 0x38) == e.links.len(),
        crate::bytes::le32(r, 0x48) == y.version_unk2,
    ensures
        header_says(f + l + r, y, e, at),
{
    let h = f + l + r;
    lemma_header_parts(f, l, r);
    crate::ynv_laws::items::lemma_vec3_reads(h, 0x60, y.bb_size);
    let table = crate::ynv::area_table(h);
    assert forall|i: int| 0 <= i < e.areas.len() implies #[trigger] table[i] == e.areas[i] by {
        assert(crate::bytes::le32(l, 0x28 + 4 * i) == e.areas[i]);
        assert(crate::bytes::le32(l, 0x28 + 4 * i) == crate::bytes::le32(h, 0x70 + (0x28 + 4 * i)));
    }
}

/// The four lists that were written read back.
pub proof fn lemma_lists_read(s: Seq<u8>, graphics: Seq<u8>, e: Encoded)
    requires
        crate::ynv_laws::polys::sane(e),
        e.indices.len() <= 0x1_07FE,
        e.records.len() % 48 == 0,
        e.records.len() <= 48 * 0x3FFF,
        crate::ynv_laws::blocks::carries(s, crate::ynv_write::with_lists(e).0, 368),
        s.len() <= 0x1000_0000,
    ensures
        ({
            let (buf, at) = crate::ynv_write::with_lists(e);
            &&& buf.len() >= 368
            &&& crate::ynv::list_items(s, graphics, at.vertices, 6) == Ok::<Seq<u8>, ListFault>(
                crate::ynv_write::vertex_bytes(e.vertices, e.vertices.len()),
            )
            &&& crate::ynv::list_items(s, graphics, at.indices, 2) == Ok::<Seq<u8>, ListFault>(
                crate::ynv_write::word_bytes(e.indices, e.indices.len()),
            )
            &&& crate::ynv::list_items(s, graphics, at.edges, 8) == Ok::<Seq<u8>, ListFault>(
                crate::ynv_write::edge_bytes(e.edges, e.edges.len()),
            )
            &&& crate::ynv::list_items(s, graphics, at.polys, 48) == Ok::<Seq<u8>, ListFault>(
                e.records,
            )
        }),
{
    let v = crate::ynv_write::vertex_bytes(e.vertices, e.vertices.len());
    let i = crate::ynv_write::word_bytes(e.indices, e.indices.len());
    let d = crate::ynv_write::edge_bytes(e.edges, e.edges.len());
    let b0 = crate::ynv_write::grown(Seq::empty(), 368);
    let b1 = crate::ynv_write::with_list(b0, crate::ynv_write::LIST_VFT_VERTICES, v, 6);
    let b2 = crate::ynv_write::with_list(b1, crate::ynv_write::LIST_VFT_INDICES, i, 2);
    let b3 = crate::ynv_write::with_list(b2, crate::ynv_write::LIST_VFT_EDGES, d, 8);
    let b4 = crate::ynv_write::with_list(b3, crate::ynv_write::LIST_VFT_POLYS, e.records, 48);
    crate::ynv_laws::items::lemma_vertices_come_back(e.vertices);
    crate::ynv_laws::items::lemma_words_come_back(e.indices);
    lemma_edge_length(e.edges, e.edges.len());
    crate::ynv_laws::blocks::lemma_grown(Seq::empty(), 368);
    crate::ynv_laws::lists::lemma_list_keeps(b0, crate::ynv_write::LIST_VFT_VERTICES, v, 6);
    crate::ynv_laws::lists::lemma_list_keeps(b1, crate::ynv_write::LIST_VFT_INDICES, i, 2);
    crate::ynv_laws::lists::lemma_list_keeps(b2, crate::ynv_write::LIST_VFT_EDGES, d, 8);
    crate::ynv_laws::lists::lemma_list_keeps(b3, crate::ynv_write::LIST_VFT_POLYS, e.records, 48);
    crate::ynv_laws::blocks::lemma_carries_on(s, b4, b3, 368);
    crate::ynv_laws::blocks::lemma_carries_on(s, b3, b2, 368);
    crate::ynv_laws::blocks::lemma_carries_on(s, b2, b1, 368);
    crate::ynv_laws::lists::lemma_list_reads(s, graphics, b0, crate::ynv_write::LIST_VFT_VERTICES, v, 6);
    crate::ynv_laws::lists::lemma_list_reads(s, graphics, b1, crate::ynv_write::LIST_VFT_INDICES, i, 2);
    crate::ynv_laws::lists::lemma_list_reads(s, graphics, b2, crate::ynv_write::LIST_VFT_EDGES, d, 8);
    crate::ynv_laws::lists::lemma_list_reads(s, graphics, b3, crate::ynv_write::LIST_VFT_POLYS, e.records, 48);
}

pub proof fn lemma_edge_length(v: Seq<(u32, u32)>, k: nat)
    ensures
        crate::ynv_write::edge_bytes(v, k).len() == 8 * k,
    decreases k,
{
    if k > 0 {
        lemma_edge_length(v, (k - 1) as nat);
    }
}

pub proof fn lemma_edge_list(e: Encoded, table: Seq<u32>)
    ensures
        crate::ynv::edge_list(
            crate::ynv_write::edge_bytes(e.edges, e.edges.len()),
            table,
            e.areas.len() as u32,
        ) == crate::ynv_laws::polys::lists_of(e, table).edges,
{
    let s = crate::ynv_write::edge_bytes(e.edges, e.edges.len());
    let got = crate::ynv::edge_list(s, table, e.areas.len() as u32);
    let want = crate::ynv_laws::polys::lists_of(e, table).edges;
    lemma_edge_length(e.edges, e.edges.len());
    assert forall|i: int| 0 <= i < want.len() implies got[i] == want[i] by {
        crate::ynv_laws::items::lemma_edge_item(e.edges, e.edges.len(), i);
    }
    assert(got =~= want);
}

} // verus!
