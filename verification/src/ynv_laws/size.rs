//! How large a navmesh can come to be.

use vstd::prelude::*;

use crate::ynv::YnvView;
use crate::ynv_write::{Encoded, PlanView, SectorBox, TreeState};

verus! {

/// How much a block of a page at most can add.
pub proof fn lemma_put_size(buf: Seq<u8>, bytes: Seq<u8>)
    requires
        bytes.len() <= 0x4000,
    ensures
        crate::ynv_write::put(buf, bytes).len() <= buf.len() + bytes.len() + 0x4010,
{
    crate::ynv_write::law_blocks_stay_in_pages(buf.len() as int, bytes.len() as int);
}

/// How much a block of zeros of a page at most can add.
pub proof fn lemma_grown_size(buf: Seq<u8>, size: int)
    requires
        0 <= size <= 0x4000,
    ensures
        crate::ynv_write::grown(buf, size).len() <= buf.len() + size + 0x4010,
{
    crate::ynv_write::law_blocks_stay_in_pages(buf.len() as int, size);
}

/// How much the parts of a list can add.
pub proof fn lemma_parts_size(buf: Seq<u8>, items: Seq<u8>, item: int, k: nat)
    requires
        crate::ynv_laws::lists::is_item(item),
        items.len() % (item as nat) == 0,
        k <= crate::ynv_write::part_count(items.len() as int, item),
    ensures
        crate::ynv_write::with_parts(buf, items, item, k).0.len() <= buf.len() + 0x8010 * k,
    decreases k,
{
    if k > 0 {
        lemma_parts_size(buf, items, item, (k - 1) as nat);
        crate::ynv_laws::lists::lemma_part(items, item, k);
        let before = crate::ynv_write::with_parts(buf, items, item, (k - 1) as nat).0;
        lemma_put_size(before, crate::ynv_write::part_at(items, item, k - 1));
    }
}

/// How much a list can add.
pub proof fn lemma_list_size(buf: Seq<u8>, vft: u32, items: Seq<u8>, item: int)
    requires
        crate::ynv_laws::lists::is_item(item),
        items.len() % (item as nat) == 0,
        items.len() <= 0xE_0000,
    ensures
        crate::ynv_write::with_list(buf, vft, items, item).len() <= buf.len() + 0x21_0000,
{
    reveal(crate::ynv_write::with_list);
    let n = crate::ynv_write::part_count(items.len() as int, item);
    let size = crate::ynv_write::part_size(item);
    crate::ynv_write::lemma_part_size(item);
    crate::resource::lemma_ceil_div(items.len() as int, size);
    if n > 64 {
        assert(size * n >= 16368 * 65) by (nonlinear_arith)
            requires
                size >= 16368,
                n >= 65,
        ;
    }
    let b1 = crate::ynv_write::grown(buf, 48);
    lemma_grown_size(buf, 48);
    let b2 = crate::ynv_write::grown(b1, 16int * n);
    lemma_grown_size(b1, 16int * n);
    let (b3, records, firsts) = crate::ynv_write::with_parts(b2, items, item, n);
    crate::ynv_laws::lists::lemma_parts_shape(b2, items, item, n);
    lemma_parts_size(b2, items, item, n);
    let table = crate::ynv_write::start_for(b1.len() as int, 16int * n);
    let b4 = crate::bytes::splice(b3, table, records);
    lemma_put_size(b4, firsts);
}

/// How large the header and the lists can be.
pub proof fn lemma_lists_size(e: Encoded)
    requires
        crate::ynv_laws::polys::sane(e),
        e.indices.len() <= 0x1_07FE,
        e.records.len() % 48 == 0,
        e.records.len() <= 48 * 0x3FFF,
    ensures
        crate::ynv_write::with_lists(e).0.len() <= 0x85_0000,
{
    let v = crate::ynv_write::vertex_bytes(e.vertices, e.vertices.len());
    let i = crate::ynv_write::word_bytes(e.indices, e.indices.len());
    let d = crate::ynv_write::edge_bytes(e.edges, e.edges.len());
    let b0 = crate::ynv_write::grown(Seq::empty(), 368);
    let b1 = crate::ynv_write::with_list(b0, crate::ynv_write::LIST_VFT_VERTICES, v, 6);
    let b2 = crate::ynv_write::with_list(b1, crate::ynv_write::LIST_VFT_INDICES, i, 2);
    let b3 = crate::ynv_write::with_list(b2, crate::ynv_write::LIST_VFT_EDGES, d, 8);
    crate::ynv_laws::items::lemma_vertices_come_back(e.vertices);
    crate::ynv_laws::items::lemma_words_come_back(e.indices);
    crate::ynv_laws::file::lemma_edge_length(e.edges, e.edges.len());
    lemma_grown_size(Seq::empty(), 368);
    lemma_list_size(b0, crate::ynv_write::LIST_VFT_VERTICES, v, 6);
    lemma_list_size(b1, crate::ynv_write::LIST_VFT_INDICES, i, 2);
    lemma_list_size(b2, crate::ynv_write::LIST_VFT_EDGES, d, 8);
    lemma_list_size(b3, crate::ynv_write::LIST_VFT_POLYS, e.records, 48);
}

/// How much a leaf can add.
pub proof fn lemma_leaf_size(y: YnvView, plan: PlanView, b: SectorBox, st: TreeState)
    requires
        crate::ynv_write::with_leaf(y, plan, b, st) is Ok,
    ensures
        (crate::ynv_write::with_leaf(y, plan, b, st)->Ok_0).buf.len() <= st.buf.len() + 0x1_9000,
{
    reveal(crate::ynv_write::with_leaf);
    let b1 = crate::ynv_write::grown(st.buf, 96);
    let ids = crate::ynv_write::polys_in(plan.cells, b.cell, plan.cells.len());
    let points = crate::ynv_write::points_in(
        y.points,
        plan.positions,
        b,
        st.used,
        y.points.len(),
    ).0;
    let id_bytes = crate::ynv_write::word_bytes(ids, ids.len());
    let at_bytes = crate::ynv_write::points_bytes(points, points.len());
    crate::ynv_laws::items::lemma_words_come_back(ids);
    crate::ynv_laws::items::lemma_points_come_back(points);
    let b2 = if ids.len() == 0 {
        b1
    } else {
        crate::ynv_write::put(b1, id_bytes)
    };
    let b3 = if points.len() == 0 {
        b2
    } else {
        crate::ynv_write::put(b2, at_bytes)
    };
    lemma_grown_size(st.buf, 96);
    lemma_put_size(b1, id_bytes);
    lemma_put_size(b2, at_bytes);
    let data = crate::ynv_write::sector_data(
        st.points,
        if ids.len() == 0 {
            0
        } else {
            crate::ynv_write::address(
                crate::ynv_write::start_for(b1.len() as int, id_bytes.len() as int),
            )
        },
        if points.len() == 0 {
            0
        } else {
            crate::ynv_write::address(
                crate::ynv_write::start_for(b2.len() as int, at_bytes.len() as int),
            )
        },
        ids.len() as int,
        points.len() as int,
    );
    assert(data.len() == 32);
    lemma_put_size(b3, data);
}

/// How much a sector can add, with all below it.
pub proof fn lemma_sector_size(y: YnvView, plan: PlanView, i: int, depth: nat, st: TreeState)
    requires
        crate::ynv_write::with_sector(y, plan, i, depth, st) is Ok,
    ensures
        (crate::ynv_write::with_sector(y, plan, i, depth, st)->Ok_0).buf.len() <= st.buf.len()
            + 0x1_9000 * crate::ynv_write::sector_count(depth),
    decreases depth, 5nat,
{
    if depth == 0 {
        lemma_leaf_size(y, plan, plan.sectors[i], st);
    } else {
        let started = TreeState {
            buf: crate::ynv_write::grown(st.buf, 96),
            total: st.total + 96,
            ..st
        };
        lemma_grown_size(st.buf, 96);
        lemma_quads_size(y, plan, i, depth, started, 4);
    }
}

/// How much the parts of a sector can add.
pub proof fn lemma_quads_size(
    y: YnvView,
    plan: PlanView,
    i: int,
    depth: nat,
    st: TreeState,
    k: nat,
)
    requires
        crate::ynv_write::with_quads(y, plan, i, depth, st, k) is Ok,
        depth > 0,
        k <= 4,
    ensures
        ({
            let (end, subs) = crate::ynv_write::with_quads(y, plan, i, depth, st, k)->Ok_0;
            end.buf.len() <= st.buf.len() + 0x1_9000 * (k * crate::ynv_write::sector_count(
                (depth - 1) as nat,
            ))
        }),
    decreases depth, k,
{
    if k > 0 {
        let count = crate::ynv_write::sector_count((depth - 1) as nat);
        lemma_quads_size(y, plan, i, depth, st, (k - 1) as nat);
        let (before, subs) = crate::ynv_write::with_quads(
            y,
            plan,
            i,
            depth,
            st,
            (k - 1) as nat,
        )->Ok_0;
        lemma_sector_size(y, plan, i + 1 + (k - 1) * count, (depth - 1) as nat, before);
        assert(k * count == (k - 1) * count + count) by (nonlinear_arith);
    }
}

} // verus!
