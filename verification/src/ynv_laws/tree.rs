//! Reading back the sector tree of a navmesh.

use vstd::prelude::*;

use crate::ynv::{NavPoint, YnvError, YnvView};
use crate::ynv_write::{PlanView, SectorBox, TreeState};

verus! {

broadcast use crate::bytes::group_subrange_reads;

/// The points of a sector and of all below it in the order in which they are
/// read, the last part first, and which points are in some sector then.
pub open spec fn tree_order(
    y: YnvView,
    plan: PlanView,
    i: int,
    depth: nat,
    used: Seq<bool>,
) -> (Seq<NavPoint>, Seq<bool>)
    decreases depth, 5nat,
{
    if depth == 0 {
        crate::ynv_write::points_in(
            y.points,
            plan.positions,
            plan.sectors[i],
            used,
            y.points.len(),
        )
    } else {
        quad_order(y, plan, i, depth, used, 4)
    }
}

/// The points of the first `k` parts of a sector in the order in which they
/// are read, and which points are in some sector then.
pub open spec fn quad_order(
    y: YnvView,
    plan: PlanView,
    i: int,
    depth: nat,
    used: Seq<bool>,
    k: nat,
) -> (Seq<NavPoint>, Seq<bool>)
    decreases depth, k,
{
    if k == 0 || depth == 0 || k > 4 {
        (Seq::empty(), used)
    } else {
        let (before, now) = quad_order(y, plan, i, depth, used, (k - 1) as nat);
        let (own, after) = tree_order(
            y,
            plan,
            i + 1 + (k - 1) * crate::ynv_write::sector_count((depth - 1) as nat),
            (depth - 1) as nat,
            now,
        );
        (own + before, after)
    }
}

pub proof fn lemma_sector_head_reads(b: SectorBox)
    ensures
        ({
            let head = crate::ynv_write::sector_head(b);
            &&& head.len() == 44
            &&& head.subrange(0, 12) == crate::ynv_write::vec3_bytes(b.min)
            &&& head.subrange(16, 28) == crate::ynv_write::vec3_bytes(b.max)
        }),
{
    let head = crate::ynv_write::sector_head(b);
    assert(head.subrange(0, 12) =~= crate::ynv_write::vec3_bytes(b.min));
    assert(head.subrange(16, 28) =~= crate::ynv_write::vec3_bytes(b.max));
}

pub proof fn lemma_sector_tail_reads(head: Seq<u8>, data: u64, subs: Seq<u64>)
    requires
        head.len() == 44,
        subs.len() == 4,
    ensures
        ({
            let s = head + crate::bytes::le64_bytes(data) + crate::bytes::le64_bytes(subs[0])
                + crate::bytes::le64_bytes(subs[1]) + crate::bytes::le64_bytes(subs[2])
                + crate::bytes::le64_bytes(subs[3]) + crate::bytes::zeros(12);
            &&& s.len() == 96
            &&& s.subrange(0, 44) == head
            &&& crate::bytes::le64(s, 0x2C) == data
            &&& crate::bytes::le64(s, 0x34) == subs[0]
            &&& crate::bytes::le64(s, 0x3C) == subs[1]
            &&& crate::bytes::le64(s, 0x44) == subs[2]
            &&& crate::bytes::le64(s, 0x4C) == subs[3]
        }),
{
    let s = head + crate::bytes::le64_bytes(data) + crate::bytes::le64_bytes(subs[0])
        + crate::bytes::le64_bytes(subs[1]) + crate::bytes::le64_bytes(subs[2])
        + crate::bytes::le64_bytes(subs[3]) + crate::bytes::zeros(12);
    assert(s.subrange(0, 44) =~= head);
    assert(s.subrange(0x2C, 0x34) =~= crate::bytes::le64_bytes(data));
    assert(s.subrange(0x34, 0x3C) =~= crate::bytes::le64_bytes(subs[0]));
    assert(s.subrange(0x3C, 0x44) =~= crate::bytes::le64_bytes(subs[1]));
    assert(s.subrange(0x44, 0x4C) =~= crate::bytes::le64_bytes(subs[2]));
    assert(s.subrange(0x4C, 0x54) =~= crate::bytes::le64_bytes(subs[3]));
    crate::bytes::law_u64_round_trip(data);
    crate::bytes::law_u64_round_trip(subs[0]);
    crate::bytes::law_u64_round_trip(subs[1]);
    crate::bytes::law_u64_round_trip(subs[2]);
    crate::bytes::law_u64_round_trip(subs[3]);
}

#[verifier::rlimit(40)]
#[verifier::spinoff_prover]
pub proof fn lemma_sector_bytes_read(b: SectorBox, data: u64, subs: Seq<u64>)
    requires
        subs.len() == 4,
    ensures
        ({
            let s = crate::ynv_write::sector_bytes(b, data, subs);
            &&& s.len() == 96
            &&& crate::resource::vec3_at(s, 0) == b.min
            &&& crate::resource::vec3_at(s, 16) == b.max
            &&& crate::bytes::le64(s, 0x2C) == data
            &&& crate::bytes::le64(s, 0x34) == subs[0]
            &&& crate::bytes::le64(s, 0x3C) == subs[1]
            &&& crate::bytes::le64(s, 0x44) == subs[2]
            &&& crate::bytes::le64(s, 0x4C) == subs[3]
        }),
{
    reveal(crate::ynv_write::sector_bytes);
    let s = crate::ynv_write::sector_bytes(b, data, subs);
    lemma_sector_head_reads(b);
    lemma_sector_tail_reads(crate::ynv_write::sector_head(b), data, subs);
    let head = crate::ynv_write::sector_head(b);
    assert(s.subrange(0, 12) =~= head.subrange(0, 12));
    assert(s.subrange(16, 28) =~= head.subrange(16, 28));
    crate::ynv_laws::items::lemma_vec3_reads(s, 0, b.min);
    crate::ynv_laws::items::lemma_vec3_reads(s, 16, b.max);
}

pub proof fn lemma_sector_data_reads(first: int, ids: u64, points: u64, id_count: int, count: int)
    requires
        0 <= count <= 0xFFFF,
    ensures
        ({
            let d = crate::ynv_write::sector_data(first, ids, points, id_count, count);
            &&& d.len() == 32
            &&& crate::bytes::le64(d, 0x10) == points
            &&& crate::bytes::le16(d, 0x1A) == count
        }),
{
    let d = crate::ynv_write::sector_data(first, ids, points, id_count, count);
    assert(d.subrange(0x10, 0x18) =~= crate::bytes::le64_bytes(points));
    assert(d.subrange(0x1A, 0x1C) =~= crate::bytes::le16_bytes(count as u16));
    crate::bytes::law_u64_round_trip(points);
    crate::bytes::law_u16_round_trip(count as u16);
}

pub proof fn lemma_subsectors(s: Seq<u8>, subs: Seq<u64>)
    requires
        subs.len() == 4,
        crate::bytes::le64(s, 0x34) == subs[0],
        crate::bytes::le64(s, 0x3C) == subs[1],
        crate::bytes::le64(s, 0x44) == subs[2],
        crate::bytes::le64(s, 0x4C) == subs[3],
        (forall|i: int| 0 <= i < 4 ==> #[trigger] subs[i] != 0) || (forall|i: int|
            0 <= i < 4 ==> #[trigger] subs[i] == 0),
    ensures
        subs[0] != 0 ==> crate::ynv::subsectors(s, 4) == subs,
        subs[0] == 0 ==> crate::ynv::subsectors(s, 4) == Seq::<u64>::empty(),
{
    reveal_with_fuel(crate::ynv::subsectors, 5);
    assert(subs[1] == 0 <==> subs[0] == 0);
    assert(subs[2] == 0 <==> subs[0] == 0);
    assert(subs[3] == 0 <==> subs[0] == 0);
    if subs[0] != 0 {
        assert(crate::ynv::subsectors(s, 4) =~= subs);
    }
}

/// Where the blocks of a leaf stand.
pub struct LeafLayout {
    pub node_at: int,
    pub node: Seq<u8>,
    pub points: Seq<NavPoint>,
    pub points_at: int,
    pub points_bytes: Seq<u8>,
    pub data_at: int,
    pub data: Seq<u8>,
}

#[verifier::opaque]
pub open spec fn leaf_layout(y: YnvView, plan: PlanView, b: SectorBox, st: TreeState) -> LeafLayout {
    let b1 = crate::ynv_write::grown(st.buf, 96);
    let ids = crate::ynv_write::polys_in(plan.cells, b.cell, plan.cells.len());
    let points = crate::ynv_write::points_in(
        y.points,
        plan.positions,
        b,
        st.used,
        y.points.len(),
    ).0;
    let id_bytes = crate::ynv_write::word_bytes(ids, ids.len());
    let at_bytes = crate::ynv_write::points_bytes(points, points.len());
    let b2 = if ids.len() == 0 {
        b1
    } else {
        crate::ynv_write::put(b1, id_bytes)
    };
    let b3 = if points.len() == 0 {
        b2
    } else {
        crate::ynv_write::put(b2, at_bytes)
    };
    let points_at = crate::ynv_write::start_for(b2.len() as int, at_bytes.len() as int);
    let data_at = crate::ynv_write::start_for(b3.len() as int, 32);
    LeafLayout {
        node_at: crate::ynv_write::start_for(st.buf.len() as int, 96),
        node: crate::ynv_write::sector_bytes(
            b,
            crate::ynv_write::address(data_at),
            seq![0, 0, 0, 0],
        ),
        points,
        points_at,
        points_bytes: at_bytes,
        data_at,
        data: crate::ynv_write::sector_data(
            st.points,
            if ids.len() == 0 {
                0
            } else {
                crate::ynv_write::address(
                    crate::ynv_write::start_for(b1.len() as int, id_bytes.len() as int),
                )
            },
            if points.len() == 0 {
                0
            } else {
                crate::ynv_write::address(points_at)
            },
            ids.len() as int,
            points.len() as int,
        ),
    }
}

#[verifier::rlimit(40)]
pub proof fn lemma_leaf_stands(y: YnvView, plan: PlanView, b: SectorBox, st: TreeState)
    requires
        crate::ynv_write::with_leaf(y, plan, b, st) is Ok,
    ensures
        ({
            let end = crate::ynv_write::with_leaf(y, plan, b, st)->Ok_0;
            let l = leaf_layout(y, plan, b, st);
            &&& crate::ynv_laws::blocks::carries(end.buf, st.buf, 0)
            &&& end.used == crate::ynv_write::points_in(
                y.points,
                plan.positions,
                b,
                st.used,
                y.points.len(),
            ).1
            &&& st.buf.len() <= l.node_at
            &&& l.node.len() == 96
            &&& l.data.len() == 32
            &&& l.points.len() <= 2048
            &&& st.buf.len() <= l.data_at
            &&& l.node_at + 96 <= end.buf.len()
            &&& l.data_at + 32 <= end.buf.len()
            &&& end.buf.subrange(l.node_at, l.node_at + 96) == l.node
            &&& end.buf.subrange(l.data_at, l.data_at + 32) == l.data
            &&& l.points.len() > 0 ==> {
                &&& st.buf.len() <= l.points_at
                &&& l.points_at + l.points_bytes.len() <= end.buf.len()
                &&& end.buf.subrange(l.points_at, l.points_at + l.points_bytes.len())
                    == l.points_bytes
            }
        }),
{
    reveal(crate::ynv_write::with_leaf);
    reveal(leaf_layout);
    let end = crate::ynv_write::with_leaf(y, plan, b, st)->Ok_0;
    let l = leaf_layout(y, plan, b, st);
    let b1 = crate::ynv_write::grown(st.buf, 96);
    let ids = crate::ynv_write::polys_in(plan.cells, b.cell, plan.cells.len());
    let id_bytes = crate::ynv_write::word_bytes(ids, ids.len());
    let b2 = if ids.len() == 0 {
        b1
    } else {
        crate::ynv_write::put(b1, id_bytes)
    };
    let b3 = if l.points.len() == 0 {
        b2
    } else {
        crate::ynv_write::put(b2, l.points_bytes)
    };
    lemma_sector_bytes_read(b, crate::ynv_write::address(l.data_at), seq![0, 0, 0, 0]);
    assert(l.data.len() == 32);
    crate::ynv_laws::blocks::lemma_grown(st.buf, 96);
    crate::ynv_laws::blocks::lemma_put(b1, id_bytes);
    crate::ynv_laws::blocks::lemma_put(b2, l.points_bytes);
    crate::ynv_laws::blocks::lemma_put(b3, l.data);
    let b4 = crate::ynv_write::put(b3, l.data);
    assert(end.buf == crate::bytes::splice(b4, l.node_at, l.node));
    assert(crate::ynv_laws::blocks::carries(b2, b1, 0));
    assert(crate::ynv_laws::blocks::carries(b3, b2, 0));
    assert forall|i: int| 0 <= i < b1.len() implies b4[i] == b1[i] by {
        assert(b4[i] == b3[i]);
        assert(b3[i] == b2[i]);
        assert(b2[i] == b1[i]);
    }
    assert forall|i: int| 0 <= i < st.buf.len() implies #[trigger] end.buf[i] == st.buf[i] by {
        assert(b1[i] == st.buf[i]);
    }
    assert(end.buf.subrange(l.node_at, l.node_at + 96) =~= l.node);
    assert(end.buf.subrange(l.data_at, l.data_at + 32) =~= b4.subrange(
        l.data_at,
        l.data_at + 32,
    ));
    if l.points.len() > 0 {
        let n = l.points_bytes.len();
        assert(end.buf.subrange(l.points_at, l.points_at + n) =~= b3.subrange(
            l.points_at,
            l.points_at + n,
        )) by {
            assert forall|i: int| l.points_at <= i < l.points_at + n implies end.buf[i]
                == b3[i] by {
                assert(b4[i] == b3[i]);
            }
        }
    }
}

/// The data of a leaf, by where its polygons are and how many it has.
pub open spec fn leaf_data(l: LeafLayout, first: int, ids: (u64, int)) -> Seq<u8> {
    crate::ynv_write::sector_data(
        first,
        ids.0,
        if l.points.len() == 0 {
            0
        } else {
            crate::ynv_write::address(l.points_at)
        },
        ids.1,
        l.points.len() as int,
    )
}

pub proof fn lemma_node_reads(node: Seq<u8>, b: SectorBox, data: u64)
    requires
        node == crate::ynv_write::sector_bytes(b, data, seq![0, 0, 0, 0]),
    ensures
        crate::bytes::le64(node, 0x2C) == data,
        crate::ynv::subsectors(node, 4) == Seq::<u64>::empty(),
        crate::resource::vec3_at(node, 0) == b.min,
        crate::resource::vec3_at(node, 16) == b.max,
{
    let none: Seq<u64> = seq![0, 0, 0, 0];
    lemma_sector_bytes_read(b, data, none);
    lemma_subsectors(node, none);
}

pub proof fn lemma_leaf_pieces(y: YnvView, plan: PlanView, b: SectorBox, st: TreeState)
    ensures
        ({
            let l = leaf_layout(y, plan, b, st);
            &&& l.node_at == crate::ynv_write::start_for(st.buf.len() as int, 96)
            &&& l.points == crate::ynv_write::points_in(
                y.points,
                plan.positions,
                b,
                st.used,
                y.points.len(),
            ).0
            &&& l.points_bytes == crate::ynv_write::points_bytes(l.points, l.points.len())
            &&& l.node == crate::ynv_write::sector_bytes(
                b,
                crate::ynv_write::address(l.data_at),
                seq![0, 0, 0, 0],
            )
            &&& exists|x: (u64, int)|
                l.data == #[trigger] leaf_data(l, st.points, x)
        }),
{
    reveal(leaf_layout);
    let l = leaf_layout(y, plan, b, st);
    let ids = crate::ynv_write::polys_in(plan.cells, b.cell, plan.cells.len());
    let b1 = crate::ynv_write::grown(st.buf, 96);
    let id_bytes = crate::ynv_write::word_bytes(ids, ids.len());
    let x: (u64, int) = (
        if ids.len() == 0 {
            0
        } else {
            crate::ynv_write::address(
                crate::ynv_write::start_for(b1.len() as int, id_bytes.len() as int),
            )
        },
        ids.len() as int,
    );
    assert(l.data == leaf_data(l, st.points, x));
}

pub proof fn lemma_leaf_fields(y: YnvView, plan: PlanView, b: SectorBox, st: TreeState)
    requires
        leaf_layout(y, plan, b, st).points.len() <= 2048,
    ensures
        ({
            let l = leaf_layout(y, plan, b, st);
            &&& l.node_at == crate::ynv_write::start_for(st.buf.len() as int, 96)
            &&& l.points == crate::ynv_write::points_in(
                y.points,
                plan.positions,
                b,
                st.used,
                y.points.len(),
            ).0
            &&& l.points_bytes == crate::ynv_write::points_bytes(l.points, l.points.len())
            &&& crate::bytes::le64(l.node, 0x2C) == crate::ynv_write::address(l.data_at)
            &&& crate::ynv::subsectors(l.node, 4) == Seq::<u64>::empty()
            &&& crate::resource::vec3_at(l.node, 0) == b.min
            &&& crate::resource::vec3_at(l.node, 16) == b.max
            &&& crate::bytes::le16(l.data, 0x1A) == l.points.len()
            &&& l.points.len() > 0 ==> crate::bytes::le64(l.data, 0x10)
                == crate::ynv_write::address(l.points_at)
        }),
{
    let l = leaf_layout(y, plan, b, st);
    let none: Seq<u64> = seq![0, 0, 0, 0];
    lemma_leaf_pieces(y, plan, b, st);
    lemma_node_reads(l.node, b, crate::ynv_write::address(l.data_at));
    let ids = choose|x: (u64, int)|
        l.data == #[trigger] leaf_data(l, st.points, x);
    lemma_sector_data_reads(
        st.points,
        ids.0,
        if l.points.len() == 0 {
            0
        } else {
            crate::ynv_write::address(l.points_at)
        },
        ids.1,
        l.points.len() as int,
    );
}

/// A leaf that was written reads back.
pub proof fn lemma_leaf_reads(
    s: Seq<u8>,
    graphics: Seq<u8>,
    y: YnvView,
    plan: PlanView,
    b: SectorBox,
    st: TreeState,
)
    requires
        crate::ynv_write::with_leaf(y, plan, b, st) is Ok,
        crate::ynv_laws::blocks::carries(
            s,
            (crate::ynv_write::with_leaf(y, plan, b, st)->Ok_0).buf,
            st.buf.len() as int,
        ),
        s.len() <= 0x1000_0000,
    ensures
        ({
            let l = leaf_layout(y, plan, b, st);
            &&& crate::resource::resolved(
                s,
                graphics,
                crate::ynv_write::address(l.node_at),
                96,
            ) == Some(l.node)
            &&& crate::bytes::le64(l.node, 0x2C) == crate::ynv_write::address(l.data_at)
            &&& crate::ynv::subsectors(l.node, 4) == Seq::<u64>::empty()
            &&& crate::ynv::sector_points(
                s,
                graphics,
                crate::ynv_write::address(l.data_at),
            ) == Ok::<Seq<NavPoint>, YnvError>(l.points)
        }),
{
    let end = crate::ynv_write::with_leaf(y, plan, b, st)->Ok_0;
    let l = leaf_layout(y, plan, b, st);
    let from = st.buf.len() as int;
    lemma_leaf_stands(y, plan, b, st);
    crate::ynv_laws::blocks::lemma_carried(s, end.buf, from, l.node_at, l.node);
    crate::ynv_laws::blocks::lemma_resolves(s, graphics, l.node_at, l.node);
    crate::ynv_laws::blocks::lemma_carried(s, end.buf, from, l.data_at, l.data);
    crate::ynv_laws::blocks::lemma_resolves(s, graphics, l.data_at, l.data);
    lemma_leaf_fields(y, plan, b, st);
    if l.points.len() == 0 {
        assert(l.points =~= Seq::<NavPoint>::empty());
    } else {
        crate::ynv_laws::items::lemma_points_come_back(l.points);
        crate::ynv_laws::blocks::lemma_carried(s, end.buf, from, l.points_at, l.points_bytes);
        crate::ynv_laws::blocks::lemma_resolves(s, graphics, l.points_at, l.points_bytes);
    }
}

pub proof fn lemma_sector_grows(y: YnvView, plan: PlanView, i: int, depth: nat, st: TreeState)
    requires
        crate::ynv_write::with_sector(y, plan, i, depth, st) is Ok,
    ensures
        crate::ynv_laws::blocks::carries((crate::ynv_write::with_sector(y, plan, i, depth, st)->Ok_0).buf, st.buf, 0),
    decreases depth, 5nat,
{
    if depth == 0 {
        lemma_leaf_stands(y, plan, plan.sectors[i], st);
    } else {
        let node = crate::ynv_write::start_for(st.buf.len() as int, 96);
        let started = TreeState {
            buf: crate::ynv_write::grown(st.buf, 96),
            total: st.total + 96,
            ..st
        };
        crate::ynv_laws::blocks::lemma_grown(st.buf, 96);
        lemma_quads_grow(y, plan, i, depth, started, 4);
        let (end, subs) = crate::ynv_write::with_quads(y, plan, i, depth, started, 4)->Ok_0;
        let out = (crate::ynv_write::with_sector(y, plan, i, depth, st)->Ok_0).buf;
        assert forall|j: int| 0 <= j < st.buf.len() implies #[trigger] out[j] == st.buf[j] by {
            assert(end.buf[j] == started.buf[j]);
            assert(started.buf[j] == st.buf[j]);
        }
    }
}

pub proof fn lemma_quads_grow(
    y: YnvView,
    plan: PlanView,
    i: int,
    depth: nat,
    st: TreeState,
    k: nat,
)
    requires
        crate::ynv_write::with_quads(y, plan, i, depth, st, k) is Ok,
        depth > 0,
        k <= 4,
    ensures
        ({
            let (end, subs) = crate::ynv_write::with_quads(y, plan, i, depth, st, k)->Ok_0;
            crate::ynv_laws::blocks::carries(end.buf, st.buf, 0) && subs.len() == k
        }),
    decreases depth, k,
{
    if k > 0 {
        lemma_quads_grow(y, plan, i, depth, st, (k - 1) as nat);
        let (before, subs) = crate::ynv_write::with_quads(
            y,
            plan,
            i,
            depth,
            st,
            (k - 1) as nat,
        )->Ok_0;
        let at = i + 1 + (k - 1) * crate::ynv_write::sector_count((depth - 1) as nat);
        lemma_sector_grows(y, plan, at, (depth - 1) as nat, before);
        let end = crate::ynv_write::with_sector(y, plan, at, (depth - 1) as nat, before)->Ok_0;
        assert forall|j: int| 0 <= j < st.buf.len() implies #[trigger] end.buf[j] == st.buf[j] by {
            assert(end.buf[j] == before.buf[j]);
            assert(before.buf[j] == st.buf[j]);
        }
    }
}

/// A sector that was written reads back, with all below it.
#[verifier::rlimit(60)]
#[verifier::spinoff_prover]
pub proof fn lemma_sector_reads(
    s: Seq<u8>,
    graphics: Seq<u8>,
    y: YnvView,
    plan: PlanView,
    i: int,
    depth: nat,
    st: TreeState,
    stack: Seq<u64>,
    visited: nat,
    points: Seq<NavPoint>,
)
    requires
        crate::ynv_write::with_sector(y, plan, i, depth, st) is Ok,
        crate::ynv_laws::blocks::carries(
            s,
            (crate::ynv_write::with_sector(y, plan, i, depth, st)->Ok_0).buf,
            st.buf.len() as int,
        ),
        s.len() <= 0x1000_0000,
        visited + crate::ynv_write::sector_count(depth) <= crate::ynv::MAX_SECTORS,
    ensures
        ({
            let end = crate::ynv_write::with_sector(y, plan, i, depth, st)->Ok_0;
            let node = crate::ynv_write::start_for(st.buf.len() as int, 96);
            let (own, used) = tree_order(y, plan, i, depth, st.used);
            &&& end.used == used
            &&& crate::ynv_write::address(node) != 0
            &&& crate::ynv::tree_points(
                s,
                graphics,
                stack.push(crate::ynv_write::address(node)),
                visited,
                points,
            ) == crate::ynv::tree_points(
                s,
                graphics,
                stack,
                visited + crate::ynv_write::sector_count(depth),
                points + own,
            )
        }),
    decreases depth, 5nat,
{
    let node = crate::ynv_write::start_for(st.buf.len() as int, 96);
    let va = crate::ynv_write::address(node);
    let b = plan.sectors[i];
    let (own, used) = tree_order(y, plan, i, depth, st.used);
    assert(stack.push(va).last() == va);
    assert(stack.push(va).drop_last() =~= stack);
    assert(crate::ynv_write::sector_count(depth) >= 1) by {
        if depth > 0 {
            lemma_sector_count((depth - 1) as nat);
        }
    }
    if depth == 0 {
        lemma_leaf_reads(s, graphics, y, plan, b, st);
        lemma_leaf_stands(y, plan, b, st);
        lemma_leaf_fields(y, plan, b, st);
        lemma_resolves_node(node, s, st.buf.len() as int);
        assert(stack + Seq::<u64>::empty() =~= stack);
    } else {
        let started = TreeState {
            buf: crate::ynv_write::grown(st.buf, 96),
            total: st.total + 96,
            ..st
        };
        crate::ynv_laws::blocks::lemma_grown(st.buf, 96);
        lemma_quads_grow(y, plan, i, depth, started, 4);
        let (end, subs) = crate::ynv_write::with_quads(y, plan, i, depth, started, 4)->Ok_0;
        let out = (crate::ynv_write::with_sector(y, plan, i, depth, st)->Ok_0).buf;
        let bytes = crate::ynv_write::sector_bytes(b, 0, subs);
        lemma_sector_bytes_read(b, 0, subs);
        assert(out == crate::bytes::splice(end.buf, node, bytes));
        assert(out.subrange(node, node + 96) =~= bytes);
        crate::ynv_laws::blocks::lemma_carried(s, out, st.buf.len() as int, node, bytes);
        crate::ynv_laws::blocks::lemma_resolves(s, graphics, node, bytes);
        assert(crate::ynv_laws::blocks::carries(s, end.buf, started.buf.len() as int)) by {
            assert forall|j: int| started.buf.len() <= j < end.buf.len() implies #[trigger] s[j]
                == end.buf[j] by {
                assert(s[j] == out[j]);
            }
        }
        lemma_quads_read(
            s,
            graphics,
            y,
            plan,
            i,
            depth,
            started,
            stack,
            visited + 1,
            points,
            4,
        );
        lemma_subsectors(bytes, subs);
        assert(points + Seq::<NavPoint>::empty() =~= points);
    }
}

pub proof fn lemma_resolves_node(node: int, s: Seq<u8>, from: int)
    requires
        0 <= from <= node,
        node + 96 <= s.len() <= 0x1000_0000,
    ensures
        crate::ynv_write::address(node) != 0,
{
}

pub proof fn lemma_sector_count(depth: nat)
    ensures
        crate::ynv_write::sector_count(depth) >= 1,
    decreases depth,
{
    if depth > 0 {
        lemma_sector_count((depth - 1) as nat);
    }
}

#[verifier::rlimit(60)]
#[verifier::spinoff_prover]
pub proof fn lemma_quads_read(
    s: Seq<u8>,
    graphics: Seq<u8>,
    y: YnvView,
    plan: PlanView,
    i: int,
    depth: nat,
    st: TreeState,
    stack: Seq<u64>,
    visited: nat,
    points: Seq<NavPoint>,
    k: nat,
)
    requires
        crate::ynv_write::with_quads(y, plan, i, depth, st, k) is Ok,
        depth > 0,
        k <= 4,
        ({
            let (end, subs) = crate::ynv_write::with_quads(y, plan, i, depth, st, k)->Ok_0;
            crate::ynv_laws::blocks::carries(s, end.buf, st.buf.len() as int)
        }),
        s.len() <= 0x1000_0000,
        visited + k * crate::ynv_write::sector_count((depth - 1) as nat)
            <= crate::ynv::MAX_SECTORS,
    ensures
        ({
            let (end, subs) = crate::ynv_write::with_quads(y, plan, i, depth, st, k)->Ok_0;
            let (own, used) = quad_order(y, plan, i, depth, st.used, k);
            &&& end.used == used
            &&& subs.len() == k
            &&& forall|j: int| 0 <= j < k ==> #[trigger] subs[j] != 0
            &&& crate::ynv::tree_points(s, graphics, stack + subs, visited, points)
                == crate::ynv::tree_points(
                s,
                graphics,
                stack,
                visited + k * crate::ynv_write::sector_count((depth - 1) as nat),
                points + own,
            )
        }),
    decreases depth, k,
{
    let count = crate::ynv_write::sector_count((depth - 1) as nat);
    if k == 0 {
        assert(stack + Seq::<u64>::empty() =~= stack);
        assert(points + Seq::<NavPoint>::empty() =~= points);
    } else {
        let (before, subs0) = crate::ynv_write::with_quads(
            y,
            plan,
            i,
            depth,
            st,
            (k - 1) as nat,
        )->Ok_0;
        let (end, subs) = crate::ynv_write::with_quads(y, plan, i, depth, st, k)->Ok_0;
        let at = i + 1 + (k - 1) * count;
        lemma_quads_grow(y, plan, i, depth, st, (k - 1) as nat);
        lemma_sector_grows(y, plan, at, (depth - 1) as nat, before);
        crate::ynv_laws::blocks::lemma_carries_on(s, end.buf, before.buf, st.buf.len() as int);
        assert(k * count == (k - 1) * count + count) by (nonlinear_arith);
        let (own0, used0) = quad_order(y, plan, i, depth, st.used, (k - 1) as nat);
        let (mine, used) = tree_order(y, plan, at, (depth - 1) as nat, used0);
        lemma_quads_read(
            s,
            graphics,
            y,
            plan,
            i,
            depth,
            st,
            stack,
            visited + count,
            points + mine,
            (k - 1) as nat,
        );
        lemma_sector_reads(
            s,
            graphics,
            y,
            plan,
            at,
            (depth - 1) as nat,
            before,
            stack + subs0,
            visited,
            points,
        );
        let va = crate::ynv_write::address(
            crate::ynv_write::start_for(before.buf.len() as int, 96),
        );
        assert(stack + subs =~= (stack + subs0).push(va));
        assert(points + mine + own0 =~= points + (mine + own0));
    }
}

} // verus!
