//! Which polygons a written sector tree lists, read from its bytes.

use vstd::prelude::*;

use crate::resource::ResourceError;
use crate::ynv::{YnvError, YnvView};
use crate::ynv_write::{NavBox, PlanView, SectorBox, TreeState};

verus! {

broadcast use crate::bytes::group_subrange_reads;

/// Whether a box covers a place on the ground.
pub open spec fn covers(b: NavBox, x: int, y: int) -> bool {
    b.min_x <= x <= b.max_x && b.min_y <= y <= b.max_y
}

/// Whether two boxes have a place on the ground in common.
pub open spec fn share_a_place(a: NavBox, b: NavBox) -> bool {
    exists|x: int, y: int| #[trigger] covers(a, x, y) && #[trigger] covers(b, x, y)
}

/// Whether a box covers anything.
pub open spec fn is_box(b: NavBox) -> bool {
    b.min_x <= b.max_x && b.min_y <= b.max_y
}

/// The box that stands at a place, two bytes for each of its sides.
#[verifier::opaque]
pub open spec fn box_at(n: Seq<u8>, off: int) -> NavBox {
    NavBox {
        min_x: crate::bytes::le16(n, off) as i16,
        max_x: crate::bytes::le16(n, off + 2) as i16,
        min_y: crate::bytes::le16(n, off + 4) as i16,
        max_y: crate::bytes::le16(n, off + 6) as i16,
        min_z: crate::bytes::le16(n, off + 8) as i16,
        max_z: crate::bytes::le16(n, off + 10) as i16,
    }
}

/// The polygons that the data of a sector lists: their number stands behind
/// the two pointers, and the first pointer leads to their numbers.
pub open spec fn listed(s: Seq<u8>, graphics: Seq<u8>, n: Seq<u8>) -> Option<Seq<u16>> {
    match crate::resource::resolved(s, graphics, crate::bytes::le64(n, 0x2C), 32) {
        None => None,
        Some(d) => {
            let count = crate::bytes::le16(d, 0x18) as nat;
            if count == 0 {
                Some(Seq::empty())
            } else {
                match crate::resource::resolved(
                    s,
                    graphics,
                    crate::bytes::le64(d, 0x08),
                    2 * count as int,
                ) {
                    None => None,
                    Some(b) => Some(crate::resource::le16_list(b, count)),
                }
            }
        },
    }
}

/// Whether a list holds exactly the numbers of the polygons whose boxes share
/// a place with a sector's, each once, in order.
#[verifier::opaque]
pub open spec fn lists_what_meets(ids: Seq<u16>, cells: Seq<NavBox>, sector: NavBox) -> bool {
    &&& forall|i: int|
        0 <= i < cells.len() ==> (ids.contains(i as u16) <==> share_a_place(
            #[trigger] cells[i],
            sector,
        ))
    &&& forall|k: int| 0 <= k < ids.len() ==> (#[trigger] ids[k]) < cells.len()
    &&& forall|j: int, k: int| 0 <= j < k < ids.len() ==> (#[trigger] ids[j]) < (#[trigger] ids[k])
}

/// Whether the sector at an address, and every sector below it, has the box
/// of the plan, and every leaf lists exactly the polygons that meet its box.
pub open spec fn tree_lists(
    s: Seq<u8>,
    graphics: Seq<u8>,
    va: u64,
    plan: PlanView,
    i: int,
    depth: nat,
) -> bool
    decreases depth,
{
    match crate::resource::resolved(s, graphics, va, 96) {
        None => false,
        Some(n) => {
            &&& crate::resource::vec3_at(n, 0) == plan.sectors[i].min
            &&& crate::resource::vec3_at(n, 0x10) == plan.sectors[i].max
            &&& box_at(n, 0x20) == plan.sectors[i].cell
            &&& if depth == 0 {
                &&& listed(s, graphics, n) is Some
                &&& lists_what_meets(listed(s, graphics, n)->0, plan.cells, box_at(n, 0x20))
            } else {
                let below = (depth - 1) as nat;
                let count = crate::ynv_write::sector_count(below);
                &&& tree_lists(s, graphics, crate::bytes::le64(n, 0x34), plan, i + 1, below)
                &&& tree_lists(
                    s,
                    graphics,
                    crate::bytes::le64(n, 0x3C),
                    plan,
                    i + 1 + count,
                    below,
                )
                &&& tree_lists(
                    s,
                    graphics,
                    crate::bytes::le64(n, 0x44),
                    plan,
                    i + 1 + 2 * count,
                    below,
                )
                &&& tree_lists(
                    s,
                    graphics,
                    crate::bytes::le64(n, 0x4C),
                    plan,
                    i + 1 + 3 * count,
                    below,
                )
            }
        },
    }
}

/// Boxes meet where they share a place, and nowhere else.
pub proof fn law_boxes_meet_in_a_place(a: NavBox, b: NavBox)
    requires
        is_box(a),
        is_box(b),
    ensures
        crate::ynv_write::boxes_meet(a, b) <==> share_a_place(a, b),
{
    if crate::ynv_write::boxes_meet(a, b) {
        let x = if a.min_x >= b.min_x {
            a.min_x as int
        } else {
            b.min_x as int
        };
        let y = if a.min_y >= b.min_y {
            a.min_y as int
        } else {
            b.min_y as int
        };
        assert(covers(a, x, y) && covers(b, x, y));
    }
}

proof fn lemma_polys_in(cells: Seq<NavBox>, cell: NavBox, k: nat)
    requires
        k <= cells.len() <= 0xFFFF,
        is_box(cell),
        forall|i: int| 0 <= i < cells.len() ==> is_box(#[trigger] cells[i]),
    ensures
        lists_what_meets(crate::ynv_write::polys_in(cells, cell, k), cells.take(k as int), cell),
    decreases k,
{
    reveal(lists_what_meets);
    let ids = crate::ynv_write::polys_in(cells, cell, k);
    if k > 0 {
        let before = crate::ynv_write::polys_in(cells, cell, (k - 1) as nat);
        lemma_polys_in(cells, cell, (k - 1) as nat);
        law_boxes_meet_in_a_place(cells[k - 1], cell);
        let last = (k - 1) as u16;
        assert(!before.contains(last)) by {
            if before.contains(last) {
                let j = choose|j: int| 0 <= j < before.len() && before[j] == last;
                assert(before[j] < cells.take(k - 1).len());
            }
        }
        assert forall|i: int| 0 <= i < k implies (ids.contains(i as u16) <==> share_a_place(
            #[trigger] cells.take(k as int)[i],
            cell,
        )) by {
            if i < k - 1 {
                assert(cells.take(k - 1)[i] == cells[i]);
                if before.contains(i as u16) {
                    let j = choose|j: int| 0 <= j < before.len() && before[j] == i as u16;
                    assert(ids[j] == i as u16);
                } else if ids.contains(i as u16) {
                    let j = choose|j: int| 0 <= j < ids.len() && ids[j] == i as u16;
                    assert(j < before.len());
                    assert(before[j] == i as u16);
                }
            } else {
                if share_a_place(cells[k - 1], cell) {
                    assert(ids[ids.len() - 1] == last);
                }
            }
        }
        assert forall|j: int| 0 <= j < ids.len() implies (#[trigger] ids[j]) < k by {
            if j < before.len() {
                assert(ids[j] == before[j]);
            }
        }
        assert forall|a: int, b: int| 0 <= a < b < ids.len() implies (#[trigger] ids[a]) < (
        #[trigger] ids[b]) by {
            assert(ids[a] == before[a]);
            if b < before.len() {
                assert(ids[b] == before[b]);
            }
        }
    }
}

proof fn lemma_side(v: i16)
    ensures
        (v as u16) as i16 == v,
{
    assert((v as u16) as i16 == v) by (bit_vector);
}

/// A box that was written reads back.
proof fn lemma_box_reads(n: Seq<u8>, off: int, b: NavBox)
    requires
        crate::layout::stands(n, off, crate::ynv_write::box_bytes(b)),
    ensures
        box_at(n, off) == b,
{
    reveal(box_at);
    let t = crate::ynv_write::box_bytes(b);
    let at = n.subrange(off, off + 12);
    assert(at == t);
    assert(at.subrange(0, 2) =~= crate::bytes::le16_bytes(b.min_x as u16));
    assert(at.subrange(2, 4) =~= crate::bytes::le16_bytes(b.max_x as u16));
    assert(at.subrange(4, 6) =~= crate::bytes::le16_bytes(b.min_y as u16));
    assert(at.subrange(6, 8) =~= crate::bytes::le16_bytes(b.max_y as u16));
    assert(at.subrange(8, 10) =~= crate::bytes::le16_bytes(b.min_z as u16));
    assert(at.subrange(10, 12) =~= crate::bytes::le16_bytes(b.max_z as u16));
    crate::bytes::law_u16_round_trip(b.min_x as u16);
    crate::bytes::law_u16_round_trip(b.max_x as u16);
    crate::bytes::law_u16_round_trip(b.min_y as u16);
    crate::bytes::law_u16_round_trip(b.max_y as u16);
    crate::bytes::law_u16_round_trip(b.min_z as u16);
    crate::bytes::law_u16_round_trip(b.max_z as u16);
    lemma_side(b.min_x);
    lemma_side(b.max_x);
    lemma_side(b.min_y);
    lemma_side(b.max_y);
    lemma_side(b.min_z);
    lemma_side(b.max_z);
    assert(crate::bytes::le16(at, 0) == crate::bytes::le16(n, off));
    assert(crate::bytes::le16(at, 2) == crate::bytes::le16(n, off + 2));
    assert(crate::bytes::le16(at, 4) == crate::bytes::le16(n, off + 4));
    assert(crate::bytes::le16(at, 6) == crate::bytes::le16(n, off + 6));
    assert(crate::bytes::le16(at, 8) == crate::bytes::le16(n, off + 8));
    assert(crate::bytes::le16(at, 10) == crate::bytes::le16(n, off + 10));
}

proof fn lemma_head_box(b: SectorBox)
    ensures
        crate::ynv_write::sector_head(b).len() == 44,
        crate::ynv_write::sector_head(b).subrange(0x20, 0x2C) == crate::ynv_write::box_bytes(
            b.cell,
        ),
{
    assert(crate::ynv_write::sector_head(b).subrange(0x20, 0x2C) =~= crate::ynv_write::box_bytes(
        b.cell,
    ));
}

proof fn lemma_sector_box(b: SectorBox, data: u64, subs: Seq<u64>)
    requires
        subs.len() == 4,
    ensures
        crate::ynv_write::sector_bytes(b, data, subs).len() == 96,
        box_at(crate::ynv_write::sector_bytes(b, data, subs), 0x20) == b.cell,
{
    let n = crate::ynv_write::sector_bytes(b, data, subs);
    let head = crate::ynv_write::sector_head(b);
    assert(n.len() == 96 && n.subrange(0, 44) == head) by {
        reveal(crate::ynv_write::sector_bytes);
        lemma_head_box(b);
        crate::ynv_laws::tree::lemma_sector_tail_reads(head, data, subs);
    }
    lemma_head_box(b);
    assert(n.subrange(0x20, 0x2C) =~= n.subrange(0, 44).subrange(0x20, 0x2C));
    assert(crate::ynv_write::box_bytes(b.cell).len() == 12);
    lemma_box_reads(n, 0x20, b.cell);
}

proof fn lemma_data_ids(first: int, ids: u64, points: u64, id_count: int, count: int)
    requires
        0 <= id_count <= 0xFFFF,
    ensures
        ({
            let d = crate::ynv_write::sector_data(first, ids, points, id_count, count);
            &&& d.len() == 32
            &&& crate::bytes::le64(d, 0x08) == ids
            &&& crate::bytes::le16(d, 0x18) == id_count
        }),
{
    let d = crate::ynv_write::sector_data(first, ids, points, id_count, count);
    assert(d.subrange(0x08, 0x10) =~= crate::bytes::le64_bytes(ids));
    assert(d.subrange(0x18, 0x1A) =~= crate::bytes::le16_bytes(id_count as u16));
    crate::bytes::law_u64_round_trip(ids);
    crate::bytes::law_u16_round_trip(id_count as u16);
}

/// Where the list of a leaf stands.
spec fn ids_at(plan: PlanView, b: SectorBox, st: TreeState) -> int {
    let b1 = crate::ynv_write::grown(st.buf, 96);
    let ids = crate::ynv_write::polys_in(plan.cells, b.cell, plan.cells.len());
    crate::ynv_write::start_for(
        b1.len() as int,
        crate::ynv_write::word_bytes(ids, ids.len()).len() as int,
    )
}

#[verifier::rlimit(40)]
proof fn lemma_leaf_ids_stand(y: YnvView, plan: PlanView, b: SectorBox, st: TreeState)
    requires
        crate::ynv_write::with_leaf(y, plan, b, st) is Ok,
    ensures
        ({
            let end = crate::ynv_write::with_leaf(y, plan, b, st)->Ok_0;
            let ids = crate::ynv_write::polys_in(plan.cells, b.cell, plan.cells.len());
            let bytes = crate::ynv_write::word_bytes(ids, ids.len());
            let at = ids_at(plan, b, st);
            let l = crate::ynv_laws::tree::leaf_layout(y, plan, b, st);
            &&& 2 * ids.len() <= 16384
            &&& crate::bytes::le16(l.data, 0x18) == ids.len()
            &&& bytes.len() == 2 * ids.len()
            &&& ids.len() > 0 ==> {
                &&& crate::bytes::le64(l.data, 0x08) == crate::ynv_write::address(at)
                &&& st.buf.len() <= at
                &&& at + bytes.len() <= end.buf.len()
                &&& end.buf.subrange(at, at + bytes.len()) == bytes
            }
        }),
{
    reveal(crate::ynv_write::with_leaf);
    reveal(crate::ynv_laws::tree::leaf_layout);
    let end = crate::ynv_write::with_leaf(y, plan, b, st)->Ok_0;
    let l = crate::ynv_laws::tree::leaf_layout(y, plan, b, st);
    let b1 = crate::ynv_write::grown(st.buf, 96);
    let ids = crate::ynv_write::polys_in(plan.cells, b.cell, plan.cells.len());
    let bytes = crate::ynv_write::word_bytes(ids, ids.len());
    let at = ids_at(plan, b, st);
    let b2 = if ids.len() == 0 {
        b1
    } else {
        crate::ynv_write::put(b1, bytes)
    };
    let b3 = if l.points.len() == 0 {
        b2
    } else {
        crate::ynv_write::put(b2, l.points_bytes)
    };
    let b4 = crate::ynv_write::put(b3, l.data);
    crate::ynv_laws::items::lemma_words_come_back(ids);
    crate::ynv_laws::tree::lemma_sector_bytes_read(
        b,
        crate::ynv_write::address(l.data_at),
        seq![0, 0, 0, 0],
    );
    crate::ynv_laws::blocks::lemma_grown(st.buf, 96);
    crate::ynv_laws::blocks::lemma_put(b1, bytes);
    crate::ynv_laws::blocks::lemma_put(b2, l.points_bytes);
    crate::ynv_laws::blocks::lemma_put(b3, l.data);
    lemma_data_ids(
        st.points,
        if ids.len() == 0 {
            0
        } else {
            crate::ynv_write::address(at)
        },
        if l.points.len() == 0 {
            0
        } else {
            crate::ynv_write::address(l.points_at)
        },
        ids.len() as int,
        l.points.len() as int,
    );
    assert(end.buf == crate::bytes::splice(b4, l.node_at, l.node));
    if ids.len() > 0 {
        assert(crate::ynv_laws::blocks::carries(b3, b2, 0));
        assert forall|i: int| at <= i < at + bytes.len() implies end.buf[i] == b2[i] by {
            assert(b3[i] == b2[i]);
            assert(b4[i] == b3[i]);
        }
        assert(end.buf.subrange(at, at + bytes.len()) =~= b2.subrange(at, at + bytes.len()));
    }
}

proof fn lemma_listed(s: Seq<u8>, graphics: Seq<u8>, n: Seq<u8>, d: Seq<u8>, at: u64, ids: Seq<u16>)
    requires
        crate::resource::resolved(s, graphics, crate::bytes::le64(n, 0x2C), 32) == Some(d),
        crate::bytes::le16(d, 0x18) == ids.len(),
        ids.len() > 0 ==> {
            &&& crate::bytes::le64(d, 0x08) == at
            &&& crate::resource::resolved(s, graphics, at, 2 * ids.len() as int) == Some(
                crate::ynv_write::word_bytes(ids, ids.len()),
            )
        },
    ensures
        listed(s, graphics, n) == Some(ids),
{
    crate::ynv_laws::items::lemma_words_come_back(ids);
    if ids.len() == 0 {
        assert(ids =~= Seq::<u16>::empty());
    }
}

/// A leaf that was written lists what meets its box.
#[verifier::rlimit(40)]
#[verifier::spinoff_prover]
proof fn lemma_leaf_lists(
    s: Seq<u8>,
    graphics: Seq<u8>,
    y: YnvView,
    plan: PlanView,
    i: int,
    st: TreeState,
)
    requires
        crate::ynv_write::with_leaf(y, plan, plan.sectors[i], st) is Ok,
        crate::ynv_laws::blocks::carries(
            s,
            (crate::ynv_write::with_leaf(y, plan, plan.sectors[i], st)->Ok_0).buf,
            st.buf.len() as int,
        ),
        s.len() <= 0x1000_0000,
        plan.cells.len() <= 0xFFFF,
        is_box(plan.sectors[i].cell),
        forall|k: int| 0 <= k < plan.cells.len() ==> is_box(#[trigger] plan.cells[k]),
    ensures
        tree_lists(
            s,
            graphics,
            crate::ynv_write::address(crate::ynv_write::start_for(st.buf.len() as int, 96)),
            plan,
            i,
            0,
        ),
{
    let b = plan.sectors[i];
    let end = crate::ynv_write::with_leaf(y, plan, b, st)->Ok_0;
    let l = crate::ynv_laws::tree::leaf_layout(y, plan, b, st);
    let from = st.buf.len() as int;
    let ids = crate::ynv_write::polys_in(plan.cells, b.cell, plan.cells.len());
    let bytes = crate::ynv_write::word_bytes(ids, ids.len());
    crate::ynv_laws::tree::lemma_leaf_stands(y, plan, b, st);
    crate::ynv_laws::tree::lemma_leaf_reads(s, graphics, y, plan, b, st);
    crate::ynv_laws::tree::lemma_leaf_fields(y, plan, b, st);
    crate::ynv_laws::tree::lemma_leaf_pieces(y, plan, b, st);
    lemma_sector_box(b, crate::ynv_write::address(l.data_at), seq![0, 0, 0, 0]);
    crate::ynv_laws::blocks::lemma_carried(s, end.buf, from, l.data_at, l.data);
    crate::ynv_laws::blocks::lemma_resolves(s, graphics, l.data_at, l.data);
    lemma_leaf_ids_stand(y, plan, b, st);
    lemma_polys_in(plan.cells, b.cell, plan.cells.len());
    assert(plan.cells.take(plan.cells.len() as int) =~= plan.cells);
    let at = ids_at(plan, b, st);
    if ids.len() > 0 {
        crate::ynv_laws::blocks::lemma_carried(s, end.buf, from, at, bytes);
        crate::ynv_laws::blocks::lemma_resolves(s, graphics, at, bytes);
    }
    lemma_listed(s, graphics, l.node, l.data, crate::ynv_write::address(at), ids);
}

/// Whether every box of a plan covers something.
pub open spec fn boxes_are_boxes(plan: PlanView) -> bool {
    &&& forall|k: int| 0 <= k < plan.cells.len() ==> is_box(#[trigger] plan.cells[k])
    &&& forall|k: int| 0 <= k < plan.sectors.len() ==> is_box((#[trigger] plan.sectors[k]).cell)
}

#[verifier::rlimit(40)]
#[verifier::spinoff_prover]
proof fn lemma_sector_lists(
    s: Seq<u8>,
    graphics: Seq<u8>,
    y: YnvView,
    plan: PlanView,
    i: int,
    depth: nat,
    st: TreeState,
)
    requires
        crate::ynv_write::with_sector(y, plan, i, depth, st) is Ok,
        crate::ynv_laws::blocks::carries(
            s,
            (crate::ynv_write::with_sector(y, plan, i, depth, st)->Ok_0).buf,
            st.buf.len() as int,
        ),
        s.len() <= 0x1000_0000,
        plan.cells.len() <= 0xFFFF,
        0 <= i,
        i + crate::ynv_write::sector_count(depth) <= plan.sectors.len(),
        boxes_are_boxes(plan),
    ensures
        tree_lists(
            s,
            graphics,
            crate::ynv_write::address(crate::ynv_write::start_for(st.buf.len() as int, 96)),
            plan,
            i,
            depth,
        ),
    decreases depth, 5nat,
{
    let b = plan.sectors[i];
    let node = crate::ynv_write::start_for(st.buf.len() as int, 96);
    if depth == 0 {
        assert(is_box(plan.sectors[i].cell));
        lemma_leaf_lists(s, graphics, y, plan, i, st);
    } else {
        let started = TreeState {
            buf: crate::ynv_write::grown(st.buf, 96),
            total: st.total + 96,
            ..st
        };
        let below = (depth - 1) as nat;
        let count = crate::ynv_write::sector_count(below);
        crate::ynv_laws::blocks::lemma_grown(st.buf, 96);
        crate::ynv_laws::tree::lemma_quads_grow(y, plan, i, depth, started, 4);
        let (end, subs) = crate::ynv_write::with_quads(y, plan, i, depth, started, 4)->Ok_0;
        let out = (crate::ynv_write::with_sector(y, plan, i, depth, st)->Ok_0).buf;
        let bytes = crate::ynv_write::sector_bytes(b, 0, subs);
        crate::ynv_laws::tree::lemma_sector_bytes_read(b, 0, subs);
        lemma_sector_box(b, 0, subs);
        assert(out == crate::bytes::splice(end.buf, node, bytes));
        assert(out.subrange(node, node + 96) =~= bytes);
        crate::ynv_laws::blocks::lemma_carried(s, out, st.buf.len() as int, node, bytes);
        crate::ynv_laws::blocks::lemma_resolves(s, graphics, node, bytes);
        assert(crate::ynv_laws::blocks::carries(s, end.buf, started.buf.len() as int)) by {
            assert forall|j: int| started.buf.len() <= j < end.buf.len() implies #[trigger] s[j]
                == end.buf[j] by {
                assert(s[j] == out[j]);
            }
        }
        lemma_quads_list(s, graphics, y, plan, i, depth, started, 4);
        assert(tree_lists(s, graphics, subs[0], plan, i + 1 + 0 * count, below));
        assert(tree_lists(s, graphics, subs[1], plan, i + 1 + 1 * count, below));
        assert(tree_lists(s, graphics, subs[2], plan, i + 1 + 2 * count, below));
        assert(tree_lists(s, graphics, subs[3], plan, i + 1 + 3 * count, below));
    }
}

#[verifier::rlimit(40)]
#[verifier::spinoff_prover]
proof fn lemma_quads_list(
    s: Seq<u8>,
    graphics: Seq<u8>,
    y: YnvView,
    plan: PlanView,
    i: int,
    depth: nat,
    st: TreeState,
    k: nat,
)
    requires
        crate::ynv_write::with_quads(y, plan, i, depth, st, k) is Ok,
        depth > 0,
        k <= 4,
        crate::ynv_laws::blocks::carries(
            s,
            (crate::ynv_write::with_quads(y, plan, i, depth, st, k)->Ok_0).0.buf,
            st.buf.len() as int,
        ),
        s.len() <= 0x1000_0000,
        plan.cells.len() <= 0xFFFF,
        0 <= i,
        i + 1 + 4 * crate::ynv_write::sector_count((depth - 1) as nat) <= plan.sectors.len(),
        boxes_are_boxes(plan),
    ensures
        ({
            let (end, subs) = crate::ynv_write::with_quads(y, plan, i, depth, st, k)->Ok_0;
            &&& subs.len() == k
            &&& forall|j: int|
                0 <= j < k ==> tree_lists(
                    s,
                    graphics,
                    #[trigger] subs[j],
                    plan,
                    i + 1 + j * crate::ynv_write::sector_count((depth - 1) as nat),
                    (depth - 1) as nat,
                )
        }),
    decreases depth, k,
{
    let below = (depth - 1) as nat;
    let count = crate::ynv_write::sector_count(below);
    if k > 0 {
        let (before, subs0) = crate::ynv_write::with_quads(
            y,
            plan,
            i,
            depth,
            st,
            (k - 1) as nat,
        )->Ok_0;
        let (end, subs) = crate::ynv_write::with_quads(y, plan, i, depth, st, k)->Ok_0;
        let at = i + 1 + (k - 1) * count;
        assert(0 <= (k - 1) * count && (k - 1) * count + count <= 4 * count) by (nonlinear_arith)
            requires
                1 <= k <= 4,
                count >= 0,
        ;
        crate::ynv_laws::tree::lemma_quads_grow(y, plan, i, depth, st, (k - 1) as nat);
        crate::ynv_laws::tree::lemma_sector_grows(y, plan, at, below, before);
        crate::ynv_laws::blocks::lemma_carries_on(s, end.buf, before.buf, st.buf.len() as int);
        lemma_quads_list(s, graphics, y, plan, i, depth, st, (k - 1) as nat);
        lemma_sector_lists(s, graphics, y, plan, at, below, before);
        assert forall|j: int| 0 <= j < k implies tree_lists(
            s,
            graphics,
            #[trigger] subs[j],
            plan,
            i + 1 + j * count,
            below,
        ) by {
            if j < k - 1 {
                assert(subs[j] == subs0[j]);
            }
        }
    }
}

/// In a written navmesh, read the tree of sectors from the bytes: the root
/// stands where the header points, and each sector points at its four parts.
/// Every sector has its box of the plan, and every leaf lists exactly the
/// polygons whose boxes share a place with its own.
pub proof fn law_leaves_list_what_meets_them(
    y: YnvView,
    plan: PlanView,
    r: Result<Vec<u8>, YnvError>,
    system: Seq<u8>,
    graphics: Seq<u8>,
)
    requires
        crate::ynv_write::plan_fits(y, plan),
        boxes_are_boxes(plan),
        crate::ynv_write::image(y, plan) is Ok,
        crate::ynv_write::file_of(crate::ynv_write::image(y, plan)->Ok_0, r),
        r is Ok,
        crate::resource::unpacks_to(
            r->Ok_0@,
            Ok::<(Seq<u8>, Seq<u8>), ResourceError>((system, graphics)),
        ),
    ensures
        system.len() >= 368,
        tree_lists(
            system,
            graphics,
            crate::bytes::le64(system, 0x120),
            plan,
            0,
            crate::ynv_write::depth_of(y.content_flags),
        ),
{
    let e = crate::ynv_write::with_polys(y, plan, y.polys.len())->Ok_0;
    let depth = crate::ynv_write::depth_of(y.content_flags);
    let st = crate::ynv_laws::whole::tree_start(y, e);
    crate::ynv_laws::whole::lemma_written_tree(y, plan, r, system, graphics);
    crate::ynv_laws::tree::lemma_sector_grows(y, plan, 0, depth, st);
    lemma_sector_lists(system, graphics, y, plan, 0, depth, st);
}

} // verus!
