//! A navmesh that was written reads back as a whole.

use vstd::prelude::*;

use crate::resource::ResourceError;
use crate::ynv::{NavEdge, NavPoint, NavPortal, PolyView, YnvError, YnvView};
use crate::ynv_write::{Blocks, Encoded, PlanView, TreeState, PAGE_SIZE};

verus! {

broadcast use crate::bytes::group_subrange_reads;

/// What reading a written navmesh gives back: its polygons and portals as a
/// file keeps them, the box of its root sector, and the points that lie in
/// some sector, in the order of the sectors.
pub open spec fn read_back(y: YnvView, plan: PlanView) -> YnvView {
    YnvView {
        bb_min: plan.sectors[0].min,
        bb_max: plan.sectors[0].max,
        polys: crate::ynv_laws::polys::kept_polys(y.polys),
        portals: crate::ynv_laws::items::kept_portals(y.portals),
        points: crate::ynv_laws::tree::tree_order(
            y,
            plan,
            0,
            crate::ynv_write::depth_of(y.content_flags),
            Seq::new(y.points.len(), |i: int| false),
        ).0,
        ..y
    }
}

/// The start of the sector tree.
pub open spec fn tree_start(y: YnvView, e: Encoded) -> TreeState {
    TreeState {
        buf: crate::ynv_write::with_lists(e).0,
        used: Seq::new(y.points.len(), |i: int| false),
        points: 0,
        total: 0,
    }
}

/// The sector tree, written.
pub open spec fn tree_of(y: YnvView, plan: PlanView, e: Encoded) -> Result<TreeState, YnvError> {
    crate::ynv_write::with_sector(
        y,
        plan,
        0,
        crate::ynv_write::depth_of(y.content_flags),
        tree_start(y, e),
    )
}

/// The section with the portals.
pub open spec fn with_portals(y: YnvView, buf: Seq<u8>) -> Seq<u8> {
    if y.portals.len() == 0 {
        buf
    } else {
        crate::ynv_write::put(buf, crate::ynv_write::portals_bytes(y.portals, y.portals.len()))
    }
}

/// The section with the portal links.
pub open spec fn with_links(e: Encoded, buf: Seq<u8>) -> Seq<u8> {
    if e.links.len() == 0 {
        buf
    } else {
        crate::ynv_write::put(buf, crate::ynv_write::word_bytes(e.links, e.links.len()))
    }
}

/// Where all blocks stand.
pub open spec fn blocks_of(y: YnvView, e: Encoded, tree: Seq<u8>) -> Blocks {
    let portals = crate::ynv_write::portals_bytes(y.portals, y.portals.len());
    let links = crate::ynv_write::word_bytes(e.links, e.links.len());
    Blocks {
        portals: if y.portals.len() == 0 {
            0
        } else {
            crate::ynv_write::address(
                crate::ynv_write::start_for(tree.len() as int, portals.len() as int),
            )
        },
        links: if e.links.len() == 0 {
            0
        } else {
            crate::ynv_write::address(
                crate::ynv_write::start_for(
                    with_portals(y, tree).len() as int,
                    links.len() as int,
                ),
            )
        },
        ..crate::ynv_write::with_lists(e).1
    }
}

/// The total that the header names.
pub open spec fn total_of(y: YnvView, e: Encoded, tree: TreeState) -> int {
    tree.total + 6 * e.vertices.len() + 2 * e.indices.len() + 8 * e.edges.len() + e.records.len()
        + 28 * y.portals.len()
}

proof fn lemma_assembled(y: YnvView, plan: PlanView, e: Encoded)
    requires
        crate::ynv_write::assembled(y, plan, e) is Ok,
    ensures
        tree_of(y, plan, e) is Ok,
        28 * y.portals.len() <= 16384,
        2 * e.links.len() <= 16384,
        ({
            let tree = tree_of(y, plan, e)->Ok_0;
            crate::ynv_write::assembled(y, plan, e)->Ok_0 == crate::bytes::splice(
                with_links(e, with_portals(y, tree.buf)),
                0,
                crate::ynv_write::header(
                    y,
                    e,
                    blocks_of(y, e, tree.buf),
                    total_of(y, e, tree),
                    tree.points,
                ),
            )
        }),
{
}

proof fn lemma_root_reads(
    s: Seq<u8>,
    graphics: Seq<u8>,
    y: YnvView,
    plan: PlanView,
    depth: nat,
    st: TreeState,
)
    requires
        crate::ynv_write::with_sector(y, plan, 0, depth, st) is Ok,
        crate::ynv_laws::blocks::carries(
            s,
            (crate::ynv_write::with_sector(y, plan, 0, depth, st)->Ok_0).buf,
            st.buf.len() as int,
        ),
        s.len() <= 0x1000_0000,
    ensures
        ({
            let va = crate::ynv_write::address(
                crate::ynv_write::start_for(st.buf.len() as int, 96),
            );
            let r = crate::resource::resolved(s, graphics, va, 96);
            &&& r is Some
            &&& crate::resource::vec3_at(r->0, 0) == plan.sectors[0].min
            &&& crate::resource::vec3_at(r->0, 16) == plan.sectors[0].max
        }),
{
    let b = plan.sectors[0];
    let node = crate::ynv_write::start_for(st.buf.len() as int, 96);
    if depth == 0 {
        crate::ynv_laws::tree::lemma_leaf_reads(s, graphics, y, plan, b, st);
        crate::ynv_laws::tree::lemma_leaf_stands(y, plan, b, st);
        crate::ynv_laws::tree::lemma_leaf_fields(y, plan, b, st);
    } else {
        let started = TreeState {
            buf: crate::ynv_write::grown(st.buf, 96),
            total: st.total + 96,
            ..st
        };
        crate::ynv_laws::blocks::lemma_grown(st.buf, 96);
        crate::ynv_laws::tree::lemma_quads_grow(y, plan, 0, depth, started, 4);
        let (end, subs) = crate::ynv_write::with_quads(y, plan, 0, depth, started, 4)->Ok_0;
        let out = (crate::ynv_write::with_sector(y, plan, 0, depth, st)->Ok_0).buf;
        let bytes = crate::ynv_write::sector_bytes(b, 0, subs);
        crate::ynv_laws::tree::lemma_sector_bytes_read(b, 0, subs);
        assert(out == crate::bytes::splice(end.buf, node, bytes));
        assert(out.subrange(node, node + 96) =~= bytes);
        crate::ynv_laws::blocks::lemma_carried(s, out, st.buf.len() as int, node, bytes);
        crate::ynv_laws::blocks::lemma_resolves(s, graphics, node, bytes);
    }
}

/// The sector tree that was written reads back.
proof fn lemma_tree_reads(
    s: Seq<u8>,
    graphics: Seq<u8>,
    y: YnvView,
    plan: PlanView,
    e: Encoded,
)
    requires
        tree_of(y, plan, e) is Ok,
        crate::ynv_write::with_lists(e).0.len() >= 368,
        crate::ynv_laws::blocks::carries(s, (tree_of(y, plan, e)->Ok_0).buf, 368),
        s.len() <= 0x1000_0000,
    ensures
        crate::ynv::sector_tree(
            s,
            graphics,
            crate::ynv_write::with_lists(e).1.sectors,
        ) == Ok::<(crate::math::Vec3, crate::math::Vec3, Seq<NavPoint>), YnvError>(
            (plan.sectors[0].min, plan.sectors[0].max, read_back(y, plan).points),
        ),
        crate::ynv_laws::blocks::carries(
            (tree_of(y, plan, e)->Ok_0).buf,
            crate::ynv_write::with_lists(e).0,
            0,
        ),
{
    let st = tree_start(y, e);
    let depth = crate::ynv_write::depth_of(y.content_flags);
    let root = crate::ynv_write::address(crate::ynv_write::start_for(st.buf.len() as int, 96));
    assert(root == crate::ynv_write::with_lists(e).1.sectors);
    reveal_with_fuel(crate::ynv_write::sector_count, 3);
    crate::ynv_laws::tree::lemma_sector_grows(y, plan, 0, depth, st);
    lemma_root_reads(s, graphics, y, plan, depth, st);
    crate::ynv_laws::tree::lemma_sector_reads(
        s,
        graphics,
        y,
        plan,
        0,
        depth,
        st,
        Seq::empty(),
        0,
        Seq::empty(),
    );
    let points = read_back(y, plan).points;
    assert(Seq::<u64>::empty().push(root) =~= seq![root]);
    assert(Seq::<NavPoint>::empty() + points =~= points);
}

/// The portals that were written read back.
proof fn lemma_portals_read(s: Seq<u8>, graphics: Seq<u8>, y: YnvView, e: Encoded, buf: Seq<u8>)
    requires
        crate::ynv_laws::blocks::carries(s, with_portals(y, buf), 368),
        buf.len() >= 368,
        s.len() <= 0x1000_0000,
        28 * y.portals.len() <= 16384,
    ensures
        crate::ynv_laws::blocks::carries(with_portals(y, buf), buf, 0),
        crate::ynv::portal_list(
            s,
            graphics,
            blocks_of(y, e, buf).portals,
            y.portals.len() as u32,
        ) == Ok::<Seq<NavPortal>, YnvError>(crate::ynv_laws::items::kept_portals(y.portals)),
{
    let bytes = crate::ynv_write::portals_bytes(y.portals, y.portals.len());
    crate::ynv_laws::items::lemma_portals_come_back(y.portals);
    if y.portals.len() == 0 {
        assert(crate::ynv_laws::items::kept_portals(y.portals) =~= Seq::<NavPortal>::empty());
    } else {
        let at = crate::ynv_write::start_for(buf.len() as int, bytes.len() as int);
        crate::ynv_laws::blocks::lemma_put(buf, bytes);
        crate::ynv_laws::blocks::lemma_carried(s, with_portals(y, buf), 368, at, bytes);
        crate::ynv_laws::blocks::lemma_resolves(s, graphics, at, bytes);
    }
}

/// The portal links that were written read back.
proof fn lemma_links_read(s: Seq<u8>, graphics: Seq<u8>, y: YnvView, e: Encoded, tree: Seq<u8>)
    requires
        crate::ynv_laws::blocks::carries(s, with_links(e, with_portals(y, tree)), 368),
        with_portals(y, tree).len() >= 368,
        s.len() <= 0x1000_0000,
        2 * e.links.len() <= 16384,
    ensures
        crate::ynv_laws::blocks::carries(
            with_links(e, with_portals(y, tree)),
            with_portals(y, tree),
            0,
        ),
        crate::ynv::link_list(s, graphics, blocks_of(y, e, tree).links, e.links.len() as u32)
            == e.links,
{
    let buf = with_portals(y, tree);
    let bytes = crate::ynv_write::word_bytes(e.links, e.links.len());
    crate::ynv_laws::items::lemma_words_come_back(e.links);
    if e.links.len() == 0 {
        assert(e.links =~= Seq::<u16>::empty());
    } else {
        let at = crate::ynv_write::start_for(buf.len() as int, bytes.len() as int);
        crate::ynv_laws::blocks::lemma_put(buf, bytes);
        crate::ynv_laws::blocks::lemma_carried(s, with_links(e, buf), 368, at, bytes);
        crate::ynv_laws::blocks::lemma_resolves(s, graphics, at, bytes);
    }
}

/// How large a section can be.
proof fn lemma_image_size(y: YnvView, plan: PlanView, e: Encoded)
    requires
        crate::ynv_write::assembled(y, plan, e) is Ok,
        crate::ynv_laws::polys::sane(e),
        e.indices.len() <= 0x1_07FE,
        e.records.len() % 48 == 0,
        e.records.len() <= 48 * 0x3FFF,
    ensures
        368 <= (crate::ynv_write::assembled(y, plan, e)->Ok_0).len() <= 0x100_0000,
        368 <= crate::ynv_write::with_lists(e).0.len() <= (tree_of(y, plan, e)->Ok_0).buf.len()
            <= with_portals(y, (tree_of(y, plan, e)->Ok_0).buf).len(),
{
    let st = tree_start(y, e);
    let depth = crate::ynv_write::depth_of(y.content_flags);
    lemma_assembled(y, plan, e);
    reveal_with_fuel(crate::ynv_write::sector_count, 3);
    crate::ynv_laws::size::lemma_lists_size(e);
    crate::ynv_laws::size::lemma_sector_size(y, plan, 0, depth, st);
    crate::ynv_laws::tree::lemma_sector_grows(y, plan, 0, depth, st);
    lemma_lists_start(e);
    let tree = tree_of(y, plan, e)->Ok_0;
    let portals = crate::ynv_write::portals_bytes(y.portals, y.portals.len());
    let links = crate::ynv_write::word_bytes(e.links, e.links.len());
    crate::ynv_laws::items::lemma_portals_come_back(y.portals);
    crate::ynv_laws::items::lemma_words_come_back(e.links);
    crate::ynv_laws::size::lemma_put_size(tree.buf, portals);
    crate::ynv_laws::blocks::lemma_put(tree.buf, portals);
    crate::ynv_laws::size::lemma_put_size(with_portals(y, tree.buf), links);
    crate::ynv_laws::blocks::lemma_put(with_portals(y, tree.buf), links);
}

proof fn lemma_lists_start(e: Encoded)
    ensures
        crate::ynv_write::with_lists(e).0.len() >= 368,
{
    let v = crate::ynv_write::vertex_bytes(e.vertices, e.vertices.len());
    let i = crate::ynv_write::word_bytes(e.indices, e.indices.len());
    let d = crate::ynv_write::edge_bytes(e.edges, e.edges.len());
    let b0 = crate::ynv_write::grown(Seq::empty(), 368);
    let b1 = crate::ynv_write::with_list(b0, crate::ynv_write::LIST_VFT_VERTICES, v, 6);
    let b2 = crate::ynv_write::with_list(b1, crate::ynv_write::LIST_VFT_INDICES, i, 2);
    let b3 = crate::ynv_write::with_list(b2, crate::ynv_write::LIST_VFT_EDGES, d, 8);
    crate::ynv_laws::blocks::lemma_grown(Seq::empty(), 368);
    crate::ynv_laws::lists::lemma_list_keeps(b0, crate::ynv_write::LIST_VFT_VERTICES, v, 6);
    crate::ynv_laws::lists::lemma_list_keeps(b1, crate::ynv_write::LIST_VFT_INDICES, i, 2);
    crate::ynv_laws::lists::lemma_list_keeps(b2, crate::ynv_write::LIST_VFT_EDGES, d, 8);
    crate::ynv_laws::lists::lemma_list_keeps(
        b3,
        crate::ynv_write::LIST_VFT_POLYS,
        e.records,
        48,
    );
}

/// What the blocks of a section say.
spec fn says(s: Seq<u8>, graphics: Seq<u8>, y: YnvView, plan: PlanView, e: Encoded, at: Blocks) -> bool {
    let h = s.subrange(0, 368);
    &&& s.len() >= 368
    &&& crate::ynv_laws::file::header_says(h, y, e, at)
    &&& crate::ynv::sector_tree(s, graphics, at.sectors) == Ok::<
        (crate::math::Vec3, crate::math::Vec3, Seq<NavPoint>),
        YnvError,
    >((plan.sectors[0].min, plan.sectors[0].max, read_back(y, plan).points))
    &&& crate::ynv::list_items(s, graphics, at.vertices, 6) == Ok::<
        Seq<u8>,
        crate::ynv::ListFault,
    >(crate::ynv_write::vertex_bytes(e.vertices, e.vertices.len()))
    &&& crate::ynv::list_items(s, graphics, at.indices, 2) == Ok::<
        Seq<u8>,
        crate::ynv::ListFault,
    >(crate::ynv_write::word_bytes(e.indices, e.indices.len()))
    &&& crate::ynv::list_items(s, graphics, at.edges, 8) == Ok::<
        Seq<u8>,
        crate::ynv::ListFault,
    >(crate::ynv_write::edge_bytes(e.edges, e.edges.len()))
    &&& crate::ynv::list_items(s, graphics, at.polys, 48) == Ok::<
        Seq<u8>,
        crate::ynv::ListFault,
    >(e.records)
    &&& crate::ynv::link_list(s, graphics, at.links, e.links.len() as u32) == e.links
    &&& crate::ynv::portal_list(s, graphics, at.portals, y.portals.len() as u32) == Ok::<
        Seq<NavPortal>,
        YnvError,
    >(crate::ynv_laws::items::kept_portals(y.portals))
}

proof fn lemma_section_says(
    s: Seq<u8>,
    graphics: Seq<u8>,
    y: YnvView,
    plan: PlanView,
    e: Encoded,
)
    requires
        crate::ynv_write::assembled(y, plan, e) is Ok,
        crate::ynv_laws::polys::sane(e),
        e.indices.len() <= 0x1_07FE,
        e.records.len() % 48 == 0,
        e.records.len() <= 48 * 0x3FFF,
        crate::ynv_laws::blocks::carries(s, crate::ynv_write::assembled(y, plan, e)->Ok_0, 0),
        s.len() <= 0x1000_0000,
    ensures
        says(s, graphics, y, plan, e, blocks_of(y, e, (tree_of(y, plan, e)->Ok_0).buf)),
{
    lemma_assembled(y, plan, e);
    lemma_image_size(y, plan, e);
    let tree = tree_of(y, plan, e)->Ok_0;
    let at = blocks_of(y, e, tree.buf);
    let b5 = with_portals(y, tree.buf);
    let b6 = with_links(e, b5);
    let header = crate::ynv_write::header(y, e, at, total_of(y, e, tree), tree.points);
    let out = crate::ynv_write::assembled(y, plan, e)->Ok_0;
    crate::ynv_laws::file::lemma_header_reads(
        y,
        e,
        at,
        total_of(y, e, tree),
        tree.points,
    );
    assert(header.len() == 368);
    lemma_header_stands(s, out, b6, header);
    lemma_links_read(s, graphics, y, e, tree.buf);
    crate::ynv_laws::blocks::lemma_carries_on(s, b6, b5, 368);
    lemma_portals_read(s, graphics, y, e, tree.buf);
    crate::ynv_laws::blocks::lemma_carries_on(s, b5, tree.buf, 368);
    lemma_tree_reads(s, graphics, y, plan, e);
    crate::ynv_laws::blocks::lemma_carries_on(
        s,
        tree.buf,
        crate::ynv_write::with_lists(e).0,
        368,
    );
    crate::ynv_laws::file::lemma_lists_read(s, graphics, e);
}

proof fn lemma_header_stands(s: Seq<u8>, out: Seq<u8>, buf: Seq<u8>, header: Seq<u8>)
    requires
        out == crate::bytes::splice(buf, 0, header),
        crate::ynv_laws::blocks::carries(s, out, 0),
        header.len() == 368,
        buf.len() >= 368,
    ensures
        s.subrange(0, 368) == header,
        crate::ynv_laws::blocks::carries(s, buf, 368),
{
    assert forall|i: int| 0 <= i < 368 implies s.subrange(0, 368)[i] == header[i] by {
        assert(s[i] == out[i]);
    }
    assert(s.subrange(0, 368) =~= header);
    assert forall|i: int| 368 <= i < buf.len() implies #[trigger] s[i] == buf[i] by {
        assert(s[i] == out[i]);
    }
}

#[verifier::rlimit(40)]
#[verifier::spinoff_prover]
proof fn lemma_says_parsed(
    s: Seq<u8>,
    graphics: Seq<u8>,
    y: YnvView,
    plan: PlanView,
    e: Encoded,
    at: Blocks,
)
    requires
        says(s, graphics, y, plan, e, at),
        crate::ynv_write::with_polys(y, plan, y.polys.len()) == Ok::<Encoded, YnvError>(e),
        2 * e.links.len() <= 16384,
    ensures
        crate::ynv::parsed(s, graphics) == Ok::<YnvView, YnvError>(read_back(y, plan)),
{
    let h = s.subrange(0, 368);
    let table = crate::ynv::area_table(h);
    let lists = crate::ynv_laws::polys::lists_of(e, table);
    crate::ynv_laws::blocks::lemma_resolves(s, graphics, 0, h);
    crate::ynv_laws::polys::lemma_polys_sane(y, plan, y.polys.len());
    crate::ynv_laws::polys::lemma_polys_read(y, plan, e, table, y.polys.len());
    let kept = crate::ynv_laws::polys::kept_polys(y.polys);
    assert(kept.take(y.polys.len() as int) =~= kept);
    crate::ynv_laws::items::lemma_vertices_come_back(e.vertices);
    crate::ynv_laws::items::lemma_words_come_back(e.indices);
    crate::ynv_laws::file::lemma_edge_list(e, table);
}

/// A section that starts as a written navmesh does is read as that navmesh.
proof fn lemma_image_parsed(s: Seq<u8>, graphics: Seq<u8>, y: YnvView, plan: PlanView)
    requires
        crate::ynv_write::image(y, plan) is Ok,
        crate::ynv_laws::blocks::carries(s, crate::ynv_write::image(y, plan)->Ok_0, 0),
        s.len() <= 0x1000_0000,
    ensures
        crate::ynv::parsed(s, graphics) == Ok::<YnvView, YnvError>(read_back(y, plan)),
{
    let e = crate::ynv_write::with_polys(y, plan, y.polys.len())->Ok_0;
    crate::ynv_laws::polys::lemma_polys_sane(y, plan, y.polys.len());
    lemma_assembled(y, plan, e);
    lemma_section_says(s, graphics, y, plan, e);
    lemma_says_parsed(
        s,
        graphics,
        y,
        plan,
        e,
        blocks_of(y, e, (tree_of(y, plan, e)->Ok_0).buf),
    );
}

/// Whether a file has the bits for an edge.
pub open spec fn edge_fits(edge: NavEdge) -> bool {
    &&& edge.a.poly < 0x4000 && edge.a.unk2 < 4 && edge.a.unk3 < 0x800
    &&& edge.b.poly < 0x4000 && edge.b.unk2 < 4 && edge.b.unk3 < 0x800
}

/// What of a navmesh stays as it was: its header and its box, and its
/// polygons. A polygon whose edges fit, one for every vertex, is the same.
pub open spec fn stays(y: YnvView, z: YnvView) -> bool {
    &&& z.content_flags == y.content_flags
    &&& z.area_id == y.area_id
    &&& z.bb_min == y.bb_min
    &&& z.bb_max == y.bb_max
    &&& z.bb_size == y.bb_size
    &&& z.version_unk2 == y.version_unk2
    &&& z.vft == y.vft
    &&& z.polys.len() == y.polys.len()
    &&& forall|i: int| 0 <= i < y.polys.len() ==> poly_stays(y.polys[i], #[trigger] z.polys[i])
}

/// What of a polygon stays as it was.
pub open spec fn poly_stays(q: PolyView, p: PolyView) -> bool {
    &&& p.vertices == q.vertices
    &&& p.flags0 == q.flags0
    &&& p.flags1 == q.flags1
    &&& p.flags2 == q.flags2
    &&& p.portal_links == q.portal_links
    &&& p.edges.len() == q.vertices.len()
    &&& q.edges.len() == q.vertices.len() && (forall|j: int|
        0 <= j < q.edges.len() ==> edge_fits(#[trigger] q.edges[j])) ==> p.edges == q.edges
}

proof fn lemma_poly_stays(q: PolyView)
    ensures
        poly_stays(q, crate::ynv_laws::polys::kept_poly(q)),
{
    let p = crate::ynv_laws::polys::kept_poly(q);
    if q.edges.len() == q.vertices.len() && (forall|j: int|
        0 <= j < q.edges.len() ==> edge_fits(#[trigger] q.edges[j])) {
        assert forall|j: int| 0 <= j < q.edges.len() implies #[trigger] p.edges[j]
            == q.edges[j] by {
            assert(edge_fits(q.edges[j]));
        }
        assert(p.edges =~= q.edges);
    }
}

proof fn lemma_stays(y: YnvView, plan: PlanView)
    requires
        crate::ynv_write::plan_fits(y, plan),
    ensures
        stays(y, read_back(y, plan)),
{
    assert forall|i: int| 0 <= i < y.polys.len() implies poly_stays(
        y.polys[i],
        #[trigger] read_back(y, plan).polys[i],
    ) by {
        lemma_poly_stays(y.polys[i]);
    }
}

/// A navmesh that was written by a plan of its own reads back: its header and
/// its box as they were, its polygons and portals in the bits that a file has
/// for them, and its points in the order of the sectors of the plan.
pub proof fn law_written_navmeshes_read_back(
    y: YnvView,
    plan: PlanView,
    r: Result<Vec<u8>, YnvError>,
    sections: Result<(Seq<u8>, Seq<u8>), ResourceError>,
)
    requires
        crate::ynv_write::plan_fits(y, plan),
        crate::ynv_write::image(y, plan) is Ok,
        crate::ynv_write::file_of(crate::ynv_write::image(y, plan)->Ok_0, r),
        r is Ok,
        crate::resource::unpacks_to(r->Ok_0@, sections),
    ensures
        crate::ynv::read_file(sections) == Ok::<YnvView, YnvError>(read_back(y, plan)),
        stays(y, read_back(y, plan)),
{
    lemma_stays(y, plan);
    lemma_file_reads(y, plan, r, sections);
}

proof fn lemma_file_reads(
    y: YnvView,
    plan: PlanView,
    r: Result<Vec<u8>, YnvError>,
    sections: Result<(Seq<u8>, Seq<u8>), ResourceError>,
)
    requires
        crate::ynv_write::image(y, plan) is Ok,
        crate::ynv_write::file_of(crate::ynv_write::image(y, plan)->Ok_0, r),
        r is Ok,
        crate::resource::unpacks_to(r->Ok_0@, sections),
    ensures
        crate::ynv::read_file(sections) == Ok::<YnvView, YnvError>(read_back(y, plan)),
{
    let image = crate::ynv_write::image(y, plan)->Ok_0;
    let e = crate::ynv_write::with_polys(y, plan, y.polys.len())->Ok_0;
    crate::ynv_laws::polys::lemma_polys_sane(y, plan, y.polys.len());
    lemma_image_size(y, plan, e);
    let n = crate::resource::ceil_div(image.len() as int, PAGE_SIZE as int);
    crate::resource::lemma_ceil_div(image.len() as int, PAGE_SIZE as int);
    let pages = crate::resource::at_least_one(n);
    let s = crate::resource::padded(image, PAGE_SIZE * pages);
    assert(pages == n);
    assert(crate::ynv_laws::blocks::carries(s, image, 0));
    lemma_image_parsed(s, Seq::empty(), y, plan);
}

/// In the section of a written navmesh the header points at the tree, which
/// stands behind the header as it was written.
pub proof fn lemma_written_tree(
    y: YnvView,
    plan: PlanView,
    r: Result<Vec<u8>, YnvError>,
    system: Seq<u8>,
    graphics: Seq<u8>,
)
    requires
        crate::ynv_write::image(y, plan) is Ok,
        crate::ynv_write::file_of(crate::ynv_write::image(y, plan)->Ok_0, r),
        r is Ok,
        crate::resource::unpacks_to(
            r->Ok_0@,
            Ok::<(Seq<u8>, Seq<u8>), ResourceError>((system, graphics)),
        ),
    ensures
        ({
            let e = crate::ynv_write::with_polys(y, plan, y.polys.len())->Ok_0;
            let st = tree_start(y, e);
            &&& crate::ynv_write::with_polys(y, plan, y.polys.len()) is Ok
            &&& tree_of(y, plan, e) is Ok
            &&& 368 <= st.buf.len()
            &&& 368 <= system.len() <= 0x1000_0000
            &&& y.polys.len() <= 0x3FFF
            &&& crate::ynv_laws::blocks::carries(
                system,
                (tree_of(y, plan, e)->Ok_0).buf,
                st.buf.len() as int,
            )
            &&& crate::bytes::le64(system, 0x120) == crate::ynv_write::address(
                crate::ynv_write::start_for(st.buf.len() as int, 96),
            )
        }),
{
    let image = crate::ynv_write::image(y, plan)->Ok_0;
    let e = crate::ynv_write::with_polys(y, plan, y.polys.len())->Ok_0;
    crate::ynv_laws::polys::lemma_polys_sane(y, plan, y.polys.len());
    lemma_image_size(y, plan, e);
    lemma_assembled(y, plan, e);
    let n = crate::resource::ceil_div(image.len() as int, PAGE_SIZE as int);
    crate::resource::lemma_ceil_div(image.len() as int, PAGE_SIZE as int);
    let pages = crate::resource::at_least_one(n);
    let s = crate::resource::padded(image, PAGE_SIZE * pages);
    assert(pages == n);
    assert(crate::ynv_laws::blocks::carries(s, image, 0));
    assert(system == s);
    let tree = tree_of(y, plan, e)->Ok_0;
    let at = blocks_of(y, e, tree.buf);
    let b5 = with_portals(y, tree.buf);
    let b6 = with_links(e, b5);
    let header = crate::ynv_write::header(y, e, at, total_of(y, e, tree), tree.points);
    crate::ynv_laws::file::lemma_header_reads(y, e, at, total_of(y, e, tree), tree.points);
    lemma_header_stands(s, image, b6, header);
    lemma_links_read(s, graphics, y, e, tree.buf);
    crate::ynv_laws::blocks::lemma_carries_on(s, b6, b5, 368);
    lemma_portals_read(s, graphics, y, e, tree.buf);
    crate::ynv_laws::blocks::lemma_carries_on(s, b5, tree.buf, 368);
    assert(crate::bytes::le64(s.subrange(0, 368), 0x120) == crate::bytes::le64(s, 0x120));
}

} // verus!
