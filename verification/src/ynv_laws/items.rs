//! Reading back the items of the lists of a navmesh.

use vstd::prelude::*;

use crate::ynv::{NavPoint, NavPortal, NavVertex};

verus! {

broadcast use crate::bytes::group_subrange_reads;

pub proof fn lemma_position_reads(s: Seq<u8>, at: int, v: NavVertex)
    requires
        0 <= at,
        at + 6 <= s.len(),
        s.subrange(at, at + 6) == crate::ynv_write::position_bytes(v),
    ensures
        crate::ynv::vertex_at(s, at) == v,
{
    let b = crate::ynv_write::position_bytes(v);
    assert(b.subrange(0, 2) =~= crate::bytes::le16_bytes(v.x));
    assert(b.subrange(2, 4) =~= crate::bytes::le16_bytes(v.y));
    assert(b.subrange(4, 6) =~= crate::bytes::le16_bytes(v.z));
    crate::bytes::law_u16_round_trip(v.x);
    crate::bytes::law_u16_round_trip(v.y);
    crate::bytes::law_u16_round_trip(v.z);
    assert(crate::bytes::le16(b, 0) == v.x);
    assert(crate::bytes::le16(b, 2) == v.y);
    assert(crate::bytes::le16(b, 4) == v.z);
    let w = s.subrange(at, at + 6);
    assert(crate::bytes::le16(w, 0) == crate::bytes::le16(s, at));
    assert(crate::bytes::le16(w, 2) == crate::bytes::le16(s, at + 2));
    assert(crate::bytes::le16(w, 4) == crate::bytes::le16(s, at + 4));
}

pub proof fn lemma_vertex_item(v: Seq<NavVertex>, k: nat, i: int)
    requires
        0 <= i < k,
    ensures
        crate::ynv_write::vertex_bytes(v, k).len() == 6 * k,
        crate::ynv_write::vertex_bytes(v, k).subrange(6 * i, 6 * i + 6)
            == crate::ynv_write::position_bytes(v[i]),
    decreases k,
{
    let s = crate::ynv_write::vertex_bytes(v, k);
    let before = crate::ynv_write::vertex_bytes(v, (k - 1) as nat);
    if k > 1 {
        lemma_vertex_item(
            v,
            (k - 1) as nat,
            if i < k - 1 {
                i
            } else {
                0
            },
        );
    }
    if i < k - 1 {
        assert(s.subrange(6 * i, 6 * i + 6) =~= before.subrange(6 * i, 6 * i + 6));
    } else {
        assert(s.subrange(6 * i, 6 * i + 6) =~= crate::ynv_write::position_bytes(v[i]));
    }
}

pub proof fn lemma_vertices_come_back(v: Seq<NavVertex>)
    ensures
        crate::ynv_write::vertex_bytes(v, v.len()).len() == 6 * v.len(),
        crate::ynv::vertex_list(crate::ynv_write::vertex_bytes(v, v.len())) == v,
{
    let s = crate::ynv_write::vertex_bytes(v, v.len());
    if v.len() > 0 {
        lemma_vertex_item(v, v.len(), 0);
    }
    assert forall|i: int| 0 <= i < v.len() implies crate::ynv::vertex_list(s)[i] == v[i] by {
        lemma_vertex_item(v, v.len(), i);
        lemma_position_reads(s, 6 * i, v[i]);
    }
    assert(crate::ynv::vertex_list(s) =~= v);
}

pub proof fn lemma_word_item(v: Seq<u16>, k: nat, i: int)
    requires
        0 <= i < k,
    ensures
        crate::ynv_write::word_bytes(v, k).len() == 2 * k,
        crate::bytes::le16(crate::ynv_write::word_bytes(v, k), 2 * i) == v[i],
    decreases k,
{
    let s = crate::ynv_write::word_bytes(v, k);
    let before = crate::ynv_write::word_bytes(v, (k - 1) as nat);
    if k > 1 {
        lemma_word_item(
            v,
            (k - 1) as nat,
            if i < k - 1 {
                i
            } else {
                0
            },
        );
    }
    if i < k - 1 {
        assert(s.subrange(0, before.len() as int) =~= before);
        assert(crate::bytes::le16(s.subrange(0, before.len() as int), 2 * i) == crate::bytes::le16(
            s,
            2 * i,
        ));
    } else {
        assert(s.subrange(2 * i, 2 * i + 2) =~= crate::bytes::le16_bytes(v[i]));
        crate::bytes::law_u16_round_trip(v[i]);
    }
}

pub proof fn lemma_words_come_back(v: Seq<u16>)
    ensures
        crate::ynv_write::word_bytes(v, v.len()).len() == 2 * v.len(),
        crate::resource::le16_list(crate::ynv_write::word_bytes(v, v.len()), v.len()) == v,
{
    let s = crate::ynv_write::word_bytes(v, v.len());
    if v.len() > 0 {
        lemma_word_item(v, v.len(), 0);
    }
    assert forall|i: int| 0 <= i < v.len() implies crate::resource::le16_list(s, v.len())[i]
        == v[i] by {
        lemma_word_item(v, v.len(), i);
    }
    assert(crate::resource::le16_list(s, v.len()) =~= v);
}

pub proof fn lemma_edge_item(v: Seq<(u32, u32)>, k: nat, i: int)
    requires
        0 <= i < k,
    ensures
        crate::ynv_write::edge_bytes(v, k).len() == 8 * k,
        crate::bytes::le32(crate::ynv_write::edge_bytes(v, k), 8 * i) == v[i].0,
        crate::bytes::le32(crate::ynv_write::edge_bytes(v, k), 8 * i + 4) == v[i].1,
    decreases k,
{
    let s = crate::ynv_write::edge_bytes(v, k);
    let before = crate::ynv_write::edge_bytes(v, (k - 1) as nat);
    if k > 1 {
        lemma_edge_item(
            v,
            (k - 1) as nat,
            if i < k - 1 {
                i
            } else {
                0
            },
        );
    }
    if i < k - 1 {
        let head = s.subrange(0, before.len() as int);
        assert(head =~= before);
        assert(crate::bytes::le32(head, 8 * i) == crate::bytes::le32(s, 8 * i));
        assert(crate::bytes::le32(head, 8 * i + 4) == crate::bytes::le32(s, 8 * i + 4));
    } else {
        assert(s.subrange(8 * i, 8 * i + 4) =~= crate::bytes::le32_bytes(v[i].0));
        assert(s.subrange(8 * i + 4, 8 * i + 8) =~= crate::bytes::le32_bytes(v[i].1));
        crate::bytes::law_u32_round_trip(v[i].0);
        crate::bytes::law_u32_round_trip(v[i].1);
    }
}

pub proof fn lemma_area_item(v: Seq<u32>, k: nat, i: int)
    requires
        0 <= i < k,
    ensures
        crate::ynv_write::area_bytes(v, k).len() == 4 * k,
        crate::bytes::le32(crate::ynv_write::area_bytes(v, k), 4 * i) == v[i],
    decreases k,
{
    let s = crate::ynv_write::area_bytes(v, k);
    let before = crate::ynv_write::area_bytes(v, (k - 1) as nat);
    if k > 1 {
        lemma_area_item(
            v,
            (k - 1) as nat,
            if i < k - 1 {
                i
            } else {
                0
            },
        );
    }
    if i < k - 1 {
        let head = s.subrange(0, before.len() as int);
        assert(head =~= before);
        assert(crate::bytes::le32(head, 4 * i) == crate::bytes::le32(s, 4 * i));
    } else {
        assert(s.subrange(4 * i, 4 * i + 4) =~= crate::bytes::le32_bytes(v[i]));
        crate::bytes::law_u32_round_trip(v[i]);
    }
}

/// A portal as a file keeps it, in the bits that it has.
pub open spec fn kept_portal(p: NavPortal) -> NavPortal {
    NavPortal {
        area_from: (p.area_from % 0x4000) as u16,
        area_to: (p.area_to % 0x4000) as u16,
        area_unk: (p.area_unk % 16) as u8,
        ..p
    }
}

/// The portals as a file keeps them.
pub open spec fn kept_portals(portals: Seq<NavPortal>) -> Seq<NavPortal> {
    Seq::new(portals.len(), |i: int| kept_portal(portals[i]))
}

#[verifier::rlimit(40)]
#[verifier::spinoff_prover]
pub proof fn lemma_portal_reads(s: Seq<u8>, at: int, p: NavPortal)
    requires
        0 <= at,
        at + 28 <= s.len(),
        s.subrange(at, at + 28) == crate::ynv_write::portal_bytes(p),
    ensures
        crate::ynv::portal_at(s, at) == kept_portal(p),
{
    let b = crate::ynv_write::portal_bytes(p);
    let flags = (p.area_from % 0x4000 + 0x4000 * (p.area_to % 0x4000) + 0x1000_0000 * (p.area_unk
        % 16)) as u32;
    assert(b.len() == 28);
    assert(b[0] == p.kind && b[1] == p.angle);
    assert(b.subrange(2, 4) =~= crate::bytes::le16_bytes(p.flags_unk));
    assert(b.subrange(4, 10) =~= crate::ynv_write::position_bytes(p.from));
    assert(b.subrange(10, 16) =~= crate::ynv_write::position_bytes(p.to));
    assert(b.subrange(16, 18) =~= crate::bytes::le16_bytes(p.poly_from));
    assert(b.subrange(20, 22) =~= crate::bytes::le16_bytes(p.poly_to));
    assert(b.subrange(24, 28) =~= crate::bytes::le32_bytes(flags));
    crate::bytes::law_u16_round_trip(p.flags_unk);
    crate::bytes::law_u16_round_trip(p.poly_from);
    crate::bytes::law_u16_round_trip(p.poly_to);
    crate::bytes::law_u32_round_trip(flags);
    lemma_position_reads(b, 4, p.from);
    lemma_position_reads(b, 10, p.to);
    lemma_portal_flags(p);
    let w = s.subrange(at, at + 28);
    assert(w[0] == s[at] && w[1] == s[at + 1]);
    assert(crate::bytes::le16(w, 2) == crate::bytes::le16(s, at + 2));
    assert(crate::bytes::le16(w, 16) == crate::bytes::le16(s, at + 16));
    assert(crate::bytes::le16(w, 20) == crate::bytes::le16(s, at + 20));
    assert(crate::bytes::le32(w, 24) == crate::bytes::le32(s, at + 24));
    assert(s.subrange(at + 4, at + 10) =~= w.subrange(4, 10));
    assert(s.subrange(at + 10, at + 16) =~= w.subrange(10, 16));
    lemma_position_reads(s, at + 4, p.from);
    lemma_position_reads(s, at + 10, p.to);
}

pub proof fn lemma_portal_flags(p: NavPortal)
    ensures
        ({
            let flags = (p.area_from % 0x4000 + 0x4000 * (p.area_to % 0x4000) + 0x1000_0000 * (
            p.area_unk % 16)) as u32;
            &&& flags % 0x4000 == p.area_from % 0x4000
            &&& flags / 0x4000 % 0x4000 == p.area_to % 0x4000
            &&& flags / 0x1000_0000 % 16 == p.area_unk % 16
        }),
{
    let a = (p.area_from % 0x4000) as int;
    let b = (p.area_to % 0x4000) as int;
    let c = (p.area_unk % 16) as int;
    let flags = (a + 0x4000 * b + 0x1000_0000 * c) as u32;
    assert(flags == a + 0x4000 * b + 0x1000_0000 * c);
    assert(flags / 0x4000 == b + 0x4000 * c);
    assert(flags / 0x1000_0000 == c);
}

pub proof fn lemma_portal_item(v: Seq<NavPortal>, k: nat, i: int)
    requires
        0 <= i < k,
    ensures
        crate::ynv_write::portals_bytes(v, k).len() == 28 * k,
        crate::ynv_write::portals_bytes(v, k).subrange(28 * i, 28 * i + 28)
            == crate::ynv_write::portal_bytes(v[i]),
    decreases k,
{
    let s = crate::ynv_write::portals_bytes(v, k);
    let before = crate::ynv_write::portals_bytes(v, (k - 1) as nat);
    assert(crate::ynv_write::portal_bytes(v[k - 1]).len() == 28);
    if k > 1 {
        lemma_portal_item(
            v,
            (k - 1) as nat,
            if i < k - 1 {
                i
            } else {
                0
            },
        );
    }
    if i < k - 1 {
        assert(s.subrange(28 * i, 28 * i + 28) =~= before.subrange(28 * i, 28 * i + 28));
    } else {
        assert(s.subrange(28 * i, 28 * i + 28) =~= crate::ynv_write::portal_bytes(v[i]));
    }
}

pub proof fn lemma_portals_come_back(v: Seq<NavPortal>)
    ensures
        crate::ynv_write::portals_bytes(v, v.len()).len() == 28 * v.len(),
        Seq::new(
            v.len(),
            |i: int|
                crate::ynv::portal_at(crate::ynv_write::portals_bytes(v, v.len()), 28 * i),
        ) == kept_portals(v),
{
    let s = crate::ynv_write::portals_bytes(v, v.len());
    if v.len() > 0 {
        lemma_portal_item(v, v.len(), 0);
    }
    assert forall|i: int| 0 <= i < v.len() implies #[trigger] crate::ynv::portal_at(s, 28 * i)
        == kept_portal(v[i]) by {
        lemma_portal_item(v, v.len(), i);
        lemma_portal_reads(s, 28 * i, v[i]);
    }
    assert(Seq::new(v.len(), |i: int| crate::ynv::portal_at(s, 28 * i)) =~= kept_portals(v));
}

pub proof fn lemma_point_item(v: Seq<NavPoint>, k: nat, i: int)
    requires
        0 <= i < k,
    ensures
        crate::ynv_write::points_bytes(v, k).len() == 8 * k,
        crate::ynv_write::points_bytes(v, k).subrange(8 * i, 8 * i + 8)
            == crate::ynv_write::point_bytes(v[i]),
    decreases k,
{
    let s = crate::ynv_write::points_bytes(v, k);
    let before = crate::ynv_write::points_bytes(v, (k - 1) as nat);
    assert(crate::ynv_write::point_bytes(v[k - 1]).len() == 8);
    if k > 1 {
        lemma_point_item(
            v,
            (k - 1) as nat,
            if i < k - 1 {
                i
            } else {
                0
            },
        );
    }
    if i < k - 1 {
        assert(s.subrange(8 * i, 8 * i + 8) =~= before.subrange(8 * i, 8 * i + 8));
    } else {
        assert(s.subrange(8 * i, 8 * i + 8) =~= crate::ynv_write::point_bytes(v[i]));
    }
}

pub proof fn lemma_points_come_back(v: Seq<NavPoint>)
    ensures
        crate::ynv_write::points_bytes(v, v.len()).len() == 8 * v.len(),
        Seq::new(
            v.len(),
            |i: int| crate::ynv::point_at(crate::ynv_write::points_bytes(v, v.len()), 8 * i),
        ) == v,
{
    let s = crate::ynv_write::points_bytes(v, v.len());
    if v.len() > 0 {
        lemma_point_item(v, v.len(), 0);
    }
    assert forall|i: int| 0 <= i < v.len() implies #[trigger] crate::ynv::point_at(s, 8 * i)
        == v[i] by {
        lemma_point_item(v, v.len(), i);
        let b = crate::ynv_write::point_bytes(v[i]);
        let w = s.subrange(8 * i, 8 * i + 8);
        assert(b.subrange(0, 6) =~= crate::ynv_write::position_bytes(v[i].position));
        assert(s.subrange(8 * i, 8 * i + 6) =~= w.subrange(0, 6));
        lemma_position_reads(s, 8 * i, v[i].position);
        assert(w[6] == s[8 * i + 6] && w[7] == s[8 * i + 7]);
    }
    assert(Seq::new(v.len(), |i: int| crate::ynv::point_at(s, 8 * i)) =~= v);
}

pub proof fn lemma_vec3_reads(s: Seq<u8>, at: int, v: crate::math::Vec3)
    requires
        0 <= at,
        at + 12 <= s.len(),
        s.subrange(at, at + 12) == crate::ynv_write::vec3_bytes(v),
    ensures
        crate::resource::vec3_at(s, at) == v,
{
    let b = crate::ynv_write::vec3_bytes(v);
    assert(b.subrange(0, 4) =~= crate::bytes::le32_bytes(v.x));
    assert(b.subrange(4, 8) =~= crate::bytes::le32_bytes(v.y));
    assert(b.subrange(8, 12) =~= crate::bytes::le32_bytes(v.z));
    crate::bytes::law_u32_round_trip(v.x);
    crate::bytes::law_u32_round_trip(v.y);
    crate::bytes::law_u32_round_trip(v.z);
    let w = s.subrange(at, at + 12);
    assert(crate::bytes::le32(b, 0) == v.x);
    assert(crate::bytes::le32(b, 4) == v.y);
    assert(crate::bytes::le32(b, 8) == v.z);
    assert(crate::bytes::le32(w, 0) == crate::bytes::le32(s, at));
    assert(crate::bytes::le32(w, 4) == crate::bytes::le32(s, at + 4));
    assert(crate::bytes::le32(w, 8) == crate::bytes::le32(s, at + 8));
}

} // verus!
