//! What a value is worth where a member wants another shape of it.

use vstd::prelude::*;

use crate::coerce::Floats;
use crate::math::{Vec2, Vec3, Vec4};
use crate::value::{ArrayView, ValueView};

verus! {

/// Component `k` of a vector.
pub open spec fn component(v: Vec4, k: int) -> u32 {
    if k == 0 {
        v.x
    } else if k == 1 {
        v.y
    } else if k == 2 {
        v.z
    } else {
        v.w
    }
}

/// A list of singles as a value.
pub open spec fn single_list(bits: Seq<u32>) -> ValueView {
    ValueView::Array(
        ArrayView {
            item_type: None,
            typed_items: false,
            items: Seq::new(bits.len(), |i: int| ValueView::F32(bits[i])),
        },
    )
}

/// A list of at least `n` numbers is a vector whose component `k` is the
/// single of item `k`; what the list does not have is zero. A list of fewer
/// numbers is none.
pub proof fn law_lists_are_vectors(a: ArrayView, n: int, floats: Floats, k: int)
    requires
        0 <= n <= 4,
        0 <= k < 4,
        forall|i: int|
            0 <= i < a.items.len() ==> crate::coerce::as_single(#[trigger] a.items[i], floats)
                is Some,
    ensures
        crate::coerce::as_vector(ValueView::Array(a), n, floats) is Some <==> a.items.len() >= n,
        a.items.len() >= n ==> {
            let v = crate::coerce::as_vector(ValueView::Array(a), n, floats)->0;
            &&& k < a.items.len() ==> crate::coerce::as_single(a.items[k], floats) == Some(
                component(v, k),
            )
            &&& k >= a.items.len() ==> component(v, k) == 0
        },
{
    assert forall|i: int| 0 <= i < 4 implies crate::coerce::listed_single(
        a.items,
        i,
        floats,
    ) is Some by {
        if i < a.items.len() {
            assert(crate::coerce::as_single(a.items[i], floats) is Some);
        }
    }
    assert(crate::coerce::listed_single(a.items, 0, floats) is Some);
    assert(crate::coerce::listed_single(a.items, 1, floats) is Some);
    assert(crate::coerce::listed_single(a.items, 2, floats) is Some);
    assert(crate::coerce::listed_single(a.items, 3, floats) is Some);
}

/// A list of singles is the vector of just these singles.
pub proof fn law_single_lists_are_vectors(bits: Seq<u32>, n: int, floats: Floats)
    requires
        0 <= n <= bits.len() <= 4,
    ensures
        ({
            let v = crate::coerce::as_vector(single_list(bits), n, floats);
            &&& v is Some
            &&& forall|k: int| 0 <= k < bits.len() ==> component(v->0, k) == #[trigger] bits[k]
            &&& forall|k: int| bits.len() <= k < 4 ==> #[trigger] component(v->0, k) == 0
        }),
{
    let a = single_list(bits)->Array_0;
    assert forall|i: int| 0 <= i < a.items.len() implies crate::coerce::as_single(
        #[trigger] a.items[i],
        floats,
    ) == Some(bits[i]) by {}
    assert forall|k: int| 0 <= k < bits.len() implies component(
        crate::coerce::as_vector(single_list(bits), n, floats)->0,
        k,
    ) == #[trigger] bits[k] by {
        law_lists_are_vectors(a, n, floats, k);
        assert(a.items[k] == ValueView::F32(bits[k]));
    }
    assert forall|k: int| bits.len() <= k < 4 implies #[trigger] component(
        crate::coerce::as_vector(single_list(bits), n, floats)->0,
        k,
    ) == 0 by {
        law_lists_are_vectors(a, n, floats, k);
    }
    law_lists_are_vectors(a, n, floats, 0);
}

/// A text of at least `n` numbers, parted by commas or white space, is a
/// vector whose component `k` is the single that word `k` writes.
pub proof fn law_texts_are_vectors(s: Seq<char>, n: int, floats: Floats, k: int)
    requires
        0 <= n <= 4,
        0 <= k < 4,
        forall|i: int|
            0 <= i < crate::chars::words(s, true).len() ==> crate::coerce::single_of(
                floats,
                #[trigger] crate::chars::words(s, true)[i],
            ) is Some,
    ensures
        ({
            let words = crate::chars::words(s, true);
            let r = crate::coerce::as_vector(ValueView::Str(s), n, floats);
            &&& r is Some <==> words.len() >= n
            &&& words.len() >= n ==> {
                &&& k < words.len() ==> crate::coerce::single_of(floats, words[k]) == Some(
                    component(r->0, k),
                )
                &&& k >= words.len() ==> component(r->0, k) == 0
            }
        }),
{
    let words = crate::chars::words(s, true);
    assert forall|i: int| 0 <= i < 4 implies crate::coerce::written_single(
        words,
        i,
        floats,
    ) is Some by {
        if i < words.len() {
            assert(crate::coerce::single_of(floats, words[i]) is Some);
        }
    }
    assert(crate::coerce::written_single(words, 0, floats) is Some);
    assert(crate::coerce::written_single(words, 1, floats) is Some);
    assert(crate::coerce::written_single(words, 2, floats) is Some);
    assert(crate::coerce::written_single(words, 3, floats) is Some);
}

proof fn lemma_json_list(p: Vec4, names: Map<u32, Seq<char>>)
    ensures
        crate::json::tree_of(
            crate::json::json_of(ValueView::Vec2(Vec2 { x: p.x, y: p.y }), names),
        ) == single_list(seq![p.x, p.y]),
        crate::json::tree_of(
            crate::json::json_of(ValueView::Vec3(Vec3 { x: p.x, y: p.y, z: p.z }), names),
        ) == single_list(seq![p.x, p.y, p.z]),
        crate::json::tree_of(crate::json::json_of(ValueView::Vec4(p), names)) == single_list(
            seq![p.x, p.y, p.z, p.w],
        ),
{
    lemma_float_list(seq![p.x, p.y]);
    lemma_float_list(seq![p.x, p.y, p.z]);
    lemma_float_list(seq![p.x, p.y, p.z, p.w]);
    let two = crate::json::json_of(ValueView::Vec2(Vec2 { x: p.x, y: p.y }), names);
    let three = crate::json::json_of(ValueView::Vec3(Vec3 { x: p.x, y: p.y, z: p.z }), names);
    let four = crate::json::json_of(ValueView::Vec4(p), names);
    assert(two->Array_0 =~= float_nodes(seq![p.x, p.y]));
    assert(three->Array_0 =~= float_nodes(seq![p.x, p.y, p.z]));
    assert(four->Array_0 =~= float_nodes(seq![p.x, p.y, p.z, p.w]));
}

/// Singles as JSON numbers.
pub open spec fn float_nodes(bits: Seq<u32>) -> Seq<crate::json::JsonView> {
    Seq::new(bits.len(), |i: int| crate::json::JsonView::Float(bits[i]))
}

proof fn lemma_float_values(bits: Seq<u32>)
    ensures
        crate::json::item_values(float_nodes(bits)) == Seq::new(
            bits.len(),
            |i: int| ValueView::F32(bits[i]),
        ),
    decreases bits.len(),
{
    let want = Seq::new(bits.len(), |i: int| ValueView::F32(bits[i]));
    let nodes = float_nodes(bits);
    if bits.len() > 0 {
        lemma_float_values(bits.drop_last());
        assert(nodes.drop_last() =~= float_nodes(bits.drop_last()));
        assert(nodes.last() == crate::json::JsonView::Float(bits.last()));
        assert(crate::json::tree_of(nodes.last()) == ValueView::F32(bits.last()));
        let before = crate::json::item_values(nodes.drop_last());
        assert forall|i: int| 0 <= i < bits.len() implies crate::json::item_values(nodes)[i]
            == want[i] by {
            if i < bits.len() - 1 {
                assert(before[i] == ValueView::F32(bits.drop_last()[i]));
            }
        }
    }
    assert(crate::json::item_values(nodes) =~= want);
}

proof fn lemma_float_list(bits: Seq<u32>)
    requires
        bits.len() > 0,
    ensures
        crate::json::tree_of(crate::json::JsonView::Array(float_nodes(bits))) == single_list(bits),
{
    let nodes = float_nodes(bits);
    lemma_float_values(bits);
    assert(!crate::json::is_pair(nodes[0]));
    assert(forall|i: int| 0 <= i < nodes.len() ==> !crate::json::is_typed(#[trigger] nodes[i]));
}

/// A vector survives JSON: what comes back is the same vector where a member
/// wants one, component for component.
pub proof fn law_vectors_survive_json(p: Vec4, names: Map<u32, Seq<char>>, floats: Floats)
    ensures
        crate::coerce::as_vector(
            crate::json::tree_of(
                crate::json::json_of(ValueView::Vec2(Vec2 { x: p.x, y: p.y }), names),
            ),
            2,
            floats,
        ) == Some(Vec4 { x: p.x, y: p.y, z: 0, w: 0 }),
        crate::coerce::as_vector(
            crate::json::tree_of(
                crate::json::json_of(ValueView::Vec3(Vec3 { x: p.x, y: p.y, z: p.z }), names),
            ),
            3,
            floats,
        ) == Some(Vec4 { x: p.x, y: p.y, z: p.z, w: 0 }),
        crate::coerce::as_vector(
            crate::json::tree_of(crate::json::json_of(ValueView::Vec4(p), names)),
            4,
            floats,
        ) == Some(p),
        crate::coerce::as_vector(ValueView::Vec2(Vec2 { x: p.x, y: p.y }), 2, floats) == Some(
            Vec4 { x: p.x, y: p.y, z: 0, w: 0 },
        ),
        crate::coerce::as_vector(
            ValueView::Vec3(Vec3 { x: p.x, y: p.y, z: p.z }),
            3,
            floats,
        ) == Some(Vec4 { x: p.x, y: p.y, z: p.z, w: 0 }),
        crate::coerce::as_vector(ValueView::Vec4(p), 4, floats) == Some(p),
{
    lemma_json_list(p, names);
    let (two, three, four) = (
        seq![p.x, p.y],
        seq![p.x, p.y, p.z],
        seq![p.x, p.y, p.z, p.w],
    );
    law_single_lists_are_vectors(two, 2, floats);
    law_single_lists_are_vectors(three, 3, floats);
    law_single_lists_are_vectors(four, 4, floats);
    let a = crate::coerce::as_vector(single_list(two), 2, floats)->0;
    assert(component(a, 0) == two[0] && component(a, 1) == two[1]);
    assert(component(a, 2) == 0 && component(a, 3) == 0);
    let b = crate::coerce::as_vector(single_list(three), 3, floats)->0;
    assert(component(b, 0) == three[0] && component(b, 1) == three[1]);
    assert(component(b, 2) == three[2] && component(b, 3) == 0);
    let c = crate::coerce::as_vector(single_list(four), 4, floats)->0;
    assert(component(c, 0) == four[0] && component(c, 1) == four[1]);
    assert(component(c, 2) == four[2] && component(c, 3) == four[3]);
}

proof fn lemma_meta_vector(
    c: crate::pso_write::Context,
    e: crate::schema::MetaEntryDef,
    v: ValueView,
    q: Vec4,
)
    ensures
        e.ty == crate::meta_write::T_VEC3 && crate::coerce::as_vector(v, 3, c.floats) == Some(q)
            ==> crate::meta_write::plain_bytes(c, e, v) == Some(
            crate::layout::triple_bytes(Vec3 { x: q.x, y: q.y, z: q.z }),
        ),
        e.ty == crate::meta_write::T_VEC4 && crate::coerce::as_vector(v, 4, c.floats) == Some(q)
            ==> crate::meta_write::plain_bytes(c, e, v) == Some(crate::layout::quad_bytes(q)),
{
    assert(crate::meta_write::three(q) =~= crate::layout::triple_bytes(
        Vec3 { x: q.x, y: q.y, z: q.z },
    ));
    assert(crate::meta_write::four(q) =~= crate::layout::quad_bytes(q));
}

/// A vector member of a Meta structure stores the same bytes for a vector that
/// went through JSON as for the vector itself: its singles, one after the
/// other.
#[verifier::spinoff_prover]
#[verifier::rlimit(50)]
pub proof fn law_meta_vectors_survive_json(
    c: crate::pso_write::Context,
    e: crate::schema::MetaEntryDef,
    p: Vec4,
    names: Map<u32, Seq<char>>,
)
    ensures
        e.ty == crate::meta_write::T_VEC3 ==> {
            let v = ValueView::Vec3(Vec3 { x: p.x, y: p.y, z: p.z });
            let bytes = crate::layout::triple_bytes(Vec3 { x: p.x, y: p.y, z: p.z });
            &&& crate::meta_write::plain_bytes(c, e, v) == Some(bytes)
            &&& crate::meta_write::plain_bytes(
                c,
                e,
                crate::json::tree_of(crate::json::json_of(v, names)),
            ) == Some(bytes)
        },
        e.ty == crate::meta_write::T_VEC4 ==> {
            let v = ValueView::Vec4(p);
            let bytes = crate::layout::quad_bytes(p);
            &&& crate::meta_write::plain_bytes(c, e, v) == Some(bytes)
            &&& crate::meta_write::plain_bytes(
                c,
                e,
                crate::json::tree_of(crate::json::json_of(v, names)),
            ) == Some(bytes)
        },
{
    law_vectors_survive_json(p, names, c.floats);
    let q = Vec4 { x: p.x, y: p.y, z: p.z, w: 0 };
    let v3 = ValueView::Vec3(Vec3 { x: p.x, y: p.y, z: p.z });
    let v4 = ValueView::Vec4(p);
    lemma_meta_vector(c, e, v3, q);
    lemma_meta_vector(c, e, crate::json::tree_of(crate::json::json_of(v3, names)), q);
    lemma_meta_vector(c, e, v4, p);
    lemma_meta_vector(c, e, crate::json::tree_of(crate::json::json_of(v4, names)), p);
}

/// The bytes of singles in a PSO file, one after the other.
pub open spec fn big_singles(bits: Seq<u32>) -> Seq<u8>
    decreases bits.len(),
{
    if bits.len() == 0 {
        Seq::empty()
    } else {
        big_singles(bits.drop_last()) + crate::bytes::be32_bytes(bits.last())
    }
}

/// A vector member of a PSO structure stores the same bytes for a vector that
/// went through JSON as for the vector itself, and begins with its singles.
#[verifier::spinoff_prover]
#[verifier::rlimit(50)]
pub proof fn law_pso_vectors_survive_json(
    c: crate::pso_write::Context,
    def: crate::schema::PsoStructDefView,
    e: crate::schema::PsoEntryDef,
    p: Vec4,
    names: Map<u32, Seq<char>>,
)
    ensures
        e.ty == crate::pso_write::T_VEC2 ==> {
            let v = ValueView::Vec2(Vec2 { x: p.x, y: p.y });
            let r = crate::pso_write::plain_bytes(c, def, e, v);
            &&& r is Some
            &&& r->0.len() >= 8
            &&& r->0.take(8) == big_singles(seq![p.x, p.y])
            &&& crate::pso_write::plain_bytes(
                c,
                def,
                e,
                crate::json::tree_of(crate::json::json_of(v, names)),
            ) == r
        },
        e.ty == crate::pso_write::T_VEC3 || e.ty == crate::pso_write::T_VEC3A ==> {
            let v = ValueView::Vec3(Vec3 { x: p.x, y: p.y, z: p.z });
            let r = crate::pso_write::plain_bytes(c, def, e, v);
            &&& r is Some
            &&& r->0.len() >= 12
            &&& r->0.take(12) == big_singles(seq![p.x, p.y, p.z])
            &&& crate::pso_write::plain_bytes(
                c,
                def,
                e,
                crate::json::tree_of(crate::json::json_of(v, names)),
            ) == r
        },
        e.ty == crate::pso_write::T_VEC4 || e.ty == crate::pso_write::T_VEC4A ==> {
            let v = ValueView::Vec4(p);
            let r = crate::pso_write::plain_bytes(c, def, e, v);
            &&& r is Some
            &&& r->0.len() >= 16
            &&& r->0.take(16) == big_singles(seq![p.x, p.y, p.z, p.w])
            &&& crate::pso_write::plain_bytes(
                c,
                def,
                e,
                crate::json::tree_of(crate::json::json_of(v, names)),
            ) == r
        },
{
    law_vectors_survive_json(p, names, c.floats);
    lemma_big_singles(p);
}

proof fn lemma_big_singles(p: Vec4)
    ensures
        ({
            let q = Vec4 { x: p.x, y: p.y, z: 0, w: 0 };
            let r = Vec4 { x: p.x, y: p.y, z: p.z, w: 0 };
            &&& crate::pso_write::vector_bytes(q, 2).len() == 8
            &&& crate::pso_write::vector_bytes(r, 3).len() == 12
            &&& crate::pso_write::vector_bytes(p, 4).len() == 16
            &&& crate::pso_write::vector_bytes(q, 2).take(8) == big_singles(seq![p.x, p.y])
            &&& crate::pso_write::vector_bytes(r, 3).take(12) == big_singles(seq![p.x, p.y, p.z])
            &&& crate::pso_write::vector_bytes(p, 4).take(16) == big_singles(
                seq![p.x, p.y, p.z, p.w],
            )
        }),
{
    let one = seq![p.x];
    let two = seq![p.x, p.y];
    let three = seq![p.x, p.y, p.z];
    let four = seq![p.x, p.y, p.z, p.w];
    assert(one.drop_last() =~= Seq::<u32>::empty());
    assert(two.drop_last() =~= one);
    assert(three.drop_last() =~= two);
    assert(four.drop_last() =~= three);
    assert(big_singles(one.drop_last()) =~= Seq::<u8>::empty());
    assert(big_singles(one) =~= crate::bytes::be32_bytes(p.x));
    assert(big_singles(two) == big_singles(one) + crate::bytes::be32_bytes(p.y));
    assert(big_singles(three) == big_singles(two) + crate::bytes::be32_bytes(p.z));
    assert(big_singles(four) == big_singles(three) + crate::bytes::be32_bytes(p.w));
    let q = Vec4 { x: p.x, y: p.y, z: 0, w: 0 };
    let r = Vec4 { x: p.x, y: p.y, z: p.z, w: 0 };
    assert(crate::pso_write::vector_bytes(q, 2).take(8) =~= big_singles(two));
    assert(crate::pso_write::vector_bytes(r, 3).take(12) =~= big_singles(three));
    assert(crate::pso_write::vector_bytes(p, 4).take(16) =~= big_singles(four));
}

} // verus!
