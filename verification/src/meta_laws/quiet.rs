//! A tree that fits its schema is written without a warning.

use vstd::prelude::*;

use crate::meta_laws::spots::{Spot, World};
use crate::meta_schema::MetaView;
use crate::meta_write::{
    SOA_VECTOR, T_ARRAY, T_BYTE_ARRAY, T_CHAR_ARRAY, T_CHAR_PTR, T_DATA_BLOCK_PTR, T_STRUCT,
    T_STRUCT_PTR,
};
use crate::pso_write::{BuildState, Context};
use crate::schema::ARRAYINFO;
use crate::value::{StructView, ValueView};

verus! {

/// Whether a member has its room, and its value fits.
pub open spec fn fitting(p: Spot) -> bool {
    &&& p.st.blocks.len() > 0
    &&& p.off() + p.room() <= p.buf.len()
    &&& crate::meta_laws::fits::fits_member(
        p.w.f,
        p.w.c.schema,
        p.e,
        p.elem,
        p.v,
        p.depth,
    )
}

/// Whether nothing was warned of, and nothing held itself, on the way from `b`
/// to `a`.
spec fn calm(a: BuildState, b: BuildState) -> bool {
    &&& a.warnings == b.warnings
    &&& a.endless == b.endless
}

/// Whether writing a member warns of nothing.
spec fn is_quiet(p: Spot) -> bool {
    calm(p.after().1, p.st)
}

proof fn lemma_struct_quiet(
    f: MetaView,
    c: Context,
    key: u32,
    fields: Seq<(u32, ValueView)>,
    st: BuildState,
    fuel: nat,
    depth: nat,
)
    requires
        st.blocks.len() > 0,
        crate::meta_laws::fits::fits_struct(f, c.schema, key, fields, depth),
    ensures
        calm(crate::meta_write::write_struct(c, key, Some(fields), st, fuel).1, st),
    decreases 66 - depth, 3int, 0int,
{
    let w = World { f, c, end: st };
    lemma_members_quiet(w, key, fields, st, fuel, depth, c.schema.meta_structs[key].entries.len());
}

proof fn lemma_members_quiet(
    w: World,
    key: u32,
    fields: Seq<(u32, ValueView)>,
    st: BuildState,
    fuel: nat,
    depth: nat,
    k: nat,
)
    requires
        st.blocks.len() > 0,
        crate::meta_laws::fits::fits_struct(w.f, w.c.schema, key, fields, depth),
        k <= w.c.schema.meta_structs[key].entries.len(),
    ensures
        calm(crate::meta_laws::tree::so_far(w, key, fields, st, fuel, k).1, st),
    decreases 66 - depth, 2int, k,
{
    if k > 0 {
        lemma_members_quiet(w, key, fields, st, fuel, depth, (k - 1) as nat);
        let def = w.c.schema.meta_structs[key];
        let e = def.entries[k - 1];
        if e.name != ARRAYINFO {
            let p = crate::meta_laws::tree::spot_at(w, key, fields, st, fuel, 0, 0, depth, k - 1);
            crate::meta_laws::tree::lemma_member_found(w, key, fields, depth, k - 1);
            lemma_spot_fits(w, key, fields, st, fuel, depth, k);
            lemma_spot_after(w, key, fields, st, fuel, depth, k);
            lemma_member_quiet(p);
        }
    }
}

/// A member of a structure that fits has its room, and its value fits.
pub proof fn lemma_spot_fits(
    w: World,
    key: u32,
    fields: Seq<(u32, ValueView)>,
    st: BuildState,
    fuel: nat,
    depth: nat,
    k: nat,
)
    requires
        st.blocks.len() > 0,
        crate::meta_laws::fits::fits_struct(w.f, w.c.schema, key, fields, depth),
        0 < k <= w.c.schema.meta_structs[key].entries.len(),
        w.c.schema.meta_structs[key].entries[k - 1].name != ARRAYINFO,
    ensures
        fitting(crate::meta_laws::tree::spot_at(w, key, fields, st, fuel, 0, 0, depth, k - 1)),
{
    let def = w.c.schema.meta_structs[key];
    crate::meta_laws::tree::lemma_member_found(w, key, fields, depth, k - 1);
    crate::meta_laws::tree::lemma_spot_grows(
        w,
        key,
        fields,
        st,
        fuel,
        (k - 1) as nat,
        (k - 1) as nat,
    );
    crate::meta_laws::grow::lemma_use_struct(st, def.name);
    crate::meta_laws::grow::lemma_members_step(
        w.c,
        def,
        Some(fields),
        crate::bytes::zeros(def.size as int),
        crate::pso_write::use_struct(st, def.name),
        fuel,
        (k - 1) as nat,
    );
    assert(def.entries[k - 1].offset + crate::meta_laws::fits::room_at(
        w.c.schema,
        def.entries,
        k - 1,
    ) <= def.size);
}

pub proof fn lemma_spot_after(
    w: World,
    key: u32,
    fields: Seq<(u32, ValueView)>,
    st: BuildState,
    fuel: nat,
    depth: nat,
    k: nat,
)
    requires
        0 < k <= w.c.schema.meta_structs[key].entries.len(),
        w.c.schema.meta_structs[key].entries[k - 1].name != ARRAYINFO,
        ({
            let entries = w.c.schema.meta_structs[key].entries;
            let i = crate::meta_laws::fits::valued(entries, (k - 1) as nat) as int;
            crate::pso_write::member_value(Some(fields), entries[k - 1].name) == Some(fields[i].1)
        }),
    ensures
        crate::meta_laws::tree::spot_at(w, key, fields, st, fuel, 0, 0, depth, k - 1).after()
            == crate::meta_laws::tree::so_far(w, key, fields, st, fuel, k),
{
    reveal(Spot::after);
}

proof fn lemma_member_quiet(p: Spot)
    requires
        fitting(p),
    ensures
        is_quiet(p),
    decreases 66 - p.depth, 9int, 0int,
{
    if p.e.ty == T_STRUCT {
        lemma_inline_quiet(p);
    } else if p.e.ty == T_STRUCT_PTR {
        lemma_pointer_quiet(p);
    } else if p.e.ty == T_ARRAY {
        lemma_array_quiet(p);
    } else if p.e.ty == T_BYTE_ARRAY {
        lemma_bytes_quiet(p);
    } else {
        lemma_simple_quiet(p);
    }
}

proof fn lemma_simple_quiet(p: Spot)
    requires
        fitting(p),
        p.e.ty != T_STRUCT && p.e.ty != T_STRUCT_PTR && p.e.ty != T_ARRAY && p.e.ty
            != T_BYTE_ARRAY,
    ensures
        is_quiet(p),
{
    reveal(Spot::after);
    if p.e.ty != T_CHAR_ARRAY && p.e.ty != T_CHAR_PTR && p.e.ty != T_DATA_BLOCK_PTR {
        crate::meta_laws::scalars::lemma_plain(p.w.f, p.w.c, p.e, p.v);
    }
}

/// Integers that are integers are all written.
proof fn lemma_integers_whole(
    c: Context,
    buf: Seq<u8>,
    off: int,
    stride: int,
    items: Seq<ValueView>,
    k: nat,
)
    requires
        k <= items.len(),
        forall|j: int|
            0 <= j < items.len() ==> crate::coerce::as_integer(#[trigger] items[j], c.floats) is Some,
    ensures
        crate::meta_write::integers_into(c, buf, off, stride, items, k).1,
    decreases k,
{
    if k > 0 {
        lemma_integers_whole(c, buf, off, stride, items, (k - 1) as nat);
        assert(crate::coerce::as_integer(items[k - 1], c.floats) is Some);
    }
}

proof fn lemma_bytes_quiet(p: Spot)
    requires
        fitting(p),
        p.e.ty == T_BYTE_ARRAY,
    ensures
        is_quiet(p),
{
    reveal(Spot::after);
    if !crate::meta_laws::fits::raw_elements(p.elem) {
        let items = p.v->Array_0.items;
        assert forall|j: int| 0 <= j < items.len() implies crate::coerce::as_integer(
            #[trigger] items[j],
            p.w.c.floats,
        ) is Some by {
            assert(crate::meta_laws::fits::fits_plain(p.w.f, p.elem->0.ty, 0, items[j]));
        }
        lemma_integers_whole(
            p.w.c,
            p.buf,
            p.off(),
            crate::meta_write::stride_of(p.elem),
            items,
            items.len(),
        );
    }
}

/// A structure is stored in a block without a warning.
proof fn lemma_set_apart_quiet(w: World, x: StructView, st: BuildState, depth: nat)
    requires
        st.blocks.len() > 0,
        crate::meta_laws::fits::fits_struct(w.f, w.c.schema, x.type_hash, x.fields, depth),
    ensures
        calm(crate::meta_laws::tree::set_apart(w, x, st).0, st),
    decreases 66 - depth, 4int, 0int,
{
    reveal(crate::meta_laws::tree::set_apart);
    lemma_struct_quiet(
        w.f,
        w.c,
        x.type_hash,
        x.fields,
        st,
        crate::meta_write::full_fuel(w.c.schema),
        depth,
    );
}

proof fn lemma_inline_after(p: Spot, x: StructView)
    requires
        p.e.ty == T_STRUCT,
        p.v == ValueView::Struct(x),
        p.w.c.schema.meta_structs.contains_key(p.e.ref_key),
        p.off() + p.w.c.schema.meta_structs[p.e.ref_key].size <= p.buf.len(),
    ensures
        p.after().1 == crate::meta_write::write_struct(
            p.w.c,
            p.e.ref_key,
            Some(x.fields),
            p.st,
            crate::meta_write::full_fuel(p.w.c.schema),
        ).1,
{
    reveal(Spot::after);
}

proof fn lemma_inline_quiet(p: Spot)
    requires
        fitting(p),
        p.e.ty == T_STRUCT,
    ensures
        is_quiet(p),
    decreases 66 - p.depth, 8int, 0int,
{
    match p.v {
        ValueView::Struct(x) => {
            let key = p.e.ref_key;
            assert(crate::meta_laws::fits::fits_struct(
                p.w.f,
                p.w.c.schema,
                key,
                x.fields,
                p.depth,
            ));
            crate::meta_laws::tree::lemma_known(p.w, key, x.fields, p.depth);
            lemma_inline_after(p, x);
            lemma_struct_quiet(
                p.w.f,
                p.w.c,
                key,
                x.fields,
                p.st,
                crate::meta_write::full_fuel(p.w.c.schema),
                p.depth,
            );
        },
        _ => {},
    }
}

proof fn lemma_pointer_quiet(p: Spot)
    requires
        fitting(p),
        p.e.ty == T_STRUCT_PTR,
    ensures
        is_quiet(p),
    decreases 66 - p.depth, 8int, 0int,
{
    assert(crate::meta_laws::fits::fits_pointee(p.w.f, p.w.c.schema, p.v, p.depth));
    crate::meta_laws::tree::lemma_struct_ptr_after(p);
    match p.v {
        ValueView::Struct(x) => {
            crate::meta_laws::tree::lemma_known(p.w, x.type_hash, x.fields, p.depth);
            lemma_set_apart_quiet(p.w, x, p.st, p.depth);
        },
        _ => {},
    }
}

// ─── arrays ──────────────────────────────────────────────────────────────────

proof fn lemma_struct_item(p: Spot, i: int, s: StructView)
    requires
        p.elem->0.ty == T_STRUCT,
        p.elem->0.ref_key != SOA_VECTOR,
        p.v->Array_0.items[i] == ValueView::Struct(s),
    ensures
        crate::meta_laws::tree::item_at(p, i).1 == crate::meta_write::write_struct(
            p.w.c,
            p.elem->0.ref_key,
            Some(s.fields),
            crate::meta_laws::tree::run_at(p, i as nat).1,
            crate::meta_write::full_fuel(p.w.c.schema),
        ).1,
{
    reveal(crate::meta_laws::tree::item_at);
}

proof fn lemma_other_item_quiet(p: Spot, i: int)
    requires
        p.elem->0.ty != T_STRUCT || p.elem->0.ref_key == SOA_VECTOR,
        p.elem->0.ty == T_STRUCT_PTR ==> !(p.v->Array_0.items[i] is Struct),
    ensures
        calm(crate::meta_laws::tree::item_at(p, i).1, crate::meta_laws::tree::run_at(
            p,
            i as nat,
        ).1),
{
    reveal(crate::meta_laws::tree::item_at);
}

proof fn lemma_item_quiet(p: Spot, i: int)
    requires
        crate::meta_laws::tree::listed(p),
        0 <= i < p.v->Array_0.items.len(),
    ensures
        calm(crate::meta_laws::tree::item_at(p, i).1, crate::meta_laws::tree::run_at(
            p,
            i as nat,
        ).1),
    decreases 66 - p.depth, 6int, 0int,
{
    let x = p.elem->0;
    let st = crate::meta_laws::tree::run_at(p, i as nat).1;
    crate::meta_laws::tree::lemma_item_fits(p, i);
    crate::meta_laws::tree::lemma_run_state(p, i as nat, i as nat);
    if x.ty == T_STRUCT && x.ref_key != SOA_VECTOR {
        let s = p.v->Array_0.items[i]->Struct_0;
        assert(p.v->Array_0.items[i] == ValueView::Struct(s));
        lemma_struct_item(p, i, s);
        lemma_struct_quiet(
            p.w.f,
            p.w.c,
            x.ref_key,
            s.fields,
            st,
            crate::meta_write::full_fuel(p.w.c.schema),
            p.depth,
        );
    } else if x.ty == T_STRUCT_PTR {
        crate::meta_laws::tree::lemma_pointer_item(p, i);
        match p.v->Array_0.items[i] {
            ValueView::Struct(s) => {
                crate::meta_laws::tree::lemma_known(p.w, s.type_hash, s.fields, p.depth);
                lemma_set_apart_quiet(p.w, s, st, p.depth);
            },
            _ => {
                lemma_other_item_quiet(p, i);
            },
        }
    } else {
        lemma_other_item_quiet(p, i);
    }
}

proof fn lemma_run_quiet(p: Spot, k: nat)
    requires
        crate::meta_laws::tree::listed(p),
        k <= p.v->Array_0.items.len(),
    ensures
        calm(crate::meta_laws::tree::run_at(p, k).1, p.st),
    decreases 66 - p.depth, 7int, k,
{
    if k == 0 {
        crate::meta_laws::tree::lemma_run_start(p);
    } else {
        lemma_run_quiet(p, (k - 1) as nat);
        crate::meta_laws::tree::lemma_run_step(p, k);
        lemma_item_quiet(p, k - 1);
    }
}

proof fn lemma_array_quiet(p: Spot)
    requires
        fitting(p),
        p.e.ty == T_ARRAY,
    ensures
        is_quiet(p),
    decreases 66 - p.depth, 8int, 0int,
{
    let all = p.v->Array_0.items.len();
    if all > 0 {
        assert(crate::meta_laws::tree::listed(p));
        crate::meta_laws::tree::lemma_array_refused(p);
        crate::meta_laws::tree::lemma_run_whole(p);
        lemma_run_quiet(p, all);
    }
    crate::meta_laws::tree::lemma_array_after(p);
}

/// A tree that fits its schema, as some file would describe it, is built, and
/// without a warning.
pub proof fn law_fitting_trees_build_quietly(f: MetaView, c: Context, root: StructView)
    requires
        crate::meta_laws::fits::fits_struct(f, c.schema, root.type_hash, root.fields, 0),
    ensures
        crate::meta_write::written(c, root).warnings.len() == 0,
        !crate::meta_write::written(c, root).endless,
{
    let st = crate::meta_write::fresh(c.schema.meta_structs[root.type_hash].name);
    lemma_struct_quiet(
        f,
        c,
        root.type_hash,
        root.fields,
        st,
        crate::meta_write::full_fuel(c.schema),
        0,
    );
}

} // verus!
