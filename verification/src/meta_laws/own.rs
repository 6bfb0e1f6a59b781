//! A Meta file carries the part of the schema that writing it again takes.

use vstd::prelude::*;

use crate::meta_laws::spots::{Spot, World};
use crate::meta_schema::MetaView;
use crate::meta_write::{
    SOA_VECTOR, T_ARRAY, T_BYTE_ARRAY, T_CHAR_ARRAY, T_CHAR_PTR, T_DATA_BLOCK_PTR, T_STRUCT,
    T_STRUCT_PTR,
};
use crate::pso_write::{BuildState, Context};
use crate::resource::ResourceError;
use crate::schema::{MetaEntryDef, SchemaErrorView, SchemaView, ARRAYINFO};
use crate::value::{StructView, ValueView};

verus! {

/// Whether a schema is part of the writer's, and holds all that was used.
#[verifier::opaque]
pub open spec fn within(own: Context, w: World) -> bool {
    &&& own.floats == w.c.floats
    &&& forall|key: u32| #[trigger]
        own.schema.meta_structs.contains_key(key) ==> w.c.schema.meta_structs.contains_key(key)
            && own.schema.meta_structs[key] == w.c.schema.meta_structs[key]
    &&& forall|key: u32| #[trigger]
        own.schema.meta_enums.contains_key(key) ==> w.c.schema.meta_enums.contains_key(key)
            && own.schema.meta_enums[key] == w.c.schema.meta_enums[key]
    &&& forall|key: u32| #[trigger]
        w.end.used_structs.contains(key) && w.c.schema.meta_structs.contains_key(key)
            ==> own.schema.meta_structs.contains_key(key)
    &&& forall|key: u32| #[trigger]
        w.end.used_enums.contains(key) && w.c.schema.meta_enums.contains_key(key)
            ==> own.schema.meta_enums.contains_key(key)
}

/// Whether both schemas know a structure, and by the same definition.
spec fn shared(own: Context, w: World, key: u32) -> bool {
    &&& own.schema.meta_structs.contains_key(key)
    &&& w.c.schema.meta_structs.contains_key(key)
    &&& own.schema.meta_structs[key] == w.c.schema.meta_structs[key]
}

/// The same writer with the other schema.
spec fn other(w: World, own: Context) -> World {
    World { c: own, ..w }
}

/// The same member, written by the other schema.
spec fn twin(p: Spot, own: Context, fuel: nat) -> Spot {
    Spot { w: other(p.w, own), fuel, ..p }
}

proof fn lemma_shared(own: Context, w: World, key: u32)
    requires
        within(own, w),
        w.end.used_structs.contains(key),
        w.c.schema.meta_structs.contains_key(key),
    ensures
        shared(own, w, key),
{
    reveal(within);
}

proof fn lemma_struct_same(
    w: World,
    own: Context,
    key: u32,
    fields: Seq<(u32, ValueView)>,
    st: BuildState,
    fuel: nat,
    fuel2: nat,
    depth: nat,
)
    requires
        within(own, w),
        st.blocks.len() > 0,
        crate::meta_laws::fits::fits_struct(w.f, w.c.schema, key, fields, depth),
        crate::meta_laws::grow::grows(
            crate::meta_write::write_struct(w.c, key, Some(fields), st, fuel).1,
            w.end,
        ),
    ensures
        shared(own, w, key),
        crate::meta_write::write_struct(own, key, Some(fields), st, fuel2)
            == crate::meta_write::write_struct(w.c, key, Some(fields), st, fuel),
    decreases 66 - depth, 3int, 0int,
{
    crate::meta_laws::grow::lemma_struct_steps(w.c, key, Some(fields), st, fuel);
    crate::meta_laws::tree::lemma_known(w, key, fields, depth);
    lemma_shared(own, w, key);
    lemma_members_same(
        w,
        own,
        key,
        fields,
        st,
        fuel,
        fuel2,
        depth,
        w.c.schema.meta_structs[key].entries.len(),
    );
}

proof fn lemma_members_same(
    w: World,
    own: Context,
    key: u32,
    fields: Seq<(u32, ValueView)>,
    st: BuildState,
    fuel: nat,
    fuel2: nat,
    depth: nat,
    k: nat,
)
    requires
        within(own, w),
        shared(own, w, key),
        st.blocks.len() > 0,
        crate::meta_laws::fits::fits_struct(w.f, w.c.schema, key, fields, depth),
        k <= w.c.schema.meta_structs[key].entries.len(),
        crate::meta_laws::grow::grows(
            crate::meta_laws::tree::so_far(w, key, fields, st, fuel, k).1,
            w.end,
        ),
    ensures
        crate::meta_laws::tree::so_far(other(w, own), key, fields, st, fuel2, k)
            == crate::meta_laws::tree::so_far(w, key, fields, st, fuel, k),
    decreases 66 - depth, 2int, k,
{
    if k > 0 {
        let j = (k - 1) as nat;
        crate::meta_laws::tree::lemma_spot_grows(w, key, fields, st, fuel, j, k);
        crate::meta_laws::grow::lemma_grows_on(
            crate::meta_laws::tree::so_far(w, key, fields, st, fuel, j).1,
            crate::meta_laws::tree::so_far(w, key, fields, st, fuel, k).1,
            w.end,
        );
        lemma_members_same(w, own, key, fields, st, fuel, fuel2, depth, j);
        let def = w.c.schema.meta_structs[key];
        if def.entries[k - 1].name != ARRAYINFO {
            let p = crate::meta_laws::tree::spot_at(w, key, fields, st, fuel, 0, 0, depth, k - 1);
            crate::meta_laws::quiet::lemma_spot_fits(w, key, fields, st, fuel, depth, k);
            crate::meta_laws::tree::lemma_member_found(w, key, fields, depth, k - 1);
            crate::meta_laws::quiet::lemma_spot_after(w, key, fields, st, fuel, depth, k);
            crate::meta_laws::quiet::lemma_spot_after(
                other(w, own),
                key,
                fields,
                st,
                fuel2,
                depth,
                k,
            );
            lemma_member_same(p, own, fuel2);
            assert(twin(p, own, fuel2) == crate::meta_laws::tree::spot_at(
                other(w, own),
                key,
                fields,
                st,
                fuel2,
                0,
                0,
                depth,
                k - 1,
            ));
        }
    }
}

proof fn lemma_member_same(p: Spot, own: Context, fuel: nat)
    requires
        crate::meta_laws::quiet::fitting(p),
        within(own, p.w),
        crate::meta_laws::grow::grows(p.after().1, p.w.end),
    ensures
        twin(p, own, fuel).after() == p.after(),
    decreases 66 - p.depth, 9int, 0int,
{
    if p.e.ty == T_STRUCT {
        lemma_inline_same(p, own, fuel);
    } else if p.e.ty == T_STRUCT_PTR {
        lemma_pointer_same(p, own, fuel);
    } else if p.e.ty == T_ARRAY {
        lemma_array_same(p, own, fuel);
    } else if p.e.ty == T_BYTE_ARRAY {
        lemma_bytes_same(p, own, fuel);
    } else if p.e.ty == T_CHAR_ARRAY || p.e.ty == T_CHAR_PTR || p.e.ty == T_DATA_BLOCK_PTR {
        reveal(within);
        reveal(Spot::after);
    } else {
        lemma_plain_same(p, own, fuel);
    }
}

/// A plain value of its own type is stored the same by any schema.
proof fn lemma_plain_bytes(f: MetaView, a: Context, b: Context, e: MetaEntryDef, v: ValueView)
    requires
        a.floats == b.floats,
        crate::meta_laws::fits::fits_plain(f, e.ty, e.ref_key, v),
    ensures
        crate::meta_write::plain_bytes(a, e, v) == crate::meta_write::plain_bytes(b, e, v),
{
}

proof fn lemma_plain_same(p: Spot, own: Context, fuel: nat)
    requires
        crate::meta_laws::quiet::fitting(p),
        within(own, p.w),
        crate::meta_laws::grow::grows(p.after().1, p.w.end),
        p.e.ty != T_STRUCT && p.e.ty != T_STRUCT_PTR && p.e.ty != T_ARRAY && p.e.ty
            != T_BYTE_ARRAY && p.e.ty != T_CHAR_ARRAY && p.e.ty != T_CHAR_PTR && p.e.ty
            != T_DATA_BLOCK_PTR,
    ensures
        twin(p, own, fuel).after() == p.after(),
{
    reveal(within);
    crate::meta_laws::scalars::lemma_plain(p.w.f, p.w.c, p.e, p.v);
    lemma_plain_bytes(p.w.f, p.w.c, own, p.e, p.v);
    crate::meta_laws::grow::lemma_use_enum(p.w.c, p.st, p.e.ref_key);
    lemma_plain_after(p);
    lemma_plain_after(twin(p, own, fuel));
    let key = p.e.ref_key;
    if crate::meta_write::plain_used(p.w.c, p.st, p.e).used_enums.contains(key) {
        assert(p.w.end.used_enums.contains(key));
    }
    assert(crate::meta_write::plain_used(own, p.st, p.e) == crate::meta_write::plain_used(
        p.w.c,
        p.st,
        p.e,
    ));
}

proof fn lemma_plain_after(p: Spot)
    requires
        crate::meta_write::plain_need(p.e) is Some,
        p.off() + crate::meta_write::plain_need(p.e)->0 <= p.buf.len(),
        crate::meta_write::plain_bytes(p.w.c, p.e, p.v) is Some,
    ensures
        p.after() == (
            crate::bytes::splice(
                p.buf,
                p.off(),
                crate::meta_write::plain_bytes(p.w.c, p.e, p.v)->0,
            ),
            crate::meta_write::plain_used(p.w.c, p.st, p.e),
        ),
{
    reveal(Spot::after);
}

proof fn lemma_integers_same(
    a: Context,
    b: Context,
    buf: Seq<u8>,
    off: int,
    stride: int,
    items: Seq<ValueView>,
    k: nat,
)
    requires
        a.floats == b.floats,
    ensures
        crate::meta_write::integers_into(a, buf, off, stride, items, k)
            == crate::meta_write::integers_into(b, buf, off, stride, items, k),
    decreases k,
{
    if k > 0 {
        lemma_integers_same(a, b, buf, off, stride, items, (k - 1) as nat);
    }
}

proof fn lemma_bytes_same(p: Spot, own: Context, fuel: nat)
    requires
        within(own, p.w),
        p.e.ty == T_BYTE_ARRAY,
    ensures
        twin(p, own, fuel).after() == p.after(),
{
    reveal(within);
    reveal(Spot::after);
    let items = p.v->Array_0.items;
    lemma_integers_same(
        p.w.c,
        own,
        p.buf,
        p.off(),
        crate::meta_write::stride_of(p.elem),
        items,
        crate::resource::least(items.len() as int, p.e.ref_key as int) as nat,
    );
}

proof fn lemma_inline_whole(p: Spot, x: StructView)
    requires
        p.e.ty == T_STRUCT,
        p.v == ValueView::Struct(x),
        p.w.c.schema.meta_structs.contains_key(p.e.ref_key),
        p.off() + p.w.c.schema.meta_structs[p.e.ref_key].size <= p.buf.len(),
    ensures
        ({
            let r = crate::meta_write::write_struct(
                p.w.c,
                p.e.ref_key,
                Some(x.fields),
                p.st,
                crate::meta_write::full_fuel(p.w.c.schema),
            );
            p.after() == (crate::bytes::splice(p.buf, p.off(), r.0), r.1)
        }),
{
    reveal(Spot::after);
}

proof fn lemma_inline_same(p: Spot, own: Context, fuel: nat)
    requires
        crate::meta_laws::quiet::fitting(p),
        within(own, p.w),
        crate::meta_laws::grow::grows(p.after().1, p.w.end),
        p.e.ty == T_STRUCT,
    ensures
        twin(p, own, fuel).after() == p.after(),
    decreases 66 - p.depth, 8int, 0int,
{
    match p.v {
        ValueView::Struct(x) => {
            let key = p.e.ref_key;
            assert(crate::meta_laws::fits::fits_struct(
                p.w.f,
                p.w.c.schema,
                key,
                x.fields,
                p.depth,
            ));
            crate::meta_laws::tree::lemma_known(p.w, key, x.fields, p.depth);
            lemma_inline_whole(p, x);
            lemma_struct_same(
                p.w,
                own,
                key,
                x.fields,
                p.st,
                crate::meta_write::full_fuel(p.w.c.schema),
                crate::meta_write::full_fuel(own.schema),
                p.depth,
            );
            lemma_inline_whole(twin(p, own, fuel), x);
        },
        _ => {},
    }
}

proof fn lemma_apart_same(w: World, own: Context, x: StructView, st: BuildState, depth: nat)
    requires
        within(own, w),
        st.blocks.len() > 0,
        crate::meta_laws::fits::fits_struct(w.f, w.c.schema, x.type_hash, x.fields, depth),
        crate::meta_laws::grow::grows(crate::meta_laws::tree::set_apart(w, x, st).0, w.end),
    ensures
        shared(own, w, x.type_hash),
        crate::meta_laws::tree::set_apart(other(w, own), x, st)
            == crate::meta_laws::tree::set_apart(w, x, st),
    decreases 66 - depth, 4int, 0int,
{
    reveal(crate::meta_laws::tree::set_apart);
    let key = x.type_hash;
    let full = crate::meta_write::full_fuel(w.c.schema);
    let r = crate::meta_write::write_struct(w.c, key, Some(x.fields), st, full);
    crate::meta_laws::grow::lemma_struct_steps(w.c, key, Some(x.fields), st, full);
    crate::meta_laws::grow::lemma_append(r.1, key, r.0, true);
    crate::meta_laws::grow::lemma_grows_on(
        r.1,
        crate::meta_laws::tree::set_apart(w, x, st).0,
        w.end,
    );
    lemma_struct_same(
        w,
        own,
        key,
        x.fields,
        st,
        full,
        crate::meta_write::full_fuel(own.schema),
        depth,
    );
}

proof fn lemma_pointer_same(p: Spot, own: Context, fuel: nat)
    requires
        crate::meta_laws::quiet::fitting(p),
        within(own, p.w),
        crate::meta_laws::grow::grows(p.after().1, p.w.end),
        p.e.ty == T_STRUCT_PTR,
    ensures
        twin(p, own, fuel).after() == p.after(),
    decreases 66 - p.depth, 8int, 0int,
{
    assert(crate::meta_laws::fits::fits_pointee(p.w.f, p.w.c.schema, p.v, p.depth));
    crate::meta_laws::tree::lemma_struct_ptr_after(p);
    crate::meta_laws::tree::lemma_struct_ptr_after(twin(p, own, fuel));
    match p.v {
        ValueView::Struct(x) => {
            crate::meta_laws::tree::lemma_known(p.w, x.type_hash, x.fields, p.depth);
            lemma_apart_same(p.w, own, x, p.st, p.depth);
        },
        _ => {},
    }
}

// ─── arrays ──────────────────────────────────────────────────────────────────

proof fn lemma_struct_item_whole(p: Spot, i: int, s: StructView)
    requires
        p.elem->0.ty == T_STRUCT,
        p.elem->0.ref_key != SOA_VECTOR,
        p.v->Array_0.items[i] == ValueView::Struct(s),
    ensures
        ({
            let r = crate::meta_write::write_struct(
                p.w.c,
                p.elem->0.ref_key,
                Some(s.fields),
                crate::meta_laws::tree::run_at(p, i as nat).1,
                crate::meta_write::full_fuel(p.w.c.schema),
            );
            crate::meta_laws::tree::item_at(p, i) == (Some(r.0), r.1)
        }),
{
    reveal(crate::meta_laws::tree::item_at);
}

proof fn lemma_other_item_same(p: Spot, own: Context, fuel: nat, i: int)
    requires
        within(own, p.w),
        p.elem->0.ty != T_STRUCT || p.elem->0.ref_key == SOA_VECTOR,
        p.elem->0.ty == T_STRUCT_PTR ==> !(p.v->Array_0.items[i] is Struct),
        crate::meta_laws::tree::run_at(twin(p, own, fuel), i as nat)
            == crate::meta_laws::tree::run_at(p, i as nat),
    ensures
        crate::meta_laws::tree::item_at(twin(p, own, fuel), i)
            == crate::meta_laws::tree::item_at(p, i),
{
    reveal(within);
    reveal(crate::meta_laws::tree::item_at);
}

proof fn lemma_item_same(p: Spot, own: Context, fuel: nat, i: int)
    requires
        crate::meta_laws::tree::listed(p),
        within(own, p.w),
        0 <= i < p.v->Array_0.items.len(),
        crate::meta_laws::tree::run_at(twin(p, own, fuel), i as nat)
            == crate::meta_laws::tree::run_at(p, i as nat),
        crate::meta_laws::grow::grows(crate::meta_laws::tree::item_at(p, i).1, p.w.end),
    ensures
        crate::meta_laws::tree::item_at(twin(p, own, fuel), i)
            == crate::meta_laws::tree::item_at(p, i),
    decreases 66 - p.depth, 6int, 0int,
{
    let x = p.elem->0;
    let st = crate::meta_laws::tree::run_at(p, i as nat).1;
    crate::meta_laws::tree::lemma_item_fits(p, i);
    crate::meta_laws::tree::lemma_run_state(p, i as nat, i as nat);
    if x.ty == T_STRUCT && x.ref_key != SOA_VECTOR {
        let s = p.v->Array_0.items[i]->Struct_0;
        assert(p.v->Array_0.items[i] == ValueView::Struct(s));
        lemma_struct_item_whole(p, i, s);
        lemma_struct_item_whole(twin(p, own, fuel), i, s);
        lemma_struct_same(
            p.w,
            own,
            x.ref_key,
            s.fields,
            st,
            crate::meta_write::full_fuel(p.w.c.schema),
            crate::meta_write::full_fuel(own.schema),
            p.depth,
        );
    } else if x.ty == T_STRUCT_PTR && p.v->Array_0.items[i] is Struct {
        let s = p.v->Array_0.items[i]->Struct_0;
        crate::meta_laws::tree::lemma_pointer_item(p, i);
        crate::meta_laws::tree::lemma_pointer_item(twin(p, own, fuel), i);
        crate::meta_laws::tree::lemma_known(p.w, s.type_hash, s.fields, p.depth);
        lemma_apart_same(p.w, own, s, st, p.depth);
    } else {
        lemma_other_item_same(p, own, fuel, i);
    }
}

proof fn lemma_run_same(p: Spot, own: Context, fuel: nat, k: nat)
    requires
        crate::meta_laws::tree::listed(p),
        within(own, p.w),
        k <= p.v->Array_0.items.len(),
        crate::meta_laws::grow::grows(crate::meta_laws::tree::run_at(p, k).1, p.w.end),
    ensures
        crate::meta_laws::tree::run_at(twin(p, own, fuel), k)
            == crate::meta_laws::tree::run_at(p, k),
    decreases 66 - p.depth, 7int, k,
{
    if k == 0 {
        crate::meta_laws::tree::lemma_run_start(p);
        crate::meta_laws::tree::lemma_run_start(twin(p, own, fuel));
    } else {
        let j = (k - 1) as nat;
        crate::meta_laws::tree::lemma_run_state(p, j, k);
        crate::meta_laws::grow::lemma_grows_on(
            crate::meta_laws::tree::run_at(p, j).1,
            crate::meta_laws::tree::run_at(p, k).1,
            p.w.end,
        );
        lemma_run_same(p, own, fuel, j);
        crate::meta_laws::tree::lemma_run_step(p, k);
        crate::meta_laws::tree::lemma_run_step(twin(p, own, fuel), k);
        if crate::meta_laws::tree::run_at(p, j).0 is Some {
            lemma_item_same(p, own, fuel, k - 1);
        }
    }
}

/// Both schemas know the structures that an array holds.
proof fn lemma_elements_shared(p: Spot, own: Context)
    requires
        crate::meta_laws::tree::listed(p),
        within(own, p.w),
        p.elem->0.ty == T_STRUCT,
        p.elem->0.ref_key != SOA_VECTOR,
        crate::meta_laws::grow::grows(
            crate::meta_laws::tree::run_at(p, p.v->Array_0.items.len()).1,
            p.w.end,
        ),
    ensures
        shared(own, p.w, p.elem->0.ref_key),
{
    let n = p.v->Array_0.items.len();
    crate::meta_laws::tree::lemma_run_state(p, 1, n);
    crate::meta_laws::tree::lemma_run_start(p);
    crate::meta_laws::tree::lemma_run_step(p, 1);
    crate::meta_laws::tree::lemma_first_used(p);
    crate::meta_laws::grow::lemma_grows_on(
        crate::meta_laws::tree::run_at(p, 1).1,
        crate::meta_laws::tree::run_at(p, n).1,
        p.w.end,
    );
    assert(p.w.end.used_structs.contains(p.elem->0.ref_key));
    lemma_shared(own, p.w, p.elem->0.ref_key);
}

proof fn lemma_array_same(p: Spot, own: Context, fuel: nat)
    requires
        crate::meta_laws::quiet::fitting(p),
        within(own, p.w),
        crate::meta_laws::grow::grows(p.after().1, p.w.end),
        p.e.ty == T_ARRAY,
    ensures
        twin(p, own, fuel).after() == p.after(),
    decreases 66 - p.depth, 8int, 0int,
{
    let n = p.v->Array_0.items.len();
    if n > 0 {
        assert(crate::meta_laws::tree::listed(p));
        crate::meta_laws::tree::lemma_array_refused(p);
        crate::meta_laws::tree::lemma_run_whole(p);
        crate::meta_laws::tree::lemma_array_after(p);
        crate::meta_laws::tree::lemma_run_state(p, n, n);
        let r = crate::meta_laws::tree::run_at(p, n);
        let name = crate::meta_write::run_block(p.w.c, p.elem->0);
        crate::meta_laws::grow::lemma_append(r.1, name, r.0->0, true);
        crate::meta_laws::grow::lemma_grows_on(
            r.1,
            crate::meta_write::add_item(r.1, name, r.0->0).0,
            p.w.end,
        );
        lemma_run_same(p, own, fuel, n);
        if p.elem->0.ty == T_STRUCT && p.elem->0.ref_key != SOA_VECTOR {
            lemma_elements_shared(p, own);
        }
    } else {
        crate::meta_laws::tree::lemma_array_after(p);
    }
    crate::meta_laws::tree::lemma_array_after(twin(p, own, fuel));
}

// ─── the schema of a file ────────────────────────────────────────────────────

/// Whether every enum of a schema is known by its own name.
pub open spec fn enums_named(s: SchemaView) -> bool {
    forall|key: u32| #[trigger]
        s.meta_enums.contains_key(key) ==> s.meta_enums[key].name == key
}

/// The schema that a file carries.
pub open spec fn carried(c: Context, st: BuildState) -> SchemaView {
    let p = crate::meta_write::parts_of(c, st);
    SchemaView {
        meta_structs: crate::meta_laws::file::struct_defs(p.structs, p.structs.len()),
        meta_enums: crate::meta_laws::file::enum_defs(p.enums, p.enums.len()),
        ..crate::schema::no_schema()
    }
}

/// Whether one schema is what another says of some structures and enums, and
/// nothing else.
pub open spec fn is_part(own: SchemaView, all: SchemaView, st: BuildState) -> bool {
    &&& forall|key: u32|
        #![trigger own.meta_structs.contains_key(key)]
        own.meta_structs.contains_key(key) <==> st.used_structs.contains(key)
            && all.meta_structs.contains_key(key)
    &&& forall|key: u32|
        #![trigger own.meta_structs[key]]
        own.meta_structs.contains_key(key) ==> own.meta_structs[key] == all.meta_structs[key]
    &&& forall|key: u32|
        #![trigger own.meta_enums.contains_key(key)]
        own.meta_enums.contains_key(key) <==> st.used_enums.contains(key)
            && all.meta_enums.contains_key(key)
    &&& forall|key: u32|
        #![trigger own.meta_enums[key]]
        own.meta_enums.contains_key(key) ==> own.meta_enums[key] == all.meta_enums[key]
    &&& own.pso_structs == Map::<u32, crate::schema::PsoStructDefView>::empty()
    &&& own.pso_enums == Map::<u32, crate::schema::PsoEnumDefView>::empty()
}

proof fn lemma_one_more(names: Seq<u32>, n: nat, key: u32)
    requires
        0 < n <= names.len(),
    ensures
        names.take(n as int).contains(key) <==> names.take(n - 1).contains(key) || key == names[n
            - 1],
{
    let all = names.take(n as int);
    let few = names.take(n - 1);
    assert(all[n - 1] == names[n - 1]);
    if few.contains(key) {
        let i = choose|i: int| 0 <= i < few.len() && few[i] == key;
        assert(all[i] == key);
    }
    if all.contains(key) && key != names[n - 1] {
        let i = choose|i: int| 0 <= i < all.len() && all[i] == key;
        assert(few[i] == key);
    }
}

proof fn lemma_structs_carried(c: Context, names: Seq<u32>, n: nat, key: u32)
    requires
        crate::meta_laws::file::well_named(c.schema),
        n <= names.len(),
    ensures
        ({
            let defs = crate::meta_write::used_structs(c, names, n);
            let m = crate::meta_laws::file::struct_defs(defs, defs.len());
            &&& m.contains_key(key) <==> names.take(n as int).contains(key)
                && c.schema.meta_structs.contains_key(key)
            &&& m.contains_key(key) ==> m[key] == c.schema.meta_structs[key]
        }),
    decreases n,
{
    let defs = crate::meta_write::used_structs(c, names, n);
    if n > 0 {
        lemma_structs_carried(c, names, (n - 1) as nat, key);
        let before = crate::meta_write::used_structs(c, names, (n - 1) as nat);
        let last = names[n - 1];
        lemma_one_more(names, n, key);
        if c.schema.meta_structs.contains_key(last) {
            assert(defs == before.push(c.schema.meta_structs[last]));
            lemma_structs_prefix(before, defs, before.len());
        }
    } else {
        assert(names.take(0).len() == 0);
    }
}

proof fn lemma_structs_prefix(
    a: Seq<crate::schema::MetaStructDefView>,
    b: Seq<crate::schema::MetaStructDefView>,
    k: nat,
)
    requires
        k <= a.len() <= b.len(),
        forall|i: int| 0 <= i < k ==> #[trigger] b[i] == a[i],
    ensures
        crate::meta_laws::file::struct_defs(a, k) == crate::meta_laws::file::struct_defs(b, k),
    decreases k,
{
    if k > 0 {
        lemma_structs_prefix(a, b, (k - 1) as nat);
        assert(b[k - 1] == a[k - 1]);
    }
}

proof fn lemma_enums_carried(c: Context, names: Seq<u32>, n: nat, key: u32)
    requires
        enums_named(c.schema),
        n <= names.len(),
    ensures
        ({
            let defs = crate::meta_write::used_enums(c, names, n);
            let m = crate::meta_laws::file::enum_defs(defs, defs.len());
            &&& m.contains_key(key) <==> names.take(n as int).contains(key)
                && c.schema.meta_enums.contains_key(key)
            &&& m.contains_key(key) ==> m[key] == c.schema.meta_enums[key]
        }),
    decreases n,
{
    let defs = crate::meta_write::used_enums(c, names, n);
    if n > 0 {
        lemma_enums_carried(c, names, (n - 1) as nat, key);
        let before = crate::meta_write::used_enums(c, names, (n - 1) as nat);
        let last = names[n - 1];
        lemma_one_more(names, n, key);
        if c.schema.meta_enums.contains_key(last) {
            assert(defs == before.push(c.schema.meta_enums[last]));
            lemma_enums_prefix(before, defs, before.len());
        }
    } else {
        assert(names.take(0).len() == 0);
    }
}

proof fn lemma_enums_prefix(
    a: Seq<crate::schema::MetaEnumDefView>,
    b: Seq<crate::schema::MetaEnumDefView>,
    k: nat,
)
    requires
        k <= a.len() <= b.len(),
        forall|i: int| 0 <= i < k ==> #[trigger] b[i] == a[i],
    ensures
        crate::meta_laws::file::enum_defs(a, k) == crate::meta_laws::file::enum_defs(b, k),
    decreases k,
{
    if k > 0 {
        lemma_enums_prefix(a, b, (k - 1) as nat);
        assert(b[k - 1] == a[k - 1]);
    }
}

proof fn lemma_carried(c: Context, st: BuildState)
    requires
        crate::meta_laws::file::well_named(c.schema),
        enums_named(c.schema),
    ensures
        is_part(carried(c, st), c.schema, st),
{
    let own = carried(c, st);
    let (a, b) = (st.used_structs, st.used_enums);
    assert(a.take(a.len() as int) =~= a);
    assert(b.take(b.len() as int) =~= b);
    assert forall|key: u32|
        #![trigger own.meta_structs.contains_key(key)]
        (own.meta_structs.contains_key(key) <==> a.contains(key)
            && c.schema.meta_structs.contains_key(key)) && (own.meta_structs.contains_key(key)
            ==> own.meta_structs[key] == c.schema.meta_structs[key]) by {
        lemma_structs_carried(c, a, a.len(), key);
    }
    assert forall|key: u32|
        #![trigger own.meta_enums.contains_key(key)]
        (own.meta_enums.contains_key(key) <==> b.contains(key)
            && c.schema.meta_enums.contains_key(key)) && (own.meta_enums.contains_key(key)
            ==> own.meta_enums[key] == c.schema.meta_enums[key]) by {
        lemma_enums_carried(c, b, b.len(), key);
    }
}

/// The schema that is read from a built file holds the type of the root, and
/// every definition in it is the one of the same name in the schema that the
/// file was built by. It holds nothing of the other format.
pub proof fn law_built_schemas_are_parts(
    c: Context,
    root: StructView,
    r: Result<Vec<u8>, ResourceError>,
    sections: Result<(Seq<u8>, Seq<u8>), ResourceError>,
)
    requires
        crate::meta_laws::file::well_named(c.schema),
        enums_named(c.schema),
        c.schema.meta_structs.contains_key(root.type_hash),
        crate::meta_write::assembles_to(
            crate::meta_write::parts_of(c, crate::meta_write::written(c, root)),
            r,
        ),
        crate::meta_laws::file::countable(
            crate::meta_write::parts_of(c, crate::meta_write::written(c, root)),
        ),
        r is Ok,
        crate::resource::unpacks_to(r->Ok_0@, sections),
    ensures
        ({
            let end = crate::meta_write::written(c, root);
            let own = carried(c, end);
            &&& crate::schema::file_schema(r->Ok_0@, sections) == Ok::<
                SchemaView,
                SchemaErrorView,
            >(own)
            &&& is_part(own, c.schema, end)
            &&& own.meta_structs.contains_key(root.type_hash)
        }),
{
    let end = crate::meta_write::written(c, root);
    let p = crate::meta_write::parts_of(c, end);
    let name = c.schema.meta_structs[root.type_hash].name;
    crate::meta_laws::file::law_assembled_schemas_read_back(p, r, sections);
    lemma_carried(c, end);
    crate::meta_laws::grow::lemma_struct_steps(
        c,
        root.type_hash,
        Some(root.fields),
        crate::meta_write::fresh(name),
        crate::meta_write::full_fuel(c.schema),
    );
    assert(end.used_structs.contains(root.type_hash));
    assert(carried(c, end).meta_structs.contains_key(root.type_hash));
}

proof fn lemma_same_structs(a: Context, b: Context, names: Seq<u32>, n: nat)
    requires
        n <= names.len(),
        forall|i: int|
            0 <= i < n ==> a.schema.meta_structs.contains_key(#[trigger] names[i])
                == b.schema.meta_structs.contains_key(names[i]) && (
            a.schema.meta_structs.contains_key(names[i]) ==> a.schema.meta_structs[names[i]]
                == b.schema.meta_structs[names[i]]),
    ensures
        crate::meta_write::used_structs(a, names, n) == crate::meta_write::used_structs(
            b,
            names,
            n,
        ),
    decreases n,
{
    if n > 0 {
        lemma_same_structs(a, b, names, (n - 1) as nat);
        assert(a.schema.meta_structs.contains_key(names[n - 1])
            == b.schema.meta_structs.contains_key(names[n - 1]));
    }
}

proof fn lemma_same_enums(a: Context, b: Context, names: Seq<u32>, n: nat)
    requires
        n <= names.len(),
        forall|i: int|
            0 <= i < n ==> a.schema.meta_enums.contains_key(#[trigger] names[i])
                == b.schema.meta_enums.contains_key(names[i]) && (
            a.schema.meta_enums.contains_key(names[i]) ==> a.schema.meta_enums[names[i]]
                == b.schema.meta_enums[names[i]]),
    ensures
        crate::meta_write::used_enums(a, names, n) == crate::meta_write::used_enums(b, names, n),
    decreases n,
{
    if n > 0 {
        lemma_same_enums(a, b, names, (n - 1) as nat);
        assert(a.schema.meta_enums.contains_key(names[n - 1])
            == b.schema.meta_enums.contains_key(names[n - 1]));
    }
}

/// A tree that fits its schema builds to the very same file by the schema that
/// the file itself carries, and without a warning.
pub proof fn law_own_schemas_rebuild(f: MetaView, c: Context, root: StructView)
    requires
        crate::meta_laws::file::well_named(c.schema),
        enums_named(c.schema),
        crate::meta_laws::fits::fits_struct(f, c.schema, root.type_hash, root.fields, 0),
    ensures
        ({
            let end = crate::meta_write::written(c, root);
            let own = Context { schema: carried(c, end), ..c };
            &&& own.schema.meta_structs.contains_key(root.type_hash)
            &&& crate::meta_write::written(own, root) == end
            &&& crate::meta_write::parts_of(own, end) == crate::meta_write::parts_of(c, end)
            &&& end.warnings.len() == 0
            &&& !end.endless
        }),
{
    let end = crate::meta_write::written(c, root);
    let own = Context { schema: carried(c, end), ..c };
    let w = World { f, c, end };
    let key = root.type_hash;
    let full = crate::meta_write::full_fuel(c.schema);
    crate::meta_laws::quiet::law_fitting_trees_build_quietly(f, c, root);
    lemma_carried(c, end);
    crate::meta_laws::tree::lemma_known(w, key, root.fields, 0);
    let st = crate::meta_write::fresh(key);
    let out = crate::meta_write::write_struct(c, key, Some(root.fields), st, full);
    crate::meta_laws::grow::lemma_struct_steps(c, key, Some(root.fields), st, full);
    assert(crate::meta_laws::grow::grows(out.1, end)) by {
        assert(out.1.blocks[0] == st.blocks[0]);
        assert(out.1.blocks[0].1.len() == 0);
    }
    assert(within(own, w)) by {
        reveal(within);
    }
    lemma_struct_same(
        w,
        own,
        key,
        root.fields,
        st,
        full,
        crate::meta_write::full_fuel(own.schema),
        0,
    );
    let (a, b) = (end.used_structs, end.used_enums);
    assert forall|i: int| 0 <= i < a.len() implies own.schema.meta_structs.contains_key(
        #[trigger] a[i],
    ) == c.schema.meta_structs.contains_key(a[i]) && (own.schema.meta_structs.contains_key(a[i])
        ==> own.schema.meta_structs[a[i]] == c.schema.meta_structs[a[i]]) by {
        assert(a.contains(a[i]));
    }
    assert forall|i: int| 0 <= i < b.len() implies own.schema.meta_enums.contains_key(
        #[trigger] b[i],
    ) == c.schema.meta_enums.contains_key(b[i]) && (own.schema.meta_enums.contains_key(b[i])
        ==> own.schema.meta_enums[b[i]] == c.schema.meta_enums[b[i]]) by {
        assert(b.contains(b[i]));
    }
    lemma_same_structs(own, c, a, a.len());
    lemma_same_enums(own, c, b, b.len());
}

} // verus!
