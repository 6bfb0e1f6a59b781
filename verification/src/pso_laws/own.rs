//! A PSO file carries the part of the schema that writing it again takes.

use vstd::prelude::*;

use crate::pso::PsoView;
use crate::pso_laws::spots::{Spot, World};
use crate::pso_write::{BuildState, Context, T_ARRAY, T_ENUM, T_MAP, T_STRUCT};
use crate::schema::{PsoEnumDefView, PsoStructDefView, SchemaErrorView, SchemaView, ARRAYINFO};
use crate::value::{StructView, ValueView};

verus! {

/// Whether a schema is part of the writer's, and holds all that was used.
#[verifier::opaque]
pub open spec fn within(own: Context, w: World) -> bool {
    &&& own.floats == w.c.floats
    &&& forall|key: u32| #[trigger]
        own.schema.pso_structs.contains_key(key) ==> w.c.schema.pso_structs.contains_key(key)
            && own.schema.pso_structs[key] == w.c.schema.pso_structs[key]
    &&& forall|key: u32| #[trigger]
        own.schema.pso_enums.contains_key(key) ==> w.c.schema.pso_enums.contains_key(key)
            && own.schema.pso_enums[key] == w.c.schema.pso_enums[key]
    &&& forall|key: u32| #[trigger]
        w.end.used_structs.contains(key) && w.c.schema.pso_structs.contains_key(key)
            ==> own.schema.pso_structs.contains_key(key)
    &&& forall|key: u32| #[trigger]
        w.end.used_enums.contains(key) && w.c.schema.pso_enums.contains_key(key)
            ==> own.schema.pso_enums.contains_key(key)
}

/// Whether both schemas know a structure, and by the same definition.
spec fn shared(own: Context, w: World, key: u32) -> bool {
    &&& own.schema.pso_structs.contains_key(key)
    &&& w.c.schema.pso_structs.contains_key(key)
    &&& own.schema.pso_structs[key] == w.c.schema.pso_structs[key]
}

/// The same writer with the other schema.
spec fn other(w: World, own: Context) -> World {
    World { c: own, ..w }
}

/// The same member, written by the other schema.
spec fn twin(p: Spot, own: Context, fuel: nat) -> Spot {
    Spot { w: other(p.w, own), fuel, ..p }
}

proof fn lemma_shared(own: Context, w: World, key: u32)
    requires
        within(own, w),
        w.end.used_structs.contains(key),
        w.c.schema.pso_structs.contains_key(key),
    ensures
        shared(own, w, key),
{
    reveal(within);
}

proof fn lemma_struct_same(
    w: World,
    own: Context,
    key: u32,
    fields: Seq<(u32, ValueView)>,
    st: BuildState,
    fuel: nat,
    fuel2: nat,
    depth: nat,
)
    requires
        within(own, w),
        crate::pso_laws::fits::fits_struct(w.f, w.c.schema, key, fields, depth),
        crate::pso_laws::grow::grows(
            crate::pso_write::write_struct(w.c, key, Some(fields), st, fuel).1,
            w.end,
        ),
    ensures
        shared(own, w, key),
        crate::pso_write::write_struct(own, key, Some(fields), st, fuel2)
            == crate::pso_write::write_struct(w.c, key, Some(fields), st, fuel),
    decreases 66 - depth, 3int, 0int,
{
    crate::pso_laws::grow::lemma_struct_grows(w.c, key, Some(fields), st, fuel);
    crate::pso_laws::tree::lemma_known(w, key, fields, depth);
    lemma_shared(own, w, key);
    lemma_members_same(
        w,
        own,
        key,
        fields,
        st,
        fuel,
        fuel2,
        depth,
        w.c.schema.pso_structs[key].entries.len(),
    );
}

proof fn lemma_members_same(
    w: World,
    own: Context,
    key: u32,
    fields: Seq<(u32, ValueView)>,
    st: BuildState,
    fuel: nat,
    fuel2: nat,
    depth: nat,
    k: nat,
)
    requires
        within(own, w),
        shared(own, w, key),
        crate::pso_laws::fits::fits_struct(w.f, w.c.schema, key, fields, depth),
        k <= w.c.schema.pso_structs[key].entries.len(),
        crate::pso_laws::grow::grows(
            crate::pso_laws::tree::so_far(w, key, fields, st, fuel, k).1,
            w.end,
        ),
    ensures
        crate::pso_laws::tree::so_far(other(w, own), key, fields, st, fuel2, k)
            == crate::pso_laws::tree::so_far(w, key, fields, st, fuel, k),
    decreases 66 - depth, 2int, k,
{
    if k > 0 {
        let j = (k - 1) as nat;
        crate::pso_laws::tree::lemma_spot_grows(w, key, fields, st, fuel, j, k);
        crate::pso_laws::grow::lemma_grows_on(
            crate::pso_laws::tree::so_far(w, key, fields, st, fuel, j).1,
            crate::pso_laws::tree::so_far(w, key, fields, st, fuel, k).1,
            w.end,
        );
        lemma_members_same(w, own, key, fields, st, fuel, fuel2, depth, j);
        let def = w.c.schema.pso_structs[key];
        if def.entries[k - 1].name != ARRAYINFO {
            let p = crate::pso_laws::tree::spot_at(w, key, fields, st, fuel, 0, depth, k - 1);
            crate::pso_laws::tree::lemma_member_found(w, key, fields, depth, k - 1);
            crate::pso_laws::grow::lemma_members_grow(
                w.c,
                def,
                Some(fields),
                crate::bytes::zeros(def.size as int),
                crate::pso_write::use_struct(st, def.name),
                fuel,
                j,
            );
            crate::pso_laws::quiet::lemma_spot_after(w, key, fields, st, fuel, depth, k);
            crate::pso_laws::quiet::lemma_spot_after(
                other(w, own),
                key,
                fields,
                st,
                fuel2,
                depth,
                k,
            );
            lemma_member_same(p, own, fuel2);
            assert(twin(p, own, fuel2) == crate::pso_laws::tree::spot_at(
                other(w, own),
                key,
                fields,
                st,
                fuel2,
                0,
                depth,
                k - 1,
            ));
        }
    }
}

proof fn lemma_member_same(p: Spot, own: Context, fuel: nat)
    requires
        crate::pso_laws::quiet::fitting(p),
        within(own, p.w),
        crate::pso_laws::grow::grows(p.after().1, p.w.end),
    ensures
        twin(p, own, fuel).after() == p.after(),
    decreases 66 - p.depth, 9int, 0int,
{
    if p.e.ty == T_STRUCT {
        lemma_struct_member_same(p, own, fuel);
    } else if p.e.ty == T_ARRAY {
        lemma_array_same(p, own, fuel);
    } else if p.e.ty == T_MAP {
        lemma_map_same(p, own, fuel);
    } else if crate::pso_write::plain_need(p.e) is Some {
        lemma_plain_same(p, own, fuel);
    } else {
        reveal(Spot::after);
    }
}

/// Both schemas use the same enum, where the state with it used is on the way
/// to the end.
proof fn lemma_enum_same(w: World, own: Context, st: BuildState, key: u32)
    requires
        within(own, w),
        crate::pso_laws::grow::grows(crate::pso_write::use_enum(w.c, st, key), w.end),
    ensures
        crate::pso_write::use_enum(own, st, key) == crate::pso_write::use_enum(w.c, st, key),
{
    reveal(within);
    crate::pso_laws::grow::lemma_use_enum(w.c, st, key);
    if w.c.schema.pso_enums.contains_key(key) {
        assert(w.end.used_enums.contains(key));
    }
}

proof fn lemma_plain_after(p: Spot)
    requires
        crate::pso_write::plain_need(p.e) is Some,
        p.off() + crate::pso_write::plain_need(p.e)->0 <= p.buf.len(),
        crate::pso_write::plain_bytes(p.w.c, p.def, p.e, p.v) is Some,
    ensures
        p.after() == (
            crate::bytes::splice(
                p.buf,
                p.off(),
                crate::pso_write::plain_bytes(p.w.c, p.def, p.e, p.v)->0,
            ),
            crate::pso_write::plain_used(p.w.c, p.st, p.def, p.e),
        ),
{
    reveal(Spot::after);
}

/// A plain value that fits is stored, and the same by any schema.
proof fn lemma_plain_bytes(p: Spot, own: Context)
    requires
        crate::pso_laws::quiet::fitting(p),
        own.floats == p.w.c.floats,
        crate::pso_write::plain_need(p.e) is Some,
    ensures
        crate::pso_write::plain_bytes(p.w.c, p.def, p.e, p.v) is Some,
        crate::pso_write::plain_bytes(own, p.def, p.e, p.v) == crate::pso_write::plain_bytes(
            p.w.c,
            p.def,
            p.e,
            p.v,
        ),
{
    if p.e.ty != crate::pso_write::T_STRING && p.e.ty != T_ENUM && p.e.ty
        != crate::pso_write::T_FLAGS {
        crate::pso_laws::scalars::lemma_number(p.w.c, p.def, p.e, p.v);
    }
}

proof fn lemma_plain_same(p: Spot, own: Context, fuel: nat)
    requires
        crate::pso_laws::quiet::fitting(p),
        within(own, p.w),
        crate::pso_laws::grow::grows(p.after().1, p.w.end),
        crate::pso_write::plain_need(p.e) is Some,
    ensures
        twin(p, own, fuel).after() == p.after(),
{
    assert(own.floats == p.w.c.floats) by {
        reveal(within);
    }
    lemma_plain_bytes(p, own);
    lemma_plain_after(p);
    lemma_plain_after(twin(p, own, fuel));
    if p.e.ty == T_ENUM {
        lemma_enum_same(p.w, own, p.st, p.e.ref_key);
    } else if p.e.ty == crate::pso_write::T_FLAGS {
        lemma_enum_same(p.w, own, p.st, crate::pso_write::flags_enum(p.def, p.e));
    }
}

proof fn lemma_apart_same(w: World, own: Context, x: StructView, st: BuildState, depth: nat)
    requires
        within(own, w),
        crate::pso_laws::fits::fits_struct(w.f, w.c.schema, x.type_hash, x.fields, depth),
        crate::pso_laws::grow::grows(crate::pso_laws::tree::set_apart(w, x, st).0, w.end),
    ensures
        shared(own, w, x.type_hash),
        crate::pso_laws::tree::set_apart(other(w, own), x, st)
            == crate::pso_laws::tree::set_apart(w, x, st),
    decreases 66 - depth, 4int, 0int,
{
    reveal(crate::pso_laws::tree::set_apart);
    let key = x.type_hash;
    let full = crate::pso_write::full_fuel(w.c.schema);
    let r = crate::pso_write::write_struct(w.c, key, Some(x.fields), st, full);
    crate::pso_laws::grow::lemma_add(r.1, key, r.0);
    crate::pso_laws::grow::lemma_grows_on(
        r.1,
        crate::pso_laws::tree::set_apart(w, x, st).0,
        w.end,
    );
    lemma_struct_same(
        w,
        own,
        key,
        x.fields,
        st,
        full,
        crate::pso_write::full_fuel(own.schema),
        depth,
    );
}

proof fn lemma_struct_member_same(p: Spot, own: Context, fuel: nat)
    requires
        crate::pso_laws::quiet::fitting(p),
        within(own, p.w),
        crate::pso_laws::grow::grows(p.after().1, p.w.end),
        p.e.ty == T_STRUCT,
    ensures
        twin(p, own, fuel).after() == p.after(),
    decreases 66 - p.depth, 8int, 0int,
{
    if p.e.subtype == 0 {
        let key = p.e.ref_key;
        assert(crate::pso_laws::fits::fits_inline(p.w.f, p.w.c.schema, key, p.v, p.depth));
        let x = p.v->Struct_0;
        assert(p.v == ValueView::Struct(x));
        crate::pso_laws::tree::lemma_known(p.w, key, x.fields, p.depth);
        crate::pso_laws::tree::lemma_inline_struct_after(p, x);
        lemma_struct_same(
            p.w,
            own,
            key,
            x.fields,
            p.st,
            crate::pso_write::full_fuel(p.w.c.schema),
            crate::pso_write::full_fuel(own.schema),
            p.depth,
        );
        crate::pso_laws::tree::lemma_inline_struct_after(twin(p, own, fuel), x);
    } else {
        assert(crate::pso_laws::fits::fits_pointee(p.w.f, p.w.c.schema, p.v, p.depth));
        crate::pso_laws::tree::lemma_struct_ptr_after(p);
        crate::pso_laws::tree::lemma_struct_ptr_after(twin(p, own, fuel));
        match p.v {
            ValueView::Struct(x) => {
                crate::pso_laws::tree::lemma_known(p.w, x.type_hash, x.fields, p.depth);
                lemma_apart_same(p.w, own, x, p.st, p.depth);
            },
            _ => {},
        }
    }
}

// ─── arrays ──────────────────────────────────────────────────────────────────

proof fn lemma_other_item_same(p: Spot, own: Context, fuel: nat, i: int)
    requires
        crate::pso_laws::tree::listed(p),
        0 <= i < crate::pso_laws::tree::items(p).len(),
        own.floats == p.w.c.floats,
        crate::pso_laws::tree::elem(p).ty != T_STRUCT || (crate::pso_laws::tree::elem(p).subtype
            == 3 && !(crate::pso_laws::tree::items(p)[i] is Struct)),
        crate::pso_laws::tree::run_at(twin(p, own, fuel), i as nat)
            == crate::pso_laws::tree::run_at(p, i as nat),
    ensures
        crate::pso_laws::tree::item_at(twin(p, own, fuel), i)
            == crate::pso_laws::tree::item_at(p, i),
{
    reveal(crate::pso_laws::tree::item_at);
    crate::pso_laws::tree::lemma_item_fits(p, i);
}

proof fn lemma_item_same(p: Spot, own: Context, fuel: nat, i: int)
    requires
        crate::pso_laws::tree::listed(p),
        within(own, p.w),
        0 <= i < crate::pso_laws::tree::items(p).len(),
        crate::pso_laws::tree::run_at(twin(p, own, fuel), i as nat)
            == crate::pso_laws::tree::run_at(p, i as nat),
        crate::pso_laws::grow::grows(crate::pso_laws::tree::item_at(p, i).1, p.w.end),
    ensures
        crate::pso_laws::tree::item_at(twin(p, own, fuel), i)
            == crate::pso_laws::tree::item_at(p, i),
    decreases 66 - p.depth, 6int, 0int,
{
    let x = crate::pso_laws::tree::elem(p);
    let st = crate::pso_laws::tree::run_at(p, i as nat).1;
    crate::pso_laws::tree::lemma_item_fits(p, i);
    if x.ty == T_STRUCT && x.subtype != 3 {
        let s = crate::pso_laws::tree::items(p)[i]->Struct_0;
        crate::pso_laws::tree::lemma_struct_item(p, i);
        crate::pso_laws::tree::lemma_struct_item(twin(p, own, fuel), i);
        lemma_struct_same(
            p.w,
            own,
            x.ref_key,
            s.fields,
            st,
            crate::pso_write::full_fuel(p.w.c.schema),
            crate::pso_write::full_fuel(own.schema),
            p.depth,
        );
    } else if x.ty == T_STRUCT && crate::pso_laws::tree::items(p)[i] is Struct {
        let s = crate::pso_laws::tree::items(p)[i]->Struct_0;
        crate::pso_laws::tree::lemma_pointer_item(p, i);
        crate::pso_laws::tree::lemma_pointer_item(twin(p, own, fuel), i);
        crate::pso_laws::tree::lemma_known(p.w, s.type_hash, s.fields, p.depth);
        lemma_apart_same(p.w, own, s, st, p.depth);
    } else {
        assert(own.floats == p.w.c.floats) by {
            reveal(within);
        }
        lemma_other_item_same(p, own, fuel, i);
    }
}

proof fn lemma_run_same(p: Spot, own: Context, fuel: nat, k: nat)
    requires
        crate::pso_laws::tree::listed(p),
        within(own, p.w),
        k <= crate::pso_laws::tree::items(p).len(),
        crate::pso_laws::grow::grows(crate::pso_laws::tree::run_at(p, k).1, p.w.end),
    ensures
        crate::pso_laws::tree::run_at(twin(p, own, fuel), k)
            == crate::pso_laws::tree::run_at(p, k),
    decreases 66 - p.depth, 7int, k,
{
    if k == 0 {
        crate::pso_laws::tree::lemma_run_start(p);
        crate::pso_laws::tree::lemma_run_start(twin(p, own, fuel));
        if crate::pso_laws::tree::elem(p).ty == T_ENUM {
            lemma_enum_same(p.w, own, p.st, crate::pso_laws::tree::elem(p).ref_key);
        }
    } else {
        let j = (k - 1) as nat;
        crate::pso_laws::tree::lemma_run_grows(p, j, k);
        crate::pso_laws::grow::lemma_grows_on(
            crate::pso_laws::tree::run_at(p, j).1,
            crate::pso_laws::tree::run_at(p, k).1,
            p.w.end,
        );
        lemma_run_same(p, own, fuel, j);
        crate::pso_laws::tree::lemma_run_step(p, k);
        crate::pso_laws::tree::lemma_run_step(twin(p, own, fuel), k);
        if crate::pso_laws::tree::run_at(p, j).0 is Some {
            lemma_item_same(p, own, fuel, k - 1);
        }
    }
}

/// Both schemas know the structures that an array holds.
proof fn lemma_elements_shared(p: Spot, own: Context)
    requires
        crate::pso_laws::tree::listed(p),
        within(own, p.w),
        crate::pso_laws::tree::elem(p).ty == T_STRUCT,
        crate::pso_laws::tree::elem(p).subtype != 3,
        crate::pso_laws::grow::grows(
            crate::pso_laws::tree::run_at(p, crate::pso_laws::tree::items(p).len()).1,
            p.w.end,
        ),
    ensures
        shared(own, p.w, crate::pso_laws::tree::elem(p).ref_key),
{
    let n = crate::pso_laws::tree::items(p).len();
    let x = crate::pso_laws::tree::elem(p);
    crate::pso_laws::tree::lemma_item_fits(p, 0);
    let s = crate::pso_laws::tree::items(p)[0]->Struct_0;
    crate::pso_laws::tree::lemma_run_start(p);
    crate::pso_laws::tree::lemma_run_grows(p, 1, n);
    crate::pso_laws::tree::lemma_run_step(p, 1);
    crate::pso_laws::tree::lemma_struct_item(p, 0);
    crate::pso_laws::grow::lemma_grows_on(
        crate::pso_laws::tree::run_at(p, 1).1,
        crate::pso_laws::tree::run_at(p, n).1,
        p.w.end,
    );
    crate::pso_laws::tree::lemma_known(p.w, x.ref_key, s.fields, p.depth);
    crate::pso_laws::grow::lemma_struct_grows(
        p.w.c,
        x.ref_key,
        Some(s.fields),
        crate::pso_laws::tree::run_at(p, 0).1,
        crate::pso_write::full_fuel(p.w.c.schema),
    );
    assert(p.w.end.used_structs.contains(x.ref_key));
    lemma_shared(own, p.w, x.ref_key);
}

/// An array that stands in its structure, written the same by both.
proof fn lemma_inline_twin(p: Spot, own: Context, fuel: nat)
    requires
        crate::pso_laws::tree::listed(p),
        !crate::pso_laws::fits::is_apart(p.e, crate::pso_laws::tree::elem(p)),
        crate::pso_write::run_refused(p.w.c, crate::pso_laws::tree::elem(p)) is None,
        crate::pso_write::run_refused(own, crate::pso_laws::tree::elem(p)) is None,
        crate::pso_laws::tree::run_at(
            twin(p, own, fuel),
            crate::pso_laws::tree::items(p).len(),
        ) == crate::pso_laws::tree::run_at(p, crate::pso_laws::tree::items(p).len()),
    ensures
        twin(p, own, fuel).after() == p.after(),
{
    reveal(Spot::after);
    reveal(crate::pso_laws::tree::run_at);
    let items = crate::pso_laws::tree::items(p);
    assert(items.take(items.len() as int) =~= items);
}

proof fn lemma_array_same(p: Spot, own: Context, fuel: nat)
    requires
        crate::pso_laws::quiet::fitting(p),
        within(own, p.w),
        crate::pso_laws::grow::grows(p.after().1, p.w.end),
        p.e.ty == T_ARRAY,
    ensures
        twin(p, own, fuel).after() == p.after(),
    decreases 66 - p.depth, 8int, 0int,
{
    let items = crate::pso_laws::tree::items(p);
    let x = crate::pso_laws::tree::elem(p);
    let t = twin(p, own, fuel);
    if items.len() == 0 {
        crate::pso_laws::tree::lemma_apart_after(p);
        crate::pso_laws::tree::lemma_apart_after(t);
    } else {
        let n = items.len();
        assert(crate::pso_laws::tree::listed(p));
        crate::pso_laws::tree::lemma_array_kind(p);
        crate::pso_laws::tree::lemma_run_stands(p, n, 0);
        let r = crate::pso_laws::tree::run_at(p, n);
        if crate::pso_laws::fits::is_apart(p.e, x) {
            crate::pso_laws::tree::lemma_apart_after(p);
            let name = crate::pso_write::run_block(p.w.c, x);
            crate::pso_laws::grow::lemma_add(r.1, name, r.0->0);
            crate::pso_laws::grow::lemma_grows_on(
                r.1,
                crate::pso_write::add_item(r.1, name, r.0->0).0,
                p.w.end,
            );
        } else {
            assert(p.room() == n * crate::pso_laws::tree::stride(p));
            crate::pso_laws::tree::lemma_inline_after(p);
        }
        lemma_run_same(p, own, fuel, n);
        if x.ty == T_STRUCT && x.subtype != 3 {
            lemma_elements_shared(p, own);
        }
        if crate::pso_laws::fits::is_apart(p.e, x) {
            crate::pso_laws::tree::lemma_apart_after(t);
        } else {
            lemma_inline_twin(p, own, fuel);
        }
    }
}

// ─── maps ────────────────────────────────────────────────────────────────────

proof fn lemma_pairs_same(p: Spot, own: Context, fuel: nat, k: nat)
    requires
        crate::pso_laws::tree::mapped(p),
        within(own, p.w),
        shared(own, p.w, crate::pso_laws::tree::pair_key(p)),
        k <= crate::pso_laws::tree::pairs(p).len(),
        crate::pso_laws::grow::grows(crate::pso_laws::tree::pairs_at(p, k).1, p.w.end),
    ensures
        crate::pso_laws::tree::pairs_at(twin(p, own, fuel), k)
            == crate::pso_laws::tree::pairs_at(p, k),
    decreases 66 - p.depth, 7int, k,
{
    let t = twin(p, own, fuel);
    if k == 0 {
        crate::pso_laws::tree::lemma_pairs_start(p);
        crate::pso_laws::tree::lemma_pairs_start(t);
    } else {
        let j = (k - 1) as nat;
        let i = k - 1;
        crate::pso_laws::tree::lemma_pairs_step(p, k);
        crate::pso_laws::tree::lemma_pairs_step(t, k);
        crate::pso_laws::grow::lemma_grows_on(
            crate::pso_laws::tree::pairs_at(p, j).1,
            crate::pso_laws::tree::pair_run(p, i).1,
            p.w.end,
        );
        lemma_pairs_same(p, own, fuel, j);
        reveal(crate::pso_laws::tree::pair_run);
        let key = crate::pso_laws::tree::pair_key(p);
        let pair = crate::pso_laws::tree::pairs(p)[i];
        assert(crate::pso_laws::tree::pair_at(p, i) == crate::pso_write::pair_fields(
            crate::pso_laws::fits::pair_names(p.w.c.schema, key),
            pair,
        ));
        lemma_struct_same(
            p.w,
            own,
            key,
            crate::pso_laws::tree::pair_at(p, i),
            crate::pso_laws::tree::pairs_at(p, j).1,
            crate::pso_write::full_fuel(p.w.c.schema),
            crate::pso_write::full_fuel(own.schema),
            p.depth,
        );
    }
}

/// Both schemas know the pairs of a map.
proof fn lemma_pairs_shared(p: Spot, own: Context)
    requires
        crate::pso_laws::tree::mapped(p),
        within(own, p.w),
        p.w.c.schema.pso_structs.contains_key(crate::pso_laws::tree::pair_key(p)),
        p.w.c.schema.pso_structs[crate::pso_laws::tree::pair_key(p)].name
            == crate::pso_laws::tree::pair_key(p),
        crate::pso_laws::grow::grows(
            crate::pso_laws::tree::pairs_at(p, crate::pso_laws::tree::pairs(p).len()).1,
            p.w.end,
        ),
    ensures
        shared(own, p.w, crate::pso_laws::tree::pair_key(p)),
{
    let n = crate::pso_laws::tree::pairs(p).len();
    let key = crate::pso_laws::tree::pair_key(p);
    crate::pso_laws::tree::lemma_pairs_grow(p, 1, n);
    crate::pso_laws::tree::lemma_pairs_step(p, 1);
    crate::pso_laws::grow::lemma_grows_on(
        crate::pso_laws::tree::pairs_at(p, 1).1,
        crate::pso_laws::tree::pairs_at(p, n).1,
        p.w.end,
    );
    reveal(crate::pso_laws::tree::pair_run);
    crate::pso_laws::grow::lemma_struct_grows(
        p.w.c,
        key,
        Some(crate::pso_laws::tree::pair_at(p, 0)),
        crate::pso_laws::tree::pairs_at(p, 0).1,
        crate::pso_write::full_fuel(p.w.c.schema),
    );
    assert(p.w.end.used_structs.contains(key));
    lemma_shared(own, p.w, key);
}

/// A map, written the same by both.
proof fn lemma_map_twin(p: Spot, own: Context, fuel: nat)
    requires
        p.e.ty == T_MAP,
        p.v is Pairs,
        crate::pso_laws::tree::pairs(p).len() > 0 ==> {
            let key = crate::pso_laws::tree::pair_key(p);
            let n = crate::pso_laws::tree::pairs(p).len();
            &&& p.e.ref_key % 0x1_0000 < p.def.entries.len()
            &&& p.w.c.schema.pso_structs.contains_key(key)
            &&& own.schema.pso_structs.contains_key(key)
            &&& crate::pso_laws::tree::pairs_at(twin(p, own, fuel), n)
                == crate::pso_laws::tree::pairs_at(p, n)
        },
    ensures
        twin(p, own, fuel).after() == p.after(),
{
    reveal(Spot::after);
    reveal(crate::pso_laws::tree::pairs_at);
}

proof fn lemma_map_same(p: Spot, own: Context, fuel: nat)
    requires
        crate::pso_laws::quiet::fitting(p),
        within(own, p.w),
        crate::pso_laws::grow::grows(p.after().1, p.w.end),
        p.e.ty == T_MAP,
    ensures
        twin(p, own, fuel).after() == p.after(),
    decreases 66 - p.depth, 8int, 0int,
{
    let n = crate::pso_laws::tree::pairs(p).len();
    if n > 0 {
        assert(crate::pso_laws::tree::mapped(p));
        let key = crate::pso_laws::tree::pair_key(p);
        let first = crate::pso_laws::tree::pair_at(p, 0);
        assert(crate::pso_laws::tree::pairs(p)[0] == p.v->Pairs_0[0]);
        assert(crate::pso_laws::fits::fits_struct(
            p.w.f,
            p.w.c.schema,
            key,
            first,
            p.depth,
        ));
        crate::pso_laws::tree::lemma_known(p.w, key, first, p.depth);
        crate::pso_laws::tree::lemma_map_after(p);
        let r = crate::pso_laws::tree::pairs_at(p, n);
        crate::pso_laws::grow::lemma_add(r.1, key, r.0);
        crate::pso_laws::grow::lemma_grows_on(
            r.1,
            crate::pso_write::add_item(r.1, key, r.0).0,
            p.w.end,
        );
        lemma_pairs_shared(p, own);
        lemma_pairs_same(p, own, fuel, n);
    }
    lemma_map_twin(p, own, fuel);
}

// ─── the schema of a file ────────────────────────────────────────────────────

/// Whether every enum of a schema is known by its own name, and structures
/// and enums are marked as what they are.
pub open spec fn well_marked(s: SchemaView) -> bool {
    &&& forall|key: u32| #[trigger]
        s.pso_enums.contains_key(key) ==> s.pso_enums[key].name == key && s.pso_enums[key].ty == 1
    &&& forall|key: u32| #[trigger]
        s.pso_structs.contains_key(key) ==> s.pso_structs[key].ty == 0
}

/// The schema that a file carries.
pub open spec fn carried(c: Context, st: BuildState) -> SchemaView {
    let structs = crate::pso_laws::file::carried_structs(c, st);
    let enums = crate::pso_laws::file::carried_enums(c, st);
    SchemaView {
        pso_structs: crate::pso_laws::file::struct_defs(structs, structs.len()),
        pso_enums: crate::pso_laws::file::enum_defs(enums, enums.len()),
        ..crate::schema::no_schema()
    }
}

/// Whether one schema is what another says of some structures and enums, and
/// nothing else.
pub open spec fn is_part(own: SchemaView, all: SchemaView, st: BuildState) -> bool {
    &&& forall|key: u32|
        #![trigger own.pso_structs.contains_key(key)]
        own.pso_structs.contains_key(key) <==> st.used_structs.contains(key)
            && all.pso_structs.contains_key(key)
    &&& forall|key: u32|
        #![trigger own.pso_structs[key]]
        own.pso_structs.contains_key(key) ==> own.pso_structs[key] == all.pso_structs[key]
    &&& forall|key: u32|
        #![trigger own.pso_enums.contains_key(key)]
        own.pso_enums.contains_key(key) <==> st.used_enums.contains(key)
            && all.pso_enums.contains_key(key)
    &&& forall|key: u32|
        #![trigger own.pso_enums[key]]
        own.pso_enums.contains_key(key) ==> own.pso_enums[key] == all.pso_enums[key]
    &&& own.meta_structs == Map::<u32, crate::schema::MetaStructDefView>::empty()
    &&& own.meta_enums == Map::<u32, crate::schema::MetaEnumDefView>::empty()
}

proof fn lemma_one_more(names: Seq<u32>, n: nat, key: u32)
    requires
        0 < n <= names.len(),
    ensures
        names.take(n as int).contains(key) <==> names.take(n - 1).contains(key) || key == names[n
            - 1],
{
    let all = names.take(n as int);
    let few = names.take(n - 1);
    assert(all[n - 1] == names[n - 1]);
    if few.contains(key) {
        let i = choose|i: int| 0 <= i < few.len() && few[i] == key;
        assert(all[i] == key);
    }
    if all.contains(key) && key != names[n - 1] {
        let i = choose|i: int| 0 <= i < all.len() && all[i] == key;
        assert(few[i] == key);
    }
}

proof fn lemma_structs_carried(c: Context, names: Seq<u32>, n: nat, key: u32)
    requires
        crate::pso_laws::file::well_named(c.schema),
        well_marked(c.schema),
        n <= names.len(),
    ensures
        ({
            let defs = crate::pso_laws::file::structs_of(c, names, n);
            let m = crate::pso_laws::file::struct_defs(defs, defs.len());
            &&& m.contains_key(key) <==> names.take(n as int).contains(key)
                && c.schema.pso_structs.contains_key(key)
            &&& m.contains_key(key) ==> m[key] == c.schema.pso_structs[key]
        }),
    decreases n,
{
    let defs = crate::pso_laws::file::structs_of(c, names, n);
    if n > 0 {
        lemma_structs_carried(c, names, (n - 1) as nat, key);
        let before = crate::pso_laws::file::structs_of(c, names, (n - 1) as nat);
        let last = names[n - 1];
        lemma_one_more(names, n, key);
        if c.schema.pso_structs.contains_key(last) {
            assert(defs == before.push(c.schema.pso_structs[last]));
            lemma_structs_prefix(before, defs, before.len());
        }
    } else {
        assert(names.take(0).len() == 0);
    }
}

proof fn lemma_structs_prefix(
    a: Seq<PsoStructDefView>,
    b: Seq<PsoStructDefView>,
    k: nat,
)
    requires
        k <= a.len() <= b.len(),
        forall|i: int| 0 <= i < k ==> #[trigger] b[i] == a[i],
    ensures
        crate::pso_laws::file::struct_defs(a, k) == crate::pso_laws::file::struct_defs(b, k),
    decreases k,
{
    if k > 0 {
        lemma_structs_prefix(a, b, (k - 1) as nat);
        assert(b[k - 1] == a[k - 1]);
    }
}

proof fn lemma_enums_carried(c: Context, names: Seq<u32>, n: nat, key: u32)
    requires
        well_marked(c.schema),
        n <= names.len(),
    ensures
        ({
            let defs = crate::pso_laws::file::enums_of(c, names, n);
            let m = crate::pso_laws::file::enum_defs(defs, defs.len());
            &&& m.contains_key(key) <==> names.take(n as int).contains(key)
                && c.schema.pso_enums.contains_key(key)
            &&& m.contains_key(key) ==> m[key] == c.schema.pso_enums[key]
        }),
    decreases n,
{
    let defs = crate::pso_laws::file::enums_of(c, names, n);
    if n > 0 {
        lemma_enums_carried(c, names, (n - 1) as nat, key);
        let before = crate::pso_laws::file::enums_of(c, names, (n - 1) as nat);
        let last = names[n - 1];
        lemma_one_more(names, n, key);
        if c.schema.pso_enums.contains_key(last) {
            assert(defs == before.push(c.schema.pso_enums[last]));
            lemma_enums_prefix(before, defs, before.len());
        }
    } else {
        assert(names.take(0).len() == 0);
    }
}

proof fn lemma_enums_prefix(
    a: Seq<PsoEnumDefView>,
    b: Seq<PsoEnumDefView>,
    k: nat,
)
    requires
        k <= a.len() <= b.len(),
        forall|i: int| 0 <= i < k ==> #[trigger] b[i] == a[i],
    ensures
        crate::pso_laws::file::enum_defs(a, k) == crate::pso_laws::file::enum_defs(b, k),
    decreases k,
{
    if k > 0 {
        lemma_enums_prefix(a, b, (k - 1) as nat);
        assert(b[k - 1] == a[k - 1]);
    }
}

proof fn lemma_carried(c: Context, st: BuildState)
    requires
        crate::pso_laws::file::well_named(c.schema),
        well_marked(c.schema),
    ensures
        is_part(carried(c, st), c.schema, st),
{
    let own = carried(c, st);
    let (a, b) = (st.used_structs, st.used_enums);
    assert(a.take(a.len() as int) =~= a);
    assert(b.take(b.len() as int) =~= b);
    assert forall|key: u32|
        #![trigger own.pso_structs.contains_key(key)]
        (own.pso_structs.contains_key(key) <==> a.contains(key)
            && c.schema.pso_structs.contains_key(key)) && (own.pso_structs.contains_key(key)
            ==> own.pso_structs[key] == c.schema.pso_structs[key]) by {
        lemma_structs_carried(c, a, a.len(), key);
    }
    assert forall|key: u32|
        #![trigger own.pso_enums.contains_key(key)]
        (own.pso_enums.contains_key(key) <==> b.contains(key)
            && c.schema.pso_enums.contains_key(key)) && (own.pso_enums.contains_key(key)
            ==> own.pso_enums[key] == c.schema.pso_enums[key]) by {
        lemma_enums_carried(c, b, b.len(), key);
    }
}

/// The schema that is read from a built file holds the type of the root, and
/// every definition in it is the one of the same name in the schema that the
/// file was built by. It holds nothing of the other format.
pub proof fn law_built_schemas_are_parts(c: Context, root: StructView)
    requires
        crate::pso_laws::file::well_named(c.schema),
        well_marked(c.schema),
        c.schema.pso_structs.contains_key(root.type_hash),
        crate::pso_laws::file::countable(c, crate::pso_laws::file::whole(c, root).0),
    ensures
        ({
            let end = crate::pso_laws::file::whole(c, root).0;
            let own = carried(c, end);
            &&& crate::schema::with_pso_sections(
                crate::schema::no_schema(),
                crate::pso_write::built(c, root).0,
                0,
            ) == Ok::<SchemaView, SchemaErrorView>(own)
            &&& is_part(own, c.schema, end)
            &&& own.pso_structs.contains_key(root.type_hash)
        }),
{
    let end = crate::pso_laws::file::whole(c, root).0;
    let r = crate::pso_laws::file::before_root(c, root);
    let name = c.schema.pso_structs[root.type_hash].name;
    crate::pso_laws::file::law_assembled_schemas_read_back(
        c,
        end,
        (crate::pso_laws::file::whole(c, root).1 % 0x1000) as u32,
    );
    lemma_carried(c, end);
    crate::pso_laws::grow::lemma_struct_grows(
        c,
        root.type_hash,
        Some(root.fields),
        crate::pso_write::fresh(),
        crate::pso_write::full_fuel(c.schema),
    );
    crate::pso_laws::grow::lemma_add(r.1, name, r.0);
    assert(end.used_structs.contains(root.type_hash));
    assert(carried(c, end).pso_structs.contains_key(root.type_hash));
}

proof fn lemma_same_structs(a: Context, b: Context, names: Seq<u32>, n: nat)
    requires
        n <= names.len(),
        forall|i: int|
            0 <= i < n ==> a.schema.pso_structs.contains_key(#[trigger] names[i])
                == b.schema.pso_structs.contains_key(names[i]) && (
            a.schema.pso_structs.contains_key(names[i]) ==> a.schema.pso_structs[names[i]]
                == b.schema.pso_structs[names[i]]),
    ensures
        crate::pso_write::struct_parts(a, names, n) == crate::pso_write::struct_parts(
            b,
            names,
            n,
        ),
    decreases n,
{
    if n > 0 {
        lemma_same_structs(a, b, names, (n - 1) as nat);
        assert(a.schema.pso_structs.contains_key(names[n - 1])
            == b.schema.pso_structs.contains_key(names[n - 1]));
    }
}

proof fn lemma_same_enums(a: Context, b: Context, names: Seq<u32>, n: nat)
    requires
        n <= names.len(),
        forall|i: int|
            0 <= i < n ==> a.schema.pso_enums.contains_key(#[trigger] names[i])
                == b.schema.pso_enums.contains_key(names[i]) && (
            a.schema.pso_enums.contains_key(names[i]) ==> a.schema.pso_enums[names[i]]
                == b.schema.pso_enums[names[i]]),
    ensures
        crate::pso_write::enum_parts(a, names, n) == crate::pso_write::enum_parts(b, names, n),
    decreases n,
{
    if n > 0 {
        lemma_same_enums(a, b, names, (n - 1) as nat);
        assert(a.schema.pso_enums.contains_key(names[n - 1])
            == b.schema.pso_enums.contains_key(names[n - 1]));
    }
}

/// A tree that fits its schema builds to the very same file by the schema that
/// the file itself carries, and without a warning.
pub proof fn law_own_schemas_rebuild(f: PsoView, c: Context, root: StructView)
    requires
        crate::pso_laws::file::well_named(c.schema),
        well_marked(c.schema),
        crate::pso_laws::fits::fits_struct(f, c.schema, root.type_hash, root.fields, 0),
    ensures
        ({
            let end = crate::pso_laws::file::whole(c, root).0;
            let own = Context { schema: carried(c, end), ..c };
            &&& own.schema.pso_structs.contains_key(root.type_hash)
            &&& crate::pso_write::built(own, root) == crate::pso_write::built(c, root)
            &&& crate::pso_write::built(c, root).1.len() == 0
            &&& !crate::pso_write::endless(own, root)
        }),
{
    let end = crate::pso_laws::file::whole(c, root).0;
    let own = Context { schema: carried(c, end), ..c };
    let w = World { f, c, end };
    let key = root.type_hash;
    let full = crate::pso_write::full_fuel(c.schema);
    crate::pso_laws::quiet::law_fitting_trees_build_quietly(f, c, root);
    lemma_carried(c, end);
    crate::pso_laws::tree::lemma_known(w, key, root.fields, 0);
    let st = crate::pso_write::fresh();
    let r = crate::pso_laws::file::before_root(c, root);
    crate::pso_laws::grow::lemma_add(r.1, key, r.0);
    assert(within(own, w)) by {
        reveal(within);
    }
    lemma_struct_same(
        w,
        own,
        key,
        root.fields,
        st,
        full,
        crate::pso_write::full_fuel(own.schema),
        0,
    );
    let (a, b) = (end.used_structs, end.used_enums);
    assert forall|i: int| 0 <= i < a.len() implies own.schema.pso_structs.contains_key(
        #[trigger] a[i],
    ) == c.schema.pso_structs.contains_key(a[i]) && (own.schema.pso_structs.contains_key(a[i])
        ==> own.schema.pso_structs[a[i]] == c.schema.pso_structs[a[i]]) by {
        assert(a.contains(a[i]));
    }
    assert forall|i: int| 0 <= i < b.len() implies own.schema.pso_enums.contains_key(
        #[trigger] b[i],
    ) == c.schema.pso_enums.contains_key(b[i]) && (own.schema.pso_enums.contains_key(b[i])
        ==> own.schema.pso_enums[b[i]] == c.schema.pso_enums[b[i]]) by {
        assert(b.contains(b[i]));
    }
    lemma_same_structs(own, c, a, a.len());
    lemma_same_enums(own, c, b, b.len());
}

} // verus!
