//! A tree that fits its schema is written without a warning.

use vstd::prelude::*;

use crate::pso::PsoView;
use crate::pso_laws::spots::{Spot, World};
use crate::pso_write::{BuildState, Context, T_ARRAY, T_ENUM, T_FLAGS, T_MAP, T_STRING, T_STRUCT};
use crate::schema::ARRAYINFO;
use crate::value::{StructView, ValueView};

verus! {

/// Whether a member has its room, and its value fits.
pub open spec fn fitting(p: Spot) -> bool {
    &&& p.off() + p.room() <= p.buf.len()
    &&& crate::pso_laws::fits::fits_member(
        p.w.f,
        p.w.c.schema,
        p.def,
        p.e,
        p.v,
        p.depth,
    )
}

/// Whether nothing was warned of, and nothing held itself, on the way from `b`
/// to `a`.
spec fn calm(a: BuildState, b: BuildState) -> bool {
    &&& a.warnings == b.warnings
    &&& a.endless == b.endless
}

/// Whether writing a member warns of nothing.
spec fn is_quiet(p: Spot) -> bool {
    calm(p.after().1, p.st)
}

proof fn lemma_struct_quiet(
    f: PsoView,
    c: Context,
    key: u32,
    fields: Seq<(u32, ValueView)>,
    st: BuildState,
    fuel: nat,
    depth: nat,
)
    requires
        crate::pso_laws::fits::fits_struct(f, c.schema, key, fields, depth),
    ensures
        calm(crate::pso_write::write_struct(c, key, Some(fields), st, fuel).1, st),
    decreases 66 - depth, 3int, 0int,
{
    let w = World { f, c, end: st };
    lemma_members_quiet(w, key, fields, st, fuel, depth, c.schema.pso_structs[key].entries.len());
}

proof fn lemma_members_quiet(
    w: World,
    key: u32,
    fields: Seq<(u32, ValueView)>,
    st: BuildState,
    fuel: nat,
    depth: nat,
    k: nat,
)
    requires
        crate::pso_laws::fits::fits_struct(w.f, w.c.schema, key, fields, depth),
        k <= w.c.schema.pso_structs[key].entries.len(),
    ensures
        calm(crate::pso_laws::tree::so_far(w, key, fields, st, fuel, k).1, st),
    decreases 66 - depth, 2int, k,
{
    if k > 0 {
        lemma_members_quiet(w, key, fields, st, fuel, depth, (k - 1) as nat);
        let def = w.c.schema.pso_structs[key];
        let e = def.entries[k - 1];
        if e.name != ARRAYINFO {
            let p = crate::pso_laws::tree::spot_at(w, key, fields, st, fuel, 0, depth, k - 1);
            crate::pso_laws::tree::lemma_member_found(w, key, fields, depth, k - 1);
            crate::pso_laws::grow::lemma_members_grow(
                w.c,
                def,
                Some(fields),
                crate::bytes::zeros(def.size as int),
                crate::pso_write::use_struct(st, def.name),
                fuel,
                (k - 1) as nat,
            );
            lemma_spot_after(w, key, fields, st, fuel, depth, k);
            lemma_member_quiet(p);
        }
    }
}

pub proof fn lemma_spot_after(
    w: World,
    key: u32,
    fields: Seq<(u32, ValueView)>,
    st: BuildState,
    fuel: nat,
    depth: nat,
    k: nat,
)
    requires
        0 < k <= w.c.schema.pso_structs[key].entries.len(),
        w.c.schema.pso_structs[key].entries[k - 1].name != ARRAYINFO,
        ({
            let entries = w.c.schema.pso_structs[key].entries;
            let i = crate::pso_laws::fits::valued(entries, (k - 1) as nat) as int;
            crate::pso_write::member_value(Some(fields), entries[k - 1].name) == Some(fields[i].1)
        }),
    ensures
        crate::pso_laws::tree::spot_at(w, key, fields, st, fuel, 0, depth, k - 1).after()
            == crate::pso_laws::tree::so_far(w, key, fields, st, fuel, k),
{
    reveal(Spot::after);
}

proof fn lemma_member_quiet(p: Spot)
    requires
        fitting(p),
    ensures
        is_quiet(p),
    decreases 66 - p.depth, 9int, 0int,
{
    if p.e.ty == T_STRUCT {
        lemma_struct_member_quiet(p);
    } else if p.e.ty == T_ARRAY {
        lemma_array_quiet(p);
    } else if p.e.ty == T_MAP {
        lemma_map_quiet(p);
    } else {
        lemma_simple_quiet(p);
    }
}

proof fn lemma_simple_quiet(p: Spot)
    requires
        fitting(p),
        p.e.ty != T_STRUCT && p.e.ty != T_ARRAY && p.e.ty != T_MAP,
    ensures
        is_quiet(p),
{
    reveal(Spot::after);
    if p.e.ty != T_STRING && p.e.ty != T_ENUM && p.e.ty != T_FLAGS {
        crate::pso_laws::scalars::lemma_number(p.w.c, p.def, p.e, p.v);
    }
}

/// A structure is stored in a block without a warning.
proof fn lemma_set_apart_quiet(w: World, x: StructView, st: BuildState, depth: nat)
    requires
        crate::pso_laws::fits::fits_struct(w.f, w.c.schema, x.type_hash, x.fields, depth),
    ensures
        calm(crate::pso_laws::tree::set_apart(w, x, st).0, st),
    decreases 66 - depth, 4int, 0int,
{
    reveal(crate::pso_laws::tree::set_apart);
    lemma_struct_quiet(
        w.f,
        w.c,
        x.type_hash,
        x.fields,
        st,
        crate::pso_write::full_fuel(w.c.schema),
        depth,
    );
}

proof fn lemma_struct_member_quiet(p: Spot)
    requires
        fitting(p),
        p.e.ty == T_STRUCT,
    ensures
        is_quiet(p),
    decreases 66 - p.depth, 8int, 0int,
{
    if p.e.subtype == 0 {
        let key = p.e.ref_key;
        assert(crate::pso_laws::fits::fits_inline(p.w.f, p.w.c.schema, key, p.v, p.depth));
        let x = p.v->Struct_0;
        assert(p.v == ValueView::Struct(x));
        crate::pso_laws::tree::lemma_known(p.w, key, x.fields, p.depth);
        crate::pso_laws::tree::lemma_inline_struct_after(p, x);
        lemma_struct_quiet(
            p.w.f,
            p.w.c,
            key,
            x.fields,
            p.st,
            crate::pso_write::full_fuel(p.w.c.schema),
            p.depth,
        );
    } else {
        assert(crate::pso_laws::fits::fits_pointee(p.w.f, p.w.c.schema, p.v, p.depth));
        crate::pso_laws::tree::lemma_struct_ptr_after(p);
        match p.v {
            ValueView::Struct(x) => {
                crate::pso_laws::tree::lemma_known(p.w, x.type_hash, x.fields, p.depth);
                lemma_set_apart_quiet(p.w, x, p.st, p.depth);
            },
            _ => {},
        }
    }
}

// ─── arrays ──────────────────────────────────────────────────────────────────

proof fn lemma_item_quiet(p: Spot, i: int)
    requires
        crate::pso_laws::tree::listed(p),
        0 <= i < crate::pso_laws::tree::items(p).len(),
    ensures
        calm(crate::pso_laws::tree::item_at(p, i).1, crate::pso_laws::tree::run_at(
            p,
            i as nat,
        ).1),
    decreases 66 - p.depth, 6int, 0int,
{
    let x = crate::pso_laws::tree::elem(p);
    let st = crate::pso_laws::tree::run_at(p, i as nat).1;
    crate::pso_laws::tree::lemma_item_fits(p, i);
    if x.ty == T_STRUCT && x.subtype != 3 {
        let s = crate::pso_laws::tree::items(p)[i]->Struct_0;
        crate::pso_laws::tree::lemma_struct_item(p, i);
        lemma_struct_quiet(
            p.w.f,
            p.w.c,
            x.ref_key,
            s.fields,
            st,
            crate::pso_write::full_fuel(p.w.c.schema),
            p.depth,
        );
    } else if x.ty == T_STRUCT {
        crate::pso_laws::tree::lemma_pointer_item(p, i);
        match crate::pso_laws::tree::items(p)[i] {
            ValueView::Struct(s) => {
                crate::pso_laws::tree::lemma_known(p.w, s.type_hash, s.fields, p.depth);
                lemma_set_apart_quiet(p.w, s, st, p.depth);
            },
            _ => {
                lemma_other_item_quiet(p, i);
            },
        }
    } else {
        lemma_other_item_quiet(p, i);
    }
}

proof fn lemma_other_item_quiet(p: Spot, i: int)
    requires
        crate::pso_laws::tree::elem(p).ty != T_STRUCT || (crate::pso_laws::tree::elem(p).subtype == 3
            && !(crate::pso_laws::tree::items(p)[i] is Struct)),
    ensures
        calm(crate::pso_laws::tree::item_at(p, i).1, crate::pso_laws::tree::run_at(
            p,
            i as nat,
        ).1),
{
    reveal(crate::pso_laws::tree::item_at);
}

proof fn lemma_run_quiet(p: Spot, k: nat)
    requires
        crate::pso_laws::tree::listed(p),
        k <= crate::pso_laws::tree::items(p).len(),
    ensures
        calm(crate::pso_laws::tree::run_at(p, k).1, p.st),
    decreases 66 - p.depth, 7int, k,
{
    if k == 0 {
        crate::pso_laws::tree::lemma_run_start(p);
    } else {
        lemma_run_quiet(p, (k - 1) as nat);
        crate::pso_laws::tree::lemma_run_step(p, k);
        lemma_item_quiet(p, k - 1);
    }
}

proof fn lemma_array_quiet(p: Spot)
    requires
        fitting(p),
        p.e.ty == T_ARRAY,
    ensures
        is_quiet(p),
    decreases 66 - p.depth, 8int, 0int,
{
    let items = crate::pso_laws::tree::items(p);
    let x = crate::pso_laws::tree::elem(p);
    if items.len() == 0 {
        crate::pso_laws::tree::lemma_apart_after(p);
    } else {
        let all = items.len();
        assert(crate::pso_laws::tree::listed(p));
        crate::pso_laws::tree::lemma_array_kind(p);
        crate::pso_laws::tree::lemma_run_stands(p, all, 0);
        lemma_run_quiet(p, all);
        if crate::pso_laws::fits::is_apart(p.e, x) {
            crate::pso_laws::tree::lemma_apart_after(p);
        } else {
            assert(p.room() == all * crate::pso_laws::tree::stride(p));
            crate::pso_laws::tree::lemma_inline_after(p);
        }
    }
}

// ─── maps ────────────────────────────────────────────────────────────────────

proof fn lemma_pairs_quiet(p: Spot, k: nat)
    requires
        crate::pso_laws::tree::mapped(p),
        k <= crate::pso_laws::tree::pairs(p).len(),
    ensures
        calm(crate::pso_laws::tree::pairs_at(p, k).1, p.st),
    decreases 66 - p.depth, 7int, k,
{
    if k == 0 {
        crate::pso_laws::tree::lemma_pairs_start(p);
    } else {
        lemma_pairs_quiet(p, (k - 1) as nat);
        crate::pso_laws::tree::lemma_pairs_step(p, k);
        lemma_pair_quiet(p, k - 1);
    }
}

proof fn lemma_pair_quiet(p: Spot, i: int)
    requires
        crate::pso_laws::tree::mapped(p),
        0 <= i < crate::pso_laws::tree::pairs(p).len(),
    ensures
        calm(crate::pso_laws::tree::pair_run(p, i).1, crate::pso_laws::tree::pairs_at(
            p,
            i as nat,
        ).1),
    decreases 66 - p.depth, 6int, 0int,
{
    reveal(crate::pso_laws::tree::pair_run);
    let key = crate::pso_laws::tree::pair_key(p);
    let pair = crate::pso_laws::tree::pairs(p)[i];
    assert(crate::pso_laws::tree::pair_at(p, i) == crate::pso_write::pair_fields(
        crate::pso_laws::fits::pair_names(p.w.c.schema, key),
        pair,
    ));
    lemma_struct_quiet(
        p.w.f,
        p.w.c,
        key,
        crate::pso_laws::tree::pair_at(p, i),
        crate::pso_laws::tree::pairs_at(p, i as nat).1,
        crate::pso_write::full_fuel(p.w.c.schema),
        p.depth,
    );
}

proof fn lemma_empty_map_quiet(p: Spot)
    requires
        fitting(p),
        p.e.ty == T_MAP,
        crate::pso_laws::tree::pairs(p).len() == 0,
    ensures
        is_quiet(p),
{
    reveal(Spot::after);
}

proof fn lemma_map_quiet(p: Spot)
    requires
        fitting(p),
        p.e.ty == T_MAP,
    ensures
        is_quiet(p),
    decreases 66 - p.depth, 8int, 0int,
{
    if crate::pso_laws::tree::pairs(p).len() == 0 {
        lemma_empty_map_quiet(p);
    } else {
        assert(crate::pso_laws::tree::mapped(p));
        let key = crate::pso_laws::tree::pair_key(p);
        let first = crate::pso_laws::tree::pair_at(p, 0);
        assert(crate::pso_laws::tree::pairs(p)[0] == p.v->Pairs_0[0]);
        assert(crate::pso_laws::fits::fits_struct(
            p.w.f,
            p.w.c.schema,
            key,
            first,
            p.depth,
        ));
        crate::pso_laws::tree::lemma_known(p.w, key, first, p.depth);
        lemma_pairs_quiet(p, crate::pso_laws::tree::pairs(p).len());
        crate::pso_laws::tree::lemma_map_after(p);
    }
}

/// A tree that fits its schema, as some file would describe it, is built, and
/// without a warning.
pub proof fn law_fitting_trees_build_quietly(f: PsoView, c: Context, root: StructView)
    requires
        crate::pso_laws::fits::fits_struct(f, c.schema, root.type_hash, root.fields, 0),
    ensures
        crate::pso_write::built(c, root).1.len() == 0,
        !crate::pso_write::endless(c, root),
{
    let st = crate::pso_write::fresh();
    lemma_struct_quiet(
        f,
        c,
        root.type_hash,
        root.fields,
        st,
        crate::pso_write::full_fuel(c.schema),
        0,
    );
}

} // verus!
