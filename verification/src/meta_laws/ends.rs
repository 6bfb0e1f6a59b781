//! When the defaults of a structure come to an end.

use vstd::prelude::*;

use crate::meta_write::{T_ARRAY, T_STRUCT, T_STRUCT_PTR};
use crate::pso_write::{BuildState, Context};
use crate::schema::{MetaEntryDef, MetaStructDefView, SchemaView, ARRAYINFO};
use crate::value::{StructView, ValueView};

verus! {

/// Whether a member holds a structure inside its own structure.
pub open spec fn holds_inline(s: SchemaView, def: MetaStructDefView, e: MetaEntryDef) -> bool {
    &&& e.name != ARRAYINFO
    &&& e.ty == T_STRUCT
    &&& s.meta_structs.contains_key(e.ref_key)
    &&& e.offset + s.meta_structs[e.ref_key].size <= def.size
}

/// Whether the structures that `name` holds inside itself, and those that
/// they hold, come to an end within `fuel` steps.
pub open spec fn ends(s: SchemaView, name: u32, fuel: nat) -> bool
    decreases fuel,
{
    forall|i: int|
        0 <= i < s.meta_structs[name].entries.len() && #[trigger] holds_inline(
            s,
            s.meta_structs[name],
            s.meta_structs[name].entries[i],
        ) ==> fuel > 0 && ends(s, s.meta_structs[name].entries[i].ref_key, (fuel - 1) as nat)
}

/// Whether no structure of a schema holds itself: every chain of structures
/// in structures ends within as many steps as there are structures.
#[verifier::opaque]
pub open spec fn all_end(s: SchemaView) -> bool {
    forall|name: u32|
        s.meta_structs.contains_key(name) ==> #[trigger] ends(
            s,
            name,
            crate::meta_write::full_fuel(s),
        )
}

proof fn lemma_all(c: Context, name: u32)
    requires
        all_end(c.schema),
        c.schema.meta_structs.contains_key(name),
    ensures
        ends(c.schema, name, crate::meta_write::full_fuel(c.schema)),
{
    reveal(all_end);
}

proof fn lemma_struct_ends(
    c: Context,
    key: u32,
    fields: Option<Seq<(u32, ValueView)>>,
    st: BuildState,
    fuel: nat,
)
    requires
        all_end(c.schema),
        ends(c.schema, key, fuel),
        st.blocks.len() > 0,
        !st.endless,
    ensures
        !crate::meta_write::write_struct(c, key, fields, st, fuel).1.endless,
    decreases crate::pso_write::struct_measure(fields), fuel, 5int, 0int,
{
    let def = c.schema.meta_structs[key];
    crate::meta_laws::grow::lemma_use_struct(st, def.name);
    lemma_members_end(
        c,
        key,
        fields,
        crate::bytes::zeros(def.size as int),
        crate::pso_write::use_struct(st, def.name),
        fuel,
        def.entries.len(),
    );
}

proof fn lemma_members_end(
    c: Context,
    key: u32,
    fields: Option<Seq<(u32, ValueView)>>,
    buf: Seq<u8>,
    st: BuildState,
    fuel: nat,
    k: nat,
)
    requires
        all_end(c.schema),
        ends(c.schema, key, fuel),
        buf.len() == c.schema.meta_structs[key].size,
        st.blocks.len() > 0,
        !st.endless,
        k <= c.schema.meta_structs[key].entries.len(),
    ensures
        !crate::meta_write::write_members(
            c,
            c.schema.meta_structs[key],
            fields,
            buf,
            st,
            fuel,
            k,
        ).1.endless,
    decreases crate::pso_write::struct_measure(fields), fuel, 4int, k,
{
    if k > 0 {
        let def = c.schema.meta_structs[key];
        let j = (k - 1) as nat;
        lemma_members_end(c, key, fields, buf, st, fuel, j);
        crate::meta_laws::grow::lemma_members_step(c, def, fields, buf, st, fuel, j);
        let before = crate::meta_write::write_members(c, def, fields, buf, st, fuel, j);
        let e = def.entries[k - 1];
        if e.name != ARRAYINFO {
            crate::pso_write::lemma_member_measure(fields, e.name);
            if holds_inline(c.schema, def, e) {
                assert(holds_inline(c.schema, def, def.entries[k - 1]));
            }
            lemma_member_ends(
                c,
                def,
                e,
                crate::meta_write::array_info(def.entries, k - 1),
                crate::pso_write::member_value(fields, e.name),
                before.0,
                before.1,
                fuel,
            );
        }
    }
}

#[verifier::rlimit(30)]
#[verifier::spinoff_prover]
proof fn lemma_member_ends(
    c: Context,
    def: MetaStructDefView,
    e: MetaEntryDef,
    elem: Option<MetaEntryDef>,
    value: Option<ValueView>,
    buf: Seq<u8>,
    st: BuildState,
    fuel: nat,
)
    requires
        all_end(c.schema),
        e.name != ARRAYINFO,
        buf.len() == def.size,
        holds_inline(c.schema, def, e) ==> fuel > 0 && ends(
            c.schema,
            e.ref_key,
            (fuel - 1) as nat,
        ),
        st.blocks.len() > 0,
        !st.endless,
    ensures
        !crate::meta_write::write_member(c, def, e, elem, value, buf, st, fuel).1.endless,
    decreases crate::pso_write::member_measure(value), fuel, 3int, 0int,
{
    let v = crate::pso_write::value_or_null(value);
    let full = crate::meta_write::full_fuel(c.schema);
    if e.ty == T_STRUCT_PTR {
        match value {
            Some(ValueView::Struct(s)) => {
                let ty = crate::meta_write::pointee_type(c, s, e.ref_key);
                if c.schema.meta_structs.contains_key(ty) {
                    lemma_all(c, ty);
                    lemma_struct_ends(c, ty, Some(s.fields), st, full);
                }
            },
            _ => {},
        }
    } else if e.ty == T_STRUCT {
        if c.schema.meta_structs.contains_key(e.ref_key) {
            lemma_all(c, e.ref_key);
            match value {
                Some(ValueView::Struct(s)) => {
                    lemma_struct_ends(c, e.ref_key, Some(s.fields), st, full);
                },
                Some(ValueView::Null) => {
                    lemma_struct_ends(c, e.ref_key, None, st, full);
                },
                None => {
                    if holds_inline(c.schema, def, e) {
                        lemma_struct_ends(c, e.ref_key, None, st, (fuel - 1) as nat);
                    }
                },
                _ => {},
            }
        }
    } else if e.ty == T_ARRAY {
        match elem {
            Some(x) => {
                let items = crate::pso_write::items_of(v);
                if items.len() > 0 && crate::meta_write::run_refused(c, x) is None {
                    lemma_run_ends(c, def, e, x, items, st, items.len());
                }
            },
            None => {},
        }
    }
}

proof fn lemma_run_ends(
    c: Context,
    def: MetaStructDefView,
    e: MetaEntryDef,
    elem: MetaEntryDef,
    items: Seq<ValueView>,
    st: BuildState,
    k: nat,
)
    requires
        all_end(c.schema),
        crate::meta_write::run_refused(c, elem) is None,
        st.blocks.len() > 0,
        !st.endless,
    ensures
        !crate::meta_write::items_run(c, def, e, elem, items, st, k).1.endless,
    decreases crate::pso_write::items_measure(items), 0nat, 1int, k,
{
    if 0 < k <= items.len() {
        let j = (k - 1) as nat;
        lemma_run_ends(c, def, e, elem, items, st, j);
        crate::meta_laws::grow::lemma_run_steps(c, def, e, elem, items, st, j);
        crate::value::lemma_item_height(items, k - 1);
        let before = crate::meta_write::items_run(c, def, e, elem, items, st, j);
        if before.0 is Some {
            lemma_item_ends(c, def, e, elem, items[k - 1], before.1);
        }
    }
}

proof fn lemma_item_ends(
    c: Context,
    def: MetaStructDefView,
    e: MetaEntryDef,
    elem: MetaEntryDef,
    item: ValueView,
    st: BuildState,
)
    requires
        all_end(c.schema),
        crate::meta_write::run_refused(c, elem) is None,
        st.blocks.len() > 0,
        !st.endless,
    ensures
        !crate::meta_write::write_item(c, def, e, elem, item, st).1.endless,
    decreases 2 * crate::value::height(item) + 1, 0nat, 0int, 0int,
{
    let full = crate::meta_write::full_fuel(c.schema);
    if crate::meta_write::is_scalar_run(elem) {
    } else if elem.ty == T_STRUCT_PTR {
        match item {
            ValueView::Struct(s) => {
                let ty = crate::meta_write::pointee_type(c, s, elem.ref_key);
                if c.schema.meta_structs.contains_key(ty) {
                    lemma_all(c, ty);
                    lemma_struct_ends(c, ty, Some(s.fields), st, full);
                }
            },
            _ => {},
        }
    } else if elem.ty == T_STRUCT {
        lemma_all(c, elem.ref_key);
        match item {
            ValueView::Struct(s) => {
                lemma_struct_ends(c, elem.ref_key, Some(s.fields), st, full);
            },
            ValueView::Null => {
                lemma_struct_ends(c, elem.ref_key, None, st, full);
            },
            _ => {
                let noted = BuildState {
                    warnings: crate::build_warning::warned(
                        st.warnings,
                        crate::build_warning::BuildWarningView::Element {
                            structure: def.name,
                            member: e.name,
                            value: item,
                        },
                    ),
                    ..st
                };
                lemma_struct_ends(c, elem.ref_key, None, noted, full);
            },
        }
    }
}

/// By a schema in which no structure holds itself, every tree is written to
/// its end.
pub proof fn law_ending_schemas_end(c: Context, root: StructView)
    requires
        all_end(c.schema),
        c.schema.meta_structs.contains_key(root.type_hash),
    ensures
        !crate::meta_write::written(c, root).endless,
{
    let full = crate::meta_write::full_fuel(c.schema);
    lemma_all(c, root.type_hash);
    lemma_struct_ends(
        c,
        root.type_hash,
        Some(root.fields),
        crate::meta_write::fresh(c.schema.meta_structs[root.type_hash].name),
        full,
    );
}

} // verus!
