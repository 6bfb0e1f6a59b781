//! When the defaults of a structure come to an end.

use vstd::prelude::*;

use crate::pso_write::{BuildState, Context, T_ARRAY, T_ENUM, T_MAP, T_STRUCT};
use crate::schema::{PsoEntryDef, PsoStructDefView, SchemaView, ARRAYINFO};
use crate::value::{StructView, ValueView};

verus! {

/// Whether a member holds a structure inside its own structure.
pub open spec fn holds_inline(s: SchemaView, def: PsoStructDefView, e: PsoEntryDef) -> bool {
    &&& e.name != ARRAYINFO
    &&& e.ty == T_STRUCT
    &&& e.subtype == 0
    &&& s.pso_structs.contains_key(e.ref_key)
    &&& e.offset + s.pso_structs[e.ref_key].size <= def.size
}

/// Whether the structures that `name` holds inside itself, and those that
/// they hold, come to an end within `fuel` steps.
pub open spec fn ends(s: SchemaView, name: u32, fuel: nat) -> bool
    decreases fuel,
{
    forall|i: int|
        0 <= i < s.pso_structs[name].entries.len() && #[trigger] holds_inline(
            s,
            s.pso_structs[name],
            s.pso_structs[name].entries[i],
        ) ==> fuel > 0 && ends(s, s.pso_structs[name].entries[i].ref_key, (fuel - 1) as nat)
}

/// Whether no structure of a schema holds itself: every chain of structures
/// in structures ends within as many steps as there are structures.
#[verifier::opaque]
pub open spec fn all_end(s: SchemaView) -> bool {
    forall|name: u32|
        s.pso_structs.contains_key(name) ==> #[trigger] ends(
            s,
            name,
            crate::pso_write::full_fuel(s),
        )
}

proof fn lemma_all(c: Context, name: u32)
    requires
        all_end(c.schema),
        c.schema.pso_structs.contains_key(name),
    ensures
        ends(c.schema, name, crate::pso_write::full_fuel(c.schema)),
{
    reveal(all_end);
}

proof fn lemma_struct_ends(
    c: Context,
    key: u32,
    fields: Option<Seq<(u32, ValueView)>>,
    st: BuildState,
    fuel: nat,
)
    requires
        all_end(c.schema),
        ends(c.schema, key, fuel),
        !st.endless,
    ensures
        !crate::pso_write::write_struct(c, key, fields, st, fuel).1.endless,
    decreases crate::pso_write::struct_measure(fields), fuel, 5int, 0int,
{
    let def = c.schema.pso_structs[key];
    lemma_members_end(
        c,
        key,
        fields,
        crate::bytes::zeros(def.size as int),
        crate::pso_write::use_struct(st, def.name),
        fuel,
        def.entries.len(),
    );
}

proof fn lemma_members_end(
    c: Context,
    key: u32,
    fields: Option<Seq<(u32, ValueView)>>,
    buf: Seq<u8>,
    st: BuildState,
    fuel: nat,
    k: nat,
)
    requires
        all_end(c.schema),
        ends(c.schema, key, fuel),
        buf.len() == c.schema.pso_structs[key].size,
        !st.endless,
        k <= c.schema.pso_structs[key].entries.len(),
    ensures
        !crate::pso_write::write_members(
            c,
            c.schema.pso_structs[key],
            fields,
            buf,
            st,
            fuel,
            k,
        ).1.endless,
    decreases crate::pso_write::struct_measure(fields), fuel, 4int, k,
{
    if k > 0 {
        let def = c.schema.pso_structs[key];
        let j = (k - 1) as nat;
        lemma_members_end(c, key, fields, buf, st, fuel, j);
        crate::pso_laws::grow::lemma_members_grow(c, def, fields, buf, st, fuel, j);
        let before = crate::pso_write::write_members(c, def, fields, buf, st, fuel, j);
        let e = def.entries[k - 1];
        if e.name != ARRAYINFO {
            crate::pso_write::lemma_member_measure(fields, e.name);
            if holds_inline(c.schema, def, e) {
                assert(holds_inline(c.schema, def, def.entries[k - 1]));
            }
            lemma_member_ends(
                c,
                def,
                e,
                crate::pso_write::member_value(fields, e.name),
                before.0,
                before.1,
                fuel,
            );
        }
    }
}

#[verifier::rlimit(30)]
#[verifier::spinoff_prover]
proof fn lemma_member_ends(
    c: Context,
    def: PsoStructDefView,
    e: PsoEntryDef,
    value: Option<ValueView>,
    buf: Seq<u8>,
    st: BuildState,
    fuel: nat,
)
    requires
        all_end(c.schema),
        e.name != ARRAYINFO,
        buf.len() == def.size,
        holds_inline(c.schema, def, e) ==> fuel > 0 && ends(
            c.schema,
            e.ref_key,
            (fuel - 1) as nat,
        ),
        !st.endless,
    ensures
        !crate::pso_write::write_member(c, def, e, value, buf, st, fuel).1.endless,
    decreases crate::pso_write::member_measure(value), fuel, 3int, 0int,
{
    let v = crate::pso_write::value_or_null(value);
    if e.ty == T_STRUCT {
        lemma_struct_member_ends(c, def, e, value, buf, st, fuel);
    } else if e.ty == T_ARRAY {
        match crate::pso_write::array_info(def, e) {
            None => {},
            Some(elem) => {
                let items = crate::pso_write::items_of(v);
                if e.subtype == 0 || (e.subtype == 4 && elem.subtype == 3) {
                    lemma_elements_end(c, def, e, elem, items, st, fuel);
                } else {
                    let count = crate::resource::least(
                        items.len() as int,
                        (e.ref_key / 0x1_0000) as int,
                    );
                    crate::pso_write::lemma_take_measure(items, count);
                    lemma_elements_end(c, def, e, elem, items.take(count), st, fuel);
                }
            },
        }
    } else if e.ty == T_MAP {
        let idx = (e.ref_key % 0x1_0000) as int;
        let pair_type = if idx < def.entries.len() {
            def.entries[idx].ref_key
        } else {
            0
        };
        let pairs = crate::pso_write::pairs_of(v);
        if pairs.len() > 0 && c.schema.pso_structs.contains_key(pair_type) {
            lemma_pairs_end(c, pair_type, pairs, st, fuel, pairs.len());
        }
    }
}

proof fn lemma_struct_member_ends(
    c: Context,
    def: PsoStructDefView,
    e: PsoEntryDef,
    value: Option<ValueView>,
    buf: Seq<u8>,
    st: BuildState,
    fuel: nat,
)
    requires
        all_end(c.schema),
        e.name != ARRAYINFO,
        e.ty == T_STRUCT,
        buf.len() == def.size,
        holds_inline(c.schema, def, e) ==> fuel > 0 && ends(
            c.schema,
            e.ref_key,
            (fuel - 1) as nat,
        ),
        !st.endless,
    ensures
        !crate::pso_write::write_member(c, def, e, value, buf, st, fuel).1.endless,
    decreases crate::pso_write::member_measure(value), fuel, 2int, 0int,
{
    let full = crate::pso_write::full_fuel(c.schema);
    if e.subtype == 0 {
        if c.schema.pso_structs.contains_key(e.ref_key) {
            lemma_all(c, e.ref_key);
            match value {
                Some(ValueView::Struct(s)) => {
                    lemma_struct_ends(c, e.ref_key, Some(s.fields), st, full);
                },
                Some(_) => {
                    lemma_struct_ends(c, e.ref_key, None, st, full);
                },
                None => {
                    if holds_inline(c.schema, def, e) {
                        lemma_struct_ends(c, e.ref_key, None, st, (fuel - 1) as nat);
                    }
                },
            }
        }
    } else {
        match value {
            Some(ValueView::Struct(s)) => {
                let ty = crate::pso_write::pointee_type(c, s, e.ref_key);
                if c.schema.pso_structs.contains_key(ty) {
                    lemma_all(c, ty);
                    lemma_struct_ends(c, ty, Some(s.fields), st, full);
                }
            },
            _ => {},
        }
    }
}

proof fn lemma_elements_end(
    c: Context,
    def: PsoStructDefView,
    e: PsoEntryDef,
    elem: PsoEntryDef,
    items: Seq<ValueView>,
    st: BuildState,
    fuel: nat,
)
    requires
        all_end(c.schema),
        !st.endless,
    ensures
        !crate::pso_write::element_run(c, def, e, elem, items, st, fuel).1.endless,
    decreases crate::pso_write::items_measure(items), fuel, 2int, 0int,
{
    if crate::pso_write::run_refused(c, elem) is None {
        let used = if elem.ty == T_ENUM {
            crate::pso_write::use_enum(c, st, elem.ref_key)
        } else {
            st
        };
        lemma_run_ends(c, def, e, elem, items, used, items.len());
    }
}

proof fn lemma_run_ends(
    c: Context,
    def: PsoStructDefView,
    e: PsoEntryDef,
    elem: PsoEntryDef,
    items: Seq<ValueView>,
    st: BuildState,
    k: nat,
)
    requires
        all_end(c.schema),
        crate::pso_write::run_refused(c, elem) is None,
        !st.endless,
    ensures
        !crate::pso_write::items_run(c, def, e, elem, items, st, k).1.endless,
    decreases crate::pso_write::items_measure(items), 0nat, 1int, k,
{
    if 0 < k <= items.len() {
        let j = (k - 1) as nat;
        lemma_run_ends(c, def, e, elem, items, st, j);
        crate::value::lemma_item_height(items, k - 1);
        let before = crate::pso_write::items_run(c, def, e, elem, items, st, j);
        if before.0 is Some {
            lemma_item_ends(c, def, e, elem, items[k - 1], before.1);
        }
    }
}

proof fn lemma_item_ends(
    c: Context,
    def: PsoStructDefView,
    e: PsoEntryDef,
    elem: PsoEntryDef,
    item: ValueView,
    st: BuildState,
)
    requires
        all_end(c.schema),
        crate::pso_write::run_refused(c, elem) is None,
        !st.endless,
    ensures
        !crate::pso_write::write_item(c, def, e, elem, item, st).1.endless,
    decreases 2 * crate::value::height(item) + 1, 0nat, 0int, 0int,
{
    let full = crate::pso_write::full_fuel(c.schema);
    if crate::pso_write::is_scalar_run(elem) || elem.ty == crate::pso_write::T_STRING {
    } else if elem.subtype == 3 {
        match item {
            ValueView::Struct(s) => {
                let ty = crate::pso_write::pointee_type(c, s, elem.ref_key);
                if c.schema.pso_structs.contains_key(ty) {
                    lemma_all(c, ty);
                    lemma_struct_ends(c, ty, Some(s.fields), st, full);
                }
            },
            _ => {},
        }
    } else {
        lemma_all(c, elem.ref_key);
        match item {
            ValueView::Struct(s) => {
                lemma_struct_ends(c, elem.ref_key, Some(s.fields), st, full);
            },
            ValueView::Null => {
                lemma_struct_ends(c, elem.ref_key, None, st, full);
            },
            _ => {
                let noted = BuildState {
                    warnings: crate::build_warning::warned(
                        st.warnings,
                        crate::build_warning::BuildWarningView::Element {
                            structure: def.name,
                            member: e.name,
                            value: item,
                        },
                    ),
                    ..st
                };
                lemma_struct_ends(c, elem.ref_key, None, noted, full);
            },
        }
    }
}

proof fn lemma_pairs_end(
    c: Context,
    pair_type: u32,
    pairs: Seq<(ValueView, ValueView)>,
    st: BuildState,
    fuel: nat,
    k: nat,
)
    requires
        all_end(c.schema),
        c.schema.pso_structs.contains_key(pair_type),
        !st.endless,
    ensures
        !crate::pso_write::pairs_run(c, pair_type, pairs, st, fuel, k).1.endless,
    decreases crate::pso_write::pairs_measure(pairs), fuel, 1int, k,
{
    if 0 < k <= pairs.len() {
        let j = (k - 1) as nat;
        lemma_pairs_end(c, pair_type, pairs, st, fuel, j);
        let entries = c.schema.pso_structs[pair_type].entries;
        let names = crate::pso_write::named_members(entries, entries.len());
        crate::pso_write::lemma_pair_measure(names, pairs, k - 1);
        lemma_all(c, pair_type);
        lemma_struct_ends(
            c,
            pair_type,
            Some(crate::pso_write::pair_fields(names, pairs[k - 1])),
            crate::pso_write::pairs_run(c, pair_type, pairs, st, fuel, j).1,
            crate::pso_write::full_fuel(c.schema),
        );
    }
}

/// By a schema in which no structure holds itself, every tree is written to
/// its end.
pub proof fn law_ending_schemas_end(c: Context, root: StructView)
    requires
        all_end(c.schema),
        c.schema.pso_structs.contains_key(root.type_hash),
    ensures
        !crate::pso_write::endless(c, root),
{
    let full = crate::pso_write::full_fuel(c.schema);
    lemma_all(c, root.type_hash);
    lemma_struct_ends(
        c,
        root.type_hash,
        Some(root.fields),
        crate::pso_write::fresh(),
        full,
    );
}

} // verus!
