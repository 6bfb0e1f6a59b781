//! Every member of a structure is written in its own place.

use vstd::prelude::*;

use crate::pso_write::{BuildState, Context, T_ARRAY, T_STRUCT};
use crate::schema::{PsoEntryDef, PsoStructDefView, ARRAYINFO};
use crate::value::ValueView;

verus! {

/// An element takes as many bytes as its descriptor says.
pub proof fn lemma_item_room(
    c: Context,
    def: PsoStructDefView,
    e: PsoEntryDef,
    x: PsoEntryDef,
    item: ValueView,
    st: BuildState,
)
    requires
        crate::pso_write::run_refused(c, x) is None,
    ensures
        ({
            let r = crate::pso_write::write_item(c, def, e, x, item, st);
            r.0 is Some ==> r.0->0.len() == crate::pso_laws::fits::item_room(c.schema, x)
        }),
{
    let full = crate::pso_write::full_fuel(c.schema);
    if x.ty == T_STRUCT && x.subtype != 3 {
        match item {
            ValueView::Struct(s) => {
                crate::pso_laws::grow::lemma_struct_grows(c, x.ref_key, Some(s.fields), st, full);
            },
            ValueView::Null => {
                crate::pso_laws::grow::lemma_struct_grows(c, x.ref_key, None, st, full);
            },
            _ => {
                let noted = BuildState {
                    warnings: crate::build_warning::warned(
                        st.warnings,
                        crate::build_warning::BuildWarningView::Element {
                            structure: def.name,
                            member: e.name,
                            value: item,
                        },
                    ),
                    ..st
                };
                crate::pso_laws::grow::lemma_struct_grows(c, x.ref_key, None, noted, full);
            },
        }
    }
}

/// Some elements take as many bytes as their descriptor says.
pub proof fn lemma_run_room(
    c: Context,
    def: PsoStructDefView,
    e: PsoEntryDef,
    x: PsoEntryDef,
    items: Seq<ValueView>,
    st: BuildState,
    k: nat,
)
    requires
        crate::pso_write::run_refused(c, x) is None,
        k <= items.len(),
    ensures
        ({
            let r = crate::pso_write::items_run(c, def, e, x, items, st, k);
            r.0 is Some ==> r.0->0.len() == k * crate::pso_laws::fits::item_room(c.schema, x)
        }),
    decreases k,
{
    let room = crate::pso_laws::fits::item_room(c.schema, x);
    if k > 0 {
        lemma_run_room(c, def, e, x, items, st, (k - 1) as nat);
        let before = crate::pso_write::items_run(c, def, e, x, items, st, (k - 1) as nat);
        lemma_item_room(c, def, e, x, items[k - 1], before.1);
        assert(k * room == (k - 1) * room + room) by (nonlinear_arith);
    } else {
        assert(0 * room == 0) by (nonlinear_arith);
    }
}

proof fn lemma_plain_confined(c: Context, def: PsoStructDefView, e: PsoEntryDef, v: ValueView)
    ensures
        crate::pso_write::plain_need(e) is Some && crate::pso_write::plain_bytes(c, def, e, v) is Some
            ==> crate::pso_write::plain_bytes(c, def, e, v)->0.len()
            <= crate::pso_write::plain_need(e)->0,
{
}

proof fn lemma_struct_confined(
    c: Context,
    def: PsoStructDefView,
    e: PsoEntryDef,
    value: Option<ValueView>,
    buf: Seq<u8>,
    st: BuildState,
    fuel: nat,
)
    requires
        e.ty == T_STRUCT,
    ensures
        crate::meta_laws::places::same_but(
            buf,
            crate::pso_write::write_member(c, def, e, value, buf, st, fuel).0,
            e.offset as int,
            e.offset + crate::pso_laws::fits::room(c.schema, def, e),
        ),
{
    let full = crate::pso_write::full_fuel(c.schema);
    if e.subtype == 0 {
        match value {
            Some(ValueView::Struct(s)) => {
                crate::pso_laws::grow::lemma_struct_grows(
                    c,
                    e.ref_key,
                    Some(s.fields),
                    st,
                    full,
                );
            },
            Some(_) => {
                crate::pso_laws::grow::lemma_struct_grows(c, e.ref_key, None, st, full);
            },
            None => {
                if fuel > 0 && !st.endless {
                    crate::pso_laws::grow::lemma_struct_grows(
                        c,
                        e.ref_key,
                        None,
                        st,
                        (fuel - 1) as nat,
                    );
                }
            },
        }
    }
}

/// Elements that are stored in place take no more than the member's room.
proof fn lemma_inline_run(
    c: Context,
    def: PsoStructDefView,
    e: PsoEntryDef,
    x: PsoEntryDef,
    items: Seq<ValueView>,
    st: BuildState,
    fuel: nat,
)
    requires
        items.len() <= e.ref_key / 0x1_0000,
    ensures
        ({
            let r = crate::pso_write::element_run(c, def, e, x, items, st, fuel);
            r.0 is Some ==> r.0->0.len() <= (e.ref_key / 0x1_0000)
                * crate::pso_laws::fits::item_room(c.schema, x)
        }),
{
    let most = (e.ref_key / 0x1_0000) as int;
    let room = crate::pso_laws::fits::item_room(c.schema, x);
    let r = crate::pso_write::element_run(c, def, e, x, items, st, fuel);
    if r.0 is Some {
        let used = if x.ty == crate::pso_write::T_ENUM {
            crate::pso_write::use_enum(c, st, x.ref_key)
        } else {
            st
        };
        lemma_run_room(c, def, e, x, items, used, items.len());
        assert(items.len() * room <= most * room) by (nonlinear_arith)
            requires
                items.len() <= most,
                room >= 0,
        ;
    }
}

proof fn lemma_splice_same(buf: Seq<u8>, off: int, b: Seq<u8>, room: int)
    requires
        b.len() <= room,
    ensures
        crate::meta_laws::places::same_but(buf, crate::bytes::splice(buf, off, b), off, off + room),
{
}

proof fn lemma_put_same(buf: Seq<u8>, off: int, ptr: u32, count: int)
    ensures
        crate::meta_laws::places::same_but(buf, crate::pso_write::put_counted(buf, off, ptr, count), off, off + 16),
{
}

proof fn lemma_apart_confined(
    c: Context,
    def: PsoStructDefView,
    e: PsoEntryDef,
    x: PsoEntryDef,
    value: Option<ValueView>,
    buf: Seq<u8>,
    st: BuildState,
    fuel: nat,
)
    requires
        e.ty == T_ARRAY,
        crate::pso_write::array_info(def, e) == Some(x),
        crate::pso_laws::fits::is_apart(e, x),
    ensures
        crate::meta_laws::places::same_but(
            buf,
            crate::pso_write::write_member(c, def, e, value, buf, st, fuel).0,
            e.offset as int,
            e.offset + 16,
        ),
{
    let off = e.offset as int;
    let items = crate::pso_write::items_of(crate::pso_write::value_or_null(value));
    let r = crate::pso_write::element_run(c, def, e, x, items, st, fuel);
    if r.0 is Some {
        let a = crate::pso_write::add_item(r.1, crate::pso_write::run_block(c, x), r.0->0);
        lemma_put_same(buf, off, a.1, items.len() as int);
    }
}

proof fn lemma_inline_confined(
    c: Context,
    def: PsoStructDefView,
    e: PsoEntryDef,
    x: PsoEntryDef,
    value: Option<ValueView>,
    buf: Seq<u8>,
    st: BuildState,
    fuel: nat,
)
    requires
        e.ty == T_ARRAY,
        crate::pso_write::array_info(def, e) == Some(x),
        !crate::pso_laws::fits::is_apart(e, x),
    ensures
        crate::meta_laws::places::same_but(
            buf,
            crate::pso_write::write_member(c, def, e, value, buf, st, fuel).0,
            e.offset as int,
            e.offset + (e.ref_key / 0x1_0000) * crate::pso_laws::fits::item_room(c.schema, x),
        ),
{
    let off = e.offset as int;
    let items = crate::pso_write::items_of(crate::pso_write::value_or_null(value));
    let most = (e.ref_key / 0x1_0000) as int;
    let count = crate::resource::least(items.len() as int, most);
    let some = items.take(count);
    let room = (e.ref_key / 0x1_0000) * crate::pso_laws::fits::item_room(c.schema, x);
    lemma_inline_run(c, def, e, x, some, st, fuel);
    let r = crate::pso_write::element_run(c, def, e, x, some, st, fuel);
    if r.0 is Some {
        lemma_splice_same(buf, off, r.0->0, room);
    }
}

proof fn lemma_array_confined(
    c: Context,
    def: PsoStructDefView,
    e: PsoEntryDef,
    value: Option<ValueView>,
    buf: Seq<u8>,
    st: BuildState,
    fuel: nat,
)
    requires
        e.ty == T_ARRAY,
    ensures
        crate::meta_laws::places::same_but(
            buf,
            crate::pso_write::write_member(c, def, e, value, buf, st, fuel).0,
            e.offset as int,
            e.offset + crate::pso_laws::fits::room(c.schema, def, e),
        ),
{
    match crate::pso_write::array_info(def, e) {
        None => {},
        Some(x) => {
            if crate::pso_laws::fits::is_apart(e, x) {
                lemma_apart_confined(c, def, e, x, value, buf, st, fuel);
            } else {
                lemma_inline_confined(c, def, e, x, value, buf, st, fuel);
            }
        },
    }
}

/// A member changes nothing outside its own place.
#[verifier::rlimit(60)]
#[verifier::spinoff_prover]
pub proof fn lemma_member_confined(
    c: Context,
    def: PsoStructDefView,
    e: PsoEntryDef,
    value: Option<ValueView>,
    buf: Seq<u8>,
    st: BuildState,
    fuel: nat,
)
    ensures
        crate::meta_laws::places::same_but(
            buf,
            crate::pso_write::write_member(c, def, e, value, buf, st, fuel).0,
            e.offset as int,
            e.offset + crate::pso_laws::fits::room(c.schema, def, e),
        ),
{
    let v = crate::pso_write::value_or_null(value);
    if crate::pso_write::plain_need(e) is Some {
        lemma_plain_confined(c, def, e, v);
    } else if e.ty == T_STRUCT {
        lemma_struct_confined(c, def, e, value, buf, st, fuel);
    } else if e.ty == T_ARRAY {
        lemma_array_confined(c, def, e, value, buf, st, fuel);
    }
}

/// Members that lie apart from a place leave it alone.
pub proof fn lemma_members_apart(
    c: Context,
    def: PsoStructDefView,
    fields: Option<Seq<(u32, ValueView)>>,
    buf: Seq<u8>,
    st: BuildState,
    fuel: nat,
    m: nat,
    n: nat,
    from: int,
    to: int,
)
    requires
        m <= n <= def.entries.len(),
        0 <= from <= to <= buf.len(),
        forall|k: int|
            m <= k < n && (#[trigger] def.entries[k]).name != ARRAYINFO ==> {
                ||| def.entries[k].offset + crate::pso_laws::fits::room(
                    c.schema,
                    def,
                    def.entries[k],
                ) <= from
                ||| to <= def.entries[k].offset
            },
    ensures
        crate::pso_write::write_members(c, def, fields, buf, st, fuel, n).0.subrange(from, to)
            == crate::pso_write::write_members(c, def, fields, buf, st, fuel, m).0.subrange(
            from,
            to,
        ),
    decreases n,
{
    if m < n {
        lemma_members_apart(c, def, fields, buf, st, fuel, m, (n - 1) as nat, from, to);
        crate::pso_laws::grow::lemma_members_grow(c, def, fields, buf, st, fuel, (n - 1) as nat);
        let before = crate::pso_write::write_members(
            c,
            def,
            fields,
            buf,
            st,
            fuel,
            (n - 1) as nat,
        );
        let e = def.entries[n - 1];
        if e.name != ARRAYINFO {
            let value = crate::pso_write::member_value(fields, e.name);
            lemma_member_confined(c, def, e, value, before.0, before.1, fuel);
            let after = crate::pso_write::write_member(
                c,
                def,
                e,
                value,
                before.0,
                before.1,
                fuel,
            );
            assert(after.0.subrange(from, to) =~= before.0.subrange(from, to));
        }
    }
}

} // verus!
