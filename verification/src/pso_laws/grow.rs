//! What a writer has put into blocks stays where it is.

use vstd::prelude::*;

use crate::pso_write::{
    BuildState, Context, B_STRING, MAX_BLOCK, T_ARRAY, T_ENUM, T_MAP, T_STRING, T_STRUCT,
};
use crate::schema::{PsoEntryDef, PsoStructDefView, ARRAYINFO};
use crate::value::ValueView;

verus! {

/// Whether `all` starts with `first`.
pub open spec fn begins(all: Seq<u8>, first: Seq<u8>) -> bool {
    first.len() <= all.len() && forall|i: int|
        0 <= i < first.len() ==> #[trigger] all[i] == first[i]
}

/// Whether one state goes on from another: its blocks start with what they
/// held, and what was used still is.
pub open spec fn grows(a: BuildState, b: BuildState) -> bool {
    &&& a.blocks.len() <= b.blocks.len()
    &&& forall|i: int|
        0 <= i < a.blocks.len() ==> (#[trigger] b.blocks[i]).0 == a.blocks[i].0 && begins(
            b.blocks[i].1,
            a.blocks[i].1,
        )
    &&& forall|x: u32| a.used_structs.contains(x) ==> #[trigger] b.used_structs.contains(x)
    &&& forall|x: u32| a.used_enums.contains(x) ==> #[trigger] b.used_enums.contains(x)
}

pub proof fn lemma_grows_on(a: BuildState, b: BuildState, c: BuildState)
    requires
        grows(a, b),
        grows(b, c),
    ensures
        grows(a, c),
{
    assert forall|i: int| 0 <= i < a.blocks.len() implies (#[trigger] c.blocks[i]).0
        == a.blocks[i].0 && begins(c.blocks[i].1, a.blocks[i].1) by {
        assert(b.blocks[i].0 == a.blocks[i].0);
        let x = a.blocks[i].1;
        let y = b.blocks[i].1;
        let z = c.blocks[i].1;
        assert(begins(y, x) && begins(z, y));
        assert forall|j: int| 0 <= j < x.len() implies #[trigger] z[j] == x[j] by {
            assert(z[j] == y[j]);
            assert(y[j] == x[j]);
        }
    }
    assert forall|x: u32| a.used_structs.contains(x) implies #[trigger] c.used_structs.contains(
        x,
    ) by {
        assert(b.used_structs.contains(x));
    }
    assert forall|x: u32| a.used_enums.contains(x) implies #[trigger] c.used_enums.contains(
        x,
    ) by {
        assert(b.used_enums.contains(x));
    }
}

proof fn lemma_place(blocks: Seq<(u32, Seq<u8>)>, name: u32, need: int, i: int)
    requires
        0 <= i <= blocks.len(),
    ensures
        ({
            let at = crate::pso_write::block_for(blocks, name, need, i);
            &&& i <= at <= blocks.len()
            &&& at < blocks.len() ==> blocks[at].0 == name && blocks[at].1.len() + need
                <= MAX_BLOCK
        }),
    decreases blocks.len() - i,
{
    if i < blocks.len() && !(blocks[i].0 == name && blocks[i].1.len() + need <= MAX_BLOCK) {
        lemma_place(blocks, name, need, i + 1);
    }
}

/// Where some bytes stand that were added.
pub open spec fn stands(st: BuildState, block: int, off: int, name: u32, bytes: Seq<u8>) -> bool {
    &&& 0 <= block < st.blocks.len()
    &&& 0 <= off
    &&& off == 0 || off + bytes.len() <= MAX_BLOCK
    &&& st.blocks[block].0 == name
    &&& off + bytes.len() <= st.blocks[block].1.len()
    &&& st.blocks[block].1.subrange(off, off + bytes.len()) == bytes
}

/// The block that some bytes go into.
pub open spec fn block_at(st: BuildState, name: u32, bytes: Seq<u8>) -> int {
    crate::pso_write::block_for(st.blocks, name, bytes.len() as int, 0)
}

/// The place in its block that some bytes go to.
pub open spec fn offset_at(st: BuildState, name: u32, bytes: Seq<u8>) -> int {
    let block = block_at(st, name, bytes);
    if block < st.blocks.len() {
        st.blocks[block].1.len() as int
    } else {
        0
    }
}

pub proof fn lemma_add(st: BuildState, name: u32, bytes: Seq<u8>)
    ensures
        ({
            let r = crate::pso_write::add_item(st, name, bytes);
            let block = block_at(st, name, bytes);
            let off = offset_at(st, name, bytes);
            &&& grows(st, r.0)
            &&& r.1 == crate::pso_write::pointer(block, off)
            &&& stands(r.0, block, off, name, bytes)
        }),
{
    let r = crate::pso_write::add_item(st, name, bytes);
    let i = block_at(st, name, bytes);
    lemma_place(st.blocks, name, bytes.len() as int, 0);
    if i < st.blocks.len() {
        let old = st.blocks[i].1;
        let data = r.0.blocks[i].1;
        let from = old.len() as int;
        assert(data == old + bytes);
        assert(data.subrange(from, from + bytes.len()) =~= bytes);
    } else {
        assert(bytes.subrange(0, bytes.len() as int) =~= bytes);
    }
}

/// What stands in a block stands there still later.
pub proof fn lemma_stands_on(
    a: BuildState,
    b: BuildState,
    block: int,
    off: int,
    name: u32,
    bytes: Seq<u8>,
)
    requires
        stands(a, block, off, name, bytes),
        grows(a, b),
    ensures
        stands(b, block, off, name, bytes),
{
    let x = a.blocks[block].1;
    let y = b.blocks[block].1;
    assert(b.blocks[block].0 == a.blocks[block].0 && begins(y, x));
    assert(y.subrange(off, off + bytes.len()) =~= x.subrange(off, off + bytes.len()));
}

pub proof fn lemma_use_struct(st: BuildState, name: u32)
    ensures
        grows(st, crate::pso_write::use_struct(st, name)),
        crate::pso_write::use_struct(st, name).used_structs.contains(name),
{
    let s = st.used_structs;
    let r = crate::pso_write::with_once(s, name);
    if !s.contains(name) {
        assert(r[s.len() as int] == name);
        assert forall|x: u32| s.contains(x) implies #[trigger] r.contains(x) by {
            let i = choose|i: int| 0 <= i < s.len() && s[i] == x;
            assert(r[i] == x);
        }
    }
}

pub proof fn lemma_use_enum(c: Context, st: BuildState, name: u32)
    ensures
        grows(st, crate::pso_write::use_enum(c, st, name)),
        c.schema.pso_enums.contains_key(name) ==> crate::pso_write::use_enum(
            c,
            st,
            name,
        ).used_enums.contains(name),
{
    let s = st.used_enums;
    let r = crate::pso_write::with_once(s, name);
    if !s.contains(name) {
        assert(r[s.len() as int] == name);
        assert forall|x: u32| s.contains(x) implies #[trigger] r.contains(x) by {
            let i = choose|i: int| 0 <= i < s.len() && s[i] == x;
            assert(r[i] == x);
        }
    }
}

/// The bytes of a structure are as many as its size, and writing it only
/// adds to the blocks.
pub proof fn lemma_struct_grows(
    c: Context,
    key: u32,
    fields: Option<Seq<(u32, ValueView)>>,
    st: BuildState,
    fuel: nat,
)
    ensures
        ({
            let r = crate::pso_write::write_struct(c, key, fields, st, fuel);
            &&& r.0.len() == c.schema.pso_structs[key].size
            &&& grows(st, r.1)
            &&& r.1.used_structs.contains(c.schema.pso_structs[key].name)
        }),
    decreases crate::pso_write::struct_measure(fields), fuel, 5int, 0int,
{
    let def = c.schema.pso_structs[key];
    let used = crate::pso_write::use_struct(st, def.name);
    lemma_use_struct(st, def.name);
    lemma_members_grow(
        c,
        def,
        fields,
        crate::bytes::zeros(def.size as int),
        used,
        fuel,
        def.entries.len(),
    );
    let r = crate::pso_write::write_struct(c, key, fields, st, fuel);
    lemma_grows_on(st, used, r.1);
}

pub proof fn lemma_members_grow(
    c: Context,
    def: PsoStructDefView,
    fields: Option<Seq<(u32, ValueView)>>,
    buf: Seq<u8>,
    st: BuildState,
    fuel: nat,
    k: nat,
)
    ensures
        ({
            let r = crate::pso_write::write_members(c, def, fields, buf, st, fuel, k);
            r.0.len() == buf.len() && grows(st, r.1)
        }),
    decreases crate::pso_write::struct_measure(fields), fuel, 4int, k,
{
    if k > 0 {
        lemma_members_grow(c, def, fields, buf, st, fuel, (k - 1) as nat);
        let before = crate::pso_write::write_members(
            c,
            def,
            fields,
            buf,
            st,
            fuel,
            (k - 1) as nat,
        );
        let e = def.entries[k - 1];
        if e.name != ARRAYINFO {
            crate::pso_write::lemma_member_measure(fields, e.name);
            let value = crate::pso_write::member_value(fields, e.name);
            lemma_member_grows(c, def, e, value, before.0, before.1, fuel);
            let r = crate::pso_write::write_member(c, def, e, value, before.0, before.1, fuel);
            lemma_grows_on(st, before.1, r.1);
        }
    }
}

proof fn lemma_struct_member_grows(
    c: Context,
    def: PsoStructDefView,
    e: PsoEntryDef,
    value: Option<ValueView>,
    buf: Seq<u8>,
    st: BuildState,
    fuel: nat,
)
    requires
        e.ty == T_STRUCT,
    ensures
        ({
            let r = crate::pso_write::write_member(c, def, e, value, buf, st, fuel);
            r.0.len() == buf.len() && grows(st, r.1)
        }),
    decreases crate::pso_write::member_measure(value), fuel, 2int, 0int,
{
    let full = crate::pso_write::full_fuel(c.schema);
    if e.subtype == 0 {
        match value {
            Some(ValueView::Struct(s)) => {
                lemma_struct_grows(c, e.ref_key, Some(s.fields), st, full);
            },
            Some(_) => {
                lemma_struct_grows(c, e.ref_key, None, st, full);
            },
            None => {
                if fuel > 0 && !st.endless {
                    lemma_struct_grows(c, e.ref_key, None, st, (fuel - 1) as nat);
                }
            },
        }
    } else {
        match value {
            Some(ValueView::Struct(s)) => {
                let ty = crate::pso_write::pointee_type(c, s, e.ref_key);
                lemma_struct_grows(c, ty, Some(s.fields), st, full);
                let r = crate::pso_write::write_struct(c, ty, Some(s.fields), st, full);
                let name = c.schema.pso_structs[ty].name;
                lemma_add(r.1, name, r.0);
                lemma_grows_on(st, r.1, crate::pso_write::add_item(r.1, name, r.0).0);
            },
            _ => {},
        }
    }
}

proof fn lemma_array_member_grows(
    c: Context,
    def: PsoStructDefView,
    e: PsoEntryDef,
    value: Option<ValueView>,
    buf: Seq<u8>,
    st: BuildState,
    fuel: nat,
)
    requires
        e.ty == T_ARRAY,
    ensures
        ({
            let r = crate::pso_write::write_member(c, def, e, value, buf, st, fuel);
            r.0.len() == buf.len() && grows(st, r.1)
        }),
    decreases crate::pso_write::member_measure(value), fuel, 2int, 1int,
{
    let v = crate::pso_write::value_or_null(value);
    match crate::pso_write::array_info(def, e) {
        None => {},
        Some(elem) => {
            let items = crate::pso_write::items_of(v);
            if e.subtype == 0 || (e.subtype == 4 && elem.subtype == 3) {
                if items.len() > 0 {
                    lemma_run_grows(c, def, e, elem, items, st, fuel);
                    let r = crate::pso_write::element_run(c, def, e, elem, items, st, fuel);
                    if r.0 is Some {
                        let name = crate::pso_write::run_block(c, elem);
                        lemma_add(r.1, name, r.0->0);
                        lemma_grows_on(
                            st,
                            r.1,
                            crate::pso_write::add_item(r.1, name, r.0->0).0,
                        );
                    }
                }
            } else if items.len() > 0 {
                let count = crate::resource::least(
                    items.len() as int,
                    (e.ref_key / 0x1_0000) as int,
                );
                crate::pso_write::lemma_take_measure(items, count);
                lemma_run_grows(c, def, e, elem, items.take(count), st, fuel);
            } else {
                assert(items.take(0) =~= items);
                lemma_empty_run(c, def, e, elem, items, st, fuel);
            }
        },
    }
}

proof fn lemma_empty_run(
    c: Context,
    def: PsoStructDefView,
    e: PsoEntryDef,
    elem: PsoEntryDef,
    items: Seq<ValueView>,
    st: BuildState,
    fuel: nat,
)
    requires
        items.len() == 0,
    ensures
        ({
            let r = crate::pso_write::element_run(c, def, e, elem, items, st, fuel);
            grows(st, r.1)
        }),
{
    lemma_use_enum(c, st, elem.ref_key);
}

proof fn lemma_map_member_grows(
    c: Context,
    def: PsoStructDefView,
    e: PsoEntryDef,
    value: Option<ValueView>,
    buf: Seq<u8>,
    st: BuildState,
    fuel: nat,
)
    requires
        e.ty == T_MAP,
    ensures
        ({
            let r = crate::pso_write::write_member(c, def, e, value, buf, st, fuel);
            r.0.len() == buf.len() && grows(st, r.1)
        }),
    decreases crate::pso_write::member_measure(value), fuel, 2int, 0int,
{
    let v = crate::pso_write::value_or_null(value);
    let idx = (e.ref_key % 0x1_0000) as int;
    let pair_type = if idx < def.entries.len() {
        def.entries[idx].ref_key
    } else {
        0
    };
    let pairs = crate::pso_write::pairs_of(v);
    if pairs.len() > 0 {
        lemma_pairs_grow(c, pair_type, pairs, st, fuel, pairs.len());
        let r = crate::pso_write::pairs_run(c, pair_type, pairs, st, fuel, pairs.len());
        lemma_add(r.1, pair_type, r.0);
        lemma_grows_on(st, r.1, crate::pso_write::add_item(r.1, pair_type, r.0).0);
    }
}

#[verifier::rlimit(60)]
#[verifier::spinoff_prover]
pub proof fn lemma_member_grows(
    c: Context,
    def: PsoStructDefView,
    e: PsoEntryDef,
    value: Option<ValueView>,
    buf: Seq<u8>,
    st: BuildState,
    fuel: nat,
)
    ensures
        ({
            let r = crate::pso_write::write_member(c, def, e, value, buf, st, fuel);
            r.0.len() == buf.len() && grows(st, r.1)
        }),
    decreases crate::pso_write::member_measure(value), fuel, 3int, 0int,
{
    if e.ty == T_STRUCT {
        lemma_struct_member_grows(c, def, e, value, buf, st, fuel);
    } else if e.ty == T_ARRAY {
        lemma_array_member_grows(c, def, e, value, buf, st, fuel);
    } else if e.ty == T_MAP {
        lemma_map_member_grows(c, def, e, value, buf, st, fuel);
    } else if e.ty == T_STRING {
        let v = crate::pso_write::value_or_null(value);
        match crate::coerce::as_text(v) {
            Some(t) => {
                lemma_add(st, B_STRING, vstd::utf8::encode_utf8(t).push(0));
            },
            None => {},
        }
    } else {
        lemma_use_enum(c, st, e.ref_key);
        lemma_use_enum(c, st, crate::pso_write::flags_enum(def, e));
    }
}

pub proof fn lemma_run_grows(
    c: Context,
    def: PsoStructDefView,
    e: PsoEntryDef,
    elem: PsoEntryDef,
    items: Seq<ValueView>,
    st: BuildState,
    fuel: nat,
)
    ensures
        grows(st, crate::pso_write::element_run(c, def, e, elem, items, st, fuel).1),
    decreases crate::pso_write::items_measure(items), fuel, 2int, 0int,
{
    let used = if elem.ty == T_ENUM {
        crate::pso_write::use_enum(c, st, elem.ref_key)
    } else {
        st
    };
    lemma_use_enum(c, st, elem.ref_key);
    assert(grows(st, used));
    lemma_items_grow(c, def, e, elem, items, used, items.len());
    let r = crate::pso_write::items_run(c, def, e, elem, items, used, items.len());
    lemma_grows_on(st, used, r.1);
}

pub proof fn lemma_items_grow(
    c: Context,
    def: PsoStructDefView,
    e: PsoEntryDef,
    elem: PsoEntryDef,
    items: Seq<ValueView>,
    st: BuildState,
    k: nat,
)
    ensures
        grows(st, crate::pso_write::items_run(c, def, e, elem, items, st, k).1),
    decreases crate::pso_write::items_measure(items), 0nat, 1int, k,
{
    if 0 < k <= items.len() {
        lemma_items_grow(c, def, e, elem, items, st, (k - 1) as nat);
        let before = crate::pso_write::items_run(c, def, e, elem, items, st, (k - 1) as nat);
        crate::value::lemma_item_height(items, k - 1);
        if before.0 is Some {
            lemma_item_grows(c, def, e, elem, items[k - 1], before.1);
            let r = crate::pso_write::write_item(c, def, e, elem, items[k - 1], before.1);
            lemma_grows_on(st, before.1, r.1);
        }
    }
}

pub proof fn lemma_item_grows(
    c: Context,
    def: PsoStructDefView,
    e: PsoEntryDef,
    elem: PsoEntryDef,
    item: ValueView,
    st: BuildState,
)
    ensures
        grows(st, crate::pso_write::write_item(c, def, e, elem, item, st).1),
    decreases 2 * crate::value::height(item) + 1, 0nat, 0int, 0int,
{
    let full = crate::pso_write::full_fuel(c.schema);
    if crate::pso_write::is_scalar_run(elem) {
    } else if elem.ty == T_STRING {
        let t = crate::pso_write::item_text(item);
        lemma_add(st, B_STRING, vstd::utf8::encode_utf8(t).push(0));
    } else if elem.subtype == 3 {
        match item {
            ValueView::Struct(s) => {
                let ty = crate::pso_write::pointee_type(c, s, elem.ref_key);
                lemma_struct_grows(c, ty, Some(s.fields), st, full);
                let r = crate::pso_write::write_struct(c, ty, Some(s.fields), st, full);
                let name = c.schema.pso_structs[ty].name;
                lemma_add(r.1, name, r.0);
                lemma_grows_on(st, r.1, crate::pso_write::add_item(r.1, name, r.0).0);
            },
            _ => {},
        }
    } else {
        match item {
            ValueView::Struct(s) => {
                lemma_struct_grows(c, elem.ref_key, Some(s.fields), st, full);
            },
            ValueView::Null => {
                lemma_struct_grows(c, elem.ref_key, None, st, full);
            },
            _ => {
                let r = crate::pso_write::write_item(c, def, e, elem, item, st);
                let noted = BuildState {
                    warnings: crate::build_warning::warned(
                        st.warnings,
                        crate::build_warning::BuildWarningView::Element {
                            structure: def.name,
                            member: e.name,
                            value: item,
                        },
                    ),
                    ..st
                };
                lemma_struct_grows(c, elem.ref_key, None, noted, full);
                assert(grows(st, noted));
                lemma_grows_on(st, noted, r.1);
            },
        }
    }
}

pub proof fn lemma_pairs_grow(
    c: Context,
    pair_type: u32,
    pairs: Seq<(ValueView, ValueView)>,
    st: BuildState,
    fuel: nat,
    k: nat,
)
    ensures
        grows(st, crate::pso_write::pairs_run(c, pair_type, pairs, st, fuel, k).1),
    decreases crate::pso_write::pairs_measure(pairs), fuel, 1int, k,
{
    if 0 < k <= pairs.len() {
        lemma_pairs_grow(c, pair_type, pairs, st, fuel, (k - 1) as nat);
        let before = crate::pso_write::pairs_run(c, pair_type, pairs, st, fuel, (k - 1) as nat);
        let entries = c.schema.pso_structs[pair_type].entries;
        let names = crate::pso_write::named_members(entries, entries.len());
        crate::pso_write::lemma_pair_measure(names, pairs, k - 1);
        let fields = crate::pso_write::pair_fields(names, pairs[k - 1]);
        let full = crate::pso_write::full_fuel(c.schema);
        lemma_struct_grows(c, pair_type, Some(fields), before.1, full);
        let r = crate::pso_write::write_struct(c, pair_type, Some(fields), before.1, full);
        lemma_grows_on(st, before.1, r.1);
    }
}

} // verus!
