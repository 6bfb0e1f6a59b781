//! What a writer has put into blocks stays where it is.

use vstd::prelude::*;

use crate::meta_write::{BLOCK_SPLIT, T_ARRAY, T_BYTE_ARRAY, T_CHAR_PTR, T_DATA_BLOCK_PTR, T_STRUCT, T_STRUCT_PTR};
use crate::pso_write::{BuildState, Context};
use crate::schema::{MetaEntryDef, MetaStructDefView, ARRAYINFO};
use crate::value::ValueView;

verus! {

/// Whether `all` starts with `first`.
pub open spec fn begins(all: Seq<u8>, first: Seq<u8>) -> bool {
    first.len() <= all.len() && forall|i: int|
        0 <= i < first.len() ==> #[trigger] all[i] == first[i]
}

/// Whether one state goes on from another: its blocks start with what they
/// held, and what was used still is.
pub open spec fn grows(a: BuildState, b: BuildState) -> bool {
    &&& a.blocks.len() <= b.blocks.len()
    &&& forall|i: int|
        0 <= i < a.blocks.len() ==> (#[trigger] b.blocks[i]).0 == a.blocks[i].0 && begins(
            b.blocks[i].1,
            a.blocks[i].1,
        )
    &&& forall|x: u32| a.used_structs.contains(x) ==> #[trigger] b.used_structs.contains(x)
    &&& forall|x: u32| a.used_enums.contains(x) ==> #[trigger] b.used_enums.contains(x)
}

/// Whether one state goes on from another and leaves the first block alone.
pub open spec fn steps(a: BuildState, b: BuildState) -> bool {
    grows(a, b) && (a.blocks.len() > 0 ==> b.blocks[0] == a.blocks[0])
}

pub proof fn lemma_grows_on(a: BuildState, b: BuildState, c: BuildState)
    requires
        grows(a, b),
        grows(b, c),
    ensures
        grows(a, c),
{
    assert forall|i: int| 0 <= i < a.blocks.len() implies (#[trigger] c.blocks[i]).0
        == a.blocks[i].0 && begins(c.blocks[i].1, a.blocks[i].1) by {
        assert(b.blocks[i].0 == a.blocks[i].0);
        let x = a.blocks[i].1;
        let y = b.blocks[i].1;
        let z = c.blocks[i].1;
        assert(begins(y, x) && begins(z, y));
        assert forall|j: int| 0 <= j < x.len() implies #[trigger] z[j] == x[j] by {
            assert(z[j] == y[j]);
            assert(y[j] == x[j]);
        }
    }
    assert forall|x: u32| a.used_structs.contains(x) implies #[trigger] c.used_structs.contains(
        x,
    ) by {
        assert(b.used_structs.contains(x));
    }
    assert forall|x: u32| a.used_enums.contains(x) implies #[trigger] c.used_enums.contains(
        x,
    ) by {
        assert(b.used_enums.contains(x));
    }
}

pub proof fn lemma_steps_on(a: BuildState, b: BuildState, c: BuildState)
    requires
        steps(a, b),
        steps(b, c),
    ensures
        steps(a, c),
{
    lemma_grows_on(a, b, c);
}

proof fn lemma_place(blocks: Seq<(u32, Seq<u8>)>, name: u32, i: int)
    requires
        0 <= i <= blocks.len(),
    ensures
        ({
            let at = crate::meta_write::block_for(blocks, name, i);
            &&& i <= at <= blocks.len()
            &&& at < blocks.len() ==> at > 0 && blocks[at].0 == name && blocks[at].1.len()
                < BLOCK_SPLIT
        }),
    decreases blocks.len() - i,
{
    if i < blocks.len() && !(i > 0 && blocks[i].0 == name && blocks[i].1.len() < BLOCK_SPLIT) {
        lemma_place(blocks, name, i + 1);
    }
}

/// Where some bytes stand that were added.
pub open spec fn stands(st: BuildState, block: int, off: int, name: u32, bytes: Seq<u8>) -> bool {
    &&& 0 < block < st.blocks.len()
    &&& 0 <= off < BLOCK_SPLIT
    &&& st.blocks[block].0 == name
    &&& off + bytes.len() <= st.blocks[block].1.len()
    &&& st.blocks[block].1.subrange(off, off + bytes.len()) == bytes
}

pub proof fn lemma_append(st: BuildState, name: u32, bytes: Seq<u8>, pad: bool)
    requires
        st.blocks.len() > 0,
    ensures
        ({
            let r = crate::meta_write::append(st, name, bytes, pad);
            let block = crate::meta_write::block_for(st.blocks, name, 0);
            let off = if block < st.blocks.len() {
                st.blocks[block].1.len() as int
            } else {
                0
            };
            &&& steps(st, r.0)
            &&& r.0.blocks.len() > 0
            &&& r.1 == crate::meta_write::pointer(block, off)
            &&& stands(r.0, block, off, name, bytes)
        }),
{
    let r = crate::meta_write::append(st, name, bytes, pad);
    let i = crate::meta_write::block_for(st.blocks, name, 0);
    lemma_place(st.blocks, name, 0);
    let old = if i < st.blocks.len() {
        st.blocks[i].1
    } else {
        Seq::empty()
    };
    let data = r.0.blocks[i].1;
    assert(begins(data, old + bytes));
    assert(begins(data, old)) by {
        assert forall|j: int| 0 <= j < old.len() implies #[trigger] data[j] == old[j] by {
            assert(data[j] == (old + bytes)[j]);
        }
    }
    let from = old.len() as int;
    assert(data.subrange(from, from + bytes.len()) =~= bytes) by {
        assert forall|j: int| 0 <= j < bytes.len() implies data.subrange(
            from,
            from + bytes.len(),
        )[j] == bytes[j] by {
            assert(data[from + j] == (old + bytes)[from + j]);
        }
    }
}

/// What stands in a block stands there still later.
pub proof fn lemma_stands_on(
    a: BuildState,
    b: BuildState,
    block: int,
    off: int,
    name: u32,
    bytes: Seq<u8>,
)
    requires
        stands(a, block, off, name, bytes),
        grows(a, b),
    ensures
        stands(b, block, off, name, bytes),
{
    let x = a.blocks[block].1;
    let y = b.blocks[block].1;
    assert(b.blocks[block].0 == a.blocks[block].0 && begins(y, x));
    assert(y.subrange(off, off + bytes.len()) =~= x.subrange(off, off + bytes.len()));
}

proof fn lemma_data_block(st: BuildState, bytes: Seq<u8>)
    requires
        st.blocks.len() > 0,
    ensures
        steps(st, crate::meta_write::add_data_block(st, bytes).0),
        crate::meta_write::add_data_block(st, bytes).0.blocks.len() > 0,
{
}

pub proof fn lemma_use_struct(st: BuildState, name: u32)
    ensures
        steps(st, crate::pso_write::use_struct(st, name)),
        crate::pso_write::use_struct(st, name).used_structs.contains(name),
{
    let s = st.used_structs;
    let r = crate::pso_write::with_once(s, name);
    if !s.contains(name) {
        assert(r[s.len() as int] == name);
        assert forall|x: u32| s.contains(x) implies #[trigger] r.contains(x) by {
            let i = choose|i: int| 0 <= i < s.len() && s[i] == x;
            assert(r[i] == x);
        }
    }
}

pub proof fn lemma_use_enum(c: Context, st: BuildState, name: u32)
    ensures
        steps(st, crate::meta_write::use_enum(c, st, name)),
        c.schema.meta_enums.contains_key(name) ==> crate::meta_write::use_enum(
            c,
            st,
            name,
        ).used_enums.contains(name),
{
    let s = st.used_enums;
    let r = crate::pso_write::with_once(s, name);
    if !s.contains(name) {
        assert(r[s.len() as int] == name);
        assert forall|x: u32| s.contains(x) implies #[trigger] r.contains(x) by {
            let i = choose|i: int| 0 <= i < s.len() && s[i] == x;
            assert(r[i] == x);
        }
    }
}

/// The bytes of a structure are as many as its size, and writing it only
/// adds to the blocks.
pub proof fn lemma_struct_steps(
    c: Context,
    key: u32,
    fields: Option<Seq<(u32, ValueView)>>,
    st: BuildState,
    fuel: nat,
)
    requires
        st.blocks.len() > 0,
    ensures
        ({
            let r = crate::meta_write::write_struct(c, key, fields, st, fuel);
            &&& r.0.len() == c.schema.meta_structs[key].size
            &&& steps(st, r.1)
            &&& r.1.blocks.len() > 0
            &&& r.1.used_structs.contains(c.schema.meta_structs[key].name)
        }),
    decreases crate::pso_write::struct_measure(fields), fuel, 5int, 0int,
{
    let def = c.schema.meta_structs[key];
    let used = crate::pso_write::use_struct(st, def.name);
    lemma_use_struct(st, def.name);
    lemma_members_step(
        c,
        def,
        fields,
        crate::bytes::zeros(def.size as int),
        used,
        fuel,
        def.entries.len(),
    );
    let r = crate::meta_write::write_struct(c, key, fields, st, fuel);
    lemma_steps_on(st, used, r.1);
}

pub proof fn lemma_members_step(
    c: Context,
    def: MetaStructDefView,
    fields: Option<Seq<(u32, ValueView)>>,
    buf: Seq<u8>,
    st: BuildState,
    fuel: nat,
    k: nat,
)
    requires
        st.blocks.len() > 0,
    ensures
        ({
            let r = crate::meta_write::write_members(c, def, fields, buf, st, fuel, k);
            &&& r.0.len() == buf.len()
            &&& steps(st, r.1)
            &&& r.1.blocks.len() > 0
        }),
    decreases crate::pso_write::struct_measure(fields), fuel, 4int, k,
{
    if k > 0 {
        lemma_members_step(c, def, fields, buf, st, fuel, (k - 1) as nat);
        let before = crate::meta_write::write_members(
            c,
            def,
            fields,
            buf,
            st,
            fuel,
            (k - 1) as nat,
        );
        let e = def.entries[k - 1];
        if e.name != ARRAYINFO {
            crate::pso_write::lemma_member_measure(fields, e.name);
            let value = crate::pso_write::member_value(fields, e.name);
            let elem = crate::meta_write::array_info(def.entries, k - 1);
            lemma_member_step(c, def, e, elem, value, before.0, before.1, fuel);
            let r = crate::meta_write::write_member(
                c,
                def,
                e,
                elem,
                value,
                before.0,
                before.1,
                fuel,
            );
            lemma_steps_on(st, before.1, r.1);
        }
    }
}

proof fn lemma_integers_length(
    c: Context,
    buf: Seq<u8>,
    off: int,
    stride: int,
    items: Seq<ValueView>,
    k: nat,
)
    ensures
        crate::meta_write::integers_into(c, buf, off, stride, items, k).0.len() == buf.len(),
    decreases k,
{
    if k > 0 {
        lemma_integers_length(c, buf, off, stride, items, (k - 1) as nat);
    }
}

proof fn lemma_plain_step(
    c: Context,
    def: MetaStructDefView,
    e: MetaEntryDef,
    elem: Option<MetaEntryDef>,
    value: Option<ValueView>,
    buf: Seq<u8>,
    st: BuildState,
    fuel: nat,
)
    requires
        st.blocks.len() > 0,
        crate::meta_write::plain_need(e) is Some,
    ensures
        ({
            let r = crate::meta_write::write_member(c, def, e, elem, value, buf, st, fuel);
            &&& r.0.len() == buf.len()
            &&& steps(st, r.1)
            &&& r.1.blocks.len() > 0
        }),
{
    lemma_use_enum(c, st, e.ref_key);
}

#[verifier::rlimit(30)]
#[verifier::spinoff_prover]
pub proof fn lemma_member_step(
    c: Context,
    def: MetaStructDefView,
    e: MetaEntryDef,
    elem: Option<MetaEntryDef>,
    value: Option<ValueView>,
    buf: Seq<u8>,
    st: BuildState,
    fuel: nat,
)
    requires
        st.blocks.len() > 0,
    ensures
        ({
            let r = crate::meta_write::write_member(c, def, e, elem, value, buf, st, fuel);
            &&& r.0.len() == buf.len()
            &&& steps(st, r.1)
            &&& r.1.blocks.len() > 0
        }),
    decreases crate::pso_write::member_measure(value), fuel, 3int, 0int,
{
    let v = crate::pso_write::value_or_null(value);
    if crate::meta_write::plain_need(e) is Some {
        lemma_plain_step(c, def, e, elem, value, buf, st, fuel);
    } else if e.ty == T_BYTE_ARRAY {
        let stride = crate::meta_write::stride_of(elem);
        if v is Array && stride > 1 {
            let items = v->Array_0.items;
            lemma_integers_length(
                c,
                buf,
                e.offset as int,
                stride,
                items,
                crate::resource::least(items.len() as int, e.ref_key as int) as nat,
            );
        }
    } else if e.ty == T_CHAR_PTR {
        match crate::coerce::as_text(v) {
            Some(t) => {
                lemma_append(
                    st,
                    crate::meta_write::B_STRING,
                    vstd::utf8::encode_utf8(t).push(0),
                    false,
                );
            },
            None => {},
        }
    } else if e.ty == T_DATA_BLOCK_PTR {
        match crate::coerce::as_bytes(v, c.floats) {
            Some(b) => {
                lemma_data_block(st, b);
            },
            None => {},
        }
    } else if e.ty == T_STRUCT_PTR {
        match value {
            Some(ValueView::Struct(s)) => {
                let ty = crate::meta_write::pointee_type(c, s, e.ref_key);
                let full = crate::meta_write::full_fuel(c.schema);
                lemma_struct_steps(c, ty, Some(s.fields), st, full);
                let r = crate::meta_write::write_struct(c, ty, Some(s.fields), st, full);
                let name = c.schema.meta_structs[ty].name;
                lemma_append(r.1, name, r.0, true);
                lemma_steps_on(st, r.1, crate::meta_write::append(r.1, name, r.0, true).0);
            },
            _ => {},
        }
    } else if e.ty == T_STRUCT {
        let full = crate::meta_write::full_fuel(c.schema);
        match value {
            Some(ValueView::Struct(s)) => {
                lemma_struct_steps(c, e.ref_key, Some(s.fields), st, full);
            },
            Some(ValueView::Null) => {
                lemma_struct_steps(c, e.ref_key, None, st, full);
            },
            None => {
                if fuel > 0 && !st.endless {
                    lemma_struct_steps(c, e.ref_key, None, st, (fuel - 1) as nat);
                }
            },
            _ => {},
        }
    } else if e.ty == T_ARRAY {
        match elem {
            Some(x) => {
                let items = crate::pso_write::items_of(v);
                if items.len() > 0 {
                    lemma_run_steps(c, def, e, x, items, st, items.len());
                    let r = crate::meta_write::element_run(c, def, e, x, items, st, fuel);
                    if r.0 is Some {
                        let name = crate::meta_write::run_block(c, x);
                        lemma_append(r.1, name, r.0->0, true);
                        lemma_steps_on(
                            st,
                            r.1,
                            crate::meta_write::append(r.1, name, r.0->0, true).0,
                        );
                    }
                }
            },
            None => {},
        }
    }
}

pub proof fn lemma_run_steps(
    c: Context,
    def: MetaStructDefView,
    e: MetaEntryDef,
    elem: MetaEntryDef,
    items: Seq<ValueView>,
    st: BuildState,
    k: nat,
)
    requires
        st.blocks.len() > 0,
    ensures
        ({
            let r = crate::meta_write::items_run(c, def, e, elem, items, st, k);
            steps(st, r.1) && r.1.blocks.len() > 0
        }),
    decreases crate::pso_write::items_measure(items), 0nat, 1int, k,
{
    if 0 < k <= items.len() {
        lemma_run_steps(c, def, e, elem, items, st, (k - 1) as nat);
        let before = crate::meta_write::items_run(c, def, e, elem, items, st, (k - 1) as nat);
        crate::value::lemma_item_height(items, k - 1);
        if before.0 is Some {
            lemma_item_steps(c, def, e, elem, items[k - 1], before.1);
            let r = crate::meta_write::write_item(c, def, e, elem, items[k - 1], before.1);
            lemma_steps_on(st, before.1, r.1);
        }
    }
}

pub proof fn lemma_item_steps(
    c: Context,
    def: MetaStructDefView,
    e: MetaEntryDef,
    elem: MetaEntryDef,
    item: ValueView,
    st: BuildState,
)
    requires
        st.blocks.len() > 0,
    ensures
        ({
            let r = crate::meta_write::write_item(c, def, e, elem, item, st);
            steps(st, r.1) && r.1.blocks.len() > 0
        }),
    decreases 2 * crate::value::height(item) + 1, 0nat, 0int, 0int,
{
    let full = crate::meta_write::full_fuel(c.schema);
    if crate::meta_write::is_scalar_run(elem) {
    } else if elem.ty == T_CHAR_PTR {
        let t = crate::pso_write::item_text(item);
        lemma_append(
            st,
            crate::meta_write::B_STRING,
            vstd::utf8::encode_utf8(t).push(0),
            false,
        );
    } else if elem.ty == T_STRUCT_PTR {
        match item {
            ValueView::Struct(s) => {
                let ty = crate::meta_write::pointee_type(c, s, elem.ref_key);
                lemma_struct_steps(c, ty, Some(s.fields), st, full);
                let r = crate::meta_write::write_struct(c, ty, Some(s.fields), st, full);
                let name = c.schema.meta_structs[ty].name;
                lemma_append(r.1, name, r.0, true);
                lemma_steps_on(st, r.1, crate::meta_write::append(r.1, name, r.0, true).0);
            },
            _ => {},
        }
    } else {
        match item {
            ValueView::Struct(s) => {
                lemma_struct_steps(c, elem.ref_key, Some(s.fields), st, full);
            },
            ValueView::Null => {
                lemma_struct_steps(c, elem.ref_key, None, st, full);
            },
            _ => {
                let r = crate::meta_write::write_item(c, def, e, elem, item, st);
                let noted = BuildState {
                    warnings: crate::build_warning::warned(
                        st.warnings,
                        crate::build_warning::BuildWarningView::Element {
                            structure: def.name,
                            member: e.name,
                            value: item,
                        },
                    ),
                    ..st
                };
                lemma_struct_steps(c, elem.ref_key, None, noted, full);
                assert(steps(st, noted));
                lemma_steps_on(st, noted, r.1);
            },
        }
    }
}

} // verus!
