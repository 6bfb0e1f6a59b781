//! Every member of a structure is written in its own place.

use vstd::prelude::*;

use crate::meta_write::{T_BYTE_ARRAY, T_STRUCT};
use crate::pso_write::{BuildState, Context};
use crate::schema::{MetaEntryDef, MetaStructDefView, ARRAYINFO};
use crate::value::ValueView;

verus! {

/// Whether two buffers differ nowhere but in a place.
pub open spec fn same_but(a: Seq<u8>, b: Seq<u8>, from: int, to: int) -> bool {
    a.len() == b.len() && forall|j: int|
        0 <= j < a.len() && !(from <= j < to) ==> #[trigger] b[j] == a[j]
}

pub proof fn lemma_integers_confined(
    c: Context,
    buf: Seq<u8>,
    off: int,
    stride: int,
    items: Seq<ValueView>,
    k: nat,
)
    requires
        stride == 2 || stride == 4,
    ensures
        same_but(
            buf,
            crate::meta_write::integers_into(c, buf, off, stride, items, k).0,
            off,
            off + k * stride,
        ),
    decreases k,
{
    if k > 0 {
        lemma_integers_confined(c, buf, off, stride, items, (k - 1) as nat);
        let before = crate::meta_write::integers_into(c, buf, off, stride, items, (k - 1) as nat);
        let after = crate::meta_write::integers_into(c, buf, off, stride, items, k);
        assert(k * stride == (k - 1) * stride + stride) by (nonlinear_arith);
        assert forall|j: int| 0 <= j < buf.len() && !(off <= j < off + k * stride) implies
            #[trigger] after.0[j] == buf[j] by {
            assert(before.0[j] == buf[j]);
        }
    }
}

proof fn lemma_plain_confined(c: Context, e: MetaEntryDef, v: ValueView)
    ensures
        crate::meta_write::plain_need(e) is Some && crate::meta_write::plain_bytes(c, e, v) is Some
            ==> crate::meta_write::plain_bytes(c, e, v)->0.len() <= crate::meta_write::plain_need(
            e,
        )->0,
{
}

/// A member changes nothing outside its own place.
#[verifier::rlimit(60)]
#[verifier::spinoff_prover]
pub proof fn lemma_member_confined(
    c: Context,
    def: MetaStructDefView,
    e: MetaEntryDef,
    elem: Option<MetaEntryDef>,
    value: Option<ValueView>,
    buf: Seq<u8>,
    st: BuildState,
    fuel: nat,
)
    requires
        st.blocks.len() > 0,
    ensures
        same_but(
            buf,
            crate::meta_write::write_member(c, def, e, elem, value, buf, st, fuel).0,
            e.offset as int,
            e.offset + crate::meta_laws::fits::room(c.schema, e, elem),
        ),
{
    let v = crate::pso_write::value_or_null(value);
    let off = e.offset as int;
    if crate::meta_write::plain_need(e) is Some {
        lemma_plain_confined(c, e, v);
    } else if e.ty == T_BYTE_ARRAY {
        let stride = crate::meta_write::stride_of(elem);
        let room = e.ref_key * stride;
        if v is Array && stride > 1 {
            let items = v->Array_0.items;
            let n = crate::resource::least(items.len() as int, e.ref_key as int) as nat;
            lemma_integers_confined(c, buf, off, stride, items, n);
            assert(n * stride <= room) by (nonlinear_arith)
                requires
                    n <= e.ref_key,
                    stride > 0,
                    room == e.ref_key * stride,
            ;
        } else {
            assert(room >= 0) by (nonlinear_arith)
                requires
                    room == e.ref_key * stride,
                    stride >= 0,
            ;
        }
    } else if e.ty == T_STRUCT {
        let full = crate::meta_write::full_fuel(c.schema);
        match value {
            Some(ValueView::Struct(s)) => {
                crate::meta_laws::grow::lemma_struct_steps(
                    c,
                    e.ref_key,
                    Some(s.fields),
                    st,
                    full,
                );
            },
            Some(ValueView::Null) => {
                crate::meta_laws::grow::lemma_struct_steps(c, e.ref_key, None, st, full);
            },
            None => {
                if fuel > 0 && !st.endless {
                    crate::meta_laws::grow::lemma_struct_steps(
                        c,
                        e.ref_key,
                        None,
                        st,
                        (fuel - 1) as nat,
                    );
                }
            },
            _ => {},
        }
    }
}

/// Members that lie apart from a place leave it alone.
pub proof fn lemma_members_apart(
    c: Context,
    def: MetaStructDefView,
    fields: Option<Seq<(u32, ValueView)>>,
    buf: Seq<u8>,
    st: BuildState,
    fuel: nat,
    m: nat,
    n: nat,
    from: int,
    to: int,
)
    requires
        st.blocks.len() > 0,
        m <= n <= def.entries.len(),
        0 <= from <= to <= buf.len(),
        forall|k: int|
            m <= k < n && (#[trigger] def.entries[k]).name != ARRAYINFO ==> {
                ||| def.entries[k].offset + crate::meta_laws::fits::room_at(
                    c.schema,
                    def.entries,
                    k,
                ) <= from
                ||| to <= def.entries[k].offset
            },
    ensures
        crate::meta_write::write_members(c, def, fields, buf, st, fuel, n).0.subrange(from, to)
            == crate::meta_write::write_members(c, def, fields, buf, st, fuel, m).0.subrange(
            from,
            to,
        ),
    decreases n,
{
    if m < n {
        lemma_members_apart(c, def, fields, buf, st, fuel, m, (n - 1) as nat, from, to);
        crate::meta_laws::grow::lemma_members_step(
            c,
            def,
            fields,
            buf,
            st,
            fuel,
            (n - 1) as nat,
        );
        let before = crate::meta_write::write_members(
            c,
            def,
            fields,
            buf,
            st,
            fuel,
            (n - 1) as nat,
        );
        let e = def.entries[n - 1];
        if e.name != ARRAYINFO {
            let elem = crate::meta_write::array_info(def.entries, n - 1);
            let value = crate::pso_write::member_value(fields, e.name);
            lemma_member_confined(c, def, e, elem, value, before.0, before.1, fuel);
            let after = crate::meta_write::write_member(
                c,
                def,
                e,
                elem,
                value,
                before.0,
                before.1,
                fuel,
            );
            assert(after.0.subrange(from, to) =~= before.0.subrange(from, to));
        }
    }
}

} // verus!
