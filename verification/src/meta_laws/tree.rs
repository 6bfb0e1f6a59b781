//! Structures come back with all that they hold.

use vstd::prelude::*;

use crate::meta_laws::spots::{Spot, World};
use crate::meta_schema::MetaType;
use crate::meta_write::{B_STRING, SOA_VECTOR, T_ARRAY, T_CHAR_PTR, T_STRUCT, T_STRUCT_PTR};
use crate::pso_write::BuildState;
use crate::schema::{MetaEntryDef, MetaStructDefView, ARRAYINFO};
use crate::value::{StructView, ValueView};
use crate::warning::Warning;

verus! {

broadcast use crate::bytes::group_subrange_reads;

// ─── the members of a structure ──────────────────────────────────────────────

/// The first value of a name is the one that is found.
pub proof fn lemma_field_first(fields: Seq<(u32, ValueView)>, name: u32, i: int)
    requires
        0 <= i < fields.len(),
        fields[i].0 == name,
        forall|j: int| 0 <= j < i ==> (#[trigger] fields[j]).0 != name,
    ensures
        crate::value::field_of(fields, name) == Some(fields[i].1),
    decreases i,
{
    if i > 0 {
        assert(fields[0].0 != name);
        let rest = fields.skip(1);
        assert forall|j: int| 0 <= j < i - 1 implies (#[trigger] rest[j]).0 != name by {
            assert(rest[j] == fields[j + 1]);
        }
        lemma_field_first(rest, name, i - 1);
    }
}

proof fn lemma_valued_before(entries: Seq<MetaEntryDef>, k: nat, n: nat)
    requires
        k <= n,
    ensures
        crate::meta_laws::fits::valued(entries, k) <= crate::meta_laws::fits::valued(entries, n),
        k < n && entries[k as int].name != ARRAYINFO ==> crate::meta_laws::fits::valued(entries, k)
            < crate::meta_laws::fits::valued(entries, n),
    decreases n,
{
    if k < n {
        lemma_valued_before(entries, k, (n - 1) as nat);
    }
}

/// The member that value `j` belongs to.
proof fn lemma_valued_member(entries: Seq<MetaEntryDef>, k: nat, j: int) -> (m: int)
    requires
        0 <= j < crate::meta_laws::fits::valued(entries, k),
    ensures
        0 <= m < k,
        entries[m].name != ARRAYINFO,
        crate::meta_laws::fits::valued(entries, m as nat) == j,
    decreases k,
{
    if entries[k - 1].name != ARRAYINFO && j == crate::meta_laws::fits::valued(
        entries,
        (k - 1) as nat,
    ) {
        k - 1
    } else {
        lemma_valued_member(entries, (k - 1) as nat, j)
    }
}

pub proof fn lemma_member_found(w: World, key: u32, fields: Seq<(u32, ValueView)>, depth: nat, k: int)
    requires
        crate::meta_laws::fits::fits_struct(w.f, w.c.schema, key, fields, depth),
        0 <= k < w.c.schema.meta_structs[key].entries.len(),
        w.c.schema.meta_structs[key].entries[k].name != ARRAYINFO,
    ensures
        ({
            let entries = w.c.schema.meta_structs[key].entries;
            let i = crate::meta_laws::fits::valued(entries, k as nat) as int;
            &&& 0 <= i < fields.len()
            &&& crate::pso_write::member_value(Some(fields), entries[k].name) == Some(fields[i].1)
        }),
{
    let entries = w.c.schema.meta_structs[key].entries;
    let i = crate::meta_laws::fits::valued(entries, k as nat) as int;
    lemma_valued_before(entries, k as nat, entries.len());
    assert(fields[i].0 == entries[k].name);
    assert forall|j: int| 0 <= j < i implies (#[trigger] fields[j]).0 != entries[k].name by {
        let m = lemma_valued_member(entries, k as nat, j);
        assert(fields[crate::meta_laws::fits::valued(entries, m as nat) as int].0
            == entries[m].name);
        assert(entries[m].name != entries[k].name);
    }
    lemma_field_first(fields, entries[k].name, i);
}

proof fn lemma_last_info(def: MetaStructDefView, k: nat)
    requires
        k <= def.entries.len(),
    ensures
        ({
            let info = crate::meta_laws::fits::info_of(def);
            match crate::meta_schema::last_info(info.entries, k) {
                Some(i) => 0 <= i < k && crate::meta_write::last_info(def.entries, k) == Some(
                    def.entries[i],
                ),
                None => crate::meta_write::last_info(def.entries, k) is None,
            }
        }),
    decreases k,
{
    if k > 0 {
        let info = crate::meta_laws::fits::info_of(def);
        assert(info.entries[k - 1].name_hash == def.entries[k - 1].name);
        lemma_last_info(def, (k - 1) as nat);
    }
}

proof fn lemma_elem(def: MetaStructDefView, k: int)
    requires
        0 <= k < def.entries.len(),
    ensures
        ({
            let info = crate::meta_laws::fits::info_of(def);
            crate::meta_schema::element_of(
                info,
                crate::meta_laws::fits::info_entry(def.entries[k]),
                crate::meta_schema::last_info(info.entries, k as nat),
            ) == crate::meta_laws::spots::info_elem(
                crate::meta_write::array_info(def.entries, k),
            )
        }),
{
    lemma_last_info(def, k as nat);
}

/// What is written of a structure up to member `k`.
pub open spec fn so_far(
    w: World,
    key: u32,
    fields: Seq<(u32, ValueView)>,
    st: BuildState,
    fuel: nat,
    k: nat,
) -> (Seq<u8>, BuildState) {
    let def = w.c.schema.meta_structs[key];
    crate::meta_write::write_members(
        w.c,
        def,
        Some(fields),
        crate::bytes::zeros(def.size as int),
        crate::pso_write::use_struct(st, def.name),
        fuel,
        k,
    )
}

/// Member `k` of a structure that is written and read.
pub open spec fn spot_at(
    w: World,
    key: u32,
    fields: Seq<(u32, ValueView)>,
    st: BuildState,
    fuel: nat,
    block: int,
    off: u64,
    depth: nat,
    k: int,
) -> Spot {
    let def = w.c.schema.meta_structs[key];
    let before = so_far(w, key, fields, st, fuel, k as nat);
    Spot {
        w,
        def,
        e: def.entries[k],
        elem: crate::meta_write::array_info(def.entries, k),
        last: crate::meta_schema::last_info(
            crate::meta_laws::fits::info_of(def).entries,
            k as nat,
        ),
        v: fields[crate::meta_laws::fits::valued(def.entries, k as nat) as int].1,
        buf: before.0,
        st: before.1,
        fuel,
        block,
        abs: (off + def.entries[k].offset) as u64,
        depth: depth + 1,
    }
}

/// What the writer and the file have to agree on for a structure to come
/// back.
spec fn placed(
    w: World,
    key: u32,
    fields: Seq<(u32, ValueView)>,
    st: BuildState,
    fuel: nat,
    block: int,
    off: u64,
    depth: nat,
) -> bool {
    let r = crate::meta_write::write_struct(w.c, key, Some(fields), st, fuel);
    &&& w.shown()
    &&& st.blocks.len() > 0
    &&& crate::meta_laws::fits::fits_struct(w.f, w.c.schema, key, fields, depth)
    &&& crate::meta_laws::grow::grows(r.1, w.end)
    &&& w.has(block, off as int, r.0)
}

pub proof fn lemma_room_positive(w: World, e: MetaEntryDef, elem: Option<MetaEntryDef>)
    ensures
        crate::meta_laws::fits::room(w.c.schema, e, elem) >= 0,
{
    let stride = crate::meta_write::stride_of(elem);
    assert(e.ref_key * stride >= 0) by (nonlinear_arith)
        requires
            stride >= 0,
    ;
}

proof fn lemma_spot_slot(
    w: World,
    key: u32,
    fields: Seq<(u32, ValueView)>,
    st: BuildState,
    fuel: nat,
    block: int,
    off: u64,
    depth: nat,
    k: int,
)
    requires
        placed(w, key, fields, st, fuel, block, off, depth),
        0 <= k < w.c.schema.meta_structs[key].entries.len(),
        w.c.schema.meta_structs[key].entries[k].name != ARRAYINFO,
    ensures
        ({
            let p = spot_at(w, key, fields, st, fuel, block, off, depth, k);
            &&& 0 <= p.room()
            &&& p.off() + p.room() <= p.buf.len()
            &&& p.buf.subrange(p.off(), p.off() + p.room()) == crate::bytes::zeros(p.room())
            &&& p.after() == so_far(w, key, fields, st, fuel, (k + 1) as nat)
            &&& w.has(block, off + p.off(), p.slot())
            &&& p.abs == off + p.off()
            &&& p.abs == crate::meta_schema::member_at(
                off,
                crate::meta_laws::fits::info_entry(p.e),
            )
        }),
{
    reveal(Spot::after);
    let def = w.c.schema.meta_structs[key];
    let n = def.entries.len();
    let p = spot_at(w, key, fields, st, fuel, block, off, depth, k);
    let zero = crate::bytes::zeros(def.size as int);
    let used = crate::pso_write::use_struct(st, def.name);
    let from = p.off();
    let to = p.off() + p.room();
    lemma_room_positive(w, p.e, p.elem);
    lemma_member_found(w, key, fields, depth, k);
    crate::meta_laws::grow::lemma_use_struct(st, def.name);
    crate::meta_laws::grow::lemma_members_step(
        w.c,
        def,
        Some(fields),
        zero,
        used,
        fuel,
        k as nat,
    );
    crate::meta_laws::grow::lemma_struct_steps(w.c, key, Some(fields), st, fuel);
    assert(def.entries[k].offset + crate::meta_laws::fits::room_at(
        w.c.schema,
        def.entries,
        k,
    ) <= def.size);
    assert forall|j: int| 0 <= j < n && j != k && (#[trigger] def.entries[j]).name
        != ARRAYINFO implies {
        ||| def.entries[j].offset + crate::meta_laws::fits::room_at(w.c.schema, def.entries, j)
            <= from
        ||| to <= def.entries[j].offset
    } by {
        if j < k {
            assert(crate::meta_laws::fits::apart(w.c.schema, def.entries, j, k));
        } else {
            assert(crate::meta_laws::fits::apart(w.c.schema, def.entries, k, j));
        }
    }
    crate::meta_laws::places::lemma_members_apart(
        w.c,
        def,
        Some(fields),
        zero,
        used,
        fuel,
        0,
        k as nat,
        from,
        to,
    );
    assert(zero.subrange(from, to) =~= crate::bytes::zeros(p.room()));
    crate::meta_laws::places::lemma_members_apart(
        w.c,
        def,
        Some(fields),
        zero,
        used,
        fuel,
        (k + 1) as nat,
        n,
        from,
        to,
    );
    let r = crate::meta_write::write_struct(w.c, key, Some(fields), st, fuel);
    assert(r == so_far(w, key, fields, st, fuel, n));
    crate::meta_laws::spots::lemma_has_part(w, block, off as int, r.0, from, to);
    assert(p.slot() == r.0.subrange(from, to));
    assert(w.f.blocks[block].data.len() <= u32::MAX);
}

pub proof fn lemma_spot_grows(
    w: World,
    key: u32,
    fields: Seq<(u32, ValueView)>,
    st: BuildState,
    fuel: nat,
    k: nat,
    n: nat,
)
    requires
        st.blocks.len() > 0,
        k <= n,
    ensures
        so_far(w, key, fields, st, fuel, k).1.blocks.len() > 0,
        crate::meta_laws::grow::grows(
            so_far(w, key, fields, st, fuel, k).1,
            so_far(w, key, fields, st, fuel, n).1,
        ),
    decreases n,
{
    let def = w.c.schema.meta_structs[key];
    let zero = crate::bytes::zeros(def.size as int);
    let used = crate::pso_write::use_struct(st, def.name);
    crate::meta_laws::grow::lemma_use_struct(st, def.name);
    crate::meta_laws::grow::lemma_members_step(w.c, def, Some(fields), zero, used, fuel, k);
    if k < n {
        lemma_spot_grows(w, key, fields, st, fuel, k, (n - 1) as nat);
        let before = so_far(w, key, fields, st, fuel, (n - 1) as nat);
        let after = so_far(w, key, fields, st, fuel, n);
        crate::meta_laws::grow::lemma_members_step(
            w.c,
            def,
            Some(fields),
            zero,
            used,
            fuel,
            (n - 1) as nat,
        );
        let e = def.entries[n - 1];
        if e.name != ARRAYINFO {
            let elem = crate::meta_write::array_info(def.entries, n - 1);
            let value = crate::pso_write::member_value(Some(fields), e.name);
            crate::meta_laws::grow::lemma_member_step(
                w.c,
                def,
                e,
                elem,
                value,
                before.0,
                before.1,
                fuel,
            );
        }
        crate::meta_laws::grow::lemma_grows_on(
            so_far(w, key, fields, st, fuel, k).1,
            before.1,
            after.1,
        );
    }
}

proof fn lemma_spot_ready(
    w: World,
    key: u32,
    fields: Seq<(u32, ValueView)>,
    st: BuildState,
    fuel: nat,
    block: int,
    off: u64,
    depth: nat,
    k: int,
)
    requires
        placed(w, key, fields, st, fuel, block, off, depth),
        0 <= k < w.c.schema.meta_structs[key].entries.len(),
        w.c.schema.meta_structs[key].entries[k].name != ARRAYINFO,
    ensures
        spot_at(w, key, fields, st, fuel, block, off, depth, k).ready(),
        ({
            let p = spot_at(w, key, fields, st, fuel, block, off, depth, k);
            p.abs == crate::meta_schema::member_at(
                off,
                crate::meta_laws::fits::info_entry(p.e),
            )
        }),
{
    let def = w.c.schema.meta_structs[key];
    let n = def.entries.len();
    let p = spot_at(w, key, fields, st, fuel, block, off, depth, k);
    lemma_spot_slot(w, key, fields, st, fuel, block, off, depth, k);
    lemma_elem(def, k);
    lemma_spot_grows(w, key, fields, st, fuel, k as nat, n);
    lemma_spot_grows(w, key, fields, st, fuel, (k + 1) as nat, n);
    let r = crate::meta_write::write_struct(w.c, key, Some(fields), st, fuel);
    crate::meta_laws::grow::lemma_grows_on(p.after().1, r.1, w.end);
    assert(def.entries[k].name != ARRAYINFO);
}

/// A structure that was written comes back.
pub proof fn lemma_struct_reads(
    w: World,
    key: u32,
    fields: Seq<(u32, ValueView)>,
    st: BuildState,
    fuel: nat,
    block: int,
    off: u64,
    depth: nat,
)
    requires
        w.shown(),
        st.blocks.len() > 0,
        crate::meta_laws::fits::fits_struct(w.f, w.c.schema, key, fields, depth),
        ({
            let r = crate::meta_write::write_struct(w.c, key, Some(fields), st, fuel);
            crate::meta_laws::grow::grows(r.1, w.end) && w.has(block, off as int, r.0)
        }),
    ensures
        crate::meta_schema::read_struct(w.f, key, block, off, depth) == crate::meta_schema::plain(
            ValueView::Struct(StructView { type_hash: key, fields }),
        ),
    decreases 66 - depth, 3int, 0int,
{
    let def = w.c.schema.meta_structs[key];
    let n = def.entries.len();
    crate::meta_laws::grow::lemma_struct_steps(w.c, key, Some(fields), st, fuel);
    assert(w.end.used_structs.contains(key));
    assert(w.f.structs.contains_key(key));
    let info = crate::meta_laws::fits::info_of(def);
    assert(w.f.structs[key] == info);
    lemma_fields_read(w, key, fields, st, fuel, block, off, depth, n);
    assert(fields.take(fields.len() as int) =~= fields);
}

proof fn lemma_fields_read(
    w: World,
    key: u32,
    fields: Seq<(u32, ValueView)>,
    st: BuildState,
    fuel: nat,
    block: int,
    off: u64,
    depth: nat,
    k: nat,
)
    requires
        placed(w, key, fields, st, fuel, block, off, depth),
        k <= w.c.schema.meta_structs[key].entries.len(),
    ensures
        ({
            let def = w.c.schema.meta_structs[key];
            let r = crate::meta_schema::read_fields(
                w.f,
                crate::meta_laws::fits::info_of(def),
                block,
                off,
                depth + 1,
                k,
            );
            let n = crate::meta_laws::fits::valued(def.entries, k);
            &&& n <= fields.len()
            &&& r == (fields.take(n as int), Seq::<Warning>::empty())
        }),
    decreases 66 - depth, 2int, k,
{
    let def = w.c.schema.meta_structs[key];
    lemma_valued_before(def.entries, k, def.entries.len());
    if k == 0 {
        assert(fields.take(0) =~= Seq::<(u32, ValueView)>::empty());
    } else {
        lemma_fields_read(w, key, fields, st, fuel, block, off, depth, (k - 1) as nat);
        let info = crate::meta_laws::fits::info_of(def);
        assert(info.entries[k - 1] == crate::meta_laws::fits::info_entry(def.entries[k - 1]));
        if def.entries[k - 1].name != ARRAYINFO {
            let p = spot_at(w, key, fields, st, fuel, block, off, depth, k - 1);
            lemma_spot_ready(w, key, fields, st, fuel, block, off, depth, k - 1);
            lemma_member_reads(p);
            let n = crate::meta_laws::fits::valued(def.entries, (k - 1) as nat) as int;
            assert(fields[n].0 == def.entries[k - 1].name);
            assert(fields.take(n + 1) =~= fields.take(n).push(fields[n]));
            assert(Seq::<Warning>::empty() + Seq::<Warning>::empty() =~= Seq::<Warning>::empty());
        }
    }
}

// ─── members that hold structures ────────────────────────────────────────────

proof fn lemma_member_reads(p: Spot)
    requires
        p.ready(),
    ensures
        p.read() == crate::meta_schema::plain(p.v),
    decreases 66 - p.depth, 9int, 0int,
{
    if p.e.ty == T_STRUCT {
        lemma_inline_reads(p);
    } else if p.e.ty == T_STRUCT_PTR {
        lemma_struct_ptr_reads(p);
    } else if p.e.ty == T_ARRAY {
        lemma_array_reads(p);
    } else {
        crate::meta_laws::spots::lemma_simple_spot(p);
    }
}

proof fn lemma_inline_reads(p: Spot)
    requires
        p.ready(),
        p.e.ty == T_STRUCT,
    ensures
        p.read() == crate::meta_schema::plain(p.v),
    decreases 66 - p.depth, 8int, 0int,
{
    reveal(Spot::after);
    match p.v {
        ValueView::Struct(x) => {
            let full = crate::meta_write::full_fuel(p.w.c.schema);
            let key = p.e.ref_key;
            let r = crate::meta_write::write_struct(p.w.c, key, Some(x.fields), p.st, full);
            crate::meta_laws::grow::lemma_struct_steps(p.w.c, key, Some(x.fields), p.st, full);
            assert(p.w.c.schema.meta_structs.contains_key(key));
            assert(p.after() == (crate::bytes::splice(p.buf, p.off(), r.0), r.1));
            assert(p.slot() =~= r.0);
            lemma_struct_reads(
                p.w,
                key,
                x.fields,
                p.st,
                full,
                p.block,
                p.abs,
                p.depth,
            );
            assert(x == StructView { type_hash: key, fields: x.fields });
        },
        _ => {},
    }
}

/// A structure written into a block of its own, and the pointer to it.
#[verifier::opaque]
pub open spec fn set_apart(w: World, x: StructView, st: BuildState) -> (BuildState, u64) {
    let r = crate::meta_write::write_struct(
        w.c,
        x.type_hash,
        Some(x.fields),
        st,
        crate::meta_write::full_fuel(w.c.schema),
    );
    crate::meta_write::add_item(r.1, x.type_hash, r.0)
}

/// A structure that stands in a block of its own comes back through the
/// pointer to it.
proof fn lemma_pointee_reads(w: World, x: StructView, st: BuildState, depth: nat)
    requires
        w.shown(),
        st.blocks.len() > 0,
        crate::meta_laws::fits::fits_struct(w.f, w.c.schema, x.type_hash, x.fields, depth),
        crate::meta_laws::grow::grows(set_apart(w, x, st).0, w.end),
    ensures
        crate::meta_schema::read_pointee(w.f, set_apart(w, x, st).1, depth) == Some(
            crate::meta_schema::plain(ValueView::Struct(x)),
        ),
    decreases 66 - depth, 4int, 0int,
{
    reveal(set_apart);
    let full = crate::meta_write::full_fuel(w.c.schema);
    let key = x.type_hash;
    let r = crate::meta_write::write_struct(w.c, key, Some(x.fields), st, full);
    let a = crate::meta_write::add_item(r.1, key, r.0);
    crate::meta_laws::grow::lemma_struct_steps(w.c, key, Some(x.fields), st, full);
    crate::meta_laws::grow::lemma_append(r.1, key, r.0, true);
    let block = crate::meta_write::block_for(r.1.blocks, key, 0);
    let off = if block < r.1.blocks.len() {
        r.1.blocks[block].1.len() as int
    } else {
        0
    };
    crate::meta_laws::spots::lemma_has(w, a.0, block, off, key, r.0);
    crate::meta_laws::grow::lemma_grows_on(r.1, a.0, w.end);
    lemma_struct_reads(w, key, x.fields, st, full, block, off as u64, depth);
    assert(x == StructView { type_hash: key, fields: x.fields });
}

pub proof fn lemma_struct_ptr_after(p: Spot)
    requires
        p.e.ty == T_STRUCT_PTR,
        p.off() + 8 <= p.buf.len(),
    ensures
        match p.v {
            ValueView::Struct(x) => p.w.c.schema.meta_structs.contains_key(x.type_hash)
                && p.w.c.schema.meta_structs[x.type_hash].name == x.type_hash ==> p.after() == (
                crate::bytes::splice(
                    p.buf,
                    p.off(),
                    crate::bytes::le64_bytes(set_apart(p.w, x, p.st).1),
                ),
                set_apart(p.w, x, p.st).0,
            ),
            ValueView::Null => p.after() == (p.buf, p.st),
            _ => true,
        },
{
    reveal(Spot::after);
    reveal(set_apart);
}

proof fn lemma_pointer_bytes(slot: Seq<u8>, ptr: u64)
    requires
        slot == crate::bytes::le64_bytes(ptr),
    ensures
        slot.len() == 8,
        crate::bytes::le64(slot, 0) == ptr,
{
    crate::bytes::law_u64_round_trip(ptr);
}

proof fn lemma_splice_slot(buf: Seq<u8>, off: int, b: Seq<u8>)
    requires
        0 <= off,
        off + b.len() <= buf.len(),
    ensures
        crate::bytes::splice(buf, off, b).subrange(off, off + b.len()) == b,
{
    assert(crate::bytes::splice(buf, off, b).subrange(off, off + b.len()) =~= b);
}

proof fn lemma_set_pointer_reads(p: Spot, x: StructView)
    requires
        p.ready(),
        p.e.ty == T_STRUCT_PTR,
        p.v == ValueView::Struct(x),
    ensures
        p.read() == crate::meta_schema::plain(p.v),
    decreases 66 - p.depth, 7int, 0int,
{
    lemma_struct_ptr_after(p);
    assert(crate::meta_laws::fits::fits_pointee(p.w.f, p.w.c.schema, p.v, p.depth));
    lemma_known(p.w, x.type_hash, x.fields, p.depth);
    let ptr = set_apart(p.w, x, p.st).1;
    assert(p.after().1 == set_apart(p.w, x, p.st).0);
    let b = crate::bytes::le64_bytes(ptr);
    lemma_pointer_bytes(b, ptr);
    lemma_splice_slot(p.buf, p.off(), b);
    assert(p.slot() == b);
    lemma_pointee_reads(p.w, x, p.st, p.depth);
    lemma_pointer_member(p, ptr);
}

proof fn lemma_null_pointer_reads(p: Spot)
    requires
        p.ready(),
        p.e.ty == T_STRUCT_PTR,
        p.v == ValueView::Null,
    ensures
        p.read() == crate::meta_schema::plain(p.v),
{
    lemma_struct_ptr_after(p);
    let z = crate::bytes::zeros(8);
    assert(p.slot() == z);
    crate::meta_laws::spots::lemma_zero_pointer(z);
    lemma_pointer_member(p, 0);
}

proof fn lemma_struct_ptr_reads(p: Spot)
    requires
        p.ready(),
        p.e.ty == T_STRUCT_PTR,
    ensures
        p.read() == crate::meta_schema::plain(p.v),
    decreases 66 - p.depth, 8int, 0int,
{
    assert(crate::meta_laws::fits::fits_pointee(p.w.f, p.w.c.schema, p.v, p.depth));
    match p.v {
        ValueView::Struct(x) => {
            lemma_set_pointer_reads(p, x);
        },
        _ => {
            lemma_null_pointer_reads(p);
        },
    }
}

/// A structure that fits is in the schema, by its own name.
pub proof fn lemma_known(w: World, key: u32, fields: Seq<(u32, ValueView)>, depth: nat)
    requires
        crate::meta_laws::fits::fits_struct(w.f, w.c.schema, key, fields, depth),
    ensures
        w.c.schema.meta_structs.contains_key(key),
        w.c.schema.meta_structs[key].name == key,
{
}

/// How a member is read that points at a structure.
proof fn lemma_pointer_member(p: Spot, ptr: u64)
    requires
        p.e.ty == T_STRUCT_PTR,
        p.w.has(p.block, p.abs as int, p.slot()),
        p.slot().len() == 8,
        crate::bytes::le64(p.slot(), 0) == ptr,
        crate::meta_schema::read_pointee(p.w.f, ptr, p.depth) is Some,
    ensures
        p.read() == crate::meta_schema::read_pointee(p.w.f, ptr, p.depth)->0,
{
    assert(crate::meta_schema::bytes_at(p.w.f, p.block, p.abs as int, 8) == Some(p.slot()));
}

// ─── arrays ──────────────────────────────────────────────────────────────────

/// What is written of the first `k` elements of an array.
#[verifier::opaque]
pub open spec fn run_at(p: Spot, k: nat) -> (Option<Seq<u8>>, BuildState) {
    crate::meta_write::items_run(
        p.w.c,
        p.def,
        p.e,
        p.elem->0,
        p.v->Array_0.items,
        p.st,
        k,
    )
}

/// What is written of element `i`.
#[verifier::opaque]
pub open spec fn item_at(p: Spot, i: int) -> (Option<Seq<u8>>, BuildState) {
    crate::meta_write::write_item(
        p.w.c,
        p.def,
        p.e,
        p.elem->0,
        p.v->Array_0.items[i],
        run_at(p, i as nat).1,
    )
}

/// How many bytes an element takes.
pub open spec fn stride(p: Spot) -> int {
    let x = p.elem->0;
    crate::meta_schema::stride_of(
        p.w.f,
        crate::meta_schema::type_of(x.ty)->0,
        x.ref_key,
    )
}

/// Whether an array is read by its elements.
pub open spec fn listed(p: Spot) -> bool {
    &&& p.st.blocks.len() > 0
    &&& p.e.ty == T_ARRAY
    &&& p.elem is Some
    &&& p.v is Array
    &&& p.v->Array_0.items.len() > 0
    &&& crate::meta_laws::fits::fits_array(
        p.w.f,
        p.w.c.schema,
        p.e,
        p.elem->0,
        p.v->Array_0,
        p.depth,
    )
}

pub proof fn lemma_run_step(p: Spot, k: nat)
    requires
        0 < k <= p.v->Array_0.items.len(),
    ensures
        run_at(p, k) == match run_at(p, (k - 1) as nat).0 {
            None => run_at(p, (k - 1) as nat),
            Some(run) => (
                match item_at(p, k - 1).0 {
                    None => None,
                    Some(b) => Some(run + b),
                },
                item_at(p, k - 1).1,
            ),
        },
{
    reveal(run_at);
    reveal(item_at);
}

pub proof fn lemma_run_start(p: Spot)
    ensures
        run_at(p, 0) == (Some(Seq::<u8>::empty()), p.st),
{
    reveal(run_at);
}

proof fn lemma_item_grows(p: Spot, i: int)
    requires
        run_at(p, i as nat).1.blocks.len() > 0,
    ensures
        crate::meta_laws::grow::grows(run_at(p, i as nat).1, item_at(p, i).1),
        item_at(p, i).1.blocks.len() > 0,
{
    reveal(item_at);
    crate::meta_laws::grow::lemma_item_steps(
        p.w.c,
        p.def,
        p.e,
        p.elem->0,
        p.v->Array_0.items[i],
        run_at(p, i as nat).1,
    );
}

pub proof fn lemma_run_state(p: Spot, k: nat, n: nat)
    requires
        p.st.blocks.len() > 0,
        k <= n <= p.v->Array_0.items.len(),
    ensures
        run_at(p, k).1.blocks.len() > 0,
        crate::meta_laws::grow::grows(run_at(p, k).1, run_at(p, n).1),
    decreases n, k,
{
    if k == 0 {
        lemma_run_start(p);
    } else {
        lemma_run_state(p, (k - 1) as nat, (k - 1) as nat);
        lemma_run_step(p, k);
        lemma_item_grows(p, k - 1);
    }
    if k < n {
        lemma_run_state(p, k, (n - 1) as nat);
        lemma_run_state(p, (n - 1) as nat, (n - 1) as nat);
        lemma_run_step(p, n);
        lemma_item_grows(p, n - 1);
        crate::meta_laws::grow::lemma_grows_on(
            run_at(p, k).1,
            run_at(p, (n - 1) as nat).1,
            run_at(p, n).1,
        );
    }
}

/// An element has bytes, as many as its type takes.
proof fn lemma_item_length(p: Spot, i: int)
    requires
        listed(p),
        0 <= i < p.v->Array_0.items.len(),
        p.w.f.structs.contains_key(p.elem->0.ref_key) || p.elem->0.ty != T_STRUCT
            || p.elem->0.ref_key == SOA_VECTOR,
        p.elem->0.ty == T_STRUCT && p.elem->0.ref_key != SOA_VECTOR
            ==> p.w.f.structs[p.elem->0.ref_key] == crate::meta_laws::fits::info_of(
            p.w.c.schema.meta_structs[p.elem->0.ref_key],
        ),
    ensures
        crate::meta_schema::type_of(p.elem->0.ty) is Some,
        item_at(p, i).0 is Some,
        item_at(p, i).0->0.len() == stride(p),
        0 < stride(p) <= i32::MAX,
{
    let x = p.elem->0;
    lemma_run_state(p, i as nat, i as nat);
    lemma_item_fits(p, i);
    if x.ty == T_STRUCT && x.ref_key != SOA_VECTOR {
        lemma_struct_item_length(p, i);
    } else if x.ty == T_STRUCT_PTR {
        lemma_pointer_item_length(p, i);
    } else if x.ty == T_CHAR_PTR {
        lemma_text_item_length(p, i);
    } else {
        lemma_scalar_item_length(p, i);
    }
}

proof fn lemma_pointer_item_length(p: Spot, i: int)
    requires
        listed(p),
        0 <= i < p.v->Array_0.items.len(),
        p.elem->0.ty == T_STRUCT_PTR,
    ensures
        item_at(p, i).0 is Some,
        item_at(p, i).0->0.len() == 8,
        stride(p) == 8,
{
    lemma_item_fits(p, i);
    lemma_pointer_item(p, i);
    match p.v->Array_0.items[i] {
        ValueView::Struct(x) => {
            lemma_known(p.w, x.type_hash, x.fields, p.depth);
            let ptr = set_apart(p.w, x, run_at(p, i as nat).1).1;
            lemma_pointer_bytes(crate::bytes::le64_bytes(ptr), ptr);
        },
        _ => {},
    }
}

proof fn lemma_text_item_length(p: Spot, i: int)
    requires
        p.elem->0.ty == T_CHAR_PTR,
    ensures
        item_at(p, i).0 is Some,
        item_at(p, i).0->0.len() == 16,
        stride(p) == 16,
{
    reveal(item_at);
}

proof fn lemma_scalar_item_length(p: Spot, i: int)
    requires
        listed(p),
        0 <= i < p.v->Array_0.items.len(),
        p.elem->0.ty != T_STRUCT_PTR,
        p.elem->0.ty != T_CHAR_PTR,
        p.elem->0.ty == T_STRUCT ==> p.elem->0.ref_key == SOA_VECTOR,
    ensures
        crate::meta_schema::type_of(p.elem->0.ty) is Some,
        item_at(p, i).0 is Some,
        item_at(p, i).0->0.len() == stride(p),
        0 < stride(p) <= i32::MAX,
{
    let x = p.elem->0;
    let item = p.v->Array_0.items[i];
    lemma_item_fits(p, i);
    lemma_scalar_item(p, i);
    if x.ty == T_STRUCT {
        let a = crate::coerce::as_vector(item, 3, p.w.c.floats)->0;
        crate::meta_laws::scalars::lemma_three(a, crate::bytes::zeros(4));
    } else {
        crate::meta_laws::scalars::lemma_item(p.w.f, p.w.c, x, item);
    }
}

proof fn lemma_scalar_item(p: Spot, i: int)
    requires
        crate::meta_write::is_scalar_run(p.elem->0),
    ensures
        item_at(p, i).0 == crate::meta_write::scalar_item(
            p.w.c,
            p.elem->0,
            p.v->Array_0.items[i],
        ),
{
    reveal(item_at);
}

/// What it means for element `i` to fit.
pub proof fn lemma_item_fits(p: Spot, i: int)
    requires
        listed(p),
        0 <= i < p.v->Array_0.items.len(),
    ensures
        ({
            let x = p.elem->0;
            let item = p.v->Array_0.items[i];
            if x.ty == T_STRUCT_PTR {
                crate::meta_laws::fits::fits_pointee(p.w.f, p.w.c.schema, item, p.depth)
            } else if x.ty == T_CHAR_PTR {
                crate::meta_laws::fits::fits_text(item, 0xFFFF)
            } else if x.ty == T_STRUCT && x.ref_key == SOA_VECTOR {
                item is Vec3
            } else if x.ty == T_STRUCT {
                &&& item is Struct
                &&& item->Struct_0.type_hash == x.ref_key
                &&& crate::meta_laws::fits::fits_struct(
                    p.w.f,
                    p.w.c.schema,
                    x.ref_key,
                    item->Struct_0.fields,
                    p.depth,
                )
            } else {
                crate::meta_laws::fits::fits_plain(p.w.f, x.ty, x.ref_key, item)
            }
        }),
{
    let item = p.v->Array_0.items[i];
}

proof fn lemma_struct_item_length(p: Spot, i: int)
    requires
        listed(p),
        0 <= i < p.v->Array_0.items.len(),
        run_at(p, i as nat).1.blocks.len() > 0,
        p.elem->0.ty == T_STRUCT,
        p.elem->0.ref_key != SOA_VECTOR,
        p.w.f.structs.contains_key(p.elem->0.ref_key),
        p.w.f.structs[p.elem->0.ref_key] == crate::meta_laws::fits::info_of(
            p.w.c.schema.meta_structs[p.elem->0.ref_key],
        ),
    ensures
        item_at(p, i).0 is Some,
        item_at(p, i).0->0.len() == stride(p),
        0 < stride(p) <= i32::MAX,
{
    reveal(item_at);
    let x = p.elem->0;
    let item = p.v->Array_0.items[i];
    lemma_item_fits(p, i);
    let s = item->Struct_0;
    lemma_known(p.w, x.ref_key, s.fields, p.depth);
    assert(crate::meta_laws::fits::tidy(p.w.c.schema, x.ref_key));
    crate::meta_laws::grow::lemma_struct_steps(
        p.w.c,
        x.ref_key,
        Some(s.fields),
        run_at(p, i as nat).1,
        crate::meta_write::full_fuel(p.w.c.schema),
    );
    assert(item == ValueView::Struct(s));
}

proof fn lemma_run_stands(p: Spot, k: nat, i: int)
    requires
        listed(p),
        0 <= i < k <= p.v->Array_0.items.len(),
        forall|j: int|
            0 <= j < k ==> (#[trigger] item_at(p, j)).0 is Some && item_at(p, j).0->0.len()
                == stride(p),
        stride(p) > 0,
    ensures
        run_at(p, k).0 is Some,
        run_at(p, k).0->0.len() == k * stride(p),
        0 <= i * stride(p),
        i * stride(p) + stride(p) <= k * stride(p),
        run_at(p, k).0->0.subrange(i * stride(p), i * stride(p) + stride(p))
            == item_at(p, i).0->0,
    decreases k,
{
    let n = stride(p);
    assert(item_at(p, k - 1).0 is Some);
    lemma_run_step(p, k);
    if k > 1 {
        lemma_run_stands(
            p,
            (k - 1) as nat,
            if i < k - 1 {
                i
            } else {
                0
            },
        );
    } else {
        lemma_run_start(p);
        assert(0 * n == 0) by (nonlinear_arith);
    }
    let before = run_at(p, (k - 1) as nat).0->0;
    let all = run_at(p, k).0->0;
    assert(all == before + item_at(p, k - 1).0->0);
    assert(k * n == (k - 1) * n + n) by (nonlinear_arith);
    assert(0 <= i * n && i * n + n <= k * n) by (nonlinear_arith)
        requires
            0 <= i < k,
            n > 0,
    ;
    if i < k - 1 {
        assert(i * n + n <= (k - 1) * n) by (nonlinear_arith)
            requires
                i + 1 <= k - 1,
                n > 0,
        ;
        assert(all.subrange(i * n, i * n + n) =~= before.subrange(i * n, i * n + n));
    } else {
        assert(all.subrange(i * n, i * n + n) =~= item_at(p, i).0->0);
    }
}

/// An element that was written comes back.
proof fn lemma_item_reads(p: Spot, i: int, block: int, off: u64)
    requires
        p.w.shown(),
        listed(p),
        0 <= i < p.v->Array_0.items.len(),
        crate::meta_laws::grow::grows(item_at(p, i).1, p.w.end),
        item_at(p, i).0 is Some,
        p.w.has(block, off as int, item_at(p, i).0->0),
        p.elem->0.ty != T_STRUCT_PTR,
    ensures
        crate::meta_schema::read_element(
            p.w.f,
            crate::meta_schema::type_of(p.elem->0.ty)->0,
            p.elem->0.ref_key,
            block,
            off,
            item_at(p, i).0->0,
            i as nat,
            p.depth,
        ) == crate::meta_schema::plain(p.v->Array_0.items[i]),
    decreases 66 - p.depth, 6int, 0int,
{
    reveal(item_at);
    let x = p.elem->0;
    let item = p.v->Array_0.items[i];
    let st = run_at(p, i as nat).1;
    lemma_run_state(p, i as nat, i as nat);
    let full = crate::meta_write::full_fuel(p.w.c.schema);
    if x.ty == T_CHAR_PTR {
        lemma_text_item_reads(p, i);
    } else if x.ty == T_STRUCT && x.ref_key == SOA_VECTOR {
        let a = crate::coerce::as_vector(item, 3, p.w.c.floats)->0;
        crate::meta_laws::scalars::lemma_three(a, crate::bytes::zeros(4));
    } else if x.ty == T_STRUCT {
        match item {
            ValueView::Struct(s) => {
                lemma_struct_reads(p.w, x.ref_key, s.fields, st, full, block, off, p.depth);
                assert(s == StructView { type_hash: x.ref_key, fields: s.fields });
            },
            _ => {},
        }
    } else {
        assert(crate::meta_laws::fits::fits_plain(p.w.f, x.ty, x.ref_key, item));
        crate::meta_laws::scalars::lemma_item(p.w.f, p.w.c, x, item);
    }
}

/// A text among the elements of an array comes back.
proof fn lemma_text_item_reads(p: Spot, i: int)
    requires
        p.w.shown(),
        listed(p),
        0 <= i < p.v->Array_0.items.len(),
        crate::meta_laws::grow::grows(item_at(p, i).1, p.w.end),
        p.elem->0.ty == T_CHAR_PTR,
    ensures
        crate::meta_schema::read_element(
            p.w.f,
            MetaType::CharPointer,
            p.elem->0.ref_key,
            0,
            0,
            item_at(p, i).0->0,
            i as nat,
            p.depth,
        ) == crate::meta_schema::plain(p.v->Array_0.items[i]),
{
    reveal(item_at);
    let item = p.v->Array_0.items[i];
    let st = run_at(p, i as nat).1;
    lemma_run_state(p, i as nat, i as nat);
    let t = item->Str_0;
    let b = vstd::utf8::encode_utf8(t);
    crate::meta_laws::spots::lemma_text_empty(t);
    let piece = item_at(p, i).0->0;
    let z = crate::bytes::zeros(16);
    if t.len() == 0 {
        crate::meta_laws::spots::lemma_zero_pointer(z);
        assert(z[8] == 0 && z[9] == 0);
        assert(crate::bytes::le16(z, 8) == 0);
        assert(t =~= Seq::<char>::empty());
    } else {
        let text = b.push(0);
        let block = crate::meta_write::block_for(st.blocks, B_STRING, 0);
        let r = crate::meta_write::add_string(st, t);
        crate::meta_laws::grow::lemma_append(st, B_STRING, text, false);
        let off = if block < st.blocks.len() {
            st.blocks[block].1.len() as int
        } else {
            0
        };
        crate::meta_laws::spots::lemma_has(p.w, r.0, block, off, B_STRING, text);
        crate::meta_laws::spots::lemma_has_part(p.w, block, off, text, 0, b.len() as int);
        assert(text.subrange(0, b.len() as int) =~= b);
        crate::meta_laws::spots::lemma_counted(z, 0, r.1, b.len() as int);
        assert(piece.subrange(0, 16) =~= piece);
        assert(b.subrange(0, b.len() as int) =~= b);
        crate::meta_laws::spots::lemma_text(b, item);
    }
}

/// A structure among the elements of an array comes back through its
/// pointer.
proof fn lemma_pointer_item_reads(p: Spot, i: int)
    requires
        p.w.shown(),
        listed(p),
        0 <= i < p.v->Array_0.items.len(),
        crate::meta_laws::grow::grows(item_at(p, i).1, p.w.end),
        p.elem->0.ty == T_STRUCT_PTR,
    ensures
        item_at(p, i).0 is Some,
        item_at(p, i).0->0.len() == 8,
        crate::meta_schema::read_pointee(
            p.w.f,
            crate::bytes::le64(item_at(p, i).0->0, 0),
            p.depth,
        ) == Some(crate::meta_schema::plain(p.v->Array_0.items[i])),
    decreases 66 - p.depth, 6int, 0int,
{
    let item = p.v->Array_0.items[i];
    let st = run_at(p, i as nat).1;
    lemma_run_state(p, i as nat, i as nat);
    lemma_item_fits(p, i);
    lemma_pointer_item(p, i);
    match item {
        ValueView::Struct(x) => {
            lemma_known(p.w, x.type_hash, x.fields, p.depth);
            let ptr = set_apart(p.w, x, st).1;
            lemma_pointer_bytes(crate::bytes::le64_bytes(ptr), ptr);
            lemma_pointee_reads(p.w, x, st, p.depth);
        },
        _ => {
            crate::meta_laws::spots::lemma_zero_pointer(crate::bytes::zeros(8));
        },
    }
}

pub proof fn lemma_pointer_item(p: Spot, i: int)
    requires
        p.elem->0.ty == T_STRUCT_PTR,
    ensures
        match p.v->Array_0.items[i] {
            ValueView::Struct(x) => p.w.c.schema.meta_structs.contains_key(x.type_hash)
                && p.w.c.schema.meta_structs[x.type_hash].name == x.type_hash ==> item_at(p, i)
                == (
                Some(
                    crate::bytes::le64_bytes(set_apart(p.w, x, run_at(p, i as nat).1).1),
                ),
                set_apart(p.w, x, run_at(p, i as nat).1).0,
            ),
            _ => item_at(p, i).0 == Some(crate::bytes::zeros(8)),
        },
{
    reveal(item_at);
    reveal(set_apart);
}

proof fn lemma_pointers_read(p: Spot, block: int, off: int, n: nat)
    requires
        p.w.shown(),
        listed(p),
        p.elem->0.ty == T_STRUCT_PTR,
        n <= p.v->Array_0.items.len(),
        run_at(p, p.v->Array_0.items.len()).0 is Some,
        p.w.has(block, off, run_at(p, p.v->Array_0.items.len()).0->0),
        crate::meta_laws::grow::grows(run_at(p, p.v->Array_0.items.len()).1, p.w.end),
    ensures
        crate::meta_schema::pointers_from(
            p.w.f,
            crate::meta_laws::fits::info_of(p.def),
            crate::meta_laws::fits::info_entry(p.e),
            block,
            off,
            n,
            p.v->Array_0.items.len(),
            p.depth,
        ) == (p.v->Array_0.items.skip(n as int), Seq::<Warning>::empty()),
    decreases 66 - p.depth, 7int, p.v->Array_0.items.len() - n,
{
    let items = p.v->Array_0.items;
    let all = items.len();
    if n == all {
        assert(items.skip(n as int) =~= Seq::<ValueView>::empty());
    } else {
        lemma_pointers_read(p, block, off, n + 1);
        assert forall|j: int| 0 <= j < all implies (#[trigger] item_at(p, j)).0 is Some && item_at(
            p,
            j,
        ).0->0.len() == stride(p) by {
            lemma_item_length(p, j);
        }
        assert(stride(p) == 8);
        lemma_run_stands(p, all, n as int);
        lemma_run_state(p, n + 1, all);
        assert(item_at(p, n as int).0 is Some);
        lemma_run_some(p, n + 1, all);
        crate::meta_laws::grow::lemma_grows_on(
            item_at(p, n as int).1,
            run_at(p, all).1,
            p.w.end,
        );
        lemma_pointer_item_reads(p, n as int);
        let run = run_at(p, all).0->0;
        crate::meta_laws::spots::lemma_has_part(p.w, block, off, run, 8int * n, 8int * n + 8);
        assert(items.skip(n as int) =~= seq![items[n as int]] + items.skip(n + 1int));
        assert(Seq::<Warning>::empty() + Seq::<Warning>::empty() =~= Seq::<Warning>::empty());
    }
}

/// Where the whole run is there, each step of it was.
proof fn lemma_run_some(p: Spot, k: nat, n: nat)
    requires
        0 < k <= n <= p.v->Array_0.items.len(),
        run_at(p, n).0 is Some,
    ensures
        run_at(p, k).0 is Some,
        item_at(p, k - 1).0 is Some,
        run_at(p, k).1 == item_at(p, k - 1).1,
    decreases n,
{
    lemma_run_step(p, n);
    if k < n {
        lemma_run_some(p, k, (n - 1) as nat);
    }
}

pub proof fn lemma_array_refused(p: Spot)
    requires
        listed(p),
    ensures
        crate::meta_write::run_refused(p.w.c, p.elem->0) is None,
{
    let x = p.elem->0;
    let item = p.v->Array_0.items[0];
    if x.ty == T_STRUCT && x.ref_key != SOA_VECTOR {
        match item {
            ValueView::Struct(s) => {
                assert(crate::meta_laws::fits::fits_struct(
                    p.w.f,
                    p.w.c.schema,
                    x.ref_key,
                    s.fields,
                    p.depth,
                ));
            },
            _ => {},
        }
    } else if x.ty != T_STRUCT && x.ty != T_STRUCT_PTR && x.ty != T_CHAR_PTR {
        assert(crate::meta_laws::fits::fits_plain(p.w.f, x.ty, x.ref_key, item));
        crate::meta_laws::scalars::lemma_item(p.w.f, p.w.c, x, item);
    }
}

/// The file describes the structures that an array holds.
proof fn lemma_array_described(p: Spot)
    requires
        p.w.shown(),
        listed(p),
        p.elem->0.ty == T_STRUCT,
        p.elem->0.ref_key != SOA_VECTOR,
        crate::meta_laws::grow::grows(run_at(p, p.v->Array_0.items.len()).1, p.w.end),
    ensures
        p.w.f.structs.contains_key(p.elem->0.ref_key),
        p.w.f.structs[p.elem->0.ref_key] == crate::meta_laws::fits::info_of(
            p.w.c.schema.meta_structs[p.elem->0.ref_key],
        ),
{
    let x = p.elem->0;
    let items = p.v->Array_0.items;
    lemma_run_state(p, 1, items.len());
    lemma_run_start(p);
    lemma_run_step(p, 1);
    lemma_first_used(p);
    crate::meta_laws::grow::lemma_grows_on(
        run_at(p, 1).1,
        run_at(p, items.len()).1,
        p.w.end,
    );
    assert(p.w.end.used_structs.contains(x.ref_key));
    assert(p.w.f.structs.contains_key(x.ref_key));
}

pub proof fn lemma_first_used(p: Spot)
    requires
        listed(p),
        p.elem->0.ty == T_STRUCT,
        p.elem->0.ref_key != SOA_VECTOR,
    ensures
        item_at(p, 0).1.used_structs.contains(p.elem->0.ref_key),
        p.w.c.schema.meta_structs.contains_key(p.elem->0.ref_key),
{
    reveal(item_at);
    lemma_run_start(p);
    let x = p.elem->0;
    let full = crate::meta_write::full_fuel(p.w.c.schema);
    match p.v->Array_0.items[0] {
        ValueView::Struct(s) => {
            assert(crate::meta_laws::fits::fits_struct(
                p.w.f,
                p.w.c.schema,
                x.ref_key,
                s.fields,
                p.depth,
            ));
            crate::meta_laws::grow::lemma_struct_steps(
                p.w.c,
                x.ref_key,
                Some(s.fields),
                p.st,
                full,
            );
        },
        _ => {},
    }
}

#[verifier::rlimit(60)]
#[verifier::spinoff_prover]
proof fn lemma_list_reads(p: Spot, block: int, off: int)
    requires
        p.w.shown(),
        listed(p),
        p.elem->0.ty != T_STRUCT_PTR,
        run_at(p, p.v->Array_0.items.len()).0 is Some,
        p.w.has(block, off, run_at(p, p.v->Array_0.items.len()).0->0),
        crate::meta_laws::grow::grows(run_at(p, p.v->Array_0.items.len()).1, p.w.end),
    ensures
        crate::meta_schema::type_of(p.elem->0.ty) is Some,
        crate::meta_schema::read_elements(
            p.w.f,
            crate::meta_schema::type_of(p.elem->0.ty)->0,
            p.elem->0.ref_key,
            block,
            off as u64,
            p.v->Array_0.items.len(),
            p.depth,
        ) == crate::meta_schema::plain(p.v),
    decreases 66 - p.depth, 7int, 0int,
{
    let x = p.elem->0;
    let items = p.v->Array_0.items;
    let all = items.len();
    let ty = crate::meta_schema::type_of(x.ty)->0;
    let n = stride(p);
    let run = run_at(p, all).0->0;
    if x.ty == T_STRUCT && x.ref_key != SOA_VECTOR {
        lemma_array_described(p);
    }
    lemma_item_length(p, 0);
    let pieces = Seq::new(all, |i: int| item_at(p, i).0->0);
    assert forall|j: int| 0 <= j < all implies (#[trigger] item_at(p, j)).0 is Some && item_at(
        p,
        j,
    ).0->0.len() == stride(p) by {
        lemma_item_length(p, j);
    }
    assert forall|i: int| 0 <= i < items.len() implies {
        let at = off + i * crate::meta_schema::stride_of(p.w.f, ty, x.ref_key);
        &&& (#[trigger] pieces[i]).len() == crate::meta_schema::stride_of(p.w.f, ty, x.ref_key)
        &&& p.w.has(block, at, pieces[i])
        &&& crate::meta_schema::read_element(
            p.w.f,
            ty,
            x.ref_key,
            block,
            at as u64,
            pieces[i],
            i as nat,
            p.depth,
        ) == crate::meta_schema::plain(items[i])
    } by {
        assert(item_at(p, i).0 is Some);
        lemma_run_stands(p, all, i);
        crate::meta_laws::spots::lemma_has_part(p.w, block, off, run, i * n, i * n + n);
        lemma_run_state(p, (i + 1) as nat, all);
        lemma_run_some(p, (i + 1) as nat, all);
        crate::meta_laws::grow::lemma_grows_on(item_at(p, i).1, run_at(p, all).1, p.w.end);
        lemma_item_reads(p, i, block, (off + i * n) as u64);
    }
    crate::meta_laws::spots::lemma_elements(
        p.w,
        ty,
        x.ref_key,
        block,
        off,
        items,
        pieces,
        0,
        p.depth,
    );
    assert(off + 0 * n == off) by (nonlinear_arith);
    assert(items.skip(0) =~= items);
}

pub proof fn lemma_array_after(p: Spot)
    requires
        p.e.ty == T_ARRAY,
        p.off() + 16 <= p.buf.len(),
        p.elem is Some,
        p.v is Array,
        p.v->Array_0.items.len() > 0 ==> crate::meta_write::run_refused(p.w.c, p.elem->0) is None
            && run_at(p, p.v->Array_0.items.len()).0 is Some,
    ensures
        p.v->Array_0.items.len() == 0 ==> p.after() == (p.buf, p.st),
        p.v->Array_0.items.len() > 0 ==> ({
            let r = run_at(p, p.v->Array_0.items.len());
            let added = crate::meta_write::add_item(
                r.1,
                crate::meta_write::run_block(p.w.c, p.elem->0),
                r.0->0,
            );
            p.after() == (
                crate::meta_write::put_counted(
                    p.buf,
                    p.off(),
                    added.1,
                    p.v->Array_0.items.len() as int,
                ),
                added.0,
            )
        }),
{
    reveal(Spot::after);
    reveal(run_at);
}

proof fn lemma_array_reads(p: Spot)
    requires
        p.ready(),
        p.e.ty == T_ARRAY,
    ensures
        p.read() == crate::meta_schema::plain(p.v),
    decreases 66 - p.depth, 8int, 0int,
{
    let x = p.elem->0;
    let a = p.v->Array_0;
    let items = a.items;
    if items.len() == 0 {
        let z = crate::bytes::zeros(16);
        lemma_array_after(p);
        assert(p.slot() =~= z);
        crate::meta_laws::spots::lemma_zero_pointer(z);
        assert(items =~= Seq::<ValueView>::empty());
    } else {
        assert(listed(p));
        lemma_array_refused(p);
        let r = run_at(p, items.len());
        lemma_run_whole(p);
        let run = r.0->0;
        let name = crate::meta_write::run_block(p.w.c, x);
        let added = crate::meta_write::add_item(r.1, name, run);
        lemma_run_state(p, items.len(), items.len());
        crate::meta_laws::grow::lemma_append(r.1, name, run, true);
        let block = crate::meta_write::block_for(r.1.blocks, name, 0);
        let off = if block < r.1.blocks.len() {
            r.1.blocks[block].1.len() as int
        } else {
            0
        };
        lemma_array_after(p);
        crate::meta_laws::spots::lemma_has(p.w, added.0, block, off, name, run);
        crate::meta_laws::grow::lemma_grows_on(r.1, added.0, p.w.end);
        crate::meta_laws::spots::lemma_counted(p.buf, p.off(), added.1, items.len() as int);
        if x.ty == T_STRUCT_PTR {
            lemma_pointers_read(p, block, off, 0);
            assert(items.skip(0) =~= items);
        } else {
            lemma_list_reads(p, block, off);
        }
    }
}

/// The elements of an array all have bytes.
pub proof fn lemma_run_whole(p: Spot)
    requires
        listed(p),
    ensures
        run_at(p, p.v->Array_0.items.len()).0 is Some,
{
    lemma_run_whole_to(p, p.v->Array_0.items.len());
}

proof fn lemma_run_whole_to(p: Spot, k: nat)
    requires
        listed(p),
        k <= p.v->Array_0.items.len(),
    ensures
        run_at(p, k).0 is Some,
    decreases k,
{
    if k == 0 {
        lemma_run_start(p);
    } else {
        lemma_run_whole_to(p, (k - 1) as nat);
        lemma_run_step(p, k);
        lemma_item_some(p, k - 1);
    }
}

proof fn lemma_item_some(p: Spot, i: int)
    requires
        listed(p),
        0 <= i < p.v->Array_0.items.len(),
    ensures
        item_at(p, i).0 is Some,
{
    reveal(item_at);
    let x = p.elem->0;
    let item = p.v->Array_0.items[i];
    if x.ty == T_STRUCT && x.ref_key == SOA_VECTOR {
        assert(item is Vec3);
    } else if x.ty != T_STRUCT && x.ty != T_STRUCT_PTR && x.ty != T_CHAR_PTR {
        assert(crate::meta_laws::fits::fits_plain(p.w.f, x.ty, x.ref_key, item));
        crate::meta_laws::scalars::lemma_item(p.w.f, p.w.c, x, item);
    }
}

} // verus!
