//! Structures come back with all that they hold.

use vstd::prelude::*;

use crate::pso_laws::spots::{Spot, World};
use crate::pso_write::{BuildState, T_ARRAY, T_ENUM, T_MAP, T_STRING, T_STRUCT};
use crate::schema::{PsoEntryDef, ARRAYINFO};
use crate::value::{StructView, ValueView};
use crate::warning::Warning;

verus! {

broadcast use crate::bytes::group_big_endian_reads;

// ─── the members of a structure ──────────────────────────────────────────────

proof fn lemma_valued_before(entries: Seq<PsoEntryDef>, k: nat, n: nat)
    requires
        k <= n,
    ensures
        crate::pso_laws::fits::valued(entries, k) <= crate::pso_laws::fits::valued(entries, n),
        k < n && entries[k as int].name != ARRAYINFO ==> crate::pso_laws::fits::valued(entries, k)
            < crate::pso_laws::fits::valued(entries, n),
    decreases n,
{
    if k < n {
        lemma_valued_before(entries, k, (n - 1) as nat);
    }
}

/// The member that value `j` belongs to.
proof fn lemma_valued_member(entries: Seq<PsoEntryDef>, k: nat, j: int) -> (m: int)
    requires
        0 <= j < crate::pso_laws::fits::valued(entries, k),
    ensures
        0 <= m < k,
        entries[m].name != ARRAYINFO,
        crate::pso_laws::fits::valued(entries, m as nat) == j,
    decreases k,
{
    if entries[k - 1].name != ARRAYINFO && j == crate::pso_laws::fits::valued(
        entries,
        (k - 1) as nat,
    ) {
        k - 1
    } else {
        lemma_valued_member(entries, (k - 1) as nat, j)
    }
}

pub proof fn lemma_member_found(w: World, key: u32, fields: Seq<(u32, ValueView)>, depth: nat, k: int)
    requires
        crate::pso_laws::fits::fits_struct(w.f, w.c.schema, key, fields, depth),
        0 <= k < w.c.schema.pso_structs[key].entries.len(),
        w.c.schema.pso_structs[key].entries[k].name != ARRAYINFO,
    ensures
        ({
            let entries = w.c.schema.pso_structs[key].entries;
            let i = crate::pso_laws::fits::valued(entries, k as nat) as int;
            &&& 0 <= i < fields.len()
            &&& crate::pso_write::member_value(Some(fields), entries[k].name) == Some(fields[i].1)
        }),
{
    let entries = w.c.schema.pso_structs[key].entries;
    let i = crate::pso_laws::fits::valued(entries, k as nat) as int;
    lemma_valued_before(entries, k as nat, entries.len());
    assert(fields[i].0 == entries[k].name);
    assert forall|j: int| 0 <= j < i implies (#[trigger] fields[j]).0 != entries[k].name by {
        let m = lemma_valued_member(entries, k as nat, j);
        assert(fields[crate::pso_laws::fits::valued(entries, m as nat) as int].0
            == entries[m].name);
        assert(entries[m].name != entries[k].name);
    }
    crate::meta_laws::tree::lemma_field_first(fields, entries[k].name, i);
}

/// What is written of a structure up to member `k`.
pub open spec fn so_far(
    w: World,
    key: u32,
    fields: Seq<(u32, ValueView)>,
    st: BuildState,
    fuel: nat,
    k: nat,
) -> (Seq<u8>, BuildState) {
    let def = w.c.schema.pso_structs[key];
    crate::pso_write::write_members(
        w.c,
        def,
        Some(fields),
        crate::bytes::zeros(def.size as int),
        crate::pso_write::use_struct(st, def.name),
        fuel,
        k,
    )
}

/// Member `k` of a structure that is written and read.
pub open spec fn spot_at(
    w: World,
    key: u32,
    fields: Seq<(u32, ValueView)>,
    st: BuildState,
    fuel: nat,
    abs: int,
    depth: nat,
    k: int,
) -> Spot {
    let def = w.c.schema.pso_structs[key];
    let before = so_far(w, key, fields, st, fuel, k as nat);
    Spot {
        w,
        def,
        e: def.entries[k],
        v: fields[crate::pso_laws::fits::valued(def.entries, k as nat) as int].1,
        buf: before.0,
        st: before.1,
        fuel,
        abs: abs + def.entries[k].offset,
        depth: depth + 1,
    }
}

/// What the writer and the file have to agree on for a structure to come
/// back.
spec fn placed(
    w: World,
    key: u32,
    fields: Seq<(u32, ValueView)>,
    st: BuildState,
    fuel: nat,
    abs: int,
    depth: nat,
) -> bool {
    let r = crate::pso_write::write_struct(w.c, key, Some(fields), st, fuel);
    &&& w.shown()
    &&& crate::pso_laws::fits::fits_struct(w.f, w.c.schema, key, fields, depth)
    &&& crate::pso_laws::grow::grows(r.1, w.end)
    &&& w.has(abs, r.0)
}

proof fn lemma_room_positive(p: Spot)
    ensures
        p.room() >= 0,
{
    match crate::pso_write::array_info(p.def, p.e) {
        Some(x) => {
            let n = (p.e.ref_key / 0x1_0000) as int;
            let room = crate::pso_laws::fits::item_room(p.w.c.schema, x);
            assert(n * room >= 0) by (nonlinear_arith)
                requires
                    n >= 0,
                    room >= 0,
            ;
        },
        None => {},
    }
}

proof fn lemma_spot_slot(
    w: World,
    key: u32,
    fields: Seq<(u32, ValueView)>,
    st: BuildState,
    fuel: nat,
    abs: int,
    depth: nat,
    k: int,
)
    requires
        placed(w, key, fields, st, fuel, abs, depth),
        0 <= k < w.c.schema.pso_structs[key].entries.len(),
        w.c.schema.pso_structs[key].entries[k].name != ARRAYINFO,
    ensures
        ({
            let p = spot_at(w, key, fields, st, fuel, abs, depth, k);
            &&& 0 <= p.room()
            &&& p.off() + p.room() <= p.buf.len()
            &&& p.after().0.len() == p.buf.len()
            &&& p.buf.subrange(p.off(), p.off() + p.room()) == crate::bytes::zeros(p.room())
            &&& p.after() == so_far(w, key, fields, st, fuel, (k + 1) as nat)
            &&& w.has(p.abs, p.slot())
        }),
{
    reveal(Spot::after);
    let def = w.c.schema.pso_structs[key];
    let n = def.entries.len();
    let p = spot_at(w, key, fields, st, fuel, abs, depth, k);
    let zero = crate::bytes::zeros(def.size as int);
    let used = crate::pso_write::use_struct(st, def.name);
    let from = p.off();
    let to = p.off() + p.room();
    lemma_room_positive(p);
    lemma_member_found(w, key, fields, depth, k);
    crate::pso_laws::grow::lemma_members_grow(
        w.c,
        def,
        Some(fields),
        zero,
        used,
        fuel,
        k as nat,
    );
    crate::pso_laws::grow::lemma_members_grow(
        w.c,
        def,
        Some(fields),
        zero,
        used,
        fuel,
        (k + 1) as nat,
    );
    crate::pso_laws::grow::lemma_struct_grows(w.c, key, Some(fields), st, fuel);
    assert(def.entries[k].offset + crate::pso_laws::fits::room(w.c.schema, def, def.entries[k])
        <= def.size);
    assert forall|j: int| 0 <= j < n && j != k && (#[trigger] def.entries[j]).name
        != ARRAYINFO implies {
        ||| def.entries[j].offset + crate::pso_laws::fits::room(w.c.schema, def, def.entries[j])
            <= from
        ||| to <= def.entries[j].offset
    } by {
        if j < k {
            assert(crate::pso_laws::fits::apart(w.c.schema, def, j, k));
        } else {
            assert(crate::pso_laws::fits::apart(w.c.schema, def, k, j));
        }
    }
    crate::pso_laws::places::lemma_members_apart(
        w.c,
        def,
        Some(fields),
        zero,
        used,
        fuel,
        0,
        k as nat,
        from,
        to,
    );
    assert(zero.subrange(from, to) =~= crate::bytes::zeros(p.room()));
    crate::pso_laws::places::lemma_members_apart(
        w.c,
        def,
        Some(fields),
        zero,
        used,
        fuel,
        (k + 1) as nat,
        n,
        from,
        to,
    );
    let r = crate::pso_write::write_struct(w.c, key, Some(fields), st, fuel);
    assert(r == so_far(w, key, fields, st, fuel, n));
    crate::pso_laws::spots::lemma_has_part(w, abs, r.0, from, to);
    assert(p.slot() == r.0.subrange(from, to));
}

pub proof fn lemma_spot_grows(
    w: World,
    key: u32,
    fields: Seq<(u32, ValueView)>,
    st: BuildState,
    fuel: nat,
    k: nat,
    n: nat,
)
    requires
        k <= n,
    ensures
        crate::pso_laws::grow::grows(
            so_far(w, key, fields, st, fuel, k).1,
            so_far(w, key, fields, st, fuel, n).1,
        ),
    decreases n,
{
    let def = w.c.schema.pso_structs[key];
    if k < n {
        lemma_spot_grows(w, key, fields, st, fuel, k, (n - 1) as nat);
        let before = so_far(w, key, fields, st, fuel, (n - 1) as nat);
        let after = so_far(w, key, fields, st, fuel, n);
        let e = def.entries[n - 1];
        if e.name != ARRAYINFO {
            let value = crate::pso_write::member_value(Some(fields), e.name);
            crate::pso_laws::grow::lemma_member_grows(
                w.c,
                def,
                e,
                value,
                before.0,
                before.1,
                fuel,
            );
        }
        crate::pso_laws::grow::lemma_grows_on(
            so_far(w, key, fields, st, fuel, k).1,
            before.1,
            after.1,
        );
    }
}

proof fn lemma_spot_ready(
    w: World,
    key: u32,
    fields: Seq<(u32, ValueView)>,
    st: BuildState,
    fuel: nat,
    abs: int,
    depth: nat,
    k: int,
)
    requires
        placed(w, key, fields, st, fuel, abs, depth),
        0 <= k < w.c.schema.pso_structs[key].entries.len(),
        w.c.schema.pso_structs[key].entries[k].name != ARRAYINFO,
    ensures
        spot_at(w, key, fields, st, fuel, abs, depth, k).ready(),
{
    let def = w.c.schema.pso_structs[key];
    let n = def.entries.len();
    let p = spot_at(w, key, fields, st, fuel, abs, depth, k);
    lemma_spot_slot(w, key, fields, st, fuel, abs, depth, k);
    lemma_spot_grows(w, key, fields, st, fuel, (k + 1) as nat, n);
    let r = crate::pso_write::write_struct(w.c, key, Some(fields), st, fuel);
    crate::pso_laws::grow::lemma_grows_on(p.after().1, r.1, w.end);
    assert(def.entries[k].name != ARRAYINFO);
}

/// A structure that was written comes back.
pub proof fn lemma_struct_reads(
    w: World,
    key: u32,
    fields: Seq<(u32, ValueView)>,
    st: BuildState,
    fuel: nat,
    abs: int,
    depth: nat,
)
    requires
        w.shown(),
        crate::pso_laws::fits::fits_struct(w.f, w.c.schema, key, fields, depth),
        ({
            let r = crate::pso_write::write_struct(w.c, key, Some(fields), st, fuel);
            crate::pso_laws::grow::grows(r.1, w.end) && w.has(abs, r.0)
        }),
    ensures
        crate::pso::read_struct(w.f, key, abs, depth) == crate::pso::plain(
            ValueView::Struct(StructView { type_hash: key, fields }),
        ),
    decreases 66 - depth, 3int, 0int,
{
    let def = w.c.schema.pso_structs[key];
    let n = def.entries.len();
    lemma_described(w, key, fields, st, fuel, depth);
    lemma_fields_read(w, key, fields, st, fuel, abs, depth, n);
    assert(fields.take(fields.len() as int) =~= fields);
}

/// The file describes a structure that was written.
proof fn lemma_described(
    w: World,
    key: u32,
    fields: Seq<(u32, ValueView)>,
    st: BuildState,
    fuel: nat,
    depth: nat,
)
    requires
        w.shown(),
        crate::pso_laws::fits::fits_struct(w.f, w.c.schema, key, fields, depth),
        crate::pso_laws::grow::grows(
            crate::pso_write::write_struct(w.c, key, Some(fields), st, fuel).1,
            w.end,
        ),
    ensures
        w.c.schema.pso_structs.contains_key(key),
        w.f.structs.contains_key(key),
        w.f.structs[key] == crate::pso_laws::fits::info_of(w.c.schema.pso_structs[key]),
{
    crate::pso_laws::grow::lemma_struct_grows(w.c, key, Some(fields), st, fuel);
    assert(w.end.used_structs.contains(key));
    assert(w.f.structs.contains_key(key));
}

proof fn lemma_fields_read(
    w: World,
    key: u32,
    fields: Seq<(u32, ValueView)>,
    st: BuildState,
    fuel: nat,
    abs: int,
    depth: nat,
    k: nat,
)
    requires
        placed(w, key, fields, st, fuel, abs, depth),
        k <= w.c.schema.pso_structs[key].entries.len(),
    ensures
        ({
            let def = w.c.schema.pso_structs[key];
            let r = crate::pso::read_fields(
                w.f,
                crate::pso_laws::fits::info_of(def),
                abs,
                depth + 1,
                k,
            );
            let n = crate::pso_laws::fits::valued(def.entries, k);
            &&& n <= fields.len()
            &&& r == (fields.take(n as int), Seq::<Warning>::empty())
        }),
    decreases 66 - depth, 2int, k,
{
    let def = w.c.schema.pso_structs[key];
    lemma_valued_before(def.entries, k, def.entries.len());
    if k == 0 {
        assert(fields.take(0) =~= Seq::<(u32, ValueView)>::empty());
    } else {
        lemma_fields_read(w, key, fields, st, fuel, abs, depth, (k - 1) as nat);
        let info = crate::pso_laws::fits::info_of(def);
        assert(info.entries[k - 1] == crate::pso_laws::fits::info_entry(def.entries[k - 1]));
        if def.entries[k - 1].name != ARRAYINFO {
            let p = spot_at(w, key, fields, st, fuel, abs, depth, k - 1);
            lemma_spot_ready(w, key, fields, st, fuel, abs, depth, k - 1);
            lemma_member_reads(p);
            let n = crate::pso_laws::fits::valued(def.entries, (k - 1) as nat) as int;
            assert(fields[n].0 == def.entries[k - 1].name);
            assert(fields.take(n + 1) =~= fields.take(n).push(fields[n]));
            assert(Seq::<Warning>::empty() + Seq::<Warning>::empty() =~= Seq::<Warning>::empty());
        }
    }
}

// ─── members that hold structures ────────────────────────────────────────────

proof fn lemma_member_reads(p: Spot)
    requires
        p.ready(),
    ensures
        p.read() == crate::pso::plain(p.v),
    decreases 66 - p.depth, 9int, 0int,
{
    if p.e.ty == T_STRUCT {
        if p.e.subtype == 0 {
            lemma_inline_reads(p);
        } else {
            lemma_struct_ptr_reads(p);
        }
    } else if p.e.ty == T_ARRAY {
        lemma_array_reads(p);
    } else if p.e.ty == T_MAP {
        lemma_map_reads(p);
    } else {
        crate::pso_laws::spots::lemma_simple_spot(p);
    }
}

pub proof fn lemma_inline_struct_after(p: Spot, x: StructView)
    requires
        p.e.ty == T_STRUCT,
        p.e.subtype == 0,
        p.v == ValueView::Struct(x),
        p.w.c.schema.pso_structs.contains_key(p.e.ref_key),
        p.off() + p.w.c.schema.pso_structs[p.e.ref_key].size <= p.buf.len(),
    ensures
        ({
            let r = crate::pso_write::write_struct(
                p.w.c,
                p.e.ref_key,
                Some(x.fields),
                p.st,
                crate::pso_write::full_fuel(p.w.c.schema),
            );
            &&& p.after() == (crate::bytes::splice(p.buf, p.off(), r.0), r.1)
            &&& r.0.len() == p.w.c.schema.pso_structs[p.e.ref_key].size
        }),
{
    reveal(Spot::after);
    crate::pso_laws::grow::lemma_struct_grows(
        p.w.c,
        p.e.ref_key,
        Some(x.fields),
        p.st,
        crate::pso_write::full_fuel(p.w.c.schema),
    );
}

/// How a member is read that is a structure.
proof fn lemma_inline_member(p: Spot)
    requires
        p.e.ty == T_STRUCT,
        p.e.subtype == 0,
    ensures
        p.read() == crate::pso::read_struct(p.w.f, p.e.ref_key, p.abs, p.depth),
{
}

proof fn lemma_splice_slot(buf: Seq<u8>, off: int, b: Seq<u8>)
    requires
        0 <= off,
        off + b.len() <= buf.len(),
    ensures
        crate::bytes::splice(buf, off, b).subrange(off, off + b.len()) == b,
{
    assert(crate::bytes::splice(buf, off, b).subrange(off, off + b.len()) =~= b);
}

proof fn lemma_inline_reads(p: Spot)
    requires
        p.ready(),
        p.e.ty == T_STRUCT,
        p.e.subtype == 0,
    ensures
        p.read() == crate::pso::plain(p.v),
    decreases 66 - p.depth, 8int, 0int,
{
    let key = p.e.ref_key;
    assert(crate::pso_laws::fits::fits_inline(p.w.f, p.w.c.schema, key, p.v, p.depth));
    let x = p.v->Struct_0;
    assert(p.v == ValueView::Struct(x));
    lemma_known(p.w, key, x.fields, p.depth);
    let full = crate::pso_write::full_fuel(p.w.c.schema);
    lemma_inline_struct_after(p, x);
    let r = crate::pso_write::write_struct(p.w.c, key, Some(x.fields), p.st, full);
    lemma_splice_slot(p.buf, p.off(), r.0);
    lemma_struct_reads(p.w, key, x.fields, p.st, full, p.abs, p.depth);
    lemma_inline_member(p);
    assert(x == StructView { type_hash: key, fields: x.fields });
}

/// A structure that fits is in the schema, by its own name.
pub proof fn lemma_known(w: World, key: u32, fields: Seq<(u32, ValueView)>, depth: nat)
    requires
        crate::pso_laws::fits::fits_struct(w.f, w.c.schema, key, fields, depth),
    ensures
        w.c.schema.pso_structs.contains_key(key),
        w.c.schema.pso_structs[key].name == key,
{
}

/// A structure written into a block, and the pointer to it.
#[verifier::opaque]
pub open spec fn set_apart(w: World, x: StructView, st: BuildState) -> (BuildState, u32) {
    let r = crate::pso_write::write_struct(
        w.c,
        x.type_hash,
        Some(x.fields),
        st,
        crate::pso_write::full_fuel(w.c.schema),
    );
    crate::pso_write::add_item(r.1, x.type_hash, r.0)
}

/// A structure that stands in a block comes back through the pointer to it.
proof fn lemma_pointee_reads(w: World, x: StructView, st: BuildState, depth: nat)
    requires
        w.shown(),
        crate::pso_laws::fits::fits_struct(w.f, w.c.schema, x.type_hash, x.fields, depth),
        crate::pso_laws::grow::grows(set_apart(w, x, st).0, w.end),
    ensures
        set_apart(w, x, st).1 != 0,
        crate::pso::read_pointee(w.f, set_apart(w, x, st).1, depth) == Some(
            crate::pso::plain(ValueView::Struct(x)),
        ),
    decreases 66 - depth, 4int, 0int,
{
    reveal(set_apart);
    let full = crate::pso_write::full_fuel(w.c.schema);
    let key = x.type_hash;
    let r = crate::pso_write::write_struct(w.c, key, Some(x.fields), st, full);
    let a = crate::pso_write::add_item(r.1, key, r.0);
    crate::pso_laws::grow::lemma_add(r.1, key, r.0);
    let block = crate::pso_laws::grow::block_at(r.1, key, r.0);
    let off = crate::pso_laws::grow::offset_at(r.1, key, r.0);
    crate::pso_laws::spots::lemma_has(w, a.0, block, off, key, r.0);
    crate::pso_laws::grow::lemma_grows_on(r.1, a.0, w.end);
    lemma_struct_reads(w, key, x.fields, st, full, w.target(block, off), depth);
    assert(x == StructView { type_hash: key, fields: x.fields });
}

pub proof fn lemma_struct_ptr_after(p: Spot)
    requires
        p.e.ty == T_STRUCT,
        p.e.subtype != 0,
        p.off() + 8 <= p.buf.len(),
    ensures
        match p.v {
            ValueView::Struct(x) => p.w.c.schema.pso_structs.contains_key(x.type_hash)
                && p.w.c.schema.pso_structs[x.type_hash].name == x.type_hash ==> p.after() == (
                crate::bytes::splice(
                    p.buf,
                    p.off(),
                    crate::bytes::be32_bytes(set_apart(p.w, x, p.st).1),
                ),
                set_apart(p.w, x, p.st).0,
            ),
            ValueView::Null => p.after() == (p.buf, p.st),
            _ => true,
        },
{
    reveal(Spot::after);
    reveal(set_apart);
}

/// How a member is read that points at a structure.
proof fn lemma_pointer_member(p: Spot, ptr: u32)
    requires
        p.e.ty == T_STRUCT,
        p.e.subtype == 3 || p.e.subtype == 4,
        p.w.has(p.abs, p.slot()),
        p.slot().len() == 8,
        crate::bytes::be32(p.slot(), 0) == ptr,
    ensures
        ptr == 0 ==> p.read() == crate::pso::plain(ValueView::Null),
        ptr != 0 && crate::pso::read_pointee(p.w.f, ptr, p.depth) is Some ==> p.read()
            == crate::pso::read_pointee(p.w.f, ptr, p.depth)->0,
{
    crate::pso_laws::spots::lemma_window(p.w, p.abs, p.slot());
}

#[verifier::rlimit(40)]
#[verifier::spinoff_prover]
proof fn lemma_set_pointer_reads(p: Spot, x: StructView)
    requires
        p.laid(),
        p.e.ty == T_STRUCT,
        p.e.subtype == 3 || p.e.subtype == 4,
        p.v == ValueView::Struct(x),
        crate::pso_laws::fits::fits_struct(
            p.w.f,
            p.w.c.schema,
            x.type_hash,
            x.fields,
            p.depth,
        ),
    ensures
        p.read() == crate::pso::plain(p.v),
    decreases 66 - p.depth, 7int, 0int,
{
    lemma_struct_ptr_after(p);
    lemma_known(p.w, x.type_hash, x.fields, p.depth);
    let ptr = set_apart(p.w, x, p.st).1;
    let b = crate::bytes::be32_bytes(ptr);
    crate::pso_laws::spots::lemma_splice_at(p.buf, p.off(), b, 8);
    crate::pso_laws::spots::lemma_pointing(ptr, crate::bytes::zeros(4));
    lemma_pointee_reads(p.w, x, p.st, p.depth);
    lemma_pointer_member(p, ptr);
}

proof fn lemma_struct_ptr_reads(p: Spot)
    requires
        p.ready(),
        p.e.ty == T_STRUCT,
        p.e.subtype != 0,
    ensures
        p.read() == crate::pso::plain(p.v),
    decreases 66 - p.depth, 8int, 0int,
{
    assert(crate::pso_laws::fits::fits_pointee(p.w.f, p.w.c.schema, p.v, p.depth));
    match p.v {
        ValueView::Struct(x) => {
            lemma_set_pointer_reads(p, x);
        },
        _ => {
            lemma_struct_ptr_after(p);
            assert(p.slot() == crate::bytes::zeros(8));
            crate::pso_laws::spots::lemma_zero(p.slot());
            lemma_pointer_member(p, 0);
        },
    }
}

// ─── arrays ──────────────────────────────────────────────────────────────────

/// The descriptor of the elements of an array.
pub open spec fn elem(p: Spot) -> PsoEntryDef {
    crate::pso_write::array_info(p.def, p.e)->0
}

/// The elements of an array.
pub open spec fn items(p: Spot) -> Seq<ValueView> {
    p.v->Array_0.items
}

/// The state before the elements of an array are written.
pub open spec fn begun(p: Spot) -> BuildState {
    if elem(p).ty == T_ENUM {
        crate::pso_write::use_enum(p.w.c, p.st, elem(p).ref_key)
    } else {
        p.st
    }
}

/// What is written of the first `k` elements of an array.
#[verifier::opaque]
pub open spec fn run_at(p: Spot, k: nat) -> (Option<Seq<u8>>, BuildState) {
    crate::pso_write::items_run(p.w.c, p.def, p.e, elem(p), items(p), begun(p), k)
}

/// What is written of element `i`.
#[verifier::opaque]
pub open spec fn item_at(p: Spot, i: int) -> (Option<Seq<u8>>, BuildState) {
    crate::pso_write::write_item(
        p.w.c,
        p.def,
        p.e,
        elem(p),
        items(p)[i],
        run_at(p, i as nat).1,
    )
}

/// How many bytes an element takes.
pub open spec fn stride(p: Spot) -> int {
    crate::pso_laws::fits::item_room(p.w.c.schema, elem(p))
}

/// Whether an array is read by its elements.
pub open spec fn listed(p: Spot) -> bool {
    &&& p.e.ty == T_ARRAY
    &&& crate::pso_write::array_info(p.def, p.e) is Some
    &&& p.v is Array
    &&& items(p).len() > 0
    &&& crate::pso_laws::fits::fits_array(
        p.w.f,
        p.w.c.schema,
        p.e,
        elem(p),
        p.v->Array_0,
        p.depth,
    )
}

pub proof fn lemma_run_step(p: Spot, k: nat)
    requires
        0 < k <= items(p).len(),
    ensures
        run_at(p, k) == match run_at(p, (k - 1) as nat).0 {
            None => run_at(p, (k - 1) as nat),
            Some(run) => (
                match item_at(p, k - 1).0 {
                    None => None,
                    Some(b) => Some(run + b),
                },
                item_at(p, k - 1).1,
            ),
        },
{
    reveal(run_at);
    reveal(item_at);
}

pub proof fn lemma_run_start(p: Spot)
    ensures
        run_at(p, 0) == (Some(Seq::<u8>::empty()), begun(p)),
{
    reveal(run_at);
}

proof fn lemma_item_grows(p: Spot, i: int)
    ensures
        crate::pso_laws::grow::grows(run_at(p, i as nat).1, item_at(p, i).1),
{
    reveal(item_at);
    crate::pso_laws::grow::lemma_item_grows(
        p.w.c,
        p.def,
        p.e,
        elem(p),
        items(p)[i],
        run_at(p, i as nat).1,
    );
}

pub proof fn lemma_run_grows(p: Spot, k: nat, n: nat)
    requires
        k <= n <= items(p).len(),
    ensures
        crate::pso_laws::grow::grows(run_at(p, k).1, run_at(p, n).1),
    decreases n,
{
    if k < n {
        lemma_run_grows(p, k, (n - 1) as nat);
        lemma_run_step(p, n);
        lemma_item_grows(p, n - 1);
        crate::pso_laws::grow::lemma_grows_on(
            run_at(p, k).1,
            run_at(p, (n - 1) as nat).1,
            run_at(p, n).1,
        );
    }
}

/// What it means for element `i` to fit.
pub proof fn lemma_item_fits(p: Spot, i: int)
    requires
        listed(p),
        0 <= i < items(p).len(),
    ensures
        ({
            let x = elem(p);
            let item = items(p)[i];
            if x.ty == T_STRUCT && x.subtype == 3 {
                crate::pso_laws::fits::fits_pointee(p.w.f, p.w.c.schema, item, p.depth)
            } else if x.ty == T_STRUCT {
                &&& item is Struct
                &&& item->Struct_0.type_hash == x.ref_key
                &&& crate::pso_laws::fits::fits_struct(
                    p.w.f,
                    p.w.c.schema,
                    x.ref_key,
                    item->Struct_0.fields,
                    p.depth,
                )
                &&& p.w.c.schema.pso_structs.contains_key(x.ref_key)
                &&& p.w.c.schema.pso_structs[x.ref_key].size > 0
            } else if x.ty == T_STRING && x.subtype == 2 {
                crate::meta_laws::fits::fits_text(item, 4096)
            } else if x.ty == T_STRING && x.subtype == 3 {
                crate::meta_laws::fits::fits_text(item, 0xFFFF)
            } else {
                crate::pso_laws::fits::fits_scalar(p.w.f, x, item)
            }
        }),
{
    let x = elem(p);
    let item = items(p)[i];
    assert(item == p.v->Array_0.items[i]);
    if x.ty == T_STRUCT && x.subtype != 3 {
        assert(crate::pso_laws::fits::fits_inline(
            p.w.f,
            p.w.c.schema,
            x.ref_key,
            item,
            p.depth,
        ));
        lemma_known(p.w, x.ref_key, item->Struct_0.fields, p.depth);
    }
}

/// An array that fits can be written, whatever its elements.
pub proof fn lemma_array_kind(p: Spot)
    requires
        listed(p),
    ensures
        crate::pso_write::run_refused(p.w.c, elem(p)) is None,
        crate::pso::type_of(elem(p).ty) is Some,
        stride(p) > 0,
        elem(p).ty == T_STRING ==> elem(p).subtype == 0 || elem(p).subtype == 2
            || elem(p).subtype == 3 || elem(p).subtype == 7 || elem(p).subtype == 8,
        ({
            let t = crate::pso::type_of(elem(p).ty)->0;
            t != crate::pso::PsoType::Flags && t != crate::pso::PsoType::MapType && t
                != crate::pso::PsoType::Array
        }),
{
    lemma_item_fits(p, 0);
}

pub proof fn lemma_item_some(p: Spot, i: int)
    requires
        listed(p),
        0 <= i < items(p).len(),
    ensures
        item_at(p, i).0 is Some,
        item_at(p, i).0->0.len() == stride(p),
{
    lemma_array_kind(p);
    lemma_item_fits(p, i);
    reveal(item_at);
    let x = elem(p);
    crate::pso_laws::places::lemma_item_room(
        p.w.c,
        p.def,
        p.e,
        x,
        items(p)[i],
        run_at(p, i as nat).1,
    );
    if x.ty != T_STRUCT && x.ty != T_STRING && x.ty != T_ENUM {
        crate::pso_laws::scalars::lemma_number_item(p.w.f, p.w.c, x, items(p)[i]);
    }
}

pub proof fn lemma_run_stands(p: Spot, k: nat, i: int)
    requires
        listed(p),
        0 <= i < k <= items(p).len(),
    ensures
        run_at(p, k).0 is Some,
        run_at(p, k).1 == item_at(p, k - 1).1,
        run_at(p, k).0->0.len() == k * stride(p),
        0 <= i * stride(p),
        i * stride(p) + stride(p) <= k * stride(p),
        run_at(p, k).0->0.subrange(i * stride(p), i * stride(p) + stride(p))
            == item_at(p, i).0->0,
    decreases k,
{
    let n = stride(p);
    lemma_array_kind(p);
    lemma_item_some(p, k - 1);
    lemma_run_step(p, k);
    if k > 1 {
        lemma_run_stands(
            p,
            (k - 1) as nat,
            if i < k - 1 {
                i
            } else {
                0
            },
        );
    } else {
        lemma_run_start(p);
        assert(0 * n == 0) by (nonlinear_arith);
    }
    let before = run_at(p, (k - 1) as nat).0->0;
    let all = run_at(p, k).0->0;
    assert(all == before + item_at(p, k - 1).0->0);
    assert(k * n == (k - 1) * n + n) by (nonlinear_arith);
    assert(0 <= i * n && i * n + n <= k * n) by (nonlinear_arith)
        requires
            0 <= i < k,
            n > 0,
    ;
    if i < k - 1 {
        assert(i * n + n <= (k - 1) * n) by (nonlinear_arith)
            requires
                i + 1 <= k - 1,
                n > 0,
        ;
        assert(all.subrange(i * n, i * n + n) =~= before.subrange(i * n, i * n + n));
    } else {
        assert(all.subrange(i * n, i * n + n) =~= item_at(p, i).0->0);
    }
}

/// The file describes the structures that an array holds, and steps over
/// them as the writer did.
proof fn lemma_array_described(p: Spot)
    requires
        p.w.shown(),
        listed(p),
        crate::pso_laws::grow::grows(run_at(p, items(p).len()).1, p.w.end),
    ensures
        ({
            let x = crate::pso_laws::fits::info_entry(elem(p));
            let t = crate::pso::type_of(elem(p).ty)->0;
            &&& crate::pso::stride_of(p.w.f, x, t) == stride(p)
            &&& crate::pso::array_refused(p.w.f, x) is None
        }),
{
    let x = elem(p);
    lemma_array_kind(p);
    lemma_item_fits(p, 0);
    if x.ty == T_STRUCT && x.subtype != 3 {
        lemma_run_start(p);
        lemma_run_grows(p, 1, items(p).len());
        lemma_run_stands(p, 1, 0);
        crate::pso_laws::grow::lemma_grows_on(
            item_at(p, 0).1,
            run_at(p, items(p).len()).1,
            p.w.end,
        );
        lemma_first_described(p);
    }
}

proof fn lemma_first_described(p: Spot)
    requires
        p.w.shown(),
        listed(p),
        elem(p).ty == T_STRUCT,
        elem(p).subtype != 3,
        crate::pso_laws::grow::grows(item_at(p, 0).1, p.w.end),
    ensures
        p.w.f.structs.contains_key(elem(p).ref_key),
        p.w.f.structs[elem(p).ref_key] == crate::pso_laws::fits::info_of(
            p.w.c.schema.pso_structs[elem(p).ref_key],
        ),
{
    reveal(item_at);
    lemma_run_start(p);
    lemma_item_fits(p, 0);
    let x = elem(p);
    let s = items(p)[0]->Struct_0;
    assert(items(p)[0] == ValueView::Struct(s));
    lemma_described(
        p.w,
        x.ref_key,
        s.fields,
        begun(p),
        crate::pso_write::full_fuel(p.w.c.schema),
        p.depth,
    );
}

/// Whether element `i` of an array at `start` is read as what it is.
#[verifier::opaque]
spec fn reads_item(p: Spot, start: int, i: int) -> bool {
    crate::pso::read_element(
        p.w.f,
        crate::pso_laws::fits::info_entry(elem(p)),
        crate::pso::type_of(elem(p).ty)->0,
        start,
        i as nat,
        p.depth,
    ) == crate::pso::Step::Item(crate::pso::plain(items(p)[i]))
}

/// Where an element was written and how it is reached.
spec fn item_placed(p: Spot, start: int, i: int) -> bool {
    &&& p.w.shown()
    &&& listed(p)
    &&& 0 <= i < items(p).len()
    &&& crate::pso_laws::grow::grows(item_at(p, i).1, p.w.end)
    &&& p.w.has(start + i * stride(p), item_at(p, i).0->0)
    &&& crate::pso::stride_of(
        p.w.f,
        crate::pso_laws::fits::info_entry(elem(p)),
        crate::pso::type_of(elem(p).ty)->0,
    ) == stride(p)
}

pub proof fn lemma_pointer_item(p: Spot, i: int)
    requires
        elem(p).ty == T_STRUCT,
        elem(p).subtype == 3,
    ensures
        match items(p)[i] {
            ValueView::Struct(x) => p.w.c.schema.pso_structs.contains_key(x.type_hash)
                && p.w.c.schema.pso_structs[x.type_hash].name == x.type_hash ==> item_at(p, i)
                == (
                Some(
                    crate::bytes::splice(
                        crate::bytes::zeros(8),
                        0,
                        crate::bytes::be32_bytes(set_apart(p.w, x, run_at(p, i as nat).1).1),
                    ),
                ),
                set_apart(p.w, x, run_at(p, i as nat).1).0,
            ),
            _ => item_at(p, i).0 == Some(crate::bytes::zeros(8)),
        },
{
    reveal(item_at);
    reveal(set_apart);
}

proof fn lemma_pointer_over_zeros(ptr: u32)
    ensures
        ({
            let b = crate::bytes::splice(
                crate::bytes::zeros(8),
                0,
                crate::bytes::be32_bytes(ptr),
            );
            b.len() == 8 && crate::bytes::be32(b, 0) == ptr
        }),
{
    let z = crate::bytes::zeros(8);
    let b = crate::bytes::splice(z, 0, crate::bytes::be32_bytes(ptr));
    assert(z.subrange(0, 8) =~= z);
    crate::pso_laws::spots::lemma_splice_at(z, 0, crate::bytes::be32_bytes(ptr), 8);
    assert(b.subrange(0, 8) =~= b);
    crate::pso_laws::spots::lemma_pointing(ptr, crate::bytes::zeros(4));
}

/// A structure among the elements of an array comes back through its
/// pointer.
proof fn lemma_pointer_item_reads(p: Spot, start: int, i: int)
    requires
        item_placed(p, start, i),
        elem(p).ty == T_STRUCT,
        elem(p).subtype == 3,
    ensures
        reads_item(p, start, i),
    decreases 66 - p.depth, 5int, 0int,
{
    reveal(reads_item);
    let item = items(p)[i];
    let st = run_at(p, i as nat).1;
    lemma_item_fits(p, i);
    lemma_item_some(p, i);
    lemma_pointer_item(p, i);
    let piece = item_at(p, i).0->0;
    crate::pso_laws::spots::lemma_window(p.w, start + i * stride(p), piece);
    match item {
        ValueView::Struct(x) => {
            lemma_known(p.w, x.type_hash, x.fields, p.depth);
            lemma_pointer_over_zeros(set_apart(p.w, x, st).1);
            lemma_pointee_reads(p.w, x, st, p.depth);
        },
        _ => {
            crate::pso_laws::spots::lemma_zero(piece);
        },
    }
}

/// A structure among the elements of an array comes back.
proof fn lemma_struct_item_reads(p: Spot, start: int, i: int)
    requires
        item_placed(p, start, i),
        elem(p).ty == T_STRUCT,
        elem(p).subtype != 3,
    ensures
        reads_item(p, start, i),
    decreases 66 - p.depth, 5int, 0int,
{
    reveal(reads_item);
    let x = elem(p);
    let s = items(p)[i]->Struct_0;
    lemma_item_fits(p, i);
    lemma_item_some(p, i);
    let at = start + i * stride(p);
    crate::pso_laws::spots::lemma_window(p.w, at, item_at(p, i).0->0);
    lemma_struct_item(p, i);
    lemma_struct_reads(
        p.w,
        x.ref_key,
        s.fields,
        run_at(p, i as nat).1,
        crate::pso_write::full_fuel(p.w.c.schema),
        at,
        p.depth,
    );
    assert(s == StructView { type_hash: x.ref_key, fields: s.fields });
}

pub proof fn lemma_struct_item(p: Spot, i: int)
    requires
        elem(p).ty == T_STRUCT,
        elem(p).subtype != 3,
        items(p)[i] is Struct,
    ensures
        ({
            let r = crate::pso_write::write_struct(
                p.w.c,
                elem(p).ref_key,
                Some(items(p)[i]->Struct_0.fields),
                run_at(p, i as nat).1,
                crate::pso_write::full_fuel(p.w.c.schema),
            );
            item_at(p, i) == (Some(r.0), r.1)
        }),
{
    reveal(item_at);
}

/// A text among the elements of an array comes back from where it stands.
proof fn lemma_string_item_reads(p: Spot, start: int, i: int)
    requires
        item_placed(p, start, i),
        elem(p).ty == T_STRING,
        elem(p).subtype == 2 || elem(p).subtype == 3,
    ensures
        reads_item(p, start, i),
{
    reveal(reads_item);
    lemma_item_fits(p, i);
    lemma_item_some(p, i);
    reveal(item_at);
    let x = elem(p);
    let item = items(p)[i];
    let t = item->Str_0;
    let st = run_at(p, i as nat).1;
    let at = start + i * stride(p);
    let piece = item_at(p, i).0->0;
    if t.len() == 0 {
        crate::pso_laws::spots::lemma_empty_string(
            p.w,
            item,
            x.subtype,
            x.ref_key,
            at,
            piece,
        );
    } else {
        let r = crate::pso_write::add_string(st, t);
        if x.subtype == 3 {
            let z = crate::bytes::zeros(16);
            crate::pso_laws::spots::lemma_counted(
                z,
                0,
                r.1,
                vstd::utf8::encode_utf8(t).len() as int,
            );
            assert(piece.subrange(0, 16) =~= piece);
        } else {
            lemma_pointer_over_zeros(r.1);
        }
        crate::pso_laws::spots::lemma_string(
            p.w,
            st,
            item,
            x.subtype,
            x.ref_key,
            at,
            piece,
        );
    }
}

/// An element that holds its value in place comes back.
proof fn lemma_scalar_item_reads(p: Spot, start: int, i: int)
    requires
        item_placed(p, start, i),
        elem(p).ty != T_STRUCT,
        elem(p).ty == T_STRING ==> elem(p).subtype != 2 && elem(p).subtype != 3,
    ensures
        reads_item(p, start, i),
{
    reveal(reads_item);
    lemma_array_kind(p);
    lemma_item_fits(p, i);
    lemma_item_some(p, i);
    reveal(item_at);
    let x = elem(p);
    let item = items(p)[i];
    let piece = item_at(p, i).0->0;
    crate::pso_laws::spots::lemma_window(p.w, start + i * stride(p), piece);
    if x.ty == T_STRING && x.subtype == 0 {
        let t = item->Str_0;
        let b = vstd::utf8::encode_utf8(t);
        let n = (x.ref_key / 0x1_0000) as int;
        assert(crate::pso_write::buffer_text(t, n) =~= b);
        assert(piece == crate::pso_write::filled(b, n));
        assert(piece.subrange(0, b.len() as int) =~= b);
        crate::meta_laws::spots::lemma_text(piece, item);
    } else if x.ty == T_STRING {
        crate::pso_laws::scalars::lemma_words(0, item->Hash_0, 0);
    } else if x.ty == T_ENUM {
        crate::pso_laws::scalars::lemma_sized(item->value as u32, item->value);
    } else {
        crate::pso_laws::scalars::lemma_number_item(p.w.f, p.w.c, x, item);
    }
}

/// An element that was written comes back.
proof fn lemma_item_reads(p: Spot, start: int, i: int)
    requires
        item_placed(p, start, i),
    ensures
        reads_item(p, start, i),
    decreases 66 - p.depth, 6int, 0int,
{
    let x = elem(p);
    if x.ty == T_STRUCT {
        if x.subtype == 3 {
            lemma_pointer_item_reads(p, start, i);
        } else {
            lemma_struct_item_reads(p, start, i);
        }
    } else if x.ty == T_STRING && (x.subtype == 2 || x.subtype == 3) {
        lemma_string_item_reads(p, start, i);
    } else {
        lemma_scalar_item_reads(p, start, i);
    }
}

/// How the elements of a list are read, one by one.
proof fn lemma_next_item(p: Spot, start: int, n: nat)
    requires
        n < items(p).len(),
        reads_item(p, start, n as int),
    ensures
        crate::pso::elements_from(
            p.w.f,
            crate::pso_laws::fits::info_entry(elem(p)),
            crate::pso::type_of(elem(p).ty)->0,
            start,
            n,
            items(p).len(),
            p.depth,
        ) == ({
            let rest = crate::pso::elements_from(
                p.w.f,
                crate::pso_laws::fits::info_entry(elem(p)),
                crate::pso::type_of(elem(p).ty)->0,
                start,
                n + 1,
                items(p).len(),
                p.depth,
            );
            (seq![items(p)[n as int]] + rest.0, Seq::<Warning>::empty() + rest.1)
        }),
{
    reveal(reads_item);
}

/// The elements of a list come back where each is read as what it is.
#[verifier::rlimit(40)]
#[verifier::spinoff_prover]
proof fn lemma_elements(p: Spot, start: int, n: nat)
    requires
        n <= items(p).len(),
        forall|i: int| 0 <= i < items(p).len() ==> #[trigger] reads_item(p, start, i),
    ensures
        crate::pso::elements_from(
            p.w.f,
            crate::pso_laws::fits::info_entry(elem(p)),
            crate::pso::type_of(elem(p).ty)->0,
            start,
            n,
            items(p).len(),
            p.depth,
        ) == (items(p).skip(n as int), Seq::<Warning>::empty()),
    decreases items(p).len() - n,
{
    let all = items(p);
    if n == all.len() {
        assert(all.skip(n as int) =~= Seq::<ValueView>::empty());
    } else {
        lemma_elements(p, start, n + 1);
        lemma_next_item(p, start, n);
        assert(all.skip(n as int) =~= seq![all[n as int]] + all.skip(n + 1int));
        assert(Seq::<Warning>::empty() + Seq::<Warning>::empty() =~= Seq::<Warning>::empty());
    }
}

/// An array comes back whose elements stand in a row.
proof fn lemma_list_reads(p: Spot, start: int)
    requires
        p.w.shown(),
        listed(p),
        run_at(p, items(p).len()).0 is Some,
        p.w.has(start, run_at(p, items(p).len()).0->0),
        crate::pso_laws::grow::grows(run_at(p, items(p).len()).1, p.w.end),
    ensures
        crate::pso::read_elements(
            p.w.f,
            crate::pso_laws::fits::info_entry(elem(p)),
            start,
            items(p).len(),
            p.depth,
        ) == crate::pso::plain(p.v),
    decreases 66 - p.depth, 7int, 0int,
{
    let all = items(p).len();
    let n = stride(p);
    let run = run_at(p, all).0->0;
    lemma_array_kind(p);
    lemma_array_described(p);
    assert forall|i: int| 0 <= i < all implies #[trigger] reads_item(p, start, i) by {
        lemma_item_some(p, i);
        lemma_run_stands(p, all, i);
        lemma_run_stands(p, (i + 1) as nat, i);
        crate::pso_laws::spots::lemma_has_part(p.w, start, run, i * n, i * n + n);
        lemma_run_grows(p, (i + 1) as nat, all);
        crate::pso_laws::grow::lemma_grows_on(item_at(p, i).1, run_at(p, all).1, p.w.end);
        lemma_item_reads(p, start, i);
    }
    lemma_elements(p, start, 0);
    assert(items(p).skip(0) =~= items(p));
}

pub proof fn lemma_apart_after(p: Spot)
    requires
        p.e.ty == T_ARRAY,
        p.off() + 16 <= p.buf.len(),
        crate::pso_write::array_info(p.def, p.e) is Some,
        crate::pso_laws::fits::is_apart(p.e, elem(p)),
        p.v is Array,
        items(p).len() > 0 ==> crate::pso_write::run_refused(p.w.c, elem(p)) is None && run_at(
            p,
            items(p).len(),
        ).0 is Some,
    ensures
        items(p).len() == 0 ==> p.after() == (p.buf, p.st),
        items(p).len() > 0 ==> ({
            let r = run_at(p, items(p).len());
            let added = crate::pso_write::add_item(
                r.1,
                crate::pso_write::run_block(p.w.c, elem(p)),
                r.0->0,
            );
            p.after() == (
                crate::pso_write::put_counted(p.buf, p.off(), added.1, items(p).len() as int),
                added.0,
            )
        }),
{
    reveal(Spot::after);
    reveal(run_at);
}

pub proof fn lemma_inline_after(p: Spot)
    requires
        listed(p),
        !crate::pso_laws::fits::is_apart(p.e, elem(p)),
        crate::pso_write::run_refused(p.w.c, elem(p)) is None,
        run_at(p, items(p).len()).0 is Some,
        p.off() + run_at(p, items(p).len()).0->0.len() <= p.buf.len(),
    ensures
        ({
            let r = run_at(p, items(p).len());
            p.after() == (crate::bytes::splice(p.buf, p.off(), r.0->0), r.1)
        }),
{
    reveal(Spot::after);
    reveal(run_at);
    assert(items(p).take(items(p).len() as int) =~= items(p));
}

proof fn lemma_apart_reads(p: Spot)
    requires
        p.laid(),
        listed(p),
        crate::pso_laws::fits::is_apart(p.e, elem(p)),
    ensures
        p.read() == crate::pso::plain(p.v),
    decreases 66 - p.depth, 8int, 0int,
{
    let all = items(p).len();
    lemma_array_kind(p);
    lemma_run_stands(p, all, 0);
    let r = run_at(p, all);
    let name = crate::pso_write::run_block(p.w.c, elem(p));
    let added = crate::pso_write::add_item(r.1, name, r.0->0);
    crate::pso_laws::grow::lemma_add(r.1, name, r.0->0);
    let block = crate::pso_laws::grow::block_at(r.1, name, r.0->0);
    let off = crate::pso_laws::grow::offset_at(r.1, name, r.0->0);
    lemma_apart_after(p);
    crate::pso_laws::spots::lemma_has(p.w, added.0, block, off, name, r.0->0);
    crate::pso_laws::grow::lemma_grows_on(r.1, added.0, p.w.end);
    crate::pso_laws::spots::lemma_counted(p.buf, p.off(), added.1, all as int);
    crate::pso_laws::spots::lemma_window(p.w, p.abs, p.slot());
    lemma_list_reads(p, p.w.target(block, off));
    lemma_element_of(p);
}

/// The file describes the elements of an array as the schema does.
proof fn lemma_element_of(p: Spot)
    requires
        crate::pso_write::array_info(p.def, p.e) is Some,
    ensures
        crate::pso::element_of(
            crate::pso_laws::fits::info_of(p.def),
            crate::pso_laws::fits::info_entry(p.e),
        ) == Some(crate::pso_laws::fits::info_entry(elem(p))),
{
}

proof fn lemma_array_reads(p: Spot)
    requires
        p.ready(),
        p.e.ty == T_ARRAY,
    ensures
        p.read() == crate::pso::plain(p.v),
    decreases 66 - p.depth, 8int, 1int,
{
    lemma_element_of(p);
    if items(p).len() == 0 {
        lemma_apart_after(p);
        let z = crate::bytes::zeros(16);
        assert(p.slot() == z);
        crate::pso_laws::spots::lemma_zero(z);
        crate::pso_laws::spots::lemma_window(p.w, p.abs, z);
        assert(items(p) =~= Seq::<ValueView>::empty());
    } else if crate::pso_laws::fits::is_apart(p.e, elem(p)) {
        lemma_apart_reads(p);
    } else {
        assert(listed(p));
        let all = items(p).len();
        lemma_array_kind(p);
        lemma_run_stands(p, all, 0);
        let r = run_at(p, all);
        assert(p.room() == all * stride(p));
        lemma_inline_after(p);
        assert(p.slot() =~= r.0->0);
        lemma_list_reads(p, p.abs);
    }
}

// ─── maps ────────────────────────────────────────────────────────────────────

/// The pairs of a map.
pub open spec fn pairs(p: Spot) -> Seq<(ValueView, ValueView)> {
    p.v->Pairs_0
}

/// The structure type of the pairs of a map.
pub open spec fn pair_key(p: Spot) -> u32 {
    crate::pso_laws::fits::pair_type(p.def, p.e)
}

/// Pair `i` as the members of its structure.
pub open spec fn pair_at(p: Spot, i: int) -> Seq<(u32, ValueView)> {
    crate::pso_write::pair_fields(
        crate::pso_laws::fits::pair_names(p.w.c.schema, pair_key(p)),
        pairs(p)[i],
    )
}

/// What is written of the first `k` pairs of a map.
#[verifier::opaque]
pub open spec fn pairs_at(p: Spot, k: nat) -> (Seq<u8>, BuildState) {
    crate::pso_write::pairs_run(p.w.c, pair_key(p), pairs(p), p.st, p.fuel, k)
}

/// What is written of pair `i`.
#[verifier::opaque]
pub open spec fn pair_run(p: Spot, i: int) -> (Seq<u8>, BuildState) {
    crate::pso_write::write_struct(
        p.w.c,
        pair_key(p),
        Some(pair_at(p, i)),
        pairs_at(p, i as nat).1,
        crate::pso_write::full_fuel(p.w.c.schema),
    )
}

/// Whether a map is read by its pairs.
pub open spec fn mapped(p: Spot) -> bool {
    &&& p.e.ty == T_MAP
    &&& p.v is Pairs
    &&& pairs(p).len() > 0
    &&& crate::pso_laws::fits::fits_map(p.w.f, p.w.c.schema, p.def, p.e, pairs(p), p.depth)
}

/// How many bytes a pair takes.
pub open spec fn pair_size(p: Spot) -> int {
    p.w.c.schema.pso_structs[pair_key(p)].size as int
}

pub proof fn lemma_pairs_step(p: Spot, k: nat)
    requires
        0 < k <= pairs(p).len(),
    ensures
        pairs_at(p, k) == (
            pairs_at(p, (k - 1) as nat).0 + pair_run(p, k - 1).0,
            pair_run(p, k - 1).1,
        ),
        pair_run(p, k - 1).0.len() == pair_size(p),
        crate::pso_laws::grow::grows(pairs_at(p, (k - 1) as nat).1, pair_run(p, k - 1).1),
{
    reveal(pairs_at);
    reveal(pair_run);
    crate::pso_laws::grow::lemma_struct_grows(
        p.w.c,
        pair_key(p),
        Some(pair_at(p, k - 1)),
        pairs_at(p, (k - 1) as nat).1,
        crate::pso_write::full_fuel(p.w.c.schema),
    );
}

pub proof fn lemma_pairs_start(p: Spot)
    ensures
        pairs_at(p, 0) == (Seq::<u8>::empty(), p.st),
{
    reveal(pairs_at);
}

pub proof fn lemma_pairs_grow(p: Spot, k: nat, n: nat)
    requires
        k <= n <= pairs(p).len(),
    ensures
        crate::pso_laws::grow::grows(pairs_at(p, k).1, pairs_at(p, n).1),
    decreases n,
{
    if k < n {
        lemma_pairs_grow(p, k, (n - 1) as nat);
        lemma_pairs_step(p, n);
        crate::pso_laws::grow::lemma_grows_on(
            pairs_at(p, k).1,
            pairs_at(p, (n - 1) as nat).1,
            pairs_at(p, n).1,
        );
    }
}

proof fn lemma_pairs_stand(p: Spot, k: nat, i: int)
    requires
        0 <= i < k <= pairs(p).len(),
        pair_size(p) > 0,
    ensures
        pairs_at(p, k).0.len() == k * pair_size(p),
        0 <= i * pair_size(p),
        i * pair_size(p) + pair_size(p) <= k * pair_size(p),
        pairs_at(p, k).0.subrange(i * pair_size(p), i * pair_size(p) + pair_size(p))
            == pair_run(p, i).0,
    decreases k,
{
    let n = pair_size(p);
    lemma_pairs_step(p, k);
    if k > 1 {
        lemma_pairs_stand(
            p,
            (k - 1) as nat,
            if i < k - 1 {
                i
            } else {
                0
            },
        );
    } else {
        lemma_pairs_start(p);
        assert(0 * n == 0) by (nonlinear_arith);
    }
    let before = pairs_at(p, (k - 1) as nat).0;
    let all = pairs_at(p, k).0;
    assert(k * n == (k - 1) * n + n) by (nonlinear_arith);
    assert(0 <= i * n && i * n + n <= k * n) by (nonlinear_arith)
        requires
            0 <= i < k,
            n > 0,
    ;
    if i < k - 1 {
        assert(i * n + n <= (k - 1) * n) by (nonlinear_arith)
            requires
                i + 1 <= k - 1,
                n > 0,
        ;
        assert(all.subrange(i * n, i * n + n) =~= before.subrange(i * n, i * n + n));
    } else {
        assert(all.subrange(i * n, i * n + n) =~= pair_run(p, i).0);
    }
}

/// Whether pair `i` of a map at `start` is read as what it is.
#[verifier::opaque]
spec fn reads_pair(p: Spot, start: int, i: int) -> bool {
    crate::pso::read_struct(p.w.f, pair_key(p), start + i * pair_size(p), p.depth)
        == crate::pso::plain(
        ValueView::Struct(StructView { type_hash: pair_key(p), fields: pair_at(p, i) }),
    )
}

proof fn lemma_pair_reads(p: Spot, start: int, i: int)
    requires
        p.w.shown(),
        mapped(p),
        0 <= i < pairs(p).len(),
        crate::pso_laws::grow::grows(pair_run(p, i).1, p.w.end),
        p.w.has(start + i * pair_size(p), pair_run(p, i).0),
    ensures
        reads_pair(p, start, i),
        crate::pso::size_of_struct(p.w.f, pair_key(p)) == pair_size(p),
    decreases 66 - p.depth, 6int, 0int,
{
    reveal(reads_pair);
    reveal(pair_run);
    let st = pairs_at(p, i as nat).1;
    let full = crate::pso_write::full_fuel(p.w.c.schema);
    assert(pair_at(p, i) == crate::pso_write::pair_fields(
        crate::pso_laws::fits::pair_names(p.w.c.schema, pair_key(p)),
        pairs(p)[i],
    ));
    assert(crate::pso_laws::fits::fits_struct(
        p.w.f,
        p.w.c.schema,
        pair_key(p),
        pair_at(p, i),
        p.depth,
    ));
    lemma_described(p.w, pair_key(p), pair_at(p, i), st, full, p.depth);
    lemma_struct_reads(
        p.w,
        pair_key(p),
        pair_at(p, i),
        st,
        full,
        start + i * pair_size(p),
        p.depth,
    );
}

/// How the pairs of a map are read, one by one.
proof fn lemma_next_pair(p: Spot, start: int, n: nat)
    requires
        n < pairs(p).len(),
        crate::pso::size_of_struct(p.w.f, pair_key(p)) == pair_size(p),
        reads_pair(p, start, n as int),
    ensures
        crate::pso::pairs_from(p.w.f, pair_key(p), start, n, pairs(p).len(), p.depth) == ({
            let rest = crate::pso::pairs_from(
                p.w.f,
                pair_key(p),
                start,
                n + 1,
                pairs(p).len(),
                p.depth,
            );
            (
                seq![crate::pso::pair_of(pair_at(p, n as int))] + rest.0,
                Seq::<Warning>::empty() + rest.1,
            )
        }),
{
    reveal(reads_pair);
}

proof fn lemma_all_pairs(p: Spot, start: int, n: nat)
    requires
        n <= pairs(p).len(),
        crate::pso_laws::fits::pair_names(p.w.c.schema, pair_key(p)).len() == 2,
        crate::pso::size_of_struct(p.w.f, pair_key(p)) == pair_size(p),
        forall|i: int| 0 <= i < pairs(p).len() ==> #[trigger] reads_pair(p, start, i),
    ensures
        crate::pso::pairs_from(p.w.f, pair_key(p), start, n, pairs(p).len(), p.depth) == (
            pairs(p).skip(n as int),
            Seq::<Warning>::empty(),
        ),
    decreases pairs(p).len() - n,
{
    let all = pairs(p);
    if n == all.len() {
        assert(all.skip(n as int) =~= Seq::<(ValueView, ValueView)>::empty());
    } else {
        lemma_all_pairs(p, start, n + 1);
        lemma_next_pair(p, start, n);
        assert(crate::pso::pair_of(pair_at(p, n as int)) == all[n as int]);
        assert(all.skip(n as int) =~= seq![all[n as int]] + all.skip(n + 1int));
        assert(Seq::<Warning>::empty() + Seq::<Warning>::empty() =~= Seq::<Warning>::empty());
    }
}

/// What a map's header says.
proof fn lemma_map_header(buf: Seq<u8>, off: int, ptr: u32, count: int)
    requires
        0 <= off,
        off + 24 <= buf.len(),
        0 <= count <= 0xFFFF,
    ensures
        ({
            let marked = crate::bytes::splice(buf, off, crate::bytes::be32_bytes(0x0100_0000));
            let out = crate::bytes::splice(
                crate::bytes::splice(
                    crate::bytes::splice(marked, off + 8, crate::bytes::be32_bytes(ptr)),
                    off + 16,
                    crate::bytes::be16_bytes(count as u16),
                ),
                off + 18,
                crate::bytes::be16_bytes(count as u16),
            );
            let slot = out.subrange(off, off + 24);
            &&& crate::bytes::be32(slot, 0) == 0x0100_0000
            &&& crate::bytes::be32(slot, 8) == ptr
            &&& crate::bytes::be16(slot, 16) == count
        }),
{
    let marked = crate::bytes::splice(buf, off, crate::bytes::be32_bytes(0x0100_0000));
    let out = crate::bytes::splice(
        crate::bytes::splice(
            crate::bytes::splice(marked, off + 8, crate::bytes::be32_bytes(ptr)),
            off + 16,
            crate::bytes::be16_bytes(count as u16),
        ),
        off + 18,
        crate::bytes::be16_bytes(count as u16),
    );
    let slot = out.subrange(off, off + 24);
    assert(slot.subrange(0, 4) =~= crate::bytes::be32_bytes(0x0100_0000));
    assert(slot.subrange(8, 12) =~= crate::bytes::be32_bytes(ptr));
    assert(slot.subrange(16, 18) =~= crate::bytes::be16_bytes(count as u16));
    crate::pso_laws::scalars::lemma_words(count as u16, ptr, 0);
    crate::pso_laws::scalars::lemma_words(0, 0x0100_0000, 0);
}

proof fn lemma_empty_map_reads(p: Spot)
    requires
        p.ready(),
        p.e.ty == T_MAP,
        pairs(p).len() == 0,
    ensures
        p.read() == crate::pso::plain(p.v),
{
    reveal(Spot::after);
    let b = crate::bytes::be32_bytes(0x0100_0000);
    crate::pso_laws::spots::lemma_splice_at(p.buf, p.off(), b, 24);
    let slot = p.slot();
    assert(slot == b + crate::bytes::zeros(20));
    crate::pso_laws::spots::lemma_pointing(0x0100_0000, crate::bytes::zeros(20));
    assert(slot[16] == 0 && slot[17] == 0);
    assert(crate::bytes::be16(slot, 16) == 0);
    crate::pso_laws::spots::lemma_window(p.w, p.abs, slot);
    assert(pairs(p) =~= Seq::<(ValueView, ValueView)>::empty());
}

pub proof fn lemma_map_after(p: Spot)
    requires
        mapped(p),
        p.w.c.schema.pso_structs.contains_key(pair_key(p)),
        p.off() + 24 <= p.buf.len(),
    ensures
        ({
            let r = pairs_at(p, pairs(p).len());
            let added = crate::pso_write::add_item(r.1, pair_key(p), r.0);
            let n = pairs(p).len() as u16;
            let marked = crate::bytes::splice(
                p.buf,
                p.off(),
                crate::bytes::be32_bytes(0x0100_0000),
            );
            p.after() == (
                crate::bytes::splice(
                    crate::bytes::splice(
                        crate::bytes::splice(
                            marked,
                            p.off() + 8,
                            crate::bytes::be32_bytes(added.1),
                        ),
                        p.off() + 16,
                        crate::bytes::be16_bytes(n),
                    ),
                    p.off() + 18,
                    crate::bytes::be16_bytes(n),
                ),
                added.0,
            )
        }),
{
    reveal(Spot::after);
    reveal(pairs_at);
}

/// The pairs of a map come back where they stand in a row.
proof fn lemma_pairs_read(p: Spot, start: int)
    requires
        p.w.shown(),
        mapped(p),
        p.w.has(start, pairs_at(p, pairs(p).len()).0),
        crate::pso_laws::grow::grows(pairs_at(p, pairs(p).len()).1, p.w.end),
    ensures
        crate::pso::size_of_struct(p.w.f, pair_key(p)) == pair_size(p),
        crate::pso::pairs_from(p.w.f, pair_key(p), start, 0, pairs(p).len(), p.depth) == (
            pairs(p),
            Seq::<Warning>::empty(),
        ),
    decreases 66 - p.depth, 7int, 0int,
{
    let all = pairs(p).len();
    let n = pair_size(p);
    let run = pairs_at(p, all).0;
    assert forall|i: int| 0 <= i < all implies #[trigger] reads_pair(p, start, i) && crate::pso::size_of_struct(
        p.w.f,
        pair_key(p),
    ) == pair_size(p) by {
        lemma_pairs_stand(p, all, i);
        crate::pso_laws::spots::lemma_has_part(p.w, start, run, i * n, i * n + n);
        lemma_pairs_step(p, (i + 1) as nat);
        lemma_pairs_grow(p, (i + 1) as nat, all);
        crate::pso_laws::grow::lemma_grows_on(pair_run(p, i).1, pairs_at(p, all).1, p.w.end);
        lemma_pair_reads(p, start, i);
    }
    assert(reads_pair(p, start, 0));
    lemma_all_pairs(p, start, 0);
    assert(pairs(p).skip(0) =~= pairs(p));
}

proof fn lemma_map_reads(p: Spot)
    requires
        p.ready(),
        p.e.ty == T_MAP,
    ensures
        p.read() == crate::pso::plain(p.v),
    decreases 66 - p.depth, 8int, 0int,
{
    if pairs(p).len() == 0 {
        lemma_empty_map_reads(p);
    } else {
        assert(mapped(p));
        let key = pair_key(p);
        assert(pairs(p)[0] == p.v->Pairs_0[0]);
        assert(crate::pso_laws::fits::fits_struct(
            p.w.f,
            p.w.c.schema,
            key,
            pair_at(p, 0),
            p.depth,
        ));
        lemma_known(p.w, key, pair_at(p, 0), p.depth);
        let all = pairs(p).len();
        let r = pairs_at(p, all);
        let added = crate::pso_write::add_item(r.1, key, r.0);
        crate::pso_laws::grow::lemma_add(r.1, key, r.0);
        let block = crate::pso_laws::grow::block_at(r.1, key, r.0);
        let off = crate::pso_laws::grow::offset_at(r.1, key, r.0);
        lemma_map_after(p);
        crate::pso_laws::spots::lemma_has(p.w, added.0, block, off, key, r.0);
        crate::pso_laws::grow::lemma_grows_on(r.1, added.0, p.w.end);
        lemma_map_header(p.buf, p.off(), added.1, all as int);
        crate::pso_laws::spots::lemma_window(p.w, p.abs, p.slot());
        lemma_pairs_read(p, p.w.target(block, off));
        let info = crate::pso_laws::fits::info_of(p.def);
        let idx = (p.e.ref_key % 0x1_0000) as int;
        assert(info.entries[idx].ref_key == key);
    }
}

} // verus!
