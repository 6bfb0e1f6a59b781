//! When a tree fits its schema.

use vstd::prelude::*;

use crate::pso::{PsoEntry, PsoStructView, PsoView};
use crate::pso_write::{
    BuildState, Context, T_ARRAY, T_BOOL, T_ENUM, T_F32, T_FLAGS, T_HFLOAT, T_I16, T_I32, T_I8,
    T_LONG, T_MAP, T_STRING, T_STRUCT, T_U16, T_U32, T_U8, T_VEC2, T_VEC3, T_VEC3A, T_VEC4,
    T_VEC4A,
};
use crate::schema::{PsoEntryDef, PsoStructDefView, SchemaView, ARRAYINFO};
use crate::value::{ArrayView, ValueView};

verus! {

/// A member as a file describes it.
pub open spec fn info_entry(e: PsoEntryDef) -> PsoEntry {
    PsoEntry {
        name_hash: e.name,
        type_byte: e.ty,
        subtype: e.subtype,
        offset: e.offset,
        ref_key: e.ref_key,
    }
}

/// A structure as a file describes it.
pub open spec fn info_of(d: PsoStructDefView) -> PsoStructView {
    PsoStructView {
        name_hash: d.name,
        size: d.size,
        entries: Seq::new(d.entries.len(), |i: int| info_entry(d.entries[i])),
    }
}

/// Whether a file shows what a writer has put together by a schema.
pub open spec fn shows(f: PsoView, c: Context, end: BuildState) -> bool {
    &&& f.blocks.len() == end.blocks.len()
    &&& f.blocks.len() <= 0xFFF
    &&& forall|i: int|
        0 <= i < end.blocks.len() ==> {
            let b = #[trigger] f.blocks[i];
            &&& b.name_hash == end.blocks[i].0
            &&& b.offset + end.blocks[i].1.len() <= f.data.len()
            &&& f.data.subrange(b.offset as int, b.offset + end.blocks[i].1.len())
                == end.blocks[i].1
        }
    &&& forall|key: u32|
        end.used_structs.contains(key) && c.schema.pso_structs.contains_key(key) ==> (
        #[trigger] f.structs.contains_key(key)) && f.structs[key] == info_of(
            c.schema.pso_structs[key],
        )
}

/// How many bytes an element of an array takes.
pub open spec fn item_room(s: SchemaView, x: PsoEntryDef) -> int {
    if x.ty == T_STRUCT {
        if x.subtype == 3 {
            8
        } else {
            s.pso_structs[x.ref_key].size as int
        }
    } else if x.ty == T_STRING {
        if x.subtype == 0 {
            (x.ref_key / 0x1_0000) as int
        } else if x.subtype == 1 || x.subtype == 2 {
            8
        } else if x.subtype == 3 {
            16
        } else {
            4
        }
    } else if x.ty == T_BOOL || x.ty == T_I8 || x.ty == T_U8 {
        1
    } else if x.ty == T_I16 || x.ty == T_U16 || x.ty == T_HFLOAT {
        2
    } else if x.ty == T_LONG || x.ty == T_VEC2 {
        8
    } else if x.ty == T_VEC3 || x.ty == T_VEC4 || x.ty == T_VEC3A || x.ty == T_VEC4A {
        16
    } else {
        4
    }
}

/// Whether an array is stored elsewhere.
pub open spec fn is_apart(e: PsoEntryDef, x: PsoEntryDef) -> bool {
    e.subtype == 0 || (e.subtype == 4 && x.subtype == 3)
}

/// How many bytes of its structure a member takes.
pub open spec fn room(s: SchemaView, def: PsoStructDefView, e: PsoEntryDef) -> int {
    match crate::pso_write::plain_need(e) {
        Some(n) => n,
        None => if e.ty == T_STRING {
            if e.subtype == 3 {
                16
            } else {
                8
            }
        } else if e.ty == T_STRUCT {
            if e.subtype != 0 {
                8
            } else if s.pso_structs.contains_key(e.ref_key) {
                s.pso_structs[e.ref_key].size as int
            } else {
                0
            }
        } else if e.ty == T_ARRAY {
            match crate::pso_write::array_info(def, e) {
                Some(x) => if is_apart(e, x) {
                    16
                } else {
                    (e.ref_key / 0x1_0000) * item_room(s, x)
                },
                None => 0,
            }
        } else if e.ty == T_MAP {
            24
        } else {
            0
        },
    }
}

/// Whether two members take no byte together.
pub open spec fn apart(s: SchemaView, def: PsoStructDefView, i: int, j: int) -> bool {
    let a = def.entries[i];
    let b = def.entries[j];
    a.offset + room(s, def, a) <= b.offset || b.offset + room(s, def, b) <= a.offset
}

/// Whether a structure is laid out well: it is known by its own name, each of
/// its members lies inside it and apart from the others, and no two have the
/// same name.
pub open spec fn tidy(s: SchemaView, key: u32) -> bool {
    let d = s.pso_structs[key];
    &&& s.pso_structs.contains_key(key)
    &&& d.name == key
    &&& forall|k: int|
        0 <= k < d.entries.len() && (#[trigger] d.entries[k]).name != ARRAYINFO ==> d.entries[k].offset
            + room(s, d, d.entries[k]) <= d.size
    &&& forall|i: int, j: int|
        0 <= i < j < d.entries.len() && (#[trigger] d.entries[i]).name != ARRAYINFO && (
        #[trigger] d.entries[j]).name != ARRAYINFO ==> d.entries[i].name != d.entries[j].name
            && apart(s, d, i, j)
}

/// How many of the first `k` members have a value.
pub open spec fn valued(entries: Seq<PsoEntryDef>, k: nat) -> nat
    decreases k,
{
    if k == 0 {
        0
    } else {
        valued(entries, (k - 1) as nat) + if entries[k - 1].name == ARRAYINFO {
            0nat
        } else {
            1nat
        }
    }
}

/// Whether a value is of a number type, a half float by its bits.
pub open spec fn fits_number(ty: u8, in_array: bool, v: ValueView) -> bool {
    if ty == T_BOOL {
        v is Bool
    } else if ty == T_I8 {
        v is I8
    } else if ty == T_U8 {
        v is U8
    } else if ty == T_I16 {
        v is I16
    } else if ty == T_U16 {
        v is U16
    } else if ty == T_HFLOAT {
        if in_array {
            v is U16
        } else {
            v is I16
        }
    } else if ty == T_I32 {
        v is I32
    } else if ty == T_U32 {
        v is U32
    } else if ty == T_LONG {
        v is U64
    } else if ty == T_F32 {
        v is F32
    } else if ty == T_VEC2 {
        v is Vec2
    } else if ty == T_VEC3 || ty == T_VEC3A || ty == T_VEC4A {
        v is Vec3
    } else if ty == T_VEC4 {
        v is Vec4
    } else {
        false
    }
}

/// Whether a value is one of an enum, called what the file calls it.
pub open spec fn fits_enum(f: PsoView, enum_hash: u32, v: ValueView) -> bool {
    v is Enum && v == ValueView::Enum {
        enum_hash,
        value: v->value,
        name: crate::pso::enum_name(f, enum_hash, v->value),
    }
}

/// Whether a value is a bit set whose bits are called what the file calls
/// them.
pub open spec fn fits_flags(f: PsoView, enum_hash: u32, v: ValueView) -> bool {
    v is Flags && v == ValueView::Flags {
        enum_hash,
        bits: v->bits,
        names: if f.enums.contains_key(enum_hash) {
            crate::value::flag_names(f.enums[enum_hash].entries, v->bits)
        } else {
            Seq::empty()
        },
    }
}

/// Whether a value fits a member that holds it in place.
pub open spec fn fits_plain(f: PsoView, def: PsoStructDefView, e: PsoEntryDef, v: ValueView) -> bool {
    if e.ty == T_STRING && e.subtype == 0 {
        crate::meta_laws::fits::fits_text(v, (e.ref_key / 0x1_0000) - 1)
    } else if e.ty == T_STRING {
        v is Hash && (e.subtype == 7 || e.subtype == 8)
    } else if e.ty == T_ENUM {
        &&& fits_enum(f, e.ref_key, v)
        &&& e.subtype == 0 || (e.subtype == 2 && 0 <= v->value <= 0xFF)
    } else if e.ty == T_FLAGS {
        &&& fits_flags(f, crate::pso::flags_enum(info_of(def), e.ref_key), v)
        &&& e.subtype == 0 || (e.subtype == 1 && v->bits <= 0xFFFF) || (e.subtype == 2 && v->bits
            <= 0xFF)
    } else {
        fits_number(e.ty, false, v)
    }
}

/// Whether a value fits an element that holds it in place.
pub open spec fn fits_scalar(f: PsoView, x: PsoEntryDef, v: ValueView) -> bool {
    if x.ty == T_STRING && x.subtype == 0 {
        crate::meta_laws::fits::fits_text(v, (x.ref_key / 0x1_0000) - 1)
    } else if x.ty == T_STRING {
        v is Hash && (x.subtype == 7 || x.subtype == 8)
    } else if x.ty == T_ENUM {
        fits_enum(f, x.ref_key, v)
    } else {
        fits_number(x.ty, true, v)
    }
}

/// Whether the values of a structure are those of its members, each of which
/// fits, in the order of the schema and `depth` structures deep.
pub open spec fn fits_struct(
    f: PsoView,
    s: SchemaView,
    key: u32,
    fields: Seq<(u32, ValueView)>,
    depth: nat,
) -> bool
    decreases 66 - depth, 3int,
{
    let def = s.pso_structs[key];
    let entries = def.entries;
    &&& depth <= 64
    &&& tidy(s, key)
    &&& fields.len() == valued(entries, entries.len())
    &&& forall|k: int|
        0 <= k < entries.len() && (#[trigger] entries[k]).name != ARRAYINFO ==> {
            let x = fields[valued(entries, k as nat) as int];
            &&& x.0 == entries[k].name
            &&& fits_member(f, s, def, entries[k], x.1, depth + 1)
        }
}

/// Whether a value is a structure that fits, of a type the schema knows.
pub open spec fn fits_pointee(f: PsoView, s: SchemaView, v: ValueView, depth: nat) -> bool
    decreases 66 - depth, 4int,
{
    match v {
        ValueView::Null => true,
        ValueView::Struct(x) => fits_struct(f, s, x.type_hash, x.fields, depth),
        _ => false,
    }
}

/// Whether a value is a structure of type `key` that fits.
pub open spec fn fits_inline(
    f: PsoView,
    s: SchemaView,
    key: u32,
    v: ValueView,
    depth: nat,
) -> bool
    decreases 66 - depth, 4int,
{
    match v {
        ValueView::Struct(x) => x.type_hash == key && fits_struct(f, s, key, x.fields, depth),
        _ => false,
    }
}

/// Whether a value fits a member.
pub open spec fn fits_member(
    f: PsoView,
    s: SchemaView,
    def: PsoStructDefView,
    e: PsoEntryDef,
    v: ValueView,
    depth: nat,
) -> bool
    decreases 66 - depth, 6int,
{
    if e.ty == T_STRUCT {
        if e.subtype == 0 {
            fits_inline(f, s, e.ref_key, v, depth)
        } else {
            (e.subtype == 3 || e.subtype == 4) && fits_pointee(f, s, v, depth)
        }
    } else if e.ty == T_ARRAY {
        match (crate::pso_write::array_info(def, e), v) {
            (Some(x), ValueView::Array(a)) => fits_array(f, s, e, x, a, depth),
            _ => false,
        }
    } else if e.ty == T_MAP {
        match v {
            ValueView::Pairs(p) => fits_map(f, s, def, e, p, depth),
            _ => false,
        }
    } else if e.ty == T_STRING && (e.subtype == 1 || e.subtype == 2) {
        crate::meta_laws::fits::fits_text(v, 4096)
    } else if e.ty == T_STRING && e.subtype == 3 {
        crate::meta_laws::fits::fits_text(v, 0xFFFF)
    } else {
        fits_plain(f, def, e, v)
    }
}

/// Whether a list fits an array member: it names the type that the reader
/// would name, its elements fit, and one that is stored in place has as many
/// as the member holds.
pub open spec fn fits_array(
    f: PsoView,
    s: SchemaView,
    e: PsoEntryDef,
    x: PsoEntryDef,
    a: ArrayView,
    depth: nat,
) -> bool
    decreases 66 - depth, 5int,
{
    &&& a.items.len() <= 0xFFFF
    &&& !is_apart(e, x) ==> a.items.len() > 0 && a.items.len() == e.ref_key / 0x1_0000
    &&& a.item_type == crate::pso::item_type_of(info_entry(x))
    &&& a.typed_items == if a.items.len() == 0 {
        x.subtype == 3
    } else {
        x.ty == T_STRUCT && x.subtype == 3
    }
    &&& a.items.len() > 0 && x.ty == T_STRUCT && x.subtype != 3
        ==> s.pso_structs[x.ref_key].size > 0
    &&& forall|i: int|
        0 <= i < a.items.len() ==> {
            let item = #[trigger] a.items[i];
            if x.ty == T_STRUCT && x.subtype == 3 {
                fits_pointee(f, s, item, depth)
            } else if x.ty == T_STRUCT {
                fits_inline(f, s, x.ref_key, item, depth)
            } else if x.ty == T_STRING && x.subtype == 2 {
                crate::meta_laws::fits::fits_text(item, 4096)
            } else if x.ty == T_STRING && x.subtype == 3 {
                crate::meta_laws::fits::fits_text(item, 0xFFFF)
            } else {
                fits_scalar(f, x, item)
            }
        }
}

/// The structure type of the pairs of a map.
pub open spec fn pair_type(def: PsoStructDefView, e: PsoEntryDef) -> u32 {
    def.entries[(e.ref_key % 0x1_0000) as int].ref_key
}

/// The members that hold a key and a value.
pub open spec fn pair_names(s: SchemaView, key: u32) -> Seq<u32> {
    let entries = s.pso_structs[key].entries;
    crate::pso_write::named_members(entries, entries.len())
}

/// Whether some pairs fit a map member: each is a structure of two members
/// that fits.
pub open spec fn fits_map(
    f: PsoView,
    s: SchemaView,
    def: PsoStructDefView,
    e: PsoEntryDef,
    pairs: Seq<(ValueView, ValueView)>,
    depth: nat,
) -> bool
    decreases 66 - depth, 5int,
{
    let key = pair_type(def, e);
    &&& e.subtype == 1
    &&& e.ref_key % 0x1_0000 < def.entries.len()
    &&& pairs.len() <= 0xFFFF
    &&& pairs.len() > 0 ==> s.pso_structs[key].size > 0 && pair_names(s, key).len() == 2
    &&& forall|i: int|
        0 <= i < pairs.len() ==> fits_struct(
            f,
            s,
            key,
            crate::pso_write::pair_fields(pair_names(s, key), #[trigger] pairs[i]),
            depth,
        )
}

} // verus!
