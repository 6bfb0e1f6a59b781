//! When a tree fits its schema.

use vstd::prelude::*;

use crate::meta_schema::{MetaEntryInfo, MetaView, StructInfoView};
use crate::meta_write::{
    B_BYTE, SOA_VECTOR, T_ARRAY, T_BOOL, T_BYTE_ARRAY, T_BYTE_ENUM, T_CHAR_ARRAY, T_CHAR_PTR,
    T_DATA_BLOCK_PTR, T_F32, T_HASH, T_I16, T_I32, T_I8, T_INT_ENUM, T_INT_FLAGS1, T_INT_FLAGS2,
    T_SHORT_FLAGS, T_STRUCT, T_STRUCT_PTR, T_U16, T_U32, T_U8, T_VEC3, T_VEC4,
};
use crate::pso_write::{BuildState, Context};
use crate::schema::{MetaEntryDef, MetaStructDefView, SchemaView, ARRAYINFO};
use crate::value::{ArrayView, ValueView};

verus! {

/// A member as a file describes it.
pub open spec fn info_entry(e: MetaEntryDef) -> MetaEntryInfo {
    MetaEntryInfo {
        name_hash: e.name,
        offset: e.offset as i32,
        type_byte: e.ty,
        unknown: e.unk9,
        ref_index: e.ref_index,
        ref_key: e.ref_key,
    }
}

/// A structure as a file describes it.
pub open spec fn info_of(d: MetaStructDefView) -> StructInfoView {
    StructInfoView {
        name_hash: d.name,
        size: d.size as i32,
        entries: Seq::new(d.entries.len(), |i: int| info_entry(d.entries[i])),
    }
}

/// Whether a file shows what a writer has put together by a schema.
pub open spec fn shows(f: MetaView, c: Context, end: BuildState) -> bool {
    &&& f.blocks.len() == end.blocks.len()
    &&& f.blocks.len() <= 0xFFF
    &&& forall|i: int|
        0 <= i < end.blocks.len() ==> (#[trigger] f.blocks[i]).name_hash == end.blocks[i].0
            && f.blocks[i].data == end.blocks[i].1 && end.blocks[i].1.len() <= u32::MAX
    &&& forall|key: u32|
        end.used_structs.contains(key) && c.schema.meta_structs.contains_key(key) ==> (
        #[trigger] f.structs.contains_key(key)) && f.structs[key] == info_of(
            c.schema.meta_structs[key],
        )
}

/// How many bytes of its structure a member takes.
pub open spec fn room(s: SchemaView, e: MetaEntryDef, elem: Option<MetaEntryDef>) -> int {
    match crate::meta_write::plain_need(e) {
        Some(n) => n,
        None => if e.ty == T_BYTE_ARRAY {
            e.ref_key * crate::meta_write::stride_of(elem)
        } else if e.ty == T_CHAR_PTR || e.ty == T_ARRAY {
            16
        } else if e.ty == T_DATA_BLOCK_PTR || e.ty == T_STRUCT_PTR {
            8
        } else if e.ty == T_STRUCT && s.meta_structs.contains_key(e.ref_key) {
            s.meta_structs[e.ref_key].size as int
        } else {
            0
        },
    }
}

/// The room of member `k`.
pub open spec fn room_at(s: SchemaView, entries: Seq<MetaEntryDef>, k: int) -> int {
    room(s, entries[k], crate::meta_write::array_info(entries, k))
}

/// Whether two members take no byte together.
pub open spec fn apart(s: SchemaView, entries: Seq<MetaEntryDef>, i: int, j: int) -> bool {
    entries[i].offset + room_at(s, entries, i) <= entries[j].offset || entries[j].offset
        + room_at(s, entries, j) <= entries[i].offset
}

/// Whether a structure is laid out well: it is known by its own name, each of
/// its members lies inside it and apart from the others, and no two have the
/// same name.
pub open spec fn tidy(s: SchemaView, key: u32) -> bool {
    let d = s.meta_structs[key];
    &&& s.meta_structs.contains_key(key)
    &&& d.name == key
    &&& d.size < 0x8000_0000
    &&& forall|k: int|
        0 <= k < d.entries.len() && (#[trigger] d.entries[k]).name != ARRAYINFO ==> d.entries[k].offset
            + room_at(s, d.entries, k) <= d.size
    &&& forall|i: int, j: int|
        0 <= i < j < d.entries.len() && (#[trigger] d.entries[i]).name != ARRAYINFO && (
        #[trigger] d.entries[j]).name != ARRAYINFO ==> d.entries[i].name != d.entries[j].name
            && apart(s, d.entries, i, j)
}

/// How many of the first `k` members have a value.
pub open spec fn valued(entries: Seq<MetaEntryDef>, k: nat) -> nat
    decreases k,
{
    if k == 0 {
        0
    } else {
        valued(entries, (k - 1) as nat) + if entries[k - 1].name == ARRAYINFO {
            0nat
        } else {
            1nat
        }
    }
}

/// Whether a value is of a plain type, and an enum value or a bit set is
/// called what the file calls it.
pub open spec fn fits_plain(f: MetaView, ty: u8, ref_key: u32, v: ValueView) -> bool {
    if ty == T_BOOL {
        v is Bool
    } else if ty == T_I8 {
        v is I8
    } else if ty == T_U8 {
        v is U8
    } else if ty == T_I16 {
        v is I16
    } else if ty == T_U16 {
        v is U16
    } else if ty == T_I32 {
        v is I32
    } else if ty == T_U32 {
        v is U32
    } else if ty == T_F32 {
        v is F32
    } else if ty == T_VEC3 {
        v is Vec3
    } else if ty == T_VEC4 {
        v is Vec4
    } else if ty == T_HASH {
        v is Hash
    } else if ty == T_BYTE_ENUM {
        v is Enum && 0 <= v->value <= 0xFF && v == crate::meta_schema::enum_value(
            f,
            ref_key,
            v->value,
        )
    } else if ty == T_INT_ENUM {
        v is Enum && v == crate::meta_schema::enum_value(f, ref_key, v->value)
    } else if ty == T_INT_FLAGS1 || ty == T_INT_FLAGS2 {
        v is Flags && v == crate::meta_schema::flags_value(f, ref_key, v->bits)
    } else if ty == T_SHORT_FLAGS {
        v is Flags && v->bits <= 0xFFFF && v == crate::meta_schema::flags_value(
            f,
            ref_key,
            v->bits,
        )
    } else {
        false
    }
}

/// Whether a text can be stored with a NUL at its end.
pub open spec fn fits_text(v: ValueView, most: int) -> bool {
    &&& v is Str
    &&& vstd::utf8::encode_utf8(v->Str_0).len() <= most
    &&& forall|i: int|
        0 <= i < vstd::utf8::encode_utf8(v->Str_0).len() ==> #[trigger] vstd::utf8::encode_utf8(
            v->Str_0,
        )[i] != 0
}

/// Whether a block of raw bytes is left as it is: the writer appends later
/// lists of bytes to a block of bytes that is not full.
pub open spec fn fits_data(f: MetaView, bytes: Seq<u8>) -> bool {
    bytes.len() > 0 ==> forall|i: int|
        0 <= i < f.blocks.len() && (#[trigger] f.blocks[i]).name_hash == B_BYTE
            && crate::meta_laws::grow::begins(f.blocks[i].data, bytes) ==> f.blocks[i].data
            == bytes
}

/// Whether the elements of a byte array are single bytes.
pub open spec fn raw_elements(elem: Option<MetaEntryDef>) -> bool {
    match elem {
        Some(x) => x.ty == T_U8 || x.ty == T_I8 || x.ty == T_BOOL,
        None => true,
    }
}

/// Whether the elements of a byte array are integers of two or four bytes.
pub open spec fn wide_elements(elem: Option<MetaEntryDef>) -> bool {
    match elem {
        Some(x) => x.ty == T_I16 || x.ty == T_U16 || x.ty == T_I32 || x.ty == T_U32,
        None => false,
    }
}

/// Whether the values of a structure are those of its members, each of which
/// fits, in the order of the schema and `depth` structures deep.
pub open spec fn fits_struct(
    f: MetaView,
    s: SchemaView,
    key: u32,
    fields: Seq<(u32, ValueView)>,
    depth: nat,
) -> bool
    decreases 66 - depth, 3int,
{
    let entries = s.meta_structs[key].entries;
    &&& depth <= 64
    &&& tidy(s, key)
    &&& fields.len() == valued(entries, entries.len())
    &&& forall|k: int|
        0 <= k < entries.len() && (#[trigger] entries[k]).name != ARRAYINFO ==> {
            let x = fields[valued(entries, k as nat) as int];
            &&& x.0 == entries[k].name
            &&& fits_member(
                f,
                s,
                entries[k],
                crate::meta_write::array_info(entries, k),
                x.1,
                depth + 1,
            )
        }
}

/// Whether a value is a structure that fits, of a type the schema knows.
pub open spec fn fits_pointee(f: MetaView, s: SchemaView, v: ValueView, depth: nat) -> bool
    decreases 66 - depth, 4int,
{
    match v {
        ValueView::Null => true,
        ValueView::Struct(x) => fits_struct(f, s, x.type_hash, x.fields, depth),
        _ => false,
    }
}

/// Whether a value fits a member.
pub open spec fn fits_member(
    f: MetaView,
    s: SchemaView,
    e: MetaEntryDef,
    elem: Option<MetaEntryDef>,
    v: ValueView,
    depth: nat,
) -> bool
    decreases 66 - depth, 6int,
{
    if e.ty == T_CHAR_ARRAY {
        fits_text(v, e.ref_key - 1)
    } else if e.ty == T_BYTE_ARRAY {
        if raw_elements(elem) {
            v is Bytes && v->Bytes_0.len() == e.ref_key
        } else {
            &&& wide_elements(elem)
            &&& v is Array
            &&& v->Array_0.item_type is None
            &&& !v->Array_0.typed_items
            &&& v->Array_0.items.len() == e.ref_key
            &&& forall|i: int|
                0 <= i < v->Array_0.items.len() ==> fits_plain(
                    f,
                    elem->0.ty,
                    0,
                    #[trigger] v->Array_0.items[i],
                )
        }
    } else if e.ty == T_CHAR_PTR {
        fits_text(v, 0xFFFF)
    } else if e.ty == T_DATA_BLOCK_PTR {
        v is Bytes && fits_data(f, v->Bytes_0)
    } else if e.ty == T_STRUCT_PTR {
        fits_pointee(f, s, v, depth)
    } else if e.ty == T_STRUCT {
        match v {
            ValueView::Struct(x) => x.type_hash == e.ref_key && fits_struct(
                f,
                s,
                e.ref_key,
                x.fields,
                depth,
            ),
            _ => false,
        }
    } else if e.ty == T_ARRAY {
        match (elem, v) {
            (Some(x), ValueView::Array(a)) => fits_array(f, s, e, x, a, depth),
            _ => false,
        }
    } else {
        fits_plain(f, e.ty, e.ref_key, v)
    }
}

/// Whether a list fits an array member: it names the type that the reader
/// would name, and its elements fit.
pub open spec fn fits_array(
    f: MetaView,
    s: SchemaView,
    e: MetaEntryDef,
    x: MetaEntryDef,
    a: ArrayView,
    depth: nat,
) -> bool
    decreases 66 - depth, 5int,
{
    &&& a.items.len() <= 0xFFFF
    &&& e.unk9 == 4 ==> x.ty == T_STRUCT_PTR
    &&& a.typed_items == (x.ty == T_STRUCT_PTR)
    &&& if a.items.len() == 0 || x.ty == T_STRUCT_PTR {
        a.item_type == crate::meta_schema::item_type_of(info_entry(e), info_entry(x))
    } else {
        a.item_type == if x.ty == T_STRUCT && x.ref_key != SOA_VECTOR {
            Some(x.ref_key)
        } else {
            None
        }
    }
    &&& a.items.len() > 0 && x.ty == T_STRUCT && x.ref_key != SOA_VECTOR
        ==> s.meta_structs[x.ref_key].size > 0
    &&& forall|i: int|
        0 <= i < a.items.len() ==> {
            let item = #[trigger] a.items[i];
            if x.ty == T_STRUCT_PTR {
                fits_pointee(f, s, item, depth)
            } else if x.ty == T_CHAR_PTR {
                fits_text(item, 0xFFFF)
            } else if x.ty == T_STRUCT && x.ref_key == SOA_VECTOR {
                item is Vec3
            } else if x.ty == T_STRUCT {
                match item {
                    ValueView::Struct(y) => y.type_hash == x.ref_key && fits_struct(
                        f,
                        s,
                        x.ref_key,
                        y.fields,
                        depth,
                    ),
                    _ => false,
                }
            } else {
                fits_plain(f, x.ty, x.ref_key, item)
            }
        }
}

} // verus!
