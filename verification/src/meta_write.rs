//! Writes a [`MetaValue`] tree as an RSC7 Meta file (`.ymap`, `.ytyp`,
//! `.ymt`), the inverse of [`crate::meta_schema::dump_meta`]. The layout is
//! CodeWalker's `MetaBuilder`: one data block per structure type (split
//! at 16 KB), items padded to 16 bytes, raw arrays in blocks named by their
//! element type, strings in block `0x10`, pointer arrays in block `0x07`,
//! and the root structure alone in block 1.

use vstd::prelude::*;
use vstd::slice::*;
use vstd::string::*;

use crate::build_warning::{warn_once, BuildFault, BuildWarning, BuildWarningView, ValueKind};
use crate::bytes::{
    pad_to, push_bytes, push_u16_le, push_u32_le, push_u64_le, put_bytes, put_u16_le, put_u64_le,
};
use crate::chars::trim;
use crate::coerce::{
    bytes_of, enum_value, flags_bits, float_of, hash_of, int_of, str_of, vec_of, FloatTexts,
};
use crate::math::Vec4;
use crate::paging::{pack_pages, PagedLayout};
use crate::pso_write::{add_once, buffer_bytes, zero_bytes, BuildState, Context};
use crate::resource::{build_rsc7_with_flags, rsc7_page_count, ResourceError, SYSTEM_BASE};
use crate::schema::{
    MetaEntryDef, MetaEnumDef, MetaEnumDefView, MetaStructDef, MetaStructDefView, Schema,
    SchemaView, ARRAYINFO,
};
use crate::text::{chars_of, push_hex_lower};
use crate::value::{MetaArray, MetaStruct, MetaValue, StructView, ValueView};

verus! {

broadcast use {vstd::slice::group_slice_axioms, vstd::std_specs::hash::group_hash_axioms};

/// Resource version of a Meta file.
pub const META_VERSION: u32 = 2;

/// A block that has grown to this many bytes takes no more items.
pub const BLOCK_SPLIT: usize = 0x4000;

/// The structure whose arrays are stored as four-component vectors.
pub const SOA_VECTOR: u32 = 0xE2CB_CFD4;

/// The most pages a Meta file takes.
pub const MAX_PAGES: usize = 128;

/// How often the page map is resized before giving up on a layout.
pub const MAX_ROUNDS: usize = 256;

// Member type ids (CodeWalker's MetaStructureEntryDataType).
pub const T_BOOL: u8 = 0x01;
pub const T_I8: u8 = 0x10;
pub const T_U8: u8 = 0x11;
pub const T_I16: u8 = 0x12;
pub const T_U16: u8 = 0x13;
pub const T_I32: u8 = 0x14;
pub const T_U32: u8 = 0x15;
pub const T_F32: u8 = 0x21;
pub const T_VEC3: u8 = 0x33;
pub const T_VEC4: u8 = 0x34;
pub const T_HASH: u8 = 0x4A;
pub const T_BYTE_ENUM: u8 = 0x60;
pub const T_INT_ENUM: u8 = 0x62;
pub const T_INT_FLAGS1: u8 = 0x63;
pub const T_SHORT_FLAGS: u8 = 0x64;
pub const T_INT_FLAGS2: u8 = 0x65;
pub const T_ARRAY: u8 = 0x52;
pub const T_CHAR_ARRAY: u8 = 0x40;
pub const T_BYTE_ARRAY: u8 = 0x50;
pub const T_DATA_BLOCK_PTR: u8 = 0x59;
pub const T_CHAR_PTR: u8 = 0x44;
pub const T_STRUCT_PTR: u8 = 0x07;
pub const T_STRUCT: u8 = 0x05;

// Blocks holding raw storage, named by what they hold.
pub const B_STRING: u32 = 0x10;
pub const B_POINTER: u32 = 0x07;
pub const B_HASH: u32 = 0x4A;
pub const B_UINT: u32 = 0x15;
pub const B_USHORT: u32 = 0x13;
pub const B_BYTE: u32 = 0x11;
pub const B_FLOAT: u32 = 0x21;
pub const B_VECTOR4: u32 = 0x33;
pub const B_CHAR_POINTER: u32 = 0x44;

/// The built file and what the writer had to leave out.
#[derive(Debug, PartialEq)]
pub struct Written {
    pub bytes: Vec<u8>,
    pub warnings: Vec<BuildWarning>,
}

/// Why a file could not be built at all.
#[derive(Debug, Clone, Copy, PartialEq, Eq, Structural)]
pub enum MetaBuildError {
    RootNotStructure,
    NoRootSchema(u32),
    /// A structure that has to be written with its defaults holds itself.
    Endless,
    /// The blocks find no place in the pages of one file.
    Layout(ResourceError),
}

impl MetaBuildError {
    /// The error in words.
    pub fn message(&self) -> (r: String)
        ensures
            r@ == self.text(),
    {
        let mut out = String::new();
        match self {
            MetaBuildError::RootNotStructure => {
                out.append("the root of a Meta file must be a structure");
            },
            MetaBuildError::NoRootSchema(h) => {
                out.append("no schema for the root structure 0x");
                push_hex_lower(&mut out, *h as u64, 8);
                out.append("; pass a file that carries it with --schema");
            },
            MetaBuildError::Endless => {
                out.append("a structure of the schema holds itself");
            },
            MetaBuildError::Layout(e) => {
                out = e.message();
            },
        }
        assert(out@ =~= self.text());
        out
    }

    /// The error in words.
    pub open spec fn text(&self) -> Seq<char> {
        match self {
            MetaBuildError::RootNotStructure => "the root of a Meta file must be a structure"@,
            MetaBuildError::NoRootSchema(h) => "no schema for the root structure 0x"@
                + crate::text::hex_lower(*h as nat, 8)
                + "; pass a file that carries it with --schema"@,
            MetaBuildError::Endless => "a structure of the schema holds itself"@,
            MetaBuildError::Layout(e) => e.text(),
        }
    }
}

// ─── the model ───────────────────────────────────────────────────────────────

/// The state once an enum is known to be used, if the schema has it.
pub open spec fn use_enum(c: Context, st: BuildState, name: u32) -> BuildState {
    if c.schema.meta_enums.contains_key(name) {
        BuildState { used_enums: crate::pso_write::with_once(st.used_enums, name), ..st }
    } else {
        st
    }
}

/// The state with one more warning about a member.
pub open spec fn fault(
    st: BuildState,
    def: MetaStructDefView,
    e: MetaEntryDef,
    fault: BuildFault,
) -> BuildState {
    BuildState {
        warnings: crate::build_warning::warned(
            st.warnings,
            BuildWarningView::Fault { structure: def.name, member: e.name, fault },
        ),
        ..st
    }
}

/// The state once a value turned out not to be what a member wants. A
/// missing value is no surprise.
pub open spec fn mismatch(
    st: BuildState,
    def: MetaStructDefView,
    e: MetaEntryDef,
    v: Option<ValueView>,
) -> BuildState {
    match v {
        None => st,
        Some(value) => BuildState {
            warnings: crate::build_warning::warned(
                st.warnings,
                BuildWarningView::Mismatch {
                    structure: def.name,
                    member: e.name,
                    wanted: kind_of(e.ty),
                    value,
                },
            ),
            ..st
        },
    }
}

/// The kind of value that a member type wants.
pub open spec fn kind_of(ty: u8) -> ValueKind {
    if ty == T_BOOL {
        ValueKind::Boolean
    } else if ty == T_I8 || ty == T_U8 || ty == T_I16 || ty == T_U16 || ty == T_I32 || ty == T_U32 {
        ValueKind::Integer
    } else if ty == T_F32 {
        ValueKind::Float
    } else if ty == T_VEC3 {
        ValueKind::Vector3
    } else if ty == T_VEC4 {
        ValueKind::Vector4
    } else if ty == T_HASH {
        ValueKind::Hash
    } else if ty == T_BYTE_ENUM || ty == T_INT_ENUM {
        ValueKind::EnumMember
    } else if ty == T_INT_FLAGS1 || ty == T_INT_FLAGS2 || ty == T_SHORT_FLAGS {
        ValueKind::FlagSet
    } else if ty == T_CHAR_ARRAY || ty == T_CHAR_PTR {
        ValueKind::Text
    } else if ty == T_BYTE_ARRAY || ty == T_DATA_BLOCK_PTR {
        ValueKind::Bytes
    } else if ty == T_STRUCT || ty == T_STRUCT_PTR {
        ValueKind::Structure
    } else if ty == T_ARRAY {
        ValueKind::Array
    } else {
        ValueKind::Value
    }
}

/// A packed pointer: 1-based block id in the low 12 bits, offset above.
pub open spec fn pointer(block: int, offset: int) -> u64 {
    ((block + 1) % 0x1000 + 0x1000 * (offset % 0x10_0000)) as u64
}

/// Some bytes, padded with zeros to a multiple of sixteen.
pub open spec fn padded16(s: Seq<u8>) -> Seq<u8> {
    s + crate::bytes::zeros((16 - s.len() % 16) % 16)
}

/// The first block of that name from `i` on that still takes items, or the
/// place of a new one. The root's own block, the first, takes none.
pub open spec fn block_for(blocks: Seq<(u32, Seq<u8>)>, name: u32, i: int) -> int
    decreases blocks.len() - i,
{
    if i >= blocks.len() {
        blocks.len() as int
    } else if i > 0 && blocks[i].0 == name && blocks[i].1.len() < BLOCK_SPLIT {
        i
    } else {
        block_for(blocks, name, i + 1)
    }
}

/// The blocks with some bytes added to the one for `name`, and the pointer to
/// them.
pub open spec fn append(st: BuildState, name: u32, bytes: Seq<u8>, pad: bool) -> (BuildState, u64) {
    let i = block_for(st.blocks, name, 0);
    let old = if i < st.blocks.len() {
        st.blocks[i].1
    } else {
        Seq::empty()
    };
    let data = if pad {
        padded16(old + bytes)
    } else {
        old + bytes
    };
    let blocks = if i < st.blocks.len() {
        st.blocks.update(i, (name, data))
    } else {
        st.blocks.push((name, data))
    };
    (BuildState { blocks, ..st }, pointer(i, old.len() as int))
}

/// The blocks with an item added, padded to sixteen bytes.
pub open spec fn add_item(st: BuildState, name: u32, bytes: Seq<u8>) -> (BuildState, u64) {
    append(st, name, bytes, true)
}

/// The blocks with a NUL-terminated string added.
pub open spec fn add_string(st: BuildState, text: Seq<char>) -> (BuildState, u64) {
    append(st, B_STRING, vstd::utf8::encode_utf8(text).push(0), false)
}

/// The blocks with a block of raw bytes added.
pub open spec fn add_data_block(st: BuildState, bytes: Seq<u8>) -> (BuildState, u64) {
    (
        BuildState { blocks: st.blocks.push((B_BYTE, bytes)), ..st },
        pointer(st.blocks.len() as int, 0),
    )
}

/// The members of an enum, none where the schema has none.
pub open spec fn enum_members(c: Context, name: u32) -> Seq<(u32, i32)> {
    if c.schema.meta_enums.contains_key(name) {
        c.schema.meta_enums[name].entries
    } else {
        Seq::empty()
    }
}

/// The last element descriptor among the first `k` members.
pub open spec fn last_info(entries: Seq<MetaEntryDef>, k: nat) -> Option<MetaEntryDef>
    decreases k,
{
    if k == 0 {
        None
    } else if entries[k - 1].name == ARRAYINFO {
        Some(entries[k - 1])
    } else {
        last_info(entries, (k - 1) as nat)
    }
}

/// The element descriptor of member `k`: the one it names, or the last before
/// it.
pub open spec fn array_info(entries: Seq<MetaEntryDef>, k: int) -> Option<MetaEntryDef> {
    let i = entries[k].ref_index as int;
    if 0 <= i < entries.len() && entries[i].name == ARRAYINFO {
        Some(entries[i])
    } else {
        last_info(entries, k as nat)
    }
}

/// Three components, little-endian.
pub open spec fn three(a: Vec4) -> Seq<u8> {
    crate::bytes::le32_bytes(a.x) + crate::bytes::le32_bytes(a.y) + crate::bytes::le32_bytes(a.z)
}

/// Four components, little-endian.
pub open spec fn four(a: Vec4) -> Seq<u8> {
    three(a) + crate::bytes::le32_bytes(a.w)
}

/// An integer in one, two or four bytes.
pub open spec fn integer_bytes(n: i64, size: int) -> Seq<u8> {
    if size == 1 {
        seq![n as u8]
    } else if size == 2 {
        crate::bytes::le16_bytes(n as u16)
    } else {
        crate::bytes::le32_bytes(n as u32)
    }
}

/// How many bytes a member needs that holds its whole value in place, `None`
/// for a member of any other kind.
pub open spec fn plain_need(e: MetaEntryDef) -> Option<int> {
    if e.ty == T_BOOL || e.ty == T_I8 || e.ty == T_U8 || e.ty == T_BYTE_ENUM {
        Some(1)
    } else if e.ty == T_I16 || e.ty == T_U16 || e.ty == T_SHORT_FLAGS {
        Some(2)
    } else if e.ty == T_I32 || e.ty == T_U32 || e.ty == T_F32 || e.ty == T_HASH || e.ty
        == T_INT_ENUM || e.ty == T_INT_FLAGS1 || e.ty == T_INT_FLAGS2 {
        Some(4)
    } else if e.ty == T_VEC3 {
        Some(12)
    } else if e.ty == T_VEC4 {
        Some(16)
    } else if e.ty == T_CHAR_ARRAY {
        Some(e.ref_key as int)
    } else {
        None
    }
}

/// The bytes that a plain member stores for a value.
pub open spec fn plain_bytes(c: Context, e: MetaEntryDef, v: ValueView) -> Option<Seq<u8>> {
    if e.ty == T_BOOL {
        match crate::coerce::as_integer(v, c.floats) {
            Some(n) => Some(
                seq![
                    if n != 0 {
                        1u8
                    } else {
                        0u8
                    },
                ],
            ),
            None => None,
        }
    } else if e.ty == T_F32 {
        match crate::coerce::as_single(v, c.floats) {
            Some(b) => Some(crate::bytes::le32_bytes(b)),
            None => None,
        }
    } else if e.ty == T_VEC3 {
        match crate::coerce::as_vector(v, 3, c.floats) {
            Some(a) => Some(three(a)),
            None => None,
        }
    } else if e.ty == T_VEC4 {
        match crate::coerce::as_vector(v, 4, c.floats) {
            Some(a) => Some(four(a)),
            None => None,
        }
    } else if e.ty == T_HASH {
        match crate::coerce::as_hash(v) {
            Some(h) => Some(crate::bytes::le32_bytes(h)),
            None => None,
        }
    } else if e.ty == T_BYTE_ENUM || e.ty == T_INT_ENUM {
        match crate::coerce::as_enum(v, enum_members(c, e.ref_key), c.floats) {
            Some(x) => Some(
                if e.ty == T_BYTE_ENUM {
                    seq![x as u8]
                } else {
                    crate::bytes::le32_bytes(x as u32)
                },
            ),
            None => None,
        }
    } else if e.ty == T_INT_FLAGS1 || e.ty == T_INT_FLAGS2 || e.ty == T_SHORT_FLAGS {
        match crate::coerce::as_flags(v, enum_members(c, e.ref_key), c.floats) {
            Some(b) => Some(
                if e.ty == T_SHORT_FLAGS {
                    crate::bytes::le16_bytes(b as u16)
                } else {
                    crate::bytes::le32_bytes(b)
                },
            ),
            None => None,
        }
    } else if e.ty == T_CHAR_ARRAY {
        match crate::coerce::as_text(v) {
            Some(t) => Some(crate::pso_write::buffer_text(t, e.ref_key as int)),
            None => None,
        }
    } else {
        match crate::coerce::as_integer(v, c.floats) {
            Some(n) => Some(integer_bytes(n, plain_need(e)->0)),
            None => None,
        }
    }
}

/// The state once a plain member is stored: its enum is used, unless it is
/// stored in one byte.
pub open spec fn plain_used(c: Context, st: BuildState, e: MetaEntryDef) -> BuildState {
    if e.ty == T_INT_ENUM || e.ty == T_INT_FLAGS1 || e.ty == T_INT_FLAGS2 || e.ty
        == T_SHORT_FLAGS {
        use_enum(c, st, e.ref_key)
    } else {
        st
    }
}

/// How many bytes an element of a fixed array takes, one where its type has
/// no size of its own.
pub open spec fn stride_of(elem: Option<MetaEntryDef>) -> int {
    let ty = match elem {
        Some(x) => x.ty,
        None => T_U8,
    };
    if ty == T_I16 || ty == T_U16 || ty == T_SHORT_FLAGS {
        2
    } else if ty == T_I32 || ty == T_U32 || ty == T_F32 || ty == T_HASH || ty == T_INT_ENUM || ty
        == T_INT_FLAGS1 || ty == T_INT_FLAGS2 {
        4
    } else {
        1
    }
}

/// A structure with the first `k` of some integers written into it at `off`,
/// up to the first that is none, and whether there was none such.
pub open spec fn integers_into(
    c: Context,
    buf: Seq<u8>,
    off: int,
    stride: int,
    items: Seq<ValueView>,
    k: nat,
) -> (Seq<u8>, bool)
    decreases k,
{
    if k == 0 {
        (buf, true)
    } else {
        let before = integers_into(c, buf, off, stride, items, (k - 1) as nat);
        if !before.1 {
            before
        } else {
            match crate::coerce::as_integer(items[k - 1], c.floats) {
                Some(n) => (
                    crate::bytes::splice(before.0, off + (k - 1) * stride, integer_bytes(n, stride)),
                    true,
                ),
                None => (before.0, false),
            }
        }
    }
}

/// `buf` with a counted pointer written into it at `off`.
pub open spec fn put_counted(buf: Seq<u8>, off: int, ptr: u64, count: int) -> Seq<u8> {
    crate::bytes::splice(
        crate::bytes::splice(crate::bytes::splice(buf, off, crate::bytes::le64_bytes(ptr)), off + 8, crate::bytes::le16_bytes(count as u16)),
        off + 10,
        crate::bytes::le16_bytes(count as u16),
    )
}

/// The structure type that a pointed-to structure is written as.
pub open spec fn pointee_type(c: Context, s: StructView, fallback: u32) -> u32 {
    if c.schema.meta_structs.contains_key(s.type_hash) {
        s.type_hash
    } else {
        fallback
    }
}

/// Whether the elements of an array are stored by value, each from its own
/// value alone.
pub open spec fn is_scalar_run(elem: MetaEntryDef) -> bool {
    (elem.ty == T_STRUCT && elem.ref_key == SOA_VECTOR) || (elem.ty != T_STRUCT && elem.ty
        != T_STRUCT_PTR && elem.ty != T_CHAR_PTR)
}

/// Why the elements of an array cannot be written, if they cannot.
pub open spec fn run_refused(c: Context, elem: MetaEntryDef) -> Option<BuildFault> {
    if elem.ty == T_STRUCT {
        if elem.ref_key != SOA_VECTOR && !c.schema.meta_structs.contains_key(elem.ref_key) {
            Some(BuildFault::NoElementSchema(elem.ref_key))
        } else {
            None
        }
    } else if elem.ty == T_STRUCT_PTR || elem.ty == T_CHAR_PTR || elem.ty == T_VEC3 || elem.ty
        == T_VEC4 || elem.ty == T_HASH || elem.ty == T_F32 || elem.ty == T_U32 || elem.ty == T_I32
        || elem.ty == T_INT_ENUM || elem.ty == T_INT_FLAGS1 || elem.ty == T_INT_FLAGS2 || elem.ty
        == T_U16 || elem.ty == T_I16 || elem.ty == T_SHORT_FLAGS || elem.ty == T_U8 || elem.ty
        == T_I8 || elem.ty == T_BOOL || elem.ty == T_BYTE_ENUM {
        None
    } else {
        Some(BuildFault::ElementType(elem.ty))
    }
}

/// The block that an array's elements are stored in.
pub open spec fn run_block(c: Context, elem: MetaEntryDef) -> u32 {
    if elem.ty == T_STRUCT {
        if elem.ref_key == SOA_VECTOR {
            B_VECTOR4
        } else {
            c.schema.meta_structs[elem.ref_key].name
        }
    } else if elem.ty == T_STRUCT_PTR {
        B_POINTER
    } else if elem.ty == T_CHAR_PTR {
        B_CHAR_POINTER
    } else if elem.ty == T_VEC3 || elem.ty == T_VEC4 {
        B_VECTOR4
    } else if elem.ty == T_HASH {
        B_HASH
    } else if elem.ty == T_F32 {
        B_FLOAT
    } else if elem.ty == T_U16 || elem.ty == T_I16 || elem.ty == T_SHORT_FLAGS {
        B_USHORT
    } else if elem.ty == T_U8 || elem.ty == T_I8 || elem.ty == T_BOOL || elem.ty == T_BYTE_ENUM {
        B_BYTE
    } else {
        B_UINT
    }
}

/// The bytes of one element that is stored by value.
pub open spec fn scalar_item(c: Context, elem: MetaEntryDef, v: ValueView) -> Option<Seq<u8>> {
    if elem.ty == T_STRUCT {
        match crate::coerce::as_vector(v, 3, c.floats) {
            Some(a) => Some(three(a) + crate::bytes::zeros(4)),
            None => None,
        }
    } else if elem.ty == T_VEC3 {
        match crate::coerce::as_vector(v, 3, c.floats) {
            Some(a) => Some(four(a)),
            None => None,
        }
    } else if elem.ty == T_VEC4 {
        match crate::coerce::as_vector(v, 4, c.floats) {
            Some(a) => Some(four(a)),
            None => None,
        }
    } else if elem.ty == T_HASH {
        match crate::coerce::as_hash(v) {
            Some(h) => Some(crate::bytes::le32_bytes(h)),
            None => None,
        }
    } else if elem.ty == T_F32 {
        match crate::coerce::as_single(v, c.floats) {
            Some(b) => Some(crate::bytes::le32_bytes(b)),
            None => None,
        }
    } else {
        match crate::coerce::as_integer(v, c.floats) {
            Some(n) => Some(
                integer_bytes(
                    n,
                    if elem.ty == T_U16 || elem.ty == T_I16 || elem.ty == T_SHORT_FLAGS {
                        2
                    } else if elem.ty == T_U8 || elem.ty == T_I8 || elem.ty == T_BOOL || elem.ty
                        == T_BYTE_ENUM {
                        1
                    } else {
                        4
                    },
                ),
            ),
            None => None,
        }
    }
}

/// The number of structures: no chain of inline structures without a repeat
/// is longer.
pub open spec fn full_fuel(s: SchemaView) -> nat {
    s.meta_structs.dom().len()
}

/// The bytes of a structure of type `key`, each member at its place.
pub open spec fn write_struct(
    c: Context,
    key: u32,
    fields: Option<Seq<(u32, ValueView)>>,
    st: BuildState,
    fuel: nat,
) -> (Seq<u8>, BuildState)
    decreases crate::pso_write::struct_measure(fields), fuel, 5int, 0int,
{
    let def = c.schema.meta_structs[key];
    write_members(
        c,
        def,
        fields,
        crate::bytes::zeros(def.size as int),
        crate::pso_write::use_struct(st, def.name),
        fuel,
        def.entries.len(),
    )
}

/// The bytes of a structure with its first `k` members written, in schema
/// order.
pub open spec fn write_members(
    c: Context,
    def: MetaStructDefView,
    fields: Option<Seq<(u32, ValueView)>>,
    buf: Seq<u8>,
    st: BuildState,
    fuel: nat,
    k: nat,
) -> (Seq<u8>, BuildState)
    decreases crate::pso_write::struct_measure(fields), fuel, 4int, k,
{
    if k == 0 {
        (buf, st)
    } else {
        let before = write_members(c, def, fields, buf, st, fuel, (k - 1) as nat);
        let e = def.entries[k - 1];
        if e.name == ARRAYINFO {
            before
        } else {
            proof {
                crate::pso_write::lemma_member_measure(fields, e.name);
            }
            write_member(
                c,
                def,
                e,
                array_info(def.entries, k - 1),
                crate::pso_write::member_value(fields, e.name),
                before.0,
                before.1,
                fuel,
            )
        }
    }
}

/// A structure with the member `e` written into it.
pub open spec fn write_member(
    c: Context,
    def: MetaStructDefView,
    e: MetaEntryDef,
    elem: Option<MetaEntryDef>,
    value: Option<ValueView>,
    buf: Seq<u8>,
    st: BuildState,
    fuel: nat,
) -> (Seq<u8>, BuildState)
    decreases crate::pso_write::member_measure(value), fuel, 3int, 0int,
{
    let off = e.offset as int;
    let v = crate::pso_write::value_or_null(value);
    let unfit = (
        buf,
        fault(
            st,
            def,
            e,
            BuildFault::DoesNotFit { at: off as u64, size: buf.len() as u64 },
        ),
    );
    let bad = (buf, mismatch(st, def, e, value));
    if plain_need(e) is Some {
        if off + plain_need(e)->0 > buf.len() {
            unfit
        } else {
            match plain_bytes(c, e, v) {
                None => bad,
                Some(b) => (crate::bytes::splice(buf, off, b), plain_used(c, st, e)),
            }
        }
    } else if e.ty == T_BYTE_ARRAY {
        let stride = stride_of(elem);
        let room = e.ref_key * stride;
        if off + room > buf.len() {
            unfit
        } else if v is Array && stride > 1 {
            let items = v->Array_0.items;
            let r = integers_into(
                c,
                buf,
                off,
                stride,
                items,
                crate::resource::least(items.len() as int, e.ref_key as int) as nat,
            );
            (
                r.0,
                if r.1 {
                    st
                } else {
                    mismatch(st, def, e, value)
                },
            )
        } else {
            match crate::coerce::as_bytes(v, c.floats) {
                None => bad,
                Some(b) => (crate::bytes::splice(buf, off, b.take(crate::resource::least(b.len() as int, room))), st),
            }
        }
    } else if e.ty == T_CHAR_PTR {
        if off + 16 > buf.len() {
            unfit
        } else {
            match crate::coerce::as_text(v) {
                None => bad,
                Some(t) => if t.len() == 0 {
                    (buf, st)
                } else {
                    let r = add_string(st, t);
                    (put_counted(buf, off, r.1, vstd::utf8::encode_utf8(t).len() as int), r.0)
                },
            }
        }
    } else if e.ty == T_DATA_BLOCK_PTR {
        if off + 8 > buf.len() {
            unfit
        } else {
            match crate::coerce::as_bytes(v, c.floats) {
                None => bad,
                Some(b) => if b.len() == 0 {
                    (buf, st)
                } else {
                    let r = add_data_block(st, b);
                    (crate::bytes::splice(buf, off, crate::bytes::le64_bytes(r.1)), r.0)
                },
            }
        }
    } else if e.ty == T_STRUCT_PTR {
        if off + 8 > buf.len() {
            unfit
        } else {
            match value {
                Some(ValueView::Struct(s)) => {
                    let ty = pointee_type(c, s, e.ref_key);
                    if !c.schema.meta_structs.contains_key(ty) {
                        (buf, fault(st, def, e, BuildFault::NoSchema(ty)))
                    } else {
                        let r = write_struct(c, ty, Some(s.fields), st, full_fuel(c.schema));
                        let a = add_item(r.1, c.schema.meta_structs[ty].name, r.0);
                        (crate::bytes::splice(buf, off, crate::bytes::le64_bytes(a.1)), a.0)
                    }
                },
                Some(ValueView::Null) => (buf, st),
                None => (buf, st),
                _ => bad,
            }
        }
    } else if e.ty == T_STRUCT {
        if !c.schema.meta_structs.contains_key(e.ref_key) {
            (buf, fault(st, def, e, BuildFault::NoSchema(e.ref_key)))
        } else if off + c.schema.meta_structs[e.ref_key].size > buf.len() {
            unfit
        } else {
            match value {
                Some(ValueView::Struct(s)) => {
                    let r = write_struct(c, e.ref_key, Some(s.fields), st, full_fuel(c.schema));
                    (crate::bytes::splice(buf, off, r.0), r.1)
                },
                Some(ValueView::Null) => {
                    let r = write_struct(c, e.ref_key, None, st, full_fuel(c.schema));
                    (crate::bytes::splice(buf, off, r.0), r.1)
                },
                None => if fuel > 0 && !st.endless {
                    let r = write_struct(c, e.ref_key, None, st, (fuel - 1) as nat);
                    (crate::bytes::splice(buf, off, r.0), r.1)
                } else {
                    (buf, BuildState { endless: true, ..st })
                },
                _ => bad,
            }
        }
    } else if e.ty == T_ARRAY {
        if off + 16 > buf.len() {
            unfit
        } else {
            match elem {
                None => (buf, fault(st, def, e, BuildFault::NoArrayInfo)),
                Some(x) => if !(v is Array) && !(v is Null) && !(v is Str && crate::chars::trimmed(
                    v->Str_0,
                ).len() == 0) {
                    bad
                } else if crate::pso_write::items_of(v).len() == 0 {
                    (buf, st)
                } else {
                    let r = element_run(c, def, e, x, crate::pso_write::items_of(v), st, fuel);
                    match r.0 {
                        None => (buf, r.1),
                        Some(run) => {
                            let a = add_item(r.1, run_block(c, x), run);
                            (put_counted(buf, off, a.1, crate::pso_write::items_of(v).len() as int), a.0)
                        },
                    }
                },
            }
        }
    } else {
        (buf, fault(st, def, e, BuildFault::MemberType(e.ty)))
    }
}

/// The bytes of an array's elements, `None` where they cannot be written.
pub open spec fn element_run(
    c: Context,
    def: MetaStructDefView,
    e: MetaEntryDef,
    elem: MetaEntryDef,
    items: Seq<ValueView>,
    st: BuildState,
    fuel: nat,
) -> (Option<Seq<u8>>, BuildState)
    decreases crate::pso_write::items_measure(items), fuel, 2int, 0int,
{
    match run_refused(c, elem) {
        Some(f) => (None, fault(st, def, e, f)),
        None => items_run(c, def, e, elem, items, st, items.len()),
    }
}

/// The bytes of an array's first `k` elements.
pub open spec fn items_run(
    c: Context,
    def: MetaStructDefView,
    e: MetaEntryDef,
    elem: MetaEntryDef,
    items: Seq<ValueView>,
    st: BuildState,
    k: nat,
) -> (Option<Seq<u8>>, BuildState)
    decreases crate::pso_write::items_measure(items), 0nat, 1int, k,
{
    if k == 0 || k > items.len() {
        (Some(Seq::empty()), st)
    } else {
        let before = items_run(c, def, e, elem, items, st, (k - 1) as nat);
        proof {
            crate::value::lemma_item_height(items, k - 1);
        }
        match before.0 {
            None => before,
            Some(run) => {
                let r = write_item(c, def, e, elem, items[k - 1], before.1);
                match r.0 {
                    None => (None, r.1),
                    Some(b) => (Some(run + b), r.1),
                }
            },
        }
    }
}

/// The bytes of one element of an array.
pub open spec fn write_item(
    c: Context,
    def: MetaStructDefView,
    e: MetaEntryDef,
    elem: MetaEntryDef,
    item: ValueView,
    st: BuildState,
) -> (Option<Seq<u8>>, BuildState)
    decreases 2 * crate::value::height(item) + 1, 0nat, 0int, 0int,
{
    if is_scalar_run(elem) {
        (scalar_item(c, elem, item), st)
    } else if elem.ty == T_CHAR_PTR {
        let t = crate::pso_write::item_text(item);
        if t.len() == 0 {
            (Some(crate::bytes::zeros(16)), st)
        } else {
            let r = add_string(st, t);
            (Some(put_counted(crate::bytes::zeros(16), 0, r.1, vstd::utf8::encode_utf8(t).len() as int)), r.0)
        }
    } else if elem.ty == T_STRUCT_PTR {
        match item {
            ValueView::Struct(s) => {
                let ty = pointee_type(c, s, elem.ref_key);
                if c.schema.meta_structs.contains_key(ty) {
                    let r = write_struct(c, ty, Some(s.fields), st, full_fuel(c.schema));
                    let a = add_item(r.1, c.schema.meta_structs[ty].name, r.0);
                    (Some(crate::bytes::le64_bytes(a.1)), a.0)
                } else {
                    (Some(crate::bytes::zeros(8)), fault(st, def, e, BuildFault::NoSchema(ty)))
                }
            },
            _ => (Some(crate::bytes::zeros(8)), st),
        }
    } else {
        match item {
            ValueView::Struct(s) => {
                let r = write_struct(
                    c,
                    elem.ref_key,
                    Some(s.fields),
                    st,
                    full_fuel(c.schema),
                );
                (Some(r.0), r.1)
            },
            ValueView::Null => {
                let r = write_struct(c, elem.ref_key, None, st, full_fuel(c.schema));
                (Some(r.0), r.1)
            },
            _ => {
                let noted = BuildState {
                    warnings: crate::build_warning::warned(
                        st.warnings,
                        BuildWarningView::Element {
                            structure: def.name,
                            member: e.name,
                            value: item,
                        },
                    ),
                    ..st
                };
                let r = write_struct(c, elem.ref_key, None, noted, full_fuel(c.schema));
                (Some(r.0), r.1)
            },
        }
    }
}

/// What the writer starts from: an empty block that is to be the root's.
pub open spec fn fresh(root_name: u32) -> BuildState {
    BuildState {
        blocks: seq![(root_name, Seq::empty())],
        used_structs: Seq::empty(),
        used_enums: Seq::empty(),
        warnings: Seq::empty(),
        endless: false,
    }
}

/// All blocks of a file once its root is written, the root's first.
pub open spec fn written(c: Context, root: StructView) -> BuildState {
    let name = c.schema.meta_structs[root.type_hash].name;
    let r = write_struct(
        c,
        root.type_hash,
        Some(root.fields),
        fresh(name),
        full_fuel(c.schema),
    );
    BuildState { blocks: r.1.blocks.update(0, (name, padded16(r.0))), ..r.1 }
}

// ─── the image ───────────────────────────────────────────────────────────────

/// What a file is made of: the definitions it carries and its blocks.
pub struct Parts {
    pub structs: Seq<MetaStructDefView>,
    pub enums: Seq<MetaEnumDefView>,
    pub blocks: Seq<(u32, Seq<u8>)>,
}

/// The definitions of the first `k` of some structures.
pub open spec fn used_structs(c: Context, names: Seq<u32>, k: nat) -> Seq<MetaStructDefView>
    decreases k,
{
    if k == 0 {
        Seq::empty()
    } else {
        let before = used_structs(c, names, (k - 1) as nat);
        if c.schema.meta_structs.contains_key(names[k - 1]) {
            before.push(c.schema.meta_structs[names[k - 1]])
        } else {
            before
        }
    }
}

/// The definitions of the first `k` of some enums.
pub open spec fn used_enums(c: Context, names: Seq<u32>, k: nat) -> Seq<MetaEnumDefView>
    decreases k,
{
    if k == 0 {
        Seq::empty()
    } else {
        let before = used_enums(c, names, (k - 1) as nat);
        if c.schema.meta_enums.contains_key(names[k - 1]) {
            before.push(c.schema.meta_enums[names[k - 1]])
        } else {
            before
        }
    }
}

/// What the file that has reached this state is made of.
pub open spec fn parts_of(c: Context, st: BuildState) -> Parts {
    Parts {
        structs: used_structs(c, st.used_structs, st.used_structs.len()),
        enums: used_enums(c, st.used_enums, st.used_enums.len()),
        blocks: st.blocks,
    }
}

/// A size, no larger than a length can be.
pub open spec fn capped(n: int) -> usize {
    crate::resource::least(n, usize::MAX as int) as usize
}

/// How many pieces a file is laid out in.
pub open spec fn piece_count(p: Parts) -> nat {
    p.structs.len() + p.enums.len() + p.blocks.len() + 5
}

/// The number of the piece that holds the table of enums.
pub open spec fn enum_table(p: Parts) -> int {
    p.structs.len() + 3int
}

/// The number of the piece that holds the table of blocks.
pub open spec fn block_table(p: Parts) -> int {
    p.structs.len() + p.enums.len() + 4int
}

/// The size of a piece, in order: the header, the page map, the table of
/// structures, the members of each, the table of enums, the members of each,
/// the table of blocks, and each block.
pub open spec fn piece_size(p: Parts, pages: int, i: int) -> int {
    if i == 0 {
        0x70
    } else if i == 1 {
        16 + 8 * pages
    } else if i == 2 {
        32int * p.structs.len()
    } else if i < enum_table(p) {
        16int * p.structs[i - 3].entries.len()
    } else if i == enum_table(p) {
        24int * p.enums.len()
    } else if i < block_table(p) {
        8int * p.enums[i - enum_table(p) - 1].entries.len()
    } else if i == block_table(p) {
        16int * p.blocks.len()
    } else {
        p.blocks[i - block_table(p) - 1].1.len() as int
    }
}

/// The sizes of all pieces.
pub open spec fn piece_sizes(p: Parts, pages: int) -> Seq<usize> {
    Seq::new(piece_count(p), |i: int| capped(piece_size(p, pages, i)))
}

/// The layout of a file whose page map has room for `pages` pages.
pub open spec fn layout_of(p: Parts, pages: int) -> Option<(u32, Seq<int>, int)> {
    crate::paging::paged(piece_sizes(p, pages), MAX_PAGES as int)
}

/// The number of pages whose page map belongs to a layout of as many pages,
/// found by laying the pieces out again for the number that came out.
pub open spec fn settled(p: Parts, pages: int, rounds: nat) -> Option<int>
    decreases rounds,
{
    match layout_of(p, pages) {
        None => None,
        Some(l) => if crate::resource::page_count(l.0) == pages {
            Some(pages)
        } else if rounds == 0 {
            None
        } else {
            settled(p, crate::resource::page_count(l.0), (rounds - 1) as nat)
        },
    }
}

/// The address of a place in the system section.
pub open spec fn address(offset: int) -> u64 {
    (SYSTEM_BASE + offset) as u64
}

/// The address of a table, nothing where it is empty.
pub open spec fn address_unless(empty: bool, offset: int) -> u64 {
    if empty {
        0
    } else {
        address(offset)
    }
}

/// The header of a file.
pub open spec fn header(p: Parts, starts: Seq<int>) -> Seq<u8> {
    crate::bytes::le32_bytes(0x405b_c808) + crate::bytes::le32_bytes(1) + crate::bytes::le64_bytes(address(starts[1])) + crate::bytes::le32_bytes(
        0x5052_4430,
    ) + crate::bytes::le16_bytes(0x0079) + crate::bytes::zeros(6) + crate::bytes::le32_bytes(1) + crate::bytes::le64_bytes(
        address_unless(p.structs.len() == 0, starts[2]),
    ) + crate::bytes::le64_bytes(address_unless(p.enums.len() == 0, starts[enum_table(p)])) + crate::bytes::le64_bytes(
        address(starts[block_table(p)]),
    ) + crate::bytes::zeros(16) + crate::bytes::le16_bytes(p.structs.len() as u16) + crate::bytes::le16_bytes(p.enums.len() as u16)
        + crate::bytes::le16_bytes(p.blocks.len() as u16) + crate::bytes::zeros(0x22)
}

/// The page map, empty but for the number of pages.
pub open spec fn page_map(pages: int) -> Seq<u8> {
    crate::bytes::zeros(8) + seq![pages as u8] + crate::bytes::zeros(7 + 8 * pages)
}

/// The records of the first `k` structures.
pub open spec fn struct_records(p: Parts, starts: Seq<int>, k: nat) -> Seq<u8>
    decreases k,
{
    if k == 0 {
        Seq::empty()
    } else {
        let s = p.structs[k - 1];
        struct_records(p, starts, (k - 1) as nat) + (crate::bytes::le32_bytes(s.name) + crate::bytes::le32_bytes(s.key)
            + crate::bytes::le32_bytes(s.unk8) + crate::bytes::zeros(4) + crate::bytes::le64_bytes(
            address_unless(s.entries.len() == 0, starts[k + 2int]),
        ) + crate::bytes::le32_bytes(s.size) + crate::bytes::zeros(2) + crate::bytes::le16_bytes(s.entries.len() as u16))
    }
}

/// The records of the first `k` members of a structure.
pub open spec fn member_records(entries: Seq<MetaEntryDef>, k: nat) -> Seq<u8>
    decreases k,
{
    if k == 0 {
        Seq::empty()
    } else {
        let e = entries[k - 1];
        member_records(entries, (k - 1) as nat) + (crate::bytes::le32_bytes(e.name) + crate::bytes::le32_bytes(e.offset) + seq![
            e.ty,
            e.unk9,
        ] + crate::bytes::le16_bytes(e.ref_index as u16) + crate::bytes::le32_bytes(e.ref_key))
    }
}

/// The records of the first `k` enums.
pub open spec fn enum_records(p: Parts, starts: Seq<int>, k: nat) -> Seq<u8>
    decreases k,
{
    if k == 0 {
        Seq::empty()
    } else {
        let d = p.enums[k - 1];
        enum_records(p, starts, (k - 1) as nat) + (crate::bytes::le32_bytes(d.name) + crate::bytes::le32_bytes(d.key)
            + crate::bytes::le64_bytes(address_unless(d.entries.len() == 0, starts[enum_table(p) + k]))
            + crate::bytes::le32_bytes(d.entries.len() as u32) + crate::bytes::zeros(4))
    }
}

/// The records of the first `k` members of an enum.
pub open spec fn enumerator_records(entries: Seq<(u32, i32)>, k: nat) -> Seq<u8>
    decreases k,
{
    if k == 0 {
        Seq::empty()
    } else {
        enumerator_records(entries, (k - 1) as nat) + (crate::bytes::le32_bytes(entries[k - 1].0) + crate::bytes::le32_bytes(
            entries[k - 1].1 as u32,
        ))
    }
}

/// The records of the first `k` blocks.
pub open spec fn block_records(p: Parts, starts: Seq<int>, k: nat) -> Seq<u8>
    decreases k,
{
    if k == 0 {
        Seq::empty()
    } else {
        let b = p.blocks[k - 1];
        block_records(p, starts, (k - 1) as nat) + (crate::bytes::le32_bytes(b.0) + crate::bytes::le32_bytes(b.1.len() as u32)
            + crate::bytes::le64_bytes(address(starts[block_table(p) + k])))
    }
}

/// The bytes of a piece.
pub open spec fn piece(p: Parts, pages: int, starts: Seq<int>, i: int) -> Seq<u8> {
    if i == 0 {
        header(p, starts)
    } else if i == 1 {
        page_map(pages)
    } else if i == 2 {
        struct_records(p, starts, p.structs.len())
    } else if i < enum_table(p) {
        member_records(p.structs[i - 3].entries, p.structs[i - 3].entries.len())
    } else if i == enum_table(p) {
        enum_records(p, starts, p.enums.len())
    } else if i < block_table(p) {
        enumerator_records(
            p.enums[i - enum_table(p) - 1].entries,
            p.enums[i - enum_table(p) - 1].entries.len(),
        )
    } else if i == block_table(p) {
        block_records(p, starts, p.blocks.len())
    } else {
        p.blocks[i - block_table(p) - 1].1
    }
}

/// The system section with its first `k` pieces in their places.
pub open spec fn image(p: Parts, pages: int, k: nat) -> Seq<u8>
    decreases k,
{
    let l = layout_of(p, pages)->0;
    if k == 0 {
        crate::bytes::zeros(l.2)
    } else {
        crate::bytes::splice(image(p, pages, (k - 1) as nat), l.1[k - 1], piece(p, pages, l.1, k - 1))
    }
}

/// The system section of a file.
pub open spec fn system_of(p: Parts, pages: int) -> Seq<u8> {
    image(p, pages, piece_count(p))
}

proof fn lemma_struct_lengths(p: Parts, starts: Seq<int>, k: nat)
    ensures
        struct_records(p, starts, k).len() == 32 * k,
    decreases k,
{
    if k > 0 {
        lemma_struct_lengths(p, starts, (k - 1) as nat);
    }
}

proof fn lemma_enum_lengths(p: Parts, starts: Seq<int>, k: nat)
    ensures
        enum_records(p, starts, k).len() == 24 * k,
    decreases k,
{
    if k > 0 {
        lemma_enum_lengths(p, starts, (k - 1) as nat);
    }
}

proof fn lemma_block_lengths(p: Parts, starts: Seq<int>, k: nat)
    ensures
        block_records(p, starts, k).len() == 16 * k,
    decreases k,
{
    if k > 0 {
        lemma_block_lengths(p, starts, (k - 1) as nat);
    }
}

proof fn lemma_record_lengths(p: Parts, starts: Seq<int>, k: nat)
    ensures
        struct_records(p, starts, k).len() == 32 * k,
        enum_records(p, starts, k).len() == 24 * k,
        block_records(p, starts, k).len() == 16 * k,
{
    lemma_struct_lengths(p, starts, k);
    lemma_enum_lengths(p, starts, k);
    lemma_block_lengths(p, starts, k);
}

proof fn lemma_member_lengths(entries: Seq<MetaEntryDef>, k: nat)
    ensures
        member_records(entries, k).len() == 16 * k,
    decreases k,
{
    if k > 0 {
        lemma_member_lengths(entries, (k - 1) as nat);
    }
}

proof fn lemma_enumerator_lengths(entries: Seq<(u32, i32)>, k: nat)
    ensures
        enumerator_records(entries, k).len() == 8 * k,
    decreases k,
{
    if k > 0 {
        lemma_enumerator_lengths(entries, (k - 1) as nat);
    }
}

proof fn lemma_header_length(p: Parts, starts: Seq<int>)
    ensures
        header(p, starts).len() == 0x70,
{
    let front = crate::bytes::le32_bytes(0x405b_c808) + crate::bytes::le32_bytes(1) + crate::bytes::le64_bytes(address(starts[1]))
        + crate::bytes::le32_bytes(0x5052_4430) + crate::bytes::le16_bytes(0x0079) + crate::bytes::zeros(6) + crate::bytes::le32_bytes(1);
    assert(front.len() == 0x20);
}

/// A piece is as long as its size says.
pub proof fn lemma_piece_length(p: Parts, pages: int, starts: Seq<int>, i: int)
    requires
        0 <= i < piece_count(p),
        pages >= 0,
    ensures
        piece(p, pages, starts, i).len() == piece_size(p, pages, i),
{
    if i == 0 {
        lemma_header_length(p, starts);
    }
    if i == 2 {
        lemma_record_lengths(p, starts, p.structs.len());
    }
    if i == enum_table(p) {
        lemma_record_lengths(p, starts, p.enums.len());
    }
    if i == block_table(p) {
        lemma_record_lengths(p, starts, p.blocks.len());
    }
    if 3 <= i < enum_table(p) {
        lemma_member_lengths(p.structs[i - 3].entries, p.structs[i - 3].entries.len());
    }
    if enum_table(p) < i < block_table(p) {
        let d = p.enums[i - enum_table(p) - 1];
        lemma_enumerator_lengths(d.entries, d.entries.len());
    }
}

/// Every piece lies inside the section, apart from the others.
pub proof fn lemma_piece_places(p: Parts, pages: int, i: int, j: int)
    requires
        layout_of(p, pages) is Some,
        pages >= 0,
        0 <= i < j < piece_count(p) || 0 <= i == j < piece_count(p),
    ensures
        ({
            let l = layout_of(p, pages)->0;
            &&& l.1.len() == piece_count(p)
            &&& 0 <= l.1[i]
            &&& l.1[j] + piece(p, pages, l.1, j).len() <= l.2
            &&& i < j ==> l.1[i] + piece(p, pages, l.1, i).len() <= l.1[j]
            &&& l.2 <= 0x4000_0000 * 127
        }),
{
    let sizes = piece_sizes(p, pages);
    let l = layout_of(p, pages)->0;
    crate::paging::law_blocks_lie_apart_in_pages(sizes, MAX_PAGES as int, i, j);
    crate::paging::lemma_layout_bounds(sizes, MAX_PAGES as int);
    lemma_piece_length(p, pages, l.1, i);
    lemma_piece_length(p, pages, l.1, j);
    assert(sizes[i] == capped(piece_size(p, pages, i)));
    assert(sizes[j] == capped(piece_size(p, pages, j)));
    assert(sizes[i] <= 0x4000_0000 && sizes[j] <= 0x4000_0000);
}

// ─── the writer ──────────────────────────────────────────────────────────────

struct Block {
    name: u32,
    data: Vec<u8>,
}

struct Builder<'s> {
    schema: &'s Schema,
    floats: &'s FloatTexts,
    /// How many structures the schema has.
    full: usize,
    /// The blocks, the root's first.
    blocks: Vec<Block>,
    used_structs: Vec<u32>,
    used_enums: Vec<u32>,
    warnings: Vec<BuildWarning>,
    /// Whether a structure held itself.
    endless: bool,
}

spec fn blocks_of(blocks: Seq<Block>) -> Seq<(u32, Seq<u8>)> {
    Seq::new(blocks.len(), |i: int| (blocks[i].name, blocks[i].data@))
}

spec fn fields_of(value: Option<&MetaStruct>) -> Option<Seq<(u32, ValueView)>> {
    match value {
        Some(s) => Some(s@.fields),
        None => None,
    }
}

spec fn value_of(value: Option<&MetaValue>) -> Option<ValueView> {
    match value {
        Some(v) => Some(v@),
        None => None,
    }
}

fn meta_pointer(block: usize, offset: usize) -> (r: u64)
    ensures
        r == pointer(block as int, offset as int),
{
    ((block as u128 + 1) % 0x1000 + 0x1000 * (offset as u128 % 0x10_0000)) as u64
}

fn pad16(out: &mut Vec<u8>)
    ensures
        final(out)@ == padded16(old(out)@),
{
    let ghost start = out@;
    let n: usize = (16 - out.len() % 16) % 16;
    let mut k: usize = 0;
    assert(out@ =~= start + crate::bytes::zeros(0));
    while k < n
        invariant
            k <= n,
            out@ == start + crate::bytes::zeros(k as int),
        decreases n - k,
    {
        out.push(0);
        k += 1;
        assert(out@ =~= start + crate::bytes::zeros(k as int));
    }
}

fn type_kind(ty: u8) -> (r: ValueKind)
    ensures
        r == kind_of(ty),
{
    if ty == T_BOOL {
        ValueKind::Boolean
    } else if ty == T_I8 || ty == T_U8 || ty == T_I16 || ty == T_U16 || ty == T_I32 || ty == T_U32 {
        ValueKind::Integer
    } else if ty == T_F32 {
        ValueKind::Float
    } else if ty == T_VEC3 {
        ValueKind::Vector3
    } else if ty == T_VEC4 {
        ValueKind::Vector4
    } else if ty == T_HASH {
        ValueKind::Hash
    } else if ty == T_BYTE_ENUM || ty == T_INT_ENUM {
        ValueKind::EnumMember
    } else if ty == T_INT_FLAGS1 || ty == T_INT_FLAGS2 || ty == T_SHORT_FLAGS {
        ValueKind::FlagSet
    } else if ty == T_CHAR_ARRAY || ty == T_CHAR_PTR {
        ValueKind::Text
    } else if ty == T_BYTE_ARRAY || ty == T_DATA_BLOCK_PTR {
        ValueKind::Bytes
    } else if ty == T_STRUCT || ty == T_STRUCT_PTR {
        ValueKind::Structure
    } else if ty == T_ARRAY {
        ValueKind::Array
    } else {
        ValueKind::Value
    }
}

fn word_bytes(n: u32) -> (out: Vec<u8>)
    ensures
        out@ == crate::bytes::le32_bytes(n),
{
    let mut out: Vec<u8> = Vec::new();
    push_u32_le(&mut out, n);
    assert(out@ =~= crate::bytes::le32_bytes(n));
    out
}

fn number_bytes(n: i64, size: u32) -> (out: Vec<u8>)
    ensures
        out@ == integer_bytes(n, size as int),
{
    let mut out: Vec<u8> = Vec::new();
    if size == 1 {
        out.push(n as u8);
        assert(out@ =~= seq![n as u8]);
    } else if size == 2 {
        push_u16_le(&mut out, n as u16);
        assert(out@ =~= crate::bytes::le16_bytes(n as u16));
    } else {
        push_u32_le(&mut out, n as u32);
        assert(out@ =~= crate::bytes::le32_bytes(n as u32));
    }
    out
}

fn push_three(out: &mut Vec<u8>, a: Vec4)
    ensures
        final(out)@ == old(out)@ + three(a),
{
    let ghost start = out@;
    push_u32_le(out, a.x);
    push_u32_le(out, a.y);
    push_u32_le(out, a.z);
    assert(out@ =~= start + three(a));
}

fn vector_bytes(a: Vec4, n: usize) -> (out: Vec<u8>)
    requires
        n == 3 || n == 4,
    ensures
        out@ == (if n == 3 {
            three(a)
        } else {
            four(a)
        }),
{
    let mut out: Vec<u8> = Vec::new();
    push_three(&mut out, a);
    if n == 4 {
        push_u32_le(&mut out, a.w);
        assert(out@ =~= four(a));
    } else {
        assert(out@ =~= three(a));
    }
    out
}

/// How many bytes a plain member needs.
fn need_of(e: &MetaEntryDef) -> (r: Option<u32>)
    ensures
        plain_need(*e) == (match r {
            Some(n) => Some(n as int),
            None => None,
        }),
{
    if e.ty == T_BOOL || e.ty == T_I8 || e.ty == T_U8 || e.ty == T_BYTE_ENUM {
        Some(1)
    } else if e.ty == T_I16 || e.ty == T_U16 || e.ty == T_SHORT_FLAGS {
        Some(2)
    } else if e.ty == T_I32 || e.ty == T_U32 || e.ty == T_F32 || e.ty == T_HASH || e.ty
        == T_INT_ENUM || e.ty == T_INT_FLAGS1 || e.ty == T_INT_FLAGS2 {
        Some(4)
    } else if e.ty == T_VEC3 {
        Some(12)
    } else if e.ty == T_VEC4 {
        Some(16)
    } else if e.ty == T_CHAR_ARRAY {
        Some(e.ref_key)
    } else {
        None
    }
}

fn stride_for(elem: &Option<MetaEntryDef>) -> (n: u32)
    ensures
        n == stride_of(*elem),
        n == 1 || n == 2 || n == 4,
{
    let ty: u8 = match elem {
        Some(x) => x.ty,
        None => T_U8,
    };
    if ty == T_I16 || ty == T_U16 || ty == T_SHORT_FLAGS {
        2
    } else if ty == T_I32 || ty == T_U32 || ty == T_F32 || ty == T_HASH || ty == T_INT_ENUM || ty
        == T_INT_FLAGS1 || ty == T_INT_FLAGS2 {
        4
    } else {
        1
    }
}

fn put_counted_pointer(buf: &mut Vec<u8>, at: usize, ptr: u64, count: usize)
    requires
        at + 16 <= old(buf)@.len(),
    ensures
        final(buf)@ == put_counted(old(buf)@, at as int, ptr, count as int),
{
    assert(at + 16 <= buf.len());
    put_u64_le(buf, at, ptr);
    put_u16_le(buf, at + 8, count as u16);
    put_u16_le(buf, at + 10, count as u16);
}

impl<'s> Builder<'s> {
    spec fn ctx(self) -> Context {
        Context { schema: self.schema@, floats: self.floats@ }
    }

    spec fn st(self) -> BuildState {
        BuildState {
            blocks: blocks_of(self.blocks@),
            used_structs: self.used_structs@,
            used_enums: self.used_enums@,
            warnings: crate::build_warning::warnings_view(self.warnings@),
            endless: self.endless,
        }
    }

    spec fn ok(self) -> bool {
        &&& self.full == full_fuel(self.schema@)
        &&& self.blocks@.len() > 0
    }

    /// What the writer works from stays what it was, and blocks stay.
    spec fn kept(self, before: Self) -> bool {
        &&& self.schema == before.schema
        &&& self.floats == before.floats
        &&& self.full == before.full
        &&& self.blocks@.len() >= before.blocks@.len()
    }

    fn use_struct(&mut self, name: u32)
        ensures
            final(self).kept(*old(self)),
            final(self).st() == crate::pso_write::use_struct(old(self).st(), name),
    {
        add_once(&mut self.used_structs, name);
    }

    fn use_enum(&mut self, name: u32)
        ensures
            final(self).kept(*old(self)),
            final(self).st() == use_enum(old(self).ctx(), old(self).st(), name),
    {
        if self.schema.meta_enums.contains_key(&name) {
            add_once(&mut self.used_enums, name);
        }
    }

    fn fault(&mut self, def: &MetaStructDef, e: &MetaEntryDef, f: BuildFault)
        ensures
            final(self).kept(*old(self)),
            final(self).st() == fault(old(self).st(), def@, *e, f),
    {
        warn_once(
            &mut self.warnings,
            BuildWarning::Fault { structure: def.name, member: e.name, fault: f },
        );
    }

    fn mismatch(&mut self, def: &MetaStructDef, e: &MetaEntryDef, v: Option<&MetaValue>)
        ensures
            final(self).kept(*old(self)),
            final(self).st() == mismatch(old(self).st(), def@, *e, value_of(v)),
    {
        match v {
            Some(value) => {
                warn_once(
                    &mut self.warnings,
                    BuildWarning::Mismatch {
                        structure: def.name,
                        member: e.name,
                        wanted: type_kind(e.ty),
                        value: value.copy(),
                    },
                );
            },
            None => {},
        }
    }

    /// The block that takes the next item of that name.
    fn ensure_block(&self, name: u32) -> (i: usize)
        ensures
            i == block_for(blocks_of(self.blocks@), name, 0),
            i <= self.blocks@.len(),
            i < self.blocks@.len() ==> self.blocks@[i as int].name == name,
    {
        let ghost blocks = blocks_of(self.blocks@);
        let mut i: usize = 0;
        while i < self.blocks.len()
            invariant
                i <= self.blocks@.len(),
                blocks == blocks_of(self.blocks@),
                block_for(blocks, name, 0) == block_for(blocks, name, i as int),
            decreases self.blocks@.len() - i,
        {
            assert(blocks[i as int] == (self.blocks@[i as int].name, self.blocks@[i as int].data@));
            if i > 0 && self.blocks[i].name == name && self.blocks[i].data.len() < BLOCK_SPLIT {
                return i;
            }
            i += 1;
        }
        i
    }

    fn append(&mut self, name: u32, bytes: &[u8], pad: bool) -> (r: u64)
        ensures
            final(self).kept(*old(self)),
            (final(self).st(), r) == append(old(self).st(), name, bytes@, pad),
    {
        let ghost blocks = blocks_of(self.blocks@);
        let i = self.ensure_block(name);
        if i < self.blocks.len() {
            let offset = self.blocks[i].data.len();
            push_bytes(&mut self.blocks[i].data, bytes);
            if pad {
                pad16(&mut self.blocks[i].data);
            }
            let ghost data = self.blocks@[i as int].data@;
            assert(blocks[i as int].0 == name);
            assert(blocks_of(self.blocks@) =~= blocks.update(i as int, (name, data)));
            meta_pointer(i, offset)
        } else {
            let mut data: Vec<u8> = Vec::new();
            push_bytes(&mut data, bytes);
            if pad {
                pad16(&mut data);
            }
            let ghost whole = data@;
            self.blocks.push(Block { name, data });
            assert(blocks_of(self.blocks@) =~= blocks.push((name, whole)));
            meta_pointer(i, 0)
        }
    }

    fn add_item(&mut self, name: u32, bytes: &[u8]) -> (r: u64)
        ensures
            final(self).kept(*old(self)),
            (final(self).st(), r) == add_item(old(self).st(), name, bytes@),
    {
        self.append(name, bytes, true)
    }

    fn add_string(&mut self, s: &String) -> (r: u64)
        ensures
            final(self).kept(*old(self)),
            (final(self).st(), r) == add_string(old(self).st(), s@),
    {
        let mut bytes = crate::bytes::to_vec(s.as_str().as_bytes());
        bytes.push(0);
        assert(bytes@ =~= vstd::utf8::encode_utf8(s@).push(0));
        self.append(B_STRING, bytes.as_slice(), false)
    }

    fn add_data_block(&mut self, data: Vec<u8>) -> (r: u64)
        ensures
            final(self).kept(*old(self)),
            (final(self).st(), r) == add_data_block(old(self).st(), data@),
    {
        let ghost blocks = blocks_of(self.blocks@);
        let ghost whole = data@;
        let i = self.blocks.len();
        self.blocks.push(Block { name: B_BYTE, data });
        assert(blocks_of(self.blocks@) =~= blocks.push((B_BYTE, whole)));
        meta_pointer(i, 0)
    }

    fn members(&self, name: u32) -> (r: Vec<(u32, i32)>)
        ensures
            r@ == enum_members(self.ctx(), name),
    {
        let mut out: Vec<(u32, i32)> = Vec::new();
        match self.schema.meta_enums.get(&name) {
            Some(d) => {
                let mut i: usize = 0;
                while i < d.entries.len()
                    invariant
                        i <= d.entries@.len(),
                        out@ == d.entries@.take(i as int),
                    decreases d.entries@.len() - i,
                {
                    out.push(d.entries[i]);
                    i += 1;
                    assert(out@ =~= d.entries@.take(i as int));
                }
                assert(out@ =~= d.entries@);
            },
            None => {},
        }
        out
    }

    #[verifier::rlimit(60)]
    fn plain_bytes(&self, e: &MetaEntryDef, v: &MetaValue) -> (r: Option<Vec<u8>>)
        requires
            plain_need(*e) is Some,
        ensures
            crate::coerce::opt_bytes(r) == plain_bytes(self.ctx(), *e, v@),
            r is Some ==> r->0@.len() <= plain_need(*e)->0,
    {
        if e.ty == T_BOOL {
            match int_of(v, self.floats) {
                Some(n) => {
                    let mut out: Vec<u8> = Vec::new();
                    out.push(
                        if n != 0 {
                            1
                        } else {
                            0
                        },
                    );
                    Some(out)
                },
                None => None,
            }
        } else if e.ty == T_F32 {
            match float_of(v, self.floats) {
                Some(b) => Some(word_bytes(b)),
                None => None,
            }
        } else if e.ty == T_VEC3 || e.ty == T_VEC4 {
            let n: usize = if e.ty == T_VEC3 {
                3
            } else {
                4
            };
            match vec_of(v, n, self.floats) {
                Some(a) => Some(vector_bytes(a, n)),
                None => None,
            }
        } else if e.ty == T_HASH {
            match hash_of(v) {
                Some(h) => Some(word_bytes(h)),
                None => None,
            }
        } else if e.ty == T_BYTE_ENUM || e.ty == T_INT_ENUM {
            let members = self.members(e.ref_key);
            match enum_value(v, members.as_slice(), self.floats) {
                Some(x) => {
                    if e.ty == T_BYTE_ENUM {
                        let mut out: Vec<u8> = Vec::new();
                        out.push(x as u8);
                        assert(out@ =~= seq![x as u8]);
                        Some(out)
                    } else {
                        Some(word_bytes(x as u32))
                    }
                },
                None => None,
            }
        } else if e.ty == T_INT_FLAGS1 || e.ty == T_INT_FLAGS2 || e.ty == T_SHORT_FLAGS {
            let members = self.members(e.ref_key);
            match flags_bits(v, members.as_slice(), self.floats) {
                Some(b) => {
                    if e.ty == T_SHORT_FLAGS {
                        let mut out: Vec<u8> = Vec::new();
                        push_u16_le(&mut out, b as u16);
                        assert(out@ =~= crate::bytes::le16_bytes(b as u16));
                        Some(out)
                    } else {
                        Some(word_bytes(b))
                    }
                },
                None => None,
            }
        } else if e.ty == T_CHAR_ARRAY {
            match str_of(v) {
                Some(s) => Some(buffer_bytes(&s, e.ref_key as usize)),
                None => None,
            }
        } else {
            let need: u32 = match need_of(e) {
                Some(n) => n,
                None => 0,
            };
            match int_of(v, self.floats) {
                Some(n) => Some(number_bytes(n, need)),
                None => None,
            }
        }
    }

    fn scalar_item(&self, elem: &MetaEntryDef, v: &MetaValue) -> (r: Option<Vec<u8>>)
        ensures
            crate::coerce::opt_bytes(r) == scalar_item(self.ctx(), *elem, v@),
    {
        if elem.ty == T_STRUCT {
            match vec_of(v, 3, self.floats) {
                Some(a) => {
                    let mut out = vector_bytes(a, 3);
                    pad_to(&mut out, 16);
                    Some(out)
                },
                None => None,
            }
        } else if elem.ty == T_VEC3 || elem.ty == T_VEC4 {
            let n: usize = if elem.ty == T_VEC3 {
                3
            } else {
                4
            };
            match vec_of(v, n, self.floats) {
                Some(a) => Some(vector_bytes(a, 4)),
                None => None,
            }
        } else if elem.ty == T_HASH {
            match hash_of(v) {
                Some(h) => Some(word_bytes(h)),
                None => None,
            }
        } else if elem.ty == T_F32 {
            match float_of(v, self.floats) {
                Some(b) => Some(word_bytes(b)),
                None => None,
            }
        } else {
            let size: u32 = if elem.ty == T_U16 || elem.ty == T_I16 || elem.ty == T_SHORT_FLAGS {
                2
            } else if elem.ty == T_U8 || elem.ty == T_I8 || elem.ty == T_BOOL || elem.ty
                == T_BYTE_ENUM {
                1
            } else {
                4
            };
            match int_of(v, self.floats) {
                Some(n) => Some(number_bytes(n, size)),
                None => None,
            }
        }
    }

    fn write_struct(&mut self, key: u32, value: Option<&MetaStruct>, fuel: usize) -> (out: Vec<u8>)
        requires
            old(self).ok(),
            old(self).schema@.meta_structs.contains_key(key),
        ensures
            final(self).kept(*old(self)),
            (out@, final(self).st()) == write_struct(
                old(self).ctx(),
                key,
                fields_of(value),
                old(self).st(),
                fuel as nat,
            ),
            out@.len() == old(self).schema@.meta_structs[key].size,
        decreases crate::pso_write::struct_measure(fields_of(value)), fuel, 5int, 0int,
    {
        let ghost before = *self;
        let ghost c = self.ctx();
        let ghost fields = fields_of(value);
        let schema = self.schema;
        let def = match schema.meta_structs.get(&key) {
            Some(d) => d,
            None => {
                assert(schema@.meta_structs.contains_key(key));
                return Vec::new();
            },
        };
        assert(c.schema.meta_structs[key] == def@);
        self.use_struct(def.name);
        let ghost st0 = self.st();
        let mut buf = zero_bytes(def.size as usize);
        let ghost buf0 = buf@;
        let mut last: Option<MetaEntryDef> = None;
        let mut k: usize = 0;
        while k < def.entries.len()
            invariant
                k <= def.entries@.len(),
                self.ok(),
                self.kept(before),
                before == *old(self),
                c == self.ctx(),
                fields == fields_of(value),
                c.schema.meta_structs.contains_key(key),
                c.schema.meta_structs[key] == def@,
                buf@.len() == def.size,
                last == last_info(def.entries@, k as nat),
                (buf@, self.st()) == write_members(
                    c,
                    def@,
                    fields,
                    buf0,
                    st0,
                    fuel as nat,
                    k as nat,
                ),
            decreases def.entries@.len() - k,
        {
            let e = def.entries[k];
            if e.name != ARRAYINFO {
                let v: Option<&MetaValue> = match value {
                    Some(s) => s.get(e.name),
                    None => None,
                };
                let elem: Option<MetaEntryDef> = if e.ref_index >= 0 && (e.ref_index as usize)
                    < def.entries.len() && def.entries[e.ref_index as usize].name == ARRAYINFO {
                    Some(def.entries[e.ref_index as usize])
                } else {
                    last
                };
                proof {
                    assert(elem == array_info(def.entries@, k as int));
                    assert(value_of(v) == crate::pso_write::member_value(fields, e.name));
                    crate::pso_write::lemma_member_measure(fields, e.name);
                }
                self.write_member(def, &e, &elem, v, &mut buf, fuel);
            } else {
                last = Some(e);
            }
            k += 1;
        }
        buf
    }

    #[verifier::rlimit(60)]
    fn write_member(
        &mut self,
        def: &MetaStructDef,
        e: &MetaEntryDef,
        elem: &Option<MetaEntryDef>,
        value: Option<&MetaValue>,
        buf: &mut Vec<u8>,
        fuel: usize,
    )
        requires
            old(self).ok(),
            old(buf)@.len() == def.size,
            e.name != ARRAYINFO,
        ensures
            final(self).kept(*old(self)),
            final(buf)@.len() == old(buf)@.len(),
            (final(buf)@, final(self).st()) == write_member(
                old(self).ctx(),
                def@,
                *e,
                *elem,
                value_of(value),
                old(buf)@,
                old(self).st(),
                fuel as nat,
            ),
        decreases crate::pso_write::member_measure(value_of(value)), fuel, 3int, 0int,
    {
        let null = MetaValue::Null;
        let v: &MetaValue = match value {
            Some(x) => x,
            None => &null,
        };
        assert(v@ == crate::pso_write::value_or_null(value_of(value)));
        if let Some(need) = need_of(e) {
            if e.offset as u64 + need as u64 > buf.len() as u64 {
                self.unfit(def, e, buf.len());
                return;
            }
            match self.plain_bytes(e, v) {
                None => {
                    self.mismatch(def, e, value);
                },
                Some(b) => {
                    put_bytes(buf, e.offset as usize, b.as_slice());
                    if e.ty == T_INT_ENUM || e.ty == T_INT_FLAGS1 || e.ty == T_INT_FLAGS2 || e.ty
                        == T_SHORT_FLAGS {
                        self.use_enum(e.ref_key);
                    }
                },
            }
        } else if e.ty == T_BYTE_ARRAY {
            self.write_fixed(def, e, elem, value, v, buf, Ghost(fuel as nat));
        } else if e.ty == T_CHAR_PTR || e.ty == T_DATA_BLOCK_PTR {
            self.write_stored(def, e, elem, value, v, buf, Ghost(fuel as nat));
        } else if e.ty == T_STRUCT_PTR {
            self.write_pointed(def, e, elem, value, buf, fuel);
        } else if e.ty == T_STRUCT {
            self.write_inner(def, e, elem, value, buf, fuel);
        } else if e.ty == T_ARRAY {
            self.write_list(def, e, elem, value, v, buf, fuel);
        } else {
            self.fault(def, e, BuildFault::MemberType(e.ty));
        }
    }

    fn unfit(&mut self, def: &MetaStructDef, e: &MetaEntryDef, size: usize)
        ensures
            final(self).kept(*old(self)),
            final(self).st() == fault(
                old(self).st(),
                def@,
                *e,
                BuildFault::DoesNotFit { at: e.offset as u64, size: size as u64 },
            ),
    {
        self.fault(
            def,
            e,
            BuildFault::DoesNotFit { at: e.offset as u64, size: size as u64 },
        );
    }

    /// A member that is an array of a fixed number of integers or bytes.
    #[verifier::rlimit(60)]
    fn write_fixed(
        &mut self,
        def: &MetaStructDef,
        e: &MetaEntryDef,
        elem: &Option<MetaEntryDef>,
        value: Option<&MetaValue>,
        v: &MetaValue,
        buf: &mut Vec<u8>,
        Ghost(fuel): Ghost<nat>,
    )
        requires
            e.ty == T_BYTE_ARRAY,
            v@ == crate::pso_write::value_or_null(value_of(value)),
        ensures
            final(self).kept(*old(self)),
            final(buf)@.len() == old(buf)@.len(),
            (final(buf)@, final(self).st()) == write_member(
                old(self).ctx(),
                def@,
                *e,
                *elem,
                value_of(value),
                old(buf)@,
                old(self).st(),
                fuel,
            ),
    {
        let ghost c = self.ctx();
        let stride = stride_for(elem);
        assert(e.ref_key * stride <= 0xFFFF_FFFF * 4) by (nonlinear_arith)
            requires
                stride <= 4,
                e.ref_key <= 0xFFFF_FFFF,
        ;
        let room: u64 = e.ref_key as u64 * stride as u64;
        if e.offset as u64 + room > buf.len() as u64 {
            self.unfit(def, e, buf.len());
            return;
        }
        let off = e.offset as usize;
        if stride > 1 {
            if let MetaValue::Array(a) = v {
                assert(v@ == ValueView::Array(a@));
                let count: usize = if a.items.len() < e.ref_key as usize {
                    a.items.len()
                } else {
                    e.ref_key as usize
                };
                assert(a@.items == crate::value::values_view(a.items@));
                assert(count == crate::resource::least(a@.items.len() as int, e.ref_key as int));
                assert(count * stride <= room) by (nonlinear_arith)
                    requires
                        count <= e.ref_key,
                        room == e.ref_key * stride,
                ;
                if !self.put_integers(buf, off, stride, &a.items, count) {
                    self.mismatch(def, e, value);
                }
                return;
            }
        }
        match bytes_of(v, self.floats) {
            None => {
                self.mismatch(def, e, value);
            },
            Some(b) => {
                let n: usize = if (b.len() as u64) < room {
                    b.len()
                } else {
                    room as usize
                };
                let cut = slice_subrange(b.as_slice(), 0, n);
                assert(cut@ =~= b@.take(crate::resource::least(b@.len() as int, room as int)));
                put_bytes(buf, off, cut);
            },
        }
    }

    /// Writes integers until one turns out to be none.
    fn put_integers(
        &self,
        buf: &mut Vec<u8>,
        off: usize,
        stride: u32,
        items: &Vec<MetaValue>,
        count: usize,
    ) -> (ok: bool)
        requires
            stride == 2 || stride == 4,
            count <= items@.len(),
            off + count * stride <= old(buf)@.len(),
        ensures
            final(buf)@.len() == old(buf)@.len(),
            (final(buf)@, ok) == integers_into(
                self.ctx(),
                old(buf)@,
                off as int,
                stride as int,
                crate::value::values_view(items@),
                count as nat,
            ),
    {
        let ghost buf0 = buf@;
        let ghost c = self.ctx();
        let ghost all = crate::value::values_view(items@);
        let mut k: usize = 0;
        while k < count
            invariant
                k <= count <= items@.len(),
                stride == 2 || stride == 4,
                c == self.ctx(),
                all == crate::value::values_view(items@),
                buf0 == old(buf)@,
                buf@.len() == buf0.len(),
                off + count * stride <= buf@.len(),
                (buf@, true) == integers_into(
                    c,
                    buf0,
                    off as int,
                    stride as int,
                    all,
                    k as nat,
                ),
            decreases count - k,
        {
            assert(all[k as int] == items@[k as int]@);
            match int_of(&items[k], self.floats) {
                Some(n) => {
                    let b = number_bytes(n, stride);
                    assert(k * stride + stride <= count * stride) by (nonlinear_arith)
                        requires
                            k < count,
                    ;
                    assert(off + count * stride <= buf.len());
                    put_bytes(buf, off + k * stride as usize, b.as_slice());
                },
                None => {
                    proof {
                        lemma_integers_stop(
                            c,
                            buf0,
                            off as int,
                            stride as int,
                            all,
                            (k + 1) as nat,
                            count as nat,
                        );
                    }
                    return false;
                },
            }
            k += 1;
        }
        true
    }

    /// A member that points to a string or to raw bytes.
    fn write_stored(
        &mut self,
        def: &MetaStructDef,
        e: &MetaEntryDef,
        elem: &Option<MetaEntryDef>,
        value: Option<&MetaValue>,
        v: &MetaValue,
        buf: &mut Vec<u8>,
        Ghost(fuel): Ghost<nat>,
    )
        requires
            e.ty == T_CHAR_PTR || e.ty == T_DATA_BLOCK_PTR,
            v@ == crate::pso_write::value_or_null(value_of(value)),
        ensures
            final(self).kept(*old(self)),
            final(buf)@.len() == old(buf)@.len(),
            (final(buf)@, final(self).st()) == write_member(
                old(self).ctx(),
                def@,
                *e,
                *elem,
                value_of(value),
                old(buf)@,
                old(self).st(),
                fuel,
            ),
    {
        let need: u64 = if e.ty == T_CHAR_PTR {
            16
        } else {
            8
        };
        if e.offset as u64 + need > buf.len() as u64 {
            self.unfit(def, e, buf.len());
            return;
        }
        let off = e.offset as usize;
        if e.ty == T_CHAR_PTR {
            match str_of(v) {
                None => {
                    self.mismatch(def, e, value);
                },
                Some(s) => {
                    if !s.as_str().is_empty() {
                        let ptr = self.add_string(&s);
                        put_counted_pointer(buf, off, ptr, s.as_str().as_bytes().len());
                    }
                },
            }
        } else {
            match bytes_of(v, self.floats) {
                None => {
                    self.mismatch(def, e, value);
                },
                Some(b) => {
                    if b.len() != 0 {
                        let ptr = self.add_data_block(b);
                        put_u64_le(buf, off, ptr);
                    }
                },
            }
        }
    }

    /// A member that points to a structure.
    #[verifier::rlimit(60)]
    fn write_pointed(
        &mut self,
        def: &MetaStructDef,
        e: &MetaEntryDef,
        elem: &Option<MetaEntryDef>,
        value: Option<&MetaValue>,
        buf: &mut Vec<u8>,
        fuel: usize,
    )
        requires
            old(self).ok(),
            e.ty == T_STRUCT_PTR,
        ensures
            final(self).kept(*old(self)),
            final(buf)@.len() == old(buf)@.len(),
            (final(buf)@, final(self).st()) == write_member(
                old(self).ctx(),
                def@,
                *e,
                *elem,
                value_of(value),
                old(buf)@,
                old(self).st(),
                fuel as nat,
            ),
        decreases crate::pso_write::member_measure(value_of(value)), fuel, 2int, 0int,
    {
        let ghost c = self.ctx();
        if e.offset as u64 + 8 > buf.len() as u64 {
            self.unfit(def, e, buf.len());
            return;
        }
        let s: &MetaStruct = match value {
            Some(MetaValue::Struct(s)) => s,
            Some(MetaValue::Null) => {
                return;
            },
            None => {
                return;
            },
            Some(_) => {
                self.mismatch(def, e, value);
                return;
            },
        };
        let schema = self.schema;
        let ty: u32 = if schema.meta_structs.contains_key(&s.type_hash) {
            s.type_hash
        } else {
            e.ref_key
        };
        assert(ty == pointee_type(c, s@, e.ref_key));
        let name: u32 = match schema.meta_structs.get(&ty) {
            Some(d) => {
                assert(c.schema.meta_structs[ty] == d@);
                d.name
            },
            None => {
                assert(!c.schema.meta_structs.contains_key(ty));
                self.fault(def, e, BuildFault::NoSchema(ty));
                return;
            },
        };
        let bytes = self.write_struct(ty, Some(s), self.full);
        let ptr = self.add_item(name, bytes.as_slice());
        put_u64_le(buf, e.offset as usize, ptr);
    }

    /// A member that holds a structure in place.
    #[verifier::rlimit(60)]
    fn write_inner(
        &mut self,
        def: &MetaStructDef,
        e: &MetaEntryDef,
        elem: &Option<MetaEntryDef>,
        value: Option<&MetaValue>,
        buf: &mut Vec<u8>,
        fuel: usize,
    )
        requires
            old(self).ok(),
            e.ty == T_STRUCT,
            old(buf)@.len() == def.size,
            e.name != ARRAYINFO,
        ensures
            final(self).kept(*old(self)),
            final(buf)@.len() == old(buf)@.len(),
            (final(buf)@, final(self).st()) == write_member(
                old(self).ctx(),
                def@,
                *e,
                *elem,
                value_of(value),
                old(buf)@,
                old(self).st(),
                fuel as nat,
            ),
        decreases crate::pso_write::member_measure(value_of(value)), fuel, 2int, 0int,
    {
        let ghost c = self.ctx();
        let schema = self.schema;
        let size: u32 = match schema.meta_structs.get(&e.ref_key) {
            Some(d) => {
                assert(c.schema.meta_structs[e.ref_key] == d@);
                d.size
            },
            None => {
                assert(!c.schema.meta_structs.contains_key(e.ref_key));
                self.fault(def, e, BuildFault::NoSchema(e.ref_key));
                return;
            },
        };
        if e.offset as u64 + size as u64 > buf.len() as u64 {
            self.unfit(def, e, buf.len());
            return;
        }
        let inner: Option<&MetaStruct> = match value {
            Some(MetaValue::Struct(s)) => Some(s),
            Some(MetaValue::Null) => None,
            None => None,
            Some(_) => {
                self.mismatch(def, e, value);
                return;
            },
        };
        if value.is_none() && (fuel == 0 || self.endless) {
            self.endless = true;
            return;
        }
        let inner_fuel: usize = if value.is_none() {
            fuel - 1
        } else {
            self.full
        };
        let bytes = self.write_struct(e.ref_key, inner, inner_fuel);
        put_bytes(buf, e.offset as usize, bytes.as_slice());
    }

    /// A member that points to an array.
    #[verifier::rlimit(60)]
    fn write_list(
        &mut self,
        def: &MetaStructDef,
        e: &MetaEntryDef,
        elem: &Option<MetaEntryDef>,
        value: Option<&MetaValue>,
        v: &MetaValue,
        buf: &mut Vec<u8>,
        fuel: usize,
    )
        requires
            old(self).ok(),
            e.ty == T_ARRAY,
            v@ == crate::pso_write::value_or_null(value_of(value)),
        ensures
            final(self).kept(*old(self)),
            final(buf)@.len() == old(buf)@.len(),
            (final(buf)@, final(self).st()) == write_member(
                old(self).ctx(),
                def@,
                *e,
                *elem,
                value_of(value),
                old(buf)@,
                old(self).st(),
                fuel as nat,
            ),
        decreases crate::pso_write::member_measure(value_of(value)), fuel, 2int, 1int,
    {
        if e.offset as u64 + 16 > buf.len() as u64 {
            self.unfit(def, e, buf.len());
            return;
        }
        let x: &MetaEntryDef = match elem {
            Some(x) => x,
            None => {
                self.fault(def, e, BuildFault::NoArrayInfo);
                return;
            },
        };
        let none: Vec<MetaValue> = Vec::new();
        let items: &Vec<MetaValue> = match v {
            MetaValue::Array(a) => {
                assert(a@.items =~= crate::value::values_view(a.items@));
                &a.items
            },
            MetaValue::Null => {
                assert(crate::value::values_view(none@) =~= Seq::<ValueView>::empty());
                &none
            },
            MetaValue::Str(s) => {
                let cs = chars_of(s.as_str());
                if trim(cs.as_slice()).len() != 0 {
                    self.mismatch(def, e, value);
                    return;
                }
                assert(crate::value::values_view(none@) =~= Seq::<ValueView>::empty());
                &none
            },
            _ => {
                self.mismatch(def, e, value);
                return;
            },
        };
        assert(crate::value::values_view(items@) == crate::pso_write::items_of(v@));
        if items.len() == 0 {
            return;
        }
        match self.write_array(def, e, x, items, Ghost(fuel as nat)) {
            None => {},
            Some(run) => {
                let block = self.run_block(x);
                let ptr = self.add_item(block, run.as_slice());
                put_counted_pointer(buf, e.offset as usize, ptr, items.len());
            },
        }
    }

    fn run_block(&self, elem: &MetaEntryDef) -> (r: u32)
        requires
            run_refused(self.ctx(), *elem) is None,
        ensures
            r == run_block(self.ctx(), *elem),
    {
        if elem.ty == T_STRUCT {
            if elem.ref_key == SOA_VECTOR {
                B_VECTOR4
            } else {
                match self.schema.meta_structs.get(&elem.ref_key) {
                    Some(d) => d.name,
                    None => 0,
                }
            }
        } else if elem.ty == T_STRUCT_PTR {
            B_POINTER
        } else if elem.ty == T_CHAR_PTR {
            B_CHAR_POINTER
        } else if elem.ty == T_VEC3 || elem.ty == T_VEC4 {
            B_VECTOR4
        } else if elem.ty == T_HASH {
            B_HASH
        } else if elem.ty == T_F32 {
            B_FLOAT
        } else if elem.ty == T_U16 || elem.ty == T_I16 || elem.ty == T_SHORT_FLAGS {
            B_USHORT
        } else if elem.ty == T_U8 || elem.ty == T_I8 || elem.ty == T_BOOL || elem.ty
            == T_BYTE_ENUM {
            B_BYTE
        } else {
            B_UINT
        }
    }

    fn refusal(&self, elem: &MetaEntryDef) -> (r: Option<BuildFault>)
        ensures
            r == run_refused(self.ctx(), *elem),
    {
        if elem.ty == T_STRUCT {
            if elem.ref_key != SOA_VECTOR && !self.schema.meta_structs.contains_key(
                &elem.ref_key,
            ) {
                Some(BuildFault::NoElementSchema(elem.ref_key))
            } else {
                None
            }
        } else if elem.ty == T_STRUCT_PTR || elem.ty == T_CHAR_PTR || elem.ty == T_VEC3 || elem.ty
            == T_VEC4 || elem.ty == T_HASH || elem.ty == T_F32 || elem.ty == T_U32 || elem.ty
            == T_I32 || elem.ty == T_INT_ENUM || elem.ty == T_INT_FLAGS1 || elem.ty == T_INT_FLAGS2
            || elem.ty == T_U16 || elem.ty == T_I16 || elem.ty == T_SHORT_FLAGS || elem.ty == T_U8
            || elem.ty == T_I8 || elem.ty == T_BOOL || elem.ty == T_BYTE_ENUM {
            None
        } else {
            Some(BuildFault::ElementType(elem.ty))
        }
    }

    /// The bytes of an array's elements, unless they cannot be written.
    fn write_array(
        &mut self,
        def: &MetaStructDef,
        e: &MetaEntryDef,
        elem: &MetaEntryDef,
        items: &Vec<MetaValue>,
        Ghost(fuel): Ghost<nat>,
    ) -> (r: Option<Vec<u8>>)
        requires
            old(self).ok(),
        ensures
            final(self).kept(*old(self)),
            (crate::coerce::opt_bytes(r), final(self).st()) == element_run(
                old(self).ctx(),
                def@,
                *e,
                *elem,
                crate::value::values_view(items@),
                old(self).st(),
                fuel,
            ),
            r is Some ==> run_refused(old(self).ctx(), *elem) is None,
        decreases crate::pso_write::items_measure(crate::value::values_view(items@)), 0nat, 2int, 0int,
    {
        let ghost c = self.ctx();
        let ghost all = crate::value::values_view(items@);
        let ghost before = *self;
        match self.refusal(elem) {
            Some(f) => {
                self.fault(def, e, f);
                return None;
            },
            None => {},
        }
        let ghost st0 = self.st();
        let mut run: Vec<u8> = Vec::new();
        let mut k: usize = 0;
        while k < items.len()
            invariant
                k <= items@.len(),
                self.ok(),
                self.kept(before),
                before == *old(self),
                c == self.ctx(),
                all == crate::value::values_view(items@),
                run_refused(c, *elem) is None,
                (Some(run@), self.st()) == items_run(c, def@, *e, *elem, all, st0, k as nat),
                element_run(c, def@, *e, *elem, all, before.st(), fuel) == items_run(
                    c,
                    def@,
                    *e,
                    *elem,
                    all,
                    st0,
                    all.len(),
                ),
            decreases items@.len() - k,
        {
            proof {
                assert(all[k as int] == items@[k as int]@);
                crate::value::lemma_item_height(all, k as int);
            }
            match self.write_item(def, e, elem, &items[k]) {
                Some(b) => {
                    push_bytes(&mut run, b.as_slice());
                },
                None => {
                    proof {
                        lemma_items_none(c, def@, *e, *elem, all, st0, (k + 1) as nat, all.len());
                    }
                    return None;
                },
            }
            k += 1;
        }
        Some(run)
    }

    #[verifier::rlimit(60)]
    fn write_item(
        &mut self,
        def: &MetaStructDef,
        e: &MetaEntryDef,
        elem: &MetaEntryDef,
        item: &MetaValue,
    ) -> (r: Option<Vec<u8>>)
        requires
            old(self).ok(),
            run_refused(old(self).ctx(), *elem) is None,
        ensures
            final(self).kept(*old(self)),
            (crate::coerce::opt_bytes(r), final(self).st()) == write_item(
                old(self).ctx(),
                def@,
                *e,
                *elem,
                item@,
                old(self).st(),
            ),
        decreases 2 * crate::value::height(item@) + 1, 0nat, 0int, 0int,
    {
        let ghost c = self.ctx();
        let schema = self.schema;
        if (elem.ty == T_STRUCT && elem.ref_key == SOA_VECTOR) || (elem.ty != T_STRUCT && elem.ty
            != T_STRUCT_PTR && elem.ty != T_CHAR_PTR) {
            return self.scalar_item(elem, item);
        }
        if elem.ty == T_CHAR_PTR {
            let s = match str_of(item) {
                Some(s) => s,
                None => String::new(),
            };
            let mut slot = zero_bytes(16);
            if !s.as_str().is_empty() {
                let ptr = self.add_string(&s);
                put_counted_pointer(&mut slot, 0, ptr, s.as_str().as_bytes().len());
            }
            return Some(slot);
        }
        if elem.ty == T_STRUCT_PTR {
            if let MetaValue::Struct(s) = item {
                let ty: u32 = if schema.meta_structs.contains_key(&s.type_hash) {
                    s.type_hash
                } else {
                    elem.ref_key
                };
                assert(ty == pointee_type(c, s@, elem.ref_key));
                match schema.meta_structs.get(&ty) {
                    Some(d) => {
                        assert(c.schema.meta_structs[ty] == d@);
                        let bytes = self.write_struct(ty, Some(s), self.full);
                        let ptr = self.add_item(d.name, bytes.as_slice());
                        let mut slot: Vec<u8> = Vec::new();
                        push_u64_le(&mut slot, ptr);
                        assert(slot@ =~= crate::bytes::le64_bytes(ptr));
                        return Some(slot);
                    },
                    None => {
                        assert(!c.schema.meta_structs.contains_key(ty));
                        self.fault(def, e, BuildFault::NoSchema(ty));
                    },
                }
            }
            return Some(zero_bytes(8));
        }
        match item {
            MetaValue::Struct(s) => Some(self.write_struct(elem.ref_key, Some(s), self.full)),
            MetaValue::Null => Some(self.write_struct(elem.ref_key, None, self.full)),
            _ => {
                warn_once(
                    &mut self.warnings,
                    BuildWarning::Element {
                        structure: def.name,
                        member: e.name,
                        value: item.copy(),
                    },
                );
                Some(self.write_struct(elem.ref_key, None, self.full))
            },
        }
    }
}

proof fn lemma_integers_stop(
    c: Context,
    buf: Seq<u8>,
    off: int,
    stride: int,
    items: Seq<ValueView>,
    j: nat,
    k: nat,
)
    requires
        j <= k,
        !integers_into(c, buf, off, stride, items, j).1,
    ensures
        integers_into(c, buf, off, stride, items, k) == integers_into(
            c,
            buf,
            off,
            stride,
            items,
            j,
        ),
    decreases k,
{
    if j < k {
        lemma_integers_stop(c, buf, off, stride, items, j, (k - 1) as nat);
    }
}

proof fn lemma_items_none(
    c: Context,
    def: MetaStructDefView,
    e: MetaEntryDef,
    elem: MetaEntryDef,
    items: Seq<ValueView>,
    st: BuildState,
    j: nat,
    k: nat,
)
    requires
        j <= k <= items.len(),
        items_run(c, def, e, elem, items, st, j).0 is None,
    ensures
        items_run(c, def, e, elem, items, st, k) == items_run(c, def, e, elem, items, st, j),
    decreases k,
{
    if j < k {
        lemma_items_none(c, def, e, elem, items, st, j, (k - 1) as nat);
    }
}

// ─── assembling ──────────────────────────────────────────────────────────────

spec fn structs_view(defs: Seq<&MetaStructDef>) -> Seq<MetaStructDefView> {
    Seq::new(defs.len(), |i: int| defs[i]@)
}

spec fn enums_view(defs: Seq<&MetaEnumDef>) -> Seq<MetaEnumDefView> {
    Seq::new(defs.len(), |i: int| defs[i]@)
}

/// What a file is laid out from.
struct Pieces<'s> {
    structs: Vec<&'s MetaStructDef>,
    enums: Vec<&'s MetaEnumDef>,
    blocks: Vec<Block>,
}

fn capped_size(n: usize, of: usize) -> (r: usize)
    ensures
        r == capped(n * of),
{
    assert(n * of >= 0) by (nonlinear_arith)
        requires
            n >= 0,
            of >= 0,
    ;
    match n.checked_mul(of) {
        Some(x) => x,
        None => usize::MAX,
    }
}

fn member_bytes(entries: &Vec<MetaEntryDef>) -> (out: Vec<u8>)
    ensures
        out@ == member_records(entries@, entries@.len()),
{
    let mut out: Vec<u8> = Vec::new();
    let mut k: usize = 0;
    while k < entries.len()
        invariant
            k <= entries@.len(),
            out@ == member_records(entries@, k as nat),
        decreases entries@.len() - k,
    {
        let e = entries[k];
        push_u32_le(&mut out, e.name);
        push_u32_le(&mut out, e.offset);
        out.push(e.ty);
        out.push(e.unk9);
        push_u16_le(&mut out, e.ref_index as u16);
        push_u32_le(&mut out, e.ref_key);
        k += 1;
        assert(out@ =~= member_records(entries@, k as nat));
    }
    out
}

fn enumerator_bytes(entries: &Vec<(u32, i32)>) -> (out: Vec<u8>)
    ensures
        out@ == enumerator_records(entries@, entries@.len()),
{
    let mut out: Vec<u8> = Vec::new();
    let mut k: usize = 0;
    while k < entries.len()
        invariant
            k <= entries@.len(),
            out@ == enumerator_records(entries@, k as nat),
        decreases entries@.len() - k,
    {
        let (name, value) = entries[k];
        push_u32_le(&mut out, name);
        push_u32_le(&mut out, value as u32);
        k += 1;
        assert(out@ =~= enumerator_records(entries@, k as nat));
    }
    out
}

/// Where pieces start, as numbers that an address can be made of.
spec fn starts_ok(starts: Seq<usize>, wanted: Seq<int>) -> bool {
    &&& starts.len() == wanted.len()
    &&& forall|i: int|
        0 <= i < starts.len() ==> #[trigger] starts[i] == wanted[i] && wanted[i] <= 0x4000_0000
            * 127
}

fn address_of(offset: usize) -> (r: u64)
    requires
        offset <= 0x4000_0000 * 127,
    ensures
        r == address(offset as int),
{
    SYSTEM_BASE + offset as u64
}

fn address_or_none(empty: bool, offset: usize) -> (r: u64)
    requires
        offset <= 0x4000_0000 * 127,
    ensures
        r == address_unless(empty, offset as int),
{
    if empty {
        0
    } else {
        address_of(offset)
    }
}

impl<'s> Pieces<'s> {
    spec fn parts(self) -> Parts {
        Parts {
            structs: structs_view(self.structs@),
            enums: enums_view(self.enums@),
            blocks: blocks_of(self.blocks@),
        }
    }

    fn sizes(&self, pages: usize) -> (r: Vec<usize>)
        requires
            pages <= 0x1_0000,
        ensures
            r@ == piece_sizes(self.parts(), pages as int),
    {
        let ghost p = self.parts();
        let ghost all = piece_sizes(p, pages as int);
        let mut out: Vec<usize> = Vec::new();
        out.push(0x70);
        out.push(16 + 8 * pages);
        out.push(capped_size(32, self.structs.len()));
        assert(out@ =~= all.take(3));
        let mut i: usize = 0;
        while i < self.structs.len()
            invariant
                i <= self.structs@.len(),
                p == self.parts(),
                all == piece_sizes(p, pages as int),
                out@ == all.take(3 + i),
            decreases self.structs@.len() - i,
        {
            assert(p.structs[i as int] == self.structs@[i as int]@);
            out.push(capped_size(16, self.structs[i].entries.len()));
            i += 1;
            assert(out@ =~= all.take(3 + i));
        }
        out.push(capped_size(24, self.enums.len()));
        assert(out@ =~= all.take(enum_table(p) + 1));
        let mut i: usize = 0;
        while i < self.enums.len()
            invariant
                i <= self.enums@.len(),
                p == self.parts(),
                all == piece_sizes(p, pages as int),
                out@ == all.take(enum_table(p) + 1 + i),
            decreases self.enums@.len() - i,
        {
            assert(p.enums[i as int] == self.enums@[i as int]@);
            out.push(capped_size(8, self.enums[i].entries.len()));
            i += 1;
            assert(out@ =~= all.take(enum_table(p) + 1 + i));
        }
        out.push(capped_size(16, self.blocks.len()));
        assert(out@ =~= all.take(block_table(p) + 1));
        let mut i: usize = 0;
        while i < self.blocks.len()
            invariant
                i <= self.blocks@.len(),
                p == self.parts(),
                all == piece_sizes(p, pages as int),
                out@ == all.take(block_table(p) + 1 + i),
            decreases self.blocks@.len() - i,
        {
            assert(p.blocks[i as int].1 == self.blocks@[i as int].data@);
            let len = self.blocks[i].data.len();
            assert(capped(len as int) == len);
            out.push(len);
            i += 1;
            assert(out@ =~= all.take(block_table(p) + 1 + i));
        }
        assert(out@ =~= all);
        out
    }

    #[verifier::rlimit(60)]
    fn header_bytes(&self, starts: &Vec<usize>, Ghost(wanted): Ghost<Seq<int>>) -> (out: Vec<u8>)
        requires
            starts_ok(starts@, wanted),
            starts@.len() == piece_count(self.parts()),
        ensures
            out@ == header(self.parts(), wanted),
    {
        let ghost p = self.parts();
        let s = self.structs.len();
        let n = self.enums.len();
        assert(starts.len() == s + n + self.blocks@.len() + 5);
        let mut out: Vec<u8> = Vec::new();
        push_u32_le(&mut out, 0x405b_c808);
        push_u32_le(&mut out, 1);
        push_u64_le(&mut out, address_of(starts[1]));
        push_u32_le(&mut out, 0x5052_4430);
        push_u16_le(&mut out, 0x0079);
        let ghost a = out@;
        assert(a =~= crate::bytes::le32_bytes(0x405b_c808) + crate::bytes::le32_bytes(1) + crate::bytes::le64_bytes(address(wanted[1]))
            + crate::bytes::le32_bytes(0x5052_4430) + crate::bytes::le16_bytes(0x0079));
        pad_to(&mut out, 0x1C);
        push_u32_le(&mut out, 1);
        push_u64_le(&mut out, address_or_none(s == 0, starts[2]));
        push_u64_le(&mut out, address_or_none(n == 0, starts[s + 3]));
        push_u64_le(&mut out, address_of(starts[s + n + 4]));
        let ghost b = out@;
        assert(b == a + crate::bytes::zeros(6) + crate::bytes::le32_bytes(1) + crate::bytes::le64_bytes(
            address_unless(p.structs.len() == 0, wanted[2]),
        ) + crate::bytes::le64_bytes(address_unless(p.enums.len() == 0, wanted[enum_table(p)])) + crate::bytes::le64_bytes(
            address(wanted[block_table(p)]),
        ));
        pad_to(&mut out, 0x48);
        push_u16_le(&mut out, s as u16);
        push_u16_le(&mut out, n as u16);
        push_u16_le(&mut out, self.blocks.len() as u16);
        pad_to(&mut out, 0x70);
        assert(out@ == b + crate::bytes::zeros(16) + crate::bytes::le16_bytes(p.structs.len() as u16) + crate::bytes::le16_bytes(
            p.enums.len() as u16,
        ) + crate::bytes::le16_bytes(p.blocks.len() as u16) + crate::bytes::zeros(0x22));
        out
    }

    fn struct_table(&self, starts: &Vec<usize>, Ghost(wanted): Ghost<Seq<int>>) -> (out: Vec<u8>)
        requires
            starts_ok(starts@, wanted),
            starts@.len() == piece_count(self.parts()),
        ensures
            out@ == struct_records(self.parts(), wanted, self.parts().structs.len()),
    {
        let ghost p = self.parts();
        let mut out: Vec<u8> = Vec::new();
        let mut k: usize = 0;
        while k < self.structs.len()
            invariant
                k <= self.structs@.len(),
                p == self.parts(),
                starts_ok(starts@, wanted),
                starts@.len() == piece_count(p),
                out@ == struct_records(p, wanted, k as nat),
            decreases self.structs@.len() - k,
        {
            let ghost was = out@;
            let s = self.structs[k];
            assert(p.structs[k as int] == s@);
            assert(k + 3 < starts.len());
            push_u32_le(&mut out, s.name);
            push_u32_le(&mut out, s.key);
            push_u32_le(&mut out, s.unk8);
            push_u32_le(&mut out, 0);
            push_u64_le(&mut out, address_or_none(s.entries.len() == 0, starts[k + 3]));
            push_u32_le(&mut out, s.size);
            push_u16_le(&mut out, 0);
            push_u16_le(&mut out, s.entries.len() as u16);
            k += 1;
            assert(crate::bytes::le32_bytes(0) =~= crate::bytes::zeros(4));
            assert(crate::bytes::le16_bytes(0) =~= crate::bytes::zeros(2));
            assert(out@ =~= struct_records(p, wanted, k as nat));
        }
        out
    }

    fn enum_table(&self, starts: &Vec<usize>, Ghost(wanted): Ghost<Seq<int>>) -> (out: Vec<u8>)
        requires
            starts_ok(starts@, wanted),
            starts@.len() == piece_count(self.parts()),
        ensures
            out@ == enum_records(self.parts(), wanted, self.parts().enums.len()),
    {
        let ghost p = self.parts();
        let mut out: Vec<u8> = Vec::new();
        let mut k: usize = 0;
        while k < self.enums.len()
            invariant
                k <= self.enums@.len(),
                p == self.parts(),
                starts_ok(starts@, wanted),
                starts@.len() == piece_count(p),
                out@ == enum_records(p, wanted, k as nat),
            decreases self.enums@.len() - k,
        {
            let d = self.enums[k];
            assert(p.enums[k as int] == d@);
            assert(self.structs@.len() + 4 + k < starts.len());
            push_u32_le(&mut out, d.name);
            push_u32_le(&mut out, d.key);
            push_u64_le(
                &mut out,
                address_or_none(d.entries.len() == 0, starts[self.structs.len() + 4 + k]),
            );
            push_u32_le(&mut out, d.entries.len() as u32);
            push_u32_le(&mut out, 0);
            k += 1;
            assert(crate::bytes::le32_bytes(0) =~= crate::bytes::zeros(4));
            assert(out@ =~= enum_records(p, wanted, k as nat));
        }
        out
    }

    fn block_table(&self, starts: &Vec<usize>, Ghost(wanted): Ghost<Seq<int>>) -> (out: Vec<u8>)
        requires
            starts_ok(starts@, wanted),
            starts@.len() == piece_count(self.parts()),
        ensures
            out@ == block_records(self.parts(), wanted, self.parts().blocks.len()),
    {
        let ghost p = self.parts();
        let mut out: Vec<u8> = Vec::new();
        let mut k: usize = 0;
        while k < self.blocks.len()
            invariant
                k <= self.blocks@.len(),
                p == self.parts(),
                starts_ok(starts@, wanted),
                starts@.len() == piece_count(p),
                out@ == block_records(p, wanted, k as nat),
            decreases self.blocks@.len() - k,
        {
            assert(p.blocks[k as int] == (
                self.blocks@[k as int].name,
                self.blocks@[k as int].data@,
            ));
            assert(self.structs@.len() + self.enums@.len() + 5 + k < starts.len());
            push_u32_le(&mut out, self.blocks[k].name);
            push_u32_le(&mut out, self.blocks[k].data.len() as u32);
            push_u64_le(
                &mut out,
                address_of(starts[self.structs.len() + self.enums.len() + 5 + k]),
            );
            k += 1;
            assert(out@ =~= block_records(p, wanted, k as nat));
        }
        out
    }

    /// The bytes of a piece.
    fn piece(
        &self,
        pages: usize,
        starts: &Vec<usize>,
        i: usize,
        Ghost(wanted): Ghost<Seq<int>>,
    ) -> (out: Vec<u8>)
        requires
            pages <= 0x1_0000,
            starts_ok(starts@, wanted),
            starts@.len() == piece_count(self.parts()),
            i < starts@.len(),
        ensures
            out@ == piece(self.parts(), pages as int, wanted, i as int),
    {
        let ghost p = self.parts();
        assert(starts.len() == piece_count(p));
        let s = self.structs.len();
        let n = self.enums.len();
        if i == 0 {
            self.header_bytes(starts, Ghost(wanted))
        } else if i == 1 {
            let mut out = zero_bytes(8);
            out.push(pages as u8);
            pad_to(&mut out, 16 + 8 * pages);
            assert(out@ =~= page_map(pages as int));
            out
        } else if i == 2 {
            self.struct_table(starts, Ghost(wanted))
        } else if i < s + 3 {
            assert(p.structs[i - 3] == self.structs@[i - 3]@);
            member_bytes(&self.structs[i - 3].entries)
        } else if i == s + 3 {
            self.enum_table(starts, Ghost(wanted))
        } else if i < s + n + 4 {
            assert(p.enums[i - s - 4] == self.enums@[i - s - 4]@);
            enumerator_bytes(&self.enums[i - s - 4].entries)
        } else if i == s + n + 4 {
            self.block_table(starts, Ghost(wanted))
        } else {
            assert(p.blocks[i - s - n - 5].1 == self.blocks@[i - s - n - 5].data@);
            crate::bytes::to_vec(self.blocks[i - s - n - 5].data.as_slice())
        }
    }

    /// The layout whose page map has room for exactly its pages.
    fn settle(&self) -> (r: Result<(PagedLayout, usize), ResourceError>)
        ensures
            ({
                let p = self.parts();
                match r {
                    Ok((layout, pages)) => {
                        let l = layout_of(p, pages as int);
                        &&& settled(p, 1, MAX_ROUNDS as nat) == Some(pages as int)
                        &&& pages <= MAX_PAGES
                        &&& l is Some
                        &&& layout.flags == (l->0).0
                        &&& layout.size == (l->0).2
                        &&& layout.offsets@.len() == piece_count(p)
                        &&& forall|i: int|
                            0 <= i < piece_count(p) ==> #[trigger] layout.offsets@[i]
                                == (l->0).1[i]
                    },
                    Err(e) => settled(p, 1, MAX_ROUNDS as nat) is None && e
                        == ResourceError::NoPageLayout(piece_count(p) as usize),
                }
            }),
    {
        let ghost p = self.parts();
        let mut pages: usize = 1;
        let mut rounds: usize = MAX_ROUNDS;
        loop
            invariant
                p == self.parts(),
                pages <= MAX_PAGES,
                settled(p, 1, MAX_ROUNDS as nat) == settled(p, pages as int, rounds as nat),
            decreases rounds,
        {
            let sizes = self.sizes(pages);
            match pack_pages(&sizes, MAX_PAGES) {
                Err(e) => {
                    return Err(e);
                },
                Ok(layout) => {
                    proof {
                        crate::paging::law_layout_flags_are_exact(sizes@, MAX_PAGES as int);
                    }
                    let n = rsc7_page_count(layout.flags);
                    if n == pages {
                        return Ok((layout, pages));
                    }
                    if rounds == 0 {
                        return Err(ResourceError::NoPageLayout(sizes.len()));
                    }
                    pages = n;
                    rounds = rounds - 1;
                },
            }
        }
    }

    /// Lays the header, schema tables and blocks out in system pages and
    /// wraps them in an RSC7 container.
    fn assemble(&self) -> (r: Result<Vec<u8>, ResourceError>)
        ensures
            assembles_to(self.parts(), r),
    {
        let ghost p = self.parts();
        let (layout, pages) = match self.settle() {
            Ok(x) => x,
            Err(e) => {
                return Err(e);
            },
        };
        let ghost l = layout_of(p, pages as int)->0;
        let ghost wanted = l.1;
        proof {
            assert forall|i: int| 0 <= i < layout.offsets@.len() implies #[trigger] layout.offsets@[i]
                == wanted[i] && wanted[i] <= 0x4000_0000 * 127 by {
                lemma_piece_places(p, pages as int, i, i);
            }
            crate::paging::law_layout_flags_are_exact(
                piece_sizes(p, pages as int),
                MAX_PAGES as int,
            );
        }
        let mut sys = zero_bytes(layout.size);
        let mut k: usize = 0;
        while k < layout.offsets.len()
            invariant
                k <= layout.offsets@.len(),
                p == self.parts(),
                pages <= MAX_PAGES,
                layout_of(p, pages as int) is Some,
                l == layout_of(p, pages as int)->0,
                wanted == l.1,
                starts_ok(layout.offsets@, wanted),
                layout.offsets@.len() == piece_count(p),
                sys@.len() == l.2,
                sys@ == image(p, pages as int, k as nat),
            decreases layout.offsets@.len() - k,
        {
            let bytes = self.piece(pages, &layout.offsets, k, Ghost(wanted));
            proof {
                lemma_piece_places(p, pages as int, k as int, k as int);
            }
            put_bytes(&mut sys, layout.offsets[k], bytes.as_slice());
            k += 1;
        }
        let none: Vec<u8> = Vec::new();
        proof {
            crate::resource::lemma_no_pages();
            assert(none@ =~= Seq::<u8>::empty());
        }
        Ok(build_rsc7_with_flags(META_VERSION, layout.flags, sys.as_slice(), 0, none.as_slice()))
    }
}

/// What comes of laying out the parts of a file: a resource whose system
/// section is their image, or an error where no layout settles.
pub open spec fn assembles_to(p: Parts, r: Result<Vec<u8>, ResourceError>) -> bool {
    match (settled(p, 1, MAX_ROUNDS as nat), r) {
        (Some(pages), Ok(file)) => {
            let l = layout_of(p, pages)->0;
            &&& file@ == crate::resource::file_bytes(
                META_VERSION,
                crate::resource::versioned(l.0, 0),
                crate::resource::versioned(0, META_VERSION),
                system_of(p, pages) + Seq::<u8>::empty(),
            )
            &&& crate::resource::holds(file@, system_of(p, pages), Seq::<u8>::empty())
        },
        (None, Err(e)) => e == ResourceError::NoPageLayout(piece_count(p) as usize),
        _ => false,
    }
}

impl<'s> Builder<'s> {
    fn used_struct_defs(&self) -> (r: Vec<&'s MetaStructDef>)
        ensures
            structs_view(r@) == used_structs(
                self.ctx(),
                self.used_structs@,
                self.used_structs@.len(),
            ),
    {
        let ghost c = self.ctx();
        let schema = self.schema;
        let mut out: Vec<&'s MetaStructDef> = Vec::new();
        let mut k: usize = 0;
        assert(structs_view(out@) =~= used_structs(c, self.used_structs@, 0));
        while k < self.used_structs.len()
            invariant
                k <= self.used_structs@.len(),
                c == self.ctx(),
                schema == self.schema,
                structs_view(out@) == used_structs(c, self.used_structs@, k as nat),
            decreases self.used_structs@.len() - k,
        {
            let ghost was = out@;
            match schema.meta_structs.get(&self.used_structs[k]) {
                Some(d) => {
                    assert(c.schema.meta_structs[self.used_structs@[k as int]] == d@);
                    out.push(d);
                    assert(structs_view(out@) =~= structs_view(was).push(d@));
                },
                None => {},
            }
            k += 1;
        }
        out
    }

    fn used_enum_defs(&self) -> (r: Vec<&'s MetaEnumDef>)
        ensures
            enums_view(r@) == used_enums(self.ctx(), self.used_enums@, self.used_enums@.len()),
    {
        let ghost c = self.ctx();
        let schema = self.schema;
        let mut out: Vec<&'s MetaEnumDef> = Vec::new();
        let mut k: usize = 0;
        assert(enums_view(out@) =~= used_enums(c, self.used_enums@, 0));
        while k < self.used_enums.len()
            invariant
                k <= self.used_enums@.len(),
                c == self.ctx(),
                schema == self.schema,
                enums_view(out@) == used_enums(c, self.used_enums@, k as nat),
            decreases self.used_enums@.len() - k,
        {
            let ghost was = out@;
            match schema.meta_enums.get(&self.used_enums[k]) {
                Some(d) => {
                    assert(c.schema.meta_enums[self.used_enums@[k as int]] == d@);
                    out.push(d);
                    assert(enums_view(out@) =~= enums_view(was).push(d@));
                },
                None => {},
            }
            k += 1;
        }
        out
    }
}

/// Builds the file. `root` must be a structure the schema knows. `floats`
/// says what the texts in the tree are as floating-point numbers.
pub fn build_meta(root: &MetaValue, schema: &Schema, floats: &FloatTexts) -> (r: Result<
    Written,
    MetaBuildError,
>)
    ensures
        ({
            let c = Context { schema: schema@, floats: floats@ };
            match root@ {
                ValueView::Struct(s) => if !schema@.meta_structs.contains_key(s.type_hash) {
                    r == Err::<Written, MetaBuildError>(MetaBuildError::NoRootSchema(s.type_hash))
                } else if written(c, s).endless {
                    r == Err::<Written, MetaBuildError>(MetaBuildError::Endless)
                } else {
                    let st = written(c, s);
                    match r {
                        Ok(w) => assembles_to(parts_of(c, st), Ok(w.bytes)) && crate::build_warning::warnings_view(
                            w.warnings@,
                        ) == st.warnings,
                        Err(MetaBuildError::Layout(e)) => assembles_to(parts_of(c, st), Err(e)),
                        Err(_) => false,
                    }
                },
                _ => r == Err::<Written, MetaBuildError>(MetaBuildError::RootNotStructure),
            }
        }),
{
    let s = match root {
        MetaValue::Struct(s) => s,
        _ => {
            return Err(MetaBuildError::RootNotStructure);
        },
    };
    assert(root@ == ValueView::Struct(s@));
    let name: u32 = match schema.meta_structs.get(&s.type_hash) {
        Some(d) => {
            assert(schema@.meta_structs.contains_key(s.type_hash));
            assert(schema@.meta_structs[s.type_hash] == d@);
            d.name
        },
        None => {
            return Err(MetaBuildError::NoRootSchema(s.type_hash));
        },
    };
    let full = schema.meta_structs.len();
    assert(schema@.meta_structs.dom() =~= schema.meta_structs@.dom());
    let mut blocks: Vec<Block> = Vec::new();
    blocks.push(Block { name, data: Vec::new() });
    let mut b = Builder {
        schema,
        floats,
        full,
        blocks,
        used_structs: Vec::new(),
        used_enums: Vec::new(),
        warnings: Vec::new(),
        endless: false,
    };
    let ghost c = b.ctx();
    assert(b.st() =~= fresh(name)) by {
        assert(b.st().blocks =~= fresh(name).blocks);
        assert(b.st().warnings =~= fresh(name).warnings);
    }
    let mut root_bytes = b.write_struct(s.type_hash, Some(s), full);
    let ghost plain = root_bytes@;
    let ghost st = b.st();
    pad16(&mut root_bytes);
    let ghost whole = root_bytes@;
    b.blocks.set(0, Block { name, data: root_bytes });
    assert(b.st().blocks =~= st.blocks.update(0, (name, whole)));
    assert(b.st() == written(c, s@));
    if b.endless {
        return Err(MetaBuildError::Endless);
    }
    let structs = b.used_struct_defs();
    let enums = b.used_enum_defs();
    let warnings = b.warnings;
    let pieces = Pieces { structs, enums, blocks: b.blocks };
    assert(pieces.parts() == parts_of(c, written(c, s@)));
    match pieces.assemble() {
        Ok(bytes) => Ok(Written { bytes, warnings }),
        Err(e) => Err(MetaBuildError::Layout(e)),
    }
}

/// A `MetaArray` of the given items, as the writers' tests build them.
pub fn array(items: Vec<MetaValue>) -> (r: MetaValue)
    ensures
        r == MetaValue::Array(MetaArray { item_type: None, typed_items: false, items }),
{
    MetaValue::Array(MetaArray { item_type: None, typed_items: false, items })
}

} // verus!
