//! Writes a [`MetaValue`] tree as a PSO file (`_manifest.ymf`, `.pso`, the
//! PSO form of `.ymt`), the inverse of [`crate::pso::dump_pso`]. Big-endian
//! throughout, laid out as CodeWalker's `PsoBuilder` does: one data block
//! per structure type, raw storage in blocks named by what they hold, the
//! root structure added last, then the PMAP block table and the PSCH
//! schema of every structure and enum written.

use vstd::prelude::*;
use vstd::slice::*;
use vstd::string::*;

use crate::build_warning::{warn_once, BuildFault, BuildWarning, BuildWarningView, ValueKind};
use crate::bytes::{pad_to, push_bytes, push_u16_be, push_u32_be, put_bytes};
use crate::chars::trim;
use crate::coerce::{
    enum_value, flags_bits, float_of, hash_of, int_of, str_of, vec_of, FloatTexts, Floats,
};
use crate::math::Vec4;
use crate::meta_write::Written;
use crate::schema::{
    PsoEntryDef, PsoEnumDef, PsoEnumDefView, PsoStructDef, PsoStructDefView, Schema, SchemaView,
    ARRAYINFO,
};
use crate::text::{chars_of, push_hex_lower};
use crate::value::{MetaStruct, MetaValue, StructView, ValueView};

verus! {

broadcast use {vstd::slice::group_slice_axioms, vstd::std_specs::hash::group_hash_axioms};

/// The most bytes that a shared block grows to.
pub const MAX_BLOCK: usize = 0x10_0000;

pub const T_BOOL: u8 = 0x00;
pub const T_I8: u8 = 0x01;
pub const T_U8: u8 = 0x02;
pub const T_I16: u8 = 0x03;
pub const T_U16: u8 = 0x04;
pub const T_I32: u8 = 0x05;
pub const T_U32: u8 = 0x06;
pub const T_F32: u8 = 0x07;
pub const T_VEC2: u8 = 0x08;
pub const T_VEC3: u8 = 0x09;
pub const T_VEC4: u8 = 0x0A;
pub const T_STRING: u8 = 0x0B;
pub const T_STRUCT: u8 = 0x0C;
pub const T_ARRAY: u8 = 0x0D;
pub const T_ENUM: u8 = 0x0E;
pub const T_FLAGS: u8 = 0x0F;
pub const T_MAP: u8 = 0x10;
pub const T_VEC3A: u8 = 0x14;
pub const T_VEC4A: u8 = 0x15;
pub const T_HFLOAT: u8 = 0x1E;
pub const T_LONG: u8 = 0x20;

pub const B_STRING: u32 = 1;
pub const B_BYTE: u32 = 2;
pub const B_SHORT: u32 = 4;
pub const B_INT: u32 = 5;
pub const B_UINT: u32 = 6;
pub const B_FLOAT: u32 = 7;
pub const B_POINTER: u32 = 12;
pub const B_CHAR_POINTER: u32 = 200;

pub const SECTION_PSIN: u32 = 0x5053_494E;
pub const SECTION_PMAP: u32 = 0x504D_4150;
pub const SECTION_PSCH: u32 = 0x5053_4348;

/// Why a file could not be built at all.
#[derive(Debug, Clone, Copy, PartialEq, Eq, Structural)]
pub enum PsoBuildError {
    RootNotStructure,
    NoRootSchema(u32),
    /// A structure that has to be written with its defaults holds itself.
    Endless,
}

impl PsoBuildError {
    /// The error in words.
    pub fn message(&self) -> (r: String)
        ensures
            r@ == self.text(),
    {
        let mut out = String::new();
        match self {
            PsoBuildError::RootNotStructure => {
                out.append("the root of a PSO file must be a structure");
            },
            PsoBuildError::NoRootSchema(h) => {
                out.append("no PSO schema for the root structure 0x");
                push_hex_lower(&mut out, *h as u64, 8);
                out.append("; pass a file that carries it with --schema");
            },
            PsoBuildError::Endless => {
                out.append("a structure of the schema holds itself");
            },
        }
        assert(out@ =~= self.text());
        out
    }

    /// The error in words.
    pub open spec fn text(&self) -> Seq<char> {
        match self {
            PsoBuildError::RootNotStructure => "the root of a PSO file must be a structure"@,
            PsoBuildError::NoRootSchema(h) => "no PSO schema for the root structure 0x"@
                + crate::text::hex_lower(*h as nat, 8)
                + "; pass a file that carries it with --schema"@,
            PsoBuildError::Endless => "a structure of the schema holds itself"@,
        }
    }
}

// ─── the model ───────────────────────────────────────────────────────────────

/// What a writer works from: the definitions, and what texts are as floats.
pub struct Context {
    pub schema: SchemaView,
    pub floats: Floats,
}

/// What has been written so far.
#[verifier::ext_equal]
pub struct BuildState {
    /// The blocks, each with its name and its bytes.
    pub blocks: Seq<(u32, Seq<u8>)>,
    pub used_structs: Seq<u32>,
    pub used_enums: Seq<u32>,
    pub warnings: Seq<BuildWarningView>,
    /// Whether a structure held itself.
    pub endless: bool,
}

/// A list with `x` at its end, unless it holds it already.
pub open spec fn with_once(s: Seq<u32>, x: u32) -> Seq<u32> {
    if s.contains(x) {
        s
    } else {
        s.push(x)
    }
}

/// The state once a structure is known to be used.
pub open spec fn use_struct(st: BuildState, name: u32) -> BuildState {
    BuildState { used_structs: with_once(st.used_structs, name), ..st }
}

/// The state once an enum is known to be used, if the schema has it.
pub open spec fn use_enum(c: Context, st: BuildState, name: u32) -> BuildState {
    if c.schema.pso_enums.contains_key(name) {
        BuildState { used_enums: with_once(st.used_enums, name), ..st }
    } else {
        st
    }
}

/// The state with one more warning about a member.
pub open spec fn fault(
    st: BuildState,
    def: PsoStructDefView,
    e: PsoEntryDef,
    fault: BuildFault,
) -> BuildState {
    BuildState {
        warnings: crate::build_warning::warned(
            st.warnings,
            BuildWarningView::Fault { structure: def.name, member: e.name, fault },
        ),
        ..st
    }
}

/// The state once a value turned out not to be what a member wants. A
/// missing value is no surprise.
pub open spec fn mismatch(
    st: BuildState,
    def: PsoStructDefView,
    e: PsoEntryDef,
    v: Option<ValueView>,
) -> BuildState {
    match v {
        None => st,
        Some(value) => BuildState {
            warnings: crate::build_warning::warned(
                st.warnings,
                BuildWarningView::Mismatch {
                    structure: def.name,
                    member: e.name,
                    wanted: kind_of(e.ty),
                    value,
                },
            ),
            ..st
        },
    }
}

/// The kind of value that a member type wants.
pub open spec fn kind_of(ty: u8) -> ValueKind {
    if ty == T_BOOL {
        ValueKind::Boolean
    } else if ty == T_I8 || ty == T_U8 || ty == T_I16 || ty == T_U16 || ty == T_I32 || ty == T_U32
        || ty == T_LONG || ty == T_HFLOAT {
        ValueKind::Integer
    } else if ty == T_F32 {
        ValueKind::Float
    } else if ty == T_VEC2 {
        ValueKind::Vector2
    } else if ty == T_VEC3 || ty == T_VEC3A {
        ValueKind::Vector3
    } else if ty == T_VEC4 || ty == T_VEC4A {
        ValueKind::Vector4
    } else if ty == T_STRING {
        ValueKind::Name
    } else if ty == T_ENUM {
        ValueKind::EnumMember
    } else if ty == T_FLAGS {
        ValueKind::FlagSet
    } else if ty == T_STRUCT {
        ValueKind::Structure
    } else if ty == T_ARRAY {
        ValueKind::Array
    } else if ty == T_MAP {
        ValueKind::Pairs
    } else {
        ValueKind::Value
    }
}

/// A packed pointer: 1-based block id in the low 12 bits, offset above.
pub open spec fn pointer(block: int, offset: int) -> u32 {
    ((block + 1) % 0x1000 + 0x1000 * (offset % 0x10_0000)) as u32
}

/// The first block of that name from `i` on with room for `need` bytes, or
/// the place of a new one.
pub open spec fn block_for(blocks: Seq<(u32, Seq<u8>)>, name: u32, need: int, i: int) -> int
    decreases blocks.len() - i,
{
    if i >= blocks.len() {
        blocks.len() as int
    } else if blocks[i].0 == name && blocks[i].1.len() + need <= MAX_BLOCK {
        i
    } else {
        block_for(blocks, name, need, i + 1)
    }
}

/// The blocks with some bytes added to one of that name, and the pointer to
/// them.
pub open spec fn add_item(st: BuildState, name: u32, bytes: Seq<u8>) -> (BuildState, u32) {
    let i = block_for(st.blocks, name, bytes.len() as int, 0);
    if i < st.blocks.len() {
        (
            BuildState {
                blocks: st.blocks.update(i, (name, st.blocks[i].1 + bytes)),
                ..st
            },
            pointer(i, st.blocks[i].1.len() as int),
        )
    } else {
        (BuildState { blocks: st.blocks.push((name, bytes)), ..st }, pointer(i, 0))
    }
}

/// The blocks with a NUL-terminated string added.
pub open spec fn add_string(st: BuildState, text: Seq<char>) -> (BuildState, u32) {
    add_item(st, B_STRING, vstd::utf8::encode_utf8(text).push(0))
}

/// The members of an enum, none where the schema has none.
pub open spec fn enum_members(c: Context, name: u32) -> Seq<(u32, i32)> {
    if c.schema.pso_enums.contains_key(name) {
        c.schema.pso_enums[name].entries
    } else {
        Seq::empty()
    }
}

/// The element descriptor of an array member.
pub open spec fn array_info(def: PsoStructDefView, e: PsoEntryDef) -> Option<PsoEntryDef> {
    let wide = (e.ref_key % 0x1_0000) as int;
    let narrow = (e.ref_key % 0x1000) as int;
    if wide < def.entries.len() {
        Some(def.entries[wide])
    } else if narrow < def.entries.len() {
        Some(def.entries[narrow])
    } else {
        None
    }
}

/// The first `n` components of a vector, big-endian.
pub open spec fn vector_bytes(a: Vec4, n: int) -> Seq<u8> {
    let two = crate::bytes::be32_bytes(a.x) + crate::bytes::be32_bytes(a.y);
    if n == 2 {
        two
    } else if n == 3 {
        two + crate::bytes::be32_bytes(a.z)
    } else {
        two + crate::bytes::be32_bytes(a.z) + crate::bytes::be32_bytes(a.w)
    }
}

/// How many components a vector type has.
pub open spec fn components(ty: u8) -> int {
    if ty == T_VEC2 {
        2
    } else if ty == T_VEC3 || ty == T_VEC3A {
        3
    } else {
        4
    }
}

/// A number in one, two or four bytes, big-endian.
pub open spec fn sized_bytes(n: u32, size: int) -> Seq<u8> {
    if size == 4 {
        crate::bytes::be32_bytes(n)
    } else if size == 2 {
        crate::bytes::be16_bytes(n as u16)
    } else {
        seq![n as u8]
    }
}

/// How many bytes an enum or a flag set of some subtype takes.
pub open spec fn enum_size(subtype: u8) -> int {
    if subtype == 0 {
        4
    } else if subtype == 1 {
        2
    } else {
        1
    }
}

/// The enum that names the bits of a flags member.
pub open spec fn flags_enum(def: PsoStructDefView, e: PsoEntryDef) -> u32 {
    let idx = (e.ref_key % 0x1000) as int;
    if idx < def.entries.len() {
        def.entries[idx].ref_key
    } else {
        0
    }
}

/// How many bytes a member needs that holds its whole value in place, `None`
/// for a member of any other kind.
pub open spec fn plain_need(e: PsoEntryDef) -> Option<int> {
    if e.ty == T_BOOL || e.ty == T_I8 || e.ty == T_U8 {
        Some(1)
    } else if e.ty == T_I16 || e.ty == T_U16 || e.ty == T_HFLOAT {
        Some(2)
    } else if e.ty == T_I32 || e.ty == T_U32 || e.ty == T_F32 {
        Some(4)
    } else if e.ty == T_LONG {
        Some(8)
    } else if e.ty == T_VEC2 || e.ty == T_VEC3 || e.ty == T_VEC4 || e.ty == T_VEC3A || e.ty
        == T_VEC4A {
        Some(4 * components(e.ty))
    } else if e.ty == T_STRING && e.subtype == 0 {
        Some((e.ref_key / 0x1_0000) as int)
    } else if e.ty == T_STRING && (e.subtype == 7 || e.subtype == 8) {
        Some(4)
    } else if e.ty == T_ENUM || e.ty == T_FLAGS {
        Some(enum_size(e.subtype))
    } else {
        None
    }
}

/// The text of a fixed buffer of `len` bytes: cut so that a NUL follows.
pub open spec fn buffer_text(text: Seq<char>, len: int) -> Seq<u8> {
    let bytes = vstd::utf8::encode_utf8(text);
    bytes.take(
        crate::resource::least(
            bytes.len() as int,
            if len > 0 {
                len - 1
            } else {
                0
            },
        ),
    )
}

/// The bytes of an integer of a plain type.
pub open spec fn integer_bytes(n: i64, size: int) -> Seq<u8> {
    if size == 1 {
        seq![n as u8]
    } else if size == 2 {
        crate::bytes::be16_bytes(n as u16)
    } else if size == 4 {
        crate::bytes::be32_bytes(n as u32)
    } else {
        crate::bytes::be64_bytes(n as u64)
    }
}

/// The bytes that a plain member stores for a value.
pub open spec fn plain_bytes(c: Context, def: PsoStructDefView, e: PsoEntryDef, v: ValueView) -> Option<
    Seq<u8>,
> {
    if e.ty == T_F32 {
        match crate::coerce::as_single(v, c.floats) {
            Some(b) => Some(crate::bytes::be32_bytes(b)),
            None => None,
        }
    } else if e.ty == T_VEC2 || e.ty == T_VEC3 || e.ty == T_VEC4 || e.ty == T_VEC3A || e.ty
        == T_VEC4A {
        match crate::coerce::as_vector(v, components(e.ty), c.floats) {
            Some(a) => Some(vector_bytes(a, components(e.ty))),
            None => None,
        }
    } else if e.ty == T_STRING && e.subtype == 0 {
        match crate::coerce::as_text(v) {
            Some(t) => Some(buffer_text(t, (e.ref_key / 0x1_0000) as int)),
            None => None,
        }
    } else if e.ty == T_STRING {
        match crate::coerce::as_hash(v) {
            Some(h) => Some(crate::bytes::be32_bytes(h)),
            None => None,
        }
    } else if e.ty == T_ENUM {
        match crate::coerce::as_enum(v, enum_members(c, e.ref_key), c.floats) {
            Some(x) => Some(sized_bytes(x as u32, enum_size(e.subtype))),
            None => None,
        }
    } else if e.ty == T_FLAGS {
        match crate::coerce::as_flags(v, enum_members(c, flags_enum(def, e)), c.floats) {
            Some(b) => Some(sized_bytes(b, enum_size(e.subtype))),
            None => None,
        }
    } else {
        match crate::coerce::as_integer(v, c.floats) {
            Some(n) => Some(integer_bytes(n, plain_need(e)->0)),
            None => None,
        }
    }
}

/// The state once a plain member is stored: its enum is used.
pub open spec fn plain_used(c: Context, st: BuildState, def: PsoStructDefView, e: PsoEntryDef) -> BuildState {
    if e.ty == T_ENUM {
        use_enum(c, st, e.ref_key)
    } else if e.ty == T_FLAGS {
        use_enum(c, st, flags_enum(def, e))
    } else {
        st
    }
}

/// The value that is read for a member: the null value where it is missing.
pub open spec fn value_or_null(v: Option<ValueView>) -> ValueView {
    match v {
        Some(x) => x,
        None => ValueView::Null,
    }
}

/// The structure type that a pointed-to structure is written as.
pub open spec fn pointee_type(c: Context, s: StructView, fallback: u32) -> u32 {
    if c.schema.pso_structs.contains_key(s.type_hash) {
        s.type_hash
    } else {
        fallback
    }
}

/// `buf` with a counted pointer written into it at `off`.
pub open spec fn put_counted(buf: Seq<u8>, off: int, ptr: u32, count: int) -> Seq<u8> {
    crate::bytes::splice(
        crate::bytes::splice(crate::bytes::splice(buf, off, crate::bytes::be32_bytes(ptr)), off + 8, crate::bytes::be16_bytes(count as u16)),
        off + 10,
        crate::bytes::be16_bytes(count as u16),
    )
}

/// The block that an array's elements are stored in.
pub open spec fn run_block(c: Context, elem: PsoEntryDef) -> u32 {
    if elem.ty == T_STRUCT {
        if elem.subtype == 3 {
            B_POINTER
        } else {
            c.schema.pso_structs[elem.ref_key].name
        }
    } else if elem.ty == T_STRING {
        if elem.subtype == 7 || elem.subtype == 8 {
            B_UINT
        } else if elem.subtype == 1 || elem.subtype == 2 {
            B_POINTER
        } else if elem.subtype == 3 {
            B_CHAR_POINTER
        } else {
            B_STRING
        }
    } else if elem.ty == T_BOOL || elem.ty == T_U8 || elem.ty == T_I8 {
        B_BYTE
    } else if elem.ty == T_U16 || elem.ty == T_I16 || elem.ty == T_HFLOAT {
        B_SHORT
    } else if elem.ty == T_I32 || elem.ty == T_ENUM {
        B_INT
    } else if elem.ty == T_U32 || elem.ty == T_LONG {
        B_UINT
    } else if elem.ty == T_F32 {
        B_FLOAT
    } else {
        B_STRING
    }
}

/// Why an array of such elements cannot be written.
pub open spec fn run_refused(c: Context, elem: PsoEntryDef) -> Option<BuildFault> {
    if elem.ty == T_STRUCT {
        if elem.subtype != 3 && !c.schema.pso_structs.contains_key(elem.ref_key) {
            Some(BuildFault::NoElementSchema(elem.ref_key))
        } else {
            None
        }
    } else if elem.ty == T_STRING {
        if elem.subtype == 0 && elem.ref_key / 0x1_0000 == 0 {
            Some(BuildFault::ZeroLengthStrings)
        } else if elem.subtype == 0 || elem.subtype == 1 || elem.subtype == 2 || elem.subtype == 3
            || elem.subtype == 7 || elem.subtype == 8 {
            None
        } else {
            Some(BuildFault::StringArraySubtype(elem.subtype))
        }
    } else if elem.ty <= T_VEC4 || elem.ty == T_ENUM || elem.ty == T_VEC3A || elem.ty == T_VEC4A
        || elem.ty == T_HFLOAT || elem.ty == T_LONG {
        None
    } else {
        Some(BuildFault::ElementType(elem.ty))
    }
}

/// `s` padded with zeros to `n` bytes.
pub open spec fn filled(s: Seq<u8>, n: int) -> Seq<u8> {
    s + crate::bytes::zeros(n - s.len())
}

/// The bytes of an element that holds its whole value in place.
pub open spec fn scalar_item(c: Context, elem: PsoEntryDef, v: ValueView) -> Option<Seq<u8>> {
    if elem.ty == T_STRING && elem.subtype == 0 {
        match crate::coerce::as_text(v) {
            Some(t) => Some(
                filled(
                    buffer_text(t, (elem.ref_key / 0x1_0000) as int),
                    (elem.ref_key / 0x1_0000) as int,
                ),
            ),
            None => None,
        }
    } else if elem.ty == T_STRING {
        match crate::coerce::as_hash(v) {
            Some(h) => Some(crate::bytes::be32_bytes(h)),
            None => None,
        }
    } else if elem.ty == T_F32 {
        match crate::coerce::as_single(v, c.floats) {
            Some(b) => Some(crate::bytes::be32_bytes(b)),
            None => None,
        }
    } else if elem.ty == T_VEC2 || elem.ty == T_VEC3 || elem.ty == T_VEC4 || elem.ty == T_VEC3A
        || elem.ty == T_VEC4A {
        match crate::coerce::as_vector(v, components(elem.ty), c.floats) {
            Some(a) => Some(
                filled(
                    vector_bytes(a, components(elem.ty)),
                    if elem.ty == T_VEC2 {
                        8
                    } else {
                        16
                    },
                ),
            ),
            None => None,
        }
    } else if elem.ty == T_ENUM {
        match crate::coerce::as_enum(v, enum_members(c, elem.ref_key), c.floats) {
            Some(x) => Some(crate::bytes::be32_bytes(x as u32)),
            None => None,
        }
    } else {
        match crate::coerce::as_integer(v, c.floats) {
            Some(n) => Some(
                integer_bytes(
                    n,
                    if elem.ty == T_BOOL || elem.ty == T_U8 || elem.ty == T_I8 {
                        1
                    } else if elem.ty == T_U16 || elem.ty == T_I16 || elem.ty == T_HFLOAT {
                        2
                    } else if elem.ty == T_LONG {
                        8
                    } else {
                        4
                    },
                ),
            ),
            None => None,
        }
    }
}

/// Whether elements hold their values in place.
pub open spec fn is_scalar_run(elem: PsoEntryDef) -> bool {
    elem.ty != T_STRUCT && !(elem.ty == T_STRING && (elem.subtype == 1 || elem.subtype == 2
        || elem.subtype == 3))
}

/// The text of a string element: empty for what is no text.
pub open spec fn item_text(v: ValueView) -> Seq<char> {
    match crate::coerce::as_text(v) {
        Some(t) => t,
        None => Seq::empty(),
    }
}

/// The number of structures: no chain of inline structures without a repeat
/// is longer.
pub open spec fn full_fuel(s: SchemaView) -> nat {
    s.pso_structs.dom().len()
}

/// The measure of the members of a structure, if there are any.
pub open spec fn struct_measure(fields: Option<Seq<(u32, ValueView)>>) -> nat {
    match fields {
        Some(f) => 2 * crate::value::fields_height(f) + 2,
        None => 0,
    }
}

/// The measure of a member's value, if there is one.
pub open spec fn member_measure(v: Option<ValueView>) -> nat {
    match v {
        Some(x) => 2 * crate::value::height(x) + 1,
        None => 0,
    }
}

/// The measure of the elements of an array.
pub open spec fn items_measure(items: Seq<ValueView>) -> nat {
    if items.len() == 0 {
        0
    } else {
        2 * crate::value::list_height(items) + 2
    }
}

/// The measure of the pairs of a map.
pub open spec fn pairs_measure(pairs: Seq<(ValueView, ValueView)>) -> nat {
    if pairs.len() == 0 {
        0
    } else {
        2 * crate::value::pairs_height(pairs) + 4
    }
}

/// The members of a structure, if there are any.
pub open spec fn member_value(fields: Option<Seq<(u32, ValueView)>>, name: u32) -> Option<ValueView> {
    match fields {
        Some(f) => crate::value::field_of(f, name),
        None => None,
    }
}

pub proof fn lemma_member_measure(fields: Option<Seq<(u32, ValueView)>>, name: u32)
    ensures
        member_measure(member_value(fields, name)) < struct_measure(fields) || (fields is None
            && member_measure(member_value(fields, name)) == 0),
{
    match fields {
        Some(f) => {
            crate::value::lemma_field_height(f, name);
        },
        None => {},
    }
}

/// The bytes of a structure of type `key`, each member at its place.
pub open spec fn write_struct(
    c: Context,
    key: u32,
    fields: Option<Seq<(u32, ValueView)>>,
    st: BuildState,
    fuel: nat,
) -> (Seq<u8>, BuildState)
    decreases struct_measure(fields), fuel, 5int, 0int,
{
    let def = c.schema.pso_structs[key];
    write_members(
        c,
        def,
        fields,
        crate::bytes::zeros(def.size as int),
        use_struct(st, def.name),
        fuel,
        def.entries.len(),
    )
}

/// The bytes of a structure with its first `k` members written, in schema
/// order.
pub open spec fn write_members(
    c: Context,
    def: PsoStructDefView,
    fields: Option<Seq<(u32, ValueView)>>,
    buf: Seq<u8>,
    st: BuildState,
    fuel: nat,
    k: nat,
) -> (Seq<u8>, BuildState)
    decreases struct_measure(fields), fuel, 4int, k,
{
    if k == 0 {
        (buf, st)
    } else {
        let before = write_members(c, def, fields, buf, st, fuel, (k - 1) as nat);
        let e = def.entries[k - 1];
        if e.name == ARRAYINFO {
            before
        } else {
            proof {
                lemma_member_measure(fields, e.name);
            }
            write_member(c, def, e, member_value(fields, e.name), before.0, before.1, fuel)
        }
    }
}

/// A structure with the member `e` written into it.
pub open spec fn write_member(
    c: Context,
    def: PsoStructDefView,
    e: PsoEntryDef,
    value: Option<ValueView>,
    buf: Seq<u8>,
    st: BuildState,
    fuel: nat,
) -> (Seq<u8>, BuildState)
    decreases member_measure(value), fuel, 3int, 0int,
{
    let off = e.offset as int;
    let v = value_or_null(value);
    let unfit = (
        buf,
        fault(
            st,
            def,
            e,
            BuildFault::DoesNotFit { at: off as u64, size: buf.len() as u64 },
        ),
    );
    let bad = (buf, mismatch(st, def, e, value));
    if plain_need(e) is Some {
        if off + plain_need(e)->0 > buf.len() {
            unfit
        } else {
            match plain_bytes(c, def, e, v) {
                None => bad,
                Some(b) => (crate::bytes::splice(buf, off, b), plain_used(c, st, def, e)),
            }
        }
    } else if e.ty == T_STRING {
        if e.subtype == 1 || e.subtype == 2 || e.subtype == 3 {
            if off + (if e.subtype == 3 {
                16int
            } else {
                8int
            }) > buf.len() {
                unfit
            } else {
                match crate::coerce::as_text(v) {
                    None => bad,
                    Some(t) => if t.len() == 0 {
                        (buf, st)
                    } else {
                        let r = add_string(st, t);
                        if e.subtype == 3 {
                            (put_counted(buf, off, r.1, vstd::utf8::encode_utf8(t).len() as int), r.0)
                        } else {
                            (crate::bytes::splice(buf, off, crate::bytes::be32_bytes(r.1)), r.0)
                        }
                    },
                }
            }
        } else {
            (buf, fault(st, def, e, BuildFault::StringSubtype(e.subtype)))
        }
    } else if e.ty == T_STRUCT {
        if !(v is Struct) && !(v is Null) {
            bad
        } else if e.subtype == 0 {
            if !c.schema.pso_structs.contains_key(e.ref_key) {
                (buf, fault(st, def, e, BuildFault::NoSchema(e.ref_key)))
            } else if off + c.schema.pso_structs[e.ref_key].size > buf.len() {
                unfit
            } else {
                match value {
                    Some(ValueView::Struct(s)) => {
                        let r = write_struct(
                            c,
                            e.ref_key,
                            Some(s.fields),
                            st,
                            full_fuel(c.schema),
                        );
                        (crate::bytes::splice(buf, off, r.0), r.1)
                    },
                    Some(_) => {
                        let r = write_struct(c, e.ref_key, None, st, full_fuel(c.schema));
                        (crate::bytes::splice(buf, off, r.0), r.1)
                    },
                    None => if fuel > 0 && !st.endless {
                        let r = write_struct(c, e.ref_key, None, st, (fuel - 1) as nat);
                        (crate::bytes::splice(buf, off, r.0), r.1)
                    } else {
                        (buf, BuildState { endless: true, ..st })
                    },
                }
            }
        } else if off + 8 > buf.len() {
            unfit
        } else {
            match value {
                Some(ValueView::Struct(s)) => {
                    let ty = pointee_type(c, s, e.ref_key);
                    if !c.schema.pso_structs.contains_key(ty) {
                        (buf, fault(st, def, e, BuildFault::NoSchema(ty)))
                    } else {
                        let r = write_struct(c, ty, Some(s.fields), st, full_fuel(c.schema));
                        let a = add_item(r.1, c.schema.pso_structs[ty].name, r.0);
                        (crate::bytes::splice(buf, off, crate::bytes::be32_bytes(a.1)), a.0)
                    }
                },
                _ => (buf, st),
            }
        }
    } else if e.ty == T_ARRAY {
        match array_info(def, e) {
            None => (buf, fault(st, def, e, BuildFault::NoArrayInfo)),
            Some(elem) => if !is_list(v) {
                bad
            } else if e.subtype == 0 || (e.subtype == 4 && elem.subtype == 3) {
                if off + 16 > buf.len() {
                    unfit
                } else if items_of(v).len() == 0 {
                    (buf, st)
                } else {
                    let r = element_run(c, def, e, elem, items_of(v), st, fuel);
                    match r.0 {
                        None => (buf, r.1),
                        Some(run) => {
                            let a = add_item(r.1, run_block(c, elem), run);
                            (put_counted(buf, off, a.1, items_of(v).len() as int), a.0)
                        },
                    }
                }
            } else {
                let count = crate::resource::least(items_of(v).len() as int, (e.ref_key / 0x1_0000) as int);
                proof {
                    lemma_take_measure(items_of(v), count);
                }
                let r = element_run(c, def, e, elem, items_of(v).take(count), st, fuel);
                match r.0 {
                    None => (buf, r.1),
                    Some(run) => if off + run.len() > buf.len() {
                        (
                            buf,
                            fault(
                                r.1,
                                def,
                                e,
                                BuildFault::DoesNotFit { at: off as u64, size: buf.len() as u64 },
                            ),
                        )
                    } else {
                        (crate::bytes::splice(buf, off, run), r.1)
                    },
                }
            },
        }
    } else if e.ty == T_MAP {
        let idx = (e.ref_key % 0x1_0000) as int;
        let pair_type = if idx < def.entries.len() {
            def.entries[idx].ref_key
        } else {
            0
        };
        let marked = crate::bytes::splice(buf, off, crate::bytes::be32_bytes(0x0100_0000));
        if e.subtype != 1 {
            (buf, fault(st, def, e, BuildFault::MapSubtype(e.subtype)))
        } else if off + 24 > buf.len() {
            unfit
        } else if !(v is Pairs) && !(v is Null) {
            bad
        } else if pairs_of(v).len() == 0 {
            (marked, st)
        } else if !c.schema.pso_structs.contains_key(pair_type) {
            (marked, fault(st, def, e, BuildFault::NoPairSchema(pair_type)))
        } else {
            let r = pairs_run(c, pair_type, pairs_of(v), st, fuel, pairs_of(v).len());
            let a = add_item(r.1, pair_type, r.0);
            let n = pairs_of(v).len();
            (
                crate::bytes::splice(
                    crate::bytes::splice(
                        crate::bytes::splice(marked, off + 8, crate::bytes::be32_bytes(a.1)),
                        off + 16,
                        crate::bytes::be16_bytes(n as u16),
                    ),
                    off + 18,
                    crate::bytes::be16_bytes(n as u16),
                ),
                a.0,
            )
        }
    } else {
        (buf, fault(st, def, e, BuildFault::MemberType(e.ty)))
    }
}

/// Whether a value can stand for a list: an array, nothing, or blank text.
pub open spec fn is_list(v: ValueView) -> bool {
    match v {
        ValueView::Array(_) => true,
        ValueView::Null => true,
        ValueView::Str(s) => crate::chars::trimmed(s).len() == 0,
        _ => false,
    }
}

/// The items of a value that stands for a list.
pub open spec fn items_of(v: ValueView) -> Seq<ValueView> {
    match v {
        ValueView::Array(a) => a.items,
        _ => Seq::empty(),
    }
}

/// The pairs of a value that stands for a map.
pub open spec fn pairs_of(v: ValueView) -> Seq<(ValueView, ValueView)> {
    match v {
        ValueView::Pairs(p) => p,
        _ => Seq::empty(),
    }
}

pub proof fn lemma_take_measure(items: Seq<ValueView>, n: int)
    requires
        0 <= n <= items.len(),
    ensures
        items_measure(items.take(n)) <= items_measure(items),
    decreases items.len() - n,
{
    if n < items.len() {
        lemma_take_measure(items, n + 1);
        assert(items.take(n + 1).drop_last() =~= items.take(n));
    } else {
        assert(items.take(n) =~= items);
    }
}

/// The bytes of an array's elements, unless they cannot be written.
pub open spec fn element_run(
    c: Context,
    def: PsoStructDefView,
    e: PsoEntryDef,
    elem: PsoEntryDef,
    items: Seq<ValueView>,
    st: BuildState,
    fuel: nat,
) -> (Option<Seq<u8>>, BuildState)
    decreases items_measure(items), fuel, 2int, 0int,
{
    match run_refused(c, elem) {
        Some(f) => (None, fault(st, def, e, f)),
        None => items_run(
            c,
            def,
            e,
            elem,
            items,
            if elem.ty == T_ENUM {
                use_enum(c, st, elem.ref_key)
            } else {
                st
            },
            items.len(),
        ),
    }
}

/// The bytes of the first `k` elements. An element that is not of the kind
/// that the array holds in place leaves nothing of it.
pub open spec fn items_run(
    c: Context,
    def: PsoStructDefView,
    e: PsoEntryDef,
    elem: PsoEntryDef,
    items: Seq<ValueView>,
    st: BuildState,
    k: nat,
) -> (Option<Seq<u8>>, BuildState)
    decreases items_measure(items), 0nat, 1int, k,
{
    if k == 0 || k > items.len() {
        (Some(Seq::empty()), st)
    } else {
        let before = items_run(c, def, e, elem, items, st, (k - 1) as nat);
        proof {
            crate::value::lemma_item_height(items, k - 1);
        }
        match before.0 {
            None => before,
            Some(run) => {
                let r = write_item(c, def, e, elem, items[k - 1], before.1);
                match r.0 {
                    None => (None, r.1),
                    Some(b) => (Some(run + b), r.1),
                }
            },
        }
    }
}

/// The bytes of one element, which may be a pointer to what is stored
/// elsewhere.
pub open spec fn write_item(
    c: Context,
    def: PsoStructDefView,
    e: PsoEntryDef,
    elem: PsoEntryDef,
    item: ValueView,
    st: BuildState,
) -> (Option<Seq<u8>>, BuildState)
    decreases 2 * crate::value::height(item) + 1, 0nat, 0int, 0int,
{
    if is_scalar_run(elem) {
        (scalar_item(c, elem, item), st)
    } else if elem.ty == T_STRING {
        let t = item_text(item);
        let size: int = if elem.subtype == 3 {
            16
        } else {
            8
        };
        if t.len() == 0 {
            (Some(crate::bytes::zeros(size)), st)
        } else {
            let r = add_string(st, t);
            if elem.subtype == 3 {
                (Some(put_counted(crate::bytes::zeros(16), 0, r.1, vstd::utf8::encode_utf8(t).len() as int)), r.0)
            } else {
                (Some(crate::bytes::splice(crate::bytes::zeros(8), 0, crate::bytes::be32_bytes(r.1))), r.0)
            }
        }
    } else if elem.subtype == 3 {
        match item {
            ValueView::Struct(s) => {
                let ty = pointee_type(c, s, elem.ref_key);
                if c.schema.pso_structs.contains_key(ty) {
                    let r = write_struct(c, ty, Some(s.fields), st, full_fuel(c.schema));
                    let a = add_item(r.1, c.schema.pso_structs[ty].name, r.0);
                    (Some(crate::bytes::splice(crate::bytes::zeros(8), 0, crate::bytes::be32_bytes(a.1))), a.0)
                } else {
                    (Some(crate::bytes::zeros(8)), fault(st, def, e, BuildFault::NoSchema(ty)))
                }
            },
            _ => (Some(crate::bytes::zeros(8)), st),
        }
    } else {
        match item {
            ValueView::Struct(s) => {
                let r = write_struct(
                    c,
                    elem.ref_key,
                    Some(s.fields),
                    st,
                    full_fuel(c.schema),
                );
                (Some(r.0), r.1)
            },
            ValueView::Null => {
                let r = write_struct(c, elem.ref_key, None, st, full_fuel(c.schema));
                (Some(r.0), r.1)
            },
            _ => {
                let noted = BuildState {
                    warnings: crate::build_warning::warned(
                        st.warnings,
                        BuildWarningView::Element {
                            structure: def.name,
                            member: e.name,
                            value: item,
                        },
                    ),
                    ..st
                };
                let r = write_struct(c, elem.ref_key, None, noted, full_fuel(c.schema));
                (Some(r.0), r.1)
            },
        }
    }
}

/// The names of the first members of a structure that are no element
/// descriptors, among the first `k`.
pub open spec fn named_members(entries: Seq<PsoEntryDef>, k: nat) -> Seq<u32>
    decreases k,
{
    if k == 0 {
        Seq::empty()
    } else if entries[k - 1].name == ARRAYINFO {
        named_members(entries, (k - 1) as nat)
    } else {
        named_members(entries, (k - 1) as nat).push(entries[k - 1].name)
    }
}

/// A map pair as the members of its structure: the key as the first, the
/// value as the second.
pub open spec fn pair_fields(
    names: Seq<u32>,
    pair: (ValueView, ValueView),
) -> Seq<(u32, ValueView)> {
    if names.len() == 0 {
        Seq::empty()
    } else if names.len() == 1 {
        seq![(names[0], pair.0)]
    } else {
        seq![(names[0], pair.0), (names[1], pair.1)]
    }
}

pub proof fn lemma_pair_measure(names: Seq<u32>, pairs: Seq<(ValueView, ValueView)>, i: int)
    requires
        0 <= i < pairs.len(),
    ensures
        struct_measure(Some(pair_fields(names, pairs[i]))) < pairs_measure(pairs),
{
    crate::value::lemma_pair_height(pairs, i);
    let f = pair_fields(names, pairs[i]);
    reveal_with_fuel(crate::value::fields_height, 3);
    if f.len() == 1 {
        assert(f.drop_last() =~= Seq::<(u32, ValueView)>::empty());
    } else if f.len() == 2 {
        assert(f.drop_last() =~= seq![(names[0], pairs[i].0)]);
        assert(f.drop_last().drop_last() =~= Seq::<(u32, ValueView)>::empty());
    }
}

/// The bytes of the first `k` pairs of a map.
pub open spec fn pairs_run(
    c: Context,
    pair_type: u32,
    pairs: Seq<(ValueView, ValueView)>,
    st: BuildState,
    fuel: nat,
    k: nat,
) -> (Seq<u8>, BuildState)
    decreases pairs_measure(pairs), fuel, 1int, k,
{
    if k == 0 || k > pairs.len() {
        (Seq::empty(), st)
    } else {
        let before = pairs_run(c, pair_type, pairs, st, fuel, (k - 1) as nat);
        let entries = c.schema.pso_structs[pair_type].entries;
        let names = named_members(entries, entries.len());
        proof {
            lemma_pair_measure(names, pairs, k - 1);
        }
        let r = write_struct(
            c,
            pair_type,
            Some(pair_fields(names, pairs[k - 1])),
            before.1,
            full_fuel(c.schema),
        );
        (before.0 + r.0, r.1)
    }
}

// ─── assembling ──────────────────────────────────────────────────────────────

/// A section: its name, its length with this header, its contents.
pub open spec fn section(ident: u32, body: Seq<u8>) -> Seq<u8> {
    crate::bytes::be32_bytes(ident) + crate::bytes::be32_bytes((8 + body.len()) as u32) + body
}

/// The bytes of the first `k` blocks, back to back.
pub open spec fn blocks_data(blocks: Seq<(u32, Seq<u8>)>, k: nat) -> Seq<u8>
    decreases k,
{
    if k == 0 {
        Seq::empty()
    } else {
        blocks_data(blocks, (k - 1) as nat) + blocks[k - 1].1
    }
}

/// The records of the first `k` blocks.
pub open spec fn block_records(blocks: Seq<(u32, Seq<u8>)>, k: nat) -> Seq<u8>
    decreases k,
{
    if k == 0 {
        Seq::empty()
    } else {
        block_records(blocks, (k - 1) as nat) + crate::bytes::be32_bytes(blocks[k - 1].0) + crate::bytes::be32_bytes(
            (16 + blocks_data(blocks, (k - 1) as nat).len()) as u32,
        ) + crate::bytes::zeros(4) + crate::bytes::be32_bytes(blocks[k - 1].1.len() as u32)
    }
}

/// The records of the first `k` members.
pub open spec fn member_records(entries: Seq<PsoEntryDef>, k: nat) -> Seq<u8>
    decreases k,
{
    if k == 0 {
        Seq::empty()
    } else {
        let e = entries[k - 1];
        member_records(entries, (k - 1) as nat) + crate::bytes::be32_bytes(e.name) + seq![e.ty, e.subtype]
            + crate::bytes::be16_bytes(e.offset) + crate::bytes::be32_bytes(e.ref_key)
    }
}

/// The records of the first `k` enum members.
pub open spec fn enumerator_records(entries: Seq<(u32, i32)>, k: nat) -> Seq<u8>
    decreases k,
{
    if k == 0 {
        Seq::empty()
    } else {
        enumerator_records(entries, (k - 1) as nat) + crate::bytes::be32_bytes(entries[k - 1].0) + crate::bytes::be32_bytes(
            entries[k - 1].1 as u32,
        )
    }
}

/// The record of a structure definition.
pub open spec fn struct_record(d: PsoStructDefView) -> Seq<u8> {
    crate::bytes::be32_bytes(((0x1_0000 * d.unk) as u32) | (d.entries.len() as u32)) + crate::bytes::be32_bytes(d.size) + crate::bytes::zeros(
        4,
    ) + member_records(d.entries, d.entries.len())
}

/// The record of an enum definition.
pub open spec fn enum_record(d: PsoEnumDefView) -> Seq<u8> {
    crate::bytes::be32_bytes(0x100_0000u32 | (d.entries.len() as u32)) + enumerator_records(
        d.entries,
        d.entries.len(),
    )
}

/// The names and records of the definitions of the first `k` used
/// structures.
pub open spec fn struct_parts(c: Context, used: Seq<u32>, k: nat) -> Seq<(u32, Seq<u8>)>
    decreases k,
{
    if k == 0 {
        Seq::empty()
    } else {
        let before = struct_parts(c, used, (k - 1) as nat);
        if c.schema.pso_structs.contains_key(used[k - 1]) {
            let d = c.schema.pso_structs[used[k - 1]];
            before.push((d.name, struct_record(d)))
        } else {
            before
        }
    }
}

/// The names and records of the definitions of the first `k` used enums.
pub open spec fn enum_parts(c: Context, used: Seq<u32>, k: nat) -> Seq<(u32, Seq<u8>)>
    decreases k,
{
    if k == 0 {
        Seq::empty()
    } else {
        let before = enum_parts(c, used, (k - 1) as nat);
        if c.schema.pso_enums.contains_key(used[k - 1]) {
            let d = c.schema.pso_enums[used[k - 1]];
            before.push((d.name, enum_record(d)))
        } else {
            before
        }
    }
}

/// The index entries of the first `k` definitions of `parts`.
pub open spec fn index_records(parts: Seq<(u32, Seq<u8>)>, k: nat) -> Seq<u8>
    decreases k,
{
    if k == 0 {
        Seq::empty()
    } else {
        index_records(parts, (k - 1) as nat) + crate::bytes::be32_bytes(parts[k - 1].0) + crate::bytes::be32_bytes(
            ((12 + 8 * parts.len()) as u32).wrapping_add(
                blocks_data(parts, (k - 1) as nat).len() as u32,
            ),
        )
    }
}

/// The definitions that a file carries.
pub open spec fn schema_parts(c: Context, st: BuildState) -> Seq<(u32, Seq<u8>)> {
    struct_parts(c, st.used_structs, st.used_structs.len()) + enum_parts(
        c,
        st.used_enums,
        st.used_enums.len(),
    )
}

/// The whole file: the data, the block table, the schema.
pub open spec fn assembled(c: Context, st: BuildState, root_id: u32) -> Seq<u8> {
    let parts = schema_parts(c, st);
    section(SECTION_PSIN, crate::bytes::zeros(8) + blocks_data(st.blocks, st.blocks.len())) + section(
        SECTION_PMAP,
        crate::bytes::be32_bytes(root_id) + crate::bytes::be16_bytes(st.blocks.len() as u16) + crate::bytes::be16_bytes(0x7070)
            + block_records(st.blocks, st.blocks.len()),
    ) + section(
        SECTION_PSCH,
        crate::bytes::be32_bytes(parts.len() as u32) + index_records(parts, parts.len()) + blocks_data(
            parts,
            parts.len(),
        ),
    )
}

/// A build that has not begun.
pub open spec fn fresh() -> BuildState {
    BuildState {
        blocks: Seq::empty(),
        used_structs: Seq::empty(),
        used_enums: Seq::empty(),
        warnings: Seq::empty(),
        endless: false,
    }
}

/// Whether a structure that has to be written with its defaults holds itself.
pub open spec fn endless(c: Context, root: StructView) -> bool {
    write_struct(c, root.type_hash, Some(root.fields), fresh(), full_fuel(c.schema)).1.endless
}

/// What a tree builds to: the file and the warnings.
pub open spec fn built(c: Context, root: StructView) -> (Seq<u8>, Seq<BuildWarningView>) {
    let r = write_struct(c, root.type_hash, Some(root.fields), fresh(), full_fuel(c.schema));
    let a = add_item(r.1, c.schema.pso_structs[root.type_hash].name, r.0);
    (assembled(c, a.0, (a.1 % 0x1000) as u32), a.0.warnings)
}

// ─── the writer ──────────────────────────────────────────────────────────────

struct Block {
    name: u32,
    data: Vec<u8>,
}

struct Builder<'s> {
    schema: &'s Schema,
    floats: &'s FloatTexts,
    /// How many structures the schema has.
    full: usize,
    blocks: Vec<Block>,
    used_structs: Vec<u32>,
    used_enums: Vec<u32>,
    warnings: Vec<BuildWarning>,
    /// Whether a structure held itself.
    endless: bool,
}

spec fn blocks_of(blocks: Seq<Block>) -> Seq<(u32, Seq<u8>)> {
    Seq::new(blocks.len(), |i: int| (blocks[i].name, blocks[i].data@))
}

spec fn fields_of(value: Option<&MetaStruct>) -> Option<Seq<(u32, ValueView)>> {
    match value {
        Some(s) => Some(s@.fields),
        None => None,
    }
}

spec fn value_of(value: Option<&MetaValue>) -> Option<ValueView> {
    match value {
        Some(v) => Some(v@),
        None => None,
    }
}

/// Adds `x` to a list that does not hold it yet.
pub(crate) fn add_once(list: &mut Vec<u32>, x: u32)
    ensures
        final(list)@ == with_once(old(list)@, x),
{
    let ghost before = list@;
    let mut i: usize = 0;
    while i < list.len()
        invariant
            i <= list@.len(),
            list@ == before,
            before == old(list)@,
            forall|k: int| 0 <= k < i ==> before[k] != x,
        decreases list@.len() - i,
    {
        if list[i] == x {
            assert(before.contains(x));
            return;
        }
        i += 1;
    }
    assert(!before.contains(x));
    list.push(x);
}

fn pso_pointer(block: usize, offset: usize) -> (r: u32)
    ensures
        r == pointer(block as int, offset as int),
{
    ((block as u128 + 1) % 0x1000 + 0x1000 * (offset as u128 % 0x10_0000)) as u32
}

fn type_kind(ty: u8) -> (r: ValueKind)
    ensures
        r == kind_of(ty),
{
    if ty == T_BOOL {
        ValueKind::Boolean
    } else if ty == T_I8 || ty == T_U8 || ty == T_I16 || ty == T_U16 || ty == T_I32 || ty == T_U32
        || ty == T_LONG || ty == T_HFLOAT {
        ValueKind::Integer
    } else if ty == T_F32 {
        ValueKind::Float
    } else if ty == T_VEC2 {
        ValueKind::Vector2
    } else if ty == T_VEC3 || ty == T_VEC3A {
        ValueKind::Vector3
    } else if ty == T_VEC4 || ty == T_VEC4A {
        ValueKind::Vector4
    } else if ty == T_STRING {
        ValueKind::Name
    } else if ty == T_ENUM {
        ValueKind::EnumMember
    } else if ty == T_FLAGS {
        ValueKind::FlagSet
    } else if ty == T_STRUCT {
        ValueKind::Structure
    } else if ty == T_ARRAY {
        ValueKind::Array
    } else if ty == T_MAP {
        ValueKind::Pairs
    } else {
        ValueKind::Value
    }
}

fn vector_parts(ty: u8) -> (n: usize)
    ensures
        n == components(ty),
        2 <= n <= 4,
{
    if ty == T_VEC2 {
        2
    } else if ty == T_VEC3 || ty == T_VEC3A {
        3
    } else {
        4
    }
}

fn push_vector(out: &mut Vec<u8>, a: Vec4, n: usize)
    requires
        2 <= n <= 4,
    ensures
        final(out)@ == old(out)@ + vector_bytes(a, n as int),
{
    let ghost start = out@;
    push_u32_be(out, a.x);
    push_u32_be(out, a.y);
    if n >= 3 {
        push_u32_be(out, a.z);
    }
    if n >= 4 {
        push_u32_be(out, a.w);
    }
    assert(out@ =~= start + vector_bytes(a, n as int));
}

fn number_bytes(n: i64, size: usize) -> (out: Vec<u8>)
    ensures
        out@ == integer_bytes(n, size as int),
{
    let mut out: Vec<u8> = Vec::new();
    if size == 1 {
        out.push(n as u8);
        assert(out@ =~= seq![n as u8]);
    } else if size == 2 {
        push_u16_be(&mut out, n as u16);
        assert(out@ =~= crate::bytes::be16_bytes(n as u16));
    } else if size == 4 {
        push_u32_be(&mut out, n as u32);
        assert(out@ =~= crate::bytes::be32_bytes(n as u32));
    } else {
        let w = n as u64;
        push_u32_be(&mut out, (w / 0x1_0000_0000) as u32);
        push_u32_be(&mut out, (w % 0x1_0000_0000) as u32);
        assert(out@ =~= crate::bytes::be64_bytes(n as u64));
    }
    out
}

fn small_bytes(n: u32, size: usize) -> (out: Vec<u8>)
    ensures
        out@ == sized_bytes(n, size as int),
{
    let mut out: Vec<u8> = Vec::new();
    if size == 4 {
        push_u32_be(&mut out, n);
        assert(out@ =~= crate::bytes::be32_bytes(n));
    } else if size == 2 {
        push_u16_be(&mut out, n as u16);
        assert(out@ =~= crate::bytes::be16_bytes(n as u16));
    } else {
        out.push(n as u8);
        assert(out@ =~= seq![n as u8]);
    }
    out
}

fn word_bytes(n: u32) -> (out: Vec<u8>)
    ensures
        out@ == crate::bytes::be32_bytes(n),
{
    let mut out: Vec<u8> = Vec::new();
    push_u32_be(&mut out, n);
    assert(out@ =~= crate::bytes::be32_bytes(n));
    out
}

fn flag_size(subtype: u8) -> (n: usize)
    ensures
        n == enum_size(subtype),
        1 <= n <= 4,
{
    if subtype == 0 {
        4
    } else if subtype == 1 {
        2
    } else {
        1
    }
}

/// How many bytes a plain member needs.
fn need_of(e: &PsoEntryDef) -> (r: Option<usize>)
    ensures
        plain_need(*e) == (match r {
            Some(n) => Some(n as int),
            None => None,
        }),
        r is Some ==> r->0 <= 0xFFFF,
{
    if e.ty == T_BOOL || e.ty == T_I8 || e.ty == T_U8 {
        Some(1)
    } else if e.ty == T_I16 || e.ty == T_U16 || e.ty == T_HFLOAT {
        Some(2)
    } else if e.ty == T_I32 || e.ty == T_U32 || e.ty == T_F32 {
        Some(4)
    } else if e.ty == T_LONG {
        Some(8)
    } else if e.ty == T_VEC2 || e.ty == T_VEC3 || e.ty == T_VEC4 || e.ty == T_VEC3A || e.ty
        == T_VEC4A {
        Some(4 * vector_parts(e.ty))
    } else if e.ty == T_STRING && e.subtype == 0 {
        Some((e.ref_key / 0x1_0000) as usize)
    } else if e.ty == T_STRING && (e.subtype == 7 || e.subtype == 8) {
        Some(4)
    } else if e.ty == T_ENUM || e.ty == T_FLAGS {
        Some(flag_size(e.subtype))
    } else {
        None
    }
}

/// The text of a fixed buffer of `len` bytes.
pub(crate) fn buffer_bytes(s: &String, len: usize) -> (out: Vec<u8>)
    ensures
        out@ == buffer_text(s@, len as int),
{
    let bytes = s.as_str().as_bytes();
    let room: usize = if len > 0 {
        len - 1
    } else {
        0
    };
    let n: usize = if bytes.len() < room {
        bytes.len()
    } else {
        room
    };
    let mut out: Vec<u8> = Vec::new();
    push_bytes(&mut out, slice_subrange(bytes, 0, n));
    assert(out@ =~= buffer_text(s@, len as int));
    out
}

fn put_word(buf: &mut Vec<u8>, at: usize, v: u32)
    requires
        at + 4 <= old(buf)@.len(),
    ensures
        final(buf)@ == crate::bytes::splice(old(buf)@, at as int, crate::bytes::be32_bytes(v)),
{
    let w = word_bytes(v);
    put_bytes(buf, at, w.as_slice());
}

fn put_half(buf: &mut Vec<u8>, at: usize, v: u16)
    requires
        at + 2 <= old(buf)@.len(),
    ensures
        final(buf)@ == crate::bytes::splice(old(buf)@, at as int, crate::bytes::be16_bytes(v)),
{
    let mut w: Vec<u8> = Vec::new();
    push_u16_be(&mut w, v);
    assert(w@ =~= crate::bytes::be16_bytes(v));
    put_bytes(buf, at, w.as_slice());
}

fn put_counted_pointer(buf: &mut Vec<u8>, at: usize, ptr: u32, count: usize)
    requires
        at + 16 <= old(buf)@.len(),
    ensures
        final(buf)@ == put_counted(old(buf)@, at as int, ptr, count as int),
{
    assert(at + 16 <= buf.len());
    put_word(buf, at, ptr);
    put_half(buf, at + 8, count as u16);
    put_half(buf, at + 10, count as u16);
}

/// `n` zeros.
pub(crate) fn zero_bytes(n: usize) -> (out: Vec<u8>)
    ensures
        out@ == crate::bytes::zeros(n as int),
{
    let mut out: Vec<u8> = Vec::new();
    pad_to(&mut out, n);
    assert(out@ =~= crate::bytes::zeros(n as int));
    out
}

impl<'s> Builder<'s> {
    spec fn ctx(self) -> Context {
        Context { schema: self.schema@, floats: self.floats@ }
    }

    spec fn st(self) -> BuildState {
        BuildState {
            blocks: blocks_of(self.blocks@),
            used_structs: self.used_structs@,
            used_enums: self.used_enums@,
            warnings: crate::build_warning::warnings_view(self.warnings@),
            endless: self.endless,
        }
    }

    spec fn ok(self) -> bool {
        &&& self.full == full_fuel(self.schema@)
    }

    /// What the writer works from stays what it was.
    spec fn kept(self, before: Self) -> bool {
        &&& self.schema == before.schema
        &&& self.floats == before.floats
        &&& self.full == before.full
    }

    fn use_struct(&mut self, name: u32)
        ensures
            final(self).kept(*old(self)),
            final(self).st() == use_struct(old(self).st(), name),
    {
        add_once(&mut self.used_structs, name);
    }

    fn use_enum(&mut self, name: u32)
        ensures
            final(self).kept(*old(self)),
            final(self).st() == use_enum(old(self).ctx(), old(self).st(), name),
    {
        if self.schema.pso_enums.contains_key(&name) {
            add_once(&mut self.used_enums, name);
        }
    }

    fn fault(&mut self, def: &PsoStructDef, e: &PsoEntryDef, f: BuildFault)
        ensures
            final(self).kept(*old(self)),
            final(self).st() == fault(old(self).st(), def@, *e, f),
    {
        warn_once(
            &mut self.warnings,
            BuildWarning::Fault { structure: def.name, member: e.name, fault: f },
        );
    }

    fn mismatch(&mut self, def: &PsoStructDef, e: &PsoEntryDef, v: Option<&MetaValue>)
        ensures
            final(self).kept(*old(self)),
            final(self).st() == mismatch(old(self).st(), def@, *e, value_of(v)),
    {
        match v {
            Some(value) => {
                warn_once(
                    &mut self.warnings,
                    BuildWarning::Mismatch {
                        structure: def.name,
                        member: e.name,
                        wanted: type_kind(e.ty),
                        value: value.copy(),
                    },
                );
            },
            None => {},
        }
    }

    fn add_item(&mut self, name: u32, bytes: &[u8]) -> (r: u32)
        ensures
            final(self).kept(*old(self)),
            (final(self).st(), r) == add_item(old(self).st(), name, bytes@),
    {
        let ghost before = self.st();
        let ghost blocks = blocks_of(self.blocks@);
        let need = bytes.len();
        let mut i: usize = 0;
        while i < self.blocks.len()
            invariant
                i <= self.blocks@.len(),
                *self == *old(self),
                before == self.st(),
                blocks == blocks_of(self.blocks@),
                need == bytes@.len(),
                block_for(blocks, name, need as int, 0) == block_for(
                    blocks,
                    name,
                    need as int,
                    i as int,
                ),
            decreases self.blocks@.len() - i,
        {
            assert(blocks[i as int] == (self.blocks@[i as int].name, self.blocks@[i as int].data@));
            if self.blocks[i].name == name && need <= MAX_BLOCK && self.blocks[i].data.len()
                <= MAX_BLOCK - need {
                let offset = self.blocks[i].data.len();
                push_bytes(&mut self.blocks[i].data, bytes);
                assert(blocks_of(self.blocks@) =~= blocks.update(
                    i as int,
                    (name, blocks[i as int].1 + bytes@),
                ));
                return pso_pointer(i, offset);
            }
            i += 1;
        }
        let data = crate::bytes::to_vec(bytes);
        self.blocks.push(Block { name, data });
        assert(blocks_of(self.blocks@) =~= blocks.push((name, bytes@)));
        pso_pointer(i, 0)
    }

    fn add_string(&mut self, s: &String) -> (r: u32)
        ensures
            final(self).kept(*old(self)),
            (final(self).st(), r) == add_string(old(self).st(), s@),
    {
        let mut bytes = crate::bytes::to_vec(s.as_str().as_bytes());
        bytes.push(0);
        assert(bytes@ =~= vstd::utf8::encode_utf8(s@).push(0));
        self.add_item(B_STRING, bytes.as_slice())
    }

    fn members(&self, name: u32) -> (r: Vec<(u32, i32)>)
        ensures
            r@ == enum_members(self.ctx(), name),
    {
        let mut out: Vec<(u32, i32)> = Vec::new();
        match self.schema.pso_enums.get(&name) {
            Some(d) => {
                let mut i: usize = 0;
                while i < d.entries.len()
                    invariant
                        i <= d.entries@.len(),
                        out@ == d.entries@.take(i as int),
                    decreases d.entries@.len() - i,
                {
                    out.push(d.entries[i]);
                    i += 1;
                    assert(out@ =~= d.entries@.take(i as int));
                }
                assert(out@ =~= d.entries@);
            },
            None => {},
        }
        out
    }

    fn flags_enum(def: &PsoStructDef, e: &PsoEntryDef) -> (r: u32)
        ensures
            r == flags_enum(def@, *e),
    {
        let idx = (e.ref_key % 0x1000) as usize;
        if idx < def.entries.len() {
            def.entries[idx].ref_key
        } else {
            0
        }
    }

    fn array_info(def: &PsoStructDef, e: &PsoEntryDef) -> (r: Option<PsoEntryDef>)
        ensures
            r == array_info(def@, *e),
    {
        let wide = (e.ref_key % 0x1_0000) as usize;
        let narrow = (e.ref_key % 0x1000) as usize;
        if wide < def.entries.len() {
            Some(def.entries[wide])
        } else if narrow < def.entries.len() {
            Some(def.entries[narrow])
        } else {
            None
        }
    }

    #[verifier::rlimit(60)]
    #[verifier::spinoff_prover]
    fn plain_bytes(&self, def: &PsoStructDef, e: &PsoEntryDef, v: &MetaValue) -> (r: Option<Vec<u8>>)
        requires
            plain_need(*e) is Some,
        ensures
            crate::coerce::opt_bytes(r) == plain_bytes(self.ctx(), def@, *e, v@),
            r is Some ==> r->0@.len() <= plain_need(*e)->0,
    {
        if e.ty == T_F32 {
            match float_of(v, self.floats) {
                Some(b) => Some(word_bytes(b)),
                None => None,
            }
        } else if e.ty == T_VEC2 || e.ty == T_VEC3 || e.ty == T_VEC4 || e.ty == T_VEC3A || e.ty
            == T_VEC4A {
            let n = vector_parts(e.ty);
            match vec_of(v, n, self.floats) {
                Some(a) => {
                    let mut out: Vec<u8> = Vec::new();
                    push_vector(&mut out, a, n);
                    assert(out@ =~= vector_bytes(a, n as int));
                    Some(out)
                },
                None => None,
            }
        } else if e.ty == T_STRING && e.subtype == 0 {
            match str_of(v) {
                Some(s) => Some(buffer_bytes(&s, (e.ref_key / 0x1_0000) as usize)),
                None => None,
            }
        } else if e.ty == T_STRING {
            match hash_of(v) {
                Some(h) => Some(word_bytes(h)),
                None => None,
            }
        } else if e.ty == T_ENUM {
            let members = self.members(e.ref_key);
            match enum_value(v, members.as_slice(), self.floats) {
                Some(x) => Some(small_bytes(x as u32, flag_size(e.subtype))),
                None => None,
            }
        } else if e.ty == T_FLAGS {
            let members = self.members(Self::flags_enum(def, e));
            match flags_bits(v, members.as_slice(), self.floats) {
                Some(b) => Some(small_bytes(b, flag_size(e.subtype))),
                None => None,
            }
        } else {
            let need: usize = match need_of(e) {
                Some(n) => n,
                None => 0,
            };
            match int_of(v, self.floats) {
                Some(n) => Some(number_bytes(n, need)),
                None => None,
            }
        }
    }

    fn scalar_item(&self, elem: &PsoEntryDef, v: &MetaValue) -> (r: Option<Vec<u8>>)
        ensures
            crate::coerce::opt_bytes(r) == scalar_item(self.ctx(), *elem, v@),
    {
        if elem.ty == T_STRING && elem.subtype == 0 {
            let stride = (elem.ref_key / 0x1_0000) as usize;
            match str_of(v) {
                Some(s) => {
                    let mut out = buffer_bytes(&s, stride);
                    pad_to(&mut out, stride);
                    Some(out)
                },
                None => None,
            }
        } else if elem.ty == T_STRING {
            match hash_of(v) {
                Some(h) => Some(word_bytes(h)),
                None => None,
            }
        } else if elem.ty == T_F32 {
            match float_of(v, self.floats) {
                Some(b) => Some(word_bytes(b)),
                None => None,
            }
        } else if elem.ty == T_VEC2 || elem.ty == T_VEC3 || elem.ty == T_VEC4 || elem.ty == T_VEC3A
            || elem.ty == T_VEC4A {
            let n = vector_parts(elem.ty);
            match vec_of(v, n, self.floats) {
                Some(a) => {
                    let mut out: Vec<u8> = Vec::new();
                    push_vector(&mut out, a, n);
                    assert(out@ =~= vector_bytes(a, n as int));
                    let size: usize = if elem.ty == T_VEC2 {
                        8
                    } else {
                        16
                    };
                    pad_to(&mut out, size);
                    Some(out)
                },
                None => None,
            }
        } else if elem.ty == T_ENUM {
            let members = self.members(elem.ref_key);
            match enum_value(v, members.as_slice(), self.floats) {
                Some(x) => Some(word_bytes(x as u32)),
                None => None,
            }
        } else {
            let size: usize = if elem.ty == T_BOOL || elem.ty == T_U8 || elem.ty == T_I8 {
                1
            } else if elem.ty == T_U16 || elem.ty == T_I16 || elem.ty == T_HFLOAT {
                2
            } else if elem.ty == T_LONG {
                8
            } else {
                4
            };
            match int_of(v, self.floats) {
                Some(n) => Some(number_bytes(n, size)),
                None => None,
            }
        }
    }

    fn write_struct(&mut self, key: u32, value: Option<&MetaStruct>, fuel: usize) -> (out: Vec<u8>)
        requires
            old(self).ok(),
            old(self).schema@.pso_structs.contains_key(key),
        ensures
            final(self).kept(*old(self)),
            (out@, final(self).st()) == write_struct(
                old(self).ctx(),
                key,
                fields_of(value),
                old(self).st(),
                fuel as nat,
            ),
            out@.len() == old(self).schema@.pso_structs[key].size,
        decreases struct_measure(fields_of(value)), fuel, 5int, 0int,
    {
        let ghost before = *self;
        let ghost c = self.ctx();
        let ghost fields = fields_of(value);
        let schema = self.schema;
        let def = match schema.pso_structs.get(&key) {
            Some(d) => d,
            None => {
                assert(schema@.pso_structs.contains_key(key));
                return Vec::new();
            },
        };
        assert(c.schema.pso_structs[key] == def@);
        self.use_struct(def.name);
        let ghost st0 = self.st();
        let mut buf = zero_bytes(def.size as usize);
        let ghost buf0 = buf@;
        let mut k: usize = 0;
        while k < def.entries.len()
            invariant
                k <= def.entries@.len(),
                self.ok(),
                self.kept(before),
                before == *old(self),
                c == self.ctx(),
                fields == fields_of(value),
                c.schema.pso_structs.contains_key(key),
                c.schema.pso_structs[key] == def@,
                buf@.len() == def.size,
                (buf@, self.st()) == write_members(
                    c,
                    def@,
                    fields,
                    buf0,
                    st0,
                    fuel as nat,
                    k as nat,
                ),
            decreases def.entries@.len() - k,
        {
            let e = def.entries[k];
            if e.name != ARRAYINFO {
                let v: Option<&MetaValue> = match value {
                    Some(s) => s.get(e.name),
                    None => None,
                };
                proof {
                    assert(value_of(v) == member_value(fields, e.name));
                    lemma_member_measure(fields, e.name);
                }
                self.write_member(def, &e, v, &mut buf, fuel);
            }
            k += 1;
        }
        buf
    }

    #[verifier::rlimit(60)]
    fn write_member(
        &mut self,
        def: &PsoStructDef,
        e: &PsoEntryDef,
        value: Option<&MetaValue>,
        buf: &mut Vec<u8>,
        fuel: usize,
    )
        requires
            old(self).ok(),
            old(buf)@.len() == def.size,
            e.name != ARRAYINFO,
        ensures
            final(self).kept(*old(self)),
            final(buf)@.len() == old(buf)@.len(),
            (final(buf)@, final(self).st()) == write_member(
                old(self).ctx(),
                def@,
                *e,
                value_of(value),
                old(buf)@,
                old(self).st(),
                fuel as nat,
            ),
        decreases member_measure(value_of(value)), fuel, 3int, 0int,
    {
        let null = MetaValue::Null;
        let v: &MetaValue = match value {
            Some(x) => x,
            None => &null,
        };
        assert(v@ == value_or_null(value_of(value)));
        let off = e.offset as usize;
        let unfit = BuildFault::DoesNotFit { at: off as u64, size: buf.len() as u64 };
        if let Some(need) = need_of(e) {
            if off + need > buf.len() {
                self.fault(def, e, unfit);
                return;
            }
            match self.plain_bytes(def, e, v) {
                None => {
                    self.mismatch(def, e, value);
                },
                Some(b) => {
                    put_bytes(buf, off, b.as_slice());
                    if e.ty == T_ENUM {
                        self.use_enum(e.ref_key);
                    } else if e.ty == T_FLAGS {
                        self.use_enum(Self::flags_enum(def, e));
                    }
                },
            }
        } else if e.ty == T_STRING {
            self.write_text(def, e, value, v, buf, Ghost(fuel as nat));
        } else if e.ty == T_STRUCT {
            self.write_inner(def, e, value, buf, fuel);
        } else if e.ty == T_ARRAY {
            self.write_array(def, e, value, v, buf, fuel);
        } else if e.ty == T_MAP {
            self.write_map(def, e, value, v, buf, fuel);
        } else {
            self.fault(def, e, BuildFault::MemberType(e.ty));
        }
    }

    fn write_text(
        &mut self,
        def: &PsoStructDef,
        e: &PsoEntryDef,
        value: Option<&MetaValue>,
        v: &MetaValue,
        buf: &mut Vec<u8>,
        Ghost(fuel): Ghost<nat>,
    )
        requires
            e.ty == T_STRING,
            plain_need(*e) is None,
            v@ == value_or_null(value_of(value)),
        ensures
            final(self).kept(*old(self)),
            final(buf)@.len() == old(buf)@.len(),
            (final(buf)@, final(self).st()) == write_member(
                old(self).ctx(),
                def@,
                *e,
                value_of(value),
                old(buf)@,
                old(self).st(),
                fuel,
            ),
    {
        let off = e.offset as usize;
        if e.subtype != 1 && e.subtype != 2 && e.subtype != 3 {
            self.fault(def, e, BuildFault::StringSubtype(e.subtype));
            return;
        }
        let need: usize = if e.subtype == 3 {
            16
        } else {
            8
        };
        if off + need > buf.len() {
            self.fault(
                def,
                e,
                BuildFault::DoesNotFit { at: off as u64, size: buf.len() as u64 },
            );
            return;
        }
        match str_of(v) {
            None => {
                self.mismatch(def, e, value);
            },
            Some(s) => {
                if !s.as_str().is_empty() {
                    let ptr = self.add_string(&s);
                    if e.subtype == 3 {
                        put_counted_pointer(buf, off, ptr, s.as_str().as_bytes().len());
                    } else {
                        put_word(buf, off, ptr);
                    }
                }
            },
        }
    }

    #[verifier::rlimit(60)]
    fn write_inner(
        &mut self,
        def: &PsoStructDef,
        e: &PsoEntryDef,
        value: Option<&MetaValue>,
        buf: &mut Vec<u8>,
        fuel: usize,
    )
        requires
            old(self).ok(),
            e.ty == T_STRUCT,
            old(buf)@.len() == def.size,
            e.name != ARRAYINFO,
        ensures
            final(self).kept(*old(self)),
            final(buf)@.len() == old(buf)@.len(),
            (final(buf)@, final(self).st()) == write_member(
                old(self).ctx(),
                def@,
                *e,
                value_of(value),
                old(buf)@,
                old(self).st(),
                fuel as nat,
            ),
        decreases member_measure(value_of(value)), fuel, 2int, 0int,
    {
        let ghost c = self.ctx();
        let off = e.offset as usize;
        let unfit = BuildFault::DoesNotFit { at: off as u64, size: buf.len() as u64 };
        let inner: Option<&MetaStruct> = match value {
            Some(MetaValue::Struct(s)) => Some(s),
            Some(MetaValue::Null) => None,
            None => None,
            Some(_) => {
                self.mismatch(def, e, value);
                return;
            },
        };
        let schema = self.schema;
        if e.subtype == 0 {
            let size: u32 = match schema.pso_structs.get(&e.ref_key) {
                Some(d) => {
                    assert(c.schema.pso_structs[e.ref_key] == d@);
                    d.size
                },
                None => {
                    self.fault(def, e, BuildFault::NoSchema(e.ref_key));
                    return;
                },
            };
            if off as u64 + size as u64 > buf.len() as u64 {
                self.fault(def, e, unfit);
                return;
            }
            if value.is_none() && (fuel == 0 || self.endless) {
                self.endless = true;
                return;
            }
            let inner_fuel: usize = if value.is_none() {
                fuel - 1
            } else {
                self.full
            };
            let bytes = self.write_struct(e.ref_key, inner, inner_fuel);
            put_bytes(buf, off, bytes.as_slice());
        } else {
            if off + 8 > buf.len() {
                self.fault(def, e, unfit);
                return;
            }
            let s = match inner {
                Some(s) => s,
                None => {
                    return;
                },
            };
            let ty: u32 = if schema.pso_structs.contains_key(&s.type_hash) {
                s.type_hash
            } else {
                e.ref_key
            };
            let name: u32 = match schema.pso_structs.get(&ty) {
                Some(d) => {
                    assert(c.schema.pso_structs[ty] == d@);
                    d.name
                },
                None => {
                    assert(ty == pointee_type(c, s@, e.ref_key));
                    assert(!c.schema.pso_structs.contains_key(ty));
                    self.fault(def, e, BuildFault::NoSchema(ty));
                    return;
                },
            };
            let bytes = self.write_struct(ty, Some(s), self.full);
            let ptr = self.add_item(name, bytes.as_slice());
            put_word(buf, off, ptr);
        }
    }

    #[verifier::rlimit(60)]
    fn write_array(
        &mut self,
        def: &PsoStructDef,
        e: &PsoEntryDef,
        value: Option<&MetaValue>,
        v: &MetaValue,
        buf: &mut Vec<u8>,
        fuel: usize,
    )
        requires
            old(self).ok(),
            e.ty == T_ARRAY,
            v@ == value_or_null(value_of(value)),
        ensures
            final(self).kept(*old(self)),
            final(buf)@.len() == old(buf)@.len(),
            (final(buf)@, final(self).st()) == write_member(
                old(self).ctx(),
                def@,
                *e,
                value_of(value),
                old(buf)@,
                old(self).st(),
                fuel as nat,
            ),
        decreases member_measure(value_of(value)), fuel, 2int, 1int,
    {
        let ghost c = self.ctx();
        let off = e.offset as usize;
        let unfit = BuildFault::DoesNotFit { at: off as u64, size: buf.len() as u64 };
        let elem = match Self::array_info(def, e) {
            Some(x) => x,
            None => {
                self.fault(def, e, BuildFault::NoArrayInfo);
                return;
            },
        };
        let none: Vec<MetaValue> = Vec::new();
        let items: &Vec<MetaValue> = match v {
            MetaValue::Array(a) => {
                assert(a@.items =~= crate::value::values_view(a.items@));
                &a.items
            },
            MetaValue::Null => {
                assert(crate::value::values_view(none@) =~= Seq::<ValueView>::empty());
                &none
            },
            MetaValue::Str(s) => {
                let cs = chars_of(s.as_str());
                if trim(cs.as_slice()).len() != 0 {
                    self.mismatch(def, e, value);
                    return;
                }
                assert(crate::value::values_view(none@) =~= Seq::<ValueView>::empty());
                &none
            },
            _ => {
                self.mismatch(def, e, value);
                return;
            },
        };
        assert(crate::value::values_view(items@) == items_of(v@));
        if e.subtype == 0 || (e.subtype == 4 && elem.subtype == 3) {
            if off + 16 > buf.len() {
                self.fault(def, e, unfit);
                return;
            }
            if items.len() == 0 {
                return;
            }
            assert(crate::value::values_view(items@).take(items@.len() as int) =~= crate::value::values_view(items@));
            match self.element_run(def, e, &elem, items, items.len(), Ghost(fuel as nat)) {
                None => {},
                Some(run) => {
                    let block = self.run_block(&elem);
                    let ptr = self.add_item(block, run.as_slice());
                    put_counted_pointer(buf, off, ptr, items.len());
                },
            }
        } else {
            let fixed = (e.ref_key / 0x1_0000) as usize;
            let count: usize = if items.len() < fixed {
                items.len()
            } else {
                fixed
            };
            proof {
                lemma_take_measure(crate::value::values_view(items@), count as int);
            }
            match self.element_run(def, e, &elem, items, count, Ghost(fuel as nat)) {
                None => {},
                Some(run) => {
                    if run.len() > buf.len() || off > buf.len() - run.len() {
                        self.fault(def, e, unfit);
                        return;
                    }
                    put_bytes(buf, off, run.as_slice());
                },
            }
        }
    }

    fn run_block(&self, elem: &PsoEntryDef) -> (r: u32)
        requires
            run_refused(self.ctx(), *elem) is None,
        ensures
            r == run_block(self.ctx(), *elem),
    {
        if elem.ty == T_STRUCT {
            if elem.subtype == 3 {
                B_POINTER
            } else {
                match self.schema.pso_structs.get(&elem.ref_key) {
                    Some(d) => d.name,
                    None => 0,
                }
            }
        } else if elem.ty == T_STRING {
            if elem.subtype == 7 || elem.subtype == 8 {
                B_UINT
            } else if elem.subtype == 1 || elem.subtype == 2 {
                B_POINTER
            } else if elem.subtype == 3 {
                B_CHAR_POINTER
            } else {
                B_STRING
            }
        } else if elem.ty == T_BOOL || elem.ty == T_U8 || elem.ty == T_I8 {
            B_BYTE
        } else if elem.ty == T_U16 || elem.ty == T_I16 || elem.ty == T_HFLOAT {
            B_SHORT
        } else if elem.ty == T_I32 || elem.ty == T_ENUM {
            B_INT
        } else if elem.ty == T_U32 || elem.ty == T_LONG {
            B_UINT
        } else if elem.ty == T_F32 {
            B_FLOAT
        } else {
            B_STRING
        }
    }

    fn refusal(&self, elem: &PsoEntryDef) -> (r: Option<BuildFault>)
        ensures
            r == run_refused(self.ctx(), *elem),
    {
        if elem.ty == T_STRUCT {
            if elem.subtype != 3 && !self.schema.pso_structs.contains_key(&elem.ref_key) {
                Some(BuildFault::NoElementSchema(elem.ref_key))
            } else {
                None
            }
        } else if elem.ty == T_STRING {
            if elem.subtype == 0 && elem.ref_key / 0x1_0000 == 0 {
                Some(BuildFault::ZeroLengthStrings)
            } else if elem.subtype == 0 || elem.subtype == 1 || elem.subtype == 2 || elem.subtype
                == 3 || elem.subtype == 7 || elem.subtype == 8 {
                None
            } else {
                Some(BuildFault::StringArraySubtype(elem.subtype))
            }
        } else if elem.ty <= T_VEC4 || elem.ty == T_ENUM || elem.ty == T_VEC3A || elem.ty == T_VEC4A
            || elem.ty == T_HFLOAT || elem.ty == T_LONG {
            None
        } else {
            Some(BuildFault::ElementType(elem.ty))
        }
    }

    /// The bytes of an array's first `count` elements, unless they cannot be
    /// written.
    fn element_run(
        &mut self,
        def: &PsoStructDef,
        e: &PsoEntryDef,
        elem: &PsoEntryDef,
        items: &Vec<MetaValue>,
        count: usize,
        Ghost(fuel): Ghost<nat>,
    ) -> (r: Option<Vec<u8>>)
        requires
            old(self).ok(),
            count <= items@.len(),
        ensures
            final(self).kept(*old(self)),
            (crate::coerce::opt_bytes(r), final(self).st()) == element_run(
                old(self).ctx(),
                def@,
                *e,
                *elem,
                crate::value::values_view(items@).take(count as int),
                old(self).st(),
                fuel,
            ),
            r is Some ==> run_refused(old(self).ctx(), *elem) is None,
        decreases items_measure(crate::value::values_view(items@).take(count as int)), 0nat, 2int, 0int,
    {
        let ghost c = self.ctx();
        let ghost all = crate::value::values_view(items@).take(count as int);
        let ghost before = *self;
        match self.refusal(elem) {
            Some(f) => {
                self.fault(def, e, f);
                return None;
            },
            None => {},
        }
        if elem.ty == T_ENUM {
            self.use_enum(elem.ref_key);
        }
        let ghost st0 = self.st();
        let mut run: Vec<u8> = Vec::new();
        let mut k: usize = 0;
        while k < count
            invariant
                k <= count <= items@.len(),
                self.ok(),
                self.kept(before),
                before == *old(self),
                c == self.ctx(),
                all == crate::value::values_view(items@).take(count as int),
                run_refused(c, *elem) is None,
                (Some(run@), self.st()) == items_run(c, def@, *e, *elem, all, st0, k as nat),
                element_run(c, def@, *e, *elem, all, before.st(), fuel) == items_run(
                    c,
                    def@,
                    *e,
                    *elem,
                    all,
                    st0,
                    all.len(),
                ),
            decreases count - k,
        {
            let ghost was = run@;
            proof {
                assert(all[k as int] == items@[k as int]@);
                crate::value::lemma_item_height(all, k as int);
            }
            match self.write_item(def, e, elem, &items[k]) {
                Some(b) => {
                    push_bytes(&mut run, b.as_slice());
                },
                None => {
                    proof {
                        lemma_items_none(c, def@, *e, *elem, all, st0, (k + 1) as nat, all.len());
                    }
                    return None;
                },
            }
            k += 1;
        }
        Some(run)
    }

    fn write_item(
        &mut self,
        def: &PsoStructDef,
        e: &PsoEntryDef,
        elem: &PsoEntryDef,
        item: &MetaValue,
    ) -> (r: Option<Vec<u8>>)
        requires
            old(self).ok(),
            run_refused(old(self).ctx(), *elem) is None,
        ensures
            final(self).kept(*old(self)),
            (crate::coerce::opt_bytes(r), final(self).st()) == write_item(
                old(self).ctx(),
                def@,
                *e,
                *elem,
                item@,
                old(self).st(),
            ),
        decreases 2 * crate::value::height(item@) + 1, 0nat, 0int, 0int,
    {
        let ghost c = self.ctx();
        let schema = self.schema;
        if elem.ty != T_STRUCT && !(elem.ty == T_STRING && (elem.subtype == 1 || elem.subtype == 2
            || elem.subtype == 3)) {
            return self.scalar_item(elem, item);
        }
        if elem.ty == T_STRING {
            let s = match str_of(item) {
                Some(s) => s,
                None => String::new(),
            };
            let mut slot = zero_bytes(
                if elem.subtype == 3 {
                    16
                } else {
                    8
                },
            );
            if !s.as_str().is_empty() {
                let ptr = self.add_string(&s);
                if elem.subtype == 3 {
                    put_counted_pointer(&mut slot, 0, ptr, s.as_str().as_bytes().len());
                } else {
                    put_word(&mut slot, 0, ptr);
                }
            }
            return Some(slot);
        }
        if elem.subtype == 3 {
            let mut slot = zero_bytes(8);
            if let MetaValue::Struct(s) = item {
                let ty: u32 = if schema.pso_structs.contains_key(&s.type_hash) {
                    s.type_hash
                } else {
                    elem.ref_key
                };
                match schema.pso_structs.get(&ty) {
                    Some(d) => {
                        assert(c.schema.pso_structs[ty] == d@);
                        let bytes = self.write_struct(ty, Some(s), self.full);
                        let ptr = self.add_item(d.name, bytes.as_slice());
                        put_word(&mut slot, 0, ptr);
                    },
                    None => {
                        self.fault(def, e, BuildFault::NoSchema(ty));
                    },
                }
            }
            return Some(slot);
        }
        match item {
            MetaValue::Struct(s) => Some(self.write_struct(elem.ref_key, Some(s), self.full)),
            MetaValue::Null => Some(self.write_struct(elem.ref_key, None, self.full)),
            _ => {
                warn_once(
                    &mut self.warnings,
                    BuildWarning::Element {
                        structure: def.name,
                        member: e.name,
                        value: item.copy(),
                    },
                );
                Some(self.write_struct(elem.ref_key, None, self.full))
            },
        }
    }

    #[verifier::rlimit(60)]
    fn write_map(
        &mut self,
        def: &PsoStructDef,
        e: &PsoEntryDef,
        value: Option<&MetaValue>,
        v: &MetaValue,
        buf: &mut Vec<u8>,
        fuel: usize,
    )
        requires
            old(self).ok(),
            e.ty == T_MAP,
            v@ == value_or_null(value_of(value)),
        ensures
            final(self).kept(*old(self)),
            final(buf)@.len() == old(buf)@.len(),
            (final(buf)@, final(self).st()) == write_member(
                old(self).ctx(),
                def@,
                *e,
                value_of(value),
                old(buf)@,
                old(self).st(),
                fuel as nat,
            ),
        decreases member_measure(value_of(value)), fuel, 2int, 1int,
    {
        let ghost c = self.ctx();
        let off = e.offset as usize;
        if e.subtype != 1 {
            self.fault(def, e, BuildFault::MapSubtype(e.subtype));
            return;
        }
        if off + 24 > buf.len() {
            self.fault(
                def,
                e,
                BuildFault::DoesNotFit { at: off as u64, size: buf.len() as u64 },
            );
            return;
        }
        let none: Vec<(MetaValue, MetaValue)> = Vec::new();
        let pairs: &Vec<(MetaValue, MetaValue)> = match v {
            MetaValue::Pairs(p) => {
                assert(v@->Pairs_0 =~= crate::value::pairs_view(p@));
                p
            },
            MetaValue::Null => {
                assert(crate::value::pairs_view(none@) =~= Seq::<(ValueView, ValueView)>::empty());
                &none
            },
            _ => {
                self.mismatch(def, e, value);
                return;
            },
        };
        assert(crate::value::pairs_view(pairs@) == pairs_of(v@));
        put_word(buf, off, 0x0100_0000);
        if pairs.len() == 0 {
            return;
        }
        let idx = (e.ref_key % 0x1_0000) as usize;
        let pair_type: u32 = if idx < def.entries.len() {
            def.entries[idx].ref_key
        } else {
            0
        };
        if !self.schema.pso_structs.contains_key(&pair_type) {
            self.fault(def, e, BuildFault::NoPairSchema(pair_type));
            return;
        }
        let run = self.pairs_run(pair_type, pairs, Ghost(fuel as nat));
        let ptr = self.add_item(pair_type, run.as_slice());
        put_word(buf, off + 8, ptr);
        put_half(buf, off + 16, pairs.len() as u16);
        put_half(buf, off + 18, pairs.len() as u16);
    }

    fn named(entries: &Vec<PsoEntryDef>) -> (r: Vec<u32>)
        ensures
            r@ == named_members(entries@, entries@.len()),
    {
        let mut out: Vec<u32> = Vec::new();
        let mut k: usize = 0;
        while k < entries.len()
            invariant
                k <= entries@.len(),
                out@ == named_members(entries@, k as nat),
            decreases entries@.len() - k,
        {
            if entries[k].name != ARRAYINFO {
                out.push(entries[k].name);
            }
            k += 1;
        }
        out
    }

    fn pairs_run(
        &mut self,
        pair_type: u32,
        pairs: &Vec<(MetaValue, MetaValue)>,
        Ghost(fuel): Ghost<nat>,
    ) -> (run: Vec<u8>)
        requires
            old(self).ok(),
            old(self).schema@.pso_structs.contains_key(pair_type),
        ensures
            final(self).kept(*old(self)),
            (run@, final(self).st()) == pairs_run(
                old(self).ctx(),
                pair_type,
                crate::value::pairs_view(pairs@),
                old(self).st(),
                fuel,
                pairs@.len(),
            ),
        decreases pairs_measure(crate::value::pairs_view(pairs@)), 0nat, 1int, 0int,
    {
        let ghost before = *self;
        let ghost c = self.ctx();
        let ghost all = crate::value::pairs_view(pairs@);
        let schema = self.schema;
        let names: Vec<u32> = match schema.pso_structs.get(&pair_type) {
            Some(d) => {
                assert(c.schema.pso_structs[pair_type] == d@);
                Self::named(&d.entries)
            },
            None => Vec::new(),
        };
        let ghost entries = c.schema.pso_structs[pair_type].entries;
        assert(names@ == named_members(entries, entries.len()));
        let mut run: Vec<u8> = Vec::new();
        let mut k: usize = 0;
        while k < pairs.len()
            invariant
                k <= pairs@.len(),
                self.ok(),
                self.kept(before),
                before == *old(self),
                c == self.ctx(),
                c.schema.pso_structs.contains_key(pair_type),
                entries == c.schema.pso_structs[pair_type].entries,
                names@ == named_members(entries, entries.len()),
                all == crate::value::pairs_view(pairs@),
                (run@, self.st()) == pairs_run(c, pair_type, all, before.st(), fuel, k as nat),
            decreases pairs@.len() - k,
        {
            let mut fields: Vec<(u32, MetaValue)> = Vec::new();
            if names.len() > 0 {
                fields.push((names[0], pairs[k].0.copy()));
            }
            if names.len() > 1 {
                fields.push((names[1], pairs[k].1.copy()));
            }
            let s = MetaStruct { type_hash: pair_type, fields };
            proof {
                assert(all[k as int] == (pairs@[k as int].0@, pairs@[k as int].1@));
                assert(s@.fields =~= pair_fields(names@, all[k as int]));
                lemma_pair_measure(names@, all, k as int);
            }
            let bytes = self.write_struct(pair_type, Some(&s), self.full);
            push_bytes(&mut run, bytes.as_slice());
            k += 1;
        }
        run
    }
}

proof fn lemma_items_none(
    c: Context,
    def: PsoStructDefView,
    e: PsoEntryDef,
    elem: PsoEntryDef,
    items: Seq<ValueView>,
    st: BuildState,
    j: nat,
    k: nat,
)
    requires
        j <= k <= items.len(),
        items_run(c, def, e, elem, items, st, j).0 is None,
    ensures
        items_run(c, def, e, elem, items, st, k) == items_run(c, def, e, elem, items, st, j),
    decreases k,
{
    if j < k {
        lemma_items_none(c, def, e, elem, items, st, j, (k - 1) as nat);
    }
}

// ─── assembling ──────────────────────────────────────────────────────────────

fn make_section(ident: u32, body: &Vec<u8>) -> (out: Vec<u8>)
    ensures
        out@ == section(ident, body@),
{
    let mut out: Vec<u8> = Vec::new();
    push_u32_be(&mut out, ident);
    push_u32_be(&mut out, 0);
    push_bytes(&mut out, body.as_slice());
    let len = out.len();
    put_word(&mut out, 4, len as u32);
    assert(out@ =~= section(ident, body@));
    out
}

fn struct_bytes(d: &PsoStructDef) -> (out: Vec<u8>)
    ensures
        out@ == struct_record(d@),
{
    let mut out: Vec<u8> = Vec::new();
    push_u32_be(&mut out, (0x1_0000 * d.unk as u32) | (d.entries.len() as u32));
    push_u32_be(&mut out, d.size);
    push_u32_be(&mut out, 0);
    let ghost head = out@;
    assert(head =~= crate::bytes::be32_bytes(((0x1_0000 * d.unk) as u32) | (d.entries@.len() as u32))
        + crate::bytes::be32_bytes(d.size) + crate::bytes::zeros(4));
    let mut k: usize = 0;
    assert(out@ =~= head + member_records(d.entries@, 0));
    while k < d.entries.len()
        invariant
            k <= d.entries@.len(),
            out@ == head + member_records(d.entries@, k as nat),
        decreases d.entries@.len() - k,
    {
        let e = d.entries[k];
        push_u32_be(&mut out, e.name);
        out.push(e.ty);
        out.push(e.subtype);
        push_u16_be(&mut out, e.offset);
        push_u32_be(&mut out, e.ref_key);
        k += 1;
        assert(out@ =~= head + member_records(d.entries@, k as nat));
    }
    out
}

fn enum_bytes(d: &PsoEnumDef) -> (out: Vec<u8>)
    ensures
        out@ == enum_record(d@),
{
    let mut out: Vec<u8> = Vec::new();
    push_u32_be(&mut out, 0x100_0000 | (d.entries.len() as u32));
    let ghost head = out@;
    assert(head =~= crate::bytes::be32_bytes(0x100_0000u32 | (d.entries@.len() as u32)));
    let mut k: usize = 0;
    assert(out@ =~= head + enumerator_records(d.entries@, 0));
    while k < d.entries.len()
        invariant
            k <= d.entries@.len(),
            out@ == head + enumerator_records(d.entries@, k as nat),
        decreases d.entries@.len() - k,
    {
        let (name, value) = d.entries[k];
        push_u32_be(&mut out, name);
        push_u32_be(&mut out, value as u32);
        k += 1;
        assert(out@ =~= head + enumerator_records(d.entries@, k as nat));
    }
    out
}

impl<'s> Builder<'s> {
    fn data_section(&self) -> (out: Vec<u8>)
        ensures
            out@ == section(
                SECTION_PSIN,
                crate::bytes::zeros(8) + blocks_data(self.st().blocks, self.st().blocks.len()),
            ),
    {
        let ghost blocks = self.st().blocks;
        let mut body = zero_bytes(8);
        let mut k: usize = 0;
        assert(body@ =~= crate::bytes::zeros(8) + blocks_data(blocks, 0));
        while k < self.blocks.len()
            invariant
                k <= self.blocks@.len(),
                blocks == blocks_of(self.blocks@),
                body@ == crate::bytes::zeros(8) + blocks_data(blocks, k as nat),
            decreases self.blocks@.len() - k,
        {
            push_bytes(&mut body, self.blocks[k].data.as_slice());
            k += 1;
            assert(body@ =~= crate::bytes::zeros(8) + blocks_data(blocks, k as nat));
        }
        make_section(SECTION_PSIN, &body)
    }

    fn map_section(&self, root_id: u32) -> (out: Vec<u8>)
        ensures
            out@ == section(
                SECTION_PMAP,
                crate::bytes::be32_bytes(root_id) + crate::bytes::be16_bytes(self.st().blocks.len() as u16) + crate::bytes::be16_bytes(0x7070)
                    + block_records(self.st().blocks, self.st().blocks.len()),
            ),
    {
        let ghost blocks = self.st().blocks;
        let mut body: Vec<u8> = Vec::new();
        push_u32_be(&mut body, root_id);
        push_u16_be(&mut body, self.blocks.len() as u16);
        push_u16_be(&mut body, 0x7070);
        let ghost head = body@;
        assert(head =~= crate::bytes::be32_bytes(root_id) + crate::bytes::be16_bytes(blocks.len() as u16) + crate::bytes::be16_bytes(0x7070));
        let mut before: u128 = 0;
        let mut k: usize = 0;
        assert(body@ =~= head + block_records(blocks, 0));
        while k < self.blocks.len()
            invariant
                k <= self.blocks@.len(),
                blocks == blocks_of(self.blocks@),
                before == blocks_data(blocks, k as nat).len(),
                before <= k * 0xFFFF_FFFF_FFFF_FFFF,
                body@ == head + block_records(blocks, k as nat),
            decreases self.blocks@.len() - k,
        {
            assert(blocks[k as int] == (self.blocks@[k as int].name, self.blocks@[k as int].data@));
            let len = self.blocks[k].data.len();
            assert(k * 0xFFFF_FFFF_FFFF_FFFF <= 0xFFFF_FFFF_FFFF_FFFF * 0xFFFF_FFFF_FFFF_FFFF)
                by (nonlinear_arith)
                requires
                    k <= 0xFFFF_FFFF_FFFF_FFFF,
            ;
            push_u32_be(&mut body, self.blocks[k].name);
            push_u32_be(&mut body, (before + 16) as u32);
            push_u32_be(&mut body, 0);
            push_u32_be(&mut body, len as u32);
            assert(crate::bytes::be32_bytes(0) =~= crate::bytes::zeros(4));
            before = before + len as u128;
            k += 1;
            assert(body@ =~= head + block_records(blocks, k as nat));
        }
        make_section(SECTION_PMAP, &body)
    }

    fn parts(&self) -> (r: Vec<Block>)
        ensures
            blocks_of(r@) == schema_parts(self.ctx(), self.st()),
    {
        let ghost c = self.ctx();
        let mut out: Vec<Block> = Vec::new();
        let mut k: usize = 0;
        assert(blocks_of(out@) =~= struct_parts(c, self.used_structs@, 0));
        while k < self.used_structs.len()
            invariant
                k <= self.used_structs@.len(),
                c == self.ctx(),
                blocks_of(out@) == struct_parts(c, self.used_structs@, k as nat),
            decreases self.used_structs@.len() - k,
        {
            match self.schema.pso_structs.get(&self.used_structs[k]) {
                Some(d) => {
                    let ghost was = out@;
                    out.push(Block { name: d.name, data: struct_bytes(d) });
                    assert(blocks_of(out@) =~= blocks_of(was).push((d.name, struct_record(d@))));
                },
                None => {},
            }
            k += 1;
        }
        let ghost first = blocks_of(out@);
        let mut k: usize = 0;
        assert(blocks_of(out@) =~= first + enum_parts(c, self.used_enums@, 0));
        while k < self.used_enums.len()
            invariant
                k <= self.used_enums@.len(),
                c == self.ctx(),
                blocks_of(out@) == first + enum_parts(c, self.used_enums@, k as nat),
            decreases self.used_enums@.len() - k,
        {
            let ghost was = out@;
            match self.schema.pso_enums.get(&self.used_enums[k]) {
                Some(d) => {
                    out.push(Block { name: d.name, data: enum_bytes(d) });
                    assert(blocks_of(out@) =~= blocks_of(was).push((d.name, enum_record(d@))));
                    assert(blocks_of(out@) =~= first + enum_parts(
                        c,
                        self.used_enums@,
                        (k + 1) as nat,
                    ));
                },
                None => {},
            }
            k += 1;
        }
        out
    }

    fn schema_section(&self) -> (out: Vec<u8>)
        ensures
            ({
                let parts = schema_parts(self.ctx(), self.st());
                out@ == section(
                    SECTION_PSCH,
                    crate::bytes::be32_bytes(parts.len() as u32) + index_records(parts, parts.len())
                        + blocks_data(parts, parts.len()),
                )
            }),
    {
        let defs = self.parts();
        let ghost parts = blocks_of(defs@);
        let mut body: Vec<u8> = Vec::new();
        push_u32_be(&mut body, defs.len() as u32);
        let ghost head = body@;
        assert(head =~= crate::bytes::be32_bytes(parts.len() as u32));
        let base: u128 = 12 + 8 * defs.len() as u128;
        let mut before: u128 = 0;
        let mut k: usize = 0;
        assert(body@ =~= head + index_records(parts, 0));
        while k < defs.len()
            invariant
                k <= defs@.len(),
                parts == blocks_of(defs@),
                base == 12 + 8 * defs@.len(),
                before == blocks_data(parts, k as nat).len(),
                before <= k * 0xFFFF_FFFF_FFFF_FFFF,
                body@ == head + index_records(parts, k as nat),
            decreases defs@.len() - k,
        {
            assert(parts[k as int] == (defs@[k as int].name, defs@[k as int].data@));
            let len = defs[k].data.len();
            assert(k * 0xFFFF_FFFF_FFFF_FFFF <= 0xFFFF_FFFF_FFFF_FFFE * 0xFFFF_FFFF_FFFF_FFFF)
                by (nonlinear_arith)
                requires
                    k <= 0xFFFF_FFFF_FFFF_FFFE,
            ;
            push_u32_be(&mut body, defs[k].name);
            push_u32_be(&mut body, (base as u32).wrapping_add(before as u32));
            before = before + len as u128;
            k += 1;
            assert(body@ =~= head + index_records(parts, k as nat));
        }
        let ghost indexed = body@;
        let mut k: usize = 0;
        assert(body@ =~= indexed + blocks_data(parts, 0));
        while k < defs.len()
            invariant
                k <= defs@.len(),
                parts == blocks_of(defs@),
                body@ == indexed + blocks_data(parts, k as nat),
            decreases defs@.len() - k,
        {
            push_bytes(&mut body, defs[k].data.as_slice());
            k += 1;
            assert(body@ =~= indexed + blocks_data(parts, k as nat));
        }
        make_section(SECTION_PSCH, &body)
    }

    /// Puts the data, the block table and the schema one after the other.
    fn assemble(&self, root_id: u32) -> (out: Vec<u8>)
        ensures
            out@ == assembled(self.ctx(), self.st(), root_id),
    {
        let mut out = self.data_section();
        let pmap = self.map_section(root_id);
        let psch = self.schema_section();
        push_bytes(&mut out, pmap.as_slice());
        push_bytes(&mut out, psch.as_slice());
        out
    }
}

/// Builds the file. `root` must be a structure the schema knows. `floats`
/// says what the texts in the tree are as floating-point numbers.
pub fn build_pso(root: &MetaValue, schema: &Schema, floats: &FloatTexts) -> (r: Result<
    Written,
    PsoBuildError,
>)
    ensures
        ({
            let c = Context { schema: schema@, floats: floats@ };
            match root@ {
                ValueView::Struct(s) => if !schema@.pso_structs.contains_key(s.type_hash) {
                    r == Err::<Written, PsoBuildError>(PsoBuildError::NoRootSchema(s.type_hash))
                } else if endless(c, s) {
                    r == Err::<Written, PsoBuildError>(PsoBuildError::Endless)
                } else {
                    r is Ok && (r->Ok_0.bytes@, crate::build_warning::warnings_view(r->Ok_0.warnings@)) == built(c, s)
                },
                _ => r == Err::<Written, PsoBuildError>(PsoBuildError::RootNotStructure),
            }
        }),
{
    let s = match root {
        MetaValue::Struct(s) => s,
        _ => {
            return Err(PsoBuildError::RootNotStructure);
        },
    };
    assert(root@ == ValueView::Struct(s@));
    let name: u32 = match schema.pso_structs.get(&s.type_hash) {
        Some(d) => {
            assert(schema@.pso_structs.contains_key(s.type_hash));
            assert(schema@.pso_structs[s.type_hash] == d@);
            d.name
        },
        None => {
            return Err(PsoBuildError::NoRootSchema(s.type_hash));
        },
    };
    let full = schema.pso_structs.len();
    assert(schema@.pso_structs.dom() =~= schema.pso_structs@.dom());
    let mut b = Builder {
        schema,
        floats,
        full,
        blocks: Vec::new(),
        used_structs: Vec::new(),
        used_enums: Vec::new(),
        warnings: Vec::new(),
        endless: false,
    };
    assert(b.st() =~= fresh());
    let bytes = b.write_struct(s.type_hash, Some(s), full);
    if b.endless {
        return Err(PsoBuildError::Endless);
    }
    let root_ptr = b.add_item(name, bytes.as_slice());
    let out = b.assemble(root_ptr % 0x1000);
    Ok(Written { bytes: out, warnings: b.warnings })
}

} // verus!
