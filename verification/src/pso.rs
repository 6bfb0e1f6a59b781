//! PSO files: big-endian, self-describing containers of one structure tree.

use std::collections::HashMap;
use vstd::prelude::*;
use vstd::slice::*;
use vstd::string::*;

use crate::bytes::to_vec;
use crate::math::{Vec2, Vec3, Vec4};
use crate::text::{nul_terminated, push_decimal, push_hex_lower};
use crate::value::{
    enum_member_name, set_flag_names, ArrayView, MetaArray, MetaDump, MetaStruct, MetaValue,
    StructView, ValueView,
};
use crate::warning::{push_warning, MemberFault, Warning};

verus! {

broadcast use {vstd::slice::group_slice_axioms, vstd::std_specs::hash::group_hash_axioms};

/// "PSIN", as the first four bytes of a PSO file read big-endian.
pub const PSO_MAGIC: u32 = 0x5053_494E;

/// The data section.
pub const SECTION_PSIN: u32 = 0x5053_494E;

/// The block table.
pub const SECTION_PMAP: u32 = 0x504D_4150;

/// The schema.
pub const SECTION_PSCH: u32 = 0x5053_4348;

/// The `ARRAYINFO` pseudo-member: a schema entry that only describes the
/// element type of the array member that references it.
pub const ARRAYINFO: u32 = 0x100;

/// How deep structures may nest before a walk gives up.
pub const MAX_DEPTH: usize = 64;

/// What can be wrong with a PSO file.
#[derive(Debug, Clone, Copy, PartialEq, Eq, Structural)]
pub enum PsoError {
    /// The magic that stands where "PSIN" should, zero where none does.
    NotPso(u32),
    SectionBounds { ident: u32, pos: usize },
    NoData,
    NoMap,
    MapShort,
    MapBlocks { count: u32, len: usize },
    SchemaShort,
    SchemaList { count: u32, len: usize },
    EntryBounds { index: u32, offset: u32 },
    MemberBounds { structure: u32, index: u32 },
    EnumBounds { name: u32, index: u32 },
    EntryType(u32),
}

impl PsoError {
    /// The error in words.
    pub fn message(&self) -> (r: String)
        ensures
            r@ == self.text(),
    {
        let mut out = String::new();
        match self {
            PsoError::NotPso(magic) => {
                out.append("not a PSO file (magic ");
                out.append("0x");
                push_hex_lower(&mut out, *magic as u64, 8);
                out.append(", expected 0x5053494e)");
            },
            PsoError::SectionBounds { ident, pos } => {
                out.append("pso: section ");
                out.append("0x");
                push_hex_lower(&mut out, *ident as u64, 8);
                out.append(" at ");
                push_decimal(&mut out, *pos as u64);
                out.append(" runs past the end of the file");
            },
            PsoError::NoData => {
                out.append("pso: no data section");
            },
            PsoError::NoMap => {
                out.append("pso: no PMAP section");
            },
            PsoError::MapShort => {
                out.append("pso: PMAP section too short");
            },
            PsoError::MapBlocks { count, len } => {
                out.append("pso: PMAP lists ");
                push_decimal(&mut out, *count as u64);
                out.append(" blocks but is ");
                push_decimal(&mut out, *len as u64);
                out.append(" bytes");
            },
            PsoError::SchemaShort => {
                out.append("pso: PSCH section too short");
            },
            PsoError::SchemaList { count, len } => {
                out.append("pso: PSCH lists ");
                push_decimal(&mut out, *count as u64);
                out.append(" entries but is ");
                push_decimal(&mut out, *len as u64);
                out.append(" bytes");
            },
            PsoError::EntryBounds { index, offset } => {
                out.append("pso: schema entry ");
                push_decimal(&mut out, *index as u64);
                out.append(" offset ");
                push_decimal(&mut out, *offset as u64);
                out.append(" out of bounds");
            },
            PsoError::MemberBounds { structure, index } => {
                out.append("pso: structure ");
                out.append("0x");
                push_hex_lower(&mut out, *structure as u64, 8);
                out.append(" member ");
                push_decimal(&mut out, *index as u64);
                out.append(" out of bounds");
            },
            PsoError::EnumBounds { name, index } => {
                out.append("pso: enum ");
                out.append("0x");
                push_hex_lower(&mut out, *name as u64, 8);
                out.append(" member ");
                push_decimal(&mut out, *index as u64);
                out.append(" out of bounds");
            },
            PsoError::EntryType(kind) => {
                out.append("pso: unknown schema entry type ");
                push_decimal(&mut out, *kind as u64);
            },
        }
        assert(out@ =~= self.text());
        out
    }

    /// The error in words.
    pub open spec fn text(&self) -> Seq<char> {
        match self {
            PsoError::NotPso(magic) => "not a PSO file (magic "@ + "0x"@ + crate::text::hex_lower(*magic as nat, 8) + ", expected 0x5053494e)"@,
            PsoError::SectionBounds { ident, pos } => "pso: section "@ + "0x"@ + crate::text::hex_lower(*ident as nat, 8) + " at "@ + crate::text::decimal(*pos as nat) + " runs past the end of the file"@,
            PsoError::NoData => "pso: no data section"@,
            PsoError::NoMap => "pso: no PMAP section"@,
            PsoError::MapShort => "pso: PMAP section too short"@,
            PsoError::MapBlocks { count, len } => "pso: PMAP lists "@ + crate::text::decimal(*count as nat) + " blocks but is "@ + crate::text::decimal(*len as nat) + " bytes"@,
            PsoError::SchemaShort => "pso: PSCH section too short"@,
            PsoError::SchemaList { count, len } => "pso: PSCH lists "@ + crate::text::decimal(*count as nat) + " entries but is "@ + crate::text::decimal(*len as nat) + " bytes"@,
            PsoError::EntryBounds { index, offset } => "pso: schema entry "@ + crate::text::decimal(*index as nat) + " offset "@ + crate::text::decimal(*offset as nat) + " out of bounds"@,
            PsoError::MemberBounds { structure, index } => "pso: structure "@ + "0x"@ + crate::text::hex_lower(*structure as nat, 8) + " member "@ + crate::text::decimal(*index as nat) + " out of bounds"@,
            PsoError::EnumBounds { name, index } => "pso: enum "@ + "0x"@ + crate::text::hex_lower(*name as nat, 8) + " member "@ + crate::text::decimal(*index as nat) + " out of bounds"@,
            PsoError::EntryType(kind) => "pso: unknown schema entry type "@ + crate::text::decimal(*kind as nat),
        }
    }
}

/// PSO member types (the `type` byte of a schema entry).
#[derive(Debug, Clone, Copy, PartialEq, Eq, Structural)]
pub enum PsoType {
    Bool,
    SByte,
    UByte,
    SShort,
    UShort,
    SInt,
    UInt,
    Float,
    Float2,
    Float3,
    Float4,
    String,
    Structure,
    Array,
    Enum,
    Flags,
    MapType,
    Float3a,
    Float4a,
    HFloat,
    Long,
}

/// The member type that a type byte stands for.
pub open spec fn type_of(b: u8) -> Option<PsoType> {
    match b {
        0x00 => Some(PsoType::Bool),
        0x01 => Some(PsoType::SByte),
        0x02 => Some(PsoType::UByte),
        0x03 => Some(PsoType::SShort),
        0x04 => Some(PsoType::UShort),
        0x05 => Some(PsoType::SInt),
        0x06 => Some(PsoType::UInt),
        0x07 => Some(PsoType::Float),
        0x08 => Some(PsoType::Float2),
        0x09 => Some(PsoType::Float3),
        0x0A => Some(PsoType::Float4),
        0x0B => Some(PsoType::String),
        0x0C => Some(PsoType::Structure),
        0x0D => Some(PsoType::Array),
        0x0E => Some(PsoType::Enum),
        0x0F => Some(PsoType::Flags),
        0x10 => Some(PsoType::MapType),
        0x14 => Some(PsoType::Float3a),
        0x15 => Some(PsoType::Float4a),
        0x1E => Some(PsoType::HFloat),
        0x20 => Some(PsoType::Long),
        _ => None,
    }
}

impl PsoType {
    /// The member type that a type byte stands for.
    pub fn from_byte(b: u8) -> (r: Option<Self>)
        ensures
            r == type_of(b),
    {
        match b {
            0x00 => Some(PsoType::Bool),
            0x01 => Some(PsoType::SByte),
            0x02 => Some(PsoType::UByte),
            0x03 => Some(PsoType::SShort),
            0x04 => Some(PsoType::UShort),
            0x05 => Some(PsoType::SInt),
            0x06 => Some(PsoType::UInt),
            0x07 => Some(PsoType::Float),
            0x08 => Some(PsoType::Float2),
            0x09 => Some(PsoType::Float3),
            0x0A => Some(PsoType::Float4),
            0x0B => Some(PsoType::String),
            0x0C => Some(PsoType::Structure),
            0x0D => Some(PsoType::Array),
            0x0E => Some(PsoType::Enum),
            0x0F => Some(PsoType::Flags),
            0x10 => Some(PsoType::MapType),
            0x14 => Some(PsoType::Float3a),
            0x15 => Some(PsoType::Float4a),
            0x1E => Some(PsoType::HFloat),
            0x20 => Some(PsoType::Long),
            _ => None,
        }
    }

    /// The type byte.
    pub open spec fn byte(self) -> u8 {
        match self {
            PsoType::Bool => 0x00,
            PsoType::SByte => 0x01,
            PsoType::UByte => 0x02,
            PsoType::SShort => 0x03,
            PsoType::UShort => 0x04,
            PsoType::SInt => 0x05,
            PsoType::UInt => 0x06,
            PsoType::Float => 0x07,
            PsoType::Float2 => 0x08,
            PsoType::Float3 => 0x09,
            PsoType::Float4 => 0x0A,
            PsoType::String => 0x0B,
            PsoType::Structure => 0x0C,
            PsoType::Array => 0x0D,
            PsoType::Enum => 0x0E,
            PsoType::Flags => 0x0F,
            PsoType::MapType => 0x10,
            PsoType::Float3a => 0x14,
            PsoType::Float4a => 0x15,
            PsoType::HFloat => 0x1E,
            PsoType::Long => 0x20,
        }
    }

    /// The type byte.
    pub fn to_byte(self) -> (b: u8)
        ensures
            b == self.byte(),
    {
        match self {
            PsoType::Bool => 0x00,
            PsoType::SByte => 0x01,
            PsoType::UByte => 0x02,
            PsoType::SShort => 0x03,
            PsoType::UShort => 0x04,
            PsoType::SInt => 0x05,
            PsoType::UInt => 0x06,
            PsoType::Float => 0x07,
            PsoType::Float2 => 0x08,
            PsoType::Float3 => 0x09,
            PsoType::Float4 => 0x0A,
            PsoType::String => 0x0B,
            PsoType::Structure => 0x0C,
            PsoType::Array => 0x0D,
            PsoType::Enum => 0x0E,
            PsoType::Flags => 0x0F,
            PsoType::MapType => 0x10,
            PsoType::Float3a => 0x14,
            PsoType::Float4a => 0x15,
            PsoType::HFloat => 0x1E,
            PsoType::Long => 0x20,
        }
    }
}

/// Every member type has its own byte.
pub proof fn law_type_bytes_are_exact(b: u8, ty: PsoType)
    ensures
        type_of(b) == Some(ty) <==> b == ty.byte(),
{
}

/// One member of a structure, as the schema describes it.
#[derive(Debug, Clone, Copy, PartialEq, Eq, Structural)]
pub struct PsoEntry {
    pub name_hash: u32,
    pub type_byte: u8,
    pub subtype: u8,
    pub offset: u16,
    pub ref_key: u32,
}

#[derive(Debug, Clone, PartialEq, Eq)]
pub struct PsoStructInfo {
    pub name_hash: u32,
    pub size: u32,
    pub entries: Vec<PsoEntry>,
}

#[derive(Debug, Clone, PartialEq, Eq)]
pub struct PsoEnumInfo {
    pub name_hash: u32,
    /// `(member name hash, value)`.
    pub entries: Vec<(u32, i32)>,
}

/// A data block: a slice of the data section holding one structure
/// instance or one array's storage.
#[derive(Debug, Clone, Copy, PartialEq, Eq, Structural)]
pub struct PsoBlock {
    pub name_hash: u32,
    pub offset: u32,
    pub length: u32,
}

/// A parsed PSO file: the data, the block table and the schema.
#[derive(Debug, Clone, PartialEq)]
pub struct PsoFile {
    /// The data section, whole.
    pub data: Vec<u8>,
    /// 1-based id of the block holding the root structure.
    pub root_id: u32,
    pub blocks: Vec<PsoBlock>,
    pub structs: HashMap<u32, PsoStructInfo>,
    pub enums: HashMap<u32, PsoEnumInfo>,
}

/// The model of a [`PsoStructInfo`].
#[verifier::ext_equal]
pub struct PsoStructView {
    pub name_hash: u32,
    pub size: u32,
    pub entries: Seq<PsoEntry>,
}

/// The model of a [`PsoEnumInfo`].
#[verifier::ext_equal]
pub struct PsoEnumView {
    pub name_hash: u32,
    pub entries: Seq<(u32, i32)>,
}

/// The model of a [`PsoFile`].
#[verifier::ext_equal]
pub struct PsoView {
    pub data: Seq<u8>,
    pub root_id: u32,
    pub blocks: Seq<PsoBlock>,
    pub structs: Map<u32, PsoStructView>,
    pub enums: Map<u32, PsoEnumView>,
}

impl View for PsoStructInfo {
    type V = PsoStructView;

    open spec fn view(&self) -> PsoStructView {
        PsoStructView { name_hash: self.name_hash, size: self.size, entries: self.entries@ }
    }
}

impl View for PsoEnumInfo {
    type V = PsoEnumView;

    open spec fn view(&self) -> PsoEnumView {
        PsoEnumView { name_hash: self.name_hash, entries: self.entries@ }
    }
}

impl View for PsoFile {
    type V = PsoView;

    open spec fn view(&self) -> PsoView {
        PsoView {
            data: self.data@,
            root_id: self.root_id,
            blocks: self.blocks@,
            structs: self.structs@.map_values(|s: PsoStructInfo| s@),
            enums: self.enums@.map_values(|e: PsoEnumInfo| e@),
        }
    }
}

// ─── parsing ─────────────────────────────────────────────────────────────────

/// Whether a file starts with the PSO magic.
pub open spec fn has_magic(data: Seq<u8>) -> bool {
    data.len() >= 4 && crate::bytes::be32(data, 0) == PSO_MAGIC
}

/// The block record at `at`.
pub open spec fn block_at(s: Seq<u8>, at: int) -> PsoBlock {
    PsoBlock {
        name_hash: crate::bytes::be32(s, at),
        offset: crate::bytes::be32(s, at + 4),
        length: crate::bytes::be32(s, at + 12),
    }
}

/// The `n` block records from `at` on.
pub open spec fn blocks_at(s: Seq<u8>, at: int, n: nat) -> Seq<PsoBlock> {
    Seq::new(n, |i: int| block_at(s, at + 16 * i))
}

/// Whether a block table has the later header: no count in the old place,
/// or one with its top bit set.
pub open spec fn late_map(s: Seq<u8>) -> bool {
    crate::bytes::be16(s, 12) == 0 || crate::bytes::be16(s, 12) >= 0x8000
}

/// A file with a block table section read into it.
pub open spec fn with_pmap(f: PsoView, s: Seq<u8>) -> Result<PsoView, PsoError> {
    if s.len() < 16 || (late_map(s) && s.len() < 24) {
        Err(PsoError::MapShort)
    } else {
        let count = if late_map(s) {
            crate::bytes::be16(s, 16)
        } else {
            crate::bytes::be16(s, 12)
        };
        let pos: int = if late_map(s) {
            24
        } else {
            16
        };
        if s.len() < pos + 16 * count {
            Err(PsoError::MapBlocks { count: count as u32, len: s.len() as usize })
        } else {
            Ok(
                PsoView {
                    root_id: crate::bytes::be32(s, 8),
                    blocks: f.blocks + blocks_at(s, pos, count as nat),
                    ..f
                },
            )
        }
    }
}

/// The member record at `at`.
pub open spec fn entry_at(s: Seq<u8>, at: int) -> PsoEntry {
    PsoEntry {
        name_hash: crate::bytes::be32(s, at),
        type_byte: s[at + 4],
        subtype: s[at + 5],
        offset: crate::bytes::be16(s, at + 6),
        ref_key: crate::bytes::be32(s, at + 8),
    }
}

/// The `n` member records from `at` on.
pub open spec fn entries_at(s: Seq<u8>, at: int, n: nat) -> Seq<PsoEntry> {
    Seq::new(n, |i: int| entry_at(s, at + 12 * i))
}

/// The enum member at `at`.
pub open spec fn enumerator_at(s: Seq<u8>, at: int) -> (u32, i32) {
    (crate::bytes::be32(s, at), crate::bytes::be32(s, at + 4) as i32)
}

/// The `n` enum members from `at` on.
pub open spec fn enumerators_at(s: Seq<u8>, at: int, n: nat) -> Seq<(u32, i32)> {
    Seq::new(n, |i: int| enumerator_at(s, at + 8 * i))
}

/// How many whole records of `stride` bytes lie between `base` and `len`.
pub open spec fn whole_records(base: int, stride: int, len: int) -> int {
    if len < base {
        0
    } else {
        (len - base) / stride
    }
}

/// `m` with a definition of that name, unless it has one already.
pub open spec fn or_insert<V>(m: Map<u32, V>, k: u32, v: V) -> Map<u32, V> {
    if m.contains_key(k) {
        m
    } else {
        m.insert(k, v)
    }
}

/// A file with schema entry `i` read into it.
pub open spec fn with_definition(f: PsoView, s: Seq<u8>, i: int) -> Result<PsoView, PsoError> {
    let name = crate::bytes::be32(s, 12 + 8 * i);
    let offset = crate::bytes::be32(s, 16 + 8 * i);
    if offset + 4 > s.len() {
        Err(PsoError::EntryBounds { index: i as u32, offset })
    } else {
        let word = crate::bytes::be32(s, offset as int);
        if word / 0x100_0000 == 0 {
            let n = (word % 0x1_0000) as int;
            if offset + 8 > s.len() {
                Err(PsoError::EntryBounds { index: i as u32, offset })
            } else if n > whole_records(offset + 12, 12, s.len() as int) {
                Err(
                    PsoError::MemberBounds {
                        structure: name,
                        index: whole_records(offset + 12, 12, s.len() as int) as u32,
                    },
                )
            } else {
                Ok(
                    PsoView {
                        structs: or_insert(
                            f.structs,
                            name,
                            PsoStructView {
                                name_hash: name,
                                size: crate::bytes::be32(s, offset + 4),
                                entries: entries_at(s, offset + 12, n as nat),
                            },
                        ),
                        ..f
                    },
                )
            }
        } else if word / 0x100_0000 == 1 {
            let n = (word % 0x100_0000) as int;
            if n > whole_records(offset + 4, 8, s.len() as int) {
                Err(
                    PsoError::EnumBounds {
                        name,
                        index: whole_records(offset + 4, 8, s.len() as int) as u32,
                    },
                )
            } else {
                Ok(
                    PsoView {
                        enums: or_insert(
                            f.enums,
                            name,
                            PsoEnumView {
                                name_hash: name,
                                entries: enumerators_at(s, offset + 4, n as nat),
                            },
                        ),
                        ..f
                    },
                )
            }
        } else {
            Err(PsoError::EntryType(word / 0x100_0000))
        }
    }
}

/// A file with the schema entries from `i` to `count` read into it.
pub open spec fn with_definitions(f: PsoView, s: Seq<u8>, i: int, count: int) -> Result<
    PsoView,
    PsoError,
>
    decreases count - i,
{
    if i >= count {
        Ok(f)
    } else {
        match with_definition(f, s, i) {
            Ok(g) => with_definitions(g, s, i + 1, count),
            Err(e) => Err(e),
        }
    }
}

/// A file with a schema section read into it.
pub open spec fn with_psch(f: PsoView, s: Seq<u8>) -> Result<PsoView, PsoError> {
    if s.len() < 12 {
        Err(PsoError::SchemaShort)
    } else if s.len() < 12 + 8 * crate::bytes::be32(s, 8) {
        Err(PsoError::SchemaList { count: crate::bytes::be32(s, 8), len: s.len() as usize })
    } else {
        with_definitions(f, s, 0, crate::bytes::be32(s, 8) as int)
    }
}

/// A file with one section read into it; unknown sections are skipped.
pub open spec fn with_section(f: PsoView, ident: u32, s: Seq<u8>) -> Result<PsoView, PsoError> {
    if ident == SECTION_PSIN {
        Ok(PsoView { data: s, ..f })
    } else if ident == SECTION_PMAP {
        with_pmap(f, s)
    } else if ident == SECTION_PSCH {
        with_psch(f, s)
    } else {
        Ok(f)
    }
}

/// A file with the sections from `pos` on read into it, and whether a block
/// table was among them.
pub open spec fn with_sections(f: PsoView, saw_map: bool, data: Seq<u8>, pos: int) -> Result<
    (PsoView, bool),
    PsoError,
>
    decreases data.len() - pos,
{
    if pos + 8 > data.len() {
        Ok((f, saw_map))
    } else {
        let ident = crate::bytes::be32(data, pos);
        let length = crate::bytes::be32(data, pos + 4) as int;
        if length < 8 || pos + length > data.len() {
            Err(PsoError::SectionBounds { ident, pos: pos as usize })
        } else {
            match with_section(f, ident, data.subrange(pos, pos + length)) {
                Ok(g) => with_sections(g, saw_map || ident == SECTION_PMAP, data, pos + length),
                Err(e) => Err(e),
            }
        }
    }
}

/// A file with nothing read yet.
pub open spec fn blank() -> PsoView {
    PsoView {
        data: Seq::empty(),
        root_id: 0,
        blocks: Seq::empty(),
        structs: Map::empty(),
        enums: Map::empty(),
    }
}

/// What a PSO file parses to.
pub open spec fn parsed(data: Seq<u8>) -> Result<PsoView, PsoError> {
    if !has_magic(data) {
        Err(
            PsoError::NotPso(
                if data.len() >= 4 {
                    crate::bytes::be32(data, 0)
                } else {
                    0
                },
            ),
        )
    } else {
        match with_sections(blank(), false, data, 0) {
            Ok((f, saw_map)) => if f.data.len() == 0 {
                Err(PsoError::NoData)
            } else if !saw_map {
                Err(PsoError::NoMap)
            } else {
                Ok(f)
            },
            Err(e) => Err(e),
        }
    }
}

/// The model behind a parse result.
pub open spec fn file_view(r: Result<PsoFile, PsoError>) -> Result<PsoView, PsoError> {
    match r {
        Ok(f) => Ok(f@),
        Err(e) => Err(e),
    }
}

/// The big-endian `u16` at `off`.
pub fn u16_be(b: &[u8], off: usize) -> (r: u16)
    requires
        off + 2 <= b@.len(),
    ensures
        r == crate::bytes::be16(b@, off as int),
{
    assert(off + 2 <= b.len());
    0x100 * b[off] as u16 + b[off + 1] as u16
}

/// The big-endian `u32` at `off`.
pub fn u32_be(b: &[u8], off: usize) -> (r: u32)
    requires
        off + 4 <= b@.len(),
    ensures
        r == crate::bytes::be32(b@, off as int),
{
    assert(off + 4 <= b.len());
    0x100_0000 * b[off] as u32 + 0x1_0000 * b[off + 1] as u32 + 0x100 * b[off + 2] as u32 + b[off
        + 3] as u32
}

/// The big-endian `u64` at `off`.
pub fn u64_be(b: &[u8], off: usize) -> (r: u64)
    requires
        off + 8 <= b@.len(),
    ensures
        r == crate::bytes::be64(b@, off as int),
{
    assert(off + 8 <= b.len());
    0x1_0000_0000 * u32_be(b, off) as u64 + u32_be(b, off + 4) as u64
}

/// True when `data` starts with the PSO magic.
pub fn is_pso(data: &[u8]) -> (r: bool)
    ensures
        r == has_magic(data@),
{
    data.len() >= 4 && u32_be(data, 0) == PSO_MAGIC
}

/// Parses the section table and schema of a PSO file.
pub fn parse_pso(data: &[u8]) -> (r: Result<PsoFile, PsoError>)
    ensures
        file_view(r) == parsed(data@),
        r is Ok ==> r->Ok_0.wf(),
{
    if !is_pso(data) {
        let magic: u32 = if data.len() >= 4 {
            u32_be(data, 0)
        } else {
            0
        };
        return Err(PsoError::NotPso(magic));
    }
    let mut file = PsoFile {
        data: Vec::new(),
        root_id: 0,
        blocks: Vec::new(),
        structs: HashMap::new(),
        enums: HashMap::new(),
    };
    let mut pos: usize = 0;
    let mut saw_map = false;
    assert(file@ =~= blank());
    while data.len() - pos >= 8
        invariant
            pos <= data@.len(),
            has_magic(data@),
            file.wf(),
            with_sections(blank(), false, data@, 0) == with_sections(
                file@,
                saw_map,
                data@,
                pos as int,
            ),
        decreases data@.len() - pos,
    {
        let ident = u32_be(data, pos);
        let length = u32_be(data, pos + 4) as usize;
        if length < 8 || length > data.len() - pos {
            return Err(PsoError::SectionBounds { ident, pos });
        }
        let section = slice_subrange(data, pos, pos + length);
        let ghost before = file@;
        if ident == SECTION_PSIN {
            file.data = to_vec(section);
            assert(file@ =~= (PsoView { data: section@, ..before }));
        } else if ident == SECTION_PMAP {
            match parse_pmap(section, &mut file) {
                Ok(()) => {},
                Err(e) => {
                    return Err(e);
                },
            }
            saw_map = true;
        } else if ident == SECTION_PSCH {
            match parse_psch(section, &mut file) {
                Ok(()) => {},
                Err(e) => {
                    return Err(e);
                },
            }
        }
        pos += length;
    }
    if file.data.len() == 0 {
        return Err(PsoError::NoData);
    }
    if !saw_map {
        return Err(PsoError::NoMap);
    }
    Ok(file)
}

/// Reads the block table into the file.
fn parse_pmap(section: &[u8], file: &mut PsoFile) -> (r: Result<(), PsoError>)
    requires
        old(file).wf(),
    ensures
        final(file).wf(),
        with_pmap(old(file)@, section@) == (match r {
            Ok(_) => Ok(final(file)@),
            Err(e) => Err(e),
        }),
{
    let ghost before = file@;
    if section.len() < 16 {
        return Err(PsoError::MapShort);
    }
    let mut count: u16 = u16_be(section, 12);
    let mut pos: usize = 16;
    if count == 0 || count >= 0x8000 {
        if section.len() < 24 {
            return Err(PsoError::MapShort);
        }
        count = u16_be(section, 16);
        pos = 24;
    }
    if section.len() < pos + 16 * count as usize {
        return Err(PsoError::MapBlocks { count: count as u32, len: section.len() });
    }
    file.root_id = u32_be(section, 8);
    let ghost mid = file@;
    let mut i: usize = 0;
    while i < count as usize
        invariant
            i <= count,
            16 <= pos <= 24,
            pos + 16 * count <= section@.len(),
            file.wf(),
            file@ == (PsoView {
                blocks: before.blocks + blocks_at(section@, pos as int, i as nat),
                root_id: crate::bytes::be32(section@, 8),
                ..before
            }),
        decreases count - i,
    {
        let off = pos + i * 16;
        file.blocks.push(
            PsoBlock {
                name_hash: u32_be(section, off),
                offset: u32_be(section, off + 4),
                length: u32_be(section, off + 12),
            },
        );
        i += 1;
        assert(file@.blocks =~= before.blocks + blocks_at(section@, pos as int, i as nat));
    }
    Ok(())
}

/// Reads the member records of a structure.
fn parse_entries(section: &[u8], base: u64, count: usize, structure: u32) -> (r: Result<
    Vec<PsoEntry>,
    PsoError,
>)
    requires
        count < 0x1_0000,
        base <= 0x1_0000_000F,
    ensures
        match r {
            Ok(v) => count <= whole_records(base as int, 12, section@.len() as int) && v@
                == entries_at(section@, base as int, count as nat),
            Err(e) => count > whole_records(base as int, 12, section@.len() as int) && e == (
            PsoError::MemberBounds {
                structure,
                index: whole_records(base as int, 12, section@.len() as int) as u32,
            }),
        },
{
    let mut out: Vec<PsoEntry> = Vec::new();
    let mut n: usize = 0;
    while n < count
        invariant
            n <= count < 0x1_0000,
            base <= 0x1_0000_000F,
            n > 0 ==> base + 12 * n <= section@.len(),
            out@ == entries_at(section@, base as int, n as nat),
        decreases count - n,
    {
        if base + 12 * n as u64 + 12 > section.len() as u64 {
            return Err(PsoError::MemberBounds { structure, index: n as u32 });
        }
        let e: usize = base as usize + n * 12;
        out.push(
            PsoEntry {
                name_hash: u32_be(section, e),
                type_byte: section[e + 4],
                subtype: section[e + 5],
                offset: u16_be(section, e + 6),
                ref_key: u32_be(section, e + 8),
            },
        );
        n += 1;
        assert(out@ =~= entries_at(section@, base as int, n as nat));
    }
    Ok(out)
}

/// Reads the members of an enum.
fn parse_enumerators(section: &[u8], base: u64, count: usize, name: u32) -> (r: Result<
    Vec<(u32, i32)>,
    PsoError,
>)
    requires
        count < 0x100_0000,
        base <= 0x1_0000_000F,
    ensures
        match r {
            Ok(v) => count <= whole_records(base as int, 8, section@.len() as int) && v@
                == enumerators_at(section@, base as int, count as nat),
            Err(e) => count > whole_records(base as int, 8, section@.len() as int) && e == (
            PsoError::EnumBounds {
                name,
                index: whole_records(base as int, 8, section@.len() as int) as u32,
            }),
        },
{
    let mut out: Vec<(u32, i32)> = Vec::new();
    let mut n: usize = 0;
    while n < count
        invariant
            n <= count < 0x100_0000,
            base <= 0x1_0000_000F,
            n > 0 ==> base + 8 * n <= section@.len(),
            out@ == enumerators_at(section@, base as int, n as nat),
        decreases count - n,
    {
        if base + 8 * n as u64 + 8 > section.len() as u64 {
            return Err(PsoError::EnumBounds { name, index: n as u32 });
        }
        let e: usize = base as usize + n * 8;
        out.push((u32_be(section, e), u32_be(section, e + 4) as i32));
        n += 1;
        assert(out@ =~= enumerators_at(section@, base as int, n as nat));
    }
    Ok(out)
}

/// Reads one schema entry into the file.
fn parse_definition(section: &[u8], i: u32, file: &mut PsoFile) -> (r: Result<(), PsoError>)
    requires
        old(file).wf(),
        20 + 8 * i <= section@.len(),
    ensures
        final(file).wf(),
        with_definition(old(file)@, section@, i as int) == (match r {
            Ok(_) => Ok(final(file)@),
            Err(e) => Err(e),
        }),
{
    let ghost before = file@;
    assert(20 + 8 * i <= section.len());
    let at: usize = 12 + 8 * i as usize;
    let name_hash = u32_be(section, at);
    let offset32 = u32_be(section, at + 4);
    let offset = offset32 as usize;
    if section.len() < 4 || offset > section.len() - 4 {
        return Err(PsoError::EntryBounds { index: i, offset: offset32 });
    }
    let word = u32_be(section, offset);
    let kind = word / 0x100_0000;
    if kind == 0 {
        if section.len() < 8 || offset > section.len() - 8 {
            return Err(PsoError::EntryBounds { index: i, offset: offset32 });
        }
        let size = u32_be(section, offset + 4);
        let entries = match parse_entries(
            section,
            offset as u64 + 12,
            (word % 0x1_0000) as usize,
            name_hash,
        ) {
            Ok(v) => v,
            Err(e) => {
                return Err(e);
            },
        };
        let info = PsoStructInfo { name_hash, size, entries };
        let ghost made = info@;
        if !file.structs.contains_key(&name_hash) {
            file.structs.insert(name_hash, info);
        }
        assert(file@.structs =~= or_insert(before.structs, name_hash, made));
    } else if kind == 1 {
        let entries = match parse_enumerators(
            section,
            offset as u64 + 4,
            (word % 0x100_0000) as usize,
            name_hash,
        ) {
            Ok(v) => v,
            Err(e) => {
                return Err(e);
            },
        };
        let info = PsoEnumInfo { name_hash, entries };
        let ghost made = info@;
        if !file.enums.contains_key(&name_hash) {
            file.enums.insert(name_hash, info);
        }
        assert(file@.enums =~= or_insert(before.enums, name_hash, made));
    } else {
        return Err(PsoError::EntryType(kind));
    }
    Ok(())
}

/// Reads the schema into the file.
fn parse_psch(section: &[u8], file: &mut PsoFile) -> (r: Result<(), PsoError>)
    requires
        old(file).wf(),
    ensures
        final(file).wf(),
        with_psch(old(file)@, section@) == (match r {
            Ok(_) => Ok(final(file)@),
            Err(e) => Err(e),
        }),
{
    let ghost before = file@;
    if section.len() < 12 {
        return Err(PsoError::SchemaShort);
    }
    let count = u32_be(section, 8);
    if (section.len() as u64) < 12 + 8 * count as u64 {
        return Err(PsoError::SchemaList { count, len: section.len() });
    }
    let mut i: u32 = 0;
    while i < count
        invariant
            i <= count,
            12 + 8 * count <= section@.len(),
            count == crate::bytes::be32(section@, 8),
            before == old(file)@,
            file.wf(),
            with_definitions(before, section@, 0, count as int) == with_definitions(
                file@,
                section@,
                i as int,
                count as int,
            ),
        decreases count - i,
    {
        match parse_definition(section, i, file) {
            Ok(()) => {},
            Err(e) => {
                return Err(e);
            },
        }
        i += 1;
    }
    Ok(())
}

impl PsoFile {
    /// The data section is as long as a 32-bit section length can say.
    pub open spec fn wf(&self) -> bool {
        self.data@.len() <= u32::MAX
    }

    /// The whole data section (section header included, as offsets count
    /// from the start of the file).
    pub fn data(&self) -> (r: &[u8])
        ensures
            r@ == self@.data,
    {
        self.data.as_slice()
    }

    /// The block with 1-based id `id`.
    pub fn block(&self, id: u32) -> (r: Option<&PsoBlock>)
        ensures
            match r {
                Some(b) => block_of(self@, id) == Some(*b),
                None => block_of(self@, id) is None,
            },
    {
        if id == 0 || id as usize - 1 >= self.blocks.len() {
            None
        } else {
            Some(&self.blocks[id as usize - 1])
        }
    }

    /// The root structure's type hash.
    pub fn root_type(&self) -> (r: Option<u32>)
        ensures
            r == match block_of(self@, self@.root_id) {
                Some(b) => Some(b.name_hash),
                None => None,
            },
    {
        match self.block(self.root_id) {
            Some(b) => Some(b.name_hash),
            None => None,
        }
    }
}

/// The block with 1-based id `id`.
pub open spec fn block_of(f: PsoView, id: u32) -> Option<PsoBlock> {
    if 0 < id <= f.blocks.len() {
        Some(f.blocks[id - 1])
    } else {
        None
    }
}

// ─── walking ─────────────────────────────────────────────────────────────────

/// What reading one value gives: the value, and what went wrong on the way.
#[verifier::ext_equal]
pub struct Read {
    pub value: ValueView,
    pub warnings: Seq<Warning>,
}

/// A value read without trouble.
pub open spec fn plain(value: ValueView) -> Read {
    Read { value, warnings: Seq::empty() }
}

/// A value that could not be read.
pub open spec fn failed(w: Warning) -> Read {
    Read { value: ValueView::Null, warnings: seq![w] }
}

/// A member that could not be read.
pub open spec fn faulty(info: PsoStructView, entry: PsoEntry, fault: MemberFault) -> Read {
    failed(Warning::Member { structure: info.name_hash, member: entry.name_hash, fault })
}

/// What a packed pointer points at: the block with the 1-based id in its
/// low 12 bits, and the place that many bytes into it as its next 20 say.
pub open spec fn pointee(f: PsoView, raw: u32) -> Option<(PsoBlock, int)> {
    match block_of(f, (raw % 0x1000) as u32) {
        Some(b) => Some((b, b.offset + raw / 0x1000)),
        None => None,
    }
}

/// The text that a `String` member of some subtype holds.
pub open spec fn read_string(f: PsoView, subtype: u8, ref_key: u32, abs: int) -> Read {
    if subtype == 0 {
        let len = (ref_key / 0x1_0000) as int;
        match crate::resource::window(f.data, abs, len) {
            Some(b) => plain(ValueView::Str(crate::text::nul_text(b))),
            None => failed(Warning::StringBounds { len: len as u64, at: abs as u64 }),
        }
    } else if subtype == 1 || subtype == 2 {
        match crate::resource::window(f.data, abs, 8) {
            None => failed(Warning::StringPointerBounds(abs as u64)),
            Some(b) => {
                let raw = crate::bytes::be32(b, 0);
                if raw == 0 {
                    plain(ValueView::Str(Seq::empty()))
                } else {
                    match pointee(f, raw) {
                        Some((_, target)) => if target <= f.data.len() {
                            plain(
                                ValueView::Str(
                                    crate::text::nul_text(
                                        f.data.subrange(
                                            target,
                                            crate::resource::least(f.data.len() as int, target + 4096),
                                        ),
                                    ),
                                ),
                            )
                        } else {
                            failed(Warning::StringPointerDangles(abs as u64))
                        },
                        None => failed(Warning::StringPointerDangles(abs as u64)),
                    }
                }
            },
        }
    } else if subtype == 3 {
        match crate::resource::window(f.data, abs, 16) {
            None => failed(Warning::CharPointerBounds(abs as u64)),
            Some(b) => {
                let count = crate::bytes::be16(b, 8) as int;
                let cap = crate::bytes::be16(b, 10) as int;
                let len = if cap == 0 {
                    count
                } else {
                    crate::resource::least(count, cap)
                };
                if len == 0 {
                    plain(ValueView::Str(Seq::empty()))
                } else {
                    let target = match pointee(f, crate::bytes::be32(b, 0)) {
                        Some((_, t)) => crate::resource::window(f.data, t, len),
                        None => None,
                    };
                    match target {
                        Some(text) => plain(ValueView::Str(crate::text::nul_text(text))),
                        None => failed(Warning::CharPointerDangles(abs as u64)),
                    }
                }
            },
        }
    } else if subtype == 7 || subtype == 8 {
        match crate::resource::window(f.data, abs, 4) {
            Some(b) => plain(ValueView::Hash(crate::bytes::be32(b, 0))),
            None => failed(Warning::HashBounds(abs as u64)),
        }
    } else {
        failed(Warning::StringSubtype { subtype, at: abs as u64 })
    }
}

/// How many bytes a plain member takes.
pub open spec fn scalar_len(ty: PsoType) -> int {
    match ty {
        PsoType::Bool | PsoType::SByte | PsoType::UByte => 1,
        PsoType::SShort | PsoType::UShort | PsoType::HFloat => 2,
        PsoType::SInt | PsoType::UInt | PsoType::Float => 4,
        PsoType::Long | PsoType::Float2 => 8,
        PsoType::Float3 | PsoType::Float3a | PsoType::Float4a => 12,
        _ => 16,
    }
}

/// The value of a plain member. A half float is kept as its bits: signed in
/// a member, unsigned in an array.
pub open spec fn scalar_value(ty: PsoType, in_array: bool, b: Seq<u8>) -> ValueView {
    match ty {
        PsoType::Bool => ValueView::Bool(b[0] != 0),
        PsoType::SByte => ValueView::I8(b[0] as i8),
        PsoType::UByte => ValueView::U8(b[0]),
        PsoType::SShort => ValueView::I16(crate::bytes::be16(b, 0) as i16),
        PsoType::UShort => ValueView::U16(crate::bytes::be16(b, 0)),
        PsoType::HFloat => if in_array {
            ValueView::U16(crate::bytes::be16(b, 0))
        } else {
            ValueView::I16(crate::bytes::be16(b, 0) as i16)
        },
        PsoType::SInt => ValueView::I32(crate::bytes::be32(b, 0) as i32),
        PsoType::UInt => ValueView::U32(crate::bytes::be32(b, 0)),
        PsoType::Long => ValueView::U64(crate::bytes::be64(b, 0)),
        PsoType::Float => ValueView::F32(crate::bytes::be32(b, 0)),
        PsoType::Float2 => ValueView::Vec2(Vec2 { x: crate::bytes::be32(b, 0), y: crate::bytes::be32(b, 4) }),
        PsoType::Float3 | PsoType::Float3a | PsoType::Float4a => ValueView::Vec3(
            Vec3 { x: crate::bytes::be32(b, 0), y: crate::bytes::be32(b, 4), z: crate::bytes::be32(b, 8) },
        ),
        _ => ValueView::Vec4(
            Vec4 { x: crate::bytes::be32(b, 0), y: crate::bytes::be32(b, 4), z: crate::bytes::be32(b, 8), w: crate::bytes::be32(b, 12) },
        ),
    }
}

/// The name that an enum of the file gives a value.
pub open spec fn enum_name(f: PsoView, enum_hash: u32, value: i32) -> Option<u32> {
    if f.enums.contains_key(enum_hash) {
        crate::value::first_name(f.enums[enum_hash].entries, value)
    } else {
        None
    }
}

/// An `Enum` member.
pub open spec fn read_enum(f: PsoView, info: PsoStructView, entry: PsoEntry, abs: int) -> Read {
    let len: int = if entry.subtype == 0 {
        4
    } else {
        1
    };
    if entry.subtype != 0 && entry.subtype != 2 {
        faulty(info, entry, MemberFault::EnumSubtype(entry.subtype))
    } else {
        match crate::resource::window(f.data, abs, len) {
            None => faulty(
                info,
                entry,
                MemberFault::Bounds { len: len as u64, at: abs as u64 },
            ),
            Some(b) => {
                let value = if entry.subtype == 0 {
                    crate::bytes::be32(b, 0) as i32
                } else {
                    b[0] as i32
                };
                plain(
                    ValueView::Enum {
                        enum_hash: entry.ref_key,
                        value,
                        name: enum_name(f, entry.ref_key, value),
                    },
                )
            },
        }
    }
}

/// The enum that names the bits of a `Flags` member: the one that the
/// `ARRAYINFO` entry at the index in the low 12 bits of `ref_key` names.
pub open spec fn flags_enum(info: PsoStructView, ref_key: u32) -> u32 {
    let idx = (ref_key % 0x1000) as int;
    if idx < info.entries.len() && info.entries[idx].name_hash == ARRAYINFO {
        info.entries[idx].ref_key
    } else {
        0
    }
}

/// A `Flags` member.
pub open spec fn read_flags(f: PsoView, info: PsoStructView, entry: PsoEntry, abs: int) -> Read {
    let len: int = if entry.subtype == 0 {
        4
    } else if entry.subtype == 1 {
        2
    } else {
        1
    };
    if entry.subtype > 2 {
        faulty(info, entry, MemberFault::FlagsSubtype(entry.subtype))
    } else {
        match crate::resource::window(f.data, abs, len) {
            None => faulty(
                info,
                entry,
                MemberFault::Bounds { len: len as u64, at: abs as u64 },
            ),
            Some(b) => {
                let bits = if entry.subtype == 0 {
                    crate::bytes::be32(b, 0)
                } else if entry.subtype == 1 {
                    crate::bytes::be16(b, 0) as u32
                } else {
                    b[0] as u32
                };
                let enum_hash = flags_enum(info, entry.ref_key);
                plain(
                    ValueView::Flags {
                        enum_hash,
                        bits,
                        names: if f.enums.contains_key(enum_hash) {
                            crate::value::flag_names(f.enums[enum_hash].entries, bits)
                        } else {
                            Seq::empty()
                        },
                    },
                )
            },
        }
    }
}

/// The size of a structure, zero where the file does not define it.
pub open spec fn size_of_struct(f: PsoView, type_hash: u32) -> u32 {
    if f.structs.contains_key(type_hash) {
        f.structs[type_hash].size
    } else {
        0
    }
}

/// The structure type that an array names for its elements.
pub open spec fn item_type_of(elem: PsoEntry) -> Option<u32> {
    if elem.type_byte == 0x0C && elem.ref_key != 0 {
        Some(elem.ref_key)
    } else {
        None
    }
}

/// The structure of type `type_hash` at `abs`, `depth` structures deep.
pub open spec fn read_struct(f: PsoView, type_hash: u32, abs: int, depth: nat) -> Read
    decreases 66 - depth, 0int, 0int,
{
    if depth > 64 {
        failed(Warning::TooDeep)
    } else if !f.structs.contains_key(type_hash) {
        failed(Warning::NoSchema(type_hash))
    } else {
        let info = f.structs[type_hash];
        let r = read_fields(f, info, abs, depth + 1, info.entries.len());
        Read {
            value: ValueView::Struct(StructView { type_hash, fields: r.0 }),
            warnings: r.1,
        }
    }
}

/// The first `k` members of a structure at `abs`, in schema order, the
/// element descriptors left out.
pub open spec fn read_fields(f: PsoView, info: PsoStructView, abs: int, depth: nat, k: nat) -> (
    Seq<(u32, ValueView)>,
    Seq<Warning>,
)
    decreases 66 - depth, 4int, k,
{
    if k == 0 {
        (Seq::empty(), Seq::empty())
    } else {
        let before = read_fields(f, info, abs, depth, (k - 1) as nat);
        let entry = info.entries[k - 1];
        if entry.name_hash == ARRAYINFO {
            before
        } else {
            let r = read_member(f, info, entry, abs + entry.offset, depth);
            (before.0.push((entry.name_hash, r.value)), before.1 + r.warnings)
        }
    }
}

/// The structure that a pointer leads to; the block says of which type.
pub open spec fn read_pointee(f: PsoView, raw: u32, depth: nat) -> Option<Read>
    decreases 66 - depth, 1int, 0int,
{
    match pointee(f, raw) {
        Some((block, target)) => Some(read_struct(f, block.name_hash, target, depth)),
        None => None,
    }
}

/// The member `entry` of a structure, at `abs`.
pub open spec fn read_member(
    f: PsoView,
    info: PsoStructView,
    entry: PsoEntry,
    abs: int,
    depth: nat,
) -> Read
    decreases 66 - depth, 3int, 0int,
{
    match type_of(entry.type_byte) {
        None => faulty(info, entry, MemberFault::UnknownType(entry.type_byte)),
        Some(PsoType::String) => read_string(f, entry.subtype, entry.ref_key, abs),
        Some(PsoType::Enum) => read_enum(f, info, entry, abs),
        Some(PsoType::Flags) => read_flags(f, info, entry, abs),
        Some(PsoType::Structure) => if entry.subtype == 0 {
            read_struct(f, entry.ref_key, abs, depth)
        } else if entry.subtype == 3 || entry.subtype == 4 {
            match crate::resource::window(f.data, abs, 8) {
                None => faulty(info, entry, MemberFault::Bounds { len: 8, at: abs as u64 }),
                Some(b) => if crate::bytes::be32(b, 0) == 0 {
                    plain(ValueView::Null)
                } else {
                    match read_pointee(f, crate::bytes::be32(b, 0), depth) {
                        Some(r) => r,
                        None => faulty(info, entry, MemberFault::DanglingStructure),
                    }
                },
            }
        } else {
            faulty(info, entry, MemberFault::StructureSubtype(entry.subtype))
        },
        Some(PsoType::Array) => read_array(f, info, entry, abs, depth),
        Some(PsoType::MapType) => read_map(f, info, entry, abs, depth),
        Some(ty) => match crate::resource::window(f.data, abs, scalar_len(ty)) {
            Some(b) => plain(scalar_value(ty, false, b)),
            None => faulty(
                info,
                entry,
                MemberFault::Bounds { len: scalar_len(ty) as u64, at: abs as u64 },
            ),
        },
    }
}

/// The element descriptor of an array member: the entry that `ref_key`
/// indexes (low 16 bits, or 12 when that is out of range).
pub open spec fn element_of(info: PsoStructView, entry: PsoEntry) -> Option<PsoEntry> {
    let wide = (entry.ref_key % 0x1_0000) as int;
    let narrow = (entry.ref_key % 0x1000) as int;
    if wide < info.entries.len() {
        Some(info.entries[wide])
    } else if narrow < info.entries.len() {
        Some(info.entries[narrow])
    } else {
        None
    }
}

/// An `Array` member: a pointer and a count for subtype 0 (and 4 when the
/// elements are pointers), inline at the member itself otherwise, with the
/// count in `ref_key`'s high half.
pub open spec fn read_array(
    f: PsoView,
    info: PsoStructView,
    entry: PsoEntry,
    abs: int,
    depth: nat,
) -> Read
    decreases 66 - depth, 2int, 0x2_0000int,
{
    match element_of(info, entry) {
        None => faulty(info, entry, MemberFault::ArrayWithoutInfo),
        Some(elem) => if entry.subtype == 0 || (entry.subtype == 4 && elem.subtype == 3) {
            match crate::resource::window(f.data, abs, 16) {
                None => faulty(info, entry, MemberFault::ArrayHeader),
                Some(b) => if crate::bytes::be16(b, 8) == 0 {
                    plain(
                        ValueView::Array(
                            ArrayView {
                                item_type: item_type_of(elem),
                                typed_items: elem.subtype == 3,
                                items: Seq::empty(),
                            },
                        ),
                    )
                } else {
                    match pointee(f, crate::bytes::be32(b, 0)) {
                        Some((_, target)) => read_elements(
                            f,
                            elem,
                            target,
                            crate::bytes::be16(b, 8) as nat,
                            depth,
                        ),
                        None => faulty(info, entry, MemberFault::ArrayDangles),
                    }
                },
            }
        } else {
            read_elements(f, elem, abs, (entry.ref_key / 0x1_0000) as nat, depth)
        },
    }
}

/// What reading one element of an array comes to.
#[verifier::ext_equal]
pub enum Step {
    /// The element does not lie in the file, and the array ends before it.
    Stop(Warning),
    Item(Read),
}

/// How far apart the elements of an array lie, zero where nothing says.
pub open spec fn stride_of(f: PsoView, elem: PsoEntry, ty: PsoType) -> int {
    match ty {
        PsoType::Structure => if elem.subtype == 3 {
            8
        } else {
            size_of_struct(f, elem.ref_key) as int
        },
        PsoType::String => if elem.subtype == 0 {
            (elem.ref_key / 0x1_0000) as int
        } else if elem.subtype == 2 {
            8
        } else if elem.subtype == 3 {
            16
        } else {
            4
        },
        PsoType::Enum => 4,
        PsoType::Array => 16,
        PsoType::Float3 | PsoType::Float3a | PsoType::Float4a => 16,
        _ => scalar_len(ty),
    }
}

/// Element `n` of an array at `start`.
pub open spec fn read_element(
    f: PsoView,
    elem: PsoEntry,
    ty: PsoType,
    start: int,
    n: nat,
    depth: nat,
) -> Step
    decreases 66 - depth, 2int, 0int,
{
    let stride = stride_of(f, elem, ty);
    let at = start + n * stride;
    match ty {
        PsoType::Structure => match crate::resource::window(f.data, at, stride) {
            None => Step::Stop(
                if elem.subtype == 3 {
                    Warning::PointerBounds(n as u64)
                } else {
                    Warning::StructureBounds(n as u64)
                },
            ),
            Some(b) => Step::Item(
                if elem.subtype == 3 {
                    match read_pointee(f, crate::bytes::be32(b, 0), depth) {
                        Some(r) => r,
                        None => if crate::bytes::be32(b, 0) == 0 {
                            plain(ValueView::Null)
                        } else {
                            failed(Warning::PointerDangles(n as u64))
                        },
                    }
                } else {
                    read_struct(f, elem.ref_key, at, depth)
                },
            ),
        },
        PsoType::Array => Step::Item(
            plain(
                ValueView::Array(
                    ArrayView { item_type: None, typed_items: false, items: Seq::empty() },
                ),
            ),
        ),
        PsoType::String => if elem.subtype == 2 || elem.subtype == 3 {
            Step::Item(read_string(f, elem.subtype, elem.ref_key, at))
        } else {
            match crate::resource::window(f.data, at, stride) {
                None => Step::Stop(Warning::ElementBounds { n: n as u64, at: at as u64 }),
                Some(b) => Step::Item(
                    if elem.subtype == 0 {
                        plain(ValueView::Str(crate::text::nul_text(b)))
                    } else {
                        plain(ValueView::Hash(crate::bytes::be32(b, 0)))
                    },
                ),
            }
        },
        _ => match crate::resource::window(f.data, at, stride) {
            None => Step::Stop(Warning::ElementBounds { n: n as u64, at: at as u64 }),
            Some(b) => Step::Item(
                if ty == PsoType::Enum {
                    plain(
                        ValueView::Enum {
                            enum_hash: elem.ref_key,
                            value: crate::bytes::be32(b, 0) as i32,
                            name: enum_name(f, elem.ref_key, crate::bytes::be32(b, 0) as i32),
                        },
                    )
                } else {
                    plain(scalar_value(ty, true, b))
                },
            ),
        },
    }
}

/// The elements from `n` to `count`, up to the first that does not lie in
/// the file.
pub open spec fn elements_from(
    f: PsoView,
    elem: PsoEntry,
    ty: PsoType,
    start: int,
    n: nat,
    count: nat,
    depth: nat,
) -> (Seq<ValueView>, Seq<Warning>)
    decreases 66 - depth, 2int, count - n,
{
    if n >= count {
        (Seq::empty(), Seq::empty())
    } else {
        match read_element(f, elem, ty, start, n, depth) {
            Step::Stop(w) => (Seq::empty(), seq![w]),
            Step::Item(r) => {
                let rest = elements_from(f, elem, ty, start, n + 1, count, depth);
                (seq![r.value] + rest.0, r.warnings + rest.1)
            },
        }
    }
}

/// Why an array of such elements cannot be read at all.
pub open spec fn array_refused(f: PsoView, elem: PsoEntry) -> Option<Warning> {
    match type_of(elem.type_byte) {
        None => Some(Warning::ElementType(elem.type_byte)),
        Some(PsoType::Flags) => Some(Warning::ArrayOfFlags),
        Some(PsoType::MapType) => Some(Warning::ArrayOfMaps),
        Some(PsoType::Structure) => if elem.subtype != 3 && size_of_struct(f, elem.ref_key) == 0 {
            Some(Warning::ArrayWithoutSchema(elem.ref_key))
        } else {
            None
        },
        Some(PsoType::String) => if elem.subtype == 0 && elem.ref_key / 0x1_0000 == 0 {
            Some(Warning::ZeroLengthStrings)
        } else if elem.subtype == 0 || elem.subtype == 2 || elem.subtype == 3 || elem.subtype == 7
            || elem.subtype == 8 {
            None
        } else {
            Some(Warning::StringArraySubtype(elem.subtype))
        },
        _ => None,
    }
}

/// The `count` elements of an array that starts at `start`.
pub open spec fn read_elements(
    f: PsoView,
    elem: PsoEntry,
    start: int,
    count: nat,
    depth: nat,
) -> Read
    decreases 66 - depth, 2int, count + 1,
{
    match (array_refused(f, elem), type_of(elem.type_byte)) {
        (None, Some(ty)) => {
            let r = elements_from(f, elem, ty, start, 0, count, depth);
            Read {
                value: ValueView::Array(
                    ArrayView {
                        item_type: item_type_of(elem),
                        typed_items: ty == PsoType::Structure && elem.subtype == 3,
                        items: r.0,
                    },
                ),
                warnings: r.1,
            }
        },
        (Some(w), _) => failed(w),
        (None, None) => arbitrary(),
    }
}

/// The key and the value of a map pair: its first two members.
pub open spec fn pair_of(fields: Seq<(u32, ValueView)>) -> (ValueView, ValueView) {
    (
        if fields.len() > 0 {
            fields[0].1
        } else {
            ValueView::Null
        },
        if fields.len() > 1 {
            fields[1].1
        } else {
            ValueView::Null
        },
    )
}

/// The map pairs from `n` to `count`.
pub open spec fn pairs_from(
    f: PsoView,
    pair_type: u32,
    start: int,
    n: nat,
    count: nat,
    depth: nat,
) -> (Seq<(ValueView, ValueView)>, Seq<Warning>)
    decreases 66 - depth, 2int, count - n,
{
    if n >= count {
        (Seq::empty(), Seq::empty())
    } else {
        let r = read_struct(f, pair_type, start + n * size_of_struct(f, pair_type), depth);
        match r.value {
            ValueView::Struct(s) => {
                let rest = pairs_from(f, pair_type, start, n + 1, count, depth);
                (seq![pair_of(s.fields)] + rest.0, r.warnings + rest.1)
            },
            _ => (Seq::empty(), r.warnings),
        }
    }
}

/// A `Map` member (subtype 1): two u32s, then an array of `{key, value}`
/// pairs whose structure the low half of `ref_key` names through an
/// `ARRAYINFO` entry.
pub open spec fn read_map(
    f: PsoView,
    info: PsoStructView,
    entry: PsoEntry,
    abs: int,
    depth: nat,
) -> Read
    decreases 66 - depth, 2int, 0x2_0000int,
{
    if entry.subtype != 1 {
        faulty(info, entry, MemberFault::MapSubtype(entry.subtype))
    } else {
        match crate::resource::window(f.data, abs, 24) {
            None => faulty(info, entry, MemberFault::MapHeader),
            Some(b) => {
                let late = crate::bytes::be32(b, 0) == 0x0100_0000;
                let raw = if late {
                    crate::bytes::be32(b, 8)
                } else {
                    crate::bytes::be32(b, 16)
                };
                let count = if late {
                    crate::bytes::be16(b, 16)
                } else {
                    crate::bytes::be16(b, 2)
                };
                let idx = (entry.ref_key % 0x1_0000) as int;
                if idx >= info.entries.len() {
                    faulty(info, entry, MemberFault::MapWithoutInfo)
                } else if count == 0 {
                    plain(ValueView::Pairs(Seq::empty()))
                } else {
                    let pair_type = info.entries[idx].ref_key;
                    match pointee(f, raw) {
                        None => faulty(info, entry, MemberFault::MapDangles),
                        Some((_, start)) => if size_of_struct(f, pair_type) == 0 {
                            faulty(info, entry, MemberFault::MapPair(pair_type))
                        } else {
                            let r = pairs_from(f, pair_type, start, 0, count as nat, depth);
                            Read { value: ValueView::Pairs(r.0), warnings: r.1 }
                        },
                    }
                }
            },
        }
    }
}

/// The tree of a whole file, from its root block.
pub open spec fn walked(f: PsoView) -> Read {
    match block_of(f, f.root_id) {
        Some(b) => read_struct(f, b.name_hash, b.offset as int, 0),
        None => failed(Warning::RootBlock(f.root_id)),
    }
}

/// How far from the start of the data a structure `depth` deep can begin.
spec fn reach(depth: int) -> int {
    0x4_0000_0000_0000 + 0x1_0000 * depth
}

struct Walker<'a> {
    file: &'a PsoFile,
    warnings: Vec<Warning>,
    depth: usize,
}

impl<'a> Walker<'a> {
    spec fn ok(self) -> bool {
        &&& self.file.wf()
        &&& self.warnings@.len() <= 200
        &&& self.depth <= 65
    }

    /// Nothing changed since `before`, but that these warnings came up.
    spec fn after(self, before: Self, w: Seq<Warning>) -> bool {
        &&& self.file == before.file
        &&& self.depth == before.depth
        &&& self.warnings@ == crate::warning::capped(before.warnings@ + w)
        &&& self.warnings@.len() <= 200
    }

    /// The value `v` and the warnings since `before` are those of `r`.
    spec fn gave(self, before: Self, v: MetaValue, r: Read) -> bool {
        v@ == r.value && self.after(before, r.warnings)
    }

    fn bytes(&self, abs: u64, len: u64) -> (r: Option<&'a [u8]>)
        requires
            abs + len <= u64::MAX,
        ensures
            crate::resource::view_of(r) == crate::resource::window(self.file@.data, abs as int, len as int),
    {
        let data = self.file.data.as_slice();
        if abs + len <= data.len() as u64 {
            Some(slice_subrange(data, abs as usize, (abs + len) as usize))
        } else {
            None
        }
    }

    fn warn(&mut self, w: Warning) -> (v: MetaValue)
        requires
            old(self).ok(),
        ensures
            final(self).gave(*old(self), v, failed(w)),
    {
        let ghost before = self.warnings@;
        push_warning(&mut self.warnings, w);
        assert(before.push(w) =~= before + seq![w]);
        MetaValue::Null
    }

    fn fault(&mut self, info: &PsoStructInfo, entry: &PsoEntry, fault: MemberFault) -> (v: MetaValue)
        requires
            old(self).ok(),
        ensures
            final(self).gave(*old(self), v, faulty(info@, *entry, fault)),
    {
        self.warn(
            Warning::Member { structure: info.name_hash, member: entry.name_hash, fault },
        )
    }

    /// Resolves a packed pointer to a block and an absolute data offset.
    fn deref(&self, raw: u32) -> (r: Option<(PsoBlock, u64)>)
        ensures
            match r {
                Some((b, at)) => pointee(self.file@, raw) == Some((b, at as int)) && at
                    <= 0x1_0010_0000,
                None => pointee(self.file@, raw) is None,
            },
    {
        match self.file.block(raw % 0x1000) {
            Some(b) => Some((*b, b.offset as u64 + (raw / 0x1000) as u64)),
            None => None,
        }
    }

    fn read_struct(&mut self, type_hash: u32, abs: u64) -> (v: MetaValue)
        requires
            old(self).ok(),
            abs <= reach(old(self).depth as int),
        ensures
            final(self).gave(
                *old(self),
                v,
                read_struct(old(self).file@, type_hash, abs as int, old(self).depth as nat),
            ),
            v is Struct || v is Null,
        decreases 66 - old(self).depth, 0int, 0int,
    {
        let ghost before = *self;
        let ghost f = self.file@;
        if self.depth > MAX_DEPTH {
            return self.warn(Warning::TooDeep);
        }
        let file = self.file;
        let info = match file.structs.get(&type_hash) {
            Some(i) => i,
            None => {
                return self.warn(Warning::NoSchema(type_hash));
            },
        };
        assert(f.structs[type_hash] == info@);
        self.depth = self.depth + 1;
        let ghost depth = self.depth as nat;
        let mut fields: Vec<(u32, MetaValue)> = Vec::new();
        let mut i: usize = 0;
        assert(self.warnings@ =~= crate::warning::capped(before.warnings@ + Seq::<Warning>::empty())) by {
            assert(before.warnings@ + Seq::<Warning>::empty() =~= before.warnings@);
        }
        while i < info.entries.len()
            invariant
                i <= info.entries@.len(),
                self.ok(),
                self.file == before.file,
                before.depth == old(self).depth,
                self.file@ == f,
                self.depth == before.depth + 1,
                depth == self.depth,
                before.depth <= 64,
                abs <= reach(before.depth as int),
                crate::value::fields_view(fields@) == read_fields(f, info@, abs as int, depth, i as nat).0,
                self.warnings@ == crate::warning::capped(
                    before.warnings@ + read_fields(f, info@, abs as int, depth, i as nat).1,
                ),
            decreases info.entries@.len() - i,
        {
            let entry = info.entries[i];
            if entry.name_hash != ARRAYINFO {
                let ghost w0 = read_fields(f, info@, abs as int, depth, i as nat).1;
                let ghost r = read_member(f, info@, entry, abs + entry.offset, depth);
                let ghost was = fields@;
                let value = self.read_member(info, &entry, abs + entry.offset as u64);
                proof {
                    crate::warning::lemma_capped(before.warnings@ + w0, r.warnings);
                    assert(before.warnings@ + w0 + r.warnings =~= before.warnings@ + (w0
                        + r.warnings));
                }
                fields.push((entry.name_hash, value));
                assert(crate::value::fields_view(fields@) =~= crate::value::fields_view(was).push(
                    (entry.name_hash, r.value),
                ));
            }
            i += 1;
        }
        self.depth = self.depth - 1;
        let s = MetaStruct { type_hash, fields };
        assert(s@.fields =~= crate::value::fields_view(s.fields@));
        MetaValue::Struct(s)
    }

    fn scalar(ty: PsoType, in_array: bool, b: &[u8]) -> (v: MetaValue)
        requires
            b@.len() >= scalar_len(ty),
        ensures
            v@ == scalar_value(ty, in_array, b@),
    {
        match ty {
            PsoType::Bool => MetaValue::Bool(b[0] != 0),
            PsoType::SByte => MetaValue::I8(b[0] as i8),
            PsoType::UByte => MetaValue::U8(b[0]),
            PsoType::SShort => MetaValue::I16(u16_be(b, 0) as i16),
            PsoType::UShort => MetaValue::U16(u16_be(b, 0)),
            PsoType::HFloat => if in_array {
                MetaValue::U16(u16_be(b, 0))
            } else {
                MetaValue::I16(u16_be(b, 0) as i16)
            },
            PsoType::SInt => MetaValue::I32(u32_be(b, 0) as i32),
            PsoType::UInt => MetaValue::U32(u32_be(b, 0)),
            PsoType::Long => MetaValue::U64(u64_be(b, 0)),
            PsoType::Float => MetaValue::F32(u32_be(b, 0)),
            PsoType::Float2 => MetaValue::Vec2(Vec2::new(u32_be(b, 0), u32_be(b, 4))),
            PsoType::Float3 | PsoType::Float3a | PsoType::Float4a => MetaValue::Vec3(
                Vec3::new(u32_be(b, 0), u32_be(b, 4), u32_be(b, 8)),
            ),
            _ => MetaValue::Vec4(
                Vec4::new(u32_be(b, 0), u32_be(b, 4), u32_be(b, 8), u32_be(b, 12)),
            ),
        }
    }

    fn size_of(ty: PsoType) -> (n: u64)
        ensures
            n == scalar_len(ty),
            n <= 16,
    {
        match ty {
            PsoType::Bool | PsoType::SByte | PsoType::UByte => 1,
            PsoType::SShort | PsoType::UShort | PsoType::HFloat => 2,
            PsoType::SInt | PsoType::UInt | PsoType::Float => 4,
            PsoType::Long | PsoType::Float2 => 8,
            PsoType::Float3 | PsoType::Float3a | PsoType::Float4a => 12,
            _ => 16,
        }
    }

    fn name_of(&self, enum_hash: u32, value: i32) -> (r: Option<u32>)
        ensures
            r == enum_name(self.file@, enum_hash, value),
    {
        match self.file.enums.get(&enum_hash) {
            Some(e) => enum_member_name(&e.entries, value),
            None => None,
        }
    }

    fn struct_size(&self, type_hash: u32) -> (r: u32)
        ensures
            r == size_of_struct(self.file@, type_hash),
    {
        match self.file.structs.get(&type_hash) {
            Some(s) => s.size,
            None => 0,
        }
    }

    fn read_enum(&mut self, info: &PsoStructInfo, entry: &PsoEntry, abs: u64) -> (v: MetaValue)
        requires
            old(self).ok(),
            abs <= reach(old(self).depth as int) + 0x1_0000,
        ensures
            final(self).gave(
                *old(self),
                v,
                read_enum(old(self).file@, info@, *entry, abs as int),
            ),
    {
        proof {
            self.lemma_quiet();
        }
        if entry.subtype != 0 && entry.subtype != 2 {
            return self.fault(info, entry, MemberFault::EnumSubtype(entry.subtype));
        }
        let len: u64 = if entry.subtype == 0 {
            4
        } else {
            1
        };
        match self.bytes(abs, len) {
            None => self.fault(info, entry, MemberFault::Bounds { len, at: abs }),
            Some(b) => {
                let value: i32 = if entry.subtype == 0 {
                    u32_be(b, 0) as i32
                } else {
                    b[0] as i32
                };
                let name = self.name_of(entry.ref_key, value);
                MetaValue::Enum { enum_hash: entry.ref_key, value, name }
            },
        }
    }

    fn read_flags(&mut self, info: &PsoStructInfo, entry: &PsoEntry, abs: u64) -> (v: MetaValue)
        requires
            old(self).ok(),
            abs <= reach(old(self).depth as int) + 0x1_0000,
        ensures
            final(self).gave(
                *old(self),
                v,
                read_flags(old(self).file@, info@, *entry, abs as int),
            ),
    {
        proof {
            self.lemma_quiet();
        }
        if entry.subtype > 2 {
            return self.fault(info, entry, MemberFault::FlagsSubtype(entry.subtype));
        }
        let len: u64 = if entry.subtype == 0 {
            4
        } else if entry.subtype == 1 {
            2
        } else {
            1
        };
        match self.bytes(abs, len) {
            None => self.fault(info, entry, MemberFault::Bounds { len, at: abs }),
            Some(b) => {
                let bits: u32 = if entry.subtype == 0 {
                    u32_be(b, 0)
                } else if entry.subtype == 1 {
                    u16_be(b, 0) as u32
                } else {
                    b[0] as u32
                };
                let idx = (entry.ref_key % 0x1000) as usize;
                let enum_hash: u32 = if idx < info.entries.len() && info.entries[idx].name_hash
                    == ARRAYINFO {
                    info.entries[idx].ref_key
                } else {
                    0
                };
                let names = match self.file.enums.get(&enum_hash) {
                    Some(e) => set_flag_names(&e.entries, bits),
                    None => Vec::new(),
                };
                MetaValue::Flags { enum_hash, bits, names }
            },
        }
    }

    /// No warnings since now are no change.
    proof fn lemma_quiet(self)
        requires
            self.ok(),
        ensures
            self.after(self, Seq::<Warning>::empty()),
    {
        assert(self.warnings@ + Seq::<Warning>::empty() =~= self.warnings@);
    }

    fn read_string(&mut self, subtype: u8, ref_key: u32, abs: u64) -> (v: MetaValue)
        requires
            old(self).ok(),
            abs <= 0x10_0000_0000_0000,
        ensures
            final(self).gave(
                *old(self),
                v,
                read_string(old(self).file@, subtype, ref_key, abs as int),
            ),
    {
        proof {
            self.lemma_quiet();
        }
        if subtype == 0 {
            let len = (ref_key / 0x1_0000) as u64;
            match self.bytes(abs, len) {
                Some(b) => MetaValue::Str(nul_terminated(b)),
                None => self.warn(Warning::StringBounds { len, at: abs }),
            }
        } else if subtype == 1 || subtype == 2 {
            let b = match self.bytes(abs, 8) {
                Some(b) => b,
                None => {
                    return self.warn(Warning::StringPointerBounds(abs));
                },
            };
            let raw = u32_be(b, 0);
            if raw == 0 {
                return MetaValue::Str(String::new());
            }
            match self.deref(raw) {
                Some((_, target)) => {
                    let data = self.file.data.as_slice();
                    if target <= data.len() as u64 {
                        let t = target as usize;
                        let end: usize = if data.len() - t < 4096 {
                            data.len()
                        } else {
                            t + 4096
                        };
                        MetaValue::Str(nul_terminated(slice_subrange(data, t, end)))
                    } else {
                        self.warn(Warning::StringPointerDangles(abs))
                    }
                },
                None => self.warn(Warning::StringPointerDangles(abs)),
            }
        } else if subtype == 3 {
            let b = match self.bytes(abs, 16) {
                Some(b) => b,
                None => {
                    return self.warn(Warning::CharPointerBounds(abs));
                },
            };
            let raw = u32_be(b, 0);
            let count = u16_be(b, 8) as u64;
            let cap = u16_be(b, 10) as u64;
            let len: u64 = if cap == 0 || count < cap {
                count
            } else {
                cap
            };
            if len == 0 {
                return MetaValue::Str(String::new());
            }
            let target = match self.deref(raw) {
                Some((_, t)) => self.bytes(t, len),
                None => None,
            };
            match target {
                Some(bytes) => MetaValue::Str(nul_terminated(bytes)),
                None => self.warn(Warning::CharPointerDangles(abs)),
            }
        } else if subtype == 7 || subtype == 8 {
            match self.bytes(abs, 4) {
                Some(b) => MetaValue::Hash(u32_be(b, 0)),
                None => self.warn(Warning::HashBounds(abs)),
            }
        } else {
            self.warn(Warning::StringSubtype { subtype, at: abs })
        }
    }

    fn read_pointee(&mut self, raw: u32) -> (v: Option<MetaValue>)
        requires
            old(self).ok(),
        ensures
            match read_pointee(old(self).file@, raw, old(self).depth as nat) {
                Some(r) => v is Some && final(self).gave(*old(self), v->0, r),
                None => v is None && *final(self) == *old(self),
            },
        decreases 66 - old(self).depth, 1int, 0int,
    {
        match self.deref(raw) {
            Some((block, target)) => {
                let v = self.read_struct(block.name_hash, target);
                Some(v)
            },
            None => None,
        }
    }

    fn read_member(&mut self, info: &PsoStructInfo, entry: &PsoEntry, abs: u64) -> (v: MetaValue)
        requires
            old(self).ok(),
            abs <= reach(old(self).depth as int),
        ensures
            final(self).gave(
                *old(self),
                v,
                read_member(old(self).file@, info@, *entry, abs as int, old(self).depth as nat),
            ),
        decreases 66 - old(self).depth, 3int, 0int,
    {
        proof {
            self.lemma_quiet();
        }
        let ty = match PsoType::from_byte(entry.type_byte) {
            Some(t) => t,
            None => {
                return self.fault(info, entry, MemberFault::UnknownType(entry.type_byte));
            },
        };
        match ty {
            PsoType::String => self.read_string(entry.subtype, entry.ref_key, abs),
            PsoType::Enum => self.read_enum(info, entry, abs),
            PsoType::Flags => self.read_flags(info, entry, abs),
            PsoType::Structure => {
                if entry.subtype == 0 {
                    self.read_struct(entry.ref_key, abs)
                } else if entry.subtype == 3 || entry.subtype == 4 {
                    let raw = match self.bytes(abs, 8) {
                        Some(b) => u32_be(b, 0),
                        None => {
                            return self.fault(
                                info,
                                entry,
                                MemberFault::Bounds { len: 8, at: abs },
                            );
                        },
                    };
                    if raw == 0 {
                        return MetaValue::Null;
                    }
                    match self.read_pointee(raw) {
                        Some(v) => v,
                        None => self.fault(info, entry, MemberFault::DanglingStructure),
                    }
                } else {
                    self.fault(info, entry, MemberFault::StructureSubtype(entry.subtype))
                }
            },
            PsoType::Array => self.read_array(info, entry, abs),
            PsoType::MapType => self.read_map(info, entry, abs),
            _ => {
                let len = Self::size_of(ty);
                match self.bytes(abs, len) {
                    Some(b) => Self::scalar(ty, false, b),
                    None => self.fault(info, entry, MemberFault::Bounds { len, at: abs }),
                }
            },
        }
    }

    /// The element descriptor of an array member.
    fn array_info(info: &PsoStructInfo, entry: &PsoEntry) -> (r: Option<PsoEntry>)
        ensures
            r == element_of(info@, *entry),
    {
        let wide = (entry.ref_key % 0x1_0000) as usize;
        let narrow = (entry.ref_key % 0x1000) as usize;
        if wide < info.entries.len() {
            Some(info.entries[wide])
        } else if narrow < info.entries.len() {
            Some(info.entries[narrow])
        } else {
            None
        }
    }

    fn item_type(elem: &PsoEntry) -> (r: Option<u32>)
        ensures
            r == item_type_of(*elem),
    {
        if elem.type_byte == 0x0C && elem.ref_key != 0 {
            Some(elem.ref_key)
        } else {
            None
        }
    }

    fn read_array(&mut self, info: &PsoStructInfo, entry: &PsoEntry, abs: u64) -> (v: MetaValue)
        requires
            old(self).ok(),
            abs <= reach(old(self).depth as int),
        ensures
            final(self).gave(
                *old(self),
                v,
                read_array(old(self).file@, info@, *entry, abs as int, old(self).depth as nat),
            ),
        decreases 66 - old(self).depth, 2int, 0x2_0000int,
    {
        proof {
            self.lemma_quiet();
        }
        let elem = match Self::array_info(info, entry) {
            Some(e) => e,
            None => {
                return self.fault(info, entry, MemberFault::ArrayWithoutInfo);
            },
        };
        if entry.subtype == 0 || (entry.subtype == 4 && elem.subtype == 3) {
            let b = match self.bytes(abs, 16) {
                Some(b) => b,
                None => {
                    return self.fault(info, entry, MemberFault::ArrayHeader);
                },
            };
            let raw = u32_be(b, 0);
            let count = u16_be(b, 8);
            if count == 0 {
                let a = MetaArray {
                    item_type: Self::item_type(&elem),
                    typed_items: elem.subtype == 3,
                    items: Vec::new(),
                };
                assert(a@.items =~= Seq::<ValueView>::empty());
                return MetaValue::Array(a);
            }
            match self.deref(raw) {
                Some((_, target)) => self.read_elements(&elem, target, count as u64),
                None => self.fault(info, entry, MemberFault::ArrayDangles),
            }
        } else {
            self.read_elements(&elem, abs, (entry.ref_key / 0x1_0000) as u64)
        }
    }

    fn stride(&self, elem: &PsoEntry, ty: PsoType) -> (r: u64)
        ensures
            r == stride_of(self.file@, *elem, ty),
            r <= u32::MAX,
    {
        match ty {
            PsoType::Structure => if elem.subtype == 3 {
                8
            } else {
                self.struct_size(elem.ref_key) as u64
            },
            PsoType::String => if elem.subtype == 0 {
                (elem.ref_key / 0x1_0000) as u64
            } else if elem.subtype == 2 {
                8
            } else if elem.subtype == 3 {
                16
            } else {
                4
            },
            PsoType::Enum => 4,
            PsoType::Array => 16,
            PsoType::Float3 | PsoType::Float3a | PsoType::Float4a => 16,
            _ => Self::size_of(ty),
        }
    }

    fn read_element(&mut self, elem: &PsoEntry, ty: PsoType, start: u64, n: u64) -> (v: Option<
        MetaValue,
    >)
        requires
            old(self).ok(),
            start <= reach(old(self).depth as int),
            n < 0x1_0000,
        ensures
            match read_element(
                old(self).file@,
                *elem,
                ty,
                start as int,
                n as nat,
                old(self).depth as nat,
            ) {
                Step::Stop(w) => v is None && final(self).after(*old(self), seq![w]),
                Step::Item(r) => v is Some && final(self).gave(*old(self), v->0, r),
            },
        decreases 66 - old(self).depth, 2int, 0int,
    {
        proof {
            self.lemma_quiet();
        }
        let stride = self.stride(elem, ty);
        assert(0 <= n * stride <= 0x1_0000 * 0x1_0000_0000) by (nonlinear_arith)
            requires
                n < 0x1_0000,
                stride <= u32::MAX,
        ;
        let at: u64 = start + n * stride;
        match ty {
            PsoType::Structure => {
                let b = match self.bytes(at, stride) {
                    Some(b) => b,
                    None => {
                        let w = if elem.subtype == 3 {
                            Warning::PointerBounds(n)
                        } else {
                            Warning::StructureBounds(n)
                        };
                        self.warn(w);
                        return None;
                    },
                };
                if elem.subtype == 3 {
                    let raw = u32_be(b, 0);
                    match self.read_pointee(raw) {
                        Some(v) => Some(v),
                        None => if raw == 0 {
                            Some(MetaValue::Null)
                        } else {
                            Some(self.warn(Warning::PointerDangles(n)))
                        },
                    }
                } else {
                    assert(at <= self.file@.data.len());
                    Some(self.read_struct(elem.ref_key, at))
                }
            },
            PsoType::Array => {
                let a = MetaArray { item_type: None, typed_items: false, items: Vec::new() };
                assert(a@.items =~= Seq::<ValueView>::empty());
                Some(MetaValue::Array(a))
            },
            PsoType::String => {
                if elem.subtype == 2 || elem.subtype == 3 {
                    return Some(self.read_string(elem.subtype, elem.ref_key, at));
                }
                match self.bytes(at, stride) {
                    None => {
                        self.warn(Warning::ElementBounds { n, at });
                        None
                    },
                    Some(b) => if elem.subtype == 0 {
                        Some(MetaValue::Str(nul_terminated(b)))
                    } else {
                        Some(MetaValue::Hash(u32_be(b, 0)))
                    },
                }
            },
            _ => match self.bytes(at, stride) {
                None => {
                    self.warn(Warning::ElementBounds { n, at });
                    None
                },
                Some(b) => if ty == PsoType::Enum {
                    let value = u32_be(b, 0) as i32;
                    let name = self.name_of(elem.ref_key, value);
                    Some(MetaValue::Enum { enum_hash: elem.ref_key, value, name })
                } else {
                    Some(Self::scalar(ty, true, b))
                },
            },
        }
    }

    fn refusal(&self, elem: &PsoEntry) -> (r: Option<Warning>)
        ensures
            r == array_refused(self.file@, *elem),
    {
        match PsoType::from_byte(elem.type_byte) {
            None => Some(Warning::ElementType(elem.type_byte)),
            Some(PsoType::Flags) => Some(Warning::ArrayOfFlags),
            Some(PsoType::MapType) => Some(Warning::ArrayOfMaps),
            Some(PsoType::Structure) => if elem.subtype != 3 && self.struct_size(elem.ref_key) == 0 {
                Some(Warning::ArrayWithoutSchema(elem.ref_key))
            } else {
                None
            },
            Some(PsoType::String) => if elem.subtype == 0 && elem.ref_key / 0x1_0000 == 0 {
                Some(Warning::ZeroLengthStrings)
            } else if elem.subtype == 0 || elem.subtype == 2 || elem.subtype == 3 || elem.subtype
                == 7 || elem.subtype == 8 {
                None
            } else {
                Some(Warning::StringArraySubtype(elem.subtype))
            },
            _ => None,
        }
    }

    #[verifier::rlimit(60)]
    fn read_elements(&mut self, elem: &PsoEntry, start: u64, count: u64) -> (v: MetaValue)
        requires
            old(self).ok(),
            start <= reach(old(self).depth as int),
            count < 0x1_0000,
        ensures
            final(self).gave(
                *old(self),
                v,
                read_elements(
                    old(self).file@,
                    *elem,
                    start as int,
                    count as nat,
                    old(self).depth as nat,
                ),
            ),
        decreases 66 - old(self).depth, 2int, count + 1,
    {
        let ghost before = *self;
        let ghost f = self.file@;
        let ghost depth = self.depth as nat;
        match self.refusal(elem) {
            Some(w) => {
                return self.warn(w);
            },
            None => {},
        }
        let ty = match PsoType::from_byte(elem.type_byte) {
            Some(t) => t,
            None => {
                return MetaValue::Null;
            },
        };
        let ghost all = elements_from(f, *elem, ty, start as int, 0, count as nat, depth);
        let ghost mut seen = Seq::<Warning>::empty();
        let mut items: Vec<MetaValue> = Vec::new();
        let mut n: u64 = 0;
        let mut open = true;
        proof {
            self.lemma_quiet();
            assert(crate::value::values_view(items@) + all.0 =~= all.0);
            assert(seen + all.1 =~= all.1);
        }
        while open && n < count
            invariant
                n <= count < 0x1_0000,
                self.ok(),
                self.file == before.file,
                before.depth == old(self).depth,
                self.file@ == f,
                self.depth == before.depth,
                depth == self.depth,
                start <= reach(depth as int),
                self.after(before, seen),
                all == elements_from(f, *elem, ty, start as int, 0, count as nat, depth),
                open ==> crate::value::values_view(items@) + elements_from(
                    f,
                    *elem,
                    ty,
                    start as int,
                    n as nat,
                    count as nat,
                    depth,
                ).0 == all.0,
                open ==> seen + elements_from(
                    f,
                    *elem,
                    ty,
                    start as int,
                    n as nat,
                    count as nat,
                    depth,
                ).1 == all.1,
                !open ==> crate::value::values_view(items@) == all.0 && seen == all.1,
            decreases (if open { 1int } else { 0int }), count - n,
        {
            let ghost was = items@;
            let ghost seen0 = seen;
            let ghost rest = elements_from(
                f,
                *elem,
                ty,
                start as int,
                n as nat,
                count as nat,
                depth,
            );
            let ghost step = read_element(f, *elem, ty, start as int, n as nat, depth);
            match self.read_element(elem, ty, start, n) {
                Some(v) => {
                    items.push(v);
                    proof {
                        let r = step->Item_0;
                        let next = elements_from(
                            f,
                            *elem,
                            ty,
                            start as int,
                            (n + 1) as nat,
                            count as nat,
                            depth,
                        );
                        seen = seen0 + r.warnings;
                        crate::warning::lemma_capped(before.warnings@ + seen0, r.warnings);
                        assert(before.warnings@ + seen0 + r.warnings =~= before.warnings@ + seen);
                        assert(crate::value::values_view(items@) =~= crate::value::values_view(was).push(r.value));
                        assert(crate::value::values_view(items@) + next.0 =~= crate::value::values_view(was) + rest.0);
                        assert(seen + next.1 =~= seen0 + rest.1);
                    }
                    n += 1;
                },
                None => {
                    open = false;
                    proof {
                        let w = step->Stop_0;
                        seen = seen0 + seq![w];
                        crate::warning::lemma_capped(before.warnings@ + seen0, seq![w]);
                        assert(before.warnings@ + seen0 + seq![w] =~= before.warnings@ + seen);
                        assert(crate::value::values_view(items@) + rest.0 =~= crate::value::values_view(items@));
                    }
                },
            }
        }
        proof {
            if open {
                assert(crate::value::values_view(items@) + Seq::<ValueView>::empty() =~= crate::value::values_view(items@));
                assert(seen + Seq::<Warning>::empty() =~= seen);
            }
        }
        let a = MetaArray {
            item_type: Self::item_type(elem),
            typed_items: ty == PsoType::Structure && elem.subtype == 3,
            items,
        };
        assert(a@.items =~= crate::value::values_view(a.items@));
        MetaValue::Array(a)
    }

    fn read_map(&mut self, info: &PsoStructInfo, entry: &PsoEntry, abs: u64) -> (v: MetaValue)
        requires
            old(self).ok(),
            abs <= reach(old(self).depth as int),
        ensures
            final(self).gave(
                *old(self),
                v,
                read_map(old(self).file@, info@, *entry, abs as int, old(self).depth as nat),
            ),
        decreases 66 - old(self).depth, 2int, 0x2_0000int,
    {
        proof {
            self.lemma_quiet();
        }
        let ghost before = *self;
        let ghost f = self.file@;
        let ghost depth = self.depth as nat;
        if entry.subtype != 1 {
            return self.fault(info, entry, MemberFault::MapSubtype(entry.subtype));
        }
        let b = match self.bytes(abs, 24) {
            Some(b) => b,
            None => {
                return self.fault(info, entry, MemberFault::MapHeader);
            },
        };
        let late = u32_be(b, 0) == 0x0100_0000;
        let raw: u32 = if late {
            u32_be(b, 8)
        } else {
            u32_be(b, 16)
        };
        let count: u16 = if late {
            u16_be(b, 16)
        } else {
            u16_be(b, 2)
        };
        let idx = (entry.ref_key % 0x1_0000) as usize;
        if idx >= info.entries.len() {
            return self.fault(info, entry, MemberFault::MapWithoutInfo);
        }
        let pair_type = info.entries[idx].ref_key;
        if count == 0 {
            let pairs: Vec<(MetaValue, MetaValue)> = Vec::new();
            let v = MetaValue::Pairs(pairs);
            assert(v@->Pairs_0 =~= Seq::<(ValueView, ValueView)>::empty());
            return v;
        }
        let start: u64 = match self.deref(raw) {
            Some((_, s)) => s,
            None => {
                return self.fault(info, entry, MemberFault::MapDangles);
            },
        };
        let stride = self.struct_size(pair_type);
        if stride == 0 {
            return self.fault(info, entry, MemberFault::MapPair(pair_type));
        }
        let ghost all = pairs_from(f, pair_type, start as int, 0, count as nat, depth);
        let ghost mut seen = Seq::<Warning>::empty();
        let mut pairs: Vec<(MetaValue, MetaValue)> = Vec::new();
        let mut n: u16 = 0;
        let mut open = true;
        proof {
            assert(crate::value::pairs_view(pairs@) + all.0 =~= all.0);
            assert(seen + all.1 =~= all.1);
        }
        while open && n < count
            invariant
                n <= count,
                self.ok(),
                self.file == before.file,
                before.depth == old(self).depth,
                self.file@ == f,
                self.depth == before.depth,
                depth == self.depth,
                start <= 0x1_0010_0000,
                stride == size_of_struct(f, pair_type),
                self.after(before, seen),
                all == pairs_from(f, pair_type, start as int, 0, count as nat, depth),
                open ==> crate::value::pairs_view(pairs@) + pairs_from(
                    f,
                    pair_type,
                    start as int,
                    n as nat,
                    count as nat,
                    depth,
                ).0 == all.0,
                open ==> seen + pairs_from(
                    f,
                    pair_type,
                    start as int,
                    n as nat,
                    count as nat,
                    depth,
                ).1 == all.1,
                !open ==> crate::value::pairs_view(pairs@) == all.0 && seen == all.1,
            decreases (if open { 1int } else { 0int }), count - n,
        {
            let ghost was = pairs@;
            let ghost seen0 = seen;
            let ghost rest = pairs_from(f, pair_type, start as int, n as nat, count as nat, depth);
            assert(0 <= n * stride <= 0x1_0000 * 0x1_0000_0000) by (nonlinear_arith)
                requires
                    n <= 0xFFFF,
                    stride <= u32::MAX,
            ;
            let at: u64 = start + n as u64 * stride as u64;
            let ghost r = read_struct(f, pair_type, at as int, depth);
            let read = self.read_struct(pair_type, at);
            proof {
                seen = seen0 + r.warnings;
                crate::warning::lemma_capped(before.warnings@ + seen0, r.warnings);
                assert(before.warnings@ + seen0 + r.warnings =~= before.warnings@ + seen);
            }
            match read {
                MetaValue::Struct(s) => {
                    let ghost whole = s@;
                    let mut fields = s.fields;
                    assert(whole.fields =~= crate::value::fields_view(fields@));
                    let key = if fields.len() > 0 {
                        fields.remove(0).1
                    } else {
                        MetaValue::Null
                    };
                    let value = if fields.len() > 0 {
                        fields.remove(0).1
                    } else {
                        MetaValue::Null
                    };
                    pairs.push((key, value));
                    proof {
                        let next = pairs_from(
                            f,
                            pair_type,
                            start as int,
                            (n + 1) as nat,
                            count as nat,
                            depth,
                        );
                        assert(crate::value::pairs_view(pairs@) =~= crate::value::pairs_view(was).push(
                            pair_of(whole.fields),
                        ));
                        assert(crate::value::pairs_view(pairs@) + next.0 =~= crate::value::pairs_view(was) + rest.0);
                        assert(seen + next.1 =~= seen0 + rest.1);
                    }
                    n += 1;
                },
                _ => {
                    open = false;
                    assert(crate::value::pairs_view(pairs@) + rest.0 =~= crate::value::pairs_view(pairs@));
                },
            }
        }
        proof {
            if open {
                assert(crate::value::pairs_view(pairs@) + Seq::<(ValueView, ValueView)>::empty() =~= crate::value::pairs_view(
                    pairs@,
                ));
                assert(seen + Seq::<Warning>::empty() =~= seen);
            }
        }
        let v = MetaValue::Pairs(pairs);
        assert(v@->Pairs_0 =~= crate::value::pairs_view(pairs@));
        v
    }
}

/// Decodes the whole file into a value tree, starting at the root block.
pub fn walk(file: &PsoFile) -> (dump: MetaDump)
    requires
        file.wf(),
    ensures
        dump.root@ == walked(file@).value,
        dump.warnings@ == crate::warning::capped(walked(file@).warnings),
{
    let mut w = Walker { file, warnings: Vec::new(), depth: 0 };
    let root = match file.block(file.root_id) {
        Some(block) => w.read_struct(block.name_hash, block.offset as u64),
        None => w.warn(Warning::RootBlock(file.root_id)),
    };
    assert(Seq::<Warning>::empty() + walked(file@).warnings =~= walked(file@).warnings);
    MetaDump { root, warnings: w.warnings }
}

/// Parses and decodes in one go.
pub fn dump_pso(data: &[u8]) -> (r: Result<MetaDump, PsoError>)
    ensures
        match r {
            Ok(dump) => parsed(data@) is Ok && dump.root@ == walked(parsed(data@)->Ok_0).value
                && dump.warnings@ == crate::warning::capped(walked(parsed(data@)->Ok_0).warnings),
            Err(e) => parsed(data@) == Err::<PsoView, PsoError>(e),
        },
{
    match parse_pso(data) {
        Ok(file) => Ok(walk(&file)),
        Err(e) => Err(e),
    }
}

} // verus!
