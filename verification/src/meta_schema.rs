//! The self-describing side of the RSC7 "Meta" container (`.ytyp`, `.ymap`,
//! Meta-form `.ymt`). Besides the data blocks that are read by fixed offsets,
//! the Meta header points at a table of structure infos (name hash, size,
//! members with offset and type) and enum infos, which is enough to decode
//! any block into a [`MetaValue`] tree without knowing the file's structures
//! in advance.
//!
//! Header (112 bytes at `SYSTEM_BASE`): root block index (1-based) at
//! 0x1C, `StructureInfosPointer` 0x20, `EnumInfosPointer` 0x28,
//! `DataBlocksPointer` 0x30, and the three `i16` counts at 0x48, 0x4A,
//! 0x4C. A structure info is 32 bytes (`name u32, key u32, unk, unk,
//! entries ptr u64, size i32, unk i16, count i16`), each member 16 bytes
//! (`name u32, offset i32, type u8, unk u8, ref index i16, ref key u32`); an
//! enum info is 24 bytes (`name u32, key u32, entries ptr u64, count i32,
//! unk`), each member `name u32, value i32`.

use std::collections::HashMap;
use vstd::prelude::*;
use vstd::slice::*;

use crate::bytes::to_vec;
use crate::hash::rage_joaat;
use crate::math::{Vec3, Vec4};
use crate::meta_block::{decode_meta_pointer, read_meta_blocks, BlockView, MetaBlock, MetaError};
use crate::resource::{prepare_rsc7, u16_le, u32_le, u64_le, ResReader, ResourceError, SYSTEM_BASE};
use crate::text::nul_terminated;
use crate::value::{
    enum_member_name, set_flag_names, ArrayView, MetaArray, MetaDump, MetaStruct, MetaValue,
    StructView, ValueView,
};
use crate::warning::{push_warning, MemberFault, Warning};

verus! {

broadcast use {vstd::slice::group_slice_axioms, vstd::std_specs::hash::group_hash_axioms};

/// The `ARRAYINFO` pseudo-member describing an array member's elements.
pub const ARRAYINFO: u32 = 0x100;

/// The element type of `CLODLight`'s structure-of-arrays vector members
/// (`direction` and friends): a vec4-aligned vector the file's schema never
/// defines, so it is decoded here as a `Vec3` with a 16-byte stride.
pub const SOA_VECTOR: u32 = 0xE2CB_CFD4;

/// How deep structures may nest before a walk gives up.
pub const MAX_DEPTH: usize = 64;

/// Meta member types (`MetaStructureEntryDataType`).
#[derive(Debug, Clone, Copy, PartialEq, Eq, Structural)]
pub enum MetaType {
    Boolean,
    SignedByte,
    UnsignedByte,
    SignedShort,
    UnsignedShort,
    SignedInt,
    UnsignedInt,
    Float,
    Vec3,
    Vec4,
    ByteEnum,
    IntEnum,
    IntFlags1,
    ShortFlags,
    IntFlags2,
    Hash,
    Array,
    CharArray,
    ByteArray,
    DataBlockPointer,
    CharPointer,
    StructurePointer,
    Structure,
}

/// The member type that a type byte stands for.
pub open spec fn type_of(b: u8) -> Option<MetaType> {
    match b {
        0x01 => Some(MetaType::Boolean),
        0x10 => Some(MetaType::SignedByte),
        0x11 => Some(MetaType::UnsignedByte),
        0x12 => Some(MetaType::SignedShort),
        0x13 => Some(MetaType::UnsignedShort),
        0x14 => Some(MetaType::SignedInt),
        0x15 => Some(MetaType::UnsignedInt),
        0x21 => Some(MetaType::Float),
        0x33 => Some(MetaType::Vec3),
        0x34 => Some(MetaType::Vec4),
        0x60 => Some(MetaType::ByteEnum),
        0x62 => Some(MetaType::IntEnum),
        0x63 => Some(MetaType::IntFlags1),
        0x64 => Some(MetaType::ShortFlags),
        0x65 => Some(MetaType::IntFlags2),
        0x4A => Some(MetaType::Hash),
        0x52 => Some(MetaType::Array),
        0x40 => Some(MetaType::CharArray),
        0x50 => Some(MetaType::ByteArray),
        0x59 => Some(MetaType::DataBlockPointer),
        0x44 => Some(MetaType::CharPointer),
        0x07 => Some(MetaType::StructurePointer),
        0x05 => Some(MetaType::Structure),
        _ => None,
    }
}

impl MetaType {
    /// The member type that a type byte stands for.
    pub fn from_byte(b: u8) -> (r: Option<Self>)
        ensures
            r == type_of(b),
    {
        match b {
            0x01 => Some(MetaType::Boolean),
            0x10 => Some(MetaType::SignedByte),
            0x11 => Some(MetaType::UnsignedByte),
            0x12 => Some(MetaType::SignedShort),
            0x13 => Some(MetaType::UnsignedShort),
            0x14 => Some(MetaType::SignedInt),
            0x15 => Some(MetaType::UnsignedInt),
            0x21 => Some(MetaType::Float),
            0x33 => Some(MetaType::Vec3),
            0x34 => Some(MetaType::Vec4),
            0x60 => Some(MetaType::ByteEnum),
            0x62 => Some(MetaType::IntEnum),
            0x63 => Some(MetaType::IntFlags1),
            0x64 => Some(MetaType::ShortFlags),
            0x65 => Some(MetaType::IntFlags2),
            0x4A => Some(MetaType::Hash),
            0x52 => Some(MetaType::Array),
            0x40 => Some(MetaType::CharArray),
            0x50 => Some(MetaType::ByteArray),
            0x59 => Some(MetaType::DataBlockPointer),
            0x44 => Some(MetaType::CharPointer),
            0x07 => Some(MetaType::StructurePointer),
            0x05 => Some(MetaType::Structure),
            _ => None,
        }
    }

    /// The type byte.
    pub open spec fn byte(self) -> u8 {
        match self {
            MetaType::Boolean => 0x01,
            MetaType::SignedByte => 0x10,
            MetaType::UnsignedByte => 0x11,
            MetaType::SignedShort => 0x12,
            MetaType::UnsignedShort => 0x13,
            MetaType::SignedInt => 0x14,
            MetaType::UnsignedInt => 0x15,
            MetaType::Float => 0x21,
            MetaType::Vec3 => 0x33,
            MetaType::Vec4 => 0x34,
            MetaType::ByteEnum => 0x60,
            MetaType::IntEnum => 0x62,
            MetaType::IntFlags1 => 0x63,
            MetaType::ShortFlags => 0x64,
            MetaType::IntFlags2 => 0x65,
            MetaType::Hash => 0x4A,
            MetaType::Array => 0x52,
            MetaType::CharArray => 0x40,
            MetaType::ByteArray => 0x50,
            MetaType::DataBlockPointer => 0x59,
            MetaType::CharPointer => 0x44,
            MetaType::StructurePointer => 0x07,
            MetaType::Structure => 0x05,
        }
    }

    /// The type byte.
    pub fn to_byte(self) -> (b: u8)
        ensures
            b == self.byte(),
    {
        match self {
            MetaType::Boolean => 0x01,
            MetaType::SignedByte => 0x10,
            MetaType::UnsignedByte => 0x11,
            MetaType::SignedShort => 0x12,
            MetaType::UnsignedShort => 0x13,
            MetaType::SignedInt => 0x14,
            MetaType::UnsignedInt => 0x15,
            MetaType::Float => 0x21,
            MetaType::Vec3 => 0x33,
            MetaType::Vec4 => 0x34,
            MetaType::ByteEnum => 0x60,
            MetaType::IntEnum => 0x62,
            MetaType::IntFlags1 => 0x63,
            MetaType::ShortFlags => 0x64,
            MetaType::IntFlags2 => 0x65,
            MetaType::Hash => 0x4A,
            MetaType::Array => 0x52,
            MetaType::CharArray => 0x40,
            MetaType::ByteArray => 0x50,
            MetaType::DataBlockPointer => 0x59,
            MetaType::CharPointer => 0x44,
            MetaType::StructurePointer => 0x07,
            MetaType::Structure => 0x05,
        }
    }
}

/// Every member type has its own byte.
pub proof fn law_type_bytes_are_exact(b: u8, ty: MetaType)
    ensures
        type_of(b) == Some(ty) <==> b == ty.byte(),
{
}

#[derive(Debug, Clone, Copy, PartialEq, Eq, Structural)]
pub struct MetaEntryInfo {
    pub name_hash: u32,
    pub offset: i32,
    pub type_byte: u8,
    pub unknown: u8,
    /// For an array member, the index of its `ARRAYINFO` entry.
    pub ref_index: i16,
    /// A structure or enum name hash, or a length, depending on the type.
    pub ref_key: u32,
}

#[derive(Debug, PartialEq, Eq)]
pub struct MetaStructInfo {
    pub name_hash: u32,
    pub size: i32,
    pub entries: Vec<MetaEntryInfo>,
}

#[derive(Debug, PartialEq, Eq)]
pub struct MetaEnumInfo {
    pub name_hash: u32,
    pub entries: Vec<(u32, i32)>,
}

/// The schema a Meta file carries, plus its data blocks.
pub struct MetaFile {
    pub root_block: usize,
    pub structs: HashMap<u32, MetaStructInfo>,
    pub enums: HashMap<u32, MetaEnumInfo>,
    pub blocks: Vec<MetaBlock>,
}

/// The model of a [`MetaStructInfo`].
#[verifier::ext_equal]
pub struct StructInfoView {
    pub name_hash: u32,
    pub size: i32,
    pub entries: Seq<MetaEntryInfo>,
}

/// The model of a [`MetaEnumInfo`].
#[verifier::ext_equal]
pub struct EnumInfoView {
    pub name_hash: u32,
    pub entries: Seq<(u32, i32)>,
}

/// The model of a [`MetaFile`].
#[verifier::ext_equal]
pub struct MetaView {
    pub root_block: int,
    pub structs: Map<u32, StructInfoView>,
    pub enums: Map<u32, EnumInfoView>,
    pub blocks: Seq<BlockView>,
}

impl View for MetaStructInfo {
    type V = StructInfoView;

    open spec fn view(&self) -> StructInfoView {
        StructInfoView { name_hash: self.name_hash, size: self.size, entries: self.entries@ }
    }
}

impl View for MetaEnumInfo {
    type V = EnumInfoView;

    open spec fn view(&self) -> EnumInfoView {
        EnumInfoView { name_hash: self.name_hash, entries: self.entries@ }
    }
}

/// The models of structure definitions.
pub open spec fn structs_view(m: Map<u32, MetaStructInfo>) -> Map<u32, StructInfoView> {
    m.map_values(|s: MetaStructInfo| s@)
}

/// The models of enum definitions.
pub open spec fn enums_view(m: Map<u32, MetaEnumInfo>) -> Map<u32, EnumInfoView> {
    m.map_values(|e: MetaEnumInfo| e@)
}

impl View for MetaFile {
    type V = MetaView;

    open spec fn view(&self) -> MetaView {
        MetaView {
            root_block: self.root_block as int,
            structs: structs_view(self.structs@),
            enums: enums_view(self.enums@),
            blocks: crate::meta_block::blocks_view(self.blocks@),
        }
    }
}

impl MetaFile {
    /// No block is longer than a 32-bit length can say, and there are no
    /// more than a 16-bit count can.
    pub open spec fn wf(&self) -> bool {
        crate::meta_block::short_blocks(crate::meta_block::blocks_view(self.blocks@)) && self.blocks@.len() <= 0xFFFF
    }

    /// The root structure's type hash.
    pub fn root_type(&self) -> (r: Option<u32>)
        ensures
            r == (if self@.root_block < self@.blocks.len() {
                Some(self@.blocks[self@.root_block].name_hash)
            } else {
                None
            }),
    {
        if self.root_block < self.blocks.len() {
            Some(self.blocks[self.root_block].name_hash)
        } else {
            None
        }
    }

    /// `(name hash, length)` of every data block.
    pub fn block_summary(&self) -> (r: Vec<(u32, usize)>)
        ensures
            r@ == Seq::new(
                self@.blocks.len(),
                |i: int| (self@.blocks[i].name_hash, self@.blocks[i].data.len() as usize),
            ),
    {
        let mut out: Vec<(u32, usize)> = Vec::new();
        let mut i: usize = 0;
        while i < self.blocks.len()
            invariant
                i <= self.blocks@.len(),
                out@ == Seq::new(
                    i as nat,
                    |k: int| (self@.blocks[k].name_hash, self@.blocks[k].data.len() as usize),
                ),
            decreases self.blocks@.len() - i,
        {
            out.push((self.blocks[i].name_hash, self.blocks[i].data.len()));
            i += 1;
            assert(out@ =~= Seq::new(
                i as nat,
                |k: int| (self@.blocks[k].name_hash, self@.blocks[k].data.len() as usize),
            ));
        }
        assert(out@ =~= Seq::new(
            self@.blocks.len(),
            |k: int| (self@.blocks[k].name_hash, self@.blocks[k].data.len() as usize),
        ));
        out
    }
}

// ─── parsing ─────────────────────────────────────────────────────────────────

/// The member record at `at`.
pub open spec fn entry_at(s: Seq<u8>, at: int) -> MetaEntryInfo {
    MetaEntryInfo {
        name_hash: crate::bytes::le32(s, at),
        offset: crate::bytes::le32(s, at + 4) as i32,
        type_byte: s[at + 8],
        unknown: s[at + 9],
        ref_index: crate::bytes::le16(s, at + 10) as i16,
        ref_key: crate::bytes::le32(s, at + 12),
    }
}

/// The `n` member records that `s` starts with.
pub open spec fn entries_at(s: Seq<u8>, n: nat) -> Seq<MetaEntryInfo> {
    Seq::new(n, |i: int| entry_at(s, 16 * i))
}

/// The `n` enum members that `s` starts with.
pub open spec fn enumerators_at(s: Seq<u8>, n: nat) -> Seq<(u32, i32)> {
    Seq::new(n, |i: int| (crate::bytes::le32(s, 8 * i), crate::bytes::le32(s, 8 * i + 4) as i32))
}

/// `m` with a definition of that name, unless it has one already.
pub open spec fn or_insert<V>(m: Map<u32, V>, k: u32, v: V) -> Map<u32, V> {
    if m.contains_key(k) {
        m
    } else {
        m.insert(k, v)
    }
}

/// The bytes of `count` records of `stride` bytes at a pointer, none where
/// there are none to read.
pub open spec fn table_at(system: Seq<u8>, graphics: Seq<u8>, ptr: u64, count: int, stride: int) -> Option<
    Seq<u8>,
> {
    if count == 0 {
        Some(Seq::empty())
    } else {
        crate::resource::resolved(system, graphics, ptr, count * stride)
    }
}

/// The structure definitions of the first `k` records of a table.
pub open spec fn structs_upto(system: Seq<u8>, graphics: Seq<u8>, table: Seq<u8>, k: nat) -> Result<
    Map<u32, StructInfoView>,
    MetaError,
>
    decreases k,
{
    if k == 0 {
        Ok(Map::empty())
    } else {
        match structs_upto(system, graphics, table, (k - 1) as nat) {
            Err(e) => Err(e),
            Ok(m) => {
                let at = 32 * (k - 1);
                let name = crate::bytes::le32(table, at);
                let count = crate::bytes::le16(table, at + 0x1E) as int;
                match table_at(system, graphics, crate::bytes::le64(table, at + 0x10), count, 16) {
                    None => Err(MetaError::StructMembers(name)),
                    Some(bytes) => Ok(
                        or_insert(
                            m,
                            name,
                            StructInfoView {
                                name_hash: name,
                                size: crate::bytes::le32(table, at + 0x18) as i32,
                                entries: entries_at(bytes, count as nat),
                            },
                        ),
                    ),
                }
            },
        }
    }
}

/// The enum definitions of the first `k` records of a table.
pub open spec fn enums_upto(system: Seq<u8>, graphics: Seq<u8>, table: Seq<u8>, k: nat) -> Result<
    Map<u32, EnumInfoView>,
    MetaError,
>
    decreases k,
{
    if k == 0 {
        Ok(Map::empty())
    } else {
        match enums_upto(system, graphics, table, (k - 1) as nat) {
            Err(e) => Err(e),
            Ok(m) => {
                let at = 24 * (k - 1);
                let name = crate::bytes::le32(table, at);
                let count = crate::bytes::le32(table, at + 0x10) as int;
                match table_at(system, graphics, crate::bytes::le64(table, at + 8), count, 8) {
                    None => Err(MetaError::EnumMembers(name)),
                    Some(bytes) => Ok(
                        or_insert(
                            m,
                            name,
                            EnumInfoView {
                                name_hash: name,
                                entries: enumerators_at(bytes, count as nat),
                            },
                        ),
                    ),
                }
            },
        }
    }
}

/// The structure definitions of a Meta header.
pub open spec fn structs_of(system: Seq<u8>, graphics: Seq<u8>, header: Seq<u8>) -> Result<
    Map<u32, StructInfoView>,
    MetaError,
> {
    let count = crate::bytes::le16(header, 0x48);
    match table_at(system, graphics, crate::bytes::le64(header, 0x20), count as int, 32) {
        None => Err(MetaError::StructTable),
        Some(table) => structs_upto(system, graphics, table, count as nat),
    }
}

/// The enum definitions of a Meta header.
pub open spec fn enums_of(system: Seq<u8>, graphics: Seq<u8>, header: Seq<u8>) -> Result<
    Map<u32, EnumInfoView>,
    MetaError,
> {
    let count = crate::bytes::le16(header, 0x4A);
    match table_at(system, graphics, crate::bytes::le64(header, 0x28), count as int, 24) {
        None => Err(MetaError::EnumTable),
        Some(table) => enums_upto(system, graphics, table, count as nat),
    }
}

/// What the two sections of a Meta file parse to.
pub open spec fn parsed(system: Seq<u8>, graphics: Seq<u8>) -> Result<MetaView, MetaError> {
    match crate::resource::resolved(system, graphics, SYSTEM_BASE, 0x70) {
        None => Err(MetaError::HeaderBounds),
        Some(header) => match structs_of(system, graphics, header) {
            Err(e) => Err(e),
            Ok(structs) => match enums_of(system, graphics, header) {
                Err(e) => Err(e),
                Ok(enums) => match crate::meta_block::blocks_of(system, graphics) {
                    Err(e) => Err(e),
                    Ok(blocks) => {
                        let index = crate::bytes::le32(header, 0x1C);
                        if index == 0 || index > blocks.len() {
                            Err(MetaError::RootIndex { index, blocks: blocks.len() as usize })
                        } else {
                            Ok(MetaView { root_block: index - 1, structs, enums, blocks })
                        }
                    },
                },
            },
        },
    }
}

/// The model behind a parse result.
pub open spec fn file_view(r: Result<MetaFile, MetaError>) -> Result<MetaView, MetaError> {
    match r {
        Ok(f) => Ok(f@),
        Err(e) => Err(e),
    }
}

fn read_entries(bytes: &[u8], count: usize) -> (r: Vec<MetaEntryInfo>)
    requires
        bytes@.len() == 16 * count,
    ensures
        r@ == entries_at(bytes@, count as nat),
{
    let mut out: Vec<MetaEntryInfo> = Vec::new();
    let mut n: usize = 0;
    while n < count
        invariant
            n <= count,
            bytes@.len() == 16 * count,
            out@ == entries_at(bytes@, n as nat),
        decreases count - n,
    {
        assert(16 * count <= bytes.len());
        let e = n * 16;
        out.push(
            MetaEntryInfo {
                name_hash: u32_le(bytes, e),
                offset: u32_le(bytes, e + 4) as i32,
                type_byte: bytes[e + 8],
                unknown: bytes[e + 9],
                ref_index: u16_le(bytes, e + 10) as i16,
                ref_key: u32_le(bytes, e + 12),
            },
        );
        n += 1;
        assert(out@ =~= entries_at(bytes@, n as nat));
    }
    out
}

fn read_enumerators(bytes: &[u8], count: usize) -> (r: Vec<(u32, i32)>)
    requires
        bytes@.len() == 8 * count,
    ensures
        r@ == enumerators_at(bytes@, count as nat),
{
    let mut out: Vec<(u32, i32)> = Vec::new();
    let mut n: usize = 0;
    while n < count
        invariant
            n <= count,
            bytes@.len() == 8 * count,
            out@ == enumerators_at(bytes@, n as nat),
        decreases count - n,
    {
        assert(8 * count <= bytes.len());
        out.push((u32_le(bytes, n * 8), u32_le(bytes, n * 8 + 4) as i32));
        n += 1;
        assert(out@ =~= enumerators_at(bytes@, n as nat));
    }
    out
}

/// The bytes of a table of records.
pub fn read_table<'a>(reader: &ResReader<'a>, ptr: u64, count: usize, stride: usize) -> (r: Option<
    &'a [u8],
>)
    ensures
        crate::resource::view_of(r) == table_at(reader.system@, reader.graphics@, ptr, count as int, stride as int),
{
    if count == 0 {
        let s = slice_subrange(reader.system, 0, 0);
        assert(s@ =~= Seq::<u8>::empty());
        Some(s)
    } else {
        reader.resolve_array(ptr, count, stride)
    }
}

fn read_structs(reader: &ResReader<'_>, table: &[u8], count: usize) -> (r: Result<
    HashMap<u32, MetaStructInfo>,
    MetaError,
>)
    requires
        table@.len() == 32 * count,
    ensures
        structs_upto(reader.system@, reader.graphics@, table@, count as nat) == (match r {
            Ok(m) => Ok(structs_view(m@)),
            Err(e) => Err(e),
        }),
{
    let mut structs: HashMap<u32, MetaStructInfo> = HashMap::new();
    let mut i: usize = 0;
    let ghost mut stopped = false;
    assert(structs_view(structs@) =~= Map::empty());
    while i < count
        invariant
            i <= count,
            table@.len() == 32 * count,
            structs_upto(reader.system@, reader.graphics@, table@, i as nat) == Ok::<
                Map<u32, StructInfoView>,
                MetaError,
            >(structs_view(structs@)),
        decreases count - i,
    {
        assert(32 * count <= table.len());
        let at = i * 32;
        let name_hash = u32_le(table, at);
        let size = u32_le(table, at + 0x18) as i32;
        let n = u16_le(table, at + 0x1E) as usize;
        let bytes = match read_table(reader, u64_le(table, at + 0x10), n, 16) {
            Some(b) => b,
            None => {
                proof {
                    lemma_structs_err(
                        reader.system@,
                        reader.graphics@,
                        table@,
                        (i + 1) as nat,
                        count as nat,
                    );
                }
                return Err(MetaError::StructMembers(name_hash));
            },
        };
        let info = MetaStructInfo { name_hash, size, entries: read_entries(bytes, n) };
        let ghost before = structs@;
        let ghost made = info@;
        if !structs.contains_key(&name_hash) {
            structs.insert(name_hash, info);
        }
        assert(structs_view(structs@) =~= or_insert(structs_view(before), name_hash, made));
        i += 1;
    }
    Ok(structs)
}

/// A record that cannot be read fails every longer table.
proof fn lemma_structs_err(system: Seq<u8>, graphics: Seq<u8>, table: Seq<u8>, j: nat, k: nat)
    requires
        j <= k,
        structs_upto(system, graphics, table, j) is Err,
    ensures
        structs_upto(system, graphics, table, k) == structs_upto(system, graphics, table, j),
    decreases k,
{
    if j < k {
        lemma_structs_err(system, graphics, table, j, (k - 1) as nat);
    }
}

fn read_enums(reader: &ResReader<'_>, table: &[u8], count: usize) -> (r: Result<
    HashMap<u32, MetaEnumInfo>,
    MetaError,
>)
    requires
        table@.len() == 24 * count,
    ensures
        enums_upto(reader.system@, reader.graphics@, table@, count as nat) == (match r {
            Ok(m) => Ok(enums_view(m@)),
            Err(e) => Err(e),
        }),
{
    let mut enums: HashMap<u32, MetaEnumInfo> = HashMap::new();
    let mut i: usize = 0;
    assert(enums_view(enums@) =~= Map::empty());
    while i < count
        invariant
            i <= count,
            table@.len() == 24 * count,
            enums_upto(reader.system@, reader.graphics@, table@, i as nat) == Ok::<
                Map<u32, EnumInfoView>,
                MetaError,
            >(enums_view(enums@)),
        decreases count - i,
    {
        assert(24 * count <= table.len());
        let at = i * 24;
        let name_hash = u32_le(table, at);
        let n = u32_le(table, at + 0x10) as usize;
        let bytes = match read_table(reader, u64_le(table, at + 8), n, 8) {
            Some(b) => b,
            None => {
                proof {
                    lemma_enums_err(
                        reader.system@,
                        reader.graphics@,
                        table@,
                        (i + 1) as nat,
                        count as nat,
                    );
                }
                return Err(MetaError::EnumMembers(name_hash));
            },
        };
        let info = MetaEnumInfo { name_hash, entries: read_enumerators(bytes, n) };
        let ghost before = enums@;
        let ghost made = info@;
        if !enums.contains_key(&name_hash) {
            enums.insert(name_hash, info);
        }
        assert(enums_view(enums@) =~= or_insert(enums_view(before), name_hash, made));
        i += 1;
    }
    Ok(enums)
}

/// A record that cannot be read fails every longer table.
proof fn lemma_enums_err(system: Seq<u8>, graphics: Seq<u8>, table: Seq<u8>, j: nat, k: nat)
    requires
        j <= k,
        enums_upto(system, graphics, table, j) is Err,
    ensures
        enums_upto(system, graphics, table, k) == enums_upto(system, graphics, table, j),
    decreases k,
{
    if j < k {
        lemma_enums_err(system, graphics, table, j, (k - 1) as nat);
    }
}

/// Reads the schema and data blocks of a Meta file's sections.
pub fn parse_meta_from_reader(reader: &ResReader<'_>) -> (r: Result<MetaFile, MetaError>)
    ensures
        file_view(r) == parsed(reader.system@, reader.graphics@),
        r is Ok ==> r->Ok_0.wf(),
{
    let header = match reader.resolve(SYSTEM_BASE, 0x70) {
        Some(h) => h,
        None => {
            return Err(MetaError::HeaderBounds);
        },
    };
    let root_index = u32_le(header, 0x1C);
    let struct_count = u16_le(header, 0x48) as usize;
    let enum_count = u16_le(header, 0x4A) as usize;
    let table = match read_table(reader, u64_le(header, 0x20), struct_count, 32) {
        Some(t) => t,
        None => {
            return Err(MetaError::StructTable);
        },
    };
    let structs = match read_structs(reader, table, struct_count) {
        Ok(m) => m,
        Err(e) => {
            return Err(e);
        },
    };
    let table = match read_table(reader, u64_le(header, 0x28), enum_count, 24) {
        Some(t) => t,
        None => {
            return Err(MetaError::EnumTable);
        },
    };
    let enums = match read_enums(reader, table, enum_count) {
        Ok(m) => m,
        Err(e) => {
            return Err(e);
        },
    };
    let blocks = match read_meta_blocks(reader) {
        Ok(b) => b,
        Err(e) => {
            return Err(e);
        },
    };
    if root_index == 0 || root_index as usize > blocks.len() {
        return Err(MetaError::RootIndex { index: root_index, blocks: blocks.len() });
    }
    Ok(MetaFile { root_block: root_index as usize - 1, structs, enums, blocks })
}

/// Whether `r` is what a resource file with a Meta inside parses to, given
/// what the file unpacks to.
pub open spec fn parsed_file(
    sections: Result<(Seq<u8>, Seq<u8>), ResourceError>,
) -> Result<MetaView, MetaError> {
    match sections {
        Ok((s, g)) => parsed(s, g),
        Err(e) => Err(MetaError::Resource(e)),
    }
}

/// Reads the schema and data blocks of an RSC7 Meta file.
pub fn parse_meta(data: &[u8]) -> (r: Result<MetaFile, MetaError>)
    ensures
        exists|sections: Result<(Seq<u8>, Seq<u8>), ResourceError>|
            #[trigger] crate::resource::unpacks_to(data@, sections) && file_view(r) == parsed_file(sections),
        r is Ok ==> r->Ok_0.wf(),
{
    let prepared = prepare_rsc7(data);
    let ghost sections = crate::resource::sections_view(prepared);
    assert(crate::resource::unpacks_to(data@, sections));
    match prepared {
        Ok((system, graphics)) => {
            let reader = ResReader { system: system.as_slice(), graphics: graphics.as_slice() };
            parse_meta_from_reader(&reader)
        },
        Err(e) => Err(MetaError::Resource(e)),
    }
}

// ─── walking ─────────────────────────────────────────────────────────────────

/// What reading one value gives: the value, and what went wrong on the way.
#[verifier::ext_equal]
pub struct Read {
    pub value: ValueView,
    pub warnings: Seq<Warning>,
}

/// A value read without trouble.
pub open spec fn plain(value: ValueView) -> Read {
    Read { value, warnings: Seq::empty() }
}

/// A value that could not be read.
pub open spec fn failed(w: Warning) -> Read {
    Read { value: ValueView::Null, warnings: seq![w] }
}

/// A member that could not be read.
pub open spec fn faulty(info: StructInfoView, entry: MetaEntryInfo, fault: MemberFault) -> Read {
    failed(Warning::Member { structure: info.name_hash, member: entry.name_hash, fault })
}

/// The `len` bytes at `off` of a block.
pub open spec fn bytes_at(f: MetaView, block: int, off: int, len: int) -> Option<Seq<u8>> {
    if 0 <= block < f.blocks.len() {
        crate::resource::window(f.blocks[block].data, off, len)
    } else {
        None
    }
}

/// The `len` bytes that a packed pointer points at.
pub open spec fn pointed_bytes(f: MetaView, raw: u64, len: int) -> Option<Seq<u8>> {
    match crate::meta_block::pointed(raw) {
        Some((b, off)) => bytes_at(f, b, off, len),
        None => None,
    }
}

/// The name that an enum of the file gives a value.
pub open spec fn enum_name(f: MetaView, enum_hash: u32, value: i32) -> Option<u32> {
    if f.enums.contains_key(enum_hash) {
        crate::value::first_name(f.enums[enum_hash].entries, value)
    } else {
        None
    }
}

/// An enum value.
pub open spec fn enum_value(f: MetaView, enum_hash: u32, value: i32) -> ValueView {
    ValueView::Enum { enum_hash, value, name: enum_name(f, enum_hash, value) }
}

/// A bit set.
pub open spec fn flags_value(f: MetaView, enum_hash: u32, bits: u32) -> ValueView {
    ValueView::Flags {
        enum_hash,
        bits,
        names: if f.enums.contains_key(enum_hash) {
            crate::value::flag_names(f.enums[enum_hash].entries, bits)
        } else {
            Seq::empty()
        },
    }
}

/// How many bytes a value of a plain type takes in a structure, zero for the
/// types that are not plain.
pub open spec fn scalar_len(ty: MetaType) -> int {
    match ty {
        MetaType::Boolean | MetaType::SignedByte | MetaType::UnsignedByte | MetaType::ByteEnum => 1,
        MetaType::SignedShort | MetaType::UnsignedShort | MetaType::ShortFlags => 2,
        MetaType::SignedInt | MetaType::UnsignedInt | MetaType::Float | MetaType::Hash
        | MetaType::IntEnum | MetaType::IntFlags1 | MetaType::IntFlags2 => 4,
        MetaType::Vec3 => 12,
        MetaType::Vec4 => 16,
        _ => 0,
    }
}

/// The three singles that `b` starts with.
pub open spec fn vec3_of(b: Seq<u8>) -> ValueView {
    ValueView::Vec3(Vec3 { x: crate::bytes::le32(b, 0), y: crate::bytes::le32(b, 4), z: crate::bytes::le32(b, 8) })
}

/// The value of a plain type.
pub open spec fn scalar_value(f: MetaView, ty: MetaType, ref_key: u32, b: Seq<u8>) -> ValueView {
    match ty {
        MetaType::Boolean => ValueView::Bool(b[0] != 0),
        MetaType::SignedByte => ValueView::I8(b[0] as i8),
        MetaType::UnsignedByte => ValueView::U8(b[0]),
        MetaType::ByteEnum => enum_value(f, ref_key, b[0] as i32),
        MetaType::SignedShort => ValueView::I16(crate::bytes::le16(b, 0) as i16),
        MetaType::UnsignedShort => ValueView::U16(crate::bytes::le16(b, 0)),
        MetaType::ShortFlags => flags_value(f, ref_key, crate::bytes::le16(b, 0) as u32),
        MetaType::SignedInt => ValueView::I32(crate::bytes::le32(b, 0) as i32),
        MetaType::UnsignedInt => ValueView::U32(crate::bytes::le32(b, 0)),
        MetaType::Float => ValueView::F32(crate::bytes::le32(b, 0)),
        MetaType::Hash => ValueView::Hash(crate::bytes::le32(b, 0)),
        MetaType::IntEnum => enum_value(f, ref_key, crate::bytes::le32(b, 0) as i32),
        MetaType::IntFlags1 | MetaType::IntFlags2 => flags_value(f, ref_key, crate::bytes::le32(b, 0)),
        MetaType::Vec3 => vec3_of(b),
        _ => ValueView::Vec4(
            Vec4 { x: crate::bytes::le32(b, 0), y: crate::bytes::le32(b, 4), z: crate::bytes::le32(b, 8), w: crate::bytes::le32(b, 12) },
        ),
    }
}

/// The index of the last element descriptor among the first `k` members.
pub open spec fn last_info(entries: Seq<MetaEntryInfo>, k: nat) -> Option<int>
    decreases k,
{
    if k == 0 {
        None
    } else if entries[k - 1].name_hash == ARRAYINFO {
        Some(k - 1)
    } else {
        last_info(entries, (k - 1) as nat)
    }
}

/// The element descriptor of an array member: the one its `ref_index` names
/// when that is an `ARRAYINFO`, else the one seen last.
pub open spec fn element_of(
    info: StructInfoView,
    entry: MetaEntryInfo,
    last: Option<int>,
) -> Option<MetaEntryInfo> {
    if 0 <= entry.ref_index < info.entries.len() && info.entries[entry.ref_index as int].name_hash
        == ARRAYINFO {
        Some(info.entries[entry.ref_index as int])
    } else {
        match last {
            Some(i) => Some(info.entries[i]),
            None => None,
        }
    }
}

/// Where a member lies: its signed offset from where the structure does, in
/// wrapping arithmetic.
pub open spec fn member_at(off: u64, entry: MetaEntryInfo) -> u64 {
    off.wrapping_add(entry.offset as u64)
}

/// The structure of type `type_hash` at a place in a block, `depth`
/// structures deep.
pub open spec fn read_struct(f: MetaView, type_hash: u32, block: int, off: u64, depth: nat) -> Read
    decreases 66 - depth, 0int, 0int,
{
    if depth > 64 {
        failed(Warning::TooDeep)
    } else if !f.structs.contains_key(type_hash) {
        failed(Warning::NoSchema(type_hash))
    } else {
        let info = f.structs[type_hash];
        let r = read_fields(f, info, block, off, depth + 1, info.entries.len());
        Read {
            value: ValueView::Struct(StructView { type_hash, fields: r.0 }),
            warnings: r.1,
        }
    }
}

/// The first `k` members of a structure, in schema order, the element
/// descriptors left out.
pub open spec fn read_fields(
    f: MetaView,
    info: StructInfoView,
    block: int,
    off: u64,
    depth: nat,
    k: nat,
) -> (Seq<(u32, ValueView)>, Seq<Warning>)
    decreases 66 - depth, 4int, k,
{
    if k == 0 {
        (Seq::empty(), Seq::empty())
    } else {
        let before = read_fields(f, info, block, off, depth, (k - 1) as nat);
        let entry = info.entries[k - 1];
        if entry.name_hash == ARRAYINFO {
            before
        } else {
            let r = read_member(
                f,
                info,
                entry,
                last_info(info.entries, (k - 1) as nat),
                block,
                member_at(off, entry),
                depth,
            );
            (before.0.push((entry.name_hash, r.value)), before.1 + r.warnings)
        }
    }
}

/// The structure that a packed pointer leads to; its block says of which
/// type. `None` where the pointer names no block.
pub open spec fn read_pointee(f: MetaView, raw: u64, depth: nat) -> Option<Read>
    decreases 66 - depth, 1int, 0int,
{
    match crate::meta_block::pointed(raw) {
        None => Some(plain(ValueView::Null)),
        Some((b, off)) => if b < f.blocks.len() {
            Some(read_struct(f, f.blocks[b].name_hash, b, off as u64, depth))
        } else {
            None
        },
    }
}

/// Whether an array member's elements are reached through pointers.
pub open spec fn pointer_items(entry: MetaEntryInfo, elem: MetaEntryInfo) -> bool {
    entry.unknown == 4 || elem.type_byte == 0x07
}

/// The structure type that an array member names for its elements.
pub open spec fn item_type_of(entry: MetaEntryInfo, elem: MetaEntryInfo) -> Option<u32> {
    if (elem.type_byte == 0x05 || pointer_items(entry, elem)) && elem.ref_key != 0 && elem.ref_key
        != SOA_VECTOR {
        Some(elem.ref_key)
    } else {
        None
    }
}

/// The structure pointers from `n` to `count` of a pointer array.
pub open spec fn pointers_from(
    f: MetaView,
    info: StructInfoView,
    entry: MetaEntryInfo,
    block: int,
    off: int,
    n: nat,
    count: nat,
    depth: nat,
) -> (Seq<ValueView>, Seq<Warning>)
    decreases 66 - depth, 2int, count - n,
{
    if n >= count {
        (Seq::empty(), Seq::empty())
    } else {
        match bytes_at(f, block, off + 8 * n, 8) {
            None => (
                Seq::empty(),
                faulty(info, entry, MemberFault::ElementBounds(n as u64)).warnings,
            ),
            Some(p) => {
                let r = match read_pointee(f, crate::bytes::le64(p, 0), depth) {
                    Some(r) => r,
                    None => faulty(info, entry, MemberFault::ElementDangles(n as u64)),
                };
                let rest = pointers_from(f, info, entry, block, off, n + 1, count, depth);
                (seq![r.value] + rest.0, r.warnings + rest.1)
            },
        }
    }
}

/// A string that a `CharPointer` header points at, `None` where it dangles.
pub open spec fn pointed_text(f: MetaView, b: Seq<u8>) -> Option<Seq<char>> {
    let count = crate::bytes::le16(b, 8) as int;
    let cap = crate::bytes::le16(b, 10) as int;
    let len = if cap == 0 {
        count
    } else {
        crate::resource::least(count, cap)
    };
    if len == 0 {
        Some(Seq::empty())
    } else {
        match pointed_bytes(f, crate::bytes::le64(b, 0), len) {
            Some(s) => Some(crate::text::nul_text(s)),
            None => None,
        }
    }
}

/// The member `entry` of a structure, at a place in a block.
pub open spec fn read_member(
    f: MetaView,
    info: StructInfoView,
    entry: MetaEntryInfo,
    last: Option<int>,
    block: int,
    abs: u64,
    depth: nat,
) -> Read
    decreases 66 - depth, 3int, 0int,
{
    match type_of(entry.type_byte) {
        None => faulty(info, entry, MemberFault::UnknownType(entry.type_byte)),
        Some(MetaType::Structure) => read_struct(f, entry.ref_key, block, abs, depth),
        Some(ty) => {
            let elem = element_of(info, entry, last);
            let elem_ty = match elem {
                Some(e) => match type_of(e.type_byte) {
                    Some(t) => t,
                    None => MetaType::UnsignedByte,
                },
                None => MetaType::UnsignedByte,
            };
            let raw_bytes = elem_ty == MetaType::UnsignedByte || elem_ty == MetaType::SignedByte
                || elem_ty == MetaType::Boolean;
            if ty == MetaType::ByteArray && !raw_bytes {
                read_elements(f, elem_ty, 0, block, abs, entry.ref_key as nat, depth)
            } else if ty == MetaType::Array && elem is None {
                faulty(info, entry, MemberFault::ArrayWithoutInfo)
            } else {
                match bytes_at(f, block, abs as int, member_len(ty, entry.ref_key)) {
                    None => faulty(
                        info,
                        entry,
                        MemberFault::BlockBounds {
                            len: member_len(ty, entry.ref_key) as u64,
                            block: block as u64,
                            at: abs,
                        },
                    ),
                    Some(b) => match ty {
                        MetaType::CharArray => plain(ValueView::Str(crate::text::nul_text(b))),
                        MetaType::ByteArray => plain(ValueView::Bytes(b)),
                        MetaType::CharPointer => match pointed_text(f, b) {
                            Some(text) => plain(ValueView::Str(text)),
                            None => faulty(info, entry, MemberFault::StringDangles),
                        },
                        MetaType::DataBlockPointer => match crate::meta_block::pointed(crate::bytes::le64(b, 0)) {
                            None => plain(ValueView::Bytes(Seq::empty())),
                            Some((bi, _)) => if bi < f.blocks.len() {
                                plain(ValueView::Bytes(f.blocks[bi].data))
                            } else {
                                faulty(info, entry, MemberFault::DataBlockDangles)
                            },
                        },
                        MetaType::StructurePointer => match read_pointee(f, crate::bytes::le64(b, 0), depth) {
                            Some(r) => r,
                            None => faulty(info, entry, MemberFault::StructureDangles),
                        },
                        MetaType::Array => read_array(f, info, entry, elem->0, b, depth),
                        _ => plain(scalar_value(f, ty, entry.ref_key, b)),
                    },
                }
            }
        },
    }
}

/// How many bytes a member takes in its structure.
pub open spec fn member_len(ty: MetaType, ref_key: u32) -> int {
    match ty {
        MetaType::CharArray | MetaType::ByteArray => ref_key as int,
        MetaType::CharPointer | MetaType::Array => 16,
        MetaType::DataBlockPointer | MetaType::StructurePointer => 8,
        _ => scalar_len(ty),
    }
}

/// An `Array` member, by its header.
pub open spec fn read_array(
    f: MetaView,
    info: StructInfoView,
    entry: MetaEntryInfo,
    elem: MetaEntryInfo,
    header: Seq<u8>,
    depth: nat,
) -> Read
    decreases 66 - depth, 2int, 0x1_0000_0001int,
{
    let count = crate::bytes::le16(header, 8) as nat;
    match crate::meta_block::pointed(crate::bytes::le64(header, 0)) {
        None => plain(
            ValueView::Array(
                ArrayView {
                    item_type: item_type_of(entry, elem),
                    typed_items: pointer_items(entry, elem),
                    items: Seq::empty(),
                },
            ),
        ),
        Some((bi, bo)) => if pointer_items(entry, elem) {
            let r = pointers_from(f, info, entry, bi, bo, 0, count, depth);
            Read {
                value: ValueView::Array(
                    ArrayView {
                        item_type: item_type_of(entry, elem),
                        typed_items: true,
                        items: r.0,
                    },
                ),
                warnings: r.1,
            }
        } else {
            match type_of(elem.type_byte) {
                None => faulty(info, entry, MemberFault::ElementType(elem.type_byte)),
                Some(ty) => read_elements(f, ty, elem.ref_key, bi, bo as u64, count, depth),
            }
        },
    }
}

/// How far apart elements of a type lie, zero where nothing says.
pub open spec fn stride_of(f: MetaView, ty: MetaType, ref_key: u32) -> int {
    match ty {
        MetaType::Vec3 | MetaType::Vec4 | MetaType::CharPointer | MetaType::Array => 16,
        MetaType::StructurePointer | MetaType::DataBlockPointer => 8,
        MetaType::Structure => if ref_key == SOA_VECTOR {
            16
        } else if f.structs.contains_key(ref_key) && f.structs[ref_key].size > 0 {
            f.structs[ref_key].size as int
        } else {
            0
        },
        MetaType::CharArray | MetaType::ByteArray => if ref_key == 0 {
            1
        } else {
            ref_key as int
        },
        _ => scalar_len(ty),
    }
}

/// Element `n`, whose bytes are `b`, at a place in a block.
pub open spec fn read_element(
    f: MetaView,
    ty: MetaType,
    ref_key: u32,
    block: int,
    off: u64,
    b: Seq<u8>,
    n: nat,
    depth: nat,
) -> Read
    decreases 66 - depth, 2int, 0int,
{
    match ty {
        MetaType::CharArray => plain(ValueView::Str(crate::text::nul_text(b))),
        MetaType::ByteArray | MetaType::Array => plain(ValueView::Bytes(b)),
        MetaType::Structure => if ref_key == SOA_VECTOR {
            plain(vec3_of(b))
        } else {
            read_struct(f, ref_key, block, off, depth)
        },
        MetaType::CharPointer => match pointed_bytes(f, crate::bytes::le64(b, 0), crate::bytes::le16(b, 8) as int) {
            Some(s) => plain(ValueView::Str(crate::text::nul_text(s))),
            None => if crate::bytes::le16(b, 8) == 0 {
                plain(ValueView::Str(Seq::empty()))
            } else {
                failed(Warning::StringDangles(n as u64))
            },
        },
        MetaType::StructurePointer => match read_pointee(f, crate::bytes::le64(b, 0), depth) {
            Some(r) => r,
            None => failed(Warning::PointerDangles(n as u64)),
        },
        MetaType::DataBlockPointer => match crate::meta_block::pointed(crate::bytes::le64(b, 0)) {
            Some((bi, _)) => if bi < f.blocks.len() {
                plain(ValueView::Bytes(f.blocks[bi].data))
            } else {
                plain(ValueView::Bytes(Seq::empty()))
            },
            None => plain(ValueView::Bytes(Seq::empty())),
        },
        _ => plain(scalar_value(f, ty, ref_key, b)),
    }
}

/// Where the next element is looked for: structures run on into the
/// following block where theirs has ended.
pub open spec fn element_place(f: MetaView, ty: MetaType, n: nat, block: int, off: u64) -> (
    int,
    u64,
) {
    if ty == MetaType::Structure && n > 0 && block < f.blocks.len() && off
        >= f.blocks[block].data.len() {
        (block + 1, 0)
    } else {
        (block, off)
    }
}

/// The elements from `n` to `count`, up to the first that lies in no block.
pub open spec fn elements_from(
    f: MetaView,
    ty: MetaType,
    ref_key: u32,
    block: int,
    off: u64,
    n: nat,
    count: nat,
    depth: nat,
) -> (Seq<ValueView>, Seq<Warning>)
    decreases 66 - depth, 2int, count - n,
{
    if n >= count {
        (Seq::empty(), Seq::empty())
    } else {
        let (bi, bo) = element_place(f, ty, n, block, off);
        match bytes_at(f, bi, bo as int, stride_of(f, ty, ref_key)) {
            None => (
                Seq::empty(),
                seq![Warning::BlockElementBounds { n: n as u64, block: bi as u64, at: bo }],
            ),
            Some(b) => {
                let r = read_element(f, ty, ref_key, bi, bo, b, n, depth);
                let rest = elements_from(
                    f,
                    ty,
                    ref_key,
                    bi,
                    (bo + stride_of(f, ty, ref_key)) as u64,
                    n + 1,
                    count,
                    depth,
                );
                (seq![r.value] + rest.0, r.warnings + rest.1)
            },
        }
    }
}

/// The `count` inline elements of type `ty` from a place in a block on.
pub open spec fn read_elements(
    f: MetaView,
    ty: MetaType,
    ref_key: u32,
    block: int,
    off: u64,
    count: nat,
    depth: nat,
) -> Read
    decreases 66 - depth, 2int, count + 1,
{
    if stride_of(f, ty, ref_key) == 0 {
        failed(Warning::ArrayWithoutSchema(ref_key))
    } else {
        let r = elements_from(f, ty, ref_key, block, off, 0, count, depth);
        Read {
            value: ValueView::Array(
                ArrayView {
                    item_type: if ty == MetaType::Structure && ref_key != SOA_VECTOR {
                        Some(ref_key)
                    } else {
                        None
                    },
                    typed_items: false,
                    items: r.0,
                },
            ),
            warnings: r.1,
        }
    }
}

/// The tree of a whole file, from its root block.
pub open spec fn walked(f: MetaView) -> Read {
    if 0 <= f.root_block < f.blocks.len() {
        read_struct(f, f.blocks[f.root_block].name_hash, f.root_block, 0, 0)
    } else {
        failed(Warning::RootMissing)
    }
}

struct Walker<'a> {
    file: &'a MetaFile,
    warnings: Vec<Warning>,
    depth: usize,
}

impl<'a> Walker<'a> {
    spec fn ok(self) -> bool {
        &&& self.file.wf()
        &&& self.warnings@.len() <= 200
        &&& self.depth <= 65
    }

    /// Nothing changed since `before`, but that these warnings came up.
    spec fn after(self, before: Self, w: Seq<Warning>) -> bool {
        &&& self.file == before.file
        &&& self.depth == before.depth
        &&& self.warnings@ == crate::warning::capped(before.warnings@ + w)
        &&& self.warnings@.len() <= 200
    }

    /// The value `v` and the warnings since `before` are those of `r`.
    spec fn gave(self, before: Self, v: MetaValue, r: Read) -> bool {
        v@ == r.value && self.after(before, r.warnings)
    }

    /// No warnings since now are no change.
    proof fn lemma_quiet(self)
        requires
            self.ok(),
        ensures
            self.after(self, Seq::<Warning>::empty()),
    {
        assert(self.warnings@ + Seq::<Warning>::empty() =~= self.warnings@);
    }

    fn warn(&mut self, w: Warning) -> (v: MetaValue)
        requires
            old(self).ok(),
        ensures
            final(self).gave(*old(self), v, failed(w)),
    {
        let ghost before = self.warnings@;
        push_warning(&mut self.warnings, w);
        assert(before.push(w) =~= before + seq![w]);
        MetaValue::Null
    }

    fn fault(&mut self, info: &MetaStructInfo, entry: &MetaEntryInfo, fault: MemberFault) -> (v:
        MetaValue)
        requires
            old(self).ok(),
        ensures
            final(self).gave(*old(self), v, faulty(info@, *entry, fault)),
    {
        self.warn(
            Warning::Member { structure: info.name_hash, member: entry.name_hash, fault },
        )
    }

    fn bytes(&self, block: usize, off: u64, len: u64) -> (r: Option<&'a [u8]>)
        ensures
            crate::resource::view_of(r) == bytes_at(self.file@, block as int, off as int, len as int),
    {
        if block >= self.file.blocks.len() {
            return None;
        }
        let data = self.file.blocks[block].data.as_slice();
        assert(self.file@.blocks[block as int].data == data@);
        if len <= data.len() as u64 && off <= data.len() as u64 - len {
            Some(slice_subrange(data, off as usize, (off + len) as usize))
        } else {
            None
        }
    }

    fn pointed_bytes(&self, raw: u64, len: u64) -> (r: Option<&'a [u8]>)
        ensures
            crate::resource::view_of(r) == pointed_bytes(self.file@, raw, len as int),
    {
        match decode_meta_pointer(raw) {
            Some((b, off)) => self.bytes(b, off as u64, len),
            None => None,
        }
    }

    fn enum_value(&self, enum_hash: u32, value: i32) -> (v: MetaValue)
        ensures
            v@ == enum_value(self.file@, enum_hash, value),
    {
        let name = match self.file.enums.get(&enum_hash) {
            Some(e) => enum_member_name(&e.entries, value),
            None => None,
        };
        MetaValue::Enum { enum_hash, value, name }
    }

    fn flags(&self, enum_hash: u32, bits: u32) -> (v: MetaValue)
        ensures
            v@ == flags_value(self.file@, enum_hash, bits),
    {
        let names = match self.file.enums.get(&enum_hash) {
            Some(e) => set_flag_names(&e.entries, bits),
            None => Vec::new(),
        };
        MetaValue::Flags { enum_hash, bits, names }
    }

    fn size_of(ty: MetaType) -> (n: u64)
        ensures
            n == scalar_len(ty),
            n <= 16,
    {
        match ty {
            MetaType::Boolean | MetaType::SignedByte | MetaType::UnsignedByte
            | MetaType::ByteEnum => 1,
            MetaType::SignedShort | MetaType::UnsignedShort | MetaType::ShortFlags => 2,
            MetaType::SignedInt | MetaType::UnsignedInt | MetaType::Float | MetaType::Hash
            | MetaType::IntEnum | MetaType::IntFlags1 | MetaType::IntFlags2 => 4,
            MetaType::Vec3 => 12,
            MetaType::Vec4 => 16,
            _ => 0,
        }
    }

    fn vec3(b: &[u8]) -> (v: MetaValue)
        requires
            b@.len() >= 12,
        ensures
            v@ == vec3_of(b@),
    {
        MetaValue::Vec3(Vec3::new(u32_le(b, 0), u32_le(b, 4), u32_le(b, 8)))
    }

    fn scalar(&self, ty: MetaType, ref_key: u32, b: &[u8]) -> (v: MetaValue)
        requires
            scalar_len(ty) > 0,
            b@.len() >= scalar_len(ty),
        ensures
            v@ == scalar_value(self.file@, ty, ref_key, b@),
    {
        match ty {
            MetaType::Boolean => MetaValue::Bool(b[0] != 0),
            MetaType::SignedByte => MetaValue::I8(b[0] as i8),
            MetaType::UnsignedByte => MetaValue::U8(b[0]),
            MetaType::ByteEnum => self.enum_value(ref_key, b[0] as i32),
            MetaType::SignedShort => MetaValue::I16(u16_le(b, 0) as i16),
            MetaType::UnsignedShort => MetaValue::U16(u16_le(b, 0)),
            MetaType::ShortFlags => self.flags(ref_key, u16_le(b, 0) as u32),
            MetaType::SignedInt => MetaValue::I32(u32_le(b, 0) as i32),
            MetaType::UnsignedInt => MetaValue::U32(u32_le(b, 0)),
            MetaType::Float => MetaValue::F32(u32_le(b, 0)),
            MetaType::Hash => MetaValue::Hash(u32_le(b, 0)),
            MetaType::IntEnum => self.enum_value(ref_key, u32_le(b, 0) as i32),
            MetaType::IntFlags1 | MetaType::IntFlags2 => self.flags(ref_key, u32_le(b, 0)),
            MetaType::Vec3 => Self::vec3(b),
            _ => MetaValue::Vec4(
                Vec4::new(u32_le(b, 0), u32_le(b, 4), u32_le(b, 8), u32_le(b, 12)),
            ),
        }
    }

    fn read_struct(&mut self, type_hash: u32, block: usize, off: u64) -> (v: MetaValue)
        requires
            old(self).ok(),
        ensures
            final(self).gave(
                *old(self),
                v,
                read_struct(
                    old(self).file@,
                    type_hash,
                    block as int,
                    off,
                    old(self).depth as nat,
                ),
            ),
        decreases 66 - old(self).depth, 0int, 0int,
    {
        let ghost before = *self;
        let ghost f = self.file@;
        if self.depth > MAX_DEPTH {
            return self.warn(Warning::TooDeep);
        }
        let file = self.file;
        let info = match file.structs.get(&type_hash) {
            Some(i) => i,
            None => {
                return self.warn(Warning::NoSchema(type_hash));
            },
        };
        assert(f.structs[type_hash] == info@);
        self.depth = self.depth + 1;
        let ghost depth = self.depth as nat;
        let mut fields: Vec<(u32, MetaValue)> = Vec::new();
        let mut last: Option<usize> = None;
        let mut i: usize = 0;
        assert(before.warnings@ + Seq::<Warning>::empty() =~= before.warnings@);
        while i < info.entries.len()
            invariant
                i <= info.entries@.len(),
                self.ok(),
                self.file == before.file,
                before.depth == old(self).depth,
                self.file@ == f,
                self.depth == before.depth + 1,
                depth == self.depth,
                before.depth <= 64,
                last_info(info.entries@, i as nat) == (match last {
                    Some(k) => Some(k as int),
                    None => None,
                }),
                last is Some ==> last->0 < i,
                crate::value::fields_view(fields@) == read_fields(
                    f,
                    info@,
                    block as int,
                    off,
                    depth,
                    i as nat,
                ).0,
                self.warnings@ == crate::warning::capped(
                    before.warnings@ + read_fields(
                        f,
                        info@,
                        block as int,
                        off,
                        depth,
                        i as nat,
                    ).1,
                ),
            decreases info.entries@.len() - i,
        {
            let entry = info.entries[i];
            if entry.name_hash == ARRAYINFO {
                last = Some(i);
            } else {
                let abs = off.wrapping_add(entry.offset as u64);
                let ghost w0 = read_fields(f, info@, block as int, off, depth, i as nat).1;
                let ghost r = read_member(
                    f,
                    info@,
                    entry,
                    last_info(info.entries@, i as nat),
                    block as int,
                    member_at(off, entry),
                    depth,
                );
                let ghost was = fields@;
                let value = self.read_member(info, &entry, last, block, abs);
                proof {
                    crate::warning::lemma_capped(before.warnings@ + w0, r.warnings);
                    assert(before.warnings@ + w0 + r.warnings =~= before.warnings@ + (w0
                        + r.warnings));
                }
                fields.push((entry.name_hash, value));
                assert(crate::value::fields_view(fields@) =~= crate::value::fields_view(was).push(
                    (entry.name_hash, r.value),
                ));
            }
            i += 1;
        }
        self.depth = self.depth - 1;
        let s = MetaStruct { type_hash, fields };
        assert(s@.fields =~= crate::value::fields_view(s.fields@));
        MetaValue::Struct(s)
    }

    fn read_pointee(&mut self, raw: u64) -> (v: Option<MetaValue>)
        requires
            old(self).ok(),
        ensures
            match read_pointee(old(self).file@, raw, old(self).depth as nat) {
                Some(r) => v is Some && final(self).gave(*old(self), v->0, r),
                None => v is None && *final(self) == *old(self),
            },
        decreases 66 - old(self).depth, 1int, 0int,
    {
        proof {
            self.lemma_quiet();
        }
        match decode_meta_pointer(raw) {
            None => Some(MetaValue::Null),
            Some((b, off)) => {
                let file = self.file;
                if b < file.blocks.len() {
                    let type_hash = file.blocks[b].name_hash;
                    assert(file@.blocks[b as int].name_hash == type_hash);
                    let v = self.read_struct(type_hash, b, off as u64);
                    Some(v)
                } else {
                    None
                }
            },
        }
    }

    /// The `ARRAYINFO` describing an array member's elements.
    fn element_info(info: &MetaStructInfo, entry: &MetaEntryInfo, last: Option<usize>) -> (r: Option<
        MetaEntryInfo,
    >)
        requires
            last is Some ==> last->0 < info.entries@.len(),
        ensures
            r == element_of(
                info@,
                *entry,
                match last {
                    Some(k) => Some(k as int),
                    None => None,
                },
            ),
    {
        if entry.ref_index >= 0 && (entry.ref_index as usize) < info.entries.len()
            && info.entries[entry.ref_index as usize].name_hash == ARRAYINFO {
            Some(info.entries[entry.ref_index as usize])
        } else {
            match last {
                Some(k) => Some(info.entries[k]),
                None => None,
            }
        }
    }

    fn char_pointer(&self, b: &[u8]) -> (r: Option<String>)
        requires
            b@.len() >= 16,
        ensures
            crate::resource::text_of(r) == pointed_text(self.file@, b@),
    {
        let count = u16_le(b, 8) as u64;
        let cap = u16_le(b, 10) as u64;
        let len: u64 = if cap == 0 || count < cap {
            count
        } else {
            cap
        };
        if len == 0 {
            return Some(String::new());
        }
        match self.pointed_bytes(u64_le(b, 0), len) {
            Some(s) => Some(nul_terminated(s)),
            None => None,
        }
    }

    fn read_member(
        &mut self,
        info: &MetaStructInfo,
        entry: &MetaEntryInfo,
        last: Option<usize>,
        block: usize,
        abs: u64,
    ) -> (v: MetaValue)
        requires
            old(self).ok(),
            last is Some ==> last->0 < info.entries@.len(),
        ensures
            final(self).gave(
                *old(self),
                v,
                read_member(
                    old(self).file@,
                    info@,
                    *entry,
                    match last {
                        Some(k) => Some(k as int),
                        None => None,
                    },
                    block as int,
                    abs,
                    old(self).depth as nat,
                ),
            ),
        decreases 66 - old(self).depth, 3int, 0int,
    {
        proof {
            self.lemma_quiet();
        }
        let ty = match MetaType::from_byte(entry.type_byte) {
            Some(t) => t,
            None => {
                return self.fault(info, entry, MemberFault::UnknownType(entry.type_byte));
            },
        };
        if ty == MetaType::Structure {
            return self.read_struct(entry.ref_key, block, abs);
        }
        let elem = Self::element_info(info, entry, last);
        if ty == MetaType::ByteArray {
            let elem_ty = match &elem {
                Some(e) => match MetaType::from_byte(e.type_byte) {
                    Some(t) => t,
                    None => MetaType::UnsignedByte,
                },
                None => MetaType::UnsignedByte,
            };
            if !(elem_ty == MetaType::UnsignedByte || elem_ty == MetaType::SignedByte || elem_ty
                == MetaType::Boolean) {
                return self.read_elements(elem_ty, 0, block, abs, entry.ref_key as u64);
            }
        }
        if ty == MetaType::Array && elem.is_none() {
            return self.fault(info, entry, MemberFault::ArrayWithoutInfo);
        }
        let len: u64 = match ty {
            MetaType::CharArray | MetaType::ByteArray => entry.ref_key as u64,
            MetaType::CharPointer | MetaType::Array => 16,
            MetaType::DataBlockPointer | MetaType::StructurePointer => 8,
            _ => Self::size_of(ty),
        };
        let b = match self.bytes(block, abs, len) {
            Some(b) => b,
            None => {
                return self.fault(
                    info,
                    entry,
                    MemberFault::BlockBounds { len, block: block as u64, at: abs },
                );
            },
        };
        match ty {
            MetaType::CharArray => MetaValue::Str(nul_terminated(b)),
            MetaType::ByteArray => MetaValue::Bytes(to_vec(b)),
            MetaType::CharPointer => match self.char_pointer(b) {
                Some(s) => MetaValue::Str(s),
                None => self.fault(info, entry, MemberFault::StringDangles),
            },
            MetaType::DataBlockPointer => match decode_meta_pointer(u64_le(b, 0)) {
                None => {
                    let none: Vec<u8> = Vec::new();
                    MetaValue::Bytes(none)
                },
                Some((bi, _)) => {
                    let file = self.file;
                    if bi < file.blocks.len() {
                        assert(file@.blocks[bi as int].data == file.blocks@[bi as int].data@);
                        MetaValue::Bytes(to_vec(file.blocks[bi].data.as_slice()))
                    } else {
                        self.fault(info, entry, MemberFault::DataBlockDangles)
                    }
                },
            },
            MetaType::StructurePointer => match self.read_pointee(u64_le(b, 0)) {
                Some(v) => v,
                None => self.fault(info, entry, MemberFault::StructureDangles),
            },
            MetaType::Array => match elem {
                Some(e) => self.read_array(info, entry, &e, b),
                None => MetaValue::Null,
            },
            _ => self.scalar(ty, entry.ref_key, b),
        }
    }

    #[verifier::rlimit(60)]
    fn read_pointers(
        &mut self,
        info: &MetaStructInfo,
        entry: &MetaEntryInfo,
        block: usize,
        off: usize,
        count: usize,
    ) -> (items: Vec<MetaValue>)
        requires
            old(self).ok(),
            off < 0x10_0000,
            count <= 0xFFFF,
        ensures
            ({
                let all = pointers_from(
                    old(self).file@,
                    info@,
                    *entry,
                    block as int,
                    off as int,
                    0,
                    count as nat,
                    old(self).depth as nat,
                );
                crate::value::values_view(items@) == all.0 && final(self).after(*old(self), all.1)
            }),
        decreases 66 - old(self).depth, 2int, count,
    {
        let ghost before = *self;
        let ghost f = self.file@;
        let ghost depth = self.depth as nat;
        let ghost all = pointers_from(
            f,
            info@,
            *entry,
            block as int,
            off as int,
            0,
            count as nat,
            depth,
        );
        let ghost mut seen = Seq::<Warning>::empty();
        let mut items: Vec<MetaValue> = Vec::new();
        let mut n: usize = 0;
        proof {
            self.lemma_quiet();
            assert(crate::value::values_view(items@) + all.0 =~= all.0);
            assert(seen + all.1 =~= all.1);
        }
        while n < count
            invariant
                n <= count <= 0xFFFF,
                off < 0x10_0000,
                self.ok(),
                self.file == before.file,
                before == *old(self),
                self.file@ == f,
                self.depth == before.depth,
                depth == self.depth,
                self.after(before, seen),
                all == pointers_from(
                    f,
                    info@,
                    *entry,
                    block as int,
                    off as int,
                    0,
                    count as nat,
                    depth,
                ),
                crate::value::values_view(items@) + pointers_from(
                    f,
                    info@,
                    *entry,
                    block as int,
                    off as int,
                    n as nat,
                    count as nat,
                    depth,
                ).0 == all.0,
                seen + pointers_from(
                    f,
                    info@,
                    *entry,
                    block as int,
                    off as int,
                    n as nat,
                    count as nat,
                    depth,
                ).1 == all.1,
            decreases count - n,
        {
            let ghost was = items@;
            let ghost seen0 = seen;
            let ghost rest = pointers_from(
                f,
                info@,
                *entry,
                block as int,
                off as int,
                n as nat,
                count as nat,
                depth,
            );
            let p = match self.bytes(block, off as u64 + 8 * n as u64, 8) {
                Some(p) => p,
                None => {
                    self.fault(info, entry, MemberFault::ElementBounds(n as u64));
                    proof {
                        let w = rest.1;
                        crate::warning::lemma_capped(before.warnings@ + seen0, w);
                        assert(before.warnings@ + seen0 + w =~= before.warnings@ + (seen0 + w));
                        assert(crate::value::values_view(items@) + rest.0 =~= crate::value::values_view(items@));
                    }
                    return items;
                },
            };
            let ghost r = match read_pointee(f, crate::bytes::le64(p@, 0), depth) {
                Some(r) => r,
                None => faulty(info@, *entry, MemberFault::ElementDangles(n as u64)),
            };
            let v = match self.read_pointee(u64_le(p, 0)) {
                Some(v) => v,
                None => self.fault(info, entry, MemberFault::ElementDangles(n as u64)),
            };
            items.push(v);
            proof {
                let next = pointers_from(
                    f,
                    info@,
                    *entry,
                    block as int,
                    off as int,
                    (n + 1) as nat,
                    count as nat,
                    depth,
                );
                seen = seen0 + r.warnings;
                crate::warning::lemma_capped(before.warnings@ + seen0, r.warnings);
                assert(before.warnings@ + seen0 + r.warnings =~= before.warnings@ + seen);
                assert(crate::value::values_view(items@) =~= crate::value::values_view(was).push(r.value));
                assert(crate::value::values_view(items@) + next.0 =~= crate::value::values_view(was) + rest.0);
                assert(seen + next.1 =~= seen0 + rest.1);
            }
            n += 1;
        }
        proof {
            assert(crate::value::values_view(items@) + Seq::<ValueView>::empty() =~= crate::value::values_view(items@));
            assert(seen + Seq::<Warning>::empty() =~= seen);
        }
        items
    }

    fn read_array(
        &mut self,
        info: &MetaStructInfo,
        entry: &MetaEntryInfo,
        elem: &MetaEntryInfo,
        b: &[u8],
    ) -> (v: MetaValue)
        requires
            old(self).ok(),
            b@.len() >= 16,
        ensures
            final(self).gave(
                *old(self),
                v,
                read_array(
                    old(self).file@,
                    info@,
                    *entry,
                    *elem,
                    b@,
                    old(self).depth as nat,
                ),
            ),
        decreases 66 - old(self).depth, 2int, 0x1_0000_0001int,
    {
        proof {
            self.lemma_quiet();
        }
        let count = u16_le(b, 8) as usize;
        let pointer_items = entry.unknown == 4 || elem.type_byte == 0x07;
        let item_type: Option<u32> = if (elem.type_byte == 0x05 || pointer_items) && elem.ref_key
            != 0 && elem.ref_key != SOA_VECTOR {
            Some(elem.ref_key)
        } else {
            None
        };
        let (bi, bo) = match decode_meta_pointer(u64_le(b, 0)) {
            Some(p) => p,
            None => {
                let a = MetaArray { item_type, typed_items: pointer_items, items: Vec::new() };
                assert(a@.items =~= Seq::<ValueView>::empty());
                return MetaValue::Array(a);
            },
        };
        if pointer_items {
            let items = self.read_pointers(info, entry, bi, bo, count);
            let a = MetaArray { item_type, typed_items: true, items };
            assert(a@.items =~= crate::value::values_view(a.items@));
            return MetaValue::Array(a);
        }
        match MetaType::from_byte(elem.type_byte) {
            Some(ty) => self.read_elements(ty, elem.ref_key, bi, bo as u64, count as u64),
            None => self.fault(info, entry, MemberFault::ElementType(elem.type_byte)),
        }
    }

    fn stride(&self, ty: MetaType, ref_key: u32) -> (r: u64)
        ensures
            r == stride_of(self.file@, ty, ref_key),
            r <= u32::MAX,
    {
        match ty {
            MetaType::Vec3 | MetaType::Vec4 | MetaType::CharPointer | MetaType::Array => 16,
            MetaType::StructurePointer | MetaType::DataBlockPointer => 8,
            MetaType::Structure => if ref_key == SOA_VECTOR {
                16
            } else {
                match self.file.structs.get(&ref_key) {
                    Some(s) => if s.size > 0 {
                        s.size as u64
                    } else {
                        0
                    },
                    None => 0,
                }
            },
            MetaType::CharArray | MetaType::ByteArray => if ref_key == 0 {
                1
            } else {
                ref_key as u64
            },
            _ => Self::size_of(ty),
        }
    }

    fn read_element(
        &mut self,
        ty: MetaType,
        ref_key: u32,
        block: usize,
        off: u64,
        b: &[u8],
        n: u64,
    ) -> (v: MetaValue)
        requires
            old(self).ok(),
            b@.len() == stride_of(old(self).file@, ty, ref_key) > 0,
        ensures
            final(self).gave(
                *old(self),
                v,
                read_element(
                    old(self).file@,
                    ty,
                    ref_key,
                    block as int,
                    off,
                    b@,
                    n as nat,
                    old(self).depth as nat,
                ),
            ),
        decreases 66 - old(self).depth, 2int, 0int,
    {
        proof {
            self.lemma_quiet();
        }
        match ty {
            MetaType::CharArray => MetaValue::Str(nul_terminated(b)),
            MetaType::ByteArray | MetaType::Array => MetaValue::Bytes(to_vec(b)),
            MetaType::Structure => if ref_key == SOA_VECTOR {
                Self::vec3(b)
            } else {
                self.read_struct(ref_key, block, off)
            },
            MetaType::CharPointer => {
                let count = u16_le(b, 8) as u64;
                match self.pointed_bytes(u64_le(b, 0), count) {
                    Some(s) => MetaValue::Str(nul_terminated(s)),
                    None => if count == 0 {
                        MetaValue::Str(String::new())
                    } else {
                        self.warn(Warning::StringDangles(n))
                    },
                }
            },
            MetaType::StructurePointer => match self.read_pointee(u64_le(b, 0)) {
                Some(v) => v,
                None => self.warn(Warning::PointerDangles(n)),
            },
            MetaType::DataBlockPointer => {
                let file = self.file;
                match decode_meta_pointer(u64_le(b, 0)) {
                    Some((bi, _)) => if bi < file.blocks.len() {
                        assert(file@.blocks[bi as int].data == file.blocks@[bi as int].data@);
                        MetaValue::Bytes(to_vec(file.blocks[bi].data.as_slice()))
                    } else {
                        let none: Vec<u8> = Vec::new();
                        MetaValue::Bytes(none)
                    },
                    None => {
                        let none: Vec<u8> = Vec::new();
                        MetaValue::Bytes(none)
                    },
                }
            },
            _ => self.scalar(ty, ref_key, b),
        }
    }

    /// Reads `count` inline elements of type `ty` starting at block/offset,
    /// continuing into the next block when the elements are structures
    /// laid out across block boundaries.
    #[verifier::rlimit(60)]
    fn read_elements(&mut self, ty: MetaType, ref_key: u32, block: usize, off: u64, count: u64) -> (v:
        MetaValue)
        requires
            old(self).ok(),
            count <= u32::MAX,
        ensures
            final(self).gave(
                *old(self),
                v,
                read_elements(
                    old(self).file@,
                    ty,
                    ref_key,
                    block as int,
                    off,
                    count as nat,
                    old(self).depth as nat,
                ),
            ),
        decreases 66 - old(self).depth, 2int, count + 1,
    {
        let ghost before = *self;
        let ghost f = self.file@;
        let ghost depth = self.depth as nat;
        let stride = self.stride(ty, ref_key);
        if stride == 0 {
            return self.warn(Warning::ArrayWithoutSchema(ref_key));
        }
        let ghost all = elements_from(f, ty, ref_key, block as int, off, 0, count as nat, depth);
        let ghost mut seen = Seq::<Warning>::empty();
        let mut items: Vec<MetaValue> = Vec::new();
        let mut n: u64 = 0;
        let mut bi: usize = block;
        let mut bo: u64 = off;
        let mut open = true;
        proof {
            self.lemma_quiet();
            assert(crate::value::values_view(items@) + all.0 =~= all.0);
            assert(seen + all.1 =~= all.1);
        }
        while open && n < count
            invariant
                n <= count <= u32::MAX,
                self.ok(),
                self.file == before.file,
                before == *old(self),
                self.file@ == f,
                self.depth == before.depth,
                depth == self.depth,
                0 < stride <= u32::MAX,
                stride == stride_of(f, ty, ref_key),
                self.after(before, seen),
                all == elements_from(
                    f,
                    ty,
                    ref_key,
                    block as int,
                    off,
                    0,
                    count as nat,
                    depth,
                ),
                open ==> crate::value::values_view(items@) + elements_from(
                    f,
                    ty,
                    ref_key,
                    bi as int,
                    bo,
                    n as nat,
                    count as nat,
                    depth,
                ).0 == all.0,
                open ==> seen + elements_from(
                    f,
                    ty,
                    ref_key,
                    bi as int,
                    bo,
                    n as nat,
                    count as nat,
                    depth,
                ).1 == all.1,
                !open ==> crate::value::values_view(items@) == all.0 && seen == all.1,
            decreases (if open { 1int } else { 0int }), count - n,
        {
            let ghost was = items@;
            let ghost seen0 = seen;
            let ghost rest = elements_from(
                f,
                ty,
                ref_key,
                bi as int,
                bo,
                n as nat,
                count as nat,
                depth,
            );
            let ghost place = element_place(f, ty, n as nat, bi as int, bo);
            if ty == MetaType::Structure && n > 0 && bi < self.file.blocks.len() && bo
                >= self.file.blocks[bi].data.len() as u64 {
                bi += 1;
                bo = 0;
            }
            assert(place == (bi as int, bo));
            match self.bytes(bi, bo, stride) {
                Some(b) => {
                    let ghost r = read_element(
                        f,
                        ty,
                        ref_key,
                        bi as int,
                        bo,
                        b@,
                        n as nat,
                        depth,
                    );
                    let v = self.read_element(ty, ref_key, bi, bo, b, n);
                    items.push(v);
                    assert(bo + stride <= f.blocks[bi as int].data.len() <= u32::MAX);
                    bo += stride;
                    proof {
                        let next = elements_from(
                            f,
                            ty,
                            ref_key,
                            bi as int,
                            bo,
                            (n + 1) as nat,
                            count as nat,
                            depth,
                        );
                        seen = seen0 + r.warnings;
                        crate::warning::lemma_capped(before.warnings@ + seen0, r.warnings);
                        assert(before.warnings@ + seen0 + r.warnings =~= before.warnings@ + seen);
                        assert(crate::value::values_view(items@) =~= crate::value::values_view(was).push(r.value));
                        assert(crate::value::values_view(items@) + next.0 =~= crate::value::values_view(was) + rest.0);
                        assert(seen + next.1 =~= seen0 + rest.1);
                    }
                    n += 1;
                },
                None => {
                    open = false;
                    self.warn(Warning::BlockElementBounds { n, block: bi as u64, at: bo });
                    proof {
                        let w = rest.1;
                        seen = seen0 + w;
                        crate::warning::lemma_capped(before.warnings@ + seen0, w);
                        assert(before.warnings@ + seen0 + w =~= before.warnings@ + seen);
                        assert(crate::value::values_view(items@) + rest.0 =~= crate::value::values_view(items@));
                    }
                },
            }
        }
        proof {
            if open {
                assert(crate::value::values_view(items@) + Seq::<ValueView>::empty() =~= crate::value::values_view(items@));
                assert(seen + Seq::<Warning>::empty() =~= seen);
            }
        }
        let item_type: Option<u32> = if ty == MetaType::Structure && ref_key != SOA_VECTOR {
            Some(ref_key)
        } else {
            None
        };
        let a = MetaArray { item_type, typed_items: false, items };
        assert(a@.items =~= crate::value::values_view(a.items@));
        MetaValue::Array(a)
    }
}

/// Decodes the whole file from its root block.
pub fn walk(file: &MetaFile) -> (dump: MetaDump)
    requires
        file.wf(),
    ensures
        dump.root@ == walked(file@).value,
        dump.warnings@ == crate::warning::capped(walked(file@).warnings),
{
    let mut w = Walker { file, warnings: Vec::new(), depth: 0 };
    let root = if file.root_block < file.blocks.len() {
        let type_hash = file.blocks[file.root_block].name_hash;
        assert(file@.blocks[file.root_block as int].name_hash == type_hash);
        w.read_struct(type_hash, file.root_block, 0)
    } else {
        w.warn(Warning::RootMissing)
    };
    assert(Seq::<Warning>::empty() + walked(file@).warnings =~= walked(file@).warnings);
    MetaDump { root, warnings: w.warnings }
}

/// Parses and decodes in one go.
pub fn dump_meta(data: &[u8]) -> (r: Result<MetaDump, MetaError>)
    ensures
        exists|sections: Result<(Seq<u8>, Seq<u8>), ResourceError>| #[trigger]
            crate::resource::unpacks_to(data@, sections) && (match r {
                Ok(dump) => parsed_file(sections) is Ok && dump.root@ == walked(
                    parsed_file(sections)->Ok_0,
                ).value && dump.warnings@ == crate::warning::capped(walked(parsed_file(sections)->Ok_0).warnings),
                Err(e) => parsed_file(sections) == Err::<MetaView, MetaError>(e),
            }),
{
    match parse_meta(data) {
        Ok(file) => Ok(walk(&file)),
        Err(e) => Err(e),
    }
}

/// Hash of the structure name of a map file's root, for callers that dispatch
/// on [`MetaFile::root_type`].
pub fn cmapdata() -> (h: u32)
    ensures
        h == crate::hash::name_hash("CMapData"@),
{
    rage_joaat("CMapData")
}

/// Hash of the structure name of a type file's root, for callers that
/// dispatch on [`MetaFile::root_type`].
pub fn cmaptypes() -> (h: u32)
    ensures
        h == crate::hash::name_hash("CMapTypes"@),
{
    rage_joaat("CMapTypes")
}

} // verus!
