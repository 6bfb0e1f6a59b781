//! The data blocks of an RSC7 "Meta" file, and the pointers between them.

use vstd::prelude::*;
use vstd::slice::*;
use vstd::string::*;

use crate::bytes::to_vec;
use crate::resource::{u16_le, u32_le, u64_le, ResReader, ResourceError, GRAPHICS_BASE, SYSTEM_BASE};
use crate::text::{nul_terminated, push_decimal, push_hex_lower};

verus! {

broadcast use vstd::slice::group_slice_axioms;

/// What can be wrong with a Meta file.
#[derive(Debug, Clone, Copy, PartialEq, Eq, Structural)]
pub enum MetaError {
    Resource(ResourceError),
    HeaderBounds,
    BlockHeader,
    NoBlocks,
    BlockArray,
    StructTable,
    StructMembers(u32),
    MemberTable,
    EnumTable,
    EnumMembers(u32),
    EnumMemberTable,
    RootIndex { index: u32, blocks: usize },
    NotMeta,
    NoMapTypes,
    MapTypesSmall,
    ArchetypesBlock,
    ArchetypesArray,
    NoMapData,
    MapDataSmall,
    EntitiesBlock,
    EntitiesArray,
}

impl MetaError {
    /// The error in words.
    pub fn message(&self) -> (r: String)
        ensures
            r@ == self.text(),
    {
        let mut out = String::new();
        match self {
            MetaError::Resource(e) => {
                let inner = e.message();
                out.append(inner.as_str());
            },
            MetaError::HeaderBounds => {
                out.append("meta: header out of bounds");
            },
            MetaError::BlockHeader => {
                out.append("ytyp: Meta header out of bounds");
            },
            MetaError::NoBlocks => {
                out.append("ytyp: no data blocks");
            },
            MetaError::BlockArray => {
                out.append("ytyp: data block array out of bounds");
            },
            MetaError::StructTable => {
                out.append("meta: structure info table out of bounds");
            },
            MetaError::StructMembers(name) => {
                out.append("meta: members of structure ");
                out.append("0x");
                push_hex_lower(&mut out, *name as u64, 8);
                out.append(" out of bounds");
            },
            MetaError::MemberTable => {
                out.append("meta: members out of bounds");
            },
            MetaError::EnumTable => {
                out.append("meta: enum info table out of bounds");
            },
            MetaError::EnumMembers(name) => {
                out.append("meta: members of enum ");
                out.append("0x");
                push_hex_lower(&mut out, *name as u64, 8);
                out.append(" out of bounds");
            },
            MetaError::EnumMemberTable => {
                out.append("meta: enum members out of bounds");
            },
            MetaError::RootIndex { index, blocks } => {
                out.append("meta: root block index ");
                push_decimal(&mut out, *index as u64);
                out.append(" out of range (1..=");
                push_decimal(&mut out, *blocks as u64);
                out.append(")");
            },
            MetaError::NotMeta => {
                out.append("RSC7 file is not a Meta file (no 'PRD0' marker)");
            },
            MetaError::NoMapTypes => {
                out.append("ytyp: CMapTypes block not found");
            },
            MetaError::MapTypesSmall => {
                out.append("ytyp: CMapTypes block too small");
            },
            MetaError::ArchetypesBlock => {
                out.append("ytyp: archetypes pointer block out of range");
            },
            MetaError::ArchetypesArray => {
                out.append("ytyp: archetypes pointer array out of bounds");
            },
            MetaError::NoMapData => {
                out.append("ymap: CMapData block not found");
            },
            MetaError::MapDataSmall => {
                out.append("ymap: CMapData block too small");
            },
            MetaError::EntitiesBlock => {
                out.append("ymap: entities pointer block out of range");
            },
            MetaError::EntitiesArray => {
                out.append("ymap: entities pointer array out of bounds");
            },
        }
        assert(out@ =~= self.text());
        out
    }

    /// The error in words.
    pub open spec fn text(&self) -> Seq<char> {
        match self {
            MetaError::Resource(e) => e.text(),
            MetaError::HeaderBounds => "meta: header out of bounds"@,
            MetaError::BlockHeader => "ytyp: Meta header out of bounds"@,
            MetaError::NoBlocks => "ytyp: no data blocks"@,
            MetaError::BlockArray => "ytyp: data block array out of bounds"@,
            MetaError::StructTable => "meta: structure info table out of bounds"@,
            MetaError::StructMembers(name) => "meta: members of structure "@ + "0x"@ + crate::text::hex_lower(*name as nat, 8) + " out of bounds"@,
            MetaError::MemberTable => "meta: members out of bounds"@,
            MetaError::EnumTable => "meta: enum info table out of bounds"@,
            MetaError::EnumMembers(name) => "meta: members of enum "@ + "0x"@ + crate::text::hex_lower(*name as nat, 8) + " out of bounds"@,
            MetaError::EnumMemberTable => "meta: enum members out of bounds"@,
            MetaError::RootIndex { index, blocks } => "meta: root block index "@ + crate::text::decimal(*index as nat) + " out of range (1..="@ + crate::text::decimal(*blocks as nat) + ")"@,
            MetaError::NotMeta => "RSC7 file is not a Meta file (no 'PRD0' marker)"@,
            MetaError::NoMapTypes => "ytyp: CMapTypes block not found"@,
            MetaError::MapTypesSmall => "ytyp: CMapTypes block too small"@,
            MetaError::ArchetypesBlock => "ytyp: archetypes pointer block out of range"@,
            MetaError::ArchetypesArray => "ytyp: archetypes pointer array out of bounds"@,
            MetaError::NoMapData => "ymap: CMapData block not found"@,
            MetaError::MapDataSmall => "ymap: CMapData block too small"@,
            MetaError::EntitiesBlock => "ymap: entities pointer block out of range"@,
            MetaError::EntitiesArray => "ymap: entities pointer array out of bounds"@,
        }
    }
}

/// One data block: the name hash of its structure and its bytes.
pub struct MetaBlock {
    pub name_hash: u32,
    pub data: Vec<u8>,
    /// Where the block starts in the system section, when it lives there.
    pub system_offset: Option<u64>,
}

/// The model of a [`MetaBlock`].
#[verifier::ext_equal]
pub struct BlockView {
    pub name_hash: u32,
    pub data: Seq<u8>,
    pub system_offset: Option<u64>,
}

impl View for MetaBlock {
    type V = BlockView;

    open spec fn view(&self) -> BlockView {
        BlockView {
            name_hash: self.name_hash,
            data: self.data@,
            system_offset: self.system_offset,
        }
    }
}

/// The models of a list of blocks.
pub open spec fn blocks_view(blocks: Seq<MetaBlock>) -> Seq<BlockView> {
    Seq::new(blocks.len(), |i: int| blocks[i]@)
}

/// The block index and byte offset that a packed pointer stands for: the
/// 1-based block in the low 12 bits, the offset in the next 20.
pub open spec fn pointed(raw: u64) -> Option<(int, int)> {
    if raw % 0x1000 == 0 {
        None
    } else {
        Some((raw % 0x1000 - 1, (raw / 0x1000 % 0x10_0000) as int))
    }
}

/// The packed pointer to a place in a block.
pub open spec fn packed(block: int, offset: int) -> u64 {
    (block + 1 + 0x1000 * offset) as u64
}

/// Unpacking a packed pointer gives the block and the offset back.
pub proof fn law_pointer_round_trip(block: int, offset: int)
    requires
        0 <= block < 0xFFF,
        0 <= offset < 0x10_0000,
    ensures
        pointed(packed(block, offset)) == Some((block, offset)),
{
    let raw = packed(block, offset);
    assert(raw / 0x1000 == offset);
}

/// Decodes a packed Meta-format pointer (distinct from the resource VAs
/// used elsewhere: `block_id` in the low 12 bits, 1-based, an offset in the
/// next 20) into a zero-based block index and byte offset. `None` for a
/// null or zero-block pointer.
pub fn decode_meta_pointer(raw: u64) -> (r: Option<(usize, usize)>)
    ensures
        match r {
            Some((b, o)) => pointed(raw) == Some((b as int, o as int)) && b < 0xFFF && o
                < 0x10_0000,
            None => pointed(raw) is None,
        },
{
    let block_id = (raw % 0x1000) as usize;
    if block_id == 0 {
        None
    } else {
        Some((block_id - 1, (raw / 0x1000 % 0x10_0000) as usize))
    }
}

/// The block that record `i` of the block table describes. One whose data
/// pointer does not resolve is empty.
pub open spec fn block_from(system: Seq<u8>, graphics: Seq<u8>, headers: Seq<u8>, i: int) -> BlockView {
    let ptr = crate::bytes::le64(headers, 16 * i + 8);
    BlockView {
        name_hash: crate::bytes::le32(headers, 16 * i),
        data: match crate::resource::resolved(
            system,
            graphics,
            ptr,
            crate::bytes::le32(headers, 16 * i + 4) as int,
        ) {
            Some(b) => b,
            None => Seq::empty(),
        },
        system_offset: if SYSTEM_BASE <= ptr < GRAPHICS_BASE {
            Some((ptr - SYSTEM_BASE) as u64)
        } else {
            None
        },
    }
}

/// The blocks of the Meta header at the start of the system section, whose
/// block table is at 0x30 with its count at 0x4C.
pub open spec fn blocks_of(system: Seq<u8>, graphics: Seq<u8>) -> Result<Seq<BlockView>, MetaError> {
    match crate::resource::resolved(system, graphics, SYSTEM_BASE, 0x70) {
        None => Err(MetaError::BlockHeader),
        Some(header) => {
            let ptr = crate::bytes::le64(header, 0x30);
            let count = crate::bytes::le16(header, 0x4C);
            if ptr == 0 || count == 0 {
                Err(MetaError::NoBlocks)
            } else {
                match crate::resource::resolved(system, graphics, ptr, 16 * count) {
                    None => Err(MetaError::BlockArray),
                    Some(headers) => Ok(
                        Seq::new(
                            count as nat,
                            |i: int| block_from(system, graphics, headers, i),
                        ),
                    ),
                }
            }
        },
    }
}

/// No block is longer than a 32-bit length can say.
pub open spec fn short_blocks(blocks: Seq<BlockView>) -> bool {
    forall|i: int| 0 <= i < blocks.len() ==> (#[trigger] blocks[i]).data.len() <= u32::MAX
}

/// Reads every data block out of a Meta header at the start of the system
/// section. A block whose data pointer does not resolve is kept empty rather
/// than failing the whole file: other blocks may still be usable.
pub fn read_meta_blocks(reader: &ResReader<'_>) -> (r: Result<Vec<MetaBlock>, MetaError>)
    ensures
        blocks_of(reader.system@, reader.graphics@) == (match r {
            Ok(v) => Ok(blocks_view(v@)),
            Err(e) => Err(e),
        }),
        r is Ok ==> short_blocks(blocks_view(r->Ok_0@)) && r->Ok_0@.len() <= 0xFFFF,
{
    let header = match reader.resolve(SYSTEM_BASE, 0x70) {
        Some(h) => h,
        None => {
            return Err(MetaError::BlockHeader);
        },
    };
    let pointer = u64_le(header, 0x30);
    let count = u16_le(header, 0x4C) as usize;
    if pointer == 0 || count == 0 {
        return Err(MetaError::NoBlocks);
    }
    let headers = match reader.resolve(pointer, count * 16) {
        Some(h) => h,
        None => {
            return Err(MetaError::BlockArray);
        },
    };
    let mut blocks: Vec<MetaBlock> = Vec::new();
    let mut i: usize = 0;
    while i < count
        invariant
            i <= count <= 0xFFFF,
            headers@.len() == 16 * count,
            blocks@.len() == i,
            forall|k: int|
                0 <= k < i ==> (#[trigger] blocks@[k])@ == block_from(
                    reader.system@,
                    reader.graphics@,
                    headers@,
                    k,
                ),
            short_blocks(blocks_view(blocks@)),
        decreases count - i,
    {
        let off = i * 16;
        let name_hash = u32_le(headers, off);
        let length = u32_le(headers, off + 4) as usize;
        let data_ptr = u64_le(headers, off + 8);
        let data = match reader.resolve(data_ptr, length) {
            Some(b) => to_vec(b),
            None => Vec::new(),
        };
        let system_offset: Option<u64> = if data_ptr >= SYSTEM_BASE && data_ptr < GRAPHICS_BASE {
            Some(data_ptr - SYSTEM_BASE)
        } else {
            None
        };
        assert(data@.len() <= u32::MAX);
        let block = MetaBlock { name_hash, data, system_offset };
        assert(block@ =~= block_from(reader.system@, reader.graphics@, headers@, i as int));
        let ghost was = blocks@;
        blocks.push(block);
        i += 1;
        assert forall|k: int| 0 <= k < blocks@.len() implies (#[trigger] blocks_view(
            blocks@,
        )[k]).data.len() <= u32::MAX by {
            if k < i - 1 {
                assert(blocks_view(was)[k].data.len() <= u32::MAX);
            }
        }
    }
    proof {
        let made = Seq::new(
            count as nat,
            |k: int| block_from(reader.system@, reader.graphics@, headers@, k),
        );
        assert(blocks_view(blocks@) =~= made);
    }
    Ok(blocks)
}

/// The block that a packed pointer points into, from the place that it
/// points at on, for `len` bytes.
pub open spec fn target(blocks: Seq<BlockView>, raw: u64, len: int) -> Option<(u32, Seq<u8>)> {
    match pointed(raw) {
        Some((b, off)) => if b < blocks.len() {
            match crate::resource::window(blocks[b].data, off, len) {
                Some(s) => Some((blocks[b].name_hash, s)),
                None => None,
            }
        } else {
            None
        },
        None => None,
    }
}

/// Resolves a packed pointer to `len` bytes of the block it points into.
pub fn resolve_target<'a>(blocks: &'a Vec<MetaBlock>, raw: u64, len: usize) -> (r: Option<
    (u32, &'a [u8]),
>)
    requires
        len <= 0x100_0000,
    ensures
        match r {
            Some((h, s)) => target(blocks_view(blocks@), raw, len as int) == Some((h, s@)),
            None => target(blocks_view(blocks@), raw, len as int) is None,
        },
{
    match decode_meta_pointer(raw) {
        Some((b, off)) => {
            if b >= blocks.len() {
                return None;
            }
            let block = &blocks[b];
            assert(blocks_view(blocks@)[b as int] == block@);
            if off + len <= block.data.len() {
                Some((block.name_hash, slice_subrange(block.data.as_slice(), off, off + len)))
            } else {
                None
            }
        },
        None => None,
    }
}

/// How many of `count` records of `stride` bytes lie in `len` bytes from
/// `off` on.
pub open spec fn records_in(len: int, off: int, stride: int, count: int) -> int {
    if off > len {
        0
    } else {
        crate::resource::least((len - off) / stride, count)
    }
}

/// The records that a Meta array field holds: a packed pointer at `off` in
/// `rec`, its entry count eight bytes later. The list ends early where the
/// target block does.
pub open spec fn records(blocks: Seq<BlockView>, rec: Seq<u8>, off: int, stride: int) -> Seq<Seq<u8>> {
    match pointed(crate::bytes::le64(rec, off)) {
        Some((b, at)) => if b < blocks.len() {
            Seq::new(
                records_in(
                    blocks[b].data.len() as int,
                    at,
                    stride,
                    crate::bytes::le16(rec, off + 8) as int,
                ) as nat,
                |i: int| blocks[b].data.subrange(at + i * stride, at + (i + 1) * stride),
            )
        } else {
            Seq::empty()
        },
        None => Seq::empty(),
    }
}

/// The bytes behind a list of slices.
pub open spec fn slices_view(v: Seq<&[u8]>) -> Seq<Seq<u8>> {
    Seq::new(v.len(), |i: int| v[i]@)
}

/// Reads a Meta array field — a packed pointer at `off` in `rec`, its entry
/// count eight bytes later — as `stride`-byte records, stopping early rather
/// than failing if the target block runs out.
pub fn meta_array_records<'a>(
    blocks: &'a Vec<MetaBlock>,
    rec: &[u8],
    off: usize,
    stride: usize,
) -> (r: Vec<&'a [u8]>)
    requires
        off + 10 <= rec@.len(),
        0 < stride <= 0x1000,
    ensures
        slices_view(r@) == records(blocks_view(blocks@), rec@, off as int, stride as int),
{
    assert(off + 10 <= rec.len());
    let count = u16_le(rec, off + 8) as usize;
    let mut out: Vec<&'a [u8]> = Vec::new();
    let (b, at) = match decode_meta_pointer(u64_le(rec, off)) {
        Some(p) => p,
        None => {
            assert(slices_view(out@) =~= Seq::<Seq<u8>>::empty());
            return out;
        },
    };
    if b >= blocks.len() {
        assert(slices_view(out@) =~= Seq::<Seq<u8>>::empty());
        return out;
    }
    let data = blocks[b].data.as_slice();
    assert(blocks_view(blocks@)[b as int].data == data@);
    let ghost want = records_in(data@.len() as int, at as int, stride as int, count as int);
    let mut i: usize = 0;
    let mut open = true;
    while open && i < count
        invariant
            i <= count <= 0xFFFF,
            at < 0x10_0000,
            0 < stride <= 0x1000,
            i > 0 ==> at + i * stride <= data@.len(),
            out@.len() == i,
            forall|k: int|
                0 <= k < i ==> (#[trigger] out@[k])@ == data@.subrange(
                    at + k * stride,
                    at + (k + 1) * stride,
                ),
            !open ==> at + i * stride + stride > data@.len(),
        decreases (if open { 1int } else { 0int }), count - i,
    {
        assert(0 <= i * stride <= 0xFFFF * 0x1000) by (nonlinear_arith)
            requires
                i <= 0xFFFF,
                stride <= 0x1000,
        ;
        assert((i + 1) * stride == i * stride + stride) by (nonlinear_arith);
        let from: usize = at + i * stride;
        if from + stride <= data.len() {
            out.push(slice_subrange(data, from, from + stride));
            i += 1;
        } else {
            open = false;
        }
    }
    proof {
        lemma_records_in(data@.len() as int, at as int, stride as int, count as int, i as int);
        assert(slices_view(out@) =~= records(
            blocks_view(blocks@),
            rec@,
            off as int,
            stride as int,
        ));
    }
    out
}

proof fn lemma_records_in(len: int, off: int, stride: int, count: int, i: int)
    requires
        0 <= i <= count,
        0 < stride,
        0 <= off,
        0 <= len,
        i > 0 ==> off + i * stride <= len,
        i < count ==> off + i * stride + stride > len,
    ensures
        records_in(len, off, stride, count) == i,
{
    if off > len {
        assert(i * stride >= 0) by (nonlinear_arith)
            requires
                i >= 0,
                stride > 0,
        ;
    } else {
        let q = (len - off) / stride;
        assert(i == 0 ==> i * stride == 0) by (nonlinear_arith);
        assert(i <= q) by (nonlinear_arith)
            requires
                i * stride <= len - off,
                stride > 0,
                q == (len - off) / stride,
        ;
        if i < count {
            assert(q < i + 1) by (nonlinear_arith)
                requires
                    i * stride + stride > len - off,
                    stride > 0,
                    q == (len - off) / stride,
            ;
        }
    }
}

/// The `u32`s of an `Array_uint` field.
pub open spec fn u32_records(blocks: Seq<BlockView>, rec: Seq<u8>, off: int) -> Seq<u32> {
    let r = records(blocks, rec, off, 4);
    Seq::new(r.len(), |i: int| crate::bytes::le32(r[i], 0))
}

/// Reads an `Array_uint` field (packed pointer at `off`, count at `off + 8`).
pub fn read_meta_u32_array(blocks: &Vec<MetaBlock>, rec: &[u8], off: usize) -> (r: Vec<u32>)
    requires
        off + 10 <= rec@.len(),
    ensures
        r@ == u32_records(blocks_view(blocks@), rec@, off as int),
{
    let recs = meta_array_records(blocks, rec, off, 4);
    proof {
        lemma_record_len(blocks_view(blocks@), rec@, off as int, 4);
    }
    let ghost all = records(blocks_view(blocks@), rec@, off as int, 4);
    let mut out: Vec<u32> = Vec::new();
    let mut i: usize = 0;
    while i < recs.len()
        invariant
            i <= recs@.len(),
            slices_view(recs@) == all,
            forall|k: int| 0 <= k < all.len() ==> (#[trigger] all[k]).len() == 4,
            out@ == Seq::new(i as nat, |k: int| crate::bytes::le32(all[k], 0)),
        decreases recs@.len() - i,
    {
        assert(slices_view(recs@)[i as int] == recs@[i as int]@);
        assert(all[i as int].len() == 4);
        out.push(u32_le(recs[i], 0));
        i += 1;
        assert(out@ =~= Seq::new(i as nat, |k: int| crate::bytes::le32(all[k], 0)));
    }
    assert(out@ =~= u32_records(blocks_view(blocks@), rec@, off as int));
    out
}

/// Every record of an array field is as long as the stride.
pub proof fn lemma_record_len(blocks: Seq<BlockView>, rec: Seq<u8>, off: int, stride: int)
    requires
        0 < stride,
    ensures
        forall|k: int|
            0 <= k < records(blocks, rec, off, stride).len() ==> (#[trigger] records(
                blocks,
                rec,
                off,
                stride,
            )[k]).len() == stride,
{
    let all = records(blocks, rec, off, stride);
    assert forall|k: int| 0 <= k < all.len() implies (#[trigger] all[k]).len() == stride by {
        let p = pointed(crate::bytes::le64(rec, off))->0;
        let len = blocks[p.0].data.len() as int;
        let n = records_in(len, p.1, stride, crate::bytes::le16(rec, off + 8) as int);
        assert(k < n);
        let q = (len - p.1) / stride;
        assert(p.1 + (k + 1) * stride <= len && 0 <= k * stride && (k + 1) * stride == k * stride
            + stride) by (nonlinear_arith)
            requires
                0 <= k < n,
                n <= q,
                q == (len - p.1) / stride,
                stride > 0,
                p.1 <= len,
        ;
    }
}

/// The text that a `CharPointer` field points at.
pub open spec fn string_at(blocks: Seq<BlockView>, rec: Seq<u8>, off: int) -> Option<Seq<char>> {
    match target(
        blocks,
        crate::bytes::le64(rec, off),
        crate::bytes::le16(rec, off + 8) as int,
    ) {
        Some((_, s)) => Some(crate::text::nul_text(s)),
        None => None,
    }
}

/// Follows a `CharPointer` field (packed pointer at `off`, byte count at
/// `off + 8`) into the file's string block. The target block's structure-name
/// hash is not checked: it is `STRING` in every file seen, but nothing in the
/// format requires that. `None` when the pointer doesn't resolve.
pub fn read_meta_string(blocks: &Vec<MetaBlock>, rec: &[u8], off: usize) -> (r: Option<String>)
    requires
        off + 10 <= rec@.len(),
    ensures
        crate::resource::text_of(r) == string_at(blocks_view(blocks@), rec@, off as int),
{
    assert(off + 10 <= rec.len());
    match resolve_target(blocks, u64_le(rec, off), u16_le(rec, off + 8) as usize) {
        Some((_, s)) => Some(nul_terminated(s)),
        None => None,
    }
}

/// The index of the first block of that name.
pub open spec fn block_named(blocks: Seq<BlockView>, name: u32, from: int) -> Option<int>
    decreases blocks.len() - from,
{
    if from >= blocks.len() {
        None
    } else if blocks[from].name_hash == name {
        Some(from)
    } else {
        block_named(blocks, name, from + 1)
    }
}

/// The first block of that name.
pub fn find_block(blocks: &Vec<MetaBlock>, name: u32) -> (r: Option<usize>)
    ensures
        block_named(blocks_view(blocks@), name, 0) == (match r {
            Some(i) => Some(i as int),
            None => None,
        }),
        r is Some ==> r->0 < blocks@.len(),
{
    let mut i: usize = 0;
    while i < blocks.len()
        invariant
            i <= blocks@.len(),
            block_named(blocks_view(blocks@), name, 0) == block_named(
                blocks_view(blocks@),
                name,
                i as int,
            ),
        decreases blocks@.len() - i,
    {
        assert(blocks_view(blocks@)[i as int] == blocks@[i as int]@);
        if blocks[i].name_hash == name {
            return Some(i);
        }
        i += 1;
    }
    None
}

/// Why a list of structure pointers could not be found: the field's block is
/// missing or too small, or its pointer leads nowhere.
pub enum PointerList {
    NoRoot,
    RootSmall,
    /// A null pointer: nothing listed.
    Empty,
    NoBlock,
    Bounds,
    /// The bytes of the pointers.
    Pointers(Seq<u8>),
}

/// The structure pointers that the field at `off` of the first block named
/// `root` lists.
pub open spec fn listed(blocks: Seq<BlockView>, root: u32, off: int) -> PointerList {
    match block_named(blocks, root, 0) {
        None => PointerList::NoRoot,
        Some(r) => {
            let data = blocks[r].data;
            if data.len() < off + 16 {
                PointerList::RootSmall
            } else {
                match pointed(crate::bytes::le64(data, off)) {
                    None => PointerList::Empty,
                    Some((b, at)) => if b >= blocks.len() {
                        PointerList::NoBlock
                    } else {
                        match crate::resource::window(
                            blocks[b].data,
                            at,
                            8 * crate::bytes::le16(data, off + 8),
                        ) {
                            Some(s) => PointerList::Pointers(s),
                            None => PointerList::Bounds,
                        }
                    },
                }
            }
        },
    }
}

/// What [`list_pointers`] found.
pub enum Listed<'a> {
    NoRoot,
    RootSmall,
    Empty,
    NoBlock,
    Bounds,
    Pointers(&'a [u8]),
}

/// The model of a [`Listed`].
pub open spec fn listed_view(l: Listed<'_>) -> PointerList {
    match l {
        Listed::NoRoot => PointerList::NoRoot,
        Listed::RootSmall => PointerList::RootSmall,
        Listed::Empty => PointerList::Empty,
        Listed::NoBlock => PointerList::NoBlock,
        Listed::Bounds => PointerList::Bounds,
        Listed::Pointers(s) => PointerList::Pointers(s@),
    }
}

/// Finds the structure pointers that the field at `off` of the first block
/// named `root` lists.
pub fn list_pointers<'a>(blocks: &'a Vec<MetaBlock>, root: u32, off: usize) -> (r: Listed<'a>)
    requires
        off <= 0x1000,
    ensures
        listed_view(r) == listed(blocks_view(blocks@), root, off as int),
        r matches Listed::Pointers(s) ==> s@.len() % 8 == 0 && s@.len() <= 8 * 0xFFFF,
{
    let i: usize = match find_block(blocks, root) {
        Some(i) => i,
        None => {
            return Listed::NoRoot;
        },
    };
    let data = blocks[i].data.as_slice();
    assert(blocks_view(blocks@)[i as int].data == data@);
    if data.len() < off + 16 {
        return Listed::RootSmall;
    }
    let count = u16_le(data, off + 8) as usize;
    let (b, at) = match decode_meta_pointer(u64_le(data, off)) {
        Some(p) => p,
        None => {
            return Listed::Empty;
        },
    };
    if b >= blocks.len() {
        return Listed::NoBlock;
    }
    let list = blocks[b].data.as_slice();
    assert(blocks_view(blocks@)[b as int].data == list@);
    if at + count * 8 <= list.len() {
        Listed::Pointers(slice_subrange(list, at, at + count * 8))
    } else {
        Listed::Bounds
    }
}

} // verus!
