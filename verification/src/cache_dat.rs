//! Reads the game's world cache files, `gta5_cache_y.dat` and each DLC
//! pack's `cacheloaderdata_dlc/<pack>_<hash>_cache_y.dat`: what the game
//! knows about every map file, interior and collision file without opening
//! them.
//!
//! Layout: a `[VERSION]\n<n>\n` header NUL-padded to 100 bytes, then text
//! lines. `<fileDates>` .. `</fileDates>` holds one `<hash> <timestamp>
//! [<id>]` line per archive. A line reading `fwMapDataStore`,
//! `CInteriorProxy` or `BoundsStore` is followed by a little-endian u32 byte
//! length and that many bytes of fixed-size records (64, 104 and 32 bytes).
//! The first NUL after the header ends the file.
//!
//! Layout from CodeWalker.Core's GameFiles/FileTypes/CacheDatFile.cs.

use vstd::prelude::*;
use vstd::slice::*;
use vstd::string::*;

use crate::chars::{parse_signed, parse_unsigned, split_at_char};
use crate::math::{Vec3, Vec4};
use crate::resource::{u32_le, u64_le, vec3_le, vec4_le};
use crate::text::{chars_of, from_utf8, string_of};

verus! {

broadcast use {
    vstd::slice::group_slice_axioms,
    vstd::array::group_array_axioms,
    crate::bytes::group_subrange_reads,
};

/// One map file (`.ymap`) as the cache records it: the name hash it is
/// streamed by, its parent map, and its extents.
#[derive(Debug, Clone, Copy, PartialEq, Eq)]
pub struct MapDataNode {
    pub name: u32,
    pub parent: u32,
    pub content_flags: u32,
    pub streaming_min: Vec3,
    pub streaming_max: Vec3,
    pub entities_min: Vec3,
    pub entities_max: Vec3,
    /// Four flag bytes CodeWalker leaves unnamed (HD/LOD/SLOD guesses).
    pub flags: [u8; 4],
}

/// One placed interior: the MLO archetype's name hash, the map file that
/// places it, and where.
#[derive(Debug, Clone, Copy, PartialEq, Eq)]
pub struct InteriorProxy {
    /// Three leading words CodeWalker leaves unnamed.
    pub unknown: [u32; 3],
    /// The interior's archetype name hash.
    pub name: u32,
    /// Name hash of the `.ymap` whose `CMloInstanceDef` places it.
    pub parent: u32,
    pub position: Vec3,
    /// Rotation as a quaternion, `x, y, z, w`.
    pub orientation: Vec4,
    pub bb_min: Vec3,
    pub bb_max: Vec3,
    /// Four trailing words CodeWalker leaves unnamed.
    pub trailing: [u64; 4],
}

/// One collision file (`.ybn`) and its bounds.
#[derive(Debug, Clone, Copy, PartialEq, Eq, Structural)]
pub struct BoundsStoreItem {
    pub name: u32,
    pub min: Vec3,
    pub max: Vec3,
    pub layer: u32,
}

/// One `<fileDates>` line: an archive's name hash and its timestamp.
#[derive(Debug, Clone, Copy, PartialEq, Eq, Structural)]
pub struct CacheFileDate {
    pub file_name: u32,
    /// A Windows `FILETIME` (100 ns ticks since 1601).
    pub timestamp: i64,
    pub file_id: u32,
}

/// What a cache file says.
#[derive(Debug, PartialEq, Eq)]
pub struct CacheDat {
    pub version: String,
    pub file_dates: Vec<CacheFileDate>,
    pub map_nodes: Vec<MapDataNode>,
    pub interior_proxies: Vec<InteriorProxy>,
    pub bounds: Vec<BoundsStoreItem>,
}

/// The model of a [`MapDataNode`].
#[verifier::ext_equal]
pub struct MapNodeView {
    pub name: u32,
    pub parent: u32,
    pub content_flags: u32,
    pub streaming_min: Vec3,
    pub streaming_max: Vec3,
    pub entities_min: Vec3,
    pub entities_max: Vec3,
    pub flags: Seq<u8>,
}

/// The model of an [`InteriorProxy`].
#[verifier::ext_equal]
pub struct ProxyView {
    pub unknown: Seq<u32>,
    pub name: u32,
    pub parent: u32,
    pub position: Vec3,
    pub orientation: Vec4,
    pub bb_min: Vec3,
    pub bb_max: Vec3,
    pub trailing: Seq<u64>,
}

/// The model of a [`CacheDat`].
#[verifier::ext_equal]
pub struct CacheView {
    pub version: Seq<char>,
    pub file_dates: Seq<CacheFileDate>,
    pub map_nodes: Seq<MapNodeView>,
    pub interior_proxies: Seq<ProxyView>,
    pub bounds: Seq<BoundsStoreItem>,
}

impl View for MapDataNode {
    type V = MapNodeView;

    open spec fn view(&self) -> MapNodeView {
        MapNodeView {
            name: self.name,
            parent: self.parent,
            content_flags: self.content_flags,
            streaming_min: self.streaming_min,
            streaming_max: self.streaming_max,
            entities_min: self.entities_min,
            entities_max: self.entities_max,
            flags: self.flags@,
        }
    }
}

impl View for InteriorProxy {
    type V = ProxyView;

    open spec fn view(&self) -> ProxyView {
        ProxyView {
            unknown: self.unknown@,
            name: self.name,
            parent: self.parent,
            position: self.position,
            orientation: self.orientation,
            bb_min: self.bb_min,
            bb_max: self.bb_max,
            trailing: self.trailing@,
        }
    }
}

/// The map files of a cache.
pub open spec fn nodes_view(s: Seq<MapDataNode>) -> Seq<MapNodeView> {
    Seq::new(s.len(), |i: int| s[i]@)
}

/// The interiors of a cache.
pub open spec fn proxies_view(s: Seq<InteriorProxy>) -> Seq<ProxyView> {
    Seq::new(s.len(), |i: int| s[i]@)
}

impl View for CacheDat {
    type V = CacheView;

    open spec fn view(&self) -> CacheView {
        CacheView {
            version: self.version@,
            file_dates: self.file_dates@,
            map_nodes: nodes_view(self.map_nodes@),
            interior_proxies: proxies_view(self.interior_proxies@),
            bounds: self.bounds@,
        }
    }
}

impl Default for CacheDat {
    fn default() -> (r: Self)
        ensures
            r@ == empty_cache(Seq::empty()),
    {
        let version = String::new();
        let r = CacheDat {
            version,
            file_dates: Vec::new(),
            map_nodes: Vec::new(),
            interior_proxies: Vec::new(),
            bounds: Vec::new(),
        };
        assert(r@ =~= empty_cache(Seq::empty())) by {
            assert(r.version@ =~= Seq::<char>::empty());
        }
        r
    }
}

/// A cache that says nothing but its version.
pub open spec fn empty_cache(version: Seq<char>) -> CacheView {
    CacheView {
        version,
        file_dates: Seq::empty(),
        map_nodes: Seq::empty(),
        interior_proxies: Seq::empty(),
        bounds: Seq::empty(),
    }
}

pub const HEADER_LEN: usize = 100;
pub const MAP_NODE_LEN: usize = 64;
pub const INTERIOR_PROXY_LEN: usize = 104;
pub const BOUNDS_ITEM_LEN: usize = 32;

/// One of the blocks of records.
#[derive(Debug, Clone, Copy, PartialEq, Eq, Structural)]
pub enum CacheBlock {
    MapNodes,
    InteriorProxies,
    Bounds,
}

/// Why a cache file could not be read.
#[derive(Debug, Clone, Copy, PartialEq, Eq, Structural)]
pub enum CacheError {
    NoHeader,
    NoLength,
    PastEnd(CacheBlock),
}

impl CacheBlock {
    /// The name of the block.
    pub open spec fn text(&self) -> Seq<char> {
        match self {
            CacheBlock::MapNodes => "fwMapDataStore"@,
            CacheBlock::InteriorProxies => "CInteriorProxy"@,
            CacheBlock::Bounds => "BoundsStore"@,
        }
    }

    /// The name of the block.
    pub fn name(&self) -> (r: &'static str)
        ensures
            r@ == self.text(),
    {
        match self {
            CacheBlock::MapNodes => "fwMapDataStore",
            CacheBlock::InteriorProxies => "CInteriorProxy",
            CacheBlock::Bounds => "BoundsStore",
        }
    }

    /// How many bytes a record takes.
    pub open spec fn size(&self) -> int {
        match self {
            CacheBlock::MapNodes => 64,
            CacheBlock::InteriorProxies => 104,
            CacheBlock::Bounds => 32,
        }
    }
}

impl CacheError {
    /// The error in words.
    pub fn message(&self) -> (r: String)
        ensures
            r@ == self.text(),
    {
        let mut out = String::new();
        match self {
            CacheError::NoHeader => {
                out.append("cache_y.dat: missing [VERSION] header");
            },
            CacheError::NoLength => {
                out.append("cache_y.dat: truncated block length");
            },
            CacheError::PastEnd(b) => {
                out.append("cache_y.dat: ");
                out.append(b.name());
                out.append(" block runs past the end of the file");
            },
        }
        assert(out@ =~= self.text());
        out
    }

    /// The error in words.
    pub open spec fn text(&self) -> Seq<char> {
        match self {
            CacheError::NoHeader => "cache_y.dat: missing [VERSION] header"@,
            CacheError::NoLength => "cache_y.dat: truncated block length"@,
            CacheError::PastEnd(b) => "cache_y.dat: "@ + b.text()
                + " block runs past the end of the file"@,
        }
    }
}

// ─── what a file says ────────────────────────────────────────────────────────

/// A map file's record.
pub open spec fn node_of(b: Seq<u8>) -> MapNodeView {
    MapNodeView {
        name: crate::bytes::le32(b, 0),
        parent: crate::bytes::le32(b, 4),
        content_flags: crate::bytes::le32(b, 8),
        streaming_min: crate::resource::vec3_at(b, 12),
        streaming_max: crate::resource::vec3_at(b, 24),
        entities_min: crate::resource::vec3_at(b, 36),
        entities_max: crate::resource::vec3_at(b, 48),
        flags: seq![b[60], b[61], b[62], b[63]],
    }
}

/// An interior's record.
pub open spec fn proxy_of(b: Seq<u8>) -> ProxyView {
    ProxyView {
        unknown: seq![crate::bytes::le32(b, 0), crate::bytes::le32(b, 4), crate::bytes::le32(b, 8)],
        name: crate::bytes::le32(b, 12),
        parent: crate::bytes::le32(b, 16),
        position: crate::resource::vec3_at(b, 20),
        orientation: crate::resource::vec4_at(b, 32),
        bb_min: crate::resource::vec3_at(b, 48),
        bb_max: crate::resource::vec3_at(b, 60),
        trailing: seq![crate::bytes::le64(b, 72), crate::bytes::le64(b, 80), crate::bytes::le64(b, 88), crate::bytes::le64(b, 96)],
    }
}

/// A collision file's record.
pub open spec fn bounds_of(b: Seq<u8>) -> BoundsStoreItem {
    BoundsStoreItem { name: crate::bytes::le32(b, 0), min: crate::resource::vec3_at(b, 4), max: crate::resource::vec3_at(b, 16), layer: crate::bytes::le32(b, 28) }
}

/// The date that a line gives, if it starts with a number. The timestamp and
/// the id are 0 where they are no numbers.
pub open spec fn date_of(line: Seq<u8>) -> Option<CacheFileDate> {
    if !vstd::utf8::valid_utf8(line) {
        None
    } else {
        let parts = crate::chars::pieces(vstd::utf8::decode_utf8(line), ' ');
        match crate::chars::unsigned(parts[0], false, 0xFFFF_FFFF) {
            None => None,
            Some(name) => Some(
                CacheFileDate {
                    file_name: name as u32,
                    timestamp: if parts.len() > 1 && crate::chars::signed(parts[1], false) is Some {
                        crate::chars::signed(parts[1], false)->0 as i64
                    } else {
                        0
                    },
                    file_id: if parts.len() > 2 && crate::chars::unsigned(parts[2], false, 0xFFFF_FFFF) is Some {
                        crate::chars::unsigned(parts[2], false, 0xFFFF_FFFF)->0 as u32
                    } else {
                        0
                    },
                },
            ),
        }
    }
}

/// The cache with one more date, if the line gives one.
pub open spec fn with_date(c: CacheView, line: Seq<u8>) -> CacheView {
    match date_of(line) {
        Some(d) => CacheView { file_dates: c.file_dates.push(d), ..c },
        None => c,
    }
}

/// Record `k` of a block.
pub open spec fn record_at(body: Seq<u8>, size: int, k: int) -> Seq<u8> {
    body.subrange(k * size, (k + 1) * size)
}

/// The cache with the first `k` records of a block.
pub open spec fn with_records(c: CacheView, block: CacheBlock, body: Seq<u8>, k: nat) -> CacheView
    decreases k,
{
    if k == 0 {
        c
    } else {
        let before = with_records(c, block, body, (k - 1) as nat);
        let rec = record_at(body, block.size(), k - 1);
        match block {
            CacheBlock::MapNodes => CacheView {
                map_nodes: before.map_nodes.push(node_of(rec)),
                ..before
            },
            CacheBlock::InteriorProxies => CacheView {
                interior_proxies: before.interior_proxies.push(proxy_of(rec)),
                ..before
            },
            CacheBlock::Bounds => CacheView { bounds: before.bounds.push(bounds_of(rec)), ..before },
        }
    }
}

/// The end of the line at `i`: its newline, the NUL that ends the file, or
/// the end of the data.
pub open spec fn line_end(d: Seq<u8>, i: int) -> int
    decreases d.len() - i,
{
    if i >= d.len() || d[i] == 0 || d[i] == 10 {
        i
    } else {
        line_end(d, i + 1)
    }
}

/// A line without the carriage return at its end.
pub open spec fn without_return(line: Seq<u8>) -> Seq<u8> {
    if line.len() > 0 && line.last() == 13 {
        line.drop_last()
    } else {
        line
    }
}

/// The block that a line announces.
pub open spec fn block_named(line: Seq<u8>) -> Option<CacheBlock> {
    if line == vstd::utf8::encode_utf8("fwMapDataStore"@) {
        Some(CacheBlock::MapNodes)
    } else if line == vstd::utf8::encode_utf8("CInteriorProxy"@) {
        Some(CacheBlock::InteriorProxies)
    } else if line == vstd::utf8::encode_utf8("BoundsStore"@) {
        Some(CacheBlock::Bounds)
    } else {
        None
    }
}

/// What one line does.
#[verifier::ext_equal]
pub enum LineStep {
    /// The file ends here.
    End,
    /// The next line starts at `start`, inside the dates or not.
    Next { start: int, dates: bool, cache: CacheView },
    Fail(CacheError),
}

/// What a block does whose length stands at `at`.
pub open spec fn block_step(d: Seq<u8>, at: int, dates: bool, c: CacheView, block: CacheBlock) -> LineStep {
    if at + 4 > d.len() {
        LineStep::Fail(CacheError::NoLength)
    } else if at + 4 + crate::bytes::le32(d, at) > d.len() {
        LineStep::Fail(CacheError::PastEnd(block))
    } else {
        let body = d.subrange(at + 4, at + 4 + crate::bytes::le32(d, at));
        LineStep::Next {
            start: at + 4 + crate::bytes::le32(d, at),
            dates,
            cache: with_records(c, block, body, (body.len() as int / block.size()) as nat),
        }
    }
}

/// What the line at `start` does.
#[verifier::opaque]
pub open spec fn line_step(d: Seq<u8>, start: int, dates: bool, c: CacheView) -> LineStep {
    let end = line_end(d, start);
    if end >= d.len() || d[end] == 0 {
        LineStep::End
    } else {
        let line = without_return(d.subrange(start, end));
        if line == vstd::utf8::encode_utf8("<fileDates>"@) {
            LineStep::Next { start: end + 1, dates: true, cache: c }
        } else if line == vstd::utf8::encode_utf8("</fileDates>"@) {
            LineStep::Next { start: end + 1, dates: false, cache: c }
        } else {
            match block_named(line) {
                None => LineStep::Next {
                    start: end + 1,
                    dates,
                    cache: if dates {
                        with_date(c, line)
                    } else {
                        c
                    },
                },
                Some(block) => block_step(d, end + 1, dates, c, block),
            }
        }
    }
}

/// What the lines from `start` on add.
pub open spec fn lines_from(d: Seq<u8>, start: int, dates: bool, c: CacheView) -> Result<
    CacheView,
    CacheError,
>
    decreases d.len() - start,
{
    if !(0 <= start < d.len()) {
        Ok(c)
    } else {
        match line_step(d, start, dates, c) {
            LineStep::End => Ok(c),
            LineStep::Fail(e) => Err(e),
            LineStep::Next { start: next, dates: inside, cache } => {
                if start < next <= d.len() {
                    lines_from(d, next, inside, cache)
                } else {
                    Ok(c)
                }
            },
        }
    }
}

/// A text without every `[VERSION]` in it.
pub open spec fn without_tag(s: Seq<char>, i: int) -> Seq<char>
    decreases s.len() - i,
{
    if i >= s.len() || i < 0 {
        Seq::empty()
    } else if i + 9 <= s.len() && s.subrange(i, i + 9) == "[VERSION]"@ {
        without_tag(s, i + 9)
    } else {
        seq![s[i]] + without_tag(s, i + 1)
    }
}

/// A text without line ends.
pub open spec fn on_one_line(s: Seq<char>) -> Seq<char> {
    s.filter(|c: char| c != '\r' && c != '\n')
}

/// The header: the first hundred bytes, up to the first NUL.
pub open spec fn header_of(d: Seq<u8>) -> Seq<u8> {
    let h = d.take(crate::resource::least(d.len() as int, HEADER_LEN as int));
    h.take(crate::text::nul_end(h, 0))
}

/// The cache that a file holds.
pub open spec fn parsed(d: Seq<u8>) -> Result<CacheView, CacheError> {
    let tag = vstd::utf8::encode_utf8("[VERSION]"@);
    if d.len() < tag.len() || d.take(tag.len() as int) != tag {
        Err(CacheError::NoHeader)
    } else {
        let version = on_one_line(without_tag(crate::text::lossy_text(header_of(d)), 0));
        lines_from(d, HEADER_LEN as int, false, empty_cache(version))
    }
}

// ─── reading ─────────────────────────────────────────────────────────────────

fn same_bytes(a: &[u8], b: &[u8]) -> (r: bool)
    ensures
        r == (a@ == b@),
{
    if a.len() != b.len() {
        return false;
    }
    let mut i: usize = 0;
    while i < a.len()
        invariant
            i <= a@.len() == b@.len(),
            forall|k: int| 0 <= k < i ==> a@[k] == b@[k],
        decreases a@.len() - i,
    {
        if a[i] != b[i] {
            return false;
        }
        i += 1;
    }
    assert(a@ =~= b@);
    true
}

fn map_node(b: &[u8]) -> (r: MapDataNode)
    requires
        b@.len() == 64,
    ensures
        r@ == node_of(b@),
{
    let r = MapDataNode {
        name: u32_le(b, 0),
        parent: u32_le(b, 4),
        content_flags: u32_le(b, 8),
        streaming_min: vec3_le(b, 12),
        streaming_max: vec3_le(b, 24),
        entities_min: vec3_le(b, 36),
        entities_max: vec3_le(b, 48),
        flags: [b[60], b[61], b[62], b[63]],
    };
    assert(r@.flags =~= node_of(b@).flags);
    r
}

fn interior_proxy(b: &[u8]) -> (r: InteriorProxy)
    requires
        b@.len() == 104,
    ensures
        r@ == proxy_of(b@),
{
    let r = InteriorProxy {
        unknown: [u32_le(b, 0), u32_le(b, 4), u32_le(b, 8)],
        name: u32_le(b, 12),
        parent: u32_le(b, 16),
        position: vec3_le(b, 20),
        orientation: vec4_le(b, 32),
        bb_min: vec3_le(b, 48),
        bb_max: vec3_le(b, 60),
        trailing: [u64_le(b, 72), u64_le(b, 80), u64_le(b, 88), u64_le(b, 96)],
    };
    assert(r@.unknown =~= proxy_of(b@).unknown);
    assert(r@.trailing =~= proxy_of(b@).trailing);
    r
}

fn bounds_item(b: &[u8]) -> (r: BoundsStoreItem)
    requires
        b@.len() == 32,
    ensures
        r == bounds_of(b@),
{
    BoundsStoreItem {
        name: u32_le(b, 0),
        min: vec3_le(b, 4),
        max: vec3_le(b, 16),
        layer: u32_le(b, 28),
    }
}

fn parse_date(line: &[u8]) -> (r: Option<CacheFileDate>)
    ensures
        r == date_of(line@),
{
    let text = match from_utf8(line) {
        Some(t) => t,
        None => {
            return None;
        },
    };
    let cs = chars_of(text.as_str());
    let parts = split_at_char(cs.as_slice(), ' ');
    let ghost all = crate::chars::pieces(cs@, ' ');
    assert(crate::chars::runs(parts@) == all);
    proof {
        assert(all.len() >= 1);
        assert(parts@.len() == all.len());
        assert(all[0] == parts@[0]@);
    }
    let name = match parse_unsigned(parts[0].as_slice(), false, 0xFFFF_FFFF) {
        Some(n) => n,
        None => {
            return None;
        },
    };
    let mut timestamp: i64 = 0;
    if parts.len() > 1 {
        assert(all[1] == parts@[1]@);
        if let Some(n) = parse_signed(parts[1].as_slice(), false) {
            timestamp = n;
        }
    }
    let mut file_id: u32 = 0;
    if parts.len() > 2 {
        assert(all[2] == parts@[2]@);
        if let Some(n) = parse_unsigned(parts[2].as_slice(), false, 0xFFFF_FFFF) {
            file_id = n as u32;
        }
    }
    Some(CacheFileDate { file_name: name as u32, timestamp, file_id })
}

fn add_records(c: &mut CacheDat, block: CacheBlock, body: &[u8])
    ensures
        final(c)@ == with_records(
            old(c)@,
            block,
            body@,
            (body@.len() as int / block.size()) as nat,
        ),
{
    let ghost before = c@;
    let size: usize = match block {
        CacheBlock::MapNodes => MAP_NODE_LEN,
        CacheBlock::InteriorProxies => INTERIOR_PROXY_LEN,
        CacheBlock::Bounds => BOUNDS_ITEM_LEN,
    };
    let n = body.len() / size;
    assert(n * size <= body@.len()) by (nonlinear_arith)
        requires
            n == body@.len() / (size as nat),
            size > 0,
    ;
    let mut k: usize = 0;
    let mut at: usize = 0;
    while k < n
        invariant
            k <= n,
            at == k * size,
            n * size <= body@.len(),
            size == block.size(),
            size > 0,
            c@ == with_records(before, block, body@, k as nat),
        decreases n - k,
    {
        assert((k + 1) * size == k * size + size && (k + 1) * size <= n * size) by (nonlinear_arith)
            requires
                k < n,
                size > 0,
        ;
        assert(at + size <= body.len());
        let rec = slice_subrange(body, at, at + size);
        assert(rec@ == record_at(body@, block.size(), k as int));
        let ghost had = c@;
        match block {
            CacheBlock::MapNodes => {
                let x = map_node(rec);
                c.map_nodes.push(x);
                assert(nodes_view(c.map_nodes@) =~= had.map_nodes.push(x@));
            },
            CacheBlock::InteriorProxies => {
                let x = interior_proxy(rec);
                c.interior_proxies.push(x);
                assert(proxies_view(c.interior_proxies@) =~= had.interior_proxies.push(x@));
            },
            CacheBlock::Bounds => {
                c.bounds.push(bounds_item(rec));
            },
        }
        at = at + size;
        k += 1;
    }
}

fn find_line_end(d: &[u8], start: usize) -> (end: usize)
    requires
        start <= d@.len(),
    ensures
        end == line_end(d@, start as int),
        start <= end <= d@.len(),
{
    let mut i = start;
    while i < d.len() && d[i] != 0 && d[i] != 10
        invariant
            start <= i <= d@.len(),
            line_end(d@, start as int) == line_end(d@, i as int),
        decreases d@.len() - i,
    {
        i += 1;
    }
    i
}

fn find_block(line: &[u8]) -> (r: Option<CacheBlock>)
    ensures
        r == block_named(line@),
{
    if same_bytes(line, "fwMapDataStore".as_bytes()) {
        Some(CacheBlock::MapNodes)
    } else if same_bytes(line, "CInteriorProxy".as_bytes()) {
        Some(CacheBlock::InteriorProxies)
    } else if same_bytes(line, "BoundsStore".as_bytes()) {
        Some(CacheBlock::Bounds)
    } else {
        None
    }
}

spec fn viewed(r: Result<CacheDat, CacheError>) -> Result<CacheView, CacheError> {
    match r {
        Ok(c) => Ok(c@),
        Err(e) => Err(e),
    }
}

fn read_block(d: &[u8], at: usize, c: &mut CacheDat, block: CacheBlock) -> (r: Result<usize, CacheError>)
    requires
        at <= d@.len(),
    ensures
        forall|dates: bool| #[trigger]
            block_step(d@, at as int, dates, old(c)@, block) == (match r {
                Err(e) => LineStep::Fail(e),
                Ok(next) => LineStep::Next { start: next as int, dates, cache: final(c)@ },
            }),
        r matches Ok(next) ==> at < next <= d@.len(),
{
    if d.len() - at < 4 {
        return Err(CacheError::NoLength);
    }
    let len = u32_le(d, at);
    if ((d.len() - at - 4) as u64) < len as u64 {
        return Err(CacheError::PastEnd(block));
    }
    let body = slice_subrange(d, at + 4, at + 4 + len as usize);
    add_records(c, block, body);
    Ok(at + 4 + len as usize)
}

/// Reads one line: where the next one starts, and whether it is inside the
/// dates.
fn read_line(d: &[u8], start: usize, dates: bool, c: &mut CacheDat) -> (r: Result<
    Option<(usize, bool)>,
    CacheError,
>)
    requires
        start <= d@.len(),
    ensures
        line_step(d@, start as int, dates, old(c)@) == (match r {
            Err(e) => LineStep::Fail(e),
            Ok(None) => LineStep::End,
            Ok(Some((next, inside))) => LineStep::Next {
                start: next as int,
                dates: inside,
                cache: final(c)@,
            },
        }),
        r matches Ok(Some((next, inside))) ==> start < next <= d@.len(),
        r matches Ok(None) ==> final(c)@ == old(c)@,
{
    proof {
        reveal(line_step);
    }
    let end = find_line_end(d, start);
    if end >= d.len() || d[end] == 0 {
        return Ok(None);
    }
    let whole = slice_subrange(d, start, end);
    let line: &[u8] = if whole.len() > 0 && whole[whole.len() - 1] == 13 {
        slice_subrange(whole, 0, whole.len() - 1)
    } else {
        whole
    };
    assert(line@ =~= without_return(d@.subrange(start as int, end as int)));
    if same_bytes(line, "<fileDates>".as_bytes()) {
        return Ok(Some((end + 1, true)));
    }
    if same_bytes(line, "</fileDates>".as_bytes()) {
        return Ok(Some((end + 1, false)));
    }
    match find_block(line) {
        None => {
            if dates {
                if let Some(x) = parse_date(line) {
                    c.file_dates.push(x);
                }
            }
            Ok(Some((end + 1, dates)))
        },
        Some(block) => {
            match read_block(d, end + 1, c, block) {
                Err(e) => Err(e),
                Ok(next) => Ok(Some((next, dates))),
            }
        },
    }
}

fn read_lines(d: &[u8], version: String) -> (r: Result<CacheDat, CacheError>)
    ensures
        viewed(r) == lines_from(d@, HEADER_LEN as int, false, empty_cache(version@)),
{
    let ghost v = version@;
    let mut c = CacheDat::default();
    c.version = version;
    assert(c@ =~= empty_cache(v));
    let mut start: usize = HEADER_LEN;
    let mut dates = false;
    while start < d.len()
        invariant
            v == version@,
            lines_from(d@, HEADER_LEN as int, false, empty_cache(v)) == lines_from(
                d@,
                start as int,
                dates,
                c@,
            ),
        decreases d@.len() - start,
    {
        match read_line(d, start, dates, &mut c) {
            Err(e) => {
                return Err(e);
            },
            Ok(None) => {
                return Ok(c);
            },
            Ok(Some((next, inside))) => {
                start = next;
                dates = inside;
            },
        }
    }
    Ok(c)
}

fn drop_tag(s: &Vec<char>) -> (out: Vec<char>)
    ensures
        out@ == without_tag(s@, 0),
{
    let tag = chars_of("[VERSION]");
    proof {
        reveal_strlit("[VERSION]");
    }
    assert(tag@.len() == 9);
    let mut out: Vec<char> = Vec::new();
    let mut i: usize = 0;
    while i < s.len()
        invariant
            i <= s@.len(),
            tag@ == "[VERSION]"@,
            tag@.len() == 9,
            without_tag(s@, 0) == out@ + without_tag(s@, i as int),
        decreases s@.len() - i,
    {
        let ghost had = out@;
        if s.len() - i >= 9 && crate::chars::same_chars(
            slice_subrange(s.as_slice(), i, i + 9),
            tag.as_slice(),
        ) {
            i = i + 9;
        } else {
            out.push(s[i]);
            assert(out@ + without_tag(s@, i + 1) =~= had + without_tag(s@, i as int));
            i = i + 1;
        }
    }
    assert(out@ + Seq::<char>::empty() =~= out@);
    out
}

fn drop_line_ends(s: &Vec<char>) -> (out: Vec<char>)
    ensures
        out@ == on_one_line(s@),
{
    let ghost keep = |c: char| c != '\r' && c != '\n';
    let mut out: Vec<char> = Vec::new();
    let mut i: usize = 0;
    proof {
        reveal(Seq::filter);
        assert(s@.take(0) =~= Seq::<char>::empty());
    }
    while i < s.len()
        invariant
            i <= s@.len(),
            keep == (|c: char| c != '\r' && c != '\n'),
            out@ == s@.take(i as int).filter(keep),
        decreases s@.len() - i,
    {
        let c = s[i];
        proof {
            reveal(Seq::filter);
            assert(s@.take(i + 1).drop_last() =~= s@.take(i as int));
            assert(s@.take(i + 1).last() == c);
        }
        if c != '\r' && c != '\n' {
            out.push(c);
        }
        i += 1;
    }
    assert(s@.take(s@.len() as int) =~= s@);
    out
}

/// Parses a `*cache_y.dat` file.
pub fn parse_cache_dat(data: &[u8]) -> (r: Result<CacheDat, CacheError>)
    ensures
        (match r {
            Ok(c) => Ok::<CacheView, CacheError>(c@),
            Err(e) => Err(e),
        }) == parsed(data@),
{
    let tag = "[VERSION]".as_bytes();
    if data.len() < tag.len() {
        return Err(CacheError::NoHeader);
    }
    let front = slice_subrange(data, 0, tag.len());
    assert(front@ =~= data@.take(tag@.len() as int));
    if !same_bytes(front, tag) {
        return Err(CacheError::NoHeader);
    }
    let n: usize = if data.len() < HEADER_LEN {
        data.len()
    } else {
        HEADER_LEN
    };
    let head = slice_subrange(data, 0, n);
    assert(head@ =~= data@.take(n as int));
    let text = crate::text::nul_terminated(head);
    let cs = chars_of(text.as_str());
    let bare = drop_tag(&cs);
    let line = drop_line_ends(&bare);
    read_lines(data, string_of(line.as_slice()))
}

} // verus!
