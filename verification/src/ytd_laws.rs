//! What the reader and the writer of texture dictionaries promise together.

use vstd::prelude::*;

use crate::resource::{ResourceError, Section, GRAPHICS_BASE, SYSTEM_BASE};
use crate::ytd::{TextureView, YtdReadError};
use crate::ytd_write::{YtdWriteError, MAX_PAGES, MAX_ROUNDS};

verus! {

broadcast use crate::bytes::group_subrange_reads;

/// An address in the system section points back to its offset, as long as
/// the offset stays clear of the bits that tell the sections apart.
pub proof fn law_system_addresses(offset: int)
    requires
        0 <= offset < 0x1000_0000,
    ensures
        crate::ytd_write::address(offset) != 0,
        crate::resource::located(crate::ytd_write::address(offset)) == Some(
            (Section::System, offset),
        ),
{
    let va = (0x5000_0000 + offset) as u64;
    assert(va & 0x6000_0000 != 0x6000_0000 && va & 0x5000_0000 == 0x5000_0000) by (bit_vector)
        requires
            0x5000_0000 <= va < 0x6000_0000,
    ;
}

/// An address in the graphics section points back to its offset, as long as
/// the offset stays clear of the bits that tell the sections apart.
pub proof fn law_graphics_addresses(offset: int)
    requires
        0 <= offset < 0x2000_0000,
    ensures
        crate::resource::located((GRAPHICS_BASE + offset) as u64) == Some(
            (Section::Graphics, offset),
        ),
{
    let va = (0x6000_0000 + offset) as u64;
    assert(va & 0x6000_0000 == 0x6000_0000) by (bit_vector)
        requires
            0x6000_0000 <= va < 0x8000_0000,
    ;
}

// ─── sorting ─────────────────────────────────────────────────────────────────

/// The textures with their hashes.
pub open spec fn all_hashed(ts: Seq<TextureView>) -> Seq<TextureView> {
    Seq::new(ts.len(), |i: int| crate::ytd_write::hashed(ts[i]))
}

proof fn lemma_slot_splits(es: Seq<TextureView>, hash: u32, j: nat)
    requires
        j <= es.len(),
        forall|a: int, b: int| 0 <= a <= b < j ==> es[a].name_hash <= es[b].name_hash,
    ensures
        crate::ytd_write::slot(es, hash, j) <= j,
        forall|a: int|
            0 <= a < crate::ytd_write::slot(es, hash, j) ==> (#[trigger] es[a]).name_hash <= hash,
        forall|a: int|
            crate::ytd_write::slot(es, hash, j) <= a < j ==> (#[trigger] es[a]).name_hash > hash,
    decreases j,
{
    if j > 0 && es[j - 1].name_hash > hash {
        lemma_slot_splits(es, hash, (j - 1) as nat);
    }
}

/// A dictionary is written in the order of its hashes, and holds exactly the
/// textures that it is made of.
pub proof fn law_sorted_by_hash(ts: Seq<TextureView>, k: nat)
    requires
        k <= ts.len(),
    ensures
        crate::ytd_write::sorted(ts, k).len() == k,
        forall|a: int, b: int|
            0 <= a <= b < k ==> (#[trigger] crate::ytd_write::sorted(ts, k)[a]).name_hash <= (
            #[trigger] crate::ytd_write::sorted(ts, k)[b]).name_hash,
        crate::ytd_write::sorted(ts, k).to_multiset() =~= all_hashed(
            ts.take(k as int),
        ).to_multiset(),
    decreases k,
{
    if k == 0 {
        assert(all_hashed(ts.take(0)) =~= Seq::<TextureView>::empty());
    } else {
        law_sorted_by_hash(ts, (k - 1) as nat);
        let before = crate::ytd_write::sorted(ts, (k - 1) as nat);
        let e = crate::ytd_write::hashed(ts[k - 1]);
        let at = crate::ytd_write::slot(before, e.name_hash, before.len());
        lemma_slot_splits(before, e.name_hash, before.len());
        let after = crate::ytd_write::sorted(ts, k);
        assert(after == before.insert(at as int, e));
        assert forall|a: int, b: int| 0 <= a <= b < k implies (#[trigger] after[a]).name_hash <= (
        #[trigger] after[b]).name_hash by {
            let x = if a < at {
                a
            } else {
                a - 1
            };
            let y = if b < at {
                b
            } else {
                b - 1
            };
            if a != at {
                assert(after[a] == before[x]);
            }
            if b != at {
                assert(after[b] == before[y]);
            }
            if a != at && b != at {
                assert(before[x].name_hash <= before[y].name_hash);
            }
        }
        vstd::seq_lib::to_multiset_insert(before, at as int, e);
        let list = all_hashed(ts.take(k - 1));
        vstd::seq_lib::to_multiset_insert(list, list.len() as int, e);
        assert(list.insert(list.len() as int, e) =~= all_hashed(ts.take(k as int)));
    }
}

// ─── reading what was written ────────────────────────────────────────────────

/// A texture as a dictionary keeps it: at least one deep, and with the
/// pixels of its first slice.
pub open spec fn kept(t: TextureView) -> TextureView {
    TextureView {
        depth: crate::ytd_write::deep(t.depth),
        pixel_data: t.pixel_data.take(
            crate::ytd::game_chain(t.stride, t.height, t.levels as nat) as int,
        ),
        ..t
    }
}

/// The textures as a dictionary keeps them.
pub open spec fn all_kept(es: Seq<TextureView>) -> Seq<TextureView> {
    Seq::new(es.len(), |i: int| kept(es[i]))
}

/// Whether a name can be found again: it is short and has no NUL in it.
pub open spec fn name_fits(name: Seq<char>) -> bool {
    let b = vstd::utf8::encode_utf8(name);
    &&& b.len() < 256
    &&& forall|i: int| 0 <= i < b.len() ==> #[trigger] b[i] != 0
}

/// Whether every place in a dictionary has an address of its own: the
/// sections are told apart by bits that large offsets would run into.
pub open spec fn addressable(es: Seq<TextureView>) -> bool {
    let g = crate::ytd_write::graphics_layout(es)->0;
    let gfx = crate::resource::page_count(g.0);
    let pages = crate::ytd_write::settled(es, gfx, 1, MAX_ROUNDS as nat)->0;
    let l = crate::ytd_write::system_layout(es, pages, gfx)->0;
    &&& forall|i: int| 0 <= i < l.1.len() ==> #[trigger] l.1[i] < 0x1000_0000
    &&& forall|i: int| 0 <= i < g.1.len() ==> #[trigger] g.1[i] < 0x2000_0000
}

/// What is known of the sections of a dictionary.
struct Laid {
    es: Seq<TextureView>,
    pages: int,
    gfx: int,
    starts: Seq<int>,
    gfx_starts: Seq<int>,
    system: Seq<u8>,
    graphics: Seq<u8>,
}

impl Laid {
    spec fn piece(self, i: int) -> Seq<u8> {
        crate::ytd_write::piece(
            self.es,
            self.pages,
            self.gfx,
            self.starts,
            self.gfx_starts,
            i,
        )
    }

    /// Every piece stands in its place, and has an address.
    spec fn stands(self) -> bool {
        &&& self.starts.len() == crate::ytd_write::piece_count(self.es)
        &&& self.starts[0] == 0
        &&& self.pages >= 0
        &&& self.gfx >= 0
        &&& forall|i: int|
            0 <= i < self.starts.len() ==> {
                &&& 0 <= #[trigger] self.starts[i] < 0x1000_0000
                &&& self.starts[i] + self.piece(i).len() <= self.system.len()
                &&& self.system.subrange(
                    self.starts[i],
                    self.starts[i] + self.piece(i).len(),
                ) == self.piece(i)
            }
    }

    /// The same of the pixels.
    spec fn pixels_stand(self) -> bool {
        let blocks = crate::ytd_write::pixel_blocks(self.es, self.es.len());
        &&& self.gfx_starts.len() == blocks.len()
        &&& forall|i: int|
            0 <= i < blocks.len() ==> {
                &&& 0 <= #[trigger] self.gfx_starts[i] < 0x2000_0000
                &&& self.gfx_starts[i] + blocks[i].len() <= self.graphics.len()
                &&& self.graphics.subrange(
                    self.gfx_starts[i],
                    self.gfx_starts[i] + blocks[i].len(),
                ) == blocks[i]
            }
    }

    spec fn usable(self) -> bool {
        &&& self.stands()
        &&& self.pixels_stand()
        &&& self.es.len() <= 0xFFFF
        &&& forall|i: int| 0 <= i < self.es.len() ==> name_fits(#[trigger] self.es[i].name)
        &&& forall|i: int|
            0 <= i < self.es.len() ==> crate::ytd_write::pixel_bytes(#[trigger] self.es[i])
                <= self.es[i].pixel_data.len()
    }
}

proof fn lemma_piece_resolves(d: Laid, i: int)
    requires
        d.stands(),
        0 <= i < d.starts.len(),
    ensures
        crate::resource::resolved(
            d.system,
            d.graphics,
            crate::ytd_write::address(d.starts[i]),
            d.piece(i).len() as int,
        ) == Some(d.piece(i)),
        crate::ytd_write::address(d.starts[i]) != 0,
        crate::resource::located(crate::ytd_write::address(d.starts[i])) == Some(
            (Section::System, d.starts[i]),
        ),
{
    law_system_addresses(d.starts[i]);
}

proof fn lemma_dictionary_reads(n: int, starts: Seq<int>)
    requires
        0 <= n <= 0xFFFF,
    ensures
        ({
            let r = crate::ytd_write::dictionary(n, starts);
            &&& r.len() == 0x40
            &&& crate::bytes::le64(r, 0x20) == crate::ytd_write::list_address(n, starts[2])
            &&& crate::bytes::le16(r, 0x28) == n
            &&& crate::bytes::le64(r, 0x30) == crate::ytd_write::list_address(n, starts[3])
            &&& crate::bytes::le16(r, 0x38) == n
        }),
{
    let r = crate::ytd_write::dictionary(n, starts);
    let hashes = crate::ytd_write::list_address(n, starts[2]);
    let list = crate::ytd_write::list_address(n, starts[3]);
    assert(r.subrange(0x20, 0x28) =~= crate::bytes::le64_bytes(hashes));
    assert(r.subrange(0x28, 0x2A) =~= crate::bytes::le16_bytes(n as u16));
    assert(r.subrange(0x30, 0x38) =~= crate::bytes::le64_bytes(list));
    assert(r.subrange(0x38, 0x3A) =~= crate::bytes::le16_bytes(n as u16));
    crate::bytes::law_u64_round_trip(hashes);
    crate::bytes::law_u64_round_trip(list);
    crate::bytes::law_u16_round_trip(n as u16);
}

#[verifier::rlimit(40)]
proof fn lemma_record_reads(t: TextureView, name: u64, pixels: u64)
    ensures
        ({
            let r = crate::ytd_write::texture_record(t, name, pixels);
            &&& r.len() == 0x90
            &&& crate::bytes::le64(r, 0x28) == name
            &&& crate::bytes::le16(r, 0x50) == t.width
            &&& crate::bytes::le16(r, 0x52) == t.height
            &&& crate::bytes::le16(r, 0x54) == crate::ytd_write::deep(t.depth)
            &&& crate::bytes::le16(r, 0x56) == t.stride
            &&& crate::bytes::le32(r, 0x58) == crate::ytd::format_code(t.format)
            &&& r[0x5D] == t.levels
            &&& crate::bytes::le64(r, 0x70) == pixels
        }),
{
    let r = crate::ytd_write::texture_record(t, name, pixels);
    let depth = crate::ytd_write::deep(t.depth);
    let code = crate::ytd::format_code(t.format);
    assert(r.subrange(0x28, 0x30) =~= crate::bytes::le64_bytes(name));
    assert(r.subrange(0x50, 0x52) =~= crate::bytes::le16_bytes(t.width));
    assert(r.subrange(0x52, 0x54) =~= crate::bytes::le16_bytes(t.height));
    assert(r.subrange(0x54, 0x56) =~= crate::bytes::le16_bytes(depth));
    assert(r.subrange(0x56, 0x58) =~= crate::bytes::le16_bytes(t.stride));
    assert(r.subrange(0x58, 0x5C) =~= crate::bytes::le32_bytes(code));
    assert(r.subrange(0x70, 0x78) =~= crate::bytes::le64_bytes(pixels));
    crate::bytes::law_u64_round_trip(name);
    crate::bytes::law_u64_round_trip(pixels);
    crate::bytes::law_u16_round_trip(t.width);
    crate::bytes::law_u16_round_trip(t.height);
    crate::bytes::law_u16_round_trip(depth);
    crate::bytes::law_u16_round_trip(t.stride);
    crate::bytes::law_u32_round_trip(code);
}

proof fn lemma_hashes_read(es: Seq<TextureView>, k: nat, i: int)
    requires
        0 <= i < k,
    ensures
        crate::ytd_write::hash_bytes(es, k).len() == 4 * k,
        crate::bytes::le32(crate::ytd_write::hash_bytes(es, k), 4 * i) == es[i].name_hash,
    decreases k,
{
    let s = crate::ytd_write::hash_bytes(es, k);
    let before = crate::ytd_write::hash_bytes(es, (k - 1) as nat);
    if i < k - 1 {
        lemma_hashes_read(es, (k - 1) as nat, i);
        assert(s.subrange(0, before.len() as int) =~= before);
        assert(crate::bytes::le32(s.subrange(0, before.len() as int), 4 * i) == crate::bytes::le32(
            s,
            4 * i,
        ));
    } else {
        if k > 1 {
            lemma_hashes_read(es, (k - 1) as nat, 0);
        }
        assert(s.subrange(4 * i, 4 * i + 4) =~= crate::bytes::le32_bytes(es[i].name_hash));
        crate::bytes::law_u32_round_trip(es[i].name_hash);
    }
}

proof fn lemma_pointers_read(starts: Seq<int>, k: nat, i: int)
    requires
        0 <= i < k,
    ensures
        crate::ytd_write::pointer_bytes(starts, k).len() == 8 * k,
        crate::bytes::le64(crate::ytd_write::pointer_bytes(starts, k), 8 * i)
            == crate::ytd_write::address(starts[i + 4]),
    decreases k,
{
    let s = crate::ytd_write::pointer_bytes(starts, k);
    let before = crate::ytd_write::pointer_bytes(starts, (k - 1) as nat);
    if i < k - 1 {
        lemma_pointers_read(starts, (k - 1) as nat, i);
        assert(s.subrange(0, before.len() as int) =~= before);
        assert(crate::bytes::le64(s.subrange(0, before.len() as int), 8 * i) == crate::bytes::le64(
            s,
            8 * i,
        ));
    } else {
        if k > 1 {
            lemma_pointers_read(starts, (k - 1) as nat, 0);
        }
        assert(s.subrange(8 * i, 8 * i + 8) =~= crate::bytes::le64_bytes(
            crate::ytd_write::address(starts[i + 4]),
        ));
        crate::bytes::law_u64_round_trip(crate::ytd_write::address(starts[i + 4]));
    }
}

proof fn lemma_nul_found(s: Seq<u8>, i: int, end: int, limit: int)
    requires
        0 <= i <= end < s.len(),
        end < limit,
        s[end] == 0,
        forall|k: int| i <= k < end ==> #[trigger] s[k] != 0,
    ensures
        crate::resource::nul_before(s, i, limit) == Some(end),
    decreases end - i,
{
    if i < end {
        lemma_nul_found(s, i + 1, end, limit);
    }
}

proof fn lemma_name_reads(d: Laid, i: int)
    requires
        d.usable(),
        0 <= i < d.es.len(),
    ensures
        crate::ytd::name_at(
            d.system,
            crate::ytd_write::address(d.starts[4 + d.es.len() + i]),
        ) == d.es[i].name,
{
    let n = d.es.len() as int;
    let name = d.es[i].name;
    let b = vstd::utf8::encode_utf8(name);
    let at = d.starts[4 + n + i];
    lemma_piece_resolves(d, 4 + n + i);
    let p = d.piece(4 + n + i);
    assert(p == b.push(0));
    let end = at + b.len();
    assert(name_fits(name));
    assert(d.system[end] == p[b.len() as int]) by {
        assert(d.system.subrange(at, at + p.len())[b.len() as int] == d.system[end]);
    }
    assert forall|k: int| at <= k < end implies #[trigger] d.system[k] != 0 by {
        assert(d.system.subrange(at, at + p.len())[k - at] == d.system[k]);
        assert(b[k - at] != 0);
    }
    lemma_nul_found(d.system, at, end, at + 256);
    assert(d.system.subrange(at, end) =~= b) by {
        assert(d.system.subrange(at, end) =~= p.take(b.len() as int));
        assert(p.take(b.len() as int) =~= b);
    }
    crate::text::law_text_round_trip(name);
}

proof fn lemma_block_of(es: Seq<TextureView>, i: nat, k: nat)
    requires
        i < k,
        crate::ytd_write::pixel_bytes(es[i as int]) > 0,
    ensures
        crate::ytd_write::pixel_blocks(es, i).len() < crate::ytd_write::pixel_blocks(es, k).len(),
        crate::ytd_write::pixel_blocks(es, k)[crate::ytd_write::pixel_blocks(es, i).len() as int]
            == es[i as int].pixel_data.take(crate::ytd_write::pixel_bytes(es[i as int])),
    decreases k,
{
    if i < k - 1 {
        lemma_block_of(es, i, (k - 1) as nat);
    }
}

proof fn lemma_chain_positive(t: TextureView)
    ensures
        crate::ytd::game_chain(t.stride, t.height, t.levels as nat) >= 0,
        crate::ytd_write::pixel_bytes(t) >= crate::ytd::game_chain(
            t.stride,
            t.height,
            t.levels as nat,
        ),
        crate::ytd_write::pixel_bytes(t) > 0 <==> crate::ytd::game_chain(
            t.stride,
            t.height,
            t.levels as nat,
        ) > 0,
{
    let c = crate::ytd::game_chain(t.stride, t.height, t.levels as nat) as int;
    let d = crate::ytd_write::deep(t.depth) as int;
    lemma_chain_at_least(t.stride, t.height, t.levels as nat);
    assert(c * d >= c && (c * d > 0 <==> c > 0)) by (nonlinear_arith)
        requires
            c >= 0,
            d >= 1,
    ;
}

proof fn lemma_level_at_least(stride: u16, height: u16, k: nat)
    ensures
        crate::ytd::game_level(stride, height, k) >= 0,
    decreases k,
{
    if k > 0 {
        lemma_level_at_least(stride, height, (k - 1) as nat);
    } else {
        assert(stride * height >= 0) by (nonlinear_arith);
    }
}

proof fn lemma_chain_at_least(stride: u16, height: u16, k: nat)
    ensures
        crate::ytd::game_chain(stride, height, k) >= 0,
    decreases k,
{
    if k > 0 {
        lemma_chain_at_least(stride, height, (k - 1) as nat);
        lemma_level_at_least(stride, height, (k - 1) as nat);
    }
}

proof fn lemma_pixels_read(d: Laid, i: int)
    requires
        d.usable(),
        0 <= i < d.es.len(),
        crate::ytd_write::pixel_bytes(d.es[i]) > 0,
    ensures
        ({
            let t = d.es[i];
            let size = crate::ytd::game_chain(t.stride, t.height, t.levels as nat) as int;
            let va = crate::ytd_write::pixels_address(d.es, d.gfx_starts, i);
            &&& va != 0
            &&& crate::resource::resolved(d.system, d.graphics, va, size) == Some(
                t.pixel_data.take(size),
            )
        }),
{
    let t = d.es[i];
    let size = crate::ytd::game_chain(t.stride, t.height, t.levels as nat) as int;
    let all = crate::ytd_write::pixel_bytes(t);
    let b = crate::ytd_write::pixel_blocks(d.es, i as nat).len() as int;
    let blocks = crate::ytd_write::pixel_blocks(d.es, d.es.len());
    lemma_block_of(d.es, i as nat, d.es.len());
    lemma_chain_positive(t);
    let at = d.gfx_starts[b];
    law_graphics_addresses(at);
    assert(blocks[b] == t.pixel_data.take(all));
    assert(blocks[b].len() == all);
    assert(d.graphics.subrange(at, at + size) =~= d.graphics.subrange(at, at + all).take(size));
    assert(t.pixel_data.take(all).take(size) =~= t.pixel_data.take(size));
}

#[verifier::rlimit(40)]
#[verifier::spinoff_prover]
proof fn lemma_texture_reads(d: Laid, i: int)
    requires
        d.usable(),
        0 <= i < d.es.len(),
    ensures
        crate::ytd::texture_at(
            d.system,
            d.graphics,
            crate::ytd_write::address(d.starts[4 + i]),
            d.es[i].name_hash,
        ) == Some(kept(d.es[i])),
{
    let n = d.es.len() as int;
    let t = d.es[i];
    let name = crate::ytd_write::address(d.starts[4 + i + n]);
    let pixels = crate::ytd_write::pixels_address(d.es, d.gfx_starts, i);
    lemma_piece_resolves(d, 4 + i);
    assert(d.piece(4 + i) == crate::ytd_write::texture_record(t, name, pixels));
    lemma_record_reads(t, name, pixels);
    lemma_name_reads(d, i);
    lemma_chain_positive(t);
    crate::ytd::law_format_codes(t.format);
    let size = crate::ytd::game_chain(t.stride, t.height, t.levels as nat) as int;
    if size > 0 {
        lemma_pixels_read(d, i);
    } else {
        assert(t.pixel_data.take(0) =~= Seq::<u8>::empty());
    }
}

#[verifier::rlimit(40)]
#[verifier::spinoff_prover]
proof fn lemma_textures_read(d: Laid, k: nat)
    requires
        d.usable(),
        k <= d.es.len(),
    ensures
        crate::ytd::listed_textures(
            d.system,
            d.graphics,
            d.piece(3),
            Some(d.piece(2)),
            k,
        ) == all_kept(d.es).take(k as int),
    decreases k,
{
    let want = all_kept(d.es);
    if k == 0 {
        assert(want.take(0) =~= Seq::<TextureView>::empty());
    } else {
        lemma_textures_read(d, (k - 1) as nat);
        lemma_pointers_read(d.starts, d.es.len(), k - 1);
        lemma_hashes_read(d.es, d.es.len(), k - 1);
        lemma_texture_reads(d, k - 1);
        lemma_piece_resolves(d, 4 + (k - 1));
        assert(want.take(k as int) =~= want.take(k - 1).push(kept(d.es[k - 1])));
    }
}

#[verifier::rlimit(60)]
#[verifier::spinoff_prover]
proof fn lemma_laid_reads(d: Laid)
    requires
        d.usable(),
    ensures
        crate::ytd::dictionary_at(d.system, d.graphics, SYSTEM_BASE) == Ok::<
            Seq<TextureView>,
            YtdReadError,
        >(all_kept(d.es)),
{
    let n = d.es.len() as int;
    lemma_piece_resolves(d, 0);
    assert(crate::ytd_write::address(0) == SYSTEM_BASE);
    lemma_dictionary_reads(n, d.starts);
    if n == 0 {
        assert(all_kept(d.es) =~= Seq::<TextureView>::empty());
    } else {
        lemma_piece_resolves(d, 2);
        lemma_piece_resolves(d, 3);
        lemma_hashes_read(d.es, d.es.len(), 0);
        lemma_pointers_read(d.starts, d.es.len(), 0);
        lemma_textures_read(d, d.es.len());
        assert(all_kept(d.es).take(n) =~= all_kept(d.es));
    }
}

proof fn lemma_none_short(es: Seq<TextureView>, i: int, j: int)
    requires
        crate::ytd_write::first_short(es, i) is None,
        0 <= i <= j < es.len(),
    ensures
        crate::ytd_write::pixel_bytes(es[j]) <= es[j].pixel_data.len(),
    decreases j - i,
{
    if i < j {
        lemma_none_short(es, i + 1, j);
    }
}

proof fn lemma_settled(es: Seq<TextureView>, gfx: int, pages: int, rounds: nat)
    requires
        crate::ytd_write::settled(es, gfx, pages, rounds) is Some,
    ensures
        ({
            let fixed = crate::ytd_write::settled(es, gfx, pages, rounds)->0;
            &&& crate::ytd_write::system_layout(es, fixed, gfx) is Some
            &&& ({
                let l = crate::ytd_write::system_layout(es, fixed, gfx)->0;
                crate::resource::page_count(l.0) == fixed
            })
        }),
    decreases rounds,
{
    let l = crate::ytd_write::system_layout(es, pages, gfx)->0;
    if crate::resource::page_count(l.0) != pages {
        lemma_settled(es, gfx, crate::resource::page_count(l.0), (rounds - 1) as nat);
    }
}

proof fn lemma_pixels_laid(es: Seq<TextureView>)
    requires
        crate::ytd_write::graphics_layout(es) is Some,
        forall|i: int| 0 <= i < es.len() ==> #[trigger] es[i].pixel_data.len() <= usize::MAX,
        forall|i: int|
            0 <= i < es.len() ==> crate::ytd_write::pixel_bytes(#[trigger] es[i])
                <= es[i].pixel_data.len(),
    ensures
        ({
            let g = crate::ytd_write::graphics_layout(es)->0;
            let blocks = crate::ytd_write::pixel_blocks(es, es.len());
            crate::paging::apart(g.2, g.1, blocks) && g.2 >= 0
        }),
{
    let blocks = crate::ytd_write::pixel_blocks(es, es.len());
    if blocks.len() > 0 {
        lemma_block_sizes(es, es.len());
        crate::ytd_write::lemma_apart(
            blocks,
            crate::ytd_write::sizes_of(blocks),
            MAX_PAGES as int,
        );
    }
}

proof fn lemma_block_sizes(es: Seq<TextureView>, k: nat)
    requires
        k <= es.len(),
        forall|i: int| 0 <= i < es.len() ==> #[trigger] es[i].pixel_data.len() <= usize::MAX,
        forall|i: int|
            0 <= i < es.len() ==> crate::ytd_write::pixel_bytes(#[trigger] es[i])
                <= es[i].pixel_data.len(),
    ensures
        forall|i: int|
            0 <= i < crate::ytd_write::pixel_blocks(es, k).len()
                ==> #[trigger] crate::ytd_write::pixel_blocks(es, k)[i].len() <= usize::MAX,
    decreases k,
{
    if k > 0 {
        lemma_block_sizes(es, (k - 1) as nat);
        lemma_chain_positive(es[k - 1]);
        let before = crate::ytd_write::pixel_blocks(es, (k - 1) as nat);
        let after = crate::ytd_write::pixel_blocks(es, k);
        assert forall|i: int| 0 <= i < after.len() implies #[trigger] after[i].len()
            <= usize::MAX by {
            if i < before.len() {
                assert(after[i] == before[i]);
            } else {
                assert(es[k - 1].pixel_data.len() <= usize::MAX);
            }
        }
    }
}

/// A dictionary that was written reads back as what it was made of: the
/// textures in the order of their hashes, each as a dictionary keeps it.
/// `es` are the sorted textures, as [`crate::ytd_write::serialize_ytd`]
/// writes them.
pub proof fn law_written_dictionaries_read_back(
    es: Seq<TextureView>,
    r: Result<Vec<u8>, YtdWriteError>,
    sections: Result<(Seq<u8>, Seq<u8>), ResourceError>,
)
    requires
        crate::ytd_write::written(es, r),
        r is Ok,
        crate::resource::unpacks_to(r->Ok_0@, sections),
        forall|i: int| 0 <= i < es.len() ==> #[trigger] es[i].pixel_data.len() <= usize::MAX,
        forall|i: int| 0 <= i < es.len() ==> name_fits(#[trigger] es[i].name),
        addressable(es),
    ensures
        crate::ytd::read_file(sections) == Ok::<Seq<TextureView>, YtdReadError>(all_kept(es)),
{
    let g = crate::ytd_write::graphics_layout(es)->0;
    let gfx = crate::resource::page_count(g.0);
    lemma_settled(es, gfx, 1, MAX_ROUNDS as nat);
    let pages = crate::ytd_write::settled(es, gfx, 1, MAX_ROUNDS as nat)->0;
    let l = crate::ytd_write::system_layout(es, pages, gfx)->0;
    assert forall|i: int| 0 <= i < es.len() implies crate::ytd_write::pixel_bytes(
        #[trigger] es[i],
    ) <= es[i].pixel_data.len() by {
        lemma_none_short(es, 0, i);
    }
    reveal(crate::resource::page_count);
    crate::ytd_write::lemma_system_apart(es, pages, gfx, g.1);
    lemma_pixels_laid(es);
    let pieces = crate::ytd_write::pieces_of(es, pages, gfx, l.1, g.1);
    let blocks = crate::ytd_write::pixel_blocks(es, es.len());
    let d = Laid {
        es,
        pages,
        gfx,
        starts: l.1,
        gfx_starts: g.1,
        system: crate::ytd_write::system_of(es, pages),
        graphics: crate::ytd_write::graphics_of(es),
    };
    assert forall|i: int| 0 <= i < d.starts.len() implies {
        &&& 0 <= #[trigger] d.starts[i] < 0x1000_0000
        &&& d.starts[i] + d.piece(i).len() <= d.system.len()
        &&& d.system.subrange(d.starts[i], d.starts[i] + d.piece(i).len()) == d.piece(i)
    } by {
        assert(pieces[i] == d.piece(i));
        crate::paging::law_pieces_read_back(l.2, l.1, pieces, pieces.len(), i);
        assert(l.1[i] < 0x1000_0000);
    }
    assert forall|i: int| 0 <= i < blocks.len() implies {
        &&& 0 <= #[trigger] d.gfx_starts[i] < 0x2000_0000
        &&& d.gfx_starts[i] + blocks[i].len() <= d.graphics.len()
        &&& d.graphics.subrange(d.gfx_starts[i], d.gfx_starts[i] + blocks[i].len()) == blocks[i]
    } by {
        crate::paging::law_pieces_read_back(g.2, g.1, blocks, blocks.len(), i);
        assert(g.1[i] < 0x2000_0000);
    }
    crate::paging::lemma_first_start(
        crate::ytd_write::piece_sizes(es, pages + gfx),
        MAX_PAGES - gfx,
    );
    lemma_laid_reads(d);
}

} // verus!
