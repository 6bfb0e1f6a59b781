//! Writes texture dictionaries (`.ytd`), laid out as CodeWalker's
//! `TextureDictionary.Save` does: entries sorted by name hash, the hash and
//! pointer lists, texture structs and name strings packed into system pages,
//! each texture's pixel data packed into graphics pages.

use vstd::prelude::*;
use vstd::slice::*;
use vstd::string::*;

use crate::bytes::{push_u16_le, push_u32_le, push_u64_le, to_vec};
use crate::hash::rage_joaat;
use crate::paging::{lay_out, pack_pages, PagedLayout};
use crate::resource::{
    build_rsc7_with_flags, rsc7_page_count, ResourceError, GRAPHICS_BASE, SYSTEM_BASE,
};
use crate::text::{push_decimal, push_hex, to_lowercase};
use crate::ytd::{calc_pixel_data_size, TextureFormat, TextureView, YtdTexture};

verus! {

broadcast use vstd::slice::group_slice_axioms;

/// Resource version of a .ytd.
pub const YTD_VERSION: u32 = 13;

pub const DICT_SIZE: usize = 0x40;
pub const TEXTURE_SIZE: usize = 0x90;

/// The most pages of a dictionary, in both sections together.
pub const MAX_PAGES: usize = 128;

/// How often the page map is resized before giving up on a layout.
pub const MAX_ROUNDS: usize = 256;

/// Why a dictionary could not be written.
#[derive(Debug, PartialEq, Eq)]
pub enum YtdWriteError {
    SharedHash { first: String, second: String, hash: u32 },
    TooMany(usize),
    Short {
        name: String,
        width: u16,
        height: u16,
        format: TextureFormat,
        levels: u8,
        need: u64,
        have: usize,
    },
    Layout(ResourceError),
}

/// The model of a [`YtdWriteError`].
pub enum WriteErrorView {
    SharedHash { first: Seq<char>, second: Seq<char>, hash: u32 },
    TooMany(usize),
    Short {
        name: Seq<char>,
        width: u16,
        height: u16,
        format: TextureFormat,
        levels: u8,
        need: u64,
        have: usize,
    },
    Layout(ResourceError),
}

impl View for YtdWriteError {
    type V = WriteErrorView;

    open spec fn view(&self) -> WriteErrorView {
        match self {
            YtdWriteError::SharedHash { first, second, hash } => WriteErrorView::SharedHash {
                first: first@,
                second: second@,
                hash: *hash,
            },
            YtdWriteError::TooMany(n) => WriteErrorView::TooMany(*n),
            YtdWriteError::Short { name, width, height, format, levels, need, have } => {
                WriteErrorView::Short {
                    name: name@,
                    width: *width,
                    height: *height,
                    format: *format,
                    levels: *levels,
                    need: *need,
                    have: *have,
                }
            },
            YtdWriteError::Layout(e) => WriteErrorView::Layout(*e),
        }
    }
}

impl YtdWriteError {
    /// The error in words.
    pub fn message(&self) -> (r: String)
        ensures
            r@ == self@.text(),
    {
        let mut out = String::new();
        match self {
            YtdWriteError::SharedHash { first, second, hash } => {
                out.append("textures '");
                out.append(first.as_str());
                out.append("' and '");
                out.append(second.as_str());
                out.append("' share the name hash 0x");
                push_hex(&mut out, *hash as u64, 8);
            },
            YtdWriteError::TooMany(n) => {
                push_decimal(&mut out, *n as u64);
                out.append(" textures; a dictionary holds at most 65535");
            },
            YtdWriteError::Short { name, width, height, format, levels, need, have } => {
                out.append("texture '");
                out.append(name.as_str());
                out.append("': ");
                push_decimal(&mut out, *width as u64);
                out.append("x");
                push_decimal(&mut out, *height as u64);
                out.append(" ");
                let f = (*format).name();
                out.append(f.as_str());
                out.append(" with ");
                push_decimal(&mut out, *levels as u64);
                out.append(" mip(s) needs ");
                push_decimal(&mut out, *need);
                out.append(" bytes of pixel data, has ");
                push_decimal(&mut out, *have as u64);
            },
            YtdWriteError::Layout(e) => {
                out = e.message();
            },
        }
        assert(out@ =~= self@.text());
        out
    }
}

impl WriteErrorView {
    /// The error in words.
    pub open spec fn text(self) -> Seq<char> {
        match self {
            WriteErrorView::SharedHash { first, second, hash } => "textures '"@ + first + "' and '"@
                + second + "' share the name hash 0x"@ + crate::text::hex(hash as nat, 8),
            WriteErrorView::TooMany(n) => crate::text::decimal(n as nat)
                + " textures; a dictionary holds at most 65535"@,
            WriteErrorView::Short { name, width, height, format, levels, need, have } => {
                "texture '"@ + name + "': "@ + crate::text::decimal(width as nat) + "x"@
                    + crate::text::decimal(height as nat) + " "@ + crate::ytd::format_name(format)
                    + " with "@ + crate::text::decimal(levels as nat) + " mip(s) needs "@
                    + crate::text::decimal(need as nat) + " bytes of pixel data, has "@
                    + crate::text::decimal(have as nat)
            },
            WriteErrorView::Layout(e) => e.text(),
        }
    }
}

// ─── the model ───────────────────────────────────────────────────────────────

/// A texture with its name hash: the one it has, or that of its lower-case
/// name.
pub open spec fn hashed(t: TextureView) -> TextureView {
    if t.name_hash != 0 {
        t
    } else {
        TextureView { name_hash: crate::hash::name_hash(crate::text::lowercased(t.name)), ..t }
    }
}

/// Where a hash goes among the first `j` textures: behind all that are not
/// larger.
pub open spec fn slot(es: Seq<TextureView>, hash: u32, j: nat) -> nat
    decreases j,
{
    if j == 0 || es[j - 1].name_hash <= hash {
        j
    } else {
        slot(es, hash, (j - 1) as nat)
    }
}

/// The first `k` textures, sorted by name hash; those of one hash keep their
/// order.
pub open spec fn sorted(ts: Seq<TextureView>, k: nat) -> Seq<TextureView>
    decreases k,
{
    if k == 0 {
        Seq::empty()
    } else {
        let before = sorted(ts, (k - 1) as nat);
        let e = hashed(ts[k - 1]);
        before.insert(slot(before, e.name_hash, before.len()) as int, e)
    }
}

/// The first texture from `i` on with the hash of the next one.
pub open spec fn first_shared(es: Seq<TextureView>, i: int) -> Option<int>
    decreases es.len() - i,
{
    if i + 1 >= es.len() {
        None
    } else if es[i].name_hash == es[i + 1].name_hash {
        Some(i)
    } else {
        first_shared(es, i + 1)
    }
}

/// A depth, one at least.
pub open spec fn deep(depth: u16) -> u16 {
    if depth < 1 {
        1
    } else {
        depth
    }
}

/// How many bytes of pixels a texture is written with.
pub open spec fn pixel_bytes(t: TextureView) -> int {
    crate::ytd::game_chain(t.stride, t.height, t.levels as nat) * deep(t.depth)
}

/// The first texture from `i` on that has fewer bytes than it needs.
pub open spec fn first_short(es: Seq<TextureView>, i: int) -> Option<int>
    decreases es.len() - i,
{
    if i >= es.len() || i < 0 {
        None
    } else if es[i].pixel_data.len() < pixel_bytes(es[i]) {
        Some(i)
    } else {
        first_short(es, i + 1)
    }
}

/// What is wrong with some sorted textures, if anything is.
pub open spec fn refused(es: Seq<TextureView>) -> Option<WriteErrorView> {
    match first_shared(es, 0) {
        Some(i) => Some(
            WriteErrorView::SharedHash {
                first: es[i].name,
                second: es[i + 1].name,
                hash: es[i].name_hash,
            },
        ),
        None => if es.len() > 0xFFFF {
            Some(WriteErrorView::TooMany(es.len() as usize))
        } else {
            match first_short(es, 0) {
                Some(i) => Some(
                    WriteErrorView::Short {
                        name: es[i].name,
                        width: es[i].width,
                        height: es[i].height,
                        format: es[i].format,
                        levels: es[i].levels,
                        need: pixel_bytes(es[i]) as u64,
                        have: es[i].pixel_data.len() as usize,
                    },
                ),
                None => None,
            }
        },
    }
}

/// The pixels of the first `k` textures, those left out that have none.
pub open spec fn pixel_blocks(es: Seq<TextureView>, k: nat) -> Seq<Seq<u8>>
    decreases k,
{
    if k == 0 {
        Seq::empty()
    } else {
        let before = pixel_blocks(es, (k - 1) as nat);
        let n = pixel_bytes(es[k - 1]);
        if n > 0 {
            before.push(es[k - 1].pixel_data.take(n))
        } else {
            before
        }
    }
}

/// The sizes of some pieces.
pub open spec fn sizes_of(pieces: Seq<Seq<u8>>) -> Seq<usize> {
    Seq::new(pieces.len(), |i: int| pieces[i].len() as usize)
}

/// The layout of the graphics section: its flag word, where the pixels start,
/// and its size. Nothing takes no page.
pub open spec fn graphics_layout(es: Seq<TextureView>) -> Option<(u32, Seq<int>, int)> {
    let blocks = pixel_blocks(es, es.len());
    if blocks.len() == 0 {
        Some((0, Seq::empty(), 0))
    } else {
        crate::paging::paged(sizes_of(blocks), MAX_PAGES as int)
    }
}

/// How many pieces the system section is laid out in.
pub open spec fn piece_count(es: Seq<TextureView>) -> nat {
    2 * es.len() + 4
}

/// The size of a piece of the system section, in order: the dictionary, the
/// page map, the hashes, the pointers, each texture, and each name.
pub open spec fn piece_size(es: Seq<TextureView>, pages: int, i: int) -> int {
    let n = es.len() as int;
    if i == 0 {
        0x40
    } else if i == 1 {
        16 + 8 * pages
    } else if i == 2 {
        4 * n
    } else if i == 3 {
        8 * n
    } else if i < 4 + n {
        0x90
    } else {
        vstd::utf8::encode_utf8(es[i - 4 - n].name).len() + 1int
    }
}

/// A size, no larger than a length can be.
pub open spec fn capped(n: int) -> usize {
    crate::resource::least(n, usize::MAX as int) as usize
}

/// The sizes of all pieces, for a page map of this many pages.
pub open spec fn piece_sizes(es: Seq<TextureView>, pages: int) -> Seq<usize> {
    Seq::new(piece_count(es), |i: int| capped(piece_size(es, pages, i)))
}

/// The layout of a system section of `pages` pages beside `gfx` pages of
/// pixels.
pub open spec fn system_layout(es: Seq<TextureView>, pages: int, gfx: int) -> Option<
    (u32, Seq<int>, int),
> {
    crate::paging::paged(piece_sizes(es, pages + gfx), MAX_PAGES - gfx)
}

/// The number of pages whose page map belongs to a layout of as many pages,
/// found by laying the pieces out again for the number that came out.
pub open spec fn settled(es: Seq<TextureView>, gfx: int, pages: int, rounds: nat) -> Option<int>
    decreases rounds,
{
    match system_layout(es, pages, gfx) {
        None => None,
        Some(l) => if crate::resource::page_count(l.0) == pages {
            Some(pages)
        } else if rounds == 0 {
            None
        } else {
            settled(es, gfx, crate::resource::page_count(l.0), (rounds - 1) as nat)
        },
    }
}

/// The address of a place in the system section.
pub open spec fn address(offset: int) -> u64 {
    (SYSTEM_BASE + offset) as u64
}

/// The address of a list, nothing where it is empty.
pub open spec fn list_address(n: int, offset: int) -> u64 {
    if n > 0 {
        address(offset)
    } else {
        0
    }
}

/// The dictionary.
pub open spec fn dictionary(n: int, starts: Seq<int>) -> Seq<u8> {
    crate::bytes::zeros(4) + crate::bytes::le32_bytes(1) + crate::bytes::le64_bytes(address(starts[1])) + crate::bytes::zeros(8) + crate::bytes::le32_bytes(1) + crate::bytes::zeros(4)
        + crate::bytes::le64_bytes(list_address(n, starts[2])) + crate::bytes::le16_bytes(n as u16) + crate::bytes::le16_bytes(n as u16)
        + crate::bytes::zeros(4) + crate::bytes::le64_bytes(list_address(n, starts[3])) + crate::bytes::le16_bytes(n as u16) + crate::bytes::le16_bytes(
        n as u16,
    ) + crate::bytes::zeros(4)
}

/// The page map, empty but for the numbers of pages.
pub open spec fn page_map(pages: int, gfx: int) -> Seq<u8> {
    crate::bytes::zeros(8) + seq![pages as u8, gfx as u8] + crate::bytes::zeros(6 + 8 * (pages + gfx))
}

/// The hashes of the first `k` textures.
pub open spec fn hash_bytes(es: Seq<TextureView>, k: nat) -> Seq<u8>
    decreases k,
{
    if k == 0 {
        Seq::empty()
    } else {
        hash_bytes(es, (k - 1) as nat) + crate::bytes::le32_bytes(es[k - 1].name_hash)
    }
}

/// The addresses of the first `k` textures.
pub open spec fn pointer_bytes(starts: Seq<int>, k: nat) -> Seq<u8>
    decreases k,
{
    if k == 0 {
        Seq::empty()
    } else {
        pointer_bytes(starts, (k - 1) as nat) + crate::bytes::le64_bytes(address(starts[k + 3int]))
    }
}

/// Where the pixels of texture `i` are, nothing where it has none.
pub open spec fn pixels_address(es: Seq<TextureView>, gfx_starts: Seq<int>, i: int) -> u64 {
    if pixel_bytes(es[i]) > 0 {
        (GRAPHICS_BASE + gfx_starts[pixel_blocks(es, i as nat).len() as int]) as u64
    } else {
        0
    }
}

/// The record of a texture.
pub open spec fn texture_record(t: TextureView, name: u64, pixels: u64) -> Seq<u8> {
    crate::bytes::zeros(4) + crate::bytes::le32_bytes(1) + crate::bytes::zeros(0x20) + crate::bytes::le64_bytes(name) + crate::bytes::le16_bytes(1) + crate::bytes::zeros(0x1E)
        + crate::bytes::le16_bytes(t.width) + crate::bytes::le16_bytes(t.height) + crate::bytes::le16_bytes(deep(t.depth)) + crate::bytes::le16_bytes(
        t.stride,
    ) + crate::bytes::le32_bytes(crate::ytd::format_code(t.format)) + seq![0u8, t.levels] + crate::bytes::zeros(0x12)
        + crate::bytes::le64_bytes(pixels) + crate::bytes::zeros(0x18)
}

/// A piece of the system section.
pub open spec fn piece(
    es: Seq<TextureView>,
    pages: int,
    gfx: int,
    starts: Seq<int>,
    gfx_starts: Seq<int>,
    i: int,
) -> Seq<u8> {
    let n = es.len() as int;
    if i == 0 {
        dictionary(n, starts)
    } else if i == 1 {
        page_map(pages, gfx)
    } else if i == 2 {
        hash_bytes(es, es.len())
    } else if i == 3 {
        pointer_bytes(starts, es.len())
    } else if i < 4 + n {
        texture_record(
            es[i - 4],
            address(starts[i + n]),
            pixels_address(es, gfx_starts, i - 4),
        )
    } else {
        vstd::utf8::encode_utf8(es[i - 4 - n].name).push(0)
    }
}

/// The pieces of the system section.
pub open spec fn pieces_of(
    es: Seq<TextureView>,
    pages: int,
    gfx: int,
    starts: Seq<int>,
    gfx_starts: Seq<int>,
) -> Seq<Seq<u8>> {
    Seq::new(piece_count(es), |i: int| piece(es, pages, gfx, starts, gfx_starts, i))
}

/// The graphics section.
pub open spec fn graphics_of(es: Seq<TextureView>) -> Seq<u8> {
    let g = graphics_layout(es)->0;
    let blocks = pixel_blocks(es, es.len());
    crate::paging::laid(g.2, g.1, blocks, blocks.len())
}

/// The system section, in this many pages.
pub open spec fn system_of(es: Seq<TextureView>, pages: int) -> Seq<u8> {
    let g = graphics_layout(es)->0;
    let gfx = crate::resource::page_count(g.0);
    let l = system_layout(es, pages, gfx)->0;
    let pieces = pieces_of(es, pages, gfx, l.1, g.1);
    crate::paging::laid(l.2, l.1, pieces, pieces.len())
}

/// Whether `r` is the file of some sorted textures, or why there is none.
pub open spec fn written(es: Seq<TextureView>, r: Result<Vec<u8>, YtdWriteError>) -> bool {
    match refused(es) {
        Some(e) => r is Err && r->Err_0@ == e,
        None => match graphics_layout(es) {
            None => r is Err && r->Err_0@ == WriteErrorView::Layout(
                ResourceError::NoPageLayout(pixel_blocks(es, es.len()).len() as usize),
            ),
            Some(g) => match settled(es, crate::resource::page_count(g.0), 1, MAX_ROUNDS as nat) {
                None => r is Err && r->Err_0@ == WriteErrorView::Layout(
                    ResourceError::NoPageLayout(piece_count(es) as usize),
                ),
                Some(pages) => {
                    let l = system_layout(es, pages, crate::resource::page_count(g.0))->0;
                    &&& r is Ok
                    &&& r->Ok_0@ == crate::resource::file_bytes(
                        YTD_VERSION,
                        crate::resource::versioned(l.0, 0),
                        crate::resource::versioned(g.0, 13),
                        system_of(es, pages) + graphics_of(es),
                    )
                    &&& crate::resource::holds(
                        r->Ok_0@,
                        system_of(es, pages),
                        graphics_of(es),
                    )
                },
            },
        },
    }
}

// ─── sorting ─────────────────────────────────────────────────────────────────

struct Entry<'t> {
    hash: u32,
    tex: &'t YtdTexture,
}

spec fn entry_view(e: Entry) -> TextureView {
    TextureView { name_hash: e.hash, ..e.tex@ }
}

spec fn entries_view(es: Seq<Entry>) -> Seq<TextureView> {
    Seq::new(es.len(), |i: int| entry_view(es[i]))
}

fn text_copy(s: &String) -> (r: String)
    ensures
        r@ == s@,
{
    let mut out = String::new();
    out.append(s.as_str());
    assert(out@ =~= s@);
    out
}

fn entry_for<'t>(t: &'t YtdTexture) -> (e: Entry<'t>)
    ensures
        entry_view(e) == hashed(t@),
{
    let hash: u32 = if t.name_hash != 0 {
        t.name_hash
    } else {
        let lower = to_lowercase(t.name.as_str());
        rage_joaat(lower.as_str())
    };
    Entry { hash, tex: t }
}

fn sort_textures<'t>(textures: &'t [YtdTexture]) -> (es: Vec<Entry<'t>>)
    ensures
        entries_view(es@) == sorted(crate::ytd::textures_view(textures@), textures@.len()),
{
    let ghost ts = crate::ytd::textures_view(textures@);
    let mut es: Vec<Entry<'t>> = Vec::new();
    let mut k: usize = 0;
    assert(entries_view(es@) =~= sorted(ts, 0));
    while k < textures.len()
        invariant
            k <= textures@.len(),
            ts == crate::ytd::textures_view(textures@),
            entries_view(es@) == sorted(ts, k as nat),
        decreases textures@.len() - k,
    {
        let ghost before = es@;
        let ghost bv = entries_view(es@);
        assert(ts[k as int] == textures@[k as int]@);
        let e = entry_for(&textures[k]);
        let ghost ev = entry_view(e);
        let mut j: usize = es.len();
        while j > 0 && es[j - 1].hash > e.hash
            invariant
                j <= es@.len(),
                es@ == before,
                bv == entries_view(before),
                slot(bv, e.hash, es@.len()) == slot(bv, e.hash, j as nat),
            decreases j,
        {
            assert(bv[j - 1] == entry_view(es@[j - 1]));
            j = j - 1;
        }
        assert(j > 0 ==> bv[j - 1] == entry_view(es@[j - 1]));
        assert(j == slot(bv, e.hash, es@.len()));
        es.insert(j, e);
        assert(entries_view(es@) =~= bv.insert(j as int, ev));
        k += 1;
    }
    es
}

// ─── checking ────────────────────────────────────────────────────────────────

fn pixel_len(t: &YtdTexture) -> (n: u64)
    ensures
        n == pixel_bytes(t@),
{
    let one = calc_pixel_data_size(t.stride, t.height, t.levels);
    let d: u16 = if t.depth < 1 {
        1
    } else {
        t.depth
    };
    assert(one * d <= 0x1_0000_0000 * 0xFF * 0xFFFF) by (nonlinear_arith)
        requires
            one <= 0x1_0000_0000 * 0xFF,
            d <= 0xFFFF,
    ;
    one * d as u64
}

proof fn lemma_none_short(es: Seq<TextureView>, i: int, j: int)
    requires
        first_short(es, i) is None,
        0 <= i <= j < es.len(),
    ensures
        es[j].pixel_data.len() >= pixel_bytes(es[j]),
    decreases j - i,
{
    if i < j {
        lemma_none_short(es, i + 1, j);
    }
}

fn refusal(es: &Vec<Entry>) -> (r: Option<YtdWriteError>)
    ensures
        (match r {
            Some(e) => Some(e@),
            None => None,
        }) == refused(entries_view(es@)),
{
    let ghost v = entries_view(es@);
    let mut i: usize = 0;
    while i < es.len()
        invariant
            i <= es@.len(),
            v == entries_view(es@),
            first_shared(v, 0) == first_shared(v, i as int),
        decreases es@.len() - i,
    {
        assert(v[i as int] == entry_view(es@[i as int]));
        if es.len() - i > 1 {
            assert(v[i + 1] == entry_view(es@[i + 1]));
            if es[i].hash == es[i + 1].hash {
                return Some(
                    YtdWriteError::SharedHash {
                        first: text_copy(&es[i].tex.name),
                        second: text_copy(&es[i + 1].tex.name),
                        hash: es[i].hash,
                    },
                );
            }
        }
        i += 1;
    }
    assert(first_shared(v, 0) is None);
    if es.len() > 0xFFFF {
        return Some(YtdWriteError::TooMany(es.len()));
    }
    let mut i: usize = 0;
    while i < es.len()
        invariant
            i <= es@.len() <= 0xFFFF,
            v == entries_view(es@),
            first_shared(v, 0) is None,
            first_short(v, 0) == first_short(v, i as int),
        decreases es@.len() - i,
    {
        assert(v[i as int] == entry_view(es@[i as int]));
        let t = es[i].tex;
        let need = pixel_len(t);
        if (t.pixel_data.len() as u64) < need {
            return Some(
                YtdWriteError::Short {
                    name: text_copy(&t.name),
                    width: t.width,
                    height: t.height,
                    format: t.format,
                    levels: t.levels,
                    need,
                    have: t.pixel_data.len(),
                },
            );
        }
        i += 1;
    }
    None
}

// ─── the graphics section ────────────────────────────────────────────────────

fn pixel_pieces(es: &Vec<Entry>) -> (out: Vec<Vec<u8>>)
    requires
        first_short(entries_view(es@), 0) is None,
    ensures
        crate::paging::pieces_view(out@) == pixel_blocks(entries_view(es@), es@.len()),
{
    let ghost v = entries_view(es@);
    let mut out: Vec<Vec<u8>> = Vec::new();
    assert(crate::paging::pieces_view(out@) =~= pixel_blocks(v, 0));
    let mut k: usize = 0;
    while k < es.len()
        invariant
            k <= es@.len(),
            v == entries_view(es@),
            first_short(v, 0) is None,
            crate::paging::pieces_view(out@) == pixel_blocks(v, k as nat),
        decreases es@.len() - k,
    {
        let ghost before = out@;
        assert(v[k as int] == entry_view(es@[k as int]));
        proof {
            lemma_none_short(v, 0, k as int);
        }
        let n = pixel_len(es[k].tex);
        if n > 0 {
            assert(n <= es@[k as int].tex.pixel_data.len());
            let part = slice_subrange(es[k].tex.pixel_data.as_slice(), 0, n as usize);
            assert(part@ =~= v[k as int].pixel_data.take(n as int));
            let b = to_vec(part);
            let ghost bv = b@;
            out.push(b);
            assert(crate::paging::pieces_view(out@) =~= crate::paging::pieces_view(before).push(bv));
        }
        k += 1;
    }
    out
}

fn lengths(pieces: &Vec<Vec<u8>>) -> (out: Vec<usize>)
    ensures
        out@ == sizes_of(crate::paging::pieces_view(pieces@)),
{
    let mut out: Vec<usize> = Vec::new();
    let mut k: usize = 0;
    let ghost all = sizes_of(crate::paging::pieces_view(pieces@));
    while k < pieces.len()
        invariant
            k <= pieces@.len(),
            all == sizes_of(crate::paging::pieces_view(pieces@)),
            out@ == all.take(k as int),
        decreases pieces@.len() - k,
    {
        let n = pieces[k].len();
        assert(all[k as int] == n);
        out.push(n);
        k += 1;
        assert(out@ =~= all.take(k as int));
    }
    assert(out@ =~= all);
    out
}

spec fn layout_is(l: PagedLayout, wanted: (u32, Seq<int>, int)) -> bool {
    &&& l.flags == wanted.0
    &&& l.size == wanted.2
    &&& crate::paging::places_view(l.offsets@) == wanted.1
}

/// Pieces of the sizes that a layout is made for lie apart in it.
pub proof fn lemma_apart(pieces: Seq<Seq<u8>>, sizes: Seq<usize>, max_pages: int)
    requires
        crate::paging::paged(sizes, max_pages) is Some,
        sizes.len() == pieces.len(),
        forall|i: int| 0 <= i < sizes.len() ==> #[trigger] sizes[i] == pieces[i].len(),
    ensures
        ({
            let l = crate::paging::paged(sizes, max_pages)->0;
            crate::paging::apart(l.2, l.1, pieces) && l.2 >= 0
        }),
{
    let l = crate::paging::paged(sizes, max_pages)->0;
    crate::paging::law_layout_flags_are_exact(sizes, max_pages);
    assert forall|i: int| 0 <= i < pieces.len() implies 0 <= #[trigger] l.1[i] && l.1[i]
        + pieces[i].len() <= l.2 by {
        crate::paging::law_blocks_lie_apart_in_pages(sizes, max_pages, i, i);
        assert(sizes[i] == pieces[i].len());
    }
    assert forall|i: int, j: int| 0 <= i < j < pieces.len() implies #[trigger] l.1[i]
        + pieces[i].len() <= #[trigger] l.1[j] by {
        crate::paging::law_blocks_lie_apart_in_pages(sizes, max_pages, i, j);
        assert(sizes[i] == pieces[i].len());
    }
}

fn graphics_places(pieces: &Vec<Vec<u8>>, Ghost(es): Ghost<Seq<TextureView>>) -> (r: Result<
    PagedLayout,
    ResourceError,
>)
    requires
        crate::paging::pieces_view(pieces@) == pixel_blocks(es, es.len()),
    ensures
        match r {
            Ok(l) => {
                &&& graphics_layout(es) is Some
                &&& layout_is(l, graphics_layout(es)->0)
                &&& crate::paging::apart(l.size as int, crate::paging::places_view(l.offsets@), crate::paging::pieces_view(pieces@))
                &&& crate::resource::page_count(l.flags) <= 127
                &&& l.flags < 0x1000_0000
                &&& crate::resource::section_size(l.flags) == l.size
            },
            Err(e) => graphics_layout(es) is None && e == ResourceError::NoPageLayout(
                pieces@.len() as usize,
            ),
        },
{
    let ghost blocks = crate::paging::pieces_view(pieces@);
    if pieces.len() == 0 {
        let l = PagedLayout { flags: 0, offsets: Vec::new(), size: 0 };
        proof {
            crate::resource::lemma_no_pages();
            reveal(crate::resource::page_count);
            assert(crate::paging::places_view(l.offsets@) =~= Seq::<int>::empty());
        }
        return Ok(l);
    }
    let sizes = lengths(pieces);
    match pack_pages(&sizes, MAX_PAGES) {
        Ok(l) => {
            proof {
                crate::paging::law_layout_flags_are_exact(sizes@, MAX_PAGES as int);
                crate::paging::lemma_page_limit(sizes@, MAX_PAGES as int);
                assert forall|i: int| 0 <= i < sizes@.len() implies #[trigger] sizes@[i]
                    == blocks[i].len() by {
                    assert(blocks[i] == pieces@[i]@);
                    assert(pieces@[i].len() <= usize::MAX);
                }
                lemma_apart(blocks, sizes@, MAX_PAGES as int);
                assert(crate::paging::places_view(l.offsets@) =~= (crate::paging::paged(sizes@, MAX_PAGES as int)->0).1);
            }
            Ok(l)
        },
        Err(e) => Err(e),
    }
}

// ─── the system section ──────────────────────────────────────────────────────

fn capped_size(n: usize, of: usize) -> (r: usize)
    ensures
        r == capped(n * of),
{
    assert(n * of >= 0) by (nonlinear_arith)
        requires
            n >= 0,
            of >= 0,
    ;
    match n.checked_mul(of) {
        Some(x) => x,
        None => usize::MAX,
    }
}

fn system_sizes(es: &Vec<Entry>, pages: usize) -> (out: Vec<usize>)
    requires
        pages <= 0x1_0000,
        es@.len() <= 0xFFFF,
    ensures
        out@ == piece_sizes(entries_view(es@), pages as int),
{
    let ghost v = entries_view(es@);
    let ghost all = piece_sizes(v, pages as int);
    let n = es.len();
    let mut out: Vec<usize> = Vec::new();
    out.push(DICT_SIZE);
    out.push(16 + 8 * pages);
    out.push(capped_size(4, n));
    out.push(capped_size(8, n));
    assert(out@ =~= all.take(4));
    let mut k: usize = 0;
    while k < n
        invariant
            k <= n == es@.len(),
            n <= 0xFFFF,
            v == entries_view(es@),
            all == piece_sizes(v, pages as int),
            out@ == all.take(4 + k),
        decreases n - k,
    {
        out.push(TEXTURE_SIZE);
        k += 1;
        assert(out@ =~= all.take(4 + k));
    }
    let mut k: usize = 0;
    while k < n
        invariant
            k <= n == es@.len(),
            n <= 0xFFFF,
            v == entries_view(es@),
            all == piece_sizes(v, pages as int),
            out@ == all.take(4 + n + k),
        decreases n - k,
    {
        assert(v[k as int] == entry_view(es@[k as int]));
        let len = es[k].tex.name.as_str().as_bytes().len();
        let size: usize = match len.checked_add(1) {
            Some(x) => x,
            None => usize::MAX,
        };
        assert(size == capped(vstd::utf8::encode_utf8(v[k as int].name).len() + 1int));
        out.push(size);
        k += 1;
        assert(out@ =~= all.take(4 + n + k));
    }
    assert(out@ =~= all);
    out
}

/// The layout whose page map has room for exactly its pages.
fn settle(es: &Vec<Entry>, gfx: usize) -> (r: Result<(PagedLayout, usize), ResourceError>)
    requires
        gfx <= 127,
        es@.len() <= 0xFFFF,
    ensures
        ({
            let v = entries_view(es@);
            match r {
                Ok((layout, pages)) => {
                    let l = system_layout(v, pages as int, gfx as int);
                    &&& settled(v, gfx as int, 1, MAX_ROUNDS as nat) == Some(pages as int)
                    &&& pages <= MAX_PAGES
                    &&& l is Some
                    &&& layout_is(layout, l->0)
                },
                Err(e) => settled(v, gfx as int, 1, MAX_ROUNDS as nat) is None && e
                    == ResourceError::NoPageLayout(piece_count(v) as usize),
            }
        }),
{
    let ghost v = entries_view(es@);
    let mut pages: usize = 1;
    let mut rounds: usize = MAX_ROUNDS;
    loop
        invariant
            v == entries_view(es@),
            gfx <= 127,
            es@.len() <= 0xFFFF,
            pages <= MAX_PAGES,
            settled(v, gfx as int, 1, MAX_ROUNDS as nat) == settled(
                v,
                gfx as int,
                pages as int,
                rounds as nat,
            ),
        decreases rounds,
    {
        let sizes = system_sizes(es, pages + gfx);
        match pack_pages(&sizes, MAX_PAGES - gfx) {
            Err(e) => {
                return Err(e);
            },
            Ok(layout) => {
                proof {
                    crate::paging::law_layout_flags_are_exact(sizes@, MAX_PAGES - gfx);
                    assert(crate::paging::places_view(layout.offsets@) =~= (crate::paging::paged(
                        sizes@,
                        MAX_PAGES - gfx,
                    )->0).1);
                }
                let n = rsc7_page_count(layout.flags);
                if n == pages {
                    return Ok((layout, pages));
                }
                if rounds == 0 {
                    return Err(ResourceError::NoPageLayout(sizes.len()));
                }
                pages = n;
                rounds = rounds - 1;
            },
        }
    }
}

fn address_of(offset: usize) -> (r: u64)
    ensures
        r == address(offset as int),
{
    (SYSTEM_BASE as u128 + offset as u128) as u64
}

fn push_zeros(out: &mut Vec<u8>, n: usize)
    ensures
        final(out)@ == old(out)@ + crate::bytes::zeros(n as int),
{
    let ghost start = out@;
    let mut i: usize = 0;
    while i < n
        invariant
            i <= n,
            out@ == start + crate::bytes::zeros(i as int),
        decreases n - i,
    {
        out.push(0);
        i += 1;
        assert(out@ =~= start + crate::bytes::zeros(i as int));
    }
    assert(out@ =~= start + crate::bytes::zeros(n as int));
}

#[verifier::rlimit(40)]
fn dictionary_bytes(n: usize, starts: &Vec<usize>) -> (out: Vec<u8>)
    requires
        starts@.len() >= 4,
    ensures
        out@ == dictionary(n as int, crate::paging::places_view(starts@)),
{
    let ghost at = crate::paging::places_view(starts@);
    let mut out: Vec<u8> = Vec::new();
    push_zeros(&mut out, 4);
    push_u32_le(&mut out, 1);
    push_u64_le(&mut out, address_of(starts[1]));
    push_zeros(&mut out, 8);
    push_u32_le(&mut out, 1);
    push_zeros(&mut out, 4);
    let hashes: u64 = if n > 0 {
        address_of(starts[2])
    } else {
        0
    };
    let pointers: u64 = if n > 0 {
        address_of(starts[3])
    } else {
        0
    };
    push_u64_le(&mut out, hashes);
    push_u16_le(&mut out, n as u16);
    push_u16_le(&mut out, n as u16);
    push_zeros(&mut out, 4);
    push_u64_le(&mut out, pointers);
    push_u16_le(&mut out, n as u16);
    push_u16_le(&mut out, n as u16);
    push_zeros(&mut out, 4);
    assert(at[1] == starts@[1] && at[2] == starts@[2] && at[3] == starts@[3]);
    assert(out@ =~= dictionary(n as int, at));
    out
}

#[verifier::rlimit(40)]
fn texture_bytes(e: &Entry, name: u64, pixels: u64) -> (out: Vec<u8>)
    ensures
        out@ == texture_record(entry_view(*e), name, pixels),
{
    let t = e.tex;
    let mut out: Vec<u8> = Vec::new();
    push_zeros(&mut out, 4);
    push_u32_le(&mut out, 1);
    push_zeros(&mut out, 0x20);
    push_u64_le(&mut out, name);
    push_u16_le(&mut out, 1);
    push_zeros(&mut out, 0x1E);
    push_u16_le(&mut out, t.width);
    push_u16_le(&mut out, t.height);
    push_u16_le(
        &mut out,
        if t.depth < 1 {
            1
        } else {
            t.depth
        },
    );
    push_u16_le(&mut out, t.stride);
    push_u32_le(&mut out, t.format.to_u32());
    out.push(0);
    out.push(t.levels);
    push_zeros(&mut out, 0x12);
    push_u64_le(&mut out, pixels);
    push_zeros(&mut out, 0x18);
    assert(out@ =~= texture_record(entry_view(*e), name, pixels));
    out
}

fn hashes_bytes(es: &Vec<Entry>) -> (out: Vec<u8>)
    ensures
        out@ == hash_bytes(entries_view(es@), es@.len()),
{
    let ghost v = entries_view(es@);
    let mut out: Vec<u8> = Vec::new();
    let mut k: usize = 0;
    while k < es.len()
        invariant
            k <= es@.len(),
            v == entries_view(es@),
            out@ == hash_bytes(v, k as nat),
        decreases es@.len() - k,
    {
        assert(v[k as int] == entry_view(es@[k as int]));
        push_u32_le(&mut out, es[k].hash);
        k += 1;
    }
    out
}

fn pointers_bytes(starts: &Vec<usize>, n: usize) -> (out: Vec<u8>)
    requires
        n + 4 <= starts@.len(),
    ensures
        out@ == pointer_bytes(crate::paging::places_view(starts@), n as nat),
{
    let ghost at = crate::paging::places_view(starts@);
    let mut out: Vec<u8> = Vec::new();
    let mut k: usize = 0;
    while k < n
        invariant
            k <= n,
            n + 4 <= starts@.len(),
            at == crate::paging::places_view(starts@),
            out@ == pointer_bytes(at, k as nat),
        decreases n - k,
    {
        assert(k + 4 < starts.len());
        push_u64_le(&mut out, address_of(starts[k + 4]));
        k += 1;
        assert(at[k + 3] == starts@[k + 3]);
    }
    out
}

/// All pieces of the system section.
#[verifier::rlimit(40)]
fn system_pieces(
    es: &Vec<Entry>,
    pages: usize,
    gfx: usize,
    starts: &Vec<usize>,
    gfx_starts: &Vec<usize>,
) -> (out: Vec<Vec<u8>>)
    requires
        pages <= 128,
        gfx <= 127,
        es@.len() <= 0xFFFF,
        starts@.len() == piece_count(entries_view(es@)),
        gfx_starts@.len() == pixel_blocks(entries_view(es@), es@.len()).len(),
    ensures
        crate::paging::pieces_view(out@) == pieces_of(
            entries_view(es@),
            pages as int,
            gfx as int,
            crate::paging::places_view(starts@),
            crate::paging::places_view(gfx_starts@),
        ),
{
    let ghost v = entries_view(es@);
    let ghost at = crate::paging::places_view(starts@);
    let ghost gat = crate::paging::places_view(gfx_starts@);
    let ghost all = pieces_of(v, pages as int, gfx as int, at, gat);
    let n = es.len();
    let mut out: Vec<Vec<u8>> = Vec::new();
    out.push(dictionary_bytes(n, starts));
    let mut map: Vec<u8> = Vec::new();
    push_zeros(&mut map, 8);
    map.push(pages as u8);
    map.push(gfx as u8);
    push_zeros(&mut map, 6 + 8 * (pages + gfx));
    assert(map@ =~= page_map(pages as int, gfx as int));
    out.push(map);
    out.push(hashes_bytes(es));
    out.push(pointers_bytes(starts, n));
    assert(crate::paging::pieces_view(out@) =~= all.take(4));
    let mut k: usize = 0;
    let mut block: usize = 0;
    while k < n
        invariant
            k <= n == es@.len(),
            n <= 0xFFFF,
            v == entries_view(es@),
            at == crate::paging::places_view(starts@),
            gat == crate::paging::places_view(gfx_starts@),
            all == pieces_of(v, pages as int, gfx as int, at, gat),
            starts@.len() == 2 * n + 4,
            block == pixel_blocks(v, k as nat).len(),
            gfx_starts@.len() == pixel_blocks(v, n as nat).len(),
            crate::paging::pieces_view(out@) == all.take(4 + k),
        decreases n - k,
    {
        let ghost before = out@;
        assert(v[k as int] == entry_view(es@[k as int]));
        let t = es[k].tex;
        proof {
            lemma_blocks_grow(v, (k + 1) as nat, n as nat);
        }
        let mut pixels: u64 = 0;
        if pixel_len(t) > 0 {
            assert(gat[block as int] == gfx_starts@[block as int]);
            assert(block < gfx_starts.len());
            pixels = (GRAPHICS_BASE as u128 + gfx_starts[block] as u128) as u64;
            block = block + 1;
        }
        assert(at[4 + n + k] == starts@[4 + n + k]);
        let record = texture_bytes(&es[k], address_of(starts[4 + n + k]), pixels);
        let ghost rv = record@;
        out.push(record);
        k += 1;
        assert(all[3 + k] == rv);
        assert(crate::paging::pieces_view(out@) =~= crate::paging::pieces_view(before).push(rv));
        assert(crate::paging::pieces_view(out@) =~= all.take(4 + k));
    }
    let mut k: usize = 0;
    while k < n
        invariant
            k <= n == es@.len(),
            n <= 0xFFFF,
            v == entries_view(es@),
            all == pieces_of(v, pages as int, gfx as int, at, gat),
            crate::paging::pieces_view(out@) == all.take(4 + n + k),
        decreases n - k,
    {
        let ghost before = out@;
        assert(v[k as int] == entry_view(es@[k as int]));
        let mut name = to_vec(es[k].tex.name.as_str().as_bytes());
        name.push(0);
        let ghost nv = name@;
        assert(nv =~= vstd::utf8::encode_utf8(v[k as int].name).push(0));
        out.push(name);
        k += 1;
        assert(all[3 + n + k] == nv);
        assert(crate::paging::pieces_view(out@) =~= crate::paging::pieces_view(before).push(nv));
        assert(crate::paging::pieces_view(out@) =~= all.take(4 + n + k));
    }
    assert(crate::paging::pieces_view(out@) =~= all);
    out
}

proof fn lemma_blocks_grow(es: Seq<TextureView>, j: nat, k: nat)
    requires
        j <= k,
    ensures
        pixel_blocks(es, j).len() <= pixel_blocks(es, k).len(),
    decreases k,
{
    if j < k {
        lemma_blocks_grow(es, j, (k - 1) as nat);
    }
}

proof fn lemma_list_lengths(es: Seq<TextureView>, starts: Seq<int>, k: nat)
    ensures
        hash_bytes(es, k).len() == 4 * k,
        pointer_bytes(starts, k).len() == 8 * k,
    decreases k,
{
    if k > 0 {
        lemma_list_lengths(es, starts, (k - 1) as nat);
    }
}

proof fn lemma_dictionary_length(n: int, starts: Seq<int>)
    ensures
        dictionary(n, starts).len() == 0x40,
{
}

proof fn lemma_texture_length(t: TextureView, name: u64, pixels: u64)
    ensures
        texture_record(t, name, pixels).len() == 0x90,
{
}

/// A piece is as long as its size says.
pub proof fn lemma_piece_length(
    es: Seq<TextureView>,
    pages: int,
    gfx: int,
    starts: Seq<int>,
    gfx_starts: Seq<int>,
    i: int,
)
    requires
        0 <= i < piece_count(es),
        pages >= 0,
        gfx >= 0,
    ensures
        piece(es, pages, gfx, starts, gfx_starts, i).len() == piece_size(es, pages + gfx, i),
{
    let n = es.len() as int;
    if i == 0 {
        lemma_dictionary_length(n, starts);
    } else if i == 2 || i == 3 {
        lemma_list_lengths(es, starts, es.len());
    } else if 4 <= i < 4 + n {
        lemma_texture_length(
            es[i - 4],
            address(starts[i + n]),
            pixels_address(es, gfx_starts, i - 4),
        );
    }
}

/// The pieces of the system section lie apart.
pub proof fn lemma_system_apart(es: Seq<TextureView>, pages: int, gfx: int, gfx_starts: Seq<int>)
    requires
        system_layout(es, pages, gfx) is Some,
        pages >= 0,
        gfx >= 0,
    ensures
        ({
            let l = system_layout(es, pages, gfx)->0;
            &&& crate::paging::apart(l.2, l.1, pieces_of(es, pages, gfx, l.1, gfx_starts))
            &&& l.1.len() == piece_count(es)
            &&& l.2 >= 0
        }),
{
    let sizes = piece_sizes(es, pages + gfx);
    let l = system_layout(es, pages, gfx)->0;
    let pieces = pieces_of(es, pages, gfx, l.1, gfx_starts);
    crate::paging::lemma_layout_bounds(sizes, MAX_PAGES - gfx);
    assert forall|i: int| 0 <= i < sizes.len() implies #[trigger] sizes[i] == pieces[i].len() by {
        lemma_piece_length(es, pages, gfx, l.1, gfx_starts, i);
        assert(sizes[i] <= 0x4000_0000);
    }
    lemma_apart(pieces, sizes, MAX_PAGES - gfx);
}

/// Builds a .ytd (RSC7, version 13) from textures. A texture whose
/// `name_hash` is 0 is hashed from its lowercased name. Duplicate hashes are
/// an error, since a dictionary is looked up by hash.
pub fn serialize_ytd(textures: &[YtdTexture]) -> (r: Result<Vec<u8>, YtdWriteError>)
    ensures
        written(sorted(crate::ytd::textures_view(textures@), textures@.len()), r),
{
    let es = sort_textures(textures);
    let ghost v = entries_view(es@);
    match refusal(&es) {
        Some(e) => {
            return Err(e);
        },
        None => {},
    }
    let pixels = pixel_pieces(&es);
    let g = match graphics_places(&pixels, Ghost(v)) {
        Ok(l) => l,
        Err(e) => {
            return Err(YtdWriteError::Layout(e));
        },
    };
    let gfx = rsc7_page_count(g.flags);
    let (l, pages) = match settle(&es, gfx) {
        Ok(x) => x,
        Err(e) => {
            return Err(YtdWriteError::Layout(e));
        },
    };
    let ghost wanted = system_layout(v, pages as int, gfx as int)->0;
    proof {
        lemma_system_apart(v, pages as int, gfx as int, crate::paging::places_view(g.offsets@));
        crate::paging::law_layout_flags_are_exact(
            piece_sizes(v, pages + gfx),
            MAX_PAGES - gfx,
        );
    }
    let pieces = system_pieces(&es, pages, gfx, &l.offsets, &g.offsets);
    let system = lay_out(l.size, &l.offsets, &pieces);
    let graphics = lay_out(g.size, &g.offsets, &pixels);
    assert(13u32 / 16 % 16 == 0 && 13u32 % 16 == 13);
    Ok(
        build_rsc7_with_flags(
            YTD_VERSION,
            l.flags,
            system.as_slice(),
            g.flags,
            graphics.as_slice(),
        ),
    )
}

} // verus!
