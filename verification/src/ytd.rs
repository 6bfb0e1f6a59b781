//! Texture dictionaries (`.ytd`) of the PC version: reading, the arithmetic
//! of mip chains, and DDS files made of textures.

use vstd::prelude::*;
use vstd::slice::*;
use vstd::string::*;

use crate::bytes::{pad_to, push_bytes, push_u32_le, to_vec};
use crate::resource::{
    prepare_rsc7, u16_le, u32_le, u64_le, ResReader, ResourceError, Section, SYSTEM_BASE,
};
use crate::text::push_hex_plain;

verus! {

broadcast use {vstd::slice::group_slice_axioms, crate::bytes::group_subrange_reads};

/// How the pixels of a texture are stored.
#[derive(Debug, Clone, Copy, PartialEq, Eq, Structural)]
pub enum TextureFormat {
    A8R8G8B8,
    X8R8G8B8,
    A1R5G5B5,
    A8,
    A8B8G8R8,
    L8,
    DXT1,
    DXT3,
    DXT5,
    ATI1,
    ATI2,
    BC7,
    Unknown,
}

/// The format that a number stands for.
pub open spec fn format_of(v: u32) -> TextureFormat {
    if v == 21 {
        TextureFormat::A8R8G8B8
    } else if v == 22 {
        TextureFormat::X8R8G8B8
    } else if v == 25 {
        TextureFormat::A1R5G5B5
    } else if v == 28 {
        TextureFormat::A8
    } else if v == 32 {
        TextureFormat::A8B8G8R8
    } else if v == 50 {
        TextureFormat::L8
    } else if v == 0x3154_5844 {
        TextureFormat::DXT1
    } else if v == 0x3354_5844 {
        TextureFormat::DXT3
    } else if v == 0x3554_5844 {
        TextureFormat::DXT5
    } else if v == 0x3149_5441 {
        TextureFormat::ATI1
    } else if v == 0x3249_5441 {
        TextureFormat::ATI2
    } else if v == 0x2037_4342 {
        TextureFormat::BC7
    } else {
        TextureFormat::Unknown
    }
}

/// The number of a format: a Direct3D format, or a FourCC.
pub open spec fn format_code(f: TextureFormat) -> u32 {
    match f {
        TextureFormat::A8R8G8B8 => 21,
        TextureFormat::X8R8G8B8 => 22,
        TextureFormat::A1R5G5B5 => 25,
        TextureFormat::A8 => 28,
        TextureFormat::A8B8G8R8 => 32,
        TextureFormat::L8 => 50,
        TextureFormat::DXT1 => 0x3154_5844,
        TextureFormat::DXT3 => 0x3354_5844,
        TextureFormat::DXT5 => 0x3554_5844,
        TextureFormat::ATI1 => 0x3149_5441,
        TextureFormat::ATI2 => 0x3249_5441,
        TextureFormat::BC7 => 0x2037_4342,
        TextureFormat::Unknown => 0,
    }
}

/// The name of a format.
pub open spec fn format_name(f: TextureFormat) -> Seq<char> {
    match f {
        TextureFormat::A8R8G8B8 => "A8R8G8B8"@,
        TextureFormat::X8R8G8B8 => "X8R8G8B8"@,
        TextureFormat::A1R5G5B5 => "A1R5G5B5"@,
        TextureFormat::A8 => "A8"@,
        TextureFormat::A8B8G8R8 => "A8B8G8R8"@,
        TextureFormat::L8 => "L8"@,
        TextureFormat::DXT1 => "DXT1"@,
        TextureFormat::DXT3 => "DXT3"@,
        TextureFormat::DXT5 => "DXT5"@,
        TextureFormat::ATI1 => "ATI1"@,
        TextureFormat::ATI2 => "ATI2"@,
        TextureFormat::BC7 => "BC7"@,
        TextureFormat::Unknown => "Unknown"@,
    }
}

/// Whether a format stores blocks of four by four pixels.
pub open spec fn in_blocks(f: TextureFormat) -> bool {
    f == TextureFormat::DXT1 || f == TextureFormat::DXT3 || f == TextureFormat::DXT5 || f
        == TextureFormat::ATI1 || f == TextureFormat::ATI2 || f == TextureFormat::BC7
}

/// The number of a format stands for that format.
pub proof fn law_format_codes(f: TextureFormat)
    ensures
        format_of(format_code(f)) == f,
{
}

impl TextureFormat {
    /// The format that a number stands for.
    pub fn from_u32(v: u32) -> (r: Self)
        ensures
            r == format_of(v),
    {
        if v == 21 {
        TextureFormat::A8R8G8B8
    } else if v == 22 {
        TextureFormat::X8R8G8B8
    } else if v == 25 {
        TextureFormat::A1R5G5B5
    } else if v == 28 {
        TextureFormat::A8
    } else if v == 32 {
        TextureFormat::A8B8G8R8
    } else if v == 50 {
        TextureFormat::L8
    } else if v == 0x3154_5844 {
        TextureFormat::DXT1
    } else if v == 0x3354_5844 {
        TextureFormat::DXT3
    } else if v == 0x3554_5844 {
        TextureFormat::DXT5
    } else if v == 0x3149_5441 {
        TextureFormat::ATI1
    } else if v == 0x3249_5441 {
        TextureFormat::ATI2
    } else if v == 0x2037_4342 {
        TextureFormat::BC7
    } else {
        TextureFormat::Unknown
    }
    }

    /// The number of the format.
    pub fn to_u32(self) -> (r: u32)
        ensures
            r == format_code(self),
    {
        match self {
        TextureFormat::A8R8G8B8 => 21,
        TextureFormat::X8R8G8B8 => 22,
        TextureFormat::A1R5G5B5 => 25,
        TextureFormat::A8 => 28,
        TextureFormat::A8B8G8R8 => 32,
        TextureFormat::L8 => 50,
        TextureFormat::DXT1 => 0x3154_5844,
        TextureFormat::DXT3 => 0x3354_5844,
        TextureFormat::DXT5 => 0x3554_5844,
        TextureFormat::ATI1 => 0x3149_5441,
        TextureFormat::ATI2 => 0x3249_5441,
        TextureFormat::BC7 => 0x2037_4342,
        TextureFormat::Unknown => 0,
        }
    }

    /// Whether the format stores blocks of four by four pixels.
    pub fn is_block_compressed(self) -> (r: bool)
        ensures
            r == in_blocks(self),
    {
        matches!(
            self,
            TextureFormat::DXT1 | TextureFormat::DXT3 | TextureFormat::DXT5 | TextureFormat::ATI1
                | TextureFormat::ATI2 | TextureFormat::BC7
        )
    }

    /// The name of the format.
    pub fn name(self) -> (r: String)
        ensures
            r@ == format_name(self),
    {
        let mut out = String::new();
        match self {
            TextureFormat::A8R8G8B8 => {
                out.append("A8R8G8B8");
            },
            TextureFormat::X8R8G8B8 => {
                out.append("X8R8G8B8");
            },
            TextureFormat::A1R5G5B5 => {
                out.append("A1R5G5B5");
            },
            TextureFormat::A8 => {
                out.append("A8");
            },
            TextureFormat::A8B8G8R8 => {
                out.append("A8B8G8R8");
            },
            TextureFormat::L8 => {
                out.append("L8");
            },
            TextureFormat::DXT1 => {
                out.append("DXT1");
            },
            TextureFormat::DXT3 => {
                out.append("DXT3");
            },
            TextureFormat::DXT5 => {
                out.append("DXT5");
            },
            TextureFormat::ATI1 => {
                out.append("ATI1");
            },
            TextureFormat::ATI2 => {
                out.append("ATI2");
            },
            TextureFormat::BC7 => {
                out.append("BC7");
            },
            TextureFormat::Unknown => {
                out.append("Unknown");
            },
        }
        assert(out@ =~= format_name(self));
        out
    }
}

/// One texture entry extracted from a YTD. `pixel_data` holds every mip
/// level as the game stores them (see [`ytd_chain_size`]); [`YtdTexture::to_dds`]
/// re-lays it out the way a DDS file expects.
#[derive(Debug, PartialEq, Eq)]
pub struct YtdTexture {
    pub name: String,
    pub name_hash: u32,
    pub width: u16,
    pub height: u16,
    pub depth: u16,
    pub format: TextureFormat,
    pub levels: u8,
    pub stride: u16,
    pub pixel_data: Vec<u8>,
}

/// The model of a [`YtdTexture`].
#[verifier::ext_equal]
pub struct TextureView {
    pub name: Seq<char>,
    pub name_hash: u32,
    pub width: u16,
    pub height: u16,
    pub depth: u16,
    pub format: TextureFormat,
    pub levels: u8,
    pub stride: u16,
    pub pixel_data: Seq<u8>,
}

impl View for YtdTexture {
    type V = TextureView;

    open spec fn view(&self) -> TextureView {
        TextureView {
            name: self.name@,
            name_hash: self.name_hash,
            width: self.width,
            height: self.height,
            depth: self.depth,
            format: self.format,
            levels: self.levels,
            stride: self.stride,
            pixel_data: self.pixel_data@,
        }
    }
}

/// The textures of a dictionary.
pub open spec fn textures_view(s: Seq<YtdTexture>) -> Seq<TextureView> {
    Seq::new(s.len(), |i: int| s[i]@)
}

impl Clone for YtdTexture {
    fn clone(&self) -> (r: Self)
        ensures
            r@ == self@,
    {
        let mut name = String::new();
        name.append(self.name.as_str());
        assert(name@ =~= self.name@);
        YtdTexture {
            name,
            name_hash: self.name_hash,
            width: self.width,
            height: self.height,
            depth: self.depth,
            format: self.format,
            levels: self.levels,
            stride: self.stride,
            pixel_data: to_vec(self.pixel_data.as_slice()),
        }
    }
}

// ─── mip chains ──────────────────────────────────────────────────────────────

/// Bytes per block for a compressed format, or bits per pixel otherwise.
pub open spec fn density(f: TextureFormat) -> int {
    match f {
        TextureFormat::DXT1 | TextureFormat::ATI1 => 8,
        TextureFormat::DXT3 | TextureFormat::DXT5 | TextureFormat::ATI2 | TextureFormat::BC7 => 16,
        TextureFormat::A8R8G8B8 | TextureFormat::X8R8G8B8 | TextureFormat::A8B8G8R8 => 32,
        TextureFormat::A1R5G5B5 => 16,
        TextureFormat::A8 | TextureFormat::L8 => 8,
        TextureFormat::Unknown => 0,
    }
}

/// Byte size of one mip level: whole blocks, or whole rows.
pub open spec fn level_bytes(f: TextureFormat, width: u16, height: u16) -> int {
    if in_blocks(f) {
        crate::resource::at_least_one(crate::resource::ceil_div(width as int, 4)) * crate::resource::at_least_one(crate::resource::ceil_div(height as int, 4))
            * density(f)
    } else {
        crate::resource::ceil_div(width * density(f), 8) * height
    }
}

/// Half a size, one at least.
pub open spec fn half(n: u16) -> u16 {
    if n / 2 < 1 {
        1
    } else {
        (n / 2) as u16
    }
}

/// A size halved `k` times.
pub open spec fn halved(n: u16, k: nat) -> u16
    decreases k,
{
    if k == 0 {
        n
    } else {
        half(halved(n, (k - 1) as nat))
    }
}

/// Byte size of level `k` in a DDS.
pub open spec fn dds_level(f: TextureFormat, width: u16, height: u16, k: nat) -> int {
    level_bytes(f, halved(width, k), halved(height, k))
}

/// Byte size of level `k` as the game stores it: each level a quarter of the
/// previous, counting down from the stride times the height.
pub open spec fn game_level(stride: u16, height: u16, k: nat) -> int
    decreases k,
{
    if k == 0 {
        stride * height
    } else {
        game_level(stride, height, (k - 1) as nat) / 4
    }
}

/// Byte size of the first `k` levels in a DDS.
pub open spec fn dds_chain(f: TextureFormat, width: u16, height: u16, k: nat) -> int
    decreases k,
{
    if k == 0 {
        0
    } else {
        dds_chain(f, width, height, (k - 1) as nat) + dds_level(f, width, height, (k - 1) as nat)
    }
}

/// Byte size of the first `k` levels as the game stores them.
pub open spec fn game_chain(stride: u16, height: u16, k: nat) -> int
    decreases k,
{
    if k == 0 {
        0
    } else {
        game_chain(stride, height, (k - 1) as nat) + game_level(stride, height, (k - 1) as nat)
    }
}

/// The stride of a texture: the top level's size divided by its height.
pub open spec fn stride_of(f: TextureFormat, width: u16, height: u16) -> u16 {
    (level_bytes(f, width, height) / crate::resource::at_least_one(height as int)) as u16
}

/// The `n` bytes from `at` on, as far as there are any, cut to `want` bytes
/// or filled up with zeros.
pub open spec fn fitted(data: Seq<u8>, at: int, n: int, want: int) -> Seq<u8> {
    let have = if at <= data.len() {
        data.subrange(at, crate::resource::least(at + n, data.len() as int))
    } else {
        Seq::empty()
    };
    let k = crate::resource::least(have.len() as int, want);
    have.take(k) + crate::bytes::zeros(want - k)
}

/// The first `k` levels of a chain, as a DDS holds them.
pub open spec fn dds_layout(
    f: TextureFormat,
    width: u16,
    height: u16,
    stride: u16,
    data: Seq<u8>,
    k: nat,
) -> Seq<u8>
    decreases k,
{
    if k == 0 {
        Seq::empty()
    } else {
        let j = (k - 1) as nat;
        dds_layout(f, width, height, stride, data, j) + fitted(
            data,
            game_chain(stride, height, j),
            game_level(stride, height, j),
            dds_level(f, width, height, j),
        )
    }
}

/// The first `k` levels of a chain, as the game stores them.
pub open spec fn game_layout(
    f: TextureFormat,
    width: u16,
    height: u16,
    stride: u16,
    data: Seq<u8>,
    k: nat,
) -> Seq<u8>
    decreases k,
{
    if k == 0 {
        Seq::empty()
    } else {
        let j = (k - 1) as nat;
        game_layout(f, width, height, stride, data, j) + fitted(
            data,
            dds_chain(f, width, height, j),
            dds_level(f, width, height, j),
            game_level(stride, height, j),
        )
    }
}

/// How many times both sizes can be halved and stay at least `floor`, one
/// more.
pub open spec fn halvings(floor: int, width: u16, height: u16, levels: int) -> int
    decreases 255 - levels,
{
    if width / 2 >= floor && height / 2 >= floor && levels < 255 {
        halvings(floor, (width / 2) as u16, (height / 2) as u16, levels + 1)
    } else {
        levels
    }
}

proof fn lemma_level_bounds(f: TextureFormat, width: u16, height: u16)
    ensures
        0 <= level_bytes(f, width, height) <= 0x4_0000_0000,
{
    if in_blocks(f) {
        let a = crate::resource::at_least_one(crate::resource::ceil_div(width as int, 4));
        let b = crate::resource::at_least_one(crate::resource::ceil_div(height as int, 4));
        assert(0 <= a <= 0x4000 && 0 <= b <= 0x4000);
        assert(0 <= a * b * density(f) <= 0x4_0000_0000) by (nonlinear_arith)
            requires
                0 <= a <= 0x4000,
                0 <= b <= 0x4000,
                0 <= density(f) <= 32,
        ;
    } else {
        let d = density(f);
        assert(0 <= width * d <= 0xFFFF * 32) by (nonlinear_arith)
            requires
                0 <= d <= 32,
        ;
        let row = crate::resource::ceil_div(width * d, 8);
        assert(0 <= row <= 0x4_0000);
        assert(0 <= row * height <= 0x4_0000_0000) by (nonlinear_arith)
            requires
                0 <= row <= 0x4_0000,
        ;
    }
}

proof fn lemma_game_bounds(stride: u16, height: u16, k: nat)
    ensures
        0 <= game_level(stride, height, k) <= 0x1_0000_0000,
        0 <= game_chain(stride, height, k) <= 0x1_0000_0000 * k,
    decreases k,
{
    if k > 0 {
        lemma_game_bounds(stride, height, (k - 1) as nat);
    } else {
        assert(0 <= stride * height <= 0xFFFF * 0xFFFF) by (nonlinear_arith);
    }
}

proof fn lemma_dds_bounds(f: TextureFormat, width: u16, height: u16, k: nat)
    ensures
        0 <= dds_chain(f, width, height, k) <= 0x4_0000_0000 * k,
    decreases k,
{
    if k > 0 {
        lemma_dds_bounds(f, width, height, (k - 1) as nat);
        lemma_level_bounds(f, halved(width, (k - 1) as nat), halved(height, (k - 1) as nat));
    }
}

fn density_for(f: TextureFormat) -> (r: u64)
    ensures
        r == density(f),
        r <= 32,
{
    match f {
        TextureFormat::DXT1 | TextureFormat::ATI1 => 8,
        TextureFormat::DXT3 | TextureFormat::DXT5 | TextureFormat::ATI2 | TextureFormat::BC7 => 16,
        TextureFormat::A8R8G8B8 | TextureFormat::X8R8G8B8 | TextureFormat::A8B8G8R8 => 32,
        TextureFormat::A1R5G5B5 => 16,
        TextureFormat::A8 | TextureFormat::L8 => 8,
        TextureFormat::Unknown => 0,
    }
}

/// [`level_size`], however large.
fn wide_level_size(f: TextureFormat, width: u16, height: u16) -> (r: u64)
    ensures
        r == level_bytes(f, width, height),
        r <= 0x4_0000_0000,
{
    proof {
        lemma_level_bounds(f, width, height);
    }
    let d = density_for(f);
    if f.is_block_compressed() {
        let a: u64 = if width == 0 {
            1
        } else {
            (width as u64 + 3) / 4
        };
        let b: u64 = if height == 0 {
            1
        } else {
            (height as u64 + 3) / 4
        };
        assert(a * b <= 0x4000 * 0x4000) by (nonlinear_arith)
            requires
                a <= 0x4000,
                b <= 0x4000,
        ;
        assert(a * b * d <= 0x4000 * 0x4000 * 32) by (nonlinear_arith)
            requires
                a * b <= 0x4000 * 0x4000,
                d <= 32,
        ;
        a * b * d
    } else {
        assert(width * d <= 0xFFFF * 32) by (nonlinear_arith)
            requires
                d <= 32,
        ;
        let row: u64 = (width as u64 * d + 7) / 8;
        assert(row == crate::resource::ceil_div(width * density(f), 8));
        assert(row * height <= 0x4_0000 * 0xFFFF) by (nonlinear_arith)
            requires
                row <= 0x4_0000,
        ;
        row * height as u64
    }
}

/// Byte size of one mip level as laid out in memory (DirectXTex's slice
/// pitch: whole 4x4 blocks for compressed formats).
pub fn level_size(format: TextureFormat, width: u16, height: u16) -> (r: usize)
    requires
        level_bytes(format, width, height) <= usize::MAX,
    ensures
        r == level_bytes(format, width, height),
{
    wide_level_size(format, width, height) as usize
}

/// The `stride` the game stores for a texture: the top level's slice pitch
/// divided by its height, which is what CodeWalker writes on import too.
pub fn stride_for(format: TextureFormat, width: u16, height: u16) -> (r: u16)
    ensures
        r == stride_of(format, width, height),
{
    let h: u64 = if height == 0 {
        1
    } else {
        height as u64
    };
    (wide_level_size(format, width, height) / h) as u16
}

fn half_of(n: u16) -> (r: u16)
    ensures
        r == half(n),
{
    if n / 2 < 1 {
        1
    } else {
        n / 2
    }
}

/// [`mip_chain_size`], however large.
pub(crate) fn wide_chain_size(format: TextureFormat, width: u16, height: u16, levels: u8) -> (r: u64)
    ensures
        r == dds_chain(format, width, height, levels as nat),
        r <= 0x4_0000_0000 * levels,
{
    let mut w = width;
    let mut h = height;
    let mut total: u64 = 0;
    let mut k: u8 = 0;
    while k < levels
        invariant
            k <= levels,
            w == halved(width, k as nat),
            h == halved(height, k as nat),
            total == dds_chain(format, width, height, k as nat),
            total <= 0x4_0000_0000 * k,
        decreases levels - k,
    {
        total = total + wide_level_size(format, w, h);
        w = half_of(w);
        h = half_of(h);
        k += 1;
    }
    total
}

/// Total bytes of a `levels`-deep mip chain, each level half the previous
/// in both directions (never below 1 pixel).
pub fn mip_chain_size(format: TextureFormat, width: u16, height: u16, levels: u8) -> (r: usize)
    requires
        dds_chain(format, width, height, levels as nat) <= usize::MAX,
    ensures
        r == dds_chain(format, width, height, levels as nat),
{
    wide_chain_size(format, width, height, levels) as usize
}

/// Total bytes of a chain as the game stores it, however large.
pub fn calc_pixel_data_size(stride: u16, height: u16, levels: u8) -> (r: u64)
    ensures
        r == game_chain(stride, height, levels as nat),
        r <= 0x1_0000_0000 * levels,
{
    assert(stride * height <= 0xFFFF * 0xFFFF) by (nonlinear_arith);
    let mut length: u64 = stride as u64 * height as u64;
    let mut total: u64 = 0;
    let mut k: u8 = 0;
    while k < levels
        invariant
            k <= levels,
            length == game_level(stride, height, k as nat),
            length <= 0x1_0000_0000,
            total == game_chain(stride, height, k as nat),
            total <= 0x1_0000_0000 * k,
        decreases levels - k,
    {
        total = total + length;
        length = length / 4;
        k += 1;
    }
    total
}

/// Total bytes of a mip chain as the game stores it in a `.ytd`. Where the
/// sides are powers of two it equals [`mip_chain_size`] for up to
/// [`full_mip_count`] levels, and for no more.
pub fn ytd_chain_size(format: TextureFormat, width: u16, height: u16, levels: u8) -> (r: usize)
    requires
        game_chain(stride_of(format, width, height), height, levels as nat) <= usize::MAX,
    ensures
        r == game_chain(stride_of(format, width, height), height, levels as nat),
{
    calc_pixel_data_size(stride_for(format, width, height), height, levels) as usize
}

/// Appends the `n` bytes from `at` on, cut or filled up to `want`.
fn push_fitted(out: &mut Vec<u8>, data: &[u8], at: u64, n: u64, want: u64)
    requires
        at <= 0x1000_0000_0000,
        n <= 0x1000_0000_0000,
    ensures
        final(out)@ == old(out)@ + fitted(data@, at as int, n as int, want as int),
{
    let ghost start = out@;
    let len = data.len() as u64;
    let have: u64 = if at <= len {
        if at + n < len {
            n
        } else {
            len - at
        }
    } else {
        0
    };
    let k: u64 = if have < want {
        have
    } else {
        want
    };
    if k > 0 {
        let part = slice_subrange(data, at as usize, at as usize + k as usize);
        push_bytes(out, part);
    }
    let ghost whole = if at <= data@.len() {
        data@.subrange(at as int, crate::resource::least(at + n, data@.len() as int))
    } else {
        Seq::empty()
    };
    assert(whole.len() == have);
    assert(out@ =~= start + whole.take(k as int));
    let mut i: u64 = k;
    while i < want
        invariant
            k <= i <= want,
            out@ == start + whole.take(k as int) + crate::bytes::zeros(i - k),
        decreases want - i,
    {
        out.push(0);
        i += 1;
        assert(out@ =~= start + whole.take(k as int) + crate::bytes::zeros(i - k));
    }
    assert(out@ =~= start + fitted(data@, at as int, n as int, want as int));
}

/// Re-lays a chain stored the game's way out as a DDS holds it, padding
/// each level below one block with zeros.
pub fn to_dds_layout(
    format: TextureFormat,
    width: u16,
    height: u16,
    stride: u16,
    levels: u8,
    data: &[u8],
) -> (out: Vec<u8>)
    ensures
        out@ == dds_layout(format, width, height, stride, data@, levels as nat),
{
    let mut out: Vec<u8> = Vec::new();
    assert(stride * height <= 0xFFFF * 0xFFFF) by (nonlinear_arith);
    let mut game: u64 = stride as u64 * height as u64;
    let mut w = width;
    let mut h = height;
    let mut at: u64 = 0;
    let mut k: u8 = 0;
    while k < levels
        invariant
            k <= levels,
            w == halved(width, k as nat),
            h == halved(height, k as nat),
            game == game_level(stride, height, k as nat),
            game <= 0x1_0000_0000,
            at == game_chain(stride, height, k as nat),
            at <= 0x1_0000_0000 * k,
            out@ == dds_layout(format, width, height, stride, data@, k as nat),
        decreases levels - k,
    {
        let dds = wide_level_size(format, w, h);
        push_fitted(&mut out, data, at, game, dds);
        at = at + game;
        game = game / 4;
        w = half_of(w);
        h = half_of(h);
        k += 1;
    }
    out
}

/// The inverse of [`to_dds_layout`]: a DDS chain re-laid out as the game
/// stores it (a level below one block keeps only its first bytes).
pub fn to_ytd_layout(
    format: TextureFormat,
    width: u16,
    height: u16,
    stride: u16,
    levels: u8,
    data: &[u8],
) -> (out: Vec<u8>)
    ensures
        out@ == game_layout(format, width, height, stride, data@, levels as nat),
{
    let mut out: Vec<u8> = Vec::new();
    assert(stride * height <= 0xFFFF * 0xFFFF) by (nonlinear_arith);
    let mut game: u64 = stride as u64 * height as u64;
    let mut w = width;
    let mut h = height;
    let mut at: u64 = 0;
    let mut k: u8 = 0;
    while k < levels
        invariant
            k <= levels,
            w == halved(width, k as nat),
            h == halved(height, k as nat),
            game == game_level(stride, height, k as nat),
            game <= 0x1_0000_0000,
            at == dds_chain(format, width, height, k as nat),
            at <= 0x4_0000_0000 * k,
            out@ == game_layout(format, width, height, stride, data@, k as nat),
        decreases levels - k,
    {
        let dds = wide_level_size(format, w, h);
        push_fitted(&mut out, data, at, dds, game);
        at = at + dds;
        game = game / 4;
        w = half_of(w);
        h = half_of(h);
        k += 1;
    }
    out
}

/// How many mip levels a texture of this size can carry so that the game's
/// own size arithmetic (each level a quarter of the previous) stays exact:
/// down to 4x4 for block-compressed formats, 1x1 otherwise.
pub fn full_mip_count(format: TextureFormat, width: u16, height: u16) -> (r: u8)
    ensures
        r == halvings(
            if in_blocks(format) {
                4
            } else {
                1
            },
            width,
            height,
            1,
        ),
        r >= 1,
{
    let floor: u16 = if format.is_block_compressed() {
        4
    } else {
        1
    };
    let mut levels: u8 = 1;
    let mut w = width;
    let mut h = height;
    while w / 2 >= floor && h / 2 >= floor && levels < 255
        invariant
            1 <= levels,
            halvings(floor as int, width, height, 1) == halvings(
                floor as int,
                w,
                h,
                levels as int,
            ),
        decreases 255 - levels,
    {
        w = w / 2;
        h = h / 2;
        levels += 1;
    }
    levels
}

/// Whether no level is smaller in a DDS than the game stores it.
pub open spec fn levels_fit(f: TextureFormat, width: u16, height: u16, stride: u16, levels: nat) -> bool {
    forall|k: nat|
        k < levels ==> #[trigger] game_level(stride, height, k) <= dds_level(f, width, height, k)
}

proof fn lemma_layout_lengths(
    f: TextureFormat,
    width: u16,
    height: u16,
    stride: u16,
    data: Seq<u8>,
    k: nat,
)
    ensures
        dds_layout(f, width, height, stride, data, k).len() == dds_chain(f, width, height, k),
        game_layout(f, width, height, stride, data, k).len() == game_chain(stride, height, k),
    decreases k,
{
    if k > 0 {
        let j = (k - 1) as nat;
        lemma_layout_lengths(f, width, height, stride, data, j);
        lemma_game_bounds(stride, height, j);
        lemma_dds_bounds(f, width, height, j);
        lemma_level_bounds(f, halved(width, j), halved(height, j));
    }
}

proof fn lemma_dds_prefix(
    f: TextureFormat,
    width: u16,
    height: u16,
    stride: u16,
    data: Seq<u8>,
    j: nat,
    k: nat,
)
    requires
        j <= k,
    ensures
        dds_layout(f, width, height, stride, data, j).len() <= dds_layout(
            f,
            width,
            height,
            stride,
            data,
            k,
        ).len(),
        dds_layout(f, width, height, stride, data, k).take(
            dds_layout(f, width, height, stride, data, j).len() as int,
        ) == dds_layout(f, width, height, stride, data, j),
    decreases k,
{
    let small = dds_layout(f, width, height, stride, data, j);
    if j < k {
        lemma_dds_prefix(f, width, height, stride, data, j, (k - 1) as nat);
        let mid = dds_layout(f, width, height, stride, data, (k - 1) as nat);
        let large = dds_layout(f, width, height, stride, data, k);
        assert(large.take(small.len() as int) =~= mid.take(small.len() as int));
    } else {
        assert(small.take(small.len() as int) =~= small);
    }
}

#[verifier::rlimit(80)]
proof fn lemma_back(
    f: TextureFormat,
    width: u16,
    height: u16,
    stride: u16,
    data: Seq<u8>,
    levels: nat,
    k: nat,
)
    requires
        k <= levels,
        levels_fit(f, width, height, stride, levels),
        data.len() == game_chain(stride, height, levels),
    ensures
        game_chain(stride, height, k) <= data.len(),
        game_layout(
            f,
            width,
            height,
            stride,
            dds_layout(f, width, height, stride, data, levels),
            k,
        ) == data.take(game_chain(stride, height, k)),
    decreases k,
{
    let dds = dds_layout(f, width, height, stride, data, levels);
    lemma_game_monotone(stride, height, k, levels);
    if k > 0 {
        let j = (k - 1) as nat;
        lemma_back(f, width, height, stride, data, levels, j);
        lemma_layout_lengths(f, width, height, stride, data, j);
        lemma_layout_lengths(f, width, height, stride, data, k);
        lemma_layout_lengths(f, width, height, stride, data, levels);
        lemma_dds_prefix(f, width, height, stride, data, k, levels);
        lemma_game_bounds(stride, height, j);
        lemma_dds_bounds(f, width, height, j);
        lemma_level_bounds(f, halved(width, j), halved(height, j));
        let at = game_chain(stride, height, j);
        let n = game_level(stride, height, j);
        let from = dds_chain(f, width, height, j);
        let size = dds_level(f, width, height, j);
        assert(n <= size);
        let upto = dds_layout(f, width, height, stride, data, k);
        let level = fitted(data, at, n, size);
        assert(level =~= data.subrange(at, at + n) + crate::bytes::zeros(size - n));
        assert(upto == dds_layout(f, width, height, stride, data, j) + level);
        assert(dds.subrange(from, from + size) =~= level) by {
            assert(dds.take(upto.len() as int) == upto);
            assert forall|i: int| from <= i < from + size implies dds[i] == upto[i] by {
                assert(dds.take(upto.len() as int)[i] == dds[i]);
            }
        }
        assert(fitted(dds, from, size, n) =~= data.subrange(at, at + n)) by {
            assert(dds.subrange(from, from + size).take(n) =~= level.take(n));
        }
        assert(data.take(at) + data.subrange(at, at + n) =~= data.take(at + n));
    } else {
        assert(data.take(0) =~= Seq::<u8>::empty());
    }
}

proof fn lemma_game_monotone(stride: u16, height: u16, j: nat, k: nat)
    requires
        j <= k,
    ensures
        0 <= game_chain(stride, height, j) <= game_chain(stride, height, k),
    decreases k,
{
    lemma_game_bounds(stride, height, k);
    if j < k {
        lemma_game_monotone(stride, height, j, (k - 1) as nat);
        lemma_game_bounds(stride, height, (k - 1) as nat);
    }
}

/// Laying a chain out for a DDS and back gives the chain again, wherever no
/// level is smaller in a DDS than the game stores it.
pub proof fn law_layouts_are_inverse(
    f: TextureFormat,
    width: u16,
    height: u16,
    stride: u16,
    data: Seq<u8>,
    levels: nat,
)
    requires
        levels_fit(f, width, height, stride, levels),
        data.len() == game_chain(stride, height, levels),
    ensures
        game_layout(
            f,
            width,
            height,
            stride,
            dds_layout(f, width, height, stride, data, levels),
            levels,
        ) == data,
{
    lemma_back(f, width, height, stride, data, levels, levels);
    assert(data.take(data.len() as int) =~= data);
}

/// Both layouts of a chain are as long as the sums of their levels.
pub proof fn law_layouts_have_chain_size(
    f: TextureFormat,
    width: u16,
    height: u16,
    stride: u16,
    data: Seq<u8>,
    levels: nat,
)
    ensures
        dds_layout(f, width, height, stride, data, levels).len() == dds_chain(
            f,
            width,
            height,
            levels,
        ),
        game_layout(f, width, height, stride, data, levels).len() == game_chain(
            stride,
            height,
            levels,
        ),
{
    lemma_layout_lengths(f, width, height, stride, data, levels);
}

// ─── DDS files ───────────────────────────────────────────────────────────────

/// The masks of an uncompressed pixel format: flags, bits, and the masks of
/// red, green, blue and alpha.
pub open spec fn masks_of(f: TextureFormat) -> (u32, u32, u32, u32, u32, u32) {
    match f {
        TextureFormat::A8R8G8B8 => (0x41, 32, 0x00FF_0000, 0x0000_FF00, 0x0000_00FF, 0xFF00_0000),
        TextureFormat::X8R8G8B8 => (0x40, 32, 0x00FF_0000, 0x0000_FF00, 0x0000_00FF, 0),
        TextureFormat::A8B8G8R8 => (0x41, 32, 0x0000_00FF, 0x0000_FF00, 0x00FF_0000, 0xFF00_0000),
        TextureFormat::A1R5G5B5 => (0x41, 16, 0x7C00, 0x03E0, 0x001F, 0x8000),
        TextureFormat::A8 => (0x2, 8, 0, 0, 0, 0xFF),
        TextureFormat::L8 => (0x2_0000, 8, 0xFF, 0, 0, 0),
        _ => (0, 0, 0, 0, 0, 0),
    }
}

/// "DX10": the pixel format is in a header of its own.
pub const DX10: u32 = 0x3031_5844;

/// The pixel format of a DDS.
pub open spec fn pixel_format(f: TextureFormat) -> Seq<u8> {
    let m = masks_of(f);
    crate::bytes::le32_bytes(32) + crate::bytes::le32_bytes(
        if in_blocks(f) {
            4
        } else {
            m.0
        },
    ) + crate::bytes::le32_bytes(
        if f == TextureFormat::BC7 {
            DX10
        } else if in_blocks(f) {
            format_code(f)
        } else {
            0
        },
    ) + crate::bytes::le32_bytes(m.1) + crate::bytes::le32_bytes(m.2) + crate::bytes::le32_bytes(m.3) + crate::bytes::le32_bytes(m.4) + crate::bytes::le32_bytes(m.5)
}

/// The flags of a DDS: which fields of the header are set.
pub open spec fn dds_flags(t: TextureView) -> u32 {
    (0x1007 + (if t.levels > 1 {
        0x2_0000int
    } else {
        0
    }) + (if in_blocks(t.format) {
        0x8_0000int
    } else {
        8
    })) as u32
}

/// The first 76 bytes of a DDS, up to its pixel format.
pub open spec fn dds_front(t: TextureView) -> Seq<u8> {
    crate::bytes::le32_bytes(0x2053_4444) + crate::bytes::le32_bytes(124) + crate::bytes::le32_bytes(dds_flags(t)) + crate::bytes::le32_bytes(
        t.height as u32,
    ) + crate::bytes::le32_bytes(t.width as u32) + crate::bytes::le32_bytes((t.stride * t.height) as u32) + crate::bytes::le32_bytes(
        t.depth as u32,
    ) + crate::bytes::le32_bytes(t.levels as u32) + crate::bytes::zeros(44)
}

/// The 128 bytes of the header of a DDS.
pub open spec fn dds_header(t: TextureView) -> Seq<u8> {
    dds_front(t) + pixel_format(t.format) + crate::bytes::le32_bytes(
        if t.levels > 1 {
            0x40_1008
        } else {
            0x1000
        },
    ) + crate::bytes::zeros(16)
}

/// The DX10 header of a BC7 texture.
pub open spec fn dx10_header() -> Seq<u8> {
    crate::bytes::le32_bytes(98) + crate::bytes::le32_bytes(3) + crate::bytes::le32_bytes(0) + crate::bytes::le32_bytes(1) + crate::bytes::le32_bytes(0)
}

/// A texture as a DDS file.
pub open spec fn dds_file(t: TextureView) -> Seq<u8> {
    dds_header(t) + (if t.format == TextureFormat::BC7 {
        dx10_header()
    } else {
        Seq::empty()
    }) + dds_layout(t.format, t.width, t.height, t.stride, t.pixel_data, t.levels as nat)
}

fn push_words(out: &mut Vec<u8>, f: TextureFormat)
    ensures
        final(out)@ == old(out)@ + pixel_format(f),
{
    let ghost start = out@;
    let m: (u32, u32, u32, u32, u32, u32) = match f {
        TextureFormat::A8R8G8B8 => (0x41, 32, 0x00FF_0000, 0x0000_FF00, 0x0000_00FF, 0xFF00_0000),
        TextureFormat::X8R8G8B8 => (0x40, 32, 0x00FF_0000, 0x0000_FF00, 0x0000_00FF, 0),
        TextureFormat::A8B8G8R8 => (0x41, 32, 0x0000_00FF, 0x0000_FF00, 0x00FF_0000, 0xFF00_0000),
        TextureFormat::A1R5G5B5 => (0x41, 16, 0x7C00, 0x03E0, 0x001F, 0x8000),
        TextureFormat::A8 => (0x2, 8, 0, 0, 0, 0xFF),
        TextureFormat::L8 => (0x2_0000, 8, 0xFF, 0, 0, 0),
        _ => (0, 0, 0, 0, 0, 0),
    };
    let blocks = f.is_block_compressed();
    push_u32_le(out, 32);
    push_u32_le(
        out,
        if blocks {
            4
        } else {
            m.0
        },
    );
    push_u32_le(
        out,
        if f == TextureFormat::BC7 {
            DX10
        } else if blocks {
            f.to_u32()
        } else {
            0
        },
    );
    push_u32_le(out, m.1);
    push_u32_le(out, m.2);
    push_u32_le(out, m.3);
    push_u32_le(out, m.4);
    push_u32_le(out, m.5);
    assert(out@ =~= start + pixel_format(f));
}

impl YtdTexture {
    /// Serialize this texture to a DDS file.
    pub fn to_dds(&self) -> (out: Vec<u8>)
        ensures
            out@ == dds_file(self@),
    {
        let ghost t = self@;
        let mut out: Vec<u8> = Vec::new();
        let mips = self.levels > 1;
        let flags: u32 = 0x1007 + (if mips {
            0x2_0000
        } else {
            0u32
        }) + (if self.format.is_block_compressed() {
            0x8_0000
        } else {
            8u32
        });
        assert(self.stride * self.height <= 0xFFFF * 0xFFFF) by (nonlinear_arith);
        push_u32_le(&mut out, 0x2053_4444);
        push_u32_le(&mut out, 124);
        push_u32_le(&mut out, flags);
        push_u32_le(&mut out, self.height as u32);
        push_u32_le(&mut out, self.width as u32);
        push_u32_le(&mut out, self.stride as u32 * self.height as u32);
        push_u32_le(&mut out, self.depth as u32);
        push_u32_le(&mut out, self.levels as u32);
        pad_to(&mut out, 76);
        assert(out@ =~= dds_front(t));
        push_words(&mut out, self.format);
        push_u32_le(
            &mut out,
            if mips {
                0x40_1008
            } else {
                0x1000
            },
        );
        pad_to(&mut out, 128);
        assert(out@ =~= dds_header(t));
        if self.format == TextureFormat::BC7 {
            push_u32_le(&mut out, 98);
            push_u32_le(&mut out, 3);
            push_u32_le(&mut out, 0);
            push_u32_le(&mut out, 1);
            push_u32_le(&mut out, 0);
            assert(out@ =~= dds_header(t) + dx10_header());
        }
        let body = to_dds_layout(
            self.format,
            self.width,
            self.height,
            self.stride,
            self.levels,
            self.pixel_data.as_slice(),
        );
        push_bytes(&mut out, body.as_slice());
        assert(out@ =~= dds_file(t));
        out
    }
}

// ─── reading ─────────────────────────────────────────────────────────────────

/// Why a texture dictionary could not be read.
#[derive(Debug, Clone, Copy, PartialEq, Eq, Structural)]
pub enum YtdReadError {
    Resource(ResourceError),
    /// The dictionary lies outside the file.
    NoDictionary,
    /// The list of textures lies outside the file.
    NoPointers(u64),
}

impl YtdReadError {
    /// The error in words.
    pub fn message(&self) -> (r: String)
        ensures
            r@ == self.text(),
    {
        let mut out = String::new();
        match self {
            YtdReadError::Resource(e) => {
                out = e.message();
            },
            YtdReadError::NoDictionary => {
                out.append("system section too small for TextureDictionary");
            },
            YtdReadError::NoPointers(va) => {
                out.append("texture pointer array out of bounds (va=0x");
                push_hex_plain(&mut out, *va);
                out.append(")");
            },
        }
        assert(out@ =~= self.text());
        out
    }

    /// The error in words.
    pub open spec fn text(&self) -> Seq<char> {
        match self {
            YtdReadError::Resource(e) => e.text(),
            YtdReadError::NoDictionary => "system section too small for TextureDictionary"@,
            YtdReadError::NoPointers(va) => "texture pointer array out of bounds (va=0x"@
                + crate::text::hex_plain(*va as nat) + ")"@,
        }
    }
}

/// The name at an address, empty where there is none.
pub open spec fn name_at(system: Seq<u8>, va: u64) -> Seq<char> {
    match crate::resource::located(va) {
        Some((Section::System, off)) => match crate::resource::string_in(system, off) {
            Some(t) => t,
            None => Seq::empty(),
        },
        _ => Seq::empty(),
    }
}

/// The texture at an address, `None` where it or its pixels lie outside the
/// file.
pub open spec fn texture_at(system: Seq<u8>, graphics: Seq<u8>, va: u64, name_hash: u32) -> Option<
    TextureView,
> {
    match crate::resource::resolved(system, graphics, va, 0x90) {
        None => None,
        Some(raw) => {
            let height = crate::bytes::le16(raw, 0x52);
            let stride = crate::bytes::le16(raw, 0x56);
            let levels = raw[0x5D];
            let size = game_chain(stride, height, levels as nat);
            let pixels = if size > 0 && crate::bytes::le64(raw, 0x70) != 0 {
                crate::resource::resolved(system, graphics, crate::bytes::le64(raw, 0x70), size)
            } else {
                Some(Seq::empty())
            };
            match pixels {
                None => None,
                Some(pixel_data) => Some(
                    TextureView {
                        name: name_at(system, crate::bytes::le64(raw, 0x28)),
                        name_hash,
                        width: crate::bytes::le16(raw, 0x50),
                        height,
                        depth: crate::bytes::le16(raw, 0x54),
                        format: format_of(crate::bytes::le32(raw, 0x58)),
                        levels,
                        stride,
                        pixel_data,
                    },
                ),
            }
        },
    }
}

/// The hash of texture `i`, zero where the list has none for it.
pub open spec fn listed_hash(hashes: Option<Seq<u8>>, i: int) -> u32 {
    match hashes {
        Some(h) => if 4 * i + 4 <= h.len() {
            crate::bytes::le32(h, 4 * i)
        } else {
            0
        },
        None => 0,
    }
}

/// The first `k` textures of a list, those left out that cannot be read.
pub open spec fn listed_textures(
    system: Seq<u8>,
    graphics: Seq<u8>,
    pointers: Seq<u8>,
    hashes: Option<Seq<u8>>,
    k: nat,
) -> Seq<TextureView>
    decreases k,
{
    if k == 0 {
        Seq::empty()
    } else {
        let before = listed_textures(system, graphics, pointers, hashes, (k - 1) as nat);
        let va = crate::bytes::le64(pointers, 8 * (k - 1));
        if va == 0 {
            before
        } else {
            match texture_at(system, graphics, va, listed_hash(hashes, k - 1)) {
                Some(t) => before.push(t),
                None => before,
            }
        }
    }
}

/// The dictionary at an address.
pub open spec fn dictionary_at(system: Seq<u8>, graphics: Seq<u8>, va: u64) -> Result<
    Seq<TextureView>,
    YtdReadError,
> {
    match crate::resource::resolved(system, graphics, va, 0x40) {
        None => Err(YtdReadError::NoDictionary),
        Some(d) => {
            let hash_count = crate::bytes::le16(d, 0x28);
            let count = crate::bytes::le16(d, 0x38);
            let hashes = if hash_count > 0 {
                crate::resource::resolved(system, graphics, crate::bytes::le64(d, 0x20), hash_count * 4)
            } else {
                None
            };
            if count == 0 {
                Ok(Seq::empty())
            } else {
                match crate::resource::resolved(system, graphics, crate::bytes::le64(d, 0x30), count * 8) {
                    None => Err(YtdReadError::NoPointers(crate::bytes::le64(d, 0x30))),
                    Some(p) => Ok(listed_textures(system, graphics, p, hashes, count as nat)),
                }
            }
        },
    }
}

/// What a file says, given the two sections that it unpacks to.
pub open spec fn read_file(sections: Result<(Seq<u8>, Seq<u8>), ResourceError>) -> Result<
    Seq<TextureView>,
    YtdReadError,
> {
    match sections {
        Ok((system, graphics)) => dictionary_at(system, graphics, SYSTEM_BASE),
        Err(e) => Err(YtdReadError::Resource(e)),
    }
}

/// The outcome of reading a dictionary, as a model.
pub open spec fn viewed(r: Result<Vec<YtdTexture>, YtdReadError>) -> Result<
    Seq<TextureView>,
    YtdReadError,
> {
    match r {
        Ok(t) => Ok(textures_view(t@)),
        Err(e) => Err(e),
    }
}

fn parse_texture(reader: &ResReader, va: u64, name_hash: u32) -> (r: Option<YtdTexture>)
    ensures
        (match r {
            Some(t) => Some(t@),
            None => None,
        }) == texture_at(reader.system@, reader.graphics@, va, name_hash),
{
    let raw = match reader.resolve(va, 0x90) {
        Some(b) => b,
        None => {
            return None;
        },
    };
    let height = u16_le(raw, 0x52);
    let stride = u16_le(raw, 0x56);
    let levels = raw[0x5D];
    let data_ptr = u64_le(raw, 0x70);
    let name = match reader.string_at(u64_le(raw, 0x28)) {
        Some(s) => s,
        None => String::new(),
    };
    assert(name@ =~= name_at(reader.system@, crate::bytes::le64(raw@, 0x28)));
    let size = calc_pixel_data_size(stride, height, levels);
    let pixel_data: Vec<u8> = if size > 0 && data_ptr != 0 {
        if size > usize::MAX as u64 {
            assert(reader.system.len() <= usize::MAX && reader.graphics.len() <= usize::MAX);
            return None;
        }
        match reader.resolve(data_ptr, size as usize) {
            Some(b) => to_vec(b),
            None => {
                return None;
            },
        }
    } else {
        Vec::new()
    };
    Some(
        YtdTexture {
            name,
            name_hash,
            width: u16_le(raw, 0x50),
            height,
            depth: u16_le(raw, 0x54),
            format: TextureFormat::from_u32(u32_le(raw, 0x58)),
            levels,
            stride,
            pixel_data,
        },
    )
}

/// The dictionary at an address.
pub fn parse_texture_dict_at(reader: &ResReader, va: u64) -> (r: Result<
    Vec<YtdTexture>,
    YtdReadError,
>)
    ensures
        viewed(r) == dictionary_at(reader.system@, reader.graphics@, va),
{
    let dict = match reader.resolve(va, 0x40) {
        Some(d) => d,
        None => {
            return Err(YtdReadError::NoDictionary);
        },
    };
    let hash_count = u16_le(dict, 0x28);
    let hashes: Option<&[u8]> = if hash_count > 0 {
        reader.resolve_array(u64_le(dict, 0x20), hash_count as usize, 4)
    } else {
        None
    };
    let mut out: Vec<YtdTexture> = Vec::new();
    assert(textures_view(out@) =~= Seq::<TextureView>::empty());
    let count = u16_le(dict, 0x38);
    if count == 0 {
        return Ok(out);
    }
    let pointers_va = u64_le(dict, 0x30);
    let pointers = match reader.resolve_array(pointers_va, count as usize, 8) {
        Some(p) => p,
        None => {
            return Err(YtdReadError::NoPointers(pointers_va));
        },
    };
    let ghost known = crate::resource::view_of(hashes);
    let mut i: u16 = 0;
    while i < count
        invariant
            i <= count,
            pointers@.len() == 8 * count,
            known == crate::resource::view_of(hashes),
            textures_view(out@) == listed_textures(
                reader.system@,
                reader.graphics@,
                pointers@,
                known,
                i as nat,
            ),
        decreases count - i,
    {
        let ghost before = out@;
        let at = i as usize;
        assert(8 * at + 8 <= pointers.len());
        let tex_va = u64_le(pointers, 8 * at);
        if tex_va != 0 {
            let name_hash: u32 = match hashes {
                Some(h) => if 4 * at + 4 <= h.len() {
                    u32_le(h, 4 * at)
                } else {
                    0
                },
                None => 0,
            };
            match parse_texture(reader, tex_va, name_hash) {
                Some(t) => {
                    let ghost v = t@;
                    out.push(t);
                    assert(textures_view(out@) =~= textures_view(before).push(v));
                },
                None => {},
            }
        }
        i += 1;
    }
    Ok(out)
}

/// Parses a `.ytd` (RSC7 bytes, deflated or stored). A texture that cannot be
/// read is left out.
pub fn parse_ytd(data: &[u8]) -> (r: Result<Vec<YtdTexture>, YtdReadError>)
    ensures
        exists|sections: Result<(Seq<u8>, Seq<u8>), ResourceError>|
            #[trigger] crate::resource::unpacks_to(data@, sections) && viewed(r) == read_file(
                sections,
            ),
{
    let prepared = prepare_rsc7(data);
    let ghost sections = crate::resource::sections_view(prepared);
    assert(crate::resource::unpacks_to(data@, sections));
    match prepared {
        Ok((system, graphics)) => {
            let reader = ResReader { system: system.as_slice(), graphics: graphics.as_slice() };
            parse_texture_dict_at(&reader, SYSTEM_BASE)
        },
        Err(e) => Err(YtdReadError::Resource(e)),
    }
}

} // verus!
