//! DDS (DirectDraw Surface) reader: the inverse of [`YtdTexture::to_dds`].
//!
//! Reads the legacy FourCC / RGB-mask pixel formats and the DX10 extension
//! header, and maps each onto the [`TextureFormat`] the game stores. What
//! comes back is a [`YtdTexture`] with an empty name; the caller names it
//! (a `.ytd` builder uses the file stem).

use vstd::prelude::*;
use vstd::slice::*;
use vstd::string::*;

use crate::bytes::{push_bytes, push_u32_le, to_vec};
use crate::resource::u32_le;
use crate::text::{from_utf8_lossy, push_decimal, push_hex};
use crate::ytd::{
    calc_pixel_data_size, stride_for, to_ytd_layout, wide_chain_size, TextureFormat, TextureView,
    YtdTexture, DX10,
};

verus! {

broadcast use {vstd::slice::group_slice_axioms, crate::bytes::group_subrange_reads};

/// "DDS ", the first four bytes of a DDS file.
pub const DDS_MAGIC: u32 = 0x2053_4444;

/// Why a DDS file could not be read.
#[derive(Debug, Clone, Copy, PartialEq, Eq, Structural)]
pub enum DdsError {
    NotDds,
    HeaderSize(u32),
    NoDx10Header,
    Array(u32),
    Dxgi(u32),
    FourCc(u32),
    Masks { bits: u32, red: u32, green: u32, blue: u32, alpha: u32 },
    Size { width: u32, height: u32 },
    Counts { depth: u32, levels: u32 },
    NotWholeBlocks { format: TextureFormat, width: u32, height: u32 },
    Short {
        have: usize,
        width: u32,
        height: u32,
        format: TextureFormat,
        levels: u32,
        need: u64,
    },
}

impl DdsError {
    /// The error in words.
    pub fn message(&self) -> (r: String)
        ensures
            r@ == self.text(),
    {
        let mut out = String::new();
        match self {
            DdsError::NotDds => {
                out.append("not a DDS file (missing 'DDS ' magic)");
            },
            DdsError::HeaderSize(n) => {
                out.append("DDS header size is ");
                push_decimal(&mut out, *n as u64);
                out.append(", expected 124");
            },
            DdsError::NoDx10Header => {
                out.append("DDS has a DX10 FourCC but no DX10 header");
            },
            DdsError::Array(n) => {
                out.append("DDS texture arrays (");
                push_decimal(&mut out, *n as u64);
                out.append(" layers) are not supported");
            },
            DdsError::Dxgi(n) => {
                out.append("DXGI format ");
                push_decimal(&mut out, *n as u64);
                out.append(" has no RAGE texture format");
            },
            DdsError::FourCc(n) => {
                out.append("DDS FourCC '");
                let mut code: Vec<u8> = Vec::new();
                push_u32_le(&mut code, *n);
                assert(code@ =~= crate::bytes::le32_bytes(*n));
                let name = from_utf8_lossy(code.as_slice());
                out.append(name.as_str());
                out.append("' has no RAGE texture format");
            },
            DdsError::Masks { bits, red, green, blue, alpha } => {
                out.append("DDS pixel format (");
                push_decimal(&mut out, *bits as u64);
                out.append(" bpp, masks R=0x");
                push_hex(&mut out, *red as u64, 8);
                out.append(" G=0x");
                push_hex(&mut out, *green as u64, 8);
                out.append(" B=0x");
                push_hex(&mut out, *blue as u64, 8);
                out.append(" A=0x");
                push_hex(&mut out, *alpha as u64, 8);
                out.append(") has no RAGE texture format");
            },
            DdsError::Size { width, height } => {
                out.append("DDS size ");
                push_decimal(&mut out, *width as u64);
                out.append("x");
                push_decimal(&mut out, *height as u64);
                out.append(" is out of range");
            },
            DdsError::Counts { depth, levels } => {
                out.append("DDS depth ");
                push_decimal(&mut out, *depth as u64);
                out.append(" / mip count ");
                push_decimal(&mut out, *levels as u64);
                out.append(" is out of range");
            },
            DdsError::NotWholeBlocks { format, width, height } => {
                let name = (*format).name();
                out.append(name.as_str());
                out.append(" DDS is ");
                push_decimal(&mut out, *width as u64);
                out.append("x");
                push_decimal(&mut out, *height as u64);
                out.append("; block-compressed sizes must be multiples of 4");
            },
            DdsError::Short { have, width, height, format, levels, need } => {
                out.append("DDS pixel data is ");
                push_decimal(&mut out, *have as u64);
                out.append(" bytes; ");
                push_decimal(&mut out, *width as u64);
                out.append("x");
                push_decimal(&mut out, *height as u64);
                out.append(" ");
                let name = (*format).name();
                out.append(name.as_str());
                out.append(" with ");
                push_decimal(&mut out, *levels as u64);
                out.append(" mip(s) needs ");
                push_decimal(&mut out, *need as u64);
            },
        }
        assert(out@ =~= self.text());
        out
    }

    /// The error in words.
    pub open spec fn text(&self) -> Seq<char> {
        match self {
            DdsError::NotDds => "not a DDS file (missing 'DDS ' magic)"@,
            DdsError::HeaderSize(n) => "DDS header size is "@ + crate::text::decimal(*n as nat) + ", expected 124"@,
            DdsError::NoDx10Header => "DDS has a DX10 FourCC but no DX10 header"@,
            DdsError::Array(n) => "DDS texture arrays ("@ + crate::text::decimal(*n as nat) + " layers) are not supported"@,
            DdsError::Dxgi(n) => "DXGI format "@ + crate::text::decimal(*n as nat) + " has no RAGE texture format"@,
            DdsError::FourCc(n) => "DDS FourCC '"@ + crate::text::lossy_text(crate::bytes::le32_bytes(*n)) + "' has no RAGE texture format"@,
            DdsError::Masks { bits, red, green, blue, alpha } => "DDS pixel format ("@ + crate::text::decimal(*bits as nat) + " bpp, masks R=0x"@ + crate::text::hex(*red as nat, 8) + " G=0x"@ + crate::text::hex(*green as nat, 8) + " B=0x"@ + crate::text::hex(*blue as nat, 8) + " A=0x"@ + crate::text::hex(*alpha as nat, 8) + ") has no RAGE texture format"@,
            DdsError::Size { width, height } => "DDS size "@ + crate::text::decimal(*width as nat) + "x"@ + crate::text::decimal(*height as nat) + " is out of range"@,
            DdsError::Counts { depth, levels } => "DDS depth "@ + crate::text::decimal(*depth as nat) + " / mip count "@ + crate::text::decimal(*levels as nat) + " is out of range"@,
            DdsError::NotWholeBlocks { format, width, height } => crate::ytd::format_name(*format) + " DDS is "@ + crate::text::decimal(*width as nat) + "x"@ + crate::text::decimal(*height as nat) + "; block-compressed sizes must be multiples of 4"@,
            DdsError::Short { have, width, height, format, levels, need } => "DDS pixel data is "@ + crate::text::decimal(*have as nat) + " bytes; "@ + crate::text::decimal(*width as nat) + "x"@ + crate::text::decimal(*height as nat) + " "@ + crate::ytd::format_name(*format) + " with "@ + crate::text::decimal(*levels as nat) + " mip(s) needs "@ + crate::text::decimal(*need as nat),
        }
    }
}

// ─── what a file says ────────────────────────────────────────────────────────

/// The format that a DXGI format number corresponds to.
pub open spec fn dxgi_format(n: u32) -> Option<TextureFormat> {
    if n == 28 || n == 29 {
        Some(TextureFormat::A8B8G8R8)
    } else if n == 87 || n == 91 {
        Some(TextureFormat::A8R8G8B8)
    } else if n == 88 || n == 93 {
        Some(TextureFormat::X8R8G8B8)
    } else if n == 65 {
        Some(TextureFormat::A8)
    } else if n == 61 {
        Some(TextureFormat::L8)
    } else if n == 86 {
        Some(TextureFormat::A1R5G5B5)
    } else if n == 71 || n == 72 {
        Some(TextureFormat::DXT1)
    } else if n == 74 || n == 75 {
        Some(TextureFormat::DXT3)
    } else if n == 77 || n == 78 {
        Some(TextureFormat::DXT5)
    } else if n == 80 {
        Some(TextureFormat::ATI1)
    } else if n == 83 {
        Some(TextureFormat::ATI2)
    } else if n == 98 || n == 99 {
        Some(TextureFormat::BC7)
    } else {
        None
    }
}

/// The format that a FourCC names: "DXT1" to "DXT5", "ATI1" or "BC4U",
/// "ATI2" or "BC5U".
pub open spec fn fourcc_format(n: u32) -> Option<TextureFormat> {
    if n == 0x3154_5844 {
        Some(TextureFormat::DXT1)
    } else if n == 0x3254_5844 || n == 0x3354_5844 {
        Some(TextureFormat::DXT3)
    } else if n == 0x3454_5844 || n == 0x3554_5844 {
        Some(TextureFormat::DXT5)
    } else if n == 0x3149_5441 || n == 0x5534_4342 {
        Some(TextureFormat::ATI1)
    } else if n == 0x3249_5441 || n == 0x5535_4342 {
        Some(TextureFormat::ATI2)
    } else {
        None
    }
}

/// The format that bit masks describe.
pub open spec fn mask_format(flags: u32, bits: u32, r: u32, g: u32, b: u32, a: u32) -> Option<
    TextureFormat,
> {
    let opaque = !(crate::ynv::has_bit(flags as int, 1) && a == 0xFF00_0000);
    if crate::ynv::has_bit(flags as int, 0x40) {
        if bits == 32 && r == 0x00FF_0000 && g == 0x0000_FF00 && b == 0x0000_00FF {
            if opaque {
                Some(TextureFormat::X8R8G8B8)
            } else {
                Some(TextureFormat::A8R8G8B8)
            }
        } else if bits == 32 && r == 0x0000_00FF && g == 0x0000_FF00 && b == 0x00FF_0000
            && !opaque {
            Some(TextureFormat::A8B8G8R8)
        } else if bits == 16 && r == 0x7C00 && g == 0x03E0 && b == 0x001F {
            Some(TextureFormat::A1R5G5B5)
        } else {
            None
        }
    } else if crate::ynv::has_bit(flags as int, 0x2_0000) && bits == 8 {
        Some(TextureFormat::L8)
    } else if (crate::ynv::has_bit(flags as int, 2) || crate::ynv::has_bit(flags as int, 1)) && bits == 8 && r == 0 && g
        == 0 && b == 0 {
        Some(TextureFormat::A8)
    } else {
        None
    }
}

/// The format of a file and where its pixels start.
pub open spec fn format_in(d: Seq<u8>) -> Result<(TextureFormat, int), DdsError> {
    let flags = crate::bytes::le32(d, 80);
    let fourcc = crate::bytes::le32(d, 84);
    if crate::ynv::has_bit(flags as int, 4) && fourcc == DX10 {
        if d.len() < 148 {
            Err(DdsError::NoDx10Header)
        } else if crate::bytes::le32(d, 140) > 1 {
            Err(DdsError::Array(crate::bytes::le32(d, 140)))
        } else {
            match dxgi_format(crate::bytes::le32(d, 128)) {
                Some(f) => Ok((f, 148)),
                None => Err(DdsError::Dxgi(crate::bytes::le32(d, 128))),
            }
        }
    } else if crate::ynv::has_bit(flags as int, 4) {
        match fourcc_format(fourcc) {
            Some(f) => Ok((f, 128)),
            None => Err(DdsError::FourCc(fourcc)),
        }
    } else {
        let bits = crate::bytes::le32(d, 88);
        let (r, g, b, a) = (crate::bytes::le32(d, 92), crate::bytes::le32(d, 96), crate::bytes::le32(d, 100), crate::bytes::le32(d, 104));
        match mask_format(flags, bits, r, g, b, a) {
            Some(f) => Ok((f, 128)),
            None => Err(DdsError::Masks { bits, red: r, green: g, blue: b, alpha: a }),
        }
    }
}

/// A number that the header has where a bit of its flags is set, one at
/// least, and one where it is not.
pub open spec fn optional_count(d: Seq<u8>, weight: int, at: int) -> u32 {
    if crate::ynv::has_bit(crate::bytes::le32(d, 8) as int, weight) && crate::bytes::le32(d, at) >= 1 {
        crate::bytes::le32(d, at)
    } else {
        1
    }
}

/// The first `n` slices of a body that holds a whole chain for each, laid out
/// as the game stores them.
pub open spec fn slices_of(
    f: TextureFormat,
    width: u16,
    height: u16,
    levels: u8,
    body: Seq<u8>,
    n: nat,
) -> Seq<u8>
    decreases n,
{
    if n == 0 {
        Seq::empty()
    } else {
        let size = crate::ytd::dds_chain(f, width, height, levels as nat);
        slices_of(f, width, height, levels, body, (n - 1) as nat) + crate::ytd::game_layout(
            f,
            width,
            height,
            crate::ytd::stride_of(f, width, height),
            body.subrange((n - 1) * size, (n - 1) * size + size),
            levels as nat,
        )
    }
}

/// The texture of `depth` slices whose pixels are `body`: every mip level of
/// every slice as DirectX lays a DDS out, or the game's own sizes (levels
/// below one block cut short) as some exports write them.
pub open spec fn pixels_of(
    f: TextureFormat,
    width: u16,
    height: u16,
    depth: u16,
    levels: u8,
    body: Seq<u8>,
) -> Result<Seq<u8>, DdsError> {
    let stride = crate::ytd::stride_of(f, width, height);
    let expected = crate::ytd::dds_chain(f, width, height, levels as nat) * depth;
    let game = crate::ytd::game_chain(stride, height, levels as nat) * depth;
    if body.len() >= expected {
        Ok(slices_of(f, width, height, levels, body, depth as nat))
    } else if body.len() >= game {
        Ok(body.take(game))
    } else {
        Err(
            DdsError::Short {
                have: body.len() as usize,
                width: width as u32,
                height: height as u32,
                format: f,
                levels: levels as u32,
                need: expected as u64,
            },
        )
    }
}

/// The texture in a DDS file.
pub open spec fn parsed(d: Seq<u8>) -> Result<TextureView, DdsError> {
    if d.len() < 128 || crate::bytes::le32(d, 0) != DDS_MAGIC {
        Err(DdsError::NotDds)
    } else if crate::bytes::le32(d, 4) != 124 {
        Err(DdsError::HeaderSize(crate::bytes::le32(d, 4)))
    } else {
        let height = crate::bytes::le32(d, 12);
        let width = crate::bytes::le32(d, 16);
        let depth = optional_count(d, 0x80_0000, 24);
        let levels = optional_count(d, 0x2_0000, 28);
        match format_in(d) {
            Err(e) => Err(e),
            Ok((f, start)) => if width == 0 || height == 0 || width > 0xFFFF || height > 0xFFFF {
                Err(DdsError::Size { width, height })
            } else if depth > 0xFFFF || levels > 0xFF {
                Err(DdsError::Counts { depth, levels })
            } else if crate::ytd::in_blocks(f) && (width % 4 != 0 || height % 4 != 0) {
                Err(DdsError::NotWholeBlocks { format: f, width, height })
            } else {
                match pixels_of(
                    f,
                    width as u16,
                    height as u16,
                    depth as u16,
                    levels as u8,
                    d.skip(start),
                ) {
                    Err(e) => Err(e),
                    Ok(pixel_data) => Ok(
                        TextureView {
                            name: Seq::empty(),
                            name_hash: 0,
                            width: width as u16,
                            height: height as u16,
                            depth: depth as u16,
                            format: f,
                            levels: levels as u8,
                            stride: crate::ytd::stride_of(f, width as u16, height as u16),
                            pixel_data,
                        },
                    ),
                }
            },
        }
    }
}

// ─── reading ─────────────────────────────────────────────────────────────────

fn bit(word: u32, weight: u32) -> (r: bool)
    requires
        weight > 0,
    ensures
        r == crate::ynv::has_bit(word as int, weight as int),
{
    word / weight % 2 == 1
}

fn format_from_dxgi(n: u32) -> (r: Option<TextureFormat>)
    ensures
        r == dxgi_format(n),
{
    if n == 28 || n == 29 {
        Some(TextureFormat::A8B8G8R8)
    } else if n == 87 || n == 91 {
        Some(TextureFormat::A8R8G8B8)
    } else if n == 88 || n == 93 {
        Some(TextureFormat::X8R8G8B8)
    } else if n == 65 {
        Some(TextureFormat::A8)
    } else if n == 61 {
        Some(TextureFormat::L8)
    } else if n == 86 {
        Some(TextureFormat::A1R5G5B5)
    } else if n == 71 || n == 72 {
        Some(TextureFormat::DXT1)
    } else if n == 74 || n == 75 {
        Some(TextureFormat::DXT3)
    } else if n == 77 || n == 78 {
        Some(TextureFormat::DXT5)
    } else if n == 80 {
        Some(TextureFormat::ATI1)
    } else if n == 83 {
        Some(TextureFormat::ATI2)
    } else if n == 98 || n == 99 {
        Some(TextureFormat::BC7)
    } else {
        None
    }
}

fn format_from_fourcc(n: u32) -> (r: Option<TextureFormat>)
    ensures
        r == fourcc_format(n),
{
    if n == 0x3154_5844 {
        Some(TextureFormat::DXT1)
    } else if n == 0x3254_5844 || n == 0x3354_5844 {
        Some(TextureFormat::DXT3)
    } else if n == 0x3454_5844 || n == 0x3554_5844 {
        Some(TextureFormat::DXT5)
    } else if n == 0x3149_5441 || n == 0x5534_4342 {
        Some(TextureFormat::ATI1)
    } else if n == 0x3249_5441 || n == 0x5535_4342 {
        Some(TextureFormat::ATI2)
    } else {
        None
    }
}

fn format_from_masks(flags: u32, bits: u32, r: u32, g: u32, b: u32, a: u32) -> (f: Option<
    TextureFormat,
>)
    ensures
        f == mask_format(flags, bits, r, g, b, a),
{
    let opaque = !(bit(flags, 1) && a == 0xFF00_0000);
    if bit(flags, 0x40) {
        if bits == 32 && r == 0x00FF_0000 && g == 0x0000_FF00 && b == 0x0000_00FF {
            if opaque {
                Some(TextureFormat::X8R8G8B8)
            } else {
                Some(TextureFormat::A8R8G8B8)
            }
        } else if bits == 32 && r == 0x0000_00FF && g == 0x0000_FF00 && b == 0x00FF_0000
            && !opaque {
            Some(TextureFormat::A8B8G8R8)
        } else if bits == 16 && r == 0x7C00 && g == 0x03E0 && b == 0x001F {
            Some(TextureFormat::A1R5G5B5)
        } else {
            None
        }
    } else if bit(flags, 0x2_0000) && bits == 8 {
        Some(TextureFormat::L8)
    } else if (bit(flags, 2) || bit(flags, 1)) && bits == 8 && r == 0 && g == 0 && b == 0 {
        Some(TextureFormat::A8)
    } else {
        None
    }
}

fn read_format(data: &[u8]) -> (r: Result<(TextureFormat, usize), DdsError>)
    requires
        data@.len() >= 128,
    ensures
        (match r {
            Ok((f, n)) => Ok::<(TextureFormat, int), DdsError>((f, n as int)),
            Err(e) => Err(e),
        }) == format_in(data@),
        r is Ok ==> r->Ok_0.1 <= data@.len(),
{
    let flags = u32_le(data, 80);
    let fourcc = u32_le(data, 84);
    if bit(flags, 4) && fourcc == DX10 {
        if data.len() < 148 {
            return Err(DdsError::NoDx10Header);
        }
        let layers = u32_le(data, 140);
        if layers > 1 {
            return Err(DdsError::Array(layers));
        }
        let dxgi = u32_le(data, 128);
        match format_from_dxgi(dxgi) {
            Some(f) => Ok((f, 148)),
            None => Err(DdsError::Dxgi(dxgi)),
        }
    } else if bit(flags, 4) {
        match format_from_fourcc(fourcc) {
            Some(f) => Ok((f, 128)),
            None => Err(DdsError::FourCc(fourcc)),
        }
    } else {
        let bits = u32_le(data, 88);
        let red = u32_le(data, 92);
        let green = u32_le(data, 96);
        let blue = u32_le(data, 100);
        let alpha = u32_le(data, 104);
        match format_from_masks(flags, bits, red, green, blue, alpha) {
            Some(f) => Ok((f, 128)),
            None => Err(DdsError::Masks { bits, red, green, blue, alpha }),
        }
    }
}

fn read_count(data: &[u8], weight: u32, at: usize) -> (r: u32)
    requires
        data@.len() >= 128,
        weight > 0,
        at <= 28,
    ensures
        r == optional_count(data@, weight as int, at as int),
        r >= 1,
{
    let n = u32_le(data, at);
    if bit(u32_le(data, 8), weight) && n >= 1 {
        n
    } else {
        1
    }
}

fn read_slices(
    f: TextureFormat,
    width: u16,
    height: u16,
    depth: u16,
    levels: u8,
    body: &[u8],
    size: u64,
) -> (out: Vec<u8>)
    requires
        size == crate::ytd::dds_chain(f, width, height, levels as nat),
        size * depth <= body@.len(),
    ensures
        out@ == slices_of(f, width, height, levels, body@, depth as nat),
{
    let stride = stride_for(f, width, height);
    let mut out: Vec<u8> = Vec::new();
    let mut at: u64 = 0;
    let mut n: u16 = 0;
    let held = body.len();
    assert(0 * size == 0);
    while n < depth
        invariant
            n <= depth,
            at == n * size,
            size == crate::ytd::dds_chain(f, width, height, levels as nat),
            size * depth <= body@.len(),
            held == body@.len(),
            stride == crate::ytd::stride_of(f, width, height),
            out@ == slices_of(f, width, height, levels, body@, n as nat),
        decreases depth - n,
    {
        assert((n + 1) * size == n * size + size && (n + 1) * size <= size * depth)
            by (nonlinear_arith)
            requires
                0 <= n < depth,
                size >= 0,
        ;
        let part = slice_subrange(body, at as usize, (at + size) as usize);
        assert(part@ == body@.subrange(n * size, n * size + size));
        let slice = to_ytd_layout(f, width, height, stride, levels, part);
        push_bytes(&mut out, slice.as_slice());
        at = at + size;
        n += 1;
    }
    out
}

fn read_pixels(
    f: TextureFormat,
    width: u16,
    height: u16,
    depth: u16,
    levels: u8,
    body: &[u8],
) -> (r: Result<Vec<u8>, DdsError>)
    ensures
        (match r {
            Ok(b) => Ok::<Seq<u8>, DdsError>(b@),
            Err(e) => Err(e),
        }) == pixels_of(f, width, height, depth, levels, body@),
{
    let stride = stride_for(f, width, height);
    let one = wide_chain_size(f, width, height, levels);
    let small = calc_pixel_data_size(stride, height, levels);
    assert(one * depth <= 0x4_0000_0000 * 0xFF * 0xFFFF && small * depth <= 0x1_0000_0000 * 0xFF
        * 0xFFFF) by (nonlinear_arith)
        requires
            one <= 0x4_0000_0000 * 0xFF,
            small <= 0x1_0000_0000 * 0xFF,
            depth <= 0xFFFF,
    ;
    let expected: u64 = one * depth as u64;
    let game: u64 = small * depth as u64;
    let len = body.len() as u64;
    if len >= expected {
        Ok(read_slices(f, width, height, depth, levels, body, one))
    } else if len >= game {
        let part = slice_subrange(body, 0, game as usize);
        assert(part@ =~= body@.take(game as int));
        Ok(to_vec(part))
    } else {
        Err(
            DdsError::Short {
                have: body.len(),
                width: width as u32,
                height: height as u32,
                format: f,
                levels: levels as u32,
                need: expected,
            },
        )
    }
}

/// The outcome of reading a file, as a model.
pub open spec fn viewed(r: Result<YtdTexture, DdsError>) -> Result<TextureView, DdsError> {
    match r {
        Ok(t) => Ok(t@),
        Err(e) => Err(e),
    }
}

/// Parses a DDS file into a nameless [`YtdTexture`]: the pixel data is kept
/// as the file holds it (every mip level of every slice, top first), `stride` and `levels`
/// are set the way the game stores them.
pub fn parse_dds(data: &[u8]) -> (r: Result<YtdTexture, DdsError>)
    ensures
        viewed(r) == parsed(data@),
{
    if data.len() < 128 || u32_le(data, 0) != DDS_MAGIC {
        return Err(DdsError::NotDds);
    }
    let header_size = u32_le(data, 4);
    if header_size != 124 {
        return Err(DdsError::HeaderSize(header_size));
    }
    let height = u32_le(data, 12);
    let width = u32_le(data, 16);
    let depth = read_count(data, 0x80_0000, 24);
    let levels = read_count(data, 0x2_0000, 28);
    let (format, start) = match read_format(data) {
        Ok(x) => x,
        Err(e) => {
            return Err(e);
        },
    };
    if width == 0 || height == 0 || width > 0xFFFF || height > 0xFFFF {
        return Err(DdsError::Size { width, height });
    }
    if depth > 0xFFFF || levels > 0xFF {
        return Err(DdsError::Counts { depth, levels });
    }
    if format.is_block_compressed() && (width % 4 != 0 || height % 4 != 0) {
        return Err(DdsError::NotWholeBlocks { format, width, height });
    }
    let body = slice_subrange(data, start, data.len());
    assert(body@ =~= data@.skip(start as int));
    match read_pixels(format, width as u16, height as u16, depth as u16, levels as u8, body) {
        Err(e) => Err(e),
        Ok(pixel_data) => {
            let name = String::new();
            assert(name@ =~= Seq::<char>::empty());
            Ok(
                YtdTexture {
                    name,
                    name_hash: 0,
                    width: width as u16,
                    height: height as u16,
                    depth: depth as u16,
                    format,
                    levels: levels as u8,
                    stride: stride_for(format, width as u16, height as u16),
                    pixel_data,
                },
            )
        },
    }
}

// ─── reading what was written ────────────────────────────────────────────────

/// Whether a texture can be told from the DDS file it makes: its format is
/// known, its size is not zero and comes in whole blocks, its stride is the
/// one for its size, and its pixels are the whole chain, no level of which is
/// smaller in a DDS than the game stores it.
pub open spec fn writable(t: TextureView) -> bool {
    &&& t.format != TextureFormat::Unknown
    &&& t.width > 0
    &&& t.height > 0
    &&& crate::ytd::in_blocks(t.format) ==> t.width % 4 == 0 && t.height % 4 == 0
    &&& t.levels > 0
    &&& t.stride == crate::ytd::stride_of(t.format, t.width, t.height)
    &&& t.pixel_data.len() == crate::ytd::game_chain(t.stride, t.height, t.levels as nat)
    &&& crate::ytd::levels_fit(t.format, t.width, t.height, t.stride, t.levels as nat)
}

proof fn lemma_header_words(t: TextureView)
    ensures
        ({
            let h = crate::ytd::dds_header(t);
            &&& h.len() == 128
            &&& crate::bytes::le32(h, 0) == DDS_MAGIC
            &&& crate::bytes::le32(h, 4) == 124
            &&& crate::bytes::le32(h, 8) == crate::ytd::dds_flags(t)
            &&& crate::bytes::le32(h, 12) == t.height
            &&& crate::bytes::le32(h, 16) == t.width
            &&& crate::bytes::le32(h, 28) == t.levels
        }),
{
    let h = crate::ytd::dds_header(t);
    let f = crate::ytd::dds_front(t);
    assert(f.len() == 76);
    crate::bytes::law_u32_round_trip(0x2053_4444);
    crate::bytes::law_u32_round_trip(124);
    crate::bytes::law_u32_round_trip(crate::ytd::dds_flags(t));
    crate::bytes::law_u32_round_trip(t.height as u32);
    crate::bytes::law_u32_round_trip(t.width as u32);
    crate::bytes::law_u32_round_trip(t.levels as u32);
    assert(forall|i: int| 0 <= i < 76 ==> h[i] == f[i]);
    assert(f.subrange(0, 4) =~= crate::bytes::le32_bytes(0x2053_4444));
    assert(f.subrange(4, 8) =~= crate::bytes::le32_bytes(124));
    assert(f.subrange(8, 12) =~= crate::bytes::le32_bytes(crate::ytd::dds_flags(t)));
    assert(f.subrange(12, 16) =~= crate::bytes::le32_bytes(t.height as u32));
    assert(f.subrange(16, 20) =~= crate::bytes::le32_bytes(t.width as u32));
    assert(f.subrange(28, 32) =~= crate::bytes::le32_bytes(t.levels as u32));
}

proof fn lemma_format_words(t: TextureView)
    ensures
        ({
            let h = crate::ytd::dds_header(t);
            let m = crate::ytd::masks_of(t.format);
            &&& crate::bytes::le32(h, 80) == (if crate::ytd::in_blocks(t.format) {
                4
            } else {
                m.0
            })
            &&& crate::bytes::le32(h, 84) == (if t.format == TextureFormat::BC7 {
                DX10
            } else if crate::ytd::in_blocks(t.format) {
                crate::ytd::format_code(t.format)
            } else {
                0
            })
            &&& crate::bytes::le32(h, 88) == m.1
            &&& crate::bytes::le32(h, 92) == m.2
            &&& crate::bytes::le32(h, 96) == m.3
            &&& crate::bytes::le32(h, 100) == m.4
            &&& crate::bytes::le32(h, 104) == m.5
        }),
{
    let h = crate::ytd::dds_header(t);
    let f = crate::ytd::dds_front(t);
    let p = crate::ytd::pixel_format(t.format);
    let m = crate::ytd::masks_of(t.format);
    assert(f.len() == 76);
    assert(p.len() == 32);
    assert(forall|i: int| 0 <= i < 32 ==> h[76 + i] == p[i]);
    let a: u32 = if crate::ytd::in_blocks(t.format) {
        4
    } else {
        m.0
    };
    let c: u32 = if t.format == TextureFormat::BC7 {
        DX10
    } else if crate::ytd::in_blocks(t.format) {
        crate::ytd::format_code(t.format)
    } else {
        0
    };
    crate::bytes::law_u32_round_trip(a);
    crate::bytes::law_u32_round_trip(c);
    crate::bytes::law_u32_round_trip(m.1);
    crate::bytes::law_u32_round_trip(m.2);
    crate::bytes::law_u32_round_trip(m.3);
    crate::bytes::law_u32_round_trip(m.4);
    crate::bytes::law_u32_round_trip(m.5);
    assert(h.subrange(80, 84) =~= crate::bytes::le32_bytes(a));
    assert(h.subrange(84, 88) =~= crate::bytes::le32_bytes(c));
    assert(h.subrange(88, 92) =~= crate::bytes::le32_bytes(m.1));
    assert(h.subrange(92, 96) =~= crate::bytes::le32_bytes(m.2));
    assert(h.subrange(96, 100) =~= crate::bytes::le32_bytes(m.3));
    assert(h.subrange(100, 104) =~= crate::bytes::le32_bytes(m.4));
    assert(h.subrange(104, 108) =~= crate::bytes::le32_bytes(m.5));
}

proof fn lemma_dx10_words()
    ensures
        crate::ytd::dx10_header().len() == 20,
        crate::bytes::le32(crate::ytd::dx10_header(), 0) == 98,
        crate::bytes::le32(crate::ytd::dx10_header(), 12) == 1,
{
    let h = crate::ytd::dx10_header();
    crate::bytes::law_u32_round_trip(98);
    crate::bytes::law_u32_round_trip(1);
    assert(h.subrange(0, 4) =~= crate::bytes::le32_bytes(98));
    assert(h.subrange(12, 16) =~= crate::bytes::le32_bytes(1));
}

proof fn lemma_flag_bits(t: TextureView)
    ensures
        crate::ynv::has_bit(crate::ytd::dds_flags(t) as int, 0x2_0000) == (t.levels > 1),
        !crate::ynv::has_bit(crate::ytd::dds_flags(t) as int, 0x80_0000),
{
}

/// Reading the DDS file of a texture gives the texture back, but for its name
/// and its depth, which the file does not say.
#[verifier::rlimit(60)]
pub proof fn law_dds_round_trip(t: TextureView)
    requires
        writable(t),
    ensures
        parsed(crate::ytd::dds_file(t)) == Ok::<TextureView, DdsError>(
            TextureView { name: Seq::empty(), name_hash: 0, depth: 1, ..t },
        ),
{
    let d = crate::ytd::dds_file(t);
    let h = crate::ytd::dds_header(t);
    let body = crate::ytd::dds_layout(t.format, t.width, t.height, t.stride, t.pixel_data, t.levels as nat);
    lemma_header_words(t);
    lemma_format_words(t);
    lemma_dx10_words();
    lemma_flag_bits(t);
    let extra = if t.format == TextureFormat::BC7 {
        crate::ytd::dx10_header()
    } else {
        Seq::empty()
    };
    assert(d == h + extra + body);
    let start: int = 128int + extra.len();
    assert(d.skip(start) =~= body);
    assert(forall|i: int| 0 <= i < 128 ==> d[i] == h[i]);
    assert(format_in(d) == Ok::<(TextureFormat, int), DdsError>((t.format, start))) by {
        if t.format == TextureFormat::BC7 {
            assert(forall|i: int| 0 <= i < 20 ==> d[128 + i] == extra[i]);
        }
    }
    assert(optional_count(d, 0x80_0000, 24) == 1);
    assert(optional_count(d, 0x2_0000, 28) == t.levels);
    crate::ytd::law_layouts_have_chain_size(
        t.format,
        t.width,
        t.height,
        t.stride,
        t.pixel_data,
        t.levels as nat,
    );
    crate::ytd::law_layouts_are_inverse(
        t.format,
        t.width,
        t.height,
        t.stride,
        t.pixel_data,
        t.levels as nat,
    );
    let size = crate::ytd::dds_chain(t.format, t.width, t.height, t.levels as nat);
    assert(size == body.len());
    assert(size * 1 == size && 0 * size == 0) by (nonlinear_arith);
    assert(body.subrange(0, body.len() as int) =~= body);
    reveal_with_fuel(slices_of, 2);
    assert(slices_of(t.format, t.width, t.height, t.levels, body, 1) =~= t.pixel_data);
}

} // verus!
