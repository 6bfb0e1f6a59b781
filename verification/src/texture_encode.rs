//! Image → texture encoding: RGBA8 pixels to a block-compressed (or plain
//! 32-bit) [`YtdTexture`] with a full mip chain, ready for a `.ytd` or a
//! `.dds`. Built on the pure-Rust `rusty_dds` encoder.

use vstd::prelude::*;
use vstd::slice::*;
use vstd::string::*;

use crate::chars::{same_chars, to_lower};
use crate::hash::rage_joaat;
use crate::text::{chars_of, push_decimal, to_lowercase};
use crate::ytd::{
    full_mip_count, stride_for, wide_chain_size, TextureFormat, TextureView, YtdTexture,
};

verus! {

broadcast use vstd::slice::group_slice_axioms;

/// The formats a texture can be encoded to.
#[derive(Debug, Clone, Copy, PartialEq, Eq, Structural)]
pub enum EncodeFormat {
    /// DXT1: 4 bpp, 1-bit alpha at most. The default for opaque images.
    Bc1,
    /// DXT5: 8 bpp with smooth alpha. The default for images with alpha.
    Bc3,
    /// ATI1: single channel, 4 bpp (the red channel is kept).
    Bc4,
    /// ATI2: two channels, 8 bpp; what the game uses for normal maps.
    Bc5,
    /// 8 bpp, best quality of the block formats.
    Bc7,
    /// A8R8G8B8, uncompressed.
    Rgba8,
}

/// The format that a name stands for, the name in lower case.
pub open spec fn format_named(s: Seq<char>) -> Option<EncodeFormat> {
    if s == "bc1"@ || s == "dxt1"@ {
        Some(EncodeFormat::Bc1)
    } else if s == "bc3"@ || s == "dxt5"@ {
        Some(EncodeFormat::Bc3)
    } else if s == "bc4"@ || s == "ati1"@ {
        Some(EncodeFormat::Bc4)
    } else if s == "bc5"@ || s == "ati2"@ {
        Some(EncodeFormat::Bc5)
    } else if s == "bc7"@ {
        Some(EncodeFormat::Bc7)
    } else if s == "rgba"@ || s == "rgba8"@ || s == "a8r8g8b8"@ || s == "none"@ {
        Some(EncodeFormat::Rgba8)
    } else {
        None
    }
}

/// The texture format that an encoding makes.
pub open spec fn made_format(f: EncodeFormat) -> TextureFormat {
    match f {
        EncodeFormat::Bc1 => TextureFormat::DXT1,
        EncodeFormat::Bc3 => TextureFormat::DXT5,
        EncodeFormat::Bc4 => TextureFormat::ATI1,
        EncodeFormat::Bc5 => TextureFormat::ATI2,
        EncodeFormat::Bc7 => TextureFormat::BC7,
        EncodeFormat::Rgba8 => TextureFormat::A8R8G8B8,
    }
}

fn lower_chars(s: &str) -> (r: Vec<char>)
    ensures
        r@ == crate::chars::lowered(s@),
{
    let cs = chars_of(s);
    let mut out: Vec<char> = Vec::new();
    let mut i: usize = 0;
    while i < cs.len()
        invariant
            i <= cs@.len(),
            out@.len() == i,
            forall|k: int| 0 <= k < i ==> #[trigger] out@[k] == crate::chars::lower(cs@[k]),
        decreases cs@.len() - i,
    {
        out.push(to_lower(cs[i]));
        i += 1;
    }
    assert(out@ =~= crate::chars::lowered(s@));
    out
}

fn is_word(s: &Vec<char>, word: &str) -> (r: bool)
    ensures
        r == (s@ == word@),
{
    let w = chars_of(word);
    same_chars(s.as_slice(), w.as_slice())
}

impl EncodeFormat {
    /// Accepts the BC names and the game's own (`dxt1`, `dxt5`, `ati2`...),
    /// case-insensitively.
    pub fn parse(s: &str) -> (r: Option<Self>)
        ensures
            r == format_named(crate::chars::lowered(s@)),
    {
        let t = lower_chars(s);
        if is_word(&t, "bc1") || is_word(&t, "dxt1") {
            Some(Self::Bc1)
        } else if is_word(&t, "bc3") || is_word(&t, "dxt5") {
            Some(Self::Bc3)
        } else if is_word(&t, "bc4") || is_word(&t, "ati1") {
            Some(Self::Bc4)
        } else if is_word(&t, "bc5") || is_word(&t, "ati2") {
            Some(Self::Bc5)
        } else if is_word(&t, "bc7") {
            Some(Self::Bc7)
        } else if is_word(&t, "rgba") || is_word(&t, "rgba8") || is_word(&t, "a8r8g8b8")
            || is_word(&t, "none") {
            Some(Self::Rgba8)
        } else {
            None
        }
    }

    pub fn texture_format(self) -> (r: TextureFormat)
        ensures
            r == made_format(self),
    {
        match self {
            Self::Bc1 => TextureFormat::DXT1,
            Self::Bc3 => TextureFormat::DXT5,
            Self::Bc4 => TextureFormat::ATI1,
            Self::Bc5 => TextureFormat::ATI2,
            Self::Bc7 => TextureFormat::BC7,
            Self::Rgba8 => TextureFormat::A8R8G8B8,
        }
    }
}

impl EncodeFormat {
    /// The name of the format.
    pub fn message(&self) -> (r: String)
        ensures
            r@ == self.text(),
    {
        let mut out = String::new();
        match self {
            EncodeFormat::Bc1 => {
                out.append("bc1");
            },
            EncodeFormat::Bc3 => {
                out.append("bc3");
            },
            EncodeFormat::Bc4 => {
                out.append("bc4");
            },
            EncodeFormat::Bc5 => {
                out.append("bc5");
            },
            EncodeFormat::Bc7 => {
                out.append("bc7");
            },
            EncodeFormat::Rgba8 => {
                out.append("rgba8");
            },
        }
        assert(out@ =~= self.text());
        out
    }

    /// The name of the format.
    pub open spec fn text(&self) -> Seq<char> {
        match self {
            EncodeFormat::Bc1 => "bc1"@,
            EncodeFormat::Bc3 => "bc3"@,
            EncodeFormat::Bc4 => "bc4"@,
            EncodeFormat::Bc5 => "bc5"@,
            EncodeFormat::Bc7 => "bc7"@,
            EncodeFormat::Rgba8 => "rgba8"@,
        }
    }
}

// ─── choosing a format ───────────────────────────────────────────────────────

/// `s` without the digit at its end, where there is one.
pub open spec fn without_digit(s: Seq<char>) -> Seq<char> {
    if s.len() > 0 && '0' <= s.last() <= '9' {
        s.drop_last()
    } else {
        s
    }
}

/// Whether `s` ends with `suffix`.
pub open spec fn ends(s: Seq<char>, suffix: Seq<char>) -> bool {
    s.len() >= suffix.len() && s.skip(s.len() - suffix.len()) == suffix
}

/// Whether a name marks a normal map, a digit at its end aside.
pub open spec fn marks_normals(name: Seq<char>) -> bool {
    let lower = crate::chars::lowered(name);
    let stem = without_digit(lower);
    ends(stem, "_n"@) || ends(stem, "_nrm"@) || ends(stem, "_normal"@) || ends(stem, "_nm"@)
}

/// Whether pixel `k` is not fully opaque.
pub open spec fn is_clear(rgba: Seq<u8>, k: int) -> bool {
    rgba[4 * k + 3] != 255
}

/// The format to use when none is asked for.
pub open spec fn default_format(name: Seq<char>, rgba: Seq<u8>) -> EncodeFormat {
    if marks_normals(name) {
        EncodeFormat::Bc5
    } else if exists|k: int| 0 <= k < rgba.len() as int / 4 && #[trigger] is_clear(rgba, k) {
        EncodeFormat::Bc3
    } else {
        EncodeFormat::Bc1
    }
}

fn ends_with(s: &[char], suffix: &str) -> (r: bool)
    ensures
        r == ends(s@, suffix@),
{
    let w = chars_of(suffix);
    if s.len() < w.len() {
        return false;
    }
    let tail = slice_subrange(s, s.len() - w.len(), s.len());
    assert(tail@ =~= s@.skip(s@.len() - w@.len()));
    same_chars(tail, w.as_slice())
}

/// Whether a texture name marks a normal map (`_n`, `_nrm`, `_normal`,
/// `_nm`, with or without a trailing digit as in `_n2`).
pub fn is_normal_map_name(name: &str) -> (r: bool)
    ensures
        r == marks_normals(name@),
{
    let lower = lower_chars(name);
    let n = lower.len();
    let j: usize = if n > 0 && '0' <= lower[n - 1] && lower[n - 1] <= '9' {
        n - 1
    } else {
        n
    };
    let stem = slice_subrange(lower.as_slice(), 0, j);
    assert(stem@ =~= without_digit(lower@));
    ends_with(stem, "_n") || ends_with(stem, "_nrm") || ends_with(stem, "_normal") || ends_with(
        stem,
        "_nm",
    )
}

/// The format to use when none is asked for: BC5 for a normal map (by
/// name), BC3 when any pixel is not fully opaque, BC1 otherwise.
pub fn auto_format(name: &str, rgba: &[u8]) -> (r: EncodeFormat)
    ensures
        r == default_format(name@, rgba@),
{
    if is_normal_map_name(name) {
        return EncodeFormat::Bc5;
    }
    let n = rgba.len() / 4;
    let mut k: usize = 0;
    while k < n
        invariant
            n == rgba@.len() / 4,
            k <= n,
            !marks_normals(name@),
            forall|j: int| 0 <= j < k ==> !#[trigger] is_clear(rgba@, j),
        decreases n - k,
    {
        assert(4 * k + 3 < rgba.len());
        if rgba[4 * k + 3] != 255 {
            assert(is_clear(rgba@, k as int));
            return EncodeFormat::Bc3;
        }
        k += 1;
    }
    EncodeFormat::Bc1
}

// ─── encoding ────────────────────────────────────────────────────────────────

/// What the encoder gave.
#[derive(Debug, PartialEq, Eq)]
pub enum Encoded {
    /// The levels, one after the other.
    Data(Vec<u8>),
    /// It refused the pixels.
    Refused(String),
    /// Its result could not be read.
    Unread(String),
}

/// The model of [`Encoded`].
#[verifier::ext_equal]
pub enum EncodedView {
    Data(Seq<u8>),
    Refused(Seq<char>),
    Unread(Seq<char>),
}

impl View for Encoded {
    type V = EncodedView;

    open spec fn view(&self) -> EncodedView {
        match self {
            Encoded::Data(b) => EncodedView::Data(b@),
            Encoded::Refused(s) => EncodedView::Refused(s@),
            Encoded::Unread(s) => EncodedView::Unread(s@),
        }
    }
}

/// What `rusty_dds` makes of RGBA8 pixels in a format, with that width,
/// height and number of levels.
pub uninterp spec fn encoded(
    rgba: Seq<u8>,
    format: EncodeFormat,
    width: u32,
    height: u32,
    levels: u8,
) -> EncodedView;

/// `rusty_dds::Dds::encode_from_rgba8` on a flat layout, and `get_data` of
/// the first layer of what it gives. The crate promises the same bytes for
/// the same pixels on every machine; sizes of up to 65535 by 65535, with all
/// their pixels there, are within what it can compute.
#[verifier::external_body]
fn encode(rgba: &[u8], format: EncodeFormat, width: u32, height: u32, levels: u8) -> (r: Encoded)
    requires
        0 < width <= 0xFFFF,
        0 < height <= 0xFFFF,
        rgba@.len() == 4 * (width * height),
        levels > 0,
    ensures
        r@ == encoded(rgba@, format, width, height, levels),
{
    let content = match format {
        EncodeFormat::Bc1 => rusty_dds::DecodeContent::Bc1,
        EncodeFormat::Bc3 => rusty_dds::DecodeContent::Bc3,
        EncodeFormat::Bc4 => rusty_dds::DecodeContent::Bc4UNorm,
        EncodeFormat::Bc5 => rusty_dds::DecodeContent::Bc5UNorm,
        EncodeFormat::Bc7 => rusty_dds::DecodeContent::Bc7,
        EncodeFormat::Rgba8 => rusty_dds::DecodeContent::Bgra8,
    };
    let layout = rusty_dds::EncodeLayout::flat_2d(content, width, height).with_mips(levels as u32);
    match rusty_dds::Dds::encode_from_rgba8(rgba, layout) {
        Err(e) => Encoded::Refused(e.to_string()),
        Ok(dds) => dds.get_data(0).map_or_else(|e| Encoded::Unread(e.to_string()), |d| Encoded::Data(d.to_vec())),
    }
}

/// Why a texture could not be encoded.
#[derive(Debug, PartialEq, Eq)]
pub enum EncodeError {
    Size { width: u32, height: u32 },
    Length { len: usize, width: u32, height: u32, expected: u64 },
    NotBlocks { width: u32, height: u32, format: EncodeFormat },
    Encoder { format: EncodeFormat, reason: String },
    Unread(String),
    Short { len: usize, expected: u64 },
}

/// The model of an [`EncodeError`].
#[verifier::ext_equal]
pub enum EncodeErrorView {
    Size { width: u32, height: u32 },
    Length { len: int, width: u32, height: u32, expected: int },
    NotBlocks { width: u32, height: u32, format: EncodeFormat },
    Encoder { format: EncodeFormat, reason: Seq<char> },
    Unread(Seq<char>),
    Short { len: int, expected: int },
}

impl View for EncodeError {
    type V = EncodeErrorView;

    open spec fn view(&self) -> EncodeErrorView {
        match self {
            EncodeError::Size { width, height } => EncodeErrorView::Size {
                width: *width,
                height: *height,
            },
            EncodeError::Length { len, width, height, expected } => EncodeErrorView::Length {
                len: *len as int,
                width: *width,
                height: *height,
                expected: *expected as int,
            },
            EncodeError::NotBlocks { width, height, format } => EncodeErrorView::NotBlocks {
                width: *width,
                height: *height,
                format: *format,
            },
            EncodeError::Encoder { format, reason } => EncodeErrorView::Encoder {
                format: *format,
                reason: reason@,
            },
            EncodeError::Unread(reason) => EncodeErrorView::Unread(reason@),
            EncodeError::Short { len, expected } => EncodeErrorView::Short {
                len: *len as int,
                expected: *expected as int,
            },
        }
    }
}

impl EncodeError {
    /// The error in words.
    pub fn message(&self) -> (r: String)
        ensures
            r@ == self.text(),
    {
        let mut out = String::new();
        match self {
            EncodeError::Size { width, height } => {
                push_decimal(&mut out, *width as u64);
                out.append("x");
                push_decimal(&mut out, *height as u64);
                out.append(" is not a usable texture size");
            },
            EncodeError::Length { len, width, height, expected } => {
                push_decimal(&mut out, *len as u64);
                out.append(" bytes of RGBA for ");
                push_decimal(&mut out, *width as u64);
                out.append("x");
                push_decimal(&mut out, *height as u64);
                out.append("; expected ");
                push_decimal(&mut out, *expected as u64);
            },
            EncodeError::NotBlocks { width, height, format } => {
                push_decimal(&mut out, *width as u64);
                out.append("x");
                push_decimal(&mut out, *height as u64);
                out.append(" cannot be ");
                let inner = format.message();
                out.append(inner.as_str());
                out.append("-compressed: both sides must be multiples of 4 (resize or pad the image)");
            },
            EncodeError::Encoder { format, reason } => {
                let inner = format.message();
                out.append(inner.as_str());
                out.append(" encoding failed: ");
                out.append(reason.as_str());
            },
            EncodeError::Unread(reason) => {
                out.append(reason.as_str());
            },
            EncodeError::Short { len, expected } => {
                out.append("encoder produced ");
                push_decimal(&mut out, *len as u64);
                out.append(" bytes, expected ");
                push_decimal(&mut out, *expected as u64);
            },
        }
        assert(out@ =~= self.text());
        out
    }

    /// The error in words.
    pub open spec fn text(&self) -> Seq<char> {
        match self {
            EncodeError::Size { width, height } => crate::text::decimal(*width as nat) + "x"@ + crate::text::decimal(*height as nat) + " is not a usable texture size"@,
            EncodeError::Length { len, width, height, expected } => crate::text::decimal(*len as nat) + " bytes of RGBA for "@ + crate::text::decimal(*width as nat) + "x"@ + crate::text::decimal(*height as nat) + "; expected "@ + crate::text::decimal(*expected as nat),
            EncodeError::NotBlocks { width, height, format } => crate::text::decimal(*width as nat) + "x"@ + crate::text::decimal(*height as nat) + " cannot be "@ + format.text() + "-compressed: both sides must be multiples of 4 (resize or pad the image)"@,
            EncodeError::Encoder { format, reason } => format.text() + " encoding failed: "@ + reason@,
            EncodeError::Unread(reason) => reason@,
            EncodeError::Short { len, expected } => "encoder produced "@ + crate::text::decimal(*len as nat) + " bytes, expected "@ + crate::text::decimal(*expected as nat),
        }
    }
}

/// The most levels that a size has: down to 4x4 for block formats, to 1x1
/// otherwise.
pub open spec fn most_levels(format: EncodeFormat, width: u32, height: u32) -> u8 {
    let f = made_format(format);
    crate::ytd::halvings(
        if crate::ytd::in_blocks(f) {
            4
        } else {
            1
        },
        width as u16,
        height as u16,
        1,
    ) as u8
}

/// How many levels are made: as many as asked for, at least one and at most
/// what the size has; all of them where no number is asked for.
pub open spec fn level_count(most: u8, levels: Option<u8>) -> u8 {
    match levels {
        None => most,
        Some(n) => if n < 1 {
            1
        } else if n > most {
            most
        } else {
            n
        },
    }
}

/// Why pixels are refused before they are encoded.
pub open spec fn refused(
    len: int,
    width: u32,
    height: u32,
    format: EncodeFormat,
) -> Option<EncodeErrorView> {
    if width == 0 || height == 0 || width > 0xFFFF || height > 0xFFFF {
        Some(EncodeErrorView::Size { width, height })
    } else if len != 4 * (width * height) {
        Some(EncodeErrorView::Length { len, width, height, expected: 4 * (width * height) })
    } else if crate::ytd::in_blocks(made_format(format)) && (width % 4 != 0 || height % 4 != 0) {
        Some(EncodeErrorView::NotBlocks { width, height, format })
    } else {
        None
    }
}

/// The texture that encoded pixels make.
pub open spec fn finished(
    name: Seq<char>,
    format: EncodeFormat,
    width: u16,
    height: u16,
    levels: u8,
    result: EncodedView,
) -> Result<TextureView, EncodeErrorView> {
    let f = made_format(format);
    let expected = crate::ytd::dds_chain(f, width, height, levels as nat) as int;
    match result {
        EncodedView::Refused(reason) => Err(EncodeErrorView::Encoder { format, reason }),
        EncodedView::Unread(reason) => Err(EncodeErrorView::Unread(reason)),
        EncodedView::Data(data) => if data.len() < expected {
            Err(EncodeErrorView::Short { len: data.len() as int, expected })
        } else {
            Ok(
                TextureView {
                    name,
                    name_hash: crate::hash::name_hash(crate::text::lowercased(name)),
                    width,
                    height,
                    depth: 1,
                    format: f,
                    levels,
                    stride: crate::ytd::stride_of(f, width, height),
                    pixel_data: data.take(expected),
                },
            )
        },
    }
}

/// What a call made.
pub open spec fn made(r: Result<YtdTexture, EncodeError>) -> Result<TextureView, EncodeErrorView> {
    match r {
        Ok(t) => Ok(t@),
        Err(e) => Err(e@),
    }
}

/// Makes a texture of what the encoder gave for it.
pub fn finish_texture(
    name: &str,
    format: EncodeFormat,
    width: u16,
    height: u16,
    levels: u8,
    result: Encoded,
) -> (r: Result<YtdTexture, EncodeError>)
    ensures
        made(r) == finished(name@, format, width, height, levels, result@),
{
    let tex_format = format.texture_format();
    let expected = wide_chain_size(tex_format, width, height, levels);
    let data = match result {
        Encoded::Refused(reason) => {
            return Err(EncodeError::Encoder { format, reason });
        },
        Encoded::Unread(reason) => {
            return Err(EncodeError::Unread(reason));
        },
        Encoded::Data(d) => d,
    };
    if (data.len() as u64) < expected {
        return Err(EncodeError::Short { len: data.len(), expected });
    }
    let kept = slice_subrange(data.as_slice(), 0, expected as usize);
    assert(kept@ =~= data@.take(expected as int));
    let lower = to_lowercase(name);
    Ok(
        YtdTexture {
            name: name.to_string(),
            name_hash: rage_joaat(lower.as_str()),
            width,
            height,
            depth: 1,
            format: tex_format,
            levels,
            stride: stride_for(tex_format, width, height),
            pixel_data: crate::bytes::to_vec(kept),
        },
    )
}

/// Encodes tightly packed RGBA8 pixels (`width * height * 4` bytes) into a
/// texture called `name`. `levels` is the mip count wanted; `None` or a
/// count beyond what the size allows gives the full chain (down to 4x4 for
/// block formats, 1x1 otherwise). Block formats need both dimensions to be
/// multiples of 4.
pub fn encode_texture(
    name: &str,
    rgba: &[u8],
    width: u32,
    height: u32,
    format: EncodeFormat,
    levels: Option<u8>,
) -> (r: Result<YtdTexture, EncodeError>)
    ensures
        made(r) == (match refused(rgba@.len() as int, width, height, format) {
            Some(e) => Err(e),
            None => {
                let n = level_count(most_levels(format, width, height), levels);
                finished(
                    name@,
                    format,
                    width as u16,
                    height as u16,
                    n,
                    encoded(rgba@, format, width, height, n),
                )
            },
        }),
{
    if width == 0 || height == 0 || width > 0xFFFF || height > 0xFFFF {
        return Err(EncodeError::Size { width, height });
    }
    assert(width * height <= 0xFFFF * 0xFFFF) by (nonlinear_arith)
        requires
            width <= 0xFFFF,
            height <= 0xFFFF,
    ;
    let expected: u64 = 4 * (width as u64 * height as u64);
    if rgba.len() as u64 != expected {
        return Err(EncodeError::Length { len: rgba.len(), width, height, expected });
    }
    let tex_format = format.texture_format();
    if tex_format.is_block_compressed() && (width % 4 != 0 || height % 4 != 0) {
        return Err(EncodeError::NotBlocks { width, height, format });
    }
    let most = full_mip_count(tex_format, width as u16, height as u16);
    let n: u8 = match levels {
        None => most,
        Some(k) => if k < 1 {
            1
        } else if k > most {
            most
        } else {
            k
        },
    };
    let result = encode(rgba, format, width, height, n);
    finish_texture(name, format, width as u16, height as u16, n, result)
}

} // verus!
